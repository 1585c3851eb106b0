use vstd::prelude::*;
use crate::chunk::{
    build_chunks, chunks_of, chunks_view, grid_chunks, grid_known, rows_known, Chunk, LoadError, TileUv,
    MAX_CELLS,
};
use crate::level::{
    collision_model_of, layer_shapes, layers_shapes, model_overlaps, CollisionShape, Level, Rect,
};
use crate::grid::{grid_supported, grid_view, layer_rows, layer_supported, layer_view, TileGrid};

verus! {

/// A world-space position or displacement.
#[derive(Clone, Copy, Debug, PartialEq, Eq, Structural)]
pub struct Point {
    pub x: i64,
    pub y: i64,
}

/// The actor's footprint as offsets from its position: 12 units wide,
/// 12 units tall, ending at the feet 16 units below the position.
pub fn actor_footprint() -> (r: Rect)
    ensures
        r == (Rect { left: 2, right: 14, top: 4, bottom: 16 }),
{
    Rect { left: 2, right: 14, top: 4, bottom: 16 }
}

/// The position and footprint after moving by `d` stay within `i64`.
pub open spec fn move_fits(p: Point, d: Point, f: Rect) -> bool {
    let cx = p.x + d.x;
    let cy = p.y + d.y;
    &&& i64::MIN <= cx <= i64::MAX
    &&& i64::MIN <= cy <= i64::MAX
    &&& i64::MIN <= cx + f.left <= i64::MAX
    &&& i64::MIN <= cx + f.right <= i64::MAX
    &&& i64::MIN <= cy + f.top <= i64::MAX
    &&& i64::MIN <= cy + f.bottom <= i64::MAX
}

/// The requested position `p + d`.
pub open spec fn candidate(p: Point, d: Point) -> Point {
    Point { x: (p.x + d.x) as i64, y: (p.y + d.y) as i64 }
}

/// The footprint `f` placed at position `c`.
pub open spec fn footprint_at(c: Point, f: Rect) -> Rect {
    Rect {
        left: (c.x + f.left) as i64,
        right: (c.x + f.right) as i64,
        top: (c.y + f.top) as i64,
        bottom: (c.y + f.bottom) as i64,
    }
}

/// What a query answers for a runtime holding `m`: nothing blocks before the
/// first load.
pub open spec fn runtime_overlaps(m: Option<Seq<CollisionShape>>, r: Rect) -> bool {
    match m {
        Some(shapes) => model_overlaps(shapes, r),
        None => false,
    }
}

/// The position after a move request: all of it or none of it.
pub open spec fn resolved(m: Option<Seq<CollisionShape>>, p: Point, d: Point, f: Rect) -> Point {
    let c = candidate(p, d);
    if runtime_overlaps(m, footprint_at(c, f)) {
        p
    } else {
        c
    }
}

/// Holds the collision model of the current map, if one was loaded.
pub struct LevelRuntime {
    current: Option<Level>,
}

impl View for LevelRuntime {
    type V = Option<Seq<CollisionShape>>;

    closed spec fn view(&self) -> Option<Seq<CollisionShape>> {
        match self.current {
            Some(level) => Some(level@),
            None => None,
        }
    }
}

impl LevelRuntime {
    /// A runtime before its first load.
    pub fn new() -> (r: LevelRuntime)
        ensures
            r@ is None,
    {
        LevelRuntime { current: None }
    }

    /// Swaps in the model of a newly loaded map; the old one is dropped whole.
    pub fn replace(&mut self, level: Level)
        ensures
            final(self)@ == Some(level@),
    {
        self.current = Some(level);
    }

    /// Whether `r` overlaps any shape of the current model.
    pub fn query_overlaps(&self, r: &Rect) -> (b: bool)
        ensures
            b == runtime_overlaps(self@, *r),
    {
        match &self.current {
            Some(level) => level.overlaps(r),
            None => false,
        }
    }

    /// Loads a decoded map: on success the collision model is replaced and the
    /// chunks to draw are returned; on failure the runtime is left as it was.
    pub fn on_map_ready(&mut self, grid: &TileGrid, atlas: &Vec<TileUv>) -> (r: Result<
        Vec<Chunk>,
        LoadError,
    >)
        requires
            (grid.width as int) * (grid.height as int) <= MAX_CELLS,
        ensures
            !grid_supported(grid) ==> r == Err::<Vec<Chunk>, LoadError>(
                LoadError::UnsupportedGridKind,
            ),
            grid_supported(grid) && !grid_known(grid, atlas@) ==> r == Err::<Vec<Chunk>, LoadError>(
                LoadError::UnknownTileReference,
            ),
            grid_supported(grid) && grid_known(grid, atlas@) ==> r is Ok,
            r matches Ok(cs) ==> chunks_view(cs@) == chunks_of(grid, atlas@) && final(self)@ == Some(
                collision_model_of(grid),
            ),
            r is Err ==> final(self)@ == old(self)@,
    {
        let level = match Level::new(grid) {
            Ok(level) => level,
            Err(_) => {
                return Err(LoadError::UnsupportedGridKind);
            },
        };
        let chunks = match build_chunks(grid, atlas) {
            Ok(chunks) => chunks,
            Err(e) => {
                return Err(e);
            },
        };
        self.replace(level);
        Ok(chunks)
    }

    /// Moves an actor at `pos` by `disp` with footprint offsets `footprint`:
    /// to the candidate position when its footprint there overlaps nothing,
    /// else not at all.
    pub fn resolve_move(&self, pos: Point, disp: Point, footprint: Rect) -> (r: Point)
        requires
            move_fits(pos, disp, footprint),
        ensures
            r == resolved(self@, pos, disp, footprint),
            r == pos || r == candidate(pos, disp),
    {
        let c = Point { x: pos.x + disp.x, y: pos.y + disp.y };
        let at = Rect {
            left: c.x + footprint.left,
            right: c.x + footprint.right,
            top: c.y + footprint.top,
            bottom: c.y + footprint.bottom,
        };
        if self.query_overlaps(&at) {
            pos
        } else {
            c
        }
    }
}

/// A change to a map asset, as the host reports it.
pub enum MapEvent {
    /// A map was decoded, with the atlas entries of its tile references.
    Created { grid: TileGrid, atlas: Vec<TileUv> },
    /// A loaded map changed; nothing is reloaded for it.
    Modified,
    /// A loaded map was dropped; the current model stays.
    Removed,
}

/// Handles one map event: a created map is loaded into `level` and its
/// outcome returned; the other events leave `level` alone and return `None`.
pub fn process_loaded_tile_maps2(level: &mut LevelRuntime, event: &MapEvent) -> (r: Option<
    Result<Vec<Chunk>, LoadError>,
>)
    requires
        event matches MapEvent::Created { grid, .. } ==> (grid.width as int) * (grid.height as int)
            <= MAX_CELLS,
    ensures
        match event {
            MapEvent::Created { grid, atlas } => match r {
                Some(Ok(cs)) => grid_supported(grid) && grid_known(grid, atlas@) && chunks_view(cs@)
                    == chunks_of(grid, atlas@) && final(level)@ == Some(collision_model_of(grid)),
                Some(Err(e)) => final(level)@ == old(level)@ && if !grid_supported(grid) {
                    e == LoadError::UnsupportedGridKind
                } else {
                    !grid_known(grid, atlas@) && e == LoadError::UnknownTileReference
                },
                None => false,
            },
            _ => r is None && final(level)@ == old(level)@,
        },
{
    match event {
        MapEvent::Created { grid, atlas } => Some(level.on_map_ready(grid, atlas)),
        MapEvent::Modified => None,
        MapEvent::Removed => None,
    }
}

proof fn lemma_same_layers(g1: &TileGrid, g2: &TileGrid)
    requires
        grid_view(g1) == grid_view(g2),
    ensures
        g1.layers@.len() == g2.layers@.len(),
        forall|i: int|
            0 <= i < g1.layers@.len() ==> (#[trigger] g1.layers@[i]).visible
                == g2.layers@[i].visible && layer_rows(g1.layers@[i]) == layer_rows(
                g2.layers@[i],
            ),
{
    let v1 = g1.layers@.map_values(|l: crate::grid::Layer| layer_view(l));
    let v2 = g2.layers@.map_values(|l: crate::grid::Layer| layer_view(l));
    assert(v1.len() == v2.len());
    assert forall|i: int| 0 <= i < g1.layers@.len() implies (#[trigger] g1.layers@[i]).visible
        == g2.layers@[i].visible && layer_rows(g1.layers@[i]) == layer_rows(g2.layers@[i]) by {
        assert(v1[i] == v2[i]);
    }
}

proof fn lemma_same_prefix(g1: &TileGrid, g2: &TileGrid, table: Seq<TileUv>, n: int)
    requires
        grid_view(g1) == grid_view(g2),
        0 <= n <= g1.layers@.len(),
    ensures
        layers_shapes(g1, n) == layers_shapes(g2, n),
        grid_chunks(g1, table, n) == grid_chunks(g2, table, n),
    decreases n,
{
    lemma_same_layers(g1, g2);
    if n > 0 {
        lemma_same_prefix(g1, g2, table, n - 1);
        assert(g1.layers@[n - 1].visible == g2.layers@[n - 1].visible);
        assert(layer_shapes(g1, n - 1) == layer_shapes(g2, n - 1));
    }
}

/// Loading depends on what the grid holds alone: two grids with the same
/// contents give the same outcome, the same collision model and the same
/// chunks.
pub proof fn lemma_load_deterministic(g1: &TileGrid, g2: &TileGrid, table: Seq<TileUv>)
    requires
        grid_view(g1) == grid_view(g2),
    ensures
        grid_supported(g1) == grid_supported(g2),
        grid_known(g1, table) == grid_known(g2, table),
        collision_model_of(g1) == collision_model_of(g2),
        chunks_of(g1, table) == chunks_of(g2, table),
{
    lemma_same_layers(g1, g2);
    lemma_same_prefix(g1, g2, table, g1.layers@.len() as int);
    assert forall|i: int| 0 <= i < g1.layers@.len() implies layer_supported(
        #[trigger] g1.layers@[i],
        g1.width as int,
        g1.height as int,
    ) == layer_supported(g2.layers@[i], g2.width as int, g2.height as int) && rows_known(
        layer_rows(g1.layers@[i]).unwrap(),
        table,
    ) == rows_known(layer_rows(g2.layers@[i]).unwrap(), table) && g1.layers@[i].visible
        == g2.layers@[i].visible by {
        assert(layer_rows(g1.layers@[i]) == layer_rows(g2.layers@[i]));
    }
    if grid_supported(g1) {
        assert forall|i: int| 0 <= i < g2.layers@.len() && (#[trigger] g2.layers@[i]).visible
            implies layer_supported(g2.layers@[i], g2.width as int, g2.height as int) by {
            assert(g1.layers@[i].visible);
        }
    }
    if grid_supported(g2) {
        assert forall|i: int| 0 <= i < g1.layers@.len() && (#[trigger] g1.layers@[i]).visible
            implies layer_supported(g1.layers@[i], g1.width as int, g1.height as int) by {
            assert(g2.layers@[i].visible);
        }
    }
    if grid_known(g1, table) {
        assert forall|i: int| 0 <= i < g2.layers@.len() && (#[trigger] g2.layers@[i]).visible
            implies rows_known(layer_rows(g2.layers@[i]).unwrap(), table) by {
            assert(g1.layers@[i].visible);
        }
    }
    if grid_known(g2, table) {
        assert forall|i: int| 0 <= i < g1.layers@.len() && (#[trigger] g1.layers@[i]).visible
            implies rows_known(layer_rows(g1.layers@[i]).unwrap(), table) by {
            assert(g2.layers@[i].visible);
        }
    }
}

/// With no shapes loaded, or an empty model, no rectangle is blocked.
pub proof fn lemma_empty_model_blocks_nothing(r: Rect)
    ensures
        !runtime_overlaps(None, r),
        !runtime_overlaps(Some(Seq::<CollisionShape>::empty()), r),
{
}

} // verus!
