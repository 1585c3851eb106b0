use vstd::prelude::*;
use crate::grid::{
    check_grid, grid_supported, layer_rows, rows_view, tile_at, GridError, LayerData, TileGrid,
};

verus! {

/// Side of a square tile in world units.
pub const TILE_SIZE: i64 = 16;

/// An axis-aligned rectangle in world units (y grows downward).
#[derive(Clone, Copy, Debug, PartialEq, Eq, Structural)]
pub struct Rect {
    pub left: i64,
    pub right: i64,
    pub top: i64,
    pub bottom: i64,
}

/// A solid region that blocks movement.
#[derive(Clone, Copy, Debug, PartialEq, Eq, Structural)]
pub enum CollisionShape {
    Rect(Rect),
}

/// `left ≤ right` and `top ≤ bottom`.
pub open spec fn rect_wf(r: Rect) -> bool {
    r.left <= r.right && r.top <= r.bottom
}

/// The world-space footprint of cell (x, y).
pub open spec fn cell_rect(x: int, y: int) -> Rect {
    Rect {
        left: (x * 16) as i64,
        right: (x * 16 + 16) as i64,
        top: (y * 16) as i64,
        bottom: (y * 16 + 16) as i64,
    }
}

/// Shapes of the first `n` cells of row `y`.
pub open spec fn row_shapes(row: Seq<u32>, y: int, n: int) -> Seq<CollisionShape>
    decreases n,
{
    if n <= 0 {
        Seq::empty()
    } else if row[n - 1] != 0 {
        row_shapes(row, y, n - 1).push(CollisionShape::Rect(cell_rect(n - 1, y)))
    } else {
        row_shapes(row, y, n - 1)
    }
}

/// Shapes of the first `n` rows, each `w` cells wide, in row-major order.
pub open spec fn rows_shapes(rows: Seq<Seq<u32>>, w: int, n: int) -> Seq<CollisionShape>
    decreases n,
{
    if n <= 0 {
        Seq::empty()
    } else {
        rows_shapes(rows, w, n - 1) + row_shapes(rows[n - 1], n - 1, w)
    }
}

/// Shapes of layer `l` of `g`: none for a hidden layer.
pub open spec fn layer_shapes(g: &TileGrid, l: int) -> Seq<CollisionShape> {
    if g.layers@[l].visible {
        match layer_rows(g.layers@[l]) {
            Some(rows) => rows_shapes(rows, g.width as int, g.height as int),
            None => Seq::empty(),
        }
    } else {
        Seq::empty()
    }
}

/// Shapes of the first `n` layers, in their declared order.
pub open spec fn layers_shapes(g: &TileGrid, n: int) -> Seq<CollisionShape>
    decreases n,
{
    if n <= 0 {
        Seq::empty()
    } else {
        layers_shapes(g, n - 1) + layer_shapes(g, n - 1)
    }
}

/// The collision model of a grid: one rectangle per occupied cell of each
/// visible layer, layers in order, cells in row-major order.
pub open spec fn collision_model_of(g: &TileGrid) -> Seq<CollisionShape> {
    layers_shapes(g, g.layers@.len() as int)
}

/// The standard interval overlap test on both axes (touching edges overlap).
pub open spec fn rects_overlap(a: Rect, b: Rect) -> bool {
    &&& a.left <= b.right
    &&& a.right >= b.left
    &&& a.top <= b.bottom
    &&& a.bottom >= b.top
}

pub open spec fn shape_overlaps(s: CollisionShape, r: Rect) -> bool {
    match s {
        CollisionShape::Rect(b) => rects_overlap(r, b),
    }
}

/// Whether `r` overlaps some shape of `m`.
pub open spec fn model_overlaps(m: Seq<CollisionShape>, r: Rect) -> bool {
    exists|i: int| 0 <= i < m.len() && shape_overlaps(#[trigger] m[i], r)
}

/// The collision shapes of one loaded map.
pub struct Level {
    collision_shapes: Vec<CollisionShape>,
}

impl View for Level {
    type V = Seq<CollisionShape>;

    closed spec fn view(&self) -> Seq<CollisionShape> {
        self.collision_shapes@
    }
}

impl Level {
    /// Extracts the collision model of `map`.
    pub fn new(map: &TileGrid) -> (r: Result<Level, GridError>)
        ensures
            r is Ok <==> grid_supported(map),
            r matches Ok(level) ==> level@ == collision_model_of(map),
            r matches Err(e) ==> e == GridError::UnsupportedGridKind,
    {
        if !check_grid(map) {
            return Err(GridError::UnsupportedGridKind);
        }
        let mut collision_shapes: Vec<CollisionShape> = Vec::new();
        let mut i: usize = 0;
        while i < map.layers.len()
            invariant
                0 <= i <= map.layers@.len(),
                grid_supported(map),
                collision_shapes@ == layers_shapes(map, i as int),
            decreases map.layers@.len() - i,
        {
            let layer = &map.layers[i];
            if layer.visible {
                match &layer.tiles {
                    LayerData::Finite(rows) => {
                        assert(map.layers@[i as int].visible);
                        assert(layer_rows(map.layers@[i as int]) == Some(rows_view(rows@)));
                        assert forall|k: int| 0 <= k < rows@.len() implies #[trigger] rows@[k]@.len()
                            == map.width by {
                            assert(rows_view(rows@)[k].len() == map.width);
                        }
                        let ghost before = collision_shapes@;
                        let mut y: usize = 0;
                        while y < rows.len()
                            invariant
                                0 <= y <= rows@.len(),
                                rows@.len() == map.height,
                                0 <= i < map.layers@.len(),
                                map.layers@[i as int].visible,
                                layer_rows(map.layers@[i as int]) == Some(rows_view(rows@)),
                                forall|k: int|
                                    0 <= k < rows@.len() ==> #[trigger] rows@[k]@.len()
                                        == map.width,
                                collision_shapes@ == before + rows_shapes(
                                    rows_view(rows@),
                                    map.width as int,
                                    y as int,
                                ),
                            decreases rows@.len() - y,
                        {
                            let row = &rows[y];
                            assert(row@.len() == map.width);
                            let ghost mid = collision_shapes@;
                            let mut x: usize = 0;
                            while x < row.len()
                                invariant
                                    0 <= x <= row@.len(),
                                    y < rows@.len(),
                                    rows@.len() == map.height,
                                    row@.len() == map.width,
                                    row@ == rows_view(rows@)[y as int],
                                    collision_shapes@ == mid + row_shapes(row@, y as int, x as int),
                                decreases row@.len() - x,
                            {
                                if row[x] != 0 {
                                    let left = x as i64 * TILE_SIZE;
                                    let top = y as i64 * TILE_SIZE;
                                    collision_shapes.push(
                                        CollisionShape::Rect(
                                            Rect {
                                                left,
                                                right: left + TILE_SIZE,
                                                top,
                                                bottom: top + TILE_SIZE,
                                            },
                                        ),
                                    );
                                }
                                x += 1;
                            }
                            assert(collision_shapes@ =~= before + rows_shapes(
                                rows_view(rows@),
                                map.width as int,
                                y + 1,
                            ));
                            y += 1;
                        }
                    },
                    LayerData::Infinite => {
                        assert(false);
                    },
                }
            }
            assert(collision_shapes@ =~= layers_shapes(map, i + 1));
            i += 1;
        }
        Ok(Level { collision_shapes })
    }

    /// A level holding the given shapes.
    pub fn from_shapes(shapes: Vec<CollisionShape>) -> (r: Level)
        ensures
            r@ == shapes@,
    {
        Level { collision_shapes: shapes }
    }

    /// The shapes of this level, in extraction order.
    pub fn collision_shapes(&self) -> (r: &Vec<CollisionShape>)
        ensures
            r@ == self@,
    {
        &self.collision_shapes
    }

    /// Whether `r` overlaps any shape of this level.
    pub fn overlaps(&self, r: &Rect) -> (b: bool)
        ensures
            b == model_overlaps(self@, *r),
    {
        let mut i: usize = 0;
        while i < self.collision_shapes.len()
            invariant
                0 <= i <= self@.len(),
                forall|j: int| 0 <= j < i ==> !shape_overlaps(#[trigger] self@[j], *r),
            decreases self@.len() - i,
        {
            match &self.collision_shapes[i] {
                CollisionShape::Rect(b) => {
                    if r.left <= b.right && r.right >= b.left && r.top <= b.bottom && r.bottom
                        >= b.top {
                        return true;
                    }
                },
            }
            i += 1;
        }
        false
    }
}

/// How many of the first `n` cells of `row` are occupied.
pub open spec fn row_occupied(row: Seq<u32>, n: int) -> int
    decreases n,
{
    if n <= 0 {
        0
    } else {
        row_occupied(row, n - 1) + if row[n - 1] != 0 {
            1int
        } else {
            0int
        }
    }
}

/// How many cells of the first `n` rows, `w` cells each, are occupied.
pub open spec fn rows_occupied(rows: Seq<Seq<u32>>, w: int, n: int) -> int
    decreases n,
{
    if n <= 0 {
        0
    } else {
        rows_occupied(rows, w, n - 1) + row_occupied(rows[n - 1], w)
    }
}

/// The number of (visible layer, cell) pairs with a non-zero tile among the
/// first `n` layers.
pub open spec fn occupied_count(g: &TileGrid, n: int) -> int
    decreases n,
{
    if n <= 0 {
        0
    } else {
        occupied_count(g, n - 1) + if g.layers@[n - 1].visible {
            rows_occupied(layer_rows(g.layers@[n - 1]).unwrap(), g.width as int, g.height as int)
        } else {
            0
        }
    }
}

proof fn lemma_row_count(row: Seq<u32>, y: int, n: int)
    ensures
        row_shapes(row, y, n).len() == row_occupied(row, n),
    decreases n,
{
    if n > 0 {
        lemma_row_count(row, y, n - 1);
    }
}

proof fn lemma_rows_count(rows: Seq<Seq<u32>>, w: int, n: int)
    ensures
        rows_shapes(rows, w, n).len() == rows_occupied(rows, w, n),
    decreases n,
{
    if n > 0 {
        lemma_rows_count(rows, w, n - 1);
        lemma_row_count(rows[n - 1], n - 1, w);
    }
}

proof fn lemma_layers_count(g: &TileGrid, n: int)
    requires
        grid_supported(g),
        n <= g.layers@.len(),
    ensures
        layers_shapes(g, n).len() == occupied_count(g, n),
    decreases n,
{
    if n > 0 {
        lemma_layers_count(g, n - 1);
        if g.layers@[n - 1].visible {
            lemma_rows_count(
                layer_rows(g.layers@[n - 1]).unwrap(),
                g.width as int,
                g.height as int,
            );
        }
    }
}

/// The collision model of a supported grid holds exactly one shape per
/// (visible layer, cell) pair whose tile reference is non-zero.
pub proof fn lemma_shape_count_is_occupancy(g: &TileGrid)
    requires
        grid_supported(g),
    ensures
        collision_model_of(g).len() == occupied_count(g, g.layers@.len() as int),
{
    lemma_layers_count(g, g.layers@.len() as int);
}

/// Two cells of a grid get the same bounds only when they are the same cell.
pub proof fn lemma_cell_rects_distinct(x1: u32, y1: u32, x2: u32, y2: u32)
    ensures
        cell_rect(x1 as int, y1 as int) == cell_rect(x2 as int, y2 as int) ==> x1 == x2 && y1
            == y2,
{
}

/// A rectangle identical to a shape of the model overlaps the model.
pub proof fn lemma_query_reflexive(m: Seq<CollisionShape>, i: int, r: Rect)
    requires
        0 <= i < m.len(),
        m[i] == CollisionShape::Rect(r),
        rect_wf(r),
    ensures
        model_overlaps(m, r),
{
    assert(shape_overlaps(m[i], r));
}

/// A rectangle that lies strictly beyond each shape of the model on at least
/// one axis overlaps nothing.
pub proof fn lemma_query_separated(m: Seq<CollisionShape>, r: Rect)
    requires
        forall|i: int|
            0 <= i < m.len() ==> match #[trigger] m[i] {
                CollisionShape::Rect(b) => r.right < b.left || r.left > b.right || r.bottom < b.top
                    || r.top > b.bottom,
            },
    ensures
        !model_overlaps(m, r),
{
}

/// Cell (x, y) of layer `l` is visible, inside the grid and occupied.
pub open spec fn cell_occupied(g: &TileGrid, l: int, x: int, y: int) -> bool {
    &&& 0 <= l < g.layers@.len()
    &&& g.layers@[l].visible
    &&& 0 <= x < g.width
    &&& 0 <= y < g.height
    &&& tile_at(g, l, x, y) != 0
}

proof fn lemma_row_member(row: Seq<u32>, y: int, n: int, i: int)
    requires
        n <= row.len(),
        0 <= i < row_shapes(row, y, n).len(),
    ensures
        exists|x: int|
            0 <= x < n && row[x] != 0 && row_shapes(row, y, n)[i] == CollisionShape::Rect(
                #[trigger] cell_rect(x, y),
            ),
    decreases n,
{
    let prev = row_shapes(row, y, n - 1);
    if i < prev.len() {
        lemma_row_member(row, y, n - 1, i);
        assert(row_shapes(row, y, n)[i] == prev[i]);
    } else {
        assert(row[n - 1] != 0);
        assert(row_shapes(row, y, n)[i] == CollisionShape::Rect(cell_rect(n - 1, y)));
    }
}

proof fn lemma_rows_member(rows: Seq<Seq<u32>>, w: int, n: int, i: int)
    requires
        n <= rows.len(),
        forall|y: int| 0 <= y < rows.len() ==> #[trigger] rows[y].len() == w,
        0 <= i < rows_shapes(rows, w, n).len(),
    ensures
        exists|x: int, y: int|
            0 <= x < w && 0 <= y < n && rows[y][x] != 0 && rows_shapes(rows, w, n)[i]
                == CollisionShape::Rect(#[trigger] cell_rect(x, y)),
    decreases n,
{
    let prev = rows_shapes(rows, w, n - 1);
    let last = row_shapes(rows[n - 1], n - 1, w);
    if i < prev.len() {
        lemma_rows_member(rows, w, n - 1, i);
        assert(rows_shapes(rows, w, n)[i] == prev[i]);
    } else {
        lemma_row_member(rows[n - 1], n - 1, w, i - prev.len());
        assert(rows_shapes(rows, w, n)[i] == last[i - prev.len()]);
        let x = choose|x: int|
            0 <= x < w && rows[n - 1][x] != 0 && last[i - prev.len()] == CollisionShape::Rect(
                #[trigger] cell_rect(x, n - 1),
            );
        assert(rows[n - 1][x] != 0 && rows_shapes(rows, w, n)[i] == CollisionShape::Rect(
            cell_rect(x, n - 1),
        ));
    }
}

proof fn lemma_layers_member(g: &TileGrid, n: int, i: int)
    requires
        grid_supported(g),
        0 <= n <= g.layers@.len(),
        0 <= i < layers_shapes(g, n).len(),
    ensures
        exists|l: int, x: int, y: int|
            #[trigger] cell_occupied(g, l, x, y) && layers_shapes(g, n)[i] == CollisionShape::Rect(
                cell_rect(x, y),
            ),
    decreases n,
{
    let prev = layers_shapes(g, n - 1);
    let last = layer_shapes(g, n - 1);
    if i < prev.len() {
        lemma_layers_member(g, n - 1, i);
        assert(layers_shapes(g, n)[i] == prev[i]);
    } else {
        assert(layers_shapes(g, n)[i] == last[i - prev.len()]);
        assert(g.layers@[n - 1].visible);
        let rows = layer_rows(g.layers@[n - 1]).unwrap();
        lemma_rows_member(rows, g.width as int, g.height as int, i - prev.len());
        let (x, y) = choose|x: int, y: int|
            0 <= x < g.width && 0 <= y < g.height && rows[y][x] != 0 && last[i - prev.len()]
                == CollisionShape::Rect(#[trigger] cell_rect(x, y));
        assert(cell_occupied(g, n - 1, x, y));
    }
}

/// Each shape of the collision model of a supported grid is the rectangle of
/// an occupied cell of a visible layer.
pub proof fn lemma_shapes_are_occupied_cells(g: &TileGrid, i: int)
    requires
        grid_supported(g),
        0 <= i < collision_model_of(g).len(),
    ensures
        exists|l: int, x: int, y: int|
            cell_occupied(g, l, x, y) && collision_model_of(g)[i] == CollisionShape::Rect(cell_rect(x, y)),
{
    lemma_layers_member(g, g.layers@.len() as int, i);
    assert(layers_shapes(g, g.layers@.len() as int)[i] == collision_model_of(g)[i]);
}

} // verus!
