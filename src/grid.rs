use vstd::prelude::*;

verus! {

/// The cells of one layer: finite rows of tile references, or a streamed
/// layer whose cells are not all present.
pub enum LayerData {
    /// Row-major tile references: `rows[y][x]`, 0 for an empty cell.
    Finite(Vec<Vec<u32>>),
    /// An infinite (chunked) layer, which this library does not support.
    Infinite,
}

pub struct Layer {
    pub visible: bool,
    pub tiles: LayerData,
}

/// A decoded map: `width` × `height` cells in each of its layers.
pub struct TileGrid {
    pub width: u32,
    pub height: u32,
    pub layers: Vec<Layer>,
}

#[derive(Clone, Copy, Debug, PartialEq, Eq, Structural)]
pub enum GridError {
    /// A visible layer is not a finite, fully populated `width` × `height` grid.
    UnsupportedGridKind,
}

/// The rows of a layer as plain sequences.
pub open spec fn rows_view(rows: Seq<Vec<u32>>) -> Seq<Seq<u32>> {
    rows.map_values(|r: Vec<u32>| r@)
}

/// The rows of a layer, or `None` for a layer without finite rows.
pub open spec fn layer_rows(layer: Layer) -> Option<Seq<Seq<u32>>> {
    match layer.tiles {
        LayerData::Finite(rows) => Some(rows_view(rows@)),
        LayerData::Infinite => None,
    }
}

/// `h` rows of `w` cells each.
pub open spec fn rows_rectangular(rows: Seq<Seq<u32>>, w: int, h: int) -> bool {
    &&& rows.len() == h
    &&& forall|y: int| 0 <= y < h ==> #[trigger] rows[y].len() == w
}

pub open spec fn layer_supported(layer: Layer, w: int, h: int) -> bool {
    match layer_rows(layer) {
        Some(rows) => rows_rectangular(rows, w, h),
        None => false,
    }
}

/// Every visible layer is a finite, fully populated rectangular grid.
pub open spec fn grid_supported(g: &TileGrid) -> bool {
    forall|i: int|
        0 <= i < g.layers@.len() && (#[trigger] g.layers@[i]).visible ==> layer_supported(
            g.layers@[i],
            g.width as int,
            g.height as int,
        )
}

/// What a layer holds: its visibility and its rows.
pub open spec fn layer_view(layer: Layer) -> (bool, Option<Seq<Seq<u32>>>) {
    (layer.visible, layer_rows(layer))
}

/// What a grid holds: its size and the contents of its layers.
pub open spec fn grid_view(g: &TileGrid) -> (u32, u32, Seq<(bool, Option<Seq<Seq<u32>>>)>) {
    (g.width, g.height, g.layers@.map_values(|l: Layer| layer_view(l)))
}

/// The tile reference at cell (x, y) of layer `l`.
pub open spec fn tile_at(g: &TileGrid, l: int, x: int, y: int) -> u32 {
    layer_rows(g.layers@[l]).unwrap()[y][x]
}

/// Whether every visible layer of `g` is finite and rectangular.
pub fn check_grid(g: &TileGrid) -> (r: bool)
    ensures
        r == grid_supported(g),
{
    let mut i: usize = 0;
    while i < g.layers.len()
        invariant
            0 <= i <= g.layers@.len(),
            forall|j: int|
                0 <= j < i && (#[trigger] g.layers@[j]).visible ==> layer_supported(
                    g.layers@[j],
                    g.width as int,
                    g.height as int,
                ),
        decreases g.layers@.len() - i,
    {
        let layer = &g.layers[i];
        if layer.visible {
            match &layer.tiles {
                LayerData::Finite(rows) => {
                    if rows.len() != g.height as usize {
                        return false;
                    }
                    let mut y: usize = 0;
                    while y < rows.len()
                        invariant
                            0 <= y <= rows@.len(),
                            rows@.len() == g.height,
                            0 <= i < g.layers@.len(),
                            g.layers@[i as int].visible,
                            layer_rows(g.layers@[i as int]) == Some(rows_view(rows@)),
                            forall|k: int| 0 <= k < y ==> #[trigger] rows@[k]@.len() == g.width,
                        decreases rows@.len() - y,
                    {
                        if rows[y].len() != g.width as usize {
                            assert(rows_view(rows@)[y as int].len() != g.width);
                            assert(!layer_supported(g.layers@[i as int], g.width as int, g.height as int));
                            return false;
                        }
                        y += 1;
                    }
                    assert(rows_rectangular(rows_view(rows@), g.width as int, g.height as int));
                },
                LayerData::Infinite => {
                    return false;
                },
            }
        }
        i += 1;
    }
    true
}

} // verus!
