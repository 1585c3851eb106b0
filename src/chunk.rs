use vstd::prelude::*;
use crate::grid::{
    check_grid, grid_supported, layer_rows, rows_rectangular, rows_view, tile_at, LayerData,
    TileGrid,
};

verus! {

/// Where a tile reference is drawn from: its atlas and the texel rectangle
/// `[u0, u1] × [v0, v1]` inside it.
#[derive(Clone, Copy, Debug, PartialEq, Eq, Structural)]
pub struct TileUv {
    pub gid: u32,
    pub atlas_id: u32,
    pub u0: u32,
    pub v0: u32,
    pub u1: u32,
    pub v1: u32,
}

/// One quad corner: world position and atlas texel coordinates.
#[derive(Clone, Copy, Debug, PartialEq, Eq, Structural)]
pub struct Vertex {
    pub x: i64,
    pub y: i64,
    pub u: u32,
    pub v: u32,
}

/// The quads of one layer's cells that draw from one atlas.
pub struct Chunk {
    pub layer: usize,
    pub atlas_id: u32,
    pub vertices: Vec<Vertex>,
    pub indices: Vec<u32>,
}

impl View for Chunk {
    type V = (usize, u32, Seq<Vertex>, Seq<u32>);

    open spec fn view(&self) -> (usize, u32, Seq<Vertex>, Seq<u32>) {
        (self.layer, self.atlas_id, self.vertices@, self.indices@)
    }
}

#[derive(Clone, Copy, Debug, PartialEq, Eq, Structural)]
pub enum LoadError {
    /// A visible layer is not a finite, fully populated rectangular grid.
    UnsupportedGridKind,
    /// A visible cell refers to a tile that has no atlas entry.
    UnknownTileReference,
    /// The map container could not be decoded.
    DecodeFailure,
}

/// The index of the first entry of `table` at or after `i` for `gid`, or -1.
pub open spec fn find_from(table: Seq<TileUv>, gid: u32, i: int) -> int
    decreases table.len() - i,
{
    if i < 0 || i >= table.len() {
        -1
    } else if table[i].gid == gid {
        i
    } else {
        find_from(table, gid, i + 1)
    }
}

/// The index of the first entry of `table` for `gid`, or -1.
pub open spec fn entry_of(table: Seq<TileUv>, gid: u32) -> int {
    find_from(table, gid, 0)
}

/// Whether a cell holding `gid` is drawn from atlas `a`.
pub open spec fn in_group(table: Seq<TileUv>, gid: u32, a: u32) -> bool {
    gid != 0 && entry_of(table, gid) >= 0 && table[entry_of(table, gid)].atlas_id == a
}

/// The four corners of cell (x, y), clockwise from the top left.
pub open spec fn cell_quad(x: int, y: int, t: TileUv) -> Seq<Vertex> {
    let left = (x * 16) as i64;
    let right = (x * 16 + 16) as i64;
    let top = (y * 16) as i64;
    let bottom = (y * 16 + 16) as i64;
    seq![
        Vertex { x: left, y: top, u: t.u0, v: t.v0 },
        Vertex { x: right, y: top, u: t.u1, v: t.v0 },
        Vertex { x: right, y: bottom, u: t.u1, v: t.v1 },
        Vertex { x: left, y: bottom, u: t.u0, v: t.v1 },
    ]
}

/// Vertices of the cells of atlas `a` among the first `n` cells of row `y`.
pub open spec fn row_quads(row: Seq<u32>, y: int, n: int, table: Seq<TileUv>, a: u32) -> Seq<
    Vertex,
>
    decreases n,
{
    if n <= 0 {
        Seq::empty()
    } else if in_group(table, row[n - 1], a) {
        row_quads(row, y, n - 1, table, a) + cell_quad(
            n - 1,
            y,
            table[entry_of(table, row[n - 1])],
        )
    } else {
        row_quads(row, y, n - 1, table, a)
    }
}

/// How many of the first `n` cells of `row` are drawn from atlas `a`.
pub open spec fn row_count(row: Seq<u32>, n: int, table: Seq<TileUv>, a: u32) -> int
    decreases n,
{
    if n <= 0 {
        0
    } else if in_group(table, row[n - 1], a) {
        row_count(row, n - 1, table, a) + 1
    } else {
        row_count(row, n - 1, table, a)
    }
}

/// Vertices of the cells of atlas `a` in the first `n` rows, row-major.
pub open spec fn rows_quads(rows: Seq<Seq<u32>>, w: int, n: int, table: Seq<TileUv>, a: u32) -> Seq<
    Vertex,
>
    decreases n,
{
    if n <= 0 {
        Seq::empty()
    } else {
        rows_quads(rows, w, n - 1, table, a) + row_quads(rows[n - 1], n - 1, w, table, a)
    }
}

pub open spec fn rows_count(rows: Seq<Seq<u32>>, w: int, n: int, table: Seq<TileUv>, a: u32) -> int
    decreases n,
{
    if n <= 0 {
        0
    } else {
        rows_count(rows, w, n - 1, table, a) + row_count(rows[n - 1], w, table, a)
    }
}

/// The six indices (two triangles) of quad number `q`.
pub open spec fn quad_index_block(q: int) -> Seq<u32> {
    seq![
        (4 * q) as u32,
        (4 * q + 1) as u32,
        (4 * q + 2) as u32,
        (4 * q) as u32,
        (4 * q + 2) as u32,
        (4 * q + 3) as u32,
    ]
}

/// The index buffer of `n` quads.
pub open spec fn quad_indices(n: int) -> Seq<u32>
    decreases n,
{
    if n <= 0 {
        Seq::empty()
    } else {
        quad_indices(n - 1) + quad_index_block(n - 1)
    }
}

/// At most this many cells, so that every index of a `u32` index buffer fits.
pub const MAX_CELLS: u64 = 0x3FFF_FFFF;

/// The first entry of `table` for `gid`.
pub fn find_entry(table: &Vec<TileUv>, gid: u32) -> (r: Option<usize>)
    ensures
        match r {
            Some(k) => k < table@.len() && k as int == entry_of(table@, gid),
            None => entry_of(table@, gid) == -1,
        },
{
    let mut i: usize = 0;
    while i < table.len()
        invariant
            0 <= i <= table@.len(),
            find_from(table@, gid, 0) == find_from(table@, gid, i as int),
        decreases table@.len() - i,
    {
        if table[i].gid == gid {
            return Some(i);
        }
        i += 1;
    }
    None
}

/// The vertices, index buffer and quad count of the cells of `rows` drawn
/// from atlas `a`.
pub fn batch_group(rows: &Vec<Vec<u32>>, w: u32, h: u32, table: &Vec<TileUv>, a: u32) -> (r: (
    Vec<Vertex>,
    Vec<u32>,
    usize,
))
    requires
        rows_rectangular(rows_view(rows@), w as int, h as int),
        (w as int) * (h as int) <= MAX_CELLS,
    ensures
        r.0@ == rows_quads(rows_view(rows@), w as int, h as int, table@, a),
        r.2 as int == rows_count(rows_view(rows@), w as int, h as int, table@, a),
        r.1@ == quad_indices(r.2 as int),
{
    let ghost rv = rows_view(rows@);
    let mut vertices: Vec<Vertex> = Vec::new();
    let mut indices: Vec<u32> = Vec::new();
    let mut q: usize = 0;
    let mut y: usize = 0;
    while y < rows.len()
        invariant
            0 <= y <= rows@.len(),
            rv == rows_view(rows@),
            rows_rectangular(rv, w as int, h as int),
            (w as int) * (h as int) <= MAX_CELLS,
            vertices@ == rows_quads(rv, w as int, y as int, table@, a),
            q as int == rows_count(rv, w as int, y as int, table@, a),
            indices@ == quad_indices(q as int),
            q <= (y as int) * (w as int),
        decreases rows@.len() - y,
    {
        let row = &rows[y];
        assert(row@ == rv[y as int]);
        let ghost vbefore = vertices@;
        let ghost qbefore = q as int;
        let mut x: usize = 0;
        while x < row.len()
            invariant
                0 <= x <= row@.len(),
                y < rows@.len(),
                rows@.len() == h,
                row@.len() == w,
                row@ == rv[y as int],
                (w as int) * (h as int) <= MAX_CELLS,
                vertices@ == vbefore + row_quads(row@, y as int, x as int, table@, a),
                q as int == qbefore + row_count(row@, x as int, table@, a),
                indices@ == quad_indices(q as int),
                q <= (y as int) * (w as int) + x,
            decreases row@.len() - x,
        {
            let gid = row[x];
            if gid != 0 {
                match find_entry(table, gid) {
                    Some(k) => {
                        let t = table[k];
                        if t.atlas_id == a {
                            proof {
                                assert((y as int) * (w as int) + (w as int) <= (h as int) * (
                                w as int)) by (nonlinear_arith)
                                    requires
                                        y < h,
                                        w >= 0,
                                ;
                            }
                            let left = x as i64 * 16;
                            let top = y as i64 * 16;
                            let right = left + 16;
                            let bottom = top + 16;
                            vertices.push(Vertex { x: left, y: top, u: t.u0, v: t.v0 });
                            vertices.push(Vertex { x: right, y: top, u: t.u1, v: t.v0 });
                            vertices.push(Vertex { x: right, y: bottom, u: t.u1, v: t.v1 });
                            vertices.push(Vertex { x: left, y: bottom, u: t.u0, v: t.v1 });
                            let base = (q as u32) * 4;
                            indices.push(base);
                            indices.push(base + 1);
                            indices.push(base + 2);
                            indices.push(base);
                            indices.push(base + 2);
                            indices.push(base + 3);
                            assert(indices@ =~= quad_indices(q + 1));
                            assert(vertices@ =~= vbefore + row_quads(
                                row@,
                                y as int,
                                x + 1,
                                table@,
                                a,
                            ));
                            q += 1;
                        }
                    },
                    None => {},
                }
            }
            x += 1;
        }
        assert(vertices@ =~= rows_quads(rv, w as int, y + 1, table@, a));
        assert((y as int) * (w as int) + (w as int) == (y + 1) * (w as int)) by (nonlinear_arith);
        y += 1;
    }
    (vertices, indices, q)
}

/// Every occupied cell of `rows` has an atlas entry.
pub open spec fn rows_known(rows: Seq<Seq<u32>>, table: Seq<TileUv>) -> bool {
    forall|y: int, x: int|
        0 <= y < rows.len() && 0 <= x < rows[y].len() && #[trigger] rows[y][x] != 0 ==> entry_of(
            table,
            rows[y][x],
        ) >= 0
}

/// Every occupied cell of every visible layer has an atlas entry.
pub open spec fn grid_known(g: &TileGrid, table: Seq<TileUv>) -> bool {
    forall|l: int|
        0 <= l < g.layers@.len() && (#[trigger] g.layers@[l]).visible ==> rows_known(
            layer_rows(g.layers@[l]).unwrap(),
            table,
        )
}

/// Entry `k` is the first of `table` for its atlas.
pub open spec fn first_of_atlas(table: Seq<TileUv>, k: int) -> bool {
    forall|j: int| 0 <= j < k ==> (#[trigger] table[j]).atlas_id != table[k].atlas_id
}

/// The chunk of layer `l` for atlas `a`.
pub open spec fn group_chunk(rows: Seq<Seq<u32>>, l: int, w: int, h: int, table: Seq<TileUv>, a: u32) -> (
    usize,
    u32,
    Seq<Vertex>,
    Seq<u32>,
) {
    (
        l as usize,
        a,
        rows_quads(rows, w, h, table, a),
        quad_indices(rows_count(rows, w, h, table, a)),
    )
}

/// The non-empty chunks of layer `l` for the atlases of the first `k`
/// entries, each atlas once, in the order the table first names them.
pub open spec fn layer_chunks(
    rows: Seq<Seq<u32>>,
    l: int,
    w: int,
    h: int,
    table: Seq<TileUv>,
    k: int,
) -> Seq<(usize, u32, Seq<Vertex>, Seq<u32>)>
    decreases k,
{
    if k <= 0 {
        Seq::empty()
    } else if first_of_atlas(table, k - 1) && rows_count(rows, w, h, table, table[k - 1].atlas_id)
        > 0 {
        layer_chunks(rows, l, w, h, table, k - 1).push(
            group_chunk(rows, l, w, h, table, table[k - 1].atlas_id),
        )
    } else {
        layer_chunks(rows, l, w, h, table, k - 1)
    }
}

/// The chunks of the first `n` layers, in layer order; none for a hidden layer.
pub open spec fn grid_chunks(g: &TileGrid, table: Seq<TileUv>, n: int) -> Seq<
    (usize, u32, Seq<Vertex>, Seq<u32>),
>
    decreases n,
{
    if n <= 0 {
        Seq::empty()
    } else if g.layers@[n - 1].visible {
        grid_chunks(g, table, n - 1) + layer_chunks(
            layer_rows(g.layers@[n - 1]).unwrap(),
            n - 1,
            g.width as int,
            g.height as int,
            table,
            table.len() as int,
        )
    } else {
        grid_chunks(g, table, n - 1)
    }
}

/// The chunks of a grid: per visible layer, one per atlas that some of its
/// cells draw from, each cell one quad.
pub open spec fn chunks_of(g: &TileGrid, table: Seq<TileUv>) -> Seq<
    (usize, u32, Seq<Vertex>, Seq<u32>),
> {
    grid_chunks(g, table, g.layers@.len() as int)
}

/// The views of a list of chunks.
pub open spec fn chunks_view(cs: Seq<Chunk>) -> Seq<(usize, u32, Seq<Vertex>, Seq<u32>)> {
    cs.map_values(|c: Chunk| c@)
}

/// Whether every occupied cell of `rows` has an atlas entry.
pub fn check_references(rows: &Vec<Vec<u32>>, table: &Vec<TileUv>) -> (r: bool)
    ensures
        r == rows_known(rows_view(rows@), table@),
{
    let ghost rv = rows_view(rows@);
    let mut y: usize = 0;
    while y < rows.len()
        invariant
            0 <= y <= rows@.len(),
            rv == rows_view(rows@),
            forall|yy: int, x: int|
                0 <= yy < y && 0 <= x < rv[yy].len() && #[trigger] rv[yy][x] != 0 ==> entry_of(
                    table@,
                    rv[yy][x],
                ) >= 0,
        decreases rows@.len() - y,
    {
        let row = &rows[y];
        assert(row@ == rv[y as int]);
        let mut x: usize = 0;
        while x < row.len()
            invariant
                0 <= x <= row@.len(),
                y < rows@.len(),
                rv == rows_view(rows@),
                row@ == rv[y as int],
                forall|yy: int, xx: int|
                    0 <= yy < y && 0 <= xx < rv[yy].len() && #[trigger] rv[yy][xx] != 0
                        ==> entry_of(table@, rv[yy][xx]) >= 0,
                forall|xx: int|
                    0 <= xx < x && #[trigger] rv[y as int][xx] != 0 ==> entry_of(
                        table@,
                        rv[y as int][xx],
                    ) >= 0,
            decreases row@.len() - x,
        {
            if row[x] != 0 {
                if find_entry(table, row[x]).is_none() {
                    assert(rv[y as int][x as int] != 0);
                    return false;
                }
            }
            x += 1;
        }
        y += 1;
    }
    true
}

/// Whether entry `k` is the first of `table` for its atlas.
pub fn is_first_of_atlas(table: &Vec<TileUv>, k: usize) -> (r: bool)
    requires
        k < table@.len(),
    ensures
        r == first_of_atlas(table@, k as int),
{
    let mut j: usize = 0;
    while j < k
        invariant
            0 <= j <= k < table@.len(),
            forall|jj: int| 0 <= jj < j ==> (#[trigger] table@[jj]).atlas_id != table@[k as int].atlas_id,
        decreases k - j,
    {
        if table[j].atlas_id == table[k].atlas_id {
            return false;
        }
        j += 1;
    }
    true
}

/// The chunks of one finite layer.
pub fn layer_chunk_list(rows: &Vec<Vec<u32>>, l: usize, w: u32, h: u32, table: &Vec<TileUv>) -> (r: Vec<Chunk>)
    requires
        rows_rectangular(rows_view(rows@), w as int, h as int),
        (w as int) * (h as int) <= MAX_CELLS,
    ensures
        chunks_view(r@) == layer_chunks(
            rows_view(rows@),
            l as int,
            w as int,
            h as int,
            table@,
            table@.len() as int,
        ),
{
    let ghost rv = rows_view(rows@);
    let mut chunks: Vec<Chunk> = Vec::new();
    let mut k: usize = 0;
    while k < table.len()
        invariant
            0 <= k <= table@.len(),
            rv == rows_view(rows@),
            rows_rectangular(rv, w as int, h as int),
            (w as int) * (h as int) <= MAX_CELLS,
            chunks_view(chunks@) == layer_chunks(rv, l as int, w as int, h as int, table@, k as int),
        decreases table@.len() - k,
    {
        if is_first_of_atlas(table, k) {
            let a = table[k].atlas_id;
            let (vertices, indices, count) = batch_group(rows, w, h, table, a);
            if count > 0 {
                let ghost before = chunks@;
                chunks.push(Chunk { layer: l, atlas_id: a, vertices, indices });
                assert(chunks_view(chunks@) =~= chunks_view(before).push(
                    group_chunk(rv, l as int, w as int, h as int, table@, a),
                ));
            }
        }
        k += 1;
    }
    chunks
}

/// Batches the occupied cells of each visible layer of `g` into one chunk per
/// atlas, looking each tile reference up in `table`.
pub fn build_chunks(g: &TileGrid, table: &Vec<TileUv>) -> (r: Result<Vec<Chunk>, LoadError>)
    requires
        (g.width as int) * (g.height as int) <= MAX_CELLS,
    ensures
        !grid_supported(g) ==> r == Err::<Vec<Chunk>, LoadError>(LoadError::UnsupportedGridKind),
        grid_supported(g) && !grid_known(g, table@) ==> r == Err::<Vec<Chunk>, LoadError>(
            LoadError::UnknownTileReference,
        ),
        grid_supported(g) && grid_known(g, table@) ==> r is Ok,
        r matches Ok(cs) ==> chunks_view(cs@) == chunks_of(g, table@),
{
    if !check_grid(g) {
        return Err(LoadError::UnsupportedGridKind);
    }
    let mut chunks: Vec<Chunk> = Vec::new();
    let mut l: usize = 0;
    while l < g.layers.len()
        invariant
            0 <= l <= g.layers@.len(),
            grid_supported(g),
            (g.width as int) * (g.height as int) <= MAX_CELLS,
            forall|j: int|
                0 <= j < l && (#[trigger] g.layers@[j]).visible ==> rows_known(
                    layer_rows(g.layers@[j]).unwrap(),
                    table@,
                ),
            chunks_view(chunks@) == grid_chunks(g, table@, l as int),
        decreases g.layers@.len() - l,
    {
        let layer = &g.layers[l];
        if layer.visible {
            assert(g.layers@[l as int].visible);
            match &layer.tiles {
                LayerData::Finite(rows) => {
                    if !check_references(rows, table) {
                        return Err(LoadError::UnknownTileReference);
                    }
                    let mut more = layer_chunk_list(rows, l, g.width, g.height, table);
                    let ghost before = chunks@;
                    let ghost added = more@;
                    chunks.append(&mut more);
                    assert(chunks_view(chunks@) =~= chunks_view(before) + chunks_view(added));
                },
                LayerData::Infinite => {
                    assert(false);
                },
            }
        }
        l += 1;
    }
    Ok(chunks)
}

} // verus!
