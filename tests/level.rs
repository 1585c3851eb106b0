use tiled_level::chunk::{build_chunks, Chunk, LoadError, TileUv, Vertex};
use tiled_level::level::{CollisionShape, Level, Rect};
use tiled_level::grid::{check_grid, GridError, Layer, LayerData, TileGrid};
use tiled_level::runtime::{actor_footprint, process_loaded_tile_maps2, LevelRuntime, MapEvent, Point};

fn layer(visible: bool, rows: Vec<Vec<u32>>) -> Layer {
    Layer { visible, tiles: LayerData::Finite(rows) }
}

fn grid(width: u32, height: u32, layers: Vec<Layer>) -> TileGrid {
    TileGrid { width, height, layers }
}

fn rect(left: i64, right: i64, top: i64, bottom: i64) -> Rect {
    Rect { left, right, top, bottom }
}

fn uv(gid: u32, atlas_id: u32, u0: u32, v0: u32) -> TileUv {
    TileUv { gid, atlas_id, u0, v0, u1: u0 + 16, v1: v0 + 16 }
}

fn shapes_of(g: &TileGrid) -> Vec<CollisionShape> {
    Level::new(g).ok().expect("supported grid").collision_shapes().clone()
}

fn runtime_with(shapes: Vec<CollisionShape>) -> LevelRuntime {
    let mut rt = LevelRuntime::new();
    rt.replace(Level::from_shapes(shapes));
    rt
}

#[test]
fn one_occupied_cell_of_two() {
    let g = grid(2, 1, vec![layer(true, vec![vec![0, 3]])]);
    assert_eq!(shapes_of(&g), vec![CollisionShape::Rect(rect(16, 32, 0, 16))]);
}

#[test]
fn shape_count_matches_occupied_cells() {
    let g = grid(
        3,
        2,
        vec![
            layer(true, vec![vec![1, 0, 2], vec![0, 0, 4]]),
            layer(false, vec![vec![1, 1, 1], vec![1, 1, 1]]),
            layer(true, vec![vec![0, 0, 0], vec![5, 0, 0]]),
        ],
    );
    let shapes = shapes_of(&g);
    assert_eq!(shapes.len(), 4);
    assert_eq!(
        shapes,
        vec![
            CollisionShape::Rect(rect(0, 16, 0, 16)),
            CollisionShape::Rect(rect(32, 48, 0, 16)),
            CollisionShape::Rect(rect(32, 48, 16, 32)),
            CollisionShape::Rect(rect(0, 16, 16, 32)),
        ]
    );
}

#[test]
fn overlapping_layers_keep_duplicates() {
    let g = grid(1, 1, vec![layer(true, vec![vec![1]]), layer(true, vec![vec![9]])]);
    let shapes = shapes_of(&g);
    assert_eq!(shapes.len(), 2);
    assert_eq!(shapes[0], shapes[1]);
}

#[test]
fn empty_grid_gives_empty_model_and_free_movement() {
    let g = grid(4, 3, vec![layer(true, vec![vec![0; 4]; 3])]);
    let mut rt = LevelRuntime::new();
    let chunks = rt.on_map_ready(&g, &vec![uv(1, 0, 0, 0)]).ok().expect("loads");
    assert!(chunks.is_empty());
    assert!(shapes_of(&g).is_empty());
    assert!(!rt.query_overlaps(&rect(-100, 100, -100, 100)));
    let p = rt.resolve_move(Point { x: 5, y: 7 }, Point { x: 30, y: -4 }, actor_footprint());
    assert_eq!(p, Point { x: 35, y: 3 });
}

#[test]
fn no_model_blocks_nothing() {
    let rt = LevelRuntime::new();
    assert!(!rt.query_overlaps(&rect(0, 16, 0, 16)));
}

#[test]
fn query_identical_rect_overlaps() {
    let rt = runtime_with(vec![CollisionShape::Rect(rect(16, 32, 0, 16))]);
    assert!(rt.query_overlaps(&rect(16, 32, 0, 16)));
}

#[test]
fn query_touching_edge_overlaps() {
    let rt = runtime_with(vec![CollisionShape::Rect(rect(16, 32, 0, 16))]);
    assert!(rt.query_overlaps(&rect(0, 16, 0, 16)));
}

#[test]
fn query_outside_on_one_axis_is_free() {
    let rt = runtime_with(vec![CollisionShape::Rect(rect(16, 32, 0, 16))]);
    assert!(!rt.query_overlaps(&rect(33, 40, 0, 16)));
    assert!(!rt.query_overlaps(&rect(0, 15, 0, 16)));
    assert!(!rt.query_overlaps(&rect(16, 32, 17, 30)));
    assert!(!rt.query_overlaps(&rect(16, 32, -10, -1)));
}

#[test]
fn blocked_move_keeps_position() {
    let rt = runtime_with(vec![CollisionShape::Rect(rect(16, 32, -16, 0))]);
    let footprint = rect(2, 14, -12, 0);
    let p = rt.resolve_move(Point { x: 0, y: 0 }, Point { x: 20, y: 0 }, footprint);
    assert_eq!(p, Point { x: 0, y: 0 });
}

#[test]
fn free_move_reaches_candidate() {
    let rt = runtime_with(vec![CollisionShape::Rect(rect(16, 32, -16, 0))]);
    let footprint = rect(2, 14, -12, 0);
    let p = rt.resolve_move(Point { x: 0, y: 0 }, Point { x: 0, y: 40 }, footprint);
    assert_eq!(p, Point { x: 0, y: 40 });
}

#[test]
fn zero_move_stays() {
    let rt = runtime_with(vec![CollisionShape::Rect(rect(0, 16, 0, 16))]);
    let p = rt.resolve_move(Point { x: 0, y: 0 }, Point { x: 0, y: 0 }, actor_footprint());
    assert_eq!(p, Point { x: 0, y: 0 });
}

#[test]
fn actor_footprint_offsets() {
    assert_eq!(actor_footprint(), rect(2, 14, 4, 16));
}

#[test]
fn reload_replaces_model() {
    let first = grid(2, 1, vec![layer(true, vec![vec![1, 0]])]);
    let second = grid(2, 1, vec![layer(true, vec![vec![0, 1]])]);
    let table = vec![uv(1, 0, 0, 0)];
    let mut rt = LevelRuntime::new();
    assert!(rt.on_map_ready(&first, &table).is_ok());
    assert!(rt.query_overlaps(&rect(4, 8, 4, 8)));
    assert!(rt.on_map_ready(&second, &table).is_ok());
    assert!(!rt.query_overlaps(&rect(4, 8, 4, 8)));
    assert!(rt.query_overlaps(&rect(20, 24, 4, 8)));
}

#[test]
fn failed_load_keeps_previous_model() {
    let good = grid(1, 1, vec![layer(true, vec![vec![1]])]);
    let unknown = grid(1, 1, vec![layer(true, vec![vec![2]])]);
    let infinite = grid(1, 1, vec![Layer { visible: true, tiles: LayerData::Infinite }]);
    let table = vec![uv(1, 0, 0, 0)];
    let mut rt = LevelRuntime::new();
    assert!(rt.on_map_ready(&good, &table).is_ok());
    assert_eq!(rt.on_map_ready(&unknown, &table).err(), Some(LoadError::UnknownTileReference));
    assert_eq!(rt.on_map_ready(&infinite, &table).err(), Some(LoadError::UnsupportedGridKind));
    assert!(rt.query_overlaps(&rect(4, 8, 4, 8)));
}

#[test]
fn infinite_layer_is_unsupported() {
    let g = grid(1, 1, vec![Layer { visible: true, tiles: LayerData::Infinite }]);
    assert!(!check_grid(&g));
    assert_eq!(Level::new(&g).err(), Some(GridError::UnsupportedGridKind));
}

#[test]
fn short_row_is_unsupported() {
    let g = grid(2, 2, vec![layer(true, vec![vec![1, 1], vec![1]])]);
    assert_eq!(Level::new(&g).err(), Some(GridError::UnsupportedGridKind));
    let g = grid(2, 2, vec![layer(true, vec![vec![1, 1]])]);
    assert_eq!(Level::new(&g).err(), Some(GridError::UnsupportedGridKind));
}

#[test]
fn hidden_infinite_layer_is_ignored() {
    let g = grid(1, 1, vec![Layer { visible: false, tiles: LayerData::Infinite }]);
    assert!(check_grid(&g));
    assert!(shapes_of(&g).is_empty());
}

#[test]
fn unknown_reference_is_rejected() {
    let g = grid(2, 1, vec![layer(true, vec![vec![1, 3]])]);
    assert_eq!(build_chunks(&g, &vec![uv(1, 0, 0, 0)]).err(), Some(LoadError::UnknownTileReference));
}

fn vertex(x: i64, y: i64, u: u32, v: u32) -> Vertex {
    Vertex { x, y, u, v }
}

#[test]
fn one_cell_one_quad() {
    let g = grid(2, 1, vec![layer(true, vec![vec![0, 1]])]);
    let chunks = build_chunks(&g, &vec![uv(1, 7, 32, 48)]).ok().expect("builds");
    assert_eq!(chunks.len(), 1);
    assert_eq!(chunks[0].layer, 0);
    assert_eq!(chunks[0].atlas_id, 7);
    assert_eq!(
        chunks[0].vertices,
        vec![vertex(16, 0, 32, 48), vertex(32, 0, 48, 48), vertex(32, 16, 48, 64), vertex(16, 16, 32, 64)]
    );
    assert_eq!(chunks[0].indices, vec![0, 1, 2, 0, 2, 3]);
}

#[test]
fn cells_grouped_by_layer_and_atlas() {
    let g = grid(
        2,
        2,
        vec![
            layer(true, vec![vec![1, 2], vec![3, 0]]),
            layer(false, vec![vec![1, 1], vec![1, 1]]),
            layer(true, vec![vec![0, 0], vec![0, 2]]),
        ],
    );
    let table = vec![uv(1, 5, 0, 0), uv(2, 9, 0, 0), uv(3, 5, 16, 0)];
    let chunks: Vec<Chunk> = build_chunks(&g, &table).ok().expect("builds");
    let keys: Vec<(usize, u32, usize, usize)> =
        chunks.iter().map(|c| (c.layer, c.atlas_id, c.vertices.len(), c.indices.len())).collect();
    assert_eq!(keys, vec![(0, 5, 8, 12), (0, 9, 4, 6), (2, 9, 4, 6)]);
    assert_eq!(chunks[0].indices, vec![0, 1, 2, 0, 2, 3, 4, 5, 6, 4, 6, 7]);
    assert_eq!(chunks[0].vertices[4], vertex(0, 16, 16, 0));
    assert_eq!(chunks[2].vertices[0], vertex(16, 16, 0, 0));
}

#[test]
fn loading_twice_gives_identical_results() {
    let make = || grid(3, 2, vec![layer(true, vec![vec![1, 0, 2], vec![2, 2, 0]])]);
    let table = vec![uv(1, 0, 0, 0), uv(2, 1, 16, 16)];
    let (a, b) = (make(), make());
    assert_eq!(shapes_of(&a), shapes_of(&b));
    let ca = build_chunks(&a, &table).ok().expect("builds");
    let cb = build_chunks(&b, &table).ok().expect("builds");
    assert_eq!(ca.len(), cb.len());
    for (x, y) in ca.iter().zip(cb.iter()) {
        assert_eq!((x.layer, x.atlas_id, &x.vertices, &x.indices), (y.layer, y.atlas_id, &y.vertices, &y.indices));
    }
}

#[test]
fn created_event_loads_and_others_do_nothing() {
    let mut rt = LevelRuntime::new();
    let created = MapEvent::Created {
        grid: grid(1, 1, vec![layer(true, vec![vec![1]])]),
        atlas: vec![uv(1, 0, 0, 0)],
    };
    assert!(matches!(process_loaded_tile_maps2(&mut rt, &created), Some(Ok(_))));
    assert!(process_loaded_tile_maps2(&mut rt, &MapEvent::Modified).is_none());
    assert!(process_loaded_tile_maps2(&mut rt, &MapEvent::Removed).is_none());
    assert!(rt.query_overlaps(&rect(0, 16, 0, 16)));
}
