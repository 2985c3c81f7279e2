use iso_map::map::{MapData, TileMap};
use iso_map::render::DrawCommand;
use iso_map::state::{CameraState, GameState, CELL_STRIDE};
use iso_map::tile::{Point, Rect, Tile};

fn tile(x: i32, y: i32, oy: i32) -> Tile {
    Tile { clip: Rect { x, y, width: 64, height: 64 }, origin: Point { x: 0, y: oy } }
}

fn registry_tiles() -> Vec<(i32, Tile)> {
    vec![
        (0, tile(0, 0, 0)),
        (1, tile(448, 192, 0)),
        (2, tile(0, 0, 0)),
        (3, tile(512, 192, 0)),
        (4, tile(0, 0, 0)),
        (5, tile(0, 0, 0)),
        (6, tile(0, 0, 0)),
        (7, tile(128, 64, 32)),
    ]
}

fn bordered_map() -> TileMap {
    let map = vec![
        vec![1, 2, 2, 2, 2, 3],
        vec![4, 0, 0, 0, 0, 4],
        vec![4, 0, 0, 0, 0, 4],
        vec![4, 0, 0, 0, 0, 4],
        vec![4, 0, 0, 0, 0, 4],
        vec![5, 6, 6, 6, 6, 5],
    ];
    let d = MapData {
        image: "./resources/tiles.png".to_string(),
        tiles: registry_tiles(),
        width: 6,
        height: 6,
        layers: vec![map],
    };
    TileMap::from_data(d).ok().unwrap()
}

fn three_layer_map() -> TileMap {
    let mut low = vec![vec![0; 10]; 10];
    low[3][4] = 7;
    let mut mid = vec![vec![0; 10]; 10];
    mid[1][1] = 2;
    let mut high = vec![vec![0; 10]; 10];
    high[3][4] = 3;
    let d = MapData {
        image: "./resources/tiles.png".to_string(),
        tiles: registry_tiles(),
        width: 10,
        height: 10,
        layers: vec![low, mid, high],
    };
    TileMap::from_data(d).ok().unwrap()
}

fn screen(c: &DrawCommand) -> (f32, f32) {
    (c.position.half_x as f32 / 2.0, c.position.half_y as f32 / 2.0)
}

#[test]
fn single_layer_draws_every_cell_in_row_major_order() {
    let m = bordered_map();
    let cmds = m.render(32);
    assert_eq!(cmds.len(), 36);
    for (i, c) in cmds.iter().enumerate() {
        let (row, col) = (i / 6, i % 6);
        assert_eq!((c.layer, c.row, c.col), (0, row, col));
        let x = (col * 32) as f32;
        let y = (row * 32) as f32;
        assert_eq!(screen(c), (x - y, (x + y) / 2.0));
        assert_eq!(c.code, m.grid().cell(0, row, col).unwrap());
        assert_eq!(Ok(c.tile), m.registry().resolve(c.code));
    }
    assert_eq!(cmds[0].code, 1);
    assert_eq!(cmds[0].tile.clip, Rect { x: 448, y: 192, width: 64, height: 64 });
    assert_eq!(screen(&cmds[8]), (32.0, 48.0));
    assert_eq!(screen(&cmds[35]), (0.0, 160.0));
}

#[test]
fn empty_upper_cell_is_skipped_and_base_is_drawn() {
    let m = three_layer_map();
    let cmds = m.render(32);
    // every base cell, one mid cell, one high cell
    assert_eq!(cmds.len(), 102);
    let at = |l: usize| cmds.iter().filter(|c| c.layer == l && c.row == 3 && c.col == 4).count();
    assert_eq!(at(0), 1);
    assert_eq!(at(1), 0);
    assert_eq!(at(2), 1);
    let low = cmds.iter().find(|c| c.layer == 0 && c.row == 3 && c.col == 4).unwrap();
    assert_eq!(low.code, 7);
    assert_eq!(low.tile.origin, Point { x: 0, y: 32 });
    // x = 128, y = 96
    assert_eq!(screen(low), (32.0, 112.0));
}

#[test]
fn layers_of_a_cell_come_bottom_to_top() {
    let cmds = three_layer_map().render(32);
    let i = cmds.iter().position(|c| c.row == 3 && c.col == 4).unwrap();
    assert_eq!((cmds[i].layer, cmds[i].code), (0, 7));
    assert_eq!((cmds[i + 1].layer, cmds[i + 1].code, cmds[i + 1].col), (2, 3, 4));
    assert_eq!((cmds[i + 2].layer, cmds[i + 2].row, cmds[i + 2].col), (0, 3, 5));
}

#[test]
fn rendering_twice_gives_the_same_commands() {
    let m = three_layer_map();
    assert_eq!(m.render(32), m.render(32));
    assert_eq!(bordered_map().render(32), bordered_map().render(32));
}

#[test]
fn stride_scales_grid_positions() {
    let m = bordered_map();
    let cmds = m.render(64);
    assert_eq!(screen(&cmds[8]), (64.0, 96.0));
    let flat = m.render(0);
    assert!(flat.iter().all(|c| screen(c) == (0.0, 0.0)));
    assert!(m.fits_stride(32));
    assert!(m.fits_stride(i32::MAX / 5));
    assert!(!m.fits_stride(i32::MAX / 5 + 1));
}

#[test]
fn game_state_starts_with_the_configured_camera() {
    let s = GameState::new(bordered_map());
    assert_eq!(
        s.camera(),
        CameraState { x: 32, y: 48, viewport_width: 640, viewport_height: 480 }
    );
    let f = s.draw();
    assert_eq!(f.camera, s.camera());
    assert_eq!(f.commands, s.map().render(CELL_STRIDE));
}

#[test]
fn resize_changes_only_the_viewport() {
    let mut s = GameState::new(three_layer_map());
    let before = s.draw();
    s.on_viewport_resized(800, 600);
    let after = s.draw();
    assert_eq!(
        after.camera,
        CameraState { x: 32, y: 48, viewport_width: 800, viewport_height: 600 }
    );
    assert_eq!(after.commands, before.commands);
}

#[test]
fn resize_leaves_grid_and_registry_alone() {
    let mut s = GameState::new(three_layer_map());
    let snapshot = |s: &GameState| {
        let g = s.map().grid();
        let mut cells = Vec::new();
        for l in 0..g.layer_count() {
            for r in 0..g.rows() {
                for c in 0..g.cols() {
                    cells.push(g.cell(l, r, c).unwrap());
                }
            }
        }
        let tiles: Vec<_> = (0..8).map(|code| s.map().registry().resolve(code)).collect();
        (cells, tiles, s.map().registry().image().clone())
    };
    let before = snapshot(&s);
    s.on_viewport_resized(800, 600);
    s.on_viewport_resized(1024, 768);
    assert_eq!(snapshot(&s), before);
}
