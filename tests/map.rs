use iso_map::error::MapError;
use iso_map::grid::LayeredGrid;
use iso_map::map::{MapData, TileMap};
use iso_map::tile::{Point, Rect, Tile, TileRegistry};

fn tile(x: i32, y: i32) -> Tile {
    Tile { clip: Rect { x, y, width: 64, height: 64 }, origin: Point { x: 0, y: 0 } }
}

fn flat(rows: usize, cols: usize, code: i32) -> Vec<Vec<i32>> {
    vec![vec![code; cols]; rows]
}

fn data(tiles: Vec<(i32, Tile)>, width: usize, height: usize, layers: Vec<Vec<Vec<i32>>>) -> MapData {
    MapData { image: "./resources/tiles.png".to_string(), tiles, width, height, layers }
}

#[test]
fn registry_last_write_wins() {
    let mut reg = TileRegistry::new("atlas.png".to_string());
    assert_eq!(reg.resolve(4), Err(MapError::UnknownTileCode(4)));
    reg.register(4, tile(0, 0));
    reg.register(4, tile(448, 192));
    assert!(reg.contains(4));
    assert_eq!(reg.resolve(4), Ok(tile(448, 192)));
    assert_eq!(reg.image(), "atlas.png");
}

#[test]
fn grid_cell_and_out_of_bounds() {
    let layers = vec![flat(2, 3, 1), vec![vec![0, 0, 0], vec![0, 9, 0]]];
    let g = LayeredGrid::new(2, 3, layers).ok().unwrap();
    assert_eq!((g.rows(), g.cols(), g.layer_count()), (2, 3, 2));
    assert_eq!(g.cell(1, 1, 1), Ok(9));
    assert_eq!(g.cell(0, 1, 2), Ok(1));
    assert_eq!(g.cell(2, 0, 0), Err(MapError::OutOfBounds));
    assert_eq!(g.cell(0, 2, 0), Err(MapError::OutOfBounds));
    assert_eq!(g.cell(0, 0, 3), Err(MapError::OutOfBounds));
}

#[test]
fn grid_rejects_no_layer_and_ragged_layers() {
    assert_eq!(LayeredGrid::new(2, 2, vec![]).err(), Some(MapError::MalformedDescription));
    let ragged = vec![vec![vec![1, 1], vec![1]]];
    assert_eq!(LayeredGrid::new(2, 2, ragged).err(), Some(MapError::DimensionMismatch));
    let uneven = vec![flat(2, 2, 1), flat(3, 2, 1)];
    assert_eq!(LayeredGrid::new(2, 2, uneven).err(), Some(MapError::DimensionMismatch));
}

#[test]
fn load_fails_without_image() {
    let mut d = data(vec![(0, tile(0, 0))], 2, 2, vec![flat(2, 2, 0)]);
    d.image = String::new();
    assert_eq!(TileMap::from_data(d).err(), Some(MapError::MissingImage));
}

#[test]
fn load_fails_without_layers() {
    let d = data(vec![(0, tile(0, 0))], 2, 2, vec![]);
    assert_eq!(TileMap::from_data(d).err(), Some(MapError::MalformedDescription));
}

#[test]
fn load_fails_when_width_and_height_disagree() {
    let d = data(vec![(0, tile(0, 0))], 3, 2, vec![flat(2, 2, 0)]);
    assert_eq!(TileMap::from_data(d).err(), Some(MapError::DimensionMismatch));
}

#[test]
fn load_fails_on_a_dangling_code() {
    let mut low = flat(4, 4, 0);
    low[2][1] = 5;
    let d = data(vec![(0, tile(0, 0))], 4, 4, vec![low]);
    assert_eq!(TileMap::from_data(d).err(), Some(MapError::UnknownTileCode(5)));
}

#[test]
fn load_accepts_empty_upper_cells_without_a_tile() {
    // code 0 is unregistered, but only upper layers hold it
    let d = data(vec![(1, tile(0, 0))], 2, 2, vec![flat(2, 2, 1), flat(2, 2, 0)]);
    let m = TileMap::from_data(d).ok().unwrap();
    assert_eq!(m.grid().layer_count(), 2);
    assert_eq!(m.registry().resolve(1), Ok(tile(0, 0)));
    // on the base layer the same code is a real tile and must resolve
    let d = data(vec![(1, tile(0, 0))], 2, 2, vec![flat(2, 2, 0), flat(2, 2, 1)]);
    assert_eq!(TileMap::from_data(d).err(), Some(MapError::UnknownTileCode(0)));
}

#[test]
fn loaded_codes_all_resolve() {
    let mut low = flat(3, 3, 0);
    low[1][1] = 2;
    let mut mid = flat(3, 3, 0);
    mid[0][2] = 3;
    let tiles = vec![(0, tile(0, 0)), (2, tile(64, 0)), (3, tile(128, 0))];
    let m = TileMap::from_data(data(tiles, 3, 3, vec![low, mid])).ok().unwrap();
    let g = m.grid();
    for l in 0..g.layer_count() {
        for r in 0..g.rows() {
            for c in 0..g.cols() {
                let code = g.cell(l, r, c).unwrap();
                if l == 0 || code != 0 {
                    assert!(m.registry().resolve(code).is_ok());
                }
            }
        }
    }
}
