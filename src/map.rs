use vstd::prelude::*;

use crate::error::MapError;
use crate::grid::{shaped, LayeredGrid};
use crate::tile::{Tile, TileRegistry};

verus! {

/// The code that marks a cell as empty on every layer above the base one.
/// The base layer has no empty code: each of its cells is drawn.
pub const EMPTY_CODE: i32 = 0;

/// Whether a cell of layer `l` that holds `code` is drawn.
pub open spec fn is_drawn(l: int, code: i32) -> bool {
    l == 0 || code != EMPTY_CODE
}

/// The registry that entering `tiles` in order gives: the last entry under a
/// code wins.
pub open spec fn registry_of(tiles: Seq<(i32, Tile)>) -> Map<i32, Tile>
    decreases tiles.len(),
{
    if tiles.len() == 0 {
        Map::empty()
    } else {
        registry_of(tiles.drop_last()).insert(tiles.last().0, tiles.last().1)
    }
}

/// The cell at `l`, `r`, `c` is empty, or its code has a tile in `reg`.
pub open spec fn resolves(
    cells: Seq<Seq<Seq<i32>>>,
    reg: Map<i32, Tile>,
    l: int,
    r: int,
    c: int,
) -> bool {
    is_drawn(l, cells[l][r][c]) ==> reg.contains_key(cells[l][r][c])
}

/// Every cell of the grid is empty or resolves.
pub open spec fn all_resolve(
    cells: Seq<Seq<Seq<i32>>>,
    rows: int,
    cols: int,
    reg: Map<i32, Tile>,
) -> bool {
    forall|l: int, r: int, c: int|
        0 <= l < cells.len() && 0 <= r < rows && 0 <= c < cols ==> #[trigger] resolves(
            cells,
            reg,
            l,
            r,
            c,
        )
}

/// `code` is held by a drawn cell of the grid and has no tile in `reg`.
pub open spec fn dangling(
    cells: Seq<Seq<Seq<i32>>>,
    rows: int,
    cols: int,
    reg: Map<i32, Tile>,
    code: i32,
) -> bool {
    exists|l: int, r: int, c: int|
        0 <= l < cells.len() && 0 <= r < rows && 0 <= c < cols && cells[l][r][c] == code
            && !#[trigger] resolves(cells, reg, l, r, c)
}

/// A map description: the source image, the tiles by code, the grid's width
/// and height, and its layers (bottom first), each `height` rows of `width`
/// codes.
pub struct MapData {
    pub image: String,
    pub tiles: Vec<(i32, Tile)>,
    pub width: usize,
    pub height: usize,
    pub layers: Vec<Vec<Vec<i32>>>,
}

/// A loaded map: a registry and a grid whose every drawn cell resolves.
pub struct TileMap {
    registry: TileRegistry,
    grid: LayeredGrid,
}

impl TileMap {
    pub closed spec fn registry_spec(&self) -> TileRegistry {
        self.registry
    }

    pub closed spec fn grid_spec(&self) -> LayeredGrid {
        self.grid
    }

    pub open spec fn wf(&self) -> bool {
        &&& self.grid_spec().wf()
        &&& all_resolve(
            self.grid_spec().cells(),
            self.grid_spec().rows_spec() as int,
            self.grid_spec().cols_spec() as int,
            self.registry_spec()@,
        )
    }

    /// Builds the registry and the grid of a map description, and validates
    /// before anything is drawn that every drawn cell's code has a tile.
    pub fn from_data(data: MapData) -> (r: Result<TileMap, MapError>)
        ensures
            data.image@.len() == 0 ==> r == Err::<TileMap, MapError>(MapError::MissingImage),
            data.image@.len() > 0 && data.layers@.len() == 0 ==> r == Err::<TileMap, MapError>(
                MapError::MalformedDescription,
            ),
            data.image@.len() > 0 && data.layers@.len() > 0 && !shaped(
                data.layers.deep_view(),
                data.height as int,
                data.width as int,
            ) ==> r == Err::<TileMap, MapError>(MapError::DimensionMismatch),
            data.image@.len() > 0 && data.layers@.len() > 0 && shaped(
                data.layers.deep_view(),
                data.height as int,
                data.width as int,
            ) ==> {
                let cells = data.layers.deep_view();
                let reg = registry_of(data.tiles@);
                &&& all_resolve(cells, data.height as int, data.width as int, reg) ==> {
                    &&& r is Ok
                    &&& r->Ok_0.wf()
                    &&& r->Ok_0.registry_spec()@ == reg
                    &&& r->Ok_0.registry_spec().image_spec() == data.image@
                    &&& r->Ok_0.grid_spec().cells() == cells
                    &&& r->Ok_0.grid_spec().rows_spec() == data.height
                    &&& r->Ok_0.grid_spec().cols_spec() == data.width
                }
                &&& !all_resolve(cells, data.height as int, data.width as int, reg) ==> {
                    &&& r is Err
                    &&& r->Err_0 is UnknownTileCode
                    &&& dangling(
                        cells,
                        data.height as int,
                        data.width as int,
                        reg,
                        r->Err_0->UnknownTileCode_0,
                    )
                }
            },
    {
        if data.image.as_str().is_empty() {
            return Err(MapError::MissingImage);
        }
        let grid = match LayeredGrid::new(data.height, data.width, data.layers) {
            Ok(g) => g,
            Err(e) => {
                return Err(e);
            },
        };
        let mut registry = TileRegistry::new(data.image);
        let mut i: usize = 0;
        while i < data.tiles.len()
            invariant
                i <= data.tiles@.len(),
                registry@ == registry_of(data.tiles@.subrange(0, i as int)),
                registry.image_spec() == data.image@,
            decreases data.tiles@.len() - i,
        {
            let (code, tile) = data.tiles[i];
            registry.register(code, tile);
            assert(data.tiles@.subrange(0, i + 1).drop_last() =~= data.tiles@.subrange(
                0,
                i as int,
            ));
            i = i + 1;
        }
        assert(data.tiles@.subrange(0, i as int) =~= data.tiles@);
        match first_dangling(&registry, &grid) {
            Some(code) => Err(MapError::UnknownTileCode(code)),
            None => Ok(TileMap { registry, grid }),
        }
    }

    pub fn registry(&self) -> (r: &TileRegistry)
        ensures
            *r == self.registry_spec(),
    {
        &self.registry
    }

    pub fn grid(&self) -> (r: &LayeredGrid)
        ensures
            *r == self.grid_spec(),
    {
        &self.grid
    }
}

/// In a loaded map every drawn cell's code has a tile, so resolving it
/// succeeds: a dangling code is refused when the map is built, never met
/// while drawing.
pub proof fn lemma_loaded_codes_resolve(m: TileMap, l: int, r: int, c: int)
    requires
        m.wf(),
        m.grid_spec().in_bounds(l, r, c),
        is_drawn(l, m.grid_spec().code_spec(l, r, c)),
    ensures
        m.registry_spec()@.contains_key(m.grid_spec().code_spec(l, r, c)),
{
    assert(resolves(m.grid_spec().cells(), m.registry_spec()@, l, r, c));
}

/// A drawn cell whose code has no tile leaves the grid unresolved, so a
/// description holding it is refused by `from_data` with `UnknownTileCode`,
/// before any frame is drawn; the code is one that `from_data` may name.
pub proof fn lemma_dangling_code_refused(
    cells: Seq<Seq<Seq<i32>>>,
    rows: int,
    cols: int,
    reg: Map<i32, Tile>,
    l: int,
    r: int,
    c: int,
)
    requires
        0 <= l < cells.len(),
        0 <= r < rows,
        0 <= c < cols,
        is_drawn(l, cells[l][r][c]),
        !reg.contains_key(cells[l][r][c]),
    ensures
        !all_resolve(cells, rows, cols, reg),
        dangling(cells, rows, cols, reg, cells[l][r][c]),
{
    assert(!resolves(cells, reg, l, r, c));
}

/// A code of a drawn cell that `registry` lacks, if there is one.
fn first_dangling(registry: &TileRegistry, grid: &LayeredGrid) -> (r: Option<i32>)
    requires
        grid.wf(),
    ensures
        r is None <==> all_resolve(
            grid.cells(),
            grid.rows_spec() as int,
            grid.cols_spec() as int,
            registry@,
        ),
        r is Some ==> dangling(
            grid.cells(),
            grid.rows_spec() as int,
            grid.cols_spec() as int,
            registry@,
            r->Some_0,
        ),
{
    let ghost cells = grid.cells();
    let ghost reg = registry@;
    let nl = grid.layer_count();
    let rows = grid.rows();
    let cols = grid.cols();
    let mut l: usize = 0;
    while l < nl
        invariant
            grid.wf(),
            nl == cells.len(),
            rows == grid.rows_spec(),
            cols == grid.cols_spec(),
            cells == grid.cells(),
            reg == registry@,
            l <= nl,
            forall|a: int, b: int, c: int|
                0 <= a < l && 0 <= b < rows && 0 <= c < cols ==> #[trigger] resolves(
                    cells,
                    reg,
                    a,
                    b,
                    c,
                ),
        decreases nl - l,
    {
        let mut row: usize = 0;
        while row < rows
            invariant
                grid.wf(),
                nl == cells.len(),
                rows == grid.rows_spec(),
                cols == grid.cols_spec(),
                cells == grid.cells(),
                reg == registry@,
                l < nl,
                row <= rows,
                forall|a: int, b: int, c: int|
                    0 <= a < l && 0 <= b < rows && 0 <= c < cols ==> #[trigger] resolves(
                        cells,
                        reg,
                        a,
                        b,
                        c,
                    ),
                forall|b: int, c: int|
                    0 <= b < row && 0 <= c < cols ==> #[trigger] resolves(
                        cells,
                        reg,
                        l as int,
                        b,
                        c,
                    ),
            decreases rows - row,
        {
            let mut col: usize = 0;
            while col < cols
                invariant
                    grid.wf(),
                    nl == cells.len(),
                    rows == grid.rows_spec(),
                    cols == grid.cols_spec(),
                    cells == grid.cells(),
                    reg == registry@,
                    l < nl,
                    row < rows,
                    col <= cols,
                    forall|a: int, b: int, c: int|
                        0 <= a < l && 0 <= b < rows && 0 <= c < cols ==> #[trigger] resolves(
                            cells,
                            reg,
                            a,
                            b,
                            c,
                        ),
                    forall|b: int, c: int|
                        0 <= b < row && 0 <= c < cols ==> #[trigger] resolves(
                            cells,
                            reg,
                            l as int,
                            b,
                            c,
                        ),
                    forall|c: int|
                        0 <= c < col ==> #[trigger] resolves(
                            cells,
                            reg,
                            l as int,
                            row as int,
                            c,
                        ),
                decreases cols - col,
            {
                let code = match grid.cell(l, row, col) {
                    Ok(v) => v,
                    Err(_) => {
                        return None;
                    },
                };
                if (l == 0 || code != EMPTY_CODE) && !registry.contains(code) {
                    assert(!resolves(cells, reg, l as int, row as int, col as int));
                    return Some(code);
                }
                assert(resolves(cells, reg, l as int, row as int, col as int));
                col = col + 1;
            }
            row = row + 1;
        }
        l = l + 1;
    }
    None
}

} // verus!
