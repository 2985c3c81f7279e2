use vstd::prelude::*;

use crate::map::{is_drawn, TileMap, EMPTY_CODE};
use crate::tile::Tile;
use crate::transform::{cartesian_to_isometric, iso_of, IsoPoint};

verus! {

/// One tile to draw: which cell and layer it comes from, the code there, the
/// cell's projected position, and the tile's source region and anchor offset
/// (subtracted from the position when drawn).
#[derive(Clone, Copy, Debug, PartialEq, Eq, Structural)]
pub struct DrawCommand {
    pub layer: usize,
    pub row: usize,
    pub col: usize,
    pub code: i32,
    pub position: IsoPoint,
    pub tile: Tile,
}

/// Indices `0..n`, spaced `stride` apart, stay within `i32`.
pub open spec fn fits_stride(n: int, stride: int) -> bool {
    n == 0 || (n - 1) * stride <= i32::MAX
}

/// The command for layer `l` of the cell at row `r`, column `c`: the cell
/// sits at grid point `(c * stride, r * stride)` before projection.
pub open spec fn command_of(
    g: Seq<Seq<Seq<i32>>>,
    reg: Map<i32, Tile>,
    stride: int,
    l: int,
    r: int,
    c: int,
) -> DrawCommand {
    let code = g[l][r][c];
    let p = iso_of(c * stride, r * stride);
    DrawCommand {
        layer: l as usize,
        row: r as usize,
        col: c as usize,
        code,
        position: IsoPoint { half_x: p.0 as i64, half_y: p.1 as i64 },
        tile: reg[code],
    }
}

/// The commands of layers `0..n` of one cell, bottom layer first; empty
/// cells give none.
pub open spec fn cell_commands(
    g: Seq<Seq<Seq<i32>>>,
    reg: Map<i32, Tile>,
    stride: int,
    r: int,
    c: int,
    n: int,
) -> Seq<DrawCommand>
    decreases n,
{
    if n <= 0 {
        Seq::empty()
    } else {
        let before = cell_commands(g, reg, stride, r, c, n - 1);
        if is_drawn(n - 1, g[n - 1][r][c]) {
            before.push(command_of(g, reg, stride, n - 1, r, c))
        } else {
            before
        }
    }
}

/// The commands of columns `0..n` of row `r`, left to right.
pub open spec fn row_commands(
    g: Seq<Seq<Seq<i32>>>,
    reg: Map<i32, Tile>,
    stride: int,
    r: int,
    n: int,
) -> Seq<DrawCommand>
    decreases n,
{
    if n <= 0 {
        Seq::empty()
    } else {
        row_commands(g, reg, stride, r, n - 1) + cell_commands(g, reg, stride, r, n - 1, g.len() as int)
    }
}

/// The commands of rows `0..n`, back row first.
pub open spec fn rows_commands(
    g: Seq<Seq<Seq<i32>>>,
    reg: Map<i32, Tile>,
    stride: int,
    cols: int,
    n: int,
) -> Seq<DrawCommand>
    decreases n,
{
    if n <= 0 {
        Seq::empty()
    } else {
        rows_commands(g, reg, stride, cols, n - 1) + row_commands(g, reg, stride, n - 1, cols)
    }
}

/// The commands of one frame of map `m`, in painter's order: rows back to
/// front, each row left to right, each cell's layers bottom to top.
pub open spec fn frame_commands(m: TileMap, stride: int) -> Seq<DrawCommand> {
    rows_commands(
        m.grid_spec().cells(),
        m.registry_spec()@,
        stride,
        m.grid_spec().cols_spec() as int,
        m.grid_spec().rows_spec() as int,
    )
}

/// `e` is the command of a drawn cell within the grid, at its layer.
pub open spec fn command_valid(
    g: Seq<Seq<Seq<i32>>>,
    reg: Map<i32, Tile>,
    stride: int,
    rows: int,
    cols: int,
    e: DrawCommand,
) -> bool {
    &&& e.layer < g.len()
    &&& e.row < rows
    &&& e.col < cols
    &&& is_drawn(e.layer as int, g[e.layer as int][e.row as int][e.col as int])
    &&& e == command_of(g, reg, stride, e.layer as int, e.row as int, e.col as int)
}

proof fn lemma_cell_commands_valid(
    g: Seq<Seq<Seq<i32>>>,
    reg: Map<i32, Tile>,
    stride: int,
    rows: int,
    cols: int,
    r: int,
    c: int,
    n: int,
)
    requires
        0 <= r < rows <= usize::MAX,
        0 <= c < cols <= usize::MAX,
        n <= g.len() <= usize::MAX,
    ensures
        forall|i: int|
            0 <= i < cell_commands(g, reg, stride, r, c, n).len() ==> command_valid(
                g,
                reg,
                stride,
                rows,
                cols,
                #[trigger] cell_commands(g, reg, stride, r, c, n)[i],
            ),
    decreases n,
{
    if n > 0 {
        lemma_cell_commands_valid(g, reg, stride, rows, cols, r, c, n - 1);
        let a = cell_commands(g, reg, stride, r, c, n - 1);
        let x = command_of(g, reg, stride, n - 1, r, c);
        if is_drawn(n - 1, g[n - 1][r][c]) {
            assert(command_valid(g, reg, stride, rows, cols, x));
            assert forall|i: int| 0 <= i < a.push(x).len() implies command_valid(
                g,
                reg,
                stride,
                rows,
                cols,
                #[trigger] a.push(x)[i],
            ) by {
                if i < a.len() {
                    assert(a.push(x)[i] == a[i]);
                }
            }
        }
    }
}

proof fn lemma_row_commands_valid(
    g: Seq<Seq<Seq<i32>>>,
    reg: Map<i32, Tile>,
    stride: int,
    rows: int,
    cols: int,
    r: int,
    n: int,
)
    requires
        0 <= r < rows <= usize::MAX,
        n <= cols <= usize::MAX,
        g.len() <= usize::MAX,
    ensures
        forall|i: int|
            0 <= i < row_commands(g, reg, stride, r, n).len() ==> command_valid(
                g,
                reg,
                stride,
                rows,
                cols,
                #[trigger] row_commands(g, reg, stride, r, n)[i],
            ),
    decreases n,
{
    if n > 0 {
        lemma_row_commands_valid(g, reg, stride, rows, cols, r, n - 1);
        lemma_cell_commands_valid(g, reg, stride, rows, cols, r, n - 1, g.len() as int);
        let a = row_commands(g, reg, stride, r, n - 1);
        let b = cell_commands(g, reg, stride, r, n - 1, g.len() as int);
        assert forall|i: int| 0 <= i < (a + b).len() implies command_valid(
            g,
            reg,
            stride,
            rows,
            cols,
            #[trigger] (a + b)[i],
        ) by {
            if i >= a.len() {
                assert((a + b)[i] == b[i - a.len()]);
            }
        }
    }
}

proof fn lemma_rows_commands_valid(
    g: Seq<Seq<Seq<i32>>>,
    reg: Map<i32, Tile>,
    stride: int,
    rows: int,
    cols: int,
    n: int,
)
    requires
        n <= rows <= usize::MAX,
        0 <= cols <= usize::MAX,
        g.len() <= usize::MAX,
    ensures
        forall|i: int|
            0 <= i < rows_commands(g, reg, stride, cols, n).len() ==> command_valid(
                g,
                reg,
                stride,
                rows,
                cols,
                #[trigger] rows_commands(g, reg, stride, cols, n)[i],
            ),
    decreases n,
{
    if n > 0 {
        lemma_rows_commands_valid(g, reg, stride, rows, cols, n - 1);
        lemma_row_commands_valid(g, reg, stride, rows, cols, n - 1, cols);
        let a = rows_commands(g, reg, stride, cols, n - 1);
        let b = row_commands(g, reg, stride, n - 1, cols);
        assert forall|i: int| 0 <= i < (a + b).len() implies command_valid(
            g,
            reg,
            stride,
            rows,
            cols,
            #[trigger] (a + b)[i],
        ) by {
            if i >= a.len() {
                assert((a + b)[i] == b[i - a.len()]);
            }
        }
    }
}

/// Every command of a frame belongs to a drawn cell of the grid and is that
/// cell's command at its layer.
pub proof fn lemma_frame_commands_valid(m: TileMap, stride: int)
    requires
        m.wf(),
    ensures
        forall|i: int|
            0 <= i < frame_commands(m, stride).len() ==> command_valid(
                m.grid_spec().cells(),
                m.registry_spec()@,
                stride,
                m.grid_spec().rows_spec() as int,
                m.grid_spec().cols_spec() as int,
                #[trigger] frame_commands(m, stride)[i],
            ),
{
    m.grid_spec().lemma_dims_fit();
    lemma_rows_commands_valid(
        m.grid_spec().cells(),
        m.registry_spec()@,
        stride,
        m.grid_spec().rows_spec() as int,
        m.grid_spec().cols_spec() as int,
        m.grid_spec().rows_spec() as int,
    );
}

/// A cell that holds the empty code on a layer above the base one gives no
/// draw command for that layer.
pub proof fn lemma_empty_cell_skipped(m: TileMap, stride: int, l: int, r: int, c: int)
    requires
        m.wf(),
        m.grid_spec().in_bounds(l, r, c),
        l > 0,
        m.grid_spec().code_spec(l, r, c) == EMPTY_CODE,
    ensures
        forall|i: int|
            0 <= i < frame_commands(m, stride).len() ==> !(#[trigger] frame_commands(m, stride)[i].layer
                == l && frame_commands(m, stride)[i].row == r && frame_commands(m, stride)[i].col
                == c),
{
    lemma_frame_commands_valid(m, stride);
}

proof fn lemma_cell_commands_complete(
    g: Seq<Seq<Seq<i32>>>,
    reg: Map<i32, Tile>,
    stride: int,
    r: int,
    c: int,
    n: int,
    l: int,
)
    requires
        0 <= l < n,
        is_drawn(l, g[l][r][c]),
    ensures
        cell_commands(g, reg, stride, r, c, n).contains(command_of(g, reg, stride, l, r, c)),
    decreases n,
{
    let a = cell_commands(g, reg, stride, r, c, n - 1);
    let y = command_of(g, reg, stride, l, r, c);
    if l == n - 1 {
        assert(a.push(y)[a.len() as int] == y);
    } else {
        lemma_cell_commands_complete(g, reg, stride, r, c, n - 1, l);
        let i = choose|i: int| 0 <= i < a.len() && a[i] == y;
        let x = command_of(g, reg, stride, n - 1, r, c);
        assert(a.push(x)[i] == y);
    }
}

proof fn lemma_concat_contains(a: Seq<DrawCommand>, b: Seq<DrawCommand>, y: DrawCommand)
    requires
        a.contains(y) || b.contains(y),
    ensures
        (a + b).contains(y),
{
    if a.contains(y) {
        let i = choose|i: int| 0 <= i < a.len() && a[i] == y;
        assert((a + b)[i] == y);
    } else {
        let j = choose|j: int| 0 <= j < b.len() && b[j] == y;
        assert((a + b)[a.len() + j] == y);
    }
}

proof fn lemma_row_commands_complete(
    g: Seq<Seq<Seq<i32>>>,
    reg: Map<i32, Tile>,
    stride: int,
    r: int,
    n: int,
    c: int,
    l: int,
)
    requires
        0 <= c < n,
        0 <= l < g.len(),
        is_drawn(l, g[l][r][c]),
    ensures
        row_commands(g, reg, stride, r, n).contains(command_of(g, reg, stride, l, r, c)),
    decreases n,
{
    let y = command_of(g, reg, stride, l, r, c);
    let a = row_commands(g, reg, stride, r, n - 1);
    let b = cell_commands(g, reg, stride, r, n - 1, g.len() as int);
    if c == n - 1 {
        lemma_cell_commands_complete(g, reg, stride, r, c, g.len() as int, l);
    } else {
        lemma_row_commands_complete(g, reg, stride, r, n - 1, c, l);
    }
    lemma_concat_contains(a, b, y);
}

proof fn lemma_rows_commands_complete(
    g: Seq<Seq<Seq<i32>>>,
    reg: Map<i32, Tile>,
    stride: int,
    cols: int,
    n: int,
    r: int,
    c: int,
    l: int,
)
    requires
        0 <= r < n,
        0 <= c < cols,
        0 <= l < g.len(),
        is_drawn(l, g[l][r][c]),
    ensures
        rows_commands(g, reg, stride, cols, n).contains(command_of(g, reg, stride, l, r, c)),
    decreases n,
{
    let y = command_of(g, reg, stride, l, r, c);
    let a = rows_commands(g, reg, stride, cols, n - 1);
    let b = row_commands(g, reg, stride, n - 1, cols);
    if r == n - 1 {
        lemma_row_commands_complete(g, reg, stride, r, cols, c, l);
    } else {
        lemma_rows_commands_complete(g, reg, stride, cols, n - 1, r, c, l);
    }
    lemma_concat_contains(a, b, y);
}

/// A drawn cell gets its command at its layer: the frame holds the command
/// with the cell's code, projected position and tile, and every command of
/// the frame at that layer, row and column is that very command.
pub proof fn lemma_drawn_cell_has_its_command(m: TileMap, stride: int, l: int, r: int, c: int)
    requires
        m.wf(),
        m.grid_spec().in_bounds(l, r, c),
        is_drawn(l, m.grid_spec().code_spec(l, r, c)),
    ensures
        frame_commands(m, stride).contains(
            command_of(m.grid_spec().cells(), m.registry_spec()@, stride, l, r, c),
        ),
        forall|i: int|
            0 <= i < frame_commands(m, stride).len() && #[trigger] frame_commands(m, stride)[i].layer
                == l && frame_commands(m, stride)[i].row == r && frame_commands(m, stride)[i].col
                == c ==> frame_commands(m, stride)[i] == command_of(
                m.grid_spec().cells(),
                m.registry_spec()@,
                stride,
                l,
                r,
                c,
            ),
{
    lemma_rows_commands_complete(
        m.grid_spec().cells(),
        m.registry_spec()@,
        stride,
        m.grid_spec().cols_spec() as int,
        m.grid_spec().rows_spec() as int,
        r,
        c,
        l,
    );
    lemma_frame_commands_valid(m, stride);
}

/// Rendering depends on nothing but the map's registry and grid: two maps
/// with the same tiles and the same codes give the same commands, in the same
/// order, and so do two renders of one map.
pub proof fn lemma_render_deterministic(a: TileMap, b: TileMap, stride: int)
    requires
        a.registry_spec()@ == b.registry_spec()@,
        a.grid_spec().cells() == b.grid_spec().cells(),
        a.grid_spec().rows_spec() == b.grid_spec().rows_spec(),
        a.grid_spec().cols_spec() == b.grid_spec().cols_spec(),
    ensures
        frame_commands(a, stride) == frame_commands(b, stride),
{
}

/// Whether indices `0..n`, spaced `stride` apart, stay within `i32`.
fn spacing_fits(n: usize, stride: i32) -> (b: bool)
    requires
        0 <= stride,
    ensures
        b == fits_stride(n as int, stride as int),
{
    if n == 0 {
        return true;
    }
    let a = (n - 1) as u128;
    let b = stride as u128;
    assert(a * b <= 0xffff_ffff_ffff_ffff * 0x7fff_ffff) by (nonlinear_arith)
        requires
            a <= 0xffff_ffff_ffff_ffff,
            b <= 0x7fff_ffff,
    ;
    a * b <= i32::MAX as u128
}

impl TileMap {
    /// Whether the grid's rows and columns, spaced `stride` apart, stay
    /// within `i32`, as `render` needs.
    pub fn fits_stride(&self, stride: i32) -> (b: bool)
        requires
            self.wf(),
            0 <= stride,
        ensures
            b == (fits_stride(self.grid_spec().rows_spec() as int, stride as int) && fits_stride(
                self.grid_spec().cols_spec() as int,
                stride as int,
            )),
    {
        let grid = self.grid();
        spacing_fits(grid.rows(), stride) && spacing_fits(grid.cols(), stride)
    }

    /// The draw commands of one frame, with cells spaced `stride` apart.
    pub fn render(&self, stride: i32) -> (r: Vec<DrawCommand>)
        requires
            self.wf(),
            0 <= stride,
            fits_stride(self.grid_spec().rows_spec() as int, stride as int),
            fits_stride(self.grid_spec().cols_spec() as int, stride as int),
        ensures
            r@ == frame_commands(*self, stride as int),
    {
        let grid = self.grid();
        let registry = self.registry();
        let rows = grid.rows();
        let cols = grid.cols();
        let nl = grid.layer_count();
        let ghost g = grid.cells();
        let ghost reg = registry@;
        let ghost s = stride as int;
        let mut out: Vec<DrawCommand> = Vec::new();
        let mut row: usize = 0;
        while row < rows
            invariant
                self.wf(),
                *grid == self.grid_spec(),
                *registry == self.registry_spec(),
                g == grid.cells(),
                reg == registry@,
                s == stride,
                0 <= stride,
                fits_stride(rows as int, s),
                fits_stride(cols as int, s),
                rows == grid.rows_spec(),
                cols == grid.cols_spec(),
                nl == g.len(),
                row <= rows,
                out@ == rows_commands(g, reg, s, cols as int, row as int),
            decreases rows - row,
        {
            let mut col: usize = 0;
            while col < cols
                invariant
                    self.wf(),
                    *grid == self.grid_spec(),
                    *registry == self.registry_spec(),
                    g == grid.cells(),
                    reg == registry@,
                    s == stride,
                    0 <= stride,
                    fits_stride(rows as int, s),
                    fits_stride(cols as int, s),
                    rows == grid.rows_spec(),
                    cols == grid.cols_spec(),
                    nl == g.len(),
                    row < rows,
                    col <= cols,
                    out@ == rows_commands(g, reg, s, cols as int, row as int) + row_commands(
                        g,
                        reg,
                        s,
                        row as int,
                        col as int,
                    ),
                decreases cols - col,
            {
                let ghost prefix = out@;
                let mut layer: usize = 0;
                while layer < nl
                    invariant
                        self.wf(),
                        *grid == self.grid_spec(),
                        *registry == self.registry_spec(),
                        g == grid.cells(),
                        reg == registry@,
                        s == stride,
                        0 <= stride,
                        fits_stride(rows as int, s),
                        fits_stride(cols as int, s),
                        rows == grid.rows_spec(),
                        cols == grid.cols_spec(),
                        nl == g.len(),
                        row < rows,
                        col < cols,
                        layer <= nl,
                        prefix == rows_commands(g, reg, s, cols as int, row as int) + row_commands(
                            g,
                            reg,
                            s,
                            row as int,
                            col as int,
                        ),
                        out@ == prefix + cell_commands(g, reg, s, row as int, col as int, layer as int),
                    decreases nl - layer,
                {
                    let code = grid.code_at(layer, row, col);
                    if layer == 0 || code != EMPTY_CODE {
                        assert(crate::map::resolves(g, reg, layer as int, row as int, col as int));
                        let tile = registry.tile(code);
                        assert((col as int) * s <= i32::MAX) by (nonlinear_arith)
                            requires
                                0 <= col < cols,
                                0 <= s,
                                fits_stride(cols as int, s),
                        ;
                        assert((row as int) * s <= i32::MAX) by (nonlinear_arith)
                            requires
                                0 <= row < rows,
                                0 <= s,
                                fits_stride(rows as int, s),
                        ;
                        assert(0 <= (col as int) * s && 0 <= (row as int) * s) by (nonlinear_arith)
                            requires
                                0 <= s,
                        ;
                        let x = ((col as u128) * (stride as u128)) as i32;
                        let y = ((row as u128) * (stride as u128)) as i32;
                        let position = cartesian_to_isometric(x, y);
                        let cmd = DrawCommand { layer, row, col, code, position, tile };
                        assert(cmd == command_of(g, reg, s, layer as int, row as int, col as int));
                        out.push(cmd);
                    }
                    proof {
                        assert(out@ =~= prefix + cell_commands(
                            g,
                            reg,
                            s,
                            row as int,
                            col as int,
                            layer + 1,
                        ));
                    }
                    layer = layer + 1;
                }
                proof {
                    assert(out@ =~= rows_commands(g, reg, s, cols as int, row as int) + row_commands(
                        g,
                        reg,
                        s,
                        row as int,
                        col + 1,
                    ));
                }
                col = col + 1;
            }
            proof {
                assert(out@ =~= rows_commands(g, reg, s, cols as int, row + 1));
            }
            row = row + 1;
        }
        out
    }
}

} // verus!
