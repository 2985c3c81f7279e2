use vstd::prelude::*;

use crate::error::MapError;

verus! {

/// Every layer has `rows` rows of `cols` codes.
pub open spec fn shaped(layers: Seq<Seq<Seq<i32>>>, rows: int, cols: int) -> bool {
    &&& forall|l: int| 0 <= l < layers.len() ==> #[trigger] layers[l].len() == rows
    &&& forall|l: int, r: int|
        0 <= l < layers.len() && 0 <= r < rows ==> #[trigger] layers[l][r].len() == cols
}

/// One or more layers of tile codes, all of one shape, indexed by layer
/// (bottom first), row and column.
pub struct LayeredGrid {
    rows: usize,
    cols: usize,
    layers: Vec<Vec<Vec<i32>>>,
}

impl LayeredGrid {
    /// The codes, by layer, row and column.
    pub closed spec fn cells(&self) -> Seq<Seq<Seq<i32>>> {
        self.layers.deep_view()
    }

    pub closed spec fn rows_spec(&self) -> nat {
        self.rows as nat
    }

    pub closed spec fn cols_spec(&self) -> nat {
        self.cols as nat
    }

    pub open spec fn layers_spec(&self) -> nat {
        self.cells().len()
    }

    pub open spec fn wf(&self) -> bool {
        &&& 1 <= self.layers_spec() <= usize::MAX
        &&& shaped(self.cells(), self.rows_spec() as int, self.cols_spec() as int)
    }

    pub open spec fn in_bounds(&self, l: int, r: int, c: int) -> bool {
        &&& 0 <= l < self.layers_spec()
        &&& 0 <= r < self.rows_spec()
        &&& 0 <= c < self.cols_spec()
    }

    pub open spec fn code_spec(&self, l: int, r: int, c: int) -> i32 {
        self.cells()[l][r][c]
    }

    /// The grid's dimensions are those of a value in memory.
    pub proof fn lemma_dims_fit(&self)
        ensures
            self.rows_spec() <= usize::MAX,
            self.cols_spec() <= usize::MAX,
    {
    }

    /// A grid of `rows` rows and `cols` columns made of `layers`: it fails
    /// when there is no layer, or when a layer has another shape.
    pub fn new(rows: usize, cols: usize, layers: Vec<Vec<Vec<i32>>>) -> (r: Result<
        LayeredGrid,
        MapError,
    >)
        ensures
            layers@.len() == 0 ==> r == Err::<LayeredGrid, MapError>(
                MapError::MalformedDescription,
            ),
            layers@.len() > 0 && !shaped(layers.deep_view(), rows as int, cols as int) ==> r
                == Err::<LayeredGrid, MapError>(MapError::DimensionMismatch),
            layers@.len() > 0 && shaped(layers.deep_view(), rows as int, cols as int) ==> {
                &&& r is Ok
                &&& r->Ok_0.wf()
                &&& r->Ok_0.rows_spec() == rows
                &&& r->Ok_0.cols_spec() == cols
                &&& r->Ok_0.cells() == layers.deep_view()
            },
    {
        if layers.len() == 0 {
            return Err(MapError::MalformedDescription);
        }
        if !is_shaped(&layers, rows, cols) {
            return Err(MapError::DimensionMismatch);
        }
        Ok(LayeredGrid { rows, cols, layers })
    }

    pub fn rows(&self) -> (r: usize)
        ensures
            r == self.rows_spec(),
    {
        self.rows
    }

    pub fn cols(&self) -> (r: usize)
        ensures
            r == self.cols_spec(),
    {
        self.cols
    }

    pub fn layer_count(&self) -> (r: usize)
        ensures
            r == self.layers_spec(),
    {
        self.layers.len()
    }

    /// The code at `layer`, `row`, `col`, which lie within the grid.
    pub fn code_at(&self, layer: usize, row: usize, col: usize) -> (r: i32)
        requires
            self.wf(),
            self.in_bounds(layer as int, row as int, col as int),
        ensures
            r == self.code_spec(layer as int, row as int, col as int),
    {
        let ghost d = self.cells();
        assert(d[layer as int].len() == self.rows);
        assert(d[layer as int][row as int].len() == self.cols);
        assert(d[layer as int] == self.layers@[layer as int].deep_view());
        self.layers[layer][row][col]
    }

    /// The code at `layer`, `row`, `col`.
    pub fn cell(&self, layer: usize, row: usize, col: usize) -> (r: Result<i32, MapError>)
        requires
            self.wf(),
        ensures
            self.in_bounds(layer as int, row as int, col as int) ==> r == Ok::<i32, MapError>(
                self.code_spec(layer as int, row as int, col as int),
            ),
            !self.in_bounds(layer as int, row as int, col as int) ==> r == Err::<i32, MapError>(
                MapError::OutOfBounds,
            ),
    {
        if layer >= self.layers.len() || row >= self.rows || col >= self.cols {
            return Err(MapError::OutOfBounds);
        }
        Ok(self.code_at(layer, row, col))
    }
}

fn is_shaped(layers: &Vec<Vec<Vec<i32>>>, rows: usize, cols: usize) -> (b: bool)
    ensures
        b == shaped(layers.deep_view(), rows as int, cols as int),
{
    let ghost d = layers.deep_view();
    let mut l: usize = 0;
    while l < layers.len()
        invariant
            l <= layers@.len(),
            d == layers.deep_view(),
            shaped(d.subrange(0, l as int), rows as int, cols as int),
        decreases layers@.len() - l,
    {
        if layers[l].len() != rows {
            assert(d[l as int].len() != rows);
            return false;
        }
        let mut r: usize = 0;
        while r < rows
            invariant
                l < layers@.len(),
                d == layers.deep_view(),
                layers@[l as int]@.len() == rows,
                forall|k: int| 0 <= k < r ==> #[trigger] d[l as int][k].len() == cols,
            decreases rows - r,
        {
            if layers[l][r].len() != cols {
                assert(d[l as int][r as int].len() != cols);
                return false;
            }
            r = r + 1;
        }
        assert(shaped(d.subrange(0, l + 1), rows as int, cols as int)) by {
            let s = d.subrange(0, l + 1);
            assert forall|i: int, k: int| 0 <= i < s.len() && 0 <= k < rows implies #[trigger] s[i][k].len()
                == cols by {
                if i < l {
                    assert(d.subrange(0, l as int)[i] == s[i]);
                }
            }
            assert forall|i: int| 0 <= i < s.len() implies #[trigger] s[i].len() == rows by {
                if i < l {
                    assert(d.subrange(0, l as int)[i] == s[i]);
                }
            }
        }
        l = l + 1;
    }
    assert(d.subrange(0, l as int) =~= d);
    true
}

} // verus!
