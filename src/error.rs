use vstd::prelude::*;

verus! {

/// Why a map could not be loaded or a lookup failed.
#[derive(Clone, Copy, Debug, PartialEq, Eq, Structural)]
pub enum MapError {
    /// The description names no source image.
    MissingImage,
    /// The description holds no layer.
    MalformedDescription,
    /// A layer's shape differs from the declared width and height.
    DimensionMismatch,
    /// A cell that is drawn holds a code that no tile was registered under.
    UnknownTileCode(i32),
    /// A layer, row or column past the grid's bounds.
    OutOfBounds,
}

} // verus!
