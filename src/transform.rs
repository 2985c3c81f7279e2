use vstd::prelude::*;

verus! {

/// A position on screen in the isometric projection, stored in half-pixel
/// units: the point is `(half_x / 2, half_y / 2)`. Every grid cell maps to a
/// whole number of half-pixels, so the projection is exact on integers.
#[derive(Clone, Copy, Debug, PartialEq, Eq, Structural)]
pub struct IsoPoint {
    pub half_x: i64,
    pub half_y: i64,
}

/// The 2:1 isometric projection of grid point `(x, y)`, in half-pixel units:
/// screen x is `x - y` and screen y is `(x + y) / 2`.
pub open spec fn iso_of(x: int, y: int) -> (int, int) {
    (2 * (x - y), x + y)
}

/// The grid point under screen point `(half_x / 2, half_y / 2)`:
/// `floor((2 * sy + sx) / 2)` and `floor((2 * sy - sx) / 2)`.
pub open spec fn cart_of(half_x: int, half_y: int) -> (int, int) {
    ((2 * half_y + half_x) / 4, (2 * half_y - half_x) / 4)
}

impl IsoPoint {
    pub open spec fn view_pair(self) -> (int, int) {
        (self.half_x as int, self.half_y as int)
    }
}

/// Projects a grid point onto the screen.
pub fn cartesian_to_isometric(x: i32, y: i32) -> (r: IsoPoint)
    ensures
        r.view_pair() == iso_of(x as int, y as int),
{
    let xw = x as i64;
    let yw = y as i64;
    IsoPoint { half_x: 2 * (xw - yw), half_y: xw + yw }
}

/// Maps a screen point back to the grid, rounding each coordinate down.
pub fn isometric_to_cartesian(p: IsoPoint) -> (r: (i64, i64))
    ensures
        (r.0 as int, r.1 as int) == cart_of(p.half_x as int, p.half_y as int),
{
    let hx = p.half_x as i128;
    let hy = p.half_y as i128;
    let gx = floor_quarter(2 * hy + hx);
    let gy = floor_quarter(2 * hy - hx);
    (gx as i64, gy as i64)
}

/// `floor(s / 4)`.
fn floor_quarter(s: i128) -> (r: i128)
    requires
        3 * (i64::MIN as int) <= s as int <= -3 * (i64::MIN as int),
    ensures
        r as int == s as int / 4,
        i64::MIN <= r <= i64::MAX,
{
    if s >= 0 {
        s / 4
    } else {
        let n = -s;
        let q = n / 4;
        if n % 4 == 0 {
            -q
        } else {
            -q - 1
        }
    }
}

/// Mapping any grid point to the screen and back gives the same grid point.
pub proof fn lemma_round_trip(x: int, y: int)
    ensures
        cart_of(iso_of(x, y).0, iso_of(x, y).1) == (x, y),
{
    assert(2 * (x + y) + 2 * (x - y) == 4 * x);
    assert(2 * (x + y) - 2 * (x - y) == 4 * y);
    assert((4 * x) / 4 == x) by (nonlinear_arith);
    assert((4 * y) / 4 == y) by (nonlinear_arith);
}

/// The projection is additive: the image of a sum of grid points is the sum
/// of their images, with no offset and no scale error.
pub proof fn lemma_additive(x1: int, y1: int, x2: int, y2: int)
    ensures
        iso_of(x1 + x2, y1 + y2) == (
            iso_of(x1, y1).0 + iso_of(x2, y2).0,
            iso_of(x1, y1).1 + iso_of(x2, y2).1,
        ),
{
}

} // verus!
