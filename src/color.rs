//! Colour vectors and the distance between them.

use vstd::prelude::*;

verus! {

/// One pixel or centroid: three 8-bit channels.
pub type Color = [u8; 3];

/// The colour with the given channels.
pub open spec fn rgb(r: u8, g: u8, b: u8) -> Color {
    [r, g, b]
}

/// Square of the difference of two channel values.
pub open spec fn diff_sq(x: u8, y: u8) -> int {
    (x - y) * (x - y)
}

/// Squared Euclidean distance between two colours.
///
/// The square root is monotone, so comparing squared distances orders
/// colours exactly as the Euclidean norm does, without rounding.
pub open spec fn sq_dist(a: Color, b: Color) -> int {
    diff_sq(a[0], b[0]) + diff_sq(a[1], b[1]) + diff_sq(a[2], b[2])
}

proof fn lemma_diff_sq(x: u8, y: u8)
    ensures
        diff_sq(x, y) >= 0,
        diff_sq(x, y) == 0 <==> x == y,
        diff_sq(x, y) == diff_sq(y, x),
{
    let d: int = x - y;
    assert(d * d >= 0) by (nonlinear_arith);
    assert(d != 0 ==> d * d > 0) by (nonlinear_arith);
    assert(d * d == (-d) * (-d)) by (nonlinear_arith);
}

/// Zero distance exactly between equal colours.
pub proof fn lemma_sq_dist_zero(a: Color, b: Color)
    ensures
        sq_dist(a, b) >= 0,
        sq_dist(a, b) == 0 <==> a == b,
        sq_dist(a, a) == 0,
        sq_dist(a, b) == sq_dist(b, a),
{
    lemma_diff_sq(a[0], b[0]);
    lemma_diff_sq(a[1], b[1]);
    lemma_diff_sq(a[2], b[2]);
    if sq_dist(a, b) == 0 {
        assert(a =~= b);
    }
}

/// Square of the difference of two channel values, computed exactly.
fn channel_diff_sq(x: u8, y: u8) -> (r: u32)
    ensures
        r as int == diff_sq(x, y),
        r <= 65025,
{
    let d: u32 = if x >= y {
        (x - y) as u32
    } else {
        (y - x) as u32
    };
    assert(d * d == (x - y) * (x - y) && d * d <= 65025) by (nonlinear_arith)
        requires
            d as int == x - y || d as int == y - x,
            d <= 255,
    ;
    d * d
}

/// Squared Euclidean distance between two colours, channel by channel.
pub fn euclidi(a: &Color, b: &Color) -> (r: u32)
    ensures
        r as int == sq_dist(*a, *b),
{
    channel_diff_sq(a[0], b[0]) + channel_diff_sq(a[1], b[1]) + channel_diff_sq(a[2], b[2])
}

/// A dissimilarity between two values of one kind.
pub trait Dist: Sized {
    /// The dissimilarity, as a mathematical integer.
    spec fn spec_dist(self, other: Self) -> int;

    /// Computes the dissimilarity of `self` and `other`.
    fn dist(self, other: Self) -> (r: u32)
        ensures
            r as int == self.spec_dist(other),
    ;
}

impl Dist for Color {
    /// Squared Euclidean distance: orders pairs as the Euclidean norm does.
    open spec fn spec_dist(self, other: Self) -> int {
        sq_dist(self, other)
    }

    fn dist(self, other: Self) -> (r: u32) {
        euclidi(&self, &other)
    }
}

} // verus!
