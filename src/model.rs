//! The mathematical model of clustering: nearest centroid, cluster
//! aggregates, one round of updates, the fixed-count loop and quantization.

use vstd::prelude::*;
use crate::color::{Color, rgb, sq_dist, lemma_sq_dist_zero};

verus! {

/// Index of the nearest among the first `n` centroids; ties go to the lowest index.
pub open spec fn nearest_upto(cs: Seq<Color>, p: Color, n: nat) -> int
    decreases n,
{
    if n <= 1 {
        0
    } else {
        let b = nearest_upto(cs, p, (n - 1) as nat);
        if sq_dist(cs[n - 1], p) < sq_dist(cs[b], p) {
            n - 1
        } else {
            b
        }
    }
}

/// Index of the centroid nearest to `p`, the lowest such index on ties.
pub open spec fn nearest(cs: Seq<Color>, p: Color) -> int {
    nearest_upto(cs, p, cs.len())
}

/// `i` is the lowest index of a centroid at minimal distance from `p`.
pub open spec fn is_nearest(cs: Seq<Color>, p: Color, i: int) -> bool {
    &&& 0 <= i < cs.len()
    &&& forall|j: int| 0 <= j < cs.len() ==> sq_dist(cs[i], p) <= #[trigger] sq_dist(cs[j], p)
    &&& forall|j: int| 0 <= j < i ==> #[trigger] sq_dist(cs[j], p) > sq_dist(cs[i], p)
}

/// Number of pixels of `grid` whose nearest centroid is `c`.
pub open spec fn cluster_count(cs: Seq<Color>, grid: Seq<Color>, c: int) -> nat
    decreases grid.len(),
{
    if grid.len() == 0 {
        0
    } else {
        cluster_count(cs, grid.drop_last(), c) + if nearest(cs, grid.last()) == c {
            1nat
        } else {
            0nat
        }
    }
}

/// Sum of channel `ch` over the pixels of `grid` whose nearest centroid is `c`.
pub open spec fn cluster_sum(cs: Seq<Color>, grid: Seq<Color>, c: int, ch: int) -> nat
    decreases grid.len(),
{
    if grid.len() == 0 {
        0
    } else {
        cluster_sum(cs, grid.drop_last(), c, ch) + if nearest(cs, grid.last()) == c {
            grid.last()[ch] as nat
        } else {
            0nat
        }
    }
}

/// Channel `ch` of the mean of cluster `c`, truncated toward zero.
pub open spec fn mean_channel(cs: Seq<Color>, grid: Seq<Color>, c: int, ch: int) -> u8 {
    (cluster_sum(cs, grid, c, ch) / cluster_count(cs, grid, c)) as u8
}

/// The component-wise mean of cluster `c`, or `None` when no pixel is in it.
pub open spec fn cluster_mean(cs: Seq<Color>, grid: Seq<Color>, c: int) -> Option<Color> {
    if cluster_count(cs, grid, c) == 0 {
        None
    } else {
        Some(
            rgb(mean_channel(cs, grid, c, 0), mean_channel(cs, grid, c, 1), mean_channel(cs, grid, c, 2)),
        )
    }
}

/// The centroid that replaces centroid `c` after one round: the mean of its
/// cluster, or the old centroid when the cluster is empty.
pub open spec fn new_centroid(cs: Seq<Color>, grid: Seq<Color>, c: int) -> Color {
    match cluster_mean(cs, grid, c) {
        Some(m) => m,
        None => cs[c],
    }
}

/// One round: every centroid replaced at once, against the same old set.
pub open spec fn update_step(cs: Seq<Color>, grid: Seq<Color>) -> Seq<Color> {
    Seq::new(cs.len(), |c: int| new_centroid(cs, grid, c))
}

/// The centroid set after `n` rounds starting from `cs`.
pub open spec fn rounds(cs: Seq<Color>, grid: Seq<Color>, n: nat) -> Seq<Color>
    decreases n,
{
    if n == 0 {
        cs
    } else {
        update_step(rounds(cs, grid, (n - 1) as nat), grid)
    }
}

/// Every pixel replaced by its nearest centroid.
pub open spec fn quantized(cs: Seq<Color>, grid: Seq<Color>) -> Seq<Color> {
    Seq::new(grid.len(), |i: int| cs[nearest(cs, grid[i])])
}

/// The recursive choice is the lowest index at minimal distance.
pub proof fn lemma_nearest_upto(cs: Seq<Color>, p: Color, n: nat)
    requires
        1 <= n <= cs.len(),
    ensures
        0 <= nearest_upto(cs, p, n) < n,
        forall|j: int|
            0 <= j < n ==> sq_dist(cs[nearest_upto(cs, p, n)], p) <= #[trigger] sq_dist(cs[j], p),
        forall|j: int|
            0 <= j < nearest_upto(cs, p, n) ==> #[trigger] sq_dist(cs[j], p) > sq_dist(
                cs[nearest_upto(cs, p, n)],
                p,
            ),
    decreases n,
{
    if n > 1 {
        lemma_nearest_upto(cs, p, (n - 1) as nat);
    }
}

/// `nearest` picks the lowest index of a centroid at minimal distance.
pub proof fn lemma_nearest(cs: Seq<Color>, p: Color)
    requires
        cs.len() >= 1,
    ensures
        is_nearest(cs, p, nearest(cs, p)),
{
    lemma_nearest_upto(cs, p, cs.len());
}

/// A colour's nearest centroid is the colour itself when the colour is one of the centroids.
pub proof fn lemma_nearest_of_member(cs: Seq<Color>, i: int)
    requires
        0 <= i < cs.len(),
    ensures
        cs[nearest(cs, cs[i])] == cs[i],
{
    lemma_nearest(cs, cs[i]);
    let m = nearest(cs, cs[i]);
    lemma_sq_dist_zero(cs[i], cs[i]);
    lemma_sq_dist_zero(cs[m], cs[i]);
}

/// A cluster's channel sum is at most 255 times its size.
pub proof fn lemma_sum_bound(cs: Seq<Color>, grid: Seq<Color>, c: int, ch: int)
    ensures
        cluster_sum(cs, grid, c, ch) <= 255 * cluster_count(cs, grid, c),
    decreases grid.len(),
{
    if grid.len() > 0 {
        lemma_sum_bound(cs, grid.drop_last(), c, ch);
    }
}

/// So each channel of a cluster's mean fits in a byte.
pub proof fn lemma_mean_bound(s: nat, n: nat)
    requires
        n > 0,
        s <= 255 * n,
    ensures
        s / n <= 255,
{
    assert(s / n <= 255) by (nonlinear_arith)
        requires
            n > 0,
            s <= 255 * n,
    ;
}

/// Rounds keep the number of centroids.
pub proof fn lemma_rounds_len(cs: Seq<Color>, grid: Seq<Color>, n: nat)
    ensures
        rounds(cs, grid, n).len() == cs.len(),
    decreases n,
{
    if n > 0 {
        lemma_rounds_len(cs, grid, (n - 1) as nat);
    }
}

} // verus!
