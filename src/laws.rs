//! Properties that hold of clustering and quantization for all inputs.

use vstd::prelude::*;
use crate::color::{Color, rgb};
use crate::model::{
    nearest, cluster_count, cluster_sum, cluster_mean, mean_channel, update_step,
    rounds, quantized, lemma_nearest, lemma_nearest_of_member, lemma_rounds_len,
};

verus! {

/// The loop keeps the number of centroids, and zero rounds hand back the
/// initial set unchanged.
pub proof fn law_rounds_shape(cs: Seq<Color>, grid: Seq<Color>, n: nat)
    ensures
        rounds(cs, grid, n).len() == cs.len(),
        rounds(cs, grid, 0) == cs,
{
    lemma_rounds_len(cs, grid, n);
}

/// Every quantized pixel is one of the centroids, so the quantized grid
/// holds at most as many distinct colours as there are centroids.
pub proof fn law_quantized_palette(cs: Seq<Color>, grid: Seq<Color>)
    requires
        cs.len() >= 1,
    ensures
        forall|i: int| 0 <= i < grid.len() ==> cs.contains(#[trigger] quantized(cs, grid)[i]),
        quantized(cs, grid).to_set().subset_of(cs.to_set()),
        quantized(cs, grid).to_set().len() <= cs.len(),
{
    broadcast use vstd::seq_lib::seq_to_set_is_finite;

    let out = quantized(cs, grid);
    assert forall|i: int| 0 <= i < grid.len() implies cs.contains(#[trigger] out[i]) by {
        lemma_nearest(cs, grid[i]);
        assert(out[i] == cs[nearest(cs, grid[i])]);
    }
    assert forall|v: Color| out.to_set().contains(v) implies cs.to_set().contains(v) by {
        let i = choose|i: int| 0 <= i < out.len() && out[i] == v;
        lemma_nearest(cs, grid[i]);
        assert(cs[nearest(cs, grid[i])] == v);
    }
    cs.lemma_cardinality_of_set();
    vstd::set_lib::lemma_len_subset(out.to_set(), cs.to_set());
}

/// Quantizing an already quantized grid with the same centroids changes nothing.
pub proof fn law_quantize_idempotent(cs: Seq<Color>, grid: Seq<Color>)
    requires
        cs.len() >= 1,
    ensures
        quantized(cs, quantized(cs, grid)) == quantized(cs, grid),
{
    let once = quantized(cs, grid);
    assert forall|i: int| 0 <= i < grid.len() implies #[trigger] quantized(cs, once)[i] == once[i] by {
        lemma_nearest(cs, grid[i]);
        lemma_nearest_of_member(cs, nearest(cs, grid[i]));
    }
    assert(quantized(cs, once) =~= once);
}

proof fn lemma_uniform_count(cs: Seq<Color>, grid: Seq<Color>, q: Color, c: int, ch: int)
    requires
        0 <= ch < 3,
        forall|i: int| 0 <= i < grid.len() ==> grid[i] == q,
    ensures
        cluster_count(cs, grid, c) == if nearest(cs, q) == c {
            grid.len()
        } else {
            0
        },
        cluster_sum(cs, grid, c, ch) as int == cluster_count(cs, grid, c) as int * q[ch] as int,
    decreases grid.len(),
{
    assert(0 * (q[ch] as int) == 0) by (nonlinear_arith);
    if grid.len() > 0 {
        lemma_uniform_count(cs, grid.drop_last(), q, c, ch);
        let n = cluster_count(cs, grid.drop_last(), c) as int;
        let x = q[ch] as int;
        assert(grid.last() == q);
        assert((n + 1) * x == n * x + x) by (nonlinear_arith);
    }
}

/// After one round over a grid of the single colour `q`, the centroid
/// nearest to `q` is `q` itself.
proof fn lemma_uniform_step(cs: Seq<Color>, grid: Seq<Color>, q: Color)
    requires
        cs.len() >= 1,
        grid.len() >= 1,
        forall|i: int| 0 <= i < grid.len() ==> grid[i] == q,
    ensures
        update_step(cs, grid)[nearest(update_step(cs, grid), q)] == q,
{
    let a = nearest(cs, q);
    lemma_nearest(cs, q);
    let n = grid.len();
    assert forall|ch: int| 0 <= ch < 3 implies #[trigger] mean_channel(cs, grid, a, ch) == q[ch] by {
        lemma_uniform_count(cs, grid, q, a, ch);
        let x = q[ch] as nat;
        assert((n * x) / n == x) by (nonlinear_arith)
            requires
                n > 0,
        ;
    }
    lemma_uniform_count(cs, grid, q, a, 0);
    assert(rgb(mean_channel(cs, grid, a, 0), mean_channel(cs, grid, a, 1), mean_channel(cs, grid, a, 2)) =~= q);
    let ns = update_step(cs, grid);
    assert(ns[a] == q);
    lemma_nearest_of_member(ns, a);
}

/// A grid of one colour: after any positive number of rounds the centroid
/// nearest to that colour is the colour itself, and quantization gives the
/// grid back unchanged.
pub proof fn law_uniform_grid(cs: Seq<Color>, grid: Seq<Color>, q: Color, n: nat)
    requires
        cs.len() >= 1,
        grid.len() >= 1,
        n >= 1,
        forall|i: int| 0 <= i < grid.len() ==> grid[i] == q,
    ensures
        rounds(cs, grid, n)[nearest(rounds(cs, grid, n), q)] == q,
        quantized(rounds(cs, grid, n), grid) == grid,
{
    let prev = rounds(cs, grid, (n - 1) as nat);
    lemma_rounds_len(cs, grid, (n - 1) as nat);
    lemma_uniform_step(prev, grid, q);
    let f = rounds(cs, grid, n);
    assert(quantized(f, grid) =~= grid);
}

/// The per-cluster count and channel sums over a grid split in two parts
/// are the sums of those over the parts, so merging partial aggregates from
/// any partition, in any order, gives the same means.
pub proof fn law_partition(cs: Seq<Color>, a: Seq<Color>, b: Seq<Color>, c: int, ch: int)
    ensures
        cluster_count(cs, a + b, c) == cluster_count(cs, a, c) + cluster_count(cs, b, c),
        cluster_sum(cs, a + b, c, ch) == cluster_sum(cs, a, c, ch) + cluster_sum(cs, b, c, ch),
        cluster_mean(cs, a + b, c) == cluster_mean(cs, b + a, c),
{
    lemma_split(cs, a, b, c, ch);
    lemma_split(cs, b, a, c, 0);
    lemma_split(cs, b, a, c, 1);
    lemma_split(cs, b, a, c, 2);
    lemma_split(cs, a, b, c, 0);
    lemma_split(cs, a, b, c, 1);
    lemma_split(cs, a, b, c, 2);
}

proof fn lemma_split(cs: Seq<Color>, a: Seq<Color>, b: Seq<Color>, c: int, ch: int)
    ensures
        cluster_count(cs, a + b, c) == cluster_count(cs, a, c) + cluster_count(cs, b, c),
        cluster_sum(cs, a + b, c, ch) == cluster_sum(cs, a, c, ch) + cluster_sum(cs, b, c, ch),
    decreases b.len(),
{
    if b.len() == 0 {
        assert(a + b =~= a);
    } else {
        lemma_split(cs, a, b.drop_last(), c, ch);
        assert((a + b).drop_last() =~= a + b.drop_last());
        assert((a + b).last() == b.last());
    }
}

} // verus!
