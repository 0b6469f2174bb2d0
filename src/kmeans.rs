//! The clustering state and the operations on it: initialization,
//! classification, aggregation, the fixed-count loop and quantization.

use vstd::prelude::*;
use rand::rngs::StdRng;
use rand::{Rng, SeedableRng};
use rayon::iter::{IntoParallelIterator, ParallelIterator};
use crate::color::{Color, Dist};
use crate::model::{
    nearest, nearest_upto, is_nearest, cluster_count, cluster_sum, cluster_mean, update_step,
    rounds, quantized, lemma_nearest, lemma_nearest_upto, lemma_sum_bound, lemma_mean_bound,
};

verus! {

/// Why a centroid set could not be made.
#[derive(Debug, Clone, Copy, PartialEq, Eq, Structural)]
pub enum KMeansError {
    /// The cluster count was zero.
    NoClusters,
}

/// An ordered, non-empty set of centroids; index `i` is cluster `i`.
pub struct KMeans {
    vals: Vec<Color>,
}

impl View for KMeans {
    type V = Seq<Color>;

    closed spec fn view(&self) -> Seq<Color> {
        self.vals@
    }
}

/// Relies on rand::random: one colour from the thread-local generator,
/// each channel drawn over its whole range; any colour may come back.
#[verifier::external_body]
fn random_color() -> (r: Color) {
    rand::random::<Color>()
}

/// rand's seedable standard generator, carried through as an opaque value.
#[verifier::external_type_specification]
#[verifier::external_body]
pub struct ExStdRng(StdRng);

/// Relies on rand's `SeedableRng::seed_from_u64` for `StdRng`: a generator
/// whose stream is fixed by the seed.
#[verifier::external_body]
fn seeded_rng(seed: u64) -> (r: StdRng) {
    StdRng::seed_from_u64(seed)
}

/// Relies on rand's `Rng::gen` on a `StdRng`: the next colour of its stream,
/// each channel drawn over its whole range; any colour may come back.
#[verifier::external_body]
fn next_color(rng: &mut StdRng) -> (r: Color) {
    rng.gen::<Color>()
}

/// Relies on rayon: `into_par_iter` on `0..n`, then `map` and `collect`
/// into a `Vec`, yields `f(c)` at position `c` for every `c < n`, in order.
/// Each `f(c)` is `KMeans::mean_of_cluster`, one cluster per task.
#[verifier::external_body]
fn par_cluster_means(km: &KMeans, grid: &[Color]) -> (r: Vec<Option<Color>>)
    ensures
        r@.len() == km@.len(),
        forall|c: int| 0 <= c < km@.len() ==> #[trigger] r@[c] == cluster_mean(km@, grid@, c),
{
    (0..km.vals.len()).into_par_iter().map(|c| km.mean_of_cluster(c, grid)).collect()
}

impl KMeans {
    #[verifier::type_invariant]
    spec fn wf(&self) -> bool {
        self.vals@.len() >= 1
    }

    /// `k` centroids drawn at random; fails when `k` is zero.
    pub fn new(k: usize) -> (r: Result<KMeans, KMeansError>)
        ensures
            match r {
                Ok(m) => k >= 1 && m@.len() == k,
                Err(e) => k == 0 && e == KMeansError::NoClusters,
            },
    {
        if k == 0 {
            return Err(KMeansError::NoClusters);
        }
        let mut vals: Vec<Color> = Vec::new();
        let mut i: usize = 0;
        while i < k
            invariant
                i <= k,
                vals@.len() == i,
            decreases k - i,
        {
            vals.push(random_color());
            i = i + 1;
        }
        Ok(KMeans { vals })
    }

    /// `k` centroids drawn from the caller's generator; fails when `k` is zero.
    pub fn with_rng(k: usize, rng: &mut StdRng) -> (r: Result<KMeans, KMeansError>)
        ensures
            match r {
                Ok(m) => k >= 1 && m@.len() == k,
                Err(e) => k == 0 && e == KMeansError::NoClusters,
            },
    {
        if k == 0 {
            return Err(KMeansError::NoClusters);
        }
        let mut vals: Vec<Color> = Vec::new();
        let mut i: usize = 0;
        while i < k
            invariant
                i <= k,
                vals@.len() == i,
            decreases k - i,
        {
            vals.push(next_color(rng));
            i = i + 1;
        }
        Ok(KMeans { vals })
    }

    /// `k` centroids drawn from a generator seeded with `seed`, so that a
    /// seed always gives the same set; fails when `k` is zero.
    pub fn with_seed(k: usize, seed: u64) -> (r: Result<KMeans, KMeansError>)
        ensures
            match r {
                Ok(m) => k >= 1 && m@.len() == k,
                Err(e) => k == 0 && e == KMeansError::NoClusters,
            },
    {
        let mut rng = seeded_rng(seed);
        KMeans::with_rng(k, &mut rng)
    }

    /// The centroid set holding exactly `vals`; fails when `vals` is empty.
    pub fn from_centroids(vals: Vec<Color>) -> (r: Result<KMeans, KMeansError>)
        ensures
            match r {
                Ok(m) => vals@.len() >= 1 && m@ == vals@,
                Err(e) => vals@.len() == 0 && e == KMeansError::NoClusters,
            },
    {
        if vals.len() == 0 {
            Err(KMeansError::NoClusters)
        } else {
            Ok(KMeans { vals })
        }
    }

    /// The centroids, in cluster order.
    pub fn centroids(&self) -> (r: &Vec<Color>)
        ensures
            r@ == self@,
            r@.len() >= 1,
    {
        proof {
            use_type_invariant(self);
        }
        &self.vals
    }

    /// Index of the centroid nearest to `p`; the lowest index on ties.
    pub fn class_idx(&self, p: &Color) -> (r: usize)
        ensures
            r == nearest(self@, *p),
            is_nearest(self@, *p, r as int),
    {
        proof {
            use_type_invariant(self);
            lemma_nearest(self@, *p);
        }
        let mut best: usize = 0;
        let mut best_d: u32 = self.vals[0].dist(*p);
        let mut i: usize = 1;
        while i < self.vals.len()
            invariant
                1 <= i <= self.vals@.len(),
                best == nearest_upto(self@, *p, i as nat),
                best_d == crate::color::sq_dist(self@[best as int], *p),
            decreases self.vals@.len() - i,
        {
            proof {
                lemma_nearest_upto(self@, *p, i as nat);
            }
            let d = self.vals[i].dist(*p);
            if d < best_d {
                best = i;
                best_d = d;
            }
            i = i + 1;
        }
        best
    }

    /// The centroid nearest to `p`; the lowest index on ties.
    pub fn class_val(&self, p: &Color) -> (r: &Color)
        ensures
            *r == self@[nearest(self@, *p)],
    {
        let idx = self.class_idx(p);
        &self.vals[idx]
    }

    /// The component-wise mean (truncated) of the pixels of `grid` whose
    /// nearest centroid is `c`, or `None` when there are none.
    pub fn mean_of_cluster(&self, c: usize, grid: &[Color]) -> (r: Option<Color>)
        requires
            c < self@.len(),
        ensures
            r == cluster_mean(self@, grid@, c as int),
    {
        let ghost cs = self@;
        let ghost g = grid@;
        let mut cnt: u128 = 0;
        let mut s0: u128 = 0;
        let mut s1: u128 = 0;
        let mut s2: u128 = 0;
        let mut i: usize = 0;
        while i < grid.len()
            invariant
                i <= g.len(),
                g == grid@,
                cs == self@,
                cnt == cluster_count(cs, g.take(i as int), c as int),
                s0 == cluster_sum(cs, g.take(i as int), c as int, 0),
                s1 == cluster_sum(cs, g.take(i as int), c as int, 1),
                s2 == cluster_sum(cs, g.take(i as int), c as int, 2),
                cnt <= i,
            decreases g.len() - i,
        {
            proof {
                lemma_sum_bound(cs, g.take(i as int), c as int, 0);
                lemma_sum_bound(cs, g.take(i as int), c as int, 1);
                lemma_sum_bound(cs, g.take(i as int), c as int, 2);
                assert(g.take(i as int + 1).drop_last() =~= g.take(i as int));
                assert(g.take(i as int + 1).last() == g[i as int]);
            }
            let p = grid[i];
            if self.class_idx(&p) == c {
                cnt = cnt + 1;
                s0 = s0 + p[0] as u128;
                s1 = s1 + p[1] as u128;
                s2 = s2 + p[2] as u128;
            }
            i = i + 1;
        }
        proof {
            assert(g.take(g.len() as int) =~= g);
        }
        if cnt == 0 {
            None
        } else {
            proof {
                lemma_sum_bound(cs, g, c as int, 0);
                lemma_sum_bound(cs, g, c as int, 1);
                lemma_sum_bound(cs, g, c as int, 2);
                lemma_mean_bound(s0 as nat, cnt as nat);
                lemma_mean_bound(s1 as nat, cnt as nat);
                lemma_mean_bound(s2 as nat, cnt as nat);
            }
            Some([(s0 / cnt) as u8, (s1 / cnt) as u8, (s2 / cnt) as u8])
        }
    }

    /// One round: every centroid becomes the mean of the pixels nearest to
    /// it under the old set, or stays as it was when no pixel is.
    /// The clusters are aggregated in parallel against one frozen snapshot.
    pub fn update(&mut self, grid: &[Color])
        ensures
            final(self)@ == update_step(old(self)@, grid@),
    {
        proof {
            use_type_invariant(&*self);
        }
        let means = par_cluster_means(self, grid);
        let mut next: Vec<Color> = Vec::new();
        let mut i: usize = 0;
        while i < self.vals.len()
            invariant
                i <= self.vals@.len(),
                means@.len() == self.vals@.len(),
                forall|c: int| 0 <= c < self@.len() ==> #[trigger] means@[c] == cluster_mean(self@, grid@, c),
                next@ =~= update_step(self@, grid@).take(i as int),
            decreases self.vals@.len() - i,
        {
            let v = match means[i] {
                Some(m) => m,
                None => self.vals[i],
            };
            next.push(v);
            i = i + 1;
        }
        proof {
            assert(next@ =~= update_step(self@, grid@));
        }
        self.vals = next;
    }

    /// Exactly `iterations` rounds, with no early exit.
    pub fn iterate(&mut self, iterations: usize, grid: &[Color])
        ensures
            final(self)@ == rounds(old(self)@, grid@, iterations as nat),
    {
        let ghost start = self@;
        let mut n: usize = 0;
        while n < iterations
            invariant
                n <= iterations,
                self@ == rounds(start, grid@, n as nat),
            decreases iterations - n,
        {
            self.update(grid);
            n = n + 1;
        }
    }

    /// Every pixel of `grid` replaced by its nearest centroid.
    pub fn quantize(&self, grid: &mut Vec<Color>)
        ensures
            final(grid)@ == quantized(self@, old(grid)@),
    {
        let ghost g = grid@;
        let mut i: usize = 0;
        while i < grid.len()
            invariant
                i <= grid@.len(),
                grid@.len() == g.len(),
                forall|j: int| 0 <= j < i ==> grid@[j] == #[trigger] quantized(self@, g)[j],
                forall|j: int| i <= j < g.len() ==> grid@[j] == g[j],
            decreases g.len() - i,
        {
            let v = *self.class_val(&grid[i]);
            grid.set(i, v);
            i = i + 1;
        }
        proof {
            assert(grid@ =~= quantized(self@, g));
        }
    }
} // impl KMeans

/// `k` random centroids refined by exactly `iterations` rounds over `grid`;
/// fails when `k` is zero.
pub fn run(k: usize, iterations: usize, grid: &[Color]) -> (r: Result<KMeans, KMeansError>)
    ensures
        match r {
            Ok(m) => {
                &&& k >= 1
                &&& m@.len() == k
                &&& exists|init: Seq<Color>|
                    init.len() == k && m@ == #[trigger] rounds(init, grid@, iterations as nat)
            },
            Err(e) => k == 0 && e == KMeansError::NoClusters,
        },
{
    let mut m = KMeans::new(k)?;
    let ghost init = m@;
    m.iterate(iterations, grid);
    proof {
        crate::model::lemma_rounds_len(init, grid@, iterations as nat);
    }
    Ok(m)
}

} // verus!
