use vstd::prelude::*;

use crate::accel::assign_with_hints;
use crate::color::{dist_sq, distance_sq, LinearRgb};
use crate::error::PaletteError;
use crate::rng::{draw, state_after, SeededRng};

verus! {

/// Number of clusters used when the caller has no preference.
pub const DEFAULT_CLUSTERS: usize = 16;

/// Iteration cap used when the caller has no preference.
pub const DEFAULT_MAX_ITERATIONS: usize = 20;

/// Convergence threshold used when the caller has no preference: a total squared
/// centroid displacement of 0.0025 in unit-range linear space, in 16-bit units.
pub const DEFAULT_CONVERGENCE: u128 = 10_737_091;

// ---------------------------------------------------------------------------
// Model

/// Index of the first centroid among `c[0..m]` that is nearest to `p`.
pub open spec fn nearest_upto(p: LinearRgb, c: Seq<LinearRgb>, m: nat) -> nat
    decreases m,
{
    if m <= 1 {
        0
    } else {
        let best = nearest_upto(p, c, (m - 1) as nat);
        if dist_sq(p, c[m - 1]) < dist_sq(p, c[best as int]) {
            (m - 1) as nat
        } else {
            best
        }
    }
}

/// Index of the first centroid nearest to `p`.
pub open spec fn nearest(p: LinearRgb, c: Seq<LinearRgb>) -> nat {
    nearest_upto(p, c, c.len())
}

/// Each sample's nearest centroid.
pub open spec fn assign(s: Seq<LinearRgb>, c: Seq<LinearRgb>) -> Seq<usize> {
    Seq::new(s.len(), |i: int| nearest(s[i], c) as usize)
}

/// Channel `ch` (0 red, 1 green, 2 blue) of a color.
pub open spec fn channel(c: LinearRgb, ch: int) -> nat {
    if ch == 0 {
        c.r as nat
    } else if ch == 1 {
        c.g as nat
    } else {
        c.b as nat
    }
}

/// Number of the first `n` samples assigned to cluster `j`.
pub open spec fn count_upto(a: Seq<usize>, j: int, n: nat) -> nat
    decreases n,
{
    if n == 0 {
        0
    } else {
        count_upto(a, j, (n - 1) as nat) + if a[n - 1] == j {
            1nat
        } else {
            0nat
        }
    }
}

/// Sum of channel `ch` over the first `n` samples assigned to cluster `j`.
pub open spec fn sum_upto(s: Seq<LinearRgb>, a: Seq<usize>, j: int, ch: int, n: nat) -> nat
    decreases n,
{
    if n == 0 {
        0
    } else {
        sum_upto(s, a, j, ch, (n - 1) as nat) + if a[n - 1] == j {
            channel(s[n - 1], ch)
        } else {
            0nat
        }
    }
}

/// The mean (rounded down per channel) of the samples assigned to cluster `j`,
/// or `prev` when none is.
pub open spec fn cluster_mean(s: Seq<LinearRgb>, a: Seq<usize>, j: int, prev: LinearRgb) -> LinearRgb {
    let n = count_upto(a, j, s.len());
    if n == 0 {
        prev
    } else {
        LinearRgb {
            r: (sum_upto(s, a, j, 0, s.len()) / n) as u16,
            g: (sum_upto(s, a, j, 1, s.len()) / n) as u16,
            b: (sum_upto(s, a, j, 2, s.len()) / n) as u16,
        }
    }
}

/// The centroids recomputed from an assignment.
pub open spec fn update(s: Seq<LinearRgb>, a: Seq<usize>, c: Seq<LinearRgb>) -> Seq<LinearRgb> {
    Seq::new(c.len(), |j: int| cluster_mean(s, a, j, c[j]))
}

/// Total squared movement of the first `m` centroids.
pub open spec fn displacement_upto(c: Seq<LinearRgb>, d: Seq<LinearRgb>, m: nat) -> nat
    decreases m,
{
    if m == 0 {
        0
    } else {
        displacement_upto(c, d, (m - 1) as nat) + dist_sq(c[m - 1], d[m - 1])
    }
}

/// Total squared movement between two sets of centroids.
pub open spec fn displacement(c: Seq<LinearRgb>, d: Seq<LinearRgb>) -> nat {
    displacement_upto(c, d, c.len())
}

/// Iterates assignment and update from centroids `c`, at most `iters` times,
/// stopping early once the centroids move less than `threshold`. The result is
/// the final centroids and the last assignment.
pub open spec fn iterate(s: Seq<LinearRgb>, c: Seq<LinearRgb>, iters: nat, threshold: nat) -> (
    Seq<LinearRgb>,
    Seq<usize>,
)
    decreases iters,
{
    let a = assign(s, c);
    if iters == 0 {
        (c, a)
    } else {
        let next = update(s, a, c);
        if iters == 1 || displacement(c, next) < threshold {
            (next, a)
        } else {
            iterate(s, next, (iters - 1) as nat, threshold)
        }
    }
}

/// The starting centroids: `k` samples picked uniformly by the seeded generator.
pub open spec fn initial_centroids(s: Seq<LinearRgb>, k: nat, seed: u64) -> Seq<LinearRgb> {
    Seq::new(k, |j: int| s[(draw(seed, j as nat) as int) % (s.len() as int)])
}

/// The clustering of `s` into `k` clusters.
pub open spec fn kmeans(s: Seq<LinearRgb>, k: nat, max_iterations: nat, threshold: nat, seed: u64) -> (
    Seq<LinearRgb>,
    Seq<usize>,
) {
    iterate(s, initial_centroids(s, k, seed), max_iterations, threshold)
}

// ---------------------------------------------------------------------------
// Facts

/// The nearest centroid among the first `m` is one of them, no other is nearer,
/// and every one of lower index is farther.
pub proof fn lemma_nearest_bounds(p: LinearRgb, c: Seq<LinearRgb>, m: nat)
    requires
        1 <= m <= c.len(),
    ensures
        nearest_upto(p, c, m) < m,
        forall|j: int|
            0 <= j < m ==> dist_sq(p, c[nearest_upto(p, c, m) as int]) <= #[trigger] dist_sq(p, c[j]),
        forall|j: int|
            0 <= j < nearest_upto(p, c, m) ==> dist_sq(p, c[nearest_upto(p, c, m) as int])
                < #[trigger] dist_sq(p, c[j]),
    decreases m,
{
    if m > 1 {
        lemma_nearest_bounds(p, c, (m - 1) as nat);
    }
}

/// Every sample is assigned to a centroid that is at least as near as any other,
/// and nearer than every centroid of lower index.
pub proof fn lemma_assign_nearest(s: Seq<LinearRgb>, c: Seq<LinearRgb>)
    requires
        1 <= c.len() <= usize::MAX,
    ensures
        assign(s, c).len() == s.len(),
        forall|i: int| 0 <= i < s.len() ==> (#[trigger] assign(s, c)[i]) < c.len(),
        forall|i: int, j: int|
            0 <= i < s.len() && 0 <= j < c.len() ==> dist_sq(s[i], c[assign(s, c)[i] as int])
                <= #[trigger] dist_sq(s[i], c[j]),
        forall|i: int, j: int|
            0 <= i < s.len() && 0 <= j < assign(s, c)[i] ==> dist_sq(s[i], c[assign(s, c)[i] as int])
                < #[trigger] dist_sq(s[i], c[j]),
{
    assert forall|i: int| 0 <= i < s.len() implies (#[trigger] assign(s, c)[i]) < c.len() && (forall|j: int|
        0 <= j < c.len() ==> dist_sq(s[i], c[assign(s, c)[i] as int]) <= #[trigger] dist_sq(s[i], c[j]))
        && (forall|j: int|
        0 <= j < assign(s, c)[i] ==> dist_sq(s[i], c[assign(s, c)[i] as int]) < #[trigger] dist_sq(
            s[i],
            c[j],
        )) by {
        lemma_nearest_bounds(s[i], c, c.len());
        assert(assign(s, c)[i] == nearest(s[i], c));
    }
}

proof fn lemma_iterate_shape(s: Seq<LinearRgb>, c: Seq<LinearRgb>, iters: nat, threshold: nat)
    requires
        1 <= c.len() <= usize::MAX,
    ensures
        iterate(s, c, iters, threshold).0.len() == c.len(),
        iterate(s, c, iters, threshold).1.len() == s.len(),
        forall|i: int|
            0 <= i < s.len() ==> (#[trigger] iterate(s, c, iters, threshold).1[i]) < c.len(),
    decreases iters,
{
    lemma_assign_nearest(s, c);
    if iters > 0 {
        let next = update(s, assign(s, c), c);
        if !(iters == 1 || displacement(c, next) < threshold) {
            lemma_iterate_shape(s, next, (iters - 1) as nat, threshold);
        }
    }
}

/// The assignment that iteration ends with is the nearest-centroid assignment
/// for some set of as many centroids as it started with.
pub proof fn lemma_iterate_assigns(s: Seq<LinearRgb>, c: Seq<LinearRgb>, iters: nat, threshold: nat) -> (d:
    Seq<LinearRgb>)
    ensures
        d.len() == c.len(),
        iterate(s, c, iters, threshold).1 == assign(s, d),
    decreases iters,
{
    if iters == 0 {
        c
    } else {
        let next = update(s, assign(s, c), c);
        if iters == 1 || displacement(c, next) < threshold {
            c
        } else {
            lemma_iterate_assigns(s, next, (iters - 1) as nat, threshold)
        }
    }
}

/// For every non-empty sample sequence and `k >= 1`, the clustering has exactly
/// `k` centroids and one assignment per sample, each naming one of the `k` clusters.
pub proof fn lemma_kmeans_shape(s: Seq<LinearRgb>, k: nat, max_iterations: nat, threshold: nat, seed: u64)
    requires
        s.len() >= 1,
        1 <= k <= usize::MAX,
    ensures
        kmeans(s, k, max_iterations, threshold, seed).0.len() == k,
        kmeans(s, k, max_iterations, threshold, seed).1.len() == s.len(),
        forall|i: int|
            0 <= i < s.len() ==> (#[trigger] kmeans(s, k, max_iterations, threshold, seed).1[i]) < k,
{
    lemma_iterate_shape(s, initial_centroids(s, k, seed), max_iterations, threshold);
}

// ---------------------------------------------------------------------------
// Computation

/// The result of clustering: the centroids, and for each sample the index of
/// its cluster.
#[derive(Clone, Debug, PartialEq, Eq)]
pub struct Clustering {
    pub centroids: Vec<LinearRgb>,
    pub assignments: Vec<usize>,
}

/// Finds the first centroid nearest to `p`.
pub fn nearest_centroid(p: &LinearRgb, c: &Vec<LinearRgb>) -> (r: usize)
    requires
        c@.len() >= 1,
    ensures
        r == nearest(*p, c@),
        r < c@.len(),
{
    let mut best: usize = 0;
    let mut best_d = distance_sq(p, &c[0]);
    let mut m: usize = 1;
    while m < c.len()
        invariant
            1 <= m <= c@.len(),
            best == nearest_upto(*p, c@, m as nat),
            best < m,
            best_d == dist_sq(*p, c@[best as int]),
        decreases c@.len() - m,
    {
        proof {
            lemma_nearest_bounds(*p, c@, m as nat);
        }
        let d = distance_sq(p, &c[m]);
        if d < best_d {
            best = m;
            best_d = d;
        }
        m = m + 1;
    }
    best
}

/// Assigns every sample to its first nearest centroid.
pub fn assign_all(s: &Vec<LinearRgb>, c: &Vec<LinearRgb>) -> (a: Vec<usize>)
    requires
        c@.len() >= 1,
    ensures
        a@ == assign(s@, c@),
{
    let mut a: Vec<usize> = Vec::new();
    let mut i: usize = 0;
    while i < s.len()
        invariant
            c@.len() >= 1,
            i <= s@.len(),
            a@ == assign(s@, c@).take(i as int),
        decreases s@.len() - i,
    {
        let n = nearest_centroid(&s[i], c);
        a.push(n);
        i = i + 1;
        assert(a@ =~= assign(s@, c@).take(i as int));
    }
    assert(a@ =~= assign(s@, c@));
    a
}

proof fn lemma_sum_bound(s: Seq<LinearRgb>, a: Seq<usize>, j: int, ch: int, n: nat)
    requires
        n <= s.len(),
        n <= a.len(),
    ensures
        sum_upto(s, a, j, ch, n) <= count_upto(a, j, n) * 65535,
        count_upto(a, j, n) <= n,
    decreases n,
{
    if n > 0 {
        lemma_sum_bound(s, a, j, ch, (n - 1) as nat);
    }
}

proof fn lemma_mean_fits(sum: nat, count: nat)
    requires
        count > 0,
        sum <= count * 65535,
    ensures
        sum / count <= 65535,
{
    assert(sum / count <= 65535) by (nonlinear_arith)
        requires
            count > 0,
            sum <= count * 65535,
    ;
}

/// Recomputes the centroid of cluster `j`: the mean of its samples, or `prev`
/// when it has none.
pub fn cluster_mean_of(s: &Vec<LinearRgb>, a: &Vec<usize>, j: usize, prev: &LinearRgb) -> (m: LinearRgb)
    requires
        a@.len() == s@.len(),
    ensures
        m == cluster_mean(s@, a@, j as int, *prev),
{
    let mut count: u128 = 0;
    let mut sr: u128 = 0;
    let mut sg: u128 = 0;
    let mut sb: u128 = 0;
    let mut i: usize = 0;
    while i < s.len()
        invariant
            a@.len() == s@.len(),
            i <= s@.len(),
            count == count_upto(a@, j as int, i as nat),
            sr == sum_upto(s@, a@, j as int, 0, i as nat),
            sg == sum_upto(s@, a@, j as int, 1, i as nat),
            sb == sum_upto(s@, a@, j as int, 2, i as nat),
        decreases s@.len() - i,
    {
        proof {
            lemma_sum_bound(s@, a@, j as int, 0, i as nat);
            lemma_sum_bound(s@, a@, j as int, 1, i as nat);
            lemma_sum_bound(s@, a@, j as int, 2, i as nat);
        }
        if a[i] == j {
            let p = s[i];
            count = count + 1;
            sr = sr + p.r as u128;
            sg = sg + p.g as u128;
            sb = sb + p.b as u128;
        }
        i = i + 1;
    }
    if count == 0 {
        *prev
    } else {
        proof {
            lemma_sum_bound(s@, a@, j as int, 0, i as nat);
            lemma_sum_bound(s@, a@, j as int, 1, i as nat);
            lemma_sum_bound(s@, a@, j as int, 2, i as nat);
            lemma_mean_fits(sr as nat, count as nat);
            lemma_mean_fits(sg as nat, count as nat);
            lemma_mean_fits(sb as nat, count as nat);
        }
        LinearRgb { r: (sr / count) as u16, g: (sg / count) as u16, b: (sb / count) as u16 }
    }
}

/// Recomputes every centroid from an assignment.
pub fn update_centroids(s: &Vec<LinearRgb>, a: &Vec<usize>, c: &Vec<LinearRgb>) -> (d: Vec<LinearRgb>)
    requires
        a@.len() == s@.len(),
    ensures
        d@ == update(s@, a@, c@),
{
    let mut d: Vec<LinearRgb> = Vec::new();
    let mut j: usize = 0;
    while j < c.len()
        invariant
            a@.len() == s@.len(),
            j <= c@.len(),
            d@ == update(s@, a@, c@).take(j as int),
        decreases c@.len() - j,
    {
        let m = cluster_mean_of(s, a, j, &c[j]);
        d.push(m);
        j = j + 1;
        assert(d@ =~= update(s@, a@, c@).take(j as int));
    }
    assert(d@ =~= update(s@, a@, c@));
    d
}

proof fn lemma_displacement_bound(c: Seq<LinearRgb>, d: Seq<LinearRgb>, m: nat)
    requires
        m <= c.len(),
        m <= d.len(),
    ensures
        displacement_upto(c, d, m) <= m * (3 * 65535 * 65535),
    decreases m,
{
    if m > 0 {
        lemma_displacement_bound(c, d, (m - 1) as nat);
        let x = c[m - 1];
        let y = d[m - 1];
        assert(dist_sq(x, y) <= 3 * 65535 * 65535) by {
            assert(0 <= (x.r - y.r) * (x.r - y.r) <= 65535 * 65535) by (nonlinear_arith)
                requires -65535 <= x.r - y.r <= 65535;
            assert(0 <= (x.g - y.g) * (x.g - y.g) <= 65535 * 65535) by (nonlinear_arith)
                requires -65535 <= x.g - y.g <= 65535;
            assert(0 <= (x.b - y.b) * (x.b - y.b) <= 65535 * 65535) by (nonlinear_arith)
                requires -65535 <= x.b - y.b <= 65535;
        }
        assert(m * (3 * 65535 * 65535) == (m - 1) * (3 * 65535 * 65535) + 3 * 65535 * 65535)
            by (nonlinear_arith);
    }
}

/// Computes the total squared movement between two sets of centroids.
pub fn total_displacement(c: &Vec<LinearRgb>, d: &Vec<LinearRgb>) -> (t: u128)
    requires
        c@.len() == d@.len(),
    ensures
        t == displacement(c@, d@),
{
    let mut t: u128 = 0;
    let mut m: usize = 0;
    while m < c.len()
        invariant
            c@.len() == d@.len(),
            m <= c@.len(),
            t == displacement_upto(c@, d@, m as nat),
        decreases c@.len() - m,
    {
        proof {
            lemma_displacement_bound(c@, d@, (m + 1) as nat);
            assert((m + 1) * (3 * 65535 * 65535) <= 0x1_0000_0000_0000_0000 * (3 * 65535 * 65535))
                by (nonlinear_arith)
                requires m + 1 <= 0x1_0000_0000_0000_0000int;
        }
        let x = distance_sq(&c[m], &d[m]);
        t = t + x as u128;
        m = m + 1;
    }
    t
}

/// Picks `k` starting centroids uniformly from the samples with a generator
/// seeded with `seed`.
pub fn pick_initial_centroids(s: &Vec<LinearRgb>, k: usize, seed: u64) -> (c: Vec<LinearRgb>)
    requires
        s@.len() >= 1,
    ensures
        c@ == initial_centroids(s@, k as nat, seed),
{
    let mut rng = SeededRng::new(seed);
    let n = s.len();
    let mut c: Vec<LinearRgb> = Vec::new();
    let mut j: usize = 0;
    while j < k
        invariant
            s@.len() >= 1,
            n == s@.len(),
            j <= k,
            rng.state == state_after(seed, j as nat),
            c@ == initial_centroids(s@, k as nat, seed).take(j as int),
        decreases k - j,
    {
        let x = rng.next_u64();
        assert(rng.state == state_after(seed, (j + 1) as nat));
        assert(x == draw(seed, j as nat));
        let idx = ((x as u128) % (n as u128)) as usize;
        c.push(s[idx]);
        assert(c@[j as int] == initial_centroids(s@, k as nat, seed)[j as int]);
        j = j + 1;
        assert(c@ =~= initial_centroids(s@, k as nat, seed).take(j as int));
    }
    assert(c@ =~= initial_centroids(s@, k as nat, seed));
    c
}

/// Partitions the samples into `k` clusters by k-means: starting centroids are
/// picked by the seeded generator, then assignment to the first nearest centroid
/// (skipping the full search for a sample whose previous centroid is provably
/// still the nearest) and recomputation of each centroid as the mean of its samples (a centroid
/// with no sample stays where it is) repeat at most `max_iterations` times,
/// stopping once the total squared displacement of the centroids is below
/// `threshold`. Fails with `InvalidClusterCount` when `k` is zero, and with
/// `EmptySampleSet` when there is no sample.
pub fn quantize(samples: &Vec<LinearRgb>, k: usize, max_iterations: usize, threshold: u128, seed: u64) -> (r:
    Result<Clustering, PaletteError>)
    ensures
        k == 0 <==> r == Err::<Clustering, PaletteError>(PaletteError::InvalidClusterCount),
        (k > 0 && samples@.len() == 0) <==> r == Err::<Clustering, PaletteError>(
            PaletteError::EmptySampleSet,
        ),
        r is Ok ==> {
            let cl = r->Ok_0;
            &&& (cl.centroids@, cl.assignments@) == kmeans(
                samples@,
                k as nat,
                max_iterations as nat,
                threshold as nat,
                seed,
            )
            &&& cl.centroids@.len() == k
            &&& cl.assignments@.len() == samples@.len()
            &&& forall|i: int| 0 <= i < samples@.len() ==> #[trigger] cl.assignments@[i] < k
        },
{
    if k == 0 {
        return Err(PaletteError::InvalidClusterCount);
    }
    if samples.len() == 0 {
        return Err(PaletteError::EmptySampleSet);
    }
    let ghost goal = kmeans(samples@, k as nat, max_iterations as nat, threshold as nat, seed);
    let mut c = pick_initial_centroids(samples, k, seed);
    let mut a = assign_all(samples, &c);
    let mut remaining = max_iterations;
    loop
        invariant
            c@.len() == k,
            k >= 1,
            samples@.len() >= 1,
            a@ == assign(samples@, c@),
            goal == kmeans(samples@, k as nat, max_iterations as nat, threshold as nat, seed),
            iterate(samples@, c@, remaining as nat, threshold as nat) == goal,
        decreases remaining,
    {
        proof {
            lemma_kmeans_shape(samples@, k as nat, max_iterations as nat, threshold as nat, seed);
            lemma_assign_nearest(samples@, c@);
        }
        if remaining == 0 {
            return Ok(Clustering { centroids: c, assignments: a });
        }
        let next = update_centroids(samples, &a, &c);
        let moved = total_displacement(&c, &next);
        if remaining == 1 || moved < threshold {
            return Ok(Clustering { centroids: next, assignments: a });
        }
        let next_a = assign_with_hints(samples, &next, &a);
        c = next;
        a = next_a;
        remaining = remaining - 1;
    }
}

/// Clustering is deterministic: equal samples, cluster count, iteration cap,
/// threshold and seed give identical centroids and assignments.
pub proof fn lemma_kmeans_deterministic(
    s1: Seq<LinearRgb>,
    s2: Seq<LinearRgb>,
    k: nat,
    max_iterations: nat,
    threshold: nat,
    seed: u64,
)
    requires
        s1 == s2,
    ensures
        kmeans(s1, k, max_iterations, threshold, seed) == kmeans(s2, k, max_iterations, threshold, seed),
{
}

} // verus!
