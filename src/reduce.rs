use vstd::prelude::*;

use crate::color::LinearRgb;
use crate::kmeans::count_upto;
use vstd::set_lib::{lemma_int_range, lemma_len_subset, set_int_range};

verus! {

/// One color of the final palette: a cluster's centroid, the cluster's index,
/// and how many samples it holds. Its population share is `count` over the
/// number of samples.
#[derive(Clone, Copy, Debug, PartialEq, Eq, Structural)]
pub struct PaletteEntry {
    pub color: LinearRgb,
    pub cluster: usize,
    pub count: usize,
}

/// Number of samples assigned to cluster `j`.
pub open spec fn cluster_size(a: Seq<usize>, j: int) -> nat {
    count_upto(a, j, a.len())
}

/// Palette order: larger population first, lower cluster index first among equals.
pub open spec fn precedes(x: PaletteEntry, y: PaletteEntry) -> bool {
    x.count > y.count || (x.count == y.count && x.cluster < y.cluster)
}

/// Sum of the first `m` values.
pub open spec fn seq_sum(s: Seq<usize>, m: nat) -> nat
    decreases m,
{
    if m == 0 {
        0
    } else {
        seq_sum(s, (m - 1) as nat) + s[m - 1] as nat
    }
}

/// Sum of the populations of palette entries.
pub open spec fn entry_total(e: Seq<PaletteEntry>) -> nat
    decreases e.len(),
{
    if e.len() == 0 {
        0
    } else {
        entry_total(e.drop_last()) + e.last().count as nat
    }
}

/// What a reduced palette is for centroids `c` and assignment `a`: one entry per
/// non-empty cluster, with its centroid and population, in palette order.
pub open spec fn is_reduction(c: Seq<LinearRgb>, a: Seq<usize>, e: Seq<PaletteEntry>) -> bool {
    &&& forall|p: int|
        0 <= p < e.len() ==> {
            &&& (#[trigger] e[p]).cluster < c.len()
            &&& e[p].color == c[e[p].cluster as int]
            &&& e[p].count == cluster_size(a, e[p].cluster as int)
            &&& e[p].count > 0
        }
    &&& forall|p: int, q: int| 0 <= p < q < e.len() ==> precedes(#[trigger] e[p], #[trigger] e[q])
    &&& forall|j: int|
        0 <= j < c.len() && cluster_size(a, j) > 0 ==> exists|p: int|
            0 <= p < e.len() && (#[trigger] e[p]).cluster == j
}

/// The cluster indices of palette entries.
pub open spec fn clusters_of(e: Seq<PaletteEntry>) -> Seq<int> {
    e.map_values(|x: PaletteEntry| x.cluster as int)
}

/// A reduced palette names each cluster at most once.
pub proof fn lemma_reduction_distinct(c: Seq<LinearRgb>, a: Seq<usize>, e: Seq<PaletteEntry>)
    requires
        is_reduction(c, a, e),
    ensures
        clusters_of(e).no_duplicates(),
        clusters_of(e).to_set().len() == e.len(),
{
    let cs = clusters_of(e);
    assert forall|p: int, q: int| 0 <= p < cs.len() && 0 <= q < cs.len() && p != q implies cs[p] != cs[q] by {
        if p < q {
            assert(precedes(e[p], e[q]));
        } else {
            assert(precedes(e[q], e[p]));
        }
    }
    assert(cs.no_duplicates());
    cs.unique_seq_to_set();
}

/// A cluster with a positive population has a sample assigned to it.
pub proof fn lemma_count_witness(a: Seq<usize>, j: int, n: nat) -> (i: int)
    requires
        n <= a.len(),
        count_upto(a, j, n) > 0,
    ensures
        0 <= i < n,
        a[i] == j,
    decreases n,
{
    if a[n - 1] == j {
        n - 1
    } else {
        lemma_count_witness(a, j, (n - 1) as nat)
    }
}

/// A reduced palette has at most one entry per cluster, so no more entries
/// than there are centroids.
pub proof fn lemma_reduction_len(c: Seq<LinearRgb>, a: Seq<usize>, e: Seq<PaletteEntry>)
    requires
        is_reduction(c, a, e),
    ensures
        e.len() <= c.len(),
{
    let cs = clusters_of(e);
    lemma_reduction_distinct(c, a, e);
    lemma_int_range(0, c.len() as int);
    assert forall|x: int| cs.to_set().contains(x) implies set_int_range(0, c.len() as int).contains(x) by {
        let p = choose|p: int| 0 <= p < cs.len() && cs[p] == x;
        assert(e[p].cluster < c.len());
    }
    lemma_len_subset(cs.to_set(), set_int_range(0, c.len() as int));
}

proof fn lemma_seq_sum_update(s: Seq<usize>, p: int, v: usize, m: nat)
    requires
        m <= s.len(),
        0 <= p < s.len(),
    ensures
        seq_sum(s.update(p, v), m) == if p < m {
            seq_sum(s, m) - s[p] + v
        } else {
            seq_sum(s, m) as int
        },
        p < m ==> seq_sum(s, m) >= s[p],
    decreases m,
{
    if m > 0 {
        lemma_seq_sum_update(s, p, v, (m - 1) as nat);
    }
}

proof fn lemma_seq_sum_zero(s: Seq<usize>, m: nat)
    requires
        m <= s.len(),
        forall|j: int| 0 <= j < m ==> s[j] == 0,
    ensures
        seq_sum(s, m) == 0,
    decreases m,
{
    if m > 0 {
        lemma_seq_sum_zero(s, (m - 1) as nat);
    }
}

/// Counts the samples of each of `k` clusters.
fn cluster_sizes(a: &Vec<usize>, k: usize) -> (counts: Vec<usize>)
    requires
        forall|i: int| 0 <= i < a@.len() ==> #[trigger] a@[i] < k,
    ensures
        counts@.len() == k,
        forall|j: int| 0 <= j < k ==> #[trigger] counts@[j] == cluster_size(a@, j),
        seq_sum(counts@, k as nat) == a@.len(),
{
    let mut counts: Vec<usize> = Vec::new();
    let mut j: usize = 0;
    while j < k
        invariant
            j <= k,
            counts@.len() == j,
            forall|x: int| 0 <= x < j ==> #[trigger] counts@[x] == 0,
        decreases k - j,
    {
        counts.push(0);
        j = j + 1;
    }
    proof {
        lemma_seq_sum_zero(counts@, k as nat);
    }
    let mut i: usize = 0;
    while i < a.len()
        invariant
            forall|x: int| 0 <= x < a@.len() ==> #[trigger] a@[x] < k,
            i <= a@.len(),
            counts@.len() == k,
            forall|x: int| 0 <= x < k ==> #[trigger] counts@[x] == count_upto(a@, x, i as nat),
            seq_sum(counts@, k as nat) == i,
        decreases a@.len() - i,
    {
        let p = a[i];
        proof {
            lemma_seq_sum_update(counts@, p as int, (counts@[p as int] + 1) as usize, k as nat);
        }
        let v = counts[p] + 1;
        counts.set(p, v);
        i = i + 1;
        assert forall|x: int| 0 <= x < k implies #[trigger] counts@[x] == count_upto(a@, x, i as nat) by {
        }
    }
    counts
}

/// The cluster with the largest remaining population, the lowest index among
/// equals; `None` when nothing remains.
fn pick_largest(remaining: &Vec<usize>) -> (r: Option<usize>)
    ensures
        r is None <==> forall|j: int| 0 <= j < remaining@.len() ==> #[trigger] remaining@[j] == 0,
        r matches Some(b) ==> {
            &&& b < remaining@.len()
            &&& remaining@[b as int] > 0
            &&& forall|j: int|
                0 <= j < remaining@.len() && #[trigger] remaining@[j] > 0 ==> remaining@[b as int]
                    > remaining@[j] || (remaining@[b as int] == remaining@[j] && b <= j)
        },
{
    let mut best: Option<usize> = None;
    let mut j: usize = 0;
    while j < remaining.len()
        invariant
            j <= remaining@.len(),
            best is None <==> forall|x: int| 0 <= x < j ==> #[trigger] remaining@[x] == 0,
            best matches Some(b) ==> {
                &&& b < j
                &&& remaining@[b as int] > 0
                &&& forall|x: int|
                    0 <= x < j && #[trigger] remaining@[x] > 0 ==> remaining@[b as int]
                        > remaining@[x] || (remaining@[b as int] == remaining@[x] && b <= x)
            },
        decreases remaining@.len() - j,
    {
        let v = remaining[j];
        if v > 0 {
            match best {
                None => {
                    best = Some(j);
                },
                Some(b) => {
                    if v > remaining[b] {
                        best = Some(j);
                    }
                },
            }
        }
        j = j + 1;
    }
    best
}

/// Turns centroids and the per-sample assignment into the palette: one entry
/// per cluster that holds at least one sample, carrying its centroid and
/// population, ordered by descending population and then by ascending cluster
/// index. Clusters that hold no sample are left out. The populations add up to
/// the number of samples, so the shares add up to one.
pub fn reduce_palette(centroids: &Vec<LinearRgb>, assignments: &Vec<usize>) -> (e: Vec<PaletteEntry>)
    requires
        forall|i: int| 0 <= i < assignments@.len() ==> #[trigger] assignments@[i] < centroids@.len(),
    ensures
        is_reduction(centroids@, assignments@, e@),
        entry_total(e@) == assignments@.len(),
{
    let k = centroids.len();
    let counts = cluster_sizes(assignments, k);
    let mut remaining = counts.clone();
    let mut e: Vec<PaletteEntry> = Vec::new();
    assert(remaining@ == counts@);
    loop
        invariant
            counts@.len() == k,
            k == centroids@.len(),
            forall|j: int| 0 <= j < k ==> #[trigger] counts@[j] == cluster_size(assignments@, j),
            remaining@.len() == k,
            forall|j: int|
                0 <= j < k ==> #[trigger] remaining@[j] == 0 || remaining@[j] == counts@[j],
            forall|p: int|
                0 <= p < e@.len() ==> {
                    &&& (#[trigger] e@[p]).cluster < k
                    &&& e@[p].color == centroids@[e@[p].cluster as int]
                    &&& e@[p].count == counts@[e@[p].cluster as int]
                    &&& e@[p].count > 0
                    &&& remaining@[e@[p].cluster as int] == 0
                },
            forall|p: int, q: int| 0 <= p < q < e@.len() ==> precedes(#[trigger] e@[p], #[trigger] e@[q]),
            forall|p: int, j: int|
                0 <= p < e@.len() && 0 <= j < k && #[trigger] remaining@[j] > 0 ==> precedes(
                    #[trigger] e@[p],
                    (PaletteEntry { color: centroids@[j], cluster: j as usize, count: counts@[j] }),
                ),
            forall|j: int|
                0 <= j < k && counts@[j] > 0 ==> #[trigger] remaining@[j] > 0 || exists|p: int|
                    0 <= p < e@.len() && (#[trigger] e@[p]).cluster == j,
            entry_total(e@) + seq_sum(remaining@, k as nat) == assignments@.len(),
        ensures
            forall|j: int| 0 <= j < k ==> #[trigger] remaining@[j] == 0,
        decreases seq_sum(remaining@, k as nat),
    {
        match pick_largest(&remaining) {
            None => {
                break;
            },
            Some(b) => {
                let entry = PaletteEntry { color: centroids[b], cluster: b, count: counts[b] };
                let ghost old_e = e@;
                let ghost old_rem = remaining@;
                proof {
                    lemma_seq_sum_update(remaining@, b as int, 0, k as nat);
                }
                remaining.set(b, 0);
                e.push(entry);
                assert(e@.drop_last() == old_e);
                assert forall|j: int|
                    0 <= j < k && counts@[j] > 0 implies #[trigger] remaining@[j] > 0 || exists|p: int|
                        0 <= p < e@.len() && (#[trigger] e@[p]).cluster == j by {
                    if j == b {
                        assert(e@[old_e.len() as int].cluster == j);
                    } else if old_rem[j] == 0 {
                        let p = choose|p: int| 0 <= p < old_e.len() && (#[trigger] old_e[p]).cluster == j;
                        assert(e@[p].cluster == j);
                    }
                }
                assert forall|p: int, q: int| 0 <= p < q < e@.len() implies precedes(
                    #[trigger] e@[p],
                    #[trigger] e@[q],
                ) by {
                    if q == old_e.len() {
                        assert(old_rem[b as int] > 0);
                    }
                }
            },
        }
    }
    proof {
        lemma_seq_sum_zero(remaining@, k as nat);
        assert forall|j: int|
            0 <= j < centroids@.len() && cluster_size(assignments@, j) > 0 implies exists|p: int|
                0 <= p < e@.len() && (#[trigger] e@[p]).cluster == j by {
            assert(remaining@[j] == 0);
        }
    }
    e
}

} // verus!
