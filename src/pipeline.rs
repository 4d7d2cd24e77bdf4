use vstd::prelude::*;

use crate::color::LinearRgb;
use crate::error::PaletteError;
use crate::kmeans::{
    initial_centroids, kmeans, lemma_assign_nearest, lemma_iterate_assigns, lemma_nearest_bounds,
    nearest, quantize,
};
use vstd::seq_lib::seq_to_set_is_finite;
use vstd::set_lib::{lemma_len_subset, lemma_map_size_bound};
use crate::reduce::{clusters_of, entry_total, is_reduction, lemma_count_witness, lemma_reduction_distinct,
    lemma_reduction_len, reduce_palette, PaletteEntry};

verus! {

/// Clusters the samples and reduces the clustering to a palette: the non-empty
/// clusters of `kmeans` in palette order. Fails as `quantize` does.
pub fn extract_palette(
    samples: &Vec<LinearRgb>,
    k: usize,
    max_iterations: usize,
    threshold: u128,
    seed: u64,
) -> (r: Result<Vec<PaletteEntry>, PaletteError>)
    ensures
        k == 0 <==> r == Err::<Vec<PaletteEntry>, PaletteError>(PaletteError::InvalidClusterCount),
        (k > 0 && samples@.len() == 0) <==> r == Err::<Vec<PaletteEntry>, PaletteError>(
            PaletteError::EmptySampleSet,
        ),
        r is Ok ==> {
            let cl = kmeans(samples@, k as nat, max_iterations as nat, threshold as nat, seed);
            &&& is_reduction(cl.0, cl.1, r->Ok_0@)
            &&& entry_total(r->Ok_0@) == samples@.len()
            &&& r->Ok_0@.len() <= k
            &&& r->Ok_0@.len() <= samples@.to_set().len()
        },
{
    match quantize(samples, k, max_iterations, threshold, seed) {
        Err(e) => Err(e),
        Ok(cl) => {
            let entries = reduce_palette(&cl.centroids, &cl.assignments);
            proof {
                lemma_reduction_len(cl.centroids@, cl.assignments@, entries@);
                lemma_palette_at_most_distinct(
                    samples@,
                    k as nat,
                    max_iterations as nat,
                    threshold as nat,
                    seed,
                    entries@,
                );
            }
            Ok(entries)
        },
    }
}

/// A palette has no more colors than the samples have distinct colors: samples
/// of one color always share a cluster, so clusters beyond the number of
/// distinct colors stay empty and are dropped.
pub proof fn lemma_palette_at_most_distinct(
    s: Seq<LinearRgb>,
    k: nat,
    max_iterations: nat,
    threshold: nat,
    seed: u64,
    e: Seq<PaletteEntry>,
)
    requires
        s.len() >= 1,
        1 <= k <= usize::MAX,
        is_reduction(
            kmeans(s, k, max_iterations, threshold, seed).0,
            kmeans(s, k, max_iterations, threshold, seed).1,
            e,
        ),
    ensures
        e.len() <= s.to_set().len(),
{
    let cl = kmeans(s, k, max_iterations, threshold, seed);
    let a = cl.1;
    let d = lemma_iterate_assigns(s, initial_centroids(s, k, seed), max_iterations, threshold);
    lemma_assign_nearest(s, d);
    let f = |p: LinearRgb| nearest(p, d) as int;
    let used = s.to_set().map(f);
    seq_to_set_is_finite(s);
    lemma_map_size_bound(s.to_set(), used, f);
    lemma_reduction_distinct(cl.0, a, e);
    let cs = clusters_of(e);
    assert forall|x: int| cs.to_set().contains(x) implies used.contains(x) by {
        let p = choose|p: int| 0 <= p < cs.len() && cs[p] == x;
        assert(e[p].count > 0);
        let i = lemma_count_witness(a, x, a.len());
        lemma_nearest_bounds(s[i], d, d.len());
        assert(a[i] == nearest(s[i], d) as usize);
        assert(s.to_set().contains(s[i]));
        assert(f(s[i]) == x);
    }
    lemma_len_subset(cs.to_set(), used);
}

} // verus!
