use vstd::prelude::*;

use crate::color::{dist_sq, distance_sq, LinearRgb};
use crate::kmeans::{assign, assign_all, lemma_nearest_bounds, nearest, nearest_centroid};

verus! {

/// For vectors `u` and `w`: when `u` is shorter than half of `w`, `u - w` is
/// longer than `u`. This follows from `|2u - w|^2 >= 0`.
proof fn lemma_half_distance(u0: int, u1: int, u2: int, w0: int, w1: int, w2: int)
    requires
        4 * (u0 * u0 + u1 * u1 + u2 * u2) < w0 * w0 + w1 * w1 + w2 * w2,
    ensures
        (u0 - w0) * (u0 - w0) + (u1 - w1) * (u1 - w1) + (u2 - w2) * (u2 - w2) > u0 * u0 + u1 * u1
            + u2 * u2,
{
    let a = u0 * u0 + u1 * u1 + u2 * u2;
    let b = w0 * w0 + w1 * w1 + w2 * w2;
    let d = u0 * w0 + u1 * w1 + u2 * w2;
    assert((2 * u0 - w0) * (2 * u0 - w0) + (2 * u1 - w1) * (2 * u1 - w1) + (2 * u2 - w2) * (2 * u2
        - w2) == 4 * a - 4 * d + b) by (nonlinear_arith)
        requires
            a == u0 * u0 + u1 * u1 + u2 * u2,
            b == w0 * w0 + w1 * w1 + w2 * w2,
            d == u0 * w0 + u1 * w1 + u2 * w2,
    ;
    assert((2 * u0 - w0) * (2 * u0 - w0) + (2 * u1 - w1) * (2 * u1 - w1) + (2 * u2 - w2) * (2 * u2
        - w2) >= 0) by (nonlinear_arith);
    assert((u0 - w0) * (u0 - w0) + (u1 - w1) * (u1 - w1) + (u2 - w2) * (u2 - w2) == a - 2 * d + b)
        by (nonlinear_arith)
        requires
            a == u0 * u0 + u1 * u1 + u2 * u2,
            b == w0 * w0 + w1 * w1 + w2 * w2,
            d == u0 * w0 + u1 * w1 + u2 * w2,
    ;
}

proof fn lemma_dist_sq_value(a: LinearRgb, b: LinearRgb)
    ensures
        dist_sq(a, b) == (a.r - b.r) * (a.r - b.r) + (a.g - b.g) * (a.g - b.g) + (a.b - b.b) * (a.b
            - b.b),
{
    let (x, y, z) = (a.r - b.r, a.g - b.g, a.b - b.b);
    assert(x * x + y * y + z * z >= 0) by (nonlinear_arith);
}

/// If `p` is closer to centroid `a` than half the distance from `a` to centroid
/// `j`, then `p` is strictly closer to `a` than to `j`.
pub proof fn lemma_closer_than_half(p: LinearRgb, a: LinearRgb, j: LinearRgb)
    requires
        4 * dist_sq(p, a) < dist_sq(a, j),
    ensures
        dist_sq(p, a) < dist_sq(p, j),
{
    lemma_dist_sq_value(a, j);
    lemma_dist_sq_value(p, a);
    lemma_dist_sq_value(p, j);
    let (u0, u1, u2) = (p.r - a.r, p.g - a.g, p.b - a.b);
    let (w0, w1, w2) = (j.r - a.r, j.g - a.g, j.b - a.b);
    assert(dist_sq(a, j) == w0 * w0 + w1 * w1 + w2 * w2) by (nonlinear_arith)
        requires
            dist_sq(a, j) == (a.r - j.r) * (a.r - j.r) + (a.g - j.g) * (a.g - j.g) + (a.b - j.b) * (
            a.b - j.b),
            w0 == j.r - a.r,
            w1 == j.g - a.g,
            w2 == j.b - a.b,
    ;
    assert(dist_sq(p, a) == u0 * u0 + u1 * u1 + u2 * u2);
    assert(dist_sq(p, j) == (u0 - w0) * (u0 - w0) + (u1 - w1) * (u1 - w1) + (u2 - w2) * (u2 - w2));
    lemma_half_distance(u0, u1, u2, w0, w1, w2);
}

/// `sep[j]` bounds from below the squared distance from centroid `j` to every
/// other centroid.
pub open spec fn separates(c: Seq<LinearRgb>, sep: Seq<u64>) -> bool {
    &&& sep.len() == c.len()
    &&& forall|j: int, i: int|
        0 <= j < c.len() && 0 <= i < c.len() && i != j ==> #[trigger] sep[j] <= dist_sq(
            c[j],
            #[trigger] c[i],
        )
}

/// For each centroid, the squared distance to the nearest other centroid
/// (`u64::MAX` when there is none).
pub fn separations(c: &Vec<LinearRgb>) -> (sep: Vec<u64>)
    ensures
        separates(c@, sep@),
        forall|j: int|
            0 <= j < c@.len() ==> (#[trigger] sep@[j] == u64::MAX && c@.len() == 1) || exists|i: int|
                0 <= i < c@.len() && i != j && sep@[j] == dist_sq(c@[j], #[trigger] c@[i]),
{
    let mut sep: Vec<u64> = Vec::new();
    let mut j: usize = 0;
    while j < c.len()
        invariant
            j <= c@.len(),
            sep@.len() == j,
            forall|x: int, i: int|
                0 <= x < j && 0 <= i < c@.len() && i != x ==> #[trigger] sep@[x] <= dist_sq(
                    c@[x],
                    #[trigger] c@[i],
                ),
            forall|x: int|
                0 <= x < j ==> (#[trigger] sep@[x] == u64::MAX && c@.len() == 1) || exists|i: int|
                    0 <= i < c@.len() && i != x && sep@[x] == dist_sq(c@[x], #[trigger] c@[i]),
        decreases c@.len() - j,
    {
        let mut best: u64 = u64::MAX;
        let mut i: usize = 0;
        while i < c.len()
            invariant
                j < c@.len(),
                i <= c@.len(),
                forall|y: int| 0 <= y < i && y != j ==> best <= dist_sq(c@[j as int], #[trigger] c@[y]),
                (best == u64::MAX && (i == 0 || (i == 1 && j == 0))) || exists|y: int|
                    0 <= y < i && y != j && best == dist_sq(c@[j as int], #[trigger] c@[y]),
            decreases c@.len() - i,
        {
            if i != j {
                let d = distance_sq(&c[j], &c[i]);
                if d < best {
                    best = d;
                }
            }
            i = i + 1;
        }
        sep.push(best);
        j = j + 1;
    }
    sep
}

/// The nearest centroid of `p`, skipping the full search when the hinted
/// centroid is closer than half its separation from every other centroid.
pub fn nearest_with_hint(p: &LinearRgb, c: &Vec<LinearRgb>, sep: &Vec<u64>, hint: usize) -> (r: usize)
    requires
        c@.len() >= 1,
        separates(c@, sep@),
    ensures
        r == nearest(*p, c@),
{
    if hint < c.len() {
        let d = distance_sq(p, &c[hint]);
        if 4 * d < sep[hint] {
            proof {
                assert forall|j: int| 0 <= j < c@.len() && j != hint implies dist_sq(*p, c@[hint as int])
                    < #[trigger] dist_sq(*p, c@[j]) by {
                    assert(sep@[hint as int] <= dist_sq(c@[hint as int], c@[j]));
                    lemma_closer_than_half(*p, c@[hint as int], c@[j]);
                }
                lemma_nearest_bounds(*p, c@, c@.len());
                let n = nearest(*p, c@) as int;
                assert(dist_sq(*p, c@[n]) <= dist_sq(*p, c@[hint as int]));
            }
            return hint;
        }
    }
    nearest_centroid(p, c)
}

/// Assigns every sample to its first nearest centroid, using the previous
/// assignment as a hint: the result is exactly that of the full search.
pub fn assign_with_hints(s: &Vec<LinearRgb>, c: &Vec<LinearRgb>, hints: &Vec<usize>) -> (a: Vec<usize>)
    requires
        c@.len() >= 1,
    ensures
        a@ == assign(s@, c@),
{
    if hints.len() != s.len() {
        return assign_all(s, c);
    }
    let sep = separations(c);
    let mut a: Vec<usize> = Vec::new();
    let mut i: usize = 0;
    while i < s.len()
        invariant
            c@.len() >= 1,
            separates(c@, sep@),
            hints@.len() == s@.len(),
            i <= s@.len(),
            a@ == assign(s@, c@).take(i as int),
        decreases s@.len() - i,
    {
        let n = nearest_with_hint(&s[i], c, &sep, hints[i]);
        a.push(n);
        i = i + 1;
        assert(a@ =~= assign(s@, c@).take(i as int));
    }
    assert(a@ =~= assign(s@, c@));
    a
}

} // verus!
