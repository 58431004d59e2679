//! Stop positions: ordering, segment lookup and even spacing.

use vstd::prelude::*;

use crate::fx::{div_tr, lemma_tdiv_exact, lemma_tdiv_monotone, tdiv, FXMAX};
use vstd::arithmetic::div_mod::lemma_div_of0;
use vstd::arithmetic::mul::lemma_mul_inequality;

verus! {

/// A position inside the representable fixed-point range.
pub open spec fn pos_ok(v: int) -> bool {
    -FXMAX <= v <= FXMAX
}

/// Adjacent pairs never decrease.
pub open spec fn nondecreasing(s: Seq<i64>) -> bool {
    forall|i: int| 0 <= i < s.len() - 1 ==> #[trigger] s[i] <= s[i + 1]
}

/// All entries lie in the representable range.
pub open spec fn all_pos_ok(s: Seq<i64>) -> bool {
    forall|i: int| 0 <= i < s.len() ==> pos_ok(#[trigger] s[i] as int)
}

/// In a nondecreasing sequence any earlier entry bounds any later one.
pub proof fn lemma_nondecreasing_pair(s: Seq<i64>, i: int, j: int)
    requires
        nondecreasing(s),
        0 <= i <= j < s.len(),
    ensures
        s[i] <= s[j],
    decreases j - i,
{
    if i < j {
        lemma_nondecreasing_pair(s, i, j - 1);
    }
}

/// The first segment `[s[i], s[i + 1]]` at or after index `i` that
/// contains `t`, or `-1` when none does.
pub open spec fn find_seg(s: Seq<i64>, t: int, i: int) -> int
    decreases s.len() - i,
{
    if i < 0 || i >= s.len() - 1 {
        -1
    } else if s[i] <= t && t <= s[i + 1] {
        i
    } else {
        find_seg(s, t, i + 1)
    }
}

/// Skipping over non-matching segments does not change the search result.
pub proof fn lemma_find_seg_skip(s: Seq<i64>, t: int, i: int)
    requires
        0 <= i <= s.len() - 1,
        forall|j: int| 0 <= j < i ==> !((#[trigger] s[j]) <= t && t <= s[j + 1]),
    ensures
        find_seg(s, t, 0) == find_seg(s, t, i),
    decreases i,
{
    if i > 0 {
        lemma_find_seg_skip(s, t, i - 1);
    }
}

/// `n` evenly spaced values from `min` to `max` inclusive, truncating.
pub open spec fn lin_at(min: int, max: int, n: int, i: int) -> int {
    min + tdiv((max - min) * i, n - 1)
}

/// Evenly spaced positions over `[min, max]`.
pub fn linspace(min: i64, max: i64, n: usize) -> (v: Vec<i64>)
    requires
        pos_ok(min as int),
        pos_ok(max as int),
        min <= max,
    ensures
        v@.len() == n,
        n == 1 ==> v@[0] == min,
        n >= 2 ==> forall|i: int|
            0 <= i < n ==> (#[trigger] v@[i]) as int == lin_at(min as int, max as int, n as int, i),
        n >= 1 ==> v@[0] == min,
        n >= 2 ==> v@[n - 1] == max,
        nondecreasing(v@),
        forall|i: int| 0 <= i < n ==> min <= (#[trigger] v@[i]) <= max,
{
    let mut v: Vec<i64> = Vec::new();
    if n == 0 {
        return v;
    }
    if n == 1 {
        v.push(min);
        return v;
    }
    let mut i: usize = 0;
    let d = (max as i128) - (min as i128);
    let den = (n as i128) - 1;
    while i < n
        invariant
            n >= 2,
            i <= n,
            v@.len() == i,
            d == (max as int) - (min as int),
            den == (n as int) - 1,
            pos_ok(min as int),
            pos_ok(max as int),
            min <= max,
            forall|k: int|
                0 <= k < i ==> (#[trigger] v@[k]) as int == lin_at(
                    min as int,
                    max as int,
                    n as int,
                    k,
                ),
            forall|k: int| 0 <= k < i ==> min <= (#[trigger] v@[k]) <= max,
        decreases n - i,
    {
        proof {
            lemma_mul_inequality(i as int, (n as int) - 1, d as int);
            lemma_tdiv_exact(d as int, den as int);
            lemma_tdiv_monotone((d as int) * (i as int), (d as int) * (den as int), den as int);
            lemma_div_of0(den as int);
            lemma_tdiv_monotone(0, (d as int) * (i as int), den as int);
            assert((d as int) * (i as int) >= 0) by (nonlinear_arith)
                requires
                    d >= 0,
                    i >= 0,
            ;
            assert((d as int) * (i as int) <= 0x1000_0000_0000_0000_0000_0000_0000_0000int)
                by (nonlinear_arith)
                requires
                    0 <= d <= 20_000_000_000_000,
                    0 <= (i as int) <= 0x1_0000_0000_0000_0000int,
            ;
            assert((d as int) * (den as int) == (den as int) * (d as int)) by (nonlinear_arith);
        }
        let q = div_tr(d * (i as i128), den);
        v.push(((min as i128) + q) as i64);
        i = i + 1;
    }
    proof {
        lemma_tdiv_exact(d as int, den as int);
        assert((d as int) * (den as int) == (den as int) * (d as int)) by (nonlinear_arith);
        assert(v@[n as int - 1] == max);
        assert(nondecreasing(v@)) by {
            assert forall|k: int| 0 <= k < v@.len() - 1 implies #[trigger] v@[k] <= v@[k + 1] by {
                lemma_mul_inequality(k, k + 1, d as int);
                assert((d as int) * k == k * (d as int)) by (nonlinear_arith);
                assert((d as int) * (k + 1) == (k + 1) * (d as int)) by (nonlinear_arith);
                lemma_tdiv_monotone((d as int) * k, (d as int) * (k + 1), den as int);
            }
        }
    }
    v
}

} // verus!
