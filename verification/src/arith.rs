//! Integer helpers shared by the aggregation code: saturating `i128`
//! arithmetic, truncating division, and a verified in-place sort.

use vstd::prelude::*;
use vstd::relations::{sorted_by, total_ordering};

verus! {

broadcast use vstd::seq_lib::group_to_multiset_ensures, vstd::multiset::group_multiset_properties,
    vstd::multiset::group_multiset_axioms;

/// `x` clamped into the range of `i128`.
pub open spec fn clamp_i128(x: int) -> int {
    if x > i128::MAX {
        i128::MAX as int
    } else if x < i128::MIN {
        i128::MIN as int
    } else {
        x
    }
}

/// Division rounding toward zero, as Rust's `/` does on signed integers.
pub open spec fn div_trunc(a: int, b: int) -> int
    recommends b > 0,
{
    if a >= 0 {
        a / b
    } else {
        -((-a) / b)
    }
}

/// Saturating `i128` addition.
pub fn sat_add(a: i128, b: i128) -> (r: i128)
    ensures
        r == clamp_i128(a + b),
{
    match a.checked_add(b) {
        Some(x) => x,
        None => {
            if b > 0 {
                i128::MAX
            } else {
                i128::MIN
            }
        },
    }
}

/// Saturating `i128` subtraction.
pub fn sat_sub(a: i128, b: i128) -> (r: i128)
    ensures
        r == clamp_i128(a - b),
{
    match a.checked_sub(b) {
        Some(x) => x,
        None => {
            if b < 0 {
                i128::MAX
            } else {
                i128::MIN
            }
        },
    }
}

/// Saturating `i128` multiplication.
pub fn sat_mul(a: i128, b: i128) -> (r: i128)
    ensures
        r == clamp_i128(a * b),
{
    match a.checked_mul(b) {
        Some(x) => x,
        None => {
            proof {
                if (a > 0 && b > 0) || (a < 0 && b < 0) {
                    assert(a * b > 0) by (nonlinear_arith)
                        requires (a > 0 && b > 0) || (a < 0 && b < 0);
                } else {
                    assert(a * b <= 0) by (nonlinear_arith)
                        requires !((a > 0 && b > 0) || (a < 0 && b < 0));
                }
            }
            if (a > 0 && b > 0) || (a < 0 && b < 0) {
                i128::MAX
            } else {
                i128::MIN
            }
        },
    }
}

/// The order prices are sorted by.
pub open spec fn le_i128() -> spec_fn(i128, i128) -> bool {
    |x: i128, y: i128| x <= y
}

/// `s` in ascending order.
pub open spec fn sorted_asc(s: Seq<i128>) -> bool {
    forall|i: int, j: int| 0 <= i < j < s.len() ==> s[i] <= s[j]
}

/// The ascending rearrangement of `s`.
pub open spec fn sorted_seq(s: Seq<i128>) -> Seq<i128> {
    s.sort_by(le_i128())
}

proof fn lemma_le_total()
    ensures
        total_ordering(le_i128()),
{
}

/// A sorted rearrangement of `s` is `sorted_seq(s)`.
pub proof fn lemma_sorted_is_sorted_seq(t: Seq<i128>, s: Seq<i128>)
    requires
        sorted_asc(t),
        t.to_multiset() == s.to_multiset(),
    ensures
        t == sorted_seq(s),
{
    lemma_le_total();
    s.lemma_sort_by_ensures(le_i128());
    assert(sorted_by(t, le_i128()));
    vstd::seq_lib::lemma_sorted_unique(t, sorted_seq(s), le_i128());
}

/// Facts about `sorted_seq`: same length, same elements, ascending.
pub proof fn lemma_sorted_seq_facts(s: Seq<i128>)
    ensures
        sorted_seq(s).len() == s.len(),
        sorted_seq(s).to_multiset() == s.to_multiset(),
        sorted_asc(sorted_seq(s)),
{
    lemma_le_total();
    s.lemma_sort_by_ensures(le_i128());
    assert(sorted_seq(s).to_multiset().len() == s.to_multiset().len());
    let t = sorted_seq(s);
    assert forall|i: int, j: int| 0 <= i < j < t.len() implies t[i] <= t[j] by {
        assert(le_i128()(t[i], t[j]));
    }
}

/// Sorts prices in ascending order (insertion sort).
pub fn sort_prices(v: &mut Vec<i128>)
    ensures
        final(v)@ == sorted_seq(old(v)@),
        final(v)@.len() == old(v)@.len(),
{
    let n = v.len();
    let ghost orig = v@;
    let mut i: usize = 1;
    if n == 0 {
        proof { lemma_sorted_is_sorted_seq(v@, orig); }
        return;
    }
    while i < n
        invariant
            n == v.len(),
            1 <= i <= n,
            v@.to_multiset() == orig.to_multiset(),
            sorted_asc(v@.subrange(0, i as int)),
        decreases n - i,
    {
        let mut j: usize = i;
        proof {
            assert forall|a: int, b: int| 0 <= a < b <= i && a != j && b != j implies v@[a] <= v@[b] by {
                assert(v@.subrange(0, i as int)[a] == v@[a]);
                assert(v@.subrange(0, i as int)[b] == v@[b]);
            }
        }
        while j > 0 && v[j - 1] > v[j]
            invariant
                n == v.len(),
                0 <= j <= i < n,
                v@.to_multiset() == orig.to_multiset(),
                forall|a: int, b: int|
                    0 <= a < b <= i && a != j && b != j ==> v@[a] <= v@[b],
                forall|b: int| j < b <= i ==> v@[j as int] <= v@[b],
            decreases j,
        {
            let ghost s0 = v@;
            let t = v[j - 1];
            let u = v[j];
            v.set(j - 1, u);
            v.set(j, t);
            proof {
                let s1 = s0.update(j - 1, u);
                assert(s1.to_multiset() == s0.to_multiset().insert(u).remove(t));
                assert(v@.to_multiset() == s1.to_multiset().insert(t).remove(s1[j as int]));
                assert(s1[j as int] == u);
                assert(v@.to_multiset() =~= s0.to_multiset());
            }
            j = j - 1;
        }
        proof {
            assert forall|a: int, b: int| 0 <= a < b < i + 1 implies
                #[trigger] v@.subrange(0, i + 1)[a] <= #[trigger] v@.subrange(0, i + 1)[b] by {
                if a == j as int {
                } else if b == j as int {
                    assert(v@[a] <= v@[j - 1]);
                } else {
                }
            }
        }
        i = i + 1;
    }
    proof {
        assert(v@.subrange(0, n as int) =~= v@);
        lemma_sorted_is_sorted_seq(v@, orig);
    }
}

} // verus!
