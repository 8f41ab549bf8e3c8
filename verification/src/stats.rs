//! Aggregation statistics over a set of submitted prices: median, mean,
//! trimmed mean, volume-weighted average, and the outlier-resistant
//! aggregation used when Byzantine fault tolerance is configured.

use vstd::prelude::*;
use crate::arith::{
    clamp_i128, div_trunc, lemma_sorted_is_sorted_seq, lemma_sorted_seq_facts, sat_add, sat_mul, sat_sub,
    sort_prices, sorted_asc, sorted_seq,
};

verus! {

broadcast use vstd::seq_lib::group_to_multiset_ensures, vstd::multiset::group_multiset_properties,
    vstd::multiset::group_multiset_axioms;

/// Mean of two integers rounded toward zero.
pub open spec fn mid2(a: int, b: int) -> int {
    div_trunc(a + b, 2)
}

/// The median of a non-empty sorted sequence: the middle element, or the mean
/// (rounded toward zero) of the two middle elements.
pub open spec fn median_of_sorted(t: Seq<i128>) -> int {
    let n = t.len();
    if n == 0 {
        0
    } else if n % 2 == 1 {
        t[(n / 2) as int] as int
    } else {
        mid2(t[(n / 2 - 1) as int] as int, t[(n / 2) as int] as int)
    }
}

/// The median of `s` (0 for an empty sequence).
pub open spec fn median_spec(s: Seq<i128>) -> int {
    median_of_sorted(sorted_seq(s))
}

/// Left-to-right saturating sum.
pub open spec fn sat_sum(s: Seq<i128>) -> int
    decreases s.len(),
{
    if s.len() == 0 {
        0
    } else {
        clamp_i128(sat_sum(s.drop_last()) + s.last())
    }
}

/// Exact sum.
pub open spec fn exact_sum(s: Seq<i128>) -> int
    decreases s.len(),
{
    if s.len() == 0 {
        0
    } else {
        exact_sum(s.drop_last()) + s.last()
    }
}

/// Sum of absolute values.
pub open spec fn abs_sum(s: Seq<i128>) -> int
    decreases s.len(),
{
    if s.len() == 0 {
        0
    } else {
        abs_sum(s.drop_last()) + if s.last() < 0 { -s.last() } else { s.last() as int }
    }
}

/// When the absolute values sum within `i128`, no partial sum saturates.
pub proof fn lemma_sat_sum_exact(s: Seq<i128>)
    requires
        abs_sum(s) <= i128::MAX,
    ensures
        sat_sum(s) == exact_sum(s),
        -abs_sum(s) <= exact_sum(s) <= abs_sum(s),
        abs_sum(s) >= 0,
    decreases s.len(),
{
    if s.len() > 0 {
        lemma_sat_sum_exact(s.drop_last());
    }
}

/// Removing one element takes it out of both sums.
proof fn lemma_sums_remove(t: Seq<i128>, j: int)
    requires
        0 <= j < t.len(),
    ensures
        exact_sum(t) == exact_sum(t.remove(j)) + t[j],
        abs_sum(t) == abs_sum(t.remove(j)) + if t[j] < 0 { -t[j] } else { t[j] as int },
    decreases t.len(),
{
    if j == t.len() - 1 {
        assert(t.remove(j) =~= t.drop_last());
    } else {
        lemma_sums_remove(t.drop_last(), j);
        assert(t.remove(j).drop_last() =~= t.drop_last().remove(j));
        assert(t.remove(j).last() == t.last());
    }
}

/// Both sums depend only on the multiset of values.
pub proof fn lemma_sums_permutation(s: Seq<i128>, t: Seq<i128>)
    requires
        s.to_multiset() == t.to_multiset(),
    ensures
        exact_sum(s) == exact_sum(t),
        abs_sum(s) == abs_sum(t),
    decreases s.len(),
{
    if s.len() == 0 {
        s.to_multiset_ensures();
        t.to_multiset_ensures();
        assert(t.len() == 0);
    } else {
        s.to_multiset_ensures();
        t.to_multiset_ensures();
        let x = s.last();
        let d = s.drop_last();
        d.to_multiset_ensures();
        assert(s =~= d.push(x));
        assert(s.to_multiset() =~= d.to_multiset().insert(x));
        assert(t.to_multiset().count(x) > 0);
        assert(t.contains(x));
        let j = choose|j: int| 0 <= j < t.len() && t[j] == x;
        assert(t.remove(j).to_multiset() =~= t.to_multiset().remove(x));
        assert(d.to_multiset().insert(x).remove(x) =~= d.to_multiset());
        lemma_sums_permutation(d, t.remove(j));
        lemma_sums_remove(t, j);
    }
}

/// Arithmetic mean, summing with saturation and rounding toward zero
/// (0 for an empty sequence).
pub open spec fn mean_spec(s: Seq<i128>) -> int {
    if s.len() == 0 {
        0
    } else {
        div_trunc(sat_sum(s), s.len() as int)
    }
}

/// Mean after discarding `pct` percent of the values from each end of the
/// sorted sequence; when nothing would remain, the median.
pub open spec fn trimmed_mean_spec(s: Seq<i128>, pct: int) -> int {
    let n = s.len() as int;
    let k = n * pct / 100;
    if n == 0 {
        0
    } else if 2 * k >= n {
        median_spec(s)
    } else {
        mean_spec(sorted_seq(s).subrange(k, n - k))
    }
}

/// Saturating sum of `p[i] * v[i]` over the first `n` positions.
pub open spec fn sat_weighted_sum(p: Seq<i128>, v: Seq<i128>, n: int) -> int
    decreases n,
{
    if n <= 0 {
        0
    } else {
        clamp_i128(sat_weighted_sum(p, v, n - 1) + clamp_i128(p[n - 1] * v[n - 1]))
    }
}

/// Volume-weighted average price; when the total volume is not positive,
/// the plain mean.
pub open spec fn vwap_spec(p: Seq<i128>, v: Seq<i128>) -> int
    recommends p.len() == v.len(),
{
    let total = sat_sum(v);
    if total <= 0 {
        mean_spec(p)
    } else {
        div_trunc(sat_weighted_sum(p, v, p.len() as int), total)
    }
}

/// Median of the prices.
pub fn compute_median(prices: &Vec<i128>) -> (r: i128)
    ensures
        r == median_spec(prices@),
{
    let mut sorted = prices.clone();
    sort_prices(&mut sorted);
    proof {
        assert(sorted@ == sorted_seq(prices@));
        lemma_sorted_seq_facts(prices@);
    }
    median_of_sorted_vec(&sorted)
}

/// Median of a vector that is already in ascending order.
pub fn median_of_sorted_vec(sorted: &Vec<i128>) -> (r: i128)
    requires
        sorted_asc(sorted@),
    ensures
        r == median_of_sorted(sorted@),
{
    let n = sorted.len();
    if n == 0 {
        return 0;
    }
    if n % 2 == 1 {
        sorted[n / 2]
    } else {
        let a = sorted[n / 2 - 1];
        let b = sorted[n / 2];
        assert(a <= b);
        if a >= 0 {
            a + (b - a) / 2
        } else if b < 0 {
            b - (b - a) / 2
        } else {
            (a + b) / 2
        }
    }
}

/// Arithmetic mean of the prices (saturating sum, rounded toward zero).
pub fn compute_mean(prices: &Vec<i128>) -> (r: i128)
    ensures
        r == mean_spec(prices@),
{
    let n = prices.len();
    if n == 0 {
        return 0;
    }
    let mut sum: i128 = 0;
    let mut i: usize = 0;
    while i < n
        invariant
            n == prices.len(),
            0 <= i <= n,
            sum == sat_sum(prices@.subrange(0, i as int)),
        decreases n - i,
    {
        proof {
            let t = prices@.subrange(0, i + 1);
            assert(t.drop_last() =~= prices@.subrange(0, i as int));
        }
        sum = sat_add(sum, prices[i]);
        i = i + 1;
    }
    proof {
        assert(prices@.subrange(0, n as int) =~= prices@);
    }
    sum / (n as i128)
}

/// Mean of the values left after dropping `pct` percent from each end of
/// the sorted prices (the median when nothing would be left).
pub fn compute_trimmed_mean(prices: &Vec<i128>, pct: u32) -> (r: i128)
    requires
        pct <= 100,
    ensures
        r == trimmed_mean_spec(prices@, pct as int),
{
    let n = prices.len();
    if n == 0 {
        return 0;
    }
    let mut sorted = prices.clone();
    sort_prices(&mut sorted);
    proof {
        lemma_sorted_seq_facts(prices@);
    }
    assert(n as int * pct as int <= n as int * 100) by (nonlinear_arith)
        requires pct <= 100;
    let k: usize = ((n as u128 * pct as u128) / 100) as usize;
    if 2 * (k as u128) >= n as u128 {
        return median_of_sorted_vec(&sorted);
    }
    let mut kept: Vec<i128> = Vec::new();
    let mut i: usize = k;
    while i < n - k
        invariant
            n == sorted.len(),
            2 * k < n,
            k <= i <= n - k,
            kept@ == sorted@.subrange(k as int, i as int),
        decreases n - k - i,
    {
        kept.push(sorted[i]);
        i = i + 1;
    }
    compute_mean(&kept)
}

/// Volume-weighted average price; falls back to the plain mean when the
/// total volume is not positive.
pub fn compute_vwap(prices: &Vec<i128>, volumes: &Vec<i128>) -> (r: i128)
    requires
        prices.len() == volumes.len(),
    ensures
        r == vwap_spec(prices@, volumes@),
{
    let n = prices.len();
    let mut numer: i128 = 0;
    let mut total: i128 = 0;
    let mut i: usize = 0;
    while i < n
        invariant
            n == prices.len(),
            n == volumes.len(),
            0 <= i <= n,
            numer == sat_weighted_sum(prices@, volumes@, i as int),
            total == sat_sum(volumes@.subrange(0, i as int)),
        decreases n - i,
    {
        proof {
            let t = volumes@.subrange(0, i + 1);
            assert(t.drop_last() =~= volumes@.subrange(0, i as int));
        }
        let w = sat_mul(prices[i], volumes[i]);
        numer = sat_add(numer, w);
        total = sat_add(total, volumes[i]);
        i = i + 1;
    }
    proof {
        assert(volumes@.subrange(0, n as int) =~= volumes@);
    }
    if total <= 0 {
        compute_mean(prices)
    } else {
        numer / total
    }
}


/// Aggregation selected by method number: 0 median, 1 mean, 2 mean trimmed
/// by 10% at each end, 3 volume-weighted; any other number means median.
pub open spec fn method_spec(p: Seq<i128>, v: Seq<i128>, method: u32) -> int {
    if method == 1 {
        mean_spec(p)
    } else if method == 2 {
        trimmed_mean_spec(p, 10)
    } else if method == 3 {
        vwap_spec(p, v)
    } else {
        median_spec(p)
    }
}

/// Applies the aggregation method numbered `method` (see `method_spec`).
pub fn aggregate_with_method(prices: &Vec<i128>, volumes: &Vec<i128>, method: u32) -> (r: i128)
    requires
        prices.len() == volumes.len(),
    ensures
        r == method_spec(prices@, volumes@, method),
{
    if method == 1 {
        compute_mean(prices)
    } else if method == 2 {
        compute_trimmed_mean(prices, 10)
    } else if method == 3 {
        compute_vwap(prices, volumes)
    } else {
        compute_median(prices)
    }
}

/// Lower and upper fences of the interquartile filter over a sorted
/// sequence of at least four prices: `q1 - 1.5 IQR` and `q3 + 1.5 IQR`,
/// each step saturating.
pub open spec fn iqr_fences(t: Seq<i128>) -> (int, int) {
    let n = t.len() as int;
    let q1 = t[n / 4] as int;
    let q3 = t[n * 3 / 4 - 1] as int;
    let iqr = clamp_i128(q3 - q1);
    let margin = div_trunc(clamp_i128(iqr * 3), 2);
    (clamp_i128(q1 - margin), clamp_i128(q3 + margin))
}

/// The sorted prices that pass the interquartile filter (all of them when
/// fewer than four prices are given or none pass).
pub open spec fn iqr_filtered(t: Seq<i128>) -> Seq<i128> {
    if t.len() < 4 {
        t
    } else {
        let (lo, hi) = iqr_fences(t);
        let kept = t.filter(|x: i128| lo <= x && x <= hi);
        if kept.len() == 0 {
            t
        } else {
            kept
        }
    }
}

/// The consensus set: the filtered prices with `min(fault_tolerance, len / 2)`
/// values removed from each end, provided something remains.
pub open spec fn bft_consensus(t: Seq<i128>, fault_tolerance: int) -> Seq<i128> {
    let c = iqr_filtered(t);
    let len = c.len() as int;
    let trim = if fault_tolerance < len / 2 {
        fault_tolerance
    } else {
        len / 2
    };
    if trim > 0 && len > 2 * trim {
        c.subrange(trim, len - trim)
    } else {
        c
    }
}

/// Byzantine-fault-tolerant aggregate: 0 for no prices, the price itself for
/// one, otherwise the method (0 median, 1 mean, 2 trimmed mean, other median)
/// applied to the consensus set of the sorted prices.
pub open spec fn bft_spec(p: Seq<i128>, fault_tolerance: int, method: u32) -> int {
    if p.len() == 0 {
        0
    } else if p.len() == 1 {
        p[0] as int
    } else {
        let c = bft_consensus(sorted_seq(p), fault_tolerance);
        if method == 1 {
            mean_spec(c)
        } else if method == 2 {
            trimmed_mean_spec(c, 10)
        } else {
            median_spec(c)
        }
    }
}

/// Aggregates with outlier rejection and fault-tolerant trimming.
pub fn aggregate_bft_prices(prices: &Vec<i128>, fault_tolerance: u32, method: u32) -> (r: i128)
    ensures
        r == bft_spec(prices@, fault_tolerance as int, method),
{
    let n = prices.len();
    if n == 0 {
        return 0;
    }
    if n == 1 {
        return prices[0];
    }
    let mut sorted = prices.clone();
    sort_prices(&mut sorted);
    proof {
        lemma_sorted_seq_facts(prices@);
    }
    let ghost t = sorted@;
    let mut consensus: Vec<i128> = Vec::new();
    if n >= 4 {
        let q1_index = n / 4;
        let q3_index = ((n as u128 * 3) / 4 - 1) as usize;
        let q1 = sorted[q1_index];
        let q3 = sorted[q3_index];
        let iqr = sat_sub(q3, q1);
        let margin = sat_mul(iqr, 3) / 2;
        let lower = sat_sub(q1, margin);
        let upper = sat_add(q3, margin);
        let ghost pred = |x: i128| lower <= x && x <= upper;
        assert(iqr_fences(t) == (lower as int, upper as int));
        let mut i: usize = 0;
        while i < n
            invariant
                n == sorted.len(),
                t == sorted@,
                0 <= i <= n,
                pred == (|x: i128| lower <= x && x <= upper),
                consensus@ == t.subrange(0, i as int).filter(pred),
            decreases n - i,
        {
            proof {
                reveal_with_fuel(Seq::<_>::filter, 1);
                assert(t.subrange(0, i + 1).drop_last() =~= t.subrange(0, i as int));
            }
            let value = sorted[i];
            if value >= lower && value <= upper {
                consensus.push(value);
            }
            i = i + 1;
        }
        proof {
            assert(t.subrange(0, n as int) =~= t);
        }
        if consensus.len() == 0 {
            consensus = sorted;
        }
    } else {
        consensus = sorted;
    }
    assert(consensus@ == iqr_filtered(t));
    let clen = consensus.len();
    let trim: usize = if (fault_tolerance as u128) < (clen / 2) as u128 {
        fault_tolerance as usize
    } else {
        clen / 2
    };
    if trim > 0 && clen > 2 * trim {
        let mut trimmed: Vec<i128> = Vec::new();
        let mut i: usize = trim;
        while i < clen - trim
            invariant
                clen == consensus.len(),
                trim <= i <= clen - trim,
                trimmed@ == consensus@.subrange(trim as int, i as int),
            decreases clen - trim - i,
        {
            trimmed.push(consensus[i]);
            i = i + 1;
        }
        consensus = trimmed;
    }
    assert(consensus@ == bft_consensus(t, fault_tolerance as int));
    if method == 1 {
        compute_mean(&consensus)
    } else if method == 2 {
        compute_trimmed_mean(&consensus, 10)
    } else {
        compute_median(&consensus)
    }
}

/// Aggregation as configured: with a positive fault tolerance the
/// fault-tolerant aggregate using `bft_method`, otherwise `method`.
pub open spec fn aggregate_spec(p: Seq<i128>, v: Seq<i128>, method: u32, fault_tolerance: u32, bft_method: u32) -> int {
    if fault_tolerance > 0 {
        bft_spec(p, fault_tolerance as int, bft_method)
    } else {
        method_spec(p, v, method)
    }
}

/// Aggregates the prices as configured (see `aggregate_spec`).
pub fn aggregate_prices(prices: &Vec<i128>, volumes: &Vec<i128>, method: u32, fault_tolerance: u32, bft_method: u32) -> (r: i128)
    requires
        prices.len() == volumes.len(),
    ensures
        r == aggregate_spec(prices@, volumes@, method, fault_tolerance, bft_method),
{
    if fault_tolerance > 0 {
        aggregate_bft_prices(prices, fault_tolerance, bft_method)
    } else {
        aggregate_with_method(prices, volumes, method)
    }
}

} // verus!
