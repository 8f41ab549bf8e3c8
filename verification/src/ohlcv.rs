//! Open/high/low/close bars over an asset's price history, bucketed into
//! fixed-width time windows aligned to multiples of the bucket width.

use vstd::prelude::*;
use std::collections::HashMap;
use crate::oracle::{lemma_pair_key_injective, pair_key, pair_key_spec, PriceOracleContract};
use crate::types::{ErrorCode, LedgerInfo, PriceHistoryEntry};

verus! {

broadcast use vstd::std_specs::hash::group_hash_axioms;

/// Most bars a single request returns.
pub const MAX_OHLCV_BARS: usize = 500;

/// One open/high/low/close bar.
#[derive(Clone, Copy, Debug, PartialEq, Eq, Structural)]
pub struct OhlcvBar {
    pub bucket_start: u64,
    pub open: i128,
    pub high: i128,
    pub low: i128,
    pub close: i128,
    pub sample_count: u32,
}

/// Start of the bucket of width `bucket_seconds` containing `timestamp`.
pub open spec fn bucket_start_spec(timestamp: u64, bucket_seconds: u64) -> u64 {
    ((timestamp / bucket_seconds) * bucket_seconds) as u64
}

/// Start of the bucket of width `bucket_seconds` containing `timestamp`.
pub fn bucket_start_for(timestamp: u64, bucket_seconds: u64) -> (r: u64)
    requires
        bucket_seconds > 0,
    ensures
        r == bucket_start_spec(timestamp, bucket_seconds),
        r <= timestamp,
        timestamp < r + bucket_seconds,
        r % bucket_seconds == 0,
{
    proof {
        vstd::arithmetic::div_mod::lemma_fundamental_div_mod(timestamp as int, bucket_seconds as int);
        assert((timestamp / bucket_seconds) * bucket_seconds <= timestamp) by (nonlinear_arith)
            requires bucket_seconds > 0;
        assert(timestamp as int == (timestamp / bucket_seconds) * bucket_seconds + timestamp % bucket_seconds) by (nonlinear_arith)
            requires bucket_seconds > 0;
        assert(timestamp % bucket_seconds < bucket_seconds) by (nonlinear_arith)
            requires bucket_seconds > 0;
        vstd::arithmetic::div_mod::lemma_mod_multiples_basic((timestamp / bucket_seconds) as int, bucket_seconds as int);
    }
    (timestamp / bucket_seconds) * bucket_seconds
}

/// Bars gathered so far, the bar still open, and whether the scan stopped.
pub struct OhlcvScan {
    pub bars: Seq<OhlcvBar>,
    pub current: Option<OhlcvBar>,
    pub stopped: bool,
}

/// A fresh bar holding the single price `price`.
pub open spec fn new_bar(bucket_start: u64, price: i128) -> OhlcvBar {
    OhlcvBar { bucket_start, open: price, high: price, low: price, close: price, sample_count: 1 }
}

/// `bar` extended by the later price `price`.
pub open spec fn extend_bar(bar: OhlcvBar, price: i128) -> OhlcvBar {
    OhlcvBar {
        high: if price > bar.high { price } else { bar.high },
        low: if price < bar.low { price } else { bar.low },
        close: price,
        sample_count: if bar.sample_count == u32::MAX { bar.sample_count } else { (bar.sample_count + 1) as u32 },
        ..bar
    }
}

/// One history entry added to the scan: entries outside `[from, to]` are
/// skipped; an entry in the open bar's bucket extends it, any other closes
/// it and opens a new one. The scan stops at the first entry that would
/// open a bar beyond `MAX_OHLCV_BARS` in all.
pub open spec fn ohlcv_step(st: OhlcvScan, e: PriceHistoryEntry, bucket_seconds: u64, from: u64, to: u64) -> OhlcvScan {
    if st.stopped {
        st
    } else if e.timestamp < from || e.timestamp > to {
        st
    } else {
        let b = bucket_start_spec(e.timestamp, bucket_seconds);
        match st.current {
            Some(bar) => if bar.bucket_start == b {
                OhlcvScan { current: Some(extend_bar(bar, e.price)), ..st }
            } else if st.bars.len() + 1 >= MAX_OHLCV_BARS {
                OhlcvScan { stopped: true, ..st }
            } else {
                OhlcvScan { bars: st.bars.push(bar), current: Some(new_bar(b, e.price)), stopped: false }
            },
            None => OhlcvScan { current: Some(new_bar(b, e.price)), ..st },
        }
    }
}

/// The scan after the entries of `h` in order.
pub open spec fn ohlcv_scan(h: Seq<PriceHistoryEntry>, bucket_seconds: u64, from: u64, to: u64) -> OhlcvScan
    decreases h.len(),
{
    if h.len() == 0 {
        OhlcvScan { bars: Seq::empty(), current: None, stopped: false }
    } else {
        ohlcv_step(ohlcv_scan(h.drop_last(), bucket_seconds, from, to), h.last(), bucket_seconds, from, to)
    }
}

/// The bars of `h` in `[from, to]`: the closed ones, then the open one.
pub open spec fn ohlcv_spec(h: Seq<PriceHistoryEntry>, bucket_seconds: u64, from: u64, to: u64) -> Seq<OhlcvBar> {
    let st = ohlcv_scan(h, bucket_seconds, from, to);
    match st.current {
        Some(bar) => st.bars.push(bar),
        None => st.bars,
    }
}

/// A well-formed bar: open and close lie between low and high, it holds at
/// least one sample, and it starts on a multiple of the bucket width.
pub open spec fn bar_consistent(b: OhlcvBar, bucket_seconds: u64) -> bool {
    &&& b.low <= b.open <= b.high
    &&& b.low <= b.close <= b.high
    &&& b.sample_count >= 1
    &&& b.bucket_start % bucket_seconds == 0
}

proof fn lemma_bucket_start_aligned(timestamp: u64, bucket_seconds: u64)
    requires
        bucket_seconds > 0,
    ensures
        bucket_start_spec(timestamp, bucket_seconds) % bucket_seconds == 0,
{
    let q = timestamp / bucket_seconds;
    assert(q * bucket_seconds <= timestamp) by (nonlinear_arith)
        requires q == timestamp / bucket_seconds, bucket_seconds > 0;
    vstd::arithmetic::div_mod::lemma_mod_multiples_basic(q as int, bucket_seconds as int);
}

proof fn lemma_scan_consistent(h: Seq<PriceHistoryEntry>, bucket_seconds: u64, from: u64, to: u64)
    requires
        bucket_seconds > 0,
    ensures ({
        let st = ohlcv_scan(h, bucket_seconds, from, to);
        &&& forall|j: int| 0 <= j < st.bars.len() ==> bar_consistent(#[trigger] st.bars[j], bucket_seconds)
        &&& st.current matches Some(b) ==> bar_consistent(b, bucket_seconds)
    }),
    decreases h.len(),
{
    if h.len() > 0 {
        lemma_scan_consistent(h.drop_last(), bucket_seconds, from, to);
        lemma_bucket_start_aligned(h.last().timestamp, bucket_seconds);
        let st0 = ohlcv_scan(h.drop_last(), bucket_seconds, from, to);
        let st = ohlcv_scan(h, bucket_seconds, from, to);
        assert forall|j: int| 0 <= j < st.bars.len() implies bar_consistent(#[trigger] st.bars[j], bucket_seconds) by {
            if j < st0.bars.len() {
                assert(st.bars[j] == st0.bars[j]);
            }
        }
    }
}

/// Every bar returned for a history is well formed (`bar_consistent`).
pub proof fn lemma_ohlcv_bars_consistent(h: Seq<PriceHistoryEntry>, bucket_seconds: u64, from: u64, to: u64)
    requires
        bucket_seconds > 0,
    ensures
        forall|j: int| 0 <= j < ohlcv_spec(h, bucket_seconds, from, to).len()
            ==> bar_consistent(#[trigger] ohlcv_spec(h, bucket_seconds, from, to)[j], bucket_seconds),
{
    lemma_scan_consistent(h, bucket_seconds, from, to);
    let st = ohlcv_scan(h, bucket_seconds, from, to);
    let r = ohlcv_spec(h, bucket_seconds, from, to);
    assert forall|j: int| 0 <= j < r.len() implies bar_consistent(#[trigger] r[j], bucket_seconds) by {
        if j < st.bars.len() {
            assert(r[j] == st.bars[j]);
        }
    }
}

/// The bars of a history (see `ohlcv_spec`).
pub fn ohlcv_bars(h: &Vec<PriceHistoryEntry>, bucket_seconds: u64, from: u64, to: u64) -> (r: Vec<OhlcvBar>)
    requires
        bucket_seconds > 0,
    ensures
        r@ == ohlcv_spec(h@, bucket_seconds, from, to),
        r@.len() <= MAX_OHLCV_BARS,
{
    let n = h.len();
    let mut bars: Vec<OhlcvBar> = Vec::new();
    let mut current: Option<OhlcvBar> = None;
    let mut stopped = false;
    let mut i: usize = 0;
    while i < n
        invariant
            n == h.len(),
            0 <= i <= n,
            bucket_seconds > 0,
            ohlcv_scan(h@.subrange(0, i as int), bucket_seconds, from, to)
                == (OhlcvScan { bars: bars@, current, stopped }),
            bars@.len() < MAX_OHLCV_BARS,
        decreases n - i,
    {
        proof {
            assert(h@.subrange(0, i + 1).drop_last() =~= h@.subrange(0, i as int));
            assert(h@.subrange(0, i + 1).last() == h@[i as int]);
        }
        let e = h[i];
        if !stopped && !(e.timestamp < from || e.timestamp > to) {
            let b = bucket_start_for(e.timestamp, bucket_seconds);
            match current {
                Some(bar) => {
                    if bar.bucket_start == b {
                        current = Some(OhlcvBar {
                            high: if e.price > bar.high { e.price } else { bar.high },
                            low: if e.price < bar.low { e.price } else { bar.low },
                            close: e.price,
                            sample_count: if bar.sample_count == u32::MAX { bar.sample_count } else { bar.sample_count + 1 },
                            ..bar
                        });
                    } else if bars.len() + 1 >= MAX_OHLCV_BARS {
                        stopped = true;
                    } else {
                        bars.push(bar);
                        current = Some(OhlcvBar { bucket_start: b, open: e.price, high: e.price, low: e.price, close: e.price, sample_count: 1 });
                    }
                },
                None => {
                    current = Some(OhlcvBar { bucket_start: b, open: e.price, high: e.price, low: e.price, close: e.price, sample_count: 1 });
                },
            }
        }
        i = i + 1;
    }
    proof {
        assert(h@.subrange(0, n as int) =~= h@);
    }
    match current {
        Some(bar) => {
            bars.push(bar);
        },
        None => {},
    }
    bars
}

/// The last bar of `bars` starting at `start` whose bucket closed before
/// the bucket starting at `current`.
pub open spec fn last_closed(bars: Seq<OhlcvBar>, start: u64, current: u64) -> Option<OhlcvBar>
    decreases bars.len(),
{
    if bars.len() == 0 {
        None
    } else if bars.last().bucket_start == start && start < current {
        Some(bars.last())
    } else {
        last_closed(bars.drop_last(), start, current)
    }
}

/// Closed bars remembered per asset and bucket width, by bucket start.
pub struct OhlcvCache {
    /// Bars by `pair_key(asset, bucket_seconds)`, then by bucket start.
    pub bars: HashMap<u128, HashMap<u64, OhlcvBar>>,
}

impl OhlcvCache {
    /// The cached bar of `asset` for width `bucket_seconds` starting at `start`.
    pub open spec fn cached_of(&self, asset: u64, bucket_seconds: u64, start: u64) -> Option<OhlcvBar> {
        let k = pair_key_spec(asset, bucket_seconds);
        if self.bars@.contains_key(k) && self.bars@[k]@.contains_key(start) {
            Some(self.bars@[k]@[start])
        } else {
            None
        }
    }

    /// `after` caches what `self` does, and in addition, for `asset` and
    /// `bucket_seconds`, every bar of `bars` whose bucket closed before
    /// `current` (the last one when several share a start).
    pub open spec fn caches_closed(&self, after: &OhlcvCache, asset: u64, bucket_seconds: u64, bars: Seq<OhlcvBar>, current: u64) -> bool {
        forall|a: u64, w: u64, b: u64| #[trigger] after.cached_of(a, w, b)
            == if a == asset && w == bucket_seconds && last_closed(bars, b, current) is Some {
                last_closed(bars, b, current)
            } else {
                self.cached_of(a, w, b)
            }
    }

    /// An empty cache.
    pub fn new() -> (r: OhlcvCache)
        ensures
            forall|a: u64, w: u64, b: u64| #[trigger] r.cached_of(a, w, b) is None,
    {
        OhlcvCache { bars: HashMap::new() }
    }

    /// A closed bar computed earlier for `asset`, width `bucket_seconds` and
    /// bucket start `bucket_start`.
    pub fn get_cached_ohlcv_bar(&self, asset: u64, bucket_seconds: u64, bucket_start: u64) -> (r: Option<OhlcvBar>)
        ensures
            r == self.cached_of(asset, bucket_seconds, bucket_start),
    {
        let k = pair_key(asset, bucket_seconds);
        match self.bars.get(&k) {
            Some(inner) => match inner.get(&bucket_start) {
                Some(b) => Some(*b),
                None => None,
            },
            None => None,
        }
    }

    /// Remembers `bar` for `asset` and `bucket_seconds` at its bucket start.
    fn put(&mut self, asset: u64, bucket_seconds: u64, bar: OhlcvBar)
        ensures
            forall|a: u64, w: u64, b: u64| #[trigger] final(self).cached_of(a, w, b)
                == if a == asset && w == bucket_seconds && b == bar.bucket_start { Some(bar) } else { old(self).cached_of(a, w, b) },
    {
        let k = pair_key(asset, bucket_seconds);
        let mut inner: HashMap<u64, OhlcvBar> = match self.bars.get(&k) {
            Some(m) => m.clone(),
            None => HashMap::new(),
        };
        inner.insert(bar.bucket_start, bar);
        self.bars.insert(k, inner);
        proof {
            assert forall|a: u64, w: u64, b: u64| #[trigger] self.cached_of(a, w, b)
                == if a == asset && w == bucket_seconds && b == bar.bucket_start { Some(bar) } else { old(self).cached_of(a, w, b) } by {
                lemma_pair_key_injective(a, w, asset, bucket_seconds);
            }
        }
    }

    /// Remembers every bar of `bars` whose bucket closed before `current`.
    fn write_closed(&mut self, asset: u64, bucket_seconds: u64, bars: &Vec<OhlcvBar>, current: u64)
        ensures
            old(self).caches_closed(final(self), asset, bucket_seconds, bars@, current),
    {
        let mut i: usize = 0;
        while i < bars.len()
            invariant
                0 <= i <= bars.len(),
                forall|a: u64, w: u64, b: u64| #[trigger] self.cached_of(a, w, b)
                    == if a == asset && w == bucket_seconds && last_closed(bars@.subrange(0, i as int), b, current) is Some {
                        last_closed(bars@.subrange(0, i as int), b, current)
                    } else {
                        old(self).cached_of(a, w, b)
                    },
            decreases bars.len() - i,
        {
            let bar = bars[i];
            if bar.bucket_start < current {
                self.put(asset, bucket_seconds, bar);
            }
            proof {
                let s1 = bars@.subrange(0, i + 1);
                assert(s1.drop_last() =~= bars@.subrange(0, i as int));
                assert(s1.last() == bar);
            }
            i = i + 1;
        }
        assert(bars@.subrange(0, bars.len() as int) =~= bars@);
    }
}

impl PriceOracleContract {
    /// Bars of a registered `asset` between timestamps `from` and `to`
    /// (inclusive), in buckets of `bucket_seconds`; `InvalidOhlcvRange` for
    /// a zero bucket width or a reversed range. Every returned bar whose
    /// bucket closed before the bucket of the ledger time is remembered in
    /// `cache`.
    pub fn get_ohlcv(&self, cache: &mut OhlcvCache, asset: u64, bucket_seconds: u64, from: u64, to: u64, now: LedgerInfo) -> (r: Result<Vec<OhlcvBar>, ErrorCode>)
        ensures
            !self.is_asset_spec(asset) ==> r == Err::<Vec<OhlcvBar>, ErrorCode>(ErrorCode::AssetNotRegistered),
            self.is_asset_spec(asset) && (bucket_seconds == 0 || to < from)
                ==> r == Err::<Vec<OhlcvBar>, ErrorCode>(ErrorCode::InvalidOhlcvRange),
            r is Err ==> final(cache).bars@ == old(cache).bars@,
            self.is_asset_spec(asset) && !(bucket_seconds == 0 || to < from)
                ==> (r matches Ok(v) && v@ == ohlcv_spec(self.history(asset), bucket_seconds, from, to)
                    && v@.len() <= MAX_OHLCV_BARS
                    && old(cache).caches_closed(final(cache), asset, bucket_seconds, v@, bucket_start_spec(now.timestamp, bucket_seconds))),
    {
        if !self.is_asset_registered(asset) {
            return Err(ErrorCode::AssetNotRegistered);
        }
        if bucket_seconds == 0 || to < from {
            return Err(ErrorCode::InvalidOhlcvRange);
        }
        let current = bucket_start_for(now.timestamp, bucket_seconds);
        let empty: Vec<PriceHistoryEntry> = Vec::new();
        let h: &Vec<PriceHistoryEntry> = match self.histories.get(&asset) {
            Some(h) => h,
            None => &empty,
        };
        assert(h@ == self.history(asset));
        let bars = ohlcv_bars(h, bucket_seconds, from, to);
        cache.write_closed(asset, bucket_seconds, &bars, current);
        Ok(bars)
    }
}

} // verus!
