//! The oracle's state: configuration, registered sources and assets, the
//! latest submission per (asset, source), published aggregates, price
//! history and overrides. Administrative operations live here; submission,
//! aggregation and queries are in the sibling modules.

use vstd::prelude::*;
use std::collections::HashMap;
use vstd::string::StringSliceAdditionalSpecFns;
use crate::history::ledgers_increasing;
use crate::types::{AggregatePrice, CompactionMetadata, ErrorCode, PriceBounds, PriceCommit, PriceEntry, PriceHistoryEntry, PriceOverrideEntry};

verus! {

broadcast use vstd::std_specs::hash::group_hash_axioms;

/// Longest accepted description, in bytes.
pub const MAX_DESCRIPTION_LEN: usize = 256;
/// Default minimum number of contributing sources.
pub const DEFAULT_MIN_SOURCES: u32 = 1;
/// Default number of history entries kept per asset.
pub const DEFAULT_MAX_HISTORY: u32 = 100;
/// Default per-asset history cap applied after the global one.
pub const DEFAULT_MAX_HISTORY_PER_ASSET: u32 = 1000;
/// Default number of events one aggregation may emit.
pub const DEFAULT_MAX_EVENTS_PER_CALL: u32 = 100;
/// Default maximum number of registered assets.
pub const DEFAULT_MAX_ASSETS: u32 = 100;
/// Default tolerated future offset of a submitted timestamp, in seconds.
pub const DEFAULT_TIMESTAMP_THRESHOLD: u64 = 300;
/// Default maximum price deviation, in basis points.
pub const DEFAULT_MAX_PRICE_DEVIATION: u32 = 500;
/// Default heartbeat interval, in seconds.
pub const DEFAULT_HEARTBEAT_INTERVAL: u64 = 3600;
/// Default number of ledgers between manually triggered aggregations.
pub const DEFAULT_AGGREGATION_COOLDOWN: u32 = 10;
/// Default commit window of the commit-reveal scheme, in ledgers.
pub const DEFAULT_COMMIT_WINDOW: u32 = 20;
/// Default reveal window of the commit-reveal scheme, in ledgers.
pub const DEFAULT_REVEAL_WINDOW: u32 = 20;
/// Largest accepted maximum price deviation, in basis points.
pub const MAX_DEVIATION_BPS_LIMIT: u32 = 100_000;

/// Scalar configuration of the oracle.
#[derive(Clone, Copy, Debug, PartialEq, Eq, Structural)]
pub struct OracleConfig {
    pub admin: u64,
    pub min_sources_required: u32,
    pub max_history_length: u32,
    pub decimals: u32,
    pub timestamp_threshold: u64,
    pub max_price_deviation: u32,
    pub heartbeat_interval: u64,
    pub resolution: u32,
    pub paused: bool,
    pub aggregation_method: u32,
    pub bft_fault_tolerance: u32,
    pub bft_method: u32,
    pub max_aggregation_sources: u32,
    pub min_submission_interval: u32,
    pub aggregation_cooldown: u32,
    pub max_history_per_asset: u32,
    pub max_events_per_call: u32,
    pub compaction_threshold_bps: u32,
    pub interpolation_enabled: bool,
    pub max_assets: u32,
    pub commit_window: u32,
    pub reveal_window: u32,
}

/// The whole oracle state.
pub struct PriceOracleContract {
    pub config: OracleConfig,
    pub description: String,
    /// Registered sources in registration order.
    pub sources: Vec<u64>,
    /// Registered assets in registration order.
    pub assets: Vec<u64>,
    /// Latest submission per `pair_key(asset, source)`.
    pub submissions: HashMap<u128, PriceEntry>,
    /// Ledger of the latest batch or revealed submission per `pair_key(asset, source)`.
    pub last_submission: HashMap<u128, u32>,
    /// Pairs flagged for missing the minimum submission interval.
    pub non_compliant: HashMap<u128, bool>,
    pub aggregates: HashMap<u64, AggregatePrice>,
    pub histories: HashMap<u64, Vec<PriceHistoryEntry>>,
    pub overrides: HashMap<u64, PriceOverrideEntry>,
    pub asset_min_interval: HashMap<u64, u32>,
    pub asset_resolution: HashMap<u64, u32>,
    pub price_bounds: HashMap<u64, PriceBounds>,
    /// Assets whose circuit breaker has tripped.
    pub tripped: HashMap<u64, bool>,
    pub paused_assets: HashMap<u64, bool>,
    pub last_trigger: HashMap<u64, u32>,
    pub nonces: HashMap<u64, u64>,
    pub source_submission_counts: HashMap<u64, u32>,
    pub total_submissions: u32,
    pub compaction_meta: HashMap<u64, CompactionMetadata>,
    /// Commitments of the commit-reveal scheme per `pair_key(asset, source)`
    /// and round.
    pub commits: HashMap<u128, HashMap<u32, PriceCommit>>,
}

/// Length in bytes of the UTF-8 encoding of `s`, as `str::len` reports it.
pub open spec fn byte_len(s: Seq<char>) -> usize {
    vstd::utf8::encode_utf8(s).len() as usize
}

/// Key of an (asset, source) pair.
pub open spec fn pair_key_spec(asset: u64, source: u64) -> u128 {
    (asset as int * 0x1_0000_0000_0000_0000 + source as int) as u128
}

pub proof fn lemma_pair_key_injective(a1: u64, s1: u64, a2: u64, s2: u64)
    ensures
        pair_key_spec(a1, s1) == pair_key_spec(a2, s2) ==> a1 == a2 && s1 == s2,
{
    assert(a1 as int * 0x1_0000_0000_0000_0000 + s1 <= u128::MAX) by (nonlinear_arith)
        requires a1 <= u64::MAX, s1 <= u64::MAX;
    assert(a2 as int * 0x1_0000_0000_0000_0000 + s2 <= u128::MAX) by (nonlinear_arith)
        requires a2 <= u64::MAX, s2 <= u64::MAX;
    if pair_key_spec(a1, s1) == pair_key_spec(a2, s2) {
        assert(a1 as int * 0x1_0000_0000_0000_0000 + s1 == a2 as int * 0x1_0000_0000_0000_0000 + s2);
        assert(a1 == a2 && s1 == s2) by (nonlinear_arith)
            requires a1 as int * 0x1_0000_0000_0000_0000 + s1 == a2 as int * 0x1_0000_0000_0000_0000 + s2,
                0 <= s1 <= u64::MAX, 0 <= s2 <= u64::MAX, a1 >= 0, a2 >= 0;
    }
}

/// Key of an (asset, source) pair.
pub fn pair_key(asset: u64, source: u64) -> (r: u128)
    ensures
        r == pair_key_spec(asset, source),
{
    assert(asset as int * 0x1_0000_0000_0000_0000 + source <= u128::MAX) by (nonlinear_arith)
        requires asset <= u64::MAX, source <= u64::MAX;
    (asset as u128) * 0x1_0000_0000_0000_0000u128 + (source as u128)
}

/// The configuration a fresh oracle starts with.
pub open spec fn initial_config(admin: u64, min_sources_required: u32, max_history_length: u32, decimals: u32) -> OracleConfig {
    OracleConfig {
        admin,
        min_sources_required: if min_sources_required == 0 { DEFAULT_MIN_SOURCES } else { min_sources_required },
        max_history_length: if max_history_length == 0 { DEFAULT_MAX_HISTORY } else { max_history_length },
        decimals,
        timestamp_threshold: DEFAULT_TIMESTAMP_THRESHOLD,
        max_price_deviation: DEFAULT_MAX_PRICE_DEVIATION,
        heartbeat_interval: DEFAULT_HEARTBEAT_INTERVAL,
        resolution: 0,
        paused: false,
        aggregation_method: 0,
        bft_fault_tolerance: 0,
        bft_method: 0,
        max_aggregation_sources: 0,
        min_submission_interval: 0,
        aggregation_cooldown: DEFAULT_AGGREGATION_COOLDOWN,
        max_history_per_asset: DEFAULT_MAX_HISTORY_PER_ASSET,
        max_events_per_call: DEFAULT_MAX_EVENTS_PER_CALL,
        compaction_threshold_bps: 0,
        interpolation_enabled: false,
        max_assets: DEFAULT_MAX_ASSETS,
        commit_window: DEFAULT_COMMIT_WINDOW,
        reveal_window: DEFAULT_REVEAL_WINDOW,
    }
}

/// Length of a string in bytes.
pub fn description_len(s: &String) -> (r: usize)
    ensures
        r == byte_len(s@),
{
    let t = s.as_str();
    proof {
        assert(t@ == s@);
        assert(t.spec_bytes() == vstd::utf8::encode_utf8(t@));
    }
    t.len()
}

impl PriceOracleContract {
    /// Well-formedness: no source or asset registered twice, and every
    /// history ordered by strictly increasing ledger.
    pub open spec fn wf(&self) -> bool {
        &&& self.sources@.no_duplicates()
        &&& self.assets@.no_duplicates()
        &&& forall|a: u64| #[trigger] self.histories@.contains_key(a) ==> ledgers_increasing(self.histories@[a]@)
    }

    /// The stored submission of `source` for `asset`.
    pub open spec fn submission(&self, asset: u64, source: u64) -> Option<PriceEntry> {
        if self.submissions@.contains_key(pair_key_spec(asset, source)) {
            Some(self.submissions@[pair_key_spec(asset, source)])
        } else {
            None
        }
    }

    /// The history of `asset` (empty when none was recorded).
    pub open spec fn history(&self, asset: u64) -> Seq<PriceHistoryEntry> {
        if self.histories@.contains_key(asset) {
            self.histories@[asset]@
        } else {
            Seq::empty()
        }
    }

    /// The published aggregate of `asset`.
    pub open spec fn aggregate(&self, asset: u64) -> Option<AggregatePrice> {
        if self.aggregates@.contains_key(asset) {
            Some(self.aggregates@[asset])
        } else {
            None
        }
    }

    pub open spec fn is_source_spec(&self, source: u64) -> bool {
        self.sources@.contains(source)
    }

    pub open spec fn is_asset_spec(&self, asset: u64) -> bool {
        self.assets@.contains(asset)
    }

    /// Everything but the configuration is unchanged.
    pub open spec fn same_data(&self, other: &PriceOracleContract) -> bool {
        &&& self.description@ == other.description@
        &&& self.sources@ == other.sources@
        &&& self.assets@ == other.assets@
        &&& self.submissions@ == other.submissions@
        &&& self.last_submission@ == other.last_submission@
        &&& self.non_compliant@ == other.non_compliant@
        &&& self.aggregates@ == other.aggregates@
        &&& self.histories@ == other.histories@
        &&& self.overrides@ == other.overrides@
        &&& self.asset_min_interval@ == other.asset_min_interval@
        &&& self.asset_resolution@ == other.asset_resolution@
        &&& self.price_bounds@ == other.price_bounds@
        &&& self.tripped@ == other.tripped@
        &&& self.paused_assets@ == other.paused_assets@
        &&& self.last_trigger@ == other.last_trigger@
        &&& self.nonces@ == other.nonces@
        &&& self.source_submission_counts@ == other.source_submission_counts@
        &&& self.total_submissions == other.total_submissions
        &&& self.compaction_meta@ == other.compaction_meta@
        &&& self.commits@ == other.commits@
    }

    /// Creates an oracle administered by `admin`. A zero minimum source count
    /// becomes 1 and a zero history length becomes 100; the description may
    /// hold at most 256 bytes.
    pub fn initialize(admin: u64, min_sources_required: u32, max_history_length: u32, decimals: u32, description: String) -> (r: Result<PriceOracleContract, ErrorCode>)
        ensures
            byte_len(description@) > MAX_DESCRIPTION_LEN <==> r is Err,
            r matches Err(e) ==> e == ErrorCode::DescriptionTooLong,
            r matches Ok(s) ==> {
                &&& s.wf()
                &&& s.config == initial_config(admin, min_sources_required, max_history_length, decimals)
                &&& s.description@ == description@
                &&& s.sources@.len() == 0
                &&& s.assets@.len() == 0
                &&& s.submissions@.len() == 0
                &&& s.aggregates@.len() == 0
                &&& s.histories@.len() == 0
                &&& s.overrides@.len() == 0
                &&& s.total_submissions == 0
            },
    {
        let len = description_len(&description);
        if len > MAX_DESCRIPTION_LEN {
            return Err(ErrorCode::DescriptionTooLong);
        }
        let config = OracleConfig {
            admin,
            min_sources_required: if min_sources_required == 0 { DEFAULT_MIN_SOURCES } else { min_sources_required },
            max_history_length: if max_history_length == 0 { DEFAULT_MAX_HISTORY } else { max_history_length },
            decimals,
            timestamp_threshold: DEFAULT_TIMESTAMP_THRESHOLD,
            max_price_deviation: DEFAULT_MAX_PRICE_DEVIATION,
            heartbeat_interval: DEFAULT_HEARTBEAT_INTERVAL,
            resolution: 0,
            paused: false,
            aggregation_method: 0,
            bft_fault_tolerance: 0,
            bft_method: 0,
            max_aggregation_sources: 0,
            min_submission_interval: 0,
            aggregation_cooldown: DEFAULT_AGGREGATION_COOLDOWN,
            max_history_per_asset: DEFAULT_MAX_HISTORY_PER_ASSET,
            max_events_per_call: DEFAULT_MAX_EVENTS_PER_CALL,
            compaction_threshold_bps: 0,
            interpolation_enabled: false,
            max_assets: DEFAULT_MAX_ASSETS,
            commit_window: DEFAULT_COMMIT_WINDOW,
            reveal_window: DEFAULT_REVEAL_WINDOW,
        };
        Ok(PriceOracleContract {
            config,
            description,
            sources: Vec::new(),
            assets: Vec::new(),
            submissions: HashMap::new(),
            last_submission: HashMap::new(),
            non_compliant: HashMap::new(),
            aggregates: HashMap::new(),
            histories: HashMap::new(),
            overrides: HashMap::new(),
            asset_min_interval: HashMap::new(),
            asset_resolution: HashMap::new(),
            price_bounds: HashMap::new(),
            tripped: HashMap::new(),
            paused_assets: HashMap::new(),
            last_trigger: HashMap::new(),
            nonces: HashMap::new(),
            source_submission_counts: HashMap::new(),
            total_submissions: 0,
            compaction_meta: HashMap::new(),
            commits: HashMap::new(),
        })
    }
}

} // verus!
