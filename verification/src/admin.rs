//! Administrative operations: configuration setters, pausing, and the
//! registries of sources and assets. Every operation here is refused with
//! `NotAuthorized` unless `caller` is the administrator, and a refused
//! operation leaves the state unchanged.

use vstd::prelude::*;
use crate::oracle::{description_len, byte_len, OracleConfig, PriceOracleContract, MAX_DESCRIPTION_LEN, MAX_DEVIATION_BPS_LIMIT};
use crate::types::{ErrorCode, PriceBounds};

verus! {

broadcast use vstd::std_specs::hash::group_hash_axioms;

/// `v` without any occurrence of `x`, in order.
pub open spec fn without(v: Seq<u64>, x: u64) -> Seq<u64>
    decreases v.len(),
{
    if v.len() == 0 {
        Seq::empty()
    } else {
        let rest = without(v.drop_last(), x);
        if v.last() != x { rest.push(v.last()) } else { rest }
    }
}

/// Removes every occurrence of `x` from `v`.
pub fn remove_all(v: &Vec<u64>, x: u64) -> (r: Vec<u64>)
    ensures
        r@ == without(v@, x),
        forall|y: u64| r@.contains(y) <==> (v@.contains(y) && y != x),
        v@.no_duplicates() ==> r@.no_duplicates(),
{
    let n = v.len();
    let mut out: Vec<u64> = Vec::new();
    let mut i: usize = 0;
    while i < n
        invariant
            n == v.len(),
            0 <= i <= n,
            out@ == without(v@.subrange(0, i as int), x),
            forall|y: u64| out@.contains(y) <==> (v@.subrange(0, i as int).contains(y) && y != x),
            v@.no_duplicates() ==> out@.no_duplicates(),
        decreases n - i,
    {
        proof {
            assert(v@.subrange(0, i + 1).drop_last() =~= v@.subrange(0, i as int));
        }
        let ghost prev = out@;
        if v[i] != x {
            out.push(v[i]);
            proof {
                if v@.no_duplicates() {
                    assert forall|a: int, b: int| 0 <= a < b < out@.len() implies out@[a] != out@[b] by {
                        if b == out@.len() - 1 && out@[a] == out@[b] {
                            assert(prev.contains(prev[a]));
                            let k = choose|k: int| 0 <= k < i && #[trigger] v@.subrange(0, i as int)[k] == prev[a];
                            assert(v@[k] == v@[i as int]);
                        }
                    }
                }
            }
        }
        proof {
            assert forall|y: u64| out@.contains(y) <==> (v@.subrange(0, i + 1).contains(y) && y != x) by {
                if v@.subrange(0, i + 1).contains(y) && y != x {
                    let k = choose|k: int| 0 <= k < i + 1 && #[trigger] v@.subrange(0, i + 1)[k] == y;
                    if k < i {
                        assert(v@.subrange(0, i as int)[k] == y);
                        assert(prev.contains(y));
                        let j = choose|j: int| 0 <= j < prev.len() && #[trigger] prev[j] == y;
                        assert(out@[j] == y);
                    } else {
                        assert(out@[out@.len() - 1] == y);
                    }
                }
                if out@.contains(y) {
                    let j = choose|j: int| 0 <= j < out@.len() && #[trigger] out@[j] == y;
                    if j < prev.len() {
                        assert(prev[j] == y);
                        assert(prev.contains(y));
                        let k = choose|k: int| 0 <= k < i && #[trigger] v@.subrange(0, i as int)[k] == y;
                        assert(v@.subrange(0, i + 1)[k] == y);
                    } else {
                        assert(v@.subrange(0, i + 1)[i as int] == y);
                    }
                }
            }
        }
        i = i + 1;
    }
    proof {
        assert(v@.subrange(0, n as int) =~= v@);
    }
    out
}

/// Whether `x` occurs in `v`.
pub fn contains_u64(v: &Vec<u64>, x: u64) -> (r: bool)
    ensures
        r == v@.contains(x),
{
    let n = v.len();
    let mut i: usize = 0;
    while i < n
        invariant
            n == v.len(),
            0 <= i <= n,
            forall|j: int| 0 <= j < i ==> v@[j] != x,
        decreases n - i,
    {
        if v[i] == x {
            return true;
        }
        i = i + 1;
    }
    false
}

impl PriceOracleContract {
    /// Transfers administration to `new_admin`.
    pub fn set_admin(&mut self, caller: u64, new_admin: u64) -> (r: Result<(), ErrorCode>)
        requires
            old(self).wf(),
        ensures
            final(self).wf(),
            final(self).same_data(old(self)),
            caller != old(self).config.admin <==> r is Err,
            r is Err ==> r == Err::<(), ErrorCode>(ErrorCode::NotAuthorized) && final(self).config == old(self).config,
            r is Ok ==> final(self).config == (OracleConfig { admin: new_admin, ..old(self).config }),
    {
        if caller != self.config.admin {
            return Err(ErrorCode::NotAuthorized);
        }
        self.config.admin = new_admin;
        Ok(())
    }

    /// Sets the minimum number of contributing sources. Zero, or more than
    /// the registered sources when any are registered, is `InvalidConfiguration`.
    pub fn set_min_sources_required(&mut self, caller: u64, new_min: u32) -> (r: Result<(), ErrorCode>)
        requires
            old(self).wf(),
        ensures
            final(self).wf(),
            final(self).same_data(old(self)),
            caller != old(self).config.admin ==> r == Err::<(), ErrorCode>(ErrorCode::NotAuthorized),
            caller == old(self).config.admin && (new_min == 0 || (old(self).sources@.len() > 0 && new_min > old(self).sources@.len()))
                ==> r == Err::<(), ErrorCode>(ErrorCode::InvalidConfiguration),
            r is Err ==> final(self).config == old(self).config,
            r is Ok <==> caller == old(self).config.admin && new_min != 0 && (old(self).sources@.len() == 0 || new_min <= old(self).sources@.len()),
            r is Ok ==> final(self).config == (OracleConfig { min_sources_required: new_min, ..old(self).config }),
    {
        if caller != self.config.admin {
            return Err(ErrorCode::NotAuthorized);
        }
        if new_min == 0 || (self.sources.len() > 0 && new_min as usize > self.sources.len()) {
            return Err(ErrorCode::InvalidConfiguration);
        }
        self.config.min_sources_required = new_min;
        Ok(())
    }

    /// Sets the number of history entries kept per asset.
    pub fn set_max_history_length(&mut self, caller: u64, new_max: u32) -> (r: Result<(), ErrorCode>)
        requires
            old(self).wf(),
        ensures
            final(self).wf(),
            final(self).same_data(old(self)),
            caller != old(self).config.admin <==> r is Err,
            r is Err ==> r == Err::<(), ErrorCode>(ErrorCode::NotAuthorized) && final(self).config == old(self).config,
            r is Ok ==> final(self).config == (OracleConfig { max_history_length: new_max, ..old(self).config }),
    {
        if caller != self.config.admin {
            return Err(ErrorCode::NotAuthorized);
        }
        self.config.max_history_length = new_max;
        Ok(())
    }

    /// Sets the staleness window in seconds (0 disables it).
    pub fn set_resolution(&mut self, caller: u64, new_resolution: u32) -> (r: Result<(), ErrorCode>)
        requires
            old(self).wf(),
        ensures
            final(self).wf(),
            final(self).same_data(old(self)),
            caller != old(self).config.admin <==> r is Err,
            r is Err ==> r == Err::<(), ErrorCode>(ErrorCode::NotAuthorized) && final(self).config == old(self).config,
            r is Ok ==> final(self).config == (OracleConfig { resolution: new_resolution, ..old(self).config }),
    {
        if caller != self.config.admin {
            return Err(ErrorCode::NotAuthorized);
        }
        self.config.resolution = new_resolution;
        Ok(())
    }

    /// Sets the decimal precision of stored prices (existing entries are not rescaled).
    pub fn set_decimals(&mut self, caller: u64, new_decimals: u32) -> (r: Result<(), ErrorCode>)
        requires
            old(self).wf(),
        ensures
            final(self).wf(),
            final(self).same_data(old(self)),
            caller != old(self).config.admin <==> r is Err,
            r is Err ==> r == Err::<(), ErrorCode>(ErrorCode::NotAuthorized) && final(self).config == old(self).config,
            r is Ok ==> final(self).config == (OracleConfig { decimals: new_decimals, ..old(self).config }),
    {
        if caller != self.config.admin {
            return Err(ErrorCode::NotAuthorized);
        }
        self.config.decimals = new_decimals;
        Ok(())
    }

    /// Replaces the description; more than 256 bytes is `DescriptionTooLong`.
    pub fn set_description(&mut self, caller: u64, new_description: String) -> (r: Result<(), ErrorCode>)
        requires
            old(self).wf(),
        ensures
            final(self).wf(),
            final(self).config == old(self).config,
            caller != old(self).config.admin ==> r == Err::<(), ErrorCode>(ErrorCode::NotAuthorized),
            caller == old(self).config.admin && byte_len(new_description@) > MAX_DESCRIPTION_LEN
                ==> r == Err::<(), ErrorCode>(ErrorCode::DescriptionTooLong),
            r is Ok <==> caller == old(self).config.admin && byte_len(new_description@) <= MAX_DESCRIPTION_LEN,
            r is Err ==> final(self).same_data(old(self)),
            r is Ok ==> final(self).description@ == new_description@,
    {
        if caller != self.config.admin {
            return Err(ErrorCode::NotAuthorized);
        }
        if description_len(&new_description) > MAX_DESCRIPTION_LEN {
            return Err(ErrorCode::DescriptionTooLong);
        }
        self.description = new_description;
        Ok(())
    }

    /// Sets how far in the future (seconds) a submitted timestamp may be.
    pub fn set_timestamp_threshold(&mut self, caller: u64, threshold: u64) -> (r: Result<(), ErrorCode>)
        requires
            old(self).wf(),
        ensures
            final(self).wf(),
            final(self).same_data(old(self)),
            caller != old(self).config.admin <==> r is Err,
            r is Err ==> r == Err::<(), ErrorCode>(ErrorCode::NotAuthorized) && final(self).config == old(self).config,
            r is Ok ==> final(self).config == (OracleConfig { timestamp_threshold: threshold, ..old(self).config }),
    {
        if caller != self.config.admin {
            return Err(ErrorCode::NotAuthorized);
        }
        self.config.timestamp_threshold = threshold;
        Ok(())
    }

    /// Sets the maximum price deviation in basis points; above 100 000 is
    /// `InvalidConfiguration`.
    pub fn set_max_price_deviation(&mut self, caller: u64, deviation_basis_points: u32) -> (r: Result<(), ErrorCode>)
        requires
            old(self).wf(),
        ensures
            final(self).wf(),
            final(self).same_data(old(self)),
            caller != old(self).config.admin ==> r == Err::<(), ErrorCode>(ErrorCode::NotAuthorized),
            caller == old(self).config.admin && deviation_basis_points > MAX_DEVIATION_BPS_LIMIT
                ==> r == Err::<(), ErrorCode>(ErrorCode::InvalidConfiguration),
            r is Ok <==> caller == old(self).config.admin && deviation_basis_points <= MAX_DEVIATION_BPS_LIMIT,
            r is Err ==> final(self).config == old(self).config,
            r is Ok ==> final(self).config == (OracleConfig { max_price_deviation: deviation_basis_points, ..old(self).config }),
    {
        if caller != self.config.admin {
            return Err(ErrorCode::NotAuthorized);
        }
        if deviation_basis_points > MAX_DEVIATION_BPS_LIMIT {
            return Err(ErrorCode::InvalidConfiguration);
        }
        self.config.max_price_deviation = deviation_basis_points;
        Ok(())
    }

    /// Sets the heartbeat interval in seconds; zero is `InvalidConfiguration`.
    pub fn set_heartbeat_interval(&mut self, caller: u64, interval: u64) -> (r: Result<(), ErrorCode>)
        requires
            old(self).wf(),
        ensures
            final(self).wf(),
            final(self).same_data(old(self)),
            caller != old(self).config.admin ==> r == Err::<(), ErrorCode>(ErrorCode::NotAuthorized),
            caller == old(self).config.admin && interval == 0 ==> r == Err::<(), ErrorCode>(ErrorCode::InvalidConfiguration),
            r is Ok <==> caller == old(self).config.admin && interval != 0,
            r is Err ==> final(self).config == old(self).config,
            r is Ok ==> final(self).config == (OracleConfig { heartbeat_interval: interval, ..old(self).config }),
    {
        if caller != self.config.admin {
            return Err(ErrorCode::NotAuthorized);
        }
        if interval == 0 {
            return Err(ErrorCode::InvalidConfiguration);
        }
        self.config.heartbeat_interval = interval;
        Ok(())
    }

    /// Sets the cooldown, in ledgers, between manual aggregation triggers.
    pub fn set_aggregation_cooldown(&mut self, caller: u64, cooldown_ledgers: u32) -> (r: Result<(), ErrorCode>)
        requires
            old(self).wf(),
        ensures
            final(self).wf(),
            final(self).same_data(old(self)),
            caller != old(self).config.admin <==> r is Err,
            r is Err ==> r == Err::<(), ErrorCode>(ErrorCode::NotAuthorized) && final(self).config == old(self).config,
            r is Ok ==> final(self).config == (OracleConfig { aggregation_cooldown: cooldown_ledgers, ..old(self).config }),
    {
        if caller != self.config.admin {
            return Err(ErrorCode::NotAuthorized);
        }
        self.config.aggregation_cooldown = cooldown_ledgers;
        Ok(())
    }

    /// Sets the contract-wide minimum submission interval in ledgers (0 disables it).
    pub fn set_min_submission_interval(&mut self, caller: u64, interval_ledgers: u32) -> (r: Result<(), ErrorCode>)
        requires
            old(self).wf(),
        ensures
            final(self).wf(),
            final(self).same_data(old(self)),
            caller != old(self).config.admin <==> r is Err,
            r is Err ==> r == Err::<(), ErrorCode>(ErrorCode::NotAuthorized) && final(self).config == old(self).config,
            r is Ok ==> final(self).config == (OracleConfig { min_submission_interval: interval_ledgers, ..old(self).config }),
    {
        if caller != self.config.admin {
            return Err(ErrorCode::NotAuthorized);
        }
        self.config.min_submission_interval = interval_ledgers;
        Ok(())
    }

    /// Sets the maximum number of registered assets; zero is `InvalidConfiguration`.
    pub fn set_max_assets(&mut self, caller: u64, count: u32) -> (r: Result<(), ErrorCode>)
        requires
            old(self).wf(),
        ensures
            final(self).wf(),
            final(self).same_data(old(self)),
            caller != old(self).config.admin ==> r == Err::<(), ErrorCode>(ErrorCode::NotAuthorized),
            caller == old(self).config.admin && count == 0 ==> r == Err::<(), ErrorCode>(ErrorCode::InvalidConfiguration),
            r is Ok <==> caller == old(self).config.admin && count != 0,
            r is Err ==> final(self).config == old(self).config,
            r is Ok ==> final(self).config == (OracleConfig { max_assets: count, ..old(self).config }),
    {
        if caller != self.config.admin {
            return Err(ErrorCode::NotAuthorized);
        }
        if count == 0 {
            return Err(ErrorCode::InvalidConfiguration);
        }
        self.config.max_assets = count;
        Ok(())
    }

    /// Enables or disables interpolation of missing history entries.
    pub fn set_interpolation_enabled(&mut self, caller: u64, enabled: bool) -> (r: Result<(), ErrorCode>)
        requires
            old(self).wf(),
        ensures
            final(self).wf(),
            final(self).same_data(old(self)),
            caller != old(self).config.admin <==> r is Err,
            r is Err ==> r == Err::<(), ErrorCode>(ErrorCode::NotAuthorized) && final(self).config == old(self).config,
            r is Ok ==> final(self).config == (OracleConfig { interpolation_enabled: enabled, ..old(self).config }),
    {
        if caller != self.config.admin {
            return Err(ErrorCode::NotAuthorized);
        }
        self.config.interpolation_enabled = enabled;
        Ok(())
    }

    /// Selects the aggregation method (0 median, 1 mean, 2 trimmed mean,
    /// 3 volume-weighted; other numbers mean median).
    pub fn set_aggregation_method(&mut self, caller: u64, method: u32) -> (r: Result<(), ErrorCode>)
        requires
            old(self).wf(),
        ensures
            final(self).wf(),
            final(self).same_data(old(self)),
            caller != old(self).config.admin <==> r is Err,
            r is Err ==> r == Err::<(), ErrorCode>(ErrorCode::NotAuthorized) && final(self).config == old(self).config,
            r is Ok ==> final(self).config == (OracleConfig { aggregation_method: method, ..old(self).config }),
    {
        if caller != self.config.admin {
            return Err(ErrorCode::NotAuthorized);
        }
        self.config.aggregation_method = method;
        Ok(())
    }

    /// Configures fault-tolerant aggregation; a method above 2 (trimmed
    /// mean) is `InvalidConfiguration`.
    pub fn set_bft_parameters(&mut self, caller: u64, fault_tolerance: u32, method: u32) -> (r: Result<(), ErrorCode>)
        requires
            old(self).wf(),
        ensures
            final(self).wf(),
            final(self).same_data(old(self)),
            caller != old(self).config.admin ==> r == Err::<(), ErrorCode>(ErrorCode::NotAuthorized),
            caller == old(self).config.admin && method > 2 ==> r == Err::<(), ErrorCode>(ErrorCode::InvalidConfiguration),
            r is Ok <==> caller == old(self).config.admin && method <= 2,
            r is Err ==> final(self).config == old(self).config,
            r is Ok ==> final(self).config == (OracleConfig { bft_fault_tolerance: fault_tolerance, bft_method: method, ..old(self).config }),
    {
        if caller != self.config.admin {
            return Err(ErrorCode::NotAuthorized);
        }
        if method > 2 {
            return Err(ErrorCode::InvalidConfiguration);
        }
        self.config.bft_fault_tolerance = fault_tolerance;
        self.config.bft_method = method;
        Ok(())
    }

    /// Sets the commit window of the commit-reveal scheme; zero is `InvalidConfiguration`.
    pub fn set_commit_window(&mut self, caller: u64, ledgers: u32) -> (r: Result<(), ErrorCode>)
        requires
            old(self).wf(),
        ensures
            final(self).wf(),
            final(self).same_data(old(self)),
            caller != old(self).config.admin ==> r == Err::<(), ErrorCode>(ErrorCode::NotAuthorized),
            caller == old(self).config.admin && ledgers == 0 ==> r == Err::<(), ErrorCode>(ErrorCode::InvalidConfiguration),
            r is Ok <==> caller == old(self).config.admin && ledgers != 0,
            r is Err ==> final(self).config == old(self).config,
            r is Ok ==> final(self).config == (OracleConfig { commit_window: ledgers, ..old(self).config }),
    {
        if caller != self.config.admin {
            return Err(ErrorCode::NotAuthorized);
        }
        if ledgers == 0 {
            return Err(ErrorCode::InvalidConfiguration);
        }
        self.config.commit_window = ledgers;
        Ok(())
    }

    /// Sets the reveal window of the commit-reveal scheme; zero is `InvalidConfiguration`.
    pub fn set_reveal_window(&mut self, caller: u64, ledgers: u32) -> (r: Result<(), ErrorCode>)
        requires
            old(self).wf(),
        ensures
            final(self).wf(),
            final(self).same_data(old(self)),
            caller != old(self).config.admin ==> r == Err::<(), ErrorCode>(ErrorCode::NotAuthorized),
            caller == old(self).config.admin && ledgers == 0 ==> r == Err::<(), ErrorCode>(ErrorCode::InvalidConfiguration),
            r is Ok <==> caller == old(self).config.admin && ledgers != 0,
            r is Err ==> final(self).config == old(self).config,
            r is Ok ==> final(self).config == (OracleConfig { reveal_window: ledgers, ..old(self).config }),
    {
        if caller != self.config.admin {
            return Err(ErrorCode::NotAuthorized);
        }
        if ledgers == 0 {
            return Err(ErrorCode::InvalidConfiguration);
        }
        self.config.reveal_window = ledgers;
        Ok(())
    }

    /// Sets the history compaction threshold in basis points (0 disables
    /// compaction). Open to any caller.
    pub fn set_compaction_threshold_bps(&mut self, threshold_bps: u32)
        requires
            old(self).wf(),
        ensures
            final(self).wf(),
            final(self).same_data(old(self)),
            final(self).config == (OracleConfig { compaction_threshold_bps: threshold_bps, ..old(self).config }),
    {
        self.config.compaction_threshold_bps = threshold_bps;
    }

    /// Halts submissions (`paused == true`) or resumes them.
    pub fn set_paused(&mut self, caller: u64, paused: bool) -> (r: Result<(), ErrorCode>)
        requires
            old(self).wf(),
        ensures
            final(self).wf(),
            final(self).same_data(old(self)),
            caller != old(self).config.admin <==> r is Err,
            r is Err ==> r == Err::<(), ErrorCode>(ErrorCode::NotAuthorized) && final(self).config == old(self).config,
            r is Ok ==> final(self).config == (OracleConfig { paused, ..old(self).config }),
    {
        if caller != self.config.admin {
            return Err(ErrorCode::NotAuthorized);
        }
        self.config.paused = paused;
        Ok(())
    }

    /// Pauses the oracle.
    pub fn pause(&mut self, caller: u64) -> (r: Result<(), ErrorCode>)
        requires
            old(self).wf(),
        ensures
            final(self).wf(),
            final(self).same_data(old(self)),
            caller != old(self).config.admin <==> r is Err,
            r is Err ==> r == Err::<(), ErrorCode>(ErrorCode::NotAuthorized) && final(self).config == old(self).config,
            r is Ok ==> final(self).config == (OracleConfig { paused: true, ..old(self).config }),
    {
        self.set_paused(caller, true)
    }

    /// Resumes the oracle.
    pub fn unpause(&mut self, caller: u64) -> (r: Result<(), ErrorCode>)
        requires
            old(self).wf(),
        ensures
            final(self).wf(),
            final(self).same_data(old(self)),
            caller != old(self).config.admin <==> r is Err,
            r is Err ==> r == Err::<(), ErrorCode>(ErrorCode::NotAuthorized) && final(self).config == old(self).config,
            r is Ok ==> final(self).config == (OracleConfig { paused: false, ..old(self).config }),
    {
        self.set_paused(caller, false)
    }

    /// Whether the oracle is paused.
    pub fn is_paused(&self) -> (r: bool)
        ensures
            r == self.config.paused,
    {
        self.config.paused
    }

    /// Registers a price source.
    pub fn add_source(&mut self, caller: u64, source: u64) -> (r: Result<(), ErrorCode>)
        requires
            old(self).wf(),
        ensures
            final(self).wf(),
            final(self).config == old(self).config,
            caller != old(self).config.admin ==> r == Err::<(), ErrorCode>(ErrorCode::NotAuthorized),
            caller == old(self).config.admin && old(self).sources@.contains(source) ==> r == Err::<(), ErrorCode>(ErrorCode::SourceAlreadyExists),
            r is Ok <==> caller == old(self).config.admin && !old(self).sources@.contains(source),
            r is Err ==> final(self).same_data(old(self)),
            r is Ok ==> final(self).sources@ == old(self).sources@.push(source),
            final(self).assets@ == old(self).assets@,
            final(self).submissions@ == old(self).submissions@,
            final(self).aggregates@ == old(self).aggregates@,
            final(self).histories@ == old(self).histories@,
    {
        if caller != self.config.admin {
            return Err(ErrorCode::NotAuthorized);
        }
        if contains_u64(&self.sources, source) {
            return Err(ErrorCode::SourceAlreadyExists);
        }
        self.sources.push(source);
        proof {
            assert forall|a: int, b: int| 0 <= a < b < self.sources@.len() implies self.sources@[a] != self.sources@[b] by {
                if b == self.sources@.len() - 1 {
                    assert(old(self).sources@.contains(old(self).sources@[a]));
                }
            }
        }
        Ok(())
    }

    /// Unregisters a price source; its stored submissions stay but no longer
    /// take part in aggregation.
    pub fn remove_source(&mut self, caller: u64, source: u64) -> (r: Result<(), ErrorCode>)
        requires
            old(self).wf(),
        ensures
            final(self).wf(),
            final(self).config == old(self).config,
            caller != old(self).config.admin ==> r == Err::<(), ErrorCode>(ErrorCode::NotAuthorized),
            caller == old(self).config.admin && !old(self).sources@.contains(source) ==> r == Err::<(), ErrorCode>(ErrorCode::SourceNotFound),
            r is Ok <==> caller == old(self).config.admin && old(self).sources@.contains(source),
            r is Err ==> final(self).same_data(old(self)),
            r is Ok ==> final(self).sources@ == without(old(self).sources@, source),
            r is Ok ==> !final(self).sources@.contains(source),
            final(self).assets@ == old(self).assets@,
            final(self).submissions@ == old(self).submissions@,
            final(self).aggregates@ == old(self).aggregates@,
            final(self).histories@ == old(self).histories@,
    {
        if caller != self.config.admin {
            return Err(ErrorCode::NotAuthorized);
        }
        if !contains_u64(&self.sources, source) {
            return Err(ErrorCode::SourceNotFound);
        }
        self.sources = remove_all(&self.sources, source);
        Ok(())
    }

    /// Whether `source` is registered.
    pub fn is_source(&self, source: u64) -> (r: bool)
        ensures
            r == self.sources@.contains(source),
    {
        contains_u64(&self.sources, source)
    }

    /// Registers an asset; refused when already registered or when the
    /// registry is full (`MaxAssetsReached`).
    pub fn register_asset(&mut self, caller: u64, asset: u64) -> (r: Result<(), ErrorCode>)
        requires
            old(self).wf(),
        ensures
            final(self).wf(),
            final(self).config == old(self).config,
            caller != old(self).config.admin ==> r == Err::<(), ErrorCode>(ErrorCode::NotAuthorized),
            caller == old(self).config.admin && old(self).assets@.contains(asset) ==> r == Err::<(), ErrorCode>(ErrorCode::AssetAlreadyRegistered),
            caller == old(self).config.admin && !old(self).assets@.contains(asset) && old(self).assets@.len() >= old(self).config.max_assets
                ==> r == Err::<(), ErrorCode>(ErrorCode::MaxAssetsReached),
            r is Ok <==> caller == old(self).config.admin && !old(self).assets@.contains(asset) && old(self).assets@.len() < old(self).config.max_assets,
            r is Err ==> final(self).same_data(old(self)),
            r is Ok ==> final(self).assets@ == old(self).assets@.push(asset),
            final(self).sources@ == old(self).sources@,
            final(self).submissions@ == old(self).submissions@,
            final(self).aggregates@ == old(self).aggregates@,
            final(self).histories@ == old(self).histories@,
    {
        if caller != self.config.admin {
            return Err(ErrorCode::NotAuthorized);
        }
        if contains_u64(&self.assets, asset) {
            return Err(ErrorCode::AssetAlreadyRegistered);
        }
        if self.assets.len() >= self.config.max_assets as usize {
            return Err(ErrorCode::MaxAssetsReached);
        }
        self.assets.push(asset);
        proof {
            assert forall|a: int, b: int| 0 <= a < b < self.assets@.len() implies self.assets@[a] != self.assets@[b] by {
                if b == self.assets@.len() - 1 {
                    assert(old(self).assets@.contains(old(self).assets@[a]));
                }
            }
        }
        Ok(())
    }

    /// Unregisters an asset and deletes its published aggregate.
    pub fn unregister_asset(&mut self, caller: u64, asset: u64) -> (r: Result<(), ErrorCode>)
        requires
            old(self).wf(),
        ensures
            final(self).wf(),
            final(self).config == old(self).config,
            caller != old(self).config.admin ==> r == Err::<(), ErrorCode>(ErrorCode::NotAuthorized),
            caller == old(self).config.admin && !old(self).assets@.contains(asset) ==> r == Err::<(), ErrorCode>(ErrorCode::AssetNotRegistered),
            r is Ok <==> caller == old(self).config.admin && old(self).assets@.contains(asset),
            r is Err ==> final(self).same_data(old(self)),
            r is Ok ==> final(self).assets@ == without(old(self).assets@, asset),
            r is Ok ==> final(self).aggregates@ == old(self).aggregates@.remove(asset),
            r is Ok ==> !final(self).assets@.contains(asset),
            final(self).sources@ == old(self).sources@,
            final(self).submissions@ == old(self).submissions@,
            final(self).histories@ == old(self).histories@,
    {
        if caller != self.config.admin {
            return Err(ErrorCode::NotAuthorized);
        }
        if !contains_u64(&self.assets, asset) {
            return Err(ErrorCode::AssetNotRegistered);
        }
        self.assets = remove_all(&self.assets, asset);
        self.aggregates.remove(&asset);
        Ok(())
    }

    /// Whether `asset` is registered.
    pub fn is_asset_registered(&self, asset: u64) -> (r: bool)
        ensures
            r == self.assets@.contains(asset),
    {
        contains_u64(&self.assets, asset)
    }

    /// Sets a per-asset staleness window in seconds (0 falls back to the
    /// contract-wide resolution).
    pub fn set_asset_resolution(&mut self, caller: u64, asset: u64, resolution: u32) -> (r: Result<(), ErrorCode>)
        requires
            old(self).wf(),
        ensures
            final(self).wf(),
            final(self).config == old(self).config,
            caller != old(self).config.admin <==> r is Err,
            r is Err ==> r == Err::<(), ErrorCode>(ErrorCode::NotAuthorized) && final(self).same_data(old(self)),
            r is Ok ==> final(self).asset_resolution@ == old(self).asset_resolution@.insert(asset, resolution),
            final(self).sources@ == old(self).sources@,
            final(self).assets@ == old(self).assets@,
            final(self).submissions@ == old(self).submissions@,
            final(self).aggregates@ == old(self).aggregates@,
            final(self).histories@ == old(self).histories@,
    {
        if caller != self.config.admin {
            return Err(ErrorCode::NotAuthorized);
        }
        self.asset_resolution.insert(asset, resolution);
        Ok(())
    }

    /// Sets the validation bounds for submissions of `asset`.
    pub fn set_price_bounds(&mut self, caller: u64, asset: u64, bounds: PriceBounds) -> (r: Result<(), ErrorCode>)
        requires
            old(self).wf(),
        ensures
            final(self).wf(),
            final(self).config == old(self).config,
            caller != old(self).config.admin <==> r is Err,
            r is Err ==> r == Err::<(), ErrorCode>(ErrorCode::NotAuthorized) && final(self).same_data(old(self)),
            r is Ok ==> final(self).price_bounds@ == old(self).price_bounds@.insert(asset, bounds),
            final(self).sources@ == old(self).sources@,
            final(self).assets@ == old(self).assets@,
            final(self).submissions@ == old(self).submissions@,
            final(self).aggregates@ == old(self).aggregates@,
            final(self).histories@ == old(self).histories@,
    {
        if caller != self.config.admin {
            return Err(ErrorCode::NotAuthorized);
        }
        self.price_bounds.insert(asset, bounds);
        Ok(())
    }

    /// Pauses or resumes submissions for a single asset.
    pub fn set_asset_paused(&mut self, caller: u64, asset: u64, paused: bool) -> (r: Result<(), ErrorCode>)
        requires
            old(self).wf(),
        ensures
            final(self).wf(),
            final(self).config == old(self).config,
            caller != old(self).config.admin <==> r is Err,
            r is Err ==> r == Err::<(), ErrorCode>(ErrorCode::NotAuthorized) && final(self).same_data(old(self)),
            r is Ok ==> final(self).paused_assets@ == old(self).paused_assets@.insert(asset, paused),
            final(self).sources@ == old(self).sources@,
            final(self).assets@ == old(self).assets@,
            final(self).submissions@ == old(self).submissions@,
            final(self).aggregates@ == old(self).aggregates@,
            final(self).histories@ == old(self).histories@,
    {
        if caller != self.config.admin {
            return Err(ErrorCode::NotAuthorized);
        }
        self.paused_assets.insert(asset, paused);
        Ok(())
    }

    /// Clears a tripped circuit breaker of `asset`.
    pub fn reset_circuit_breaker(&mut self, caller: u64, asset: u64) -> (r: Result<(), ErrorCode>)
        requires
            old(self).wf(),
        ensures
            final(self).wf(),
            final(self).config == old(self).config,
            caller != old(self).config.admin <==> r is Err,
            r is Err ==> r == Err::<(), ErrorCode>(ErrorCode::NotAuthorized) && final(self).same_data(old(self)),
            r is Ok ==> final(self).tripped@ == old(self).tripped@.remove(asset),
            final(self).sources@ == old(self).sources@,
            final(self).assets@ == old(self).assets@,
            final(self).submissions@ == old(self).submissions@,
            final(self).aggregates@ == old(self).aggregates@,
            final(self).histories@ == old(self).histories@,
    {
        if caller != self.config.admin {
            return Err(ErrorCode::NotAuthorized);
        }
        self.tripped.remove(&asset);
        Ok(())
    }
}


impl PriceOracleContract {
    /// The administrator.
    pub fn get_admin_address(&self) -> (r: u64)
        ensures
            r == self.config.admin,
    {
        self.config.admin
    }

    /// Fewest sources an aggregate needs.
    pub fn get_min_sources_required(&self) -> (r: u32)
        ensures
            r == self.config.min_sources_required,
    {
        self.config.min_sources_required
    }

    /// Most history entries kept per asset.
    pub fn get_max_history_length(&self) -> (r: u32)
        ensures
            r == self.config.max_history_length,
    {
        self.config.max_history_length
    }

    /// The staleness window of prices, in seconds.
    pub fn get_resolution(&self) -> (r: u32)
        ensures
            r == self.config.resolution,
    {
        self.config.resolution
    }

    /// Decimals of published prices.
    pub fn get_decimals(&self) -> (r: u32)
        ensures
            r == self.config.decimals,
    {
        self.config.decimals
    }

    /// Tolerated future offset of a submitted timestamp, in seconds.
    pub fn get_timestamp_threshold(&self) -> (r: u64)
        ensures
            r == self.config.timestamp_threshold,
    {
        self.config.timestamp_threshold
    }

    /// Largest accepted deviation from the previous price, in basis points.
    pub fn get_max_price_deviation(&self) -> (r: u32)
        ensures
            r == self.config.max_price_deviation,
    {
        self.config.max_price_deviation
    }

    /// Expected interval between heartbeats, in seconds.
    pub fn get_heartbeat_interval(&self) -> (r: u64)
        ensures
            r == self.config.heartbeat_interval,
    {
        self.config.heartbeat_interval
    }

    /// Fewest ledgers between two aggregations of an asset.
    pub fn get_aggregation_cooldown(&self) -> (r: u32)
        ensures
            r == self.config.aggregation_cooldown,
    {
        self.config.aggregation_cooldown
    }

    /// Fewest ledgers between two submissions of a source for an asset.
    pub fn get_min_submission_interval(&self) -> (r: u32)
        ensures
            r == self.config.min_submission_interval,
    {
        self.config.min_submission_interval
    }

    /// Most assets that can be registered.
    pub fn get_max_assets(&self) -> (r: u32)
        ensures
            r == self.config.max_assets,
    {
        self.config.max_assets
    }

    /// Whether history gaps are interpolated.
    pub fn get_interpolation_enabled(&self) -> (r: bool)
        ensures
            r == self.config.interpolation_enabled,
    {
        self.config.interpolation_enabled
    }

    /// Ledgers of a commit-reveal round's commit phase.
    pub fn get_commit_window(&self) -> (r: u32)
        ensures
            r == self.config.commit_window,
    {
        self.config.commit_window
    }

    /// Ledgers of a commit-reveal round's reveal phase.
    pub fn get_reveal_window(&self) -> (r: u32)
        ensures
            r == self.config.reveal_window,
    {
        self.config.reveal_window
    }

    /// Number of faulty sources tolerated by the fault-tolerant aggregation.
    pub fn get_bft_fault_tolerance(&self) -> (r: u32)
        ensures
            r == self.config.bft_fault_tolerance,
    {
        self.config.bft_fault_tolerance
    }

    /// Aggregation method applied to the fault-tolerant consensus set.
    pub fn get_bft_aggregation_method(&self) -> (r: u32)
        ensures
            r == self.config.bft_method,
    {
        self.config.bft_method
    }

    /// Relative price change below which a history write is skipped, in basis points.
    pub fn get_compaction_threshold_bps(&self) -> (r: u32)
        ensures
            r == self.config.compaction_threshold_bps,
    {
        self.config.compaction_threshold_bps
    }

    /// The description of the oracle.
    pub fn get_description(&self) -> (r: String)
        ensures
            r@ == self.description@,
    {
        self.description.clone()
    }

    /// Refuses every operation while the oracle is paused.
    pub fn check_not_paused(&self) -> (r: Result<(), ErrorCode>)
        ensures
            r == (if self.config.paused { Err(ErrorCode::ContractPaused) } else { Ok::<(), ErrorCode>(()) }),
    {
        if self.config.paused {
            return Err(ErrorCode::ContractPaused);
        }
        Ok(())
    }

    /// The registered sources, in order of registration.
    pub fn get_oracle_sources(&self) -> (r: Vec<u64>)
        ensures
            r@ == self.sources@,
    {
        self.sources.clone()
    }
}

} // verus!
