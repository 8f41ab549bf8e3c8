//! A minimal consumer of the SEP-40 interface, reading the oracle the way
//! client contracts do.

use vstd::prelude::*;
use vstd::string::StringExecFns;
use crate::oracle::PriceOracleContract;
use crate::queries::stale;
use crate::types::{Asset, ErrorCode, LedgerInfo, PriceData};

verus! {

/// A consumer reading an oracle through SEP-40.
pub struct MockSep40Consumer;

impl MockSep40Consumer {
    /// Whether the oracle quotes prices in USD.
    pub fn read_base(oracle: &PriceOracleContract) -> (r: bool)
        ensures
            r,
    {
        let base = oracle.base();
        let usd = String::from_str("USD");
        match base {
            Asset::Other(s) => s == usd,
            Asset::Stellar(_) => false,
        }
    }

    /// Number of assets the oracle lists (saturating at `u32::MAX`).
    pub fn read_assets_count(oracle: &PriceOracleContract) -> (r: u32)
        ensures
            r as int == if oracle.assets@.len() > u32::MAX { u32::MAX as int } else { oracle.assets@.len() as int },
    {
        let a = oracle.assets();
        if a.len() > u32::MAX as usize { u32::MAX } else { a.len() as u32 }
    }

    /// The oracle's decimals.
    pub fn read_decimals(oracle: &PriceOracleContract) -> (r: u32)
        ensures
            r == oracle.config.decimals,
    {
        oracle.decimals()
    }

    /// The oracle's resolution.
    pub fn read_resolution(oracle: &PriceOracleContract) -> (r: u32)
        ensures
            r == oracle.config.resolution,
    {
        oracle.resolution()
    }

    /// The oracle's last price of a Stellar asset.
    pub fn read_lastprice(oracle: &PriceOracleContract, asset: u64, now: LedgerInfo) -> (r: Option<PriceData>)
        ensures
            r == (if !oracle.is_asset_spec(asset) {
                None
            } else {
                match oracle.aggregate(asset) {
                    None => None,
                    Some(agg) => if stale(agg.timestamp, oracle.resolution_of(asset) as u64, now.timestamp) {
                        None
                    } else {
                        Some(PriceData { price: agg.price, timestamp: agg.timestamp, last_updated: now.sequence })
                    },
                }
            }),
    {
        oracle.lastprice(&Asset::Stellar(asset), now)
    }

    /// The oracle's price of a Stellar asset at `timestamp`.
    pub fn read_price_at(oracle: &PriceOracleContract, asset: u64, timestamp: u64, now: LedgerInfo) -> (r: Option<PriceData>)
        ensures
            r == oracle.price_at_spec(asset, timestamp, now),
    {
        oracle.price(&Asset::Stellar(asset), timestamp, now)
    }

    /// The oracle's recent prices of a Stellar asset.
    pub fn read_prices(oracle: &PriceOracleContract, asset: u64, records: u32, now: LedgerInfo) -> (r: Result<Option<Vec<PriceData>>, ErrorCode>)
        ensures
            !oracle.is_asset_spec(asset) ==> r matches Ok(None),
            oracle.is_asset_spec(asset) && records == 0 ==> (r matches Ok(Some(v)) && v@.len() == 0),
            oracle.is_asset_spec(asset) && records > oracle.config.max_history_length && records > 0
                ==> r == Err::<Option<Vec<PriceData>>, ErrorCode>(ErrorCode::RecordsLimitExceeded),
            oracle.is_asset_spec(asset) && 0 < records <= oracle.config.max_history_length
                ==> (r matches Ok(Some(v)) && v@ == oracle.prices_spec(asset, records, now)),
    {
        oracle.prices(&Asset::Stellar(asset), records, now)
    }
}

} // verus!
