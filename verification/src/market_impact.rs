//! Market impact of a trade against a constant-product pool: output amount,
//! spot and execution prices, and the price impact in basis points.

use vstd::prelude::*;
use crate::types::ErrorCode;

verus! {

/// Fixed-point scale of prices (18 decimals).
pub const PRICE_SCALE: u128 = 1_000_000_000_000_000_000;

/// A constant-product pool between two assets.
#[derive(Clone, Copy, Debug, PartialEq, Eq, Structural)]
pub struct SoroswapPool {
    pub asset_a: u64,
    pub asset_b: u64,
    pub reserve_a: i128,
    pub reserve_b: i128,
    pub fee_bps: u32,
    pub enabled: bool,
}

/// Outcome of a trade estimate.
#[derive(Clone, Copy, Debug, PartialEq, Eq, Structural)]
pub struct MarketImpactEstimate {
    pub asset_in: u64,
    pub asset_out: u64,
    pub amount_in: i128,
    pub amount_out: i128,
    pub spot_price: i128,
    pub execution_price: i128,
    pub price_impact_bps: u32,
}

/// One point of an impact curve.
#[derive(Clone, Copy, Debug, PartialEq, Eq, Structural)]
pub struct ImpactCurvePoint {
    pub amount_in: i128,
    pub amount_out: i128,
    pub price_impact_bps: u32,
}

/// Relative distance of `a` from `b` in basis points, capped at `u32::MAX`
/// (0 for `b == 0`).
pub open spec fn deviation_bps_spec(a: u128, b: u128) -> Option<u32> {
    if b == 0 {
        Some(0)
    } else {
        let diff: int = if a > b { a - b } else { b - a };
        if diff * 10_000 > u128::MAX {
            None
        } else {
            let bps = diff * 10_000 / (b as int);
            Some(if bps > u32::MAX { u32::MAX } else { bps as u32 })
        }
    }
}

/// Relative distance of `a` from `b` in basis points; `None` when the
/// scaled difference overflows.
pub fn deviation_bps(a: u128, b: u128) -> (r: Option<u32>)
    ensures
        r == deviation_bps_spec(a, b),
{
    if b == 0 {
        return Some(0);
    }
    let diff = if a > b { a - b } else { b - a };
    let scaled = match diff.checked_mul(10_000) {
        Some(v) => v,
        None => {
            return None;
        },
    };
    let bps = scaled / b;
    Some(if bps > u32::MAX as u128 { u32::MAX } else { bps as u32 })
}

/// Trade outcome `(amount_out, spot_price, execution_price, impact_bps)`
/// of `amount_in` against reserves `r_in`, `r_out` with a fee of `fee_bps`.
pub open spec fn impact_spec(amount_in: i128, r_in: i128, r_out: i128, fee_bps: u32) -> Result<(i128, i128, i128, u32), ErrorCode> {
    if amount_in <= 0 || amount_in >= r_in {
        Err(ErrorCode::InvalidTradeSize)
    } else {
        let k = r_in * r_out;
        let fee_mul = amount_in * (10_000 - fee_bps);
        if k > u128::MAX || fee_mul > u128::MAX {
            Err(ErrorCode::ArithmeticOverflow)
        } else {
            let after_fee = fee_mul / 10_000;
            let new_in: int = if r_in + after_fee > u128::MAX { u128::MAX as int } else { r_in + after_fee };
            let new_out = k / new_in;
            if new_out >= r_out {
                Err(ErrorCode::InvalidTradeSize)
            } else {
                let out = r_out - new_out;
                if r_out * PRICE_SCALE > u128::MAX || out * PRICE_SCALE > u128::MAX {
                    Err(ErrorCode::ArithmeticOverflow)
                } else {
                    let spot = r_out * PRICE_SCALE / (r_in as int);
                    let exec = out * PRICE_SCALE / (amount_in as int);
                    match deviation_bps_spec(exec as u128, spot as u128) {
                        None => Err(ErrorCode::ArithmeticOverflow),
                        Some(bps) => Ok((out as i128, spot as i128, exec as i128, bps)),
                    }
                }
            }
        }
    }
}

/// Trade outcome against positive reserves (see `impact_spec`).
pub fn compute_impact(amount_in: i128, r_in: i128, r_out: i128, fee_bps: u32) -> (r: Result<(i128, i128, i128, u32), ErrorCode>)
    requires
        r_in > 0,
        r_out > 0,
        fee_bps <= 10_000,
    ensures
        r == impact_spec(amount_in, r_in, r_out, fee_bps),
{
    if amount_in <= 0 || amount_in >= r_in {
        return Err(ErrorCode::InvalidTradeSize);
    }
    let ri = r_in as u128;
    let ro = r_out as u128;
    let k = match ri.checked_mul(ro) {
        Some(v) => v,
        None => {
            return Err(ErrorCode::ArithmeticOverflow);
        },
    };
    let fee_mul = match (amount_in as u128).checked_mul(10_000 - fee_bps as u128) {
        Some(v) => v,
        None => {
            return Err(ErrorCode::ArithmeticOverflow);
        },
    };
    let after_fee = fee_mul / 10_000;
    let new_in = ri.saturating_add(after_fee);
    let new_out = k / new_in;
    if new_out >= ro {
        return Err(ErrorCode::InvalidTradeSize);
    }
    let out = ro - new_out;
    let spot_num = match ro.checked_mul(PRICE_SCALE) {
        Some(v) => v,
        None => {
            return Err(ErrorCode::ArithmeticOverflow);
        },
    };
    let exec_num = match out.checked_mul(PRICE_SCALE) {
        Some(v) => v,
        None => {
            return Err(ErrorCode::ArithmeticOverflow);
        },
    };
    let spot = spot_num / ri;
    let exec = exec_num / (amount_in as u128);
    match deviation_bps(exec, spot) {
        None => Err(ErrorCode::ArithmeticOverflow),
        Some(bps) => Ok((out as i128, spot as i128, exec as i128, bps)),
    }
}

/// Reserves `(in, out)` of an enabled, funded pool between the two assets,
/// trying the listed direction first.
pub open spec fn pool_reserves_spec(pools: Seq<SoroswapPool>, asset_in: u64, asset_out: u64) -> Option<(SoroswapPool, i128, i128)>
    decreases pools.len(),
{
    if pools.len() == 0 {
        None
    } else {
        let p = pools[0];
        let usable = p.enabled && p.reserve_a > 0 && p.reserve_b > 0;
        if usable && p.asset_a == asset_in && p.asset_b == asset_out {
            Some((p, p.reserve_a, p.reserve_b))
        } else if usable && p.asset_a == asset_out && p.asset_b == asset_in {
            Some((p, p.reserve_b, p.reserve_a))
        } else {
            pool_reserves_spec(pools.drop_first(), asset_in, asset_out)
        }
    }
}

/// Reserves of a usable pool between the two assets (see `pool_reserves_spec`).
pub fn find_pool_reserves(pools: &Vec<SoroswapPool>, asset_in: u64, asset_out: u64) -> (r: Option<(SoroswapPool, i128, i128)>)
    ensures
        r == pool_reserves_spec(pools@, asset_in, asset_out),
        r matches Some((p, ri, ro)) ==> ri > 0 && ro > 0 && p.fee_bps == p.fee_bps,
{
    let mut i: usize = 0;
    assert(pools@.subrange(0, pools@.len() as int) =~= pools@);
    while i < pools.len()
        invariant
            0 <= i <= pools.len(),
            pool_reserves_spec(pools@.subrange(i as int, pools@.len() as int), asset_in, asset_out) == pool_reserves_spec(pools@, asset_in, asset_out),
        decreases pools.len() - i,
    {
        let p = pools[i];
        proof {
            assert(pools@.subrange(i as int, pools@.len() as int)[0] == p);
            assert(pools@.subrange(i as int, pools@.len() as int).drop_first() =~= pools@.subrange(i + 1, pools@.len() as int));
        }
        let usable = p.enabled && p.reserve_a > 0 && p.reserve_b > 0;
        if usable && p.asset_a == asset_in && p.asset_b == asset_out {
            return Some((p, p.reserve_a, p.reserve_b));
        }
        if usable && p.asset_a == asset_out && p.asset_b == asset_in {
            return Some((p, p.reserve_b, p.reserve_a));
        }
        i = i + 1;
    }
    assert(pools@.subrange(i as int, pools@.len() as int) =~= Seq::<SoroswapPool>::empty());
    None
}

/// Estimates a trade of `amount_in` of `asset_in` for `asset_out` against
/// the pools; `PoolNotFound` without a usable pool.
pub fn estimate_market_impact(pools: &Vec<SoroswapPool>, asset_in: u64, asset_out: u64, amount_in: i128) -> (r: Result<MarketImpactEstimate, ErrorCode>)
    requires
        forall|i: int| 0 <= i < pools.len() ==> #[trigger] pools@[i].fee_bps <= 10_000,
    ensures
        pool_reserves_spec(pools@, asset_in, asset_out) is None ==> r == Err::<MarketImpactEstimate, ErrorCode>(ErrorCode::PoolNotFound),
        pool_reserves_spec(pools@, asset_in, asset_out) matches Some((p, ri, ro)) ==> r == match impact_spec(amount_in, ri, ro, p.fee_bps) {
            Err(e) => Err(e),
            Ok((out, spot, exec, bps)) => Ok(MarketImpactEstimate { asset_in, asset_out, amount_in, amount_out: out, spot_price: spot, execution_price: exec, price_impact_bps: bps }),
        },
{
    proof {
        lemma_pool_fee(pools@, asset_in, asset_out);
    }
    let (p, ri, ro) = match find_pool_reserves(pools, asset_in, asset_out) {
        Some(t) => t,
        None => {
            return Err(ErrorCode::PoolNotFound);
        },
    };
    match compute_impact(amount_in, ri, ro, p.fee_bps) {
        Err(e) => Err(e),
        Ok((out, spot, exec, bps)) => Ok(MarketImpactEstimate { asset_in, asset_out, amount_in, amount_out: out, spot_price: spot, execution_price: exec, price_impact_bps: bps }),
    }
}

/// A found pool is one of the pools.
proof fn lemma_pool_fee(pools: Seq<SoroswapPool>, asset_in: u64, asset_out: u64)
    requires
        forall|i: int| 0 <= i < pools.len() ==> #[trigger] pools[i].fee_bps <= 10_000,
    ensures
        pool_reserves_spec(pools, asset_in, asset_out) matches Some((p, ri, ro)) ==> p.fee_bps <= 10_000 && ri > 0 && ro > 0,
    decreases pools.len(),
{
    if pools.len() > 0 {
        assert forall|i: int| 0 <= i < pools.drop_first().len() implies #[trigger] pools.drop_first()[i].fee_bps <= 10_000 by {
            assert(pools.drop_first()[i] == pools[i + 1]);
        }
        lemma_pool_fee(pools.drop_first(), asset_in, asset_out);
        assert(pools[0].fee_bps <= 10_000);
    }
}

/// `a * b`, saturating at `u128::MAX`.
pub open spec fn sat_u128_mul(a: u128, b: u128) -> int {
    if a * b > u128::MAX { u128::MAX as int } else { a * b }
}

/// Trade sizes of the default curve: 1%, 5%, 10%, 25% and 50% of the
/// input reserve.
pub open spec fn default_sizes(r_in: i128) -> Seq<i128> {
    seq![
        (sat_u128_mul(r_in as u128, 100) / 10_000) as i128,
        (sat_u128_mul(r_in as u128, 500) / 10_000) as i128,
        (sat_u128_mul(r_in as u128, 1_000) / 10_000) as i128,
        (sat_u128_mul(r_in as u128, 2_500) / 10_000) as i128,
        (sat_u128_mul(r_in as u128, 5_000) / 10_000) as i128,
    ]
}

/// Curve points for `sizes`: sizes outside `(0, r_in)` are skipped; a
/// failing estimate fails the curve.
pub open spec fn curve_spec(sizes: Seq<i128>, r_in: i128, r_out: i128, fee_bps: u32) -> Result<Seq<ImpactCurvePoint>, ErrorCode>
    decreases sizes.len(),
{
    if sizes.len() == 0 {
        Ok(Seq::empty())
    } else {
        match curve_spec(sizes.drop_last(), r_in, r_out, fee_bps) {
            Err(e) => Err(e),
            Ok(pts) => {
                let a = sizes.last();
                if a <= 0 || a >= r_in {
                    Ok(pts)
                } else {
                    match impact_spec(a, r_in, r_out, fee_bps) {
                        Err(e) => Err(e),
                        Ok((out, _spot, _exec, bps)) => Ok(pts.push(ImpactCurvePoint { amount_in: a, amount_out: out, price_impact_bps: bps })),
                    }
                }
            },
        }
    }
}

/// Curve points for `sizes` against positive reserves (see `curve_spec`).
pub fn curve_points(sizes: &Vec<i128>, r_in: i128, r_out: i128, fee_bps: u32) -> (r: Result<Vec<ImpactCurvePoint>, ErrorCode>)
    requires
        r_in > 0,
        r_out > 0,
        fee_bps <= 10_000,
    ensures
        match curve_spec(sizes@, r_in, r_out, fee_bps) {
            Err(e) => r == Err::<Vec<ImpactCurvePoint>, ErrorCode>(e),
            Ok(pts) => r matches Ok(v) && v@ == pts,
        },
{
    let mut out: Vec<ImpactCurvePoint> = Vec::new();
    let mut i: usize = 0;
    while i < sizes.len()
        invariant
            0 <= i <= sizes.len(),
            r_in > 0,
            r_out > 0,
            fee_bps <= 10_000,
            curve_spec(sizes@.subrange(0, i as int), r_in, r_out, fee_bps) == Ok::<Seq<ImpactCurvePoint>, ErrorCode>(out@),
        decreases sizes.len() - i,
    {
        proof {
            assert(sizes@.subrange(0, i + 1).drop_last() =~= sizes@.subrange(0, i as int));
        }
        let a = sizes[i];
        if !(a <= 0 || a >= r_in) {
            match compute_impact(a, r_in, r_out, fee_bps) {
                Err(e) => {
                    proof {
                        lemma_curve_error(sizes@, r_in, r_out, fee_bps, i + 1);
                    }
                    return Err(e);
                },
                Ok((o, _spot, _exec, bps)) => {
                    out.push(ImpactCurvePoint { amount_in: a, amount_out: o, price_impact_bps: bps });
                },
            }
        }
        i = i + 1;
    }
    assert(sizes@.subrange(0, sizes.len() as int) =~= sizes@);
    Ok(out)
}

/// A failure on a prefix of the sizes fails the whole curve.
proof fn lemma_curve_error(sizes: Seq<i128>, r_in: i128, r_out: i128, fee_bps: u32, j: int)
    requires
        0 <= j <= sizes.len(),
        curve_spec(sizes.subrange(0, j), r_in, r_out, fee_bps) is Err,
    ensures
        curve_spec(sizes, r_in, r_out, fee_bps) == curve_spec(sizes.subrange(0, j), r_in, r_out, fee_bps),
    decreases sizes.len() - j,
{
    if j < sizes.len() {
        assert(sizes.subrange(0, j + 1).drop_last() =~= sizes.subrange(0, j));
        lemma_curve_error(sizes, r_in, r_out, fee_bps, j + 1);
    } else {
        assert(sizes.subrange(0, j) =~= sizes);
    }
}

/// The impact curve of trading `asset_in` for `asset_out`: at the given
/// sizes, or at the default fractions of the input reserve when none are
/// given; `PoolNotFound` without a usable pool.
pub fn get_market_impact_curve(pools: &Vec<SoroswapPool>, asset_in: u64, asset_out: u64, sizes: &Vec<i128>) -> (r: Result<Vec<ImpactCurvePoint>, ErrorCode>)
    requires
        forall|i: int| 0 <= i < pools.len() ==> #[trigger] pools@[i].fee_bps <= 10_000,
    ensures
        pool_reserves_spec(pools@, asset_in, asset_out) is None ==> r == Err::<Vec<ImpactCurvePoint>, ErrorCode>(ErrorCode::PoolNotFound),
        pool_reserves_spec(pools@, asset_in, asset_out) matches Some((p, ri, ro)) ==> ({
            let sz = if sizes@.len() == 0 { default_sizes(ri) } else { sizes@ };
            match curve_spec(sz, ri, ro, p.fee_bps) {
                Err(e) => r == Err::<Vec<ImpactCurvePoint>, ErrorCode>(e),
                Ok(pts) => r matches Ok(v) && v@ == pts,
            }
        }),
{
    proof {
        lemma_pool_fee(pools@, asset_in, asset_out);
    }
    let (p, ri, ro) = match find_pool_reserves(pools, asset_in, asset_out) {
        Some(t) => t,
        None => {
            return Err(ErrorCode::PoolNotFound);
        },
    };
    if sizes.len() == 0 {
        let base = ri as u128;
        let mut d: Vec<i128> = Vec::new();
        d.push((crate::fixed::sat_mul_u128(base, 100) / 10_000) as i128);
        d.push((crate::fixed::sat_mul_u128(base, 500) / 10_000) as i128);
        d.push((crate::fixed::sat_mul_u128(base, 1_000) / 10_000) as i128);
        d.push((crate::fixed::sat_mul_u128(base, 2_500) / 10_000) as i128);
        d.push((crate::fixed::sat_mul_u128(base, 5_000) / 10_000) as i128);
        assert(d@ =~= default_sizes(ri));
        curve_points(&d, ri, ro, p.fee_bps)
    } else {
        curve_points(sizes, ri, ro, p.fee_bps)
    }
}

} // verus!
