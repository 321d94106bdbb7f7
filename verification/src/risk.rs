//! Risk model: pure numeric inputs to the slippage controller.
//!
//! All functions are deterministic; slippage figures are in basis points
//! (1/10,000). The initial slippage of an order is the sum of a base rate,
//! a per-chain premium, a bridge-timing premium, and a size premium, and is
//! therefore bounded well below the 10,000 bp ceiling.

use vstd::prelude::*;

verus! {

/// Size threshold above which the large-order premium applies
/// (1000 units of the 10^24 base unit).
pub const LARGE_ORDER_THRESHOLD: u128 = 1_000_000_000_000_000_000_000_000;

/// Premium in basis points for the foreign chain the order targets.
pub open spec fn spec_chain_premium(target_chain_id: u64) -> u64 {
    if target_chain_id == 1 {
        25
    } else if target_chain_id == 137 {
        50
    } else {
        100
    }
}

/// Premium in basis points for orders above the size threshold.
pub open spec fn spec_size_premium(amount: u128) -> u64 {
    if amount > LARGE_ORDER_THRESHOLD {
        50
    } else {
        0
    }
}

/// Initial (and recomputed) slippage for an order: base 50 bp, plus the
/// chain premium, plus 25 bp bridge-timing premium, plus the size premium.
pub open spec fn spec_cross_chain_slippage(amount: u128, target_chain_id: u64) -> u64 {
    (50 + spec_chain_premium(target_chain_id) + 25 + spec_size_premium(amount)) as u64
}

/// Expected bridge delay in seconds for the foreign chain.
pub open spec fn spec_bridge_delay(target_chain_id: u64) -> u64 {
    if target_chain_id == 1 {
        900
    } else if target_chain_id == 137 {
        300
    } else {
        1800
    }
}

/// The recomputed slippage never exceeds 225 bp, far below the 10,000 bp cap.
pub proof fn lemma_slippage_bounded(amount: u128, target_chain_id: u64)
    ensures
        spec_cross_chain_slippage(amount, target_chain_id) <= 225,
{
}

/// Slippage in basis points for a prospective swap, from the amount and the
/// target chain. The token identifiers are accepted for interface stability
/// but do not affect the result.
pub fn calculate_cross_chain_slippage(
    token_in: &str,
    token_out: &str,
    amount: u128,
    target_chain_id: u64,
) -> (slippage: u64)
    ensures
        slippage == spec_cross_chain_slippage(amount, target_chain_id),
        slippage <= 225,
{
    let base_slippage: u64 = 50;
    let cross_chain_premium: u64 = if target_chain_id == 1 {
        25
    } else if target_chain_id == 137 {
        50
    } else {
        100
    };
    let bridge_delay_premium: u64 = 25;
    let amount_adjustment: u64 = if amount > LARGE_ORDER_THRESHOLD {
        50
    } else {
        0
    };
    base_slippage + cross_chain_premium + bridge_delay_premium + amount_adjustment
}

/// Volatility score of the outbound token. A fixed placeholder figure; an
/// oracle-fed variant may replace it with any unsigned 64-bit value.
pub fn calculate_volatility_score(token_out: &str) -> (score: u64)
    ensures
        score == 100u64,
{
    100
}

/// Expected bridge delay in seconds for the foreign chain.
pub fn estimate_bridge_delay(target_chain_id: u64) -> (delay: u64)
    ensures
        delay == spec_bridge_delay(target_chain_id),
{
    if target_chain_id == 1 {
        900
    } else if target_chain_id == 137 {
        300
    } else {
        1800
    }
}

} // verus!
