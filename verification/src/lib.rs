//! Cross-chain atomic swap escrow with adaptive slippage.
//!
//! Orders are hashlock/timelock escrows: a maker deposits value, a
//! counterparty locks matching value on a foreign chain, and revealing the
//! hashlock preimage claims the escrow. Each active order carries an
//! acceptable price slippage (in basis points) that is periodically
//! recomputed from cross-chain risk factors, with the change per update
//! bounded by the order's deviation limit.

pub mod codec;
pub mod engine;
pub mod hashlock;
pub mod risk;
pub mod types;

pub use codec::decode_order;
pub use codec::encode_order;
pub use codec::encode_slippage_payload;
pub use engine::AdaptiveCrossChain;
pub use engine::clamped_slippage;
pub use engine::DEFAULT_TIMELOCK_DURATION;
pub use engine::FILL_ATTEMPT_LIMIT;
pub use engine::MAX_SLIPPAGE_CHANGE;
pub use engine::SLIPPAGE_UPDATE_INTERVAL;
pub use hashlock::generate_hashlock;
pub use risk::calculate_cross_chain_slippage;
pub use risk::calculate_volatility_score;
pub use risk::estimate_bridge_delay;
pub use types::BridgeMessage;
pub use types::CrossChainOrder;
pub use types::OrderError;
pub use types::OrderStatus;
pub use types::SlippageHistory;
