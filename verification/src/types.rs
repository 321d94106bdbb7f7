//! Durable data model: orders, their status, slippage history entries,
//! outbound bridge messages, and the error kinds of the engine.

use vstd::prelude::*;

verus! {

/// Lifecycle status of an order. `Completed`, `Expired` and `Cancelled`
/// are terminal: no transition ever leaves them.
#[derive(Clone, Copy, Debug, PartialEq, Eq, Structural)]
pub enum OrderStatus {
    Active,
    Locked,
    Completed,
    Expired,
    Cancelled,
}

/// Whether a status is terminal (audit-only; no further transitions).
pub open spec fn is_terminal(status: OrderStatus) -> bool {
    status == OrderStatus::Completed || status == OrderStatus::Expired || status
        == OrderStatus::Cancelled
}

/// The single durable entity: a cross-chain escrow order.
pub struct CrossChainOrder {
    pub order_id: u64,
    pub maker: String,
    pub token_in: String,
    pub token_out: String,
    pub amount_in: u128,
    pub base_price: u128,
    pub current_slippage: u64,
    pub max_slippage_deviation: u64,
    pub target_chain_id: u64,
    pub hashlock: String,
    pub timelock: u64,
    pub secret: Option<String>,
    pub status: OrderStatus,
    pub created_at: u64,
    pub last_slippage_update: u64,
    pub fill_attempts: u64,
}

/// Mathematical model of an order: every text field as a character
/// sequence, everything else as its plain value.
pub ghost struct OrderModel {
    pub order_id: u64,
    pub maker: Seq<char>,
    pub token_in: Seq<char>,
    pub token_out: Seq<char>,
    pub amount_in: u128,
    pub base_price: u128,
    pub current_slippage: u64,
    pub max_slippage_deviation: u64,
    pub target_chain_id: u64,
    pub hashlock: Seq<char>,
    pub timelock: u64,
    pub secret: Option<Seq<char>>,
    pub status: OrderStatus,
    pub created_at: u64,
    pub last_slippage_update: u64,
    pub fill_attempts: u64,
}

impl View for CrossChainOrder {
    type V = OrderModel;

    open spec fn view(&self) -> OrderModel {
        OrderModel {
            order_id: self.order_id,
            maker: self.maker@,
            token_in: self.token_in@,
            token_out: self.token_out@,
            amount_in: self.amount_in,
            base_price: self.base_price,
            current_slippage: self.current_slippage,
            max_slippage_deviation: self.max_slippage_deviation,
            target_chain_id: self.target_chain_id,
            hashlock: self.hashlock@,
            timelock: self.timelock,
            secret: match self.secret {
                Some(s) => Some(s@),
                None => None,
            },
            status: self.status,
            created_at: self.created_at,
            last_slippage_update: self.last_slippage_update,
            fill_attempts: self.fill_attempts,
        }
    }
}

impl Clone for CrossChainOrder {
    fn clone(&self) -> (other: Self)
        ensures
            other == *self,
    {
        CrossChainOrder {
            order_id: self.order_id,
            maker: self.maker.clone(),
            token_in: self.token_in.clone(),
            token_out: self.token_out.clone(),
            amount_in: self.amount_in,
            base_price: self.base_price,
            current_slippage: self.current_slippage,
            max_slippage_deviation: self.max_slippage_deviation,
            target_chain_id: self.target_chain_id,
            hashlock: self.hashlock.clone(),
            timelock: self.timelock,
            secret: match &self.secret {
                Some(s) => Some(s.clone()),
                None => None,
            },
            status: self.status,
            created_at: self.created_at,
            last_slippage_update: self.last_slippage_update,
            fill_attempts: self.fill_attempts,
        }
    }
}

/// One append-only record of a slippage recomputation.
#[derive(Clone, Copy, Debug, PartialEq, Eq, Structural)]
pub struct SlippageHistory {
    pub timestamp: u64,
    pub slippage: u64,
    pub volatility_score: u64,
    pub cross_chain_delay: u64,
}

/// An outbound message for the bridge messenger, committed after the state
/// change it reports (commit-then-notify).
pub struct BridgeMessage {
    pub order_id: u64,
    pub target_contract: String,
    pub action: String,
    pub data: String,
}

/// Error kinds of the engine. Every failure aborts the operation with no
/// state change.
#[derive(Clone, Copy, Debug, PartialEq, Eq, Structural)]
pub enum OrderError {
    ZeroDeposit,
    InvalidDeviation,
    DuplicateHashlock,
    UnknownOrder,
    InvalidSecret,
    BadState,
    Expired,
    NotMaker,
    AttemptLimit,
    TooSoon,
}

} // verus!
