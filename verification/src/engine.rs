//! Order lifecycle engine and adaptive slippage controller.
//!
//! The engine owns the keyed store: orders by id (ids are dense, starting
//! at 1, so the vector index is the id less one), the per-maker id lists,
//! the hashlock index (parallel to the orders), and the per-order slippage
//! history. Outbound bridge messages are committed to `outbox` after the
//! state change they report (commit-then-notify); the host dispatches them.
//!
//! Every operation either succeeds, or returns an error kind and leaves the
//! whole state untouched. The host passes the call environment (caller,
//! attached deposit, block height, block timestamp) as plain values.

use vstd::prelude::*;
use crate::codec::enc_order;
use crate::codec::encode_order;
use crate::codec::encode_slippage_payload;
use crate::codec::slippage_payload;
use crate::hashlock::digest_of;
use crate::hashlock::generate_hashlock;
use crate::risk::calculate_cross_chain_slippage;
use crate::risk::calculate_volatility_score;
use crate::risk::estimate_bridge_delay;
use crate::risk::spec_bridge_delay;
use crate::risk::spec_cross_chain_slippage;
use crate::types::BridgeMessage;
use crate::types::CrossChainOrder;
use crate::types::OrderError;
use crate::types::OrderModel;
use crate::types::OrderStatus;
use crate::types::SlippageHistory;
use crate::types::is_terminal;

verus! {

/// Interval between slippage updates of one order: five minutes in
/// nanoseconds.
pub const SLIPPAGE_UPDATE_INTERVAL: u64 = 300_000_000_000;

/// Global policy cap on a single slippage change, in basis points.
pub const MAX_SLIPPAGE_CHANGE: u64 = 100;

/// Claims are rejected once an order's fill attempts reach this limit.
pub const FILL_ATTEMPT_LIMIT: u64 = 10;

/// Timelock duration in blocks (about 24 hours at 5-second blocks).
pub const DEFAULT_TIMELOCK_DURATION: u64 = 17280;

/// Some order in `orders` carries the hashlock `h`.
pub open spec fn has_hashlock(orders: Seq<CrossChainOrder>, h: Seq<char>) -> bool {
    exists|i: int| 0 <= i < orders.len() && orders[i].hashlock@ == h
}

/// The index of the order carrying the hashlock `h` (meaningful only when
/// `has_hashlock` holds; hashlocks are unique in a well-formed store).
pub open spec fn hashlock_ix(orders: Seq<CrossChainOrder>, h: Seq<char>) -> int {
    choose|i: int| 0 <= i < orders.len() && orders[i].hashlock@ == h
}

/// Some entry of the per-maker index is keyed by `u`.
pub open spec fn has_user(users: Seq<(String, Vec<u64>)>, u: Seq<char>) -> bool
    decreases users.len(),
{
    if users.len() == 0 {
        false
    } else if users[0].0@ == u {
        true
    } else {
        has_user(users.skip(1), u)
    }
}

/// The order ids recorded for maker `u`: the list of the first entry keyed
/// by `u`, or empty. Keys are unique in a well-formed store.
pub open spec fn user_ids(users: Seq<(String, Vec<u64>)>, u: Seq<char>) -> Seq<u64>
    decreases users.len(),
{
    if users.len() == 0 {
        Seq::<u64>::empty()
    } else if users[0].0@ == u {
        users[0].1@
    } else {
        user_ids(users.skip(1), u)
    }
}

/// The slippage that one update settles on: the proposal when it is within
/// the order's deviation limit of the current value, otherwise the current
/// value moved by the limit towards the proposal, saturating at zero.
pub open spec fn spec_clamped_slippage(current: u64, proposed: u64, max_dev: u64) -> u64 {
    if proposed >= current && proposed - current <= max_dev {
        proposed
    } else if current >= proposed && current - proposed <= max_dev {
        proposed
    } else if proposed > current {
        (current + max_dev) as u64
    } else if current > max_dev {
        (current - max_dev) as u64
    } else {
        0
    }
}

/// One clamped slippage step, executably: the proposal when it is within
/// `max_dev` of `current`, otherwise `current` moved by `max_dev` towards
/// the proposal, saturating at zero.
pub fn clamped_slippage(current: u64, proposed: u64, max_dev: u64) -> (clamped: u64)
    requires
        current + max_dev <= u64::MAX,
    ensures
        clamped == spec_clamped_slippage(current, proposed, max_dev),
        clamped >= current ==> clamped - current <= max_dev,
        clamped < current ==> current - clamped <= max_dev,
{
    let change = if proposed > current {
        proposed - current
    } else {
        current - proposed
    };
    if change > max_dev {
        if proposed > current {
            current + max_dev
        } else {
            if current > max_dev {
                current - max_dev
            } else {
                0
            }
        }
    } else {
        proposed
    }
}

/// The slippage update of an order is due at `now`.
pub open spec fn update_due(o: OrderModel, now: u64, interval: u64) -> bool {
    now >= o.last_slippage_update + interval
}

/// The cross-chain escrow engine: keyed store, configuration, and the
/// outbox of committed bridge messages.
pub struct AdaptiveCrossChain {
    pub orders: Vec<CrossChainOrder>,
    pub user_orders: Vec<(String, Vec<u64>)>,
    pub hashlock_to_order: Vec<(String, u64)>,
    pub slippage_history: Vec<Vec<SlippageHistory>>,
    pub next_order_id: u64,
    pub owner: String,
    pub ethereum_contract: String,
    pub bridge_contract: String,
    pub slippage_update_interval: u64,
    pub max_slippage_change: u64,
    pub fill_attempt_limit: u64,
    pub default_timelock_duration: u64,
    pub outbox: Vec<BridgeMessage>,
}

impl AdaptiveCrossChain {
    /// Ids are dense and start at 1: the order at index `i` has id `i + 1`,
    /// and the next id to assign is one past the count.
    pub open spec fn ids_contiguous(self) -> bool {
        &&& self.next_order_id == self.orders@.len() + 1
        &&& self.orders@.len() + 1 <= u64::MAX
        &&& forall|i: int|
            0 <= i < self.orders@.len() ==> (#[trigger] self.orders@[i]).order_id == i + 1
    }

    /// Per-order field bounds: slippage figures stay within the 10,000 bp
    /// ceiling, deposits are positive, attempts stay within the limit, an
    /// active order has no attempts yet, and the plaintext secret is never
    /// persisted.
    pub open spec fn orders_bounded(self) -> bool {
        &&& self.fill_attempt_limit >= 1
        &&& forall|i: int|
            0 <= i < self.orders@.len() ==> {
                let o = #[trigger] self.orders@[i];
                &&& o.current_slippage <= 10000
                &&& o.max_slippage_deviation <= 10000
                &&& o.amount_in > 0
                &&& o.fill_attempts <= self.fill_attempt_limit
                &&& (o.status == OrderStatus::Active ==> o.fill_attempts == 0)
                &&& o.secret is None
            }
    }

    /// The hashlock index is parallel to the orders and resolves each
    /// stored order's hashlock to that order's id.
    pub open spec fn hashlock_index_ok(self) -> bool {
        &&& self.hashlock_to_order@.len() == self.orders@.len()
        &&& forall|i: int|
            0 <= i < self.orders@.len() ==> (#[trigger] self.hashlock_to_order@[i]).0@
                == self.orders@[i].hashlock@ && self.hashlock_to_order@[i].1 == i + 1
    }

    /// Distinct orders carry distinct hashlocks.
    pub open spec fn hashlocks_unique(self) -> bool {
        forall|i: int, j: int|
            0 <= i < self.orders@.len() && 0 <= j < self.orders@.len() && i != j ==> (
            #[trigger] self.orders@[i]).hashlock@ != (#[trigger] self.orders@[j]).hashlock@
    }

    /// One history per order, never empty: the first entry is written at
    /// creation.
    pub open spec fn histories_ok(self) -> bool {
        &&& self.slippage_history@.len() == self.orders@.len()
        &&& forall|i: int|
            0 <= i < self.orders@.len() ==> (#[trigger] self.slippage_history@[i])@.len() >= 1
    }

    /// Every id in a per-maker list names a stored order of that maker, and
    /// the index has at most one entry per maker.
    pub open spec fn users_ok(self) -> bool {
        &&& forall|k: int, m: int|
            0 <= k < self.user_orders@.len() && 0 <= m < self.user_orders@[k].1@.len() ==> {
                let id = #[trigger] self.user_orders@[k].1@[m];
                &&& 1 <= id <= self.orders@.len()
                &&& self.orders@[id - 1].maker@ == self.user_orders@[k].0@
            }
        &&& forall|k1: int, k2: int|
            0 <= k1 < self.user_orders@.len() && 0 <= k2 < self.user_orders@.len() && k1 != k2
                ==> (#[trigger] self.user_orders@[k1]).0@ != (
            #[trigger] self.user_orders@[k2]).0@
    }

    /// The per-maker index is complete: every stored order's id is
    /// recorded in its maker's list, and each list is strictly increasing,
    /// so an id appears at most once and the lists read in creation order.
    pub open spec fn users_complete(self) -> bool {
        &&& forall|i: int|
            0 <= i < self.orders@.len() ==> user_ids(
                self.user_orders@,
                (#[trigger] self.orders@[i]).maker@,
            ).contains((i + 1) as u64)
        &&& forall|k: int, m1: int, m2: int|
            0 <= k < self.user_orders@.len() && 0 <= m1 < m2
                < self.user_orders@[k].1@.len() ==> (
            #[trigger] self.user_orders@[k].1@[m1]) < (#[trigger] self.user_orders@[k].1@[m2])
    }

    /// Every completed order's hashlock is the digest of some secret: a
    /// claim only ever succeeds on a revealed preimage.
    pub open spec fn completed_witnessed(self) -> bool {
        forall|i: int|
            0 <= i < self.orders@.len() && (#[trigger] self.orders@[i]).status
                == OrderStatus::Completed ==> exists|s: Seq<char>|
                #[trigger] digest_of(s) == self.orders@[i].hashlock@
    }

    /// The store invariant, established by `new` and preserved by every
    /// operation.
    pub open spec fn well_formed(self) -> bool {
        &&& self.ids_contiguous()
        &&& self.orders_bounded()
        &&& self.hashlock_index_ok()
        &&& self.hashlocks_unique()
        &&& self.histories_ok()
        &&& self.users_ok()
        &&& self.users_complete()
        &&& self.completed_witnessed()
    }

    /// Configuration and ownership fields are identical in `self` and
    /// `other`.
    pub open spec fn same_config(self, other: Self) -> bool {
        &&& other.owner == self.owner
        &&& other.ethereum_contract == self.ethereum_contract
        &&& other.bridge_contract == self.bridge_contract
        &&& other.slippage_update_interval == self.slippage_update_interval
        &&& other.max_slippage_change == self.max_slippage_change
        &&& other.fill_attempt_limit == self.fill_attempt_limit
        &&& other.default_timelock_duration == self.default_timelock_duration
    }

    /// `post` differs from `pre` in at most the order at `i` (and in
    /// nothing else but possibly the outbox): the id counter, both indexes,
    /// the histories and the configuration are untouched, and every other
    /// order — in particular every order in a terminal state — is
    /// unchanged.
    pub open spec fn only_order_changed(pre: Self, post: Self, i: int) -> bool {
        &&& pre.same_config(post)
        &&& post.next_order_id == pre.next_order_id
        &&& post.user_orders == pre.user_orders
        &&& post.hashlock_to_order == pre.hashlock_to_order
        &&& post.slippage_history == pre.slippage_history
        &&& post.orders@.len() == pre.orders@.len()
        &&& forall|j: int|
            0 <= j < pre.orders@.len() && j != i ==> post.orders@[j] == pre.orders@[j]
    }

    /// One message was appended to the outbox, which is otherwise
    /// unchanged.
    pub open spec fn outbox_appended(pre: Self, post: Self) -> bool {
        &&& post.outbox@.len() == pre.outbox@.len() + 1
        &&& forall|j: int| 0 <= j < pre.outbox@.len() ==> post.outbox@[j] == pre.outbox@[j]
    }

    /// A fresh engine: empty store, id counter at 1, default protocol
    /// parameters.
    pub fn new(ethereum_contract: String, bridge_contract: String, owner: String) -> (engine:
        Self)
        ensures
            engine.well_formed(),
            engine.orders@.len() == 0,
            engine.user_orders@.len() == 0,
            engine.hashlock_to_order@.len() == 0,
            engine.slippage_history@.len() == 0,
            engine.outbox@.len() == 0,
            engine.next_order_id == 1,
            engine.owner == owner,
            engine.ethereum_contract == ethereum_contract,
            engine.bridge_contract == bridge_contract,
            engine.slippage_update_interval == SLIPPAGE_UPDATE_INTERVAL,
            engine.max_slippage_change == MAX_SLIPPAGE_CHANGE,
            engine.fill_attempt_limit == FILL_ATTEMPT_LIMIT,
            engine.default_timelock_duration == DEFAULT_TIMELOCK_DURATION,
    {
        AdaptiveCrossChain {
            orders: Vec::new(),
            user_orders: Vec::new(),
            hashlock_to_order: Vec::new(),
            slippage_history: Vec::new(),
            next_order_id: 1,
            owner,
            ethereum_contract,
            bridge_contract,
            slippage_update_interval: SLIPPAGE_UPDATE_INTERVAL,
            max_slippage_change: MAX_SLIPPAGE_CHANGE,
            fill_attempt_limit: FILL_ATTEMPT_LIMIT,
            default_timelock_duration: DEFAULT_TIMELOCK_DURATION,
            outbox: Vec::new(),
        }
    }

    /// Commits an outbound message for the bridge messenger.
    pub(crate) fn send_bridge_message(&mut self, message: BridgeMessage)
        ensures
            final(self).outbox@ == old(self).outbox@.push(message),
            final(self).orders == old(self).orders,
            final(self).user_orders == old(self).user_orders,
            final(self).hashlock_to_order == old(self).hashlock_to_order,
            final(self).slippage_history == old(self).slippage_history,
            final(self).next_order_id == old(self).next_order_id,
            old(self).same_config(*final(self)),
    {
        self.outbox.push(message);
    }

    /// The index of the hashlock-index entry whose key is `h`, if any; the
    /// scan reports the first match, and in a well-formed store there is at
    /// most one.
    fn find_hashlock(&self, h: &String) -> (found: Option<usize>)
        ensures
            match found {
                Some(k) => k < self.hashlock_to_order@.len() && self.hashlock_to_order@[
                    k as int].0@ == h@ && (forall|j: int|
                    0 <= j < k ==> (#[trigger] self.hashlock_to_order@[j]).0@ != h@),
                None => forall|j: int|
                    0 <= j < self.hashlock_to_order@.len() ==> (
                    #[trigger] self.hashlock_to_order@[j]).0@ != h@,
            },
    {
        let n = self.hashlock_to_order.len();
        let mut k: usize = 0;
        while k < n
            invariant
                n == self.hashlock_to_order@.len(),
                k <= n,
                forall|j: int|
                    0 <= j < k ==> (#[trigger] self.hashlock_to_order@[j]).0@ != h@,
            decreases n - k,
        {
            if self.hashlock_to_order[k].0 == *h {
                return Some(k);
            }
            k = k + 1;
        }
        None
    }

    /// The stored order with the given id, if any.
    pub fn get_order(&self, order_id: u64) -> (order: Option<CrossChainOrder>)
        requires
            self.well_formed(),
        ensures
            match order {
                Some(o) => 1 <= order_id <= self.orders@.len() && o == self.orders@[order_id
                    - 1],
                None => order_id == 0 || order_id > self.orders@.len(),
            },
    {
        if order_id == 0 {
            return None;
        }
        let n = self.orders.len();
        if order_id > n as u64 {
            return None;
        }
        let idx: usize = (order_id - 1) as usize;
        Some(self.orders[idx].clone())
    }

    /// The ids of the orders created by `user`, in creation order. In a
    /// well-formed store the recorded list is exact — every order of this
    /// maker, each id once, strictly increasing: see
    /// `lemma_user_index_exact`.
    pub fn get_user_orders(&self, user: &String) -> (ids: Vec<u64>)
        ensures
            ids@ == user_ids(self.user_orders@, user@),
    {
        let n = self.user_orders.len();
        let mut k: usize = 0;
        while k < n
            invariant
                n == self.user_orders@.len(),
                k <= n,
                forall|j: int| 0 <= j < k ==> (#[trigger] self.user_orders@[j]).0@ != user@,
            decreases n - k,
        {
            if self.user_orders[k].0 == *user {
                let ids = copy_ids(&self.user_orders[k].1);
                proof {
                    lemma_user_ids_first_match(self.user_orders@, user@, k as int);
                }
                return ids;
            }
            k = k + 1;
        }
        proof {
            lemma_user_ids_no_match(self.user_orders@, user@);
        }
        Vec::new()
    }

    /// Claims the escrow of the order committed to `hashlock` by revealing
    /// its preimage. The order must be locked, not yet expired, and within
    /// the attempt limit; on success it completes and the returned amount
    /// is owed to the caller.
    pub fn claim_with_secret(&mut self, block_height: u64, hashlock: String, secret: String) -> (
        result: Result<u128, OrderError>)
        requires
            old(self).well_formed(),
        ensures
            final(self).well_formed(),
            result is Err ==> *final(self) == *old(self),
            digest_of(secret@) != hashlock@ ==> result == Err::<u128, OrderError>(
                OrderError::InvalidSecret,
            ),
            digest_of(secret@) == hashlock@ && !has_hashlock(old(self).orders@, hashlock@)
                ==> result == Err::<u128, OrderError>(OrderError::UnknownOrder),
            digest_of(secret@) == hashlock@ && has_hashlock(old(self).orders@, hashlock@) ==> ({
                let i = hashlock_ix(old(self).orders@, hashlock@);
                let o = old(self).orders@[i];
                &&& (o.status != OrderStatus::Locked ==> result == Err::<u128, OrderError>(
                    OrderError::BadState,
                ))
                &&& (o.status == OrderStatus::Locked && block_height >= o.timelock ==> result
                    == Err::<u128, OrderError>(OrderError::Expired))
                &&& (o.status == OrderStatus::Locked && block_height < o.timelock
                    && o.fill_attempts >= old(self).fill_attempt_limit ==> result == Err::<
                    u128,
                    OrderError,
                >(OrderError::AttemptLimit))
                &&& (o.status == OrderStatus::Locked && block_height < o.timelock
                    && o.fill_attempts < old(self).fill_attempt_limit ==> {
                    &&& result == Ok::<u128, OrderError>(o.amount_in)
                    &&& Self::only_order_changed(*old(self), *final(self), i)
                    &&& final(self).outbox == old(self).outbox
                    &&& final(self).orders@[i]@ == (OrderModel {
                        status: OrderStatus::Completed,
                        fill_attempts: (o.fill_attempts + 1) as u64,
                        ..o@
                    })
                })
            }),
    {
        let computed = generate_hashlock(secret.as_str());
        if !(computed == hashlock) {
            return Err(OrderError::InvalidSecret);
        }
        match self.find_hashlock(&hashlock) {
            None => {
                proof {
                    assert forall|i: int|
                        0 <= i < self.orders@.len() implies (
                    #[trigger] self.orders@[i]).hashlock@ != hashlock@ by {
                        assert(self.hashlock_to_order@[i].0@ == self.orders@[i].hashlock@);
                        assert(self.hashlock_to_order@[i].0@ != hashlock@);
                    }
                }
                Err(OrderError::UnknownOrder)
            },
            Some(k) => {
                proof {
                    assert(self.orders@[k as int].hashlock@ == hashlock@);
                    assert(has_hashlock(self.orders@, hashlock@));
                    let i = hashlock_ix(self.orders@, hashlock@);
                    assert(0 <= i < self.orders@.len() && self.orders@[i].hashlock@
                        == hashlock@);
                    assert(i == k as int);
                }
                if !(matches!(self.orders[k].status, OrderStatus::Locked)) {
                    return Err(OrderError::BadState);
                }
                if block_height >= self.orders[k].timelock {
                    return Err(OrderError::Expired);
                }
                if self.orders[k].fill_attempts >= self.fill_attempt_limit {
                    return Err(OrderError::AttemptLimit);
                }
                let amount = self.orders[k].amount_in;
                let mut o = self.orders[k].clone();
                o.status = OrderStatus::Completed;
                o.fill_attempts = o.fill_attempts + 1;
                self.orders[k] = o;
                proof {
                    assert(digest_of(secret@) == self.orders@[k as int].hashlock@);
                    assert(self.well_formed());
                }
                Ok(amount)
            },
        }
    }

    /// Records the counterparty lock reported by the bridge: the order
    /// moves from `Active` to `Locked` and one fill attempt is counted.
    pub fn lock_order(&mut self, block_height: u64, order_id: u64) -> (result: Result<
        (),
        OrderError,
    >)
        requires
            old(self).well_formed(),
        ensures
            final(self).well_formed(),
            result is Err ==> *final(self) == *old(self),
            order_id == 0 || order_id > old(self).orders@.len() ==> result == Err::<
                (),
                OrderError,
            >(OrderError::UnknownOrder),
            1 <= order_id <= old(self).orders@.len() ==> ({
                let o = old(self).orders@[order_id - 1];
                &&& (o.status != OrderStatus::Active ==> result == Err::<(), OrderError>(
                    OrderError::BadState,
                ))
                &&& (o.status == OrderStatus::Active && block_height >= o.timelock ==> result
                    == Err::<(), OrderError>(OrderError::Expired))
                &&& (o.status == OrderStatus::Active && block_height < o.timelock ==> {
                    &&& result == Ok::<(), OrderError>(())
                    &&& Self::only_order_changed(*old(self), *final(self), order_id - 1)
                    &&& final(self).outbox == old(self).outbox
                    &&& final(self).orders@[order_id - 1]@ == (OrderModel {
                        status: OrderStatus::Locked,
                        fill_attempts: (o.fill_attempts + 1) as u64,
                        ..o@
                    })
                })
            }),
    {
        if order_id == 0 || order_id > self.orders.len() as u64 {
            return Err(OrderError::UnknownOrder);
        }
        let idx: usize = (order_id - 1) as usize;
        if !(matches!(self.orders[idx].status, OrderStatus::Active)) {
            return Err(OrderError::BadState);
        }
        if block_height >= self.orders[idx].timelock {
            return Err(OrderError::Expired);
        }
        let mut o = self.orders[idx].clone();
        o.status = OrderStatus::Locked;
        o.fill_attempts = o.fill_attempts + 1;
        self.orders[idx] = o;
        Ok(())
    }

    /// Cancels an active, unexpired order at its maker's request; the
    /// returned amount is owed back to the maker, and a `cancel` message is
    /// committed for the bridge.
    pub fn cancel_order(&mut self, caller: &String, block_height: u64, order_id: u64) -> (result:
        Result<u128, OrderError>)
        requires
            old(self).well_formed(),
        ensures
            final(self).well_formed(),
            result is Err ==> *final(self) == *old(self),
            order_id == 0 || order_id > old(self).orders@.len() ==> result == Err::<
                u128,
                OrderError,
            >(OrderError::UnknownOrder),
            1 <= order_id <= old(self).orders@.len() ==> ({
                let o = old(self).orders@[order_id - 1];
                &&& (caller@ != o.maker@ ==> result == Err::<u128, OrderError>(
                    OrderError::NotMaker,
                ))
                &&& (caller@ == o.maker@ && o.status != OrderStatus::Active ==> result == Err::<
                    u128,
                    OrderError,
                >(OrderError::BadState))
                &&& (caller@ == o.maker@ && o.status == OrderStatus::Active && block_height
                    >= o.timelock ==> result == Err::<u128, OrderError>(OrderError::BadState))
                &&& (caller@ == o.maker@ && o.status == OrderStatus::Active && block_height
                    < o.timelock ==> {
                    &&& result == Ok::<u128, OrderError>(o.amount_in)
                    &&& Self::only_order_changed(*old(self), *final(self), order_id - 1)
                    &&& Self::outbox_appended(*old(self), *final(self))
                    &&& final(self).orders@[order_id - 1]@ == (OrderModel {
                        status: OrderStatus::Cancelled,
                        ..o@
                    })
                    &&& ({
                        let m = final(self).outbox@.last();
                        &&& m.order_id == order_id
                        &&& m.target_contract@ == old(self).ethereum_contract@
                        &&& m.action@ == "cancel"@
                        &&& m.data@ == Seq::<char>::empty()
                    })
                })
            }),
    {
        if order_id == 0 || order_id > self.orders.len() as u64 {
            return Err(OrderError::UnknownOrder);
        }
        let idx: usize = (order_id - 1) as usize;
        if !(self.orders[idx].maker == *caller) {
            return Err(OrderError::NotMaker);
        }
        if !(matches!(self.orders[idx].status, OrderStatus::Active)) {
            return Err(OrderError::BadState);
        }
        if block_height >= self.orders[idx].timelock {
            return Err(OrderError::BadState);
        }
        let amount = self.orders[idx].amount_in;
        let mut o = self.orders[idx].clone();
        o.status = OrderStatus::Cancelled;
        self.orders[idx] = o;
        let target = self.ethereum_contract.clone();
        self.send_bridge_message(
            BridgeMessage {
                order_id,
                target_contract: target,
                action: String::from_str("cancel"),
                data: String::new(),
            },
        );
        Ok(amount)
    }

    /// Expires an order whose timelock has passed: anyone may call it; the
    /// order must be `Active` or `Locked`, and the returned amount is owed
    /// back to the maker.
    pub fn expire_order(&mut self, block_height: u64, order_id: u64) -> (result: Result<
        u128,
        OrderError,
    >)
        requires
            old(self).well_formed(),
        ensures
            final(self).well_formed(),
            result is Err ==> *final(self) == *old(self),
            order_id == 0 || order_id > old(self).orders@.len() ==> result == Err::<
                u128,
                OrderError,
            >(OrderError::UnknownOrder),
            1 <= order_id <= old(self).orders@.len() ==> ({
                let o = old(self).orders@[order_id - 1];
                &&& (o.status != OrderStatus::Active && o.status != OrderStatus::Locked
                    ==> result == Err::<u128, OrderError>(OrderError::BadState))
                &&& ((o.status == OrderStatus::Active || o.status == OrderStatus::Locked)
                    && block_height < o.timelock ==> result == Err::<u128, OrderError>(
                    OrderError::BadState,
                ))
                &&& ((o.status == OrderStatus::Active || o.status == OrderStatus::Locked)
                    && block_height >= o.timelock ==> {
                    &&& result == Ok::<u128, OrderError>(o.amount_in)
                    &&& Self::only_order_changed(*old(self), *final(self), order_id - 1)
                    &&& final(self).outbox == old(self).outbox
                    &&& final(self).orders@[order_id - 1]@ == (OrderModel {
                        status: OrderStatus::Expired,
                        ..o@
                    })
                })
            }),
    {
        if order_id == 0 || order_id > self.orders.len() as u64 {
            return Err(OrderError::UnknownOrder);
        }
        let idx: usize = (order_id - 1) as usize;
        let is_active = matches!(self.orders[idx].status, OrderStatus::Active);
        let is_locked = matches!(self.orders[idx].status, OrderStatus::Locked);
        if !is_active && !is_locked {
            return Err(OrderError::BadState);
        }
        if block_height < self.orders[idx].timelock {
            return Err(OrderError::BadState);
        }
        let amount = self.orders[idx].amount_in;
        let mut o = self.orders[idx].clone();
        o.status = OrderStatus::Expired;
        self.orders[idx] = o;
        Ok(amount)
    }

    /// The full effect of one successful slippage update of order
    /// `order_id` at time `now`: the order's slippage becomes the clamped
    /// recomputation and its update time becomes `now`; one history entry
    /// and one bridge message are appended; nothing else changes.
    pub open spec fn slippage_updated(pre: Self, post: Self, order_id: u64, now: u64) -> bool {
        let i = order_id - 1;
        let o = pre.orders@[i];
        let fin = spec_clamped_slippage(
            o.current_slippage,
            spec_cross_chain_slippage(o.amount_in, o.target_chain_id),
            o.max_slippage_deviation,
        );
        &&& 1 <= order_id <= pre.orders@.len()
        &&& pre.same_config(post)
        &&& post.next_order_id == pre.next_order_id
        &&& post.user_orders == pre.user_orders
        &&& post.hashlock_to_order == pre.hashlock_to_order
        &&& post.orders@.len() == pre.orders@.len()
        &&& (forall|j: int|
            0 <= j < pre.orders@.len() && j != i ==> post.orders@[j] == pre.orders@[j])
        &&& post.orders@[i]@ == (OrderModel {
            current_slippage: fin,
            last_slippage_update: now,
            ..o@
        })
        &&& post.slippage_history@.len() == pre.slippage_history@.len()
        &&& (forall|j: int|
            0 <= j < pre.slippage_history@.len() && j != i ==> post.slippage_history@[j]
                == pre.slippage_history@[j])
        &&& post.slippage_history@[i]@ == pre.slippage_history@[i]@.push(
            SlippageHistory {
                timestamp: now,
                slippage: fin,
                volatility_score: 100,
                cross_chain_delay: spec_bridge_delay(o.target_chain_id),
            },
        )
        &&& Self::outbox_appended(pre, post)
        &&& ({
            let m = post.outbox@.last();
            &&& m.order_id == order_id
            &&& m.target_contract@ == pre.ethereum_contract@
            &&& m.action@ == "update_slippage"@
            &&& m.data@ == slippage_payload(fin)
        })
    }

    /// Recomputes the slippage of an active order, no earlier than one
    /// interval after its previous update. The change is clamped to the
    /// order's deviation limit and saturates at zero; the outcome is
    /// recorded in the history and reported to the bridge.
    pub fn update_order_slippage(&mut self, now: u64, order_id: u64) -> (result: Result<
        (),
        OrderError,
    >)
        requires
            old(self).well_formed(),
        ensures
            final(self).well_formed(),
            result is Err ==> *final(self) == *old(self),
            order_id == 0 || order_id > old(self).orders@.len() ==> result == Err::<
                (),
                OrderError,
            >(OrderError::UnknownOrder),
            1 <= order_id <= old(self).orders@.len() ==> ({
                let o = old(self).orders@[order_id - 1];
                &&& (o.status != OrderStatus::Active ==> result == Err::<(), OrderError>(
                    OrderError::BadState,
                ))
                &&& (o.status == OrderStatus::Active && !update_due(
                    o@,
                    now,
                    old(self).slippage_update_interval,
                ) ==> result == Err::<(), OrderError>(OrderError::TooSoon))
                &&& (o.status == OrderStatus::Active && update_due(
                    o@,
                    now,
                    old(self).slippage_update_interval,
                ) ==> {
                    &&& result == Ok::<(), OrderError>(())
                    &&& Self::slippage_updated(*old(self), *final(self), order_id, now)
                    &&& final(self).orders@[order_id - 1].last_slippage_update
                        >= o.last_slippage_update
                    &&& ({
                        let fin = final(self).orders@[order_id - 1].current_slippage;
                        &&& (fin >= o.current_slippage ==> fin - o.current_slippage
                            <= o.max_slippage_deviation)
                        &&& (fin < o.current_slippage ==> o.current_slippage - fin
                            <= o.max_slippage_deviation)
                    })
                })
            }),
    {
        if order_id == 0 || order_id > self.orders.len() as u64 {
            return Err(OrderError::UnknownOrder);
        }
        let idx: usize = (order_id - 1) as usize;
        if !(matches!(self.orders[idx].status, OrderStatus::Active)) {
            return Err(OrderError::BadState);
        }
        let gate = self.orders[idx].last_slippage_update.checked_add(
            self.slippage_update_interval,
        );
        let due = match gate {
            Some(t) => now >= t,
            None => false,
        };
        if !due {
            return Err(OrderError::TooSoon);
        }
        let proposed = calculate_cross_chain_slippage(
            self.orders[idx].token_in.as_str(),
            self.orders[idx].token_out.as_str(),
            self.orders[idx].amount_in,
            self.orders[idx].target_chain_id,
        );
        let current = self.orders[idx].current_slippage;
        let max_dev = self.orders[idx].max_slippage_deviation;
        let fin = clamped_slippage(current, proposed, max_dev);
        let volatility = calculate_volatility_score(self.orders[idx].token_out.as_str());
        let delay = estimate_bridge_delay(self.orders[idx].target_chain_id);
        let mut o = self.orders[idx].clone();
        o.current_slippage = fin;
        o.last_slippage_update = now;
        self.orders[idx] = o;
        self.slippage_history[idx].push(
            SlippageHistory {
                timestamp: now,
                slippage: fin,
                volatility_score: volatility,
                cross_chain_delay: delay,
            },
        );
        let data = encode_slippage_payload(fin);
        let target = self.ethereum_contract.clone();
        self.send_bridge_message(
            BridgeMessage {
                order_id,
                target_contract: target,
                action: String::from_str("update_slippage"),
                data,
            },
        );
        Ok(())
    }

    /// The order model that a creation call with these inputs builds.
    pub open spec fn created_order_model(
        pre: Self,
        maker: Seq<char>,
        deposit: u128,
        block_height: u64,
        now: u64,
        token_out: Seq<char>,
        base_price: u128,
        max_slippage_deviation: u64,
        target_chain_id: u64,
        secret: Seq<char>,
    ) -> OrderModel {
        OrderModel {
            order_id: pre.next_order_id,
            maker: maker,
            token_in: "near"@,
            token_out: token_out,
            amount_in: deposit,
            base_price: base_price,
            current_slippage: spec_cross_chain_slippage(deposit, target_chain_id),
            max_slippage_deviation: max_slippage_deviation,
            target_chain_id: target_chain_id,
            hashlock: digest_of(secret),
            timelock: (block_height + pre.default_timelock_duration) as u64,
            secret: None,
            status: OrderStatus::Active,
            created_at: now,
            last_slippage_update: now,
            fill_attempts: 0,
        }
    }

    /// The full effect of one successful creation: the new order is
    /// appended with the next id, indexed by maker and hashlock, its
    /// history opens with one entry, and a `create_order` message carrying
    /// the encoded order is committed; nothing else changes.
    pub open spec fn order_created(
        pre: Self,
        post: Self,
        maker: Seq<char>,
        deposit: u128,
        block_height: u64,
        now: u64,
        token_out: Seq<char>,
        base_price: u128,
        max_slippage_deviation: u64,
        target_chain_id: u64,
        secret: Seq<char>,
    ) -> bool {
        let id = pre.next_order_id;
        let model = Self::created_order_model(
            pre,
            maker,
            deposit,
            block_height,
            now,
            token_out,
            base_price,
            max_slippage_deviation,
            target_chain_id,
            secret,
        );
        &&& pre.same_config(post)
        &&& post.next_order_id == pre.next_order_id + 1
        &&& post.orders@.len() == pre.orders@.len() + 1
        &&& (forall|j: int| 0 <= j < pre.orders@.len() ==> post.orders@[j] == pre.orders@[j])
        &&& post.orders@.last()@ == model
        &&& post.hashlock_to_order@.len() == pre.hashlock_to_order@.len() + 1
        &&& (forall|j: int|
            0 <= j < pre.hashlock_to_order@.len() ==> post.hashlock_to_order@[j]
                == pre.hashlock_to_order@[j])
        &&& post.hashlock_to_order@.last().0@ == digest_of(secret)
        &&& post.hashlock_to_order@.last().1 == id
        &&& post.slippage_history@.len() == pre.slippage_history@.len() + 1
        &&& (forall|j: int|
            0 <= j < pre.slippage_history@.len() ==> post.slippage_history@[j]
                == pre.slippage_history@[j])
        &&& post.slippage_history@.last()@ == seq![
            SlippageHistory {
                timestamp: now,
                slippage: spec_cross_chain_slippage(deposit, target_chain_id),
                volatility_score: 0,
                cross_chain_delay: 900,
            },
        ]
        &&& user_ids(post.user_orders@, maker) == user_ids(pre.user_orders@, maker).push(id)
        &&& (forall|u: Seq<char>|
            u != maker ==> #[trigger] user_ids(post.user_orders@, u) == user_ids(
                pre.user_orders@,
                u,
            ))
        &&& Self::outbox_appended(pre, post)
        &&& ({
            let m = post.outbox@.last();
            &&& m.order_id == id
            &&& m.target_contract@ == pre.ethereum_contract@
            &&& m.action@ == "create_order"@
            &&& m.data@ == enc_order(model)
        })
    }

    /// Creates an order from a value-bearing call: derives the hashlock
    /// from the secret (which is not persisted), computes the initial
    /// slippage from the risk model, sets the timelock, stores and indexes
    /// the order, opens its history, and commits a `create_order` bridge
    /// message. Returns the new order's id.
    pub fn create_cross_chain_order(
        &mut self,
        maker: String,
        deposit: u128,
        block_height: u64,
        now: u64,
        token_out: String,
        base_price: u128,
        max_slippage_deviation: u64,
        target_chain_id: u64,
        secret: String,
    ) -> (result: Result<u64, OrderError>)
        requires
            old(self).well_formed(),
            old(self).next_order_id < u64::MAX,
            block_height + old(self).default_timelock_duration <= u64::MAX,
        ensures
            final(self).well_formed(),
            result is Err ==> *final(self) == *old(self),
            deposit == 0 ==> result == Err::<u64, OrderError>(OrderError::ZeroDeposit),
            deposit > 0 && max_slippage_deviation > 10000 ==> result == Err::<u64, OrderError>(
                OrderError::InvalidDeviation,
            ),
            deposit > 0 && max_slippage_deviation <= 10000 && has_hashlock(
                old(self).orders@,
                digest_of(secret@),
            ) ==> result == Err::<u64, OrderError>(OrderError::DuplicateHashlock),
            deposit > 0 && max_slippage_deviation <= 10000 && !has_hashlock(
                old(self).orders@,
                digest_of(secret@),
            ) ==> result == Ok::<u64, OrderError>(old(self).next_order_id)
                && Self::order_created(
                *old(self),
                *final(self),
                maker@,
                deposit,
                block_height,
                now,
                token_out@,
                base_price,
                max_slippage_deviation,
                target_chain_id,
                secret@,
            ),
    {
        if deposit == 0 {
            return Err(OrderError::ZeroDeposit);
        }
        if max_slippage_deviation > 10000 {
            return Err(OrderError::InvalidDeviation);
        }
        let hashlock = generate_hashlock(secret.as_str());
        match self.find_hashlock(&hashlock) {
            Some(k) => {
                proof {
                    assert(self.orders@[k as int].hashlock@ == digest_of(secret@));
                    assert(has_hashlock(self.orders@, digest_of(secret@)));
                }
                return Err(OrderError::DuplicateHashlock);
            },
            None => {
                proof {
                    assert forall|i: int|
                        0 <= i < self.orders@.len() implies (
                    #[trigger] self.orders@[i]).hashlock@ != digest_of(secret@) by {
                        assert(self.hashlock_to_order@[i].0@ == self.orders@[i].hashlock@);
                        assert(self.hashlock_to_order@[i].0@ != hashlock@);
                    }
                }
            },
        }
        let order_id = self.next_order_id;
        self.next_order_id = self.next_order_id + 1;
        let initial_slippage = calculate_cross_chain_slippage(
            "near",
            token_out.as_str(),
            deposit,
            target_chain_id,
        );
        let timelock = block_height + self.default_timelock_duration;
        let hashlock_key = hashlock.clone();
        let order = CrossChainOrder {
            order_id,
            maker: maker.clone(),
            token_in: String::from_str("near"),
            token_out,
            amount_in: deposit,
            base_price,
            current_slippage: initial_slippage,
            max_slippage_deviation,
            target_chain_id,
            hashlock,
            timelock,
            secret: None,
            status: OrderStatus::Active,
            created_at: now,
            last_slippage_update: now,
            fill_attempts: 0,
        };
        let data = encode_order(&order);
        self.orders.push(order);
        self.hashlock_to_order.push((hashlock_key, order_id));
        let mut first_entry: Vec<SlippageHistory> = Vec::new();
        first_entry.push(
            SlippageHistory {
                timestamp: now,
                slippage: initial_slippage,
                volatility_score: 0,
                cross_chain_delay: 900,
            },
        );
        self.slippage_history.push(first_entry);
        self.record_user_order(&maker, order_id);
        let target = self.ethereum_contract.clone();
        self.send_bridge_message(
            BridgeMessage {
                order_id,
                target_contract: target,
                action: String::from_str("create_order"),
                data,
            },
        );
        Ok(order_id)
    }

    /// Appends `order_id` to the maker's id list, creating the list on the
    /// maker's first order. Touches only the per-maker index.
    #[verifier::loop_isolation(false)]
    fn record_user_order(&mut self, maker: &String, order_id: u64)
        requires
            forall|k1: int, k2: int|
                0 <= k1 < old(self).user_orders@.len() && 0 <= k2 < old(self).user_orders@.len() && k1 != k2 ==> (#[trigger] old(self).user_orders@[k1]).0@
                    != (#[trigger] old(self).user_orders@[k2]).0@,
            forall|k: int, m: int|
                0 <= k < old(self).user_orders@.len() && 0 <= m < old(self).user_orders@[k].1@.len()
                    ==> (#[trigger] old(self).user_orders@[k].1@[m]) < order_id,
            forall|k: int, m1: int, m2: int|
                0 <= k < old(self).user_orders@.len() && 0 <= m1 < m2 < old(self).user_orders@[k].1@.len()
                    ==> (#[trigger] old(self).user_orders@[k].1@[m1]) < (#[trigger] old(self).user_orders@[k].1@[m2]),
        ensures
            *final(self) == (AdaptiveCrossChain {
                user_orders: final(self).user_orders,
                ..*old(self)
            }),
            user_ids(final(self).user_orders@, maker@) == user_ids(
                old(self).user_orders@,
                maker@,
            ).push(order_id),
            forall|u: Seq<char>|
                u != maker@ ==> #[trigger] user_ids(final(self).user_orders@, u) == user_ids(
                    old(self).user_orders@,
                    u,
                ),
            final(self).user_orders@.len() >= old(self).user_orders@.len(),
            forall|k: int, m: int|
                0 <= k < final(self).user_orders@.len() && 0 <= m < final(self).user_orders@[k].1@.len() ==> ({
                    let id = #[trigger] final(self).user_orders@[k].1@[m];
                    let key = final(self).user_orders@[k].0@;
                    (exists|k0: int, m0: int|
                        0 <= k0 < old(self).user_orders@.len() && 0 <= m0 < old(self).user_orders@[k0].1@.len() && old(self).user_orders@[k0].1@[m0] == id
                            && old(self).user_orders@[k0].0@ == key) || (id == order_id && key
                        == maker@)
                }),
            forall|k1: int, k2: int|
                0 <= k1 < final(self).user_orders@.len() && 0 <= k2 < final(self).user_orders@.len() && k1 != k2 ==> (#[trigger] final(self).user_orders@[k1]).0@
                    != (#[trigger] final(self).user_orders@[k2]).0@,
            forall|k: int, m1: int, m2: int|
                0 <= k < final(self).user_orders@.len() && 0 <= m1 < m2 < final(self).user_orders@[k].1@.len()
                    ==> (#[trigger] final(self).user_orders@[k].1@[m1]) < (#[trigger] final(self).user_orders@[k].1@[m2]),
            forall|u: Seq<char>, x: u64|
                #[trigger] user_ids(old(self).user_orders@, u).contains(x) ==> user_ids(
                    final(self).user_orders@,
                    u,
                ).contains(x),
            user_ids(final(self).user_orders@, maker@).contains(order_id),
    {
        let ghost pre_users = self.user_orders@;
        let n = self.user_orders.len();
        let mut k: usize = 0;
        while k < n
            invariant
                *self == *old(self),
                pre_users == old(self).user_orders@,
                n == self.user_orders@.len(),
                k <= n,
                forall|j: int| 0 <= j < k ==> (#[trigger] self.user_orders@[j]).0@ != maker@,
            decreases n - k,
        {
            if self.user_orders[k].0 == *maker {
                let mut ids = copy_ids(&self.user_orders[k].1);
                ids.push(order_id);
                let key = self.user_orders[k].0.clone();
                self.user_orders[k] = (key, ids);
                proof {
                    lemma_user_ids_first_match(pre_users, maker@, k as int);
                    lemma_user_ids_first_match(self.user_orders@, maker@, k as int);
                    assert(user_ids(self.user_orders@, maker@) =~= user_ids(
                        pre_users,
                        maker@,
                    ).push(order_id));
                    assert forall|u: Seq<char>|
                        u != maker@ implies #[trigger] user_ids(self.user_orders@, u)
                        == user_ids(pre_users, u) by {
                        lemma_user_ids_update(pre_users, self.user_orders@, k as int, u);
                    }
                    assert forall|k1: int, k2: int|
                        0 <= k1 < self.user_orders@.len() && 0 <= k2
                            < self.user_orders@.len() && k1 != k2 implies (
                    #[trigger] self.user_orders@[k1]).0@ != (
                    #[trigger] self.user_orders@[k2]).0@ by {
                        assert(old(self).user_orders@[k1].0@ != old(self).user_orders@[k2].0@);
                        assert(self.user_orders@[k1].0@ == pre_users[k1].0@);
                        assert(self.user_orders@[k2].0@ == pre_users[k2].0@);
                    }
                    assert(self.user_orders@[k as int].1@ =~= pre_users[k as int].1@.push(
                        order_id,
                    ));
                    assert forall|k9: int, m1: int, m2: int|
                        0 <= k9 < self.user_orders@.len() && 0 <= m1 < m2
                            < self.user_orders@[k9].1@.len() implies (
                    #[trigger] self.user_orders@[k9].1@[m1]) < (
                    #[trigger] self.user_orders@[k9].1@[m2]) by {
                        if k9 == k as int {
                            let pl = pre_users[k as int].1@;
                            if m2 < pl.len() {
                                assert(pre_users[k9].1@[m1] < pre_users[k9].1@[m2]);
                            } else {
                                assert(pre_users[k9].1@[m1] < order_id);
                            }
                        } else {
                            assert(pre_users[k9].1@[m1] < pre_users[k9].1@[m2]);
                        }
                    }
                    assert forall|u: Seq<char>, x: u64|
                        #[trigger] user_ids(pre_users, u).contains(x) implies user_ids(
                        self.user_orders@,
                        u,
                    ).contains(x) by {
                        if u == maker@ {
                            let w = choose|w: int|
                                0 <= w < user_ids(pre_users, u).len() && user_ids(
                                    pre_users,
                                    u,
                                )[w] == x;
                            assert(user_ids(self.user_orders@, u)[w] == x);
                        }
                    }
                    assert(user_ids(self.user_orders@, maker@).contains(order_id)) by {
                        let last = user_ids(self.user_orders@, maker@).len() - 1;
                        assert(user_ids(self.user_orders@, maker@)[last] == order_id);
                    }
                }
                return ;
            }
            k = k + 1;
        }
        let mut fresh: Vec<u64> = Vec::new();
        fresh.push(order_id);
        let entry = (maker.clone(), fresh);
        self.user_orders.push(entry);
        proof {
            lemma_user_ids_no_match(pre_users, maker@);
            lemma_user_ids_push(pre_users, self.user_orders@.last(), maker@);
            assert(user_ids(self.user_orders@, maker@) =~= user_ids(pre_users, maker@).push(
                order_id,
            ));
            assert forall|u: Seq<char>|
                u != maker@ implies #[trigger] user_ids(self.user_orders@, u) == user_ids(
                pre_users,
                u,
            ) by {
                lemma_user_ids_push(pre_users, self.user_orders@.last(), u);
            }
            assert forall|k9: int, m1: int, m2: int|
                0 <= k9 < self.user_orders@.len() && 0 <= m1 < m2
                    < self.user_orders@[k9].1@.len() implies (
            #[trigger] self.user_orders@[k9].1@[m1]) < (
            #[trigger] self.user_orders@[k9].1@[m2]) by {
                if k9 < pre_users.len() {
                    assert(pre_users[k9].1@[m1] < pre_users[k9].1@[m2]);
                }
            }
            assert forall|u: Seq<char>, x: u64|
                #[trigger] user_ids(pre_users, u).contains(x) implies user_ids(
                self.user_orders@,
                u,
            ).contains(x) by {
                if u == maker@ {
                    assert(user_ids(pre_users, u) == Seq::<u64>::empty());
                }
            }
            assert(user_ids(self.user_orders@, maker@).contains(order_id)) by {
                assert(user_ids(self.user_orders@, maker@)[0] == order_id);
            }
        }
    }

    /// How many orders have ever been created.
    pub fn get_order_count(&self) -> (count: u64)
        requires
            self.well_formed(),
        ensures
            count == self.orders@.len(),
            count == self.next_order_id - 1,
    {
        self.next_order_id - 1
    }
}

/// A copy of a list of order ids.
fn copy_ids(ids: &Vec<u64>) -> (out: Vec<u64>)
    ensures
        out@ == ids@,
{
    let mut out: Vec<u64> = Vec::new();
    let n = ids.len();
    let mut k: usize = 0;
    while k < n
        invariant
            n == ids@.len(),
            k <= n,
            out@ == ids@.take(k as int),
        decreases n - k,
    {
        out.push(ids[k]);
        proof {
            assert(out@ =~= ids@.take(k + 1));
        }
        k = k + 1;
    }
    proof {
        assert(ids@.take(n as int) =~= ids@);
    }
    out
}

/// If no entry is keyed by `u`, no ids are recorded for `u` (from the
/// recursive definition alone).
proof fn lemma_no_user_no_ids(users: Seq<(String, Vec<u64>)>, u: Seq<char>)
    requires
        !has_user(users, u),
    ensures
        user_ids(users, u) == Seq::<u64>::empty(),
    decreases users.len(),
{
    if users.len() > 0 {
        lemma_no_user_no_ids(users.skip(1), u);
    }
}

/// If some entry is keyed by `u`, the recorded ids for `u` are one such
/// entry's list.
proof fn lemma_user_ids_entry(users: Seq<(String, Vec<u64>)>, u: Seq<char>)
    requires
        has_user(users, u),
    ensures
        exists|k: int|
            0 <= k < users.len() && (#[trigger] users[k]).0@ == u && user_ids(users, u)
                == users[k].1@,
    decreases users.len(),
{
    if users[0].0@ == u {
        assert(users[0].0@ == u && user_ids(users, u) == users[0].1@);
    } else {
        lemma_user_ids_entry(users.skip(1), u);
        let k0 = choose|k: int|
            0 <= k < users.skip(1).len() && (#[trigger] users.skip(1)[k]).0@ == u && user_ids(
                users.skip(1),
                u,
            ) == users.skip(1)[k].1@;
        assert(users[k0 + 1] == users.skip(1)[k0]);
        assert((#[trigger] users[k0 + 1]).0@ == u && user_ids(users, u) == users[k0 + 1].1@);
    }
}

/// Law: in a well-formed store the per-maker index is exact. For any
/// maker, the recorded ids name orders of that maker and of nobody else;
/// every stored order of that maker is recorded; and the list is strictly
/// increasing, so each id appears exactly once, in creation order. With
/// the keys unique, an id therefore stands in exactly one maker's list.
pub proof fn lemma_user_index_exact(s: AdaptiveCrossChain, u: Seq<char>)
    requires
        s.well_formed(),
    ensures
        forall|m: int|
            0 <= m < user_ids(s.user_orders@, u).len() ==> ({
                let id = #[trigger] user_ids(s.user_orders@, u)[m];
                &&& 1 <= id <= s.orders@.len()
                &&& s.orders@[id - 1].maker@ == u
            }),
        forall|i: int|
            0 <= i < s.orders@.len() && (#[trigger] s.orders@[i]).maker@ == u ==> user_ids(
                s.user_orders@,
                u,
            ).contains((i + 1) as u64),
        forall|m1: int, m2: int|
            0 <= m1 < m2 < user_ids(s.user_orders@, u).len() ==> (#[trigger] user_ids(
                s.user_orders@,
                u,
            )[m1]) < (#[trigger] user_ids(s.user_orders@, u)[m2]),
{
    if has_user(s.user_orders@, u) {
        lemma_user_ids_entry(s.user_orders@, u);
        let k = choose|k: int|
            0 <= k < s.user_orders@.len() && (#[trigger] s.user_orders@[k]).0@ == u && user_ids(
                s.user_orders@,
                u,
            ) == s.user_orders@[k].1@;
        assert forall|m: int|
            0 <= m < user_ids(s.user_orders@, u).len() implies ({
            let id = #[trigger] user_ids(s.user_orders@, u)[m];
            &&& 1 <= id <= s.orders@.len()
            &&& s.orders@[id - 1].maker@ == u
        }) by {
            assert(s.user_orders@[k].1@[m] == user_ids(s.user_orders@, u)[m]);
        }
        assert forall|m1: int, m2: int|
            0 <= m1 < m2 < user_ids(s.user_orders@, u).len() implies (#[trigger] user_ids(
            s.user_orders@,
            u,
        )[m1]) < (#[trigger] user_ids(s.user_orders@, u)[m2]) by {
            assert(s.user_orders@[k].1@[m1] < s.user_orders@[k].1@[m2]);
        }
    } else {
        lemma_no_user_no_ids(s.user_orders@, u);
    }
}

/// Law: no order ever leaves a terminal state. Every engine transition
/// changes at most one order, demands a non-terminal status on it, and
/// leaves the rest untouched; so an order that is `Completed`, `Expired`
/// or `Cancelled` stays exactly as it is.
pub proof fn lemma_terminal_orders_frozen(
    pre: AdaptiveCrossChain,
    post: AdaptiveCrossChain,
    i: int,
)
    requires
        AdaptiveCrossChain::only_order_changed(pre, post, i),
        0 <= i < pre.orders@.len() ==> !is_terminal(pre.orders@[i].status),
    ensures
        forall|j: int|
            0 <= j < pre.orders@.len() && is_terminal((#[trigger] pre.orders@[j]).status)
                ==> post.orders@[j] == pre.orders@[j],
{
}

/// Law: after a successful slippage update at `now`, a second update of
/// the same order at any time strictly within one interval of `now` is not
/// yet due, so it fails as too soon and leaves the store untouched:
/// applying the controller twice within the window has the effect of
/// applying it once.
pub proof fn lemma_second_update_too_soon(
    pre: AdaptiveCrossChain,
    post: AdaptiveCrossChain,
    order_id: u64,
    now: u64,
    later: u64,
)
    requires
        AdaptiveCrossChain::slippage_updated(pre, post, order_id, now),
        later < now + pre.slippage_update_interval,
    ensures
        !update_due(post.orders@[order_id - 1]@, later, post.slippage_update_interval),
{
}

/// Law: at exactly one interval after an order's previous update, the next
/// update is due.
pub proof fn lemma_update_due_at_boundary(o: OrderModel, interval: u64)
    requires
        o.last_slippage_update + interval <= u64::MAX,
    ensures
        update_due(o, (o.last_slippage_update + interval) as u64, interval),
{
}

/// Law: in a well-formed store the order ids are exactly 1 through the
/// order count, pairwise distinct, and the id counter is one past the
/// count.
pub proof fn lemma_order_ids_dense(s: AdaptiveCrossChain)
    requires
        s.well_formed(),
    ensures
        s.next_order_id == s.orders@.len() + 1,
        forall|i: int|
            0 <= i < s.orders@.len() ==> (#[trigger] s.orders@[i]).order_id == i + 1,
        forall|i: int, j: int|
            0 <= i < s.orders@.len() && 0 <= j < s.orders@.len() && i != j ==> (
            #[trigger] s.orders@[i]).order_id != (#[trigger] s.orders@[j]).order_id,
{
}

/// If entry `k` is keyed by `u` and no earlier entry is, the recorded ids
/// for `u` are entry `k`'s list.
pub proof fn lemma_user_ids_first_match(users: Seq<(String, Vec<u64>)>, u: Seq<char>, k: int)
    requires
        0 <= k < users.len(),
        users[k].0@ == u,
        forall|j: int| 0 <= j < k ==> (#[trigger] users[j]).0@ != u,
    ensures
        has_user(users, u),
        user_ids(users, u) == users[k].1@,
    decreases k,
{
    if k > 0 {
        assert(users.skip(1)[k - 1] == users[k]);
        assert(forall|j: int| 0 <= j < k - 1 ==> (#[trigger] users.skip(1)[j]) == users[j + 1]);
        lemma_user_ids_first_match(users.skip(1), u, k - 1);
    }
}

/// If no entry is keyed by `u`, no ids are recorded for `u`.
pub proof fn lemma_user_ids_no_match(users: Seq<(String, Vec<u64>)>, u: Seq<char>)
    requires
        forall|j: int| 0 <= j < users.len() ==> (#[trigger] users[j]).0@ != u,
    ensures
        !has_user(users, u),
        user_ids(users, u) == Seq::<u64>::empty(),
    decreases users.len(),
{
    if users.len() > 0 {
        assert(forall|j: int|
            0 <= j < users.skip(1).len() ==> (#[trigger] users.skip(1)[j]) == users[j + 1]);
        lemma_user_ids_no_match(users.skip(1), u);
    }
}

/// Replacing the list of entry `k` (keeping its key) changes no other
/// maker's recorded ids.
pub proof fn lemma_user_ids_update(
    users1: Seq<(String, Vec<u64>)>,
    users2: Seq<(String, Vec<u64>)>,
    k: int,
    u: Seq<char>,
)
    requires
        users1.len() == users2.len(),
        0 <= k < users1.len(),
        forall|j: int| 0 <= j < users1.len() && j != k ==> users2[j] == users1[j],
        users2[k].0@ == users1[k].0@,
        u != users1[k].0@,
    ensures
        user_ids(users2, u) == user_ids(users1, u),
        has_user(users2, u) == has_user(users1, u),
    decreases users1.len(),
{
    if users1.len() > 0 {
        assert(forall|j: int|
            0 <= j < users1.skip(1).len() ==> (#[trigger] users1.skip(1)[j]) == users1[j + 1]);
        assert(forall|j: int|
            0 <= j < users2.skip(1).len() ==> (#[trigger] users2.skip(1)[j]) == users2[j + 1]);
        if k == 0 {
            assert(users2.skip(1) =~= users1.skip(1));
        } else {
            assert(users2[0] == users1[0]);
            lemma_user_ids_update(users1.skip(1), users2.skip(1), k - 1, u);
        }
    }
}

/// Appending a fresh entry changes no other maker's recorded ids, and
/// records exactly the new list for the new key.
pub proof fn lemma_user_ids_push(
    users: Seq<(String, Vec<u64>)>,
    entry: (String, Vec<u64>),
    u: Seq<char>,
)
    ensures
        u != entry.0@ ==> user_ids(users.push(entry), u) == user_ids(users, u) && has_user(
            users.push(entry),
            u,
        ) == has_user(users, u),
        (u == entry.0@ && !has_user(users, u)) ==> user_ids(users.push(entry), u) == entry.1@,
    decreases users.len(),
{
    if users.len() == 0 {
        assert(users.push(entry)[0] == entry);
        assert(users.push(entry).skip(1) =~= Seq::<(String, Vec<u64>)>::empty());
        assert(!has_user(Seq::<(String, Vec<u64>)>::empty(), u));
        assert(user_ids(Seq::<(String, Vec<u64>)>::empty(), u) == Seq::<u64>::empty());
    } else {
        assert(users.push(entry)[0] == users[0]);
        assert(users.push(entry).skip(1) =~= users.skip(1).push(entry));
        lemma_user_ids_push(users.skip(1), entry, u);
    }
}

} // verus!
