//! Trades and the outcome of matching an incoming order.

use vstd::prelude::*;
use crate::orders::{OrderId, OrderType, Side};

verus! {

/// A trade between an incoming (taker) order and a resting (maker) order.
#[derive(Clone, Copy, PartialEq, Eq, Structural, Debug)]
pub struct Transaction {
    /// The trade's identifier (a UUID's bits).
    pub transaction_id: u128,
    /// The incoming order.
    pub taker_order_id: OrderId,
    /// The resting order.
    pub maker_order_id: OrderId,
    /// The price of the trade.
    pub price: u64,
    /// The quantity traded.
    pub quantity: u64,
    /// The side of the incoming order.
    pub taker_side: Side,
    /// When the trade happened (milliseconds since the epoch).
    pub timestamp: u64,
}

impl Transaction {
    /// The side of the resting order.
    pub fn maker_side(&self) -> (r: Side)
        ensures
            r == self.taker_side.opposite(),
    {
        self.taker_side.opposite()
    }

    /// Price times quantity.
    pub fn total_value(&self) -> (r: u64)
        requires
            self.price * self.quantity <= u64::MAX,
        ensures
            r == self.price * self.quantity,
    {
        self.price * self.quantity
    }
}

/// The sum of the quantities of a sequence of trades.
pub open spec fn total_quantity(ts: Seq<Transaction>) -> int
    decreases ts.len(),
{
    if ts.len() == 0 {
        0
    } else {
        total_quantity(ts.drop_last()) + ts.last().quantity
    }
}

/// The sum of price times quantity over a sequence of trades.
pub open spec fn total_value(ts: Seq<Transaction>) -> int
    decreases ts.len(),
{
    if ts.len() == 0 {
        0
    } else {
        total_value(ts.drop_last()) + ts.last().price * ts.last().quantity
    }
}

/// An ordered list of trades.
#[derive(Clone, PartialEq, Eq, Debug)]
pub struct TransactionList {
    pub transactions: Vec<Transaction>,
}

impl TransactionList {
    /// An empty list.
    pub fn new() -> (r: Self)
        ensures
            r.transactions@ == Seq::<Transaction>::empty(),
    {
        TransactionList { transactions: Vec::new() }
    }

    /// The trades in order.
    pub fn as_vec(&self) -> (r: &Vec<Transaction>)
        ensures
            r@ == self.transactions@,
    {
        &self.transactions
    }

    /// The number of trades.
    pub fn len(&self) -> (r: usize)
        ensures
            r == self.transactions@.len(),
    {
        self.transactions.len()
    }

    /// Whether there is no trade.
    pub fn is_empty(&self) -> (r: bool)
        ensures
            r == (self.transactions@.len() == 0),
    {
        self.transactions.len() == 0
    }
}

/// The outcome of matching an incoming order against the book.
#[derive(Clone, PartialEq, Eq, Debug)]
pub struct MatchResult {
    /// The incoming order.
    pub order_id: OrderId,
    /// The trades, in the order they happened.
    pub transactions: TransactionList,
    /// What is left of the incoming order's quantity.
    pub remaining_quantity: u64,
    /// Whether the incoming order was filled completely.
    pub is_complete: bool,
    /// The resting orders that were filled completely and left the book.
    pub filled_order_ids: Vec<OrderId>,
}

impl MatchResult {
    /// A result with no trade yet.
    pub fn new(order_id: OrderId, initial_quantity: u64) -> (r: Self)
        ensures
            r.order_id == order_id,
            r.transactions.transactions@.len() == 0,
            r.remaining_quantity == initial_quantity,
            !r.is_complete,
            r.filled_order_ids@.len() == 0,
    {
        MatchResult {
            order_id,
            transactions: TransactionList::new(),
            remaining_quantity: initial_quantity,
            is_complete: false,
            filled_order_ids: Vec::new(),
        }
    }

    /// Record a trade: the remaining quantity goes down by the trade's quantity (not below zero).
    pub fn add_transaction(&mut self, transaction: Transaction)
        ensures
            final(self).transactions.transactions@ == old(self).transactions.transactions@.push(transaction),
            final(self).remaining_quantity == (if old(self).remaining_quantity >= transaction.quantity {
                (old(self).remaining_quantity - transaction.quantity) as u64
            } else {
                0u64
            }),
            final(self).is_complete == (final(self).remaining_quantity == 0),
            final(self).order_id == old(self).order_id,
            final(self).filled_order_ids == old(self).filled_order_ids,
    {
        self.remaining_quantity = self.remaining_quantity.saturating_sub(transaction.quantity);
        self.is_complete = self.remaining_quantity == 0;
        self.transactions.transactions.push(transaction);
    }

    /// Record a resting order that was filled completely.
    pub fn add_filled_order_id(&mut self, order_id: OrderId)
        ensures
            final(self).filled_order_ids@ == old(self).filled_order_ids@.push(order_id),
            final(self).transactions == old(self).transactions,
            final(self).remaining_quantity == old(self).remaining_quantity,
            final(self).is_complete == old(self).is_complete,
            final(self).order_id == old(self).order_id,
    {
        self.filled_order_ids.push(order_id);
    }

    /// The total quantity traded.
    pub fn executed_quantity(&self) -> (r: u64)
        requires
            total_quantity(self.transactions.transactions@) <= u64::MAX,
        ensures
            r == total_quantity(self.transactions.transactions@),
    {
        let ts = &self.transactions.transactions;
        let mut sum: u64 = 0;
        let mut i: usize = 0;
        while i < ts.len()
            invariant
                i <= ts@.len(),
                sum == total_quantity(ts@.take(i as int)),
                total_quantity(ts@) <= u64::MAX,
            decreases ts@.len() - i,
        {
            proof {
                assert(ts@.take(i + 1).drop_last() =~= ts@.take(i as int));
                lemma_total_quantity_prefix(ts@, i + 1);
            }
            sum = sum + ts[i].quantity;
            i = i + 1;
        }
        proof {
            assert(ts@.take(ts@.len() as int) =~= ts@);
        }
        sum
    }

    /// The total of price times quantity over the trades.
    pub fn executed_value(&self) -> (r: u64)
        requires
            total_value(self.transactions.transactions@) <= u64::MAX,
        ensures
            r == total_value(self.transactions.transactions@),
    {
        let ts = &self.transactions.transactions;
        let mut sum: u64 = 0;
        let mut i: usize = 0;
        while i < ts.len()
            invariant
                i <= ts@.len(),
                sum == total_value(ts@.take(i as int)),
                total_value(ts@) <= u64::MAX,
            decreases ts@.len() - i,
        {
            proof {
                assert(ts@.take(i + 1).drop_last() =~= ts@.take(i as int));
                lemma_total_value_prefix(ts@, i + 1);
                assert(ts@[i as int].price * ts@[i as int].quantity >= 0) by (nonlinear_arith);
            }
            sum = sum + ts[i].price * ts[i].quantity;
            i = i + 1;
        }
        proof {
            assert(ts@.take(ts@.len() as int) =~= ts@);
        }
        sum
    }
}

/// Quantities are never negative, so a prefix sums to no more than the whole.
pub proof fn lemma_total_quantity_prefix(ts: Seq<Transaction>, n: int)
    requires
        0 <= n <= ts.len(),
    ensures
        0 <= total_quantity(ts.take(n)) <= total_quantity(ts),
    decreases ts.len(),
{
    if n < ts.len() {
        lemma_total_quantity_prefix(ts.drop_last(), n);
        assert(ts.drop_last().take(n) =~= ts.take(n));
    } else {
        assert(ts.take(n) =~= ts);
        if ts.len() > 0 {
            lemma_total_quantity_prefix(ts.drop_last(), n - 1);
            assert(ts.drop_last().take(n - 1) =~= ts.drop_last());
        }
    }
}

/// Values are never negative, so a prefix sums to no more than the whole.
pub proof fn lemma_total_value_prefix(ts: Seq<Transaction>, n: int)
    requires
        0 <= n <= ts.len(),
    ensures
        0 <= total_value(ts.take(n)) <= total_value(ts),
    decreases ts.len(),
{
    if ts.len() > 0 {
        assert(ts.last().price * ts.last().quantity >= 0) by (nonlinear_arith);
    }
    if n < ts.len() {
        lemma_total_value_prefix(ts.drop_last(), n);
        assert(ts.drop_last().take(n) =~= ts.take(n));
    } else {
        assert(ts.take(n) =~= ts);
        if ts.len() > 0 {
            lemma_total_value_prefix(ts.drop_last(), n - 1);
            assert(ts.drop_last().take(n - 1) =~= ts.drop_last());
        }
    }
}

/// The state of one price level at a moment.
#[derive(Clone, PartialEq, Eq, Debug)]
pub struct PriceLevelSnapshot {
    /// The level's price.
    pub price: u64,
    /// The total quantity that the level shows.
    pub visible_quantity: u64,
    /// The total quantity that the level keeps hidden.
    pub hidden_quantity: u64,
    /// The number of orders at the level.
    pub order_count: usize,
    /// The orders at the level.
    pub orders: Vec<OrderType>,
}

impl PriceLevelSnapshot {
    /// Shown plus hidden quantity.
    pub fn total_quantity(&self) -> (r: u64)
        requires
            self.visible_quantity + self.hidden_quantity <= u64::MAX,
        ensures
            r == self.visible_quantity + self.hidden_quantity,
    {
        self.visible_quantity + self.hidden_quantity
    }
}

} // verus!
