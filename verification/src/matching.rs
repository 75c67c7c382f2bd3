//! Matching an incoming order against the opposite side of the book.

use vstd::prelude::*;
use std::collections::BTreeMap;
use pricelevel::{PriceLevel, UuidGenerator};
use crate::orders::{OrderId, Side};
use crate::execution::{Transaction, total_quantity};
use crate::outside::{
    LevelState, LevelOutcome, level_state, level_match_outcome, level_match, level_order_count,
    trade_matches_fill, fills_total, level_matchable, LevelFill,
};
use crate::prices::{is_best, best_price, rest_after, after, collect_prices, next_price, lemma_best_exists};
use crate::book::{OrderBook, side_view, side_ok, ascending_for};
use crate::error::OrderBookError;
use crate::execution::{MatchResult, TransactionList};
use crate::outside::{locations_remove, level_visible, level_hidden};

verus! {

broadcast use {vstd::std_specs::btree::group_btree_axioms, vstd::seq_lib::group_seq_properties};

/// One trade of a sweep: the level's price, the resting order and the quantity.
pub struct TradeInfo {
    pub price: u64,
    pub maker: u128,
    pub quantity: u64,
}

/// What matching does to one side of the book.
#[verifier::ext_equal]
pub struct Sweep {
    /// The levels afterwards, before emptied levels are removed.
    pub levels: Map<u64, LevelState>,
    /// The trades, in order.
    pub trades: Seq<TradeInfo>,
    /// The resting orders filled completely, in order.
    pub filled: Seq<u128>,
    /// What is left of the incoming quantity.
    pub remaining: u64,
    /// The price of the last level where a trade happened.
    pub last_price: Option<u64>,
    /// The prices of the levels whose order counter came to zero.
    pub emptied: Set<u64>,
}

/// A price is past the limit: above it for a buyer (`ascending`), below it for a seller.
pub open spec fn beyond_limit(p: u64, ascending: bool, limit: Option<u64>) -> bool {
    match limit {
        None => false,
        Some(l) => if ascending { p > l } else { p < l },
    }
}

/// A sweep that stops here.
pub open spec fn sweep_done(levels: Map<u64, LevelState>, remaining: u64) -> Sweep {
    Sweep {
        levels,
        trades: Seq::empty(),
        filled: Seq::empty(),
        remaining,
        last_price: None,
        emptied: Set::empty(),
    }
}

/// The trades of matching at the level at price `p`.
pub open spec fn level_trades(p: u64, out: LevelOutcome) -> Seq<TradeInfo> {
    Seq::new(out.fills.len(), |i: int| TradeInfo { price: p, maker: out.fills[i].0, quantity: out.fills[i].1 })
}

/// What matching at the level at price `p` alone does.
pub open spec fn sweep_here(levels: Map<u64, LevelState>, p: u64, remaining: u64) -> Sweep {
    let out = level_match_outcome(levels[p], remaining);
    Sweep {
        levels: levels.insert(p, out.after),
        trades: level_trades(p, out),
        filled: out.filled,
        remaining: out.remaining,
        last_price: if out.fills.len() > 0 { Some(p) } else { None },
        emptied: if out.after.order_count == 0 { set![p] } else { Set::empty() },
    }
}

/// `first` followed by `rest`.
pub open spec fn sweep_join(first: Sweep, rest: Sweep) -> Sweep {
    Sweep {
        levels: rest.levels,
        trades: first.trades + rest.trades,
        filled: first.filled + rest.filled,
        remaining: rest.remaining,
        last_price: if rest.last_price is Some { rest.last_price } else { first.last_price },
        emptied: first.emptied.union(rest.emptied),
    }
}

/// Matching `remaining` against the levels at the prices in `todo`, best price
/// first, stopping at a price past the limit or once nothing remains.
pub open spec fn sweep(levels: Map<u64, LevelState>, todo: Set<u64>, ascending: bool, remaining: u64, limit: Option<u64>) -> Sweep
    decreases todo.len(),
{
    if !todo.finite() || todo.len() == 0 {
        sweep_done(levels, remaining)
    } else {
        let p = best_price(todo, ascending);
        if !todo.contains(p) || beyond_limit(p, ascending, limit) {
            sweep_done(levels, remaining)
        } else {
            let here = sweep_here(levels, p, remaining);
            if here.remaining == 0 {
                here
            } else {
                sweep_join(here, sweep(here.levels, todo.remove(p), ascending, here.remaining, limit))
            }
        }
    }
}

/// The removal of the emptied levels after a sweep.
pub open spec fn swept_levels(s: Sweep) -> Map<u64, LevelState> {
    s.levels.remove_keys(s.emptied)
}

/// What one sweep hands back.
pub struct SweepFill {
    /// The trades, in order.
    pub transactions: Vec<Transaction>,
    /// The resting orders filled completely, in order.
    pub filled: Vec<OrderId>,
    /// What is left of the incoming quantity.
    pub remaining: u64,
    /// The price of the last level where a trade happened.
    pub last_price: Option<u64>,
}

/// The `i`-th trade `t` of a sweep for the incoming order `taker` of side `side`.
pub open spec fn trade_is(t: Transaction, info: TradeInfo, taker: OrderId, side: Side) -> bool {
    &&& t.maker_order_id == OrderId(info.maker)
    &&& t.quantity == info.quantity
    &&& t.price == info.price
    &&& t.taker_order_id == taker
    &&& t.taker_side == side
}

/// The trades `ts` are those of the sweep `s`, for the incoming order `taker` of side `side`.
pub open spec fn trades_are(ts: Seq<Transaction>, s: Seq<TradeInfo>, taker: OrderId, side: Side) -> bool {
    &&& ts.len() == s.len()
    &&& forall|i: int| 0 <= i < ts.len() ==> trade_is(#[trigger] ts[i], s[i], taker, side)
}

/// The identifiers `ids` are those of `s`.
pub open spec fn ids_are(ids: Seq<OrderId>, s: Seq<u128>) -> bool {
    &&& ids.len() == s.len()
    &&& forall|i: int| 0 <= i < ids.len() ==> #[trigger] ids[i] == OrderId(s[i])
}

/// Every level of `levels` has a nonzero order counter.
pub open spec fn counters_nonzero(levels: Map<u64, LevelState>) -> bool {
    forall|p: u64| #[trigger] levels.contains_key(p) ==> levels[p].order_count != 0
}

/// The level at price `q` of `l` holds the live order `k`.
pub open spec fn holds(l: Map<u64, LevelState>, q: u64, k: u128) -> bool {
    l.contains_key(q) && l[q].orders.contains_key(k)
}

/// Some level of `l` holds the live order `k`.
pub open spec fn held(l: Map<u64, LevelState>, k: u128) -> bool {
    exists|q: u64| #[trigger] holds(l, q, k)
}

/// Every level's order counter reads its number of live orders.
pub open spec fn counts_match(l: Map<u64, LevelState>) -> bool {
    forall|q: u64| #[trigger] l.contains_key(q) ==> l[q].order_count == l[q].orders.len()
}

/// No order is live in two levels.
pub open spec fn ids_unique(l: Map<u64, LevelState>) -> bool {
    forall|q1: u64, q2: u64, k: u128| #[trigger] holds(l, q1, k) && #[trigger] holds(l, q2, k) ==> q1 == q2
}

/// Every live order shows a positive quantity.
pub open spec fn shows_positive(l: Map<u64, LevelState>) -> bool {
    forall|q: u64, k: u128| #[trigger] holds(l, q, k) ==> l[q].orders[k].visible_quantity() > 0
}

/// How the levels `l1` that a sweep leaves relate to the levels `l0` it
/// started from and the orders `filled` it reports filled: no level or order
/// appears; an order that left was reported filled or showed zero; a filled
/// order was live before and is live nowhere after (when no order was live
/// in two levels); a counter that read its number of live orders still
/// does; and a level that stays either reads a nonzero counter or is as it was.
pub open spec fn sweep_records(l0: Map<u64, LevelState>, l1: Map<u64, LevelState>, filled: Seq<OrderId>) -> bool {
    &&& forall|q: u64| #[trigger] l1.contains_key(q) ==> l0.contains_key(q)
    &&& forall|q: u64, k: u128| #[trigger] holds(l1, q, k) ==> holds(l0, q, k)
    &&& counts_match(l0) ==> forall|q: u64, k: u128| #[trigger] holds(l0, q, k) && !holds(l1, q, k)
        ==> filled.contains(OrderId(k)) || l0[q].orders[k].visible_quantity() == 0
    &&& forall|j: int| 0 <= j < filled.len() ==> held(l0, #[trigger] filled[j].0)
    &&& ids_unique(l0) ==> forall|j: int, q: u64| 0 <= j < filled.len() ==> !#[trigger] holds(l1, q, filled[j].0)
    &&& forall|q: u64| #[trigger] l1.contains_key(q) ==> {
        &&& (l0[q].order_count == l0[q].orders.len() ==> l1[q].order_count == l1[q].orders.len())
        &&& (l1[q].order_count != 0 || l1[q] == l0[q])
    }
}

/// What a sweep in progress keeps of the records: `cur` are the levels so
/// far, `filled` the orders reported filled, `emptied` the levels whose
/// counter came to zero, and `rest` the prices not reached yet.
pub open spec fn records_so_far(
    l0: Map<u64, LevelState>,
    cur: Map<u64, LevelState>,
    filled: Seq<OrderId>,
    emptied: Seq<u64>,
    rest: Set<u64>,
) -> bool {
    &&& forall|q: u64, k: u128| #[trigger] holds(cur, q, k) ==> holds(l0, q, k)
    &&& forall|q: u64, k: u128| #[trigger] holds(l0, q, k) && !holds(cur, q, k)
        ==> filled.contains(OrderId(k)) || l0[q].orders[k].visible_quantity() == 0
    &&& forall|j: int| 0 <= j < filled.len() ==> held(l0, #[trigger] filled[j].0)
    &&& ids_unique(l0) ==> forall|j: int, q: u64| 0 <= j < filled.len() ==> !#[trigger] holds(cur, q, filled[j].0)
    &&& forall|q: u64| #[trigger] cur.contains_key(q) ==>
        (l0[q].order_count == l0[q].orders.len() ==> cur[q].order_count == cur[q].orders.len())
    &&& forall|q: u64| #[trigger] cur.contains_key(q) && !rest.contains(q) && !emptied.contains(q) ==> cur[q].order_count != 0
    &&& forall|q: u64| #[trigger] emptied.contains(q) ==> !rest.contains(q) && cur.contains_key(q) && cur[q].order_count == 0
}

/// Matching at the level at price `p`, the best price not reached yet, keeps
/// the records of a sweep in progress.
proof fn lemma_records_step(
    l0: Map<u64, LevelState>,
    cur: Map<u64, LevelState>,
    filled: Seq<OrderId>,
    emptied: Seq<u64>,
    rest: Set<u64>,
    p: u64,
    after: LevelState,
    ff: Seq<OrderId>,
)
    requires
        records_so_far(l0, cur, filled, emptied, rest),
        rest.contains(p),
        cur.contains_key(p),
        l0.contains_key(p),
        cur[p] == l0[p],
        forall|k: u128| #[trigger] after.orders.contains_key(k) ==> cur[p].orders.contains_key(k),
        cur[p].order_count == cur[p].orders.len() ==> after.order_count == after.orders.len(),
        forall|k: u128| #[trigger] cur[p].orders.contains_key(k) && !after.orders.contains_key(k) && !ff.contains(OrderId(k))
            ==> cur[p].orders[k].visible_quantity() == 0,
        forall|i: int| 0 <= i < ff.len() ==> cur[p].orders.contains_key(#[trigger] ff[i].0) && !after.orders.contains_key(ff[i].0),
    ensures
        records_so_far(l0, cur.insert(p, after), filled + ff,
            if after.order_count == 0 { emptied.push(p) } else { emptied }, rest.remove(p)),
{
    let cur1 = cur.insert(p, after);
    let f1 = filled + ff;
    let e1 = if after.order_count == 0 { emptied.push(p) } else { emptied };
    let rest1 = rest.remove(p);
    assert forall|q: u64, k: u128| #[trigger] holds(cur1, q, k) implies holds(l0, q, k) by {
        if q != p {
            assert(holds(cur, q, k));
        }
    }
    assert forall|q: u64, k: u128| #[trigger] holds(l0, q, k) && !holds(cur1, q, k)
        implies f1.contains(OrderId(k)) || l0[q].orders[k].visible_quantity() == 0 by {
        if q != p || !holds(cur, q, k) {
            if q != p {
                assert(!holds(cur, q, k));
            }
            if filled.contains(OrderId(k)) {
                let j = choose|j: int| 0 <= j < filled.len() && filled[j] == OrderId(k);
                assert(f1[j] == OrderId(k));
            }
        } else if ff.contains(OrderId(k)) {
            let j = choose|j: int| 0 <= j < ff.len() && ff[j] == OrderId(k);
            assert(f1[filled.len() + j] == OrderId(k));
        }
    }
    assert forall|j: int| 0 <= j < f1.len() implies held(l0, #[trigger] f1[j].0) by {
        if j >= filled.len() {
            assert(f1[j] == ff[j - filled.len()]);
            assert(holds(l0, p, f1[j].0));
        } else {
            assert(f1[j] == filled[j]);
        }
    }
    if ids_unique(l0) {
        assert forall|j: int, q: u64| 0 <= j < f1.len() implies !#[trigger] holds(cur1, q, f1[j].0) by {
            if j < filled.len() {
                assert(f1[j] == filled[j]);
                assert(!holds(cur, q, filled[j].0));
            } else {
                let k = f1[j].0;
                assert(f1[j] == ff[j - filled.len()]);
                assert(cur[p].orders.contains_key(k) && !after.orders.contains_key(k));
                if q != p && holds(cur1, q, k) {
                    assert(holds(cur, q, k));
                    assert(holds(l0, q, k));
                    assert(holds(l0, p, k));
                }
            }
        }
    }
    assert forall|q: u64| #[trigger] cur1.contains_key(q) && !rest1.contains(q) && !e1.contains(q)
        implies cur1[q].order_count != 0 by {
        if q != p {
            assert(!rest.contains(q));
            assert(!emptied.contains(q)) by {
                if emptied.contains(q) {
                    let j = choose|j: int| 0 <= j < emptied.len() && emptied[j] == q;
                    assert(e1[j] == q);
                }
            }
        } else if after.order_count == 0 {
            assert(e1[emptied.len() as int] == p);
        }
    }
    assert forall|q: u64| #[trigger] e1.contains(q) implies !rest1.contains(q) && cur1.contains_key(q) && cur1[q].order_count == 0 by {
        if !emptied.contains(q) {
            let j = choose|j: int| 0 <= j < e1.len() && e1[j] == q;
            assert(q == p);
        } else {
            assert(q != p);
        }
    }
}

/// Once the emptied levels are removed, the records of a sweep in progress
/// give those of the whole sweep.
proof fn lemma_records_final(
    l0: Map<u64, LevelState>,
    cur: Map<u64, LevelState>,
    filled: Seq<OrderId>,
    emptied: Seq<u64>,
    rest: Set<u64>,
)
    requires
        records_so_far(l0, cur, filled, emptied, rest),
        cur.dom() == l0.dom(),
        forall|q: u64| #[trigger] cur.contains_key(q) ==> cur[q].orders.dom().finite(),
        forall|q: u64| #[trigger] rest.contains(q) ==> cur[q] == l0[q],
    ensures
        sweep_records(l0, cur.remove_keys(emptied.to_set()), filled),
{
    let l1 = cur.remove_keys(emptied.to_set());
    assert forall|q: u64| #[trigger] l1.contains_key(q) implies l0.contains_key(q) by {
        assert(cur.contains_key(q));
    }
    assert forall|q: u64, k: u128| #[trigger] holds(l1, q, k) implies holds(l0, q, k) by {
        assert(holds(cur, q, k));
    }
    if counts_match(l0) {
        assert forall|q: u64, k: u128| #[trigger] holds(l0, q, k) && !holds(l1, q, k)
            implies filled.contains(OrderId(k)) || l0[q].orders[k].visible_quantity() == 0 by {
            if holds(cur, q, k) {
                assert(emptied.to_set().contains(q));
                assert(emptied.contains(q));
                assert(cur[q].order_count == cur[q].orders.len());
                assert(cur[q].orders.dom().contains(k));
                assert(cur[q].orders.dom().remove(k).len() + 1 == cur[q].orders.dom().len());
            }
        }
    }
    if ids_unique(l0) {
        assert forall|j: int, q: u64| 0 <= j < filled.len() implies !#[trigger] holds(l1, q, filled[j].0) by {
            assert(!holds(cur, q, filled[j].0));
        }
    }
    assert forall|q: u64| #[trigger] l1.contains_key(q) implies {
        &&& (l0[q].order_count == l0[q].orders.len() ==> l1[q].order_count == l1[q].orders.len())
        &&& (l1[q].order_count != 0 || l1[q] == l0[q])
    } by {
        assert(cur.contains_key(q));
        assert(!emptied.to_set().contains(q));
        assert(!emptied.contains(q));
    }
}

/// Every level that a sweep over the prices `todo` reaches with something
/// left to match can be matched against (`level_matchable`).
pub open spec fn reach_ok(levels: Map<u64, LevelState>, todo: Set<u64>, ascending: bool, remaining: u64, limit: Option<u64>) -> bool
    decreases todo.len(),
{
    if !todo.finite() || todo.len() == 0 {
        true
    } else {
        let p = best_price(todo, ascending);
        if !todo.contains(p) || beyond_limit(p, ascending, limit) {
            true
        } else {
            let here = sweep_here(levels, p, remaining);
            &&& (remaining == 0 || level_matchable(levels[p]))
            &&& (here.remaining == 0 || reach_ok(here.levels, todo.remove(p), ascending, here.remaining, limit))
        }
    }
}

/// The taker's side for the walking order.
pub open spec fn taker_side(ascending: bool) -> Side {
    if ascending { Side::Buy } else { Side::Sell }
}

/// The side whose levels a taker walks in this order.
pub open spec fn maker_side(ascending: bool) -> Side {
    if ascending { Side::Sell } else { Side::Buy }
}

/// Removing the best price of the prices after `last` leaves the prices after it.
pub(crate) proof fn lemma_rest_after_step(dom: Set<u64>, last: Option<u64>, p: u64, ascending: bool)
    requires
        is_best(rest_after(dom, last, ascending), p, ascending),
    ensures
        rest_after(dom, last, ascending).remove(p) == rest_after(dom, Some(p), ascending),
{
    assert(rest_after(dom, last, ascending).remove(p) =~= rest_after(dom, Some(p), ascending)) by {
        assert forall|q: u64| #[trigger] rest_after(dom, Some(p), ascending).contains(q)
            implies rest_after(dom, last, ascending).remove(p).contains(q) by {
            match last {
                None => {},
                Some(l) => {
                    assert(rest_after(dom, last, ascending).contains(p));
                },
            }
        }
        assert forall|q: u64| #[trigger] rest_after(dom, last, ascending).remove(p).contains(q)
            implies rest_after(dom, Some(p), ascending).contains(q) by {
            assert(rest_after(dom, last, ascending).contains(q));
        }
    }
}

/// One step of a sweep: the best remaining price `p`, not past the limit,
/// is matched, and the sweep goes on (or ends) from there.
proof fn lemma_sweep_step(
    lv: Map<u64, LevelState>,
    todo: Set<u64>,
    ascending: bool,
    remaining: u64,
    limit: Option<u64>,
    p: u64,
    acc: Sweep,
)
    requires
        todo.finite(),
        is_best(todo, p, ascending),
        !beyond_limit(p, ascending, limit),
    ensures
        ({
            let here = sweep_here(lv, p, remaining);
            &&& here.remaining == 0 ==> sweep_join(acc, sweep(lv, todo, ascending, remaining, limit)) == sweep_join(acc, here)
            &&& here.remaining != 0 ==> sweep_join(acc, sweep(lv, todo, ascending, remaining, limit))
                == sweep_join(sweep_join(acc, here), sweep(here.levels, todo.remove(p), ascending, here.remaining, limit))
        }),
{
    lemma_best_exists(todo, ascending);
    assert(todo.len() > 0) by {
        assert(todo.contains(p));
    }
    let here = sweep_here(lv, p, remaining);
    if here.remaining != 0 {
        let rest = sweep(here.levels, todo.remove(p), ascending, here.remaining, limit);
        assert(sweep_join(acc, sweep_join(here, rest)) =~= sweep_join(sweep_join(acc, here), rest)) by {
            assert(acc.trades + (here.trades + rest.trades) =~= (acc.trades + here.trades) + rest.trades);
            assert(acc.filled + (here.filled + rest.filled) =~= (acc.filled + here.filled) + rest.filled);
            assert(acc.emptied.union(here.emptied.union(rest.emptied)) =~= acc.emptied.union(here.emptied).union(rest.emptied));
        }
    }
}

/// The total quantity of two runs of trades is the sum of their totals.
proof fn lemma_total_quantity_concat(a: Seq<Transaction>, b: Seq<Transaction>)
    ensures
        total_quantity(a + b) == total_quantity(a) + total_quantity(b),
    decreases b.len(),
{
    if b.len() > 0 {
        lemma_total_quantity_concat(a, b.drop_last());
        assert((a + b).drop_last() =~= a + b.drop_last());
    } else {
        assert(a + b =~= a);
    }
}

/// Trades whose quantities are those of `fills`, one for one, add up to the
/// same total.
proof fn lemma_trades_total_fills(ts: Seq<Transaction>, fills: Seq<(u128, u64)>)
    requires
        ts.len() == fills.len(),
        forall|i: int| 0 <= i < ts.len() ==> #[trigger] ts[i].quantity == fills[i].1,
    ensures
        total_quantity(ts) == fills_total(fills),
    decreases ts.len(),
{
    if ts.len() > 0 {
        assert forall|i: int| 0 <= i < ts.drop_last().len() implies #[trigger] ts.drop_last()[i].quantity == fills.drop_last()[i].1 by {
            assert(ts[i].quantity == fills[i].1);
        }
        lemma_trades_total_fills(ts.drop_last(), fills.drop_last());
        assert(ts[ts.len() - 1].quantity == fills[fills.len() - 1].1);
    }
}

/// Records the outcome `fill` of matching at the level at `price`, whose
/// order counter reads `count` afterwards, in a sweep's running results: the
/// trades and the filled orders are appended, the last trade price becomes
/// `price` if the level traded, and `price` joins the emptied levels if its
/// counter came to zero. Returns what is left of the incoming quantity.
pub fn record_level_fill(
    transactions: &mut Vec<Transaction>,
    filled: &mut Vec<OrderId>,
    last_price: &mut Option<u64>,
    emptied: &mut Vec<u64>,
    price: u64,
    fill: LevelFill,
    count: usize,
) -> (remaining: u64)
    ensures
        final(transactions)@ == old(transactions)@ + fill.transactions@,
        final(filled)@ == old(filled)@ + fill.filled@,
        *final(last_price) == (if fill.transactions@.len() > 0 { Some(price) } else { *old(last_price) }),
        final(emptied)@ == (if count == 0 { old(emptied)@.push(price) } else { old(emptied)@ }),
        remaining == fill.remaining,
{
    let traded = fill.transactions.len() > 0;
    let remaining = fill.remaining;
    let mut trades = fill.transactions;
    let mut done = fill.filled;
    transactions.append(&mut trades);
    filled.append(&mut done);
    if traded {
        *last_price = Some(price);
    }
    if count == 0 {
        emptied.push(price);
    }
    remaining
}

/// Match `quantity` for the incoming order `taker` against the levels of one
/// side, best price first (lowest first when `ascending`), stopping at a price
/// past `limit` or once nothing remains; then remove the levels whose order
/// counter came to zero.
pub(crate) fn sweep_side(
    levels: &mut BTreeMap<u64, PriceLevel>,
    ascending: bool,
    taker: OrderId,
    quantity: u64,
    limit: Option<u64>,
    generator: &UuidGenerator,
) -> (r: SweepFill)
    requires
        side_ok(side_view(old(levels)@), maker_side(ascending)),
        reach_ok(side_view(old(levels)@), old(levels)@.dom(), ascending, quantity, limit),
    ensures
        ({
            let s = sweep(side_view(old(levels)@), old(levels)@.dom(), ascending, quantity, limit);
            &&& side_view(final(levels)@) == swept_levels(s)
            &&& r.remaining == s.remaining
            &&& r.last_price == s.last_price
            &&& trades_are(r.transactions@, s.trades, taker, taker_side(ascending))
            &&& ids_are(r.filled@, s.filled)
        }),
        side_ok(side_view(final(levels)@), maker_side(ascending)),
        total_quantity(r.transactions@) == quantity - r.remaining,
        forall|i: int, q: u64| 0 <= i < r.transactions@.len() && #[trigger] side_view(final(levels)@).contains_key(q)
            && after(q, #[trigger] r.transactions@[i].price, ascending)
            ==> side_view(final(levels)@)[q].orders.len() == 0,
        quantity == 0 && counters_nonzero(side_view(old(levels)@)) ==> {
            &&& side_view(final(levels)@) == side_view(old(levels)@)
            &&& r.transactions@.len() == 0
            &&& r.filled@.len() == 0
            &&& r.last_price is None
        },
        sweep_records(side_view(old(levels)@), side_view(final(levels)@), r.filled@),
{
    let ghost l0 = side_view(levels@);
    let ghost d0 = levels@.dom();
    let prices = collect_prices(levels);
    let mut transactions: Vec<Transaction> = Vec::new();
    let mut filled: Vec<OrderId> = Vec::new();
    let mut emptied: Vec<u64> = Vec::new();
    let mut remaining = quantity;
    let mut last_price: Option<u64> = None;
    let mut last: Option<u64> = None;
    let mut done = false;
    let ghost mut acc = sweep_done(l0, quantity);
    proof {
        assert(l0.dom() =~= d0);
        assert(sweep_join(acc, sweep(l0, d0, ascending, quantity, limit)) =~= sweep(l0, d0, ascending, quantity, limit));
        assert(rest_after(d0, None, ascending) == d0);
    }
    while !done
        invariant
            prices@.to_set() == d0,
            prices@.no_duplicates(),
            levels@.dom() == d0,
            d0.finite(),
            l0.dom() == d0,
            side_ok(side_view(levels@), maker_side(ascending)),
            side_ok(l0, maker_side(ascending)),
            !done ==> reach_ok(side_view(levels@), rest_after(d0, last, ascending), ascending, remaining, limit),
            forall|q: u64| #[trigger] rest_after(d0, last, ascending).contains(q)
                ==> side_view(levels@)[q] == l0[q],
            acc.levels == side_view(levels@),
            acc.remaining == remaining,
            !done ==> sweep_join(acc, sweep(side_view(levels@), rest_after(d0, last, ascending), ascending, remaining, limit))
                == sweep(l0, d0, ascending, quantity, limit),
            done ==> acc == sweep(l0, d0, ascending, quantity, limit),
            trades_are(transactions@, acc.trades, taker, taker_side(ascending)),
            ids_are(filled@, acc.filled),
            last_price == acc.last_price,
            emptied@.to_set() == acc.emptied,
            forall|q: u64| acc.emptied.contains(q) ==> d0.contains(q),
            total_quantity(transactions@) == quantity - remaining,
            forall|j: int| 0 <= j < transactions@.len() ==>
                d0.contains(#[trigger] transactions@[j].price) && !rest_after(d0, last, ascending).contains(transactions@[j].price),
            forall|q: u64| #[trigger] side_view(levels@).contains_key(q) && !rest_after(d0, last, ascending).contains(q)
                && (remaining > 0 || last != Some(q)) ==> side_view(levels@)[q].orders.len() == 0,
            !done ==> remaining > 0 || last is None,
            records_so_far(l0, side_view(levels@), filled@, emptied@, rest_after(d0, last, ascending)),
            quantity == 0 && counters_nonzero(l0) ==> {
                &&& side_view(levels@) == l0
                &&& transactions@.len() == 0
                &&& filled@.len() == 0
                &&& last_price is None
                &&& emptied@.len() == 0
            },
        decreases rest_after(d0, last, ascending).len() + (if done { 0int } else { 1int }),
    {
        let ghost todo = rest_after(d0, last, ascending);
        let ghost lv = side_view(levels@);
        proof {
            assert(todo.finite()) by {
                match last {
                    None => {},
                    Some(l) => {
                        assert(todo =~= d0.filter(|q: u64| after(l, q, ascending)));
                    },
                }
            }
        }
        let next = next_price(&prices, last, ascending);
        match next {
            None => {
                proof {
                    assert(todo.len() == 0);
                    assert(sweep(lv, todo, ascending, remaining, limit) == sweep_done(lv, remaining));
                    assert(sweep_join(acc, sweep_done(lv, remaining)) =~= acc);
                }
                done = true;
            },
            Some(p) => {
                proof {
                    lemma_best_exists(todo, ascending);
                    assert(todo.len() > 0) by {
                        assert(todo.contains(p));
                    }
                }
                let past = match limit {
                    None => false,
                    Some(l) => if ascending { p > l } else { p < l },
                };
                if past {
                    proof {
                        assert(sweep(lv, todo, ascending, remaining, limit) == sweep_done(lv, remaining));
                        assert(sweep_join(acc, sweep_done(lv, remaining)) =~= acc);
                    }
                    done = true;
                } else {
                    let ghost rem0 = remaining;
                    let ghost here = sweep_here(lv, p, remaining);
                    let ghost before = lv[p];
                    let mut level = levels.remove(&p).unwrap();
                    proof {
                        assert(level_state(level) == before);
                        assert(best_price(todo, ascending) == p);
                    }
                    let fill = level_match(&mut level, remaining, taker, generator);
                    let count = level_order_count(&level);
                    levels.insert(p, level);
                    proof {
                        assert(side_view(levels@) =~= lv.insert(p, level_match_outcome(before, remaining).after));
                    }
                    let ghost t0 = transactions@;
                    let ghost f0 = filled@;
                    let ghost e0 = emptied@;
                    let ghost ft = fill.transactions@;
                    let ghost ff = fill.filled@;
                    proof {
                        assert forall|k: int| 0 <= k < ft.len()
                            implies trade_matches_fill(#[trigger] ft[k], before, rem0, taker, k) by {
                            assert(trade_matches_fill(fill.transactions@[k], before, rem0, taker, k));
                        }
                    }
                    remaining = record_level_fill(&mut transactions, &mut filled, &mut last_price, &mut emptied, p, fill, count);
                    let ghost new_acc = sweep_join(acc, here);
                    proof {
                        let out = level_match_outcome(before, here.remaining);
                        lemma_sweep_step(lv, todo, ascending, rem0, limit, p, acc);
                        lemma_rest_after_step(d0, last, p, ascending);
                        let after_p = level_match_outcome(before, rem0).after;
                        assert forall|i: int| 0 <= i < ff.len() implies
                            before.orders.contains_key(#[trigger] ff[i].0) && !after_p.orders.contains_key(ff[i].0) by {
                            assert(ff[i] == OrderId(level_match_outcome(before, rem0).filled[i]));
                        }
                        lemma_records_step(l0, lv, f0, e0, todo, p, after_p, ff);
                        assert(side_view(levels@) == lv.insert(p, after_p));
                        assert(transactions@ =~= t0 + ft);
                        assert(filled@ =~= f0 + ff);
                        assert forall|k: int| 0 <= k < ft.len()
                            implies trade_is(#[trigger] ft[k], here.trades[k], taker, taker_side(ascending)) by {
                            assert(trade_matches_fill(ft[k], before, rem0, taker, k));
                        }
                        let fills = level_match_outcome(before, rem0).fills;
                        assert forall|k: int| 0 <= k < ft.len()
                            implies #[trigger] ft[k].quantity == fills[k].1 by {
                            assert(trade_matches_fill(ft[k], before, rem0, taker, k));
                        }
                        lemma_trades_total_fills(ft, fills);
                        lemma_total_quantity_concat(t0, ft);
                        assert(l0.contains_key(p));
                        assert(lv.contains_key(p));
                        assert forall|k: int| 0 <= k < ft.len()
                            implies #[trigger] ft[k].price == p by {
                            assert(trade_matches_fill(ft[k], before, rem0, taker, k));
                        }
                        assert forall|j: int| 0 <= j < transactions@.len() implies
                            d0.contains(#[trigger] transactions@[j].price) && !rest_after(d0, Some(p), ascending).contains(transactions@[j].price) by {
                            if j < t0.len() {
                                assert(transactions@[j] == t0[j]);
                            } else {
                                assert(transactions@[j] == ft[j - t0.len()]);
                            }
                        }
                        assert forall|q: u64| #[trigger] side_view(levels@).contains_key(q) && !rest_after(d0, Some(p), ascending).contains(q)
                            && (remaining > 0 || Some(p) != Some(q)) implies side_view(levels@)[q].orders.len() == 0 by {
                            if q != p {
                                assert(!todo.contains(q));
                                assert(lv.contains_key(q));
                            }
                        }
                    }
                    proof {
                        acc = new_acc;
                    }
                    last = Some(p);
                    if remaining == 0 {
                        done = true;
                    }
                }
            },
        }
    }
    proof {
        assert(side_view(levels@).dom() =~= l0.dom());
        lemma_records_final(l0, side_view(levels@), filled@, emptied@, rest_after(d0, last, ascending));
    }
    let ghost cur_end = side_view(levels@);
    let mut e: usize = 0;
    while e < emptied.len()
        invariant
            e <= emptied@.len(),
            emptied@.to_set() == acc.emptied,
            acc == sweep(l0, d0, ascending, quantity, limit),
            side_view(levels@) == acc.levels.remove_keys(emptied@.take(e as int).to_set()),
            side_ok(side_view(levels@), maker_side(ascending)),
            levels@.dom().subset_of(d0),
            forall|j: int| 0 <= j < transactions@.len() ==>
                d0.contains(#[trigger] transactions@[j].price) && !rest_after(d0, last, ascending).contains(transactions@[j].price),
            forall|q: u64| #[trigger] side_view(levels@).contains_key(q) && !rest_after(d0, last, ascending).contains(q)
                && (remaining > 0 || last != Some(q)) ==> side_view(levels@)[q].orders.len() == 0,
            quantity == 0 && counters_nonzero(l0) ==> {
                &&& side_view(levels@) == l0
                &&& transactions@.len() == 0
                &&& filled@.len() == 0
                &&& last_price is None
                &&& emptied@.len() == 0
            },
            acc.levels == cur_end,
            sweep_records(l0, cur_end.remove_keys(emptied@.to_set()), filled@),
        decreases emptied@.len() - e,
    {
        let p = emptied[e];
        let ghost lb = side_view(levels@);
        levels.remove(&p);
        proof {
            assert(side_view(levels@) =~= lb.remove(p));
            assert(emptied@.take(e + 1) =~= emptied@.take(e as int).push(p));
            assert(side_view(levels@) =~= acc.levels.remove_keys(emptied@.take(e + 1).to_set()));
        }
        e = e + 1;
    }
    proof {
        assert(emptied@.take(emptied@.len() as int) =~= emptied@);
        assert forall|i: int, q: u64| 0 <= i < transactions@.len() && #[trigger] side_view(levels@).contains_key(q)
            && after(q, #[trigger] transactions@[i].price, ascending)
            implies side_view(levels@)[q].orders.len() == 0 by {
            let tp = transactions@[i].price;
            assert(d0.contains(tp) && !rest_after(d0, last, ascending).contains(tp));
            match last {
                None => {},
                Some(l) => {
                    assert(!after(l, tp, ascending));
                    assert(!rest_after(d0, last, ascending).contains(q));
                    assert(last != Some(q));
                },
            }
        }
    }
    SweepFill { transactions, filled, remaining, last_price }
}

/// `e` is the insufficient-liquidity error for an incoming order of `side`
/// asking for `requested` with `available` on offer.
pub open spec fn insufficient(e: OrderBookError, side: Side, requested: u64, available: u64) -> bool {
    match e {
        OrderBookError::InsufficientLiquidity { side: s, requested: q, available: a } =>
            s == side && q == requested && a == available,
        _ => false,
    }
}

/// `r` is the insufficient-liquidity error for an incoming order of `side`
/// asking for `requested` with `available` on offer.
pub open spec fn is_insufficient(r: Result<MatchResult, OrderBookError>, side: Side, requested: u64, available: u64) -> bool {
    match r {
        Err(e) => insufficient(e, side, requested, available),
        Ok(_) => false,
    }
}

/// `mr` reports the sweep `s` for the incoming order `id` of `side`.
pub open spec fn reports_sweep(mr: MatchResult, id: OrderId, side: Side, s: Sweep) -> bool {
    &&& mr.order_id == id
    &&& trades_are(mr.transactions.transactions@, s.trades, id, side)
    &&& mr.remaining_quantity == s.remaining
    &&& mr.is_complete == (s.remaining == 0)
    &&& ids_are(mr.filled_order_ids@, s.filled)
}

/// The identifiers of a sequence of filled orders, as a set.
pub open spec fn id_set(ids: Seq<u128>) -> Set<u128> {
    ids.to_set()
}

/// A sweep of the side `m` opposite `side` of an intact book, in which every
/// live order of that side shows a positive quantity, leaves the book intact.
proof fn lemma_sweep_keeps_intact(b0: OrderBook, b1: OrderBook, side: Side, filled: Seq<OrderId>, sf: Seq<u128>)
    requires
        b0.intact(),
        shows_positive(b0.levels(side.opposite())),
        sweep_records(b0.levels(side.opposite()), b1.levels(side.opposite()), filled),
        ids_are(filled, sf),
        b1.levels(side) == b0.levels(side),
        b1.locations() == b0.locations().remove_keys(id_set(sf)),
    ensures
        b1.intact(),
{
    let m = side.opposite();
    let l0 = b0.levels(m);
    let l1 = b1.levels(m);
    assert(side != m) by {
        match side {
            Side::Buy => {},
            Side::Sell => {},
        }
    }
    assert(counts_match(l0)) by {
        assert forall|q: u64| #[trigger] l0.contains_key(q) implies l0[q].order_count == l0[q].orders.len() by {
            assert(b0.levels(m).contains_key(q));
        }
    }
    assert(ids_unique(l0)) by {
        assert forall|q1: u64, q2: u64, k: u128| #[trigger] holds(l0, q1, k) && #[trigger] holds(l0, q2, k) implies q1 == q2 by {
            assert(b0.rests(k, q1, m));
            assert(b0.rests(k, q2, m));
        }
    }
    // A filled identifier is one of `filled`'s.
    assert forall|k: u128| #[trigger] id_set(sf).contains(k) implies filled.contains(OrderId(k)) by {
        let j = choose|j: int| 0 <= j < sf.len() && sf[j] == k;
        assert(filled[j] == OrderId(sf[j]));
    }
    assert forall|k: u128| #[trigger] b1.locations().contains_key(k)
        implies b1.rests(k, b1.locations()[k].0, b1.locations()[k].1) by {
        assert(b0.locations().contains_key(k));
        assert(!id_set(sf).contains(k));
        let (p, s) = b0.locations()[k];
        assert(b0.rests(k, p, s));
        if s == m {
            assert(holds(l0, p, k));
            assert(l0[p].orders[k].visible_quantity() > 0);
            if !holds(l1, p, k) {
                assert(filled.contains(OrderId(k)));
                let j = choose|j: int| 0 <= j < filled.len() && filled[j] == OrderId(k);
                assert(filled[j] == OrderId(sf[j]));
                assert(sf[j] == k);
                assert(sf.contains(k));
            }
        } else {
            assert(s == side) by {
                match side {
                    Side::Buy => { match s { Side::Buy => {}, Side::Sell => {} } },
                    Side::Sell => { match s { Side::Buy => {}, Side::Sell => {} } },
                }
            }
        }
    }
    assert forall|k: u128, p: u64, s: Side| #[trigger] b1.rests(k, p, s) implies
        b1.locations().contains_key(k) && b1.locations()[k] == (p, s) by {
        if s == m {
            assert(holds(l1, p, k));
            assert(holds(l0, p, k));
            assert(b0.rests(k, p, s));
        } else {
            assert(s == side) by {
                match side {
                    Side::Buy => { match s { Side::Buy => {}, Side::Sell => {} } },
                    Side::Sell => { match s { Side::Buy => {}, Side::Sell => {} } },
                }
            }
            assert(b0.rests(k, p, s));
        }
        assert(b0.locations()[k] == (p, s));
        if id_set(sf).contains(k) {
            let j = choose|j: int| 0 <= j < sf.len() && sf[j] == k;
            assert(filled[j] == OrderId(sf[j]));
            assert(filled[j].0 == k);
            if s == m {
                assert(!holds(l1, p, filled[j].0));
            } else {
                assert(held(l0, filled[j].0));
                let q = choose|q: u64| #[trigger] holds(l0, q, k);
                assert(b0.rests(k, q, m));
            }
        }
    }
    assert forall|p: u64, s: Side| #[trigger] b1.levels(s).contains_key(p) implies {
        &&& b1.levels(s)[p].orders.len() > 0
        &&& b1.levels(s)[p].order_count == b1.levels(s)[p].orders.len()
    } by {
        if s == m {
            assert(l1.contains_key(p));
            assert(l0.contains_key(p));
            assert(b0.levels(m).contains_key(p));
        } else {
            assert(s == side) by {
                match side {
                    Side::Buy => { match s { Side::Buy => {}, Side::Sell => {} } },
                    Side::Sell => { match s { Side::Buy => {}, Side::Sell => {} } },
                }
            }
            assert(b0.levels(s).contains_key(p));
        }
    }
}

impl OrderBook {
    /// Every level that matching `quantity` for an incoming order of `side`
    /// up to `limit` reaches can be matched against.
    pub open spec fn sweep_ok(&self, side: Side, quantity: u64, limit: Option<u64>) -> bool {
        let m = side.opposite();
        reach_ok(self.levels(m), self.levels(m).dom(), ascending_for(side), quantity, limit)
    }

    /// The sweep that matching `quantity` for an incoming order of `side`
    /// performs on the opposite side of this book.
    pub open spec fn match_sweep(&self, side: Side, quantity: u64, limit: Option<u64>) -> Sweep {
        let m = side.opposite();
        sweep(self.levels(m), self.levels(m).dom(), ascending_for(side), quantity, limit)
    }

    /// What matching does to the book: nothing when the opposite side is
    /// empty; otherwise the opposite side is swept, emptied levels and the
    /// locations of filled orders are dropped, and the last trade price is
    /// that of the last level that traded.
    pub open spec fn match_state_post(b0: OrderBook, b1: OrderBook, side: Side, quantity: u64, limit: Option<u64>) -> bool {
        let m = side.opposite();
        if b0.levels(m).is_empty() {
            b1.same_contents(&b0)
        } else {
            let s = b0.match_sweep(side, quantity, limit);
            &&& b1.levels(m) == swept_levels(s)
            &&& b1.levels(side) == b0.levels(side)
            &&& b1.locations() == b0.locations().remove_keys(id_set(s.filled))
            &&& b1.last_trade() == (if s.last_price is Some { s.last_price } else { b0.last_trade() })
            &&& b1.market_close() == b0.market_close()
            &&& b1.symbol_view() == b0.symbol_view()
        }
    }

    /// What matching answers: with the opposite side empty, a market order
    /// is refused for insufficient liquidity and a limit order comes back with
    /// no trade and not complete; otherwise a market order that traded nothing
    /// is refused for insufficient liquidity and every other order gets the
    /// sweep's trades, remainder and filled orders.
    pub open spec fn match_result_post(
        b0: OrderBook,
        id: OrderId,
        side: Side,
        quantity: u64,
        limit: Option<u64>,
        r: Result<MatchResult, OrderBookError>,
    ) -> bool {
        let m = side.opposite();
        if b0.levels(m).is_empty() {
            match limit {
                None => is_insufficient(r, side, quantity, 0),
                Some(_) => match r {
                    Ok(mr) => {
                        &&& mr.order_id == id
                        &&& mr.transactions.transactions@.len() == 0
                        &&& mr.remaining_quantity == quantity
                        &&& !mr.is_complete
                        &&& mr.filled_order_ids@.len() == 0
                    },
                    Err(_) => false,
                },
            }
        } else {
            let s = b0.match_sweep(side, quantity, limit);
            if limit is None && s.remaining == quantity {
                is_insufficient(r, side, quantity, 0)
            } else {
                match r {
                    Ok(mr) => reports_sweep(mr, id, side, s),
                    Err(_) => false,
                }
            }
        }
    }

    /// What matching does and answers.
    pub open spec fn match_post(
        b0: OrderBook,
        b1: OrderBook,
        id: OrderId,
        side: Side,
        quantity: u64,
        limit: Option<u64>,
        r: Result<MatchResult, OrderBookError>,
    ) -> bool {
        &&& OrderBook::match_state_post(b0, b1, side, quantity, limit)
        &&& OrderBook::match_result_post(b0, id, side, quantity, limit, r)
    }

    /// What else matching guarantees: with quantity zero and no level of the
    /// opposite side reading zero orders, the book keeps its contents; the
    /// trades and what remains add up to the quantity; and every opposite
    /// level strictly better than a trade's price has no live order left.
    pub open spec fn match_facts(b0: OrderBook, b1: OrderBook, side: Side, quantity: u64, r: Result<MatchResult, OrderBookError>) -> bool {
        &&& quantity == 0 && counters_nonzero(b0.levels(side.opposite())) ==> b1.same_contents(&b0)
        &&& b0.intact() && shows_positive(b0.levels(side.opposite())) ==> b1.intact()
        &&& r matches Ok(mr) ==> total_quantity(mr.transactions.transactions@) + mr.remaining_quantity == quantity
        &&& r matches Ok(mr) ==> forall|i: int, q: u64| 0 <= i < mr.transactions.transactions@.len()
            && #[trigger] b1.levels(side.opposite()).contains_key(q)
            && after(q, #[trigger] mr.transactions.transactions@[i].price, ascending_for(side))
            ==> b1.levels(side.opposite())[q].orders.len() == 0
    }

    /// Match an incoming order of `side` for `quantity` against the opposite
    /// side, best price first, up to `limit_price` when there is one.
    pub fn match_order(
        &mut self,
        order_id: OrderId,
        side: Side,
        quantity: u64,
        limit_price: Option<u64>,
    ) -> (r: Result<MatchResult, OrderBookError>)
        requires
            old(self).wf(),
            old(self).sweep_ok(side, quantity, limit_price),
        ensures
            final(self).clock_reading() == old(self).clock_reading(),
            final(self).wf(),
            OrderBook::match_post(*old(self), *final(self), order_id, side, quantity, limit_price, r),
            OrderBook::match_facts(*old(self), *final(self), side, quantity, r),
    {
        proof {
            self.lemma_levels_dom();
            self.lemma_views();
            self.lemma_wf_sides();
        }
        let opposite_empty = match side {
            Side::Buy => self.asks.is_empty(),
            Side::Sell => self.bids.is_empty(),
        };
        if opposite_empty {
            if limit_price.is_none() {
                return Err(OrderBookError::InsufficientLiquidity { side, requested: quantity, available: 0 });
            }
            let mut match_result = MatchResult::new(order_id, quantity);
            match_result.remaining_quantity = quantity;
            proof {
                assert(self.same_contents(&*old(self)));
            }
            return Ok(match_result);
        }
        let ghost b0 = *self;
        let fill = match side {
            Side::Buy => {
                let f = sweep_side(&mut self.asks, true, order_id, quantity, limit_price, &self.transaction_id_generator);
                proof {
                    assert(self.bids == b0.bids);
                }
                f
            },
            Side::Sell => {
                let f = sweep_side(&mut self.bids, false, order_id, quantity, limit_price, &self.transaction_id_generator);
                proof {
                    assert(self.asks == b0.asks);
                }
                f
            },
        };
        if let Some(p) = fill.last_price {
            self.last_trade_price = p;
            self.has_traded = true;
        }
        proof {
            self.lemma_views();
            b0.lemma_views();
        }
        let ghost loc0 = self.locations();
        let ghost b1 = *self;
        let mut i: usize = 0;
        while i < fill.filled.len()
            invariant
                i <= fill.filled@.len(),
                self.bids == b1.bids,
                self.asks == b1.asks,
                self.cache == b1.cache,
                self.has_traded == b1.has_traded,
                self.last_trade_price == b1.last_trade_price,
                self.has_market_close == b1.has_market_close,
                self.market_close_timestamp == b1.market_close_timestamp,
                self.symbol == b1.symbol,
                self.clock == b1.clock,
                self.locations() == loc0.remove_keys(fill.filled@.take(i as int).map_values(|x: OrderId| x.0).to_set()),
            decreases fill.filled@.len() - i,
        {
            proof {
                self.lemma_views();
            }
            let ghost before = self.locations();
            locations_remove(&mut self.order_locations, fill.filled[i].0);
            proof {
                self.lemma_views();
                let a = fill.filled@.take(i as int).map_values(|x: OrderId| x.0);
                let x = fill.filled@[i as int].0;
                assert(fill.filled@.take(i + 1).map_values(|x: OrderId| x.0) =~= a.push(x));
                assert(a.push(x).to_set() =~= a.to_set().insert(x)) by {
                    assert forall|y: u128| #[trigger] a.push(x).to_set().contains(y) <==> a.to_set().insert(x).contains(y) by {
                        if a.push(x).contains(y) {
                            let j = choose|j: int| 0 <= j < a.push(x).len() && a.push(x)[j] == y;
                            if j < a.len() {
                                assert(a[j] == y);
                            }
                        }
                        if a.contains(y) {
                            let j = choose|j: int| 0 <= j < a.len() && a[j] == y;
                            assert(a.push(x)[j] == y);
                        }
                        if y == x {
                            assert(a.push(x)[a.len() as int] == y);
                        }
                    }
                }
                assert(loc0.remove_keys(a.to_set().insert(x)) =~= loc0.remove_keys(a.to_set()).remove(x));
            }
            i = i + 1;
        }
        proof {
            self.lemma_views();
        }
        let ghost loc_end = self.locations();
        self.cache.invalidate();
        proof {
            self.lemma_views();
            assert(self.locations() == loc_end);
            let s = b0.match_sweep(side, quantity, limit_price);
            assert(fill.filled@.take(fill.filled@.len() as int) =~= fill.filled@);
            assert(fill.filled@.map_values(|x: OrderId| x.0) =~= s.filled);
            assert(loc0 == b0.locations());
            assert(fill.filled@.take(i as int) == fill.filled@);
            assert(fill.filled@.take(i as int).map_values(|x: OrderId| x.0) == s.filled);
            assert(fill.filled@.take(i as int).map_values(|x: OrderId| x.0).to_set() == id_set(s.filled));
            assert(self.locations() == b0.locations().remove_keys(id_set(s.filled)));
            self.lemma_levels_dom();
            self.lemma_views();
            self.lemma_wf_intro();
            if quantity == 0 && counters_nonzero(b0.levels(side.opposite())) {
                assert(fill.filled@.len() == 0);
                assert(fill.filled@.map_values(|x: OrderId| x.0).to_set() =~= Set::<u128>::empty());
                assert(self.locations() =~= b0.locations());
                assert(self.levels(side.opposite()) == b0.levels(side.opposite()));
            }
            if b0.intact() && shows_positive(b0.levels(side.opposite())) {
                lemma_sweep_keeps_intact(b0, *self, side, fill.filled@, s.filled);
            }
        }
        if limit_price.is_none() && fill.remaining == quantity {
            return Err(OrderBookError::InsufficientLiquidity { side, requested: quantity, available: 0 });
        }
        let remaining = fill.remaining;
        Ok(MatchResult {
            order_id,
            transactions: TransactionList { transactions: fill.transactions },
            remaining_quantity: remaining,
            is_complete: remaining == 0,
            filled_order_ids: fill.filled,
        })
    }
}

/// A level's shown plus hidden quantity.
pub open spec fn level_total(s: LevelState) -> int {
    s.visible + s.hidden
}

/// How much of `quantity` the levels at the prices in `todo` could fill,
/// best price first, given `matched` already: stop once `quantity` is reached,
/// skip prices past the limit, and take from each level at most its total.
pub open spec fn peek(levels: Map<u64, LevelState>, todo: Set<u64>, ascending: bool, quantity: u64, matched: u64, limit: Option<u64>) -> u64
    decreases todo.len(),
{
    if !todo.finite() || todo.len() == 0 {
        matched
    } else {
        let p = best_price(todo, ascending);
        if !todo.contains(p) || matched >= quantity {
            matched
        } else if beyond_limit(p, ascending, limit) {
            peek(levels, todo.remove(p), ascending, quantity, matched, limit)
        } else {
            let avail = level_total(levels[p]);
            let take = if quantity - matched <= avail { quantity - matched } else { avail };
            peek(levels, todo.remove(p), ascending, quantity, (matched + take) as u64, limit)
        }
    }
}

/// Peeking never finds more than was asked for.
pub proof fn lemma_peek_bounded(levels: Map<u64, LevelState>, todo: Set<u64>, ascending: bool, quantity: u64, matched: u64, limit: Option<u64>)
    requires
        matched <= quantity,
    ensures
        matched <= peek(levels, todo, ascending, quantity, matched, limit) <= quantity,
    decreases todo.len(),
{
    if todo.finite() && todo.len() > 0 {
        let p = best_price(todo, ascending);
        if todo.contains(p) && matched < quantity {
            let avail = level_total(levels[p]);
            let take = if quantity - matched <= avail { quantity - matched } else { avail };
            if beyond_limit(p, ascending, limit) {
                lemma_peek_bounded(levels, todo.remove(p), ascending, quantity, matched, limit);
            } else {
                lemma_peek_bounded(levels, todo.remove(p), ascending, quantity, (matched + take) as u64, limit);
            }
        }
    }
}

/// The shown plus hidden quantity of the levels at the prices in `todo` that
/// are not past the limit.
pub open spec fn allowed_total(levels: Map<u64, LevelState>, todo: Set<u64>, ascending: bool, limit: Option<u64>) -> int
    decreases todo.len(),
{
    if !todo.finite() || todo.len() == 0 {
        0
    } else {
        let p = best_price(todo, ascending);
        if !todo.contains(p) {
            0
        } else {
            (if beyond_limit(p, ascending, limit) { 0 } else { level_total(levels[p]) })
                + allowed_total(levels, todo.remove(p), ascending, limit)
        }
    }
}

/// Allowed totals are never negative.
pub proof fn lemma_allowed_total_nonnegative(levels: Map<u64, LevelState>, todo: Set<u64>, ascending: bool, limit: Option<u64>)
    ensures
        allowed_total(levels, todo, ascending, limit) >= 0,
    decreases todo.len(),
{
    if todo.finite() && todo.len() > 0 {
        let p = best_price(todo, ascending);
        if todo.contains(p) {
            lemma_allowed_total_nonnegative(levels, todo.remove(p), ascending, limit);
        }
    }
}

/// Peeking finds the smaller of what is asked for and what the allowed
/// levels hold, on top of what was already found.
pub proof fn lemma_peek_closed_form(levels: Map<u64, LevelState>, todo: Set<u64>, ascending: bool, quantity: u64, matched: u64, limit: Option<u64>)
    requires
        matched <= quantity,
    ensures
        peek(levels, todo, ascending, quantity, matched, limit) == (if matched + allowed_total(levels, todo, ascending, limit) <= quantity {
            matched + allowed_total(levels, todo, ascending, limit)
        } else {
            quantity as int
        }),
    decreases todo.len(),
{
    lemma_allowed_total_nonnegative(levels, todo, ascending, limit);
    if todo.finite() && todo.len() > 0 {
        let p = best_price(todo, ascending);
        if todo.contains(p) {
            lemma_allowed_total_nonnegative(levels, todo.remove(p), ascending, limit);
            if matched < quantity {
                let avail = level_total(levels[p]);
                let take = if quantity - matched <= avail { quantity - matched } else { avail };
                if beyond_limit(p, ascending, limit) {
                    lemma_peek_closed_form(levels, todo.remove(p), ascending, quantity, matched, limit);
                } else {
                    lemma_peek_closed_form(levels, todo.remove(p), ascending, quantity, (matched + take) as u64, limit);
                }
            }
        }
    }
}

impl OrderBook {
    /// How much of `quantity` an incoming order of `side` could fill against
    /// the opposite side, up to `price_limit` when there is one, without
    /// changing the book.
    pub open spec fn peek_spec(&self, side: Side, quantity: u64, price_limit: Option<u64>) -> u64 {
        let m = side.opposite();
        peek(self.levels(m), self.levels(m).dom(), ascending_for(side), quantity, 0, price_limit)
    }

    /// How much of `quantity` an incoming order of `side` could fill against
    /// the opposite side, up to `price_limit`, without changing the book.
    pub fn peek_match(&self, side: Side, quantity: u64, price_limit: Option<u64>) -> (r: u64)
        requires
            self.wf(),
        ensures
            r == self.peek_spec(side, quantity, price_limit),
            r <= quantity,
    {
        proof {
            self.lemma_views();
            self.lemma_levels_dom();
            lemma_peek_bounded(self.levels(side.opposite()), self.levels(side.opposite()).dom(), ascending_for(side), quantity, 0, price_limit);
        }
        let ascending = match side {
            Side::Buy => true,
            Side::Sell => false,
        };
        let levels = match side {
            Side::Buy => &self.asks,
            Side::Sell => &self.bids,
        };
        let ghost lv = side_view(levels@);
        let ghost d0 = levels@.dom();
        proof {
            assert(lv.dom() =~= d0);
            self.lemma_wf_sides();
        }
        if levels.is_empty() {
            proof {
                assert(d0.len() == 0);
            }
            return 0;
        }
        let prices = collect_prices(levels);
        let mut matched: u64 = 0;
        let mut last: Option<u64> = None;
        proof {
            assert(rest_after(d0, None, ascending) == d0);
        }
        loop
            invariant
                prices@.to_set() == d0,
                prices@.no_duplicates(),
                d0.finite(),
                lv.dom() == d0,
                lv == side_view(levels@),
                d0 == levels@.dom(),
                matched <= quantity,
                peek(lv, rest_after(d0, last, ascending), ascending, quantity, matched, price_limit)
                    == peek(lv, d0, ascending, quantity, 0, price_limit),
            ensures
                matched == peek(lv, d0, ascending, quantity, 0, price_limit),
            decreases rest_after(d0, last, ascending).len(),
        {
            let ghost todo = rest_after(d0, last, ascending);
            proof {
                assert(todo.finite()) by {
                    match last {
                        None => {},
                        Some(l) => {
                            assert(todo =~= d0.filter(|q: u64| after(l, q, ascending)));
                        },
                    }
                }
            }
            let next = next_price(&prices, last, ascending);
            match next {
                None => {
                    proof {
                        assert(todo.len() == 0);
                        assert(peek(lv, todo, ascending, quantity, matched, price_limit) == matched);
                    }
                    break;
                },
                Some(p) => {
                    proof {
                        lemma_best_exists(todo, ascending);
                        assert(todo.len() > 0) by {
                            assert(todo.contains(p));
                        }
                        lemma_rest_after_step(d0, last, p, ascending);
                    }
                    if matched >= quantity {
                        proof {
                            assert(peek(lv, todo, ascending, quantity, matched, price_limit) == matched);
                        }
                        break;
                    }
                    let past = match price_limit {
                        None => false,
                        Some(l) => if ascending { p > l } else { p < l },
                    };
                    if !past {
                        let level = levels.get(&p).unwrap();
                        let visible = level_visible(level);
                        let hidden = level_hidden(level);
                        let available = visible.saturating_add(hidden);
                        let needed = quantity - matched;
                        let take = if needed <= available { needed } else { available };
                        matched = matched + take;
                    }
                    last = Some(p);
                },
            }
        }
        matched
    }
}

} // verus!
