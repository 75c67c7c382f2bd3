//! What holds of the book across operations.

use vstd::prelude::*;
use crate::book::{OrderBook, side_ok, side_view, ascending_for};
use crate::execution::MatchResult;
use crate::error::OrderBookError;
use crate::matching::{
    sweep, sweep_here, sweep_done, beyond_limit, reach_ok, counters_nonzero, shows_positive, holds, swept_levels, trades_are, trade_is, allowed_total,
    lemma_peek_closed_form,
};
use crate::updates::level_requantified;
use crate::modifications::{level_with, level_without, level_at, crosses, invalid_operation, expired_message};
use crate::orders::{OrderId, OrderType, OrderUpdate, Side, TimeInForce};
use crate::outside::{LevelState, level_matchable, count_inc, count_dec, wrap_add, wrap_sub};
use crate::prices::{is_best, best_price, lemma_best_exists};
use crate::queries::{shows_top, top_prices, level_volumes};

verus! {

/// Two states of a level hold the same live orders and counters (the queue,
/// which also remembers identifiers of orders gone, may differ).
pub open spec fn same_level_contents(a: LevelState, b: LevelState) -> bool {
    &&& a.price == b.price
    &&& a.orders == b.orders
    &&& a.order_count == b.order_count
    &&& a.visible == b.visible
    &&& a.hidden == b.hidden
}

/// The prices of the trades of a sweep over the prices `todo` are prices of
/// `todo`, none past the limit, and they come in walking order.
proof fn lemma_sweep_trade_prices(levels: Map<u64, LevelState>, todo: Set<u64>, ascending: bool, remaining: u64, limit: Option<u64>)
    ensures
        ({
            let ts = sweep(levels, todo, ascending, remaining, limit).trades;
            &&& forall|i: int| 0 <= i < ts.len() ==> todo.contains(#[trigger] ts[i].price) && !beyond_limit(ts[i].price, ascending, limit)
            &&& forall|i: int, j: int| 0 <= i < j < ts.len() ==>
                (if ascending { #[trigger] ts[i].price <= #[trigger] ts[j].price } else { ts[i].price >= ts[j].price })
        }),
    decreases todo.len(),
{
    if todo.finite() && todo.len() > 0 {
        let p = best_price(todo, ascending);
        if todo.contains(p) && !beyond_limit(p, ascending, limit) {
            lemma_best_exists(todo, ascending);
            let here = sweep_here(levels, p, remaining);
            assert(forall|i: int| 0 <= i < here.trades.len() ==> #[trigger] here.trades[i].price == p);
            if here.remaining != 0 {
                let rest_todo = todo.remove(p);
                lemma_sweep_trade_prices(here.levels, rest_todo, ascending, here.remaining, limit);
                let rest = sweep(here.levels, rest_todo, ascending, here.remaining, limit);
                let ts = here.trades + rest.trades;
                assert forall|i: int| 0 <= i < ts.len() implies todo.contains(#[trigger] ts[i].price)
                    && !beyond_limit(ts[i].price, ascending, limit) by {
                    if i >= here.trades.len() {
                        assert(ts[i] == rest.trades[i - here.trades.len()]);
                    }
                }
                assert forall|i: int, j: int| 0 <= i < j < ts.len() implies
                    (if ascending { #[trigger] ts[i].price <= #[trigger] ts[j].price } else { ts[i].price >= ts[j].price }) by {
                    if j >= here.trades.len() {
                        let rj = rest.trades[j - here.trades.len()];
                        assert(ts[j] == rj);
                        assert(rest_todo.contains(rj.price));
                        assert(todo.contains(rj.price));
                        if i >= here.trades.len() {
                            assert(ts[i] == rest.trades[i - here.trades.len()]);
                        }
                    }
                }
            }
        }
    }
}

/// Every trade of a match has the incoming order as its taker, on its side.
/// Matching trades only at prices where the opposite side had a level, never
/// past the limit (at or below it for a buyer, at or above it for a seller),
/// and best price first: a buyer's trade prices never go down, a seller's
/// never go up.
pub proof fn law_trades_best_price_first(
    b0: OrderBook,
    b1: OrderBook,
    id: OrderId,
    side: Side,
    quantity: u64,
    limit: Option<u64>,
    mr: MatchResult,
)
    requires
        OrderBook::match_post(b0, b1, id, side, quantity, limit, Ok(mr)),
    ensures
        forall|i: int| 0 <= i < mr.transactions.transactions@.len() ==> {
            let t = #[trigger] mr.transactions.transactions@[i];
            &&& t.taker_order_id == id
            &&& t.taker_side == side
            &&& b0.levels(side.opposite()).contains_key(t.price)
            &&& match limit {
                Some(l) => if side == Side::Buy { t.price <= l } else { t.price >= l },
                None => true,
            }
        },
        forall|i: int, j: int| 0 <= i < j < mr.transactions.transactions@.len() ==>
            if side == Side::Buy {
                #[trigger] mr.transactions.transactions@[i].price <= #[trigger] mr.transactions.transactions@[j].price
            } else {
                mr.transactions.transactions@[i].price >= mr.transactions.transactions@[j].price
            },
{
    let m = side.opposite();
    let ts = mr.transactions.transactions@;
    if !b0.levels(m).is_empty() {
        let s = b0.match_sweep(side, quantity, limit);
        let asc = side == Side::Buy;
        lemma_sweep_trade_prices(b0.levels(m), b0.levels(m).dom(), asc, quantity, limit);
        assert(trades_are(ts, s.trades, id, side));
        assert forall|i: int| 0 <= i < ts.len() implies #[trigger] ts[i].price == s.trades[i].price by {
            assert(trade_is(ts[i], s.trades[i], id, side));
        }
    }
}

/// A sweep leaves alone every level whose price it does not walk or that is
/// past the limit, and empties none of them.
proof fn lemma_sweep_keeps_beyond(levels: Map<u64, LevelState>, todo: Set<u64>, ascending: bool, remaining: u64, limit: Option<u64>, q: u64)
    requires
        !todo.contains(q) || beyond_limit(q, ascending, limit),
    ensures
        sweep(levels, todo, ascending, remaining, limit).levels.contains_key(q) == levels.contains_key(q),
        levels.contains_key(q) ==> sweep(levels, todo, ascending, remaining, limit).levels[q] == levels[q],
        !sweep(levels, todo, ascending, remaining, limit).emptied.contains(q),
    decreases todo.len(),
{
    if todo.finite() && todo.len() > 0 {
        let p = best_price(todo, ascending);
        if todo.contains(p) && !beyond_limit(p, ascending, limit) {
            assert(q != p);
            let here = sweep_here(levels, p, remaining);
            if here.remaining != 0 {
                lemma_sweep_keeps_beyond(here.levels, todo.remove(p), ascending, here.remaining, limit, q);
            }
        }
    }
}

/// Matching leaves every level of the opposite side that is past the limit
/// exactly as it was: a buyer never touches asks above its limit, a seller
/// never touches bids below it.
pub proof fn law_levels_past_limit_untouched(
    b0: OrderBook,
    b1: OrderBook,
    side: Side,
    quantity: u64,
    limit: Option<u64>,
)
    requires
        OrderBook::match_state_post(b0, b1, side, quantity, limit),
    ensures
        forall|p: u64| #[trigger] b0.levels(side.opposite()).contains_key(p) && beyond_limit(p, ascending_for(side), limit)
            ==> b1.levels(side.opposite()).contains_key(p) && b1.levels(side.opposite())[p] == b0.levels(side.opposite())[p],
{
    let m = side.opposite();
    if !b0.levels(m).is_empty() {
        assert forall|p: u64| #[trigger] b0.levels(m).contains_key(p) && beyond_limit(p, ascending_for(side), limit)
            implies b1.levels(m).contains_key(p) && b1.levels(m)[p] == b0.levels(m)[p] by {
            lemma_sweep_keeps_beyond(b0.levels(m), b0.levels(m).dom(), ascending_for(side), quantity, limit, p);
        }
    }
}

/// Peeking finds the smaller of the quantity asked for and the total shown
/// plus hidden quantity of the opposite levels that are not past the limit.
pub proof fn law_peek_closed_form(b: OrderBook, side: Side, quantity: u64, limit: Option<u64>)
    ensures
        b.peek_spec(side, quantity, limit) == ({
            let total = allowed_total(b.levels(side.opposite()), b.levels(side.opposite()).dom(), ascending_for(side), limit);
            if total <= quantity { total } else { quantity as int }
        }),
{
    lemma_peek_closed_form(b.levels(side.opposite()), b.levels(side.opposite()).dom(), ascending_for(side), quantity, 0, limit);
}

/// An order that was just placed is found under its identifier.
pub proof fn law_placed_order_is_found(b0: OrderBook, b1: OrderBook, o: OrderType)
    requires
        OrderBook::placed(b0, b1, o),
    ensures
        b1.order_spec(o.id()) == Some(o),
{
}

/// The counters' wrapping addition is undone by their wrapping subtraction.
proof fn lemma_wrap_roundtrip(a: u64, b: u64)
    ensures
        wrap_sub(wrap_add(a, b), b) == a,
{
    let m = 0x1_0000_0000_0000_0000int;
    let s = a as int + b as int;
    vstd::arithmetic::div_mod::lemma_small_mod(a as nat, m as nat);
    if s < m {
        vstd::arithmetic::div_mod::lemma_small_mod(s as nat, m as nat);
        assert(wrap_add(a, b) as int == s);
        vstd::arithmetic::div_mod::lemma_mod_add_multiples_vanish(a as int, m);
        assert(s - b + m == m + a);
    } else {
        vstd::arithmetic::div_mod::lemma_mod_sub_multiples_vanish(s, m);
        vstd::arithmetic::div_mod::lemma_small_mod((s - m) as nat, m as nat);
        assert(wrap_add(a, b) as int == s - m);
        assert(wrap_add(a, b) - b + m == a);
    }
}

/// The order counter's wrapping increment is undone by its wrapping decrement.
proof fn lemma_count_roundtrip(c: usize)
    ensures
        count_dec(count_inc(c)) == c,
{
    let m = usize::MAX as int + 1;
    let s = c as int + 1;
    vstd::arithmetic::div_mod::lemma_small_mod(c as nat, m as nat);
    if s < m {
        vstd::arithmetic::div_mod::lemma_small_mod(s as nat, m as nat);
        assert(count_inc(c) as int == s);
        vstd::arithmetic::div_mod::lemma_mod_add_multiples_vanish(c as int, m);
        assert(s - 1 + m == m + c);
    } else {
        vstd::arithmetic::div_mod::lemma_mod_self_0(m);
        assert(count_inc(c) == 0);
        vstd::arithmetic::div_mod::lemma_small_mod((m - 1) as nat, m as nat);
        assert(0 - 1 + m == m - 1);
    }
}

/// Cancelling an order right after placing it leaves every level with the
/// live orders and counters it had before, and the locations as they were.
/// It holds when the identifier was neither located nor live at that level,
/// and the level, if there was one, did not read zero orders.
pub proof fn law_cancel_undoes_place(b0: OrderBook, b1: OrderBook, b2: OrderBook, o: OrderType, r: Option<OrderType>)
    requires
        b0.wf(),
        OrderBook::placed(b0, b1, o),
        OrderBook::cancel_post(b1, b2, o.id(), r),
        !b0.locations().contains_key(o.id().0),
        b0.levels(o.side()).contains_key(o.price()) ==> {
            &&& !b0.levels(o.side())[o.price()].orders.contains_key(o.id().0)
            &&& b0.levels(o.side())[o.price()].order_count != 0
        },
    ensures
        r == Some(o),
        b2.locations() == b0.locations(),
        b2.levels(o.side().opposite()) == b0.levels(o.side().opposite()),
        b2.levels(o.side()).dom() == b0.levels(o.side()).dom(),
        forall|p: u64| #[trigger] b0.levels(o.side()).contains_key(p) ==>
            same_level_contents(b2.levels(o.side())[p], b0.levels(o.side())[p]),
        b2.last_trade() == b0.last_trade(),
        b2.market_close() == b0.market_close(),
        b2.symbol_view() == b0.symbol_view(),
{
    let s = o.side();
    let p = o.price();
    let id = o.id().0;
    let l0 = level_at(b0.levels(s), p);
    let base = match l0 {
        Some(x) => x,
        None => crate::outside::empty_level(p),
    };
    let with = level_with(l0, p, o);
    assert(b1.order_spec(o.id()) == Some(o));
    let after = level_without(with, id);
    lemma_wrap_roundtrip(base.visible, o.visible_quantity());
    lemma_wrap_roundtrip(base.hidden, o.hidden_quantity());
    lemma_count_roundtrip(base.order_count);
    assert(after.orders =~= base.orders);
    assert(b2.locations() =~= b0.locations());
    match l0 {
        None => {
            assert(after.order_count == 0);
            assert(b2.levels(s) =~= b0.levels(s));
        },
        Some(x) => {
            assert(after.order_count != 0);
            assert(b2.levels(s).dom() =~= b0.levels(s).dom());
        },
    }
}

/// Cancelling an order a second time finds nothing and changes nothing.
pub proof fn law_cancel_twice(b0: OrderBook, b1: OrderBook, b2: OrderBook, id: OrderId, first: Option<OrderType>, second: Option<OrderType>)
    requires
        OrderBook::cancel_post(b0, b1, id, first),
        OrderBook::cancel_post(b1, b2, id, second),
    ensures
        second.is_none(),
        b2.same_contents(&b1),
{
    if b0.order_spec(id).is_some() {
        assert(!b1.locations().contains_key(id.0));
    }
}

/// A post-only order never takes liquidity: adding it is refused, or it
/// trades nothing, and the opposite side is left as it was.
pub proof fn law_post_only_never_takes(
    b0: OrderBook,
    b1: OrderBook,
    o: OrderType,
    now: u64,
    r: Result<(OrderType, Option<MatchResult>), OrderBookError>,
)
    requires
        b0.wf(),
        o.is_post_only(),
        OrderBook::add_post(b0, b1, o, now, r),
    ensures
        r matches Ok((_, Some(mr))) ==> mr.transactions.transactions@.len() == 0,
        r is Ok ==> b1.levels(o.side().opposite()) == b0.levels(o.side().opposite()),
{
    let side = o.side();
    let m = side.opposite();
    let p = o.price();
    let asc = side == Side::Buy;
    b0.lemma_views();
    b0.lemma_wf_sides();
    let dom = b0.levels(m).dom();
    assert(dom.finite()) by {
        match side {
            Side::Buy => assert(side_ok(side_view(b0.asks@), Side::Sell)),
            Side::Sell => assert(side_ok(side_view(b0.bids@), Side::Buy)),
        }
    }
    if !o.time_in_force().is_expired(now, b0.market_close()) && !crosses(dom, p, side) && o.is_immediate()
        && !b0.levels(m).is_empty() {
        lemma_best_exists(dom, asc);
        let best = best_price(dom, asc);
        assert(beyond_limit(best, asc, Some(p))) by {
            match side {
                Side::Buy => assert(!(p >= best)),
                Side::Sell => assert(!(p <= best)),
            }
        }
        assert(dom.len() > 0) by {
            assert(dom.contains(best));
        }
        let q = o.visible_quantity();
        let s = b0.match_sweep(side, q, Some(p));
        assert(s == sweep_done(b0.levels(m), q));
        assert(swept_levels(s) =~= b0.levels(m));
    }
}

/// The first level of a snapshot's side is the best level of that side of
/// the book, and the side has one as soon as the book's side is not empty.
pub proof fn law_snapshot_top_is_best(b: OrderBook, bids: Seq<crate::execution::PriceLevelSnapshot>, asks: Seq<crate::execution::PriceLevelSnapshot>, depth: nat)
    requires
        b.wf(),
        depth > 0,
        shows_top(bids, b.levels(Side::Buy), false, depth),
        shows_top(asks, b.levels(Side::Sell), true, depth),
    ensures
        (bids.len() > 0) == !b.levels(Side::Buy).is_empty(),
        bids.len() > 0 ==> is_best(b.levels(Side::Buy).dom(), bids[0].price, false),
        (asks.len() > 0) == !b.levels(Side::Sell).is_empty(),
        asks.len() > 0 ==> is_best(b.levels(Side::Sell).dom(), asks[0].price, true),
{
    b.lemma_views();
    b.lemma_wf_sides();
    let bd = b.levels(Side::Buy).dom();
    let ad = b.levels(Side::Sell).dom();
    if !b.levels(Side::Buy).is_empty() {
        lemma_best_exists(bd, false);
        let top = best_price(bd, false);
        assert(bd.len() > 0) by { assert(bd.contains(top)); }
        assert(top_prices(bd, false, depth)[0] == top);
        assert(b.levels(Side::Buy)[top].price == top);
    } else {
        assert(bd.len() == 0) by { assert(bd =~= Set::<u64>::empty()); }
    }
    if !b.levels(Side::Sell).is_empty() {
        lemma_best_exists(ad, true);
        let top = best_price(ad, true);
        assert(ad.len() > 0) by { assert(ad.contains(top)); }
        assert(top_prices(ad, true, depth)[0] == top);
        assert(b.levels(Side::Sell)[top].price == top);
    } else {
        assert(ad.len() == 0) by { assert(ad =~= Set::<u64>::empty()); }
    }
}

/// A sweep over the prices `todo` whose levels within the limit can all be
/// matched against reaches only levels that can be matched against.
proof fn lemma_reach_ok_when_matchable(levels: Map<u64, LevelState>, todo: Set<u64>, ascending: bool, remaining: u64, limit: Option<u64>)
    requires
        forall|p: u64| #[trigger] todo.contains(p) && !beyond_limit(p, ascending, limit) ==> level_matchable(levels[p]),
    ensures
        reach_ok(levels, todo, ascending, remaining, limit),
    decreases todo.len(),
{
    if todo.finite() && todo.len() > 0 {
        let p = best_price(todo, ascending);
        if todo.contains(p) && !beyond_limit(p, ascending, limit) {
            let here = sweep_here(levels, p, remaining);
            if here.remaining != 0 {
                let rest = todo.remove(p);
                assert forall|q: u64| #[trigger] rest.contains(q) && !beyond_limit(q, ascending, limit)
                    implies level_matchable(here.levels[q]) by {
                    assert(todo.contains(q));
                    assert(here.levels[q] == levels[q]);
                }
                lemma_reach_ok_when_matchable(here.levels, rest, ascending, here.remaining, limit);
            }
        }
    }
}

/// Matching can run whenever every level of the opposite side within the
/// limit holds only orders that can be matched against: the condition that
/// matching asks of the levels it reaches then holds for every quantity.
pub proof fn law_sweep_ok_when_levels_matchable(b: OrderBook, side: Side, quantity: u64, limit: Option<u64>)
    requires
        forall|p: u64| #[trigger] b.levels(side.opposite()).contains_key(p)
            && !beyond_limit(p, ascending_for(side), limit)
            ==> level_matchable(b.levels(side.opposite())[p]),
    ensures
        b.sweep_ok(side, quantity, limit),
{
    let m = side.opposite();
    lemma_reach_ok_when_matchable(b.levels(m), b.levels(m).dom(), ascending_for(side), quantity, limit);
}

/// Any update of an order that the book holds no record of answers that no
/// order was found and leaves the book's contents as they were.
pub proof fn law_update_unknown_order_changes_nothing(
    b0: OrderBook,
    b1: OrderBook,
    update: OrderUpdate,
    now: u64,
    r: Result<Option<OrderType>, OrderBookError>,
)
    requires
        OrderBook::update_post(b0, b1, update, now, r),
        !b0.locations().contains_key(update.target().0),
    ensures
        r == Ok::<Option<OrderType>, OrderBookError>(None),
        b1.same_contents(&b0),
{
}

/// The level at `p` on side `s` of a well-formed book holds finitely many orders.
proof fn lemma_level_finite(b: OrderBook, s: Side, p: u64)
    requires
        b.wf(),
        b.levels(s).contains_key(p),
    ensures
        b.levels(s)[p].orders.dom().finite(),
{
    b.lemma_views();
    b.lemma_wf_sides();
    match s {
        Side::Buy => assert(b.levels(Side::Buy).contains_key(p)),
        Side::Sell => assert(b.levels(Side::Sell).contains_key(p)),
    }
}

/// The order counter's wrapping decrement of a positive count takes one off.
pub(crate) proof fn lemma_count_dec_positive(c: usize)
    requires
        c > 0,
    ensures
        count_dec(c) == c - 1,
{
    let m = usize::MAX as int + 1;
    vstd::arithmetic::div_mod::lemma_mod_add_multiples_vanish(c as int - 1, m);
    vstd::arithmetic::div_mod::lemma_small_mod((c - 1) as nat, m as nat);
    assert(c as int - 1 + usize::MAX as int + 1 == m + (c as int - 1));
}

/// A book with no levels and no recorded locations, as a new book starts, is intact.
pub proof fn law_empty_book_intact(b: OrderBook)
    requires
        b.levels(Side::Buy).is_empty(),
        b.levels(Side::Sell).is_empty(),
        b.locations().is_empty(),
    ensures
        b.intact(),
{
    assert forall|k: u128, p: u64, s: Side| #[trigger] b.rests(k, p, s) implies
        b.locations().contains_key(k) && b.locations()[k] == (p, s) by {
        assert(b.levels(s).contains_key(p));
        match s {
            Side::Buy => assert(b.levels(Side::Buy).dom().contains(p)),
            Side::Sell => assert(b.levels(Side::Sell).dom().contains(p)),
        }
    }
    assert forall|p: u64, s: Side| #[trigger] b.levels(s).contains_key(p) implies {
        &&& b.levels(s)[p].orders.len() > 0
        &&& b.levels(s)[p].order_count == b.levels(s)[p].orders.len()
    } by {
        match s {
            Side::Buy => assert(b.levels(Side::Buy).dom().contains(p)),
            Side::Sell => assert(b.levels(Side::Sell).dom().contains(p)),
        }
    }
    assert forall|k: u128| #[trigger] b.locations().contains_key(k)
        implies b.rests(k, b.locations()[k].0, b.locations()[k].1) by {
        assert(b.locations().dom().contains(k));
    }
}

/// Placing an order whose identifier the book holds no record of keeps an
/// intact book intact. (A reused identifier would leave the earlier order
/// resting under a location that no longer names it; a level whose counter
/// is at its largest value would wrap.)
pub proof fn law_place_keeps_intact(b0: OrderBook, b1: OrderBook, o: OrderType)
    requires
        b0.wf(),
        b0.intact(),
        OrderBook::placed(b0, b1, o),
        !b0.locations().contains_key(o.id().0),
        b0.levels(o.side()).contains_key(o.price()) ==> b0.levels(o.side())[o.price()].order_count < usize::MAX,
    ensures
        b1.intact(),
{
    b0.lemma_views();
    let s0 = o.side();
    let p0 = o.price();
    let id = o.id().0;
    let l0 = level_at(b0.levels(s0), p0);
    let base = match l0 {
        Some(x) => x,
        None => crate::outside::empty_level(p0),
    };
    let with = level_with(l0, p0, o);
    assert(!base.orders.contains_key(id)) by {
        if base.orders.contains_key(id) {
            assert(b0.rests(id, p0, s0));
        }
    }
    assert(base.orders.dom().finite()) by {
        match l0 {
            Some(x) => { lemma_level_finite(b0, s0, p0); },
            None => { assert(base.orders =~= Map::<u128, OrderType>::empty()); },
        }
    }
    assert(with.orders.len() == base.orders.len() + 1);
    assert(base.order_count == base.orders.len()) by {
        match l0 {
            Some(x) => { assert(b0.levels(s0).contains_key(p0)); },
            None => { assert(base.orders =~= Map::<u128, OrderType>::empty()); },
        }
    }
    assert(with.order_count == base.order_count + 1) by {
        vstd::arithmetic::div_mod::lemma_small_mod((base.order_count + 1) as nat, (usize::MAX as int + 1) as nat);
    }
    assert forall|k: u128| #[trigger] b1.locations().contains_key(k)
        implies b1.rests(k, b1.locations()[k].0, b1.locations()[k].1) by {
        if k != id {
            assert(b0.locations().contains_key(k));
            assert(b0.rests(k, b0.locations()[k].0, b0.locations()[k].1));
            let (p, s) = b0.locations()[k];
            if s == s0 && p == p0 {
                assert(base.orders.contains_key(k));
            }
        }
    }
    assert forall|k: u128, p: u64, s: Side| #[trigger] b1.rests(k, p, s) implies
        b1.locations().contains_key(k) && b1.locations()[k] == (p, s) by {
        if !(s == s0 && p == p0) {
            if s == s0 {
                assert(b0.rests(k, p, s));
            } else {
                assert(s == s0.opposite());
                assert(b0.rests(k, p, s));
            }
        } else if k != id {
            assert(base.orders.contains_key(k));
            assert(b0.rests(k, p, s));
        }
    }
    assert forall|p: u64, s: Side| #[trigger] b1.levels(s).contains_key(p) implies {
        &&& b1.levels(s)[p].orders.len() > 0
        &&& b1.levels(s)[p].order_count == b1.levels(s)[p].orders.len()
    } by {
        if !(s == s0 && p == p0) {
            if s == s0 {
                assert(b0.levels(s).contains_key(p));
            } else {
                assert(s == s0.opposite());
                assert(b0.levels(s).contains_key(p));
            }
        }
    }
}

/// Cancelling keeps an intact book intact.
pub proof fn law_cancel_keeps_intact(b0: OrderBook, b1: OrderBook, id: OrderId, r: Option<OrderType>)
    requires
        b0.wf(),
        b0.intact(),
        OrderBook::cancel_post(b0, b1, id, r),
    ensures
        b1.intact(),
{
    b0.lemma_views();
    if b0.order_spec(id).is_some() {
        let k0 = id.0;
        let (p0, s0) = b0.locations()[k0];
        let lv = b0.levels(s0)[p0];
        let after = level_without(lv, k0);
        assert(b0.levels(s0).contains_key(p0));
        assert(lv.orders.contains_key(k0));
        lemma_level_finite(b0, s0, p0);
        assert(after.orders.len() == lv.orders.len() - 1);
        lemma_count_dec_positive(lv.order_count);
        assert forall|k: u128| #[trigger] b1.locations().contains_key(k)
            implies b1.rests(k, b1.locations()[k].0, b1.locations()[k].1) by {
            assert(k != k0);
            assert(b0.locations().contains_key(k));
            assert(b0.rests(k, b0.locations()[k].0, b0.locations()[k].1));
            let (p, s) = b0.locations()[k];
            if s == s0 && p == p0 {
                assert(after.orders.contains_key(k));
                assert(after.orders.len() > 0) by {
                    assert(after.orders.dom().contains(k));
                    assert(after.orders.dom().remove(k).len() + 1 == after.orders.dom().len());
                }
            } else if s != s0 {
                assert(s == s0.opposite());
            }
        }
        assert forall|k: u128, p: u64, s: Side| #[trigger] b1.rests(k, p, s) implies
            b1.locations().contains_key(k) && b1.locations()[k] == (p, s) by {
            if !(s == s0 && p == p0) {
                if s == s0 {
                    assert(b0.rests(k, p, s));
                } else {
                    assert(s == s0.opposite());
                    assert(b0.rests(k, p, s));
                }
                assert(k != k0);
            } else {
                assert(after.orders.contains_key(k));
                assert(b0.rests(k, p, s));
            }
        }
        assert forall|p: u64, s: Side| #[trigger] b1.levels(s).contains_key(p) implies {
            &&& b1.levels(s)[p].orders.len() > 0
            &&& b1.levels(s)[p].order_count == b1.levels(s)[p].orders.len()
        } by {
            if !(s == s0 && p == p0) {
                if s == s0 {
                    assert(b0.levels(s).contains_key(p));
                } else {
                    assert(s == s0.opposite());
                    assert(b0.levels(s).contains_key(p));
                }
            }
        }
    } else {
        assert forall|k: u128, p: u64, s: Side| #[trigger] b1.rests(k, p, s) implies
            b1.locations().contains_key(k) && b1.locations()[k] == (p, s) by {
            assert(b0.rests(k, p, s));
        }
        assert forall|p: u64, s: Side| #[trigger] b1.levels(s).contains_key(p) implies {
            &&& b1.levels(s)[p].orders.len() > 0
            &&& b1.levels(s)[p].order_count == b1.levels(s)[p].orders.len()
        } by {
            assert(b0.levels(s).contains_key(p));
        }
        assert forall|k: u128| #[trigger] b1.locations().contains_key(k)
            implies b1.rests(k, b1.locations()[k].0, b1.locations()[k].1) by {
            assert(b0.locations().contains_key(k));
            assert(b0.rests(k, b0.locations()[k].0, b0.locations()[k].1));
        }
    }
}

/// Matching nothing against an intact book leaves its contents as they were.
pub proof fn law_zero_match_changes_nothing(b0: OrderBook, b1: OrderBook, side: Side, r: Result<MatchResult, OrderBookError>)
    requires
        b0.intact(),
        OrderBook::match_facts(b0, b1, side, 0, r),
    ensures
        b1.same_contents(&b0),
{
    let m = side.opposite();
    assert forall|p: u64| #[trigger] b0.levels(m).contains_key(p) implies b0.levels(m)[p].order_count != 0 by {
        assert(b0.levels(m)[p].orders.len() > 0);
    }
    assert(counters_nonzero(b0.levels(m)));
}

/// In an intact book, cancelling an order right after placing it (under an
/// identifier the book held no record of) leaves every level with the live
/// orders and counters it had before, and the locations as they were.
pub proof fn law_cancel_undoes_place_when_intact(b0: OrderBook, b1: OrderBook, b2: OrderBook, o: OrderType, r: Option<OrderType>)
    requires
        b0.wf(),
        b0.intact(),
        OrderBook::placed(b0, b1, o),
        OrderBook::cancel_post(b1, b2, o.id(), r),
        !b0.locations().contains_key(o.id().0),
    ensures
        r == Some(o),
        b2.locations() == b0.locations(),
        b2.levels(o.side().opposite()) == b0.levels(o.side().opposite()),
        b2.levels(o.side()).dom() == b0.levels(o.side()).dom(),
        forall|p: u64| #[trigger] b0.levels(o.side()).contains_key(p) ==>
            same_level_contents(b2.levels(o.side())[p], b0.levels(o.side())[p]),
        b2.last_trade() == b0.last_trade(),
        b2.market_close() == b0.market_close(),
        b2.symbol_view() == b0.symbol_view(),
{
    if b0.levels(o.side()).contains_key(o.price()) {
        if b0.levels(o.side())[o.price()].orders.contains_key(o.id().0) {
            assert(b0.rests(o.id().0, o.price(), o.side()));
        }
        assert(b0.levels(o.side())[o.price()].orders.len() > 0);
    }
    law_cancel_undoes_place(b0, b1, b2, o, r);
}

/// In an intact book, looking an order up finds it exactly when it rests in
/// some level, and what it finds is the order resting there.
pub proof fn law_order_found_iff_resting(b: OrderBook, id: OrderId)
    requires
        b.intact(),
    ensures
        b.order_spec(id).is_some() <==> exists|p: u64, s: Side| #[trigger] b.rests(id.0, p, s),
        forall|p: u64, s: Side| #[trigger] b.rests(id.0, p, s) ==> b.order_spec(id) == Some(b.levels(s)[p].orders[id.0]),
{
    if b.locations().contains_key(id.0) {
        assert(b.rests(id.0, b.locations()[id.0].0, b.locations()[id.0].1));
    }
    assert forall|p: u64, s: Side| #[trigger] b.rests(id.0, p, s) implies b.order_spec(id) == Some(b.levels(s)[p].orders[id.0]) by {
        assert(b.locations()[id.0] == (p, s));
    }
}

/// In an intact book the prices of a side's levels are exactly the prices at
/// which some order of that side rests, so the best level of a side is its
/// best price with a resting order.
pub proof fn law_level_prices_are_resting_prices(b: OrderBook, s: Side)
    requires
        b.intact(),
    ensures
        b.levels(s).dom() == Set::new(|p: u64| exists|k: u128| #[trigger] b.rests(k, p, s)),
{
    assert forall|p: u64| b.levels(s).dom().contains(p) implies exists|k: u128| #[trigger] b.rests(k, p, s) by {
        assert(b.levels(s).contains_key(p));
        let m = b.levels(s)[p].orders;
        assert(m.len() > 0);
        if m.dom().is_empty() {
            assert(m.dom() =~= Set::<u128>::empty());
        }
        let k = m.dom().choose();
        assert(b.rests(k, p, s));
    }
    assert(b.levels(s).dom() =~= Set::new(|p: u64| exists|k: u128| #[trigger] b.rests(k, p, s)));
}

/// Changing the quantity of an order keeps an intact book intact.
pub proof fn law_requantify_keeps_intact(b0: OrderBook, b1: OrderBook, id: OrderId, q: u64, r: Option<OrderType>)
    requires
        b0.wf(),
        b0.intact(),
        OrderBook::requantify_post(b0, b1, id, q, r),
    ensures
        b1.intact(),
{
    b0.lemma_views();
    if b0.locations().contains_key(id.0) && b0.levels(b0.locations()[id.0].1).contains_key(b0.locations()[id.0].0) {
        let k0 = id.0;
        let (p0, s0) = b0.locations()[k0];
        let lv = b0.levels(s0)[p0];
        assert(b0.rests(k0, p0, s0));
        let after = level_requantified(lv, k0, q);
        lemma_level_finite(b0, s0, p0);
        assert(after.orders.dom() =~= lv.orders.dom());
        assert(after.order_count != 0);
        assert forall|k: u128| #[trigger] b1.locations().contains_key(k)
            implies b1.rests(k, b1.locations()[k].0, b1.locations()[k].1) by {
            assert(b0.locations().contains_key(k));
            assert(b0.rests(k, b0.locations()[k].0, b0.locations()[k].1));
            let (p, s) = b0.locations()[k];
            if s != s0 {
                assert(s == s0.opposite());
            } else if p == p0 {
                assert(after.orders.dom().contains(k));
            }
        }
        assert forall|k: u128, p: u64, s: Side| #[trigger] b1.rests(k, p, s) implies
            b1.locations().contains_key(k) && b1.locations()[k] == (p, s) by {
            if s != s0 {
                assert(s == s0.opposite());
                assert(b0.rests(k, p, s));
            } else if p != p0 {
                assert(b0.rests(k, p, s));
            } else {
                assert(lv.orders.dom().contains(k));
                assert(b0.rests(k, p, s));
            }
        }
        assert forall|p: u64, s: Side| #[trigger] b1.levels(s).contains_key(p) implies {
            &&& b1.levels(s)[p].orders.len() > 0
            &&& b1.levels(s)[p].order_count == b1.levels(s)[p].orders.len()
        } by {
            if s != s0 {
                assert(s == s0.opposite());
                assert(b0.levels(s).contains_key(p));
            } else if p != p0 {
                assert(b0.levels(s).contains_key(p));
            }
        }
    } else {
        assert forall|k: u128, p: u64, s: Side| #[trigger] b1.rests(k, p, s) implies
            b1.locations().contains_key(k) && b1.locations()[k] == (p, s) by {
            assert(b0.rests(k, p, s));
        }
        assert forall|p: u64, s: Side| #[trigger] b1.levels(s).contains_key(p) implies {
            &&& b1.levels(s)[p].orders.len() > 0
            &&& b1.levels(s)[p].order_count == b1.levels(s)[p].orders.len()
        } by {
            assert(b0.levels(s).contains_key(p));
        }
        assert forall|k: u128| #[trigger] b1.locations().contains_key(k)
            implies b1.rests(k, b1.locations()[k].0, b1.locations()[k].1) by {
            assert(b0.locations().contains_key(k));
            assert(b0.rests(k, b0.locations()[k].0, b0.locations()[k].1));
        }
    }
}

/// Matching against an intact book keeps it intact, provided every live
/// order on the side it matches against shows a positive quantity. (An
/// order showing zero is taken off its level without being reported filled,
/// so its location would stay behind.)
pub proof fn law_match_keeps_intact(
    b0: OrderBook,
    b1: OrderBook,
    side: Side,
    quantity: u64,
    r: Result<MatchResult, OrderBookError>,
)
    requires
        b0.intact(),
        shows_positive(b0.levels(side.opposite())),
        OrderBook::match_facts(b0, b1, side, quantity, r),
    ensures
        b1.intact(),
{
}

/// Once the resting order `o` of an intact book is cancelled, an order `n`
/// under the same identifier can be added with the records kept in step,
/// when every live order on the side opposite `n` shows a positive quantity
/// and the level `n` would join has room on its counter.
pub(crate) proof fn lemma_cancel_then_add_ready(b0: OrderBook, mid: OrderBook, o: OrderType, n: OrderType)
    requires
        b0.wf(),
        b0.intact(),
        b0.order_spec(o.id()) == Some(o),
        OrderBook::cancel_post(b0, mid, o.id(), Some(o)),
        n.id() == o.id(),
        shows_positive(b0.levels(n.side().opposite())),
        b0.levels(n.side()).contains_key(n.price()) ==> b0.levels(n.side())[n.price()].order_count < usize::MAX,
    ensures
        mid.add_keeps_records(n),
{
    law_cancel_keeps_intact(b0, mid, o.id(), Some(o));
    let k0 = o.id().0;
    let (p0, s0) = b0.locations()[k0];
    let lv = b0.levels(s0)[p0];
    assert(b0.levels(s0).contains_key(p0));
    assert(lv.order_count > 0) by {
        assert(lv.orders.len() > 0);
    }
    lemma_count_dec_positive(lv.order_count);
    let ns = n.side();
    assert forall|q: u64, k: u128| #[trigger] holds(mid.levels(ns.opposite()), q, k)
        implies mid.levels(ns.opposite())[q].orders[k].visible_quantity() > 0 by {
        let m = ns.opposite();
        if m == s0 {
            if q == p0 {
                assert(holds(b0.levels(m), q, k));
            } else {
                assert(holds(b0.levels(m), q, k));
            }
        } else {
            assert(m == s0.opposite()) by {
                match m { Side::Buy => { match s0 { Side::Buy => {}, Side::Sell => {} } }, Side::Sell => { match s0 { Side::Buy => {}, Side::Sell => {} } } }
            }
            assert(holds(b0.levels(m), q, k));
        }
    }
    if mid.levels(ns).contains_key(n.price()) {
        if ns == s0 {
            assert(b0.levels(ns).contains_key(n.price()));
        } else {
            assert(ns == s0.opposite()) by {
                match ns { Side::Buy => { match s0 { Side::Buy => {}, Side::Sell => {} } }, Side::Sell => { match s0 { Side::Buy => {}, Side::Sell => {} } } }
            }
            assert(b0.levels(ns).contains_key(n.price()));
        }
    }
}

/// The first `n` prices of `dom` in walking order: as many as `n` allows,
/// all of `dom`, strictly in walking order, each better than every price of
/// `dom` left out.
proof fn lemma_top_prices(dom: Set<u64>, ascending: bool, n: nat)
    requires
        dom.finite(),
    ensures
        ({
            let top = top_prices(dom, ascending, n);
            &&& top.len() == (if n <= dom.len() { n } else { dom.len() })
            &&& forall|i: int| 0 <= i < top.len() ==> dom.contains(#[trigger] top[i])
            &&& forall|i: int, j: int| 0 <= i < j < top.len() ==>
                (if ascending { #[trigger] top[i] < #[trigger] top[j] } else { top[i] > top[j] })
            &&& forall|i: int, q: u64| 0 <= i < top.len() && #[trigger] dom.contains(q) && !top.contains(q) ==>
                (if ascending { #[trigger] top[i] < q } else { top[i] > q })
        }),
    decreases n,
{
    let top = top_prices(dom, ascending, n);
    if n == 0 || dom.len() == 0 {
        assert(top.len() == 0);
    } else {
        lemma_best_exists(dom, ascending);
        let p = best_price(dom, ascending);
        let rd = dom.remove(p);
        lemma_top_prices(rd, ascending, (n - 1) as nat);
        let rest = top_prices(rd, ascending, (n - 1) as nat);
        assert(top == seq![p] + rest);
        assert forall|i: int| 0 <= i < top.len() implies dom.contains(#[trigger] top[i]) by {
            if i > 0 {
                assert(top[i] == rest[i - 1]);
            }
        }
        assert forall|i: int, j: int| 0 <= i < j < top.len() implies
            (if ascending { #[trigger] top[i] < #[trigger] top[j] } else { top[i] > top[j] }) by {
            assert(top[j] == rest[j - 1]);
            assert(rd.contains(rest[j - 1]));
            if i > 0 {
                assert(top[i] == rest[i - 1]);
            } else {
                assert(dom.contains(top[j]));
            }
        }
        assert forall|i: int, q: u64| 0 <= i < top.len() && #[trigger] dom.contains(q) && !top.contains(q) implies
            (if ascending { #[trigger] top[i] < q } else { top[i] > q }) by {
            assert(q != p) by {
                assert(top[0] == p);
            }
            assert(rd.contains(q));
            if i > 0 {
                assert(top[i] == rest[i - 1]);
                if rest.contains(q) {
                    let j = choose|j: int| 0 <= j < rest.len() && rest[j] == q;
                    assert(top[j + 1] == q);
                }
            }
        }
    }
}

/// A snapshot of a side shows the best `depth` levels (all of them when
/// there are fewer), strictly in walking order (highest bid first, lowest
/// ask first), each better than every level it leaves out.
pub proof fn law_snapshot_levels_in_order(b: OrderBook, snaps: Seq<crate::execution::PriceLevelSnapshot>, s: Side, depth: nat)
    requires
        b.wf(),
        shows_top(snaps, b.levels(s), ascending_for(s.opposite()), depth),
    ensures
        ({
            let asc = ascending_for(s.opposite());
            let dom = b.levels(s).dom();
            &&& snaps.len() == (if depth <= dom.len() { depth } else { dom.len() })
            &&& forall|i: int| 0 <= i < snaps.len() ==> dom.contains(#[trigger] snaps[i].price)
            &&& forall|i: int, j: int| 0 <= i < j < snaps.len() ==>
                (if asc { #[trigger] snaps[i].price < #[trigger] snaps[j].price } else { snaps[i].price > snaps[j].price })
            &&& forall|i: int, q: u64| 0 <= i < snaps.len() && #[trigger] dom.contains(q)
                && (forall|j: int| 0 <= j < snaps.len() ==> #[trigger] snaps[j].price != q) ==>
                (if asc { #[trigger] snaps[i].price < q } else { snaps[i].price > q })
        }),
{
    b.lemma_views();
    b.lemma_wf_sides();
    let asc = ascending_for(s.opposite());
    let l = b.levels(s);
    assert(side_ok(l, s)) by {
        match s {
            Side::Buy => {},
            Side::Sell => {},
        }
    }
    lemma_top_prices(l.dom(), asc, depth);
    let top = top_prices(l.dom(), asc, depth);
    assert forall|i: int| 0 <= i < snaps.len() implies #[trigger] snaps[i].price == top[i] by {
        assert(l.contains_key(top[i]));
    }
    assert forall|i: int, q: u64| 0 <= i < snaps.len() && #[trigger] l.dom().contains(q)
        && (forall|j: int| 0 <= j < snaps.len() ==> #[trigger] snaps[j].price != q) implies
        (if asc { #[trigger] snaps[i].price < q } else { snaps[i].price > q }) by {
        if top.contains(q) {
            let j = choose|j: int| 0 <= j < top.len() && top[j] == q;
            assert(snaps[j].price == q);
        }
        assert(snaps[i].price == top[i]);
    }
}

/// The clock at `t` has reached the end of the policy `tif`: the date of a
/// good-till-date order, or the market close `close` for a day order.
pub open spec fn clock_past_expiry(tif: TimeInForce, t: u64, close: Option<u64>) -> bool {
    match tif {
        TimeInForce::Gtd(date) => t >= date,
        TimeInForce::Day => match close {
            Some(c) => t >= c,
            None => false,
        },
        _ => false,
    }
}

/// Adding an order judges its expiry at the book's clock: an order whose
/// good-till date, or (for a day order) the market close, the clock has
/// reached is refused as expired and the book's contents stay as they were;
/// an order that is accepted has not expired by the clock.
pub proof fn law_add_refuses_orders_expired_by_clock(
    b0: OrderBook,
    b1: OrderBook,
    order: OrderType,
    full: Result<(OrderType, Option<MatchResult>), OrderBookError>,
    r: Result<OrderType, OrderBookError>,
)
    requires
        OrderBook::add_post(b0, b1, order, b1.clock_reading(), full),
        match full {
            Ok((o, _)) => r == Ok::<OrderType, OrderBookError>(o),
            Err(e) => r == Err::<OrderType, OrderBookError>(e),
        },
    ensures
        clock_past_expiry(order.time_in_force(), b1.clock_reading(), b0.market_close()) ==> {
            &&& r matches Err(e) && invalid_operation(e, expired_message())
            &&& b1.same_contents(&b0)
        },
        r is Ok ==> !clock_past_expiry(order.time_in_force(), b1.clock_reading(), b0.market_close()),
{
}

/// An update that cancels an order and adds it again judges the re-added
/// order's expiry at the book's clock: when the clock has reached its
/// good-till date, or (for a day order) the market close, the update is
/// refused as expired and the order no longer rests in the book.
pub proof fn law_update_refuses_readd_expired_by_clock(
    b0: OrderBook,
    b1: OrderBook,
    update: OrderUpdate,
    r: Result<Option<OrderType>, OrderBookError>,
    o: OrderType,
    n: OrderType,
)
    requires
        b0.wf(),
        OrderBook::update_post(b0, b1, update, b1.clock_reading(), r),
        b0.order_spec(update.target()) == Some(o),
        update.renewed(o) == Some(n),
        !(update matches OrderUpdate::UpdatePrice { new_price, .. } && b0.locations()[update.target().0].0 == new_price),
        clock_past_expiry(n.time_in_force(), b1.clock_reading(), b0.market_close()),
    ensures
        r matches Err(e) && invalid_operation(e, expired_message()),
        b1.order_spec(update.target()).is_none(),
{
    b0.lemma_order_spec_id(update.target());
    assert(OrderBook::renew_post(b0, b1, o, n, b1.clock_reading(), r));
    let (mid, full) = choose|mid: OrderBook, full: Result<(OrderType, Option<MatchResult>), OrderBookError>|
        #[trigger] OrderBook::cancel_post(b0, mid, o.id(), Some(o))
        && #[trigger] OrderBook::add_post(mid, b1, n, b1.clock_reading(), full)
        && match full {
            Ok((placed, _)) => r == Ok::<Option<OrderType>, OrderBookError>(Some(placed)),
            Err(e) => r == Err::<Option<OrderType>, OrderBookError>(e),
        };
    assert(mid.market_close() == b0.market_close());
    assert(!mid.locations().contains_key(update.target().0));
}

/// Changing an order's price and quantity, whatever the new price (its own
/// price too), cancels the order and adds it again with the new price and
/// quantity, answering what adding it answers.
pub proof fn law_update_price_and_quantity_is_cancel_then_add(
    b0: OrderBook,
    b1: OrderBook,
    id: OrderId,
    new_price: u64,
    new_quantity: u64,
    now: u64,
    r: Result<Option<OrderType>, OrderBookError>,
    o: OrderType,
)
    requires
        b0.wf(),
        OrderBook::update_post(b0, b1, OrderUpdate::UpdatePriceAndQuantity { order_id: id, new_price, new_quantity }, now, r),
        b0.order_spec(id) == Some(o),
    ensures
        exists|mid: OrderBook, full: Result<(OrderType, Option<MatchResult>), OrderBookError>|
            #[trigger] OrderBook::cancel_post(b0, mid, id, Some(o))
            && #[trigger] OrderBook::add_post(mid, b1, o.with_price_and_quantity(new_price, new_quantity), now, full)
            && match full {
                Ok((placed, _)) => r == Ok::<Option<OrderType>, OrderBookError>(Some(placed)),
                Err(e) => r == Err::<Option<OrderType>, OrderBookError>(e),
            },
{
    b0.lemma_order_spec_id(id);
}

/// When the changed order can simply rest (it has not expired at `now`, is
/// neither immediate-or-cancel nor fill-or-kill, and is not a post-only
/// order that would cross), changing an order's price and quantity succeeds
/// with the changed order, which then rests under its identifier at the new
/// price showing the new quantity; this holds for the order's own price too.
pub proof fn law_update_price_and_quantity_rests_changed_order(
    b0: OrderBook,
    b1: OrderBook,
    id: OrderId,
    new_price: u64,
    new_quantity: u64,
    now: u64,
    r: Result<Option<OrderType>, OrderBookError>,
    o: OrderType,
)
    requires
        b0.wf(),
        OrderBook::update_post(b0, b1, OrderUpdate::UpdatePriceAndQuantity { order_id: id, new_price, new_quantity }, now, r),
        b0.order_spec(id) == Some(o),
        !o.time_in_force().is_expired(now, b0.market_close()),
        o.time_in_force() != TimeInForce::Ioc,
        o.time_in_force() != TimeInForce::Fok,
        !(o.is_post_only() && crosses(b0.levels(o.side().opposite()).dom(), new_price, o.side())),
    ensures
        ({
            let n = o.with_price_and_quantity(new_price, new_quantity);
            &&& r == Ok::<Option<OrderType>, OrderBookError>(Some(n))
            &&& b1.order_spec(id) == Some(n)
            &&& n.price() == new_price
            &&& n.visible_quantity() == new_quantity
            &&& n.id() == id
        }),
{
    b0.lemma_order_spec_id(id);
    let n = o.with_price_and_quantity(new_price, new_quantity);
    let (mid, full) = choose|mid: OrderBook, full: Result<(OrderType, Option<MatchResult>), OrderBookError>|
        #[trigger] OrderBook::cancel_post(b0, mid, o.id(), Some(o))
        && #[trigger] OrderBook::add_post(mid, b1, n, now, full)
        && match full {
            Ok((placed, _)) => r == Ok::<Option<OrderType>, OrderBookError>(Some(placed)),
            Err(e) => r == Err::<Option<OrderType>, OrderBookError>(e),
        };
    let (p0, s0) = b0.locations()[id.0];
    assert(n.side() == o.side());
    lemma_order_spec_place(b0, id);
    assert(s0 == o.side());
    assert(mid.levels(n.side().opposite()) == b0.levels(o.side().opposite()));
    assert(mid.market_close() == b0.market_close());
    assert(!n.is_immediate());
    assert(OrderBook::placed(mid, b1, n));
}

/// Placing an order adds its shown and hidden quantity to the level it joins
/// (a new level shows exactly that), so the volume reported at its price
/// grows by the order's shown plus hidden quantity.
pub proof fn law_place_adds_to_volume(b0: OrderBook, b1: OrderBook, o: OrderType)
    requires
        OrderBook::placed(b0, b1, o),
        b0.levels(o.side()).contains_key(o.price()) ==> {
            &&& b0.levels(o.side())[o.price()].visible + o.visible_quantity() <= u64::MAX
            &&& b0.levels(o.side())[o.price()].hidden + o.hidden_quantity() <= u64::MAX
        },
    ensures
        b1.levels(o.side()).contains_key(o.price()),
        b1.levels(o.side())[o.price()].visible + b1.levels(o.side())[o.price()].hidden
            == (if b0.levels(o.side()).contains_key(o.price()) {
                b0.levels(o.side())[o.price()].visible + b0.levels(o.side())[o.price()].hidden
            } else {
                0
            }) + o.visible_quantity() + o.hidden_quantity(),
        b1.levels(o.side())[o.price()].visible + b1.levels(o.side())[o.price()].hidden <= u64::MAX
            ==> level_volumes(b1.levels(o.side()))[o.price()]
                == b1.levels(o.side())[o.price()].visible + b1.levels(o.side())[o.price()].hidden,
{
    let s = o.side();
    let p = o.price();
    let base = match level_at(b0.levels(s), p) {
        Some(x) => x,
        None => crate::outside::empty_level(p),
    };
    let m = 0x1_0000_0000_0000_0000int;
    vstd::arithmetic::div_mod::lemma_small_mod((base.visible + o.visible_quantity()) as nat, m as nat);
    vstd::arithmetic::div_mod::lemma_small_mod((base.hidden + o.hidden_quantity()) as nat, m as nat);
}

/// An order found under `id` rests at the price and on the side its location records.
proof fn lemma_order_spec_place(b: OrderBook, id: OrderId)
    requires
        b.wf(),
    ensures
        b.order_spec(id) matches Some(o) ==> o.price() == b.locations()[id.0].0 && o.side() == b.locations()[id.0].1,
{
    b.lemma_views();
    b.lemma_wf_sides();
    if b.order_spec(id).is_some() {
        let (p, s) = b.locations()[id.0];
        match s {
            Side::Buy => assert(b.levels(Side::Buy).contains_key(p)),
            Side::Sell => assert(b.levels(Side::Sell).contains_key(p)),
        }
    }
}

} // verus!
