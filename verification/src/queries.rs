//! Reading the book: the orders at a price, all orders, the volume at each
//! price, and snapshots of the best levels.

use vstd::prelude::*;
use std::collections::{BTreeMap, HashMap};
use pricelevel::PriceLevel;
use crate::book::{OrderBook, side_view, side_ok};
use crate::execution::PriceLevelSnapshot;
use crate::current_time_millis;
use crate::matching::lemma_rest_after_step;
use crate::orders::{OrderType, Side};
use crate::outside::{LevelState, level_state, level_ok, level_orders, level_snapshot, level_visible, level_hidden, lists_orders};
use crate::prices::{best_price, rest_after, after, collect_prices, next_price, lemma_best_exists};
use crate::snapshot::OrderBookSnapshot;

verus! {

broadcast use {
    vstd::std_specs::btree::group_btree_axioms,
    vstd::std_specs::hash::group_hash_axioms,
    vstd::seq_lib::group_seq_properties,
    vstd::seq::Seq::lemma_flatten_push,
};

/// The first `n` prices of `dom` in walking order: lowest first when
/// `ascending`, highest first otherwise.
pub open spec fn top_prices(dom: Set<u64>, ascending: bool, n: nat) -> Seq<u64>
    decreases n,
{
    if n == 0 || !dom.finite() || dom.len() == 0 {
        Seq::empty()
    } else {
        let p = best_price(dom, ascending);
        seq![p] + top_prices(dom.remove(p), ascending, (n - 1) as nat)
    }
}

/// `snap` shows the level whose state is `s`.
pub open spec fn shows_level(snap: PriceLevelSnapshot, s: LevelState) -> bool {
    &&& snap.price == s.price
    &&& snap.visible_quantity == s.visible
    &&& snap.hidden_quantity == s.hidden
    &&& snap.order_count == s.order_count
    &&& lists_orders(snap.orders@, s.orders)
}

/// `snaps` shows the first `depth` levels of `levels` in walking order.
pub open spec fn shows_top(snaps: Seq<PriceLevelSnapshot>, levels: Map<u64, LevelState>, ascending: bool, depth: nat) -> bool {
    let top = top_prices(levels.dom(), ascending, depth);
    &&& snaps.len() == top.len()
    &&& forall|i: int| 0 <= i < snaps.len() ==> shows_level(#[trigger] snaps[i], levels[top[i]])
}

/// `parts` lists the live orders of each level of `levels`, the levels taken
/// in the order of `prices`, which names each level once.
pub open spec fn listed_by(levels: Map<u64, LevelState>, prices: Seq<u64>, parts: Seq<Seq<OrderType>>) -> bool {
    &&& prices.no_duplicates()
    &&& prices.to_set() == levels.dom()
    &&& parts.len() == prices.len()
    &&& forall|i: int| 0 <= i < parts.len() ==> lists_orders(#[trigger] parts[i], levels[prices[i]].orders)
}

/// `r` lists the live orders of all levels of `levels`, level by level, in
/// some order of the levels.
pub open spec fn lists_side(r: Seq<OrderType>, levels: Map<u64, LevelState>) -> bool {
    exists|prices: Seq<u64>, parts: Seq<Seq<OrderType>>| #[trigger] listed_by(levels, prices, parts) && r == parts.flatten()
}

/// Every level of `levels` has a shown plus hidden quantity that fits in a `u64`.
pub open spec fn level_volumes_fit(levels: Map<u64, LevelState>) -> bool {
    forall|p: u64| #[trigger] levels.contains_key(p) ==> levels[p].visible + levels[p].hidden <= u64::MAX
}

/// The shown plus hidden quantity of each level of `levels`, by price.
pub open spec fn level_volumes(levels: Map<u64, LevelState>) -> Map<u64, u64> {
    levels.map_values(|s: LevelState| (s.visible + s.hidden) as u64)
}

/// The live orders of every level of a side, level by level.
fn side_orders(levels: &BTreeMap<u64, PriceLevel>, side: Side) -> (r: Vec<OrderType>)
    requires
        side_ok(side_view(levels@), side),
    ensures
        lists_side(r@, side_view(levels@)),
{
    let ghost lv = side_view(levels@);
    let prices = collect_prices(levels);
    proof {
        assert(lv.dom() =~= levels@.dom());
    }
    let mut result: Vec<OrderType> = Vec::new();
    let ghost mut parts: Seq<Seq<OrderType>> = Seq::empty();
    let mut i: usize = 0;
    while i < prices.len()
        invariant
            i <= prices@.len(),
            lv == side_view(levels@),
            side_ok(lv, side),
            prices@.to_set() == lv.dom(),
            prices@.no_duplicates(),
            parts.len() == i,
            result@ == parts.flatten(),
            forall|j: int| 0 <= j < i ==> lists_orders(#[trigger] parts[j], lv[prices@[j]].orders),
        decreases prices@.len() - i,
    {
        let p = prices[i];
        proof {
            assert(prices@.to_set().contains(p));
            assert(lv.contains_key(p));
        }
        let level = levels.get(&p).unwrap();
        let mut orders = level_orders(level);
        proof {
            assert(level_ok(level_state(*level)));
            parts = parts.push(orders@);
        }
        result.append(&mut orders);
        i = i + 1;
    }
    proof {
        assert(listed_by(lv, prices@, parts));
    }
    result
}

/// Snapshots of the first `depth` levels of a side in walking order.
fn snapshot_side(levels: &BTreeMap<u64, PriceLevel>, side: Side, ascending: bool, depth: usize) -> (r: Vec<PriceLevelSnapshot>)
    requires
        side_ok(side_view(levels@), side),
    ensures
        shows_top(r@, side_view(levels@), ascending, depth as nat),
{
    let ghost lv = side_view(levels@);
    let ghost d0 = levels@.dom();
    let prices = collect_prices(levels);
    proof {
        assert(lv.dom() =~= d0);
        assert(rest_after(d0, None, ascending) == d0);
    }
    let mut snaps: Vec<PriceLevelSnapshot> = Vec::new();
    let ghost mut chosen: Seq<u64> = Seq::empty();
    let mut last: Option<u64> = None;
    loop
        invariant
            prices@.to_set() == d0,
            prices@.no_duplicates(),
            d0.finite(),
            lv.dom() == d0,
            lv == side_view(levels@),
            d0 == levels@.dom(),
            side_ok(lv, side),
            snaps@.len() == chosen.len(),
            snaps@.len() <= depth,
            chosen + top_prices(rest_after(d0, last, ascending), ascending, (depth - snaps@.len()) as nat)
                == top_prices(d0, ascending, depth as nat),
            forall|j: int| 0 <= j < chosen.len() ==> d0.contains(#[trigger] chosen[j]),
            forall|j: int| 0 <= j < snaps@.len() ==> shows_level(#[trigger] snaps@[j], lv[chosen[j]]),
        ensures
            shows_top(snaps@, lv, ascending, depth as nat),
        decreases depth - snaps@.len(),
    {
        let ghost todo = rest_after(d0, last, ascending);
        let ghost k = (depth - snaps@.len()) as nat;
        proof {
            assert(todo.finite()) by {
                match last {
                    None => {},
                    Some(l) => {
                        assert(todo =~= d0.filter(|q: u64| after(l, q, ascending)));
                    },
                }
            }
        }
        if snaps.len() >= depth {
            proof {
                assert(top_prices(todo, ascending, k) =~= Seq::<u64>::empty());
                assert(chosen =~= top_prices(d0, ascending, depth as nat));
            }
            break;
        }
        let next = next_price(&prices, last, ascending);
        match next {
            None => {
                proof {
                    assert(todo.len() == 0);
                    assert(top_prices(todo, ascending, k) =~= Seq::<u64>::empty());
                    assert(chosen =~= top_prices(d0, ascending, depth as nat));
                }
                break;
            },
            Some(p) => {
                proof {
                    lemma_best_exists(todo, ascending);
                    assert(todo.len() > 0) by {
                        assert(todo.contains(p));
                    }
                    lemma_rest_after_step(d0, last, p, ascending);
                    assert(top_prices(todo, ascending, k) == seq![p] + top_prices(todo.remove(p), ascending, (k - 1) as nat));
                    assert(lv.contains_key(p));
                }
                let level = levels.get(&p).unwrap();
                let snap = level_snapshot(level);
                proof {
                    assert(level_ok(level_state(*level)));
                    assert(chosen.push(p) + top_prices(rest_after(d0, Some(p), ascending), ascending, (k - 1) as nat)
                        =~= chosen + top_prices(todo, ascending, k));
                    chosen = chosen.push(p);
                }
                snaps.push(snap);
                last = Some(p);
            },
        }
    }
    snaps
}

/// The shown plus hidden quantity of each level of a side.
fn side_volumes(levels: &BTreeMap<u64, PriceLevel>) -> (r: HashMap<u64, u64>)
    requires
        level_volumes_fit(side_view(levels@)),
    ensures
        r@ == level_volumes(side_view(levels@)),
{
    let ghost lv = side_view(levels@);
    let prices = collect_prices(levels);
    proof {
        assert(lv.dom() =~= levels@.dom());
    }
    let mut volumes: HashMap<u64, u64> = HashMap::new();
    let mut i: usize = 0;
    while i < prices.len()
        invariant
            i <= prices@.len(),
            lv == side_view(levels@),
            level_volumes_fit(lv),
            prices@.to_set() == lv.dom(),
            volumes@ == level_volumes(lv).restrict(prices@.take(i as int).to_set()),
        decreases prices@.len() - i,
    {
        let p = prices[i];
        proof {
            assert(prices@.to_set().contains(p));
            assert(lv.contains_key(p));
        }
        let level = levels.get(&p).unwrap();
        let total = level_visible(level) + level_hidden(level);
        volumes.insert(p, total);
        proof {
            assert(prices@.take(i + 1).to_set() =~= prices@.take(i as int).to_set().insert(p)) by {
                assert(prices@.take(i + 1) =~= prices@.take(i as int).push(p));
            }
            assert(volumes@ =~= level_volumes(lv).restrict(prices@.take(i + 1).to_set()));
        }
        i = i + 1;
    }
    proof {
        assert(prices@.take(i as int) =~= prices@);
        assert(volumes@ =~= level_volumes(lv));
    }
    volumes
}

impl OrderBook {
    /// The live orders at `price` on `side`, oldest first.
    pub fn get_orders_at_price(&self, price: u64, side: Side) -> (r: Vec<OrderType>)
        requires
            self.wf(),
        ensures
            if self.levels(side).contains_key(price) {
                lists_orders(r@, self.levels(side)[price].orders)
            } else {
                r@.len() == 0
            },
    {
        proof {
            self.lemma_views();
            self.lemma_wf_sides();
        }
        let levels = match side {
            Side::Buy => &self.bids,
            Side::Sell => &self.asks,
        };
        proof {
            assert(side_ok(side_view(levels@), side));
        }
        match levels.get(&price) {
            Some(level) => {
                proof {
                    assert(side_view(levels@).contains_key(price));
                    assert(level_ok(level_state(*level)));
                }
                level_orders(level)
            },
            None => Vec::new(),
        }
    }

    /// Every live order in the book: all bid levels' orders, then all ask
    /// levels' orders.
    pub fn get_all_orders(&self) -> (r: Vec<OrderType>)
        requires
            self.wf(),
        ensures
            exists|n: int| 0 <= n <= r@.len()
                && lists_side(#[trigger] r@.take(n), self.levels(Side::Buy))
                && lists_side(r@.skip(n), self.levels(Side::Sell)),
    {
        proof {
            self.lemma_views();
            self.lemma_wf_sides();
        }
        let mut result = side_orders(&self.bids, Side::Buy);
        let ghost n = result@.len() as int;
        let ghost bid_part = result@;
        let mut asks = side_orders(&self.asks, Side::Sell);
        let ghost ask_part = asks@;
        result.append(&mut asks);
        proof {
            assert(result@.take(n) =~= bid_part);
            assert(result@.skip(n) =~= ask_part);
        }
        result
    }

    /// The shown plus hidden quantity at each price of each side.
    pub fn get_volume_by_price(&self) -> (r: (HashMap<u64, u64>, HashMap<u64, u64>))
        requires
            self.wf(),
            level_volumes_fit(self.levels(Side::Buy)),
            level_volumes_fit(self.levels(Side::Sell)),
        ensures
            r.0@ == level_volumes(self.levels(Side::Buy)),
            r.1@ == level_volumes(self.levels(Side::Sell)),
            forall|p: u64| #[trigger] r.0@.contains_key(p) <==> self.levels(Side::Buy).contains_key(p),
            forall|p: u64| #[trigger] r.1@.contains_key(p) <==> self.levels(Side::Sell).contains_key(p),
            forall|p: u64| #[trigger] self.levels(Side::Buy).contains_key(p)
                ==> r.0@[p] == self.levels(Side::Buy)[p].visible + self.levels(Side::Buy)[p].hidden,
            forall|p: u64| #[trigger] self.levels(Side::Sell).contains_key(p)
                ==> r.1@[p] == self.levels(Side::Sell)[p].visible + self.levels(Side::Sell)[p].hidden,
    {
        proof {
            self.lemma_views();
        }
        let bid_volumes = side_volumes(&self.bids);
        let ask_volumes = side_volumes(&self.asks);
        (bid_volumes, ask_volumes)
    }

    /// A snapshot of the best `depth` levels of each side, taken now.
    pub fn create_snapshot(&self, depth: usize) -> (r: OrderBookSnapshot)
        requires
            self.wf(),
        ensures
            r.symbol@ == self.symbol_view(),
            shows_top(r.bids@, self.levels(Side::Buy), false, depth as nat),
            shows_top(r.asks@, self.levels(Side::Sell), true, depth as nat),
    {
        proof {
            self.lemma_views();
            self.lemma_wf_sides();
        }
        let bid_levels = snapshot_side(&self.bids, Side::Buy, false, depth);
        let ask_levels = snapshot_side(&self.asks, Side::Sell, true, depth);
        OrderBookSnapshot {
            symbol: self.symbol.clone(),
            timestamp: current_time_millis(),
            bids: bid_levels,
            asks: ask_levels,
        }
    }
}

} // verus!
