//! A picture of the top of the book at one moment.

use vstd::prelude::*;
use crate::execution::PriceLevelSnapshot;

verus! {

/// The state of the best levels of both sides at one moment.
#[derive(Clone, Debug)]
pub struct OrderBookSnapshot {
    /// The symbol the book trades.
    pub symbol: String,
    /// When the snapshot was taken, in milliseconds since the Unix epoch.
    pub timestamp: u64,
    /// The bid levels, best (highest) price first.
    pub bids: Vec<PriceLevelSnapshot>,
    /// The ask levels, best (lowest) price first.
    pub asks: Vec<PriceLevelSnapshot>,
}

/// `i` is the first level of `levels` with the best price: the highest when
/// `highest`, else the lowest.
pub open spec fn is_top_index(levels: Seq<PriceLevelSnapshot>, i: int, highest: bool) -> bool {
    &&& 0 <= i < levels.len()
    &&& forall|j: int| 0 <= j < levels.len() ==>
        (if highest { #[trigger] levels[j].price <= levels[i].price } else { levels[j].price >= levels[i].price })
    &&& forall|j: int| 0 <= j < i ==> #[trigger] levels[j].price != levels[i].price
}

/// `r` is the price and shown quantity of the first level of `levels` with
/// the best price, or nothing when there is no level.
pub open spec fn top_of(levels: Seq<PriceLevelSnapshot>, highest: bool, r: Option<(u64, u64)>) -> bool {
    match r {
        None => levels.len() == 0,
        Some(x) => exists|i: int| is_top_index(levels, i, highest) && x == (#[trigger] levels[i].price, levels[i].visible_quantity),
    }
}

/// The first level of `levels` with the best price.
fn top_level(levels: &Vec<PriceLevelSnapshot>, highest: bool) -> (r: Option<(u64, u64)>)
    ensures
        top_of(levels@, highest, r),
{
    if levels.len() == 0 {
        return None;
    }
    let mut best: usize = 0;
    let mut i: usize = 1;
    while i < levels.len()
        invariant
            1 <= i <= levels@.len(),
            best < i,
            forall|j: int| 0 <= j < i ==>
                (if highest { #[trigger] levels@[j].price <= levels@[best as int].price } else { levels@[j].price >= levels@[best as int].price }),
            forall|j: int| 0 <= j < best ==> #[trigger] levels@[j].price != levels@[best as int].price,
        decreases levels@.len() - i,
    {
        let better = if highest { levels[i].price > levels[best].price } else { levels[i].price < levels[best].price };
        if better {
            best = i;
        }
        i = i + 1;
    }
    let r = (levels[best].price, levels[best].visible_quantity);
    proof {
        assert(is_top_index(levels@, best as int, highest));
    }
    Some(r)
}

/// A level's shown plus hidden quantity.
pub open spec fn level_volume(l: PriceLevelSnapshot) -> int {
    l.visible_quantity + l.hidden_quantity
}

/// The shown plus hidden quantity of all of `levels`.
pub open spec fn total_volume(levels: Seq<PriceLevelSnapshot>) -> int
    decreases levels.len(),
{
    if levels.len() == 0 {
        0
    } else {
        total_volume(levels.drop_last()) + level_volume(levels.last())
    }
}

/// The price times the shown plus hidden quantity, summed over `levels`.
pub open spec fn total_value(levels: Seq<PriceLevelSnapshot>) -> int
    decreases levels.len(),
{
    if levels.len() == 0 {
        0
    } else {
        total_value(levels.drop_last()) + levels.last().price * level_volume(levels.last())
    }
}

/// Every level's own total fits in a `u64`.
pub open spec fn volumes_fit(levels: Seq<PriceLevelSnapshot>) -> bool {
    forall|i: int| 0 <= i < levels.len() ==> level_volume(#[trigger] levels[i]) <= u64::MAX
}

/// Totals of a prefix never exceed the totals of the whole.
proof fn lemma_totals_monotone(levels: Seq<PriceLevelSnapshot>, i: int)
    requires
        0 <= i <= levels.len(),
    ensures
        0 <= total_volume(levels.take(i)) <= total_volume(levels),
        0 <= total_value(levels.take(i)) <= total_value(levels),
    decreases levels.len() - i,
{
    if i < levels.len() {
        lemma_totals_monotone(levels, i + 1);
        assert(levels.take(i + 1).drop_last() =~= levels.take(i));
        assert(levels[i].price * level_volume(levels[i]) >= 0) by (nonlinear_arith)
            requires levels[i].price >= 0, level_volume(levels[i]) >= 0;
    } else {
        assert(levels.take(i) =~= levels);
    }
    lemma_totals_nonnegative(levels.take(i));
}

/// Totals are never negative.
proof fn lemma_totals_nonnegative(levels: Seq<PriceLevelSnapshot>)
    ensures
        total_volume(levels) >= 0,
        total_value(levels) >= 0,
    decreases levels.len(),
{
    if levels.len() > 0 {
        lemma_totals_nonnegative(levels.drop_last());
        let l = levels.last();
        assert(l.price * level_volume(l) >= 0) by (nonlinear_arith)
            requires l.price >= 0, level_volume(l) >= 0;
    }
}

/// Sum the volumes of `levels`.
fn sum_volume(levels: &Vec<PriceLevelSnapshot>) -> (r: u64)
    requires
        total_volume(levels@) <= u64::MAX,
    ensures
        r == total_volume(levels@),
{
    let mut sum: u64 = 0;
    let mut i: usize = 0;
    while i < levels.len()
        invariant
            i <= levels@.len(),
            total_volume(levels@) <= u64::MAX,
            sum == total_volume(levels@.take(i as int)),
        decreases levels@.len() - i,
    {
        proof {
            lemma_totals_monotone(levels@, i + 1);
            assert(levels@.take(i + 1).drop_last() =~= levels@.take(i as int));
            lemma_totals_nonnegative(levels@.take(i as int));
        }
        let level = &levels[i];
        sum = sum + level.total_quantity();
        i = i + 1;
    }
    proof {
        assert(levels@.take(i as int) =~= levels@);
    }
    sum
}

/// Sum price times volume over `levels`.
fn sum_value(levels: &Vec<PriceLevelSnapshot>) -> (r: u64)
    requires
        volumes_fit(levels@),
        total_value(levels@) <= u64::MAX,
    ensures
        r == total_value(levels@),
{
    let mut sum: u64 = 0;
    let mut i: usize = 0;
    while i < levels.len()
        invariant
            i <= levels@.len(),
            volumes_fit(levels@),
            total_value(levels@) <= u64::MAX,
            sum == total_value(levels@.take(i as int)),
        decreases levels@.len() - i,
    {
        proof {
            lemma_totals_monotone(levels@, i + 1);
            assert(levels@.take(i + 1).drop_last() =~= levels@.take(i as int));
            lemma_totals_nonnegative(levels@.take(i as int));
            assert(level_volume(levels@[i as int]) <= u64::MAX);
        }
        let level = &levels[i];
        let volume = level.total_quantity();
        proof {
            assert(total_value(levels@.take(i + 1)) == sum + level.price * volume);
        }
        sum = sum + level.price * volume;
        i = i + 1;
    }
    proof {
        assert(levels@.take(i as int) =~= levels@);
    }
    sum
}

/// There is only one first level with the best price.
proof fn lemma_top_unique(levels: Seq<PriceLevelSnapshot>, highest: bool, a: Option<(u64, u64)>, b: Option<(u64, u64)>)
    requires
        top_of(levels, highest, a),
        top_of(levels, highest, b),
    ensures
        a == b,
{
    if a is Some && b is Some {
        let i = choose|i: int| is_top_index(levels, i, highest) && a->0 == (#[trigger] levels[i].price, levels[i].visible_quantity);
        let k = choose|k: int| is_top_index(levels, k, highest) && b->0 == (#[trigger] levels[k].price, levels[k].visible_quantity);
        assert(levels[i].price == levels[k].price) by {
            assert(if highest { levels[i].price <= levels[k].price } else { levels[i].price >= levels[k].price });
            assert(if highest { levels[k].price <= levels[i].price } else { levels[k].price >= levels[i].price });
        }
        if i < k {
            assert(levels[i].price != levels[k].price);
        } else if k < i {
            assert(levels[k].price != levels[i].price);
        }
    }
}

impl OrderBookSnapshot {
    /// The price and shown quantity of the highest bid level, if there is one.
    pub fn best_bid(&self) -> (r: Option<(u64, u64)>)
        ensures
            top_of(self.bids@, true, r),
    {
        top_level(&self.bids, true)
    }

    /// The price and shown quantity of the lowest ask level, if there is one.
    pub fn best_ask(&self) -> (r: Option<(u64, u64)>)
        ensures
            top_of(self.asks@, false, r),
    {
        top_level(&self.asks, false)
    }

    /// Best ask price minus best bid price (zero when they cross), if both exist.
    pub fn spread(&self) -> (r: Option<u64>)
        ensures
            forall|b: Option<(u64, u64)>, a: Option<(u64, u64)>|
                top_of(self.bids@, true, b) && top_of(self.asks@, false, a) ==>
                r == (match (b, a) {
                    (Some((bp, _)), Some((ap, _))) => Some(if ap >= bp { (ap - bp) as u64 } else { 0u64 }),
                    _ => None,
                }),
    {
        let bid = self.best_bid();
        let ask = self.best_ask();
        proof {
            assert forall|b: Option<(u64, u64)>, a: Option<(u64, u64)>|
                top_of(self.bids@, true, b) && top_of(self.asks@, false, a) implies b == bid && a == ask by {
                lemma_top_unique(self.bids@, true, b, bid);
                lemma_top_unique(self.asks@, false, a, ask);
            }
        }
        match (bid, ask) {
            (Some((bid_price, _)), Some((ask_price, _))) => Some(ask_price.saturating_sub(bid_price)),
            _ => None,
        }
    }

    /// The shown plus hidden quantity of all bid levels.
    pub fn total_bid_volume(&self) -> (r: u64)
        requires
            total_volume(self.bids@) <= u64::MAX,
        ensures
            r == total_volume(self.bids@),
    {
        sum_volume(&self.bids)
    }

    /// The shown plus hidden quantity of all ask levels.
    pub fn total_ask_volume(&self) -> (r: u64)
        requires
            total_volume(self.asks@) <= u64::MAX,
        ensures
            r == total_volume(self.asks@),
    {
        sum_volume(&self.asks)
    }

    /// Price times shown plus hidden quantity, summed over the bid levels.
    pub fn total_bid_value(&self) -> (r: u64)
        requires
            volumes_fit(self.bids@),
            total_value(self.bids@) <= u64::MAX,
        ensures
            r == total_value(self.bids@),
    {
        sum_value(&self.bids)
    }

    /// Price times shown plus hidden quantity, summed over the ask levels.
    pub fn total_ask_value(&self) -> (r: u64)
        requires
            volumes_fit(self.asks@),
            total_value(self.asks@) <= u64::MAX,
        ensures
            r == total_value(self.asks@),
    {
        sum_value(&self.asks)
    }
}

} // verus!
