//! Best prices of a set of price levels, and walking prices from the best one.

use vstd::prelude::*;
use std::collections::BTreeMap;
use pricelevel::PriceLevel;
use vstd::std_specs::iter::IteratorSpec;

verus! {

broadcast use {vstd::std_specs::btree::group_btree_axioms, vstd::seq_lib::group_seq_properties};

/// `p` is the best price of `dom`: the lowest when `ascending`, else the highest.
pub open spec fn is_best(dom: Set<u64>, p: u64, ascending: bool) -> bool {
    &&& dom.contains(p)
    &&& forall|q: u64| #[trigger] dom.contains(q) ==> (if ascending { p <= q } else { q <= p })
}

/// `r` is the best price of `dom`, or `None` when `dom` is empty.
pub open spec fn best_of(dom: Set<u64>, ascending: bool, r: Option<u64>) -> bool {
    match r {
        Some(p) => is_best(dom, p, ascending),
        None => dom.is_empty(),
    }
}

/// The best price of a nonempty set.
pub open spec fn best_price(dom: Set<u64>, ascending: bool) -> u64 {
    choose|p: u64| is_best(dom, p, ascending)
}

/// `q` comes strictly after `p` in the walking order.
pub open spec fn after(p: u64, q: u64, ascending: bool) -> bool {
    if ascending { p < q } else { q < p }
}

/// The prices of `dom` that come strictly after `last` (all of them when there is no `last`).
pub open spec fn rest_after(dom: Set<u64>, last: Option<u64>, ascending: bool) -> Set<u64> {
    match last {
        None => dom,
        Some(l) => dom.filter(|q: u64| after(l, q, ascending)),
    }
}

/// A finite nonempty set of prices has a best price, and only one.
pub proof fn lemma_best_exists(dom: Set<u64>, ascending: bool)
    requires
        dom.finite(),
        !dom.is_empty(),
    ensures
        is_best(dom, best_price(dom, ascending), ascending),
        forall|p: u64| is_best(dom, p, ascending) ==> p == best_price(dom, ascending),
    decreases dom.len(),
{
    let x = dom.choose();
    let rest = dom.remove(x);
    if rest.is_empty() {
        assert(is_best(dom, x, ascending)) by {
            assert forall|q: u64| #[trigger] dom.contains(q) implies (if ascending { x <= q } else { q <= x }) by {
                if q != x {
                    assert(rest.contains(q));
                }
            }
        }
    } else {
        assert(rest.len() < dom.len()) by {
            assert(dom.contains(x));
        }
        lemma_best_exists(rest, ascending);
        let b = best_price(rest, ascending);
        let better = if ascending { if x <= b { x } else { b } } else { if x >= b { x } else { b } };
        assert(is_best(dom, better, ascending)) by {
            assert forall|q: u64| #[trigger] dom.contains(q) implies (if ascending { better <= q } else { q <= better }) by {
                if q != x {
                    assert(rest.contains(q));
                }
            }
        }
    }
}

/// The prices of a book side, each once.
pub fn collect_prices(m: &BTreeMap<u64, PriceLevel>) -> (r: Vec<u64>)
    ensures
        r@.to_set() == m@.dom(),
        r@.no_duplicates(),
{
    let mut r: Vec<u64> = Vec::new();
    let ghost ks = vstd::std_specs::btree::spec_keys_iter(m).remaining();
    proof {
        vstd::std_specs::btree::axiom_spec_keys_iter(m);
    }
    for k in it: m.keys()
        invariant
            it.seq() == ks,
            r@.len() == it.index(),
            forall|i: int| 0 <= i < r@.len() ==> r@[i] == *ks[i],
    {
        r.push(*k);
    }
    proof {
        assert(r@ =~= ks.map_values(|x: &u64| *x));
        assert(ks.unref() =~= ks.map_values(|x: &u64| *x));
    }
    r
}

/// The best price among those of `prices` that come after `last`, if any.
pub fn next_price(prices: &Vec<u64>, last: Option<u64>, ascending: bool) -> (r: Option<u64>)
    requires
        prices@.no_duplicates(),
    ensures
        best_of(rest_after(prices@.to_set(), last, ascending), ascending, r),
{
    let mut best: Option<u64> = None;
    let mut i: usize = 0;
    while i < prices.len()
        invariant
            i <= prices@.len(),
            best_of(rest_after(prices@.take(i as int).to_set(), last, ascending), ascending, best),
        decreases prices@.len() - i,
    {
        let p = prices[i];
        let eligible = match last {
            None => true,
            Some(l) => if ascending { l < p } else { p < l },
        };
        let ghost before = rest_after(prices@.take(i as int).to_set(), last, ascending);
        proof {
            assert(prices@.take(i + 1) =~= prices@.take(i as int).push(p));
            assert(prices@.take(i + 1).to_set() =~= prices@.take(i as int).to_set().insert(p));
        }
        let ghost now = rest_after(prices@.take(i + 1).to_set(), last, ascending);
        proof {
            if eligible {
                assert(now =~= before.insert(p));
            } else {
                assert(now =~= before);
            }
        }
        if eligible {
            match best {
                None => {
                    best = Some(p);
                },
                Some(b) => {
                    if (ascending && p < b) || (!ascending && p > b) {
                        best = Some(p);
                    }
                },
            }
        }
        i = i + 1;
    }
    proof {
        assert(prices@.take(prices@.len() as int) =~= prices@);
    }
    best
}

} // verus!
