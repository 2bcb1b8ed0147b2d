//! Canonical per-symbol limit-order-book state.
//!
//! Each side is an ordered mapping from a scaled integer price to a scaled
//! integer quantity, kept as a vector sorted by strictly ascending price.
//! An update with a non-positive quantity removes the level; levels with
//! non-positive quantity are never stored.

use vstd::prelude::*;
use vstd::map::*;

verus! {

/// One book level: scaled integer price and scaled integer quantity.
#[derive(Clone, Copy, PartialEq, Eq, Structural, Debug)]
pub struct PriceLevel {
    pub price: u64,
    pub quantity: i64,
}

/// Strictly ascending prices: sorted and duplicate-free.
pub open spec fn side_sorted(s: Seq<(u64, i64)>) -> bool {
    forall|i: int, j: int| 0 <= i < j < s.len() ==> (#[trigger] s[i]).0 < (#[trigger] s[j]).0
}

/// Every stored quantity is positive.
pub open spec fn side_positive(s: Seq<(u64, i64)>) -> bool {
    forall|i: int| 0 <= i < s.len() ==> (#[trigger] s[i]).1 > 0
}

/// The mapping a level vector denotes.
pub open spec fn side_map(s: Seq<(u64, i64)>) -> Map<u64, i64>
    decreases s.len(),
{
    if s.len() == 0 {
        Map::empty()
    } else {
        side_map(s.drop_last()).insert(s.last().0, s.last().1)
    }
}

pub proof fn lemma_side_map_dom(s: Seq<(u64, i64)>, k: u64)
    ensures
        side_map(s).dom().contains(k) <==> exists|i: int| 0 <= i < s.len() && (#[trigger] s[i]).0
            == k,
    decreases s.len(),
{
    if s.len() == 0 {
    } else {
        lemma_side_map_dom(s.drop_last(), k);
        if s.last().0 == k {
            assert(s[s.len() - 1].0 == k);
        } else {
            if exists|i: int| 0 <= i < s.len() && (#[trigger] s[i]).0 == k {
                let i = choose|i: int| 0 <= i < s.len() && (#[trigger] s[i]).0 == k;
                assert(s.drop_last()[i].0 == k);
            }
        }
    }
}

pub proof fn lemma_side_map_index(s: Seq<(u64, i64)>, i: int)
    requires
        side_sorted(s),
        0 <= i < s.len(),
    ensures
        side_map(s).dom().contains(s[i].0),
        side_map(s)[s[i].0] == s[i].1,
    decreases s.len(),
{
    if i == s.len() - 1 {
    } else {
        assert(side_sorted(s.drop_last()));
        lemma_side_map_index(s.drop_last(), i);
        assert(s.drop_last()[i] == s[i]);
        assert(s[i].0 != s.last().0);
    }
}

proof fn lemma_side_map_update(s: Seq<(u64, i64)>, i: int, x: (u64, i64))
    requires
        side_sorted(s),
        0 <= i < s.len(),
        s[i].0 == x.0,
    ensures
        side_map(s.update(i, x)) == side_map(s).insert(x.0, x.1),
    decreases s.len(),
{
    let su = s.update(i, x);
    if i == s.len() - 1 {
        assert(su.drop_last() =~= s.drop_last());
        assert(side_map(s).insert(x.0, x.1) =~= side_map(s.drop_last()).insert(x.0, x.1));
    } else {
        assert(side_sorted(s.drop_last()));
        assert(s.drop_last()[i] == s[i]);
        lemma_side_map_update(s.drop_last(), i, x);
        assert(su.drop_last() =~= s.drop_last().update(i, x));
        assert(su.last() == s.last());
        assert(s[i].0 != s.last().0);
        assert(side_map(s.drop_last()).insert(x.0, x.1).insert(s.last().0, s.last().1)
            =~= side_map(s.drop_last()).insert(s.last().0, s.last().1).insert(x.0, x.1));
    }
}

proof fn lemma_side_map_remove(s: Seq<(u64, i64)>, i: int)
    requires
        side_sorted(s),
        0 <= i < s.len(),
    ensures
        side_map(s.remove(i)) == side_map(s).remove(s[i].0),
    decreases s.len(),
{
    let sr = s.remove(i);
    if i == s.len() - 1 {
        assert(sr =~= s.drop_last());
        lemma_side_map_dom(s.drop_last(), s[i].0);
        assert(forall|j: int|
            0 <= j < s.len() - 1 ==> (#[trigger] s[j]).0 != s[s.len() - 1].0);
        assert(!side_map(s.drop_last()).dom().contains(s[i].0));
        assert(side_map(s.drop_last()).insert(s[i].0, s[i].1).remove(s[i].0) =~= side_map(
            s.drop_last(),
        ));
    } else {
        assert(side_sorted(s.drop_last()));
        assert(s.drop_last()[i] == s[i]);
        lemma_side_map_remove(s.drop_last(), i);
        assert(sr.drop_last() =~= s.drop_last().remove(i));
        assert(sr.last() == s.last());
        assert(s[i].0 != s.last().0);
        assert(side_map(s.drop_last()).remove(s[i].0).insert(s.last().0, s.last().1)
            =~= side_map(s.drop_last()).insert(s.last().0, s.last().1).remove(s[i].0));
    }
}

proof fn lemma_side_map_insert_at(s: Seq<(u64, i64)>, idx: int, x: (u64, i64))
    requires
        0 <= idx <= s.len(),
        forall|j: int| 0 <= j < s.len() ==> (#[trigger] s[j]).0 != x.0,
    ensures
        side_map(s.insert(idx, x)) == side_map(s).insert(x.0, x.1),
    decreases s.len(),
{
    let si = s.insert(idx, x);
    if idx == s.len() {
        assert(si.drop_last() =~= s);
        assert(si.last() == x);
    } else {
        assert(si.drop_last() =~= s.drop_last().insert(idx, x));
        assert(si.last() == s.last());
        assert(forall|j: int|
            0 <= j < s.len() - 1 ==> (#[trigger] s.drop_last()[j]).0 != x.0);
        lemma_side_map_insert_at(s.drop_last(), idx, x);
        assert(s[s.len() - 1].0 != x.0);
        assert(side_map(s.drop_last()).insert(x.0, x.1).insert(s.last().0, s.last().1)
            =~= side_map(s.drop_last()).insert(s.last().0, s.last().1).insert(x.0, x.1));
    }
}

/// The most recent update for a price decides presence and value: after an
/// upsert-or-remove on the mapping, the price is present exactly when the
/// quantity was positive, and then carries that quantity.
pub proof fn lemma_update_presence(m: Map<u64, i64>, p: u64, q: i64)
    ensures
        ({
            let m2 = if q <= 0 {
                m.remove(p)
            } else {
                m.insert(p, q)
            };
            &&& (m2.dom().contains(p) <==> q > 0)
            &&& (q > 0 ==> m2[p] == q)
        }),
{
}

/// Upsert or remove one level of a sorted side, preserving order.
fn side_update(v: &mut Vec<(u64, i64)>, price: u64, qty: i64)
    requires
        side_sorted(old(v)@),
        side_positive(old(v)@),
    ensures
        side_sorted(final(v)@),
        side_positive(final(v)@),
        side_map(final(v)@) == if qty <= 0 {
            side_map(old(v)@).remove(price)
        } else {
            side_map(old(v)@).insert(price, qty)
        },
{
    let n = v.len();
    let mut i: usize = 0;
    while i < n && v[i].0 < price
        invariant
            side_sorted(v@),
            side_positive(v@),
            n == v@.len(),
            0 <= i <= n,
            forall|j: int| 0 <= j < i ==> (#[trigger] v@[j]).0 < price,
            *v == *old(v),
        decreases n - i,
    {
        i += 1;
    }
    if i < n && v[i].0 == price {
        if qty <= 0 {
            proof {
                lemma_side_map_remove(v@, i as int);
            }
            let ghost pre = v@;
            v.remove(i);
            proof {
                assert forall|x: int, y: int| 0 <= x < y < v@.len() implies (#[trigger] v@[x]).0
                    < (#[trigger] v@[y]).0 by {
                    let xo = if x < i {
                        x
                    } else {
                        x + 1
                    };
                    let yo = if y < i {
                        y
                    } else {
                        y + 1
                    };
                    assert(v@[x] == pre[xo] && v@[y] == pre[yo]);
                }
                assert forall|x: int| 0 <= x < v@.len() implies (#[trigger] v@[x]).1 > 0 by {
                    let xo = if x < i {
                        x
                    } else {
                        x + 1
                    };
                    assert(v@[x] == pre[xo]);
                }
            }
        } else {
            proof {
                lemma_side_map_update(v@, i as int, (price, qty));
            }
            let ghost pre = v@;
            v.set(i, (price, qty));
            proof {
                assert forall|x: int, y: int| 0 <= x < y < v@.len() implies (#[trigger] v@[x]).0
                    < (#[trigger] v@[y]).0 by {
                    assert(v@[x].0 == pre[x].0 && v@[y].0 == pre[y].0);
                }
            }
        }
    } else {
        // No such price stored.
        proof {
            assert(forall|j: int| 0 <= j < v@.len() ==> (#[trigger] v@[j]).0 != price);
            lemma_side_map_dom(v@, price);
        }
        if qty > 0 {
            proof {
                lemma_side_map_insert_at(v@, i as int, (price, qty));
            }
            let ghost pre = v@;
            v.insert(i, (price, qty));
            proof {
                assert forall|x: int, y: int| 0 <= x < y < v@.len() implies (#[trigger] v@[x]).0
                    < (#[trigger] v@[y]).0 by {
                    if y < i {
                        assert(v@[x] == pre[x] && v@[y] == pre[y]);
                    } else if x > i {
                        assert(v@[x] == pre[x - 1] && v@[y] == pre[y - 1]);
                    } else if x < i && y == i {
                        assert(v@[x] == pre[x]);
                    } else if x < i && y > i {
                        assert(v@[x] == pre[x] && v@[y] == pre[y - 1]);
                    } else if x == i && y > i {
                        assert(v@[y] == pre[y - 1]);
                    }
                }
                assert forall|x: int| 0 <= x < v@.len() implies (#[trigger] v@[x]).1 > 0 by {
                    if x < i {
                        assert(v@[x] == pre[x]);
                    } else if x > i {
                        assert(v@[x] == pre[x - 1]);
                    }
                }
            }
        } else {
            proof {
                assert(side_map(v@).remove(price) =~= side_map(v@));
            }
        }
    }
}

/// Take up to `depth` levels from one end of a sorted side.
fn side_top(v: &Vec<(u64, i64)>, depth: usize, from_end: bool) -> (r: Vec<PriceLevel>)
    ensures
        r@.len() == if depth <= v@.len() {
            depth as int
        } else {
            v@.len() as int
        },
        forall|k: int|
            0 <= k < r@.len() ==> #[trigger] r@[k] == (PriceLevel {
                price: v@[if from_end {
                    v@.len() - 1 - k
                } else {
                    k
                }].0,
                quantity: v@[if from_end {
                    v@.len() - 1 - k
                } else {
                    k
                }].1,
            }),
{
    let n = v.len();
    let mut r: Vec<PriceLevel> = Vec::new();
    let mut k: usize = 0;
    while k < depth && k < n
        invariant
            n == v@.len(),
            0 <= k <= n,
            depth <= n ==> k <= depth,
            k <= depth,
            r@.len() == k as int,
            forall|t: int|
                0 <= t < k ==> #[trigger] r@[t] == (PriceLevel {
                    price: v@[if from_end {
                        v@.len() - 1 - t
                    } else {
                        t
                    }].0,
                    quantity: v@[if from_end {
                        v@.len() - 1 - t
                    } else {
                        t
                    }].1,
                }),
        decreases depth - k,
    {
        let idx = if from_end {
            n - 1 - k
        } else {
            k
        };
        let lvl = PriceLevel { price: v[idx].0, quantity: v[idx].1 };
        r.push(lvl);
        k += 1;
    }
    r
}

/// Per-symbol bid/ask state over scaled integer prices.
pub struct LimitOrderBook {
    pub symbol: String,
    /// Bid levels, ascending by price (best bid last).
    pub bids: Vec<(u64, i64)>,
    /// Ask levels, ascending by price (best ask first).
    pub asks: Vec<(u64, i64)>,
}

impl LimitOrderBook {
    /// Well-formed: both sides strictly sorted with positive quantities.
    pub open spec fn wf(&self) -> bool {
        &&& side_sorted(self.bids@)
        &&& side_positive(self.bids@)
        &&& side_sorted(self.asks@)
        &&& side_positive(self.asks@)
    }

    /// The bid side as a price-to-quantity mapping.
    pub open spec fn bids_map(&self) -> Map<u64, i64> {
        side_map(self.bids@)
    }

    /// The ask side as a price-to-quantity mapping.
    pub open spec fn asks_map(&self) -> Map<u64, i64> {
        side_map(self.asks@)
    }

    pub fn new(symbol: String) -> (r: LimitOrderBook)
        ensures
            r.wf(),
            r.symbol@ == symbol@,
            r.bids_map() == Map::<u64, i64>::empty(),
            r.asks_map() == Map::<u64, i64>::empty(),
            r.bids@.len() == 0,
            r.asks@.len() == 0,
    {
        LimitOrderBook { symbol, bids: Vec::new(), asks: Vec::new() }
    }

    /// Upsert a level (positive quantity) or remove it (quantity at or
    /// below zero) on one side; the other side is untouched.
    pub fn update(&mut self, is_bid: bool, price_scaled: u64, quantity_scaled: i64)
        requires
            old(self).wf(),
        ensures
            final(self).wf(),
            final(self).symbol@ == old(self).symbol@,
            ({
                let touched = if quantity_scaled <= 0 {
                    (if is_bid {
                        old(self).bids_map()
                    } else {
                        old(self).asks_map()
                    }).remove(price_scaled)
                } else {
                    (if is_bid {
                        old(self).bids_map()
                    } else {
                        old(self).asks_map()
                    }).insert(price_scaled, quantity_scaled)
                };
                if is_bid {
                    final(self).bids_map() == touched && final(self).asks@ == old(self).asks@
                } else {
                    final(self).asks_map() == touched && final(self).bids@ == old(self).bids@
                }
            }),
    {
        if is_bid {
            side_update(&mut self.bids, price_scaled, quantity_scaled);
        } else {
            side_update(&mut self.asks, price_scaled, quantity_scaled);
        }
    }

    /// Up to `depth` best bids, best (highest price) first.  When any bid
    /// is returned, its price bounds every stored bid price from above.
    pub fn top_bids(&self, depth: usize) -> (r: Vec<PriceLevel>)
        requires
            self.wf(),
        ensures
            r@.len() == if depth <= self.bids@.len() {
                depth as int
            } else {
                self.bids@.len() as int
            },
            forall|k: int|
                0 <= k < r@.len() ==> #[trigger] r@[k] == (PriceLevel {
                    price: self.bids@[self.bids@.len() - 1 - k].0,
                    quantity: self.bids@[self.bids@.len() - 1 - k].1,
                }),
            forall|k: int|
                0 <= k < r@.len() ==> self.bids_map().dom().contains(#[trigger] r@[k].price)
                    && self.bids_map()[r@[k].price] == r@[k].quantity,
            r@.len() > 0 ==> forall|p: u64|
                self.bids_map().dom().contains(p) ==> p <= r@[0].price,
    {
        let r = side_top(&self.bids, depth, true);
        proof {
            assert forall|k: int|
                0 <= k < r@.len() implies self.bids_map().dom().contains(#[trigger] r@[k].price)
                && self.bids_map()[r@[k].price] == r@[k].quantity by {
                lemma_side_map_index(self.bids@, self.bids@.len() - 1 - k);
            }
            if r@.len() > 0 {
                assert forall|p: u64| self.bids_map().dom().contains(p) implies p
                    <= r@[0].price by {
                    lemma_side_map_dom(self.bids@, p);
                    let i = choose|i: int|
                        0 <= i < self.bids@.len() && (#[trigger] self.bids@[i]).0 == p;
                    assert(r@[0].price == self.bids@[self.bids@.len() - 1].0);
                }
            }
        }
        r
    }

    /// Up to `depth` best asks, best (lowest price) first.  When any ask
    /// is returned, its price bounds every stored ask price from below.
    pub fn top_asks(&self, depth: usize) -> (r: Vec<PriceLevel>)
        requires
            self.wf(),
        ensures
            r@.len() == if depth <= self.asks@.len() {
                depth as int
            } else {
                self.asks@.len() as int
            },
            forall|k: int|
                0 <= k < r@.len() ==> #[trigger] r@[k] == (PriceLevel {
                    price: self.asks@[k].0,
                    quantity: self.asks@[k].1,
                }),
            forall|k: int|
                0 <= k < r@.len() ==> self.asks_map().dom().contains(#[trigger] r@[k].price)
                    && self.asks_map()[r@[k].price] == r@[k].quantity,
            r@.len() > 0 ==> forall|p: u64|
                self.asks_map().dom().contains(p) ==> p >= r@[0].price,
    {
        let r = side_top(&self.asks, depth, false);
        proof {
            assert forall|k: int|
                0 <= k < r@.len() implies self.asks_map().dom().contains(#[trigger] r@[k].price)
                && self.asks_map()[r@[k].price] == r@[k].quantity by {
                lemma_side_map_index(self.asks@, k);
            }
            if r@.len() > 0 {
                assert forall|p: u64| self.asks_map().dom().contains(p) implies p
                    >= r@[0].price by {
                    lemma_side_map_dom(self.asks@, p);
                    let i = choose|i: int|
                        0 <= i < self.asks@.len() && (#[trigger] self.asks@[i]).0 == p;
                    assert(r@[0].price == self.asks@[0].0);
                }
            }
        }
        r
    }
}

/// The quantities of one side's levels, in storage order.
pub open spec fn side_qtys(s: Seq<(u64, i64)>) -> Seq<i64> {
    s.map_values(|p: (u64, i64)| p.1)
}

/// Aggregate top-of-book statistics over two best-first sides: best
/// prices, top quantities, per-side quantity totals, twice the mid price,
/// the spread, and the top-of-book imbalance in micro-units (the last
/// three are 0 unless both sides quote a positive best price).
pub fn compute_book_stats(bids: &Vec<(i64, i64)>, asks: &Vec<(i64, i64)>) -> (r: (
    i64,
    i64,
    i64,
    i64,
    i64,
    i64,
    i64,
))
    requires
        bids@.len() <= 0x10_0000,
        asks@.len() <= 0x10_0000,
        forall|i: int|
            0 <= i < bids@.len() ==> 0 <= (#[trigger] bids@[i]).0 <= crate::signal_math::VAL_CAP
                && 0 <= bids@[i].1 <= crate::signal_math::VAL_CAP,
        forall|i: int|
            0 <= i < asks@.len() ==> 0 <= (#[trigger] asks@[i]).0 <= crate::signal_math::VAL_CAP
                && 0 <= asks@[i].1 <= crate::signal_math::VAL_CAP,
    ensures
        r.0 == if bids@.len() > 0 {
            bids@[0].0
        } else {
            0
        },
        r.1 == if asks@.len() > 0 {
            asks@[0].0
        } else {
            0
        },
        r.2 == crate::signal_math::seq_sum(side_qtys_i64(bids@)),
        r.3 == crate::signal_math::seq_sum(side_qtys_i64(asks@)),
        ({
            let bb: int = if bids@.len() > 0 {
                bids@[0].0 as int
            } else {
                0
            };
            let ba: int = if asks@.len() > 0 {
                asks@[0].0 as int
            } else {
                0
            };
            let btv: int = if bids@.len() > 0 {
                bids@[0].1 as int
            } else {
                0
            };
            let atv: int = if asks@.len() > 0 {
                asks@[0].1 as int
            } else {
                0
            };
            if bb > 0 && ba > 0 {
                r.4 == bb + ba && r.5 == ba - bb && r.6 == (if btv + atv > 0 {
                    crate::fixed::div_tr((btv - atv) * crate::SCALE, btv + atv)
                } else {
                    0
                })
            } else {
                r.4 == 0 && r.5 == 0 && r.6 == 0
            }
        }),
{
    let best_bid: i64 = if bids.len() > 0 {
        bids[0].0
    } else {
        0
    };
    let best_ask: i64 = if asks.len() > 0 {
        asks[0].0
    } else {
        0
    };
    let bid_top: i64 = if bids.len() > 0 {
        bids[0].1
    } else {
        0
    };
    let ask_top: i64 = if asks.len() > 0 {
        asks[0].1
    } else {
        0
    };
    let bid_total = side_total(bids);
    let ask_total = side_total(asks);
    let (mid_x2, spread, imb): (i64, i64, i64) = if best_bid > 0 && best_ask > 0 {
        let total_top = bid_top + ask_top;
        let im: i64 = if total_top > 0 {
            proof {
                assert(-(total_top * crate::SCALE) <= (bid_top - ask_top) * crate::SCALE
                    <= total_top * crate::SCALE) by (nonlinear_arith)
                    requires
                        0 <= bid_top && 0 <= ask_top && total_top == bid_top + ask_top && total_top
                            > 0,
                ;
                crate::signal_math::lemma_div_tr_bound(
                    (bid_top - ask_top) * crate::SCALE,
                    total_top as int,
                    crate::SCALE as int,
                );
            }
            let num: i128 = ((bid_top - ask_top) as i128) * (crate::SCALE as i128);
            crate::fixed::div_i128(num, total_top as i128) as i64
        } else {
            0
        };
        (best_bid + best_ask, best_ask - best_bid, im)
    } else {
        (0, 0, 0)
    };
    (best_bid, best_ask, bid_total, ask_total, mid_x2, spread, imb)
}

/// The quantities of a best-first side, in order.
pub open spec fn side_qtys_i64(s: Seq<(i64, i64)>) -> Seq<i64> {
    s.map_values(|p: (i64, i64)| p.1)
}

/// Total resting quantity of one side.
fn side_total(s: &Vec<(i64, i64)>) -> (r: i64)
    requires
        s@.len() <= 0x10_0000,
        forall|i: int|
            0 <= i < s@.len() ==> 0 <= (#[trigger] s@[i]).0 <= crate::signal_math::VAL_CAP && 0
                <= s@[i].1 <= crate::signal_math::VAL_CAP,
    ensures
        r == crate::signal_math::seq_sum(side_qtys_i64(s@)),
        0 <= r,
{
    let n = s.len();
    let mut sum: i64 = 0;
    let mut k: usize = 0;
    while k < n
        invariant
            n == s@.len(),
            n <= 0x10_0000,
            0 <= k <= n,
            forall|i: int|
                0 <= i < s@.len() ==> 0 <= (#[trigger] s@[i]).0 <= crate::signal_math::VAL_CAP
                    && 0 <= s@[i].1 <= crate::signal_math::VAL_CAP,
            sum == crate::signal_math::seq_sum(side_qtys_i64(s@).take(k as int)),
            0 <= sum <= (k as int) * crate::signal_math::VAL_CAP,
        decreases n - k,
    {
        proof {
            crate::signal_math::lemma_seq_sum_take_unfold(side_qtys_i64(s@), k as int);
            assert((k as int) * crate::signal_math::VAL_CAP + crate::signal_math::VAL_CAP == (
            k as int + 1) * crate::signal_math::VAL_CAP) by (nonlinear_arith);
            assert((k as int + 1) * crate::signal_math::VAL_CAP <= 0x10_0000
                * crate::signal_math::VAL_CAP) by (nonlinear_arith)
                requires
                    k as int + 1 <= 0x10_0000,
            ;
        }
        sum = sum + s[k].1;
        k += 1;
    }
    proof {
        assert(side_qtys_i64(s@).take(n as int) =~= side_qtys_i64(s@));
    }
    sum
}

} // verus!
