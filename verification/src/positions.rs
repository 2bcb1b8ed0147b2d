//! Fixed-point position and profit accounting.
//!
//! Every fill (price, quantity, side, fees) updates a per-key
//! [`PositionState`]; the tracker owns one record per composite key
//! (account, strategy, symbol joined by colons).  All arithmetic is `i64`
//! fixed-point at the scale of the incoming fill prices; accumulators
//! saturate at the `i64` range instead of wrapping.

use vstd::prelude::*;
use vstd::map::*;

use crate::fixed::{abs_of, div_tr, min_of, sat_i64, sign_of};
use crate::fixed::{clamp_i128_to_i64, div_i128, sat_add_i64};

verus! {

/// Largest fill quantity a single call accepts (lots).
pub const QTY_CAP: i64 = 0x8000_0000;

/// Largest fill price a single call accepts (fixed-point units).
pub const PRICE_CAP: i64 = 0x8000_0000;

/// Largest fee or tax a single call accepts (fixed-point units).
pub const FEE_CAP: i64 = 0x8000_0000;

/// One tracked position: net quantity, average entry price, realized
/// profit and accumulated fees, all in fixed-point, plus the timestamp of
/// the last fill.  The average price is meaningful only while `net_qty`
/// is nonzero.
#[derive(Clone, Copy, PartialEq, Eq, Structural, Debug)]
pub struct PositionState {
    pub net_qty: i64,
    pub avg_price_scaled: i64,
    pub realized_pnl_scaled: i64,
    pub fees_scaled: i64,
    pub last_update_ts: i64,
}

impl PositionState {
    /// The empty record a key starts from.
    pub open spec fn zero() -> PositionState {
        PositionState {
            net_qty: 0,
            avg_price_scaled: 0,
            realized_pnl_scaled: 0,
            fees_scaled: 0,
            last_update_ts: 0,
        }
    }

    /// Internal invariant: the average entry price stays a valid price.
    pub open spec fn wf(self) -> bool {
        0 <= self.avg_price_scaled <= PRICE_CAP
    }

    pub fn new() -> (r: PositionState)
        ensures
            r == PositionState::zero(),
    {
        PositionState {
            net_qty: 0,
            avg_price_scaled: 0,
            realized_pnl_scaled: 0,
            fees_scaled: 0,
            last_update_ts: 0,
        }
    }
}

/// The effect of one fill on one record, exactly as the tracker computes it.
///
/// `side` 0 is a buy, anything else a sell.  Fees and taxes accumulate.
/// A fill against existing exposure realizes profit on the closed quantity
/// (`min(|net|, qty)`): buys close shorts at `avg - price` per lot, sells
/// close longs at `price - avg`; if the position flips sign the remainder
/// is valued at the fill price.  A fill in the direction of the position
/// re-computes the average price as the quantity-weighted mean with
/// truncating division.  Accumulators saturate at the `i64` range.
pub open spec fn spec_fill_step(
    p: PositionState,
    side: i64,
    qty: i64,
    price: i64,
    fee: i64,
    tax: i64,
    ts: i64,
) -> PositionState {
    let is_buy = side == 0;
    let signed: int = if is_buy {
        qty as int
    } else {
        -(qty as int)
    };
    let fees = sat_i64(p.fees_scaled + fee + tax);
    let cur = sign_of(p.net_qty as int);
    let fsign: int = if is_buy {
        1
    } else {
        -1
    };
    if cur != 0 && fsign != cur {
        let close_qty = min_of(abs_of(p.net_qty as int), qty as int);
        let delta = if is_buy {
            (p.avg_price_scaled - price) * close_qty
        } else {
            (price - p.avg_price_scaled) * close_qty
        };
        let pnl = sat_i64(p.realized_pnl_scaled + delta);
        let net = p.net_qty + signed;
        let flipped = (cur > 0 && net < 0) || (cur < 0 && net > 0);
        PositionState {
            net_qty: net as i64,
            avg_price_scaled: if flipped {
                price
            } else {
                p.avg_price_scaled
            },
            realized_pnl_scaled: pnl as i64,
            fees_scaled: fees as i64,
            last_update_ts: ts,
        }
    } else if p.net_qty == 0 {
        PositionState {
            net_qty: signed as i64,
            avg_price_scaled: price,
            realized_pnl_scaled: p.realized_pnl_scaled,
            fees_scaled: fees as i64,
            last_update_ts: ts,
        }
    } else {
        let total = p.net_qty * p.avg_price_scaled + signed * price;
        let newnet = p.net_qty + signed;
        let avg: int = if newnet != 0 {
            div_tr(total, newnet)
        } else {
            p.avg_price_scaled as int
        };
        PositionState {
            net_qty: sat_i64(newnet) as i64,
            avg_price_scaled: avg as i64,
            realized_pnl_scaled: p.realized_pnl_scaled,
            fees_scaled: fees as i64,
            last_update_ts: ts,
        }
    }
}

/// Truncating division of a quantity-weighted price sum stays between the
/// two prices when both weights have the same sign.
proof fn lemma_weighted_avg_in_range(w1: int, w2: int, a: int, b: int, hi: int)
    requires
        w1 >= 1,
        w2 >= 1,
        0 <= a <= hi,
        0 <= b <= hi,
    ensures
        0 <= div_tr(w1 * a + w2 * b, w1 + w2) <= hi,
{
    let total = w1 * a + w2 * b;
    let w = w1 + w2;
    assert(total >= 0) by (nonlinear_arith)
        requires
            w1 >= 1 && w2 >= 1 && a >= 0 && b >= 0 && total == w1 * a + w2 * b,
    ;
    assert(total <= w * hi) by (nonlinear_arith)
        requires
            w1 >= 1 && w2 >= 1 && 0 <= a <= hi && 0 <= b <= hi && w == w1 + w2 && total == w1 * a
                + w2 * b,
    ;
    if total == 0 {
    } else {
        assert(div_tr(total, w) == total / w);
        vstd::arithmetic::div_mod::lemma_div_pos_is_pos(total, w);
        vstd::arithmetic::div_mod::lemma_div_is_ordered(total, w * hi, w);
        vstd::arithmetic::div_mod::lemma_div_by_multiple(hi, w);
        assert(w * hi == hi * w) by (nonlinear_arith);
    }
}

impl PositionState {
    /// Apply one fill to this record.
    pub fn apply_fill(&mut self, side: i64, qty: i64, price: i64, fee: i64, tax: i64, ts: i64)
        requires
            old(self).wf(),
            0 < qty <= QTY_CAP,
            0 <= price <= PRICE_CAP,
            0 <= fee <= FEE_CAP,
            0 <= tax <= FEE_CAP,
        ensures
            *final(self) == spec_fill_step(*old(self), side, qty, price, fee, tax, ts),
            final(self).wf(),
    {
        let is_buy = side == 0;
        let signed: i64 = if is_buy {
            qty
        } else {
            -qty
        };
        self.fees_scaled = sat_add_i64(self.fees_scaled, fee + tax);
        let cur: i64 = if self.net_qty > 0 {
            1
        } else if self.net_qty < 0 {
            -1
        } else {
            0
        };
        let fsign: i64 = if is_buy {
            1
        } else {
            -1
        };
        if cur != 0 && fsign != cur {
            let abs_net: i64 = if self.net_qty == i64::MIN {
                i64::MAX
            } else if self.net_qty >= 0 {
                self.net_qty
            } else {
                -self.net_qty
            };
            // A saturated short of i64::MIN lots still closes at most
            // QTY_CAP lots, so the clamp above cannot change the minimum.
            let close_qty: i64 = if abs_net < qty {
                abs_net
            } else {
                qty
            };
            assert(close_qty == min_of(abs_of(old(self).net_qty as int), qty as int));
            let diff: i64 = if is_buy {
                self.avg_price_scaled - price
            } else {
                price - self.avg_price_scaled
            };
            assert((diff as int) * (close_qty as int) == if is_buy {
                (old(self).avg_price_scaled - price) * min_of(
                    abs_of(old(self).net_qty as int),
                    qty as int,
                )
            } else {
                (price - old(self).avg_price_scaled) * min_of(
                    abs_of(old(self).net_qty as int),
                    qty as int,
                )
            });
            assert(-0x4000_0000_0000_0000 <= (diff as int) * (close_qty as int)
                <= 0x4000_0000_0000_0000) by (nonlinear_arith)
                requires
                    -PRICE_CAP <= diff <= PRICE_CAP && 0 <= close_qty <= QTY_CAP,
            ;
            let delta: i64 = diff * close_qty;
            self.realized_pnl_scaled = sat_add_i64(self.realized_pnl_scaled, delta);
            self.net_qty = self.net_qty + signed;
            if (cur > 0 && self.net_qty < 0) || (cur < 0 && self.net_qty > 0) {
                self.avg_price_scaled = price;
            }
            self.last_update_ts = ts;
        } else if self.net_qty == 0 {
            self.avg_price_scaled = price;
            self.net_qty = signed;
            self.last_update_ts = ts;
        } else {
            let net128: i128 = self.net_qty as i128;
            let avg128: i128 = self.avg_price_scaled as i128;
            let signed128: i128 = signed as i128;
            let price128: i128 = price as i128;
            assert(net128 * avg128 <= 0x8000_0000_0000_0000_0000_0000i128
                && net128 * avg128 >= -0x8000_0000_0000_0000_0000_0000i128) by (nonlinear_arith)
                requires
                    -0x8000_0000_0000_0000i128 <= net128 <= 0x8000_0000_0000_0000i128 && 0
                        <= avg128 <= PRICE_CAP as i128,
            ;
            assert(signed128 * price128 <= 0x4000_0000_0000_0000i128 && signed128 * price128
                >= -0x4000_0000_0000_0000i128) by (nonlinear_arith)
                requires
                    -(QTY_CAP as i128) <= signed128 <= QTY_CAP as i128 && 0 <= price128
                        <= PRICE_CAP as i128,
            ;
            let total: i128 = net128 * avg128 + signed128 * price128;
            let newnet: i128 = net128 + signed128;
            self.net_qty = clamp_i128_to_i64(newnet);
            if newnet != 0 {
                proof {
                    // Not closing and nonzero: the fill has the sign of the
                    // position, so the weighted-average bound applies.
                    if old(self).net_qty > 0 {
                        lemma_weighted_avg_in_range(
                            net128 as int,
                            signed128 as int,
                            avg128 as int,
                            price128 as int,
                            PRICE_CAP as int,
                        );
                    } else {
                        lemma_weighted_avg_in_range(
                            -(net128 as int),
                            -(signed128 as int),
                            avg128 as int,
                            price128 as int,
                            PRICE_CAP as int,
                        );
                        assert(div_tr(total as int, newnet as int) == div_tr(
                            -(total as int),
                            -(newnet as int),
                        ));
                        assert(-(total as int) == (-(net128 as int)) * (avg128 as int) + (-(
                        signed128 as int)) * (price128 as int)) by (nonlinear_arith)
                            requires
                                total == net128 * avg128 + signed128 * price128,
                        ;
                    }
                }
                let avg_new: i128 = div_i128(total, newnet);
                self.avg_price_scaled = avg_new as i64;
            }
            self.last_update_ts = ts;
        }
    }
}

/// Key uniqueness across the tracker's backing vector.
pub open spec fn keys_unique(s: Seq<(String, PositionState)>) -> bool {
    forall|i: int, j: int| 0 <= i < j < s.len() ==> s[i].0@ != s[j].0@
}

/// The mapping a key-record vector denotes.
pub open spec fn as_map(s: Seq<(String, PositionState)>) -> Map<Seq<char>, PositionState>
    decreases s.len(),
{
    if s.len() == 0 {
        Map::empty()
    } else {
        as_map(s.drop_last()).insert(s.last().0@, s.last().1)
    }
}

proof fn lemma_as_map_dom(s: Seq<(String, PositionState)>, k: Seq<char>)
    ensures
        as_map(s).dom().contains(k) <==> exists|i: int| 0 <= i < s.len() && s[i].0@ == k,
    decreases s.len(),
{
    if s.len() == 0 {
    } else {
        lemma_as_map_dom(s.drop_last(), k);
        if s.last().0@ == k {
            assert(s[s.len() - 1].0@ == k);
        } else {
            if exists|i: int| 0 <= i < s.len() && s[i].0@ == k {
                let i = choose|i: int| 0 <= i < s.len() && s[i].0@ == k;
                assert(i < s.len() - 1);
                assert(s.drop_last()[i].0@ == k);
            }
        }
    }
}

proof fn lemma_as_map_index(s: Seq<(String, PositionState)>, i: int)
    requires
        keys_unique(s),
        0 <= i < s.len(),
    ensures
        as_map(s).dom().contains(s[i].0@),
        as_map(s)[s[i].0@] == s[i].1,
    decreases s.len(),
{
    if i == s.len() - 1 {
    } else {
        assert(keys_unique(s.drop_last()));
        lemma_as_map_index(s.drop_last(), i);
        assert(s.drop_last()[i] == s[i]);
        assert(s[i].0@ != s.last().0@);
    }
}

proof fn lemma_as_map_update(s: Seq<(String, PositionState)>, i: int, p: (String, PositionState))
    requires
        keys_unique(s),
        0 <= i < s.len(),
        s[i].0@ == p.0@,
    ensures
        as_map(s.update(i, p)) == as_map(s).insert(p.0@, p.1),
        keys_unique(s.update(i, p)),
    decreases s.len(),
{
    let su = s.update(i, p);
    assert(keys_unique(su));
    if i == s.len() - 1 {
        assert(su.drop_last() =~= s.drop_last());
        assert(as_map(su) == as_map(s.drop_last()).insert(p.0@, p.1));
        assert(as_map(s).insert(p.0@, p.1) =~= as_map(s.drop_last()).insert(p.0@, p.1));
    } else {
        assert(keys_unique(s.drop_last()));
        assert(s.drop_last()[i] == s[i]);
        lemma_as_map_update(s.drop_last(), i, p);
        assert(su.drop_last() =~= s.drop_last().update(i, p));
        assert(su.last() == s.last());
        assert(s[i].0@ != s.last().0@);
        assert(as_map(su) == as_map(s.drop_last()).insert(p.0@, p.1).insert(
            s.last().0@,
            s.last().1,
        ));
        assert(as_map(s.drop_last()).insert(p.0@, p.1).insert(s.last().0@, s.last().1)
            =~= as_map(s.drop_last()).insert(s.last().0@, s.last().1).insert(p.0@, p.1));
    }
}

proof fn lemma_as_map_remove(s: Seq<(String, PositionState)>, i: int)
    requires
        keys_unique(s),
        0 <= i < s.len(),
    ensures
        as_map(s.remove(i)) == as_map(s).remove(s[i].0@),
        keys_unique(s.remove(i)),
    decreases s.len(),
{
    let sr = s.remove(i);
    assert(keys_unique(sr)) by {
        assert forall|x: int, y: int| 0 <= x < y < sr.len() implies sr[x].0@ != sr[y].0@ by {
            let xo = if x < i {
                x
            } else {
                x + 1
            };
            let yo = if y < i {
                y
            } else {
                y + 1
            };
            assert(sr[x] == s[xo] && sr[y] == s[yo]);
        }
    }
    if i == s.len() - 1 {
        assert(sr =~= s.drop_last());
        lemma_as_map_dom(s.drop_last(), s[i].0@);
        assert(forall|j: int|
            0 <= j < s.drop_last().len() ==> s.drop_last()[j].0@ != s[i].0@) by {
            assert(forall|j: int| 0 <= j < s.len() - 1 ==> (#[trigger] s[j]).0@ != s[i].0@);
        }
        assert(!as_map(s.drop_last()).dom().contains(s[i].0@));
        assert(as_map(s.drop_last()).insert(s[i].0@, s[i].1).remove(s[i].0@) =~= as_map(
            s.drop_last(),
        ));
    } else {
        assert(keys_unique(s.drop_last()));
        assert(s.drop_last()[i] == s[i]);
        lemma_as_map_remove(s.drop_last(), i);
        assert(sr.drop_last() =~= s.drop_last().remove(i));
        assert(sr.last() == s.last());
        assert(s[i].0@ != s.last().0@);
        assert(as_map(sr) == as_map(s.drop_last()).remove(s[i].0@).insert(
            s.last().0@,
            s.last().1,
        ));
        assert(as_map(s.drop_last()).remove(s[i].0@).insert(s.last().0@, s.last().1)
            =~= as_map(s.drop_last()).insert(s.last().0@, s.last().1).remove(s[i].0@));
    }
}

proof fn lemma_as_map_len(s: Seq<(String, PositionState)>)
    requires
        keys_unique(s),
    ensures
        as_map(s).dom().finite(),
        as_map(s).dom().len() == s.len(),
    decreases s.len(),
{
    if s.len() == 0 {
        assert(as_map(s).dom() =~= Set::<Seq<char>>::empty());
    } else {
        assert(keys_unique(s.drop_last()));
        lemma_as_map_len(s.drop_last());
        lemma_as_map_dom(s.drop_last(), s.last().0@);
        assert(forall|j: int|
            0 <= j < s.drop_last().len() ==> s.drop_last()[j].0@ != s.last().0@) by {
            assert(forall|j: int| 0 <= j < s.len() - 1 ==> (#[trigger] s[j]).0@ != s[s.len() - 1].0@);
        }
        assert(!as_map(s.drop_last()).dom().contains(s.last().0@));
    }
}

/// Position tracker: one fixed-point record per composite key.
pub struct RustPositionTracker {
    positions: Vec<(String, PositionState)>,
}

impl RustPositionTracker {
    /// Well-formed: unique keys, every record's invariant holds.
    pub closed spec fn wf(&self) -> bool {
        &&& keys_unique(self.positions@)
        &&& forall|i: int| 0 <= i < self.positions@.len() ==> (#[trigger] self.positions@[i]).1.wf()
    }

    /// The tracker as a mapping from key text to record.
    pub closed spec fn view(&self) -> Map<Seq<char>, PositionState> {
        as_map(self.positions@)
    }

    /// The record a key currently denotes, or the zero record.
    pub open spec fn state_of(&self, k: Seq<char>) -> PositionState {
        if self@.dom().contains(k) {
            self@[k]
        } else {
            PositionState::zero()
        }
    }

    pub fn new() -> (r: RustPositionTracker)
        ensures
            r.wf(),
            r@ == Map::<Seq<char>, PositionState>::empty(),
    {
        RustPositionTracker { positions: Vec::new() }
    }

    /// Process a fill for `key` and return the updated record as the tuple
    /// `(net_qty, avg_price_scaled, realized_pnl_scaled, fees_scaled)`.
    ///
    /// `side` 0 is a buy, anything else a sell; quantities, prices, fees
    /// and taxes are fixed-point and capped so products fit the machine.
    pub fn update(
        &mut self,
        key: String,
        side: i64,
        qty: i64,
        price_scaled: i64,
        fee: i64,
        tax: i64,
        match_ts: i64,
    ) -> (r: (i64, i64, i64, i64))
        requires
            old(self).wf(),
            0 < qty <= QTY_CAP,
            0 <= price_scaled <= PRICE_CAP,
            0 <= fee <= FEE_CAP,
            0 <= tax <= FEE_CAP,
        ensures
            final(self).wf(),
            final(self)@ == old(self)@.insert(
                key@,
                spec_fill_step(
                    old(self).state_of(key@),
                    side,
                    qty,
                    price_scaled,
                    fee,
                    tax,
                    match_ts,
                ),
            ),
            ({
                let st = spec_fill_step(
                    old(self).state_of(key@),
                    side,
                    qty,
                    price_scaled,
                    fee,
                    tax,
                    match_ts,
                );
                r == (st.net_qty, st.avg_price_scaled, st.realized_pnl_scaled, st.fees_scaled)
            }),
    {
        let n = self.positions.len();
        let mut i: usize = 0;
        while i < n
            invariant
                self.wf(),
                n == self.positions@.len(),
                0 <= i <= n,
                forall|j: int| 0 <= j < i ==> self.positions@[j].0@ != key@,
                *self == *old(self),
                0 < qty <= QTY_CAP,
                0 <= price_scaled <= PRICE_CAP,
                0 <= fee <= FEE_CAP,
                0 <= tax <= FEE_CAP,
            decreases n - i,
        {
            if self.positions[i].0 == key {
                proof {
                    lemma_as_map_index(self.positions@, i as int);
                }
                let mut st = self.positions[i].1;
                st.apply_fill(side, qty, price_scaled, fee, tax, match_ts);
                let res = (st.net_qty, st.avg_price_scaled, st.realized_pnl_scaled, st.fees_scaled);
                proof {
                    lemma_as_map_update(self.positions@, i as int, (key, st));
                }
                self.positions.set(i, (key, st));
                assert(forall|j: int|
                    0 <= j < self.positions@.len() ==> (#[trigger] self.positions@[j]).1.wf());
                return res;
            }
            i += 1;
        }
        proof {
            lemma_as_map_dom(self.positions@, key@);
            assert(!self@.dom().contains(key@));
        }
        let mut st = PositionState::new();
        st.apply_fill(side, qty, price_scaled, fee, tax, match_ts);
        let res = (st.net_qty, st.avg_price_scaled, st.realized_pnl_scaled, st.fees_scaled);
        self.positions.push((key, st));
        proof {
            assert(self.positions@.drop_last() =~= old(self).positions@);
            assert(keys_unique(self.positions@)) by {
                assert(forall|j: int|
                    0 <= j < old(self).positions@.len() ==> (#[trigger] old(
                        self,
                    ).positions@[j]).0@ != key@);
            }
        }
        res
    }

    /// Current record for a key as a tuple, or all zeros if untracked.
    pub fn get(&self, key: &String) -> (r: (i64, i64, i64, i64))
        requires
            self.wf(),
        ensures
            ({
                let st = self.state_of(key@);
                r == (st.net_qty, st.avg_price_scaled, st.realized_pnl_scaled, st.fees_scaled)
            }),
    {
        let n = self.positions.len();
        let mut i: usize = 0;
        while i < n
            invariant
                self.wf(),
                n == self.positions@.len(),
                0 <= i <= n,
                forall|j: int| 0 <= j < i ==> self.positions@[j].0@ != key@,
            decreases n - i,
        {
            if self.positions[i].0 == *key {
                proof {
                    lemma_as_map_index(self.positions@, i as int);
                }
                let st = &self.positions[i].1;
                return (st.net_qty, st.avg_price_scaled, st.realized_pnl_scaled, st.fees_scaled);
            }
            i += 1;
        }
        proof {
            lemma_as_map_dom(self.positions@, key@);
        }
        (0, 0, 0, 0)
    }

    /// Forget a key's record.
    pub fn reset(&mut self, key: &String)
        requires
            old(self).wf(),
        ensures
            final(self).wf(),
            final(self)@ == old(self)@.remove(key@),
    {
        let n = self.positions.len();
        let mut i: usize = 0;
        while i < n
            invariant
                self.wf(),
                n == self.positions@.len(),
                0 <= i <= n,
                forall|j: int| 0 <= j < i ==> self.positions@[j].0@ != key@,
                *self == *old(self),
            decreases n - i,
        {
            if self.positions[i].0 == *key {
                proof {
                    lemma_as_map_remove(self.positions@, i as int);
                }
                self.positions.remove(i);
                assert(forall|j: int|
                    0 <= j < self.positions@.len() ==> (#[trigger] self.positions@[j]).1.wf());
                return ;
            }
            i += 1;
        }
        proof {
            lemma_as_map_dom(self.positions@, key@);
            assert(!self@.dom().contains(key@));
            assert(self@.remove(key@) =~= self@);
        }
    }

    /// Number of tracked keys.
    pub fn len(&self) -> (r: usize)
        requires
            self.wf(),
        ensures
            r == self@.dom().len(),
    {
        proof {
            lemma_as_map_len(self.positions@);
        }
        self.positions.len()
    }
}

/// Round-trip law: from a flat record, buying a quantity and then selling
/// the same quantity nets the position to zero, realizes exactly the
/// price difference on that quantity, and accumulates both fee legs.
pub proof fn lemma_round_trip(qty: i64, p1: i64, p2: i64, f1: i64, f2: i64, ts1: i64, ts2: i64)
    requires
        0 < qty <= QTY_CAP,
        0 <= p1 <= PRICE_CAP,
        0 <= p2 <= PRICE_CAP,
        0 <= f1 <= FEE_CAP,
        0 <= f2 <= FEE_CAP,
    ensures
        ({
            let st1 = spec_fill_step(PositionState::zero(), 0, qty, p1, f1, 0, ts1);
            let st2 = spec_fill_step(st1, 1, qty, p2, f2, 0, ts2);
            &&& st2.net_qty == 0
            &&& st2.realized_pnl_scaled == (p2 - p1) * qty
            &&& st2.fees_scaled == f1 + f2
        }),
{
    let st1 = spec_fill_step(PositionState::zero(), 0, qty, p1, f1, 0, ts1);
    assert(st1.net_qty == qty && st1.avg_price_scaled == p1 && st1.realized_pnl_scaled == 0
        && st1.fees_scaled == f1);
    assert(-(PRICE_CAP * QTY_CAP) <= (p2 - p1) * qty <= PRICE_CAP * QTY_CAP) by (nonlinear_arith)
        requires
            -PRICE_CAP <= p2 - p1 <= PRICE_CAP && 0 < qty <= QTY_CAP,
    ;
}

/// Flip law: from a flat record, buying a quantity and then selling more
/// than that quantity closes the long at the sale price (realizing the
/// price difference on the bought quantity) and leaves a short for the
/// remainder, valued at the sale price.
pub proof fn lemma_flip(q1: i64, q2: i64, p1: i64, p2: i64, ts1: i64, ts2: i64)
    requires
        0 < q1 < q2 <= QTY_CAP,
        0 <= p1 <= PRICE_CAP,
        0 <= p2 <= PRICE_CAP,
    ensures
        ({
            let st1 = spec_fill_step(PositionState::zero(), 0, q1, p1, 0, 0, ts1);
            let st2 = spec_fill_step(st1, 1, q2, p2, 0, 0, ts2);
            &&& st2.net_qty == q1 - q2
            &&& st2.avg_price_scaled == p2
            &&& st2.realized_pnl_scaled == (p2 - p1) * q1
        }),
{
    let st1 = spec_fill_step(PositionState::zero(), 0, q1, p1, 0, 0, ts1);
    assert(st1.net_qty == q1 && st1.avg_price_scaled == p1 && st1.realized_pnl_scaled == 0);
    assert(-(PRICE_CAP * QTY_CAP) <= (p2 - p1) * q1 <= PRICE_CAP * QTY_CAP) by (nonlinear_arith)
        requires
            -PRICE_CAP <= p2 - p1 <= PRICE_CAP && 0 < q1 <= QTY_CAP,
    ;
}

} // verus!
