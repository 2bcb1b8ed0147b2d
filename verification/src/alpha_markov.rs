//! Markov-transition factor: three smoothed estimates of the next return,
//! keyed by the sign of the current return (up, down, flat).  For each
//! position the factor predicts with the pre-update estimate of the
//! current sign bucket, then updates that bucket with the realized next
//! return.

use vstd::prelude::*;

use crate::SCALE;
use crate::signal_math::{ewma_step, spec_ewma_step, VAL_CAP};

verus! {

/// The three bucket estimates (up, down, flat).
pub type Ests = (i64, i64, i64);

/// The prediction a bucket state makes for the sign of `r`.
pub open spec fn spec_markov_pred(ests: Ests, r: i64) -> i64 {
    if r > 0 {
        ests.0
    } else if r < 0 {
        ests.1
    } else {
        ests.2
    }
}

/// One transition: the bucket of `r`'s sign is smoothed toward the
/// realized next return.
pub open spec fn spec_markov_step(ests: Ests, r: i64, target: i64, alpha: i64) -> Ests {
    if r > 0 {
        (spec_ewma_step(ests.0 as int, target as int, alpha as int) as i64, ests.1, ests.2)
    } else if r < 0 {
        (ests.0, spec_ewma_step(ests.1 as int, target as int, alpha as int) as i64, ests.2)
    } else {
        (ests.0, ests.1, spec_ewma_step(ests.2 as int, target as int, alpha as int) as i64)
    }
}

/// Bucket state after processing the first `i` adjacent pairs of `rets`.
pub open spec fn spec_markov_est_at(ests0: Ests, rets: Seq<i64>, alpha: i64, i: int) -> Ests
    decreases i,
{
    if i <= 0 {
        ests0
    } else {
        let prev = spec_markov_est_at(ests0, rets, alpha, i - 1);
        spec_markov_step(prev, rets[i - 1], rets[i], alpha)
    }
}

/// Markov-transition factor state.
pub struct AlphaMarkovTransition {
    alpha: i64,
    est_up: i64,
    est_dn: i64,
    est_flat: i64,
}

impl AlphaMarkovTransition {
    /// The smoothing constant, in micro-units.
    pub closed spec fn alpha_spec(&self) -> i64 {
        self.alpha
    }

    /// The three bucket estimates.
    pub closed spec fn ests(&self) -> Ests {
        (self.est_up, self.est_dn, self.est_flat)
    }

    /// Well-formed: valid smoothing constant, bounded estimates.
    pub closed spec fn wf(&self) -> bool {
        &&& 0 <= self.alpha <= SCALE
        &&& -VAL_CAP <= self.est_up <= VAL_CAP
        &&& -VAL_CAP <= self.est_dn <= VAL_CAP
        &&& -VAL_CAP <= self.est_flat <= VAL_CAP
    }

    pub fn new(alpha: i64) -> (r: AlphaMarkovTransition)
        requires
            0 <= alpha <= SCALE,
        ensures
            r.wf(),
            r.alpha_spec() == alpha,
            r.ests() == (0i64, 0i64, 0i64),
    {
        AlphaMarkovTransition { alpha, est_up: 0, est_dn: 0, est_flat: 0 }
    }

    /// Run the factor over a column of returns: position `i` predicts
    /// `rets[i + 1]` from the pre-update estimate of `rets[i]`'s
    /// sign bucket; the last position (and an empty column) yields 0.
    pub fn compute(&mut self, rets: &Vec<i64>) -> (out: Vec<i64>)
        requires
            old(self).wf(),
            forall|i: int| 0 <= i < rets@.len() ==> -VAL_CAP <= #[trigger] rets@[i]
                <= VAL_CAP,
        ensures
            final(self).wf(),
            final(self).alpha_spec() == old(self).alpha_spec(),
            out@.len() == rets@.len(),
            forall|i: int|
                0 <= i < out@.len() ==> #[trigger] out@[i] == (if i + 1 < rets@.len() {
                    spec_markov_pred(
                        spec_markov_est_at(
                            old(self).ests(),
                            rets@,
                            old(self).alpha_spec(),
                            i,
                        ),
                        rets@[i],
                    )
                } else {
                    0i64
                }),
            final(self).ests() == (if rets@.len() >= 1 {
                spec_markov_est_at(
                    old(self).ests(),
                    rets@,
                    old(self).alpha_spec(),
                    rets@.len() - 1,
                )
            } else {
                old(self).ests()
            }),
    {
        let n = rets.len();
        let mut out: Vec<i64> = Vec::new();
        if n == 0 {
            return out;
        }
        let mut i: usize = 0;
        while i < n - 1
            invariant
                self.wf(),
                n == rets@.len(),
                n >= 1,
                0 <= i <= n - 1,
                self.alpha_spec() == old(self).alpha_spec(),
                forall|j: int| 0 <= j < rets@.len() ==> -VAL_CAP <= #[trigger] rets@[j]
                    <= VAL_CAP,
                out@.len() == i,
                self.ests() == spec_markov_est_at(
                    old(self).ests(),
                    rets@,
                    old(self).alpha_spec(),
                    i as int,
                ),
                forall|j: int|
                    0 <= j < i ==> #[trigger] out@[j] == spec_markov_pred(
                        spec_markov_est_at(
                            old(self).ests(),
                            rets@,
                            old(self).alpha_spec(),
                            j,
                        ),
                        rets@[j],
                    ),
            decreases n - i,
        {
            let r = rets[i];
            let target = rets[i + 1];
            let pred: i64 = if r > 0 {
                self.est_up
            } else if r < 0 {
                self.est_dn
            } else {
                self.est_flat
            };
            out.push(pred);
            if r > 0 {
                self.est_up = ewma_step(self.est_up, target, self.alpha);
            } else if r < 0 {
                self.est_dn = ewma_step(self.est_dn, target, self.alpha);
            } else {
                self.est_flat = ewma_step(self.est_flat, target, self.alpha);
            }
            i += 1;
        }
        out.push(0);
        out
    }
}

} // verus!
