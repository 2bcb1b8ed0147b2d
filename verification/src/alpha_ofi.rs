//! Batch order-flow-imbalance factor.
//!
//! For each index `t >= 1` the result is the bid-side contribution minus
//! the ask-side contribution between snapshots `t-1` and `t` (the ask side
//! improves on a price decrease; this is the one sign convention used
//! throughout the crate).  Index 0 is always 0.

use vstd::prelude::*;

use crate::signal_math::{ask_flow, bid_flow, spec_ask_flow, spec_bid_flow, VAL_CAP};

verus! {

/// The factor value at one index of the batch.
pub open spec fn spec_ofi_at(
    bid_p: Seq<i64>,
    ask_p: Seq<i64>,
    bid_v: Seq<i64>,
    ask_v: Seq<i64>,
    t: int,
) -> int {
    if t == 0 {
        0
    } else {
        spec_bid_flow(bid_p[t] as int, bid_v[t] as int, bid_p[t - 1] as int, bid_v[t - 1] as int)
            - spec_ask_flow(
            ask_p[t] as int,
            ask_v[t] as int,
            ask_p[t - 1] as int,
            ask_v[t - 1] as int,
        )
    }
}

/// Stateless batch order-flow-imbalance computer.
pub struct AlphaOFI {
}

impl AlphaOFI {
    pub fn new() -> (r: AlphaOFI) {
        AlphaOFI {  }
    }

    /// Compute the order-flow imbalance for four aligned columns of best
    /// bid/ask prices and quantities.  Fails exactly when the columns do
    /// not have one common length.
    pub fn compute(
        &self,
        bid_p: &Vec<i64>,
        ask_p: &Vec<i64>,
        bid_v: &Vec<i64>,
        ask_v: &Vec<i64>,
    ) -> (r: Option<Vec<i64>>)
        requires
            forall|i: int| 0 <= i < bid_v@.len() ==> -VAL_CAP <= #[trigger] bid_v@[i] <= VAL_CAP,
            forall|i: int| 0 <= i < ask_v@.len() ==> -VAL_CAP <= #[trigger] ask_v@[i] <= VAL_CAP,
        ensures
            r is Some <==> (ask_p@.len() == bid_p@.len() && bid_v@.len() == bid_p@.len()
                && ask_v@.len() == bid_p@.len()),
            r matches Some(o) ==> o@.len() == bid_p@.len() && forall|t: int|
                0 <= t < o@.len() ==> #[trigger] o@[t] == spec_ofi_at(
                    bid_p@,
                    ask_p@,
                    bid_v@,
                    ask_v@,
                    t,
                ),
    {
        let n = bid_p.len();
        if ask_p.len() != n || bid_v.len() != n || ask_v.len() != n {
            return None;
        }
        let mut out: Vec<i64> = Vec::new();
        if n == 0 {
            return Some(out);
        }
        out.push(0);
        let mut t: usize = 1;
        while t < n
            invariant
                1 <= t <= n,
                n == bid_p@.len() && n == ask_p@.len() && n == bid_v@.len() && n == ask_v@.len(),
                forall|i: int| 0 <= i < bid_v@.len() ==> -VAL_CAP <= #[trigger] bid_v@[i]
                    <= VAL_CAP,
                forall|i: int| 0 <= i < ask_v@.len() ==> -VAL_CAP <= #[trigger] ask_v@[i]
                    <= VAL_CAP,
                out@.len() == t,
                forall|u: int|
                    0 <= u < t ==> #[trigger] out@[u] == spec_ofi_at(
                        bid_p@,
                        ask_p@,
                        bid_v@,
                        ask_v@,
                        u,
                    ),
            decreases n - t,
        {
            let b = bid_flow(bid_p[t], bid_v[t], bid_p[t - 1], bid_v[t - 1]);
            let a = ask_flow(ask_p[t], ask_v[t], ask_p[t - 1], ask_v[t - 1]);
            out.push(b - a);
            t += 1;
        }
        Some(out)
    }
}

} // verus!
