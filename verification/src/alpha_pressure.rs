//! Regime-pressure factor: the raw top-of-book quantity difference,
//! suppressed below a smoothed volatility threshold.  While the deviation
//! of mid-price returns stays under the threshold the factor reports 0;
//! above it, the factor is the best-level bid quantity minus the
//! best-level ask quantity.

use vstd::prelude::*;

use crate::lob::LimitOrderBook;
use crate::signal_math::{ewma_alpha, VAL_CAP};
use crate::vol::{spec_gate_closed, spec_vol_observe, VolMonitor};

verus! {

/// Regime-pressure factor state.
pub struct AlphaRegimePressure {
    vol: VolMonitor,
    vol_threshold: i64,
}

impl AlphaRegimePressure {
    /// The embedded volatility monitor.
    pub closed spec fn vol_spec(&self) -> VolMonitor {
        self.vol
    }

    /// The gating threshold (micro-units of deviation).
    pub closed spec fn threshold(&self) -> i64 {
        self.vol_threshold
    }

    pub closed spec fn wf(&self) -> bool {
        self.vol.wf()
    }

    pub fn new(vol_window: usize, vol_threshold: i64) -> (r: AlphaRegimePressure)
        requires
            1 <= vol_window <= 0xffff_ffff,
        ensures
            r.wf(),
            r.threshold() == vol_threshold,
            r.vol_spec().variance() == 0,
            !r.vol_spec().initialized_spec(),
    {
        AlphaRegimePressure { vol: VolMonitor::new(ewma_alpha(vol_window)), vol_threshold }
    }

    /// Process one book snapshot: an empty side leaves the state untouched
    /// and yields 0; otherwise the volatility monitor is fed the mid, and
    /// the result is 0 while the deviation sits under the threshold, else
    /// the best-level quantity difference.
    pub fn calculate(&mut self, lob: &LimitOrderBook) -> (r: i64)
        requires
            old(self).wf(),
            lob.wf(),
            forall|i: int| 0 <= i < lob.bids@.len() ==> (#[trigger] lob.bids@[i]).0 <= VAL_CAP,
            forall|i: int| 0 <= i < lob.asks@.len() ==> (#[trigger] lob.asks@[i]).0 <= VAL_CAP,
        ensures
            final(self).wf(),
            final(self).threshold() == old(self).threshold(),
            lob.bids@.len() == 0 || lob.asks@.len() == 0 ==> r == 0 && *final(self) == *old(self),
            lob.bids@.len() > 0 && lob.asks@.len() > 0 ==> ({
                let bb = lob.bids@[lob.bids@.len() - 1];
                let ba = lob.asks@[0];
                let mid_x2: int = bb.0 + ba.0;
                let vol_known = old(self).vol_spec().initialized_spec() && mid_x2 > 0 && old(
                    self,
                ).vol_spec().prev_mid_spec() > 0;
                &&& final(self).vol_spec().variance() == spec_vol_observe(
                    old(self).vol_spec().initialized_spec(),
                    old(self).vol_spec().prev_mid_spec() as int,
                    old(self).vol_spec().variance() as int,
                    old(self).vol_spec().alpha_spec() as int,
                    mid_x2,
                )
                &&& r == if spec_gate_closed(
                    final(self).vol_spec().variance() as int,
                    vol_known,
                    old(self).threshold() as int,
                ) {
                    0
                } else {
                    bb.1 - ba.1
                }
            }),
    {
        let nb = lob.bids.len();
        if nb == 0 || lob.asks.len() == 0 {
            return 0;
        }
        let bb = lob.bids[nb - 1];
        let ba = lob.asks[0];
        let mid_x2: i64 = (bb.0 as i64) + (ba.0 as i64);
        let vol_known = self.vol.observe(mid_x2);
        if self.vol.below_threshold(self.vol_threshold, vol_known) {
            return 0;
        }
        bb.1 - ba.1
    }

    /// Current deviation in micro-units (exact integer square root of the
    /// scaled variance).
    pub fn get_current_vol(&self) -> (r: i64)
        requires
            self.wf(),
        ensures
            0 <= r,
            (r as int) * (r as int) <= self.vol_spec().variance() * crate::SCALE,
            (r as int + 1) * (r as int + 1) > self.vol_spec().variance() * crate::SCALE,
    {
        self.vol.current_vol()
    }
}

} // verus!
