//! Shared risk gate for outgoing orders.
//!
//! Every candidate order passes five checks in a strict order whose reason
//! codes are a stable external contract: 1 kill switch, 2 non-positive
//! price, 3 price above the ceiling, 5 non-positive quantity, 4 quantity
//! above the ceiling, 0 accepted.  The kill switch is one shared byte that
//! any monitoring process may set; reading it comes before every other
//! check.

use vstd::prelude::*;

use crate::shm::{mm_len, mm_read_byte, mm_write_byte, mmap_len};

verus! {

/// The verdict for one candidate order, given the kill-switch
/// state and the configured ceilings.  Reason codes 5 and 4 are checked in
/// this order on purpose: the numbering is part of the external contract.
pub open spec fn gate_decision(kill: bool, price: i64, qty: i64, max_price: i64, max_qty: i64) -> (
    bool,
    u8,
) {
    if kill {
        (false, 1u8)
    } else if price <= 0 {
        (false, 2u8)
    } else if price > max_price {
        (false, 3u8)
    } else if qty <= 0 {
        (false, 5u8)
    } else if qty > max_qty {
        (false, 4u8)
    } else {
        (true, 0u8)
    }
}

/// The pure decision over an already-read kill-switch byte.
pub fn decide(kill_flag: u8, price: i64, qty: i64, max_price: i64, max_qty: i64) -> (r: (bool, u8))
    ensures
        r == gate_decision(kill_flag > 0, price, qty, max_price, max_qty),
{
    if kill_flag > 0 {
        (false, 1)
    } else if price <= 0 {
        (false, 2)
    } else if price > max_price {
        (false, 3)
    } else if qty <= 0 {
        (false, 5)
    } else if qty > max_qty {
        (false, 4)
    } else {
        (true, 0)
    }
}

/// The kill switch overrides everything, and each later check fires only
/// when all earlier ones passed, whatever the remaining inputs look like.
pub proof fn lemma_gate_precedence(kill: bool, price: i64, qty: i64, mp: i64, mq: i64)
    ensures
        kill ==> gate_decision(kill, price, qty, mp, mq) == (false, 1u8),
        !kill && price <= 0 ==> gate_decision(kill, price, qty, mp, mq) == (false, 2u8),
        !kill && price > 0 && price > mp ==> gate_decision(kill, price, qty, mp, mq) == (
            false,
            3u8,
        ),
        !kill && 0 < price <= mp && qty <= 0 ==> gate_decision(kill, price, qty, mp, mq) == (
            false,
            5u8,
        ),
        !kill && 0 < price <= mp && qty > 0 && qty > mq ==> gate_decision(kill, price, qty, mp, mq)
            == (false, 4u8),
        !kill && 0 < price <= mp && 0 < qty <= mq ==> gate_decision(kill, price, qty, mp, mq) == (
            true,
            0u8,
        ),
{
}

/// Risk gate: process-local ceilings plus a one-byte cross-process
/// kill-switch cell at the start of a shared mapping.
pub struct FastGate {
    mmap: memmap2::MmapMut,
    max_price: i64,
    max_qty: i64,
}

impl FastGate {
    /// Well-formed: the mapping holds at least the kill-switch byte.
    pub closed spec fn wf(&self) -> bool {
        mm_len(self.mmap) >= 1
    }

    /// The configured ceilings.
    pub closed spec fn limits(&self) -> (i64, i64) {
        (self.max_price, self.max_qty)
    }

    /// Wrap an already-mapped kill-switch segment.  Fails exactly when the
    /// mapping is empty; a gate never proceeds without its shared byte.
    pub fn new(mmap: memmap2::MmapMut, max_price: i64, max_qty: i64) -> (r: Option<FastGate>)
        ensures
            r is Some <==> mm_len(mmap) >= 1,
            r matches Some(g) ==> g.wf() && g.limits() == (max_price, max_qty),
    {
        if mmap_len(&mmap) >= 1 {
            Some(FastGate { mmap, max_price, max_qty })
        } else {
            None
        }
    }

    /// Check one candidate order.  The kill-switch byte is read from
    /// shared memory, so the outcome is the verdict for whichever flag
    /// value that read returned.
    pub fn check(&self, price: i64, qty: i64) -> (r: (bool, u8))
        requires
            self.wf(),
        ensures
            exists|k: bool|
                r == #[trigger] gate_decision(k, price, qty, self.limits().0, self.limits().1),
    {
        let kill_flag = mm_read_byte(&self.mmap, 0);
        let r = decide(kill_flag, price, qty, self.max_price, self.max_qty);
        proof {
            assert(r == gate_decision(kill_flag > 0, price, qty, self.limits().0, self.limits().1));
        }
        r
    }

    /// Set or clear the shared kill switch; visible to every process that
    /// maps the same segment.
    pub fn set_kill_switch(&mut self, active: bool)
        requires
            old(self).wf(),
        ensures
            final(self).wf(),
            final(self).limits() == old(self).limits(),
    {
        let v: u8 = if active {
            1
        } else {
            0
        };
        mm_write_byte(&mut self.mmap, 0, v);
    }
}

} // verus!
