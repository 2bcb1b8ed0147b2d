//! Fixed-slot ring-buffer transport.
//!
//! [`RingBuffer`] is the in-process form: a fixed array of fixed-size
//! slots behind an exact first-in-first-out contract with backpressure
//! (a write to a full buffer fails instead of blocking or overwriting).
//! [`ShmRingBuffer`] is the cross-process form over a shared memory
//! mapping with the monotone 64-bit write/read cursors at the head of the
//! segment; its bytes are shared with other processes, so its contracts
//! promise only what holds of every outcome, while the queue discipline
//! itself is the one proved on [`RingBuffer`].

use vstd::prelude::*;

use crate::shm::{mm_len, mm_read_byte, mm_write_byte, mmap_len};

verus! {

/// Header bytes in front of the slot array: the write cursor at offset 0,
/// the read cursor at offset 8, padding up to 128.
pub const HEADER_SIZE: usize = 128;

/// Fixed payload bytes per slot of the shared ring.
pub const SLOT_SIZE: usize = 64;

/// A payload as stored in a slot: truncated to the slot size and padded
/// with zero bytes.
pub open spec fn padded(data: Seq<u8>, slot: nat) -> Seq<u8> {
    Seq::new(slot, |i: int| if i < data.len() { data[i] } else { 0u8 })
}

/// One write against the queue model: appends when a slot is free, is
/// refused when the buffer is full.
pub open spec fn m_write(p: Seq<Seq<u8>>, cap: nat, x: Seq<u8>) -> (Seq<Seq<u8>>, bool) {
    if p.len() < cap {
        (p.push(x), true)
    } else {
        (p, false)
    }
}

/// One read against the queue model: takes the oldest item, or reports
/// no data and changes nothing.
pub open spec fn m_read(p: Seq<Seq<u8>>) -> (Seq<Seq<u8>>, Option<Seq<u8>>) {
    if p.len() == 0 {
        (p, None)
    } else {
        (p.subrange(1, p.len() as int), Some(p[0]))
    }
}

/// A sequence of writes; the flag is true when every one succeeded.
pub open spec fn m_write_all(p: Seq<Seq<u8>>, cap: nat, xs: Seq<Seq<u8>>) -> (Seq<Seq<u8>>, bool)
    decreases xs.len(),
{
    if xs.len() == 0 {
        (p, true)
    } else {
        let step = m_write(p, cap, xs[0]);
        let rest = m_write_all(step.0, cap, xs.subrange(1, xs.len() as int));
        (rest.0, step.1 && rest.1)
    }
}

/// A sequence of `k` reads: the remaining queue and the items returned,
/// in the order they came out.
pub open spec fn m_read_all(p: Seq<Seq<u8>>, k: nat) -> (Seq<Seq<u8>>, Seq<Seq<u8>>)
    decreases k,
{
    if k == 0 || p.len() == 0 {
        (p, Seq::empty())
    } else {
        let rest = m_read_all(p.subrange(1, p.len() as int), (k - 1) as nat);
        (rest.0, seq![p[0]] + rest.1)
    }
}

proof fn lemma_write_all_appends(p: Seq<Seq<u8>>, cap: nat, xs: Seq<Seq<u8>>)
    requires
        p.len() + xs.len() <= cap,
    ensures
        m_write_all(p, cap, xs) == (p + xs, true),
    decreases xs.len(),
{
    if xs.len() == 0 {
        assert(p + xs =~= p);
    } else {
        lemma_write_all_appends(p.push(xs[0]), cap, xs.subrange(1, xs.len() as int));
        assert(p.push(xs[0]) + xs.subrange(1, xs.len() as int) =~= p + xs);
    }
}

/// Backpressure law: starting from an empty buffer of capacity `cap`,
/// `cap` consecutive writes all succeed and leave exactly those items
/// queued in order; the next write is refused; a read returns the oldest
/// item and frees a slot, after which the refused write succeeds; and a
/// read of an empty buffer reports no data without changing anything.
pub proof fn lemma_ring_capacity_cycle(cap: nat, xs: Seq<Seq<u8>>, y: Seq<u8>)
    requires
        xs.len() == cap,
    ensures
        m_write_all(Seq::empty(), cap, xs) == (xs, true),
        !m_write(xs, cap, y).1,
        cap > 0 ==> m_read(xs).1 == Some(xs[0]),
        cap > 0 ==> m_write(m_read(xs).0, cap, y) == (m_read(xs).0.push(y), true),
        m_read(Seq::<Seq<u8>>::empty()) == (Seq::<Seq<u8>>::empty(), None::<Seq<u8>>),
{
    lemma_write_all_appends(Seq::empty(), cap, xs);
    assert(Seq::empty() + xs =~= xs);
}

/// First-in-first-out law: reading `k` times from a buffer holding `p`
/// returns exactly the first `k` items of `p`, in write order, and leaves
/// the rest queued.
pub proof fn lemma_ring_fifo(p: Seq<Seq<u8>>, k: nat)
    requires
        k <= p.len(),
    ensures
        m_read_all(p, k) == (p.skip(k as int), p.take(k as int)),
    decreases k,
{
    if k == 0 {
        assert(p.skip(0) =~= p);
        assert(p.take(0) =~= Seq::<Seq<u8>>::empty());
    } else {
        let tail = p.subrange(1, p.len() as int);
        lemma_ring_fifo(tail, (k - 1) as nat);
        assert(tail.skip(k - 1) =~= p.skip(k as int));
        assert(seq![p[0]] + tail.take(k - 1) =~= p.take(k as int));
    }
}

/// Index of the `k`-th queued slot, for `head + k` below twice the
/// capacity: plain wrap-around without division.
pub open spec fn wrap_at(i: int, cap: int) -> int {
    if i < cap {
        i
    } else {
        i - cap
    }
}

/// In-process fixed-slot ring buffer with an exact queue contract.
pub struct RingBuffer {
    slots: Vec<Vec<u8>>,
    slot_size: usize,
    head: usize,
    count: usize,
}

impl RingBuffer {
    /// Well-formed: at least one slot, the head inside the array, no more
    /// queued than fits, every slot exactly one payload wide.
    pub closed spec fn wf(&self) -> bool {
        &&& 1 <= self.slots@.len()
        &&& self.slots@.len() <= usize::MAX / 2
        &&& self.head < self.slots@.len()
        &&& self.count <= self.slots@.len()
        &&& forall|i: int|
            0 <= i < self.slots@.len() ==> (#[trigger] self.slots@[i])@.len() == self.slot_size
    }

    /// Number of slots.
    pub closed spec fn capacity(&self) -> nat {
        self.slots@.len()
    }

    /// Payload bytes per slot.
    pub closed spec fn slot_width(&self) -> nat {
        self.slot_size as nat
    }

    /// The queued payloads, oldest first.
    pub closed spec fn pending(&self) -> Seq<Seq<u8>> {
        Seq::new(
            self.count as nat,
            |k: int| self.slots@[wrap_at(self.head + k, self.slots@.len() as int)]@,
        )
    }

    /// A fresh empty buffer of `capacity` slots of `slot_size` bytes.
    /// Fails exactly when the capacity is zero, zero-width, or too large
    /// for the address space.
    pub fn new(capacity: usize, slot_size: usize) -> (r: Option<RingBuffer>)
        ensures
            r is Some <==> (1 <= capacity <= usize::MAX / 2 && slot_size >= 1),
            r matches Some(rb) ==> rb.wf() && rb.capacity() == capacity && rb.slot_width()
                == slot_size && rb.pending() == Seq::<Seq<u8>>::empty(),
    {
        if capacity < 1 || capacity > usize::MAX / 2 || slot_size < 1 {
            return None;
        }
        let mut slots: Vec<Vec<u8>> = Vec::new();
        let mut i: usize = 0;
        while i < capacity
            invariant
                0 <= i <= capacity,
                slots@.len() == i,
                forall|j: int| 0 <= j < i ==> (#[trigger] slots@[j])@.len() == slot_size,
            decreases capacity - i,
        {
            let mut s: Vec<u8> = Vec::new();
            let mut j: usize = 0;
            while j < slot_size
                invariant
                    0 <= j <= slot_size,
                    s@.len() == j,
                decreases slot_size - j,
            {
                s.push(0);
                j += 1;
            }
            slots.push(s);
            i += 1;
        }
        let rb = RingBuffer { slots, slot_size, head: 0, count: 0 };
        proof {
            assert(rb.pending() =~= Seq::<Seq<u8>>::empty());
        }
        Some(rb)
    }

    /// Write one payload (truncated to the slot width and zero-padded).
    /// Succeeds exactly when a slot is free; a full buffer refuses the
    /// write and keeps its contents: backpressure, never overwriting.
    pub fn write(&mut self, data: &Vec<u8>) -> (ok: bool)
        requires
            old(self).wf(),
        ensures
            final(self).wf(),
            final(self).capacity() == old(self).capacity(),
            final(self).slot_width() == old(self).slot_width(),
            (final(self).pending(), ok) == m_write(
                old(self).pending(),
                old(self).capacity(),
                padded(data@, old(self).slot_width()),
            ),
    {
        let cap = self.slots.len();
        if self.count == cap {
            return false;
        }
        let mut idx = self.head + self.count;
        if idx >= cap {
            idx -= cap;
        }
        let mut buf: Vec<u8> = Vec::new();
        let mut j: usize = 0;
        while j < self.slot_size
            invariant
                0 <= j <= self.slot_size,
                buf@.len() == j,
                forall|t: int|
                    0 <= t < j ==> buf@[t] == (if t < data@.len() {
                        data@[t]
                    } else {
                        0u8
                    }),
            decreases self.slot_size - j,
        {
            let b: u8 = if j < data.len() {
                data[j]
            } else {
                0
            };
            buf.push(b);
            j += 1;
        }
        proof {
            assert(buf@ =~= padded(data@, self.slot_width()));
        }
        let ghost pre = *self;
        self.slots.set(idx, buf);
        self.count = self.count + 1;
        proof {
            assert forall|k: int| 0 <= k < self.count implies self.pending()[k] == pre.pending(
            ).push(padded(data@, pre.slot_width()))[k] by {
                let ci = wrap_at(self.head + k, self.slots@.len() as int);
                if k < pre.count {
                    assert(ci != idx);
                    assert(self.slots@[ci] == pre.slots@[ci]);
                } else {
                    assert(ci == idx);
                }
            }
            assert(self.pending() =~= pre.pending().push(padded(data@, pre.slot_width())));
        }
        true
    }

    /// Read the oldest payload, or report no data; an empty buffer's read
    /// changes nothing.
    pub fn read(&mut self) -> (r: Option<Vec<u8>>)
        requires
            old(self).wf(),
        ensures
            final(self).wf(),
            final(self).capacity() == old(self).capacity(),
            final(self).slot_width() == old(self).slot_width(),
            match r {
                None => old(self).pending().len() == 0 && *final(self) == *old(self),
                Some(b) => {
                    &&& old(self).pending().len() > 0
                    &&& b@ == old(self).pending()[0]
                    &&& (final(self).pending(), Some(b@)) == m_read(old(self).pending())
                },
            },
    {
        if self.count == 0 {
            return None;
        }
        let cap = self.slots.len();
        let mut out: Vec<u8> = Vec::new();
        let mut j: usize = 0;
        while j < self.slot_size
            invariant
                self.wf(),
                self.count > 0,
                0 <= j <= self.slot_size,
                out@.len() == j,
                forall|t: int| 0 <= t < j ==> out@[t] == self.slots@[self.head as int]@[t],
                *self == *old(self),
            decreases self.slot_size - j,
        {
            let b = self.slots[self.head][j];
            out.push(b);
            j += 1;
        }
        let ghost pre = *self;
        self.head = if self.head + 1 == cap {
            0
        } else {
            self.head + 1
        };
        self.count = self.count - 1;
        proof {
            assert(out@ =~= pre.pending()[0]);
            assert forall|k: int| 0 <= k < self.count implies self.pending()[k] == pre.pending(
            ).subrange(1, pre.pending().len() as int)[k] by {
                assert(wrap_at(self.head + k, cap as int) == wrap_at(pre.head + (k + 1), cap as int));
            }
            assert(self.pending() =~= pre.pending().subrange(1, pre.pending().len() as int));
        }
        Some(out)
    }

    /// How many payloads are queued.
    pub fn len(&self) -> (r: usize)
        requires
            self.wf(),
        ensures
            r == self.pending().len(),
    {
        self.count
    }
}

/// Cross-process ring buffer over a shared mapping: a 128-byte header
/// holding the two monotone 64-bit cursors, then `capacity` slots of 64
/// bytes.  Strictly one producer process and one consumer process.
pub struct ShmRingBuffer {
    mmap: memmap2::MmapMut,
    capacity: usize,
}

impl ShmRingBuffer {
    /// Well-formed: the mapping is large enough for header plus slots.
    pub closed spec fn wf(&self) -> bool {
        &&& 1 <= self.capacity
        &&& HEADER_SIZE + self.capacity * SLOT_SIZE <= mm_len(self.mmap)
        &&& mm_len(self.mmap) <= usize::MAX
    }

    /// Number of slots.
    pub closed spec fn capacity_spec(&self) -> nat {
        self.capacity as nat
    }

    /// Wrap an already-mapped segment.  Fails exactly when the capacity is
    /// zero or the mapping cannot hold the header and every slot; opening
    /// an existing segment never re-zeroes the header.
    pub fn new(mmap: memmap2::MmapMut, capacity: usize) -> (r: Option<ShmRingBuffer>)
        ensures
            r is Some <==> (1 <= capacity && HEADER_SIZE + capacity * SLOT_SIZE <= mm_len(mmap)),
            r matches Some(g) ==> g.wf() && g.capacity_spec() == capacity,
    {
        let len = mmap_len(&mmap);
        let ghost m: int = usize::MAX - HEADER_SIZE;
        let ghost q: int = m / (SLOT_SIZE as int);
        proof {
            vstd::arithmetic::div_mod::lemma_fundamental_div_mod(m, SLOT_SIZE as int);
            vstd::arithmetic::div_mod::lemma_mod_bound(m, SLOT_SIZE as int);
        }
        if capacity >= 1 && capacity <= (usize::MAX - HEADER_SIZE) / SLOT_SIZE {
            proof {
                vstd::arithmetic::mul::lemma_mul_inequality(
                    capacity as int,
                    q,
                    SLOT_SIZE as int,
                );
            }
            let need = HEADER_SIZE + capacity * SLOT_SIZE;
            if need <= len {
                return Some(ShmRingBuffer { mmap, capacity });
            }
            None
        } else {
            proof {
                if capacity >= 1 {
                    vstd::arithmetic::mul::lemma_mul_inequality(
                        q + 1,
                        capacity as int,
                        SLOT_SIZE as int,
                    );
                    assert(capacity * SLOT_SIZE > m);
                }
            }
            None
        }
    }

    /// Read one 64-bit cursor from the shared header (little-endian).  The
    /// header is shared state, so nothing is promised of the value.
    fn load_u64(&self, off: usize) -> (r: u64)
        requires
            self.wf(),
            off + 8 <= HEADER_SIZE,
    {
        let mut acc: u64 = 0;
        let mut j: usize = 0;
        while j < 8
            invariant
                self.wf(),
                off + 8 <= HEADER_SIZE,
                0 <= j <= 8,
            decreases 8 - j,
        {
            let b = mm_read_byte(&self.mmap, off + j);
            acc = acc | ((b as u64) << ((8 * j) as u64));
            j += 1;
        }
        acc
    }

    /// Write one 64-bit cursor to the shared header (little-endian).
    fn store_u64(&mut self, off: usize, v: u64)
        requires
            old(self).wf(),
            off + 8 <= HEADER_SIZE,
        ensures
            final(self).wf(),
            final(self).capacity_spec() == old(self).capacity_spec(),
    {
        let mut j: usize = 0;
        while j < 8
            invariant
                self.wf(),
                self.capacity_spec() == old(self).capacity_spec(),
                off + 8 <= HEADER_SIZE,
                0 <= j <= 8,
            decreases 8 - j,
        {
            let x: u64 = v >> ((8 * j) as u64);
            let m: u64 = x & 0xff;
            proof {
                assert((x & 0xff) < 256) by (bit_vector);
            }
            mm_write_byte(&mut self.mmap, off + j, m as u8);
            j += 1;
        }
    }

    /// Zero both cursors; only the process that creates a segment does
    /// this, never one that merely opens it.
    pub fn zero_header(&mut self)
        requires
            old(self).wf(),
        ensures
            final(self).wf(),
            final(self).capacity_spec() == old(self).capacity_spec(),
    {
        self.store_u64(0, 0);
        self.store_u64(8, 0);
    }

    /// Write one payload: refused without any effect when the cursors say
    /// the buffer is full (backpressure); otherwise up to 64 bytes are
    /// copied into slot `write_cursor mod capacity` and the write cursor
    /// is bumped afterwards.  The cursors live in shared memory, so the
    /// outcome depends on the values the loads returned.
    pub fn write(&mut self, data: &Vec<u8>) -> (ok: bool)
        requires
            old(self).wf(),
        ensures
            final(self).wf(),
            final(self).capacity_spec() == old(self).capacity_spec(),
    {
        let wc = self.load_u64(0);
        let rc = self.load_u64(8);
        // The consumer's cursor is foreign data: wrapping keeps the
        // comparison total even against a corrupted header.
        if wc.wrapping_sub(rc) >= self.capacity as u64 {
            return false;
        }
        let slot = (wc % self.capacity as u64) as usize;
        let off = HEADER_SIZE + slot * SLOT_SIZE;
        let n = if data.len() < SLOT_SIZE {
            data.len()
        } else {
            SLOT_SIZE
        };
        let mut j: usize = 0;
        while j < n
            invariant
                self.wf(),
                self.capacity_spec() == old(self).capacity_spec(),
                n <= SLOT_SIZE,
                j <= n,
                n <= data@.len(),
                slot < self.capacity,
                off == HEADER_SIZE + slot * SLOT_SIZE,
            decreases n - j,
        {
            mm_write_byte(&mut self.mmap, off + j, data[j]);
            j += 1;
        }
        self.store_u64(0, wc.wrapping_add(1));
        true
    }

    /// Read one slot: reports no data when the cursors say the buffer is
    /// empty; otherwise returns the 64 bytes of slot `read_cursor mod
    /// capacity` and bumps the read cursor afterwards.
    pub fn read(&mut self) -> (r: Option<Vec<u8>>)
        requires
            old(self).wf(),
        ensures
            final(self).wf(),
            final(self).capacity_spec() == old(self).capacity_spec(),
            r matches Some(b) ==> b@.len() == SLOT_SIZE,
    {
        let wc = self.load_u64(0);
        let rc = self.load_u64(8);
        if rc >= wc {
            return None;
        }
        let slot = (rc % self.capacity as u64) as usize;
        let off = HEADER_SIZE + slot * SLOT_SIZE;
        let mut out: Vec<u8> = Vec::new();
        let mut j: usize = 0;
        while j < SLOT_SIZE
            invariant
                self.wf(),
                self.capacity_spec() == old(self).capacity_spec(),
                out@.len() == j,
                0 <= j <= SLOT_SIZE,
                slot < self.capacity,
                off == HEADER_SIZE + slot * SLOT_SIZE,
                *self == *old(self),
            decreases SLOT_SIZE - j,
        {
            let b = mm_read_byte(&self.mmap, off + j);
            out.push(b);
            j += 1;
        }
        self.store_u64(8, rc.wrapping_add(1));
        Some(out)
    }
}

} // verus!
