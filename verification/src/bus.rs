//! In-process event queue: unbounded, first-in-first-out.
//!
//! The engine is single-threaded per symbol stream, so the bus is a plain
//! queue with an exact contract; cross-process transport is the ring
//! buffer's job.

use vstd::prelude::*;

verus! {

/// Unbounded first-in-first-out queue of event strings.
pub struct EventBus {
    queue: Vec<String>,
}

impl EventBus {
    /// The queued events, oldest first.
    pub closed spec fn view(&self) -> Seq<Seq<char>> {
        self.queue@.map_values(|s: String| s@)
    }

    pub fn new() -> (r: EventBus)
        ensures
            r@ == Seq::<Seq<char>>::empty(),
    {
        let b = EventBus { queue: Vec::new() };
        proof {
            assert(b@ =~= Seq::<Seq<char>>::empty());
        }
        b
    }

    /// Append an event.
    pub fn push(&mut self, event: String)
        ensures
            final(self)@ == old(self)@.push(event@),
    {
        self.queue.push(event);
        proof {
            assert(self@ =~= old(self)@.push(event@));
        }
    }

    /// Take the oldest event, or report an empty queue.
    pub fn pop(&mut self) -> (r: Option<String>)
        ensures
            match r {
                None => old(self)@.len() == 0 && *final(self) == *old(self),
                Some(s) => old(self)@.len() > 0 && s@ == old(self)@[0] && final(self)@ == old(
                    self,
                )@.subrange(1, old(self)@.len() as int),
            },
    {
        if self.queue.len() == 0 {
            return None;
        }
        let s = self.queue.remove(0);
        proof {
            assert(self@ =~= old(self)@.subrange(1, old(self)@.len() as int));
        }
        Some(s)
    }

    /// How many events are queued.
    pub fn len(&self) -> (r: usize)
        ensures
            r == self@.len(),
    {
        self.queue.len()
    }
}

} // verus!
