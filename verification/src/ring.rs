//! The lossy ring on which the classifier leaves its events for the
//! control plane, one per CPU.

use crate::classifier::{classify, xdp_scale_to_zero_fw};
use crate::model::PacketLog;
use crate::table::ServiceAvailability;
use vstd::prelude::*;

verus! {

/// A bounded queue of events. Emitting never blocks: an event that finds
/// the ring full is lost.
pub struct WakeRing {
    events: Vec<PacketLog>,
    capacity: usize,
}

/// `ring` after `event` was emitted into it, given its capacity.
pub open spec fn emitted(ring: Seq<PacketLog>, capacity: nat, event: Option<PacketLog>) -> Seq<
    PacketLog,
> {
    match event {
        Some(e) if ring.len() < capacity => ring.push(e),
        _ => ring,
    }
}

impl WakeRing {
    pub closed spec fn wf(&self) -> bool {
        self.events@.len() <= self.capacity
    }

    /// The events waiting to be read, oldest first.
    pub closed spec fn view(&self) -> Seq<PacketLog> {
        self.events@
    }

    /// The most events the ring holds.
    pub closed spec fn spec_capacity(&self) -> nat {
        self.capacity as nat
    }

    pub fn with_capacity(capacity: usize) -> (ring: Self)
        ensures
            ring.wf(),
            ring@ == Seq::<PacketLog>::empty(),
            ring.spec_capacity() == capacity,
    {
        WakeRing { events: Vec::new(), capacity }
    }

    pub fn capacity(&self) -> (n: usize)
        ensures
            n == self.spec_capacity(),
    {
        self.capacity
    }

    pub fn len(&self) -> (n: usize)
        requires
            self.wf(),
        ensures
            n == self@.len(),
            n <= self.spec_capacity(),
    {
        self.events.len()
    }

    /// Puts `event` behind the events that wait, unless the ring is full;
    /// says whether the event was taken.
    pub fn emit(&mut self, event: PacketLog) -> (taken: bool)
        requires
            old(self).wf(),
        ensures
            final(self).wf(),
            final(self).spec_capacity() == old(self).spec_capacity(),
            taken == (old(self)@.len() < old(self).spec_capacity()),
            final(self)@ == emitted(old(self)@, old(self).spec_capacity(), Some(event)),
    {
        if self.events.len() < self.capacity {
            self.events.push(event);
            true
        } else {
            false
        }
    }

    /// Takes up to `max` of the oldest events off the ring, oldest first.
    pub fn read_batch(&mut self, max: usize) -> (batch: Vec<PacketLog>)
        requires
            old(self).wf(),
        ensures
            final(self).wf(),
            final(self).spec_capacity() == old(self).spec_capacity(),
            batch@.len() == (if max <= old(self)@.len() {
                max as int
            } else {
                old(self)@.len() as int
            }),
            batch@ == old(self)@.subrange(0, batch@.len() as int),
            final(self)@ == old(self)@.subrange(batch@.len() as int, old(self)@.len() as int),
    {
        let n = self.events.len();
        let take = if max <= n {
            max
        } else {
            n
        };
        let mut batch: Vec<PacketLog> = Vec::new();
        let mut rest: Vec<PacketLog> = Vec::new();
        let mut i: usize = 0;
        while i < n
            invariant
                n == self.events@.len(),
                take <= n,
                i <= n,
                self.events@ == old(self).events@,
                batch@ == self.events@.subrange(0, if i <= take { i as int } else { take as int }),
                rest@ == self.events@.subrange(
                    take as int,
                    if i <= take { take as int } else { i as int },
                ),
            decreases n - i,
        {
            let e = self.events[i];
            if i < take {
                batch.push(e);
                assert(batch@ =~= self.events@.subrange(0, i + 1));
            } else {
                rest.push(e);
                assert(rest@ =~= self.events@.subrange(take as int, i + 1));
            }
            i += 1;
        }
        self.events = rest;
        batch
    }
}

/// Runs the classifier on one frame and leaves its event on the ring.
/// The action does not depend on the ring: a full ring loses the event,
/// never the decision.
pub fn classify_into(frame: &[u8], table: &ServiceAvailability, ring: &mut WakeRing) -> (action:
    u32)
    requires
        table.wf(),
        old(ring).wf(),
    ensures
        final(ring).wf(),
        final(ring).spec_capacity() == old(ring).spec_capacity(),
        action == classify(frame@, table@).action,
        final(ring)@ == emitted(old(ring)@, old(ring).spec_capacity(), classify(frame@, table@).event),
{
    let verdict = xdp_scale_to_zero_fw(frame, table);
    match verdict.event {
        Some(event) => {
            ring.emit(event);
        },
        None => {},
    }
    verdict.action
}

} // verus!
