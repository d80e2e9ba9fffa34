use crate::gate::Gate;
use crate::lock::GateLockUnlockEvent;
use vstd::prelude::*;

verus! {

/// The mailbox that carries unlock events from the locks to the gates within
/// one update cycle. It is filled while the locks are updated and emptied
/// onto the gates before the cycle ends.
pub struct UnlockEvents {
    queue: Vec<GateLockUnlockEvent>,
}

impl View for UnlockEvents {
    type V = Seq<GateLockUnlockEvent>;

    closed spec fn view(&self) -> Seq<GateLockUnlockEvent> {
        self.queue@
    }
}

impl UnlockEvents {
    /// An empty mailbox.
    pub fn new() -> (events: UnlockEvents)
        ensures
            events@ == Seq::<GateLockUnlockEvent>::empty(),
    {
        UnlockEvents { queue: Vec::new() }
    }

    /// Number of events that wait for delivery.
    pub fn len(&self) -> (n: usize)
        ensures
            n == self@.len(),
    {
        self.queue.len()
    }

    /// Whether nothing waits for delivery.
    pub fn is_empty(&self) -> (empty: bool)
        ensures
            empty == (self@.len() == 0),
    {
        self.queue.len() == 0
    }

    /// Puts an event behind those that already wait.
    pub fn send(&mut self, event: GateLockUnlockEvent)
        ensures
            final(self)@ == old(self)@.push(event),
    {
        self.queue.push(event);
    }

    /// Hands every waiting event to every gate and leaves the mailbox empty.
    pub fn deliver(&mut self, gates: &mut Vec<Gate>)
        ensures
            final(self)@.len() == 0,
            final(gates)@.len() == old(gates)@.len(),
            forall|j: int|
                0 <= j < old(gates)@.len() ==> (#[trigger] final(gates)@[j])@ == old(gates)@[j]@.receive_all(
                    old(self)@,
                ),
    {
        let ghost before = gates@;
        let ghost events = self.queue@;
        let n = self.queue.len();
        let m = gates.len();
        let mut k: usize = 0;
        while k < n
            invariant
                k <= n,
                n == self.queue@.len(),
                self.queue@ == events,
                m == gates@.len(),
                before.len() == m,
                forall|j: int|
                    0 <= j < m ==> (#[trigger] gates@[j])@ == before[j]@.receive_all(
                        events.take(k as int),
                    ),
            decreases n - k,
        {
            let side = self.queue[k].side;
            let ghost so_far = events.take(k as int);
            let ghost next = events.take(k + 1);
            assert(next.drop_last() == so_far);
            assert(next.last() == events[k as int]);
            let mut j: usize = 0;
            while j < m
                invariant
                    j <= m,
                    m == gates@.len(),
                    before.len() == m,
                    next.len() == k + 1,
                    next.drop_last() == so_far,
                    next.last().side == side,
                    forall|i: int|
                        0 <= i < j ==> (#[trigger] gates@[i])@ == before[i]@.receive_all(next),
                    forall|i: int|
                        j <= i < m ==> (#[trigger] gates@[i])@ == before[i]@.receive_all(so_far),
                decreases m - j,
            {
                let mut gate = gates[j];
                gate.receive_unlock(side);
                gates.set(j, gate);
                j += 1;
            }
            k += 1;
        }
        assert(events.take(n as int) == events);
        self.queue.clear();
    }
}

} // verus!
