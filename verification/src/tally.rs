use crate::gate::{matching, GateModel};
use crate::lock::{GateLockUnlockEvent, LockModel};
use crate::side::GateSide;
use vstd::prelude::*;

verus! {

/// Number of locks that belong to `side`.
pub open spec fn total_on_side(locks: Seq<LockModel>, side: GateSide) -> nat
    decreases locks.len(),
{
    if locks.len() == 0 {
        0
    } else {
        total_on_side(locks.drop_last(), side) + if locks.last().side == side {
            1nat
        } else {
            0nat
        }
    }
}

/// Number of locks that belong to `side` and have unlocked.
pub open spec fn unlocked_on_side(locks: Seq<LockModel>, side: GateSide) -> nat
    decreases locks.len(),
{
    if locks.len() == 0 {
        0
    } else {
        unlocked_on_side(locks.drop_last(), side) + if locks.last().side == side
            && locks.last().state is Unlocked {
            1nat
        } else {
            0nat
        }
    }
}

/// The locks after `dt` more microseconds.
pub open spec fn ticked(locks: Seq<LockModel>, dt: nat) -> Seq<LockModel> {
    locks.map_values(|lock: LockModel| lock.tick(dt))
}

/// The events that the locks announce when `dt` more microseconds pass, in
/// the order of the locks.
pub open spec fn fired(locks: Seq<LockModel>, dt: nat) -> Seq<GateLockUnlockEvent>
    decreases locks.len(),
{
    if locks.len() == 0 {
        Seq::empty()
    } else if locks.last().fires(dt) {
        fired(locks.drop_last(), dt).push(GateLockUnlockEvent { side: locks.last().side })
    } else {
        fired(locks.drop_last(), dt)
    }
}

/// No more locks have unlocked than there are on a side, and no more are on a
/// side than there are at all.
pub proof fn lemma_tally_bounds(locks: Seq<LockModel>, side: GateSide)
    ensures
        unlocked_on_side(locks, side) <= total_on_side(locks, side) <= locks.len(),
    decreases locks.len(),
{
    if locks.len() > 0 {
        lemma_tally_bounds(locks.drop_last(), side);
    }
}

/// Two rows of locks that agree, place by place, on the side and on whether
/// the lock has unlocked, have the same tallies.
pub proof fn lemma_tally_congruent(before: Seq<LockModel>, after: Seq<LockModel>, side: GateSide)
    requires
        before.len() == after.len(),
        forall|i: int|
            0 <= i < before.len() ==> before[i].side == after[i].side && (before[i].state
                is Unlocked <==> after[i].state is Unlocked),
    ensures
        total_on_side(after, side) == total_on_side(before, side),
        unlocked_on_side(after, side) == unlocked_on_side(before, side),
    decreases before.len(),
{
    if before.len() > 0 {
        lemma_tally_congruent(before.drop_last(), after.drop_last(), side);
    }
}

/// A tick keeps every lock on its side, and the locks that have unlocked
/// after it are those that had before and those that it made announce.
pub proof fn lemma_tick_tally(locks: Seq<LockModel>, dt: nat, side: GateSide)
    ensures
        total_on_side(ticked(locks, dt), side) == total_on_side(locks, side),
        unlocked_on_side(ticked(locks, dt), side) == unlocked_on_side(locks, side) + matching(
            fired(locks, dt),
            side,
        ),
    decreases locks.len(),
{
    if locks.len() > 0 {
        lemma_tick_tally(locks.drop_last(), dt, side);
        assert(ticked(locks, dt).drop_last() == ticked(locks.drop_last(), dt));
        if locks.last().fires(dt) {
            let event = GateLockUnlockEvent { side: locks.last().side };
            assert(fired(locks, dt).drop_last() == fired(locks.drop_last(), dt));
            assert(fired(locks, dt).last() == event);
        }
    }
}

/// What a run of events does to a gate whose count they cannot push past
/// `u64::MAX`: each matching event is counted, and it has left
/// `Closed` exactly if the count has reached a positive threshold.
pub proof fn lemma_receive_all(gate: GateModel, events: Seq<GateLockUnlockEvent>)
    requires
        gate.wf(),
        gate.unlocked_count + matching(events, gate.side) <= u64::MAX,
    ensures
        gate.receive_all(events).wf(),
        gate.receive_all(events).side == gate.side,
        gate.receive_all(events).required_count == gate.required_count,
        gate.receive_all(events).unlocked_count == gate.unlocked_count + matching(
            events,
            gate.side,
        ),
    decreases events.len(),
{
    if events.len() > 0 {
        lemma_receive_all(gate, events.drop_last());
    }
}

} // verus!
