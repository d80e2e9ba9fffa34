use crate::gate::{lemma_descent_bounded, GateModel, OPEN_DURATION};
use crate::lock::{LockModel, UNLOCK_THRESHOLD};
use crate::side::GateSide;
use vstd::prelude::*;

verus! {

/// One thing that can happen to a lock.
pub enum LockOp {
    /// The player steps on.
    Begin,
    /// The player steps off.
    End,
    /// So many microseconds pass.
    Tick(nat),
}

/// One thing that can happen to a gate.
pub enum GateOp {
    /// An unlock event for this side arrives.
    Receive(GateSide),
    /// So many microseconds pass.
    Tick(nat),
}

/// The lock after `op`.
pub open spec fn lock_step(lock: LockModel, op: LockOp) -> LockModel {
    match op {
        LockOp::Begin => lock.begin(),
        LockOp::End => lock.end(),
        LockOp::Tick(dt) => lock.tick(dt),
    }
}

/// Whether the lock announces its unlocking upon `op`.
pub open spec fn lock_announces(lock: LockModel, op: LockOp) -> bool {
    op matches LockOp::Tick(dt) && lock.emitted(dt) is Some
}

/// The lock after `ops`, first to last.
pub open spec fn lock_run(lock: LockModel, ops: Seq<LockOp>) -> LockModel
    decreases ops.len(),
{
    if ops.len() == 0 {
        lock
    } else {
        lock_step(lock_run(lock, ops.drop_last()), ops.last())
    }
}

/// How often the lock announces its unlocking in the course of `ops`.
pub open spec fn announcements(lock: LockModel, ops: Seq<LockOp>) -> nat
    decreases ops.len(),
{
    if ops.len() == 0 {
        0
    } else {
        announcements(lock, ops.drop_last()) + if lock_announces(
            lock_run(lock, ops.drop_last()),
            ops.last(),
        ) {
            1nat
        } else {
            0nat
        }
    }
}

/// This gate after `op`.
pub open spec fn gate_step(gate: GateModel, op: GateOp) -> GateModel {
    match op {
        GateOp::Receive(side) => gate.receive(side),
        GateOp::Tick(dt) => gate.tick(dt),
    }
}

/// This gate after `ops`, first to last.
pub open spec fn gate_run(gate: GateModel, ops: Seq<GateOp>) -> GateModel
    decreases ops.len(),
{
    if ops.len() == 0 {
        gate
    } else {
        gate_step(gate_run(gate, ops.drop_last()), ops.last())
    }
}

/// The sum of a run of time steps.
pub open spec fn total(steps: Seq<nat>) -> nat
    decreases steps.len(),
{
    if steps.len() == 0 {
        0
    } else {
        total(steps.drop_last()) + steps.last()
    }
}

/// The lock after it has ticked through `steps`, first to last.
pub open spec fn lock_ticks(lock: LockModel, steps: Seq<nat>) -> LockModel
    decreases steps.len(),
{
    if steps.len() == 0 {
        lock
    } else {
        lock_ticks(lock, steps.drop_last()).tick(steps.last())
    }
}

/// This gate after it has ticked through `steps`, first to last.
pub open spec fn gate_ticks(gate: GateModel, steps: Seq<nat>) -> GateModel
    decreases steps.len(),
{
    if steps.len() == 0 {
        gate
    } else {
        gate_ticks(gate, steps.drop_last()).tick(steps.last())
    }
}

/// Whatever happens to a lock, in whatever order, it stays in order, stays
/// on its side, stays unlocked once it is, and announces its unlocking once
/// if it goes from not unlocked to unlocked, and never otherwise.
pub proof fn lemma_lock_announces_once(lock: LockModel, ops: Seq<LockOp>)
    requires
        lock.wf(),
    ensures
        lock_run(lock, ops).wf(),
        lock_run(lock, ops).side == lock.side,
        lock.state is Unlocked ==> lock_run(lock, ops) == lock,
        announcements(lock, ops) == if lock_run(lock, ops).state is Unlocked && !(lock.state
            is Unlocked) {
            1nat
        } else {
            0nat
        },
    decreases ops.len(),
{
    if ops.len() > 0 {
        lemma_lock_announces_once(lock, ops.drop_last());
    }
}

/// Whatever happens to a gate, in whatever order, it stays in order, keeps
/// its side and its threshold, never counts down and never goes back towards
/// closed.
pub proof fn lemma_gate_only_advances_over(gate: GateModel, ops: Seq<GateOp>)
    requires
        gate.wf(),
    ensures
        gate_run(gate, ops).wf(),
        gate_run(gate, ops).side == gate.side,
        gate_run(gate, ops).required_count == gate.required_count,
        gate_run(gate, ops).unlocked_count >= gate.unlocked_count,
        gate_run(gate, ops).progress() >= gate.progress(),
        gate.state is Open ==> gate_run(gate, ops).state is Open,
    decreases ops.len(),
{
    if ops.len() > 0 {
        lemma_gate_only_advances_over(gate, ops.drop_last());
    }
}

/// However the time is cut into ticks, a lock is after them in the state in
/// which one tick of their sum leaves it. So a lock that is being held and has
/// not been let go is unlocked exactly when the ticks sum to more than what
/// was missing to the threshold. Until then its hold time has grown by their
/// sum; it never grows by more, and it stops growing with the tick that
/// unlocks the lock.
pub proof fn lemma_lock_ticks_total(lock: LockModel, steps: Seq<nat>)
    requires
        lock.wf(),
    ensures
        lock_ticks(lock, steps).wf(),
        lock_ticks(lock, steps).side == lock.side,
        lock_ticks(lock, steps).state == lock.tick(total(steps)).state,
        lock.state is Unlocking ==> (lock_ticks(lock, steps).state is Unlocked <==> lock.held
            + total(steps) > UNLOCK_THRESHOLD),
        lock.state is Unlocking && lock.held + total(steps) <= UNLOCK_THRESHOLD ==> lock_ticks(
            lock,
            steps,
        ) == lock.tick(total(steps)) && lock_ticks(lock, steps).held == lock.held + total(steps),
        !(lock.state is Unlocking) ==> lock_ticks(lock, steps) == lock,
        lock.held <= lock_ticks(lock, steps).held <= lock.held + total(steps),
    decreases steps.len(),
{
    if steps.len() > 0 {
        lemma_lock_ticks_total(lock, steps.drop_last());
    }
}

/// However the time is cut into ticks, a gate is after them in the state in
/// which one tick of their sum leaves it, and as far down. So a gate that is
/// opening is open exactly when the ticks sum to more than what was missing
/// to `OPEN_DURATION`. Until then its opening time has grown by their sum; it
/// never grows by more, and it stops growing with the tick that opens it.
pub proof fn lemma_gate_ticks_total(gate: GateModel, steps: Seq<nat>, total_height: nat)
    requires
        gate.wf(),
    ensures
        gate_ticks(gate, steps).wf(),
        gate_ticks(gate, steps).state == gate.tick(total(steps)).state,
        gate_ticks(gate, steps).descent(total_height) == gate.tick(total(steps)).descent(
            total_height,
        ),
        gate.state is Opening ==> (gate_ticks(gate, steps).state is Open <==> gate.opening_elapsed
            + total(steps) > OPEN_DURATION),
        gate.state is Opening && gate.opening_elapsed + total(steps) <= OPEN_DURATION
            ==> gate_ticks(gate, steps) == gate.tick(total(steps)) && gate_ticks(
            gate,
            steps,
        ).opening_elapsed == gate.opening_elapsed + total(steps),
        !(gate.state is Opening) ==> gate_ticks(gate, steps) == gate,
        gate.opening_elapsed <= gate_ticks(gate, steps).opening_elapsed <= gate.opening_elapsed
            + total(steps),
    decreases steps.len(),
{
    lemma_descent_bounded(gate_ticks(gate, steps), total_height);
    lemma_descent_bounded(gate.tick(total(steps)), total_height);
    if steps.len() > 0 {
        lemma_gate_ticks_total(gate, steps.drop_last(), total_height);
    }
}

} // verus!
