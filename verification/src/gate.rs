use crate::lock::{capped, GateLockUnlockEvent};
use crate::side::GateSide;
use vstd::prelude::*;

verus! {

/// Time, in microseconds, that a gate takes to sink out of the way.
pub const OPEN_DURATION: u64 = 4_000_000;

/// Number of locks that a gate asks for unless it is told otherwise.
pub const DEFAULT_REQUIRED_COUNT: u64 = 2;

/// Where a gate is in its life. `Open` is final.
#[derive(Clone, Copy, Debug, PartialEq, Eq, Structural)]
pub enum GateState {
    Open,
    Opening,
    Closed,
}

/// Number of events that are for `side`.
pub open spec fn matching(events: Seq<GateLockUnlockEvent>, side: GateSide) -> nat
    decreases events.len(),
{
    if events.len() == 0 {
        0
    } else {
        matching(events.drop_last(), side) + if events.last().side == side {
            1nat
        } else {
            0nat
        }
    }
}

/// A gate as a mathematical value. Times are in microseconds.
pub struct GateModel {
    pub state: GateState,
    pub side: GateSide,
    pub unlocked_count: nat,
    pub required_count: nat,
    pub opening_elapsed: nat,
}

impl GateModel {
    /// A closed gate that has heard of no lock yet.
    pub open spec fn fresh(side: GateSide, required_count: nat) -> GateModel {
        GateModel {
            state: GateState::Closed,
            side,
            unlocked_count: 0,
            required_count,
            opening_elapsed: 0,
        }
    }

    /// A gate is closed exactly as long as the count is short of a positive
    /// threshold; the opening time is zero while it is closed, within
    /// `OPEN_DURATION` while it opens and beyond it once it is open; and
    /// counts and time fit in 64 bits.
    pub open spec fn wf(self) -> bool {
        &&& self.unlocked_count <= u64::MAX
        &&& self.required_count <= u64::MAX
        &&& self.opening_elapsed <= u64::MAX
        &&& self.state is Closed <==> self.required_count == 0 || self.unlocked_count
            < self.required_count
        &&& self.state is Closed ==> self.opening_elapsed == 0
        &&& self.state is Opening ==> self.opening_elapsed <= OPEN_DURATION
        &&& self.state is Open ==> self.opening_elapsed > OPEN_DURATION
    }

    /// The count after one more matching event: it stops at `u64::MAX`.
    pub open spec fn bumped(count: nat) -> nat {
        if count < u64::MAX {
            count + 1
        } else {
            count
        }
    }

    /// This gate after an unlock event for `side`.
    pub open spec fn receive(self, side: GateSide) -> GateModel {
        if side != self.side {
            self
        } else {
            let count = Self::bumped(self.unlocked_count);
            if count == self.required_count && self.state is Closed {
                GateModel {
                    state: GateState::Opening,
                    side: self.side,
                    unlocked_count: count,
                    required_count: self.required_count,
                    opening_elapsed: 0,
                }
            } else {
                GateModel {
                    state: self.state,
                    side: self.side,
                    unlocked_count: count,
                    required_count: self.required_count,
                    opening_elapsed: self.opening_elapsed,
                }
            }
        }
    }

    /// This gate after it has taken in `events`, first to last.
    pub open spec fn receive_all(self, events: Seq<GateLockUnlockEvent>) -> GateModel
        decreases events.len(),
    {
        if events.len() == 0 {
            self
        } else {
            self.receive_all(events.drop_last()).receive(events.last().side)
        }
    }

    /// This gate after `count` unlock events for its own side.
    pub open spec fn receive_own(self, count: nat) -> GateModel
        decreases count,
    {
        if count == 0 {
            self
        } else {
            self.receive_own((count - 1) as nat).receive(self.side)
        }
    }

    /// A number that grows as a gate goes from closed to open.
    pub open spec fn progress(self) -> nat {
        match self.state {
            GateState::Closed => 0,
            GateState::Opening => 1,
            GateState::Open => 2,
        }
    }

    /// This gate after `dt` more microseconds: a gate that is opening has
    /// them added to its opening time, and is open if that then exceeds
    /// `OPEN_DURATION`. Time does not run for a gate in any other state.
    pub open spec fn tick(self, dt: nat) -> GateModel {
        if !(self.state is Opening) {
            self
        } else if self.opening_elapsed + dt > OPEN_DURATION {
            GateModel {
                state: GateState::Open,
                side: self.side,
                unlocked_count: self.unlocked_count,
                required_count: self.required_count,
                opening_elapsed: capped(self.opening_elapsed + dt),
            }
        } else {
            GateModel {
                state: self.state,
                side: self.side,
                unlocked_count: self.unlocked_count,
                required_count: self.required_count,
                opening_elapsed: self.opening_elapsed + dt,
            }
        }
    }

    /// The part of the opening time in which a gate sinks: the descent ends
    /// at `OPEN_DURATION`.
    pub open spec fn sinking_time(self) -> nat {
        if self.opening_elapsed > OPEN_DURATION {
            OPEN_DURATION as nat
        } else {
            self.opening_elapsed
        }
    }

    /// How far a gate of height `total_height` has sunk: the share of the
    /// height that its sinking time is of `OPEN_DURATION`, rounded down.
    pub open spec fn descent(self, total_height: nat) -> nat {
        total_height * self.sinking_time() / (OPEN_DURATION as nat)
    }
}

/// A barrier that sinks away once enough locks of its side have unlocked.
#[derive(Clone, Copy, Debug)]
pub struct Gate {
    state: GateState,
    side: GateSide,
    time_since_unlocked: u64,
    num_gates_unlocked: u64,
    required_count: u64,
}

impl View for Gate {
    type V = GateModel;

    closed spec fn view(&self) -> GateModel {
        GateModel {
            state: self.state,
            side: self.side,
            unlocked_count: self.num_gates_unlocked as nat,
            required_count: self.required_count as nat,
            opening_elapsed: self.time_since_unlocked as nat,
        }
    }
}

impl Gate {
    #[verifier::type_invariant]
    spec fn inv(self) -> bool {
        self@.wf()
    }

    /// A closed gate on `side` that opens when `required_count` locks of that
    /// side have unlocked.
    pub fn new(side: GateSide, required_count: u64) -> (gate: Gate)
        ensures
            gate@ == GateModel::fresh(side, required_count as nat),
            gate@.wf(),
    {
        Gate {
            state: GateState::Closed,
            side,
            time_since_unlocked: 0,
            num_gates_unlocked: 0,
            required_count,
        }
    }

    /// Takes in an unlock event. One for another side changes nothing. One for
    /// this side is counted, and opening starts when the count
    /// reaches the threshold.
    pub fn receive_unlock(&mut self, side: GateSide)
        ensures
            final(self)@ == old(self)@.receive(side),
            final(self)@.wf(),
    {
        proof {
            use_type_invariant(&*self);
        }
        if side != self.side {
            return ;
        }
        let count: u64 = if self.num_gates_unlocked < u64::MAX {
            self.num_gates_unlocked + 1
        } else {
            self.num_gates_unlocked
        };
        if count == self.required_count && self.state == GateState::Closed {
            *self = Gate {
                state: GateState::Opening,
                side: self.side,
                time_since_unlocked: 0,
                num_gates_unlocked: count,
                required_count: self.required_count,
            };
        } else {
            *self = Gate {
                state: self.state,
                side: self.side,
                time_since_unlocked: self.time_since_unlocked,
                num_gates_unlocked: count,
                required_count: self.required_count,
            };
        }
    }

    /// Lets `dt` microseconds pass. An opening gate adds them to its opening
    /// time and is open when that exceeds `OPEN_DURATION`.
    pub fn tick(&mut self, dt: u64)
        ensures
            final(self)@ == old(self)@.tick(dt as nat),
            final(self)@.wf(),
    {
        proof {
            use_type_invariant(&*self);
        }
        if self.state != GateState::Opening {
            return ;
        }
        if dt > OPEN_DURATION - self.time_since_unlocked {
            let elapsed: u64 = if dt > u64::MAX - self.time_since_unlocked {
                u64::MAX
            } else {
                self.time_since_unlocked + dt
            };
            *self = Gate {
                state: GateState::Open,
                side: self.side,
                time_since_unlocked: elapsed,
                num_gates_unlocked: self.num_gates_unlocked,
                required_count: self.required_count,
            };
        } else {
            let elapsed: u64 = self.time_since_unlocked + dt;
            *self = Gate {
                state: self.state,
                side: self.side,
                time_since_unlocked: elapsed,
                num_gates_unlocked: self.num_gates_unlocked,
                required_count: self.required_count,
            };
        }
    }

    /// Where this gate is in its life.
    pub fn state(&self) -> (state: GateState)
        ensures
            state == self@.state,
    {
        self.state
    }

    /// The side whose locks open this gate.
    pub fn side(&self) -> (side: GateSide)
        ensures
            side == self@.side,
    {
        self.side
    }

    /// Number of unlock events for its side that this gate has taken in.
    pub fn unlocked_count(&self) -> (count: u64)
        ensures
            count == self@.unlocked_count,
    {
        self.num_gates_unlocked
    }

    /// Number of locks that have to unlock before this gate opens.
    pub fn required_count(&self) -> (count: u64)
        ensures
            count == self@.required_count,
    {
        self.required_count
    }

    /// Time, in microseconds, for which this gate has been opening: zero
    /// while it is closed; once it is open, the time that it took.
    pub fn opening_elapsed(&self) -> (elapsed: u64)
        ensures
            elapsed == self@.opening_elapsed,
            self@.wf(),
    {
        proof {
            use_type_invariant(self);
        }
        self.time_since_unlocked
    }

    /// How far below its closed position a gate of height `total_height`
    /// stands, in the unit of `total_height`.
    pub fn descent(&self, total_height: u64) -> (offset: u64)
        ensures
            offset == self@.descent(total_height as nat),
            offset <= total_height,
    {
        proof {
            use_type_invariant(self);
            lemma_descent_bounded(self@, total_height as nat);
        }
        let sinking: u64 = if self.time_since_unlocked > OPEN_DURATION {
            OPEN_DURATION
        } else {
            self.time_since_unlocked
        };
        let elapsed: u128 = sinking as u128;
        let height: u128 = total_height as u128;
        assert(height * elapsed <= 0xffff_ffff_ffff_ffff * 4_000_000) by (nonlinear_arith)
            requires
                height <= 0xffff_ffff_ffff_ffff,
                elapsed <= 4_000_000,
        ;
        let sunk: u128 = height * elapsed / (OPEN_DURATION as u128);
        sunk as u64
    }
}

impl Default for GateState {
    /// Closed.
    fn default() -> (state: GateState)
        ensures
            state == GateState::Closed,
    {
        GateState::Closed
    }
}

impl Default for Gate {
    /// A closed gate on the default side that asks for
    /// `DEFAULT_REQUIRED_COUNT` locks.
    fn default() -> (gate: Gate)
        ensures
            gate@ == GateModel::fresh(GateSide::East, DEFAULT_REQUIRED_COUNT as nat),
    {
        Gate::new(GateSide::East, DEFAULT_REQUIRED_COUNT)
    }
}

/// A gate never sinks further than its height: it has not sunk at all while
/// the opening time is zero, and is all the way down, and stays there, from
/// `OPEN_DURATION` on.
pub proof fn lemma_descent_bounded(gate: GateModel, total_height: nat)
    ensures
        gate.descent(total_height) <= total_height,
        gate.opening_elapsed == 0 ==> gate.descent(total_height) == 0,
        gate.opening_elapsed >= OPEN_DURATION ==> gate.descent(total_height) == total_height,
{
    let e = gate.sinking_time();
    assert(total_height * e / 4_000_000 <= total_height) by (nonlinear_arith)
        requires
            e <= 4_000_000,
    ;
    assert(total_height * 0 / 4_000_000 == 0) by (nonlinear_arith);
    assert(total_height * 4_000_000 / 4_000_000 == total_height) by (nonlinear_arith);
}

/// An unlock event and the passing of time each leave a gate that is in
/// order in order.
pub proof fn lemma_gate_stays_wf(gate: GateModel, side: GateSide, dt: nat)
    requires
        gate.wf(),
    ensures
        gate.receive(side).wf(),
        gate.tick(dt).wf(),
{
}

/// An unlock event for another side changes nothing.
pub proof fn lemma_other_side_ignored(gate: GateModel, side: GateSide)
    requires
        side != gate.side,
    ensures
        gate.receive(side) == gate,
{
}

/// A closed gate starts to open upon the very event that brings its count to
/// the threshold, and upon no other; an event never changes the state of a
/// gate that has left `Closed`, nor its opening time.
pub proof fn lemma_opens_at_threshold(gate: GateModel)
    requires
        gate.wf(),
    ensures
        gate.state is Closed ==> (gate.receive(gate.side).state is Opening <==> gate.unlocked_count
            + 1 == gate.required_count),
        gate.state is Closed ==> gate.receive(gate.side).state is Opening || gate.receive(
            gate.side,
        ).state is Closed,
        !(gate.state is Closed) ==> gate.receive(gate.side).state == gate.state && gate.receive(
            gate.side,
        ).opening_elapsed == gate.opening_elapsed,
{
}

/// The count never falls, and a gate never goes back: not from opening to
/// closed, and not from open to anything else. An open gate is beyond the
/// reach of time.
pub proof fn lemma_gate_only_advances(gate: GateModel, side: GateSide, dt: nat)
    ensures
        gate.receive(side).unlocked_count >= gate.unlocked_count,
        gate.tick(dt).unlocked_count == gate.unlocked_count,
        gate.receive(side).progress() >= gate.progress(),
        gate.tick(dt).progress() >= gate.progress(),
        gate.state is Open ==> gate.tick(dt) == gate,
        gate.state is Closed ==> gate.tick(dt) == gate,
{
}

/// A tick on a gate that is opening adds its time to the opening time,
/// whether or not it leaves that gate open.
pub proof fn lemma_gate_tick_adds(gate: GateModel, dt: nat)
    requires
        gate.wf(),
        gate.state is Opening,
        gate.opening_elapsed + dt <= u64::MAX,
    ensures
        gate.tick(dt).opening_elapsed == gate.opening_elapsed + dt,
        gate.tick(dt).state is Open <==> gate.opening_elapsed + dt > OPEN_DURATION,
{
}

/// Time adds up until a gate is open, and stops there: two ticks leave a gate
/// in the state in which one tick of their sum does, and as far down, and
/// with the same opening time unless the first of them has opened it, after
/// which the second changes nothing.
pub proof fn lemma_gate_ticks_add(gate: GateModel, first: nat, second: nat, total_height: nat)
    requires
        gate.wf(),
    ensures
        gate.tick(first).tick(second).state == gate.tick(first + second).state,
        gate.tick(first).tick(second).descent(total_height) == gate.tick(first + second).descent(
            total_height,
        ),
        !(gate.tick(first).state is Open) ==> gate.tick(first).tick(second) == gate.tick(
            first + second,
        ),
        gate.tick(first).state is Open ==> gate.tick(first).tick(second) == gate.tick(first),
{
    lemma_descent_bounded(gate.tick(first).tick(second), total_height);
    lemma_descent_bounded(gate.tick(first + second), total_height);
}

/// A gate that has just started to open is open after `dt` microseconds
/// exactly if `dt` exceeds `OPEN_DURATION`; until then it has sunk by the
/// share of its height that `dt` is of `OPEN_DURATION`.
pub proof fn lemma_opening_time(gate: GateModel, dt: nat, total_height: nat)
    requires
        gate.wf(),
        gate.state is Opening,
        gate.opening_elapsed == 0,
    ensures
        gate.tick(dt).state is Open <==> dt > OPEN_DURATION,
        dt <= OPEN_DURATION ==> gate.tick(dt).state is Opening && gate.tick(dt).opening_elapsed
            == dt && gate.tick(dt).descent(total_height) == total_height * dt / (
        OPEN_DURATION as nat),
        dt > OPEN_DURATION ==> gate.tick(dt).descent(total_height) == total_height,
{
    lemma_descent_bounded(gate.tick(dt), total_height);
}

/// A gate sinks as its opening time grows, never rises.
pub proof fn lemma_descent_monotone(earlier: GateModel, later: GateModel, total_height: nat)
    requires
        earlier.opening_elapsed <= later.opening_elapsed,
    ensures
        earlier.descent(total_height) <= later.descent(total_height),
{
    let a = earlier.sinking_time();
    let b = later.sinking_time();
    assert(total_height * a <= total_height * b) by (nonlinear_arith)
        requires
            a <= b,
    ;
    assert(total_height * a / 4_000_000 <= total_height * b / 4_000_000) by (nonlinear_arith)
        requires
            total_height * a <= total_height * b,
    ;
}

/// Of a run of events a gate takes in no more than how many are for its
/// side.
pub proof fn lemma_only_count_matters(gate: GateModel, events: Seq<GateLockUnlockEvent>)
    ensures
        gate.receive_all(events) == gate.receive_own(matching(events, gate.side)),
    decreases events.len(),
{
    if events.len() > 0 {
        lemma_only_count_matters(gate, events.drop_last());
        lemma_receive_own_keeps_side(gate, matching(events.drop_last(), gate.side));
    }
}

/// Events for its own side leave a gate on its side.
pub proof fn lemma_receive_own_keeps_side(gate: GateModel, count: nat)
    ensures
        gate.receive_own(count).side == gate.side,
    decreases count,
{
    if count > 0 {
        lemma_receive_own_keeps_side(gate, (count - 1) as nat);
    }
}

/// The events for a side are as many as the run, taken as a bag, holds
/// copies of the event for that side.
pub proof fn lemma_matching_is_bag_count(events: Seq<GateLockUnlockEvent>, side: GateSide)
    ensures
        matching(events, side) == events.to_multiset().count(GateLockUnlockEvent { side }),
    decreases events.len(),
{
    broadcast use vstd::seq_lib::group_to_multiset_ensures;

    if events.len() > 0 {
        lemma_matching_is_bag_count(events.drop_last(), side);
        assert(events == events.drop_last().push(events.last()));
    }
}

/// The order in which the events of a cycle arrive does not matter: two runs
/// with the same events, in whatever order, leave a gate the same.
pub proof fn lemma_order_irrelevant(
    gate: GateModel,
    one: Seq<GateLockUnlockEvent>,
    other: Seq<GateLockUnlockEvent>,
)
    requires
        one.to_multiset() == other.to_multiset(),
    ensures
        gate.receive_all(one) == gate.receive_all(other),
{
    lemma_matching_is_bag_count(one, gate.side);
    lemma_matching_is_bag_count(other, gate.side);
    lemma_only_count_matters(gate, one);
    lemma_only_count_matters(gate, other);
}

} // verus!
