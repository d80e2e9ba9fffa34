use crate::side::GateSide;
use vstd::prelude::*;

verus! {

/// Hold time, in microseconds, that a lock has to exceed before it unlocks.
pub const UNLOCK_THRESHOLD: u64 = 3_000_000;

/// Number of steps in which `GateLock::tint` reports progress.
pub const TINT_SCALE: u64 = 1_000_000;

/// Where a lock is in its life. `Unlocked` is final.
#[derive(Clone, Copy, Debug, PartialEq, Eq, Structural)]
pub enum GateLockState {
    Unlocked,
    Unlocking,
    Locked,
}

/// Notice that a lock has finished unlocking. A lock sends it at most once.
#[derive(Clone, Copy, Debug, PartialEq, Eq, Structural)]
pub struct GateLockUnlockEvent {
    pub side: GateSide,
}

/// What the indicator light of a lock shows.
#[derive(Clone, Copy, Debug, PartialEq, Eq, Structural)]
pub enum LockTint {
    /// Nobody stands on the lock: the light is off.
    Dark,
    /// The lock is being held; `progress` runs from 0 to `TINT_SCALE` as the
    /// hold time approaches the threshold.
    Charging { progress: u64 },
    /// The lock has unlocked for good.
    Done,
}

/// A time as 64 bits can hold it: it stops at `u64::MAX`.
pub open spec fn capped(time: nat) -> nat {
    if time > u64::MAX {
        u64::MAX as nat
    } else {
        time
    }
}

/// A lock as a mathematical value: its state, the time for which it has been
/// held without a break, in microseconds, and the side it belongs to.
pub struct LockModel {
    pub state: GateLockState,
    pub held: nat,
    pub side: GateSide,
}

impl LockModel {
    /// A lock that nobody has touched yet.
    pub open spec fn fresh(side: GateSide) -> LockModel {
        LockModel { state: GateLockState::Locked, held: 0, side }
    }

    /// Hold time is zero while locked, within the threshold while the lock is
    /// being held, beyond it once the lock has unlocked, and fits in 64 bits.
    pub open spec fn wf(self) -> bool {
        &&& self.held <= u64::MAX
        &&& self.state is Locked ==> self.held == 0
        &&& self.state is Unlocking ==> self.held <= UNLOCK_THRESHOLD
        &&& self.state is Unlocked ==> self.held > UNLOCK_THRESHOLD
    }

    /// The player steps onto the lock.
    pub open spec fn begin(self) -> LockModel {
        if self.state is Locked {
            LockModel { state: GateLockState::Unlocking, held: 0, side: self.side }
        } else {
            self
        }
    }

    /// The player steps off the lock.
    pub open spec fn end(self) -> LockModel {
        if self.state is Unlocking {
            LockModel { state: GateLockState::Locked, held: 0, side: self.side }
        } else {
            self
        }
    }

    /// Whether `dt` more microseconds carry the lock past the threshold.
    pub open spec fn fires(self, dt: nat) -> bool {
        self.state is Unlocking && self.held + dt > UNLOCK_THRESHOLD
    }

    /// The lock after `dt` more microseconds: a lock that is being held has
    /// them added to its hold time, and is unlocked if that then exceeds the
    /// threshold. Time does not run for a lock in any other state.
    pub open spec fn tick(self, dt: nat) -> LockModel {
        if self.fires(dt) {
            LockModel {
                state: GateLockState::Unlocked,
                held: capped(self.held + dt),
                side: self.side,
            }
        } else if self.state is Unlocking {
            LockModel { state: self.state, held: self.held + dt, side: self.side }
        } else {
            self
        }
    }

    /// What a tick of `dt` microseconds announces.
    pub open spec fn emitted(self, dt: nat) -> Option<GateLockUnlockEvent> {
        if self.fires(dt) {
            Some(GateLockUnlockEvent { side: self.side })
        } else {
            None
        }
    }

    /// The indicator light is on from the first contact on.
    pub open spec fn visible(self) -> bool {
        !(self.state is Locked)
    }

    /// The light as a function of state and hold time.
    pub open spec fn tint(self) -> LockTint {
        match self.state {
            GateLockState::Locked => LockTint::Dark,
            GateLockState::Unlocking => LockTint::Charging {
                progress: (self.held * TINT_SCALE / (UNLOCK_THRESHOLD as int)) as u64,
            },
            GateLockState::Unlocked => LockTint::Done,
        }
    }
}

/// A sensor that unlocks once the player has stood on it for longer than
/// `UNLOCK_THRESHOLD` without stepping off.
#[derive(Clone, Copy, Debug)]
pub struct GateLock {
    state: GateLockState,
    time_since_pressed: u64,
    side: GateSide,
}

impl View for GateLock {
    type V = LockModel;

    closed spec fn view(&self) -> LockModel {
        LockModel {
            state: self.state,
            held: self.time_since_pressed as nat,
            side: self.side,
        }
    }
}

impl GateLock {
    #[verifier::type_invariant]
    spec fn inv(self) -> bool {
        self@.wf()
    }

    /// A locked lock on the given side.
    pub fn new(side: GateSide) -> (lock: GateLock)
        ensures
            lock@ == LockModel::fresh(side),
            lock@.wf(),
    {
        GateLock { state: GateLockState::Locked, time_since_pressed: 0, side }
    }

    /// The player has entered the sensor. Starts the hold from zero if the
    /// lock was locked; changes nothing otherwise.
    pub fn on_contact_begin(&mut self)
        ensures
            final(self)@ == old(self)@.begin(),
            final(self)@.wf(),
    {
        proof {
            use_type_invariant(&*self);
        }
        if self.state == GateLockState::Locked {
            *self = GateLock {
                state: GateLockState::Unlocking,
                time_since_pressed: 0,
                side: self.side,
            };
        }
    }

    /// The player has left the sensor. Drops the hold if one was under way;
    /// changes nothing otherwise.
    pub fn on_contact_end(&mut self)
        ensures
            final(self)@ == old(self)@.end(),
            final(self)@.wf(),
    {
        proof {
            use_type_invariant(&*self);
        }
        if self.state == GateLockState::Unlocking {
            *self = GateLock {
                state: GateLockState::Locked,
                time_since_pressed: 0,
                side: self.side,
            };
        }
    }

    /// Lets `dt` microseconds pass. A lock that is being held adds them to its
    /// hold time, and unlocks, announcing it, when that exceeds the threshold.
    pub fn tick(&mut self, dt: u64) -> (event: Option<GateLockUnlockEvent>)
        ensures
            final(self)@ == old(self)@.tick(dt as nat),
            event == old(self)@.emitted(dt as nat),
            final(self)@.wf(),
    {
        proof {
            use_type_invariant(&*self);
        }
        if self.state != GateLockState::Unlocking {
            return None;
        }
        if dt > UNLOCK_THRESHOLD - self.time_since_pressed {
            let held: u64 = if dt > u64::MAX - self.time_since_pressed {
                u64::MAX
            } else {
                self.time_since_pressed + dt
            };
            *self = GateLock { state: GateLockState::Unlocked, time_since_pressed: held, side: self.side };
            Some(GateLockUnlockEvent { side: self.side })
        } else {
            let held: u64 = self.time_since_pressed + dt;
            *self = GateLock { state: self.state, time_since_pressed: held, side: self.side };
            None
        }
    }

    /// Where the lock is in its life.
    pub fn state(&self) -> (state: GateLockState)
        ensures
            state == self@.state,
    {
        self.state
    }

    /// The side that the lock works for.
    pub fn side(&self) -> (side: GateSide)
        ensures
            side == self@.side,
    {
        self.side
    }

    /// Time, in microseconds, for which the lock has been held without a
    /// break: zero while locked; once unlocked, the time that it took.
    pub fn held_micros(&self) -> (held: u64)
        ensures
            held == self@.held,
            self@.wf(),
    {
        proof {
            use_type_invariant(self);
        }
        self.time_since_pressed
    }

    /// Whether the indicator light is on.
    pub fn is_visible(&self) -> (visible: bool)
        ensures
            visible == self@.visible(),
    {
        self.state != GateLockState::Locked
    }

    /// What the indicator light shows.
    pub fn tint(&self) -> (tint: LockTint)
        ensures
            tint == self@.tint(),
            tint matches LockTint::Charging { progress } ==> progress <= TINT_SCALE,
    {
        proof {
            use_type_invariant(self);
        }
        match self.state {
            GateLockState::Locked => LockTint::Dark,
            GateLockState::Unlocking => {
                let held = self.time_since_pressed;
                assert(held * 1_000_000 / 3_000_000 <= 1_000_000) by (nonlinear_arith)
                    requires
                        0 <= held <= 3_000_000,
                ;
                LockTint::Charging { progress: held * TINT_SCALE / UNLOCK_THRESHOLD }
            },
            GateLockState::Unlocked => LockTint::Done,
        }
    }
}

impl Default for GateLockState {
    /// Locked.
    fn default() -> (state: GateLockState)
        ensures
            state == GateLockState::Locked,
    {
        GateLockState::Locked
    }
}

impl Default for GateLockUnlockEvent {
    /// An event for the default side.
    fn default() -> (event: GateLockUnlockEvent)
        ensures
            event == (GateLockUnlockEvent { side: GateSide::East }),
    {
        GateLockUnlockEvent { side: GateSide::East }
    }
}

impl Default for GateLock {
    /// A locked lock on the default side.
    fn default() -> (lock: GateLock)
        ensures
            lock@ == LockModel::fresh(GateSide::East),
    {
        GateLock::new(GateSide::East)
    }
}

/// Stepping on, stepping off and the passing of time each leave a lock that
/// is in order in order.
pub proof fn lemma_lock_stays_wf(lock: LockModel, dt: nat)
    requires
        lock.wf(),
    ensures
        lock.begin().wf(),
        lock.end().wf(),
        lock.tick(dt).wf(),
{
}

/// A second contact signal of the same kind changes nothing: a lock that is
/// being held stays so, with its hold time, when the player is said to step
/// on it again, and a lock that is not held is untouched by a second release.
pub proof fn lemma_contact_idempotent(lock: LockModel)
    ensures
        lock.begin().begin() == lock.begin(),
        lock.end().end() == lock.end(),
        lock.state is Unlocking ==> lock.begin() == lock,
        lock.state is Locked ==> lock.end() == lock,
{
}

/// A lock announces that it has unlocked exactly when a tick carries a hold
/// past the threshold, and never a second time: it is then unlocked, and
/// neither time nor contact changes an unlocked lock.
pub proof fn lemma_unlocks_once(lock: LockModel, dt: nat, later: nat)
    ensures
        lock.emitted(dt) is Some <==> lock.state is Unlocking && lock.held + dt
            > UNLOCK_THRESHOLD,
        lock.emitted(dt) is Some ==> lock.emitted(dt) == Some(
            GateLockUnlockEvent { side: lock.side },
        ) && lock.tick(dt).state is Unlocked,
        lock.tick(dt).state is Unlocked ==> {
            let done = lock.tick(dt);
            &&& done.emitted(later) is None
            &&& done.tick(later) == done
            &&& done.begin() == done
            &&& done.end() == done
        },
{
}

/// Letting go of a lock that is being held puts it back as it was before
/// anybody touched it, and the next hold starts from zero.
pub proof fn lemma_release_resets(lock: LockModel)
    requires
        lock.state is Unlocking,
    ensures
        lock.end() == LockModel::fresh(lock.side),
        lock.end().begin().state is Unlocking,
        lock.end().begin().held == 0,
{
}

/// A tick on a lock that is being held adds its time to the hold time,
/// whether or not it unlocks the lock, and leaves the lock on its side.
pub proof fn lemma_tick_adds(lock: LockModel, dt: nat)
    requires
        lock.wf(),
        lock.state is Unlocking,
        lock.held + dt <= u64::MAX,
    ensures
        lock.tick(dt).held == lock.held + dt,
        lock.tick(dt).side == lock.side,
        lock.tick(dt).state is Unlocked <==> lock.held + dt > UNLOCK_THRESHOLD,
{
}

/// Time adds up until the lock unlocks, and stops there: two ticks leave a
/// lock in the state in which one tick of their sum does, and with the same
/// hold time unless the first of them has unlocked it, after which the second
/// changes nothing. Exactly one of the two announces the unlocking if that one
/// tick does.
pub proof fn lemma_lock_ticks_add(lock: LockModel, first: nat, second: nat)
    requires
        lock.wf(),
    ensures
        lock.tick(first).tick(second).state == lock.tick(first + second).state,
        lock.tick(first).tick(second).side == lock.tick(first + second).side,
        !lock.fires(first) ==> lock.tick(first).tick(second) == lock.tick(first + second),
        lock.fires(first) ==> lock.tick(first).tick(second) == lock.tick(first),
        lock.emitted(first + second) is Some <==> (lock.emitted(first) is Some) != (lock.tick(
            first,
        ).emitted(second) is Some),
{
}

} // verus!
