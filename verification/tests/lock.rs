use keenwatch::lock::{
    GateLock, GateLockState, GateLockUnlockEvent, LockTint, TINT_SCALE, UNLOCK_THRESHOLD,
};
use keenwatch::side::GateSide;

fn held_lock(side: GateSide, held: u64) -> GateLock {
    let mut lock = GateLock::new(side);
    lock.on_contact_begin();
    assert_eq!(lock.tick(held), None);
    lock
}

#[test]
fn new_lock_is_locked_and_dark() {
    let lock = GateLock::new(GateSide::West);
    assert_eq!(lock.state(), GateLockState::Locked);
    assert_eq!(lock.held_micros(), 0);
    assert_eq!(lock.side(), GateSide::West);
    assert!(!lock.is_visible());
    assert_eq!(lock.tint(), LockTint::Dark);
}

#[test]
fn default_lock_is_fresh_on_the_default_side() {
    let lock = GateLock::default();
    assert_eq!(lock.state(), GateLockState::Locked);
    assert_eq!(lock.held_micros(), 0);
    assert_eq!(lock.side(), GateSide::East);
    assert_eq!(GateLockState::default(), GateLockState::Locked);
    assert_eq!(GateSide::default(), GateSide::East);
    assert_eq!(
        GateLockUnlockEvent::default(),
        GateLockUnlockEvent { side: GateSide::East }
    );
}

#[test]
fn threshold_is_three_seconds() {
    assert_eq!(UNLOCK_THRESHOLD, 3_000_000);
}

#[test]
fn contact_begin_starts_the_hold() {
    let mut lock = GateLock::new(GateSide::East);
    lock.on_contact_begin();
    assert_eq!(lock.state(), GateLockState::Unlocking);
    assert_eq!(lock.held_micros(), 0);
    assert!(lock.is_visible());
}

#[test]
fn contact_begin_twice_keeps_the_hold() {
    let mut lock = GateLock::new(GateSide::East);
    lock.on_contact_begin();
    assert_eq!(lock.tick(1_200_000), None);
    lock.on_contact_begin();
    assert_eq!(lock.state(), GateLockState::Unlocking);
    assert_eq!(lock.held_micros(), 1_200_000);
}

#[test]
fn tick_past_threshold_unlocks_and_announces_once() {
    let mut lock = held_lock(GateSide::East, 2_900_000);
    assert_eq!(lock.state(), GateLockState::Unlocking);
    assert_eq!(
        lock.tick(200_000),
        Some(GateLockUnlockEvent { side: GateSide::East })
    );
    assert_eq!(lock.state(), GateLockState::Unlocked);
    assert_eq!(lock.held_micros(), 3_100_000);
    assert_eq!(lock.side(), GateSide::East);
    assert_eq!(lock.tick(1_000_000), None);
    assert_eq!(lock.state(), GateLockState::Unlocked);
    assert_eq!(lock.held_micros(), 3_100_000);
}

#[test]
fn tick_adds_to_the_hold_whether_or_not_it_unlocks() {
    for (held, dt) in [(0u64, 0u64), (0, 1), (1_000_000, 2_000_000), (2_900_000, 200_000), (0, 9_000_000)] {
        let mut lock = held_lock(GateSide::West, held);
        let event = lock.tick(dt);
        assert_eq!(lock.held_micros(), held + dt);
        assert_eq!(lock.side(), GateSide::West);
        assert_eq!(event.is_some(), held + dt > UNLOCK_THRESHOLD);
        assert_eq!(lock.state() == GateLockState::Unlocked, held + dt > UNLOCK_THRESHOLD);
    }
}

#[test]
fn announcement_carries_the_side_of_the_lock() {
    let mut lock = held_lock(GateSide::West, 0);
    assert_eq!(
        lock.tick(3_000_001),
        Some(GateLockUnlockEvent { side: GateSide::West })
    );
}

#[test]
fn hold_of_exactly_the_threshold_does_not_unlock() {
    let mut lock = held_lock(GateSide::East, 2_000_000);
    assert_eq!(lock.tick(1_000_000), None);
    assert_eq!(lock.state(), GateLockState::Unlocking);
    assert_eq!(lock.held_micros(), 3_000_000);
    assert_eq!(
        lock.tick(1),
        Some(GateLockUnlockEvent { side: GateSide::East })
    );
    assert_eq!(lock.state(), GateLockState::Unlocked);
    assert_eq!(lock.held_micros(), 3_000_001);
}

#[test]
fn release_resets_the_hold() {
    let mut lock = GateLock::new(GateSide::East);
    lock.on_contact_begin();
    assert_eq!(lock.tick(1_500_000), None);
    lock.on_contact_end();
    assert_eq!(lock.state(), GateLockState::Locked);
    assert_eq!(lock.held_micros(), 0);
    assert!(!lock.is_visible());
    lock.on_contact_begin();
    assert_eq!(lock.state(), GateLockState::Unlocking);
    assert_eq!(lock.held_micros(), 0);
    assert_eq!(lock.tick(2_000_000), None);
    assert_eq!(lock.held_micros(), 2_000_000);
}

#[test]
fn interrupted_holds_do_not_add_up() {
    let mut lock = GateLock::new(GateSide::East);
    lock.on_contact_begin();
    assert_eq!(lock.tick(2_000_000), None);
    lock.on_contact_end();
    lock.on_contact_begin();
    assert_eq!(lock.tick(2_000_000), None);
    assert_eq!(lock.state(), GateLockState::Unlocking);
}

#[test]
fn release_without_hold_changes_nothing() {
    let mut lock = GateLock::new(GateSide::West);
    lock.on_contact_end();
    lock.on_contact_end();
    assert_eq!(lock.state(), GateLockState::Locked);
    assert_eq!(lock.held_micros(), 0);
}

#[test]
fn time_does_not_run_on_a_locked_lock() {
    let mut lock = GateLock::new(GateSide::East);
    assert_eq!(lock.tick(10_000_000), None);
    assert_eq!(lock.state(), GateLockState::Locked);
    assert_eq!(lock.held_micros(), 0);
}

#[test]
fn unlocked_lock_ignores_contact() {
    let mut lock = held_lock(GateSide::East, 0);
    assert!(lock.tick(3_100_000).is_some());
    lock.on_contact_end();
    assert_eq!(lock.state(), GateLockState::Unlocked);
    lock.on_contact_begin();
    assert_eq!(lock.state(), GateLockState::Unlocked);
    assert_eq!(lock.tick(5_000_000), None);
    assert_eq!(lock.held_micros(), 3_100_000);
    assert!(lock.is_visible());
}

#[test]
fn longest_possible_tick_unlocks_without_overflow() {
    let mut lock = held_lock(GateSide::East, 2_999_999);
    assert_eq!(
        lock.tick(u64::MAX),
        Some(GateLockUnlockEvent { side: GateSide::East })
    );
    assert_eq!(lock.held_micros(), u64::MAX);

    let mut lock = held_lock(GateSide::East, 0);
    assert!(lock.tick(u64::MAX).is_some());
    assert_eq!(lock.held_micros(), u64::MAX);
}

#[test]
fn two_ticks_equal_one_tick_of_their_sum() {
    for (first, second) in [(1_000_000u64, 1_500_000u64), (2_000_000, 1_000_001), (3_000_001, 5)] {
        let mut split = held_lock(GateSide::West, 0);
        let a = split.tick(first);
        let b = split.tick(second);
        let mut whole = held_lock(GateSide::West, 0);
        let c = whole.tick(first + second);
        assert_eq!(split.state(), whole.state());
        assert_eq!(a.is_some() != b.is_some(), c.is_some());
        if a.is_none() {
            assert_eq!(split.held_micros(), whole.held_micros());
        } else {
            assert_eq!(split.held_micros(), first);
        }
        assert_eq!(whole.held_micros(), first + second);
    }
}

#[test]
fn time_stops_for_a_lock_that_has_unlocked() {
    let mut lock = held_lock(GateSide::East, 0);
    assert!(lock.tick(3_000_001).is_some());
    assert_eq!(lock.tick(5), None);
    assert_eq!(lock.held_micros(), 3_000_001);
}

#[test]
fn tint_follows_the_hold() {
    let mut lock = GateLock::new(GateSide::East);
    assert_eq!(lock.tint(), LockTint::Dark);
    lock.on_contact_begin();
    assert_eq!(lock.tint(), LockTint::Charging { progress: 0 });
    assert_eq!(lock.tick(1_500_000), None);
    assert_eq!(lock.tint(), LockTint::Charging { progress: 500_000 });
    assert_eq!(lock.tick(1_000_000), None);
    assert_eq!(lock.tint(), LockTint::Charging { progress: 833_333 });
    assert_eq!(lock.tick(500_000), None);
    assert_eq!(lock.tint(), LockTint::Charging { progress: TINT_SCALE });
    assert!(lock.tick(1).is_some());
    assert_eq!(lock.tint(), LockTint::Done);
}
