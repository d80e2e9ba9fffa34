use keenwatch::events::UnlockEvents;
use keenwatch::gate::{Gate, GateState, DEFAULT_REQUIRED_COUNT, OPEN_DURATION};
use keenwatch::lock::GateLockUnlockEvent;
use keenwatch::side::GateSide;

fn opening_gate(side: GateSide) -> Gate {
    let mut gate = Gate::new(side, 1);
    gate.receive_unlock(side);
    assert_eq!(gate.state(), GateState::Opening);
    gate
}

#[test]
fn new_gate_is_closed() {
    let gate = Gate::new(GateSide::West, 3);
    assert_eq!(gate.state(), GateState::Closed);
    assert_eq!(gate.side(), GateSide::West);
    assert_eq!(gate.unlocked_count(), 0);
    assert_eq!(gate.required_count(), 3);
    assert_eq!(gate.opening_elapsed(), 0);
    assert_eq!(gate.descent(15_000), 0);
}

#[test]
fn default_gate_asks_for_two_locks_in_the_east() {
    let gate = Gate::default();
    assert_eq!(gate.state(), GateState::Closed);
    assert_eq!(gate.side(), GateSide::East);
    assert_eq!(gate.required_count(), 2);
    assert_eq!(DEFAULT_REQUIRED_COUNT, 2);
    assert_eq!(GateState::default(), GateState::Closed);
}

#[test]
fn open_duration_is_four_seconds() {
    assert_eq!(OPEN_DURATION, 4_000_000);
}

#[test]
fn gate_opens_upon_the_second_of_two_events() {
    let mut gate = Gate::new(GateSide::East, 2);
    gate.receive_unlock(GateSide::East);
    assert_eq!(gate.state(), GateState::Closed);
    assert_eq!(gate.unlocked_count(), 1);
    gate.receive_unlock(GateSide::East);
    assert_eq!(gate.state(), GateState::Opening);
    assert_eq!(gate.unlocked_count(), 2);
    assert_eq!(gate.opening_elapsed(), 0);
    gate.receive_unlock(GateSide::East);
    assert_eq!(gate.state(), GateState::Opening);
    assert_eq!(gate.unlocked_count(), 3);
}

#[test]
fn third_event_does_not_restart_the_descent() {
    let mut gate = Gate::new(GateSide::East, 2);
    gate.receive_unlock(GateSide::East);
    gate.receive_unlock(GateSide::East);
    gate.tick(1_000_000);
    gate.receive_unlock(GateSide::East);
    assert_eq!(gate.state(), GateState::Opening);
    assert_eq!(gate.opening_elapsed(), 1_000_000);
}

#[test]
fn event_for_another_side_is_ignored() {
    let mut gate = Gate::new(GateSide::East, 2);
    gate.receive_unlock(GateSide::West);
    gate.receive_unlock(GateSide::West);
    gate.receive_unlock(GateSide::West);
    assert_eq!(gate.state(), GateState::Closed);
    assert_eq!(gate.unlocked_count(), 0);
    gate.receive_unlock(GateSide::East);
    gate.receive_unlock(GateSide::West);
    assert_eq!(gate.unlocked_count(), 1);
    assert_eq!(gate.state(), GateState::Closed);
}

#[test]
fn gate_that_asks_for_nothing_never_opens() {
    let mut gate = Gate::new(GateSide::East, 0);
    for _ in 0..5 {
        gate.receive_unlock(GateSide::East);
        gate.tick(10_000_000);
    }
    assert_eq!(gate.state(), GateState::Closed);
    assert_eq!(gate.unlocked_count(), 5);
}

#[test]
fn time_does_not_run_on_a_closed_gate() {
    let mut gate = Gate::new(GateSide::East, 2);
    gate.tick(10_000_000);
    assert_eq!(gate.state(), GateState::Closed);
    assert_eq!(gate.opening_elapsed(), 0);
    assert_eq!(gate.descent(15_000), 0);
}

#[test]
fn gate_is_open_after_more_than_four_seconds() {
    let mut gate = opening_gate(GateSide::East);
    for _ in 0..401 {
        gate.tick(10_000);
    }
    assert_eq!(gate.state(), GateState::Open);
    assert_eq!(gate.descent(15_000), 15_000);
}

#[test]
fn gate_is_still_opening_just_short_of_four_seconds() {
    let mut gate = opening_gate(GateSide::East);
    for _ in 0..399 {
        gate.tick(10_000);
    }
    assert_eq!(gate.state(), GateState::Opening);
    assert_eq!(gate.opening_elapsed(), 3_990_000);
    assert_eq!(gate.descent(15_000), 14_962);
    assert_eq!(gate.descent(4_000), 3_990);
}

#[test]
fn gate_at_exactly_four_seconds_is_down_but_not_yet_open() {
    let mut gate = opening_gate(GateSide::West);
    gate.tick(4_000_000);
    assert_eq!(gate.state(), GateState::Opening);
    assert_eq!(gate.descent(15_000), 15_000);
    gate.tick(1);
    assert_eq!(gate.state(), GateState::Open);
    assert_eq!(gate.opening_elapsed(), OPEN_DURATION + 1);
    assert_eq!(gate.descent(15_000), 15_000);
}

#[test]
fn tick_adds_to_the_opening_time_whether_or_not_it_opens() {
    for (elapsed, dt) in [(0u64, 0u64), (0, 4_000_000), (3_990_000, 20_000), (1_000_000, 9_000_000)] {
        let mut gate = opening_gate(GateSide::West);
        gate.tick(elapsed);
        gate.tick(dt);
        assert_eq!(gate.opening_elapsed(), elapsed + dt);
        assert_eq!(gate.state() == GateState::Open, elapsed + dt > OPEN_DURATION);
    }
}

#[test]
fn longest_possible_gate_tick_opens_without_overflow() {
    let mut gate = opening_gate(GateSide::East);
    gate.tick(3_999_999);
    gate.tick(u64::MAX);
    assert_eq!(gate.state(), GateState::Open);
    assert_eq!(gate.opening_elapsed(), u64::MAX);
    assert_eq!(gate.descent(15_000), 15_000);
    assert_eq!(gate.descent(u64::MAX), u64::MAX);
}

#[test]
fn open_gate_stays_open() {
    let mut gate = opening_gate(GateSide::East);
    gate.tick(4_000_001);
    assert_eq!(gate.state(), GateState::Open);
    gate.tick(u64::MAX);
    gate.receive_unlock(GateSide::East);
    gate.receive_unlock(GateSide::West);
    assert_eq!(gate.state(), GateState::Open);
    assert_eq!(gate.opening_elapsed(), 4_000_001);
    assert_eq!(gate.descent(15_000), 15_000);
    assert_eq!(gate.unlocked_count(), 2);
}

#[test]
fn descent_is_the_share_of_the_height() {
    let mut gate = opening_gate(GateSide::East);
    gate.tick(1_000_000);
    assert_eq!(gate.descent(15_000), 3_750);
    assert_eq!(gate.descent(0), 0);
    assert_eq!(gate.descent(3), 0);
    assert_eq!(gate.descent(u64::MAX), u64::MAX / 4);
    gate.tick(2_000_000);
    assert_eq!(gate.descent(15_000), 11_250);
    assert_eq!(gate.descent(u64::MAX), 13_835_058_055_282_163_711);
}

#[test]
fn two_gate_ticks_equal_one_tick_of_their_sum() {
    for (first, second) in [(1_000_000u64, 2_500_000u64), (3_999_999, 2), (4_000_001, 7)] {
        let mut split = opening_gate(GateSide::East);
        split.tick(first);
        split.tick(second);
        let mut whole = opening_gate(GateSide::East);
        whole.tick(first + second);
        assert_eq!(split.state(), whole.state());
        assert_eq!(split.descent(15_000), whole.descent(15_000));
        if first <= OPEN_DURATION {
            assert_eq!(split.opening_elapsed(), whole.opening_elapsed());
        } else {
            assert_eq!(split.opening_elapsed(), first);
        }
        assert_eq!(whole.opening_elapsed(), first + second);
    }
}

#[test]
fn order_of_events_does_not_matter() {
    let east = GateLockUnlockEvent { side: GateSide::East };
    let west = GateLockUnlockEvent { side: GateSide::West };
    let orders = [
        [east, west, east],
        [west, east, east],
        [east, east, west],
    ];
    for order in orders {
        let mut gates = vec![Gate::new(GateSide::East, 2), Gate::new(GateSide::West, 2)];
        let mut events = UnlockEvents::new();
        for event in order {
            events.send(event);
        }
        events.deliver(&mut gates);
        assert_eq!(gates[0].state(), GateState::Opening);
        assert_eq!(gates[0].unlocked_count(), 2);
        assert_eq!(gates[1].state(), GateState::Closed);
        assert_eq!(gates[1].unlocked_count(), 1);
    }
}
