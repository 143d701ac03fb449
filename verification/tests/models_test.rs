use mutao::models::ItemStatus::{Archived, Completed, Idle, Matching};
use mutao::models::{ItemStatus, SwapCycle, SwapLeg};
use uuid::Uuid;

fn id(b: u8) -> u128 {
    Uuid::from_bytes([0, 0, 0, 0, 0, 0, 0, 0, 0, 0, 0, 0, 0, 0, 0, b]).as_u128()
}

fn make_swap_leg(from: u8, to: u8, offer: u8, want: u8) -> SwapLeg {
    SwapLeg {
        from_user_id: id(from),
        to_user_id: id(to),
        offer_item_id: id(offer),
        want_item_id: id(want),
    }
}

fn cycle(swaps: Vec<SwapLeg>) -> SwapCycle {
    SwapCycle { id: Uuid::new_v4().as_u128(), swaps, created_at: chrono::Utc::now().timestamp_micros() }
}

#[test]
fn test_swap_cycle_valid_two_person() {
    let c = cycle(vec![make_swap_leg(1, 2, 101, 102), make_swap_leg(2, 1, 102, 101)]);
    assert!(c.is_valid());
}

#[test]
fn test_swap_cycle_valid_three_person() {
    let c = cycle(vec![
        make_swap_leg(1, 2, 101, 102),
        make_swap_leg(2, 3, 102, 103),
        make_swap_leg(3, 1, 103, 101),
    ]);
    assert!(c.is_valid());
}

#[test]
fn test_swap_cycle_invalid_single_leg() {
    let c = cycle(vec![make_swap_leg(1, 2, 101, 102)]);
    assert!(!c.is_valid());
}

#[test]
fn test_swap_cycle_invalid_empty() {
    let c = cycle(vec![]);
    assert!(!c.is_valid());
}

#[test]
fn test_swap_cycle_invalid_broken_chain() {
    let c = cycle(vec![make_swap_leg(1, 2, 101, 102), make_swap_leg(3, 1, 103, 101)]);
    assert!(!c.is_valid());
}

#[test]
fn swap_cycle_last_leg_must_close_the_ring() {
    let c = cycle(vec![
        make_swap_leg(1, 2, 101, 103),
        make_swap_leg(2, 3, 102, 101),
        make_swap_leg(3, 4, 103, 102),
    ]);
    assert!(!c.is_valid());
}

#[test]
fn item_status_allowed_transitions() {
    assert!(Idle.can_transition_to(&Matching));
    assert!(Matching.can_transition_to(&Completed));
    assert!(Matching.can_transition_to(&Idle));
    assert!(Completed.can_transition_to(&Archived));
    assert!(!Idle.can_transition_to(&Archived));
    assert!(!Matching.can_transition_to(&Archived));
    assert!(!Archived.can_transition_to(&Archived));
    assert!(!Idle.can_transition_to(&Completed));
    assert!(!Idle.can_transition_to(&Idle));
    assert!(!Completed.can_transition_to(&Idle));
    assert!(!Archived.can_transition_to(&Idle));
    assert!(!Completed.can_transition_to(&Matching));
}

#[test]
fn item_status_available_transitions_are_allowed() {
    assert_eq!(Idle.available_transitions(), vec![Matching]);
    assert_eq!(Matching.available_transitions(), vec![Completed, Idle]);
    assert_eq!(Completed.available_transitions(), vec![Archived]);
    assert_eq!(Archived.available_transitions(), vec![]);
    for s in [Idle, Matching, Completed, Archived] {
        for t in [Idle, Matching, Completed, Archived] {
            assert_eq!(s.can_transition_to(&t), s.available_transitions().contains(&t));
        }
    }
}

#[test]
fn item_status_name_roundtrip() {
    for s in [ItemStatus::Idle, ItemStatus::Matching, ItemStatus::Completed, ItemStatus::Archived] {
        assert_eq!(ItemStatus::from_name(s.name()), s);
    }
    assert_eq!(ItemStatus::Completed.name(), "Completed");
    assert_eq!(ItemStatus::from_name("nonsense"), ItemStatus::Idle);
    assert_eq!(ItemStatus::from_name("matching"), ItemStatus::Idle);
}
