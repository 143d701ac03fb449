use mutao::models::{ItemStatus, SwapCycle, SwapLeg};
use mutao::store::{item_from_row, restore_cycles, stored_value_tier};

#[test]
fn item_rows_read_back() {
    let item = item_from_row(1, 2, "t".into(), "d".into(), "".into(), vec!["x".into()], 3, "Matching", 9);
    assert_eq!(item.status, ItemStatus::Matching);
    assert_eq!(item.value_tier, 3);
    let other = item_from_row(1, 2, "t".into(), "d".into(), "".into(), vec![], 260, "weird", 9);
    assert_eq!(other.status, ItemStatus::Idle);
    assert_eq!(other.value_tier, 4);
    assert_eq!(stored_value_tier(200), 200);
}

#[test]
fn cycle_rows_read_back() {
    let leg = SwapLeg { from_user_id: 1, to_user_id: 2, offer_item_id: 3, want_item_id: 4 };
    let rows = vec![
        (10, Some(SwapCycle { id: 99, swaps: vec![leg, leg], created_at: 0 })),
        (11, None),
        (12, Some(SwapCycle { id: 98, swaps: vec![leg], created_at: 0 })),
    ];
    let cycles = restore_cycles(rows);
    assert_eq!(cycles.len(), 2);
    assert_eq!(cycles[0].id, 10);
    assert_eq!(cycles[0].swaps.len(), 2);
    assert_eq!(cycles[1].id, 12);
}
