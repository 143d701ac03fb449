use mutao::matcher::Matcher;
use mutao::models::Demand;
use uuid::Uuid;

fn demand(user: u8, item: u8, offer: Vec<&str>, want: Vec<&str>) -> Demand {
    Demand {
        id: Uuid::new_v4().as_u128(),
        user_id: Uuid::from_bytes([0, 0, 0, 0, 0, 0, 0, 0, 0, 0, 0, 0, 0, 0, 0, user]).as_u128(),
        offer_item_id: Uuid::from_bytes([0, 0, 0, 0, 0, 0, 0, 0, 0, 0, 0, 0, 0, 0, 0, item]).as_u128(),
        offer_tags: offer.into_iter().map(String::from).collect(),
        target_tags: want.into_iter().map(String::from).collect(),
        created_at: chrono::Utc::now().timestamp_micros(),
    }
}

#[test]
fn test_two_person_cycle() {
    let d = vec![
        demand(1, 101, vec!["书籍"], vec!["键盘"]),
        demand(2, 102, vec!["键盘"], vec!["书籍"]),
    ];
    let cycles = Matcher::find_cycles(&d, 4);
    assert_eq!(cycles.len(), 1);
    assert_eq!(cycles[0].swaps.len(), 2);
}

#[test]
fn test_three_person_cycle() {
    let d = vec![
        demand(1, 101, vec!["书籍"], vec!["键盘"]),
        demand(2, 102, vec!["键盘"], vec!["耳机"]),
        demand(3, 103, vec!["耳机"], vec!["书籍"]),
    ];
    let cycles = Matcher::find_cycles(&d, 4);
    assert_eq!(cycles.len(), 1);
    assert_eq!(cycles[0].swaps.len(), 3);
}

#[test]
fn test_no_cycle_single() {
    let d = vec![demand(1, 1, vec!["书籍"], vec!["键盘"])];
    assert!(Matcher::find_cycles(&d, 4).is_empty());
}

#[test]
fn test_no_cycle_mismatch() {
    let d = vec![
        demand(1, 101, vec!["书籍"], vec!["键盘"]),
        demand(2, 102, vec!["书籍"], vec!["耳机"]),
    ];
    assert!(Matcher::find_cycles(&d, 4).is_empty());
}

#[test]
fn test_two_separate_cycles() {
    let d = vec![
        demand(1, 101, vec!["书籍"], vec!["键盘"]),
        demand(2, 102, vec!["键盘"], vec!["书籍"]),
        demand(3, 103, vec!["耳机"], vec!["音箱"]),
        demand(4, 104, vec!["音箱"], vec!["耳机"]),
    ];
    assert_eq!(Matcher::find_cycles(&d, 4).len(), 2);
}

#[test]
fn cycle_legs_hand_items_around_the_ring() {
    let d = vec![
        demand(1, 101, vec!["书籍"], vec!["键盘"]),
        demand(2, 102, vec!["键盘"], vec!["耳机"]),
        demand(3, 103, vec!["耳机"], vec!["书籍"]),
    ];
    let cycles = Matcher::find_cycles(&d, 4);
    let legs = &cycles[0].swaps;
    assert!(cycles[0].is_valid());
    // demand 1 offers a book, which demand 3 wants: 1 gives to 3 and receives from 2.
    assert_eq!(legs[0].from_user_id, d[0].user_id);
    assert_eq!(legs[0].to_user_id, d[2].user_id);
    assert_eq!(legs[0].offer_item_id, d[0].offer_item_id);
    assert_eq!(legs[0].want_item_id, d[1].offer_item_id);
}

#[test]
fn same_user_twice_makes_no_cycle() {
    let d = vec![
        demand(1, 101, vec!["书籍"], vec!["键盘"]),
        demand(1, 102, vec!["键盘"], vec!["书籍"]),
    ];
    assert!(Matcher::find_cycles(&d, 4).is_empty());
}

#[test]
fn cycle_longer_than_limit_is_not_found() {
    let d = vec![
        demand(1, 101, vec!["a"], vec!["c"]),
        demand(2, 102, vec!["b"], vec!["a"]),
        demand(3, 103, vec!["c"], vec!["b"]),
    ];
    assert!(Matcher::find_cycles(&d, 2).is_empty());
    assert_eq!(Matcher::find_cycles(&d, 3).len(), 1);
}

#[test]
fn tags_overlap_compares_whole_tags() {
    let a = vec!["书籍".to_string(), "外设".to_string()];
    let b = vec!["键盘".to_string(), "外设".to_string()];
    let c = vec!["书".to_string()];
    assert!(Matcher::tags_overlap(&a, &b));
    assert!(!Matcher::tags_overlap(&a, &c));
    assert!(!Matcher::tags_overlap(&a, &[]));
}

#[test]
fn cycles_come_in_search_order() {
    let d = vec![
        demand(1, 101, vec!["a"], vec!["b", "c"]),
        demand(2, 102, vec!["b"], vec!["a", "c"]),
        demand(3, 103, vec!["c"], vec!["a", "b"]),
    ];
    let cycles = Matcher::find_cycles(&d, 4);
    let item = |k: u8| d[(k - 1) as usize].offer_item_id;
    let user = |k: u8| d[(k - 1) as usize].user_id;
    let walks: Vec<Vec<u8>> = vec![vec![1, 2], vec![1, 2, 3], vec![1, 3], vec![1, 3, 2], vec![2, 3]];
    assert_eq!(cycles.len(), walks.len());
    for (cycle, walk) in cycles.iter().zip(walks.iter()) {
        let n = walk.len();
        assert_eq!(cycle.swaps.len(), n);
        for i in 0..n {
            let leg = &cycle.swaps[i];
            assert_eq!(leg.from_user_id, user(walk[i]));
            assert_eq!(leg.to_user_id, user(walk[(i + 1) % n]));
            assert_eq!(leg.offer_item_id, item(walk[i]));
            assert_eq!(leg.want_item_id, item(walk[(i + n - 1) % n]));
        }
    }
}

#[test]
fn two_searches_find_the_same_cycles() {
    let d = vec![
        demand(1, 101, vec!["a"], vec!["b", "c"]),
        demand(2, 102, vec!["b"], vec!["a", "c"]),
        demand(3, 103, vec!["c"], vec!["a", "b"]),
        demand(4, 104, vec!["b"], vec!["c"]),
    ];
    let first = Matcher::find_cycles(&d, 4);
    let second = Matcher::find_cycles(&d, 4);
    assert_eq!(first.len(), second.len());
    assert!(!first.is_empty());
    for (x, y) in first.iter().zip(second.iter()) {
        assert_eq!(x.swaps, y.swaps);
        assert_ne!(x.id, y.id);
    }
}
