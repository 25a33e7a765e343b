use mtc_core::{calc_new_ep, update_leaderboard, INITIAL_EP, LEADERBOARD_REAL_SIZE};

fn is_sorted_desc(lb: &[(u16, u32)]) -> bool {
    lb.windows(2).all(|w| w[0].0 >= w[1].0)
}

fn has_unique_accounts(lb: &[(u16, u32)]) -> bool {
    (0..lb.len()).all(|i| (i + 1..lb.len()).all(|j| lb[i].1 != lb[j].1))
}

fn full_leaderboard() -> Vec<(u16, u32)> {
    let mut lb = Vec::new();
    for i in 0..LEADERBOARD_REAL_SIZE as u32 {
        update_leaderboard(&mut lb, 5000 - i as u16 * 10, &i);
    }
    lb
}

#[test]
fn capacity_is_published_plus_surplus() {
    assert_eq!(LEADERBOARD_REAL_SIZE, 130);
}

#[test]
fn first_entry_into_empty_leaderboard() {
    let mut lb: Vec<(u16, u32)> = Vec::new();
    update_leaderboard(&mut lb, 100, &7);
    assert_eq!(lb, vec![(100, 7)]);
}

#[test]
fn decreasing_distinct_reports_fill_up_to_capacity() {
    let mut lb: Vec<(u16, u32)> = Vec::new();
    for i in 0..150u32 {
        update_leaderboard(&mut lb, 10000 - i as u16 * 3, &i);
        assert_eq!(lb.len(), std::cmp::min(i as usize + 1, 130));
        assert!(is_sorted_desc(&lb));
    }
    let expected: Vec<(u16, u32)> = (0..130u32).map(|i| (10000 - i as u16 * 3, i)).collect();
    assert_eq!(lb, expected);
}

#[test]
fn decreasing_distinct_reports_below_capacity() {
    let mut lb: Vec<(u16, u32)> = Vec::new();
    for i in 0..5u32 {
        update_leaderboard(&mut lb, 500 - i as u16, &i);
    }
    assert_eq!(lb, vec![(500, 0), (499, 1), (498, 2), (497, 3), (496, 4)]);
}

#[test]
fn new_highest_rating_goes_to_the_front() {
    let mut lb = vec![(300u16, 1u32), (200, 2), (100, 3)];
    update_leaderboard(&mut lb, 400, &4);
    assert_eq!(lb, vec![(400, 4), (300, 1), (200, 2), (100, 3)]);
}

#[test]
fn new_rating_goes_between() {
    let mut lb = vec![(300u16, 1u32), (200, 2), (100, 3)];
    update_leaderboard(&mut lb, 150, &4);
    assert_eq!(lb, vec![(300, 1), (200, 2), (150, 4), (100, 3)]);
}

#[test]
fn reinserting_existing_account_moves_it_with_new_rating() {
    let mut lb = vec![(300u16, 1u32), (200, 2), (100, 3)];
    update_leaderboard(&mut lb, 250, &3);
    assert_eq!(lb, vec![(300, 1), (250, 3), (200, 2)]);
    update_leaderboard(&mut lb, 50, &1);
    assert_eq!(lb, vec![(250, 3), (200, 2), (50, 1)]);
}

#[test]
fn reinserting_existing_account_never_grows_nor_duplicates() {
    let mut lb = full_leaderboard();
    for (k, ep) in [(5u32, 6000u16), (129, 0), (64, 3000), (0, 4000)] {
        let before = lb.len();
        update_leaderboard(&mut lb, ep, &k);
        assert!(lb.len() <= before);
        assert!(has_unique_accounts(&lb));
        assert!(is_sorted_desc(&lb));
    }
    let mut small = vec![(300u16, 1u32), (200, 2), (100, 3)];
    update_leaderboard(&mut small, 10, &2);
    assert_eq!(small, vec![(300, 1), (100, 3), (10, 2)]);
    assert!(has_unique_accounts(&small));
}

#[test]
fn existing_account_falling_to_the_end_of_a_full_leaderboard_drops_out() {
    let mut lb = full_leaderboard();
    assert_eq!(lb.len(), 130);
    update_leaderboard(&mut lb, 1, &10);
    assert_eq!(lb.len(), 129);
    assert!(lb.iter().all(|e| e.1 != 10));
}

#[test]
fn full_leaderboard_ignores_new_lowest_rating() {
    let mut lb = full_leaderboard();
    let before = lb.clone();
    update_leaderboard(&mut lb, 1, &9999);
    assert_eq!(lb, before);
    let lowest = before.last().unwrap().0;
    update_leaderboard(&mut lb, lowest, &9999);
    assert_eq!(lb, before);
}

#[test]
fn full_leaderboard_discards_the_last_entry_on_insert() {
    let mut lb = full_leaderboard();
    let before = lb.clone();
    update_leaderboard(&mut lb, 6000, &9999);
    assert_eq!(lb.len(), 130);
    assert_eq!(lb[0], (6000, 9999));
    assert_eq!(&lb[1..], &before[..129]);
}

#[test]
fn equal_rating_keeps_report_order() {
    let mut lb = vec![(300u16, 1u32), (100, 3)];
    update_leaderboard(&mut lb, 200, &10);
    update_leaderboard(&mut lb, 200, &11);
    assert_eq!(lb, vec![(300, 1), (200, 10), (200, 11), (100, 3)]);
    let pos = |a: u32| lb.iter().position(|e| e.1 == a).unwrap();
    assert!(pos(10) < pos(11));
}

#[test]
fn new_entry_loses_tie_against_existing() {
    let mut lb = vec![(300u16, 1u32), (200, 2), (100, 3)];
    update_leaderboard(&mut lb, 300, &4);
    assert_eq!(lb, vec![(300, 1), (300, 4), (200, 2), (100, 3)]);
}

#[test]
fn first_place_from_initial_rating_then_ranked() {
    let ep = calc_new_ep(1, INITIAL_EP);
    assert_eq!(ep, 70);
    let mut lb = vec![(90u16, 1u32), (70, 2), (70, 3), (69, 4), (10, 5)];
    update_leaderboard(&mut lb, ep, &6);
    assert_eq!(lb, vec![(90, 1), (70, 2), (70, 3), (70, 6), (69, 4), (10, 5)]);
}
