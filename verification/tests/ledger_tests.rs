use kittyscape_loot::ledger::Balance;
use kittyscape_loot::ledger::CoreError;
use kittyscape_loot::ledger::EventKind;
use kittyscape_loot::ledger::Ledger;
use kittyscape_loot::rank_manager::RankTable;
use kittyscape_loot::rank_manager::RankThreshold;

fn ledger(entries: &[(i64, &str)]) -> Ledger {
    let mut v = Vec::new();
    for (points, name) in entries {
        v.push(RankThreshold { points: *points, role_name: name.to_string() });
    }
    Ledger::new(RankTable::new(v).expect("ascending cutoffs"))
}

fn names(list: &[&str]) -> Vec<String> {
    list.iter().map(|s| s.to_string()).collect()
}

#[test]
fn new_ledger_knows_nobody() {
    let l = ledger(&[(100, "Bronze")]);
    assert!(!l.is_known(7));
    assert_eq!(l.get_balance(7), Balance { points: 0, total_drop_quantity: 0 });
    assert_eq!(l.get_rank_progress(7), ("Unranked".to_string(), Some((100, "Bronze".to_string()))));
}

#[test]
fn record_drop_scores_price_times_quantity() {
    let mut l = ledger(&[(4, "Bronze"), (10, "Silver")]);
    let s = l.record_drop(7, "Dragon bones", 2, Some(250_000), 1000).expect("recorded");
    assert_eq!(s.record_id, 1);
    assert_eq!(s.item, "Dragon bones");
    assert_eq!(s.points_delta, 5);
    assert_eq!(s.update.old_points, 0);
    assert_eq!(s.update.new_points, 5);
    assert_eq!(s.update.crossed_ranks, names(&["Bronze"]));
    assert_eq!(s.update.next_rank, Some((10, "Silver".to_string())));
    assert_eq!(l.get_balance(7), Balance { points: 5, total_drop_quantity: 2 });
    assert!(l.is_known(7));
    assert_eq!(l.get_balance(8), Balance { points: 0, total_drop_quantity: 0 });
}

#[test]
fn record_drop_without_price_is_not_found() {
    let mut l = ledger(&[]);
    assert_eq!(l.record_drop(7, "Nothing", 1, None, 5).err(), Some(CoreError::NotFound));
    assert!(!l.is_known(7));
    assert_eq!(l.get_balance(7).points, 0);
}

#[test]
fn record_drop_overflow_leaves_the_ledger_alone() {
    let mut l = ledger(&[]);
    assert_eq!(l.record_drop(7, "Big", 2, Some(i64::MAX), 5).err(), Some(CoreError::Overflow));
    l.record_priced_drop(7, "Many", i64::MAX, 100_000, 5).expect("recorded");
    assert_eq!(l.record_priced_drop(7, "One more", 1, 0, 6).err(), Some(CoreError::Overflow));
    assert_eq!(l.get_balance(7), Balance { points: 1, total_drop_quantity: i64::MAX });
}

#[test]
fn drops_may_repeat() {
    let mut l = ledger(&[]);
    let a = l.record_drop(7, "Coal", 1, Some(300_000), 1).expect("recorded");
    let b = l.record_drop(7, "Coal", 1, Some(300_000), 1).expect("recorded");
    assert_eq!((a.record_id, b.record_id), (1, 2));
    assert_eq!(l.get_balance(7), Balance { points: 6, total_drop_quantity: 2 });
}

#[test]
fn collection_is_recorded_once() {
    let mut l = ledger(&[(1000, "Bronze")]);
    let s = l.record_collection(7, "Twisted bow", Some(30_000), 111).expect("recorded");
    assert_eq!(s.points_delta, 30_000);
    assert_eq!(s.update.crossed_ranks, names(&["Bronze"]));
    let again = l.record_collection(7, "Twisted bow", Some(30_000), 222);
    assert_eq!(again.err(), Some(CoreError::Duplicate { recorded_at: 111 }));
    let unknown_now = l.record_collection(7, "Twisted bow", None, 333);
    assert_eq!(unknown_now.err(), Some(CoreError::Duplicate { recorded_at: 111 }));
    assert_eq!(l.get_balance(7), Balance { points: 30_000, total_drop_quantity: 0 });
    assert_eq!(l.list_recent(7, EventKind::Collection, 10).len(), 1);
}

#[test]
fn collection_is_per_identity_and_per_item() {
    let mut l = ledger(&[]);
    l.record_collection(7, "Twisted bow", Some(10), 1).expect("recorded");
    l.record_collection(8, "Twisted bow", Some(10), 2).expect("other identity");
    l.record_collection(7, "Twisted Bow", Some(10), 3).expect("other spelling");
    l.record_drop(7, "Twisted bow", 1, Some(0), 4).expect("a drop is no entry");
    assert_eq!(l.get_balance(7).points, 20);
    assert_eq!(l.get_balance(8).points, 10);
}

#[test]
fn collection_without_rarity_is_not_found() {
    let mut l = ledger(&[]);
    assert_eq!(l.record_collection(7, "Mystery", None, 1).err(), Some(CoreError::NotFound));
    assert!(!l.is_known(7));
}

#[test]
fn removal_gives_the_points_back() {
    let mut l = ledger(&[(5, "Bronze"), (8, "Silver"), (20, "Gold")]);
    l.record_drop(7, "Ash", 1, Some(300_000), 1).expect("recorded");
    let before = l.get_balance(7);
    let s = l.record_drop(7, "Whip", 4, Some(200_000), 2).expect("recorded");
    assert_eq!(s.points_delta, 8);
    assert_eq!(s.update.crossed_ranks, names(&["Bronze", "Silver"]));
    let r = l.remove_event(7, s.record_id).expect("removed");
    assert_eq!(r.points_delta, -8);
    assert_eq!(r.item, "Whip");
    assert_eq!(r.update.old_points, 11);
    assert_eq!(r.update.new_points, 3);
    assert_eq!(r.update.crossed_ranks, names(&["Silver", "Bronze"]));
    assert_eq!(r.update.next_rank, Some((5, "Bronze".to_string())));
    assert_eq!(l.get_balance(7), before);
}

#[test]
fn removal_needs_the_owner_and_an_existing_record() {
    let mut l = ledger(&[]);
    let s = l.record_drop(7, "Whip", 1, Some(800_000), 2).expect("recorded");
    assert_eq!(l.remove_event(8, s.record_id).err(), Some(CoreError::NotOwned));
    assert_eq!(l.remove_event(7, 99).err(), Some(CoreError::NotOwned));
    assert_eq!(l.get_balance(7).points, 8);
    l.remove_event(7, s.record_id).expect("removed");
    assert_eq!(l.remove_event(7, s.record_id).err(), Some(CoreError::NotOwned));
    assert_eq!(l.get_balance(7), Balance { points: 0, total_drop_quantity: 0 });
}

#[test]
fn removed_collection_can_be_recorded_again() {
    let mut l = ledger(&[]);
    let s = l.record_collection(7, "Pet", Some(500), 1).expect("recorded");
    l.remove_event(7, s.record_id).expect("removed");
    assert_eq!(l.get_balance(7).points, 0);
    let t = l.record_collection(7, "Pet", Some(500), 2).expect("recorded again");
    assert_eq!(t.record_id, 2);
}

#[test]
fn removal_overflow_is_refused() {
    let mut l = ledger(&[]);
    l.record_collection(7, "Up", Some(i64::MAX), 1).expect("recorded");
    let down = l.record_collection(7, "Down", Some(-5), 2).expect("recorded");
    l.record_collection(7, "Up again", Some(5), 3).expect("recorded");
    assert_eq!(l.remove_event(7, down.record_id).err(), Some(CoreError::Overflow));
    assert_eq!(l.get_balance(7).points, i64::MAX);
}

#[test]
fn balance_is_the_sum_of_the_records_left() {
    let mut l = ledger(&[(3, "Bronze")]);
    let a = l.record_drop(1, "A", 1, Some(100_000), 1).expect("recorded");
    let b = l.record_drop(1, "B", 2, Some(100_000), 2).expect("recorded");
    let c = l.record_collection(1, "C", Some(40), 3).expect("recorded");
    let d = l.record_drop(2, "D", 3, Some(500_000), 4).expect("recorded");
    assert_eq!(l.get_balance(1), Balance { points: 43, total_drop_quantity: 3 });
    assert_eq!(l.get_balance(2), Balance { points: 15, total_drop_quantity: 3 });
    l.remove_event(1, b.record_id).expect("removed");
    assert_eq!(l.get_balance(1), Balance { points: 41, total_drop_quantity: 1 });
    l.remove_event(1, c.record_id).expect("removed");
    assert_eq!(l.get_balance(1), Balance { points: 1, total_drop_quantity: 1 });
    l.remove_event(2, d.record_id).expect("removed");
    l.remove_event(1, a.record_id).expect("removed");
    assert_eq!(l.get_balance(1), Balance { points: 0, total_drop_quantity: 0 });
    assert_eq!(l.get_balance(2), Balance { points: 0, total_drop_quantity: 0 });
}

#[test]
fn links_resolve_without_case() {
    let mut l = ledger(&[]);
    assert!(l.link(7, "Zezima"));
    assert!(!l.link(7, "zezima"));
    assert!(l.link(8, "ZEZIMA"));
    assert!(l.link(7, "Alt"));
    assert_eq!(l.resolve("zezima"), vec![7, 8]);
    assert_eq!(l.resolve("alt"), vec![7]);
    assert_eq!(l.resolve("nobody"), Vec::<u64>::new());
    assert!(l.is_known(7));
    assert!(l.unlink(7, "ZeZiMa"));
    assert!(!l.unlink(7, "Zezima"));
    assert_eq!(l.resolve("Zezima"), vec![8]);
}

#[test]
fn rank_progress_names_the_rank_held() {
    let mut l = ledger(&[(5, "Bronze"), (8, "Silver")]);
    l.record_drop(7, "Whip", 1, Some(600_000), 2).expect("recorded");
    assert_eq!(l.get_rank_progress(7), ("Bronze".to_string(), Some((8, "Silver".to_string()))));
    l.record_drop(7, "Whip", 1, Some(600_000), 2).expect("recorded");
    assert_eq!(l.get_rank_progress(7), ("Silver".to_string(), None));
}

#[test]
fn list_recent_is_newest_first_and_limited() {
    let mut l = ledger(&[]);
    l.record_drop(7, "first", 1, Some(1), 10).expect("recorded");
    l.record_drop(7, "second", 1, Some(1), 30).expect("recorded");
    l.record_collection(7, "entry", Some(5), 40).expect("recorded");
    l.record_drop(8, "other", 1, Some(1), 50).expect("recorded");
    l.record_drop(7, "third", 1, Some(1), 20).expect("recorded");
    l.record_drop(7, "fourth", 1, Some(1), 30).expect("recorded");
    let all: Vec<String> =
        l.list_recent(7, EventKind::Drop, 10).into_iter().map(|r| r.item).collect();
    assert_eq!(all, names(&["fourth", "second", "third", "first"]));
    let two: Vec<u64> = l.list_recent(7, EventKind::Drop, 2).into_iter().map(|r| r.id).collect();
    assert_eq!(two, vec![6, 2]);
    assert!(l.list_recent(7, EventKind::Drop, 0).is_empty());
    assert!(l.list_recent(9, EventKind::Drop, 5).is_empty());
    let entries = l.list_recent(7, EventKind::Collection, 5);
    assert_eq!(entries.len(), 1);
    assert_eq!(entries[0].points, 5);
    assert_eq!(entries[0].created_at, 40);
    assert_eq!(entries[0].quantity, 0);
}
