use kittyscape_loot::command_handler::handle_stats;
use kittyscape_loot::command_handler::choice_label;
use kittyscape_loot::command_handler::removal_list;
use kittyscape_loot::command_handler::handle_rsnames;
use kittyscape_loot::command_handler::handle_leaderboard;
use kittyscape_loot::ledger::Standing;
use kittyscape_loot::text::format_count;
use kittyscape_loot::text::join_with;
use kittyscape_loot::collection_log::CollectionItem;
use kittyscape_loot::collection_log::CollectionLogData;
use kittyscape_loot::command_handler::clog_removed_reply;
use kittyscape_loot::command_handler::drop_removed_reply;
use kittyscape_loot::command_handler::duplicate_reply;
use kittyscape_loot::command_handler::handle_clog;
use kittyscape_loot::command_handler::handle_clog_remove;
use kittyscape_loot::command_handler::handle_drop;
use kittyscape_loot::command_handler::handle_drop_remove;
use kittyscape_loot::command_handler::handle_points;
use kittyscape_loot::command_handler::handle_rsname;
use kittyscape_loot::command_handler::handle_rsname_remove;
use kittyscape_loot::command_handler::recorded_reply;
use kittyscape_loot::ledger::CoreError;
use kittyscape_loot::ledger::EventKind;
use kittyscape_loot::ledger::EventRecord;
use kittyscape_loot::ledger::Ledger;
use kittyscape_loot::prices::ItemMapping;
use kittyscape_loot::prices::ItemPrice;
use kittyscape_loot::prices::LatestPrices;
use kittyscape_loot::prices::PriceData;
use kittyscape_loot::rank_manager::comma_join;
use kittyscape_loot::rank_manager::evaluate;
use kittyscape_loot::rank_manager::RankTable;
use kittyscape_loot::rank_manager::RankThreshold;
use kittyscape_loot::runescape_tracker::Embed;
use kittyscape_loot::runescape_tracker::FeedEvent;
use kittyscape_loot::text::contains_chars;
use kittyscape_loot::text::number_text;
use kittyscape_loot::text::suggest;
use kittyscape_loot::text::unsigned_text;

fn ranks(entries: &[(i64, &str)]) -> RankTable {
    let mut v = Vec::new();
    for (points, name) in entries {
        v.push(RankThreshold { points: *points, role_name: name.to_string() });
    }
    RankTable::new(v).expect("ascending cutoffs")
}

fn prices(entries: &[(i64, &str, i64)]) -> PriceData {
    let mut mappings = Vec::new();
    let mut data = Vec::new();
    for (id, name, low) in entries {
        mappings.push(ItemMapping {
            examine: None,
            id: *id,
            members: None,
            low_alch: None,
            limit: None,
            value: None,
            high_alch: None,
            icon: None,
            name: name.to_string(),
        });
        data.push((
            id.to_string(),
            ItemPrice { high: None, high_time: None, low: Some(*low), low_time: None },
        ));
    }
    let mut table = PriceData::new(mappings);
    table.update_prices(&LatestPrices { data });
    table
}

fn log(entries: &[(&str, i64)]) -> CollectionLogData {
    CollectionLogData {
        items: entries
            .iter()
            .map(|(name, points)| CollectionItem { name: name.to_string(), points: *points })
            .collect(),
    }
}

fn strings(list: &[&str]) -> Vec<String> {
    list.iter().map(|s| s.to_string()).collect()
}

#[test]
fn plain_numbers_have_no_separators() {
    assert_eq!(number_text(0), "0");
    assert_eq!(number_text(-1234567), "-1234567");
    assert_eq!(number_text(i64::MIN), i64::MIN.to_string());
    assert_eq!(unsigned_text(u64::MAX), u64::MAX.to_string());
    assert_eq!(unsigned_text(10), "10");
}

#[test]
fn comma_join_separates_names() {
    assert_eq!(comma_join(&strings(&[])), "");
    assert_eq!(comma_join(&strings(&["a"])), "a");
    assert_eq!(comma_join(&strings(&["a", "b", "c"])), "a, b, c");
}

#[test]
fn drop_command_records_and_answers() {
    let mut l = Ledger::new(ranks(&[(5, "Bronze"), (50, "Silver")]));
    let table = prices(&[(1, "Abyssal whip", 250_000)]);
    let out = handle_drop(&mut l, &table, 7, "Ann", "Abyssal whip", Some(2), 100);
    let s = out.result.expect("recorded");
    assert_eq!(s.points_delta, 5);
    assert_eq!(
        out.reply.as_deref(),
        Some("🎆 🎇 **RANK UP!** 🎇 🎆\nDrop recorded: 2x Abyssal whip (500,000 gp) (+5 points)! You now have 5 points and achieved the Bronze rank! Next rank at 50 points for Silver!")
    );
    assert_eq!(
        out.log,
        Some(("ADDED DROP".to_string(), "2x Abyssal whip (500,000 gp)".to_string()))
    );
    assert_eq!(
        out.alert.as_deref(),
        Some("🎉 **Rank Up Alert!**\nAnn has reached 5 points and is ready for the Bronze rank!")
    );
    let next = handle_drop(&mut l, &table, 7, "Ann", "Abyssal whip", None, 101);
    assert_eq!(
        next.reply.as_deref(),
        Some("Drop recorded: 1x Abyssal whip (250,000 gp) (+2 points)! You now have 7 points. Next rank at 50 points for Silver!")
    );
    assert_eq!(next.alert, None);
    assert_eq!(l.get_balance(7).total_drop_quantity, 3);
}

#[test]
fn drop_command_at_the_top_rank_names_no_next_rank() {
    let mut l = Ledger::new(ranks(&[(1, "Bronze")]));
    let table = prices(&[(1, "Gem", 1_000_000)]);
    handle_drop(&mut l, &table, 7, "Ann", "Gem", Some(1), 1);
    let out = handle_drop(&mut l, &table, 7, "Ann", "Gem", Some(1234), 2);
    assert_eq!(
        out.reply.as_deref(),
        Some("Drop recorded: 1,234x Gem (1,234,000,000 gp) (+12,340 points)! You now have 12,350 points!")
    );
    let first = Ledger::new(ranks(&[(1, "Bronze")]));
    let mut l2 = first;
    let up = handle_drop(&mut l2, &table, 8, "Bob", "Gem", Some(1), 1);
    assert_eq!(
        up.reply.as_deref(),
        Some("🎆 🎇 **RANK UP!** 🎇 🎆\nDrop recorded: 1x Gem (1,000,000 gp) (+10 points)! You now have 10 points and achieved the Bronze rank!")
    );
}

#[test]
fn drop_command_refuses_unknown_items_and_overflow() {
    let mut l = Ledger::new(ranks(&[]));
    let table = prices(&[(1, "Gem", i64::MAX)]);
    let out = handle_drop(&mut l, &table, 7, "Ann", "Rock", Some(1), 1);
    assert_eq!(out.result.err(), Some(CoreError::NotFound));
    assert_eq!(out.reply.as_deref(), Some("Item 'Rock' not found in price database."));
    assert_eq!(out.log, None);
    assert_eq!(out.alert, None);
    let big = handle_drop(&mut l, &table, 7, "Ann", "Gem", Some(2), 1);
    assert_eq!(big.result.err(), Some(CoreError::Overflow));
    assert_eq!(big.reply.as_deref(), Some("That drop is too large to record."));
    assert!(!l.is_known(7));
}

#[test]
fn clog_command_records_once() {
    let mut l = Ledger::new(ranks(&[(100, "Bronze"), (200, "Silver"), (300, "Gold")]));
    let items = log(&[("Twisted bow", 33541), ("Pet", 268)]);
    let out = handle_clog(&mut l, &items, 7, "Ann", "Twisted bow", 500);
    assert_eq!(out.result.as_ref().map(|s| s.points_delta), Ok(33541));
    assert_eq!(
        out.reply.as_deref(),
        Some("🎆 🎇 **RANK UP!** 🎇 🎆\nCollection log entry recorded: Twisted bow (+33,541 points)! You now have 33,541 points and achieved the Bronze, Silver, and Gold ranks!")
    );
    assert_eq!(out.log, Some(("ADDED CLOG".to_string(), "Twisted bow (33,541 pts)".to_string())));
    assert_eq!(
        out.alert.as_deref(),
        Some("🎉 **Multiple Rank Up Alert!**\nAnn has reached 33,541 points and is ready for the Bronze, Silver, and Gold ranks!")
    );
    let again = handle_clog(&mut l, &items, 7, "Ann", "Twisted bow", 900);
    assert_eq!(again.result.err(), Some(CoreError::Duplicate { recorded_at: 500 }));
    assert_eq!(again.reply, None);
    assert_eq!(again.log, None);
    assert_eq!(l.get_balance(7).points, 33541);
    assert_eq!(l.list_recent(7, EventKind::Collection, 10).len(), 1);
    let unknown = handle_clog(&mut l, &items, 7, "Ann", "Rock", 900);
    assert_eq!(unknown.result.err(), Some(CoreError::NotFound));
    assert_eq!(unknown.reply.as_deref(), Some("Item 'Rock' not found in collection log."));
    assert_eq!(
        duplicate_reply("Twisted bow", "March 01, 2025 at 10:00 UTC"),
        "You've already logged Twisted bow in your collection log on March 01, 2025 at 10:00 UTC!"
    );
}

#[test]
fn recorded_reply_without_ranks() {
    let t = ranks(&[]);
    assert_eq!(
        recorded_reply("Collection log entry recorded: Pet", 268, &evaluate(0, 268, &t)),
        "Collection log entry recorded: Pet (+268 points)! You now have 268 points!"
    );
}

#[test]
fn drop_remove_command_compensates() {
    let mut l = Ledger::new(ranks(&[(5, "Bronze"), (8, "Silver")]));
    let table = prices(&[(1, "Whip", 200_000), (2, "Ash", 50)]);
    let none = handle_drop_remove(&mut l, 7, "Ann", 1);
    assert_eq!(none.result.err(), Some(CoreError::NotOwned));
    assert_eq!(none.reply.as_deref(), Some("You don't have any recorded drops to remove."));
    let rec = handle_drop(&mut l, &table, 7, "Ann", "Whip", Some(4), 1).result.expect("recorded");
    let cheap = handle_drop(&mut l, &table, 7, "Ann", "Ash", Some(3), 2).result.expect("recorded");
    let missing = handle_drop_remove(&mut l, 7, "Ann", 99);
    assert_eq!(missing.reply.as_deref(), Some("No drop found with ID 99."));
    let other = handle_drop_remove(&mut l, 8, "Bob", rec.record_id);
    assert_eq!(other.reply.as_deref(), Some("You don't have any recorded drops to remove."));
    let free = handle_drop_remove(&mut l, 7, "Ann", cheap.record_id);
    assert_eq!(free.reply.as_deref(), Some("Drop removed: 3x Ash (150 gp). No points were deducted."));
    assert_eq!(
        free.log,
        Some(("REMOVED DROP".to_string(), "3x Ash (150 gp) [ID: 2]".to_string()))
    );
    let out = handle_drop_remove(&mut l, 7, "Ann", rec.record_id);
    assert_eq!(out.result.as_ref().map(|s| s.points_delta), Ok(-8));
    assert_eq!(
        out.reply.as_deref(),
        Some("Drop removed: 4x Whip (800,000 gp). 8 points have been deducted from your total.\n⬇️ **RANK DOWN!** ⬇️\nYou have lost the Silver and Bronze ranks.")
    );
    assert_eq!(
        out.alert.as_deref(),
        Some("⬇️ **Multiple Rank Down Alert!**\nAnn is now at 0 points and has lost the Silver and Bronze ranks.")
    );
    assert_eq!(l.get_balance(7).points, 0);
    assert_eq!(l.get_balance(7).total_drop_quantity, 0);
}

#[test]
fn remove_commands_keep_to_their_kind() {
    let mut l = Ledger::new(ranks(&[(100, "Bronze")]));
    let items = log(&[("Pet", 268)]);
    let table = prices(&[(1, "Whip", 200_000)]);
    let entry = handle_clog(&mut l, &items, 7, "Ann", "Pet", 1).result.expect("recorded");
    let wrong = handle_drop_remove(&mut l, 7, "Ann", entry.record_id);
    assert_eq!(wrong.result.err(), Some(CoreError::NotOwned));
    assert_eq!(wrong.reply.as_deref(), Some("You don't have any recorded drops to remove."));
    let dropped = handle_drop(&mut l, &table, 7, "Ann", "Whip", None, 2).result.expect("recorded");
    let wrong = handle_clog_remove(&mut l, 7, "Ann", dropped.record_id);
    assert_eq!(wrong.reply.as_deref(), Some("No collection log entry found with ID 2."));
    assert_eq!(l.get_balance(7).points, 270);
    let out = handle_clog_remove(&mut l, 7, "Ann", entry.record_id);
    assert_eq!(
        out.reply.as_deref(),
        Some("Collection log entry removed: Pet (268 pts). Points have been deducted from your total.\n⬇️ **RANK DOWN!** ⬇️\nYou have lost the Bronze rank.")
    );
    assert_eq!(out.log, Some(("REMOVED CLOG".to_string(), "Pet (268 pts) [ID: 1]".to_string())));
    assert_eq!(l.get_balance(7).points, 2);
    let empty = handle_clog_remove(&mut l, 7, "Ann", entry.record_id);
    assert_eq!(
        empty.reply.as_deref(),
        Some("You don't have any recorded collection log entries to remove.")
    );
}

#[test]
fn removal_replies_by_points() {
    assert_eq!(
        drop_removed_reply(2, "Coal", 300_000, 3, &strings(&[])),
        "Drop removed: 2x Coal (300,000 gp). 3 points have been deducted from your total."
    );
    assert_eq!(
        clog_removed_reply("Pet", 0, &strings(&[])),
        "Collection log entry removed: Pet (0 pts). No points were deducted."
    );
    assert_eq!(
        clog_removed_reply("Pet", 1500, &strings(&[])),
        "Collection log entry removed: Pet (1500 pts). Points have been deducted from your total."
    );
}

#[test]
fn points_command_reports_the_balance() {
    let mut l = Ledger::new(ranks(&[]));
    assert_eq!(handle_points(&l, 7), "You haven't recorded any drops yet!");
    l.record_drop(7, "Whip", 1500, Some(2_000_000), 1).expect("recorded");
    assert_eq!(handle_points(&l, 7), "You have 30000 points from 1500 total drops!");
    l.link(8, "Bob");
    assert_eq!(handle_points(&l, 8), "You have 0 points from 0 total drops!");
}

#[test]
fn link_commands_answer_with_the_linked_handles() {
    let mut l = Ledger::new(ranks(&[]));
    let first = handle_rsname(&mut l, 7, "Zezima");
    assert!(first.changed);
    assert_eq!(
        first.reply,
        "Successfully linked RuneScape account 'Zezima' to your Discord account.\n\nYour linked accounts: Zezima"
    );
    assert_eq!(first.log, Some(("LINKED RSNAME".to_string(), "Zezima".to_string())));
    let again = handle_rsname(&mut l, 7, "zezima");
    assert!(!again.changed);
    assert_eq!(
        again.reply,
        "This RuneScape account is already linked to your Discord account.\n\nYour linked accounts: Zezima"
    );
    handle_rsname(&mut l, 8, "Other");
    handle_rsname(&mut l, 7, "Alt");
    assert_eq!(l.linked_handles(7), strings(&["Zezima", "Alt"]));
    let gone = handle_rsname_remove(&mut l, 7, "ZEZIMA");
    assert!(gone.changed);
    assert_eq!(
        gone.reply,
        "Successfully unlinked RuneScape account 'ZEZIMA' from your Discord account.\n\nYour remaining linked accounts: Alt"
    );
    assert_eq!(gone.log, Some(("UNLINKED RSNAME".to_string(), "ZEZIMA".to_string())));
    let absent = handle_rsname_remove(&mut l, 7, "Zezima");
    assert!(!absent.changed);
    assert_eq!(
        absent.reply,
        "This RuneScape account is not linked to your Discord account.\n\nYour linked accounts: Alt"
    );
    assert_eq!(absent.log, None);
    let last = handle_rsname_remove(&mut l, 7, "alt");
    assert_eq!(
        last.reply,
        "Successfully unlinked RuneScape account 'alt' from your Discord account.\n\nYou have no more linked accounts."
    );
    let nothing = handle_rsname_remove(&mut l, 7, "alt");
    assert_eq!(
        nothing.reply,
        "This RuneScape account is not linked to your Discord account.\n\nYou have no linked accounts."
    );
}

#[test]
fn feed_drop_is_applied_to_every_linked_identity() {
    let mut l = Ledger::new(ranks(&[(5, "Bronze")]));
    l.link(7, "Bob");
    l.link(8, "BOB");
    l.link(9, "Ann");
    let items = log(&[]);
    let out = l
        .ingest_feed_message("bob received: Abyssal whip (2x) (1,250,000 coins)", &vec![], &items, 50)
        .expect("an event");
    assert_eq!(out.len(), 2);
    assert_eq!(out[0].0, 7);
    assert_eq!(out[1].0, 8);
    let first = out[0].1.as_ref().expect("recorded");
    assert_eq!(first.points_delta, 12);
    assert_eq!(first.item, "Abyssal whip");
    assert_eq!(first.update.crossed_ranks, strings(&["Bronze"]));
    assert_eq!(l.get_balance(7).points, 12);
    assert_eq!(l.get_balance(7).total_drop_quantity, 2);
    assert_eq!(l.get_balance(8).points, 12);
    assert_eq!(l.get_balance(9).points, 0);
    let recent = l.list_recent(8, EventKind::Drop, 5);
    assert_eq!(recent[0].value, 1_250_000);
    assert_eq!(recent[0].created_at, 50);
}

#[test]
fn feed_collection_is_deduplicated_per_identity() {
    let mut l = Ledger::new(ranks(&[]));
    l.link(7, "Bob");
    l.link(8, "Bob");
    let items = log(&[("Pet", 268)]);
    l.record_collection(8, "Pet", Some(268), 10).expect("recorded");
    let out = l
        .ingest_feed_message("Bob received a collection log item: Pet", &vec![], &items, 20)
        .expect("an event");
    assert_eq!(out.len(), 2);
    assert_eq!(out[0].1.as_ref().map(|s| s.points_delta), Ok(268));
    assert_eq!(out[1].1.as_ref().err(), Some(&CoreError::Duplicate { recorded_at: 10 }));
    assert_eq!(l.get_balance(7).points, 268);
    assert_eq!(l.get_balance(8).points, 268);
    let unknown = l
        .ingest_feed_message("Bob received a collection log item: Rock", &vec![], &items, 30)
        .expect("an event");
    assert_eq!(unknown[0].1.as_ref().err(), Some(&CoreError::NotFound));
}

#[test]
fn feed_message_without_event_or_link_changes_nothing() {
    let mut l = Ledger::new(ranks(&[]));
    l.link(7, "Bob");
    let items = log(&[]);
    assert!(l.ingest_feed_message("hello", &Vec::<Embed>::new(), &items, 1).is_none());
    let out = l
        .ingest_feed_message("Nobody received: Coal (100,000 coins)", &vec![], &items, 1)
        .expect("an event");
    assert!(out.is_empty());
    let event = FeedEvent::Drop {
        handle: "BOB".to_string(),
        item: "Coal".to_string(),
        quantity: 1,
        value: 100_000,
    };
    let applied = l.apply_feed_event(&event, None, 2);
    assert_eq!(applied.len(), 1);
    assert_eq!(l.get_balance(7).points, 1);
}

#[test]
fn import_takes_stored_records_by_ascending_id() {
    let mut l = Ledger::new(ranks(&[]));
    let rec = |id: u64, owner: u64, kind: EventKind, item: &str, points: i64| EventRecord {
        id,
        owner,
        kind,
        item: item.to_string(),
        quantity: if kind == EventKind::Drop { 2 } else { 0 },
        value: 0,
        points,
        created_at: 5,
    };
    assert!(l.import_record(rec(3, 7, EventKind::Drop, "Coal", 4)));
    assert!(!l.import_record(rec(3, 7, EventKind::Drop, "Coal", 4)));
    assert!(!l.import_record(rec(2, 7, EventKind::Drop, "Coal", 4)));
    assert!(l.import_record(rec(9, 7, EventKind::Collection, "Pet", 10)));
    assert!(!l.import_record(rec(10, 7, EventKind::Collection, "Pet", 10)));
    assert!(!l.import_record(rec(10, 7, EventKind::Collection, "Big", i64::MAX)));
    assert!(!l.import_record(rec(u64::MAX, 7, EventKind::Drop, "Coal", 1)));
    assert_eq!(l.get_balance(7).points, 14);
    assert_eq!(l.get_balance(7).total_drop_quantity, 2);
    let next = l.record_drop(7, "Ash", 1, Some(0), 6).expect("recorded");
    assert_eq!(next.record_id, 10);
    assert_eq!(l.find_record(7, 9).map(|r| r.item), Some("Pet".to_string()));
    assert_eq!(l.find_record(8, 9), None);
}

#[test]
fn suggestions_match_without_case_and_stop_at_25() {
    let names = strings(&["Abyssal whip", "Dragon WHIP", "Coal", "whip", "Ünïcode Whip"]);
    assert_eq!(suggest(&names, "WhIp"), strings(&["Abyssal whip", "Dragon WHIP", "whip", "Ünïcode Whip"]));
    assert_eq!(suggest(&names, "ÜNÏ"), strings(&["Ünïcode Whip"]));
    assert_eq!(suggest(&names, ""), names);
    assert_eq!(suggest(&names, "zzz"), strings(&[]));
    let many: Vec<String> = (0..40).map(|i| format!("Item {}", i)).collect();
    let got = suggest(&many, "item");
    assert_eq!(got.len(), 25);
    assert_eq!(got[24], "Item 24");
    let items = log(&[("Twisted bow", 1), ("Bow string", 2), ("Coal", 3)]);
    assert_eq!(items.get_suggestions("bow"), strings(&["Twisted bow", "Bow string"]));
    assert_eq!(items.calculate_points("Coal"), Some(3));
    assert_eq!(items.calculate_points("coal"), None);
    let table = prices(&[(1, "Rune bar", 5), (2, "Bronze bar", 6)]);
    assert_eq!(table.get_item_suggestions("BAR"), strings(&["Rune bar", "Bronze bar"]));
}

#[test]
fn substring_search_finds_runs() {
    let chars = |s: &str| s.chars().collect::<Vec<char>>();
    assert!(contains_chars(&chars("hello"), &chars("ell")));
    assert!(contains_chars(&chars("hello"), &chars("")));
    assert!(contains_chars(&chars("hello"), &chars("hello")));
    assert!(contains_chars(&chars("hello"), &chars("o")));
    assert!(!contains_chars(&chars("hello"), &chars("helloo")));
    assert!(!contains_chars(&chars("hello"), &chars("lo ")));
    assert!(contains_chars(&chars(""), &chars("")));
    assert!(!contains_chars(&chars(""), &chars("a")));
}

#[test]
fn profile_lists_rank_recent_and_best_events() {
    let mut l = Ledger::new(ranks(&[(5, "Bronze"), (5000, "Silver")]));
    assert_eq!(handle_stats(&l, 7), None);
    let table = prices(&[(1, "Whip", 1_500_000), (2, "Ash", 50)]);
    let items = log(&[("Pet", 268), ("Bow", 33541), ("Jar", 268)]);
    handle_drop(&mut l, &table, 7, "Ann", "Whip", Some(2), 10);
    handle_drop(&mut l, &table, 7, "Ann", "Ash", Some(1000), 20);
    handle_drop(&mut l, &table, 7, "Ann", "Whip", Some(2), 30);
    handle_clog(&mut l, &items, 7, "Ann", "Pet", 40);
    handle_clog(&mut l, &items, 7, "Ann", "Jar", 50);
    let st = handle_stats(&l, 7).expect("known");
    assert_eq!(st.rank, "Bronze");
    assert_eq!(st.total_points, "596 points");
    assert_eq!(st.total_drops, "1,004");
    assert_eq!(st.collection_log, "2");
    assert_eq!(st.next_rank, "Silver");
    assert_eq!(st.progress, Some((591, 4995)));
    assert_eq!(
        st.recent_drops,
        "• 2x Whip (3,000,000 gp)\n• 1,000x Ash (50,000 gp)\n• 2x Whip (3,000,000 gp)"
    );
    assert_eq!(st.recent_clogs, "• Jar (+268 pts)\n• Pet (+268 pts)");
    assert_eq!(st.most_valuable, "2x Whip (3,000,000 gp)");
    assert_eq!(st.rarest, "Pet (268 pts)");
    assert_eq!(l.best_event(7, EventKind::Drop).map(|r| r.id), Some(1));
    assert_eq!(l.best_event(7, EventKind::Collection).map(|r| r.id), Some(4));
    assert_eq!(l.best_event(8, EventKind::Drop), None);
    assert_eq!(l.count_events(7, EventKind::Drop), 3);
    assert_eq!(l.count_events(8, EventKind::Drop), 0);
    l.link(8, "Bob");
    let empty = handle_stats(&l, 8).expect("known");
    assert_eq!(empty.rank, "Unranked");
    assert_eq!(empty.next_rank, "Bronze");
    assert_eq!(empty.progress, Some((0, 5)));
    assert_eq!(empty.recent_drops, "No drops recorded yet");
    assert_eq!(empty.recent_clogs, "No collection log entries yet");
    assert_eq!(empty.most_valuable, "No drops recorded yet");
    assert_eq!(empty.rarest, "No collection log entries yet");
    handle_clog(&mut l, &items, 7, "Ann", "Bow", 60);
    let top = handle_stats(&l, 7).expect("known");
    assert_eq!(top.rank, "Silver");
    assert_eq!(top.next_rank, "Maximum");
    assert_eq!(top.progress, None);
    assert_eq!(top.rarest, "Bow (33,541 pts)");
}

#[test]
fn removal_list_and_labels_show_ids_and_times() {
    let mut l = Ledger::new(ranks(&[]));
    l.record_drop(7, "Whip", 2, Some(1_500_000), 10).expect("recorded");
    l.record_drop(7, "Ash", 1, Some(50), 20).expect("recorded");
    l.record_collection(7, "Pet", Some(1268), 30).expect("recorded");
    let drops: Vec<(EventRecord, String)> = l
        .list_recent(7, EventKind::Drop, 10)
        .into_iter()
        .map(|r| {
            let when = format!("t{}", r.created_at);
            (r, when)
        })
        .collect();
    assert_eq!(
        removal_list(EventKind::Drop, &drops),
        "Your most recent drops:\nID 2: 1x Ash (50 gp) - t20\nID 1: 2x Whip (3,000,000 gp) - t10\n\nTo remove a drop, use `/drop_remove id:<drop_id>`"
    );
    let entries: Vec<(EventRecord, String)> = l
        .list_recent(7, EventKind::Collection, 10)
        .into_iter()
        .map(|r| (r, "then".to_string()))
        .collect();
    assert_eq!(
        removal_list(EventKind::Collection, &entries),
        "Your most recent collection log entries:\nID 3: Pet (1268 pts) - then\n\nTo remove an entry, use `/clog_remove id:<entry_id>`"
    );
    assert_eq!(choice_label(&drops[1].0, "noon"), "#1: 2x Whip (noon)");
    assert_eq!(choice_label(&drops[0].0, "noon"), "#2: Ash (noon)");
    assert_eq!(choice_label(&entries[0].0, "noon"), "#3: Pet (noon)");
}

#[test]
fn linked_handles_are_listed_with_dates() {
    assert_eq!(
        handle_rsnames(&vec![]),
        "You don't have any RuneScape accounts linked to your Discord account yet.\n\nUse `/rsname username:YourRSName` to link an account."
    );
    let entries = vec![
        ("Zezima".to_string(), "March 01, 2025".to_string()),
        (String::new(), "Unknown date".to_string()),
    ];
    assert_eq!(
        handle_rsnames(&entries),
        "Your linked RuneScape accounts:\n1. **Zezima** (linked on March 01, 2025)\n2. **Unknown** (linked on Unknown date)\n\nYou can unlink accounts with `/rsname_remove username:RSName`"
    );
}

#[test]
fn leaderboard_ranks_by_points_then_id() {
    let mut l = Ledger::new(ranks(&[]));
    l.record_collection(9, "Pet", Some(50), 1).expect("recorded");
    l.record_drop(7, "Whip", 3, Some(1_000_000), 2).expect("recorded");
    l.record_collection(8, "Pet", Some(50), 3).expect("recorded");
    l.record_collection(8, "Jar", Some(1000), 4).expect("recorded");
    l.record_collection(6, "Pet", Some(50), 5).expect("recorded");
    l.link(5, "Idle");
    let all = l.top_standings(10);
    let owners: Vec<u64> = all.iter().map(|s| s.owner).collect();
    assert_eq!(owners, vec![8, 6, 9, 7, 5]);
    assert_eq!(
        all[0],
        Standing { owner: 8, points: 1050, total_drops: 0, collection_entries: 2 }
    );
    assert_eq!(all[3], Standing { owner: 7, points: 30, total_drops: 3, collection_entries: 0 });
    let two: Vec<u64> = l.top_standings(2).iter().map(|s| s.owner).collect();
    assert_eq!(two, vec![8, 6]);
    assert!(l.top_standings(0).is_empty());
    let entries = vec![(all[0], "Bob".to_string()), (all[3], "Ann".to_string())];
    assert_eq!(
        handle_leaderboard(&entries),
        "1. **Bob**\n• Points: 1,050 points\n• Total Drops: 0\n• Collection Log: 2\n\n2. **Ann**\n• Points: 30 points\n• Total Drops: 3\n• Collection Log: 0\n\n"
    );
    assert_eq!(handle_leaderboard(&vec![]), "");
}

#[test]
fn rank_span_measures_the_way_to_the_next_rank() {
    let t = ranks(&[(100, "Bronze"), (150, "Silver")]);
    assert_eq!(t.span(80), Some((80, 100)));
    assert_eq!(t.span(120), Some((20, 50)));
    assert_eq!(t.span(150), None);
    assert_eq!(t.span(-20), Some((-20, 100)));
    let wide = ranks(&[(i64::MIN, "Low"), (i64::MAX, "High")]);
    assert_eq!(wide.span(0), None);
}

#[test]
fn join_with_puts_the_separator_between_parts() {
    assert_eq!(join_with(&strings(&["a", "b", "c"]), "\n"), "a\nb\nc");
    assert_eq!(join_with(&strings(&["a"]), "--"), "a");
    assert_eq!(join_with(&strings(&[]), "--"), "");
    assert_eq!(format_count(1234567), "1,234,567");
    assert_eq!(format_count(0), "0");
}

#[test]
fn feed_collection_applied_twice_changes_nothing() {
    let mut l = Ledger::new(ranks(&[(100, "Bronze")]));
    l.link(7, "Bob");
    l.link(8, "bob");
    l.link(9, "BOB");
    let items = log(&[("Pet", 268)]);
    l.record_collection(8, "Pet", Some(268), 10).expect("recorded");
    l.record_collection(9, "Start", Some(i64::MAX), 11).expect("recorded");
    let message = "Bob received a collection log item: Pet";
    let first = l.ingest_feed_message(message, &vec![], &items, 20).expect("an event");
    assert_eq!(first.len(), 3);
    assert_eq!(first[0].1.as_ref().map(|s| s.points_delta), Ok(268));
    assert_eq!(first[1].1.as_ref().err(), Some(&CoreError::Duplicate { recorded_at: 10 }));
    assert_eq!(first[2].1.as_ref().err(), Some(&CoreError::Overflow));
    let balances = (l.get_balance(7), l.get_balance(8), l.get_balance(9));
    let second = l.ingest_feed_message(message, &vec![], &items, 30).expect("an event");
    assert_eq!(second.len(), 3);
    assert_eq!(second[0].1.as_ref().err(), Some(&CoreError::Duplicate { recorded_at: 20 }));
    assert_eq!(second[1].1.as_ref().err(), Some(&CoreError::Duplicate { recorded_at: 10 }));
    assert_eq!(second[2].1.as_ref().err(), Some(&CoreError::Overflow));
    assert_eq!((l.get_balance(7), l.get_balance(8), l.get_balance(9)), balances);
    assert_eq!(l.count_events(7, EventKind::Collection), 1);
    assert_eq!(l.count_events(8, EventKind::Collection), 1);
    assert_eq!(l.count_events(9, EventKind::Collection), 1);
}
