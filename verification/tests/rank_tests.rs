use kittyscape_loot::rank_manager::add_points;
use kittyscape_loot::rank_manager::evaluate;
use kittyscape_loot::rank_manager::join_ranks;
use kittyscape_loot::rank_manager::rank_alert;
use kittyscape_loot::rank_manager::rank_phrase;
use kittyscape_loot::rank_manager::RankTable;
use kittyscape_loot::rank_manager::RankThreshold;

fn table(entries: &[(i64, &str)]) -> RankTable {
    let mut v = Vec::new();
    for (points, name) in entries {
        v.push(RankThreshold { points: *points, role_name: name.to_string() });
    }
    RankTable::new(v).expect("ascending cutoffs")
}

fn names(list: &[&str]) -> Vec<String> {
    list.iter().map(|s| s.to_string()).collect()
}

#[test]
fn crossing_one_rank_on_the_way_up() {
    let t = table(&[(100, "Bronze"), (150, "Silver")]);
    let u = evaluate(80, 120, &t);
    assert_eq!(u.old_points, 80);
    assert_eq!(u.new_points, 120);
    assert_eq!(u.crossed_ranks, names(&["Bronze"]));
    assert_eq!(u.next_rank, Some((150, "Silver".to_string())));
}

#[test]
fn crossing_several_ranks_up_is_ascending() {
    let t = table(&[(100, "Bronze"), (150, "Silver"), (400, "Gold"), (1000, "Rune")]);
    let u = evaluate(99, 400, &t);
    assert_eq!(u.crossed_ranks, names(&["Bronze", "Silver", "Gold"]));
    assert_eq!(u.next_rank, Some((1000, "Rune".to_string())));
}

#[test]
fn crossing_down_is_descending() {
    let t = table(&[(100, "Bronze"), (150, "Silver"), (400, "Gold")]);
    let u = evaluate(400, 99, &t);
    assert_eq!(u.crossed_ranks, names(&["Gold", "Silver", "Bronze"]));
    assert_eq!(u.next_rank, Some((100, "Bronze".to_string())));
}

#[test]
fn threshold_bounds_are_exclusive_below_and_inclusive_above() {
    let t = table(&[(100, "Bronze"), (150, "Silver")]);
    assert_eq!(evaluate(100, 150, &t).crossed_ranks, names(&["Silver"]));
    assert_eq!(evaluate(99, 100, &t).crossed_ranks, names(&["Bronze"]));
    assert_eq!(evaluate(150, 100, &t).crossed_ranks, names(&["Silver"]));
    assert_eq!(evaluate(100, 99, &t).crossed_ranks, names(&["Bronze"]));
}

#[test]
fn equal_points_cross_nothing() {
    let t = table(&[(100, "Bronze"), (150, "Silver")]);
    let u = evaluate(120, 120, &t);
    assert!(u.crossed_ranks.is_empty());
    assert_eq!(u.next_rank, Some((150, "Silver".to_string())));
}

#[test]
fn no_next_rank_at_or_above_the_maximum() {
    let t = table(&[(100, "Bronze"), (150, "Silver")]);
    assert_eq!(evaluate(0, 150, &t).next_rank, None);
    assert_eq!(evaluate(0, 9000, &t).next_rank, None);
    assert_eq!(evaluate(0, 149, &t).next_rank, Some((150, "Silver".to_string())));
}

#[test]
fn empty_table_crosses_nothing() {
    let t = table(&[]);
    let u = evaluate(-5, 500, &t);
    assert!(u.crossed_ranks.is_empty());
    assert_eq!(u.next_rank, None);
}

#[test]
fn two_rises_in_a_row_cross_each_rank_once() {
    let t = table(&[(100, "Bronze"), (150, "Silver"), (400, "Gold")]);
    let first = evaluate(80, 160, &t);
    let second = evaluate(160, 500, &t);
    let whole = evaluate(80, 500, &t);
    let mut both = first.crossed_ranks.clone();
    both.extend(second.crossed_ranks.clone());
    assert_eq!(both, whole.crossed_ranks);
    assert!(evaluate(160, 160, &t).crossed_ranks.is_empty());
}

#[test]
fn undoing_a_rise_crosses_the_same_ranks_reversed() {
    let t = table(&[(100, "Bronze"), (150, "Silver"), (400, "Gold")]);
    let mut up = evaluate(10, 420, &t).crossed_ranks;
    let down = evaluate(420, 10, &t).crossed_ranks;
    up.reverse();
    assert_eq!(up, down);
}

#[test]
fn table_refuses_cutoffs_out_of_order_or_repeated() {
    let repeated = vec![
        RankThreshold { points: 100, role_name: "A".to_string() },
        RankThreshold { points: 100, role_name: "B".to_string() },
    ];
    assert!(RankTable::new(repeated).is_none());
    let descending = vec![
        RankThreshold { points: 150, role_name: "A".to_string() },
        RankThreshold { points: 100, role_name: "B".to_string() },
    ];
    assert!(RankTable::new(descending).is_none());
    assert_eq!(table(&[(1, "A"), (2, "B"), (3, "C")]).len(), 3);
}

#[test]
fn held_current_and_next_agree() {
    let t = table(&[(100, "Bronze"), (150, "Silver")]);
    assert_eq!(t.held_count(99), 0);
    assert_eq!(t.held_count(100), 1);
    assert_eq!(t.held_count(149), 1);
    assert_eq!(t.held_count(150), 2);
    assert_eq!(t.current(99), None);
    assert_eq!(t.current(120), Some((100, "Bronze".to_string())));
    assert_eq!(t.current(150), Some((150, "Silver".to_string())));
    assert_eq!(t.next_above(100), Some((150, "Silver".to_string())));
}

#[test]
fn add_points_evaluates_the_sum() {
    let t = table(&[(100, "Bronze"), (150, "Silver")]);
    let u = add_points(80, 40, &t).expect("fits");
    assert_eq!(u.old_points, 80);
    assert_eq!(u.new_points, 120);
    assert_eq!(u.crossed_ranks, names(&["Bronze"]));
    let d = add_points(120, -40, &t).expect("fits");
    assert_eq!(d.new_points, 80);
    assert_eq!(d.crossed_ranks, names(&["Bronze"]));
    assert!(add_points(i64::MAX, 1, &t).is_none());
    assert!(add_points(i64::MIN, -1, &t).is_none());
}

#[test]
fn rank_join_grammar() {
    assert_eq!(rank_phrase(&names(&["Bronze"])), "the Bronze rank");
    assert_eq!(rank_phrase(&names(&["Bronze", "Silver"])), "the Bronze and Silver ranks");
    assert_eq!(
        rank_phrase(&names(&["Bronze", "Silver", "Gold"])),
        "the Bronze, Silver, and Gold ranks"
    );
    assert_eq!(
        rank_phrase(&names(&["A", "B", "C", "D"])),
        "the A, B, C, and D ranks"
    );
    assert_eq!(join_ranks(&names(&["A", "B", "C", "D", "E"])), "A, B, C, D, and E");
    assert_eq!(join_ranks(&names(&["Solo"])), "Solo");
}

#[test]
fn rank_alert_wording() {
    let t = table(&[(100, "Bronze"), (150, "Silver")]);
    assert_eq!(rank_alert("Ann", &evaluate(10, 20, &t)), None);
    assert_eq!(
        rank_alert("Ann", &evaluate(80, 1200, &t)),
        Some(
            "🎉 **Multiple Rank Up Alert!**\nAnn has reached 1,200 points and is ready for the Bronze and Silver ranks!"
                .to_string()
        )
    );
    assert_eq!(
        rank_alert("Ann", &evaluate(80, 120, &t)),
        Some(
            "🎉 **Rank Up Alert!**\nAnn has reached 120 points and is ready for the Bronze rank!"
                .to_string()
        )
    );
    assert_eq!(
        rank_alert("Ann", &evaluate(120, 80, &t)),
        Some(
            "⬇️ **Rank Down Alert!**\nAnn is now at 80 points and has lost the Bronze rank."
                .to_string()
        )
    );
    assert_eq!(
        rank_alert("Ann", &evaluate(150, 0, &t)),
        Some(
            "⬇️ **Multiple Rank Down Alert!**\nAnn is now at 0 points and has lost the Silver and Bronze ranks."
                .to_string()
        )
    );
}

#[test]
fn rank_alert_joins_three_ranks_with_a_final_and() {
    let t = table(&[(100, "Bronze"), (150, "Silver"), (200, "Gold")]);
    let update = add_points(80, 120, &t).expect("fits");
    assert_eq!(
        rank_alert("Ann", &update),
        Some(
            "🎉 **Multiple Rank Up Alert!**\nAnn has reached 200 points and is ready for the Bronze, Silver, and Gold ranks!"
                .to_string()
        )
    );
    let back = add_points(200, -120, &t).expect("fits");
    assert_eq!(
        rank_alert("Ann", &back),
        Some(
            "⬇️ **Multiple Rank Down Alert!**\nAnn is now at 80 points and has lost the Gold, Silver, and Bronze ranks."
                .to_string()
        )
    );
}
