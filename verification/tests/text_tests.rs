use kittyscape_loot::config::Config;
use kittyscape_loot::scoring::drop_points;
use kittyscape_loot::scoring::points_for_value;
use kittyscape_loot::scoring::total_value;
use kittyscape_loot::text::format_gp;
use kittyscape_loot::text::format_number;
use kittyscape_loot::text::format_points;
use kittyscape_loot::text::handles_match;
use kittyscape_loot::text::parse_u64;

#[test]
fn format_number_groups_by_three() {
    assert_eq!(format_number(0), "0");
    assert_eq!(format_number(7), "7");
    assert_eq!(format_number(999), "999");
    assert_eq!(format_number(1000), "1,000");
    assert_eq!(format_number(12345), "12,345");
    assert_eq!(format_number(123456), "123,456");
    assert_eq!(format_number(1234567), "1,234,567");
    assert_eq!(format_number(i64::MAX), "9,223,372,036,854,775,807");
}

#[test]
fn format_number_counts_the_sign_as_a_character() {
    assert_eq!(format_number(-5), "-5");
    assert_eq!(format_number(-12), "-12");
    assert_eq!(format_number(-123), "-,123");
    assert_eq!(format_number(-1234), "-1,234");
    assert_eq!(format_number(i64::MIN), "-9,223,372,036,854,775,808");
}

#[test]
fn format_gp_and_points_add_the_unit() {
    assert_eq!(format_gp(500000), "500,000 gp");
    assert_eq!(format_gp(0), "0 gp");
    assert_eq!(format_points(1500), "1,500 points");
    assert_eq!(format_points(5), "5 points");
}

#[test]
fn drop_scoring_is_one_point_per_hundred_thousand() {
    assert_eq!(total_value(250_000, 2), Some(500_000));
    assert_eq!(drop_points(250_000, 2), Some(5));
    assert_eq!(points_for_value(500_000), 5);
    assert_eq!(points_for_value(99_999), 0);
    assert_eq!(points_for_value(100_000), 1);
    assert_eq!(points_for_value(199_999), 1);
    assert_eq!(points_for_value(0), 0);
}

#[test]
fn drop_scoring_cuts_off_toward_zero() {
    assert_eq!(points_for_value(-99_999), 0);
    assert_eq!(points_for_value(-100_000), -1);
    assert_eq!(points_for_value(-150_000), -1);
    assert_eq!(drop_points(-150_000, 1), Some(-1));
    assert_eq!(drop_points(150_000, -3), Some(-4));
}

#[test]
fn drop_scoring_refuses_a_total_out_of_range() {
    assert_eq!(drop_points(i64::MAX, 2), None);
    assert_eq!(total_value(i64::MIN, -1), None);
    assert_eq!(drop_points(i64::MAX, 1), Some(92_233_720_368_547));
}

#[test]
fn handles_compare_without_ascii_case() {
    assert!(handles_match("Zezima", "zezima"));
    assert!(handles_match("IRON MAN", "iron man"));
    assert!(handles_match("", ""));
    assert!(!handles_match("Zezima", "Zezima "));
    assert!(!handles_match("a_b", "a b"));
    assert!(!handles_match("É", "é"));
    assert!(!handles_match("[", "{"));
    assert!(!handles_match("@", "`"));
}

#[test]
fn parse_u64_reads_unsigned_decimal_text() {
    assert_eq!(parse_u64("0"), Some(0));
    assert_eq!(parse_u64("+17"), Some(17));
    assert_eq!(parse_u64("18446744073709551615"), Some(u64::MAX));
    assert_eq!(parse_u64("0018446744073709551615"), Some(u64::MAX));
    assert_eq!(parse_u64("18446744073709551616"), None);
    assert_eq!(parse_u64("-1"), None);
    assert_eq!(parse_u64(""), None);
    assert_eq!(parse_u64("+"), None);
    assert_eq!(parse_u64("12 "), None);
    for text in ["5", "+5", "-0", "", "x1", "99999999999999999999", "1351642107730722866"] {
        assert_eq!(parse_u64(text), text.parse::<u64>().ok(), "{}", text);
    }
}

#[test]
fn config_needs_the_moderators_channel() {
    assert_eq!(Config::from_vars(None, Some("5"), Some("6")), None);
    assert_eq!(Config::from_vars(Some("five"), Some("5"), Some("6")), None);
    assert_eq!(
        Config::from_vars(Some("4"), Some("5"), Some("6")),
        Some(Config { mod_channel_id: 4, log_channel_id: 5, runelite_channel_id: Some(6) })
    );
}

#[test]
fn config_falls_back_to_the_moderators_channel_for_the_log() {
    assert_eq!(
        Config::from_vars(Some("4"), None, None),
        Some(Config { mod_channel_id: 4, log_channel_id: 4, runelite_channel_id: None })
    );
    assert_eq!(
        Config::from_vars(Some("4"), Some("log"), Some("feed")),
        Some(Config { mod_channel_id: 4, log_channel_id: 4, runelite_channel_id: None })
    );
}
