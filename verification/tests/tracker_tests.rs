use kittyscape_loot::runescape_tracker::collection_from_captures;
use kittyscape_loot::runescape_tracker::drop_from_captures;
use kittyscape_loot::runescape_tracker::embed_drop_from_captures;
use kittyscape_loot::runescape_tracker::event_in_embed;
use kittyscape_loot::runescape_tracker::event_in_text;
use kittyscape_loot::runescape_tracker::plain_texts;
use kittyscape_loot::runescape_tracker::value_in_fields;
use kittyscape_loot::runescape_tracker::Embed;
use kittyscape_loot::runescape_tracker::EmbedField;
use kittyscape_loot::runescape_tracker::FeedEvent;
use kittyscape_loot::runescape_tracker::RunescapeTracker;
use kittyscape_loot::text::parse_i64;
use kittyscape_loot::text::strip_commas;
use kittyscape_loot::text::trim;

fn drop(handle: &str, item: &str, quantity: i64, value: i64) -> Option<FeedEvent> {
    Some(FeedEvent::Drop { handle: handle.to_string(), item: item.to_string(), quantity, value })
}

fn entry(handle: &str, item: &str) -> Option<FeedEvent> {
    Some(FeedEvent::Collection { handle: handle.to_string(), item: item.to_string() })
}

fn groups(list: &[Option<&str>]) -> Vec<Option<String>> {
    list.iter().map(|g| g.map(|s| s.to_string())).collect()
}

fn field(name: &str, value: &str) -> EmbedField {
    EmbedField { name: name.to_string(), value: value.to_string() }
}

fn embed(author: Option<&str>, description: Option<&str>, fields: Vec<EmbedField>) -> Embed {
    Embed {
        author: author.map(|s| s.to_string()),
        description: description.map(|s| s.to_string()),
        fields,
    }
}

#[test]
fn trim_takes_unicode_white_space_from_both_ends() {
    assert_eq!(trim("  a b \t\n"), "a b");
    assert_eq!(trim(""), "");
    assert_eq!(trim(" \u{3000}\u{a0}\u{2003} "), "");
    assert_eq!(trim("\u{85}x\u{2028}"), "x");
    assert_eq!(trim("\u{200b}x"), "\u{200b}x");
    assert_eq!(trim("\u{1c}x\u{1f}"), "\u{1c}x\u{1f}");
    for code in 0u32..0x3100 {
        if let Some(c) = char::from_u32(code) {
            let text = format!("{}x{}", c, c);
            assert_eq!(trim(&text), text.trim(), "code point {:x}", code);
        }
    }
}

#[test]
fn parse_i64_reads_signed_decimal_text() {
    assert_eq!(parse_i64("0"), Some(0));
    assert_eq!(parse_i64("42"), Some(42));
    assert_eq!(parse_i64("+42"), Some(42));
    assert_eq!(parse_i64("-42"), Some(-42));
    assert_eq!(parse_i64("-0"), Some(0));
    assert_eq!(parse_i64("000123"), Some(123));
    assert_eq!(parse_i64("9223372036854775807"), Some(i64::MAX));
    assert_eq!(parse_i64("-9223372036854775808"), Some(i64::MIN));
    assert_eq!(parse_i64("00000000000000000000009223372036854775807"), Some(i64::MAX));
    assert_eq!(parse_i64("9223372036854775808"), None);
    assert_eq!(parse_i64("-9223372036854775809"), None);
    assert_eq!(parse_i64("99999999999999999999999"), None);
    assert_eq!(parse_i64(""), None);
    assert_eq!(parse_i64("+"), None);
    assert_eq!(parse_i64("-"), None);
    assert_eq!(parse_i64("1,000"), None);
    assert_eq!(parse_i64(" 1"), None);
    assert_eq!(parse_i64("1 "), None);
    assert_eq!(parse_i64("--1"), None);
    assert_eq!(parse_i64("1-"), None);
    assert_eq!(parse_i64("٣"), None);
    assert_eq!(parse_i64("12a"), None);
    for text in ["7", "-7", "+7", "", "+", "x", "18446744073709551616", "-000"] {
        assert_eq!(parse_i64(text), text.parse::<i64>().ok(), "{}", text);
    }
}

#[test]
fn strip_commas_removes_every_comma() {
    assert_eq!(strip_commas("1,234,567"), "1234567");
    assert_eq!(strip_commas(",,"), "");
    assert_eq!(strip_commas("abc"), "abc");
}

#[test]
fn drop_groups_give_a_drop() {
    let caps = groups(&[Some("whole"), Some(" Bob "), Some(" Coal "), Some("5"), Some("1,250,000")]);
    assert_eq!(drop_from_captures(&caps), drop("Bob", "Coal", 5, 1_250_000));
}

#[test]
fn drop_groups_default_quantity_and_value() {
    let caps = groups(&[Some("whole"), Some("Bob"), Some("Coal"), None, Some(",")]);
    assert_eq!(drop_from_captures(&caps), drop("Bob", "Coal", 1, 0));
    let huge = groups(&[
        Some("whole"),
        Some("Bob"),
        Some("Coal"),
        Some("99999999999999999999"),
        Some("99,999,999,999,999,999,999"),
    ]);
    assert_eq!(drop_from_captures(&huge), drop("Bob", "Coal", 1, 0));
    let short = groups(&[Some("whole"), Some("Bob"), Some("Coal")]);
    assert_eq!(drop_from_captures(&short), drop("Bob", "Coal", 1, 0));
}

#[test]
fn drop_groups_without_an_item_give_nothing() {
    let caps = groups(&[Some("whole"), Some("Bob"), Some("   "), None, Some("5")]);
    assert_eq!(drop_from_captures(&caps), None);
    assert_eq!(drop_from_captures(&groups(&[])), None);
    let no_handle = groups(&[Some("whole"), Some(" "), Some("Coal"), None, Some("5")]);
    assert_eq!(drop_from_captures(&no_handle), drop("", "Coal", 1, 5));
}

#[test]
fn collection_groups_prefer_the_bold_form() {
    let bold = groups(&[Some("whole"), Some(" Bob"), Some("Pet "), None, None]);
    assert_eq!(collection_from_captures(&bold), entry("Bob", "Pet"));
    let plain = groups(&[Some("whole"), None, None, Some("Ann"), Some("Bow")]);
    assert_eq!(collection_from_captures(&plain), entry("Ann", "Bow"));
    let both = groups(&[Some("whole"), Some("Bob"), Some("Pet"), Some("Ann"), Some("Bow")]);
    assert_eq!(collection_from_captures(&both), entry("Bob", "Pet"));
    let half = groups(&[Some("whole"), Some("Bob"), None, Some("Ann"), Some("Bow")]);
    assert_eq!(collection_from_captures(&half), entry("Ann", "Bow"));
}

#[test]
fn collection_groups_need_handle_and_item() {
    let no_item = groups(&[Some("whole"), Some("Bob"), Some(" "), None, None]);
    assert_eq!(collection_from_captures(&no_item), None);
    let no_handle = groups(&[Some("whole"), None, None, Some(" "), Some("Bow")]);
    assert_eq!(collection_from_captures(&no_handle), None);
    assert_eq!(collection_from_captures(&groups(&[Some("whole")])), None);
}

#[test]
fn embed_groups_take_the_author_as_handle() {
    let caps = groups(&[Some("whole"), Some("5"), Some(" Coal "), Some("Monster")]);
    let author = Some("Bob".to_string());
    assert_eq!(embed_drop_from_captures(&caps, &author, 700), drop("Bob", "Coal", 5, 700));
    let single = groups(&[Some("whole"), None, Some("Coal"), Some("Monster")]);
    assert_eq!(embed_drop_from_captures(&single, &author, 0), drop("Bob", "Coal", 1, 0));
    assert_eq!(embed_drop_from_captures(&caps, &None, 700), None);
    assert_eq!(embed_drop_from_captures(&caps, &Some(String::new()), 700), None);
    let no_item = groups(&[Some("whole"), None, Some("  "), Some("Monster")]);
    assert_eq!(embed_drop_from_captures(&no_item, &author, 700), None);
}

#[test]
fn text_drop_is_read_with_the_pattern() {
    assert_eq!(
        event_in_text("Bob received: Abyssal whip (1,250,000 coins)"),
        drop("Bob", "Abyssal whip", 1, 1_250_000)
    );
    assert_eq!(
        event_in_text("Iron Bob received: Coal (5x) (1,000 coins)"),
        drop("Iron Bob", "Coal", 5, 1_000)
    );
    assert_eq!(event_in_text("Bob received: Coal (5 coins) and more"), None);
    assert_eq!(event_in_text("Bob received: Coal"), None);
    assert_eq!(event_in_text(""), None);
    assert_eq!(event_in_text("hello there"), None);
}

#[test]
fn text_collection_is_read_with_the_pattern() {
    assert_eq!(
        event_in_text("Bob received a collection log item: Twisted bow"),
        entry("Bob", "Twisted bow")
    );
    assert_eq!(
        event_in_text("**Bob** New item added to your collection log: **Twisted bow**"),
        entry("Bob", "Twisted bow")
    );
    assert_eq!(event_in_text("x Bob received a collection log item:  "), None);
}

#[test]
fn value_is_read_from_the_last_fenced_field() {
    let fields = vec![
        field("GE Value", "```fix\n1,234 GP\n```"),
        field("Other", "```fix\n9 GP\n```"),
        field("GE Value", ""),
        field("GE Value", "about 5 GP"),
    ];
    assert_eq!(value_in_fields(&fields), 1234);
    let two = vec![field("GE Value", "```fix\n1 GP\n```"), field("GE Value", "```fix 2 GP```")];
    assert_eq!(value_in_fields(&two), 2);
    assert_eq!(value_in_fields(&vec![]), 0);
    assert_eq!(value_in_fields(&vec![field("ge value", "```fix\n1 GP\n```")]), 0);
}

#[test]
fn embed_drop_is_read_from_author_description_and_fields() {
    let e = embed(
        Some("Bob"),
        Some("Just got 5x [Coal](https://wiki/Coal) from lvl 98 [Sulphur Nagua](https://wiki/N)"),
        vec![field("GE Value", "```fix\n725 GP\n```")],
    );
    assert_eq!(event_in_embed(&e), drop("Bob", "Coal", 5, 725));
    let bare = embed(Some("Bob"), Some("Just got [Coal] from [Monster]"), vec![]);
    assert_eq!(event_in_embed(&bare), drop("Bob", "Coal", 1, 0));
    let anonymous = embed(None, Some("Just got [Coal] from [Monster]"), vec![]);
    assert_eq!(event_in_embed(&anonymous), None);
    let silent = embed(Some("Bob"), None, vec![field("GE Value", "```fix\n725 GP\n```")]);
    assert_eq!(event_in_embed(&silent), None);
    let other = embed(Some("Bob"), Some("Level up!"), vec![]);
    assert_eq!(event_in_embed(&other), None);
}

#[test]
fn plain_texts_lists_text_descriptions_and_field_values() {
    let embeds = vec![
        embed(None, Some("d1"), vec![field("n1", "v1"), field("n2", "v2")]),
        embed(None, None, vec![field("n3", "v3")]),
        embed(None, Some("d3"), vec![]),
    ];
    assert_eq!(plain_texts("top", &embeds), vec!["top", "d1", "v1", "v2", "v3", "d3"]);
    assert_eq!(plain_texts("only", &vec![]), vec!["only"]);
}

#[test]
fn message_text_wins_over_embeds() {
    let tracker = RunescapeTracker::new();
    let embeds = vec![embed(Some("Ann"), Some("Just got [Coal] from [Monster]"), vec![])];
    assert_eq!(
        tracker.process_message("Bob received a collection log item: Pet", &embeds),
        entry("Bob", "Pet")
    );
    assert_eq!(tracker.process_message("nothing here", &embeds), drop("Ann", "Coal", 1, 0));
}

#[test]
fn message_embed_texts_come_before_embed_drops() {
    let tracker = RunescapeTracker::new();
    let embeds = vec![
        embed(Some("Ann"), Some("Just got [Coal] from [Monster]"), vec![]),
        embed(None, None, vec![field("note", "Cy received: Ash (2x) (300,000 coins)")]),
    ];
    assert_eq!(tracker.process_message("", &embeds), drop("Cy", "Ash", 2, 300_000));
}

#[test]
fn message_without_a_match_is_unknown() {
    let tracker = RunescapeTracker::new();
    assert_eq!(tracker.process_message("Bob has levelled up", &vec![]), None);
    let embeds = vec![embed(None, Some("Just got [Coal] from [Monster]"), vec![])];
    assert_eq!(tracker.process_message("", &embeds), None);
}

#[test]
fn message_yields_the_first_embed_drop() {
    let tracker = RunescapeTracker::new();
    let embeds = vec![
        embed(Some(""), Some("Just got [Coal] from [Monster]"), vec![]),
        embed(Some("Bob"), Some("Just got 2x [Ash] from [Fiend]"), vec![]),
        embed(Some("Cy"), Some("Just got [Gem] from [Rock]"), vec![]),
    ];
    assert_eq!(tracker.process_message("", &embeds), drop("Bob", "Ash", 2, 0));
}
