//! Diagnostics for the feed: how often each known message pattern occurs in
//! a channel's history, and which texts no pattern knows.

use crate::pattern::captures;
use crate::pattern::regex_captures;
use crate::runescape_tracker::Embed;
use crate::runescape_tracker::EmbedField;
use crate::runescape_tracker::DROP_PATTERN;
use crate::text::strings_view;
use crate::text::trim;
use crate::text::trimmed;
use vstd::prelude::*;
use vstd::string::StringExecFns;

verus! {

/// A collection log entry in plain text.
pub const CLOG_PLAIN_PATTERN: &'static str = r"^(.+) received a collection log item: (.+)$";

/// Other wordings of a drop that feeds have used.
pub const DROP_ALT1_PATTERN: &'static str =
    r"(.+) received drop: (.+)(?: \((\d+)x\))? \(([0-9,]+) coins\)";

pub const DROP_ALT2_PATTERN: &'static str =
    r"(.+) received .* drop: (.+)(?: \((\d+)x\))? \(([0-9,]+) coins\)";

pub const DROP_ALT3_PATTERN: &'static str =
    r"(.+) received .* drop: (.+)(?: \((\d+)x\))? \(([0-9,]+)gp\)";

/// Other wordings of a collection log entry that feeds have used.
pub const CLOG_ALT1_PATTERN: &'static str = r"(.+) received collection log item: (.+)";

pub const CLOG_ALT2_PATTERN: &'static str = r"(.+) received a new collection log item: (.+)";

pub const CLOG_ALT3_PATTERN: &'static str =
    r"\*\*(.+)\*\*\s+New item added to your collection log: \*\*(.+)\*\*";

/// A drop in the description of an embed, in its loosest wording.
pub const EMBED_ANY_DROP_PATTERN: &'static str = r"Just got \[(.+?)\].+? from \[(.+?)\]";

/// How often each pattern was found.
#[derive(Clone, Copy, Debug, PartialEq, Eq, Structural)]
pub struct PatternCounts {
    pub drop: u64,
    pub drop_alt1: u64,
    pub drop_alt2: u64,
    pub drop_alt3: u64,
    pub clog: u64,
    pub clog_alt1: u64,
    pub clog_alt2: u64,
    pub clog_alt3: u64,
}

/// What the analysis of a channel has found so far.
#[derive(Clone, Debug, PartialEq, Eq)]
pub struct ChannelReport {
    pub feed_messages: u64,
    pub user_messages: u64,
    pub other_bot_messages: u64,
    pub counts: PatternCounts,
    pub unknown_formats: Vec<String>,
}

/// `pattern` is found in `text`.
pub open spec fn found(pattern: Seq<char>, text: Seq<char>) -> bool {
    regex_captures(pattern, text).is_some()
}

/// `count` with one more where `hit` is set, up to the highest count.
pub open spec fn bumped(count: u64, hit: bool) -> u64 {
    if hit && count < u64::MAX {
        (count + 1) as u64
    } else {
        count
    }
}

/// One of the eight patterns is found in `text`.
pub open spec fn any_found(text: Seq<char>) -> bool {
    ||| found(DROP_PATTERN@, text)
    ||| found(DROP_ALT1_PATTERN@, text)
    ||| found(DROP_ALT2_PATTERN@, text)
    ||| found(DROP_ALT3_PATTERN@, text)
    ||| found(CLOG_PLAIN_PATTERN@, text)
    ||| found(CLOG_ALT1_PATTERN@, text)
    ||| found(CLOG_ALT2_PATTERN@, text)
    ||| found(CLOG_ALT3_PATTERN@, text)
}

/// The counts after `text`: each pattern found in it counts once more.
pub open spec fn counts_after(c: PatternCounts, text: Seq<char>) -> PatternCounts {
    PatternCounts {
        drop: bumped(c.drop, found(DROP_PATTERN@, text)),
        drop_alt1: bumped(c.drop_alt1, found(DROP_ALT1_PATTERN@, text)),
        drop_alt2: bumped(c.drop_alt2, found(DROP_ALT2_PATTERN@, text)),
        drop_alt3: bumped(c.drop_alt3, found(DROP_ALT3_PATTERN@, text)),
        clog: bumped(c.clog, found(CLOG_PLAIN_PATTERN@, text)),
        clog_alt1: bumped(c.clog_alt1, found(CLOG_ALT1_PATTERN@, text)),
        clog_alt2: bumped(c.clog_alt2, found(CLOG_ALT2_PATTERN@, text)),
        clog_alt3: bumped(c.clog_alt3, found(CLOG_ALT3_PATTERN@, text)),
    }
}

/// The unknown texts after `text`: it joins them where no pattern is found
/// in it and it is not blank.
pub open spec fn unknown_after(unknown: Seq<Seq<char>>, text: Seq<char>) -> Seq<Seq<char>> {
    if !any_found(text) && trimmed(text).len() > 0 {
        unknown.push(text)
    } else {
        unknown
    }
}

/// The counts after each of `texts` in turn.
pub open spec fn counts_after_all(c: PatternCounts, texts: Seq<Seq<char>>) -> PatternCounts
    decreases texts.len(),
{
    if texts.len() == 0 {
        c
    } else {
        counts_after(counts_after_all(c, texts.drop_last()), texts.last())
    }
}

/// The unknown texts after each of `texts` in turn.
pub open spec fn unknown_after_all(unknown: Seq<Seq<char>>, texts: Seq<Seq<char>>) -> Seq<
    Seq<char>,
>
    decreases texts.len(),
{
    if texts.len() == 0 {
        unknown
    } else {
        unknown_after(unknown_after_all(unknown, texts.drop_last()), texts.last())
    }
}

/// One of `texts` holds one of the eight patterns.
pub open spec fn any_found_in(texts: Seq<Seq<char>>) -> bool {
    exists|i: int| 0 <= i < texts.len() && any_found(#[trigger] texts[i])
}

/// The names and values of the fields, each name before its value.
pub open spec fn field_texts(fields: Seq<EmbedField>) -> Seq<Seq<char>>
    decreases fields.len(),
{
    if fields.len() == 0 {
        Seq::empty()
    } else {
        field_texts(fields.drop_last()).push(fields.last().name@).push(fields.last().value@)
    }
}

/// The texts of a message that the analysis looks at, in order: of each
/// embed the description, if any, then its fields; last the message text.
pub open spec fn analysed_texts(content: Seq<char>, embeds: Seq<Embed>) -> Seq<Seq<char>> {
    embeds_texts(embeds).push(content)
}

/// The texts of the embeds that the analysis looks at.
pub open spec fn embeds_texts(embeds: Seq<Embed>) -> Seq<Seq<char>>
    decreases embeds.len(),
{
    if embeds.len() == 0 {
        Seq::empty()
    } else {
        let e = embeds.last();
        embeds_texts(embeds.drop_last()) + match e.description {
            Some(d) => seq![d@],
            None => Seq::empty(),
        } + field_texts(e.fields@)
    }
}

/// One of the embeds describes a drop in its loosest wording.
pub open spec fn embed_drop_found(embeds: Seq<Embed>) -> bool {
    exists|i: int|
        0 <= i < embeds.len() && (#[trigger] embeds[i]).description.is_some() && found(
            EMBED_ANY_DROP_PATTERN@,
            embeds[i].description.unwrap()@,
        )
}

/// The report after a message of the feed account: the patterns found in
/// its texts are counted, each text that holds none and is not blank joins
/// the unknown ones, and so does the message text once more where nothing
/// in the message was known.
pub open spec fn feed_report(
    counts: PatternCounts,
    unknown: Seq<Seq<char>>,
    content: Seq<char>,
    embeds: Seq<Embed>,
) -> (PatternCounts, Seq<Seq<char>>) {
    let texts = analysed_texts(content, embeds);
    let listed = unknown_after_all(unknown, texts);
    let known = embed_drop_found(embeds) || any_found_in(texts);
    (
        counts_after_all(counts, texts),
        if !known && trimmed(content).len() > 0 {
            listed.push(content)
        } else {
            listed
        },
    )
}

fn is_found(pattern: &str, text: &str) -> (r: bool)
    ensures
        r == found(pattern@, text@),
{
    captures(pattern, text).is_some()
}

fn bump(count: u64, hit: bool) -> (r: u64)
    ensures
        r == bumped(count, hit),
{
    if hit && count < u64::MAX {
        count + 1
    } else {
        count
    }
}

/// Counts the patterns found in `content` and lists it as unknown where it
/// holds none and is not blank. Says whether it held one.
pub fn process_content(content: &str, counts: &mut PatternCounts, unknown: &mut Vec<String>) -> (matched:
    bool)
    ensures
        *final(counts) == counts_after(*old(counts), content@),
        strings_view(final(unknown)@) == unknown_after(strings_view(old(unknown)@), content@),
        matched == any_found(content@),
{
    let drop = is_found(DROP_PATTERN, content);
    let drop_alt1 = is_found(DROP_ALT1_PATTERN, content);
    let drop_alt2 = is_found(DROP_ALT2_PATTERN, content);
    let drop_alt3 = is_found(DROP_ALT3_PATTERN, content);
    let clog = is_found(CLOG_PLAIN_PATTERN, content);
    let clog_alt1 = is_found(CLOG_ALT1_PATTERN, content);
    let clog_alt2 = is_found(CLOG_ALT2_PATTERN, content);
    let clog_alt3 = is_found(CLOG_ALT3_PATTERN, content);
    *counts = PatternCounts {
        drop: bump(counts.drop, drop),
        drop_alt1: bump(counts.drop_alt1, drop_alt1),
        drop_alt2: bump(counts.drop_alt2, drop_alt2),
        drop_alt3: bump(counts.drop_alt3, drop_alt3),
        clog: bump(counts.clog, clog),
        clog_alt1: bump(counts.clog_alt1, clog_alt1),
        clog_alt2: bump(counts.clog_alt2, clog_alt2),
        clog_alt3: bump(counts.clog_alt3, clog_alt3),
    };
    let matched = drop || drop_alt1 || drop_alt2 || drop_alt3 || clog || clog_alt1 || clog_alt2
        || clog_alt3;
    if !matched && !trim(content).as_str().is_empty() {
        let ghost before = strings_view(unknown@);
        unknown.push(String::from_str(content));
        assert(strings_view(unknown@) =~= before.push(content@));
    }
    matched
}

/// The id of the account that posts the feed.
pub const FEED_ACCOUNT_ID: u64 = 1351642107730722866;

/// The texts of a message that the analysis looks at.
pub fn texts_to_analyse(content: &str, embeds: &Vec<Embed>) -> (r: Vec<String>)
    ensures
        strings_view(r@) == analysed_texts(content@, embeds@),
{
    let mut out: Vec<String> = Vec::new();
    let mut i: usize = 0;
    assert(embeds@.subrange(0, 0) =~= Seq::<Embed>::empty());
    assert(strings_view(out@) =~= embeds_texts(embeds@.subrange(0, 0)));
    while i < embeds.len()
        invariant
            i <= embeds@.len(),
            strings_view(out@) == embeds_texts(embeds@.subrange(0, i as int)),
        decreases embeds@.len() - i,
    {
        let e = &embeds[i];
        let ghost before = strings_view(out@);
        match &e.description {
            Some(d) => {
                out.push(d.clone());
            },
            None => {},
        }
        let ghost described = strings_view(out@);
        proof {
            assert(described =~= before + match e.description {
                Some(d) => seq![d@],
                None => Seq::<Seq<char>>::empty(),
            });
            assert(e.fields@.subrange(0, 0) =~= Seq::<EmbedField>::empty());
            assert(strings_view(out@) =~= described + field_texts(e.fields@.subrange(0, 0)));
        }
        let mut j: usize = 0;
        while j < e.fields.len()
            invariant
                j <= e.fields@.len(),
                strings_view(out@) == described + field_texts(e.fields@.subrange(0, j as int)),
            decreases e.fields@.len() - j,
        {
            let ghost listed = strings_view(out@);
            out.push(e.fields[j].name.clone());
            out.push(e.fields[j].value.clone());
            proof {
                assert(e.fields@.subrange(0, j + 1).drop_last() =~= e.fields@.subrange(0, j as int));
                assert(e.fields@.subrange(0, j + 1).last() == e.fields@[j as int]);
                assert(strings_view(out@) =~= listed.push(e.fields@[j as int].name@).push(
                    e.fields@[j as int].value@,
                ));
                assert(strings_view(out@) =~= described + field_texts(
                    e.fields@.subrange(0, j + 1),
                ));
            }
            j += 1;
        }
        proof {
            assert(e.fields@.subrange(0, j as int) =~= e.fields@);
            assert(embeds@.subrange(0, i + 1).drop_last() =~= embeds@.subrange(0, i as int));
            assert(embeds@.subrange(0, i + 1).last() == *e);
        }
        i += 1;
    }
    let ghost listed = strings_view(out@);
    out.push(String::from_str(content));
    proof {
        assert(embeds@.subrange(0, i as int) =~= embeds@);
        assert(strings_view(out@) =~= listed.push(content@));
    }
    out
}

fn has_embed_drop(embeds: &Vec<Embed>) -> (r: bool)
    ensures
        r == embed_drop_found(embeds@),
{
    let mut i: usize = 0;
    while i < embeds.len()
        invariant
            i <= embeds@.len(),
            forall|k: int|
                0 <= k < i ==> !((#[trigger] embeds@[k]).description.is_some() && found(
                    EMBED_ANY_DROP_PATTERN@,
                    embeds@[k].description.unwrap()@,
                )),
        decreases embeds@.len() - i,
    {
        match &embeds[i].description {
            Some(d) => {
                if is_found(EMBED_ANY_DROP_PATTERN, d.as_str()) {
                    return true;
                }
            },
            None => {},
        }
        i += 1;
    }
    false
}

/// What a message adds to the report: a message of the feed account is
/// analysed as `feed_report` says, any other is only counted by the kind
/// of its author.
pub open spec fn report_after(
    before: ChannelReport,
    after: ChannelReport,
    author_id: u64,
    is_bot: bool,
    content: Seq<char>,
    embeds: Seq<Embed>,
) -> bool {
    if author_id == FEED_ACCOUNT_ID {
        &&& after.feed_messages == bumped(before.feed_messages, true)
        &&& after.user_messages == before.user_messages
        &&& after.other_bot_messages == before.other_bot_messages
        &&& (after.counts, strings_view(after.unknown_formats@)) == feed_report(
            before.counts,
            strings_view(before.unknown_formats@),
            content,
            embeds,
        )
    } else {
        &&& after.feed_messages == before.feed_messages
        &&& after.user_messages == bumped(before.user_messages, !is_bot)
        &&& after.other_bot_messages == bumped(before.other_bot_messages, is_bot)
        &&& after.counts == before.counts
        &&& after.unknown_formats == before.unknown_formats
    }
}

/// Takes one message of a channel's history into the report.
pub fn analyze_message(
    report: ChannelReport,
    author_id: u64,
    is_bot: bool,
    content: &str,
    embeds: &Vec<Embed>,
) -> (r: ChannelReport)
    ensures
        report_after(report, r, author_id, is_bot, content@, embeds@),
{
    if author_id != FEED_ACCOUNT_ID {
        return ChannelReport {
            feed_messages: report.feed_messages,
            user_messages: bump(report.user_messages, !is_bot),
            other_bot_messages: bump(report.other_bot_messages, is_bot),
            counts: report.counts,
            unknown_formats: report.unknown_formats,
        };
    }
    let ghost start = strings_view(report.unknown_formats@);
    let texts = texts_to_analyse(content, embeds);
    let ghost all = strings_view(texts@);
    let mut counts = report.counts;
    let mut unknown = report.unknown_formats;
    let mut known = has_embed_drop(embeds);
    let mut i: usize = 0;
    assert(all.subrange(0, 0) =~= Seq::<Seq<char>>::empty());
    while i < texts.len()
        invariant
            i <= texts@.len(),
            all == strings_view(texts@),
            counts == counts_after_all(report.counts, all.subrange(0, i as int)),
            strings_view(unknown@) == unknown_after_all(start, all.subrange(0, i as int)),
            known == (embed_drop_found(embeds@) || any_found_in(all.subrange(0, i as int))),
        decreases texts@.len() - i,
    {
        let ghost head = all.subrange(0, i as int);
        let ghost next = all.subrange(0, i + 1);
        proof {
            assert(next.drop_last() =~= head);
            assert(next.last() == texts@[i as int]@);
        }
        let matched = process_content(texts[i].as_str(), &mut counts, &mut unknown);
        proof {
            if any_found_in(head) {
                let k = choose|k: int| 0 <= k < head.len() && any_found(#[trigger] head[k]);
                assert(any_found(next[k]));
            }
            if matched {
                assert(any_found(next[i as int]));
            }
            if any_found_in(next) {
                let k = choose|k: int| 0 <= k < next.len() && any_found(#[trigger] next[k]);
                if k < i {
                    assert(any_found(head[k]));
                }
            }
        }
        known = known || matched;
        i += 1;
    }
    assert(all.subrange(0, i as int) =~= all);
    if !known && !trim(content).as_str().is_empty() {
        let ghost listed = strings_view(unknown@);
        unknown.push(String::from_str(content));
        assert(strings_view(unknown@) =~= listed.push(content@));
    }
    ChannelReport {
        feed_messages: bump(report.feed_messages, true),
        user_messages: report.user_messages,
        other_bot_messages: report.other_bot_messages,
        counts,
        unknown_formats: unknown,
    }
}

impl ChannelReport {
    /// A report of nothing yet.
    pub fn new() -> (r: ChannelReport)
        ensures
            r.feed_messages == 0,
            r.user_messages == 0,
            r.other_bot_messages == 0,
            r.counts == (PatternCounts {
                drop: 0,
                drop_alt1: 0,
                drop_alt2: 0,
                drop_alt3: 0,
                clog: 0,
                clog_alt1: 0,
                clog_alt2: 0,
                clog_alt3: 0,
            }),
            r.unknown_formats@.len() == 0,
    {
        ChannelReport {
            feed_messages: 0,
            user_messages: 0,
            other_bot_messages: 0,
            counts: PatternCounts {
                drop: 0,
                drop_alt1: 0,
                drop_alt2: 0,
                drop_alt3: 0,
                clog: 0,
                clog_alt1: 0,
                clog_alt2: 0,
                clog_alt3: 0,
            },
            unknown_formats: Vec::new(),
        }
    }
}

} // verus!
