//! Extraction of reward events from the messages of the game client's feed:
//! plain text lines and embeds with an author, a description and fields.

use crate::pattern::captures;
use crate::pattern::groups_view;
use crate::pattern::regex_captures;
use crate::text::opt_view;
use crate::text::parse_i64;
use crate::text::parsed_i64;
use crate::text::strings_view;
use crate::text::strip_commas;
use crate::text::trim;
use crate::text::trimmed;
use crate::text::without_commas;
use vstd::prelude::*;
use vstd::string::StringExecFns;

verus! {

/// A drop in plain text: handle, item, an optional `(Nx)` marker for the
/// quantity, and the value in coins.
pub const DROP_PATTERN: &'static str =
    r"^(.+) received: (.+?)(?: \((\d+)x\))? \(([0-9,]+) coins\)$";

/// A collection log entry in plain text, in its bold form or its plain form.
pub const CLOG_PATTERN: &'static str =
    r"(?:\*\*(.+)\*\*\s+New item added to your collection log: \*\*(.+)\*\*|^(.+) received a collection log item: (.+)$)";

/// A drop in the description of an embed: an optional quantity, the item
/// and its source, each in square brackets with or without a link.
pub const EMBED_DROP_PATTERN: &'static str =
    r"Just got (?:(\d+)x\s+)?\[(.+?)(?:\]\(.+?\)|\])\s+from(?:\s+lvl\s+\d+)?\s+\[(.+?)(?:\]\(.+?\)|\])";

/// The value inside the code fence of an embed's `GE Value` field.
pub const EMBED_VALUE_PATTERN: &'static str = r"```fix\s*([0-9,]+) GP\s*```";

/// The name of the embed field that carries a drop's value.
pub const VALUE_FIELD: &'static str = "GE Value";

/// One named field of an embed.
#[derive(Clone, Debug, PartialEq, Eq)]
pub struct EmbedField {
    pub name: String,
    pub value: String,
}

/// The parts of an embed that events are read from.
#[derive(Clone, Debug, PartialEq, Eq)]
pub struct Embed {
    pub author: Option<String>,
    pub description: Option<String>,
    pub fields: Vec<EmbedField>,
}

/// An event read from a feed message.
#[derive(Clone, Debug, PartialEq, Eq)]
pub enum FeedEvent {
    Drop { handle: String, item: String, quantity: i64, value: i64 },
    Collection { handle: String, item: String },
}

/// A feed event as plain values.
pub enum Candidate {
    Drop { handle: Seq<char>, item: Seq<char>, quantity: int, value: int },
    Collection { handle: Seq<char>, item: Seq<char> },
}

impl View for FeedEvent {
    type V = Candidate;

    open spec fn view(&self) -> Candidate {
        match *self {
            FeedEvent::Drop { handle, item, quantity, value } => Candidate::Drop {
                handle: handle@,
                item: item@,
                quantity: quantity as int,
                value: value as int,
            },
            FeedEvent::Collection { handle, item } => Candidate::Collection {
                handle: handle@,
                item: item@,
            },
        }
    }
}

/// An optional event as plain values.
pub open spec fn event_view(e: Option<FeedEvent>) -> Option<Candidate> {
    match e {
        Some(e) => Some(e@),
        None => None,
    }
}

/// Capture group `i`, or `None` where it is absent or took no part.
pub open spec fn group(caps: Seq<Option<Seq<char>>>, i: int) -> Option<Seq<char>> {
    if 0 <= i < caps.len() {
        caps[i]
    } else {
        None
    }
}

/// Capture group `i` trimmed, empty where it is absent.
pub open spec fn group_text(caps: Seq<Option<Seq<char>>>, i: int) -> Seq<char> {
    match group(caps, i) {
        Some(t) => trimmed(t),
        None => Seq::empty(),
    }
}

/// The quantity that a capture group writes, 1 where there is none or it
/// is no number.
pub open spec fn quantity_of_group(g: Option<Seq<char>>) -> int {
    match g {
        Some(t) => match parsed_i64(t) {
            Some(v) => v as int,
            None => 1,
        },
        None => 1,
    }
}

/// The value that a capture group writes once its thousands separators are
/// taken out, 0 where there is none or it is no number.
pub open spec fn value_of_group(g: Option<Seq<char>>) -> int {
    match g {
        Some(t) => match parsed_i64(without_commas(t)) {
            Some(v) => v as int,
            None => 0,
        },
        None => 0,
    }
}

/// The drop that the groups of the plain-text drop pattern describe; none
/// where the item is empty after trimming.
pub open spec fn drop_event(caps: Seq<Option<Seq<char>>>) -> Option<Candidate> {
    if group_text(caps, 2).len() == 0 {
        None
    } else {
        Some(
            Candidate::Drop {
                handle: group_text(caps, 1),
                item: group_text(caps, 2),
                quantity: quantity_of_group(group(caps, 3)),
                value: value_of_group(group(caps, 4)),
            },
        )
    }
}

/// The collection entry that the groups of the collection pattern describe:
/// handle and item from groups 1 and 2 where both took part, else from
/// groups 3 and 4; none where either is empty after trimming.
pub open spec fn collection_event(caps: Seq<Option<Seq<char>>>) -> Option<Candidate> {
    let bold = group(caps, 1).is_some() && group(caps, 2).is_some();
    let plain = group(caps, 3).is_some() && group(caps, 4).is_some();
    let handle = if bold {
        group_text(caps, 1)
    } else if plain {
        group_text(caps, 3)
    } else {
        Seq::empty()
    };
    let item = if bold {
        group_text(caps, 2)
    } else if plain {
        group_text(caps, 4)
    } else {
        Seq::empty()
    };
    if handle.len() == 0 || item.len() == 0 {
        None
    } else {
        Some(Candidate::Collection { handle, item })
    }
}

/// The drop that an embed describes, given the groups of the embed pattern
/// on its description, its author and the value of its fields; none where
/// the author is missing or empty, or the item is empty after trimming.
pub open spec fn embed_drop_event(
    caps: Seq<Option<Seq<char>>>,
    author: Option<Seq<char>>,
    value: int,
) -> Option<Candidate> {
    match author {
        Some(name) => if name.len() == 0 || group_text(caps, 2).len() == 0 {
            None
        } else {
            Some(
                Candidate::Drop {
                    handle: name,
                    item: group_text(caps, 2),
                    quantity: quantity_of_group(group(caps, 1)),
                    value,
                },
            )
        },
        None => None,
    }
}

/// The event in one text: a drop where the drop pattern gives one, else a
/// collection entry where the collection pattern gives one.
pub open spec fn text_event(text: Seq<char>) -> Option<Candidate> {
    let as_drop = match regex_captures(DROP_PATTERN@, text) {
        Some(caps) => drop_event(caps),
        None => None,
    };
    match as_drop {
        Some(e) => Some(e),
        None => match regex_captures(CLOG_PATTERN@, text) {
            Some(caps) => collection_event(caps),
            None => None,
        },
    }
}

/// The event of the first text of `texts` that holds one.
pub open spec fn first_text_event(texts: Seq<Seq<char>>) -> Option<Candidate>
    decreases texts.len(),
{
    if texts.len() == 0 {
        None
    } else {
        match text_event(texts[0]) {
            Some(e) => Some(e),
            None => first_text_event(texts.subrange(1, texts.len() as int)),
        }
    }
}

/// The value of the last field named `GE Value` whose text is not empty and
/// holds a fenced value; 0 where there is no such field.
pub open spec fn fields_value(fields: Seq<EmbedField>) -> int
    decreases fields.len(),
{
    if fields.len() == 0 {
        0
    } else {
        let f = fields.last();
        let caps = regex_captures(EMBED_VALUE_PATTERN@, f.value@);
        if f.name@ == VALUE_FIELD@ && f.value@.len() > 0 && caps.is_some() {
            value_of_group(group(caps.unwrap(), 1))
        } else {
            fields_value(fields.drop_last())
        }
    }
}

/// The drop that one embed describes by its author, description and fields.
pub open spec fn embed_event(e: Embed) -> Option<Candidate> {
    match e.description {
        Some(d) => match regex_captures(EMBED_DROP_PATTERN@, d@) {
            Some(caps) => embed_drop_event(caps, opt_view(e.author), fields_value(e.fields@)),
            None => None,
        },
        None => None,
    }
}

/// The drop of the first embed of `embeds` that describes one.
pub open spec fn first_embed_event(embeds: Seq<Embed>) -> Option<Candidate>
    decreases embeds.len(),
{
    if embeds.len() == 0 {
        None
    } else {
        match embed_event(embeds[0]) {
            Some(e) => Some(e),
            None => first_embed_event(embeds.subrange(1, embeds.len() as int)),
        }
    }
}

/// The values of the fields, in order.
pub open spec fn field_values(fields: Seq<EmbedField>) -> Seq<Seq<char>> {
    Seq::new(fields.len(), |i: int| fields[i].value@)
}

/// The texts of one embed that may hold an event in plain text: its
/// description, if it has one, then the values of its fields.
pub open spec fn embed_texts(e: Embed) -> Seq<Seq<char>> {
    match e.description {
        Some(d) => seq![d@] + field_values(e.fields@),
        None => field_values(e.fields@),
    }
}

/// The plain texts of all embeds, in order.
pub open spec fn all_embed_texts(embeds: Seq<Embed>) -> Seq<Seq<char>>
    decreases embeds.len(),
{
    if embeds.len() == 0 {
        Seq::empty()
    } else {
        all_embed_texts(embeds.drop_last()) + embed_texts(embeds.last())
    }
}

/// The event of a message, if it holds one: the first that the plain-text
/// patterns find in the message text, then in the descriptions and field
/// values of its embeds; failing that, the first drop that an embed
/// describes by its author, description and fields.
pub open spec fn message_event(content: Seq<char>, embeds: Seq<Embed>) -> Option<Candidate> {
    match first_text_event(seq![content] + all_embed_texts(embeds)) {
        Some(e) => Some(e),
        None => first_embed_event(embeds),
    }
}

fn group_at(caps: &Vec<Option<String>>, i: usize) -> (r: Option<&String>)
    ensures
        match r {
            Some(s) => Some(s@),
            None => None,
        } == group(groups_view(caps@), i as int),
{
    if i < caps.len() {
        match &caps[i] {
            Some(s) => Some(s),
            None => None,
        }
    } else {
        None
    }
}

fn group_trimmed(caps: &Vec<Option<String>>, i: usize) -> (r: String)
    ensures
        r@ == group_text(groups_view(caps@), i as int),
{
    match group_at(caps, i) {
        Some(s) => trim(s.as_str()),
        None => String::new(),
    }
}

fn group_quantity(caps: &Vec<Option<String>>, i: usize) -> (r: i64)
    ensures
        r == quantity_of_group(group(groups_view(caps@), i as int)),
{
    match group_at(caps, i) {
        Some(s) => match parse_i64(s.as_str()) {
            Some(v) => v,
            None => 1,
        },
        None => 1,
    }
}

fn group_value(caps: &Vec<Option<String>>, i: usize) -> (r: i64)
    ensures
        r == value_of_group(group(groups_view(caps@), i as int)),
{
    match group_at(caps, i) {
        Some(s) => {
            let digits = strip_commas(s.as_str());
            match parse_i64(digits.as_str()) {
                Some(v) => v,
                None => 0,
            }
        },
        None => 0,
    }
}

fn is_blank(s: &String) -> (r: bool)
    ensures
        r == (s@.len() == 0),
{
    s.as_str().is_empty()
}

/// Reads a drop from the capture groups of the plain-text drop pattern.
pub fn drop_from_captures(caps: &Vec<Option<String>>) -> (r: Option<FeedEvent>)
    ensures
        event_view(r) == drop_event(groups_view(caps@)),
{
    let item = group_trimmed(caps, 2);
    if is_blank(&item) {
        None
    } else {
        Some(
            FeedEvent::Drop {
                handle: group_trimmed(caps, 1),
                item,
                quantity: group_quantity(caps, 3),
                value: group_value(caps, 4),
            },
        )
    }
}

/// Reads a collection entry from the capture groups of the collection
/// pattern.
pub fn collection_from_captures(caps: &Vec<Option<String>>) -> (r: Option<FeedEvent>)
    ensures
        event_view(r) == collection_event(groups_view(caps@)),
{
    let bold = group_at(caps, 1).is_some() && group_at(caps, 2).is_some();
    let plain = group_at(caps, 3).is_some() && group_at(caps, 4).is_some();
    let handle = if bold {
        group_trimmed(caps, 1)
    } else if plain {
        group_trimmed(caps, 3)
    } else {
        String::new()
    };
    let item = if bold {
        group_trimmed(caps, 2)
    } else if plain {
        group_trimmed(caps, 4)
    } else {
        String::new()
    };
    if is_blank(&handle) || is_blank(&item) {
        None
    } else {
        Some(FeedEvent::Collection { handle, item })
    }
}

/// Reads a drop from the capture groups of the embed pattern, the embed's
/// author and the value found in its fields.
pub fn embed_drop_from_captures(
    caps: &Vec<Option<String>>,
    author: &Option<String>,
    value: i64,
) -> (r: Option<FeedEvent>)
    ensures
        event_view(r) == embed_drop_event(groups_view(caps@), opt_view(*author), value as int),
{
    match author {
        Some(name) => {
            let item = group_trimmed(caps, 2);
            if is_blank(name) || is_blank(&item) {
                None
            } else {
                Some(
                    FeedEvent::Drop {
                        handle: name.clone(),
                        item,
                        quantity: group_quantity(caps, 1),
                        value,
                    },
                )
            }
        },
        None => None,
    }
}

/// The event that the plain-text patterns find in `text`.
pub fn event_in_text(text: &str) -> (r: Option<FeedEvent>)
    ensures
        event_view(r) == text_event(text@),
{
    let as_drop = match captures(DROP_PATTERN, text) {
        Some(caps) => drop_from_captures(&caps),
        None => None,
    };
    match as_drop {
        Some(e) => Some(e),
        None => match captures(CLOG_PATTERN, text) {
            Some(caps) => collection_from_captures(&caps),
            None => None,
        },
    }
}

/// The value that the fields of an embed give for a drop.
pub fn value_in_fields(fields: &Vec<EmbedField>) -> (r: i64)
    ensures
        r == fields_value(fields@),
{
    let wanted = String::from_str(VALUE_FIELD);
    let mut value: i64 = 0;
    let mut i: usize = 0;
    assert(fields@.subrange(0, 0) =~= Seq::<EmbedField>::empty());
    while i < fields.len()
        invariant
            i <= fields@.len(),
            wanted@ == VALUE_FIELD@,
            value == fields_value(fields@.subrange(0, i as int)),
        decreases fields@.len() - i,
    {
        proof {
            assert(fields@.subrange(0, i + 1).drop_last() =~= fields@.subrange(0, i as int));
            assert(fields@.subrange(0, i + 1).last() == fields@[i as int]);
        }
        let f = &fields[i];
        if f.name == wanted && !is_blank(&f.value) {
            match captures(EMBED_VALUE_PATTERN, f.value.as_str()) {
                Some(caps) => {
                    value = group_value(&caps, 1);
                },
                None => {},
            }
        }
        i += 1;
    }
    assert(fields@.subrange(0, i as int) =~= fields@);
    value
}

/// The drop that an embed describes by its author, description and fields.
pub fn event_in_embed(e: &Embed) -> (r: Option<FeedEvent>)
    ensures
        event_view(r) == embed_event(*e),
{
    match &e.description {
        Some(d) => match captures(EMBED_DROP_PATTERN, d.as_str()) {
            Some(caps) => {
                let value = value_in_fields(&e.fields);
                embed_drop_from_captures(&caps, &e.author, value)
            },
            None => None,
        },
        None => None,
    }
}

/// The message text, then the description and field values of each embed.
pub fn plain_texts(content: &str, embeds: &Vec<Embed>) -> (r: Vec<String>)
    ensures
        strings_view(r@) == seq![content@] + all_embed_texts(embeds@),
{
    let mut out: Vec<String> = Vec::new();
    out.push(String::from_str(content));
    let mut i: usize = 0;
    assert(embeds@.subrange(0, 0) =~= Seq::<Embed>::empty());
    assert(strings_view(out@) =~= seq![content@] + all_embed_texts(embeds@.subrange(0, 0)));
    while i < embeds.len()
        invariant
            i <= embeds@.len(),
            strings_view(out@) == seq![content@] + all_embed_texts(embeds@.subrange(0, i as int)),
        decreases embeds@.len() - i,
    {
        let e = &embeds[i];
        let ghost before = strings_view(out@);
        match &e.description {
            Some(d) => {
                out.push(d.clone());
            },
            None => {},
        }
        let ghost with_description = strings_view(out@);
        let mut j: usize = 0;
        assert(strings_view(out@) =~= with_description + field_values(e.fields@).subrange(0, 0));
        while j < e.fields.len()
            invariant
                j <= e.fields@.len(),
                strings_view(out@) == with_description + field_values(e.fields@).subrange(0, j as int),
            decreases e.fields@.len() - j,
        {
            let ghost listed = strings_view(out@);
            out.push(e.fields[j].value.clone());
            j += 1;
            proof {
                assert(strings_view(out@) =~= listed.push(e.fields@[j - 1].value@));
                assert(field_values(e.fields@).subrange(0, j as int) =~= field_values(
                    e.fields@,
                ).subrange(0, j - 1).push(e.fields@[j - 1].value@));
                assert(strings_view(out@) =~= with_description + field_values(e.fields@).subrange(
                    0,
                    j as int,
                ));
            }
        }
        proof {
            assert(field_values(e.fields@).subrange(0, j as int) =~= field_values(e.fields@));
            assert(embeds@.subrange(0, i + 1).drop_last() =~= embeds@.subrange(0, i as int));
            assert(embeds@.subrange(0, i + 1).last() == *e);
            assert(with_description =~= before + match e.description {
                Some(d) => seq![d@],
                None => Seq::<Seq<char>>::empty(),
            });
            assert(strings_view(out@) =~= before + embed_texts(*e));
        }
        i += 1;
    }
    assert(embeds@.subrange(0, i as int) =~= embeds@);
    out
}

/// The event of the first text that holds one.
pub fn first_event_in_texts(texts: &Vec<String>) -> (r: Option<FeedEvent>)
    ensures
        event_view(r) == first_text_event(strings_view(texts@)),
{
    let ghost all = strings_view(texts@);
    let mut i: usize = 0;
    assert(all.subrange(0, all.len() as int) =~= all);
    while i < texts.len()
        invariant
            i <= texts@.len(),
            all == strings_view(texts@),
            first_text_event(all) == first_text_event(all.subrange(i as int, all.len() as int)),
        decreases texts@.len() - i,
    {
        let ghost rest = all.subrange(i as int, all.len() as int);
        proof {
            assert(rest[0] == texts@[i as int]@);
            assert(rest.subrange(1, rest.len() as int) =~= all.subrange(i + 1, all.len() as int));
        }
        match event_in_text(texts[i].as_str()) {
            Some(e) => {
                return Some(e);
            },
            None => {},
        }
        i += 1;
    }
    None
}

/// The drop of the first embed that describes one.
pub fn first_event_in_embeds(embeds: &Vec<Embed>) -> (r: Option<FeedEvent>)
    ensures
        event_view(r) == first_embed_event(embeds@),
{
    let mut i: usize = 0;
    assert(embeds@.subrange(0, embeds@.len() as int) =~= embeds@);
    while i < embeds.len()
        invariant
            i <= embeds@.len(),
            first_embed_event(embeds@) == first_embed_event(
                embeds@.subrange(i as int, embeds@.len() as int),
            ),
        decreases embeds@.len() - i,
    {
        let ghost rest = embeds@.subrange(i as int, embeds@.len() as int);
        proof {
            assert(rest[0] == embeds@[i as int]);
            assert(rest.subrange(1, rest.len() as int) =~= embeds@.subrange(
                i + 1,
                embeds@.len() as int,
            ));
        }
        match event_in_embed(&embeds[i]) {
            Some(e) => {
                return Some(e);
            },
            None => {},
        }
        i += 1;
    }
    None
}

/// Reads the feed of the game client.
pub struct RunescapeTracker {}

impl RunescapeTracker {
    /// A tracker. It holds no state.
    pub fn new() -> (r: RunescapeTracker) {
        RunescapeTracker {  }
    }

    /// Reads at most one event from a feed message. `None` is the common
    /// outcome for a message that no pattern matches.
    pub fn process_message(&self, content: &str, embeds: &Vec<Embed>) -> (r: Option<FeedEvent>)
        ensures
            event_view(r) == message_event(content@, embeds@),
    {
        let texts = plain_texts(content, embeds);
        match first_event_in_texts(&texts) {
            Some(e) => Some(e),
            None => first_event_in_embeds(embeds),
        }
    }
}

} // verus!
