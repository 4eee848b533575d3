//! The commands of a player: each changes the ledger or reads it, and
//! answers with a reply, a line for the action log and, where ranks were
//! crossed, an alert for the moderators.

use crate::collection_log::item_points;
use crate::collection_log::CollectionLogData;
use crate::ledger::collection_step;
use crate::ledger::event_count;
use crate::ledger::is_best;
use crate::ledger::is_recent_listing;
use crate::ledger::handles_of;
use crate::ledger::is_listed;
use crate::ledger::is_owned;
use crate::ledger::links_pair;
use crate::ledger::points_sum;
use crate::ledger::priced_step;
use crate::ledger::quantity_sum;
use crate::ledger::removal_step;
use crate::ledger::EventKind;
use crate::ledger::EventRecord;
use crate::ledger::Standing;
use crate::ledger::error_of;
use crate::ledger::CoreError;
use crate::ledger::EventSummary;
use crate::ledger::Ledger;
use crate::prices::item_price;
use crate::prices::PriceData;
use crate::rank_manager::comma_join;
use crate::rank_manager::comma_joined;
use crate::rank_manager::rank_alert;
use crate::rank_manager::rank_alert_text;
use crate::rank_manager::rank_phrase;
use crate::rank_manager::rank_phrase_text;
use crate::rank_manager::current_rank;
use crate::rank_manager::next_rank;
use crate::rank_manager::next_view;
use crate::rank_manager::rank_span;
use crate::rank_manager::PointsUpdate;
use crate::scoring::total_value;
use crate::text::format_count;
use crate::text::format_number;
use crate::text::format_points;
use crate::text::grouped;
use crate::text::int_text;
use crate::text::join_with;
use crate::text::joined_with;
use crate::text::number_text;
use crate::text::opt_view;
use crate::text::unsigned_text;
use crate::text::strings_view;
use vstd::prelude::*;
use vstd::string::StringExecFns;

verus! {

/// What a command that changes the ledger answers with.
#[derive(Debug)]
pub struct CommandOutcome {
    /// What the ledger did.
    pub result: Result<EventSummary, CoreError>,
    /// The reply to the player. A duplicate collection entry has none
    /// here: its reply names a date, see `duplicate_reply`.
    pub reply: Option<String>,
    /// The action and its details for the action log, after a change.
    pub log: Option<(String, String)>,
    /// The alert for the moderators, where ranks were crossed.
    pub alert: Option<String>,
}

/// The characters of an optional pair of strings.
pub open spec fn log_view(o: Option<(String, String)>) -> Option<(Seq<char>, Seq<char>)> {
    match o {
        Some(p) => Some((p.0@, p.1@)),
        None => None,
    }
}

/// Where the next rank lies, as a sentence.
pub open spec fn next_rank_sentence(next: (int, Seq<char>)) -> Seq<char> {
    " Next rank at "@ + grouped(int_text(next.0)) + " points for "@ + next.1 + "!"@
}

/// What was gained and the balance reached.
pub open spec fn gained_text(headline: Seq<char>, points: int, new_points: int) -> Seq<char> {
    headline + " (+"@ + grouped(int_text(points)) + " points)! You now have "@ + grouped(
        int_text(new_points),
    ) + " points"@
}

/// The reply to a recorded event: what was gained, the ranks achieved if
/// any were crossed, and the next rank if there is one.
pub open spec fn recorded_reply_text(
    headline: Seq<char>,
    points: int,
    new_points: int,
    crossed: Seq<Seq<char>>,
    next: Option<(int, Seq<char>)>,
) -> Seq<char> {
    let gained = gained_text(headline, points, new_points);
    if crossed.len() > 0 {
        "🎆 🎇 **RANK UP!** 🎇 🎆\n"@ + gained + " and achieved "@ + rank_phrase_text(crossed) + "!"@
            + match next {
            Some(n) => next_rank_sentence(n),
            None => Seq::empty(),
        }
    } else {
        match next {
            Some(n) => gained + "."@ + next_rank_sentence(n),
            None => gained + "!"@,
        }
    }
}

/// The headline of a recorded drop.
pub open spec fn drop_headline(quantity: int, item: Seq<char>, total: int) -> Seq<char> {
    "Drop recorded: "@ + grouped(int_text(quantity)) + "x "@ + item + " ("@ + grouped(
        int_text(total),
    ) + " gp)"@
}

/// The headline of a recorded collection entry.
pub open spec fn clog_headline(item: Seq<char>) -> Seq<char> {
    "Collection log entry recorded: "@ + item
}

/// The details of a drop for the action log.
pub open spec fn drop_details(quantity: int, item: Seq<char>, total: int) -> Seq<char> {
    int_text(quantity) + "x "@ + item + " ("@ + grouped(int_text(total)) + " gp)"@
}

/// The details of a collection entry for the action log.
pub open spec fn clog_details(item: Seq<char>, points: Seq<char>) -> Seq<char> {
    item + " ("@ + points + " pts)"@
}

/// The ranks lost, as the end of a reply.
pub open spec fn ranks_lost_text(crossed: Seq<Seq<char>>) -> Seq<char> {
    "\n⬇️ **RANK DOWN!** ⬇️\nYou have lost "@ + rank_phrase_text(crossed) + "."@
}

/// The reply to a removed drop.
pub open spec fn drop_removed_text(
    quantity: int,
    item: Seq<char>,
    value: int,
    points: int,
    crossed: Seq<Seq<char>>,
) -> Seq<char> {
    let head = "Drop removed: "@ + drop_details(quantity, item, value) + "."@;
    if points > 0 {
        head + " "@ + int_text(points) + " points have been deducted from your total."@ + if crossed.len()
            > 0 {
            ranks_lost_text(crossed)
        } else {
            Seq::empty()
        }
    } else {
        head + " No points were deducted."@
    }
}

/// The reply to a removed collection entry.
pub open spec fn clog_removed_text(item: Seq<char>, points: int, crossed: Seq<Seq<char>>) -> Seq<
    char,
> {
    if points > 0 {
        "Collection log entry removed: "@ + clog_details(item, int_text(points))
            + ". Points have been deducted from your total."@ + if crossed.len() > 0 {
            ranks_lost_text(crossed)
        } else {
            Seq::empty()
        }
    } else {
        "Collection log entry removed: "@ + item + " (0 pts). No points were deducted."@
    }
}

fn next_rank_info(next: &(i64, String)) -> (r: String)
    ensures
        r@ == next_rank_sentence((next.0 as int, next.1@)),
{
    let mut out = String::from_str(" Next rank at ");
    out.append(format_number(next.0).as_str());
    out.append(" points for ");
    out.append(next.1.as_str());
    out.append("!");
    out
}

/// The reply to a recorded event.
pub fn recorded_reply(headline: &str, points: i64, update: &PointsUpdate) -> (r: String)
    ensures
        r@ == recorded_reply_text(
            headline@,
            points as int,
            update.new_points as int,
            strings_view(update.crossed_ranks@),
            next_view(update.next_rank),
        ),
{
    let mut gained = String::from_str(headline);
    gained.append(" (+");
    gained.append(format_number(points).as_str());
    gained.append(" points)! You now have ");
    gained.append(format_number(update.new_points).as_str());
    gained.append(" points");
    if update.crossed_ranks.len() > 0 {
        let mut out = String::from_str("🎆 🎇 **RANK UP!** 🎇 🎆\n");
        out.append(gained.as_str());
        out.append(" and achieved ");
        out.append(rank_phrase(&update.crossed_ranks).as_str());
        out.append("!");
        match &update.next_rank {
            Some(n) => {
                out.append(next_rank_info(n).as_str());
            },
            None => {
                assert(out@ + Seq::<char>::empty() =~= out@);
            },
        }
        out
    } else {
        match &update.next_rank {
            Some(n) => {
                gained.append(".");
                gained.append(next_rank_info(n).as_str());
            },
            None => {
                gained.append("!");
            },
        }
        gained
    }
}

fn drop_details_of(quantity: i64, item: &str, total: i64) -> (r: String)
    ensures
        r@ == drop_details(quantity as int, item@, total as int),
{
    let mut out = number_text(quantity);
    out.append("x ");
    out.append(item);
    out.append(" (");
    out.append(format_number(total).as_str());
    out.append(" gp)");
    out
}

fn clog_details_of(item: &str, points: &str) -> (r: String)
    ensures
        r@ == clog_details(item@, points@),
{
    let mut out = String::from_str(item);
    out.append(" (");
    out.append(points);
    out.append(" pts)");
    out
}

fn ranks_lost(crossed: &Vec<String>) -> (r: String)
    requires
        crossed@.len() >= 1,
    ensures
        r@ == ranks_lost_text(strings_view(crossed@)),
{
    let mut out = String::from_str("\n⬇️ **RANK DOWN!** ⬇️\nYou have lost ");
    out.append(rank_phrase(crossed).as_str());
    out.append(".");
    out
}

/// The reply to a removed drop of `quantity` items worth `value` coins and
/// `points` points, given the ranks that the removal crossed.
pub fn drop_removed_reply(
    quantity: i64,
    item: &str,
    value: i64,
    points: i64,
    crossed: &Vec<String>,
) -> (r: String)
    ensures
        r@ == drop_removed_text(
            quantity as int,
            item@,
            value as int,
            points as int,
            strings_view(crossed@),
        ),
{
    let mut out = String::from_str("Drop removed: ");
    out.append(drop_details_of(quantity, item, value).as_str());
    out.append(".");
    if points > 0 {
        out.append(" ");
        out.append(number_text(points).as_str());
        out.append(" points have been deducted from your total.");
        if crossed.len() > 0 {
            out.append(ranks_lost(crossed).as_str());
        } else {
            assert(out@ + Seq::<char>::empty() =~= out@);
        }
    } else {
        out.append(" No points were deducted.");
    }
    out
}

/// The reply to a removed collection entry worth `points` points, given
/// the ranks that the removal crossed.
pub fn clog_removed_reply(item: &str, points: i64, crossed: &Vec<String>) -> (r: String)
    ensures
        r@ == clog_removed_text(item@, points as int, strings_view(crossed@)),
{
    let mut out = String::from_str("Collection log entry removed: ");
    if points > 0 {
        out.append(clog_details_of(item, number_text(points).as_str()).as_str());
        out.append(". Points have been deducted from your total.");
        if crossed.len() > 0 {
            out.append(ranks_lost(crossed).as_str());
        } else {
            assert(out@ + Seq::<char>::empty() =~= out@);
        }
    } else {
        out.append(item);
        out.append(" (0 pts). No points were deducted.");
    }
    out
}

/// The reply to a drop that was refused.
pub open spec fn drop_refused_text(e: CoreError, item: Seq<char>) -> Seq<char> {
    match e {
        CoreError::NotFound => "Item '"@ + item + "' not found in price database."@,
        _ => "That drop is too large to record."@,
    }
}

/// The reply to a collection entry that was refused; none for a duplicate,
/// whose reply names a date.
pub open spec fn clog_refused_text(e: CoreError, item: Seq<char>) -> Option<Seq<char>> {
    match e {
        CoreError::NotFound => Some("Item '"@ + item + "' not found in collection log."@),
        CoreError::Duplicate { recorded_at } => None,
        _ => Some("That entry is too large to record."@),
    }
}

/// The reply to a collection entry that the player already holds, given
/// the date of the entry held.
pub open spec fn duplicate_text(item: Seq<char>, when: Seq<char>) -> Seq<char> {
    "You've already logged "@ + item + " in your collection log on "@ + when + "!"@
}

/// The quantity of a drop command: 1 where none is given.
pub open spec fn quantity_or_one(quantity: Option<i64>) -> int {
    match quantity {
        Some(q) => q as int,
        None => 1,
    }
}

/// What the command that records a drop does and answers.
pub open spec fn drop_outcome(
    pre: Ledger,
    post: Ledger,
    owner: u64,
    user_name: Seq<char>,
    item: Seq<char>,
    quantity: int,
    price: Option<i64>,
    now: int,
    out: CommandOutcome,
) -> bool {
    &&& priced_step(pre, post, owner, item, quantity, price, now, out.result)
    &&& match out.result {
        Ok(s) => {
            let total = price.unwrap() * quantity;
            &&& opt_view(out.reply) == Some(
                recorded_reply_text(
                    drop_headline(quantity, item, total),
                    s.points_delta as int,
                    s.update.new_points as int,
                    strings_view(s.update.crossed_ranks@),
                    next_view(s.update.next_rank),
                ),
            )
            &&& log_view(out.log) == Some(("ADDED DROP"@, drop_details(quantity, item, total)))
            &&& opt_view(out.alert) == rank_alert_text(
                user_name,
                s.update.old_points as int,
                s.update.new_points as int,
                strings_view(s.update.crossed_ranks@),
            )
        },
        Err(e) => {
            &&& opt_view(out.reply) == Some(drop_refused_text(e, item))
            &&& out.log.is_none()
            &&& out.alert.is_none()
        },
    }
}

/// What the command that records a collection entry does and answers.
pub open spec fn clog_outcome(
    pre: Ledger,
    post: Ledger,
    owner: u64,
    user_name: Seq<char>,
    item: Seq<char>,
    points: Option<i64>,
    now: int,
    out: CommandOutcome,
) -> bool {
    &&& collection_step(pre, post, owner, item, points, now, out.result)
    &&& match out.result {
        Ok(s) => {
            &&& opt_view(out.reply) == Some(
                recorded_reply_text(
                    clog_headline(item),
                    s.points_delta as int,
                    s.update.new_points as int,
                    strings_view(s.update.crossed_ranks@),
                    next_view(s.update.next_rank),
                ),
            )
            &&& log_view(out.log) == Some(
                ("ADDED CLOG"@, clog_details(item, grouped(int_text(s.points_delta as int)))),
            )
            &&& opt_view(out.alert) == rank_alert_text(
                user_name,
                s.update.old_points as int,
                s.update.new_points as int,
                strings_view(s.update.crossed_ranks@),
            )
        },
        Err(e) => {
            &&& opt_view(out.reply) == clog_refused_text(e, item)
            &&& out.log.is_none()
            &&& out.alert.is_none()
        },
    }
}

/// Records a drop of `quantity` items, one where none is given, at the
/// price that the table has for `item`.
pub fn handle_drop(
    ledger: &mut Ledger,
    prices: &PriceData,
    owner: u64,
    user_name: &str,
    item: &str,
    quantity: Option<i64>,
    now: i64,
) -> (out: CommandOutcome)
    requires
        old(ledger).wf(),
    ensures
        final(ledger).wf(),
        drop_outcome(
            *old(ledger),
            *final(ledger),
            owner,
            user_name@,
            item@,
            quantity_or_one(quantity),
            item_price(prices.mappings@, prices.latest_prices@, item@),
            now as int,
            out,
        ),
{
    let count = match quantity {
        Some(q) => q,
        None => 1,
    };
    let price = prices.get_item_price(item);
    let result = ledger.record_drop(owner, item, count, price, now);
    match &result {
        Ok(s) => {
            let total = match price {
                Some(unit) => match total_value(unit, count) {
                    Some(t) => t,
                    None => 0,
                },
                None => 0,
            };
            let mut headline = String::from_str("Drop recorded: ");
            headline.append(format_number(count).as_str());
            headline.append("x ");
            headline.append(item);
            headline.append(" (");
            headline.append(format_number(total).as_str());
            headline.append(" gp)");
            let reply = recorded_reply(headline.as_str(), s.points_delta, &s.update);
            let details = drop_details_of(count, item, total);
            let alert = rank_alert(user_name, &s.update);
            CommandOutcome {
                result,
                reply: Some(reply),
                log: Some((String::from_str("ADDED DROP"), details)),
                alert,
            }
        },
        Err(e) => {
            let reply = match e {
                CoreError::NotFound => {
                    let mut text = String::from_str("Item '");
                    text.append(item);
                    text.append("' not found in price database.");
                    text
                },
                _ => String::from_str("That drop is too large to record."),
            };
            CommandOutcome { result, reply: Some(reply), log: None, alert: None }
        },
    }
}

/// Records a collection entry for `item` at the points that the log has
/// for it.
pub fn handle_clog(
    ledger: &mut Ledger,
    log: &CollectionLogData,
    owner: u64,
    user_name: &str,
    item: &str,
    now: i64,
) -> (out: CommandOutcome)
    requires
        old(ledger).wf(),
    ensures
        final(ledger).wf(),
        clog_outcome(
            *old(ledger),
            *final(ledger),
            owner,
            user_name@,
            item@,
            item_points(log.items@, item@),
            now as int,
            out,
        ),
{
    let points = log.calculate_points(item);
    let result = ledger.record_collection(owner, item, points, now);
    match &result {
        Ok(s) => {
            let mut headline = String::from_str("Collection log entry recorded: ");
            headline.append(item);
            let reply = recorded_reply(headline.as_str(), s.points_delta, &s.update);
            let details = clog_details_of(item, format_number(s.points_delta).as_str());
            let alert = rank_alert(user_name, &s.update);
            CommandOutcome {
                result,
                reply: Some(reply),
                log: Some((String::from_str("ADDED CLOG"), details)),
                alert,
            }
        },
        Err(e) => {
            let reply = match e {
                CoreError::NotFound => {
                    let mut text = String::from_str("Item '");
                    text.append(item);
                    text.append("' not found in collection log.");
                    Some(text)
                },
                CoreError::Duplicate { recorded_at } => None,
                _ => Some(String::from_str("That entry is too large to record.")),
            };
            CommandOutcome { result, reply, log: None, alert: None }
        },
    }
}

/// The reply to a collection entry that the player already holds, `when`
/// being the date of the entry held as the reply is to show it.
pub fn duplicate_reply(item: &str, when: &str) -> (r: String)
    ensures
        r@ == duplicate_text(item@, when@),
{
    let mut out = String::from_str("You've already logged ");
    out.append(item);
    out.append(" in your collection log on ");
    out.append(when);
    out.append("!");
    out
}

/// `owner` has an event of `kind`.
pub open spec fn has_events(rs: Seq<EventRecord>, owner: u64, kind: EventKind) -> bool {
    exists|i: int| 0 <= i < rs.len() && is_listed(#[trigger] rs[i], owner, kind)
}

/// `owner` has the event `record_id`, and it is of `kind`.
pub open spec fn has_event(rs: Seq<EventRecord>, owner: u64, record_id: u64, kind: EventKind) -> bool {
    exists|i: int|
        0 <= i < rs.len() && is_owned(#[trigger] rs[i], owner, record_id) && rs[i].kind == kind
}

/// The reply where `owner` has no event of `kind` at all.
pub open spec fn nothing_to_remove_text(kind: EventKind) -> Seq<char> {
    match kind {
        EventKind::Drop => "You don't have any recorded drops to remove."@,
        EventKind::Collection => "You don't have any recorded collection log entries to remove."@,
    }
}

/// The reply where `owner` has no event of `kind` under `record_id`.
pub open spec fn no_such_event_text(kind: EventKind, record_id: u64) -> Seq<char> {
    match kind {
        EventKind::Drop => "No drop found with ID "@ + int_text(record_id as int) + "."@,
        EventKind::Collection => "No collection log entry found with ID "@ + int_text(
            record_id as int,
        ) + "."@,
    }
}

/// The reply to the removal of `rec`, given the ranks that it crossed.
pub open spec fn removed_text(rec: EventRecord, crossed: Seq<Seq<char>>) -> Seq<char> {
    match rec.kind {
        EventKind::Drop => drop_removed_text(
            rec.quantity as int,
            rec.item@,
            rec.value as int,
            rec.points as int,
            crossed,
        ),
        EventKind::Collection => clog_removed_text(rec.item@, rec.points as int, crossed),
    }
}

/// The action and the details of the removal of `rec` for the action log.
pub open spec fn removed_log(rec: EventRecord) -> (Seq<char>, Seq<char>) {
    match rec.kind {
        EventKind::Drop => (
            "REMOVED DROP"@,
            drop_details(rec.quantity as int, rec.item@, rec.value as int) + " [ID: "@ + int_text(
                rec.id as int,
            ) + "]"@,
        ),
        EventKind::Collection => (
            "REMOVED CLOG"@,
            clog_details(rec.item@, int_text(rec.points as int)) + " [ID: "@ + int_text(
                rec.id as int,
            ) + "]"@,
        ),
    }
}

/// What the command that removes an event of `kind` does and answers: it
/// refuses where `owner` has no event of that kind, or none under
/// `record_id`; else it removes the event.
pub open spec fn removal_outcome(
    pre: Ledger,
    post: Ledger,
    owner: u64,
    user_name: Seq<char>,
    record_id: u64,
    kind: EventKind,
    out: CommandOutcome,
) -> bool {
    if !has_event(pre.records(), owner, record_id, kind) {
        &&& post == pre
        &&& error_of(out.result) == Some(CoreError::NotOwned)
        &&& opt_view(out.reply) == Some(
            if has_events(pre.records(), owner, kind) {
                no_such_event_text(kind, record_id)
            } else {
                nothing_to_remove_text(kind)
            },
        )
        &&& out.log.is_none()
        &&& out.alert.is_none()
    } else {
        &&& removal_step(pre, post, owner, record_id, out.result)
        &&& match out.result {
            Ok(s) => {
                &&& exists|i: int|
                    0 <= i < pre.records().len() && is_owned(
                        #[trigger] pre.records()[i],
                        owner,
                        record_id,
                    ) && opt_view(out.reply) == Some(
                        removed_text(pre.records()[i], strings_view(s.update.crossed_ranks@)),
                    ) && log_view(out.log) == Some(removed_log(pre.records()[i]))
                &&& opt_view(out.alert) == rank_alert_text(
                    user_name,
                    s.update.old_points as int,
                    s.update.new_points as int,
                    strings_view(s.update.crossed_ranks@),
                )
            },
            Err(e) => {
                &&& opt_view(out.reply) == Some("That removal would take your total out of range."@)
                &&& out.log.is_none()
                &&& out.alert.is_none()
            },
        }
    }
}

fn refusal(e: CoreError, reply: String) -> (out: CommandOutcome)
    ensures
        out.result == Err::<EventSummary, CoreError>(e),
        out.reply == Some(reply),
        out.log.is_none(),
        out.alert.is_none(),
{
    CommandOutcome { result: Err(e), reply: Some(reply), log: None, alert: None }
}

fn with_id(details: String, record_id: u64) -> (r: String)
    ensures
        r@ == details@ + " [ID: "@ + int_text(record_id as int) + "]"@,
{
    let mut out = details;
    out.append(" [ID: ");
    out.append(unsigned_text(record_id).as_str());
    out.append("]");
    out
}

fn remove_of_kind(
    ledger: &mut Ledger,
    owner: u64,
    user_name: &str,
    record_id: u64,
    kind: EventKind,
) -> (out: CommandOutcome)
    requires
        old(ledger).wf(),
    ensures
        final(ledger).wf(),
        removal_outcome(*old(ledger), *final(ledger), owner, user_name@, record_id, kind, out),
{
    proof {
        ledger.lemma_valid();
    }
    let found = ledger.find_record(owner, record_id);
    let ghost seen = found;
    let matching = match found {
        Some(rec) => if rec.kind == kind {
            Some(rec)
        } else {
            None
        },
        None => None,
    };
    let rec = match matching {
        Some(rec) => rec,
        None => {
            let any = ledger.list_recent(owner, kind, 1);
            proof {
                if any@.len() > 0 {
                    assert(is_listed(any@[0], owner, kind) && ledger.records().contains(any@[0]));
                }
                if has_event(ledger.records(), owner, record_id, kind) {
                    let i = choose|i: int|
                        0 <= i < ledger.records().len() && is_owned(
                            #[trigger] ledger.records()[i],
                            owner,
                            record_id,
                        ) && ledger.records()[i].kind == kind;
                    if seen.is_some() {
                        let j = choose|j: int|
                            0 <= j < ledger.records().len() && ledger.records()[j] == seen.unwrap();
                        assert(i == j);
                    }
                }
            }
            let reply = if any.len() > 0 {
                let mut text = String::from_str(
                    match kind {
                        EventKind::Drop => "No drop found with ID ",
                        EventKind::Collection => "No collection log entry found with ID ",
                    },
                );
                text.append(unsigned_text(record_id).as_str());
                text.append(".");
                text
            } else {
                String::from_str(
                    match kind {
                        EventKind::Drop => "You don't have any recorded drops to remove.",
                        EventKind::Collection => "You don't have any recorded collection log entries to remove.",
                    },
                )
            };
            return refusal(CoreError::NotOwned, reply);
        },
    };
    proof {
        let j = choose|j: int| 0 <= j < ledger.records().len() && ledger.records()[j] == rec;
        assert(is_owned(ledger.records()[j], owner, record_id) && ledger.records()[j].kind == kind);
    }
    let result = ledger.remove_event(owner, record_id);
    match &result {
        Ok(s) => {
            let reply = match kind {
                EventKind::Drop => drop_removed_reply(
                    rec.quantity,
                    rec.item.as_str(),
                    rec.value,
                    rec.points,
                    &s.update.crossed_ranks,
                ),
                EventKind::Collection => clog_removed_reply(
                    rec.item.as_str(),
                    rec.points,
                    &s.update.crossed_ranks,
                ),
            };
            let log = match kind {
                EventKind::Drop => (
                    String::from_str("REMOVED DROP"),
                    with_id(drop_details_of(rec.quantity, rec.item.as_str(), rec.value), record_id),
                ),
                EventKind::Collection => (
                    String::from_str("REMOVED CLOG"),
                    with_id(
                        clog_details_of(rec.item.as_str(), number_text(rec.points).as_str()),
                        record_id,
                    ),
                ),
            };
            let alert = rank_alert(user_name, &s.update);
            proof {
                let j = choose|j: int|
                    0 <= j < old(ledger).records().len() && old(ledger).records()[j] == rec;
                assert(is_owned(old(ledger).records()[j], owner, record_id));
            }
            CommandOutcome { result, reply: Some(reply), log: Some(log), alert }
        },
        Err(e) => CommandOutcome {
            result,
            reply: Some(String::from_str("That removal would take your total out of range.")),
            log: None,
            alert: None,
        },
    }
}

/// Removes the drop `drop_id` of `owner`.
pub fn handle_drop_remove(ledger: &mut Ledger, owner: u64, user_name: &str, drop_id: u64) -> (out:
    CommandOutcome)
    requires
        old(ledger).wf(),
    ensures
        final(ledger).wf(),
        removal_outcome(
            *old(ledger),
            *final(ledger),
            owner,
            user_name@,
            drop_id,
            EventKind::Drop,
            out,
        ),
{
    remove_of_kind(ledger, owner, user_name, drop_id, EventKind::Drop)
}

/// Removes the collection entry `entry_id` of `owner`.
pub fn handle_clog_remove(ledger: &mut Ledger, owner: u64, user_name: &str, entry_id: u64) -> (out:
    CommandOutcome)
    requires
        old(ledger).wf(),
    ensures
        final(ledger).wf(),
        removal_outcome(
            *old(ledger),
            *final(ledger),
            owner,
            user_name@,
            entry_id,
            EventKind::Collection,
            out,
        ),
{
    remove_of_kind(ledger, owner, user_name, entry_id, EventKind::Collection)
}

/// What the points command answers: the balance of a known identity, or
/// that nothing is recorded yet.
pub open spec fn points_text(known: bool, points: int, total_drops: int) -> Seq<char> {
    if known {
        "You have "@ + int_text(points) + " points from "@ + int_text(total_drops)
            + " total drops!"@
    } else {
        "You haven't recorded any drops yet!"@
    }
}

/// Answers with the balance of `owner`.
pub fn handle_points(ledger: &Ledger, owner: u64) -> (r: String)
    requires
        ledger.wf(),
    ensures
        r@ == points_text(
            ledger.known(owner),
            points_sum(ledger.records(), owner),
            quantity_sum(ledger.records(), owner),
        ),
{
    if ledger.is_known(owner) {
        let balance = ledger.get_balance(owner);
        let mut out = String::from_str("You have ");
        out.append(number_text(balance.points).as_str());
        out.append(" points from ");
        out.append(number_text(balance.total_drop_quantity).as_str());
        out.append(" total drops!");
        out
    } else {
        String::from_str("You haven't recorded any drops yet!")
    }
}

/// What the command that links a handle answers, given whether the link
/// was new and the handles linked after it.
pub open spec fn linked_text(added: bool, handle: Seq<char>, handles: Seq<Seq<char>>) -> Seq<char> {
    if added {
        "Successfully linked RuneScape account '"@ + handle
            + "' to your Discord account.\n\nYour linked accounts: "@ + comma_joined(handles)
    } else {
        "This RuneScape account is already linked to your Discord account.\n\nYour linked accounts: "@
            + comma_joined(handles)
    }
}

/// What the command that unlinks a handle answers, given whether there was
/// such a link and the handles linked after it.
pub open spec fn unlinked_text(dropped: bool, handle: Seq<char>, handles: Seq<Seq<char>>) -> Seq<
    char,
> {
    if dropped {
        if handles.len() == 0 {
            "Successfully unlinked RuneScape account '"@ + handle
                + "' from your Discord account.\n\nYou have no more linked accounts."@
        } else {
            "Successfully unlinked RuneScape account '"@ + handle
                + "' from your Discord account.\n\nYour remaining linked accounts: "@
                + comma_joined(handles)
        }
    } else {
        if handles.len() == 0 {
            "This RuneScape account is not linked to your Discord account.\n\nYou have no linked accounts."@
        } else {
            "This RuneScape account is not linked to your Discord account.\n\nYour linked accounts: "@
                + comma_joined(handles)
        }
    }
}

/// What a command that links or unlinks a handle answers with.
#[derive(Clone, Debug, PartialEq, Eq)]
pub struct LinkOutcome {
    /// Whether a link was added or removed.
    pub changed: bool,
    /// The reply to the player.
    pub reply: String,
    /// The action and the handle for the action log.
    pub log: Option<(String, String)>,
}

/// Links `handle` to `owner` unless the pair is linked already.
pub fn handle_rsname(ledger: &mut Ledger, owner: u64, handle: &str) -> (out: LinkOutcome)
    requires
        old(ledger).wf(),
    ensures
        final(ledger).wf(),
        final(ledger).records() == old(ledger).records(),
        final(ledger).ranks() == old(ledger).ranks(),
        forall|o: u64| final(ledger).known(o) <==> old(ledger).known(o) || o == owner,
        out.changed <==> forall|i: int|
            0 <= i < old(ledger).links().len() ==> !links_pair(
                #[trigger] old(ledger).links()[i],
                owner,
                handle@,
            ),
        !out.changed ==> final(ledger).links() == old(ledger).links(),
        out.changed ==> final(ledger).links() == old(ledger).links().push(
            final(ledger).links().last(),
        ) && final(ledger).links().last().owner == owner && final(ledger).links().last().handle@
            == handle@,
        out.reply@ == linked_text(out.changed, handle@, handles_of(final(ledger).links(), owner)),
        log_view(out.log) == Some(("LINKED RSNAME"@, handle@)),
{
    let added = ledger.link(owner, handle);
    let handles = ledger.linked_handles(owner);
    let list = comma_join(&handles);
    let mut reply = if added {
        let mut text = String::from_str("Successfully linked RuneScape account '");
        text.append(handle);
        text.append("' to your Discord account.\n\nYour linked accounts: ");
        text
    } else {
        String::from_str(
            "This RuneScape account is already linked to your Discord account.\n\nYour linked accounts: ",
        )
    };
    reply.append(list.as_str());
    LinkOutcome {
        changed: added,
        reply,
        log: Some((String::from_str("LINKED RSNAME"), String::from_str(handle))),
    }
}

/// Unlinks `handle` from `owner` if the pair is linked.
pub fn handle_rsname_remove(ledger: &mut Ledger, owner: u64, handle: &str) -> (out: LinkOutcome)
    requires
        old(ledger).wf(),
    ensures
        final(ledger).wf(),
        final(ledger).records() == old(ledger).records(),
        final(ledger).ranks() == old(ledger).ranks(),
        forall|o: u64| final(ledger).known(o) <==> old(ledger).known(o),
        forall|i: int|
            0 <= i < final(ledger).links().len() ==> !links_pair(
                #[trigger] final(ledger).links()[i],
                owner,
                handle@,
            ),
        !out.changed ==> final(ledger).links() == old(ledger).links(),
        out.changed ==> exists|i: int|
            0 <= i < old(ledger).links().len() && links_pair(
                #[trigger] old(ledger).links()[i],
                owner,
                handle@,
            ) && final(ledger).links() == old(ledger).links().remove(i),
        out.reply@ == unlinked_text(out.changed, handle@, handles_of(final(ledger).links(), owner)),
        log_view(out.log) == if out.changed {
            Some(("UNLINKED RSNAME"@, handle@))
        } else {
            None
        },
{
    let dropped = ledger.unlink(owner, handle);
    let handles = ledger.linked_handles(owner);
    let list = comma_join(&handles);
    let none_left = handles.len() == 0;
    let reply = if dropped {
        let mut text = String::from_str("Successfully unlinked RuneScape account '");
        text.append(handle);
        if none_left {
            text.append("' from your Discord account.\n\nYou have no more linked accounts.");
        } else {
            text.append("' from your Discord account.\n\nYour remaining linked accounts: ");
            text.append(list.as_str());
        }
        text
    } else {
        if none_left {
            String::from_str(
                "This RuneScape account is not linked to your Discord account.\n\nYou have no linked accounts.",
            )
        } else {
            let mut text = String::from_str(
                "This RuneScape account is not linked to your Discord account.\n\nYour linked accounts: ",
            );
            text.append(list.as_str());
            text
        }
    };
    let log = if dropped {
        Some((String::from_str("UNLINKED RSNAME"), String::from_str(handle)))
    } else {
        None
    };
    LinkOutcome { changed: dropped, reply, log }
}

/// The label of an event in the list to pick a removal from: its id, its
/// quantity where it is a drop of more than one item, its item and `when`.
pub open spec fn choice_label_text(rec: EventRecord, when: Seq<char>) -> Seq<char> {
    if rec.kind == EventKind::Drop && rec.quantity > 1 {
        "#"@ + int_text(rec.id as int) + ": "@ + int_text(rec.quantity as int) + "x "@ + rec.item@
            + " ("@ + when + ")"@
    } else {
        "#"@ + int_text(rec.id as int) + ": "@ + rec.item@ + " ("@ + when + ")"@
    }
}

/// The label of `rec` in the list to pick a removal from, `when` being the
/// time of the event as the label is to show it.
pub fn choice_label(rec: &EventRecord, when: &str) -> (r: String)
    ensures
        r@ == choice_label_text(*rec, when@),
{
    let mut out = String::from_str("#");
    out.append(unsigned_text(rec.id).as_str());
    out.append(": ");
    if rec.kind == EventKind::Drop && rec.quantity > 1 {
        out.append(number_text(rec.quantity).as_str());
        out.append("x ");
    }
    out.append(rec.item.as_str());
    out.append(" (");
    out.append(when);
    out.append(")");
    out
}

/// One event as a line of a profile.
pub open spec fn event_line(rec: EventRecord) -> Seq<char> {
    "• "@ + event_phrase(rec, true)
}

/// One event in words: a drop with its quantity and value, a collection
/// entry with its points, marked as a gain where `gained` is set.
pub open spec fn event_phrase(rec: EventRecord, gained: bool) -> Seq<char> {
    match rec.kind {
        EventKind::Drop => grouped(int_text(rec.quantity as int)) + "x "@ + rec.item@ + " ("@
            + grouped(int_text(rec.value as int)) + " gp)"@,
        EventKind::Collection => rec.item@ + if gained {
            " (+"@
        } else {
            " ("@
        } + grouped(int_text(rec.points as int)) + " pts)"@,
    }
}

/// The lines of `recs`, in order.
pub open spec fn event_lines(recs: Seq<EventRecord>) -> Seq<Seq<char>> {
    Seq::new(recs.len(), |i: int| event_line(recs[i]))
}

/// What a profile shows where there is no event of `kind`.
pub open spec fn no_events_text(kind: EventKind) -> Seq<char> {
    match kind {
        EventKind::Drop => "No drops recorded yet"@,
        EventKind::Collection => "No collection log entries yet"@,
    }
}

/// The recent events of one kind as a profile shows them.
pub open spec fn recent_text(recs: Seq<EventRecord>, kind: EventKind) -> Seq<char> {
    if recs.len() == 0 {
        no_events_text(kind)
    } else {
        joined_with(event_lines(recs), "\n"@)
    }
}

/// The profile of a player, each part as the text to show. The share of
/// the way to the next rank is left to the caller, who has `progress`: the
/// points gained since the rank held and the points from there to the next.
#[derive(Clone, Debug, PartialEq, Eq)]
pub struct Stats {
    pub rank: String,
    pub total_points: String,
    pub total_drops: String,
    pub collection_log: String,
    pub next_rank: String,
    pub progress: Option<(i64, i64)>,
    pub recent_drops: String,
    pub recent_clogs: String,
    pub most_valuable: String,
    pub rarest: String,
}

/// `text` shows the best event of `kind` that `owner` owns in `ledger`.
pub open spec fn shows_best(text: Seq<char>, ledger: Ledger, owner: u64, kind: EventKind) -> bool {
    if has_events(ledger.records(), owner, kind) {
        exists|b: int| #[trigger]
            is_best(ledger.records(), b, owner, kind) && text == event_phrase(
                ledger.records()[b],
                false,
            )
    } else {
        text == no_events_text(kind)
    }
}

/// `text` shows the five most recent events of `kind` that `owner` owns in
/// `ledger`.
pub open spec fn shows_recent(text: Seq<char>, ledger: Ledger, owner: u64, kind: EventKind) -> bool {
    exists|recs: Seq<EventRecord>| #[trigger]
        is_recent_listing(recs, ledger.records(), owner, kind, 5) && text == recent_text(recs, kind)
}

/// `st` is the profile of `owner` in `ledger`.
pub open spec fn is_stats(st: Stats, ledger: Ledger, owner: u64) -> bool {
    let points = points_sum(ledger.records(), owner);
    &&& st.rank@ == match current_rank(ledger.ranks(), points) {
        Some(c) => c.1,
        None => "Unranked"@,
    }
    &&& st.total_points@ == grouped(int_text(points)) + " points"@
    &&& st.total_drops@ == grouped(int_text(quantity_sum(ledger.records(), owner)))
    &&& st.collection_log@ == grouped(
        int_text(event_count(ledger.records(), owner, EventKind::Collection) as int),
    )
    &&& st.next_rank@ == match next_rank(ledger.ranks(), points) {
        Some(n) => n.1,
        None => "Maximum"@,
    }
    &&& st.progress == match rank_span(ledger.ranks(), points) {
        Some(s) => if i64::MIN <= s.0 <= i64::MAX && i64::MIN <= s.1 <= i64::MAX {
            Some((s.0 as i64, s.1 as i64))
        } else {
            None
        },
        None => None,
    }
    &&& shows_recent(st.recent_drops@, ledger, owner, EventKind::Drop)
    &&& shows_recent(st.recent_clogs@, ledger, owner, EventKind::Collection)
    &&& shows_best(st.most_valuable@, ledger, owner, EventKind::Drop)
    &&& shows_best(st.rarest@, ledger, owner, EventKind::Collection)
}

fn event_phrase_of(rec: &EventRecord, gained: bool) -> (r: String)
    ensures
        r@ == event_phrase(*rec, gained),
{
    match rec.kind {
        EventKind::Drop => {
            let mut out = format_number(rec.quantity);
            out.append("x ");
            out.append(rec.item.as_str());
            out.append(" (");
            out.append(format_number(rec.value).as_str());
            out.append(" gp)");
            out
        },
        EventKind::Collection => {
            let mut out = rec.item.clone();
            out.append(if gained { " (+" } else { " (" });
            out.append(format_number(rec.points).as_str());
            out.append(" pts)");
            out
        },
    }
}

fn recent_events_text(ledger: &Ledger, owner: u64, kind: EventKind) -> (r: String)
    requires
        ledger.wf(),
    ensures
        shows_recent(r@, *ledger, owner, kind),
{
    let recent = ledger.list_recent(owner, kind, 5);
    if recent.len() == 0 {
        return String::from_str(
            match kind {
                EventKind::Drop => "No drops recorded yet",
                EventKind::Collection => "No collection log entries yet",
            },
        );
    }
    let mut lines: Vec<String> = Vec::new();
    let mut i: usize = 0;
    while i < recent.len()
        invariant
            i <= recent@.len(),
            lines@.len() == i,
            forall|k: int| 0 <= k < i ==> (#[trigger] lines@[k])@ == event_line(recent@[k]),
        decreases recent@.len() - i,
    {
        let mut line = String::from_str("• ");
        line.append(event_phrase_of(&recent[i], true).as_str());
        lines.push(line);
        i += 1;
    }
    assert(strings_view(lines@) =~= event_lines(recent@));
    join_with(&lines, "\n")
}

fn best_event_text(ledger: &Ledger, owner: u64, kind: EventKind) -> (r: String)
    ensures
        shows_best(r@, *ledger, owner, kind),
{
    match ledger.best_event(owner, kind) {
        Some(rec) => event_phrase_of(&rec, false),
        None => String::from_str(
            match kind {
                EventKind::Drop => "No drops recorded yet",
                EventKind::Collection => "No collection log entries yet",
            },
        ),
    }
}

/// The profile of `owner`; none for an identity not yet known.
pub fn handle_stats(ledger: &Ledger, owner: u64) -> (r: Option<Stats>)
    requires
        ledger.wf(),
    ensures
        r.is_some() == ledger.known(owner),
        r.is_some() ==> is_stats(r.unwrap(), *ledger, owner),
{
    if !ledger.is_known(owner) {
        return None;
    }
    let balance = ledger.get_balance(owner);
    let progress = ledger.get_rank_progress(owner);
    let next_rank = match progress.1 {
        Some(n) => n.1,
        None => String::from_str("Maximum"),
    };
    Some(
        Stats {
            rank: progress.0,
            total_points: format_points(balance.points),
            total_drops: format_number(balance.total_drop_quantity),
            collection_log: format_count(ledger.count_events(owner, EventKind::Collection)),
            next_rank,
            progress: ledger.rank_span(owner),
            recent_drops: recent_events_text(ledger, owner, EventKind::Drop),
            recent_clogs: recent_events_text(ledger, owner, EventKind::Collection),
            most_valuable: best_event_text(ledger, owner, EventKind::Drop),
            rarest: best_event_text(ledger, owner, EventKind::Collection),
        },
    )
}

/// One event in the list to pick a removal from, `when` being its time as
/// the list is to show it.
pub open spec fn removal_line(rec: EventRecord, when: Seq<char>) -> Seq<char> {
    match rec.kind {
        EventKind::Drop => "ID "@ + int_text(rec.id as int) + ": "@ + drop_details(
            rec.quantity as int,
            rec.item@,
            rec.value as int,
        ) + " - "@ + when + "\n"@,
        EventKind::Collection => "ID "@ + int_text(rec.id as int) + ": "@ + clog_details(
            rec.item@,
            int_text(rec.points as int),
        ) + " - "@ + when + "\n"@,
    }
}

/// The lines of the events with their times, one after the other.
pub open spec fn removal_lines(entries: Seq<(EventRecord, String)>) -> Seq<char>
    decreases entries.len(),
{
    if entries.len() == 0 {
        Seq::empty()
    } else {
        removal_lines(entries.drop_last()) + removal_line(entries.last().0, entries.last().1@)
    }
}

/// The list that a removal command answers with where no id is given.
pub open spec fn removal_list_text(kind: EventKind, entries: Seq<(EventRecord, String)>) -> Seq<
    char,
> {
    match kind {
        EventKind::Drop => "Your most recent drops:\n"@ + removal_lines(entries)
            + "\nTo remove a drop, use `/drop_remove id:<drop_id>`"@,
        EventKind::Collection => "Your most recent collection log entries:\n"@ + removal_lines(
            entries,
        ) + "\nTo remove an entry, use `/clog_remove id:<entry_id>`"@,
    }
}

/// The list of recent events of `kind` to pick a removal from, each event
/// given with its time as the list is to show it.
pub fn removal_list(kind: EventKind, entries: &Vec<(EventRecord, String)>) -> (r: String)
    ensures
        r@ == removal_list_text(kind, entries@),
{
    let mut lines = String::new();
    let mut i: usize = 0;
    assert(entries@.subrange(0, 0) =~= Seq::<(EventRecord, String)>::empty());
    while i < entries.len()
        invariant
            i <= entries@.len(),
            lines@ == removal_lines(entries@.subrange(0, i as int)),
        decreases entries@.len() - i,
    {
        let rec = &entries[i].0;
        let mut line = String::from_str("ID ");
        line.append(unsigned_text(rec.id).as_str());
        line.append(": ");
        match rec.kind {
            EventKind::Drop => {
                line.append(drop_details_of(rec.quantity, rec.item.as_str(), rec.value).as_str());
            },
            EventKind::Collection => {
                line.append(
                    clog_details_of(rec.item.as_str(), number_text(rec.points).as_str()).as_str(),
                );
            },
        }
        line.append(" - ");
        line.append(entries[i].1.as_str());
        line.append("\n");
        lines.append(line.as_str());
        proof {
            assert(entries@.subrange(0, i + 1).drop_last() =~= entries@.subrange(0, i as int));
            assert(entries@.subrange(0, i + 1).last() == entries@[i as int]);
        }
        i += 1;
    }
    assert(entries@.subrange(0, i as int) =~= entries@);
    let mut out = String::from_str(
        match kind {
            EventKind::Drop => "Your most recent drops:\n",
            EventKind::Collection => "Your most recent collection log entries:\n",
        },
    );
    out.append(lines.as_str());
    out.append(
        match kind {
            EventKind::Drop => "\nTo remove a drop, use `/drop_remove id:<drop_id>`",
            EventKind::Collection => "\nTo remove an entry, use `/clog_remove id:<entry_id>`",
        },
    );
    out
}

/// One linked handle with the date of its link, as entry `number` of a
/// list. An empty handle shows as `Unknown`.
pub open spec fn handle_line(number: int, handle: Seq<char>, date: Seq<char>) -> Seq<char> {
    int_text(number) + ". **"@ + if handle.len() == 0 {
        "Unknown"@
    } else {
        handle
    } + "** (linked on "@ + date + ")\n"@
}

/// The lines of the handles with their dates, numbered from 1.
pub open spec fn handle_lines(entries: Seq<(String, String)>) -> Seq<char>
    decreases entries.len(),
{
    if entries.len() == 0 {
        Seq::empty()
    } else {
        handle_lines(entries.drop_last()) + handle_line(
            entries.len() as int,
            entries.last().0@,
            entries.last().1@,
        )
    }
}

/// What the command that lists the linked handles answers.
pub open spec fn handle_list_text(entries: Seq<(String, String)>) -> Seq<char> {
    if entries.len() == 0 {
        "You don't have any RuneScape accounts linked to your Discord account yet.\n\nUse `/rsname username:YourRSName` to link an account."@
    } else {
        "Your linked RuneScape accounts:\n"@ + handle_lines(entries)
            + "\nYou can unlink accounts with `/rsname_remove username:RSName`"@
    }
}

/// Lists the linked handles of a player, each given with the date of its
/// link as the list is to show it.
pub fn handle_rsnames(entries: &Vec<(String, String)>) -> (r: String)
    ensures
        r@ == handle_list_text(entries@),
{
    if entries.len() == 0 {
        return String::from_str(
            "You don't have any RuneScape accounts linked to your Discord account yet.\n\nUse `/rsname username:YourRSName` to link an account.",
        );
    }
    let mut lines = String::new();
    let mut i: usize = 0;
    assert(entries@.subrange(0, 0) =~= Seq::<(String, String)>::empty());
    while i < entries.len()
        invariant
            i <= entries@.len(),
            lines@ == handle_lines(entries@.subrange(0, i as int)),
        decreases entries@.len() - i,
    {
        let mut line = unsigned_text((i + 1) as u64);
        line.append(". **");
        if entries[i].0.as_str().is_empty() {
            line.append("Unknown");
        } else {
            line.append(entries[i].0.as_str());
        }
        line.append("** (linked on ");
        line.append(entries[i].1.as_str());
        line.append(")\n");
        lines.append(line.as_str());
        proof {
            assert(entries@.subrange(0, i + 1).drop_last() =~= entries@.subrange(0, i as int));
            assert(entries@.subrange(0, i + 1).last() == entries@[i as int]);
        }
        i += 1;
    }
    assert(entries@.subrange(0, i as int) =~= entries@);
    let mut out = String::from_str("Your linked RuneScape accounts:\n");
    out.append(lines.as_str());
    out.append("\nYou can unlink accounts with `/rsname_remove username:RSName`");
    out
}

/// One standing as entry `number` of the leaderboard, under the name
/// `name`.
pub open spec fn standing_text(number: int, st: Standing, name: Seq<char>) -> Seq<char> {
    int_text(number) + ". **"@ + name + "**\n• Points: "@ + grouped(int_text(st.points as int))
        + " points\n• Total Drops: "@ + grouped(int_text(st.total_drops as int))
        + "\n• Collection Log: "@ + grouped(int_text(st.collection_entries as int)) + "\n\n"@
}

/// The entries of the leaderboard, numbered from 1.
pub open spec fn leaderboard_text(entries: Seq<(Standing, String)>) -> Seq<char>
    decreases entries.len(),
{
    if entries.len() == 0 {
        Seq::empty()
    } else {
        leaderboard_text(entries.drop_last()) + standing_text(
            entries.len() as int,
            entries.last().0,
            entries.last().1@,
        )
    }
}

/// The leaderboard of all time, each standing given with the name to show
/// for its identity.
pub fn handle_leaderboard(entries: &Vec<(Standing, String)>) -> (r: String)
    ensures
        r@ == leaderboard_text(entries@),
{
    let mut out = String::new();
    let mut i: usize = 0;
    assert(entries@.subrange(0, 0) =~= Seq::<(Standing, String)>::empty());
    while i < entries.len()
        invariant
            i <= entries@.len(),
            out@ == leaderboard_text(entries@.subrange(0, i as int)),
        decreases entries@.len() - i,
    {
        let st = &entries[i].0;
        let mut line = unsigned_text((i + 1) as u64);
        line.append(". **");
        line.append(entries[i].1.as_str());
        line.append("**\n• Points: ");
        line.append(format_number(st.points).as_str());
        line.append(" points\n• Total Drops: ");
        line.append(format_number(st.total_drops).as_str());
        line.append("\n• Collection Log: ");
        line.append(format_count(st.collection_entries).as_str());
        line.append("\n\n");
        out.append(line.as_str());
        proof {
            assert(entries@.subrange(0, i + 1).drop_last() =~= entries@.subrange(0, i as int));
            assert(entries@.subrange(0, i + 1).last() == entries@[i as int]);
        }
        i += 1;
    }
    assert(entries@.subrange(0, i as int) =~= entries@);
    out
}

} // verus!
