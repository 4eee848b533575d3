//! Rank thresholds: which ranks a change of balance crosses, and which rank
//! comes next.

use crate::text::format_number;
use crate::text::grouped;
use crate::text::int_text;
use crate::text::strings_view;
use vstd::prelude::*;
use vstd::string::StringExecFns;

verus! {

/// A points cutoff and the label of the rank that it grants.
#[derive(Clone, Debug, PartialEq, Eq)]
pub struct RankThreshold {
    pub points: i64,
    pub role_name: String,
}

/// The threshold table: cutoffs strictly ascending, so none occurs twice.
#[derive(Clone, Debug)]
pub struct RankTable {
    thresholds: Vec<RankThreshold>,
}

/// What a change of balance did: the balance before and after, the ranks
/// crossed on the way, and the next rank above the new balance.
#[derive(Clone, Debug, PartialEq, Eq)]
pub struct PointsUpdate {
    pub old_points: i64,
    pub new_points: i64,
    pub next_rank: Option<(i64, String)>,
    pub crossed_ranks: Vec<String>,
}

/// A table as a sequence of (cutoff, label) pairs.
pub open spec fn table_view(v: Seq<RankThreshold>) -> Seq<(int, Seq<char>)> {
    Seq::new(v.len(), |i: int| (v[i].points as int, v[i].role_name@))
}

/// An optional (cutoff, label) pair as plain values.
pub open spec fn next_view(n: Option<(i64, String)>) -> Option<(int, Seq<char>)> {
    match n {
        Some(p) => Some((p.0 as int, p.1@)),
        None => None,
    }
}

/// Cutoffs strictly ascending.
pub open spec fn ascending(t: Seq<(int, Seq<char>)>) -> bool {
    forall|i: int, j: int| 0 <= i < j < t.len() ==> t[i].0 < t[j].0
}

/// How many thresholds of `t` a balance of `p` points has reached. In an
/// ascending table these are the first `held(t, p)` entries.
pub open spec fn held(t: Seq<(int, Seq<char>)>, p: int) -> nat
    decreases t.len(),
{
    if t.len() == 0 {
        0
    } else {
        held(t.drop_last(), p) + if t.last().0 <= p {
            1nat
        } else {
            0nat
        }
    }
}

/// The labels crossed when the balance moves from `old_points` to
/// `new_points`: on a rise, those of the thresholds above the old balance
/// and at or below the new one, lowest first; on a fall, those above the new
/// balance and at or below the old one, highest first.
pub open spec fn crossed(t: Seq<(int, Seq<char>)>, old_points: int, new_points: int) -> Seq<
    Seq<char>,
> {
    if new_points > old_points {
        Seq::new(
            (held(t, new_points) - held(t, old_points)) as nat,
            |k: int| t[held(t, old_points) + k].1,
        )
    } else if new_points < old_points {
        Seq::new(
            (held(t, old_points) - held(t, new_points)) as nat,
            |k: int| t[held(t, old_points) - 1 - k].1,
        )
    } else {
        Seq::empty()
    }
}

/// `u` reports the change from `old_points` to `new_points` against `t`.
pub open spec fn is_update(
    u: PointsUpdate,
    t: Seq<(int, Seq<char>)>,
    old_points: int,
    new_points: int,
) -> bool {
    &&& u.old_points == old_points
    &&& u.new_points == new_points
    &&& strings_view(u.crossed_ranks@) == crossed(t, old_points, new_points)
    &&& next_view(u.next_rank) == next_rank(t, new_points)
}

/// The lowest threshold strictly above `p`, if there is one.
pub open spec fn next_rank(t: Seq<(int, Seq<char>)>, p: int) -> Option<(int, Seq<char>)> {
    if held(t, p) < t.len() {
        Some(t[held(t, p) as int])
    } else {
        None
    }
}

/// The highest threshold at or below `p`, if there is one.
pub open spec fn current_rank(t: Seq<(int, Seq<char>)>, p: int) -> Option<(int, Seq<char>)> {
    if held(t, p) > 0 {
        Some(t[held(t, p) - 1])
    } else {
        None
    }
}

/// `held` never exceeds the table's length.
pub proof fn lemma_held_bounded(t: Seq<(int, Seq<char>)>, p: int)
    ensures
        held(t, p) <= t.len(),
    decreases t.len(),
{
    if t.len() > 0 {
        lemma_held_bounded(t.drop_last(), p);
    }
}

/// A higher balance has reached at least as many thresholds.
pub proof fn lemma_held_monotone(t: Seq<(int, Seq<char>)>, p: int, q: int)
    requires
        p <= q,
    ensures
        held(t, p) <= held(t, q),
    decreases t.len(),
{
    if t.len() > 0 {
        lemma_held_monotone(t.drop_last(), p, q);
    }
}

/// In an ascending table the thresholds reached are exactly the entries
/// before index `held(t, p)`.
pub proof fn lemma_held_is_prefix(t: Seq<(int, Seq<char>)>, p: int)
    requires
        ascending(t),
    ensures
        held(t, p) <= t.len(),
        forall|i: int| 0 <= i < t.len() ==> (#[trigger] t[i].0 <= p <==> i < held(t, p)),
    decreases t.len(),
{
    if t.len() > 0 {
        let front = t.drop_last();
        lemma_held_is_prefix(front, p);
        lemma_held_bounded(front, p);
        assert forall|i: int| 0 <= i < t.len() implies (#[trigger] t[i].0 <= p <==> i < held(
            t,
            p,
        )) by {
            if i < front.len() {
                assert(front[i] == t[i]);
                if t.last().0 <= p {
                    assert(t[i].0 < t[t.len() - 1].0);
                    assert(front[i].0 <= p);
                }
            } else {
                if !(t.last().0 <= p) && held(front, p) == front.len() && front.len() > 0 {
                    assert(front[front.len() - 1] == t[front.len() - 1]);
                    assert(t[front.len() - 1].0 < t[t.len() - 1].0);
                }
                if t.last().0 <= p && front.len() > 0 {
                    assert(front[front.len() - 1] == t[front.len() - 1]);
                    assert(t[front.len() - 1].0 < t[t.len() - 1].0);
                    assert(front[front.len() - 1].0 <= p);
                }
            }
        }
    }
}

/// An index that splits an ascending table into the cutoffs at or below `p`
/// and those above it is `held(t, p)`.
proof fn lemma_held_at_split(t: Seq<(int, Seq<char>)>, p: int, i: int)
    requires
        ascending(t),
        0 <= i <= t.len(),
        forall|k: int| 0 <= k < i ==> #[trigger] t[k].0 <= p,
        i < t.len() ==> t[i].0 > p,
    ensures
        held(t, p) == i,
{
    lemma_held_is_prefix(t, p);
    if held(t, p) < i {
        assert(t[held(t, p) as int].0 <= p);
    } else if held(t, p) > i {
        assert(t[i].0 <= p);
    }
}

/// The ranks crossed on a rise are one contiguous slice of the table: the
/// entries from index `held(t, old_points)` up to `held(t, new_points)`,
/// which are exactly the thresholds above the old balance and at or below
/// the new one. No threshold that the old balance had reached is among them.
pub proof fn lemma_crossed_is_slice(t: Seq<(int, Seq<char>)>, old_points: int, new_points: int)
    requires
        ascending(t),
        old_points < new_points,
    ensures
        held(t, old_points) <= held(t, new_points) <= t.len(),
        crossed(t, old_points, new_points).len() == held(t, new_points) - held(t, old_points),
        forall|i: int|
            0 <= i < t.len() ==> (old_points < #[trigger] t[i].0 <= new_points <==> held(
                t,
                old_points,
            ) <= i < held(t, new_points)),
        forall|k: int|
            0 <= k < crossed(t, old_points, new_points).len() ==> #[trigger] crossed(
                t,
                old_points,
                new_points,
            )[k] == t[held(t, old_points) + k].1,
{
    lemma_held_is_prefix(t, old_points);
    lemma_held_is_prefix(t, new_points);
    lemma_held_monotone(t, old_points, new_points);
}

/// Two changes in a row cross what the whole change crosses, each rank once:
/// the slices of a rise to `mid_points` and of a further rise to
/// `new_points` lie side by side and do not overlap.
pub proof fn lemma_crossed_adjacent(
    t: Seq<(int, Seq<char>)>,
    old_points: int,
    mid_points: int,
    new_points: int,
)
    requires
        old_points <= mid_points <= new_points,
    ensures
        crossed(t, old_points, mid_points) + crossed(t, mid_points, new_points) == crossed(
            t,
            old_points,
            new_points,
        ),
{
    lemma_held_monotone(t, old_points, mid_points);
    lemma_held_monotone(t, mid_points, new_points);
    lemma_held_monotone(t, old_points, new_points);
    assert(crossed(t, old_points, mid_points) + crossed(t, mid_points, new_points) =~= crossed(
        t,
        old_points,
        new_points,
    ));
}

/// A balance that does not move crosses nothing, so evaluating again at the
/// balance just reached reports no rank a second time.
pub proof fn lemma_crossed_none_at_rest(t: Seq<(int, Seq<char>)>, p: int)
    ensures
        crossed(t, p, p).len() == 0,
{
}

/// Undoing a change crosses the same ranks in the opposite order.
pub proof fn lemma_crossed_reversed(t: Seq<(int, Seq<char>)>, old_points: int, new_points: int)
    ensures
        crossed(t, new_points, old_points) == crossed(t, old_points, new_points).reverse(),
{
    if old_points <= new_points {
        lemma_held_monotone(t, old_points, new_points);
    } else {
        lemma_held_monotone(t, new_points, old_points);
    }
    assert(crossed(t, new_points, old_points) =~= crossed(t, old_points, new_points).reverse());
}

/// The next rank lies strictly above the balance, and no threshold of the
/// table lies between the two.
pub proof fn lemma_next_rank_is_least_above(t: Seq<(int, Seq<char>)>, p: int)
    requires
        ascending(t),
    ensures
        match next_rank(t, p) {
            Some(n) => n.0 > p && forall|i: int|
                0 <= i < t.len() && #[trigger] t[i].0 > p ==> n.0 <= t[i].0,
            None => forall|i: int| 0 <= i < t.len() ==> #[trigger] t[i].0 <= p,
        },
{
    lemma_held_is_prefix(t, p);
    if held(t, p) < t.len() {
        let h = held(t, p) as int;
        assert(!(t[h].0 <= p));
        assert forall|i: int| 0 <= i < t.len() && #[trigger] t[i].0 > p implies t[h].0
            <= t[i].0 by {
            if i < h {
                assert(t[i].0 <= p);
            }
        }
    }
}

impl View for RankTable {
    type V = Seq<(int, Seq<char>)>;

    closed spec fn view(&self) -> Seq<(int, Seq<char>)> {
        table_view(self.thresholds@)
    }
}

impl RankTable {
    /// The table is valid: its cutoffs ascend strictly.
    pub open spec fn wf(&self) -> bool {
        ascending(self@)
    }

    /// Makes a table of `thresholds` where their cutoffs ascend strictly,
    /// and refuses them otherwise.
    pub fn new(thresholds: Vec<RankThreshold>) -> (r: Option<RankTable>)
        ensures
            r.is_some() <==> ascending(table_view(thresholds@)),
            r.is_some() ==> r.unwrap().wf() && r.unwrap()@ == table_view(thresholds@),
    {
        let n = thresholds.len();
        let mut i: usize = 1;
        while i < n
            invariant
                n == thresholds@.len(),
                1 <= i,
                forall|a: int, b: int|
                    0 <= a < b < i && b < n ==> thresholds@[a].points < thresholds@[b].points,
            decreases n - i,
        {
            if thresholds[i - 1].points >= thresholds[i].points {
                assert(!(table_view(thresholds@)[i - 1].0 < table_view(thresholds@)[i as int].0));
                return None;
            }
            proof {
                assert forall|a: int, b: int| 0 <= a < b < i + 1 && b < n implies thresholds@[a].points
                    < thresholds@[b].points by {
                    if b == i && a < i - 1 {
                        assert(thresholds@[a].points < thresholds@[i - 1].points);
                    }
                }
            }
            i += 1;
        }
        Some(RankTable { thresholds })
    }

    /// The number of thresholds.
    pub fn len(&self) -> (n: usize)
        ensures
            n == self@.len(),
    {
        self.thresholds.len()
    }

    /// How many thresholds a balance of `p` points has reached.
    pub fn held_count(&self, p: i64) -> (n: usize)
        requires
            self.wf(),
        ensures
            n == held(self@, p as int),
            n <= self@.len(),
    {
        let mut i: usize = 0;
        while i < self.thresholds.len() && self.thresholds[i].points <= p
            invariant
                i <= self.thresholds@.len(),
                forall|k: int| 0 <= k < i ==> #[trigger] self@[k].0 <= p,
            decreases self.thresholds@.len() - i,
        {
            i += 1;
        }
        proof {
            lemma_held_at_split(self@, p as int, i as int);
        }
        i
    }

    /// The lowest threshold strictly above `p`, or `None` at the top rank.
    pub fn next_above(&self, p: i64) -> (r: Option<(i64, String)>)
        requires
            self.wf(),
        ensures
            next_view(r) == next_rank(self@, p as int),
    {
        let i = self.held_count(p);
        if i < self.thresholds.len() {
            Some((self.thresholds[i].points, self.thresholds[i].role_name.clone()))
        } else {
            None
        }
    }

    /// The highest threshold at or below `p`, or `None` below the first.
    pub fn current(&self, p: i64) -> (r: Option<(i64, String)>)
        requires
            self.wf(),
        ensures
            next_view(r) == current_rank(self@, p as int),
    {
        let i = self.held_count(p);
        if i > 0 {
            Some((self.thresholds[i - 1].points, self.thresholds[i - 1].role_name.clone()))
        } else {
            None
        }
    }
}

/// Compares the balance before and after a change against the table.
pub fn evaluate(old_points: i64, new_points: i64, table: &RankTable) -> (r: PointsUpdate)
    requires
        table.wf(),
    ensures
        is_update(r, table@, old_points as int, new_points as int),
{
    let from = table.held_count(old_points);
    let to = table.held_count(new_points);
    let mut crossed_ranks: Vec<String> = Vec::new();
    if new_points > old_points {
        proof {
            lemma_held_monotone(table@, old_points as int, new_points as int);
        }
        let mut i: usize = from;
        while i < to
            invariant
                from <= i <= to <= table.thresholds@.len(),
                crossed_ranks@.len() == i - from,
                forall|k: int| 0 <= k < i - from ==> #[trigger] crossed_ranks@[k]@ == table@[from + k].1,
            decreases to - i,
        {
            crossed_ranks.push(table.thresholds[i].role_name.clone());
            i += 1;
        }
        assert(strings_view(crossed_ranks@) =~= crossed(
            table@,
            old_points as int,
            new_points as int,
        ));
    } else if new_points < old_points {
        proof {
            lemma_held_monotone(table@, new_points as int, old_points as int);
        }
        let mut i: usize = from;
        while i > to
            invariant
                to <= i <= from <= table.thresholds@.len(),
                crossed_ranks@.len() == from - i,
                forall|k: int| 0 <= k < from - i ==> #[trigger] crossed_ranks@[k]@ == table@[from - 1 - k].1,
            decreases i,
        {
            crossed_ranks.push(table.thresholds[i - 1].role_name.clone());
            i -= 1;
        }
        assert(strings_view(crossed_ranks@) =~= crossed(
            table@,
            old_points as int,
            new_points as int,
        ));
    } else {
        assert(strings_view(crossed_ranks@) =~= crossed(
            table@,
            old_points as int,
            new_points as int,
        ));
    }
    let next_rank = table.next_above(new_points);
    PointsUpdate { old_points, new_points, next_rank, crossed_ranks }
}

/// Adds `points_to_add` to a balance of `old_points` and evaluates the
/// change. `None` where the sum does not fit the balance's type.
pub fn add_points(old_points: i64, points_to_add: i64, table: &RankTable) -> (r: Option<
    PointsUpdate,
>)
    requires
        table.wf(),
    ensures
        r.is_some() <==> i64::MIN <= old_points + points_to_add <= i64::MAX,
        r.is_some() ==> is_update(
            r.unwrap(),
            table@,
            old_points as int,
            old_points + points_to_add,
        ),
{
    match old_points.checked_add(points_to_add) {
        Some(new_points) => Some(evaluate(old_points, new_points, table)),
        None => None,
    }
}

/// The names of `names` with `", "` between each two.
pub open spec fn comma_joined(names: Seq<Seq<char>>) -> Seq<char>
    decreases names.len(),
{
    if names.len() == 0 {
        Seq::empty()
    } else if names.len() == 1 {
        names[0]
    } else {
        comma_joined(names.drop_last()) + ", "@ + names.last()
    }
}

/// The names as an English list: one name alone, two joined by `" and "`,
/// three or more separated by commas with `", and "` before the last.
pub open spec fn joined_ranks(names: Seq<Seq<char>>) -> Seq<char> {
    if names.len() == 0 {
        Seq::empty()
    } else if names.len() == 1 {
        names[0]
    } else if names.len() == 2 {
        names[0] + " and "@ + names[1]
    } else {
        comma_joined(names.drop_last()) + ", and "@ + names.last()
    }
}

/// The list of `joined_ranks` between `"the "` and `" rank"`, or `" ranks"`
/// for more than one name.
pub open spec fn rank_phrase_text(names: Seq<Seq<char>>) -> Seq<char> {
    "the "@ + joined_ranks(names) + if names.len() == 1 {
        " rank"@
    } else {
        " ranks"@
    }
}

/// The header of the alert: one for a rise and one for a fall, each in a
/// form for one rank and a form for several.
pub open spec fn rank_alert_header(rising: bool, count: nat) -> Seq<char> {
    if rising {
        if count == 1 {
            "🎉 **Rank Up Alert!**\n"@
        } else {
            "🎉 **Multiple Rank Up Alert!**\n"@
        }
    } else {
        if count == 1 {
            "⬇️ **Rank Down Alert!**\n"@
        } else {
            "⬇️ **Multiple Rank Down Alert!**\n"@
        }
    }
}

/// The message for the moderators when a change of balance crossed ranks:
/// none where it crossed nothing; otherwise the header, the player, the
/// balance reached and the ranks crossed, named as `rank_phrase_text` names
/// them, as ranks to give on a rise and as ranks lost on a fall.
pub open spec fn rank_alert_text(
    user_name: Seq<char>,
    old_points: int,
    new_points: int,
    names: Seq<Seq<char>>,
) -> Option<Seq<char>> {
    if names.len() == 0 {
        None
    } else if new_points > old_points {
        Some(
            rank_alert_header(true, names.len()) + user_name + " has reached "@ + grouped(
                int_text(new_points),
            ) + " points and is ready for "@ + rank_phrase_text(names) + "!"@,
        )
    } else {
        Some(
            rank_alert_header(false, names.len()) + user_name + " is now at "@ + grouped(
                int_text(new_points),
            ) + " points and has lost "@ + rank_phrase_text(names) + "."@,
        )
    }
}

/// Joins rank names as an English list.
pub fn join_ranks(names: &Vec<String>) -> (r: String)
    requires
        names@.len() >= 1,
    ensures
        r@ == joined_ranks(strings_view(names@)),
{
    let n = names.len();
    let ghost all = strings_view(names@);
    if n == 1 {
        names[0].clone()
    } else if n == 2 {
        let mut out = names[0].clone();
        out.append(" and ");
        out.append(names[1].as_str());
        out
    } else {
        let mut out = names[0].clone();
        let mut i: usize = 1;
        assert(all.subrange(0, 1).len() == 1);
        while i < n - 1
            invariant
                n == names@.len(),
                n >= 3,
                all == strings_view(names@),
                1 <= i <= n - 1,
                out@ == comma_joined(all.subrange(0, i as int)),
            decreases n - i,
        {
            out.append(", ");
            out.append(names[i].as_str());
            assert(all.subrange(0, i + 1).drop_last() =~= all.subrange(0, i as int));
            i += 1;
        }
        out.append(", and ");
        out.append(names[n - 1].as_str());
        assert(all.subrange(0, n - 1) =~= all.drop_last());
        out
    }
}

/// Names the ranks just crossed, as in `"the Bronze and Silver ranks"`.
pub fn rank_phrase(names: &Vec<String>) -> (r: String)
    requires
        names@.len() >= 1,
    ensures
        r@ == rank_phrase_text(strings_view(names@)),
{
    let mut out = String::from_str("the ");
    let list = join_ranks(names);
    out.append(list.as_str());
    if names.len() == 1 {
        out.append(" rank");
    } else {
        out.append(" ranks");
    }
    out
}

/// The alert for the moderators' channel after a change of balance, if the
/// change crossed a rank.
pub fn rank_alert(user_name: &str, update: &PointsUpdate) -> (r: Option<String>)
    ensures
        match r {
            Some(text) => Some(text@),
            None => None,
        } == rank_alert_text(
            user_name@,
            update.old_points as int,
            update.new_points as int,
            strings_view(update.crossed_ranks@),
        ),
{
    if update.crossed_ranks.len() == 0 {
        return None;
    }
    let one = update.crossed_ranks.len() == 1;
    let rising = update.new_points > update.old_points;
    let phrase = rank_phrase(&update.crossed_ranks);
    let total = format_number(update.new_points);
    let mut out = String::from_str(
        if rising {
            if one {
                "🎉 **Rank Up Alert!**\n"
            } else {
                "🎉 **Multiple Rank Up Alert!**\n"
            }
        } else {
            if one {
                "⬇️ **Rank Down Alert!**\n"
            } else {
                "⬇️ **Multiple Rank Down Alert!**\n"
            }
        },
    );
    out.append(user_name);
    out.append(if rising { " has reached " } else { " is now at " });
    out.append(total.as_str());
    out.append(if rising { " points and is ready for " } else { " points and has lost " });
    out.append(phrase.as_str());
    out.append(if rising { "!" } else { "." });
    Some(out)
}

/// Joins names with `", "`.
pub fn comma_join(names: &Vec<String>) -> (r: String)
    ensures
        r@ == comma_joined(strings_view(names@)),
{
    let ghost all = strings_view(names@);
    let mut out = String::new();
    if names.len() == 0 {
        return out;
    }
    out.append(names[0].as_str());
    assert(out@ =~= names@[0]@);
    assert(all.subrange(0, 1).len() == 1);
    let mut i: usize = 1;
    while i < names.len()
        invariant
            all == strings_view(names@),
            1 <= i <= names@.len(),
            out@ == comma_joined(all.subrange(0, i as int)),
        decreases names@.len() - i,
    {
        out.append(", ");
        out.append(names[i].as_str());
        assert(all.subrange(0, i + 1).drop_last() =~= all.subrange(0, i as int));
        i += 1;
    }
    assert(all.subrange(0, i as int) =~= all);
    out
}

/// How far a balance of `p` points is on its way to the next rank: the
/// points gained since the rank held, or since zero below the first rank,
/// and the points between that mark and the next rank. None at the top.
pub open spec fn rank_span(t: Seq<(int, Seq<char>)>, p: int) -> Option<(int, int)> {
    match next_rank(t, p) {
        Some(n) => {
            let base = match current_rank(t, p) {
                Some(c) => c.0,
                None => 0,
            };
            Some((p - base, n.0 - base))
        },
        None => None,
    }
}

impl RankTable {
    /// The way to the next rank as `rank_span` gives it; `None` also where
    /// one of the two numbers does not fit.
    pub fn span(&self, p: i64) -> (r: Option<(i64, i64)>)
        requires
            self.wf(),
        ensures
            r == match rank_span(self@, p as int) {
                Some(s) => if i64::MIN <= s.0 <= i64::MAX && i64::MIN <= s.1 <= i64::MAX {
                    Some((s.0 as i64, s.1 as i64))
                } else {
                    None
                },
                None => None,
            },
    {
        let next = match self.next_above(p) {
            Some(n) => n.0,
            None => {
                return None;
            },
        };
        let base = match self.current(p) {
            Some(c) => c.0,
            None => 0,
        };
        match p.checked_sub(base) {
            Some(done) => match next.checked_sub(base) {
                Some(needed) => Some((done, needed)),
                None => None,
            },
            None => None,
        }
    }
}

} // verus!
