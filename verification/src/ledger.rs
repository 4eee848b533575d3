//! The ledger: event records, the balance of each identity kept in step
//! with them, links between identities and game handles, and the rank
//! thresholds that every change of balance is evaluated against.

use crate::rank_manager::ascending;
use crate::rank_manager::crossed;
use crate::rank_manager::current_rank;
use crate::rank_manager::evaluate;
use crate::rank_manager::is_update;
use crate::rank_manager::lemma_crossed_reversed;
use crate::rank_manager::next_rank;
use crate::rank_manager::next_view;
use crate::rank_manager::rank_span;
use crate::rank_manager::PointsUpdate;
use crate::rank_manager::RankTable;
use crate::scoring::points_for_value;
use crate::scoring::points_of_value;
use crate::scoring::total_value;
use crate::text::handles_match;
use crate::text::lemma_same_handle_equivalence;
use crate::text::same_handle;
use crate::text::strings_view;
use crate::collection_log::item_points;
use crate::collection_log::CollectionLogData;
use crate::runescape_tracker::event_view;
use crate::runescape_tracker::message_event;
use crate::runescape_tracker::Candidate;
use crate::runescape_tracker::Embed;
use crate::runescape_tracker::RunescapeTracker;
use crate::runescape_tracker::FeedEvent;
use vstd::prelude::*;
use vstd::string::StringExecFns;

verus! {

/// What an event records: an item drop, or an entry of the collection log.
#[derive(Clone, Copy, Debug, PartialEq, Eq, Structural)]
pub enum EventKind {
    Drop,
    Collection,
}

/// Why the ledger refused an operation.
#[derive(Clone, Copy, Debug, PartialEq, Eq, Structural)]
pub enum CoreError {
    /// The item has no entry in the price or rarity table.
    NotFound,
    /// The identity already holds this collection entry, recorded at the
    /// given time.
    Duplicate { recorded_at: i64 },
    /// No record of that id belongs to the caller.
    NotOwned,
    /// A balance, a total value or the next record id would leave the range
    /// of its type.
    Overflow,
}

/// One recorded event. A collection entry has quantity and value 0.
#[derive(Clone, Debug, PartialEq, Eq)]
pub struct EventRecord {
    pub id: u64,
    pub owner: u64,
    pub kind: EventKind,
    pub item: String,
    pub quantity: i64,
    pub value: i64,
    pub points: i64,
    pub created_at: i64,
}

/// The points and the number of dropped items that an identity has.
#[derive(Clone, Copy, Debug, PartialEq, Eq, Structural)]
pub struct Balance {
    pub points: i64,
    pub total_drop_quantity: i64,
}

/// What a mutation of the ledger did, for the caller to render.
#[derive(Clone, Debug, PartialEq, Eq)]
pub struct EventSummary {
    pub record_id: u64,
    pub item: String,
    pub points_delta: i64,
    pub update: PointsUpdate,
}

#[derive(Clone, Copy)]
struct Account {
    owner: u64,
    points: i64,
    total_drops: i64,
}

/// What `r` adds to the points of `owner`.
pub open spec fn points_of(r: EventRecord, owner: u64) -> int {
    if r.owner == owner {
        r.points as int
    } else {
        0
    }
}

/// What `r` adds to the number of items dropped for `owner`.
pub open spec fn quantity_of(r: EventRecord, owner: u64) -> int {
    if r.owner == owner && r.kind == EventKind::Drop {
        r.quantity as int
    } else {
        0
    }
}

/// The sum of the points of the records of `rs` that `owner` owns.
pub open spec fn points_sum(rs: Seq<EventRecord>, owner: u64) -> int
    decreases rs.len(),
{
    if rs.len() == 0 {
        0
    } else {
        points_sum(rs.drop_last(), owner) + points_of(rs.last(), owner)
    }
}

/// The sum of the quantities of the drops of `rs` that `owner` owns.
pub open spec fn quantity_sum(rs: Seq<EventRecord>, owner: u64) -> int
    decreases rs.len(),
{
    if rs.len() == 0 {
        0
    } else {
        quantity_sum(rs.drop_last(), owner) + quantity_of(rs.last(), owner)
    }
}

/// No two records share an id.
pub open spec fn ids_unique(rs: Seq<EventRecord>) -> bool {
    forall|i: int, j: int| 0 <= i < j < rs.len() ==> rs[i].id != rs[j].id
}

/// `r` is a collection entry of `owner` for `item`.
pub open spec fn is_collection_of(r: EventRecord, owner: u64, item: Seq<char>) -> bool {
    r.kind == EventKind::Collection && r.owner == owner && r.item@ == item
}

/// No identity holds two collection entries for one item.
pub open spec fn collections_unique(rs: Seq<EventRecord>) -> bool {
    forall|i: int, j: int|
        0 <= i < j < rs.len() ==> !(#[trigger] rs[i].kind == EventKind::Collection
            && #[trigger] rs[j].kind == EventKind::Collection && rs[i].owner == rs[j].owner
            && rs[i].item@ == rs[j].item@)
}

/// `x` fits a signed 64-bit integer.
pub open spec fn fits_i64(x: int) -> bool {
    i64::MIN <= x <= i64::MAX
}

/// Appending a record adds what it contributes to each sum.
pub proof fn lemma_sums_push(rs: Seq<EventRecord>, r: EventRecord, owner: u64)
    ensures
        points_sum(rs.push(r), owner) == points_sum(rs, owner) + points_of(r, owner),
        quantity_sum(rs.push(r), owner) == quantity_sum(rs, owner) + quantity_of(r, owner),
{
    assert(rs.push(r).drop_last() =~= rs);
}

/// Deleting a record takes what it contributed from each sum.
pub proof fn lemma_sums_remove(rs: Seq<EventRecord>, i: int, owner: u64)
    requires
        0 <= i < rs.len(),
    ensures
        points_sum(rs.remove(i), owner) == points_sum(rs, owner) - points_of(rs[i], owner),
        quantity_sum(rs.remove(i), owner) == quantity_sum(rs, owner) - quantity_of(rs[i], owner),
    decreases rs.len(),
{
    if i == rs.len() - 1 {
        assert(rs.remove(i) =~= rs.drop_last());
    } else {
        lemma_sums_remove(rs.drop_last(), i, owner);
        assert(rs.remove(i).drop_last() =~= rs.drop_last().remove(i));
        assert(rs.remove(i).last() == rs.last());
    }
}

/// An identity that owns no record has both sums at zero.
pub proof fn lemma_sums_zero(rs: Seq<EventRecord>, owner: u64)
    requires
        forall|i: int| 0 <= i < rs.len() ==> (#[trigger] rs[i]).owner != owner,
    ensures
        points_sum(rs, owner) == 0,
        quantity_sum(rs, owner) == 0,
    decreases rs.len(),
{
    if rs.len() > 0 {
        assert(rs.drop_last().len() == rs.len() - 1);
        assert forall|i: int| 0 <= i < rs.drop_last().len() implies (#[trigger] rs.drop_last()[i]).owner
            != owner by {
            assert(rs.drop_last()[i] == rs[i]);
        }
        lemma_sums_zero(rs.drop_last(), owner);
        assert(rs.last() == rs[rs.len() - 1]);
    }
}

/// A game handle linked to an identity.
#[derive(Clone, Debug, PartialEq, Eq)]
pub struct LinkRecord {
    pub owner: u64,
    pub handle: String,
}

/// `l` links `owner` to `handle`, letter case aside.
pub open spec fn links_pair(l: LinkRecord, owner: u64, handle: Seq<char>) -> bool {
    l.owner == owner && same_handle(l.handle@, handle)
}

/// No (identity, handle) pair is linked twice.
pub open spec fn links_unique(ls: Seq<LinkRecord>) -> bool {
    forall|i: int, j: int|
        0 <= i < j < ls.len() ==> !links_pair(#[trigger] ls[i], (#[trigger] ls[j]).owner, ls[j].handle@)
}

/// The identities linked to `handle`, in the order of their links.
pub open spec fn linked_owners(ls: Seq<LinkRecord>, handle: Seq<char>) -> Seq<u64>
    decreases ls.len(),
{
    if ls.len() == 0 {
        Seq::empty()
    } else if same_handle(ls.last().handle@, handle) {
        linked_owners(ls.drop_last(), handle).push(ls.last().owner)
    } else {
        linked_owners(ls.drop_last(), handle)
    }
}

/// The ledger. Its fields are private: every ledger that the operations
/// below hand out is valid.
pub struct Ledger {
    ranks: RankTable,
    records: Vec<EventRecord>,
    accounts: Vec<Account>,
    links: Vec<LinkRecord>,
    next_id: u64,
}

/// The quantity that a record of `kind` adds to its owner's drop count.
pub open spec fn counted_quantity(kind: EventKind, quantity: int) -> int {
    if kind == EventKind::Drop {
        quantity
    } else {
        0
    }
}

/// `post` is `pre` with `rec` appended under the next free id, and its
/// owner known from then on.
pub open spec fn recorded(pre: Ledger, post: Ledger, rec: EventRecord) -> bool {
    &&& post.records() == pre.records().push(rec)
    &&& post.links() == pre.links()
    &&& post.ranks() == pre.ranks()
    &&& post.next_id() == pre.next_id() + 1
    &&& rec.id == pre.next_id()
    &&& forall|o: u64| post.known(o) <==> pre.known(o) || o == rec.owner
}

/// `post` is `pre` without the record at index `i`.
pub open spec fn removed(pre: Ledger, post: Ledger, i: int) -> bool {
    &&& 0 <= i < pre.records().len()
    &&& post.records() == pre.records().remove(i)
    &&& post.links() == pre.links()
    &&& post.ranks() == pre.ranks()
    &&& post.next_id() == pre.next_id()
    &&& forall|o: u64| post.known(o) <==> pre.known(o)
}

/// `s` reports a change of `delta` points for `owner` between `pre` and
/// `post`, evaluated against the ledger's thresholds.
pub open spec fn summarizes(
    s: EventSummary,
    pre: Ledger,
    post: Ledger,
    owner: u64,
    record_id: u64,
    item: Seq<char>,
    delta: int,
) -> bool {
    &&& s.record_id == record_id
    &&& s.item@ == item
    &&& s.points_delta == delta
    &&& points_sum(post.records(), owner) == points_sum(pre.records(), owner) + delta
    &&& is_update(
        s.update,
        pre.ranks(),
        points_sum(pre.records(), owner),
        points_sum(post.records(), owner),
    )
}

/// A record of `points` points and `quantity` items of `kind` can be added
/// for `owner` without leaving the range of a balance or of the ids.
pub open spec fn commit_fits(pre: Ledger, owner: u64, kind: EventKind, quantity: int, points: int) -> bool {
    &&& fits_i64(points_sum(pre.records(), owner) + points)
    &&& fits_i64(quantity_sum(pre.records(), owner) + counted_quantity(kind, quantity))
    &&& pre.next_id() < u64::MAX
}

/// The record `rec` can be taken from its owner's balance without leaving
/// the range of a balance.
pub open spec fn removal_fits(pre: Ledger, rec: EventRecord) -> bool {
    &&& fits_i64(points_sum(pre.records(), rec.owner) - rec.points)
    &&& fits_i64(
        quantity_sum(pre.records(), rec.owner) - counted_quantity(rec.kind, rec.quantity as int),
    )
    &&& fits_i64(-rec.points)
}

/// Why a drop of `quantity` items at `price` each is refused, if it is.
pub open spec fn drop_refusal(pre: Ledger, owner: u64, quantity: int, price: Option<i64>) -> Option<
    CoreError,
> {
    match price {
        None => Some(CoreError::NotFound),
        Some(unit) => if fits_i64(unit * quantity) && commit_fits(
            pre,
            owner,
            EventKind::Drop,
            quantity,
            points_of_value(unit * quantity),
        ) {
            None
        } else {
            Some(CoreError::Overflow)
        },
    }
}

/// Why a collection entry for `item` is refused, if it is: first for an
/// entry that `owner` already holds, then for an item without a rarity.
pub open spec fn collection_refusal(pre: Ledger, owner: u64, item: Seq<char>, points: Option<i64>) -> Option<
    CoreError,
> {
    if exists|i: int|
        0 <= i < pre.records().len() && is_collection_of(#[trigger] pre.records()[i], owner, item) {
        let i = choose|i: int|
            0 <= i < pre.records().len() && is_collection_of(
                #[trigger] pre.records()[i],
                owner,
                item,
            );
        Some(CoreError::Duplicate { recorded_at: pre.records()[i].created_at })
    } else {
        match points {
            None => Some(CoreError::NotFound),
            Some(p) => if commit_fits(pre, owner, EventKind::Collection, 0, p as int) {
                None
            } else {
                Some(CoreError::Overflow)
            },
        }
    }
}

/// `rec` is a drop of `quantity` items of `item`, worth `value` coins in
/// all and the points that this value scores.
pub open spec fn is_drop_record(
    rec: EventRecord,
    owner: u64,
    item: Seq<char>,
    quantity: int,
    value: int,
    now: int,
) -> bool {
    &&& rec.owner == owner
    &&& rec.kind == EventKind::Drop
    &&& rec.item@ == item
    &&& rec.quantity == quantity
    &&& rec.value == value
    &&& rec.points == points_of_value(value)
    &&& rec.created_at == now
}

/// `rec` is a collection entry for `item` worth `points`.
pub open spec fn is_collection_record(
    rec: EventRecord,
    owner: u64,
    item: Seq<char>,
    points: int,
    now: int,
) -> bool {
    &&& rec.owner == owner
    &&& rec.kind == EventKind::Collection
    &&& rec.item@ == item
    &&& rec.quantity == 0
    &&& rec.value == 0
    &&& rec.points == points
    &&& rec.created_at == now
}

/// What recording a drop of known total value does: it appends the drop
/// and reports the change, or refuses with `Overflow` and changes nothing
/// where a balance or the ids would leave their range.
pub open spec fn drop_step(
    pre: Ledger,
    post: Ledger,
    owner: u64,
    item: Seq<char>,
    quantity: int,
    value: int,
    now: int,
    r: Result<EventSummary, CoreError>,
) -> bool {
    let points = points_of_value(value);
    match r {
        Ok(s) => {
            let rec = post.records().last();
            &&& commit_fits(pre, owner, EventKind::Drop, quantity, points)
            &&& recorded(pre, post, rec)
            &&& is_drop_record(rec, owner, item, quantity, value, now)
            &&& summarizes(s, pre, post, owner, rec.id, item, points)
        },
        Err(e) => {
            &&& e == CoreError::Overflow
            &&& !commit_fits(pre, owner, EventKind::Drop, quantity, points)
            &&& post == pre
        },
    }
}

/// What recording a collection entry does: it refuses as
/// `collection_refusal` says and changes nothing, or appends the entry and
/// reports the change.
pub open spec fn collection_step(
    pre: Ledger,
    post: Ledger,
    owner: u64,
    item: Seq<char>,
    points: Option<i64>,
    now: int,
    r: Result<EventSummary, CoreError>,
) -> bool {
    &&& error_of(r) == collection_refusal(pre, owner, item, points)
    &&& match r {
        Ok(s) => {
            let rec = post.records().last();
            &&& recorded(pre, post, rec)
            &&& is_collection_record(rec, owner, item, points.unwrap() as int, now)
            &&& summarizes(s, pre, post, owner, rec.id, item, points.unwrap() as int)
        },
        Err(e) => post == pre,
    }
}

/// What recording a drop at a unit price does: it refuses as
/// `drop_refusal` says and changes nothing, or appends the drop at its
/// total value and reports the change.
pub open spec fn priced_step(
    pre: Ledger,
    post: Ledger,
    owner: u64,
    item: Seq<char>,
    quantity: int,
    price: Option<i64>,
    now: int,
    r: Result<EventSummary, CoreError>,
) -> bool {
    &&& error_of(r) == drop_refusal(pre, owner, quantity, price)
    &&& match r {
        Ok(s) => {
            let rec = post.records().last();
            let total = price.unwrap() * quantity;
            &&& recorded(pre, post, rec)
            &&& is_drop_record(rec, owner, item, quantity, total, now)
            &&& summarizes(s, pre, post, owner, rec.id, item, points_of_value(total))
        },
        Err(e) => post == pre,
    }
}

/// What applying a feed event for one linked identity does.
pub open spec fn event_step(
    pre: Ledger,
    post: Ledger,
    owner: u64,
    event: Candidate,
    points: Option<i64>,
    now: int,
    r: Result<EventSummary, CoreError>,
) -> bool {
    match event {
        Candidate::Drop { handle, item, quantity, value } => drop_step(
            pre,
            post,
            owner,
            item,
            quantity,
            value,
            now,
            r,
        ),
        Candidate::Collection { handle, item } => collection_step(
            pre,
            post,
            owner,
            item,
            points,
            now,
            r,
        ),
    }
}

/// The handle that a feed event names.
pub open spec fn event_handle(event: Candidate) -> Seq<char> {
    match event {
        Candidate::Drop { handle, item, quantity, value } => handle,
        Candidate::Collection { handle, item } => handle,
    }
}

/// The item that a feed event names.
pub open spec fn event_item(event: Candidate) -> Seq<char> {
    match event {
        Candidate::Drop { handle, item, quantity, value } => item,
        Candidate::Collection { handle, item } => item,
    }
}

/// `out` is what applying `event` to each of `owners` in turn gives, and
/// `post` the ledger after the last of them: `states` holds the ledger
/// before the first step and after each.
pub open spec fn applied_in_turn(
    states: Seq<Ledger>,
    owners: Seq<u64>,
    event: Candidate,
    points: Option<i64>,
    now: int,
    out: Seq<(u64, Result<EventSummary, CoreError>)>,
) -> bool {
    &&& states.len() == owners.len() + 1
    &&& out.len() == owners.len()
    &&& forall|k: int|
        0 <= k < owners.len() ==> #[trigger] applied_at(states, owners, event, points, now, out, k)
}

/// `post` and `out` are what applying `event` to `pre` gives: the event is
/// applied once for each identity linked to its handle, in the order of
/// the links, each time to the ledger that the step before left.
pub open spec fn feed_applied(
    pre: Ledger,
    post: Ledger,
    event: Candidate,
    points: Option<i64>,
    now: int,
    out: Seq<(u64, Result<EventSummary, CoreError>)>,
) -> bool {
    exists|states: Seq<Ledger>|
        {
            &&& #[trigger] applied_in_turn(
                states,
                linked_owners(pre.links(), event_handle(event)),
                event,
                points,
                now,
                out,
            )
            &&& states[0] == pre
            &&& states.last() == post
        }
}

/// Step `k` of `applied_in_turn`: the event is applied for `owners[k]` to
/// the valid ledger `states[k]`, which gives `states[k + 1]` and `out[k]`.
pub open spec fn applied_at(
    states: Seq<Ledger>,
    owners: Seq<u64>,
    event: Candidate,
    points: Option<i64>,
    now: int,
    out: Seq<(u64, Result<EventSummary, CoreError>)>,
    k: int,
) -> bool {
    &&& out[k].0 == owners[k]
    &&& states[k].wf()
    &&& event_step(states[k], states[k + 1], owners[k], event, points, now, out[k].1)
}

/// The error of a result, if it is one.
pub open spec fn error_of<T>(r: Result<T, CoreError>) -> Option<CoreError> {
    match r {
        Ok(_) => None,
        Err(e) => Some(e),
    }
}

impl Ledger {
    /// The records, oldest first.
    pub closed spec fn records(&self) -> Seq<EventRecord> {
        self.records@
    }

    /// The links, oldest first.
    pub closed spec fn links(&self) -> Seq<LinkRecord> {
        self.links@
    }

    /// The thresholds as (cutoff, label) pairs.
    pub closed spec fn ranks(&self) -> Seq<(int, Seq<char>)> {
        self.ranks@
    }

    /// The id that the next record gets.
    pub closed spec fn next_id(&self) -> int {
        self.next_id as int
    }

    /// `owner` has taken part in a mutation of the ledger.
    pub closed spec fn known(&self, owner: u64) -> bool {
        exists|i: int| 0 <= i < self.accounts@.len() && (#[trigger] self.accounts@[i]).owner == owner
    }

    /// The balance that the ledger keeps for `owner`, updated with every
    /// insert and delete: its points and its number of dropped items.
    pub closed spec fn stored_balance(&self, owner: u64) -> (int, int) {
        if self.known(owner) {
            let i = choose|i: int|
                0 <= i < self.accounts@.len() && (#[trigger] self.accounts@[i]).owner == owner;
            (self.accounts@[i].points as int, self.accounts@[i].total_drops as int)
        } else {
            (0, 0)
        }
    }

    /// The ledger is valid: ids are unique and below the next id, no
    /// collection entry or link occurs twice, every owner of a record is
    /// known, and each stored balance equals the sums over the records.
    pub closed spec fn wf(&self) -> bool {
        &&& self.ranks.wf()
        &&& ids_unique(self.records@)
        &&& forall|i: int| 0 <= i < self.records@.len() ==> (#[trigger] self.records@[i]).id < self.next_id
        &&& collections_unique(self.records@)
        &&& links_unique(self.links@)
        &&& forall|i: int, j: int|
            0 <= i < j < self.accounts@.len() ==> (#[trigger] self.accounts@[i]).owner != (
            #[trigger] self.accounts@[j]).owner
        &&& forall|i: int|
            0 <= i < self.accounts@.len() ==> (#[trigger] self.accounts@[i]).points == points_sum(
                self.records@,
                self.accounts@[i].owner,
            ) && self.accounts@[i].total_drops == quantity_sum(self.records@, self.accounts@[i].owner)
        &&& forall|i: int|
            0 <= i < self.records@.len() ==> self.known((#[trigger] self.records@[i]).owner)
    }

    /// What validity means for the records, the links and the thresholds.
    pub proof fn lemma_valid(&self)
        requires
            self.wf(),
        ensures
            ascending(self.ranks()),
            ids_unique(self.records()),
            collections_unique(self.records()),
            links_unique(self.links()),
            forall|i: int|
                0 <= i < self.records().len() ==> (#[trigger] self.records()[i]).id < self.next_id(),
            forall|i: int|
                0 <= i < self.records().len() ==> self.known((#[trigger] self.records()[i]).owner),
    {
    }

    /// The stored balance of every identity equals the sum of the points,
    /// and the sum of the dropped quantities, of the records that it owns.
    pub proof fn lemma_balance_is_sum(&self, owner: u64)
        requires
            self.wf(),
        ensures
            self.stored_balance(owner) == (
                points_sum(self.records(), owner),
                quantity_sum(self.records(), owner),
            ),
    {
        if !self.known(owner) {
            assert forall|i: int| 0 <= i < self.records@.len() implies (#[trigger] self.records@[i]).owner
                != owner by {
                assert(self.known(self.records@[i].owner));
            }
            lemma_sums_zero(self.records@, owner);
        }
    }

    /// An empty ledger over the thresholds `ranks`. Ids start at 1.
    pub fn new(ranks: RankTable) -> (l: Ledger)
        requires
            ranks.wf(),
        ensures
            l.wf(),
            l.records() == Seq::<EventRecord>::empty(),
            l.links() == Seq::<LinkRecord>::empty(),
            l.ranks() == ranks@,
            l.next_id() == 1,
            forall|o: u64| !l.known(o),
    {
        Ledger { ranks, records: Vec::new(), accounts: Vec::new(), links: Vec::new(), next_id: 1 }
    }

    fn account_index(&self, owner: u64) -> (r: Option<usize>)
        ensures
            match r {
                Some(i) => i < self.accounts@.len() && self.accounts@[i as int].owner == owner,
                None => !self.known(owner),
            },
    {
        let mut i: usize = 0;
        while i < self.accounts.len()
            invariant
                i <= self.accounts@.len(),
                forall|k: int| 0 <= k < i ==> (#[trigger] self.accounts@[k]).owner != owner,
            decreases self.accounts@.len() - i,
        {
            if self.accounts[i].owner == owner {
                return Some(i);
            }
            i += 1;
        }
        None
    }

    /// Whether `owner` has taken part in a mutation of the ledger.
    pub fn is_known(&self, owner: u64) -> (r: bool)
        ensures
            r == self.known(owner),
    {
        self.account_index(owner).is_some()
    }

    /// The balance of `owner`; zero for an identity not yet known.
    pub fn get_balance(&self, owner: u64) -> (b: Balance)
        requires
            self.wf(),
        ensures
            b.points == points_sum(self.records(), owner),
            b.total_drop_quantity == quantity_sum(self.records(), owner),
    {
        proof {
            self.lemma_balance_is_sum(owner);
        }
        match self.account_index(owner) {
            Some(i) => {
                let a = self.accounts[i];
                assert(self.stored_balance(owner) == (a.points as int, a.total_drops as int)) by {
                    let c = choose|c: int|
                        0 <= c < self.accounts@.len() && (#[trigger] self.accounts@[c]).owner == owner;
                    assert(c == i);
                }
                Balance { points: a.points, total_drop_quantity: a.total_drops }
            },
            None => Balance { points: 0, total_drop_quantity: 0 },
        }
    }
}

impl Ledger {
    fn insert(&mut self, rec: EventRecord, new_points: i64, new_total: i64)
        requires
            old(self).wf(),
            old(self).next_id() <= rec.id < u64::MAX,
            new_points == points_sum(old(self).records(), rec.owner) + rec.points,
            new_total == quantity_sum(old(self).records(), rec.owner) + quantity_of(rec, rec.owner),
            rec.kind == EventKind::Collection ==> forall|i: int|
                0 <= i < old(self).records().len() ==> !is_collection_of(
                    #[trigger] old(self).records()[i],
                    rec.owner,
                    rec.item@,
                ),
        ensures
            final(self).wf(),
            final(self).records() == old(self).records().push(rec),
            final(self).links() == old(self).links(),
            final(self).ranks() == old(self).ranks(),
            final(self).next_id() == rec.id + 1,
            forall|o: u64| final(self).known(o) <==> old(self).known(o) || o == rec.owner,
    {
        let account = Account { owner: rec.owner, points: new_points, total_drops: new_total };
        let ghost before = self.records@;
        let ghost accounts_before = self.accounts@;
        let owner = rec.owner;
        let id = rec.id;
        let ghost kind = rec.kind;
        let ghost item = rec.item;
        let slot = self.account_index(owner);
        match slot {
            Some(k) => {
                self.accounts.set(k, account);
            },
            None => {
                self.accounts.push(account);
            },
        }
        proof {
            assert forall|i: int| 0 <= i < accounts_before.len() implies #[trigger] self.accounts@[i].owner
                == accounts_before[i].owner by {}
            assert forall|i: int| 0 <= i < self.accounts@.len() implies (#[trigger] self.accounts@[i]).points
                == points_sum(before.push(rec), self.accounts@[i].owner) && self.accounts@[i].total_drops
                == quantity_sum(before.push(rec), self.accounts@[i].owner) by {
                lemma_sums_push(before, rec, self.accounts@[i].owner);
                if i < accounts_before.len() {
                    assert(accounts_before[i].points == points_sum(before, accounts_before[i].owner));
                }
            }
            lemma_sums_push(before, rec, owner);
        }
        self.records.push(rec);
        self.next_id = id + 1;
        proof {
            let k = match slot {
                Some(k) => k as int,
                None => accounts_before.len() as int,
            };
            assert(self.accounts@[k].owner == owner);
            assert forall|o: u64| self.known(o) <==> old(self).known(o) || o == owner by {
                if old(self).known(o) {
                    let c = choose|c: int|
                        0 <= c < accounts_before.len() && (#[trigger] accounts_before[c]).owner == o;
                    assert(self.accounts@[c].owner == o);
                }
                if self.known(o) && o != owner {
                    let c = choose|c: int|
                        0 <= c < self.accounts@.len() && (#[trigger] self.accounts@[c]).owner == o;
                    assert(c < accounts_before.len());
                    assert(accounts_before[c].owner == o);
                }
            }
            assert forall|i: int| 0 <= i < self.records@.len() implies self.known(
                (#[trigger] self.records@[i]).owner,
            ) by {
                if i < before.len() {
                    assert(self.records@[i] == before[i]);
                    assert(old(self).known(before[i].owner));
                }
            }
            assert(collections_unique(self.records@)) by {
                assert forall|i: int, j: int| 0 <= i < j < self.records@.len() implies !(
                #[trigger] self.records@[i].kind == EventKind::Collection
                    && #[trigger] self.records@[j].kind == EventKind::Collection
                    && self.records@[i].owner == self.records@[j].owner && self.records@[i].item@
                    == self.records@[j].item@) by {
                    if j < before.len() {
                        assert(before[i].kind == self.records@[i].kind);
                        assert(before[j].kind == self.records@[j].kind);
                    } else if kind == EventKind::Collection {
                        assert(!is_collection_of(before[i], owner, item@));
                    }
                }
            }
            assert(self.records@.last() == rec);
        }
    }

    fn commit(
        &mut self,
        owner: u64,
        kind: EventKind,
        item: &str,
        quantity: i64,
        value: i64,
        points: i64,
        now: i64,
    ) -> (r: Result<EventSummary, CoreError>)
        requires
            old(self).wf(),
            kind == EventKind::Collection ==> forall|i: int|
                0 <= i < old(self).records().len() ==> !is_collection_of(
                    #[trigger] old(self).records()[i],
                    owner,
                    item@,
                ),
        ensures
            final(self).wf(),
            match r {
                Ok(s) => {
                    let rec = final(self).records().last();
                    &&& commit_fits(*old(self), owner, kind, quantity as int, points as int)
                    &&& recorded(*old(self), *final(self), rec)
                    &&& rec.owner == owner
                    &&& rec.kind == kind
                    &&& rec.item@ == item@
                    &&& rec.quantity == quantity
                    &&& rec.value == value
                    &&& rec.points == points
                    &&& rec.created_at == now
                    &&& summarizes(s, *old(self), *final(self), owner, rec.id, item@, points as int)
                },
                Err(e) => {
                    &&& e == CoreError::Overflow
                    &&& !commit_fits(*old(self), owner, kind, quantity as int, points as int)
                    &&& *final(self) == *old(self)
                },
            },
    {
        let balance = self.get_balance(owner);
        let counted = match kind {
            EventKind::Drop => quantity,
            EventKind::Collection => 0,
        };
        let new_points = match balance.points.checked_add(points) {
            Some(x) => x,
            None => {
                return Err(CoreError::Overflow);
            },
        };
        let new_total = match balance.total_drop_quantity.checked_add(counted) {
            Some(x) => x,
            None => {
                return Err(CoreError::Overflow);
            },
        };
        if self.next_id == u64::MAX {
            return Err(CoreError::Overflow);
        }
        let update = evaluate(balance.points, new_points, &self.ranks);
        let id = self.next_id;
        let rec = EventRecord {
            id,
            owner,
            kind,
            item: String::from_str(item),
            quantity,
            value,
            points,
            created_at: now,
        };
        let ghost shown = rec;
        self.insert(rec, new_points, new_total);
        proof {
            lemma_sums_push(old(self).records(), shown, owner);
            assert(self.records().last() == shown);
        }
        Ok(EventSummary { record_id: id, item: String::from_str(item), points_delta: points, update })
    }

    /// Records a drop of `quantity` items whose total value is known, as a
    /// feed message reports it.
    pub fn record_priced_drop(
        &mut self,
        owner: u64,
        item: &str,
        quantity: i64,
        value: i64,
        now: i64,
    ) -> (r: Result<EventSummary, CoreError>)
        requires
            old(self).wf(),
        ensures
            final(self).wf(),
            drop_step(
                *old(self),
                *final(self),
                owner,
                item@,
                quantity as int,
                value as int,
                now as int,
                r,
            ),
    {
        let points = points_for_value(value);
        self.commit(owner, EventKind::Drop, item, quantity, value, points, now)
    }

    /// Records a drop of `quantity` items at `price` coins each, where the
    /// price table knows the item.
    pub fn record_drop(
        &mut self,
        owner: u64,
        item: &str,
        quantity: i64,
        price: Option<i64>,
        now: i64,
    ) -> (r: Result<EventSummary, CoreError>)
        requires
            old(self).wf(),
        ensures
            final(self).wf(),
            priced_step(*old(self), *final(self), owner, item@, quantity as int, price, now as int, r),
    {
        let unit = match price {
            Some(unit) => unit,
            None => {
                return Err(CoreError::NotFound);
            },
        };
        match total_value(unit, quantity) {
            Some(total) => self.record_priced_drop(owner, item, quantity, total, now),
            None => Err(CoreError::Overflow),
        }
    }

    fn collection_index(&self, owner: u64, item: &str) -> (r: Option<usize>)
        ensures
            match r {
                Some(i) => i < self.records().len() && is_collection_of(
                    self.records()[i as int],
                    owner,
                    item@,
                ),
                None => forall|i: int|
                    0 <= i < self.records().len() ==> !is_collection_of(
                        #[trigger] self.records()[i],
                        owner,
                        item@,
                    ),
            },
    {
        let wanted = String::from_str(item);
        let mut i: usize = 0;
        while i < self.records.len()
            invariant
                i <= self.records@.len(),
                wanted@ == item@,
                forall|k: int|
                    0 <= k < i ==> !is_collection_of(#[trigger] self.records@[k], owner, item@),
            decreases self.records@.len() - i,
        {
            let rec = &self.records[i];
            if rec.kind == EventKind::Collection && rec.owner == owner && rec.item == wanted {
                return Some(i);
            }
            i += 1;
        }
        None
    }

    /// Records a collection entry worth `points`, where the rarity table
    /// knows the item and `owner` does not hold the entry yet.
    pub fn record_collection(
        &mut self,
        owner: u64,
        item: &str,
        points: Option<i64>,
        now: i64,
    ) -> (r: Result<EventSummary, CoreError>)
        requires
            old(self).wf(),
        ensures
            final(self).wf(),
            collection_step(*old(self), *final(self), owner, item@, points, now as int, r),
    {
        match self.collection_index(owner, item) {
            Some(i) => {
                proof {
                    let c = choose|c: int|
                        0 <= c < self.records().len() && is_collection_of(
                            #[trigger] self.records()[c],
                            owner,
                            item@,
                        );
                    if c < i {
                        assert(self.records@[c].kind == EventKind::Collection);
                        assert(self.records@[i as int].kind == EventKind::Collection);
                    } else if c > i {
                        assert(self.records@[c].kind == EventKind::Collection);
                        assert(self.records@[i as int].kind == EventKind::Collection);
                    }
                    assert(c == i);
                }
                Err(CoreError::Duplicate { recorded_at: self.records[i].created_at })
            },
            None => match points {
                None => Err(CoreError::NotFound),
                Some(p) => self.commit(owner, EventKind::Collection, item, 0, 0, p, now),
            },
        }
    }
}

/// `rec` has the id `record_id` and belongs to `owner`.
pub open spec fn is_owned(rec: EventRecord, owner: u64, record_id: u64) -> bool {
    rec.id == record_id && rec.owner == owner
}

/// Why the removal of record `record_id` by `owner` is refused, if it is.
pub open spec fn removal_refusal(pre: Ledger, owner: u64, record_id: u64) -> Option<CoreError> {
    if exists|i: int|
        0 <= i < pre.records().len() && is_owned(#[trigger] pre.records()[i], owner, record_id) {
        let i = choose|i: int|
            0 <= i < pre.records().len() && is_owned(#[trigger] pre.records()[i], owner, record_id);
        if removal_fits(pre, pre.records()[i]) {
            None
        } else {
            Some(CoreError::Overflow)
        }
    } else {
        Some(CoreError::NotOwned)
    }
}

/// What removing record `record_id` for `owner` does: it refuses as
/// `removal_refusal` says and changes nothing, or deletes the record and
/// takes its points, and its quantity if it is a drop, from the balance.
pub open spec fn removal_step(
    pre: Ledger,
    post: Ledger,
    owner: u64,
    record_id: u64,
    r: Result<EventSummary, CoreError>,
) -> bool {
    &&& error_of(r) == removal_refusal(pre, owner, record_id)
    &&& match r {
        Ok(s) => exists|i: int|
            {
                &&& removed(pre, post, i)
                &&& is_owned(#[trigger] pre.records()[i], owner, record_id)
                &&& summarizes(
                    s,
                    pre,
                    post,
                    owner,
                    record_id,
                    pre.records()[i].item@,
                    -pre.records()[i].points,
                )
                &&& quantity_sum(post.records(), owner) == quantity_sum(pre.records(), owner)
                    - counted_quantity(pre.records()[i].kind, pre.records()[i].quantity as int)
            },
        Err(e) => post == pre,
    }
}

impl Ledger {
    fn record_index(&self, owner: u64, record_id: u64) -> (r: Option<usize>)
        ensures
            match r {
                Some(i) => i < self.records().len() && is_owned(
                    self.records()[i as int],
                    owner,
                    record_id,
                ),
                None => forall|i: int|
                    0 <= i < self.records().len() ==> !is_owned(
                        #[trigger] self.records()[i],
                        owner,
                        record_id,
                    ),
            },
    {
        let mut i: usize = 0;
        while i < self.records.len()
            invariant
                i <= self.records@.len(),
                forall|k: int| 0 <= k < i ==> !is_owned(#[trigger] self.records@[k], owner, record_id),
            decreases self.records@.len() - i,
        {
            if self.records[i].id == record_id && self.records[i].owner == owner {
                return Some(i);
            }
            i += 1;
        }
        None
    }

    /// Deletes the record `record_id` of `owner` and takes its points, and
    /// for a drop its quantity, back from the balance.
    pub fn remove_event(&mut self, owner: u64, record_id: u64) -> (r: Result<
        EventSummary,
        CoreError,
    >)
        requires
            old(self).wf(),
        ensures
            final(self).wf(),
            removal_step(*old(self), *final(self), owner, record_id, r),
    {
        let i = match self.record_index(owner, record_id) {
            Some(i) => i,
            None => {
                return Err(CoreError::NotOwned);
            },
        };
        proof {
            let c = choose|c: int|
                0 <= c < self.records().len() && is_owned(
                    #[trigger] self.records()[c],
                    owner,
                    record_id,
                );
            assert(c == i);
            assert(self.known(self.records@[i as int].owner));
        }
        let points = self.records[i].points;
        let counted = match self.records[i].kind {
            EventKind::Drop => self.records[i].quantity,
            EventKind::Collection => 0,
        };
        let balance = self.get_balance(owner);
        let new_points = match balance.points.checked_sub(points) {
            Some(x) => x,
            None => {
                return Err(CoreError::Overflow);
            },
        };
        let new_total = match balance.total_drop_quantity.checked_sub(counted) {
            Some(x) => x,
            None => {
                return Err(CoreError::Overflow);
            },
        };
        let delta = match 0i64.checked_sub(points) {
            Some(x) => x,
            None => {
                return Err(CoreError::Overflow);
            },
        };
        let slot = match self.account_index(owner) {
            Some(k) => k,
            None => {
                return Err(CoreError::NotOwned);
            },
        };
        let update = evaluate(balance.points, new_points, &self.ranks);
        let ghost before = self.records@;
        let ghost accounts_before = self.accounts@;
        self.accounts.set(slot, Account { owner, points: new_points, total_drops: new_total });
        let rec = self.records.remove(i);
        proof {
            lemma_sums_remove(before, i as int, owner);
            assert forall|k: int| 0 <= k < self.accounts@.len() implies (#[trigger] self.accounts@[k]).points
                == points_sum(self.records@, self.accounts@[k].owner) && self.accounts@[k].total_drops
                == quantity_sum(self.records@, self.accounts@[k].owner) by {
                lemma_sums_remove(before, i as int, self.accounts@[k].owner);
                assert(accounts_before[k].points == points_sum(before, accounts_before[k].owner));
            }
            assert forall|o: u64| self.known(o) <==> old(self).known(o) by {
                if old(self).known(o) {
                    let c = choose|c: int|
                        0 <= c < accounts_before.len() && (#[trigger] accounts_before[c]).owner == o;
                    assert(self.accounts@[c].owner == o);
                }
                if self.known(o) {
                    let c = choose|c: int|
                        0 <= c < self.accounts@.len() && (#[trigger] self.accounts@[c]).owner == o;
                    assert(accounts_before[c].owner == o);
                }
            }
            assert forall|k: int| 0 <= k < self.records@.len() implies self.known(
                (#[trigger] self.records@[k]).owner,
            ) && self.records@[k].id < self.next_id by {
                if k < i {
                    assert(self.records@[k] == before[k]);
                } else {
                    assert(self.records@[k] == before[k + 1]);
                }
                assert(old(self).known(self.records@[k].owner));
            }
            assert(ids_unique(self.records@)) by {
                assert forall|a: int, b: int| 0 <= a < b < self.records@.len() implies self.records@[a].id
                    != self.records@[b].id by {
                    let a0 = if a < i { a } else { a + 1 };
                    let b0 = if b < i { b } else { b + 1 };
                    assert(self.records@[a] == before[a0]);
                    assert(self.records@[b] == before[b0]);
                }
            }
            assert(collections_unique(self.records@)) by {
                assert forall|a: int, b: int| 0 <= a < b < self.records@.len() implies !(
                #[trigger] self.records@[a].kind == EventKind::Collection
                    && #[trigger] self.records@[b].kind == EventKind::Collection
                    && self.records@[a].owner == self.records@[b].owner && self.records@[a].item@
                    == self.records@[b].item@) by {
                    let a0 = if a < i { a } else { a + 1 };
                    let b0 = if b < i { b } else { b + 1 };
                    assert(self.records@[a] == before[a0]);
                    assert(self.records@[b] == before[b0]);
                    assert(before[a0].kind == self.records@[a].kind);
                    assert(before[b0].kind == self.records@[b].kind);
                }
            }
            assert(removed(*old(self), *self, i as int));
        }
        Ok(EventSummary { record_id, item: rec.item, points_delta: delta, update })
    }
}

/// Recording an event and then removing it leaves the records, and with
/// them every balance, exactly as they were, and the removal crosses the
/// ranks that the insert crossed, in the opposite order.
pub proof fn lemma_removal_compensates(
    pre: Ledger,
    mid: Ledger,
    post: Ledger,
    rec: EventRecord,
    i: int,
    owner: u64,
)
    requires
        mid.wf(),
        recorded(pre, mid, rec),
        removed(mid, post, i),
        mid.records()[i].id == rec.id,
    ensures
        post.records() == pre.records(),
        points_sum(post.records(), owner) == points_sum(pre.records(), owner),
        quantity_sum(post.records(), owner) == quantity_sum(pre.records(), owner),
        crossed(
            mid.ranks(),
            points_sum(mid.records(), owner),
            points_sum(post.records(), owner),
        ) == crossed(
            pre.ranks(),
            points_sum(pre.records(), owner),
            points_sum(mid.records(), owner),
        ).reverse(),
{
    mid.lemma_valid();
    let last = mid.records().len() - 1;
    assert(mid.records()[last] == rec);
    assert(i == last);
    assert(post.records() =~= pre.records());
    lemma_crossed_reversed(
        pre.ranks(),
        points_sum(pre.records(), owner),
        points_sum(mid.records(), owner),
    );
}

/// Once an identity holds a collection entry, recording the same item for
/// it again is refused as a duplicate that names the time of the entry
/// held, whatever the rarity table says by then.
pub proof fn lemma_collection_once(
    pre: Ledger,
    mid: Ledger,
    rec: EventRecord,
    owner: u64,
    item: Seq<char>,
    again: Option<i64>,
)
    requires
        mid.wf(),
        recorded(pre, mid, rec),
        is_collection_of(rec, owner, item),
    ensures
        collection_refusal(mid, owner, item, again) == Some(
            CoreError::Duplicate { recorded_at: rec.created_at },
        ),
{
    mid.lemma_valid();
    let last = mid.records().len() - 1;
    assert(mid.records()[last] == rec);
    assert(is_collection_of(mid.records()[last], owner, item));
    let c = choose|c: int|
        0 <= c < mid.records().len() && is_collection_of(#[trigger] mid.records()[c], owner, item);
    if c < last {
        assert(mid.records()[c].kind == EventKind::Collection);
        assert(mid.records()[last].kind == EventKind::Collection);
    }
}

impl Ledger {
    /// The identities linked to `handle`, letter case aside, in the order
    /// in which they were linked.
    pub fn resolve(&self, handle: &str) -> (r: Vec<u64>)
        ensures
            r@ == linked_owners(self.links(), handle@),
    {
        let mut out: Vec<u64> = Vec::new();
        let mut i: usize = 0;
        assert(self.links@.subrange(0, 0) =~= Seq::<LinkRecord>::empty());
        while i < self.links.len()
            invariant
                i <= self.links@.len(),
                out@ == linked_owners(self.links@.subrange(0, i as int), handle@),
            decreases self.links@.len() - i,
        {
            assert(self.links@.subrange(0, i + 1).drop_last() =~= self.links@.subrange(0, i as int));
            if handles_match(self.links[i].handle.as_str(), handle) {
                out.push(self.links[i].owner);
            }
            i += 1;
        }
        assert(self.links@.subrange(0, i as int) =~= self.links@);
        out
    }

    fn link_index(&self, owner: u64, handle: &str) -> (r: Option<usize>)
        ensures
            match r {
                Some(i) => i < self.links().len() && links_pair(
                    self.links()[i as int],
                    owner,
                    handle@,
                ),
                None => forall|i: int|
                    0 <= i < self.links().len() ==> !links_pair(
                        #[trigger] self.links()[i],
                        owner,
                        handle@,
                    ),
            },
    {
        let mut i: usize = 0;
        while i < self.links.len()
            invariant
                i <= self.links@.len(),
                forall|k: int| 0 <= k < i ==> !links_pair(#[trigger] self.links@[k], owner, handle@),
            decreases self.links@.len() - i,
        {
            if self.links[i].owner == owner && handles_match(
                self.links[i].handle.as_str(),
                handle,
            ) {
                return Some(i);
            }
            i += 1;
        }
        None
    }

    fn touch(&mut self, owner: u64)
        requires
            old(self).wf(),
        ensures
            final(self).wf(),
            final(self).records() == old(self).records(),
            final(self).links() == old(self).links(),
            final(self).ranks() == old(self).ranks(),
            final(self).next_id() == old(self).next_id(),
            forall|o: u64| final(self).known(o) <==> old(self).known(o) || o == owner,
    {
        let ghost accounts_before = self.accounts@;
        if self.account_index(owner).is_none() {
            proof {
                assert forall|i: int| 0 <= i < self.records@.len() implies (#[trigger] self.records@[i]).owner
                    != owner by {
                    assert(self.known(self.records@[i].owner));
                }
                lemma_sums_zero(self.records@, owner);
            }
            self.accounts.push(Account { owner, points: 0, total_drops: 0 });
            proof {
                let n = accounts_before.len() as int;
                assert(self.accounts@[n].owner == owner);
                assert forall|i: int| 0 <= i < n implies (#[trigger] self.accounts@[i]) == accounts_before[i] by {}
                assert forall|o: u64| self.known(o) <==> old(self).known(o) || o == owner by {
                    if old(self).known(o) {
                        let c = choose|c: int|
                            0 <= c < accounts_before.len() && (#[trigger] accounts_before[c]).owner
                                == o;
                        assert(self.accounts@[c].owner == o);
                    }
                    if self.known(o) && o != owner {
                        let c = choose|c: int|
                            0 <= c < self.accounts@.len() && (#[trigger] self.accounts@[c]).owner
                                == o;
                        assert(accounts_before[c].owner == o);
                    }
                }
                assert forall|i: int| 0 <= i < self.records@.len() implies self.known(
                    (#[trigger] self.records@[i]).owner,
                ) by {
                    assert(old(self).known(self.records@[i].owner));
                }
                assert forall|i: int, j: int| 0 <= i < j < self.accounts@.len() implies (
                #[trigger] self.accounts@[i]).owner != (#[trigger] self.accounts@[j]).owner by {
                    if j == n {
                        assert(accounts_before[i].owner != owner);
                    } else {
                        assert(accounts_before[i].owner != accounts_before[j].owner);
                    }
                }
            }
        }
    }

    /// Links `handle` to `owner` unless the pair is linked already, and
    /// says whether a link was added. The identity is known from then on.
    pub fn link(&mut self, owner: u64, handle: &str) -> (added: bool)
        requires
            old(self).wf(),
        ensures
            final(self).wf(),
            final(self).records() == old(self).records(),
            final(self).ranks() == old(self).ranks(),
            final(self).next_id() == old(self).next_id(),
            forall|o: u64| final(self).known(o) <==> old(self).known(o) || o == owner,
            added <==> forall|i: int|
                0 <= i < old(self).links().len() ==> !links_pair(
                    #[trigger] old(self).links()[i],
                    owner,
                    handle@,
                ),
            !added ==> final(self).links() == old(self).links(),
            added ==> final(self).links() == old(self).links().push(final(self).links().last())
                && final(self).links().last().owner == owner && final(self).links().last().handle@
                == handle@,
    {
        self.touch(owner);
        match self.link_index(owner, handle) {
            Some(_) => false,
            None => {
                let ghost links_before = self.links@;
                assert(forall|i: int|
                    0 <= i < links_before.len() ==> !links_pair(
                        #[trigger] links_before[i],
                        owner,
                        handle@,
                    ));
                self.links.push(LinkRecord { owner, handle: String::from_str(handle) });
                proof {
                    assert forall|i: int, j: int| 0 <= i < j < self.links@.len() implies !links_pair(
                        #[trigger] self.links@[i],
                        (#[trigger] self.links@[j]).owner,
                        self.links@[j].handle@,
                    ) by {
                        if j < links_before.len() {
                            assert(self.links@[i] == links_before[i]);
                            assert(self.links@[j] == links_before[j]);
                        } else {
                            assert(self.links@[i] == links_before[i]);
                            assert(!links_pair(links_before[i], owner, handle@));
                            assert(self.links@[j].owner == owner);
                            assert(self.links@[j].handle@ == handle@);
                        }
                    }
                    assert(self.links@ =~= links_before.push(self.links@.last()));
                }
                true
            },
        }
    }

    /// Removes the link between `owner` and `handle` if there is one, and
    /// says whether there was.
    pub fn unlink(&mut self, owner: u64, handle: &str) -> (dropped: bool)
        requires
            old(self).wf(),
        ensures
            final(self).wf(),
            final(self).records() == old(self).records(),
            final(self).ranks() == old(self).ranks(),
            final(self).next_id() == old(self).next_id(),
            forall|o: u64| final(self).known(o) <==> old(self).known(o),
            forall|i: int|
                0 <= i < final(self).links().len() ==> !links_pair(
                    #[trigger] final(self).links()[i],
                    owner,
                    handle@,
                ),
            !dropped ==> final(self).links() == old(self).links(),
            dropped ==> exists|i: int|
                0 <= i < old(self).links().len() && links_pair(
                    #[trigger] old(self).links()[i],
                    owner,
                    handle@,
                ) && final(self).links() == old(self).links().remove(i),
    {
        match self.link_index(owner, handle) {
            None => false,
            Some(i) => {
                let ghost links_before = self.links@;
                let gone = self.links.remove(i);
                proof {
                    lemma_same_handle_equivalence();
                    assert(self.accounts@ == old(self).accounts@);
                    assert(self.records@ == old(self).records@);
                    assert forall|o: u64| self.known(o) <==> old(self).known(o) by {
                        if old(self).known(o) {
                            let c = choose|c: int|
                                0 <= c < old(self).accounts@.len() && (#[trigger] old(
                                    self,
                                ).accounts@[c]).owner == o;
                            assert(self.accounts@[c].owner == o);
                        }
                        if self.known(o) {
                            let c = choose|c: int|
                                0 <= c < self.accounts@.len() && (#[trigger] self.accounts@[c]).owner
                                    == o;
                            assert(old(self).accounts@[c].owner == o);
                        }
                    }
                    assert forall|k: int| 0 <= k < self.records@.len() implies self.known(
                        (#[trigger] self.records@[k]).owner,
                    ) by {
                        assert(old(self).known(self.records@[k].owner));
                    }
                    assert forall|a: int, b: int| 0 <= a < b < self.links@.len() implies !links_pair(
                        #[trigger] self.links@[a],
                        (#[trigger] self.links@[b]).owner,
                        self.links@[b].handle@,
                    ) by {
                        let a0 = if a < i { a } else { a + 1 };
                        let b0 = if b < i { b } else { b + 1 };
                        assert(self.links@[a] == links_before[a0]);
                        assert(self.links@[b] == links_before[b0]);
                    }
                    assert forall|k: int| 0 <= k < self.links@.len() implies !links_pair(
                        #[trigger] self.links@[k],
                        owner,
                        handle@,
                    ) by {
                        let k0 = if k < i { k } else { k + 1 };
                        assert(self.links@[k] == links_before[k0]);
                        if links_pair(links_before[k0], owner, handle@) {
                            assert(same_handle(
                                links_before[k0].handle@,
                                links_before[i as int].handle@,
                            ));
                            if k0 < i {
                                assert(links_pair(
                                    links_before[k0],
                                    links_before[i as int].owner,
                                    links_before[i as int].handle@,
                                ));
                            } else {
                                assert(links_pair(
                                    links_before[i as int],
                                    links_before[k0].owner,
                                    links_before[k0].handle@,
                                ));
                            }
                        }
                    }
                }
                true
            },
        }
    }

    /// The label of the rank that `owner` holds, `"Unranked"` below the
    /// first threshold, and the next rank above the balance, if any.
    pub fn get_rank_progress(&self, owner: u64) -> (r: (String, Option<(i64, String)>))
        requires
            self.wf(),
        ensures
            r.0@ == match current_rank(self.ranks(), points_sum(self.records(), owner)) {
                Some(c) => c.1,
                None => "Unranked"@,
            },
            next_view(r.1) == next_rank(self.ranks(), points_sum(self.records(), owner)),
    {
        let balance = self.get_balance(owner);
        let label = match self.ranks.current(balance.points) {
            Some(c) => c.1,
            None => String::from_str("Unranked"),
        };
        (label, self.ranks.next_above(balance.points))
    }
}

/// `a` comes before `b` in a listing: it was created later, or at the same
/// time under a higher id.
pub open spec fn newer(a: EventRecord, b: EventRecord) -> bool {
    a.created_at > b.created_at || (a.created_at == b.created_at && a.id > b.id)
}

/// `r` is an event of `kind` that `owner` owns.
pub open spec fn is_listed(r: EventRecord, owner: u64, kind: EventKind) -> bool {
    r.owner == owner && r.kind == kind
}

/// `out` lists the `limit` most recent events of `kind` that `owner` owns
/// in `rs`, or all of them where there are fewer, most recent first.
pub open spec fn is_recent_listing(
    out: Seq<EventRecord>,
    rs: Seq<EventRecord>,
    owner: u64,
    kind: EventKind,
    limit: int,
) -> bool {
    &&& out.len() <= limit
    &&& forall|k: int|
        0 <= k < out.len() ==> is_listed(#[trigger] out[k], owner, kind) && rs.contains(out[k])
    &&& forall|a: int, b: int| 0 <= a < b < out.len() ==> newer(#[trigger] out[a], #[trigger] out[b])
    &&& forall|i: int|
        0 <= i < rs.len() && is_listed(#[trigger] rs[i], owner, kind) ==> out.contains(rs[i]) || (
        out.len() == limit && forall|k: int| 0 <= k < out.len() ==> newer(#[trigger] out[k], rs[i]))
}

fn is_newer(a: &EventRecord, b: &EventRecord) -> (r: bool)
    ensures
        r == newer(*a, *b),
{
    a.created_at > b.created_at || (a.created_at == b.created_at && a.id > b.id)
}

fn copy_record(r: &EventRecord) -> (c: EventRecord)
    ensures
        c == *r,
{
    EventRecord {
        id: r.id,
        owner: r.owner,
        kind: r.kind,
        item: r.item.clone(),
        quantity: r.quantity,
        value: r.value,
        points: r.points,
        created_at: r.created_at,
    }
}

impl Ledger {
    /// The index of the most recent event of `kind` that `owner` owns among
    /// those that come after `after` in a listing; among all where `after`
    /// is `None`.
    fn most_recent_after(&self, owner: u64, kind: EventKind, after: Option<usize>) -> (r: Option<
        usize,
    >)
        requires
            self.wf(),
            after.is_some() ==> after.unwrap() < self.records().len(),
        ensures
            match r {
                Some(b) => {
                    &&& b < self.records().len()
                    &&& is_listed(self.records()[b as int], owner, kind)
                    &&& after.is_some() ==> newer(
                        self.records()[after.unwrap() as int],
                        self.records()[b as int],
                    )
                    &&& forall|j: int|
                        0 <= j < self.records().len() && is_listed(
                            #[trigger] self.records()[j],
                            owner,
                            kind,
                        ) && (after.is_some() ==> newer(
                            self.records()[after.unwrap() as int],
                            self.records()[j],
                        )) ==> j == b || newer(self.records()[b as int], self.records()[j])
                },
                None => forall|j: int|
                    0 <= j < self.records().len() && is_listed(
                        #[trigger] self.records()[j],
                        owner,
                        kind,
                    ) ==> after.is_some() && !newer(
                        self.records()[after.unwrap() as int],
                        self.records()[j],
                    ),
            },
    {
        let mut best: Option<usize> = None;
        let mut i: usize = 0;
        while i < self.records.len()
            invariant
                i <= self.records@.len(),
                ids_unique(self.records@),
                after.is_some() ==> after.unwrap() < self.records@.len(),
                match best {
                    Some(b) => {
                        &&& b < i
                        &&& is_listed(self.records@[b as int], owner, kind)
                        &&& after.is_some() ==> newer(
                            self.records@[after.unwrap() as int],
                            self.records@[b as int],
                        )
                        &&& forall|j: int|
                            0 <= j < i && is_listed(#[trigger] self.records@[j], owner, kind) && (
                            after.is_some() ==> newer(
                                self.records@[after.unwrap() as int],
                                self.records@[j],
                            )) ==> j == b || newer(self.records@[b as int], self.records@[j])
                    },
                    None => forall|j: int|
                        0 <= j < i && is_listed(#[trigger] self.records@[j], owner, kind)
                            ==> after.is_some() && !newer(
                            self.records@[after.unwrap() as int],
                            self.records@[j],
                        ),
                },
            decreases self.records@.len() - i,
        {
            let rec = &self.records[i];
            if rec.owner == owner && rec.kind == kind {
                let eligible = match after {
                    Some(a) => is_newer(&self.records[a], rec),
                    None => true,
                };
                if eligible {
                    match best {
                        Some(b) => {
                            assert(self.records@[b as int].id != self.records@[i as int].id);
                            if is_newer(rec, &self.records[b]) {
                                best = Some(i);
                            }
                        },
                        None => {
                            best = Some(i);
                        },
                    }
                }
            }
            i += 1;
        }
        best
    }

    /// The `limit` most recent events of `kind` that `owner` owns, most
    /// recent first.
    pub fn list_recent(&self, owner: u64, kind: EventKind, limit: usize) -> (out: Vec<EventRecord>)
        requires
            self.wf(),
        ensures
            is_recent_listing(out@, self.records(), owner, kind, limit as int),
    {
        let mut out: Vec<EventRecord> = Vec::new();
        let mut last: Option<usize> = None;
        let mut done = false;
        while out.len() < limit && !done
            invariant
                self.wf(),
                out@.len() <= limit,
                last.is_some() <==> out@.len() > 0,
                last.is_some() ==> last.unwrap() < self.records@.len() && out@.last()
                    == self.records@[last.unwrap() as int],
                forall|k: int|
                    0 <= k < out@.len() ==> is_listed(#[trigger] out@[k], owner, kind)
                        && self.records@.contains(out@[k]),
                forall|a: int, b: int|
                    0 <= a < b < out@.len() ==> newer(#[trigger] out@[a], #[trigger] out@[b]),
                forall|i: int|
                    0 <= i < self.records@.len() && is_listed(#[trigger] self.records@[i], owner, kind)
                        ==> out@.contains(self.records@[i]) || (!done && (last.is_some() ==> newer(
                        self.records@[last.unwrap() as int],
                        self.records@[i],
                    ))),
            decreases limit - out@.len() + if done { 0int } else { 1int },
        {
            match self.most_recent_after(owner, kind, last) {
                Some(b) => {
                    let ghost before = out@;
                    let rec = copy_record(&self.records[b]);
                    out.push(rec);
                    proof {
                        assert(self.records@[b as int] == rec);
                        assert(self.records@.contains(rec));
                        assert forall|x: int, y: int| 0 <= x < y < out@.len() implies newer(
                            #[trigger] out@[x],
                            #[trigger] out@[y],
                        ) by {
                            if y == before.len() {
                                if x < before.len() - 1 {
                                    assert(newer(before[x], before[before.len() - 1]));
                                }
                            } else {
                                assert(out@[x] == before[x]);
                                assert(out@[y] == before[y]);
                            }
                        }
                        assert forall|i: int|
                            0 <= i < self.records@.len() && is_listed(
                                #[trigger] self.records@[i],
                                owner,
                                kind,
                            ) implies out@.contains(self.records@[i]) || newer(
                            self.records@[b as int],
                            self.records@[i],
                        ) by {
                            if before.contains(self.records@[i]) {
                                let k = choose|k: int|
                                    0 <= k < before.len() && before[k] == self.records@[i];
                                assert(out@[k] == self.records@[i]);
                            } else if i == b {
                                assert(out@[before.len() as int] == self.records@[i]);
                            }
                        }
                    }
                    last = Some(b);
                },
                None => {
                    proof {
                        assert forall|i: int|
                            0 <= i < self.records@.len() && is_listed(
                                #[trigger] self.records@[i],
                                owner,
                                kind,
                            ) implies out@.contains(self.records@[i]) by {
                            assert(is_listed(self.records()[i], owner, kind));
                        }
                    }
                    done = true;
                },
            }
        }
        proof {
            if !done {
                assert forall|i: int|
                    0 <= i < self.records@.len() && is_listed(#[trigger] self.records@[i], owner, kind)
                        && !out@.contains(self.records@[i]) implies forall|k: int|
                    0 <= k < out@.len() ==> newer(#[trigger] out@[k], self.records@[i]) by {
                    assert forall|k: int| 0 <= k < out@.len() implies newer(
                        #[trigger] out@[k],
                        self.records@[i],
                    ) by {
                        if k < out@.len() - 1 {
                            assert(newer(out@[k], out@[out@.len() - 1]));
                        }
                    }
                }
            }
        }
        out
    }
}

impl Ledger {
    /// Applies a feed event to every identity linked to its handle, in the
    /// order of the links: a drop is recorded with the value that the feed
    /// reports, a collection entry with `points`, the score of the item's
    /// rarity where it has one. Gives each identity with what became of it.
    pub fn apply_feed_event(&mut self, event: &FeedEvent, points: Option<i64>, now: i64) -> (out: Vec<
        (u64, Result<EventSummary, CoreError>),
    >)
        requires
            old(self).wf(),
        ensures
            final(self).wf(),
            final(self).links() == old(self).links(),
            final(self).ranks() == old(self).ranks(),
            feed_applied(*old(self), *final(self), event@, points, now as int, out@),
    {
        let owners = match event {
            FeedEvent::Drop { handle, item, quantity, value } => self.resolve(handle.as_str()),
            FeedEvent::Collection { handle, item } => self.resolve(handle.as_str()),
        };
        let mut out: Vec<(u64, Result<EventSummary, CoreError>)> = Vec::new();
        let ghost mut states: Seq<Ledger> = seq![*self];
        let mut i: usize = 0;
        while i < owners.len()
            invariant
                i <= owners@.len(),
                self.wf(),
                self.links() == old(self).links(),
                self.ranks() == old(self).ranks(),
                owners@ == linked_owners(old(self).links(), event_handle(event@)),
                states.len() == i + 1,
                out@.len() == i,
                states[0] == *old(self),
                states.last() == *self,
                forall|k: int|
                    0 <= k < i ==> #[trigger] applied_at(
                        states,
                        owners@,
                        event@,
                        points,
                        now as int,
                        out@,
                        k,
                    ),
            decreases owners@.len() - i,
        {
            let owner = owners[i];
            let ghost before = *self;
            let ghost out_before = out@;
            let ghost states_before = states;
            let r = match event {
                FeedEvent::Drop { handle, item, quantity, value } => self.record_priced_drop(
                    owner,
                    item.as_str(),
                    *quantity,
                    *value,
                    now,
                ),
                FeedEvent::Collection { handle, item } => self.record_collection(
                    owner,
                    item.as_str(),
                    points,
                    now,
                ),
            };
            assert(event_step(before, *self, owner, event@, points, now as int, r));
            out.push((owner, r));
            proof {
                states = states.push(*self);
                assert forall|k: int| 0 <= k < i + 1 implies #[trigger] applied_at(
                    states,
                    owners@,
                    event@,
                    points,
                    now as int,
                    out@,
                    k,
                ) by {
                    if k < i {
                        assert(applied_at(
                            states_before,
                            owners@,
                            event@,
                            points,
                            now as int,
                            out_before,
                            k,
                        ));
                        assert(out@[k] == out_before[k]);
                        assert(states[k] == states_before[k]);
                        assert(states[k + 1] == states_before[k + 1]);
                    } else {
                        assert(states[k] == before);
                        assert(states[k + 1] == *self);
                    }
                }
            }
            i += 1;
        }
        proof {
            assert(applied_in_turn(
                states,
                linked_owners(old(self).links(), event_handle(event@)),
                event@,
                points,
                now as int,
                out@,
            ));
        }
        out
    }
}

impl Ledger {
    /// Reads a feed message and, where it holds an event, applies the event
    /// to every identity linked to its handle. `None` for a message that
    /// holds no event; such a message changes nothing.
    pub fn ingest_feed_message(
        &mut self,
        content: &str,
        embeds: &Vec<Embed>,
        log: &CollectionLogData,
        now: i64,
    ) -> (r: Option<Vec<(u64, Result<EventSummary, CoreError>)>>)
        requires
            old(self).wf(),
        ensures
            final(self).wf(),
            final(self).links() == old(self).links(),
            final(self).ranks() == old(self).ranks(),
            match message_event(content@, embeds@) {
                None => r.is_none() && *final(self) == *old(self),
                Some(event) => r.is_some() && feed_applied(
                    *old(self),
                    *final(self),
                    event,
                    item_points(log.items@, event_item(event)),
                    now as int,
                    r.unwrap()@,
                ),
            },
    {
        let tracker = RunescapeTracker::new();
        match tracker.process_message(content, embeds) {
            None => None,
            Some(event) => {
                let points = match &event {
                    FeedEvent::Drop { handle, item, quantity, value } => log.calculate_points(
                        item.as_str(),
                    ),
                    FeedEvent::Collection { handle, item } => log.calculate_points(item.as_str()),
                };
                proof {
                    assert(event_view(Some(event)) == message_event(content@, embeds@));
                    assert(points == item_points(log.items@, event_item(event@)));
                }
                let out = self.apply_feed_event(&event, points, now);
                Some(out)
            },
        }
    }
}

/// The handles linked to `owner`, in the order of the links.
pub open spec fn handles_of(ls: Seq<LinkRecord>, owner: u64) -> Seq<Seq<char>>
    decreases ls.len(),
{
    if ls.len() == 0 {
        Seq::empty()
    } else if ls.last().owner == owner {
        handles_of(ls.drop_last(), owner).push(ls.last().handle@)
    } else {
        handles_of(ls.drop_last(), owner)
    }
}

impl Ledger {
    /// The record `record_id` of `owner`, if there is one.
    pub fn find_record(&self, owner: u64, record_id: u64) -> (r: Option<EventRecord>)
        ensures
            match r {
                Some(rec) => is_owned(rec, owner, record_id) && self.records().contains(rec),
                None => forall|i: int|
                    0 <= i < self.records().len() ==> !is_owned(
                        #[trigger] self.records()[i],
                        owner,
                        record_id,
                    ),
            },
    {
        match self.record_index(owner, record_id) {
            Some(i) => {
                let rec = copy_record(&self.records[i]);
                assert(self.records()[i as int] == rec);
                Some(rec)
            },
            None => None,
        }
    }

    /// The handles linked to `owner`, in the order in which they were
    /// linked.
    pub fn linked_handles(&self, owner: u64) -> (r: Vec<String>)
        ensures
            strings_view(r@) == handles_of(self.links(), owner),
    {
        let mut out: Vec<String> = Vec::new();
        let mut i: usize = 0;
        assert(self.links@.subrange(0, 0) =~= Seq::<LinkRecord>::empty());
        assert(strings_view(out@) =~= handles_of(self.links@.subrange(0, 0), owner));
        while i < self.links.len()
            invariant
                i <= self.links@.len(),
                strings_view(out@) == handles_of(self.links@.subrange(0, i as int), owner),
            decreases self.links@.len() - i,
        {
            let ghost shown = strings_view(out@);
            assert(self.links@.subrange(0, i + 1).drop_last() =~= self.links@.subrange(0, i as int));
            if self.links[i].owner == owner {
                out.push(self.links[i].handle.clone());
                assert(strings_view(out@) =~= shown.push(self.links@[i as int].handle@));
            }
            i += 1;
        }
        assert(self.links@.subrange(0, i as int) =~= self.links@);
        out
    }
}

/// The record `rec`, kept from an earlier run, can be taken into `pre`: its
/// id is not below the next free id, it is no collection entry that its
/// owner already holds, and the balances stay in range.
pub open spec fn import_fits(pre: Ledger, rec: EventRecord) -> bool {
    &&& pre.next_id() <= rec.id < u64::MAX
    &&& fits_i64(points_sum(pre.records(), rec.owner) + rec.points)
    &&& fits_i64(quantity_sum(pre.records(), rec.owner) + quantity_of(rec, rec.owner))
    &&& forall|i: int|
        0 <= i < pre.records().len() ==> !(rec.kind == EventKind::Collection && is_collection_of(
            #[trigger] pre.records()[i],
            rec.owner,
            rec.item@,
        ))
}

impl Ledger {
    /// Takes a record kept from an earlier run into the ledger, under its
    /// own id and time, where `import_fits` allows it, and says whether it
    /// did. Records are to be imported by ascending id.
    pub fn import_record(&mut self, rec: EventRecord) -> (imported: bool)
        requires
            old(self).wf(),
        ensures
            final(self).wf(),
            imported == import_fits(*old(self), rec),
            imported ==> {
                &&& final(self).records() == old(self).records().push(rec)
                &&& final(self).links() == old(self).links()
                &&& final(self).ranks() == old(self).ranks()
                &&& final(self).next_id() == rec.id + 1
                &&& forall|o: u64| final(self).known(o) <==> old(self).known(o) || o == rec.owner
            },
            !imported ==> *final(self) == *old(self),
    {
        if rec.id < self.next_id || rec.id == u64::MAX {
            return false;
        }
        let counted = match rec.kind {
            EventKind::Drop => rec.quantity,
            EventKind::Collection => 0,
        };
        let balance = self.get_balance(rec.owner);
        let new_points = match balance.points.checked_add(rec.points) {
            Some(x) => x,
            None => {
                return false;
            },
        };
        let new_total = match balance.total_drop_quantity.checked_add(counted) {
            Some(x) => x,
            None => {
                return false;
            },
        };
        match rec.kind {
            EventKind::Collection => {
                if self.collection_index(rec.owner, rec.item.as_str()).is_some() {
                    return false;
                }
            },
            EventKind::Drop => {},
        }
        self.insert(rec, new_points, new_total);
        true
    }
}

impl Ledger {
    /// How far `owner` is on the way to the next rank, as `RankTable::span`
    /// gives it for the balance.
    pub fn rank_span(&self, owner: u64) -> (r: Option<(i64, i64)>)
        requires
            self.wf(),
        ensures
            r == match rank_span(self.ranks(), points_sum(self.records(), owner)) {
                Some(s) => if fits_i64(s.0) && fits_i64(s.1) {
                    Some((s.0 as i64, s.1 as i64))
                } else {
                    None
                },
                None => None,
            },
    {
        let balance = self.get_balance(owner);
        self.ranks.span(balance.points)
    }
}

/// How many events of `kind` `owner` owns in `rs`.
pub open spec fn event_count(rs: Seq<EventRecord>, owner: u64, kind: EventKind) -> nat
    decreases rs.len(),
{
    if rs.len() == 0 {
        0
    } else if is_listed(rs.last(), owner, kind) {
        event_count(rs.drop_last(), owner, kind) + 1
    } else {
        event_count(rs.drop_last(), owner, kind)
    }
}

/// What events of one kind are ranked by: a drop by its value, a
/// collection entry by its points.
pub open spec fn worth(rec: EventRecord) -> int {
    match rec.kind {
        EventKind::Drop => rec.value as int,
        EventKind::Collection => rec.points as int,
    }
}

/// The record at index `b` is the best event of `kind` that `owner` owns:
/// none is worth more, and of those worth as much it is the oldest.
pub open spec fn is_best(rs: Seq<EventRecord>, b: int, owner: u64, kind: EventKind) -> bool {
    &&& 0 <= b < rs.len()
    &&& is_listed(rs[b], owner, kind)
    &&& forall|j: int|
        0 <= j < rs.len() && is_listed(#[trigger] rs[j], owner, kind) ==> worth(rs[j]) < worth(
            rs[b],
        ) || (worth(rs[j]) == worth(rs[b]) && b <= j)
}

fn worth_of(rec: &EventRecord) -> (r: i64)
    ensures
        r == worth(*rec),
{
    match rec.kind {
        EventKind::Drop => rec.value,
        EventKind::Collection => rec.points,
    }
}

impl Ledger {
    /// How many events of `kind` `owner` owns.
    pub fn count_events(&self, owner: u64, kind: EventKind) -> (n: usize)
        ensures
            n == event_count(self.records(), owner, kind),
    {
        let mut n: usize = 0;
        let mut i: usize = 0;
        assert(self.records@.subrange(0, 0) =~= Seq::<EventRecord>::empty());
        while i < self.records.len()
            invariant
                i <= self.records@.len(),
                n <= i,
                n == event_count(self.records@.subrange(0, i as int), owner, kind),
            decreases self.records@.len() - i,
        {
            assert(self.records@.subrange(0, i + 1).drop_last() =~= self.records@.subrange(
                0,
                i as int,
            ));
            if self.records[i].owner == owner && self.records[i].kind == kind {
                n += 1;
            }
            i += 1;
        }
        assert(self.records@.subrange(0, i as int) =~= self.records@);
        n
    }

    /// The best event of `kind` that `owner` owns: the most valuable drop,
    /// or the collection entry with the most points.
    pub fn best_event(&self, owner: u64, kind: EventKind) -> (r: Option<EventRecord>)
        ensures
            match r {
                Some(rec) => exists|b: int|
                    #[trigger] is_best(self.records(), b, owner, kind) && self.records()[b] == rec,
                None => forall|j: int|
                    0 <= j < self.records().len() ==> !is_listed(
                        #[trigger] self.records()[j],
                        owner,
                        kind,
                    ),
            },
    {
        let mut best: Option<usize> = None;
        let mut i: usize = 0;
        while i < self.records.len()
            invariant
                i <= self.records@.len(),
                match best {
                    Some(b) => {
                        &&& b < i
                        &&& is_listed(self.records@[b as int], owner, kind)
                        &&& forall|j: int|
                            0 <= j < i && is_listed(#[trigger] self.records@[j], owner, kind)
                                ==> worth(self.records@[j]) < worth(self.records@[b as int]) || (
                            worth(self.records@[j]) == worth(self.records@[b as int]) && b <= j)
                    },
                    None => forall|j: int|
                        0 <= j < i ==> !is_listed(#[trigger] self.records@[j], owner, kind),
                },
            decreases self.records@.len() - i,
        {
            let rec = &self.records[i];
            if rec.owner == owner && rec.kind == kind {
                match best {
                    Some(b) => {
                        if worth_of(rec) > worth_of(&self.records[b]) {
                            best = Some(i);
                        }
                    },
                    None => {
                        best = Some(i);
                    },
                }
            }
            i += 1;
        }
        match best {
            Some(b) => {
                let rec = copy_record(&self.records[b]);
                assert(is_best(self.records(), b as int, owner, kind));
                Some(rec)
            },
            None => None,
        }
    }
}

/// The standing of one identity: its balance and the number of its
/// collection entries.
#[derive(Clone, Copy, Debug, PartialEq, Eq)]
pub struct Standing {
    pub owner: u64,
    pub points: i64,
    pub total_drops: i64,
    pub collection_entries: usize,
}

/// An identity with `a_points` stands above one with `b_points`: it has
/// more points, or as many and the lower id.
pub open spec fn outranks(a_points: int, a_owner: u64, b_points: int, b_owner: u64) -> bool {
    a_points > b_points || (a_points == b_points && a_owner < b_owner)
}

/// `st` is the standing of a known identity of `l`.
pub open spec fn is_standing(st: Standing, l: Ledger) -> bool {
    &&& l.known(st.owner)
    &&& st.points == points_sum(l.records(), st.owner)
    &&& st.total_drops == quantity_sum(l.records(), st.owner)
    &&& st.collection_entries == event_count(l.records(), st.owner, EventKind::Collection)
}

/// `out` holds the `limit` highest standings of `l`, or all of them where
/// there are fewer, highest first.
pub open spec fn is_leaderboard(out: Seq<Standing>, l: Ledger, limit: int) -> bool {
    &&& out.len() <= limit
    &&& forall|k: int| 0 <= k < out.len() ==> is_standing(#[trigger] out[k], l)
    &&& forall|a: int, b: int|
        0 <= a < b < out.len() ==> outranks(
            (#[trigger] out[a]).points as int,
            out[a].owner,
            (#[trigger] out[b]).points as int,
            out[b].owner,
        )
    &&& forall|o: u64| #[trigger]
        l.known(o) ==> (exists|k: int| 0 <= k < out.len() && (#[trigger] out[k]).owner == o) || (
        out.len() == limit && forall|k: int|
            0 <= k < out.len() ==> outranks(
                (#[trigger] out[k]).points as int,
                out[k].owner,
                points_sum(l.records(), o),
                o,
            ))
}

spec fn account_below(a: Account, b: Account) -> bool {
    outranks(a.points as int, a.owner, b.points as int, b.owner)
}

spec fn standing_of(st: Standing, a: Account) -> bool {
    st.owner == a.owner && st.points == a.points && st.total_drops == a.total_drops
}

fn account_outranks(a: &Account, b: &Account) -> (r: bool)
    ensures
        r == outranks(a.points as int, a.owner, b.points as int, b.owner),
{
    a.points > b.points || (a.points == b.points && a.owner < b.owner)
}

spec fn eligible(accounts: Seq<Account>, after: Option<usize>, j: int) -> bool {
    after.is_some() ==> account_below(accounts[after.unwrap() as int], accounts[j])
}

spec fn listed_owner(out: Seq<Standing>, o: u64) -> bool {
    exists|k: int| 0 <= k < out.len() && (#[trigger] out[k]).owner == o
}

impl Ledger {
    /// The index of the highest account among those that stand below the
    /// account at `after`; among all where `after` is `None`.
    fn next_standing(&self, after: Option<usize>) -> (r: Option<usize>)
        requires
            self.wf(),
            after.is_some() ==> after.unwrap() < self.accounts@.len(),
        ensures
            match r {
                Some(b) => {
                    &&& b < self.accounts@.len()
                    &&& eligible(self.accounts@, after, b as int)
                    &&& forall|j: int|
                        0 <= j < self.accounts@.len() && #[trigger] eligible(
                            self.accounts@,
                            after,
                            j,
                        ) ==> j == b || account_below(self.accounts@[b as int], self.accounts@[j])
                },
                None => forall|j: int|
                    0 <= j < self.accounts@.len() ==> !#[trigger] eligible(
                        self.accounts@,
                        after,
                        j,
                    ),
            },
    {
        let mut best: Option<usize> = None;
        let mut i: usize = 0;
        while i < self.accounts.len()
            invariant
                i <= self.accounts@.len(),
                self.wf(),
                after.is_some() ==> after.unwrap() < self.accounts@.len(),
                match best {
                    Some(b) => {
                        &&& b < i
                        &&& eligible(self.accounts@, after, b as int)
                        &&& forall|j: int|
                            0 <= j < i && #[trigger] eligible(self.accounts@, after, j) ==> j == b
                                || account_below(self.accounts@[b as int], self.accounts@[j])
                    },
                    None => forall|j: int|
                        0 <= j < i ==> !#[trigger] eligible(self.accounts@, after, j),
                },
            decreases self.accounts@.len() - i,
        {
            let fits = match after {
                Some(a) => account_outranks(&self.accounts[a], &self.accounts[i]),
                None => true,
            };
            assert(fits == eligible(self.accounts@, after, i as int));
            if fits {
                match best {
                    Some(b) => {
                        assert(self.accounts@[b as int].owner != self.accounts@[i as int].owner);
                        if account_outranks(&self.accounts[i], &self.accounts[b]) {
                            best = Some(i);
                        }
                    },
                    None => {
                        best = Some(i);
                    },
                }
            }
            i += 1;
        }
        best
    }

    /// The `limit` identities with the most points, highest first, each
    /// with its balance and the number of its collection entries.
    pub fn top_standings(&self, limit: usize) -> (out: Vec<Standing>)
        requires
            self.wf(),
        ensures
            is_leaderboard(out@, *self, limit as int),
    {
        let mut out: Vec<Standing> = Vec::new();
        let mut last: Option<usize> = None;
        let mut done = false;
        while out.len() < limit && !done
            invariant
                self.wf(),
                out@.len() <= limit,
                last.is_some() <==> out@.len() > 0,
                last.is_some() ==> last.unwrap() < self.accounts@.len() && standing_of(
                    out@.last(),
                    self.accounts@[last.unwrap() as int],
                ),
                forall|k: int| 0 <= k < out@.len() ==> is_standing(#[trigger] out@[k], *self),
                forall|a: int, b: int|
                    0 <= a < b < out@.len() ==> outranks(
                        (#[trigger] out@[a]).points as int,
                        out@[a].owner,
                        (#[trigger] out@[b]).points as int,
                        out@[b].owner,
                    ),
                forall|j: int|
                    0 <= j < self.accounts@.len() ==> listed_owner(
                        out@,
                        (#[trigger] self.accounts@[j]).owner,
                    ) || (!done && eligible(self.accounts@, last, j)),
            decreases limit - out@.len() + if done { 0int } else { 1int },
        {
            match self.next_standing(last) {
                Some(b) => {
                    let ghost before = out@;
                    let account = self.accounts[b];
                    let entries = self.count_events(account.owner, EventKind::Collection);
                    let standing = Standing {
                        owner: account.owner,
                        points: account.points,
                        total_drops: account.total_drops,
                        collection_entries: entries,
                    };
                    out.push(standing);
                    proof {
                        assert(self.accounts@[b as int].owner == account.owner);
                        assert(self.known(account.owner));
                        assert(eligible(self.accounts@, last, b as int));
                        assert forall|x: int, y: int| 0 <= x < y < out@.len() implies outranks(
                            (#[trigger] out@[x]).points as int,
                            out@[x].owner,
                            (#[trigger] out@[y]).points as int,
                            out@[y].owner,
                        ) by {
                            if y == before.len() {
                                if x < before.len() - 1 {
                                    assert(outranks(
                                        before[x].points as int,
                                        before[x].owner,
                                        before[before.len() - 1].points as int,
                                        before[before.len() - 1].owner,
                                    ));
                                }
                                assert(out@[x] == before[x]);
                            } else {
                                assert(out@[x] == before[x]);
                                assert(out@[y] == before[y]);
                            }
                        }
                        assert forall|j: int| 0 <= j < self.accounts@.len() implies listed_owner(
                            out@,
                            (#[trigger] self.accounts@[j]).owner,
                        ) || eligible(self.accounts@, Some(b), j) by {
                            if listed_owner(before, self.accounts@[j].owner) {
                                let k = choose|k: int|
                                    0 <= k < before.len() && (#[trigger] before[k]).owner
                                        == self.accounts@[j].owner;
                                assert(out@[k].owner == self.accounts@[j].owner);
                            } else if j == b {
                                assert(out@[before.len() as int].owner == self.accounts@[j].owner);
                            } else {
                                assert(eligible(self.accounts@, last, j));
                            }
                        }
                        assert forall|k: int| 0 <= k < out@.len() implies is_standing(
                            #[trigger] out@[k],
                            *self,
                        ) by {
                            if k < before.len() {
                                assert(out@[k] == before[k]);
                            }
                        }
                    }
                    last = Some(b);
                },
                None => {
                    proof {
                        assert forall|j: int| 0 <= j < self.accounts@.len() implies listed_owner(
                            out@,
                            (#[trigger] self.accounts@[j]).owner,
                        ) by {
                            assert(!eligible(self.accounts@, last, j));
                        }
                    }
                    done = true;
                },
            }
        }
        proof {
            assert forall|o: u64| #[trigger] self.known(o) implies (exists|k: int|
                0 <= k < out@.len() && (#[trigger] out@[k]).owner == o) || (out@.len() == limit
                && forall|k: int|
                0 <= k < out@.len() ==> outranks(
                    (#[trigger] out@[k]).points as int,
                    out@[k].owner,
                    points_sum(self.records(), o),
                    o,
                )) by {
                let j = choose|j: int|
                    0 <= j < self.accounts@.len() && (#[trigger] self.accounts@[j]).owner == o;
                assert(self.accounts@[j].points == points_sum(self.records@, o));
                if !listed_owner(out@, o) {
                    assert(!done && eligible(self.accounts@, last, j));
                    assert(out@.len() == limit);
                    if limit > 0 {
                        assert(last.is_some());
                        assert forall|k: int| 0 <= k < out@.len() implies outranks(
                            (#[trigger] out@[k]).points as int,
                            out@[k].owner,
                            points_sum(self.records(), o),
                            o,
                        ) by {
                            if k < out@.len() - 1 {
                                assert(outranks(
                                    out@[k].points as int,
                                    out@[k].owner,
                                    out@[out@.len() - 1].points as int,
                                    out@[out@.len() - 1].owner,
                                ));
                            }
                        }
                    }
                }
            }
        }
        out
    }
}

impl Ledger {
    /// In a valid ledger the sums of every identity fit a balance, and the
    /// next id fits an id.
    pub proof fn lemma_sums_in_range(&self, owner: u64)
        requires
            self.wf(),
        ensures
            fits_i64(points_sum(self.records(), owner)),
            fits_i64(quantity_sum(self.records(), owner)),
            0 <= self.next_id() <= u64::MAX,
    {
        self.lemma_balance_is_sum(owner);
    }
}

/// Appending a record moves the sums of its owner by what the record holds
/// and leaves every other identity, and every record before it, as it was.
pub proof fn lemma_recorded_effect(pre: Ledger, post: Ledger, rec: EventRecord, o: u64)
    requires
        recorded(pre, post, rec),
    ensures
        post.records().len() == pre.records().len() + 1,
        post.records().last() == rec,
        forall|i: int| 0 <= i < pre.records().len() ==> post.records()[i] == pre.records()[i],
        points_sum(post.records(), o) == points_sum(pre.records(), o) + points_of(rec, o),
        quantity_sum(post.records(), o) == quantity_sum(pre.records(), o) + quantity_of(rec, o),
        o != rec.owner ==> points_sum(post.records(), o) == points_sum(pre.records(), o)
            && quantity_sum(post.records(), o) == quantity_sum(pre.records(), o),
{
    lemma_sums_push(pre.records(), rec, o);
}

/// Deleting a record moves the sums of its owner by what the record held
/// and leaves every other identity, and every other record, as it was.
pub proof fn lemma_removed_effect(pre: Ledger, post: Ledger, i: int, o: u64)
    requires
        removed(pre, post, i),
    ensures
        post.records().len() == pre.records().len() - 1,
        forall|j: int| 0 <= j < i ==> post.records()[j] == pre.records()[j],
        forall|j: int| i <= j < post.records().len() ==> post.records()[j] == pre.records()[j + 1],
        points_sum(post.records(), o) == points_sum(pre.records(), o) - points_of(
            pre.records()[i],
            o,
        ),
        quantity_sum(post.records(), o) == quantity_sum(pre.records(), o) - quantity_of(
            pre.records()[i],
            o,
        ),
        o != pre.records()[i].owner ==> points_sum(post.records(), o) == points_sum(
            pre.records(),
            o,
        ) && quantity_sum(post.records(), o) == quantity_sum(pre.records(), o),
{
    lemma_sums_remove(pre.records(), i, o);
}

/// A drop whose item has a price is recorded whenever its total value, the
/// balance that it leads to and the next id stay in range: exactly one
/// record is added, with the points of its total value; the owner's points
/// grow by those points and the owner's drop count by the quantity; every
/// other identity keeps its balance.
pub proof fn lemma_drop_is_recorded(
    pre: Ledger,
    post: Ledger,
    owner: u64,
    item: Seq<char>,
    quantity: int,
    price: i64,
    now: int,
    r: Result<EventSummary, CoreError>,
    o: u64,
)
    requires
        priced_step(pre, post, owner, item, quantity, Some(price), now, r),
        fits_i64(price * quantity),
        commit_fits(pre, owner, EventKind::Drop, quantity, points_of_value(price * quantity)),
    ensures
        r.is_ok(),
        post.records() == pre.records().push(post.records().last()),
        is_drop_record(post.records().last(), owner, item, quantity, price * quantity, now),
        points_sum(post.records(), owner) == points_sum(pre.records(), owner) + points_of_value(
            price * quantity,
        ),
        quantity_sum(post.records(), owner) == quantity_sum(pre.records(), owner) + quantity,
        o != owner ==> points_sum(post.records(), o) == points_sum(pre.records(), o)
            && quantity_sum(post.records(), o) == quantity_sum(pre.records(), o),
{
    lemma_recorded_effect(pre, post, post.records().last(), o);
    lemma_recorded_effect(pre, post, post.records().last(), owner);
}

/// `owner` holds a collection entry for `item` in `rs`.
pub open spec fn holds_entry(rs: Seq<EventRecord>, owner: u64, item: Seq<char>) -> bool {
    exists|i: int| 0 <= i < rs.len() && is_collection_of(#[trigger] rs[i], owner, item)
}

/// A collection entry that its owner does not hold yet, for an item with a
/// score, is recorded whenever the balance that it leads to and the next id
/// stay in range: exactly one record is added, with that score; the owner's
/// points grow by it, the owner's drop count stays; every other identity
/// keeps its balance.
pub proof fn lemma_collection_is_recorded(
    pre: Ledger,
    post: Ledger,
    owner: u64,
    item: Seq<char>,
    points: i64,
    now: int,
    r: Result<EventSummary, CoreError>,
    o: u64,
)
    requires
        collection_step(pre, post, owner, item, Some(points), now, r),
        !holds_entry(pre.records(), owner, item),
        commit_fits(pre, owner, EventKind::Collection, 0, points as int),
    ensures
        r.is_ok(),
        post.records() == pre.records().push(post.records().last()),
        is_collection_record(post.records().last(), owner, item, points as int, now),
        points_sum(post.records(), owner) == points_sum(pre.records(), owner) + points,
        quantity_sum(post.records(), owner) == quantity_sum(pre.records(), owner),
        o != owner ==> points_sum(post.records(), o) == points_sum(pre.records(), o)
            && quantity_sum(post.records(), o) == quantity_sum(pre.records(), o),
{
    lemma_recorded_effect(pre, post, post.records().last(), o);
    lemma_recorded_effect(pre, post, post.records().last(), owner);
}

/// The removal of a record that `owner` owns succeeds whenever the balance
/// that it leads to stays in range: that record alone is deleted; the
/// owner's points fall by exactly the record's points, whatever their sign,
/// and the owner's drop count by its quantity if it is a drop; every other
/// identity keeps its balance.
pub proof fn lemma_removal_is_applied(
    pre: Ledger,
    post: Ledger,
    owner: u64,
    record_id: u64,
    i: int,
    r: Result<EventSummary, CoreError>,
    o: u64,
)
    requires
        pre.wf(),
        removal_step(pre, post, owner, record_id, r),
        0 <= i < pre.records().len(),
        is_owned(pre.records()[i], owner, record_id),
        removal_fits(pre, pre.records()[i]),
    ensures
        r.is_ok(),
        post.records() == pre.records().remove(i),
        points_sum(post.records(), owner) == points_sum(pre.records(), owner)
            - pre.records()[i].points,
        quantity_sum(post.records(), owner) == quantity_sum(pre.records(), owner)
            - counted_quantity(pre.records()[i].kind, pre.records()[i].quantity as int),
        o != owner ==> points_sum(post.records(), o) == points_sum(pre.records(), o)
            && quantity_sum(post.records(), o) == quantity_sum(pre.records(), o),
{
    pre.lemma_valid();
    let c = choose|c: int|
        0 <= c < pre.records().len() && is_owned(#[trigger] pre.records()[c], owner, record_id);
    assert(c == i);
    let j = choose|j: int|
        {
            &&& removed(pre, post, j)
            &&& is_owned(#[trigger] pre.records()[j], owner, record_id)
        };
    assert(j == i);
    lemma_removed_effect(pre, post, i, o);
    lemma_removed_effect(pre, post, i, owner);
}

/// `o` is one of `owners[from..to]`.
pub open spec fn among(owners: Seq<u64>, from: int, to: int, o: u64) -> bool {
    exists|q: int| from <= q < to && #[trigger] owners[q] == o
}

/// `b` is `a` with records appended, each owned by one of
/// `owners[from..to]`.
pub open spec fn grown_for(
    a: Seq<EventRecord>,
    b: Seq<EventRecord>,
    owners: Seq<u64>,
    from: int,
    to: int,
) -> bool {
    &&& a.len() <= b.len()
    &&& forall|i: int| 0 <= i < a.len() ==> #[trigger] b[i] == a[i]
    &&& forall|i: int| a.len() <= i < b.len() ==> among(owners, from, to, (#[trigger] b[i]).owner)
}

/// `ls` links `owner` to `handle`, letter case aside.
pub open spec fn is_linked(ls: Seq<LinkRecord>, owner: u64, handle: Seq<char>) -> bool {
    exists|i: int| 0 <= i < ls.len() && links_pair(#[trigger] ls[i], owner, handle)
}

/// No identity occurs twice among those linked to one handle, and each of
/// them has a link with that handle.
pub proof fn lemma_linked_owners_distinct(ls: Seq<LinkRecord>, handle: Seq<char>)
    requires
        links_unique(ls),
    ensures
        forall|a: int, b: int|
            0 <= a < b < linked_owners(ls, handle).len() ==> linked_owners(ls, handle)[a]
                != linked_owners(ls, handle)[b],
        forall|a: int|
            0 <= a < linked_owners(ls, handle).len() ==> is_linked(
                ls,
                #[trigger] linked_owners(ls, handle)[a],
                handle,
            ),
    decreases ls.len(),
{
    if ls.len() > 0 {
        let front = ls.drop_last();
        let last = ls.len() - 1;
        assert forall|i: int, j: int| 0 <= i < j < front.len() implies !links_pair(
            #[trigger] front[i],
            (#[trigger] front[j]).owner,
            front[j].handle@,
        ) by {
            assert(front[i] == ls[i]);
            assert(front[j] == ls[j]);
        }
        lemma_linked_owners_distinct(front, handle);
        lemma_same_handle_equivalence();
        let lf = linked_owners(front, handle);
        let lo = linked_owners(ls, handle);
        assert forall|a: int| 0 <= a < lo.len() implies is_linked(ls, #[trigger] lo[a], handle) by {
            if a < lf.len() {
                assert(is_linked(front, lf[a], handle));
                let i = choose|i: int|
                    0 <= i < front.len() && links_pair(#[trigger] front[i], lf[a], handle);
                assert(front[i] == ls[i]);
                assert(links_pair(ls[i], lo[a], handle));
            } else {
                assert(links_pair(ls[last], lo[a], handle));
            }
        }
        assert forall|a: int, b: int| 0 <= a < b < lo.len() implies lo[a] != lo[b] by {
            if b == lf.len() {
                assert(is_linked(front, lf[a], handle));
                let i = choose|i: int|
                    0 <= i < front.len() && links_pair(#[trigger] front[i], lf[a], handle);
                assert(front[i] == ls[i]);
                if lo[a] == lo[b] {
                    assert(same_handle(ls[i].handle@, ls[last].handle@));
                    assert(links_pair(ls[i], ls[last].owner, ls[last].handle@));
                }
            }
        }
    }
}

/// Records appended for other identities leave the sums of `o`, and the
/// collection entries that `o` holds, as they were.
pub proof fn lemma_sums_grown(
    a: Seq<EventRecord>,
    b: Seq<EventRecord>,
    owners: Seq<u64>,
    from: int,
    to: int,
    o: u64,
    item: Seq<char>,
)
    requires
        grown_for(a, b, owners, from, to),
        !among(owners, from, to, o),
    ensures
        points_sum(b, o) == points_sum(a, o),
        quantity_sum(b, o) == quantity_sum(a, o),
        holds_entry(b, o, item) <==> holds_entry(a, o, item),
    decreases b.len() - a.len(),
{
    if b.len() == a.len() {
        assert(a =~= b);
    } else {
        let front = b.drop_last();
        assert forall|i: int| 0 <= i < a.len() implies #[trigger] front[i] == a[i] by {
            assert(b[i] == a[i]);
        }
        assert forall|i: int| a.len() <= i < front.len() implies among(
            owners,
            from,
            to,
            (#[trigger] front[i]).owner,
        ) by {
            assert(front[i] == b[i]);
        }
        lemma_sums_grown(a, front, owners, from, to, o, item);
        let last = b[b.len() - 1];
        assert(among(owners, from, to, last.owner));
        assert(last.owner != o);
        if holds_entry(b, o, item) {
            let i = choose|i: int| 0 <= i < b.len() && is_collection_of(#[trigger] b[i], o, item);
            assert(i < front.len());
            assert(is_collection_of(front[i], o, item));
        }
        if holds_entry(front, o, item) {
            let i = choose|i: int|
                0 <= i < front.len() && is_collection_of(#[trigger] front[i], o, item);
            assert(is_collection_of(b[i], o, item));
        }
    }
}

/// Between two states of a feed event applied in turn, the ledger only
/// gains records, each for one of the identities treated in between, and
/// at most one id for each of them; the links stay.
pub proof fn lemma_applied_grows(
    states: Seq<Ledger>,
    owners: Seq<u64>,
    event: Candidate,
    points: Option<i64>,
    now: int,
    out: Seq<(u64, Result<EventSummary, CoreError>)>,
    j: int,
    m: int,
)
    requires
        applied_in_turn(states, owners, event, points, now, out),
        0 <= j <= m <= owners.len(),
    ensures
        grown_for(states[j].records(), states[m].records(), owners, j, m),
        states[m].links() == states[j].links(),
        states[j].next_id() <= states[m].next_id() <= states[j].next_id() + (m - j),
    decreases m - j,
{
    if j < m {
        lemma_applied_grows(states, owners, event, points, now, out, j, m - 1);
        assert(applied_at(states, owners, event, points, now, out, m - 1));
        let a = states[j].records();
        let mid = states[m - 1].records();
        let b = states[m].records();
        assert(owners[m - 1] == owners[m - 1]);
        assert(b.len() >= mid.len());
        assert forall|i: int| 0 <= i < mid.len() implies b[i] == mid[i] by {}
        assert forall|i: int| a.len() <= i < b.len() implies among(
            owners,
            j,
            m,
            (#[trigger] b[i]).owner,
        ) by {
            if i < mid.len() {
                assert(b[i] == mid[i]);
                let q = choose|q: int| j <= q < m - 1 && #[trigger] owners[q] == mid[i].owner;
                assert(owners[q] == b[i].owner);
            } else {
                assert(b[i].owner == owners[m - 1]);
            }
        }
        assert forall|i: int| 0 <= i < a.len() implies #[trigger] b[i] == a[i] by {
            assert(mid[i] == a[i]);
            assert(b[i] == mid[i]);
        }
    } else {
        assert(states[j].records() =~= states[m].records());
    }
}

/// What a collection entry from the feed does for the identity at place
/// `k` among those linked to the handle, whatever was done for the others:
/// an identity that holds the entry is refused as a duplicate and keeps its
/// balance; one that does not hold it gets the entry once, and its points
/// grow by the score, whenever the item has a score and balance and ids
/// stay in range; in every other case its balance and its entries stay as
/// they were. The drop count stays in every case.
pub proof fn lemma_feed_collection_each(
    pre: Ledger,
    post: Ledger,
    handle: Seq<char>,
    item: Seq<char>,
    points: Option<i64>,
    now: int,
    out: Seq<(u64, Result<EventSummary, CoreError>)>,
    k: int,
)
    requires
        pre.wf(),
        feed_applied(pre, post, Candidate::Collection { handle, item }, points, now, out),
        0 <= k < out.len(),
    ensures
        out.len() == linked_owners(pre.links(), handle).len(),
        ({
            let o = linked_owners(pre.links(), handle)[k];
            let before = points_sum(pre.records(), o);
            let after = points_sum(post.records(), o);
            &&& out[k].0 == o
            &&& quantity_sum(post.records(), o) == quantity_sum(pre.records(), o)
            &&& holds_entry(pre.records(), o, item) ==> out[k].1.is_err() && after == before
            &&& out[k].1.is_ok() ==> !holds_entry(pre.records(), o, item) && points.is_some() && after
                == before + points.unwrap() && holds_entry(post.records(), o, item)
            &&& out[k].1.is_err() ==> after == before && (holds_entry(post.records(), o, item)
                <==> holds_entry(pre.records(), o, item))
            &&& !holds_entry(pre.records(), o, item) && points.is_some() && fits_i64(
                before + points.unwrap(),
            ) && pre.next_id() + out.len() <= u64::MAX ==> out[k].1.is_ok()
        }),
{
    let event = Candidate::Collection { handle, item };
    let owners = linked_owners(pre.links(), handle);
    let states = choose|states: Seq<Ledger>|
        {
            &&& #[trigger] applied_in_turn(states, owners, event, points, now, out)
            &&& states[0] == pre
            &&& states.last() == post
        };
    lemma_feed_step(pre, post, states, handle, item, points, now, out, k);
}

/// The facts of `lemma_feed_collection_each`, with the states between the
/// steps at hand.
proof fn lemma_feed_step(
    pre: Ledger,
    post: Ledger,
    states: Seq<Ledger>,
    handle: Seq<char>,
    item: Seq<char>,
    points: Option<i64>,
    now: int,
    out: Seq<(u64, Result<EventSummary, CoreError>)>,
    k: int,
)
    requires
        pre.wf(),
        applied_in_turn(
            states,
            linked_owners(pre.links(), handle),
            Candidate::Collection { handle, item },
            points,
            now,
            out,
        ),
        states[0] == pre,
        states.last() == post,
        0 <= k < out.len(),
    ensures
        post.links() == pre.links(),
        post.next_id() >= states[k].next_id(),
        ({
            let o = linked_owners(pre.links(), handle)[k];
            let before = points_sum(pre.records(), o);
            let after = points_sum(post.records(), o);
            &&& out[k].0 == o
            &&& collection_step(states[k], states[k + 1], o, item, points, now, out[k].1)
            &&& points_sum(states[k].records(), o) == before
            &&& quantity_sum(states[k].records(), o) == quantity_sum(pre.records(), o)
            &&& holds_entry(states[k].records(), o, item) <==> holds_entry(pre.records(), o, item)
            &&& points_sum(states[k + 1].records(), o) == after
            &&& quantity_sum(post.records(), o) == quantity_sum(pre.records(), o)
            &&& holds_entry(states[k + 1].records(), o, item) <==> holds_entry(
                post.records(),
                o,
                item,
            )
            &&& holds_entry(pre.records(), o, item) ==> out[k].1.is_err() && after == before
            &&& out[k].1.is_ok() ==> !holds_entry(pre.records(), o, item) && points.is_some() && after
                == before + points.unwrap() && holds_entry(post.records(), o, item)
            &&& out[k].1.is_err() ==> after == before && (holds_entry(post.records(), o, item)
                <==> holds_entry(pre.records(), o, item))
            &&& !holds_entry(pre.records(), o, item) && points.is_some() && fits_i64(
                before + points.unwrap(),
            ) && pre.next_id() + out.len() <= u64::MAX ==> out[k].1.is_ok()
        }),
{
    let event = Candidate::Collection { handle, item };
    let owners = linked_owners(pre.links(), handle);
    let n = owners.len() as int;
    let o = owners[k];
    pre.lemma_valid();
    lemma_linked_owners_distinct(pre.links(), handle);
    lemma_applied_grows(states, owners, event, points, now, out, 0, k);
    lemma_applied_grows(states, owners, event, points, now, out, k + 1, n);
    lemma_applied_grows(states, owners, event, points, now, out, 0, n);
    lemma_applied_grows(states, owners, event, points, now, out, k, n);
    assert(applied_at(states, owners, event, points, now, out, k));
    assert(!among(owners, 0, k, o)) by {
        if among(owners, 0, k, o) {
            let q = choose|q: int| 0 <= q < k && #[trigger] owners[q] == o;
            assert(owners[q] != owners[k]);
        }
    }
    assert(!among(owners, k + 1, n, o)) by {
        if among(owners, k + 1, n, o) {
            let q = choose|q: int| k + 1 <= q < n && #[trigger] owners[q] == o;
            assert(owners[k] != owners[q]);
        }
    }
    lemma_sums_grown(pre.records(), states[k].records(), owners, 0, k, o, item);
    lemma_sums_grown(states[k + 1].records(), post.records(), owners, k + 1, n, o, item);
    states[k].lemma_sums_in_range(o);
    let r = out[k].1;
    if r.is_ok() {
        let rec = states[k + 1].records().last();
        lemma_recorded_effect(states[k], states[k + 1], rec, o);
        assert(is_collection_of(rec, o, item));
        assert(holds_entry(states[k + 1].records(), o, item));
    } else {
        assert(states[k + 1] == states[k]);
    }
}

/// A collection entry from the feed that is applied a second time changes
/// nothing: every identity linked to the handle is refused, and the ledger
/// stays as the first time left it.
pub proof fn lemma_feed_collection_twice(
    pre: Ledger,
    post: Ledger,
    again: Ledger,
    handle: Seq<char>,
    item: Seq<char>,
    points: Option<i64>,
    now: int,
    later: int,
    out: Seq<(u64, Result<EventSummary, CoreError>)>,
    out2: Seq<(u64, Result<EventSummary, CoreError>)>,
)
    requires
        pre.wf(),
        feed_applied(pre, post, Candidate::Collection { handle, item }, points, now, out),
        feed_applied(post, again, Candidate::Collection { handle, item }, points, later, out2),
    ensures
        again == post,
        out2.len() == out.len(),
        forall|k: int| 0 <= k < out2.len() ==> (#[trigger] out2[k]).1.is_err(),
{
    let event = Candidate::Collection { handle, item };
    let owners = linked_owners(pre.links(), handle);
    let n = owners.len() as int;
    let states = choose|states: Seq<Ledger>|
        {
            &&& #[trigger] applied_in_turn(states, owners, event, points, now, out)
            &&& states[0] == pre
            &&& states.last() == post
        };
    lemma_applied_grows(states, owners, event, points, now, out, 0, n);
    assert(post.links() == pre.links());
    let states2 = choose|states2: Seq<Ledger>|
        {
            &&& #[trigger] applied_in_turn(states2, owners, event, points, later, out2)
            &&& states2[0] == post
            &&& states2.last() == again
        };
    assert forall|k: int| 0 <= k < n implies collection_refusal(
        post,
        #[trigger] owners[k],
        item,
        points,
    ).is_some() by {
        lemma_feed_step(pre, post, states, handle, item, points, now, out, k);
        let o = owners[k];
        if !holds_entry(post.records(), o, item) && points.is_some() {
            assert(out[k].1.is_err());
            assert(states[k + 1] == states[k]);
            assert(!commit_fits(states[k], o, EventKind::Collection, 0, points.unwrap() as int));
            assert(!commit_fits(post, o, EventKind::Collection, 0, points.unwrap() as int));
        }
    }
    lemma_all_refused(post, states2, owners, item, handle, points, later, out2, n);
}

/// Where every identity is refused in `post`, applying the event in turn
/// leaves every state at `post`.
proof fn lemma_all_refused(
    post: Ledger,
    states: Seq<Ledger>,
    owners: Seq<u64>,
    item: Seq<char>,
    handle: Seq<char>,
    points: Option<i64>,
    now: int,
    out: Seq<(u64, Result<EventSummary, CoreError>)>,
    j: int,
)
    requires
        applied_in_turn(states, owners, Candidate::Collection { handle, item }, points, now, out),
        states[0] == post,
        0 <= j <= owners.len(),
        forall|k: int|
            0 <= k < owners.len() ==> collection_refusal(post, #[trigger] owners[k], item, points).is_some(),
    ensures
        states[j] == post,
        forall|k: int| 0 <= k < j ==> (#[trigger] out[k]).1.is_err(),
    decreases j,
{
    if j > 0 {
        lemma_all_refused(post, states, owners, item, handle, points, now, out, j - 1);
        assert(applied_at(
            states,
            owners,
            Candidate::Collection { handle, item },
            points,
            now,
            out,
            j - 1,
        ));
        assert(collection_refusal(post, owners[j - 1], item, points).is_some());
        assert(out[j - 1].1.is_err());
    }
}

} // verus!
