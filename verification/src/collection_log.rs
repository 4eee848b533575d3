//! The collection log: what each item of the log scores, and the names
//! suggested while a player types one.

use crate::text::first_of;
use crate::text::strings_view;
use crate::text::suggest;
use crate::text::suggested;
use vstd::prelude::*;
use vstd::string::StringExecFns;

verus! {

/// One item of the collection log and the points that its rarity scores.
#[derive(Clone, Debug, PartialEq, Eq)]
pub struct CollectionItem {
    pub name: String,
    pub points: i64,
}

/// The items of the collection log. Of several items with one name the
/// last counts.
#[derive(Clone, Debug, PartialEq, Eq)]
pub struct CollectionLogData {
    pub items: Vec<CollectionItem>,
}

/// The points of the last item of `items` named `name`.
pub open spec fn item_points(items: Seq<CollectionItem>, name: Seq<char>) -> Option<i64>
    decreases items.len(),
{
    if items.len() == 0 {
        None
    } else if items.last().name@ == name {
        Some(items.last().points)
    } else {
        item_points(items.drop_last(), name)
    }
}

/// The names of the items, in order.
pub open spec fn item_names(items: Seq<CollectionItem>) -> Seq<Seq<char>> {
    Seq::new(items.len(), |i: int| items[i].name@)
}

impl CollectionLogData {
    /// The points for the item named `item_name`, if the log has it.
    pub fn calculate_points(&self, item_name: &str) -> (r: Option<i64>)
        ensures
            r == item_points(self.items@, item_name@),
    {
        let wanted = String::from_str(item_name);
        let mut i: usize = self.items.len();
        assert(self.items@.subrange(0, i as int) =~= self.items@);
        while i > 0
            invariant
                i <= self.items@.len(),
                wanted@ == item_name@,
                item_points(self.items@, item_name@) == item_points(
                    self.items@.subrange(0, i as int),
                    item_name@,
                ),
            decreases i,
        {
            proof {
                assert(self.items@.subrange(0, i as int).drop_last() =~= self.items@.subrange(
                    0,
                    i - 1,
                ));
                assert(self.items@.subrange(0, i as int).last() == self.items@[i - 1]);
            }
            if self.items[i - 1].name == wanted {
                return Some(self.items[i - 1].points);
            }
            i -= 1;
        }
        None
    }

    /// The first 25 item names in which `partial` occurs, letter case
    /// aside.
    pub fn get_suggestions(&self, partial: &str) -> (out: Vec<String>)
        ensures
            strings_view(out@) == first_of(suggested(item_names(self.items@), partial@), 25),
    {
        let mut names: Vec<String> = Vec::new();
        let mut i: usize = 0;
        while i < self.items.len()
            invariant
                i <= self.items@.len(),
                names@.len() == i,
                forall|k: int| 0 <= k < i ==> (#[trigger] names@[k])@ == self.items@[k].name@,
            decreases self.items@.len() - i,
        {
            names.push(self.items[i].name.clone());
            i += 1;
        }
        assert(strings_view(names@) =~= item_names(self.items@));
        suggest(&names, partial)
    }
}

} // verus!
