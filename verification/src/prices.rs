//! The price table: the item mappings of the price service and its latest
//! prices, and the price that a drop is scored at.

use crate::text::parse_i64;
use crate::text::parsed_i64;
use crate::text::first_of;
use crate::text::strings_view;
use crate::text::suggest;
use crate::text::suggested;
use std::collections::HashMap;
use vstd::prelude::*;
use vstd::string::StringExecFns;

verus! {

/// What the price service knows of one item.
#[derive(Clone, Debug, PartialEq, Eq)]
pub struct ItemMapping {
    pub examine: Option<String>,
    pub id: i64,
    pub members: Option<bool>,
    pub low_alch: Option<i64>,
    pub limit: Option<i64>,
    pub value: Option<i64>,
    pub high_alch: Option<i64>,
    pub icon: Option<String>,
    pub name: String,
}

/// The latest high and low price of one item, with their times.
#[derive(Clone, Copy, Debug, PartialEq, Eq)]
pub struct ItemPrice {
    pub high: Option<i64>,
    pub high_time: Option<i64>,
    pub low: Option<i64>,
    pub low_time: Option<i64>,
}

/// The latest prices as the service sends them: each under the item's id
/// written as text, in the order received.
#[derive(Clone, Debug, PartialEq, Eq)]
pub struct LatestPrices {
    pub data: Vec<(String, ItemPrice)>,
}

/// The price table. Of several mappings with one name, or one id, the last
/// counts.
pub struct PriceData {
    pub mappings: Vec<ItemMapping>,
    pub id_to_name: HashMap<i64, String>,
    pub latest_prices: HashMap<i64, ItemPrice>,
}

/// The last mapping of `mappings` named `name`.
pub open spec fn mapping_of(mappings: Seq<ItemMapping>, name: Seq<char>) -> Option<ItemMapping>
    decreases mappings.len(),
{
    if mappings.len() == 0 {
        None
    } else if mappings.last().name@ == name {
        Some(mappings.last())
    } else {
        mapping_of(mappings.drop_last(), name)
    }
}

/// The item names by id.
pub open spec fn names_by_id(mappings: Seq<ItemMapping>) -> Map<i64, Seq<char>>
    decreases mappings.len(),
{
    if mappings.len() == 0 {
        Map::empty()
    } else {
        names_by_id(mappings.drop_last()).insert(mappings.last().id, mappings.last().name@)
    }
}

/// The prices by id: each entry whose key is an integer, a later one
/// replacing an earlier one with the same id.
pub open spec fn prices_by_id(entries: Seq<(String, ItemPrice)>) -> Map<i64, ItemPrice>
    decreases entries.len(),
{
    if entries.len() == 0 {
        Map::empty()
    } else {
        match parsed_i64(entries.last().0@) {
            Some(id) => prices_by_id(entries.drop_last()).insert(id, entries.last().1),
            None => prices_by_id(entries.drop_last()),
        }
    }
}

/// The price used for an item: its latest low price, else its latest high
/// price, else its high alchemy value, else 0.
pub open spec fn price_used(mapping: ItemMapping, price: ItemPrice) -> i64 {
    match price.low {
        Some(p) => p,
        None => match price.high {
            Some(p) => p,
            None => match mapping.high_alch {
                Some(p) => p,
                None => 0,
            },
        },
    }
}

/// The price of the item named `name`: none where no mapping has that name
/// or no latest price is known for its id.
pub open spec fn item_price(
    mappings: Seq<ItemMapping>,
    prices: Map<i64, ItemPrice>,
    name: Seq<char>,
) -> Option<i64> {
    match mapping_of(mappings, name) {
        Some(m) => if prices.contains_key(m.id) {
            Some(price_used(m, prices[m.id]))
        } else {
            None
        },
        None => None,
    }
}

/// The names of the mappings, in order.
pub open spec fn mapping_names(mappings: Seq<ItemMapping>) -> Seq<Seq<char>> {
    Seq::new(mappings.len(), |i: int| mappings[i].name@)
}

/// The characters of each name of a map.
pub open spec fn name_map_view(m: Map<i64, String>) -> Map<i64, Seq<char>> {
    Map::new(|id: i64| m.contains_key(id), |id: i64| m[id]@)
}

impl PriceData {
    /// A table of `mappings` without prices yet.
    pub fn new(mappings: Vec<ItemMapping>) -> (r: PriceData)
        ensures
            r.mappings@ == mappings@,
            name_map_view(r.id_to_name@) == names_by_id(mappings@),
            r.latest_prices@ == Map::<i64, ItemPrice>::empty(),
    {
        broadcast use vstd::std_specs::hash::group_hash_axioms;

        let mut id_to_name: HashMap<i64, String> = HashMap::new();
        let mut i: usize = 0;
        assert(mappings@.subrange(0, 0) =~= Seq::<ItemMapping>::empty());
        assert(name_map_view(id_to_name@) =~= names_by_id(mappings@.subrange(0, 0)));
        while i < mappings.len()
            invariant
                i <= mappings@.len(),
                name_map_view(id_to_name@) == names_by_id(mappings@.subrange(0, i as int)),
            decreases mappings@.len() - i,
        {
            let ghost before = id_to_name@;
            let name = mappings[i].name.clone();
            id_to_name.insert(mappings[i].id, name);
            proof {
                assert(mappings@.subrange(0, i + 1).drop_last() =~= mappings@.subrange(0, i as int));
                assert(mappings@.subrange(0, i + 1).last() == mappings@[i as int]);
                assert(name_map_view(id_to_name@) =~= name_map_view(before).insert(
                    mappings@[i as int].id,
                    mappings@[i as int].name@,
                ));
            }
            i += 1;
        }
        assert(mappings@.subrange(0, i as int) =~= mappings@);
        PriceData { mappings, id_to_name, latest_prices: HashMap::new() }
    }

    /// Replaces the latest prices by those of `latest`. An entry whose key
    /// is no integer is left out.
    pub fn update_prices(&mut self, latest: &LatestPrices)
        ensures
            final(self).latest_prices@ == prices_by_id(latest.data@),
            final(self).mappings == old(self).mappings,
            final(self).id_to_name == old(self).id_to_name,
    {
        broadcast use vstd::std_specs::hash::group_hash_axioms;

        self.latest_prices.clear();
        let mut i: usize = 0;
        assert(latest.data@.subrange(0, 0) =~= Seq::<(String, ItemPrice)>::empty());
        while i < latest.data.len()
            invariant
                i <= latest.data@.len(),
                self.latest_prices@ == prices_by_id(latest.data@.subrange(0, i as int)),
                self.mappings == old(self).mappings,
                self.id_to_name == old(self).id_to_name,
            decreases latest.data@.len() - i,
        {
            proof {
                assert(latest.data@.subrange(0, i + 1).drop_last() =~= latest.data@.subrange(
                    0,
                    i as int,
                ));
                assert(latest.data@.subrange(0, i + 1).last() == latest.data@[i as int]);
            }
            match parse_i64(latest.data[i].0.as_str()) {
                Some(id) => {
                    self.latest_prices.insert(id, latest.data[i].1);
                },
                None => {},
            }
            i += 1;
        }
        assert(latest.data@.subrange(0, i as int) =~= latest.data@);
    }

    fn find_mapping(&self, name: &str) -> (r: Option<usize>)
        ensures
            match r {
                Some(i) => i < self.mappings@.len() && mapping_of(self.mappings@, name@) == Some(
                    self.mappings@[i as int],
                ),
                None => mapping_of(self.mappings@, name@).is_none(),
            },
    {
        let wanted = String::from_str(name);
        let mut i: usize = self.mappings.len();
        assert(self.mappings@.subrange(0, i as int) =~= self.mappings@);
        while i > 0
            invariant
                i <= self.mappings@.len(),
                wanted@ == name@,
                mapping_of(self.mappings@, name@) == mapping_of(
                    self.mappings@.subrange(0, i as int),
                    name@,
                ),
            decreases i,
        {
            proof {
                assert(self.mappings@.subrange(0, i as int).drop_last() =~= self.mappings@.subrange(
                    0,
                    i - 1,
                ));
                assert(self.mappings@.subrange(0, i as int).last() == self.mappings@[i - 1]);
            }
            if self.mappings[i - 1].name == wanted {
                return Some(i - 1);
            }
            i -= 1;
        }
        None
    }

    /// The price that a drop of the item named `name` is scored at.
    pub fn get_item_price(&self, name: &str) -> (r: Option<i64>)
        ensures
            r == item_price(self.mappings@, self.latest_prices@, name@),
    {
        broadcast use vstd::std_specs::hash::group_hash_axioms;

        let i = match self.find_mapping(name) {
            Some(i) => i,
            None => {
                return None;
            },
        };
        let mapping = &self.mappings[i];
        let price = match self.latest_prices.get(&mapping.id) {
            Some(p) => *p,
            None => {
                return None;
            },
        };
        Some(
            match price.low {
                Some(p) => p,
                None => match price.high {
                    Some(p) => p,
                    None => match mapping.high_alch {
                        Some(p) => p,
                        None => 0,
                    },
                },
            },
        )
    }
}

impl PriceData {
    /// The first 25 item names in which `partial` occurs, letter case
    /// aside.
    pub fn get_item_suggestions(&self, partial: &str) -> (out: Vec<String>)
        ensures
            strings_view(out@) == first_of(suggested(mapping_names(self.mappings@), partial@), 25),
    {
        let mut names: Vec<String> = Vec::new();
        let mut i: usize = 0;
        while i < self.mappings.len()
            invariant
                i <= self.mappings@.len(),
                names@.len() == i,
                forall|k: int| 0 <= k < i ==> (#[trigger] names@[k])@ == self.mappings@[k].name@,
            decreases self.mappings@.len() - i,
        {
            names.push(self.mappings[i].name.clone());
            i += 1;
        }
        assert(strings_view(names@) =~= mapping_names(self.mappings@));
        suggest(&names, partial)
    }
}

} // verus!
