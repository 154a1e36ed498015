//! The two stores of the catalog: lookup by identifier and enumeration.

use crate::model::{Category, CategoryId, Restaurant, RestaurantId};
use crate::sorting::{distinct_names, Named};
use std::collections::HashMap;
use vstd::prelude::*;
use vstd::std_specs::hash::*;
use vstd::std_specs::iter::IteratorSpec;

verus! {

broadcast use vstd::std_specs::hash::group_hash_axioms;

/// Every category is stored under the bits of its own identifier.
pub open spec fn categories_keyed_by_id(categories: Map<u128, Category>) -> bool {
    forall|key: u128| #[trigger]
        categories.contains_key(key) ==> categories[key].id.value() == key
}

/// Every restaurant is stored under the bits of its own identifier.
pub open spec fn restaurants_keyed_by_id(restaurants: Map<u128, Restaurant>) -> bool {
    forall|key: u128| #[trigger]
        restaurants.contains_key(key) ==> restaurants[key].id.value() == key
}

/// The category of every restaurant is one of the categories.
pub open spec fn every_category_resolves(
    categories: Map<u128, Category>,
    restaurants: Map<u128, Restaurant>,
) -> bool {
    forall|key: u128| #[trigger]
        restaurants.contains_key(key) ==> categories.contains_key(
            restaurants[key].category_id.value(),
        )
}

/// No two of the categories have the same identifier.
pub open spec fn distinct_category_ids(categories: Seq<Category>) -> bool {
    forall|a: int, b: int|
        0 <= a < b < categories.len() ==> (#[trigger] categories[a]).id != (
        #[trigger] categories[b]).id
}

/// No two of the restaurants have the same identifier.
pub open spec fn distinct_restaurant_ids(restaurants: Seq<Restaurant>) -> bool {
    forall|a: int, b: int|
        0 <= a < b < restaurants.len() ==> (#[trigger] restaurants[a]).id != (
        #[trigger] restaurants[b]).id
}

/// The two mappings make a catalog: each entity stands under its own
/// identifier, and every restaurant belongs to a category that is there.
pub open spec fn sound_catalog(
    categories: Map<u128, Category>,
    restaurants: Map<u128, Restaurant>,
) -> bool {
    &&& categories_keyed_by_id(categories)
    &&& restaurants_keyed_by_id(restaurants)
    &&& every_category_resolves(categories, restaurants)
}

/// `all` holds, place by place, what `contents` holds under the keys, which
/// are all different and are all the keys of `contents`.
pub open spec fn enumerates_by<V>(keys: Seq<u128>, all: Seq<V>, contents: Map<u128, V>) -> bool {
    &&& keys.len() == all.len()
    &&& forall|i: int, j: int| 0 <= i < j < keys.len() ==> keys[i] != keys[j]
    &&& forall|i: int|
        0 <= i < keys.len() ==> contents.contains_key(#[trigger] keys[i]) && all[i]
            == contents[keys[i]]
    &&& forall|key: u128| #[trigger]
        contents.contains_key(key) ==> exists|i: int|
            0 <= i < keys.len() && #[trigger] keys[i] == key
}

/// `all` holds what `contents` holds under each of its keys, each key taken
/// once, in some order.
pub open spec fn enumerates<V>(all: Seq<V>, contents: Map<u128, V>) -> bool {
    exists|keys: Seq<u128>| #[trigger] enumerates_by(keys, all, contents)
}

/// The second parts of the pairs, in their order.
pub open spec fn second_parts<V>(pairs: Seq<(u128, V)>) -> Seq<V> {
    pairs.map_values(|pair: (u128, V)| pair.1)
}

/// The first parts of the pairs, in their order.
pub open spec fn first_parts<V>(pairs: Seq<(u128, V)>) -> Seq<u128> {
    pairs.map_values(|pair: (u128, V)| pair.0)
}

/// The pairs are the entries of the mapping, each once: no key comes twice,
/// every pair is an entry, and every entry is among the pairs.
pub open spec fn lists_each_once<V>(entries: Seq<(u128, V)>, contents: Map<u128, V>) -> bool {
    &&& forall|i: int, j: int|
        0 <= i < j < entries.len() ==> (#[trigger] entries[i]).0 != (#[trigger] entries[j]).0
    &&& forall|i: int|
        0 <= i < entries.len() ==> contents.contains_key((#[trigger] entries[i]).0)
            && contents[entries[i].0] == entries[i].1
    &&& forall|key: u128| #[trigger]
        contents.contains_key(key) ==> exists|i: int|
            0 <= i < entries.len() && (#[trigger] entries[i]).0 == key
}

/// A walk over the entries of a mapping that meets no pair twice, meets only
/// entries and meets every entry lists the entries each once.
pub proof fn lemma_walk_lists_each_once<'a, V>(
    walk: Seq<(&'a u128, &'a V)>,
    contents: Map<u128, V>,
)
    requires
        walk.no_duplicates(),
        forall|i: int|
            0 <= i < walk.len() ==> contents.contains_key(*(#[trigger] walk[i]).0)
                && contents[*walk[i].0] == *walk[i].1,
        forall|key: u128| #[trigger]
            contents.contains_key(key) ==> walk.contains((&key, &contents[key])),
    ensures
        lists_each_once(walk.unref(), contents),
{
    let entries = walk.unref();
    assert forall|i: int, j: int| 0 <= i < j < entries.len() implies (#[trigger] entries[i]).0 != (
    #[trigger] entries[j]).0 by {
        assert(contents[*walk[i].0] == *walk[i].1);
        assert(contents[*walk[j].0] == *walk[j].1);
        assert(walk[i] != walk[j]);
    }
    assert forall|i: int| 0 <= i < entries.len() implies contents.contains_key(
        (#[trigger] entries[i]).0,
    ) && contents[entries[i].0] == entries[i].1 by {
        assert(contents.contains_key(*walk[i].0) && contents[*walk[i].0] == *walk[i].1);
    }
    assert forall|key: u128| #[trigger] contents.contains_key(key) implies exists|i: int|
        0 <= i < entries.len() && (#[trigger] entries[i]).0 == key by {
        assert(walk.contains((&key, &contents[key])));
        let i = choose|i: int| 0 <= i < walk.len() && walk[i] == (&key, &contents[key]);
        assert(entries[i].0 == key);
    }
}

/// What lists the entries each once enumerates the mapping.
pub proof fn lemma_enumerates<V>(entries: Seq<(u128, V)>, contents: Map<u128, V>)
    requires
        lists_each_once(entries, contents),
    ensures
        enumerates(second_parts(entries), contents),
{
    let keys = first_parts(entries);
    let all = second_parts(entries);
    assert forall|i: int, j: int| 0 <= i < j < keys.len() implies keys[i] != keys[j] by {
        assert(entries[i].0 != entries[j].0);
    }
    assert forall|i: int| 0 <= i < keys.len() implies contents.contains_key(#[trigger] keys[i])
        && all[i] == contents[keys[i]] by {
        assert(contents.contains_key(entries[i].0));
    }
    assert forall|key: u128| #[trigger] contents.contains_key(key) implies exists|i: int|
        0 <= i < keys.len() && #[trigger] keys[i] == key by {
        let i = choose|i: int| 0 <= i < entries.len() && (#[trigger] entries[i]).0 == key;
        assert(keys[i] == key);
    }
    assert(enumerates_by(keys, all, contents));
}

/// What lists the entries each once is as long as the mapping is large.
pub proof fn lemma_as_many_as_stored<V>(entries: Seq<(u128, V)>, contents: Map<u128, V>)
    requires
        lists_each_once(entries, contents),
    ensures
        contents.dom().finite(),
        entries.len() == contents.len(),
        second_parts(entries).len() == contents.len(),
{
    let keys = first_parts(entries);
    assert(keys.no_duplicates()) by {
        assert forall|i: int, j: int|
            0 <= i < keys.len() && 0 <= j < keys.len() && i != j implies keys[i] != keys[j] by {
            if i < j {
                assert(entries[i].0 != entries[j].0);
            } else {
                assert(entries[j].0 != entries[i].0);
            }
        }
    }
    assert(keys.to_set() =~= contents.dom()) by {
        assert forall|key: u128| keys.to_set().contains(key) <==> contents.dom().contains(
            key,
        ) by {
            if keys.to_set().contains(key) {
                let i = choose|i: int| 0 <= i < keys.len() && keys[i] == key;
                assert(contents.contains_key(entries[i].0));
            }
            if contents.contains_key(key) {
                let i = choose|i: int| 0 <= i < entries.len() && (#[trigger] entries[i]).0 == key;
                assert(keys[i] == key);
            }
        }
    }
    vstd::seq_lib::seq_to_set_is_finite(keys);
    keys.unique_seq_to_set();
}

/// Where what lists the entries each once has a stored entry.
pub proof fn lemma_position_of<V>(entries: Seq<(u128, V)>, contents: Map<u128, V>, key: u128) -> (k:
    int)
    requires
        lists_each_once(entries, contents),
        contents.contains_key(key),
    ensures
        0 <= k < entries.len(),
        entries[k].0 == key,
        second_parts(entries)[k] == contents[key],
{
    choose|k: int| 0 <= k < entries.len() && (#[trigger] entries[k]).0 == key
}

/// What stands at a position of what lists the entries each once is what the
/// mapping holds under the key of that position.
pub proof fn lemma_entry_at<V>(entries: Seq<(u128, V)>, contents: Map<u128, V>, k: int)
    requires
        lists_each_once(entries, contents),
        0 <= k < entries.len(),
    ensures
        contents.contains_key(entries[k].0),
        second_parts(entries)[k] == contents[entries[k].0],
{
}

/// Two listings of the entries of one mapping, each entry once and all of
/// different names, hold the same items, whatever the order of each.
pub proof fn lemma_listings_agree<V: Named>(
    entries: Seq<(u128, V)>,
    other_entries: Seq<(u128, V)>,
    contents: Map<u128, V>,
)
    requires
        lists_each_once(entries, contents),
        lists_each_once(other_entries, contents),
        distinct_names(second_parts(entries)),
    ensures
        second_parts(entries).to_multiset() == second_parts(other_entries).to_multiset(),
{
    broadcast use vstd::multiset::group_multiset_axioms;
    broadcast use vstd::seq_lib::group_to_multiset_ensures;

    let mine = second_parts(entries);
    let theirs = second_parts(other_entries);
    assert forall|i: int, j: int|
        0 <= i < mine.len() && 0 <= j < mine.len() && i != j implies mine[i] != mine[j] by {
        if i < j {
            assert(mine[i].name_view() != mine[j].name_view());
        } else {
            assert(mine[j].name_view() != mine[i].name_view());
        }
    }
    assert(mine.no_duplicates());
    assert forall|i: int, j: int|
        0 <= i < theirs.len() && 0 <= j < theirs.len() && i != j implies theirs[i]
        != theirs[j] by {
        lemma_entry_at(other_entries, contents, i);
        lemma_entry_at(other_entries, contents, j);
        let a = lemma_position_of(entries, contents, other_entries[i].0);
        let b = lemma_position_of(entries, contents, other_entries[j].0);
        if i < j {
            assert(other_entries[i].0 != other_entries[j].0);
        } else {
            assert(other_entries[j].0 != other_entries[i].0);
        }
        if a < b {
            assert(mine[a].name_view() != mine[b].name_view());
        } else {
            assert(mine[b].name_view() != mine[a].name_view());
        }
    }
    assert(theirs.no_duplicates());
    mine.lemma_multiset_has_no_duplicates();
    theirs.lemma_multiset_has_no_duplicates();
    assert forall|item: V| mine.to_multiset().count(item) == theirs.to_multiset().count(item) by {
        if mine.contains(item) {
            let a = choose|a: int| 0 <= a < mine.len() && mine[a] == item;
            lemma_entry_at(entries, contents, a);
            let b = lemma_position_of(other_entries, contents, entries[a].0);
            assert(theirs[b] == item);
        }
        if theirs.contains(item) {
            let b = choose|b: int| 0 <= b < theirs.len() && theirs[b] == item;
            lemma_entry_at(other_entries, contents, b);
            let a = lemma_position_of(entries, contents, other_entries[b].0);
            assert(mine[a] == item);
        }
    }
    assert(mine.to_multiset() =~= theirs.to_multiset());
}

/// Where every category stands under its own identifier, no two categories
/// of a listing of the entries have the same identifier.
pub proof fn lemma_distinct_category_ids(
    entries: Seq<(u128, Category)>,
    contents: Map<u128, Category>,
)
    requires
        lists_each_once(entries, contents),
        categories_keyed_by_id(contents),
    ensures
        distinct_category_ids(second_parts(entries)),
{
    let all = second_parts(entries);
    assert forall|a: int, b: int| 0 <= a < b < all.len() implies (#[trigger] all[a]).id != (
    #[trigger] all[b]).id by {
        assert(entries[a].0 != entries[b].0);
        assert(contents.contains_key(entries[a].0) && contents.contains_key(entries[b].0));
    }
}

/// Where every restaurant stands under its own identifier, no two
/// restaurants of a listing of the entries have the same identifier.
pub proof fn lemma_distinct_restaurant_ids(
    entries: Seq<(u128, Restaurant)>,
    contents: Map<u128, Restaurant>,
)
    requires
        lists_each_once(entries, contents),
        restaurants_keyed_by_id(contents),
    ensures
        distinct_restaurant_ids(second_parts(entries)),
{
    let all = second_parts(entries);
    assert forall|a: int, b: int| 0 <= a < b < all.len() implies (#[trigger] all[a]).id != (
    #[trigger] all[b]).id by {
        assert(entries[a].0 != entries[b].0);
        assert(contents.contains_key(entries[a].0) && contents.contains_key(entries[b].0));
    }
}

/// The categories of the catalog, each under the bits of an identifier.
pub struct CategoryRepository {
    category_map: HashMap<u128, Category>,
}

impl CategoryRepository {
    /// The mapping that the store holds.
    pub closed spec fn view(&self) -> Map<u128, Category> {
        self.category_map@
    }

    /// The entries of the store in the order in which it hands them out.
    pub closed spec fn entries(&self) -> Seq<(u128, Category)> {
        into_iter(spec_hash_map_iter(&self.category_map))
    }

    /// The categories of the store in the order in which `get_all` returns
    /// them.
    pub open spec fn enumeration(&self) -> Seq<Category> {
        second_parts(self.entries())
    }

    /// The enumeration holds every entry of the store, each once.
    pub open spec fn each_once(&self) -> bool {
        lists_each_once(self.entries(), self@)
    }

    /// An enumeration that holds every entry once is as long as the store is
    /// large.
    pub proof fn lemma_enumeration_len(&self)
        requires
            self.each_once(),
        ensures
            self@.dom().finite(),
            self.enumeration().len() == self@.len(),
    {
        lemma_as_many_as_stored(self.entries(), self@);
    }

    /// A store of the given mapping.
    pub fn new(category_map: HashMap<u128, Category>) -> (repository: Self)
        ensures
            repository@ == category_map@,
    {
        CategoryRepository { category_map }
    }

    /// The category stored under the identifier, if there is one.
    pub fn get(&self, category_id: &CategoryId) -> (found: Option<&Category>)
        ensures
            found == if self@.contains_key(category_id.value()) {
                Some(&self@[category_id.value()])
            } else {
                None
            },
    {
        let key = category_id.as_u128();
        self.category_map.get(&key)
    }

    /// Every category of the store, each once: as many as the store holds.
    pub fn get_all(&self) -> (all: Vec<Category>)
        ensures
            all@ == self.enumeration(),
            self.each_once(),
            all@.len() == self@.len(),
    {
        let mut all: Vec<Category> = Vec::new();
        for entry in it: self.category_map.iter()
            invariant
                it.seq() == spec_hash_map_iter(&self.category_map).remaining(),
                spec_hash_map_iter(&self.category_map).remaining().unref() == self.entries(),
                spec_hash_map_iter(&self.category_map).remaining().no_duplicates(),
                all@ == self.enumeration().take(it.index()),
        {
            all.push(entry.1.clone());
            proof {
                let k = it.index();
                assert(self.enumeration().take(k + 1) =~= self.enumeration().take(k).push(
                    self.enumeration()[k],
                ));
            }
        }
        proof {
            assert(self.enumeration().take(self.enumeration().len() as int)
                =~= self.enumeration());
            lemma_walk_lists_each_once(
                spec_hash_map_iter(&self.category_map).remaining(),
                self@,
            );
            lemma_as_many_as_stored(self.entries(), self@);
        }
        all
    }
}

impl Clone for CategoryRepository {
    fn clone(&self) -> (copy: Self)
        ensures
            copy@ == self@,
    {
        CategoryRepository { category_map: self.category_map.clone() }
    }
}

/// The restaurants of the catalog, each under the bits of an identifier.
pub struct RestaurantRepository {
    restaurant_map: HashMap<u128, Restaurant>,
}

impl RestaurantRepository {
    /// The mapping that the store holds.
    pub closed spec fn view(&self) -> Map<u128, Restaurant> {
        self.restaurant_map@
    }

    /// The entries of the store in the order in which it hands them out.
    pub closed spec fn entries(&self) -> Seq<(u128, Restaurant)> {
        into_iter(spec_hash_map_iter(&self.restaurant_map))
    }

    /// The restaurants of the store in the order in which `get_all` returns
    /// them.
    pub open spec fn enumeration(&self) -> Seq<Restaurant> {
        second_parts(self.entries())
    }

    /// The enumeration holds every entry of the store, each once.
    pub open spec fn each_once(&self) -> bool {
        lists_each_once(self.entries(), self@)
    }

    /// An enumeration that holds every entry once is as long as the store is
    /// large.
    pub proof fn lemma_enumeration_len(&self)
        requires
            self.each_once(),
        ensures
            self@.dom().finite(),
            self.enumeration().len() == self@.len(),
    {
        lemma_as_many_as_stored(self.entries(), self@);
    }

    /// A store of the given mapping.
    pub fn new(restaurant_map: HashMap<u128, Restaurant>) -> (repository: Self)
        ensures
            repository@ == restaurant_map@,
    {
        RestaurantRepository { restaurant_map }
    }

    /// The restaurant stored under the identifier, if there is one.
    pub fn get(&self, restaurant_id: &RestaurantId) -> (found: Option<&Restaurant>)
        ensures
            found == if self@.contains_key(restaurant_id.value()) {
                Some(&self@[restaurant_id.value()])
            } else {
                None
            },
    {
        let key = restaurant_id.as_u128();
        self.restaurant_map.get(&key)
    }

    /// Every restaurant of the store, each once: as many as the store holds.
    pub fn get_all(&self) -> (all: Vec<Restaurant>)
        ensures
            all@ == self.enumeration(),
            self.each_once(),
            all@.len() == self@.len(),
    {
        let mut all: Vec<Restaurant> = Vec::new();
        for entry in it: self.restaurant_map.iter()
            invariant
                it.seq() == spec_hash_map_iter(&self.restaurant_map).remaining(),
                spec_hash_map_iter(&self.restaurant_map).remaining().unref() == self.entries(),
                spec_hash_map_iter(&self.restaurant_map).remaining().no_duplicates(),
                all@ == self.enumeration().take(it.index()),
        {
            all.push(entry.1.clone());
            proof {
                let k = it.index();
                assert(self.enumeration().take(k + 1) =~= self.enumeration().take(k).push(
                    self.enumeration()[k],
                ));
            }
        }
        proof {
            assert(self.enumeration().take(self.enumeration().len() as int)
                =~= self.enumeration());
            lemma_walk_lists_each_once(
                spec_hash_map_iter(&self.restaurant_map).remaining(),
                self@,
            );
            lemma_as_many_as_stored(self.entries(), self@);
        }
        all
    }
}

impl Clone for RestaurantRepository {
    fn clone(&self) -> (copy: Self)
        ensures
            copy@ == self@,
    {
        RestaurantRepository { restaurant_map: self.restaurant_map.clone() }
    }
}

} // verus!
