//! The listing of the directory: restaurants joined to their categories,
//! grouped by category, and sorted by name.

use crate::model::{Category, CategoryId, Restaurant};
use crate::repository::{
    categories_keyed_by_id, distinct_category_ids, distinct_restaurant_ids,
    lemma_distinct_category_ids, lemma_distinct_restaurant_ids, lemma_entry_at,
    lemma_listings_agree, lemma_position_of, restaurants_keyed_by_id, CategoryRepository,
    RestaurantRepository,
};
use crate::name_order::name_le;
use crate::sorting::{
    distinct_names, lemma_filter_no_duplicates, lemma_filter_sorted,
    lemma_stable_sorted_ignores_order, lemma_stable_sorted_rearranges, names_position,
    sort_by_name, sorted_positions, stable_sorted, Named,
};
use crate::transport::{
    entry_views, listing_views, CategoriesWithRestaurants, CategoriesWithRestaurantsView,
    RestaurantView,
};
use std::sync::Arc;
use vstd::prelude::*;

verus! {

/// What the listing shows of a restaurant: its identifier and its name.
pub open spec fn summary(restaurant: Restaurant) -> RestaurantView {
    RestaurantView { restaurant_id: restaurant.id, restaurant_name: restaurant.name@ }
}

/// The test that a restaurant belongs to the category `id`.
pub open spec fn in_category(id: CategoryId) -> spec_fn(Restaurant) -> bool {
    |restaurant: Restaurant| restaurant.category_id == id
}

/// What the listing shows of each restaurant, in the order given.
pub open spec fn summaries(restaurants: Seq<Restaurant>) -> Seq<RestaurantView> {
    restaurants.map_values(|restaurant: Restaurant| summary(restaurant))
}

/// The listing of one category: its name, and of the restaurants given those
/// that belong to it, in the order given.
pub open spec fn group(category: Category, restaurants: Seq<Restaurant>)
    -> CategoriesWithRestaurantsView {
    CategoriesWithRestaurantsView {
        category_name: category.name@,
        restaurants: summaries(restaurants.filter(in_category(category.id))),
    }
}

/// One listing for each category, in the order given.
pub open spec fn grouped(categories: Seq<Category>, restaurants: Seq<Restaurant>) -> Seq<
    CategoriesWithRestaurantsView,
> {
    categories.map_values(|category: Category| group(category, restaurants))
}

/// The listing of the directory: categories in display order, and in each
/// the restaurants that belong to it in display order. Categories of equal
/// name, and restaurants of equal name, stay in the order given.
pub open spec fn directory(categories: Seq<Category>, restaurants: Seq<Restaurant>) -> Seq<
    CategoriesWithRestaurantsView,
> {
    grouped(stable_sorted(categories), stable_sorted(restaurants))
}

/// The restaurants of one category, in the order given.
fn members(category_id: CategoryId, restaurants: &Vec<Restaurant>) -> (entries: Vec<
    crate::transport::Restaurant,
>)
    ensures
        entry_views(entries@) == summaries(restaurants@.filter(in_category(category_id))),
{
    let mut entries: Vec<crate::transport::Restaurant> = Vec::new();
    let mut j: usize = 0;
    proof {
        assert(restaurants@.take(0) =~= Seq::<Restaurant>::empty());
        assert(Seq::<Restaurant>::empty().filter(in_category(category_id)) =~= Seq::empty()) by {
            reveal(Seq::filter);
        }
        assert(entry_views(entries@) =~= summaries(Seq::<Restaurant>::empty()));
    }
    while j < restaurants.len()
        invariant
            j <= restaurants.len(),
            entry_views(entries@) == summaries(
                restaurants@.take(j as int).filter(in_category(category_id)),
            ),
        decreases restaurants.len() - j,
    {
        let restaurant = &restaurants[j];
        let ghost before = restaurants@.take(j as int);
        let ghost kept = before.filter(in_category(category_id));
        let ghost shown = entries@;
        proof {
            assert(restaurants@.take(j + 1) =~= before.push(*restaurant));
            before.lemma_filter_push(*restaurant, in_category(category_id));
        }
        if restaurant.category_id == category_id {
            entries.push(
                crate::transport::Restaurant {
                    restaurant_id: restaurant.id,
                    restaurant_name: restaurant.name.clone(),
                },
            );
            proof {
                assert(entry_views(entries@) =~= entry_views(shown).push(summary(*restaurant)));
                assert(summaries(kept.push(*restaurant)) =~= summaries(kept).push(
                    summary(*restaurant),
                ));
            }
        }
        j += 1;
    }
    proof {
        assert(restaurants@.take(j as int) =~= restaurants@);
    }
    entries
}

/// Joins the restaurants to the categories: one listing for each category,
/// categories in display order, and in each listing the restaurants of that
/// category in display order. A category without restaurants gets an empty
/// listing; a restaurant whose category is not among those given is left out.
pub fn group_by_category(categories: Vec<Category>, restaurants: Vec<Restaurant>) -> (listing: Vec<
    CategoriesWithRestaurants,
>)
    ensures
        listing_views(listing@) == directory(categories@, restaurants@),
        listing@.len() == categories@.len(),
{
    let ghost target = directory(categories@, restaurants@);
    proof {
        lemma_categories_in_display_order(categories@, restaurants@);
    }
    let categories = sort_by_name(categories);
    let restaurants = sort_by_name(restaurants);
    let mut listing: Vec<CategoriesWithRestaurants> = Vec::new();
    let mut i: usize = 0;
    while i < categories.len()
        invariant
            i <= categories.len(),
            target == grouped(categories@, restaurants@),
            listing_views(listing@) =~= target.take(i as int),
        decreases categories.len() - i,
    {
        let category = &categories[i];
        let entries = members(category.id, &restaurants);
        let ghost shown = listing@;
        listing.push(
            CategoriesWithRestaurants { category_name: category.name.clone(), restaurants: entries },
        );
        proof {
            assert(listing_views(listing@) =~= listing_views(shown).push(
                group(*category, restaurants@),
            ));
            assert(target.take(i + 1) =~= target.take(i as int).push(target[i as int]));
        }
        i += 1;
    }
    proof {
        assert(target.take(i as int) =~= target);
    }
    listing
}

/// The listing has one entry for each category given, and the names of its
/// entries are in display order.
pub proof fn lemma_categories_in_display_order(
    categories: Seq<Category>,
    restaurants: Seq<Restaurant>,
)
    ensures
        directory(categories, restaurants).len() == categories.len(),
        forall|i: int, j: int|
            0 <= i < j < categories.len() ==> name_le(
                (#[trigger] directory(categories, restaurants)[i]).category_name,
                (#[trigger] directory(categories, restaurants)[j]).category_name,
            ),
{
    lemma_stable_sorted_rearranges(categories);
    let sorted = stable_sorted(categories);
    let listing = directory(categories, restaurants);
    assert forall|i: int, j: int| 0 <= i < j < categories.len() implies name_le(
        (#[trigger] listing[i]).category_name,
        (#[trigger] listing[j]).category_name,
    ) by {
        assert(listing[i].category_name == sorted[i].name_view());
        assert(listing[j].category_name == sorted[j].name_view());
    }
}

/// Within each entry of the listing the names of the restaurants are in
/// display order.
pub proof fn lemma_restaurants_in_display_order(
    categories: Seq<Category>,
    restaurants: Seq<Restaurant>,
)
    ensures
        forall|k: int, i: int, j: int|
            0 <= k < directory(categories, restaurants).len() && 0 <= i < j < directory(
                categories,
                restaurants,
            )[k].restaurants.len() ==> name_le(
                (#[trigger] directory(categories, restaurants)[k].restaurants[i]).restaurant_name,
                (#[trigger] directory(categories, restaurants)[k].restaurants[j]).restaurant_name,
            ),
{
    lemma_stable_sorted_rearranges(categories);
    lemma_stable_sorted_rearranges(restaurants);
    let sorted = stable_sorted(categories);
    let ordered = stable_sorted(restaurants);
    let listing = directory(categories, restaurants);
    assert forall|k: int, i: int, j: int|
        0 <= k < listing.len() && 0 <= i < j < listing[k].restaurants.len() implies name_le(
        (#[trigger] listing[k].restaurants[i]).restaurant_name,
        (#[trigger] listing[k].restaurants[j]).restaurant_name,
    ) by {
        let kept = ordered.filter(in_category(sorted[k].id));
        lemma_filter_sorted(ordered, in_category(sorted[k].id));
        assert(listing[k].restaurants[i].restaurant_name == kept[i].name_view());
        assert(listing[k].restaurants[j].restaurant_name == kept[j].name_view());
    }
}

/// Without categories the listing is empty, whatever restaurants there are;
/// so the listing of an empty catalog is empty.
pub proof fn lemma_no_categories_no_listing(restaurants: Seq<Restaurant>)
    ensures
        directory(Seq::<Category>::empty(), restaurants)
            == Seq::<CategoriesWithRestaurantsView>::empty(),
{
    assert(directory(Seq::<Category>::empty(), restaurants)
        =~= Seq::<CategoriesWithRestaurantsView>::empty());
}

/// A category to which none of the restaurants belongs still has its entry in
/// the listing, with no restaurants in it.
pub proof fn lemma_category_without_restaurants(
    categories: Seq<Category>,
    restaurants: Seq<Restaurant>,
    k: int,
) -> (i: int)
    requires
        0 <= k < categories.len(),
        forall|m: int|
            0 <= m < restaurants.len() ==> (#[trigger] restaurants[m]).category_id
                != categories[k].id,
    ensures
        0 <= i < directory(categories, restaurants).len(),
        directory(categories, restaurants)[i] == (CategoriesWithRestaurantsView {
            category_name: categories[k].name@,
            restaurants: Seq::empty(),
        }),
{
    lemma_stable_sorted_rearranges(categories);
    lemma_stable_sorted_rearranges(restaurants);
    let sorted = stable_sorted(categories);
    let ordered = stable_sorted(restaurants);
    let places = sorted_positions(restaurants);
    let listing = directory(categories, restaurants);
    assert(names_position(sorted_positions(categories), k));
    let i = choose|i: int|
        0 <= i < categories.len() && #[trigger] sorted_positions(categories)[i] == k;
    assert(sorted[i] == categories[k]);
    let kept = ordered.filter(in_category(categories[k].id));
    if kept.len() > 0 {
        ordered.lemma_filter_pred(in_category(categories[k].id), 0);
        assert(kept.contains(kept[0]));
        ordered.lemma_filter_contains_rev(in_category(categories[k].id), kept[0]);
        let m = choose|m: int| 0 <= m < ordered.len() && ordered[m] == kept[0];
        assert(ordered[m] == restaurants[places[m]]);
    }
    assert(listing[i].restaurants =~= Seq::<RestaurantView>::empty());
    assert(listing[i] == (CategoriesWithRestaurantsView {
        category_name: categories[k].name@,
        restaurants: Seq::empty(),
    }));
    i
}

/// A category whose name no other category has is named by exactly one entry
/// of the listing.
pub proof fn lemma_category_listed_once(
    categories: Seq<Category>,
    restaurants: Seq<Restaurant>,
    k: int,
) -> (i: int)
    requires
        0 <= k < categories.len(),
        forall|m: int|
            0 <= m < categories.len() && m != k ==> (#[trigger] categories[m]).name@
                != categories[k].name@,
    ensures
        0 <= i < directory(categories, restaurants).len(),
        directory(categories, restaurants)[i].category_name == categories[k].name@,
        forall|j: int|
            0 <= j < directory(categories, restaurants).len() && (#[trigger] directory(
                categories,
                restaurants,
            )[j]).category_name == categories[k].name@ ==> j == i,
{
    lemma_stable_sorted_rearranges(categories);
    let sorted = stable_sorted(categories);
    let places = sorted_positions(categories);
    let listing = directory(categories, restaurants);
    assert(names_position(places, k));
    let i = choose|i: int| 0 <= i < categories.len() && #[trigger] places[i] == k;
    assert(sorted[i] == categories[k]);
    assert(listing[i].category_name == categories[k].name@);
    assert forall|j: int|
        0 <= j < listing.len() && (#[trigger] listing[j]).category_name
            == categories[k].name@ implies j == i by {
        assert(sorted[j] == categories[places[j]]);
        assert(listing[j].category_name == sorted[j].name@);
        if places[j] != k {
            assert(categories[places[j]].name@ != categories[k].name@);
        }
        if j < i {
            assert(places[j] != places[i]);
        } else if i < j {
            assert(places[i] != places[j]);
        }
    }
    i
}

/// In a catalog whose categories have distinct identifiers and whose
/// restaurants have distinct identifiers, a restaurant whose category is
/// among the categories stands at exactly one place of the listing: in the
/// entry of its category, shown by its identifier and name.
pub proof fn lemma_restaurant_listed_once(
    categories: Seq<Category>,
    restaurants: Seq<Restaurant>,
    k: int,
    c: int,
) -> (place: (int, int))
    requires
        distinct_category_ids(categories),
        distinct_restaurant_ids(restaurants),
        0 <= k < restaurants.len(),
        0 <= c < categories.len(),
        restaurants[k].category_id == categories[c].id,
    ensures
        0 <= place.0 < directory(categories, restaurants).len(),
        0 <= place.1 < directory(categories, restaurants)[place.0].restaurants.len(),
        directory(categories, restaurants)[place.0].category_name == categories[c].name@,
        directory(categories, restaurants)[place.0].restaurants[place.1] == summary(
            restaurants[k],
        ),
        forall|i: int, j: int|
            0 <= i < directory(categories, restaurants).len() && 0 <= j < directory(
                categories,
                restaurants,
            )[i].restaurants.len() && (#[trigger] directory(
                categories,
                restaurants,
            )[i].restaurants[j]).restaurant_id == restaurants[k].id ==> i == place.0 && j
                == place.1,
{
    lemma_stable_sorted_rearranges(categories);
    lemma_stable_sorted_rearranges(restaurants);
    let sorted = stable_sorted(categories);
    let ordered = stable_sorted(restaurants);
    let cat_places = sorted_positions(categories);
    let places = sorted_positions(restaurants);
    let listing = directory(categories, restaurants);
    let target = restaurants[k];

    assert(ordered.no_duplicates()) by {
        assert forall|a: int, b: int|
            0 <= a < ordered.len() && 0 <= b < ordered.len() && a != b implies ordered[a]
            != ordered[b] by {
            lemma_distinct_places(restaurants, places, a, b);
            assert(ordered[a] == restaurants[places[a]]);
            assert(ordered[b] == restaurants[places[b]]);
            if places[a] < places[b] {
                assert(restaurants[places[a]].id != restaurants[places[b]].id);
            } else {
                assert(restaurants[places[b]].id != restaurants[places[a]].id);
            }
        }
    }

    assert(names_position(cat_places, c));
    let i = choose|i: int| 0 <= i < categories.len() && #[trigger] cat_places[i] == c;
    assert(sorted[i] == categories[c]);
    assert(names_position(places, k));
    let m = choose|m: int| 0 <= m < restaurants.len() && #[trigger] places[m] == k;
    assert(ordered[m] == target);
    let kept = ordered.filter(in_category(categories[c].id));
    ordered.lemma_filter_contains(in_category(categories[c].id), m);
    let j = choose|j: int| 0 <= j < kept.len() && kept[j] == target;
    lemma_filter_no_duplicates(ordered, in_category(categories[c].id));
    assert(listing[i].restaurants[j] == summary(target));

    assert forall|i2: int, j2: int|
        0 <= i2 < listing.len() && 0 <= j2 < listing[i2].restaurants.len() && (
        #[trigger] listing[i2].restaurants[j2]).restaurant_id == target.id implies i2 == i && j2
        == j by {
        let kept2 = ordered.filter(in_category(sorted[i2].id));
        assert(listing[i2].restaurants[j2] == summary(kept2[j2]));
        ordered.lemma_filter_pred(in_category(sorted[i2].id), j2);
        assert(kept2.contains(kept2[j2]));
        ordered.lemma_filter_contains_rev(in_category(sorted[i2].id), kept2[j2]);
        let m2 = choose|m2: int| 0 <= m2 < ordered.len() && ordered[m2] == kept2[j2];
        assert(ordered[m2] == restaurants[places[m2]]);
        if places[m2] < k {
            assert(restaurants[places[m2]].id != restaurants[k].id);
        } else if k < places[m2] {
            assert(restaurants[k].id != restaurants[places[m2]].id);
        }
        assert(kept2[j2] == target);
        assert(sorted[i2] == categories[cat_places[i2]]);
        if cat_places[i2] < c {
            assert(categories[cat_places[i2]].id != categories[c].id);
        } else if c < cat_places[i2] {
            assert(categories[c].id != categories[cat_places[i2]].id);
        }
        if i2 != i {
            lemma_distinct_places(categories, cat_places, i2, i);
        }
        assert(i2 == i);
        assert(kept2 == kept);
    }
    (i, j)
}

/// Every place of the listing shows one of the restaurants given, in the
/// entry of a category given to which it belongs: the positions returned are
/// those of the restaurant and of the category.
pub proof fn lemma_listed_restaurant_is_member(
    categories: Seq<Category>,
    restaurants: Seq<Restaurant>,
    i: int,
    j: int,
) -> (found: (int, int))
    requires
        0 <= i < directory(categories, restaurants).len(),
        0 <= j < directory(categories, restaurants)[i].restaurants.len(),
    ensures
        0 <= found.0 < restaurants.len(),
        0 <= found.1 < categories.len(),
        directory(categories, restaurants)[i].restaurants[j] == summary(restaurants[found.0]),
        directory(categories, restaurants)[i].category_name == categories[found.1].name@,
        restaurants[found.0].category_id == categories[found.1].id,
{
    lemma_stable_sorted_rearranges(categories);
    lemma_stable_sorted_rearranges(restaurants);
    let sorted = stable_sorted(categories);
    let ordered = stable_sorted(restaurants);
    let kept = ordered.filter(in_category(sorted[i].id));
    assert(directory(categories, restaurants)[i].restaurants[j] == summary(kept[j]));
    ordered.lemma_filter_pred(in_category(sorted[i].id), j);
    assert(kept.contains(kept[j]));
    ordered.lemma_filter_contains_rev(in_category(sorted[i].id), kept[j]);
    let m = choose|m: int| 0 <= m < ordered.len() && ordered[m] == kept[j];
    assert(ordered[m] == restaurants[sorted_positions(restaurants)[m]]);
    assert(sorted[i] == categories[sorted_positions(categories)[i]]);
    (sorted_positions(restaurants)[m], sorted_positions(categories)[i])
}

/// A restaurant whose category is not among the categories is left out of
/// the listing: where the restaurants have distinct identifiers, no place of
/// the listing shows its identifier.
pub proof fn lemma_restaurant_without_category_left_out(
    categories: Seq<Category>,
    restaurants: Seq<Restaurant>,
    k: int,
)
    requires
        distinct_restaurant_ids(restaurants),
        0 <= k < restaurants.len(),
        forall|c: int|
            0 <= c < categories.len() ==> (#[trigger] categories[c]).id
                != restaurants[k].category_id,
    ensures
        forall|i: int, j: int|
            0 <= i < directory(categories, restaurants).len() && 0 <= j < directory(
                categories,
                restaurants,
            )[i].restaurants.len() ==> (#[trigger] directory(
                categories,
                restaurants,
            )[i].restaurants[j]).restaurant_id != restaurants[k].id,
{
    let listing = directory(categories, restaurants);
    assert forall|i: int, j: int|
        0 <= i < listing.len() && 0 <= j < listing[i].restaurants.len() implies (
    #[trigger] listing[i].restaurants[j]).restaurant_id != restaurants[k].id by {
        let found = lemma_listed_restaurant_is_member(categories, restaurants, i, j);
        if found.0 < k {
            assert(restaurants[found.0].id != restaurants[k].id);
        } else if k < found.0 {
            assert(restaurants[k].id != restaurants[found.0].id);
        } else {
            assert(categories[found.1].id != restaurants[k].category_id);
        }
    }
}

/// Where no two categories have the same name and no two restaurants have
/// the same name, the listing does not depend on the order in which the
/// categories and the restaurants are given.
pub proof fn lemma_directory_ignores_order(
    categories: Seq<Category>,
    restaurants: Seq<Restaurant>,
    other_categories: Seq<Category>,
    other_restaurants: Seq<Restaurant>,
)
    requires
        distinct_names(categories),
        distinct_names(restaurants),
        categories.to_multiset() == other_categories.to_multiset(),
        restaurants.to_multiset() == other_restaurants.to_multiset(),
    ensures
        directory(categories, restaurants) == directory(other_categories, other_restaurants),
{
    lemma_stable_sorted_ignores_order(categories, other_categories);
    lemma_stable_sorted_ignores_order(restaurants, other_restaurants);
}

/// Two different positions of a sorted sequence hold items from two
/// different positions of the sequence that was sorted.
proof fn lemma_distinct_places<T: Named>(s: Seq<T>, places: Seq<int>, a: int, b: int)
    requires
        crate::sorting::is_stable_sort_of(stable_sorted(s), places, s),
        0 <= a < s.len(),
        0 <= b < s.len(),
        a != b,
    ensures
        places[a] != places[b],
{
    if a < b {
        assert(places[a] != places[b]);
    } else {
        assert(places[b] != places[a]);
    }
}

/// Produces the listing of the directory from the two stores.
pub struct CategoryAggregator {
    category_repository: Arc<CategoryRepository>,
    restaurant_repository: Arc<RestaurantRepository>,
}

impl CategoryAggregator {
    /// The store of categories that the aggregator reads.
    pub closed spec fn categories(&self) -> CategoryRepository {
        *self.category_repository
    }

    /// The store of restaurants that the aggregator reads.
    pub closed spec fn restaurants(&self) -> RestaurantRepository {
        *self.restaurant_repository
    }

    /// The listing that `aggregate` returns.
    pub open spec fn listing(&self) -> Seq<CategoriesWithRestaurantsView> {
        directory(self.categories().enumeration(), self.restaurants().enumeration())
    }

    /// An aggregator over the two stores.
    pub fn new(
        category_repository: Arc<CategoryRepository>,
        restaurant_repository: Arc<RestaurantRepository>,
    ) -> (aggregator: Self)
        ensures
            aggregator.categories() == *category_repository,
            aggregator.restaurants() == *restaurant_repository,
    {
        CategoryAggregator { category_repository, restaurant_repository }
    }

    /// The listing of the directory: every category of the store in display
    /// order, each with the restaurants of the store that belong to it, in
    /// display order.
    pub fn aggregate(&self) -> (listing: Vec<CategoriesWithRestaurants>)
        ensures
            listing_views(listing@) == self.listing(),
            listing@.len() == self.categories().enumeration().len(),
            listing@.len() == self.categories()@.len(),
            self.categories().each_once(),
            self.restaurants().each_once(),
    {
        let categories = self.category_repository.get_all();
        let restaurants = self.restaurant_repository.get_all();
        group_by_category(categories, restaurants)
    }
}

impl CategoryAggregator {
    /// Asked again of the same aggregator, `aggregate` gives the same
    /// listing: whatever two calls return shows the same values.
    pub proof fn lemma_aggregate_repeatable(
        &self,
        first: Seq<CategoriesWithRestaurants>,
        second: Seq<CategoriesWithRestaurants>,
    )
        requires
            listing_views(first) == self.listing(),
            listing_views(second) == self.listing(),
        ensures
            listing_views(first) == listing_views(second),
    {
    }

    /// Where no two categories of the store have the same name, nor two
    /// restaurants, the listing depends on what the two stores hold alone, not
    /// on the order in which they hand it out: another aggregator over stores
    /// of the same mappings gives the same listing.
    pub proof fn lemma_listing_of_catalog(&self, other: &CategoryAggregator)
        requires
            self.categories().each_once(),
            self.restaurants().each_once(),
            other.categories().each_once(),
            other.restaurants().each_once(),
            self.categories()@ == other.categories()@,
            self.restaurants()@ == other.restaurants()@,
            distinct_names(self.categories().enumeration()),
            distinct_names(self.restaurants().enumeration()),
        ensures
            self.listing() == other.listing(),
    {
        lemma_listings_agree(
            self.categories().entries(),
            other.categories().entries(),
            self.categories()@,
        );
        lemma_listings_agree(
            self.restaurants().entries(),
            other.restaurants().entries(),
            self.restaurants()@,
        );
        lemma_directory_ignores_order(
            self.categories().enumeration(),
            self.restaurants().enumeration(),
            other.categories().enumeration(),
            other.restaurants().enumeration(),
        );
    }

    /// A category of the store whose name no other category of the store has
    /// is named by exactly one entry of the listing.
    pub proof fn lemma_stored_category_listed_once(&self, key: u128) -> (i: int)
        requires
            self.categories().each_once(),
            self.categories()@.contains_key(key),
            forall|other: u128|
                #![trigger self.categories()@.contains_key(other)]
                self.categories()@.contains_key(other) && other != key
                    ==> self.categories()@[other].name@ != self.categories()@[key].name@,
        ensures
            0 <= i < self.listing().len(),
            self.listing()[i].category_name == self.categories()@[key].name@,
            forall|j: int|
                0 <= j < self.listing().len() && (#[trigger] self.listing()[j]).category_name
                    == self.categories()@[key].name@ ==> j == i,
    {
        let store = self.categories();
        let k = lemma_position_of(store.entries(), store@, key);
        assert forall|m: int| 0 <= m < store.enumeration().len() && m != k implies (
        #[trigger] store.enumeration()[m]).name@ != store.enumeration()[k].name@ by {
            lemma_entry_at(store.entries(), store@, m);
            if m < k {
                assert(store.entries()[m].0 != store.entries()[k].0);
            } else {
                assert(store.entries()[k].0 != store.entries()[m].0);
            }
        }
        lemma_category_listed_once(store.enumeration(), self.restaurants().enumeration(), k)
    }

    /// A category of the store to which no restaurant of the store belongs
    /// still has its entry in the listing, with no restaurants in it.
    pub proof fn lemma_stored_category_without_restaurants(&self, key: u128) -> (i: int)
        requires
            self.categories().each_once(),
            self.restaurants().each_once(),
            self.categories()@.contains_key(key),
            forall|other: u128|
                #![trigger self.restaurants()@.contains_key(other)]
                self.restaurants()@.contains_key(other) ==> self.restaurants()@[other].category_id
                    != self.categories()@[key].id,
        ensures
            0 <= i < self.listing().len(),
            self.listing()[i] == (CategoriesWithRestaurantsView {
                category_name: self.categories()@[key].name@,
                restaurants: Seq::empty(),
            }),
    {
        let categories = self.categories();
        let restaurants = self.restaurants();
        let k = lemma_position_of(categories.entries(), categories@, key);
        assert forall|m: int| 0 <= m < restaurants.enumeration().len() implies (
        #[trigger] restaurants.enumeration()[m]).category_id != categories.enumeration()[k].id by {
            lemma_entry_at(restaurants.entries(), restaurants@, m);
        }
        lemma_category_without_restaurants(categories.enumeration(), restaurants.enumeration(), k)
    }

    /// Where every entity stands under its own identifier, a restaurant of
    /// the store whose category is stored stands at exactly one place of the
    /// listing: in the entry of its category, shown by its identifier and
    /// name.
    pub proof fn lemma_stored_restaurant_listed_once(&self, key: u128) -> (place: (int, int))
        requires
            self.categories().each_once(),
            self.restaurants().each_once(),
            categories_keyed_by_id(self.categories()@),
            restaurants_keyed_by_id(self.restaurants()@),
            self.restaurants()@.contains_key(key),
            self.categories()@.contains_key(self.restaurants()@[key].category_id.value()),
        ensures
            0 <= place.0 < self.listing().len(),
            0 <= place.1 < self.listing()[place.0].restaurants.len(),
            self.listing()[place.0].category_name
                == self.categories()@[self.restaurants()@[key].category_id.value()].name@,
            self.listing()[place.0].restaurants[place.1] == summary(self.restaurants()@[key]),
            forall|i: int, j: int|
                0 <= i < self.listing().len() && 0 <= j < self.listing()[i].restaurants.len() && (
                #[trigger] self.listing()[i].restaurants[j]).restaurant_id
                    == self.restaurants()@[key].id ==> i == place.0 && j == place.1,
    {
        let categories = self.categories();
        let restaurants = self.restaurants();
        let k = lemma_position_of(restaurants.entries(), restaurants@, key);
        let c = lemma_position_of(
            categories.entries(),
            categories@,
            restaurants@[key].category_id.value(),
        );
        lemma_distinct_category_ids(categories.entries(), categories@);
        lemma_distinct_restaurant_ids(restaurants.entries(), restaurants@);
        CategoryId::lemma_value_injective(
            restaurants.enumeration()[k].category_id,
            categories.enumeration()[c].id,
        );
        lemma_restaurant_listed_once(categories.enumeration(), restaurants.enumeration(), k, c)
    }
}

impl Clone for CategoryAggregator {
    fn clone(&self) -> (copy: Self)
        ensures
            copy == *self,
    {
        CategoryAggregator {
            category_repository: self.category_repository.clone(),
            restaurant_repository: self.restaurant_repository.clone(),
        }
    }
}

} // verus!
