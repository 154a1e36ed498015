//! The catalog that the directory starts with.

use crate::model::{
    is_random_uuid, url_serialization, Category, CategoryId, CategoryView, Restaurant,
    RestaurantId, RestaurantView, WebsiteUrl,
};
use crate::repository::sound_catalog;
use std::collections::HashMap;
use vstd::prelude::*;

verus! {

broadcast use vstd::std_specs::hash::group_hash_axioms;

/// The name of the category at place `i` of the starting catalog; there are
/// ten, at the places 0 to 9.
pub open spec fn starting_category_name(i: int) -> Seq<char> {
    if i == 0 {
        "Ice Cream"@
    } else if i == 1 {
        "Baked Goods"@
    } else if i == 2 {
        "Chocolates"@
    } else if i == 3 {
        "Steak"@
    } else if i == 4 {
        "Pizza"@
    } else if i == 5 {
        "Italian Restaurants"@
    } else if i == 6 {
        "Japanese Restaurants"@
    } else if i == 7 {
        "Coffee"@
    } else if i == 8 {
        "Brunch"@
    } else {
        "Other fave restaurants"@
    }
}

/// A restaurant of the starting catalog: the place of its category, its
/// name, and the text of its website.
pub struct StartingRestaurant {
    pub category: int,
    pub name: Seq<char>,
    pub website: Seq<char>,
}

/// The restaurant at place `k` of the starting catalog; there are thirty-six,
/// at the places 0 to 35.
pub open spec fn starting_restaurant(k: int) -> StartingRestaurant {
    if k == 0 {
        StartingRestaurant {
            category: 0,
            name: "Oddono's"@,
            website: "http://www.oddonos.com"@,
        }
    } else if k == 1 {
        StartingRestaurant {
            category: 0,
            name: "Bilmonte"@,
            website: "https://www.bilmonte.it"@,
        }
    } else if k == 2 {
        StartingRestaurant {
            category: 1,
            name: "Crosstown"@,
            website: "https://www.crosstown.co.uk"@,
        }
    } else if k == 3 {
        StartingRestaurant {
            category: 1,
            name: "Crumbs and Doilies"@,
            website: "https://www.crumbsanddoilies.co.uk"@,
        }
    } else if k == 4 {
        StartingRestaurant {
            category: 1,
            name: "Buns From Home"@,
            website: "https://www.bunsfromhome.com"@,
        }
    } else if k == 5 {
        StartingRestaurant {
            category: 1,
            name: "Ole & Steen"@,
            website: "https://oleandsteen.co.uk"@,
        }
    } else if k == 6 {
        StartingRestaurant {
            category: 2,
            name: "XO Chocolate"@,
            website: "https://www.xochocolate.co.uk"@,
        }
    } else if k == 7 {
        StartingRestaurant {
            category: 2,
            name: "Laderach"@,
            website: "https://laderach.com/uk-en/"@,
        }
    } else if k == 8 {
        StartingRestaurant {
            category: 3,
            name: "Blacklock"@,
            website: "https://www.theblacklock.com"@,
        }
    } else if k == 9 {
        StartingRestaurant {
            category: 3,
            name: "Flat Iron"@,
            website: "https://flatironsteak.co.uk"@,
        }
    } else if k == 10 {
        StartingRestaurant {
            category: 3,
            name: "The Heliot"@,
            website: "https://www.hippodromecasino.com/restaurant-bars-lounges/"@,
        }
    } else if k == 11 {
        StartingRestaurant {
            category: 4,
            name: "Yard Sale Pizza"@,
            website: "https://yardsalepizza.com"@,
        }
    } else if k == 12 {
        StartingRestaurant {
            category: 4,
            name: "Pizza Pilgrims"@,
            website: "https://pizzapilgrims.co.uk"@,
        }
    } else if k == 13 {
        StartingRestaurant {
            category: 4,
            name: "World Famous Gordos"@,
            website: "https://www.instagram.com/worldfamousgordos"@,
        }
    } else if k == 14 {
        StartingRestaurant {
            category: 4,
            name: "Alley Cats Pizza"@,
            website: "https://www.alleycatspizza.co.uk"@,
        }
    } else if k == 15 {
        StartingRestaurant {
            category: 5,
            name: "Bancone"@,
            website: "https://www.bancone.co.uk"@,
        }
    } else if k == 16 {
        StartingRestaurant {
            category: 5,
            name: "Padella"@,
            website: "https://www.padella.co"@,
        }
    } else if k == 17 {
        StartingRestaurant {
            category: 5,
            name: "Circolo Popolaire"@,
            website: "https://www.bigmammagroup.com/en/trattorias/circolo-popolare"@,
        }
    } else if k == 18 {
        StartingRestaurant {
            category: 5,
            name: "Gloria"@,
            website: "https://www.bigmammagroup.com/en/trattorias/gloria"@,
        }
    } else if k == 19 {
        StartingRestaurant {
            category: 5,
            name: "Ave Mario"@,
            website: "https://www.bigmammagroup.com/en/trattorias/ave-mario"@,
        }
    } else if k == 20 {
        StartingRestaurant {
            category: 5,
            name: "Luca"@,
            website: "https://luca.restaurant"@,
        }
    } else if k == 21 {
        StartingRestaurant {
            category: 6,
            name: "Zaibatsu"@,
            website: "https://www.zaibatsufusion.co.uk"@,
        }
    } else if k == 22 {
        StartingRestaurant {
            category: 6,
            name: "Sticks 'n' Sushi"@,
            website: "https://sticksnsushi.com/en"@,
        }
    } else if k == 23 {
        StartingRestaurant {
            category: 6,
            name: "Kulu Kulu"@,
            website: "https://www.kulukulusushi.com"@,
        }
    } else if k == 24 {
        StartingRestaurant {
            category: 6,
            name: "Maki Yaki"@,
            website: "https://makiyakiepsom.com"@,
        }
    } else if k == 25 {
        StartingRestaurant {
            category: 6,
            name: "Kintan Japanese BBQ"@,
            website: "https://kintan.uk"@,
        }
    } else if k == 26 {
        StartingRestaurant {
            category: 6,
            name: "Kampai Sushi"@,
            website: "https://www.kampaisushi.co.uk"@,
        }
    } else if k == 27 {
        StartingRestaurant {
            category: 7,
            name: "Formative"@,
            website: "https://formative.coffee"@,
        }
    } else if k == 28 {
        StartingRestaurant {
            category: 7,
            name: "Nostos"@,
            website: "https://nostoscoffee.co.uk"@,
        }
    } else if k == 29 {
        StartingRestaurant {
            category: 8,
            name: "Julliet's"@,
            website: "https://o-juliets.arch2order.com/menu/juliets"@,
        }
    } else if k == 30 {
        StartingRestaurant {
            category: 8,
            name: "DropShot Coffee"@,
            website: "https://www.dropshotcoffee.co.uk"@,
        }
    } else if k == 31 {
        StartingRestaurant {
            category: 8,
            name: "Utter Waffle"@,
            website: "https://utterwaffle.co.uk"@,
        }
    } else if k == 32 {
        StartingRestaurant {
            category: 9,
            name: "Roti King"@,
            website: "https://www.rotiking.com"@,
        }
    } else if k == 33 {
        StartingRestaurant {
            category: 9,
            name: "Dishoom"@,
            website: "https://www.dishoom.com"@,
        }
    } else if k == 34 {
        StartingRestaurant {
            category: 9,
            name: "Golden Union"@,
            website: "https://goldenunion.co.uk"@,
        }
    } else {
        StartingRestaurant {
            category: 9,
            name: "Darjeeling Express"@,
            website: "https://www.darjeeling-express.com"@,
        }
    }
}

/// The place of the first restaurant of the category at place `i`: the
/// restaurants of a category stand together, at the places from this one up
/// to the first of the next category.
pub open spec fn first_restaurant_of(i: int) -> int {
    if i == 0 {
        0
    } else if i == 1 {
        2
    } else if i == 2 {
        6
    } else if i == 3 {
        8
    } else if i == 4 {
        11
    } else if i == 5 {
        15
    } else if i == 6 {
        21
    } else if i == 7 {
        27
    } else if i == 8 {
        29
    } else if i == 9 {
        32
    } else {
        36
    }
}

/// The websites of the restaurants before place `n` all parse.
pub open spec fn websites_parse_before(n: int) -> bool {
    forall|k: int| 0 <= k < n ==> url_serialization((#[trigger] starting_restaurant(k)).website) is Some
}

/// Every website of the starting catalog parses.
pub open spec fn websites_parse() -> bool {
    websites_parse_before(36)
}

/// The values of the categories of a mapping, under the same keys.
pub open spec fn category_views(categories: Map<u128, Category>) -> Map<u128, CategoryView> {
    categories.map_values(|category: Category| category@)
}

/// The values of the restaurants of a mapping, under the same keys.
pub open spec fn restaurant_views(restaurants: Map<u128, Restaurant>) -> Map<
    u128,
    RestaurantView,
> {
    restaurants.map_values(|restaurant: Restaurant| restaurant@)
}

/// The category at place `i` of the starting catalog, under the identifier
/// at that place.
pub open spec fn category_at(ids: Seq<CategoryId>, i: int) -> CategoryView {
    CategoryView { id: ids[i], name: starting_category_name(i) }
}

/// The restaurant at place `k` of the starting catalog, under the identifier
/// at that place: it belongs to the category whose identifier stands at the
/// place of its category, has the website that its text parses to, and no
/// source.
pub open spec fn restaurant_at(
    category_ids: Seq<CategoryId>,
    restaurant_ids: Seq<RestaurantId>,
    k: int,
) -> RestaurantView {
    RestaurantView {
        id: restaurant_ids[k],
        name: starting_restaurant(k).name,
        category_id: category_ids[starting_restaurant(k).category],
        website_url: url_serialization(starting_restaurant(k).website)->Some_0,
        source: None,
    }
}

/// The categories before place `n`, put into a mapping one after the other,
/// each under the bits of its identifier.
pub open spec fn categories_before(ids: Seq<CategoryId>, n: int) -> Map<u128, CategoryView>
    decreases n,
{
    if n <= 0 {
        Map::empty()
    } else {
        categories_before(ids, n - 1).insert(ids[n - 1].value(), category_at(ids, n - 1))
    }
}

/// The restaurants before place `n`, put into a mapping one after the other,
/// each under the bits of its identifier.
pub open spec fn restaurants_before(
    category_ids: Seq<CategoryId>,
    restaurant_ids: Seq<RestaurantId>,
    n: int,
) -> Map<u128, RestaurantView>
    decreases n,
{
    if n <= 0 {
        Map::empty()
    } else {
        restaurants_before(category_ids, restaurant_ids, n - 1).insert(
            restaurant_ids[n - 1].value(),
            restaurant_at(category_ids, restaurant_ids, n - 1),
        )
    }
}

/// The ten categories of the starting catalog under the given identifiers.
pub open spec fn starting_categories(ids: Seq<CategoryId>) -> Map<u128, CategoryView> {
    categories_before(ids, 10)
}

/// The thirty-six restaurants of the starting catalog under the given
/// identifiers.
pub open spec fn starting_restaurants(
    category_ids: Seq<CategoryId>,
    restaurant_ids: Seq<RestaurantId>,
) -> Map<u128, RestaurantView> {
    restaurants_before(category_ids, restaurant_ids, 36)
}

/// The two mappings are the starting catalog under the given identifiers,
/// ten for the categories and thirty-six for the restaurants.
pub open spec fn is_starting_catalog(
    categories: Map<u128, Category>,
    restaurants: Map<u128, Restaurant>,
    category_ids: Seq<CategoryId>,
    restaurant_ids: Seq<RestaurantId>,
) -> bool {
    &&& category_ids.len() == 10
    &&& restaurant_ids.len() == 36
    &&& category_views(categories) == starting_categories(category_ids)
    &&& restaurant_views(restaurants) == starting_restaurants(category_ids, restaurant_ids)
}

/// No two of the identifiers are the same.
pub open spec fn distinct_categories(ids: Seq<CategoryId>) -> bool {
    forall|i: int, j: int| 0 <= i < j < ids.len() ==> #[trigger] ids[i] != #[trigger] ids[j]
}

/// No two of the identifiers are the same.
pub open spec fn distinct_restaurants(ids: Seq<RestaurantId>) -> bool {
    forall|i: int, j: int| 0 <= i < j < ids.len() ==> #[trigger] ids[i] != #[trigger] ids[j]
}

/// Puts the category into the mapping, under the bits of its own identifier;
/// a category that stood there before gives way.
pub fn add_category(categories: &mut HashMap<u128, Category>, category: Category) -> (id:
    CategoryId)
    ensures
        id == category.id,
        final(categories)@ == old(categories)@.insert(category.id.value(), category),
{
    let id = category.id;
    categories.insert(id.as_u128(), category);
    id
}

/// Puts the restaurant into the mapping, under the bits of its own
/// identifier; a restaurant that stood there before gives way.
pub fn add_restaurant(restaurants: &mut HashMap<u128, Restaurant>, restaurant: Restaurant)
    ensures
        final(restaurants)@ == old(restaurants)@.insert(restaurant.id.value(), restaurant),
{
    let key = restaurant.id.as_u128();
    restaurants.insert(key, restaurant);
}

/// Adds the category at place `i`.
fn put_category(
    categories: &mut HashMap<u128, Category>,
    ids: &[CategoryId; 10],
    i: usize,
    name: &str,
)
    requires
        i < 10,
        name@ == starting_category_name(i as int),
        category_views(old(categories)@) == categories_before(ids@, i as int),
    ensures
        category_views(final(categories)@) == categories_before(ids@, i + 1),
{
    let category = Category { id: ids[i], name: name.to_owned() };
    let ghost added = category@;
    add_category(categories, category);
    assert(category_views(categories@) =~= category_views(old(categories)@).insert(
        ids@[i as int].value(),
        added,
    ));
}

/// Adds the restaurant at place `k`, if the websites before it all parsed
/// and its own parses; says whether they all did.
fn put_restaurant(
    restaurants: &mut HashMap<u128, Restaurant>,
    complete: bool,
    category_ids: &[CategoryId; 10],
    restaurant_ids: &[RestaurantId; 36],
    k: usize,
    category: usize,
    name: &str,
    website: &str,
) -> (still: bool)
    requires
        k < 36,
        category < 10,
        starting_restaurant(k as int) == (StartingRestaurant {
            category: category as int,
            name: name@,
            website: website@,
        }),
        complete <==> websites_parse_before(k as int),
        complete ==> restaurant_views(old(restaurants)@) == restaurants_before(
            category_ids@,
            restaurant_ids@,
            k as int,
        ),
    ensures
        still <==> websites_parse_before(k + 1),
        still ==> restaurant_views(final(restaurants)@) == restaurants_before(
            category_ids@,
            restaurant_ids@,
            k + 1,
        ),
{
    match WebsiteUrl::parse(website) {
        Some(website_url) => {
            if complete {
                let restaurant = Restaurant {
                    id: restaurant_ids[k],
                    name: name.to_owned(),
                    category_id: category_ids[category],
                    website_url,
                    source: None,
                };
                let ghost added = restaurant@;
                add_restaurant(restaurants, restaurant);
                assert(restaurant_views(restaurants@) =~= restaurant_views(
                    old(restaurants)@,
                ).insert(restaurant_ids@[k as int].value(), added));
            }
            complete
        },
        None => false,
    }
}

/// The starting catalog under the given identifiers: the ten categories and
/// the thirty-six restaurants, put into the two mappings one after the
/// other, each under its identifier. It is there exactly when every website
/// parses.
pub fn starting_catalog(
    category_ids: [CategoryId; 10],
    restaurant_ids: [RestaurantId; 36],
) -> (catalog: Option<(HashMap<u128, Category>, HashMap<u128, Restaurant>)>)
    ensures
        catalog is Some <==> websites_parse(),
        catalog matches Some((categories, restaurants)) ==> {
            &&& is_starting_catalog(categories@, restaurants@, category_ids@, restaurant_ids@)
            &&& sound_catalog(categories@, restaurants@)
        },
{
    let mut categories: HashMap<u128, Category> = HashMap::new();
    let mut restaurants: HashMap<u128, Restaurant> = HashMap::new();
    let mut complete = true;
    proof {
        assert(category_views(categories@) =~= categories_before(category_ids@, 0));
        assert(restaurant_views(restaurants@) =~= restaurants_before(
            category_ids@,
            restaurant_ids@,
            0,
        ));
    }

    put_category(&mut categories, &category_ids, 0, "Ice Cream");
    put_category(&mut categories, &category_ids, 1, "Baked Goods");
    put_category(&mut categories, &category_ids, 2, "Chocolates");
    put_category(&mut categories, &category_ids, 3, "Steak");
    put_category(&mut categories, &category_ids, 4, "Pizza");
    put_category(&mut categories, &category_ids, 5, "Italian Restaurants");
    put_category(&mut categories, &category_ids, 6, "Japanese Restaurants");
    put_category(&mut categories, &category_ids, 7, "Coffee");
    put_category(&mut categories, &category_ids, 8, "Brunch");
    put_category(&mut categories, &category_ids, 9, "Other fave restaurants");

    complete = put_restaurant(
        &mut restaurants,
        complete,
        &category_ids,
        &restaurant_ids,
        0,
        0,
        "Oddono's",
        "http://www.oddonos.com",
    );
    complete = put_restaurant(
        &mut restaurants,
        complete,
        &category_ids,
        &restaurant_ids,
        1,
        0,
        "Bilmonte",
        "https://www.bilmonte.it",
    );
    complete = put_restaurant(
        &mut restaurants,
        complete,
        &category_ids,
        &restaurant_ids,
        2,
        1,
        "Crosstown",
        "https://www.crosstown.co.uk",
    );
    complete = put_restaurant(
        &mut restaurants,
        complete,
        &category_ids,
        &restaurant_ids,
        3,
        1,
        "Crumbs and Doilies",
        "https://www.crumbsanddoilies.co.uk",
    );
    complete = put_restaurant(
        &mut restaurants,
        complete,
        &category_ids,
        &restaurant_ids,
        4,
        1,
        "Buns From Home",
        "https://www.bunsfromhome.com",
    );
    complete = put_restaurant(
        &mut restaurants,
        complete,
        &category_ids,
        &restaurant_ids,
        5,
        1,
        "Ole & Steen",
        "https://oleandsteen.co.uk",
    );
    complete = put_restaurant(
        &mut restaurants,
        complete,
        &category_ids,
        &restaurant_ids,
        6,
        2,
        "XO Chocolate",
        "https://www.xochocolate.co.uk",
    );
    complete = put_restaurant(
        &mut restaurants,
        complete,
        &category_ids,
        &restaurant_ids,
        7,
        2,
        "Laderach",
        "https://laderach.com/uk-en/",
    );
    complete = put_restaurant(
        &mut restaurants,
        complete,
        &category_ids,
        &restaurant_ids,
        8,
        3,
        "Blacklock",
        "https://www.theblacklock.com",
    );
    complete = put_restaurant(
        &mut restaurants,
        complete,
        &category_ids,
        &restaurant_ids,
        9,
        3,
        "Flat Iron",
        "https://flatironsteak.co.uk",
    );
    complete = put_restaurant(
        &mut restaurants,
        complete,
        &category_ids,
        &restaurant_ids,
        10,
        3,
        "The Heliot",
        "https://www.hippodromecasino.com/restaurant-bars-lounges/",
    );
    complete = put_restaurant(
        &mut restaurants,
        complete,
        &category_ids,
        &restaurant_ids,
        11,
        4,
        "Yard Sale Pizza",
        "https://yardsalepizza.com",
    );
    complete = put_restaurant(
        &mut restaurants,
        complete,
        &category_ids,
        &restaurant_ids,
        12,
        4,
        "Pizza Pilgrims",
        "https://pizzapilgrims.co.uk",
    );
    complete = put_restaurant(
        &mut restaurants,
        complete,
        &category_ids,
        &restaurant_ids,
        13,
        4,
        "World Famous Gordos",
        "https://www.instagram.com/worldfamousgordos",
    );
    complete = put_restaurant(
        &mut restaurants,
        complete,
        &category_ids,
        &restaurant_ids,
        14,
        4,
        "Alley Cats Pizza",
        "https://www.alleycatspizza.co.uk",
    );
    complete = put_restaurant(
        &mut restaurants,
        complete,
        &category_ids,
        &restaurant_ids,
        15,
        5,
        "Bancone",
        "https://www.bancone.co.uk",
    );
    complete = put_restaurant(
        &mut restaurants,
        complete,
        &category_ids,
        &restaurant_ids,
        16,
        5,
        "Padella",
        "https://www.padella.co",
    );
    complete = put_restaurant(
        &mut restaurants,
        complete,
        &category_ids,
        &restaurant_ids,
        17,
        5,
        "Circolo Popolaire",
        "https://www.bigmammagroup.com/en/trattorias/circolo-popolare",
    );
    complete = put_restaurant(
        &mut restaurants,
        complete,
        &category_ids,
        &restaurant_ids,
        18,
        5,
        "Gloria",
        "https://www.bigmammagroup.com/en/trattorias/gloria",
    );
    complete = put_restaurant(
        &mut restaurants,
        complete,
        &category_ids,
        &restaurant_ids,
        19,
        5,
        "Ave Mario",
        "https://www.bigmammagroup.com/en/trattorias/ave-mario",
    );
    complete = put_restaurant(
        &mut restaurants,
        complete,
        &category_ids,
        &restaurant_ids,
        20,
        5,
        "Luca",
        "https://luca.restaurant",
    );
    complete = put_restaurant(
        &mut restaurants,
        complete,
        &category_ids,
        &restaurant_ids,
        21,
        6,
        "Zaibatsu",
        "https://www.zaibatsufusion.co.uk",
    );
    complete = put_restaurant(
        &mut restaurants,
        complete,
        &category_ids,
        &restaurant_ids,
        22,
        6,
        "Sticks 'n' Sushi",
        "https://sticksnsushi.com/en",
    );
    complete = put_restaurant(
        &mut restaurants,
        complete,
        &category_ids,
        &restaurant_ids,
        23,
        6,
        "Kulu Kulu",
        "https://www.kulukulusushi.com",
    );
    complete = put_restaurant(
        &mut restaurants,
        complete,
        &category_ids,
        &restaurant_ids,
        24,
        6,
        "Maki Yaki",
        "https://makiyakiepsom.com",
    );
    complete = put_restaurant(
        &mut restaurants,
        complete,
        &category_ids,
        &restaurant_ids,
        25,
        6,
        "Kintan Japanese BBQ",
        "https://kintan.uk",
    );
    complete = put_restaurant(
        &mut restaurants,
        complete,
        &category_ids,
        &restaurant_ids,
        26,
        6,
        "Kampai Sushi",
        "https://www.kampaisushi.co.uk",
    );
    complete = put_restaurant(
        &mut restaurants,
        complete,
        &category_ids,
        &restaurant_ids,
        27,
        7,
        "Formative",
        "https://formative.coffee",
    );
    complete = put_restaurant(
        &mut restaurants,
        complete,
        &category_ids,
        &restaurant_ids,
        28,
        7,
        "Nostos",
        "https://nostoscoffee.co.uk",
    );
    complete = put_restaurant(
        &mut restaurants,
        complete,
        &category_ids,
        &restaurant_ids,
        29,
        8,
        "Julliet's",
        "https://o-juliets.arch2order.com/menu/juliets",
    );
    complete = put_restaurant(
        &mut restaurants,
        complete,
        &category_ids,
        &restaurant_ids,
        30,
        8,
        "DropShot Coffee",
        "https://www.dropshotcoffee.co.uk",
    );
    complete = put_restaurant(
        &mut restaurants,
        complete,
        &category_ids,
        &restaurant_ids,
        31,
        8,
        "Utter Waffle",
        "https://utterwaffle.co.uk",
    );
    complete = put_restaurant(
        &mut restaurants,
        complete,
        &category_ids,
        &restaurant_ids,
        32,
        9,
        "Roti King",
        "https://www.rotiking.com",
    );
    complete = put_restaurant(
        &mut restaurants,
        complete,
        &category_ids,
        &restaurant_ids,
        33,
        9,
        "Dishoom",
        "https://www.dishoom.com",
    );
    complete = put_restaurant(
        &mut restaurants,
        complete,
        &category_ids,
        &restaurant_ids,
        34,
        9,
        "Golden Union",
        "https://goldenunion.co.uk",
    );
    complete = put_restaurant(
        &mut restaurants,
        complete,
        &category_ids,
        &restaurant_ids,
        35,
        9,
        "Darjeeling Express",
        "https://www.darjeeling-express.com",
    );

    if complete {
        proof {
            lemma_starting_catalog_sound(
                categories@,
                restaurants@,
                category_ids@,
                restaurant_ids@,
            );
        }
        Some((categories, restaurants))
    } else {
        None
    }
}

/// The catalog that the directory starts with: the starting catalog under
/// identifiers drawn afresh, ten for the categories and thirty-six for the
/// restaurants. It is there exactly when every website parses.
pub fn generate_data() -> (catalog: Option<
    (HashMap<u128, Category>, HashMap<u128, Restaurant>),
>)
    ensures
        catalog is Some <==> websites_parse(),
        catalog matches Some((categories, restaurants)) ==> {
            &&& sound_catalog(categories@, restaurants@)
            &&& exists|category_ids: Seq<CategoryId>, restaurant_ids: Seq<RestaurantId>|
                {
                    &&& #[trigger] is_starting_catalog(
                        categories@,
                        restaurants@,
                        category_ids,
                        restaurant_ids,
                    )
                    &&& forall|i: int|
                        0 <= i < 10 ==> is_random_uuid((#[trigger] category_ids[i]).value())
                    &&& forall|k: int|
                        0 <= k < 36 ==> is_random_uuid((#[trigger] restaurant_ids[k]).value())
                }
        },
{
    let category_ids = [
        CategoryId::new(),
        CategoryId::new(),
        CategoryId::new(),
        CategoryId::new(),
        CategoryId::new(),
        CategoryId::new(),
        CategoryId::new(),
        CategoryId::new(),
        CategoryId::new(),
        CategoryId::new(),
    ];
    let restaurant_ids = [
        RestaurantId::new(),
        RestaurantId::new(),
        RestaurantId::new(),
        RestaurantId::new(),
        RestaurantId::new(),
        RestaurantId::new(),
        RestaurantId::new(),
        RestaurantId::new(),
        RestaurantId::new(),
        RestaurantId::new(),
        RestaurantId::new(),
        RestaurantId::new(),
        RestaurantId::new(),
        RestaurantId::new(),
        RestaurantId::new(),
        RestaurantId::new(),
        RestaurantId::new(),
        RestaurantId::new(),
        RestaurantId::new(),
        RestaurantId::new(),
        RestaurantId::new(),
        RestaurantId::new(),
        RestaurantId::new(),
        RestaurantId::new(),
        RestaurantId::new(),
        RestaurantId::new(),
        RestaurantId::new(),
        RestaurantId::new(),
        RestaurantId::new(),
        RestaurantId::new(),
        RestaurantId::new(),
        RestaurantId::new(),
        RestaurantId::new(),
        RestaurantId::new(),
        RestaurantId::new(),
        RestaurantId::new(),
    ];
    starting_catalog(category_ids, restaurant_ids)
}

/// Every restaurant of the starting catalog belongs to one of its ten
/// categories, and the restaurants of a category stand together.
pub proof fn lemma_restaurants_of_category(k: int)
    requires
        0 <= k < 36,
    ensures
        0 <= starting_restaurant(k).category < 10,
        first_restaurant_of(starting_restaurant(k).category) <= k < first_restaurant_of(
            starting_restaurant(k).category + 1,
        ),
{
}

/// The ten categories of the starting catalog have ten different names.
pub proof fn lemma_category_names_distinct(i: int, j: int)
    requires
        0 <= i < j < 10,
    ensures
        starting_category_name(i) != starting_category_name(j),
{
    reveal_strlit("Ice Cream");
    reveal_strlit("Baked Goods");
    reveal_strlit("Chocolates");
    reveal_strlit("Steak");
    reveal_strlit("Pizza");
    reveal_strlit("Italian Restaurants");
    reveal_strlit("Japanese Restaurants");
    reveal_strlit("Coffee");
    reveal_strlit("Brunch");
    reveal_strlit("Other fave restaurants");
    assert(starting_category_name(0).len() == 9 && starting_category_name(0)[0] == 'I');
    assert(starting_category_name(1).len() == 11 && starting_category_name(1)[0] == 'B');
    assert(starting_category_name(2).len() == 10 && starting_category_name(2)[0] == 'C');
    assert(starting_category_name(3).len() == 5 && starting_category_name(3)[0] == 'S');
    assert(starting_category_name(4).len() == 5 && starting_category_name(4)[0] == 'P');
    assert(starting_category_name(5).len() == 19 && starting_category_name(5)[0] == 'I');
    assert(starting_category_name(6).len() == 20 && starting_category_name(6)[0] == 'J');
    assert(starting_category_name(7).len() == 6 && starting_category_name(7)[0] == 'C');
    assert(starting_category_name(8).len() == 6 && starting_category_name(8)[0] == 'B');
    assert(starting_category_name(9).len() == 22 && starting_category_name(9)[0] == 'O');
}

proof fn lemma_categories_before(ids: Seq<CategoryId>, n: int)
    requires
        0 <= n <= ids.len(),
    ensures
        categories_before(ids, n).dom().finite(),
        forall|key: u128| #[trigger]
            categories_before(ids, n).contains_key(key) ==> {
                &&& categories_before(ids, n)[key].id.value() == key
                &&& exists|i: int|
                    0 <= i < n && categories_before(ids, n)[key] == #[trigger] category_at(ids, i)
            },
        forall|i: int| 0 <= i < n ==> categories_before(ids, n).contains_key((#[trigger] ids[i]).value()),
        distinct_categories(ids) ==> {
            &&& categories_before(ids, n).len() == n
            &&& forall|i: int|
                0 <= i < n ==> categories_before(ids, n)[ids[i].value()] == #[trigger] category_at(
                    ids,
                    i,
                )
        },
    decreases n,
{
    if n > 0 {
        lemma_categories_before(ids, n - 1);
        let before = categories_before(ids, n - 1);
        let now = categories_before(ids, n);
        assert forall|key: u128| #[trigger] now.contains_key(key) implies exists|i: int|
            0 <= i < n && now[key] == #[trigger] category_at(ids, i) by {
            if key == ids[n - 1].value() {
                assert(now[key] == category_at(ids, n - 1));
            } else {
                let i = choose|i: int| 0 <= i < n - 1 && before[key] == #[trigger] category_at(ids, i);
                assert(now[key] == category_at(ids, i));
            }
        }
        if distinct_categories(ids) {
            assert(!before.contains_key(ids[n - 1].value())) by {
                if before.contains_key(ids[n - 1].value()) {
                    let i = choose|i: int|
                        0 <= i < n - 1 && before[ids[n - 1].value()] == #[trigger] category_at(ids, i);
                    CategoryId::lemma_value_injective(ids[i], ids[n - 1]);
                    assert(ids[i] != ids[n - 1]);
                }
            }
            assert forall|i: int| 0 <= i < n implies now[ids[i].value()] == #[trigger] category_at(
                ids,
                i,
            ) by {
                if i < n - 1 {
                    CategoryId::lemma_value_injective(ids[i], ids[n - 1]);
                    assert(ids[i] != ids[n - 1]);
                    assert(before[ids[i].value()] == category_at(ids, i));
                }
            }
        }
    }
}

proof fn lemma_restaurants_before(
    category_ids: Seq<CategoryId>,
    restaurant_ids: Seq<RestaurantId>,
    n: int,
)
    requires
        0 <= n <= restaurant_ids.len(),
    ensures
        restaurants_before(category_ids, restaurant_ids, n).dom().finite(),
        forall|key: u128| #[trigger]
            restaurants_before(category_ids, restaurant_ids, n).contains_key(key) ==> {
                &&& restaurants_before(category_ids, restaurant_ids, n)[key].id.value() == key
                &&& exists|k: int|
                    0 <= k < n && restaurants_before(category_ids, restaurant_ids, n)[key]
                        == #[trigger] restaurant_at(category_ids, restaurant_ids, k)
            },
        forall|k: int|
            0 <= k < n ==> restaurants_before(category_ids, restaurant_ids, n).contains_key(
                (#[trigger] restaurant_ids[k]).value(),
            ),
        distinct_restaurants(restaurant_ids) ==> {
            &&& restaurants_before(category_ids, restaurant_ids, n).len() == n
            &&& forall|k: int|
                0 <= k < n ==> restaurants_before(
                    category_ids,
                    restaurant_ids,
                    n,
                )[restaurant_ids[k].value()] == #[trigger] restaurant_at(
                    category_ids,
                    restaurant_ids,
                    k,
                )
        },
    decreases n,
{
    if n > 0 {
        lemma_restaurants_before(category_ids, restaurant_ids, n - 1);
        let before = restaurants_before(category_ids, restaurant_ids, n - 1);
        let now = restaurants_before(category_ids, restaurant_ids, n);
        let last = restaurant_ids[n - 1];
        assert forall|key: u128| #[trigger] now.contains_key(key) implies exists|k: int|
            0 <= k < n && now[key] == #[trigger] restaurant_at(category_ids, restaurant_ids, k) by {
            if key == last.value() {
                assert(now[key] == restaurant_at(category_ids, restaurant_ids, n - 1));
            } else {
                let k = choose|k: int|
                    0 <= k < n - 1 && before[key] == #[trigger] restaurant_at(
                        category_ids,
                        restaurant_ids,
                        k,
                    );
                assert(now[key] == restaurant_at(category_ids, restaurant_ids, k));
            }
        }
        if distinct_restaurants(restaurant_ids) {
            assert(!before.contains_key(last.value())) by {
                if before.contains_key(last.value()) {
                    let k = choose|k: int|
                        0 <= k < n - 1 && before[last.value()] == #[trigger] restaurant_at(
                            category_ids,
                            restaurant_ids,
                            k,
                        );
                    RestaurantId::lemma_value_injective(restaurant_ids[k], last);
                    assert(restaurant_ids[k] != last);
                }
            }
            assert forall|k: int| 0 <= k < n implies now[restaurant_ids[k].value()]
                == #[trigger] restaurant_at(category_ids, restaurant_ids, k) by {
                if k < n - 1 {
                    RestaurantId::lemma_value_injective(restaurant_ids[k], last);
                    assert(restaurant_ids[k] != last);
                    assert(before[restaurant_ids[k].value()] == restaurant_at(
                        category_ids,
                        restaurant_ids,
                        k,
                    ));
                }
            }
        }
    }
}

/// The starting catalog is sound under whatever identifiers: each entity
/// stands under its own identifier, and every restaurant belongs to a
/// category that is there.
pub proof fn lemma_starting_catalog_sound(
    categories: Map<u128, Category>,
    restaurants: Map<u128, Restaurant>,
    category_ids: Seq<CategoryId>,
    restaurant_ids: Seq<RestaurantId>,
)
    requires
        is_starting_catalog(categories, restaurants, category_ids, restaurant_ids),
    ensures
        sound_catalog(categories, restaurants),
{
    lemma_categories_before(category_ids, 10);
    lemma_restaurants_before(category_ids, restaurant_ids, 36);
    let listed = starting_categories(category_ids);
    let shown = starting_restaurants(category_ids, restaurant_ids);
    assert forall|key: u128| #[trigger] categories.contains_key(key) implies categories[key].id.value()
        == key by {
        assert(category_views(categories).contains_key(key));
        assert(category_views(categories)[key] == categories[key]@);
    }
    assert forall|key: u128| #[trigger] restaurants.contains_key(key) implies restaurants[key].id.value()
        == key && categories.contains_key(restaurants[key].category_id.value()) by {
        assert(restaurant_views(restaurants).contains_key(key));
        assert(restaurant_views(restaurants)[key] == restaurants[key]@);
        let k = choose|k: int|
            0 <= k < 36 && shown[key] == #[trigger] restaurant_at(category_ids, restaurant_ids, k);
        lemma_restaurants_of_category(k);
        let c = starting_restaurant(k).category;
        assert(listed.contains_key(category_ids[c].value()));
        assert(category_views(categories).contains_key(category_ids[c].value()));
    }
}

/// Where the identifiers are all different, nothing gives way: the catalog
/// has ten categories and thirty-six restaurants, each of the starting
/// catalog under its own identifier and no others, every restaurant in the
/// category of its place.
pub proof fn lemma_catalog_of_distinct_ids(
    categories: Map<u128, Category>,
    restaurants: Map<u128, Restaurant>,
    category_ids: Seq<CategoryId>,
    restaurant_ids: Seq<RestaurantId>,
)
    requires
        is_starting_catalog(categories, restaurants, category_ids, restaurant_ids),
        distinct_categories(category_ids),
        distinct_restaurants(restaurant_ids),
    ensures
        categories.dom().finite(),
        restaurants.dom().finite(),
        categories.len() == 10,
        restaurants.len() == 36,
        forall|i: int|
            0 <= i < 10 ==> categories.contains_key((#[trigger] category_ids[i]).value())
                && categories[category_ids[i].value()]@ == category_at(category_ids, i),
        forall|k: int|
            0 <= k < 36 ==> restaurants.contains_key((#[trigger] restaurant_ids[k]).value())
                && restaurants[restaurant_ids[k].value()]@ == restaurant_at(
                category_ids,
                restaurant_ids,
                k,
            ),
        forall|key: u128| #[trigger]
            categories.contains_key(key) ==> exists|i: int|
                0 <= i < 10 && key == (#[trigger] category_ids[i]).value(),
        forall|key: u128| #[trigger]
            restaurants.contains_key(key) ==> exists|k: int|
                0 <= k < 36 && key == (#[trigger] restaurant_ids[k]).value(),
        forall|key: u128, other: u128|
            #![trigger categories.contains_key(key), categories.contains_key(other)]
            categories.contains_key(key) && categories.contains_key(other) && key != other
                ==> categories[key].name@ != categories[other].name@,
        forall|k: int, i: int|
            0 <= k < 36 && 0 <= i < 10 ==> (restaurants[(#[trigger] restaurant_ids[k]).value()].category_id
                == #[trigger] category_ids[i] <==> first_restaurant_of(i) <= k
                < first_restaurant_of(i + 1)),
{
    lemma_categories_before(category_ids, 10);
    lemma_restaurants_before(category_ids, restaurant_ids, 36);
    let listed = starting_categories(category_ids);
    let shown = starting_restaurants(category_ids, restaurant_ids);
    assert(categories.dom() =~= listed.dom());
    assert(restaurants.dom() =~= shown.dom());
    assert forall|i: int| 0 <= i < 10 implies categories.contains_key(
        (#[trigger] category_ids[i]).value(),
    ) && categories[category_ids[i].value()]@ == category_at(category_ids, i) by {
        assert(listed.contains_key(category_ids[i].value()));
        assert(category_views(categories)[category_ids[i].value()] == category_at(category_ids, i));
    }
    assert forall|k: int| 0 <= k < 36 implies restaurants.contains_key(
        (#[trigger] restaurant_ids[k]).value(),
    ) && restaurants[restaurant_ids[k].value()]@ == restaurant_at(
        category_ids,
        restaurant_ids,
        k,
    ) by {
        assert(shown.contains_key(restaurant_ids[k].value()));
        assert(restaurant_views(restaurants)[restaurant_ids[k].value()] == restaurant_at(
            category_ids,
            restaurant_ids,
            k,
        ));
    }
    assert forall|key: u128| #[trigger] categories.contains_key(key) implies exists|i: int|
        0 <= i < 10 && key == (#[trigger] category_ids[i]).value() by {
        assert(listed.contains_key(key));
        let i = choose|i: int| 0 <= i < 10 && listed[key] == #[trigger] category_at(category_ids, i);
        assert(key == category_ids[i].value());
    }
    assert forall|key: u128| #[trigger] restaurants.contains_key(key) implies exists|k: int|
        0 <= k < 36 && key == (#[trigger] restaurant_ids[k]).value() by {
        assert(shown.contains_key(key));
        let k = choose|k: int|
            0 <= k < 36 && shown[key] == #[trigger] restaurant_at(category_ids, restaurant_ids, k);
        assert(key == restaurant_ids[k].value());
    }
    assert forall|key: u128, other: u128|
        #![trigger categories.contains_key(key), categories.contains_key(other)]
        categories.contains_key(key) && categories.contains_key(other) && key
            != other implies categories[key].name@ != categories[other].name@ by {
        assert(listed.contains_key(key) && listed.contains_key(other));
        let i = choose|i: int| 0 <= i < 10 && key == (#[trigger] category_ids[i]).value();
        let j = choose|j: int| 0 <= j < 10 && other == (#[trigger] category_ids[j]).value();
        assert(categories[key]@ == category_at(category_ids, i));
        assert(categories[other]@ == category_at(category_ids, j));
        if i < j {
            lemma_category_names_distinct(i, j);
        } else if j < i {
            lemma_category_names_distinct(j, i);
        }
    }
    assert forall|k: int, i: int| 0 <= k < 36 && 0 <= i < 10 implies (restaurants[(
    #[trigger] restaurant_ids[k]).value()].category_id == #[trigger] category_ids[i]
        <==> first_restaurant_of(i) <= k < first_restaurant_of(i + 1)) by {
        lemma_restaurants_of_category(k);
        let c = starting_restaurant(k).category;
        assert(restaurants[restaurant_ids[k].value()]@ == restaurant_at(
            category_ids,
            restaurant_ids,
            k,
        ));
        assert(restaurants[restaurant_ids[k].value()].category_id == category_ids[c]);
        if c < i {
            assert(category_ids[c] != category_ids[i]);
        } else if i < c {
            assert(category_ids[i] != category_ids[c]);
        }
    }
}

/// The keys under which a mapping holds the restaurants of a category.
pub open spec fn restaurants_of(restaurants: Map<u128, Restaurant>, category_id: CategoryId) -> Set<
    u128,
> {
    Set::new(
        |key: u128| restaurants.contains_key(key) && restaurants[key].category_id == category_id,
    )
}

/// The bits of the identifiers at the places from `from` up to `to`.
pub open spec fn ids_between(ids: Seq<RestaurantId>, from: int, to: int) -> Set<u128>
    decreases to - from,
{
    if to <= from {
        Set::empty()
    } else {
        ids_between(ids, from, to - 1).insert(ids[to - 1].value())
    }
}

proof fn lemma_ids_between(ids: Seq<RestaurantId>, from: int, to: int)
    requires
        0 <= from <= to <= ids.len(),
        distinct_restaurants(ids),
    ensures
        ids_between(ids, from, to).finite(),
        ids_between(ids, from, to).len() == to - from,
        forall|key: u128|
            ids_between(ids, from, to).contains(key) <==> exists|k: int|
                from <= k < to && key == (#[trigger] ids[k]).value(),
    decreases to - from,
{
    if to > from {
        lemma_ids_between(ids, from, to - 1);
        let before = ids_between(ids, from, to - 1);
        let last = ids[to - 1];
        if before.contains(last.value()) {
            let k = choose|k: int| from <= k < to - 1 && last.value() == (#[trigger] ids[k]).value();
            RestaurantId::lemma_value_injective(ids[k], last);
            assert(ids[k] != last);
        }
        assert forall|key: u128|
            ids_between(ids, from, to).contains(key) <==> exists|k: int|
                from <= k < to && key == (#[trigger] ids[k]).value() by {
            if before.contains(key) {
                let k = choose|k: int| from <= k < to - 1 && key == (#[trigger] ids[k]).value();
                assert(from <= k < to && key == ids[k].value());
            }
            if key == last.value() {
                assert(from <= to - 1 < to && key == ids[to - 1].value());
            }
            if exists|k: int| from <= k < to && key == (#[trigger] ids[k]).value() {
                let k = choose|k: int| from <= k < to && key == (#[trigger] ids[k]).value();
                if k < to - 1 {
                    assert(before.contains(key));
                }
            }
        }
    }
}

/// Where the identifiers are all different, each category has the
/// restaurants of its places and no others: as many as there are places from
/// its first restaurant up to the first of the next category.
pub proof fn lemma_restaurants_of_each_category(
    categories: Map<u128, Category>,
    restaurants: Map<u128, Restaurant>,
    category_ids: Seq<CategoryId>,
    restaurant_ids: Seq<RestaurantId>,
    i: int,
)
    requires
        is_starting_catalog(categories, restaurants, category_ids, restaurant_ids),
        distinct_categories(category_ids),
        distinct_restaurants(restaurant_ids),
        0 <= i < 10,
    ensures
        restaurants_of(restaurants, category_ids[i]) == ids_between(
            restaurant_ids,
            first_restaurant_of(i),
            first_restaurant_of(i + 1),
        ),
        restaurants_of(restaurants, category_ids[i]).finite(),
        restaurants_of(restaurants, category_ids[i]).len() == first_restaurant_of(i + 1)
            - first_restaurant_of(i),
{
    lemma_catalog_of_distinct_ids(categories, restaurants, category_ids, restaurant_ids);
    let from = first_restaurant_of(i);
    let to = first_restaurant_of(i + 1);
    lemma_ids_between(restaurant_ids, from, to);
    let mine = restaurants_of(restaurants, category_ids[i]);
    let range = ids_between(restaurant_ids, from, to);
    assert forall|key: u128| mine.contains(key) <==> range.contains(key) by {
        if mine.contains(key) {
            let k = choose|k: int| 0 <= k < 36 && key == (#[trigger] restaurant_ids[k]).value();
            assert(restaurants[restaurant_ids[k].value()].category_id == category_ids[i]);
            assert(from <= k < to && key == restaurant_ids[k].value());
        }
        if range.contains(key) {
            let k = choose|k: int| from <= k < to && key == (#[trigger] restaurant_ids[k]).value();
            assert(restaurants.contains_key(restaurant_ids[k].value()));
            assert(restaurants[restaurant_ids[k].value()].category_id == category_ids[i]);
        }
    }
    assert(mine =~= range);
}

} // verus!
