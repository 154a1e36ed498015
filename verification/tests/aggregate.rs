use restaurant_directory::aggregator::{group_by_category, CategoryAggregator};
use restaurant_directory::model::{
    Category, CategoryId, Restaurant, RestaurantId, WebsiteUrl,
};
use restaurant_directory::repository::{CategoryRepository, RestaurantRepository};
use restaurant_directory::transport::CategoriesWithRestaurants;
use std::collections::HashMap;
use std::sync::Arc;

fn category(bits: u128, name: &str) -> Category {
    Category { id: CategoryId::from_u128(bits), name: name.to_string() }
}

fn restaurant(bits: u128, name: &str, category_bits: u128) -> Restaurant {
    Restaurant {
        id: RestaurantId::from_u128(bits),
        name: name.to_string(),
        category_id: CategoryId::from_u128(category_bits),
        website_url: WebsiteUrl::parse("https://example.net/").unwrap(),
        source: None,
    }
}

fn aggregator(categories: Vec<Category>, restaurants: Vec<Restaurant>) -> CategoryAggregator {
    let mut category_map = HashMap::new();
    for c in categories {
        category_map.insert(c.id.as_u128(), c);
    }
    let mut restaurant_map = HashMap::new();
    for r in restaurants {
        restaurant_map.insert(r.id.as_u128(), r);
    }
    CategoryAggregator::new(
        Arc::new(CategoryRepository::new(category_map)),
        Arc::new(RestaurantRepository::new(restaurant_map)),
    )
}

fn shape(listing: &[CategoriesWithRestaurants]) -> Vec<(String, Vec<(u128, String)>)> {
    listing
        .iter()
        .map(|l| {
            (
                l.category_name.clone(),
                l.restaurants
                    .iter()
                    .map(|r| (r.restaurant_id.as_u128(), r.restaurant_name.clone()))
                    .collect(),
            )
        })
        .collect()
}

fn entry(name: &str, restaurants: &[(u128, &str)]) -> (String, Vec<(u128, String)>) {
    (name.to_string(), restaurants.iter().map(|(id, n)| (*id, n.to_string())).collect())
}

#[test]
fn aggregate_groups_and_sorts_the_catalog() {
    let a = aggregator(
        vec![category(1, "Pizza"), category(2, "Coffee")],
        vec![restaurant(10, "Zeta", 1), restaurant(11, "Alpha", 1), restaurant(12, "Beta", 2)],
    );
    let listing = a.aggregate();
    assert_eq!(
        shape(&listing),
        vec![entry("Coffee", &[(12, "Beta")]), entry("Pizza", &[(11, "Alpha"), (10, "Zeta")])]
    );
}

#[test]
fn aggregate_of_empty_catalog_is_empty() {
    let a = aggregator(vec![], vec![]);
    assert!(a.aggregate().is_empty());
}

#[test]
fn aggregate_without_categories_is_empty() {
    let a = aggregator(vec![], vec![restaurant(10, "Zeta", 1)]);
    assert!(a.aggregate().is_empty());
}

#[test]
fn category_without_restaurants_is_listed_empty() {
    let a = aggregator(
        vec![category(1, "Pizza"), category(2, "Coffee")],
        vec![restaurant(10, "Zeta", 1)],
    );
    assert_eq!(
        shape(&a.aggregate()),
        vec![entry("Coffee", &[]), entry("Pizza", &[(10, "Zeta")])]
    );
}

#[test]
fn restaurant_of_unknown_category_is_left_out() {
    let a = aggregator(
        vec![category(1, "Pizza")],
        vec![restaurant(10, "Zeta", 1), restaurant(11, "Lost", 99)],
    );
    assert_eq!(shape(&a.aggregate()), vec![entry("Pizza", &[(10, "Zeta")])]);
}

#[test]
fn aggregate_is_repeatable() {
    let a = aggregator(
        vec![category(1, "Steak"), category(2, "Brunch"), category(3, "Ice Cream")],
        vec![
            restaurant(10, "Flat Iron", 1),
            restaurant(11, "Blacklock", 1),
            restaurant(12, "Utter Waffle", 2),
            restaurant(13, "Bilmonte", 3),
        ],
    );
    let first = shape(&a.aggregate());
    let second = shape(&a.aggregate());
    assert_eq!(first, second);
    assert_eq!(shape(&a.clone().aggregate()), first);
}

#[test]
fn every_category_is_listed_once_in_order() {
    let names = ["Steak", "Brunch", "Ice Cream", "Baked Goods", "Chocolates", "Pizza"];
    let categories: Vec<Category> =
        names.iter().enumerate().map(|(i, n)| category(i as u128 + 1, n)).collect();
    let a = aggregator(categories, vec![]);
    let listed: Vec<String> = a.aggregate().into_iter().map(|l| l.category_name).collect();
    assert_eq!(listed, vec!["Baked Goods", "Brunch", "Chocolates", "Ice Cream", "Pizza", "Steak"]);
}

#[test]
fn every_restaurant_is_listed_once_under_its_category() {
    let a = aggregator(
        vec![category(1, "Pizza"), category(2, "Coffee"), category(3, "Steak")],
        vec![
            restaurant(10, "Yard Sale Pizza", 1),
            restaurant(11, "Nostos", 2),
            restaurant(12, "Pizza Pilgrims", 1),
            restaurant(13, "Formative", 2),
            restaurant(14, "Alley Cats Pizza", 1),
        ],
    );
    let listing = shape(&a.aggregate());
    assert_eq!(
        listing,
        vec![
            entry("Coffee", &[(13, "Formative"), (11, "Nostos")]),
            entry("Pizza", &[(14, "Alley Cats Pizza"), (12, "Pizza Pilgrims"), (10, "Yard Sale Pizza")]),
            entry("Steak", &[]),
        ]
    );
    for id in 10u128..15 {
        let places: usize = listing
            .iter()
            .map(|(_, rs)| rs.iter().filter(|(rid, _)| *rid == id).count())
            .sum();
        assert_eq!(places, 1);
    }
}

#[test]
fn group_by_category_keeps_the_given_order_among_equal_names() {
    let listing = group_by_category(
        vec![category(2, "Same"), category(1, "Same"), category(3, "Other")],
        vec![
            restaurant(12, "Twin", 1),
            restaurant(11, "Twin", 1),
            restaurant(13, "Twin", 2),
            restaurant(10, "Alone", 1),
        ],
    );
    assert_eq!(
        shape(&listing),
        vec![
            entry("Other", &[]),
            entry("Same", &[(13, "Twin")]),
            entry("Same", &[(10, "Alone"), (12, "Twin"), (11, "Twin")]),
        ]
    );
}

#[test]
fn group_by_category_orders_names_by_their_bytes() {
    let listing = group_by_category(
        vec![
            category(1, "b"),
            category(2, "B"),
            category(3, "a"),
            category(4, ""),
            category(5, "ab"),
            category(6, "\u{e9}clair"),
            category(7, "z"),
            category(8, "\u{1f355}"),
            category(9, "\u{ff5a}"),
        ],
        vec![],
    );
    let names: Vec<String> = listing.into_iter().map(|l| l.category_name).collect();
    assert_eq!(
        names,
        vec!["", "B", "a", "ab", "b", "z", "\u{e9}clair", "\u{ff5a}", "\u{1f355}"]
    );
}

#[test]
fn group_by_category_lists_a_restaurant_under_each_category_with_its_identifier() {
    let listing = group_by_category(
        vec![category(1, "First"), category(1, "Second")],
        vec![restaurant(10, "Shared", 1)],
    );
    assert_eq!(
        shape(&listing),
        vec![entry("First", &[(10, "Shared")]), entry("Second", &[(10, "Shared")])]
    );
}

#[test]
fn listing_does_not_depend_on_the_order_of_the_stores() {
    let categories = || {
        vec![category(1, "Steak"), category(2, "Brunch"), category(3, "Ice Cream")]
    };
    let restaurants = || {
        vec![
            restaurant(10, "Flat Iron", 1),
            restaurant(11, "Blacklock", 1),
            restaurant(12, "Utter Waffle", 2),
            restaurant(13, "Bilmonte", 3),
            restaurant(14, "The Heliot", 1),
        ]
    };
    let forward = aggregator(categories(), restaurants());
    let mut reversed_categories = categories();
    reversed_categories.reverse();
    let mut reversed_restaurants = restaurants();
    reversed_restaurants.reverse();
    let backward = aggregator(reversed_categories, reversed_restaurants);
    let expected = vec![
        entry("Brunch", &[(12, "Utter Waffle")]),
        entry("Ice Cream", &[(13, "Bilmonte")]),
        entry("Steak", &[(11, "Blacklock"), (10, "Flat Iron"), (14, "The Heliot")]),
    ];
    assert_eq!(shape(&forward.aggregate()), expected);
    assert_eq!(shape(&backward.aggregate()), expected);
    assert_eq!(shape(&group_by_category(categories(), restaurants())), expected);
    let mut turned = restaurants();
    turned.rotate_left(2);
    assert_eq!(shape(&group_by_category(categories(), turned)), expected);
}

#[test]
fn listing_clone_shows_the_same() {
    let listing = group_by_category(
        vec![category(1, "Pizza"), category(2, "Coffee")],
        vec![restaurant(10, "Zeta", 1), restaurant(11, "Alpha", 1), restaurant(12, "Beta", 2)],
    );
    let copies: Vec<CategoriesWithRestaurants> = listing.iter().map(|l| l.clone()).collect();
    assert_eq!(shape(&copies), shape(&listing));
    let first = listing[1].restaurants[0].clone();
    assert_eq!(first.restaurant_id.as_u128(), 11);
    assert_eq!(first.restaurant_name, "Alpha");
}

#[test]
fn restaurants_within_a_category_are_in_display_order() {
    let names = ["delta", "Alpha", "charlie", "Bravo", "alpha", "Echo", "", "echo"];
    let restaurants: Vec<Restaurant> =
        names.iter().enumerate().map(|(i, n)| restaurant(i as u128, n, 1)).collect();
    let listing = group_by_category(vec![category(1, "All")], restaurants);
    let shown: Vec<String> =
        listing[0].restaurants.iter().map(|r| r.restaurant_name.clone()).collect();
    assert_eq!(shown, vec!["", "Alpha", "Bravo", "Echo", "alpha", "charlie", "delta", "echo"]);
    for pair in shown.windows(2) {
        assert!(pair[0] <= pair[1]);
    }
}
