use restaurant_directory::aggregator::CategoryAggregator;
use restaurant_directory::api::{
    get_categories, get_category_by_id, get_restaurant_by_id, get_restaurants, ApiError,
};
use restaurant_directory::construct_page::{construct_list_page, construct_restaurant_page};
use restaurant_directory::model::{
    Category, CategoryId, Restaurant, RestaurantId, WebsiteUrl,
};
use restaurant_directory::repository::{CategoryRepository, RestaurantRepository};
use std::collections::HashMap;
use std::sync::Arc;

fn category_store() -> CategoryRepository {
    let mut map = HashMap::new();
    for (bits, name) in [(1u128, "Pizza"), (2, "Coffee")] {
        map.insert(bits, Category { id: CategoryId::from_u128(bits), name: name.to_string() });
    }
    CategoryRepository::new(map)
}

fn restaurant_store() -> RestaurantRepository {
    let mut map = HashMap::new();
    for (bits, name, category, site) in [
        (10u128, "Zeta", 1u128, "https://zeta.example"),
        (11, "Alpha", 1, "HTTP://Alpha.Example:80/a b?q=1"),
        (12, "Beta", 2, "https://beta.example/menu/"),
    ] {
        map.insert(
            bits,
            Restaurant {
                id: RestaurantId::from_u128(bits),
                name: name.to_string(),
                category_id: CategoryId::from_u128(category),
                website_url: WebsiteUrl::parse(site).unwrap(),
                source: None,
            },
        );
    }
    RestaurantRepository::new(map)
}

#[test]
fn unknown_restaurant_is_not_found() {
    let store = restaurant_store();
    let response = get_restaurant_by_id(RestaurantId::from_u128(99), &store);
    assert_eq!(response.err(), Some(ApiError::NotFound));
    assert_eq!(ApiError::NotFound.status_code(), 404);
    assert!(get_restaurant_by_id(RestaurantId::new(), &store).is_err());
}

#[test]
fn unknown_category_is_not_found() {
    let store = category_store();
    let response = get_category_by_id(CategoryId::from_u128(3), &store);
    assert_eq!(response.err().map(|e| e.status_code()), Some(404));
}

#[test]
fn known_restaurant_is_returned_whole() {
    let store = restaurant_store();
    let restaurant = get_restaurant_by_id(RestaurantId::from_u128(12), &store).ok().unwrap();
    assert_eq!(restaurant.id, RestaurantId::from_u128(12));
    assert_eq!(restaurant.name, "Beta");
    assert_eq!(restaurant.category_id, CategoryId::from_u128(2));
    assert_eq!(restaurant.website_url.as_str(), "https://beta.example/menu/");
    assert_eq!(restaurant.source, None);
}

#[test]
fn known_category_is_returned_whole() {
    let store = category_store();
    let category = get_category_by_id(CategoryId::from_u128(2), &store).ok().unwrap();
    assert_eq!(category.id, CategoryId::from_u128(2));
    assert_eq!(category.name, "Coffee");
}

#[test]
fn all_categories_and_all_restaurants() {
    let mut names: Vec<String> =
        get_categories(&category_store()).into_iter().map(|c| c.name).collect();
    names.sort();
    assert_eq!(names, vec!["Coffee", "Pizza"]);
    let mut ids: Vec<u128> =
        get_restaurants(&restaurant_store()).into_iter().map(|r| r.id.as_u128()).collect();
    ids.sort();
    assert_eq!(ids, vec![10, 11, 12]);
}

#[test]
fn restaurant_page_shows_name_and_website() {
    let store = restaurant_store();
    let page = construct_restaurant_page(RestaurantId::from_u128(10), &store).unwrap();
    assert_eq!(page.name, "Zeta");
    assert_eq!(page.website, "https://zeta.example/");
    let page = construct_restaurant_page(RestaurantId::from_u128(11), &store).unwrap();
    assert_eq!(page.name, "Alpha");
    assert_eq!(page.website, "http://alpha.example/a%20b?q=1");
}

#[test]
fn restaurant_page_of_unknown_restaurant_is_absent() {
    let store = restaurant_store();
    assert!(construct_restaurant_page(RestaurantId::from_u128(13), &store).is_none());
}

#[test]
fn list_page_shows_the_listing() {
    let aggregator =
        CategoryAggregator::new(Arc::new(category_store()), Arc::new(restaurant_store()));
    let page = construct_list_page(&aggregator);
    let shown: Vec<(String, Vec<(u128, String)>)> = page
        .categories
        .into_iter()
        .map(|l| {
            (
                l.category_name,
                l.restaurants
                    .into_iter()
                    .map(|r| (r.restaurant_id.as_u128(), r.restaurant_name))
                    .collect(),
            )
        })
        .collect();
    assert_eq!(
        shown,
        vec![
            ("Coffee".to_string(), vec![(12, "Beta".to_string())]),
            ("Pizza".to_string(), vec![(11, "Alpha".to_string()), (10, "Zeta".to_string())]),
        ]
    );
}
