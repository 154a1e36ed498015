use restaurant_directory::category::repository::{
    CategoryRepository as CategoryStore, LocalCategoryRepository,
};
use restaurant_directory::model::{
    Category, CategoryId, Restaurant, RestaurantId, WebsiteUrl,
};
use restaurant_directory::repository::{CategoryRepository, RestaurantRepository};
use restaurant_directory::restaurant::repository::{
    LocalRestaurantRepository, RestaurantRepository as RestaurantStore,
};
use std::collections::HashMap;

fn categories() -> HashMap<u128, Category> {
    let mut map = HashMap::new();
    for (bits, name) in [(1u128, "Pizza"), (2, "Coffee"), (3, "Steak")] {
        map.insert(bits, Category { id: CategoryId::from_u128(bits), name: name.to_string() });
    }
    map
}

fn restaurants() -> HashMap<u128, Restaurant> {
    let mut map = HashMap::new();
    for (bits, name, category) in [(10u128, "Zeta", 1u128), (11, "Alpha", 1), (12, "Beta", 2)] {
        map.insert(
            bits,
            Restaurant {
                id: RestaurantId::from_u128(bits),
                name: name.to_string(),
                category_id: CategoryId::from_u128(category),
                website_url: WebsiteUrl::parse(&format!("https://example.net/{}", name)).unwrap(),
                source: if bits == 12 { Some("guide".to_string()) } else { None },
            },
        );
    }
    map
}

#[test]
fn category_get_finds_what_was_stored() {
    let store = CategoryRepository::new(categories());
    let found = store.get(&CategoryId::from_u128(2)).unwrap();
    assert_eq!(found.id, CategoryId::from_u128(2));
    assert_eq!(found.name, "Coffee");
}

#[test]
fn category_get_of_unknown_id_is_absent() {
    let store = CategoryRepository::new(categories());
    assert!(store.get(&CategoryId::from_u128(4)).is_none());
    assert!(store.get(&CategoryId::new()).is_none());
    assert!(CategoryRepository::new(HashMap::new()).get(&CategoryId::from_u128(1)).is_none());
}

#[test]
fn category_get_all_has_every_category_once() {
    let store = CategoryRepository::new(categories());
    let mut all: Vec<(u128, String)> =
        store.get_all().into_iter().map(|c| (c.id.as_u128(), c.name)).collect();
    all.sort();
    assert_eq!(
        all,
        vec![(1, "Pizza".to_string()), (2, "Coffee".to_string()), (3, "Steak".to_string())]
    );
    assert!(CategoryRepository::new(HashMap::new()).get_all().is_empty());
}

#[test]
fn category_get_goes_by_the_key_of_the_mapping() {
    let mut map = HashMap::new();
    map.insert(7u128, Category { id: CategoryId::from_u128(1), name: "Moved".to_string() });
    let store = CategoryRepository::new(map);
    assert!(store.get(&CategoryId::from_u128(1)).is_none());
    assert_eq!(store.get(&CategoryId::from_u128(7)).unwrap().name, "Moved");
}

#[test]
fn restaurant_get_finds_what_was_stored() {
    let store = RestaurantRepository::new(restaurants());
    let found = store.get(&RestaurantId::from_u128(12)).unwrap();
    assert_eq!(found.id, RestaurantId::from_u128(12));
    assert_eq!(found.name, "Beta");
    assert_eq!(found.category_id, CategoryId::from_u128(2));
    assert_eq!(found.website_url.as_str(), "https://example.net/Beta");
    assert_eq!(found.source.as_deref(), Some("guide"));
}

#[test]
fn restaurant_get_of_unknown_id_is_absent() {
    let store = RestaurantRepository::new(restaurants());
    assert!(store.get(&RestaurantId::from_u128(1)).is_none());
    assert!(store.get(&RestaurantId::new()).is_none());
}

#[test]
fn restaurant_get_all_has_every_restaurant_once() {
    let store = RestaurantRepository::new(restaurants());
    let mut all: Vec<(u128, String, u128, String)> = store
        .get_all()
        .into_iter()
        .map(|r| (r.id.as_u128(), r.name, r.category_id.as_u128(), r.website_url.as_str().to_string()))
        .collect();
    all.sort();
    assert_eq!(
        all,
        vec![
            (10, "Zeta".to_string(), 1, "https://example.net/Zeta".to_string()),
            (11, "Alpha".to_string(), 1, "https://example.net/Alpha".to_string()),
            (12, "Beta".to_string(), 2, "https://example.net/Beta".to_string()),
        ]
    );
}

#[test]
fn repository_clone_holds_the_same_entries() {
    let store = CategoryRepository::new(categories());
    let copy = store.clone();
    assert_eq!(copy.get(&CategoryId::from_u128(3)).unwrap().name, "Steak");
    assert_eq!(copy.get_all().len(), 3);
    let copy = RestaurantRepository::new(restaurants()).clone();
    assert_eq!(copy.get(&RestaurantId::from_u128(10)).unwrap().name, "Zeta");
    assert_eq!(copy.get_all().len(), 3);
}

fn names_through_the_capability<S: CategoryStore>(store: &S) -> Vec<String> {
    let mut names: Vec<String> = store.get_all().into_iter().map(|c| c.name).collect();
    names.sort();
    names
}

fn count_through_the_capability<S: RestaurantStore>(store: &S) -> usize {
    store.get_all().len()
}

#[test]
fn local_category_repository_is_a_category_store() {
    let store = LocalCategoryRepository::new(categories());
    assert_eq!(names_through_the_capability(&store), vec!["Coffee", "Pizza", "Steak"]);
    assert_eq!(CategoryStore::get(&store, &CategoryId::from_u128(1)).unwrap().name, "Pizza");
    assert!(CategoryStore::get(&store, &CategoryId::from_u128(9)).is_none());
    assert_eq!(names_through_the_capability(&store.clone()), vec!["Coffee", "Pizza", "Steak"]);
}

#[test]
fn local_restaurant_repository_is_a_restaurant_store() {
    let store = LocalRestaurantRepository::new(restaurants());
    assert_eq!(count_through_the_capability(&store), 3);
    assert_eq!(RestaurantStore::get(&store, &RestaurantId::from_u128(11)).unwrap().name, "Alpha");
    assert!(RestaurantStore::get(&store, &RestaurantId::from_u128(1)).is_none());
    assert_eq!(count_through_the_capability(&store.clone()), 3);
}
