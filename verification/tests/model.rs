use restaurant_directory::model::{Category, CategoryId, Restaurant, RestaurantId, WebsiteUrl};
use url::Url;
use uuid::Uuid;

const VERSION_AND_VARIANT: u128 = 0x0000_0000_0000_f000_c000_0000_0000_0000;
const RANDOM_UUID_MARKS: u128 = 0x0000_0000_0000_4000_8000_0000_0000_0000;

#[test]
fn category_id_new_is_a_random_uuid() {
    let id = CategoryId::new();
    assert_eq!(id.as_u128() & VERSION_AND_VARIANT, RANDOM_UUID_MARKS);
    assert_eq!(Uuid::from_u128(id.as_u128()).get_version_num(), 4);
}

#[test]
fn restaurant_id_new_is_a_random_uuid() {
    let id = RestaurantId::new();
    assert_eq!(id.as_u128() & VERSION_AND_VARIANT, RANDOM_UUID_MARKS);
    assert_eq!(Uuid::from_u128(id.as_u128()).get_version_num(), 4);
}

#[test]
fn new_ids_differ() {
    assert_ne!(CategoryId::new(), CategoryId::new());
    assert_ne!(RestaurantId::new(), RestaurantId::new());
}

#[test]
fn category_id_from_the_bits_of_a_uuid() {
    let uuid = Uuid::parse_str("a1a2a3a4-b1b2-c1c2-d1d2-d3d4d5d6d7d8").unwrap();
    let id = CategoryId::from(uuid.as_u128());
    assert_eq!(id.as_u128(), 0xa1a2a3a4b1b2c1c2d1d2d3d4d5d6d7d8);
    assert_eq!(id, CategoryId::from_u128(0xa1a2a3a4b1b2c1c2d1d2d3d4d5d6d7d8));
    assert_eq!(Uuid::from_u128(id.as_u128()), uuid);
}

#[test]
fn restaurant_id_from_the_bits_of_a_uuid() {
    let uuid = Uuid::parse_str("00000000-0000-4000-8000-00000000002a").unwrap();
    let id = RestaurantId::from(uuid.as_u128());
    assert_eq!(id.as_u128(), 0x0000_0000_0000_4000_8000_0000_0000_002a);
    assert_eq!(id, RestaurantId::from_u128(0x0000_0000_0000_4000_8000_0000_0000_002a));
    assert_eq!(Uuid::from_u128(id.as_u128()), uuid);
}

#[test]
fn website_url_parse_gives_the_serialization() {
    assert_eq!(WebsiteUrl::parse("https://www.dishoom.com").unwrap().as_str(), "https://www.dishoom.com/");
    assert_eq!(
        WebsiteUrl::parse("HTTP://Example.NET:80/a b/../c?q=1#top").unwrap().as_str(),
        "http://example.net/c?q=1#top"
    );
    assert_eq!(
        WebsiteUrl::parse("https://laderach.com/uk-en/").unwrap().as_str(),
        "https://laderach.com/uk-en/"
    );
    for text in ["https://example.net/", "http://www.oddonos.com", "mailto:someone@example.net"] {
        let parsed = WebsiteUrl::parse(text).unwrap();
        assert_eq!(parsed.as_str(), Url::parse(text).unwrap().as_str());
        assert_eq!(Url::parse(parsed.as_str()).unwrap().as_str(), parsed.as_str());
    }
}

#[test]
fn website_url_parse_refuses_what_is_no_url() {
    assert!(WebsiteUrl::parse("").is_none());
    assert!(WebsiteUrl::parse("not a url").is_none());
    assert!(WebsiteUrl::parse("www.dishoom.com").is_none());
    assert!(WebsiteUrl::parse("/menu").is_none());
    assert!(WebsiteUrl::parse("https://").is_none());
}

#[test]
fn website_url_clone_is_the_same_address() {
    let url = WebsiteUrl::parse("https://luca.restaurant/menu?course=2#top").unwrap();
    assert_eq!(url.clone().as_str(), "https://luca.restaurant/menu?course=2#top");
}

#[test]
fn ids_are_equal_exactly_when_their_bits_are() {
    assert_eq!(CategoryId::from_u128(7), CategoryId::from_u128(7));
    assert_ne!(CategoryId::from_u128(7), CategoryId::from_u128(8));
    assert_eq!(RestaurantId::from_u128(0), RestaurantId::from_u128(0));
    assert_ne!(RestaurantId::from_u128(u128::MAX), RestaurantId::from_u128(0));
    assert_eq!(CategoryId::from_u128(u128::MAX).as_u128(), u128::MAX);
}

#[test]
fn category_new_keeps_the_name() {
    let category = Category::new("Ice Cream");
    assert_eq!(category.name, "Ice Cream");
    assert_eq!(category.id.as_u128() & VERSION_AND_VARIANT, RANDOM_UUID_MARKS);
    assert_eq!(Category::new("").name, "");
}

#[test]
fn category_clone_is_the_same_category() {
    let category = Category::new("Brunch");
    let copy = category.clone();
    assert_eq!(copy.id, category.id);
    assert_eq!(copy.name, category.name);
}

#[test]
fn restaurant_new_keeps_what_it_is_given() {
    let category_id = CategoryId::from_u128(5);
    let url = WebsiteUrl::parse("https://www.dishoom.com").unwrap();
    let restaurant = Restaurant::new("Dishoom", category_id, url);
    assert_eq!(restaurant.name, "Dishoom");
    assert_eq!(restaurant.category_id, category_id);
    assert_eq!(restaurant.website_url.as_str(), "https://www.dishoom.com/");
    assert_eq!(restaurant.source, None);
    assert_eq!(restaurant.id.as_u128() & VERSION_AND_VARIANT, RANDOM_UUID_MARKS);
}

#[test]
fn restaurant_clone_is_the_same_restaurant() {
    let mut restaurant = Restaurant::new(
        "Luca",
        CategoryId::from_u128(9),
        WebsiteUrl::parse("https://luca.restaurant/menu?course=2#top").unwrap(),
    );
    restaurant.source = Some("a friend".to_string());
    let copy = restaurant.clone();
    assert_eq!(copy.id, restaurant.id);
    assert_eq!(copy.name, "Luca");
    assert_eq!(copy.category_id, CategoryId::from_u128(9));
    assert_eq!(copy.website_url.as_str(), "https://luca.restaurant/menu?course=2#top");
    assert_eq!(copy.website_url.as_str(), restaurant.website_url.as_str());
    assert_eq!(copy.source.as_deref(), Some("a friend"));
}
