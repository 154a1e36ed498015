use restaurant_directory::aggregator::CategoryAggregator;
use restaurant_directory::local_data::{
    add_category, add_restaurant, generate_data, starting_catalog,
};
use restaurant_directory::model::{
    Category, CategoryId, Restaurant, RestaurantId, WebsiteUrl,
};
use restaurant_directory::repository::{CategoryRepository, RestaurantRepository};
use std::collections::HashMap;
use std::sync::Arc;

#[test]
fn generate_data_has_ten_categories_and_their_restaurants() {
    let (categories, restaurants) = generate_data().unwrap();
    assert_eq!(categories.len(), 10);
    assert_eq!(restaurants.len(), 36);
}

#[test]
fn generate_data_stores_each_entity_under_its_identifier() {
    let (categories, restaurants) = generate_data().unwrap();
    for (key, category) in &categories {
        assert_eq!(category.id.as_u128(), *key);
    }
    for (key, restaurant) in &restaurants {
        assert_eq!(restaurant.id.as_u128(), *key);
        assert!(restaurant.source.is_none());
    }
}

#[test]
fn generate_data_gives_every_restaurant_a_category() {
    let (categories, restaurants) = generate_data().unwrap();
    for restaurant in restaurants.values() {
        assert!(categories.contains_key(&restaurant.category_id.as_u128()));
    }
}

#[test]
fn generate_data_parses_the_websites() {
    let (_, restaurants) = generate_data().unwrap();
    let oddonos = restaurants.values().find(|r| r.name == "Oddono's").unwrap();
    assert_eq!(oddonos.website_url.as_str(), "http://www.oddonos.com/");
    let laderach = restaurants.values().find(|r| r.name == "Laderach").unwrap();
    assert_eq!(laderach.website_url.as_str(), "https://laderach.com/uk-en/");
    let instagram = restaurants.values().find(|r| r.name == "World Famous Gordos").unwrap();
    assert_eq!(instagram.website_url.as_str(), "https://www.instagram.com/worldfamousgordos");
}

#[test]
fn the_listing_of_the_generated_data() {
    let (categories, restaurants) = generate_data().unwrap();
    let aggregator = CategoryAggregator::new(
        Arc::new(CategoryRepository::new(categories)),
        Arc::new(RestaurantRepository::new(restaurants)),
    );
    let listing: Vec<(String, Vec<String>)> = aggregator
        .aggregate()
        .into_iter()
        .map(|l| (l.category_name, l.restaurants.into_iter().map(|r| r.restaurant_name).collect()))
        .collect();
    let expected: Vec<(&str, Vec<&str>)> = vec![
        ("Baked Goods", vec!["Buns From Home", "Crosstown", "Crumbs and Doilies", "Ole & Steen"]),
        ("Brunch", vec!["DropShot Coffee", "Julliet's", "Utter Waffle"]),
        ("Chocolates", vec!["Laderach", "XO Chocolate"]),
        ("Coffee", vec!["Formative", "Nostos"]),
        ("Ice Cream", vec!["Bilmonte", "Oddono's"]),
        (
            "Italian Restaurants",
            vec!["Ave Mario", "Bancone", "Circolo Popolaire", "Gloria", "Luca", "Padella"],
        ),
        (
            "Japanese Restaurants",
            vec![
                "Kampai Sushi",
                "Kintan Japanese BBQ",
                "Kulu Kulu",
                "Maki Yaki",
                "Sticks 'n' Sushi",
                "Zaibatsu",
            ],
        ),
        (
            "Other fave restaurants",
            vec!["Darjeeling Express", "Dishoom", "Golden Union", "Roti King"],
        ),
        (
            "Pizza",
            vec!["Alley Cats Pizza", "Pizza Pilgrims", "World Famous Gordos", "Yard Sale Pizza"],
        ),
        ("Steak", vec!["Blacklock", "Flat Iron", "The Heliot"]),
    ];
    let expected: Vec<(String, Vec<String>)> = expected
        .into_iter()
        .map(|(c, rs)| (c.to_string(), rs.into_iter().map(|r| r.to_string()).collect()))
        .collect();
    assert_eq!(listing, expected);
}

#[test]
fn add_category_stores_under_the_identifier() {
    let mut categories = HashMap::new();
    let id = add_category(
        &mut categories,
        Category { id: CategoryId::from_u128(7), name: "Pizza".to_string() },
    );
    assert_eq!(id, CategoryId::from_u128(7));
    assert_eq!(categories.len(), 1);
    assert_eq!(categories[&7].name, "Pizza");
    let id = add_category(
        &mut categories,
        Category { id: CategoryId::from_u128(7), name: "Coffee".to_string() },
    );
    assert_eq!(id.as_u128(), 7);
    assert_eq!(categories.len(), 1);
    assert_eq!(categories[&7].name, "Coffee");
    let fresh = Category::new("Steak");
    let key = fresh.id.as_u128();
    assert_eq!(add_category(&mut categories, fresh).as_u128(), key);
    assert_eq!(categories.len(), 2);
    assert_eq!(categories[&key].name, "Steak");
}

#[test]
fn add_restaurant_stores_under_the_identifier() {
    let mut restaurants = HashMap::new();
    add_restaurant(
        &mut restaurants,
        Restaurant {
            id: RestaurantId::from_u128(3),
            name: "Padella".to_string(),
            category_id: CategoryId::from_u128(7),
            website_url: WebsiteUrl::parse("https://www.padella.co").unwrap(),
            source: None,
        },
    );
    assert_eq!(restaurants.len(), 1);
    assert_eq!(restaurants[&3].name, "Padella");
    assert_eq!(restaurants[&3].id, RestaurantId::from_u128(3));
    assert_eq!(restaurants[&3].category_id, CategoryId::from_u128(7));
    assert_eq!(restaurants[&3].website_url.as_str(), "https://www.padella.co/");
    let fresh =
        Restaurant::new("Gloria", CategoryId::from_u128(7), WebsiteUrl::parse("https://g.example").unwrap());
    let key = fresh.id.as_u128();
    add_restaurant(&mut restaurants, fresh);
    assert_eq!(restaurants.len(), 2);
    assert_eq!(restaurants[&key].name, "Gloria");
}

#[test]
fn generate_data_draws_fresh_identifiers_each_time() {
    let (first, _) = generate_data().unwrap();
    let (second, _) = generate_data().unwrap();
    for key in first.keys() {
        assert!(!second.contains_key(key));
    }
    let mut names: Vec<String> = first.values().map(|c| c.name.clone()).collect();
    names.sort();
    let mut again: Vec<String> = second.values().map(|c| c.name.clone()).collect();
    again.sort();
    assert_eq!(names, again);
}

const NAMES: [&str; 10] = [
    "Ice Cream",
    "Baked Goods",
    "Chocolates",
    "Steak",
    "Pizza",
    "Italian Restaurants",
    "Japanese Restaurants",
    "Coffee",
    "Brunch",
    "Other fave restaurants",
];

const RESTAURANTS: [(usize, &str, &str); 36] = [
    (0, "Oddono's", "http://www.oddonos.com"),
    (0, "Bilmonte", "https://www.bilmonte.it"),
    (1, "Crosstown", "https://www.crosstown.co.uk"),
    (1, "Crumbs and Doilies", "https://www.crumbsanddoilies.co.uk"),
    (1, "Buns From Home", "https://www.bunsfromhome.com"),
    (1, "Ole & Steen", "https://oleandsteen.co.uk"),
    (2, "XO Chocolate", "https://www.xochocolate.co.uk"),
    (2, "Laderach", "https://laderach.com/uk-en/"),
    (3, "Blacklock", "https://www.theblacklock.com"),
    (3, "Flat Iron", "https://flatironsteak.co.uk"),
    (3, "The Heliot", "https://www.hippodromecasino.com/restaurant-bars-lounges/"),
    (4, "Yard Sale Pizza", "https://yardsalepizza.com"),
    (4, "Pizza Pilgrims", "https://pizzapilgrims.co.uk"),
    (4, "World Famous Gordos", "https://www.instagram.com/worldfamousgordos"),
    (4, "Alley Cats Pizza", "https://www.alleycatspizza.co.uk"),
    (5, "Bancone", "https://www.bancone.co.uk"),
    (5, "Padella", "https://www.padella.co"),
    (5, "Circolo Popolaire", "https://www.bigmammagroup.com/en/trattorias/circolo-popolare"),
    (5, "Gloria", "https://www.bigmammagroup.com/en/trattorias/gloria"),
    (5, "Ave Mario", "https://www.bigmammagroup.com/en/trattorias/ave-mario"),
    (5, "Luca", "https://luca.restaurant"),
    (6, "Zaibatsu", "https://www.zaibatsufusion.co.uk"),
    (6, "Sticks 'n' Sushi", "https://sticksnsushi.com/en"),
    (6, "Kulu Kulu", "https://www.kulukulusushi.com"),
    (6, "Maki Yaki", "https://makiyakiepsom.com"),
    (6, "Kintan Japanese BBQ", "https://kintan.uk"),
    (6, "Kampai Sushi", "https://www.kampaisushi.co.uk"),
    (7, "Formative", "https://formative.coffee"),
    (7, "Nostos", "https://nostoscoffee.co.uk"),
    (8, "Julliet's", "https://o-juliets.arch2order.com/menu/juliets"),
    (8, "DropShot Coffee", "https://www.dropshotcoffee.co.uk"),
    (8, "Utter Waffle", "https://utterwaffle.co.uk"),
    (9, "Roti King", "https://www.rotiking.com"),
    (9, "Dishoom", "https://www.dishoom.com"),
    (9, "Golden Union", "https://goldenunion.co.uk"),
    (9, "Darjeeling Express", "https://www.darjeeling-express.com"),
];

fn category_ids() -> [CategoryId; 10] {
    std::array::from_fn(|i| CategoryId::from_u128(1 + i as u128))
}

fn restaurant_ids() -> [RestaurantId; 36] {
    std::array::from_fn(|k| RestaurantId::from_u128(101 + k as u128))
}

#[test]
fn starting_catalog_puts_each_entity_under_its_identifier() {
    let (categories, restaurants) = starting_catalog(category_ids(), restaurant_ids()).unwrap();
    assert_eq!(categories.len(), 10);
    assert_eq!(restaurants.len(), 36);
    for (i, name) in NAMES.iter().enumerate() {
        let category = &categories[&(1 + i as u128)];
        assert_eq!(category.id, CategoryId::from_u128(1 + i as u128));
        assert_eq!(category.name, *name);
    }
    for (k, (category, name, website)) in RESTAURANTS.iter().enumerate() {
        let restaurant = &restaurants[&(101 + k as u128)];
        assert_eq!(restaurant.id, RestaurantId::from_u128(101 + k as u128));
        assert_eq!(restaurant.name, *name);
        assert_eq!(restaurant.category_id, CategoryId::from_u128(1 + *category as u128));
        assert_eq!(
            restaurant.website_url.as_str(),
            WebsiteUrl::parse(website).unwrap().as_str()
        );
        assert!(restaurant.source.is_none());
    }
}

#[test]
fn starting_catalog_has_the_restaurants_of_each_category() {
    let (categories, restaurants) = starting_catalog(category_ids(), restaurant_ids()).unwrap();
    let expected = [2, 4, 2, 3, 4, 6, 6, 2, 3, 4];
    for (i, count) in expected.iter().enumerate() {
        let id = CategoryId::from_u128(1 + i as u128);
        assert_eq!(restaurants.values().filter(|r| r.category_id == id).count(), *count);
    }
    let pizza = categories.values().find(|c| c.name == "Pizza").unwrap().id;
    assert_eq!(pizza, CategoryId::from_u128(5));
    let mut of_pizza: Vec<(u128, String)> = restaurants
        .values()
        .filter(|r| r.category_id == pizza)
        .map(|r| (r.id.as_u128(), r.name.clone()))
        .collect();
    of_pizza.sort();
    assert_eq!(
        of_pizza,
        vec![
            (112, "Yard Sale Pizza".to_string()),
            (113, "Pizza Pilgrims".to_string()),
            (114, "World Famous Gordos".to_string()),
            (115, "Alley Cats Pizza".to_string()),
        ]
    );
    let mut names: Vec<String> = categories.values().map(|c| c.name.clone()).collect();
    names.sort();
    names.dedup();
    assert_eq!(names.len(), 10);
}

#[test]
fn starting_catalog_lets_the_later_entity_take_a_shared_identifier() {
    let mut shared = category_ids();
    shared[9] = shared[0];
    let mut twice = restaurant_ids();
    twice[35] = twice[0];
    twice[1] = twice[0];
    let (categories, restaurants) = starting_catalog(shared, twice).unwrap();
    assert_eq!(categories.len(), 9);
    assert_eq!(categories[&1].name, "Other fave restaurants");
    assert_eq!(restaurants.len(), 34);
    assert_eq!(restaurants[&101].name, "Darjeeling Express");
    assert_eq!(restaurants[&101].category_id, CategoryId::from_u128(1));
    assert_eq!(restaurants[&101].website_url.as_str(), "https://www.darjeeling-express.com/");

    let (categories, restaurants) =
        starting_catalog([CategoryId::from_u128(7); 10], [RestaurantId::from_u128(8); 36]).unwrap();
    assert_eq!(categories.len(), 1);
    assert_eq!(categories[&7].name, "Other fave restaurants");
    assert_eq!(restaurants.len(), 1);
    assert_eq!(restaurants[&8].name, "Darjeeling Express");
    assert_eq!(restaurants[&8].category_id, CategoryId::from_u128(7));
}

#[test]
fn generate_data_is_the_starting_catalog_under_fresh_identifiers() {
    let (categories, restaurants) = generate_data().unwrap();
    let mut names: Vec<&str> = categories.values().map(|c| c.name.as_str()).collect();
    names.sort();
    let mut expected: Vec<&str> = NAMES.to_vec();
    expected.sort();
    assert_eq!(names, expected);
    for (category, name, website) in RESTAURANTS.iter() {
        let restaurant = restaurants.values().find(|r| r.name == *name).unwrap();
        assert_eq!(categories[&restaurant.category_id.as_u128()].name, NAMES[*category]);
        assert_eq!(
            restaurant.website_url.as_str(),
            WebsiteUrl::parse(website).unwrap().as_str()
        );
    }
    for key in categories.keys().chain(restaurants.keys()) {
        assert_eq!(
            key & 0x0000_0000_0000_f000_c000_0000_0000_0000,
            0x0000_0000_0000_4000_8000_0000_0000_0000
        );
    }
}
