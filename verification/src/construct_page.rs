//! What the pages show: the listing page and the page of one restaurant.

use crate::aggregator::CategoryAggregator;
use crate::model::RestaurantId;
use crate::repository::RestaurantRepository;
use crate::transport::{listing_views, CategoriesWithRestaurants};
use vstd::prelude::*;

verus! {

/// What the listing page shows.
pub struct ListPage {
    pub categories: Vec<CategoriesWithRestaurants>,
}

/// What the page of one restaurant shows.
pub struct RestaurantPage {
    pub name: String,
    pub website: String,
}

/// The listing page: the listing of the directory.
pub fn construct_list_page(category_aggregator: &CategoryAggregator) -> (page: ListPage)
    ensures
        listing_views(page.categories@) == category_aggregator.listing(),
        page.categories@.len() == category_aggregator.categories().enumeration().len(),
        category_aggregator.categories().each_once(),
        category_aggregator.restaurants().each_once(),
{
    ListPage { categories: category_aggregator.aggregate() }
}

/// The page of the restaurant stored under the identifier, with its name and
/// the text of its website; none if the store holds no such restaurant.
pub fn construct_restaurant_page(
    restaurant_id: RestaurantId,
    restaurant_repository: &RestaurantRepository,
) -> (page: Option<RestaurantPage>)
    ensures
        page is Some <==> restaurant_repository@.contains_key(restaurant_id.value()),
        page matches Some(shown) ==> {
            &&& shown.name@ == restaurant_repository@[restaurant_id.value()].name@
            &&& shown.website@ == restaurant_repository@[restaurant_id.value()].website_url@
        },
{
    match restaurant_repository.get(&restaurant_id) {
        Some(restaurant) => Some(
            RestaurantPage {
                name: restaurant.name.clone(),
                website: restaurant.website_url.as_str().to_owned(),
            },
        ),
        None => None,
    }
}

} // verus!
