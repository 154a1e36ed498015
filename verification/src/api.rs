//! What the JSON interface answers: the entities of the two stores, and
//! "not found" for an identifier that a store does not hold.

use crate::model::{Category, CategoryId, Restaurant, RestaurantId};
use crate::repository::{CategoryRepository, RestaurantRepository};
use vstd::prelude::*;

verus! {

/// Why a request is not answered with an entity.
#[derive(Copy, Clone, PartialEq, Eq, Structural, Debug)]
pub enum ApiError {
    /// The store holds nothing under the identifier asked for.
    NotFound,
}

impl ApiError {
    /// The HTTP status that reports the error: 404 for `NotFound`.
    pub fn status_code(&self) -> (code: u16)
        ensures
            code == 404,
    {
        match self {
            ApiError::NotFound => 404,
        }
    }
}

/// Every category of the store.
pub fn get_categories(category_repository: &CategoryRepository) -> (categories: Vec<Category>)
    ensures
        categories@ == category_repository.enumeration(),
        category_repository.each_once(),
        categories@.len() == category_repository@.len(),
{
    category_repository.get_all()
}

/// Every restaurant of the store.
pub fn get_restaurants(restaurant_repository: &RestaurantRepository) -> (restaurants: Vec<
    Restaurant,
>)
    ensures
        restaurants@ == restaurant_repository.enumeration(),
        restaurant_repository.each_once(),
        restaurants@.len() == restaurant_repository@.len(),
{
    restaurant_repository.get_all()
}

/// The category stored under the identifier; `NotFound` if there is none.
pub fn get_category_by_id(category_id: CategoryId, category_repository: &CategoryRepository) -> (response:
    Result<Category, ApiError>)
    ensures
        response == if category_repository@.contains_key(category_id.value()) {
            Ok::<Category, ApiError>(category_repository@[category_id.value()])
        } else {
            Err(ApiError::NotFound)
        },
{
    match category_repository.get(&category_id) {
        Some(category) => Ok(category.clone()),
        None => Err(ApiError::NotFound),
    }
}

/// The restaurant stored under the identifier; `NotFound` if there is none.
pub fn get_restaurant_by_id(
    restaurant_id: RestaurantId,
    restaurant_repository: &RestaurantRepository,
) -> (response: Result<Restaurant, ApiError>)
    ensures
        response == if restaurant_repository@.contains_key(restaurant_id.value()) {
            Ok::<Restaurant, ApiError>(restaurant_repository@[restaurant_id.value()])
        } else {
            Err(ApiError::NotFound)
        },
{
    match restaurant_repository.get(&restaurant_id) {
        Some(restaurant) => Ok(restaurant.clone()),
        None => Err(ApiError::NotFound),
    }
}

} // verus!
