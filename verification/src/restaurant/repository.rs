//! What a store of restaurants offers, whatever holds the restaurants.

use crate::restaurant::model::{Restaurant, RestaurantId};
use crate::repository::{enumerates, lemma_enumerates};
use std::collections::HashMap;
use vstd::prelude::*;

verus! {

/// A store of restaurants: lookup by identifier, and enumeration.
pub trait RestaurantRepository: Clone + Send + Sync + 'static {
    /// The mapping that the store holds, each restaurant under the bits of an
    /// identifier.
    spec fn contents(&self) -> Map<u128, Restaurant>;

    /// The restaurant stored under the identifier, if there is one.
    fn get(&self, restaurant_id: &RestaurantId) -> (found: Option<&Restaurant>)
        ensures
            found == if self.contents().contains_key(restaurant_id.value()) {
                Some(&self.contents()[restaurant_id.value()])
            } else {
                None
            },
    ;

    /// Every restaurant of the store, each once, in an order that the store
    /// chooses.
    fn get_all(&self) -> (all: Vec<Restaurant>)
        ensures
            enumerates(all@, self.contents()),
    ;
}

/// The store that holds its restaurants in memory.
pub struct LocalRestaurantRepository {
    store: crate::repository::RestaurantRepository,
}

impl LocalRestaurantRepository {
    /// A store of the given mapping.
    pub fn new(restaurant_map: HashMap<u128, Restaurant>) -> (repository: Self)
        ensures
            repository.contents() == restaurant_map@,
    {
        LocalRestaurantRepository { store: crate::repository::RestaurantRepository::new(restaurant_map) }
    }
}

impl Clone for LocalRestaurantRepository {
    fn clone(&self) -> (copy: Self)
        ensures
            copy.contents() == self.contents(),
    {
        LocalRestaurantRepository { store: self.store.clone() }
    }
}

impl RestaurantRepository for LocalRestaurantRepository {
    closed spec fn contents(&self) -> Map<u128, Restaurant> {
        self.store@
    }

    fn get(&self, restaurant_id: &RestaurantId) -> (found: Option<&Restaurant>) {
        self.store.get(restaurant_id)
    }

    fn get_all(&self) -> (all: Vec<Restaurant>) {
        let all = self.store.get_all();
        proof {
            lemma_enumerates(self.store.entries(), self.store@);
        }
        all
    }
}

} // verus!
