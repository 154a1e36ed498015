//! What a store of categories offers, whatever holds the categories.

use crate::category::model::{Category, CategoryId};
use crate::repository::{enumerates, lemma_enumerates};
use std::collections::HashMap;
use vstd::prelude::*;

verus! {

/// A store of categories: lookup by identifier, and enumeration.
pub trait CategoryRepository: Clone + Send + Sync + 'static {
    /// The mapping that the store holds, each category under the bits of an
    /// identifier.
    spec fn contents(&self) -> Map<u128, Category>;

    /// The category stored under the identifier, if there is one.
    fn get(&self, category_id: &CategoryId) -> (found: Option<&Category>)
        ensures
            found == if self.contents().contains_key(category_id.value()) {
                Some(&self.contents()[category_id.value()])
            } else {
                None
            },
    ;

    /// Every category of the store, each once, in an order that the store
    /// chooses.
    fn get_all(&self) -> (all: Vec<Category>)
        ensures
            enumerates(all@, self.contents()),
    ;
}

/// The store that holds its categories in memory.
pub struct LocalCategoryRepository {
    store: crate::repository::CategoryRepository,
}

impl LocalCategoryRepository {
    /// A store of the given mapping.
    pub fn new(category_map: HashMap<u128, Category>) -> (repository: Self)
        ensures
            repository.contents() == category_map@,
    {
        LocalCategoryRepository { store: crate::repository::CategoryRepository::new(category_map) }
    }
}

impl Clone for LocalCategoryRepository {
    fn clone(&self) -> (copy: Self)
        ensures
            copy.contents() == self.contents(),
    {
        LocalCategoryRepository { store: self.store.clone() }
    }
}

impl CategoryRepository for LocalCategoryRepository {
    closed spec fn contents(&self) -> Map<u128, Category> {
        self.store@
    }

    fn get(&self, category_id: &CategoryId) -> (found: Option<&Category>) {
        self.store.get(category_id)
    }

    fn get_all(&self) -> (all: Vec<Category>) {
        let all = self.store.get_all();
        proof {
            lemma_enumerates(self.store.entries(), self.store@);
        }
        all
    }
}

} // verus!
