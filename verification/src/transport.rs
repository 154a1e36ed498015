//! What the listing page shows: for each category its name and the
//! restaurants in it, each reduced to identifier and name.

use crate::model::RestaurantId;
use vstd::prelude::*;

verus! {

/// A restaurant as the listing shows it.
#[derive(Debug)]
pub struct Restaurant {
    pub restaurant_id: RestaurantId,
    pub restaurant_name: String,
}

/// One category of the listing with the restaurants in it.
#[derive(Debug)]
pub struct CategoriesWithRestaurants {
    pub category_name: String,
    pub restaurants: Vec<Restaurant>,
}

/// The value of a [`Restaurant`] of the listing.
pub struct RestaurantView {
    pub restaurant_id: RestaurantId,
    pub restaurant_name: Seq<char>,
}

/// The value of a [`CategoriesWithRestaurants`].
pub struct CategoriesWithRestaurantsView {
    pub category_name: Seq<char>,
    pub restaurants: Seq<RestaurantView>,
}

impl View for Restaurant {
    type V = RestaurantView;

    open spec fn view(&self) -> RestaurantView {
        RestaurantView {
            restaurant_id: self.restaurant_id,
            restaurant_name: self.restaurant_name@,
        }
    }
}

impl View for CategoriesWithRestaurants {
    type V = CategoriesWithRestaurantsView;

    open spec fn view(&self) -> CategoriesWithRestaurantsView {
        CategoriesWithRestaurantsView {
            category_name: self.category_name@,
            restaurants: entry_views(self.restaurants@),
        }
    }
}

/// The values of the entries of a sequence, in its order.
pub open spec fn entry_views(entries: Seq<Restaurant>) -> Seq<RestaurantView> {
    entries.map_values(|r: Restaurant| r@)
}

/// The values of the listings of a sequence, in its order.
pub open spec fn listing_views(listings: Seq<CategoriesWithRestaurants>) -> Seq<
    CategoriesWithRestaurantsView,
> {
    listings.map_values(|l: CategoriesWithRestaurants| l@)
}

impl Clone for Restaurant {
    fn clone(&self) -> (copy: Self)
        ensures
            copy == *self,
    {
        Restaurant {
            restaurant_id: self.restaurant_id,
            restaurant_name: self.restaurant_name.clone(),
        }
    }
}

impl Clone for CategoriesWithRestaurants {
    fn clone(&self) -> (copy: Self)
        ensures
            copy@ == self@,
    {
        let mut restaurants: Vec<Restaurant> = Vec::new();
        let mut i: usize = 0;
        while i < self.restaurants.len()
            invariant
                i <= self.restaurants.len(),
                restaurants@ == self.restaurants@.take(i as int),
            decreases self.restaurants.len() - i,
        {
            restaurants.push(self.restaurants[i].clone());
            assert(self.restaurants@.take(i + 1) =~= self.restaurants@.take(i as int).push(
                self.restaurants@[i as int],
            ));
            i += 1;
        }
        assert(self.restaurants@.take(i as int) =~= self.restaurants@);
        CategoriesWithRestaurants { category_name: self.category_name.clone(), restaurants }
    }
}

} // verus!
