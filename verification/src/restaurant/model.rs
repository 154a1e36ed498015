//! The restaurant and its identifier.

pub use crate::model::{Restaurant, RestaurantId};
