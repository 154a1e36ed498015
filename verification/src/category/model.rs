//! The category and its identifier.

pub use crate::model::{Category, CategoryId};
