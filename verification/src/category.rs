//! The store of categories as a capability: what a store offers, and the
//! store that holds its categories in memory.

pub mod model;
pub mod repository;
