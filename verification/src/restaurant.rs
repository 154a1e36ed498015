//! The store of restaurants as a capability: what a store offers, and the
//! store that holds its restaurants in memory.

pub mod model;
pub mod repository;
