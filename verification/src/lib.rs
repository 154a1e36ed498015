//! A read-only restaurant directory: categories and restaurants held in
//! id-keyed stores, and the aggregation that joins them into a listing grouped
//! by category and sorted by name.

pub mod aggregator;
pub mod api;
pub mod category;
pub mod construct_page;
pub mod local_data;
pub mod model;
pub mod name_order;
pub mod repository;
pub mod restaurant;
pub mod sorting;
pub mod transport;
pub mod utf8_order;
