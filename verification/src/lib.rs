//! Verified core of a ClickHouse add-in for 1C: a per-table row cache,
//! TSV to JSON row parsing, SQL statement building and metric packaging.

pub mod text;
pub mod json;
pub mod number;
pub mod utils;
pub mod cache;
pub mod metrics;
pub mod click_house_component;
pub mod laws;
pub mod tsv_laws;
