//! Normalization of bank and payment-provider statement files into one unified
//! transaction table: a catalog of known layouts, detection of a file's layout from
//! its header, projection of raw rows into unified rows, and aggregation of tables.

pub mod amount;
pub mod catalog;
pub mod cell;
pub mod conf;
pub mod dataset;
pub mod datetime;
pub mod dedup;
pub mod error;
pub mod reader;

pub use crate::conf::Config;
pub use crate::dataset::Dataset;
