//! Verified bulk-ingestion pipeline for delimited nutrition extracts.
//!
//! The library loads tabular text files (foods, branded-product attributes,
//! nutrient measurements, nutrient definitions, derivation codes), combines
//! the food and branded files with a sort-merge equi-join, resolves dimension
//! foreign keys (food groups, brand owners) with a get-or-create step,
//! reconciles dual-encoded nutrient references, derives per-portion nutrient
//! amounts, and loads the resulting rows into an in-memory store model in
//! bounded batches.  File and database I/O stay outside the library; callers
//! hand in the file text and take the completed store back.

pub mod batch;
pub mod dataset;
pub mod dates;
pub mod errors;
pub mod mapper;
pub mod models;
pub mod numbers;
pub mod pipeline;
pub mod portion;
pub mod store;
pub mod tabular;
pub mod text;
pub mod views;
