//! Dataset preparation for language-model fine-tuning.
//!
//! [`models::packing`] packs tokenized sequences into fixed-width training
//! records; [`models::packing_model`] says what a packing is and
//! [`models::packing_laws`] proves what holds of every packing.
//! [`conversion`] lays code samples out as training columns,
//! [`models::features`] describes the schema of prepared data and
//! [`models::runtime`] chooses the schema to retry with after a schema error.

pub mod conversion;
pub mod models;
pub mod text;
