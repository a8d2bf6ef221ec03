//! Hash-based grouped aggregation over columnar batches.
//!
//! The executor pulls a finite sequence of batches from its upstream source,
//! maintains one accumulator vector per distinct group key, and, once the
//! input is exhausted, materializes all groups into a single output batch.

pub mod value;
pub mod array;
pub mod expr;
pub mod aggregation;
pub mod group_key;
pub mod store;
pub mod model;
pub mod hash_agg;
pub mod laws;
