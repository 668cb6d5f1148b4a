//! A typed, columnar, in-memory data frame with verified selection,
//! filtering, mutation and summary logic.

pub mod text;
pub mod infer;
pub mod number;
pub mod date;
pub mod column;
pub mod scalar;
pub mod frame;
pub mod ingest;
pub mod stats;
pub mod laws;
pub mod users;
pub mod linked;
pub mod solutions;
pub mod conv;
pub mod recursions;
pub mod encoders;
pub mod heap;
pub mod builder;
