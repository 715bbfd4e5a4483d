//! An unpadded base-32 encoder that packs five bits of input into each
//! output symbol, writing into a buffer supplied by the caller.
pub mod engine;
pub mod laws;
pub mod model;

pub use engine::{write_u8, Engine, Error, NaiveEngine};
