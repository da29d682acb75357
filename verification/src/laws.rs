//! What holds of the engine as a whole, stated on texts, numbers and fields alone.

pub mod calls;
pub mod changes;
pub mod indexing;
pub mod maps;
mod names;
pub mod plans;
pub mod queries;
pub mod results;
pub mod searching;
pub mod serving;
pub mod texts;
pub mod values;
