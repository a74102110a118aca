//! The SEML parser: turns a document into a scenario and run parameters.
use vstd::prelude::*;

pub mod actions;
pub mod decimal;
pub mod document;
pub mod fields;
pub mod headers;
pub mod lines;
pub mod wave;

pub use document::{parse, Parsed};

verus! {

} // verus!
