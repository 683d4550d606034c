//! Portable Bridge Notation (PBN) model, parsers and layout logic for
//! bridge hand documents.

pub mod cli;
pub mod error;
pub mod model;
pub mod parser;
pub mod render;
pub mod text;

use vstd::prelude::*;

verus! {

} // verus!
