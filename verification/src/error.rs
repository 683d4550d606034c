//! Errors of parsing, rendering and configuration.

use vstd::prelude::*;

verus! {

/// What can go wrong while reading a PBN file.
#[derive(Debug, Clone, PartialEq, Eq)]
pub enum PbnError {
    InvalidTagPair { line: usize, message: String },
    InvalidDeal(String),
    InvalidCard(String),
    InvalidCall(String),
    UnclosedComment,
    UnknownFormatTag(String),
    ParseError(String),
}

/// What can go wrong while producing a document.
#[derive(Debug, Clone, PartialEq, Eq)]
pub enum RenderError {
    FontLoad(String),
    PdfGeneration(String),
    LayoutOverflow,
    /// An input or output failure, with the system's description of it.
    Io(String),
}

/// What can go wrong in the command-line settings.
#[derive(Debug, Clone, PartialEq, Eq)]
pub enum ConfigError {
    InvalidBoardRange(String),
    InvalidColor(String),
}

} // verus!
