//! Positions of terms in source files.
use vstd::prelude::*;

verus! {

/// Identifies a source file.
pub type FileId = usize;

/// A span of a source file.
#[derive(Debug, PartialEq, Eq, Clone, Copy)]
pub struct RawSpan {
    pub src_id: FileId,
    pub start: u32,
    pub end: u32,
}

/// The position of a term.
#[derive(Debug, PartialEq, Eq, Clone, Copy)]
pub enum TermPos {
    /// The term comes from the source as it stands.
    Original(RawSpan),
    /// The term was generated, and inherits the position of the term it comes from.
    Inherited(RawSpan),
    /// The term was generated.
    Generated,
}

} // verus!
