//! Labels, the blame information that annotations carry.
use vstd::prelude::*;

pub mod ty_path;

verus! {

/// The information that an annotation carries for blame reporting. Typechecking never reads it.
#[derive(Debug, PartialEq, Eq)]
pub struct Label {
    /// A message for the user.
    pub tag: String,
    /// Whether the term is to blame, or its context.
    pub polarity: bool,
}

} // verus!
