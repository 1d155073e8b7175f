//! Paths into types.
use vstd::prelude::*;

verus! {

/// One step of a path into a type.
#[derive(Debug, PartialEq, Eq, Clone, Copy)]
pub enum Elem {
    /// To the domain of an arrow type.
    Domain,
    /// To the codomain of an arrow type.
    Codomain,
}

/// A path that points at a subtype of a type.
pub type Path = Vec<Elem>;

} // verus!
