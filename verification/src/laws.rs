//! The laws of the typechecker: what holds of all runs of its functions.
//!
//! - `bindings`: the types that bindings are given.
//! - `closed`: subtyping between types without variables, constants and quantifiers.
//! - `congruence`: the unification of types in terms of that of their components.
//! - `constraints`: an identifier that a row must not contain stays forbidden to it.
//! - `depth`: the bound on nested calls only decides whether a run returns.
//! - `errors`: the errors of unification, and the names in the errors that are reported.
//! - `judgments`: when a term typechecks, in terms of how its parts do.
//! - `modes`: non-strict mode does not enforce any typing.
//! - `operators`: the types of the primitive operators.
//! - `reflexive`: unification accepts what it must.
//! - `reports`: what extracted types, reported types and reported errors are.
//! - `rows`: what row constraints rule out.
//! - `scoping`: every variable in a type has been introduced, and one that nothing mentions stays
//!   free.
//! - `steps`: how the helpers of unification act on the parts of types.
//! - `subtyping`: what a successful unification establishes.
//! - `table`: the unification table only grows, and every variable has a representative.
//! - `total`: unification of types without variables returns.
//! - `types`: conversions, substitution, instantiation, and the types of bindings.
//! - `typing`: what successful typechecking establishes.
//! - `views`: the models of states, results and conversions.
use vstd::prelude::*;

pub mod bindings;
pub mod closed;
pub mod congruence;
pub mod constraints;
pub mod depth;
pub mod errors;
pub mod judgments;
pub mod modes;
pub mod operators;
pub mod reflexive;
pub mod reports;
pub mod rows;
pub mod scoping;
pub mod steps;
pub mod subtyping;
pub mod table;
pub mod total;
pub mod types;
pub mod typing;
pub mod views;
