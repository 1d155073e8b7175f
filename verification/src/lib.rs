//! A typechecker for a configuration language with gradual typing: terms are statically typed
//! where they have a type annotation, and dynamically typed elsewhere.
//!
//! The entry point is `typecheck::type_check`. The modules `term` and `types` hold the terms and
//! the types of the language, `eval` and `environment` the environments, `cache` the resolved
//! imports, and `error` the errors that are reported.
//!
//! Contracts are stated over the mathematical types of the module `model`. What holds of all runs
//! of the typechecker is proved in the module `laws`.
use vstd::prelude::*;

pub mod cache;
pub mod environment;
pub mod error;
pub mod eval;
pub mod identifier;
pub mod label;
pub mod laws;
pub mod model;
pub mod position;
pub mod term;
pub mod typecheck;
pub mod types;
