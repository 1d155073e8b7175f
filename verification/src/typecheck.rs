//! The typechecker.
//!
//! # Mode
//!
//! Typechecking can be made in two different modes:
//! - **Strict**: correspond to traditional typechecking in strongly, statically typed languages.
//!   This happens inside a `Promise` block. Promise block are introduced by the typing operator
//!   `:`, as in `1 + 1 : Num` or `let f : Num -> Num = fun x => x + 1 in ..`.
//! - **Non strict**: do not enforce any typing, but still store the annotations of let bindings in
//!   the environment, and continue to traverse the AST looking for other `Promise` blocks to
//!   typecheck.
//!
//! The algorithm starts in non strict mode. It is switched to strict mode when entering a
//! `Promise` block, and is switched to non-strict mode when entering an `Assume` block.  `Promise`
//! and `Assume` thus serve both two purposes: annotate a term with a type, and set the
//! typechecking mode.
//!
//! # Type inference
//!
//! Type inference is done via a standard unification algorithm. The type of unannotated let-bound
//! expressions (the type of `bound_exp` in `let x = bound_exp in body`) is inferred in strict
//! mode, but it is never implicitly generalized. For example, the following program is rejected:
//!
//! ```text
//! // Rejected
//! let id = fun x => x in seq (id "a") (id 5) : Num
//! ```
//!
//! Indeed, `id` is given the type `_a -> _a`, where `_a` is a unification variable, but is not
//! generalized to `forall a. a -> a`. At the first call site, `_a` is unified with `Str`, and at
//! the second call site the typechecker complains that `5` is not of type `Str`.
//!
//! This restriction is on purpose, as generalization is not trivial to implement efficiently and
//! can interact with other parts of type inference. If polymorphism is required, a simple
//! annotation is sufficient:
//!
//! ```text
//! // Accepted
//! let id : forall a. a -> a = fun x => x in seq (id "a") (id 5) : Num
//! ```
//!
//! In non-strict mode, all let-bound expressions are given their apparent type: the one of their
//! annotation, the one of a constant or of a variable, and else an approximation.
//!
//! # Bounds
//!
//! Nothing keeps a unification variable from being unified with a type that contains it. On such
//! types, unification may not end. The functions whose names end in `_within` take a bound on the
//! number of their nested calls. They are total: their contracts equate them with the
//! specification functions `run_..`, which take the same bound. They return nothing if the bound
//! does not suffice, and also, whatever the bound, where there is nothing to return:
//! - a type has a unification variable that is not in the table;
//! - a term has an operator without a type: one that is only produced during evaluation;
//! - a term has a resolved import that the import resolver does not have;
//! - an error to report is a `DomainMismatch` or `CodomainMismatch` between types that are not
//!   arrows, which unification never gives;
//! - the counter of the letters that name variables and constants is full.
//!
//! The functions without a bound require that the run returns within the largest one. A run that
//! returns within some bound returns the same within every larger one.
use vstd::prelude::*;

pub mod check;
pub mod envs;
pub mod errors;
pub mod instantiate;
pub mod mk_typewrapper;
pub mod naming;
pub mod ops;
pub mod reporting;
pub mod state;
pub mod unify;
pub mod wrapper;

pub use check::{
    check_, check_within, extract_type_within, to_type, type_check, type_check_in_env,
    type_check_in_env_within, type_check_within,
};
pub use envs::{apparent_type, binding_type, ApparentType, Envs};
pub use errors::{RowUnifError, UnifError};
pub use instantiate::{instantiate_foralls, instantiate_foralls_within, ForallInst};
pub use ops::{get_bop_type, get_nop_type, get_uop_type};
pub use reporting::NameReg;
pub use state::{
    constr_unify, constrain_var, constrain_var_within, constraint, constraint_within, follow_row,
    get_root, get_root_within, new_var, RowConstr, State, UnifTable,
};
pub use unify::{
    check_sub, check_sub_, check_sub_dyn_record, check_sub_dyn_record_within, check_sub_rows,
    check_sub_rows_within, check_sub_within, check_sub_within_, row_add, row_add_within,
};
pub use wrapper::{to_typewrapper, TypeWrapper};
