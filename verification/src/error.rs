//! The errors that typechecking reports.
use vstd::prelude::*;

use crate::identifier::Ident;
use crate::label::ty_path;
use crate::model::{CheckErr, Ty};
use crate::position::TermPos;
use crate::types::Types;

verus! {

/// An error reported by the typechecker.
#[derive(Debug, PartialEq)]
pub enum TypecheckError {
    /// An unbound identifier was referenced.
    UnboundIdentifier(Ident, TermPos),
    /// A specific type was ill-formed.
    IllformedType(Types),
    /// The inferred type misses a row that the expected type has.
    MissingRow(Ident, Types, Types, TermPos),
    /// The inferred type misses the `Dyn` tail that the expected type has.
    MissingDynTail(Types, Types, TermPos),
    /// The inferred type has a row that the expected type has not.
    ExtraRow(Ident, Types, Types, TermPos),
    /// The inferred type has a `Dyn` tail that the expected type has not.
    ExtraDynTail(Types, Types, TermPos),
    /// An unbound type variable was referenced.
    UnboundTypeVariable(Ident, TermPos),
    /// The types of an expression do not agree.
    TypeMismatch(Types, Types, TermPos),
    /// Two rows have an identifier in common, one as an enum row and the other as a record row.
    RowKindMismatch(Ident, Option<Types>, Option<Types>, TermPos),
    /// Two arrow types do not agree, at the subtype that the path points at.
    ArrowTypeMismatch(Types, Types, ty_path::Path, Box<TypecheckError>, TermPos),
    /// Two rows give incompatible types to the same identifier.
    RowMismatch(Ident, Types, Types, Box<TypecheckError>, TermPos),
    /// A row declares an identifier twice.
    RowConflict(Ident, Option<Types>, Types, Types, TermPos),
}

/// The model of an optional type.
pub open spec fn opt_types(ty: Option<Types>) -> Option<Ty> {
    match ty {
        Some(t) => Some(t@),
        None => None,
    }
}

impl View for TypecheckError {
    type V = CheckErr;

    open spec fn view(&self) -> CheckErr
        decreases self,
    {
        match self {
            TypecheckError::UnboundIdentifier(id, pos) => CheckErr::UnboundIdentifier(id@, *pos),
            TypecheckError::IllformedType(ty) => CheckErr::IllformedType(ty@),
            TypecheckError::MissingRow(id, t1, t2, pos) => CheckErr::MissingRow(
                id@,
                t1@,
                t2@,
                *pos,
            ),
            TypecheckError::MissingDynTail(t1, t2, pos) => CheckErr::MissingDynTail(
                t1@,
                t2@,
                *pos,
            ),
            TypecheckError::ExtraRow(id, t1, t2, pos) => CheckErr::ExtraRow(id@, t1@, t2@, *pos),
            TypecheckError::ExtraDynTail(t1, t2, pos) => CheckErr::ExtraDynTail(t1@, t2@, *pos),
            TypecheckError::UnboundTypeVariable(id, pos) => CheckErr::UnboundTypeVariable(
                id@,
                *pos,
            ),
            TypecheckError::TypeMismatch(t1, t2, pos) => CheckErr::TypeMismatch(t1@, t2@, *pos),
            TypecheckError::RowKindMismatch(id, t1, t2, pos) => CheckErr::RowKindMismatch(
                id@,
                opt_types(*t1),
                opt_types(*t2),
                *pos,
            ),
            TypecheckError::ArrowTypeMismatch(t1, t2, path, err, pos) =>
                CheckErr::ArrowTypeMismatch(t1@, t2@, path@, Box::new((**err)@), *pos),
            TypecheckError::RowMismatch(id, t1, t2, err, pos) => CheckErr::RowMismatch(
                id@,
                t1@,
                t2@,
                Box::new((**err)@),
                *pos,
            ),
            TypecheckError::RowConflict(id, ty, t1, t2, pos) => CheckErr::RowConflict(
                id@,
                opt_types(*ty),
                t1@,
                t2@,
                *pos,
            ),
        }
    }
}

} // verus!
