//! Unification errors.
//!
//! There is a hierarchy between error types, from the most local to the most high-level: row
//! unification errors, unification errors and typechecking errors. Each level adds information
//! (such as types or positions) and groups specific errors into more general ones.
use vstd::prelude::*;

use crate::identifier::Ident;
use crate::label::ty_path;
use crate::model::{RowErr, Ty, UErr};
use crate::term::RichTerm;
use crate::typecheck::wrapper::{opt_ty, TypeWrapper};
use crate::types::AbsType;

verus! {

/// Error during the unification of two row types.
#[derive(Debug, PartialEq)]
pub enum RowUnifError {
    /// The LHS had a binding that was missing in the RHS.
    MissingRow(Ident),
    /// The LHS had a `Dyn` tail that was missing in the RHS.
    MissingDynTail(),
    /// The RHS had a binding that was not in the LHS.
    ExtraRow(Ident),
    /// The RHS had a additional `Dyn` tail.
    ExtraDynTail(),
    /// There were two incompatible definitions for the same row.
    RowMismatch(Ident, UnifError),
    /// Tried to unify an enum row and a record row.
    RowKindMismatch(Ident, Option<TypeWrapper>, Option<TypeWrapper>),
    /// One of the row was ill-formed (typically, a tail was neither a row, a variable nor `Dyn`).
    IllformedRow(TypeWrapper),
    /// A row constraint was violated.
    UnsatConstr(Ident, Option<TypeWrapper>),
    /// Tried to unify a type constant with another different type.
    WithConst(usize, TypeWrapper),
    /// Tried to unify two distinct type constants.
    ConstMismatch(usize, usize),
}

/// Error during the unification of two types.
#[derive(Debug, PartialEq)]
pub enum UnifError {
    /// Tried to unify two incompatible types.
    TypeMismatch(TypeWrapper, TypeWrapper),
    /// There are two incompatible definitions for the same row.
    RowMismatch(Ident, TypeWrapper, TypeWrapper, Box<UnifError>),
    /// Tried to unify an enum row and a record row.
    RowKindMismatch(Ident, Option<TypeWrapper>, Option<TypeWrapper>),
    /// Tried to unify two distinct type constants.
    ConstMismatch(usize, usize),
    /// Tried to unify two rows, but an identifier of the LHS was absent from the RHS.
    MissingRow(Ident, TypeWrapper, TypeWrapper),
    /// Tried to unify two rows, but the `Dyn` tail of the RHS was absent from the LHS.
    MissingDynTail(TypeWrapper, TypeWrapper),
    /// Tried to unify two rows, but an identifier of the RHS was absent from the LHS.
    ExtraRow(Ident, TypeWrapper, TypeWrapper),
    /// Tried to unify two rows, but the `Dyn` tail of the RHS was absent from the LHS.
    ExtraDynTail(TypeWrapper, TypeWrapper),
    /// A row was ill-formed.
    IllformedRow(TypeWrapper),
    /// Tried to unify a unification variable with a row type violating the row constraints of the
    /// variable.
    RowConflict(Ident, Option<TypeWrapper>, TypeWrapper, TypeWrapper),
    /// Tried to unify a type constant with another different type.
    WithConst(usize, TypeWrapper),
    /// A flat type, which is an opaque type corresponding to custom contracts, contained a term
    /// different from a variable. Only a variable is a legal inner term of a flat type.
    IllformedFlatType(RichTerm),
    /// A generic type was ill-formed. This happens if a `StaticRecord` or `Enum` type does not
    /// contain a row type.
    IllformedType(TypeWrapper),
    /// An unbound type variable was referenced.
    UnboundTypeVariable(Ident),
    /// An error occurred when unifying the domains of two arrows.
    DomainMismatch(TypeWrapper, TypeWrapper, Box<UnifError>),
    /// An error occurred when unifying the codomains of two arrows.
    CodomainMismatch(TypeWrapper, TypeWrapper, Box<UnifError>),
}

impl View for UnifError {
    type V = UErr;

    open spec fn view(&self) -> UErr
        decreases self,
    {
        match self {
            UnifError::TypeMismatch(t1, t2) => UErr::TypeMismatch(t1@, t2@),
            UnifError::RowMismatch(id, t1, t2, err) => UErr::RowMismatch(
                id@,
                t1@,
                t2@,
                Box::new((**err)@),
            ),
            UnifError::RowKindMismatch(id, t1, t2) => UErr::RowKindMismatch(
                id@,
                opt_ty(*t1),
                opt_ty(*t2),
            ),
            UnifError::ConstMismatch(c1, c2) => UErr::ConstMismatch(*c1, *c2),
            UnifError::MissingRow(id, t1, t2) => UErr::MissingRow(id@, t1@, t2@),
            UnifError::MissingDynTail(t1, t2) => UErr::MissingDynTail(t1@, t2@),
            UnifError::ExtraRow(id, t1, t2) => UErr::ExtraRow(id@, t1@, t2@),
            UnifError::ExtraDynTail(t1, t2) => UErr::ExtraDynTail(t1@, t2@),
            UnifError::IllformedRow(t) => UErr::IllformedRow(t@),
            UnifError::RowConflict(id, ty, t1, t2) => UErr::RowConflict(
                id@,
                opt_ty(*ty),
                t1@,
                t2@,
            ),
            UnifError::WithConst(c, t) => UErr::WithConst(*c, t@),
            UnifError::IllformedFlatType(t) => UErr::IllformedFlatType(*t),
            UnifError::IllformedType(t) => UErr::IllformedType(t@),
            UnifError::UnboundTypeVariable(id) => UErr::UnboundTypeVariable(id@),
            UnifError::DomainMismatch(t1, t2, err) => UErr::DomainMismatch(
                t1@,
                t2@,
                Box::new((**err)@),
            ),
            UnifError::CodomainMismatch(t1, t2, err) => UErr::CodomainMismatch(
                t1@,
                t2@,
                Box::new((**err)@),
            ),
        }
    }
}

impl View for RowUnifError {
    type V = RowErr;

    open spec fn view(&self) -> RowErr {
        match self {
            RowUnifError::MissingRow(id) => RowErr::MissingRow(id@),
            RowUnifError::MissingDynTail() => RowErr::MissingDynTail,
            RowUnifError::ExtraRow(id) => RowErr::ExtraRow(id@),
            RowUnifError::ExtraDynTail() => RowErr::ExtraDynTail,
            RowUnifError::RowMismatch(id, err) => RowErr::RowMismatch(id@, err@),
            RowUnifError::RowKindMismatch(id, t1, t2) => RowErr::RowKindMismatch(
                id@,
                opt_ty(*t1),
                opt_ty(*t2),
            ),
            RowUnifError::IllformedRow(t) => RowErr::IllformedRow(t@),
            RowUnifError::UnsatConstr(id, t) => RowErr::UnsatConstr(id@, opt_ty(*t)),
            RowUnifError::WithConst(c, t) => RowErr::WithConst(*c, t@),
            RowUnifError::ConstMismatch(c1, c2) => RowErr::ConstMismatch(*c1, *c2),
        }
    }
}

/// The unification error of a row unification error, between the types `left` and `right`.
pub open spec fn unif_err(err: RowErr, left: Ty, right: Ty) -> UErr {
    match err {
        RowErr::MissingRow(id) => UErr::MissingRow(id, left, right),
        RowErr::MissingDynTail => UErr::MissingDynTail(left, right),
        RowErr::ExtraRow(id) => UErr::ExtraRow(id, left, right),
        RowErr::ExtraDynTail => UErr::ExtraDynTail(left, right),
        RowErr::RowKindMismatch(id, t1, t2) => UErr::RowKindMismatch(id, t1, t2),
        RowErr::RowMismatch(id, err) => UErr::RowMismatch(id, left, right, Box::new(err)),
        RowErr::IllformedRow(t) => UErr::IllformedRow(t),
        RowErr::UnsatConstr(id, t) => UErr::RowConflict(id, t, left, right),
        RowErr::WithConst(c, t) => UErr::WithConst(c, t),
        RowErr::ConstMismatch(c1, c2) => UErr::ConstMismatch(c1, c2),
    }
}

impl RowUnifError {
    /// Convert a row unification error to a unification error.
    pub fn into_unif_err(self, left: TypeWrapper, right: TypeWrapper) -> (res: UnifError)
        ensures
            res@ == unif_err(self@, left@, right@),
    {
        match self {
            RowUnifError::MissingRow(id) => UnifError::MissingRow(id, left, right),
            RowUnifError::MissingDynTail() => UnifError::MissingDynTail(left, right),
            RowUnifError::ExtraRow(id) => UnifError::ExtraRow(id, left, right),
            RowUnifError::ExtraDynTail() => UnifError::ExtraDynTail(left, right),
            RowUnifError::RowKindMismatch(id, tyw1, tyw2) => {
                UnifError::RowKindMismatch(id, tyw1, tyw2)
            },
            RowUnifError::RowMismatch(id, err) => {
                UnifError::RowMismatch(id, left, right, Box::new(err))
            },
            RowUnifError::IllformedRow(tyw) => UnifError::IllformedRow(tyw),
            RowUnifError::UnsatConstr(id, tyw) => UnifError::RowConflict(id, tyw, left, right),
            RowUnifError::WithConst(c, tyw) => UnifError::WithConst(c, tyw),
            RowUnifError::ConstMismatch(c1, c2) => UnifError::ConstMismatch(c1, c2),
        }
    }
}

/// Whether an error is a `(Co)DomainMismatch`.
pub open spec fn is_arrow_err(err: UErr) -> bool {
    err is DomainMismatch || err is CodomainMismatch
}

/// The two types of a `(Co)DomainMismatch`.
pub open spec fn arrow_err_types(err: UErr) -> (Ty, Ty) {
    match err {
        UErr::DomainMismatch(t1, t2, _) => (t1, t2),
        UErr::CodomainMismatch(t1, t2, _) => (t1, t2),
        _ => arbitrary(),
    }
}

/// The path spelled by the heading sequence of `(Co)DomainMismatch` of an error.
pub open spec fn arrow_err_path(err: UErr) -> Seq<ty_path::Elem>
    decreases err,
{
    match err {
        UErr::DomainMismatch(_, _, e) => seq![ty_path::Elem::Domain] + arrow_err_path(*e),
        UErr::CodomainMismatch(_, _, e) => seq![ty_path::Elem::Codomain] + arrow_err_path(*e),
        _ => Seq::empty(),
    }
}

/// The error below the heading sequence of `(Co)DomainMismatch` of an error.
pub open spec fn arrow_err_cause(err: UErr) -> UErr
    decreases err,
{
    match err {
        UErr::DomainMismatch(_, _, e) => arrow_err_cause(*e),
        UErr::CodomainMismatch(_, _, e) => arrow_err_cause(*e),
        _ => err,
    }
}

/// Whether the heading sequence of `(Co)DomainMismatch` of an error is between arrow types.
pub open spec fn arrow_err_on_arrows(err: UErr) -> bool
    decreases err,
{
    match err {
        UErr::DomainMismatch(t1, t2, e) => t1 is Arrow && t2 is Arrow && arrow_err_on_arrows(*e),
        UErr::CodomainMismatch(t1, t2, e) => t1 is Arrow && t2 is Arrow && arrow_err_on_arrows(*e),
        _ => true,
    }
}

/// The model of the data of a `(Co)DomainMismatch`.
pub open spec fn type_path_view(
    data: Option<(TypeWrapper, TypeWrapper, ty_path::Path, UnifError)>,
) -> Option<(Ty, Ty, Seq<ty_path::Elem>, UErr)> {
    match data {
        Some((t1, t2, path, err)) => Some((t1@, t2@, path@, err@)),
        None => None,
    }
}

/// The data of a `(Co)DomainMismatch`: the original types, the path and the final error.
pub open spec fn type_path(err: UErr) -> Option<(Ty, Ty, Seq<ty_path::Elem>, UErr)> {
    if is_arrow_err(err) {
        let (t1, t2) = arrow_err_types(err);
        Some((t1, t2, arrow_err_path(err), arrow_err_cause(err)))
    } else {
        None
    }
}

impl TypeWrapper {
    /// Whether a type is an arrow.
    pub fn is_arrow(&self) -> (res: bool)
        ensures
            res == (self@ is Arrow),
    {
        match self {
            TypeWrapper::Concrete(AbsType::Arrow(_, _)) => true,
            _ => false,
        }
    }
}

impl UnifError {
    /// Whether the heading sequence of `(Co)DomainMismatch` of an error is between arrow types.
    pub fn is_on_arrows(&self) -> (res: bool)
        ensures
            res == arrow_err_on_arrows(self@),
        decreases self,
    {
        match self {
            UnifError::DomainMismatch(t1, t2, err) | UnifError::CodomainMismatch(t1, t2, err) => {
                t1.is_arrow() && t2.is_arrow() && (**err).is_on_arrows()
            },
            _ => true,
        }
    }

    /// Transform a `(Co)DomainMismatch` into a type path and other data.
    ///
    /// `(Co)DomainMismatch` can be nested: when unifying `Num -> Num -> Num` with `Num -> Bool ->
    /// Num`, the resulting error is of the form `CodomainMismatch(.., DomainMismatch(..,
    /// TypeMismatch(..)))`. The heading sequence of `(Co)DomainMismatch` is better represented as
    /// a type path, here `[Codomain, Domain]`, while the last error of the chain -- which thus
    /// cannot be a `(Co)DomainMismatch` -- is the actual cause of the unification failure.
    ///
    /// # Return
    ///
    /// Return `None` if `self` is not a `DomainMismatch` nor a `CodomainMismatch`.
    ///
    /// Otherwise, return the following tuple:
    ///  - the original expected type.
    ///  - the original actual type.
    ///  - a type path pointing at the subtypes which failed to be unified.
    ///  - the final error, which is the actual cause of that failure.
    pub fn into_type_path(self) -> (res: Option<
        (TypeWrapper, TypeWrapper, ty_path::Path, UnifError),
    >)
        requires
            arrow_err_on_arrows(self@),
        ensures
            type_path_view(res) == type_path(self@),
    {
        let mut curr: UnifError = self;
        let mut path: ty_path::Path = Vec::new();
        // The original expected and actual type. They are just updated once, in the first
        // iteration of the loop below.
        let mut tyws: Option<(TypeWrapper, TypeWrapper)> = None;

        loop
            invariant
                arrow_err_cause(curr@) == arrow_err_cause(self@),
                path@ + arrow_err_path(curr@) == arrow_err_path(self@),
                match tyws {
                    Some((t1, t2)) => is_arrow_err(self@) && (t1@, t2@) == arrow_err_types(self@),
                    None => curr == self && path@.len() == 0,
                },
            decreases curr,
        {
            let ghost before = path@;
            let ghost top = curr@;
            match curr {
                UnifError::DomainMismatch(tyw1, tyw2, err) => {
                    if tyws.is_none() {
                        tyws = Some((tyw1, tyw2));
                    }
                    path.push(ty_path::Elem::Domain);
                    assert(path@ + arrow_err_path(err@) =~= before + arrow_err_path(top));
                    curr = *err;
                },
                UnifError::CodomainMismatch(tyw1, tyw2, err) => {
                    if tyws.is_none() {
                        tyws = Some((tyw1, tyw2));
                    }
                    path.push(ty_path::Elem::Codomain);
                    assert(path@ + arrow_err_path(err@) =~= before + arrow_err_path(top));
                    curr = *err;
                },
                // tyws equals to `None` iff we did not even enter the case above once, i.e. if
                // `self` was indeed neither a `DomainMismatch` nor a `CodomainMismatch`
                curr => {
                    assert(path@ + arrow_err_path(curr@) =~= path@);
                    return match tyws {
                        Some((expd, actual)) => Some((expd, actual, path, curr)),
                        None => None,
                    };
                },
            }
        }
    }
}

} // verus!
