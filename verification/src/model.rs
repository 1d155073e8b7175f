//! The mathematical model of types and of the unification state.
use vstd::prelude::*;

use crate::label::ty_path::Elem;
use crate::position::{FileId, TermPos};
use crate::term::RichTerm;

verus! {

/// A name: the spelling of an identifier.
pub type Name = Seq<char>;

/// A type, over names and with unification variables (`Ptr`) and rigid constants (`Constant`).
pub enum Ty {
    Dyn,
    Num,
    Bool,
    Str,
    Sym,
    Flat(RichTerm),
    Arrow(Box<Ty>, Box<Ty>),
    Var(Name),
    Forall(Name, Box<Ty>),
    RowEmpty,
    RowExtend(Name, Option<Box<Ty>>, Box<Ty>),
    Enum(Box<Ty>),
    StaticRecord(Box<Ty>),
    DynRecord(Box<Ty>),
    List(Box<Ty>),
    Constant(usize),
    Ptr(usize),
}

impl Ty {
    /// Whether a type is neither a unification variable nor a rigid constant.
    pub open spec fn is_concrete(self) -> bool {
        !(self is Ptr) && !(self is Constant)
    }

    /// Whether a type is a row, or the tail `Dyn` of one.
    pub open spec fn is_row(self) -> bool {
        self is RowEmpty || self is RowExtend || self is Dyn
    }
}

/// The function type `s -> t`.
pub open spec fn arrow(s: Ty, t: Ty) -> Ty {
    Ty::Arrow(Box::new(s), Box::new(t))
}

/// The row that extends `tail` by an identifier, with its type in a record row.
pub open spec fn row_extend(id: Name, ty: Option<Ty>, tail: Ty) -> Ty {
    Ty::RowExtend(
        id,
        match ty {
            Some(t) => Some(Box::new(t)),
            None => None,
        },
        Box::new(tail),
    )
}

/// The type that a row extension gives to its identifier.
pub open spec fn unbox(ty: Option<Box<Ty>>) -> Option<Ty> {
    match ty {
        Some(t) => Some(*t),
        None => None,
    }
}

/// The list type of `t`.
pub open spec fn list_of(t: Ty) -> Ty {
    Ty::List(Box::new(t))
}

/// The dictionary type of `t`.
pub open spec fn dict_of(t: Ty) -> Ty {
    Ty::DynRecord(Box::new(t))
}

/// The enum type of a row.
pub open spec fn enum_of(row: Ty) -> Ty {
    Ty::Enum(Box::new(row))
}

/// The record type of a row.
pub open spec fn record_of(row: Ty) -> Ty {
    Ty::StaticRecord(Box::new(row))
}

/// The unification table: each variable is free, or bound to a type.
pub type Table = Map<usize, Option<Ty>>;

/// Row constraints: the identifiers that a row variable must not be given.
pub type Constr = Map<usize, Set<Name>>;

/// The unification state.
pub struct St {
    /// The unification table.
    pub table: Table,
    /// The row constraints.
    pub constr: Constr,
    /// The names of the type variables that unification variables and constants come from.
    pub names: Map<usize, Name>,
    /// The terms of the resolved imports.
    pub imports: Map<FileId, RichTerm>,
}

/// An error of the unification of two rows.
pub enum RowErr {
    MissingRow(Name),
    MissingDynTail,
    ExtraRow(Name),
    ExtraDynTail,
    RowMismatch(Name, UErr),
    RowKindMismatch(Name, Option<Ty>, Option<Ty>),
    IllformedRow(Ty),
    UnsatConstr(Name, Option<Ty>),
    WithConst(usize, Ty),
    ConstMismatch(usize, usize),
}

/// An error of the unification of two types.
pub enum UErr {
    TypeMismatch(Ty, Ty),
    RowMismatch(Name, Ty, Ty, Box<UErr>),
    RowKindMismatch(Name, Option<Ty>, Option<Ty>),
    ConstMismatch(usize, usize),
    MissingRow(Name, Ty, Ty),
    MissingDynTail(Ty, Ty),
    ExtraRow(Name, Ty, Ty),
    ExtraDynTail(Ty, Ty),
    IllformedRow(Ty),
    RowConflict(Name, Option<Ty>, Ty, Ty),
    WithConst(usize, Ty),
    IllformedFlatType(RichTerm),
    IllformedType(Ty),
    UnboundTypeVariable(Name),
    DomainMismatch(Ty, Ty, Box<UErr>),
    CodomainMismatch(Ty, Ty, Box<UErr>),
}

/// An error of typechecking, as it is reported.
pub enum CheckErr {
    UnboundIdentifier(Name, TermPos),
    IllformedType(Ty),
    MissingRow(Name, Ty, Ty, TermPos),
    MissingDynTail(Ty, Ty, TermPos),
    ExtraRow(Name, Ty, Ty, TermPos),
    ExtraDynTail(Ty, Ty, TermPos),
    UnboundTypeVariable(Name, TermPos),
    TypeMismatch(Ty, Ty, TermPos),
    RowKindMismatch(Name, Option<Ty>, Option<Ty>, TermPos),
    ArrowTypeMismatch(Ty, Ty, Seq<Elem>, Box<CheckErr>, TermPos),
    RowMismatch(Name, Ty, Ty, Box<CheckErr>, TermPos),
    RowConflict(Name, Option<Ty>, Ty, Ty, TermPos),
}

} // verus!
