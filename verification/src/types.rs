//! Types of the language.
use vstd::prelude::*;

use crate::identifier::Ident;
use crate::model::Ty;
use crate::term::RichTerm;

verus! {

/// The shape of a type, over the representation `T` of its components.
#[derive(Debug, PartialEq)]
pub enum AbsType<T> {
    /// The dynamic type, given to a value whose actual type is not determined.
    Dyn(),
    /// The type of numbers.
    Num(),
    /// The type of booleans.
    Bool(),
    /// The type of strings.
    Str(),
    /// The type of symbols.
    Sym(),
    /// A type defined by a custom contract.
    Flat(RichTerm),
    /// A function type.
    Arrow(T, T),
    /// A type variable.
    Var(Ident),
    /// A polymorphic type.
    Forall(Ident, T),
    /// The empty row.
    RowEmpty(),
    /// A row extension: an enum row has no type for its identifier, a record row has one.
    RowExtend(Ident, Option<T>, T),
    /// An enum type, of a row.
    Enum(T),
    /// A record type, of a row.
    StaticRecord(T),
    /// A dictionary type: a record whose fields all have the given type.
    DynRecord(T),
    /// A list type.
    List(T),
}

impl<T> AbsType<T> {
    /// Whether a type is a row type.
    pub open spec fn spec_is_row_type(&self) -> bool {
        self is RowEmpty || self is RowExtend || self is Dyn
    }

    /// Whether a type is a row type: a row, or the tail `Dyn` of one.
    pub fn is_row_type(&self) -> (res: bool)
        ensures
            res == self.spec_is_row_type(),
    {
        match self {
            AbsType::RowEmpty() | AbsType::RowExtend(_, _, _) | AbsType::Dyn() => true,
            _ => false,
        }
    }
}

/// A type, as the user writes it.
#[derive(Debug, PartialEq)]
pub enum Types {
    /// The dynamic type.
    Dyn(),
    /// The type of numbers.
    Num(),
    /// The type of booleans.
    Bool(),
    /// The type of strings.
    Str(),
    /// The type of symbols.
    Sym(),
    /// A type defined by a custom contract.
    Flat(RichTerm),
    /// A function type.
    Arrow(Box<Types>, Box<Types>),
    /// A type variable.
    Var(Ident),
    /// A polymorphic type.
    Forall(Ident, Box<Types>),
    /// The empty row.
    RowEmpty(),
    /// A row extension.
    RowExtend(Ident, Option<Box<Types>>, Box<Types>),
    /// An enum type, of a row.
    Enum(Box<Types>),
    /// A record type, of a row.
    StaticRecord(Box<Types>),
    /// A dictionary type.
    DynRecord(Box<Types>),
    /// A list type.
    List(Box<Types>),
}

impl View for Types {
    type V = Ty;

    open spec fn view(&self) -> Ty
        decreases self,
    {
        match self {
            Types::Dyn() => Ty::Dyn,
            Types::Num() => Ty::Num,
            Types::Bool() => Ty::Bool,
            Types::Str() => Ty::Str,
            Types::Sym() => Ty::Sym,
            Types::Flat(t) => Ty::Flat(*t),
            Types::Arrow(s, t) => Ty::Arrow(Box::new((**s)@), Box::new((**t)@)),
            Types::Var(id) => Ty::Var(id@),
            Types::Forall(id, t) => Ty::Forall(id@, Box::new((**t)@)),
            Types::RowEmpty() => Ty::RowEmpty,
            Types::RowExtend(id, ty, tail) => Ty::RowExtend(
                id@,
                match ty {
                    Some(ty) => Some(Box::new((**ty)@)),
                    None => None,
                },
                Box::new((**tail)@),
            ),
            Types::Enum(t) => Ty::Enum(Box::new((**t)@)),
            Types::StaticRecord(t) => Ty::StaticRecord(Box::new((**t)@)),
            Types::DynRecord(t) => Ty::DynRecord(Box::new((**t)@)),
            Types::List(t) => Ty::List(Box::new((**t)@)),
        }
    }
}

impl Clone for Types {
    fn clone(&self) -> (res: Self)
        ensures
            res == *self,
        decreases self,
    {
        match self {
            Types::Dyn() => Types::Dyn(),
            Types::Num() => Types::Num(),
            Types::Bool() => Types::Bool(),
            Types::Str() => Types::Str(),
            Types::Sym() => Types::Sym(),
            Types::Flat(t) => Types::Flat(t.clone()),
            Types::Arrow(s, t) => Types::Arrow(Box::new((**s).clone()), Box::new((**t).clone())),
            Types::Var(id) => Types::Var(id.clone()),
            Types::Forall(id, t) => Types::Forall(id.clone(), Box::new((**t).clone())),
            Types::RowEmpty() => Types::RowEmpty(),
            Types::RowExtend(id, ty, tail) => Types::RowExtend(
                id.clone(),
                match ty {
                    Some(ty) => Some(Box::new((**ty).clone())),
                    None => None,
                },
                Box::new((**tail).clone()),
            ),
            Types::Enum(t) => Types::Enum(Box::new((**t).clone())),
            Types::StaticRecord(t) => Types::StaticRecord(Box::new((**t).clone())),
            Types::DynRecord(t) => Types::DynRecord(Box::new((**t).clone())),
            Types::List(t) => Types::List(Box::new((**t).clone())),
        }
    }
}

} // verus!
