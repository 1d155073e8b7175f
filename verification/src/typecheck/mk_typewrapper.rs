//! Helpers for building `TypeWrapper`s.
use vstd::prelude::*;

use crate::identifier::Ident;
use crate::model::{arrow, dict_of, enum_of, list_of, record_of, row_extend, Ty};
use crate::typecheck::wrapper::TypeWrapper;
use crate::types::AbsType;

verus! {

/// What can be turned into a type wrapper.
pub trait IntoTypeWrapper: Sized {
    /// The type wrapper.
    spec fn wrapped(self) -> TypeWrapper;

    /// Turn a value into a type wrapper.
    fn into_typewrapper(self) -> (res: TypeWrapper)
        ensures
            res == self.wrapped(),
    ;
}

impl IntoTypeWrapper for TypeWrapper {
    open spec fn wrapped(self) -> TypeWrapper {
        self
    }

    fn into_typewrapper(self) -> (res: TypeWrapper) {
        self
    }
}

impl IntoTypeWrapper for AbsType<Box<TypeWrapper>> {
    open spec fn wrapped(self) -> TypeWrapper {
        TypeWrapper::Concrete(self)
    }

    fn into_typewrapper(self) -> (res: TypeWrapper) {
        TypeWrapper::Concrete(self)
    }
}

/// The arrow type from `left` to `right`.
pub fn arrow_of<S: IntoTypeWrapper, T: IntoTypeWrapper>(left: S, right: T) -> (res: TypeWrapper)
    ensures
        res@ == arrow(left.wrapped()@, right.wrapped()@),
{
    TypeWrapper::Concrete(
        AbsType::Arrow(Box::new(left.into_typewrapper()), Box::new(right.into_typewrapper())),
    )
}

/// The enum row `<id | tail>`.
pub fn enum_row(id: Ident, tail: TypeWrapper) -> (res: TypeWrapper)
    ensures
        res@ == row_extend(id@, None, tail@),
{
    TypeWrapper::Concrete(AbsType::RowExtend(id, None, Box::new(tail)))
}

/// The record row `{id: ty | tail}`.
pub fn record_row<T: IntoTypeWrapper>(id: Ident, ty: T, tail: TypeWrapper) -> (res: TypeWrapper)
    ensures
        res@ == row_extend(id@, Some(ty.wrapped()@), tail@),
{
    TypeWrapper::Concrete(
        AbsType::RowExtend(id, Some(Box::new(ty.into_typewrapper())), Box::new(tail)),
    )
}

/// The enum type of a row.
pub fn enumeration<T: IntoTypeWrapper>(row: T) -> (res: TypeWrapper)
    ensures
        res@ == enum_of(row.wrapped()@),
{
    TypeWrapper::Concrete(AbsType::Enum(Box::new(row.into_typewrapper())))
}

/// The record type of a row.
pub fn record<T: IntoTypeWrapper>(row: T) -> (res: TypeWrapper)
    ensures
        res@ == record_of(row.wrapped()@),
{
    TypeWrapper::Concrete(AbsType::StaticRecord(Box::new(row.into_typewrapper())))
}

/// The dictionary type of a type.
pub fn dyn_record<T: IntoTypeWrapper>(ty: T) -> (res: TypeWrapper)
    ensures
        res == TypeWrapper::Concrete(AbsType::DynRecord(Box::new(ty.wrapped()))),
        res@ == dict_of(ty.wrapped()@),
{
    TypeWrapper::Concrete(AbsType::DynRecord(Box::new(ty.into_typewrapper())))
}

/// The list type of a type.
pub fn list<T: IntoTypeWrapper>(ty: T) -> (res: TypeWrapper)
    ensures
        res == TypeWrapper::Concrete(AbsType::List(Box::new(ty.wrapped()))),
        res@ == list_of(ty.wrapped()@),
{
    TypeWrapper::Concrete(AbsType::List(Box::new(ty.into_typewrapper())))
}

/// The dynamic type.
pub fn dynamic() -> (res: TypeWrapper)
    ensures
        res@ == Ty::Dyn,
{
    TypeWrapper::Concrete(AbsType::Dyn())
}

/// The type of strings.
pub fn str() -> (res: TypeWrapper)
    ensures
        res@ == Ty::Str,
{
    TypeWrapper::Concrete(AbsType::Str())
}

/// The type of numbers.
pub fn num() -> (res: TypeWrapper)
    ensures
        res@ == Ty::Num,
{
    TypeWrapper::Concrete(AbsType::Num())
}

/// The type of booleans.
pub fn bool() -> (res: TypeWrapper)
    ensures
        res@ == Ty::Bool,
{
    TypeWrapper::Concrete(AbsType::Bool())
}

/// The type of symbols.
pub fn sym() -> (res: TypeWrapper)
    ensures
        res@ == Ty::Sym,
{
    TypeWrapper::Concrete(AbsType::Sym())
}

/// The empty row.
pub fn row_empty() -> (res: TypeWrapper)
    ensures
        res@ == Ty::RowEmpty,
{
    TypeWrapper::Concrete(AbsType::RowEmpty())
}

} // verus!
