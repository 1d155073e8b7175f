//! The types on which unification operates.
use vstd::prelude::*;
use std::convert::TryFrom;
use vstd::std_specs::convert::{FromSpecImpl, TryFromSpecImpl};

use crate::identifier::Ident;
use crate::model::{Name, Ty};
use crate::types::{AbsType, Types};

verus! {

/// The types on which the unification algorithm operates, which may be either a concrete type, a
/// type constant or a unification variable.
#[derive(Debug, PartialEq)]
pub enum TypeWrapper {
    /// A concrete type (like `Num` or `Str -> Str`).
    Concrete(AbsType<Box<TypeWrapper>>),
    /// A rigid type constant which cannot be unified with anything but itself.
    Constant(usize),
    /// A unification variable.
    Ptr(usize),
}

impl View for TypeWrapper {
    type V = Ty;

    open spec fn view(&self) -> Ty
        decreases self,
    {
        match self {
            TypeWrapper::Ptr(p) => Ty::Ptr(*p),
            TypeWrapper::Constant(c) => Ty::Constant(*c),
            TypeWrapper::Concrete(ty) => match ty {
                AbsType::Dyn() => Ty::Dyn,
                AbsType::Num() => Ty::Num,
                AbsType::Bool() => Ty::Bool,
                AbsType::Str() => Ty::Str,
                AbsType::Sym() => Ty::Sym,
                AbsType::Flat(t) => Ty::Flat(*t),
                AbsType::Arrow(s, t) => Ty::Arrow(Box::new((**s)@), Box::new((**t)@)),
                AbsType::Var(id) => Ty::Var(id@),
                AbsType::Forall(id, t) => Ty::Forall(id@, Box::new((**t)@)),
                AbsType::RowEmpty() => Ty::RowEmpty,
                AbsType::RowExtend(id, ty, tail) => Ty::RowExtend(
                    id@,
                    match ty {
                        Some(ty) => Some(Box::new((**ty)@)),
                        None => None,
                    },
                    Box::new((**tail)@),
                ),
                AbsType::Enum(t) => Ty::Enum(Box::new((**t)@)),
                AbsType::StaticRecord(t) => Ty::StaticRecord(Box::new((**t)@)),
                AbsType::DynRecord(t) => Ty::DynRecord(Box::new((**t)@)),
                AbsType::List(t) => Ty::List(Box::new((**t)@)),
            },
        }
    }
}

/// The model of a concrete type.
pub open spec fn concrete(ty: AbsType<Box<TypeWrapper>>) -> Ty {
    TypeWrapper::Concrete(ty)@
}

/// The model of the optional type of a row extension.
pub open spec fn opt_boxed(ty: Option<Box<TypeWrapper>>) -> Option<Ty> {
    match ty {
        Some(t) => Some((*t)@),
        None => None,
    }
}

/// The model of an optional type.
pub open spec fn opt_ty(ty: Option<TypeWrapper>) -> Option<Ty> {
    match ty {
        Some(t) => Some(t@),
        None => None,
    }
}

impl Clone for AbsType<Box<TypeWrapper>> {
    fn clone(&self) -> (res: Self)
        ensures
            res == *self,
        decreases self,
    {
        match self {
            AbsType::Dyn() => AbsType::Dyn(),
            AbsType::Num() => AbsType::Num(),
            AbsType::Bool() => AbsType::Bool(),
            AbsType::Str() => AbsType::Str(),
            AbsType::Sym() => AbsType::Sym(),
            AbsType::Flat(t) => AbsType::Flat(t.clone()),
            AbsType::Arrow(s, t) => AbsType::Arrow(
                Box::new((**s).clone()),
                Box::new((**t).clone()),
            ),
            AbsType::Var(id) => AbsType::Var(id.clone()),
            AbsType::Forall(id, t) => AbsType::Forall(id.clone(), Box::new((**t).clone())),
            AbsType::RowEmpty() => AbsType::RowEmpty(),
            AbsType::RowExtend(id, ty, tail) => AbsType::RowExtend(
                id.clone(),
                clone_opt(ty),
                Box::new((**tail).clone()),
            ),
            AbsType::Enum(t) => AbsType::Enum(Box::new((**t).clone())),
            AbsType::StaticRecord(t) => AbsType::StaticRecord(Box::new((**t).clone())),
            AbsType::DynRecord(t) => AbsType::DynRecord(Box::new((**t).clone())),
            AbsType::List(t) => AbsType::List(Box::new((**t).clone())),
        }
    }
}

impl Clone for TypeWrapper {
    fn clone(&self) -> (res: Self)
        ensures
            res == *self,
        decreases self,
    {
        match self {
            TypeWrapper::Concrete(ty) => TypeWrapper::Concrete(ty.clone()),
            TypeWrapper::Constant(c) => TypeWrapper::Constant(*c),
            TypeWrapper::Ptr(p) => TypeWrapper::Ptr(*p),
        }
    }
}

/// Clone the optional type of a row extension.
pub fn clone_opt(ty: &Option<Box<TypeWrapper>>) -> (res: Option<Box<TypeWrapper>>)
    ensures
        res == *ty,
    decreases ty,
{
    match ty {
        Some(ty) => Some(Box::new((**ty).clone())),
        None => None,
    }
}

/// Move the optional type of a row extension out of its box.
pub fn unbox_opt(ty: Option<Box<TypeWrapper>>) -> (res: Option<TypeWrapper>)
    ensures
        opt_ty(res) == opt_boxed(ty),
{
    match ty {
        Some(ty) => Some(*ty),
        None => None,
    }
}

impl From<AbsType<Box<TypeWrapper>>> for TypeWrapper {
    fn from(ty: AbsType<Box<TypeWrapper>>) -> (res: Self) {
        TypeWrapper::Concrete(ty)
    }
}

impl FromSpecImpl<AbsType<Box<TypeWrapper>>> for TypeWrapper {
    open spec fn obeys_from_spec() -> bool {
        true
    }

    open spec fn from_spec(ty: AbsType<Box<TypeWrapper>>) -> Self {
        TypeWrapper::Concrete(ty)
    }
}

/// The type with every free occurrence of the type variable `id` replaced by `to`.
pub open spec fn subst(ty: Ty, id: Name, to: Ty) -> Ty
    decreases ty,
{
    match ty {
        Ty::Var(i) => if i == id {
            to
        } else {
            ty
        },
        Ty::Forall(i, t) => if i == id {
            ty
        } else {
            Ty::Forall(i, Box::new(subst(*t, id, to)))
        },
        Ty::Arrow(s, t) => Ty::Arrow(Box::new(subst(*s, id, to)), Box::new(subst(*t, id, to))),
        Ty::RowExtend(i, t, tail) => Ty::RowExtend(
            i,
            match t {
                Some(t) => Some(Box::new(subst(*t, id, to))),
                None => None,
            },
            Box::new(subst(*tail, id, to)),
        ),
        Ty::Enum(row) => Ty::Enum(Box::new(subst(*row, id, to))),
        Ty::StaticRecord(row) => Ty::StaticRecord(Box::new(subst(*row, id, to))),
        Ty::DynRecord(t) => Ty::DynRecord(Box::new(subst(*t, id, to))),
        Ty::List(t) => Ty::List(Box::new(subst(*t, id, to))),
        _ => ty,
    }
}

impl TypeWrapper {
    /// Substitute all the occurrences of a type variable for a typewrapper.
    pub fn subst(self, id: Ident, to: TypeWrapper) -> (res: TypeWrapper)
        ensures
            res@ == subst(self@, id@, to@),
        decreases self,
    {
        match self {
            TypeWrapper::Constant(c) => TypeWrapper::Constant(c),
            TypeWrapper::Ptr(p) => TypeWrapper::Ptr(p),
            TypeWrapper::Concrete(ty) => match ty {
                AbsType::Var(i) => {
                    if i.same(&id) {
                        to
                    } else {
                        TypeWrapper::Concrete(AbsType::Var(i))
                    }
                },
                AbsType::Forall(i, t) => {
                    if i.same(&id) {
                        TypeWrapper::Concrete(AbsType::Forall(i, t))
                    } else {
                        let tt = *t;
                        TypeWrapper::Concrete(AbsType::Forall(i, Box::new(tt.subst(id, to))))
                    }
                },
                AbsType::Arrow(s, t) => {
                    let fs = (*s).subst(id.clone(), to.clone());
                    let ft = (*t).subst(id, to);
                    TypeWrapper::Concrete(AbsType::Arrow(Box::new(fs), Box::new(ft)))
                },
                AbsType::RowExtend(tag, ty, rest) => {
                    let ty = match ty {
                        Some(x) => Some(Box::new((*x).subst(id.clone(), to.clone()))),
                        None => None,
                    };
                    TypeWrapper::Concrete(
                        AbsType::RowExtend(tag, ty, Box::new((*rest).subst(id, to))),
                    )
                },
                AbsType::Enum(row) => TypeWrapper::Concrete(
                    AbsType::Enum(Box::new((*row).subst(id, to))),
                ),
                AbsType::StaticRecord(row) => TypeWrapper::Concrete(
                    AbsType::StaticRecord(Box::new((*row).subst(id, to))),
                ),
                AbsType::DynRecord(def_ty) => TypeWrapper::Concrete(
                    AbsType::DynRecord(Box::new((*def_ty).subst(id, to))),
                ),
                AbsType::List(ty) => TypeWrapper::Concrete(
                    AbsType::List(Box::new((*ty).subst(id, to))),
                ),
                ty => TypeWrapper::Concrete(ty),
            },
        }
    }
}

/// The type wrapper of a type: the same type, with neither variables nor constants in it.
pub open spec fn wrap(t: Types) -> TypeWrapper
    decreases t,
{
    TypeWrapper::Concrete(
        match t {
            Types::Dyn() => AbsType::Dyn(),
            Types::Num() => AbsType::Num(),
            Types::Bool() => AbsType::Bool(),
            Types::Str() => AbsType::Str(),
            Types::Sym() => AbsType::Sym(),
            Types::Flat(t) => AbsType::Flat(t),
            Types::Arrow(s, t) => AbsType::Arrow(Box::new(wrap(*s)), Box::new(wrap(*t))),
            Types::Var(id) => AbsType::Var(id),
            Types::Forall(id, t) => AbsType::Forall(id, Box::new(wrap(*t))),
            Types::RowEmpty() => AbsType::RowEmpty(),
            Types::RowExtend(id, ty, tail) => AbsType::RowExtend(
                id,
                match ty {
                    Some(ty) => Some(Box::new(wrap(*ty))),
                    None => None,
                },
                Box::new(wrap(*tail)),
            ),
            Types::Enum(t) => AbsType::Enum(Box::new(wrap(*t))),
            Types::StaticRecord(t) => AbsType::StaticRecord(Box::new(wrap(*t))),
            Types::DynRecord(t) => AbsType::DynRecord(Box::new(wrap(*t))),
            Types::List(t) => AbsType::List(Box::new(wrap(*t))),
        },
    )
}

/// Convert a vanilla type to a type wrapper.
pub fn to_typewrapper(t: Types) -> (res: TypeWrapper)
    ensures
        res == wrap(t),
        res@ == t@,
    decreases t,
{
    TypeWrapper::Concrete(
        match t {
            Types::Dyn() => AbsType::Dyn(),
            Types::Num() => AbsType::Num(),
            Types::Bool() => AbsType::Bool(),
            Types::Str() => AbsType::Str(),
            Types::Sym() => AbsType::Sym(),
            Types::Flat(t) => AbsType::Flat(t),
            Types::Arrow(s, t) => AbsType::Arrow(
                Box::new(to_typewrapper(*s)),
                Box::new(to_typewrapper(*t)),
            ),
            Types::Var(id) => AbsType::Var(id),
            Types::Forall(id, t) => AbsType::Forall(id, Box::new(to_typewrapper(*t))),
            Types::RowEmpty() => AbsType::RowEmpty(),
            Types::RowExtend(id, ty, tail) => AbsType::RowExtend(
                id,
                match ty {
                    Some(ty) => Some(Box::new(to_typewrapper(*ty))),
                    None => None,
                },
                Box::new(to_typewrapper(*tail)),
            ),
            Types::Enum(t) => AbsType::Enum(Box::new(to_typewrapper(*t))),
            Types::StaticRecord(t) => AbsType::StaticRecord(Box::new(to_typewrapper(*t))),
            Types::DynRecord(t) => AbsType::DynRecord(Box::new(to_typewrapper(*t))),
            Types::List(t) => AbsType::List(Box::new(to_typewrapper(*t))),
        },
    )
}

/// Whether a type has neither unification variables nor type constants in it.
pub open spec fn is_plain(ty: Ty) -> bool
    decreases ty,
{
    match ty {
        Ty::Ptr(_) | Ty::Constant(_) => false,
        Ty::Arrow(s, t) => is_plain(*s) && is_plain(*t),
        Ty::Forall(_, t) => is_plain(*t),
        Ty::RowExtend(_, t, tail) => (match t {
            Some(t) => is_plain(*t),
            None => true,
        }) && is_plain(*tail),
        Ty::Enum(t) => is_plain(*t),
        Ty::StaticRecord(t) => is_plain(*t),
        Ty::DynRecord(t) => is_plain(*t),
        Ty::List(t) => is_plain(*t),
        _ => true,
    }
}

/// The type whose type wrapper is the given one.
pub open spec fn unwrap(tyw: TypeWrapper) -> Types
    recommends
        is_plain(tyw@),
    decreases tyw,
{
    match tyw {
        TypeWrapper::Concrete(ty) => match ty {
            AbsType::Dyn() => Types::Dyn(),
            AbsType::Num() => Types::Num(),
            AbsType::Bool() => Types::Bool(),
            AbsType::Str() => Types::Str(),
            AbsType::Sym() => Types::Sym(),
            AbsType::Flat(t) => Types::Flat(t),
            AbsType::Arrow(s, t) => Types::Arrow(Box::new(unwrap(*s)), Box::new(unwrap(*t))),
            AbsType::Var(id) => Types::Var(id),
            AbsType::Forall(id, t) => Types::Forall(id, Box::new(unwrap(*t))),
            AbsType::RowEmpty() => Types::RowEmpty(),
            AbsType::RowExtend(id, ty, tail) => Types::RowExtend(
                id,
                match ty {
                    Some(ty) => Some(Box::new(unwrap(*ty))),
                    None => None,
                },
                Box::new(unwrap(*tail)),
            ),
            AbsType::Enum(t) => Types::Enum(Box::new(unwrap(*t))),
            AbsType::StaticRecord(t) => Types::StaticRecord(Box::new(unwrap(*t))),
            AbsType::DynRecord(t) => Types::DynRecord(Box::new(unwrap(*t))),
            AbsType::List(t) => Types::List(Box::new(unwrap(*t))),
        },
        _ => Types::Dyn(),
    }
}

/// Extract the type of a type wrapper that has neither variables nor constants in it.
fn to_plain(tyw: TypeWrapper) -> (res: Result<Types, ()>)
    ensures
        res == (if is_plain(tyw@) {
            Ok(unwrap(tyw))
        } else {
            Err(())
        }),
    decreases tyw,
{
    let ty = match tyw {
        TypeWrapper::Concrete(ty) => ty,
        _ => return Err(()),
    };
    match ty {
        AbsType::Dyn() => Ok(Types::Dyn()),
        AbsType::Num() => Ok(Types::Num()),
        AbsType::Bool() => Ok(Types::Bool()),
        AbsType::Str() => Ok(Types::Str()),
        AbsType::Sym() => Ok(Types::Sym()),
        AbsType::Flat(t) => Ok(Types::Flat(t)),
        AbsType::Arrow(s, t) => match (to_plain(*s), to_plain(*t)) {
            (Ok(s), Ok(t)) => Ok(Types::Arrow(Box::new(s), Box::new(t))),
            _ => Err(()),
        },
        AbsType::Var(id) => Ok(Types::Var(id)),
        AbsType::Forall(id, t) => match to_plain(*t) {
            Ok(t) => Ok(Types::Forall(id, Box::new(t))),
            Err(()) => Err(()),
        },
        AbsType::RowEmpty() => Ok(Types::RowEmpty()),
        AbsType::RowExtend(id, ty, tail) => {
            let ty = match ty {
                Some(ty) => match to_plain(*ty) {
                    Ok(ty) => Some(Box::new(ty)),
                    Err(()) => return Err(()),
                },
                None => None,
            };
            match to_plain(*tail) {
                Ok(tail) => Ok(Types::RowExtend(id, ty, Box::new(tail))),
                Err(()) => Err(()),
            }
        },
        AbsType::Enum(t) => match to_plain(*t) {
            Ok(t) => Ok(Types::Enum(Box::new(t))),
            Err(()) => Err(()),
        },
        AbsType::StaticRecord(t) => match to_plain(*t) {
            Ok(t) => Ok(Types::StaticRecord(Box::new(t))),
            Err(()) => Err(()),
        },
        AbsType::DynRecord(t) => match to_plain(*t) {
            Ok(t) => Ok(Types::DynRecord(Box::new(t))),
            Err(()) => Err(()),
        },
        AbsType::List(t) => match to_plain(*t) {
            Ok(t) => Ok(Types::List(Box::new(t))),
            Err(()) => Err(()),
        },
    }
}

impl TryFrom<TypeWrapper> for Types {
    type Error = ();

    fn try_from(tyw: TypeWrapper) -> (res: Result<Self, ()>) {
        to_plain(tyw)
    }
}

impl TryFromSpecImpl<TypeWrapper> for Types {
    open spec fn obeys_try_from_spec() -> bool {
        true
    }

    open spec fn try_from_spec(tyw: TypeWrapper) -> Result<Self, ()> {
        if is_plain(tyw@) {
            Ok(unwrap(tyw))
        } else {
            Err(())
        }
    }
}

} // verus!
