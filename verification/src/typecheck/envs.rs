//! The two typing environments, and the apparent types of the terms that are bound in them.
use vstd::prelude::*;
use std::convert::TryFrom;
use vstd::std_specs::convert::FromSpecImpl;

use crate::environment::{lookup, Environment};
use crate::eval;
use crate::eval::bound_terms;
use crate::identifier::Ident;
use crate::model::{list_of, Name, Table, Ty};
use crate::term::{RichTerm, Term};
use crate::typecheck::state::{new_var, next_var, table_of, UnifTable};
use crate::typecheck::wrapper::{is_plain, opt_ty, to_typewrapper, unwrap, wrap, TypeWrapper};
use crate::types::{AbsType, Types};

verus! {

/// The types of the names in scope, in the global and in the local environment.
pub struct Scope {
    pub global: Map<Name, Ty>,
    pub local: Map<Name, Ty>,
}

/// The scope with one more local binding.
pub open spec fn with_local(scope: Scope, id: Name, ty: Ty) -> Scope {
    Scope { local: scope.local.insert(id, ty), ..scope }
}

/// The type of a name: the local environment comes before the global one.
pub open spec fn in_scope(scope: Scope, id: Name) -> Option<Ty> {
    if scope.local.contains_key(id) {
        Some(scope.local[id])
    } else {
        lookup(scope.global, id)
    }
}

/// The scope of a global environment, without local bindings.
pub open spec fn global_scope(global: Map<Name, Ty>) -> Scope {
    Scope { global, local: Map::empty() }
}

/// A structure holding the two typing environments, the global and the local.
///
/// The global typing environment is constructed from the global term environment which holds the
/// builtin functions. It is a read-only shared environment used to retrieve the type of such
/// functions.
#[derive(Debug, PartialEq)]
pub struct Envs<'a> {
    pub global: &'a Environment,
    pub local: Environment,
}

impl<'a> View for Envs<'a> {
    type V = Scope;

    open spec fn view(&self) -> Scope {
        Scope { global: self.global@, local: self.local@ }
    }
}

impl<'a> Clone for Envs<'a> {
    fn clone(&self) -> (res: Self)
        ensures
            res == *self,
    {
        Envs { global: self.global, local: self.local.clone() }
    }
}

/// The model of an apparent type.
pub enum Apparent {
    Annotated(Ty),
    Inferred(Ty),
    FromEnv(Ty),
    Approximated(Ty),
}

/// The type that an apparent type stands for.
pub open spec fn apparent_ty(at: Apparent) -> Ty {
    match at {
        Apparent::Annotated(ty) => ty,
        Apparent::Inferred(ty) => ty,
        Apparent::FromEnv(ty) => ty,
        Apparent::Approximated(ty) => ty,
    }
}

/// The type that an apparent type stands for, without variables and constants: one from the
/// environment that has some is `Dyn`.
pub open spec fn apparent_plain_ty(at: Apparent) -> Ty {
    match at {
        Apparent::FromEnv(ty) => if is_plain(ty) {
            ty
        } else {
            Ty::Dyn
        },
        _ => apparent_ty(at),
    }
}

/// The apparent type of a term: that of its annotation if it has one, that of a constant, that of a
/// variable of the scope, or an approximation.
pub open spec fn apparent(t: Term, scope: Option<Scope>) -> Apparent
    decreases t,
{
    match t {
        Term::Promise(ty, _, _) => Apparent::Annotated(ty@),
        Term::MetaValue(meta) => match meta.types {
            Some(ctr) => Apparent::Annotated(ctr.types@),
            None => if meta.contracts@.len() > 0 {
                Apparent::Annotated(meta.contracts@[0].types@)
            } else {
                match meta.value {
                    Some(v) => apparent(*v.term, scope),
                    None => Apparent::Approximated(Ty::Dyn),
                }
            },
        },
        Term::Num(_) => Apparent::Inferred(Ty::Num),
        Term::Bool(_) => Apparent::Inferred(Ty::Bool),
        Term::Sym(_) => Apparent::Inferred(Ty::Sym),
        Term::Str(_) => Apparent::Inferred(Ty::Str),
        Term::StrChunks(_) => Apparent::Inferred(Ty::Str),
        Term::List(_) => Apparent::Approximated(list_of(Ty::Dyn)),
        Term::Var(id) => match scope {
            Some(scope) => match in_scope(scope, id@) {
                Some(ty) => Apparent::FromEnv(ty),
                None => Apparent::Approximated(Ty::Dyn),
            },
            None => Apparent::Approximated(Ty::Dyn),
        },
        _ => Apparent::Approximated(Ty::Dyn),
    }
}

/// Different kinds of apparent types (see `apparent_type`).
///
/// Indicate the nature of an apparent type. In particular, when in strict mode, the typechecker
/// throws away approximations as it can do better and infer the actual type of an expression by
/// generating a fresh unification variable.  In non-strict mode, however, the approximation is the
/// best we can do. This type allows the caller of `apparent_type` to determine which situation it
/// is.
#[derive(Debug, PartialEq)]
pub enum ApparentType {
    /// The apparent type is given by a user-provided annotation, such as an `Assume`, a `Promise`,
    /// or a metavalue.
    Annotated(Types),
    /// The apparent type has been inferred from a simple expression.
    Inferred(Types),
    /// The term is a variable and its type was retrieved from the typing environment.
    FromEnv(TypeWrapper),
    /// The apparent type wasn't trivial to determine, and an approximation (most of the time,
    /// `Dyn`) has been returned.
    Approximated(Types),
}

impl View for ApparentType {
    type V = Apparent;

    open spec fn view(&self) -> Apparent {
        match self {
            ApparentType::Annotated(ty) => Apparent::Annotated(ty@),
            ApparentType::Inferred(ty) => Apparent::Inferred(ty@),
            ApparentType::FromEnv(tyw) => Apparent::FromEnv(tyw@),
            ApparentType::Approximated(ty) => Apparent::Approximated(ty@),
        }
    }
}

impl From<ApparentType> for Types {
    fn from(at: ApparentType) -> (res: Self) {
        match at {
            ApparentType::Annotated(ty)
            | ApparentType::Inferred(ty)
            | ApparentType::Approximated(ty) => ty,
            ApparentType::FromEnv(tyw) => match Types::try_from(tyw) {
                Ok(ty) => ty,
                Err(()) => Types::Dyn(),
            },
        }
    }
}

impl FromSpecImpl<ApparentType> for Types {
    open spec fn obeys_from_spec() -> bool {
        true
    }

    open spec fn from_spec(at: ApparentType) -> Self {
        match at {
            ApparentType::Annotated(ty) => ty,
            ApparentType::Inferred(ty) => ty,
            ApparentType::Approximated(ty) => ty,
            ApparentType::FromEnv(tyw) => if is_plain(tyw@) {
                unwrap(tyw)
            } else {
                Types::Dyn()
            },
        }
    }
}

impl From<ApparentType> for TypeWrapper {
    fn from(at: ApparentType) -> (res: Self) {
        match at {
            ApparentType::Annotated(ty)
            | ApparentType::Inferred(ty)
            | ApparentType::Approximated(ty) => to_typewrapper(ty),
            ApparentType::FromEnv(tyw) => tyw,
        }
    }
}

impl FromSpecImpl<ApparentType> for TypeWrapper {
    open spec fn obeys_from_spec() -> bool {
        true
    }

    open spec fn from_spec(at: ApparentType) -> Self {
        match at {
            ApparentType::Annotated(ty) => wrap(ty),
            ApparentType::Inferred(ty) => wrap(ty),
            ApparentType::Approximated(ty) => wrap(ty),
            ApparentType::FromEnv(tyw) => tyw,
        }
    }
}

/// The type wrapper of an apparent type has the type that it stands for.
pub proof fn lemma_wrap_view(t: Types)
    ensures
        wrap(t)@ == t@,
    decreases t,
{
    match t {
        Types::Arrow(s, t) => {
            lemma_wrap_view(*s);
            lemma_wrap_view(*t);
        },
        Types::Forall(_, t) => lemma_wrap_view(*t),
        Types::RowExtend(_, ty, tail) => {
            if let Some(ty) = ty {
                lemma_wrap_view(*ty);
            }
            lemma_wrap_view(*tail);
        },
        Types::Enum(t) => lemma_wrap_view(*t),
        Types::StaticRecord(t) => lemma_wrap_view(*t),
        Types::DynRecord(t) => lemma_wrap_view(*t),
        Types::List(t) => lemma_wrap_view(*t),
        _ => {},
    }
}

/// A type wrapper without variables and constants has the type that it is the wrapper of.
pub proof fn lemma_unwrap_view(tyw: TypeWrapper)
    requires
        is_plain(tyw@),
    ensures
        unwrap(tyw)@ == tyw@,
        wrap(unwrap(tyw)) == tyw,
    decreases tyw,
{
    match tyw {
        TypeWrapper::Concrete(AbsType::Arrow(s, t)) => {
            lemma_unwrap_view(*s);
            lemma_unwrap_view(*t);
        },
        TypeWrapper::Concrete(AbsType::Forall(_, t)) => lemma_unwrap_view(*t),
        TypeWrapper::Concrete(AbsType::RowExtend(_, ty, tail)) => {
            if let Some(ty) = ty {
                lemma_unwrap_view(*ty);
            }
            lemma_unwrap_view(*tail);
        },
        TypeWrapper::Concrete(AbsType::Enum(t)) => lemma_unwrap_view(*t),
        TypeWrapper::Concrete(AbsType::StaticRecord(t)) => lemma_unwrap_view(*t),
        TypeWrapper::Concrete(AbsType::DynRecord(t)) => lemma_unwrap_view(*t),
        TypeWrapper::Concrete(AbsType::List(t)) => lemma_unwrap_view(*t),
        _ => {},
    }
}

/// The type wrapper of an apparent type.
fn apparent_typewrapper(at: ApparentType) -> (res: TypeWrapper)
    ensures
        res@ == apparent_ty(at@),
{
    let ghost before = at;
    proof {
        match before {
            ApparentType::Annotated(ty) => lemma_wrap_view(ty),
            ApparentType::Inferred(ty) => lemma_wrap_view(ty),
            ApparentType::Approximated(ty) => lemma_wrap_view(ty),
            ApparentType::FromEnv(_) => {},
        }
    }
    TypeWrapper::from(at)
}

/// The type wrapper of an apparent type, without variables and constants.
fn apparent_plain_typewrapper(at: ApparentType) -> (res: TypeWrapper)
    ensures
        res@ == apparent_plain_ty(at@),
{
    let ghost before = at;
    proof {
        if let ApparentType::FromEnv(tyw) = before {
            if is_plain(tyw@) {
                lemma_unwrap_view(tyw);
            }
        }
    }
    to_typewrapper(Types::from(at))
}

/// The scope of an optional pair of environments.
pub open spec fn opt_scope(envs: Option<&Envs>) -> Option<Scope> {
    match envs {
        Some(envs) => Some(envs@),
        None => None,
    }
}

/// Determine the apparent type of a let-bound expression.
///
/// When a let-binding `let x = bound_exp in body` is processed, the type of `bound_exp` must be
/// determined in order to be bound to the variable `x` in the typing environment.
/// Then, future occurrences of `x` can be given this type when used in a `Promise` block.
///
/// The role of `apparent_type` is precisely to determine the type of `bound_exp`:
/// - if `bound_exp` is annotated by an `Assume`, a `Promise` or a metavalue, return the
///   user-provided type.
/// - if `bound_exp` is a constant (string, number, boolean or symbol) which type can be deduced
///   directly without unfolding the expression further, return the corresponding exact type.
/// - if `bound_exp` is a list, return `List Dyn`.
/// - Otherwise, return an approximation of the type (currently `Dyn`, but could be more precise in
///   the future, such as `Dyn -> Dyn` for functions, `{ | Dyn}` for records, and so on).
pub fn apparent_type(t: &Term, envs: Option<&Envs>) -> (res: ApparentType)
    ensures
        res@ == apparent(*t, opt_scope(envs)),
    decreases t,
{
    match t {
        Term::Promise(ty, _, _) => ApparentType::Annotated(ty.clone()),
        Term::MetaValue(meta) => {
            if let Some(ctr) = &meta.types {
                return ApparentType::Annotated(ctr.types.clone());
            }
            // For metavalues, if there's no type annotation, choose the first contract appearing.
            if meta.contracts.len() > 0 {
                return ApparentType::Annotated(meta.contracts[0].types.clone());
            }
            match &meta.value {
                Some(v) => apparent_type(&*v.term, envs),
                None => ApparentType::Approximated(Types::Dyn()),
            }
        },
        Term::Num(_) => ApparentType::Inferred(Types::Num()),
        Term::Bool(_) => ApparentType::Inferred(Types::Bool()),
        Term::Sym(_) => ApparentType::Inferred(Types::Sym()),
        Term::Str(_) | Term::StrChunks(_) => ApparentType::Inferred(Types::Str()),
        Term::List(_) => {
            let elt = Types::Dyn();
            assert(elt@ == Ty::Dyn);
            ApparentType::Approximated(Types::List(Box::new(elt)))
        },
        Term::Var(id) => {
            let ty = match envs {
                Some(envs) => envs.get(id),
                None => None,
            };
            match ty {
                Some(tyw) => ApparentType::FromEnv(tyw),
                None => ApparentType::Approximated(Types::Dyn()),
            }
        },
        _ => ApparentType::Approximated(Types::Dyn()),
    }
}

/// The types that the global environment has for the builtin terms.
pub open spec fn global_types(terms: Map<Name, RichTerm>) -> Map<Name, Ty> {
    terms.map_values(|t: RichTerm| apparent_plain_ty(apparent(*t.term, None)))
}

/// The environment with the bindings of the fields from the `i`-th on, each field being given its
/// apparent type in the environment that has the ones before it.
pub open spec fn with_fields(
    env: Map<Name, Ty>,
    fields: Seq<(Ident, RichTerm)>,
    i: int,
) -> Map<Name, Ty>
    decreases fields.len() - i,
{
    if 0 <= i < fields.len() {
        let (id, t) = fields[i];
        let ty = apparent_ty(apparent(*t.term, Some(global_scope(env))));
        with_fields(env.insert(id@, ty), fields, i + 1)
    } else {
        env
    }
}

/// The fields of a record, or of a recursive record.
pub open spec fn record_fields(t: Term) -> Option<Seq<(Ident, RichTerm)>> {
    match t {
        Term::Record(fields, _) => Some(fields@),
        Term::RecRecord(fields, _) => Some(fields@),
        _ => None,
    }
}

impl<'a> Envs<'a> {
    /// Create an `Envs` value with an empty local environment from a global environment.
    pub fn from_global(global: &'a Environment) -> (res: Self)
        ensures
            res@ == global_scope(global@),
            res.global == global,
    {
        Envs { global, local: Environment::new() }
    }

    /// Populate a new global typing environment from a global term environment.
    pub fn mk_global(eval_env: &eval::Environment) -> (res: Environment)
        ensures
            res@ == global_types(eval_env@),
    {
        let mut env = Environment::new();
        let mut i: usize = 0;
        assert(env@ =~= global_types(bound_terms(eval_env.bindings@.take(0))));
        while i < eval_env.bindings.len()
            invariant
                i <= eval_env.bindings@.len(),
                env@ == global_types(bound_terms(eval_env.bindings@.take(i as int))),
            decreases eval_env.bindings@.len() - i,
        {
            let (id, term) = &eval_env.bindings[i];
            env.insert(id.clone(), apparent_plain_typewrapper(apparent_type(&*term.term, None)));
            proof {
                let next = eval_env.bindings@.take(i as int + 1);
                assert(next.drop_last() =~= eval_env.bindings@.take(i as int));
                assert(env@ =~= global_types(bound_terms(next)));
            }
            i += 1;
        }
        assert(eval_env.bindings@.take(i as int) =~= eval_env.bindings@);
        env
    }

    /// Add the bindings of a record to a typing environment.
    pub fn env_add_term(env: &mut Environment, rt: &RichTerm) -> (res: Result<
        (),
        eval::EnvBuildError,
    >)
        ensures
            match record_fields(*rt.term) {
                Some(fields) => res is Ok && final(env)@ == with_fields(old(env)@, fields, 0),
                None => res == Err::<(), _>(eval::EnvBuildError::NotARecord(*rt)) && final(env)@
                    == old(env)@,
            },
    {
        match &*rt.term {
            Term::Record(bindings, _) | Term::RecRecord(bindings, _) => {
                let mut i: usize = 0;
                while i < bindings.len()
                    invariant
                        i <= bindings@.len(),
                        with_fields(old(env)@, bindings@, 0) == with_fields(
                            env@,
                            bindings@,
                            i as int,
                        ),
                    decreases bindings@.len() - i,
                {
                    let (id, t) = &bindings[i];
                    let tyw = apparent_typewrapper(
                        apparent_type(&*t.term, Some(&Envs::from_global(&*env))),
                    );
                    env.insert(id.clone(), tyw);
                    i += 1;
                }
                Ok(())
            },
            _ => Err(eval::EnvBuildError::NotARecord(rt.clone())),
        }
    }

    /// Bind one term in a typing environment.
    pub fn env_add(env: &mut Environment, id: Ident, rt: &RichTerm)
        ensures
            final(env)@ == old(env)@.insert(
                id@,
                apparent_plain_ty(apparent(*rt.term, Some(global_scope(old(env)@)))),
            ),
    {
        let tyw = apparent_plain_typewrapper(
            apparent_type(&*rt.term, Some(&Envs::from_global(&*env))),
        );
        env.insert(id, tyw);
    }

    /// Fetch a binding from the environment. Try first in the local environment, and then in the
    /// global.
    pub fn get(&self, ident: &Ident) -> (res: Option<TypeWrapper>)
        ensures
            opt_ty(res) == in_scope(self@, ident@),
    {
        match self.local.get(ident) {
            Some(tyw) => Some(tyw),
            None => self.global.get(ident),
        }
    }

    /// Wrapper to insert a new binding in the local environment.
    pub fn insert(&mut self, ident: Ident, tyw: TypeWrapper)
        ensures
            final(self)@ == with_local(old(self)@, ident@, tyw@),
            final(self).global == old(self).global,
    {
        self.local.insert(ident, tyw);
    }
}

/// The type of a binding, and the table with the variable that it may ask for: in strict mode, an
/// approximation is replaced by a new variable.
pub open spec fn binding_ty(table: Table, scope: Scope, t: Term, strict: bool) -> (Table, Ty) {
    let at = apparent(t, Some(scope));
    if strict && at is Approximated {
        (table.insert(next_var(table), None), Ty::Ptr(next_var(table)))
    } else {
        (table, apparent_ty(at))
    }
}

/// The type of a binding to a term with a position, and the table.
pub open spec fn bound_ty(table: Table, scope: Scope, rt: RichTerm, strict: bool) -> (Table, Ty) {
    binding_ty(table, scope, *rt.term, strict)
}

/// Determine the type of a let-bound expression, or more generally of any binding (e.g. fields)
/// that may be stored in a typing environment at some point.
///
/// Call `apparent_type` to see if the binding is annotated. If it is, return this type as a
/// `TypeWrapper`. Otherwise:
///     * in non strict mode, we won't (and possibly can't) infer the type of `bound_exp`: just
///       return the approximation, `Dyn` (or `List Dyn` for a list).
///     * in strict mode, we will typecheck `bound_exp`: return a new unification variable to be
///       associated to `bound_exp`.
pub fn binding_type(t: &Term, envs: &Envs, table: &mut UnifTable, strict: bool) -> (res:
    TypeWrapper)
    ensures
        (table_of(*final(table)), res@) == binding_ty(table_of(*old(table)), envs@, *t, strict),
{
    let ty_apt = apparent_type(t, Some(envs));
    match ty_apt {
        ApparentType::Approximated(ty) => {
            if strict {
                TypeWrapper::Ptr(new_var(table))
            } else {
                to_typewrapper(ty)
            }
        },
        ty_apt => apparent_typewrapper(ty_apt),
    }
}

} // verus!
