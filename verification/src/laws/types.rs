//! Types: conversions, substitution, instantiation, and the types that are given to bindings.
use vstd::prelude::*;

use crate::laws::subtyping::{lemma_sub_sound, root, succeeds};
use crate::laws::table::{fits, is_wf, law_later_table, law_sub_table};
use crate::model::{Name, St, Table, Ty};
use crate::term::RichTerm;
use crate::typecheck::check::run_to_type;
use crate::typecheck::envs::{apparent, bound_ty, in_scope, lemma_unwrap_view, with_local, Scope};
use crate::typecheck::instantiate::{
    head_foralls, instance, lemma_subst_head_foralls, run_instantiate, run_instantiate_heads,
    ForallInst,
};
use crate::typecheck::state::{next_var, run_constrain_var, run_resolve, run_root, with_var};
use crate::typecheck::unify::run_sub;
use crate::typecheck::wrapper::{is_plain, subst, unwrap, wrap, TypeWrapper};
use crate::types::Types;

verus! {

/// Converting a type to a type wrapper and back gives the type.
pub proof fn law_wrap_unwrap(t: Types)
    ensures
        is_plain(wrap(t)@),
        unwrap(wrap(t)) == t,
    decreases t,
{
    match t {
        Types::Arrow(s, t) => {
            law_wrap_unwrap(*s);
            law_wrap_unwrap(*t);
        },
        Types::Forall(_, t) => law_wrap_unwrap(*t),
        Types::RowExtend(_, ty, tail) => {
            if let Some(ty) = ty {
                law_wrap_unwrap(*ty);
            }
            law_wrap_unwrap(*tail);
        },
        Types::Enum(t) => law_wrap_unwrap(*t),
        Types::StaticRecord(t) => law_wrap_unwrap(*t),
        Types::DynRecord(t) => law_wrap_unwrap(*t),
        Types::List(t) => law_wrap_unwrap(*t),
        _ => {},
    }
}

/// Converting a type wrapper without variables and constants to a type and back gives the type
/// wrapper.
pub proof fn law_unwrap_wrap(tyw: TypeWrapper)
    requires
        is_plain(tyw@),
    ensures
        wrap(unwrap(tyw)) == tyw,
{
    lemma_unwrap_view(tyw);
}

/// Whether a type variable occurs free in a type.
pub open spec fn is_free(id: Name, ty: Ty) -> bool
    decreases ty,
{
    match ty {
        Ty::Var(i) => i == id,
        Ty::Forall(i, t) => i != id && is_free(id, *t),
        Ty::Arrow(s, t) => is_free(id, *s) || is_free(id, *t),
        Ty::RowExtend(_, t, tail) => (match t {
            Some(t) => is_free(id, *t),
            None => false,
        }) || is_free(id, *tail),
        Ty::Enum(t) => is_free(id, *t),
        Ty::StaticRecord(t) => is_free(id, *t),
        Ty::DynRecord(t) => is_free(id, *t),
        Ty::List(t) => is_free(id, *t),
        _ => false,
    }
}

/// Substituting a type variable that does not occur free changes nothing. After the substitution,
/// it occurs free no more, unless it does so in the type that replaces it.
pub proof fn law_subst(ty: Ty, id: Name, to: Ty)
    ensures
        !is_free(id, ty) ==> subst(ty, id, to) == ty,
        !is_free(id, to) ==> !is_free(id, subst(ty, id, to)),
    decreases ty,
{
    match ty {
        Ty::Forall(i, t) => if i != id {
            law_subst(*t, id, to);
        },
        Ty::Arrow(s, t) => {
            law_subst(*s, id, to);
            law_subst(*t, id, to);
        },
        Ty::RowExtend(_, t, tail) => {
            if let Some(t) = t {
                law_subst(*t, id, to);
            }
            law_subst(*tail, id, to);
        },
        Ty::Enum(t) => law_subst(*t, id, to),
        Ty::StaticRecord(t) => law_subst(*t, id, to),
        Ty::DynRecord(t) => law_subst(*t, id, to),
        Ty::List(t) => law_subst(*t, id, to),
        _ => {},
    }
}

/// Substituting a type variable by itself changes nothing.
pub proof fn law_subst_self(ty: Ty, id: Name)
    ensures
        subst(ty, id, Ty::Var(id)) == ty,
    decreases ty,
{
    match ty {
        Ty::Forall(i, t) => if i != id {
            law_subst_self(*t, id);
        },
        Ty::Arrow(s, t) => {
            law_subst_self(*s, id);
            law_subst_self(*t, id);
        },
        Ty::RowExtend(_, t, tail) => {
            if let Some(t) = t {
                law_subst_self(*t, id);
            }
            law_subst_self(*tail, id);
        },
        Ty::Enum(t) => law_subst_self(*t, id),
        Ty::StaticRecord(t) => law_subst_self(*t, id),
        Ty::DynRecord(t) => law_subst_self(*t, id),
        Ty::List(t) => law_subst_self(*t, id),
        _ => {},
    }
}

/// An extracted type has neither variables nor constants in it, and a type that has none is
/// extracted as it is.
pub proof fn law_to_type_plain(n: nat, table: Table, ty: Ty)
    requires
        run_to_type(n, table, ty) is Some,
    ensures
        is_plain(run_to_type(n, table, ty)->0),
        is_plain(ty) ==> run_to_type(n, table, ty) == Some(ty),
    decreases n,
{
    let m = (n - 1) as nat;
    match ty {
        Ty::Ptr(p) => match run_root(m, table, p) {
            Some(Ty::Ptr(_)) => {},
            Some(Ty::Constant(_)) => {},
            Some(ty) => law_to_type_plain(m, table, ty),
            None => {},
        },
        Ty::Arrow(s, t) => {
            law_to_type_plain(m, table, *s);
            law_to_type_plain(m, table, *t);
        },
        Ty::RowExtend(_, Some(t), tail) => {
            law_to_type_plain(m, table, *t);
            law_to_type_plain(m, table, *tail);
        },
        Ty::RowExtend(_, None, tail) => law_to_type_plain(m, table, *tail),
        Ty::Forall(_, t) => law_to_type_plain(m, table, *t),
        Ty::Enum(t) => law_to_type_plain(m, table, *t),
        Ty::StaticRecord(t) => law_to_type_plain(m, table, *t),
        Ty::DynRecord(t) => law_to_type_plain(m, table, *t),
        Ty::List(t) => law_to_type_plain(m, table, *t),
        _ => {},
    }
}

/// An instantiated type has no quantifier in head position.
pub proof fn law_instantiate_heads(n: nat, st: St, ty: Ty, inst: ForallInst)
    requires
        run_instantiate(n, st, ty, inst) is Some,
    ensures
        !((run_instantiate(n, st, ty, inst)->0).1 is Forall),
{
    let m = (n - 1) as nat;
    lemma_instantiate_heads(m, st, run_resolve(m, st.table, ty)->0, inst);
}

/// The same, for a type that is its own representative.
proof fn lemma_instantiate_heads(n: nat, st: St, ty: Ty, inst: ForallInst)
    requires
        run_instantiate_heads(n, st, ty, inst) is Some,
    ensures
        !((run_instantiate_heads(n, st, ty, inst)->0).1 is Forall),
    decreases head_foralls(ty),
{
    if let Ty::Forall(id, body) = ty {
        let fresh_id = next_var(st.table);
        lemma_subst_head_foralls(*body, id, instance(inst, fresh_id));
        let ty = subst(*body, id, instance(inst, fresh_id));
        let st = with_var(st);
        let st = St { names: st.names.insert(fresh_id, id), ..st };
        match inst {
            ForallInst::Constant => lemma_instantiate_heads(n, st, ty, inst),
            ForallInst::Ptr => {
                let st = run_constrain_var(n, st, Set::empty(), ty, fresh_id)->0;
                lemma_instantiate_heads(n, st, ty, inst);
            },
        }
    }
}

/// A type without a quantifier in head position is its own only instance, and instantiating it
/// changes nothing.
pub proof fn law_instantiate_monomorphic(n: nat, st: St, ty: Ty, inst: ForallInst)
    requires
        run_instantiate(n, st, ty, inst) is Some,
        !(run_resolve((n - 1) as nat, st.table, ty)->0 is Forall),
    ensures
        run_instantiate(n, st, ty, inst) == Some(
            (st, run_resolve((n - 1) as nat, st.table, ty)->0),
        ),
{
}

/// A constant can be unified with nothing but itself: when it is unified with a type, the type
/// stands for this constant from then on.
pub proof fn law_constant_rigid(n: nat, st: St, c: usize, ty: Ty, st2: St)
    requires
        is_wf(st.table),
        fits(st2.table),
        succeeds(run_sub(n, st, Ty::Constant(c), ty), st2) || succeeds(
            run_sub(n, st, ty, Ty::Constant(c)),
            st2,
        ),
    ensures
        root(st2.table, ty) == Some(Ty::Constant(c)),
{
    let base = st.table.dom().len();
    let cst = Ty::Constant(c);
    if succeeds(run_sub(n, st, cst, ty), st2) {
        law_sub_table(n, st, cst, ty);
        law_later_table(st.table, st2.table);
        lemma_sub_sound(n, 1, base, st, cst, ty, st2, st2.table);
    } else {
        law_sub_table(n, st, ty, cst);
        law_later_table(st.table, st2.table);
        lemma_sub_sound(n, 1, base, st, ty, cst, st2, st2.table);
    }
}

/// A binding without a type annotation is never generalized in strict mode: it is given a new
/// variable, and all its uses refer to this variable.
pub proof fn law_let_monomorphic(st: St, scope: Scope, rt: RichTerm, n: nat, inst: ForallInst)
    requires
        apparent(*rt.term, Some(scope)) is Approximated,
        n > 1,
    ensures
        ({
            let (table, ty) = bound_ty(st.table, scope, rt, true);
            let st2 = St { table, ..st };
            &&& ty == Ty::Ptr(next_var(st.table))
            &&& table == st.table.insert(next_var(st.table), None)
            &&& run_instantiate(n, st2, ty, inst) == Some((st2, ty))
        }),
{
}

/// A local binding hides the bindings of the same name, and no others.
pub proof fn law_scope(scope: Scope, id: Name, ty: Ty, other: Name)
    ensures
        in_scope(with_local(scope, id, ty), id) == Some(ty),
        other != id ==> in_scope(with_local(scope, id, ty), other) == in_scope(scope, other),
{
}

} // verus!
