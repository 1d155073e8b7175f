//! Unification accepts what it must: a well-formed type against itself, and any concrete type
//! against `Dyn`.
use vstd::prelude::*;

use crate::laws::total::ty_size;
use crate::model::{unbox, Name, St, Ty, UErr};
use crate::typecheck::state::{next_var, with_var};
use crate::typecheck::unify::{run_row_add, run_sub, run_sub_row_types, run_sub_rows};
use crate::typecheck::wrapper::subst;

verus! {

/// Whether a type may stand for a row, or for the tail of one.
pub open spec fn is_row_shaped(ty: Ty) -> bool {
    ty is RowEmpty || ty is RowExtend || ty is Dyn || ty is Constant || ty is Var
}

/// Whether a type without unification variables is well-formed: its type variables are bound, its
/// enum and record types are made of rows, and its flat types of variables.
pub open spec fn is_well_formed(ty: Ty, bound: Set<Name>) -> bool
    decreases ty,
{
    match ty {
        Ty::Ptr(_) => false,
        Ty::Var(id) => bound.contains(id),
        Ty::Flat(t) => *t.term is Var,
        Ty::Arrow(s, t) => is_well_formed(*s, bound) && is_well_formed(*t, bound),
        Ty::Forall(id, t) => is_well_formed(*t, bound.insert(id)),
        Ty::RowExtend(_, t, tail) => (match t {
            Some(t) => is_well_formed(*t, bound),
            None => true,
        }) && is_row_shaped(*tail) && is_well_formed(*tail, bound),
        Ty::Enum(t) => is_row_shaped(*t) && is_well_formed(*t, bound),
        Ty::StaticRecord(t) => is_row_shaped(*t) && is_well_formed(*t, bound),
        Ty::DynRecord(t) => is_well_formed(*t, bound),
        Ty::List(t) => is_well_formed(*t, bound),
        _ => true,
    }
}

/// Substituting a bound type variable by a constant keeps a type well-formed.
proof fn lemma_subst_well_formed(ty: Ty, id: Name, c: usize, bound: Set<Name>)
    requires
        is_well_formed(ty, bound.insert(id)),
    ensures
        is_well_formed(subst(ty, id, Ty::Constant(c)), bound),
        ty_size(subst(ty, id, Ty::Constant(c))) == ty_size(ty),
    decreases ty,
{
    match ty {
        Ty::Arrow(s, t) => {
            lemma_subst_well_formed(*s, id, c, bound);
            lemma_subst_well_formed(*t, id, c, bound);
        },
        Ty::Forall(i, t) => if i == id {
            assert(bound.insert(id).insert(i) =~= bound.insert(i));
        } else {
            assert(bound.insert(id).insert(i) =~= bound.insert(i).insert(id));
            lemma_subst_well_formed(*t, id, c, bound.insert(i));
        },
        Ty::RowExtend(_, t, tail) => {
            if let Some(t) = t {
                lemma_subst_well_formed(*t, id, c, bound);
            }
            lemma_subst_well_formed(*tail, id, c, bound);
        },
        Ty::Enum(t) => lemma_subst_well_formed(*t, id, c, bound),
        Ty::StaticRecord(t) => lemma_subst_well_formed(*t, id, c, bound),
        Ty::DynRecord(t) => lemma_subst_well_formed(*t, id, c, bound),
        Ty::List(t) => lemma_subst_well_formed(*t, id, c, bound),
        _ => {},
    }
}

/// Any concrete type can be unified with `Dyn`, and this changes nothing.
pub proof fn law_sub_dyn(n: nat, st: St, ty: Ty)
    requires
        n > 0,
        ty.is_concrete(),
    ensures
        run_sub(n, st, ty, Ty::Dyn) == Some((st, Ok::<(), UErr>(()))),
{
}

/// A well-formed type without unification variables can be unified with itself.
pub proof fn law_sub_reflexive(n: nat, st: St, ty: Ty)
    requires
        is_well_formed(ty, Set::empty()),
        n > 2 * ty_size(ty),
    ensures
        run_sub(n, st, ty, ty) matches Some((_, Ok(_))),
    decreases n, 1nat,
{
    let m = (n - 1) as nat;
    match ty {
        Ty::List(t) => law_sub_reflexive(m, st, *t),
        Ty::Arrow(s, t) => {
            law_sub_reflexive(m, st, *s);
            law_sub_reflexive(m, (run_sub(m, st, *s, *s)->0).0, *t);
        },
        Ty::Enum(t) => lemma_row_type_reflexive(n, st, *t, ty),
        Ty::StaticRecord(t) => lemma_row_type_reflexive(n, st, *t, ty),
        Ty::DynRecord(t) => law_sub_reflexive(m, st, *t),
        Ty::Forall(id, t) => {
            let c = next_var(st.table);
            lemma_subst_well_formed(*t, id, c, Set::empty());
            law_sub_reflexive(m, with_var(st), subst(*t, id, Ty::Constant(c)));
        },
        Ty::RowEmpty => lemma_rows_reflexive(m, st, ty),
        Ty::RowExtend(_, _, _) => lemma_rows_reflexive(m, st, ty),
        _ => {},
    }
}

/// The same, for the row of an enum or record type.
proof fn lemma_row_type_reflexive(n: nat, st: St, row: Ty, ty: Ty)
    requires
        is_row_shaped(row),
        is_well_formed(row, Set::empty()),
        n > 2 * ty_size(row) + 1,
    ensures
        run_sub_row_types(n, st, row, row, ty, ty) matches Some((_, Ok(_))),
    decreases n, 0nat,
{
    let m = (n - 1) as nat;
    if row.is_row() {
        lemma_rows_reflexive(m, st, row);
    } else {
        law_sub_reflexive(m, st, row);
    }
}

/// The same, for a row.
proof fn lemma_rows_reflexive(n: nat, st: St, row: Ty)
    requires
        row.is_row(),
        is_well_formed(row, Set::empty()),
        n >= 2 * ty_size(row),
    ensures
        run_sub_rows(n, st, row, row) matches Some((_, Ok(_))),
    decreases n, 1nat,
{
    let m = (n - 1) as nat;
    if let Ty::RowExtend(id, ty, tail) = row {
        assert(ty_size(*tail) >= 1);
        assert(is_well_formed(*tail, Set::empty()));
        if let Ty::Var(x) = *tail {
            assert(!Set::<Name>::empty().contains(x));
        }
        assert(run_row_add(m, st, id, unbox(ty), row) matches Some((st2, Ok((ty2, rest)))) && st2
            == st && ty2 == unbox(ty) && rest == *tail);
        let mid = match ty {
            Some(t) => {
                law_sub_reflexive(m, st, *t);
                (run_sub(m, st, *t, *t)->0).0
            },
            None => st,
        };
        if tail.is_concrete() {
            lemma_rows_reflexive(m, mid, *tail);
        } else {
            law_sub_reflexive(m, mid, *tail);
        }
    }
}

} // verus!
