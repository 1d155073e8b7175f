//! Unification of types without variables always returns, within a bound given by their sizes.
use vstd::prelude::*;

use crate::model::{unbox, Name, St, Table, Ty};
use crate::typecheck::check::run_to_type;
use crate::typecheck::state::{next_var, with_var};
use crate::typecheck::unify::{
    run_row_add, run_sub, run_sub_dyn_record, run_sub_row_types, run_sub_rows, run_sub_tails,
};
use crate::typecheck::wrapper::{is_plain, subst};

verus! {

/// The size of a type.
pub open spec fn ty_size(ty: Ty) -> nat
    decreases ty,
{
    match ty {
        Ty::Arrow(s, t) => 1 + ty_size(*s) + ty_size(*t),
        Ty::Forall(_, t) => 1 + ty_size(*t),
        Ty::RowExtend(_, t, tail) => 1 + (match t {
            Some(t) => ty_size(*t),
            None => 0,
        }) + ty_size(*tail),
        Ty::Enum(t) => 1 + ty_size(*t),
        Ty::StaticRecord(t) => 1 + ty_size(*t),
        Ty::DynRecord(t) => 1 + ty_size(*t),
        Ty::List(t) => 1 + ty_size(*t),
        _ => 1,
    }
}

/// Whether a type has no unification variables in it.
pub open spec fn no_vars(ty: Ty) -> bool
    decreases ty,
{
    match ty {
        Ty::Ptr(_) => false,
        Ty::Arrow(s, t) => no_vars(*s) && no_vars(*t),
        Ty::Forall(_, t) => no_vars(*t),
        Ty::RowExtend(_, t, tail) => (match t {
            Some(t) => no_vars(*t),
            None => true,
        }) && no_vars(*tail),
        Ty::Enum(t) => no_vars(*t),
        Ty::StaticRecord(t) => no_vars(*t),
        Ty::DynRecord(t) => no_vars(*t),
        Ty::List(t) => no_vars(*t),
        _ => true,
    }
}

/// Substituting a type variable by a constant neither changes the size nor adds variables.
proof fn lemma_subst_constant(ty: Ty, id: Name, c: usize)
    requires
        no_vars(ty),
    ensures
        no_vars(subst(ty, id, Ty::Constant(c))),
        ty_size(subst(ty, id, Ty::Constant(c))) == ty_size(ty),
    decreases ty,
{
    match ty {
        Ty::Arrow(s, t) => {
            lemma_subst_constant(*s, id, c);
            lemma_subst_constant(*t, id, c);
        },
        Ty::Forall(_, t) => lemma_subst_constant(*t, id, c),
        Ty::RowExtend(_, t, tail) => {
            if let Some(t) = t {
                lemma_subst_constant(*t, id, c);
            }
            lemma_subst_constant(*tail, id, c);
        },
        Ty::Enum(t) => lemma_subst_constant(*t, id, c),
        Ty::StaticRecord(t) => lemma_subst_constant(*t, id, c),
        Ty::DynRecord(t) => lemma_subst_constant(*t, id, c),
        Ty::List(t) => lemma_subst_constant(*t, id, c),
        _ => {},
    }
}

/// A type has a size.
proof fn lemma_size_positive(ty: Ty)
    ensures
        ty_size(ty) >= 1,
{
}

/// Looking for a binding in a row without variables returns, changes nothing, and takes the binding
/// out of the row.
proof fn lemma_row_add_total(n: nat, st: St, id: Name, ty: Option<Ty>, r: Ty)
    requires
        no_vars(r),
        n >= ty_size(r),
    ensures
        run_row_add(n, st, id, ty, r) is Some,
        ({
            let (st2, res) = run_row_add(n, st, id, ty, r)->0;
            &&& st2 == st
            &&& res matches Ok((ty2, rest)) ==> {
                &&& no_vars(rest)
                &&& match ty2 {
                    Some(t) => no_vars(t) && ty_size(t) + ty_size(rest) + 1 == ty_size(r),
                    None => ty_size(rest) + 1 == ty_size(r),
                }
            }
        }),
    decreases r,
{
    lemma_size_positive(r);
    if let Ty::RowExtend(id2, ty2, r2) = r {
        if id != id2 {
            lemma_row_add_total((n - 1) as nat, st, id, ty, *r2);
        }
    }
}

/// Unifying two types without variables returns, within as many nested calls as the two types have
/// parts, and one more.
pub proof fn law_sub_total(n: nat, st: St, t1: Ty, t2: Ty)
    requires
        no_vars(t1),
        no_vars(t2),
        n > ty_size(t1) + ty_size(t2),
    ensures
        run_sub(n, st, t1, t2) is Some,
    decreases n, 1nat,
{
    let m = (n - 1) as nat;
    match (t1, t2) {
        (_, Ty::Dyn) => {},
        (Ty::List(a), Ty::List(b)) => law_sub_total(m, st, *a, *b),
        (Ty::Arrow(s1, r1), Ty::Arrow(s2, r2)) => {
            law_sub_total(m, st, *s2, *s1);
            if let Some((st, Ok(()))) = run_sub(m, st, *s2, *s1) {
                law_sub_total(m, st, *r1, *r2);
            }
        },
        (Ty::Flat(_), Ty::Flat(_)) => {},
        (Ty::Enum(a), Ty::Enum(b)) => lemma_row_types_total(n, st, *a, *b, t1, t2),
        (Ty::StaticRecord(a), Ty::StaticRecord(b)) => {
            lemma_row_types_total(n, st, *a, *b, t1, t2);
        },
        (Ty::DynRecord(a), Ty::DynRecord(b)) => law_sub_total(m, st, *a, *b),
        (Ty::StaticRecord(a), Ty::DynRecord(b)) => lemma_dyn_record_total(m, st, *a, *b),
        (Ty::Forall(i1, a), Ty::Forall(i2, b)) => {
            let c = next_var(st.table);
            lemma_subst_constant(*a, i1, c);
            lemma_subst_constant(*b, i2, c);
            let (s, t) = (subst(*a, i1, Ty::Constant(c)), subst(*b, i2, Ty::Constant(c)));
            law_sub_total(m, with_var(st), s, t);
        },
        _ => if t1.is_row() && t2.is_row() {
            lemma_rows_total(m, st, t1, t2);
        },
    }
}

/// The same, for the rows of two enum or record types.
proof fn lemma_row_types_total(n: nat, st: St, a: Ty, b: Ty, t1: Ty, t2: Ty)
    requires
        no_vars(a),
        no_vars(b),
        n > ty_size(a) + ty_size(b) + 1,
    ensures
        run_sub_row_types(n, st, a, b, t1, t2) is Some,
    decreases n, 0nat,
{
    let m = (n - 1) as nat;
    if a.is_row() && b.is_row() {
        lemma_rows_total(m, st, a, b);
    } else if a.is_concrete() && !a.is_row() {
    } else if b.is_concrete() && !b.is_row() {
    } else {
        law_sub_total(m, st, a, b);
    }
}

/// The same, for two rows.
proof fn lemma_rows_total(n: nat, st: St, t1: Ty, t2: Ty)
    requires
        no_vars(t1),
        no_vars(t2),
        n >= ty_size(t1) + ty_size(t2),
    ensures
        run_sub_rows(n, st, t1, t2) is Some,
    decreases n, 1nat,
{
    lemma_size_positive(t1);
    if let (Ty::RowExtend(id, ty, tail), Ty::RowExtend(_, _, _)) = (t1, t2) {
        let m = (n - 1) as nat;
        lemma_size_positive(*tail);
        lemma_row_add_total(m, st, id, unbox(ty), t2);
        let (_, out) = run_row_add(m, st, id, unbox(ty), t2)->0;
        if let Ok((ty2, rest)) = out {
            lemma_size_positive(rest);
            match (unbox(ty), ty2) {
                (None, None) => lemma_tails_total(n, st, *tail, rest),
                (Some(a), Some(b)) => {
                    law_sub_total(m, st, a, b);
                    if let Some((st, Ok(()))) = run_sub(m, st, a, b) {
                        lemma_tails_total(n, st, *tail, rest);
                    }
                },
                _ => {},
            }
        }
    }
}

/// The same, for the tails of two rows.
proof fn lemma_tails_total(n: nat, st: St, t1: Ty, t2: Ty)
    requires
        no_vars(t1),
        no_vars(t2),
        n >= ty_size(t1) + ty_size(t2) + 2,
    ensures
        run_sub_tails(n, st, t1, t2) is Some,
    decreases n, 0nat,
{
    let m = (n - 1) as nat;
    if t1.is_concrete() && t2.is_concrete() {
        lemma_rows_total(m, st, t1, t2);
    } else {
        law_sub_total(m, st, t1, t2);
    }
}

/// The same, for a row and a dictionary type.
proof fn lemma_dyn_record_total(n: nat, st: St, row: Ty, ty: Ty)
    requires
        no_vars(row),
        no_vars(ty),
        n >= ty_size(row) + ty_size(ty) + 2,
    ensures
        run_sub_dyn_record(n, st, row, ty) is Some,
    decreases n, 0nat,
{
    let m = (n - 1) as nat;
    match row {
        Ty::Dyn => law_sub_total(m, st, Ty::Dyn, ty),
        Ty::RowExtend(id, Some(a), tail) => {
            lemma_size_positive(*tail);
            law_sub_total(m, st, *a, ty);
            if let Some((st, Ok(()))) = run_sub(m, st, *a, ty) {
                lemma_dyn_record_total(m, st, *tail, ty);
            }
        },
        _ => {},
    }
}

/// A type without variables and constants can be extracted, within as many nested calls as it has
/// parts.
pub proof fn law_to_type_total(n: nat, table: Table, ty: Ty)
    requires
        is_plain(ty),
        n >= ty_size(ty),
    ensures
        run_to_type(n, table, ty) == Some(ty),
    decreases ty,
{
    let m = (n - 1) as nat;
    lemma_size_positive(ty);
    match ty {
        Ty::Arrow(s, t) => {
            law_to_type_total(m, table, *s);
            law_to_type_total(m, table, *t);
        },
        Ty::Forall(_, t) => law_to_type_total(m, table, *t),
        Ty::RowExtend(_, t, tail) => {
            if let Some(t) = t {
                law_to_type_total(m, table, *t);
            }
            law_to_type_total(m, table, *tail);
        },
        Ty::Enum(t) => law_to_type_total(m, table, *t),
        Ty::StaticRecord(t) => law_to_type_total(m, table, *t),
        Ty::DynRecord(t) => law_to_type_total(m, table, *t),
        Ty::List(t) => law_to_type_total(m, table, *t),
        _ => {},
    }
}

} // verus!
