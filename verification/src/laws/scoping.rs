//! Every variable that unification and typechecking deal with has been introduced: the variables in
//! types are variables of the table, and stay so. A variable that neither a type nor the scope nor
//! the table mentions is never bound.
use vstd::prelude::*;
use vstd::set_lib::*;

use crate::identifier::Ident;
use crate::laws::table::{
    comes_after, fits, is_wf, law_check_table, law_constrain_var_table, law_constraint_table,
    law_get_root_total, law_initial_wf, law_instantiate_table, law_later_table, law_row_add_table,
    law_sub_dyn_record_table, law_sub_table, lemma_after_refl, lemma_after_trans,
    lemma_bind_fields_table, lemma_bop_table, lemma_bound_ty_table, lemma_check_fields_table,
    lemma_check_record_table, lemma_check_seq_table, lemma_check_switched_table, lemma_expect_table,
    lemma_instantiate_heads_table, lemma_new_binding, lemma_new_var, lemma_root_free,
    lemma_sub_tails_table, lemma_uop_table,
};
use crate::laws::types::law_wrap_unwrap;
use crate::model::{arrow, enum_of, list_of, record_of, row_extend, unbox, Name, St, Table, Ty};
use crate::position::{FileId, TermPos};
use crate::term::{BinaryOp, MetaValue, NAryOp, RichTerm, StrChunk, Term, UnaryOp};
use crate::typecheck::check::{
    all_against, args_against, bind_fields, cases_row, chunks_against, fields_against, run_check,
    run_check_fields, run_check_meta, run_check_promise, run_check_record, run_check_seq,
    run_check_switch, run_check_switched, run_expect, run_type_check,
};
use crate::typecheck::envs::{
    apparent, apparent_plain_ty, apparent_ty, bound_ty, global_scope, global_types, in_scope,
    lemma_wrap_view, with_local, Scope,
};
use crate::typecheck::instantiate::{
    head_foralls, instance, lemma_subst_head_foralls, run_instantiate, run_instantiate_heads,
    ForallInst,
};
use crate::typecheck::ops::{
    bop_sig, bop_type, bop_vars, is_typed_bop, is_typed_nop, is_typed_uop, nop_type, uop_sig,
    uop_type, uop_vars,
};
use crate::typecheck::state::{
    initial, max_depth, next_var, run_constrain_var, run_constraint, run_resolve, run_root,
    with_var,
};
use crate::typecheck::unify::{
    run_row_add, run_sub, run_sub_concrete, run_sub_dyn_record, run_sub_row_types, run_sub_rows,
    run_sub_tails, unify_var,
};
use crate::typecheck::wrapper::{is_plain, subst};
use crate::types::Types;

verus! {

/// Whether all the variables of a type are among the first `n`, and not among the first `lo`.
pub open spec fn is_scoped(ty: Ty, lo: nat, n: nat) -> bool
    decreases ty,
{
    match ty {
        Ty::Ptr(p) => lo <= p < n,
        Ty::Arrow(s, t) => is_scoped(*s, lo, n) && is_scoped(*t, lo, n),
        Ty::Forall(_, t) => is_scoped(*t, lo, n),
        Ty::RowExtend(_, t, tail) => (match t {
            Some(t) => is_scoped(*t, lo, n),
            None => true,
        }) && is_scoped(*tail, lo, n),
        Ty::Enum(t) => is_scoped(*t, lo, n),
        Ty::StaticRecord(t) => is_scoped(*t, lo, n),
        Ty::DynRecord(t) => is_scoped(*t, lo, n),
        Ty::List(t) => is_scoped(*t, lo, n),
        _ => true,
    }
}

/// The same, for an optional type.
pub open spec fn opt_scoped(ty: Option<Ty>, lo: nat, n: nat) -> bool {
    match ty {
        Some(ty) => is_scoped(ty, lo, n),
        None => true,
    }
}

/// Whether a well-formed table only binds its variables to types over its variables, and neither
/// binds the first `lo` of them nor mentions them.
pub open spec fn is_closed(table: Table, lo: nat) -> bool {
    &&& is_wf(table)
    &&& lo <= table.dom().len()
    &&& forall|x: usize| #[trigger]
        table.contains_key(x) ==> opt_scoped(table[x], lo, table.dom().len()) && (x < lo
            ==> table[x] is None)
}

/// Whether a type is over the variables of a table, without the first `lo` of them.
pub open spec fn is_over(ty: Ty, table: Table, lo: nat) -> bool {
    is_scoped(ty, lo, table.dom().len())
}

/// The same, for the types in scope.
pub open spec fn scope_over(scope: Scope, table: Table, lo: nat) -> bool {
    forall|id: Name| #[trigger]
        in_scope(scope, id) is Some ==> is_over(in_scope(scope, id)->0, table, lo)
}

/// The same, for a type that a term is checked against: in non-strict mode, the type is not looked
/// into, and may be any.
pub open spec fn goal_over(strict: bool, ty: Ty, table: Table, lo: nat) -> bool {
    strict ==> is_over(ty, table, lo)
}

/// The representative of every variable of a type over a closed table can be queried, and is over
/// the table itself.
pub proof fn law_root_over(lo: nat, table: Table, p: usize)
    requires
        is_closed(table, lo),
        is_over(Ty::Ptr(p), table, lo),
    ensures
        run_root(max_depth(), table, p) is Some,
        is_over(run_root(max_depth(), table, p)->0, table, lo),
{
    assert(table.contains_key(p));
    law_get_root_total(table, p);
    lemma_root_over(lo, max_depth(), table, p);
}

/// A representative is over its table.
proof fn lemma_root_over(lo: nat, n: nat, table: Table, x: usize)
    requires
        is_closed(table, lo),
        lo <= x,
        run_root(n, table, x) is Some,
    ensures
        is_over(run_root(n, table, x)->0, table, lo),
    decreases n,
{
    assert(table.contains_key(x));
    if let Some(Ty::Ptr(y)) = table[x] {
        lemma_root_over(lo, (n - 1) as nat, table, y);
    }
}

/// The representative of a type is over its table.
proof fn lemma_resolve_over(lo: nat, n: nat, table: Table, ty: Ty)
    requires
        is_closed(table, lo),
        is_over(ty, table, lo),
        run_resolve(n, table, ty) is Some,
    ensures
        is_over(run_resolve(n, table, ty)->0, table, lo),
{
    if let Ty::Ptr(p) = ty {
        lemma_root_over(lo, n, table, p);
    }
}

/// A type over the first variables is over more of them.
proof fn lemma_scoped_more(lo: nat, ty: Ty, n: nat, m: nat)
    requires
        is_scoped(ty, lo, n),
        n <= m,
    ensures
        is_scoped(ty, lo, m),
    decreases ty,
{
    match ty {
        Ty::Arrow(s, t) => {
            lemma_scoped_more(lo, *s, n, m);
            lemma_scoped_more(lo, *t, n, m);
        },
        Ty::Forall(_, t) => lemma_scoped_more(lo, *t, n, m),
        Ty::RowExtend(_, t, tail) => {
            if let Some(t) = t {
                lemma_scoped_more(lo, *t, n, m);
            }
            lemma_scoped_more(lo, *tail, n, m);
        },
        Ty::Enum(t) => lemma_scoped_more(lo, *t, n, m),
        Ty::StaticRecord(t) => lemma_scoped_more(lo, *t, n, m),
        Ty::DynRecord(t) => lemma_scoped_more(lo, *t, n, m),
        Ty::List(t) => lemma_scoped_more(lo, *t, n, m),
        _ => {},
    }
}

/// Substituting keeps a type over the same variables.
proof fn lemma_scoped_subst(lo: nat, ty: Ty, id: Name, to: Ty, n: nat)
    requires
        is_scoped(ty, lo, n),
        is_scoped(to, lo, n),
    ensures
        is_scoped(subst(ty, id, to), lo, n),
    decreases ty,
{
    match ty {
        Ty::Arrow(s, t) => {
            lemma_scoped_subst(lo, *s, id, to, n);
            lemma_scoped_subst(lo, *t, id, to, n);
        },
        Ty::Forall(_, t) => lemma_scoped_subst(lo, *t, id, to, n),
        Ty::RowExtend(_, t, tail) => {
            if let Some(t) = t {
                lemma_scoped_subst(lo, *t, id, to, n);
            }
            lemma_scoped_subst(lo, *tail, id, to, n);
        },
        Ty::Enum(t) => lemma_scoped_subst(lo, *t, id, to, n),
        Ty::StaticRecord(t) => lemma_scoped_subst(lo, *t, id, to, n),
        Ty::DynRecord(t) => lemma_scoped_subst(lo, *t, id, to, n),
        Ty::List(t) => lemma_scoped_subst(lo, *t, id, to, n),
        _ => {},
    }
}

/// A type without variables is over any table.
proof fn lemma_plain_scoped(lo: nat, ty: Ty, n: nat)
    requires
        is_plain(ty),
    ensures
        is_scoped(ty, lo, n),
    decreases ty,
{
    match ty {
        Ty::Arrow(s, t) => {
            lemma_plain_scoped(lo, *s, n);
            lemma_plain_scoped(lo, *t, n);
        },
        Ty::Forall(_, t) => lemma_plain_scoped(lo, *t, n),
        Ty::RowExtend(_, t, tail) => {
            if let Some(t) = t {
                lemma_plain_scoped(lo, *t, n);
            }
            lemma_plain_scoped(lo, *tail, n);
        },
        Ty::Enum(t) => lemma_plain_scoped(lo, *t, n),
        Ty::StaticRecord(t) => lemma_plain_scoped(lo, *t, n),
        Ty::DynRecord(t) => lemma_plain_scoped(lo, *t, n),
        Ty::List(t) => lemma_plain_scoped(lo, *t, n),
        _ => {},
    }
}

/// The type of an annotation is over any table.
proof fn lemma_annotation_over(lo: nat, t: Types, table: Table)
    ensures
        is_over(t@, table, lo),
{
    lemma_annotation_plain(t);
    lemma_plain_scoped(lo, t@, table.dom().len());
}

/// The tables between a well-formed one and one whose variables can be numbered are well-formed,
/// and have more and more variables.
proof fn lemma_mid(a: Table, b: Table, c: Table)
    requires
        is_wf(a),
        comes_after(a, b),
        comes_after(b, c),
        fits(c),
    ensures
        is_wf(b),
        fits(b),
        is_wf(c),
        a.dom().len() <= b.dom().len() <= c.dom().len(),
{
    reveal(comes_after);
    lemma_len_subset(b.dom(), c.dom());
    lemma_len_subset(a.dom(), b.dom());
}

/// Types over a table are over the tables that come after it.
proof fn lemma_over_after(lo: nat, ty: Ty, a: Table, b: Table)
    requires
        is_over(ty, a, lo),
        a.dom().len() <= b.dom().len(),
    ensures
        is_over(ty, b, lo),
{
    lemma_scoped_more(lo, ty, a.dom().len(), b.dom().len());
}

/// The same, for a type that a term is checked against.
proof fn lemma_goal_after(lo: nat, strict: bool, ty: Ty, a: Table, b: Table)
    requires
        goal_over(strict, ty, a, lo),
        a.dom().len() <= b.dom().len(),
    ensures
        goal_over(strict, ty, b, lo),
{
    if strict {
        lemma_over_after(lo, ty, a, b);
    }
}

/// The same, for the types in scope.
proof fn lemma_scope_after(lo: nat, scope: Scope, a: Table, b: Table)
    requires
        scope_over(scope, a, lo),
        a.dom().len() <= b.dom().len(),
    ensures
        scope_over(scope, b, lo),
{
    assert forall|id: Name| #[trigger] in_scope(scope, id) is Some implies is_over(
        in_scope(scope, id)->0,
        b,
        lo,
    ) by {
        lemma_over_after(lo, in_scope(scope, id)->0, a, b);
    }
}

/// A new variable keeps a table closed.
proof fn lemma_var_closed(lo: nat, table: Table)
    requires
        is_closed(table, lo),
        fits(table.insert(next_var(table), None)),
    ensures
        is_closed(table.insert(next_var(table), None), lo),
        table.insert(next_var(table), None).dom().len() == table.dom().len() + 1,
        is_over(Ty::Ptr(next_var(table)), table.insert(next_var(table), None), lo),
{
    let p = next_var(table);
    let new = table.insert(p, None);
    lemma_new_var(table);
    lemma_after_refl(new);
    lemma_mid(table, new, new);
    assert(!table.contains_key(p)) by {
        if table.contains_key(p) {
            assert(new.dom() =~= table.dom());
        }
    }
    assert(new.dom() =~= table.dom().insert(p));
    assert forall|x: usize| #[trigger] new.contains_key(x) implies opt_scoped(
        new[x],
        lo,
        new.dom().len(),
    ) by {
        if x != p {
            assert(table.contains_key(x));
            if let Some(ty) = table[x] {
                lemma_scoped_more(lo, ty, table.dom().len(), new.dom().len());
            }
        }
    }
}

/// A new binding to a type over the table keeps it closed.
proof fn lemma_binding_closed(lo: nat, table: Table, p: usize, ty: Ty)
    requires
        is_closed(table, lo),
        lo <= p,
        table.contains_key(p),
        is_over(ty, table, lo),
        is_wf(table.insert(p, Some(ty))),
    ensures
        is_closed(table.insert(p, Some(ty)), lo),
{
    let new = table.insert(p, Some(ty));
    assert(new.dom() =~= table.dom());
    assert forall|x: usize| #[trigger] new.contains_key(x) implies opt_scoped(
        new[x],
        lo,
        new.dom().len(),
    ) by {
        assert(table.contains_key(x));
    }
}

/// Looking for a binding in a row, or adding one, keeps the table closed, and gives types over it.
pub proof fn law_row_add_over(lo: nat, n: nat, st: St, id: Name, ty: Option<Ty>, r: Ty)
    requires
        run_row_add(n, st, id, ty, r) is Some,
        is_closed(st.table, lo),
        opt_scoped(ty, lo, st.table.dom().len()),
        is_over(r, st.table, lo),
        fits((run_row_add(n, st, id, ty, r)->0).0.table),
    ensures
        ({
            let (st2, res) = run_row_add(n, st, id, ty, r)->0;
            &&& is_closed(st2.table, lo)
            &&& res matches Ok((ty2, rest)) ==> {
                opt_scoped(ty2, lo, st2.table.dom().len()) && is_over(rest, st2.table, lo)
            }
        }),
    decreases n,
{
    let m = (n - 1) as nat;
    lemma_resolve_over(lo, m, st.table, r);
    match run_resolve(m, st.table, r) {
        Some(Ty::RowExtend(id2, ty2, r2)) => if id != id2 {
            law_row_add_over(lo, m, st, id, ty, *r2);
            law_row_add_table(m, st, id, ty, *r2);
            let st2 = (run_row_add(m, st, id, ty, *r2)->0).0;
            lemma_after_refl(st.table);
            lemma_mid(st.table, st.table, st2.table);
            if let Some(t) = ty2 {
                lemma_over_after(lo, *t, st.table, st2.table);
            }
        },
        Some(Ty::Ptr(root)) => {
            if !(st.constr.contains_key(root) && st.constr[root].contains(id)) {
                let st1 = with_var(st);
                let tail = Ty::Ptr(next_var(st.table));
                law_constraint_table(m, st1, tail, id);
                let (st2, res) = run_constraint(m, st1, tail, id)->0;
                lemma_new_var(st.table);
                if res is Ok {
                    let row = row_extend(id, ty, tail);
                    let new = st1.table.insert(root, Some(row));
                    lemma_resolve_in(m, st.table, r);
                    assert(st1.table.contains_key(root));
                    assert(new.dom() =~= st1.table.dom());
                    lemma_var_closed(lo, st.table);
                    assert(root != next_var(st.table));
                    lemma_new_binding(st1.table, root, row);
                    lemma_after_refl(new);
                    lemma_mid(st1.table, new, new);
                    if let Some(t) = ty {
                        lemma_over_after(lo, t, st.table, st1.table);
                    }
                    lemma_binding_closed(lo, st1.table, root, row);
                    if let Some(t) = ty {
                        lemma_over_after(lo, t, st1.table, new);
                    }
                    lemma_over_after(lo, tail, st1.table, new);
                } else {
                    lemma_var_closed(lo, st.table);
                }
            }
        },
        _ => {},
    }
}

/// The variable that represents a type is a free variable of the table.
proof fn lemma_resolve_in(n: nat, table: Table, ty: Ty)
    requires
        is_wf(table),
        run_resolve(n, table, ty) is Some,
    ensures
        run_resolve(n, table, ty) matches Some(Ty::Ptr(p)) ==> table.contains_key(p) && table[p]
            is None && p < table.dom().len(),
{
    if let Ty::Ptr(p) = ty {
        lemma_root_free(n, table, p);
    }
}

/// Unifying two types over a closed table keeps it closed.
pub proof fn law_sub_over(lo: nat, n: nat, st: St, t1: Ty, t2: Ty)
    requires
        run_sub(n, st, t1, t2) is Some,
        is_closed(st.table, lo),
        is_over(t1, st.table, lo),
        is_over(t2, st.table, lo),
        fits((run_sub(n, st, t1, t2)->0).0.table),
    ensures
        is_closed((run_sub(n, st, t1, t2)->0).0.table, lo),
    decreases n, 3nat,
{
    let m = (n - 1) as nat;
    lemma_resolve_over(lo, m, st.table, t1);
    lemma_resolve_over(lo, m, st.table, t2);
    lemma_resolve_in(m, st.table, t1);
    lemma_resolve_in(m, st.table, t2);
    let r1 = run_resolve(m, st.table, t1)->0;
    let r2 = run_resolve(m, st.table, t2)->0;
    match (r1, r2) {
        (Ty::Ptr(p), _) => if r2 != Ty::Ptr(p) {
            lemma_unify_var_over(lo, st, p, r2, r1, r2);
        },
        (_, Ty::Ptr(p)) => lemma_unify_var_over(lo, st, p, r1, r1, r2),
        _ => if r1.is_concrete() && r2.is_concrete() {
            lemma_sub_concrete_over(lo, n, st, r1, r2);
        },
    }
}

/// Unifying a free variable with a type over a closed table keeps it closed.
proof fn lemma_unify_var_over(lo: nat, st: St, p: usize, ty: Ty, left: Ty, right: Ty)
    requires
        is_closed(st.table, lo),
        lo <= p,
        st.table.contains_key(p),
        st.table[p] is None,
        is_over(ty, st.table, lo),
        ty matches Ty::Ptr(q) ==> q != p && st.table.contains_key(q) && st.table[q] is None,
    ensures
        is_closed(unify_var(st, p, ty, left, right).0.table, lo),
{
    let new = st.table.insert(p, Some(ty));
    assert(new.dom() =~= st.table.dom());
    lemma_new_binding(st.table, p, ty);
    lemma_after_refl(new);
    lemma_mid(st.table, new, new);
    lemma_binding_closed(lo, st.table, p, ty);
}

/// The same, for two concrete types.
proof fn lemma_sub_concrete_over(lo: nat, n: nat, st: St, t1: Ty, t2: Ty)
    requires
        run_sub_concrete(n, st, t1, t2) is Some,
        is_closed(st.table, lo),
        is_over(t1, st.table, lo),
        is_over(t2, st.table, lo),
        fits((run_sub_concrete(n, st, t1, t2)->0).0.table),
    ensures
        is_closed((run_sub_concrete(n, st, t1, t2)->0).0.table, lo),
    decreases n, 1nat,
{
    let m = (n - 1) as nat;
    match (t1, t2) {
        (_, Ty::Dyn) => {},
        (Ty::List(a), Ty::List(b)) => law_sub_over(lo, m, st, *a, *b),
        (Ty::Arrow(s1, r1), Ty::Arrow(s2, r2)) => {
            let (mid, res) = run_sub(m, st, *s2, *s1)->0;
            law_sub_table(m, st, *s2, *s1);
            if res is Ok {
                let st2 = (run_sub(m, mid, *r1, *r2)->0).0;
                law_sub_table(m, mid, *r1, *r2);
                lemma_mid(st.table, mid.table, st2.table);
                law_sub_over(lo, m, st, *s2, *s1);
                lemma_over_after(lo, *r1, st.table, mid.table);
                lemma_over_after(lo, *r2, st.table, mid.table);
                law_sub_over(lo, m, mid, *r1, *r2);
            } else {
                law_sub_over(lo, m, st, *s2, *s1);
            }
        },
        (Ty::Flat(s), Ty::Flat(t)) => {},
        (Ty::Enum(a), Ty::Enum(b)) => lemma_sub_row_types_over(lo, n, st, *a, *b, t1, t2),
        (Ty::StaticRecord(a), Ty::StaticRecord(b)) => {
            lemma_sub_row_types_over(lo, n, st, *a, *b, t1, t2)
        },
        (Ty::DynRecord(a), Ty::DynRecord(b)) => law_sub_over(lo, m, st, *a, *b),
        (Ty::StaticRecord(a), Ty::DynRecord(b)) => lemma_sub_dyn_record_over(lo, m, st, *a, *b),
        (Ty::Forall(i1, a), Ty::Forall(i2, b)) => {
            let c = Ty::Constant(next_var(st.table));
            let mid = with_var(st);
            let (s, t) = (subst(*a, i1, c), subst(*b, i2, c));
            let st2 = (run_sub(m, mid, s, t)->0).0;
            lemma_new_var(st.table);
            law_sub_table(m, mid, s, t);
            lemma_mid(st.table, mid.table, st2.table);
            lemma_var_closed(lo, st.table);
            lemma_over_after(lo, *a, st.table, mid.table);
            lemma_over_after(lo, *b, st.table, mid.table);
            lemma_scoped_subst(lo, *a, i1, c, mid.table.dom().len());
            lemma_scoped_subst(lo, *b, i2, c, mid.table.dom().len());
            law_sub_over(lo, m, mid, s, t);
        },
        _ => if t1.is_row() && t2.is_row() {
            lemma_sub_rows_over(lo, m, st, t1, t2);
        },
    }
}

/// The same, for the rows of two enum or record types.
proof fn lemma_sub_row_types_over(lo: nat, n: nat, st: St, a: Ty, b: Ty, t1: Ty, t2: Ty)
    requires
        run_sub_row_types(n, st, a, b, t1, t2) is Some,
        is_closed(st.table, lo),
        is_over(a, st.table, lo),
        is_over(b, st.table, lo),
        fits((run_sub_row_types(n, st, a, b, t1, t2)->0).0.table),
    ensures
        is_closed((run_sub_row_types(n, st, a, b, t1, t2)->0).0.table, lo),
    decreases n, 0nat,
{
    let m = (n - 1) as nat;
    if a.is_row() && b.is_row() {
        lemma_sub_rows_over(lo, m, st, a, b);
    } else if a.is_concrete() && !a.is_row() {
    } else if b.is_concrete() && !b.is_row() {
    } else {
        law_sub_over(lo, m, st, a, b);
    }
}

/// The same, for two rows.
proof fn lemma_sub_rows_over(lo: nat, n: nat, st: St, t1: Ty, t2: Ty)
    requires
        run_sub_rows(n, st, t1, t2) is Some,
        is_closed(st.table, lo),
        is_over(t1, st.table, lo),
        is_over(t2, st.table, lo),
        fits((run_sub_rows(n, st, t1, t2)->0).0.table),
    ensures
        is_closed((run_sub_rows(n, st, t1, t2)->0).0.table, lo),
    decreases n, 1nat,
{
    broadcast use lemma_after_trans;

    let m = (n - 1) as nat;
    let st2 = (run_sub_rows(n, st, t1, t2)->0).0;
    if let (Ty::RowExtend(id, ty, tail), Ty::RowExtend(_, _, _)) = (t1, t2) {
        let (mid, out) = run_row_add(m, st, id, unbox(ty), t2)->0;
        law_row_add_table(m, st, id, unbox(ty), t2);
        lemma_after_refl(mid.table);
        if let Ok((ty2, rest)) = out {
            match (unbox(ty), ty2) {
                (Some(a), Some(b)) => {
                    let (mid2, res) = run_sub(m, mid, a, b)->0;
                    law_sub_table(m, mid, a, b);
                    if res is Ok {
                        lemma_sub_tails_table(n, mid2, *tail, rest);
                    } else {
                        lemma_after_refl(mid2.table);
                    }
                    lemma_mid(st.table, mid.table, st2.table);
                    law_row_add_over(lo, m, st, id, unbox(ty), t2);
                    lemma_mid(mid.table, mid2.table, st2.table);
                    lemma_over_after(lo, a, st.table, mid.table);
                    law_sub_over(lo, m, mid, a, b);
                    if res is Ok {
                        lemma_over_after(lo, *tail, st.table, mid2.table);
                        lemma_over_after(lo, rest, mid.table, mid2.table);
                        lemma_sub_tails_over(lo, n, mid2, *tail, rest);
                    }
                },
                (None, None) => {
                    lemma_sub_tails_table(n, mid, *tail, rest);
                    lemma_mid(st.table, mid.table, st2.table);
                    law_row_add_over(lo, m, st, id, unbox(ty), t2);
                    lemma_over_after(lo, *tail, st.table, mid.table);
                    lemma_sub_tails_over(lo, n, mid, *tail, rest);
                },
                _ => law_row_add_over(lo, m, st, id, unbox(ty), t2),
            }
        } else {
            law_row_add_over(lo, m, st, id, unbox(ty), t2);
        }
    }
}

/// The same, for the tails of two rows.
proof fn lemma_sub_tails_over(lo: nat, n: nat, st: St, t1: Ty, t2: Ty)
    requires
        run_sub_tails(n, st, t1, t2) is Some,
        is_closed(st.table, lo),
        is_over(t1, st.table, lo),
        is_over(t2, st.table, lo),
        fits((run_sub_tails(n, st, t1, t2)->0).0.table),
    ensures
        is_closed((run_sub_tails(n, st, t1, t2)->0).0.table, lo),
    decreases n, 0nat,
{
    let m = (n - 1) as nat;
    if t1.is_concrete() && t2.is_concrete() {
        lemma_sub_rows_over(lo, m, st, t1, t2);
    } else {
        law_sub_over(lo, m, st, t1, t2);
    }
}

/// The same, for a row and a dictionary type.
proof fn lemma_sub_dyn_record_over(lo: nat, n: nat, st: St, row: Ty, ty: Ty)
    requires
        run_sub_dyn_record(n, st, row, ty) is Some,
        is_closed(st.table, lo),
        is_over(row, st.table, lo),
        is_over(ty, st.table, lo),
        fits((run_sub_dyn_record(n, st, row, ty)->0).0.table),
    ensures
        is_closed((run_sub_dyn_record(n, st, row, ty)->0).0.table, lo),
    decreases n, 0nat,
{
    let m = (n - 1) as nat;
    match row {
        Ty::Dyn => law_sub_over(lo, m, st, Ty::Dyn, ty),
        Ty::RowExtend(id, Some(a), tail) => {
            let (mid, res) = run_sub(m, st, *a, ty)->0;
            law_sub_table(m, st, *a, ty);
            if res is Ok {
                let st2 = (run_sub_dyn_record(m, mid, *tail, ty)->0).0;
                law_sub_dyn_record_table(m, mid, *tail, ty);
                lemma_mid(st.table, mid.table, st2.table);
                law_sub_over(lo, m, st, *a, ty);
                lemma_over_after(lo, *tail, st.table, mid.table);
                lemma_over_after(lo, ty, st.table, mid.table);
                lemma_sub_dyn_record_over(lo, m, mid, *tail, ty);
            } else {
                law_sub_over(lo, m, st, *a, ty);
            }
        },
        _ => {},
    }
}

/// Instantiating a type over a closed table keeps it closed, and gives a type over it.
pub proof fn law_instantiate_over(lo: nat, n: nat, st: St, ty: Ty, inst: ForallInst)
    requires
        run_instantiate(n, st, ty, inst) is Some,
        is_closed(st.table, lo),
        is_over(ty, st.table, lo),
        fits((run_instantiate(n, st, ty, inst)->0).0.table),
    ensures
        ({
            let (st2, ty2) = run_instantiate(n, st, ty, inst)->0;
            is_closed(st2.table, lo) && is_over(ty2, st2.table, lo)
        }),
{
    let m = (n - 1) as nat;
    lemma_resolve_over(lo, m, st.table, ty);
    lemma_instantiate_heads_over(lo, m, st, run_resolve(m, st.table, ty)->0, inst);
}

/// The same, for the quantifiers in head position of a type.
proof fn lemma_instantiate_heads_over(lo: nat, n: nat, st: St, ty: Ty, inst: ForallInst)
    requires
        run_instantiate_heads(n, st, ty, inst) is Some,
        is_closed(st.table, lo),
        is_over(ty, st.table, lo),
        fits((run_instantiate_heads(n, st, ty, inst)->0).0.table),
    ensures
        ({
            let (st2, ty2) = run_instantiate_heads(n, st, ty, inst)->0;
            is_closed(st2.table, lo) && is_over(ty2, st2.table, lo)
        }),
    decreases head_foralls(ty),
{
    if let Ty::Forall(id, body) = ty {
        let fresh_id = next_var(st.table);
        let st2 = (run_instantiate_heads(n, st, ty, inst)->0).0;
        lemma_subst_head_foralls(*body, id, instance(inst, fresh_id));
        let ty1 = subst(*body, id, instance(inst, fresh_id));
        lemma_new_var(st.table);
        let mid = St { names: st.names.insert(fresh_id, id), ..with_var(st) };
        let mid2 = match inst {
            ForallInst::Constant => mid,
            ForallInst::Ptr => run_constrain_var(n, mid, Set::empty(), ty1, fresh_id)->0,
        };
        if inst == ForallInst::Ptr {
            law_constrain_var_table(n, mid, Set::empty(), ty1, fresh_id);
        }
        lemma_instantiate_heads_table(n, mid2, ty1, inst);
        lemma_mid(st.table, mid.table, st2.table);
        lemma_var_closed(lo, st.table);
        lemma_over_after(lo, *body, st.table, mid.table);
        lemma_scoped_subst(lo, *body, id, instance(inst, fresh_id), mid.table.dom().len());
        lemma_instantiate_heads_over(lo, n, mid2, ty1, inst);
    }
}

/// Unifying in strict mode types over a closed table keeps it closed.
proof fn lemma_expect_over(lo: nat, n: nat, st: St, strict: bool, t1: Ty, t2: Ty, pos: TermPos)
    requires
        run_expect(n, st, strict, t1, t2, pos) is Some,
        is_closed(st.table, lo),
        is_over(t1, st.table, lo),
        goal_over(strict, t2, st.table, lo),
        fits((run_expect(n, st, strict, t1, t2, pos)->0).0.table),
    ensures
        is_closed((run_expect(n, st, strict, t1, t2, pos)->0).0.table, lo),
{
    reveal(run_expect);
    if strict {
        law_sub_over(lo, n, st, t1, t2);
    }
}

/// The type of a unary operator at types over some variables is over them.
proof fn lemma_uop_sig_scoped(lo: nat, op: UnaryOp, a: Ty, b: Ty, n: nat)
    requires
        is_typed_uop(op),
        is_scoped(a, lo, n),
        is_scoped(b, lo, n),
    ensures
        is_scoped(uop_sig(op, a, b).0, lo, n),
        is_scoped(uop_sig(op, a, b).1, lo, n),
{
    reveal_with_fuel(is_scoped, 5);
}

/// The type of a binary operator at types over some variables is over them.
proof fn lemma_bop_sig_scoped(lo: nat, op: BinaryOp, a: Ty, b: Ty, n: nat)
    requires
        is_typed_bop(op),
        is_scoped(a, lo, n),
        is_scoped(b, lo, n),
    ensures
        is_scoped(bop_sig(op, a, b).0, lo, n),
        is_scoped(bop_sig(op, a, b).1, lo, n),
        is_scoped(bop_sig(op, a, b).2, lo, n),
{
    reveal_with_fuel(is_scoped, 6);
}

/// The new variables of a unary operator keep the table closed, and its type is over them.
proof fn lemma_uop_over(lo: nat, st: St, op: UnaryOp)
    requires
        is_typed_uop(op),
        is_closed(st.table, lo),
        fits(uop_type(st, op).0.table),
    ensures
        ({
            let (st2, arg, res) = uop_type(st, op);
            is_closed(st2.table, lo) && is_over(arg, st2.table, lo) && is_over(res, st2.table, lo)
        }),
{
    let st1 = with_var(st);
    let (a, b) = (Ty::Ptr(next_var(st.table)), Ty::Ptr(next_var(st1.table)));
    if uop_vars(op) == 0 {
        lemma_uop_sig_scoped(lo, op, Ty::Dyn, Ty::Dyn, st.table.dom().len());
        assert(uop_sig(op, a, b) == uop_sig(op, Ty::Dyn, Ty::Dyn));
    } else if uop_vars(op) == 1 {
        lemma_var_closed(lo, st.table);
        lemma_uop_sig_scoped(lo, op, a, Ty::Dyn, st1.table.dom().len());
        assert(uop_sig(op, a, b) == uop_sig(op, a, Ty::Dyn));
    } else {
        let st2 = with_var(st1);
        lemma_new_var(st.table);
        lemma_new_var(st1.table);
        lemma_mid(st.table, st1.table, st2.table);
        lemma_var_closed(lo, st.table);
        lemma_var_closed(lo, st1.table);
        lemma_over_after(lo, a, st1.table, st2.table);
        lemma_uop_sig_scoped(lo, op, a, b, st2.table.dom().len());
    }
}

/// The new variables of a binary operator keep the table closed, and its type is over them.
proof fn lemma_bop_over(lo: nat, st: St, op: BinaryOp)
    requires
        is_typed_bop(op),
        is_closed(st.table, lo),
        fits(bop_type(st, op).0.table),
    ensures
        ({
            let (st2, arg1, arg2, res) = bop_type(st, op);
            &&& is_closed(st2.table, lo)
            &&& is_over(arg1, st2.table, lo)
            &&& is_over(arg2, st2.table, lo)
            &&& is_over(res, st2.table, lo)
        }),
{
    let st1 = with_var(st);
    let (a, b) = (Ty::Ptr(next_var(st.table)), Ty::Ptr(next_var(st1.table)));
    if bop_vars(op) == 0 {
        lemma_bop_sig_scoped(lo, op, Ty::Dyn, Ty::Dyn, st.table.dom().len());
        assert(bop_sig(op, a, b) == bop_sig(op, Ty::Dyn, Ty::Dyn));
    } else if bop_vars(op) == 1 {
        lemma_var_closed(lo, st.table);
        lemma_bop_sig_scoped(lo, op, a, Ty::Dyn, st1.table.dom().len());
        assert(bop_sig(op, a, b) == bop_sig(op, a, Ty::Dyn));
    } else {
        let st2 = with_var(st1);
        lemma_new_var(st.table);
        lemma_new_var(st1.table);
        lemma_mid(st.table, st1.table, st2.table);
        lemma_var_closed(lo, st.table);
        lemma_var_closed(lo, st1.table);
        lemma_over_after(lo, a, st1.table, st2.table);
        lemma_bop_sig_scoped(lo, op, a, b, st2.table.dom().len());
    }
}

/// The type of an n-ary operator has no variables.
proof fn lemma_nop_over(lo: nat, op: NAryOp, n: nat)
    requires
        is_typed_nop(op),
    ensures
        is_scoped(nop_type(op).1, lo, n),
        forall|i: int|
            0 <= i < nop_type(op).0.len() ==> is_scoped(#[trigger] nop_type(op).0[i], lo, n),
{
}

/// The apparent type of a term is over a table if the types in scope are.
proof fn lemma_apparent_over(lo: nat, rt: RichTerm, scope: Scope, table: Table)
    requires
        scope_over(scope, table, lo),
    ensures
        is_over(apparent_ty(apparent(*rt.term, Some(scope))), table, lo),
    decreases rt,
{
    reveal_with_fuel(is_scoped, 2);
    match *rt.term {
        Term::Promise(ty, _, _) => lemma_annotation_over(lo, ty, table),
        Term::MetaValue(meta) => match meta.types {
            Some(ctr) => lemma_annotation_over(lo, ctr.types, table),
            None => if meta.contracts@.len() > 0 {
                lemma_annotation_over(lo, meta.contracts@[0].types, table);
            } else {
                if let Some(v) = meta.value {
                    lemma_apparent_over(lo, v, scope, table);
                }
            },
        },
        _ => {},
    }
}

/// The type of a binding is over the resulting table, which is closed.
proof fn lemma_bound_ty_over(lo: nat, table: Table, scope: Scope, rt: RichTerm, strict: bool)
    requires
        is_closed(table, lo),
        scope_over(scope, table, lo),
        fits(bound_ty(table, scope, rt, strict).0),
    ensures
        ({
            let (table2, ty) = bound_ty(table, scope, rt, strict);
            is_closed(table2, lo) && is_over(ty, table2, lo)
        }),
{
    lemma_apparent_over(lo, rt, scope, table);
    if bound_ty(table, scope, rt, strict).0 == table.insert(next_var(table), None) {
        lemma_var_closed(lo, table);
    }
}

/// A local binding to a type over a table keeps the types in scope over it.
proof fn lemma_local_over(lo: nat, scope: Scope, id: Name, ty: Ty, table: Table)
    requires
        scope_over(scope, table, lo),
        is_over(ty, table, lo),
    ensures
        scope_over(with_local(scope, id, ty), table, lo),
{
    let inner = with_local(scope, id, ty);
    assert forall|x: Name| #[trigger] in_scope(inner, x) is Some implies is_over(
        in_scope(inner, x)->0,
        table,
        lo,
    ) by {
        if x != id {
            assert(in_scope(inner, x) == in_scope(scope, x));
        }
    }
}

/// The types that the fields of a recursive record are bound to are over the resulting table, which
/// is closed.
proof fn lemma_bind_fields_over(
    lo: nat,
    table: Table,
    scope: Scope,
    strict: bool,
    fields: Seq<(Ident, RichTerm)>,
    i: int,
)
    requires
        is_closed(table, lo),
        scope_over(scope, table, lo),
        fits(bind_fields(table, scope, strict, fields, i).0),
    ensures
        ({
            let (table2, scope2) = bind_fields(table, scope, strict, fields, i);
            is_closed(table2, lo) && scope_over(scope2, table2, lo)
        }),
    decreases fields.len() - i,
{
    if 0 <= i < fields.len() {
        let (id, t) = fields[i];
        let (mid, ty) = bound_ty(table, scope, t, strict);
        let inner = with_local(scope, id@, ty);
        let last = bind_fields(mid, inner, strict, fields, i + 1).0;
        lemma_bound_ty_table(table, scope, t, strict);
        lemma_bind_fields_table(mid, inner, strict, fields, i + 1);
        lemma_mid(table, mid, last);
        lemma_bound_ty_over(lo, table, scope, t, strict);
        lemma_scope_after(lo, scope, table, mid);
        lemma_local_over(lo, scope, id@, ty, mid);
        lemma_bind_fields_over(lo, mid, inner, strict, fields, i + 1);
    }
}

/// Typechecking the terms of a sequence keeps the table closed.
proof fn lemma_seq_over(
    lo: nat,
    n: nat,
    st: St,
    scope: Scope,
    strict: bool,
    todo: Seq<(RichTerm, Ty)>,
    i: int,
)
    requires
        run_check_seq(n, st, scope, strict, todo, i) is Some,
        is_closed(st.table, lo),
        scope_over(scope, st.table, lo),
        forall|j: int|
            0 <= j < todo.len() ==> goal_over(strict, (#[trigger] todo[j]).1, st.table, lo),
        fits((run_check_seq(n, st, scope, strict, todo, i)->0).0.table),
    ensures
        is_closed((run_check_seq(n, st, scope, strict, todo, i)->0).0.table, lo),
    decreases n, 1nat, todo.len() - i,
{
    if 0 <= i < todo.len() {
        let (t, ty) = todo[i];
        let st2 = (run_check_seq(n, st, scope, strict, todo, i)->0).0;
        let (mid, res) = run_check(n, st, scope, strict, t, ty)->0;
        law_check_table(n, st, scope, strict, t, ty);
        if res is Ok {
            lemma_check_seq_table(n, mid, scope, strict, todo, i + 1);
            lemma_mid(st.table, mid.table, st2.table);
            law_check_over(lo, n, st, scope, strict, t, ty);
            lemma_scope_after(lo, scope, st.table, mid.table);
            assert forall|j: int| 0 <= j < todo.len() implies goal_over(
                strict,
                (#[trigger] todo[j]).1,
                mid.table,
                lo,
            ) by {
                lemma_goal_after(lo, strict, todo[j].1, st.table, mid.table);
            }
            lemma_seq_over(lo, n, mid, scope, strict, todo, i + 1);
        } else {
            law_check_over(lo, n, st, scope, strict, t, ty);
        }
    }
}

/// Typechecking the fields of a record keeps the table closed, and gives a row over it.
proof fn lemma_fields_over(
    lo: nat,
    n: nat,
    st: St,
    scope: Scope,
    strict: bool,
    rec: bool,
    fields: Seq<(Ident, RichTerm)>,
    i: int,
    row: Ty,
)
    requires
        run_check_fields(n, st, scope, strict, rec, fields, i, row) is Some,
        is_closed(st.table, lo),
        scope_over(scope, st.table, lo),
        is_over(row, st.table, lo),
        fits((run_check_fields(n, st, scope, strict, rec, fields, i, row)->0).0.table),
    ensures
        ({
            let (st2, res) = run_check_fields(n, st, scope, strict, rec, fields, i, row)->0;
            &&& is_closed(st2.table, lo)
            &&& res matches Ok(row2) ==> is_over(row2, st2.table, lo)
        }),
    decreases n, 1nat, fields.len() - i,
{
    broadcast use lemma_after_trans;

    if 0 <= i < fields.len() {
        let st2 = (run_check_fields(n, st, scope, strict, rec, fields, i, row)->0).0;
        let (id, t) = fields[i];
        let ty = if rec {
            in_scope(scope, id@)->0
        } else {
            Ty::Ptr(next_var(st.table))
        };
        let st1 = if rec {
            st
        } else {
            with_var(st)
        };
        lemma_after_refl(st.table);
        lemma_new_var(st.table);
        let (mid, res) = run_check(n, st1, scope, strict, t, ty)->0;
        let row1 = row_extend(id@, Some(ty), row);
        law_check_table(n, st1, scope, strict, t, ty);
        lemma_after_refl(mid.table);
        if res is Ok {
            lemma_check_fields_table(n, mid, scope, strict, rec, fields, i + 1, row1);
        }
        lemma_mid(st.table, st1.table, st2.table);
        if !rec {
            lemma_var_closed(lo, st.table);
        }
        lemma_scope_after(lo, scope, st.table, st1.table);
        lemma_mid(st1.table, mid.table, st2.table);
        law_check_over(lo, n, st1, scope, strict, t, ty);
        if res is Ok {
            lemma_scope_after(lo, scope, st.table, mid.table);
            lemma_over_after(lo, ty, st1.table, mid.table);
            lemma_over_after(lo, row, st.table, mid.table);
            lemma_fields_over(lo, n, mid, scope, strict, rec, fields, i + 1, row1);
        }
    }
}

/// Typechecking a record keeps the table closed.
proof fn lemma_record_over(
    lo: nat,
    n: nat,
    st: St,
    scope: Scope,
    strict: bool,
    rec: bool,
    fields: Seq<(Ident, RichTerm)>,
    ty: Ty,
    pos: TermPos,
)
    requires
        run_check_record(n, st, scope, strict, rec, fields, ty, pos) is Some,
        is_closed(st.table, lo),
        scope_over(scope, st.table, lo),
        goal_over(strict, ty, st.table, lo),
        fits((run_check_record(n, st, scope, strict, rec, fields, ty, pos)->0).0.table),
    ensures
        is_closed((run_check_record(n, st, scope, strict, rec, fields, ty, pos)->0).0.table, lo),
    decreases n, 2nat, 0int,
{
    let st2 = (run_check_record(n, st, scope, strict, rec, fields, ty, pos)->0).0;
    if strict {
        lemma_resolve_over(lo, n, st.table, ty);
    }
    match run_resolve(n, st.table, ty) {
        None => {},
        Some(Ty::DynRecord(elt)) => {
            lemma_seq_over(lo, n, st, scope, strict, fields_against(fields, *elt), 0);
        },
        Some(_) => {
            let row = Ty::RowEmpty;
            let (mid, res) = run_check_fields(n, st, scope, strict, rec, fields, 0, row)->0;
            lemma_check_fields_table(n, st, scope, strict, rec, fields, 0, row);
            if let Ok(row2) = res {
                lemma_expect_table(n, mid, strict, record_of(row2), ty, pos);
                lemma_mid(st.table, mid.table, st2.table);
                lemma_fields_over(lo, n, st, scope, strict, rec, fields, 0, row);
                lemma_goal_after(lo, strict, ty, st.table, mid.table);
                lemma_expect_over(lo, n, mid, strict, record_of(row2), ty, pos);
            } else {
                lemma_fields_over(lo, n, st, scope, strict, rec, fields, 0, row);
            }
        },
    }
}

/// The row of the cases of a switch has no variables.
proof fn lemma_cases_row_scoped(lo: nat, cases: Seq<(Ident, RichTerm)>, n: nat)
    ensures
        is_scoped(cases_row(cases), lo, n),
    decreases cases.len(),
{
    if cases.len() > 0 {
        lemma_cases_row_scoped(lo, cases.drop_last(), n);
    }
}

/// Typechecking a switch keeps the table closed.
proof fn lemma_switch_over(
    lo: nat,
    n: nat,
    st: St,
    scope: Scope,
    strict: bool,
    exp: RichTerm,
    cases: Seq<(Ident, RichTerm)>,
    default: Option<RichTerm>,
    ty: Ty,
    pos: TermPos,
)
    requires
        run_check_switch(n, st, scope, strict, exp, cases, default, ty, pos) is Some,
        is_closed(st.table, lo),
        scope_over(scope, st.table, lo),
        goal_over(strict, ty, st.table, lo),
        fits((run_check_switch(n, st, scope, strict, exp, cases, default, ty, pos)->0).0.table),
    ensures
        is_closed(
            (run_check_switch(n, st, scope, strict, exp, cases, default, ty, pos)->0).0.table,
            lo,
        ),
    decreases n, 2nat, 0int,
{
    broadcast use lemma_after_trans;

    let st2 = (run_check_switch(n, st, scope, strict, exp, cases, default, ty, pos)->0).0;
    let p = next_var(st.table);
    let res = Ty::Ptr(p);
    let todo = fields_against(cases, res);
    let st1 = with_var(st);
    let (mid, out) = run_check_seq(n, st1, scope, strict, todo, 0)->0;
    lemma_new_var(st.table);
    lemma_check_seq_table(n, st1, scope, strict, todo, 0);
    if out is Ok {
        match default {
            Some(t) => {
                let (mid2, out2) = run_check(n, mid, scope, strict, t, res)->0;
                law_check_table(n, mid, scope, strict, t, res);
                if out2 is Ok {
                    let row = Ty::Ptr(next_var(mid2.table));
                    let mid3 = with_var(mid2);
                    lemma_new_var(mid2.table);
                    lemma_check_switched_table(n, mid3, scope, strict, exp, row, res, ty, pos);
                    lemma_mid(st.table, st1.table, st2.table);
                    lemma_mid(st1.table, mid.table, st2.table);
                    lemma_mid(mid.table, mid2.table, st2.table);
                    lemma_mid(mid2.table, mid3.table, st2.table);
                    lemma_cases_over(lo, n, st, scope, strict, todo, res);
                    lemma_scope_after(lo, scope, st.table, mid.table);
                    lemma_over_after(lo, res, st1.table, mid.table);
                    law_check_over(lo, n, mid, scope, strict, t, res);
                    lemma_var_closed(lo, mid2.table);
                    lemma_over_after(lo, res, mid.table, mid3.table);
                    lemma_goal_after(lo, strict, ty, st.table, mid3.table);
                    lemma_scope_after(lo, scope, st.table, mid3.table);
                    lemma_switched_over(lo, n, mid3, scope, strict, exp, row, res, ty, pos);
                } else {
                    lemma_mid(st.table, st1.table, st2.table);
                    lemma_mid(st1.table, mid.table, st2.table);
                    lemma_cases_over(lo, n, st, scope, strict, todo, res);
                    lemma_scope_after(lo, scope, st.table, mid.table);
                    lemma_over_after(lo, res, st1.table, mid.table);
                    law_check_over(lo, n, mid, scope, strict, t, res);
                }
            },
            None => {
                let row = cases_row(cases);
                lemma_check_switched_table(n, mid, scope, strict, exp, row, res, ty, pos);
                lemma_mid(st.table, st1.table, st2.table);
                lemma_mid(st1.table, mid.table, st2.table);
                lemma_cases_over(lo, n, st, scope, strict, todo, res);
                lemma_scope_after(lo, scope, st.table, mid.table);
                lemma_over_after(lo, res, st1.table, mid.table);
                lemma_goal_after(lo, strict, ty, st.table, mid.table);
                lemma_cases_row_scoped(lo, cases, mid.table.dom().len());
                lemma_switched_over(lo, n, mid, scope, strict, exp, row, res, ty, pos);
            },
        }
    } else {
        lemma_after_refl(mid.table);
        lemma_mid(st.table, st1.table, st2.table);
        lemma_cases_over(lo, n, st, scope, strict, todo, res);
    }
}

/// Typechecking the cases of a switch against a new variable keeps the table closed.
proof fn lemma_cases_over(
    lo: nat,
    n: nat,
    st: St,
    scope: Scope,
    strict: bool,
    todo: Seq<(RichTerm, Ty)>,
    res: Ty,
)
    requires
        res == Ty::Ptr(next_var(st.table)),
        run_check_seq(n, with_var(st), scope, strict, todo, 0) is Some,
        is_closed(st.table, lo),
        scope_over(scope, st.table, lo),
        forall|j: int| 0 <= j < todo.len() ==> (#[trigger] todo[j]).1 == res,
        fits((run_check_seq(n, with_var(st), scope, strict, todo, 0)->0).0.table),
    ensures
        is_closed((run_check_seq(n, with_var(st), scope, strict, todo, 0)->0).0.table, lo),
        is_over(res, with_var(st).table, lo),
    decreases n, 1nat, todo.len() + 1,
{
    let st1 = with_var(st);
    let mid = (run_check_seq(n, st1, scope, strict, todo, 0)->0).0;
    lemma_new_var(st.table);
    lemma_check_seq_table(n, st1, scope, strict, todo, 0);
    lemma_mid(st.table, st1.table, mid.table);
    lemma_var_closed(lo, st.table);
    lemma_scope_after(lo, scope, st.table, st1.table);
    lemma_seq_over(lo, n, st1, scope, strict, todo, 0);
}

/// Typechecking the expression of a switch keeps the table closed.
proof fn lemma_switched_over(
    lo: nat,
    n: nat,
    st: St,
    scope: Scope,
    strict: bool,
    exp: RichTerm,
    row: Ty,
    res: Ty,
    ty: Ty,
    pos: TermPos,
)
    requires
        run_check_switched(n, st, scope, strict, exp, row, res, ty, pos) is Some,
        is_closed(st.table, lo),
        scope_over(scope, st.table, lo),
        is_over(row, st.table, lo),
        is_over(res, st.table, lo),
        goal_over(strict, ty, st.table, lo),
        fits((run_check_switched(n, st, scope, strict, exp, row, res, ty, pos)->0).0.table),
    ensures
        is_closed(
            (run_check_switched(n, st, scope, strict, exp, row, res, ty, pos)->0).0.table,
            lo,
        ),
    decreases n, 1nat, 0int,
{
    let st2 = (run_check_switched(n, st, scope, strict, exp, row, res, ty, pos)->0).0;
    let (mid, out) = run_expect(n, st, strict, res, ty, pos)->0;
    lemma_expect_table(n, st, strict, res, ty, pos);
    if out is Ok {
        law_check_table(n, mid, scope, strict, exp, enum_of(row));
        lemma_mid(st.table, mid.table, st2.table);
        lemma_expect_over(lo, n, st, strict, res, ty, pos);
        lemma_scope_after(lo, scope, st.table, mid.table);
        lemma_over_after(lo, row, st.table, mid.table);
        law_check_over(lo, n, mid, scope, strict, exp, enum_of(row));
    } else {
        lemma_expect_over(lo, n, st, strict, res, ty, pos);
    }
}

/// Typechecking a term with a type annotation keeps the table closed.
proof fn lemma_promise_over(
    lo: nat,
    n: nat,
    st: St,
    scope: Scope,
    strict: bool,
    ty2: Ty,
    t: RichTerm,
    ty: Ty,
    pos: TermPos,
)
    requires
        run_check_promise(n, st, scope, strict, ty2, t, ty, pos) is Some,
        is_closed(st.table, lo),
        scope_over(scope, st.table, lo),
        is_over(ty2, st.table, lo),
        goal_over(strict, ty, st.table, lo),
        fits((run_check_promise(n, st, scope, strict, ty2, t, ty, pos)->0).0.table),
    ensures
        is_closed((run_check_promise(n, st, scope, strict, ty2, t, ty, pos)->0).0.table, lo),
    decreases n, 1nat, 0int,
{
    broadcast use lemma_after_trans;

    let st2 = (run_check_promise(n, st, scope, strict, ty2, t, ty, pos)->0).0;
    let (mid, inst) = run_instantiate(n, st, ty2, ForallInst::Constant)->0;
    let (mid2, out) = run_expect(n, mid, strict, ty2, ty, pos)->0;
    law_instantiate_table(n, st, ty2, ForallInst::Constant);
    lemma_expect_table(n, mid, strict, ty2, ty, pos);
    lemma_after_refl(mid2.table);
    if out is Ok {
        law_check_table(n, mid2, scope, true, t, inst);
    }
    lemma_mid(st.table, mid.table, st2.table);
    law_instantiate_over(lo, n, st, ty2, ForallInst::Constant);
    lemma_over_after(lo, ty2, st.table, mid.table);
    lemma_goal_after(lo, strict, ty, st.table, mid.table);
    lemma_mid(mid.table, mid2.table, st2.table);
    lemma_expect_over(lo, n, mid, strict, ty2, ty, pos);
    if out is Ok {
        lemma_scope_after(lo, scope, st.table, mid2.table);
        lemma_over_after(lo, inst, mid.table, mid2.table);
        law_check_over(lo, n, mid2, scope, true, t, inst);
    }
}

/// Typechecking a metavalue keeps the table closed.
proof fn lemma_meta_over(
    lo: nat,
    n: nat,
    st: St,
    scope: Scope,
    strict: bool,
    meta: MetaValue,
    ty: Ty,
    pos: TermPos,
)
    requires
        run_check_meta(n, st, scope, strict, meta, ty, pos) is Some,
        is_closed(st.table, lo),
        scope_over(scope, st.table, lo),
        goal_over(strict, ty, st.table, lo),
        fits((run_check_meta(n, st, scope, strict, meta, ty, pos)->0).0.table),
    ensures
        is_closed((run_check_meta(n, st, scope, strict, meta, ty, pos)->0).0.table, lo),
    decreases n, 2nat, 0int,
{
    match (meta.types, meta.value) {
        (Some(ctr), Some(t)) => {
            lemma_annotation_over(lo, ctr.types, st.table);
            lemma_promise_over(lo, n, st, scope, strict, ctr.types@, t, ty, pos);
        },
        (_, value) => if meta.contracts@.len() > 0 {
            let ty2 = meta.contracts@[0].types@;
            let st2 = (run_check_meta(n, st, scope, strict, meta, ty, pos)->0).0;
            let (mid, out) = run_expect(n, st, strict, ty2, ty, pos)->0;
            lemma_annotation_over(lo, meta.contracts@[0].types, st.table);
            lemma_expect_table(n, st, strict, ty2, ty, pos);
            if out is Ok && value is Some {
                let t = value->0;
                law_check_table(n, mid, scope, false, t, Ty::Dyn);
                lemma_mid(st.table, mid.table, st2.table);
                lemma_expect_over(lo, n, st, strict, ty2, ty, pos);
                lemma_scope_after(lo, scope, st.table, mid.table);
                law_check_over(lo, n, mid, scope, false, t, Ty::Dyn);
            } else {
                lemma_expect_over(lo, n, st, strict, ty2, ty, pos);
            }
        } else {
            match value {
                Some(t) => law_check_over(lo, n, st, scope, strict, t, ty),
                None => lemma_expect_over(lo, n, st, strict, Ty::Dyn, ty, pos),
            }
        },
    }
}

/// The interpolated expressions of a string are checked against a type without variables.
proof fn lemma_chunks_over(lo: nat, chunks: Seq<StrChunk>, table: Table)
    ensures
        forall|j: int|
            0 <= j < chunks_against(chunks).len() ==> is_over(
                (#[trigger] chunks_against(chunks)[j]).1,
                table,
                lo,
            ),
    decreases chunks.len(),
{
    if chunks.len() > 0 {
        lemma_chunks_over(lo, chunks.drop_last(), table);
        let todo = chunks_against(chunks);
        let init = chunks_against(chunks.drop_last());
        assert forall|j: int| 0 <= j < todo.len() implies is_over(
            (#[trigger] todo[j]).1,
            table,
            lo,
        ) by {
            if j < init.len() {
                assert(todo[j] == init[j]);
            }
        }
    }
}

/// Unifying a type with another one, and then typechecking a sequence of terms, keeps the table
/// closed.
proof fn lemma_expect_seq_over(
    lo: nat,
    n: nat,
    st: St,
    scope: Scope,
    strict: bool,
    t1: Ty,
    ty: Ty,
    pos: TermPos,
    todo: Seq<(RichTerm, Ty)>,
)
    requires
        run_expect(n, st, strict, t1, ty, pos) is Some,
        is_closed(st.table, lo),
        scope_over(scope, st.table, lo),
        is_over(t1, st.table, lo),
        goal_over(strict, ty, st.table, lo),
        forall|j: int|
            0 <= j < todo.len() ==> goal_over(strict, (#[trigger] todo[j]).1, st.table, lo),
        ({
            let (mid, out) = run_expect(n, st, strict, t1, ty, pos)->0;
            if out is Ok {
                &&& run_check_seq(n, mid, scope, strict, todo, 0) is Some
                &&& fits((run_check_seq(n, mid, scope, strict, todo, 0)->0).0.table)
            } else {
                fits(mid.table)
            }
        }),
    ensures
        ({
            let (mid, out) = run_expect(n, st, strict, t1, ty, pos)->0;
            if out is Ok {
                is_closed((run_check_seq(n, mid, scope, strict, todo, 0)->0).0.table, lo)
            } else {
                is_closed(mid.table, lo)
            }
        }),
    decreases n, 2nat, 0int,
{
    let (mid, out) = run_expect(n, st, strict, t1, ty, pos)->0;
    lemma_expect_table(n, st, strict, t1, ty, pos);
    if out is Ok {
        let st2 = (run_check_seq(n, mid, scope, strict, todo, 0)->0).0;
        lemma_check_seq_table(n, mid, scope, strict, todo, 0);
        lemma_mid(st.table, mid.table, st2.table);
        lemma_expect_over(lo, n, st, strict, t1, ty, pos);
        lemma_scope_after(lo, scope, st.table, mid.table);
        assert forall|j: int| 0 <= j < todo.len() implies goal_over(
            strict,
            (#[trigger] todo[j]).1,
            mid.table,
            lo,
        ) by {
            lemma_goal_after(lo, strict, todo[j].1, st.table, mid.table);
        }
        lemma_seq_over(lo, n, mid, scope, strict, todo, 0);
    } else {
        lemma_expect_over(lo, n, st, strict, t1, ty, pos);
    }
}

/// Unifying a type with another one, and then typechecking a term, keeps the table closed.
proof fn lemma_expect_check_over(
    lo: nat,
    n: nat,
    st: St,
    inner: Scope,
    strict: bool,
    t1: Ty,
    ty: Ty,
    pos: TermPos,
    t: RichTerm,
    t_ty: Ty,
)
    requires
        run_expect(n, st, strict, t1, ty, pos) is Some,
        is_closed(st.table, lo),
        scope_over(inner, st.table, lo),
        is_over(t1, st.table, lo),
        goal_over(strict, ty, st.table, lo),
        is_over(t_ty, st.table, lo),
        ({
            let (mid, out) = run_expect(n, st, strict, t1, ty, pos)->0;
            if out is Ok {
                &&& run_check(n, mid, inner, strict, t, t_ty) is Some
                &&& fits((run_check(n, mid, inner, strict, t, t_ty)->0).0.table)
            } else {
                fits(mid.table)
            }
        }),
    ensures
        ({
            let (mid, out) = run_expect(n, st, strict, t1, ty, pos)->0;
            if out is Ok {
                is_closed((run_check(n, mid, inner, strict, t, t_ty)->0).0.table, lo)
            } else {
                is_closed(mid.table, lo)
            }
        }),
    decreases n, 2nat, 0int,
{
    let (mid, out) = run_expect(n, st, strict, t1, ty, pos)->0;
    lemma_expect_table(n, st, strict, t1, ty, pos);
    if out is Ok {
        let st2 = (run_check(n, mid, inner, strict, t, t_ty)->0).0;
        law_check_table(n, mid, inner, strict, t, t_ty);
        lemma_mid(st.table, mid.table, st2.table);
        lemma_expect_over(lo, n, st, strict, t1, ty, pos);
        lemma_scope_after(lo, inner, st.table, mid.table);
        lemma_over_after(lo, t_ty, st.table, mid.table);
        law_check_over(lo, n, mid, inner, strict, t, t_ty);
    } else {
        lemma_expect_over(lo, n, st, strict, t1, ty, pos);
    }
}

/// Unifying a type with another one, and then typechecking two terms, keeps the table closed.
proof fn lemma_expect_check2_over(
    lo: nat,
    n: nat,
    st: St,
    scope: Scope,
    strict: bool,
    t1: Ty,
    ty: Ty,
    pos: TermPos,
    e1: RichTerm,
    ty1: Ty,
    e2: RichTerm,
    ty2: Ty,
)
    requires
        is_closed(st.table, lo),
        scope_over(scope, st.table, lo),
        is_over(t1, st.table, lo),
        goal_over(strict, ty, st.table, lo),
        is_over(ty1, st.table, lo),
        is_over(ty2, st.table, lo),
        run_two(n, st, scope, strict, t1, ty, pos, e1, ty1, e2, ty2) is Some,
        fits(run_two(n, st, scope, strict, t1, ty, pos, e1, ty1, e2, ty2)->0.table),
    ensures
        is_closed(run_two(n, st, scope, strict, t1, ty, pos, e1, ty1, e2, ty2)->0.table, lo),
    decreases n, 2nat, 0int,
{
    let (mid, out) = run_expect(n, st, strict, t1, ty, pos)->0;
    lemma_expect_table(n, st, strict, t1, ty, pos);
    if out is Ok {
        let (mid2, out2) = run_check(n, mid, scope, strict, e1, ty1)->0;
        law_check_table(n, mid, scope, strict, e1, ty1);
        if out2 is Ok {
            let st2 = (run_check(n, mid2, scope, strict, e2, ty2)->0).0;
            law_check_table(n, mid2, scope, strict, e2, ty2);
            lemma_after_trans(mid.table, mid2.table, st2.table);
            lemma_mid(st.table, mid.table, st2.table);
            lemma_expect_over(lo, n, st, strict, t1, ty, pos);
            lemma_mid(mid.table, mid2.table, st2.table);
            lemma_scope_after(lo, scope, st.table, mid.table);
            lemma_over_after(lo, ty1, st.table, mid.table);
            law_check_over(lo, n, mid, scope, strict, e1, ty1);
            lemma_scope_after(lo, scope, st.table, mid2.table);
            lemma_over_after(lo, ty2, st.table, mid2.table);
            law_check_over(lo, n, mid2, scope, strict, e2, ty2);
        } else {
            lemma_mid(st.table, mid.table, mid2.table);
            lemma_expect_over(lo, n, st, strict, t1, ty, pos);
            lemma_scope_after(lo, scope, st.table, mid.table);
            lemma_over_after(lo, ty1, st.table, mid.table);
            law_check_over(lo, n, mid, scope, strict, e1, ty1);
        }
    } else {
        lemma_expect_over(lo, n, st, strict, t1, ty, pos);
    }
}

/// The state after unifying a type with another one, and then typechecking two terms.
spec fn run_two(
    n: nat,
    st: St,
    scope: Scope,
    strict: bool,
    t1: Ty,
    ty: Ty,
    pos: TermPos,
    e1: RichTerm,
    ty1: Ty,
    e2: RichTerm,
    ty2: Ty,
) -> Option<St> {
    match run_expect(n, st, strict, t1, ty, pos) {
        None => None,
        Some((st, Err(_))) => Some(st),
        Some((st, Ok(()))) => match run_check(n, st, scope, strict, e1, ty1) {
            None => None,
            Some((st, Err(_))) => Some(st),
            Some((st, Ok(()))) => match run_check(n, st, scope, strict, e2, ty2) {
                None => None,
                Some((st, _)) => Some(st),
            },
        },
    }
}

/// Typechecking a term, against a type over a closed table and in a scope over it, keeps the table
/// closed: the variables of types have been introduced, and the first `lo` ones, which nothing
/// mentions, stay free. In non-strict mode, the type may be any.
pub proof fn law_check_over(
    lo: nat,
    n: nat,
    st: St,
    scope: Scope,
    strict: bool,
    rt: RichTerm,
    ty: Ty,
)
    requires
        run_check(n, st, scope, strict, rt, ty) is Some,
        is_closed(st.table, lo),
        scope_over(scope, st.table, lo),
        goal_over(strict, ty, st.table, lo),
        fits((run_check(n, st, scope, strict, rt, ty)->0).0.table),
    ensures
        is_closed((run_check(n, st, scope, strict, rt, ty)->0).0.table, lo),
    decreases n, 0nat, 0int,
{
    broadcast use lemma_after_trans;

    let m = (n - 1) as nat;
    let pos = rt.pos;
    let fin = (run_check(n, st, scope, strict, rt, ty)->0).0;
    let a = Ty::Ptr(next_var(st.table));
    let st1 = with_var(st);
    let b = Ty::Ptr(next_var(st1.table));
    let stb = with_var(st1);
    lemma_new_var(st.table);
    lemma_new_var(st1.table);
    match *rt.term {
        Term::Null => lemma_expect_over(lo, m, st, strict, Ty::Dyn, ty, pos),
        Term::Bool(_) => lemma_expect_over(lo, m, st, strict, Ty::Bool, ty, pos),
        Term::Num(_) => lemma_expect_over(lo, m, st, strict, Ty::Num, ty, pos),
        Term::Str(_) => lemma_expect_over(lo, m, st, strict, Ty::Str, ty, pos),
        Term::StrChunks(chunks) => {
            let todo = chunks_against(chunks@);
            lemma_chunks_over(lo, chunks@, st.table);
            lemma_expect_seq_over(lo, m, st, scope, strict, Ty::Str, ty, pos, todo);
        },
        Term::Fun(x, t) => {
            let inner = with_local(scope, x@, a);
            lemma_expect_table(m, stb, strict, arrow(a, b), ty, pos);
            if let Some((mid, Ok(()))) = run_expect(m, stb, strict, arrow(a, b), ty, pos) {
                law_check_table(m, mid, inner, strict, t, b);
            }
            lemma_two_vars(lo, st, scope, strict, ty, fin);
            lemma_local_over(lo, scope, x@, a, stb.table);
            reveal_with_fuel(is_scoped, 2);
            lemma_expect_check_over(lo, m, stb, inner, strict, arrow(a, b), ty, pos, t, b);
        },
        Term::List(terms) => {
            let todo = all_against(terms@, a);
            lemma_expect_table(m, st1, strict, list_of(a), ty, pos);
            if let Some((mid, Ok(()))) = run_expect(m, st1, strict, list_of(a), ty, pos) {
                lemma_check_seq_table(m, mid, scope, strict, todo, 0);
            }
            lemma_one_var(lo, st, scope, strict, ty, fin);
            reveal_with_fuel(is_scoped, 2);
            lemma_expect_seq_over(lo, m, st1, scope, strict, list_of(a), ty, pos, todo);
        },
        Term::Lbl(_) => lemma_expect_over(lo, m, st, strict, Ty::Dyn, ty, pos),
        Term::Let(x, re, body) => {
            let (table, ty_let) = bound_ty(st.table, scope, re, strict);
            let mid = St { table, ..st };
            let inner = with_local(scope, x@, ty_let);
            let (mid2, out) = run_check(m, mid, scope, strict, re, ty_let)->0;
            lemma_bound_ty_table(st.table, scope, re, strict);
            law_check_table(m, mid, scope, strict, re, ty_let);
            lemma_after_refl(mid2.table);
            if out is Ok {
                law_check_table(m, mid2, inner, strict, body, ty);
            }
            lemma_mid(st.table, mid.table, fin.table);
            lemma_mid(mid.table, mid2.table, fin.table);
            lemma_bound_ty_over(lo, st.table, scope, re, strict);
            lemma_scope_after(lo, scope, st.table, mid.table);
            law_check_over(lo, m, mid, scope, strict, re, ty_let);
            if out is Ok {
                lemma_scope_after(lo, scope, st.table, mid2.table);
                lemma_over_after(lo, ty_let, mid.table, mid2.table);
                lemma_local_over(lo, scope, x@, ty_let, mid2.table);
                lemma_goal_after(lo, strict, ty, st.table, mid2.table);
                law_check_over(lo, m, mid2, inner, strict, body, ty);
            }
        },
        Term::App(e, t) => {
            lemma_expect_table(m, stb, strict, b, ty, pos);
            if let Some((mid, Ok(()))) = run_expect(m, stb, strict, b, ty, pos) {
                law_check_table(m, mid, scope, strict, e, arrow(a, b));
                if let Some((mid2, Ok(()))) = run_check(m, mid, scope, strict, e, arrow(a, b)) {
                    law_check_table(m, mid2, scope, strict, t, a);
                }
            }
            lemma_two_vars(lo, st, scope, strict, ty, fin);
            reveal_with_fuel(is_scoped, 2);
            lemma_expect_check2_over(lo, m, stb, scope, strict, b, ty, pos, e, arrow(a, b), t, a);
        },
        Term::Switch(exp, cases, default) => {
            lemma_switch_over(lo, m, st, scope, strict, exp, cases@, default, ty, pos);
        },
        Term::Var(x) => if let Some(x_ty) = in_scope(scope, x@) {
            let (mid, inst) = run_instantiate(m, st, x_ty, ForallInst::Ptr)->0;
            law_instantiate_table(m, st, x_ty, ForallInst::Ptr);
            lemma_expect_table(m, mid, strict, inst, ty, pos);
            lemma_mid(st.table, mid.table, fin.table);
            law_instantiate_over(lo, m, st, x_ty, ForallInst::Ptr);
            lemma_goal_after(lo, strict, ty, st.table, mid.table);
            lemma_expect_over(lo, m, mid, strict, inst, ty, pos);
        },
        Term::Enum(id) => {
            let en = enum_of(row_extend(id@, None, a));
            lemma_expect_table(m, st1, strict, en, ty, pos);
            lemma_one_var(lo, st, scope, strict, ty, fin);
            reveal_with_fuel(is_scoped, 3);
            lemma_expect_over(lo, m, st1, strict, en, ty, pos);
        },
        Term::Record(fields, _) => {
            lemma_record_over(lo, m, st, scope, strict, false, fields@, ty, pos);
        },
        Term::RecRecord(fields, _) => {
            let (table, inner) = bind_fields(st.table, scope, strict, fields@, 0);
            let mid = St { table, ..st };
            lemma_bind_fields_table(st.table, scope, strict, fields@, 0);
            lemma_check_record_table(m, mid, inner, strict, true, fields@, ty, pos);
            lemma_mid(st.table, mid.table, fin.table);
            lemma_bind_fields_over(lo, st.table, scope, strict, fields@, 0);
            lemma_goal_after(lo, strict, ty, st.table, mid.table);
            lemma_record_over(lo, m, mid, inner, strict, true, fields@, ty, pos);
        },
        Term::Op1(op, t) => {
            let (mid, arg, res) = uop_type(st, op);
            lemma_uop_table(st, op);
            lemma_expect_table(m, mid, strict, res, ty, pos);
            if let Some((mid2, Ok(()))) = run_expect(m, mid, strict, res, ty, pos) {
                law_check_table(m, mid2, scope, strict, t, arg);
            }
            lemma_mid(st.table, mid.table, fin.table);
            lemma_uop_over(lo, st, op);
            lemma_scope_after(lo, scope, st.table, mid.table);
            lemma_goal_after(lo, strict, ty, st.table, mid.table);
            lemma_expect_check_over(lo, m, mid, scope, strict, res, ty, pos, t, arg);
        },
        Term::Op2(op, t1, t2) => {
            let (mid, arg1, arg2, res) = bop_type(st, op);
            lemma_bop_table(st, op);
            lemma_expect_table(m, mid, strict, res, ty, pos);
            if let Some((mid2, Ok(()))) = run_expect(m, mid, strict, res, ty, pos) {
                law_check_table(m, mid2, scope, strict, t1, arg1);
                if let Some((mid3, Ok(()))) = run_check(m, mid2, scope, strict, t1, arg1) {
                    law_check_table(m, mid3, scope, strict, t2, arg2);
                }
            }
            lemma_mid(st.table, mid.table, fin.table);
            lemma_bop_over(lo, st, op);
            lemma_scope_after(lo, scope, st.table, mid.table);
            lemma_goal_after(lo, strict, ty, st.table, mid.table);
            lemma_expect_check2_over(lo, m, mid, scope, strict, res, ty, pos, t1, arg1, t2, arg2);
        },
        Term::OpN(op, args) => {
            let (types, res) = nop_type(op);
            let todo = args_against(args@, types);
            lemma_nop_over(lo, op, st.table.dom().len());
            lemma_expect_seq_over(lo, m, st, scope, strict, res, ty, pos, todo);
        },
        Term::Promise(ty2, _, t) => {
            lemma_annotation_over(lo, ty2, st.table);
            lemma_promise_over(lo, m, st, scope, strict, ty2@, t, ty, pos);
        },
        Term::Sym(_) => lemma_expect_over(lo, m, st, strict, Ty::Sym, ty, pos),
        Term::Wrapped(_, t) => law_check_over(lo, m, st, scope, strict, t, ty),
        Term::MetaValue(meta) => lemma_meta_over(lo, m, st, scope, strict, meta, ty, pos),
        Term::Import(_) => lemma_expect_over(lo, m, st, strict, Ty::Dyn, ty, pos),
        Term::ResolvedImport(_) => {},
    }
}

/// A new variable in the middle of a run keeps everything over the table.
proof fn lemma_one_var(lo: nat, st: St, scope: Scope, strict: bool, ty: Ty, fin: St)
    requires
        is_closed(st.table, lo),
        scope_over(scope, st.table, lo),
        goal_over(strict, ty, st.table, lo),
        comes_after(with_var(st).table, fin.table),
        fits(fin.table),
    ensures
        ({
            let st1 = with_var(st);
            &&& is_closed(st1.table, lo)
            &&& scope_over(scope, st1.table, lo)
            &&& goal_over(strict, ty, st1.table, lo)
            &&& is_over(Ty::Ptr(next_var(st.table)), st1.table, lo)
        }),
{
    let st1 = with_var(st);
    lemma_new_var(st.table);
    lemma_mid(st.table, st1.table, fin.table);
    lemma_var_closed(lo, st.table);
    lemma_scope_after(lo, scope, st.table, st1.table);
    lemma_goal_after(lo, strict, ty, st.table, st1.table);
}

/// Two new variables in the middle of a run keep everything over the table.
proof fn lemma_two_vars(lo: nat, st: St, scope: Scope, strict: bool, ty: Ty, fin: St)
    requires
        is_closed(st.table, lo),
        scope_over(scope, st.table, lo),
        goal_over(strict, ty, st.table, lo),
        comes_after(with_var(with_var(st)).table, fin.table),
        fits(fin.table),
    ensures
        ({
            let st1 = with_var(st);
            let st2 = with_var(st1);
            &&& is_closed(st2.table, lo)
            &&& scope_over(scope, st2.table, lo)
            &&& goal_over(strict, ty, st2.table, lo)
            &&& is_over(Ty::Ptr(next_var(st.table)), st2.table, lo)
            &&& is_over(Ty::Ptr(next_var(st1.table)), st2.table, lo)
        }),
{
    let st1 = with_var(st);
    lemma_new_var(st1.table);
    lemma_after_trans(st1.table, with_var(st1).table, fin.table);
    lemma_one_var(lo, st, scope, strict, ty, fin);
    lemma_one_var(lo, st1, scope, strict, ty, fin);
    lemma_mid(st1.table, with_var(st1).table, fin.table);
    lemma_over_after(lo, Ty::Ptr(next_var(st.table)), st1.table, with_var(st1).table);
}

/// Whether the types of an environment have neither variables nor constants.
pub open spec fn is_plain_env(env: Map<Name, Ty>) -> bool {
    forall|id: Name| #[trigger] env.contains_key(id) ==> is_plain(env[id])
}

/// The types of the builtin terms have neither variables nor constants.
pub proof fn law_global_types_plain(terms: Map<Name, RichTerm>)
    ensures
        is_plain_env(global_types(terms)),
{
    assert forall|id: Name| #[trigger] global_types(terms).contains_key(id) implies is_plain(
        global_types(terms)[id],
    ) by {
        lemma_apparent_plain(terms[id]);
    }
}

/// The apparent type of a term without a scope has neither variables nor constants.
proof fn lemma_apparent_plain(rt: RichTerm)
    ensures
        is_plain(apparent_plain_ty(apparent(*rt.term, None))),
    decreases rt,
{
    match *rt.term {
        Term::Promise(ty, _, _) => lemma_annotation_plain(ty),
        Term::MetaValue(meta) => match meta.types {
            Some(ctr) => lemma_annotation_plain(ctr.types),
            None => if meta.contracts@.len() > 0 {
                lemma_annotation_plain(meta.contracts@[0].types);
            } else {
                if let Some(v) = meta.value {
                    lemma_apparent_plain(v);
                }
            },
        },
        Term::List(_) => {
            assert(is_plain(Ty::Dyn));
        },
        _ => {},
    }
}

/// The type of an annotation has neither variables nor constants.
pub proof fn lemma_annotation_plain(t: Types)
    ensures
        is_plain(t@),
{
    law_wrap_unwrap(t);
    lemma_wrap_view(t);
}

/// The type that is inferred for a term which typechecks is always `Dyn`: the variable that the
/// term is checked against stays free, as typechecking starts in non-strict mode, and nothing else
/// mentions the variable.
pub proof fn law_type_check_dyn(
    n: nat,
    imports: Map<FileId, RichTerm>,
    global: Map<Name, Ty>,
    rt: RichTerm,
)
    requires
        is_plain_env(global),
        ({
            let st = with_var(initial(imports));
            let out = run_check((n - 1) as nat, st, global_scope(global), false, rt, Ty::Ptr(0));
            out is Some ==> fits((out->0).0.table)
        }),
    ensures
        run_type_check(n, imports, global, rt) matches Some(Ok(ty)) ==> ty is Dyn,
{
    if run_type_check(n, imports, global, rt) matches Some(Ok(_)) {
        let st = initial(imports);
        assert(st.table.dom() =~= Set::empty());
        let st1 = with_var(st);
        let m = (n - 1) as nat;
        let scope = global_scope(global);
        let st2 = (run_check(m, st1, scope, false, rt, Ty::Ptr(0))->0).0;
        law_initial_wf(imports);
        lemma_new_var(st.table);
        assert(st1.table.dom() =~= set![0usize]);
        law_later_table(st.table, st1.table);
        assert(is_closed(st1.table, 1));
        assert forall|id: Name| #[trigger] in_scope(scope, id) is Some implies is_over(
            in_scope(scope, id)->0,
            st1.table,
            1,
        ) by {
            assert(global.contains_key(id));
            lemma_plain_scoped(1, global[id], 1);
        }
        law_check_over(1, m, st1, scope, false, rt, Ty::Ptr(0));
        assert(st2.table.contains_key(0));
        assert(st2.table[0] is None);
    }
}

} // verus!
