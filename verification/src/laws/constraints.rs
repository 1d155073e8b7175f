//! Row constraints persist: an identifier that a row must not contain stays forbidden to the row,
//! however it is extended later.
use vstd::prelude::*;
use vstd::set_lib::*;

use crate::identifier::Ident;
use crate::laws::rows::{
    law_constr_unify, law_constr_unify_others, law_constrain_var_keeps, law_constrain_var_others,
    row_end, row_ids,
};
use crate::laws::subtyping::{lemma_root_is, lemma_root_same, root};
use crate::laws::table::{
    comes_after, extends, fits, is_wf, law_constrain_var_table, law_later_table, law_row_add_table,
    lemma_after_refl, lemma_after_trans, lemma_new_binding, lemma_new_var, lemma_resolve_free,
    lemma_root_free,
};
use crate::model::{
    arrow, enum_of, list_of, record_of, row_extend, unbox, CheckErr, Constr, Name, RowErr, St,
    Table, Ty, UErr,
};
use crate::position::TermPos;
use crate::term::{BinaryOp, MetaValue, RichTerm, Term, UnaryOp};
use crate::typecheck::check::{
    all_against, args_against, bind_fields, cases_row, chunks_against, fields_against, run_check,
    run_check_fields, run_check_meta, run_check_promise, run_check_record, run_check_seq,
    run_check_switch, run_check_switched, run_expect,
};
use crate::typecheck::envs::{bound_ty, in_scope, with_local, Scope};
use crate::typecheck::errors::{arrow_err_cause, type_path};
use crate::typecheck::instantiate::{
    head_foralls, instance, lemma_subst_head_foralls, run_instantiate, run_instantiate_heads,
    ForallInst,
};
use crate::typecheck::ops::{
    bop_type, is_typed_bop, is_typed_nop, is_typed_uop, nop_type, uop_type,
};
use crate::typecheck::reporting::{no_names, run_report_err, run_report_pair, Reg};
use crate::typecheck::state::{
    full_row, next_var, run_constrain_var, run_resolve, run_root, with_var,
};
use crate::typecheck::unify::{
    run_row_add, run_sub, run_sub_concrete, run_sub_dyn_record, run_sub_roots, run_sub_row_types,
    run_sub_rows, run_sub_tails, unify_var,
};
use crate::typecheck::wrapper::subst;

verus! {

/// Whether the constraints of a variable forbid an identifier.
pub open spec fn is_forbidden(constr: Constr, p: usize, id: Name) -> bool {
    constr.contains_key(p) && constr[p].contains(id)
}

/// Whether a variable is not bound.
pub open spec fn is_unbound(table: Table, p: usize) -> bool {
    table.contains_key(p) ==> table[p] is None
}

/// Whether a row must not contain an identifier, as far as can be seen in `k` steps: none of its
/// bindings has the identifier, and the variable that ends it must not be given it.
pub open spec fn forbids_upto(k: nat, st: St, row: Ty, id: Name) -> bool
    decreases k,
{
    k == 0 || match root(st.table, row) {
        Some(Ty::RowExtend(id2, _, tail)) => id2 != id && forbids_upto(
            (k - 1) as nat,
            st,
            *tail,
            id,
        ),
        Some(Ty::Ptr(p)) => is_forbidden(st.constr, p, id),
        Some(_) => true,
        None => row matches Ty::Ptr(p) && is_forbidden(st.constr, p, id),
    }
}

/// Whether a row must not contain an identifier.
pub open spec fn forbids(st: St, row: Ty, id: Name) -> bool {
    forall|k: nat| forbids_upto(k, st, row, id)
}

/// Whether a table comes after another, and, as long as its variables can be numbered, all the
/// identifiers that rows must not contain stay forbidden to them.
#[verifier::opaque]
pub open spec fn keeps(st: St, st2: St) -> bool {
    &&& comes_after(st.table, st2.table)
    &&& is_wf(st.table) && fits(st2.table) ==> forall|row: Ty, id: Name|
        forbids(st, row, id) ==> #[trigger] forbids(st2, row, id)
}

/// A state keeps its own constraints.
proof fn lemma_keeps_refl(st: St)
    ensures
        keeps(st, st),
{
    reveal(keeps);
    lemma_after_refl(st.table);
}

/// Keeping constraints is transitive.
broadcast proof fn lemma_keeps_trans(a: St, b: St, c: St)
    requires
        #[trigger] keeps(a, b),
        #[trigger] keeps(b, c),
    ensures
        keeps(a, c),
{
    reveal(keeps);
    lemma_after_trans(a.table, b.table, c.table);
    if is_wf(a.table) && fits(c.table) {
        lemma_fits_between(a.table, b.table, c.table);
        assert forall|row: Ty, id: Name| forbids(a, row, id) implies #[trigger] forbids(
            c,
            row,
            id,
        ) by {
            assert(forbids(b, row, id));
        }
    }
}

/// A table between a well-formed one and one whose variables can be numbered is well-formed.
proof fn lemma_fits_between(a: Table, b: Table, c: Table)
    requires
        is_wf(a),
        comes_after(a, b),
        comes_after(b, c),
        fits(c),
    ensures
        fits(b),
        is_wf(b),
{
    reveal(comes_after);
    lemma_len_subset(b.dom(), c.dom());
}

/// An identifier is forbidden to a variable that is not bound if its constraints forbid it.
proof fn lemma_unbound_forbids(st: St, p: usize, id: Name)
    requires
        is_unbound(st.table, p),
        is_forbidden(st.constr, p, id),
    ensures
        forbids(st, Ty::Ptr(p), id),
{
    assert forall|k: nat| forbids_upto(k, st, Ty::Ptr(p), id) by {
        if st.table.contains_key(p) {
            assert(run_root(1, st.table, p) == Some(Ty::Ptr(p)));
            lemma_root_is(1, st.table, Ty::Ptr(p));
        } else {
            assert(forall|n: nat| run_root(n, st.table, p) is None);
        }
    }
}

/// An identifier stays forbidden to a row if it stays forbidden to the variables that are not bound
/// and that it was forbidden to.
proof fn lemma_forbids_stays(k: nat, st: St, st2: St, row: Ty, id: Name)
    requires
        is_wf(st.table),
        is_wf(st2.table),
        extends(st.table, st2.table),
        forall|p: usize|
            is_unbound(st.table, p) && #[trigger] is_forbidden(st.constr, p, id) ==> forbids(
                st2,
                Ty::Ptr(p),
                id,
            ),
        forbids_upto(k, st, row, id),
    ensures
        forbids_upto(k, st2, row, id),
    decreases k,
{
    if k > 0 {
        match root(st.table, row) {
            Some(r) => {
                if let Ty::Ptr(x) = row {
                    let n = choose|n: nat| run_root(n, st.table, x) is Some;
                    lemma_root_same(n, st.table, st2.table, row);
                    lemma_root_free(n, st.table, x);
                }
                match r {
                    Ty::RowExtend(_, _, tail) => {
                        lemma_forbids_stays((k - 1) as nat, st, st2, *tail, id);
                    },
                    Ty::Ptr(p) => {
                        assert(is_forbidden(st.constr, p, id));
                        assert(forbids_upto(k, st2, Ty::Ptr(p), id));
                        assert(st2.table.contains_key(p));
                        let n = choose|n: nat| run_root(n, st2.table, p) is Some;
                        lemma_root_is(n, st2.table, Ty::Ptr(p));
                    },
                    _ => {},
                }
            },
            None => {
                let p = row->Ptr_0;
                assert(!st.table.contains_key(p));
                assert(is_forbidden(st.constr, p, id));
                assert(forbids_upto(k, st2, Ty::Ptr(p), id));
            },
        }
    }
}

/// Constraints are kept if all identifiers stay forbidden to the variables that are not bound.
proof fn lemma_keeps(st: St, st2: St)
    requires
        comes_after(st.table, st2.table),
        is_wf(st.table) && fits(st2.table) ==> forall|p: usize, id: Name|
            is_unbound(st.table, p) && #[trigger] is_forbidden(st.constr, p, id) ==> forbids(
                st2,
                Ty::Ptr(p),
                id,
            ),
    ensures
        keeps(st, st2),
{
    reveal(keeps);
    if is_wf(st.table) && fits(st2.table) {
        law_later_table(st.table, st2.table);
        assert forall|row: Ty, id: Name| forbids(st, row, id) implies #[trigger] forbids(
            st2,
            row,
            id,
        ) by {
            assert forall|k: nat| forbids_upto(k, st2, row, id) by {
                assert(forbids_upto(k, st, row, id));
                lemma_forbids_stays(k, st, st2, row, id);
            }
        }
    }
}

/// Constraints are kept if variables that are not bound stay so, and none of their constraints is
/// taken back.
proof fn lemma_keeps_more(st: St, st2: St)
    requires
        comes_after(st.table, st2.table),
        forall|p: usize, id: Name|
            is_unbound(st.table, p) && #[trigger] is_forbidden(st.constr, p, id) ==> is_unbound(
                st2.table,
                p,
            ) && is_forbidden(st2.constr, p, id),
    ensures
        keeps(st, st2),
{
    assert forall|p: usize, id: Name|
        is_unbound(st.table, p) && #[trigger] is_forbidden(st.constr, p, id) implies forbids(
        st2,
        Ty::Ptr(p),
        id,
    ) by {
        lemma_unbound_forbids(st2, p, id);
    }
    lemma_keeps(st, st2);
}

/// A new variable keeps the constraints.
proof fn lemma_keeps_var(st: St)
    ensures
        keeps(st, with_var(st)),
{
    lemma_new_var(st.table);
    lemma_keeps_more(st, with_var(st));
}

/// Whether a row is safe from an identifier: it has no binding with it, and it ends with a variable
/// that is bound to a safe row, or that must not be given the identifier, or without a variable.
spec fn is_safe(st: St, safe: Set<usize>, row: Ty, id: Name) -> bool {
    &&& !row_ids(row).contains(id)
    &&& row_end(row) matches Ty::Ptr(u) ==> safe.contains(u) || (is_unbound(st.table, u)
        && is_forbidden(st.constr, u, id))
}

/// Whether variables are bound to safe rows.
spec fn all_safe(st: St, safe: Set<usize>, id: Name) -> bool {
    forall|v: usize| #[trigger]
        safe.contains(v) ==> st.table.contains_key(v) && st.table[v] is Some && is_safe(
            st,
            safe,
            st.table[v]->0,
            id,
        )
}

/// The representative of a variable that ends a safe row is safe.
proof fn lemma_safe_root(n: nat, st: St, safe: Set<usize>, x: usize, id: Name)
    requires
        all_safe(st, safe, id),
        is_safe(st, safe, Ty::Ptr(x), id),
        run_root(n, st.table, x) is Some,
    ensures
        match run_root(n, st.table, x)->0 {
            Ty::Ptr(p) => is_forbidden(st.constr, p, id),
            ty => is_safe(st, safe, ty, id),
        },
    decreases n,
{
    if safe.contains(x) {
        if let Some(Ty::Ptr(y)) = st.table[x] {
            lemma_safe_root((n - 1) as nat, st, safe, y, id);
        }
    }
}

/// An identifier is forbidden to the rows that are safe from it.
proof fn lemma_safe_forbids(k: nat, st: St, safe: Set<usize>, row: Ty, id: Name)
    requires
        all_safe(st, safe, id),
        is_safe(st, safe, row, id),
        is_wf(st.table),
    ensures
        forbids_upto(k, st, row, id),
    decreases k,
{
    if k > 0 {
        if let Ty::Ptr(x) = row {
            if st.table.contains_key(x) {
                let n = choose|n: nat| run_root(n, st.table, x) is Some;
                lemma_root_is(n, st.table, row);
                lemma_safe_root(n, st, safe, x, id);
            } else {
                assert(forall|n: nat| run_root(n, st.table, x) is None);
            }
        }
        if let Some(Ty::RowExtend(_, _, tail)) = root(st.table, row) {
            lemma_safe_forbids((k - 1) as nat, st, safe, *tail, id);
        }
    }
}

/// A row whose end is followed has the identifiers of the row, and those of what its end stands
/// for.
proof fn lemma_full_row(k: nat, table: Table, ty: Ty)
    ensures
        ({
            let row = full_row(k, table, ty);
            let rest = full_row(k, table, row_end(ty));
            &&& row_ids(row) == row_ids(ty).union(row_ids(rest))
            &&& row_end(row) == row_end(rest)
        }),
    decreases ty,
{
    match ty {
        Ty::RowExtend(id, _, tail) => {
            lemma_full_row(k, table, *tail);
            assert(row_ids(full_row(k, table, ty)) =~= row_ids(ty).union(
                row_ids(full_row(k, table, row_end(ty))),
            ));
        },
        _ => {
            assert(row_ids(ty) =~= Set::empty());
            assert(row_ids(full_row(k, table, ty)) =~= row_ids(ty).union(
                row_ids(full_row(k, table, ty)),
            ));
        },
    }
}

/// Whether the end of a row is a variable with a property: `p`, or one of some variables, or one
/// that is not bound and must not be given an identifier. Or it is no variable.
spec fn is_done(st: St, seen: Set<usize>, p: usize, end: Ty, id: Name) -> bool {
    end matches Ty::Ptr(u) ==> u == p || seen.contains(u) || (is_unbound(st.table, u)
        && is_forbidden(st.constr, u, id))
}

/// Whether the rows that some variables are bound to do not have an identifier, and their ends are
/// done, or are the given one.
spec fn all_seen(st: St, seen: Set<usize>, p: usize, end: Ty, id: Name) -> bool {
    forall|v: usize| #[trigger]
        seen.contains(v) ==> {
            &&& st.table.contains_key(v)
            &&& st.table[v] is Some
            &&& !row_ids(st.table[v]->0).contains(id)
            &&& is_done(st, seen, p, row_end(st.table[v]->0), id) || row_end(st.table[v]->0) == end
        }
}

/// The variables that are found when the end of a row is followed through the table. They are not
/// more than the variables of the table, hence the bound suffices to find all of them.
proof fn lemma_follow(k: nat, st: St, seen: Set<usize>, p: usize, ty: Ty, id: Name) -> (all: Set<
    usize,
>)
    requires
        is_wf(st.table),
        seen.subset_of(st.table.dom()),
        seen.len() + k >= st.table.dom().len(),
        all_seen(st, seen, p, row_end(ty), id),
        ({
            let row = full_row(k, st.table, ty);
            &&& !row_ids(row).contains(id)
            &&& row_end(row) matches Ty::Ptr(u) ==> u == p || !is_unbound(st.table, u)
                || is_forbidden(st.constr, u, id)
        }),
    ensures
        seen.subset_of(all),
        all_seen(st, all, p, row_end(ty), id),
        is_done(st, all, p, row_end(ty), id),
        !row_ids(ty).contains(id),
    decreases k,
{
    lemma_full_row(k, st.table, ty);
    let end = row_end(ty);
    let u = end->Ptr_0;
    if end is Ptr && u != p && !seen.contains(u) && !is_unbound(st.table, u) {
        let more = seen.insert(u);
        let next = st.table[u]->0;
        lemma_len_subset(more, st.table.dom());
        lemma_full_row((k - 1) as nat, st.table, next);
        lemma_follow((k - 1) as nat, st, more, p, next, id)
    } else {
        seen
    }
}

/// Unifying a free variable with another free variable, or with a type other than a variable, keeps
/// the constraints if it succeeds.
proof fn lemma_keeps_unify_var(st: St, p: usize, ty: Ty, left: Ty, right: Ty)
    requires
        st.table.contains_key(p),
        st.table[p] is None,
        ty matches Ty::Ptr(q) ==> q != p && st.table.contains_key(q) && st.table[q] is None,
        unify_var(st, p, ty, left, right).1 is Ok,
    ensures
        keeps(st, unify_var(st, p, ty, left, right).0),
{
    let st2 = unify_var(st, p, ty, left, right).0;
    let k = st.table.dom().len();
    let row = full_row(k, st.table, ty);
    lemma_new_binding(st.table, p, ty);
    if is_wf(st.table) && fits(st2.table) {
        law_later_table(st.table, st2.table);
        assert forall|q: usize, id: Name|
            is_unbound(st.table, q) && #[trigger] is_forbidden(st.constr, q, id) implies forbids(
            st2,
            Ty::Ptr(q),
            id,
        ) by {
            if st.constr.contains_key(p) {
                law_constr_unify(st.constr, p, row);
            }
            if q == p {
                let mid = St { constr: st2.constr, ..st };
                assert(!row_ids(row).contains(id));
                let all = lemma_follow(k, mid, Set::empty(), p, ty, id);
                let safe = all.insert(p);
                assert(all_safe(st2, safe, id));
                assert forall|j: nat| forbids_upto(j, st2, Ty::Ptr(p), id) by {
                    lemma_safe_forbids(j, st2, safe, Ty::Ptr(p), id);
                }
            } else {
                if row_end(row) != Ty::Ptr(q) {
                    law_constr_unify_others(st.constr, p, row, q);
                }
                lemma_unbound_forbids(st2, q, id);
            }
        }
    }
    lemma_keeps(st, st2);
}

/// A new variable is another one than all the variables of a table.
proof fn lemma_fresh(table: Table)
    requires
        is_wf(table),
    ensures
        !table.contains_key(next_var(table)),
{
}

/// Looking for a binding in a row, or adding one, keeps the constraints.
pub proof fn law_row_add_keeps(n: nat, st: St, id: Name, ty: Option<Ty>, r: Ty)
    requires
        run_row_add(n, st, id, ty, r) is Some,
    ensures
        keeps(st, (run_row_add(n, st, id, ty, r)->0).0),
    decreases n,
{
    let m = (n - 1) as nat;
    let st2 = (run_row_add(n, st, id, ty, r)->0).0;
    lemma_keeps_refl(st);
    match run_resolve(m, st.table, r) {
        Some(Ty::RowExtend(id2, _, r2)) => if id != id2 {
            law_row_add_keeps(m, st, id, ty, *r2);
        },
        Some(Ty::Ptr(p)) => if !is_forbidden(st.constr, p, id) {
            let tail = next_var(st.table);
            law_row_add_table(n, st, id, ty, r);
            lemma_resolve_free(m, st.table, r);
            if is_wf(st.table) && fits(st2.table) {
                law_later_table(st.table, st2.table);
                lemma_fresh(st.table);
                assert forall|q: usize, other: Name|
                    is_unbound(st.table, q) && #[trigger] is_forbidden(
                        st.constr,
                        q,
                        other,
                    ) implies forbids(st2, Ty::Ptr(q), other) by {
                    if q == p {
                        let safe = set![p];
                        let row = row_extend(id, ty, Ty::Ptr(tail));
                        assert(row_ids(row) == row_ids(Ty::Ptr(tail)).insert(id));
                        assert(row_end(row) == row_end(Ty::Ptr(tail)));
                        assert(is_forbidden(st2.constr, tail, other));
                        assert(is_safe(st2, safe, st2.table[p]->0, other));
                        assert forall|j: nat| forbids_upto(j, st2, Ty::Ptr(p), other) by {
                            lemma_safe_forbids(j, st2, safe, Ty::Ptr(p), other);
                        }
                    } else {
                        lemma_unbound_forbids(st2, q, other);
                    }
                }
            }
            lemma_keeps(st, st2);
        },
        _ => {},
    }
}

/// A binding with an identifier that a row must not contain is neither found in the row nor added
/// to it.
pub proof fn law_row_add_rejects(n: nat, st: St, id: Name, ty: Option<Ty>, r: Ty)
    requires
        run_row_add(n, st, id, ty, r) is Some,
        forbids(st, r, id),
    ensures
        (run_row_add(n, st, id, ty, r)->0).0 == st,
        (run_row_add(n, st, id, ty, r)->0).1 is Err,
    decreases n,
{
    let m = (n - 1) as nat;
    lemma_root_is(m, st.table, r);
    assert(forbids_upto(1, st, r, id));
    if let Some(Ty::RowExtend(_, _, tail)) = root(st.table, r) {
        assert forall|k: nat| forbids_upto(k, st, *tail, id) by {
            assert(forbids_upto(k + 1, st, r, id));
        }
        law_row_add_rejects(m, st, id, ty, *tail);
    }
}

/// Whether an error may come from a variable that failed to be unified with a row because of its
/// constraints. Such a variable has lost them.
pub open spec fn is_conflict(err: UErr) -> bool
    decreases err,
{
    match err {
        UErr::RowConflict(_, _, _, _) => true,
        UErr::IllformedRow(_) => true,
        UErr::RowMismatch(_, _, _, err) => is_conflict(*err),
        UErr::DomainMismatch(_, _, err) => is_conflict(*err),
        UErr::CodomainMismatch(_, _, err) => is_conflict(*err),
        _ => false,
    }
}

/// The same, for an error between rows.
pub open spec fn is_row_conflict(err: RowErr) -> bool {
    match err {
        RowErr::UnsatConstr(_, _) => true,
        RowErr::IllformedRow(_) => true,
        RowErr::RowMismatch(_, err) => is_conflict(err),
        _ => false,
    }
}

/// Whether a run succeeds, or fails without a conflict.
pub open spec fn is_clear(res: Result<(), UErr>) -> bool {
    res matches Err(err) ==> !is_conflict(err)
}

/// The same, for a run on rows.
pub open spec fn is_row_clear(res: Result<(), RowErr>) -> bool {
    res matches Err(err) ==> !is_row_conflict(err)
}

/// Unifying two types keeps the constraints, unless it fails with a conflict.
pub proof fn law_sub_keeps(n: nat, st: St, t1: Ty, t2: Ty)
    requires
        run_sub(n, st, t1, t2) is Some,
        is_clear((run_sub(n, st, t1, t2)->0).1),
    ensures
        keeps(st, (run_sub(n, st, t1, t2)->0).0),
    decreases n, 3nat,
{
    let m = (n - 1) as nat;
    lemma_resolve_free(m, st.table, t1);
    lemma_resolve_free(m, st.table, t2);
    let r1 = run_resolve(m, st.table, t1)->0;
    let r2 = run_resolve(m, st.table, t2)->0;
    lemma_sub_roots_keeps(n, st, r1, r2);
}

/// The same, for two types that are their own representatives.
proof fn lemma_sub_roots_keeps(n: nat, st: St, t1: Ty, t2: Ty)
    requires
        run_sub_roots(n, st, t1, t2) is Some,
        is_clear((run_sub_roots(n, st, t1, t2)->0).1),
        t1 matches Ty::Ptr(p) ==> st.table.contains_key(p) && st.table[p] is None,
        t2 matches Ty::Ptr(p) ==> st.table.contains_key(p) && st.table[p] is None,
    ensures
        keeps(st, (run_sub_roots(n, st, t1, t2)->0).0),
    decreases n, 2nat,
{
    lemma_keeps_refl(st);
    match (t1, t2) {
        (Ty::Ptr(p), _) => if t2 != Ty::Ptr(p) {
            lemma_unify_var_clear(st, p, t2, t1, t2);
            lemma_keeps_unify_var(st, p, t2, t1, t2);
        },
        (_, Ty::Ptr(p)) => {
            lemma_unify_var_clear(st, p, t1, t1, t2);
            lemma_keeps_unify_var(st, p, t1, t1, t2);
        },
        _ => if t1.is_concrete() && t2.is_concrete() {
            lemma_sub_concrete_keeps(n, st, t1, t2);
        },
    }
}

/// Unifying a variable with a type fails with a conflict only.
proof fn lemma_unify_var_clear(st: St, p: usize, ty: Ty, left: Ty, right: Ty)
    requires
        is_clear(unify_var(st, p, ty, left, right).1),
    ensures
        unify_var(st, p, ty, left, right).1 is Ok,
{
    if st.constr.contains_key(p) {
        law_constr_unify(st.constr, p, full_row(st.table.dom().len(), st.table, ty));
    }
}

/// The same, for two concrete types.
proof fn lemma_sub_concrete_keeps(n: nat, st: St, t1: Ty, t2: Ty)
    requires
        run_sub_concrete(n, st, t1, t2) is Some,
        is_clear((run_sub_concrete(n, st, t1, t2)->0).1),
    ensures
        keeps(st, (run_sub_concrete(n, st, t1, t2)->0).0),
    decreases n, 1nat,
{
    broadcast use lemma_keeps_trans;

    let m = (n - 1) as nat;
    lemma_keeps_refl(st);
    match (t1, t2) {
        (_, Ty::Dyn) => {},
        (Ty::List(a), Ty::List(b)) => law_sub_keeps(m, st, *a, *b),
        (Ty::Arrow(s1, r1), Ty::Arrow(s2, r2)) => {
            law_sub_keeps(m, st, *s2, *s1);
            if let Some((st, Ok(()))) = run_sub(m, st, *s2, *s1) {
                law_sub_keeps(m, st, *r1, *r2);
            }
        },
        (Ty::Flat(s), Ty::Flat(t)) => {},
        (Ty::Enum(a), Ty::Enum(b)) => lemma_sub_row_types_keeps(n, st, *a, *b, t1, t2),
        (Ty::StaticRecord(a), Ty::StaticRecord(b)) => {
            lemma_sub_row_types_keeps(n, st, *a, *b, t1, t2)
        },
        (Ty::DynRecord(a), Ty::DynRecord(b)) => law_sub_keeps(m, st, *a, *b),
        (Ty::StaticRecord(a), Ty::DynRecord(b)) => law_sub_dyn_record_keeps(m, st, *a, *b),
        (Ty::Forall(i1, a), Ty::Forall(i2, b)) => {
            let c = Ty::Constant(next_var(st.table));
            lemma_keeps_var(st);
            law_sub_keeps(m, with_var(st), subst(*a, i1, c), subst(*b, i2, c));
        },
        _ => if t1.is_row() && t2.is_row() {
            law_sub_rows_keeps(m, st, t1, t2);
        },
    }
}

/// The same, for the rows of two enum or record types.
proof fn lemma_sub_row_types_keeps(n: nat, st: St, a: Ty, b: Ty, t1: Ty, t2: Ty)
    requires
        run_sub_row_types(n, st, a, b, t1, t2) is Some,
        is_clear((run_sub_row_types(n, st, a, b, t1, t2)->0).1),
    ensures
        keeps(st, (run_sub_row_types(n, st, a, b, t1, t2)->0).0),
    decreases n, 0nat,
{
    let m = (n - 1) as nat;
    lemma_keeps_refl(st);
    if a.is_row() && b.is_row() {
        law_sub_rows_keeps(m, st, a, b);
    } else if a.is_concrete() && !a.is_row() {
    } else if b.is_concrete() && !b.is_row() {
    } else {
        law_sub_keeps(m, st, a, b);
    }
}

/// Unifying two rows keeps the constraints, unless it fails with a conflict.
pub proof fn law_sub_rows_keeps(n: nat, st: St, t1: Ty, t2: Ty)
    requires
        run_sub_rows(n, st, t1, t2) is Some,
        is_row_clear((run_sub_rows(n, st, t1, t2)->0).1),
    ensures
        keeps(st, (run_sub_rows(n, st, t1, t2)->0).0),
    decreases n, 1nat,
{
    broadcast use lemma_keeps_trans;

    let m = (n - 1) as nat;
    lemma_keeps_refl(st);
    if let (Ty::RowExtend(id, ty, tail), Ty::RowExtend(_, _, _)) = (t1, t2) {
        law_row_add_keeps(m, st, id, unbox(ty), t2);
        if let Some((st, Ok((ty2, tail2)))) = run_row_add(m, st, id, unbox(ty), t2) {
            match (unbox(ty), ty2) {
                (None, None) => lemma_sub_tails_keeps(n, st, *tail, tail2),
                (Some(a), Some(b)) => {
                    law_sub_keeps(m, st, a, b);
                    if let Some((st, Ok(()))) = run_sub(m, st, a, b) {
                        lemma_sub_tails_keeps(n, st, *tail, tail2);
                    }
                },
                _ => {},
            }
        }
    }
}

/// The same, for the tails of two rows.
proof fn lemma_sub_tails_keeps(n: nat, st: St, t1: Ty, t2: Ty)
    requires
        run_sub_tails(n, st, t1, t2) is Some,
        is_row_clear((run_sub_tails(n, st, t1, t2)->0).1),
    ensures
        keeps(st, (run_sub_tails(n, st, t1, t2)->0).0),
    decreases n, 0nat,
{
    let m = (n - 1) as nat;
    if t1.is_concrete() && t2.is_concrete() {
        law_sub_rows_keeps(m, st, t1, t2);
    } else {
        law_sub_keeps(m, st, t1, t2);
    }
}

/// Unifying a row with a dictionary type keeps the constraints, unless it fails with a conflict.
pub proof fn law_sub_dyn_record_keeps(n: nat, st: St, row: Ty, ty: Ty)
    requires
        run_sub_dyn_record(n, st, row, ty) is Some,
        is_row_clear((run_sub_dyn_record(n, st, row, ty)->0).1),
    ensures
        keeps(st, (run_sub_dyn_record(n, st, row, ty)->0).0),
    decreases n, 0nat,
{
    broadcast use lemma_keeps_trans;

    let m = (n - 1) as nat;
    lemma_keeps_refl(st);
    match row {
        Ty::Dyn => {
            lemma_dyn_clear(m, st, ty);
            law_sub_keeps(m, st, Ty::Dyn, ty);
        },
        Ty::RowExtend(id, Some(a), tail) => {
            law_sub_keeps(m, st, *a, ty);
            if let Some((st, Ok(()))) = run_sub(m, st, *a, ty) {
                law_sub_dyn_record_keeps(m, st, *tail, ty);
            }
        },
        _ => {},
    }
}

/// Unifying `Dyn` with a type gives no conflict.
proof fn lemma_dyn_clear(n: nat, st: St, ty: Ty)
    requires
        run_sub(n, st, Ty::Dyn, ty) is Some,
    ensures
        is_clear((run_sub(n, st, Ty::Dyn, ty)->0).1),
{
    let m = (n - 1) as nat;
    let r = run_resolve(m, st.table, ty)->0;
    match r {
        Ty::Ptr(p) => {
            assert(full_row(st.table.dom().len(), st.table, Ty::Dyn) == Ty::Dyn);
        },
        Ty::RowEmpty => {
            assert(run_sub_rows(m, st, Ty::Dyn, r) is Some);
        },
        Ty::RowExtend(_, _, _) => {
            assert(run_sub_rows(m, st, Ty::Dyn, r) is Some);
        },
        _ => {},
    }
}

/// Instantiating a type keeps the constraints.
pub proof fn law_instantiate_keeps(n: nat, st: St, ty: Ty, inst: ForallInst)
    requires
        run_instantiate(n, st, ty, inst) is Some,
    ensures
        keeps(st, (run_instantiate(n, st, ty, inst)->0).0),
{
    let m = (n - 1) as nat;
    lemma_instantiate_heads_keeps(m, st, run_resolve(m, st.table, ty)->0, inst);
}

/// The same, for the quantifiers in head position of a type.
proof fn lemma_instantiate_heads_keeps(n: nat, st: St, ty: Ty, inst: ForallInst)
    requires
        run_instantiate_heads(n, st, ty, inst) is Some,
    ensures
        keeps(st, (run_instantiate_heads(n, st, ty, inst)->0).0),
    decreases head_foralls(ty),
{
    broadcast use lemma_keeps_trans;

    lemma_keeps_refl(st);
    if let Ty::Forall(i, body) = ty {
        let p = next_var(st.table);
        lemma_subst_head_foralls(*body, i, instance(inst, p));
        let ty1 = subst(*body, i, instance(inst, p));
        let mid = St { names: st.names.insert(p, i), ..with_var(st) };
        let mid2 = match inst {
            ForallInst::Constant => mid,
            ForallInst::Ptr => run_constrain_var(n, mid, Set::empty(), ty1, p)->0,
        };
        lemma_new_var(st.table);
        if inst == ForallInst::Ptr {
            law_constrain_var_table(n, mid, Set::empty(), ty1, p);
        }
        assert forall|q: usize, id: Name|
            is_unbound(st.table, q) && #[trigger] is_forbidden(
                st.constr,
                q,
                id,
            ) implies is_unbound(mid2.table, q) && is_forbidden(mid2.constr, q, id) by {
            if inst == ForallInst::Ptr {
                if q == p {
                    law_constrain_var_keeps(n, mid, Set::empty(), ty1, p);
                } else {
                    law_constrain_var_others(n, mid, Set::empty(), ty1, p, q);
                }
            }
        }
        lemma_keeps_more(st, mid2);
        lemma_instantiate_heads_keeps(n, mid2, ty1, inst);
    }
}

/// Whether a reported error may come from a conflict.
pub open spec fn is_reported_conflict(err: CheckErr) -> bool
    decreases err,
{
    match err {
        CheckErr::RowConflict(_, _, _, _, _) => true,
        CheckErr::IllformedType(_) => true,
        CheckErr::RowMismatch(_, _, _, err, _) => is_reported_conflict(*err),
        CheckErr::ArrowTypeMismatch(_, _, _, err, _) => is_reported_conflict(*err),
        _ => false,
    }
}

/// Whether typechecking succeeds, or fails without a conflict.
pub open spec fn is_check_clear<T>(res: Result<T, CheckErr>) -> bool {
    res matches Err(err) ==> !is_reported_conflict(err)
}

/// An error between arrows is a conflict if its cause is one.
proof fn lemma_cause_conflict(err: UErr)
    ensures
        is_conflict(err) == is_conflict(arrow_err_cause(err)),
    decreases err,
{
    match err {
        UErr::DomainMismatch(_, _, e) => lemma_cause_conflict(*e),
        UErr::CodomainMismatch(_, _, e) => lemma_cause_conflict(*e),
        _ => {},
    }
}

/// A conflict is reported as one.
proof fn lemma_report_conflict(n: nat, st: St, reg: Reg, err: UErr, pos: TermPos)
    requires
        run_report_err(n, st, reg, err, pos) is Some,
        is_conflict(err),
    ensures
        is_reported_conflict((run_report_err(n, st, reg, err, pos)->0).1),
    decreases n,
{
    let m = (n - 1) as nat;
    match err {
        UErr::RowMismatch(_, t1, t2, e) => {
            let reg = (run_report_pair(m, st, reg, t1, t2)->0).0;
            lemma_report_conflict(m, st, reg, *e, TermPos::Generated);
        },
        UErr::DomainMismatch(_, _, _) | UErr::CodomainMismatch(_, _, _) => {
            lemma_cause_conflict(err);
            let (t1, t2, _, cause) = type_path(err)->0;
            let reg = (run_report_pair(m, st, reg, t1, t2)->0).0;
            lemma_report_conflict(m, st, reg, cause, TermPos::Generated);
        },
        _ => {},
    }
}

/// Unifying in strict mode keeps the constraints, unless it fails with a conflict.
proof fn lemma_expect_keeps(n: nat, st: St, strict: bool, t1: Ty, t2: Ty, pos: TermPos)
    requires
        run_expect(n, st, strict, t1, t2, pos) is Some,
        is_check_clear((run_expect(n, st, strict, t1, t2, pos)->0).1),
    ensures
        keeps(st, (run_expect(n, st, strict, t1, t2, pos)->0).0),
{
    reveal(run_expect);
    lemma_keeps_refl(st);
    if strict {
        if let Some((st2, Err(err))) = run_sub(n, st, t1, t2) {
            if is_conflict(err) {
                lemma_report_conflict(n, st2, no_names(), err, pos);
            }
        }
        law_sub_keeps(n, st, t1, t2);
    }
}

/// The new variables of a unary operator keep the constraints.
proof fn lemma_uop_keeps(st: St, op: UnaryOp)
    requires
        is_typed_uop(op),
    ensures
        keeps(st, uop_type(st, op).0),
{
    broadcast use lemma_keeps_trans;

    lemma_keeps_refl(st);
    lemma_keeps_var(st);
    lemma_keeps_var(with_var(st));
    if op is Embed {
        lemma_new_var(st.table);
        lemma_keeps_more(st, uop_type(st, op).0);
    }
}

/// The new variables of a binary operator keep the constraints.
proof fn lemma_bop_keeps(st: St, op: BinaryOp)
    requires
        is_typed_bop(op),
    ensures
        keeps(st, bop_type(st, op).0),
{
    broadcast use lemma_keeps_trans;

    lemma_keeps_refl(st);
    lemma_keeps_var(st);
    lemma_keeps_var(with_var(st));
}

/// The new variable of a binding keeps the constraints.
proof fn lemma_bound_ty_keeps(st: St, scope: Scope, rt: RichTerm, strict: bool)
    ensures
        keeps(st, (St { table: bound_ty(st.table, scope, rt, strict).0, ..st })),
{
    lemma_keeps_refl(st);
    lemma_keeps_var(st);
}

/// The new variables of the fields of a recursive record keep the constraints.
proof fn lemma_bind_fields_keeps(
    st: St,
    scope: Scope,
    strict: bool,
    fields: Seq<(Ident, RichTerm)>,
    i: int,
)
    ensures
        keeps(st, (St { table: bind_fields(st.table, scope, strict, fields, i).0, ..st })),
    decreases fields.len() - i,
{
    broadcast use lemma_keeps_trans;

    lemma_keeps_refl(st);
    if 0 <= i < fields.len() {
        let (id, t) = fields[i];
        lemma_bound_ty_keeps(st, scope, t, strict);
        let (table, ty) = bound_ty(st.table, scope, t, strict);
        let mid = St { table, ..st };
        lemma_bind_fields_keeps(mid, with_local(scope, id@, ty), strict, fields, i + 1);
    }
}

/// Typechecking a sequence of terms keeps the constraints.
proof fn lemma_check_seq_keeps(
    n: nat,
    st: St,
    scope: Scope,
    strict: bool,
    todo: Seq<(RichTerm, Ty)>,
    i: int,
)
    requires
        run_check_seq(n, st, scope, strict, todo, i) is Some,
        is_check_clear((run_check_seq(n, st, scope, strict, todo, i)->0).1),
    ensures
        keeps(st, (run_check_seq(n, st, scope, strict, todo, i)->0).0),
    decreases n, 1nat, todo.len() - i,
{
    broadcast use lemma_keeps_trans;

    lemma_keeps_refl(st);
    if 0 <= i < todo.len() {
        law_check_keeps(n, st, scope, strict, todo[i].0, todo[i].1);
        if let Some((st, Ok(()))) = run_check(n, st, scope, strict, todo[i].0, todo[i].1) {
            lemma_check_seq_keeps(n, st, scope, strict, todo, i + 1);
        }
    }
}

/// Typechecking the fields of a record keeps the constraints.
proof fn lemma_check_fields_keeps(
    n: nat,
    st: St,
    scope: Scope,
    strict: bool,
    rec: bool,
    fields: Seq<(Ident, RichTerm)>,
    i: int,
    row: Ty,
)
    requires
        run_check_fields(n, st, scope, strict, rec, fields, i, row) is Some,
        is_check_clear((run_check_fields(n, st, scope, strict, rec, fields, i, row)->0).1),
    ensures
        keeps(st, (run_check_fields(n, st, scope, strict, rec, fields, i, row)->0).0),
    decreases n, 1nat, fields.len() - i,
{
    broadcast use lemma_keeps_trans;

    lemma_keeps_refl(st);
    lemma_keeps_var(st);
    if 0 <= i < fields.len() {
        let (id, t) = fields[i];
        let ty = if rec {
            in_scope(scope, id@)->0
        } else {
            Ty::Ptr(next_var(st.table))
        };
        let st = if rec {
            st
        } else {
            with_var(st)
        };
        law_check_keeps(n, st, scope, strict, t, ty);
        if let Some((st, Ok(()))) = run_check(n, st, scope, strict, t, ty) {
            let row = row_extend(id@, Some(ty), row);
            lemma_check_fields_keeps(n, st, scope, strict, rec, fields, i + 1, row);
        }
    }
}

/// Typechecking a record keeps the constraints.
proof fn lemma_check_record_keeps(
    n: nat,
    st: St,
    scope: Scope,
    strict: bool,
    rec: bool,
    fields: Seq<(Ident, RichTerm)>,
    ty: Ty,
    pos: TermPos,
)
    requires
        run_check_record(n, st, scope, strict, rec, fields, ty, pos) is Some,
        is_check_clear((run_check_record(n, st, scope, strict, rec, fields, ty, pos)->0).1),
    ensures
        keeps(st, (run_check_record(n, st, scope, strict, rec, fields, ty, pos)->0).0),
    decreases n, 2nat, 0int,
{
    broadcast use lemma_keeps_trans;

    lemma_keeps_refl(st);
    match run_resolve(n, st.table, ty) {
        None => {},
        Some(Ty::DynRecord(rec_ty)) => {
            lemma_check_seq_keeps(n, st, scope, strict, fields_against(fields, *rec_ty), 0);
        },
        Some(_) => {
            let row = Ty::RowEmpty;
            lemma_check_fields_keeps(n, st, scope, strict, rec, fields, 0, row);
            if let Some((st, Ok(row))) = run_check_fields(
                n,
                st,
                scope,
                strict,
                rec,
                fields,
                0,
                row,
            ) {
                lemma_expect_keeps(n, st, strict, record_of(row), ty, pos);
            }
        },
    }
}

/// Typechecking a switch keeps the constraints.
proof fn lemma_check_switch_keeps(
    n: nat,
    st: St,
    scope: Scope,
    strict: bool,
    exp: RichTerm,
    cases: Seq<(Ident, RichTerm)>,
    default: Option<RichTerm>,
    ty: Ty,
    pos: TermPos,
)
    requires
        run_check_switch(n, st, scope, strict, exp, cases, default, ty, pos) is Some,
        is_check_clear((run_check_switch(n, st, scope, strict, exp, cases, default, ty, pos)->0).1),
    ensures
        keeps(st, (run_check_switch(n, st, scope, strict, exp, cases, default, ty, pos)->0).0),
    decreases n, 2nat, 0int,
{
    broadcast use lemma_keeps_trans;

    let res = Ty::Ptr(next_var(st.table));
    let todo = fields_against(cases, res);
    lemma_keeps_var(st);
    lemma_check_seq_keeps(n, with_var(st), scope, strict, todo, 0);
    if let Some((st, Ok(()))) = run_check_seq(n, with_var(st), scope, strict, todo, 0) {
        match default {
            Some(t) => {
                law_check_keeps(n, st, scope, strict, t, res);
                if let Some((st, Ok(()))) = run_check(n, st, scope, strict, t, res) {
                    let row = Ty::Ptr(next_var(st.table));
                    lemma_keeps_var(st);
                    let st = with_var(st);
                    lemma_check_switched_keeps(n, st, scope, strict, exp, row, res, ty, pos);
                }
            },
            None => {
                let row = cases_row(cases);
                lemma_check_switched_keeps(n, st, scope, strict, exp, row, res, ty, pos);
            },
        }
    }
}

/// The same, for the expression of a switch.
proof fn lemma_check_switched_keeps(
    n: nat,
    st: St,
    scope: Scope,
    strict: bool,
    exp: RichTerm,
    row: Ty,
    res: Ty,
    ty: Ty,
    pos: TermPos,
)
    requires
        run_check_switched(n, st, scope, strict, exp, row, res, ty, pos) is Some,
        is_check_clear((run_check_switched(n, st, scope, strict, exp, row, res, ty, pos)->0).1),
    ensures
        keeps(st, (run_check_switched(n, st, scope, strict, exp, row, res, ty, pos)->0).0),
    decreases n, 1nat, 0int,
{
    broadcast use lemma_keeps_trans;

    lemma_expect_keeps(n, st, strict, res, ty, pos);
    if let Some((st, Ok(()))) = run_expect(n, st, strict, res, ty, pos) {
        law_check_keeps(n, st, scope, strict, exp, enum_of(row));
    }
}

/// Typechecking a term with a type annotation keeps the constraints.
proof fn lemma_check_promise_keeps(
    n: nat,
    st: St,
    scope: Scope,
    strict: bool,
    ty2: Ty,
    t: RichTerm,
    ty: Ty,
    pos: TermPos,
)
    requires
        run_check_promise(n, st, scope, strict, ty2, t, ty, pos) is Some,
        is_check_clear((run_check_promise(n, st, scope, strict, ty2, t, ty, pos)->0).1),
    ensures
        keeps(st, (run_check_promise(n, st, scope, strict, ty2, t, ty, pos)->0).0),
    decreases n, 1nat, 0int,
{
    broadcast use lemma_keeps_trans;

    law_instantiate_keeps(n, st, ty2, ForallInst::Constant);
    if let Some((st, inst)) = run_instantiate(n, st, ty2, ForallInst::Constant) {
        lemma_expect_keeps(n, st, strict, ty2, ty, pos);
        if let Some((st, Ok(()))) = run_expect(n, st, strict, ty2, ty, pos) {
            law_check_keeps(n, st, scope, true, t, inst);
        }
    }
}

/// Typechecking a metavalue keeps the constraints.
proof fn lemma_check_meta_keeps(
    n: nat,
    st: St,
    scope: Scope,
    strict: bool,
    meta: MetaValue,
    ty: Ty,
    pos: TermPos,
)
    requires
        run_check_meta(n, st, scope, strict, meta, ty, pos) is Some,
        is_check_clear((run_check_meta(n, st, scope, strict, meta, ty, pos)->0).1),
    ensures
        keeps(st, (run_check_meta(n, st, scope, strict, meta, ty, pos)->0).0),
    decreases n, 2nat, 0int,
{
    broadcast use lemma_keeps_trans;

    match (meta.types, meta.value) {
        (Some(ctr), Some(t)) => {
            lemma_check_promise_keeps(n, st, scope, strict, ctr.types@, t, ty, pos);
        },
        (_, value) => if meta.contracts@.len() > 0 {
            let ty2 = meta.contracts@[0].types@;
            lemma_expect_keeps(n, st, strict, ty2, ty, pos);
            if let Some((st, Ok(()))) = run_expect(n, st, strict, ty2, ty, pos) {
                if let Some(t) = value {
                    law_check_keeps(n, st, scope, false, t, Ty::Dyn);
                }
            }
        } else {
            match value {
                Some(t) => law_check_keeps(n, st, scope, strict, t, ty),
                None => lemma_expect_keeps(n, st, strict, Ty::Dyn, ty, pos),
            }
        },
    }
}

/// Typechecking a term keeps the constraints, unless it fails with a conflict.
pub proof fn law_check_keeps(
    n: nat,
    st: St,
    scope: Scope,
    strict: bool,
    rt: RichTerm,
    ty: Ty,
)
    requires
        run_check(n, st, scope, strict, rt, ty) is Some,
        is_check_clear((run_check(n, st, scope, strict, rt, ty)->0).1),
    ensures
        keeps(st, (run_check(n, st, scope, strict, rt, ty)->0).0),
    decreases n, 0nat, 0int,
{
    broadcast use lemma_keeps_trans;

    let m = (n - 1) as nat;
    let pos = rt.pos;
    let a = Ty::Ptr(next_var(st.table));
    let st1 = with_var(st);
    let b = Ty::Ptr(next_var(st1.table));
    let st2 = with_var(st1);
    lemma_keeps_refl(st);
    lemma_keeps_var(st);
    lemma_keeps_var(st1);
    match *rt.term {
        Term::Null => lemma_expect_keeps(m, st, strict, Ty::Dyn, ty, pos),
        Term::Bool(_) => lemma_expect_keeps(m, st, strict, Ty::Bool, ty, pos),
        Term::Num(_) => lemma_expect_keeps(m, st, strict, Ty::Num, ty, pos),
        Term::Str(_) => lemma_expect_keeps(m, st, strict, Ty::Str, ty, pos),
        Term::StrChunks(chunks) => {
            lemma_expect_keeps(m, st, strict, Ty::Str, ty, pos);
            if let Some((st, Ok(()))) = run_expect(m, st, strict, Ty::Str, ty, pos) {
                lemma_check_seq_keeps(m, st, scope, strict, chunks_against(chunks@), 0);
            }
        },
        Term::Fun(x, t) => {
            lemma_expect_keeps(m, st2, strict, arrow(a, b), ty, pos);
            if let Some((st, Ok(()))) = run_expect(m, st2, strict, arrow(a, b), ty, pos) {
                law_check_keeps(m, st, with_local(scope, x@, a), strict, t, b);
            }
        },
        Term::List(terms) => {
            lemma_expect_keeps(m, st1, strict, list_of(a), ty, pos);
            if let Some((st, Ok(()))) = run_expect(m, st1, strict, list_of(a), ty, pos) {
                lemma_check_seq_keeps(m, st, scope, strict, all_against(terms@, a), 0);
            }
        },
        Term::Lbl(_) => lemma_expect_keeps(m, st, strict, Ty::Dyn, ty, pos),
        Term::Let(x, re, body) => {
            lemma_bound_ty_keeps(st, scope, re, strict);
            let (table, ty_let) = bound_ty(st.table, scope, re, strict);
            let st = St { table, ..st };
            law_check_keeps(m, st, scope, strict, re, ty_let);
            if let Some((st, Ok(()))) = run_check(m, st, scope, strict, re, ty_let) {
                law_check_keeps(m, st, with_local(scope, x@, ty_let), strict, body, ty);
            }
        },
        Term::App(e, t) => {
            lemma_expect_keeps(m, st2, strict, b, ty, pos);
            if let Some((st, Ok(()))) = run_expect(m, st2, strict, b, ty, pos) {
                law_check_keeps(m, st, scope, strict, e, arrow(a, b));
                if let Some((st, Ok(()))) = run_check(m, st, scope, strict, e, arrow(a, b)) {
                    law_check_keeps(m, st, scope, strict, t, a);
                }
            }
        },
        Term::Switch(exp, cases, default) => {
            lemma_check_switch_keeps(m, st, scope, strict, exp, cases@, default, ty, pos);
        },
        Term::Var(x) => if let Some(x_ty) = in_scope(scope, x@) {
            law_instantiate_keeps(m, st, x_ty, ForallInst::Ptr);
            if let Some((st, inst)) = run_instantiate(m, st, x_ty, ForallInst::Ptr) {
                lemma_expect_keeps(m, st, strict, inst, ty, pos);
            }
        },
        Term::Enum(id) => {
            lemma_expect_keeps(m, st1, strict, enum_of(row_extend(id@, None, a)), ty, pos);
        },
        Term::Record(fields, _) => {
            lemma_check_record_keeps(m, st, scope, strict, false, fields@, ty, pos);
        },
        Term::RecRecord(fields, _) => {
            lemma_bind_fields_keeps(st, scope, strict, fields@, 0);
            let (table, scope) = bind_fields(st.table, scope, strict, fields@, 0);
            let st = St { table, ..st };
            lemma_check_record_keeps(m, st, scope, strict, true, fields@, ty, pos);
        },
        Term::Op1(op, t) => if is_typed_uop(op) {
            lemma_uop_keeps(st, op);
            let (st, arg, res) = uop_type(st, op);
            lemma_expect_keeps(m, st, strict, res, ty, pos);
            if let Some((st, Ok(()))) = run_expect(m, st, strict, res, ty, pos) {
                law_check_keeps(m, st, scope, strict, t, arg);
            }
        },
        Term::Op2(op, t1, t2) => if is_typed_bop(op) {
            lemma_bop_keeps(st, op);
            let (st, arg1, arg2, res) = bop_type(st, op);
            lemma_expect_keeps(m, st, strict, res, ty, pos);
            if let Some((st, Ok(()))) = run_expect(m, st, strict, res, ty, pos) {
                law_check_keeps(m, st, scope, strict, t1, arg1);
                if let Some((st, Ok(()))) = run_check(m, st, scope, strict, t1, arg1) {
                    law_check_keeps(m, st, scope, strict, t2, arg2);
                }
            }
        },
        Term::OpN(op, args) => if is_typed_nop(op) {
            let (types, res) = nop_type(op);
            lemma_expect_keeps(m, st, strict, res, ty, pos);
            if let Some((st, Ok(()))) = run_expect(m, st, strict, res, ty, pos) {
                lemma_check_seq_keeps(m, st, scope, strict, args_against(args@, types), 0);
            }
        },
        Term::Promise(ty2, _, t) => {
            lemma_check_promise_keeps(m, st, scope, strict, ty2@, t, ty, pos);
        },
        Term::Sym(_) => lemma_expect_keeps(m, st, strict, Ty::Sym, ty, pos),
        Term::Wrapped(_, t) => law_check_keeps(m, st, scope, strict, t, ty),
        Term::MetaValue(meta) => lemma_check_meta_keeps(m, st, scope, strict, meta, ty, pos),
        Term::Import(_) => lemma_expect_keeps(m, st, strict, Ty::Dyn, ty, pos),
        Term::ResolvedImport(_) => {},
    }
}

/// An identifier that a row must not contain stays forbidden to it when two types are unified,
/// whatever becomes of the row, unless the unification fails with a conflict.
pub proof fn law_sub_forbids(n: nat, st: St, t1: Ty, t2: Ty, row: Ty, id: Name)
    requires
        run_sub(n, st, t1, t2) is Some,
        is_clear((run_sub(n, st, t1, t2)->0).1),
        is_wf(st.table),
        fits((run_sub(n, st, t1, t2)->0).0.table),
        forbids(st, row, id),
    ensures
        forbids((run_sub(n, st, t1, t2)->0).0, row, id),
{
    reveal(keeps);
    law_sub_keeps(n, st, t1, t2);
}

/// The same, for the unification of two rows.
pub proof fn law_sub_rows_forbids(n: nat, st: St, t1: Ty, t2: Ty, row: Ty, id: Name)
    requires
        run_sub_rows(n, st, t1, t2) is Some,
        is_row_clear((run_sub_rows(n, st, t1, t2)->0).1),
        is_wf(st.table),
        fits((run_sub_rows(n, st, t1, t2)->0).0.table),
        forbids(st, row, id),
    ensures
        forbids((run_sub_rows(n, st, t1, t2)->0).0, row, id),
{
    reveal(keeps);
    law_sub_rows_keeps(n, st, t1, t2);
}

/// The same, for looking for a binding in a row, or adding one.
pub proof fn law_row_add_forbids(
    n: nat,
    st: St,
    id: Name,
    ty: Option<Ty>,
    r: Ty,
    row: Ty,
    other: Name,
)
    requires
        run_row_add(n, st, id, ty, r) is Some,
        is_wf(st.table),
        fits((run_row_add(n, st, id, ty, r)->0).0.table),
        forbids(st, row, other),
    ensures
        forbids((run_row_add(n, st, id, ty, r)->0).0, row, other),
{
    reveal(keeps);
    law_row_add_keeps(n, st, id, ty, r);
}

/// The same, for the instantiation of a type.
pub proof fn law_instantiate_forbids(
    n: nat,
    st: St,
    ty: Ty,
    inst: ForallInst,
    row: Ty,
    id: Name,
)
    requires
        run_instantiate(n, st, ty, inst) is Some,
        is_wf(st.table),
        fits((run_instantiate(n, st, ty, inst)->0).0.table),
        forbids(st, row, id),
    ensures
        forbids((run_instantiate(n, st, ty, inst)->0).0, row, id),
{
    reveal(keeps);
    law_instantiate_keeps(n, st, ty, inst);
}

/// An identifier that a row must not contain stays forbidden to it when a term is typechecked,
/// unless this fails with a conflict.
pub proof fn law_check_forbids(
    n: nat,
    st: St,
    scope: Scope,
    strict: bool,
    rt: RichTerm,
    ty: Ty,
    row: Ty,
    id: Name,
)
    requires
        run_check(n, st, scope, strict, rt, ty) is Some,
        is_check_clear((run_check(n, st, scope, strict, rt, ty)->0).1),
        is_wf(st.table),
        fits((run_check(n, st, scope, strict, rt, ty)->0).0.table),
        forbids(st, row, id),
    ensures
        forbids((run_check(n, st, scope, strict, rt, ty)->0).0, row, id),
{
    reveal(keeps);
    law_check_keeps(n, st, scope, strict, rt, ty);
}

} // verus!
