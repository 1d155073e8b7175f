//! The errors of unification, and the names in the errors that are reported.
use vstd::prelude::*;

use crate::laws::rows::law_constr_unify;
use crate::model::{unbox, CheckErr, Name, RowErr, St, Ty, UErr};
use crate::position::TermPos;
use crate::typecheck::errors::{arrow_err_cause, arrow_err_on_arrows, is_arrow_err, type_path};
use crate::typecheck::naming::{lemma_uniq_name_free, uniq_name};
use crate::typecheck::reporting::{
    name_candidate, no_names, report_cst, report_var, run_report, run_report_err, run_report_opt,
    run_report_pair, with_name, Reg,
};
use crate::typecheck::state::{
    full_row, next_var, run_constraint, run_resolve, run_root, with_var,
};
use crate::typecheck::unify::{
    run_row_add, run_sub, run_sub_concrete, run_sub_dyn_record, run_sub_row_types, run_sub_rows,
    run_sub_tails,
};
use crate::typecheck::wrapper::{is_plain, subst};

verus! {

/// Breaking a `(Co)DomainMismatch` down gives an error that is none, and a path that is not empty.
/// Any other error cannot be broken down.
pub proof fn law_type_path(err: UErr)
    ensures
        type_path(err) is Some <==> is_arrow_err(err),
        type_path(err) matches Some((_, _, path, cause)) ==> !is_arrow_err(cause) && path.len() > 0,
    decreases err,
{
    lemma_cause(err);
}

/// The cause of an error is no `(Co)DomainMismatch`.
proof fn lemma_cause(err: UErr)
    ensures
        !is_arrow_err(arrow_err_cause(err)),
    decreases err,
{
    match err {
        UErr::DomainMismatch(_, _, e) => lemma_cause(*e),
        UErr::CodomainMismatch(_, _, e) => lemma_cause(*e),
        _ => {},
    }
}

/// Whether the `(Co)DomainMismatch` of an error, and of the errors inside it, are between arrow
/// types.
pub open spec fn on_arrows(err: UErr) -> bool
    decreases err,
{
    match err {
        UErr::DomainMismatch(t1, t2, e) => t1 is Arrow && t2 is Arrow && on_arrows(*e),
        UErr::CodomainMismatch(t1, t2, e) => t1 is Arrow && t2 is Arrow && on_arrows(*e),
        UErr::RowMismatch(_, _, _, e) => on_arrows(*e),
        _ => true,
    }
}

/// The same, for an error between rows.
pub open spec fn row_on_arrows(err: RowErr) -> bool {
    err matches RowErr::RowMismatch(_, e) ==> on_arrows(e)
}

/// An error that is between arrow types can be broken down, and so can the errors inside it.
pub proof fn law_on_arrows(err: UErr)
    requires
        on_arrows(err),
    ensures
        arrow_err_on_arrows(err),
        on_arrows(arrow_err_cause(err)),
    decreases err,
{
    match err {
        UErr::DomainMismatch(_, _, e) => law_on_arrows(*e),
        UErr::CodomainMismatch(_, _, e) => law_on_arrows(*e),
        _ => {},
    }
}

/// The errors of looking for a binding in a row are between rows only.
proof fn lemma_row_add_err(n: nat, st: St, id: Name, ty: Option<Ty>, r: Ty)
    requires
        run_row_add(n, st, id, ty, r) is Some,
    ensures
        (run_row_add(n, st, id, ty, r)->0).1 matches Err(err) ==> row_on_arrows(err),
    decreases n,
{
    let m = (n - 1) as nat;
    match run_resolve(m, st.table, r) {
        Some(Ty::RowExtend(id2, _, r2)) => if id != id2 {
            lemma_row_add_err(m, st, id, ty, *r2);
        },
        Some(Ty::Ptr(root)) => {
            if !(st.constr.contains_key(root) && st.constr[root].contains(id)) {
                lemma_constraint_err(m, with_var(st), Ty::Ptr(next_var(st.table)), id);
            }
        },
        _ => {},
    }
}

/// The errors of adding a row constraint are between rows only.
proof fn lemma_constraint_err(n: nat, st: St, ty: Ty, id: Name)
    requires
        run_constraint(n, st, ty, id) is Some,
    ensures
        (run_constraint(n, st, ty, id)->0).1 matches Err(err) ==> row_on_arrows(err),
    decreases n,
{
    let m = (n - 1) as nat;
    match ty {
        Ty::Ptr(p) => match run_root(m, st.table, p) {
            Some(Ty::Ptr(_)) => {},
            Some(Ty::Constant(_)) => {},
            Some(ty) => lemma_constraint_err(m, st, ty, id),
            None => {},
        },
        Ty::RowExtend(id2, _, tail) => if id2 != id {
            lemma_constraint_err(m, st, *tail, id);
        },
        _ => {},
    }
}

/// The errors of unification are such that every `(Co)DomainMismatch` in them is between arrow
/// types: breaking them down never fails.
pub proof fn law_sub_err(n: nat, st: St, t1: Ty, t2: Ty)
    requires
        run_sub(n, st, t1, t2) is Some,
    ensures
        (run_sub(n, st, t1, t2)->0).1 matches Err(err) ==> on_arrows(err),
    decreases n, 3nat,
{
    let m = (n - 1) as nat;
    let r1 = run_resolve(m, st.table, t1)->0;
    let r2 = run_resolve(m, st.table, t2)->0;
    match (r1, r2) {
        (Ty::Ptr(p), _) => if st.constr.contains_key(p) {
            law_constr_unify(st.constr, p, full_row(st.table.dom().len(), st.table, r2));
        },
        (_, Ty::Ptr(p)) => if st.constr.contains_key(p) {
            law_constr_unify(st.constr, p, full_row(st.table.dom().len(), st.table, r1));
        },
        _ => if r1.is_concrete() && r2.is_concrete() {
            lemma_sub_concrete_err(n, st, r1, r2);
        },
    }
}

/// The same, for two concrete types.
proof fn lemma_sub_concrete_err(n: nat, st: St, t1: Ty, t2: Ty)
    requires
        run_sub_concrete(n, st, t1, t2) is Some,
    ensures
        (run_sub_concrete(n, st, t1, t2)->0).1 matches Err(err) ==> on_arrows(err),
    decreases n, 1nat,
{
    let m = (n - 1) as nat;
    match (t1, t2) {
        (_, Ty::Dyn) => {},
        (Ty::List(a), Ty::List(b)) => law_sub_err(m, st, *a, *b),
        (Ty::Arrow(s1, r1), Ty::Arrow(s2, r2)) => {
            law_sub_err(m, st, *s2, *s1);
            if let Some((st, Ok(()))) = run_sub(m, st, *s2, *s1) {
                law_sub_err(m, st, *r1, *r2);
            }
        },
        (Ty::Flat(s), Ty::Flat(t)) => {},
        (Ty::Enum(a), Ty::Enum(b)) => lemma_sub_row_types_err(n, st, *a, *b, t1, t2),
        (Ty::StaticRecord(a), Ty::StaticRecord(b)) => {
            lemma_sub_row_types_err(n, st, *a, *b, t1, t2)
        },
        (Ty::DynRecord(a), Ty::DynRecord(b)) => law_sub_err(m, st, *a, *b),
        (Ty::StaticRecord(a), Ty::DynRecord(b)) => lemma_sub_dyn_record_err(m, st, *a, *b),
        (Ty::Forall(i1, a), Ty::Forall(i2, b)) => {
            let c = Ty::Constant(next_var(st.table));
            law_sub_err(m, with_var(st), subst(*a, i1, c), subst(*b, i2, c));
        },
        _ => if t1.is_row() && t2.is_row() {
            lemma_sub_rows_err(m, st, t1, t2);
        },
    }
}

/// The same, for the rows of two enum or record types.
proof fn lemma_sub_row_types_err(n: nat, st: St, a: Ty, b: Ty, t1: Ty, t2: Ty)
    requires
        run_sub_row_types(n, st, a, b, t1, t2) is Some,
    ensures
        (run_sub_row_types(n, st, a, b, t1, t2)->0).1 matches Err(err) ==> on_arrows(err),
    decreases n, 0nat,
{
    let m = (n - 1) as nat;
    if a.is_row() && b.is_row() {
        lemma_sub_rows_err(m, st, a, b);
    } else if a.is_concrete() && !a.is_row() {
    } else if b.is_concrete() && !b.is_row() {
    } else {
        law_sub_err(m, st, a, b);
    }
}

/// The same, for two rows.
proof fn lemma_sub_rows_err(n: nat, st: St, t1: Ty, t2: Ty)
    requires
        run_sub_rows(n, st, t1, t2) is Some,
    ensures
        (run_sub_rows(n, st, t1, t2)->0).1 matches Err(err) ==> row_on_arrows(err),
    decreases n, 1nat,
{
    let m = (n - 1) as nat;
    if let (Ty::RowExtend(id, ty, tail), Ty::RowExtend(_, _, _)) = (t1, t2) {
        lemma_row_add_err(m, st, id, unbox(ty), t2);
        if let Some((st, Ok((ty2, tail2)))) = run_row_add(m, st, id, unbox(ty), t2) {
            match (unbox(ty), ty2) {
                (None, None) => lemma_sub_tails_err(n, st, *tail, tail2),
                (Some(a), Some(b)) => {
                    law_sub_err(m, st, a, b);
                    if let Some((st, Ok(()))) = run_sub(m, st, a, b) {
                        lemma_sub_tails_err(n, st, *tail, tail2);
                    }
                },
                _ => {},
            }
        }
    }
}

/// The same, for the tails of two rows.
proof fn lemma_sub_tails_err(n: nat, st: St, t1: Ty, t2: Ty)
    requires
        run_sub_tails(n, st, t1, t2) is Some,
    ensures
        (run_sub_tails(n, st, t1, t2)->0).1 matches Err(err) ==> row_on_arrows(err),
    decreases n, 0nat,
{
    let m = (n - 1) as nat;
    if t1.is_concrete() && t2.is_concrete() {
        lemma_sub_rows_err(m, st, t1, t2);
    } else {
        law_sub_err(m, st, t1, t2);
    }
}

/// The same, for a row and a dictionary type.
proof fn lemma_sub_dyn_record_err(n: nat, st: St, row: Ty, ty: Ty)
    requires
        run_sub_dyn_record(n, st, row, ty) is Some,
    ensures
        (run_sub_dyn_record(n, st, row, ty)->0).1 matches Err(err) ==> row_on_arrows(err),
    decreases n, 0nat,
{
    let m = (n - 1) as nat;
    if let Ty::RowExtend(id, Some(a), tail) = row {
        law_sub_err(m, st, *a, ty);
        if let Some((st, Ok(()))) = run_sub(m, st, *a, ty) {
            lemma_sub_dyn_record_err(m, st, *tail, ty);
        }
    }
}

/// The position of an error.
pub open spec fn err_pos(err: CheckErr) -> Option<TermPos> {
    match err {
        CheckErr::UnboundIdentifier(_, pos) => Some(pos),
        CheckErr::IllformedType(_) => None,
        CheckErr::MissingRow(_, _, _, pos) => Some(pos),
        CheckErr::MissingDynTail(_, _, pos) => Some(pos),
        CheckErr::ExtraRow(_, _, _, pos) => Some(pos),
        CheckErr::ExtraDynTail(_, _, pos) => Some(pos),
        CheckErr::UnboundTypeVariable(_, pos) => Some(pos),
        CheckErr::TypeMismatch(_, _, pos) => Some(pos),
        CheckErr::RowKindMismatch(_, _, _, pos) => Some(pos),
        CheckErr::ArrowTypeMismatch(_, _, _, _, pos) => Some(pos),
        CheckErr::RowMismatch(_, _, _, _, pos) => Some(pos),
        CheckErr::RowConflict(_, _, _, _, pos) => Some(pos),
    }
}

/// An error is reported at the position of the expression that failed to typecheck, unless it is
/// about an ill-formed type, which has none.
pub proof fn law_report_err_pos(n: nat, st: St, reg: Reg, err: UErr, pos: TermPos)
    requires
        run_report_err(n, st, reg, err, pos) is Some,
    ensures
        ({
            let (_, err2) = run_report_err(n, st, reg, err, pos)->0;
            err2 is IllformedType || err_pos(err2) == Some(pos)
        }),
{
}

/// Whether a registry gives distinct names to distinct variables and constants, all of them taken.
pub open spec fn distinct_names(reg: Reg) -> bool {
    &&& reg.taken.finite()
    &&& forall|p: usize| #[trigger] reg.reg.contains_key(p) ==> reg.taken.contains(reg.reg[p])
    &&& forall|p: usize, q: usize|
        #![trigger reg.reg.contains_key(p), reg.reg.contains_key(q)]
        reg.reg.contains_key(p) && reg.reg.contains_key(q) && p != q ==> reg.reg[p] != reg.reg[q]
}

/// Whether a registry has all the names of another.
pub open spec fn keeps_names(reg: Reg, reg2: Reg) -> bool {
    forall|p: usize| #[trigger]
        reg.reg.contains_key(p) ==> reg2.reg.contains_key(p) && reg2.reg[p] == reg.reg[p]
}

/// The registry without names gives distinct names.
pub proof fn law_no_names()
    ensures
        distinct_names(no_names()),
{
}

/// A name that is selected is distinct from all those that were given before.
proof fn lemma_with_name(reg: Reg, name: Name, p: usize)
    requires
        distinct_names(reg),
        !reg.reg.contains_key(p),
    ensures
        distinct_names(with_name(reg, uniq_name(reg.taken, name), p)),
        keeps_names(reg, with_name(reg, uniq_name(reg.taken, name), p)),
{
    lemma_uniq_name_free(reg.taken, name);
}

/// The name of a variable is the same each time, and distinct from those of the others.
pub proof fn law_var_name(names: Map<usize, Name>, reg: Reg, p: usize)
    requires
        distinct_names(reg),
        report_var(names, reg, p) is Some,
    ensures
        ({
            let (reg2, ty) = report_var(names, reg, p)->0;
            &&& distinct_names(reg2)
            &&& keeps_names(reg, reg2)
            &&& reg2.reg.contains_key(p)
            &&& ty == Ty::Var(reg2.reg[p])
        }),
{
    if !reg.reg.contains_key(p) {
        let (var_count, name) = name_candidate(names, reg.var_count, p)->0;
        lemma_with_name(Reg { var_count, ..reg }, "_"@ + name, p);
    }
}

/// The name of a constant is the same each time, and distinct from those of the others.
pub proof fn law_cst_name(names: Map<usize, Name>, reg: Reg, c: usize)
    requires
        distinct_names(reg),
        report_cst(names, reg, c) is Some,
    ensures
        ({
            let (reg2, ty) = report_cst(names, reg, c)->0;
            &&& distinct_names(reg2)
            &&& keeps_names(reg, reg2)
            &&& reg2.reg.contains_key(c)
            &&& ty == Ty::Var(reg2.reg[c])
        }),
{
    if !reg.reg.contains_key(c) {
        let (cst_count, name) = name_candidate(names, reg.cst_count, c)->0;
        lemma_with_name(Reg { cst_count, ..reg }, name, c);
    }
}

/// A reported type has neither variables nor constants in it, and reporting it keeps the names
/// distinct.
pub proof fn law_report_names(n: nat, st: St, reg: Reg, ty: Ty)
    requires
        distinct_names(reg),
        run_report(n, st, reg, ty) is Some,
    ensures
        ({
            let (reg2, ty2) = run_report(n, st, reg, ty)->0;
            distinct_names(reg2) && keeps_names(reg, reg2) && is_plain(ty2)
        }),
    decreases n,
{
    let m = (n - 1) as nat;
    match ty {
        Ty::Ptr(p) => match run_root(m, st.table, p) {
            Some(Ty::Ptr(p)) => law_var_name(st.names, reg, p),
            Some(ty) => law_report_names(m, st, reg, ty),
            None => {},
        },
        Ty::Constant(c) => law_cst_name(st.names, reg, c),
        Ty::Arrow(s, t) => {
            law_report_names(m, st, reg, *s);
            law_report_names(m, st, (run_report(m, st, reg, *s)->0).0, *t);
        },
        Ty::RowExtend(id, Some(t), tail) => {
            law_report_names(m, st, reg, *t);
            law_report_names(m, st, (run_report(m, st, reg, *t)->0).0, *tail);
        },
        Ty::RowExtend(id, None, tail) => law_report_names(m, st, reg, *tail),
        Ty::Forall(_, t) => law_report_names(m, st, reg, *t),
        Ty::Enum(t) => law_report_names(m, st, reg, *t),
        Ty::StaticRecord(t) => law_report_names(m, st, reg, *t),
        Ty::DynRecord(t) => law_report_names(m, st, reg, *t),
        Ty::List(t) => law_report_names(m, st, reg, *t),
        _ => {},
    }
}

/// The same, for two types one after the other.
proof fn lemma_report_pair_names(n: nat, st: St, reg: Reg, t1: Ty, t2: Ty)
    requires
        distinct_names(reg),
        run_report_pair(n, st, reg, t1, t2) is Some,
    ensures
        ({
            let (reg2, _, _) = run_report_pair(n, st, reg, t1, t2)->0;
            distinct_names(reg2) && keeps_names(reg, reg2)
        }),
{
    law_report_names(n, st, reg, t1);
    law_report_names(n, st, (run_report(n, st, reg, t1)->0).0, t2);
}

/// The same, for an optional type.
proof fn lemma_report_opt_names(n: nat, st: St, reg: Reg, ty: Option<Ty>)
    requires
        distinct_names(reg),
        run_report_opt(n, st, reg, ty) is Some,
    ensures
        ({
            let (reg2, _) = run_report_opt(n, st, reg, ty)->0;
            distinct_names(reg2) && keeps_names(reg, reg2)
        }),
{
    if let Some(ty) = ty {
        law_report_names(n, st, reg, ty);
    }
}

/// Reporting an error keeps the names distinct: all the types of an error are reported with the
/// same names.
pub proof fn law_report_err_names(n: nat, st: St, reg: Reg, err: UErr, pos: TermPos)
    requires
        distinct_names(reg),
        run_report_err(n, st, reg, err, pos) is Some,
    ensures
        ({
            let (reg2, _) = run_report_err(n, st, reg, err, pos)->0;
            distinct_names(reg2) && keeps_names(reg, reg2)
        }),
    decreases n,
{
    let m = (n - 1) as nat;
    match err {
        UErr::TypeMismatch(t1, t2) => lemma_report_pair_names(m, st, reg, t1, t2),
        UErr::RowMismatch(id, t1, t2, err) => {
            lemma_report_pair_names(m, st, reg, t1, t2);
            let reg = (run_report_pair(m, st, reg, t1, t2)->0).0;
            law_report_err_names(m, st, reg, *err, TermPos::Generated);
        },
        UErr::RowKindMismatch(id, t1, t2) => {
            lemma_report_opt_names(m, st, reg, t1);
            lemma_report_opt_names(m, st, (run_report_opt(m, st, reg, t1)->0).0, t2);
        },
        UErr::ConstMismatch(c1, c2) => {
            lemma_report_pair_names(m, st, reg, Ty::Constant(c1), Ty::Constant(c2));
        },
        UErr::WithConst(c, ty) => lemma_report_pair_names(m, st, reg, Ty::Constant(c), ty),
        UErr::IllformedFlatType(_) => {},
        UErr::IllformedType(ty) => law_report_names(m, st, reg, ty),
        UErr::MissingRow(_, t1, t2) => lemma_report_pair_names(m, st, reg, t1, t2),
        UErr::MissingDynTail(t1, t2) => lemma_report_pair_names(m, st, reg, t1, t2),
        UErr::ExtraRow(_, t1, t2) => lemma_report_pair_names(m, st, reg, t1, t2),
        UErr::ExtraDynTail(t1, t2) => lemma_report_pair_names(m, st, reg, t1, t2),
        UErr::IllformedRow(ty) => law_report_names(m, st, reg, ty),
        UErr::RowConflict(id, ty, t1, t2) => {
            lemma_report_opt_names(m, st, reg, ty);
            let reg = (run_report_opt(m, st, reg, ty)->0).0;
            lemma_report_pair_names(m, st, reg, t1, t2);
        },
        UErr::UnboundTypeVariable(_) => {},
        _ => {
            let (t1, t2, path, cause) = type_path(err)->0;
            lemma_report_pair_names(m, st, reg, t1, t2);
            let reg = (run_report_pair(m, st, reg, t1, t2)->0).0;
            law_report_err_names(m, st, reg, cause, TermPos::Generated);
        },
    }
}

} // verus!
