//! The bound on nested calls only decides whether a run returns: one that returns within a bound
//! returns the same within every larger bound.
use vstd::prelude::*;

use crate::identifier::Ident;
use crate::model::{
    arrow, enum_of, list_of, record_of, row_extend, unbox, Name, St, Table, Ty, UErr,
};
use crate::position::{FileId, TermPos};
use crate::term::{MetaValue, RichTerm, Term};
use crate::typecheck::check::{
    all_against, args_against, bind_fields, cases_row, chunks_against, fields_against, run_check,
    run_check_fields, run_check_meta, run_check_promise, run_check_record, run_check_seq,
    run_check_switch, run_check_switched, run_expect, run_to_type, run_type_check,
};
use crate::typecheck::envs::{bound_ty, global_scope, in_scope, with_local, Scope};
use crate::typecheck::errors::type_path;
use crate::typecheck::instantiate::{
    head_foralls, instance, lemma_subst_head_foralls, run_instantiate, run_instantiate_heads,
    ForallInst,
};
use crate::typecheck::ops::{bop_type, is_typed_bop, is_typed_nop, is_typed_uop, nop_type, uop_type};
use crate::typecheck::reporting::{
    no_names, run_report, run_report_err, run_report_opt, run_report_pair, Reg,
};
use crate::typecheck::state::{
    initial, next_var, run_constrain_var, run_constraint, run_resolve, run_root, with_var,
};
use crate::typecheck::unify::{
    run_row_add, run_sub, run_sub_concrete, run_sub_dyn_record, run_sub_roots, run_sub_row_types,
    run_sub_rows, run_sub_tails,
};
use crate::typecheck::wrapper::subst;

verus! {

/// A representative found within a bound is the one found within a larger bound.
pub proof fn law_root_depth(n: nat, m: nat, table: Table, x: usize)
    requires
        n <= m,
        run_root(n, table, x) is Some,
    ensures
        run_root(m, table, x) == run_root(n, table, x),
    decreases n,
{
    if let Some(Ty::Ptr(y)) = table[x] {
        law_root_depth((n - 1) as nat, (m - 1) as nat, table, y);
    }
}

/// The representative of a type found within a bound is the one found within a larger bound.
pub proof fn law_resolve_depth(n: nat, m: nat, table: Table, ty: Ty)
    requires
        n <= m,
        run_resolve(n, table, ty) is Some,
    ensures
        run_resolve(m, table, ty) == run_resolve(n, table, ty),
{
    if let Ty::Ptr(p) = ty {
        law_root_depth(n, m, table, p);
    }
}

/// A row constraint added within a bound is the one added within a larger bound.
pub proof fn law_constraint_depth(n: nat, m: nat, st: St, ty: Ty, id: Name)
    requires
        n <= m,
        run_constraint(n, st, ty, id) is Some,
    ensures
        run_constraint(m, st, ty, id) == run_constraint(n, st, ty, id),
    decreases n,
{
    let (n1, m1) = ((n - 1) as nat, (m - 1) as nat);
    match ty {
        Ty::Ptr(p) => {
            law_root_depth(n1, m1, st.table, p);
            match run_root(n1, st.table, p) {
                Some(Ty::Ptr(_)) => {},
                Some(Ty::Constant(_)) => {},
                Some(ty) => law_constraint_depth(n1, m1, st, ty, id),
                None => {},
            }
        },
        Ty::RowExtend(id2, _, tail) => if id2 != id {
            law_constraint_depth(n1, m1, st, *tail, id);
        },
        _ => {},
    }
}

/// The row constraints of a new variable added within a bound are those added within a larger
/// bound.
pub proof fn law_constrain_var_depth(n: nat, m: nat, st: St, ids: Set<Name>, ty: Ty, p: usize)
    requires
        n <= m,
        run_constrain_var(n, st, ids, ty, p) is Some,
    ensures
        run_constrain_var(m, st, ids, ty, p) == run_constrain_var(n, st, ids, ty, p),
    decreases n,
{
    let (n1, m1) = ((n - 1) as nat, (m - 1) as nat);
    let none = Set::<Name>::empty();
    match ty {
        Ty::Ptr(u) => if !(p == u && ids != none) {
            law_root_depth(n1, m1, st.table, u);
            match run_root(n1, st.table, u) {
                Some(Ty::Ptr(_)) => {},
                Some(ty) => law_constrain_var_depth(n1, m1, st, ids, ty, p),
                None => {},
            }
        },
        Ty::Arrow(s, t) => {
            law_constrain_var_depth(n1, m1, st, none, *s, p);
            let st = run_constrain_var(n1, st, none, *s, p)->0;
            law_constrain_var_depth(n1, m1, st, none, *t, p);
        },
        Ty::Forall(_, t) => law_constrain_var_depth(n1, m1, st, none, *t, p),
        Ty::List(t) => law_constrain_var_depth(n1, m1, st, none, *t, p),
        Ty::RowExtend(id, t, rest) => {
            let ids = ids.insert(id);
            match t {
                None => law_constrain_var_depth(n1, m1, st, ids, *rest, p),
                Some(t) => {
                    law_constrain_var_depth(n1, m1, st, none, *t, p);
                    let st = run_constrain_var(n1, st, none, *t, p)->0;
                    law_constrain_var_depth(n1, m1, st, ids, *rest, p);
                },
            }
        },
        Ty::Enum(row) => law_constrain_var_depth(n1, m1, st, ids, *row, p),
        Ty::StaticRecord(row) => law_constrain_var_depth(n1, m1, st, ids, *row, p),
        Ty::DynRecord(t) => law_constrain_var_depth(n1, m1, st, ids, *t, p),
        _ => {},
    }
}

/// A binding found in a row, or added to it, within a bound is the one of a larger bound.
pub proof fn law_row_add_depth(n: nat, m: nat, st: St, id: Name, ty: Option<Ty>, r: Ty)
    requires
        n <= m,
        run_row_add(n, st, id, ty, r) is Some,
    ensures
        run_row_add(m, st, id, ty, r) == run_row_add(n, st, id, ty, r),
    decreases n,
{
    let (n1, m1) = ((n - 1) as nat, (m - 1) as nat);
    law_resolve_depth(n1, m1, st.table, r);
    match run_resolve(n1, st.table, r) {
        Some(Ty::RowExtend(id2, ty2, r2)) => if id != id2 {
            law_row_add_depth(n1, m1, st, id, ty, *r2);
        },
        Some(Ty::Ptr(root)) => if !(st.constr.contains_key(root) && st.constr[root].contains(id)) {
            law_constraint_depth(n1, m1, with_var(st), Ty::Ptr(next_var(st.table)), id);
        },
        _ => {},
    }
}

/// A unification that returns within a bound returns the same within a larger bound.
pub proof fn law_sub_depth(n: nat, m: nat, st: St, t1: Ty, t2: Ty)
    requires
        n <= m,
        run_sub(n, st, t1, t2) is Some,
    ensures
        run_sub(m, st, t1, t2) == run_sub(n, st, t1, t2),
    decreases n, 3nat,
{
    let (n1, m1) = ((n - 1) as nat, (m - 1) as nat);
    law_resolve_depth(n1, m1, st.table, t1);
    law_resolve_depth(n1, m1, st.table, t2);
    let r1 = run_resolve(n1, st.table, t1)->0;
    let r2 = run_resolve(n1, st.table, t2)->0;
    lemma_sub_roots_depth(n, m, st, r1, r2);
}

/// The same, for two types that are their own representatives.
proof fn lemma_sub_roots_depth(n: nat, m: nat, st: St, t1: Ty, t2: Ty)
    requires
        n <= m,
        run_sub_roots(n, st, t1, t2) is Some,
    ensures
        run_sub_roots(m, st, t1, t2) == run_sub_roots(n, st, t1, t2),
    decreases n, 2nat,
{
    if t1.is_concrete() && t2.is_concrete() {
        lemma_sub_concrete_depth(n, m, st, t1, t2);
    }
}

/// The same, for two concrete types.
proof fn lemma_sub_concrete_depth(n: nat, m: nat, st: St, t1: Ty, t2: Ty)
    requires
        n <= m,
        run_sub_concrete(n, st, t1, t2) is Some,
    ensures
        run_sub_concrete(m, st, t1, t2) == run_sub_concrete(n, st, t1, t2),
    decreases n, 1nat,
{
    let (n1, m1) = ((n - 1) as nat, (m - 1) as nat);
    match (t1, t2) {
        (_, Ty::Dyn) => {},
        (Ty::List(a), Ty::List(b)) => law_sub_depth(n1, m1, st, *a, *b),
        (Ty::Arrow(s1, r1), Ty::Arrow(s2, r2)) => {
            law_sub_depth(n1, m1, st, *s2, *s1);
            if let Some((st, Ok(()))) = run_sub(n1, st, *s2, *s1) {
                law_sub_depth(n1, m1, st, *r1, *r2);
            }
        },
        (Ty::Flat(s), Ty::Flat(t)) => {},
        (Ty::Enum(a), Ty::Enum(b)) => lemma_sub_row_types_depth(n, m, st, *a, *b, t1, t2),
        (Ty::StaticRecord(a), Ty::StaticRecord(b)) => {
            lemma_sub_row_types_depth(n, m, st, *a, *b, t1, t2)
        },
        (Ty::DynRecord(a), Ty::DynRecord(b)) => law_sub_depth(n1, m1, st, *a, *b),
        (Ty::StaticRecord(a), Ty::DynRecord(b)) => {
            law_sub_dyn_record_depth(n1, m1, st, *a, *b);
        },
        (Ty::Forall(i1, a), Ty::Forall(i2, b)) => {
            let c = Ty::Constant(next_var(st.table));
            law_sub_depth(n1, m1, with_var(st), subst(*a, i1, c), subst(*b, i2, c));
        },
        _ => if t1.is_row() && t2.is_row() {
            law_sub_rows_depth(n1, m1, st, t1, t2);
        },
    }
}

/// The same, for the rows of two enum or record types.
proof fn lemma_sub_row_types_depth(n: nat, m: nat, st: St, a: Ty, b: Ty, t1: Ty, t2: Ty)
    requires
        n <= m,
        run_sub_row_types(n, st, a, b, t1, t2) is Some,
    ensures
        run_sub_row_types(m, st, a, b, t1, t2) == run_sub_row_types(n, st, a, b, t1, t2),
    decreases n, 0nat,
{
    let (n1, m1) = ((n - 1) as nat, (m - 1) as nat);
    if a.is_row() && b.is_row() {
        law_sub_rows_depth(n1, m1, st, a, b);
    } else if a.is_concrete() && !a.is_row() {
    } else if b.is_concrete() && !b.is_row() {
    } else {
        law_sub_depth(n1, m1, st, a, b);
    }
}

/// A unification of two rows that returns within a bound returns the same within a larger bound.
pub proof fn law_sub_rows_depth(n: nat, m: nat, st: St, t1: Ty, t2: Ty)
    requires
        n <= m,
        run_sub_rows(n, st, t1, t2) is Some,
    ensures
        run_sub_rows(m, st, t1, t2) == run_sub_rows(n, st, t1, t2),
    decreases n, 1nat,
{
    let (n1, m1) = ((n - 1) as nat, (m - 1) as nat);
    if let (Ty::RowExtend(id, ty, tail), Ty::RowExtend(_, _, _)) = (t1, t2) {
        law_row_add_depth(n1, m1, st, id, unbox(ty), t2);
        if let Some((st, Ok((ty2, tail2)))) = run_row_add(n1, st, id, unbox(ty), t2) {
            match (unbox(ty), ty2) {
                (None, None) => lemma_sub_tails_depth(n, m, st, *tail, tail2),
                (Some(a), Some(b)) => {
                    law_sub_depth(n1, m1, st, a, b);
                    if let Some((st, Ok(()))) = run_sub(n1, st, a, b) {
                        lemma_sub_tails_depth(n, m, st, *tail, tail2);
                    }
                },
                _ => {},
            }
        }
    }
}

/// The same, for the tails of two rows.
proof fn lemma_sub_tails_depth(n: nat, m: nat, st: St, t1: Ty, t2: Ty)
    requires
        n <= m,
        run_sub_tails(n, st, t1, t2) is Some,
    ensures
        run_sub_tails(m, st, t1, t2) == run_sub_tails(n, st, t1, t2),
    decreases n, 0nat,
{
    let (n1, m1) = ((n - 1) as nat, (m - 1) as nat);
    if t1.is_concrete() && t2.is_concrete() {
        law_sub_rows_depth(n1, m1, st, t1, t2);
    } else {
        law_resolve_depth(n1, m1, st.table, t1);
        law_resolve_depth(n1, m1, st.table, t2);
        law_sub_depth(n1, m1, st, t1, t2);
    }
}

/// A unification of a row with a dictionary type that returns within a bound returns the same
/// within a larger bound.
pub proof fn law_sub_dyn_record_depth(n: nat, m: nat, st: St, row: Ty, ty: Ty)
    requires
        n <= m,
        run_sub_dyn_record(n, st, row, ty) is Some,
    ensures
        run_sub_dyn_record(m, st, row, ty) == run_sub_dyn_record(n, st, row, ty),
    decreases n, 0nat,
{
    let (n1, m1) = ((n - 1) as nat, (m - 1) as nat);
    match row {
        Ty::Dyn => law_sub_depth(n1, m1, st, Ty::Dyn, ty),
        Ty::RowExtend(id, Some(a), tail) => {
            law_sub_depth(n1, m1, st, *a, ty);
            if let Some((st, Ok(()))) = run_sub(n1, st, *a, ty) {
                law_sub_dyn_record_depth(n1, m1, st, *tail, ty);
            }
        },
        _ => {},
    }
}

/// An instantiation that returns within a bound returns the same within a larger bound.
pub proof fn law_instantiate_depth(n: nat, m: nat, st: St, ty: Ty, inst: ForallInst)
    requires
        n <= m,
        run_instantiate(n, st, ty, inst) is Some,
    ensures
        run_instantiate(m, st, ty, inst) == run_instantiate(n, st, ty, inst),
{
    let (n1, m1) = ((n - 1) as nat, (m - 1) as nat);
    law_resolve_depth(n1, m1, st.table, ty);
    lemma_instantiate_heads_depth(n1, m1, st, run_resolve(n1, st.table, ty)->0, inst);
}

/// The same, for the quantifiers in head position of a type.
proof fn lemma_instantiate_heads_depth(n: nat, m: nat, st: St, ty: Ty, inst: ForallInst)
    requires
        n <= m,
        run_instantiate_heads(n, st, ty, inst) is Some,
    ensures
        run_instantiate_heads(m, st, ty, inst) == run_instantiate_heads(n, st, ty, inst),
    decreases head_foralls(ty),
{
    if let Ty::Forall(id, body) = ty {
        let fresh_id = next_var(st.table);
        lemma_subst_head_foralls(*body, id, instance(inst, fresh_id));
        let ty = subst(*body, id, instance(inst, fresh_id));
        let st = with_var(st);
        let st = St { names: st.names.insert(fresh_id, id), ..st };
        match inst {
            ForallInst::Constant => lemma_instantiate_heads_depth(n, m, st, ty, inst),
            ForallInst::Ptr => {
                law_constrain_var_depth(n, m, st, Set::empty(), ty, fresh_id);
                let st = run_constrain_var(n, st, Set::empty(), ty, fresh_id)->0;
                lemma_instantiate_heads_depth(n, m, st, ty, inst);
            },
        }
    }
}

/// A type reported within a bound is the one reported within a larger bound.
pub proof fn law_report_depth(n: nat, m: nat, st: St, reg: Reg, ty: Ty)
    requires
        n <= m,
        run_report(n, st, reg, ty) is Some,
    ensures
        run_report(m, st, reg, ty) == run_report(n, st, reg, ty),
    decreases n,
{
    let (n1, m1) = ((n - 1) as nat, (m - 1) as nat);
    match ty {
        Ty::Ptr(p) => {
            law_root_depth(n1, m1, st.table, p);
            match run_root(n1, st.table, p) {
                Some(Ty::Ptr(_)) => {},
                Some(ty) => law_report_depth(n1, m1, st, reg, ty),
                None => {},
            }
        },
        Ty::Arrow(s, t) => {
            law_report_depth(n1, m1, st, reg, *s);
            law_report_depth(n1, m1, st, (run_report(n1, st, reg, *s)->0).0, *t);
        },
        Ty::RowExtend(id, Some(t), tail) => {
            law_report_depth(n1, m1, st, reg, *t);
            law_report_depth(n1, m1, st, (run_report(n1, st, reg, *t)->0).0, *tail);
        },
        Ty::RowExtend(id, None, tail) => law_report_depth(n1, m1, st, reg, *tail),
        Ty::Forall(_, t) => law_report_depth(n1, m1, st, reg, *t),
        Ty::Enum(t) => law_report_depth(n1, m1, st, reg, *t),
        Ty::StaticRecord(t) => law_report_depth(n1, m1, st, reg, *t),
        Ty::DynRecord(t) => law_report_depth(n1, m1, st, reg, *t),
        Ty::List(t) => law_report_depth(n1, m1, st, reg, *t),
        _ => {},
    }
}

/// The same, for two types one after the other.
proof fn lemma_report_pair_depth(n: nat, m: nat, st: St, reg: Reg, t1: Ty, t2: Ty)
    requires
        n <= m,
        run_report_pair(n, st, reg, t1, t2) is Some,
    ensures
        run_report_pair(m, st, reg, t1, t2) == run_report_pair(n, st, reg, t1, t2),
{
    law_report_depth(n, m, st, reg, t1);
    law_report_depth(n, m, st, (run_report(n, st, reg, t1)->0).0, t2);
}

/// The same, for an optional type.
proof fn lemma_report_opt_depth(n: nat, m: nat, st: St, reg: Reg, ty: Option<Ty>)
    requires
        n <= m,
        run_report_opt(n, st, reg, ty) is Some,
    ensures
        run_report_opt(m, st, reg, ty) == run_report_opt(n, st, reg, ty),
{
    if let Some(ty) = ty {
        law_report_depth(n, m, st, reg, ty);
    }
}

/// An error reported within a bound is the one reported within a larger bound.
pub proof fn law_report_err_depth(n: nat, m: nat, st: St, reg: Reg, err: UErr, pos: TermPos)
    requires
        n <= m,
        run_report_err(n, st, reg, err, pos) is Some,
    ensures
        run_report_err(m, st, reg, err, pos) == run_report_err(n, st, reg, err, pos),
    decreases n,
{
    let (n1, m1) = ((n - 1) as nat, (m - 1) as nat);
    match err {
        UErr::TypeMismatch(t1, t2) => lemma_report_pair_depth(n1, m1, st, reg, t1, t2),
        UErr::RowMismatch(id, t1, t2, err) => {
            lemma_report_pair_depth(n1, m1, st, reg, t1, t2);
            let reg = (run_report_pair(n1, st, reg, t1, t2)->0).0;
            law_report_err_depth(n1, m1, st, reg, *err, TermPos::Generated);
        },
        UErr::RowKindMismatch(id, t1, t2) => {
            lemma_report_opt_depth(n1, m1, st, reg, t1);
            lemma_report_opt_depth(n1, m1, st, (run_report_opt(n1, st, reg, t1)->0).0, t2);
        },
        UErr::ConstMismatch(c1, c2) => {
            lemma_report_pair_depth(n1, m1, st, reg, Ty::Constant(c1), Ty::Constant(c2));
        },
        UErr::WithConst(c, ty) => {
            lemma_report_pair_depth(n1, m1, st, reg, Ty::Constant(c), ty);
        },
        UErr::IllformedFlatType(_) => {},
        UErr::IllformedType(ty) => law_report_depth(n1, m1, st, reg, ty),
        UErr::MissingRow(_, t1, t2) => lemma_report_pair_depth(n1, m1, st, reg, t1, t2),
        UErr::MissingDynTail(t1, t2) => lemma_report_pair_depth(n1, m1, st, reg, t1, t2),
        UErr::ExtraRow(_, t1, t2) => lemma_report_pair_depth(n1, m1, st, reg, t1, t2),
        UErr::ExtraDynTail(t1, t2) => lemma_report_pair_depth(n1, m1, st, reg, t1, t2),
        UErr::IllformedRow(ty) => law_report_depth(n1, m1, st, reg, ty),
        UErr::RowConflict(id, ty, t1, t2) => {
            lemma_report_opt_depth(n1, m1, st, reg, ty);
            let reg = (run_report_opt(n1, st, reg, ty)->0).0;
            lemma_report_pair_depth(n1, m1, st, reg, t1, t2);
        },
        UErr::UnboundTypeVariable(_) => {},
        _ => {
            let (t1, t2, path, cause) = type_path(err)->0;
            lemma_report_pair_depth(n1, m1, st, reg, t1, t2);
            let reg = (run_report_pair(n1, st, reg, t1, t2)->0).0;
            law_report_err_depth(n1, m1, st, reg, cause, TermPos::Generated);
        },
    }
}

/// A type extracted within a bound is the one extracted within a larger bound.
pub proof fn law_to_type_depth(n: nat, m: nat, table: Table, ty: Ty)
    requires
        n <= m,
        run_to_type(n, table, ty) is Some,
    ensures
        run_to_type(m, table, ty) == run_to_type(n, table, ty),
    decreases n,
{
    let (n1, m1) = ((n - 1) as nat, (m - 1) as nat);
    match ty {
        Ty::Ptr(p) => {
            law_root_depth(n1, m1, table, p);
            match run_root(n1, table, p) {
                Some(Ty::Ptr(_)) => {},
                Some(Ty::Constant(_)) => {},
                Some(ty) => law_to_type_depth(n1, m1, table, ty),
                None => {},
            }
        },
        Ty::Arrow(s, t) => {
            law_to_type_depth(n1, m1, table, *s);
            law_to_type_depth(n1, m1, table, *t);
        },
        Ty::RowExtend(_, Some(t), tail) => {
            law_to_type_depth(n1, m1, table, *t);
            law_to_type_depth(n1, m1, table, *tail);
        },
        Ty::RowExtend(_, None, tail) => law_to_type_depth(n1, m1, table, *tail),
        Ty::Forall(_, t) => law_to_type_depth(n1, m1, table, *t),
        Ty::Enum(t) => law_to_type_depth(n1, m1, table, *t),
        Ty::StaticRecord(t) => law_to_type_depth(n1, m1, table, *t),
        Ty::DynRecord(t) => law_to_type_depth(n1, m1, table, *t),
        Ty::List(t) => law_to_type_depth(n1, m1, table, *t),
        _ => {},
    }
}

/// Unifying in strict mode, and reporting the error, returns the same within a larger bound.
proof fn lemma_expect_depth(n: nat, m: nat, st: St, strict: bool, t1: Ty, t2: Ty, pos: TermPos)
    requires
        n <= m,
        run_expect(n, st, strict, t1, t2, pos) is Some,
    ensures
        run_expect(m, st, strict, t1, t2, pos) == run_expect(n, st, strict, t1, t2, pos),
{
    reveal(run_expect);
    if strict {
        law_sub_depth(n, m, st, t1, t2);
        if let Some((st, Err(err))) = run_sub(n, st, t1, t2) {
            law_report_err_depth(n, m, st, no_names(), err, pos);
        }
    }
}

/// Typechecking a sequence of terms returns the same within a larger bound.
proof fn lemma_check_seq_depth(
    n: nat,
    m: nat,
    st: St,
    scope: Scope,
    strict: bool,
    todo: Seq<(RichTerm, Ty)>,
    i: int,
)
    requires
        n <= m,
        run_check_seq(n, st, scope, strict, todo, i) is Some,
    ensures
        run_check_seq(m, st, scope, strict, todo, i) == run_check_seq(
            n,
            st,
            scope,
            strict,
            todo,
            i,
        ),
    decreases n, 1nat, todo.len() - i,
{
    if 0 <= i < todo.len() {
        law_check_depth(n, m, st, scope, strict, todo[i].0, todo[i].1);
        if let Some((st, Ok(()))) = run_check(n, st, scope, strict, todo[i].0, todo[i].1) {
            lemma_check_seq_depth(n, m, st, scope, strict, todo, i + 1);
        }
    }
}

/// Typechecking the fields of a record returns the same within a larger bound.
proof fn lemma_check_fields_depth(
    n: nat,
    m: nat,
    st: St,
    scope: Scope,
    strict: bool,
    rec: bool,
    fields: Seq<(Ident, RichTerm)>,
    i: int,
    row: Ty,
)
    requires
        n <= m,
        run_check_fields(n, st, scope, strict, rec, fields, i, row) is Some,
    ensures
        run_check_fields(m, st, scope, strict, rec, fields, i, row) == run_check_fields(
            n,
            st,
            scope,
            strict,
            rec,
            fields,
            i,
            row,
        ),
    decreases n, 1nat, fields.len() - i,
{
    if 0 <= i < fields.len() {
        let (id, t) = fields[i];
        let ty = if rec {
            in_scope(scope, id@)->0
        } else {
            Ty::Ptr(next_var(st.table))
        };
        let st = if rec {
            st
        } else {
            with_var(st)
        };
        law_check_depth(n, m, st, scope, strict, t, ty);
        if let Some((st, Ok(()))) = run_check(n, st, scope, strict, t, ty) {
            let row = row_extend(id@, Some(ty), row);
            lemma_check_fields_depth(n, m, st, scope, strict, rec, fields, i + 1, row);
        }
    }
}

/// Typechecking a record returns the same within a larger bound.
proof fn lemma_check_record_depth(
    n: nat,
    m: nat,
    st: St,
    scope: Scope,
    strict: bool,
    rec: bool,
    fields: Seq<(Ident, RichTerm)>,
    ty: Ty,
    pos: TermPos,
)
    requires
        n <= m,
        run_check_record(n, st, scope, strict, rec, fields, ty, pos) is Some,
    ensures
        run_check_record(m, st, scope, strict, rec, fields, ty, pos) == run_check_record(
            n,
            st,
            scope,
            strict,
            rec,
            fields,
            ty,
            pos,
        ),
    decreases n, 2nat, 0int,
{
    law_resolve_depth(n, m, st.table, ty);
    match run_resolve(n, st.table, ty) {
        None => {},
        Some(Ty::DynRecord(rec_ty)) => {
            lemma_check_seq_depth(n, m, st, scope, strict, fields_against(fields, *rec_ty), 0);
        },
        Some(_) => {
            lemma_check_fields_depth(n, m, st, scope, strict, rec, fields, 0, Ty::RowEmpty);
            if let Some((st, Ok(row))) = run_check_fields(
                n,
                st,
                scope,
                strict,
                rec,
                fields,
                0,
                Ty::RowEmpty,
            ) {
                lemma_expect_depth(n, m, st, strict, record_of(row), ty, pos);
            }
        },
    }
}

/// Typechecking a switch returns the same within a larger bound.
proof fn lemma_check_switch_depth(
    n: nat,
    m: nat,
    st: St,
    scope: Scope,
    strict: bool,
    exp: RichTerm,
    cases: Seq<(Ident, RichTerm)>,
    default: Option<RichTerm>,
    ty: Ty,
    pos: TermPos,
)
    requires
        n <= m,
        run_check_switch(n, st, scope, strict, exp, cases, default, ty, pos) is Some,
    ensures
        run_check_switch(m, st, scope, strict, exp, cases, default, ty, pos) == run_check_switch(
            n,
            st,
            scope,
            strict,
            exp,
            cases,
            default,
            ty,
            pos,
        ),
    decreases n, 2nat, 0int,
{
    let res = Ty::Ptr(next_var(st.table));
    let todo = fields_against(cases, res);
    lemma_check_seq_depth(n, m, with_var(st), scope, strict, todo, 0);
    if let Some((st, Ok(()))) = run_check_seq(n, with_var(st), scope, strict, todo, 0) {
        match default {
            Some(t) => {
                law_check_depth(n, m, st, scope, strict, t, res);
                if let Some((st, Ok(()))) = run_check(n, st, scope, strict, t, res) {
                    let row = Ty::Ptr(next_var(st.table));
                    let st = with_var(st);
                    lemma_check_switched_depth(n, m, st, scope, strict, exp, row, res, ty, pos);
                }
            },
            None => {
                let row = cases_row(cases);
                lemma_check_switched_depth(n, m, st, scope, strict, exp, row, res, ty, pos);
            },
        }
    }
}

/// The same, for the expression of a switch.
proof fn lemma_check_switched_depth(
    n: nat,
    m: nat,
    st: St,
    scope: Scope,
    strict: bool,
    exp: RichTerm,
    row: Ty,
    res: Ty,
    ty: Ty,
    pos: TermPos,
)
    requires
        n <= m,
        run_check_switched(n, st, scope, strict, exp, row, res, ty, pos) is Some,
    ensures
        run_check_switched(m, st, scope, strict, exp, row, res, ty, pos) == run_check_switched(
            n,
            st,
            scope,
            strict,
            exp,
            row,
            res,
            ty,
            pos,
        ),
    decreases n, 1nat, 0int,
{
    lemma_expect_depth(n, m, st, strict, res, ty, pos);
    if let Some((st, Ok(()))) = run_expect(n, st, strict, res, ty, pos) {
        law_check_depth(n, m, st, scope, strict, exp, enum_of(row));
    }
}

/// Typechecking a term with a type annotation returns the same within a larger bound.
proof fn lemma_check_promise_depth(
    n: nat,
    m: nat,
    st: St,
    scope: Scope,
    strict: bool,
    ty2: Ty,
    t: RichTerm,
    ty: Ty,
    pos: TermPos,
)
    requires
        n <= m,
        run_check_promise(n, st, scope, strict, ty2, t, ty, pos) is Some,
    ensures
        run_check_promise(m, st, scope, strict, ty2, t, ty, pos) == run_check_promise(
            n,
            st,
            scope,
            strict,
            ty2,
            t,
            ty,
            pos,
        ),
    decreases n, 1nat, 0int,
{
    law_instantiate_depth(n, m, st, ty2, ForallInst::Constant);
    if let Some((st, inst)) = run_instantiate(n, st, ty2, ForallInst::Constant) {
        lemma_expect_depth(n, m, st, strict, ty2, ty, pos);
        if let Some((st, Ok(()))) = run_expect(n, st, strict, ty2, ty, pos) {
            law_check_depth(n, m, st, scope, true, t, inst);
        }
    }
}

/// Typechecking a metavalue returns the same within a larger bound.
proof fn lemma_check_meta_depth(
    n: nat,
    m: nat,
    st: St,
    scope: Scope,
    strict: bool,
    meta: MetaValue,
    ty: Ty,
    pos: TermPos,
)
    requires
        n <= m,
        run_check_meta(n, st, scope, strict, meta, ty, pos) is Some,
    ensures
        run_check_meta(m, st, scope, strict, meta, ty, pos) == run_check_meta(
            n,
            st,
            scope,
            strict,
            meta,
            ty,
            pos,
        ),
    decreases n, 2nat, 0int,
{
    match (meta.types, meta.value) {
        (Some(ctr), Some(t)) => {
            lemma_check_promise_depth(n, m, st, scope, strict, ctr.types@, t, ty, pos);
        },
        (_, value) => if meta.contracts@.len() > 0 {
            let ty2 = meta.contracts@[0].types@;
            lemma_expect_depth(n, m, st, strict, ty2, ty, pos);
            if let Some((st, Ok(()))) = run_expect(n, st, strict, ty2, ty, pos) {
                if let Some(t) = value {
                    law_check_depth(n, m, st, scope, false, t, Ty::Dyn);
                }
            }
        } else {
            match value {
                Some(t) => law_check_depth(n, m, st, scope, strict, t, ty),
                None => lemma_expect_depth(n, m, st, strict, Ty::Dyn, ty, pos),
            }
        },
    }
}

/// Typechecking that returns within a bound returns the same within a larger bound.
pub proof fn law_check_depth(
    n: nat,
    m: nat,
    st: St,
    scope: Scope,
    strict: bool,
    rt: RichTerm,
    ty: Ty,
)
    requires
        n <= m,
        run_check(n, st, scope, strict, rt, ty) is Some,
    ensures
        run_check(m, st, scope, strict, rt, ty) == run_check(n, st, scope, strict, rt, ty),
    decreases n, 0nat, 0int,
{
    let (n1, m1) = ((n - 1) as nat, (m - 1) as nat);
    let pos = rt.pos;
    let a = Ty::Ptr(next_var(st.table));
    let st1 = with_var(st);
    let b = Ty::Ptr(next_var(st1.table));
    let st2 = with_var(st1);
    match *rt.term {
        Term::Null => lemma_expect_depth(n1, m1, st, strict, Ty::Dyn, ty, pos),
        Term::Bool(_) => lemma_expect_depth(n1, m1, st, strict, Ty::Bool, ty, pos),
        Term::Num(_) => lemma_expect_depth(n1, m1, st, strict, Ty::Num, ty, pos),
        Term::Str(_) => lemma_expect_depth(n1, m1, st, strict, Ty::Str, ty, pos),
        Term::StrChunks(chunks) => {
            lemma_expect_depth(n1, m1, st, strict, Ty::Str, ty, pos);
            if let Some((st, Ok(()))) = run_expect(n1, st, strict, Ty::Str, ty, pos) {
                lemma_check_seq_depth(n1, m1, st, scope, strict, chunks_against(chunks@), 0);
            }
        },
        Term::Fun(x, t) => {
            lemma_expect_depth(n1, m1, st2, strict, arrow(a, b), ty, pos);
            if let Some((st, Ok(()))) = run_expect(n1, st2, strict, arrow(a, b), ty, pos) {
                law_check_depth(n1, m1, st, with_local(scope, x@, a), strict, t, b);
            }
        },
        Term::List(terms) => {
            lemma_expect_depth(n1, m1, st1, strict, list_of(a), ty, pos);
            if let Some((st, Ok(()))) = run_expect(n1, st1, strict, list_of(a), ty, pos) {
                lemma_check_seq_depth(n1, m1, st, scope, strict, all_against(terms@, a), 0);
            }
        },
        Term::Lbl(_) => lemma_expect_depth(n1, m1, st, strict, Ty::Dyn, ty, pos),
        Term::Let(x, re, body) => {
            let (table, ty_let) = bound_ty(st.table, scope, re, strict);
            let st = St { table, ..st };
            law_check_depth(n1, m1, st, scope, strict, re, ty_let);
            if let Some((st, Ok(()))) = run_check(n1, st, scope, strict, re, ty_let) {
                law_check_depth(n1, m1, st, with_local(scope, x@, ty_let), strict, body, ty);
            }
        },
        Term::App(e, t) => {
            lemma_expect_depth(n1, m1, st2, strict, b, ty, pos);
            if let Some((st, Ok(()))) = run_expect(n1, st2, strict, b, ty, pos) {
                law_check_depth(n1, m1, st, scope, strict, e, arrow(a, b));
                if let Some((st, Ok(()))) = run_check(n1, st, scope, strict, e, arrow(a, b)) {
                    law_check_depth(n1, m1, st, scope, strict, t, a);
                }
            }
        },
        Term::Switch(exp, cases, default) => {
            lemma_check_switch_depth(
                n1,
                m1,
                st,
                scope,
                strict,
                exp,
                cases@,
                default,
                ty,
                pos,
            );
        },
        Term::Var(x) => if let Some(x_ty) = in_scope(scope, x@) {
            law_instantiate_depth(n1, m1, st, x_ty, ForallInst::Ptr);
            if let Some((st, inst)) = run_instantiate(n1, st, x_ty, ForallInst::Ptr) {
                lemma_expect_depth(n1, m1, st, strict, inst, ty, pos);
            }
        },
        Term::Enum(id) => {
            let en = enum_of(row_extend(id@, None, a));
            lemma_expect_depth(n1, m1, st1, strict, en, ty, pos);
        },
        Term::Record(fields, _) => {
            lemma_check_record_depth(n1, m1, st, scope, strict, false, fields@, ty, pos);
        },
        Term::RecRecord(fields, _) => {
            let (table, scope) = bind_fields(st.table, scope, strict, fields@, 0);
            let st = St { table, ..st };
            lemma_check_record_depth(n1, m1, st, scope, strict, true, fields@, ty, pos);
        },
        Term::Op1(op, t) => if is_typed_uop(op) {
            let (st, arg, res) = uop_type(st, op);
            lemma_expect_depth(n1, m1, st, strict, res, ty, pos);
            if let Some((st, Ok(()))) = run_expect(n1, st, strict, res, ty, pos) {
                law_check_depth(n1, m1, st, scope, strict, t, arg);
            }
        },
        Term::Op2(op, t1, t2) => if is_typed_bop(op) {
            let (st, arg1, arg2, res) = bop_type(st, op);
            lemma_expect_depth(n1, m1, st, strict, res, ty, pos);
            if let Some((st, Ok(()))) = run_expect(n1, st, strict, res, ty, pos) {
                law_check_depth(n1, m1, st, scope, strict, t1, arg1);
                if let Some((st, Ok(()))) = run_check(n1, st, scope, strict, t1, arg1) {
                    law_check_depth(n1, m1, st, scope, strict, t2, arg2);
                }
            }
        },
        Term::OpN(op, args) => if is_typed_nop(op) {
            let (types, res) = nop_type(op);
            lemma_expect_depth(n1, m1, st, strict, res, ty, pos);
            if let Some((st, Ok(()))) = run_expect(n1, st, strict, res, ty, pos) {
                lemma_check_seq_depth(n1, m1, st, scope, strict, args_against(args@, types), 0);
            }
        },
        Term::Promise(ty2, _, t) => {
            lemma_check_promise_depth(n1, m1, st, scope, strict, ty2@, t, ty, pos);
        },
        Term::Sym(_) => lemma_expect_depth(n1, m1, st, strict, Ty::Sym, ty, pos),
        Term::Wrapped(_, t) => law_check_depth(n1, m1, st, scope, strict, t, ty),
        Term::MetaValue(meta) => {
            lemma_check_meta_depth(n1, m1, st, scope, strict, meta, ty, pos);
        },
        Term::Import(_) => lemma_expect_depth(n1, m1, st, strict, Ty::Dyn, ty, pos),
        Term::ResolvedImport(file_id) => {
            law_type_check_depth(n1, m1, st.imports, scope.global, st.imports[file_id]);
        },
    }
}

/// Typechecking a term in a global environment returns the same within a larger bound.
pub proof fn law_type_check_depth(
    n: nat,
    m: nat,
    imports: Map<FileId, RichTerm>,
    global: Map<Name, Ty>,
    t: RichTerm,
)
    requires
        n <= m,
        run_type_check(n, imports, global, t) is Some,
    ensures
        run_type_check(m, imports, global, t) == run_type_check(n, imports, global, t),
    decreases n, 0nat, 0int,
{
    let (n1, m1) = ((n - 1) as nat, (m - 1) as nat);
    let st = initial(imports);
    let ty = Ty::Ptr(next_var(st.table));
    let st = with_var(st);
    law_check_depth(n1, m1, st, global_scope(global), false, t, ty);
    if let Some((st, Ok(()))) = run_check(n1, st, global_scope(global), false, t, ty) {
        law_to_type_depth(n1, m1, st.table, ty);
    }
}

} // verus!
