//! What extracted types, reported types and reported errors are.
use vstd::prelude::*;

use crate::error::TypecheckError;
use crate::label::ty_path::Elem;
use crate::laws::errors::{
    distinct_names, keeps_names, law_report_err_names, law_report_names, law_type_path,
};
use crate::laws::rows::is_part;
use crate::laws::subtyping::{lemma_root_is, root};
use crate::model::{CheckErr, Name, RowErr, St, Table, Ty, UErr};
use crate::position::TermPos;
use crate::typecheck::check::run_to_type;
use crate::typecheck::errors::{
    arrow_err_cause, arrow_err_on_arrows, arrow_err_path, is_arrow_err, type_path, unif_err,
    RowUnifError, UnifError,
};
use crate::typecheck::naming::{
    decimal, digits, is_first_free, lemma_first_free_unique, letter, letters, uniq_name,
};
use crate::typecheck::reporting::{
    report_cst, report_var, run_report, run_report_err, run_report_opt, run_report_pair, Reg,
};
use crate::typecheck::state::run_root;
use crate::typecheck::unify::tail_err;
use crate::typecheck::wrapper::{is_plain, TypeWrapper};
use crate::types::Types;

verus! {

/// Whether a type is what another one stands for under a table, with given types for its free
/// variables and constants: bound variables are replaced by the types that they are bound to, and
/// nothing else changes.
pub open spec fn stands_for(
    table: Table,
    var: spec_fn(usize) -> Ty,
    cst: spec_fn(usize) -> Ty,
    ty: Ty,
    out: Ty,
) -> bool
    decreases out,
{
    match root(table, ty) {
        Some(Ty::Ptr(p)) => out == var(p),
        Some(Ty::Constant(c)) => out == cst(c),
        Some(Ty::Arrow(s, t)) => match out {
            Ty::Arrow(s2, t2) => stands_for(table, var, cst, *s, *s2) && stands_for(
                table,
                var,
                cst,
                *t,
                *t2,
            ),
            _ => false,
        },
        Some(Ty::Forall(id, t)) => match out {
            Ty::Forall(id2, t2) => id2 == id && stands_for(table, var, cst, *t, *t2),
            _ => false,
        },
        Some(Ty::RowExtend(id, t, tail)) => match out {
            Ty::RowExtend(id2, t2, tail2) => {
                &&& id2 == id
                &&& match (t, t2) {
                    (Some(t), Some(t2)) => stands_for(table, var, cst, *t, *t2),
                    (None, None) => true,
                    _ => false,
                }
                &&& stands_for(table, var, cst, *tail, *tail2)
            },
            _ => false,
        },
        Some(Ty::Enum(t)) => match out {
            Ty::Enum(t2) => stands_for(table, var, cst, *t, *t2),
            _ => false,
        },
        Some(Ty::StaticRecord(t)) => match out {
            Ty::StaticRecord(t2) => stands_for(table, var, cst, *t, *t2),
            _ => false,
        },
        Some(Ty::DynRecord(t)) => match out {
            Ty::DynRecord(t2) => stands_for(table, var, cst, *t, *t2),
            _ => false,
        },
        Some(Ty::List(t)) => match out {
            Ty::List(t2) => stands_for(table, var, cst, *t, *t2),
            _ => false,
        },
        Some(base) => out == base,
        None => false,
    }
}

/// An extracted type is what the type stands for under the table, with `Dyn` for free variables and
/// constants.
pub proof fn law_to_type(n: nat, table: Table, ty: Ty)
    requires
        run_to_type(n, table, ty) is Some,
    ensures
        stands_for(table, |p: usize| Ty::Dyn, |c: usize| Ty::Dyn, ty, run_to_type(n, table, ty)->0),
    decreases n,
{
    let m = (n - 1) as nat;
    match ty {
        Ty::Ptr(p) => {
            lemma_root_is(m, table, ty);
            match run_root(m, table, p) {
                Some(Ty::Ptr(_)) => {},
                Some(Ty::Constant(_)) => {},
                Some(r) => {
                    law_to_type(m, table, r);
                },
                None => {},
            }
        },
        Ty::Arrow(s, t) => {
            law_to_type(m, table, *s);
            law_to_type(m, table, *t);
        },
        Ty::RowExtend(_, Some(t), tail) => {
            law_to_type(m, table, *t);
            law_to_type(m, table, *tail);
        },
        Ty::RowExtend(_, None, tail) => law_to_type(m, table, *tail),
        Ty::Forall(_, t) => law_to_type(m, table, *t),
        Ty::Enum(t) => law_to_type(m, table, *t),
        Ty::StaticRecord(t) => law_to_type(m, table, *t),
        Ty::DynRecord(t) => law_to_type(m, table, *t),
        Ty::List(t) => law_to_type(m, table, *t),
        _ => {},
    }
}

/// Whether a type is another one with its variables and constants replaced by names that they have.
pub open spec fn is_named(table: Table, names: Map<usize, Name>, ty: Ty, out: Ty) -> bool
    decreases out,
{
    match root(table, ty) {
        Some(Ty::Ptr(p)) => names.contains_key(p) && out == Ty::Var(names[p]),
        Some(Ty::Constant(c)) => names.contains_key(c) && out == Ty::Var(names[c]),
        Some(Ty::Arrow(s, t)) => match out {
            Ty::Arrow(s2, t2) => is_named(table, names, *s, *s2) && is_named(
                table,
                names,
                *t,
                *t2,
            ),
            _ => false,
        },
        Some(Ty::Forall(id, t)) => match out {
            Ty::Forall(id2, t2) => id2 == id && is_named(table, names, *t, *t2),
            _ => false,
        },
        Some(Ty::RowExtend(id, t, tail)) => match out {
            Ty::RowExtend(id2, t2, tail2) => {
                &&& id2 == id
                &&& match (t, t2) {
                    (Some(t), Some(t2)) => is_named(table, names, *t, *t2),
                    (None, None) => true,
                    _ => false,
                }
                &&& is_named(table, names, *tail, *tail2)
            },
            _ => false,
        },
        Some(Ty::Enum(t)) => match out {
            Ty::Enum(t2) => is_named(table, names, *t, *t2),
            _ => false,
        },
        Some(Ty::StaticRecord(t)) => match out {
            Ty::StaticRecord(t2) => is_named(table, names, *t, *t2),
            _ => false,
        },
        Some(Ty::DynRecord(t)) => match out {
            Ty::DynRecord(t2) => is_named(table, names, *t, *t2),
            _ => false,
        },
        Some(Ty::List(t)) => match out {
            Ty::List(t2) => is_named(table, names, *t, *t2),
            _ => false,
        },
        Some(base) => out == base,
        None => false,
    }
}

/// A type that is named stays so with more names.
proof fn lemma_named_more(table: Table, reg: Reg, reg2: Reg, ty: Ty, out: Ty)
    requires
        is_named(table, reg.reg, ty, out),
        keeps_names(reg, reg2),
    ensures
        is_named(table, reg2.reg, ty, out),
    decreases out,
{
    match (root(table, ty)->0, out) {
        (Ty::Arrow(s, t), Ty::Arrow(s2, t2)) => {
            lemma_named_more(table, reg, reg2, *s, *s2);
            lemma_named_more(table, reg, reg2, *t, *t2);
        },
        (Ty::Forall(_, t), Ty::Forall(_, t2)) => lemma_named_more(table, reg, reg2, *t, *t2),
        (Ty::RowExtend(_, t, tail), Ty::RowExtend(_, t2, tail2)) => {
            if let (Some(t), Some(t2)) = (t, t2) {
                lemma_named_more(table, reg, reg2, *t, *t2);
            }
            lemma_named_more(table, reg, reg2, *tail, *tail2);
        },
        (Ty::Enum(t), Ty::Enum(t2)) => lemma_named_more(table, reg, reg2, *t, *t2),
        (Ty::StaticRecord(t), Ty::StaticRecord(t2)) => lemma_named_more(table, reg, reg2, *t, *t2),
        (Ty::DynRecord(t), Ty::DynRecord(t2)) => lemma_named_more(table, reg, reg2, *t, *t2),
        (Ty::List(t), Ty::List(t2)) => lemma_named_more(table, reg, reg2, *t, *t2),
        _ => {},
    }
}

/// A reported type is the type with its variables and constants replaced by the names that the
/// registry has for them.
pub proof fn law_report(n: nat, st: St, reg: Reg, ty: Ty)
    requires
        distinct_names(reg),
        run_report(n, st, reg, ty) is Some,
    ensures
        ({
            let (reg2, out) = run_report(n, st, reg, ty)->0;
            is_named(st.table, reg2.reg, ty, out)
        }),
    decreases n,
{
    let m = (n - 1) as nat;
    match ty {
        Ty::Ptr(p) => {
            lemma_root_is(m, st.table, ty);
            match run_root(m, st.table, p) {
                Some(Ty::Ptr(_)) => {},
                Some(r) => law_report(m, st, reg, r),
                None => {},
            }
        },
        Ty::Arrow(s, t) => {
            law_report(m, st, reg, *s);
            law_report_names(m, st, reg, *s);
            let (reg1, s2) = run_report(m, st, reg, *s)->0;
            law_report(m, st, reg1, *t);
            law_report_names(m, st, reg1, *t);
            lemma_named_more(st.table, reg1, (run_report(m, st, reg1, *t)->0).0, *s, s2);
        },
        Ty::RowExtend(_, Some(t), tail) => {
            law_report(m, st, reg, *t);
            law_report_names(m, st, reg, *t);
            let (reg1, t2) = run_report(m, st, reg, *t)->0;
            law_report(m, st, reg1, *tail);
            law_report_names(m, st, reg1, *tail);
            lemma_named_more(st.table, reg1, (run_report(m, st, reg1, *tail)->0).0, *t, t2);
        },
        Ty::RowExtend(_, None, tail) => law_report(m, st, reg, *tail),
        Ty::Forall(_, t) => law_report(m, st, reg, *t),
        Ty::Enum(t) => law_report(m, st, reg, *t),
        Ty::StaticRecord(t) => law_report(m, st, reg, *t),
        Ty::DynRecord(t) => law_report(m, st, reg, *t),
        Ty::List(t) => law_report(m, st, reg, *t),
        _ => {},
    }
}

/// The same, for two types one after the other.
proof fn lemma_report_pair(n: nat, st: St, reg: Reg, t1: Ty, t2: Ty)
    requires
        distinct_names(reg),
        run_report_pair(n, st, reg, t1, t2) is Some,
    ensures
        ({
            let (reg2, o1, o2) = run_report_pair(n, st, reg, t1, t2)->0;
            &&& distinct_names(reg2)
            &&& keeps_names(reg, reg2)
            &&& is_named(st.table, reg2.reg, t1, o1)
            &&& is_named(st.table, reg2.reg, t2, o2)
        }),
{
    law_report(n, st, reg, t1);
    law_report_names(n, st, reg, t1);
    let (reg1, o1) = run_report(n, st, reg, t1)->0;
    law_report(n, st, reg1, t2);
    law_report_names(n, st, reg1, t2);
    lemma_named_more(st.table, reg1, (run_report(n, st, reg1, t2)->0).0, t1, o1);
}

/// Whether an optional type is named.
pub open spec fn is_opt_named(
    table: Table,
    names: Map<usize, Name>,
    ty: Option<Ty>,
    out: Option<Ty>,
) -> bool {
    match (ty, out) {
        (Some(ty), Some(out)) => is_named(table, names, ty, out),
        (None, None) => true,
        _ => false,
    }
}

/// The same, for an optional type.
proof fn lemma_report_opt(n: nat, st: St, reg: Reg, ty: Option<Ty>)
    requires
        distinct_names(reg),
        run_report_opt(n, st, reg, ty) is Some,
    ensures
        ({
            let (reg2, out) = run_report_opt(n, st, reg, ty)->0;
            &&& distinct_names(reg2)
            &&& keeps_names(reg, reg2)
            &&& is_opt_named(st.table, reg2.reg, ty, out)
        }),
{
    if let Some(ty) = ty {
        law_report(n, st, reg, ty);
        law_report_names(n, st, reg, ty);
    }
}

/// Whether an error is reported as another one, at a position, with names for variables and
/// constants. The kind of the error, its identifiers and the order of its types are kept. An error
/// with a constant is reported as a mismatch with it. An error in an arrow is reported with the
/// path to what failed, and its cause. The errors inside have no position of their own.
pub open spec fn is_reported(
    table: Table,
    names: Map<usize, Name>,
    err: UErr,
    pos: TermPos,
    out: CheckErr,
) -> bool
    decreases out, 0nat,
{
    match err {
        UErr::TypeMismatch(t1, t2) => match out {
            CheckErr::TypeMismatch(o1, o2, at) => at == pos && is_named(table, names, t1, o1)
                && is_named(table, names, t2, o2),
            _ => false,
        },
        UErr::ConstMismatch(c, d) => match out {
            CheckErr::TypeMismatch(o1, o2, at) => at == pos && is_named(
                table,
                names,
                Ty::Constant(c),
                o1,
            ) && is_named(table, names, Ty::Constant(d), o2),
            _ => false,
        },
        UErr::WithConst(c, ty) => match out {
            CheckErr::TypeMismatch(o1, o2, at) => at == pos && is_named(
                table,
                names,
                Ty::Constant(c),
                o1,
            ) && is_named(table, names, ty, o2),
            _ => false,
        },
        UErr::MissingRow(id, t1, t2) => match out {
            CheckErr::MissingRow(id2, o1, o2, at) => at == pos && id2 == id && is_named(
                table,
                names,
                t1,
                o1,
            ) && is_named(table, names, t2, o2),
            _ => false,
        },
        UErr::ExtraRow(id, t1, t2) => match out {
            CheckErr::ExtraRow(id2, o1, o2, at) => at == pos && id2 == id && is_named(
                table,
                names,
                t1,
                o1,
            ) && is_named(table, names, t2, o2),
            _ => false,
        },
        UErr::MissingDynTail(t1, t2) => match out {
            CheckErr::MissingDynTail(o1, o2, at) => at == pos && is_named(table, names, t1, o1)
                && is_named(table, names, t2, o2),
            _ => false,
        },
        UErr::ExtraDynTail(t1, t2) => match out {
            CheckErr::ExtraDynTail(o1, o2, at) => at == pos && is_named(table, names, t1, o1)
                && is_named(table, names, t2, o2),
            _ => false,
        },
        UErr::RowKindMismatch(id, t1, t2) => match out {
            CheckErr::RowKindMismatch(id2, o1, o2, at) => at == pos && id2 == id && is_opt_named(
                table,
                names,
                t1,
                o1,
            ) && is_opt_named(table, names, t2, o2),
            _ => false,
        },
        UErr::RowConflict(id, ty, t1, t2) => match out {
            CheckErr::RowConflict(id2, o, o1, o2, at) => at == pos && id2 == id && is_opt_named(
                table,
                names,
                ty,
                o,
            ) && is_named(table, names, t1, o1) && is_named(table, names, t2, o2),
            _ => false,
        },
        UErr::RowMismatch(id, t1, t2, inner) => match out {
            CheckErr::RowMismatch(id2, o1, o2, o, at) => at == pos && id2 == id && is_named(
                table,
                names,
                t1,
                o1,
            ) && is_named(table, names, t2, o2) && is_reported(
                table,
                names,
                *inner,
                TermPos::Generated,
                *o,
            ),
            _ => false,
        },
        UErr::IllformedFlatType(rt) => out == CheckErr::IllformedType(Ty::Flat(rt)),
        UErr::IllformedType(ty) => match out {
            CheckErr::IllformedType(o) => is_named(table, names, ty, o),
            _ => false,
        },
        UErr::IllformedRow(ty) => match out {
            CheckErr::IllformedType(o) => is_named(table, names, ty, o),
            _ => false,
        },
        UErr::UnboundTypeVariable(id) => out == CheckErr::UnboundTypeVariable(id, pos),
        UErr::DomainMismatch(t1, t2, _) => match out {
            CheckErr::ArrowTypeMismatch(o1, o2, path, o, at) => at == pos && is_named(
                table,
                names,
                t1,
                o1,
            ) && is_named(table, names, t2, o2) && leads_to(err, path, *o, table, names),
            _ => false,
        },
        UErr::CodomainMismatch(t1, t2, _) => match out {
            CheckErr::ArrowTypeMismatch(o1, o2, path, o, at) => at == pos && is_named(
                table,
                names,
                t1,
                o1,
            ) && is_named(table, names, t2, o2) && leads_to(err, path, *o, table, names),
            _ => false,
        },
    }
}

/// Whether a path leads through the arrows of an error to its cause, and the cause is reported.
pub open spec fn leads_to(
    err: UErr,
    path: Seq<Elem>,
    out: CheckErr,
    table: Table,
    names: Map<usize, Name>,
) -> bool
    decreases out, path.len() + 1,
{
    match err {
        UErr::DomainMismatch(_, _, e) => path.len() > 0 && path[0] == Elem::Domain && leads_to(
            *e,
            path.drop_first(),
            out,
            table,
            names,
        ),
        UErr::CodomainMismatch(_, _, e) => path.len() > 0 && path[0] == Elem::Codomain && leads_to(
            *e,
            path.drop_first(),
            out,
            table,
            names,
        ),
        _ => path.len() == 0 && is_reported(table, names, err, TermPos::Generated, out),
    }
}

/// An error that is reported with names stays so with more names.
proof fn lemma_opt_named_more(table: Table, reg: Reg, reg2: Reg, ty: Option<Ty>, out: Option<Ty>)
    requires
        is_opt_named(table, reg.reg, ty, out),
        keeps_names(reg, reg2),
    ensures
        is_opt_named(table, reg2.reg, ty, out),
{
    if let (Some(ty), Some(out)) = (ty, out) {
        lemma_named_more(table, reg, reg2, ty, out);
    }
}

/// The cause of an error in an arrow is reported at the end of the path to it.
proof fn lemma_leads_to(err: UErr, out: CheckErr, table: Table, names: Map<usize, Name>)
    requires
        is_reported(table, names, arrow_err_cause(err), TermPos::Generated, out),
        !is_arrow_err(arrow_err_cause(err)),
    ensures
        leads_to(err, arrow_err_path(err), out, table, names),
    decreases err,
{
    match err {
        UErr::DomainMismatch(_, _, e) => {
            lemma_leads_to(*e, out, table, names);
            assert(arrow_err_path(err).drop_first() =~= arrow_err_path(*e));
        },
        UErr::CodomainMismatch(_, _, e) => {
            lemma_leads_to(*e, out, table, names);
            assert(arrow_err_path(err).drop_first() =~= arrow_err_path(*e));
        },
        _ => {},
    }
}

/// An error is reported as it is: with its kind, its identifiers, and its types with the names that
/// the registry has for their variables and constants.
pub proof fn law_report_err(n: nat, st: St, reg: Reg, err: UErr, pos: TermPos)
    requires
        distinct_names(reg),
        run_report_err(n, st, reg, err, pos) is Some,
    ensures
        ({
            let (reg2, out) = run_report_err(n, st, reg, err, pos)->0;
            is_reported(st.table, reg2.reg, err, pos, out)
        }),
    decreases n, 1nat,
{
    let m = (n - 1) as nat;
    match err {
        UErr::TypeMismatch(t1, t2) => lemma_report_pair(m, st, reg, t1, t2),
        UErr::RowMismatch(id, t1, t2, e) => {
            lemma_report_pair(m, st, reg, t1, t2);
            let (reg1, o1, o2) = run_report_pair(m, st, reg, t1, t2)->0;
            law_report_err(m, st, reg1, *e, TermPos::Generated);
            law_report_err_names(m, st, reg1, *e, TermPos::Generated);
            let reg2 = (run_report_err(m, st, reg1, *e, TermPos::Generated)->0).0;
            lemma_named_more(st.table, reg1, reg2, t1, o1);
            lemma_named_more(st.table, reg1, reg2, t2, o2);
        },
        UErr::RowKindMismatch(id, t1, t2) => {
            lemma_report_opt(m, st, reg, t1);
            let (reg1, o1) = run_report_opt(m, st, reg, t1)->0;
            lemma_report_opt(m, st, reg1, t2);
            let reg2 = (run_report_opt(m, st, reg1, t2)->0).0;
            lemma_opt_named_more(st.table, reg1, reg2, t1, o1);
        },
        UErr::ConstMismatch(c1, c2) => {
            lemma_report_pair(m, st, reg, Ty::Constant(c1), Ty::Constant(c2));
        },
        UErr::WithConst(c, ty) => lemma_report_pair(m, st, reg, Ty::Constant(c), ty),
        UErr::IllformedFlatType(_) => {},
        UErr::IllformedType(ty) => law_report(m, st, reg, ty),
        UErr::MissingRow(_, t1, t2) => lemma_report_pair(m, st, reg, t1, t2),
        UErr::MissingDynTail(t1, t2) => lemma_report_pair(m, st, reg, t1, t2),
        UErr::ExtraRow(_, t1, t2) => lemma_report_pair(m, st, reg, t1, t2),
        UErr::ExtraDynTail(t1, t2) => lemma_report_pair(m, st, reg, t1, t2),
        UErr::IllformedRow(ty) => law_report(m, st, reg, ty),
        UErr::RowConflict(id, ty, t1, t2) => {
            lemma_report_opt(m, st, reg, ty);
            let (reg1, o) = run_report_opt(m, st, reg, ty)->0;
            lemma_report_pair(m, st, reg1, t1, t2);
            let reg2 = (run_report_pair(m, st, reg1, t1, t2)->0).0;
            lemma_opt_named_more(st.table, reg1, reg2, ty, o);
        },
        UErr::UnboundTypeVariable(_) => {},
        UErr::DomainMismatch(t1, t2, _) => lemma_report_arrow(n, st, reg, err, pos, t1, t2),
        UErr::CodomainMismatch(t1, t2, _) => lemma_report_arrow(n, st, reg, err, pos, t1, t2),
    }
}

/// The same, for an error in an arrow.
proof fn lemma_report_arrow(n: nat, st: St, reg: Reg, err: UErr, pos: TermPos, t1: Ty, t2: Ty)
    requires
        n > 0,
        distinct_names(reg),
        run_report_err(n, st, reg, err, pos) is Some,
        err matches UErr::DomainMismatch(a, b, _) ==> a == t1 && b == t2,
        err matches UErr::CodomainMismatch(a, b, _) ==> a == t1 && b == t2,
        is_arrow_err(err),
    ensures
        ({
            let (reg2, out) = run_report_err(n, st, reg, err, pos)->0;
            is_reported(st.table, reg2.reg, err, pos, out)
        }),
    decreases n, 0nat,
{
    let m = (n - 1) as nat;
    law_type_path(err);
    let (a, b, path, cause) = type_path(err)->0;
    lemma_report_pair(m, st, reg, t1, t2);
    let (reg1, o1, o2) = run_report_pair(m, st, reg, t1, t2)->0;
    law_report_err(m, st, reg1, cause, TermPos::Generated);
    law_report_err_names(m, st, reg1, cause, TermPos::Generated);
    let (reg2, o) = run_report_err(m, st, reg1, cause, TermPos::Generated)->0;
    lemma_named_more(st.table, reg1, reg2, t1, o1);
    lemma_named_more(st.table, reg1, reg2, t2, o2);
    lemma_leads_to(err, o, st.table, reg2.reg);
}

/// A free variable is reported under the name of a variable, and a constant under the name of a
/// constant. A bound variable is reported as what it is bound to, and one without a representative
/// is not.
pub proof fn law_report_leaves(n: nat, st: St, reg: Reg, p: usize, c: usize)
    ensures
        run_report(n + 1, st, reg, Ty::Constant(c)) == report_cst(st.names, reg, c),
        match run_root(n, st.table, p) {
            None => run_report(n + 1, st, reg, Ty::Ptr(p)) is None,
            Some(Ty::Ptr(q)) => run_report(n + 1, st, reg, Ty::Ptr(p)) == report_var(
                st.names,
                reg,
                q,
            ),
            Some(r) => run_report(n + 1, st, reg, Ty::Ptr(p)) == run_report(n, st, reg, r),
        },
{
}

/// The parts of a type are reported from the left to the right, each with the names that the ones
/// before it have been given.
pub proof fn law_report_order(
    n: nat,
    st: St,
    reg: Reg,
    id: Name,
    s: Ty,
    t: Ty,
    reg1: Reg,
    s2: Ty,
    reg2: Reg,
    t2: Ty,
)
    requires
        run_report(n, st, reg, s) == Some((reg1, s2)),
        run_report(n, st, reg1, t) == Some((reg2, t2)),
    ensures
        run_report_pair(n, st, reg, s, t) == Some((reg2, s2, t2)),
        run_report(n + 1, st, reg, Ty::Arrow(Box::new(s), Box::new(t))) == Some(
            (reg2, Ty::Arrow(Box::new(s2), Box::new(t2))),
        ),
        run_report(n + 1, st, reg, Ty::RowExtend(id, Some(Box::new(s)), Box::new(t))) == Some(
            (reg2, Ty::RowExtend(id, Some(Box::new(s2)), Box::new(t2))),
        ),
{
}

/// A type with one part is reported with the names that its part is given.
pub proof fn law_report_part(n: nat, st: St, reg: Reg, id: Name, t: Ty, reg2: Reg, t2: Ty)
    requires
        run_report(n, st, reg, t) == Some((reg2, t2)),
    ensures
        run_report_opt(n, st, reg, Some(t)) == Some((reg2, Some(t2))),
        run_report_opt(n, st, reg, None) == Some((reg, None::<Ty>)),
        run_report(n + 1, st, reg, Ty::Forall(id, Box::new(t))) == Some(
            (reg2, Ty::Forall(id, Box::new(t2))),
        ),
        run_report(n + 1, st, reg, Ty::RowExtend(id, None, Box::new(t))) == Some(
            (reg2, Ty::RowExtend(id, None, Box::new(t2))),
        ),
        run_report(n + 1, st, reg, Ty::Enum(Box::new(t))) == Some((reg2, Ty::Enum(Box::new(t2)))),
        run_report(n + 1, st, reg, Ty::StaticRecord(Box::new(t))) == Some(
            (reg2, Ty::StaticRecord(Box::new(t2))),
        ),
        run_report(n + 1, st, reg, Ty::DynRecord(Box::new(t))) == Some(
            (reg2, Ty::DynRecord(Box::new(t2))),
        ),
        run_report(n + 1, st, reg, Ty::List(Box::new(t))) == Some((reg2, Ty::List(Box::new(t2)))),
{
}

/// The names that an error of two types leaves, if it is reported: those of the two types, the
/// first one first.
pub open spec fn names_two(n: nat, st: St, reg: Reg, t1: Ty, t2: Ty) -> Option<Reg> {
    match run_report(n, st, reg, t1) {
        None => None,
        Some((reg1, _)) => match run_report(n, st, reg1, t2) {
            None => None,
            Some((reg2, _)) => Some(reg2),
        },
    }
}

/// The same, for optional types.
pub open spec fn names_opt(n: nat, st: St, reg: Reg, t: Option<Ty>) -> Option<Reg> {
    match t {
        None => Some(reg),
        Some(t) => match run_report(n, st, reg, t) {
            None => None,
            Some((reg1, _)) => Some(reg1),
        },
    }
}

/// The names that an error leaves, if it is reported.
pub open spec fn names_err(n: nat, st: St, reg: Reg, err: UErr, pos: TermPos) -> Option<Reg> {
    match run_report_err(n, st, reg, err, pos) {
        None => None,
        Some((reg2, _)) => Some(reg2),
    }
}

/// An error is reported whenever its types are, one after the other, and then what is inside. The
/// names that are given are the ones that this gives. An error in an arrow is reported if it is one
/// between function types all along its path.
pub proof fn law_report_err_names_given(n: nat, st: St, reg: Reg, err: UErr, pos: TermPos)
    ensures
        ({
            let out = names_err(n + 1, st, reg, err, pos);
            match err {
                UErr::TypeMismatch(t1, t2) => out == names_two(n, st, reg, t1, t2),
                UErr::ConstMismatch(c, d) => out == names_two(
                    n,
                    st,
                    reg,
                    Ty::Constant(c),
                    Ty::Constant(d),
                ),
                UErr::WithConst(c, ty) => out == names_two(n, st, reg, Ty::Constant(c), ty),
                UErr::MissingRow(_, t1, t2) => out == names_two(n, st, reg, t1, t2),
                UErr::ExtraRow(_, t1, t2) => out == names_two(n, st, reg, t1, t2),
                UErr::MissingDynTail(t1, t2) => out == names_two(n, st, reg, t1, t2),
                UErr::ExtraDynTail(t1, t2) => out == names_two(n, st, reg, t1, t2),
                UErr::IllformedType(ty) => out == names_opt(n, st, reg, Some(ty)),
                UErr::IllformedRow(ty) => out == names_opt(n, st, reg, Some(ty)),
                UErr::IllformedFlatType(_) => out == Some(reg),
                UErr::UnboundTypeVariable(_) => out == Some(reg),
                UErr::RowKindMismatch(_, t1, t2) => match names_opt(n, st, reg, t1) {
                    None => out is None,
                    Some(reg1) => out == names_opt(n, st, reg1, t2),
                },
                UErr::RowConflict(_, ty, t1, t2) => match names_opt(n, st, reg, ty) {
                    None => out is None,
                    Some(reg1) => out == names_two(n, st, reg1, t1, t2),
                },
                UErr::RowMismatch(_, t1, t2, e) => match names_two(n, st, reg, t1, t2) {
                    None => out is None,
                    Some(reg1) => out == names_err(n, st, reg1, *e, TermPos::Generated),
                },
                UErr::DomainMismatch(t1, t2, _) => if !arrow_err_on_arrows(err) {
                    out is None
                } else {
                    match names_two(n, st, reg, t1, t2) {
                        None => out is None,
                        Some(reg1) => type_path(err) matches Some((_, _, _, cause)) && out
                            == names_err(n, st, reg1, cause, TermPos::Generated),
                    }
                },
                UErr::CodomainMismatch(t1, t2, _) => if !arrow_err_on_arrows(err) {
                    out is None
                } else {
                    match names_two(n, st, reg, t1, t2) {
                        None => out is None,
                        Some(reg1) => type_path(err) matches Some((_, _, _, cause)) && out
                            == names_err(n, st, reg1, cause, TermPos::Generated),
                    }
                },
            }
        }),
{
}

/// An error between rows becomes the error of the same kind between the types that have the rows:
/// it keeps its identifier, its own types and its cause. A violated constraint is a conflict.
pub proof fn law_unif_err(left: Ty, right: Ty, id: Name, t1: Option<Ty>, t2: Option<Ty>, e: UErr)
    ensures
        unif_err(RowErr::MissingRow(id), left, right) == UErr::MissingRow(id, left, right),
        unif_err(RowErr::MissingDynTail, left, right) == UErr::MissingDynTail(left, right),
        unif_err(RowErr::ExtraRow(id), left, right) == UErr::ExtraRow(id, left, right),
        unif_err(RowErr::ExtraDynTail, left, right) == UErr::ExtraDynTail(left, right),
        unif_err(RowErr::RowKindMismatch(id, t1, t2), left, right) == UErr::RowKindMismatch(
            id,
            t1,
            t2,
        ),
        unif_err(RowErr::RowMismatch(id, e), left, right) == UErr::RowMismatch(
            id,
            left,
            right,
            Box::new(e),
        ),
        unif_err(RowErr::UnsatConstr(id, t1), left, right) == UErr::RowConflict(
            id,
            t1,
            left,
            right,
        ),
{
}

/// The errors between rows that have nothing to do with the types that have the rows stay as they
/// are.
pub proof fn law_unif_err_same(left: Ty, right: Ty, ty: Ty, c: usize, d: usize)
    ensures
        unif_err(RowErr::IllformedRow(ty), left, right) == UErr::IllformedRow(ty),
        unif_err(RowErr::WithConst(c, ty), left, right) == UErr::WithConst(c, ty),
        unif_err(RowErr::ConstMismatch(c, d), left, right) == UErr::ConstMismatch(c, d),
{
}

/// The path of an error in an arrow starts where the error is, in the domain or in the codomain,
/// and goes on with the path of the error inside. The cause is the one of the error inside. The
/// types are those of the outermost error.
pub proof fn law_type_path_steps(t1: Ty, t2: Ty, e: UErr)
    ensures
        ({
            let (path, cause) = match type_path(e) {
                Some((_, _, path, cause)) => (path, cause),
                None => (Seq::empty(), e),
            };
            &&& type_path(UErr::DomainMismatch(t1, t2, Box::new(e))) == Some(
                (t1, t2, seq![Elem::Domain] + path, cause),
            )
            &&& type_path(UErr::CodomainMismatch(t1, t2, Box::new(e))) == Some(
                (t1, t2, seq![Elem::Codomain] + path, cause),
            )
        }),
{
}

/// A name that is free is taken as it is. Otherwise it gets the first of the suffixes `1`, `2`, ..
/// that makes it a free one.
pub proof fn law_uniq_name(taken: Set<Name>, name: Name, k: nat)
    requires
        taken.finite(),
    ensures
        !taken.contains(name) ==> uniq_name(taken, name) == name,
        taken.contains(name) && k >= 1 && !taken.contains(name + decimal(k)) && (forall|j: nat|
            1 <= j < k ==> taken.contains(name + #[trigger] decimal(j))) ==> uniq_name(taken, name)
            == name + decimal(k),
{
    if taken.contains(name) && k >= 1 && !taken.contains(name + decimal(k)) && (forall|j: nat|
        1 <= j < k ==> taken.contains(name + #[trigger] decimal(j))) {
        assert(is_first_free(taken, name, k));
        let i = choose|i: nat| is_first_free(taken, name, i);
        lemma_first_free_unique(taken, name, i, k);
    }
}

/// Decimal representations: a digit, or the representation of the tenth part and a digit.
pub proof fn law_decimal(n: nat, d: nat)
    requires
        d < 10,
    ensures
        decimal(d) == seq![((48 + d) as u8) as char],
        n > 0 ==> decimal(10 * n + d) == decimal(n) + decimal(d),
{
    lemma_digit(d);
    if n > 0 {
        assert((10 * n + d) / 10 == n && (10 * n + d) % 10 == d);
    }
}

/// The digits.
proof fn lemma_digit(d: nat)
    requires
        d < 10,
    ensures
        decimal(d) == seq![((48 + d) as u8) as char],
{
    reveal_strlit("0123456789");
    assert(decimal(d) =~= seq![digits()[d as int]]);
    assert(d == 0 || d == 1 || d == 2 || d == 3 || d == 4 || d == 5 || d == 6 || d == 7 || d == 8
        || d == 9);
}

/// The letters of the alphabet.
pub proof fn law_letters(k: nat)
    requires
        k < 26,
    ensures
        letter(k) == seq![((97 + k) as u8) as char],
{
    reveal_strlit("abcdefghijklmnopqrstuvwxyz");
    assert(letter(k) =~= seq![letters()[k as int]]);
    assert(k == 0 || k == 1 || k == 2 || k == 3 || k == 4 || k == 5 || k == 6 || k == 7 || k == 8
        || k == 9 || k == 10 || k == 11 || k == 12 || k == 13 || k == 14 || k == 15 || k == 16 || k
        == 17 || k == 18 || k == 19 || k == 20 || k == 21 || k == 22 || k == 23 || k == 24 || k
        == 25);
}

/// A variable or a constant that has a name keeps it. A new name comes from the type variable that
/// the user wrote, if there is one, and else it is the next letter. The name of a variable starts
/// with `_`. Nothing else in the registry changes.
pub proof fn law_new_name(names: Map<usize, Name>, reg: Reg, p: usize)
    requires
        reg.var_count < usize::MAX,
        reg.cst_count < usize::MAX,
    ensures
        reg.reg.contains_key(p) ==> report_var(names, reg, p) == Some((reg, Ty::Var(reg.reg[p])))
            && report_cst(names, reg, p) == Some((reg, Ty::Var(reg.reg[p]))),
        !reg.reg.contains_key(p) ==> {
            let user = names.contains_key(p);
            let var = if user {
                names[p]
            } else {
                letter((reg.var_count % 26) as nat)
            };
            let cst = if user {
                names[p]
            } else {
                letter((reg.cst_count % 26) as nat)
            };
            let var = uniq_name(reg.taken, "_"@ + var);
            let cst = uniq_name(reg.taken, cst);
            &&& report_var(names, reg, p) matches Some((reg2, ty)) && ty == Ty::Var(var)
                && reg2.reg == reg.reg.insert(p, var) && reg2.taken == reg.taken.insert(var)
                && reg2.var_count == reg.var_count + (if user {
                0int
            } else {
                1
            }) && reg2.cst_count == reg.cst_count
            &&& report_cst(names, reg, p) matches Some((reg2, ty)) && ty == Ty::Var(cst)
                && reg2.reg == reg.reg.insert(p, cst) && reg2.taken == reg.taken.insert(cst)
                && reg2.cst_count == reg.cst_count + (if user {
                0int
            } else {
                1
            }) && reg2.var_count == reg.var_count
        },
{
}

/// The model of a reported error is made as the error is.
pub proof fn law_error_view(err: TypecheckError)
    ensures
        match err {
            TypecheckError::UnboundIdentifier(id, pos) => err@ == CheckErr::UnboundIdentifier(
                id@,
                pos,
            ),
            TypecheckError::IllformedType(ty) => err@ == CheckErr::IllformedType(ty@),
            TypecheckError::MissingRow(id, t1, t2, pos) => err@ == CheckErr::MissingRow(
                id@,
                t1@,
                t2@,
                pos,
            ),
            TypecheckError::MissingDynTail(t1, t2, pos) => err@ == CheckErr::MissingDynTail(
                t1@,
                t2@,
                pos,
            ),
            TypecheckError::ExtraRow(id, t1, t2, pos) => err@ == CheckErr::ExtraRow(
                id@,
                t1@,
                t2@,
                pos,
            ),
            TypecheckError::ExtraDynTail(t1, t2, pos) => err@ == CheckErr::ExtraDynTail(
                t1@,
                t2@,
                pos,
            ),
            TypecheckError::UnboundTypeVariable(id, pos) => err@ == CheckErr::UnboundTypeVariable(
                id@,
                pos,
            ),
            TypecheckError::TypeMismatch(t1, t2, pos) => err@ == CheckErr::TypeMismatch(
                t1@,
                t2@,
                pos,
            ),
            TypecheckError::RowKindMismatch(id, t1, t2, pos) => {
                err@ matches CheckErr::RowKindMismatch(id2, o1, o2, at) && id2 == id@ && at == pos
                    && is_model(t1, o1) && is_model(t2, o2)
            },
            TypecheckError::ArrowTypeMismatch(t1, t2, path, e, pos) => err@
                == CheckErr::ArrowTypeMismatch(t1@, t2@, path@, Box::new((*e)@), pos),
            TypecheckError::RowMismatch(id, t1, t2, e, pos) => err@ == CheckErr::RowMismatch(
                id@,
                t1@,
                t2@,
                Box::new((*e)@),
                pos,
            ),
            TypecheckError::RowConflict(id, ty, t1, t2, pos) => {
                err@ matches CheckErr::RowConflict(id2, o, o1, o2, at) && id2 == id@ && at == pos
                    && o1 == t1@ && o2 == t2@ && is_model(ty, o)
            },
        },
{
}

/// Whether an optional type is the model of another.
pub open spec fn is_model(ty: Option<Types>, model: Option<Ty>) -> bool {
    match (ty, model) {
        (Some(ty), Some(model)) => model == ty@,
        (None, None) => true,
        _ => false,
    }
}

/// The model of a unification error is made as the error is.
pub proof fn law_unif_error_view(err: UnifError)
    ensures
        match err {
            UnifError::TypeMismatch(t1, t2) => err@ == UErr::TypeMismatch(t1@, t2@),
            UnifError::RowMismatch(id, t1, t2, e) => err@ == UErr::RowMismatch(
                id@,
                t1@,
                t2@,
                Box::new((*e)@),
            ),
            UnifError::ConstMismatch(c1, c2) => err@ == UErr::ConstMismatch(c1, c2),
            UnifError::MissingRow(id, t1, t2) => err@ == UErr::MissingRow(id@, t1@, t2@),
            UnifError::MissingDynTail(t1, t2) => err@ == UErr::MissingDynTail(t1@, t2@),
            UnifError::ExtraRow(id, t1, t2) => err@ == UErr::ExtraRow(id@, t1@, t2@),
            UnifError::ExtraDynTail(t1, t2) => err@ == UErr::ExtraDynTail(t1@, t2@),
            UnifError::IllformedRow(t) => err@ == UErr::IllformedRow(t@),
            UnifError::WithConst(c, t) => err@ == UErr::WithConst(c, t@),
            UnifError::IllformedFlatType(t) => err@ == UErr::IllformedFlatType(t),
            UnifError::IllformedType(t) => err@ == UErr::IllformedType(t@),
            UnifError::UnboundTypeVariable(id) => err@ == UErr::UnboundTypeVariable(id@),
            UnifError::DomainMismatch(t1, t2, e) => err@ == UErr::DomainMismatch(
                t1@,
                t2@,
                Box::new((*e)@),
            ),
            UnifError::CodomainMismatch(t1, t2, e) => err@ == UErr::CodomainMismatch(
                t1@,
                t2@,
                Box::new((*e)@),
            ),
            UnifError::RowKindMismatch(id, t1, t2) => {
                err@ matches UErr::RowKindMismatch(id2, o1, o2) && id2 == id@ && is_wrapper_model(
                    t1,
                    o1,
                ) && is_wrapper_model(t2, o2)
            },
            UnifError::RowConflict(id, ty, t1, t2) => {
                err@ matches UErr::RowConflict(id2, o, o1, o2) && id2 == id@ && o1 == t1@ && o2
                    == t2@ && is_wrapper_model(ty, o)
            },
        },
{
}

/// Whether an optional type is the model of an optional type wrapper.
pub open spec fn is_wrapper_model(ty: Option<TypeWrapper>, model: Option<Ty>) -> bool {
    match (ty, model) {
        (Some(ty), Some(model)) => model == ty@,
        (None, None) => true,
        _ => false,
    }
}

/// The model of an error between rows is made as the error is.
pub proof fn law_row_error_view(err: RowUnifError)
    ensures
        match err {
            RowUnifError::MissingRow(id) => err@ == RowErr::MissingRow(id@),
            RowUnifError::MissingDynTail() => err@ == RowErr::MissingDynTail,
            RowUnifError::ExtraRow(id) => err@ == RowErr::ExtraRow(id@),
            RowUnifError::ExtraDynTail() => err@ == RowErr::ExtraDynTail,
            RowUnifError::RowMismatch(id, e) => err@ == RowErr::RowMismatch(id@, e@),
            RowUnifError::IllformedRow(t) => err@ == RowErr::IllformedRow(t@),
            RowUnifError::WithConst(c, t) => err@ == RowErr::WithConst(c, t@),
            RowUnifError::ConstMismatch(c1, c2) => err@ == RowErr::ConstMismatch(c1, c2),
            RowUnifError::RowKindMismatch(id, t1, t2) => {
                err@ matches RowErr::RowKindMismatch(id2, o1, o2) && id2 == id@
                    && is_wrapper_model(t1, o1) && is_wrapper_model(t2, o2)
            },
            RowUnifError::UnsatConstr(id, t) => {
                err@ matches RowErr::UnsatConstr(id2, o) && id2 == id@ && is_wrapper_model(t, o)
            },
        },
{
}

/// The errors of the tails of two rows: one on constants or constraints is kept, and otherwise a
/// tail that is no row is the culprit, the first one first.
pub proof fn law_tail_errors(err: UErr, t1: Ty, t2: Ty)
    ensures
        match err {
            UErr::ConstMismatch(c, d) => tail_err(err, t1, t2) == RowErr::ConstMismatch(c, d),
            UErr::WithConst(c, ty) => tail_err(err, t1, t2) == RowErr::WithConst(c, ty),
            UErr::RowConflict(id, ty, _, _) => tail_err(err, t1, t2) == RowErr::UnsatConstr(id, ty),
            _ => {
                &&& !t1.is_row() ==> tail_err(err, t1, t2) == RowErr::IllformedRow(t1)
                &&& t1.is_row() && !t2.is_row() ==> tail_err(err, t1, t2) == RowErr::IllformedRow(
                    t2,
                )
            },
        },
{
}

/// A type is plain exactly when none of its parts is a variable or a constant.
pub proof fn law_plain(ty: Ty)
    ensures
        is_plain(ty) <==> forall|part: Ty|
            #[trigger] is_part(part, ty) ==> !(part is Ptr) && !(part is Constant),
{
    if is_plain(ty) {
        assert forall|part: Ty| #[trigger] is_part(part, ty) implies !(part is Ptr) && !(
        part is Constant) by {
            lemma_plain_part(part, ty);
        }
    } else {
        let bad = lemma_not_plain(ty);
        assert(is_part(bad, ty));
    }
}

/// A part of a plain type is neither a variable nor a constant.
proof fn lemma_plain_part(part: Ty, ty: Ty)
    requires
        is_plain(ty),
        is_part(part, ty),
    ensures
        !(part is Ptr),
        !(part is Constant),
    decreases ty,
{
    if part != ty {
        match ty {
            Ty::Arrow(s, t) => if is_part(part, *s) {
                lemma_plain_part(part, *s);
            } else {
                lemma_plain_part(part, *t);
            },
            Ty::RowExtend(_, t, tail) => match t {
                Some(t) => if is_part(part, *t) {
                    lemma_plain_part(part, *t);
                } else {
                    lemma_plain_part(part, *tail);
                },
                None => lemma_plain_part(part, *tail),
            },
            Ty::Forall(_, t) => lemma_plain_part(part, *t),
            Ty::Enum(t) => lemma_plain_part(part, *t),
            Ty::StaticRecord(t) => lemma_plain_part(part, *t),
            Ty::DynRecord(t) => lemma_plain_part(part, *t),
            Ty::List(t) => lemma_plain_part(part, *t),
            _ => {},
        }
    }
}

/// A type that is not plain has a part that is a variable or a constant.
proof fn lemma_not_plain(ty: Ty) -> (bad: Ty)
    requires
        !is_plain(ty),
    ensures
        is_part(bad, ty),
        bad is Ptr || bad is Constant,
    decreases ty,
{
    match ty {
        Ty::Arrow(s, t) => if !is_plain(*s) {
            lemma_not_plain(*s)
        } else {
            lemma_not_plain(*t)
        },
        Ty::RowExtend(_, t, tail) => match t {
            Some(t) => if !is_plain(*t) {
                lemma_not_plain(*t)
            } else {
                lemma_not_plain(*tail)
            },
            None => lemma_not_plain(*tail),
        },
        Ty::Forall(_, t) => lemma_not_plain(*t),
        Ty::Enum(t) => lemma_not_plain(*t),
        Ty::StaticRecord(t) => lemma_not_plain(*t),
        Ty::DynRecord(t) => lemma_not_plain(*t),
        Ty::List(t) => lemma_not_plain(*t),
        _ => ty,
    }
}

} // verus!
