//! Typechecking of terms.
use vstd::prelude::*;

use crate::cache::ImportResolver;
use crate::environment::Environment;
use crate::error::TypecheckError;
use crate::eval;
use crate::identifier::Ident;
use crate::laws::scoping::{is_plain_env, law_global_types_plain, law_type_check_dyn};
use crate::laws::table::{is_wf, law_check_table, law_later_table};
use crate::laws::typing::{law_check_sound, typed};
use crate::model::{arrow, enum_of, list_of, record_of, row_extend, CheckErr, Name, St, Table, Ty};
use crate::position::{FileId, TermPos};
use crate::term::{MetaValue, RichTerm, StrChunk, Term};
use crate::typecheck::envs::{
    binding_type, bound_ty, global_scope, global_types, in_scope, with_local, Envs, Scope,
};
use crate::typecheck::instantiate::{instantiate_foralls_within, run_instantiate, ForallInst};
use crate::typecheck::mk_typewrapper;
use crate::typecheck::ops::{
    bop_type, get_bop_type, get_nop_type, get_uop_type, is_typed_bop, is_typed_nop, is_typed_uop,
    nop_type, tys, uop_type,
};
use crate::typecheck::reporting::{no_names, run_report_err, NameReg};
use crate::typecheck::state::{
    get_root_within, initial, max_depth, next_var, resolve_within, run_resolve, run_root, table_of,
    with_var, State, UnifTable,
};
use crate::typecheck::unify::{check_sub_within, run_check_sub};
use crate::typecheck::wrapper::{to_typewrapper, TypeWrapper};
use crate::types::{AbsType, Types};

verus! {

/// The outcome of typechecking: the new state, and the error if there is one.
pub type Checked = Option<(St, Result<(), CheckErr>)>;

/// The outcome of unifying two types in strict mode, with the error reported at a position.
#[verifier::opaque]
pub open spec fn run_expect(
    n: nat,
    st: St,
    strict: bool,
    t1: Ty,
    t2: Ty,
    pos: TermPos,
) -> Checked {
    match run_check_sub(n, st, strict, t1, t2) {
        None => None,
        Some((st, Ok(()))) => Some((st, Ok(()))),
        Some((st, Err(err))) => match run_report_err(n, st, no_names(), err, pos) {
            None => None,
            Some((_, err)) => Some((st, Err(err))),
        },
    }
}

/// The terms of a sequence, each to be checked against the same type.
pub open spec fn all_against(terms: Seq<RichTerm>, ty: Ty) -> Seq<(RichTerm, Ty)> {
    terms.map_values(|t: RichTerm| (t, ty))
}

/// The terms of a sequence of bindings, each to be checked against the same type.
pub open spec fn fields_against(fields: Seq<(Ident, RichTerm)>, ty: Ty) -> Seq<(RichTerm, Ty)> {
    fields.map_values(|f: (Ident, RichTerm)| (f.1, ty))
}

/// The arguments of an operator, each to be checked against its own type, as far as there are both.
pub open spec fn args_against(args: Seq<RichTerm>, types: Seq<Ty>) -> Seq<(RichTerm, Ty)> {
    Seq::new(
        if args.len() < types.len() {
            args.len()
        } else {
            types.len()
        },
        |i: int| (args[i], types[i]),
    )
}

/// The interpolated expressions of a string, each to be checked against the type of strings.
pub open spec fn chunks_against(chunks: Seq<StrChunk>) -> Seq<(RichTerm, Ty)>
    decreases chunks.len(),
{
    if chunks.len() == 0 {
        Seq::empty()
    } else {
        let init = chunks_against(chunks.drop_last());
        match chunks.last() {
            StrChunk::Literal(_) => init,
            StrChunk::Expr(t, _) => init.push((t, Ty::Str)),
        }
    }
}

/// The enum row of the cases of a switch, the last case first.
pub open spec fn cases_row(cases: Seq<(Ident, RichTerm)>) -> Ty
    decreases cases.len(),
{
    if cases.len() == 0 {
        Ty::RowEmpty
    } else {
        row_extend(cases.last().0@, None, cases_row(cases.drop_last()))
    }
}

/// The scope with the fields of a recursive record from the `i`-th on, each bound to the type of a
/// binding, and the table with the variables that they ask for.
pub open spec fn bind_fields(
    table: Table,
    scope: Scope,
    strict: bool,
    fields: Seq<(Ident, RichTerm)>,
    i: int,
) -> (Table, Scope)
    decreases fields.len() - i,
{
    if 0 <= i < fields.len() {
        let (id, t) = fields[i];
        let (table, ty) = bound_ty(table, scope, t, strict);
        bind_fields(table, with_local(scope, id@, ty), strict, fields, i + 1)
    } else {
        (table, scope)
    }
}

/// The outcome of typechecking the terms of a sequence from the `i`-th on one after the other, each
/// against its type.
pub open spec fn run_check_seq(
    n: nat,
    st: St,
    scope: Scope,
    strict: bool,
    todo: Seq<(RichTerm, Ty)>,
    i: int,
) -> Checked
    decreases n, 1nat, todo.len() - i,
{
    if 0 <= i < todo.len() {
        match run_check(n, st, scope, strict, todo[i].0, todo[i].1) {
            None => None,
            Some((st, Err(err))) => Some((st, Err(err))),
            Some((st, Ok(()))) => run_check_seq(n, st, scope, strict, todo, i + 1),
        }
    } else {
        Some((st, Ok(())))
    }
}

/// The outcome of typechecking the fields of a record from the `i`-th on one after the other, each
/// against its type in scope in a recursive record and against a new variable in another one,
/// together with the row of these types on top of `row`.
pub open spec fn run_check_fields(
    n: nat,
    st: St,
    scope: Scope,
    strict: bool,
    rec: bool,
    fields: Seq<(Ident, RichTerm)>,
    i: int,
    row: Ty,
) -> Option<(St, Result<Ty, CheckErr>)>
    decreases n, 1nat, fields.len() - i,
{
    if 0 <= i < fields.len() {
        let (id, t) = fields[i];
        let field_ty = if rec {
            in_scope(scope, id@)
        } else {
            Some(Ty::Ptr(next_var(st.table)))
        };
        let st = if rec {
            st
        } else {
            with_var(st)
        };
        match field_ty {
            None => None,
            Some(ty) => match run_check(n, st, scope, strict, t, ty) {
                None => None,
                Some((st, Err(err))) => Some((st, Err(err))),
                Some((st, Ok(()))) => run_check_fields(
                    n,
                    st,
                    scope,
                    strict,
                    rec,
                    fields,
                    i + 1,
                    row_extend(id@, Some(ty), row),
                ),
            },
        }
    } else {
        Some((st, Ok(row)))
    }
}

/// The outcome of typechecking a record against a type. The fields of a recursive record are in
/// scope.
pub open spec fn run_check_record(
    n: nat,
    st: St,
    scope: Scope,
    strict: bool,
    rec: bool,
    fields: Seq<(Ident, RichTerm)>,
    ty: Ty,
    pos: TermPos,
) -> Checked
    decreases n, 2nat, 0int,
{
    match run_resolve(n, st.table, ty) {
        None => None,
        // Checking for a dynamic record
        Some(Ty::DynRecord(rec_ty)) => run_check_seq(
            n,
            st,
            scope,
            strict,
            fields_against(fields, *rec_ty),
            0,
        ),
        Some(_) => match run_check_fields(n, st, scope, strict, rec, fields, 0, Ty::RowEmpty) {
            None => None,
            Some((st, Err(err))) => Some((st, Err(err))),
            Some((st, Ok(row))) => run_expect(n, st, strict, record_of(row), ty, pos),
        },
    }
}

/// The outcome of typechecking a switch against a type.
pub open spec fn run_check_switch(
    n: nat,
    st: St,
    scope: Scope,
    strict: bool,
    exp: RichTerm,
    cases: Seq<(Ident, RichTerm)>,
    default: Option<RichTerm>,
    ty: Ty,
    pos: TermPos,
) -> Checked
    decreases n, 2nat, 0int,
{
    let res = Ty::Ptr(next_var(st.table));
    match run_check_seq(n, with_var(st), scope, strict, fields_against(cases, res), 0) {
        None => None,
        Some((st, Err(err))) => Some((st, Err(err))),
        Some((st, Ok(()))) => match default {
            // Currently, if it has a default value, we typecheck the whole thing as taking ANY
            // enum, since it's more permissive and there's no loss of information
            Some(t) => match run_check(n, st, scope, strict, t, res) {
                None => None,
                Some((st, Err(err))) => Some((st, Err(err))),
                Some((st, Ok(()))) => {
                    let row = Ty::Ptr(next_var(st.table));
                    run_check_switched(n, with_var(st), scope, strict, exp, row, res, ty, pos)
                },
            },
            None => run_check_switched(
                n,
                st,
                scope,
                strict,
                exp,
                cases_row(cases),
                res,
                ty,
                pos,
            ),
        },
    }
}

/// The outcome of typechecking the expression of a switch against the enum of a row, once the type
/// `res` of the cases has been unified with the type of the switch.
pub open spec fn run_check_switched(
    n: nat,
    st: St,
    scope: Scope,
    strict: bool,
    exp: RichTerm,
    row: Ty,
    res: Ty,
    ty: Ty,
    pos: TermPos,
) -> Checked
    decreases n, 1nat, 0int,
{
    match run_expect(n, st, strict, res, ty, pos) {
        None => None,
        Some((st, Err(err))) => Some((st, Err(err))),
        Some((st, Ok(()))) => run_check(n, st, scope, strict, exp, enum_of(row)),
    }
}

/// The outcome of typechecking a term with a type annotation `ty2` against a type: the term itself
/// is typechecked in strict mode.
pub open spec fn run_check_promise(
    n: nat,
    st: St,
    scope: Scope,
    strict: bool,
    ty2: Ty,
    t: RichTerm,
    ty: Ty,
    pos: TermPos,
) -> Checked
    decreases n, 1nat, 0int,
{
    match run_instantiate(n, st, ty2, ForallInst::Constant) {
        None => None,
        Some((st, instantiated)) => match run_expect(n, st, strict, ty2, ty, pos) {
            None => None,
            Some((st, Err(err))) => Some((st, Err(err))),
            Some((st, Ok(()))) => run_check(n, st, scope, true, t, instantiated),
        },
    }
}

/// The outcome of typechecking a metavalue against a type.
pub open spec fn run_check_meta(
    n: nat,
    st: St,
    scope: Scope,
    strict: bool,
    meta: MetaValue,
    ty: Ty,
    pos: TermPos,
) -> Checked
    decreases n, 2nat, 0int,
{
    match (meta.types, meta.value) {
        // A non-empty metavalue with a type annotation is a promise.
        (Some(ctr), Some(t)) => run_check_promise(n, st, scope, strict, ctr.types@, t, ty, pos),
        // A metavalue with at least one contract is an assume. If there's several contracts, we
        // arbitrarily chose the first one as the type annotation. If there's an inner value, we
        // have to recursively typecheck it, but in non strict mode.
        (_, value) => if meta.contracts@.len() > 0 {
            match run_expect(n, st, strict, meta.contracts@[0].types@, ty, pos) {
                None => None,
                Some((st, Err(err))) => Some((st, Err(err))),
                Some((st, Ok(()))) => match value {
                    Some(t) => run_check(n, st, scope, false, t, Ty::Dyn),
                    None => Some((st, Ok(()))),
                },
            }
        } else {
            match value {
                // A non-empty metavalue without a type or contract annotation is typechecked in
                // the same way as its inner value
                Some(t) => run_check(n, st, scope, strict, t, ty),
                // A metavalue without a body nor a type annotation is a record field without
                // definition, of type `Dyn`.
                None => run_expect(n, st, strict, Ty::Dyn, ty, pos),
            }
        },
    }
}

/// The outcome of typechecking a term against a type, within `n` nested calls.
pub open spec fn run_check(
    n: nat,
    st: St,
    scope: Scope,
    strict: bool,
    rt: RichTerm,
    ty: Ty,
) -> Checked
    decreases n, 0nat, 0int,
{
    if n == 0 {
        None
    } else {
        let m = (n - 1) as nat;
        let pos = rt.pos;
        // The new variables of the rules that need some.
        let a = Ty::Ptr(next_var(st.table));
        let st1 = with_var(st);
        let b = Ty::Ptr(next_var(st1.table));
        let st2 = with_var(st1);
        match *rt.term {
            // null is inferred to be of type Dyn
            Term::Null => run_expect(m, st, strict, Ty::Dyn, ty, pos),
            Term::Bool(_) => run_expect(m, st, strict, Ty::Bool, ty, pos),
            Term::Num(_) => run_expect(m, st, strict, Ty::Num, ty, pos),
            Term::Str(_) => run_expect(m, st, strict, Ty::Str, ty, pos),
            Term::StrChunks(chunks) => match run_expect(m, st, strict, Ty::Str, ty, pos) {
                None => None,
                Some((st, Err(err))) => Some((st, Err(err))),
                Some((st, Ok(()))) => run_check_seq(
                    m,
                    st,
                    scope,
                    strict,
                    chunks_against(chunks@),
                    0,
                ),
            },
            Term::Fun(x, t) => match run_expect(m, st2, strict, arrow(a, b), ty, pos) {
                None => None,
                Some((st, Err(err))) => Some((st, Err(err))),
                Some((st, Ok(()))) => run_check(m, st, with_local(scope, x@, a), strict, t, b),
            },
            Term::List(terms) => match run_expect(m, st1, strict, list_of(a), ty, pos) {
                None => None,
                Some((st, Err(err))) => Some((st, Err(err))),
                Some((st, Ok(()))) => run_check_seq(
                    m,
                    st,
                    scope,
                    strict,
                    all_against(terms@, a),
                    0,
                ),
            },
            Term::Lbl(_) => run_expect(m, st, strict, Ty::Dyn, ty, pos),
            Term::Let(x, re, body) => {
                let (table, ty_let) = bound_ty(st.table, scope, re, strict);
                match run_check(m, St { table, ..st }, scope, strict, re, ty_let) {
                    None => None,
                    Some((st, Err(err))) => Some((st, Err(err))),
                    Some((st, Ok(()))) => run_check(
                        m,
                        st,
                        with_local(scope, x@, ty_let),
                        strict,
                        body,
                        ty,
                    ),
                }
            },
            Term::App(e, t) => match run_expect(m, st2, strict, b, ty, pos) {
                None => None,
                Some((st, Err(err))) => Some((st, Err(err))),
                // This order shouldn't be changed, since applying a function to a record
                // may change how it's typed (static or dynamic)
                Some((st, Ok(()))) => match run_check(m, st, scope, strict, e, arrow(a, b)) {
                    None => None,
                    Some((st, Err(err))) => Some((st, Err(err))),
                    Some((st, Ok(()))) => run_check(m, st, scope, strict, t, a),
                },
            },
            Term::Switch(exp, cases, default) => run_check_switch(
                m,
                st,
                scope,
                strict,
                exp,
                cases@,
                default,
                ty,
                pos,
            ),
            Term::Var(x) => match in_scope(scope, x@) {
                None => Some((st, Err(CheckErr::UnboundIdentifier(x@, pos)))),
                Some(x_ty) => match run_instantiate(m, st, x_ty, ForallInst::Ptr) {
                    None => None,
                    Some((st, instantiated)) => run_expect(m, st, strict, instantiated, ty, pos),
                },
            },
            Term::Enum(id) => run_expect(
                m,
                st1,
                strict,
                enum_of(row_extend(id@, None, a)),
                ty,
                pos,
            ),
            Term::Record(fields, _) => run_check_record(
                m,
                st,
                scope,
                strict,
                false,
                fields@,
                ty,
                pos,
            ),
            // For recursive records, we look at the apparent type of each field and bind it in the
            // scope before actually typechecking the content of fields
            Term::RecRecord(fields, _) => {
                let (table, scope) = bind_fields(st.table, scope, strict, fields@, 0);
                run_check_record(m, St { table, ..st }, scope, strict, true, fields@, ty, pos)
            },
            Term::Op1(op, t) => if !is_typed_uop(op) {
                None
            } else {
                let (st, ty_arg, ty_res) = uop_type(st, op);
                match run_expect(m, st, strict, ty_res, ty, pos) {
                    None => None,
                    Some((st, Err(err))) => Some((st, Err(err))),
                    Some((st, Ok(()))) => run_check(m, st, scope, strict, t, ty_arg),
                }
            },
            Term::Op2(op, t1, t2) => if !is_typed_bop(op) {
                None
            } else {
                let (st, ty_arg1, ty_arg2, ty_res) = bop_type(st, op);
                match run_expect(m, st, strict, ty_res, ty, pos) {
                    None => None,
                    Some((st, Err(err))) => Some((st, Err(err))),
                    Some((st, Ok(()))) => match run_check(m, st, scope, strict, t1, ty_arg1) {
                        None => None,
                        Some((st, Err(err))) => Some((st, Err(err))),
                        Some((st, Ok(()))) => run_check(m, st, scope, strict, t2, ty_arg2),
                    },
                }
            },
            Term::OpN(op, args) => if !is_typed_nop(op) {
                None
            } else {
                let (tys_op, ty_ret) = nop_type(op);
                match run_expect(m, st, strict, ty_ret, ty, pos) {
                    None => None,
                    Some((st, Err(err))) => Some((st, Err(err))),
                    Some((st, Ok(()))) => run_check_seq(
                        m,
                        st,
                        scope,
                        strict,
                        args_against(args@, tys_op),
                        0,
                    ),
                }
            },
            Term::Promise(ty2, _, t) => run_check_promise(
                m,
                st,
                scope,
                strict,
                ty2@,
                t,
                ty,
                pos,
            ),
            Term::Sym(_) => run_expect(m, st, strict, Ty::Sym, ty, pos),
            Term::Wrapped(_, t) => run_check(m, st, scope, strict, t, ty),
            Term::MetaValue(meta) => run_check_meta(m, st, scope, strict, meta, ty, pos),
            Term::Import(_) => run_expect(m, st, strict, Ty::Dyn, ty, pos),
            Term::ResolvedImport(file_id) => if !st.imports.contains_key(file_id) {
                None
            } else {
                match run_type_check(m, st.imports, scope.global, st.imports[file_id]) {
                    None => None,
                    Some(Ok(_)) => Some((st, Ok(()))),
                    Some(Err(err)) => Some((st, Err(err))),
                }
            },
        }
    }
}

/// The type that a type stands for, within `n` nested calls: free unification variables and type
/// constants are replaced by `Dyn`.
pub open spec fn run_to_type(n: nat, table: Table, ty: Ty) -> Option<Ty>
    decreases n,
{
    if n == 0 {
        None
    } else {
        let m = (n - 1) as nat;
        match ty {
            Ty::Ptr(p) => match run_root(m, table, p) {
                None => None,
                Some(Ty::Ptr(_)) => Some(Ty::Dyn),
                Some(Ty::Constant(_)) => Some(Ty::Dyn),
                Some(ty) => run_to_type(m, table, ty),
            },
            Ty::Constant(_) => Some(Ty::Dyn),
            Ty::Arrow(s, t) => match (run_to_type(m, table, *s), run_to_type(m, table, *t)) {
                (Some(s), Some(t)) => Some(Ty::Arrow(Box::new(s), Box::new(t))),
                _ => None,
            },
            Ty::Forall(id, t) => match run_to_type(m, table, *t) {
                Some(t) => Some(Ty::Forall(id, Box::new(t))),
                None => None,
            },
            Ty::RowExtend(id, None, tail) => match run_to_type(m, table, *tail) {
                Some(tail) => Some(Ty::RowExtend(id, None, Box::new(tail))),
                None => None,
            },
            Ty::RowExtend(id, Some(t), tail) => match (
                run_to_type(m, table, *t),
                run_to_type(m, table, *tail),
            ) {
                (Some(t), Some(tail)) => Some(
                    Ty::RowExtend(id, Some(Box::new(t)), Box::new(tail)),
                ),
                _ => None,
            },
            Ty::Enum(t) => match run_to_type(m, table, *t) {
                Some(t) => Some(Ty::Enum(Box::new(t))),
                None => None,
            },
            Ty::StaticRecord(t) => match run_to_type(m, table, *t) {
                Some(t) => Some(Ty::StaticRecord(Box::new(t))),
                None => None,
            },
            Ty::DynRecord(t) => match run_to_type(m, table, *t) {
                Some(t) => Some(Ty::DynRecord(Box::new(t))),
                None => None,
            },
            Ty::List(t) => match run_to_type(m, table, *t) {
                Some(t) => Some(Ty::List(Box::new(t))),
                None => None,
            },
            _ => Some(ty),
        }
    }
}

/// The outcome of typechecking a term in a global environment, within `n` nested calls: its type,
/// or the error.
pub open spec fn run_type_check(
    n: nat,
    imports: Map<FileId, RichTerm>,
    global: Map<Name, Ty>,
    t: RichTerm,
) -> Option<Result<Ty, CheckErr>>
    decreases n, 0nat, 0int,
{
    if n == 0 {
        None
    } else {
        let m = (n - 1) as nat;
        let st = initial(imports);
        let ty = Ty::Ptr(next_var(st.table));
        match run_check(m, with_var(st), global_scope(global), false, t, ty) {
            None => None,
            Some((_, Err(err))) => Some(Err(err)),
            Some((st, Ok(()))) => match run_to_type(m, st.table, ty) {
                None => None,
                Some(ty) => Some(Ok(ty)),
            },
        }
    }
}

/// The model of the outcome of typechecking.
pub open spec fn check_outcome(res: Option<Result<(), TypecheckError>>, st: St) -> Checked {
    match res {
        Some(Ok(())) => Some((st, Ok(()))),
        Some(Err(err)) => Some((st, Err(err@))),
        None => None,
    }
}

/// Try to unify two types in strict mode, and report the error at a position.
fn expect_within<R: ImportResolver>(
    limit: usize,
    state: &mut State<R>,
    strict: bool,
    t1: TypeWrapper,
    t2: TypeWrapper,
    pos: TermPos,
) -> (res: Option<Result<(), TypecheckError>>)
    ensures
        check_outcome(res, final(state)@) == run_expect(
            limit as nat,
            old(state)@,
            strict,
            t1@,
            t2@,
            pos,
        ),
{
    reveal(run_expect);
    match check_sub_within(limit, state, strict, t1, t2) {
        None => None,
        Some(Ok(())) => Some(Ok(())),
        Some(Err(err)) => match err.into_typecheck_err_within(
            limit,
            &*state,
            &mut NameReg::new(),
            pos,
        ) {
            None => None,
            Some(err) => Some(Err(err)),
        },
    }
}

/// The expressions of the first chunks are the first expressions.
pub proof fn lemma_chunks_against(chunks: Seq<StrChunk>, i: int)
    requires
        0 <= i <= chunks.len(),
    ensures
        chunks_against(chunks.take(i)).len() <= chunks_against(chunks).len(),
        chunks_against(chunks).take(chunks_against(chunks.take(i)).len() as int)
            == chunks_against(chunks.take(i)),
    decreases chunks.len() - i,
{
    let all = chunks_against(chunks);
    let head = chunks_against(chunks.take(i));
    if i == chunks.len() {
        assert(chunks.take(i) =~= chunks);
        assert(all.take(all.len() as int) =~= all);
    } else {
        lemma_chunks_against(chunks, i + 1);
        let next = chunks_against(chunks.take(i + 1));
        assert(chunks.take(i + 1).drop_last() =~= chunks.take(i));
        assert(all.take(head.len() as int) =~= all.take(next.len() as int).take(head.len() as int));
        assert(next.take(head.len() as int) =~= head);
    }
}

/// Typecheck the interpolated expressions of a string.
fn check_chunks<R: ImportResolver>(
    limit: usize,
    state: &mut State<R>,
    envs: Envs,
    strict: bool,
    chunks: &Vec<StrChunk>,
) -> (res: Option<Result<(), TypecheckError>>)
    ensures
        check_outcome(res, final(state)@) == run_check_seq(
            limit as nat,
            old(state)@,
            envs@,
            strict,
            chunks_against(chunks@),
            0,
        ),
    decreases limit, 1nat,
{
    let mut i: usize = 0;
    let ghost todo = chunks_against(chunks@);
    let ghost out = run_check_seq(limit as nat, state@, envs@, strict, todo, 0);
    assert(chunks@.take(0) =~= Seq::empty());
    while i < chunks.len()
        invariant
            i <= chunks@.len(),
            todo == chunks_against(chunks@),
            out == run_check_seq(
                limit as nat,
                state@,
                envs@,
                strict,
                todo,
                chunks_against(chunks@.take(i as int)).len() as int,
            ),
            out == run_check_seq(limit as nat, old(state)@, envs@, strict, todo, 0),
        decreases chunks@.len() - i,
    {
        proof {
            lemma_chunks_against(chunks@, i as int + 1);
            assert(chunks@.take(i as int + 1).drop_last() =~= chunks@.take(i as int));
        }
        match &chunks[i] {
            StrChunk::Literal(_) => {},
            StrChunk::Expr(t, _) => {
                proof {
                    let k = chunks_against(chunks@.take(i as int)).len() as int;
                    let next = chunks_against(chunks@.take(i as int + 1));
                    assert(next[k] == (*t, Ty::Str));
                    assert(todo.take(next.len() as int)[k] == todo[k]);
                }
                match check_within(
                    limit,
                    state,
                    envs.clone(),
                    strict,
                    t,
                    mk_typewrapper::str(),
                ) {
                    None => return None,
                    Some(Err(err)) => return Some(Err(err)),
                    Some(Ok(())) => {},
                }
            },
        }
        i += 1;
    }
    assert(chunks@.take(i as int) =~= chunks@);
    Some(Ok(()))
}

/// Typecheck terms one after the other against the same type.
fn check_all<R: ImportResolver>(
    limit: usize,
    state: &mut State<R>,
    envs: Envs,
    strict: bool,
    terms: &Vec<RichTerm>,
    ty: TypeWrapper,
) -> (res: Option<Result<(), TypecheckError>>)
    ensures
        check_outcome(res, final(state)@) == run_check_seq(
            limit as nat,
            old(state)@,
            envs@,
            strict,
            all_against(terms@, ty@),
            0,
        ),
    decreases limit, 1nat,
{
    let mut i: usize = 0;
    let ghost todo = all_against(terms@, ty@);
    let ghost out = run_check_seq(limit as nat, state@, envs@, strict, todo, 0);
    while i < terms.len()
        invariant
            i <= terms@.len(),
            todo == all_against(terms@, ty@),
            out == run_check_seq(limit as nat, state@, envs@, strict, todo, i as int),
            out == run_check_seq(limit as nat, old(state)@, envs@, strict, todo, 0),
        decreases terms@.len() - i,
    {
        assert(todo[i as int] == (terms@[i as int], ty@));
        match check_within(limit, state, envs.clone(), strict, &terms[i], ty.clone()) {
            None => return None,
            Some(Err(err)) => return Some(Err(err)),
            Some(Ok(())) => {},
        }
        i += 1;
    }
    Some(Ok(()))
}

/// Typecheck the terms of bindings one after the other against the same type.
fn check_all_fields<R: ImportResolver>(
    limit: usize,
    state: &mut State<R>,
    envs: Envs,
    strict: bool,
    fields: &Vec<(Ident, RichTerm)>,
    ty: TypeWrapper,
) -> (res: Option<Result<(), TypecheckError>>)
    ensures
        check_outcome(res, final(state)@) == run_check_seq(
            limit as nat,
            old(state)@,
            envs@,
            strict,
            fields_against(fields@, ty@),
            0,
        ),
    decreases limit, 1nat,
{
    let mut i: usize = 0;
    let ghost todo = fields_against(fields@, ty@);
    let ghost out = run_check_seq(limit as nat, state@, envs@, strict, todo, 0);
    while i < fields.len()
        invariant
            i <= fields@.len(),
            todo == fields_against(fields@, ty@),
            out == run_check_seq(limit as nat, state@, envs@, strict, todo, i as int),
            out == run_check_seq(limit as nat, old(state)@, envs@, strict, todo, 0),
        decreases fields@.len() - i,
    {
        assert(todo[i as int] == (fields@[i as int].1, ty@));
        match check_within(limit, state, envs.clone(), strict, &fields[i].1, ty.clone()) {
            None => return None,
            Some(Err(err)) => return Some(Err(err)),
            Some(Ok(())) => {},
        }
        i += 1;
    }
    Some(Ok(()))
}

/// Typecheck the arguments of an operator one after the other, each against its own type.
fn check_args<R: ImportResolver>(
    limit: usize,
    state: &mut State<R>,
    envs: Envs,
    strict: bool,
    args: &Vec<RichTerm>,
    types: Vec<TypeWrapper>,
) -> (res: Option<Result<(), TypecheckError>>)
    ensures
        check_outcome(res, final(state)@) == run_check_seq(
            limit as nat,
            old(state)@,
            envs@,
            strict,
            args_against(args@, tys(types@)),
            0,
        ),
    decreases limit, 1nat,
{
    let mut i: usize = 0;
    let ghost todo = args_against(args@, tys(types@));
    let ghost out = run_check_seq(limit as nat, state@, envs@, strict, todo, 0);
    while i < args.len() && i < types.len()
        invariant
            i <= args@.len(),
            i <= types@.len(),
            todo == args_against(args@, tys(types@)),
            out == run_check_seq(limit as nat, state@, envs@, strict, todo, i as int),
            out == run_check_seq(limit as nat, old(state)@, envs@, strict, todo, 0),
        decreases args@.len() - i,
    {
        assert(todo[i as int] == (args@[i as int], types@[i as int]@));
        match check_within(limit, state, envs.clone(), strict, &args[i], types[i].clone()) {
            None => return None,
            Some(Err(err)) => return Some(Err(err)),
            Some(Ok(())) => {},
        }
        i += 1;
    }
    Some(Ok(()))
}

/// The model of the outcome of typechecking the fields of a record.
pub open spec fn fields_outcome(res: Option<Result<TypeWrapper, TypecheckError>>, st: St) -> Option<
    (St, Result<Ty, CheckErr>),
> {
    match res {
        Some(Ok(row)) => Some((st, Ok(row@))),
        Some(Err(err)) => Some((st, Err(err@))),
        None => None,
    }
}

/// Typecheck the fields of a record one after the other, and build its row.
fn check_fields<R: ImportResolver>(
    limit: usize,
    state: &mut State<R>,
    envs: Envs,
    strict: bool,
    rec: bool,
    fields: &Vec<(Ident, RichTerm)>,
) -> (res: Option<Result<TypeWrapper, TypecheckError>>)
    ensures
        fields_outcome(res, final(state)@) == run_check_fields(
            limit as nat,
            old(state)@,
            envs@,
            strict,
            rec,
            fields@,
            0,
            Ty::RowEmpty,
        ),
    decreases limit, 1nat,
{
    let mut i: usize = 0;
    let mut row = mk_typewrapper::row_empty();
    let ghost out = run_check_fields(
        limit as nat,
        state@,
        envs@,
        strict,
        rec,
        fields@,
        0,
        Ty::RowEmpty,
    );
    while i < fields.len()
        invariant
            i <= fields@.len(),
            out == run_check_fields(
                limit as nat,
                state@,
                envs@,
                strict,
                rec,
                fields@,
                i as int,
                row@,
            ),
            out == run_check_fields(
                limit as nat,
                old(state)@,
                envs@,
                strict,
                rec,
                fields@,
                0,
                Ty::RowEmpty,
            ),
        decreases fields@.len() - i,
    {
        let (id, field) = &fields[i];
        // In the case of a recursive record, new types (either type variables or annotations)
        // have already be determined and put in the typing environment, and we need to use the
        // same.
        let ty = if rec {
            match envs.get(id) {
                Some(ty) => ty,
                None => return None,
            }
        } else {
            TypeWrapper::Ptr(state.fresh())
        };
        match check_within(limit, state, envs.clone(), strict, field, ty.clone()) {
            None => return None,
            Some(Err(err)) => return Some(Err(err)),
            Some(Ok(())) => {},
        }
        row = mk_typewrapper::record_row(id.clone(), ty, row);
        i += 1;
    }
    Some(Ok(row))
}

/// Bind the fields of a recursive record in the environment, each to its apparent type or to a new
/// variable.
fn bind_rec_fields<'a, R: ImportResolver>(
    state: &mut State<R>,
    envs: Envs<'a>,
    strict: bool,
    fields: &Vec<(Ident, RichTerm)>,
) -> (res: Envs<'a>)
    ensures
        (final(state)@.table, res@) == bind_fields(old(state)@.table, envs@, strict, fields@, 0),
        final(state)@ == (St { table: final(state)@.table, ..old(state)@ }),
{
    let mut envs = envs;
    let mut i: usize = 0;
    let ghost out = bind_fields(state@.table, envs@, strict, fields@, 0);
    while i < fields.len()
        invariant
            i <= fields@.len(),
            out == bind_fields(state@.table, envs@, strict, fields@, i as int),
            state@ == (St { table: state@.table, ..old(state)@ }),
        decreases fields@.len() - i,
    {
        let (id, rt) = &fields[i];
        let tyw = binding_type(&*rt.term, &envs, &mut state.table, strict);
        envs.insert(id.clone(), tyw);
        i += 1;
    }
    envs
}

/// Typecheck a record against a type.
fn check_record<R: ImportResolver>(
    limit: usize,
    state: &mut State<R>,
    envs: Envs,
    strict: bool,
    rec: bool,
    fields: &Vec<(Ident, RichTerm)>,
    ty: TypeWrapper,
    pos: TermPos,
) -> (res: Option<Result<(), TypecheckError>>)
    ensures
        check_outcome(res, final(state)@) == run_check_record(
            limit as nat,
            old(state)@,
            envs@,
            strict,
            rec,
            fields@,
            ty@,
            pos,
        ),
    decreases limit, 2nat,
{
    let root_ty = match resolve_within(limit, &state.table, ty.clone()) {
        Some(root_ty) => root_ty,
        None => return None,
    };
    match root_ty {
        // Checking for a dynamic record
        TypeWrapper::Concrete(AbsType::DynRecord(rec_ty)) => check_all_fields(
            limit,
            state,
            envs,
            strict,
            fields,
            *rec_ty,
        ),
        _ => match check_fields(limit, state, envs, strict, rec, fields) {
            None => None,
            Some(Err(err)) => Some(Err(err)),
            Some(Ok(row)) => expect_within(
                limit,
                state,
                strict,
                mk_typewrapper::record(row),
                ty,
                pos,
            ),
        },
    }
}

/// The enum row of the cases of a switch.
fn mk_cases_row(cases: &Vec<(Ident, RichTerm)>) -> (res: TypeWrapper)
    ensures
        res@ == cases_row(cases@),
{
    let mut row = mk_typewrapper::row_empty();
    let mut i: usize = 0;
    while i < cases.len()
        invariant
            i <= cases@.len(),
            row@ == cases_row(cases@.take(i as int)),
        decreases cases@.len() - i,
    {
        row = mk_typewrapper::enum_row(cases[i].0.clone(), row);
        assert(cases@.take(i as int + 1).drop_last() =~= cases@.take(i as int));
        i += 1;
    }
    assert(cases@.take(i as int) =~= cases@);
    row
}

/// Typecheck a switch against a type.
fn check_switch<R: ImportResolver>(
    limit: usize,
    state: &mut State<R>,
    envs: Envs,
    strict: bool,
    exp: &RichTerm,
    cases: &Vec<(Ident, RichTerm)>,
    default: &Option<RichTerm>,
    ty: TypeWrapper,
    pos: TermPos,
) -> (res: Option<Result<(), TypecheckError>>)
    ensures
        check_outcome(res, final(state)@) == run_check_switch(
            limit as nat,
            old(state)@,
            envs@,
            strict,
            *exp,
            cases@,
            *default,
            ty@,
            pos,
        ),
    decreases limit, 2nat,
{
    // Currently, if it has a default value, we typecheck the whole thing as
    // taking ANY enum, since it's more permissive and there's no loss of information
    let res = TypeWrapper::Ptr(state.fresh());
    match check_all_fields(limit, state, envs.clone(), strict, cases, res.clone()) {
        None => return None,
        Some(Err(err)) => return Some(Err(err)),
        Some(Ok(())) => {},
    }
    let row = match default {
        Some(t) => {
            match check_within(limit, state, envs.clone(), strict, t, res.clone()) {
                None => return None,
                Some(Err(err)) => return Some(Err(err)),
                Some(Ok(())) => {},
            }
            TypeWrapper::Ptr(state.fresh())
        },
        None => mk_cases_row(cases),
    };
    match expect_within(limit, state, strict, res, ty, pos) {
        None => None,
        Some(Err(err)) => Some(Err(err)),
        Some(Ok(())) => check_within(
            limit,
            state,
            envs,
            strict,
            exp,
            mk_typewrapper::enumeration(row),
        ),
    }
}

/// Typecheck a term with a type annotation against a type.
fn check_promise<R: ImportResolver>(
    limit: usize,
    state: &mut State<R>,
    envs: Envs,
    strict: bool,
    ty2: &Types,
    t: &RichTerm,
    ty: TypeWrapper,
    pos: TermPos,
) -> (res: Option<Result<(), TypecheckError>>)
    ensures
        check_outcome(res, final(state)@) == run_check_promise(
            limit as nat,
            old(state)@,
            envs@,
            strict,
            ty2@,
            *t,
            ty@,
            pos,
        ),
    decreases limit, 1nat,
{
    let tyw2 = to_typewrapper(ty2.clone());
    let instantiated = match instantiate_foralls_within(
        limit,
        state,
        tyw2.clone(),
        ForallInst::Constant,
    ) {
        Some(instantiated) => instantiated,
        None => return None,
    };
    match expect_within(limit, state, strict, tyw2, ty, pos) {
        None => None,
        Some(Err(err)) => Some(Err(err)),
        Some(Ok(())) => check_within(limit, state, envs, true, t, instantiated),
    }
}

/// Typecheck a metavalue against a type.
fn check_meta<R: ImportResolver>(
    limit: usize,
    state: &mut State<R>,
    envs: Envs,
    strict: bool,
    meta: &MetaValue,
    ty: TypeWrapper,
    pos: TermPos,
) -> (res: Option<Result<(), TypecheckError>>)
    ensures
        check_outcome(res, final(state)@) == run_check_meta(
            limit as nat,
            old(state)@,
            envs@,
            strict,
            *meta,
            ty@,
            pos,
        ),
    decreases limit, 2nat,
{
    // A non-empty metavalue with a type annotation is a promise.
    if let Some(ctr) = &meta.types {
        if let Some(t) = &meta.value {
            return check_promise(limit, state, envs, strict, &ctr.types, t, ty, pos);
        }
    }
    // A metavalue with at least one contract is an assume. If there's several
    // contracts, we arbitrarily chose the first one as the type annotation.
    if meta.contracts.len() > 0 {
        let ty2 = to_typewrapper(meta.contracts[0].types.clone());
        match expect_within(limit, state, strict, ty2, ty, pos) {
            None => return None,
            Some(Err(err)) => return Some(Err(err)),
            Some(Ok(())) => {},
        }
        // if there's an inner value, we have to recursively typecheck it, but in non strict
        // mode.
        return match &meta.value {
            Some(t) => check_within(limit, state, envs, false, t, mk_typewrapper::dynamic()),
            None => Some(Ok(())),
        };
    }
    match &meta.value {
        // A non-empty metavalue without a type or contract annotation is typechecked in the same
        // way as its inner value
        Some(t) => check_within(limit, state, envs, strict, t, ty),
        // A metavalue without a body nor a type annotation is a record field without definition.
        // This should probably be non representable in the syntax, as it doesn't really make
        // sense. In any case, we infer it to be of type `Dyn` for now.
        None => expect_within(limit, state, strict, mk_typewrapper::dynamic(), ty, pos),
    }
}

/// Typecheck a term against a specific type, within `limit` nested calls.
#[verifier::rlimit(30)]
pub fn check_within<R: ImportResolver>(
    limit: usize,
    state: &mut State<R>,
    envs: Envs,
    strict: bool,
    rt: &RichTerm,
    ty: TypeWrapper,
) -> (res: Option<Result<(), TypecheckError>>)
    ensures
        check_outcome(res, final(state)@) == run_check(
            limit as nat,
            old(state)@,
            envs@,
            strict,
            *rt,
            ty@,
        ),
    decreases limit, 0nat,
{
    if limit == 0 {
        return None;
    }
    let limit = limit - 1;
    let mut envs = envs;
    let pos = rt.pos;
    match &*rt.term {
        // null is inferred to be of type Dyn
        Term::Null => expect_within(limit, state, strict, mk_typewrapper::dynamic(), ty, pos),
        Term::Bool(_) => expect_within(limit, state, strict, mk_typewrapper::bool(), ty, pos),
        Term::Num(_) => expect_within(limit, state, strict, mk_typewrapper::num(), ty, pos),
        Term::Str(_) => expect_within(limit, state, strict, mk_typewrapper::str(), ty, pos),
        Term::StrChunks(chunks) => {
            match expect_within(limit, state, strict, mk_typewrapper::str(), ty, pos) {
                None => None,
                Some(Err(err)) => Some(Err(err)),
                Some(Ok(())) => check_chunks(limit, state, envs, strict, chunks),
            }
        },
        Term::Fun(x, t) => {
            let src = TypeWrapper::Ptr(state.fresh());
            let trg = TypeWrapper::Ptr(state.fresh());
            let arr = mk_typewrapper::arrow_of(src.clone(), trg.clone());
            match expect_within(limit, state, strict, arr, ty, pos) {
                None => None,
                Some(Err(err)) => Some(Err(err)),
                Some(Ok(())) => {
                    envs.insert(x.clone(), src);
                    check_within(limit, state, envs, strict, t, trg)
                },
            }
        },
        Term::List(terms) => {
            let ty_elts = TypeWrapper::Ptr(state.fresh());
            let ty_list = mk_typewrapper::list(ty_elts.clone());
            match expect_within(limit, state, strict, ty_list, ty, pos) {
                None => None,
                Some(Err(err)) => Some(Err(err)),
                Some(Ok(())) => check_all(limit, state, envs, strict, terms, ty_elts),
            }
        },
        Term::Lbl(_) => expect_within(limit, state, strict, mk_typewrapper::dynamic(), ty, pos),
        Term::Let(x, re, body) => {
            let ty_let = binding_type(&*re.term, &envs, &mut state.table, strict);
            match check_within(limit, state, envs.clone(), strict, re, ty_let.clone()) {
                None => None,
                Some(Err(err)) => Some(Err(err)),
                Some(Ok(())) => {
                    envs.insert(x.clone(), ty_let);
                    check_within(limit, state, envs, strict, body, ty)
                },
            }
        },
        Term::App(e, t) => {
            let src = TypeWrapper::Ptr(state.fresh());
            let tgt = TypeWrapper::Ptr(state.fresh());
            let arr = mk_typewrapper::arrow_of(src.clone(), tgt.clone());
            match expect_within(limit, state, strict, tgt, ty, pos) {
                None => return None,
                Some(Err(err)) => return Some(Err(err)),
                Some(Ok(())) => {},
            }
            // This order shouldn't be changed, since applying a function to a record
            // may change how it's typed (static or dynamic)
            // This is good hint a bidirectional algorithm would make sense...
            match check_within(limit, state, envs.clone(), strict, e, arr) {
                None => None,
                Some(Err(err)) => Some(Err(err)),
                Some(Ok(())) => check_within(limit, state, envs, strict, t, src),
            }
        },
        Term::Switch(exp, cases, default) => check_switch(
            limit,
            state,
            envs,
            strict,
            exp,
            cases,
            default,
            ty,
            pos,
        ),
        Term::Var(x) => {
            let x_ty = match envs.get(x) {
                Some(x_ty) => x_ty,
                None => return Some(Err(TypecheckError::UnboundIdentifier(x.clone(), pos))),
            };
            match instantiate_foralls_within(limit, state, x_ty, ForallInst::Ptr) {
                None => None,
                Some(instantiated) => expect_within(limit, state, strict, instantiated, ty, pos),
            }
        },
        Term::Enum(id) => {
            let row = TypeWrapper::Ptr(state.fresh());
            let ty_enum = mk_typewrapper::enumeration(mk_typewrapper::enum_row(id.clone(), row));
            expect_within(limit, state, strict, ty_enum, ty, pos)
        },
        Term::Record(stat_map, _) => check_record(
            limit,
            state,
            envs,
            strict,
            false,
            stat_map,
            ty,
            pos,
        ),
        // For recursive records, we look at the apparent type of each field and bind it in
        // env before actually typechecking the content of fields
        Term::RecRecord(stat_map, _) => {
            let envs = bind_rec_fields(state, envs, strict, stat_map);
            check_record(limit, state, envs, strict, true, stat_map, ty, pos)
        },
        Term::Op1(op, t) => {
            if !op.is_typed() {
                return None;
            }
            let (ty_arg, ty_res) = match get_uop_type(state, op) {
                Ok(tys_op) => tys_op,
                Err(err) => return Some(Err(err)),
            };
            match expect_within(limit, state, strict, ty_res, ty, pos) {
                None => None,
                Some(Err(err)) => Some(Err(err)),
                Some(Ok(())) => check_within(limit, state, envs, strict, t, ty_arg),
            }
        },
        Term::Op2(op, t1, t2) => {
            if !op.is_typed() {
                return None;
            }
            let (ty_arg1, ty_arg2, ty_res) = match get_bop_type(state, op) {
                Ok(tys_op) => tys_op,
                Err(err) => return Some(Err(err)),
            };
            match expect_within(limit, state, strict, ty_res, ty, pos) {
                None => return None,
                Some(Err(err)) => return Some(Err(err)),
                Some(Ok(())) => {},
            }
            match check_within(limit, state, envs.clone(), strict, t1, ty_arg1) {
                None => None,
                Some(Err(err)) => Some(Err(err)),
                Some(Ok(())) => check_within(limit, state, envs, strict, t2, ty_arg2),
            }
        },
        Term::OpN(op, args) => {
            if !op.is_typed() {
                return None;
            }
            let (tys_op, ty_ret) = match get_nop_type(state, op) {
                Ok(tys_op) => tys_op,
                Err(err) => return Some(Err(err)),
            };
            match expect_within(limit, state, strict, ty_ret, ty, pos) {
                None => None,
                Some(Err(err)) => Some(Err(err)),
                Some(Ok(())) => check_args(limit, state, envs, strict, args, tys_op),
            }
        },
        Term::Promise(ty2, _, t) => check_promise(limit, state, envs, strict, ty2, t, ty, pos),
        Term::Sym(_) => expect_within(limit, state, strict, mk_typewrapper::sym(), ty, pos),
        Term::Wrapped(_, t) => check_within(limit, state, envs, strict, t, ty),
        Term::MetaValue(meta) => check_meta(limit, state, envs, strict, meta, ty, pos),
        Term::Import(_) => expect_within(
            limit,
            state,
            strict,
            mk_typewrapper::dynamic(),
            ty,
            pos,
        ),
        Term::ResolvedImport(file_id) => {
            let t = match state.resolver.get(*file_id) {
                Some(t) => t,
                None => return None,
            };
            match type_check_in_env_within(limit, &t, envs.global, state.resolver) {
                None => None,
                Some(Ok(_)) => Some(Ok(())),
                Some(Err(err)) => Some(Err(err)),
            }
        },
    }
}

/// The model of an inferred type.
pub open spec fn inferred(res: Option<Types>) -> Option<Ty> {
    match res {
        Some(ty) => Some(ty@),
        None => None,
    }
}

/// The model of the outcome of typechecking a term in a global environment.
pub open spec fn type_check_outcome(res: Option<Result<Types, TypecheckError>>) -> Option<
    Result<Ty, CheckErr>,
> {
    match res {
        Some(Ok(ty)) => Some(Ok(ty@)),
        Some(Err(err)) => Some(Err(err@)),
        None => None,
    }
}

/// Typecheck a term using the given global typing environment, within `limit` nested calls.
pub fn type_check_in_env_within<R: ImportResolver>(
    limit: usize,
    t: &RichTerm,
    global: &Environment,
    resolver: &R,
) -> (res: Option<Result<Types, TypecheckError>>)
    ensures
        type_check_outcome(res) == run_type_check(limit as nat, resolver.terms(), global@, *t),
        is_plain_env(global@) ==> (res matches Some(Ok(ty)) ==> ty@ is Dyn),
    decreases limit, 0nat,
{
    if limit == 0 {
        return None;
    }
    let mut state = State::new(resolver);
    let ty = TypeWrapper::Ptr(state.fresh());
    match check_within(limit - 1, &mut state, Envs::from_global(global), false, t, ty.clone()) {
        None => None,
        Some(Err(err)) => Some(Err(err)),
        Some(Ok(())) => {
            let _count: usize = state.var_count();
            proof {
                if is_plain_env(global@) {
                    law_type_check_dyn(limit as nat, resolver.terms(), global@, *t);
                }
            }
            match extract_type_within(limit - 1, &state.table, ty) {
                None => None,
                Some(ty) => Some(Ok(ty)),
            }
        },
    }
}

/// Extract the concrete type corresponding to a type wrapper, within `limit` nested calls.
pub fn extract_type_within(limit: usize, table: &UnifTable, ty: TypeWrapper) -> (res: Option<Types>)
    ensures
        inferred(res) == run_to_type(limit as nat, table_of(*table), ty@),
    decreases limit,
{
    if limit == 0 {
        return None;
    }
    let ty = match ty {
        TypeWrapper::Ptr(p) => {
            return match get_root_within(limit - 1, table, p) {
                None => None,
                Some(TypeWrapper::Concrete(t)) => extract_type_within(
                    limit - 1,
                    table,
                    TypeWrapper::Concrete(t),
                ),
                Some(_) => Some(Types::Dyn()),
            };
        },
        TypeWrapper::Constant(_) => return Some(Types::Dyn()),
        TypeWrapper::Concrete(ty) => ty,
    };
    match ty {
        AbsType::Arrow(s, t) => match (
            extract_type_within(limit - 1, table, *s),
            extract_type_within(limit - 1, table, *t),
        ) {
            (Some(s), Some(t)) => Some(Types::Arrow(Box::new(s), Box::new(t))),
            _ => None,
        },
        AbsType::Forall(id, t) => match extract_type_within(limit - 1, table, *t) {
            Some(t) => Some(Types::Forall(id, Box::new(t))),
            None => None,
        },
        AbsType::RowExtend(id, None, tail) => match extract_type_within(limit - 1, table, *tail) {
            Some(tail) => Some(Types::RowExtend(id, None, Box::new(tail))),
            None => None,
        },
        AbsType::RowExtend(id, Some(t), tail) => match (
            extract_type_within(limit - 1, table, *t),
            extract_type_within(limit - 1, table, *tail),
        ) {
            (Some(t), Some(tail)) => Some(
                Types::RowExtend(id, Some(Box::new(t)), Box::new(tail)),
            ),
            _ => None,
        },
        AbsType::Enum(t) => match extract_type_within(limit - 1, table, *t) {
            Some(t) => Some(Types::Enum(Box::new(t))),
            None => None,
        },
        AbsType::StaticRecord(t) => match extract_type_within(limit - 1, table, *t) {
            Some(t) => Some(Types::StaticRecord(Box::new(t))),
            None => None,
        },
        AbsType::DynRecord(t) => match extract_type_within(limit - 1, table, *t) {
            Some(t) => Some(Types::DynRecord(Box::new(t))),
            None => None,
        },
        AbsType::List(t) => match extract_type_within(limit - 1, table, *t) {
            Some(t) => Some(Types::List(Box::new(t))),
            None => None,
        },
        AbsType::Dyn() => Some(Types::Dyn()),
        AbsType::Num() => Some(Types::Num()),
        AbsType::Bool() => Some(Types::Bool()),
        AbsType::Str() => Some(Types::Str()),
        AbsType::Sym() => Some(Types::Sym()),
        AbsType::RowEmpty() => Some(Types::RowEmpty()),
        AbsType::Flat(t) => Some(Types::Flat(t)),
        AbsType::Var(id) => Some(Types::Var(id)),
    }
}

/// Extract the concrete type corresponding to a type wrapper. Free unification variables as well
/// as type constants are replaced with the type `Dyn`.
pub fn to_type(table: &UnifTable, ty: TypeWrapper) -> (res: Types)
    requires
        run_to_type(max_depth(), table_of(*table), ty@) is Some,
    ensures
        Some(res@) == run_to_type(max_depth(), table_of(*table), ty@),
{
    extract_type_within(usize::MAX, table, ty).unwrap()
}

/// Typecheck a term against a specific type.
///
/// # Arguments
///
/// - `state`: the unification state.
/// - `env`: the typing environment, mapping free variable to types.
/// - `strict`: the typechecking mode.
/// - `t`: the term to check.
/// - `ty`: the type to check the term against.
///
/// When it succeeds on a well-formed table, the term has the type by the typing rules, under the
/// resulting table, which is well-formed too.
pub fn check_<R: ImportResolver>(
    state: &mut State<R>,
    envs: Envs,
    strict: bool,
    rt: &RichTerm,
    ty: TypeWrapper,
) -> (res: Result<(), TypecheckError>)
    requires
        run_check(max_depth(), old(state)@, envs@, strict, *rt, ty@) is Some,
    ensures
        check_outcome(Some(res), final(state)@) == run_check(
            max_depth(),
            old(state)@,
            envs@,
            strict,
            *rt,
            ty@,
        ),
        is_wf(old(state)@.table) ==> is_wf(final(state)@.table),
        is_wf(old(state)@.table) && res is Ok ==> typed(
            final(state)@.table,
            old(state)@.table.dom().len(),
            old(state)@.imports,
            envs@,
            strict,
            *rt,
            ty@,
        ),
{
    let ghost scope = envs@;
    let res = check_within(usize::MAX, state, envs, strict, rt, ty).unwrap();
    let _count: usize = state.var_count();
    proof {
        let st = old(state)@;
        law_check_table(max_depth(), st, scope, strict, *rt, ty@);
        if is_wf(st.table) {
            law_later_table(st.table, state@.table);
            if res is Ok {
                law_check_sound(max_depth(), st, scope, strict, *rt, ty@, state@);
            }
        }
    }
    res
}

/// Typecheck a term using the given global typing environment. Same as `type_check`, but it
/// directly takes a global typing environment, instead of building one from a term environment as
/// `type_check` does.
///
/// This function is used to typecheck an import in a clean environment, when we don't have access
/// to the original term environment anymore, and hence cannot call `type_check` directly, but we
/// already have built a global typing environment.
///
/// Return the inferred type in case of success. This is just a wrapper that calls `check_` with a
/// fresh unification variable as goal. Typechecking starts in non-strict mode, hence nothing is
/// unified with the goal, and the inferred type is `Dyn`.
pub fn type_check_in_env<R: ImportResolver>(
    t: &RichTerm,
    global: &Environment,
    resolver: &R,
) -> (res: Result<Types, TypecheckError>)
    requires
        run_type_check(max_depth(), resolver.terms(), global@, *t) is Some,
    ensures
        type_check_outcome(Some(res)) == run_type_check(
            max_depth(),
            resolver.terms(),
            global@,
            *t,
        ),
        is_plain_env(global@) ==> (res matches Ok(ty) ==> ty@ is Dyn),
{
    type_check_in_env_within(usize::MAX, t, global, resolver).unwrap()
}

/// Typecheck a term, within `limit` nested calls.
pub fn type_check_within<R: ImportResolver>(
    limit: usize,
    t: &RichTerm,
    global_eval_env: &eval::Environment,
    resolver: &R,
) -> (res: Option<Result<Types, TypecheckError>>)
    ensures
        type_check_outcome(res) == run_type_check(
            limit as nat,
            resolver.terms(),
            global_types(global_eval_env@),
            *t,
        ),
        res matches Some(Ok(ty)) ==> ty@ is Dyn,
{
    proof {
        law_global_types_plain(global_eval_env@);
    }
    let global = Envs::mk_global(global_eval_env);
    type_check_in_env_within(limit, t, &global, resolver)
}

/// Typecheck a term.
///
/// Return the inferred type in case of success. This is just a wrapper that calls `check_` with a
/// fresh unification variable as goal. Typechecking starts in non-strict mode, hence nothing is
/// unified with the goal, and the inferred type is `Dyn`.
pub fn type_check<R: ImportResolver>(
    t: &RichTerm,
    global_eval_env: &eval::Environment,
    resolver: &R,
) -> (res: Result<Types, TypecheckError>)
    requires
        run_type_check(
            max_depth(),
            resolver.terms(),
            global_types(global_eval_env@),
            *t,
        ) is Some,
    ensures
        type_check_outcome(Some(res)) == run_type_check(
            max_depth(),
            resolver.terms(),
            global_types(global_eval_env@),
            *t,
        ),
        res matches Ok(ty) ==> ty@ is Dyn,
{
    type_check_within(usize::MAX, t, global_eval_env, resolver).unwrap()
}

} // verus!
