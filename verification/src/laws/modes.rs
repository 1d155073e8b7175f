//! Non-strict mode does not enforce any typing: nothing is unified, and a term without type
//! annotations is only rejected for an unbound identifier, or for an import that is.
use vstd::prelude::*;
use vstd::set_lib::*;

use crate::identifier::Ident;
use crate::laws::table::{
    comes_after, fits, is_wf, law_constrain_var_table, lemma_after_refl, lemma_after_trans,
    lemma_new_var,
};
use crate::model::{
    arrow, enum_of, list_of, record_of, row_extend, CheckErr, Name, St, Table, Ty, UErr,
};
use crate::position::{FileId, TermPos};
use crate::term::{BinaryOp, MetaValue, RichTerm, StrChunk, Term, UnaryOp};
use crate::typecheck::check::{
    all_against, args_against, bind_fields, cases_row, chunks_against, fields_against, run_check,
    run_check_fields, run_check_meta, run_check_record, run_check_seq, run_check_switch, run_expect,
    run_type_check, Checked,
};
use crate::typecheck::envs::{bound_ty, in_scope, with_local, Scope};
use crate::typecheck::instantiate::{
    head_foralls, instance, lemma_subst_head_foralls, run_instantiate, run_instantiate_heads,
    ForallInst,
};
use crate::typecheck::ops::{bop_type, is_typed_bop, is_typed_nop, is_typed_uop, nop_type, uop_type};
use crate::typecheck::state::{next_var, run_constrain_var, run_resolve, with_var};
use crate::typecheck::unify::run_check_sub;
use crate::typecheck::wrapper::subst;

verus! {

/// In non-strict mode, unification always succeeds, and changes nothing.
pub proof fn law_nonstrict_unifies_nothing(n: nat, st: St, t1: Ty, t2: Ty)
    ensures
        run_check_sub(n, st, false, t1, t2) == Some((st, Ok::<(), UErr>(()))),
{
}

/// Whether a term has no type annotation in it that switches to strict mode.
pub open spec fn unannotated(rt: RichTerm) -> bool
    decreases rt,
{
    match *rt.term {
        Term::StrChunks(chunks) => forall|i: int|
            0 <= i < chunks@.len() ==> match #[trigger] chunks@[i] {
                StrChunk::Expr(t, _) => unannotated(t),
                StrChunk::Literal(_) => true,
            },
        Term::Fun(_, t) => unannotated(t),
        Term::List(terms) => forall|i: int|
            0 <= i < terms@.len() ==> unannotated(#[trigger] terms@[i]),
        Term::Let(_, re, body) => unannotated(re) && unannotated(body),
        Term::App(e, t) => unannotated(e) && unannotated(t),
        Term::Switch(exp, cases, default) => {
            &&& unannotated(exp)
            &&& forall|i: int| 0 <= i < cases@.len() ==> unannotated((#[trigger] cases@[i]).1)
            &&& match default {
                Some(t) => unannotated(t),
                None => true,
            }
        },
        Term::Record(fields, _) => forall|i: int|
            0 <= i < fields@.len() ==> unannotated((#[trigger] fields@[i]).1),
        Term::RecRecord(fields, _) => forall|i: int|
            0 <= i < fields@.len() ==> unannotated((#[trigger] fields@[i]).1),
        Term::Op1(_, t) => unannotated(t),
        Term::Op2(_, t1, t2) => unannotated(t1) && unannotated(t2),
        Term::OpN(_, args) => forall|i: int|
            0 <= i < args@.len() ==> unannotated(#[trigger] args@[i]),
        Term::Promise(_, _, _) => false,
        Term::Wrapped(_, t) => unannotated(t),
        Term::MetaValue(meta) => match meta.value {
            Some(t) => meta.types is None && unannotated(t),
            None => true,
        },
        _ => true,
    }
}

/// Whether a table has the variables of another, as they are there, and else free variables only,
/// as long as its variables can be numbered.
#[verifier::opaque]
pub open spec fn adds_free(old_table: Table, new_table: Table) -> bool {
    &&& comes_after(old_table, new_table)
    &&& is_wf(old_table) && fits(new_table) ==> {
        forall|x: usize| #[trigger]
            new_table.contains_key(x) ==> if old_table.contains_key(x) {
                new_table[x] == old_table[x]
            } else {
                new_table[x] is None
            }
    }
}

/// A table has its own variables.
proof fn lemma_adds_refl(table: Table)
    ensures
        adds_free(table, table),
{
    reveal(adds_free);
    lemma_after_refl(table);
}

/// Adding free variables twice is adding free variables.
broadcast proof fn lemma_adds_trans(a: Table, b: Table, c: Table)
    requires
        #[trigger] adds_free(a, b),
        #[trigger] adds_free(b, c),
    ensures
        adds_free(a, c),
{
    reveal(adds_free);
    lemma_after_trans(a, b, c);
    if is_wf(a) && fits(c) {
        reveal(comes_after);
        lemma_len_subset(b.dom(), c.dom());
        assert forall|x: usize| #[trigger] c.contains_key(x) implies if a.contains_key(x) {
            c[x] == a[x]
        } else {
            c[x] is None
        } by {
            if a.contains_key(x) {
                assert(b.contains_key(x));
            } else if b.contains_key(x) {
            }
        }
    }
}

/// A new variable is a free one.
proof fn lemma_adds_var(table: Table)
    ensures
        adds_free(table, table.insert(next_var(table), None)),
{
    reveal(adds_free);
    lemma_new_var(table);
    let new = table.insert(next_var(table), None);
    if is_wf(table) && fits(new) {
        reveal(comes_after);
        if table.contains_key(next_var(table)) {
            assert(new.dom() =~= table.dom());
        }
    }
}

/// Whether an error is the one of an import.
pub open spec fn is_import_err(
    imports: Map<FileId, RichTerm>,
    global: Map<Name, Ty>,
    err: CheckErr,
) -> bool {
    exists|n: nat, file_id: FileId|
        imports.contains_key(file_id) && #[trigger] run_type_check(
            n,
            imports,
            global,
            imports[file_id],
        ) == Some(Err::<Ty, CheckErr>(err))
}

/// What holds of the outcome of a run that does not enforce any typing.
pub open spec fn is_lax(st: St, global: Map<Name, Ty>, st2: St, err: Option<CheckErr>) -> bool {
    &&& adds_free(st.table, st2.table)
    &&& st2.imports == st.imports
    &&& match err {
        Some(err) => err is UnboundIdentifier || is_import_err(st.imports, global, err),
        None => true,
    }
}

/// The error of a result.
pub open spec fn error_of<T>(res: Result<T, CheckErr>) -> Option<CheckErr> {
    match res {
        Ok(_) => None,
        Err(err) => Some(err),
    }
}

/// The same, if the run returns.
pub open spec fn lax_out(st: St, global: Map<Name, Ty>, out: Checked) -> bool {
    match out {
        Some((st2, res)) => is_lax(st, global, st2, error_of(res)),
        None => true,
    }
}

/// What unification in strict mode does in non-strict mode.
proof fn lemma_expect_lax(n: nat, st: St, t1: Ty, t2: Ty, pos: TermPos)
    ensures
        run_expect(n, st, false, t1, t2, pos) matches Some((st2, res)) && st2 == st && res is Ok,
{
    reveal(run_expect);
}

/// Instantiating a type adds free variables.
proof fn lemma_instantiate_lax(n: nat, st: St, ty: Ty, inst: ForallInst)
    requires
        run_instantiate_heads(n, st, ty, inst) is Some,
    ensures
        ({
            let (st2, _) = run_instantiate_heads(n, st, ty, inst)->0;
            adds_free(st.table, st2.table) && st2.imports == st.imports
        }),
    decreases head_foralls(ty),
{
    broadcast use lemma_adds_trans;

    lemma_adds_refl(st.table);
    if let Ty::Forall(id, body) = ty {
        let fresh_id = next_var(st.table);
        lemma_subst_head_foralls(*body, id, instance(inst, fresh_id));
        let ty = subst(*body, id, instance(inst, fresh_id));
        lemma_adds_var(st.table);
        let st = with_var(st);
        let st = St { names: st.names.insert(fresh_id, id), ..st };
        match inst {
            ForallInst::Constant => lemma_instantiate_lax(n, st, ty, inst),
            ForallInst::Ptr => {
                law_constrain_var_table(n, st, Set::empty(), ty, fresh_id);
                let st = run_constrain_var(n, st, Set::empty(), ty, fresh_id)->0;
                lemma_instantiate_lax(n, st, ty, inst);
            },
        }
    }
}

/// The new variables of an operator are free.
proof fn lemma_uop_lax(st: St, op: UnaryOp)
    requires
        is_typed_uop(op),
    ensures
        adds_free(st.table, uop_type(st, op).0.table),
        uop_type(st, op).0.imports == st.imports,
{
    broadcast use lemma_adds_trans;

    lemma_adds_refl(st.table);
    lemma_adds_var(st.table);
    lemma_adds_var(with_var(st).table);
}

/// The new variables of an operator are free.
proof fn lemma_bop_lax(st: St, op: BinaryOp)
    requires
        is_typed_bop(op),
    ensures
        adds_free(st.table, bop_type(st, op).0.table),
        bop_type(st, op).0.imports == st.imports,
{
    broadcast use lemma_adds_trans;

    lemma_adds_refl(st.table);
    lemma_adds_var(st.table);
    lemma_adds_var(with_var(st).table);
}

/// In non-strict mode, binding the fields of a recursive record changes no table.
proof fn lemma_bind_fields_lax(
    table: Table,
    scope: Scope,
    fields: Seq<(Ident, RichTerm)>,
    i: int,
)
    ensures
        bind_fields(table, scope, false, fields, i).0 == table,
        bind_fields(table, scope, false, fields, i).1.global == scope.global,
    decreases fields.len() - i,
{
    if 0 <= i < fields.len() {
        let (id, t) = fields[i];
        let (table, ty) = bound_ty(table, scope, t, false);
        lemma_bind_fields_lax(table, with_local(scope, id@, ty), fields, i + 1);
    }
}

/// Visiting the terms of a sequence does not enforce any typing.
proof fn lemma_seq_lax(n: nat, st: St, scope: Scope, todo: Seq<(RichTerm, Ty)>, i: int)
    requires
        forall|j: int| 0 <= j < todo.len() ==> unannotated((#[trigger] todo[j]).0),
    ensures
        lax_out(st, scope.global, run_check_seq(n, st, scope, false, todo, i)),
    decreases n, 1nat, todo.len() - i,
{
    broadcast use lemma_adds_trans;

    lemma_adds_refl(st.table);
    if 0 <= i < todo.len() {
        lemma_check_lax(n, st, scope, todo[i].0, todo[i].1);
        if let Some((mid, Ok(()))) = run_check(n, st, scope, false, todo[i].0, todo[i].1) {
            lemma_seq_lax(n, mid, scope, todo, i + 1);
        }
    }
}

/// Visiting the fields of a record does not enforce any typing.
proof fn lemma_fields_lax(
    n: nat,
    st: St,
    scope: Scope,
    rec: bool,
    fields: Seq<(Ident, RichTerm)>,
    i: int,
    row: Ty,
)
    requires
        forall|j: int| 0 <= j < fields.len() ==> unannotated((#[trigger] fields[j]).1),
    ensures
        match run_check_fields(n, st, scope, false, rec, fields, i, row) {
            Some((st2, res)) => is_lax(st, scope.global, st2, error_of(res)),
            None => true,
        },
    decreases n, 1nat, fields.len() - i,
{
    broadcast use lemma_adds_trans;

    lemma_adds_refl(st.table);
    lemma_adds_var(st.table);
    if 0 <= i < fields.len() {
        let (id, t) = fields[i];
        if !rec || in_scope(scope, id@) is Some {
            let ty = if rec {
                in_scope(scope, id@)->0
            } else {
                Ty::Ptr(next_var(st.table))
            };
            let st1 = if rec {
                st
            } else {
                with_var(st)
            };
            lemma_check_lax(n, st1, scope, t, ty);
            if let Some((mid, Ok(()))) = run_check(n, st1, scope, false, t, ty) {
                let row1 = row_extend(id@, Some(ty), row);
                lemma_fields_lax(n, mid, scope, rec, fields, i + 1, row1);
            }
        }
    }
}

/// Visiting a record does not enforce any typing.
proof fn lemma_record_lax(
    n: nat,
    st: St,
    scope: Scope,
    rec: bool,
    fields: Seq<(Ident, RichTerm)>,
    ty: Ty,
    pos: TermPos,
)
    requires
        forall|j: int| 0 <= j < fields.len() ==> unannotated((#[trigger] fields[j]).1),
    ensures
        lax_out(st, scope.global, run_check_record(n, st, scope, false, rec, fields, ty, pos)),
    decreases n, 2nat, 0int,
{
    match run_resolve(n, st.table, ty) {
        None => {},
        Some(Ty::DynRecord(elt)) => {
            lemma_seq_lax(n, st, scope, fields_against(fields, *elt), 0);
        },
        Some(_) => {
            lemma_fields_lax(n, st, scope, rec, fields, 0, Ty::RowEmpty);
            if let Some((mid, Ok(row))) = run_check_fields(
                n,
                st,
                scope,
                false,
                rec,
                fields,
                0,
                Ty::RowEmpty,
            ) {
                lemma_expect_lax(n, mid, record_of(row), ty, pos);
            }
        },
    }
}

/// Visiting a switch does not enforce any typing.
proof fn lemma_switch_lax(
    n: nat,
    st: St,
    scope: Scope,
    exp: RichTerm,
    cases: Seq<(Ident, RichTerm)>,
    default: Option<RichTerm>,
    ty: Ty,
    pos: TermPos,
)
    requires
        unannotated(exp),
        forall|j: int| 0 <= j < cases.len() ==> unannotated((#[trigger] cases[j]).1),
        default matches Some(t) ==> unannotated(t),
    ensures
        lax_out(
            st,
            scope.global,
            run_check_switch(n, st, scope, false, exp, cases, default, ty, pos),
        ),
    decreases n, 2nat, 0int,
{
    broadcast use lemma_adds_trans;

    let res = Ty::Ptr(next_var(st.table));
    let todo = fields_against(cases, res);
    let st1 = with_var(st);
    lemma_adds_var(st.table);
    lemma_seq_lax(n, st1, scope, todo, 0);
    if let Some((mid, Ok(()))) = run_check_seq(n, st1, scope, false, todo, 0) {
        match default {
            Some(t) => {
                lemma_check_lax(n, mid, scope, t, res);
                if let Some((mid2, Ok(()))) = run_check(n, mid, scope, false, t, res) {
                    let row = Ty::Ptr(next_var(mid2.table));
                    let mid3 = with_var(mid2);
                    lemma_adds_var(mid2.table);
                    lemma_expect_lax(n, mid3, res, ty, pos);
                    lemma_check_lax(n, mid3, scope, exp, enum_of(row));
                }
            },
            None => {
                lemma_expect_lax(n, mid, res, ty, pos);
                lemma_check_lax(n, mid, scope, exp, enum_of(cases_row(cases)));
            },
        }
    }
}

/// The interpolated expressions of a string without type annotations have none.
proof fn lemma_chunks_unannotated(chunks: Seq<StrChunk>)
    requires
        forall|i: int|
            0 <= i < chunks.len() ==> match #[trigger] chunks[i] {
                StrChunk::Expr(t, _) => unannotated(t),
                StrChunk::Literal(_) => true,
            },
    ensures
        forall|j: int|
            0 <= j < chunks_against(chunks).len() ==> unannotated(
                (#[trigger] chunks_against(chunks)[j]).0,
            ),
    decreases chunks.len(),
{
    if chunks.len() > 0 {
        let init = chunks.drop_last();
        assert forall|i: int| 0 <= i < init.len() implies match #[trigger] init[i] {
            StrChunk::Expr(t, _) => unannotated(t),
            StrChunk::Literal(_) => true,
        } by {
            assert(init[i] == chunks[i]);
        }
        lemma_chunks_unannotated(init);
        assert(chunks.last() == chunks[chunks.len() - 1]);
        let todo = chunks_against(chunks);
        assert forall|j: int| 0 <= j < todo.len() implies unannotated((#[trigger] todo[j]).0) by {
            if j < chunks_against(init).len() {
                assert(todo[j] == chunks_against(init)[j]);
            }
        }
    }
}

/// Visiting a primitive operation does not enforce any typing.
proof fn lemma_op_lax(n: nat, st: St, scope: Scope, rt: RichTerm, ty: Ty)
    requires
        n > 0,
        unannotated(rt),
        *rt.term is Op1 || *rt.term is Op2 || *rt.term is OpN,
    ensures
        lax_out(st, scope.global, run_check(n, st, scope, false, rt, ty)),
    decreases n, 0nat, 0int,
{
    broadcast use lemma_adds_trans;

    let m = (n - 1) as nat;
    match *rt.term {
        Term::Op1(op, t) => if is_typed_uop(op) {
            let (st1, arg, res) = uop_type(st, op);
            lemma_uop_lax(st, op);
            lemma_expect_lax(m, st1, res, ty, rt.pos);
            lemma_check_lax(m, st1, scope, t, arg);
        },
        Term::Op2(op, t1, t2) => if is_typed_bop(op) {
            let (st1, arg1, arg2, res) = bop_type(st, op);
            lemma_bop_lax(st, op);
            lemma_expect_lax(m, st1, res, ty, rt.pos);
            lemma_check_lax(m, st1, scope, t1, arg1);
            if let Some((mid, Ok(()))) = run_check(m, st1, scope, false, t1, arg1) {
                lemma_check_lax(m, mid, scope, t2, arg2);
            }
        },
        Term::OpN(op, args) => if is_typed_nop(op) {
            let (types, res) = nop_type(op);
            let todo = args_against(args@, types);
            lemma_expect_lax(m, st, res, ty, rt.pos);
            assert forall|j: int| 0 <= j < todo.len() implies unannotated(
                (#[trigger] todo[j]).0,
            ) by {
                assert(todo[j].0 == args@[j]);
            }
            lemma_seq_lax(m, st, scope, todo, 0);
        },
        _ => {},
    }
}

/// Visiting a metavalue does not enforce any typing.
proof fn lemma_meta_lax(n: nat, st: St, scope: Scope, meta: MetaValue, ty: Ty, pos: TermPos)
    requires
        match meta.value {
            Some(t) => meta.types is None && unannotated(t),
            None => true,
        },
    ensures
        lax_out(st, scope.global, run_check_meta(n, st, scope, false, meta, ty, pos)),
    decreases n, 2nat, 0int,
{
    lemma_adds_refl(st.table);
    if meta.contracts@.len() > 0 {
        lemma_expect_lax(n, st, meta.contracts@[0].types@, ty, pos);
        if let Some(t) = meta.value {
            lemma_check_lax(n, st, scope, t, Ty::Dyn);
        }
    } else {
        match meta.value {
            Some(t) => lemma_check_lax(n, st, scope, t, ty),
            None => lemma_expect_lax(n, st, Ty::Dyn, ty, pos),
        }
    }
}

/// Visiting a term without type annotations does not enforce any typing.
proof fn lemma_check_lax(n: nat, st: St, scope: Scope, rt: RichTerm, ty: Ty)
    requires
        unannotated(rt),
    ensures
        lax_out(st, scope.global, run_check(n, st, scope, false, rt, ty)),
    decreases n, 0nat, 1int,
{
    broadcast use lemma_adds_trans;

    if n > 0 {
        let m = (n - 1) as nat;
        let pos = rt.pos;
        let a = Ty::Ptr(next_var(st.table));
        let st1 = with_var(st);
        let b = Ty::Ptr(next_var(st1.table));
        let stb = with_var(st1);
        lemma_adds_refl(st.table);
        lemma_adds_var(st.table);
        lemma_adds_var(st1.table);
        match *rt.term {
            Term::Null => lemma_expect_lax(m, st, Ty::Dyn, ty, pos),
            Term::Bool(_) => lemma_expect_lax(m, st, Ty::Bool, ty, pos),
            Term::Num(_) => lemma_expect_lax(m, st, Ty::Num, ty, pos),
            Term::Str(_) => lemma_expect_lax(m, st, Ty::Str, ty, pos),
            Term::StrChunks(chunks) => {
                lemma_expect_lax(m, st, Ty::Str, ty, pos);
                lemma_chunks_unannotated(chunks@);
                lemma_seq_lax(m, st, scope, chunks_against(chunks@), 0);
            },
            Term::Fun(x, t) => {
                lemma_expect_lax(m, stb, arrow(a, b), ty, pos);
                lemma_check_lax(m, stb, with_local(scope, x@, a), t, b);
            },
            Term::List(terms) => {
                lemma_expect_lax(m, st1, list_of(a), ty, pos);
                lemma_seq_lax(m, st1, scope, all_against(terms@, a), 0);
            },
            Term::Lbl(_) => lemma_expect_lax(m, st, Ty::Dyn, ty, pos),
            Term::Let(x, re, body) => {
                let (table, ty_let) = bound_ty(st.table, scope, re, false);
                lemma_check_lax(m, st, scope, re, ty_let);
                if let Some((mid, Ok(()))) = run_check(m, st, scope, false, re, ty_let) {
                    lemma_check_lax(m, mid, with_local(scope, x@, ty_let), body, ty);
                }
            },
            Term::App(e, t) => {
                lemma_expect_lax(m, stb, b, ty, pos);
                lemma_check_lax(m, stb, scope, e, arrow(a, b));
                if let Some((mid, Ok(()))) = run_check(m, stb, scope, false, e, arrow(a, b)) {
                    lemma_check_lax(m, mid, scope, t, a);
                }
            },
            Term::Switch(exp, cases, default) => {
                lemma_switch_lax(m, st, scope, exp, cases@, default, ty, pos);
            },
            Term::Var(x) => if let Some(x_ty) = in_scope(scope, x@) {
                if let Some((mid, inst)) = run_instantiate(m, st, x_ty, ForallInst::Ptr) {
                    let k = (m - 1) as nat;
                    lemma_instantiate_lax(
                        k,
                        st,
                        run_resolve(k, st.table, x_ty)->0,
                        ForallInst::Ptr,
                    );
                    lemma_expect_lax(m, mid, inst, ty, pos);
                }
            },
            Term::Enum(id) => {
                lemma_expect_lax(m, st1, enum_of(row_extend(id@, None, a)), ty, pos);
            },
            Term::Record(fields, _) => {
                lemma_record_lax(m, st, scope, false, fields@, ty, pos);
            },
            Term::RecRecord(fields, _) => {
                let (table, inner) = bind_fields(st.table, scope, false, fields@, 0);
                lemma_bind_fields_lax(st.table, scope, fields@, 0);
                lemma_record_lax(m, st, inner, true, fields@, ty, pos);
            },
            Term::Op1(_, _) => lemma_op_lax(n, st, scope, rt, ty),
            Term::Op2(_, _, _) => lemma_op_lax(n, st, scope, rt, ty),
            Term::OpN(_, _) => lemma_op_lax(n, st, scope, rt, ty),
            Term::Promise(_, _, _) => {},
            Term::Sym(_) => lemma_expect_lax(m, st, Ty::Sym, ty, pos),
            Term::Wrapped(_, t) => lemma_check_lax(m, st, scope, t, ty),
            Term::MetaValue(meta) => lemma_meta_lax(m, st, scope, meta, ty, pos),
            Term::Import(_) => lemma_expect_lax(m, st, Ty::Dyn, ty, pos),
            Term::ResolvedImport(file_id) => {
                let out = run_type_check(m, st.imports, scope.global, st.imports[file_id]);
            },
        }
    }
}

/// In non-strict mode, a term without type annotations is only rejected for an unbound identifier,
/// or with the error of an import, whatever the type that it is checked against. The variables that
/// there were stay as they are: nothing is unified.
pub proof fn law_nonstrict_unannotated(
    n: nat,
    st: St,
    scope: Scope,
    rt: RichTerm,
    ty: Ty,
    st2: St,
    res: Result<(), CheckErr>,
)
    requires
        unannotated(rt),
        run_check(n, st, scope, false, rt, ty) == Some((st2, res)),
        is_wf(st.table),
        fits(st2.table),
    ensures
        res matches Err(err) ==> err is UnboundIdentifier || is_import_err(
            st.imports,
            scope.global,
            err,
        ),
        forall|x: usize| #[trigger]
            st.table.contains_key(x) ==> st2.table.contains_key(x) && st2.table[x] == st.table[x],
{
    lemma_check_lax(n, st, scope, rt, ty);
    reveal(adds_free);
    reveal(comes_after);
}

} // verus!
