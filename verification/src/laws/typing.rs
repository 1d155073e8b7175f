//! What typechecking establishes: when it succeeds, the term has the type that it was checked
//! against, by the typing rules of the language.
//!
//! The rules are stated under a unification table: it says what the unification variables in types
//! stand for. They hold under the table that typechecking ends with.
use vstd::prelude::*;

use crate::identifier::Ident;
use crate::laws::subtyping::{
    is_subtype, lemma_between, lemma_root_same, lemma_sub_sound, root, sub_upto, succeeds,
};
use crate::laws::table::{
    extends, fits, follows, is_wf, law_check_table, law_initial_wf, law_instantiate_table,
    law_later_table, lemma_after_refl, lemma_after_trans, lemma_bind_fields_table, lemma_bop_table,
    lemma_bound_ty_table, lemma_check_fields_table, lemma_check_record_table, lemma_check_seq_table,
    lemma_expect_table, lemma_instantiate_heads_table, lemma_new_var, lemma_uop_table,
};
use crate::model::{arrow, enum_of, list_of, record_of, row_extend, CheckErr, Name, St, Table, Ty};
use crate::position::{FileId, TermPos};
use crate::term::{MetaValue, RichTerm, StrChunk, Term};
use crate::typecheck::check::{
    all_against, args_against, bind_fields, cases_row, chunks_against, fields_against,
    lemma_chunks_against, run_check, run_check_fields, run_check_meta, run_check_promise,
    run_check_record, run_check_seq, run_check_switch, run_expect, run_to_type, run_type_check,
    Checked,
};
use crate::typecheck::envs::{
    apparent, apparent_ty, bound_ty, global_scope, in_scope, with_local, Scope,
};
use crate::typecheck::instantiate::{
    head_foralls, lemma_subst_head_foralls, run_instantiate, run_instantiate_heads, ForallInst,
};
use crate::typecheck::ops::{
    bop_sig, bop_type, is_typed_bop, is_typed_nop, is_typed_uop, nop_type, uop_sig, uop_type,
};
use crate::typecheck::state::{initial, next_var, run_constrain_var, run_resolve, with_var};
use crate::typecheck::wrapper::subst;

verus! {

/// Whether a type may stand where another one is expected: in strict mode, it must be a subtype of
/// it.
pub open spec fn may_be(table: Table, base: nat, strict: bool, a: Ty, b: Ty) -> bool {
    strict ==> is_subtype(table, base, a, b)
}

/// Whether a term may be bound to a name at a type: at its apparent type, or at any type in strict
/// mode if the apparent type is an approximation.
pub open spec fn may_bind(scope: Scope, rt: RichTerm, strict: bool, ty: Ty) -> bool {
    let at = apparent(*rt.term, Some(scope));
    ty == apparent_ty(at) || (strict && at is Approximated)
}

/// The type whose first quantifiers in head position are instantiated by types.
pub open spec fn instantiated(ty: Ty, args: Seq<Ty>) -> Ty
    decreases args.len(),
{
    if args.len() == 0 {
        ty
    } else {
        match ty {
            Ty::Forall(id, body) => instantiated(subst(*body, id, args[0]), args.drop_first()),
            _ => ty,
        }
    }
}

/// Whether a type is an instance of a polymorphic type, or of one with the same representative.
pub open spec fn is_instance(table: Table, ty: Ty, inst: Ty) -> bool {
    exists|from: Ty, args: Seq<Ty>|
        {
            &&& root(table, ty) is Some
            &&& root(table, from) == root(table, ty)
            &&& inst == #[trigger] instantiated(from, args)
        }
}

/// The type whose quantifiers in head position are instantiated by the constants from `c` on.
pub open spec fn rigid(ty: Ty, c: nat) -> Ty
    decreases head_foralls(ty),
{
    match ty {
        Ty::Forall(id, body) => {
            proof {
                lemma_subst_head_foralls(*body, id, Ty::Constant(c as usize));
            }
            rigid(subst(*body, id, Ty::Constant(c as usize)), c + 1)
        },
        _ => ty,
    }
}

/// The row that gives types to the fields from the `i`-th on, on top of a row.
pub open spec fn fields_row(fields: Seq<(Ident, RichTerm)>, types: Seq<Ty>, i: int, row: Ty) -> Ty
    decreases fields.len() - i,
{
    if 0 <= i < fields.len() {
        fields_row(fields, types, i + 1, row_extend(fields[i].0@, Some(types[i]), row))
    } else {
        row
    }
}

/// The scope in which the first `i` fields have been bound to types.
pub open spec fn fields_scope(
    scope: Scope,
    fields: Seq<(Ident, RichTerm)>,
    types: Seq<Ty>,
    i: nat,
) -> Scope
    decreases i,
{
    if i == 0 {
        scope
    } else {
        with_local(
            fields_scope(scope, fields, types, (i - 1) as nat),
            fields[i - 1].0@,
            types[i - 1],
        )
    }
}

/// Whether the fields of a recursive record may be bound to types one after the other.
pub open spec fn may_bind_fields(
    scope: Scope,
    fields: Seq<(Ident, RichTerm)>,
    strict: bool,
    types: Seq<Ty>,
) -> bool {
    &&& types.len() == fields.len()
    &&& forall|i: int|
        0 <= i < fields.len() ==> #[trigger] may_bind(
            fields_scope(scope, fields, types, i as nat),
            fields[i].1,
            strict,
            types[i],
        )
}

/// Whether the types of the fields of a record are those that are in scope.
pub open spec fn in_scope_types(
    scope: Scope,
    fields: Seq<(Ident, RichTerm)>,
    types: Seq<Ty>,
) -> bool {
    forall|i: int|
        0 <= i < fields.len() ==> in_scope(scope, (#[trigger] fields[i]).0@) == Some(types[i])
}

/// Whether an import typechecks by itself.
pub open spec fn import_ok(
    imports: Map<FileId, RichTerm>,
    global: Map<Name, Ty>,
    file_id: FileId,
) -> bool {
    imports.contains_key(file_id) && exists|n: nat|
        (#[trigger] run_type_check(n, imports, global, imports[file_id])) matches Some(Ok(_))
}

/// Whether a term has a type, by the typing rules.
///
/// In strict mode, the rules are those of a statically typed language. In non-strict mode, no type
/// is asked for: the rules only visit the term, and ask the terms with a type annotation in it to
/// have that type in strict mode.
///
/// The constants that stand for the type variables of an annotation are not below `base`.
pub open spec fn typed(
    table: Table,
    base: nat,
    imports: Map<FileId, RichTerm>,
    scope: Scope,
    strict: bool,
    rt: RichTerm,
    ty: Ty,
) -> bool
    decreases rt, 1nat,
{
    match *rt.term {
        Term::Null => may_be(table, base, strict, Ty::Dyn, ty),
        Term::Bool(_) => may_be(table, base, strict, Ty::Bool, ty),
        Term::Num(_) => may_be(table, base, strict, Ty::Num, ty),
        Term::Str(_) => may_be(table, base, strict, Ty::Str, ty),
        Term::StrChunks(chunks) => {
            &&& may_be(table, base, strict, Ty::Str, ty)
            &&& forall|i: int|
                0 <= i < chunks@.len() ==> match #[trigger] chunks@[i] {
                    StrChunk::Expr(t, _) => typed(table, base, imports, scope, strict, t, Ty::Str),
                    StrChunk::Literal(_) => true,
                }
        },
        Term::Fun(x, t) => exists|a: Ty, b: Ty|
            {
                &&& may_be(table, base, strict, #[trigger] arrow(a, b), ty)
                &&& typed(table, base, imports, with_local(scope, x@, a), strict, t, b)
            },
        Term::List(terms) => exists|a: Ty|
            {
                &&& may_be(table, base, strict, #[trigger] list_of(a), ty)
                &&& forall|i: int|
                    0 <= i < terms@.len() ==> typed(
                        table,
                        base,
                        imports,
                        scope,
                        strict,
                        #[trigger] terms@[i],
                        a,
                    )
            },
        Term::Lbl(_) => may_be(table, base, strict, Ty::Dyn, ty),
        Term::Let(x, re, body) => exists|a: Ty|
            {
                &&& #[trigger] may_bind(scope, re, strict, a)
                &&& typed(table, base, imports, scope, strict, re, a)
                &&& typed(table, base, imports, with_local(scope, x@, a), strict, body, ty)
            },
        Term::App(e, t) => exists|a: Ty, b: Ty|
            {
                &&& may_be(table, base, strict, b, ty)
                &&& typed(table, base, imports, scope, strict, e, #[trigger] arrow(a, b))
                &&& typed(table, base, imports, scope, strict, t, a)
            },
        Term::Switch(_, _, _) => typed_switch(table, base, imports, scope, strict, rt, ty),
        Term::Var(x) => match in_scope(scope, x@) {
            Some(x_ty) => exists|inst: Ty|
                {
                    &&& #[trigger] is_instance(table, x_ty, inst)
                    &&& may_be(table, base, strict, inst, ty)
                },
            None => false,
        },
        Term::Enum(id) => exists|row: Ty|
            may_be(table, base, strict, enum_of(#[trigger] row_extend(id@, None, row)), ty),
        Term::Record(_, _) => typed_record(table, base, imports, scope, strict, rt, ty),
        Term::RecRecord(_, _) => typed_rec_record(table, base, imports, scope, strict, rt, ty),
        Term::Op1(_, _) => typed_op(table, base, imports, scope, strict, rt, ty),
        Term::Op2(_, _, _) => typed_op(table, base, imports, scope, strict, rt, ty),
        Term::OpN(_, _) => typed_op(table, base, imports, scope, strict, rt, ty),
        Term::Promise(_, _, _) => typed_annot(table, base, imports, scope, strict, rt, ty),
        Term::Sym(_) => may_be(table, base, strict, Ty::Sym, ty),
        Term::Wrapped(_, t) => typed(table, base, imports, scope, strict, t, ty),
        Term::MetaValue(_) => typed_annot(table, base, imports, scope, strict, rt, ty),
        Term::Import(_) => may_be(table, base, strict, Ty::Dyn, ty),
        Term::ResolvedImport(file_id) => import_ok(imports, scope.global, file_id),
    }
}

/// Whether a switch has a type, by the typing rules.
pub open spec fn typed_switch(
    table: Table,
    base: nat,
    imports: Map<FileId, RichTerm>,
    scope: Scope,
    strict: bool,
    rt: RichTerm,
    ty: Ty,
) -> bool
    decreases rt, 0nat,
{
    match *rt.term {
        Term::Switch(exp, cases, default) => exists|row: Ty, res: Ty|
            {
                &&& default is None ==> row == cases_row(cases@)
                &&& typed(table, base, imports, scope, strict, exp, #[trigger] enum_of(row))
                &&& #[trigger] may_be(table, base, strict, res, ty)
                &&& forall|i: int|
                    0 <= i < cases@.len() ==> typed(
                        table,
                        base,
                        imports,
                        scope,
                        strict,
                        (#[trigger] cases@[i]).1,
                        res,
                    )
                &&& match default {
                    Some(t) => typed(table, base, imports, scope, strict, t, res),
                    None => true,
                }
            },
        _ => false,
    }
}

/// Whether the fields of a record have the type of the elements of a dictionary type.
pub open spec fn typed_dict(
    table: Table,
    base: nat,
    imports: Map<FileId, RichTerm>,
    scope: Scope,
    strict: bool,
    fields: Seq<(Ident, RichTerm)>,
    ty: Ty,
) -> bool
    decreases fields, 0nat,
{
    match root(table, ty) {
        Some(Ty::DynRecord(elt)) => forall|i: int|
            0 <= i < fields.len() ==> typed(
                table,
                base,
                imports,
                scope,
                strict,
                (#[trigger] fields[i]).1,
                *elt,
            ),
        _ => false,
    }
}

/// Whether a record has a type, by the typing rules.
pub open spec fn typed_record(
    table: Table,
    base: nat,
    imports: Map<FileId, RichTerm>,
    scope: Scope,
    strict: bool,
    rt: RichTerm,
    ty: Ty,
) -> bool
    decreases rt, 0nat,
{
    match *rt.term {
        Term::Record(fields, _) => {
            // A dictionary: all the fields have the type of its elements.
            ||| typed_dict(table, base, imports, scope, strict, fields@, ty)
            ||| exists|types: Seq<Ty>|
                {
                    &&& may_be(
                        table,
                        base,
                        strict,
                        record_of(#[trigger] fields_row(fields@, types, 0, Ty::RowEmpty)),
                        ty,
                    )
                    &&& forall|i: int|
                        0 <= i < fields@.len() ==> typed(
                            table,
                            base,
                            imports,
                            scope,
                            strict,
                            (#[trigger] fields@[i]).1,
                            types[i],
                        )
                }
        },
        _ => false,
    }
}

/// Whether a recursive record has a type, by the typing rules.
pub open spec fn typed_rec_record(
    table: Table,
    base: nat,
    imports: Map<FileId, RichTerm>,
    scope: Scope,
    strict: bool,
    rt: RichTerm,
    ty: Ty,
) -> bool
    decreases rt, 0nat,
{
    match *rt.term {
        Term::RecRecord(fields, _) => exists|bound: Seq<Ty>|
            {
                let inner = fields_scope(scope, fields@, bound, fields@.len());
                &&& #[trigger] may_bind_fields(scope, fields@, strict, bound)
                &&& {
                    ||| typed_dict(table, base, imports, inner, strict, fields@, ty)
                    ||| exists|types: Seq<Ty>|
                        {
                            &&& in_scope_types(inner, fields@, types)
                            &&& may_be(
                                table,
                                base,
                                strict,
                                record_of(#[trigger] fields_row(fields@, types, 0, Ty::RowEmpty)),
                                ty,
                            )
                            &&& forall|i: int|
                                0 <= i < fields@.len() ==> typed(
                                    table,
                                    base,
                                    imports,
                                    inner,
                                    strict,
                                    (#[trigger] fields@[i]).1,
                                    types[i],
                                )
                        }
                }
            },
        _ => false,
    }
}

/// Whether a primitive operation has a type, by the typing rules.
pub open spec fn typed_op(
    table: Table,
    base: nat,
    imports: Map<FileId, RichTerm>,
    scope: Scope,
    strict: bool,
    rt: RichTerm,
    ty: Ty,
) -> bool
    decreases rt, 0nat,
{
    match *rt.term {
        Term::Op1(op, t) => is_typed_uop(op) && exists|a: Ty, b: Ty|
            {
                let (arg, res) = #[trigger] uop_sig(op, a, b);
                &&& may_be(table, base, strict, res, ty)
                &&& typed(table, base, imports, scope, strict, t, arg)
            },
        Term::Op2(op, t1, t2) => is_typed_bop(op) && exists|a: Ty, b: Ty|
            {
                let (arg1, arg2, res) = #[trigger] bop_sig(op, a, b);
                &&& may_be(table, base, strict, res, ty)
                &&& typed(table, base, imports, scope, strict, t1, arg1)
                &&& typed(table, base, imports, scope, strict, t2, arg2)
            },
        Term::OpN(op, args) => {
            let (types, res) = nop_type(op);
            &&& is_typed_nop(op)
            &&& may_be(table, base, strict, res, ty)
            &&& forall|i: int|
                0 <= i < args@.len() && i < types.len() ==> typed(
                    table,
                    base,
                    imports,
                    scope,
                    strict,
                    #[trigger] args@[i],
                    types[i],
                )
        },
        _ => false,
    }
}

/// Whether a term with annotations has a type, by the typing rules.
pub open spec fn typed_annot(
    table: Table,
    base: nat,
    imports: Map<FileId, RichTerm>,
    scope: Scope,
    strict: bool,
    rt: RichTerm,
    ty: Ty,
) -> bool
    decreases rt, 0nat,
{
    match *rt.term {
        // A term with a type annotation has this type in strict mode.
        Term::Promise(ty2, _, t) => {
            &&& may_be(table, base, strict, ty2@, ty)
            &&& exists|c: nat|
                {
                    let above = c + head_foralls(ty2@);
                    &&& base <= c
                    &&& typed(table, above, imports, scope, true, t, #[trigger] rigid(ty2@, c))
                }
        },
        Term::MetaValue(meta) => match (meta.types, meta.value) {
            (Some(ctr), Some(t)) => {
                let ty2 = ctr.types@;
                &&& may_be(table, base, strict, ty2, ty)
                &&& exists|c: nat|
                    {
                        let above = c + head_foralls(ty2);
                        &&& base <= c
                        &&& typed(table, above, imports, scope, true, t, #[trigger] rigid(ty2, c))
                    }
            },
            // A term with a contract has the type of the contract, and is visited in non-strict
            // mode.
            (_, value) => if meta.contracts@.len() > 0 {
                &&& may_be(table, base, strict, meta.contracts@[0].types@, ty)
                &&& match value {
                    Some(t) => typed(table, base, imports, scope, false, t, Ty::Dyn),
                    None => true,
                }
            } else {
                match value {
                    Some(t) => typed(table, base, imports, scope, strict, t, ty),
                    None => may_be(table, base, strict, Ty::Dyn, ty),
                }
            },
        },
        _ => false,
    }
}

/// Whether a run from a well-formed table succeeds, with a table that a well-formed one extends.
pub open spec fn ends_in(out: Checked, st: St, base: nat, st2: St, last: Table) -> bool {
    &&& succeeds(out, st2)
    &&& is_wf(st.table)
    &&& base <= st.table.dom().len()
    &&& extends(st2.table, last)
    &&& is_wf(last)
}

/// What holds of the state in the middle of a run.
proof fn lemma_step(st: St, mid: St, st2: St, base: nat, last: Table)
    requires
        is_wf(st.table),
        base <= st.table.dom().len(),
        follows(st, mid),
        follows(mid, st2),
        extends(st2.table, last),
        is_wf(last),
    ensures
        is_wf(mid.table),
        base <= mid.table.dom().len(),
        extends(mid.table, last),
        mid.imports == st.imports,
{
    lemma_between(st.table, mid.table, st2.table, last);
}

/// A type that was unified with another in strict mode may stand for it.
proof fn lemma_expect_sound(
    n: nat,
    base: nat,
    st: St,
    strict: bool,
    t1: Ty,
    t2: Ty,
    pos: TermPos,
    st2: St,
    last: Table,
)
    requires
        ends_in(run_expect(n, st, strict, t1, t2, pos), st, base, st2, last),
    ensures
        may_be(last, base, strict, t1, t2),
{
    reveal(run_expect);
    if strict {
        assert forall|k: nat| sub_upto(k, last, base, t1, t2) by {
            lemma_sub_sound(n, k, base, st, t1, t2, st2, last);
        }
    }
}

/// The terms of a sequence that was typechecked have their types.
proof fn lemma_seq_typed(
    n: nat,
    base: nat,
    st: St,
    scope: Scope,
    strict: bool,
    todo: Seq<(RichTerm, Ty)>,
    i: int,
    st2: St,
    last: Table,
)
    requires
        ends_in(run_check_seq(n, st, scope, strict, todo, i), st, base, st2, last),
        0 <= i,
    ensures
        forall|j: int|
            i <= j < todo.len() ==> typed(
                last,
                base,
                st.imports,
                scope,
                strict,
                (#[trigger] todo[j]).0,
                todo[j].1,
            ),
    decreases n, 1nat, todo.len() - i,
{
    if i < todo.len() {
        let (t, ty) = todo[i];
        let mid = (run_check(n, st, scope, strict, t, ty)->0).0;
        law_check_table(n, st, scope, strict, t, ty);
        lemma_check_seq_table(n, mid, scope, strict, todo, i + 1);
        lemma_step(st, mid, st2, base, last);
        lemma_check_typed(n, base, st, scope, strict, t, ty, mid, last);
        lemma_seq_typed(n, base, mid, scope, strict, todo, i + 1, st2, last);
    }
}

/// The fields of a record that was typechecked have the types of its row.
proof fn lemma_fields_typed(
    n: nat,
    base: nat,
    st: St,
    scope: Scope,
    strict: bool,
    rec: bool,
    fields: Seq<(Ident, RichTerm)>,
    types: Seq<Ty>,
    row: Ty,
    st2: St,
    row2: Ty,
    last: Table,
) -> (all: Seq<Ty>)
    requires
        run_check_fields(n, st, scope, strict, rec, fields, types.len() as int, row) == Some(
            (st2, Ok::<Ty, CheckErr>(row2)),
        ),
        types.len() <= fields.len(),
        is_wf(st.table),
        base <= st.table.dom().len(),
        extends(st2.table, last),
        is_wf(last),
    ensures
        all.len() == fields.len(),
        all.take(types.len() as int) == types,
        row2 == fields_row(fields, all, types.len() as int, row),
        forall|j: int|
            types.len() <= j < fields.len() ==> typed(
                last,
                base,
                st.imports,
                scope,
                strict,
                (#[trigger] fields[j]).1,
                all[j],
            ),
        rec ==> forall|j: int|
            types.len() <= j < fields.len() ==> in_scope(scope, (#[trigger] fields[j]).0@) == Some(
                all[j],
            ),
    decreases n, 1nat, fields.len() - types.len(),
{
    broadcast use lemma_after_trans;

    let i = types.len() as int;
    if i < fields.len() {
        let (id, t) = fields[i];
        let ty = if rec {
            in_scope(scope, id@)->0
        } else {
            Ty::Ptr(next_var(st.table))
        };
        let st1 = if rec {
            st
        } else {
            with_var(st)
        };
        lemma_after_refl(st.table);
        lemma_new_var(st.table);
        let mid = (run_check(n, st1, scope, strict, t, ty)->0).0;
        let row1 = row_extend(id@, Some(ty), row);
        law_check_table(n, st1, scope, strict, t, ty);
        lemma_check_fields_table(n, mid, scope, strict, rec, fields, i + 1, row1);
        lemma_step(st, st1, st2, base, last);
        lemma_step(st1, mid, st2, base, last);
        lemma_check_typed(n, base, st1, scope, strict, t, ty, mid, last);
        let next = types.push(ty);
        let all = lemma_fields_typed(
            n,
            base,
            mid,
            scope,
            strict,
            rec,
            fields,
            next,
            row1,
            st2,
            row2,
            last,
        );
        assert(all[i] == all.take(i + 1)[i]);
        assert(all.take(i) =~= all.take(i + 1).take(i));
        assert(next.take(i) =~= types);
        all
    } else {
        assert(types.take(i) =~= types);
        types
    }
}

/// Scopes in which the first fields have been bound to the same types are the same.
proof fn lemma_fields_scope(
    scope: Scope,
    fields: Seq<(Ident, RichTerm)>,
    types: Seq<Ty>,
    all: Seq<Ty>,
    i: nat,
)
    requires
        i <= types.len() <= all.len(),
        all.take(types.len() as int) == types,
    ensures
        fields_scope(scope, fields, all, i) == fields_scope(scope, fields, types, i),
    decreases i,
{
    if i > 0 {
        lemma_fields_scope(scope, fields, types, all, (i - 1) as nat);
        assert(all.take(types.len() as int)[i - 1] == all[i - 1]);
    }
}

/// The fields of a recursive record are bound to types that they may be bound to.
proof fn lemma_bind_fields(
    table: Table,
    scope: Scope,
    strict: bool,
    fields: Seq<(Ident, RichTerm)>,
    types: Seq<Ty>,
) -> (all: Seq<Ty>)
    requires
        types.len() <= fields.len(),
    ensures
        all.len() == fields.len(),
        all.take(types.len() as int) == types,
        bind_fields(
            table,
            fields_scope(scope, fields, types, types.len()),
            strict,
            fields,
            types.len() as int,
        ).1 == fields_scope(scope, fields, all, fields.len()),
        forall|j: int|
            types.len() <= j < fields.len() ==> #[trigger] may_bind(
                fields_scope(scope, fields, all, j as nat),
                fields[j].1,
                strict,
                all[j],
            ),
    decreases fields.len() - types.len(),
{
    let i = types.len() as int;
    let at = fields_scope(scope, fields, types, types.len());
    if i < fields.len() {
        let (id, t) = fields[i];
        let (table, ty) = bound_ty(table, at, t, strict);
        let next = types.push(ty);
        assert(next.take(i) =~= types);
        lemma_fields_scope(scope, fields, types, next, types.len());
        assert(fields_scope(scope, fields, next, next.len()) == with_local(at, id@, ty));
        let all = lemma_bind_fields(table, scope, strict, fields, next);
        assert(all[i] == all.take(i + 1)[i]);
        assert(all.take(i) =~= all.take(i + 1).take(i));
        lemma_fields_scope(scope, fields, types, all, types.len());
        all
    } else {
        assert(types.take(i) =~= types);
        types
    }
}

/// The fields of a record that was typechecked have the types of its row, or the type of the
/// elements of a dictionary type.
proof fn lemma_record_typed(
    n: nat,
    base: nat,
    st: St,
    scope: Scope,
    strict: bool,
    rec: bool,
    fields: Seq<(Ident, RichTerm)>,
    ty: Ty,
    pos: TermPos,
    st2: St,
    last: Table,
) -> (types: Seq<Ty>)
    requires
        ends_in(
            run_check_record(n, st, scope, strict, rec, fields, ty, pos),
            st,
            base,
            st2,
            last,
        ),
    ensures
        typed_dict(last, base, st.imports, scope, strict, fields, ty) || {
            &&& rec ==> in_scope_types(scope, fields, types)
            &&& may_be(
                last,
                base,
                strict,
                record_of(fields_row(fields, types, 0, Ty::RowEmpty)),
                ty,
            )
            &&& forall|i: int|
                0 <= i < fields.len() ==> typed(
                    last,
                    base,
                    st.imports,
                    scope,
                    strict,
                    (#[trigger] fields[i]).1,
                    types[i],
                )
        },
    decreases n, 2nat, 0int,
{
    broadcast use lemma_after_trans;

    match run_resolve(n, st.table, ty) {
        Some(Ty::DynRecord(elt)) => {
            let todo = fields_against(fields, *elt);
            lemma_seq_typed(n, base, st, scope, strict, todo, 0, st2, last);
            lemma_check_seq_table(n, st, scope, strict, todo, 0);
            lemma_after_refl(st.table);
            lemma_step(st, st, st2, base, last);
            lemma_root_same(n, st.table, last, ty);
            assert forall|i: int| 0 <= i < fields.len() implies typed(
                last,
                base,
                st.imports,
                scope,
                strict,
                (#[trigger] fields[i]).1,
                *elt,
            ) by {
                assert(todo[i] == (fields[i].1, *elt));
            }
            Seq::empty()
        },
        _ => {
            let (mid, res) = run_check_fields(
                n,
                st,
                scope,
                strict,
                rec,
                fields,
                0,
                Ty::RowEmpty,
            )->0;
            let row = res->Ok_0;
            lemma_check_fields_table(n, st, scope, strict, rec, fields, 0, Ty::RowEmpty);
            lemma_expect_table(n, mid, strict, record_of(row), ty, pos);
            lemma_step(st, mid, st2, base, last);
            lemma_expect_sound(n, base, mid, strict, record_of(row), ty, pos, st2, last);
            lemma_fields_typed(
                n,
                base,
                st,
                scope,
                strict,
                rec,
                fields,
                Seq::empty(),
                Ty::RowEmpty,
                mid,
                row,
                last,
            )
        },
    }
}

/// A switch that was typechecked has its type.
proof fn lemma_switch_typed(
    n: nat,
    base: nat,
    st: St,
    scope: Scope,
    strict: bool,
    exp: RichTerm,
    cases: Seq<(Ident, RichTerm)>,
    default: Option<RichTerm>,
    ty: Ty,
    pos: TermPos,
    st2: St,
    last: Table,
) -> (types: (Ty, Ty))
    requires
        ends_in(
            run_check_switch(n, st, scope, strict, exp, cases, default, ty, pos),
            st,
            base,
            st2,
            last,
        ),
    ensures
        ({
            let (row, res) = types;
            &&& default is None ==> row == cases_row(cases)
            &&& typed(last, base, st.imports, scope, strict, exp, enum_of(row))
            &&& may_be(last, base, strict, res, ty)
            &&& forall|i: int|
                0 <= i < cases.len() ==> typed(
                    last,
                    base,
                    st.imports,
                    scope,
                    strict,
                    (#[trigger] cases[i]).1,
                    res,
                )
            &&& match default {
                Some(t) => typed(last, base, st.imports, scope, strict, t, res),
                None => true,
            }
        }),
    decreases n, 2nat, 0int,
{
    broadcast use lemma_after_trans;

    let res = Ty::Ptr(next_var(st.table));
    let todo = fields_against(cases, res);
    let st1 = with_var(st);
    lemma_new_var(st.table);
    let mid = (run_check_seq(n, st1, scope, strict, todo, 0)->0).0;
    lemma_check_seq_table(n, st1, scope, strict, todo, 0);
    let (mid2, row) = match default {
        Some(t) => {
            let mid1 = (run_check(n, mid, scope, strict, t, res)->0).0;
            law_check_table(n, mid, scope, strict, t, res);
            lemma_new_var(mid1.table);
            (with_var(mid1), Ty::Ptr(next_var(mid1.table)))
        },
        None => {
            lemma_after_refl(mid.table);
            (mid, cases_row(cases))
        },
    };
    let mid3 = (run_expect(n, mid2, strict, res, ty, pos)->0).0;
    lemma_expect_table(n, mid2, strict, res, ty, pos);
    law_check_table(n, mid3, scope, strict, exp, enum_of(row));
    lemma_step(st, st1, st2, base, last);
    lemma_step(st1, mid, st2, base, last);
    lemma_step(mid, mid2, st2, base, last);
    lemma_step(mid2, mid3, st2, base, last);
    lemma_seq_typed(n, base, st1, scope, strict, todo, 0, mid, last);
    assert forall|i: int| 0 <= i < cases.len() implies typed(
        last,
        base,
        st.imports,
        scope,
        strict,
        (#[trigger] cases[i]).1,
        res,
    ) by {
        assert(todo[i] == (cases[i].1, res));
    }
    if let Some(t) = default {
        let mid1 = (run_check(n, mid, scope, strict, t, res)->0).0;
        lemma_step(mid, mid1, st2, base, last);
        lemma_check_typed(n, base, mid, scope, strict, t, res, mid1, last);
    }
    lemma_expect_sound(n, base, mid2, strict, res, ty, pos, mid3, last);
    lemma_check_typed(n, base, mid3, scope, strict, exp, enum_of(row), st2, last);
    (row, res)
}

/// Instantiating the quantifiers in head position of a type by constants takes the next ones.
proof fn lemma_rigid(n: nat, st: St, ty: Ty, st2: St, inst: Ty, last: Table)
    requires
        run_instantiate_heads(n, st, ty, ForallInst::Constant) == Some((st2, inst)),
        is_wf(st.table),
        extends(st2.table, last),
        is_wf(last),
    ensures
        inst == rigid(ty, st.table.dom().len()),
        st2.table.dom().len() == st.table.dom().len() + head_foralls(ty),
    decreases head_foralls(ty),
{
    if let Ty::Forall(id, body) = ty {
        let c = next_var(st.table);
        lemma_subst_head_foralls(*body, id, Ty::Constant(c));
        let ty1 = subst(*body, id, Ty::Constant(c));
        let mid = St { names: st.names.insert(c, id), ..with_var(st) };
        lemma_new_var(st.table);
        lemma_instantiate_heads_table(n, mid, ty1, ForallInst::Constant);
        lemma_step(st, mid, st2, 0, last);
        assert(!st.table.contains_key(c)) by {
            if st.table.contains_key(c) {
                assert(mid.table.dom() =~= st.table.dom());
            }
        }
        assert(mid.table.dom() =~= st.table.dom().insert(c));
        lemma_rigid(n, mid, ty1, st2, inst, last);
    }
}

/// Instantiating the quantifiers in head position of a type by variables gives an instance of it.
proof fn lemma_instance(n: nat, st: St, ty: Ty) -> (args: Seq<Ty>)
    requires
        run_instantiate_heads(n, st, ty, ForallInst::Ptr) is Some,
    ensures
        (run_instantiate_heads(n, st, ty, ForallInst::Ptr)->0).1 == instantiated(ty, args),
    decreases head_foralls(ty),
{
    if let Ty::Forall(id, body) = ty {
        let p = next_var(st.table);
        lemma_subst_head_foralls(*body, id, Ty::Ptr(p));
        let ty1 = subst(*body, id, Ty::Ptr(p));
        let mid = St { names: st.names.insert(p, id), ..with_var(st) };
        let mid = run_constrain_var(n, mid, Set::empty(), ty1, p)->0;
        let rest = lemma_instance(n, mid, ty1);
        let args = seq![Ty::Ptr(p)] + rest;
        assert(args.drop_first() =~= rest);
        args
    } else {
        Seq::empty()
    }
}

/// A term with a type annotation that was typechecked has this type.
proof fn lemma_promise_typed(
    n: nat,
    base: nat,
    st: St,
    scope: Scope,
    strict: bool,
    ty2: Ty,
    t: RichTerm,
    ty: Ty,
    pos: TermPos,
    st2: St,
    last: Table,
) -> (c: nat)
    requires
        !(ty2 is Ptr),
        ends_in(
            run_check_promise(n, st, scope, strict, ty2, t, ty, pos),
            st,
            base,
            st2,
            last,
        ),
    ensures
        base <= c,
        may_be(last, base, strict, ty2, ty),
        typed(last, c + head_foralls(ty2), st.imports, scope, true, t, rigid(ty2, c)),
    decreases n, 1nat, 0int,
{
    broadcast use lemma_after_trans;

    let c = st.table.dom().len();
    let (mid, inst) = run_instantiate(n, st, ty2, ForallInst::Constant)->0;
    let mid2 = (run_expect(n, mid, strict, ty2, ty, pos)->0).0;
    law_instantiate_table(n, st, ty2, ForallInst::Constant);
    lemma_expect_table(n, mid, strict, ty2, ty, pos);
    law_check_table(n, mid2, scope, true, t, inst);
    lemma_step(st, mid, st2, base, last);
    lemma_rigid((n - 1) as nat, st, ty2, mid, inst, last);
    lemma_step(mid, mid2, st2, c + head_foralls(ty2), last);
    lemma_expect_sound(n, base, mid, strict, ty2, ty, pos, mid2, last);
    lemma_check_typed(n, c + head_foralls(ty2), mid2, scope, true, t, inst, st2, last);
    c
}

/// A term with annotations that was typechecked has its type.
proof fn lemma_meta_typed(
    n: nat,
    base: nat,
    st: St,
    scope: Scope,
    strict: bool,
    rt: RichTerm,
    meta: MetaValue,
    ty: Ty,
    st2: St,
    last: Table,
)
    requires
        *rt.term == Term::MetaValue(meta),
        ends_in(
            run_check_meta(n, st, scope, strict, meta, ty, rt.pos),
            st,
            base,
            st2,
            last,
        ),
    ensures
        typed_annot(last, base, st.imports, scope, strict, rt, ty),
    decreases n, 2nat, 0int,
{
    broadcast use lemma_after_trans;

    match (meta.types, meta.value) {
        (Some(ctr), Some(t)) => {
            let ty2 = ctr.types@;
            let c = lemma_promise_typed(
                n,
                base,
                st,
                scope,
                strict,
                ty2,
                t,
                ty,
                rt.pos,
                st2,
                last,
            );
            assert(typed(last, c + head_foralls(ty2), st.imports, scope, true, t, rigid(ty2, c)));
        },
        (_, value) => if meta.contracts@.len() > 0 {
            let ty2 = meta.contracts@[0].types@;
            let mid = (run_expect(n, st, strict, ty2, ty, rt.pos)->0).0;
            lemma_expect_table(n, st, strict, ty2, ty, rt.pos);
            match value {
                Some(t) => {
                    law_check_table(n, mid, scope, false, t, Ty::Dyn);
                    lemma_step(st, mid, st2, base, last);
                    lemma_check_typed(n, base, mid, scope, false, t, Ty::Dyn, st2, last);
                },
                None => {},
            }
            lemma_expect_sound(n, base, st, strict, ty2, ty, rt.pos, mid, last);
        } else {
            match value {
                Some(t) => lemma_check_typed(n, base, st, scope, strict, t, ty, st2, last),
                None => lemma_expect_sound(n, base, st, strict, Ty::Dyn, ty, rt.pos, st2, last),
            }
        },
    }
}

/// A primitive operation that was typechecked has its type.
proof fn lemma_op_typed(
    n: nat,
    base: nat,
    st: St,
    scope: Scope,
    strict: bool,
    rt: RichTerm,
    ty: Ty,
    st2: St,
    last: Table,
)
    requires
        n > 0,
        *rt.term is Op1 || *rt.term is Op2 || *rt.term is OpN,
        ends_in(run_check(n, st, scope, strict, rt, ty), st, base, st2, last),
    ensures
        typed_op(last, base, st.imports, scope, strict, rt, ty),
    decreases n, 0nat, 0int,
{
    broadcast use lemma_after_trans;

    let m = (n - 1) as nat;
    let pos = rt.pos;
    let a = Ty::Ptr(next_var(st.table));
    let b = Ty::Ptr(next_var(with_var(st).table));
    match *rt.term {
        Term::Op1(op, t) => {
            let (st1, arg, res) = uop_type(st, op);
            lemma_uop_table(st, op);
            let mid = (run_expect(m, st1, strict, res, ty, pos)->0).0;
            lemma_expect_table(m, st1, strict, res, ty, pos);
            law_check_table(m, mid, scope, strict, t, arg);
            lemma_step(st, st1, st2, base, last);
            lemma_step(st1, mid, st2, base, last);
            lemma_expect_sound(m, base, st1, strict, res, ty, pos, mid, last);
            lemma_check_typed(m, base, mid, scope, strict, t, arg, st2, last);
            assert(uop_sig(op, a, b) == (arg, res));
        },
        Term::Op2(op, t1, t2) => {
            let (st1, arg1, arg2, res) = bop_type(st, op);
            lemma_bop_table(st, op);
            let mid = (run_expect(m, st1, strict, res, ty, pos)->0).0;
            let mid2 = (run_check(m, mid, scope, strict, t1, arg1)->0).0;
            lemma_expect_table(m, st1, strict, res, ty, pos);
            law_check_table(m, mid, scope, strict, t1, arg1);
            law_check_table(m, mid2, scope, strict, t2, arg2);
            lemma_step(st, st1, st2, base, last);
            lemma_step(st1, mid, st2, base, last);
            lemma_step(mid, mid2, st2, base, last);
            lemma_expect_sound(m, base, st1, strict, res, ty, pos, mid, last);
            lemma_check_typed(m, base, mid, scope, strict, t1, arg1, mid2, last);
            lemma_check_typed(m, base, mid2, scope, strict, t2, arg2, st2, last);
            assert(bop_sig(op, a, b) == (arg1, arg2, res));
        },
        Term::OpN(op, args) => {
            let (types, res) = nop_type(op);
            let todo = args_against(args@, types);
            let mid = (run_expect(m, st, strict, res, ty, pos)->0).0;
            lemma_expect_table(m, st, strict, res, ty, pos);
            lemma_check_seq_table(m, mid, scope, strict, todo, 0);
            lemma_step(st, mid, st2, base, last);
            lemma_expect_sound(m, base, st, strict, res, ty, pos, mid, last);
            lemma_seq_typed(m, base, mid, scope, strict, todo, 0, st2, last);
            assert forall|i: int| 0 <= i < args@.len() && i < types.len() implies typed(
                last,
                base,
                st.imports,
                scope,
                strict,
                #[trigger] args@[i],
                types[i],
            ) by {
                assert(todo[i] == (args@[i], types[i]));
            }
        },
        _ => {},
    }
}

/// A string with interpolated expressions that was typechecked has its type.
proof fn lemma_chunks_typed(
    n: nat,
    base: nat,
    st: St,
    scope: Scope,
    strict: bool,
    chunks: Seq<StrChunk>,
    st2: St,
    last: Table,
)
    requires
        ends_in(
            run_check_seq(n, st, scope, strict, chunks_against(chunks), 0),
            st,
            base,
            st2,
            last,
        ),
    ensures
        forall|i: int|
            0 <= i < chunks.len() ==> match #[trigger] chunks[i] {
                StrChunk::Expr(t, _) => typed(last, base, st.imports, scope, strict, t, Ty::Str),
                StrChunk::Literal(_) => true,
            },
    decreases n, 2nat, 0int,
{
    let todo = chunks_against(chunks);
    lemma_seq_typed(n, base, st, scope, strict, todo, 0, st2, last);
    assert forall|i: int| 0 <= i < chunks.len() implies match #[trigger] chunks[i] {
        StrChunk::Expr(t, _) => typed(last, base, st.imports, scope, strict, t, Ty::Str),
        StrChunk::Literal(_) => true,
    } by {
        if let StrChunk::Expr(t, _) = chunks[i] {
            let head = chunks.take(i + 1);
            lemma_chunks_against(chunks, i + 1);
            assert(head.last() == chunks[i]);
            let j = chunks_against(head).len() - 1;
            assert(chunks_against(head)[j] == (t, Ty::Str));
            assert(todo.take(chunks_against(head).len() as int)[j] == todo[j]);
        }
    }
}

/// A term that was typechecked has its type, under every later table.
#[verifier::rlimit(30)]
pub proof fn lemma_check_typed(
    n: nat,
    base: nat,
    st: St,
    scope: Scope,
    strict: bool,
    rt: RichTerm,
    ty: Ty,
    st2: St,
    last: Table,
)
    requires
        ends_in(run_check(n, st, scope, strict, rt, ty), st, base, st2, last),
    ensures
        typed(last, base, st.imports, scope, strict, rt, ty),
    decreases n, 0nat, 1int,
{
    broadcast use lemma_after_trans;

    let m = (n - 1) as nat;
    let pos = rt.pos;
    let imports = st.imports;
    let a = Ty::Ptr(next_var(st.table));
    let st1 = with_var(st);
    let b = Ty::Ptr(next_var(st1.table));
    let stb = with_var(st1);
    lemma_after_refl(st.table);
    lemma_new_var(st.table);
    lemma_new_var(st1.table);
    match *rt.term {
        Term::Null => lemma_expect_sound(m, base, st, strict, Ty::Dyn, ty, pos, st2, last),
        Term::Bool(_) => lemma_expect_sound(m, base, st, strict, Ty::Bool, ty, pos, st2, last),
        Term::Num(_) => lemma_expect_sound(m, base, st, strict, Ty::Num, ty, pos, st2, last),
        Term::Str(_) => lemma_expect_sound(m, base, st, strict, Ty::Str, ty, pos, st2, last),
        Term::StrChunks(chunks) => {
            let todo = chunks_against(chunks@);
            let mid = (run_expect(m, st, strict, Ty::Str, ty, pos)->0).0;
            lemma_expect_table(m, st, strict, Ty::Str, ty, pos);
            lemma_check_seq_table(m, mid, scope, strict, todo, 0);
            lemma_step(st, mid, st2, base, last);
            lemma_expect_sound(m, base, st, strict, Ty::Str, ty, pos, mid, last);
            lemma_chunks_typed(m, base, mid, scope, strict, chunks@, st2, last);
        },
        Term::Fun(x, t) => {
            let inner = with_local(scope, x@, a);
            let mid = (run_expect(m, stb, strict, arrow(a, b), ty, pos)->0).0;
            lemma_expect_table(m, stb, strict, arrow(a, b), ty, pos);
            law_check_table(m, mid, inner, strict, t, b);
            lemma_step(st, stb, st2, base, last);
            lemma_step(stb, mid, st2, base, last);
            lemma_expect_sound(m, base, stb, strict, arrow(a, b), ty, pos, mid, last);
            lemma_check_typed(m, base, mid, inner, strict, t, b, st2, last);
        },
        Term::List(terms) => {
            let todo = all_against(terms@, a);
            let mid = (run_expect(m, st1, strict, list_of(a), ty, pos)->0).0;
            lemma_expect_table(m, st1, strict, list_of(a), ty, pos);
            lemma_check_seq_table(m, mid, scope, strict, todo, 0);
            lemma_step(st, st1, st2, base, last);
            lemma_step(st1, mid, st2, base, last);
            lemma_expect_sound(m, base, st1, strict, list_of(a), ty, pos, mid, last);
            lemma_seq_typed(m, base, mid, scope, strict, todo, 0, st2, last);
            assert forall|i: int| 0 <= i < terms@.len() implies typed(
                last,
                base,
                imports,
                scope,
                strict,
                #[trigger] terms@[i],
                a,
            ) by {
                assert(todo[i] == (terms@[i], a));
            }
        },
        Term::Lbl(_) => lemma_expect_sound(m, base, st, strict, Ty::Dyn, ty, pos, st2, last),
        Term::Let(x, re, body) => {
            let (table, ty_let) = bound_ty(st.table, scope, re, strict);
            let st1 = St { table, ..st };
            let inner = with_local(scope, x@, ty_let);
            let mid = (run_check(m, st1, scope, strict, re, ty_let)->0).0;
            lemma_bound_ty_table(st.table, scope, re, strict);
            law_check_table(m, st1, scope, strict, re, ty_let);
            law_check_table(m, mid, inner, strict, body, ty);
            lemma_step(st, st1, st2, base, last);
            lemma_step(st1, mid, st2, base, last);
            lemma_check_typed(m, base, st1, scope, strict, re, ty_let, mid, last);
            lemma_check_typed(m, base, mid, inner, strict, body, ty, st2, last);
            assert(may_bind(scope, re, strict, ty_let));
        },
        Term::App(e, t) => {
            let mid = (run_expect(m, stb, strict, b, ty, pos)->0).0;
            let mid2 = (run_check(m, mid, scope, strict, e, arrow(a, b))->0).0;
            lemma_expect_table(m, stb, strict, b, ty, pos);
            law_check_table(m, mid, scope, strict, e, arrow(a, b));
            law_check_table(m, mid2, scope, strict, t, a);
            lemma_step(st, stb, st2, base, last);
            lemma_step(stb, mid, st2, base, last);
            lemma_step(mid, mid2, st2, base, last);
            lemma_expect_sound(m, base, stb, strict, b, ty, pos, mid, last);
            lemma_check_typed(m, base, mid, scope, strict, e, arrow(a, b), mid2, last);
            lemma_check_typed(m, base, mid2, scope, strict, t, a, st2, last);
        },
        Term::Switch(exp, cases, default) => {
            let (row, res) = lemma_switch_typed(
                m,
                base,
                st,
                scope,
                strict,
                exp,
                cases@,
                default,
                ty,
                pos,
                st2,
                last,
            );
            assert(typed(last, base, imports, scope, strict, exp, enum_of(row)));
            assert(typed_switch(last, base, imports, scope, strict, rt, ty));
        },
        Term::Var(x) => {
            let x_ty = in_scope(scope, x@)->0;
            let from = run_resolve((m - 1) as nat, st.table, x_ty)->0;
            let (mid, inst) = run_instantiate(m, st, x_ty, ForallInst::Ptr)->0;
            law_instantiate_table(m, st, x_ty, ForallInst::Ptr);
            lemma_expect_table(m, mid, strict, inst, ty, pos);
            lemma_step(st, mid, st2, base, last);
            lemma_step(st, st, st2, base, last);
            lemma_expect_sound(m, base, mid, strict, inst, ty, pos, st2, last);
            let args = lemma_instance((m - 1) as nat, st, from);
            lemma_root_same((m - 1) as nat, st.table, last, x_ty);
            assert(inst == instantiated(from, args));
            assert(is_instance(last, x_ty, inst));
        },
        Term::Enum(id) => {
            let row = row_extend(id@, None, a);
            lemma_expect_table(m, st1, strict, enum_of(row), ty, pos);
            lemma_step(st, st1, st2, base, last);
            lemma_expect_sound(m, base, st1, strict, enum_of(row), ty, pos, st2, last);
        },
        Term::Record(fields, _) => {
            let types = lemma_record_typed(
                m,
                base,
                st,
                scope,
                strict,
                false,
                fields@,
                ty,
                pos,
                st2,
                last,
            );
            let row = fields_row(fields@, types, 0, Ty::RowEmpty);
            assert(typed_record(last, base, imports, scope, strict, rt, ty));
        },
        Term::RecRecord(fields, _) => {
            let (table, inner) = bind_fields(st.table, scope, strict, fields@, 0);
            let st1 = St { table, ..st };
            lemma_bind_fields_table(st.table, scope, strict, fields@, 0);
            lemma_check_record_table(m, st1, inner, strict, true, fields@, ty, pos);
            lemma_step(st, st1, st2, base, last);
            let bound = lemma_bind_fields(st.table, scope, strict, fields@, Seq::empty());
            let types = lemma_record_typed(
                m,
                base,
                st1,
                inner,
                strict,
                true,
                fields@,
                ty,
                pos,
                st2,
                last,
            );
            assert(may_bind_fields(scope, fields@, strict, bound));
            let row = fields_row(fields@, types, 0, Ty::RowEmpty);
            assert(typed_rec_record(last, base, imports, scope, strict, rt, ty));
        },
        Term::Op1(_, _) => lemma_op_typed(n, base, st, scope, strict, rt, ty, st2, last),
        Term::Op2(_, _, _) => lemma_op_typed(n, base, st, scope, strict, rt, ty, st2, last),
        Term::OpN(_, _) => lemma_op_typed(n, base, st, scope, strict, rt, ty, st2, last),
        Term::Promise(ty2, _, t) => {
            let c = lemma_promise_typed(
                m,
                base,
                st,
                scope,
                strict,
                ty2@,
                t,
                ty,
                pos,
                st2,
                last,
            );
            let above = c + head_foralls(ty2@);
            assert(typed(last, above, imports, scope, true, t, rigid(ty2@, c)));
            assert(typed_annot(last, base, imports, scope, strict, rt, ty));
        },
        Term::Sym(_) => lemma_expect_sound(m, base, st, strict, Ty::Sym, ty, pos, st2, last),
        Term::Wrapped(_, t) => lemma_check_typed(m, base, st, scope, strict, t, ty, st2, last),
        Term::MetaValue(meta) => {
            lemma_meta_typed(m, base, st, scope, strict, rt, meta, ty, st2, last);
        },
        Term::Import(_) => lemma_expect_sound(m, base, st, strict, Ty::Dyn, ty, pos, st2, last),
        Term::ResolvedImport(file_id) => {
            assert(run_type_check(m, imports, scope.global, imports[file_id]) matches Some(Ok(_)));
        },
    }
}

/// When typechecking succeeds, the term has the type that it was checked against, by the typing
/// rules, under the resulting table, and under every well-formed table that extends it.
pub proof fn law_check_sound(
    n: nat,
    st: St,
    scope: Scope,
    strict: bool,
    rt: RichTerm,
    ty: Ty,
    st2: St,
)
    requires
        succeeds(run_check(n, st, scope, strict, rt, ty), st2),
        is_wf(st.table),
        fits(st2.table),
    ensures
        typed(st2.table, st.table.dom().len(), st.imports, scope, strict, rt, ty),
        forall|last: Table| #[trigger]
            extends(st2.table, last) && is_wf(last) ==> typed(
                last,
                st.table.dom().len(),
                st.imports,
                scope,
                strict,
                rt,
                ty,
            ),
{
    let base = st.table.dom().len();
    law_check_table(n, st, scope, strict, rt, ty);
    law_later_table(st.table, st2.table);
    assert forall|last: Table| #[trigger]
        extends(st2.table, last) && is_wf(last) implies typed(
        last,
        base,
        st.imports,
        scope,
        strict,
        rt,
        ty,
    ) by {
        lemma_check_typed(n, base, st, scope, strict, rt, ty, st2, last);
    }
    assert(extends(st2.table, st2.table));
}

/// When a term typechecks in a global environment, there is a table under which it is typed in
/// non-strict mode, and the inferred type is the one that the table gives to the variable that it
/// was checked against.
pub proof fn law_type_check_sound(
    n: nat,
    imports: Map<FileId, RichTerm>,
    global: Map<Name, Ty>,
    rt: RichTerm,
    ty: Ty,
)
    requires
        run_type_check(n, imports, global, rt) == Some(Ok::<Ty, CheckErr>(ty)),
        ({
            let st = with_var(initial(imports));
            let out = run_check((n - 1) as nat, st, global_scope(global), false, rt, Ty::Ptr(0));
            fits((out->0).0.table)
        }),
    ensures
        exists|table: Table| #[trigger]
            is_wf(table) && typed(
                table,
                1,
                imports,
                global_scope(global),
                false,
                rt,
                Ty::Ptr(0),
            ) && run_to_type((n - 1) as nat, table, Ty::Ptr(0)) == Some(ty),
{
    let st = initial(imports);
    assert(st.table.dom() =~= Set::empty());
    let st1 = with_var(st);
    let m = (n - 1) as nat;
    let goal = Ty::Ptr(0);
    let st2 = (run_check(m, st1, global_scope(global), false, rt, goal)->0).0;
    law_initial_wf(imports);
    lemma_new_var(st.table);
    assert(st1.table.dom() =~= set![0usize]);
    law_later_table(st.table, st1.table);
    law_check_table(m, st1, global_scope(global), false, rt, goal);
    law_later_table(st1.table, st2.table);
    law_check_sound(m, st1, global_scope(global), false, rt, goal, st2);
    assert(is_wf(st2.table));
}

} // verus!
