//! The typing rules: when a term typechecks, in terms of how its parts do.
use vstd::prelude::*;

use crate::identifier::Ident;
use crate::laws::closed::{
    bindings, is_closed_record, is_reordered, is_reordered_row, is_simple, is_simple_row,
    law_sub_simple, law_sub_simple_total, lemma_reordered_sub,
};
use crate::laws::congruence::{is_base, law_sub_base};
use crate::laws::operators::{
    dict, fun, law_arithmetic, law_comparison, law_strings, list, next, one_more, tag_row,
};
use crate::laws::rows::{row_end, row_ids};
use crate::laws::subtyping::succeeds;
use crate::laws::total::ty_size;
use crate::model::{CheckErr, Name, St, Ty};
use crate::position::TermPos;
use crate::term::{RichTerm, StrChunk, Term};
use crate::typecheck::check::{
    all_against, args_against, bind_fields, cases_row, chunks_against, fields_against, run_check,
    run_check_fields, run_check_meta, run_check_promise, run_check_record, run_check_seq,
    run_check_switch, run_expect, run_to_type, run_type_check, Checked,
};
use crate::typecheck::envs::{bound_ty, global_scope, in_scope, with_local, Scope};
use crate::typecheck::instantiate::{run_instantiate, ForallInst};
use crate::typecheck::ops::{
    bop_type, is_typed_bop, is_typed_nop, is_typed_uop, nop_type, uop_type,
};
use crate::typecheck::reporting::{no_names, run_report_err};
use crate::typecheck::state::run_resolve;
use crate::typecheck::unify::run_sub;

verus! {

/// Whether a type is accepted for another, and leaves a state: in strict mode they are unified, and
/// otherwise nothing is asked for.
pub open spec fn accepts(n: nat, st: St, strict: bool, t1: Ty, t2: Ty, last: St) -> bool {
    if strict {
        succeeds(run_sub(n, st, t1, t2), last)
    } else {
        last == st
    }
}

/// Whether a type is not accepted for another: in strict mode, their unification does not succeed.
pub open spec fn refuses(n: nat, st: St, strict: bool, t1: Ty, t2: Ty) -> bool {
    strict && !(run_sub(n, st, t1, t2) matches Some((_, Ok(_))))
}

/// The outcome of a type that is not accepted for another: the error of the unification, reported
/// at a position with new names, in the state that the unification leaves.
pub open spec fn refusal(n: nat, st: St, t1: Ty, t2: Ty, pos: TermPos) -> Checked {
    match run_sub(n, st, t1, t2) {
        Some((mid, Err(err))) => match run_report_err(n, mid, no_names(), err, pos) {
            Some((_, reported)) => Some((mid, Err(reported))),
            None => None,
        },
        _ => None,
    }
}

/// Whether typechecking does not succeed.
pub open spec fn is_rejected(out: Checked) -> bool {
    !(out matches Some((_, Ok(_))))
}

/// Unifying the type of a term with the one that is expected succeeds and fails as the unification
/// does, in this order. The error is reported at the position of the term.
pub proof fn law_expect(n: nat, st: St, strict: bool, t1: Ty, t2: Ty, pos: TermPos, last: St)
    ensures
        accepts(n, st, strict, t1, t2, last) ==> succeeds(
            run_expect(n, st, strict, t1, t2, pos),
            last,
        ),
        refuses(n, st, strict, t1, t2) ==> run_expect(n, st, strict, t1, t2, pos) == refusal(
            n,
            st,
            t1,
            t2,
            pos,
        ),
{
    reveal(run_expect);
}

/// Whether a term is typechecked by its own type only: it typechecks exactly when its type is
/// accepted for the one that is expected.
pub open spec fn has_own_type(
    n: nat,
    st: St,
    scope: Scope,
    strict: bool,
    rt: RichTerm,
    own: Ty,
    ty: Ty,
    last: St,
) -> bool {
    let out = run_check(n + 1, st, scope, strict, rt, ty);
    &&& accepts(n, st, strict, own, ty, last) ==> succeeds(out, last)
    &&& refuses(n, st, strict, own, ty) ==> out == refusal(n, st, own, ty, rt.pos)
}

/// The constants have their own types. Null, labels and imports that are not resolved have the type
/// `Dyn`.
pub proof fn law_check_constant(
    n: nat,
    st: St,
    scope: Scope,
    strict: bool,
    rt: RichTerm,
    ty: Ty,
    last: St,
)
    ensures
        match *rt.term {
            Term::Null => has_own_type(n, st, scope, strict, rt, Ty::Dyn, ty, last),
            Term::Lbl(_) => has_own_type(n, st, scope, strict, rt, Ty::Dyn, ty, last),
            Term::Import(_) => has_own_type(n, st, scope, strict, rt, Ty::Dyn, ty, last),
            Term::Bool(_) => has_own_type(n, st, scope, strict, rt, Ty::Bool, ty, last),
            Term::Num(_) => has_own_type(n, st, scope, strict, rt, Ty::Num, ty, last),
            Term::Str(_) => has_own_type(n, st, scope, strict, rt, Ty::Str, ty, last),
            Term::Sym(_) => has_own_type(n, st, scope, strict, rt, Ty::Sym, ty, last),
            _ => true,
        },
{
    law_expect(n, st, strict, Ty::Dyn, ty, rt.pos, last);
    law_expect(n, st, strict, Ty::Bool, ty, rt.pos, last);
    law_expect(n, st, strict, Ty::Num, ty, rt.pos, last);
    law_expect(n, st, strict, Ty::Str, ty, rt.pos, last);
    law_expect(n, st, strict, Ty::Sym, ty, rt.pos, last);
}

/// The outcome of typechecking terms one after the other, each against its type, until one fails.
pub open spec fn in_turn(
    n: nat,
    st: St,
    scope: Scope,
    strict: bool,
    todo: Seq<(RichTerm, Ty)>,
) -> Checked
    decreases todo.len(),
{
    if todo.len() == 0 {
        Some((st, Ok(())))
    } else {
        match run_check(n, st, scope, strict, todo[0].0, todo[0].1) {
            Some((mid, Ok(()))) => in_turn(n, mid, scope, strict, todo.drop_first()),
            out => out,
        }
    }
}

/// The terms of a sequence are typechecked one after the other.
pub proof fn law_check_seq(
    n: nat,
    st: St,
    scope: Scope,
    strict: bool,
    todo: Seq<(RichTerm, Ty)>,
    i: int,
)
    requires
        0 <= i <= todo.len(),
    ensures
        run_check_seq(n, st, scope, strict, todo, i) == in_turn(
            n,
            st,
            scope,
            strict,
            todo.skip(i),
        ),
    decreases todo.len() - i,
{
    let rest = todo.skip(i);
    if i < todo.len() {
        assert(rest[0] == todo[i]);
        assert(rest.drop_first() =~= todo.skip(i + 1));
        if let Some((mid, Ok(()))) = run_check(n, st, scope, strict, todo[i].0, todo[i].1) {
            law_check_seq(n, mid, scope, strict, todo, i + 1);
        }
    }
}

/// The terms of a sequence, each with a type.
pub open spec fn each(terms: Seq<RichTerm>, ty: Ty) -> Seq<(RichTerm, Ty)> {
    Seq::new(terms.len(), |i: int| (terms[i], ty))
}

/// The terms of bindings, each with a type.
pub open spec fn each_field(fields: Seq<(Ident, RichTerm)>, ty: Ty) -> Seq<(RichTerm, Ty)> {
    Seq::new(fields.len(), |i: int| (fields[i].1, ty))
}

/// A string with interpolated expressions is a string, and its expressions are strings.
pub proof fn law_check_chunks(
    n: nat,
    st: St,
    scope: Scope,
    strict: bool,
    rt: RichTerm,
    ty: Ty,
    mid: St,
)
    ensures
        *rt.term matches Term::StrChunks(chunks) ==> {
            let out = run_check(n + 1, st, scope, strict, rt, ty);
            &&& accepts(n, st, strict, Ty::Str, ty, mid) ==> out == in_turn(
                n,
                mid,
                scope,
                strict,
                chunks_against(chunks@),
            )
            &&& refuses(n, st, strict, Ty::Str, ty) ==> out == refusal(n, st, Ty::Str, ty, rt.pos)
        },
{
    law_expect(n, st, strict, Ty::Str, ty, rt.pos, mid);
    if let Term::StrChunks(chunks) = *rt.term {
        let todo = chunks_against(chunks@);
        law_check_seq(n, mid, scope, strict, todo, 0);
        assert(todo.skip(0) =~= todo);
    }
}

/// The expressions of a string are typechecked in order, each against the type of strings, and the
/// literal chunks are not.
pub proof fn law_chunks(chunks: Seq<StrChunk>, chunk: StrChunk)
    ensures
        chunks_against(Seq::empty()) == Seq::<(RichTerm, Ty)>::empty(),
        match chunk {
            StrChunk::Literal(_) => chunks_against(chunks.push(chunk)) == chunks_against(chunks),
            StrChunk::Expr(t, _) => chunks_against(chunks.push(chunk)) == chunks_against(
                chunks,
            ).push((t, Ty::Str)),
        },
{
    assert(chunks.push(chunk).drop_last() =~= chunks);
}

/// A function has the type from a new variable to another, and its body typechecks against the
/// latter, with the argument in scope.
pub proof fn law_check_fun(
    n: nat,
    st: St,
    scope: Scope,
    strict: bool,
    rt: RichTerm,
    ty: Ty,
    mid: St,
)
    ensures
        *rt.term matches Term::Fun(x, t) ==> {
            let out = run_check(n + 1, st, scope, strict, rt, ty);
            let two = one_more(one_more(st));
            let (a, b) = (next(st), next(one_more(st)));
            &&& accepts(n, two, strict, fun(a, b), ty, mid) ==> out == run_check(
                n,
                mid,
                with_local(scope, x@, a),
                strict,
                t,
                b,
            )
            &&& refuses(n, two, strict, fun(a, b), ty) ==> out == refusal(
                n,
                two,
                fun(a, b),
                ty,
                rt.pos,
            )
        },
{
    let two = one_more(one_more(st));
    law_expect(n, two, strict, fun(next(st), next(one_more(st))), ty, rt.pos, mid);
}

/// A list has the type of lists of a new variable, and its elements typecheck against the variable
/// one after the other.
pub proof fn law_check_list(
    n: nat,
    st: St,
    scope: Scope,
    strict: bool,
    rt: RichTerm,
    ty: Ty,
    mid: St,
)
    ensures
        *rt.term matches Term::List(terms) ==> {
            let out = run_check(n + 1, st, scope, strict, rt, ty);
            let a = next(st);
            &&& accepts(n, one_more(st), strict, list(a), ty, mid) ==> out == in_turn(
                n,
                mid,
                scope,
                strict,
                each(terms@, a),
            )
            &&& refuses(n, one_more(st), strict, list(a), ty) ==> out == refusal(
                n,
                one_more(st),
                list(a),
                ty,
                rt.pos,
            )
        },
{
    law_expect(n, one_more(st), strict, list(next(st)), ty, rt.pos, mid);
    if let Term::List(terms) = *rt.term {
        let todo = all_against(terms@, next(st));
        law_check_seq(n, mid, scope, strict, todo, 0);
        assert(todo.skip(0) =~= each(terms@, next(st)));
    }
}

/// A let-bound term typechecks against the type of its binding, and then the body does with the
/// binding in scope, against the type that is expected.
pub proof fn law_check_let(
    n: nat,
    st: St,
    scope: Scope,
    strict: bool,
    rt: RichTerm,
    ty: Ty,
    mid: St,
)
    ensures
        *rt.term matches Term::Let(x, t, body) ==> {
            let out = run_check(n + 1, st, scope, strict, rt, ty);
            let (table, bound) = bound_ty(st.table, scope, t, strict);
            let bind = run_check(n, St { table, ..st }, scope, strict, t, bound);
            &&& succeeds(bind, mid) ==> out == run_check(
                n,
                mid,
                with_local(scope, x@, bound),
                strict,
                body,
                ty,
            )
            &&& is_rejected(bind) ==> out == bind
        },
{
}

/// In an application, the function has the type from a new variable to another, the latter is
/// accepted for the type that is expected, and the argument typechecks against the former.
pub proof fn law_check_app(
    n: nat,
    st: St,
    scope: Scope,
    strict: bool,
    rt: RichTerm,
    ty: Ty,
    mid: St,
    mid2: St,
)
    ensures
        *rt.term matches Term::App(f, t) ==> {
            let out = run_check(n + 1, st, scope, strict, rt, ty);
            let two = one_more(one_more(st));
            let (a, b) = (next(st), next(one_more(st)));
            let fun_out = run_check(n, mid, scope, strict, f, fun(a, b));
            &&& refuses(n, two, strict, b, ty) ==> out == refusal(n, two, b, ty, rt.pos)
            &&& accepts(n, two, strict, b, ty, mid) ==> {
                &&& is_rejected(fun_out) ==> out == fun_out
                &&& succeeds(fun_out, mid2) ==> out == run_check(n, mid2, scope, strict, t, a)
            }
        },
{
    let two = one_more(one_more(st));
    law_expect(n, two, strict, next(one_more(st)), ty, rt.pos, mid);
}

/// The identifiers of bindings, the last one first.
pub open spec fn ids_back(fields: Seq<(Ident, RichTerm)>) -> Seq<Name> {
    Seq::new(fields.len(), |i: int| fields[fields.len() - 1 - i].0@)
}

/// The row of a switch without a default case is closed: it has exactly the tags of the cases, and
/// ends with the empty row.
pub proof fn law_cases_row(cases: Seq<(Ident, RichTerm)>, id: Name)
    ensures
        cases_row(cases) == tag_row(ids_back(cases), Ty::RowEmpty),
        row_end(cases_row(cases)) == Ty::RowEmpty,
        row_ids(cases_row(cases)).contains(id) <==> exists|i: int|
            0 <= i < cases.len() && (#[trigger] cases[i]).0@ == id,
    decreases cases.len(),
{
    if cases.len() > 0 {
        let init = cases.drop_last();
        let last = cases.len() - 1;
        law_cases_row(init, id);
        assert(ids_back(cases).drop_first() =~= ids_back(init));
        assert(cases[last] == cases.last());
        if row_ids(cases_row(init)).contains(id) {
            let i = choose|i: int| 0 <= i < init.len() && (#[trigger] init[i]).0@ == id;
            assert(cases[i].0@ == id);
        }
        assert forall|i: int| 0 <= i < cases.len() && (#[trigger] cases[i]).0@ == id implies i
            == last || row_ids(cases_row(init)).contains(id) by {
            if i < last {
                assert(init[i].0@ == id);
            }
        }
    }
}

/// The cases of a switch typecheck one after the other against a new variable. The variable is
/// accepted for the type that is expected, and the expression has the enum type of exactly the tags
/// of the cases. With a default case, which is of the same type, it has the enum type of a new
/// variable.
pub proof fn law_check_switch(
    n: nat,
    st: St,
    scope: Scope,
    strict: bool,
    rt: RichTerm,
    ty: Ty,
    mid: St,
    mid2: St,
    mid3: St,
)
    ensures
        *rt.term matches Term::Switch(exp, cases, default) ==> {
            let out = run_check(n + 1, st, scope, strict, rt, ty);
            let a = next(st);
            let all = in_turn(n, one_more(st), scope, strict, each_field(cases@, a));
            &&& is_rejected(all) ==> out == all
            &&& succeeds(all, mid) ==> match default {
                None => {
                    let row = tag_row(ids_back(cases@), Ty::RowEmpty);
                    &&& refuses(n, mid, strict, a, ty) ==> out == refusal(n, mid, a, ty, rt.pos)
                    &&& accepts(n, mid, strict, a, ty, mid3) ==> out == run_check(
                        n,
                        mid3,
                        scope,
                        strict,
                        exp,
                        Ty::Enum(Box::new(row)),
                    )
                },
                Some(t) => {
                    let other = run_check(n, mid, scope, strict, t, a);
                    let more = one_more(mid2);
                    &&& is_rejected(other) ==> out == other
                    &&& succeeds(other, mid2) && refuses(n, more, strict, a, ty) ==> out
                        == refusal(n, more, a, ty, rt.pos)
                    &&& succeeds(other, mid2) && accepts(n, more, strict, a, ty, mid3) ==> out
                        == run_check(n, mid3, scope, strict, exp, Ty::Enum(Box::new(next(mid2))))
                },
            }
        },
{
    if let Term::Switch(exp, cases, default) = *rt.term {
        let a = next(st);
        let todo = fields_against(cases@, a);
        law_check_seq(n, one_more(st), scope, strict, todo, 0);
        assert(todo.skip(0) =~= each_field(cases@, a));
        law_cases_row(cases@, Seq::empty());
        law_expect(n, mid, strict, a, ty, rt.pos, mid3);
        law_expect(n, one_more(mid2), strict, a, ty, rt.pos, mid3);
        let out = run_check_switch(n, st, scope, strict, exp, cases@, default, ty, rt.pos);
        assert(run_check(n + 1, st, scope, strict, rt, ty) == out);
    }
}

/// A variable has an instance of the type that it has in scope. One that is not in scope is an
/// error at its position.
pub proof fn law_check_var(
    n: nat,
    st: St,
    scope: Scope,
    strict: bool,
    rt: RichTerm,
    ty: Ty,
    mid: St,
    inst: Ty,
    last: St,
)
    ensures
        *rt.term matches Term::Var(x) ==> {
            let out = run_check(n + 1, st, scope, strict, rt, ty);
            match in_scope(scope, x@) {
                None => out == Some(
                    (st, Err::<(), CheckErr>(CheckErr::UnboundIdentifier(x@, rt.pos))),
                ),
                Some(x_ty) => {
                    let own = run_instantiate(n, st, x_ty, ForallInst::Ptr);
                    &&& own is None ==> out is None
                    &&& own == Some((mid, inst)) ==> {
                        &&& accepts(n, mid, strict, inst, ty, last) ==> succeeds(out, last)
                        &&& refuses(n, mid, strict, inst, ty) ==> out == refusal(
                            n,
                            mid,
                            inst,
                            ty,
                            rt.pos,
                        )
                    }
                },
            }
        },
{
    law_expect(n, mid, strict, inst, ty, rt.pos, last);
}

/// An enum tag has the enum type of this tag and a new variable for the other ones.
pub proof fn law_check_enum(
    n: nat,
    st: St,
    scope: Scope,
    strict: bool,
    rt: RichTerm,
    ty: Ty,
    last: St,
)
    ensures
        *rt.term matches Term::Enum(id) ==> {
            let out = run_check(n + 1, st, scope, strict, rt, ty);
            let own = Ty::Enum(Box::new(Ty::RowExtend(id@, None, Box::new(next(st)))));
            &&& accepts(n, one_more(st), strict, own, ty, last) ==> succeeds(out, last)
            &&& refuses(n, one_more(st), strict, own, ty) ==> out == refusal(
                n,
                one_more(st),
                own,
                ty,
                rt.pos,
            )
        },
{
    if let Term::Enum(id) = *rt.term {
        let own = Ty::Enum(Box::new(Ty::RowExtend(id@, None, Box::new(next(st)))));
        law_expect(n, one_more(st), strict, own, ty, rt.pos, last);
    }
}

/// The outcome of typechecking the fields of a record one after the other, each against a new
/// variable, or against its type in scope in a recursive record: the state, and the types of the
/// fields.
pub open spec fn fields_in_turn(
    n: nat,
    st: St,
    scope: Scope,
    strict: bool,
    rec: bool,
    fields: Seq<(Ident, RichTerm)>,
    types: Seq<Ty>,
    last: St,
) -> bool
    decreases fields.len(),
{
    &&& types.len() == fields.len()
    &&& if fields.len() == 0 {
        last == st
    } else {
        let st1 = if rec {
            st
        } else {
            one_more(st)
        };
        &&& if rec {
            in_scope(scope, fields[0].0@) == Some(types[0])
        } else {
            types[0] == next(st)
        }
        &&& run_check(n, st1, scope, strict, fields[0].1, types[0]) matches Some((mid, Ok(_)))
            && fields_in_turn(
            n,
            mid,
            scope,
            strict,
            rec,
            fields.drop_first(),
            types.drop_first(),
            last,
        )
    }
}

/// The bindings of fields and their types, the last one first.
pub open spec fn typed_back(fields: Seq<(Ident, RichTerm)>, types: Seq<Ty>) -> Seq<(Name, Ty)> {
    Seq::new(
        fields.len(),
        |i: int| (fields[fields.len() - 1 - i].0@, types[fields.len() - 1 - i]),
    )
}

/// The fields of a record that typecheck give a closed record row, with exactly the identifiers of
/// the fields and their types.
pub proof fn law_check_fields(
    n: nat,
    st: St,
    scope: Scope,
    strict: bool,
    rec: bool,
    fields: Seq<(Ident, RichTerm)>,
    types: Seq<Ty>,
    last: St,
)
    requires
        fields_in_turn(n, st, scope, strict, rec, fields, types, last),
    ensures
        run_check_fields(n, st, scope, strict, rec, fields, 0, Ty::RowEmpty) matches Some(
            (st2, Ok(row)),
        ) && st2 == last && is_closed_record(row) && bindings(row) == typed_back(fields, types),
{
    assert(fields.skip(0) =~= fields);
    lemma_check_fields(n, st, scope, strict, rec, fields, 0, Ty::RowEmpty, types, last);
    let out = run_check_fields(n, st, scope, strict, rec, fields, 0, Ty::RowEmpty);
    assert(typed_back(fields, types) + Seq::<(Name, Ty)>::empty() =~= typed_back(fields, types));
}

/// The same, from a field on, and on top of a row.
proof fn lemma_check_fields(
    n: nat,
    st: St,
    scope: Scope,
    strict: bool,
    rec: bool,
    fields: Seq<(Ident, RichTerm)>,
    i: int,
    row: Ty,
    types: Seq<Ty>,
    last: St,
)
    requires
        0 <= i <= fields.len(),
        is_closed_record(row),
        fields_in_turn(n, st, scope, strict, rec, fields.skip(i), types, last),
    ensures
        run_check_fields(n, st, scope, strict, rec, fields, i, row) matches Some((st2, Ok(row2)))
            && st2 == last && is_closed_record(row2) && bindings(row2) == typed_back(
            fields.skip(i),
            types,
        ) + bindings(row),
    decreases fields.len() - i,
{
    let rest = fields.skip(i);
    if i < fields.len() {
        let (id, t) = fields[i];
        assert(rest[0] == fields[i]);
        assert(rest.drop_first() =~= fields.skip(i + 1));
        let st1 = if rec {
            st
        } else {
            one_more(st)
        };
        let mid = (run_check(n, st1, scope, strict, t, types[0])->0).0;
        let row2 = Ty::RowExtend(id@, Some(Box::new(types[0])), Box::new(row));
        let more = types.drop_first();
        lemma_check_fields(n, mid, scope, strict, rec, fields, i + 1, row2, more, last);
        assert(typed_back(rest, types) + bindings(row) =~= typed_back(fields.skip(i + 1), more)
            + bindings(row2));
    } else {
        assert(typed_back(rest, types) + bindings(row) =~= bindings(row));
    }
}

/// The fields of a record are not typechecked beyond one that does not typecheck, and the outcome
/// is the one of this field. A field of a recursive record that is not in scope has none.
pub proof fn law_check_fields_until(
    n: nat,
    st: St,
    scope: Scope,
    strict: bool,
    rec: bool,
    fields: Seq<(Ident, RichTerm)>,
    k: int,
    types: Seq<Ty>,
    mid: St,
)
    requires
        0 <= k < fields.len(),
        fields_in_turn(n, st, scope, strict, rec, fields.take(k), types, mid),
    ensures
        ({
            let out = run_check_fields(n, st, scope, strict, rec, fields, 0, Ty::RowEmpty);
            let (mid1, own) = if rec {
                (mid, in_scope(scope, fields[k].0@))
            } else {
                (one_more(mid), Some(next(mid)))
            };
            match own {
                None => out is None,
                Some(ty) => match run_check(n, mid1, scope, strict, fields[k].1, ty) {
                    None => out is None,
                    Some((st2, Err(err))) => out == Some((st2, Err::<Ty, CheckErr>(err))),
                    Some((_, Ok(_))) => true,
                },
            }
        }),
{
    assert(fields.skip(0) =~= fields);
    lemma_check_fields_until(n, st, scope, strict, rec, fields, 0, Ty::RowEmpty, k, types, mid);
}

/// The same, from a field on, and on top of a row.
proof fn lemma_check_fields_until(
    n: nat,
    st: St,
    scope: Scope,
    strict: bool,
    rec: bool,
    fields: Seq<(Ident, RichTerm)>,
    i: int,
    row: Ty,
    k: int,
    types: Seq<Ty>,
    mid: St,
)
    requires
        0 <= i <= k < fields.len(),
        fields_in_turn(n, st, scope, strict, rec, fields.skip(i).take(k - i), types, mid),
    ensures
        ({
            let out = run_check_fields(n, st, scope, strict, rec, fields, i, row);
            let (mid1, own) = if rec {
                (mid, in_scope(scope, fields[k].0@))
            } else {
                (one_more(mid), Some(next(mid)))
            };
            match own {
                None => out is None,
                Some(ty) => match run_check(n, mid1, scope, strict, fields[k].1, ty) {
                    None => out is None,
                    Some((st2, Err(err))) => out == Some((st2, Err::<Ty, CheckErr>(err))),
                    Some((_, Ok(_))) => true,
                },
            }
        }),
    decreases fields.len() - i,
{
    let part = fields.skip(i).take(k - i);
    if i < k {
        let (id, t) = fields[i];
        assert(part[0] == fields[i]);
        let st1 = if rec {
            st
        } else {
            one_more(st)
        };
        let mid1 = (run_check(n, st1, scope, strict, t, types[0])->0).0;
        let row2 = Ty::RowExtend(id@, Some(Box::new(types[0])), Box::new(row));
        let more = types.drop_first();
        assert(part.drop_first() =~= fields.skip(i + 1).take(k - (i + 1)));
        lemma_check_fields_until(n, mid1, scope, strict, rec, fields, i + 1, row2, k, more, mid);
        assert(run_check_fields(n, st, scope, strict, rec, fields, i, row) == run_check_fields(
            n,
            mid1,
            scope,
            strict,
            rec,
            fields,
            i + 1,
            row2,
        ));
    }
}

/// A record against a type other than a dictionary does not typecheck when its fields do not, with
/// the same outcome. A type without a representative is not typechecked against.
pub proof fn law_check_record_fails(
    n: nat,
    st: St,
    scope: Scope,
    strict: bool,
    rt: RichTerm,
    ty: Ty,
    last: St,
    err: CheckErr,
)
    ensures
        *rt.term matches Term::Record(fields, _) ==> {
            let out = run_check(n + 1, st, scope, strict, rt, ty);
            let all = run_check_fields(n, st, scope, strict, false, fields@, 0, Ty::RowEmpty);
            match run_resolve(n, st.table, ty) {
                None => out is None,
                Some(r) => !(r is DynRecord) ==> {
                    &&& all is None ==> out is None
                    &&& all == Some((last, Err::<Ty, CheckErr>(err))) ==> out == Some(
                        (last, Err::<(), CheckErr>(err)),
                    )
                },
            }
        },
        *rt.term matches Term::RecRecord(fields, _) ==> {
            let out = run_check(n + 1, st, scope, strict, rt, ty);
            let (table, inner) = bind_fields(st.table, scope, strict, fields@, 0);
            let st1 = St { table, ..st };
            let all = run_check_fields(n, st1, inner, strict, true, fields@, 0, Ty::RowEmpty);
            match run_resolve(n, table, ty) {
                None => out is None,
                Some(r) => !(r is DynRecord) ==> {
                    &&& all is None ==> out is None
                    &&& all == Some((last, Err::<Ty, CheckErr>(err))) ==> out == Some(
                        (last, Err::<(), CheckErr>(err)),
                    )
                },
            }
        },
{
    if let Term::Record(fields, _) = *rt.term {
        let whole = run_check_record(n, st, scope, strict, false, fields@, ty, rt.pos);
        assert(run_check(n + 1, st, scope, strict, rt, ty) == whole);
    }
    if let Term::RecRecord(fields, _) = *rt.term {
        let (table, inner) = bind_fields(st.table, scope, strict, fields@, 0);
        let st1 = St { table, ..st };
        let whole = run_check_record(n, st1, inner, strict, true, fields@, ty, rt.pos);
        assert(run_check(n + 1, st, scope, strict, rt, ty) == whole);
    }
}

/// A record against a dictionary type typechecks as its fields do, one after the other, against the
/// type of the elements.
pub proof fn law_check_dict(
    n: nat,
    st: St,
    scope: Scope,
    strict: bool,
    rt: RichTerm,
    ty: Ty,
    elt: Ty,
)
    ensures
        *rt.term matches Term::Record(fields, _) ==> (run_resolve(n, st.table, ty) == Some(
            dict(elt),
        ) ==> run_check(n + 1, st, scope, strict, rt, ty) == in_turn(
            n,
            st,
            scope,
            strict,
            each_field(fields@, elt),
        )),
        *rt.term matches Term::RecRecord(fields, _) ==> {
            let (table, inner) = bind_fields(st.table, scope, strict, fields@, 0);
            run_resolve(n, table, ty) == Some(dict(elt)) ==> run_check(
                n + 1,
                st,
                scope,
                strict,
                rt,
                ty,
            ) == in_turn(n, St { table, ..st }, inner, strict, each_field(fields@, elt))
        },
{
    if let Term::Record(fields, _) = *rt.term {
        let todo = fields_against(fields@, elt);
        law_check_seq(n, st, scope, strict, todo, 0);
        assert(todo.skip(0) =~= each_field(fields@, elt));
        let out = run_check_record(n, st, scope, strict, false, fields@, ty, rt.pos);
        assert(run_check(n + 1, st, scope, strict, rt, ty) == out);
    }
    if let Term::RecRecord(fields, _) = *rt.term {
        let (table, inner) = bind_fields(st.table, scope, strict, fields@, 0);
        let mid = St { table, ..st };
        let todo = fields_against(fields@, elt);
        law_check_seq(n, mid, inner, strict, todo, 0);
        assert(todo.skip(0) =~= each_field(fields@, elt));
        let out = run_check_record(n, mid, inner, strict, true, fields@, ty, rt.pos);
        assert(run_check(n + 1, st, scope, strict, rt, ty) == out);
    }
}

/// A record against any other type typechecks when its fields do, and then the record type of
/// exactly its fields and their types is accepted. The fields of a recursive record are in scope.
pub proof fn law_check_record(
    n: nat,
    st: St,
    scope: Scope,
    strict: bool,
    rt: RichTerm,
    ty: Ty,
    types: Seq<Ty>,
    mid: St,
    row: Ty,
    last: St,
)
    requires
        is_closed_record(row),
    ensures
        *rt.term matches Term::Record(fields, _) ==> (run_resolve(n, st.table, ty) is Some && !(
        run_resolve(n, st.table, ty)->0 is DynRecord) && fields_in_turn(
            n,
            st,
            scope,
            strict,
            false,
            fields@,
            types,
            mid,
        ) && bindings(row) == typed_back(fields@, types) ==> {
            let out = run_check(n + 1, st, scope, strict, rt, ty);
            let own = Ty::StaticRecord(Box::new(row));
            &&& accepts(n, mid, strict, own, ty, last) ==> succeeds(out, last)
            &&& refuses(n, mid, strict, own, ty) ==> out == refusal(n, mid, own, ty, rt.pos)
        }),
        *rt.term matches Term::RecRecord(fields, _) ==> {
            let (table, inner) = bind_fields(st.table, scope, strict, fields@, 0);
            let st1 = St { table, ..st };
            run_resolve(n, table, ty) is Some && !(run_resolve(n, table, ty)->0 is DynRecord)
                && fields_in_turn(n, st1, inner, strict, true, fields@, types, mid) && bindings(row)
                == typed_back(fields@, types) ==> {
                let out = run_check(n + 1, st, scope, strict, rt, ty);
                let own = Ty::StaticRecord(Box::new(row));
                &&& accepts(n, mid, strict, own, ty, last) ==> succeeds(out, last)
                &&& refuses(n, mid, strict, own, ty) ==> out == refusal(n, mid, own, ty, rt.pos)
            }
        },
{
    law_expect(n, mid, strict, Ty::StaticRecord(Box::new(row)), ty, rt.pos, last);
    if let Term::Record(fields, _) = *rt.term {
        if fields_in_turn(n, st, scope, strict, false, fields@, types, mid) {
            law_check_fields(n, st, scope, strict, false, fields@, types, mid);
            let out = run_check_fields(n, st, scope, strict, false, fields@, 0, Ty::RowEmpty);
            if bindings(row) == typed_back(fields@, types) {
                lemma_same_record((out->0).1->Ok_0, row);
            }
            let whole = run_check_record(n, st, scope, strict, false, fields@, ty, rt.pos);
            assert(run_check(n + 1, st, scope, strict, rt, ty) == whole);
        }
    }
    if let Term::RecRecord(fields, _) = *rt.term {
        let (table, inner) = bind_fields(st.table, scope, strict, fields@, 0);
        let st1 = St { table, ..st };
        if fields_in_turn(n, st1, inner, strict, true, fields@, types, mid) {
            law_check_fields(n, st1, inner, strict, true, fields@, types, mid);
            let out = run_check_fields(n, st1, inner, strict, true, fields@, 0, Ty::RowEmpty);
            if bindings(row) == typed_back(fields@, types) {
                lemma_same_record((out->0).1->Ok_0, row);
            }
            let whole = run_check_record(n, st1, inner, strict, true, fields@, ty, rt.pos);
            assert(run_check(n + 1, st, scope, strict, rt, ty) == whole);
        }
    }
}

/// A closed record row is given by its bindings.
proof fn lemma_same_record(a: Ty, b: Ty)
    requires
        is_closed_record(a),
        is_closed_record(b),
        bindings(a) == bindings(b),
    ensures
        a == b,
    decreases a,
{
    match (a, b) {
        (Ty::RowExtend(i, Some(s), r1), Ty::RowExtend(j, Some(t), r2)) => {
            assert(bindings(a)[0] == (i, *s));
            assert(bindings(b)[0] == (j, *t));
            assert(bindings(a).drop_first() =~= bindings(*r1));
            assert(bindings(b).drop_first() =~= bindings(*r2));
            lemma_same_record(*r1, *r2);
        },
        (Ty::RowExtend(i, Some(s), _), Ty::RowEmpty) => {
            assert(bindings(a).len() > 0);
        },
        (Ty::RowEmpty, Ty::RowExtend(j, Some(t), _)) => {
            assert(bindings(b).len() > 0);
        },
        _ => {},
    }
}

/// The result of a unary operator is accepted for the type that is expected, and its argument
/// typechecks against the type of its argument.
pub proof fn law_check_op1(
    n: nat,
    st: St,
    scope: Scope,
    strict: bool,
    rt: RichTerm,
    ty: Ty,
    st1: St,
    arg: Ty,
    res: Ty,
    mid: St,
)
    ensures
        *rt.term matches Term::Op1(op, t) ==> (is_typed_uop(op) && uop_type(st, op) == (
            st1,
            arg,
            res,
        ) ==> {
            let out = run_check(n + 1, st, scope, strict, rt, ty);
            &&& refuses(n, st1, strict, res, ty) ==> out == refusal(n, st1, res, ty, rt.pos)
            &&& accepts(n, st1, strict, res, ty, mid) ==> out == run_check(
                n,
                mid,
                scope,
                strict,
                t,
                arg,
            )
        }),
{
    law_expect(n, st1, strict, res, ty, rt.pos, mid);
}

/// The result of a binary operator is accepted for the type that is expected, and its arguments
/// typecheck against the types of its arguments, one after the other.
pub proof fn law_check_op2(
    n: nat,
    st: St,
    scope: Scope,
    strict: bool,
    rt: RichTerm,
    ty: Ty,
    st1: St,
    arg1: Ty,
    arg2: Ty,
    res: Ty,
    mid: St,
)
    ensures
        *rt.term matches Term::Op2(op, t1, t2) ==> (is_typed_bop(op) && bop_type(st, op) == (
            st1,
            arg1,
            arg2,
            res,
        ) ==> {
            let out = run_check(n + 1, st, scope, strict, rt, ty);
            &&& refuses(n, st1, strict, res, ty) ==> out == refusal(n, st1, res, ty, rt.pos)
            &&& accepts(n, st1, strict, res, ty, mid) ==> out == in_turn(
                n,
                mid,
                scope,
                strict,
                seq![(t1, arg1), (t2, arg2)],
            )
        }),
{
    law_expect(n, st1, strict, res, ty, rt.pos, mid);
    if let Term::Op2(op, t1, t2) = *rt.term {
        lemma_two_in_turn(n, mid, scope, strict, t1, arg1, t2, arg2);
    }
}

/// Two terms, one after the other.
proof fn lemma_two_in_turn(
    n: nat,
    st: St,
    scope: Scope,
    strict: bool,
    t1: RichTerm,
    ty1: Ty,
    t2: RichTerm,
    ty2: Ty,
)
    ensures
        in_turn(n, st, scope, strict, seq![(t1, ty1), (t2, ty2)]) == match run_check(
            n,
            st,
            scope,
            strict,
            t1,
            ty1,
        ) {
            Some((mid, Ok(()))) => run_check(n, mid, scope, strict, t2, ty2),
            out => out,
        },
{
    let todo = seq![(t1, ty1), (t2, ty2)];
    let rest = seq![(t2, ty2)];
    assert(todo.drop_first() =~= rest);
    assert(rest.drop_first() =~= Seq::empty());
    reveal_with_fuel(in_turn, 3);
    if let Some((mid, Ok(()))) = run_check(n, st, scope, strict, t1, ty1) {
        assert(rest[0] == (t2, ty2));
        if let Some((last, Ok(unit))) = run_check(n, mid, scope, strict, t2, ty2) {
            assert(unit == ());
            assert(in_turn(n, last, scope, strict, rest.drop_first()) == Some(
                (last, Ok::<(), CheckErr>(())),
            ));
        }
        assert(in_turn(n, mid, scope, strict, rest) == run_check(n, mid, scope, strict, t2, ty2));
    }
}

/// The result of an n-ary operator is accepted for the type that is expected, and its arguments
/// typecheck against the types of its arguments, one after the other.
pub proof fn law_check_opn(
    n: nat,
    st: St,
    scope: Scope,
    strict: bool,
    rt: RichTerm,
    ty: Ty,
    mid: St,
)
    ensures
        *rt.term matches Term::OpN(op, args) ==> (is_typed_nop(op) ==> {
            let out = run_check(n + 1, st, scope, strict, rt, ty);
            let (types, res) = nop_type(op);
            &&& refuses(n, st, strict, res, ty) ==> out == refusal(n, st, res, ty, rt.pos)
            &&& accepts(n, st, strict, res, ty, mid) ==> out == in_turn(
                n,
                mid,
                scope,
                strict,
                paired(args@, types),
            )
        }),
{
    if let Term::OpN(op, args) = *rt.term {
        if is_typed_nop(op) {
            let (types, res) = nop_type(op);
            law_expect(n, st, strict, res, ty, rt.pos, mid);
            let todo = args_against(args@, types);
            law_check_seq(n, mid, scope, strict, todo, 0);
            lemma_paired(args@, types);
            assert(todo.skip(0) =~= todo);
        }
    }
}

/// Terms and types in pairs, until there is none of the ones or of the others.
pub open spec fn paired(args: Seq<RichTerm>, types: Seq<Ty>) -> Seq<(RichTerm, Ty)>
    decreases args.len(),
{
    if args.len() == 0 || types.len() == 0 {
        Seq::empty()
    } else {
        seq![(args[0], types[0])] + paired(args.drop_first(), types.drop_first())
    }
}

/// The arguments of an operator are paired with their types.
proof fn lemma_paired(args: Seq<RichTerm>, types: Seq<Ty>)
    ensures
        args_against(args, types) == paired(args, types),
    decreases args.len(),
{
    if args.len() > 0 && types.len() > 0 {
        lemma_paired(args.drop_first(), types.drop_first());
    }
    assert(args_against(args, types) =~= paired(args, types));
}

/// An operator that has no type is not typechecked.
pub proof fn law_check_untyped(n: nat, st: St, scope: Scope, strict: bool, rt: RichTerm, ty: Ty)
    ensures
        ({
            let out = run_check(n, st, scope, strict, rt, ty);
            match *rt.term {
                Term::Op1(op, _) => !is_typed_uop(op) ==> out is None,
                Term::Op2(op, _, _) => !is_typed_bop(op) ==> out is None,
                Term::OpN(op, _) => !is_typed_nop(op) ==> out is None,
                _ => true,
            }
        }),
{
}

/// A concatenation of two terms that typecheck against the type of strings typechecks against it in
/// strict mode, and against no other base type.
pub proof fn law_check_concat(
    n: nat,
    st: St,
    scope: Scope,
    rt: RichTerm,
    ty: Ty,
    mid: St,
    last: St,
)
    requires
        n > 0,
        is_base(ty),
    ensures
        *rt.term matches Term::Op2(op, t1, t2) ==> (op is StrConcat ==> {
            let out = run_check(n + 1, st, scope, true, rt, ty);
            &&& ty != Ty::Str ==> is_rejected(out)
            &&& ty == Ty::Str && succeeds(run_check(n, st, scope, true, t1, Ty::Str), mid)
                && succeeds(run_check(n, mid, scope, true, t2, Ty::Str), last) ==> succeeds(
                out,
                last,
            )
        }),
{
    if let Term::Op2(op, t1, t2) = *rt.term {
        if op is StrConcat {
            law_strings(st, op);
            law_sub_base((n - 1) as nat, st, Ty::Str, ty);
            law_check_op2(n, st, scope, true, rt, ty, st, Ty::Str, Ty::Str, Ty::Str, st);
            lemma_two_in_turn(n, st, scope, true, t1, Ty::Str, t2, Ty::Str);
        }
    }
}

/// An arithmetic operation on two terms that typecheck against the type of numbers typechecks
/// against it in strict mode, and against no other base type. A comparison of them typechecks
/// against the type of booleans only.
pub proof fn law_check_arithmetic(
    n: nat,
    st: St,
    scope: Scope,
    rt: RichTerm,
    ty: Ty,
    mid: St,
    last: St,
)
    requires
        n > 0,
        is_base(ty),
    ensures
        *rt.term matches Term::Op2(op, t1, t2) ==> {
            let arith = op is Plus || op is Sub || op is Mult || op is Div || op is Modulo
                || op is Pow;
            let compare = op is LessThan || op is LessOrEq || op is GreaterThan
                || op is GreaterOrEq;
            let own = if arith {
                Ty::Num
            } else {
                Ty::Bool
            };
            let out = run_check(n + 1, st, scope, true, rt, ty);
            arith || compare ==> {
                &&& ty != own ==> is_rejected(out)
                &&& ty == own && succeeds(run_check(n, st, scope, true, t1, Ty::Num), mid)
                    && succeeds(run_check(n, mid, scope, true, t2, Ty::Num), last) ==> succeeds(
                    out,
                    last,
                )
            }
        },
{
    if let Term::Op2(op, t1, t2) = *rt.term {
        let arith = op is Plus || op is Sub || op is Mult || op is Div || op is Modulo || op is Pow;
        let compare = op is LessThan || op is LessOrEq || op is GreaterThan || op is GreaterOrEq;
        if arith || compare {
            let own = if arith {
                Ty::Num
            } else {
                Ty::Bool
            };
            if arith {
                law_arithmetic(st, op);
            } else {
                law_comparison(st, op);
            }
            law_sub_base((n - 1) as nat, st, own, ty);
            law_check_op2(n, st, scope, true, rt, ty, st, Ty::Num, Ty::Num, own, st);
            lemma_two_in_turn(n, st, scope, true, t1, Ty::Num, t2, Ty::Num);
        }
    }
}

/// A switch over a variable, whose type is the enum of exactly the tags of the cases in whatever
/// order, typechecks in strict mode when its cases do.
pub proof fn law_check_switch_tags(
    n: nat,
    st: St,
    scope: Scope,
    rt: RichTerm,
    ty: Ty,
    row: Ty,
    mid: St,
    last: St,
)
    ensures
        *rt.term matches Term::Switch(exp, cases, default) ==> (*exp.term matches Term::Var(x) ==> {
            let tags = tag_row(ids_back(cases@), Ty::RowEmpty);
            let enums = ty_size(Ty::Enum(Box::new(row))) + ty_size(Ty::Enum(Box::new(tags)));
            let all = in_turn(n, one_more(st), scope, true, each_field(cases@, next(st)));
            default is None && in_scope(scope, x@) == Some(Ty::Enum(Box::new(row)))
                && is_simple_row(row) && is_reordered_row(row, tags) && n > enums + 1 && succeeds(
                all,
                mid,
            ) && accepts(n, mid, true, next(st), ty, last) ==> succeeds(
                run_check(n + 1, st, scope, true, rt, ty),
                last,
            )
        }),
{
    if let Term::Switch(exp, cases, default) = *rt.term {
        if let Term::Var(x) = *exp.term {
            let tags = tag_row(ids_back(cases@), Ty::RowEmpty);
            let t1 = Ty::Enum(Box::new(row));
            let t2 = Ty::Enum(Box::new(tags));
            let m = (n - 1) as nat;
            if is_simple_row(row) && is_reordered_row(row, tags) && n > ty_size(t1) + ty_size(t2)
                + 1 {
                law_check_switch(n, st, scope, true, rt, ty, mid, mid, last);
                lemma_tag_row_simple(ids_back(cases@));
                assert(is_simple(t1) && is_simple(t2));
                assert(is_reordered(t1, t2));
                law_sub_simple_total(m, last, t1, t2);
                law_sub_simple(m, last, t1, t2);
                lemma_reordered_sub(t1, t2);
                assert(succeeds(run_sub(m, last, t1, t2), last));
                assert(run_instantiate(m, last, t1, ForallInst::Ptr) == Some((last, t1)));
                law_check_var(m, last, scope, true, exp, t2, last, t1, last);
            }
        }
    }
}

/// An enum row of tags is closed.
proof fn lemma_tag_row_simple(ids: Seq<Name>)
    ensures
        is_simple_row(tag_row(ids, Ty::RowEmpty)),
    decreases ids.len(),
{
    if ids.len() > 0 {
        lemma_tag_row_simple(ids.drop_first());
    }
}

/// Whether a term is typechecked by a type annotation: the annotated type is accepted for the one
/// that is expected, and the term typechecks in strict mode, whatever the mode is around it,
/// against the annotated type at new constants.
pub open spec fn has_annotation(
    n: nat,
    st: St,
    scope: Scope,
    strict: bool,
    out: Checked,
    annot: Ty,
    t: RichTerm,
    ty: Ty,
    pos: TermPos,
    mid: St,
    inst: Ty,
    mid2: St,
) -> bool {
    &&& run_instantiate(n, st, annot, ForallInst::Constant) is None ==> out is None
    &&& run_instantiate(n, st, annot, ForallInst::Constant) == Some((mid, inst)) ==> {
        &&& refuses(n, mid, strict, annot, ty) ==> out == refusal(n, mid, annot, ty, pos)
        &&& accepts(n, mid, strict, annot, ty, mid2) ==> out == run_check(
            n,
            mid2,
            scope,
            true,
            t,
            inst,
        )
    }
}

/// A promise is typechecked by its annotation, and so is a metavalue with a type and a value. A
/// metavalue with a contract has the type of its first contract, and its value is typechecked in
/// non-strict mode. Any other metavalue is typechecked as its value is, or has the type `Dyn`.
pub proof fn law_check_annotated(
    n: nat,
    st: St,
    scope: Scope,
    strict: bool,
    rt: RichTerm,
    ty: Ty,
    mid: St,
    inst: Ty,
    mid2: St,
)
    ensures
        ({
            let out = run_check(n + 1, st, scope, strict, rt, ty);
            match *rt.term {
                Term::Promise(annot, _, t) => has_annotation(
                    n,
                    st,
                    scope,
                    strict,
                    out,
                    annot@,
                    t,
                    ty,
                    rt.pos,
                    mid,
                    inst,
                    mid2,
                ),
                Term::MetaValue(meta) => match (meta.types, meta.value) {
                    (Some(ctr), Some(t)) => has_annotation(
                        n,
                        st,
                        scope,
                        strict,
                        out,
                        ctr.types@,
                        t,
                        ty,
                        rt.pos,
                        mid,
                        inst,
                        mid2,
                    ),
                    (_, value) => if meta.contracts@.len() > 0 {
                        let annot = meta.contracts@[0].types@;
                        &&& refuses(n, st, strict, annot, ty) ==> out == refusal(
                            n,
                            st,
                            annot,
                            ty,
                            rt.pos,
                        )
                        &&& accepts(n, st, strict, annot, ty, mid) ==> match value {
                            Some(t) => out == run_check(n, mid, scope, false, t, Ty::Dyn),
                            None => succeeds(out, mid),
                        }
                    } else {
                        match value {
                            Some(t) => out == run_check(n, st, scope, strict, t, ty),
                            None => {
                                &&& refuses(n, st, strict, Ty::Dyn, ty) ==> out == refusal(
                                    n,
                                    st,
                                    Ty::Dyn,
                                    ty,
                                    rt.pos,
                                )
                                &&& accepts(n, st, strict, Ty::Dyn, ty, mid) ==> succeeds(out, mid)
                            },
                        }
                    },
                },
                _ => true,
            }
        }),
{
    match *rt.term {
        Term::Promise(annot, _, t) => {
            law_expect(n, mid, strict, annot@, ty, rt.pos, mid2);
            let out = run_check_promise(n, st, scope, strict, annot@, t, ty, rt.pos);
            assert(run_check(n + 1, st, scope, strict, rt, ty) == out);
        },
        Term::MetaValue(meta) => {
            let out = run_check_meta(n, st, scope, strict, meta, ty, rt.pos);
            assert(run_check(n + 1, st, scope, strict, rt, ty) == out);
            match (meta.types, meta.value) {
                (Some(ctr), Some(t)) => {
                    law_expect(n, mid, strict, ctr.types@, ty, rt.pos, mid2);
                },
                _ => {
                    if meta.contracts@.len() > 0 {
                        law_expect(n, st, strict, meta.contracts@[0].types@, ty, rt.pos, mid);
                    } else {
                        law_expect(n, st, strict, Ty::Dyn, ty, rt.pos, mid);
                    }
                },
            }
        },
        _ => {},
    }
}

/// A wrapped term is typechecked as the term itself. A resolved import is typechecked by itself, in
/// the global environment, and has any type. Its error is the one of the import.
pub proof fn law_check_inside(n: nat, st: St, scope: Scope, strict: bool, rt: RichTerm, ty: Ty)
    ensures
        ({
            let out = run_check(n + 1, st, scope, strict, rt, ty);
            match *rt.term {
                Term::Wrapped(_, t) => out == run_check(n, st, scope, strict, t, ty),
                Term::ResolvedImport(file) => if st.imports.contains_key(file) {
                    match run_type_check(n, st.imports, scope.global, st.imports[file]) {
                        None => out is None,
                        Some(Ok(_)) => succeeds(out, st),
                        Some(Err(err)) => out == Some((st, Err::<(), CheckErr>(err))),
                    }
                } else {
                    out is None
                },
                _ => true,
            }
        }),
{
}

/// A term is typechecked in non-strict mode, without local names, and from a state that only has
/// the variable which it is checked against. Its error is the one of the check, and its type is
/// what the variable stands for.
pub proof fn law_type_check(n: nat, st: St, global: Map<Name, Ty>, rt: RichTerm)
    requires
        st.table == Map::<usize, Option<Ty>>::empty().insert(0, None),
        st.constr == Map::<usize, Set<Name>>::empty(),
        st.names == Map::<usize, Name>::empty(),
    ensures
        ({
            let out = run_type_check(n + 1, st.imports, global, rt);
            let check = run_check(n, st, global_scope(global), false, rt, Ty::Ptr(0));
            &&& check is None ==> out is None
            &&& check matches Some((_, Err(err))) ==> out == Some(Err::<Ty, CheckErr>(err))
            &&& check matches Some((st2, Ok(_))) ==> match run_to_type(n, st2.table, Ty::Ptr(0)) {
                None => out is None,
                Some(t) => out == Some(Ok::<Ty, CheckErr>(t)),
            }
        }),
{
    assert(Map::<usize, Option<Ty>>::empty().dom() =~= Set::empty());
}

} // verus!
