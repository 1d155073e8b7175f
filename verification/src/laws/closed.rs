//! Subtyping between types without variables: what unification accepts of them, and that it changes
//! nothing.
use vstd::prelude::*;

use crate::laws::depth::law_sub_depth;
use crate::laws::subtyping::succeeds;
use crate::laws::total::{law_sub_total, no_vars, ty_size};
use crate::model::{unbox, Name, RowErr, St, Ty};
use crate::typecheck::unify::{
    run_row_add, run_sub, run_sub_dyn_record, run_sub_row_types, run_sub_rows,
};

verus! {

/// Whether a type has neither unification variables nor quantifiers in it.
pub open spec fn is_ground(ty: Ty) -> bool
    decreases ty,
{
    match ty {
        Ty::Ptr(_) => false,
        Ty::Forall(_, _) => false,
        Ty::Arrow(s, t) => is_ground(*s) && is_ground(*t),
        Ty::RowExtend(_, t, tail) => (match t {
            Some(t) => is_ground(*t),
            None => true,
        }) && is_ground(*tail),
        Ty::Enum(t) => is_ground(*t),
        Ty::StaticRecord(t) => is_ground(*t),
        Ty::DynRecord(t) => is_ground(*t),
        Ty::List(t) => is_ground(*t),
        _ => true,
    }
}

/// The type that a row gives to an identifier, and the rest of the row.
pub open spec fn pick(row: Ty, id: Name) -> Option<(Option<Ty>, Ty)>
    decreases row,
{
    match row {
        Ty::RowExtend(id2, t, tail) => if id == id2 {
            Some((unbox(t), *tail))
        } else {
            match pick(*tail, id) {
                Some((t2, rest)) => Some((t2, Ty::RowExtend(id2, t, Box::new(rest)))),
                None => None,
            }
        },
        _ => None,
    }
}

/// The size of what a row gives to an identifier.
pub open spec fn field_size(t: Option<Ty>) -> nat {
    match t {
        Some(t) => ty_size(t),
        None => 0,
    }
}

/// A row is as large as what it gives to an identifier, and the rest of it.
pub proof fn lemma_pick_size(row: Ty, id: Name)
    ensures
        pick(row, id) matches Some((t, rest)) ==> 1 + field_size(t) + ty_size(rest) == ty_size(
            row,
        ),
    decreases row,
{
    if let Ty::RowExtend(_, _, tail) = row {
        lemma_pick_size(*tail, id);
    }
}

/// What a row without variables and quantifiers gives to an identifier has none of them either.
proof fn lemma_pick_ground(row: Ty, id: Name)
    requires
        is_ground(row),
    ensures
        pick(row, id) matches Some((t, rest)) ==> is_ground(rest) && (t matches Some(t)
            ==> is_ground(t)),
    decreases row,
{
    if let Ty::RowExtend(_, _, tail) = row {
        lemma_pick_ground(*tail, id);
    }
}

/// Looking for a binding in a row without variables changes nothing, and finds the binding if there
/// is one.
proof fn lemma_row_add_ground(n: nat, st: St, id: Name, ty: Option<Ty>, row: Ty)
    requires
        run_row_add(n, st, id, ty, row) is Some,
        is_ground(row),
    ensures
        ({
            let (st2, res) = run_row_add(n, st, id, ty, row)->0;
            &&& st2 == st
            &&& match res {
                Ok(found) => pick(row, id) == Some(found),
                Err(_) => pick(row, id) is None,
            }
        }),
    decreases n,
{
    if let Ty::RowExtend(id2, _, tail) = row {
        if id != id2 {
            lemma_row_add_ground((n - 1) as nat, st, id, ty, *tail);
        }
    }
}

/// Unifying two types without variables and quantifiers changes nothing, whether it succeeds or
/// not.
pub proof fn law_sub_state(n: nat, st: St, a: Ty, b: Ty)
    requires
        run_sub(n, st, a, b) is Some,
        is_ground(a),
        is_ground(b),
    ensures
        (run_sub(n, st, a, b)->0).0 == st,
    decreases n, 2nat,
{
    let m = (n - 1) as nat;
    match (a, b) {
        (_, Ty::Dyn) => {},
        (Ty::List(s), Ty::List(t)) => law_sub_state(m, st, *s, *t),
        (Ty::Arrow(s1, r1), Ty::Arrow(s2, r2)) => {
            law_sub_state(m, st, *s2, *s1);
            if (run_sub(m, st, *s2, *s1)->0).1 is Ok {
                law_sub_state(m, st, *r1, *r2);
            }
        },
        (Ty::Flat(_), Ty::Flat(_)) => {},
        (Ty::Enum(s), Ty::Enum(t)) => lemma_row_types_state(n, st, *s, *t, a, b),
        (Ty::StaticRecord(s), Ty::StaticRecord(t)) => lemma_row_types_state(n, st, *s, *t, a, b),
        (Ty::DynRecord(s), Ty::DynRecord(t)) => law_sub_state(m, st, *s, *t),
        (Ty::StaticRecord(row), Ty::DynRecord(t)) => lemma_dict_state(m, st, *row, *t),
        _ => if a.is_row() && b.is_row() {
            law_sub_rows_state(m, st, a, b);
        },
    }
}

/// The same, for the rows of two enum or record types.
proof fn lemma_row_types_state(n: nat, st: St, a: Ty, b: Ty, t1: Ty, t2: Ty)
    requires
        run_sub_row_types(n, st, a, b, t1, t2) is Some,
        is_ground(a),
        is_ground(b),
    ensures
        (run_sub_row_types(n, st, a, b, t1, t2)->0).0 == st,
    decreases n, 1nat,
{
    let m = (n - 1) as nat;
    if a.is_row() && b.is_row() {
        law_sub_rows_state(m, st, a, b);
    } else if a.is_concrete() && !a.is_row() {
    } else if b.is_concrete() && !b.is_row() {
    } else {
        law_sub_state(m, st, a, b);
    }
}

/// Unifying two rows without variables and quantifiers changes nothing, whether it succeeds or not.
pub proof fn law_sub_rows_state(n: nat, st: St, a: Ty, b: Ty)
    requires
        run_sub_rows(n, st, a, b) is Some,
        is_ground(a),
        is_ground(b),
    ensures
        (run_sub_rows(n, st, a, b)->0).0 == st,
    decreases n, 0nat,
{
    let m = (n - 1) as nat;
    if let (Ty::RowExtend(id, t, tail), Ty::RowExtend(_, _, _)) = (a, b) {
        lemma_row_add_ground(m, st, id, unbox(t), b);
        lemma_pick_ground(b, id);
        if let Some((t2, rest)) = pick(b, id) {
            if let (Some(s), Some(t)) = (unbox(t), t2) {
                law_sub_state(m, st, s, t);
            }
            if tail.is_concrete() && rest.is_concrete() {
                if run_sub_rows(m, st, *tail, rest) is Some {
                    law_sub_rows_state(m, st, *tail, rest);
                }
            } else if run_sub(m, st, *tail, rest) is Some {
                law_sub_state(m, st, *tail, rest);
            }
        }
    }
}

/// The same, for a row and a dictionary type.
proof fn lemma_dict_state(n: nat, st: St, row: Ty, ty: Ty)
    requires
        run_sub_dyn_record(n, st, row, ty) is Some,
        is_ground(row),
        is_ground(ty),
    ensures
        (run_sub_dyn_record(n, st, row, ty)->0).0 == st,
    decreases n, 0nat,
{
    let m = (n - 1) as nat;
    match row {
        Ty::Dyn => law_sub_state(m, st, row, ty),
        Ty::RowExtend(_, Some(t), tail) => {
            law_sub_state(m, st, *t, ty);
            if (run_sub(m, st, *t, ty)->0).1 is Ok {
                lemma_dict_state(m, st, *tail, ty);
            }
        },
        _ => {},
    }
}

/// The bindings of a record row, in order.
pub open spec fn bindings(row: Ty) -> Seq<(Name, Ty)>
    decreases row,
{
    match row {
        Ty::RowExtend(id, Some(t), tail) => seq![(id, *t)] + bindings(*tail),
        _ => Seq::empty(),
    }
}

/// Whether a row is a closed record row: it gives types to its identifiers, and ends.
pub open spec fn is_closed_record(row: Ty) -> bool
    decreases row,
{
    match row {
        Ty::RowEmpty => true,
        Ty::RowExtend(_, Some(_), tail) => is_closed_record(*tail),
        _ => false,
    }
}

/// Whether the types of all bindings are accepted for `ty`.
pub open spec fn all_accepted(n: nat, st: St, fields: Seq<(Name, Ty)>, ty: Ty) -> bool {
    forall|i: int|
        0 <= i < fields.len() ==> succeeds(run_sub(n, st, (#[trigger] fields[i]).1, ty), st)
}

/// Whether the binding at `i` is the first one whose type is not accepted for `ty`, and `err` is
/// the error of it.
pub open spec fn first_failing(
    n: nat,
    st: St,
    fields: Seq<(Name, Ty)>,
    ty: Ty,
    i: int,
    err: RowErr,
) -> bool {
    &&& 0 <= i < fields.len()
    &&& match run_sub(n, st, fields[i].1, ty) {
        Some((st2, Err(e))) => st2 == st && err == RowErr::RowMismatch(fields[i].0, e),
        _ => false,
    }
    &&& all_accepted(n, st, fields.take(i), ty)
}

/// A closed record row is accepted for a dictionary type exactly when each of its bindings is
/// accepted for the type of the elements. Otherwise, the error is the one of the first binding that
/// is not. Nothing changes, either way.
pub proof fn law_sub_dyn_record_closed(n: nat, st: St, row: Ty, ty: Ty)
    requires
        run_sub_dyn_record(n, st, row, ty) is Some,
        is_closed_record(row),
        is_ground(row),
        is_ground(ty),
    ensures
        (run_sub_dyn_record(n, st, row, ty)->0).0 == st,
        (run_sub_dyn_record(n, st, row, ty)->0).1 is Ok <==> all_accepted(
            n,
            st,
            bindings(row),
            ty,
        ),
        (run_sub_dyn_record(n, st, row, ty)->0).1 matches Err(err) ==> exists|i: int| #[trigger]
            first_failing(n, st, bindings(row), ty, i, err),
    decreases n,
{
    let m = (n - 1) as nat;
    let fields = bindings(row);
    if let Ty::RowExtend(id, Some(t), tail) = row {
        let rest = bindings(*tail);
        law_sub_state(m, st, *t, ty);
        law_sub_depth(m, n, st, *t, ty);
        assert(fields[0] == (id, *t));
        match (run_sub(m, st, *t, ty)->0).1 {
            Err(e) => {
                let err = RowErr::RowMismatch(id, e);
                assert(first_failing(n, st, fields, ty, 0, err));
                assert(!succeeds(run_sub(n, st, fields[0].1, ty), st));
            },
            Ok(()) => {
                law_sub_dyn_record_closed(m, st, *tail, ty);
                match (run_sub_dyn_record(m, st, *tail, ty)->0).1 {
                    Ok(()) => lemma_all_accepted(m, n, st, (id, *t), rest, ty),
                    Err(err) => {
                        let k = choose|k: int| #[trigger] first_failing(m, st, rest, ty, k, err);
                        assert(fields[k + 1] == rest[k]);
                        law_sub_depth(m, n, st, rest[k].1, ty);
                        lemma_all_accepted(m, n, st, (id, *t), rest.take(k), ty);
                        assert(seq![(id, *t)] + rest.take(k) =~= fields.take(k + 1));
                        assert(first_failing(n, st, fields, ty, k + 1, err));
                        assert(!succeeds(run_sub(n, st, fields[k + 1].1, ty), st));
                    },
                }
            },
        }
    }
}

/// If the type of a binding is accepted, and so are those of others within a bound, then all are
/// within a larger bound.
proof fn lemma_all_accepted(
    m: nat,
    n: nat,
    st: St,
    first: (Name, Ty),
    rest: Seq<(Name, Ty)>,
    ty: Ty,
)
    requires
        m <= n,
        succeeds(run_sub(n, st, first.1, ty), st),
        all_accepted(m, st, rest, ty),
    ensures
        all_accepted(n, st, seq![first] + rest, ty),
{
    let fields = seq![first] + rest;
    assert forall|i: int| 0 <= i < fields.len() implies succeeds(
        run_sub(n, st, (#[trigger] fields[i]).1, ty),
        st,
    ) by {
        if i > 0 {
            assert(fields[i] == rest[i - 1]);
            law_sub_depth(m, n, st, rest[i - 1].1, ty);
        }
    }
}

/// Whether a type is made of base types, functions, lists, dictionaries, and records and enums with
/// closed rows.
pub open spec fn is_simple(ty: Ty) -> bool
    decreases ty,
{
    match ty {
        Ty::Dyn => true,
        Ty::Num => true,
        Ty::Bool => true,
        Ty::Str => true,
        Ty::Sym => true,
        Ty::List(t) => is_simple(*t),
        Ty::Arrow(s, t) => is_simple(*s) && is_simple(*t),
        Ty::DynRecord(t) => is_simple(*t),
        Ty::StaticRecord(row) => is_simple_row(*row),
        Ty::Enum(row) => is_simple_row(*row),
        _ => false,
    }
}

/// Whether a row is closed, with or without the tail `Dyn`, and made of such types.
pub open spec fn is_simple_row(row: Ty) -> bool
    decreases row,
{
    match row {
        Ty::RowEmpty => true,
        Ty::Dyn => true,
        Ty::RowExtend(_, t, tail) => (match t {
            Some(t) => is_simple(*t),
            None => true,
        }) && is_simple_row(*tail),
        _ => false,
    }
}

/// A type made of such types has neither variables nor quantifiers.
proof fn lemma_simple_ground(ty: Ty)
    requires
        is_simple(ty) || is_simple_row(ty),
    ensures
        is_ground(ty),
    decreases ty,
{
    match ty {
        Ty::List(t) => lemma_simple_ground(*t),
        Ty::Arrow(s, t) => {
            lemma_simple_ground(*s);
            lemma_simple_ground(*t);
        },
        Ty::DynRecord(t) => lemma_simple_ground(*t),
        Ty::StaticRecord(row) => lemma_simple_ground(*row),
        Ty::Enum(row) => lemma_simple_ground(*row),
        Ty::RowExtend(_, t, tail) => {
            if let Some(t) = t {
                lemma_simple_ground(*t);
            }
            lemma_simple_ground(*tail);
        },
        _ => {},
    }
}

/// What a closed row gives to an identifier is a type, and the rest is a closed row.
proof fn lemma_pick_simple(row: Ty, id: Name)
    requires
        is_simple_row(row),
    ensures
        pick(row, id) matches Some((t, rest)) ==> is_simple_row(rest) && (t matches Some(t)
            ==> is_simple(t)),
    decreases row,
{
    if let Ty::RowExtend(_, _, tail) = row {
        lemma_pick_simple(*tail, id);
    }
}

/// Whether a type is a subtype of another, by the rules between types with closed rows.
pub open spec fn simple_sub(a: Ty, b: Ty) -> bool
    decreases ty_size(a) + ty_size(b),
{
    match (a, b) {
        (_, Ty::Dyn) => true,
        (Ty::Num, Ty::Num) => true,
        (Ty::Bool, Ty::Bool) => true,
        (Ty::Str, Ty::Str) => true,
        (Ty::Sym, Ty::Sym) => true,
        (Ty::List(s), Ty::List(t)) => simple_sub(*s, *t),
        (Ty::Arrow(s1, r1), Ty::Arrow(s2, r2)) => simple_sub(*s2, *s1) && simple_sub(*r1, *r2),
        (Ty::DynRecord(s), Ty::DynRecord(t)) => simple_sub(*s, *t),
        (Ty::StaticRecord(s), Ty::StaticRecord(t)) => rows_sub(*s, *t),
        (Ty::Enum(s), Ty::Enum(t)) => rows_sub(*s, *t),
        (Ty::StaticRecord(row), Ty::DynRecord(t)) => dict_sub(*row, *t),
        _ => false,
    }
}

/// Whether two rows have the same identifiers and the same end, and subtypes for each identifier.
pub open spec fn rows_sub(a: Ty, b: Ty) -> bool
    decreases ty_size(a) + ty_size(b),
{
    match a {
        Ty::RowEmpty => b is RowEmpty,
        Ty::Dyn => b is Dyn,
        Ty::RowExtend(id, t, tail) => {
            proof {
                lemma_pick_size(b, id);
            }
            match pick(b, id) {
                Some((t2, rest)) => (match (unbox(t), t2) {
                    (None, None) => true,
                    (Some(t), Some(t2)) => simple_sub(t, t2),
                    _ => false,
                }) && rows_sub(*tail, rest),
                None => false,
            }
        },
        _ => false,
    }
}

/// Whether all the types of a record row are subtypes of a type.
pub open spec fn dict_sub(row: Ty, ty: Ty) -> bool
    decreases ty_size(row) + ty_size(ty),
{
    match row {
        Ty::RowEmpty => true,
        Ty::Dyn => ty is Dyn,
        Ty::RowExtend(_, Some(t), tail) => simple_sub(*t, ty) && dict_sub(*tail, ty),
        _ => false,
    }
}

/// The unification of two types with closed rows succeeds exactly when the first one is a subtype
/// of the second one, by the rules. Nothing changes, either way.
pub proof fn law_sub_simple(n: nat, st: St, a: Ty, b: Ty)
    requires
        run_sub(n, st, a, b) is Some,
        is_simple(a),
        is_simple(b),
    ensures
        (run_sub(n, st, a, b)->0).0 == st,
        (run_sub(n, st, a, b)->0).1 is Ok <==> simple_sub(a, b),
    decreases n, 2nat,
{
    let m = (n - 1) as nat;
    lemma_simple_ground(a);
    lemma_simple_ground(b);
    law_sub_state(n, st, a, b);
    match (a, b) {
        (_, Ty::Dyn) => {},
        (Ty::List(s), Ty::List(t)) => law_sub_simple(m, st, *s, *t),
        (Ty::Arrow(s1, r1), Ty::Arrow(s2, r2)) => {
            law_sub_simple(m, st, *s2, *s1);
            if (run_sub(m, st, *s2, *s1)->0).1 is Ok {
                law_sub_simple(m, st, *r1, *r2);
            }
        },
        (Ty::DynRecord(s), Ty::DynRecord(t)) => law_sub_simple(m, st, *s, *t),
        (Ty::StaticRecord(s), Ty::StaticRecord(t)) => {
            lemma_row_types_simple(n, st, *s, *t, a, b);
        },
        (Ty::Enum(s), Ty::Enum(t)) => lemma_row_types_simple(n, st, *s, *t, a, b),
        (Ty::StaticRecord(row), Ty::DynRecord(t)) => lemma_dict_simple(m, st, *row, *t),
        _ => {},
    }
}

/// The same, for the rows of two enum or record types.
proof fn lemma_row_types_simple(n: nat, st: St, a: Ty, b: Ty, t1: Ty, t2: Ty)
    requires
        run_sub_row_types(n, st, a, b, t1, t2) is Some,
        is_simple_row(a),
        is_simple_row(b),
    ensures
        (run_sub_row_types(n, st, a, b, t1, t2)->0).1 is Ok <==> rows_sub(a, b),
    decreases n, 1nat,
{
    lemma_rows_simple((n - 1) as nat, st, a, b);
}

/// The same, for two rows.
proof fn lemma_rows_simple(n: nat, st: St, a: Ty, b: Ty)
    requires
        run_sub_rows(n, st, a, b) is Some,
        is_simple_row(a),
        is_simple_row(b),
    ensures
        (run_sub_rows(n, st, a, b)->0).1 is Ok <==> rows_sub(a, b),
    decreases n, 0nat,
{
    let m = (n - 1) as nat;
    if let (Ty::RowExtend(id, t, tail), Ty::RowExtend(_, _, _)) = (a, b) {
        lemma_simple_ground(b);
        lemma_row_add_ground(m, st, id, unbox(t), b);
        lemma_pick_simple(b, id);
        if let Some((t2, rest)) = pick(b, id) {
            assert(is_simple_row(*tail));
            assert(tail.is_concrete() && rest.is_concrete());
            match (unbox(t), t2) {
                (None, None) => lemma_rows_simple(m, st, *tail, rest),
                (Some(s), Some(t)) => {
                    law_sub_simple(m, st, s, t);
                    if (run_sub(m, st, s, t)->0).1 is Ok {
                        lemma_rows_simple(m, st, *tail, rest);
                    }
                },
                _ => {},
            }
        }
    }
}

/// The same, for a row and a dictionary type.
proof fn lemma_dict_simple(n: nat, st: St, row: Ty, ty: Ty)
    requires
        run_sub_dyn_record(n, st, row, ty) is Some,
        is_simple_row(row),
        is_simple(ty),
    ensures
        (run_sub_dyn_record(n, st, row, ty)->0).1 is Ok <==> dict_sub(row, ty),
    decreases n, 0nat,
{
    let m = (n - 1) as nat;
    match row {
        Ty::Dyn => law_sub_simple(m, st, row, ty),
        Ty::RowExtend(_, Some(t), tail) => {
            law_sub_simple(m, st, *t, ty);
            if (run_sub(m, st, *t, ty)->0).1 is Ok {
                lemma_dict_simple(m, st, *tail, ty);
            }
        },
        _ => {},
    }
}

/// Taking two distinct identifiers out of a row one after the other gives the same in both orders.
proof fn lemma_pick_swap(row: Ty, id: Name, id2: Name)
    requires
        id != id2,
        pick(row, id) is Some,
        pick((pick(row, id)->0).1, id2) is Some,
    ensures
        ({
            let (t, mid) = pick(row, id)->0;
            let (t2, rest) = pick(mid, id2)->0;
            &&& pick(row, id2) is Some
            &&& (pick(row, id2)->0).0 == t2
            &&& pick((pick(row, id2)->0).1, id) == Some((t, rest))
        }),
    decreases row,
{
    if let Ty::RowExtend(i, _, tail) = row {
        if i != id && i != id2 {
            lemma_pick_swap(*tail, id, id2);
        }
    }
}

/// Whether the types that two rows give to an identifier are both missing, or subtypes.
pub open spec fn field_sub(a: Option<Ty>, b: Option<Ty>) -> bool {
    match (a, b) {
        (None, None) => true,
        (Some(s), Some(t)) => simple_sub(s, t),
        _ => false,
    }
}

/// What a row gives to an identifier is a subtype of what a row of subtypes gives to it, and so are
/// the rests.
proof fn lemma_rows_pick(a: Ty, b: Ty, id: Name)
    requires
        rows_sub(a, b),
        pick(a, id) is Some,
    ensures
        pick(b, id) is Some,
        field_sub((pick(a, id)->0).0, (pick(b, id)->0).0),
        rows_sub((pick(a, id)->0).1, (pick(b, id)->0).1),
    decreases a,
{
    if let Ty::RowExtend(i, t, tail) = a {
        if i != id {
            let (t2, rest) = pick(b, i)->0;
            lemma_rows_pick(*tail, rest, id);
            lemma_pick_swap(b, i, id);
        }
    }
}

/// What a row gives to an identifier is accepted for a dictionary type if the row is, and so is the
/// rest.
proof fn lemma_dict_pick(row: Ty, ty: Ty, id: Name)
    requires
        dict_sub(row, ty),
        pick(row, id) is Some,
    ensures
        (pick(row, id)->0).0 matches Some(t) && simple_sub(t, ty),
        dict_sub((pick(row, id)->0).1, ty),
    decreases row,
{
    if let Ty::RowExtend(i, _, tail) = row {
        if i != id {
            lemma_dict_pick(*tail, ty, id);
        }
    }
}

/// The rules of subtyping are transitive.
proof fn lemma_sub_trans(a: Ty, b: Ty, c: Ty)
    requires
        simple_sub(a, b),
        simple_sub(b, c),
    ensures
        simple_sub(a, c),
    decreases ty_size(a) + ty_size(b) + ty_size(c),
{
    match (a, b, c) {
        (_, _, Ty::Dyn) => {},
        (Ty::List(s), Ty::List(t), Ty::List(u)) => lemma_sub_trans(*s, *t, *u),
        (Ty::Arrow(s1, r1), Ty::Arrow(s2, r2), Ty::Arrow(s3, r3)) => {
            lemma_sub_trans(*s3, *s2, *s1);
            lemma_sub_trans(*r1, *r2, *r3);
        },
        (Ty::DynRecord(s), Ty::DynRecord(t), Ty::DynRecord(u)) => lemma_sub_trans(*s, *t, *u),
        (Ty::StaticRecord(s), Ty::StaticRecord(t), Ty::StaticRecord(u)) => {
            lemma_rows_trans(*s, *t, *u);
        },
        (Ty::Enum(s), Ty::Enum(t), Ty::Enum(u)) => lemma_rows_trans(*s, *t, *u),
        (Ty::StaticRecord(s), Ty::StaticRecord(t), Ty::DynRecord(u)) => {
            lemma_rows_dict(*s, *t, *u);
        },
        (Ty::StaticRecord(s), Ty::DynRecord(t), Ty::DynRecord(u)) => lemma_dict_trans(*s, *t, *u),
        _ => {},
    }
}

/// The same, for three rows.
proof fn lemma_rows_trans(a: Ty, b: Ty, c: Ty)
    requires
        rows_sub(a, b),
        rows_sub(b, c),
    ensures
        rows_sub(a, c),
    decreases ty_size(a) + ty_size(b) + ty_size(c),
{
    if let Ty::RowExtend(id, t, tail) = a {
        let (t2, rest2) = pick(b, id)->0;
        lemma_rows_pick(b, c, id);
        lemma_pick_size(b, id);
        lemma_pick_size(c, id);
        let (t3, rest3) = pick(c, id)->0;
        if let (Some(t), Some(t2), Some(t3)) = (unbox(t), t2, t3) {
            lemma_sub_trans(t, t2, t3);
        }
        lemma_rows_trans(*tail, rest2, rest3);
    }
}

/// The same, for two rows and a dictionary type.
proof fn lemma_rows_dict(a: Ty, b: Ty, ty: Ty)
    requires
        rows_sub(a, b),
        dict_sub(b, ty),
    ensures
        dict_sub(a, ty),
    decreases ty_size(a) + ty_size(b) + ty_size(ty),
{
    if let Ty::RowExtend(id, t, tail) = a {
        let (t2, rest) = pick(b, id)->0;
        lemma_dict_pick(b, ty, id);
        lemma_pick_size(b, id);
        if let (Some(t), Some(t2)) = (unbox(t), t2) {
            lemma_sub_trans(t, t2, ty);
        }
        lemma_rows_dict(*tail, rest, ty);
    }
}

/// The same, for a row and two dictionary types.
proof fn lemma_dict_trans(row: Ty, ty: Ty, ty2: Ty)
    requires
        dict_sub(row, ty),
        simple_sub(ty, ty2),
    ensures
        dict_sub(row, ty2),
    decreases ty_size(row) + ty_size(ty) + ty_size(ty2),
{
    if let Ty::RowExtend(_, Some(t), tail) = row {
        lemma_sub_trans(*t, ty, ty2);
        lemma_dict_trans(*tail, ty, ty2);
    }
}

/// Subtyping between types with closed rows is transitive: if a type can be unified with a second
/// one, and this one with a third one, then so can the first one with the third one.
pub proof fn law_sub_transitive(n1: nat, n2: nat, n: nat, st: St, a: Ty, b: Ty, c: Ty)
    requires
        is_simple(a),
        is_simple(b),
        is_simple(c),
        succeeds(run_sub(n1, st, a, b), st),
        succeeds(run_sub(n2, st, b, c), st),
        run_sub(n, st, a, c) is Some,
    ensures
        succeeds(run_sub(n, st, a, c), st),
{
    law_sub_simple(n1, st, a, b);
    law_sub_simple(n2, st, b, c);
    lemma_sub_trans(a, b, c);
    law_sub_simple(n, st, a, c);
}

/// Whether two types with closed rows are the same up to the order of the bindings in their rows.
pub open spec fn is_reordered(a: Ty, b: Ty) -> bool
    decreases ty_size(a) + ty_size(b),
{
    match (a, b) {
        (Ty::List(s), Ty::List(t)) => is_reordered(*s, *t),
        (Ty::Arrow(s1, r1), Ty::Arrow(s2, r2)) => is_reordered(*s1, *s2) && is_reordered(*r1, *r2),
        (Ty::DynRecord(s), Ty::DynRecord(t)) => is_reordered(*s, *t),
        (Ty::StaticRecord(s), Ty::StaticRecord(t)) => is_reordered_row(*s, *t),
        (Ty::Enum(s), Ty::Enum(t)) => is_reordered_row(*s, *t),
        _ => a == b,
    }
}

/// Whether two closed rows have the same bindings and the same end, up to the order.
pub open spec fn is_reordered_row(a: Ty, b: Ty) -> bool
    decreases ty_size(a) + ty_size(b),
{
    match a {
        Ty::RowExtend(id, t, tail) => {
            proof {
                lemma_pick_size(b, id);
            }
            match pick(b, id) {
                Some((t2, rest)) => (match (unbox(t), t2) {
                    (None, None) => true,
                    (Some(t), Some(t2)) => is_reordered(t, t2),
                    _ => false,
                }) && is_reordered_row(*tail, rest),
                None => false,
            }
        },
        _ => a == b,
    }
}

/// A binding may be anywhere in the first one of two rows.
proof fn lemma_rows_insert(a: Ty, b: Ty, id: Name, t: Option<Box<Ty>>)
    requires
        pick(a, id) is Some,
        field_sub((pick(a, id)->0).0, unbox(t)),
        rows_sub((pick(a, id)->0).1, b),
    ensures
        rows_sub(a, Ty::RowExtend(id, t, Box::new(b))),
    decreases a,
{
    if let Ty::RowExtend(i, t2, tail) = a {
        if i != id {
            let (_, rest) = pick(b, i)->0;
            lemma_rows_insert(*tail, rest, id, t);
        }
    }
}

/// Types that are the same up to the order of bindings are subtypes of each other.
pub proof fn lemma_reordered_sub(a: Ty, b: Ty)
    requires
        is_simple(a),
        is_reordered(a, b),
    ensures
        simple_sub(a, b),
        simple_sub(b, a),
    decreases ty_size(a) + ty_size(b),
{
    match (a, b) {
        (Ty::List(s), Ty::List(t)) => lemma_reordered_sub(*s, *t),
        (Ty::Arrow(s1, r1), Ty::Arrow(s2, r2)) => {
            lemma_reordered_sub(*s1, *s2);
            lemma_reordered_sub(*r1, *r2);
        },
        (Ty::DynRecord(s), Ty::DynRecord(t)) => lemma_reordered_sub(*s, *t),
        (Ty::StaticRecord(s), Ty::StaticRecord(t)) => lemma_reordered_rows(*s, *t),
        (Ty::Enum(s), Ty::Enum(t)) => lemma_reordered_rows(*s, *t),
        _ => {},
    }
}

/// The same, for two rows.
proof fn lemma_reordered_rows(a: Ty, b: Ty)
    requires
        is_simple_row(a),
        is_reordered_row(a, b),
    ensures
        rows_sub(a, b),
        rows_sub(b, a),
    decreases ty_size(a) + ty_size(b),
{
    if let Ty::RowExtend(id, t, tail) = a {
        let (t2, rest) = pick(b, id)->0;
        lemma_pick_size(b, id);
        if let (Some(t), Some(t2)) = (unbox(t), t2) {
            lemma_reordered_sub(t, t2);
        }
        lemma_reordered_rows(*tail, rest);
        lemma_rows_insert(b, *tail, id, t);
    }
}

/// A type is the same as itself.
proof fn lemma_reordered_refl(ty: Ty)
    ensures
        is_reordered(ty, ty),
        is_reordered_row(ty, ty),
    decreases ty,
{
    match ty {
        Ty::List(t) => lemma_reordered_refl(*t),
        Ty::Arrow(s, t) => {
            lemma_reordered_refl(*s);
            lemma_reordered_refl(*t);
        },
        Ty::DynRecord(t) => lemma_reordered_refl(*t),
        Ty::StaticRecord(row) => lemma_reordered_refl(*row),
        Ty::Enum(row) => lemma_reordered_refl(*row),
        Ty::RowExtend(_, t, tail) => {
            if let Some(t) = t {
                lemma_reordered_refl(*t);
            }
            lemma_reordered_refl(*tail);
        },
        _ => {},
    }
}

/// Two neighbouring bindings of a row with distinct identifiers may be swapped.
pub proof fn law_reordered_swap(
    id: Name,
    t: Option<Box<Ty>>,
    id2: Name,
    t2: Option<Box<Ty>>,
    tail: Ty,
)
    requires
        id != id2,
    ensures
        is_reordered_row(
            Ty::RowExtend(id, t, Box::new(Ty::RowExtend(id2, t2, Box::new(tail)))),
            Ty::RowExtend(id2, t2, Box::new(Ty::RowExtend(id, t, Box::new(tail)))),
        ),
{
    lemma_reordered_refl(tail);
    if let Some(t) = t {
        lemma_reordered_refl(*t);
    }
    let inner = Ty::RowExtend(id2, t2, Box::new(tail));
    let other = Ty::RowExtend(id2, t2, Box::new(Ty::RowExtend(id, t, Box::new(tail))));
    lemma_reordered_refl(inner);
    assert(pick(Ty::RowExtend(id, t, Box::new(tail)), id) == Some((unbox(t), tail)));
    assert(pick(other, id) == Some((unbox(t), inner)));
}

/// Whether two types with closed rows can be unified does not depend on the order of the bindings
/// in their rows.
pub proof fn law_sub_reordered(n: nat, n2: nat, st: St, a: Ty, b: Ty, a2: Ty, b2: Ty)
    requires
        is_simple(a),
        is_simple(b),
        is_simple(a2),
        is_simple(b2),
        is_reordered(a, a2),
        is_reordered(b, b2),
        run_sub(n, st, a, b) is Some,
        run_sub(n2, st, a2, b2) is Some,
    ensures
        (run_sub(n, st, a, b)->0).1 is Ok <==> (run_sub(n2, st, a2, b2)->0).1 is Ok,
{
    law_sub_simple(n, st, a, b);
    law_sub_simple(n2, st, a2, b2);
    lemma_reordered_sub(a, a2);
    lemma_reordered_sub(b, b2);
    if simple_sub(a, b) {
        lemma_sub_trans(a2, a, b);
        lemma_sub_trans(a2, b, b2);
    }
    if simple_sub(a2, b2) {
        lemma_sub_trans(a, a2, b2);
        lemma_sub_trans(a, b2, b);
    }
}

/// A type with closed rows can be unified with itself.
pub proof fn law_sub_simple_reflexive(n: nat, st: St, ty: Ty)
    requires
        is_simple(ty),
        run_sub(n, st, ty, ty) is Some,
    ensures
        succeeds(run_sub(n, st, ty, ty), st),
{
    law_sub_simple(n, st, ty, ty);
    lemma_reordered_refl(ty);
    lemma_reordered_sub(ty, ty);
}

/// The unification of two types with closed rows returns, within as many nested calls as the two
/// types have parts, and one more.
pub proof fn law_sub_simple_total(n: nat, st: St, a: Ty, b: Ty)
    requires
        is_simple(a),
        is_simple(b),
        n > ty_size(a) + ty_size(b),
    ensures
        run_sub(n, st, a, b) is Some,
{
    lemma_simple_ground(a);
    lemma_simple_ground(b);
    lemma_ground_no_vars(a);
    lemma_ground_no_vars(b);
    law_sub_total(n, st, a, b);
}

/// A type without variables and quantifiers has no variables.
proof fn lemma_ground_no_vars(ty: Ty)
    requires
        is_ground(ty),
    ensures
        no_vars(ty),
    decreases ty,
{
    match ty {
        Ty::List(t) => lemma_ground_no_vars(*t),
        Ty::Arrow(s, t) => {
            lemma_ground_no_vars(*s);
            lemma_ground_no_vars(*t);
        },
        Ty::DynRecord(t) => lemma_ground_no_vars(*t),
        Ty::StaticRecord(row) => lemma_ground_no_vars(*row),
        Ty::Enum(row) => lemma_ground_no_vars(*row),
        Ty::RowExtend(_, t, tail) => {
            if let Some(t) = t {
                lemma_ground_no_vars(*t);
            }
            lemma_ground_no_vars(*tail);
        },
        _ => {},
    }
}

} // verus!
