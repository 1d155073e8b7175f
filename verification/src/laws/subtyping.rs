//! What unification establishes: when it succeeds, the first type is a subtype of the second one
//! under the resulting table, and under every table that comes after it.
use vstd::prelude::*;
use vstd::set_lib::*;

use crate::laws::depth::law_root_depth;
use crate::laws::table::{
    comes_after, extends, fits, has_root, is_wf, law_later_table, law_row_add_table,
    law_sub_dyn_record_table, law_sub_table, lemma_after_refl, lemma_after_trans, lemma_new_var,
    lemma_resolve_free, lemma_root_free, lemma_root_stays, lemma_root_through,
    lemma_sub_tails_table,
};
use crate::model::{row_extend, unbox, Name, RowErr, St, Table, Ty};
use crate::term::Term;
use crate::typecheck::state::{next_var, run_resolve, run_root, with_var};
use crate::typecheck::unify::{
    run_row_add, run_sub, run_sub_concrete, run_sub_dyn_record, run_sub_roots, run_sub_row_types,
    run_sub_rows, run_sub_tails,
};
use crate::typecheck::wrapper::subst;

verus! {

/// Whether a run succeeds, with a state as its outcome.
pub open spec fn succeeds<E>(out: Option<(St, Result<(), E>)>, st: St) -> bool {
    match out {
        Some((st2, Ok(()))) => st2 == st,
        _ => false,
    }
}

/// The representative of a type under a table, if there is one.
pub open spec fn root(table: Table, ty: Ty) -> Option<Ty> {
    match ty {
        Ty::Ptr(p) => if has_root(table, p) {
            run_root(choose|n: nat| run_root(n, table, p) is Some, table, p)
        } else {
            None
        },
        _ => Some(ty),
    }
}

/// The type that a row gives to an identifier, and the rest of the row, both found within `n` steps
/// under a table.
pub open spec fn row_pick(n: nat, table: Table, id: Name, row: Ty) -> Option<(Option<Ty>, Ty)>
    decreases n,
{
    if n == 0 {
        None
    } else {
        match root(table, row) {
            Some(Ty::RowExtend(id2, ty2, tail)) => if id == id2 {
                Some((unbox(ty2), *tail))
            } else {
                match row_pick((n - 1) as nat, table, id, *tail) {
                    Some((ty, rest)) => Some((ty, Ty::RowExtend(id2, ty2, Box::new(rest)))),
                    None => None,
                }
            },
            _ => None,
        }
    }
}

/// Whether a row is made of a binding of an identifier and of a rest, in whatever order.
pub open spec fn row_has(table: Table, row: Ty, id: Name, ty: Option<Ty>, rest: Ty) -> bool {
    exists|n: nat| #[trigger] row_pick(n, table, id, row) == Some((ty, rest))
}

/// Whether two flat types are the same variable.
pub open spec fn same_flat(a: Ty, b: Ty) -> bool {
    match (a, b) {
        (Ty::Flat(s), Ty::Flat(t)) => match (*s.term, *t.term) {
            (Term::Var(x), Term::Var(y)) => x@ == y@,
            _ => false,
        },
        _ => false,
    }
}

/// Whether a type is a subtype of another under a table, as far as can be seen down to the depth
/// `k`. Types may be cyclic under a table: there is no largest depth.
///
/// The constants that stand for the type variables of quantifiers are not below `base`.
pub open spec fn sub_upto(k: nat, table: Table, base: nat, a: Ty, b: Ty) -> bool
    decreases k, 1nat,
{
    k == 0 || match (root(table, a), root(table, b)) {
        (Some(a), Some(b)) => a == b || sub_rule(k, table, base, a, b),
        _ => false,
    }
}

/// The rules of subtyping between two representatives.
pub open spec fn sub_rule(k: nat, table: Table, base: nat, a: Ty, b: Ty) -> bool
    decreases k, 0nat,
{
    let j = (k - 1) as nat;
    k > 0 && match (a, b) {
        // Every type but a constant or a variable is a subtype of `Dyn`.
        (_, Ty::Dyn) => a.is_concrete(),
        (Ty::List(s), Ty::List(t)) => sub_upto(j, table, base, *s, *t),
        // Functions are contravariant in their argument, and covariant in their result.
        (Ty::Arrow(s1, r1), Ty::Arrow(s2, r2)) => {
            &&& sub_upto(j, table, base, *s2, *s1)
            &&& sub_upto(j, table, base, *r1, *r2)
        },
        (Ty::Enum(s), Ty::Enum(t)) => sub_upto(j, table, base, *s, *t),
        (Ty::StaticRecord(s), Ty::StaticRecord(t)) => sub_upto(j, table, base, *s, *t),
        (Ty::DynRecord(s), Ty::DynRecord(t)) => sub_upto(j, table, base, *s, *t),
        // A record is a subtype of a dictionary if all its fields have the type of the latter.
        (Ty::StaticRecord(row), Ty::DynRecord(ty)) => dict_upto(j, table, base, *row, *ty),
        // Two polymorphic types are compared at a constant that neither has.
        (Ty::Forall(i1, s), Ty::Forall(i2, t)) => exists|c: usize|
            c >= base && sub_upto(
                j,
                table,
                (c + 1) as nat,
                #[trigger] subst(*s, i1, Ty::Constant(c)),
                subst(*t, i2, Ty::Constant(c)),
            ),
        // The bindings of a row are found in the other row, in whatever order.
        (Ty::RowExtend(id, ty, tail), Ty::RowExtend(_, _, _)) => exists|ty2: Option<Ty>, rest: Ty|
            {
                &&& #[trigger] row_has(table, b, id, ty2, rest)
                &&& match (unbox(ty), ty2) {
                    (None, None) => true,
                    (Some(s), Some(t)) => sub_upto(j, table, base, s, t),
                    _ => false,
                }
                &&& sub_upto(j, table, base, *tail, rest)
            },
        _ => same_flat(a, b),
    }
}

/// Whether all the fields of a record row have a type, as far as can be seen down to the depth `k`.
/// A row that ends with a variable has only fields of type `Dyn`.
pub open spec fn dict_upto(k: nat, table: Table, base: nat, row: Ty, ty: Ty) -> bool
    decreases k, 0nat,
{
    let j = (k - 1) as nat;
    k == 0 || match row {
        Ty::RowEmpty => true,
        Ty::Dyn => sub_upto(j, table, base, Ty::Dyn, ty),
        Ty::RowExtend(_, Some(a), tail) => {
            &&& sub_upto(j, table, base, *a, ty)
            &&& dict_upto(j, table, base, *tail, ty)
        },
        Ty::Ptr(_) => ty is Dyn,
        _ => false,
    }
}

/// Whether a type is a subtype of another under a table.
pub open spec fn is_subtype(table: Table, base: nat, a: Ty, b: Ty) -> bool {
    forall|k: nat| sub_upto(k, table, base, a, b)
}

/// The representative of a type is the one that is found within any bound that suffices.
pub proof fn lemma_root_is(n: nat, table: Table, ty: Ty)
    requires
        run_resolve(n, table, ty) is Some,
    ensures
        root(table, ty) == run_resolve(n, table, ty),
{
    if let Ty::Ptr(p) = ty {
        let k = choose|k: nat| run_root(k, table, p) is Some;
        assert(run_root(n, table, p) is Some);
        if n <= k {
            law_root_depth(n, k, table, p);
        } else {
            law_root_depth(k, n, table, p);
        }
    }
}

/// A type and its former representative have the same representative under a table that extends
/// the one that the latter was found in.
pub proof fn lemma_root_same(n: nat, a: Table, b: Table, ty: Ty)
    requires
        run_resolve(n, a, ty) is Some,
        extends(a, b),
        is_wf(b),
    ensures
        root(b, ty) == root(b, run_resolve(n, a, ty)->0),
        root(b, ty) is Some,
{
    if let Ty::Ptr(x) = ty {
        lemma_root_free(n, a, x);
        match run_root(n, a, x)->0 {
            Ty::Ptr(p) => {
                assert(b.contains_key(p));
                let k = choose|k: nat| run_root(k, b, p) is Some;
                lemma_root_through(n, k, a, b, x, p);
                lemma_root_is(n + k, b, ty);
                lemma_root_is(k, b, Ty::Ptr(p));
            },
            _ => {
                lemma_root_stays(n, a, b, x);
                lemma_root_is(n, b, ty);
            },
        }
    }
}

/// A table between a well-formed one and a later one is well-formed, and the later one extends it.
pub proof fn lemma_between(a: Table, b: Table, c: Table, last: Table)
    requires
        is_wf(a),
        comes_after(a, b),
        comes_after(b, c),
        extends(c, last),
        is_wf(last),
    ensures
        is_wf(b),
        extends(a, b),
        extends(b, last),
        a.dom().len() <= b.dom().len(),
{
    reveal(comes_after);
    assert(c.dom().subset_of(last.dom())) by {
        assert forall|x: usize| c.dom().contains(x) implies last.dom().contains(x) by {
            assert(c.contains_key(x));
        }
    }
    lemma_len_subset(c.dom(), last.dom());
    lemma_len_subset(b.dom(), c.dom());
    lemma_len_subset(a.dom(), b.dom());
    assert forall|x: usize| #[trigger] b.contains_key(x) implies last.contains_key(x) && (b[x]
        is Some ==> last[x] == b[x]) by {
        assert(c.contains_key(x));
    }
}

/// A binding that was found in a row, or added to it, is in the row.
pub proof fn law_row_add_sound(
    n: nat,
    st: St,
    id: Name,
    ty: Option<Ty>,
    r: Ty,
    st2: St,
    ty2: Option<Ty>,
    rest: Ty,
    last: Table,
)
    requires
        run_row_add(n, st, id, ty, r) == Some((st2, Ok::<(Option<Ty>, Ty), RowErr>((ty2, rest)))),
        is_wf(st.table),
        extends(st2.table, last),
        is_wf(last),
    ensures
        row_pick(n, last, id, r) == Some((ty2, rest)),
        row_has(last, r, id, ty2, rest),
    decreases n,
{
    let m = (n - 1) as nat;
    law_row_add_table(n, st, id, ty, r);
    lemma_after_refl(st.table);
    lemma_between(st.table, st.table, st2.table, last);
    lemma_root_same(m, st.table, last, r);
    match run_resolve(m, st.table, r) {
        Some(Ty::RowExtend(id2, _, r2)) => if id != id2 {
            let (st2, out) = run_row_add(m, st, id, ty, *r2)->0;
            let (ty2, rest) = out->Ok_0;
            law_row_add_sound(m, st, id, ty, *r2, st2, ty2, rest, last);
        },
        Some(Ty::Ptr(p)) => {
            lemma_resolve_free(m, st.table, r);
            assert(st2.table.contains_key(p));
            assert(run_root(1, last, p) == Some(row_extend(id, ty, rest)));
            lemma_root_is(1, last, Ty::Ptr(p));
        },
        _ => {},
    }
}

/// Unifying two types makes the first one a subtype of the second one, under every later table.
pub proof fn lemma_sub_sound(
    n: nat,
    k: nat,
    base: nat,
    st: St,
    t1: Ty,
    t2: Ty,
    st2: St,
    last: Table,
)
    requires
        succeeds(run_sub(n, st, t1, t2), st2),
        is_wf(st.table),
        base <= st.table.dom().len(),
        extends(st2.table, last),
        is_wf(last),
    ensures
        sub_upto(k, last, base, t1, t2),
    decreases n, 3nat,
{
    let m = (n - 1) as nat;
    law_sub_table(n, st, t1, t2);
    lemma_after_refl(st.table);
    lemma_between(st.table, st.table, st2.table, last);
    lemma_resolve_free(m, st.table, t1);
    lemma_resolve_free(m, st.table, t2);
    lemma_root_same(m, st.table, last, t1);
    lemma_root_same(m, st.table, last, t2);
    let r1 = run_resolve(m, st.table, t1)->0;
    let r2 = run_resolve(m, st.table, t2)->0;
    lemma_sub_roots_sound(n, k, base, st, r1, r2, st2, last);
}

/// A variable that is bound to a type has the representative of the type.
proof fn lemma_bound_root(table: Table, p: usize, ty: Ty)
    requires
        is_wf(table),
        table.contains_key(p),
        table[p] == Some(ty),
    ensures
        root(table, Ty::Ptr(p)) == root(table, ty),
        root(table, ty) is Some,
{
    let n = choose|n: nat| run_root(n, table, p) is Some;
    lemma_root_is(n, table, Ty::Ptr(p));
    if let Ty::Ptr(q) = ty {
        lemma_root_is((n - 1) as nat, table, ty);
    }
}

/// The same, for two types that are their own representatives.
proof fn lemma_sub_roots_sound(
    n: nat,
    k: nat,
    base: nat,
    st: St,
    t1: Ty,
    t2: Ty,
    st2: St,
    last: Table,
)
    requires
        succeeds(run_sub_roots(n, st, t1, t2), st2),
        is_wf(st.table),
        base <= st.table.dom().len(),
        extends(st2.table, last),
        is_wf(last),
        t1 matches Ty::Ptr(p) ==> st.table.contains_key(p) && st.table[p] is None,
        t2 matches Ty::Ptr(p) ==> st.table.contains_key(p) && st.table[p] is None,
    ensures
        sub_upto(k, last, base, t1, t2),
    decreases n, 2nat,
{
    match (t1, t2) {
        (Ty::Ptr(p), _) => {
            assert(st2.table.contains_key(p));
            if t2 == Ty::Ptr(p) {
                assert(has_root(last, p));
                let i = choose|i: nat| run_root(i, last, p) is Some;
                lemma_root_is(i, last, t1);
            } else {
                lemma_bound_root(last, p, t2);
            }
        },
        (_, Ty::Ptr(p)) => {
            assert(st2.table.contains_key(p));
            lemma_bound_root(last, p, t1);
        },
        _ => if t1.is_concrete() && t2.is_concrete() {
            lemma_sub_concrete_sound(n, k, base, st, t1, t2, st2, last);
        },
    }
}

/// The same, for two concrete types.
proof fn lemma_sub_concrete_sound(
    n: nat,
    k: nat,
    base: nat,
    st: St,
    t1: Ty,
    t2: Ty,
    st2: St,
    last: Table,
)
    requires
        succeeds(run_sub_concrete(n, st, t1, t2), st2),
        t1.is_concrete(),
        t2.is_concrete(),
        is_wf(st.table),
        base <= st.table.dom().len(),
        extends(st2.table, last),
        is_wf(last),
    ensures
        sub_upto(k, last, base, t1, t2),
    decreases n, 1nat,
{
    if k > 0 {
        let m = (n - 1) as nat;
        let j = (k - 1) as nat;
        match (t1, t2) {
            (_, Ty::Dyn) => {},
            (Ty::List(a), Ty::List(b)) => lemma_sub_sound(m, j, base, st, *a, *b, st2, last),
            (Ty::Arrow(s1, r1), Ty::Arrow(s2, r2)) => {
                let (mid, _) = run_sub(m, st, *s2, *s1)->0;
                law_sub_table(m, st, *s2, *s1);
                law_sub_table(m, mid, *r1, *r2);
                lemma_between(st.table, mid.table, st2.table, last);
                lemma_sub_sound(m, j, base, st, *s2, *s1, mid, last);
                lemma_sub_sound(m, j, base, mid, *r1, *r2, st2, last);
            },
            (Ty::Flat(s), Ty::Flat(t)) => {},
            (Ty::Enum(a), Ty::Enum(b)) => {
                lemma_sub_row_types_sound(n, j, base, st, *a, *b, t1, t2, st2, last);
            },
            (Ty::StaticRecord(a), Ty::StaticRecord(b)) => {
                lemma_sub_row_types_sound(n, j, base, st, *a, *b, t1, t2, st2, last);
            },
            (Ty::DynRecord(a), Ty::DynRecord(b)) => {
                lemma_sub_sound(m, j, base, st, *a, *b, st2, last);
            },
            (Ty::StaticRecord(a), Ty::DynRecord(b)) => {
                lemma_sub_dyn_record_sound(m, j, base, st, *a, *b, st2, last);
            },
            (Ty::Forall(i1, a), Ty::Forall(i2, b)) => {
                let c = next_var(st.table);
                let (s, t) = (subst(*a, i1, Ty::Constant(c)), subst(*b, i2, Ty::Constant(c)));
                let mid = with_var(st);
                lemma_new_var(st.table);
                law_sub_table(m, mid, s, t);
                lemma_between(st.table, mid.table, st2.table, last);
                assert(mid.table.contains_key(c));
                lemma_sub_sound(m, j, (c + 1) as nat, mid, s, t, st2, last);
            },
            _ => if t1.is_row() && t2.is_row() {
                lemma_sub_rows_sound(m, k, base, st, t1, t2, st2, last);
            },
        }
    }
}

/// The same, for the rows of two enum or record types.
proof fn lemma_sub_row_types_sound(
    n: nat,
    k: nat,
    base: nat,
    st: St,
    a: Ty,
    b: Ty,
    t1: Ty,
    t2: Ty,
    st2: St,
    last: Table,
)
    requires
        succeeds(run_sub_row_types(n, st, a, b, t1, t2), st2),
        is_wf(st.table),
        base <= st.table.dom().len(),
        extends(st2.table, last),
        is_wf(last),
    ensures
        sub_upto(k, last, base, a, b),
    decreases n, 0nat,
{
    let m = (n - 1) as nat;
    if a.is_row() && b.is_row() {
        lemma_sub_rows_sound(m, k, base, st, a, b, st2, last);
    } else {
        lemma_sub_sound(m, k, base, st, a, b, st2, last);
    }
}

/// The same, for two rows.
pub proof fn lemma_sub_rows_sound(
    n: nat,
    k: nat,
    base: nat,
    st: St,
    t1: Ty,
    t2: Ty,
    st2: St,
    last: Table,
)
    requires
        succeeds(run_sub_rows(n, st, t1, t2), st2),
        is_wf(st.table),
        base <= st.table.dom().len(),
        extends(st2.table, last),
        is_wf(last),
    ensures
        sub_upto(k, last, base, t1, t2),
    decreases n, 1nat,
{
    broadcast use lemma_after_trans;

    if k > 0 {
        let m = (n - 1) as nat;
        let j = (k - 1) as nat;
        if let (Ty::RowExtend(id, ty, tail), Ty::RowExtend(_, _, _)) = (t1, t2) {
            let (mid, out) = run_row_add(m, st, id, unbox(ty), t2)->0;
            let (ty2, rest) = out->Ok_0;
            law_row_add_table(m, st, id, unbox(ty), t2);
            match (unbox(ty), ty2) {
                (Some(a), Some(b)) => {
                    let (mid2, _) = run_sub(m, mid, a, b)->0;
                    law_sub_table(m, mid, a, b);
                    lemma_sub_tails_table(n, mid2, *tail, rest);
                    lemma_between(st.table, mid.table, st2.table, last);
                    lemma_between(mid.table, mid2.table, st2.table, last);
                    lemma_sub_sound(m, j, base, mid, a, b, mid2, last);
                    lemma_sub_tails_sound(n, j, base, mid2, *tail, rest, st2, last);
                },
                _ => {
                    lemma_sub_tails_table(n, mid, *tail, rest);
                    lemma_between(st.table, mid.table, st2.table, last);
                    lemma_sub_tails_sound(n, j, base, mid, *tail, rest, st2, last);
                },
            }
            law_row_add_sound(m, st, id, unbox(ty), t2, mid, ty2, rest, last);
        }
    }
}

/// The same, for the tails of two rows.
proof fn lemma_sub_tails_sound(
    n: nat,
    k: nat,
    base: nat,
    st: St,
    t1: Ty,
    t2: Ty,
    st2: St,
    last: Table,
)
    requires
        succeeds(run_sub_tails(n, st, t1, t2), st2),
        is_wf(st.table),
        base <= st.table.dom().len(),
        extends(st2.table, last),
        is_wf(last),
    ensures
        sub_upto(k, last, base, t1, t2),
    decreases n, 0nat,
{
    let m = (n - 1) as nat;
    if t1.is_concrete() && t2.is_concrete() {
        lemma_sub_rows_sound(m, k, base, st, t1, t2, st2, last);
    } else {
        lemma_sub_sound(m, k, base, st, t1, t2, st2, last);
    }
}

/// Unifying a row with a dictionary type gives its fields the type of the latter, under every later
/// table.
pub proof fn lemma_sub_dyn_record_sound(
    n: nat,
    k: nat,
    base: nat,
    st: St,
    row: Ty,
    ty: Ty,
    st2: St,
    last: Table,
)
    requires
        succeeds(run_sub_dyn_record(n, st, row, ty), st2),
        is_wf(st.table),
        base <= st.table.dom().len(),
        extends(st2.table, last),
        is_wf(last),
    ensures
        dict_upto(k, last, base, row, ty),
    decreases n, 0nat,
{
    if k > 0 {
        let m = (n - 1) as nat;
        let j = (k - 1) as nat;
        match row {
            Ty::Dyn => lemma_sub_sound(m, j, base, st, Ty::Dyn, ty, st2, last),
            Ty::RowExtend(id, Some(a), tail) => {
                let (mid, _) = run_sub(m, st, *a, ty)->0;
                law_sub_table(m, st, *a, ty);
                law_sub_dyn_record_table(m, mid, *tail, ty);
                lemma_between(st.table, mid.table, st2.table, last);
                lemma_sub_sound(m, j, base, st, *a, ty, mid, last);
                lemma_sub_dyn_record_sound(m, j, base, mid, *tail, ty, st2, last);
            },
            _ => {},
        }
    }
}

/// When the unification of two types succeeds, the first one is a subtype of the second one under
/// the resulting table, and under every well-formed table that extends it. The constants that stand
/// for the type variables of quantifiers are not among the variables that there were before.
pub proof fn law_check_sub_sound(n: nat, st: St, t1: Ty, t2: Ty, st2: St)
    requires
        succeeds(run_sub(n, st, t1, t2), st2),
        is_wf(st.table),
        fits(st2.table),
    ensures
        is_subtype(st2.table, st.table.dom().len(), t1, t2),
        forall|last: Table| #[trigger]
            extends(st2.table, last) && is_wf(last) ==> is_subtype(
                last,
                st.table.dom().len(),
                t1,
                t2,
            ),
{
    let base = st.table.dom().len();
    law_sub_table(n, st, t1, t2);
    law_later_table(st.table, st2.table);
    assert forall|last: Table| #[trigger]
        extends(st2.table, last) && is_wf(last) implies is_subtype(last, base, t1, t2) by {
        assert forall|k: nat| sub_upto(k, last, base, t1, t2) by {
            lemma_sub_sound(n, k, base, st, t1, t2, st2, last);
        }
    }
    assert(extends(st2.table, st2.table));
}

} // verus!
