//! How the unification of two types relates to the unification of their components: the rules of
//! subtyping, for types with or without variables.
use vstd::prelude::*;

use crate::laws::closed::{bindings, is_closed_record};
use crate::laws::depth::{law_root_depth, law_sub_depth};
use crate::laws::rows::{row_end, row_ids};
use crate::laws::steps::{first_in, law_constr_unify_exact};
use crate::laws::subtyping::succeeds;
use crate::model::{Constr, Name, RowErr, St, Table, Ty, UErr};
use crate::term::Term;
use crate::typecheck::errors::unif_err;
use crate::typecheck::state::{full_row, run_resolve, run_root};
use crate::typecheck::unify::{
    run_check_sub, run_row_add, run_sub, run_sub_dyn_record, run_sub_row_types, run_sub_rows,
    run_sub_tails, tail_err,
};
use crate::typecheck::wrapper::subst;

verus! {

/// Whether a run fails with an error, and leaves a state.
pub open spec fn fails<E>(out: Option<(St, Result<(), E>)>, st: St, err: E) -> bool {
    match out {
        Some((st2, Err(err2))) => st2 == st && err2 == err,
        _ => false,
    }
}

/// A variable that is free represents itself, one that is bound to another has the representative
/// of the latter, and one that is bound to a type is represented by it.
pub proof fn law_root_step(n: nat, table: Table, x: usize)
    requires
        table.contains_key(x),
    ensures
        match table[x] {
            None => run_root(n + 1, table, x) == Some(Ty::Ptr(x)),
            Some(Ty::Ptr(y)) => run_root(n + 1, table, x) == run_root(n, table, y),
            Some(ty) => run_root(n + 1, table, x) == Some(ty),
        },
{
}

/// A variable that is not in the table has no representative.
pub proof fn law_root_missing(n: nat, table: Table, x: usize)
    requires
        !table.contains_key(x),
    ensures
        run_root(n, table, x) is None,
{
}

/// Unifying two types is unifying their representatives: a variable that is bound stands for the
/// type that it is bound to.
pub proof fn law_sub_representatives(n: nat, st: St, t1: Ty, t2: Ty, r1: Ty, r2: Ty)
    requires
        n > 0,
        run_resolve(n, st.table, t1) == Some(r1),
        run_resolve(n, st.table, t2) == Some(r2),
    ensures
        run_sub(n + 1, st, t1, t2) == run_sub(n + 1, st, r1, r2),
{
    lemma_resolve_again(n, st.table, t1);
    lemma_resolve_again(n, st.table, t2);
}

/// A representative is its own representative.
proof fn lemma_resolve_again(n: nat, table: Table, ty: Ty)
    requires
        n > 0,
        run_resolve(n, table, ty) is Some,
    ensures
        run_resolve(n, table, run_resolve(n, table, ty)->0) == run_resolve(n, table, ty),
{
    if let Ty::Ptr(p) = ty {
        lemma_root_again(n, n, table, p);
    }
}

/// The same, for a variable.
proof fn lemma_root_again(n: nat, k: nat, table: Table, x: usize)
    requires
        k > 0,
        run_root(n, table, x) is Some,
    ensures
        run_root(n, table, x) matches Some(Ty::Ptr(p)) ==> run_root(k, table, p) == Some(
            Ty::Ptr(p),
        ),
    decreases n,
{
    if let Some(Ty::Ptr(y)) = table[x] {
        lemma_root_again((n - 1) as nat, k, table, y);
    }
}

/// The base types.
pub open spec fn is_base(ty: Ty) -> bool {
    ty is Num || ty is Bool || ty is Str || ty is Sym
}

/// A base type can be unified with itself and with `Dyn`, and this changes nothing. It cannot be
/// unified with another base type, nor `Dyn` with it.
pub proof fn law_sub_base(n: nat, st: St, t1: Ty, t2: Ty)
    requires
        is_base(t1) || t1 is Dyn,
        is_base(t2) || t2 is Dyn,
    ensures
        t1 == t2 || t2 is Dyn ==> succeeds(run_sub(n + 1, st, t1, t2), st),
        t1 != t2 && !(t2 is Dyn) ==> fails(
            run_sub(n + 1, st, t1, t2),
            st,
            UErr::TypeMismatch(t1, t2),
        ),
{
}

/// Whether a type is made by a constructor of types: it is no variable, no constant and no row.
pub open spec fn is_constructed(ty: Ty) -> bool {
    is_base(ty) || ty is Arrow || ty is List || ty is DynRecord || ty is StaticRecord || ty is Enum
        || ty is Forall || ty is Flat
}

/// Whether a type is a row, or the end `Dyn` of one.
pub open spec fn is_row_type(ty: Ty) -> bool {
    ty is RowExtend || ty is RowEmpty || ty is Dyn
}

/// Whether two types are made by the same constructor.
pub open spec fn same_constructor(t1: Ty, t2: Ty) -> bool {
    ||| t1 is Num && t2 is Num
    ||| t1 is Bool && t2 is Bool
    ||| t1 is Str && t2 is Str
    ||| t1 is Sym && t2 is Sym
    ||| t1 is Arrow && t2 is Arrow
    ||| t1 is List && t2 is List
    ||| t1 is DynRecord && t2 is DynRecord
    ||| t1 is StaticRecord && t2 is StaticRecord
    ||| t1 is Enum && t2 is Enum
    ||| t1 is Forall && t2 is Forall
    ||| t1 is Flat && t2 is Flat
}

/// Types made by different constructors cannot be unified, but for a record with a dictionary and
/// any type with `Dyn`. Neither can a row and a type that is none. The two types are reported in
/// the order in which they are unified.
pub proof fn law_sub_constructors(n: nat, st: St, t1: Ty, t2: Ty)
    requires
        is_constructed(t1) || is_row_type(t1),
        is_constructed(t2) || is_row_type(t2),
        is_constructed(t1) || is_constructed(t2),
        !(t2 is Dyn),
        !same_constructor(t1, t2),
        !(t1 is StaticRecord && t2 is DynRecord),
    ensures
        fails(run_sub(n + 1, st, t1, t2), st, UErr::TypeMismatch(t1, t2)),
{
}

/// A type variable that no quantifier binds can only be unified with `Dyn`. The first of two such
/// type variables is reported.
pub proof fn law_sub_unbound(n: nat, st: St, id: Name, id2: Name, ty: Ty)
    requires
        is_constructed(ty) || is_row_type(ty),
    ensures
        succeeds(run_sub(n + 1, st, Ty::Var(id), Ty::Dyn), st),
        !(ty is Dyn) ==> fails(
            run_sub(n + 1, st, Ty::Var(id), ty),
            st,
            UErr::UnboundTypeVariable(id),
        ),
        fails(run_sub(n + 1, st, ty, Ty::Var(id)), st, UErr::UnboundTypeVariable(id)),
        fails(run_sub(n + 1, st, Ty::Var(id), Ty::Var(id2)), st, UErr::UnboundTypeVariable(id)),
{
}

/// Any type but a variable and a constant can be unified with `Dyn`, and this changes nothing.
pub proof fn law_sub_any_dyn(n: nat, st: St, ty: Ty)
    requires
        is_constructed(ty) || is_row_type(ty),
    ensures
        succeeds(run_sub(n + 1, st, ty, Ty::Dyn), st),
{
}

/// A type without a representative is not unified with any.
pub proof fn law_sub_missing(n: nat, st: St, t1: Ty, t2: Ty)
    requires
        run_resolve(n, st.table, t1) is None || run_resolve(n, st.table, t2) is None,
    ensures
        run_sub(n + 1, st, t1, t2) is None,
        run_sub(0, st, t1, t2) is None,
{
}

/// Two rows are unified as types as they are as rows, and the error of the rows is reported between
/// them. The end `Dyn` is a type that any row can be unified with.
pub proof fn law_sub_rows_as_types(n: nat, st: St, t1: Ty, t2: Ty, last: St, err: RowErr)
    requires
        is_row_type(t1),
        is_row_type(t2),
        !(t2 is Dyn),
    ensures
        ({
            let out = run_sub(n + 1, st, t1, t2);
            let rows = run_sub_rows(n, st, t1, t2);
            &&& rows is None ==> out is None
            &&& succeeds(rows, last) ==> succeeds(out, last)
            &&& fails(rows, last, err) ==> fails(out, last, unif_err(err, t1, t2))
        }),
{
}

/// A constant can be unified with itself, and with no other type but a variable.
pub proof fn law_sub_constants(n: nat, st: St, c: usize, d: usize, ty: Ty)
    requires
        ty.is_concrete(),
    ensures
        succeeds(run_sub(n + 1, st, Ty::Constant(c), Ty::Constant(c)), st),
        c != d ==> fails(
            run_sub(n + 1, st, Ty::Constant(c), Ty::Constant(d)),
            st,
            UErr::ConstMismatch(c, d),
        ),
        fails(run_sub(n + 1, st, Ty::Constant(c), ty), st, UErr::WithConst(c, ty)),
        fails(run_sub(n + 1, st, ty, Ty::Constant(c)), st, UErr::WithConst(c, ty)),
{
}

/// Lists and dictionaries are unified as their elements are.
pub proof fn law_sub_elements(n: nat, st: St, a: Ty, b: Ty)
    ensures
        run_sub(n + 1, st, Ty::List(Box::new(a)), Ty::List(Box::new(b))) == run_sub(n, st, a, b),
        run_sub(n + 1, st, Ty::DynRecord(Box::new(a)), Ty::DynRecord(Box::new(b))) == run_sub(
            n,
            st,
            a,
            b,
        ),
{
}

/// Functions are unified by their arguments, the other way round, and then by their results. The
/// error says which of the two failed.
pub proof fn law_sub_arrows(n: nat, st: St, s1: Ty, r1: Ty, s2: Ty, r2: Ty, mid: St)
    ensures
        ({
            let t1 = Ty::Arrow(Box::new(s1), Box::new(r1));
            let t2 = Ty::Arrow(Box::new(s2), Box::new(r2));
            let out = run_sub(n + 1, st, t1, t2);
            &&& run_sub(n, st, s2, s1) is None ==> out is None
            &&& forall|err: UErr| #[trigger]
                fails(run_sub(n, st, s2, s1), mid, err) ==> fails(
                    out,
                    mid,
                    UErr::DomainMismatch(t1, t2, Box::new(err)),
                )
            &&& succeeds(run_sub(n, st, s2, s1), mid) ==> {
                &&& run_sub(n, mid, r1, r2) is None ==> out is None
                &&& forall|last: St| #[trigger]
                    succeeds(run_sub(n, mid, r1, r2), last) ==> succeeds(out, last)
                &&& forall|last: St, err: UErr| #[trigger]
                    fails(run_sub(n, mid, r1, r2), last, err) ==> fails(
                        out,
                        last,
                        UErr::CodomainMismatch(t1, t2, Box::new(err)),
                    )
            }
        }),
{
}

/// Two polymorphic types are unified at a new constant that stands for both type variables.
pub proof fn law_sub_foralls(n: nat, st: St, i1: Name, a: Ty, i2: Name, b: Ty, c: usize)
    requires
        c == st.table.dom().len(),
    ensures
        run_sub(n + 1, st, Ty::Forall(i1, Box::new(a)), Ty::Forall(i2, Box::new(b))) == run_sub(
            n,
            St { table: st.table.insert(c, None), ..st },
            subst(a, i1, Ty::Constant(c)),
            subst(b, i2, Ty::Constant(c)),
        ),
{
}

/// Two flat types can be unified when they are the same variable. Any other term in a flat type is
/// ill-formed.
pub proof fn law_sub_flat(n: nat, st: St, t1: Ty, t2: Ty)
    requires
        t1 is Flat,
        t2 is Flat,
    ensures
        ({
            let out = run_sub(n + 1, st, t1, t2);
            match (*t1->Flat_0.term, *t2->Flat_0.term) {
                (Term::Var(x), Term::Var(y)) => if x@ == y@ {
                    succeeds(out, st)
                } else {
                    fails(out, st, UErr::TypeMismatch(t1, t2))
                },
                (Term::Var(_), _) => fails(out, st, UErr::IllformedFlatType(t2->Flat_0)),
                _ => fails(out, st, UErr::IllformedFlatType(t1->Flat_0)),
            }
        }),
{
}

/// A free variable without row constraints can be unified with any type, on both sides. It is then
/// bound to the representative of the type, and nothing else changes.
pub proof fn law_sub_variable(n: nat, st: St, p: usize, ty: Ty, r: Ty)
    requires
        n > 0,
        st.table.contains_key(p),
        st.table[p] is None,
        !st.constr.contains_key(p),
        run_resolve(n, st.table, ty) == Some(r),
        r is Ptr ==> r == Ty::Ptr(p) || !st.constr.contains_key(r->Ptr_0),
    ensures
        ({
            let st2 = St { table: st.table.insert(p, Some(r)), ..st };
            &&& r == Ty::Ptr(p) ==> succeeds(run_sub(n + 1, st, Ty::Ptr(p), ty), st)
            &&& r != Ty::Ptr(p) ==> succeeds(run_sub(n + 1, st, Ty::Ptr(p), ty), st2)
            &&& !(r is Ptr) ==> succeeds(run_sub(n + 1, st, ty, Ty::Ptr(p)), st2)
        }),
{
    assert(run_root(n, st.table, p) == Some(Ty::Ptr(p)));
}

/// A free variable with row constraints can be unified with a closed row that has none of the
/// forbidden identifiers. It is then bound to the row, and its constraints are fulfilled.
pub proof fn law_sub_constrained(n: nat, st: St, p: usize, row: Ty)
    requires
        n > 0,
        st.table.contains_key(p),
        st.table[p] is None,
        st.constr.contains_key(p),
        row is RowExtend || row is RowEmpty || row is Dyn,
        row_end(row) is RowEmpty || row_end(row) is Dyn,
        st.constr[p].disjoint(row_ids(row)),
    ensures
        ({
            let st2 = St {
                table: st.table.insert(p, Some(row)),
                constr: st.constr.remove(p),
                ..st
            };
            &&& succeeds(run_sub(n + 1, st, Ty::Ptr(p), row), st2)
            &&& succeeds(run_sub(n + 1, st, row, Ty::Ptr(p)), st2)
        }),
{
    assert(run_root(n, st.table, p) == Some(Ty::Ptr(p)));
    lemma_closed_full(st.table.dom().len(), st.table, row);
    lemma_closed_constr(st.constr.remove(p), st.constr[p], p, row);
}

/// Whether a free variable `p` is unified with a representative `r`, which stands for `row`: if the
/// row has none of the identifiers that are forbidden to the variable, then the variable is bound,
/// and its constraints go to the variable that ends the row, if there is another one. Otherwise the
/// first forbidden binding is in conflict. The variable loses its constraints either way.
pub open spec fn takes(
    st: St,
    p: usize,
    r: Ty,
    row: Ty,
    out: Option<(St, Result<(), UErr>)>,
    left: Ty,
    right: Ty,
) -> bool {
    let table = st.table.insert(p, Some(r));
    if !st.constr.contains_key(p) {
        succeeds(out, (St { table, ..st }))
    } else {
        let ids = st.constr[p];
        let rest = st.constr.remove(p);
        match first_in(row, ids) {
            Some((id, t)) => fails(
                out,
                (St { constr: rest, ..st }),
                UErr::RowConflict(id, t, left, right),
            ),
            None => match row_end(row) {
                Ty::Ptr(u) => if u == p {
                    succeeds(out, (St { table, constr: rest, ..st }))
                } else if st.constr.contains_key(u) {
                    let both = rest.insert(u, st.constr[u].union(ids));
                    succeeds(out, (St { table, constr: both, ..st }))
                } else {
                    succeeds(out, (St { table, constr: rest.insert(u, ids), ..st }))
                },
                _ => succeeds(out, (St { table, constr: rest, ..st })),
            },
        }
    }
}

/// How a free variable is unified with any other type, on both sides. The bindings of the row that
/// the type stands for are those of the variables too which end it and are bound.
pub proof fn law_sub_variable_exact(n: nat, st: St, p: usize, ty: Ty, r: Ty)
    requires
        n > 0,
        st.table.contains_key(p),
        st.table[p] is None,
        run_resolve(n, st.table, ty) == Some(r),
        r != Ty::Ptr(p),
    ensures
        ({
            let row = full_row(st.table.dom().len(), st.table, r);
            &&& takes(st, p, r, row, run_sub(n + 1, st, Ty::Ptr(p), ty), Ty::Ptr(p), r)
            &&& !(r is Ptr) ==> takes(
                st,
                p,
                r,
                row,
                run_sub(n + 1, st, ty, Ty::Ptr(p)),
                r,
                Ty::Ptr(p),
            )
        }),
{
    assert(run_root(n, st.table, p) == Some(Ty::Ptr(p)));
    law_constr_unify_exact(st.constr, p, full_row(st.table.dom().len(), st.table, r));
}

/// Following the end of a row that ends without a variable changes nothing.
proof fn lemma_closed_full(k: nat, table: Table, row: Ty)
    requires
        !(row_end(row) is Ptr),
    ensures
        full_row(k, table, row) == row,
    decreases row,
{
    if let Ty::RowExtend(_, _, tail) = row {
        lemma_closed_full(k, table, *tail);
    }
}

/// Handing constraints down a row without a forbidden identifier that ends without a variable
/// changes nothing.
proof fn lemma_closed_constr(constr: Constr, ids: Set<Name>, p: usize, row: Ty)
    requires
        !(row_end(row) is Ptr),
        ids.disjoint(row_ids(row)),
    ensures
        crate::typecheck::state::hand_down(constr, ids, p, row) == (constr, Ok::<(), RowErr>(())),
    decreases row,
{
    if let Ty::RowExtend(id, _, tail) = row {
        assert(row_ids(row).contains(id));
        assert(ids.disjoint(row_ids(*tail))) by {
            assert forall|x: Name| ids.contains(x) implies !row_ids(*tail).contains(x) by {
                assert(row_ids(row).contains(x) || !row_ids(*tail).contains(x));
            }
        }
        lemma_closed_constr(constr, ids, p, *tail);
    }
}

/// In strict mode two types are unified, and otherwise nothing is.
pub proof fn law_sub_mode(n: nat, st: St, t1: Ty, t2: Ty)
    ensures
        run_check_sub(n, st, true, t1, t2) == run_sub(n, st, t1, t2),
        succeeds(run_check_sub(n, st, false, t1, t2), st),
{
}

/// The enums, or the records, of two rows are unified as the rows are. The error of the rows is
/// reported between the enums or records.
pub proof fn law_sub_row_types(n: nat, st: St, a: Ty, b: Ty)
    requires
        a is RowExtend || a is RowEmpty || a is Dyn,
        b is RowExtend || b is RowEmpty || b is Dyn,
    ensures
        forall|t1: Ty, t2: Ty|
            (t1 == Ty::Enum(Box::new(a)) && t2 == Ty::Enum(Box::new(b))) || (t1
                == Ty::StaticRecord(Box::new(a)) && t2 == Ty::StaticRecord(Box::new(b))) ==> {
                let out = #[trigger] run_sub(n + 1, st, t1, t2);
                &&& run_sub_rows(n, st, a, b) is None ==> out is None
                &&& forall|last: St| #[trigger]
                    succeeds(run_sub_rows(n, st, a, b), last) ==> succeeds(out, last)
                &&& forall|last: St, err: RowErr| #[trigger]
                    fails(run_sub_rows(n, st, a, b), last, err) ==> fails(
                        out,
                        last,
                        unif_err(err, t1, t2),
                    )
            },
{
    assert forall|t1: Ty, t2: Ty|
        (t1 == Ty::Enum(Box::new(a)) && t2 == Ty::Enum(Box::new(b))) || (t1 == Ty::StaticRecord(
            Box::new(a),
        ) && t2 == Ty::StaticRecord(Box::new(b))) implies {
        let out = #[trigger] run_sub(n + 1, st, t1, t2);
        &&& run_sub_rows(n, st, a, b) is None ==> out is None
        &&& forall|last: St| #[trigger]
            succeeds(run_sub_rows(n, st, a, b), last) ==> succeeds(out, last)
        &&& forall|last: St, err: RowErr| #[trigger]
            fails(run_sub_rows(n, st, a, b), last, err) ==> fails(
                out,
                last,
                unif_err(err, t1, t2),
            )
    } by {
        assert(run_sub(n + 1, st, t1, t2) == run_sub_row_types(n + 1, st, a, b, t1, t2));
    }
}

/// An enum or a record that is not made of a row is ill-formed. If one of the rows is a variable,
/// the rows are unified as types.
pub proof fn law_sub_row_types_other(n: nat, st: St, a: Ty, b: Ty)
    ensures
        forall|t1: Ty, t2: Ty|
            (t1 == Ty::Enum(Box::new(a)) && t2 == Ty::Enum(Box::new(b))) || (t1
                == Ty::StaticRecord(Box::new(a)) && t2 == Ty::StaticRecord(Box::new(b))) ==> {
                let out = #[trigger] run_sub(n + 1, st, t1, t2);
                let bad1 = a.is_concrete() && !a.is_row();
                let bad2 = b.is_concrete() && !b.is_row();
                &&& bad1 ==> fails(out, st, UErr::IllformedType(t1))
                &&& !bad1 && bad2 ==> fails(out, st, UErr::IllformedType(t2))
                &&& !bad1 && !bad2 && !(a.is_row() && b.is_row()) ==> out == run_sub(n, st, a, b)
            },
{
    assert forall|t1: Ty, t2: Ty|
        (t1 == Ty::Enum(Box::new(a)) && t2 == Ty::Enum(Box::new(b))) || (t1 == Ty::StaticRecord(
            Box::new(a),
        ) && t2 == Ty::StaticRecord(Box::new(b))) implies {
        let out = #[trigger] run_sub(n + 1, st, t1, t2);
        let bad1 = a.is_concrete() && !a.is_row();
        let bad2 = b.is_concrete() && !b.is_row();
        &&& bad1 ==> fails(out, st, UErr::IllformedType(t1))
        &&& !bad1 && bad2 ==> fails(out, st, UErr::IllformedType(t2))
        &&& !bad1 && !bad2 && !(a.is_row() && b.is_row()) ==> out == run_sub(n, st, a, b)
    } by {
        assert(run_sub(n + 1, st, t1, t2) == run_sub_row_types(n + 1, st, a, b, t1, t2));
    }
}

/// A binding at the head of a row is found there, with the rest of the row as what is left. Nothing
/// changes.
pub proof fn law_row_add_head(n: nat, st: St, id: Name, ty: Option<Ty>, t: Option<Ty>, tail: Ty)
    ensures
        run_row_add(n + 1, st, id, ty, binding(id, t, tail)) == Some(
            (st, Ok::<(Option<Ty>, Ty), RowErr>((t, tail))),
        ),
{
}

/// The row that has a binding and then a tail.
pub open spec fn binding(id: Name, t: Option<Ty>, tail: Ty) -> Ty {
    match t {
        Some(t) => Ty::RowExtend(id, Some(Box::new(t)), Box::new(tail)),
        None => Ty::RowExtend(id, None, Box::new(tail)),
    }
}

/// A binding is looked for, or added, behind the bindings of other identifiers, which stay where
/// they are.
pub proof fn law_row_add_behind(
    n: nat,
    st: St,
    id: Name,
    ty: Option<Ty>,
    id2: Name,
    t2: Option<Ty>,
    tail: Ty,
)
    requires
        id != id2,
    ensures
        ({
            let out = run_row_add(n + 1, st, id, ty, binding(id2, t2, tail));
            match run_row_add(n, st, id, ty, tail) {
                None => out is None,
                Some((st2, Err(err))) => out == Some(
                    (st2, Err::<(Option<Ty>, Ty), RowErr>(err)),
                ),
                Some((st2, Ok((t, rest)))) => out == Some(
                    (st2, Ok::<(Option<Ty>, Ty), RowErr>((t, binding(id2, t2, rest)))),
                ),
            }
        }),
{
}

/// A row that ends without a variable is not extended, and what is no row is ill-formed.
pub proof fn law_row_add_end(n: nat, st: St, id: Name, ty: Option<Ty>, r: Ty)
    requires
        !(r is RowExtend),
        !(r is Ptr),
    ensures
        ({
            let err = if r is RowEmpty || r is Dyn {
                RowErr::MissingRow(id)
            } else {
                RowErr::IllformedRow(r)
            };
            run_row_add(n + 1, st, id, ty, r) == Some((st, Err::<(Option<Ty>, Ty), RowErr>(err)))
        }),
{
}

/// A row without a representative is not looked into.
pub proof fn law_row_add_missing(n: nat, st: St, id: Name, ty: Option<Ty>, r: Ty)
    requires
        run_resolve(n, st.table, r) is None,
    ensures
        run_row_add(n + 1, st, id, ty, r) is None,
        run_row_add(0, st, id, ty, r) is None,
{
}

/// A row is looked into by its representative.
pub proof fn law_row_add_representative(n: nat, st: St, id: Name, ty: Option<Ty>, r: Ty, root: Ty)
    requires
        n > 0,
        run_resolve(n, st.table, r) == Some(root),
    ensures
        run_row_add(n + 1, st, id, ty, r) == run_row_add(n + 1, st, id, ty, root),
{
    lemma_resolve_again(n, st.table, r);
}

/// A row variable is extended by a binding, with a new variable as the tail, unless its constraints
/// forbid the identifier. The tail must contain neither the identifier nor what the variable must
/// not contain. Nothing else changes.
pub proof fn law_row_add_variable(n: nat, st: St, id: Name, ty: Option<Ty>, p: usize, tail: usize)
    requires
        n > 1,
        st.table.contains_key(p),
        st.table[p] is None,
        tail == st.table.dom().len(),
        tail != p,
        !st.constr.contains_key(tail),
    ensures
        ({
            let out = run_row_add(n + 1, st, id, ty, Ty::Ptr(p));
            let ids = if st.constr.contains_key(p) {
                st.constr[p]
            } else {
                Set::empty()
            };
            let st2 = St {
                table: st.table.insert(tail, None).insert(
                    p,
                    Some(binding(id, ty, Ty::Ptr(tail))),
                ),
                constr: st.constr.insert(tail, ids.insert(id)),
                ..st
            };
            if ids.contains(id) {
                out == Some(
                    (st, Err::<(Option<Ty>, Ty), RowErr>(RowErr::UnsatConstr(id, ty))),
                )
            } else {
                out == Some((st2, Ok::<(Option<Ty>, Ty), RowErr>((ty, Ty::Ptr(tail)))))
            }
        }),
{
    let ids = if st.constr.contains_key(p) {
        st.constr[p]
    } else {
        Set::empty()
    };
    assert(run_root(n, st.table, p) == Some(Ty::Ptr(p)));
    if !ids.contains(id) {
        let (st2, _) = run_row_add(n + 1, st, id, ty, Ty::Ptr(p))->0;
        assert(run_root((n - 1) as nat, st.table.insert(tail, None), tail) == Some(Ty::Ptr(tail)));
        assert(st2.constr[tail] =~= ids.insert(id));
        assert(st2.constr =~= st.constr.insert(tail, ids.insert(id)));
    }
}

/// Two ends of rows can be unified when they are the same. Otherwise the error says what one row
/// has and the other has not.
pub proof fn law_sub_rows_ends(n: nat, st: St, id: Name, t: Option<Ty>, tail: Ty)
    ensures
        succeeds(run_sub_rows(n + 1, st, Ty::RowEmpty, Ty::RowEmpty), st),
        succeeds(run_sub_rows(n + 1, st, Ty::Dyn, Ty::Dyn), st),
        fails(run_sub_rows(n + 1, st, Ty::RowEmpty, Ty::Dyn), st, RowErr::ExtraDynTail),
        fails(run_sub_rows(n + 1, st, Ty::Dyn, Ty::RowEmpty), st, RowErr::MissingDynTail),
        forall|end: Ty|
            end is RowEmpty || end is Dyn ==> fails(
                #[trigger] run_sub_rows(n + 1, st, end, binding(id, t, tail)),
                st,
                RowErr::ExtraRow(id),
            ),
        forall|end: Ty|
            end is RowEmpty || end is Dyn ==> fails(
                #[trigger] run_sub_rows(n + 1, st, binding(id, t, tail), end),
                st,
                RowErr::MissingRow(id),
            ),
{
}

/// Whether the outcome of unifying two rows is the one of unifying their tails: as rows, if both
/// are given, and else as types.
pub open spec fn tails_give(
    n: nat,
    st: St,
    t1: Ty,
    t2: Ty,
    out: Option<(St, Result<(), RowErr>)>,
) -> bool {
    if t1.is_concrete() && t2.is_concrete() {
        out == run_sub_rows(n, st, t1, t2)
    } else {
        match run_sub(n, st, t1, t2) {
            None => out is None,
            Some((st2, Ok(()))) => succeeds(out, st2),
            Some((st2, Err(UErr::ConstMismatch(c, d)))) => fails(
                out,
                st2,
                RowErr::ConstMismatch(c, d),
            ),
            Some((st2, Err(UErr::WithConst(c, ty)))) => fails(out, st2, RowErr::WithConst(c, ty)),
            Some((st2, Err(UErr::RowConflict(id, ty, _, _)))) => fails(
                out,
                st2,
                RowErr::UnsatConstr(id, ty),
            ),
            Some((st2, Err(err))) => {
                let r1 = run_resolve(n, st.table, t1);
                let r2 = run_resolve(n, st.table, t2);
                r1 is Some && r2 is Some && fails(out, st2, tail_err(err, r1->0, r2->0))
            },
        }
    }
}

/// A row with a binding is unified with another one by finding the binding in the latter, or adding
/// it there, then unifying the two types that the identifier is given, and then the rests.
pub proof fn law_sub_rows_binding(
    n: nat,
    st: St,
    id: Name,
    t: Option<Ty>,
    tail: Ty,
    row: Ty,
    mid: St,
    t2: Option<Ty>,
    rest: Ty,
    mid2: St,
)
    requires
        row is RowExtend,
    ensures
        ({
            let out = run_sub_rows(n + 1, st, binding(id, t, tail), row);
            let found = run_row_add(n, st, id, t, row);
            &&& found is None ==> out is None
            &&& found matches Some((st2, Err(err))) ==> fails(out, st2, err)
            &&& found == Some((mid, Ok::<(Option<Ty>, Ty), RowErr>((t2, rest)))) ==> match (t, t2) {
                (None, None) => tails_give(n, mid, tail, rest, out),
                (Some(a), Some(b)) => {
                    &&& run_sub(n, mid, a, b) is None ==> out is None
                    &&& forall|err: UErr| #[trigger]
                        fails(run_sub(n, mid, a, b), mid2, err) ==> fails(
                            out,
                            mid2,
                            RowErr::RowMismatch(id, err),
                        )
                    &&& succeeds(run_sub(n, mid, a, b), mid2) ==> tails_give(
                        n,
                        mid2,
                        tail,
                        rest,
                        out,
                    )
                },
                _ => fails(out, mid, RowErr::RowKindMismatch(id, t, t2)),
            }
        }),
{
    let t1 = binding(id, t, tail);
    let found = run_row_add(n, st, id, t, row);
    if let Some((mid, Ok((t2, rest)))) = found {
        lemma_tails(n, mid, tail, rest);
        if let (Some(a), Some(b)) = (t, t2) {
            if let Some((mid2, Ok(()))) = run_sub(n, mid, a, b) {
                lemma_tails(n, mid2, tail, rest);
            }
        }
    }
}

/// The outcome of unifying the tails of two rows.
proof fn lemma_tails(n: nat, st: St, t1: Ty, t2: Ty)
    ensures
        tails_give(n, st, t1, t2, run_sub_tails(n + 1, st, t1, t2)),
{
    if !(t1.is_concrete() && t2.is_concrete()) {
        if run_sub(n, st, t1, t2) is Some {
            lemma_resolve_more(n, st.table, t1);
            lemma_resolve_more(n, st.table, t2);
        }
    }
}

/// A representative that is found within a bound is found within a larger one.
proof fn lemma_resolve_more(n: nat, table: Table, ty: Ty)
    requires
        n > 0,
        run_resolve((n - 1) as nat, table, ty) is Some,
    ensures
        run_resolve(n, table, ty) is Some,
{
    if let Ty::Ptr(p) = ty {
        law_root_depth((n - 1) as nat, n, table, p);
    }
}

/// Whether the types of bindings can be unified with a type one after the other, from a state to
/// another.
pub open spec fn accepted_in_turn(
    n: nat,
    st: St,
    fields: Seq<(Name, Ty)>,
    ty: Ty,
    last: St,
) -> bool
    decreases fields.len(),
{
    if fields.len() == 0 {
        last == st
    } else {
        match run_sub(n, st, fields[0].1, ty) {
            Some((mid, Ok(()))) => accepted_in_turn(n, mid, fields.drop_first(), ty, last),
            _ => false,
        }
    }
}

/// A record can be unified with a dictionary when the types of its fields, whatever they are, can
/// be unified with the type of the elements one after the other. The resulting state is the one
/// that this gives.
pub proof fn law_record_below_dict(n: nat, st: St, row: Ty, ty: Ty, last: St)
    requires
        is_closed_record(row),
        accepted_in_turn(n, st, bindings(row), ty, last),
    ensures
        succeeds(run_sub_dyn_record(n + bindings(row).len() + 1, st, row, ty), last),
        succeeds(
            run_sub(
                n + bindings(row).len() + 2,
                st,
                Ty::StaticRecord(Box::new(row)),
                Ty::DynRecord(Box::new(ty)),
            ),
            last,
        ),
{
    lemma_in_turn(n, st, row, ty, last);
}

/// The same, for the row.
proof fn lemma_in_turn(n: nat, st: St, row: Ty, ty: Ty, last: St)
    requires
        is_closed_record(row),
        accepted_in_turn(n, st, bindings(row), ty, last),
    ensures
        succeeds(run_sub_dyn_record(n + bindings(row).len() + 1, st, row, ty), last),
    decreases row,
{
    if let Ty::RowExtend(id, Some(t), tail) = row {
        let fields = bindings(row);
        assert(fields[0] == (id, *t));
        assert(fields.drop_first() =~= bindings(*tail));
        let mid = (run_sub(n, st, *t, ty)->0).0;
        law_sub_depth(n, n + fields.len(), st, *t, ty);
        lemma_in_turn(n, mid, *tail, ty, last);
    }
}

/// Only such a record can be unified with a dictionary. The error is the one of the first field
/// whose type cannot be unified.
pub proof fn law_record_below_dict_only(n: nat, st: St, row: Ty, ty: Ty, last: St)
    requires
        is_closed_record(row),
    ensures
        succeeds(run_sub_dyn_record(n, st, row, ty), last) ==> accepted_in_turn(
            n,
            st,
            bindings(row),
            ty,
            last,
        ),
        forall|err: RowErr| #[trigger]
            fails(run_sub_dyn_record(n, st, row, ty), last, err) ==> stops_at(
                n,
                st,
                bindings(row),
                ty,
                last,
                err,
            ),
    decreases n,
{
    let m = (n - 1) as nat;
    if n > 0 {
        if let Ty::RowExtend(id, Some(t), tail) = row {
            let fields = bindings(row);
            assert(fields[0] == (id, *t));
            assert(fields.drop_first() =~= bindings(*tail));
            if run_sub(m, st, *t, ty) is Some {
                law_sub_depth(m, n, st, *t, ty);
                if let Some((mid, Ok(()))) = run_sub(m, st, *t, ty) {
                    law_record_below_dict_only(m, mid, *tail, ty, last);
                    lemma_in_turn_more(m, n, mid, bindings(*tail), ty, last);
                }
            }
        }
    }
}

/// Whether the types of bindings can be unified with a type one after the other up to one that
/// cannot, with the error for it.
pub open spec fn stops_at(
    n: nat,
    st: St,
    fields: Seq<(Name, Ty)>,
    ty: Ty,
    last: St,
    err: RowErr,
) -> bool
    decreases fields.len(),
{
    if fields.len() == 0 {
        false
    } else {
        match run_sub(n, st, fields[0].1, ty) {
            Some((mid, Ok(()))) => stops_at(n, mid, fields.drop_first(), ty, last, err),
            Some((mid, Err(e))) => mid == last && err == RowErr::RowMismatch(fields[0].0, e),
            None => false,
        }
    }
}

/// What is accepted within a bound is accepted within a larger one.
proof fn lemma_in_turn_more(m: nat, n: nat, st: St, fields: Seq<(Name, Ty)>, ty: Ty, last: St)
    requires
        m <= n,
    ensures
        accepted_in_turn(m, st, fields, ty, last) ==> accepted_in_turn(n, st, fields, ty, last),
        forall|err: RowErr| #[trigger]
            stops_at(m, st, fields, ty, last, err) ==> stops_at(n, st, fields, ty, last, err),
    decreases fields.len(),
{
    if fields.len() > 0 && run_sub(m, st, fields[0].1, ty) is Some {
        law_sub_depth(m, n, st, fields[0].1, ty);
        let mid = (run_sub(m, st, fields[0].1, ty)->0).0;
        let rest = fields.drop_first();
        lemma_in_turn_more(m, n, mid, rest, ty, last);
        assert forall|err: RowErr| #[trigger]
            stops_at(m, st, fields, ty, last, err) implies stops_at(
            n,
            st,
            fields,
            ty,
            last,
            err,
        ) by {
            if (run_sub(m, st, fields[0].1, ty)->0).1 is Ok {
                assert(stops_at(m, mid, rest, ty, last, err));
            }
        }
    }
}

/// A record row that starts with a field, whatever its end, is unified with a dictionary type by
/// the type of the field and then by the rest of the row.
pub proof fn law_dict_field(
    n: nat,
    st: St,
    id: Name,
    t: Ty,
    tail: Ty,
    ty: Ty,
    mid: St,
    err: UErr,
)
    ensures
        ({
            let out = run_sub_dyn_record(n + 1, st, binding(id, Some(t), tail), ty);
            let first = run_sub(n, st, t, ty);
            &&& first is None ==> out is None
            &&& fails(first, mid, err) ==> fails(out, mid, RowErr::RowMismatch(id, err))
            &&& succeeds(first, mid) ==> out == run_sub_dyn_record(n, mid, tail, ty)
        }),
{
}

/// A record is unified with a dictionary as its row is, and the error of the row is reported
/// between the record and the dictionary.
pub proof fn law_record_dict(n: nat, st: St, row: Ty, ty: Ty, last: St, err: RowErr)
    ensures
        ({
            let t1 = Ty::StaticRecord(Box::new(row));
            let t2 = Ty::DynRecord(Box::new(ty));
            let out = run_sub(n + 1, st, t1, t2);
            let fields = run_sub_dyn_record(n, st, row, ty);
            &&& fields is None ==> out is None
            &&& succeeds(fields, last) ==> succeeds(out, last)
            &&& fails(fields, last, err) ==> fails(out, last, unif_err(err, t1, t2))
        }),
{
}

/// How the end of a record row is unified with a dictionary type: the empty row always is, the tail
/// `Dyn` must be accepted for the type of the elements, a row variable is accepted for `Dyn` only,
/// and a constant never. What is no record row is ill-formed.
pub proof fn law_dict_ends(n: nat, st: St, ty: Ty, p: usize, c: usize, id: Name, tail: Ty)
    ensures
        succeeds(run_sub_dyn_record(n + 1, st, Ty::RowEmpty, ty), st),
        run_sub(n, st, Ty::Dyn, ty) is None ==> run_sub_dyn_record(n + 1, st, Ty::Dyn, ty) is None,
        forall|last: St| #[trigger]
            succeeds(run_sub(n, st, Ty::Dyn, ty), last) ==> succeeds(
                run_sub_dyn_record(n + 1, st, Ty::Dyn, ty),
                last,
            ),
        forall|last: St, err: UErr| #[trigger]
            fails(run_sub(n, st, Ty::Dyn, ty), last, err) ==> fails(
                run_sub_dyn_record(n + 1, st, Ty::Dyn, ty),
                last,
                RowErr::ExtraDynTail,
            ),
        ty is Dyn ==> succeeds(run_sub_dyn_record(n + 1, st, Ty::Ptr(p), ty), st),
        !(ty is Dyn) ==> fails(
            run_sub_dyn_record(n + 1, st, Ty::Ptr(p), ty),
            st,
            RowErr::UnsatConstr("<tail>"@, Some(ty)),
        ),
        fails(run_sub_dyn_record(n + 1, st, Ty::Constant(c), ty), st, RowErr::WithConst(c, ty)),
        fails(
            run_sub_dyn_record(n + 1, st, binding(id, None, tail), ty),
            st,
            RowErr::IllformedRow(binding(id, None, tail)),
        ),
        is_constructed(tail) || tail is Var ==> fails(
            run_sub_dyn_record(n + 1, st, tail, ty),
            st,
            RowErr::IllformedRow(tail),
        ),
{
}

} // verus!
