//! What row constraints rule out, and what adding a binding to a row does.
use vstd::prelude::*;

use crate::identifier::Ident;
use crate::laws::subtyping::{lemma_root_is, root, row_pick};
use crate::model::{row_extend, Constr, Name, RowErr, St, Ty};
use crate::term::{distinct_ids, RichTerm};
use crate::typecheck::check::{cases_row, run_check, run_check_fields};
use crate::typecheck::envs::{in_scope, Scope};
use crate::typecheck::errors::unif_err;
use crate::typecheck::state::{
    hand_down, next_var, run_constrain_var, run_constraint, run_root, unify_constr, with_var,
};
use crate::typecheck::unify::{run_row_add, run_sub_rows, tail_err};

verus! {

/// The identifiers of a row, as far as it is given by its extensions.
pub open spec fn row_ids(ty: Ty) -> Set<Name>
    decreases ty,
{
    match ty {
        Ty::RowExtend(id, _, tail) => row_ids(*tail).insert(id),
        _ => Set::empty(),
    }
}

/// What ends a row.
pub open spec fn row_end(ty: Ty) -> Ty
    decreases ty,
{
    match ty {
        Ty::RowExtend(_, _, tail) => row_end(*tail),
        _ => ty,
    }
}

/// Whether the variable that ends a row, if it is another one than `p`, has the constraints `ids`
/// on top of those that it had.
pub open spec fn inherits(
    constr: Constr,
    constr2: Constr,
    ids: Set<Name>,
    p: usize,
    end: Ty,
) -> bool {
    match end {
        Ty::Ptr(u) => u != p ==> {
            &&& constr2.contains_key(u)
            &&& ids.subset_of(constr2[u])
            &&& constr.contains_key(u) ==> constr[u].subset_of(constr2[u])
        },
        _ => true,
    }
}

/// What handing constraints down a row does.
proof fn lemma_hand_down(constr: Constr, ids: Set<Name>, p: usize, ty: Ty)
    ensures
        ({
            let (constr2, res) = hand_down(constr, ids, p, ty);
            match res {
                Ok(()) => {
                    &&& ids.disjoint(row_ids(ty))
                    &&& inherits(constr, constr2, ids, p, row_end(ty))
                    &&& forall|u: usize|
                        #![trigger constr2.contains_key(u)]
                        #![trigger constr2[u]]
                        row_end(ty) != Ty::Ptr(u) ==> constr2.contains_key(u)
                            == constr.contains_key(u) && constr2[u] == constr[u]
                },
                Err(RowErr::UnsatConstr(id, _)) => {
                    &&& ids.contains(id)
                    &&& row_ids(ty).contains(id)
                    &&& constr2 == constr
                },
                Err(_) => false,
            }
        }),
    decreases ty,
{
    if let Ty::RowExtend(_, _, tail) = ty {
        lemma_hand_down(constr, ids, p, *tail);
    }
}

/// A variable is only unified with a row that has none of the identifiers that the constraints of
/// the variable forbid. A variable that ends the row inherits the constraints. The failure is
/// always such an identifier.
pub proof fn law_constr_unify(constr: Constr, p: usize, ty: Ty)
    requires
        constr.contains_key(p),
    ensures
        ({
            let (constr2, res) = unify_constr(constr, p, ty);
            match res {
                Ok(()) => {
                    &&& constr[p].disjoint(row_ids(ty))
                    &&& inherits(constr, constr2, constr[p], p, row_end(ty))
                },
                Err(RowErr::UnsatConstr(id, _)) => constr[p].contains(id) && row_ids(ty).contains(
                    id,
                ),
                Err(_) => false,
            }
        }),
{
    lemma_hand_down(constr.remove(p), constr[p], p, ty);
}

/// Unifying a variable with a type changes the constraints of the variable, and those of a variable
/// that ends the type, only.
pub proof fn law_constr_unify_others(constr: Constr, p: usize, ty: Ty, u: usize)
    requires
        u != p,
        row_end(ty) != Ty::Ptr(u),
    ensures
        ({
            let (constr2, _) = unify_constr(constr, p, ty);
            constr2.contains_key(u) == constr.contains_key(u) && constr2[u] == constr[u]
        }),
{
    if constr.contains_key(p) {
        lemma_hand_down(constr.remove(p), constr[p], p, ty);
        assert(constr.remove(p)[u] == constr[u]);
    }
}

/// A type that is neither a row nor a variable satisfies all row constraints.
pub proof fn law_constr_unify_not_row(constr: Constr, p: usize, ty: Ty)
    requires
        !(ty is RowExtend),
    ensures
        unify_constr(constr, p, ty).1 is Ok,
{
}

/// A row constraint is only accepted on a row that is not extended by the identifier. On a row that
/// ends with a free variable, it forbids the identifier to this variable. When it is violated, it
/// is by this identifier.
pub proof fn law_constraint(n: nat, st: St, ty: Ty, id: Name)
    requires
        run_constraint(n, st, ty, id) is Some,
    ensures
        ({
            let (st2, res) = run_constraint(n, st, ty, id)->0;
            &&& res is Ok ==> !row_ids(ty).contains(id)
            &&& res is Ok && row_end(ty) is Ptr ==> {
                let end = root(st.table, row_end(ty));
                end matches Some(Ty::Ptr(p)) ==> {
                    st2.constr.contains_key(p) && st2.constr[p].contains(id)
                }
            }
            &&& res matches Err(RowErr::UnsatConstr(id2, _)) ==> id2 == id
        }),
    decreases n,
{
    let m = (n - 1) as nat;
    match ty {
        Ty::Ptr(p) => {
            lemma_root_is(m, st.table, ty);
            match run_root(m, st.table, p) {
                Some(Ty::Ptr(_)) => {},
                Some(Ty::Constant(_)) => {},
                Some(ty) => law_constraint(m, st, ty, id),
                None => {},
            }
        },
        Ty::RowExtend(id2, _, tail) => if id2 != id {
            law_constraint(m, st, *tail, id);
        },
        _ => {},
    }
}

/// A binding that is already in a row is found there, and nothing changes.
pub proof fn law_row_add_present(
    n: nat,
    k: nat,
    st: St,
    id: Name,
    ty: Option<Ty>,
    r: Ty,
    ty2: Option<Ty>,
    rest: Ty,
)
    requires
        run_row_add(n, st, id, ty, r) is Some,
        row_pick(k, st.table, id, r) == Some((ty2, rest)),
    ensures
        run_row_add(n, st, id, ty, r) == Some((st, Ok::<(Option<Ty>, Ty), RowErr>((ty2, rest)))),
    decreases n,
{
    let m = (n - 1) as nat;
    lemma_root_is(m, st.table, r);
    if let Some(Ty::RowExtend(id2, _, r2)) = root(st.table, r) {
        if id != id2 {
            let (t, rest2) = row_pick((k - 1) as nat, st.table, id, *r2)->0;
            law_row_add_present(m, (k - 1) as nat, st, id, ty, *r2, t, rest2);
        }
    }
}

/// A binding is never added to a row that ends with a variable whose constraints forbid it, nor to
/// one that ends without a variable.
pub proof fn law_row_add_forbidden(n: nat, st: St, id: Name, ty: Option<Ty>, r: Ty)
    requires
        run_row_add(n, st, id, ty, r) is Some,
        !row_ids(r).contains(id),
        match row_end(r) {
            Ty::Ptr(p) => match root(st.table, row_end(r)) {
                Some(Ty::Ptr(p)) => st.constr.contains_key(p) && st.constr[p].contains(id),
                Some(end) => end is RowEmpty || end is Dyn,
                None => true,
            },
            end => end is RowEmpty || end is Dyn,
        },
    ensures
        ({
            let (st2, res) = run_row_add(n, st, id, ty, r)->0;
            &&& st2 == st
            &&& res == Err::<(Option<Ty>, Ty), RowErr>(RowErr::UnsatConstr(id, ty)) || res == Err::<
                (Option<Ty>, Ty),
                RowErr,
            >(RowErr::MissingRow(id))
        }),
    decreases n,
{
    let m = (n - 1) as nat;
    lemma_root_is(m, st.table, r);
    if let Ty::RowExtend(_, _, tail) = r {
        law_row_add_forbidden(m, st, id, ty, *tail);
    }
}

/// Adding the row constraints of a new variable changes the constraints of this variable only.
pub proof fn law_constrain_var_others(
    n: nat,
    st: St,
    ids: Set<Name>,
    ty: Ty,
    p: usize,
    u: usize,
)
    requires
        run_constrain_var(n, st, ids, ty, p) is Some,
        u != p,
    ensures
        ({
            let st2 = run_constrain_var(n, st, ids, ty, p)->0;
            st2.constr.contains_key(u) == st.constr.contains_key(u) && st2.constr[u]
                == st.constr[u]
        }),
    decreases n,
{
    let m = (n - 1) as nat;
    let none = Set::<Name>::empty();
    match ty {
        Ty::Ptr(v) => if !(p == v && ids != none) {
            match run_root(m, st.table, v) {
                Some(Ty::Ptr(_)) => {},
                Some(ty) => law_constrain_var_others(m, st, ids, ty, p, u),
                None => {},
            }
        },
        Ty::Arrow(s, t) => {
            law_constrain_var_others(m, st, none, *s, p, u);
            let st = run_constrain_var(m, st, none, *s, p)->0;
            law_constrain_var_others(m, st, none, *t, p, u);
        },
        Ty::Forall(_, t) => law_constrain_var_others(m, st, none, *t, p, u),
        Ty::List(t) => law_constrain_var_others(m, st, none, *t, p, u),
        Ty::RowExtend(id, t, rest) => {
            let ids = ids.insert(id);
            match t {
                None => law_constrain_var_others(m, st, ids, *rest, p, u),
                Some(t) => {
                    law_constrain_var_others(m, st, none, *t, p, u);
                    let st = run_constrain_var(m, st, none, *t, p)->0;
                    law_constrain_var_others(m, st, ids, *rest, p, u);
                },
            }
        },
        Ty::Enum(row) => law_constrain_var_others(m, st, ids, *row, p, u),
        Ty::StaticRecord(row) => law_constrain_var_others(m, st, ids, *row, p, u),
        Ty::DynRecord(t) => law_constrain_var_others(m, st, ids, *t, p, u),
        _ => {},
    }
}

/// Adding the row constraints of a new variable takes none of its constraints back.
pub proof fn law_constrain_var_keeps(n: nat, st: St, ids: Set<Name>, ty: Ty, p: usize)
    requires
        run_constrain_var(n, st, ids, ty, p) is Some,
        st.constr.contains_key(p),
    ensures
        ({
            let st2 = run_constrain_var(n, st, ids, ty, p)->0;
            st2.constr.contains_key(p) && st.constr[p].subset_of(st2.constr[p])
        }),
    decreases n,
{
    let m = (n - 1) as nat;
    let none = Set::<Name>::empty();
    match ty {
        Ty::Ptr(v) => if !(p == v && ids != none) {
            match run_root(m, st.table, v) {
                Some(Ty::Ptr(_)) => {},
                Some(ty) => law_constrain_var_keeps(m, st, ids, ty, p),
                None => {},
            }
        },
        Ty::Arrow(s, t) => {
            law_constrain_var_keeps(m, st, none, *s, p);
            law_constrain_var_keeps(m, run_constrain_var(m, st, none, *s, p)->0, none, *t, p);
        },
        Ty::Forall(_, t) => law_constrain_var_keeps(m, st, none, *t, p),
        Ty::List(t) => law_constrain_var_keeps(m, st, none, *t, p),
        Ty::RowExtend(id, t, rest) => {
            let ids = ids.insert(id);
            match t {
                None => law_constrain_var_keeps(m, st, ids, *rest, p),
                Some(t) => {
                    law_constrain_var_keeps(m, st, none, *t, p);
                    let st = run_constrain_var(m, st, none, *t, p)->0;
                    law_constrain_var_keeps(m, st, ids, *rest, p);
                },
            }
        },
        Ty::Enum(row) => law_constrain_var_keeps(m, st, ids, *row, p),
        Ty::StaticRecord(row) => law_constrain_var_keeps(m, st, ids, *row, p),
        Ty::DynRecord(t) => law_constrain_var_keeps(m, st, ids, *t, p),
        _ => {},
    }
}

/// Whether a type is a part of another, or the same.
pub open spec fn is_part(part: Ty, ty: Ty) -> bool
    decreases ty,
{
    part == ty || match ty {
        Ty::Arrow(s, t) => is_part(part, *s) || is_part(part, *t),
        Ty::Forall(_, t) => is_part(part, *t),
        Ty::List(t) => is_part(part, *t),
        Ty::RowExtend(_, t, rest) => (match t {
            Some(t) => is_part(part, *t),
            None => false,
        }) || is_part(part, *rest),
        Ty::Enum(row) => is_part(part, *row),
        Ty::StaticRecord(row) => is_part(part, *row),
        Ty::DynRecord(t) => is_part(part, *t),
        _ => false,
    }
}

/// A new variable that ends a row must not be given the identifiers of the row, nor those that
/// precede it.
proof fn lemma_constrain_var_row(n: nat, st: St, ids: Set<Name>, row: Ty, p: usize)
    requires
        run_constrain_var(n, st, ids, row, p) is Some,
        row_end(row) == Ty::Ptr(p),
        ids.union(row_ids(row)) != Set::<Name>::empty(),
    ensures
        ({
            let st2 = run_constrain_var(n, st, ids, row, p)->0;
            st2.constr.contains_key(p) && ids.union(row_ids(row)).subset_of(st2.constr[p])
        }),
    decreases n,
{
    let m = (n - 1) as nat;
    match row {
        Ty::RowExtend(id, t, rest) => {
            let ids2 = ids.insert(id);
            assert(ids2.union(row_ids(*rest)) =~= ids.union(row_ids(row)));
            let st2 = match t {
                None => st,
                Some(t) => run_constrain_var(m, st, Set::empty(), *t, p)->0,
            };
            lemma_constrain_var_row(m, st2, ids2, *rest, p);
        },
        _ => {
            assert(ids.union(row_ids(row)) =~= ids);
        },
    }
}

/// A new variable must not be given the identifiers of any row of the type that ends with it.
pub proof fn law_constrain_var_row(n: nat, st: St, ids: Set<Name>, ty: Ty, p: usize, row: Ty)
    requires
        run_constrain_var(n, st, ids, ty, p) is Some,
        is_part(row, ty),
        row is RowExtend,
        row_end(row) == Ty::Ptr(p),
    ensures
        ({
            let st2 = run_constrain_var(n, st, ids, ty, p)->0;
            st2.constr.contains_key(p) && row_ids(row).subset_of(st2.constr[p])
        }),
    decreases n,
{
    let m = (n - 1) as nat;
    let none = Set::<Name>::empty();
    if row == ty {
        assert(row_ids(row).contains(row->RowExtend_0));
        assert(ids.union(row_ids(row)).contains(row->RowExtend_0));
        lemma_constrain_var_row(n, st, ids, row, p);
    } else {
        match ty {
            Ty::Arrow(s, t) => {
                let mid = run_constrain_var(m, st, none, *s, p)->0;
                if is_part(row, *s) {
                    law_constrain_var_row(m, st, none, *s, p, row);
                    law_constrain_var_keeps(m, mid, none, *t, p);
                } else {
                    law_constrain_var_row(m, mid, none, *t, p, row);
                }
            },
            Ty::Forall(_, t) => law_constrain_var_row(m, st, none, *t, p, row),
            Ty::List(t) => law_constrain_var_row(m, st, none, *t, p, row),
            Ty::RowExtend(id, t, rest) => {
                let ids = ids.insert(id);
                match t {
                    None => law_constrain_var_row(m, st, ids, *rest, p, row),
                    Some(t) => {
                        let mid = run_constrain_var(m, st, none, *t, p)->0;
                        if is_part(row, *t) {
                            law_constrain_var_row(m, st, none, *t, p, row);
                            law_constrain_var_keeps(m, mid, ids, *rest, p);
                        } else {
                            law_constrain_var_row(m, mid, ids, *rest, p, row);
                        }
                    },
                }
            },
            Ty::Enum(t) => law_constrain_var_row(m, st, ids, *t, p, row),
            Ty::StaticRecord(t) => law_constrain_var_row(m, st, ids, *t, p, row),
            Ty::DynRecord(t) => law_constrain_var_row(m, st, ids, *t, p, row),
            _ => {},
        }
    }
}

/// A new tail that extends a row must contain neither the identifier that the row was extended
/// with, nor any that the row must not contain.
pub proof fn law_row_add_keeps_constraints(
    n: nat,
    st: St,
    id: Name,
    ty: Option<Ty>,
    r: Ty,
    p: usize,
    st2: St,
    ty2: Option<Ty>,
    rest: Ty,
)
    requires
        run_row_add(n, st, id, ty, r) == Some((st2, Ok::<(Option<Ty>, Ty), RowErr>((ty2, rest)))),
        root(st.table, r) == Some(Ty::Ptr(p)),
    ensures
        ({
            let tail = next_var(st.table);
            &&& rest == Ty::Ptr(tail)
            &&& st2.constr.contains_key(tail)
            &&& st2.constr[tail].contains(id)
            &&& st.constr.contains_key(p) ==> st.constr[p].subset_of(st2.constr[tail])
        }),
{
    lemma_root_is((n - 1) as nat, st.table, r);
}

/// When the tails of two rows stand for rows, the error of their unification is the one of the
/// unification of these rows.
pub proof fn law_tail_err(err: RowErr, t1: Ty, t2: Ty)
    requires
        t1.is_row(),
        t2.is_row(),
    ensures
        tail_err(unif_err(err, t1, t2), t1, t2) == err,
{
}

/// Whether no identifier is declared twice by the extensions of a row.
pub open spec fn is_distinct_row(row: Ty) -> bool
    decreases row,
{
    match row {
        Ty::RowExtend(id, _, tail) => !row_ids(*tail).contains(id) && is_distinct_row(*tail),
        _ => true,
    }
}

/// The row of a switch declares no identifier twice if no identifier occurs twice among its cases.
pub proof fn law_cases_row_distinct(cases: Seq<(Ident, RichTerm)>)
    requires
        distinct_ids(cases),
    ensures
        is_distinct_row(cases_row(cases)),
    decreases cases.len(),
{
    if cases.len() > 0 {
        let init = cases.drop_last();
        assert(distinct_ids(init)) by {
            assert forall|i: int, j: int| 0 <= i < j < init.len() implies (#[trigger] init[i]).0@
                != (#[trigger] init[j]).0@ by {
                assert(init[i] == cases[i] && init[j] == cases[j]);
            }
        }
        law_cases_row_distinct(init);
        let last = cases.last().0@;
        assert forall|i: int| 0 <= i < init.len() implies (#[trigger] init[i]).0@ != last by {
            assert(init[i] == cases[i] && cases[cases.len() - 1] == cases.last());
        }
        lemma_cases_row_ids(init, last);
    }
}

/// The row of a switch only has the identifiers of its cases.
proof fn lemma_cases_row_ids(cases: Seq<(Ident, RichTerm)>, id: Name)
    requires
        forall|i: int| 0 <= i < cases.len() ==> (#[trigger] cases[i]).0@ != id,
    ensures
        !row_ids(cases_row(cases)).contains(id),
    decreases cases.len(),
{
    if cases.len() > 0 {
        let init = cases.drop_last();
        assert forall|i: int| 0 <= i < init.len() implies (#[trigger] init[i]).0@ != id by {
            assert(init[i] == cases[i]);
        }
        lemma_cases_row_ids(init, id);
        assert(cases[cases.len() - 1].0@ != id);
    }
}

/// The row that is built for a record declares no identifier twice if no identifier occurs twice
/// among its fields.
pub proof fn law_fields_row_distinct(
    n: nat,
    st: St,
    scope: Scope,
    strict: bool,
    rec: bool,
    fields: Seq<(Ident, RichTerm)>,
)
    requires
        distinct_ids(fields),
    ensures
        run_check_fields(n, st, scope, strict, rec, fields, 0, Ty::RowEmpty) matches Some(
            (_, Ok(row)),
        ) ==> is_distinct_row(row),
{
    lemma_fields_row_distinct(n, st, scope, strict, rec, fields, 0, Ty::RowEmpty);
}

/// The same, for the fields from the `i`-th on, on top of a row.
proof fn lemma_fields_row_distinct(
    n: nat,
    st: St,
    scope: Scope,
    strict: bool,
    rec: bool,
    fields: Seq<(Ident, RichTerm)>,
    i: int,
    row: Ty,
)
    requires
        0 <= i <= fields.len(),
        distinct_ids(fields),
        is_distinct_row(row),
        forall|j: int| i <= j < fields.len() ==> !row_ids(row).contains((#[trigger] fields[j]).0@),
    ensures
        run_check_fields(n, st, scope, strict, rec, fields, i, row) matches Some((_, Ok(row2)))
            ==> is_distinct_row(row2),
    decreases fields.len() - i,
{
    if i < fields.len() {
        let (id, t) = fields[i];
        let ty = if rec {
            in_scope(scope, id@)->0
        } else {
            Ty::Ptr(next_var(st.table))
        };
        let st1 = if rec {
            st
        } else {
            with_var(st)
        };
        let st2 = (run_check(n, st1, scope, strict, t, ty)->0).0;
        let row2 = row_extend(id@, Some(ty), row);
        assert(row_ids(row2) == row_ids(row).insert(id@));
        assert forall|j: int| i + 1 <= j < fields.len() implies !row_ids(row2).contains(
            (#[trigger] fields[j]).0@,
        ) by {
            assert(fields[i].0@ != fields[j].0@);
        }
        lemma_fields_row_distinct(n, st2, scope, strict, rec, fields, i + 1, row2);
    }
}

/// Unifying two types as rows fails if one of them is not a row, with this type as the culprit.
pub proof fn law_sub_rows_illformed(n: nat, st: St, t1: Ty, t2: Ty)
    requires
        n > 0,
        !t1.is_row() || !t2.is_row(),
    ensures
        run_sub_rows(n, st, t1, t2) == Some(
            (
                st,
                Err::<(), RowErr>(
                    RowErr::IllformedRow(
                        if !t1.is_row() {
                            t1
                        } else {
                            t2
                        },
                    ),
                ),
            ),
        ),
{
}

} // verus!
