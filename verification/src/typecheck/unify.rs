//! Unification, with subtyping.
use vstd::prelude::*;

use crate::cache::ImportResolver;
use crate::identifier::Ident;
use crate::laws::subtyping::{is_subtype, law_check_sub_sound};
use crate::laws::table::{is_wf, law_later_table, law_sub_table};
use crate::model::{row_extend, unbox, Name, RowErr, St, Ty, UErr};
use crate::term::Term;
use crate::typecheck::errors::{unif_err, RowUnifError, UnifError};
use crate::typecheck::mk_typewrapper;
use crate::typecheck::state::{
    constr_unify, constraint_within, follow_row, full_row, inherit, max_depth, next_var,
    resolve_within, row_outcome, run_constraint, run_resolve, unify_constr, with_binding, with_var,
    State,
};
use crate::typecheck::wrapper::{clone_opt, concrete, opt_boxed, subst, unbox_opt, TypeWrapper};
use crate::types::AbsType;

verus! {

/// The outcome of looking for a binding in a row, or of adding a new one, within `n` nested calls.
pub open spec fn run_row_add(n: nat, st: St, id: Name, ty: Option<Ty>, r: Ty) -> Option<
    (St, Result<(Option<Ty>, Ty), RowErr>),
>
    decreases n,
{
    if n == 0 {
        None
    } else {
        let m = (n - 1) as nat;
        match run_resolve(m, st.table, r) {
            None => None,
            Some(Ty::RowEmpty) => Some((st, Err(RowErr::MissingRow(id)))),
            Some(Ty::Dyn) => Some((st, Err(RowErr::MissingRow(id)))),
            Some(Ty::RowExtend(id2, ty2, r2)) => if id == id2 {
                Some((st, Ok((unbox(ty2), *r2))))
            } else {
                match run_row_add(m, st, id, ty, *r2) {
                    None => None,
                    Some((st, Err(err))) => Some((st, Err(err))),
                    Some((st, Ok((extracted, subrow)))) => Some(
                        (st, Ok((extracted, Ty::RowExtend(id2, ty2, Box::new(subrow))))),
                    ),
                }
            },
            Some(Ty::Ptr(root)) => if st.constr.contains_key(root) && st.constr[root].contains(
                id,
            ) {
                Some((st, Err(RowErr::UnsatConstr(id, ty))))
            } else {
                let tail = Ty::Ptr(next_var(st.table));
                match run_constraint(m, with_var(st), tail, id) {
                    None => None,
                    Some((st, Err(err))) => Some((st, Err(err))),
                    Some((st2, Ok(()))) => {
                        let constr = inherit(st2.constr, root, next_var(st.table));
                        let st2 = St { constr, ..st2 };
                        Some((with_binding(st2, root, row_extend(id, ty, tail)), Ok((ty, tail))))
                    },
                }
            },
            Some(other) => Some((st, Err(RowErr::IllformedRow(other)))),
        }
    }
}

/// The outcome of unifying the variable `p` with a type; `left` and `right` are the two types in
/// the order in which they are unified. A row is checked against the constraints of `p` with all
/// its bindings: also with those of the variables that end it and are bound already. There are no
/// more of them than variables in the table.
pub open spec fn unify_var(st: St, p: usize, ty: Ty, left: Ty, right: Ty) -> (
    St,
    Result<(), UErr>,
) {
    let row = full_row(st.table.dom().len(), st.table, ty);
    let (constr, res) = unify_constr(st.constr, p, row);
    let st = St { constr, ..st };
    match res {
        Ok(()) => (with_binding(st, p, ty), Ok(())),
        Err(err) => (st, Err(unif_err(err, left, right))),
    }
}

/// The outcome of unifying two types, within `n` nested calls.
pub open spec fn run_sub(n: nat, st: St, t1: Ty, t2: Ty) -> Option<(St, Result<(), UErr>)>
    decreases n, 3nat,
{
    if n == 0 {
        None
    } else {
        let m = (n - 1) as nat;
        match (run_resolve(m, st.table, t1), run_resolve(m, st.table, t2)) {
            (Some(t1), Some(t2)) => run_sub_roots(n, st, t1, t2),
            _ => None,
        }
    }
}

/// The outcome of unifying two types that are their own representatives.
pub open spec fn run_sub_roots(n: nat, st: St, t1: Ty, t2: Ty) -> Option<(St, Result<(), UErr>)>
    decreases n, 2nat,
{
    match (t1, t2) {
        (Ty::Ptr(p), _) => if t2 == Ty::Ptr(p) {
            Some((st, Ok(())))
        } else {
            Some(unify_var(st, p, t2, t1, t2))
        },
        (_, Ty::Ptr(p)) => Some(unify_var(st, p, t1, t1, t2)),
        (Ty::Constant(i1), Ty::Constant(i2)) => if i1 == i2 {
            Some((st, Ok(())))
        } else {
            Some((st, Err(UErr::ConstMismatch(i1, i2))))
        },
        (_, Ty::Constant(i)) => Some((st, Err(UErr::WithConst(i, t1)))),
        (Ty::Constant(i), _) => Some((st, Err(UErr::WithConst(i, t2)))),
        _ => run_sub_concrete(n, st, t1, t2),
    }
}

/// The outcome of unifying two concrete types.
pub open spec fn run_sub_concrete(n: nat, st: St, t1: Ty, t2: Ty) -> Option<
    (St, Result<(), UErr>),
>
    decreases n, 1nat,
{
    if n == 0 {
        None
    } else {
        let m = (n - 1) as nat;
        match (t1, t2) {
            (_, Ty::Dyn) => Some((st, Ok(()))),
            (Ty::Num, Ty::Num) => Some((st, Ok(()))),
            (Ty::Bool, Ty::Bool) => Some((st, Ok(()))),
            (Ty::Str, Ty::Str) => Some((st, Ok(()))),
            (Ty::Sym, Ty::Sym) => Some((st, Ok(()))),
            (Ty::List(a), Ty::List(b)) => run_sub(m, st, *a, *b),
            (Ty::Arrow(s1, r1), Ty::Arrow(s2, r2)) => match run_sub(m, st, *s2, *s1) {
                None => None,
                Some((st, Err(err))) => Some(
                    (st, Err(UErr::DomainMismatch(t1, t2, Box::new(err)))),
                ),
                Some((st, Ok(()))) => match run_sub(m, st, *r1, *r2) {
                    None => None,
                    Some((st, Err(err))) => Some(
                        (st, Err(UErr::CodomainMismatch(t1, t2, Box::new(err)))),
                    ),
                    Some((st, Ok(()))) => Some((st, Ok(()))),
                },
            },
            (Ty::Flat(s), Ty::Flat(t)) => Some(
                (
                    st,
                    match (*s.term, *t.term) {
                        (Term::Var(x), Term::Var(y)) => if x@ == y@ {
                            Ok(())
                        } else {
                            Err(UErr::TypeMismatch(t1, t2))
                        },
                        (Term::Var(_), _) => Err(UErr::IllformedFlatType(t)),
                        _ => Err(UErr::IllformedFlatType(s)),
                    },
                ),
            ),
            (Ty::Enum(a), Ty::Enum(b)) => run_sub_row_types(n, st, *a, *b, t1, t2),
            (Ty::StaticRecord(a), Ty::StaticRecord(b)) => run_sub_row_types(
                n,
                st,
                *a,
                *b,
                t1,
                t2,
            ),
            (Ty::DynRecord(a), Ty::DynRecord(b)) => run_sub(m, st, *a, *b),
            (Ty::StaticRecord(a), Ty::DynRecord(b)) => lift(
                run_sub_dyn_record(m, st, *a, *b),
                t1,
                t2,
            ),
            (Ty::Forall(i1, a), Ty::Forall(i2, b)) => {
                let c = Ty::Constant(next_var(st.table));
                run_sub(m, with_var(st), subst(*a, i1, c), subst(*b, i2, c))
            },
            _ => if t1.is_row() && t2.is_row() {
                lift(run_sub_rows(m, st, t1, t2), t1, t2)
            } else if t1 is Var {
                Some((st, Err(UErr::UnboundTypeVariable(t1->Var_0))))
            } else if t2 is Var {
                Some((st, Err(UErr::UnboundTypeVariable(t2->Var_0))))
            } else {
                Some((st, Err(UErr::TypeMismatch(t1, t2))))
            },
        }
    }
}

/// The outcome of unifying the rows `a` and `b` of the two enum or record types `t1` and `t2`.
pub open spec fn run_sub_row_types(n: nat, st: St, a: Ty, b: Ty, t1: Ty, t2: Ty) -> Option<
    (St, Result<(), UErr>),
>
    decreases n, 0nat,
{
    if n == 0 {
        None
    } else {
        let m = (n - 1) as nat;
        if a.is_row() && b.is_row() {
            lift(run_sub_rows(m, st, a, b), t1, t2)
        } else if a.is_concrete() && !a.is_row() {
            Some((st, Err(UErr::IllformedType(t1))))
        } else if b.is_concrete() && !b.is_row() {
            Some((st, Err(UErr::IllformedType(t2))))
        } else {
            run_sub(m, st, a, b)
        }
    }
}

/// The outcome of a row unification, as one of the unification of `left` and `right`.
pub open spec fn lift(out: Option<(St, Result<(), RowErr>)>, left: Ty, right: Ty) -> Option<
    (St, Result<(), UErr>),
> {
    match out {
        None => None,
        Some((st, Ok(()))) => Some((st, Ok(()))),
        Some((st, Err(err))) => Some((st, Err(unif_err(err, left, right)))),
    }
}

/// The row unification error of a failure to unify the tails of two rows, whose representatives are
/// `t1` and `t2`: an error on constants or row constraints, or else a tail that is not a row, or
/// else the error of the unification of the two tails as rows.
pub open spec fn tail_err(err: UErr, t1: Ty, t2: Ty) -> RowErr {
    match err {
        UErr::ConstMismatch(c1, c2) => RowErr::ConstMismatch(c1, c2),
        UErr::WithConst(c, ty) => RowErr::WithConst(c, ty),
        UErr::RowConflict(id, ty, _, _) => RowErr::UnsatConstr(id, ty),
        _ => if !t1.is_row() {
            RowErr::IllformedRow(t1)
        } else if !t2.is_row() {
            RowErr::IllformedRow(t2)
        } else {
            match err {
                UErr::MissingRow(id, _, _) => RowErr::MissingRow(id),
                UErr::MissingDynTail(_, _) => RowErr::MissingDynTail,
                UErr::ExtraRow(id, _, _) => RowErr::ExtraRow(id),
                UErr::ExtraDynTail(_, _) => RowErr::ExtraDynTail,
                UErr::RowKindMismatch(id, ty1, ty2) => RowErr::RowKindMismatch(id, ty1, ty2),
                UErr::RowMismatch(id, _, _, err) => RowErr::RowMismatch(id, *err),
                UErr::IllformedRow(ty) => RowErr::IllformedRow(ty),
                _ => RowErr::IllformedRow(t1),
            }
        },
    }
}

/// The outcome of unifying two row types, within `n` nested calls.
pub open spec fn run_sub_rows(n: nat, st: St, t1: Ty, t2: Ty) -> Option<(St, Result<(), RowErr>)>
    decreases n, 1nat,
{
    if n == 0 {
        None
    } else {
        let m = (n - 1) as nat;
        match (t1, t2) {
            (Ty::RowEmpty, Ty::RowEmpty) => Some((st, Ok(()))),
            (Ty::Dyn, Ty::Dyn) => Some((st, Ok(()))),
            (Ty::RowEmpty, Ty::Dyn) => Some((st, Err(RowErr::ExtraDynTail))),
            (Ty::Dyn, Ty::RowEmpty) => Some((st, Err(RowErr::MissingDynTail))),
            (Ty::RowEmpty, Ty::RowExtend(id, _, _)) => Some((st, Err(RowErr::ExtraRow(id)))),
            (Ty::Dyn, Ty::RowExtend(id, _, _)) => Some((st, Err(RowErr::ExtraRow(id)))),
            (Ty::RowExtend(id, _, _), Ty::Dyn) => Some((st, Err(RowErr::MissingRow(id)))),
            (Ty::RowExtend(id, _, _), Ty::RowEmpty) => Some((st, Err(RowErr::MissingRow(id)))),
            (Ty::RowExtend(id, ty, tail), Ty::RowExtend(_, _, _)) => match run_row_add(
                m,
                st,
                id,
                unbox(ty),
                t2,
            ) {
                None => None,
                Some((st, Err(err))) => Some((st, Err(err))),
                Some((st, Ok((ty2, tail2)))) => match (unbox(ty), ty2) {
                    (None, None) => run_sub_tails(n, st, *tail, tail2),
                    (Some(a), Some(b)) => match run_sub(m, st, a, b) {
                        None => None,
                        Some((st, Err(err))) => Some((st, Err(RowErr::RowMismatch(id, err)))),
                        Some((st, Ok(()))) => run_sub_tails(n, st, *tail, tail2),
                    },
                    (a, b) => Some((st, Err(RowErr::RowKindMismatch(id, a, b)))),
                },
            },
            _ => if !t1.is_row() {
                Some((st, Err(RowErr::IllformedRow(t1))))
            } else {
                Some((st, Err(RowErr::IllformedRow(t2))))
            },
        }
    }
}

/// The outcome of unifying the tails of two rows.
pub open spec fn run_sub_tails(n: nat, st: St, t1: Ty, t2: Ty) -> Option<(St, Result<(), RowErr>)>
    decreases n, 0nat,
{
    if n == 0 {
        None
    } else {
        let m = (n - 1) as nat;
        if t1.is_concrete() && t2.is_concrete() {
            run_sub_rows(m, st, t1, t2)
        } else {
            match (run_resolve(m, st.table, t1), run_resolve(m, st.table, t2)) {
                (Some(r1), Some(r2)) => match run_sub(m, st, t1, t2) {
                    None => None,
                    Some((st, Ok(()))) => Some((st, Ok(()))),
                    Some((st, Err(err))) => Some((st, Err(tail_err(err, r1, r2)))),
                },
                _ => None,
            }
        }
    }
}

/// The name under which a row tail is reported that has no upper bound.
pub open spec fn tail_name() -> Name {
    "<tail>"@
}

/// The outcome of unifying a record row with a dictionary type of `ty`, within `n` nested calls.
pub open spec fn run_sub_dyn_record(n: nat, st: St, row: Ty, ty: Ty) -> Option<
    (St, Result<(), RowErr>),
>
    decreases n, 0nat,
{
    if n == 0 {
        None
    } else {
        let m = (n - 1) as nat;
        match row {
            Ty::RowEmpty => Some((st, Ok(()))),
            Ty::Dyn => match run_sub(m, st, Ty::Dyn, ty) {
                None => None,
                Some((st, Ok(()))) => Some((st, Ok(()))),
                Some((st, Err(_))) => Some((st, Err(RowErr::ExtraDynTail))),
            },
            Ty::RowExtend(id, Some(a), tail) => match run_sub(m, st, *a, ty) {
                None => None,
                Some((st, Err(err))) => Some((st, Err(RowErr::RowMismatch(id, err)))),
                Some((st, Ok(()))) => run_sub_dyn_record(m, st, *tail, ty),
            },
            Ty::Ptr(_) => if ty is Dyn {
                Some((st, Ok(())))
            } else {
                Some((st, Err(RowErr::UnsatConstr(tail_name(), Some(ty)))))
            },
            Ty::Constant(c) => Some((st, Err(RowErr::WithConst(c, ty)))),
            _ => Some((st, Err(RowErr::IllformedRow(row)))),
        }
    }
}

/// The outcome of a run that finds or adds a binding in a row.
pub open spec fn row_add_outcome(
    res: Option<Result<(Option<Box<TypeWrapper>>, TypeWrapper), RowUnifError>>,
    st: St,
) -> Option<(St, Result<(Option<Ty>, Ty), RowErr>)> {
    match res {
        Some(Ok((ty, tail))) => Some((st, Ok((opt_boxed(ty), tail@)))),
        Some(Err(err)) => Some((st, Err(err@))),
        None => None,
    }
}

/// The outcome of a run that may fail with a unification error.
pub open spec fn sub_outcome(res: Option<Result<(), UnifError>>, st: St) -> Option<
    (St, Result<(), UErr>),
> {
    match res {
        Some(Ok(())) => Some((st, Ok(()))),
        Some(Err(err)) => Some((st, Err(err@))),
        None => None,
    }
}

/// Look for a binding in a row, or add a new one, within `limit` nested calls.
pub fn row_add_within<R: ImportResolver>(
    limit: usize,
    state: &mut State<R>,
    id: &Ident,
    ty: Option<Box<TypeWrapper>>,
    r: TypeWrapper,
) -> (res: Option<Result<(Option<Box<TypeWrapper>>, TypeWrapper), RowUnifError>>)
    ensures
        row_add_outcome(res, final(state)@) == run_row_add(
            limit as nat,
            old(state)@,
            id@,
            opt_boxed(ty),
            r@,
        ),
    decreases limit,
{
    broadcast use vstd::std_specs::hash::group_hash_axioms;

    if limit == 0 {
        return None;
    }
    match resolve_within(limit - 1, &state.table, r) {
        None => None,
        Some(TypeWrapper::Concrete(AbsType::RowEmpty()))
        | Some(TypeWrapper::Concrete(AbsType::Dyn())) => Some(
            Err(RowUnifError::MissingRow(id.clone())),
        ),
        Some(TypeWrapper::Concrete(AbsType::RowExtend(id2, ty2, r2))) => {
            if id.same(&id2) {
                return Some(Ok((ty2, *r2)));
            }
            match row_add_within(limit - 1, state, id, ty, *r2) {
                None => None,
                Some(Err(err)) => Some(Err(err)),
                Some(Ok((extracted_type, subrow))) => Some(
                    Ok(
                        (
                            extracted_type,
                            TypeWrapper::Concrete(AbsType::RowExtend(id2, ty2, Box::new(subrow))),
                        ),
                    ),
                ),
            }
        },
        Some(TypeWrapper::Ptr(root)) => {
            let forbidden = match state.constr.get(&root) {
                Some(set) => set.contains(id),
                None => false,
            };
            if forbidden {
                return Some(Err(RowUnifError::UnsatConstr(id.clone(), unbox_opt(ty))));
            }
            let tail = state.fresh();
            let new_row = TypeWrapper::Ptr(tail);
            match constraint_within(limit - 1, state, new_row.clone(), id.clone()) {
                None => None,
                Some(Err(err)) => Some(Err(err)),
                Some(Ok(())) => {
                    // The tail is what is left of the row: whatever the row must not contain, the
                    // tail must not contain either.
                    state.inherit(root, tail);
                    state.bind(
                        root,
                        TypeWrapper::Concrete(
                            AbsType::RowExtend(
                                id.clone(),
                                clone_opt(&ty),
                                Box::new(new_row.clone()),
                            ),
                        ),
                    );
                    Some(Ok((ty, new_row)))
                },
            }
        },
        Some(other) => Some(Err(RowUnifError::IllformedRow(other))),
    }
}

/// Look for a binding in a row, or add a new one if it is not present and if allowed by the row
/// constraints.
///
/// The row may be given as a concrete type or as a unification variable.
///
/// # Return
///
/// The type newly bound to `id` in the row together with the tail of the new row. If `id` was
/// already in `r`, it does not change the binding and return the corresponding type instead as a
/// first component.
pub fn row_add<R: ImportResolver>(
    state: &mut State<R>,
    id: &Ident,
    ty: Option<Box<TypeWrapper>>,
    r: TypeWrapper,
) -> (res: Result<(Option<Box<TypeWrapper>>, TypeWrapper), RowUnifError>)
    requires
        run_row_add(max_depth(), old(state)@, id@, opt_boxed(ty), r@) is Some,
    ensures
        row_add_outcome(Some(res), final(state)@) == run_row_add(
            max_depth(),
            old(state)@,
            id@,
            opt_boxed(ty),
            r@,
        ),
{
    row_add_within(usize::MAX, state, id, ty, r).unwrap()
}

/// Unify a variable with a type; `left` and `right` are the two types in the order in which they
/// are unified.
///
/// The end of a row may be a variable that is bound already: the row constraints are those of the
/// whole row, hence they are checked on, and handed down to, what this variable stands for.
fn unify_var_with<R: ImportResolver>(
    state: &mut State<R>,
    p: usize,
    tyw: TypeWrapper,
    left: TypeWrapper,
    right: TypeWrapper,
) -> (res: Result<(), UnifError>)
    ensures
        sub_outcome(Some(res), final(state)@) == Some(
            unify_var(old(state)@, p, tyw@, left@, right@),
        ),
{
    let row = follow_row(state.table.len(), &state.table, &tyw);
    assert(state@.table.dom() =~= state.table@.dom());
    match constr_unify(&mut state.constr, p, &row) {
        Err(err) => Err(err.into_unif_err(left, right)),
        Ok(()) => {
            state.bind(p, tyw);
            Ok(())
        },
    }
}

/// The outcome of a row unification, as one of the unification of `left` and `right`.
fn lift_res(res: Option<Result<(), RowUnifError>>, left: TypeWrapper, right: TypeWrapper) -> (out:
    Option<Result<(), UnifError>>)
    ensures
        forall|st: St|
            #![trigger sub_outcome(out, st)]
            sub_outcome(out, st) == lift(row_outcome(res, st), left@, right@),
{
    match res {
        None => None,
        Some(Ok(())) => Some(Ok(())),
        Some(Err(err)) => Some(Err(err.into_unif_err(left, right))),
    }
}

/// Try to unify two types, within `limit` nested calls.
pub fn check_sub_within_<R: ImportResolver>(
    limit: usize,
    state: &mut State<R>,
    t1: TypeWrapper,
    t2: TypeWrapper,
) -> (res: Option<Result<(), UnifError>>)
    ensures
        sub_outcome(res, final(state)@) == run_sub(limit as nat, old(state)@, t1@, t2@),
    decreases limit, 3nat,
{
    if limit == 0 {
        return None;
    }
    let t1 = match resolve_within(limit - 1, &state.table, t1) {
        Some(t1) => t1,
        None => return None,
    };
    let t2 = match resolve_within(limit - 1, &state.table, t2) {
        Some(t2) => t2,
        None => return None,
    };
    check_sub_roots(limit, state, t1, t2)
}

/// Try to unify two types that are their own representatives.
fn check_sub_roots<R: ImportResolver>(
    limit: usize,
    state: &mut State<R>,
    t1: TypeWrapper,
    t2: TypeWrapper,
) -> (res: Option<Result<(), UnifError>>)
    ensures
        sub_outcome(res, final(state)@) == run_sub_roots(limit as nat, old(state)@, t1@, t2@),
    decreases limit, 2nat,
{
    match (t1, t2) {
        (TypeWrapper::Concrete(s1), TypeWrapper::Concrete(s2)) => check_sub_concrete(
            limit,
            state,
            s1,
            s2,
        ),
        // The two following cases are not merged just to correctly distinguish between the
        // expected type (first component of the tuple) and the inferred type when reporting a row
        // unification error.
        (TypeWrapper::Ptr(p), tyw) => {
            if let TypeWrapper::Ptr(p2) = tyw {
                if p == p2 {
                    return Some(Ok(()));
                }
            }
            Some(unify_var_with(state, p, tyw.clone(), TypeWrapper::Ptr(p), tyw))
        },
        (tyw, TypeWrapper::Ptr(p)) => Some(
            unify_var_with(state, p, tyw.clone(), tyw, TypeWrapper::Ptr(p)),
        ),
        (TypeWrapper::Constant(i1), TypeWrapper::Constant(i2)) => {
            if i1 == i2 {
                Some(Ok(()))
            } else {
                Some(Err(UnifError::ConstMismatch(i1, i2)))
            }
        },
        (ty, TypeWrapper::Constant(i)) => Some(Err(UnifError::WithConst(i, ty))),
        (TypeWrapper::Constant(i), ty) => Some(Err(UnifError::WithConst(i, ty))),
    }
}

/// Try to unify two concrete types.
fn check_sub_concrete<R: ImportResolver>(
    limit: usize,
    state: &mut State<R>,
    s1: AbsType<Box<TypeWrapper>>,
    s2: AbsType<Box<TypeWrapper>>,
) -> (res: Option<Result<(), UnifError>>)
    ensures
        sub_outcome(res, final(state)@) == run_sub_concrete(
            limit as nat,
            old(state)@,
            concrete(s1),
            concrete(s2),
        ),
    decreases limit, 1nat,
{
    if limit == 0 {
        return None;
    }
    match (s1, s2) {
        // Subtyping rule: T <: Dyn (for any concrete type T)
        (_, AbsType::Dyn()) => Some(Ok(())),
        (AbsType::Num(), AbsType::Num()) => Some(Ok(())),
        (AbsType::Bool(), AbsType::Bool()) => Some(Ok(())),
        (AbsType::Str(), AbsType::Str()) => Some(Ok(())),
        (AbsType::List(tyw1), AbsType::List(tyw2)) => check_sub_within_(
            limit - 1,
            state,
            *tyw1,
            *tyw2,
        ),
        (AbsType::Sym(), AbsType::Sym()) => Some(Ok(())),
        (AbsType::Arrow(s1s, s1t), AbsType::Arrow(s2s, s2t)) => {
            match check_sub_within_(limit - 1, state, (*s2s).clone(), (*s1s).clone()) {
                None => None,
                Some(Err(err)) => Some(
                    Err(
                        UnifError::DomainMismatch(
                            TypeWrapper::Concrete(AbsType::Arrow(s1s, s1t)),
                            TypeWrapper::Concrete(AbsType::Arrow(s2s, s2t)),
                            Box::new(err),
                        ),
                    ),
                ),
                Some(Ok(())) => match check_sub_within_(
                    limit - 1,
                    state,
                    (*s1t).clone(),
                    (*s2t).clone(),
                ) {
                    None => None,
                    Some(Err(err)) => Some(
                        Err(
                            UnifError::CodomainMismatch(
                                TypeWrapper::Concrete(AbsType::Arrow(s1s, s1t)),
                                TypeWrapper::Concrete(AbsType::Arrow(s2s, s2t)),
                                Box::new(err),
                            ),
                        ),
                    ),
                    Some(Ok(())) => Some(Ok(())),
                },
            }
        },
        (AbsType::Flat(s), AbsType::Flat(t)) => match (&*s.term, &*t.term) {
            (Term::Var(vs), Term::Var(ts)) => {
                if vs.same(ts) {
                    Some(Ok(()))
                } else {
                    Some(
                        Err(
                            UnifError::TypeMismatch(
                                TypeWrapper::Concrete(AbsType::Flat(s.clone())),
                                TypeWrapper::Concrete(AbsType::Flat(t.clone())),
                            ),
                        ),
                    )
                }
            },
            (Term::Var(_), _) => Some(Err(UnifError::IllformedFlatType(t.clone()))),
            _ => Some(Err(UnifError::IllformedFlatType(s.clone()))),
        },
        (AbsType::Enum(tyw1), AbsType::Enum(tyw2)) => {
            let left = TypeWrapper::Concrete(AbsType::Enum(tyw1.clone()));
            let right = TypeWrapper::Concrete(AbsType::Enum(tyw2.clone()));
            check_sub_row_types(limit, state, *tyw1, *tyw2, left, right)
        },
        (AbsType::StaticRecord(tyw1), AbsType::StaticRecord(tyw2)) => {
            let left = mk_typewrapper::record((*tyw1).clone());
            let right = mk_typewrapper::record((*tyw2).clone());
            check_sub_row_types(limit, state, *tyw1, *tyw2, left, right)
        },
        (AbsType::DynRecord(t), AbsType::DynRecord(t2)) => check_sub_within_(
            limit - 1,
            state,
            *t,
            *t2,
        ),
        // Subtyping rule: {l1 : T, .., ln : T} <: {_ : T}
        (AbsType::StaticRecord(tyw1), AbsType::DynRecord(tyw2)) => {
            let res = check_sub_dyn_record_within(
                limit - 1,
                state,
                (*tyw1).clone(),
                (*tyw2).clone(),
            );
            lift_res(res, mk_typewrapper::record(*tyw1), mk_typewrapper::dyn_record(*tyw2))
        },
        (AbsType::Forall(i1, t1t), AbsType::Forall(i2, t2t)) => {
            let constant_type = TypeWrapper::Constant(state.fresh());
            check_sub_within_(
                limit - 1,
                state,
                (*t1t).subst(i1, constant_type.clone()),
                (*t2t).subst(i2, constant_type),
            )
        },
        (r1, r2) => {
            if r1.is_row_type() && r2.is_row_type() {
                let res = check_sub_rows_within(limit - 1, state, r1.clone(), r2.clone());
                return lift_res(res, TypeWrapper::Concrete(r1), TypeWrapper::Concrete(r2));
            }
            match (r1, r2) {
                (AbsType::Var(ident), _) => Some(Err(UnifError::UnboundTypeVariable(ident))),
                (_, AbsType::Var(ident)) => Some(Err(UnifError::UnboundTypeVariable(ident))),
                (ty1, ty2) => Some(
                    Err(
                        UnifError::TypeMismatch(
                            TypeWrapper::Concrete(ty1),
                            TypeWrapper::Concrete(ty2),
                        ),
                    ),
                ),
            }
        },
    }
}

/// Try to unify the rows of the two enum or record types `left` and `right`.
fn check_sub_row_types<R: ImportResolver>(
    limit: usize,
    state: &mut State<R>,
    tyw1: TypeWrapper,
    tyw2: TypeWrapper,
    left: TypeWrapper,
    right: TypeWrapper,
) -> (res: Option<Result<(), UnifError>>)
    ensures
        sub_outcome(res, final(state)@) == run_sub_row_types(
            limit as nat,
            old(state)@,
            tyw1@,
            tyw2@,
            left@,
            right@,
        ),
    decreases limit, 0nat,
{
    if limit == 0 {
        return None;
    }
    match (tyw1, tyw2) {
        (TypeWrapper::Concrete(r1), TypeWrapper::Concrete(r2)) => {
            if !r1.is_row_type() {
                Some(Err(UnifError::IllformedType(left)))
            } else if !r2.is_row_type() {
                Some(Err(UnifError::IllformedType(right)))
            } else {
                let res = check_sub_rows_within(limit - 1, state, r1, r2);
                lift_res(res, left, right)
            }
        },
        (tyw1, tyw2) => {
            if let TypeWrapper::Concrete(r) = &tyw1 {
                if !r.is_row_type() {
                    return Some(Err(UnifError::IllformedType(left)));
                }
            }
            if let TypeWrapper::Concrete(r) = &tyw2 {
                if !r.is_row_type() {
                    return Some(Err(UnifError::IllformedType(right)));
                }
            }
            check_sub_within_(limit - 1, state, tyw1, tyw2)
        },
    }
}

/// Try to unify a record row with a dictionary type of `ty`, within `limit` nested calls.
pub fn check_sub_dyn_record_within<R: ImportResolver>(
    limit: usize,
    state: &mut State<R>,
    row: TypeWrapper,
    ty: TypeWrapper,
) -> (res: Option<Result<(), RowUnifError>>)
    ensures
        row_outcome(res, final(state)@) == run_sub_dyn_record(
            limit as nat,
            old(state)@,
            row@,
            ty@,
        ),
    decreases limit, 0nat,
{
    if limit == 0 {
        return None;
    }
    match row {
        TypeWrapper::Concrete(ty_row) => match ty_row {
            AbsType::RowEmpty() => Some(Ok(())),
            AbsType::Dyn() => match check_sub_within_(
                limit - 1,
                state,
                mk_typewrapper::dynamic(),
                ty,
            ) {
                None => None,
                Some(Ok(())) => Some(Ok(())),
                Some(Err(_)) => Some(Err(RowUnifError::ExtraDynTail())),
            },
            AbsType::RowExtend(id, Some(ty_row), tail) => {
                match check_sub_within_(limit - 1, state, *ty_row, ty.clone()) {
                    None => None,
                    Some(Err(err)) => Some(Err(RowUnifError::RowMismatch(id, err))),
                    Some(Ok(())) => check_sub_dyn_record_within(limit - 1, state, *tail, ty),
                }
            },
            ty => Some(Err(RowUnifError::IllformedRow(TypeWrapper::Concrete(ty)))),
        },
        // Currently, the tail of a record can only be one concrete type, Dyn. If the dynamic
        // record type is not Dyn, we can't unify the tail with it, so we just fail for now. In the
        // future, we can imagine having type constraints on row tails, keep the unification
        // variable and at the same time remembering the upper bound induced by this particular
        // subtyping constraint.
        TypeWrapper::Ptr(_p) => match ty {
            // We don't unify anything here, as a `Dyn` upper bound doesn't actually impose any
            // constraint
            TypeWrapper::Concrete(AbsType::Dyn()) => Some(Ok(())),
            ty => Some(Err(RowUnifError::UnsatConstr(Ident::new("<tail>"), Some(ty)))),
        },
        // Cannot constraint a rigid type variable, even if the upper bound is Dyn: otherwise, it
        // would violiate parametricity, which is enforced by contracts, and we would have
        // well-typed functions that could raise blame at runtime.
        TypeWrapper::Constant(var) => Some(Err(RowUnifError::WithConst(var, ty))),
    }
}

/// Try to unify two row types, within `limit` nested calls.
pub fn check_sub_rows_within<R: ImportResolver>(
    limit: usize,
    state: &mut State<R>,
    t1: AbsType<Box<TypeWrapper>>,
    t2: AbsType<Box<TypeWrapper>>,
) -> (res: Option<Result<(), RowUnifError>>)
    ensures
        row_outcome(res, final(state)@) == run_sub_rows(
            limit as nat,
            old(state)@,
            concrete(t1),
            concrete(t2),
        ),
    decreases limit, 1nat,
{
    if limit == 0 {
        return None;
    }
    match (t1, t2) {
        (AbsType::RowEmpty(), AbsType::RowEmpty()) => Some(Ok(())),
        (AbsType::Dyn(), AbsType::Dyn()) => Some(Ok(())),
        (AbsType::RowEmpty(), AbsType::Dyn()) => Some(Err(RowUnifError::ExtraDynTail())),
        (AbsType::Dyn(), AbsType::RowEmpty()) => Some(Err(RowUnifError::MissingDynTail())),
        (AbsType::RowEmpty(), AbsType::RowExtend(ident, _, _)) => Some(
            Err(RowUnifError::ExtraRow(ident)),
        ),
        (AbsType::Dyn(), AbsType::RowExtend(ident, _, _)) => Some(
            Err(RowUnifError::ExtraRow(ident)),
        ),
        (AbsType::RowExtend(ident, _, _), AbsType::Dyn()) => Some(
            Err(RowUnifError::MissingRow(ident)),
        ),
        (AbsType::RowExtend(ident, _, _), AbsType::RowEmpty()) => Some(
            Err(RowUnifError::MissingRow(ident)),
        ),
        (AbsType::RowExtend(id, ty, t), AbsType::RowExtend(id2, ty2, t2)) => {
            let r2 = TypeWrapper::Concrete(AbsType::RowExtend(id2, ty2, t2));
            let (ty2, t2_tail) = match row_add_within(
                limit - 1,
                state,
                &id,
                clone_opt(&ty),
                r2,
            ) {
                None => return None,
                Some(Err(err)) => return Some(Err(err)),
                Some(Ok(found)) => found,
            };
            match (ty, ty2) {
                (None, None) => check_sub_tails(limit, state, *t, t2_tail),
                (Some(ty), Some(ty2)) => match check_sub_within_(limit - 1, state, *ty, *ty2) {
                    None => None,
                    Some(Err(err)) => Some(Err(RowUnifError::RowMismatch(id, err))),
                    Some(Ok(())) => check_sub_tails(limit, state, *t, t2_tail),
                },
                (ty1, ty2) => Some(
                    Err(RowUnifError::RowKindMismatch(id, unbox_opt(ty1), unbox_opt(ty2))),
                ),
            }
        },
        (t1, t2) => {
            if !t1.is_row_type() {
                Some(Err(RowUnifError::IllformedRow(TypeWrapper::Concrete(t1))))
            } else {
                Some(Err(RowUnifError::IllformedRow(TypeWrapper::Concrete(t2))))
            }
        },
    }
}

/// Try to unify the tails of two rows.
fn check_sub_tails<R: ImportResolver>(
    limit: usize,
    state: &mut State<R>,
    t1_tail: TypeWrapper,
    t2_tail: TypeWrapper,
) -> (res: Option<Result<(), RowUnifError>>)
    ensures
        row_outcome(res, final(state)@) == run_sub_tails(
            limit as nat,
            old(state)@,
            t1_tail@,
            t2_tail@,
        ),
    decreases limit, 0nat,
{
    if limit == 0 {
        return None;
    }
    match (t1_tail, t2_tail) {
        (TypeWrapper::Concrete(r1_tail), TypeWrapper::Concrete(r2_tail)) => check_sub_rows_within(
            limit - 1,
            state,
            r1_tail,
            r2_tail,
        ),
        // If one of the tail is not a concrete type, it is either a unification variable
        // or a constant (rigid type variable). `check_sub_` already knows how to treat these
        // cases, so we delegate the work. However it returns `UnifError` instead of
        // `RowUnifError`, hence we have a bit of wrapping and unwrapping to do. Note that
        // since we are unifying types with a constant or a free unification variable somewhere,
        // the only unification errors that should be possible are related to constants or
        // row constraints. A variable that is bound already stands for its row, though.
        (t1_tail, t2_tail) => {
            let root1 = match resolve_within(limit - 1, &state.table, t1_tail.clone()) {
                Some(root1) => root1,
                None => return None,
            };
            let root2 = match resolve_within(limit - 1, &state.table, t2_tail.clone()) {
                Some(root2) => root2,
                None => return None,
            };
            match check_sub_within_(limit - 1, state, t1_tail, t2_tail) {
                None => None,
                Some(Ok(())) => Some(Ok(())),
                Some(Err(err)) => Some(Err(into_tail_err(err, root1, root2))),
            }
        },
    }
}

/// The row unification error of a failure to unify the tails of two rows, whose representatives are
/// `root1` and `root2`.
fn into_tail_err(err: UnifError, root1: TypeWrapper, root2: TypeWrapper) -> (res: RowUnifError)
    ensures
        res@ == tail_err(err@, root1@, root2@),
{
    match err {
        UnifError::ConstMismatch(c1, c2) => RowUnifError::ConstMismatch(c1, c2),
        UnifError::WithConst(c1, tyw) => RowUnifError::WithConst(c1, tyw),
        UnifError::RowConflict(id, tyw_opt, _, _) => RowUnifError::UnsatConstr(id, tyw_opt),
        err => {
            if !is_row(&root1) {
                return RowUnifError::IllformedRow(root1);
            }
            if !is_row(&root2) {
                return RowUnifError::IllformedRow(root2);
            }
            match err {
                UnifError::MissingRow(id, _, _) => RowUnifError::MissingRow(id),
                UnifError::MissingDynTail(_, _) => RowUnifError::MissingDynTail(),
                UnifError::ExtraRow(id, _, _) => RowUnifError::ExtraRow(id),
                UnifError::ExtraDynTail(_, _) => RowUnifError::ExtraDynTail(),
                UnifError::RowKindMismatch(id, tyw1, tyw2) => RowUnifError::RowKindMismatch(
                    id,
                    tyw1,
                    tyw2,
                ),
                UnifError::RowMismatch(id, _, _, err) => RowUnifError::RowMismatch(id, *err),
                UnifError::IllformedRow(tyw) => RowUnifError::IllformedRow(tyw),
                _ => RowUnifError::IllformedRow(root1),
            }
        },
    }
}

/// Whether a type is a row, or the tail `Dyn` of one.
fn is_row(tyw: &TypeWrapper) -> (res: bool)
    ensures
        res == tyw@.is_row(),
{
    match tyw {
        TypeWrapper::Concrete(ty) => ty.is_row_type(),
        _ => false,
    }
}

/// Try to unify two types.
///
/// When it succeeds on a well-formed table, the first type is a subtype of the second one under the
/// resulting table, which is well-formed too.
pub fn check_sub_<R: ImportResolver>(
    state: &mut State<R>,
    t1: TypeWrapper,
    t2: TypeWrapper,
) -> (res: Result<(), UnifError>)
    requires
        run_sub(max_depth(), old(state)@, t1@, t2@) is Some,
    ensures
        sub_outcome(Some(res), final(state)@) == run_sub(max_depth(), old(state)@, t1@, t2@),
        is_wf(old(state)@.table) ==> is_wf(final(state)@.table),
        is_wf(old(state)@.table) && res is Ok ==> is_subtype(
            final(state)@.table,
            old(state)@.table.dom().len(),
            t1@,
            t2@,
        ),
{
    let res = check_sub_within_(usize::MAX, state, t1, t2).unwrap();
    let _count: usize = state.var_count();
    proof {
        law_sub_table(max_depth(), old(state)@, t1@, t2@);
        if is_wf(old(state)@.table) {
            law_later_table(old(state)@.table, state@.table);
            if res is Ok {
                law_check_sub_sound(max_depth(), old(state)@, t1@, t2@, state@);
            }
        }
    }
    res
}

/// The outcome of unifying two types in strict mode, within `n` nested calls; in non strict mode,
/// nothing is unified.
pub open spec fn run_check_sub(n: nat, st: St, strict: bool, t1: Ty, t2: Ty) -> Option<
    (St, Result<(), UErr>),
> {
    if strict {
        run_sub(n, st, t1, t2)
    } else {
        Some((st, Ok(())))
    }
}

/// Try to unify two types in strict mode, within `limit` nested calls.
pub fn check_sub_within<R: ImportResolver>(
    limit: usize,
    state: &mut State<R>,
    strict: bool,
    t1: TypeWrapper,
    t2: TypeWrapper,
) -> (res: Option<Result<(), UnifError>>)
    ensures
        sub_outcome(res, final(state)@) == run_check_sub(
            limit as nat,
            old(state)@,
            strict,
            t1@,
            t2@,
        ),
{
    if strict {
        check_sub_within_(limit, state, t1, t2)
    } else {
        Some(Ok(()))
    }
}

/// Try to unify two types.
///
/// A wrapper around `check_sub_` which just checks if `strict` is set to true. If not, it directly
/// returns `Ok(())` without unifying anything.
pub fn check_sub<R: ImportResolver>(
    state: &mut State<R>,
    strict: bool,
    t1: TypeWrapper,
    t2: TypeWrapper,
) -> (res: Result<(), UnifError>)
    requires
        run_check_sub(max_depth(), old(state)@, strict, t1@, t2@) is Some,
    ensures
        sub_outcome(Some(res), final(state)@) == run_check_sub(
            max_depth(),
            old(state)@,
            strict,
            t1@,
            t2@,
        ),
{
    check_sub_within(usize::MAX, state, strict, t1, t2).unwrap()
}

/// Try to unify a record row with a dictionary type of `ty`: every field of the row must have the
/// type `ty`.
pub fn check_sub_dyn_record<R: ImportResolver>(
    state: &mut State<R>,
    row: TypeWrapper,
    ty: TypeWrapper,
) -> (res: Result<(), RowUnifError>)
    requires
        run_sub_dyn_record(max_depth(), old(state)@, row@, ty@) is Some,
    ensures
        row_outcome(Some(res), final(state)@) == run_sub_dyn_record(
            max_depth(),
            old(state)@,
            row@,
            ty@,
        ),
{
    check_sub_dyn_record_within(usize::MAX, state, row, ty).unwrap()
}

/// Try to unify two row types. Return an `IllformedRow` error if one of the given type is not a
/// row type.
pub fn check_sub_rows<R: ImportResolver>(
    state: &mut State<R>,
    t1: AbsType<Box<TypeWrapper>>,
    t2: AbsType<Box<TypeWrapper>>,
) -> (res: Result<(), RowUnifError>)
    requires
        run_sub_rows(max_depth(), old(state)@, concrete(t1), concrete(t2)) is Some,
    ensures
        row_outcome(Some(res), final(state)@) == run_sub_rows(
            max_depth(),
            old(state)@,
            concrete(t1),
            concrete(t2),
        ),
{
    check_sub_rows_within(usize::MAX, state, t1, t2).unwrap()
}

} // verus!
