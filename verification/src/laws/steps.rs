//! How the helpers of unification act on the parts of types, rows and constraints.
use vstd::prelude::*;

use crate::laws::congruence::binding;
use crate::laws::rows::row_end;
use crate::laws::subtyping::succeeds;
use crate::model::{
    arrow, dict_of, enum_of, list_of, record_of, row_extend, unbox, Constr, Name, RowErr, St, Table,
    Ty,
};
use crate::term::RichTerm;
use crate::typecheck::check::run_to_type;
use crate::typecheck::instantiate::{run_instantiate, run_instantiate_heads, ForallInst};
use crate::typecheck::reporting::{run_report, run_report_opt, run_report_pair, Reg};
use crate::typecheck::state::{
    full_row, hand_down, initial, max_depth, next_var, run_constrain_var, run_constraint,
    run_resolve, run_root, unify_constr, with_binding, with_var,
};
use crate::typecheck::wrapper::{subst, TypeWrapper};
use crate::types::{AbsType, Types};

verus! {

/// Types are built by their constructors.
pub proof fn law_builders(s: Ty, t: Ty, id: Name)
    ensures
        arrow(s, t) == Ty::Arrow(Box::new(s), Box::new(t)),
        list_of(t) == Ty::List(Box::new(t)),
        dict_of(t) == Ty::DynRecord(Box::new(t)),
        enum_of(t) == Ty::Enum(Box::new(t)),
        record_of(t) == Ty::StaticRecord(Box::new(t)),
        row_extend(id, None, t) == Ty::RowExtend(id, None, Box::new(t)),
        row_extend(id, Some(s), t) == Ty::RowExtend(id, Some(Box::new(s)), Box::new(t)),
        unbox(None) is None,
        unbox(Some(Box::new(s))) == Some(s),
{
}

/// The kinds of types.
pub proof fn law_kinds(ty: Ty)
    ensures
        ty.is_concrete() <==> !(ty is Ptr || ty is Constant),
        ty.is_row() <==> ty is RowEmpty || ty is RowExtend || ty is Dyn,
{
}

/// The model of a type is made as the type is.
pub proof fn law_types_view(t: Types)
    ensures
        match t {
            Types::Dyn() => t@ == Ty::Dyn,
            Types::Num() => t@ == Ty::Num,
            Types::Bool() => t@ == Ty::Bool,
            Types::Str() => t@ == Ty::Str,
            Types::Sym() => t@ == Ty::Sym,
            Types::Flat(rt) => t@ == Ty::Flat(rt),
            Types::Arrow(a, b) => t@ == Ty::Arrow(Box::new((*a)@), Box::new((*b)@)),
            Types::Var(id) => t@ == Ty::Var(id@),
            Types::Forall(id, a) => t@ == Ty::Forall(id@, Box::new((*a)@)),
            Types::RowEmpty() => t@ == Ty::RowEmpty,
            Types::RowExtend(id, None, tail) => t@ == binding(id@, None, (*tail)@),
            Types::RowExtend(id, Some(a), tail) => t@ == binding(id@, Some((*a)@), (*tail)@),
            Types::Enum(a) => t@ == Ty::Enum(Box::new((*a)@)),
            Types::StaticRecord(a) => t@ == Ty::StaticRecord(Box::new((*a)@)),
            Types::DynRecord(a) => t@ == Ty::DynRecord(Box::new((*a)@)),
            Types::List(a) => t@ == Ty::List(Box::new((*a)@)),
        },
{
}

/// The model of a type wrapper is made as the type wrapper is.
pub proof fn law_wrapper_view(t: TypeWrapper)
    ensures
        match t {
            TypeWrapper::Ptr(p) => t@ == Ty::Ptr(p),
            TypeWrapper::Constant(c) => t@ == Ty::Constant(c),
            TypeWrapper::Concrete(ty) => match ty {
                AbsType::Dyn() => t@ == Ty::Dyn,
                AbsType::Num() => t@ == Ty::Num,
                AbsType::Bool() => t@ == Ty::Bool,
                AbsType::Str() => t@ == Ty::Str,
                AbsType::Sym() => t@ == Ty::Sym,
                AbsType::Flat(rt) => t@ == Ty::Flat(rt),
                AbsType::Arrow(a, b) => t@ == Ty::Arrow(Box::new((*a)@), Box::new((*b)@)),
                AbsType::Var(id) => t@ == Ty::Var(id@),
                AbsType::Forall(id, a) => t@ == Ty::Forall(id@, Box::new((*a)@)),
                AbsType::RowEmpty() => t@ == Ty::RowEmpty,
                AbsType::RowExtend(id, None, tail) => t@ == binding(id@, None, (*tail)@),
                AbsType::RowExtend(id, Some(a), tail) => t@ == binding(
                    id@,
                    Some((*a)@),
                    (*tail)@,
                ),
                AbsType::Enum(a) => t@ == Ty::Enum(Box::new((*a)@)),
                AbsType::StaticRecord(a) => t@ == Ty::StaticRecord(Box::new((*a)@)),
                AbsType::DynRecord(a) => t@ == Ty::DynRecord(Box::new((*a)@)),
                AbsType::List(a) => t@ == Ty::List(Box::new((*a)@)),
            },
        },
{
}

/// A new variable has the number of variables that there are, is free, and changes nothing else. A
/// binding binds one variable.
pub proof fn law_new_variable(st: St, p: usize, ty: Ty)
    ensures
        st.table.dom().len() <= usize::MAX ==> next_var(st.table) == st.table.dom().len(),
        with_var(st) == (St { table: st.table.insert(next_var(st.table), None), ..st }),
        with_binding(st, p, ty) == (St { table: st.table.insert(p, Some(ty)), ..st }),
{
}

/// The initial state has nothing but the imports, and the largest bound is that of the machine.
pub proof fn law_initial(imports: Map<usize, RichTerm>)
    ensures
        initial(imports).table == Map::<usize, Option<Ty>>::empty(),
        initial(imports).constr == Map::<usize, Set<Name>>::empty(),
        initial(imports).names == Map::<usize, Name>::empty(),
        initial(imports).imports == imports,
        max_depth() == usize::MAX,
{
}

/// Substitution replaces the type variable, and acts on the parts of every other type. A quantifier
/// of the same name hides the variable.
pub proof fn law_subst_parts(id: Name, to: Ty, other: Name, s: Ty, t: Ty)
    ensures
        subst(Ty::Var(id), id, to) == to,
        other != id ==> subst(Ty::Var(other), id, to) == Ty::Var(other),
        subst(Ty::Forall(id, Box::new(t)), id, to) == Ty::Forall(id, Box::new(t)),
        other != id ==> subst(Ty::Forall(other, Box::new(t)), id, to) == Ty::Forall(
            other,
            Box::new(subst(t, id, to)),
        ),
        subst(arrow(s, t), id, to) == arrow(subst(s, id, to), subst(t, id, to)),
        subst(list_of(t), id, to) == list_of(subst(t, id, to)),
        subst(dict_of(t), id, to) == dict_of(subst(t, id, to)),
        subst(enum_of(t), id, to) == enum_of(subst(t, id, to)),
        subst(record_of(t), id, to) == record_of(subst(t, id, to)),
        subst(row_extend(other, None, t), id, to) == row_extend(other, None, subst(t, id, to)),
        subst(row_extend(other, Some(s), t), id, to) == row_extend(
            other,
            Some(subst(s, id, to)),
            subst(t, id, to),
        ),
{
}

/// Substitution leaves the types without parts as they are.
pub proof fn law_subst_leaves(id: Name, to: Ty, ty: Ty)
    requires
        ty is Dyn || ty is Num || ty is Bool || ty is Str || ty is Sym || ty is Flat
            || ty is RowEmpty || ty is Constant || ty is Ptr,
    ensures
        subst(ty, id, to) == ty,
{
}

/// A quantifier in head position is instantiated by a new constant, or by a new variable with the
/// row constraints that the type asks for. The name of the type variable is recorded. Then the rest
/// of the type is instantiated.
pub proof fn law_instantiate_forall(n: nat, st: St, id: Name, body: Ty, p: usize)
    requires
        p == st.table.dom().len(),
    ensures
        ({
            let st1 = St {
                table: st.table.insert(p, None),
                names: st.names.insert(p, id),
                ..st
            };
            let ty = Ty::Forall(id, Box::new(body));
            let at_cst = subst(body, id, Ty::Constant(p));
            let at_var = subst(body, id, Ty::Ptr(p));
            &&& run_instantiate_heads(n, st, ty, ForallInst::Constant) == run_instantiate_heads(
                n,
                st1,
                at_cst,
                ForallInst::Constant,
            )
            &&& match run_constrain_var(n, st1, Set::empty(), at_var, p) {
                None => run_instantiate_heads(n, st, ty, ForallInst::Ptr) is None,
                Some(st2) => run_instantiate_heads(n, st, ty, ForallInst::Ptr)
                    == run_instantiate_heads(n, st2, at_var, ForallInst::Ptr),
            }
        }),
{
}

/// A type is instantiated by its representative, and one without a quantifier in head position is
/// left as it is.
pub proof fn law_instantiate_type(n: nat, st: St, ty: Ty, inst: ForallInst)
    ensures
        run_resolve(n, st.table, ty) matches Some(r) ==> run_instantiate(n + 1, st, ty, inst)
            == run_instantiate_heads(n, st, r, inst),
        run_resolve(n, st.table, ty) is None ==> run_instantiate(n + 1, st, ty, inst) is None,
        !(ty is Forall) ==> run_instantiate_heads(n, st, ty, inst) == Some((st, ty)),
{
}

/// A type other than a variable is its own representative, and a variable has its own.
pub proof fn law_resolve(n: nat, table: Table, ty: Ty, p: usize)
    ensures
        !(ty is Ptr) ==> run_resolve(n, table, ty) == Some(ty),
        run_resolve(n, table, Ty::Ptr(p)) == run_root(n, table, p),
{
}

/// A row constraint is added at the end of a row. A binding with the identifier violates it, a row
/// that ends without a variable fulfills it, and what is no row is ill-formed.
pub proof fn law_constraint_parts(
    n: nat,
    st: St,
    id: Name,
    other: Name,
    t: Option<Ty>,
    tail: Ty,
    ty: Ty,
    p: usize,
)
    ensures
        other != id ==> run_constraint(n + 1, st, binding(other, t, tail), id) == run_constraint(
            n,
            st,
            tail,
            id,
        ),
        run_constraint(n + 1, st, binding(id, t, tail), id) == Some(
            (st, Err::<(), RowErr>(RowErr::UnsatConstr(id, t))),
        ),
        succeeds(run_constraint(n + 1, st, Ty::RowEmpty, id), st),
        !(ty is RowExtend || ty is RowEmpty || ty is Ptr) ==> run_constraint(n + 1, st, ty, id)
            == Some((st, Err::<(), RowErr>(RowErr::IllformedRow(ty)))),
        match run_root(n, st.table, p) {
            None => run_constraint(n + 1, st, Ty::Ptr(p), id) is None,
            Some(Ty::Ptr(q)) => {
                let ids = if st.constr.contains_key(q) {
                    st.constr[q]
                } else {
                    Set::empty()
                };
                succeeds(
                    run_constraint(n + 1, st, Ty::Ptr(p), id),
                    (St { constr: st.constr.insert(q, ids.insert(id)), ..st }),
                )
            },
            Some(Ty::Constant(c)) => run_constraint(n + 1, st, Ty::Ptr(p), id) == Some(
                (st, Err::<(), RowErr>(RowErr::IllformedRow(Ty::Constant(c)))),
            ),
            Some(r) => run_constraint(n + 1, st, Ty::Ptr(p), id) == run_constraint(n, st, r, id),
        },
{
}

/// The row constraints of a variable that a type asks for are those that its parts ask for, one
/// after the other. A field of a row is no part of this row, and the tail comes after the
/// identifiers of the row.
pub proof fn law_constrain_var_parts(
    n: nat,
    st: St,
    ids: Set<Name>,
    s: Ty,
    t: Ty,
    id: Name,
    p: usize,
)
    ensures
        ({
            let none = Set::<Name>::empty();
            &&& run_constrain_var(n + 1, st, ids, arrow(s, t), p) == (match run_constrain_var(
                n,
                st,
                none,
                s,
                p,
            ) {
                Some(mid) => run_constrain_var(n, mid, none, t, p),
                None => None,
            })
            &&& run_constrain_var(n + 1, st, ids, row_extend(id, Some(s), t), p) == (
            match run_constrain_var(n, st, none, s, p) {
                Some(mid) => run_constrain_var(n, mid, ids.insert(id), t, p),
                None => None,
            })
            &&& run_constrain_var(n + 1, st, ids, row_extend(id, None, t), p) == run_constrain_var(
                n,
                st,
                ids.insert(id),
                t,
                p,
            )
            &&& run_constrain_var(n + 1, st, ids, list_of(t), p) == run_constrain_var(
                n,
                st,
                none,
                t,
                p,
            )
            &&& run_constrain_var(n + 1, st, ids, Ty::Forall(id, Box::new(t)), p)
                == run_constrain_var(n, st, none, t, p)
            &&& run_constrain_var(n + 1, st, ids, enum_of(t), p) == run_constrain_var(
                n,
                st,
                ids,
                t,
                p,
            )
            &&& run_constrain_var(n + 1, st, ids, record_of(t), p) == run_constrain_var(
                n,
                st,
                ids,
                t,
                p,
            )
            &&& run_constrain_var(n + 1, st, ids, dict_of(t), p) == run_constrain_var(
                n,
                st,
                ids,
                t,
                p,
            )
        }),
{
}

/// At the end of a row with some identifiers, the variable must not be given them. Another variable
/// that is free asks for nothing, and one that is bound asks for what its type does. Nothing else
/// asks for a constraint.
pub proof fn law_constrain_var_ends(
    n: nat,
    st: St,
    ids: Set<Name>,
    ty: Ty,
    p: usize,
    q: usize,
    id: Name,
)
    ensures
        ids.contains(id) ==> ({
            let before = if st.constr.contains_key(p) {
                st.constr[p]
            } else {
                Set::empty()
            };
            run_constrain_var(n + 1, st, ids, Ty::Ptr(p), p) == Some(
                St { constr: st.constr.insert(p, before.union(ids)), ..st },
            )
        }),
        q != p || ids == Set::<Name>::empty() ==> match run_root(n, st.table, q) {
            None => run_constrain_var(n + 1, st, ids, Ty::Ptr(q), p) is None,
            Some(Ty::Ptr(_)) => run_constrain_var(n + 1, st, ids, Ty::Ptr(q), p) == Some(st),
            Some(r) => run_constrain_var(n + 1, st, ids, Ty::Ptr(q), p) == run_constrain_var(
                n,
                st,
                ids,
                r,
                p,
            ),
        },
        ty is Dyn || ty is Num || ty is Bool || ty is Str || ty is Sym || ty is Flat || ty is Var
            || ty is RowEmpty || ty is Constant ==> run_constrain_var(n + 1, st, ids, ty, p)
            == Some(st),
{
    if ids.contains(id) {
        assert(ids != Set::<Name>::empty());
    }
}

/// The first binding of a row whose identifier is in a set, with its type.
pub open spec fn first_in(row: Ty, ids: Set<Name>) -> Option<(Name, Option<Ty>)>
    decreases row,
{
    match row {
        Ty::RowExtend(id, t, tail) => if ids.contains(id) {
            Some((id, unbox(t)))
        } else {
            first_in(*tail, ids)
        },
        _ => None,
    }
}

/// A variable without constraints is unified with any type, as to row constraints. One with
/// constraints loses them: they are violated by the first binding with a forbidden identifier, or
/// else they are added to those of the variable that ends the row, if there is another one.
pub proof fn law_constr_unify_exact(constr: Constr, p: usize, ty: Ty)
    ensures
        !constr.contains_key(p) ==> unify_constr(constr, p, ty) == (constr, Ok::<(), RowErr>(())),
        constr.contains_key(p) ==> {
            let (constr2, res) = unify_constr(constr, p, ty);
            let rest = constr.remove(p);
            match first_in(ty, constr[p]) {
                Some((id, t)) => {
                    &&& res == Err::<(), RowErr>(RowErr::UnsatConstr(id, t))
                    &&& constr2 == rest
                },
                None => {
                    &&& res is Ok
                    &&& match row_end(ty) {
                        Ty::Ptr(u) => if u == p {
                            constr2 == rest
                        } else if constr.contains_key(u) {
                            constr2 == rest.insert(u, constr[u].union(constr[p]))
                        } else {
                            constr2 == rest.insert(u, constr[p])
                        },
                        _ => constr2 == rest,
                    }
                },
            }
        },
{
    if constr.contains_key(p) {
        lemma_hand_down_exact(constr.remove(p), constr[p], p, ty);
    }
}

/// The same, for the constraints that are handed down.
proof fn lemma_hand_down_exact(constr: Constr, ids: Set<Name>, p: usize, ty: Ty)
    ensures
        ({
            let (constr2, res) = hand_down(constr, ids, p, ty);
            match first_in(ty, ids) {
                Some((id, t)) => {
                    &&& res == Err::<(), RowErr>(RowErr::UnsatConstr(id, t))
                    &&& constr2 == constr
                },
                None => {
                    &&& res is Ok
                    &&& match row_end(ty) {
                        Ty::Ptr(u) => if u == p {
                            constr2 == constr
                        } else if constr.contains_key(u) {
                            constr2 == constr.insert(u, constr[u].union(ids))
                        } else {
                            constr2 == constr.insert(u, ids)
                        },
                        _ => constr2 == constr,
                    }
                },
            }
        }),
    decreases ty,
{
    if let Ty::RowExtend(_, _, tail) = ty {
        lemma_hand_down_exact(constr, ids, p, *tail);
    }
}

/// The end of a row is followed behind its bindings. A variable that is bound is replaced by what
/// it is bound to, as long as variables may be replaced, and everything else ends the row.
pub proof fn law_full_row(k: nat, table: Table, id: Name, t: Option<Ty>, tail: Ty, u: usize)
    ensures
        full_row(k, table, binding(id, t, tail)) == binding(id, t, full_row(k, table, tail)),
        table.contains_key(u) && table[u] is Some ==> full_row(k + 1, table, Ty::Ptr(u))
            == full_row(k, table, table[u]->0),
        !(table.contains_key(u) && table[u] is Some) ==> full_row(k, table, Ty::Ptr(u))
            == Ty::Ptr(u),
        full_row(0, table, Ty::Ptr(u)) == Ty::Ptr(u),
        !(tail is RowExtend || tail is Ptr) ==> full_row(k, table, tail) == tail,
{
}

/// A type is extracted whenever its parts are.
pub proof fn law_to_type_returns(n: nat, table: Table, s: Ty, t: Ty, id: Name, p: usize)
    ensures
        ({
            let (a, b) = (run_to_type(n, table, s) is Some, run_to_type(n, table, t) is Some);
            &&& a && b <==> run_to_type(n + 1, table, arrow(s, t)) is Some
            &&& a && b <==> run_to_type(n + 1, table, row_extend(id, Some(s), t)) is Some
            &&& b <==> run_to_type(n + 1, table, row_extend(id, None, t)) is Some
            &&& b <==> run_to_type(n + 1, table, list_of(t)) is Some
            &&& b <==> run_to_type(n + 1, table, dict_of(t)) is Some
            &&& b <==> run_to_type(n + 1, table, enum_of(t)) is Some
            &&& b <==> run_to_type(n + 1, table, record_of(t)) is Some
            &&& b <==> run_to_type(n + 1, table, Ty::Forall(id, Box::new(t))) is Some
            &&& match run_root(n, table, p) {
                None => run_to_type(n + 1, table, Ty::Ptr(p)) is None,
                Some(r) => r is Ptr || run_to_type(n + 1, table, Ty::Ptr(p)) is Some || run_to_type(
                    n,
                    table,
                    r,
                ) is None,
            }
            &&& run_root(n, table, p) matches Some(Ty::Ptr(_)) ==> run_to_type(
                n + 1,
                table,
                Ty::Ptr(p),
            ) is Some
            &&& run_root(n, table, p) matches Some(Ty::Constant(_)) ==> run_to_type(
                n + 1,
                table,
                Ty::Ptr(p),
            ) is Some
            &&& t is Dyn || t is Num || t is Bool || t is Str || t is Sym || t is Flat || t is Var
                || t is RowEmpty || t is Constant ==> run_to_type(n + 1, table, t) is Some
        }),
{
}

/// A type is reported whenever its parts are, one after the other with the same registry. Types
/// without parts are always reported.
pub proof fn law_report_returns(n: nat, st: St, reg: Reg, s: Ty, t: Ty, id: Name, p: usize)
    ensures
        ({
            let b = run_report(n, st, reg, t) is Some;
            &&& run_report_pair(n, st, reg, s, t) is Some <==> run_report(
                n + 1,
                st,
                reg,
                arrow(s, t),
            ) is Some
            &&& run_report_pair(n, st, reg, s, t) is Some <==> run_report(
                n + 1,
                st,
                reg,
                row_extend(id, Some(s), t),
            ) is Some
            &&& b <==> run_report(n + 1, st, reg, row_extend(id, None, t)) is Some
            &&& b <==> run_report(n + 1, st, reg, list_of(t)) is Some
            &&& b <==> run_report(n + 1, st, reg, dict_of(t)) is Some
            &&& b <==> run_report(n + 1, st, reg, enum_of(t)) is Some
            &&& b <==> run_report(n + 1, st, reg, record_of(t)) is Some
            &&& b <==> run_report(n + 1, st, reg, Ty::Forall(id, Box::new(t))) is Some
            &&& b <==> run_report_opt(n, st, reg, Some(t)) is Some
            &&& run_report_opt(n, st, reg, None) is Some
            &&& t is Dyn || t is Num || t is Bool || t is Str || t is Sym || t is Flat || t is Var
                || t is RowEmpty ==> run_report(n + 1, st, reg, t) == Some((reg, t))
        }),
{
}

} // verus!
