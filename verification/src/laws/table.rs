//! The unification table only grows: variables stay, and the type that a variable is bound to stays
//! as it is. Every variable of a table that was built by unification has a representative.
use vstd::prelude::*;
use vstd::set_lib::*;

use crate::identifier::Ident;
use crate::laws::depth::law_root_depth;
use crate::model::{arrow, enum_of, list_of, record_of, row_extend, unbox, Name, St, Table, Ty};
use crate::position::TermPos;
use crate::term::{BinaryOp, MetaValue, RichTerm, Term, UnaryOp};
use crate::typecheck::check::{
    all_against, args_against, bind_fields, cases_row, chunks_against, fields_against, run_check,
    run_check_fields, run_check_meta, run_check_promise, run_check_record, run_check_seq,
    run_check_switch, run_check_switched, run_expect,
};
use crate::typecheck::envs::{bound_ty, in_scope, with_local, Scope};
use crate::typecheck::instantiate::{
    head_foralls, instance, lemma_subst_head_foralls, run_instantiate, run_instantiate_heads,
    ForallInst,
};
use crate::typecheck::ops::{bop_type, is_typed_bop, is_typed_nop, is_typed_uop, nop_type, uop_type};
use crate::typecheck::state::{
    initial, max_depth, next_var, run_constrain_var, run_constraint, run_resolve, run_root,
    with_var,
};
use crate::typecheck::unify::{
    run_row_add, run_sub, run_sub_concrete, run_sub_dyn_record, run_sub_roots, run_sub_row_types,
    run_sub_rows, run_sub_tails, unify_var,
};
use crate::typecheck::wrapper::subst;

verus! {

/// Whether the variables of a table can be numbered.
pub open spec fn fits(table: Table) -> bool {
    table.dom().finite() && table.dom().len() <= usize::MAX
}

/// Whether a variable has a representative.
pub open spec fn has_root(table: Table, x: usize) -> bool {
    exists|n: nat| run_root(n, table, x) is Some
}

/// Whether a table can have been built by unification: its variables are the first numbers, and
/// each of them has a representative.
pub open spec fn is_wf(table: Table) -> bool {
    &&& fits(table)
    &&& forall|x: usize| #[trigger] table.contains_key(x) <==> x < table.dom().len()
    &&& forall|x: usize| #[trigger] table.contains_key(x) ==> has_root(table, x)
}

/// Whether a table has all the variables of another, with all their bindings.
pub open spec fn extends(old_table: Table, new_table: Table) -> bool {
    forall|x: usize| #[trigger]
        old_table.contains_key(x) ==> new_table.contains_key(x) && (old_table[x] is Some
            ==> new_table[x] == old_table[x])
}

/// Whether a table comes after another: it has its variables, and, as long as its variables can be
/// numbered, it is well-formed if the other one is, and has its bindings.
#[verifier::opaque]
pub open spec fn comes_after(old_table: Table, new_table: Table) -> bool {
    &&& old_table.dom().subset_of(new_table.dom())
    &&& old_table.dom().finite() ==> new_table.dom().finite()
    &&& is_wf(old_table) && fits(new_table) ==> is_wf(new_table) && extends(old_table, new_table)
}

/// A table comes after itself.
pub proof fn lemma_after_refl(table: Table)
    ensures
        comes_after(table, table),
{
    reveal(comes_after);
}

/// What comes after is transitive.
pub broadcast proof fn lemma_after_trans(a: Table, b: Table, c: Table)
    requires
        #[trigger] comes_after(a, b),
        #[trigger] comes_after(b, c),
    ensures
        comes_after(a, c),
{
    reveal(comes_after);
    if is_wf(a) && fits(c) {
        lemma_len_subset(b.dom(), c.dom());
        assert forall|x: usize| #[trigger] a.contains_key(x) implies c.contains_key(x) && (a[x]
            is Some ==> c[x] == a[x]) by {
            assert(b.contains_key(x));
        }
    }
}

/// As long as the variables of a later table can be numbered, it is well-formed if the earlier one
/// is, and has its bindings.
pub proof fn law_later_table(old_table: Table, new_table: Table)
    requires
        comes_after(old_table, new_table),
        is_wf(old_table),
        fits(new_table),
    ensures
        is_wf(new_table),
        extends(old_table, new_table),
{
    reveal(comes_after);
}

/// The chain of links of a variable up to a free one goes on as that of the free one in a table
/// with more bindings.
pub proof fn lemma_root_through(n: nat, k: nat, a: Table, b: Table, x: usize, p: usize)
    requires
        extends(a, b),
        run_root(n, a, x) == Some(Ty::Ptr(p)),
        run_root(k, b, p) is Some,
    ensures
        run_root(n + k, b, x) == run_root(k, b, p),
    decreases n,
{
    match a[x] {
        None => law_root_depth(k, n + k, b, p),
        Some(Ty::Ptr(y)) => lemma_root_through((n - 1) as nat, k, a, b, y, p),
        Some(_) => {},
    }
}

/// A representative that is not a variable stays in a table with more bindings.
pub proof fn lemma_root_stays(n: nat, a: Table, b: Table, x: usize)
    requires
        extends(a, b),
        run_root(n, a, x) is Some,
        !(run_root(n, a, x)->0 is Ptr),
    ensures
        run_root(n, b, x) == run_root(n, a, x),
    decreases n,
{
    match a[x] {
        Some(Ty::Ptr(y)) => lemma_root_stays((n - 1) as nat, a, b, y),
        _ => {},
    }
}

/// The variable that is a representative is a free one.
pub proof fn lemma_root_free(n: nat, table: Table, x: usize)
    requires
        run_root(n, table, x) is Some,
    ensures
        table.contains_key(x),
        run_root(n, table, x) matches Some(Ty::Ptr(p)) ==> table.contains_key(p) && table[p]
            is None,
    decreases n,
{
    if let Some(Ty::Ptr(y)) = table[x] {
        lemma_root_free((n - 1) as nat, table, y);
    }
}

/// A new variable is free, and changes nothing else.
pub proof fn lemma_new_var(table: Table)
    ensures
        comes_after(table, table.insert(next_var(table), None)),
{
    reveal(comes_after);
    let p = next_var(table);
    let new = table.insert(p, None);
    if is_wf(table) && fits(new) {
        assert(table.dom().len() < usize::MAX) by {
            if table.dom().len() == usize::MAX {
                assert(!table.contains_key(p));
                assert(new.dom().len() == table.dom().len() + 1);
            }
        }
        assert(!table.contains_key(p));
        assert(new.dom().len() == table.dom().len() + 1);
        assert(extends(table, new));
        assert forall|x: usize| #[trigger] new.contains_key(x) implies has_root(new, x) by {
            if x == p {
                assert(run_root(1, new, x) is Some);
            } else {
                assert(table.contains_key(x));
                let n = choose|n: nat| run_root(n, table, x) is Some;
                lemma_root_free(n, table, x);
                match run_root(n, table, x) {
                    Some(Ty::Ptr(r)) => {
                        assert(run_root(1, new, r) == Some(Ty::Ptr(r)));
                        lemma_root_through(n, 1, table, new, x, r);
                        assert(run_root(n + 1, new, x) is Some);
                    },
                    _ => lemma_root_stays(n, table, new, x),
                }
            }
        }
    }
}

/// Binding a free variable to a type other than a variable, or to another free variable, keeps the
/// other bindings.
pub proof fn lemma_new_binding(table: Table, p: usize, ty: Ty)
    requires
        table.contains_key(p),
        table[p] is None,
        ty matches Ty::Ptr(q) ==> q != p && table.contains_key(q) && table[q] is None,
    ensures
        comes_after(table, table.insert(p, Some(ty))),
{
    reveal(comes_after);
    let new = table.insert(p, Some(ty));
    assert(new.dom() =~= table.dom());
    if is_wf(table) && fits(new) {
        assert(extends(table, new));
        assert forall|x: usize| #[trigger] new.contains_key(x) implies has_root(new, x) by {
            assert(table.contains_key(x));
            let n = choose|n: nat| run_root(n, table, x) is Some;
            lemma_root_free(n, table, x);
            match run_root(n, table, x) {
                Some(Ty::Ptr(r)) => {
                    if r == p {
                        if let Ty::Ptr(q) = ty {
                            assert(run_root(1, new, q) == Some(Ty::Ptr(q)));
                        }
                        assert(run_root(2, new, r) is Some);
                    } else {
                        assert(run_root(1, new, r) is Some);
                        law_root_depth(1, 2, new, r);
                    }
                    lemma_root_through(n, 2, table, new, x, r);
                    assert(run_root(n + 2, new, x) is Some);
                },
                _ => lemma_root_stays(n, table, new, x),
            }
        }
    }
}

/// The variables on the chain of links of a variable are distinct: as many of them as there are
/// steps to its representative are in the table.
proof fn lemma_chain(n: nat, table: Table, x: usize) -> (chain: Set<usize>)
    requires
        n > 0,
        run_root(n, table, x) is Some,
        run_root((n - 1) as nat, table, x) is None,
    ensures
        chain.finite(),
        chain.len() == n,
        chain.subset_of(table.dom()),
        forall|y: usize| #[trigger] chain.contains(y) ==> run_root(n, table, y) is Some,
    decreases n,
{
    match table[x] {
        Some(Ty::Ptr(y)) => {
            let m = (n - 1) as nat;
            if m == 0 {
                assert(false);
            }
            let rest = lemma_chain(m, table, y);
            assert(!rest.contains(x));
            let chain = rest.insert(x);
            assert forall|z: usize| #[trigger] chain.contains(z) implies run_root(n, table, z)
                is Some by {
                if z != x {
                    law_root_depth(m, n, table, z);
                }
            }
            chain
        },
        _ => {
            let chain = Set::empty().insert(x);
            assert(n == 1) by {
                if n > 1 {
                    assert(run_root((n - 1) as nat, table, x) is Some);
                }
            }
            chain
        },
    }
}

/// There is a smallest number of steps to a representative.
proof fn lemma_least_steps(n: nat, table: Table, x: usize) -> (k: nat)
    requires
        run_root(n, table, x) is Some,
    ensures
        0 < k <= n,
        run_root(k, table, x) is Some,
        run_root((k - 1) as nat, table, x) is None,
    decreases n,
{
    if run_root((n - 1) as nat, table, x) is Some {
        lemma_least_steps((n - 1) as nat, table, x)
    } else {
        n
    }
}

/// Following the links from a variable of a well-formed table ends within as many steps as there
/// are variables: the representative of a variable that was introduced can always be queried.
pub proof fn law_get_root_total(table: Table, x: usize)
    requires
        is_wf(table),
        table.contains_key(x),
    ensures
        run_root(table.dom().len(), table, x) is Some,
        run_root(max_depth(), table, x) is Some,
{
    let n = choose|n: nat| run_root(n, table, x) is Some;
    let k = lemma_least_steps(n, table, x);
    let chain = lemma_chain(k, table, x);
    lemma_len_subset(chain, table.dom());
    law_root_depth(k, table.dom().len(), table, x);
    law_root_depth(k, max_depth(), table, x);
}

/// The representative of a variable is its own representative.
pub proof fn law_get_root_idempotent(n: nat, table: Table, x: usize)
    requires
        run_root(n, table, x) is Some,
    ensures
        run_resolve(1, table, run_root(n, table, x)->0) == run_root(n, table, x),
{
    lemma_root_free(n, table, x);
}

/// The table without variables is well-formed.
pub proof fn law_initial_wf(imports: Map<usize, RichTerm>)
    ensures
        is_wf(initial(imports).table),
{
}

/// Adding a row constraint changes the constraints only.
pub proof fn law_constraint_table(n: nat, st: St, ty: Ty, id: Name)
    requires
        run_constraint(n, st, ty, id) is Some,
    ensures
        ({
            let (st2, _) = run_constraint(n, st, ty, id)->0;
            st2 == (St { constr: st2.constr, ..st })
        }),
    decreases n,
{
    let m = (n - 1) as nat;
    match ty {
        Ty::Ptr(p) => match run_root(m, st.table, p) {
            Some(Ty::Ptr(_)) => {},
            Some(Ty::Constant(_)) => {},
            Some(ty) => law_constraint_table(m, st, ty, id),
            None => {},
        },
        Ty::RowExtend(id2, _, tail) => if id2 != id {
            law_constraint_table(m, st, *tail, id);
        },
        _ => {},
    }
}

/// Adding the row constraints of a new variable changes the constraints only.
pub proof fn law_constrain_var_table(n: nat, st: St, ids: Set<Name>, ty: Ty, p: usize)
    requires
        run_constrain_var(n, st, ids, ty, p) is Some,
    ensures
        ({
            let st2 = run_constrain_var(n, st, ids, ty, p)->0;
            st2 == (St { constr: st2.constr, ..st })
        }),
    decreases n,
{
    let m = (n - 1) as nat;
    let none = Set::<Name>::empty();
    match ty {
        Ty::Ptr(u) => if !(p == u && ids != none) {
            match run_root(m, st.table, u) {
                Some(Ty::Ptr(_)) => {},
                Some(ty) => law_constrain_var_table(m, st, ids, ty, p),
                None => {},
            }
        },
        Ty::Arrow(s, t) => {
            law_constrain_var_table(m, st, none, *s, p);
            law_constrain_var_table(m, run_constrain_var(m, st, none, *s, p)->0, none, *t, p);
        },
        Ty::Forall(_, t) => law_constrain_var_table(m, st, none, *t, p),
        Ty::List(t) => law_constrain_var_table(m, st, none, *t, p),
        Ty::RowExtend(id, t, rest) => {
            let ids = ids.insert(id);
            match t {
                None => law_constrain_var_table(m, st, ids, *rest, p),
                Some(t) => {
                    law_constrain_var_table(m, st, none, *t, p);
                    let st = run_constrain_var(m, st, none, *t, p)->0;
                    law_constrain_var_table(m, st, ids, *rest, p);
                },
            }
        },
        Ty::Enum(row) => law_constrain_var_table(m, st, ids, *row, p),
        Ty::StaticRecord(row) => law_constrain_var_table(m, st, ids, *row, p),
        Ty::DynRecord(t) => law_constrain_var_table(m, st, ids, *t, p),
        _ => {},
    }
}

/// Whether a state comes after another: its table does, and the imports are the same.
pub open spec fn follows(st: St, st2: St) -> bool {
    comes_after(st.table, st2.table) && st2.imports == st.imports
}

/// Looking for a binding in a row, or adding one, gives a table that comes after.
pub proof fn law_row_add_table(n: nat, st: St, id: Name, ty: Option<Ty>, r: Ty)
    requires
        run_row_add(n, st, id, ty, r) is Some,
    ensures
        follows(st, (run_row_add(n, st, id, ty, r)->0).0),
    decreases n,
{
    broadcast use lemma_after_trans;

    let m = (n - 1) as nat;
    lemma_after_refl(st.table);
    match run_resolve(m, st.table, r) {
        Some(Ty::RowExtend(id2, ty2, r2)) => if id != id2 {
            law_row_add_table(m, st, id, ty, *r2);
        },
        Some(Ty::Ptr(root)) => {
            if !(st.constr.contains_key(root) && st.constr[root].contains(id)) {
                if let Ty::Ptr(p) = r {
                    lemma_root_free(m, st.table, p);
                }
                lemma_new_var(st.table);
                let tail = Ty::Ptr(next_var(st.table));
                law_constraint_table(m, with_var(st), tail, id);
                if let Some((st2, Ok(()))) = run_constraint(m, with_var(st), tail, id) {
                    lemma_new_binding(st2.table, root, row_extend(id, ty, tail));
                }
            }
        },
        _ => {},
    }
}

/// Unifying a free variable with another free variable, or with a type other than a variable, gives
/// a table that comes after.
proof fn lemma_unify_var_table(st: St, p: usize, ty: Ty, left: Ty, right: Ty)
    requires
        st.table.contains_key(p),
        st.table[p] is None,
        ty matches Ty::Ptr(q) ==> q != p && st.table.contains_key(q) && st.table[q] is None,
    ensures
        follows(st, unify_var(st, p, ty, left, right).0),
{
    lemma_after_refl(st.table);
    lemma_new_binding(st.table, p, ty);
}

/// Unifying two types gives a table that comes after.
pub proof fn law_sub_table(n: nat, st: St, t1: Ty, t2: Ty)
    requires
        run_sub(n, st, t1, t2) is Some,
    ensures
        follows(st, (run_sub(n, st, t1, t2)->0).0),
    decreases n, 3nat,
{
    let m = (n - 1) as nat;
    lemma_resolve_free(m, st.table, t1);
    lemma_resolve_free(m, st.table, t2);
    let r1 = run_resolve(m, st.table, t1)->0;
    let r2 = run_resolve(m, st.table, t2)->0;
    lemma_sub_roots_table(n, st, r1, r2);
}

/// The variable that represents a type is a free one.
pub proof fn lemma_resolve_free(n: nat, table: Table, ty: Ty)
    requires
        run_resolve(n, table, ty) is Some,
    ensures
        run_resolve(n, table, ty) matches Some(Ty::Ptr(p)) ==> table.contains_key(p) && table[p]
            is None,
{
    if let Ty::Ptr(p) = ty {
        lemma_root_free(n, table, p);
    }
}

/// The same, for two types that are their own representatives.
proof fn lemma_sub_roots_table(n: nat, st: St, t1: Ty, t2: Ty)
    requires
        run_sub_roots(n, st, t1, t2) is Some,
        t1 matches Ty::Ptr(p) ==> st.table.contains_key(p) && st.table[p] is None,
        t2 matches Ty::Ptr(p) ==> st.table.contains_key(p) && st.table[p] is None,
    ensures
        follows(st, (run_sub_roots(n, st, t1, t2)->0).0),
    decreases n, 2nat,
{
    lemma_after_refl(st.table);
    match (t1, t2) {
        (Ty::Ptr(p), _) => if t2 != Ty::Ptr(p) {
            lemma_unify_var_table(st, p, t2, t1, t2);
        },
        (_, Ty::Ptr(p)) => lemma_unify_var_table(st, p, t1, t1, t2),
        _ => if t1.is_concrete() && t2.is_concrete() {
            lemma_sub_concrete_table(n, st, t1, t2);
        },
    }
}

/// The same, for two concrete types.
proof fn lemma_sub_concrete_table(n: nat, st: St, t1: Ty, t2: Ty)
    requires
        run_sub_concrete(n, st, t1, t2) is Some,
    ensures
        follows(st, (run_sub_concrete(n, st, t1, t2)->0).0),
    decreases n, 1nat,
{
    broadcast use lemma_after_trans;

    let m = (n - 1) as nat;
    lemma_after_refl(st.table);
    match (t1, t2) {
        (_, Ty::Dyn) => {},
        (Ty::List(a), Ty::List(b)) => law_sub_table(m, st, *a, *b),
        (Ty::Arrow(s1, r1), Ty::Arrow(s2, r2)) => {
            law_sub_table(m, st, *s2, *s1);
            if let Some((st, Ok(()))) = run_sub(m, st, *s2, *s1) {
                law_sub_table(m, st, *r1, *r2);
            }
        },
        (Ty::Flat(s), Ty::Flat(t)) => {},
        (Ty::Enum(a), Ty::Enum(b)) => lemma_sub_row_types_table(n, st, *a, *b, t1, t2),
        (Ty::StaticRecord(a), Ty::StaticRecord(b)) => {
            lemma_sub_row_types_table(n, st, *a, *b, t1, t2)
        },
        (Ty::DynRecord(a), Ty::DynRecord(b)) => law_sub_table(m, st, *a, *b),
        (Ty::StaticRecord(a), Ty::DynRecord(b)) => law_sub_dyn_record_table(m, st, *a, *b),
        (Ty::Forall(i1, a), Ty::Forall(i2, b)) => {
            let c = Ty::Constant(next_var(st.table));
            lemma_new_var(st.table);
            law_sub_table(m, with_var(st), subst(*a, i1, c), subst(*b, i2, c));
        },
        _ => if t1.is_row() && t2.is_row() {
            law_sub_rows_table(m, st, t1, t2);
        },
    }
}

/// The same, for the rows of two enum or record types.
proof fn lemma_sub_row_types_table(n: nat, st: St, a: Ty, b: Ty, t1: Ty, t2: Ty)
    requires
        run_sub_row_types(n, st, a, b, t1, t2) is Some,
    ensures
        follows(st, (run_sub_row_types(n, st, a, b, t1, t2)->0).0),
    decreases n, 0nat,
{
    let m = (n - 1) as nat;
    lemma_after_refl(st.table);
    if a.is_row() && b.is_row() {
        law_sub_rows_table(m, st, a, b);
    } else if a.is_concrete() && !a.is_row() {
    } else if b.is_concrete() && !b.is_row() {
    } else {
        law_sub_table(m, st, a, b);
    }
}

/// Unifying two rows gives a table that comes after.
pub proof fn law_sub_rows_table(n: nat, st: St, t1: Ty, t2: Ty)
    requires
        run_sub_rows(n, st, t1, t2) is Some,
    ensures
        follows(st, (run_sub_rows(n, st, t1, t2)->0).0),
    decreases n, 1nat,
{
    broadcast use lemma_after_trans;

    let m = (n - 1) as nat;
    lemma_after_refl(st.table);
    if let (Ty::RowExtend(id, ty, tail), Ty::RowExtend(_, _, _)) = (t1, t2) {
        law_row_add_table(m, st, id, unbox(ty), t2);
        if let Some((st, Ok((ty2, tail2)))) = run_row_add(m, st, id, unbox(ty), t2) {
            match (unbox(ty), ty2) {
                (None, None) => lemma_sub_tails_table(n, st, *tail, tail2),
                (Some(a), Some(b)) => {
                    law_sub_table(m, st, a, b);
                    if let Some((st, Ok(()))) = run_sub(m, st, a, b) {
                        lemma_sub_tails_table(n, st, *tail, tail2);
                    }
                },
                _ => {},
            }
        }
    }
}

/// The same, for the tails of two rows.
pub proof fn lemma_sub_tails_table(n: nat, st: St, t1: Ty, t2: Ty)
    requires
        run_sub_tails(n, st, t1, t2) is Some,
    ensures
        follows(st, (run_sub_tails(n, st, t1, t2)->0).0),
    decreases n, 0nat,
{
    let m = (n - 1) as nat;
    if t1.is_concrete() && t2.is_concrete() {
        law_sub_rows_table(m, st, t1, t2);
    } else {
        law_sub_table(m, st, t1, t2);
    }
}

/// Unifying a row with a dictionary type gives a table that comes after.
pub proof fn law_sub_dyn_record_table(n: nat, st: St, row: Ty, ty: Ty)
    requires
        run_sub_dyn_record(n, st, row, ty) is Some,
    ensures
        follows(st, (run_sub_dyn_record(n, st, row, ty)->0).0),
    decreases n, 0nat,
{
    broadcast use lemma_after_trans;

    let m = (n - 1) as nat;
    lemma_after_refl(st.table);
    match row {
        Ty::Dyn => law_sub_table(m, st, Ty::Dyn, ty),
        Ty::RowExtend(id, Some(a), tail) => {
            law_sub_table(m, st, *a, ty);
            if let Some((st, Ok(()))) = run_sub(m, st, *a, ty) {
                law_sub_dyn_record_table(m, st, *tail, ty);
            }
        },
        _ => {},
    }
}

/// Instantiating a type gives a table that comes after.
pub proof fn law_instantiate_table(n: nat, st: St, ty: Ty, inst: ForallInst)
    requires
        run_instantiate(n, st, ty, inst) is Some,
    ensures
        follows(st, (run_instantiate(n, st, ty, inst)->0).0),
{
    let m = (n - 1) as nat;
    lemma_instantiate_heads_table(m, st, run_resolve(m, st.table, ty)->0, inst);
}

/// The same, for the quantifiers in head position of a type.
pub proof fn lemma_instantiate_heads_table(n: nat, st: St, ty: Ty, inst: ForallInst)
    requires
        run_instantiate_heads(n, st, ty, inst) is Some,
    ensures
        follows(st, (run_instantiate_heads(n, st, ty, inst)->0).0),
    decreases head_foralls(ty),
{
    broadcast use lemma_after_trans;

    lemma_after_refl(st.table);
    if let Ty::Forall(id, body) = ty {
        let fresh_id = next_var(st.table);
        lemma_subst_head_foralls(*body, id, instance(inst, fresh_id));
        let ty = subst(*body, id, instance(inst, fresh_id));
        lemma_new_var(st.table);
        let st = with_var(st);
        let st = St { names: st.names.insert(fresh_id, id), ..st };
        match inst {
            ForallInst::Constant => lemma_instantiate_heads_table(n, st, ty, inst),
            ForallInst::Ptr => {
                law_constrain_var_table(n, st, Set::empty(), ty, fresh_id);
                let st = run_constrain_var(n, st, Set::empty(), ty, fresh_id)->0;
                lemma_instantiate_heads_table(n, st, ty, inst);
            },
        }
    }
}

/// Unifying in strict mode gives a state that follows.
pub proof fn lemma_expect_table(n: nat, st: St, strict: bool, t1: Ty, t2: Ty, pos: TermPos)
    requires
        run_expect(n, st, strict, t1, t2, pos) is Some,
    ensures
        follows(st, (run_expect(n, st, strict, t1, t2, pos)->0).0),
{
    reveal(run_expect);
    lemma_after_refl(st.table);
    if strict {
        law_sub_table(n, st, t1, t2);
    }
}

/// The state with the new variables of an operator follows.
pub proof fn lemma_uop_table(st: St, op: UnaryOp)
    requires
        is_typed_uop(op),
    ensures
        follows(st, uop_type(st, op).0),
{
    broadcast use lemma_after_trans;

    lemma_after_refl(st.table);
    lemma_new_var(st.table);
    lemma_new_var(with_var(st).table);
}

/// The state with the new variables of an operator follows.
pub proof fn lemma_bop_table(st: St, op: BinaryOp)
    requires
        is_typed_bop(op),
    ensures
        follows(st, bop_type(st, op).0),
{
    broadcast use lemma_after_trans;

    lemma_after_refl(st.table);
    lemma_new_var(st.table);
    lemma_new_var(with_var(st).table);
}

/// The table with the new variable of a binding comes after.
pub proof fn lemma_bound_ty_table(table: Table, scope: Scope, rt: RichTerm, strict: bool)
    ensures
        comes_after(table, bound_ty(table, scope, rt, strict).0),
{
    lemma_after_refl(table);
    lemma_new_var(table);
}

/// The table with the new variables of the fields of a recursive record comes after.
pub proof fn lemma_bind_fields_table(
    table: Table,
    scope: Scope,
    strict: bool,
    fields: Seq<(Ident, RichTerm)>,
    i: int,
)
    ensures
        comes_after(table, bind_fields(table, scope, strict, fields, i).0),
    decreases fields.len() - i,
{
    broadcast use lemma_after_trans;

    lemma_after_refl(table);
    if 0 <= i < fields.len() {
        let (id, t) = fields[i];
        lemma_bound_ty_table(table, scope, t, strict);
        let (table, ty) = bound_ty(table, scope, t, strict);
        lemma_bind_fields_table(table, with_local(scope, id@, ty), strict, fields, i + 1);
    }
}

/// Typechecking a sequence of terms gives a state that follows.
pub proof fn lemma_check_seq_table(
    n: nat,
    st: St,
    scope: Scope,
    strict: bool,
    todo: Seq<(RichTerm, Ty)>,
    i: int,
)
    requires
        run_check_seq(n, st, scope, strict, todo, i) is Some,
    ensures
        follows(st, (run_check_seq(n, st, scope, strict, todo, i)->0).0),
    decreases n, 1nat, todo.len() - i,
{
    broadcast use lemma_after_trans;

    lemma_after_refl(st.table);
    if 0 <= i < todo.len() {
        law_check_table(n, st, scope, strict, todo[i].0, todo[i].1);
        if let Some((st, Ok(()))) = run_check(n, st, scope, strict, todo[i].0, todo[i].1) {
            lemma_check_seq_table(n, st, scope, strict, todo, i + 1);
        }
    }
}

/// Typechecking the fields of a record gives a state that follows.
pub proof fn lemma_check_fields_table(
    n: nat,
    st: St,
    scope: Scope,
    strict: bool,
    rec: bool,
    fields: Seq<(Ident, RichTerm)>,
    i: int,
    row: Ty,
)
    requires
        run_check_fields(n, st, scope, strict, rec, fields, i, row) is Some,
    ensures
        follows(st, (run_check_fields(n, st, scope, strict, rec, fields, i, row)->0).0),
    decreases n, 1nat, fields.len() - i,
{
    broadcast use lemma_after_trans;

    lemma_after_refl(st.table);
    lemma_new_var(st.table);
    if 0 <= i < fields.len() {
        let (id, t) = fields[i];
        let ty = if rec {
            in_scope(scope, id@)->0
        } else {
            Ty::Ptr(next_var(st.table))
        };
        let st = if rec {
            st
        } else {
            with_var(st)
        };
        law_check_table(n, st, scope, strict, t, ty);
        if let Some((st, Ok(()))) = run_check(n, st, scope, strict, t, ty) {
            let row = row_extend(id@, Some(ty), row);
            lemma_check_fields_table(n, st, scope, strict, rec, fields, i + 1, row);
        }
    }
}

/// Typechecking a record gives a state that follows.
pub proof fn lemma_check_record_table(
    n: nat,
    st: St,
    scope: Scope,
    strict: bool,
    rec: bool,
    fields: Seq<(Ident, RichTerm)>,
    ty: Ty,
    pos: TermPos,
)
    requires
        run_check_record(n, st, scope, strict, rec, fields, ty, pos) is Some,
    ensures
        follows(st, (run_check_record(n, st, scope, strict, rec, fields, ty, pos)->0).0),
    decreases n, 2nat, 0int,
{
    broadcast use lemma_after_trans;

    lemma_after_refl(st.table);
    match run_resolve(n, st.table, ty) {
        None => {},
        Some(Ty::DynRecord(rec_ty)) => {
            lemma_check_seq_table(n, st, scope, strict, fields_against(fields, *rec_ty), 0);
        },
        Some(_) => {
            let row = Ty::RowEmpty;
            lemma_check_fields_table(n, st, scope, strict, rec, fields, 0, row);
            if let Some((st, Ok(row))) = run_check_fields(
                n,
                st,
                scope,
                strict,
                rec,
                fields,
                0,
                row,
            ) {
                lemma_expect_table(n, st, strict, record_of(row), ty, pos);
            }
        },
    }
}

/// Typechecking a switch gives a state that follows.
proof fn lemma_check_switch_table(
    n: nat,
    st: St,
    scope: Scope,
    strict: bool,
    exp: RichTerm,
    cases: Seq<(Ident, RichTerm)>,
    default: Option<RichTerm>,
    ty: Ty,
    pos: TermPos,
)
    requires
        run_check_switch(n, st, scope, strict, exp, cases, default, ty, pos) is Some,
    ensures
        follows(st, (run_check_switch(n, st, scope, strict, exp, cases, default, ty, pos)->0).0),
    decreases n, 2nat, 0int,
{
    broadcast use lemma_after_trans;

    let res = Ty::Ptr(next_var(st.table));
    let todo = fields_against(cases, res);
    lemma_new_var(st.table);
    lemma_check_seq_table(n, with_var(st), scope, strict, todo, 0);
    if let Some((st, Ok(()))) = run_check_seq(n, with_var(st), scope, strict, todo, 0) {
        match default {
            Some(t) => {
                law_check_table(n, st, scope, strict, t, res);
                if let Some((st, Ok(()))) = run_check(n, st, scope, strict, t, res) {
                    let row = Ty::Ptr(next_var(st.table));
                    lemma_new_var(st.table);
                    let st = with_var(st);
                    lemma_check_switched_table(n, st, scope, strict, exp, row, res, ty, pos);
                }
            },
            None => {
                let row = cases_row(cases);
                lemma_check_switched_table(n, st, scope, strict, exp, row, res, ty, pos);
            },
        }
    }
}

/// The same, for the expression of a switch.
pub proof fn lemma_check_switched_table(
    n: nat,
    st: St,
    scope: Scope,
    strict: bool,
    exp: RichTerm,
    row: Ty,
    res: Ty,
    ty: Ty,
    pos: TermPos,
)
    requires
        run_check_switched(n, st, scope, strict, exp, row, res, ty, pos) is Some,
    ensures
        follows(st, (run_check_switched(n, st, scope, strict, exp, row, res, ty, pos)->0).0),
    decreases n, 1nat, 0int,
{
    broadcast use lemma_after_trans;

    lemma_expect_table(n, st, strict, res, ty, pos);
    if let Some((st, Ok(()))) = run_expect(n, st, strict, res, ty, pos) {
        law_check_table(n, st, scope, strict, exp, enum_of(row));
    }
}

/// Typechecking a term with a type annotation gives a state that follows.
proof fn lemma_check_promise_table(
    n: nat,
    st: St,
    scope: Scope,
    strict: bool,
    ty2: Ty,
    t: RichTerm,
    ty: Ty,
    pos: TermPos,
)
    requires
        run_check_promise(n, st, scope, strict, ty2, t, ty, pos) is Some,
    ensures
        follows(st, (run_check_promise(n, st, scope, strict, ty2, t, ty, pos)->0).0),
    decreases n, 1nat, 0int,
{
    broadcast use lemma_after_trans;

    law_instantiate_table(n, st, ty2, ForallInst::Constant);
    if let Some((st, inst)) = run_instantiate(n, st, ty2, ForallInst::Constant) {
        lemma_expect_table(n, st, strict, ty2, ty, pos);
        if let Some((st, Ok(()))) = run_expect(n, st, strict, ty2, ty, pos) {
            law_check_table(n, st, scope, true, t, inst);
        }
    }
}

/// Typechecking a metavalue gives a state that follows.
proof fn lemma_check_meta_table(
    n: nat,
    st: St,
    scope: Scope,
    strict: bool,
    meta: MetaValue,
    ty: Ty,
    pos: TermPos,
)
    requires
        run_check_meta(n, st, scope, strict, meta, ty, pos) is Some,
    ensures
        follows(st, (run_check_meta(n, st, scope, strict, meta, ty, pos)->0).0),
    decreases n, 2nat, 0int,
{
    broadcast use lemma_after_trans;

    match (meta.types, meta.value) {
        (Some(ctr), Some(t)) => {
            lemma_check_promise_table(n, st, scope, strict, ctr.types@, t, ty, pos);
        },
        (_, value) => if meta.contracts@.len() > 0 {
            let ty2 = meta.contracts@[0].types@;
            lemma_expect_table(n, st, strict, ty2, ty, pos);
            if let Some((st, Ok(()))) = run_expect(n, st, strict, ty2, ty, pos) {
                if let Some(t) = value {
                    law_check_table(n, st, scope, false, t, Ty::Dyn);
                }
            }
        } else {
            match value {
                Some(t) => law_check_table(n, st, scope, strict, t, ty),
                None => lemma_expect_table(n, st, strict, Ty::Dyn, ty, pos),
            }
        },
    }
}

/// Typechecking a term gives a state that follows.
pub proof fn law_check_table(
    n: nat,
    st: St,
    scope: Scope,
    strict: bool,
    rt: RichTerm,
    ty: Ty,
)
    requires
        run_check(n, st, scope, strict, rt, ty) is Some,
    ensures
        follows(st, (run_check(n, st, scope, strict, rt, ty)->0).0),
    decreases n, 0nat, 0int,
{
    broadcast use lemma_after_trans;

    let m = (n - 1) as nat;
    let pos = rt.pos;
    let a = Ty::Ptr(next_var(st.table));
    let st1 = with_var(st);
    let b = Ty::Ptr(next_var(st1.table));
    let st2 = with_var(st1);
    lemma_after_refl(st.table);
    lemma_new_var(st.table);
    lemma_new_var(st1.table);
    match *rt.term {
        Term::Null => lemma_expect_table(m, st, strict, Ty::Dyn, ty, pos),
        Term::Bool(_) => lemma_expect_table(m, st, strict, Ty::Bool, ty, pos),
        Term::Num(_) => lemma_expect_table(m, st, strict, Ty::Num, ty, pos),
        Term::Str(_) => lemma_expect_table(m, st, strict, Ty::Str, ty, pos),
        Term::StrChunks(chunks) => {
            lemma_expect_table(m, st, strict, Ty::Str, ty, pos);
            if let Some((st, Ok(()))) = run_expect(m, st, strict, Ty::Str, ty, pos) {
                lemma_check_seq_table(m, st, scope, strict, chunks_against(chunks@), 0);
            }
        },
        Term::Fun(x, t) => {
            lemma_expect_table(m, st2, strict, arrow(a, b), ty, pos);
            if let Some((st, Ok(()))) = run_expect(m, st2, strict, arrow(a, b), ty, pos) {
                law_check_table(m, st, with_local(scope, x@, a), strict, t, b);
            }
        },
        Term::List(terms) => {
            lemma_expect_table(m, st1, strict, list_of(a), ty, pos);
            if let Some((st, Ok(()))) = run_expect(m, st1, strict, list_of(a), ty, pos) {
                lemma_check_seq_table(m, st, scope, strict, all_against(terms@, a), 0);
            }
        },
        Term::Lbl(_) => lemma_expect_table(m, st, strict, Ty::Dyn, ty, pos),
        Term::Let(x, re, body) => {
            lemma_bound_ty_table(st.table, scope, re, strict);
            let (table, ty_let) = bound_ty(st.table, scope, re, strict);
            let st = St { table, ..st };
            law_check_table(m, st, scope, strict, re, ty_let);
            if let Some((st, Ok(()))) = run_check(m, st, scope, strict, re, ty_let) {
                law_check_table(m, st, with_local(scope, x@, ty_let), strict, body, ty);
            }
        },
        Term::App(e, t) => {
            lemma_expect_table(m, st2, strict, b, ty, pos);
            if let Some((st, Ok(()))) = run_expect(m, st2, strict, b, ty, pos) {
                law_check_table(m, st, scope, strict, e, arrow(a, b));
                if let Some((st, Ok(()))) = run_check(m, st, scope, strict, e, arrow(a, b)) {
                    law_check_table(m, st, scope, strict, t, a);
                }
            }
        },
        Term::Switch(exp, cases, default) => {
            lemma_check_switch_table(m, st, scope, strict, exp, cases@, default, ty, pos);
        },
        Term::Var(x) => if let Some(x_ty) = in_scope(scope, x@) {
            law_instantiate_table(m, st, x_ty, ForallInst::Ptr);
            if let Some((st, inst)) = run_instantiate(m, st, x_ty, ForallInst::Ptr) {
                lemma_expect_table(m, st, strict, inst, ty, pos);
            }
        },
        Term::Enum(id) => {
            lemma_expect_table(m, st1, strict, enum_of(row_extend(id@, None, a)), ty, pos);
        },
        Term::Record(fields, _) => {
            lemma_check_record_table(m, st, scope, strict, false, fields@, ty, pos);
        },
        Term::RecRecord(fields, _) => {
            lemma_bind_fields_table(st.table, scope, strict, fields@, 0);
            let (table, scope) = bind_fields(st.table, scope, strict, fields@, 0);
            let st = St { table, ..st };
            lemma_check_record_table(m, st, scope, strict, true, fields@, ty, pos);
        },
        Term::Op1(op, t) => if is_typed_uop(op) {
            lemma_uop_table(st, op);
            let (st, arg, res) = uop_type(st, op);
            lemma_expect_table(m, st, strict, res, ty, pos);
            if let Some((st, Ok(()))) = run_expect(m, st, strict, res, ty, pos) {
                law_check_table(m, st, scope, strict, t, arg);
            }
        },
        Term::Op2(op, t1, t2) => if is_typed_bop(op) {
            lemma_bop_table(st, op);
            let (st, arg1, arg2, res) = bop_type(st, op);
            lemma_expect_table(m, st, strict, res, ty, pos);
            if let Some((st, Ok(()))) = run_expect(m, st, strict, res, ty, pos) {
                law_check_table(m, st, scope, strict, t1, arg1);
                if let Some((st, Ok(()))) = run_check(m, st, scope, strict, t1, arg1) {
                    law_check_table(m, st, scope, strict, t2, arg2);
                }
            }
        },
        Term::OpN(op, args) => if is_typed_nop(op) {
            let (types, res) = nop_type(op);
            lemma_expect_table(m, st, strict, res, ty, pos);
            if let Some((st, Ok(()))) = run_expect(m, st, strict, res, ty, pos) {
                lemma_check_seq_table(m, st, scope, strict, args_against(args@, types), 0);
            }
        },
        Term::Promise(ty2, _, t) => {
            lemma_check_promise_table(m, st, scope, strict, ty2@, t, ty, pos);
        },
        Term::Sym(_) => lemma_expect_table(m, st, strict, Ty::Sym, ty, pos),
        Term::Wrapped(_, t) => law_check_table(m, st, scope, strict, t, ty),
        Term::MetaValue(meta) => lemma_check_meta_table(m, st, scope, strict, meta, ty, pos),
        Term::Import(_) => lemma_expect_table(m, st, strict, Ty::Dyn, ty, pos),
        Term::ResolvedImport(_) => {},
    }
}

} // verus!
