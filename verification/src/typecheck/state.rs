//! The unification state: the unification table and the row constraints.
//!
//! Following the links of the table, or the components of a type through it, may not end: nothing
//! keeps a variable from being unified with a type that contains it. The functions that do so take
//! a bound on the number of their nested calls, or require that they return within the largest one.
use vstd::prelude::*;
use std::collections::HashMap;

use crate::cache::ImportResolver;
use crate::identifier::{Ident, IdentSet};
use crate::model::{unbox, Constr, Name, RowErr, St, Table, Ty};
use crate::typecheck::errors::RowUnifError;
use crate::typecheck::wrapper::{clone_opt, opt_ty, unbox_opt, TypeWrapper};
use crate::types::AbsType;

verus! {

/// The unification table.
///
/// Map each unification variable to either another type variable or a concrete type it has been
/// unified with. Each binding `(ty, var)` in this map should be thought of an edge in a
/// unification graph.
pub type UnifTable = HashMap<usize, Option<TypeWrapper>>;

/// Row constraints.
///
/// A row constraint applies to a unification variable appearing inside a row type (such as `r` in
/// `{ someId: SomeType | r }`). It is a set of identifiers that said row must NOT contain, to
/// forbid ill-formed types with multiple declaration of the same id, for example `{ a: Num, a:
/// String}`.
pub type RowConstr = HashMap<usize, IdentSet>;

/// The model of a unification table.
pub open spec fn table_of(table: UnifTable) -> Table {
    table@.map_values(|ty: Option<TypeWrapper>| opt_ty(ty))
}

/// The model of row constraints.
pub open spec fn constr_of(constr: RowConstr) -> Constr {
    constr@.map_values(|ids: IdentSet| ids@)
}

/// The model of the names of unification variables and constants.
pub open spec fn names_of(names: HashMap<usize, Ident>) -> Map<usize, Name> {
    names@.map_values(|id: Ident| id@)
}

/// The largest bound on the number of nested calls.
pub open spec fn max_depth() -> nat {
    usize::MAX as nat
}

/// The shared state of unification.
pub struct State<'a, R: ImportResolver> {
    /// The import resolver, to retrieve and typecheck imports.
    pub resolver: &'a R,
    /// The unification table.
    pub table: UnifTable,
    /// Row constraints.
    pub constr: RowConstr,
    /// A mapping from unification variable or constants to the name of the corresponding type
    /// variable which introduced it, if any.
    ///
    /// Used for error reporting.
    pub names: HashMap<usize, Ident>,
}

impl<'a, R: ImportResolver> View for State<'a, R> {
    type V = St;

    open spec fn view(&self) -> St {
        St {
            table: table_of(self.table),
            constr: constr_of(self.constr),
            names: names_of(self.names),
            imports: self.resolver.terms(),
        }
    }
}

/// The state without variables, constraints and names.
pub open spec fn initial(imports: Map<usize, crate::term::RichTerm>) -> St {
    St {
        table: Map::empty(),
        constr: Map::empty(),
        names: Map::empty(),
        imports,
    }
}

/// The next variable that a table gives out: the number of its variables.
pub open spec fn next_var(table: Table) -> usize {
    table.dom().len() as usize
}

/// The state with a new free variable, which is `next_var(st.table)`.
pub open spec fn with_var(st: St) -> St {
    St { table: st.table.insert(next_var(st.table), None), ..st }
}

/// The state with a variable bound to a type.
pub open spec fn with_binding(st: St, p: usize, ty: Ty) -> St {
    St { table: st.table.insert(p, Some(ty)), ..st }
}

/// Create a fresh unification variable.
pub fn new_var(table: &mut UnifTable) -> (res: usize)
    ensures
        res == next_var(table_of(*old(table))),
        table_of(*final(table)) == table_of(*old(table)).insert(res, None),
{
    broadcast use vstd::std_specs::hash::group_hash_axioms;

    let next: usize = table.len();
    assert(table_of(*table).dom() =~= table@.dom());
    table.insert(next, None);
    assert(table_of(*table) =~= table_of(*old(table)).insert(next, None));
    next
}

impl<'a, R: ImportResolver> State<'a, R> {
    /// A state without variables, constraints and names.
    pub fn new(resolver: &'a R) -> (res: State<'a, R>)
        ensures
            res@ == initial(resolver.terms()),
    {
        let state = State {
            resolver,
            table: HashMap::new(),
            constr: HashMap::new(),
            names: HashMap::new(),
        };
        assert(state@.table =~= Map::empty());
        assert(state@.constr =~= Map::empty());
        assert(state@.names =~= Map::empty());
        state
    }

    /// The number of variables of the table.
    pub fn var_count(&self) -> (res: usize)
        ensures
            self@.table.dom().finite(),
            res == self@.table.dom().len(),
    {
        broadcast use vstd::std_specs::hash::group_hash_axioms;

        assert(self@.table.dom() =~= self.table@.dom());
        self.table.len()
    }

    /// Create a fresh unification variable in the table.
    pub fn fresh(&mut self) -> (res: usize)
        ensures
            res == next_var(old(self)@.table),
            final(self)@ == with_var(old(self)@),
    {
        new_var(&mut self.table)
    }

    /// Bind a variable to a type in the table.
    pub fn bind(&mut self, p: usize, ty: TypeWrapper)
        ensures
            final(self)@ == with_binding(old(self)@, p, ty@),
    {
        broadcast use vstd::std_specs::hash::group_hash_axioms;

        self.table.insert(p, Some(ty));
        assert(self@.table =~= old(self)@.table.insert(p, Some(ty@)));
    }

    /// Record the name of the type variable that introduced a variable or a constant.
    pub fn set_name(&mut self, p: usize, id: Ident)
        ensures
            final(self)@ == (St { names: old(self)@.names.insert(p, id@), ..old(self)@ }),
    {
        broadcast use vstd::std_specs::hash::group_hash_axioms;

        self.names.insert(p, id);
        assert(self@.names =~= old(self)@.names.insert(p, id@));
    }
}

/// The representative of the equivalence class of a variable, found in at most `n` steps: the
/// variable that ends the chain of links from it, if that variable is free, and else the type that
/// it is bound to. There is none if the chain leaves the table or is longer.
pub open spec fn run_root(n: nat, table: Table, x: usize) -> Option<Ty>
    decreases n,
{
    if n == 0 || !table.contains_key(x) {
        None
    } else {
        match table[x] {
            None => Some(Ty::Ptr(x)),
            Some(Ty::Ptr(y)) => run_root((n - 1) as nat, table, y),
            Some(ty) => Some(ty),
        }
    }
}

/// A type, or the representative of it if it is a variable.
pub open spec fn run_resolve(n: nat, table: Table, ty: Ty) -> Option<Ty> {
    match ty {
        Ty::Ptr(p) => run_root(n, table, p),
        _ => Some(ty),
    }
}

/// The links in the unification table from a variable to its representative, followed for at most
/// `limit` steps.
pub fn get_root_within(limit: usize, table: &UnifTable, x: usize) -> (res: Option<TypeWrapper>)
    ensures
        opt_ty(res) == run_root(limit as nat, table_of(*table), x),
{
    broadcast use vstd::std_specs::hash::group_hash_axioms;

    let mut left: usize = limit;
    let mut curr: usize = x;
    while left > 0
        invariant
            left <= limit,
            run_root(limit as nat, table_of(*table), x) == run_root(
                left as nat,
                table_of(*table),
                curr,
            ),
        decreases left,
    {
        match table.get(&curr) {
            None => {
                return None;
            },
            Some(None) => {
                return Some(TypeWrapper::Ptr(curr));
            },
            Some(Some(TypeWrapper::Ptr(y))) => {
                curr = *y;
                left -= 1;
            },
            Some(Some(ty)) => {
                return Some(ty.clone());
            },
        }
    }
    None
}

/// Follow the links in the unification table to find the representative of the equivalence class
/// of unification variable `x`.
///
/// This corresponds to the find in union-find. All queried variables must have been introduced by
/// `new_var`, and thus a corresponding entry must always exist in the table.
pub fn get_root(table: &UnifTable, x: usize) -> (res: TypeWrapper)
    requires
        run_root(max_depth(), table_of(*table), x) is Some,
    ensures
        res@ == run_root(max_depth(), table_of(*table), x)->0,
{
    get_root_within(usize::MAX, table, x).unwrap()
}

/// The representative of a type.
pub fn resolve_within(limit: usize, table: &UnifTable, ty: TypeWrapper) -> (res: Option<
    TypeWrapper,
>)
    ensures
        opt_ty(res) == run_resolve(limit as nat, table_of(*table), ty@),
{
    match ty {
        TypeWrapper::Ptr(p) => get_root_within(limit, table, p),
        ty => Some(ty),
    }
}

/// The constraints with one more identifier that a variable must not be given.
pub open spec fn forbid(constr: Constr, p: usize, id: Name) -> Constr {
    constr.insert(
        p,
        if constr.contains_key(p) {
            constr[p].insert(id)
        } else {
            Set::empty().insert(id)
        },
    )
}

impl<'a, R: ImportResolver> State<'a, R> {
    /// Add an identifier to those that a variable must not be given.
    pub fn forbid(&mut self, p: usize, id: Ident)
        ensures
            final(self)@ == (St { constr: forbid(old(self)@.constr, p, id@), ..old(self)@ }),
    {
        broadcast use vstd::std_specs::hash::group_hash_axioms;

        let mut ids = match self.constr.remove(&p) {
            Some(ids) => ids,
            None => IdentSet::new(),
        };
        ids.insert(id);
        self.constr.insert(p, ids);
        assert(self@.constr =~= forbid(old(self)@.constr, p, id@));
    }
}

/// The constraints with more identifiers that a variable must not be given.
pub open spec fn forbid_all(constr: Constr, p: usize, ids: Set<Name>) -> Constr {
    constr.insert(
        p,
        (if constr.contains_key(p) {
            constr[p]
        } else {
            Set::empty()
        }).union(ids),
    )
}

/// The constraints with those of a variable added to the ones of another.
pub open spec fn inherit(constr: Constr, p: usize, u: usize) -> Constr {
    if constr.contains_key(p) {
        forbid_all(constr, u, constr[p])
    } else {
        constr
    }
}

impl<'a, R: ImportResolver> State<'a, R> {
    /// Add identifiers to those that a variable must not be given.
    pub fn forbid_all(&mut self, p: usize, ids: IdentSet)
        ensures
            final(self)@ == (St { constr: forbid_all(old(self)@.constr, p, ids@), ..old(self)@ }),
    {
        broadcast use vstd::std_specs::hash::group_hash_axioms;

        let mut all = match self.constr.remove(&p) {
            Some(all) => all,
            None => IdentSet::new(),
        };
        all.extend(&ids);
        self.constr.insert(p, all);
        assert(self@.constr =~= forbid_all(old(self)@.constr, p, ids@));
    }

    /// Add the identifiers that the variable `p` must not be given to those of the variable `u`.
    pub fn inherit(&mut self, p: usize, u: usize)
        ensures
            final(self)@ == (St { constr: inherit(old(self)@.constr, p, u), ..old(self)@ }),
    {
        broadcast use vstd::std_specs::hash::group_hash_axioms;

        let ids = match self.constr.get(&p) {
            Some(ids) => ids.clone(),
            None => {
                return;
            },
        };
        self.forbid_all(u, ids);
    }
}

/// The outcome of adding a row constraint on a type, within `n` nested calls.
pub open spec fn run_constraint(n: nat, st: St, ty: Ty, id: Name) -> Option<
    (St, Result<(), RowErr>),
>
    decreases n,
{
    if n == 0 {
        None
    } else {
        let m = (n - 1) as nat;
        match ty {
            Ty::Ptr(p) => match run_root(m, st.table, p) {
                None => None,
                Some(Ty::Ptr(root)) => Some(
                    (St { constr: forbid(st.constr, root, id), ..st }, Ok(())),
                ),
                Some(Ty::Constant(c)) => Some((st, Err(RowErr::IllformedRow(Ty::Constant(c))))),
                Some(ty) => run_constraint(m, st, ty, id),
            },
            Ty::RowEmpty => Some((st, Ok(()))),
            Ty::RowExtend(id2, t, tail) => if id2 == id {
                Some((st, Err(RowErr::UnsatConstr(id, unbox(t)))))
            } else {
                run_constraint(m, st, *tail, id)
            },
            other => Some((st, Err(RowErr::IllformedRow(other)))),
        }
    }
}

/// The outcome of a run that may fail with a row unification error.
pub open spec fn row_outcome(res: Option<Result<(), RowUnifError>>, st: St) -> Option<
    (St, Result<(), RowErr>),
> {
    match res {
        Some(Ok(())) => Some((st, Ok(()))),
        Some(Err(err)) => Some((st, Err(err@))),
        None => None,
    }
}

/// Add a row constraint on a type, within `limit` nested calls.
pub fn constraint_within<R: ImportResolver>(
    limit: usize,
    state: &mut State<R>,
    x: TypeWrapper,
    id: Ident,
) -> (res: Option<Result<(), RowUnifError>>)
    ensures
        row_outcome(res, final(state)@) == run_constraint(limit as nat, old(state)@, x@, id@),
    decreases limit,
{
    if limit == 0 {
        return None;
    }
    match x {
        TypeWrapper::Ptr(p) => match get_root_within(limit - 1, &state.table, p) {
            None => None,
            Some(TypeWrapper::Ptr(root)) => {
                state.forbid(root, id);
                Some(Ok(()))
            },
            Some(TypeWrapper::Constant(c)) => Some(
                Err(RowUnifError::IllformedRow(TypeWrapper::Constant(c))),
            ),
            Some(ty) => constraint_within(limit - 1, state, ty, id),
        },
        TypeWrapper::Concrete(AbsType::RowEmpty()) => Some(Ok(())),
        TypeWrapper::Concrete(AbsType::RowExtend(id2, tyw, t)) => {
            if id2.same(&id) {
                Some(Err(RowUnifError::UnsatConstr(id, unbox_opt(tyw))))
            } else {
                constraint_within(limit - 1, state, *t, id)
            }
        },
        other => Some(Err(RowUnifError::IllformedRow(other))),
    }
}

/// Add a row constraint on a type.
pub fn constraint<R: ImportResolver>(
    state: &mut State<R>,
    x: TypeWrapper,
    id: Ident,
) -> (res: Result<(), RowUnifError>)
    requires
        run_constraint(max_depth(), old(state)@, x@, id@) is Some,
    ensures
        row_outcome(Some(res), final(state)@) == run_constraint(
            max_depth(),
            old(state)@,
            x@,
            id@,
        ),
{
    constraint_within(usize::MAX, state, x, id).unwrap()
}

/// The outcome of adding the row constraints of the variable `p` that its occurrences in a type ask
/// for, within `n` nested calls. The identifiers that precede the type in its row are `ids`.
pub open spec fn run_constrain_var(n: nat, st: St, ids: Set<Name>, ty: Ty, p: usize) -> Option<St>
    decreases n,
{
    if n == 0 {
        None
    } else {
        let m = (n - 1) as nat;
        match ty {
            Ty::Ptr(u) => if p == u && ids != Set::<Name>::empty() {
                Some(St { constr: forbid_all(st.constr, p, ids), ..st })
            } else {
                match run_root(m, st.table, u) {
                    None => None,
                    Some(Ty::Ptr(_)) => Some(st),
                    Some(ty) => run_constrain_var(m, st, ids, ty, p),
                }
            },
            Ty::Arrow(s, t) => match run_constrain_var(m, st, Set::empty(), *s, p) {
                None => None,
                Some(st) => run_constrain_var(m, st, Set::empty(), *t, p),
            },
            Ty::Forall(_, t) => run_constrain_var(m, st, Set::empty(), *t, p),
            Ty::List(t) => run_constrain_var(m, st, Set::empty(), *t, p),
            Ty::RowExtend(id, t, rest) => {
                let ids = ids.insert(id);
                match t {
                    None => run_constrain_var(m, st, ids, *rest, p),
                    Some(t) => match run_constrain_var(m, st, Set::empty(), *t, p) {
                        None => None,
                        Some(st) => run_constrain_var(m, st, ids, *rest, p),
                    },
                }
            },
            Ty::Enum(row) => run_constrain_var(m, st, ids, *row, p),
            Ty::StaticRecord(row) => run_constrain_var(m, st, ids, *row, p),
            Ty::DynRecord(t) => run_constrain_var(m, st, ids, *t, p),
            _ => Some(st),
        }
    }
}

/// The outcome of a run that changes the state only.
pub open spec fn state_outcome(res: Option<()>, st: St) -> Option<St> {
    match res {
        Some(()) => Some(st),
        None => None,
    }
}

/// Add the row constraints of `p` that its occurrences in a type ask for, given the identifiers
/// that precede the type in its row.
fn constrain_var_from<R: ImportResolver>(
    limit: usize,
    state: &mut State<R>,
    ids: IdentSet,
    tyw: &TypeWrapper,
    p: usize,
) -> (res: Option<()>)
    ensures
        state_outcome(res, final(state)@) == run_constrain_var(
            limit as nat,
            old(state)@,
            ids@,
            tyw@,
            p,
        ),
    decreases limit,
{
    broadcast use vstd::std_specs::hash::group_hash_axioms;

    if limit == 0 {
        return None;
    }
    match tyw {
        TypeWrapper::Ptr(u) => {
            if p == *u && !ids.is_empty() {
                state.forbid_all(p, ids);
                return Some(());
            }
            match get_root_within(limit - 1, &state.table, *u) {
                None => None,
                Some(TypeWrapper::Ptr(_)) => Some(()),
                Some(tyw) => constrain_var_from(limit - 1, state, ids, &tyw, p),
            }
        },
        TypeWrapper::Constant(_) => Some(()),
        TypeWrapper::Concrete(ty) => match ty {
            AbsType::Arrow(tyw1, tyw2) => {
                match constrain_var_from(limit - 1, state, IdentSet::new(), &**tyw1, p) {
                    None => None,
                    Some(()) => constrain_var_from(limit - 1, state, IdentSet::new(), &**tyw2, p),
                }
            },
            AbsType::Forall(_, tyw) => constrain_var_from(
                limit - 1,
                state,
                IdentSet::new(),
                &**tyw,
                p,
            ),
            AbsType::List(tyw) => constrain_var_from(limit - 1, state, IdentSet::new(), &**tyw, p),
            AbsType::RowExtend(id, tyw, rest) => {
                let mut ids = ids;
                ids.insert(id.clone());
                match tyw {
                    None => {},
                    Some(tyw) => match constrain_var_from(
                        limit - 1,
                        state,
                        IdentSet::new(),
                        &**tyw,
                        p,
                    ) {
                        None => {
                            return None;
                        },
                        Some(()) => {},
                    },
                }
                constrain_var_from(limit - 1, state, ids, &**rest, p)
            },
            AbsType::Enum(row) => constrain_var_from(limit - 1, state, ids, &**row, p),
            AbsType::StaticRecord(row) => constrain_var_from(limit - 1, state, ids, &**row, p),
            AbsType::DynRecord(tyw) => constrain_var_from(limit - 1, state, ids, &**tyw, p),
            AbsType::Dyn()
            | AbsType::Num()
            | AbsType::Bool()
            | AbsType::Str()
            | AbsType::Sym()
            | AbsType::Flat(_)
            | AbsType::RowEmpty()
            | AbsType::Var(_) => Some(()),
        },
    }
}

/// Add row constraints on a freshly instantiated type variable, within `limit` nested calls.
pub fn constrain_var_within<R: ImportResolver>(
    limit: usize,
    state: &mut State<R>,
    tyw: &TypeWrapper,
    p: usize,
) -> (res: Option<()>)
    ensures
        state_outcome(res, final(state)@) == run_constrain_var(
            limit as nat,
            old(state)@,
            Set::empty(),
            tyw@,
            p,
        ),
{
    constrain_var_from(limit, state, IdentSet::new(), tyw, p)
}

/// Add row constraints on a freshly instantiated type variable.
///
/// When instantiating a quantified type variable with a unification variable, row constraints may
/// apply. For example, if we instantiate `forall a. {x: Num | a} -> Num` by replacing `a` with a
/// unification variable `Ptr(p)`, this unification variable requires a constraint to avoid being
/// unified with a row type containing another declaration for the field `x`. A variable that ends
/// several rows of the type gets the constraints of all of them.
pub fn constrain_var<R: ImportResolver>(state: &mut State<R>, tyw: &TypeWrapper, p: usize)
    requires
        run_constrain_var(max_depth(), old(state)@, Set::empty(), tyw@, p) is Some,
    ensures
        Some(final(state)@) == run_constrain_var(
            max_depth(),
            old(state)@,
            Set::empty(),
            tyw@,
            p,
        ),
{
    constrain_var_within(usize::MAX, state, tyw, p).unwrap()
}

/// The outcome of handing the constraints `ids` of the variable `p` down a type that `p` is unified
/// with: no identifier of the row may be in `ids`, and a variable that ends it inherits them.
pub open spec fn hand_down(constr: Constr, ids: Set<Name>, p: usize, ty: Ty) -> (
    Constr,
    Result<(), RowErr>,
)
    decreases ty,
{
    match ty {
        Ty::RowExtend(id, t, tail) => if ids.contains(id) {
            (constr, Err(RowErr::UnsatConstr(id, unbox(t))))
        } else {
            hand_down(constr, ids, p, *tail)
        },
        Ty::Ptr(u) => if u != p {
            (
                constr.insert(
                    u,
                    if constr.contains_key(u) {
                        constr[u].union(ids)
                    } else {
                        ids
                    },
                ),
                Ok(()),
            )
        } else {
            (constr, Ok(()))
        },
        _ => (constr, Ok(())),
    }
}

/// The outcome of unifying a variable with a type, as to the row constraints.
pub open spec fn unify_constr(constr: Constr, p: usize, ty: Ty) -> (Constr, Result<(), RowErr>) {
    if constr.contains_key(p) {
        hand_down(constr.remove(p), constr[p], p, ty)
    } else {
        (constr, Ok(()))
    }
}

/// A row whose end is followed through the table: a variable that ends it and is bound already is
/// replaced by what it is bound to. At most `k` variables are replaced.
pub open spec fn full_row(k: nat, table: Table, ty: Ty) -> Ty
    decreases k, ty,
{
    match ty {
        Ty::RowExtend(id, t, tail) => Ty::RowExtend(id, t, Box::new(full_row(k, table, *tail))),
        Ty::Ptr(u) => if k > 0 && table.contains_key(u) {
            match table[u] {
                Some(ty) => full_row((k - 1) as nat, table, ty),
                None => Ty::Ptr(u),
            }
        } else {
            Ty::Ptr(u)
        },
        _ => ty,
    }
}

/// Follow the end of a row through the table, for at most `limit` variables.
pub fn follow_row(limit: usize, table: &UnifTable, tyw: &TypeWrapper) -> (res: TypeWrapper)
    ensures
        res@ == full_row(limit as nat, table_of(*table), tyw@),
    decreases limit, tyw,
{
    broadcast use vstd::std_specs::hash::group_hash_axioms;

    match tyw {
        TypeWrapper::Concrete(AbsType::RowExtend(id, ty, tail)) => {
            let tail = follow_row(limit, table, &**tail);
            TypeWrapper::Concrete(AbsType::RowExtend(id.clone(), clone_opt(ty), Box::new(tail)))
        },
        TypeWrapper::Ptr(u) => {
            if limit > 0 {
                if let Some(Some(ty)) = table.get(u) {
                    return follow_row(limit - 1, table, ty);
                }
            }
            TypeWrapper::Ptr(*u)
        },
        ty => ty.clone(),
    }
}

/// The model of a result with a row unification error.
pub open spec fn row_result(res: Result<(), RowUnifError>) -> Result<(), RowErr> {
    match res {
        Ok(()) => Ok(()),
        Err(err) => Err(err@),
    }
}

/// Check that unifying a variable with a type doesn't violate row constraints, and update the row
/// constraints of the unified type accordingly if needed.
///
/// When a unification variable `Ptr(p)` is unified with a type `tyw` which is either a row type or
/// another unification variable which could be later unified with a row type itself, the following
/// operations are required:
///
/// 1. If `tyw` is a concrete row, check that it doesn't contain an identifier which is forbidden
///    by a row constraint on `p`.
/// 2. If the type is either a unification variable or a row type ending with a unification
///    variable `Ptr(u)`, we must add the constraints of `p` to the constraints of `u`. Indeed,
///    take the following situation: `p` appears in a row type `{a: Num | p}`, hence has a
///    constraint that it must not contain a field `a`. Then `p` is unified with a fresh type
///    variable `u`. If we don't constrain `u`, `u` could be unified later with a row type `{a :
///    Str}` which violates the original constraint on `p`. Thus, when unifying `p` with `u` or a
///    row ending with `u`, `u` must inherit all the constraints of `p`.
///
/// If `tyw` is neither a row nor a unification variable, `constr_unify` immediately returns
/// `Ok(())`.
pub fn constr_unify(constr: &mut RowConstr, p: usize, tyw: &TypeWrapper) -> (res: Result<
    (),
    RowUnifError,
>)
    ensures
        (constr_of(*final(constr)), row_result(res)) == unify_constr(
            constr_of(*old(constr)),
            p,
            tyw@,
        ),
{
    broadcast use vstd::std_specs::hash::group_hash_axioms;

    let p_constr = match constr.remove(&p) {
        Some(p_constr) => p_constr,
        None => {
            assert(constr_of(*constr) =~= constr_of(*old(constr)));
            return Ok(());
        },
    };
    assert(constr_of(*constr) =~= constr_of(*old(constr)).remove(p));
    let ghost before = constr_of(*constr);
    let mut curr: &TypeWrapper = tyw;
    loop
        invariant
            constr_of(*constr) == before,
            before == constr_of(*old(constr)).remove(p),
            constr_of(*old(constr)).contains_key(p),
            p_constr@ == constr_of(*old(constr))[p],
            hand_down(before, p_constr@, p, tyw@) == hand_down(before, p_constr@, p, curr@),
        decreases curr,
    {
        match curr {
            TypeWrapper::Concrete(AbsType::RowExtend(ident, ty, tail)) => {
                if p_constr.contains(ident) {
                    return Err(
                        RowUnifError::UnsatConstr(
                            ident.clone(),
                            match ty {
                                Some(ty) => Some((**ty).clone()),
                                None => None,
                            },
                        ),
                    );
                }
                curr = &**tail;
            },
            TypeWrapper::Ptr(u) => {
                if *u == p {
                    return Ok(());
                }
                let ids = match constr.remove(u) {
                    Some(mut u_constr) => {
                        u_constr.extend(&p_constr);
                        u_constr
                    },
                    None => p_constr,
                };
                constr.insert(*u, ids);
                assert(constr_of(*constr) =~= hand_down(before, p_constr@, p, curr@).0);
                return Ok(());
            },
            _ => {
                return Ok(());
            },
        }
    }
}

} // verus!
