//! Instantiation of polymorphic types.
use vstd::prelude::*;

use crate::cache::ImportResolver;
use crate::model::{Name, St, Ty};
use crate::typecheck::state::{
    constrain_var_within, max_depth, next_var, resolve_within, run_constrain_var, run_resolve,
    with_var, State,
};
use crate::typecheck::wrapper::{subst, TypeWrapper};
use crate::types::AbsType;

verus! {

/// Type of the parameter controlling instantiation of foralls.
#[derive(Copy, Clone, Debug, PartialEq, Eq, Structural)]
pub enum ForallInst {
    Constant,
    Ptr,
}

/// The number of quantifiers in head position.
pub open spec fn head_foralls(ty: Ty) -> nat
    decreases ty,
{
    match ty {
        Ty::Forall(_, t) => 1 + head_foralls(*t),
        _ => 0,
    }
}

/// Replacing a type variable by a type without quantifiers in head position does not change the
/// number of quantifiers in head position.
pub proof fn lemma_subst_head_foralls(ty: Ty, id: Name, to: Ty)
    requires
        !(to is Forall),
    ensures
        head_foralls(subst(ty, id, to)) == head_foralls(ty),
    decreases ty,
{
    match ty {
        Ty::Forall(i, t) => lemma_subst_head_foralls(*t, id, to),
        _ => {},
    }
}

/// The variable or the constant that instantiates a quantified type variable.
pub open spec fn instance(inst: ForallInst, p: usize) -> Ty {
    match inst {
        ForallInst::Constant => Ty::Constant(p),
        ForallInst::Ptr => Ty::Ptr(p),
    }
}

/// The outcome of instantiating the quantifiers in head position of a type, with calls of at most
/// `n` nested calls.
pub open spec fn run_instantiate_heads(n: nat, st: St, ty: Ty, inst: ForallInst) -> Option<(St, Ty)>
    decreases head_foralls(ty),
{
    match ty {
        Ty::Forall(id, body) => {
            let fresh_id = next_var(st.table);
            let ty = subst(*body, id, instance(inst, fresh_id));
            let st = with_var(st);
            let st = St { names: st.names.insert(fresh_id, id), ..st };
            proof {
                lemma_subst_head_foralls(*body, id, instance(inst, fresh_id));
            }
            match inst {
                ForallInst::Constant => run_instantiate_heads(n, st, ty, inst),
                ForallInst::Ptr => match run_constrain_var(n, st, Set::empty(), ty, fresh_id) {
                    None => None,
                    Some(st) => run_instantiate_heads(n, st, ty, inst),
                },
            }
        },
        _ => Some((st, ty)),
    }
}

/// The outcome of instantiating the quantifiers in head position of a type, or of the
/// representative of a variable, within `n` nested calls.
pub open spec fn run_instantiate(n: nat, st: St, ty: Ty, inst: ForallInst) -> Option<(St, Ty)> {
    if n == 0 {
        None
    } else {
        let m = (n - 1) as nat;
        match run_resolve(m, st.table, ty) {
            None => None,
            Some(ty) => run_instantiate_heads(m, st, ty, inst),
        }
    }
}

/// The outcome of a run that gives a type.
pub open spec fn type_outcome(res: Option<TypeWrapper>, st: St) -> Option<(St, Ty)> {
    match res {
        Some(ty) => Some((st, ty@)),
        None => None,
    }
}

/// Instantiate the type variables which are quantified in head position, within `limit` nested
/// calls.
pub fn instantiate_foralls_within<R: ImportResolver>(
    limit: usize,
    state: &mut State<R>,
    ty: TypeWrapper,
    inst: ForallInst,
) -> (res: Option<TypeWrapper>)
    ensures
        type_outcome(res, final(state)@) == run_instantiate(
            limit as nat,
            old(state)@,
            ty@,
            inst,
        ),
{
    if limit == 0 {
        return None;
    }
    let mut curr = match resolve_within(limit - 1, &state.table, ty) {
        Some(ty) => ty,
        None => return None,
    };
    let ghost out = run_instantiate(limit as nat, old(state)@, ty@, inst);
    loop
        invariant
            limit > 0,
            out == run_instantiate_heads((limit - 1) as nat, state@, curr@, inst),
            out == run_instantiate(limit as nat, old(state)@, ty@, inst),
        decreases head_foralls(curr@),
    {
        match curr {
            TypeWrapper::Concrete(AbsType::Forall(id, forall_ty)) => {
                let fresh_id = state.fresh();
                let var = match inst {
                    ForallInst::Constant => TypeWrapper::Constant(fresh_id),
                    ForallInst::Ptr => TypeWrapper::Ptr(fresh_id),
                };
                proof {
                    lemma_subst_head_foralls((*forall_ty)@, id@, var@);
                }
                state.set_name(fresh_id, id.clone());
                let ty = (*forall_ty).subst(id, var);
                if inst == ForallInst::Ptr {
                    match constrain_var_within(limit - 1, state, &ty, fresh_id) {
                        None => return None,
                        Some(()) => {},
                    }
                }
                curr = ty;
            },
            ty => return Some(ty),
        }
    }
}

/// Instantiate the type variables which are quantified in head position with either unification
/// variables or type constants.
///
/// For example, if `inst` is `Constant`, `forall a. forall b. a -> (forall c. b -> c)` is
/// transformed to `cst1 -> (forall c. cst2 -> c)` where `cst1` and `cst2` are fresh type
/// constants.  This is used when typechecking `forall`s: all quantified type variables in head
/// position are replaced by rigid type constants, and the term is then typechecked normally. As
/// these constants cannot be unified with anything, this forces all the occurrences of a type
/// variable to be the same type.
///
/// # Parameters
/// - `state`: the unification state
/// - `ty`: the polymorphic type to instantiate
/// - `inst`: the type of instantiation, either by a type constant or by a unification variable
pub fn instantiate_foralls<R: ImportResolver>(
    state: &mut State<R>,
    ty: TypeWrapper,
    inst: ForallInst,
) -> (res: TypeWrapper)
    requires
        run_instantiate(max_depth(), old(state)@, ty@, inst) is Some,
    ensures
        type_outcome(Some(res), final(state)@) == run_instantiate(
            max_depth(),
            old(state)@,
            ty@,
            inst,
        ),
{
    instantiate_foralls_within(usize::MAX, state, ty, inst).unwrap()
}

} // verus!
