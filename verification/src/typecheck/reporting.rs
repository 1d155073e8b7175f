//! Helpers to convert a `TypeWrapper` to a human-readable `Types` representation for error
//! reporting purpose.
use vstd::prelude::*;
use std::collections::HashMap;
use vstd::string::*;

use crate::cache::ImportResolver;
use crate::error::{opt_types, TypecheckError};
use crate::identifier::{Ident, IdentSet};
use crate::model::{CheckErr, Name, St, Ty, UErr};
use crate::position::TermPos;
use crate::typecheck::errors::{arrow_err_on_arrows, type_path, UnifError};
use crate::typecheck::naming::{find_uniq_name, letter, mk_letter, uniq_name};
use crate::typecheck::state::{get_root_within, max_depth, names_of, run_root, State};
use crate::typecheck::wrapper::{opt_ty, TypeWrapper};
use crate::types::{AbsType, Types};

verus! {

/// The model of a name registry.
pub struct Reg {
    /// The names that variables and constants have been given.
    pub reg: Map<usize, Name>,
    /// The names that are taken.
    pub taken: Set<Name>,
    /// The number of names generated for variables.
    pub var_count: usize,
    /// The number of names generated for constants.
    pub cst_count: usize,
}

/// A name registry used to replace unification variables and type constants with human-readable
/// and distinct names when reporting errors.
pub struct NameReg {
    reg: HashMap<usize, Ident>,
    taken: IdentSet,
    var_count: usize,
    cst_count: usize,
}

impl View for NameReg {
    type V = Reg;

    closed spec fn view(&self) -> Reg {
        Reg {
            reg: names_of(self.reg),
            taken: self.taken@,
            var_count: self.var_count,
            cst_count: self.cst_count,
        }
    }
}

/// The registry without names.
pub open spec fn no_names() -> Reg {
    Reg { reg: Map::empty(), taken: Set::empty(), var_count: 0, cst_count: 0 }
}

impl NameReg {
    /// A registry without names.
    pub fn new() -> (res: Self)
        ensures
            res@ == no_names(),
    {
        let res = NameReg {
            reg: HashMap::new(),
            taken: IdentSet::new(),
            var_count: 0,
            cst_count: 0,
        };
        assert(res@.reg =~= Map::empty());
        res
    }

    /// The name that a variable or a constant has been given.
    fn lookup(&self, id: usize) -> (res: Option<Ident>)
        ensures
            match res {
                Some(name) => self@.reg.contains_key(id) && self@.reg[id] == name@,
                None => !self@.reg.contains_key(id),
            },
    {
        broadcast use vstd::std_specs::hash::group_hash_axioms;

        match self.reg.get(&id) {
            Some(name) => Some(name.clone()),
            None => None,
        }
    }
}

/// The name candidate for a variable or a constant, with the next value of the counter: the name
/// of the type variable that introduced it, or else a letter. There is none if the counter is at
/// its end.
pub open spec fn name_candidate(names: Map<usize, Name>, counter: usize, id: usize) -> Option<
    (usize, Name),
> {
    if names.contains_key(id) {
        Some((counter, names[id]))
    } else if counter == usize::MAX {
        None
    } else {
        Some(((counter + 1) as usize, letter((counter % 26) as nat)))
    }
}

/// The model of a generated name.
pub open spec fn name_outcome(res: Option<String>, counter: usize) -> Option<(usize, Name)> {
    match res {
        Some(name) => Some((counter, name@)),
        None => None,
    }
}

/// Create a fresh name candidate for a type variable or a type constant.
///
/// To select a candidate, first check in `names` if the variable or the constant corresponds to a
/// type variable written by the user. If it is, return the name of the variable. Otherwise, use
/// the given counter to generate a new single letter.
///
/// Generated name is clearly not necessarily unique. This is handled by `select_uniq`.
fn mk_name(names: &HashMap<usize, Ident>, counter: &mut usize, id: usize) -> (res: Option<String>)
    ensures
        name_outcome(res, *final(counter)) == name_candidate(names_of(*names), *old(counter), id),
{
    broadcast use vstd::std_specs::hash::group_hash_axioms;

    match names.get(&id) {
        // First check if that constant or variable was introduced by a forall. If it was, try
        // to use the same name.
        Some(orig) => Some(orig.0.clone()),
        None => {
            //Otherwise, generate a new character
            let next: usize = *counter;
            if next == usize::MAX {
                return None;
            }
            *counter = next + 1;
            Some(mk_letter(next % 26))
        },
    }
}

/// The registry with a name given to a variable or a constant.
pub open spec fn with_name(reg: Reg, name: Name, id: usize) -> Reg {
    Reg { reg: reg.reg.insert(id, name), taken: reg.taken.insert(name), ..reg }
}

/// Select a name distinct from all the others, starting from a candidate name for a type
/// variable or a type constant.
///
/// If the name is already taken, it just iterates by adding a numeric suffix `1`, `2`, .., and
/// so on until a free name is found. See `var_to_type` and `cst_to_type`.
fn select_uniq(name_reg: &mut NameReg, name: String, id: usize) -> (res: Ident)
    ensures
        res@ == uniq_name(old(name_reg)@.taken, name@),
        !old(name_reg)@.taken.contains(res@),
        final(name_reg)@ == with_name(old(name_reg)@, res@, id),
{
    broadcast use vstd::std_specs::hash::group_hash_axioms;

    let ident = find_uniq_name(&name_reg.taken, Ident(name));
    name_reg.taken.insert(ident.clone());
    name_reg.reg.insert(id, ident.clone());
    assert(name_reg@.reg =~= old(name_reg)@.reg.insert(id, ident@));
    ident
}

/// The type variable that stands for a unification variable, and the registry that has its name.
pub open spec fn report_var(names: Map<usize, Name>, reg: Reg, p: usize) -> Option<(Reg, Ty)> {
    if reg.reg.contains_key(p) {
        Some((reg, Ty::Var(reg.reg[p])))
    } else {
        match name_candidate(names, reg.var_count, p) {
            None => None,
            Some((var_count, name)) => {
                let name = uniq_name(reg.taken, "_"@ + name);
                Some((with_name(Reg { var_count, ..reg }, name, p), Ty::Var(name)))
            },
        }
    }
}

/// The type variable that stands for a type constant, and the registry that has its name.
pub open spec fn report_cst(names: Map<usize, Name>, reg: Reg, c: usize) -> Option<(Reg, Ty)> {
    if reg.reg.contains_key(c) {
        Some((reg, Ty::Var(reg.reg[c])))
    } else {
        match name_candidate(names, reg.cst_count, c) {
            None => None,
            Some((cst_count, name)) => {
                let name = uniq_name(reg.taken, name);
                Some((with_name(Reg { cst_count, ..reg }, name, c), Ty::Var(name)))
            },
        }
    }
}

/// The model of a reported type.
pub open spec fn report_outcome(res: Option<Types>, reg: Reg) -> Option<(Reg, Ty)> {
    match res {
        Some(ty) => Some((reg, ty@)),
        None => None,
    }
}

/// Either retrieve or generate a new fresh name for a unification variable for error reporting,
/// and wrap it as a type variable. Unification variables are named `_a`, `_b`, .., `_a1`, `_b1`, ..
/// and so on.
fn var_to_type(names: &HashMap<usize, Ident>, name_reg: &mut NameReg, p: usize) -> (res: Option<
    Types,
>)
    ensures
        report_outcome(res, final(name_reg)@) == report_var(
            names_of(*names),
            old(name_reg)@,
            p,
        ),
{
    let ident = match name_reg.lookup(p) {
        Some(ident) => ident,
        None => {
            // Select a candidate name and add a "_" prefix
            match mk_name(names, &mut name_reg.var_count, p) {
                None => return None,
                Some(candidate) => {
                    let mut name = String::from_str("_");
                    name.append(candidate.as_str());
                    // Add a suffix to make it unique if it has already been picked
                    select_uniq(name_reg, name, p)
                },
            }
        },
    };
    Some(Types::Var(ident))
}

/// Either retrieve or generate a new fresh name for a constant for error reporting, and wrap it as
/// type variable. Constant are named `a`, `b`, .., `a1`, `b1`, .. and so on.
fn cst_to_type(names: &HashMap<usize, Ident>, name_reg: &mut NameReg, c: usize) -> (res: Option<
    Types,
>)
    ensures
        report_outcome(res, final(name_reg)@) == report_cst(
            names_of(*names),
            old(name_reg)@,
            c,
        ),
{
    let ident = match name_reg.lookup(c) {
        Some(ident) => ident,
        None => {
            // Select a candidate name
            match mk_name(names, &mut name_reg.cst_count, c) {
                None => return None,
                // Add a suffix to make it unique if it has already been picked
                Some(name) => select_uniq(name_reg, name, c),
            }
        },
    };
    Some(Types::Var(ident))
}

/// The outcome of reporting a type, within `n` nested calls: the type with its variables and
/// constants replaced by type variables, and the registry that has their names.
pub open spec fn run_report(n: nat, st: St, reg: Reg, ty: Ty) -> Option<(Reg, Ty)>
    decreases n,
{
    if n == 0 {
        None
    } else {
        let m = (n - 1) as nat;
        match ty {
            Ty::Ptr(p) => match run_root(m, st.table, p) {
                None => None,
                Some(Ty::Ptr(p)) => report_var(st.names, reg, p),
                Some(ty) => run_report(m, st, reg, ty),
            },
            Ty::Constant(c) => report_cst(st.names, reg, c),
            Ty::Arrow(s, t) => match run_report(m, st, reg, *s) {
                None => None,
                Some((reg, s)) => match run_report(m, st, reg, *t) {
                    None => None,
                    Some((reg, t)) => Some((reg, Ty::Arrow(Box::new(s), Box::new(t)))),
                },
            },
            Ty::Forall(id, t) => match run_report(m, st, reg, *t) {
                None => None,
                Some((reg, t)) => Some((reg, Ty::Forall(id, Box::new(t)))),
            },
            Ty::RowExtend(id, Some(t), tail) => match run_report(m, st, reg, *t) {
                None => None,
                Some((reg, t)) => match run_report(m, st, reg, *tail) {
                    None => None,
                    Some((reg, tail)) => Some(
                        (reg, Ty::RowExtend(id, Some(Box::new(t)), Box::new(tail))),
                    ),
                },
            },
            Ty::RowExtend(id, None, tail) => match run_report(m, st, reg, *tail) {
                None => None,
                Some((reg, tail)) => Some((reg, Ty::RowExtend(id, None, Box::new(tail)))),
            },
            Ty::Enum(t) => match run_report(m, st, reg, *t) {
                None => None,
                Some((reg, t)) => Some((reg, Ty::Enum(Box::new(t)))),
            },
            Ty::StaticRecord(t) => match run_report(m, st, reg, *t) {
                None => None,
                Some((reg, t)) => Some((reg, Ty::StaticRecord(Box::new(t)))),
            },
            Ty::DynRecord(t) => match run_report(m, st, reg, *t) {
                None => None,
                Some((reg, t)) => Some((reg, Ty::DynRecord(Box::new(t)))),
            },
            Ty::List(t) => match run_report(m, st, reg, *t) {
                None => None,
                Some((reg, t)) => Some((reg, Ty::List(Box::new(t)))),
            },
            _ => Some((reg, ty)),
        }
    }
}

/// Extract a concrete type corresponding to a type wrapper for error reporting, within `limit`
/// nested calls.
pub fn to_type_within<R: ImportResolver>(
    limit: usize,
    state: &State<R>,
    names: &mut NameReg,
    ty: TypeWrapper,
) -> (res: Option<Types>)
    ensures
        report_outcome(res, final(names)@) == run_report(limit as nat, state@, old(names)@, ty@),
    decreases limit,
{
    if limit == 0 {
        return None;
    }
    let ty = match ty {
        TypeWrapper::Ptr(p) => {
            return match get_root_within(limit - 1, &state.table, p) {
                None => None,
                Some(TypeWrapper::Ptr(p)) => var_to_type(&state.names, names, p),
                Some(tyw) => to_type_within(limit - 1, state, names, tyw),
            };
        },
        TypeWrapper::Constant(c) => return cst_to_type(&state.names, names, c),
        TypeWrapper::Concrete(ty) => ty,
    };
    match ty {
        AbsType::Arrow(s, t) => match to_type_within(limit - 1, state, names, *s) {
            None => None,
            Some(s) => match to_type_within(limit - 1, state, names, *t) {
                None => None,
                Some(t) => Some(Types::Arrow(Box::new(s), Box::new(t))),
            },
        },
        AbsType::Forall(id, t) => match to_type_within(limit - 1, state, names, *t) {
            None => None,
            Some(t) => Some(Types::Forall(id, Box::new(t))),
        },
        AbsType::RowExtend(id, Some(t), tail) => match to_type_within(
            limit - 1,
            state,
            names,
            *t,
        ) {
            None => None,
            Some(t) => match to_type_within(limit - 1, state, names, *tail) {
                None => None,
                Some(tail) => Some(Types::RowExtend(id, Some(Box::new(t)), Box::new(tail))),
            },
        },
        AbsType::RowExtend(id, None, tail) => match to_type_within(
            limit - 1,
            state,
            names,
            *tail,
        ) {
            None => None,
            Some(tail) => Some(Types::RowExtend(id, None, Box::new(tail))),
        },
        AbsType::Enum(t) => match to_type_within(limit - 1, state, names, *t) {
            None => None,
            Some(t) => Some(Types::Enum(Box::new(t))),
        },
        AbsType::StaticRecord(t) => match to_type_within(limit - 1, state, names, *t) {
            None => None,
            Some(t) => Some(Types::StaticRecord(Box::new(t))),
        },
        AbsType::DynRecord(t) => match to_type_within(limit - 1, state, names, *t) {
            None => None,
            Some(t) => Some(Types::DynRecord(Box::new(t))),
        },
        AbsType::List(t) => match to_type_within(limit - 1, state, names, *t) {
            None => None,
            Some(t) => Some(Types::List(Box::new(t))),
        },
        AbsType::Dyn() => Some(Types::Dyn()),
        AbsType::Num() => Some(Types::Num()),
        AbsType::Bool() => Some(Types::Bool()),
        AbsType::Str() => Some(Types::Str()),
        AbsType::Sym() => Some(Types::Sym()),
        AbsType::RowEmpty() => Some(Types::RowEmpty()),
        AbsType::Flat(t) => Some(Types::Flat(t)),
        AbsType::Var(id) => Some(Types::Var(id)),
    }
}

/// Extract a concrete type corresponding to a type wrapper for error reporting.
///
/// Similar to the extraction of a type from the unification table, excepted that free unification
/// variables and type constants are replaced by type variables which names are determined by
/// `var_to_type` and `cst_to_type`. Distinguishing occurrences of unification variables and type
/// constants is more informative than having `Dyn` everywhere.
pub fn to_type<R: ImportResolver>(state: &State<R>, names: &mut NameReg, ty: TypeWrapper) -> (res:
    Types)
    requires
        run_report(max_depth(), state@, old(names)@, ty@) is Some,
    ensures
        report_outcome(Some(res), final(names)@) == run_report(
            max_depth(),
            state@,
            old(names)@,
            ty@,
        ),
{
    to_type_within(usize::MAX, state, names, ty).unwrap()
}

/// The outcome of reporting two types one after the other.
pub open spec fn run_report_pair(n: nat, st: St, reg: Reg, t1: Ty, t2: Ty) -> Option<
    (Reg, Ty, Ty),
> {
    match run_report(n, st, reg, t1) {
        None => None,
        Some((reg, t1)) => match run_report(n, st, reg, t2) {
            None => None,
            Some((reg, t2)) => Some((reg, t1, t2)),
        },
    }
}

/// The outcome of reporting an optional type.
pub open spec fn run_report_opt(n: nat, st: St, reg: Reg, ty: Option<Ty>) -> Option<
    (Reg, Option<Ty>),
> {
    match ty {
        None => Some((reg, None)),
        Some(ty) => match run_report(n, st, reg, ty) {
            None => None,
            Some((reg, ty)) => Some((reg, Some(ty))),
        },
    }
}

/// Report two types one after the other.
fn to_types<R: ImportResolver>(
    limit: usize,
    state: &State<R>,
    names: &mut NameReg,
    t1: TypeWrapper,
    t2: TypeWrapper,
) -> (res: Option<(Types, Types)>)
    ensures
        (match res {
            Some((t1, t2)) => Some((final(names)@, t1@, t2@)),
            None => None,
        }) == run_report_pair(limit as nat, state@, old(names)@, t1@, t2@),
{
    match to_type_within(limit, state, names, t1) {
        None => None,
        Some(t1) => match to_type_within(limit, state, names, t2) {
            None => None,
            Some(t2) => Some((t1, t2)),
        },
    }
}

/// Report an optional type.
fn to_type_opt<R: ImportResolver>(
    limit: usize,
    state: &State<R>,
    names: &mut NameReg,
    ty: Option<TypeWrapper>,
) -> (res: Option<Option<Types>>)
    ensures
        (match res {
            Some(ty) => Some((final(names)@, opt_types(ty))),
            None => None,
        }) == run_report_opt(limit as nat, state@, old(names)@, opt_ty(ty)),
{
    match ty {
        None => Some(None),
        Some(ty) => match to_type_within(limit, state, names, ty) {
            None => None,
            Some(ty) => Some(Some(ty)),
        },
    }
}

/// The outcome of reporting a unification error at a position, within `n` nested calls.
pub open spec fn run_report_err(n: nat, st: St, reg: Reg, err: UErr, pos: TermPos) -> Option<
    (Reg, CheckErr),
>
    decreases n,
{
    if n == 0 {
        None
    } else {
        let m = (n - 1) as nat;
        match err {
            UErr::TypeMismatch(t1, t2) => match run_report_pair(m, st, reg, t1, t2) {
                None => None,
                Some((reg, t1, t2)) => Some((reg, CheckErr::TypeMismatch(t1, t2, pos))),
            },
            UErr::RowMismatch(id, t1, t2, err) => match run_report_pair(m, st, reg, t1, t2) {
                None => None,
                Some((reg, t1, t2)) => match run_report_err(
                    m,
                    st,
                    reg,
                    *err,
                    TermPos::Generated,
                ) {
                    None => None,
                    Some((reg, err)) => Some(
                        (reg, CheckErr::RowMismatch(id, t1, t2, Box::new(err), pos)),
                    ),
                },
            },
            UErr::RowKindMismatch(id, t1, t2) => match run_report_opt(m, st, reg, t1) {
                None => None,
                Some((reg, t1)) => match run_report_opt(m, st, reg, t2) {
                    None => None,
                    Some((reg, t2)) => Some((reg, CheckErr::RowKindMismatch(id, t1, t2, pos))),
                },
            },
            UErr::ConstMismatch(c1, c2) => match run_report_pair(
                m,
                st,
                reg,
                Ty::Constant(c1),
                Ty::Constant(c2),
            ) {
                None => None,
                Some((reg, t1, t2)) => Some((reg, CheckErr::TypeMismatch(t1, t2, pos))),
            },
            UErr::WithConst(c, ty) => match run_report_pair(m, st, reg, Ty::Constant(c), ty) {
                None => None,
                Some((reg, t1, t2)) => Some((reg, CheckErr::TypeMismatch(t1, t2, pos))),
            },
            UErr::IllformedFlatType(rt) => Some((reg, CheckErr::IllformedType(Ty::Flat(rt)))),
            UErr::IllformedType(ty) => match run_report(m, st, reg, ty) {
                None => None,
                Some((reg, ty)) => Some((reg, CheckErr::IllformedType(ty))),
            },
            UErr::MissingRow(id, t1, t2) => match run_report_pair(m, st, reg, t1, t2) {
                None => None,
                Some((reg, t1, t2)) => Some((reg, CheckErr::MissingRow(id, t1, t2, pos))),
            },
            UErr::MissingDynTail(t1, t2) => match run_report_pair(m, st, reg, t1, t2) {
                None => None,
                Some((reg, t1, t2)) => Some((reg, CheckErr::MissingDynTail(t1, t2, pos))),
            },
            UErr::ExtraRow(id, t1, t2) => match run_report_pair(m, st, reg, t1, t2) {
                None => None,
                Some((reg, t1, t2)) => Some((reg, CheckErr::ExtraRow(id, t1, t2, pos))),
            },
            UErr::ExtraDynTail(t1, t2) => match run_report_pair(m, st, reg, t1, t2) {
                None => None,
                Some((reg, t1, t2)) => Some((reg, CheckErr::ExtraDynTail(t1, t2, pos))),
            },
            UErr::IllformedRow(ty) => match run_report(m, st, reg, ty) {
                None => None,
                Some((reg, ty)) => Some((reg, CheckErr::IllformedType(ty))),
            },
            UErr::RowConflict(id, ty, t1, t2) => match run_report_opt(m, st, reg, ty) {
                None => None,
                Some((reg, ty)) => match run_report_pair(m, st, reg, t1, t2) {
                    None => None,
                    Some((reg, t1, t2)) => Some((reg, CheckErr::RowConflict(id, ty, t1, t2, pos))),
                },
            },
            UErr::UnboundTypeVariable(id) => Some((reg, CheckErr::UnboundTypeVariable(id, pos))),
            // The two kinds of errors between arrows.
            _ => if !arrow_err_on_arrows(err) {
                None
            } else {
                let (t1, t2, path, cause) = type_path(err)->0;
                match run_report_pair(m, st, reg, t1, t2) {
                    None => None,
                    Some((reg, t1, t2)) => match run_report_err(
                        m,
                        st,
                        reg,
                        cause,
                        TermPos::Generated,
                    ) {
                        None => None,
                        Some((reg, cause)) => Some(
                            (
                                reg,
                                CheckErr::ArrowTypeMismatch(t1, t2, path, Box::new(cause), pos),
                            ),
                        ),
                    },
                }
            },
        }
    }
}

/// The model of a reported error.
pub open spec fn report_err_outcome(res: Option<TypecheckError>, reg: Reg) -> Option<
    (Reg, CheckErr),
> {
    match res {
        Some(err) => Some((reg, err@)),
        None => None,
    }
}

impl UnifError {
    /// Convert a unification error to a typechecking error, within `limit` nested calls.
    pub fn into_typecheck_err_within<R: ImportResolver>(
        self,
        limit: usize,
        state: &State<R>,
        names: &mut NameReg,
        pos_opt: TermPos,
    ) -> (res: Option<TypecheckError>)
        ensures
            report_err_outcome(res, final(names)@) == run_report_err(
                limit as nat,
                state@,
                old(names)@,
                self@,
                pos_opt,
            ),
        decreases limit,
    {
        if limit == 0 {
            return None;
        }
        match self {
            UnifError::TypeMismatch(ty1, ty2) => match to_types(limit - 1, state, names, ty1, ty2) {
                None => None,
                Some((t1, t2)) => Some(TypecheckError::TypeMismatch(t1, t2, pos_opt)),
            },
            UnifError::RowMismatch(ident, tyw1, tyw2, err) => match to_types(
                limit - 1,
                state,
                names,
                tyw1,
                tyw2,
            ) {
                None => None,
                Some((t1, t2)) => match (*err).into_typecheck_err_within(
                    limit - 1,
                    state,
                    names,
                    TermPos::Generated,
                ) {
                    None => None,
                    Some(err) => Some(
                        TypecheckError::RowMismatch(ident, t1, t2, Box::new(err), pos_opt),
                    ),
                },
            },
            UnifError::RowKindMismatch(id, ty1, ty2) => match to_type_opt(
                limit - 1,
                state,
                names,
                ty1,
            ) {
                None => None,
                Some(t1) => match to_type_opt(limit - 1, state, names, ty2) {
                    None => None,
                    Some(t2) => Some(TypecheckError::RowKindMismatch(id, t1, t2, pos_opt)),
                },
            },
            // For now, failure to unify with a type constant causes the same error as a usual type
            // mismatch. It could be nice to have a specific error message in the future.
            UnifError::ConstMismatch(c1, c2) => match to_types(
                limit - 1,
                state,
                names,
                TypeWrapper::Constant(c1),
                TypeWrapper::Constant(c2),
            ) {
                None => None,
                Some((t1, t2)) => Some(TypecheckError::TypeMismatch(t1, t2, pos_opt)),
            },
            UnifError::WithConst(c, ty) => match to_types(
                limit - 1,
                state,
                names,
                TypeWrapper::Constant(c),
                ty,
            ) {
                None => None,
                Some((t1, t2)) => Some(TypecheckError::TypeMismatch(t1, t2, pos_opt)),
            },
            UnifError::IllformedFlatType(rt) => {
                Some(TypecheckError::IllformedType(Types::Flat(rt)))
            },
            UnifError::IllformedType(tyw) => match to_type_within(limit - 1, state, names, tyw) {
                None => None,
                Some(ty) => Some(TypecheckError::IllformedType(ty)),
            },
            UnifError::MissingRow(id, tyw1, tyw2) => match to_types(
                limit - 1,
                state,
                names,
                tyw1,
                tyw2,
            ) {
                None => None,
                Some((t1, t2)) => Some(TypecheckError::MissingRow(id, t1, t2, pos_opt)),
            },
            UnifError::MissingDynTail(tyw1, tyw2) => match to_types(
                limit - 1,
                state,
                names,
                tyw1,
                tyw2,
            ) {
                None => None,
                Some((t1, t2)) => Some(TypecheckError::MissingDynTail(t1, t2, pos_opt)),
            },
            UnifError::ExtraRow(id, tyw1, tyw2) => match to_types(
                limit - 1,
                state,
                names,
                tyw1,
                tyw2,
            ) {
                None => None,
                Some((t1, t2)) => Some(TypecheckError::ExtraRow(id, t1, t2, pos_opt)),
            },
            UnifError::ExtraDynTail(tyw1, tyw2) => match to_types(
                limit - 1,
                state,
                names,
                tyw1,
                tyw2,
            ) {
                None => None,
                Some((t1, t2)) => Some(TypecheckError::ExtraDynTail(t1, t2, pos_opt)),
            },
            UnifError::IllformedRow(tyw) => match to_type_within(limit - 1, state, names, tyw) {
                None => None,
                Some(ty) => Some(TypecheckError::IllformedType(ty)),
            },
            UnifError::RowConflict(id, tyw, left, right) => match to_type_opt(
                limit - 1,
                state,
                names,
                tyw,
            ) {
                None => None,
                Some(ty) => match to_types(limit - 1, state, names, left, right) {
                    None => None,
                    Some((t1, t2)) => Some(TypecheckError::RowConflict(id, ty, t1, t2, pos_opt)),
                },
            },
            UnifError::UnboundTypeVariable(ident) => {
                Some(TypecheckError::UnboundTypeVariable(ident, pos_opt))
            },
            err => {
                if !err.is_on_arrows() {
                    return None;
                }
                match err.into_type_path() {
                    None => None,
                    Some((expd, actual, path, err_final)) => match to_types(
                        limit - 1,
                        state,
                        names,
                        expd,
                        actual,
                    ) {
                        None => None,
                        Some((t1, t2)) => match err_final.into_typecheck_err_within(
                            limit - 1,
                            state,
                            names,
                            TermPos::Generated,
                        ) {
                            None => None,
                            Some(err) => Some(
                                TypecheckError::ArrowTypeMismatch(
                                    t1,
                                    t2,
                                    path,
                                    Box::new(err),
                                    pos_opt,
                                ),
                            ),
                        },
                    },
                }
            },
        }
    }

    /// Convert a unification error to a typechecking error.
    ///
    /// There is a hierarchy between error types, from the most local/specific to the most
    /// high-level: `RowUnifError`, `UnifError` and `TypecheckError`. Each level usually adds
    /// information (such as types or positions) and group different specific errors into most
    /// general ones.
    ///
    /// # Parameters
    ///
    /// - `state`: the state of unification. Used to access the unification table, and the original
    /// names of of unification variable or type constant.
    /// - `names`: a name registry, structure used to assign unique a humain-readable names to
    /// unification variables and type constants.
    /// - `pos_opt`: the position span of the expression that failed to typecheck.
    pub fn into_typecheck_err_<R: ImportResolver>(
        self,
        state: &State<R>,
        names: &mut NameReg,
        pos_opt: TermPos,
    ) -> (res: TypecheckError)
        requires
            run_report_err(max_depth(), state@, old(names)@, self@, pos_opt) is Some,
        ensures
            report_err_outcome(Some(res), final(names)@) == run_report_err(
                max_depth(),
                state@,
                old(names)@,
                self@,
                pos_opt,
            ),
    {
        self.into_typecheck_err_within(usize::MAX, state, names, pos_opt).unwrap()
    }

    /// Convert a unification error to a typechecking error.
    ///
    /// Wrapper that calls `into_typecheck_err_` with an empty name registry.
    pub fn into_typecheck_err<R: ImportResolver>(self, state: &State<R>, pos_opt: TermPos) -> (res:
        TypecheckError)
        requires
            run_report_err(max_depth(), state@, no_names(), self@, pos_opt) is Some,
        ensures
            res@ == (run_report_err(max_depth(), state@, no_names(), self@, pos_opt)->0).1,
    {
        self.into_typecheck_err_(state, &mut NameReg::new(), pos_opt)
    }
}

} // verus!
