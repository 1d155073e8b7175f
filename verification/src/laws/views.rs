//! The models of states, results and conversions say all that there is in them.
use vstd::prelude::*;
use std::collections::HashMap;
use vstd::std_specs::convert::{FromSpec, TryFromSpec};

use crate::cache::ImportResolver;
use crate::environment::{bound, lookup, Bindings};
use crate::error::{opt_types, TypecheckError};
use crate::identifier::{spellings, Ident};
use crate::label::ty_path;
use crate::model::{CheckErr, Name, RowErr, St, Ty, UErr};
use crate::term::Term;
use crate::typecheck::check::{check_outcome, fields_outcome, inferred, type_check_outcome};
use crate::typecheck::envs::{
    lemma_unwrap_view, lemma_wrap_view, opt_scope, record_fields, ApparentType, Envs, Scope,
};
use crate::typecheck::errors::{arrow_err_on_arrows, type_path_view, RowUnifError, UnifError};
use crate::typecheck::instantiate::type_outcome;
use crate::typecheck::mk_typewrapper::IntoTypeWrapper;
use crate::typecheck::ops::{bop_outcome, nop_outcome, uop_outcome};
use crate::typecheck::reporting::{
    name_outcome, no_names, report_err_outcome, report_outcome, with_name, Reg,
};
use crate::typecheck::state::{
    constr_of, names_of, row_outcome, row_result, state_outcome, table_of, RowConstr, State,
    UnifTable,
};
use crate::typecheck::unify::{row_add_outcome, sub_outcome};
use crate::typecheck::wrapper::{is_plain, opt_boxed, opt_ty, wrap, TypeWrapper};
use crate::types::{AbsType, Types};

verus! {

/// The model of a unification table has the variables of the table. One of them is free in the
/// model when it is in the table, and else it is bound to the model of its type.
pub proof fn law_table_view(table: UnifTable, p: usize)
    ensures
        table_of(table).contains_key(p) <==> table@.contains_key(p),
        table@.contains_key(p) ==> match table@[p] {
            None => table_of(table)[p] is None,
            Some(ty) => table_of(table)[p] == Some(ty@),
        },
{
}

/// The model of row constraints has the variables that are constrained, with the spellings of the
/// identifiers that they must not be given.
pub proof fn law_constr_view(constr: RowConstr, p: usize)
    ensures
        constr_of(constr).contains_key(p) <==> constr@.contains_key(p),
        constr@.contains_key(p) ==> constr_of(constr)[p] == constr@[p]@,
{
}

/// The model of the names of variables and constants has the spelling of each name.
pub proof fn law_names_view(names: HashMap<usize, Ident>, p: usize)
    ensures
        names_of(names).contains_key(p) <==> names@.contains_key(p),
        names@.contains_key(p) ==> names_of(names)[p] == names@[p].0@,
{
}

/// The model of a state is made of those of its parts, and of the imports that its resolver gives.
pub proof fn law_state_view<R: ImportResolver>(state: State<R>)
    ensures
        state@.table == table_of(state.table),
        state@.constr == constr_of(state.constr),
        state@.names == names_of(state.names),
        state@.imports == state.resolver.terms(),
{
}

/// Bindings give a name the type of the latest one with this name, and no binding gives none.
pub proof fn law_bindings(id: Ident, ty: TypeWrapper, rest: Bindings, other: Name)
    ensures
        lookup(bound(Bindings::Empty), other) is None,
        lookup(bound(Bindings::Bind(id, ty, std::rc::Rc::new(rest))), id@) == Some(ty@),
        other != id@ ==> lookup(bound(Bindings::Bind(id, ty, std::rc::Rc::new(rest))), other)
            == lookup(bound(rest), other),
{
}

/// The spellings of identifiers are those of each of them, and no others.
pub proof fn law_spellings(ids: Seq<Ident>, name: Name)
    ensures
        spellings(ids).contains(name) <==> exists|i: int|
            0 <= i < ids.len() && (#[trigger] ids[i]).0@ == name,
    decreases ids.len(),
{
    if ids.len() > 0 {
        let init = ids.drop_last();
        let last = ids.len() - 1;
        law_spellings(init, name);
        assert(ids.last() == ids[last]);
        if spellings(init).contains(name) {
            let i = choose|i: int| 0 <= i < init.len() && (#[trigger] init[i]).0@ == name;
            assert(ids[i].0@ == name);
        }
        if exists|i: int| 0 <= i < ids.len() && (#[trigger] ids[i]).0@ == name {
            let i = choose|i: int| 0 <= i < ids.len() && (#[trigger] ids[i]).0@ == name;
            if i < last {
                assert(init[i].0@ == name);
            }
        }
    }
}

/// An optional type has the model of the type, if there is one. Optional environments have the
/// scope of the two environments.
pub proof fn law_optional_views(tyw: TypeWrapper, ty: Types, envs: &Envs)
    ensures
        opt_ty(None) is None,
        opt_ty(Some(tyw)) == Some(tyw@),
        opt_boxed(None) is None,
        opt_boxed(Some(Box::new(tyw))) == Some(tyw@),
        opt_types(None) is None,
        opt_types(Some(ty)) == Some(ty@),
        inferred(None) is None,
        inferred(Some(ty)) == Some(ty@),
        opt_scope(None) is None,
        opt_scope(Some(envs)) == Some(Scope { global: envs.global@, local: envs.local@ }),
{
}

/// The outcome of unification has the state that it ends in, and the model of its error.
pub proof fn law_unify_outcomes(
    st: St,
    err: UnifError,
    row_err: RowUnifError,
    ty: TypeWrapper,
    tail: TypeWrapper,
)
    ensures
        sub_outcome(None, st) is None,
        sub_outcome(Some(Ok(())), st) == Some((st, Ok::<(), UErr>(()))),
        sub_outcome(Some(Err(err)), st) == Some((st, Err::<(), UErr>(err@))),
        row_outcome(None, st) is None,
        row_outcome(Some(Ok(())), st) == Some((st, Ok::<(), RowErr>(()))),
        row_outcome(Some(Err(row_err)), st) == Some((st, Err::<(), RowErr>(row_err@))),
        row_result(Ok(())) == Ok::<(), RowErr>(()),
        row_result(Err(row_err)) == Err::<(), RowErr>(row_err@),
        row_add_outcome(None, st) is None,
        row_add_outcome(Some(Ok((None, tail))), st) == Some(
            (st, Ok::<(Option<Ty>, Ty), RowErr>((None, tail@))),
        ),
        row_add_outcome(Some(Ok((Some(Box::new(ty)), tail))), st) == Some(
            (st, Ok::<(Option<Ty>, Ty), RowErr>((Some(ty@), tail@))),
        ),
        row_add_outcome(Some(Err(row_err)), st) == Some(
            (st, Err::<(Option<Ty>, Ty), RowErr>(row_err@)),
        ),
        state_outcome(None, st) is None,
        state_outcome(Some(()), st) == Some(st),
{
}

/// The outcome of typechecking has the state that it ends in, with the model of its type or of its
/// error.
pub proof fn law_check_outcomes(st: St, err: TypecheckError, tyw: TypeWrapper, ty: Types)
    ensures
        check_outcome(None, st) is None,
        check_outcome(Some(Ok(())), st) == Some((st, Ok::<(), CheckErr>(()))),
        check_outcome(Some(Err(err)), st) == Some((st, Err::<(), CheckErr>(err@))),
        fields_outcome(None, st) is None,
        fields_outcome(Some(Ok(tyw)), st) == Some((st, Ok::<Ty, CheckErr>(tyw@))),
        fields_outcome(Some(Err(err)), st) == Some((st, Err::<Ty, CheckErr>(err@))),
        type_check_outcome(None) is None,
        type_check_outcome(Some(Ok(ty))) == Some(Ok::<Ty, CheckErr>(ty@)),
        type_check_outcome(Some(Err(err))) == Some(Err::<Ty, CheckErr>(err@)),
        type_outcome(None, st) is None,
        type_outcome(Some(tyw), st) == Some((st, tyw@)),
{
}

/// The outcome of asking for the type of an operator has the types of the arguments in their order,
/// and then that of the result.
pub proof fn law_operator_outcomes(
    st: St,
    arg1: TypeWrapper,
    arg2: TypeWrapper,
    ret: TypeWrapper,
    args: Vec<TypeWrapper>,
    i: int,
)
    ensures
        uop_outcome(Ok((arg1, ret)), st) == (st, arg1@, ret@),
        bop_outcome(Ok((arg1, arg2, ret)), st) == (st, arg1@, arg2@, ret@),
        nop_outcome(Ok((args, ret))).0.len() == args@.len(),
        0 <= i < args@.len() ==> nop_outcome(Ok((args, ret))).0[i] == args@[i]@,
        nop_outcome(Ok((args, ret))).1 == ret@,
{
}

/// The outcome of reporting has the registry or the counter that it ends in, with the model of what
/// is reported.
pub proof fn law_report_outcomes(
    reg: Reg,
    counter: usize,
    name: String,
    ty: Types,
    err: TypecheckError,
)
    ensures
        report_outcome(None, reg) is None,
        report_outcome(Some(ty), reg) == Some((reg, ty@)),
        report_err_outcome(None, reg) is None,
        report_err_outcome(Some(err), reg) == Some((reg, err@)),
        name_outcome(None, counter) is None,
        name_outcome(Some(name), counter) == Some((counter, name@)),
{
}

/// A registry starts without names and with both counters at zero. Giving a name takes it, and
/// leaves the counters.
pub proof fn law_registry(reg: Reg, name: Name, other: Name, id: usize, id2: usize)
    ensures
        !no_names().reg.contains_key(id),
        !no_names().taken.contains(name),
        no_names().var_count == 0 && no_names().cst_count == 0,
        ({
            let after = with_name(reg, name, id);
            &&& after.reg.contains_key(id2) <==> id2 == id || reg.reg.contains_key(id2)
            &&& after.reg[id] == name
            &&& id2 != id ==> after.reg[id2] == reg.reg[id2]
            &&& after.taken.contains(other) <==> other == name || reg.taken.contains(other)
            &&& after.var_count == reg.var_count && after.cst_count == reg.cst_count
        }),
{
}

/// The data of an error in an arrow has the two types in their order, the path and the cause.
pub proof fn law_path_view(
    t1: TypeWrapper,
    t2: TypeWrapper,
    path: ty_path::Path,
    err: UnifError,
)
    ensures
        type_path_view(None) is None,
        type_path_view(Some((t1, t2, path, err))) == Some((t1@, t2@, path@, err@)),
{
}

/// An error is on arrows when each of the domain and codomain errors that head it has two function
/// types.
pub proof fn law_on_arrows(t1: Ty, t2: Ty, err: UErr)
    ensures
        arrow_err_on_arrows(UErr::DomainMismatch(t1, t2, Box::new(err))) <==> t1 is Arrow
            && t2 is Arrow && arrow_err_on_arrows(err),
        arrow_err_on_arrows(UErr::CodomainMismatch(t1, t2, Box::new(err))) <==> t1 is Arrow
            && t2 is Arrow && arrow_err_on_arrows(err),
        !(err is DomainMismatch || err is CodomainMismatch) ==> arrow_err_on_arrows(err),
{
}

/// A type is turned into a type wrapper of the same type. A type wrapper is turned into a type of
/// the same type if it has neither variables nor constants, and is refused else. One way undoes the
/// other.
pub proof fn law_conversions(ty: Types, tyw: TypeWrapper, abs: AbsType<Box<TypeWrapper>>)
    ensures
        TypeWrapper::from_spec(abs) == TypeWrapper::Concrete(abs),
        wrap(ty)@ == ty@,
        <Types as TryFromSpec<TypeWrapper>>::try_from_spec(tyw) is Ok <==> is_plain(tyw@),
        <Types as TryFromSpec<TypeWrapper>>::try_from_spec(tyw) matches Ok(plain) ==> plain@ == tyw@
            && wrap(plain) == tyw,
{
    lemma_wrap_view(ty);
    if is_plain(tyw@) {
        lemma_unwrap_view(tyw);
    }
}

/// An apparent type is turned into the type wrapper of its type, whatever its kind. It is turned
/// into its type too, but one that comes from the environment with variables or constants in it is
/// turned into `Dyn`.
pub proof fn law_apparent_conversions(ty: Types, tyw: TypeWrapper)
    ensures
        TypeWrapper::from_spec(ApparentType::Annotated(ty))@ == ty@,
        TypeWrapper::from_spec(ApparentType::Inferred(ty))@ == ty@,
        TypeWrapper::from_spec(ApparentType::Approximated(ty))@ == ty@,
        TypeWrapper::from_spec(ApparentType::FromEnv(tyw)) == tyw,
        Types::from_spec(ApparentType::Annotated(ty)) == ty,
        Types::from_spec(ApparentType::Inferred(ty)) == ty,
        Types::from_spec(ApparentType::Approximated(ty)) == ty,
        is_plain(tyw@) ==> Types::from_spec(ApparentType::FromEnv(tyw))@ == tyw@,
        !is_plain(tyw@) ==> Types::from_spec(ApparentType::FromEnv(tyw)) is Dyn,
{
    lemma_wrap_view(ty);
    if is_plain(tyw@) {
        lemma_unwrap_view(tyw);
    }
}

/// A type wrapper is turned into itself, and the type that it is made of is turned into it.
pub proof fn law_wrapped(tyw: TypeWrapper, abs: AbsType<Box<TypeWrapper>>)
    ensures
        tyw.wrapped() == tyw,
        abs.wrapped() == TypeWrapper::Concrete(abs),
{
}

/// The terms with fields are records and recursive records.
pub proof fn law_record_fields(t: Term)
    ensures
        record_fields(t) is Some <==> t is Record || t is RecRecord,
        t matches Term::Record(fields, _) ==> record_fields(t) == Some(fields@),
        t matches Term::RecRecord(fields, _) ==> record_fields(t) == Some(fields@),
{
}

/// A type is a row type when its model is a row.
pub proof fn law_row_types(ty: AbsType<Box<TypeWrapper>>)
    ensures
        ty.spec_is_row_type() <==> TypeWrapper::Concrete(ty)@.is_row(),
{
}

} // verus!
