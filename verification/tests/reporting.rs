use typechecker::cache::ImportTable;
use typechecker::error::TypecheckError;
use typechecker::identifier::{Ident, IdentSet};
use typechecker::position::TermPos;
use typechecker::term::{RichTerm, Term};
use typechecker::typecheck::mk_typewrapper as mk;
use typechecker::typecheck::naming::{find_uniq_name, mk_decimal, mk_letter};
use typechecker::typecheck::reporting::{to_type, to_type_within};
use typechecker::typecheck::{NameReg, State, TypeWrapper, UnifError};
use typechecker::types::Types;

fn id(name: &str) -> Ident {
    Ident::new(name)
}

fn tvar(name: &str) -> Types {
    Types::Var(id(name))
}

fn ptr(p: usize) -> TypeWrapper {
    TypeWrapper::Ptr(p)
}

fn cst(c: usize) -> TypeWrapper {
    TypeWrapper::Constant(c)
}

#[test]
fn letters_and_numbers() {
    assert_eq!(mk_letter(0), "a");
    assert_eq!(mk_letter(7), "h");
    assert_eq!(mk_letter(25), "z");
    assert_eq!(mk_decimal(0), "0");
    assert_eq!(mk_decimal(9), "9");
    assert_eq!(mk_decimal(10), "10");
    assert_eq!(mk_decimal(20935), "20935");
}

#[test]
fn taken_names_get_a_suffix() {
    let mut taken = IdentSet::new();
    assert_eq!(find_uniq_name(&taken, id("a")), id("a"));
    taken.insert(id("a"));
    assert_eq!(find_uniq_name(&taken, id("a")), id("a1"));
    taken.insert(id("a1"));
    taken.insert(id("a3"));
    assert_eq!(find_uniq_name(&taken, id("a")), id("a2"));
    assert_eq!(find_uniq_name(&taken, id("b")), id("b"));
}

#[test]
fn variables_and_constants_are_named() {
    let imports = ImportTable::new();
    let mut state = State::new(&imports);
    let p = state.fresh();
    let q = state.fresh();
    let c = state.fresh();
    let mut names = NameReg::new();
    let ty = mk::arrow_of(ptr(p), mk::arrow_of(ptr(q), mk::arrow_of(cst(c), ptr(p))));
    assert_eq!(
        to_type(&state, &mut names, ty),
        Types::Arrow(
            Box::new(tvar("_a")),
            Box::new(Types::Arrow(
                Box::new(tvar("_b")),
                Box::new(Types::Arrow(Box::new(tvar("a")), Box::new(tvar("_a")))),
            )),
        )
    );
    // The names stay.
    assert_eq!(to_type(&state, &mut names, cst(c)), tvar("a"));
    assert_eq!(to_type(&state, &mut names, mk::list(ptr(q))), Types::List(Box::new(tvar("_b"))));
}

#[test]
fn names_of_the_user_come_first() {
    let imports = ImportTable::new();
    let mut state = State::new(&imports);
    let p = state.fresh();
    let q = state.fresh();
    let c = state.fresh();
    state.set_name(p, id("row"));
    state.set_name(c, id("elt"));
    let mut names = NameReg::new();
    assert_eq!(to_type(&state, &mut names, ptr(p)), tvar("_row"));
    assert_eq!(to_type(&state, &mut names, ptr(q)), tvar("_a"));
    assert_eq!(to_type(&state, &mut names, cst(c)), tvar("elt"));
}

#[test]
fn names_are_distinct() {
    let imports = ImportTable::new();
    let mut state = State::new(&imports);
    let mut names = NameReg::new();
    let mut seen: Vec<Types> = Vec::new();
    for k in 0..60 {
        let p = state.fresh();
        if k % 5 == 0 {
            state.set_name(p, id("a"));
        }
        let ty = if k % 2 == 0 { ptr(p) } else { cst(p) };
        let name = to_type(&state, &mut names, ty);
        assert!(!seen.contains(&name));
        seen.push(name);
    }
    assert_eq!(seen[0], tvar("_a"));
    assert_eq!(seen[1], tvar("a"));
    // The first variable without a name of its own, and the second one named by the user.
    assert_eq!(seen[2], tvar("_a1"));
    assert_eq!(seen[5], tvar("a1"));
}

#[test]
fn bound_variables_are_followed() {
    let imports = ImportTable::new();
    let mut state = State::new(&imports);
    let p = state.fresh();
    let q = state.fresh();
    state.bind(p, mk::list(ptr(q)));
    state.bind(q, mk::num());
    let mut names = NameReg::new();
    assert_eq!(
        to_type(&state, &mut names, ptr(p)),
        Types::List(Box::new(Types::Num()))
    );
    state.bind(q, ptr(p));
    assert_eq!(to_type_within(300, &state, &mut names, ptr(p)), None);
}

#[test]
fn unification_errors_become_typechecking_errors() {
    let imports = ImportTable::new();
    let state = State::new(&imports);
    let pos = TermPos::Generated;
    let conv = |err: UnifError| err.into_typecheck_err(&state, TermPos::Generated);
    let (n, s) = (Types::Num(), Types::Str());
    assert_eq!(
        conv(UnifError::TypeMismatch(mk::num(), mk::str())),
        TypecheckError::TypeMismatch(n.clone(), s.clone(), pos)
    );
    assert_eq!(
        conv(UnifError::ConstMismatch(4, 5)),
        TypecheckError::TypeMismatch(tvar("a"), tvar("b"), pos)
    );
    assert_eq!(
        conv(UnifError::WithConst(4, mk::num())),
        TypecheckError::TypeMismatch(tvar("a"), n.clone(), pos)
    );
    assert_eq!(
        conv(UnifError::RowMismatch(
            id("f"),
            mk::num(),
            mk::str(),
            Box::new(UnifError::ConstMismatch(4, 5)),
        )),
        TypecheckError::RowMismatch(
            id("f"),
            n.clone(),
            s.clone(),
            Box::new(TypecheckError::TypeMismatch(tvar("a"), tvar("b"), pos)),
            pos,
        )
    );
    assert_eq!(
        conv(UnifError::RowKindMismatch(id("f"), None, Some(mk::num()))),
        TypecheckError::RowKindMismatch(id("f"), None, Some(n.clone()), pos)
    );
    let term = RichTerm::new(Term::Null, TermPos::Generated);
    assert_eq!(
        conv(UnifError::IllformedFlatType(term.clone())),
        TypecheckError::IllformedType(Types::Flat(term))
    );
    assert_eq!(
        conv(UnifError::IllformedType(mk::num())),
        TypecheckError::IllformedType(n.clone())
    );
    assert_eq!(
        conv(UnifError::IllformedRow(mk::num())),
        TypecheckError::IllformedType(n.clone())
    );
    assert_eq!(
        conv(UnifError::MissingRow(id("f"), mk::num(), mk::str())),
        TypecheckError::MissingRow(id("f"), n.clone(), s.clone(), pos)
    );
    assert_eq!(
        conv(UnifError::MissingDynTail(mk::num(), mk::str())),
        TypecheckError::MissingDynTail(n.clone(), s.clone(), pos)
    );
    assert_eq!(
        conv(UnifError::ExtraRow(id("f"), mk::num(), mk::str())),
        TypecheckError::ExtraRow(id("f"), n.clone(), s.clone(), pos)
    );
    assert_eq!(
        conv(UnifError::ExtraDynTail(mk::num(), mk::str())),
        TypecheckError::ExtraDynTail(n.clone(), s.clone(), pos)
    );
    assert_eq!(
        conv(UnifError::RowConflict(id("f"), Some(mk::bool()), mk::num(), mk::str())),
        TypecheckError::RowConflict(id("f"), Some(Types::Bool()), n, s, pos)
    );
    assert_eq!(
        conv(UnifError::UnboundTypeVariable(id("x"))),
        TypecheckError::UnboundTypeVariable(id("x"), pos)
    );
}

#[test]
fn one_registry_names_several_errors() {
    let imports = ImportTable::new();
    let state = State::new(&imports);
    let mut names = NameReg::new();
    let err = UnifError::WithConst(8, mk::num());
    let pos = TermPos::Generated;
    assert_eq!(
        err.into_typecheck_err_(&state, &mut names, pos),
        TypecheckError::TypeMismatch(tvar("a"), Types::Num(), pos)
    );
    let err = UnifError::ConstMismatch(9, 8);
    assert_eq!(
        err.into_typecheck_err_(&state, &mut names, pos),
        TypecheckError::TypeMismatch(tvar("b"), tvar("a"), pos)
    );
}
