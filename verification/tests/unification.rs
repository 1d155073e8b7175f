use typechecker::cache::ImportTable;
use typechecker::identifier::{Ident, IdentSet};
use typechecker::label::ty_path::Elem;
use typechecker::position::TermPos;
use typechecker::term::{RichTerm, Term};
use typechecker::typecheck::mk_typewrapper as mk;
use typechecker::typecheck::{
    check_sub, check_sub_, check_sub_dyn_record, check_sub_rows, check_sub_within_, constr_unify,
    constrain_var, constrain_var_within, constraint, follow_row, get_root, get_root_within,
    instantiate_foralls, new_var, row_add, ForallInst, RowConstr, RowUnifError, State, TypeWrapper,
    UnifError, UnifTable,
};
use typechecker::types::AbsType;

fn id(name: &str) -> Ident {
    Ident::new(name)
}

fn ptr(p: usize) -> TypeWrapper {
    TypeWrapper::Ptr(p)
}

fn cst(c: usize) -> TypeWrapper {
    TypeWrapper::Constant(c)
}

fn arrow(s: TypeWrapper, t: TypeWrapper) -> TypeWrapper {
    mk::arrow_of(s, t)
}

fn field(name: &str, ty: TypeWrapper, tail: TypeWrapper) -> TypeWrapper {
    mk::record_row(id(name), ty, tail)
}

fn tag(name: &str, tail: TypeWrapper) -> TypeWrapper {
    mk::enum_row(id(name), tail)
}

fn flat(term: Term) -> TypeWrapper {
    TypeWrapper::Concrete(AbsType::Flat(RichTerm::new(term, TermPos::Generated)))
}

fn poly(name: &str, ty: TypeWrapper) -> TypeWrapper {
    TypeWrapper::Concrete(AbsType::Forall(id(name), Box::new(ty)))
}

fn var(name: &str) -> TypeWrapper {
    TypeWrapper::Concrete(AbsType::Var(id(name)))
}

fn abs(ty: TypeWrapper) -> AbsType<Box<TypeWrapper>> {
    match ty {
        TypeWrapper::Concrete(ty) => ty,
        _ => panic!("not a concrete type"),
    }
}

fn ids(names: &[&str]) -> IdentSet {
    let mut set = IdentSet::new();
    for name in names {
        set.insert(id(name));
    }
    set
}

/// Unify two types in a new state.
fn unify(t1: TypeWrapper, t2: TypeWrapper) -> Result<(), UnifError> {
    let imports = ImportTable::new();
    let mut state = State::new(&imports);
    check_sub_(&mut state, t1, t2)
}

#[test]
fn base_types_are_subtypes_of_themselves() {
    assert_eq!(unify(mk::num(), mk::num()), Ok(()));
    assert_eq!(unify(mk::bool(), mk::bool()), Ok(()));
    assert_eq!(unify(mk::str(), mk::str()), Ok(()));
    assert_eq!(unify(mk::sym(), mk::sym()), Ok(()));
    assert_eq!(unify(mk::dynamic(), mk::dynamic()), Ok(()));
}

#[test]
fn distinct_base_types_mismatch() {
    assert_eq!(
        unify(mk::num(), mk::str()),
        Err(UnifError::TypeMismatch(mk::num(), mk::str()))
    );
    assert_eq!(
        unify(mk::list(mk::num()), mk::num()),
        Err(UnifError::TypeMismatch(mk::list(mk::num()), mk::num()))
    );
}

#[test]
fn every_concrete_type_is_below_dyn() {
    assert_eq!(unify(mk::num(), mk::dynamic()), Ok(()));
    assert_eq!(unify(arrow(mk::num(), mk::num()), mk::dynamic()), Ok(()));
    assert_eq!(unify(poly("a", var("a")), mk::dynamic()), Ok(()));
    assert_eq!(
        unify(mk::dynamic(), mk::num()),
        Err(UnifError::TypeMismatch(mk::dynamic(), mk::num()))
    );
    assert_eq!(unify(cst(3), mk::dynamic()), Err(UnifError::WithConst(3, mk::dynamic())));
}

#[test]
fn lists_and_dictionaries_are_covariant() {
    assert_eq!(unify(mk::list(mk::num()), mk::list(mk::dynamic())), Ok(()));
    assert_eq!(
        unify(mk::list(mk::num()), mk::list(mk::str())),
        Err(UnifError::TypeMismatch(mk::num(), mk::str()))
    );
    assert_eq!(unify(mk::dyn_record(mk::num()), mk::dyn_record(mk::dynamic())), Ok(()));
    assert_eq!(
        unify(mk::dyn_record(mk::dynamic()), mk::dyn_record(mk::num())),
        Err(UnifError::TypeMismatch(mk::dynamic(), mk::num()))
    );
}

#[test]
fn arrows_are_contravariant_then_covariant() {
    assert_eq!(
        unify(arrow(mk::dynamic(), mk::num()), arrow(mk::num(), mk::dynamic())),
        Ok(())
    );
    let t1 = arrow(mk::num(), mk::num());
    let t2 = arrow(mk::dynamic(), mk::num());
    assert_eq!(
        unify(t1.clone(), t2.clone()),
        Err(UnifError::DomainMismatch(
            t1.clone(),
            t2,
            Box::new(UnifError::TypeMismatch(mk::dynamic(), mk::num())),
        ))
    );
    let t3 = arrow(mk::num(), mk::bool());
    assert_eq!(
        unify(t1.clone(), t3.clone()),
        Err(UnifError::CodomainMismatch(
            t1,
            t3,
            Box::new(UnifError::TypeMismatch(mk::num(), mk::bool())),
        ))
    );
}

#[test]
fn nested_arrow_errors_spell_a_path() {
    let t1 = arrow(mk::num(), arrow(mk::num(), mk::num()));
    let t2 = arrow(mk::num(), arrow(mk::bool(), mk::num()));
    let err = unify(t1.clone(), t2.clone()).unwrap_err();
    assert_eq!(
        err.into_type_path(),
        Some((
            t1,
            t2,
            vec![Elem::Codomain, Elem::Domain],
            UnifError::TypeMismatch(mk::bool(), mk::num()),
        ))
    );
}

#[test]
fn other_errors_have_no_path() {
    let err = UnifError::TypeMismatch(mk::num(), mk::str());
    assert!(err.is_on_arrows());
    assert_eq!(err.into_type_path(), None);
    let cause = Box::new(UnifError::ConstMismatch(0, 1));
    let bad = UnifError::DomainMismatch(mk::num(), mk::str(), cause);
    assert!(!bad.is_on_arrows());
}

#[test]
fn flat_types_are_compared_by_name() {
    let c = || flat(Term::Var(id("contract")));
    assert_eq!(unify(c(), c()), Ok(()));
    assert_eq!(
        unify(c(), flat(Term::Var(id("other")))),
        Err(UnifError::TypeMismatch(c(), flat(Term::Var(id("other")))))
    );
    let null = RichTerm::new(Term::Null, TermPos::Generated);
    assert_eq!(
        unify(c(), flat(Term::Null)),
        Err(UnifError::IllformedFlatType(null.clone()))
    );
    assert_eq!(unify(flat(Term::Null), c()), Err(UnifError::IllformedFlatType(null)));
}

#[test]
fn constants_only_unify_with_themselves() {
    assert_eq!(unify(cst(1), cst(1)), Ok(()));
    assert_eq!(unify(cst(1), cst(2)), Err(UnifError::ConstMismatch(1, 2)));
    assert_eq!(unify(mk::num(), cst(2)), Err(UnifError::WithConst(2, mk::num())));
    assert_eq!(unify(cst(2), mk::num()), Err(UnifError::WithConst(2, mk::num())));
}

#[test]
fn a_variable_unified_with_a_constant_stands_for_it() {
    let imports = ImportTable::new();
    let mut state = State::new(&imports);
    let p = state.fresh();
    assert_eq!(check_sub_(&mut state, cst(7), ptr(p)), Ok(()));
    assert_eq!(get_root(&state.table, p), cst(7));
    assert_eq!(
        check_sub_(&mut state, ptr(p), mk::num()),
        Err(UnifError::WithConst(7, mk::num()))
    );
}

#[test]
fn unbound_type_variables_are_rejected() {
    assert_eq!(unify(var("a"), mk::num()), Err(UnifError::UnboundTypeVariable(id("a"))));
    assert_eq!(unify(mk::num(), var("b")), Err(UnifError::UnboundTypeVariable(id("b"))));
}

#[test]
fn polymorphic_types_are_compared_up_to_renaming() {
    assert_eq!(
        unify(
            poly("a", arrow(var("a"), var("a"))),
            poly("b", arrow(var("b"), var("b"))),
        ),
        Ok(())
    );
    let t1 = arrow(cst(0), cst(0));
    let t2 = arrow(cst(0), mk::num());
    assert_eq!(
        unify(
            poly("a", arrow(var("a"), var("a"))),
            poly("b", arrow(var("b"), mk::num())),
        ),
        Err(UnifError::CodomainMismatch(t1, t2, Box::new(UnifError::WithConst(0, mk::num()))))
    );
}

#[test]
fn rows_are_unordered() {
    let t1 = mk::record(field("a", mk::num(), field("b", mk::str(), mk::row_empty())));
    let t2 = mk::record(field("b", mk::str(), field("a", mk::dynamic(), mk::row_empty())));
    assert_eq!(unify(t1, t2), Ok(()));
    let e1 = mk::enumeration(tag("x", tag("y", mk::row_empty())));
    let e2 = mk::enumeration(tag("y", tag("x", mk::row_empty())));
    assert_eq!(unify(e1, e2), Ok(()));
}

#[test]
fn row_errors() {
    let empty = mk::record(mk::row_empty());
    let open = mk::record(mk::dynamic());
    let a_num = mk::record(field("a", mk::num(), mk::row_empty()));
    let a_str = mk::record(field("a", mk::str(), mk::row_empty()));
    let a_tag = mk::record(tag("a", mk::row_empty()));
    assert_eq!(
        unify(a_num.clone(), empty.clone()),
        Err(UnifError::MissingRow(id("a"), a_num.clone(), empty.clone()))
    );
    assert_eq!(
        unify(empty.clone(), a_num.clone()),
        Err(UnifError::ExtraRow(id("a"), empty.clone(), a_num.clone()))
    );
    assert_eq!(
        unify(open.clone(), empty.clone()),
        Err(UnifError::MissingDynTail(open.clone(), empty.clone()))
    );
    assert_eq!(
        unify(empty.clone(), open.clone()),
        Err(UnifError::ExtraDynTail(empty.clone(), open.clone()))
    );
    assert_eq!(
        unify(a_num.clone(), open.clone()),
        Err(UnifError::MissingRow(id("a"), a_num.clone(), open.clone()))
    );
    assert_eq!(
        unify(open.clone(), a_num.clone()),
        Err(UnifError::ExtraRow(id("a"), open, a_num.clone()))
    );
    assert_eq!(
        unify(a_num.clone(), a_str.clone()),
        Err(UnifError::RowMismatch(
            id("a"),
            a_num.clone(),
            a_str,
            Box::new(UnifError::TypeMismatch(mk::num(), mk::str())),
        ))
    );
    assert_eq!(
        unify(a_num.clone(), a_tag.clone()),
        Err(UnifError::RowKindMismatch(id("a"), Some(mk::num()), None))
    );
    assert_eq!(
        unify(a_tag, a_num),
        Err(UnifError::RowKindMismatch(id("a"), None, Some(mk::num())))
    );
}

#[test]
fn ill_formed_types_and_rows() {
    let bad = mk::record(mk::num());
    let good = mk::record(mk::row_empty());
    assert_eq!(
        unify(bad.clone(), good.clone()),
        Err(UnifError::IllformedType(bad.clone()))
    );
    assert_eq!(unify(good, bad.clone()), Err(UnifError::IllformedType(bad)));
    let bad = mk::enumeration(mk::num());
    assert_eq!(
        unify(bad.clone(), mk::enumeration(mk::row_empty())),
        Err(UnifError::IllformedType(bad))
    );
    let bad_tail = mk::record(field("a", mk::num(), mk::num()));
    let good = mk::record(field("a", mk::num(), mk::row_empty()));
    assert_eq!(unify(bad_tail, good), Err(UnifError::IllformedRow(mk::num())));
}

#[test]
fn rows_can_be_unified_by_themselves() {
    let imports = ImportTable::new();
    let mut state = State::new(&imports);
    let t1 = abs(field("a", mk::num(), mk::row_empty()));
    let t2 = abs(field("a", mk::num(), mk::dynamic()));
    assert_eq!(
        check_sub_rows(&mut state, t1.clone(), t2),
        Err(RowUnifError::ExtraDynTail())
    );
    assert_eq!(check_sub_rows(&mut state, t1.clone(), t1), Ok(()));
    assert_eq!(
        check_sub_rows(&mut state, AbsType::Num(), AbsType::RowEmpty()),
        Err(RowUnifError::IllformedRow(mk::num()))
    );
    assert_eq!(
        check_sub_rows(&mut state, AbsType::RowEmpty(), AbsType::Str()),
        Err(RowUnifError::IllformedRow(mk::str()))
    );
}

#[test]
fn row_tails_with_constants() {
    let row = |tail| field("a", mk::num(), tail);
    let imports = ImportTable::new();
    let mut state = State::new(&imports);
    assert_eq!(
        check_sub_rows(&mut state, abs(row(cst(4))), abs(row(cst(4)))),
        Ok(())
    );
    assert_eq!(
        check_sub_rows(&mut state, abs(row(cst(4))), abs(row(cst(5)))),
        Err(RowUnifError::ConstMismatch(4, 5))
    );
    assert_eq!(
        check_sub_rows(&mut state, abs(row(cst(4))), abs(row(mk::row_empty()))),
        Err(RowUnifError::WithConst(4, mk::row_empty()))
    );
}

#[test]
fn row_tails_with_variables() {
    let imports = ImportTable::new();
    let mut state = State::new(&imports);
    let p = state.fresh();
    let open = mk::record(field("a", mk::num(), ptr(p)));
    let closed = mk::record(field("b", mk::str(), field("a", mk::num(), mk::row_empty())));
    assert_eq!(check_sub_(&mut state, open, closed), Ok(()));
    assert_eq!(get_root(&state.table, p), field("b", mk::str(), mk::row_empty()));
}

#[test]
fn a_forbidden_field_is_a_row_conflict() {
    let imports = ImportTable::new();
    let mut state = State::new(&imports);
    let p = state.fresh();
    state.forbid(p, id("a"));
    let row = field("a", mk::num(), mk::row_empty());
    assert_eq!(
        check_sub_(&mut state, ptr(p), row.clone()),
        Err(UnifError::RowConflict(id("a"), Some(mk::num()), ptr(p), row.clone()))
    );
    state.forbid(p, id("a"));
    assert_eq!(
        check_sub_(&mut state, row.clone(), ptr(p)),
        Err(UnifError::RowConflict(id("a"), Some(mk::num()), row, ptr(p)))
    );
}

#[test]
fn records_below_dictionaries() {
    let row = field("a", mk::num(), field("b", mk::num(), mk::row_empty()));
    assert_eq!(unify(mk::record(row.clone()), mk::dyn_record(mk::num())), Ok(()));
    assert_eq!(unify(mk::record(row.clone()), mk::dyn_record(mk::dynamic())), Ok(()));
    let rec = mk::record(row);
    let dict = mk::dyn_record(mk::str());
    assert_eq!(
        unify(rec.clone(), dict.clone()),
        Err(UnifError::RowMismatch(
            id("a"),
            rec.clone(),
            dict,
            Box::new(UnifError::TypeMismatch(mk::num(), mk::str())),
        ))
    );
    assert_eq!(
        unify(mk::dyn_record(mk::num()), rec.clone()),
        Err(UnifError::TypeMismatch(mk::dyn_record(mk::num()), rec))
    );
}

#[test]
fn rows_below_dictionaries() {
    let imports = ImportTable::new();
    let mut state = State::new(&imports);
    assert_eq!(check_sub_dyn_record(&mut state, mk::row_empty(), mk::num()), Ok(()));
    assert_eq!(check_sub_dyn_record(&mut state, mk::dynamic(), mk::dynamic()), Ok(()));
    assert_eq!(
        check_sub_dyn_record(&mut state, mk::dynamic(), mk::num()),
        Err(RowUnifError::ExtraDynTail())
    );
    assert_eq!(check_sub_dyn_record(&mut state, ptr(9), mk::dynamic()), Ok(()));
    assert_eq!(
        check_sub_dyn_record(&mut state, ptr(9), mk::num()),
        Err(RowUnifError::UnsatConstr(id("<tail>"), Some(mk::num())))
    );
    assert_eq!(
        check_sub_dyn_record(&mut state, cst(2), mk::dynamic()),
        Err(RowUnifError::WithConst(2, mk::dynamic()))
    );
    let row = tag("x", mk::row_empty());
    assert_eq!(
        check_sub_dyn_record(&mut state, row.clone(), mk::num()),
        Err(RowUnifError::IllformedRow(row))
    );
    assert_eq!(
        check_sub_dyn_record(&mut state, mk::num(), mk::num()),
        Err(RowUnifError::IllformedRow(mk::num()))
    );
}

#[test]
fn new_variables_are_numbered_in_order() {
    let mut table = UnifTable::new();
    assert_eq!(new_var(&mut table), 0);
    assert_eq!(new_var(&mut table), 1);
    assert_eq!(new_var(&mut table), 2);
    assert_eq!(get_root(&table, 1), ptr(1));
}

#[test]
fn the_representative_is_at_the_end_of_the_links() {
    let mut table = UnifTable::new();
    for _ in 0..4 {
        new_var(&mut table);
    }
    table.insert(0, Some(ptr(1)));
    table.insert(1, Some(ptr(2)));
    assert_eq!(get_root(&table, 0), ptr(2));
    table.insert(2, Some(mk::num()));
    assert_eq!(get_root(&table, 0), mk::num());
    table.insert(2, Some(cst(8)));
    assert_eq!(get_root(&table, 1), cst(8));
    // As many steps as there are variables are enough, and the representative is its own.
    assert_eq!(get_root_within(4, &table, 0), Some(cst(8)));
    assert_eq!(get_root(&table, 3), ptr(3));
    assert_eq!(get_root_within(1, &table, 3), Some(ptr(3)));
}

#[test]
fn a_bounded_search_for_a_representative() {
    let mut table = UnifTable::new();
    new_var(&mut table);
    new_var(&mut table);
    table.insert(0, Some(ptr(1)));
    assert_eq!(get_root_within(0, &table, 0), None);
    assert_eq!(get_root_within(1, &table, 0), None);
    assert_eq!(get_root_within(2, &table, 0), Some(ptr(1)));
    assert_eq!(get_root_within(200, &table, 0), Some(ptr(1)));
    assert_eq!(get_root_within(200, &table, 5), None);
    table.insert(1, Some(ptr(0)));
    assert_eq!(get_root_within(10_000, &table, 0), None);
}

#[test]
fn bindings_persist() {
    let imports = ImportTable::new();
    let mut state = State::new(&imports);
    let p = state.fresh();
    let q = state.fresh();
    assert_eq!(check_sub_(&mut state, ptr(p), ptr(q)), Ok(()));
    assert_eq!(get_root(&state.table, p), ptr(q));
    assert_eq!(check_sub_(&mut state, ptr(p), mk::num()), Ok(()));
    assert_eq!(state.table.get(&p), Some(&Some(ptr(q))));
    assert_eq!(get_root(&state.table, p), mk::num());
    assert_eq!(get_root(&state.table, q), mk::num());
    assert_eq!(
        check_sub_(&mut state, ptr(q), mk::str()),
        Err(UnifError::TypeMismatch(mk::num(), mk::str()))
    );
    assert_eq!(get_root(&state.table, p), mk::num());
}

#[test]
fn non_strict_unification_does_nothing() {
    let imports = ImportTable::new();
    let mut state = State::new(&imports);
    let p = state.fresh();
    assert_eq!(check_sub(&mut state, false, mk::num(), mk::str()), Ok(()));
    assert_eq!(check_sub(&mut state, false, ptr(p), mk::str()), Ok(()));
    assert_eq!(get_root(&state.table, p), ptr(p));
    assert_eq!(
        check_sub(&mut state, true, mk::num(), mk::str()),
        Err(UnifError::TypeMismatch(mk::num(), mk::str()))
    );
    assert_eq!(check_sub(&mut state, true, ptr(p), mk::str()), Ok(()));
    assert_eq!(get_root(&state.table, p), mk::str());
}

#[test]
fn the_bound_only_decides_whether_a_run_returns() {
    let t1 = arrow(mk::list(mk::num()), mk::num());
    let t2 = arrow(mk::list(mk::str()), mk::num());
    let expected = Err(UnifError::DomainMismatch(
        t1.clone(),
        t2.clone(),
        Box::new(UnifError::TypeMismatch(mk::str(), mk::num())),
    ));
    let mut returned = false;
    for limit in 0..12 {
        let imports = ImportTable::new();
        let mut state = State::new(&imports);
        match check_sub_within_(limit, &mut state, t1.clone(), t2.clone()) {
            Some(res) => {
                assert_eq!(res, expected);
                returned = true;
            }
            None => assert!(!returned),
        }
    }
    assert!(returned);
}

#[test]
fn types_without_variables_return_within_their_sizes() {
    // The two types have five parts each.
    let t1 = arrow(mk::list(mk::num()), mk::list(mk::num()));
    let imports = ImportTable::new();
    let mut state = State::new(&imports);
    assert_eq!(check_sub_within_(11, &mut state, t1.clone(), t1), Some(Ok(())));
}

#[test]
fn cyclic_types_have_no_end() {
    let imports = ImportTable::new();
    let mut state = State::new(&imports);
    let p = state.fresh();
    let q = state.fresh();
    assert_eq!(check_sub_(&mut state, ptr(p), arrow(ptr(p), mk::num())), Ok(()));
    assert_eq!(check_sub_(&mut state, ptr(q), arrow(ptr(q), mk::num())), Ok(()));
    assert_eq!(check_sub_within_(500, &mut state, ptr(p), ptr(q)), None);
}

#[test]
fn row_add_finds_a_binding() {
    let imports = ImportTable::new();
    let mut state = State::new(&imports);
    let row = field("a", mk::num(), field("b", mk::str(), mk::row_empty()));
    assert_eq!(
        row_add(&mut state, &id("b"), Some(Box::new(mk::bool())), row.clone()),
        Ok((Some(Box::new(mk::str())), field("a", mk::num(), mk::row_empty())))
    );
    assert_eq!(
        row_add(&mut state, &id("c"), None, row),
        Err(RowUnifError::MissingRow(id("c")))
    );
    assert_eq!(
        row_add(&mut state, &id("c"), None, mk::dynamic()),
        Err(RowUnifError::MissingRow(id("c")))
    );
    assert_eq!(
        row_add(&mut state, &id("c"), None, mk::num()),
        Err(RowUnifError::IllformedRow(mk::num()))
    );
    assert_eq!(state.table.len(), 0);
}

#[test]
fn row_add_extends_a_variable() {
    let imports = ImportTable::new();
    let mut state = State::new(&imports);
    let p = state.fresh();
    assert_eq!(
        row_add(&mut state, &id("a"), Some(Box::new(mk::num())), ptr(p)),
        Ok((Some(Box::new(mk::num())), ptr(1)))
    );
    assert_eq!(get_root(&state.table, p), field("a", mk::num(), ptr(1)));
    // The tail must not have the identifier again.
    assert!(state.constr.get(&1).unwrap().contains(&id("a")));
    // It is found from now on.
    assert_eq!(
        row_add(&mut state, &id("a"), Some(Box::new(mk::str())), ptr(p)),
        Ok((Some(Box::new(mk::num())), ptr(1)))
    );
    assert_eq!(
        row_add(&mut state, &id("a"), Some(Box::new(mk::str())), ptr(1)),
        Err(RowUnifError::UnsatConstr(id("a"), Some(mk::str())))
    );
}

#[test]
fn constraints_reach_the_end_of_a_row() {
    let imports = ImportTable::new();
    let mut state = State::new(&imports);
    let p = state.fresh();
    let row = field("a", mk::num(), ptr(p));
    assert_eq!(constraint(&mut state, row.clone(), id("b")), Ok(()));
    assert!(state.constr.get(&p).unwrap().contains(&id("b")));
    assert!(!state.constr.get(&p).unwrap().contains(&id("a")));
    assert_eq!(
        constraint(&mut state, row, id("a")),
        Err(RowUnifError::UnsatConstr(id("a"), Some(mk::num())))
    );
    assert_eq!(constraint(&mut state, mk::row_empty(), id("a")), Ok(()));
    assert_eq!(
        constraint(&mut state, mk::num(), id("a")),
        Err(RowUnifError::IllformedRow(mk::num()))
    );
    state.table.insert(p, Some(cst(3)));
    assert_eq!(
        constraint(&mut state, ptr(p), id("a")),
        Err(RowUnifError::IllformedRow(cst(3)))
    );
}

#[test]
fn a_new_variable_is_constrained_by_the_rows_it_ends() {
    // forall a. {x: Num | a} -> Num
    let imports = ImportTable::new();
    let mut state = State::new(&imports);
    let p = state.fresh();
    let ty = arrow(mk::record(field("x", mk::num(), ptr(p))), mk::num());
    constrain_var(&mut state, &ty, p);
    assert_eq!(state.constr.get(&p), Some(&ids(&["x"])));
    assert_eq!(state.constr.len(), 1);
    // No row ends with the variable.
    let q = state.fresh();
    constrain_var(&mut state, &arrow(ptr(q), mk::list(ptr(q))), q);
    assert_eq!(state.constr.get(&q), None);
    // A cyclic type has no end.
    let r = state.fresh();
    state.table.insert(r, Some(mk::list(ptr(r))));
    assert_eq!(constrain_var_within(300, &mut state, &ptr(r), q), None);
}

#[test]
fn unified_variables_inherit_constraints() {
    let mut constr = RowConstr::new();
    constr.insert(0, ids(&["a", "b"]));
    constr.insert(1, ids(&["c"]));
    assert_eq!(constr_unify(&mut constr, 0, &ptr(1)), Ok(()));
    assert_eq!(constr.get(&0), None);
    for name in ["a", "b", "c"] {
        assert!(constr.get(&1).unwrap().contains(&id(name)));
    }
    // At the end of a row too.
    assert_eq!(constr_unify(&mut constr, 1, &field("d", mk::num(), ptr(2))), Ok(()));
    assert_eq!(constr.get(&1), None);
    assert_eq!(constr.get(&2).unwrap().len(), 3);
}

#[test]
fn violated_constraints() {
    let mut constr = RowConstr::new();
    constr.insert(0, ids(&["b"]));
    let row = field("a", mk::num(), tag("b", mk::row_empty()));
    assert_eq!(
        constr_unify(&mut constr, 0, &row),
        Err(RowUnifError::UnsatConstr(id("b"), None))
    );
    // Without constraints, and on a type that is no row, nothing can be violated.
    assert_eq!(constr_unify(&mut constr, 0, &row), Ok(()));
    constr.insert(0, ids(&["b"]));
    assert_eq!(constr_unify(&mut constr, 0, &mk::num()), Ok(()));
    // A variable does not hand constraints down to itself.
    constr.insert(0, ids(&["b"]));
    assert_eq!(constr_unify(&mut constr, 0, &ptr(0)), Ok(()));
    assert_eq!(constr.len(), 0);
}

#[test]
fn row_errors_become_unification_errors() {
    let (l, r) = (mk::num(), mk::str());
    let conv = |err: RowUnifError| err.into_unif_err(mk::num(), mk::str());
    assert_eq!(
        conv(RowUnifError::MissingRow(id("a"))),
        UnifError::MissingRow(id("a"), l.clone(), r.clone())
    );
    assert_eq!(
        conv(RowUnifError::MissingDynTail()),
        UnifError::MissingDynTail(l.clone(), r.clone())
    );
    assert_eq!(
        conv(RowUnifError::ExtraRow(id("a"))),
        UnifError::ExtraRow(id("a"), l.clone(), r.clone())
    );
    assert_eq!(conv(RowUnifError::ExtraDynTail()), UnifError::ExtraDynTail(l.clone(), r.clone()));
    assert_eq!(
        conv(RowUnifError::RowMismatch(id("a"), UnifError::ConstMismatch(1, 2))),
        UnifError::RowMismatch(
            id("a"),
            l.clone(),
            r.clone(),
            Box::new(UnifError::ConstMismatch(1, 2)),
        )
    );
    assert_eq!(
        conv(RowUnifError::RowKindMismatch(id("a"), None, Some(mk::bool()))),
        UnifError::RowKindMismatch(id("a"), None, Some(mk::bool()))
    );
    assert_eq!(
        conv(RowUnifError::IllformedRow(mk::bool())),
        UnifError::IllformedRow(mk::bool())
    );
    assert_eq!(
        conv(RowUnifError::UnsatConstr(id("a"), Some(mk::bool()))),
        UnifError::RowConflict(id("a"), Some(mk::bool()), l, r)
    );
    assert_eq!(
        conv(RowUnifError::WithConst(3, mk::bool())),
        UnifError::WithConst(3, mk::bool())
    );
    assert_eq!(conv(RowUnifError::ConstMismatch(3, 4)), UnifError::ConstMismatch(3, 4));
}

#[test]
fn well_formed_types_unify_with_themselves() {
    let row = field("a", mk::num(), tag("b", var("r")));
    let ty = poly(
        "r",
        poly(
            "t",
            arrow(
                mk::record(row),
                arrow(
                    mk::enumeration(tag("x", mk::dynamic())),
                    arrow(mk::list(var("t")), mk::dyn_record(flat(Term::Var(id("c"))))),
                ),
            ),
        ),
    );
    assert_eq!(unify(ty.clone(), ty), Ok(()));
}

#[test]
fn an_unrelated_variable_keeps_its_constraints() {
    let mut constr = RowConstr::new();
    constr.insert(0, ids(&["a"]));
    constr.insert(5, ids(&["b"]));
    assert_eq!(constr_unify(&mut constr, 0, &ptr(1)), Ok(()));
    assert_eq!(constr.get(&5), Some(&ids(&["b"])));
    assert_eq!(constr.get(&1), Some(&ids(&["a"])));
    assert_eq!(constr.len(), 2);
}

#[test]
fn a_second_binding_respects_the_constraints_of_the_row() {
    let imports = ImportTable::new();
    let mut state = State::new(&imports);
    let p = state.fresh();
    state.forbid(p, id("b"));
    assert_eq!(
        row_add(&mut state, &id("a"), Some(Box::new(mk::num())), ptr(p)),
        Ok((Some(Box::new(mk::num())), ptr(1)))
    );
    assert_eq!(state.constr.get(&1), Some(&ids(&["a", "b"])));
    assert_eq!(
        row_add(&mut state, &id("b"), Some(Box::new(mk::num())), ptr(p)),
        Err(RowUnifError::UnsatConstr(id("b"), Some(mk::num())))
    );
    // Nor can the tail be unified with a row that has it.
    let tail = field("b", mk::str(), mk::row_empty());
    assert_eq!(
        check_sub_(&mut state, ptr(1), tail.clone()),
        Err(UnifError::RowConflict(id("b"), Some(mk::str()), ptr(1), tail))
    );
}

#[test]
fn a_row_without_constraints_only_forbids_the_new_binding() {
    let imports = ImportTable::new();
    let mut state = State::new(&imports);
    let p = state.fresh();
    let row = field("x", mk::str(), ptr(p));
    assert_eq!(
        row_add(&mut state, &id("a"), None, row),
        Ok((None, field("x", mk::str(), ptr(1))))
    );
    assert_eq!(state.constr.get(&1), Some(&ids(&["a"])));
    assert_eq!(state.constr.get(&p), None);
}

#[test]
fn a_variable_that_ends_two_rows_gets_the_constraints_of_both() {
    let imports = ImportTable::new();
    let mut state = State::new(&imports);
    let p = state.fresh();
    let ty = arrow(
        mk::record(field("x", mk::num(), ptr(p))),
        mk::record(field("y", mk::num(), ptr(p))),
    );
    constrain_var(&mut state, &ty, p);
    let both = state.constr.get(&p).unwrap();
    assert!(both.contains(&id("x")));
    assert!(both.contains(&id("y")));
    assert_eq!(both.len(), 2);
    let again = field("x", mk::num(), mk::row_empty());
    assert_eq!(
        check_sub_(&mut state, ptr(p), again.clone()),
        Err(UnifError::RowConflict(id("x"), Some(mk::num()), ptr(p), again))
    );
}

#[test]
fn an_instantiated_variable_gets_the_constraints_of_all_its_rows() {
    let imports = ImportTable::new();
    let mut state = State::new(&imports);
    let ty = poly(
        "r",
        arrow(
            mk::record(field("x", mk::num(), var("r"))),
            mk::list(mk::record(field("y", mk::num(), field("z", mk::str(), var("r"))))),
        ),
    );
    instantiate_foralls(&mut state, ty, ForallInst::Ptr);
    let all = state.constr.get(&0).unwrap();
    for name in ["x", "y", "z"] {
        assert!(all.contains(&id(name)));
    }
    assert_eq!(all.len(), 3);
}

#[test]
fn a_bound_tail_stands_for_its_row() {
    let imports = ImportTable::new();
    let mut state = State::new(&imports);
    let p = state.fresh();
    assert_eq!(check_sub_(&mut state, ptr(p), tag("b", mk::row_empty())), Ok(()));
    assert_eq!(
        check_sub_rows(&mut state, abs(tag("a", mk::row_empty())), abs(tag("a", ptr(p)))),
        Err(RowUnifError::ExtraRow(id("b")))
    );
    assert_eq!(
        check_sub_rows(&mut state, abs(tag("a", ptr(p))), abs(tag("a", mk::row_empty()))),
        Err(RowUnifError::MissingRow(id("b")))
    );
    assert_eq!(
        check_sub_rows(
            &mut state,
            abs(tag("a", ptr(p))),
            abs(tag("a", field("b", mk::num(), mk::row_empty())))
        ),
        Err(RowUnifError::RowKindMismatch(id("b"), None, Some(mk::num())))
    );
    let q = state.fresh();
    assert_eq!(
        check_sub_(&mut state, ptr(q), field("c", mk::num(), mk::row_empty())),
        Ok(())
    );
    assert_eq!(
        check_sub_rows(
            &mut state,
            abs(field("a", mk::num(), ptr(q))),
            abs(field("a", mk::num(), field("c", mk::str(), mk::row_empty())))
        ),
        Err(RowUnifError::RowMismatch(
            id("c"),
            UnifError::TypeMismatch(mk::num(), mk::str())
        ))
    );
    let e = state.fresh();
    assert_eq!(check_sub_(&mut state, ptr(e), mk::row_empty()), Ok(()));
    assert_eq!(
        check_sub_rows(&mut state, abs(tag("a", mk::dynamic())), abs(tag("a", ptr(e)))),
        Err(RowUnifError::MissingDynTail())
    );
    assert_eq!(
        check_sub_rows(&mut state, abs(tag("a", ptr(e))), abs(tag("a", mk::row_empty()))),
        Ok(())
    );
}

#[test]
fn a_bound_tail_that_is_no_row_is_ill_formed() {
    let imports = ImportTable::new();
    let mut state = State::new(&imports);
    let p = state.fresh();
    assert_eq!(check_sub_(&mut state, ptr(p), mk::list(mk::num())), Ok(()));
    let ill_formed = Err(RowUnifError::IllformedRow(mk::list(mk::num())));
    assert_eq!(
        check_sub_rows(&mut state, abs(tag("a", ptr(p))), abs(tag("a", mk::row_empty()))),
        ill_formed
    );
    assert_eq!(
        check_sub_rows(&mut state, abs(tag("a", mk::row_empty())), abs(tag("a", ptr(p)))),
        ill_formed
    );
    assert_eq!(
        check_sub_rows(
            &mut state,
            abs(tag("a", ptr(p))),
            abs(tag("a", mk::list(mk::str())))
        ),
        ill_formed
    );
}

#[test]
fn subtyping_of_closed_types_is_transitive() {
    let a = mk::record(field("x", mk::num(), field("y", mk::num(), mk::row_empty())));
    let b = mk::record(field("y", mk::dynamic(), field("x", mk::num(), mk::row_empty())));
    let c = mk::dyn_record(mk::dynamic());
    assert_eq!(unify(a.clone(), b.clone()), Ok(()));
    assert_eq!(unify(b.clone(), c.clone()), Ok(()));
    assert_eq!(unify(a.clone(), c.clone()), Ok(()));
    let fun = |t: &TypeWrapper| arrow(t.clone(), mk::str());
    assert_eq!(unify(fun(&c), fun(&b)), Ok(()));
    assert_eq!(unify(fun(&b), fun(&a)), Ok(()));
    assert_eq!(unify(fun(&c), fun(&a)), Ok(()));
}

#[test]
fn the_order_of_bindings_does_not_matter() {
    let row = |first: &str, second: &str, tail| tag(first, tag(second, tail));
    let a = mk::list(mk::enumeration(row("x", "y", mk::row_empty())));
    let a2 = mk::list(mk::enumeration(row("y", "x", mk::row_empty())));
    let b = mk::list(mk::enumeration(row("x", "z", mk::row_empty())));
    let b2 = mk::list(mk::enumeration(row("z", "x", mk::row_empty())));
    assert_eq!(unify(a.clone(), a2.clone()), Ok(()));
    assert_eq!(unify(a2.clone(), a.clone()), Ok(()));
    for left in [&a, &a2] {
        for right in [&b, &b2] {
            assert!(unify(left.clone(), right.clone()).is_err());
        }
    }
}

#[test]
fn closed_types_change_nothing() {
    let imports = ImportTable::new();
    let mut state = State::new(&imports);
    let p = state.fresh();
    state.forbid(p, id("a"));
    let a = mk::record(field("a", mk::num(), field("b", cst(7), mk::row_empty())));
    let b = mk::record(field("b", cst(7), field("a", mk::str(), mk::row_empty())));
    assert!(check_sub_(&mut state, a.clone(), b).is_err());
    assert_eq!(check_sub_(&mut state, a.clone(), a), Ok(()));
    assert_eq!(state.table.len(), 1);
    assert_eq!(state.table.get(&p), Some(&None));
    assert_eq!(state.constr.len(), 1);
    assert_eq!(state.constr.get(&p), Some(&ids(&["a"])));
    assert!(state.names.is_empty());
}

#[test]
fn the_first_field_that_fails_is_reported() {
    let imports = ImportTable::new();
    let mut state = State::new(&imports);
    let row = field(
        "a",
        mk::num(),
        field("b", mk::str(), field("c", mk::bool(), mk::row_empty())),
    );
    assert_eq!(
        check_sub_dyn_record(&mut state, row.clone(), mk::num()),
        Err(RowUnifError::RowMismatch(
            id("b"),
            UnifError::TypeMismatch(mk::str(), mk::num())
        ))
    );
    assert_eq!(check_sub_dyn_record(&mut state, row, mk::dynamic()), Ok(()));
    let same = field("a", cst(3), field("b", cst(3), mk::row_empty()));
    assert_eq!(check_sub_dyn_record(&mut state, same.clone(), cst(3)), Ok(()));
    assert_eq!(
        check_sub_dyn_record(&mut state, same, cst(4)),
        Err(RowUnifError::RowMismatch(id("a"), UnifError::ConstMismatch(3, 4)))
    );
    assert_eq!(state.table.len(), 0);
}

#[test]
fn constraints_are_checked_through_a_bound_end() {
    let imports = ImportTable::new();
    for left in [true, false] {
        let mut state = State::new(&imports);
        let p = state.fresh();
        let u = state.fresh();
        assert_eq!(check_sub_(&mut state, ptr(u), tag("a", mk::row_empty())), Ok(()));
        state.forbid(p, id("a"));
        let row = tag("b", ptr(u));
        let (t1, t2) = if left { (ptr(p), row) } else { (row, ptr(p)) };
        assert_eq!(
            check_sub_(&mut state, t1.clone(), t2.clone()),
            Err(UnifError::RowConflict(id("a"), None, t1, t2))
        );
        assert_eq!(get_root(&state.table, p), ptr(p));
    }
}

#[test]
fn constraints_reach_the_end_of_a_bound_end() {
    let imports = ImportTable::new();
    let mut state = State::new(&imports);
    let p = state.fresh();
    let u = state.fresh();
    let v = state.fresh();
    let w = state.fresh();
    assert_eq!(check_sub_(&mut state, ptr(v), field("c", mk::num(), ptr(w))), Ok(()));
    assert_eq!(check_sub_(&mut state, ptr(u), ptr(v)), Ok(()));
    state.forbid(p, id("a"));
    let row = field("b", mk::num(), ptr(u));
    assert_eq!(check_sub_(&mut state, ptr(p), row.clone()), Ok(()));
    assert_eq!(get_root(&state.table, p), row);
    assert_eq!(state.constr.get(&w), Some(&ids(&["a"])));
    assert_eq!(state.constr.get(&u), None);
    assert_eq!(
        row_add(&mut state, &id("a"), Some(Box::new(mk::num())), ptr(p)),
        Err(RowUnifError::UnsatConstr(id("a"), Some(mk::num())))
    );
    let again = field("a", mk::num(), mk::row_empty());
    assert_eq!(
        check_sub_(&mut state, ptr(w), again.clone()),
        Err(UnifError::RowConflict(id("a"), Some(mk::num()), ptr(w), again))
    );
    // A variable that failed to be unified has lost its constraints.
    assert_eq!(state.constr.get(&w), None);
}

#[test]
fn constraints_are_checked_on_cyclic_rows() {
    let imports = ImportTable::new();
    let mut state = State::new(&imports);
    let p = state.fresh();
    let u = state.fresh();
    assert_eq!(check_sub_(&mut state, ptr(u), tag("c", ptr(u))), Ok(()));
    state.forbid(p, id("a"));
    assert_eq!(check_sub_(&mut state, ptr(p), tag("b", ptr(u))), Ok(()));
    let q = state.fresh();
    state.forbid(q, id("c"));
    let row = tag("b", ptr(u));
    assert_eq!(
        check_sub_(&mut state, ptr(q), row.clone()),
        Err(UnifError::RowConflict(id("c"), None, ptr(q), row))
    );
}

#[test]
fn the_end_of_a_row_is_followed() {
    let imports = ImportTable::new();
    let mut state = State::new(&imports);
    let u = state.fresh();
    let v = state.fresh();
    assert_eq!(check_sub_(&mut state, ptr(u), tag("a", ptr(v))), Ok(()));
    let row = tag("b", ptr(u));
    assert_eq!(follow_row(1, &state.table, &row), tag("b", tag("a", ptr(v))));
    assert_eq!(follow_row(0, &state.table, &row), row);
    assert_eq!(follow_row(9, &state.table, &mk::num()), mk::num());
    assert_eq!(state.var_count(), 2);
}
