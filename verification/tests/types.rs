use std::convert::TryFrom;
use typechecker::cache::ImportTable;
use typechecker::environment::Environment;
use typechecker::eval::EnvBuildError;
use typechecker::identifier::{Ident, IdentSet};
use typechecker::label::Label;
use typechecker::position::TermPos;
use typechecker::term::{
    BinaryOp, Contract, MergePriority, MetaValue, NAryOp, RecordAttrs, RichTerm, Term, UnaryOp,
};
use typechecker::typecheck::mk_typewrapper as mk;
use typechecker::typecheck::{
    apparent_type, binding_type, get_bop_type, get_nop_type, get_root, get_uop_type,
    instantiate_foralls, to_typewrapper, ApparentType, Envs, ForallInst, State, TypeWrapper,
    UnifTable,
};
use typechecker::types::{AbsType, Types};

fn id(name: &str) -> Ident {
    Ident::new(name)
}

fn rt(term: Term) -> RichTerm {
    RichTerm::new(term, TermPos::Generated)
}

fn ptr(p: usize) -> TypeWrapper {
    TypeWrapper::Ptr(p)
}

fn cst(c: usize) -> TypeWrapper {
    TypeWrapper::Constant(c)
}

fn var(name: &str) -> TypeWrapper {
    TypeWrapper::Concrete(AbsType::Var(id(name)))
}

fn poly(name: &str, ty: TypeWrapper) -> TypeWrapper {
    TypeWrapper::Concrete(AbsType::Forall(id(name), Box::new(ty)))
}

fn arrow(s: TypeWrapper, t: TypeWrapper) -> TypeWrapper {
    mk::arrow_of(s, t)
}

fn label() -> Label {
    Label { tag: String::new(), polarity: false }
}

/// A type with every form in it.
fn big_type() -> Types {
    Types::Forall(
        id("a"),
        Box::new(Types::Arrow(
            Box::new(Types::StaticRecord(Box::new(Types::RowExtend(
                id("f"),
                Some(Box::new(Types::List(Box::new(Types::Num())))),
                Box::new(Types::RowExtend(
                    id("g"),
                    Some(Box::new(Types::DynRecord(Box::new(Types::Bool())))),
                    Box::new(Types::Dyn()),
                )),
            )))),
            Box::new(Types::Arrow(
                Box::new(Types::Enum(Box::new(Types::RowExtend(
                    id("t"),
                    None,
                    Box::new(Types::RowEmpty()),
                )))),
                Box::new(Types::Arrow(
                    Box::new(Types::Var(id("a"))),
                    Box::new(Types::Arrow(
                        Box::new(Types::Sym()),
                        Box::new(Types::Flat(rt(Term::Var(id("c"))))),
                    )),
                )),
            )),
        )),
    )
}

#[test]
fn conversions_are_inverse() {
    let wrapped = to_typewrapper(big_type());
    assert_eq!(Types::try_from(wrapped.clone()), Ok(big_type()));
    assert_eq!(to_typewrapper(Types::try_from(wrapped.clone()).unwrap()), wrapped);
}

#[test]
fn variables_and_constants_are_no_types() {
    assert_eq!(Types::try_from(ptr(0)), Err(()));
    assert_eq!(Types::try_from(cst(0)), Err(()));
    assert_eq!(Types::try_from(mk::list(ptr(0))), Err(()));
    assert_eq!(Types::try_from(arrow(mk::num(), cst(1))), Err(()));
    assert_eq!(
        Types::try_from(mk::record(mk::record_row(id("a"), mk::num(), ptr(3)))),
        Err(())
    );
}

#[test]
fn builders() {
    assert_eq!(mk::num(), TypeWrapper::Concrete(AbsType::Num()));
    assert_eq!(mk::dynamic(), TypeWrapper::Concrete(AbsType::Dyn()));
    assert_eq!(
        mk::list(mk::str()),
        TypeWrapper::Concrete(AbsType::List(Box::new(TypeWrapper::Concrete(AbsType::Str()))))
    );
    assert_eq!(mk::list(AbsType::Str()), mk::list(mk::str()));
    assert_eq!(
        mk::dyn_record(mk::sym()),
        TypeWrapper::Concrete(AbsType::DynRecord(Box::new(TypeWrapper::Concrete(AbsType::Sym()))))
    );
    assert_eq!(TypeWrapper::from(AbsType::Bool()), mk::bool());
}

#[test]
fn substitution() {
    let ty = arrow(var("a"), mk::list(mk::record(mk::record_row(id("a"), var("a"), var("b")))));
    assert_eq!(
        ty.clone().subst(id("a"), ptr(4)),
        arrow(ptr(4), mk::list(mk::record(mk::record_row(id("a"), ptr(4), var("b")))))
    );
    // A type variable that does not occur, and one that is replaced by itself.
    assert_eq!(ty.clone().subst(id("c"), ptr(4)), ty);
    assert_eq!(ty.clone().subst(id("a"), var("a")), ty);
    // A bound type variable is another one.
    let bound = poly("a", arrow(var("a"), var("b")));
    assert_eq!(bound.clone().subst(id("a"), mk::num()), bound);
    assert_eq!(bound.subst(id("b"), mk::num()), poly("a", arrow(var("a"), mk::num())));
    assert_eq!(mk::dyn_record(var("a")).subst(id("a"), cst(2)), mk::dyn_record(cst(2)));
    assert_eq!(
        mk::enumeration(mk::enum_row(id("x"), var("a"))).subst(id("a"), mk::row_empty()),
        mk::enumeration(mk::enum_row(id("x"), mk::row_empty()))
    );
}

#[test]
fn quantifiers_in_head_position_are_instantiated() {
    // forall a. forall b. a -> (forall c. b -> c)
    let ty = poly(
        "a",
        poly("b", arrow(var("a"), poly("c", arrow(var("b"), var("c"))))),
    );
    let imports = ImportTable::new();
    let mut state = State::new(&imports);
    assert_eq!(
        instantiate_foralls(&mut state, ty.clone(), ForallInst::Constant),
        arrow(cst(0), poly("c", arrow(cst(1), var("c"))))
    );
    assert_eq!(state.names.get(&0), Some(&id("a")));
    assert_eq!(state.names.get(&1), Some(&id("b")));
    assert_eq!(
        instantiate_foralls(&mut state, ty, ForallInst::Ptr),
        arrow(ptr(2), poly("c", arrow(ptr(3), var("c"))))
    );
    assert_eq!(state.constr.len(), 0);
    // A type without quantifiers, and a free variable.
    assert_eq!(instantiate_foralls(&mut state, mk::num(), ForallInst::Ptr), mk::num());
    assert_eq!(instantiate_foralls(&mut state, ptr(3), ForallInst::Ptr), ptr(3));
    assert_eq!(state.table.len(), 4);
}

#[test]
fn instantiated_row_variables_are_constrained() {
    let ty = poly(
        "r",
        arrow(mk::record(mk::record_row(id("x"), mk::num(), var("r"))), mk::num()),
    );
    let imports = ImportTable::new();
    let mut state = State::new(&imports);
    let p = state.fresh();
    state.bind(p, ty);
    assert_eq!(
        instantiate_foralls(&mut state, ptr(p), ForallInst::Ptr),
        arrow(mk::record(mk::record_row(id("x"), mk::num(), ptr(1))), mk::num())
    );
    assert!(state.constr.get(&1).unwrap().contains(&id("x")));
    assert_eq!(get_root(&state.table, 1), ptr(1));
}

#[test]
fn apparent_types() {
    let annotated = |at: ApparentType| matches!(at, ApparentType::Annotated(_));
    let global = Environment::new();
    let envs = Envs::from_global(&global);
    let promise = Term::Promise(Types::Num(), label(), rt(Term::Null));
    assert_eq!(apparent_type(&promise, None), ApparentType::Annotated(Types::Num()));
    assert_eq!(apparent_type(&Term::Num(0), None), ApparentType::Inferred(Types::Num()));
    assert_eq!(apparent_type(&Term::Bool(true), None), ApparentType::Inferred(Types::Bool()));
    assert_eq!(apparent_type(&Term::Sym(1), None), ApparentType::Inferred(Types::Sym()));
    assert_eq!(
        apparent_type(&Term::Str("s".to_string()), None),
        ApparentType::Inferred(Types::Str())
    );
    assert_eq!(
        apparent_type(&Term::StrChunks(vec![]), None),
        ApparentType::Inferred(Types::Str())
    );
    assert_eq!(
        apparent_type(&Term::List(vec![]), None),
        ApparentType::Approximated(Types::List(Box::new(Types::Dyn())))
    );
    assert_eq!(apparent_type(&Term::Null, None), ApparentType::Approximated(Types::Dyn()));
    assert_eq!(
        apparent_type(&Term::Var(id("x")), Some(&envs)),
        ApparentType::Approximated(Types::Dyn())
    );
    let contract = |types| Contract { types, label: label() };
    let meta = |types: Option<Types>, contracts: Vec<Types>, value| {
        Term::MetaValue(MetaValue {
            doc: None,
            types: types.map(contract),
            contracts: contracts.into_iter().map(contract).collect(),
            priority: MergePriority::Default,
            value,
        })
    };
    assert_eq!(
        apparent_type(&meta(Some(Types::Str()), vec![Types::Num()], None), None),
        ApparentType::Annotated(Types::Str())
    );
    assert_eq!(
        apparent_type(&meta(None, vec![Types::Num(), Types::Str()], None), None),
        ApparentType::Annotated(Types::Num())
    );
    assert_eq!(
        apparent_type(&meta(None, vec![], Some(rt(Term::Num(3)))), None),
        ApparentType::Inferred(Types::Num())
    );
    assert_eq!(
        apparent_type(&meta(None, vec![], None), None),
        ApparentType::Approximated(Types::Dyn())
    );
    assert!(annotated(apparent_type(&promise, Some(&envs))));
}

#[test]
fn apparent_types_of_variables_come_from_the_environment() {
    let mut global = Environment::new();
    global.insert(id("x"), mk::list(ptr(2)));
    let mut envs = Envs::from_global(&global);
    let x = Term::Var(id("x"));
    assert_eq!(
        apparent_type(&x, Some(&envs)),
        ApparentType::FromEnv(mk::list(ptr(2)))
    );
    envs.insert(id("x"), mk::num());
    assert_eq!(apparent_type(&x, Some(&envs)), ApparentType::FromEnv(mk::num()));
    assert_eq!(Types::from(ApparentType::FromEnv(mk::num())), Types::Num());
    assert_eq!(Types::from(ApparentType::FromEnv(mk::list(ptr(2)))), Types::Dyn());
    assert_eq!(
        TypeWrapper::from(ApparentType::FromEnv(mk::list(ptr(2)))),
        mk::list(ptr(2))
    );
    assert_eq!(TypeWrapper::from(ApparentType::Inferred(Types::Str())), mk::str());
    assert_eq!(Types::from(ApparentType::Approximated(Types::Dyn())), Types::Dyn());
}

#[test]
fn types_of_bindings() {
    let global = Environment::new();
    let envs = Envs::from_global(&global);
    let mut table = UnifTable::new();
    let f = Term::Fun(id("x"), rt(Term::Var(id("x"))));
    assert_eq!(binding_type(&f, &envs, &mut table, false), mk::dynamic());
    assert_eq!(table.len(), 0);
    assert_eq!(binding_type(&f, &envs, &mut table, true), ptr(0));
    assert_eq!(table.get(&0), Some(&None));
    assert_eq!(binding_type(&Term::Num(0), &envs, &mut table, true), mk::num());
    let list = Term::List(vec![]);
    assert_eq!(binding_type(&list, &envs, &mut table, false), mk::list(mk::dynamic()));
    assert_eq!(binding_type(&list, &envs, &mut table, true), ptr(1));
}

#[test]
fn local_environments_come_first() {
    let mut global = Environment::new();
    global.insert(id("x"), mk::num());
    global.insert(id("y"), mk::str());
    let mut envs = Envs::from_global(&global);
    assert_eq!(envs.get(&id("x")), Some(mk::num()));
    let outer = envs.clone();
    envs.insert(id("x"), mk::bool());
    assert_eq!(envs.get(&id("x")), Some(mk::bool()));
    assert_eq!(envs.get(&id("y")), Some(mk::str()));
    assert_eq!(envs.get(&id("z")), None);
    assert_eq!(outer.get(&id("x")), Some(mk::num()));
}

#[test]
fn records_are_added_to_an_environment() {
    let mut env = Environment::new();
    let fields = vec![
        (id("a"), rt(Term::Num(1))),
        (id("b"), rt(Term::Var(id("a")))),
        (id("c"), rt(Term::Null)),
    ];
    let rec = rt(Term::Record(fields, RecordAttrs { open: false }));
    assert_eq!(Envs::env_add_term(&mut env, &rec), Ok(()));
    assert_eq!(env.get(&id("a")), Some(mk::num()));
    assert_eq!(env.get(&id("b")), Some(mk::num()));
    assert_eq!(env.get(&id("c")), Some(mk::dynamic()));
    let not_a_record = rt(Term::Null);
    assert_eq!(
        Envs::env_add_term(&mut env, &not_a_record),
        Err(EnvBuildError::NotARecord(not_a_record.clone()))
    );
    Envs::env_add(&mut env, id("d"), &rt(Term::Var(id("b"))));
    assert_eq!(env.get(&id("d")), Some(mk::num()));
    env.insert(id("v"), ptr(3));
    Envs::env_add(&mut env, id("e"), &rt(Term::Var(id("v"))));
    assert_eq!(env.get(&id("e")), Some(mk::dynamic()));
}

#[test]
fn global_environments_hold_apparent_types() {
    let mut terms = typechecker::eval::Environment::new();
    terms.insert(id("f"), rt(Term::Promise(Types::Str(), label(), rt(Term::Null))));
    terms.insert(id("g"), rt(Term::Var(id("f"))));
    terms.insert(id("f"), rt(Term::Num(0)));
    let global = Envs::mk_global(&terms);
    assert_eq!(global.get(&id("f")), Some(mk::num()));
    assert_eq!(global.get(&id("g")), Some(mk::dynamic()));
    assert_eq!(global.get(&id("h")), None);
}

#[test]
fn types_of_unary_operators() {
    let imports = ImportTable::new();
    let mut state = State::new(&imports);
    assert_eq!(
        get_uop_type(&mut state, &UnaryOp::Ite()),
        Ok((mk::bool(), arrow(ptr(0), arrow(ptr(0), ptr(0)))))
    );
    assert_eq!(get_uop_type(&mut state, &UnaryOp::IsNum()), Ok((ptr(1), mk::bool())));
    assert_eq!(get_uop_type(&mut state, &UnaryOp::BoolNot()), Ok((mk::bool(), mk::bool())));
    assert_eq!(
        get_uop_type(&mut state, &UnaryOp::StaticAccess(id("x"))),
        Ok((mk::record(mk::record_row(id("x"), ptr(3), ptr(2))), ptr(3)))
    );
    assert_eq!(
        get_uop_type(&mut state, &UnaryOp::Embed(id("x"))),
        Ok((
            mk::enumeration(ptr(4)),
            mk::enumeration(mk::enum_row(id("x"), ptr(4))),
        ))
    );
    assert!(state.constr.get(&4).unwrap().contains(&id("x")));
    assert_eq!(
        get_uop_type(&mut state, &UnaryOp::ListMap()),
        Ok((mk::list(ptr(5)), arrow(arrow(ptr(5), ptr(6)), mk::list(ptr(6)))))
    );
    assert_eq!(
        get_uop_type(&mut state, &UnaryOp::RecordMap()),
        Ok((
            mk::dyn_record(ptr(7)),
            arrow(arrow(mk::str(), arrow(ptr(7), ptr(8))), mk::dyn_record(ptr(8))),
        ))
    );
    assert_eq!(
        get_uop_type(&mut state, &UnaryOp::Sequence()),
        Ok((ptr(9), arrow(ptr(10), ptr(10))))
    );
    assert_eq!(
        get_uop_type(&mut state, &UnaryOp::EnumFromStr()),
        Ok((mk::str(), mk::enumeration(mk::dynamic())))
    );
    assert_eq!(get_uop_type(&mut state, &UnaryOp::ToStr()), Ok((mk::dynamic(), mk::str())));
    assert!(!UnaryOp::Switch(true).is_typed());
    assert!(!UnaryOp::ChunksConcat().is_typed());
    assert!(UnaryOp::Pol().is_typed());
}

#[test]
fn types_of_binary_operators() {
    let imports = ImportTable::new();
    let mut state = State::new(&imports);
    let num3 = Ok((mk::num(), mk::num(), mk::num()));
    assert_eq!(get_bop_type(&mut state, &BinaryOp::Plus()), num3);
    assert_eq!(get_bop_type(&mut state, &BinaryOp::Pow()), num3);
    assert_eq!(
        get_bop_type(&mut state, &BinaryOp::Eq()),
        Ok((ptr(0), ptr(1), mk::bool()))
    );
    assert_eq!(
        get_bop_type(&mut state, &BinaryOp::DynExtend()),
        Ok((
            mk::str(),
            mk::dyn_record(ptr(2)),
            arrow(ptr(2), mk::dyn_record(ptr(2))),
        ))
    );
    assert_eq!(
        get_bop_type(&mut state, &BinaryOp::ListElemAt()),
        Ok((mk::list(ptr(3)), mk::num(), ptr(3)))
    );
    let formats = mk::enumeration(mk::enum_row(
        id("Json"),
        mk::enum_row(id("Yaml"), mk::enum_row(id("Toml"), mk::row_empty())),
    ));
    assert_eq!(
        get_bop_type(&mut state, &BinaryOp::Serialize()),
        Ok((formats, ptr(4), mk::str()))
    );
    let algorithms = mk::enumeration(mk::enum_row(
        id("Md5"),
        mk::enum_row(
            id("Sha1"),
            mk::enum_row(id("Sha256"), mk::enum_row(id("Sha512"), mk::row_empty())),
        ),
    ));
    assert_eq!(
        get_bop_type(&mut state, &BinaryOp::Hash()),
        Ok((algorithms, mk::str(), mk::str()))
    );
    let found = mk::record(mk::record_row(
        id("match"),
        mk::str(),
        mk::record_row(
            id("index"),
            mk::num(),
            mk::record_row(id("groups"), mk::list(mk::str()), mk::row_empty()),
        ),
    ));
    assert_eq!(
        get_bop_type(&mut state, &BinaryOp::StrMatch()),
        Ok((mk::str(), mk::str(), found))
    );
    assert!(!BinaryOp::Assume().is_typed());
    assert_eq!(state.table.len(), 5);
}

#[test]
fn types_of_n_ary_operators() {
    let imports = ImportTable::new();
    let mut state = State::new(&imports);
    assert_eq!(
        get_nop_type(&mut state, &NAryOp::StrReplace()),
        Ok((vec![mk::str(), mk::str(), mk::str()], mk::str()))
    );
    assert_eq!(
        get_nop_type(&mut state, &NAryOp::StrSubstr()),
        Ok((vec![mk::str(), mk::num(), mk::num()], mk::str()))
    );
    assert!(!NAryOp::MergeContract().is_typed());
}

#[test]
fn sets_of_identifiers() {
    let mut set = IdentSet::new();
    assert!(set.is_empty());
    set.insert(id("a"));
    set.insert(id("a"));
    assert_eq!(set.len(), 1);
    let mut other = IdentSet::new();
    other.insert(id("a"));
    other.insert(id("b"));
    set.extend(&other);
    assert_eq!(set.len(), 2);
    assert!(set.contains(&id("b")));
    assert!(!set.contains(&id("c")));
}
