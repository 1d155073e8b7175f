use typechecker::cache::ImportTable;
use typechecker::environment::Environment;
use typechecker::error::TypecheckError;
use typechecker::eval;
use typechecker::identifier::Ident;
use typechecker::label::ty_path::Elem;
use typechecker::label::Label;
use typechecker::position::{RawSpan, TermPos};
use typechecker::term::{
    BinaryOp, Contract, MergePriority, MetaValue, NAryOp, RecordAttrs, RichTerm, StrChunk, Term,
    UnaryOp,
};
use typechecker::typecheck::{
    check_, get_root, to_type, type_check, type_check_in_env, type_check_within, Envs, State,
    TypeWrapper,
};
use typechecker::types::Types;

fn id(name: &str) -> Ident {
    Ident::new(name)
}

fn rt(term: Term) -> RichTerm {
    RichTerm::new(term, TermPos::Generated)
}

fn at(start: u32) -> TermPos {
    TermPos::Original(RawSpan { src_id: 0, start, end: start + 1 })
}

fn label() -> Label {
    Label { tag: String::new(), polarity: true }
}

fn num() -> RichTerm {
    // The bits of 1.0.
    rt(Term::Num(0x3ff0_0000_0000_0000))
}

fn boolean() -> RichTerm {
    rt(Term::Bool(true))
}

fn string() -> RichTerm {
    rt(Term::Str("a".to_string()))
}

fn var(name: &str) -> RichTerm {
    rt(Term::Var(id(name)))
}

fn fun(x: &str, body: RichTerm) -> RichTerm {
    rt(Term::Fun(id(x), body))
}

fn app(e: RichTerm, t: RichTerm) -> RichTerm {
    rt(Term::App(e, t))
}

fn let_in(x: &str, re: RichTerm, body: RichTerm) -> RichTerm {
    rt(Term::Let(id(x), re, body))
}

fn promise(ty: Types, t: RichTerm) -> RichTerm {
    rt(Term::Promise(ty, label(), t))
}

fn plus(t1: RichTerm, t2: RichTerm) -> RichTerm {
    rt(Term::Op2(BinaryOp::Plus(), t1, t2))
}

fn record(fields: Vec<(&str, RichTerm)>) -> RichTerm {
    let fields = fields.into_iter().map(|(x, t)| (id(x), t)).collect();
    rt(Term::Record(fields, RecordAttrs { open: false }))
}

fn rec_record(fields: Vec<(&str, RichTerm)>) -> RichTerm {
    let fields = fields.into_iter().map(|(x, t)| (id(x), t)).collect();
    rt(Term::RecRecord(fields, RecordAttrs { open: false }))
}

fn switch(exp: RichTerm, cases: Vec<(&str, RichTerm)>, default: Option<RichTerm>) -> RichTerm {
    let cases = cases.into_iter().map(|(x, t)| (id(x), t)).collect();
    rt(Term::Switch(exp, cases, default))
}

fn access(t: RichTerm, field: &str) -> RichTerm {
    rt(Term::Op1(UnaryOp::StaticAccess(id(field)), t))
}

fn meta(types: Option<Types>, contracts: Vec<Types>, value: Option<RichTerm>) -> RichTerm {
    rt(Term::MetaValue(MetaValue {
        doc: None,
        types: types.map(|types| Contract { types, label: label() }),
        contracts: contracts
            .into_iter()
            .map(|types| Contract { types, label: label() })
            .collect(),
        priority: MergePriority::Normal,
        value,
    }))
}

fn arrow(s: Types, t: Types) -> Types {
    Types::Arrow(Box::new(s), Box::new(t))
}

fn list(t: Types) -> Types {
    Types::List(Box::new(t))
}

fn dict(t: Types) -> Types {
    Types::DynRecord(Box::new(t))
}

fn tvar(name: &str) -> Types {
    Types::Var(id(name))
}

fn poly(name: &str, t: Types) -> Types {
    Types::Forall(id(name), Box::new(t))
}

fn field(name: &str, t: Types, tail: Types) -> Types {
    Types::RowExtend(id(name), Some(Box::new(t)), Box::new(tail))
}

fn tag(name: &str, tail: Types) -> Types {
    Types::RowExtend(id(name), None, Box::new(tail))
}

fn static_record(row: Types) -> Types {
    Types::StaticRecord(Box::new(row))
}

fn enumeration(row: Types) -> Types {
    Types::Enum(Box::new(row))
}

fn check(t: &RichTerm) -> Result<Types, TypecheckError> {
    type_check(t, &eval::Environment::new(), &ImportTable::new())
}

/// Whether a term has a type in strict mode.
fn has_type(t: RichTerm, ty: Types) -> bool {
    check(&promise(ty, t)).is_ok()
}

#[test]
fn unannotated_bindings_are_not_generalized() {
    // let id = fun x => x in seq (id "a") (id 5) : Num
    let seq = app(
        rt(Term::Op1(UnaryOp::Sequence(), app(var("id"), string()))),
        app(var("id"), num()),
    );
    let body = let_in("id", fun("x", var("x")), seq);
    assert_eq!(
        check(&promise(Types::Num(), body)),
        Err(TypecheckError::ArrowTypeMismatch(
            arrow(Types::Str(), Types::Str()),
            arrow(Types::Str(), Types::Num()),
            vec![Elem::Codomain],
            Box::new(TypecheckError::TypeMismatch(
                Types::Str(),
                Types::Num(),
                TermPos::Generated,
            )),
            TermPos::Generated,
        ))
    );
}

#[test]
fn annotated_bindings_are_polymorphic() {
    // let id : forall a. a -> a = fun x => x in seq (id "a") (id 5) : Num
    let seq = app(
        rt(Term::Op1(UnaryOp::Sequence(), app(var("id"), string()))),
        app(var("id"), num()),
    );
    let id_ty = poly("a", arrow(tvar("a"), tvar("a")));
    let body = let_in("id", promise(id_ty, fun("x", var("x"))), seq);
    assert!(check(&promise(Types::Num(), body)).is_ok());
}

#[test]
fn constants_have_their_types() {
    assert!(has_type(num(), Types::Num()));
    assert!(has_type(boolean(), Types::Bool()));
    assert!(has_type(string(), Types::Str()));
    assert!(has_type(rt(Term::Sym(4)), Types::Sym()));
    assert!(has_type(rt(Term::Null), Types::Dyn()));
    assert!(has_type(rt(Term::Lbl(label())), Types::Dyn()));
    assert!(has_type(rt(Term::Import("file".to_string())), Types::Dyn()));
    assert!(!has_type(num(), Types::Str()));
    assert!(!has_type(rt(Term::Null), Types::Num()));
}

#[test]
fn everything_is_dynamic_without_annotations() {
    // 1 + "a", applied to true
    let t = app(plus(num(), string()), boolean());
    assert_eq!(check(&t), Ok(Types::Dyn()));
    assert_eq!(check(&num()), Ok(Types::Dyn()));
    assert_eq!(check(&access(num(), "x")), Ok(Types::Dyn()));
}

#[test]
fn annotations_inside_unannotated_terms_are_checked() {
    let bad = promise(Types::Num(), string());
    let err = TypecheckError::TypeMismatch(Types::Str(), Types::Num(), TermPos::Generated);
    assert_eq!(check(&fun("x", bad.clone())), Err(err));
    assert!(check(&rt(Term::List(vec![num(), bad.clone()]))).is_err());
    assert!(check(&record(vec![("a", bad.clone())])).is_err());
    assert!(check(&rec_record(vec![("a", bad.clone())])).is_err());
    assert!(check(&let_in("x", bad.clone(), num())).is_err());
    assert!(check(&let_in("x", num(), bad.clone())).is_err());
    assert!(check(&app(bad.clone(), num())).is_err());
    assert!(check(&app(num(), bad.clone())).is_err());
    assert!(check(&plus(num(), bad.clone())).is_err());
    assert!(check(&switch(num(), vec![("a", bad.clone())], None)).is_err());
    assert!(check(&switch(num(), vec![], Some(bad.clone()))).is_err());
    assert!(check(&switch(bad.clone(), vec![], None)).is_err());
    assert!(check(&rt(Term::Wrapped(1, bad.clone()))).is_err());
    assert!(check(&rt(Term::StrChunks(vec![StrChunk::Expr(bad.clone(), 0)]))).is_err());
    assert!(check(&rt(Term::OpN(NAryOp::StrReplace(), vec![bad.clone()]))).is_err());
    assert!(check(&meta(None, vec![], Some(bad))).is_err());
}

#[test]
fn the_mode_is_strict_under_a_type_and_not_under_a_contract() {
    let mixed = plus(num(), string());
    assert!(check(&meta(Some(Types::Num()), vec![], Some(mixed.clone()))).is_err());
    assert!(check(&meta(None, vec![Types::Num()], Some(mixed.clone()))).is_ok());
    // A contract inside a promise.
    let assumed = meta(None, vec![Types::Num(), Types::Str()], Some(string()));
    assert!(has_type(plus(num(), assumed.clone()), Types::Num()));
    assert!(!has_type(assumed, Types::Str()));
    // A metavalue without annotations is like its value.
    assert!(has_type(meta(None, vec![], Some(num())), Types::Num()));
    // A metavalue without value is dynamic, or has the type of its contract.
    assert!(has_type(meta(None, vec![], None), Types::Dyn()));
    assert!(!has_type(meta(None, vec![], None), Types::Num()));
    assert!(has_type(meta(None, vec![Types::Num()], None), Types::Num()));
    assert!(has_type(meta(Some(Types::Str()), vec![], None), Types::Dyn()));
}

#[test]
fn functions_and_applications() {
    let inc = fun("x", plus(var("x"), num()));
    assert!(has_type(inc.clone(), arrow(Types::Num(), Types::Num())));
    assert!(!has_type(inc.clone(), arrow(Types::Str(), Types::Num())));
    assert!(!has_type(inc.clone(), arrow(Types::Num(), Types::Str())));
    assert!(has_type(app(inc.clone(), num()), Types::Num()));
    assert!(!has_type(app(inc, string()), Types::Num()));
    let twice = fun("f", fun("x", app(var("f"), app(var("f"), var("x")))));
    assert!(has_type(
        twice,
        poly(
            "a",
            arrow(arrow(tvar("a"), tvar("a")), arrow(tvar("a"), tvar("a"))),
        ),
    ));
}

#[test]
fn polymorphic_annotations_are_rigid() {
    let ty = poly("a", arrow(tvar("a"), tvar("a")));
    assert!(has_type(fun("x", var("x")), ty.clone()));
    assert_eq!(
        check(&promise(ty, fun("x", num()))),
        Err(TypecheckError::TypeMismatch(tvar("a"), Types::Num(), TermPos::Generated))
    );
    let swap = poly("a", poly("b", arrow(tvar("a"), tvar("b"))));
    assert_eq!(
        check(&promise(swap, fun("x", var("x")))),
        Err(TypecheckError::TypeMismatch(tvar("a"), tvar("b"), TermPos::Generated))
    );
}

#[test]
fn unbound_identifiers() {
    let t = RichTerm::new(Term::Var(id("x")), at(3));
    assert_eq!(check(&t), Err(TypecheckError::UnboundIdentifier(id("x"), at(3))));
    assert!(check(&fun("x", t.clone())).is_ok());
    assert!(check(&let_in("x", num(), t.clone())).is_ok());
    assert!(check(&let_in("x", t.clone(), num())).is_err());
    assert!(check(&fun("y", t)).is_err());
}

#[test]
fn errors_carry_the_position_of_the_term() {
    let bad = RichTerm::new(Term::Str("a".to_string()), at(9));
    assert_eq!(
        check(&promise(Types::Num(), bad)),
        Err(TypecheckError::TypeMismatch(Types::Str(), Types::Num(), at(9)))
    );
}

#[test]
fn arrow_errors_are_reported_with_a_path() {
    let t = let_in(
        "f",
        promise(
            arrow(Types::Num(), arrow(Types::Num(), Types::Num())),
            fun("x", fun("y", var("x"))),
        ),
        var("f"),
    );
    let ty = arrow(Types::Num(), arrow(Types::Bool(), Types::Num()));
    assert_eq!(
        check(&promise(ty.clone(), t)),
        Err(TypecheckError::ArrowTypeMismatch(
            arrow(Types::Num(), arrow(Types::Num(), Types::Num())),
            ty,
            vec![Elem::Codomain, Elem::Domain],
            Box::new(TypecheckError::TypeMismatch(
                Types::Bool(),
                Types::Num(),
                TermPos::Generated,
            )),
            TermPos::Generated,
        ))
    );
}

#[test]
fn lists() {
    let ok = rt(Term::List(vec![num(), num()]));
    assert!(has_type(ok.clone(), list(Types::Num())));
    assert!(!has_type(ok, list(Types::Str())));
    let mixed = rt(Term::List(vec![num(), string()]));
    assert!(!has_type(mixed.clone(), list(Types::Num())));
    assert!(has_type(mixed, list(Types::Dyn())));
    assert!(has_type(rt(Term::List(vec![])), list(Types::Num())));
}

#[test]
fn interpolated_strings() {
    let chunks = |t| {
        rt(Term::StrChunks(vec![
            StrChunk::Literal("a".to_string()),
            StrChunk::Expr(t, 0),
            StrChunk::Literal("b".to_string()),
        ]))
    };
    assert!(has_type(chunks(string()), Types::Str()));
    assert!(!has_type(chunks(num()), Types::Str()));
    assert!(!has_type(chunks(string()), Types::Num()));
    assert!(check(&chunks(num())).is_ok());
}

#[test]
fn records_have_row_types() {
    let t = record(vec![("a", num()), ("b", string())]);
    let row = field("b", Types::Str(), field("a", Types::Num(), Types::RowEmpty()));
    assert!(has_type(t.clone(), static_record(row)));
    assert!(has_type(access(t.clone(), "a"), Types::Num()));
    assert!(has_type(access(t.clone(), "b"), Types::Str()));
    assert!(!has_type(access(t.clone(), "b"), Types::Num()));
    assert!(!has_type(access(t.clone(), "c"), Types::Num()));
    assert!(has_type(t, Types::Dyn()));
}

#[test]
fn records_can_be_dictionaries() {
    assert!(has_type(record(vec![("a", num()), ("b", num())]), dict(Types::Num())));
    assert!(!has_type(record(vec![("a", num()), ("b", string())]), dict(Types::Num())));
    assert!(has_type(record(vec![("a", num()), ("b", string())]), dict(Types::Dyn())));
    assert!(has_type(rec_record(vec![("a", num()), ("b", var("a"))]), dict(Types::Num())));
}

#[test]
fn recursive_records_see_their_fields() {
    let t = rec_record(vec![("a", plus(num(), num())), ("b", plus(var("a"), num()))]);
    assert!(has_type(access(t, "b"), Types::Num()));
    assert!(check(&rec_record(vec![("b", var("a")), ("a", num())])).is_ok());
    assert_eq!(
        check(&record(vec![("a", num()), ("b", var("a"))])),
        Err(TypecheckError::UnboundIdentifier(id("a"), TermPos::Generated))
    );
    let bad = rec_record(vec![("a", string()), ("b", plus(var("a"), num()))]);
    assert!(!has_type(access(bad, "b"), Types::Num()));
}

#[test]
fn row_errors_are_reported() {
    let empty = || static_record(Types::RowEmpty());
    let a_num = || static_record(field("a", Types::Num(), Types::RowEmpty()));
    let pos = TermPos::Generated;
    assert_eq!(
        check(&promise(empty(), record(vec![("a", num())]))),
        Err(TypecheckError::MissingRow(
            id("a"),
            static_record(field("a", Types::Num(), Types::RowEmpty())),
            empty(),
            pos,
        ))
    );
    assert_eq!(
        check(&promise(a_num(), record(vec![]))),
        Err(TypecheckError::ExtraRow(id("a"), empty(), a_num(), pos))
    );
    assert_eq!(
        check(&promise(static_record(Types::Dyn()), record(vec![]))),
        Err(TypecheckError::ExtraDynTail(empty(), static_record(Types::Dyn()), pos))
    );
    assert_eq!(
        check(&promise(
            empty(),
            meta(None, vec![static_record(Types::Dyn())], None),
        )),
        Err(TypecheckError::MissingDynTail(static_record(Types::Dyn()), empty(), pos))
    );
    assert_eq!(
        check(&promise(a_num(), record(vec![("a", string())]))),
        Err(TypecheckError::RowMismatch(
            id("a"),
            static_record(field("a", Types::Str(), Types::RowEmpty())),
            a_num(),
            Box::new(TypecheckError::TypeMismatch(Types::Str(), Types::Num(), pos)),
            pos,
        ))
    );
    assert_eq!(
        check(&promise(
            static_record(tag("a", Types::RowEmpty())),
            record(vec![("a", num())]),
        )),
        Err(TypecheckError::RowKindMismatch(id("a"), Some(Types::Num()), None, pos))
    );
}

#[test]
fn row_conflicts_are_reported() {
    // fun f => f {x = 1, x = ..}: the tail of the row must not have `x` again.
    let f_ty = poly(
        "r",
        arrow(
            static_record(field("x", Types::Num(), tvar("r"))),
            static_record(tvar("r")),
        ),
    );
    let t = let_in("f", meta(None, vec![f_ty], None), app(var("f"), var("rec")));
    let rec_ty = static_record(field(
        "x",
        Types::Num(),
        field("x", Types::Str(), Types::RowEmpty()),
    ));
    let whole = let_in("rec", meta(None, vec![rec_ty], None), t);
    match check(&promise(Types::Dyn(), whole)) {
        Err(TypecheckError::RowConflict(x, ty, _, _, _)) => {
            assert_eq!(x, id("x"));
            assert_eq!(ty, Some(Types::Str()));
        }
        other => panic!("unexpected outcome: {:?}", other),
    }
}

#[test]
fn ill_formed_annotations_are_reported() {
    assert_eq!(
        check(&promise(static_record(Types::Num()), record(vec![]))),
        Err(TypecheckError::IllformedType(static_record(Types::Num())))
    );
    let flat = Types::Flat(num());
    assert_eq!(
        check(&promise(flat.clone(), meta(None, vec![flat.clone()], None))),
        Err(TypecheckError::IllformedType(flat))
    );
    assert_eq!(
        check(&promise(tvar("a"), num())),
        Err(TypecheckError::UnboundTypeVariable(id("a"), TermPos::Generated))
    );
}

#[test]
fn enums_and_switches() {
    let tick = || rt(Term::Enum(id("tick")));
    let ty = || enumeration(tag("tick", tag("tock", Types::RowEmpty())));
    assert!(has_type(tick(), ty()));
    assert!(!has_type(rt(Term::Enum(id("other"))), ty()));
    let sw = switch(tick(), vec![("tick", num()), ("tock", num())], None);
    assert!(has_type(sw, Types::Num()));
    let missing = switch(tick(), vec![("tock", num())], None);
    assert!(!has_type(missing, Types::Num()));
    let default = switch(tick(), vec![("tock", num())], Some(num()));
    assert!(has_type(default, Types::Num()));
    let mixed = switch(tick(), vec![("tick", num()), ("tock", string())], None);
    assert!(!has_type(mixed, Types::Num()));
    let bad_default = switch(tick(), vec![("tick", num())], Some(string()));
    assert!(!has_type(bad_default, Types::Num()));
}

#[test]
fn embedding_an_enum() {
    let e = rt(Term::Op1(
        UnaryOp::Embed(id("more")),
        meta(None, vec![enumeration(tag("tick", Types::RowEmpty()))], None),
    ));
    let ty = enumeration(tag("more", tag("tick", Types::RowEmpty())));
    assert!(has_type(e, ty));
    // The row that is embedded must not have the identifier already.
    let twice = rt(Term::Op1(
        UnaryOp::Embed(id("tick")),
        meta(None, vec![enumeration(tag("tick", Types::RowEmpty()))], None),
    ));
    assert!(!has_type(twice, Types::Dyn()));
}

#[test]
fn operators() {
    let ite = app(
        app(rt(Term::Op1(UnaryOp::Ite(), boolean())), num()),
        num(),
    );
    assert!(has_type(ite, Types::Num()));
    let bad = app(
        app(rt(Term::Op1(UnaryOp::Ite(), boolean())), num()),
        string(),
    );
    assert!(!has_type(bad, Types::Num()));
    let eq = rt(Term::Op2(BinaryOp::Eq(), num(), string()));
    assert!(has_type(eq, Types::Bool()));
    let replace = |t| rt(Term::OpN(NAryOp::StrReplace(), vec![string(), string(), t]));
    assert!(has_type(replace(string()), Types::Str()));
    assert!(!has_type(replace(num()), Types::Str()));
    let map = app(
        rt(Term::Op1(UnaryOp::ListMap(), rt(Term::List(vec![num()])))),
        fun("x", rt(Term::Op2(BinaryOp::LessThan(), var("x"), num()))),
    );
    assert!(has_type(map, list(Types::Bool())));
}

#[test]
fn let_bindings_have_their_apparent_types() {
    // A constant has its type even in non-strict mode.
    let t = let_in("x", num(), promise(Types::Num(), plus(var("x"), num())));
    assert!(check(&t).is_ok());
    // Anything else is dynamic there.
    let t = let_in(
        "x",
        plus(num(), num()),
        promise(Types::Num(), plus(var("x"), num())),
    );
    assert_eq!(
        check(&t),
        Err(TypecheckError::TypeMismatch(Types::Dyn(), Types::Num(), TermPos::Generated))
    );
    // In strict mode the type is inferred.
    let t = let_in("x", plus(num(), num()), plus(var("x"), num()));
    assert!(has_type(t, Types::Num()));
}

#[test]
fn local_bindings_hide_global_ones() {
    let mut env = eval::Environment::new();
    env.insert(id("x"), promise(Types::Str(), string()));
    let imports = ImportTable::new();
    let use_x = promise(Types::Num(), var("x"));
    assert!(type_check(&use_x, &env, &imports).is_err());
    assert!(type_check(&promise(Types::Str(), var("x")), &env, &imports).is_ok());
    assert!(type_check(&let_in("x", num(), use_x), &env, &imports).is_ok());
}

#[test]
fn imports_are_typechecked_in_the_global_environment() {
    let mut imports = ImportTable::new();
    imports.insert(1, promise(Types::Num(), num()));
    imports.insert(2, promise(Types::Num(), string()));
    imports.insert(3, var("x"));
    let env = eval::Environment::new();
    let import = |file| rt(Term::ResolvedImport(file));
    assert!(type_check(&import(1), &env, &imports).is_ok());
    assert_eq!(
        type_check(&import(2), &env, &imports),
        Err(TypecheckError::TypeMismatch(Types::Str(), Types::Num(), TermPos::Generated))
    );
    // The local environment does not reach the import.
    assert_eq!(
        type_check(&let_in("x", num(), import(3)), &env, &imports),
        Err(TypecheckError::UnboundIdentifier(id("x"), TermPos::Generated))
    );
    let mut env = eval::Environment::new();
    env.insert(id("x"), num());
    assert!(type_check(&import(3), &env, &imports).is_ok());
    // An import that is not resolved is no result.
    assert_eq!(type_check_within(100, &import(4), &env, &imports), None);
}

#[test]
fn an_import_of_itself_has_no_end() {
    let mut imports = ImportTable::new();
    imports.insert(1, rt(Term::ResolvedImport(1)));
    let env = eval::Environment::new();
    assert_eq!(
        type_check_within(400, &rt(Term::ResolvedImport(1)), &env, &imports),
        None
    );
}

#[test]
fn the_bound_does_not_change_the_outcome() {
    let t = promise(Types::Num(), plus(num(), string()));
    let env = eval::Environment::new();
    let imports = ImportTable::new();
    let expected = type_check(&t, &env, &imports);
    assert!(expected.is_err());
    assert_eq!(type_check_within(1, &t, &env, &imports), None);
    assert_eq!(type_check_within(50, &t, &env, &imports), Some(expected));
}

#[test]
fn evaluation_operators_have_no_type() {
    let env = eval::Environment::new();
    let imports = ImportTable::new();
    let t = rt(Term::Op1(UnaryOp::ChunksConcat(), num()));
    assert_eq!(type_check_within(100, &t, &env, &imports), None);
    let t = rt(Term::Op2(BinaryOp::Assume(), num(), num()));
    assert_eq!(type_check_within(100, &t, &env, &imports), None);
    let t = rt(Term::OpN(NAryOp::MergeContract(), vec![]));
    assert_eq!(type_check_within(100, &t, &env, &imports), None);
}

#[test]
fn checking_against_a_variable_infers_a_type() {
    let imports = ImportTable::new();
    let mut state = State::new(&imports);
    let global = Environment::new();
    let p = state.fresh();
    let t = fun("x", plus(var("x"), num()));
    let res = check_(&mut state, Envs::from_global(&global), true, &t, TypeWrapper::Ptr(p));
    assert_eq!(res, Ok(()));
    assert_eq!(
        to_type(&state.table, TypeWrapper::Ptr(p)),
        arrow(Types::Num(), Types::Num())
    );
    // Free variables are extracted as `Dyn`.
    let q = state.fresh();
    let t = fun("x", var("x"));
    let res = check_(&mut state, Envs::from_global(&global), true, &t, TypeWrapper::Ptr(q));
    assert_eq!(res, Ok(()));
    assert_eq!(
        to_type(&state.table, TypeWrapper::Ptr(q)),
        arrow(Types::Dyn(), Types::Dyn())
    );
}

#[test]
fn non_strict_checking_leaves_variables_alone() {
    let imports = ImportTable::new();
    let mut state = State::new(&imports);
    let global = Environment::new();
    let p = state.fresh();
    let t = app(fun("x", plus(var("x"), string())), num());
    let res = check_(&mut state, Envs::from_global(&global), false, &t, TypeWrapper::Ptr(p));
    assert_eq!(res, Ok(()));
    assert!(state.table.len() > 1);
    for x in 0..state.table.len() {
        assert_eq!(get_root(&state.table, x), TypeWrapper::Ptr(x));
    }
}

#[test]
fn typechecking_in_a_given_environment() {
    let mut global = Environment::new();
    global.insert(id("one"), TypeWrapper::Concrete(typechecker::types::AbsType::Num()));
    let imports = ImportTable::new();
    assert!(type_check_in_env(&promise(Types::Num(), var("one")), &global, &imports).is_ok());
    assert!(type_check_in_env(&promise(Types::Str(), var("one")), &global, &imports).is_err());
    assert_eq!(type_check_in_env(&var("one"), &global, &imports), Ok(Types::Dyn()));
}

#[test]
fn the_inferred_type_is_dyn() {
    let id_fun = rt(Term::Fun(id("x"), var("x")));
    let annotated = promise(arrow(Types::Num(), Types::Num()), id_fun);
    assert_eq!(check(&annotated), Ok(Types::Dyn()));
    let bound = let_in("f", annotated, var("f"));
    assert_eq!(check(&bound), Ok(Types::Dyn()));
    let wrapped = rt(Term::Wrapped(1, promise(Types::Num(), num())));
    assert_eq!(check(&wrapped), Ok(Types::Dyn()));
}
