//! The types of the primitive operators.
use vstd::prelude::*;

use crate::cache::ImportResolver;
use crate::error::TypecheckError;
use crate::identifier::Ident;
use crate::model::{arrow, dict_of, enum_of, list_of, record_of, row_extend, St, Ty};
use crate::term::{BinaryOp, NAryOp, UnaryOp};
use crate::typecheck::mk_typewrapper;
use crate::typecheck::state::{forbid, next_var, with_var, State};
use crate::typecheck::wrapper::TypeWrapper;
use crate::types::AbsType;

verus! {

/// Whether a unary operator has a type. Those that only evaluation produces have none.
pub open spec fn is_typed_uop(op: UnaryOp) -> bool {
    !(op is Switch) && !(op is ChunksConcat)
}

/// Whether a binary operator has a type. Those that only evaluation produces have none.
pub open spec fn is_typed_bop(op: BinaryOp) -> bool {
    !(op is Assume)
}

/// Whether an n-ary operator has a type. Those that only evaluation produces have none.
pub open spec fn is_typed_nop(op: NAryOp) -> bool {
    !(op is MergeContract)
}

impl UnaryOp {
    /// Whether the operator has a type.
    pub fn is_typed(&self) -> (res: bool)
        ensures
            res == is_typed_uop(*self),
    {
        match self {
            UnaryOp::Switch(_) | UnaryOp::ChunksConcat() => false,
            _ => true,
        }
    }
}

impl BinaryOp {
    /// Whether the operator has a type.
    pub fn is_typed(&self) -> (res: bool)
        ensures
            res == is_typed_bop(*self),
    {
        match self {
            BinaryOp::Assume() => false,
            _ => true,
        }
    }
}

impl NAryOp {
    /// Whether the operator has a type.
    pub fn is_typed(&self) -> (res: bool)
        ensures
            res == is_typed_nop(*self),
    {
        match self {
            NAryOp::MergeContract() => false,
            _ => true,
        }
    }
}

/// The type of a unary operator: the types of its argument and of its result, at the types `a` and
/// `b` for its type variables.
pub open spec fn uop_sig(op: UnaryOp, a: Ty, b: Ty) -> (Ty, Ty) {
    match op {
        UnaryOp::Ite() => (Ty::Bool, arrow(a, arrow(a, a))),
        UnaryOp::IsNum() => (a, Ty::Bool),
        UnaryOp::IsBool() => (a, Ty::Bool),
        UnaryOp::IsStr() => (a, Ty::Bool),
        UnaryOp::IsFun() => (a, Ty::Bool),
        UnaryOp::IsList() => (a, Ty::Bool),
        UnaryOp::IsRecord() => (a, Ty::Bool),
        UnaryOp::BoolAnd() => (Ty::Bool, arrow(Ty::Bool, Ty::Bool)),
        UnaryOp::BoolOr() => (Ty::Bool, arrow(Ty::Bool, Ty::Bool)),
        UnaryOp::BoolNot() => (Ty::Bool, Ty::Bool),
        UnaryOp::Blame() => (Ty::Dyn, a),
        UnaryOp::Pol() => (Ty::Dyn, Ty::Bool),
        UnaryOp::Embed(id) => (enum_of(a), enum_of(row_extend(id@, None, a))),
        UnaryOp::ChangePolarity() => (Ty::Dyn, Ty::Dyn),
        UnaryOp::GoDom() => (Ty::Dyn, Ty::Dyn),
        UnaryOp::GoCodom() => (Ty::Dyn, Ty::Dyn),
        UnaryOp::GoList() => (Ty::Dyn, Ty::Dyn),
        UnaryOp::Wrap() => (Ty::Sym, arrow(Ty::Dyn, Ty::Dyn)),
        UnaryOp::StaticAccess(id) => (record_of(row_extend(id@, Some(b), a)), b),
        UnaryOp::ListMap() => (list_of(a), arrow(arrow(a, b), list_of(b))),
        UnaryOp::ListGen() => (Ty::Num, arrow(arrow(Ty::Num, a), list_of(a))),
        UnaryOp::RecordMap() => (
            dict_of(a),
            arrow(arrow(Ty::Str, arrow(a, b)), dict_of(b)),
        ),
        UnaryOp::Sequence() => (a, arrow(b, b)),
        UnaryOp::DeepSeq() => (a, arrow(b, b)),
        UnaryOp::ListHead() => (list_of(a), a),
        UnaryOp::ListTail() => (list_of(a), list_of(a)),
        UnaryOp::ListLength() => (list_of(a), Ty::Num),
        UnaryOp::FieldsOf() => (Ty::Dyn, list_of(Ty::Str)),
        UnaryOp::ValuesOf() => (Ty::Dyn, list_of(Ty::Dyn)),
        UnaryOp::StrTrim() => (Ty::Str, Ty::Str),
        UnaryOp::StrChars() => (Ty::Str, list_of(Ty::Str)),
        UnaryOp::CharCode() => (Ty::Str, Ty::Num),
        UnaryOp::CharFromCode() => (Ty::Num, Ty::Str),
        UnaryOp::StrUppercase() => (Ty::Str, Ty::Str),
        UnaryOp::StrLowercase() => (Ty::Str, Ty::Str),
        UnaryOp::StrLength() => (Ty::Str, Ty::Num),
        UnaryOp::ToStr() => (Ty::Dyn, Ty::Str),
        UnaryOp::NumFromStr() => (Ty::Str, Ty::Num),
        UnaryOp::EnumFromStr() => (Ty::Str, enum_of(Ty::Dyn)),
        UnaryOp::Switch(_) => arbitrary(),
        UnaryOp::ChunksConcat() => arbitrary(),
    }
}

/// The number of type variables of a unary operator.
pub open spec fn uop_vars(op: UnaryOp) -> nat {
    match op {
        UnaryOp::Ite() => 1,
        UnaryOp::IsNum() => 1,
        UnaryOp::IsBool() => 1,
        UnaryOp::IsStr() => 1,
        UnaryOp::IsFun() => 1,
        UnaryOp::IsList() => 1,
        UnaryOp::IsRecord() => 1,
        UnaryOp::Blame() => 1,
        UnaryOp::Embed(_) => 1,
        UnaryOp::ListGen() => 1,
        UnaryOp::ListHead() => 1,
        UnaryOp::ListTail() => 1,
        UnaryOp::ListLength() => 1,
        UnaryOp::StaticAccess(_) => 2,
        UnaryOp::ListMap() => 2,
        UnaryOp::RecordMap() => 2,
        UnaryOp::Sequence() => 2,
        UnaryOp::DeepSeq() => 2,
        _ => 0,
    }
}

/// The type of a unary operator at new variables, and the state that has these variables.
pub open spec fn uop_type(st: St, op: UnaryOp) -> (St, Ty, Ty) {
    let a = next_var(st.table);
    let st1 = with_var(st);
    let b = next_var(st1.table);
    let (arg, res) = uop_sig(op, Ty::Ptr(a), Ty::Ptr(b));
    let st2 = if uop_vars(op) == 0 {
        st
    } else if uop_vars(op) == 1 {
        st1
    } else {
        with_var(st1)
    };
    match op {
        // The row of the argument must not have the identifier already.
        UnaryOp::Embed(id) => (St { constr: forbid(st2.constr, a, id@), ..st2 }, arg, res),
        _ => (st2, arg, res),
    }
}

/// The model of the type of a unary operator.
pub open spec fn uop_outcome(res: Result<(TypeWrapper, TypeWrapper), TypecheckError>, st: St) -> (
    St,
    Ty,
    Ty,
)
    recommends
        res is Ok,
{
    let (arg, ret) = res->Ok_0;
    (st, arg@, ret@)
}

/// Type of unary operations.
pub fn get_uop_type<R: ImportResolver>(state: &mut State<R>, op: &UnaryOp) -> (res: Result<
    (TypeWrapper, TypeWrapper),
    TypecheckError,
>)
    requires
        is_typed_uop(*op),
    ensures
        res is Ok,
        uop_outcome(res, final(state)@) == uop_type(old(state)@, *op),
{
    Ok(
        match op {
            // forall a. bool -> a -> a -> a
            UnaryOp::Ite() => {
                let branches = TypeWrapper::Ptr(state.fresh());
                (
                    mk_typewrapper::bool(),
                    mk_typewrapper::arrow_of(
                        branches.clone(),
                        mk_typewrapper::arrow_of(branches.clone(), branches),
                    ),
                )
            },
            // forall a. a -> Bool
            UnaryOp::IsNum()
            | UnaryOp::IsBool()
            | UnaryOp::IsStr()
            | UnaryOp::IsFun()
            | UnaryOp::IsList()
            | UnaryOp::IsRecord() => {
                let inp = TypeWrapper::Ptr(state.fresh());
                (inp, mk_typewrapper::bool())
            },
            // Bool -> Bool -> Bool
            UnaryOp::BoolAnd() | UnaryOp::BoolOr() => (
                mk_typewrapper::bool(),
                mk_typewrapper::arrow_of(AbsType::Bool(), AbsType::Bool()),
            ),
            // Bool -> Bool
            UnaryOp::BoolNot() => (mk_typewrapper::bool(), mk_typewrapper::bool()),
            // forall a. Dyn -> a
            UnaryOp::Blame() => {
                let res = TypeWrapper::Ptr(state.fresh());
                (mk_typewrapper::dynamic(), res)
            },
            // Dyn -> Bool
            UnaryOp::Pol() => (mk_typewrapper::dynamic(), mk_typewrapper::bool()),
            // forall rows. < | rows> -> <id | rows>
            UnaryOp::Embed(id) => {
                let p: usize = state.fresh();
                let row = TypeWrapper::Ptr(p);
                // The variable is free: it is constrained itself.
                state.forbid(p, id.clone());
                (
                    mk_typewrapper::enumeration(row.clone()),
                    mk_typewrapper::enumeration(mk_typewrapper::enum_row(id.clone(), row)),
                )
            },
            // Dyn -> Dyn
            UnaryOp::ChangePolarity()
            | UnaryOp::GoDom()
            | UnaryOp::GoCodom()
            | UnaryOp::GoList() => { (mk_typewrapper::dynamic(), mk_typewrapper::dynamic()) },
            // Sym -> Dyn -> Dyn
            UnaryOp::Wrap() => (
                mk_typewrapper::sym(),
                mk_typewrapper::arrow_of(AbsType::Dyn(), AbsType::Dyn()),
            ),
            // forall rows a. { id: a | rows} -> a
            UnaryOp::StaticAccess(id) => {
                let row = TypeWrapper::Ptr(state.fresh());
                let res = TypeWrapper::Ptr(state.fresh());
                (
                    mk_typewrapper::record(
                        mk_typewrapper::record_row(id.clone(), res.clone(), row),
                    ),
                    res,
                )
            },
            // forall a b. List a -> (a -> b) -> List b
            UnaryOp::ListMap() => {
                let a = TypeWrapper::Ptr(state.fresh());
                let b = TypeWrapper::Ptr(state.fresh());
                let f_type = mk_typewrapper::arrow_of(a.clone(), b.clone());
                (
                    mk_typewrapper::list(a),
                    mk_typewrapper::arrow_of(f_type, mk_typewrapper::list(b)),
                )
            },
            // forall a. Num -> (Num -> a) -> List a
            UnaryOp::ListGen() => {
                let a = TypeWrapper::Ptr(state.fresh());
                let f_type = mk_typewrapper::arrow_of(AbsType::Num(), a.clone());
                (
                    mk_typewrapper::num(),
                    mk_typewrapper::arrow_of(f_type, mk_typewrapper::list(a)),
                )
            },
            // forall a b. { _ : a} -> (Str -> a -> b) -> { _ : b }
            UnaryOp::RecordMap() => {
                // Assuming f has type Str -> a -> b,
                // this has type DynRecord(a) -> DynRecord(b)
                let a = TypeWrapper::Ptr(state.fresh());
                let b = TypeWrapper::Ptr(state.fresh());
                let f_type = mk_typewrapper::arrow_of(
                    AbsType::Str(),
                    mk_typewrapper::arrow_of(a.clone(), b.clone()),
                );
                (
                    mk_typewrapper::dyn_record(a),
                    mk_typewrapper::arrow_of(f_type, mk_typewrapper::dyn_record(b)),
                )
            },
            // forall a b. a -> b -> b
            UnaryOp::Sequence() | UnaryOp::DeepSeq() => {
                let fst = TypeWrapper::Ptr(state.fresh());
                let snd = TypeWrapper::Ptr(state.fresh());
                (fst, mk_typewrapper::arrow_of(snd.clone(), snd))
            },
            // forall a. List a -> a
            UnaryOp::ListHead() => {
                let ty_elt = TypeWrapper::Ptr(state.fresh());
                (mk_typewrapper::list(ty_elt.clone()), ty_elt)
            },
            // forall a. List a -> List a
            UnaryOp::ListTail() => {
                let ty_elt = TypeWrapper::Ptr(state.fresh());
                (mk_typewrapper::list(ty_elt.clone()), mk_typewrapper::list(ty_elt))
            },
            // forall a. List a -> Num
            UnaryOp::ListLength() => {
                let ty_elt = TypeWrapper::Ptr(state.fresh());
                (mk_typewrapper::list(ty_elt), mk_typewrapper::num())
            },
            // Dyn -> List Str
            UnaryOp::FieldsOf() => (
                mk_typewrapper::dynamic(),
                mk_typewrapper::list(AbsType::Str()),
            ),
            // Dyn -> List
            UnaryOp::ValuesOf() => (
                mk_typewrapper::dynamic(),
                mk_typewrapper::list(AbsType::Dyn()),
            ),
            // Str -> Str
            UnaryOp::StrTrim() => (mk_typewrapper::str(), mk_typewrapper::str()),
            // Str -> List Str
            UnaryOp::StrChars() => (
                mk_typewrapper::str(),
                mk_typewrapper::list(mk_typewrapper::str()),
            ),
            // Str -> Num
            UnaryOp::CharCode() => (mk_typewrapper::str(), mk_typewrapper::num()),
            // Num -> Str
            UnaryOp::CharFromCode() => (mk_typewrapper::num(), mk_typewrapper::str()),
            // Str -> Str
            UnaryOp::StrUppercase() => (mk_typewrapper::str(), mk_typewrapper::str()),
            // Str -> Str
            UnaryOp::StrLowercase() => (mk_typewrapper::str(), mk_typewrapper::str()),
            // Str -> Num
            UnaryOp::StrLength() => (mk_typewrapper::str(), mk_typewrapper::num()),
            // Dyn -> Str
            UnaryOp::ToStr() => (mk_typewrapper::dynamic(), mk_typewrapper::str()),
            // Str -> Num
            UnaryOp::NumFromStr() => (mk_typewrapper::str(), mk_typewrapper::num()),
            // Str -> < | Dyn>
            UnaryOp::EnumFromStr() => (
                mk_typewrapper::str(),
                mk_typewrapper::enumeration(mk_typewrapper::dynamic()),
            ),
            // These should not happen, as they are only produced during evaluation.
            UnaryOp::Switch(_) | UnaryOp::ChunksConcat() => (
                mk_typewrapper::dynamic(),
                mk_typewrapper::dynamic(),
            ),
        },
    )
}

/// The enum type `<Json, Yaml, Toml>`.
pub open spec fn export_formats() -> Ty {
    enum_of(
        row_extend(
            "Json"@,
            None,
            row_extend("Yaml"@, None, row_extend("Toml"@, None, Ty::RowEmpty)),
        ),
    )
}

/// The enum type `<Json, Yaml, Toml>`.
fn mk_export_formats() -> (res: TypeWrapper)
    ensures
        res@ == export_formats(),
{
    mk_typewrapper::enumeration(
        mk_typewrapper::enum_row(
            Ident::new("Json"),
            mk_typewrapper::enum_row(
                Ident::new("Yaml"),
                mk_typewrapper::enum_row(Ident::new("Toml"), mk_typewrapper::row_empty()),
            ),
        ),
    )
}

/// The enum type `<Md5, Sha1, Sha256, Sha512>`.
pub open spec fn hash_algorithms() -> Ty {
    enum_of(
        row_extend(
            "Md5"@,
            None,
            row_extend(
                "Sha1"@,
                None,
                row_extend("Sha256"@, None, row_extend("Sha512"@, None, Ty::RowEmpty)),
            ),
        ),
    )
}

/// The type of a binary operator: the types of its arguments and of its result, at the types `a`
/// and `b` for its type variables.
pub open spec fn bop_sig(op: BinaryOp, a: Ty, b: Ty) -> (Ty, Ty, Ty) {
    match op {
        BinaryOp::Plus() => (Ty::Num, Ty::Num, Ty::Num),
        BinaryOp::Sub() => (Ty::Num, Ty::Num, Ty::Num),
        BinaryOp::Mult() => (Ty::Num, Ty::Num, Ty::Num),
        BinaryOp::Div() => (Ty::Num, Ty::Num, Ty::Num),
        BinaryOp::Modulo() => (Ty::Num, Ty::Num, Ty::Num),
        BinaryOp::Pow() => (Ty::Num, Ty::Num, Ty::Num),
        BinaryOp::StrConcat() => (Ty::Str, Ty::Str, Ty::Str),
        BinaryOp::Unwrap() => (Ty::Sym, Ty::Dyn, arrow(Ty::Dyn, Ty::Dyn)),
        BinaryOp::Tag() => (Ty::Str, Ty::Dyn, Ty::Dyn),
        BinaryOp::Eq() => (a, b, Ty::Bool),
        BinaryOp::LessThan() => (Ty::Num, Ty::Num, Ty::Bool),
        BinaryOp::LessOrEq() => (Ty::Num, Ty::Num, Ty::Bool),
        BinaryOp::GreaterThan() => (Ty::Num, Ty::Num, Ty::Bool),
        BinaryOp::GreaterOrEq() => (Ty::Num, Ty::Num, Ty::Bool),
        BinaryOp::GoField() => (Ty::Str, Ty::Dyn, Ty::Dyn),
        BinaryOp::DynAccess() => (Ty::Str, dict_of(a), a),
        BinaryOp::DynExtend() => (Ty::Str, dict_of(a), arrow(a, dict_of(a))),
        BinaryOp::DynRemove() => (Ty::Str, dict_of(a), dict_of(a)),
        BinaryOp::HasField() => (Ty::Str, Ty::Dyn, Ty::Bool),
        BinaryOp::ListConcat() => (list_of(a), list_of(a), list_of(a)),
        BinaryOp::ListElemAt() => (list_of(a), Ty::Num, a),
        BinaryOp::Merge() => (Ty::Dyn, Ty::Dyn, Ty::Dyn),
        BinaryOp::Hash() => (hash_algorithms(), Ty::Str, Ty::Str),
        BinaryOp::Serialize() => (export_formats(), a, Ty::Str),
        BinaryOp::Deserialize() => (export_formats(), Ty::Str, Ty::Dyn),
        BinaryOp::StrContains() => (Ty::Str, Ty::Str, Ty::Bool),
        BinaryOp::StrIsMatch() => (Ty::Str, Ty::Str, Ty::Bool),
        BinaryOp::StrMatch() => (
            Ty::Str,
            Ty::Str,
            record_of(
                row_extend(
                    "match"@,
                    Some(Ty::Str),
                    row_extend(
                        "index"@,
                        Some(Ty::Num),
                        row_extend("groups"@, Some(list_of(Ty::Str)), Ty::RowEmpty),
                    ),
                ),
            ),
        ),
        BinaryOp::StrSplit() => (Ty::Str, Ty::Str, list_of(Ty::Str)),
        BinaryOp::Assume() => arbitrary(),
    }
}

/// The number of type variables of a binary operator.
pub open spec fn bop_vars(op: BinaryOp) -> nat {
    match op {
        BinaryOp::DynAccess() => 1,
        BinaryOp::DynExtend() => 1,
        BinaryOp::DynRemove() => 1,
        BinaryOp::ListConcat() => 1,
        BinaryOp::ListElemAt() => 1,
        BinaryOp::Serialize() => 1,
        BinaryOp::Eq() => 2,
        _ => 0,
    }
}

/// The type of a binary operator at new variables, and the state that has these variables.
pub open spec fn bop_type(st: St, op: BinaryOp) -> (St, Ty, Ty, Ty) {
    let a = next_var(st.table);
    let st1 = with_var(st);
    let b = next_var(st1.table);
    let (arg1, arg2, res) = bop_sig(op, Ty::Ptr(a), Ty::Ptr(b));
    let st2 = if bop_vars(op) == 0 {
        st
    } else if bop_vars(op) == 1 {
        st1
    } else {
        with_var(st1)
    };
    (st2, arg1, arg2, res)
}

/// The model of the type of a binary operator.
pub open spec fn bop_outcome(
    res: Result<(TypeWrapper, TypeWrapper, TypeWrapper), TypecheckError>,
    st: St,
) -> (St, Ty, Ty, Ty)
    recommends
        res is Ok,
{
    let (arg1, arg2, ret) = res->Ok_0;
    (st, arg1@, arg2@, ret@)
}

/// Type of a binary operation.
pub fn get_bop_type<R: ImportResolver>(state: &mut State<R>, op: &BinaryOp) -> (res: Result<
    (TypeWrapper, TypeWrapper, TypeWrapper),
    TypecheckError,
>)
    requires
        is_typed_bop(*op),
    ensures
        res is Ok,
        bop_outcome(res, final(state)@) == bop_type(old(state)@, *op),
{
    Ok(
        match op {
            // Num -> Num -> Num
            BinaryOp::Plus()
            | BinaryOp::Sub()
            | BinaryOp::Mult()
            | BinaryOp::Div()
            | BinaryOp::Modulo() => (
                mk_typewrapper::num(),
                mk_typewrapper::num(),
                mk_typewrapper::num(),
            ),
            // Str -> Str -> Str
            BinaryOp::StrConcat() => (
                mk_typewrapper::str(),
                mk_typewrapper::str(),
                mk_typewrapper::str(),
            ),
            // Sym -> Dyn -> Dyn -> Dyn
            BinaryOp::Unwrap() => (
                mk_typewrapper::sym(),
                mk_typewrapper::dynamic(),
                mk_typewrapper::arrow_of(AbsType::Dyn(), AbsType::Dyn()),
            ),
            // Str -> Dyn -> Dyn
            BinaryOp::Tag() => (
                mk_typewrapper::str(),
                mk_typewrapper::dynamic(),
                mk_typewrapper::dynamic(),
            ),
            // forall a b. a -> b -> Bool
            BinaryOp::Eq() => {
                let a = TypeWrapper::Ptr(state.fresh());
                let b = TypeWrapper::Ptr(state.fresh());
                (a, b, mk_typewrapper::bool())
            },
            // Num -> Num -> Bool
            BinaryOp::LessThan()
            | BinaryOp::LessOrEq()
            | BinaryOp::GreaterThan()
            | BinaryOp::GreaterOrEq() => (
                mk_typewrapper::num(),
                mk_typewrapper::num(),
                mk_typewrapper::bool(),
            ),
            // Str -> Dyn -> Dyn
            BinaryOp::GoField() => (
                mk_typewrapper::str(),
                mk_typewrapper::dynamic(),
                mk_typewrapper::dynamic(),
            ),
            // forall a. Str -> { _ : a} -> a
            BinaryOp::DynAccess() => {
                let res = TypeWrapper::Ptr(state.fresh());
                (mk_typewrapper::str(), mk_typewrapper::dyn_record(res.clone()), res)
            },
            // forall a. Str -> { _ : a } -> a -> { _ : a }
            BinaryOp::DynExtend() => {
                let res = TypeWrapper::Ptr(state.fresh());
                (
                    mk_typewrapper::str(),
                    mk_typewrapper::dyn_record(res.clone()),
                    mk_typewrapper::arrow_of(res.clone(), mk_typewrapper::dyn_record(res)),
                )
            },
            // forall a. Str -> { _ : a } -> { _ : a}
            BinaryOp::DynRemove() => {
                let res = TypeWrapper::Ptr(state.fresh());
                (
                    mk_typewrapper::str(),
                    mk_typewrapper::dyn_record(res.clone()),
                    mk_typewrapper::dyn_record(res),
                )
            },
            // Str -> Dyn -> Bool
            BinaryOp::HasField() => (
                mk_typewrapper::str(),
                mk_typewrapper::dynamic(),
                mk_typewrapper::bool(),
            ),
            // forall a. List a -> List a -> List a
            BinaryOp::ListConcat() => {
                let ty_elt = TypeWrapper::Ptr(state.fresh());
                let ty_list = mk_typewrapper::list(ty_elt);
                (ty_list.clone(), ty_list.clone(), ty_list)
            },
            // forall a. List a -> Num -> a
            BinaryOp::ListElemAt() => {
                let ty_elt = TypeWrapper::Ptr(state.fresh());
                (mk_typewrapper::list(ty_elt.clone()), mk_typewrapper::num(), ty_elt)
            },
            // Dyn -> Dyn -> Dyn
            BinaryOp::Merge() => (
                mk_typewrapper::dynamic(),
                mk_typewrapper::dynamic(),
                mk_typewrapper::dynamic(),
            ),
            // <Md5, Sha1, Sha256, Sha512> -> Str -> Str
            BinaryOp::Hash() => (
                mk_typewrapper::enumeration(
                    mk_typewrapper::enum_row(
                        Ident::new("Md5"),
                        mk_typewrapper::enum_row(
                            Ident::new("Sha1"),
                            mk_typewrapper::enum_row(
                                Ident::new("Sha256"),
                                mk_typewrapper::enum_row(
                                    Ident::new("Sha512"),
                                    mk_typewrapper::row_empty(),
                                ),
                            ),
                        ),
                    ),
                ),
                mk_typewrapper::str(),
                mk_typewrapper::str(),
            ),
            // forall a. <Json, Yaml, Toml> -> a -> Str
            BinaryOp::Serialize() => {
                let ty_input = TypeWrapper::Ptr(state.fresh());
                (mk_export_formats(), ty_input, mk_typewrapper::str())
            },
            // <Json, Yaml, Toml> -> Str -> Dyn
            BinaryOp::Deserialize() => (
                mk_export_formats(),
                mk_typewrapper::str(),
                mk_typewrapper::dynamic(),
            ),
            // Num -> Num -> Num
            BinaryOp::Pow() => (
                mk_typewrapper::num(),
                mk_typewrapper::num(),
                mk_typewrapper::num(),
            ),
            // Str -> Str -> Bool
            BinaryOp::StrContains() => (
                mk_typewrapper::str(),
                mk_typewrapper::str(),
                mk_typewrapper::bool(),
            ),
            // Str -> Str -> Bool
            BinaryOp::StrIsMatch() => (
                mk_typewrapper::str(),
                mk_typewrapper::str(),
                mk_typewrapper::bool(),
            ),
            // Str -> Str -> {match: Str, index: Num, groups: List Str}
            BinaryOp::StrMatch() => (
                mk_typewrapper::str(),
                mk_typewrapper::str(),
                mk_typewrapper::record(
                    mk_typewrapper::record_row(
                        Ident::new("match"),
                        AbsType::Str(),
                        mk_typewrapper::record_row(
                            Ident::new("index"),
                            AbsType::Num(),
                            mk_typewrapper::record_row(
                                Ident::new("groups"),
                                mk_typewrapper::list(AbsType::Str()),
                                mk_typewrapper::row_empty(),
                            ),
                        ),
                    ),
                ),
            ),
            // Str -> Str -> List Str
            BinaryOp::StrSplit() => (
                mk_typewrapper::str(),
                mk_typewrapper::str(),
                mk_typewrapper::list(AbsType::Str()),
            ),
            // This should not happen, as it is only produced during evaluation.
            BinaryOp::Assume() => (
                mk_typewrapper::dynamic(),
                mk_typewrapper::dynamic(),
                mk_typewrapper::dynamic(),
            ),
        },
    )
}

/// The type of an n-ary operator: the types of its arguments and of its result.
pub open spec fn nop_type(op: NAryOp) -> (Seq<Ty>, Ty) {
    match op {
        NAryOp::StrReplace() => (seq![Ty::Str, Ty::Str, Ty::Str], Ty::Str),
        NAryOp::StrReplaceRegex() => (seq![Ty::Str, Ty::Str, Ty::Str], Ty::Str),
        NAryOp::StrSubstr() => (seq![Ty::Str, Ty::Num, Ty::Num], Ty::Str),
        NAryOp::MergeContract() => arbitrary(),
    }
}

/// The models of a sequence of types.
pub open spec fn tys(types: Seq<TypeWrapper>) -> Seq<Ty> {
    types.map_values(|ty: TypeWrapper| ty@)
}

/// The model of the type of an n-ary operator.
pub open spec fn nop_outcome(res: Result<(Vec<TypeWrapper>, TypeWrapper), TypecheckError>) -> (
    Seq<Ty>,
    Ty,
)
    recommends
        res is Ok,
{
    let (args, ret) = res->Ok_0;
    (tys(args@), ret@)
}

/// Type of an n-ary operation.
pub fn get_nop_type<R: ImportResolver>(_state: &mut State<R>, op: &NAryOp) -> (res: Result<
    (Vec<TypeWrapper>, TypeWrapper),
    TypecheckError,
>)
    requires
        is_typed_nop(*op),
    ensures
        res is Ok,
        nop_outcome(res) == nop_type(*op),
        final(_state)@ == old(_state)@,
{
    let (args, ret) = match op {
        // Str -> Str -> Str -> Str
        NAryOp::StrReplace() | NAryOp::StrReplaceRegex() => (
            vec![mk_typewrapper::str(), mk_typewrapper::str(), mk_typewrapper::str()],
            mk_typewrapper::str(),
        ),
        // Str -> Num -> Num -> Str
        NAryOp::StrSubstr() => (
            vec![mk_typewrapper::str(), mk_typewrapper::num(), mk_typewrapper::num()],
            mk_typewrapper::str(),
        ),
        // This should not happen, as it is only produced during evaluation.
        NAryOp::MergeContract() => (Vec::new(), mk_typewrapper::dynamic()),
    };
    assert(tys(args@) =~= nop_type(*op).0);
    Ok((args, ret))
}

} // verus!
