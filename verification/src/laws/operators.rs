//! The types of the primitive operators agree with what the operators do.
use vstd::prelude::*;

use crate::model::{Name, St, Ty};
use crate::term::{BinaryOp, NAryOp, UnaryOp};
use crate::typecheck::ops::{bop_type, is_typed_bop, is_typed_nop, is_typed_uop, nop_type, uop_type};

verus! {

/// The function type from an argument to a result.
pub open spec fn fun(s: Ty, t: Ty) -> Ty {
    Ty::Arrow(Box::new(s), Box::new(t))
}

/// The list type of elements.
pub open spec fn list(t: Ty) -> Ty {
    Ty::List(Box::new(t))
}

/// The dictionary type of elements.
pub open spec fn dict(t: Ty) -> Ty {
    Ty::DynRecord(Box::new(t))
}

/// The enum type of some tags, and of a row of more.
pub open spec fn tags(ids: Seq<Name>, more: Ty) -> Ty {
    Ty::Enum(Box::new(tag_row(ids, more)))
}

/// The enum row of some tags, and of a row of more.
pub open spec fn tag_row(ids: Seq<Name>, more: Ty) -> Ty
    decreases ids.len(),
{
    if ids.len() == 0 {
        more
    } else {
        Ty::RowExtend(ids[0], None, Box::new(tag_row(ids.drop_first(), more)))
    }
}

/// A state with one more free variable.
pub open spec fn one_more(st: St) -> St {
    St { table: st.table.insert(st.table.dom().len() as usize, None), ..st }
}

/// The variable that a state gives out next.
pub open spec fn next(st: St) -> Ty {
    Ty::Ptr(st.table.dom().len() as usize)
}

/// Arithmetic takes two numbers and gives a number.
pub proof fn law_arithmetic(st: St, op: BinaryOp)
    requires
        op is Plus || op is Sub || op is Mult || op is Div || op is Modulo || op is Pow,
    ensures
        bop_type(st, op) == (st, Ty::Num, Ty::Num, Ty::Num),
{
}

/// A comparison of numbers takes two numbers and gives a boolean.
pub proof fn law_comparison(st: St, op: BinaryOp)
    requires
        op is LessThan || op is LessOrEq || op is GreaterThan || op is GreaterOrEq,
    ensures
        bop_type(st, op) == (st, Ty::Num, Ty::Num, Ty::Bool),
{
}

/// Equality takes two values of any types, which may differ, and gives a boolean.
pub proof fn law_equality(st: St)
    ensures
        bop_type(st, BinaryOp::Eq()) == (
            one_more(one_more(st)),
            next(st),
            next(one_more(st)),
            Ty::Bool,
        ),
{
}

/// The operators on two strings take two strings. A concatenation gives a string, a test gives a
/// boolean, a split gives a list of strings, and a match gives the matched string, its index and
/// its groups.
pub proof fn law_strings(st: St, op: BinaryOp)
    requires
        op is StrConcat || op is StrContains || op is StrIsMatch || op is StrSplit
            || op is StrMatch,
    ensures
        ({
            let (st2, arg1, arg2, res) = bop_type(st, op);
            &&& st2 == st
            &&& arg1 == Ty::Str
            &&& arg2 == Ty::Str
            &&& op is StrConcat ==> res == Ty::Str
            &&& op is StrContains || op is StrIsMatch ==> res == Ty::Bool
            &&& op is StrSplit ==> res == list(Ty::Str)
            &&& op is StrMatch ==> res == Ty::StaticRecord(
                Box::new(
                    Ty::RowExtend(
                        "match"@,
                        Some(Box::new(Ty::Str)),
                        Box::new(
                            Ty::RowExtend(
                                "index"@,
                                Some(Box::new(Ty::Num)),
                                Box::new(
                                    Ty::RowExtend(
                                        "groups"@,
                                        Some(Box::new(list(Ty::Str))),
                                        Box::new(Ty::RowEmpty),
                                    ),
                                ),
                            ),
                        ),
                    ),
                ),
            )
        }),
{
}

/// A dictionary with elements of a type is accessed by a string, and gives an element. Extended by
/// an element, or with one removed, it is a dictionary of the same type.
pub proof fn law_dictionaries(st: St, op: BinaryOp)
    requires
        op is DynAccess || op is DynExtend || op is DynRemove,
    ensures
        ({
            let (st2, arg1, arg2, res) = bop_type(st, op);
            let a = next(st);
            &&& st2 == one_more(st)
            &&& arg1 == Ty::Str
            &&& arg2 == dict(a)
            &&& op is DynAccess ==> res == a
            &&& op is DynExtend ==> res == fun(a, dict(a))
            &&& op is DynRemove ==> res == dict(a)
        }),
{
}

/// Two lists of a type are concatenated to one. An element of a list, at a number, has the type of
/// its elements.
pub proof fn law_lists(st: St)
    ensures
        ({
            let a = next(st);
            &&& bop_type(st, BinaryOp::ListConcat()) == (one_more(st), list(a), list(a), list(a))
            &&& bop_type(st, BinaryOp::ListElemAt()) == (one_more(st), list(a), Ty::Num, a)
        }),
{
}

/// Operators on values of unknown types: the presence of a field is a boolean, what is unwrapped,
/// merged or below a label is unknown.
pub proof fn law_dynamic(st: St)
    ensures
        bop_type(st, BinaryOp::HasField()) == (st, Ty::Str, Ty::Dyn, Ty::Bool),
        bop_type(st, BinaryOp::Merge()) == (st, Ty::Dyn, Ty::Dyn, Ty::Dyn),
        bop_type(st, BinaryOp::Tag()) == (st, Ty::Str, Ty::Dyn, Ty::Dyn),
        bop_type(st, BinaryOp::GoField()) == (st, Ty::Str, Ty::Dyn, Ty::Dyn),
        bop_type(st, BinaryOp::Unwrap()) == (st, Ty::Sym, Ty::Dyn, fun(Ty::Dyn, Ty::Dyn)),
{
}

/// A string is hashed to a string, by one of the hash algorithms. A value of any type is serialized
/// to a string, and a string deserialized to an unknown value, in one of the formats.
pub proof fn law_formats(st: St)
    ensures
        ({
            let algorithms = tags(seq!["Md5"@, "Sha1"@, "Sha256"@, "Sha512"@], Ty::RowEmpty);
            let formats = tags(seq!["Json"@, "Yaml"@, "Toml"@], Ty::RowEmpty);
            &&& bop_type(st, BinaryOp::Hash()) == (st, algorithms, Ty::Str, Ty::Str)
            &&& bop_type(st, BinaryOp::Serialize()) == (one_more(st), formats, next(st), Ty::Str)
            &&& bop_type(st, BinaryOp::Deserialize()) == (st, formats, Ty::Str, Ty::Dyn)
        }),
{
    let (a, b, c, d) = ("Md5"@, "Sha1"@, "Sha256"@, "Sha512"@);
    lemma_tag_row(seq![a, b, c, d]);
    lemma_tag_row(seq!["Json"@, "Yaml"@, "Toml"@]);
}

/// The rows of three and four tags.
proof fn lemma_tag_row(ids: Seq<Name>)
    requires
        ids.len() == 3 || ids.len() == 4,
    ensures
        ({
            let last = if ids.len() == 3 {
                Ty::RowEmpty
            } else {
                Ty::RowExtend(ids[3], None, Box::new(Ty::RowEmpty))
            };
            tag_row(ids, Ty::RowEmpty) == Ty::RowExtend(
                ids[0],
                None,
                Box::new(
                    Ty::RowExtend(
                        ids[1],
                        None,
                        Box::new(Ty::RowExtend(ids[2], None, Box::new(last))),
                    ),
                ),
            )
        }),
{
    reveal_with_fuel(tag_row, 5);
}

/// A test of the kind of a value takes a value of any type and gives a boolean.
pub proof fn law_kind_tests(st: St, op: UnaryOp)
    requires
        op is IsNum || op is IsBool || op is IsStr || op is IsFun || op is IsList || op is IsRecord,
    ensures
        uop_type(st, op) == (one_more(st), next(st), Ty::Bool),
{
}

/// The boolean operators take and give booleans. A conditional takes a boolean and two branches of
/// a type, and gives this type.
pub proof fn law_booleans(st: St)
    ensures
        uop_type(st, UnaryOp::BoolNot()) == (st, Ty::Bool, Ty::Bool),
        uop_type(st, UnaryOp::BoolAnd()) == (st, Ty::Bool, fun(Ty::Bool, Ty::Bool)),
        uop_type(st, UnaryOp::BoolOr()) == (st, Ty::Bool, fun(Ty::Bool, Ty::Bool)),
        ({
            let a = next(st);
            uop_type(st, UnaryOp::Ite()) == (one_more(st), Ty::Bool, fun(a, fun(a, a)))
        }),
{
}

/// The operators on one string take a string. They give a string, or its characters, its length, or
/// the number, the code or the enum that it spells. A code gives a character, and any value gives
/// a string.
pub proof fn law_string(st: St)
    ensures
        uop_type(st, UnaryOp::StrTrim()) == (st, Ty::Str, Ty::Str),
        uop_type(st, UnaryOp::StrUppercase()) == (st, Ty::Str, Ty::Str),
        uop_type(st, UnaryOp::StrLowercase()) == (st, Ty::Str, Ty::Str),
        uop_type(st, UnaryOp::StrChars()) == (st, Ty::Str, list(Ty::Str)),
        uop_type(st, UnaryOp::StrLength()) == (st, Ty::Str, Ty::Num),
        uop_type(st, UnaryOp::NumFromStr()) == (st, Ty::Str, Ty::Num),
        uop_type(st, UnaryOp::CharCode()) == (st, Ty::Str, Ty::Num),
        uop_type(st, UnaryOp::CharFromCode()) == (st, Ty::Num, Ty::Str),
        uop_type(st, UnaryOp::ToStr()) == (st, Ty::Dyn, Ty::Str),
        uop_type(st, UnaryOp::EnumFromStr()) == (st, Ty::Str, tags(Seq::empty(), Ty::Dyn)),
{
}

/// A list of a type has elements of this type: its head, its tail and its length. A function maps
/// it to a list of results, and generates one from the numbers below a number.
pub proof fn law_list(st: St)
    ensures
        ({
            let a = next(st);
            let b = next(one_more(st));
            let one = one_more(st);
            let two = one_more(one);
            &&& uop_type(st, UnaryOp::ListHead()) == (one, list(a), a)
            &&& uop_type(st, UnaryOp::ListTail()) == (one, list(a), list(a))
            &&& uop_type(st, UnaryOp::ListLength()) == (one, list(a), Ty::Num)
            &&& uop_type(st, UnaryOp::ListMap()) == (two, list(a), fun(fun(a, b), list(b)))
            &&& uop_type(st, UnaryOp::ListGen()) == (
                one,
                Ty::Num,
                fun(fun(Ty::Num, a), list(a)),
            )
        }),
{
}

/// A function of names and values maps a dictionary to one of its results. The fields of a value
/// are strings, and their values are unknown. A record with a field gives the type of the field.
pub proof fn law_record(st: St, op: UnaryOp)
    ensures
        ({
            let a = next(st);
            let b = next(one_more(st));
            let two = one_more(one_more(st));
            &&& uop_type(st, UnaryOp::RecordMap()) == (
                two,
                dict(a),
                fun(fun(Ty::Str, fun(a, b)), dict(b)),
            )
            &&& uop_type(st, UnaryOp::FieldsOf()) == (st, Ty::Dyn, list(Ty::Str))
            &&& uop_type(st, UnaryOp::ValuesOf()) == (st, Ty::Dyn, list(Ty::Dyn))
            &&& op matches UnaryOp::StaticAccess(id) ==> uop_type(st, op) == (
                two,
                Ty::StaticRecord(
                    Box::new(Ty::RowExtend(id@, Some(Box::new(b)), Box::new(a))),
                ),
                b,
            )
        }),
{
}

/// An enum is embedded into the one that has a tag more. The row of the former must not have the
/// tag, and nothing else is asked for.
pub proof fn law_embed(st: St, op: UnaryOp)
    ensures
        op matches UnaryOp::Embed(id) ==> ({
            let (st2, arg, res) = uop_type(st, op);
            let p = st.table.dom().len() as usize;
            &&& arg == tags(Seq::empty(), next(st))
            &&& res == Ty::Enum(Box::new(Ty::RowExtend(id@, None, Box::new(next(st)))))
            &&& st2.table == one_more(st).table
            &&& st2.names == st.names
            &&& st2.imports == st.imports
            &&& st2.constr.contains_key(p)
            &&& !st.constr.contains_key(p) ==> st2.constr[p] =~= set![id@]
            &&& forall|q: usize|
                q != p ==> st2.constr.contains_key(q) == st.constr.contains_key(q)
                    && #[trigger] st2.constr[q] == st.constr[q]
        }),
{
}

/// Forcing a value of any type gives a value of any other. A blame has any type.
pub proof fn law_forcing(st: St)
    ensures
        ({
            let a = next(st);
            let b = next(one_more(st));
            let two = one_more(one_more(st));
            &&& uop_type(st, UnaryOp::Sequence()) == (two, a, fun(b, b))
            &&& uop_type(st, UnaryOp::DeepSeq()) == (two, a, fun(b, b))
            &&& uop_type(st, UnaryOp::Blame()) == (one_more(st), Ty::Dyn, a)
        }),
{
}

/// The operators on labels take a label, whose type is unknown. The polarity is a boolean, and the
/// others give a label. A symbol wraps an unknown value.
pub proof fn law_labels(st: St, op: UnaryOp)
    ensures
        uop_type(st, UnaryOp::Pol()) == (st, Ty::Dyn, Ty::Bool),
        op is ChangePolarity || op is GoDom || op is GoCodom || op is GoList ==> uop_type(st, op)
            == (st, Ty::Dyn, Ty::Dyn),
        uop_type(st, UnaryOp::Wrap()) == (st, Ty::Sym, fun(Ty::Dyn, Ty::Dyn)),
{
}

/// A replacement takes three strings and gives a string. A substring takes a string and two
/// numbers, and gives a string.
pub proof fn law_replacements(op: NAryOp)
    ensures
        op is StrReplace || op is StrReplaceRegex ==> nop_type(op) == (
            seq![Ty::Str, Ty::Str, Ty::Str],
            Ty::Str,
        ),
        op is StrSubstr ==> nop_type(op) == (seq![Ty::Str, Ty::Num, Ty::Num], Ty::Str),
{
}

/// All the operators have a type, but for those that only evaluation produces.
pub proof fn law_typed_ops(uop: UnaryOp, bop: BinaryOp, nop: NAryOp)
    ensures
        is_typed_uop(uop) <==> !(uop is Switch || uop is ChunksConcat),
        is_typed_bop(bop) <==> !(bop is Assume),
        is_typed_nop(nop) <==> !(nop is MergeContract),
{
}

} // verus!
