//! Terms.
use vstd::prelude::*;
use std::rc::Rc;

use crate::identifier::Ident;
use crate::label::Label;
use crate::position::{FileId, TermPos};
use crate::types::Types;

verus! {

/// A term together with its position. Terms are shared: a clone is the same term.
#[derive(Debug, PartialEq)]
pub struct RichTerm {
    pub term: Rc<Term>,
    pub pos: TermPos,
}

impl Clone for RichTerm {
    fn clone(&self) -> (res: Self)
        ensures
            res == *self,
    {
        RichTerm { term: self.term.clone(), pos: self.pos }
    }
}

impl RichTerm {
    /// A term at a position.
    pub fn new(term: Term, pos: TermPos) -> (res: RichTerm)
        ensures
            *res.term == term,
            res.pos == pos,
    {
        RichTerm { term: Rc::new(term), pos }
    }
}

/// The abstract syntax of the language.
///
/// The fields of a record and the cases of a switch stand in the order in which they are visited.
/// No identifier occurs twice among them: a term is made such that `has_distinct_ids` holds of it.
/// The typechecker does not rely on this. It is what makes the rows of records and switches
/// well-formed.
#[derive(Debug, PartialEq)]
pub enum Term {
    /// The null value.
    Null,
    /// A boolean value.
    Bool(bool),
    /// A number, given by the bits of its IEEE 754 representation.
    Num(u64),
    /// A literal string.
    Str(String),
    /// A string containing interpolated expressions.
    StrChunks(Vec<StrChunk>),
    /// A function.
    Fun(Ident, RichTerm),
    /// A blame label.
    Lbl(Label),
    /// A let-binding.
    Let(Ident, RichTerm, RichTerm),
    /// An application.
    App(RichTerm, RichTerm),
    /// A variable.
    Var(Ident),
    /// An enum variant.
    Enum(Ident),
    /// A record.
    Record(Vec<(Ident, RichTerm)>, RecordAttrs),
    /// A recursive record.
    RecRecord(Vec<(Ident, RichTerm)>, RecordAttrs),
    /// A switch construct, with an optional default case.
    Switch(RichTerm, Vec<(Ident, RichTerm)>, Option<RichTerm>),
    /// A list.
    List(Vec<RichTerm>),
    /// A primitive unary operator.
    Op1(UnaryOp, RichTerm),
    /// A primitive binary operator.
    Op2(BinaryOp, RichTerm, RichTerm),
    /// A primitive n-ary operator.
    OpN(NAryOp, Vec<RichTerm>),
    /// A promise: a term with a type annotation.
    Promise(Types, Label, RichTerm),
    /// A symbol, a unique tag.
    Sym(i32),
    /// A wrapped term, sealed by a symbol.
    Wrapped(i32, RichTerm),
    /// A value together with metadata.
    MetaValue(MetaValue),
    /// An unresolved import.
    Import(String),
    /// A resolved import.
    ResolvedImport(FileId),
}

/// Whether no identifier is bound twice.
pub open spec fn distinct_ids(bindings: Seq<(Ident, RichTerm)>) -> bool {
    forall|i: int, j: int|
        0 <= i < j < bindings.len() ==> (#[trigger] bindings[i]).0@ != (#[trigger] bindings[j]).0@
}

/// Whether no identifier occurs twice among the fields of a record or the cases of a switch, in a
/// term and in all the terms inside it.
pub open spec fn has_distinct_ids(rt: RichTerm) -> bool
    decreases rt,
{
    match *rt.term {
        Term::StrChunks(chunks) => forall|i: int|
            0 <= i < chunks@.len() ==> match #[trigger] chunks@[i] {
                StrChunk::Expr(t, _) => has_distinct_ids(t),
                StrChunk::Literal(_) => true,
            },
        Term::Fun(_, t) => has_distinct_ids(t),
        Term::Let(_, t1, t2) => has_distinct_ids(t1) && has_distinct_ids(t2),
        Term::App(t1, t2) => has_distinct_ids(t1) && has_distinct_ids(t2),
        Term::Record(fields, _) => distinct_ids(fields@) && forall|i: int|
            0 <= i < fields@.len() ==> has_distinct_ids((#[trigger] fields@[i]).1),
        Term::RecRecord(fields, _) => distinct_ids(fields@) && forall|i: int|
            0 <= i < fields@.len() ==> has_distinct_ids((#[trigger] fields@[i]).1),
        Term::Switch(t, cases, default) => {
            &&& has_distinct_ids(t)
            &&& distinct_ids(cases@)
            &&& forall|i: int|
                0 <= i < cases@.len() ==> has_distinct_ids((#[trigger] cases@[i]).1)
            &&& match default {
                Some(t) => has_distinct_ids(t),
                None => true,
            }
        },
        Term::List(terms) => forall|i: int|
            0 <= i < terms@.len() ==> has_distinct_ids(#[trigger] terms@[i]),
        Term::Op1(_, t) => has_distinct_ids(t),
        Term::Op2(_, t1, t2) => has_distinct_ids(t1) && has_distinct_ids(t2),
        Term::OpN(_, args) => forall|i: int|
            0 <= i < args@.len() ==> has_distinct_ids(#[trigger] args@[i]),
        Term::Promise(_, _, t) => has_distinct_ids(t),
        Term::Wrapped(_, t) => has_distinct_ids(t),
        Term::MetaValue(meta) => match meta.value {
            Some(t) => has_distinct_ids(t),
            None => true,
        },
        _ => true,
    }
}

/// A chunk of a string with interpolated expressions.
#[derive(Debug, PartialEq)]
pub enum StrChunk {
    /// A literal chunk.
    Literal(String),
    /// An interpolated expression, with its indentation.
    Expr(RichTerm, usize),
}

/// The attributes of a record.
#[derive(Debug, PartialEq, Eq, Clone, Copy)]
pub struct RecordAttrs {
    /// Whether the record is an open record.
    pub open: bool,
}

/// A contract: a type together with its label.
#[derive(Debug, PartialEq)]
pub struct Contract {
    pub types: Types,
    pub label: Label,
}

/// The priority of a value in a merge.
#[derive(Debug, PartialEq, Eq, Clone, Copy)]
pub enum MergePriority {
    /// A value that any other overrides.
    Default,
    /// An ordinary value.
    Normal,
}

/// A value together with metadata: documentation, annotations and a merge priority.
#[derive(Debug, PartialEq)]
pub struct MetaValue {
    pub doc: Option<String>,
    pub types: Option<Contract>,
    pub contracts: Vec<Contract>,
    pub priority: MergePriority,
    pub value: Option<RichTerm>,
}

/// Primitive unary operators.
#[derive(Debug, PartialEq)]
pub enum UnaryOp {
    /// If-then-else.
    Ite(),
    /// Test if a value is a number.
    IsNum(),
    /// Test if a value is a boolean.
    IsBool(),
    /// Test if a value is a string.
    IsStr(),
    /// Test if a value is a function.
    IsFun(),
    /// Test if a value is a list.
    IsList(),
    /// Test if a value is a record.
    IsRecord(),
    /// Boolean AND.
    BoolAnd(),
    /// Boolean OR.
    BoolOr(),
    /// Boolean NOT.
    BoolNot(),
    /// Raise a blame.
    Blame(),
    /// The polarity of a label.
    Pol(),
    /// Embed an enum into a larger one.
    Embed(Ident),
    /// Evaluate a switch block; produced by evaluation only.
    Switch(bool),
    /// Flip the polarity of a label.
    ChangePolarity(),
    /// Go inside the domain of a function in the type path of a label.
    GoDom(),
    /// Go inside the codomain of a function in the type path of a label.
    GoCodom(),
    /// Go inside a list in the type path of a label.
    GoList(),
    /// Wrap a term with a symbol.
    Wrap(),
    /// Static access to a record field.
    StaticAccess(Ident),
    /// Map a function on each element of a list.
    ListMap(),
    /// Generate a list by applying a function to its indices.
    ListGen(),
    /// Map a function on a record.
    RecordMap(),
    /// Evaluate the first argument, and return the second.
    Sequence(),
    /// Evaluate the first argument recursively, and return the second.
    DeepSeq(),
    /// The head of a list.
    ListHead(),
    /// The tail of a list.
    ListTail(),
    /// The length of a list.
    ListLength(),
    /// Concatenate the chunks of a string; produced by evaluation only.
    ChunksConcat(),
    /// The list of the fields of a record.
    FieldsOf(),
    /// The list of the values of a record.
    ValuesOf(),
    /// Remove heading and trailing spaces from a string.
    StrTrim(),
    /// The list of the characters of a string.
    StrChars(),
    /// The code of a character.
    CharCode(),
    /// The character of a code.
    CharFromCode(),
    /// Transform a string to uppercase.
    StrUppercase(),
    /// Transform a string to lowercase.
    StrLowercase(),
    /// The length of a string.
    StrLength(),
    /// Transform a value to a string.
    ToStr(),
    /// Transform a string to a number.
    NumFromStr(),
    /// Transform a string to an enum.
    EnumFromStr(),
}

/// Primitive binary operators.
#[derive(Debug, PartialEq)]
pub enum BinaryOp {
    /// Addition of numerals.
    Plus(),
    /// Subtraction of numerals.
    Sub(),
    /// Multiplication of numerals.
    Mult(),
    /// Division of numerals.
    Div(),
    /// Modulo of numerals.
    Modulo(),
    /// Raise a number to a power.
    Pow(),
    /// Concatenation of strings.
    StrConcat(),
    /// Polymorphic equality.
    Eq(),
    /// Strictly less than comparison.
    LessThan(),
    /// Less than or equal comparison.
    LessOrEq(),
    /// Strictly greater than comparison.
    GreaterThan(),
    /// Greater than or equal comparison.
    GreaterOrEq(),
    /// Apply a contract to a label and a value; produced by evaluation only.
    Assume(),
    /// Unwrap a term from a symbol.
    Unwrap(),
    /// Go to a specific field in the type path of a label.
    GoField(),
    /// Set the tag of a label.
    Tag(),
    /// Extend a record with a dynamic field.
    DynExtend(),
    /// Remove a field from a record.
    DynRemove(),
    /// Access the field of a record dynamically.
    DynAccess(),
    /// Test if a record has a specific field.
    HasField(),
    /// Concatenate two lists.
    ListConcat(),
    /// Access the n-th element of a list.
    ListElemAt(),
    /// The merge operator.
    Merge(),
    /// Hash a string.
    Hash(),
    /// Serialize a value to a string.
    Serialize(),
    /// Deserialize a string to a value.
    Deserialize(),
    /// Split a string.
    StrSplit(),
    /// Test if a string contains another.
    StrContains(),
    /// Test if a regex matches a string.
    StrIsMatch(),
    /// Match a regex on a string.
    StrMatch(),
}

/// Primitive n-ary operators.
#[derive(Debug, PartialEq)]
pub enum NAryOp {
    /// Replace a substring by another one.
    StrReplace(),
    /// Same as `StrReplace`, but the pattern is a regular expression.
    StrReplaceRegex(),
    /// A slice of a string.
    StrSubstr(),
    /// Merge two values with contracts; produced by evaluation only.
    MergeContract(),
}

} // verus!
