//! The types that bindings are given: let-bound terms, fields of recursive records, and the builtin
//! terms of the global environment.
use vstd::prelude::*;

use crate::eval::bound_terms;
use crate::identifier::Ident;
use crate::laws::scoping::lemma_annotation_plain;
use crate::model::{Name, Table, Ty};
use crate::term::{RichTerm, Term};
use crate::typecheck::check::bind_fields;
use crate::typecheck::envs::{
    apparent, apparent_plain_ty, apparent_ty, bound_ty, global_scope, global_types, in_scope,
    with_fields, with_local, Apparent, Scope,
};
use crate::typecheck::wrapper::is_plain;

verus! {

/// Whether a binding is given a type, without a new variable.
pub open spec fn is_given(out: (Table, Ty), table: Table, ty: Ty) -> bool {
    out.0 == table && out.1 == ty
}

/// A term with a type annotation is bound to exactly the annotated type, in both modes, whatever
/// its value is and whether it has one or not: the type of a promise, the type of a metavalue, or
/// else the first contract of a metavalue.
pub proof fn law_annotated_binding(table: Table, scope: Scope, rt: RichTerm, strict: bool)
    ensures
        match *rt.term {
            Term::Promise(ty, _, _) => is_given(
                bound_ty(table, scope, rt, strict),
                table,
                ty@,
            ),
            Term::MetaValue(meta) => {
                &&& meta.types matches Some(ctr) ==> is_given(
                    bound_ty(table, scope, rt, strict),
                    table,
                    ctr.types@,
                )
                &&& meta.types is None && meta.contracts@.len() > 0 ==> is_given(
                    bound_ty(table, scope, rt, strict),
                    table,
                    meta.contracts@[0].types@,
                )
            },
            _ => true,
        },
{
}

/// A metavalue without an annotation is bound as its value is. One without a value either is bound
/// as a term whose type is not known.
pub proof fn law_value_binding(table: Table, scope: Scope, rt: RichTerm, strict: bool)
    ensures
        *rt.term matches Term::MetaValue(meta) ==> (meta.types is None && meta.contracts@.len() == 0
            ==> match meta.value {
            Some(v) => bound_ty(table, scope, rt, strict) == bound_ty(table, scope, v, strict),
            None => is_unknown(table, scope, rt, strict, Ty::Dyn),
        }),
{
}

/// Whether a binding has no known type: it is given a new variable in strict mode, and an
/// approximation otherwise.
pub open spec fn is_unknown(
    table: Table,
    scope: Scope,
    rt: RichTerm,
    strict: bool,
    approximation: Ty,
) -> bool {
    let p = table.dom().len() as usize;
    if strict {
        &&& bound_ty(table, scope, rt, strict).0 == table.insert(p, None)
        &&& bound_ty(table, scope, rt, strict).1 == Ty::Ptr(p)
    } else {
        is_given(bound_ty(table, scope, rt, strict), table, approximation)
    }
}

/// A constant is bound to its own type, and a variable to the type that it has in scope, in both
/// modes.
pub proof fn law_known_binding(table: Table, scope: Scope, rt: RichTerm, strict: bool)
    ensures
        ({
            let out = bound_ty(table, scope, rt, strict);
            match *rt.term {
                Term::Num(_) => is_given(out, table, Ty::Num),
                Term::Bool(_) => is_given(out, table, Ty::Bool),
                Term::Sym(_) => is_given(out, table, Ty::Sym),
                Term::Str(_) => is_given(out, table, Ty::Str),
                Term::StrChunks(_) => is_given(out, table, Ty::Str),
                Term::Var(x) => in_scope(scope, x@) matches Some(ty) ==> is_given(out, table, ty),
                _ => true,
            }
        }),
{
}

/// Any other term has no known type. Its approximation is `Dyn`, and for a list, the list of `Dyn`.
pub proof fn law_unknown_binding(table: Table, scope: Scope, rt: RichTerm, strict: bool)
    ensures
        match *rt.term {
            Term::Num(_) => true,
            Term::Bool(_) => true,
            Term::Sym(_) => true,
            Term::Str(_) => true,
            Term::StrChunks(_) => true,
            Term::Promise(_, _, _) => true,
            Term::MetaValue(_) => true,
            Term::Var(x) => in_scope(scope, x@) is None ==> is_unknown(
                table,
                scope,
                rt,
                strict,
                Ty::Dyn,
            ),
            Term::List(_) => is_unknown(table, scope, rt, strict, Ty::List(Box::new(Ty::Dyn))),
            _ => is_unknown(table, scope, rt, strict, Ty::Dyn),
        },
{
}

/// The apparent type of a term says where it comes from: an annotation, a constant, the scope, or
/// an approximation.
pub proof fn law_apparent_kind(t: Term, scope: Option<Scope>)
    ensures
        match t {
            Term::Promise(ty, _, _) => apparent(t, scope) == Apparent::Annotated(ty@),
            Term::MetaValue(meta) => match meta.types {
                Some(ctr) => apparent(t, scope) == Apparent::Annotated(ctr.types@),
                None => if meta.contracts@.len() > 0 {
                    apparent(t, scope) == Apparent::Annotated(meta.contracts@[0].types@)
                } else {
                    match meta.value {
                        Some(v) => apparent(t, scope) == apparent(*v.term, scope),
                        None => apparent(t, scope) == Apparent::Approximated(Ty::Dyn),
                    }
                },
            },
            Term::Num(_) => apparent(t, scope) == Apparent::Inferred(Ty::Num),
            Term::Bool(_) => apparent(t, scope) == Apparent::Inferred(Ty::Bool),
            Term::Sym(_) => apparent(t, scope) == Apparent::Inferred(Ty::Sym),
            Term::Str(_) => apparent(t, scope) == Apparent::Inferred(Ty::Str),
            Term::StrChunks(_) => apparent(t, scope) == Apparent::Inferred(Ty::Str),
            Term::Var(x) => match scope {
                Some(scope) => match in_scope(scope, x@) {
                    Some(ty) => apparent(t, Some(scope)) == Apparent::FromEnv(ty),
                    None => apparent(t, Some(scope)) == Apparent::Approximated(Ty::Dyn),
                },
                None => apparent(t, scope) == Apparent::Approximated(Ty::Dyn),
            },
            _ => apparent(t, scope) is Approximated,
        },
{
}

/// The scope without names.
pub open spec fn no_scope() -> Scope {
    Scope { global: Map::empty(), local: Map::empty() }
}

/// A name has a type in the global environment exactly when the term environment has it. The type
/// is the one that a let-binding of its term would be given in non-strict mode, and without a
/// scope.
pub proof fn law_global_types(terms: Map<Name, RichTerm>, id: Name, table: Table)
    ensures
        global_types(terms).contains_key(id) <==> terms.contains_key(id),
        terms.contains_key(id) ==> is_given(
            bound_ty(table, no_scope(), terms[id], false),
            table,
            global_types(terms)[id],
        ),
{
    if terms.contains_key(id) {
        lemma_no_scope(terms[id]);
    }
}

/// Without names in scope, the apparent type of a term is the same as without a scope, and never
/// comes from the scope.
proof fn lemma_no_scope(rt: RichTerm)
    ensures
        apparent(*rt.term, Some(no_scope())) == apparent(*rt.term, None),
        !(apparent(*rt.term, None) is FromEnv),
    decreases rt,
{
    if let Term::MetaValue(meta) = *rt.term {
        if meta.types is None && meta.contracts@.len() == 0 {
            if let Some(v) = meta.value {
                lemma_no_scope(v);
            }
        }
    }
}

/// A builtin term whose term is annotated has exactly the annotated type in the global environment,
/// whatever the form of the type.
pub proof fn law_global_annotated(terms: Map<Name, RichTerm>, id: Name)
    requires
        terms.contains_key(id),
    ensures
        match *terms[id].term {
            Term::Promise(ty, _, _) => global_types(terms)[id] == ty@,
            Term::MetaValue(meta) => {
                &&& meta.types matches Some(ctr) ==> global_types(terms)[id] == ctr.types@
                &&& meta.types is None && meta.contracts@.len() > 0 ==> global_types(terms)[id]
                    == meta.contracts@[0].types@
            },
            _ => true,
        },
{
    law_global_types(terms, id, Map::empty());
    law_annotated_binding(Map::empty(), no_scope(), terms[id], false);
}

/// An environment of terms gives a name the term of its last binding, and has no other names.
pub proof fn law_bound_terms(terms: Seq<(Ident, RichTerm)>, id: Name)
    ensures
        bound_terms(terms).contains_key(id) <==> exists|i: int|
            0 <= i < terms.len() && (#[trigger] terms[i]).0@ == id,
        forall|i: int|
            0 <= i < terms.len() && (#[trigger] terms[i]).0@ == id && (forall|j: int|
                i < j < terms.len() ==> (#[trigger] terms[j]).0@ != id) ==> bound_terms(terms)[id]
                == terms[i].1,
{
    if exists|i: int| 0 <= i < terms.len() && (#[trigger] terms[i]).0@ == id {
        let i = choose|i: int| 0 <= i < terms.len() && (#[trigger] terms[i]).0@ == id;
        lemma_bound_term(terms, id, i);
    } else {
        lemma_no_bound_term(terms, id);
    }
    assert forall|i: int|
        0 <= i < terms.len() && (#[trigger] terms[i]).0@ == id && (forall|j: int|
            i < j < terms.len() ==> (#[trigger] terms[j]).0@ != id) implies bound_terms(terms)[id]
        == terms[i].1 by {
        lemma_bound_term(terms, id, i);
    }
}

/// A name that has a binding in a sequence of terms has a term, which is that of the binding if no
/// later one has the same name.
proof fn lemma_bound_term(terms: Seq<(Ident, RichTerm)>, id: Name, i: int)
    requires
        0 <= i < terms.len(),
        terms[i].0@ == id,
    ensures
        bound_terms(terms).contains_key(id),
        (forall|j: int| i < j < terms.len() ==> (#[trigger] terms[j]).0@ != id) ==> bound_terms(
            terms,
        )[id] == terms[i].1,
    decreases terms.len(),
{
    let init = terms.drop_last();
    let last = terms.len() - 1;
    assert(terms.last() == terms[last]);
    assert(bound_terms(terms) == bound_terms(init).insert(terms[last].0@, terms[last].1));
    if i < last {
        assert(init[i] == terms[i]);
        lemma_bound_term(init, id, i);
        if forall|j: int| i < j < terms.len() ==> (#[trigger] terms[j]).0@ != id {
            assert(terms[last].0@ != id);
            assert forall|j: int| i < j < init.len() implies (#[trigger] init[j]).0@ != id by {
                assert(init[j] == terms[j]);
            }
        }
    }
}

/// A name that has no binding in a sequence of terms has no term.
proof fn lemma_no_bound_term(terms: Seq<(Ident, RichTerm)>, id: Name)
    requires
        forall|i: int| 0 <= i < terms.len() ==> (#[trigger] terms[i]).0@ != id,
    ensures
        !bound_terms(terms).contains_key(id),
    decreases terms.len(),
{
    if terms.len() > 0 {
        let init = terms.drop_last();
        let last = terms.len() - 1;
        assert(terms.last() == terms[last]);
        assert(terms[last].0@ != id);
        assert forall|i: int| 0 <= i < init.len() implies (#[trigger] init[i]).0@ != id by {
            assert(init[i] == terms[i]);
        }
        lemma_no_bound_term(init, id);
    }
}

/// Adding the fields of a record to a typing environment one after the other: no field adds
/// nothing, and one more field adds one binding, with the type that a let-binding of the field
/// would be given in non-strict mode, in the environment that has the fields before it.
pub proof fn law_env_fields(
    env: Map<Name, Ty>,
    fields: Seq<(Ident, RichTerm)>,
    id: Ident,
    t: RichTerm,
    table: Table,
)
    ensures
        with_fields(env, Seq::empty(), 0) == env,
        ({
            let before = with_fields(env, fields, 0);
            let ty = bound_ty(table, global_scope(before), t, false).1;
            with_fields(env, fields.push((id, t)), 0) == before.insert(id@, ty)
        }),
{
    lemma_env_fields(env, fields, id, t, table, 0);
}

/// The same, from a field on.
proof fn lemma_env_fields(
    env: Map<Name, Ty>,
    fields: Seq<(Ident, RichTerm)>,
    id: Ident,
    t: RichTerm,
    table: Table,
    i: int,
)
    requires
        0 <= i <= fields.len(),
    ensures
        ({
            let before = with_fields(env, fields, i);
            let ty = bound_ty(table, global_scope(before), t, false).1;
            with_fields(env, fields.push((id, t)), i) == before.insert(id@, ty)
        }),
    decreases fields.len() - i,
{
    let more = fields.push((id, t));
    if i < fields.len() {
        let (x, u) = fields[i];
        assert(more[i] == fields[i]);
        let ty = bound_ty(table, global_scope(env), u, false).1;
        lemma_env_fields(env.insert(x@, ty), fields, id, t, table, i + 1);
    } else {
        let ty = bound_ty(table, global_scope(env), t, false).1;
        assert(more[i] == (id, t));
        assert(with_fields(env.insert(id@, ty), more, i + 1) == env.insert(id@, ty));
    }
}

/// A term that is added to a typing environment alone is given the type that a let-binding would be
/// given in non-strict mode, or `Dyn` if that has variables or constants.
pub proof fn law_env_add(env: Map<Name, Ty>, rt: RichTerm, table: Table)
    ensures
        ({
            let ty = bound_ty(table, global_scope(env), rt, false).1;
            let added = apparent_plain_ty(apparent(*rt.term, Some(global_scope(env))));
            &&& is_plain(ty) ==> added == ty
            &&& !is_plain(ty) ==> added == Ty::Dyn
        }),
{
    lemma_only_env(rt, global_scope(env));
}

/// An apparent type that does not come from the environment has neither variables nor constants.
proof fn lemma_only_env(rt: RichTerm, scope: Scope)
    ensures
        ({
            let at = apparent(*rt.term, Some(scope));
            at is FromEnv || is_plain(apparent_ty(at))
        }),
    decreases rt,
{
    match *rt.term {
        Term::Promise(ty, _, _) => lemma_annotation_plain(ty),
        Term::MetaValue(meta) => match meta.types {
            Some(ctr) => lemma_annotation_plain(ctr.types),
            None => if meta.contracts@.len() > 0 {
                lemma_annotation_plain(meta.contracts@[0].types);
            } else {
                if let Some(v) = meta.value {
                    lemma_only_env(v, scope);
                }
            },
        },
        Term::List(_) => {
            assert(is_plain(Ty::Dyn));
        },
        _ => {},
    }
}

/// The fields of a recursive record are bound one after the other, each with the type of a binding
/// in the scope that has the fields before it.
pub proof fn law_bind_fields(
    table: Table,
    scope: Scope,
    strict: bool,
    fields: Seq<(Ident, RichTerm)>,
    id: Ident,
    t: RichTerm,
)
    ensures
        bind_fields(table, scope, strict, Seq::empty(), 0) == (table, scope),
        ({
            let (table2, scope2) = bind_fields(table, scope, strict, fields, 0);
            let (table3, ty) = bound_ty(table2, scope2, t, strict);
            bind_fields(table, scope, strict, fields.push((id, t)), 0) == (
                table3,
                with_local(scope2, id@, ty),
            )
        }),
{
    lemma_bind_fields(table, scope, strict, fields, id, t, 0);
}

/// The same, from a field on.
proof fn lemma_bind_fields(
    table: Table,
    scope: Scope,
    strict: bool,
    fields: Seq<(Ident, RichTerm)>,
    id: Ident,
    t: RichTerm,
    i: int,
)
    requires
        0 <= i <= fields.len(),
    ensures
        ({
            let (table2, scope2) = bind_fields(table, scope, strict, fields, i);
            let (table3, ty) = bound_ty(table2, scope2, t, strict);
            bind_fields(table, scope, strict, fields.push((id, t)), i) == (
                table3,
                with_local(scope2, id@, ty),
            )
        }),
    decreases fields.len() - i,
{
    let more = fields.push((id, t));
    if i < fields.len() {
        let (x, u) = fields[i];
        assert(more[i] == fields[i]);
        let (table2, ty) = bound_ty(table, scope, u, strict);
        lemma_bind_fields(table2, with_local(scope, x@, ty), strict, fields, id, t, i + 1);
    } else {
        let (table3, ty) = bound_ty(table, scope, t, strict);
        let inner = with_local(scope, id@, ty);
        assert(more[i] == (id, t));
        assert(bind_fields(table3, inner, strict, more, i + 1) == (table3, inner));
    }
}

/// A scope has the local name if there is one, and else the global one. The scope of a global
/// environment has its names only.
pub proof fn law_scope_lookup(scope: Scope, id: Name, global: Map<Name, Ty>)
    ensures
        scope.local.contains_key(id) ==> in_scope(scope, id) == Some(scope.local[id]),
        !scope.local.contains_key(id) && scope.global.contains_key(id) ==> in_scope(scope, id)
            == Some(scope.global[id]),
        !scope.local.contains_key(id) && !scope.global.contains_key(id) ==> in_scope(scope, id)
            is None,
        global_scope(global).global == global,
        !global_scope(global).local.contains_key(id),
{
}

/// A local binding leaves the global environment as it is.
pub proof fn law_local_global(scope: Scope, id: Name, ty: Ty)
    ensures
        with_local(scope, id, ty).global == scope.global,
        with_local(scope, id, ty).local == scope.local.insert(id, ty),
{
}

} // verus!
