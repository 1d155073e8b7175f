//! Typing environments.
use vstd::prelude::*;
use std::rc::Rc;

use crate::identifier::Ident;
use crate::model::{Name, Ty};
use crate::typecheck::wrapper::{opt_ty, TypeWrapper};

verus! {

/// The bindings of an environment, the latest first.
#[derive(Debug, PartialEq)]
pub enum Bindings {
    Empty,
    Bind(Ident, TypeWrapper, Rc<Bindings>),
}

/// The types that bindings give to names: the latest binding of a name counts.
pub open spec fn bound(bindings: Bindings) -> Map<Name, Ty>
    decreases bindings,
{
    match bindings {
        Bindings::Empty => Map::empty(),
        Bindings::Bind(id, ty, rest) => bound(*rest).insert(id@, ty@),
    }
}

/// The typing environment: a map from identifiers to types. A clone shares the bindings of the
/// environment it comes from.
#[derive(Debug, PartialEq)]
pub struct Environment {
    bindings: Rc<Bindings>,
}

impl View for Environment {
    type V = Map<Name, Ty>;

    closed spec fn view(&self) -> Map<Name, Ty> {
        bound(*self.bindings)
    }
}

impl Clone for Environment {
    fn clone(&self) -> (res: Self)
        ensures
            res == *self,
    {
        Environment { bindings: self.bindings.clone() }
    }
}

/// The type that a map gives to a name.
pub open spec fn lookup(env: Map<Name, Ty>, id: Name) -> Option<Ty> {
    if env.contains_key(id) {
        Some(env[id])
    } else {
        None
    }
}

impl Environment {
    /// The empty environment.
    pub fn new() -> (res: Environment)
        ensures
            res@ == Map::<Name, Ty>::empty(),
    {
        Environment { bindings: Rc::new(Bindings::Empty) }
    }

    /// Bind an identifier to a type, in place of its current type if it has one.
    pub fn insert(&mut self, id: Ident, ty: TypeWrapper)
        ensures
            final(self)@ == old(self)@.insert(id@, ty@),
    {
        self.bindings = Rc::new(Bindings::Bind(id, ty, self.bindings.clone()));
    }

    /// The type of an identifier.
    pub fn get(&self, id: &Ident) -> (res: Option<TypeWrapper>)
        ensures
            opt_ty(res) == lookup(self@, id@),
    {
        let mut curr: &Bindings = &*self.bindings;
        loop
            invariant
                lookup(self@, id@) == lookup(bound(*curr), id@),
            decreases curr,
        {
            match curr {
                Bindings::Empty => {
                    return None;
                },
                Bindings::Bind(id2, ty, rest) => {
                    if id2.same(id) {
                        return Some(ty.clone());
                    }
                    curr = &**rest;
                },
            }
        }
    }
}

} // verus!
