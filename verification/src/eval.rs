//! Term environments.
use vstd::prelude::*;

use crate::identifier::Ident;
use crate::model::Name;
use crate::term::RichTerm;

verus! {

/// An environment of terms, such as the global environment that holds the builtin functions. Its
/// model maps each name to the term of its last binding.
#[derive(Debug, PartialEq)]
pub struct Environment {
    pub bindings: Vec<(Ident, RichTerm)>,
}

/// The terms that a sequence of bindings gives to names.
pub open spec fn bound_terms(bindings: Seq<(Ident, RichTerm)>) -> Map<Name, RichTerm>
    decreases bindings.len(),
{
    if bindings.len() == 0 {
        Map::empty()
    } else {
        let (id, term) = bindings.last();
        bound_terms(bindings.drop_last()).insert(id@, term)
    }
}

impl View for Environment {
    type V = Map<Name, RichTerm>;

    open spec fn view(&self) -> Map<Name, RichTerm> {
        bound_terms(self.bindings@)
    }
}

impl Environment {
    /// The empty environment.
    pub fn new() -> (res: Environment)
        ensures
            res@ == Map::<Name, RichTerm>::empty(),
    {
        Environment { bindings: Vec::new() }
    }

    /// Bind an identifier to a term.
    pub fn insert(&mut self, id: Ident, term: RichTerm)
        ensures
            final(self)@ == old(self)@.insert(id@, term),
    {
        self.bindings.push((id, term));
        assert(self.bindings@.drop_last() =~= old(self).bindings@);
    }
}

/// An error when building an environment.
#[derive(Debug, PartialEq)]
pub enum EnvBuildError {
    /// The term that should give the bindings is not a record.
    NotARecord(RichTerm),
}

} // verus!
