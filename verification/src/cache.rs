//! Resolution of imports.
use vstd::prelude::*;
use std::collections::HashMap;

use crate::position::FileId;
use crate::term::RichTerm;

verus! {

/// Gives access to the terms of the imports that have been resolved.
pub trait ImportResolver {
    /// The terms of the resolved imports.
    spec fn terms(&self) -> Map<FileId, RichTerm>;

    /// The term of a resolved import.
    fn get(&self, file_id: FileId) -> (res: Option<RichTerm>)
        ensures
            res == (if self.terms().contains_key(file_id) {
                Some(self.terms()[file_id])
            } else {
                None
            }),
    ;
}

/// The imports that have been resolved so far, with their terms.
pub struct ImportTable {
    terms: HashMap<FileId, RichTerm>,
}

impl ImportTable {
    /// No resolved import.
    pub fn new() -> (res: ImportTable)
        ensures
            res.terms() == Map::<FileId, RichTerm>::empty(),
    {
        ImportTable { terms: HashMap::new() }
    }

    /// Record the term of a resolved import.
    pub fn insert(&mut self, file_id: FileId, term: RichTerm)
        ensures
            final(self).terms() == old(self).terms().insert(file_id, term),
    {
        broadcast use vstd::std_specs::hash::group_hash_axioms;

        self.terms.insert(file_id, term);
    }
}

impl ImportResolver for ImportTable {
    closed spec fn terms(&self) -> Map<FileId, RichTerm> {
        self.terms@
    }

    fn get(&self, file_id: FileId) -> (res: Option<RichTerm>) {
        broadcast use vstd::std_specs::hash::group_hash_axioms;

        match self.terms.get(&file_id) {
            Some(term) => Some(term.clone()),
            None => None,
        }
    }
}

} // verus!
