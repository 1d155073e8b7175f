//! Identifiers and sets of identifiers.
use vstd::prelude::*;
use vstd::string::*;

verus! {

/// An identifier. Its model is the sequence of characters of its name: two identifiers are the
/// same when they are spelled the same.
#[derive(Debug, PartialEq, Eq, PartialOrd, Ord, Hash)]
pub struct Ident(pub String);

impl View for Ident {
    type V = Seq<char>;

    open spec fn view(&self) -> Seq<char> {
        self.0@
    }
}

impl Clone for Ident {
    fn clone(&self) -> (res: Self)
        ensures
            res == *self,
    {
        Ident(self.0.clone())
    }
}

impl Ident {
    /// The identifier with the given spelling.
    pub fn new(name: &str) -> (res: Ident)
        ensures
            res@ == name@,
    {
        Ident(String::from_str(name))
    }

    /// Whether two identifiers are spelled the same.
    pub fn same(&self, other: &Ident) -> (res: bool)
        ensures
            res == (self@ == other@),
    {
        self.0 == other.0
    }
}

/// The spellings of a sequence of identifiers.
pub open spec fn spellings(ids: Seq<Ident>) -> Set<Seq<char>>
    decreases ids.len(),
{
    if ids.len() == 0 {
        Set::empty()
    } else {
        spellings(ids.drop_last()).insert(ids.last()@)
    }
}

/// A finite set of identifiers. Its model is the set of their spellings; no spelling is stored
/// twice.
#[derive(Debug, PartialEq)]
pub struct IdentSet {
    elems: Vec<Ident>,
}

impl View for IdentSet {
    type V = Set<Seq<char>>;

    closed spec fn view(&self) -> Set<Seq<char>> {
        spellings(self.elems@)
    }
}

impl IdentSet {
    /// No spelling occurs twice.
    #[verifier::type_invariant]
    spec fn distinct(self) -> bool {
        forall|i: int, j: int|
            0 <= i < j < self.elems@.len() ==> self.elems@[i]@ != self.elems@[j]@
    }

    /// The empty set.
    pub fn new() -> (res: IdentSet)
        ensures
            res@ == Set::<Seq<char>>::empty(),
    {
        IdentSet { elems: Vec::new() }
    }

    /// Membership.
    pub fn contains(&self, id: &Ident) -> (res: bool)
        ensures
            res == self@.contains(id@),
    {
        let mut i: usize = 0;
        proof {
            lemma_spellings(self.elems@);
        }
        while i < self.elems.len()
            invariant
                i <= self.elems@.len(),
                forall|s: Seq<char>|
                    self@.contains(s) <==> exists|k: int|
                        0 <= k < self.elems@.len() && #[trigger] self.elems@[k]@ == s,
                forall|k: int| 0 <= k < i ==> #[trigger] self.elems@[k]@ != id@,
            decreases self.elems@.len() - i,
        {
            if self.elems[i].same(id) {
                return true;
            }
            i += 1;
        }
        false
    }

    /// Whether the set has no element.
    pub fn is_empty(&self) -> (res: bool)
        ensures
            res == (self@ == Set::<Seq<char>>::empty()),
    {
        proof {
            if self.elems@.len() > 0 {
                assert(self@.contains(self.elems@.last()@));
            }
        }
        self.elems.len() == 0
    }

    /// Add an identifier.
    pub fn insert(&mut self, id: Ident)
        ensures
            final(self)@ == old(self)@.insert(id@),
    {
        proof {
            use_type_invariant(&*self);
        }
        if self.contains(&id) {
            assert(self@ =~= old(self)@.insert(id@));
            return;
        }
        let ghost before = self.elems@;
        proof {
            lemma_spellings(before);
        }
        let mut elems: Vec<Ident> = Vec::new();
        std::mem::swap(&mut elems, &mut self.elems);
        elems.push(id);
        assert(elems@.drop_last() =~= before);
        assert(forall|k: int| 0 <= k < before.len() ==> #[trigger] before[k]@ != id@);
        assert forall|i: int, j: int| 0 <= i < j < elems@.len() implies elems@[i]@
            != elems@[j]@ by {
            assert(elems@[i] == before[i]);
        }
        *self = IdentSet { elems };
    }

    /// Add all the identifiers of another set.
    pub fn extend(&mut self, other: &IdentSet)
        ensures
            final(self)@ == old(self)@.union(other@),
    {
        let mut i: usize = 0;
        assert(other.elems@.take(0) =~= Seq::<Ident>::empty());
        assert(self@ =~= old(self)@.union(spellings(other.elems@.take(0))));
        while i < other.elems.len()
            invariant
                i <= other.elems@.len(),
                self@ == old(self)@.union(spellings(other.elems@.take(i as int))),
            decreases other.elems@.len() - i,
        {
            let ghost cur = self@;
            self.insert(other.elems[i].clone());
            proof {
                let next = other.elems@.take(i as int + 1);
                assert(next.drop_last() =~= other.elems@.take(i as int));
                assert(next.last() == other.elems@[i as int]);
                assert(self@ =~= old(self)@.union(spellings(next)));
            }
            i += 1;
        }
        assert(other.elems@.take(i as int) =~= other.elems@);
    }

    /// The number of elements.
    pub fn len(&self) -> (res: usize)
        ensures
            self@.finite(),
            res == self@.len(),
    {
        proof {
            use_type_invariant(self);
            lemma_spellings_len(self.elems@);
        }
        self.elems.len()
    }
}

impl Clone for IdentSet {
    /// A copy of the set.
    fn clone(&self) -> (res: IdentSet)
        ensures
            res@ == self@,
    {
        let mut copy = IdentSet::new();
        copy.extend(self);
        assert(copy@ =~= self@);
        copy
    }
}

/// A spelling is in the set of spellings of a sequence when some identifier of it is spelled so.
proof fn lemma_spellings(ids: Seq<Ident>)
    ensures
        forall|s: Seq<char>|
            spellings(ids).contains(s) <==> exists|k: int|
                0 <= k < ids.len() && #[trigger] ids[k]@ == s,
    decreases ids.len(),
{
    if ids.len() > 0 {
        let init = ids.drop_last();
        lemma_spellings(init);
        assert forall|s: Seq<char>|
            spellings(ids).contains(s) <==> exists|k: int|
                0 <= k < ids.len() && #[trigger] ids[k]@ == s by {
            if spellings(ids).contains(s) {
                if s == ids.last()@ {
                    assert(ids[ids.len() - 1]@ == s);
                } else {
                    assert(spellings(init).contains(s));
                    let k = choose|k: int| 0 <= k < init.len() && #[trigger] init[k]@ == s;
                    assert(ids[k]@ == s);
                }
            }
            if exists|k: int| 0 <= k < ids.len() && #[trigger] ids[k]@ == s {
                let k = choose|k: int| 0 <= k < ids.len() && #[trigger] ids[k]@ == s;
                if k < ids.len() - 1 {
                    assert(init[k]@ == s);
                    assert(spellings(init).contains(s));
                }
            }
        }
    }
}

/// Distinct identifiers are as many as their spellings.
proof fn lemma_spellings_len(ids: Seq<Ident>)
    requires
        forall|i: int, j: int| 0 <= i < j < ids.len() ==> ids[i]@ != ids[j]@,
    ensures
        spellings(ids).finite(),
        spellings(ids).len() == ids.len(),
    decreases ids.len(),
{
    if ids.len() > 0 {
        let init = ids.drop_last();
        lemma_spellings_len(init);
        lemma_spellings(init);
        if spellings(init).contains(ids.last()@) {
            let k = choose|k: int| 0 <= k < init.len() && #[trigger] init[k]@ == ids.last()@;
            assert(ids[k]@ == ids[ids.len() - 1]@);
        }
    }
}

} // verus!
