//! Unique names for unification variables and type constants.
use vstd::prelude::*;
use vstd::set_lib::*;
use vstd::string::*;

use crate::identifier::{Ident, IdentSet};
use crate::model::Name;

verus! {

/// The letters that names are made of.
pub open spec fn letters() -> Name {
    "abcdefghijklmnopqrstuvwxyz"@
}

/// The `k`-th letter, as a name.
pub open spec fn letter(k: nat) -> Name {
    letters().subrange(k as int, k as int + 1)
}

/// The decimal digits.
pub open spec fn digits() -> Name {
    "0123456789"@
}

/// The decimal representation of a number.
pub open spec fn decimal(n: nat) -> Name
    decreases n,
{
    if n < 10 {
        digits().subrange(n as int, n as int + 1)
    } else {
        decimal(n / 10) + digits().subrange((n % 10) as int, (n % 10) as int + 1)
    }
}

/// The `k`-th letter, as a name.
pub fn mk_letter(k: usize) -> (res: String)
    requires
        k < 26,
    ensures
        res@ == letter(k as nat),
{
    proof {
        reveal_strlit("abcdefghijklmnopqrstuvwxyz");
    }
    let all: &str = "abcdefghijklmnopqrstuvwxyz";
    String::from_str(all.substring_char(k, k + 1))
}

/// The decimal representation of a number.
pub fn mk_decimal(n: u128) -> (res: String)
    ensures
        res@ == decimal(n as nat),
    decreases n,
{
    proof {
        reveal_strlit("0123456789");
    }
    let all: &str = "0123456789";
    let last: usize = (n % 10) as usize;
    let digit = all.substring_char(last, last + 1);
    if n < 10 {
        String::from_str(digit)
    } else {
        let mut res = mk_decimal(n / 10);
        res.append(digit);
        res
    }
}

/// The digits are distinct.
proof fn lemma_digits()
    ensures
        digits().len() == 10,
        forall|i: int, j: int| 0 <= i < j < 10 ==> digits()[i] != digits()[j],
{
    reveal_strlit("0123456789");
    assert forall|i: int| 0 <= i < 10 implies #[trigger] digits()[i] as int == 48 + i by {
        assert(i == 0 || i == 1 || i == 2 || i == 3 || i == 4 || i == 5 || i == 6 || i == 7 || i
            == 8 || i == 9);
    }
}

/// Distinct numbers have distinct decimal representations.
pub proof fn lemma_decimal_injective(a: nat, b: nat)
    requires
        decimal(a) == decimal(b),
    ensures
        a == b,
    decreases a,
{
    lemma_digits();
    lemma_decimal_nonempty(a);
    lemma_decimal_nonempty(b);
    assert(decimal(a).last() == digits()[(a % 10) as int]);
    assert(decimal(b).last() == digits()[(b % 10) as int]);
    assert(a % 10 == b % 10);
    if a >= 10 {
        lemma_decimal_nonempty(a / 10);
        assert(decimal(a).len() >= 2);
        if b >= 10 {
            assert(decimal(a).drop_last() =~= decimal(a / 10));
            assert(decimal(b).drop_last() =~= decimal(b / 10));
            lemma_decimal_injective(a / 10, b / 10);
        }
    } else if b >= 10 {
        lemma_decimal_nonempty(b / 10);
    }
}

/// A decimal representation has at least one digit.
proof fn lemma_decimal_nonempty(n: nat)
    ensures
        decimal(n).len() >= 1,
    decreases n,
{
    lemma_digits();
    if n >= 10 {
        lemma_decimal_nonempty(n / 10);
    }
}

/// Whether `k` is the first of `1`, `2`, .. that makes a name a free one as its suffix.
pub open spec fn is_first_free(taken: Set<Name>, name: Name, k: nat) -> bool {
    &&& k >= 1
    &&& !taken.contains(name + decimal(k))
    &&& forall|j: nat| 1 <= j < k ==> taken.contains(name + #[trigger] decimal(j))
}

/// A name that is not taken: the given one if it is free, and else the given one with the first of
/// the suffixes `1`, `2`, .. that makes it a free one.
pub open spec fn uniq_name(taken: Set<Name>, name: Name) -> Name {
    if taken.contains(name) {
        name + decimal(choose|k: nat| is_first_free(taken, name, k))
    } else {
        name
    }
}

/// The names that the suffixes `1`, .., `k` make.
pub open spec fn suffixed(name: Name, k: nat) -> Set<Name>
    decreases k,
{
    if k == 0 {
        Set::empty()
    } else {
        suffixed(name, (k - 1) as nat).insert(name + decimal(k))
    }
}

/// Distinct suffixes make distinct names.
proof fn lemma_suffixed(name: Name, k: nat)
    ensures
        suffixed(name, k).finite(),
        suffixed(name, k).len() == k,
        forall|s: Name|
            suffixed(name, k).contains(s) <==> exists|j: nat|
                1 <= j <= k && s == name + #[trigger] decimal(j),
    decreases k,
{
    if k > 0 {
        let init = suffixed(name, (k - 1) as nat);
        lemma_suffixed(name, (k - 1) as nat);
        let s = name + decimal(k);
        if init.contains(s) {
            let j = choose|j: nat| 1 <= j <= k - 1 && s == name + #[trigger] decimal(j);
            assert((name + decimal(j)).subrange(name.len() as int, s.len() as int) =~= decimal(j));
            assert((name + decimal(k)).subrange(name.len() as int, s.len() as int) =~= decimal(k));
            lemma_decimal_injective(j, k);
        }
        assert forall|s: Name|
            suffixed(name, k).contains(s) <==> exists|j: nat|
                1 <= j <= k && s == name + #[trigger] decimal(j) by {
            if suffixed(name, k).contains(s) {
                if s == name + decimal(k) {
                } else {
                    assert(init.contains(s));
                    let j = choose|j: nat| 1 <= j <= k - 1 && s == name + #[trigger] decimal(j);
                    assert(s == name + decimal(j));
                }
            }
            if exists|j: nat| 1 <= j <= k && s == name + #[trigger] decimal(j) {
                let j = choose|j: nat| 1 <= j <= k && s == name + #[trigger] decimal(j);
                if j < k {
                    assert(init.contains(s));
                }
            }
        }
    }
}

/// A finite set of names that has all the names that the suffixes `1`, .., `k` make has at least
/// `k` names.
proof fn lemma_taken_suffixes(taken: Set<Name>, name: Name, k: nat)
    requires
        taken.finite(),
        forall|j: nat| 1 <= j <= k ==> taken.contains(name + #[trigger] decimal(j)),
    ensures
        k <= taken.len(),
{
    lemma_suffixed(name, k);
    assert(suffixed(name, k).subset_of(taken)) by {
        assert forall|s: Name| suffixed(name, k).contains(s) implies taken.contains(s) by {
            let j = choose|j: nat| 1 <= j <= k && s == name + #[trigger] decimal(j);
            assert(taken.contains(name + decimal(j)));
        }
    }
    lemma_len_subset(suffixed(name, k), taken);
}

/// There is one first free suffix.
pub proof fn lemma_first_free_unique(taken: Set<Name>, name: Name, j: nat, k: nat)
    requires
        is_first_free(taken, name, j),
        is_first_free(taken, name, k),
    ensures
        j == k,
{
    if j < k {
        assert(taken.contains(name + decimal(j)));
    } else if k < j {
        assert(taken.contains(name + decimal(k)));
    }
}

/// Find a name that is not taken, starting from a candidate.
pub fn find_uniq_name(taken: &IdentSet, name: Ident) -> (res: Ident)
    ensures
        res@ == uniq_name(taken@, name@),
        !taken@.contains(res@),
{
    if !taken.contains(&name) {
        return name;
    }
    // To avoid clashing with already picked names, we add a numeric suffix to the picked letter.
    let mut suffix: u128 = 1;
    let bound: usize = taken.len();
    loop
        invariant
            1 <= suffix <= bound + 1,
            taken@.finite(),
            bound == taken@.len(),
            taken@.contains(name@),
            forall|j: nat| 1 <= j < suffix ==> taken@.contains(name@ + #[trigger] decimal(j)),
        decreases bound + 1 - suffix,
    {
        let mut candidate = name.0.clone();
        candidate.append(mk_decimal(suffix).as_str());
        let candidate = Ident(candidate);
        if !taken.contains(&candidate) {
            proof {
                assert(is_first_free(taken@, name@, suffix as nat));
                lemma_first_free_unique(
                    taken@,
                    name@,
                    suffix as nat,
                    choose|k: nat| is_first_free(taken@, name@, k),
                );
            }
            return candidate;
        }
        proof {
            assert forall|j: nat| 1 <= j <= suffix implies taken@.contains(
                name@ + #[trigger] decimal(j),
            ) by {}
            lemma_taken_suffixes(taken@, name@, suffix as nat);
        }
        suffix += 1;
    }
}

/// The name that is found is not taken.
pub proof fn lemma_uniq_name_free(taken: Set<Name>, name: Name)
    requires
        taken.finite(),
    ensures
        !taken.contains(uniq_name(taken, name)),
{
    if taken.contains(name) {
        if forall|k: nat| k >= 1 ==> taken.contains(name + #[trigger] decimal(k)) {
            lemma_taken_suffixes(taken, name, taken.len() + 1);
        }
        let k = choose|k: nat| k >= 1 && !taken.contains(name + #[trigger] decimal(k));
        lemma_first_free_below(taken, name, k);
    }
}

/// Below a free suffix there is a first one.
proof fn lemma_first_free_below(taken: Set<Name>, name: Name, k: nat)
    requires
        k >= 1,
        !taken.contains(name + decimal(k)),
    ensures
        exists|j: nat| is_first_free(taken, name, j),
    decreases k,
{
    if !is_first_free(taken, name, k) {
        let j = choose|j: nat| 1 <= j < k && !taken.contains(name + #[trigger] decimal(j));
        lemma_first_free_below(taken, name, j);
    }
}

} // verus!
