//! Output-name resolution: final output names are collected
//! deterministically, and a collision is resolved by prefixing `right.`
//! and retrying — the rule shared by the join and window output schemas.

use vstd::prelude::*;
use vstd::string::*;

verus! {

/// Whether `s` occurs among `names`.
pub open spec fn contains_str(names: Seq<Seq<char>>, s: Seq<char>) -> bool {
    exists|i: int| 0 <= i < names.len() && names[i] == s
}

/// `base` with `k` copies of the collision prefix in front.
pub open spec fn prefixed(k: int, base: Seq<char>) -> Seq<char>
    decreases k,
{
    if k <= 0 {
        base
    } else {
        "right."@ + prefixed(k - 1, base)
    }
}

/// `r` is the first prefixed form of `base` that is free among `taken`.
pub open spec fn renamed_ok(taken: Seq<Seq<char>>, base: Seq<char>, r: Seq<char>) -> bool {
    exists|k: int|
        0 <= k && r == #[trigger] prefixed(k, base) && !contains_str(taken, r) && (forall|k2: int|
            0 <= k2 < k ==> contains_str(taken, prefixed(k2, base)))
}

/// The longest name in the set (zero when empty).
pub open spec fn max_name_len(names: Seq<Seq<char>>) -> int
    decreases names.len(),
{
    if names.len() == 0 {
        0
    } else if names.last().len() as int > max_name_len(names.drop_last()) {
        names.last().len() as int
    } else {
        max_name_len(names.drop_last())
    }
}

pub proof fn lemma_contained_len(names: Seq<Seq<char>>, s: Seq<char>)
    requires
        contains_str(names, s),
    ensures
        s.len() <= max_name_len(names),
    decreases names.len(),
{
    if names.len() > 0 {
        if names.last() == s {
        } else {
            let i = choose|i: int| 0 <= i < names.len() && names[i] == s;
            assert(names.drop_last()[i] == s);
            lemma_contained_len(names.drop_last(), s);
        }
    }
}

/// Whether `s` occurs among the views of `names`.
pub open spec fn views_of(names: Seq<String>) -> Seq<Seq<char>> {
    names.map(|_i: int, s: String| s@)
}

/// Linear membership scan over the names placed so far.
pub fn names_contain(names: &Vec<String>, s: &String) -> (r: bool)
    ensures
        r == contains_str(views_of(names@), s@),
{
    let n = names.len();
    let mut i: usize = 0;
    while i < n
        invariant
            n == names@.len(),
            0 <= i <= n,
            forall|a: int| 0 <= a < i ==> views_of(names@)[a] != s@,
        decreases n - i,
    {
        if names[i].eq(s) {
            proof {
                assert(views_of(names@)[i as int] == s@);
            }
            return true;
        }
        proof {
            assert(views_of(names@)[i as int] == names@[i as int]@);
        }
        i = i + 1;
    }
    false
}

/// Resolves a name against the set of names already placed: the name
/// itself when free, otherwise the first `right.`-prefixed form that is.
pub fn resolve_name(taken: &Vec<String>, base: &String) -> (r: String)
    ensures
        renamed_ok(views_of(taken@), base@, r@),
        !contains_str(views_of(taken@), r@),
{
    let mut curr: String = base.clone();
    let ghost mut k: int = 0;
    while names_contain(taken, &curr)
        invariant
            k >= 0,
            curr@ == prefixed(k, base@),
            forall|k2: int| 0 <= k2 < k ==> contains_str(views_of(taken@), prefixed(k2, base@)),
        decreases (if max_name_len(views_of(taken@)) + 1 - curr@.len() < 0 {
            0int
        } else {
            max_name_len(views_of(taken@)) + 1 - curr@.len()
        }),
    {
        proof {
            lemma_contained_len(views_of(taken@), curr@);
            reveal_strlit("right.");
        }
        let mut next = String::from_str("right.");
        next.append(curr.as_str());
        proof {
            assert(next@ == prefixed(k + 1, base@));
            assert(next@.len() == curr@.len() + 6);
        }
        curr = next;
        proof {
            k = k + 1;
        }
    }
    proof {
        assert(renamed_ok(views_of(taken@), base@, curr@));
    }
    curr
}

/// Views of the first `m` names.
pub open spec fn views_of_prefix(names: Seq<String>, m: int) -> Seq<Seq<char>> {
    Seq::new(m as nat, |i: int| names[i]@)
}

/// Membership scan over the first `m` names only.
pub fn names_contain_prefix(names: &Vec<String>, m: usize, s: &String) -> (r: bool)
    requires
        m <= names@.len(),
    ensures
        r == contains_str(views_of_prefix(names@, m as int), s@),
{
    let mut i: usize = 0;
    while i < m
        invariant
            m <= names@.len(),
            0 <= i <= m,
            forall|a: int| 0 <= a < i ==> views_of_prefix(names@, m as int)[a] != s@,
        decreases m - i,
    {
        if names[i].eq(s) {
            proof {
                assert(views_of_prefix(names@, m as int)[i as int] == s@);
            }
            return true;
        }
        proof {
            assert(views_of_prefix(names@, m as int)[i as int] == names@[i as int]@);
        }
        i = i + 1;
    }
    false
}


} // verus!
