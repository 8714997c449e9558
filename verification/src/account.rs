//! Account identities and the small collections keyed by them.
//!
//! An account is an identity string. Sets of accounts and maps from accounts
//! are kept in vectors whose entries are pairwise distinct; their meaning is
//! given by [`account_set`] and [`stake_map`].

use vstd::prelude::*;

verus! {

/// One of the three characters that separate the parts of an account id.
pub open spec fn is_separator(c: char) -> bool {
    c == '-' || c == '_' || c == '.'
}

/// A lower-case letter or a digit.
pub open spec fn is_plain_char(c: char) -> bool {
    ('a' <= c && c <= 'z') || ('0' <= c && c <= '9')
}

/// The well-formed account ids: 2 to 64 characters, each a lower-case letter,
/// a digit or a separator, with no separator first, last, or next to another.
pub open spec fn valid_account_id(s: Seq<char>) -> bool {
    &&& 2 <= s.len() <= 64
    &&& forall|i: int| 0 <= i < s.len() ==> is_plain_char(#[trigger] s[i]) || is_separator(s[i])
    &&& !is_separator(s[0])
    &&& !is_separator(s[s.len() - 1])
    &&& forall|i: int| 0 <= i < s.len() - 1 ==> !(is_separator(#[trigger] s[i]) && is_separator(s[i + 1]))
}

/// Calls `near_account_id::AccountId::validate` and reports whether it
/// accepted the string. Trusted: the result is claimed to be exactly
/// [`valid_account_id`], which restates the length bounds and the character
/// and separator rules that the validator applies.
#[verifier::external_body]
pub(crate) fn validate_account_id(s: &str) -> (ok: bool)
    ensures
        ok == valid_account_id(s@),
{
    near_account_id::AccountId::validate(s).is_ok()
}

/// Whether `s` is a well-formed account id.
pub fn is_valid_account(s: &str) -> (ok: bool)
    ensures
        ok == valid_account_id(s@),
{
    validate_account_id(s)
}

/// Whether every entry of `names` is a well-formed account id.
pub open spec fn all_valid(names: Seq<String>) -> bool {
    forall|i: int| 0 <= i < names.len() ==> valid_account_id(#[trigger] names[i]@)
}

/// Checks every entry of `names` against the account id rules.
pub fn all_valid_accounts(names: &Vec<String>) -> (ok: bool)
    ensures
        ok == all_valid(names@),
{
    let mut i: usize = 0;
    while i < names.len()
        invariant
            i <= names.len(),
            forall|j: int| 0 <= j < i ==> valid_account_id(#[trigger] names@[j]@),
        decreases names.len() - i,
    {
        if !validate_account_id(names[i].as_str()) {
            return false;
        }
        i += 1;
    }
    true
}

/// The set of accounts that a vector of names stands for.
pub open spec fn account_set(names: Seq<String>) -> Set<Seq<char>> {
    Set::new(|a: Seq<char>| exists|i: int| 0 <= i < names.len() && #[trigger] names[i]@ == a)
}

/// No account occurs twice in `names`.
pub open spec fn distinct_accounts(names: Seq<String>) -> bool {
    forall|i: int, j: int|
        0 <= i < names.len() && 0 <= j < names.len() && i != j ==> #[trigger] names[i]@
            != #[trigger] names[j]@
}

/// Whether no account occurs twice in `names`.
pub fn accounts_are_distinct(names: &Vec<String>) -> (ok: bool)
    ensures
        ok == distinct_accounts(names@),
{
    let mut i: usize = 0;
    while i < names.len()
        invariant
            i <= names.len(),
            forall|a: int, b: int| 0 <= a < b < i ==> #[trigger] names@[a]@ != #[trigger] names@[b]@,
        decreases names.len() - i,
    {
        let mut j: usize = 0;
        while j < i
            invariant
                j <= i,
                i < names.len(),
                forall|a: int| 0 <= a < j ==> #[trigger] names@[a]@ != names@[i as int]@,
            decreases i - j,
        {
            if names[j] == names[i] {
                return false;
            }
            j += 1;
        }
        i += 1;
    }
    assert forall|a: int, b: int|
        0 <= a < names@.len() && 0 <= b < names@.len() && a != b implies #[trigger] names@[a]@
        != #[trigger] names@[b]@ by {
        if b < a {
            assert(names@[b]@ != names@[a]@);
        }
    }
    true
}

/// No key occurs twice in `entries`.
pub open spec fn distinct_keys<T>(entries: Seq<(String, T)>) -> bool {
    forall|i: int, j: int|
        0 <= i < entries.len() && 0 <= j < entries.len() && i != j ==> (#[trigger] entries[i]).0@
            != (#[trigger] entries[j]).0@
}

/// Whether no key occurs twice in `entries`.
pub fn keys_are_distinct<T>(entries: &Vec<(String, T)>) -> (ok: bool)
    ensures
        ok == distinct_keys(entries@),
{
    let mut i: usize = 0;
    while i < entries.len()
        invariant
            i <= entries.len(),
            forall|a: int, b: int|
                0 <= a < b < i ==> (#[trigger] entries@[a]).0@ != (#[trigger] entries@[b]).0@,
        decreases entries.len() - i,
    {
        let mut j: usize = 0;
        while j < i
            invariant
                j <= i,
                i < entries.len(),
                forall|a: int| 0 <= a < j ==> (#[trigger] entries@[a]).0@ != entries@[i as int].0@,
            decreases i - j,
        {
            if entries[j].0 == entries[i].0 {
                return false;
            }
            j += 1;
        }
        i += 1;
    }
    assert forall|a: int, b: int|
        0 <= a < entries@.len() && 0 <= b < entries@.len() && a != b implies (
    #[trigger] entries@[a]).0@ != (#[trigger] entries@[b]).0@ by {
        if b < a {
            assert(entries@[b].0@ != entries@[a].0@);
        }
    }
    true
}

/// The position of `name` in `names`, if it occurs there.
pub fn find_account(names: &Vec<String>, name: &String) -> (found: Option<usize>)
    ensures
        match found {
            Some(i) => i < names.len() && names@[i as int]@ == name@,
            None => !account_set(names@).contains(name@),
        },
{
    let mut i: usize = 0;
    while i < names.len()
        invariant
            i <= names.len(),
            forall|j: int| 0 <= j < i ==> #[trigger] names@[j]@ != name@,
        decreases names.len() - i,
    {
        if names[i] == *name {
            return Some(i);
        }
        i += 1;
    }
    None
}

/// Adds `name` to the set held in `names`; a name already there is not added
/// again.
pub fn insert_account(names: &mut Vec<String>, name: String)
    requires
        distinct_accounts(old(names)@),
    ensures
        distinct_accounts(final(names)@),
        account_set(final(names)@) == account_set(old(names)@).insert(name@),
        account_set(old(names)@).contains(name@) ==> final(names)@ == old(names)@,
        !account_set(old(names)@).contains(name@) ==> final(names)@ == old(names)@.push(name),
{
    let found = find_account(names, &name);
    if found.is_none() {
        let ghost before = names@;
        names.push(name);
        proof {
            assert forall|a: Seq<char>|
                account_set(names@).contains(a) == account_set(before).insert(name@).contains(
                    a,
                ) by {
                if account_set(names@).contains(a) {
                    let i = choose|i: int| 0 <= i < names@.len() && #[trigger] names@[i]@ == a;
                    if i < before.len() {
                        assert(before[i]@ == a);
                    }
                }
                if account_set(before).contains(a) {
                    let i = choose|i: int| 0 <= i < before.len() && #[trigger] before[i]@ == a;
                    assert(names@[i]@ == a);
                }
                if a == name@ {
                    assert(names@[before.len() as int]@ == a);
                }
            }
            assert(account_set(names@) =~= account_set(before).insert(name@));
        }
    } else {
        proof {
            assert(account_set(names@) =~= account_set(names@).insert(name@));
        }
    }
}

/// Takes `name` out of the set held in `names`; a name that is not there
/// leaves it as it was.
pub fn remove_account(names: &mut Vec<String>, name: &String)
    requires
        distinct_accounts(old(names)@),
    ensures
        distinct_accounts(final(names)@),
        account_set(final(names)@) == account_set(old(names)@).remove(name@),
        !account_set(old(names)@).contains(name@) ==> final(names)@ == old(names)@,
{
    let found = find_account(names, name);
    match found {
        Some(i) => {
            let ghost before = names@;
            names.remove(i);
            proof {
                let k = i as int;
                assert forall|a: Seq<char>|
                    account_set(names@).contains(a) == account_set(before).remove(name@).contains(
                        a,
                    ) by {
                    if account_set(names@).contains(a) {
                        let j = choose|j: int| 0 <= j < names@.len() && #[trigger] names@[j]@ == a;
                        if j < k {
                            assert(before[j]@ == a);
                        } else {
                            assert(before[j + 1]@ == a);
                        }
                    }
                    if account_set(before).contains(a) && a != name@ {
                        let j = choose|j: int| 0 <= j < before.len() && #[trigger] before[j]@ == a;
                        if j < k {
                            assert(names@[j]@ == a);
                        } else {
                            assert(names@[j - 1]@ == a);
                        }
                    }
                }
                assert(account_set(names@) =~= account_set(before).remove(name@));
                assert forall|x: int, y: int|
                    0 <= x < names@.len() && 0 <= y < names@.len() && x != y implies #[trigger] names@[x]@
                    != #[trigger] names@[y]@ by {
                    let x0 = if x < k { x } else { x + 1 };
                    let y0 = if y < k { y } else { y + 1 };
                    assert(names@[x] == before[x0]);
                    assert(names@[y] == before[y0]);
                }
            }
        },
        None => {
            proof {
                assert(account_set(names@) =~= account_set(names@).remove(name@));
            }
        },
    }
}

} // verus!
