//! Lookup in association lists keyed by strings. Configuration tables
//! (environments, toolchains, formats, variables) use first-match lookup;
//! the cache store uses last-match lookup so that insertion is an append.

use vstd::prelude::*;
use crate::text::{str_chars, string_eq_chars};

verus! {

/// First entry whose key equals `key`, scanning front to back.
pub open spec fn assoc_get<T>(pairs: Seq<(String, T)>, key: Seq<char>) -> Option<T>
    decreases pairs.len(),
{
    if pairs.len() == 0 {
        None
    } else if pairs[0].0@ == key {
        Some(pairs[0].1)
    } else {
        assoc_get(pairs.drop_first(), key)
    }
}

/// Last entry whose key equals `key`, scanning back to front.
pub open spec fn store_get<T>(pairs: Seq<(String, T)>, key: Seq<char>) -> Option<T>
    decreases pairs.len(),
{
    if pairs.len() == 0 {
        None
    } else if pairs.last().0@ == key {
        Some(pairs.last().1)
    } else {
        store_get(pairs.drop_last(), key)
    }
}

proof fn lemma_assoc_get_skip<T>(pairs: Seq<(String, T)>, key: Seq<char>, i: int)
    requires
        0 <= i <= pairs.len(),
        forall|j: int| 0 <= j < i ==> pairs[j].0@ != key,
    ensures
        assoc_get(pairs, key) == assoc_get(pairs.skip(i), key),
    decreases i,
{
    if i > 0 {
        assert(pairs[0].0@ != key);
        lemma_assoc_get_skip(pairs.drop_first(), key, i - 1);
        assert(pairs.drop_first().skip(i - 1) =~= pairs.skip(i));
    } else {
        assert(pairs.skip(0) =~= pairs);
    }
}

/// First-match lookup, returning a reference to the value.
pub fn assoc_find<'a, T>(pairs: &'a Vec<(String, T)>, key: &str) -> (r: Option<&'a T>)
    ensures
        match r {
            Some(v) => assoc_get(pairs@, key@) == Some(*v),
            None => assoc_get(pairs@, key@) is None,
        },
{
    let kc = str_chars(key);
    assoc_find_chars(pairs, &kc)
}

/// First-match lookup with the key given as characters.
pub fn assoc_find_chars<'a, T>(pairs: &'a Vec<(String, T)>, key: &Vec<char>) -> (r: Option<&'a T>)
    ensures
        match r {
            Some(v) => assoc_get(pairs@, key@) == Some(*v),
            None => assoc_get(pairs@, key@) is None,
        },
{
    let n = pairs.len();
    let mut i: usize = 0;
    while i < n
        invariant
            i <= n,
            n == pairs@.len(),
            forall|j: int| 0 <= j < i ==> pairs@[j].0@ != key@,
        decreases n - i,
    {
        if string_eq_chars(&pairs[i].0, key) {
            proof {
                lemma_assoc_get_skip(pairs@, key@, i as int);
                assert(pairs@.skip(i as int)[0] == pairs@[i as int]);
            }
            return Some(&pairs[i].1);
        }
        i += 1;
    }
    proof {
        lemma_assoc_get_skip(pairs@, key@, n as int);
        assert(pairs@.skip(n as int) =~= Seq::<(String, T)>::empty());
    }
    None
}

/// Last-match lookup, returning a reference to the value.
pub fn store_find<'a, T>(pairs: &'a Vec<(String, T)>, key: &str) -> (r: Option<&'a T>)
    ensures
        match r {
            Some(v) => store_get(pairs@, key@) == Some(*v),
            None => store_get(pairs@, key@) is None,
        },
{
    let kc = str_chars(key);
    let mut i: usize = pairs.len();
    proof {
        assert(pairs@.take(i as int) =~= pairs@);
    }
    while i > 0
        invariant
            i <= pairs@.len(),
            kc@ == key@,
            store_get(pairs@, key@) == store_get(pairs@.take(i as int), key@),
        decreases i,
    {
        proof {
            assert(pairs@.take(i as int).last() == pairs@[i - 1]);
            assert(pairs@.take(i as int).drop_last() =~= pairs@.take(i as int - 1));
        }
        if string_eq_chars(&pairs[i - 1].0, &kc) {
            return Some(&pairs[i - 1].1);
        }
        i -= 1;
    }
    proof {
        assert(pairs@.take(0) =~= Seq::<(String, T)>::empty());
    }
    None
}

} // verus!
