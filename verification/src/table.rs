//! Tables keyed by name, kept as vectors of `(name, value)` pairs in which the
//! latest entry for a name is the one that counts.

use vstd::prelude::*;
use crate::text::str_is;

verus! {

/// The index of the latest entry stored under `key` in the table `s`.
pub open spec fn entry_index<V>(s: Seq<(String, V)>, key: Seq<char>) -> Option<int>
    decreases s.len(),
{
    if s.len() == 0 {
        None
    } else if s.last().0@ == key {
        Some(s.len() - 1)
    } else {
        entry_index(s.drop_last(), key)
    }
}

pub(crate) proof fn lemma_entry_index<V>(s: Seq<(String, V)>, key: Seq<char>)
    ensures
        entry_index(s, key) matches Some(i) ==> 0 <= i < s.len() && s[i].0@ == key,
        entry_index(s, key) is None ==> forall|j: int| 0 <= j < s.len() ==> s[j].0@ != key,
    decreases s.len(),
{
    if s.len() > 0 && s.last().0@ != key {
        lemma_entry_index(s.drop_last(), key);
        if entry_index(s, key) is None {
            assert forall|j: int| 0 <= j < s.len() implies s[j].0@ != key by {
                if j < s.len() - 1 {
                    assert(s[j] == s.drop_last()[j]);
                }
            }
        }
    }
}

/// The latest entry stored under `key` in the table `s`.
pub fn find_entry<V>(s: &Vec<(String, V)>, key: &str) -> (r: Option<usize>)
    ensures
        r matches Some(i) ==> entry_index(s@, key@) == Some(i as int),
        r is None ==> entry_index(s@, key@) is None,
{
    let mut i: usize = s.len();
    assert(s@.take(s@.len() as int) == s@);
    while i > 0
        invariant
            i <= s@.len(),
            entry_index(s@, key@) == entry_index(s@.take(i as int), key@),
        decreases i,
    {
        assert(s@.take(i as int).drop_last() == s@.take(i - 1));
        if str_is(&s[i - 1].0, key) {
            return Some(i - 1);
        }
        i -= 1;
    }
    None
}

/// The value stored under `key` in the table `s`.
pub open spec fn entry_value<V>(s: Seq<(String, V)>, key: Seq<char>) -> Option<V> {
    match entry_index(s, key) {
        Some(i) => Some(s[i].1),
        None => None,
    }
}

} // verus!
