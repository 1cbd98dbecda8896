//! Keyed entries held in a vector, read as a map: the value of a key is that
//! of the first entry that carries it.

use vstd::prelude::*;

verus! {

/// Whether some entry carries `key`.
pub open spec fn holds_key<V>(entries: Seq<(String, V)>, key: Seq<char>) -> bool {
    exists|i: int| 0 <= i < entries.len() && (#[trigger] entries[i]).0@ == key
}

/// Whether entry `i` is the first that carries `key`.
pub open spec fn first_at<V>(entries: Seq<(String, V)>, key: Seq<char>, i: int) -> bool {
    &&& 0 <= i < entries.len()
    &&& entries[i].0@ == key
    &&& forall|j: int| 0 <= j < i ==> (#[trigger] entries[j]).0@ != key
}

/// The position of the first entry that carries `key`, where there is one.
pub open spec fn position<V>(entries: Seq<(String, V)>, key: Seq<char>) -> int {
    choose|i: int| first_at(entries, key, i)
}

/// A first entry is the only first entry, and `position` finds it.
pub proof fn lemma_first_is_position<V>(entries: Seq<(String, V)>, key: Seq<char>, i: int)
    requires
        first_at(entries, key, i),
    ensures
        position(entries, key) == i,
        holds_key(entries, key),
{
    let p = position(entries, key);
    assert(first_at(entries, key, p));
    if p < i {
        assert(entries[p].0@ != key);
    }
    if i < p {
        assert(entries[i].0@ != key);
    }
}

/// Where a key is held, some entry is the first to hold it.
pub proof fn lemma_held_key_has_position<V>(entries: Seq<(String, V)>, key: Seq<char>)
    requires
        holds_key(entries, key),
    ensures
        first_at(entries, key, position(entries, key)),
{
    let some = choose|i: int| 0 <= i < entries.len() && (#[trigger] entries[i]).0@ == key;
    lemma_first_below(entries, key, some);
}

proof fn lemma_first_below<V>(entries: Seq<(String, V)>, key: Seq<char>, bound: int)
    requires
        0 <= bound < entries.len(),
        entries[bound].0@ == key,
    ensures
        exists|i: int| first_at(entries, key, i),
    decreases bound,
{
    if exists|j: int| 0 <= j < bound && (#[trigger] entries[j]).0@ == key {
        let j = choose|j: int| 0 <= j < bound && (#[trigger] entries[j]).0@ == key;
        lemma_first_below(entries, key, j);
    } else {
        assert(first_at(entries, key, bound));
    }
}

/// What one more entry at the end does to the keys held and to their
/// positions: a key held before stays where it was, and a new key is found at
/// the new entry.
pub proof fn lemma_push_entry<V>(entries: Seq<(String, V)>, entry: (String, V), key: Seq<char>)
    ensures
        holds_key(entries.push(entry), key) == (holds_key(entries, key) || entry.0@ == key),
        holds_key(entries, key) ==> position(entries.push(entry), key) == position(entries, key),
        !holds_key(entries, key) && entry.0@ == key ==> position(entries.push(entry), key)
            == entries.len(),
{
    let longer = entries.push(entry);
    if holds_key(entries, key) {
        lemma_held_key_has_position(entries, key);
        let at = position(entries, key);
        assert(longer[at] == entries[at]);
        assert forall|j: int| 0 <= j < at implies (#[trigger] longer[j]).0@ != key by {
            assert(longer[j] == entries[j]);
        }
        assert(first_at(longer, key, at));
        lemma_first_is_position(longer, key, at);
    } else if entry.0@ == key {
        let at = entries.len() as int;
        assert(longer[at] == entry);
        assert forall|j: int| 0 <= j < at implies (#[trigger] longer[j]).0@ != key by {
            assert(longer[j] == entries[j]);
        }
        assert(first_at(longer, key, at));
        lemma_first_is_position(longer, key, at);
    } else {
        assert forall|j: int| 0 <= j < longer.len() implies (#[trigger] longer[j]).0@ != key by {
            if j < entries.len() {
                assert(longer[j] == entries[j]);
            }
        }
    }
}

/// Finds the first entry that carries `key`.
pub fn find<V>(entries: &Vec<(String, V)>, key: &str) -> (found: Option<usize>)
    ensures
        match found {
            Some(i) => first_at(entries@, key@, i as int),
            None => !holds_key(entries@, key@),
        },
{
    let wanted: String = key.to_owned();
    let mut i: usize = 0;
    while i < entries.len()
        invariant
            i <= entries.len(),
            wanted@ == key@,
            forall|j: int| 0 <= j < i ==> (#[trigger] entries@[j]).0@ != key@,
        decreases entries.len() - i,
    {
        if entries[i].0 == wanted {
            return Some(i);
        }
        i += 1;
    }
    None
}

} // verus!
