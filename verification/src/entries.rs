//! Lists of named entries, read as mappings: where a name occurs more than
//! once, the first entry with that name is the one that counts.

use vstd::prelude::*;

verus! {

/// The names of a list of entries, in order.
pub open spec fn entry_keys<T>(entries: Seq<(String, T)>) -> Seq<Seq<char>> {
    Seq::new(entries.len(), |i: int| entries[i].0@)
}

/// `key` occurs among `keys`.
pub open spec fn has_key(keys: Seq<Seq<char>>, key: Seq<char>) -> bool {
    exists|i: int| 0 <= i < keys.len() && keys[i] == key
}

/// `i` is the first position of `key` among `keys`.
pub open spec fn is_first(keys: Seq<Seq<char>>, key: Seq<char>, i: int) -> bool {
    &&& 0 <= i < keys.len()
    &&& keys[i] == key
    &&& forall|j: int| 0 <= j < i ==> keys[j] != key
}

/// The first position of `key` among `keys`, where it occurs.
pub open spec fn first_index(keys: Seq<Seq<char>>, key: Seq<char>) -> int {
    choose|i: int| is_first(keys, key, i)
}

/// No name occurs twice among `keys`.
pub open spec fn distinct_keys(keys: Seq<Seq<char>>) -> bool {
    forall|i: int, j: int| 0 <= i < j < keys.len() ==> keys[i] != keys[j]
}

/// A first position is the first position.
pub proof fn lemma_first_index(keys: Seq<Seq<char>>, key: Seq<char>, i: int)
    requires
        is_first(keys, key, i),
    ensures
        has_key(keys, key),
        first_index(keys, key) == i,
{
    let c = first_index(keys, key);
    assert(is_first(keys, key, c));
    if c < i {
        assert(keys[c] != key);
    }
    if i < c {
        assert(keys[i] != key);
    }
}

/// A name that occurs has a first position.
pub proof fn lemma_first_exists(keys: Seq<Seq<char>>, key: Seq<char>)
    requires
        has_key(keys, key),
    ensures
        is_first(keys, key, first_index(keys, key)),
{
    let w = choose|i: int| 0 <= i < keys.len() && keys[i] == key;
    lemma_first_below(keys, key, w);
}

proof fn lemma_first_below(keys: Seq<Seq<char>>, key: Seq<char>, w: int)
    requires
        0 <= w < keys.len(),
        keys[w] == key,
    ensures
        is_first(keys, key, first_index(keys, key)),
    decreases w,
{
    if forall|j: int| 0 <= j < w ==> keys[j] != key {
        assert(is_first(keys, key, w));
    } else {
        let j = choose|j: int| 0 <= j < w && keys[j] == key;
        lemma_first_below(keys, key, j);
    }
}

/// The position of the first entry named `key`, if there is one.
pub fn find_entry<T>(entries: &Vec<(String, T)>, key: &str) -> (r: Option<usize>)
    ensures
        match r {
            Some(i) => is_first(entry_keys(entries@), key@, i as int),
            None => !has_key(entry_keys(entries@), key@),
        },
{
    let wanted = key.to_owned();
    let mut i: usize = 0;
    while i < entries.len()
        invariant
            i <= entries.len(),
            wanted@ == key@,
            forall|j: int| 0 <= j < i ==> entry_keys(entries@)[j] != key@,
        decreases entries.len() - i,
    {
        if entries[i].0 == wanted {
            return Some(i);
        }
        i += 1;
    }
    None
}

/// Appending an entry appends its name.
pub proof fn lemma_keys_push<T>(entries: Seq<(String, T)>, entry: (String, T))
    ensures
        entry_keys(entries.push(entry)) == entry_keys(entries).push(entry.0@),
{
    assert(entry_keys(entries.push(entry)) =~= entry_keys(entries).push(entry.0@));
}

/// A name appended to a list that lacks it is first at the end; every other
/// name keeps its first position, and no other name is new.
pub proof fn lemma_first_push(keys: Seq<Seq<char>>, added: Seq<char>, key: Seq<char>)
    ensures
        key != added ==> (has_key(keys.push(added), key) <==> has_key(keys, key)),
        forall|i: int| is_first(keys, key, i) ==> is_first(keys.push(added), key, i),
        key == added && !has_key(keys, key) ==> is_first(keys.push(added), key, keys.len() as int),
{
    let longer = keys.push(added);
    if key != added && has_key(longer, key) {
        let i = choose|i: int| 0 <= i < longer.len() && longer[i] == key;
        assert(keys[i] == key);
    }
    if has_key(keys, key) {
        let i = choose|i: int| 0 <= i < keys.len() && keys[i] == key;
        assert(longer[i] == key);
    }
    assert forall|i: int| is_first(keys, key, i) implies is_first(longer, key, i) by {
        assert(longer[i] == key);
        assert forall|j: int| 0 <= j < i implies longer[j] != key by {
            assert(longer[j] == keys[j]);
        }
    }
    if key == added && !has_key(keys, key) {
        assert(longer[keys.len() as int] == key);
        assert forall|j: int| 0 <= j < keys.len() implies longer[j] != key by {
            assert(longer[j] == keys[j]);
        }
    }
}

/// The position of the first occurrence of `key` among `names`, if there is
/// one.
pub fn find_name(names: &Vec<String>, key: &str) -> (r: Option<usize>)
    ensures
        match r {
            Some(i) => is_first(names_view(names@), key@, i as int),
            None => !has_key(names_view(names@), key@),
        },
{
    let wanted = key.to_owned();
    let mut i: usize = 0;
    while i < names.len()
        invariant
            i <= names.len(),
            wanted@ == key@,
            forall|j: int| 0 <= j < i ==> names_view(names@)[j] != key@,
        decreases names.len() - i,
    {
        if names[i] == wanted {
            return Some(i);
        }
        i += 1;
    }
    None
}

/// A list of names, each as its text.
pub open spec fn names_view(names: Seq<String>) -> Seq<Seq<char>> {
    Seq::new(names.len(), |i: int| names[i]@)
}

} // verus!
