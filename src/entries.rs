//! Name-keyed tables held as lists of `(name, value)` entries whose names are
//! distinct, with their model as a finite map from name to value.

use crate::text::same_text;
use vstd::prelude::*;

verus! {

/// The names of a list of entries, in order.
pub open spec fn entry_names<T>(entries: Seq<(String, T)>) -> Seq<Seq<char>> {
    Seq::new(entries.len(), |i: int| entries[i].0@)
}

/// Whether no name occurs twice.
pub open spec fn names_unique(names: Seq<Seq<char>>) -> bool {
    forall|i: int, j: int| 0 <= i < j < names.len() ==> names[i] != names[j]
}

/// Whether `k` is one of the names.
pub open spec fn has_name(names: Seq<Seq<char>>, k: Seq<char>) -> bool {
    exists|i: int| 0 <= i < names.len() && names[i] == k
}

/// A position at which `k` occurs (the only one where names are unique).
pub open spec fn name_index(names: Seq<Seq<char>>, k: Seq<char>) -> int {
    choose|i: int| 0 <= i < names.len() && names[i] == k
}

/// The table as a map from each name to its value.
pub open spec fn entries_map<T>(entries: Seq<(String, T)>) -> Map<Seq<char>, T> {
    Map::new(
        |k: Seq<char>| has_name(entry_names(entries), k),
        |k: Seq<char>| entries[name_index(entry_names(entries), k)].1,
    )
}

proof fn lemma_index_is_unique<T>(entries: Seq<(String, T)>, i: int)
    requires
        names_unique(entry_names(entries)),
        0 <= i < entries.len(),
    ensures
        has_name(entry_names(entries), entries[i].0@),
        name_index(entry_names(entries), entries[i].0@) == i,
{
    let names = entry_names(entries);
    assert(names[i] == entries[i].0@);
    let j = name_index(names, entries[i].0@);
    if j != i {
        if j < i {
            assert(names[j] != names[i]);
        } else {
            assert(names[i] != names[j]);
        }
    }
}

/// A table whose names are distinct has as many map entries as list entries.
pub proof fn lemma_map_size<T>(entries: Seq<(String, T)>)
    requires
        names_unique(entry_names(entries)),
    ensures
        entries_map(entries).dom().finite(),
        entries_map(entries).dom().len() == entries.len(),
{
    let names = entry_names(entries);
    assert forall|x: Seq<char>| #[trigger]
        entries_map(entries).dom().contains(x) == names.to_set().contains(x) by {
        if has_name(names, x) {
            assert(names[name_index(names, x)] == x);
        }
    }
    assert(entries_map(entries).dom() =~= names.to_set());
    assert(names.no_duplicates()) by {
        assert forall|i: int, j: int|
            0 <= i < names.len() && 0 <= j < names.len() && i != j implies names[i] != names[j] by {
            if i < j {
                assert(names[i] != names[j]);
            } else {
                assert(names[j] != names[i]);
            }
        }
    }
    names.unique_seq_to_set();
    names.lemma_cardinality_of_set();
}

/// Finds the position of the entry named `key`, if there is one.
pub fn find_entry<T>(entries: &Vec<(String, T)>, key: &str) -> (r: Option<usize>)
    requires
        names_unique(entry_names(entries@)),
    ensures
        r is None <==> !entries_map(entries@).dom().contains(key@),
        r matches Some(i) ==> i < entries@.len() && entries@[i as int].0@ == key@
            && name_index(entry_names(entries@), key@) == i,
{
    let mut i: usize = 0;
    while i < entries.len()
        invariant
            names_unique(entry_names(entries@)),
            i <= entries@.len(),
            forall|j: int| 0 <= j < i ==> entries@[j].0@ != key@,
        decreases entries@.len() - i,
    {
        if same_text(entries[i].0.as_str(), key) {
            proof {
                lemma_index_is_unique(entries@, i as int);
            }
            return Some(i);
        }
        i = i + 1;
    }
    assert(!has_name(entry_names(entries@), key@)) by {
        if has_name(entry_names(entries@), key@) {
            let j = name_index(entry_names(entries@), key@);
            assert(entries@[j].0@ == key@);
        }
    }
    None
}

/// Sets the value under `key`: replaces the entry of that name, or adds one.
pub fn put_entry<T>(entries: &mut Vec<(String, T)>, key: String, value: T)
    requires
        names_unique(entry_names(old(entries)@)),
    ensures
        names_unique(entry_names(final(entries)@)),
        entries_map(final(entries)@) == entries_map(old(entries)@).insert(key@, value),
        final(entries)@.len() == old(entries)@.len() + if entries_map(old(entries)@).dom().contains(
            key@,
        ) {
            0int
        } else {
            1int
        },
{
    let ghost before = entries@;
    let found = find_entry(entries, key.as_str());
    let ghost k = key@;
    match found {
        Some(i) => {
            entries.set(i, (key, value));
            proof {
                let after = entries@;
                assert(after == before.update(i as int, (after[i as int].0, value)));
                assert(entry_names(after) =~= entry_names(before));
                assert forall|x: Seq<char>| #[trigger]
                    entries_map(after).dom().contains(x) == entries_map(before).insert(
                        k,
                        value,
                    ).dom().contains(x) by {}
                assert forall|x: Seq<char>| #[trigger]
                    entries_map(after).dom().contains(x) implies entries_map(after)[x]
                    == entries_map(before).insert(k, value)[x] by {
                    let j = name_index(entry_names(after), x);
                    lemma_index_is_unique(after, j);
                    if x != k {
                        lemma_index_is_unique(before, j);
                    }
                }
                assert(entries_map(after) =~= entries_map(before).insert(k, value));
            }
        },
        None => {
            entries.push((key, value));
            proof {
                let after = entries@;
                let n = before.len() as int;
                assert(entry_names(after) =~= entry_names(before).push(k));
                assert(names_unique(entry_names(after))) by {
                    assert forall|i: int, j: int|
                        0 <= i < j < entry_names(after).len() implies entry_names(after)[i]
                        != entry_names(after)[j] by {
                        if j == n {
                            assert(entry_names(before)[i] == before[i].0@);
                        }
                    }
                }
                assert forall|x: Seq<char>| #[trigger]
                    entries_map(after).dom().contains(x) == entries_map(before).insert(
                        k,
                        value,
                    ).dom().contains(x) by {
                    if has_name(entry_names(before), x) {
                        let j = name_index(entry_names(before), x);
                        assert(entry_names(after)[j] == x);
                    }
                    if x == k {
                        assert(entry_names(after)[n] == x);
                    }
                    if has_name(entry_names(after), x) && x != k {
                        let j = name_index(entry_names(after), x);
                        assert(j != n);
                        assert(entry_names(before)[j] == x);
                    }
                }
                assert forall|x: Seq<char>| #[trigger]
                    entries_map(after).dom().contains(x) implies entries_map(after)[x]
                    == entries_map(before).insert(k, value)[x] by {
                    let j = name_index(entry_names(after), x);
                    lemma_index_is_unique(after, j);
                    if x != k {
                        assert(j != n);
                        assert(after[j] == before[j]);
                        lemma_index_is_unique(before, j);
                    }
                }
                assert(entries_map(after) =~= entries_map(before).insert(k, value));
            }
        },
    }
}

} // verus!
