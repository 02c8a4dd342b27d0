use vstd::prelude::*;

verus! {

/// Position of the first entry filed under `key`, if any.
pub open spec fn position_of<V>(entries: Seq<(String, V)>, key: Seq<char>) -> Option<int>
    decreases entries.len(),
{
    if entries.len() == 0 {
        None
    } else {
        match position_of(entries.drop_last(), key) {
            Some(i) => Some(i),
            None => if entries.last().0@ == key {
                Some(entries.len() - 1)
            } else {
                None
            },
        }
    }
}

/// Value of the first entry filed under `key`, if any.
pub open spec fn lookup<V>(entries: Seq<(String, V)>, key: Seq<char>) -> Option<V> {
    match position_of(entries, key) {
        Some(i) => Some(entries[i].1),
        None => None,
    }
}

pub proof fn lemma_position_bounds<V>(entries: Seq<(String, V)>, key: Seq<char>)
    ensures
        position_of(entries, key) matches Some(i) ==> 0 <= i < entries.len() && entries[i].0@
            == key,
    decreases entries.len(),
{
    if entries.len() > 0 {
        lemma_position_bounds(entries.drop_last(), key);
    }
}

/// Index of the first entry filed under `key`.
pub fn find<V>(entries: &Vec<(String, V)>, key: &str) -> (index: Option<usize>)
    ensures
        match index {
            Some(i) => position_of(entries@, key@) == Some(i as int),
            None => position_of(entries@, key@) is None,
        },
{
    let mut i: usize = 0;
    while i < entries.len()
        invariant
            i <= entries@.len(),
            position_of(entries@.take(i as int), key@) is None,
        decreases entries@.len() - i,
    {
        proof {
            let next = entries@.take(i + 1);
            assert(next.drop_last() =~= entries@.take(i as int));
            assert(next.last() == entries@[i as int]);
        }
        if crate::text::str_equal(entries[i].0.as_str(), key) {
            proof {
                lemma_position_prefix(entries@, key@, i as int);
            }
            return Some(i);
        }
        i = i + 1;
    }
    proof {
        assert(entries@.take(entries@.len() as int) =~= entries@);
    }
    None
}

proof fn lemma_position_prefix<V>(entries: Seq<(String, V)>, key: Seq<char>, i: int)
    requires
        0 <= i < entries.len(),
        position_of(entries.take(i), key) is None,
        entries[i].0@ == key,
    ensures
        position_of(entries, key) == Some(i),
    decreases entries.len(),
{
    if i < entries.len() - 1 {
        assert(entries.drop_last().take(i) =~= entries.take(i));
        lemma_position_prefix(entries.drop_last(), key, i);
    } else {
        assert(entries.drop_last() =~= entries.take(i));
    }
}


/// Appending an entry leaves earlier positions in place.
pub proof fn lemma_position_push<V>(entries: Seq<(String, V)>, entry: (String, V), key: Seq<char>)
    ensures
        position_of(entries.push(entry), key) == match position_of(entries, key) {
            Some(i) => Some(i),
            None => if entry.0@ == key {
                Some(entries.len() as int)
            } else {
                None
            },
        },
{
    assert(entries.push(entry).drop_last() =~= entries);
}

/// Replacing an entry by one under the same key keeps every position.
pub proof fn lemma_position_update<V>(
    entries: Seq<(String, V)>,
    i: int,
    entry: (String, V),
    key: Seq<char>,
)
    requires
        0 <= i < entries.len(),
        entries[i].0@ == entry.0@,
    ensures
        position_of(entries.update(i, entry), key) == position_of(entries, key),
    decreases entries.len(),
{
    let updated = entries.update(i, entry);
    if i < entries.len() - 1 {
        assert(updated.drop_last() =~= entries.drop_last().update(i, entry));
        lemma_position_update(entries.drop_last(), i, entry, key);
    } else {
        assert(updated.drop_last() =~= entries.drop_last());
    }
}

/// Entries with their keys as texts.
pub open spec fn table_view<V>(entries: Seq<(String, V)>) -> Seq<(Seq<char>, V)> {
    entries.map_values(|e: (String, V)| (e.0@, e.1))
}

/// Files `value` under `key` in entries kept in byte order of their keys:
/// an entry with the same key is replaced, otherwise the entry is inserted
/// before the first larger key.
pub fn insert_ordered<V>(entries: &mut Vec<(String, V)>, key: String, value: V)
    ensures
        table_view(final(entries)@) == crate::ordered::model_insert(
            table_view(old(entries)@),
            key@,
            value,
        ),
{
    let ghost before = table_view(entries@);
    let mut i: usize = 0;
    while i < entries.len() && crate::text::str_less(entries[i].0.as_str(), key.as_str())
        invariant
            i <= entries@.len(),
            entries@ == old(entries)@,
            before == table_view(entries@),
            forall|j: int| 0 <= j < i ==> crate::ordered::key_less(#[trigger] before[j].0, key@),
        decreases entries@.len() - i,
    {
        proof {
            assert(before[i as int].0 == entries@[i as int].0@);
        }
        i = i + 1;
    }
    proof {
        if i < entries@.len() {
            assert(before[i as int].0 == entries@[i as int].0@);
        }
        crate::ordered::lemma_model_insert_at(before, key@, value, i as int);
    }
    if i < entries.len() && crate::text::str_equal(entries[i].0.as_str(), key.as_str()) {
        entries.set(i, (key, value));
        proof {
            assert(table_view(entries@) =~= before.update(i as int, (key@, value)));
        }
    } else {
        entries.insert(i, (key, value));
        proof {
            assert(table_view(entries@) =~= before.insert(i as int, (key@, value)));
        }
    }
}

} // verus!
