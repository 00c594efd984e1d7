use vstd::prelude::*;

verus! {

/// Whether no two entries of an association list carry the same key.
pub open spec fn keys_unique(entries: Seq<(String, u32)>) -> bool {
    forall|i: int, j: int|
        0 <= i < j < entries.len() ==> (#[trigger] entries[i]).0@ != (#[trigger] entries[j]).0@
}

/// Whether some entry of `entries` carries `key`.
pub open spec fn has_key(entries: Seq<(String, u32)>, key: Seq<char>) -> bool {
    exists|i: int| 0 <= i < entries.len() && (#[trigger] entries[i]).0@ == key
}

/// The index of an entry carrying `key`, when one exists.
pub open spec fn index_of_key(entries: Seq<(String, u32)>, key: Seq<char>) -> int {
    choose|i: int| 0 <= i < entries.len() && (#[trigger] entries[i]).0@ == key
}

/// The mapping that an association list represents: each key carried
/// by an entry is bound to that entry's value.
pub open spec fn map_of(entries: Seq<(String, u32)>) -> Map<Seq<char>, u32> {
    Map::new(
        |key: Seq<char>| has_key(entries, key),
        |key: Seq<char>| entries[index_of_key(entries, key)].1,
    )
}

/// With unique keys, the entry at `i` determines the value its key is
/// bound to in the represented mapping.
pub proof fn lemma_map_of_entry(entries: Seq<(String, u32)>, i: int)
    requires
        keys_unique(entries),
        0 <= i < entries.len(),
    ensures
        map_of(entries).dom().contains(entries[i].0@),
        map_of(entries)[entries[i].0@] == entries[i].1,
{
    let key = entries[i].0@;
    assert(has_key(entries, key));
    let j = index_of_key(entries, key);
    assert(0 <= j < entries.len() && entries[j].0@ == key);
    if i < j {
        assert(entries[i].0@ != entries[j].0@);
    } else if j < i {
        assert(entries[j].0@ != entries[i].0@);
    }
}

/// A key carried by no entry is absent from the represented mapping.
pub proof fn lemma_map_of_absent(entries: Seq<(String, u32)>, key: Seq<char>)
    requires
        !has_key(entries, key),
    ensures
        !map_of(entries).dom().contains(key),
{
}

/// Appending an entry with a fresh key extends the represented mapping
/// by exactly that binding.
pub proof fn lemma_map_of_push(entries: Seq<(String, u32)>, key: String, value: u32)
    requires
        keys_unique(entries),
        !has_key(entries, key@),
    ensures
        keys_unique(entries.push((key, value))),
        map_of(entries.push((key, value))) == map_of(entries).insert(key@, value),
{
    let extended = entries.push((key, value));
    let n = entries.len() as int;
    assert forall|i: int, j: int| 0 <= i < j < extended.len() implies (#[trigger] extended[i]).0@
        != (#[trigger] extended[j]).0@ by {
        if j < n {
            assert(entries[i].0@ != entries[j].0@);
        } else {
            assert(extended[j].0@ == key@);
            if extended[i].0@ == key@ {
                assert(entries[i].0@ == key@);
                assert(has_key(entries, key@));
            }
        }
    }
    let before = map_of(entries).insert(key@, value);
    let after = map_of(extended);
    assert forall|k: Seq<char>| #[trigger] after.dom().contains(k) implies before.dom().contains(k)
        && after[k] == before[k] by {
        let i = index_of_key(extended, k);
        assert(0 <= i < extended.len() && extended[i].0@ == k);
        lemma_map_of_entry(extended, i);
        if i < n {
            assert(entries[i].0@ == k);
            assert(has_key(entries, k));
            lemma_map_of_entry(entries, i);
            assert(k != key@);
        } else {
            assert(k == key@);
            assert(after[k] == value);
        }
    }
    assert forall|k: Seq<char>| #[trigger] before.dom().contains(k) implies after.dom().contains(
        k,
    ) by {
        if k == key@ {
            assert(extended[n].0@ == k);
            assert(has_key(extended, k));
        } else {
            let i = index_of_key(entries, k);
            assert(0 <= i < entries.len() && entries[i].0@ == k);
            assert(extended[i].0@ == k);
            assert(has_key(extended, k));
        }
    }
    assert(after =~= before);
}

/// Removing the entry at `i` removes exactly its key from the
/// represented mapping, and that key is then carried by no entry.
pub proof fn lemma_map_of_remove(entries: Seq<(String, u32)>, i: int)
    requires
        keys_unique(entries),
        0 <= i < entries.len(),
    ensures
        keys_unique(entries.remove(i)),
        !has_key(entries.remove(i), entries[i].0@),
        map_of(entries.remove(i)) == map_of(entries).remove(entries[i].0@),
{
    let shrunk = entries.remove(i);
    let removed_key = entries[i].0@;
    entries.remove_ensures(i);
    assert forall|j: int, l: int| 0 <= j < l < shrunk.len() implies (#[trigger] shrunk[j]).0@
        != (#[trigger] shrunk[l]).0@ by {
        let j0 = if j < i { j } else { j + 1 };
        let l0 = if l < i { l } else { l + 1 };
        assert(shrunk[j] == entries[j0]);
        assert(shrunk[l] == entries[l0]);
        assert(entries[j0].0@ != entries[l0].0@);
    }
    assert forall|j: int| 0 <= j < shrunk.len() implies (#[trigger] shrunk[j]).0@
        != removed_key by {
        let j0 = if j < i { j } else { j + 1 };
        assert(shrunk[j] == entries[j0]);
        if j0 < i {
            assert(entries[j0].0@ != entries[i].0@);
        } else {
            assert(entries[i].0@ != entries[j0].0@);
        }
    }
    let before = map_of(entries).remove(removed_key);
    let after = map_of(shrunk);
    assert forall|k: Seq<char>| #[trigger] after.dom().contains(k) implies before.dom().contains(k)
        && after[k] == before[k] by {
        let j = index_of_key(shrunk, k);
        assert(0 <= j < shrunk.len() && shrunk[j].0@ == k);
        lemma_map_of_entry(shrunk, j);
        let j0 = if j < i { j } else { j + 1 };
        assert(shrunk[j] == entries[j0]);
        assert(has_key(entries, k));
        lemma_map_of_entry(entries, j0);
        assert(k != removed_key);
    }
    assert forall|k: Seq<char>| #[trigger] before.dom().contains(k) implies after.dom().contains(
        k,
    ) by {
        let j0 = index_of_key(entries, k);
        assert(0 <= j0 < entries.len() && entries[j0].0@ == k);
        if j0 < i {
            assert(shrunk[j0] == entries[j0]);
            assert(has_key(shrunk, k));
        } else {
            assert(j0 != i);
            assert(shrunk[j0 - 1] == entries[j0]);
            assert(has_key(shrunk, k));
        }
    }
    assert(after =~= before);
}

} // verus!
