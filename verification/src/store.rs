//! Encoded blocks kept by their digest.

use crate::hashing::digests_equal;
use vstd::prelude::*;

verus! {

/// A map from 32-byte digests to byte strings. Each digest occurs at most
/// once; inserting under a present digest replaces its bytes.
pub struct BlockStore {
    entries: Vec<([u8; 32], Vec<u8>)>,
}

/// The digest held by entry `i`.
pub open spec fn entry_key(entries: Seq<([u8; 32], Vec<u8>)>, i: int) -> Seq<u8> {
    entries[i].0@
}

/// Some entry holds digest `k`.
pub open spec fn holds_key(entries: Seq<([u8; 32], Vec<u8>)>, k: Seq<u8>) -> bool {
    exists|i: int| 0 <= i < entries.len() && #[trigger] entry_key(entries, i) == k
}

/// An entry that holds digest `k`, where there is one.
pub open spec fn index_of_key(entries: Seq<([u8; 32], Vec<u8>)>, k: Seq<u8>) -> int {
    choose|i: int| 0 <= i < entries.len() && #[trigger] entry_key(entries, i) == k
}

/// No digest is held by two entries.
pub open spec fn keys_unique(entries: Seq<([u8; 32], Vec<u8>)>) -> bool {
    forall|i: int, j: int|
        0 <= i < entries.len() && 0 <= j < entries.len() && #[trigger] entry_key(entries, i)
            == #[trigger] entry_key(entries, j) ==> i == j
}

/// The map that a list of entries stands for.
pub open spec fn entries_map(entries: Seq<([u8; 32], Vec<u8>)>) -> Map<Seq<u8>, Seq<u8>> {
    Map::new(
        |k: Seq<u8>| holds_key(entries, k),
        |k: Seq<u8>| entries[index_of_key(entries, k)].1@,
    )
}

/// With unique digests, the entry that holds a digest gives its bytes.
pub proof fn lemma_entry_lookup(entries: Seq<([u8; 32], Vec<u8>)>, i: int)
    requires
        keys_unique(entries),
        0 <= i < entries.len(),
    ensures
        entries_map(entries).contains_key(entry_key(entries, i)),
        entries_map(entries)[entry_key(entries, i)] == entries[i].1@,
{
    let k = entry_key(entries, i);
    assert(holds_key(entries, k));
    let j = index_of_key(entries, k);
    assert(entry_key(entries, j) == k);
}

impl View for BlockStore {
    type V = Map<Seq<u8>, Seq<u8>>;

    closed spec fn view(&self) -> Map<Seq<u8>, Seq<u8>> {
        entries_map(self.entries@)
    }
}

impl BlockStore {
    /// The store's internal invariant: no digest occurs twice.
    pub closed spec fn wf(&self) -> bool {
        keys_unique(self.entries@)
    }

    /// An empty store.
    pub fn new() -> (store: Self)
        ensures
            store.wf(),
            store@ == Map::<Seq<u8>, Seq<u8>>::empty(),
    {
        let store = BlockStore { entries: Vec::new() };
        assert(store@ =~= Map::<Seq<u8>, Seq<u8>>::empty());
        store
    }

    /// The position of `key`, if present.
    fn find(&self, key: &[u8; 32]) -> (pos: Option<usize>)
        requires
            self.wf(),
        ensures
            match pos {
                Some(i) => i < self.entries@.len() && entry_key(self.entries@, i as int) == key@,
                None => !holds_key(self.entries@, key@),
            },
    {
        let n = self.entries.len();
        for i in 0..n
            invariant
                n == self.entries@.len(),
                forall|j: int| 0 <= j < i ==> #[trigger] entry_key(self.entries@, j) != key@,
        {
            if digests_equal(&self.entries[i].0, key) {
                return Some(i);
            }
        }
        None
    }

    /// The bytes stored under `key`, if any.
    pub fn get(&self, key: &[u8; 32]) -> (value: Option<&Vec<u8>>)
        requires
            self.wf(),
        ensures
            match value {
                Some(v) => self@.contains_key(key@) && v@ == self@[key@],
                None => !self@.contains_key(key@),
            },
    {
        match self.find(key) {
            Some(i) => {
                proof {
                    lemma_entry_lookup(self.entries@, i as int);
                }
                Some(&self.entries[i].1)
            },
            None => None,
        }
    }

    /// Stores `value` under `key`, replacing what was stored there.
    pub fn insert(&mut self, key: [u8; 32], value: Vec<u8>)
        requires
            old(self).wf(),
        ensures
            final(self).wf(),
            final(self)@ == old(self)@.insert(key@, value@),
    {
        let ghost old_entries = self.entries@;
        match self.find(&key) {
            Some(i) => {
                self.entries.set(i, (key, value));
                proof {
                    let e = self.entries@;
                    assert forall|a: int, b: int|
                        0 <= a < e.len() && 0 <= b < e.len() && #[trigger] entry_key(e, a)
                            == #[trigger] entry_key(e, b) implies a == b by {
                        assert(entry_key(old_entries, a) == entry_key(e, a) || a == i);
                        if a != i && b != i {
                            assert(entry_key(old_entries, a) == entry_key(old_entries, b));
                        } else if a == i && b != i {
                            assert(entry_key(old_entries, b) == entry_key(old_entries, i as int));
                        } else if b == i && a != i {
                            assert(entry_key(old_entries, a) == entry_key(old_entries, i as int));
                        }
                    }
                    lemma_store_update(old_entries, e, i as int);
                }
            },
            None => {
                self.entries.push((key, value));
                proof {
                    let e = self.entries@;
                    assert(forall|a: int|
                        0 <= a < old_entries.len() ==> #[trigger] entry_key(e, a) == entry_key(
                            old_entries,
                            a,
                        ));
                    assert(entry_key(e, old_entries.len() as int) == key@);
                    lemma_store_push(old_entries, e);
                }
            },
        }
    }

    /// Takes out the bytes stored under `key`, if any.
    pub fn remove(&mut self, key: &[u8; 32]) -> (value: Option<Vec<u8>>)
        requires
            old(self).wf(),
        ensures
            final(self).wf(),
            final(self)@ == old(self)@.remove(key@),
            match value {
                Some(v) => old(self)@.contains_key(key@) && v@ == old(self)@[key@],
                None => !old(self)@.contains_key(key@),
            },
    {
        let ghost old_entries = self.entries@;
        match self.find(key) {
            Some(i) => {
                proof {
                    lemma_entry_lookup(old_entries, i as int);
                }
                let (_, v) = self.entries.remove(i);
                proof {
                    lemma_store_remove(old_entries, self.entries@, i as int);
                }
                Some(v)
            },
            None => {
                assert(self@ =~= old(self)@.remove(key@));
                None
            },
        }
    }
}

/// Replacing the bytes of entry `i` replaces them in the map.
proof fn lemma_store_update(
    old_entries: Seq<([u8; 32], Vec<u8>)>,
    entries: Seq<([u8; 32], Vec<u8>)>,
    i: int,
)
    requires
        keys_unique(old_entries),
        keys_unique(entries),
        0 <= i < old_entries.len(),
        entries == old_entries.update(i, entries[i]),
        entry_key(entries, i) == entry_key(old_entries, i),
    ensures
        entries_map(entries) == entries_map(old_entries).insert(
            entry_key(entries, i),
            entries[i].1@,
        ),
{
    let k = entry_key(entries, i);
    let m = entries_map(entries);
    let om = entries_map(old_entries).insert(k, entries[i].1@);
    assert forall|x: Seq<u8>| m.contains_key(x) <==> om.contains_key(x) by {
        if m.contains_key(x) {
            let j = index_of_key(entries, x);
            assert(entry_key(old_entries, j) == x || j == i);
        }
        if om.contains_key(x) && x != k {
            let j = index_of_key(old_entries, x);
            assert(entry_key(entries, j) == x);
        }
    }
    assert forall|x: Seq<u8>| m.contains_key(x) implies m[x] == om[x] by {
        if x == k {
            lemma_entry_lookup(entries, i);
        } else {
            let j = index_of_key(entries, x);
            assert(j != i);
            assert(entry_key(old_entries, j) == x);
            lemma_entry_lookup(entries, j);
            lemma_entry_lookup(old_entries, j);
        }
    }
    assert(m =~= om);
}

/// Appending an entry with a new digest adds it to the map.
proof fn lemma_store_push(old_entries: Seq<([u8; 32], Vec<u8>)>, entries: Seq<([u8; 32], Vec<u8>)>)
    requires
        keys_unique(old_entries),
        entries.len() == old_entries.len() + 1,
        forall|a: int| 0 <= a < old_entries.len() ==> entries[a] == old_entries[a],
        !holds_key(old_entries, entry_key(entries, old_entries.len() as int)),
    ensures
        keys_unique(entries),
        entries_map(entries) == entries_map(old_entries).insert(
            entry_key(entries, old_entries.len() as int),
            entries[old_entries.len() as int].1@,
        ),
{
    let n = old_entries.len() as int;
    let k = entry_key(entries, n);
    assert forall|a: int, b: int|
        0 <= a < entries.len() && 0 <= b < entries.len() && #[trigger] entry_key(entries, a)
            == #[trigger] entry_key(entries, b) implies a == b by {
        if a < n && b < n {
            assert(entry_key(old_entries, a) == entry_key(old_entries, b));
        } else if a < n {
            assert(entry_key(old_entries, a) == k);
        } else if b < n {
            assert(entry_key(old_entries, b) == k);
        }
    }
    let m = entries_map(entries);
    let om = entries_map(old_entries).insert(k, entries[n].1@);
    assert forall|x: Seq<u8>| m.contains_key(x) <==> om.contains_key(x) by {
        if m.contains_key(x) && x != k {
            let j = index_of_key(entries, x);
            assert(j < n);
            assert(entry_key(old_entries, j) == x);
        }
        if om.contains_key(x) && x != k {
            let j = index_of_key(old_entries, x);
            assert(entry_key(entries, j) == x);
        }
        if x == k {
            assert(entry_key(entries, n) == k);
        }
    }
    assert forall|x: Seq<u8>| m.contains_key(x) implies m[x] == om[x] by {
        if x == k {
            lemma_entry_lookup(entries, n);
        } else {
            let j = index_of_key(entries, x);
            assert(j < n);
            assert(entry_key(old_entries, j) == x);
            lemma_entry_lookup(entries, j);
            lemma_entry_lookup(old_entries, j);
        }
    }
    assert(m =~= om);
}

/// Removing entry `i` removes its digest from the map.
proof fn lemma_store_remove(
    old_entries: Seq<([u8; 32], Vec<u8>)>,
    entries: Seq<([u8; 32], Vec<u8>)>,
    i: int,
)
    requires
        keys_unique(old_entries),
        0 <= i < old_entries.len(),
        entries == old_entries.remove(i),
    ensures
        keys_unique(entries),
        entries_map(entries) == entries_map(old_entries).remove(entry_key(old_entries, i)),
{
    let k = entry_key(old_entries, i);
    assert forall|a: int| 0 <= a < entries.len() implies #[trigger] entry_key(entries, a)
        == entry_key(old_entries, if a < i { a } else { a + 1 }) by {}
    assert forall|a: int, b: int|
        0 <= a < entries.len() && 0 <= b < entries.len() && #[trigger] entry_key(entries, a)
            == #[trigger] entry_key(entries, b) implies a == b by {
        let oa = if a < i { a } else { a + 1 };
        let ob = if b < i { b } else { b + 1 };
        assert(entry_key(old_entries, oa) == entry_key(old_entries, ob));
    }
    let m = entries_map(entries);
    let om = entries_map(old_entries).remove(k);
    assert forall|x: Seq<u8>| m.contains_key(x) <==> om.contains_key(x) by {
        if m.contains_key(x) {
            let j = index_of_key(entries, x);
            let oj = if j < i { j } else { j + 1 };
            assert(entry_key(old_entries, oj) == x);
            assert(x != k);
        }
        if om.contains_key(x) {
            let j = index_of_key(old_entries, x);
            assert(j != i);
            let nj = if j < i { j } else { j - 1 };
            assert(entry_key(entries, nj) == x);
        }
    }
    assert forall|x: Seq<u8>| m.contains_key(x) implies m[x] == om[x] by {
        let j = index_of_key(entries, x);
        let oj = if j < i { j } else { j + 1 };
        lemma_entry_lookup(entries, j);
        lemma_entry_lookup(old_entries, oj);
    }
    assert(m =~= om);
}

} // verus!
