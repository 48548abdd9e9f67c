//! The byte-oriented key-value capability and an in-memory implementation.
//!
//! The engines depend only on the [`Storage`] trait: `get` and `set` over raw
//! byte keys, described by an abstract map from keys to values. [`MemStore`]
//! is a verified in-memory implementation, a journal of writes in which the
//! latest write to a key wins; it backs the tests and any host that keeps
//! state in memory.

use vstd::prelude::*;
use vstd::slice::slice_to_vec;

verus! {

/// The storage capability: a flat store from byte keys to byte values.
///
/// `contents` is the abstract map an implementation maintains; `inv` is
/// whatever well-formedness its data structure needs. Every operation of the
/// ledger preserves `inv` and is specified against `contents`.
pub trait Storage {
    /// The abstract contents of the store.
    spec fn contents(&self) -> Map<Seq<u8>, Seq<u8>>;

    /// The implementation's own well-formedness.
    spec fn inv(&self) -> bool;

    /// Read the value under a key, if one was ever written.
    fn get(&self, key: &[u8]) -> (r: Option<Vec<u8>>)
        requires
            self.inv(),
        ensures
            match r {
                Some(v) => self.contents().contains_key(key@) && v@ == self.contents()[key@],
                None => !self.contents().contains_key(key@),
            },
    ;

    /// Write a value under a key, overwriting any prior value.
    fn set(&mut self, key: &[u8], value: &[u8])
        requires
            old(self).inv(),
        ensures
            final(self).inv(),
            final(self).contents() == old(self).contents().insert(key@, value@),
    ;
}

/// The map denoted by a journal of writes: later entries win.
spec fn journal_map(s: Seq<(Vec<u8>, Vec<u8>)>) -> Map<Seq<u8>, Seq<u8>>
    decreases s.len(),
{
    if s.len() == 0 {
        Map::empty()
    } else {
        journal_map(s.drop_last()).insert(s.last().0@, s.last().1@)
    }
}

proof fn lemma_journal_contains(s: Seq<(Vec<u8>, Vec<u8>)>, k: Seq<u8>)
    ensures
        journal_map(s).contains_key(k) <==> exists|i: int|
            0 <= i < s.len() && (#[trigger] s[i]).0@ == k,
    decreases s.len(),
{
    if s.len() > 0 {
        lemma_journal_contains(s.drop_last(), k);
        if journal_map(s).contains_key(k) {
            if s.last().0@ == k {
                assert(s[s.len() - 1].0@ == k);
            } else {
                let i = choose|i: int| 0 <= i < s.len() - 1 && (#[trigger] s.drop_last()[i]).0@
                    == k;
                assert(s[i].0@ == k);
            }
        }
        if exists|i: int| 0 <= i < s.len() && (#[trigger] s[i]).0@ == k {
            let i = choose|i: int| 0 <= i < s.len() && (#[trigger] s[i]).0@ == k;
            if i < s.len() - 1 {
                assert(s.drop_last()[i].0@ == k);
            }
        }
    }
}

proof fn lemma_journal_latest(s: Seq<(Vec<u8>, Vec<u8>)>, i: int)
    requires
        0 <= i < s.len(),
        forall|j: int| i < j < s.len() ==> (#[trigger] s[j]).0@ != s[i].0@,
    ensures
        journal_map(s).contains_key(s[i].0@),
        journal_map(s)[s[i].0@] == s[i].1@,
    decreases s.len(),
{
    if i == s.len() - 1 {
    } else {
        assert(s.last().0@ != s[i].0@);
        assert(s.drop_last()[i] == s[i]);
        assert forall|j: int| i < j < s.drop_last().len() implies (#[trigger] s.drop_last()[j]).0@
            != s.drop_last()[i].0@ by {
            assert(s.drop_last()[j] == s[j]);
        }
        lemma_journal_latest(s.drop_last(), i);
    }
}

/// Compare two byte strings for equality.
fn bytes_eq(a: &[u8], b: &[u8]) -> (r: bool)
    ensures
        r == (a@ == b@),
{
    if a.len() != b.len() {
        return false;
    }
    let mut i: usize = 0;
    while i < a.len()
        invariant
            0 <= i <= a@.len(),
            a@.len() == b@.len(),
            forall|j: int| 0 <= j < i ==> a@[j] == b@[j],
        decreases a@.len() - i,
    {
        if a[i] != b[i] {
            return false;
        }
        i = i + 1;
    }
    proof {
        assert(a@ =~= b@);
    }
    true
}

/// An in-memory store: the journal of all writes, most recent last.
pub struct MemStore {
    entries: Vec<(Vec<u8>, Vec<u8>)>,
}

impl MemStore {
    /// An empty store.
    pub fn new() -> (s: Self)
        ensures
            s.inv(),
            s.contents() == Map::<Seq<u8>, Seq<u8>>::empty(),
    {
        MemStore { entries: Vec::new() }
    }
}

impl Storage for MemStore {
    closed spec fn contents(&self) -> Map<Seq<u8>, Seq<u8>> {
        journal_map(self.entries@)
    }

    closed spec fn inv(&self) -> bool {
        true
    }

    fn get(&self, key: &[u8]) -> (r: Option<Vec<u8>>) {
        let mut i: usize = self.entries.len();
        while i > 0
            invariant
                0 <= i <= self.entries@.len(),
                forall|j: int| i <= j < self.entries@.len() ==> (#[trigger] self.entries@[j]).0@
                    != key@,
            decreases i,
        {
            let idx = i - 1;
            if bytes_eq(self.entries[idx].0.as_slice(), key) {
                proof {
                    lemma_journal_latest(self.entries@, idx as int);
                }
                return Some(slice_to_vec(self.entries[idx].1.as_slice()));
            }
            i = idx;
        }
        proof {
            lemma_journal_contains(self.entries@, key@);
        }
        None
    }

    fn set(&mut self, key: &[u8], value: &[u8]) {
        let entry = (slice_to_vec(key), slice_to_vec(value));
        self.entries.push(entry);
        proof {
            assert(self.entries@.drop_last() =~= old(self).entries@);
        }
    }
}

} // verus!
