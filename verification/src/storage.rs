//! One snapshot of the store: a finite map from digests to byte strings.

use crate::hash::Hash256;
use crate::pairs::{
    as_map, distinct_keys, has_key, lemma_entry_in_map, lemma_push_entry, lemma_remove_entry,
    lemma_set_entry,
};
use vstd::prelude::*;
use vstd::slice::slice_to_vec;

verus! {

/// How an operation of the store may fail.
#[derive(Debug, Clone, PartialEq, Eq)]
pub enum StorageError {
    /// A condition that has no kind of its own.
    Unknown(String),
    /// The key is not in the store.
    NotFound,
}

impl StorageError {
    /// The text of the error.
    pub fn message(&self) -> (text: String)
        ensures
            self is NotFound ==> text@ == "not found"@,
            self is Unknown ==> text@ == "unknown error: "@ + self->Unknown_0@,
    {
        let mut text = String::new();
        match self {
            StorageError::NotFound => {
                text.push_str("not found");
            },
            StorageError::Unknown(reason) => {
                text.push_str("unknown error: ");
                text.push_str(reason.as_str());
            },
        }
        text
    }
}

/// The entries of a snapshot as plain values: the bytes of each key with the
/// bytes stored for it.
pub open spec fn plain(entries: Seq<(Hash256, Vec<u8>)>) -> Seq<(Seq<u8>, Seq<u8>)> {
    entries.map_values(|e: (Hash256, Vec<u8>)| (e.0@, e.1@))
}

/// A finite map from digests to byte strings, kept as a list of entries with
/// distinct keys.
pub struct Snapshot {
    entries: Vec<(Hash256, Vec<u8>)>,
}

impl View for Snapshot {
    type V = Map<Seq<u8>, Seq<u8>>;

    closed spec fn view(&self) -> Map<Seq<u8>, Seq<u8>> {
        as_map(plain(self.entries@))
    }
}

impl Snapshot {
    #[verifier::type_invariant]
    spec fn well_formed(&self) -> bool {
        distinct_keys(plain(self.entries@))
    }

    /// The empty snapshot.
    pub fn new() -> (s: Self)
        ensures
            s@ == Map::<Seq<u8>, Seq<u8>>::empty(),
    {
        let s = Snapshot { entries: Vec::new() };
        proof {
            assert(s@ =~= Map::<Seq<u8>, Seq<u8>>::empty());
        }
        s
    }

    /// The place at which `key` stands, if it is present.
    fn find(&self, key: &Hash256) -> (r: Option<usize>)
        ensures
            match r {
                Some(i) => i < self.entries@.len() && plain(self.entries@)[i as int].0 == key@,
                None => !has_key(plain(self.entries@), key@),
            },
    {
        let mut i: usize = 0;
        while i < self.entries.len()
            invariant
                i <= self.entries@.len(),
                forall|j: int| 0 <= j < i ==> (#[trigger] plain(self.entries@)[j]).0 != key@,
            decreases self.entries@.len() - i,
        {
            if self.entries[i].0.same(key) {
                return Some(i);
            }
            i += 1;
        }
        None
    }

    /// An independent snapshot with the same contents.
    pub fn copy(&self) -> (s: Self)
        ensures
            s@ == self@,
    {
        proof {
            use_type_invariant(self);
        }
        let mut entries: Vec<(Hash256, Vec<u8>)> = Vec::new();
        let mut i: usize = 0;
        while i < self.entries.len()
            invariant
                i <= self.entries@.len(),
                entries@.len() == i,
                forall|j: int|
                    0 <= j < i ==> (#[trigger] entries@[j]).0@ == self.entries@[j].0@
                        && entries@[j].1@ == self.entries@[j].1@,
            decreases self.entries@.len() - i,
        {
            let key = self.entries[i].0;
            let value = slice_to_vec(self.entries[i].1.as_slice());
            entries.push((key, value));
            i += 1;
        }
        proof {
            assert(plain(entries@) =~= plain(self.entries@));
        }
        Snapshot { entries }
    }

    /// Whether `key` is present.
    pub fn contains(&self, key: &Hash256) -> (r: bool)
        ensures
            r == self@.contains_key(key@),
    {
        self.find(key).is_some()
    }

    /// A copy of the value stored for `key`, if it is present.
    pub fn get(&self, key: &Hash256) -> (r: Option<Vec<u8>>)
        ensures
            match r {
                Some(v) => self@.contains_key(key@) && v@ == self@[key@],
                None => !self@.contains_key(key@),
            },
    {
        proof {
            use_type_invariant(self);
        }
        match self.find(key) {
            Some(i) => {
                proof {
                    lemma_entry_in_map(plain(self.entries@), i as int);
                }
                Some(slice_to_vec(self.entries[i].1.as_slice()))
            },
            None => None,
        }
    }

    /// Stores `value` for `key`, in place of what was stored for it before.
    pub fn insert(&mut self, key: Hash256, value: Vec<u8>)
        ensures
            final(self)@ == old(self)@.insert(key@, value@),
    {
        proof {
            use_type_invariant(&*self);
        }
        let ghost before = plain(self.entries@);
        let ghost entry = (key@, value@);
        let found = self.find(&key);
        let mut entries: Vec<(Hash256, Vec<u8>)> = Vec::new();
        std::mem::swap(&mut entries, &mut self.entries);
        match found {
            Some(i) => {
                entries.set(i, (key, value));
                proof {
                    assert(plain(entries@) =~= before.update(i as int, entry));
                    lemma_set_entry(before, i as int, entry);
                }
            },
            None => {
                entries.push((key, value));
                proof {
                    assert(plain(entries@) =~= before.push(entry));
                    lemma_push_entry(before, entry);
                }
            },
        }
        self.entries = entries;
    }

    /// Takes `key` out. Returns whether it was present.
    pub fn remove(&mut self, key: &Hash256) -> (r: bool)
        ensures
            r == old(self)@.contains_key(key@),
            final(self)@ == old(self)@.remove(key@),
    {
        proof {
            use_type_invariant(&*self);
        }
        let ghost before = plain(self.entries@);
        match self.find(key) {
            Some(i) => {
                let mut entries: Vec<(Hash256, Vec<u8>)> = Vec::new();
                std::mem::swap(&mut entries, &mut self.entries);
                entries.remove(i);
                proof {
                    assert(plain(entries@) =~= before.remove(i as int));
                    lemma_remove_entry(before, i as int);
                }
                self.entries = entries;
                true
            },
            None => {
                proof {
                    assert(self@ =~= self@.remove(key@));
                }
                false
            },
        }
    }
}

} // verus!
