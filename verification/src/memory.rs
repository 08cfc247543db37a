//! The in-memory store, its mathematical model, and what holds of every run of it.

use crate::hash::Hash256;
use crate::storage::{StorageError, Snapshot};
use vstd::prelude::*;
use vstd::slice::slice_to_vec;

verus! {

/// What a store is, mathematically: two maps from the bytes of a digest to a
/// byte string.
pub struct StoreState {
    /// The working state.
    pub current: Map<Seq<u8>, Seq<u8>>,
    /// The last state that was committed.
    pub checkpoint: Map<Seq<u8>, Seq<u8>>,
}

/// A change of the working state.
pub enum Mutation {
    InsertOrUpdate { key: Seq<u8>, value: Seq<u8> },
    Remove { key: Seq<u8> },
}

impl Mutation {
    /// The key that the change is about.
    pub open spec fn key(self) -> Seq<u8> {
        match self {
            Mutation::InsertOrUpdate { key, .. } => key,
            Mutation::Remove { key } => key,
        }
    }
}

impl StoreState {
    /// The state of a store that was just created.
    pub open spec fn empty() -> StoreState {
        StoreState { current: Map::empty(), checkpoint: Map::empty() }
    }

    /// The checkpoint becomes a copy of the working state.
    pub open spec fn commit_checkpoint(self) -> StoreState {
        StoreState { current: self.current, checkpoint: self.current }
    }

    /// The working state becomes a copy of the checkpoint.
    pub open spec fn revert_to_latest_checkpoint(self) -> StoreState {
        StoreState { current: self.checkpoint, checkpoint: self.checkpoint }
    }

    /// `key` is bound to `value` in the working state.
    pub open spec fn insert_or_update(self, key: Seq<u8>, value: Seq<u8>) -> StoreState {
        StoreState { current: self.current.insert(key, value), checkpoint: self.checkpoint }
    }

    /// `key` is bound to nothing in the working state.
    pub open spec fn remove(self, key: Seq<u8>) -> StoreState {
        StoreState { current: self.current.remove(key), checkpoint: self.checkpoint }
    }

    /// Whether the working state binds `key`.
    pub open spec fn contain(self, key: Seq<u8>) -> bool {
        self.current.contains_key(key)
    }

    /// What a lookup of `key` in the working state gives.
    pub open spec fn get(self, key: Seq<u8>) -> Result<Seq<u8>, StorageError> {
        if self.current.contains_key(key) {
            Ok(self.current[key])
        } else {
            Err(StorageError::NotFound)
        }
    }

    /// The state after one change. Removing an absent key changes nothing.
    pub open spec fn apply(self, m: Mutation) -> StoreState {
        match m {
            Mutation::InsertOrUpdate { key, value } => self.insert_or_update(key, value),
            Mutation::Remove { key } => self.remove(key),
        }
    }

    /// The state after a run of changes, the first of `ms` first.
    pub open spec fn apply_all(self, ms: Seq<Mutation>) -> StoreState
        decreases ms.len(),
    {
        if ms.len() == 0 {
            self
        } else {
            self.apply_all(ms.drop_last()).apply(ms.last())
        }
    }
}

/// Changes of the working state leave the checkpoint as it is.
pub proof fn lemma_mutations_keep_checkpoint(s: StoreState, ms: Seq<Mutation>)
    ensures
        s.apply_all(ms).checkpoint == s.checkpoint,
    decreases ms.len(),
{
    if ms.len() > 0 {
        lemma_mutations_keep_checkpoint(s, ms.drop_last());
    }
}

/// Reverting after a commit and any run of changes gives back, exactly, the
/// state that the commit left: every change made in between is gone.
pub proof fn lemma_checkpoint_isolation(s: StoreState, ms: Seq<Mutation>)
    ensures
        s.commit_checkpoint().apply_all(ms).revert_to_latest_checkpoint()
            == s.commit_checkpoint(),
        s.commit_checkpoint().apply_all(ms).revert_to_latest_checkpoint().current == s.current,
{
    lemma_mutations_keep_checkpoint(s.commit_checkpoint(), ms);
}

/// A second commit replaces the first checkpoint: whatever was changed before
/// it (`first`) and after it (`second`), a revert gives the working state as
/// the second commit found it, and nothing of the first checkpoint is left.
pub proof fn lemma_checkpoint_single_generation(
    s: StoreState,
    first: Seq<Mutation>,
    second: Seq<Mutation>,
)
    ensures
        ({
            let at_second = s.commit_checkpoint().apply_all(first);
            at_second.commit_checkpoint().apply_all(second).revert_to_latest_checkpoint()
                == (StoreState { current: at_second.current, checkpoint: at_second.current })
        }),
{
    lemma_checkpoint_isolation(s.commit_checkpoint().apply_all(first), second);
}

/// What was inserted for a key is what a lookup of that key gives, through
/// any run of changes to other keys.
pub proof fn lemma_lookup_consistency(
    s: StoreState,
    key: Seq<u8>,
    value: Seq<u8>,
    ms: Seq<Mutation>,
)
    requires
        forall|i: int| 0 <= i < ms.len() ==> (#[trigger] ms[i]).key() != key,
    ensures
        s.insert_or_update(key, value).apply_all(ms).get(key) == Ok::<Seq<u8>, StorageError>(value),
        s.insert_or_update(key, value).apply_all(ms).contain(key),
    decreases ms.len(),
{
    if ms.len() > 0 {
        let front = ms.drop_last();
        assert forall|i: int| 0 <= i < front.len() implies (#[trigger] front[i]).key() != key by {
            assert(front[i] == ms[i]);
        }
        lemma_lookup_consistency(s, key, value, front);
        assert(ms.last() == ms[ms.len() - 1]);
    }
}

/// Once a key is removed, a lookup of it fails with `NotFound`; once the
/// working state is reverted, a lookup gives what the checkpoint holds.
pub proof fn lemma_lookup_after_remove_or_revert(s: StoreState, key: Seq<u8>)
    ensures
        s.remove(key).get(key) == Err::<Seq<u8>, StorageError>(StorageError::NotFound),
        !s.remove(key).contain(key),
        s.revert_to_latest_checkpoint().contain(key) == s.checkpoint.contains_key(key),
{
}

/// A store that was just created holds no key: every lookup fails with
/// `NotFound`.
pub proof fn lemma_empty_store(key: Seq<u8>)
    ensures
        StoreState::empty().get(key) == Err::<Seq<u8>, StorageError>(StorageError::NotFound),
        !StoreState::empty().contain(key),
{
}

/// A key-value store that keeps its working state and one checkpoint of it.
pub struct MemoryDB {
    current_revision: Snapshot,
    checkpoint: Snapshot,
}

impl View for MemoryDB {
    type V = StoreState;

    closed spec fn view(&self) -> StoreState {
        StoreState { current: self.current_revision@, checkpoint: self.checkpoint@ }
    }
}

impl MemoryDB {
    /// A store whose working state and checkpoint are both empty.
    pub fn new() -> (db: Self)
        ensures
            db@ == StoreState::empty(),
    {
        MemoryDB { current_revision: Snapshot::new(), checkpoint: Snapshot::new() }
    }

    /// An independent store with the same working state and checkpoint.
    pub fn open(&self) -> (db: Self)
        ensures
            db@ == self@,
    {
        MemoryDB {
            current_revision: self.current_revision.copy(),
            checkpoint: self.checkpoint.copy(),
        }
    }

    /// Makes the working state the checkpoint. The checkpoint held before is lost.
    pub fn commit_checkpoint(&mut self) -> (r: Result<(), StorageError>)
        ensures
            r is Ok,
            final(self)@ == old(self)@.commit_checkpoint(),
    {
        self.checkpoint = self.current_revision.copy();
        Ok(())
    }

    /// Makes the checkpoint the working state. What was changed since the
    /// checkpoint is lost.
    pub fn revert_to_latest_checkpoint(&mut self) -> (r: Result<(), StorageError>)
        ensures
            r is Ok,
            final(self)@ == old(self)@.revert_to_latest_checkpoint(),
    {
        self.current_revision = self.checkpoint.copy();
        Ok(())
    }

    /// Stores `value` for `key` in the working state, whether or not the key
    /// was present.
    pub fn insert_or_update(&mut self, key: Hash256, value: &[u8]) -> (r: Result<(), StorageError>)
        ensures
            r is Ok,
            final(self)@ == old(self)@.insert_or_update(key@, value@),
    {
        self.current_revision.insert(key, slice_to_vec(value));
        Ok(())
    }

    /// Takes `key` out of the working state; `NotFound`, and no change, if it
    /// is absent.
    pub fn remove(&mut self, key: Hash256) -> (r: Result<(), StorageError>)
        ensures
            old(self)@.contain(key@) ==> r is Ok,
            !old(self)@.contain(key@) ==> r == Err::<(), StorageError>(StorageError::NotFound),
            final(self)@ == old(self)@.remove(key@),
    {
        if self.current_revision.remove(&key) {
            Ok(())
        } else {
            Err(StorageError::NotFound)
        }
    }

    /// A copy of the value that the working state holds for `key`; `NotFound`
    /// if it is absent.
    pub fn get(&self, key: Hash256) -> (r: Result<Vec<u8>, StorageError>)
        ensures
            match r {
                Ok(v) => self@.get(key@) == Ok::<Seq<u8>, StorageError>(v@),
                Err(e) => self@.get(key@) == Err::<Seq<u8>, StorageError>(e),
            },
    {
        match self.current_revision.get(&key) {
            Some(v) => Ok(v),
            None => Err(StorageError::NotFound),
        }
    }

    /// Whether the working state holds `key`. Never fails.
    pub fn contain(&self, key: Hash256) -> (r: Result<bool, StorageError>)
        ensures
            r == Ok::<bool, StorageError>(self@.contain(key@)),
    {
        Ok(self.current_revision.contains(&key))
    }

    /// A copy of the value that the checkpoint holds for `key`, if any.
    pub fn get_from_checkpoint(&self, key: Hash256) -> (r: Option<Vec<u8>>)
        ensures
            match r {
                Some(v) => self@.checkpoint.contains_key(key@) && v@ == self@.checkpoint[key@],
                None => !self@.checkpoint.contains_key(key@),
            },
    {
        self.checkpoint.get(&key)
    }
}

} // verus!
