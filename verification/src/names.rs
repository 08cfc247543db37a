//! Names that point to commits: the branches of a repository, or its tags.

use crate::hash::{names_of, CommitHash};
use crate::pairs::{
    as_map, distinct_keys, has_key, lemma_entry_in_map, lemma_push_entry, lemma_remove_entry,
    lemma_set_entry,
};
use vstd::prelude::*;

verus! {

/// The entries of a table as plain values: the characters of each name with
/// the bytes of the commit it points to.
pub open spec fn plain_names(entries: Seq<(String, CommitHash)>) -> Seq<(Seq<char>, Seq<u8>)> {
    entries.map_values(|e: (String, CommitHash)| (e.0@, e.1@))
}

/// The names of `table` that point to `commit`.
pub open spec fn names_on(table: Map<Seq<char>, Seq<u8>>, commit: Seq<u8>) -> Set<Seq<char>> {
    Set::new(|name: Seq<char>| table.contains_key(name) && table[name] == commit)
}

/// `places` holds, in rising order, the places of all entries that point to
/// `commit`.
pub open spec fn places_on(
    pairs: Seq<(Seq<char>, Seq<u8>)>,
    commit: Seq<u8>,
    places: Seq<usize>,
) -> bool {
    &&& forall|k: int|
        0 <= k < places.len() ==> (#[trigger] places[k]) < pairs.len() && pairs[places[k] as int].1
            == commit
    &&& forall|a: int, b: int|
        0 <= a < b < places.len() ==> (#[trigger] places[a]) < (#[trigger] places[b])
    &&& forall|i: int|
        0 <= i < pairs.len() && (#[trigger] pairs[i]).1 == commit ==> exists|k: int|
            0 <= k < places.len() && #[trigger] places[k] == i
}

/// The names at the given places are distinct and are exactly the names that
/// point to `commit`.
pub proof fn lemma_names_at_places(
    pairs: Seq<(Seq<char>, Seq<u8>)>,
    commit: Seq<u8>,
    places: Seq<usize>,
    listed: Seq<Seq<char>>,
)
    requires
        distinct_keys(pairs),
        places_on(pairs, commit, places),
        listed.len() == places.len(),
        forall|k: int| 0 <= k < places.len() ==> #[trigger] listed[k] == pairs[places[k] as int].0,
    ensures
        listed.no_duplicates(),
        listed.to_set() == names_on(as_map(pairs), commit),
{
    assert forall|a: int, b: int| 0 <= a < listed.len() && 0 <= b < listed.len() && a
        != b implies listed[a] != listed[b] by {
        let x = places[a] as int;
        let y = places[b] as int;
        if a < b {
            assert(places[a] < places[b]);
            assert(pairs[x].0 != pairs[y].0);
        } else {
            assert(places[b] < places[a]);
            assert(pairs[y].0 != pairs[x].0);
        }
    }
    let target = names_on(as_map(pairs), commit);
    assert forall|name: Seq<char>| listed.contains(name) == target.contains(name) by {
        if listed.contains(name) {
            let k = choose|k: int| 0 <= k < listed.len() && listed[k] == name;
            lemma_entry_in_map(pairs, places[k] as int);
        }
        if target.contains(name) {
            assert(has_key(pairs, name));
            let i = choose|i: int| 0 <= i < pairs.len() && (#[trigger] pairs[i]).0 == name;
            lemma_entry_in_map(pairs, i);
            let k = choose|k: int| 0 <= k < places.len() && #[trigger] places[k] == i;
            assert(listed[k] == name);
        }
    }
    assert(listed.to_set() =~= target);
}

/// All names of a list of pairs with distinct keys, in the list's order, are
/// distinct and are exactly the keys of its map.
pub proof fn lemma_all_names(pairs: Seq<(Seq<char>, Seq<u8>)>, listed: Seq<Seq<char>>)
    requires
        distinct_keys(pairs),
        listed.len() == pairs.len(),
        forall|k: int| 0 <= k < pairs.len() ==> #[trigger] listed[k] == pairs[k].0,
    ensures
        listed.no_duplicates(),
        listed.to_set() == as_map(pairs).dom(),
{
    assert forall|a: int, b: int| 0 <= a < listed.len() && 0 <= b < listed.len() && a
        != b implies listed[a] != listed[b] by {
        if a < b {
            assert(pairs[a].0 != pairs[b].0);
        } else {
            assert(pairs[b].0 != pairs[a].0);
        }
    }
    assert forall|name: Seq<char>| listed.contains(name) == as_map(pairs).dom().contains(
        name,
    ) by {
        if listed.contains(name) {
            let k = choose|k: int| 0 <= k < listed.len() && listed[k] == name;
            assert(pairs[k].0 == name);
        }
        if has_key(pairs, name) {
            let i = choose|i: int| 0 <= i < pairs.len() && (#[trigger] pairs[i]).0 == name;
            assert(listed[i] == name);
        }
    }
    assert(listed.to_set() =~= as_map(pairs).dom());
}

/// A table of names, each pointing to exactly one commit. No name stands
/// twice in it.
pub struct NameTable {
    entries: Vec<(String, CommitHash)>,
}

impl View for NameTable {
    type V = Map<Seq<char>, Seq<u8>>;

    closed spec fn view(&self) -> Map<Seq<char>, Seq<u8>> {
        as_map(plain_names(self.entries@))
    }
}

impl NameTable {
    #[verifier::type_invariant]
    spec fn well_formed(&self) -> bool {
        distinct_keys(plain_names(self.entries@))
    }

    /// The table without names.
    pub fn new() -> (t: Self)
        ensures
            t@ == Map::<Seq<char>, Seq<u8>>::empty(),
    {
        let t = NameTable { entries: Vec::new() };
        proof {
            assert(t@ =~= Map::<Seq<char>, Seq<u8>>::empty());
        }
        t
    }

    /// The place at which `name` stands, if it is in the table.
    fn find(&self, name: &String) -> (r: Option<usize>)
        ensures
            match r {
                Some(i) => i < self.entries@.len() && plain_names(self.entries@)[i as int].0
                    == name@,
                None => !has_key(plain_names(self.entries@), name@),
            },
    {
        let mut i: usize = 0;
        while i < self.entries.len()
            invariant
                i <= self.entries@.len(),
                forall|j: int| 0 <= j < i ==> (#[trigger] plain_names(self.entries@)[j]).0 != name@,
            decreases self.entries@.len() - i,
        {
            if self.entries[i].0 == *name {
                return Some(i);
            }
            i += 1;
        }
        None
    }

    /// All names, each once.
    pub fn list(&self) -> (names: Vec<String>)
        ensures
            names_of(names@).no_duplicates(),
            names_of(names@).to_set() == self@.dom(),
    {
        proof {
            use_type_invariant(self);
        }
        let mut names: Vec<String> = Vec::new();
        let mut i: usize = 0;
        while i < self.entries.len()
            invariant
                i <= self.entries@.len(),
                names@.len() == i,
                forall|k: int| 0 <= k < i ==> (#[trigger] names@[k])@ == self.entries@[k].0@,
            decreases self.entries@.len() - i,
        {
            names.push(self.entries[i].0.clone());
            i += 1;
        }
        proof {
            lemma_all_names(plain_names(self.entries@), names_of(names@));
        }
        names
    }

    /// The commit that `name` points to, if it is in the table.
    pub fn locate(&self, name: &String) -> (r: Option<CommitHash>)
        ensures
            match r {
                Some(c) => self@.contains_key(name@) && self@[name@] == c@,
                None => !self@.contains_key(name@),
            },
    {
        proof {
            use_type_invariant(self);
        }
        match self.find(name) {
            Some(i) => {
                proof {
                    lemma_entry_in_map(plain_names(self.entries@), i as int);
                }
                Some(self.entries[i].1)
            },
            None => None,
        }
    }

    /// The names that point to `commit`, each once.
    pub fn names_on(&self, commit: &CommitHash) -> (names: Vec<String>)
        ensures
            names_of(names@).no_duplicates(),
            names_of(names@).to_set() == names_on(self@, commit@),
    {
        proof {
            use_type_invariant(self);
        }
        let mut names: Vec<String> = Vec::new();
        let mut places: Vec<usize> = Vec::new();
        let mut i: usize = 0;
        while i < self.entries.len()
            invariant
                i <= self.entries@.len(),
                names@.len() == places@.len(),
                forall|k: int|
                    0 <= k < places@.len() ==> (#[trigger] places@[k]) < i && plain_names(
                        self.entries@,
                    )[places@[k] as int].1 == commit@,
                forall|a: int, b: int|
                    0 <= a < b < places@.len() ==> (#[trigger] places@[a]) < (
                    #[trigger] places@[b]),
                forall|e: int|
                    0 <= e < i && (#[trigger] plain_names(self.entries@)[e]).1 == commit@
                        ==> exists|k: int| 0 <= k < places@.len() && #[trigger] places@[k] == e,
                forall|k: int|
                    0 <= k < places@.len() ==> (#[trigger] names@[k])@
                        == self.entries@[places@[k] as int].0@,
            decreases self.entries@.len() - i,
        {
            if self.entries[i].1.same(commit) {
                let ghost before_push = places@;
                names.push(self.entries[i].0.clone());
                places.push(i);
                proof {
                    assert(places@[before_push.len() as int] == i);
                    assert forall|e: int|
                        0 <= e < i + 1 && (#[trigger] plain_names(self.entries@)[e]).1
                            == commit@ implies exists|k: int|
                        0 <= k < places@.len() && #[trigger] places@[k] == e by {
                        if e < i {
                            let k = choose|k: int|
                                0 <= k < before_push.len() && #[trigger] before_push[k] == e;
                            assert(places@[k] == e);
                        }
                    }
                }
            }
            i += 1;
        }
        proof {
            lemma_names_at_places(
                plain_names(self.entries@),
                commit@,
                places@,
                names_of(names@),
            );
        }
        names
    }

    /// Adds `name`, pointing to `commit`, and says whether it did: it does so
    /// if the name is new. Otherwise the table stays as it was.
    pub fn create(&mut self, name: &String, commit: CommitHash) -> (created: bool)
        ensures
            created == !old(self)@.contains_key(name@),
            created ==> final(self)@ == old(self)@.insert(name@, commit@),
            !created ==> final(self)@ == old(self)@,
    {
        proof {
            use_type_invariant(&*self);
        }
        let ghost before = plain_names(self.entries@);
        if self.find(name).is_some() {
            return false;
        }
        let mut entries: Vec<(String, CommitHash)> = Vec::new();
        std::mem::swap(&mut entries, &mut self.entries);
        entries.push((name.clone(), commit));
        proof {
            assert(plain_names(entries@) =~= before.push((name@, commit@)));
            lemma_push_entry(before, (name@, commit@));
        }
        self.entries = entries;
        true
    }

    /// Points `name` to `commit`, and says whether it did: it does so if the
    /// name is in the table. Otherwise the table stays as it was.
    pub fn set(&mut self, name: &String, commit: CommitHash) -> (moved: bool)
        ensures
            moved == old(self)@.contains_key(name@),
            moved ==> final(self)@ == old(self)@.insert(name@, commit@),
            !moved ==> final(self)@ == old(self)@,
    {
        proof {
            use_type_invariant(&*self);
        }
        let ghost before = plain_names(self.entries@);
        match self.find(name) {
            Some(i) => {
                let mut entries: Vec<(String, CommitHash)> = Vec::new();
                std::mem::swap(&mut entries, &mut self.entries);
                entries.set(i, (name.clone(), commit));
                proof {
                    assert(plain_names(entries@) =~= before.update(i as int, (name@, commit@)));
                    lemma_set_entry(before, i as int, (name@, commit@));
                }
                self.entries = entries;
                true
            },
            None => false,
        }
    }

    /// Takes `name` out, and says whether it was in the table.
    pub fn remove(&mut self, name: &String) -> (removed: bool)
        ensures
            removed == old(self)@.contains_key(name@),
            final(self)@ == old(self)@.remove(name@),
            !removed ==> final(self)@ == old(self)@,
    {
        proof {
            use_type_invariant(&*self);
        }
        let ghost before = plain_names(self.entries@);
        match self.find(name) {
            Some(i) => {
                let mut entries: Vec<(String, CommitHash)> = Vec::new();
                std::mem::swap(&mut entries, &mut self.entries);
                entries.remove(i);
                proof {
                    assert(plain_names(entries@) =~= before.remove(i as int));
                    lemma_remove_entry(before, i as int);
                }
                self.entries = entries;
                true
            },
            None => {
                proof {
                    assert(self@ =~= self@.remove(name@));
                }
                false
            },
        }
    }
}

} // verus!
