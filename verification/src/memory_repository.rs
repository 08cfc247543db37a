//! A repository held in memory: a commit graph, its branches and tags, and
//! the position.

use crate::commit_graph::CommitGraph;
use crate::graph::{Direction, Head, RepositoryState, SemanticCommitView};
use crate::hash::{hashes_of, names_of, Branch, CommitHash, Tag};
use crate::names::{names_on, NameTable};
use crate::pairs::{
    as_map, distinct_keys, has_key, lemma_entry_in_map, lemma_push_entry, lemma_set_entry,
};
use crate::raw::{RepositoryError, SemanticCommit};
use vstd::prelude::*;

verus! {

/// Where the repository stands.
pub enum HeadRef {
    /// On a branch.
    Attached(Branch),
    /// On a commit, with no branch.
    Detached(CommitHash),
}

impl View for HeadRef {
    type V = Head;

    open spec fn view(&self) -> Head {
        match self {
            HeadRef::Attached(branch) => Head::Attached { branch: branch@ },
            HeadRef::Detached(commit) => Head::Detached { commit: commit@ },
        }
    }
}

/// The entries of a table of semantic commits as plain values.
pub open spec fn plain_commits(entries: Seq<(CommitHash, SemanticCommit)>) -> Seq<
    (Seq<u8>, SemanticCommitView),
> {
    entries.map_values(|e: (CommitHash, SemanticCommit)| (e.0@, e.1@))
}

/// What each commit reads as, for the commits that were created as semantic
/// commits. No commit stands twice in it.
pub struct SemanticTable {
    entries: Vec<(CommitHash, SemanticCommit)>,
}

impl View for SemanticTable {
    type V = Map<Seq<u8>, SemanticCommitView>;

    closed spec fn view(&self) -> Map<Seq<u8>, SemanticCommitView> {
        as_map(plain_commits(self.entries@))
    }
}

impl SemanticTable {
    #[verifier::type_invariant]
    spec fn well_formed(&self) -> bool {
        distinct_keys(plain_commits(self.entries@))
    }

    /// The table without commits.
    pub fn new() -> (t: Self)
        ensures
            t@ == Map::<Seq<u8>, SemanticCommitView>::empty(),
    {
        let t = SemanticTable { entries: Vec::new() };
        proof {
            assert(t@ =~= Map::<Seq<u8>, SemanticCommitView>::empty());
        }
        t
    }

    /// The place at which `commit_hash` stands, if it is in the table.
    fn find(&self, commit_hash: &CommitHash) -> (r: Option<usize>)
        ensures
            match r {
                Some(i) => i < self.entries@.len() && plain_commits(self.entries@)[i as int].0
                    == commit_hash@,
                None => !has_key(plain_commits(self.entries@), commit_hash@),
            },
    {
        let mut i: usize = 0;
        while i < self.entries.len()
            invariant
                i <= self.entries@.len(),
                forall|j: int|
                    0 <= j < i ==> (#[trigger] plain_commits(self.entries@)[j]).0 != commit_hash@,
            decreases self.entries@.len() - i,
        {
            if self.entries[i].0.same(commit_hash) {
                return Some(i);
            }
            i += 1;
        }
        None
    }

    /// A copy of what `commit_hash` reads as, if it is in the table.
    pub fn get(&self, commit_hash: &CommitHash) -> (r: Option<SemanticCommit>)
        ensures
            match r {
                Some(c) => self@.contains_key(commit_hash@) && self@[commit_hash@] == c@,
                None => !self@.contains_key(commit_hash@),
            },
    {
        proof {
            use_type_invariant(self);
        }
        match self.find(commit_hash) {
            Some(i) => {
                proof {
                    lemma_entry_in_map(plain_commits(self.entries@), i as int);
                }
                Some(self.entries[i].1.copy())
            },
            None => None,
        }
    }

    /// Records that `commit_hash` reads as `commit`.
    pub fn put(&mut self, commit_hash: CommitHash, commit: SemanticCommit)
        ensures
            final(self)@ == old(self)@.insert(commit_hash@, commit@),
    {
        proof {
            use_type_invariant(&*self);
        }
        let ghost before = plain_commits(self.entries@);
        let ghost entry = (commit_hash@, commit@);
        let found = self.find(&commit_hash);
        let mut entries: Vec<(CommitHash, SemanticCommit)> = Vec::new();
        std::mem::swap(&mut entries, &mut self.entries);
        match found {
            Some(i) => {
                entries.set(i, (commit_hash, commit));
                proof {
                    assert(plain_commits(entries@) =~= before.update(i as int, entry));
                    lemma_set_entry(before, i as int, entry);
                }
            },
            None => {
                entries.push((commit_hash, commit));
                proof {
                    assert(plain_commits(entries@) =~= before.push(entry));
                    lemma_push_entry(before, entry);
                }
            },
        }
        self.entries = entries;
    }
}

/// A repository held in memory. It has no remotes and no working tree: the
/// identifier of a new commit is given by the caller.
pub struct MemoryRepository {
    graph: CommitGraph,
    semantic: SemanticTable,
    branches: NameTable,
    tags: NameTable,
    head: HeadRef,
}

impl View for MemoryRepository {
    type V = RepositoryState;

    closed spec fn view(&self) -> RepositoryState {
        RepositoryState {
            history: self.graph@,
            semantic: self.semantic@,
            branches: self.branches@,
            tags: self.tags@,
            head: self.head@,
            remotes: Map::empty(),
            tracking: Set::empty(),
        }
    }
}

/// The error for what is not there, or is there already.
fn refused(reason: &str) -> (e: RepositoryError)
    ensures
        e is Unknown,
        e->Unknown_0@ == reason@,
{
    RepositoryError::Unknown(reason.to_owned())
}

impl MemoryRepository {
    /// The repository that holds the one commit `genesis`, with `branch`
    /// pointing to it and the position attached to `branch`.
    pub fn new(genesis: CommitHash, branch: &Branch) -> (repo: Self)
        ensures
            repo@.history.parents == Map::<Seq<u8>, Seq<Seq<u8>>>::empty().insert(
                genesis@,
                Seq::<Seq<u8>>::empty(),
            ),
            repo@.branches == Map::<Seq<char>, Seq<u8>>::empty().insert(branch@, genesis@),
            repo@.tags == Map::<Seq<char>, Seq<u8>>::empty(),
            repo@.head == (Head::Attached { branch: branch@ }),
            repo@.semantic == Map::<Seq<u8>, SemanticCommitView>::empty(),
            repo@.remotes == Map::<Seq<char>, Seq<char>>::empty(),
            repo@.tracking == Set::<(Seq<char>, Seq<char>, Seq<u8>)>::empty(),
            repo@.is_sound(),
    {
        let mut graph = CommitGraph::new();
        let none: Vec<CommitHash> = Vec::new();
        assert(hashes_of(none@) =~= Seq::<Seq<u8>>::empty());
        let added = graph.add_commit(genesis, none);
        assert(added);
        let mut branches = NameTable::new();
        let created = branches.create(branch, genesis);
        assert(created);
        MemoryRepository {
            graph,
            semantic: SemanticTable::new(),
            branches,
            tags: NameTable::new(),
            head: HeadRef::Attached(branch.clone()),
        }
    }

    /// Returns the list of branches: each name once.
    pub fn list_branches(&self) -> (r: Result<Vec<Branch>, RepositoryError>)
        ensures
            r matches Ok(v) && names_of(v@).no_duplicates() && names_of(v@).to_set()
                == self@.branches.dom(),
    {
        Ok(self.branches.list())
    }

    /// Creates a branch on the commit. It fails, changing nothing, if the name
    /// is taken or the commit is not in the graph.
    pub fn create_branch(&mut self, branch_name: &Branch, commit_hash: CommitHash) -> (r: Result<
        (),
        RepositoryError,
    >)
        ensures
            r is Ok <==> !old(self)@.branches.contains_key(branch_name@) && old(
                self,
            )@.history.has_commit(commit_hash@),
            r is Ok ==> final(self)@ == (RepositoryState {
                branches: old(self)@.branches.insert(branch_name@, commit_hash@),
                ..old(self)@
            }),
            r is Err ==> final(self)@ == old(self)@,
            old(self)@.is_sound() ==> final(self)@.is_sound(),
    {
        if !self.graph.has_commit(&commit_hash) {
            return Err(refused("the commit is not in the graph"));
        }
        if self.branches.create(branch_name, commit_hash) {
            Ok(())
        } else {
            Err(refused("the branch exists already"))
        }
    }

    /// Gets the commit that the branch points to. It fails if there is no
    /// such branch.
    pub fn locate_branch(&self, branch: &Branch) -> (r: Result<CommitHash, RepositoryError>)
        ensures
            match r {
                Ok(c) => self@.branches.contains_key(branch@) && self@.branches[branch@] == c@,
                Err(_) => !self@.branches.contains_key(branch@),
            },
    {
        match self.branches.locate(branch) {
            Some(c) => Ok(c),
            None => Err(refused("there is no such branch")),
        }
    }

    /// Gets the list of branches from the commit: each name once.
    pub fn get_branches(&self, commit_hash: &CommitHash) -> (r: Result<Vec<Branch>, RepositoryError>)
        ensures
            r matches Ok(v) && names_of(v@).no_duplicates() && names_of(v@).to_set()
                == self@.branches_on(commit_hash@),
    {
        let names = self.branches.names_on(commit_hash);
        proof {
            assert(names_on(self@.branches, commit_hash@) =~= self@.branches_on(commit_hash@));
        }
        Ok(names)
    }

    /// Moves the branch. It fails, changing nothing, if the branch or the
    /// commit is unknown.
    pub fn move_branch(&mut self, branch: &Branch, commit_hash: &CommitHash) -> (r: Result<
        (),
        RepositoryError,
    >)
        ensures
            r is Ok <==> old(self)@.branches.contains_key(branch@) && old(self)@.history.has_commit(
                commit_hash@,
            ),
            r is Ok ==> final(self)@ == (RepositoryState {
                branches: old(self)@.branches.insert(branch@, commit_hash@),
                ..old(self)@
            }),
            r is Err ==> final(self)@ == old(self)@,
            old(self)@.is_sound() ==> final(self)@.is_sound(),
    {
        if !self.graph.has_commit(commit_hash) {
            return Err(refused("the commit is not in the graph"));
        }
        if self.branches.set(branch, *commit_hash) {
            Ok(())
        } else {
            Err(refused("there is no such branch"))
        }
    }

    /// Deletes the branch. It fails, changing nothing, if there is no such
    /// branch, or if the position is attached to it.
    pub fn delete_branch(&mut self, branch: &Branch) -> (r: Result<(), RepositoryError>)
        ensures
            r is Ok <==> old(self)@.branches.contains_key(branch@) && old(self)@.head != (
            Head::Attached { branch: branch@ }),
            r is Ok ==> final(self)@ == (RepositoryState {
                branches: old(self)@.branches.remove(branch@),
                ..old(self)@
            }),
            r is Err ==> final(self)@ == old(self)@,
            old(self)@.is_sound() ==> final(self)@.is_sound(),
    {
        let on_it = match &self.head {
            HeadRef::Attached(current) => *current == *branch,
            HeadRef::Detached(_) => false,
        };
        if on_it {
            return Err(refused("the position is on the branch"));
        }
        if self.branches.remove(branch) {
            Ok(())
        } else {
            Err(refused("there is no such branch"))
        }
    }

    /// Returns the list of tags: each name once.
    pub fn list_tags(&self) -> (r: Result<Vec<Tag>, RepositoryError>)
        ensures
            r matches Ok(v) && names_of(v@).no_duplicates() && names_of(v@).to_set()
                == self@.tags.dom(),
    {
        Ok(self.tags.list())
    }

    /// Creates a tag on the given commit. It fails, changing nothing, if the
    /// name is taken or the commit is not in the graph.
    pub fn create_tag(&mut self, tag: &Tag, commit_hash: &CommitHash) -> (r: Result<
        (),
        RepositoryError,
    >)
        ensures
            r is Ok <==> !old(self)@.tags.contains_key(tag@) && old(self)@.history.has_commit(
                commit_hash@,
            ),
            r is Ok ==> final(self)@ == (RepositoryState {
                tags: old(self)@.tags.insert(tag@, commit_hash@),
                ..old(self)@
            }),
            r is Err ==> final(self)@ == old(self)@,
            old(self)@.is_sound() ==> final(self)@.is_sound(),
    {
        if !self.graph.has_commit(commit_hash) {
            return Err(refused("the commit is not in the graph"));
        }
        if self.tags.create(tag, *commit_hash) {
            Ok(())
        } else {
            Err(refused("the tag exists already"))
        }
    }

    /// Gets the commit that the tag points to. It fails if there is no such
    /// tag.
    pub fn locate_tag(&self, tag: &Tag) -> (r: Result<CommitHash, RepositoryError>)
        ensures
            match r {
                Ok(c) => self@.tags.contains_key(tag@) && self@.tags[tag@] == c@,
                Err(_) => !self@.tags.contains_key(tag@),
            },
    {
        match self.tags.locate(tag) {
            Some(c) => Ok(c),
            None => Err(refused("there is no such tag")),
        }
    }

    /// Gets the tags on the given commit: each name once.
    pub fn get_tag(&self, commit_hash: &CommitHash) -> (r: Result<Vec<Tag>, RepositoryError>)
        ensures
            r matches Ok(v) && names_of(v@).no_duplicates() && names_of(v@).to_set()
                == self@.tags_on(commit_hash@),
    {
        let names = self.tags.names_on(commit_hash);
        proof {
            assert(names_on(self@.tags, commit_hash@) =~= self@.tags_on(commit_hash@));
        }
        Ok(names)
    }

    /// Removes the tag. It fails, changing nothing, if there is no such tag.
    pub fn remove_tag(&mut self, tag: &Tag) -> (r: Result<(), RepositoryError>)
        ensures
            r is Ok <==> old(self)@.tags.contains_key(tag@),
            r is Ok ==> final(self)@ == (RepositoryState {
                tags: old(self)@.tags.remove(tag@),
                ..old(self)@
            }),
            r is Err ==> final(self)@ == old(self)@,
            old(self)@.is_sound() ==> final(self)@.is_sound(),
    {
        if self.tags.remove(tag) {
            Ok(())
        } else {
            Err(refused("there is no such tag"))
        }
    }

    /// Checkouts to the branch: the position is attached to it. It fails,
    /// changing nothing, if there is no such branch.
    pub fn checkout(&mut self, branch: &Branch) -> (r: Result<(), RepositoryError>)
        ensures
            r is Ok <==> old(self)@.branches.contains_key(branch@),
            r is Ok ==> final(self)@ == (RepositoryState {
                head: Head::Attached { branch: branch@ },
                ..old(self)@
            }),
            r is Err ==> final(self)@ == old(self)@,
            old(self)@.is_sound() ==> final(self)@.is_sound(),
    {
        if self.branches.locate(branch).is_none() {
            return Err(refused("there is no such branch"));
        }
        self.head = HeadRef::Attached(branch.clone());
        Ok(())
    }

    /// Checkouts to the commit and detaches the position. It fails, changing
    /// nothing, if the commit is not in the graph.
    pub fn checkout_detach(&mut self, commit_hash: &CommitHash) -> (r: Result<(), RepositoryError>)
        ensures
            r is Ok <==> old(self)@.history.has_commit(commit_hash@),
            r is Ok ==> final(self)@ == (RepositoryState {
                head: Head::Detached { commit: commit_hash@ },
                ..old(self)@
            }),
            r is Err ==> final(self)@ == old(self)@,
            old(self)@.is_sound() ==> final(self)@.is_sound(),
    {
        if !self.graph.has_commit(commit_hash) {
            return Err(refused("the commit is not in the graph"));
        }
        self.head = HeadRef::Detached(*commit_hash);
        Ok(())
    }

    /// Returns the commit at which the repository stands. It fails if the
    /// position is attached to a branch that is no longer there.
    pub fn get_head(&self) -> (r: Result<CommitHash, RepositoryError>)
        ensures
            match r {
                Ok(c) => self@.head_commit() == Some(c@),
                Err(_) => self@.head_commit() is None,
            },
    {
        match &self.head {
            HeadRef::Attached(branch) => self.locate_branch(branch),
            HeadRef::Detached(commit) => Ok(*commit),
        }
    }

    /// Returns the initial commit: the commit that was added first, which has
    /// no parents. It fails if the repository has no commits.
    pub fn get_initial_commit(&self) -> (r: Result<CommitHash, RepositoryError>)
        ensures
            match r {
                Ok(c) => self@.history.has_commit(c@) && self@.history.parents[c@].len() == 0,
                Err(_) => self@.history.parents == Map::<Seq<u8>, Seq<Seq<u8>>>::empty(),
            },
    {
        match self.graph.initial_commit() {
            Some(c) => Ok(c),
            None => Err(refused("the repository has no commits")),
        }
    }

    /// Puts the new commit `hash` on top of the position and takes the
    /// position's branch along. It fails, changing nothing, if the commit is
    /// in the graph already, or if the position is not attached to a branch
    /// that points to a commit of the graph.
    pub fn commit_on_head(&mut self, hash: CommitHash) -> (r: Result<(), RepositoryError>)
        ensures
            r is Ok <==> !old(self)@.history.has_commit(hash@) && old(self)@.head is Attached
                && old(self)@.head_commit() is Some && old(self)@.history.has_commit(
                old(self)@.head_commit().unwrap(),
            ),
            r is Ok ==> old(self)@.adds_commit(hash@, final(self)@),
            r is Err ==> final(self)@ == old(self)@,
            old(self)@.is_sound() ==> final(self)@.is_sound(),
    {
        let located = match &self.head {
            HeadRef::Attached(branch) => self.branches.locate(branch),
            HeadRef::Detached(_) => None,
        };
        let parent = match located {
            Some(c) => c,
            None => {
                return Err(refused("the position is not on a branch"));
            },
        };
        let mut parents: Vec<CommitHash> = Vec::new();
        parents.push(parent);
        proof {
            assert(hashes_of(parents@) =~= seq![parent@]);
            assert(hashes_of(parents@)[0] == parent@);
        }
        if !self.graph.add_commit(hash, parents) {
            return Err(refused("the commit cannot be added"));
        }
        match &self.head {
            HeadRef::Attached(branch) => {
                let name = branch.clone();
                let moved = self.branches.set(&name, hash);
                assert(moved);
            },
            HeadRef::Detached(_) => {},
        }
        proof {
            assert(final(self)@.semantic.remove(hash@) =~= old(self)@.semantic.remove(hash@));
        }
        Ok(())
    }

    /// Creates the semantic commit `commit_hash` on top of the position, as
    /// `commit_on_head` does. Reading the new commit gives `commit` back.
    pub fn create_semantic_commit(&mut self, commit_hash: CommitHash, commit: SemanticCommit) -> (r:
        Result<(), RepositoryError>)
        ensures
            r is Ok <==> !old(self)@.history.has_commit(commit_hash@) && old(self)@.head is Attached
                && old(self)@.head_commit() is Some && old(self)@.history.has_commit(
                old(self)@.head_commit().unwrap(),
            ),
            r is Ok ==> old(self)@.creates_semantic_commit(commit@, commit_hash@, final(self)@),
            r is Err ==> final(self)@ == old(self)@,
            old(self)@.is_sound() ==> final(self)@.is_sound(),
    {
        match self.commit_on_head(commit_hash) {
            Ok(()) => {
                self.semantic.put(commit_hash, commit);
                proof {
                    assert(final(self)@.semantic.remove(commit_hash@) =~= old(
                        self,
                    )@.semantic.remove(commit_hash@));
                }
                Ok(())
            },
            Err(e) => Err(e),
        }
    }

    /// Reads the commit as a semantic commit. It fails if the commit is not
    /// in the graph or was not created as a semantic commit.
    pub fn read_semantic_commit(&self, commit_hash: &CommitHash) -> (r: Result<
        SemanticCommit,
        RepositoryError,
    >)
        ensures
            match r {
                Ok(commit) => self@.reads_semantic_commit(commit_hash@, commit@),
                Err(_) => !(self@.history.has_commit(commit_hash@) && self@.semantic.contains_key(
                    commit_hash@,
                )),
            },
    {
        if !self.graph.has_commit(commit_hash) {
            return Err(refused("the commit is not in the graph"));
        }
        match self.semantic.get(commit_hash) {
            Some(commit) => Ok(commit),
            None => Err(refused("the commit is not a semantic commit")),
        }
    }

    /// Adds the commit `hash` with the given parents, and says whether it did:
    /// it does so if the commit is new, every parent is in the graph, and no
    /// parent is named twice. Names and position stay.
    pub fn add_commit(&mut self, hash: CommitHash, parents: Vec<CommitHash>) -> (added: bool)
        ensures
            added == (!old(self)@.history.has_commit(hash@) && hashes_of(parents@).no_duplicates()
                && forall|k: int|
                0 <= k < parents@.len() ==> old(self)@.history.has_commit(
                    #[trigger] hashes_of(parents@)[k],
                )),
            added ==> final(self)@ == (RepositoryState {
                history: final(self)@.history,
                ..old(self)@
            }) && final(self)@.history.parents == old(self)@.history.parents.insert(
                hash@,
                hashes_of(parents@),
            ),
            !added ==> final(self)@ == old(self)@,
            old(self)@.is_sound() ==> final(self)@.is_sound(),
    {
        self.graph.add_commit(hash, parents)
    }

    /// Lists the ancestor commits of the given commit, the direct parent first,
    /// not more than `max` of them. It fails with `InvalidRepository` where a
    /// commit on the way has more than one parent, and with `Unknown` where the
    /// given commit is not in the graph.
    pub fn list_ancestors(&self, commit_hash: &CommitHash, max: Option<usize>) -> (r: Result<
        Vec<CommitHash>,
        RepositoryError,
    >)
        ensures
            match r {
                Ok(v) => self@.history.lists_walk(
                    Direction::Parents,
                    commit_hash@,
                    max,
                    hashes_of(v@),
                ),
                Err(RepositoryError::InvalidRepository(_)) => self@.history.has_commit(
                    commit_hash@,
                ) && self@.history.meets_fork(Direction::Parents, commit_hash@, max),
                Err(RepositoryError::Unknown(_)) => !self@.history.has_commit(commit_hash@),
                Err(RepositoryError::Git2Error(_)) => false,
            },
    {
        self.graph.list_ancestors(commit_hash, max)
    }

    /// Lists the descendant commits of the given commit, the direct child
    /// first, not more than `max` of them. It fails with `InvalidRepository`
    /// where a commit on the way has more than one child, and with `Unknown`
    /// where the given commit is not in the graph.
    pub fn list_descendants(&self, commit_hash: &CommitHash, max: Option<usize>) -> (r: Result<
        Vec<CommitHash>,
        RepositoryError,
    >)
        ensures
            match r {
                Ok(v) => self@.history.lists_walk(
                    Direction::Children,
                    commit_hash@,
                    max,
                    hashes_of(v@),
                ),
                Err(RepositoryError::InvalidRepository(_)) => self@.history.has_commit(
                    commit_hash@,
                ) && self@.history.meets_fork(Direction::Children, commit_hash@, max),
                Err(RepositoryError::Unknown(_)) => !self@.history.has_commit(commit_hash@),
                Err(RepositoryError::Git2Error(_)) => false,
            },
    {
        self.graph.list_descendants(commit_hash, max)
    }

    /// Returns the children commits of the given commit: all of them, each
    /// once, however many there are. It never fails.
    pub fn list_children(&self, commit_hash: &CommitHash) -> (r: Result<
        Vec<CommitHash>,
        RepositoryError,
    >)
        ensures
            r matches Ok(v) && hashes_of(v@).no_duplicates() && hashes_of(v@).to_set()
                == self@.history.children(commit_hash@),
    {
        self.graph.list_children(commit_hash)
    }

    /// Returns the merge base of the two commits. It fails with
    /// `InvalidRepository` where there is more than one, and with `Unknown`
    /// where the two have no common ancestor.
    pub fn find_merge_base(&self, commit_hash1: &CommitHash, commit_hash2: &CommitHash) -> (r:
        Result<CommitHash, RepositoryError>)
        ensures
            match r {
                Ok(m) => self@.history.is_merge_base(commit_hash1@, commit_hash2@, m@) && forall|
                    b: Seq<u8>,
                |
                    self@.history.is_merge_base(commit_hash1@, commit_hash2@, b) ==> b == m@,
                Err(RepositoryError::InvalidRepository(_)) => exists|a: Seq<u8>, b: Seq<u8>|
                    a != b && #[trigger] self@.history.is_merge_base(
                        commit_hash1@,
                        commit_hash2@,
                        a,
                    ) && #[trigger] self@.history.is_merge_base(commit_hash1@, commit_hash2@, b),
                Err(RepositoryError::Unknown(_)) => forall|x: Seq<u8>|
                    !(#[trigger] self@.history.is_ancestor_or_self(x, commit_hash1@)
                        && self@.history.is_ancestor_or_self(x, commit_hash2@)),
                Err(RepositoryError::Git2Error(_)) => false,
            },
    {
        let r = self.graph.find_merge_base(commit_hash1, commit_hash2);
        proof {
            let h = self.graph@;
            assert(self@.history == h);
            if r is Err && r->Err_0 is InvalidRepository {
                let (a, b) = choose|a: Seq<u8>, b: Seq<u8>|
                    a != b && #[trigger] h.is_merge_base(commit_hash1@, commit_hash2@, a)
                        && #[trigger] h.is_merge_base(commit_hash1@, commit_hash2@, b);
                assert(self@.history.is_merge_base(commit_hash1@, commit_hash2@, a));
                assert(self@.history.is_merge_base(commit_hash1@, commit_hash2@, b));
            }
        }
        r
    }
}

} // verus!
