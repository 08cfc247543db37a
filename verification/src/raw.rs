//! The contract of a repository: what each operation on branches, tags,
//! commits, the working tree and remotes returns and changes.

use crate::graph::{Direction, Head, RepositoryState, SemanticCommitView};
use crate::hash::{hashes_of, names_of, Branch, CommitHash, Tag};
use vstd::prelude::*;
use vstd::slice::slice_to_vec;
use vstd::std_specs::convert::FromSpecImpl;

verus! {

/// How an operation on a repository may fail.
#[derive(Debug)]
pub enum RepositoryError {
    /// The store underneath reported a failure.
    Git2Error(git2::Error),
    /// What the operation takes for granted of the history does not hold
    /// (there is a merge commit, or history has diverged).
    InvalidRepository(String),
    /// A failure of no other kind.
    Unknown(String),
}

impl RepositoryError {
    /// The text of the error.
    pub fn message(&self) -> (text: String)
        ensures
            self is InvalidRepository ==> text@ == "the repository is invalid: "@
                + self->InvalidRepository_0@,
            self is Unknown ==> text@ == "unknown error: "@ + self->Unknown_0@,
            self is Git2Error ==> exists|tail: Seq<char>| text@ == "git2 error: "@ + tail,
    {
        match self {
            RepositoryError::Git2Error(e) => {
                let tail = git2_error_text(e);
                concat("git2 error: ", &tail)
            },
            RepositoryError::InvalidRepository(reason) => concat("the repository is invalid: ", reason),
            RepositoryError::Unknown(reason) => concat("unknown error: ", reason),
        }
    }
}

impl From<git2::Error> for RepositoryError {
    fn from(e: git2::Error) -> (error: RepositoryError) {
        RepositoryError::Git2Error(e)
    }
}

impl FromSpecImpl<git2::Error> for RepositoryError {
    open spec fn obeys_from_spec() -> bool {
        true
    }

    open spec fn from_spec(e: git2::Error) -> RepositoryError {
        RepositoryError::Git2Error(e)
    }
}

/// The reserved state as it is stored: the bytes of its encoding.
#[derive(Debug, Clone)]
pub struct ReservedState {
    pub content: Vec<u8>,
}

/// A commit without any diff on non-reserved area.
#[derive(Debug, Clone)]
pub struct SemanticCommit {
    pub title: String,
    pub body: String,
    /// (If this commit made any change) the new reserved state.
    pub reserved_state: Option<ReservedState>,
}

impl View for SemanticCommit {
    type V = SemanticCommitView;

    open spec fn view(&self) -> SemanticCommitView {
        SemanticCommitView {
            title: self.title@,
            body: self.body@,
            reserved_state: match self.reserved_state {
                Some(state) => Some(state.content@),
                None => None,
            },
        }
    }
}

impl SemanticCommit {
    /// An independent commit with the same title, body and reserved state.
    pub fn copy(&self) -> (c: SemanticCommit)
        ensures
            c@ == self@,
    {
        let reserved_state = match &self.reserved_state {
            Some(state) => Some(ReservedState { content: slice_to_vec(state.content.as_slice()) }),
            None => None,
        };
        SemanticCommit { title: self.title.clone(), body: self.body.clone(), reserved_state }
    }
}

/// The pairs of a list as plain values, in the list's order.
pub open spec fn pairs_of(v: Seq<(String, String)>) -> Seq<(Seq<char>, Seq<char>)> {
    v.map_values(|p: (String, String)| (p.0@, p.1@))
}

/// The triples of a list as plain values, in the list's order.
pub open spec fn triples_of(v: Seq<(String, String, CommitHash)>) -> Seq<
    (Seq<char>, Seq<char>, Seq<u8>),
> {
    v.map_values(|p: (String, String, CommitHash)| (p.0@, p.1@, p.2@))
}

/// A raw handle for the local repository.
///
/// An implementation holds the repository for itself while it lives. Every
/// operation may fail where the store underneath fails; what a contract states
/// of `Ok` is what the caller may rely on when the operation has succeeded. An
/// operation that changes the repository and fails leaves it as it was.
pub trait RawRepository: Sized + Send + Sync + 'static {
    /// What the repository holds.
    spec fn state(&self) -> RepositoryState;

    /// Initialize the genesis repository from the genesis working tree.
    ///
    /// Fails if there is already a repository.
    fn init(directory: &str) -> (r: Result<Self, RepositoryError>);

    /// Loads an existing repository. Fails if there is none.
    fn open(directory: &str) -> (r: Result<Self, RepositoryError>);

    // ----------------------
    // Branch-related methods
    // ----------------------
    /// Returns the list of branches: each name once.
    fn list_branches(&self) -> (r: Result<Vec<Branch>, RepositoryError>)
        ensures
            r matches Ok(v) ==> names_of(v@).no_duplicates() && names_of(v@).to_set()
                == self.state().branches.dom(),
    ;

    /// Creates a branch on the commit. Fails if the name is taken or the
    /// commit is unknown.
    fn create_branch(&mut self, branch_name: &Branch, commit_hash: CommitHash) -> (r: Result<
        (),
        RepositoryError,
    >)
        ensures
            r is Ok ==> !old(self).state().branches.contains_key(branch_name@) && old(
                self,
            ).state().history.has_commit(commit_hash@) && final(self).state() == (RepositoryState {
                branches: old(self).state().branches.insert(branch_name@, commit_hash@),
                ..old(self).state()
            }),
            r is Err ==> final(self).state() == old(self).state(),
    ;

    /// Gets the commit that the branch points to. Fails if there is no such branch.
    fn locate_branch(&self, branch: &Branch) -> (r: Result<CommitHash, RepositoryError>)
        ensures
            r matches Ok(c) ==> self.state().branches.contains_key(branch@)
                && self.state().branches[branch@] == c@,
    ;

    /// Gets the list of branches from the commit: each name once.
    fn get_branches(&self, commit_hash: &CommitHash) -> (r: Result<Vec<Branch>, RepositoryError>)
        ensures
            r matches Ok(v) ==> names_of(v@).no_duplicates() && names_of(v@).to_set()
                == self.state().branches_on(commit_hash@),
    ;

    /// Moves the branch. Fails if the branch or the commit is unknown.
    fn move_branch(&mut self, branch: &Branch, commit_hash: &CommitHash) -> (r: Result<(), RepositoryError>)
        ensures
            r is Ok ==> old(self).state().branches.contains_key(branch@) && old(
                self,
            ).state().history.has_commit(commit_hash@) && final(self).state() == (RepositoryState {
                branches: old(self).state().branches.insert(branch@, commit_hash@),
                ..old(self).state()
            }),
            r is Err ==> final(self).state() == old(self).state(),
    ;

    /// Deletes the branch.
    fn delete_branch(&mut self, branch: &Branch) -> (r: Result<(), RepositoryError>)
        ensures
            r is Ok ==> old(self).state().branches.contains_key(branch@) && final(self).state()
                == (RepositoryState {
                branches: old(self).state().branches.remove(branch@),
                ..old(self).state()
            }),
            r is Err ==> final(self).state() == old(self).state(),
    ;

    // -------------------
    // Tag-related methods
    // -------------------
    /// Returns the list of tags: each name once.
    fn list_tags(&self) -> (r: Result<Vec<Tag>, RepositoryError>)
        ensures
            r matches Ok(v) ==> names_of(v@).no_duplicates() && names_of(v@).to_set()
                == self.state().tags.dom(),
    ;

    /// Creates a tag on the given commit. Fails if the name is taken or the
    /// commit is unknown: a tag is never moved.
    fn create_tag(&mut self, tag: &Tag, commit_hash: &CommitHash) -> (r: Result<(), RepositoryError>)
        ensures
            r is Ok ==> !old(self).state().tags.contains_key(tag@) && old(self).state().history.has_commit(
                commit_hash@,
            ) && final(self).state() == (RepositoryState {
                tags: old(self).state().tags.insert(tag@, commit_hash@),
                ..old(self).state()
            }),
            r is Err ==> final(self).state() == old(self).state(),
    ;

    /// Gets the commit that the tag points to. Fails if there is no such tag.
    fn locate_tag(&self, tag: &Tag) -> (r: Result<CommitHash, RepositoryError>)
        ensures
            r matches Ok(c) ==> self.state().tags.contains_key(tag@) && self.state().tags[tag@]
                == c@,
    ;

    /// Gets the tags on the given commit: each name once.
    fn get_tag(&self, commit_hash: &CommitHash) -> (r: Result<Vec<Tag>, RepositoryError>)
        ensures
            r matches Ok(v) ==> names_of(v@).no_duplicates() && names_of(v@).to_set()
                == self.state().tags_on(commit_hash@),
    ;

    /// Removes the tag.
    fn remove_tag(&mut self, tag: &Tag) -> (r: Result<(), RepositoryError>)
        ensures
            r is Ok ==> old(self).state().tags.contains_key(tag@) && final(self).state() == (
            RepositoryState { tags: old(self).state().tags.remove(tag@), ..old(self).state() }),
            r is Err ==> final(self).state() == old(self).state(),
    ;

    // ----------------------
    // Commit-related methods
    // ----------------------
    /// Creates a commit from the currently checked out branch, after applying
    /// `diff` if there is one. Returns the new commit.
    fn create_commit(&mut self, commit_message: &str, diff: Option<&str>) -> (r: Result<
        CommitHash,
        RepositoryError,
    >)
        ensures
            r matches Ok(c) ==> old(self).state().adds_commit(c@, final(self).state()),
            r is Err ==> final(self).state() == old(self).state(),
    ;

    /// Creates a semantic commit from the currently checked out branch.
    /// Reading the new commit gives `commit` back.
    fn create_semantic_commit(&mut self, commit: SemanticCommit) -> (r: Result<CommitHash, RepositoryError>)
        ensures
            r matches Ok(c) ==> old(self).state().creates_semantic_commit(
                commit@,
                c@,
                final(self).state(),
            ),
            r is Err ==> final(self).state() == old(self).state(),
    ;

    /// Reads the commit as a semantic commit. Its reserved state is there only
    /// if the commit changed it.
    fn read_semantic_commit(&self, commit_hash: &CommitHash) -> (r: Result<SemanticCommit, RepositoryError>)
        ensures
            r matches Ok(commit) ==> self.state().reads_semantic_commit(commit_hash@, commit@),
    ;

    /// Removes orphaned commits. Nothing that a branch, a tag or the position
    /// leads to is touched.
    fn run_garbage_collection(&mut self) -> (r: Result<(), RepositoryError>)
        ensures
            r is Ok ==> old(self).state().collects_garbage(final(self).state()),
            r is Err ==> final(self).state() == old(self).state(),
    ;

    // ----------------------------
    // Working-tree-related methods
    // ----------------------------
    /// Checkouts and cleans the current working tree: changes and untracked
    /// files are dropped. The graph, the names and the position stay.
    fn checkout_clean(&mut self) -> (r: Result<(), RepositoryError>)
        ensures
            final(self).state() == old(self).state(),
    ;

    /// Checkouts to the branch: the position is attached to it.
    fn checkout(&mut self, branch: &Branch) -> (r: Result<(), RepositoryError>)
        ensures
            r is Ok ==> old(self).state().branches.contains_key(branch@) && final(self).state()
                == (RepositoryState {
                head: Head::Attached { branch: branch@ },
                ..old(self).state()
            }),
            r is Err ==> final(self).state() == old(self).state(),
    ;

    /// Checkouts to the commit and make `HEAD` in a detached mode.
    fn checkout_detach(&mut self, commit_hash: &CommitHash) -> (r: Result<(), RepositoryError>)
        ensures
            r is Ok ==> old(self).state().history.has_commit(commit_hash@) && final(self).state() == (
            RepositoryState { head: Head::Detached { commit: commit_hash@ }, ..old(self).state() }),
            r is Err ==> final(self).state() == old(self).state(),
    ;

    // ---------------
    // Various queries
    // ---------------
    /// Returns the commit hash of the current HEAD.
    fn get_head(&self) -> (r: Result<CommitHash, RepositoryError>)
        ensures
            r matches Ok(c) ==> self.state().head_commit() == Some(c@) && self.state().history.has_commit(
                c@,
            ),
    ;

    /// Returns the commit hash of the initial commit: a commit without parents.
    ///
    /// Fails if the repository is empty.
    fn get_initial_commit(&self) -> (r: Result<CommitHash, RepositoryError>)
        ensures
            r matches Ok(c) ==> self.state().history.has_commit(c@) && self.state().history.parents[c@].len() == 0,
    ;

    /// Returns the diff of the given commit, as the store writes it.
    fn show_commit(&self, commit_hash: &CommitHash) -> (r: Result<String, RepositoryError>)
        ensures
            r is Ok ==> self.state().history.has_commit(commit_hash@),
    ;

    /// Lists the ancestor commits of the given commit (The first element is the direct parent).
    ///
    /// It fails if there is a merge commit on the way, and with
    /// `InvalidRepository` for no other reason.
    /// * `max`: the maximum number of entries to be returned.
    fn list_ancestors(&self, commit_hash: &CommitHash, max: Option<usize>) -> (r: Result<
        Vec<CommitHash>,
        RepositoryError,
    >)
        ensures
            r matches Ok(v) ==> self.state().history.lists_walk(
                Direction::Parents,
                commit_hash@,
                max,
                hashes_of(v@),
            ),
            self.state().history.meets_fork(Direction::Parents, commit_hash@, max) ==> (r matches Err(e)
                && (e is InvalidRepository || e is Git2Error)),
            r matches Err(RepositoryError::InvalidRepository(_)) ==> self.state().history.meets_fork(
                Direction::Parents,
                commit_hash@,
                max,
            ),
    ;

    /// Lists the descendant commits of the given commit (The first element is the direct child).
    ///
    /// It fails if there are diverged commits (i.e., having multiple children
    /// commit) on the way, and with `InvalidRepository` for no other reason.
    /// * `max`: the maximum number of entries to be returned.
    fn list_descendants(&self, commit_hash: &CommitHash, max: Option<usize>) -> (r: Result<
        Vec<CommitHash>,
        RepositoryError,
    >)
        ensures
            r matches Ok(v) ==> self.state().history.lists_walk(
                Direction::Children,
                commit_hash@,
                max,
                hashes_of(v@),
            ),
            self.state().history.meets_fork(Direction::Children, commit_hash@, max) ==> (r matches Err(e)
                && (e is InvalidRepository || e is Git2Error)),
            r matches Err(RepositoryError::InvalidRepository(_)) ==> self.state().history.meets_fork(
                Direction::Children,
                commit_hash@,
                max,
            ),
    ;

    /// Returns the children commits of the given commit: all of them, each
    /// once, however many there are. The shape of the history is no reason
    /// for it to fail.
    fn list_children(&self, commit_hash: &CommitHash) -> (r: Result<Vec<CommitHash>, RepositoryError>)
        ensures
            r matches Ok(v) ==> hashes_of(v@).no_duplicates() && hashes_of(v@).to_set()
                == self.state().history.children(commit_hash@),
            !(r matches Err(RepositoryError::InvalidRepository(_))),
    ;

    /// Returns the merge base of the two commits: their nearest common ancestor.
    fn find_merge_base(&self, commit_hash1: &CommitHash, commit_hash2: &CommitHash) -> (r: Result<
        CommitHash,
        RepositoryError,
    >)
        ensures
            r matches Ok(m) ==> self.state().history.is_merge_base(commit_hash1@, commit_hash2@, m@),
    ;

    // ----------------------
    // Remote-related methods
    // ----------------------
    /// Adds a remote repository.
    fn add_remote(&mut self, remote_name: &str, remote_url: &str) -> (r: Result<(), RepositoryError>)
        ensures
            r is Ok ==> final(self).state() == (RepositoryState {
                remotes: old(self).state().remotes.insert(remote_name@, remote_url@),
                ..old(self).state()
            }),
            r is Err ==> final(self).state() == old(self).state(),
    ;

    /// Removes a remote repository, and with it what was tracked of it.
    fn remove_remote(&mut self, remote_name: &str) -> (r: Result<(), RepositoryError>)
        ensures
            r is Ok ==> old(self).state().remotes.contains_key(remote_name@) && final(self).state()
                == (RepositoryState {
                remotes: old(self).state().remotes.remove(remote_name@),
                tracking: final(self).state().tracking,
                ..old(self).state()
            }) && (forall|t: (Seq<char>, Seq<char>, Seq<u8>)| #[trigger]
                final(self).state().tracking.contains(t) ==> t.0 != remote_name@ && old(
                    self,
                ).state().tracking.contains(t)),
            r is Err ==> final(self).state() == old(self).state(),
    ;

    /// Fetches the remote repository. Commits and tracked remote branches may
    /// come in; no commit is lost or changed, and the names, the position and
    /// the remotes stay.
    fn fetch_all(&mut self) -> (r: Result<(), RepositoryError>)
        ensures
            r is Ok ==> final(self).state() == (RepositoryState {
                history: final(self).state().history,
                semantic: final(self).state().semantic,
                tracking: final(self).state().tracking,
                ..old(self).state()
            }) && old(self).state().history.parents.submap_of(final(self).state().history.parents) && old(
                self,
            ).state().semantic.submap_of(final(self).state().semantic),
            r is Err ==> final(self).state() == old(self).state(),
    ;

    /// Lists all the remote repositories, each once.
    ///
    /// Returns `(remote_name, remote_url)`.
    fn list_remotes(&self) -> (r: Result<Vec<(String, String)>, RepositoryError>)
        ensures
            r matches Ok(v) ==> pairs_of(v@).no_duplicates() && (forall|
                name: Seq<char>,
                url: Seq<char>,
            | #[trigger]
                pairs_of(v@).contains((name, url)) <==> self.state().remotes.contains_key(name)
                    && self.state().remotes[name] == url),
    ;

    /// Lists all the remote tracking branches, each once.
    ///
    /// Returns `(remote_name, remote_url, commit_hash)`
    fn list_remote_tracking_branches(&self) -> (r: Result<
        Vec<(String, String, CommitHash)>,
        RepositoryError,
    >)
        ensures
            r matches Ok(v) ==> triples_of(v@).no_duplicates() && triples_of(v@).to_set()
                == self.state().tracking,
    ;
}

/// `git2::Error::message`: the text that libgit2 gave with the error. Nothing
/// is claimed of it.
#[verifier::external_body]
fn git2_error_text(e: &git2::Error) -> (text: String) {
    e.message().to_string()
}


/// The two texts, one after the other.
fn concat(head: &str, tail: &String) -> (text: String)
    ensures
        text@ == head@ + tail@,
{
    let mut text = String::new();
    text.push_str(head);
    text.push_str(tail.as_str());
    text
}

} // verus!
