//! The mathematical model of a repository: its commit graph, its names, its
//! position, and the queries on them.

use vstd::prelude::*;

verus! {

/// Where the repository stands.
pub enum Head {
    /// On a branch, which points to a commit.
    Attached { branch: Seq<char> },
    /// On a commit, with no branch.
    Detached { commit: Seq<u8> },
}

/// A semantic commit as plain values.
pub struct SemanticCommitView {
    pub title: Seq<char>,
    pub body: Seq<char>,
    /// The bytes of the new reserved state, if the commit changed it.
    pub reserved_state: Option<Seq<u8>>,
}

/// The way in which a walk goes through the graph.
pub enum Direction {
    /// From a commit to its parent.
    Parents,
    /// From a commit to its child.
    Children,
}

/// Whether a count stays within a limit, where there is one.
pub open spec fn within(n: int, max: Option<usize>) -> bool {
    match max {
        Some(m) => n <= m,
        None => true,
    }
}

/// Whether a count is under a limit, where there is one.
pub open spec fn below(n: int, max: Option<usize>) -> bool {
    match max {
        Some(m) => n < m,
        None => true,
    }
}

/// The commit from which place `i` of a walk is reached: the start, or the
/// entry before.
pub open spec fn before(start: Seq<u8>, chain: Seq<Seq<u8>>, i: int) -> Seq<u8> {
    if i == 0 {
        start
    } else {
        chain[i - 1]
    }
}

/// The commit at which a walk stands after its last entry.
pub open spec fn tip(start: Seq<u8>, chain: Seq<Seq<u8>>) -> Seq<u8> {
    before(start, chain, chain.len() as int)
}

/// The commit graph: every commit, with its parents in order.
pub struct History {
    pub parents: Map<Seq<u8>, Seq<Seq<u8>>>,
}

/// What a repository holds.
pub struct RepositoryState {
    pub history: History,
    /// What each commit reads as, as a semantic commit.
    pub semantic: Map<Seq<u8>, SemanticCommitView>,
    /// Each branch with the commit it points to.
    pub branches: Map<Seq<char>, Seq<u8>>,
    /// Each tag with the commit it points to.
    pub tags: Map<Seq<char>, Seq<u8>>,
    pub head: Head,
    /// Each remote's name with its location.
    pub remotes: Map<Seq<char>, Seq<char>>,
    /// The remote branches that are tracked: remote name, remote location, commit.
    pub tracking: Set<(Seq<char>, Seq<char>, Seq<u8>)>,
}

impl History {
    pub open spec fn has_commit(self, c: Seq<u8>) -> bool {
        self.parents.contains_key(c)
    }

    /// `parent` is among the parents of `child`.
    pub open spec fn is_child(self, child: Seq<u8>, parent: Seq<u8>) -> bool {
        self.parents.contains_key(child) && self.parents[child].contains(parent)
    }

    /// All direct children of `c`.
    pub open spec fn children(self, c: Seq<u8>) -> Set<Seq<u8>> {
        Set::new(|d: Seq<u8>| self.is_child(d, c))
    }

    /// The commits one step from `c`: its parents, or its children.
    pub open spec fn next_of(self, dir: Direction, c: Seq<u8>) -> Set<Seq<u8>> {
        match dir {
            Direction::Parents => Set::new(|p: Seq<u8>| self.is_child(c, p)),
            Direction::Children => self.children(c),
        }
    }

    /// More than one commit is one step from `c`: a merge commit on the way to
    /// the parents, diverged history on the way to the children.
    pub open spec fn is_fork(self, dir: Direction, c: Seq<u8>) -> bool {
        exists|a: Seq<u8>, b: Seq<u8>|
            a != b && #[trigger] self.next_of(dir, c).contains(a) && #[trigger] self.next_of(
                dir,
                c,
            ).contains(b)
    }

    /// `chain` is a walk from `start`: each entry is the only commit one step
    /// from the one before it.
    pub open spec fn is_chain(self, dir: Direction, start: Seq<u8>, chain: Seq<Seq<u8>>) -> bool {
        forall|i: int|
            0 <= i < chain.len() ==> self.next_of(dir, before(start, chain, i)) == set![
                #[trigger] chain[i],
            ]
    }

    /// `chain` is what a walk from the known commit `start` lists under the
    /// limit `max`: nearest first, not more than `max` entries, stopping
    /// short of `max` only where no further commit follows, and with no fork
    /// at a commit that it lists.
    pub open spec fn lists_walk(
        self,
        dir: Direction,
        start: Seq<u8>,
        max: Option<usize>,
        chain: Seq<Seq<u8>>,
    ) -> bool {
        &&& self.has_commit(start)
        &&& self.is_chain(dir, start, chain)
        &&& within(chain.len() as int, max)
        &&& below(chain.len() as int, max) ==> self.next_of(dir, tip(start, chain))
            == Set::<Seq<u8>>::empty()
        &&& chain.len() > 0 ==> !self.is_fork(dir, tip(start, chain))
    }

    /// A walk from `start` under the limit `max` comes to a fork: at a commit
    /// that it lists, or at `start` itself where it is to list anything.
    pub open spec fn meets_fork(self, dir: Direction, start: Seq<u8>, max: Option<usize>) -> bool {
        exists|chain: Seq<Seq<u8>>|
            #[trigger] self.is_chain(dir, start, chain) && within(chain.len() as int, max) && (
            chain.len() > 0 || below(0, max)) && self.is_fork(dir, tip(start, chain))
    }

    /// `path` leads from `from` to `to` over parent links: it begins with
    /// `from`, ends with `to`, and each commit of it is a child of the next.
    pub open spec fn is_path(self, from: Seq<u8>, to: Seq<u8>, path: Seq<Seq<u8>>) -> bool {
        &&& path.len() > 0
        &&& path[0] == from
        &&& path[path.len() - 1] == to
        &&& self.has_commit(from)
        &&& forall|i: int| 0 <= i < path.len() - 1 ==> self.is_child(#[trigger] path[i], path[i + 1])
    }

    /// `a` is `d` or one of its ancestors.
    pub open spec fn is_ancestor_or_self(self, a: Seq<u8>, d: Seq<u8>) -> bool {
        exists|path: Seq<Seq<u8>>| #[trigger] self.is_path(d, a, path)
    }

    /// `m` is a nearest common ancestor of `c1` and `c2`: an ancestor of both
    /// (or one of them), with no other common ancestor below it.
    pub open spec fn is_merge_base(self, c1: Seq<u8>, c2: Seq<u8>, m: Seq<u8>) -> bool {
        &&& self.is_ancestor_or_self(m, c1)
        &&& self.is_ancestor_or_self(m, c2)
        &&& forall|x: Seq<u8>|
            #[trigger] self.is_ancestor_or_self(x, c1) && self.is_ancestor_or_self(x, c2)
                && self.is_ancestor_or_self(m, x) ==> x == m
    }

}

impl RepositoryState {
    /// The commit at which the repository stands, if any.
    pub open spec fn head_commit(self) -> Option<Seq<u8>> {
        match self.head {
            Head::Attached { branch } => if self.branches.contains_key(branch) {
                Some(self.branches[branch])
            } else {
                None
            },
            Head::Detached { commit } => Some(commit),
        }
    }

    /// Every branch and every tag points to a commit of the graph, and the
    /// position is either attached to a branch that is there, or detached at a
    /// commit of the graph.
    pub open spec fn is_sound(self) -> bool {
        &&& forall|b: Seq<char>| #[trigger]
            self.branches.contains_key(b) ==> self.history.has_commit(self.branches[b])
        &&& forall|t: Seq<char>| #[trigger]
            self.tags.contains_key(t) ==> self.history.has_commit(self.tags[t])
        &&& self.head_commit() is Some
        &&& self.history.has_commit(self.head_commit().unwrap())
    }

    /// A branch, a tag or the position points to `c`.
    pub open spec fn is_named(self, c: Seq<u8>) -> bool {
        ||| exists|b: Seq<char>| #[trigger] self.branches.contains_key(b) && self.branches[b] == c
        ||| exists|t: Seq<char>| #[trigger] self.tags.contains_key(t) && self.tags[t] == c
        ||| self.head_commit() == Some(c)
    }

    /// `c` is a named commit or an ancestor of one.
    pub open spec fn is_reachable(self, c: Seq<u8>) -> bool {
        exists|d: Seq<u8>| #[trigger] self.is_named(d) && self.history.is_ancestor_or_self(c, d)
    }

    /// The names of the branches that point to `c`.
    pub open spec fn branches_on(self, c: Seq<u8>) -> Set<Seq<char>> {
        Set::new(|b: Seq<char>| self.branches.contains_key(b) && self.branches[b] == c)
    }

    /// The names of the tags that point to `c`.
    pub open spec fn tags_on(self, c: Seq<u8>) -> Set<Seq<char>> {
        Set::new(|t: Seq<char>| self.tags.contains_key(t) && self.tags[t] == c)
    }

    /// `post` is this state with the new commit `hash` on top of the position.
    /// An attached position takes its branch along; of a detached one only the
    /// graph is stated.
    pub open spec fn adds_commit(self, hash: Seq<u8>, post: RepositoryState) -> bool {
        &&& !self.history.has_commit(hash)
        &&& post.history.parents == self.history.parents.insert(
            hash,
            match self.head_commit() {
                Some(c) => seq![c],
                None => Seq::<Seq<u8>>::empty(),
            },
        )
        &&& post.semantic.remove(hash) == self.semantic.remove(hash)
        &&& post.tags == self.tags
        &&& post.remotes == self.remotes
        &&& post.tracking == self.tracking
        &&& match self.head {
            Head::Attached { branch } => post.head == self.head && post.branches
                == self.branches.insert(branch, hash),
            Head::Detached { .. } => true,
        }
    }

    /// `post` is this state with the new commit `hash`, which reads as `commit`.
    pub open spec fn creates_semantic_commit(
        self,
        commit: SemanticCommitView,
        hash: Seq<u8>,
        post: RepositoryState,
    ) -> bool {
        &&& self.adds_commit(hash, post)
        &&& post.semantic.contains_key(hash)
        &&& post.semantic[hash] == commit
    }

    /// The commit `hash` reads as `commit`.
    pub open spec fn reads_semantic_commit(self, hash: Seq<u8>, commit: SemanticCommitView) -> bool {
        &&& self.history.has_commit(hash)
        &&& self.semantic.contains_key(hash)
        &&& self.semantic[hash] == commit
    }

    /// `post` is this state after a collection: the names, the position and the
    /// remotes are as before, no commit is new or changed, and every reachable
    /// commit is kept.
    pub open spec fn collects_garbage(self, post: RepositoryState) -> bool {
        &&& post.branches == self.branches
        &&& post.tags == self.tags
        &&& post.head == self.head
        &&& post.remotes == self.remotes
        &&& post.tracking == self.tracking
        &&& post.history.parents.submap_of(self.history.parents)
        &&& post.semantic.submap_of(self.semantic)
        &&& forall|c: Seq<u8>| #[trigger]
            self.is_reachable(c) ==> post.history.has_commit(c) && (self.semantic.contains_key(c)
                ==> post.semantic.contains_key(c))
    }
}

/// Two walks from one commit agree wherever both have an entry.
pub proof fn lemma_chains_agree(
    s: History,
    dir: Direction,
    start: Seq<u8>,
    a: Seq<Seq<u8>>,
    b: Seq<Seq<u8>>,
    i: int,
)
    requires
        s.is_chain(dir, start, a),
        s.is_chain(dir, start, b),
        0 <= i < a.len(),
        i < b.len(),
    ensures
        a[i] == b[i],
        before(start, a, i) == before(start, b, i),
    decreases i,
{
    if i > 0 {
        lemma_chains_agree(s, dir, start, a, b, i - 1);
    }
    assert(s.next_of(dir, before(start, a, i)) == set![a[i]]);
    assert(s.next_of(dir, before(start, b, i)) == set![b[i]]);
    assert(set![a[i]].contains(a[i]));
}

/// Two walks from one commit, one as long as the other or longer: the shorter
/// one's tip is where the longer one stands at that length.
pub proof fn lemma_tip_on_longer_chain(
    s: History,
    dir: Direction,
    start: Seq<u8>,
    a: Seq<Seq<u8>>,
    b: Seq<Seq<u8>>,
)
    requires
        s.is_chain(dir, start, a),
        s.is_chain(dir, start, b),
        a.len() <= b.len(),
    ensures
        tip(start, a) == before(start, b, a.len() as int),
{
    if a.len() > 0 {
        lemma_chains_agree(s, dir, start, a, b, a.len() - 1);
    }
}

/// A walk that stands where exactly one commit follows goes on to that commit.
pub proof fn lemma_chain_push(
    s: History,
    dir: Direction,
    start: Seq<u8>,
    chain: Seq<Seq<u8>>,
    next: Seq<u8>,
)
    requires
        s.is_chain(dir, start, chain),
        s.next_of(dir, tip(start, chain)) == set![next],
    ensures
        s.is_chain(dir, start, chain.push(next)),
        tip(start, chain.push(next)) == next,
{
    let longer = chain.push(next);
    assert forall|i: int| 0 <= i < longer.len() implies s.next_of(dir, before(start, longer, i))
        == set![#[trigger] longer[i]] by {
        if i < chain.len() {
            assert(longer[i] == chain[i]);
            assert(before(start, longer, i) == before(start, chain, i));
        }
    }
}

/// A walk has one result: what it lists is fixed by the graph, the commit it
/// starts from and the limit.
pub proof fn lemma_walk_is_unique(
    s: History,
    dir: Direction,
    start: Seq<u8>,
    max: Option<usize>,
    a: Seq<Seq<u8>>,
    b: Seq<Seq<u8>>,
)
    requires
        s.lists_walk(dir, start, max, a),
        s.lists_walk(dir, start, max, b),
    ensures
        a == b,
{
    if a.len() < b.len() {
        lemma_tip_on_longer_chain(s, dir, start, a, b);
        let n = a.len() as int;
        assert(s.next_of(dir, before(start, b, n)) == set![b[n]]);
        assert(set![b[n]].contains(b[n]));
        assert(false);
    }
    if b.len() < a.len() {
        lemma_tip_on_longer_chain(s, dir, start, b, a);
        let n = b.len() as int;
        assert(s.next_of(dir, before(start, a, n)) == set![a[n]]);
        assert(set![a[n]].contains(a[n]));
        assert(false);
    }
    assert forall|i: int| 0 <= i < a.len() implies a[i] == b[i] by {
        lemma_chains_agree(s, dir, start, a, b, i);
    }
    assert(a =~= b);
}

/// Where a walk comes to a fork under its limit (a merge commit on the way to
/// the parents, diverged history on the way to the children), it lists nothing:
/// no sequence is its result.
pub proof fn lemma_fork_stops_walk(
    s: History,
    dir: Direction,
    start: Seq<u8>,
    max: Option<usize>,
    chain: Seq<Seq<u8>>,
)
    requires
        s.meets_fork(dir, start, max),
    ensures
        !s.lists_walk(dir, start, max, chain),
{
    if s.lists_walk(dir, start, max, chain) {
        let m = choose|m: Seq<Seq<u8>>|
            #[trigger] s.is_chain(dir, start, m) && within(m.len() as int, max) && (m.len() > 0
                || below(0, max)) && s.is_fork(dir, tip(start, m));
        let fork = tip(start, m);
        let (x, y) = choose|x: Seq<u8>, y: Seq<u8>|
            x != y && #[trigger] s.next_of(dir, fork).contains(x) && #[trigger] s.next_of(
                dir,
                fork,
            ).contains(y);
        if m.len() < chain.len() {
            lemma_tip_on_longer_chain(s, dir, start, m, chain);
            let n = m.len() as int;
            assert(s.next_of(dir, before(start, chain, n)) == set![chain[n]]);
            assert(set![chain[n]].contains(x) && set![chain[n]].contains(y));
            assert(false);
        } else if m.len() == chain.len() {
            lemma_tip_on_longer_chain(s, dir, start, chain, m);
            assert(tip(start, chain) == fork);
            assert(false);
        } else {
            lemma_tip_on_longer_chain(s, dir, start, chain, m);
            let n = chain.len() as int;
            assert(below(n, max));
            assert(s.next_of(dir, before(start, m, n)) == set![m[n]]);
            assert(set![m[n]].contains(m[n]));
            assert(false);
        }
    }
}

/// Where at most one commit is one step from `c`, there is no fork at `c`.
pub proof fn lemma_single_is_no_fork(s: History, dir: Direction, c: Seq<u8>, next: Seq<u8>)
    requires
        s.next_of(dir, c) == set![next] || s.next_of(dir, c) == Set::<Seq<u8>>::empty(),
    ensures
        !s.is_fork(dir, c),
{
    if s.is_fork(dir, c) {
        let (x, y) = choose|x: Seq<u8>, y: Seq<u8>|
            x != y && #[trigger] s.next_of(dir, c).contains(x) && #[trigger] s.next_of(
                dir,
                c,
            ).contains(y);
        assert(set![next].contains(x) || Set::<Seq<u8>>::empty().contains(x));
        assert(set![next].contains(y) || Set::<Seq<u8>>::empty().contains(y));
    }
}

/// A walk goes nearest first: its first entry is one step from the start, and
/// each later entry one step from the entry before.
pub proof fn lemma_walk_is_nearest_first(
    s: History,
    dir: Direction,
    start: Seq<u8>,
    max: Option<usize>,
    chain: Seq<Seq<u8>>,
    i: int,
)
    requires
        s.lists_walk(dir, start, max, chain),
        0 <= i < chain.len(),
    ensures
        match dir {
            Direction::Parents => s.is_child(before(start, chain, i), chain[i]),
            Direction::Children => s.is_child(chain[i], before(start, chain, i)),
        },
{
    assert(s.next_of(dir, before(start, chain, i)) == set![chain[i]]);
    assert(set![chain[i]].contains(chain[i]));
}

/// Reading a semantic commit that was just created gives back the value it
/// was created from: title, body and reserved state.
pub proof fn lemma_semantic_commit_round_trip(
    pre: RepositoryState,
    post: RepositoryState,
    written: SemanticCommitView,
    hash: Seq<u8>,
    read: SemanticCommitView,
)
    requires
        pre.creates_semantic_commit(written, hash, post),
        post.reads_semantic_commit(hash, read),
    ensures
        read == written,
{
}

} // verus!
