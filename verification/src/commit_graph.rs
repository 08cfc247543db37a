//! A commit graph held in memory, and the queries on it.

use crate::graph::{lemma_chain_push, tip, within, Direction, History};
use crate::hash::{hashes_of, CommitHash};
use crate::order::{
    closed_from, has_node, history_of, is_common, lemma_children, lemma_closed_marks,
    lemma_common_place, lemma_latest_common_is_merge_base, lemma_mark_more,
    lemma_node_in_history, lemma_only_merge_base, lemma_other_merge_base,
    lemma_parent_is_earlier, lemma_parents_shape, lemma_children_shape, lemma_path_extend, lemma_push_node, lemma_unknown_reaches_nothing,
    marked, marks_ancestors, parents_of, places_of_children, sound_marks, well_ordered, CommitNode,
};
use crate::raw::RepositoryError;
use vstd::prelude::*;

verus! {

/// A commit graph in which every commit was added after its parents.
pub struct CommitGraph {
    nodes: Vec<CommitNode>,
}

impl View for CommitGraph {
    type V = History;

    closed spec fn view(&self) -> History {
        history_of(self.nodes@)
    }
}

/// Whether `c` is among the identifiers of `list`.
fn holds(list: &Vec<CommitHash>, c: &CommitHash) -> (r: bool)
    ensures
        r == hashes_of(list@).contains(c@),
{
    let mut k: usize = 0;
    while k < list.len()
        invariant
            k <= list@.len(),
            forall|e: int| 0 <= e < k ==> hashes_of(list@)[e] != c@,
        decreases list@.len() - k,
    {
        if list[k].same(c) {
            assert(hashes_of(list@)[k as int] == c@);
            return true;
        }
        k += 1;
    }
    false
}

impl CommitGraph {
    #[verifier::type_invariant]
    spec fn well_formed(&self) -> bool {
        well_ordered(self.nodes@)
    }

    /// The graph without commits.
    pub fn new() -> (g: Self)
        ensures
            g@.parents == Map::<Seq<u8>, Seq<Seq<u8>>>::empty(),
    {
        let g = CommitGraph { nodes: Vec::new() };
        proof {
            assert(g@.parents =~= Map::<Seq<u8>, Seq<Seq<u8>>>::empty());
        }
        g
    }

    /// The place at which the commit `c` stands, if it is in the graph.
    fn find(&self, c: &CommitHash) -> (r: Option<usize>)
        ensures
            match r {
                Some(i) => i < self.nodes@.len() && self.nodes@[i as int].hash@ == c@,
                None => !has_node(self.nodes@, c@),
            },
    {
        let mut i: usize = 0;
        while i < self.nodes.len()
            invariant
                i <= self.nodes@.len(),
                forall|j: int| 0 <= j < i ==> (#[trigger] self.nodes@[j]).hash@ != c@,
            decreases self.nodes@.len() - i,
        {
            if self.nodes[i].hash.same(c) {
                return Some(i);
            }
            i += 1;
        }
        None
    }

    /// The commit that was added first, which has no parents, if the graph
    /// holds any commit.
    pub fn initial_commit(&self) -> (r: Option<CommitHash>)
        ensures
            match r {
                Some(c) => self@.has_commit(c@) && self@.parents[c@].len() == 0,
                None => self@.parents == Map::<Seq<u8>, Seq<Seq<u8>>>::empty(),
            },
    {
        proof {
            use_type_invariant(self);
        }
        if self.nodes.len() == 0 {
            proof {
                assert(self@.parents =~= Map::<Seq<u8>, Seq<Seq<u8>>>::empty());
            }
            return None;
        }
        proof {
            lemma_node_in_history(self.nodes@, 0);
            if parents_of(self.nodes@[0]).len() > 0 {
                assert(has_node(self.nodes@.take(0), parents_of(self.nodes@[0])[0]));
            }
        }
        Some(self.nodes[0].hash)
    }

    /// Whether the commit is in the graph.
    pub fn has_commit(&self, commit_hash: &CommitHash) -> (r: bool)
        ensures
            r == self@.has_commit(commit_hash@),
    {
        self.find(commit_hash).is_some()
    }

    /// The places of all commits that list `c` among their parents, in rising
    /// order.
    fn children_places(&self, c: &CommitHash) -> (r: Vec<usize>)
        ensures
            places_of_children(self.nodes@, c@, r@),
    {
        let mut r: Vec<usize> = Vec::new();
        let mut i: usize = 0;
        while i < self.nodes.len()
            invariant
                i <= self.nodes@.len(),
                forall|k: int|
                    0 <= k < r@.len() ==> (#[trigger] r@[k]) < i && parents_of(
                        self.nodes@[r@[k] as int],
                    ).contains(c@),
                forall|a: int, b: int|
                    0 <= a < b < r@.len() ==> (#[trigger] r@[a]) < (#[trigger] r@[b]),
                forall|e: int|
                    0 <= e < i && parents_of(#[trigger] self.nodes@[e]).contains(c@) ==> exists|
                        k: int,
                    | 0 <= k < r@.len() && #[trigger] r@[k] == e,
            decreases self.nodes@.len() - i,
        {
            if holds(&self.nodes[i].parents, c) {
                let ghost before_push = r@;
                r.push(i);
                proof {
                    assert(r@[before_push.len() as int] == i);
                    assert forall|e: int|
                        0 <= e < i + 1 && parents_of(
                            #[trigger] self.nodes@[e],
                        ).contains(c@) implies exists|k: int|
                        0 <= k < r@.len() && #[trigger] r@[k] == e by {
                        if e < i {
                            let k = choose|k: int|
                                0 <= k < before_push.len() && #[trigger] before_push[k] == e;
                            assert(r@[k] == e);
                        }
                    }
                }
            }
            i += 1;
        }
        r
    }

    /// Adds the commit `hash` with the given parents, and says whether it did:
    /// it does so if the commit is new, every parent is in the graph, and no
    /// parent is named twice. Otherwise the graph stays as it was.
    pub fn add_commit(&mut self, hash: CommitHash, parents: Vec<CommitHash>) -> (added: bool)
        ensures
            added == (!old(self)@.has_commit(hash@) && hashes_of(parents@).no_duplicates()
                && forall|k: int|
                0 <= k < parents@.len() ==> old(self)@.has_commit(#[trigger] hashes_of(parents@)[k])),
            added ==> final(self)@.parents == old(self)@.parents.insert(hash@, hashes_of(parents@)),
            !added ==> final(self)@ == old(self)@,
    {
        proof {
            use_type_invariant(&*self);
        }
        if self.find(&hash).is_some() {
            return false;
        }
        let mut k: usize = 0;
        while k < parents.len()
            invariant
                k <= parents@.len(),
                forall|e: int| 0 <= e < k ==> has_node(self.nodes@, #[trigger] hashes_of(parents@)[e]),
                forall|a: int, b: int|
                    0 <= a < b < k ==> hashes_of(parents@)[a] != hashes_of(parents@)[b],
            decreases parents@.len() - k,
        {
            if self.find(&parents[k]).is_none() {
                assert(!has_node(self.nodes@, hashes_of(parents@)[k as int]));
                return false;
            }
            let mut l: usize = 0;
            while l < k
                invariant
                    l <= k,
                    k < parents@.len(),
                    forall|a: int| 0 <= a < l ==> hashes_of(parents@)[a] != hashes_of(parents@)[k as int],
                decreases k - l,
            {
                if parents[l].same(&parents[k]) {
                    assert(hashes_of(parents@)[l as int] == hashes_of(parents@)[k as int]);
                    return false;
                }
                l += 1;
            }
            k += 1;
        }
        let ghost before_push = self.nodes@;
        let node = CommitNode { hash, parents };
        let mut nodes: Vec<CommitNode> = Vec::new();
        std::mem::swap(&mut nodes, &mut self.nodes);
        nodes.push(node);
        proof {
            lemma_push_node(before_push, node);
        }
        self.nodes = nodes;
        true
    }

    /// Lists the ancestor commits of the given commit, the direct parent first,
    /// not more than `max` of them. It fails with `InvalidRepository` where a
    /// commit on the way has more than one parent, and with `Unknown` where the
    /// given commit is not in the graph.
    pub fn list_ancestors(&self, commit_hash: &CommitHash, max: Option<usize>) -> (r: Result<
        Vec<CommitHash>,
        RepositoryError,
    >)
        ensures
            match r {
                Ok(v) => self@.lists_walk(Direction::Parents, commit_hash@, max, hashes_of(v@)),
                Err(RepositoryError::InvalidRepository(_)) => self@.has_commit(commit_hash@)
                    && self@.meets_fork(Direction::Parents, commit_hash@, max),
                Err(RepositoryError::Unknown(_)) => !self@.has_commit(commit_hash@),
                Err(RepositoryError::Git2Error(_)) => false,
            },
    {
        proof {
            use_type_invariant(self);
        }
        let mut cur: usize = match self.find(commit_hash) {
            Some(i) => i,
            None => {
                return Err(RepositoryError::Unknown("the commit is not in the graph".to_owned()));
            },
        };
        proof {
            lemma_node_in_history(self.nodes@, cur as int);
        }
        let mut out: Vec<CommitHash> = Vec::new();
        loop
            invariant
                well_ordered(self.nodes@),
                cur < self.nodes@.len(),
                self@.has_commit(commit_hash@),
                self.nodes@[cur as int].hash@ == tip(commit_hash@, hashes_of(out@)),
                self@.is_chain(Direction::Parents, commit_hash@, hashes_of(out@)),
                within(out@.len() as int, max),
                out@.len() > 0 ==> !self@.is_fork(Direction::Parents, self.nodes@[cur as int].hash@),
            decreases cur,
        {
            let go = match max {
                Some(m) => out.len() < m,
                None => true,
            };
            if !go {
                return Ok(out);
            }
            let node = &self.nodes[cur];
            proof {
                lemma_parents_shape(self.nodes@, cur as int);
            }
            if node.parents.len() == 0 {
                return Ok(out);
            }
            if node.parents.len() > 1 {
                return Err(
                    RepositoryError::InvalidRepository(
                        "a commit on the way has more than one parent".to_owned(),
                    ),
                );
            }
            let parent = node.parents[0];
            let next: usize = match self.find(&parent) {
                Some(j) => j,
                None => {
                    proof {
                        assert(parents_of(*node)[0] == parent@);
                        assert(has_node(self.nodes@.take(cur as int), parent@));
                        let e = choose|e: int|
                            0 <= e < cur && (#[trigger] self.nodes@.take(cur as int)[e]).hash@
                                == parent@;
                        assert(self.nodes@[e].hash@ == parent@);
                        assert(false);
                    }
                    return Ok(out);
                },
            };
            proof {
                assert(parents_of(*node)[0] == parent@);
                assert(parents_of(*node).contains(parent@));
                lemma_parent_is_earlier(self.nodes@, cur as int, next as int);
                lemma_chain_push(
                    self@,
                    Direction::Parents,
                    commit_hash@,
                    hashes_of(out@),
                    parent@,
                );
                assert(hashes_of(out@.push(parent)) =~= hashes_of(out@).push(parent@));
                lemma_parents_shape(self.nodes@, next as int);
            }
            out.push(parent);
            if self.nodes[next].parents.len() > 1 {
                return Err(
                    RepositoryError::InvalidRepository(
                        "a commit on the way has more than one parent".to_owned(),
                    ),
                );
            }
            cur = next;
        }
    }

    /// Lists the descendant commits of the given commit, the direct child
    /// first, not more than `max` of them. It fails with `InvalidRepository`
    /// where a commit on the way has more than one child, and with `Unknown`
    /// where the given commit is not in the graph.
    pub fn list_descendants(&self, commit_hash: &CommitHash, max: Option<usize>) -> (r: Result<
        Vec<CommitHash>,
        RepositoryError,
    >)
        ensures
            match r {
                Ok(v) => self@.lists_walk(Direction::Children, commit_hash@, max, hashes_of(v@)),
                Err(RepositoryError::InvalidRepository(_)) => self@.has_commit(commit_hash@)
                    && self@.meets_fork(Direction::Children, commit_hash@, max),
                Err(RepositoryError::Unknown(_)) => !self@.has_commit(commit_hash@),
                Err(RepositoryError::Git2Error(_)) => false,
            },
    {
        proof {
            use_type_invariant(self);
        }
        let mut cur: usize = match self.find(commit_hash) {
            Some(i) => i,
            None => {
                return Err(RepositoryError::Unknown("the commit is not in the graph".to_owned()));
            },
        };
        proof {
            lemma_node_in_history(self.nodes@, cur as int);
        }
        let mut out: Vec<CommitHash> = Vec::new();
        loop
            invariant
                well_ordered(self.nodes@),
                cur < self.nodes@.len(),
                self@.has_commit(commit_hash@),
                self.nodes@[cur as int].hash@ == tip(commit_hash@, hashes_of(out@)),
                self@.is_chain(Direction::Children, commit_hash@, hashes_of(out@)),
                within(out@.len() as int, max),
                out@.len() > 0 ==> !self@.is_fork(
                    Direction::Children,
                    self.nodes@[cur as int].hash@,
                ),
            decreases self.nodes@.len() - cur,
        {
            let go = match max {
                Some(m) => out.len() < m,
                None => true,
            };
            if !go {
                return Ok(out);
            }
            let here = self.nodes[cur].hash;
            let places = self.children_places(&here);
            proof {
                lemma_children_shape(self.nodes@, here@, places@);
            }
            if places.len() == 0 {
                return Ok(out);
            }
            if places.len() > 1 {
                return Err(
                    RepositoryError::InvalidRepository(
                        "a commit on the way has more than one child".to_owned(),
                    ),
                );
            }
            let first = places[0];
            let child = self.nodes[first].hash;
            let further = self.children_places(&child);
            proof {
                lemma_parent_is_earlier(self.nodes@, first as int, cur as int);
                lemma_chain_push(
                    self@,
                    Direction::Children,
                    commit_hash@,
                    hashes_of(out@),
                    child@,
                );
                assert(hashes_of(out@.push(child)) =~= hashes_of(out@).push(child@));
                lemma_children_shape(self.nodes@, child@, further@);
            }
            out.push(child);
            if further.len() > 1 {
                return Err(
                    RepositoryError::InvalidRepository(
                        "a commit on the way has more than one child".to_owned(),
                    ),
                );
            }
            cur = first;
        }
    }

    /// Returns the children commits of the given commit: all of them, each
    /// once, however many there are. It never fails; a commit that is not in
    /// the graph has no children.
    pub fn list_children(&self, commit_hash: &CommitHash) -> (r: Result<
        Vec<CommitHash>,
        RepositoryError,
    >)
        ensures
            r matches Ok(v) && hashes_of(v@).no_duplicates() && hashes_of(v@).to_set()
                == self@.children(commit_hash@),
    {
        proof {
            use_type_invariant(self);
        }
        let places = self.children_places(commit_hash);
        let mut out: Vec<CommitHash> = Vec::new();
        let mut k: usize = 0;
        while k < places.len()
            invariant
                k <= places@.len(),
                out@.len() == k,
                forall|e: int|
                    0 <= e < places@.len() ==> (#[trigger] places@[e]) < self.nodes@.len(),
                forall|e: int| 0 <= e < k ==> (#[trigger] out@[e]) == self.nodes@[places@[e] as int].hash,
            decreases places@.len() - k,
        {
            out.push(self.nodes[places[k]].hash);
            k += 1;
        }
        proof {
            let listed = hashes_of(out@);
            assert forall|a: int, b: int| 0 <= a < listed.len() && 0 <= b < listed.len() && a
                != b implies listed[a] != listed[b] by {
                let x = places@[a];
                let y = places@[b];
                assert(out@[a] == self.nodes@[x as int].hash);
                assert(out@[b] == self.nodes@[y as int].hash);
                if a < b {
                    assert(x < y);
                    assert(self.nodes@[x as int].hash@ != self.nodes@[y as int].hash@);
                } else {
                    assert(y < x);
                    assert(self.nodes@[y as int].hash@ != self.nodes@[x as int].hash@);
                }
            }
            assert forall|d: Seq<u8>| listed.contains(d) == self@.children(commit_hash@).contains(
                d,
            ) by {
                lemma_children(self.nodes@, commit_hash@, d);
                if listed.contains(d) {
                    let e = choose|e: int| 0 <= e < listed.len() && listed[e] == d;
                    assert(out@[e] == self.nodes@[places@[e] as int].hash);
                    assert(parents_of(self.nodes@[places@[e] as int]).contains(commit_hash@));
                }
                if self@.children(commit_hash@).contains(d) {
                    let i = choose|i: int|
                        0 <= i < self.nodes@.len() && (#[trigger] self.nodes@[i]).hash@ == d
                            && parents_of(self.nodes@[i]).contains(commit_hash@);
                    let e = choose|e: int| 0 <= e < places@.len() && #[trigger] places@[e] == i;
                    assert(out@[e] == self.nodes@[i].hash);
                    assert(listed[e] == d);
                }
            }
            assert(listed.to_set() =~= self@.children(commit_hash@));
        }
        Ok(out)
    }

    /// For each place, whether its commit is the one at `start` or an ancestor
    /// of it.
    #[verifier::rlimit(60)]
    fn ancestor_marks(&self, start: usize) -> (marks: Vec<bool>)
        requires
            start < self.nodes@.len(),
        ensures
            marks@.len() == self.nodes@.len(),
            marks_ancestors(self.nodes@, marks@, self.nodes@[start as int].hash@),
    {
        proof {
            use_type_invariant(self);
        }
        let n = self.nodes.len();
        let ghost c = self.nodes@[start as int].hash@;
        let mut marks: Vec<bool> = Vec::new();
        let mut t: usize = 0;
        while t < n
            invariant
                t <= n,
                marks@.len() == t,
                forall|j: int| 0 <= j < t ==> !(#[trigger] marks@[j]),
            decreases n - t,
        {
            marks.push(false);
            t += 1;
        }
        marks.set(start, true);
        proof {
            lemma_node_in_history(self.nodes@, start as int);
            assert(self@.is_path(c, c, seq![c]));
            assert(self@.is_ancestor_or_self(c, c));
        }
        let mut i: usize = start + 1;
        while i > 0
            invariant
                well_ordered(self.nodes@),
                n == self.nodes@.len(),
                start < n,
                c == self.nodes@[start as int].hash@,
                i <= start + 1,
                marks@.len() == n,
                marks@[start as int],
                sound_marks(self.nodes@, marks@, c),
                closed_from(self.nodes@, marks@, i as int),
                forall|j: int| start < j < n ==> !(#[trigger] marks@[j]),
            decreases i,
        {
            i -= 1;
            if marks[i] {
                let mut k: usize = 0;
                while k < self.nodes[i].parents.len()
                    invariant
                        well_ordered(self.nodes@),
                        n == self.nodes@.len(),
                        start < n,
                        c == self.nodes@[start as int].hash@,
                        i <= start,
                        marks@.len() == n,
                        marks@[start as int],
                        marks@[i as int],
                        sound_marks(self.nodes@, marks@, c),
                        closed_from(self.nodes@, marks@, i + 1),
                        forall|j: int| start < j < n ==> !(#[trigger] marks@[j]),
                        k <= self.nodes@[i as int].parents@.len(),
                        forall|e: int|
                            0 <= e < k ==> marked(
                                self.nodes@,
                                marks@,
                                #[trigger] parents_of(self.nodes@[i as int])[e],
                            ),
                    decreases self.nodes@[i as int].parents@.len() - k,
                {
                    let p = self.nodes[i].parents[k];
                    let ghost before_mark = marks@;
                    proof {
                        assert(parents_of(self.nodes@[i as int])[k as int] == p@);
                        assert(parents_of(self.nodes@[i as int]).contains(p@));
                        assert(has_node(self.nodes@.take(i as int), p@));
                        let e = choose|e: int|
                            0 <= e < i && (#[trigger] self.nodes@.take(i as int)[e]).hash@ == p@;
                        assert(self.nodes@[e].hash@ == p@);
                    }
                    match self.find(&p) {
                        Some(j) => {
                            proof {
                                lemma_parent_is_earlier(self.nodes@, i as int, j as int);
                                lemma_node_in_history(self.nodes@, i as int);
                                lemma_node_in_history(self.nodes@, j as int);
                                lemma_mark_more(self.nodes@, before_mark, j as int, i + 1);
                                let path = choose|path: Seq<Seq<u8>>|
                                    #[trigger] self@.is_path(c, self.nodes@[i as int].hash@, path);
                                lemma_path_extend(
                                    self@,
                                    c,
                                    self.nodes@[i as int].hash@,
                                    p@,
                                    path,
                                );
                                assert(self@.is_ancestor_or_self(p@, c));
                            }
                            marks.set(j, true);
                            proof {
                                assert(marks@ == before_mark.update(j as int, true));
                                assert forall|e: int| 0 <= e < k + 1 implies marked(
                                    self.nodes@,
                                    marks@,
                                    #[trigger] parents_of(self.nodes@[i as int])[e],
                                ) by {
                                    if e < k {
                                        assert(marked(
                                            self.nodes@,
                                            before_mark,
                                            parents_of(self.nodes@[i as int])[e],
                                        ));
                                    }
                                }
                            }
                        },
                        None => {
                            assert(false);
                        },
                    }
                    k += 1;
                }
            }
        }
        proof {
            reveal(marks_ancestors);
            assert forall|j: int| 0 <= j < n implies (#[trigger] marks@[j]
                <==> self@.is_ancestor_or_self(self.nodes@[j].hash@, c)) by {
                if self@.is_ancestor_or_self(self.nodes@[j].hash@, c) {
                    let path = choose|path: Seq<Seq<u8>>|
                        #[trigger] self@.is_path(c, self.nodes@[j].hash@, path);
                    lemma_closed_marks(
                        self.nodes@,
                        marks@,
                        start as int,
                        self.nodes@[j].hash@,
                        path,
                    );
                    let e = choose|e: int|
                        0 <= e < n && e < marks@.len() && (#[trigger] self.nodes@[e]).hash@
                            == self.nodes@[j].hash@ && marks@[e];
                    if e < j {
                        assert(self.nodes@[e].hash@ != self.nodes@[j].hash@);
                    } else if j < e {
                        assert(self.nodes@[j].hash@ != self.nodes@[e].hash@);
                    }
                }
            }
        }
        marks
    }

    /// Returns the merge base of the two commits: the common ancestor of both
    /// (or one of them) that has no other common ancestor below it. It fails
    /// with `InvalidRepository` where there is more than one such commit, and
    /// with `Unknown` where the two have no common ancestor, as where one of
    /// them is not in the graph.
    pub fn find_merge_base(&self, commit_hash1: &CommitHash, commit_hash2: &CommitHash) -> (r:
        Result<CommitHash, RepositoryError>)
        ensures
            match r {
                Ok(m) => self@.is_merge_base(commit_hash1@, commit_hash2@, m@) && forall|
                    b: Seq<u8>,
                |
                    self@.is_merge_base(commit_hash1@, commit_hash2@, b) ==> b == m@,
                Err(RepositoryError::InvalidRepository(_)) => exists|a: Seq<u8>, b: Seq<u8>|
                    a != b && #[trigger] self@.is_merge_base(commit_hash1@, commit_hash2@, a)
                        && #[trigger] self@.is_merge_base(commit_hash1@, commit_hash2@, b),
                Err(RepositoryError::Unknown(_)) => forall|x: Seq<u8>|
                    !(#[trigger] self@.is_ancestor_or_self(x, commit_hash1@)
                        && self@.is_ancestor_or_self(x, commit_hash2@)),
                Err(RepositoryError::Git2Error(_)) => false,
            },
    {
        proof {
            use_type_invariant(self);
        }
        let first = match self.find(commit_hash1) {
            Some(i) => i,
            None => {
                proof {
                    assert forall|x: Seq<u8>|
                        !(#[trigger] self@.is_ancestor_or_self(x, commit_hash1@)) by {
                        lemma_unknown_reaches_nothing(self@, commit_hash1@, x);
                    }
                }
                return Err(RepositoryError::Unknown("the commit is not in the graph".to_owned()));
            },
        };
        let second = match self.find(commit_hash2) {
            Some(i) => i,
            None => {
                proof {
                    assert forall|x: Seq<u8>|
                        !(#[trigger] self@.is_ancestor_or_self(x, commit_hash2@)) by {
                        lemma_unknown_reaches_nothing(self@, commit_hash2@, x);
                    }
                }
                return Err(RepositoryError::Unknown("the commit is not in the graph".to_owned()));
            },
        };
        let marks1 = self.ancestor_marks(first);
        let marks2 = self.ancestor_marks(second);
        let n = self.nodes.len();
        let mut i: usize = n;
        while i > 0
            invariant
                i <= n,
                n == self.nodes@.len(),
                well_ordered(self.nodes@),
                first < n,
                second < n,
                self.nodes@[first as int].hash@ == commit_hash1@,
                self.nodes@[second as int].hash@ == commit_hash2@,
                marks1@.len() == n,
                marks2@.len() == n,
                marks_ancestors(self.nodes@, marks1@, commit_hash1@),
                marks_ancestors(self.nodes@, marks2@, commit_hash2@),
                forall|j: int| i <= j < n ==> !(#[trigger] marks1@[j] && marks2@[j]),
            decreases i,
        {
            i -= 1;
            if marks1[i] && marks2[i] {
                let m = self.nodes[i].hash;
                proof {
                    reveal(marks_ancestors);
                    assert forall|j: int| i < j < n implies !is_common(
                        self@,
                        commit_hash1@,
                        commit_hash2@,
                        (#[trigger] self.nodes@[j]).hash@,
                    ) by {
                        assert(!(marks1@[j] && marks2@[j]));
                    }
                    lemma_latest_common_is_merge_base(
                        self.nodes@,
                        commit_hash1@,
                        commit_hash2@,
                        first as int,
                        i as int,
                    );
                }
                return self.only_merge_base(commit_hash1, commit_hash2, first, i, &marks1, &marks2);
            }
        }
        proof {
            reveal(marks_ancestors);
            assert forall|x: Seq<u8>|
                !(#[trigger] self@.is_ancestor_or_self(x, commit_hash1@)
                    && self@.is_ancestor_or_self(x, commit_hash2@)) by {
                if is_common(self@, commit_hash1@, commit_hash2@, x) {
                    let jx = lemma_common_place(
                        self.nodes@,
                        commit_hash1@,
                        commit_hash2@,
                        first as int,
                        x,
                    );
                    assert(marks1@[jx] && marks2@[jx]);
                }
            }
        }
        Err(RepositoryError::Unknown("the commits have no common ancestor".to_owned()))
    }

    /// The merge base at place `i`, if no common ancestor stands beside it.
    #[verifier::rlimit(60)]
    fn only_merge_base(
        &self,
        commit_hash1: &CommitHash,
        commit_hash2: &CommitHash,
        first: usize,
        i: usize,
        marks1: &Vec<bool>,
        marks2: &Vec<bool>,
    ) -> (r: Result<CommitHash, RepositoryError>)
        requires
            first < self.nodes@.len(),
            i < self.nodes@.len(),
            self.nodes@[first as int].hash@ == commit_hash1@,
            marks1@.len() == self.nodes@.len(),
            marks2@.len() == self.nodes@.len(),
            marks_ancestors(self.nodes@, marks1@, commit_hash1@),
            marks_ancestors(self.nodes@, marks2@, commit_hash2@),
            self@.is_merge_base(commit_hash1@, commit_hash2@, self.nodes@[i as int].hash@),
        ensures
            match r {
                Ok(m) => m == self.nodes@[i as int].hash && forall|b: Seq<u8>|
                    self@.is_merge_base(commit_hash1@, commit_hash2@, b) ==> b == m@,
                Err(RepositoryError::InvalidRepository(_)) => exists|a: Seq<u8>, b: Seq<u8>|
                    a != b && #[trigger] self@.is_merge_base(commit_hash1@, commit_hash2@, a)
                        && #[trigger] self@.is_merge_base(commit_hash1@, commit_hash2@, b),
                Err(_) => false,
            },
    {
        proof {
            use_type_invariant(self);
        }
        let n = self.nodes.len();
        let under = self.ancestor_marks(i);
        let mut t: usize = n;
        while t > 0
            invariant
                t <= n,
                i < n,
                first < n,
                n == self.nodes@.len(),
                well_ordered(self.nodes@),
                self.nodes@[first as int].hash@ == commit_hash1@,
                self@.is_merge_base(commit_hash1@, commit_hash2@, self.nodes@[i as int].hash@),
                marks1@.len() == n,
                marks2@.len() == n,
                under@.len() == n,
                marks_ancestors(self.nodes@, marks1@, commit_hash1@),
                marks_ancestors(self.nodes@, marks2@, commit_hash2@),
                marks_ancestors(self.nodes@, under@, self.nodes@[i as int].hash@),
                forall|j: int| t <= j < n && #[trigger] marks1@[j] && marks2@[j] ==> under@[j],
            decreases t,
        {
            t -= 1;
            if marks1[t] && marks2[t] && !under[t] {
                proof {
                    reveal(marks_ancestors);
                    assert forall|j: int|
                        t < j < n && is_common(
                            self@,
                            commit_hash1@,
                            commit_hash2@,
                            (#[trigger] self.nodes@[j]).hash@,
                        ) implies self@.is_ancestor_or_self(
                        self.nodes@[j].hash@,
                        self.nodes@[i as int].hash@,
                    ) by {
                        assert(marks1@[j] && marks2@[j]);
                        assert(under@[j]);
                    }
                    assert(marks1@[t as int] && marks2@[t as int] && !under@[t as int]);
                    lemma_other_merge_base(
                        self.nodes@,
                        commit_hash1@,
                        commit_hash2@,
                        first as int,
                        i as int,
                        t as int,
                    );
                }
                return Err(
                    RepositoryError::InvalidRepository(
                        "the commits have more than one merge base".to_owned(),
                    ),
                );
            }
        }
        proof {
            reveal(marks_ancestors);
            assert forall|j: int|
                0 <= j < n && is_common(
                    self@,
                    commit_hash1@,
                    commit_hash2@,
                    (#[trigger] self.nodes@[j]).hash@,
                ) implies self@.is_ancestor_or_self(
                self.nodes@[j].hash@,
                self.nodes@[i as int].hash@,
            ) by {
                assert(marks1@[j] && marks2@[j]);
                assert(under@[j]);
            }
            lemma_only_merge_base(
                self.nodes@,
                commit_hash1@,
                commit_hash2@,
                first as int,
                i as int,
            );
        }
        Ok(self.nodes[i].hash)
    }
}

} // verus!
