//! Commits in the order in which they were added: what such a list stands
//! for as a graph, and what follows from every parent standing before its
//! child.

use crate::graph::{lemma_single_is_no_fork, Direction, History};
use crate::hash::{hashes_of, CommitHash};
use vstd::prelude::*;

verus! {

/// A commit: its identifier and those of its parents, in order.
pub struct CommitNode {
    pub hash: CommitHash,
    pub parents: Vec<CommitHash>,
}

/// The parents of a commit as plain values.
pub open spec fn parents_of(node: CommitNode) -> Seq<Seq<u8>> {
    hashes_of(node.parents@)
}

/// The commit `c` is among `nodes`.
pub open spec fn has_node(nodes: Seq<CommitNode>, c: Seq<u8>) -> bool {
    exists|i: int| 0 <= i < nodes.len() && (#[trigger] nodes[i]).hash@ == c
}

/// A place of `nodes` at which the commit `c` stands, if there is one.
pub open spec fn node_index(nodes: Seq<CommitNode>, c: Seq<u8>) -> int {
    choose|i: int| 0 <= i < nodes.len() && (#[trigger] nodes[i]).hash@ == c
}

/// The graph that a list of commits stands for.
pub open spec fn history_of(nodes: Seq<CommitNode>) -> History {
    History {
        parents: Map::new(
            |c: Seq<u8>| has_node(nodes, c),
            |c: Seq<u8>| parents_of(nodes[node_index(nodes, c)]),
        ),
    }
}

/// No commit stands twice, no commit names a parent twice, and every parent
/// of a commit stands before it.
pub open spec fn well_ordered(nodes: Seq<CommitNode>) -> bool {
    &&& forall|i: int, j: int|
        0 <= i < j < nodes.len() ==> (#[trigger] nodes[i]).hash@ != (#[trigger] nodes[j]).hash@
    &&& forall|i: int| 0 <= i < nodes.len() ==> parents_of(#[trigger] nodes[i]).no_duplicates()
    &&& forall|i: int, k: int|
        0 <= i < nodes.len() && 0 <= k < parents_of(nodes[i]).len() ==> has_node(
            nodes.take(i),
            #[trigger] parents_of(nodes[i])[k],
        )
}

/// The commit at place `i` is in the graph, with the parents listed there.
pub proof fn lemma_node_in_history(nodes: Seq<CommitNode>, i: int)
    requires
        well_ordered(nodes),
        0 <= i < nodes.len(),
    ensures
        history_of(nodes).has_commit(nodes[i].hash@),
        history_of(nodes).parents[nodes[i].hash@] == parents_of(nodes[i]),
        node_index(nodes, nodes[i].hash@) == i,
        forall|p: Seq<u8>|
            history_of(nodes).is_child(nodes[i].hash@, p) == parents_of(nodes[i]).contains(p),
        history_of(nodes).next_of(Direction::Parents, nodes[i].hash@) == parents_of(
            nodes[i],
        ).to_set(),
{
    let c = nodes[i].hash@;
    assert(has_node(nodes, c));
    let j = node_index(nodes, c);
    assert(0 <= j < nodes.len() && nodes[j].hash@ == c);
    if j < i {
        assert(nodes[j].hash@ != nodes[i].hash@);
    } else if i < j {
        assert(nodes[i].hash@ != nodes[j].hash@);
    }
    assert(history_of(nodes).next_of(Direction::Parents, c) =~= parents_of(nodes[i]).to_set());
}

/// A commit that is a parent of the one at place `i` stands before place `i`.
pub proof fn lemma_parent_is_earlier(nodes: Seq<CommitNode>, i: int, j: int)
    requires
        well_ordered(nodes),
        0 <= i < nodes.len(),
        0 <= j < nodes.len(),
        parents_of(nodes[i]).contains(nodes[j].hash@),
    ensures
        j < i,
{
    let k = choose|k: int|
        0 <= k < parents_of(nodes[i]).len() && parents_of(nodes[i])[k] == nodes[j].hash@;
    let front = nodes.take(i);
    assert(has_node(front, parents_of(nodes[i])[k]));
    let e = choose|e: int| 0 <= e < front.len() && (#[trigger] front[e]).hash@ == nodes[j].hash@;
    assert(front[e] == nodes[e]);
    if e < j {
        assert(nodes[e].hash@ != nodes[j].hash@);
    } else if j < e {
        assert(nodes[j].hash@ != nodes[e].hash@);
    }
}

/// The children of `c` are the commits that list `c` among their parents.
pub proof fn lemma_children(nodes: Seq<CommitNode>, c: Seq<u8>, d: Seq<u8>)
    requires
        well_ordered(nodes),
    ensures
        history_of(nodes).children(c).contains(d) <==> exists|i: int|
            0 <= i < nodes.len() && (#[trigger] nodes[i]).hash@ == d && parents_of(
                nodes[i],
            ).contains(c),
{
    if history_of(nodes).children(c).contains(d) {
        let i = node_index(nodes, d);
        assert(0 <= i < nodes.len() && nodes[i].hash@ == d);
        lemma_node_in_history(nodes, i);
    }
    if exists|i: int|
        0 <= i < nodes.len() && (#[trigger] nodes[i]).hash@ == d && parents_of(nodes[i]).contains(
            c,
        ) {
        let i = choose|i: int|
            0 <= i < nodes.len() && (#[trigger] nodes[i]).hash@ == d && parents_of(
                nodes[i],
            ).contains(c);
        lemma_node_in_history(nodes, i);
    }
}

/// What the number of a commit's parents says of the step to its parents:
/// none follows, exactly one follows, or the commit is a merge commit.
pub proof fn lemma_parents_shape(nodes: Seq<CommitNode>, i: int)
    requires
        well_ordered(nodes),
        0 <= i < nodes.len(),
    ensures
        parents_of(nodes[i]).len() == 0 ==> history_of(nodes).next_of(
            Direction::Parents,
            nodes[i].hash@,
        ) == Set::<Seq<u8>>::empty(),
        parents_of(nodes[i]).len() == 1 ==> history_of(nodes).next_of(
            Direction::Parents,
            nodes[i].hash@,
        ) == set![parents_of(nodes[i])[0]],
        parents_of(nodes[i]).len() > 1 <==> history_of(nodes).is_fork(
            Direction::Parents,
            nodes[i].hash@,
        ),
{
    let h = history_of(nodes);
    let c = nodes[i].hash@;
    let ps = parents_of(nodes[i]);
    lemma_node_in_history(nodes, i);
    if ps.len() == 0 {
        assert(ps.to_set() =~= Set::<Seq<u8>>::empty());
        lemma_single_is_no_fork(h, Direction::Parents, c, c);
    } else if ps.len() == 1 {
        assert(ps.to_set() =~= set![ps[0]]);
        lemma_single_is_no_fork(h, Direction::Parents, c, ps[0]);
    } else {
        assert(ps.no_duplicates());
        assert(ps[0] != ps[1]);
        assert(ps.contains(ps[0]));
        assert(ps.contains(ps[1]));
        assert(h.next_of(Direction::Parents, c).contains(ps[0]));
        assert(h.next_of(Direction::Parents, c).contains(ps[1]));
    }
}

/// `places` holds, in rising order, the places of all commits that list `c`
/// among their parents.
pub open spec fn places_of_children(nodes: Seq<CommitNode>, c: Seq<u8>, places: Seq<usize>) -> bool {
    &&& forall|k: int|
        0 <= k < places.len() ==> (#[trigger] places[k]) < nodes.len() && parents_of(
            nodes[places[k] as int],
        ).contains(c)
    &&& forall|a: int, b: int|
        0 <= a < b < places.len() ==> (#[trigger] places[a]) < (#[trigger] places[b])
    &&& forall|i: int|
        0 <= i < nodes.len() && parents_of(#[trigger] nodes[i]).contains(c) ==> exists|k: int|
            0 <= k < places.len() && #[trigger] places[k] == i
}

/// What the number of a commit's children says of the step to its children:
/// none follows, exactly one follows, or history has diverged.
pub proof fn lemma_children_shape(nodes: Seq<CommitNode>, c: Seq<u8>, places: Seq<usize>)
    requires
        well_ordered(nodes),
        places_of_children(nodes, c, places),
    ensures
        places.len() == 0 ==> history_of(nodes).next_of(Direction::Children, c) == Set::<
            Seq<u8>,
        >::empty(),
        places.len() == 1 ==> history_of(nodes).next_of(Direction::Children, c)
            == set![nodes[places[0] as int].hash@],
        places.len() > 1 <==> history_of(nodes).is_fork(Direction::Children, c),
{
    let h = history_of(nodes);
    let kids = h.children(c);
    if places.len() == 0 {
        assert forall|d: Seq<u8>| !kids.contains(d) by {
            lemma_children(nodes, c, d);
        }
        assert(kids =~= Set::<Seq<u8>>::empty());
        lemma_single_is_no_fork(h, Direction::Children, c, c);
    } else {
        let first = places[0];
        let child = nodes[first as int].hash@;
        lemma_children(nodes, c, child);
        assert(kids.contains(child));
        if places.len() == 1 {
            assert forall|d: Seq<u8>| kids.contains(d) implies d == child by {
                lemma_children(nodes, c, d);
                let i = choose|i: int|
                    0 <= i < nodes.len() && (#[trigger] nodes[i]).hash@ == d && parents_of(
                        nodes[i],
                    ).contains(c);
                let k = choose|k: int| 0 <= k < places.len() && #[trigger] places[k] == i;
                assert(k == 0);
            }
            assert(kids =~= set![child]);
            lemma_single_is_no_fork(h, Direction::Children, c, child);
        } else {
            let second = places[1];
            let other = nodes[second as int].hash@;
            lemma_children(nodes, c, other);
            assert(kids.contains(other));
            assert(places[0] < places[1]);
            assert(child != other);
            assert(h.next_of(Direction::Children, c).contains(child));
            assert(h.next_of(Direction::Children, c).contains(other));
        }
    }
}

/// A path to a commit goes on to each of its parents.
pub proof fn lemma_path_extend(
    h: History,
    from: Seq<u8>,
    to: Seq<u8>,
    p: Seq<u8>,
    path: Seq<Seq<u8>>,
)
    requires
        h.is_path(from, to, path),
        h.is_child(to, p),
    ensures
        h.is_path(from, p, path.push(p)),
{
    let longer = path.push(p);
    assert forall|i: int| 0 <= i < longer.len() - 1 implies h.is_child(
        #[trigger] longer[i],
        longer[i + 1],
    ) by {
        if i < path.len() - 1 {
            assert(h.is_child(path[i], path[i + 1]));
        }
    }
}

/// A path from `a` to `b` and one from `b` to `c` make one from `a` to `c`.
pub proof fn lemma_path_concat(
    h: History,
    a: Seq<u8>,
    b: Seq<u8>,
    c: Seq<u8>,
    first: Seq<Seq<u8>>,
    second: Seq<Seq<u8>>,
)
    requires
        h.is_path(a, b, first),
        h.is_path(b, c, second),
    ensures
        h.is_ancestor_or_self(c, a),
{
    let rest = second.subrange(1, second.len() as int);
    let whole = first + rest;
    assert forall|i: int| 0 <= i < whole.len() - 1 implies h.is_child(
        #[trigger] whole[i],
        whole[i + 1],
    ) by {
        if i < first.len() - 1 {
            assert(h.is_child(first[i], first[i + 1]));
        } else {
            let t = i - (first.len() - 1);
            assert(h.is_child(second[t], second[t + 1]));
            assert(whole[i] == second[t]);
        }
    }
    assert(h.is_path(a, c, whole));
}

/// The rest of a path, after its first commit, is a path from its second.
pub proof fn lemma_path_rest(nodes: Seq<CommitNode>, i: int, a: Seq<u8>, path: Seq<Seq<u8>>) -> (e:
    int)
    requires
        well_ordered(nodes),
        0 <= i < nodes.len(),
        history_of(nodes).is_path(nodes[i].hash@, a, path),
        path.len() > 1,
    ensures
        0 <= e < i,
        nodes[e].hash@ == path[1],
        parents_of(nodes[i]).contains(path[1]),
        history_of(nodes).is_path(path[1], a, path.subrange(1, path.len() as int)),
{
    let h = history_of(nodes);
    let q = path[1];
    assert(h.is_child(path[0], path[1]));
    lemma_node_in_history(nodes, i);
    assert(parents_of(nodes[i]).contains(q));
    let k = choose|k: int| 0 <= k < parents_of(nodes[i]).len() && parents_of(nodes[i])[k] == q;
    let front = nodes.take(i);
    assert(has_node(front, parents_of(nodes[i])[k]));
    let e = choose|e: int| 0 <= e < front.len() && (#[trigger] front[e]).hash@ == q;
    assert(front[e] == nodes[e]);
    lemma_node_in_history(nodes, e);
    let rest = path.subrange(1, path.len() as int);
    assert forall|t: int| 0 <= t < rest.len() - 1 implies h.is_child(
        #[trigger] rest[t],
        rest[t + 1],
    ) by {
        assert(h.is_child(path[t + 1], path[t + 1 + 1]));
    }
    e
}

/// What is reached from the commit at place `i` stands at place `i` or before.
pub proof fn lemma_path_earlier(nodes: Seq<CommitNode>, i: int, a: Seq<u8>, path: Seq<Seq<u8>>)
    requires
        well_ordered(nodes),
        0 <= i < nodes.len(),
        history_of(nodes).is_path(nodes[i].hash@, a, path),
    ensures
        exists|j: int| 0 <= j <= i && (#[trigger] nodes[j]).hash@ == a,
    decreases path.len(),
{
    if path.len() == 1 {
        assert(nodes[i].hash@ == a);
    } else {
        let e = lemma_path_rest(nodes, i, a, path);
        lemma_path_earlier(nodes, e, a, path.subrange(1, path.len() as int));
        let j = choose|j: int| 0 <= j <= e && (#[trigger] nodes[j]).hash@ == a;
        assert(0 <= j <= i && nodes[j].hash@ == a);
    }
}

/// From a commit that is not in the graph nothing is reached.
pub proof fn lemma_unknown_reaches_nothing(h: History, c: Seq<u8>, a: Seq<u8>)
    requires
        !h.has_commit(c),
    ensures
        !h.is_ancestor_or_self(a, c),
{
}

/// The commit `c` stands at a place that `marks` marks.
pub open spec fn marked(nodes: Seq<CommitNode>, marks: Seq<bool>, c: Seq<u8>) -> bool {
    exists|e: int|
        0 <= e < nodes.len() && e < marks.len() && (#[trigger] nodes[e]).hash@ == c && marks[e]
}

/// Of every marked commit at place `lo` or later, each parent is marked.
pub open spec fn closed_from(nodes: Seq<CommitNode>, marks: Seq<bool>, lo: int) -> bool {
    forall|j: int, k: int|
        lo <= j < nodes.len() && j < marks.len() && marks[j] && 0 <= k < parents_of(nodes[j]).len()
            ==> marked(nodes, marks, #[trigger] parents_of(nodes[j])[k])
}

/// Every marked commit is `c` or an ancestor of `c`.
pub open spec fn sound_marks(nodes: Seq<CommitNode>, marks: Seq<bool>, c: Seq<u8>) -> bool {
    forall|j: int|
        0 <= j < nodes.len() && j < marks.len() && #[trigger] marks[j] ==> history_of(
            nodes,
        ).is_ancestor_or_self(nodes[j].hash@, c)
}

/// Where the marks are closed under parents, what is reached from a marked
/// commit is marked.
pub proof fn lemma_closed_marks(
    nodes: Seq<CommitNode>,
    marks: Seq<bool>,
    i: int,
    a: Seq<u8>,
    path: Seq<Seq<u8>>,
)
    requires
        well_ordered(nodes),
        marks.len() == nodes.len(),
        closed_from(nodes, marks, 0),
        0 <= i < nodes.len(),
        marks[i],
        history_of(nodes).is_path(nodes[i].hash@, a, path),
    ensures
        marked(nodes, marks, a),
    decreases path.len(),
{
    if path.len() == 1 {
        assert(nodes[i].hash@ == a);
    } else {
        let earlier = lemma_path_rest(nodes, i, a, path);
        let q = path[1];
        let k = choose|k: int| 0 <= k < parents_of(nodes[i]).len() && parents_of(nodes[i])[k] == q;
        assert(marked(nodes, marks, parents_of(nodes[i])[k]));
        let e = choose|e: int|
            0 <= e < nodes.len() && e < marks.len() && (#[trigger] nodes[e]).hash@ == q && marks[e];
        lemma_closed_marks(nodes, marks, e, a, path.subrange(1, path.len() as int));
    }
}

/// Marking one more place keeps what was marked, and keeps the marks closed
/// from `lo` on where the new place is before `lo`.
pub proof fn lemma_mark_more(nodes: Seq<CommitNode>, marks: Seq<bool>, j: int, lo: int)
    requires
        marks.len() == nodes.len(),
        0 <= j < lo,
        j < nodes.len(),
        closed_from(nodes, marks, lo),
    ensures
        closed_from(nodes, marks.update(j, true), lo),
        marked(nodes, marks.update(j, true), nodes[j].hash@),
        forall|c: Seq<u8>| marked(nodes, marks, c) ==> marked(nodes, marks.update(j, true), c),
{
    let more = marks.update(j, true);
    assert forall|c: Seq<u8>| marked(nodes, marks, c) implies marked(nodes, more, c) by {
        let e = choose|e: int|
            0 <= e < nodes.len() && e < marks.len() && (#[trigger] nodes[e]).hash@ == c && marks[e];
        assert(nodes[e].hash@ == c && more[e]);
    }
    assert(nodes[j].hash@ == nodes[j].hash@ && more[j]);
    assert forall|a: int, k: int|
        lo <= a < nodes.len() && a < more.len() && more[a] && 0 <= k < parents_of(
            nodes[a],
        ).len() implies marked(nodes, more, #[trigger] parents_of(nodes[a])[k]) by {
        assert(marks[a]);
        assert(marked(nodes, marks, parents_of(nodes[a])[k]));
    }
}

/// `marks` marks exactly the places of `c` and of its ancestors.
#[verifier::opaque]
pub open spec fn marks_ancestors(nodes: Seq<CommitNode>, marks: Seq<bool>, c: Seq<u8>) -> bool {
    forall|j: int|
        0 <= j < nodes.len() && j < marks.len() ==> (#[trigger] marks[j] <==> history_of(
            nodes,
        ).is_ancestor_or_self(nodes[j].hash@, c))
}

/// `a` is `c1` or an ancestor of it, and `c2` or an ancestor of it.
pub open spec fn is_common(h: History, c1: Seq<u8>, c2: Seq<u8>, a: Seq<u8>) -> bool {
    h.is_ancestor_or_self(a, c1) && h.is_ancestor_or_self(a, c2)
}

/// A common ancestor stands at some place, not after that of `c1`.
pub proof fn lemma_common_place(
    nodes: Seq<CommitNode>,
    c1: Seq<u8>,
    c2: Seq<u8>,
    first: int,
    x: Seq<u8>,
) -> (j: int)
    requires
        well_ordered(nodes),
        0 <= first < nodes.len(),
        nodes[first].hash@ == c1,
        is_common(history_of(nodes), c1, c2, x),
    ensures
        0 <= j <= first,
        nodes[j].hash@ == x,
{
    let h = history_of(nodes);
    let path = choose|path: Seq<Seq<u8>>| #[trigger] h.is_path(c1, x, path);
    lemma_path_earlier(nodes, first, x, path);
    choose|j: int| 0 <= j <= first && (#[trigger] nodes[j]).hash@ == x
}

/// The commit at place `hi` is `x` or one of its ancestors only if `x` stands
/// at `hi` or after it.
pub proof fn lemma_descendant_place(nodes: Seq<CommitNode>, jx: int, hi: int)
    requires
        well_ordered(nodes),
        0 <= jx < nodes.len(),
        0 <= hi < nodes.len(),
        history_of(nodes).is_ancestor_or_self(nodes[hi].hash@, nodes[jx].hash@),
    ensures
        hi <= jx,
{
    let h = history_of(nodes);
    let path = choose|path: Seq<Seq<u8>>|
        #[trigger] h.is_path(nodes[jx].hash@, nodes[hi].hash@, path);
    lemma_path_earlier(nodes, jx, nodes[hi].hash@, path);
    let j = choose|j: int| 0 <= j <= jx && (#[trigger] nodes[j]).hash@ == nodes[hi].hash@;
    if j < hi {
        assert(nodes[j].hash@ != nodes[hi].hash@);
    } else if hi < j {
        assert(nodes[hi].hash@ != nodes[j].hash@);
    }
}

/// The common ancestor that stands last is a merge base.
pub proof fn lemma_latest_common_is_merge_base(
    nodes: Seq<CommitNode>,
    c1: Seq<u8>,
    c2: Seq<u8>,
    first: int,
    i: int,
)
    requires
        well_ordered(nodes),
        0 <= first < nodes.len(),
        nodes[first].hash@ == c1,
        0 <= i < nodes.len(),
        is_common(history_of(nodes), c1, c2, nodes[i].hash@),
        forall|j: int|
            i < j < nodes.len() ==> !is_common(history_of(nodes), c1, c2, (#[trigger] nodes[j]).hash@),
    ensures
        history_of(nodes).is_merge_base(c1, c2, nodes[i].hash@),
{
    let h = history_of(nodes);
    let m = nodes[i].hash@;
    assert forall|x: Seq<u8>|
        #[trigger] h.is_ancestor_or_self(x, c1) && h.is_ancestor_or_self(x, c2)
            && h.is_ancestor_or_self(m, x) implies x == m by {
        let jx = lemma_common_place(nodes, c1, c2, first, x);
        lemma_descendant_place(nodes, jx, i);
        if i < jx {
            assert(!is_common(h, c1, c2, nodes[jx].hash@));
        }
    }
}

/// Where a common ancestor is not under the merge base at place `i`, and every
/// common ancestor after it is, it is a second merge base.
pub proof fn lemma_other_merge_base(
    nodes: Seq<CommitNode>,
    c1: Seq<u8>,
    c2: Seq<u8>,
    first: int,
    i: int,
    t: int,
)
    requires
        well_ordered(nodes),
        0 <= first < nodes.len(),
        nodes[first].hash@ == c1,
        0 <= i < nodes.len(),
        0 <= t < nodes.len(),
        history_of(nodes).is_merge_base(c1, c2, nodes[i].hash@),
        is_common(history_of(nodes), c1, c2, nodes[t].hash@),
        !history_of(nodes).is_ancestor_or_self(nodes[t].hash@, nodes[i].hash@),
        forall|j: int|
            t < j < nodes.len() && is_common(history_of(nodes), c1, c2, (#[trigger] nodes[j]).hash@)
                ==> history_of(nodes).is_ancestor_or_self(nodes[j].hash@, nodes[i].hash@),
    ensures
        exists|a: Seq<u8>, b: Seq<u8>|
            a != b && #[trigger] history_of(nodes).is_merge_base(c1, c2, a)
                && #[trigger] history_of(nodes).is_merge_base(c1, c2, b),
{
    let h = history_of(nodes);
    let m = nodes[i].hash@;
    let y = nodes[t].hash@;
    lemma_node_in_history(nodes, i);
    assert(h.is_path(m, m, seq![m]));
    assert(h.is_ancestor_or_self(m, m));
    assert(y != m);
    assert forall|x: Seq<u8>|
        #[trigger] h.is_ancestor_or_self(x, c1) && h.is_ancestor_or_self(x, c2)
            && h.is_ancestor_or_self(y, x) implies x == y by {
        let jx = lemma_common_place(nodes, c1, c2, first, x);
        lemma_descendant_place(nodes, jx, t);
        if t < jx {
            assert(is_common(h, c1, c2, nodes[jx].hash@));
            assert(h.is_ancestor_or_self(x, m));
            let down = choose|down: Seq<Seq<u8>>| #[trigger] h.is_path(m, x, down);
            let further = choose|further: Seq<Seq<u8>>| #[trigger] h.is_path(x, y, further);
            lemma_path_concat(h, m, x, y, down, further);
        }
    }
    assert(h.is_merge_base(c1, c2, y));
    assert(h.is_merge_base(c1, c2, m));
}

/// Where every common ancestor is under the merge base at place `i`, there is
/// no other merge base.
pub proof fn lemma_only_merge_base(
    nodes: Seq<CommitNode>,
    c1: Seq<u8>,
    c2: Seq<u8>,
    first: int,
    i: int,
)
    requires
        well_ordered(nodes),
        0 <= first < nodes.len(),
        nodes[first].hash@ == c1,
        0 <= i < nodes.len(),
        history_of(nodes).is_merge_base(c1, c2, nodes[i].hash@),
        forall|j: int|
            0 <= j < nodes.len() && is_common(history_of(nodes), c1, c2, (#[trigger] nodes[j]).hash@)
                ==> history_of(nodes).is_ancestor_or_self(nodes[j].hash@, nodes[i].hash@),
    ensures
        forall|b: Seq<u8>| history_of(nodes).is_merge_base(c1, c2, b) ==> b == nodes[i].hash@,
{
    let h = history_of(nodes);
    let m = nodes[i].hash@;
    assert forall|b: Seq<u8>| h.is_merge_base(c1, c2, b) implies b == m by {
        let jb = lemma_common_place(nodes, c1, c2, first, b);
        assert(is_common(h, c1, c2, nodes[jb].hash@));
        assert(h.is_ancestor_or_self(b, m));
        assert(h.is_ancestor_or_self(m, c1));
    }
}

/// Appending a new commit whose parents are all there, each named once, keeps
/// the order and adds the commit to the graph.
pub proof fn lemma_push_node(nodes: Seq<CommitNode>, node: CommitNode)
    requires
        well_ordered(nodes),
        !has_node(nodes, node.hash@),
        parents_of(node).no_duplicates(),
        forall|k: int| 0 <= k < parents_of(node).len() ==> has_node(nodes, #[trigger] parents_of(node)[k]),
    ensures
        well_ordered(nodes.push(node)),
        history_of(nodes.push(node)).parents == history_of(nodes).parents.insert(
            node.hash@,
            parents_of(node),
        ),
{
    let more = nodes.push(node);
    let n = nodes.len() as int;
    assert forall|i: int, j: int| 0 <= i < j < more.len() implies (#[trigger] more[i]).hash@ != (
    #[trigger] more[j]).hash@ by {
        if j < n {
            assert(nodes[i].hash@ != nodes[j].hash@);
        } else {
            assert(nodes[i].hash@ != node.hash@);
        }
    }
    assert forall|i: int| 0 <= i < more.len() implies parents_of(
        #[trigger] more[i],
    ).no_duplicates() by {
        if i < n {
            assert(more[i] == nodes[i]);
        }
    }
    assert forall|i: int, k: int| 0 <= i < more.len() && 0 <= k < parents_of(more[i]).len() implies has_node(
        more.take(i),
        #[trigger] parents_of(more[i])[k],
    ) by {
        if i < n {
            assert(more[i] == nodes[i]);
            assert(more.take(i) =~= nodes.take(i));
            assert(has_node(nodes.take(i), parents_of(nodes[i])[k]));
        } else {
            assert(more.take(i) =~= nodes);
        }
    }
    let target = history_of(nodes).parents.insert(node.hash@, parents_of(node));
    assert forall|c: Seq<u8>| has_node(more, c) == (has_node(nodes, c) || c == node.hash@) by {
        if has_node(nodes, c) {
            let i = node_index(nodes, c);
            assert(more[i].hash@ == c);
        }
        if c == node.hash@ {
            assert(more[n].hash@ == c);
        }
        if has_node(more, c) {
            let i = node_index(more, c);
            if i < n {
                assert(nodes[i].hash@ == c);
            }
        }
    }
    assert forall|c: Seq<u8>| has_node(more, c) implies history_of(more).parents[c] == target[c] by {
        let i = node_index(more, c);
        lemma_node_in_history(more, i);
        if i < n {
            assert(nodes[i].hash@ == c);
            lemma_node_in_history(nodes, i);
        }
    }
    assert(history_of(more).parents =~= target);
}

} // verus!
