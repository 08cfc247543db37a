use simperby_storage::commit_graph::CommitGraph;
use simperby_storage::hash::{CommitHash, Hash256};
use simperby_storage::raw::RepositoryError;

fn commit(n: u8) -> CommitHash {
    let mut hash = [0u8; 32];
    hash[0] = n;
    hash[31] = 0xc0;
    Hash256 { hash }
}

/// 1 <- 2 <- 3 <- 4 <- 5
fn line() -> CommitGraph {
    let mut g = CommitGraph::new();
    assert!(g.add_commit(commit(1), vec![]));
    assert!(g.add_commit(commit(2), vec![commit(1)]));
    assert!(g.add_commit(commit(3), vec![commit(2)]));
    assert!(g.add_commit(commit(4), vec![commit(3)]));
    assert!(g.add_commit(commit(5), vec![commit(4)]));
    g
}

/// 1 <- 2 <- 3 <- 6 <- 7, and 2 <- 4 <- 5, where 6 merges 3 and 5.
fn with_merge() -> CommitGraph {
    let mut g = CommitGraph::new();
    assert!(g.add_commit(commit(1), vec![]));
    assert!(g.add_commit(commit(2), vec![commit(1)]));
    assert!(g.add_commit(commit(3), vec![commit(2)]));
    assert!(g.add_commit(commit(4), vec![commit(2)]));
    assert!(g.add_commit(commit(5), vec![commit(4)]));
    assert!(g.add_commit(commit(6), vec![commit(3), commit(5)]));
    assert!(g.add_commit(commit(7), vec![commit(6)]));
    g
}

fn is_invalid<T>(r: &Result<T, RepositoryError>) -> bool {
    matches!(r, Err(RepositoryError::InvalidRepository(_)))
}

fn is_unknown<T>(r: &Result<T, RepositoryError>) -> bool {
    matches!(r, Err(RepositoryError::Unknown(_)))
}

#[test]
fn ancestors_of_linear_history_nearest_first() {
    let g = line();
    let all = g.list_ancestors(&commit(5), None).unwrap();
    assert_eq!(all, vec![commit(4), commit(3), commit(2), commit(1)]);
    let from_three = g.list_ancestors(&commit(3), None).unwrap();
    assert_eq!(from_three, vec![commit(2), commit(1)]);
}

#[test]
fn ancestors_are_truncated_to_max() {
    let g = line();
    assert_eq!(
        g.list_ancestors(&commit(5), Some(2)).unwrap(),
        vec![commit(4), commit(3)]
    );
    assert_eq!(g.list_ancestors(&commit(5), Some(0)).unwrap(), vec![]);
    assert_eq!(
        g.list_ancestors(&commit(5), Some(4)).unwrap(),
        vec![commit(4), commit(3), commit(2), commit(1)]
    );
    assert_eq!(
        g.list_ancestors(&commit(5), Some(100)).unwrap(),
        vec![commit(4), commit(3), commit(2), commit(1)]
    );
}

#[test]
fn ancestors_of_root_are_none() {
    let g = line();
    assert_eq!(g.list_ancestors(&commit(1), None).unwrap(), vec![]);
    assert_eq!(g.list_ancestors(&commit(1), Some(3)).unwrap(), vec![]);
}

#[test]
fn ancestors_fail_on_merge_commit() {
    let g = with_merge();
    assert!(is_invalid(&g.list_ancestors(&commit(7), None)));
    assert!(is_invalid(&g.list_ancestors(&commit(6), None)));
    assert!(is_invalid(&g.list_ancestors(&commit(6), Some(1))));
    assert!(is_invalid(&g.list_ancestors(&commit(7), Some(2))));
    let e = g.list_ancestors(&commit(7), None).unwrap_err();
    assert_eq!(
        e.message(),
        "the repository is invalid: a commit on the way has more than one parent"
    );
}

#[test]
fn ancestors_fail_when_a_listed_commit_is_a_merge() {
    let g = with_merge();
    assert!(is_invalid(&g.list_ancestors(&commit(7), Some(1))));
    assert!(is_invalid(&g.list_ancestors(&commit(7), Some(5))));
}

#[test]
fn ancestors_beside_a_merge_commit_are_listed() {
    let g = with_merge();
    assert_eq!(g.list_ancestors(&commit(7), Some(0)).unwrap(), vec![]);
    assert_eq!(g.list_ancestors(&commit(6), Some(0)).unwrap(), vec![]);
    assert_eq!(
        g.list_ancestors(&commit(5), None).unwrap(),
        vec![commit(4), commit(2), commit(1)]
    );
    assert_eq!(
        g.list_ancestors(&commit(3), Some(1)).unwrap(),
        vec![commit(2)]
    );
}

#[test]
fn ancestors_of_unknown_commit_fail() {
    let g = line();
    assert!(is_unknown(&g.list_ancestors(&commit(9), None)));
    assert!(is_unknown(&g.list_ancestors(&commit(9), Some(0))));
    assert!(is_unknown(&CommitGraph::new().list_ancestors(&commit(1), None)));
}

#[test]
fn descendants_of_linear_history_nearest_first() {
    let g = line();
    assert_eq!(
        g.list_descendants(&commit(1), None).unwrap(),
        vec![commit(2), commit(3), commit(4), commit(5)]
    );
    assert_eq!(
        g.list_descendants(&commit(3), None).unwrap(),
        vec![commit(4), commit(5)]
    );
    assert_eq!(g.list_descendants(&commit(5), None).unwrap(), vec![]);
}

#[test]
fn descendants_are_truncated_to_max() {
    let g = line();
    assert_eq!(
        g.list_descendants(&commit(1), Some(2)).unwrap(),
        vec![commit(2), commit(3)]
    );
    assert_eq!(g.list_descendants(&commit(1), Some(0)).unwrap(), vec![]);
    assert_eq!(
        g.list_descendants(&commit(2), Some(7)).unwrap(),
        vec![commit(3), commit(4), commit(5)]
    );
}

#[test]
fn descendants_fail_on_diverged_history() {
    let g = with_merge();
    assert!(is_invalid(&g.list_descendants(&commit(1), None)));
    assert!(is_invalid(&g.list_descendants(&commit(2), None)));
    assert!(is_invalid(&g.list_descendants(&commit(2), Some(1))));
    assert!(is_invalid(&g.list_descendants(&commit(1), Some(2))));
    let e = g.list_descendants(&commit(2), None).unwrap_err();
    assert_eq!(
        e.message(),
        "the repository is invalid: a commit on the way has more than one child"
    );
}

#[test]
fn descendants_fail_when_a_listed_commit_has_diverged() {
    let g = with_merge();
    assert!(is_invalid(&g.list_descendants(&commit(1), Some(1))));
    assert!(is_invalid(&g.list_descendants(&commit(1), Some(9))));
}

#[test]
fn descendants_beside_diverged_history_are_listed() {
    let g = with_merge();
    assert_eq!(g.list_descendants(&commit(1), Some(0)).unwrap(), vec![]);
    assert_eq!(g.list_descendants(&commit(2), Some(0)).unwrap(), vec![]);
    assert_eq!(
        g.list_descendants(&commit(3), None).unwrap(),
        vec![commit(6), commit(7)]
    );
    assert_eq!(
        g.list_descendants(&commit(4), None).unwrap(),
        vec![commit(5), commit(6), commit(7)]
    );
    assert_eq!(g.list_descendants(&commit(4), Some(1)).unwrap(), vec![commit(5)]);
}

#[test]
fn descendants_of_unknown_commit_fail() {
    let g = line();
    assert!(is_unknown(&g.list_descendants(&commit(9), None)));
}

#[test]
fn children_are_all_listed() {
    let g = with_merge();
    let mut kids = g.list_children(&commit(2)).unwrap();
    kids.sort();
    assert_eq!(kids, vec![commit(3), commit(4)]);
    assert_eq!(g.list_children(&commit(1)).unwrap(), vec![commit(2)]);
    assert_eq!(g.list_children(&commit(3)).unwrap(), vec![commit(6)]);
    assert_eq!(g.list_children(&commit(5)).unwrap(), vec![commit(6)]);
    assert_eq!(g.list_children(&commit(7)).unwrap(), vec![]);
}

#[test]
fn children_of_unknown_commit_are_none() {
    let g = line();
    assert_eq!(g.list_children(&commit(9)).unwrap(), vec![]);
    assert_eq!(CommitGraph::new().list_children(&commit(1)).unwrap(), vec![]);
}

#[test]
fn add_commit_refuses_known_commit() {
    let mut g = line();
    assert!(!g.add_commit(commit(3), vec![commit(5)]));
    assert!(!g.add_commit(commit(1), vec![]));
    assert_eq!(g.list_children(&commit(5)).unwrap(), vec![]);
    assert_eq!(g.list_ancestors(&commit(3), None).unwrap(), vec![commit(2), commit(1)]);
}

#[test]
fn add_commit_refuses_unknown_parent() {
    let mut g = line();
    assert!(!g.add_commit(commit(6), vec![commit(9)]));
    assert!(!g.add_commit(commit(6), vec![commit(5), commit(9)]));
    assert!(!g.add_commit(commit(6), vec![commit(6)]));
    assert!(!g.has_commit(&commit(6)));
}

#[test]
fn add_commit_refuses_repeated_parent() {
    let mut g = line();
    assert!(!g.add_commit(commit(6), vec![commit(5), commit(5)]));
    assert!(!g.add_commit(commit(6), vec![commit(4), commit(5), commit(4)]));
    assert!(!g.has_commit(&commit(6)));
    assert!(g.add_commit(commit(6), vec![commit(4), commit(5)]));
    assert!(g.has_commit(&commit(6)));
}

#[test]
fn has_commit_tells_known_from_unknown() {
    let g = line();
    assert!(g.has_commit(&commit(1)));
    assert!(g.has_commit(&commit(5)));
    assert!(!g.has_commit(&commit(0)));
    assert!(!CommitGraph::new().has_commit(&commit(1)));
}

#[test]
fn merge_base_of_two_branches_is_the_fork_point() {
    let g = with_merge();
    assert_eq!(g.find_merge_base(&commit(3), &commit(5)).unwrap(), commit(2));
    assert_eq!(g.find_merge_base(&commit(5), &commit(3)).unwrap(), commit(2));
    assert_eq!(g.find_merge_base(&commit(3), &commit(4)).unwrap(), commit(2));
}

#[test]
fn merge_base_of_commit_and_its_ancestor_is_the_ancestor() {
    let g = with_merge();
    assert_eq!(g.find_merge_base(&commit(7), &commit(4)).unwrap(), commit(4));
    assert_eq!(g.find_merge_base(&commit(1), &commit(7)).unwrap(), commit(1));
    assert_eq!(g.find_merge_base(&commit(6), &commit(6)).unwrap(), commit(6));
    let l = line();
    assert_eq!(l.find_merge_base(&commit(5), &commit(2)).unwrap(), commit(2));
}

#[test]
fn merge_base_fails_without_common_ancestor() {
    let mut g = CommitGraph::new();
    assert!(g.add_commit(commit(1), vec![]));
    assert!(g.add_commit(commit(2), vec![]));
    assert!(g.add_commit(commit(3), vec![commit(1)]));
    assert!(g.add_commit(commit(4), vec![commit(2)]));
    assert!(is_unknown(&g.find_merge_base(&commit(3), &commit(4))));
    assert!(is_unknown(&g.find_merge_base(&commit(1), &commit(2))));
    let e = g.find_merge_base(&commit(3), &commit(4)).unwrap_err();
    assert_eq!(e.message(), "unknown error: the commits have no common ancestor");
}

#[test]
fn merge_base_fails_on_unknown_commit() {
    let g = line();
    assert!(is_unknown(&g.find_merge_base(&commit(9), &commit(1))));
    assert!(is_unknown(&g.find_merge_base(&commit(1), &commit(9))));
    let e = g.find_merge_base(&commit(9), &commit(1)).unwrap_err();
    assert_eq!(e.message(), "unknown error: the commit is not in the graph");
}

#[test]
fn merge_base_fails_when_ambiguous() {
    let mut g = CommitGraph::new();
    assert!(g.add_commit(commit(1), vec![]));
    assert!(g.add_commit(commit(2), vec![commit(1)]));
    assert!(g.add_commit(commit(3), vec![commit(1)]));
    assert!(g.add_commit(commit(4), vec![commit(2), commit(3)]));
    assert!(g.add_commit(commit(5), vec![commit(3), commit(2)]));
    assert!(is_invalid(&g.find_merge_base(&commit(4), &commit(5))));
    let e = g.find_merge_base(&commit(5), &commit(4)).unwrap_err();
    assert_eq!(
        e.message(),
        "the repository is invalid: the commits have more than one merge base"
    );
    assert_eq!(g.find_merge_base(&commit(4), &commit(3)).unwrap(), commit(3));
    assert_eq!(g.find_merge_base(&commit(2), &commit(3)).unwrap(), commit(1));
}
