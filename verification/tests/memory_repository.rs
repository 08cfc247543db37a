use simperby_storage::hash::{CommitHash, Hash256};
use simperby_storage::memory_repository::MemoryRepository;
use simperby_storage::names::NameTable;
use simperby_storage::raw::{RepositoryError, ReservedState, SemanticCommit};

fn id(n: u8) -> CommitHash {
    let mut hash = [0u8; 32];
    hash[0] = n;
    hash[1] = 0xab;
    Hash256 { hash }
}

fn name(s: &str) -> String {
    s.to_string()
}

fn sorted(mut v: Vec<String>) -> Vec<String> {
    v.sort();
    v
}

/// main: 1 <- 2 <- 3, with the position on main.
fn three_commits() -> MemoryRepository {
    let mut repo = MemoryRepository::new(id(1), &name("main"));
    repo.commit_on_head(id(2)).unwrap();
    repo.commit_on_head(id(3)).unwrap();
    repo
}

fn is_unknown<T>(r: &Result<T, RepositoryError>) -> bool {
    matches!(r, Err(RepositoryError::Unknown(_)))
}

#[test]
fn new_repository_has_one_commit_on_its_branch() {
    let repo = MemoryRepository::new(id(1), &name("main"));
    assert_eq!(repo.list_branches().unwrap(), vec![name("main")]);
    assert_eq!(repo.list_tags().unwrap(), Vec::<String>::new());
    assert_eq!(repo.locate_branch(&name("main")).unwrap(), id(1));
    assert_eq!(repo.get_head().unwrap(), id(1));
    assert_eq!(repo.get_initial_commit().unwrap(), id(1));
    assert_eq!(repo.list_ancestors(&id(1), None).unwrap(), vec![]);
    assert_eq!(repo.list_children(&id(1)).unwrap(), vec![]);
}

#[test]
fn commit_advances_the_attached_branch() {
    let repo = three_commits();
    assert_eq!(repo.locate_branch(&name("main")).unwrap(), id(3));
    assert_eq!(repo.get_head().unwrap(), id(3));
    assert_eq!(repo.list_ancestors(&id(3), None).unwrap(), vec![id(2), id(1)]);
    assert_eq!(repo.list_descendants(&id(1), None).unwrap(), vec![id(2), id(3)]);
    assert_eq!(repo.get_initial_commit().unwrap(), id(1));
}

#[test]
fn commit_refuses_known_commit_and_detached_position() {
    let mut repo = three_commits();
    assert!(is_unknown(&repo.commit_on_head(id(2))));
    assert_eq!(repo.locate_branch(&name("main")).unwrap(), id(3));
    repo.checkout_detach(&id(2)).unwrap();
    assert!(is_unknown(&repo.commit_on_head(id(4))));
    assert_eq!(repo.get_head().unwrap(), id(2));
    assert_eq!(repo.list_children(&id(2)).unwrap(), vec![id(3)]);
}

#[test]
fn create_branch_needs_new_name_and_known_commit() {
    let mut repo = three_commits();
    assert!(repo.create_branch(&name("dev"), id(2)).is_ok());
    assert!(is_unknown(&repo.create_branch(&name("dev"), id(3))));
    assert!(is_unknown(&repo.create_branch(&name("main"), id(1))));
    assert!(is_unknown(&repo.create_branch(&name("other"), id(9))));
    assert_eq!(repo.locate_branch(&name("dev")).unwrap(), id(2));
    assert_eq!(
        sorted(repo.list_branches().unwrap()),
        vec![name("dev"), name("main")]
    );
    assert_eq!(
        repo.create_branch(&name("other"), id(9)).unwrap_err().message(),
        "unknown error: the commit is not in the graph"
    );
}

#[test]
fn locate_branch_fails_for_unknown_name() {
    let repo = three_commits();
    assert!(is_unknown(&repo.locate_branch(&name("dev"))));
    assert!(is_unknown(&repo.locate_branch(&name(""))));
}

#[test]
fn get_branches_lists_all_names_on_a_commit() {
    let mut repo = three_commits();
    repo.create_branch(&name("a"), id(2)).unwrap();
    repo.create_branch(&name("b"), id(2)).unwrap();
    repo.create_branch(&name("c"), id(3)).unwrap();
    assert_eq!(
        sorted(repo.get_branches(&id(2)).unwrap()),
        vec![name("a"), name("b")]
    );
    assert_eq!(
        sorted(repo.get_branches(&id(3)).unwrap()),
        vec![name("c"), name("main")]
    );
    assert_eq!(repo.get_branches(&id(1)).unwrap(), Vec::<String>::new());
    assert_eq!(repo.get_branches(&id(9)).unwrap(), Vec::<String>::new());
}

#[test]
fn move_branch_repoints_an_existing_branch() {
    let mut repo = three_commits();
    repo.create_branch(&name("dev"), id(1)).unwrap();
    assert!(repo.move_branch(&name("dev"), &id(3)).is_ok());
    assert_eq!(repo.locate_branch(&name("dev")).unwrap(), id(3));
    assert!(is_unknown(&repo.move_branch(&name("nope"), &id(3))));
    assert!(is_unknown(&repo.move_branch(&name("dev"), &id(9))));
    assert_eq!(repo.locate_branch(&name("dev")).unwrap(), id(3));
    assert!(is_unknown(&repo.locate_branch(&name("nope"))));
}

#[test]
fn delete_branch_removes_only_that_branch() {
    let mut repo = three_commits();
    repo.create_branch(&name("dev"), id(1)).unwrap();
    assert!(repo.delete_branch(&name("dev")).is_ok());
    assert!(is_unknown(&repo.delete_branch(&name("dev"))));
    assert!(is_unknown(&repo.locate_branch(&name("dev"))));
    assert_eq!(repo.list_branches().unwrap(), vec![name("main")]);
}

#[test]
fn tags_are_created_located_and_removed() {
    let mut repo = three_commits();
    assert!(repo.create_tag(&name("v1"), &id(1)).is_ok());
    assert!(repo.create_tag(&name("first"), &id(1)).is_ok());
    assert!(is_unknown(&repo.create_tag(&name("v1"), &id(2))));
    assert!(is_unknown(&repo.create_tag(&name("v9"), &id(9))));
    assert_eq!(repo.locate_tag(&name("v1")).unwrap(), id(1));
    assert!(is_unknown(&repo.locate_tag(&name("v2"))));
    assert_eq!(
        sorted(repo.get_tag(&id(1)).unwrap()),
        vec![name("first"), name("v1")]
    );
    assert_eq!(repo.get_tag(&id(2)).unwrap(), Vec::<String>::new());
    assert_eq!(
        sorted(repo.list_tags().unwrap()),
        vec![name("first"), name("v1")]
    );
    assert!(repo.remove_tag(&name("v1")).is_ok());
    assert!(is_unknown(&repo.remove_tag(&name("v1"))));
    assert_eq!(repo.list_tags().unwrap(), vec![name("first")]);
    assert_eq!(repo.list_branches().unwrap(), vec![name("main")]);
}

#[test]
fn checkout_attaches_and_detaches_the_position() {
    let mut repo = three_commits();
    repo.create_branch(&name("dev"), id(1)).unwrap();
    assert!(repo.checkout(&name("dev")).is_ok());
    assert_eq!(repo.get_head().unwrap(), id(1));
    assert!(is_unknown(&repo.checkout(&name("nope"))));
    assert_eq!(repo.get_head().unwrap(), id(1));
    assert!(repo.checkout_detach(&id(2)).is_ok());
    assert_eq!(repo.get_head().unwrap(), id(2));
    assert!(is_unknown(&repo.checkout_detach(&id(9))));
    assert_eq!(repo.get_head().unwrap(), id(2));
    assert!(repo.checkout(&name("main")).is_ok());
    assert_eq!(repo.get_head().unwrap(), id(3));
}

#[test]
fn commit_on_another_branch_diverges_history() {
    let mut repo = three_commits();
    repo.create_branch(&name("dev"), id(2)).unwrap();
    repo.checkout(&name("dev")).unwrap();
    repo.commit_on_head(id(4)).unwrap();
    assert_eq!(repo.locate_branch(&name("dev")).unwrap(), id(4));
    assert_eq!(repo.locate_branch(&name("main")).unwrap(), id(3));
    let mut kids = repo.list_children(&id(2)).unwrap();
    kids.sort();
    assert_eq!(kids, vec![id(3), id(4)]);
    assert!(matches!(
        repo.list_descendants(&id(1), None),
        Err(RepositoryError::InvalidRepository(_))
    ));
    assert_eq!(repo.find_merge_base(&id(3), &id(4)).unwrap(), id(2));
    assert!(repo.add_commit(id(5), vec![id(3), id(4)]));
    assert!(matches!(
        repo.list_ancestors(&id(5), None),
        Err(RepositoryError::InvalidRepository(_))
    ));
    assert_eq!(repo.locate_branch(&name("dev")).unwrap(), id(4));
    assert_eq!(repo.get_head().unwrap(), id(4));
}

#[test]
fn branch_of_the_position_cannot_be_deleted() {
    let mut repo = three_commits();
    assert!(is_unknown(&repo.delete_branch(&name("main"))));
    assert_eq!(repo.get_head().unwrap(), id(3));
    repo.create_branch(&name("dev"), id(1)).unwrap();
    repo.checkout(&name("dev")).unwrap();
    assert!(repo.delete_branch(&name("main")).is_ok());
    assert!(is_unknown(&repo.delete_branch(&name("dev"))));
    repo.checkout_detach(&id(2)).unwrap();
    assert!(repo.delete_branch(&name("dev")).is_ok());
    assert_eq!(repo.list_branches().unwrap(), Vec::<String>::new());
    assert_eq!(repo.get_head().unwrap(), id(2));
}

#[test]
fn semantic_commit_round_trip() {
    let mut repo = three_commits();
    let written = SemanticCommit {
        title: "reserved: update members".to_string(),
        body: "two members join\n".to_string(),
        reserved_state: Some(ReservedState { content: vec![0, 1, 2, 255] }),
    };
    repo.create_semantic_commit(id(4), written.copy()).unwrap();
    let read = repo.read_semantic_commit(&id(4)).unwrap();
    assert_eq!(read.title, written.title);
    assert_eq!(read.body, written.body);
    assert_eq!(read.reserved_state.map(|s| s.content), Some(vec![0, 1, 2, 255]));
    assert_eq!(repo.get_head().unwrap(), id(4));
    assert_eq!(repo.list_ancestors(&id(4), Some(1)).unwrap(), vec![id(3)]);
}

#[test]
fn semantic_commit_without_reserved_state_round_trip() {
    let mut repo = three_commits();
    let written = SemanticCommit {
        title: "docs".to_string(),
        body: String::new(),
        reserved_state: None,
    };
    repo.create_semantic_commit(id(4), written).unwrap();
    let read = repo.read_semantic_commit(&id(4)).unwrap();
    assert_eq!(read.title, "docs");
    assert_eq!(read.body, "");
    assert!(read.reserved_state.is_none());
}

#[test]
fn read_semantic_commit_fails_for_other_commits() {
    let mut repo = three_commits();
    assert!(is_unknown(&repo.read_semantic_commit(&id(2))));
    assert!(is_unknown(&repo.read_semantic_commit(&id(9))));
    let commit = SemanticCommit {
        title: "t".to_string(),
        body: "b".to_string(),
        reserved_state: None,
    };
    assert!(is_unknown(&repo.create_semantic_commit(id(3), commit)));
    assert!(is_unknown(&repo.read_semantic_commit(&id(3))));
}

#[test]
fn empty_graph_has_no_initial_commit() {
    let g = simperby_storage::commit_graph::CommitGraph::new();
    assert_eq!(g.initial_commit(), None);
}

#[test]
fn name_table_keeps_one_commit_per_name() {
    let mut t = NameTable::new();
    assert!(t.create(&name("a"), id(1)));
    assert!(!t.create(&name("a"), id(2)));
    assert_eq!(t.locate(&name("a")), Some(id(1)));
    assert!(t.set(&name("a"), id(2)));
    assert_eq!(t.locate(&name("a")), Some(id(2)));
    assert!(!t.set(&name("b"), id(2)));
    assert_eq!(t.locate(&name("b")), None);
    assert!(t.create(&name("b"), id(2)));
    assert_eq!(sorted(t.names_on(&id(2))), vec![name("a"), name("b")]);
    assert_eq!(t.names_on(&id(1)), Vec::<String>::new());
    assert!(t.remove(&name("a")));
    assert!(!t.remove(&name("a")));
    assert_eq!(t.list(), vec![name("b")]);
}
