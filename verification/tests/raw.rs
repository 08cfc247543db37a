use simperby_storage::raw::{RepositoryError, ReservedState, SemanticCommit};

#[test]
fn git2_error_converts_to_backend_variant() {
    let e = RepositoryError::from(git2::Error::from_str("object missing"));
    match &e {
        RepositoryError::Git2Error(inner) => assert_eq!(inner.message(), "object missing"),
        _ => panic!("a git2 error must stay a git2 error"),
    }
    assert_eq!(e.message(), "git2 error: object missing");
}

#[test]
fn repository_error_messages() {
    assert_eq!(
        RepositoryError::InvalidRepository("merge commit".to_string()).message(),
        "the repository is invalid: merge commit"
    );
    assert_eq!(
        RepositoryError::Unknown("what".to_string()).message(),
        "unknown error: what"
    );
    assert_eq!(RepositoryError::Unknown(String::new()).message(), "unknown error: ");
}

#[test]
fn semantic_commit_clone_keeps_fields() {
    let commit = SemanticCommit {
        title: "title".to_string(),
        body: "body".to_string(),
        reserved_state: Some(ReservedState { content: vec![1, 2, 3] }),
    };
    let copy = commit.clone();
    assert_eq!(copy.title, "title");
    assert_eq!(copy.body, "body");
    assert_eq!(copy.reserved_state.map(|s| s.content), Some(vec![1, 2, 3]));
    let plain = SemanticCommit {
        title: "t".to_string(),
        body: String::new(),
        reserved_state: None,
    };
    assert!(plain.clone().reserved_state.is_none());
}
