use forjj::repository::{
    bookmarks, bytes_eq, copy_bytes, is_fresh, list_tree_entries, BackendType, BookmarkTarget,
    HeadCommit, RepoInfo, Repository, StorageConfig, TreeEntryKind, TreeItem, TreeValue,
};

#[test]
fn test_backend_type_as_str() {
    assert_eq!(BackendType::Native.as_str(), "simple");
    assert_eq!(BackendType::Git.as_str(), "git");
}

#[test]
fn backend_is_read_from_its_name() {
    assert_eq!(BackendType::from_name("simple"), BackendType::Native);
    assert_eq!(BackendType::from_name("git"), BackendType::Git);
    assert_eq!(BackendType::from_name("mercurial"), BackendType::Git);
    assert_eq!(BackendType::from_name(""), BackendType::Git);
    assert_eq!(BackendType::from_name("Simple"), BackendType::Git);
    assert_eq!(BackendType::from_name(" simple"), BackendType::Git);
}

#[test]
fn backend_detection_trims_and_ignores_case() {
    assert_eq!(BackendType::detect(Some("simple")), BackendType::Native);
    assert_eq!(BackendType::detect(Some("  simple\n")), BackendType::Native);
    assert_eq!(BackendType::detect(Some("SIMPLE")), BackendType::Native);
    assert_eq!(BackendType::detect(Some("\tSimple \r\n")), BackendType::Native);
    assert_eq!(BackendType::detect(Some("git\n")), BackendType::Git);
    assert_eq!(BackendType::detect(Some("unknown")), BackendType::Git);
    assert_eq!(BackendType::detect(Some("sim ple")), BackendType::Git);
    assert_eq!(BackendType::detect(Some("")), BackendType::Git);
    assert_eq!(BackendType::detect(None), BackendType::Git);
}

#[test]
fn known_backends_are_recognized() {
    assert_eq!(BackendType::recognize("simple"), Some(BackendType::Native));
    assert_eq!(BackendType::recognize("git"), Some(BackendType::Git));
    assert_eq!(BackendType::recognize("Git"), None);
    assert_eq!(BackendType::recognize("mercurial"), None);
    assert_eq!(BackendType::recognize(""), None);
    assert_eq!(BackendType::detect_known(" GIT\n"), Some(BackendType::Git));
    assert_eq!(BackendType::detect_known("Simple"), Some(BackendType::Native));
    assert_eq!(BackendType::detect_known("svn"), None);
    assert_eq!(BackendType::detect_known(""), None);
    for backend in [BackendType::Native, BackendType::Git] {
        assert_eq!(BackendType::recognize(backend.as_str()), Some(backend));
    }
}

#[test]
fn default_storage_root() {
    assert_eq!(StorageConfig::default().repos_root, "/var/forjj/repos");
}

#[test]
fn tree_values_are_classified() {
    let tree = TreeValue { is_tree: true, is_resolved: true };
    let conflicted_tree = TreeValue { is_tree: true, is_resolved: false };
    let file = TreeValue { is_tree: false, is_resolved: true };
    let conflict = TreeValue { is_tree: false, is_resolved: false };
    assert_eq!(TreeEntryKind::classify(tree), TreeEntryKind::Tree);
    assert_eq!(TreeEntryKind::classify(conflicted_tree), TreeEntryKind::Tree);
    assert_eq!(TreeEntryKind::classify(file), TreeEntryKind::File);
    assert_eq!(TreeEntryKind::classify(conflict), TreeEntryKind::Conflict);
}

#[test]
fn unreadable_tree_items_are_skipped() {
    let items = vec![
        TreeItem {
            path: "src".to_string(),
            value: Some(TreeValue { is_tree: true, is_resolved: true }),
        },
        TreeItem { path: "broken".to_string(), value: None },
        TreeItem {
            path: "src/lib.rs".to_string(),
            value: Some(TreeValue { is_tree: false, is_resolved: true }),
        },
        TreeItem {
            path: "README".to_string(),
            value: Some(TreeValue { is_tree: false, is_resolved: false }),
        },
    ];
    let entries = list_tree_entries(&items);
    let seen: Vec<(&str, TreeEntryKind)> =
        entries.iter().map(|e| (e.path.as_str(), e.kind)).collect();
    assert_eq!(
        seen,
        vec![
            ("src", TreeEntryKind::Tree),
            ("src/lib.rs", TreeEntryKind::File),
            ("README", TreeEntryKind::Conflict),
        ]
    );
    assert!(list_tree_entries(&vec![]).is_empty());
}

#[test]
fn fresh_repository_has_only_root_children_as_heads() {
    let root = vec![0u8; 4];
    let child = HeadCommit { id: vec![1, 1, 1, 1], parent_ids: Some(vec![root.clone()]) };
    assert!(is_fresh(&root, &vec![]));
    assert!(is_fresh(
        &root,
        &vec![HeadCommit { id: root.clone(), parent_ids: Some(vec![]) }]
    ));
    assert!(is_fresh(
        &root,
        &vec![HeadCommit { id: root.clone(), parent_ids: None }]
    ));
    assert!(is_fresh(&root, &vec![child]));
}

#[test]
fn repository_with_user_commits_is_not_fresh() {
    let root = vec![0u8; 4];
    let child = || HeadCommit { id: vec![1, 1, 1, 1], parent_ids: Some(vec![root.clone()]) };
    let grandchild = HeadCommit { id: vec![2, 2, 2, 2], parent_ids: Some(vec![vec![1, 1, 1, 1]]) };
    let merge = HeadCommit {
        id: vec![3, 3, 3, 3],
        parent_ids: Some(vec![root.clone(), root.clone()]),
    };
    let orphan = HeadCommit { id: vec![4, 4, 4, 4], parent_ids: Some(vec![]) };
    let unreadable = HeadCommit { id: vec![5, 5, 5, 5], parent_ids: None };
    assert!(!is_fresh(&root, &vec![grandchild]));
    assert!(!is_fresh(&root, &vec![merge]));
    assert!(!is_fresh(&root, &vec![orphan]));
    assert!(!is_fresh(&root, &vec![unreadable]));
    assert!(!is_fresh(
        &root,
        &vec![child(), HeadCommit { id: vec![2, 2, 2, 2], parent_ids: Some(vec![vec![1, 1, 1, 1]]) }]
    ));
    assert!(is_fresh(&root, &vec![child(), child()]));
}

#[test]
fn bookmarks_without_target_stand_for_the_root() {
    let root = vec![0u8; 3];
    let targets = vec![
        BookmarkTarget { name: "main".to_string(), target: Some(vec![1, 2, 3]) },
        BookmarkTarget { name: "conflicted".to_string(), target: None },
    ];
    let list = bookmarks(&root, &targets);
    assert_eq!(list.len(), 2);
    assert_eq!(list[0].name, "main");
    assert_eq!(list[0].commit_id, vec![1, 2, 3]);
    assert_eq!(list[1].name, "conflicted");
    assert_eq!(list[1].commit_id, root);
}

#[test]
fn bytes_are_compared_and_copied() {
    assert!(bytes_eq(&vec![], &vec![]));
    assert!(bytes_eq(&vec![1, 2], &vec![1, 2]));
    assert!(!bytes_eq(&vec![1, 2], &vec![1, 3]));
    assert!(!bytes_eq(&vec![1, 2], &vec![1]));
    assert!(!bytes_eq(&vec![1], &vec![1, 2]));
    assert_eq!(copy_bytes(&vec![9, 8, 7]), vec![9, 8, 7]);
    assert_eq!(copy_bytes(&vec![]), Vec::<u8>::new());
}

fn opened(heads: Vec<HeadCommit>) -> Repository {
    Repository::new(
        RepoInfo {
            name: "test-repo".to_string(),
            owner: "alice".to_string(),
            path: "/data/repos/alice/test-repo".to_string(),
            backend_type: BackendType::Native,
        },
        vec![0, 0],
        heads,
        vec![
            BookmarkTarget { name: "main".to_string(), target: Some(vec![1, 1]) },
            BookmarkTarget { name: "lost".to_string(), target: None },
        ],
        vec![7, 7, 7],
        vec![vec![7, 7, 7], vec![8]],
    )
}

#[test]
fn repository_reports_what_was_read() {
    let repo = opened(vec![
        HeadCommit { id: vec![1, 1], parent_ids: Some(vec![vec![0, 0]]) },
        HeadCommit { id: vec![2, 2], parent_ids: None },
    ]);
    assert_eq!(repo.info().name, "test-repo");
    assert_eq!(repo.info().owner, "alice");
    assert_eq!(repo.info().backend_type, BackendType::Native);
    assert_eq!(repo.root_id(), &vec![0, 0]);
    assert_eq!(repo.heads(), vec![vec![1, 1], vec![2, 2]]);
    assert_eq!(repo.operation_id(), &vec![7, 7, 7]);
    assert_eq!(repo.operation_heads(), &vec![vec![7, 7, 7], vec![8]]);
    let list = repo.bookmarks();
    assert_eq!(list[0].name, "main");
    assert_eq!(list[0].commit_id, vec![1, 1]);
    assert_eq!(list[1].name, "lost");
    assert_eq!(list[1].commit_id, vec![0, 0]);
    let entries = repo.list_tree_entries(&vec![TreeItem {
        path: "a".to_string(),
        value: Some(TreeValue { is_tree: false, is_resolved: true }),
    }]);
    assert_eq!(entries.len(), 1);
    assert_eq!(entries[0].kind, TreeEntryKind::File);
}

#[test]
fn repository_freshness() {
    let fresh = opened(vec![HeadCommit { id: vec![1, 1], parent_ids: Some(vec![vec![0, 0]]) }]);
    assert!(fresh.is_fresh());
    let used = opened(vec![
        HeadCommit { id: vec![1, 1], parent_ids: Some(vec![vec![0, 0]]) },
        HeadCommit { id: vec![2, 2], parent_ids: Some(vec![vec![1, 1]]) },
    ]);
    assert!(!used.is_fresh());
    assert!(opened(vec![]).is_fresh());
}
