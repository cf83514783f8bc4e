use forjj::messages::{
    Capability, FetchRequest, HelloRequest, HelloResponse, PushRequest, PushStatus, RefStatus,
    RefUpdate,
};
use forjj::negotiation::{
    accept_handshake, examine, has_capability, negotiate_capabilities, push_negotiation,
    read_optional_id, run_fetch, run_handshake, run_push, Finding, ProtocolError,
};
use forjj::object_id::ObjectId;
use forjj::repo_state::RepoState;
use forjj::history::HistoryError;
use forjj::PROTOCOL_VERSION;

fn id(name: &str) -> ObjectId {
    ObjectId::hash(name.as_bytes())
}

fn update(name: &str, old: Option<ObjectId>, new: Option<ObjectId>) -> RefUpdate {
    RefUpdate {
        ref_name: name.to_string(),
        old_id: old.map(|id| id.to_hex()),
        new_id: new.map(|id| id.to_hex()),
    }
}

/// History a <- c, and d on its own; heads [c]; main -> a.
fn repo_at_a() -> RepoState {
    let mut repo = RepoState::new();
    repo.record(id("a"), &vec![]).unwrap();
    assert!(repo.set_operation_heads(&vec![id("a")]));
    repo.set_reference("main", id("a"));
    repo
}

/// History a <- c; heads [c]; main -> c.
fn repo_advanced_to_c() -> RepoState {
    let mut repo = RepoState::new();
    repo.record(id("a"), &vec![]).unwrap();
    repo.record(id("c"), &vec![id("a")]).unwrap();
    assert!(repo.set_operation_heads(&vec![id("c")]));
    repo.set_reference("main", id("c"));
    repo
}

/// History a and c without a link between them; heads [c]; main -> c.
fn repo_diverged_at_c() -> RepoState {
    let mut repo = RepoState::new();
    repo.record(id("a"), &vec![]).unwrap();
    repo.record(id("c"), &vec![]).unwrap();
    assert!(repo.set_operation_heads(&vec![id("c")]));
    repo.set_reference("main", id("c"));
    repo
}

#[test]
fn clean_fast_forward_push() {
    let mut repo = repo_at_a();
    let request = PushRequest {
        have_ops: vec![id("a")],
        updates: vec![update("main", Some(id("a")), Some(id("b")))],
    };
    assert!(push_negotiation(&repo, &request).is_none());
    let result = run_push(&mut repo, &request, id("op-1")).unwrap();
    assert_eq!(result.status, PushStatus::Accepted);
    assert_eq!(result.new_op_head, Some(id("op-1")));
    assert_eq!(result.ref_results.len(), 1);
    assert_eq!(result.ref_results[0].ref_name, "main");
    assert_eq!(result.ref_results[0].status, RefStatus::Accepted);
    assert_eq!(result.ref_results[0].message, None);
    assert_eq!(repo.resolve_reference("main"), Some(id("b")));
    assert_eq!(repo.operation_heads(), vec![id("op-1")]);
    assert!(repo.is_ancestor(&id("a"), &id("op-1")));
    let pairs: Vec<(String, ObjectId)> =
        repo.bookmarks().into_iter().map(|r| (r.name, r.target)).collect();
    assert_eq!(pairs, vec![("main".to_string(), id("b"))]);
}

#[test]
fn stale_push() {
    let mut repo = repo_advanced_to_c();
    let request = PushRequest {
        have_ops: vec![id("a")],
        updates: vec![update("main", Some(id("a")), Some(id("b")))],
    };
    let result = run_push(&mut repo, &request, id("op-1")).unwrap();
    assert_eq!(result.status, PushStatus::Rejected);
    assert_eq!(result.new_op_head, None);
    assert_eq!(result.ref_results[0].status, RefStatus::Stale);
    assert_eq!(
        result.ref_results[0].message.as_deref(),
        Some("fast-forward required")
    );
    assert_eq!(repo.resolve_reference("main"), Some(id("c")));
    assert_eq!(repo.operation_heads(), vec![id("c")]);
    assert!(!repo.is_recorded(&id("op-1")));
}

#[test]
fn diverged_push() {
    let mut repo = repo_diverged_at_c();
    let request = PushRequest {
        have_ops: vec![id("a")],
        updates: vec![update("main", Some(id("a")), Some(id("b")))],
    };
    let result = run_push(&mut repo, &request, id("op-1")).unwrap();
    assert_eq!(result.status, PushStatus::Conflict);
    assert_eq!(result.new_op_head, None);
    assert_eq!(result.ref_results[0].status, RefStatus::Conflict);
    assert_eq!(
        result.ref_results[0].message.as_deref(),
        Some("reference diverged")
    );
    assert_eq!(repo.resolve_reference("main"), Some(id("c")));
    assert_eq!(repo.operation_heads(), vec![id("c")]);
    let pairs: Vec<(String, ObjectId)> =
        repo.bookmarks().into_iter().map(|r| (r.name, r.target)).collect();
    assert_eq!(pairs, vec![("main".to_string(), id("c"))]);
}

#[test]
fn unknown_old_value_is_a_conflict() {
    // The expected value is not recorded at all, so it is nobody's ancestor.
    let mut repo = repo_advanced_to_c();
    let request = PushRequest {
        have_ops: vec![],
        updates: vec![update("main", Some(id("x")), Some(id("b")))],
    };
    let result = run_push(&mut repo, &request, id("op-1")).unwrap();
    assert_eq!(result.ref_results[0].status, RefStatus::Conflict);
    assert_eq!(result.status, PushStatus::Conflict);
}

#[test]
fn empty_handshake_on_fresh_repositories() {
    let repo = RepoState::new();
    let request = HelloRequest {
        protocol_version: PROTOCOL_VERSION,
        capabilities: vec![],
        client_op_heads: vec![],
    };
    let response = run_handshake(&repo, &vec![Capability::Operations], &request).unwrap();
    assert_eq!(response.protocol_version, PROTOCOL_VERSION);
    assert_eq!(response.capabilities, vec![Capability::Operations]);
    assert_eq!(response.server_op_heads, vec![]);
    assert_eq!(response.common_ancestor, None);
}

#[test]
fn handshake_reports_the_common_ancestor() {
    // a <- b <- c on the server; the client has b and something unknown.
    let mut repo = RepoState::new();
    repo.record(id("a"), &vec![]).unwrap();
    repo.record(id("b"), &vec![id("a")]).unwrap();
    repo.record(id("c"), &vec![id("b")]).unwrap();
    assert!(repo.set_operation_heads(&vec![id("c")]));
    let server = vec![Capability::Resumable, Capability::Operations];
    let request = HelloRequest {
        protocol_version: 1,
        capabilities: vec![Capability::Operations],
        client_op_heads: vec![id("client-only"), id("b")],
    };
    let response = run_handshake(&repo, &server, &request).unwrap();
    assert_eq!(response.capabilities, server);
    assert_eq!(response.server_op_heads, vec![id("c")]);
    assert_eq!(response.common_ancestor, Some(id("b")));

    let fresh_client = HelloRequest {
        protocol_version: 1,
        capabilities: vec![],
        client_op_heads: vec![],
    };
    let response = run_handshake(&repo, &server, &fresh_client).unwrap();
    assert_eq!(response.common_ancestor, None);
}

#[test]
fn handshake_refuses_another_version() {
    let repo = RepoState::new();
    for theirs in [0u32, 2, u32::MAX] {
        let request = HelloRequest {
            protocol_version: theirs,
            capabilities: vec![Capability::Operations],
            client_op_heads: vec![],
        };
        let r = run_handshake(&repo, &vec![Capability::Operations], &request);
        assert_eq!(
            r.err(),
            Some(ProtocolError::IncompatibleVersion { ours: 1, theirs })
        );
    }
}

#[test]
fn client_accepts_a_compatible_answer() {
    let response = HelloResponse {
        protocol_version: 1,
        capabilities: vec![Capability::Resumable, Capability::ThinPack],
        server_op_heads: vec![],
        common_ancestor: None,
    };
    let ours = vec![Capability::ThinPack, Capability::Operations];
    assert_eq!(accept_handshake(&ours, &response), Ok(vec![Capability::ThinPack]));
    let other = HelloResponse { protocol_version: 7, ..response };
    assert_eq!(
        accept_handshake(&ours, &other),
        Err(ProtocolError::IncompatibleVersion { ours: 1, theirs: 7 })
    );
}

#[test]
fn negotiated_capabilities_are_the_intersection() {
    let ops = Capability::Operations;
    let thin = Capability::ThinPack;
    let res = Capability::Resumable;
    assert_eq!(negotiate_capabilities(&vec![], &vec![]), vec![]);
    assert_eq!(negotiate_capabilities(&vec![ops], &vec![]), vec![]);
    assert_eq!(negotiate_capabilities(&vec![], &vec![ops]), vec![]);
    assert_eq!(negotiate_capabilities(&vec![ops], &vec![thin]), vec![]);
    assert_eq!(
        negotiate_capabilities(&vec![ops, thin, res], &vec![res, ops]),
        vec![ops, res]
    );
    assert_eq!(
        negotiate_capabilities(&vec![res, thin, ops], &vec![ops, thin, res]),
        vec![ops, thin, res]
    );
}

#[test]
fn negotiation_ignores_order_and_repetition() {
    let ops = Capability::Operations;
    let thin = Capability::ThinPack;
    let res = Capability::Resumable;
    let expected = vec![thin, res];
    assert_eq!(negotiate_capabilities(&vec![thin, res], &vec![res, thin, ops]), expected);
    assert_eq!(negotiate_capabilities(&vec![res, thin], &vec![thin, ops, res]), expected);
    assert_eq!(
        negotiate_capabilities(&vec![res, res, thin, res, thin], &vec![thin, thin, res]),
        expected
    );
    assert_eq!(negotiate_capabilities(&vec![res, thin, ops], &vec![thin, res]), expected);
    assert!(has_capability(&vec![res, thin], thin));
    assert!(!has_capability(&vec![res, thin], ops));
}

#[test]
fn push_without_updates_succeeds_and_changes_nothing() {
    let mut repo = repo_at_a();
    let request = PushRequest { have_ops: vec![id("a")], updates: vec![] };
    let result = run_push(&mut repo, &request, id("op-1")).unwrap();
    assert_eq!(result.status, PushStatus::Accepted);
    assert_eq!(result.new_op_head, None);
    assert!(result.ref_results.is_empty());
    assert_eq!(repo.operation_heads(), vec![id("a")]);
    assert_eq!(repo.resolve_reference("main"), Some(id("a")));
    assert!(!repo.is_recorded(&id("op-1")));
}

#[test]
fn create_and_delete() {
    let mut repo = repo_at_a();
    let request = PushRequest {
        have_ops: vec![id("a")],
        updates: vec![
            update("feature", None, Some(id("f"))),
            update("main", Some(id("a")), None),
            update("nothing", None, None),
        ],
    };
    let result = run_push(&mut repo, &request, id("op-1")).unwrap();
    assert_eq!(result.status, PushStatus::Accepted);
    assert_eq!(result.new_op_head, Some(id("op-1")));
    let statuses: Vec<RefStatus> = result.ref_results.iter().map(|r| r.status).collect();
    assert_eq!(statuses, vec![RefStatus::Accepted; 3]);
    let names: Vec<&str> = result.ref_results.iter().map(|r| r.ref_name.as_str()).collect();
    assert_eq!(names, vec!["feature", "main", "nothing"]);
    assert_eq!(repo.resolve_reference("feature"), Some(id("f")));
    assert_eq!(repo.resolve_reference("main"), None);
    assert_eq!(repo.resolve_reference("nothing"), None);
}

#[test]
fn create_of_an_existing_reference_is_a_conflict() {
    let mut repo = repo_at_a();
    let request = PushRequest {
        have_ops: vec![],
        updates: vec![update("main", None, Some(id("b")))],
    };
    let result = run_push(&mut repo, &request, id("op-1")).unwrap();
    assert_eq!(result.ref_results[0].status, RefStatus::Conflict);
    assert_eq!(repo.resolve_reference("main"), Some(id("a")));
}

#[test]
fn update_of_an_unknown_reference_is_rejected() {
    let mut repo = repo_at_a();
    let request = PushRequest {
        have_ops: vec![],
        updates: vec![
            update("ghost", Some(id("a")), Some(id("b"))),
            update("ghost-too", Some(id("a")), None),
        ],
    };
    let result = run_push(&mut repo, &request, id("op-1")).unwrap();
    assert_eq!(result.status, PushStatus::Rejected);
    assert_eq!(result.ref_results[0].status, RefStatus::Rejected);
    assert_eq!(
        result.ref_results[0].message.as_deref(),
        Some("reference does not exist")
    );
    assert_eq!(result.ref_results[1].status, RefStatus::Rejected);
    assert_eq!(repo.resolve_reference("ghost"), None);
}

#[test]
fn malformed_identifiers_are_rejected() {
    let mut repo = repo_at_a();
    let request = PushRequest {
        have_ops: vec![],
        updates: vec![
            RefUpdate {
                ref_name: "main".to_string(),
                old_id: Some("not hex".to_string()),
                new_id: Some(id("b").to_hex()),
            },
            RefUpdate {
                ref_name: "main".to_string(),
                old_id: Some(id("a").to_hex()),
                new_id: Some("abcd".to_string()),
            },
        ],
    };
    let result = run_push(&mut repo, &request, id("op-1")).unwrap();
    assert_eq!(result.status, PushStatus::Rejected);
    for r in &result.ref_results {
        assert_eq!(r.status, RefStatus::Rejected);
        assert_eq!(r.message.as_deref(), Some("malformed identifier"));
    }
    assert_eq!(repo.resolve_reference("main"), Some(id("a")));
}

#[test]
fn one_refused_update_stops_the_whole_push() {
    let mut repo = repo_advanced_to_c();
    repo.set_reference("dev", id("a"));
    let request = PushRequest {
        have_ops: vec![id("c")],
        updates: vec![
            update("dev", Some(id("a")), Some(id("b"))),
            update("main", Some(id("a")), Some(id("b"))),
            update("new", None, Some(id("b"))),
        ],
    };
    let result = run_push(&mut repo, &request, id("op-1")).unwrap();
    let statuses: Vec<RefStatus> = result.ref_results.iter().map(|r| r.status).collect();
    assert_eq!(
        statuses,
        vec![RefStatus::Accepted, RefStatus::Stale, RefStatus::Accepted]
    );
    assert_eq!(result.status, PushStatus::Rejected);
    assert_eq!(result.new_op_head, None);
    assert_eq!(repo.resolve_reference("dev"), Some(id("a")));
    assert_eq!(repo.resolve_reference("main"), Some(id("c")));
    assert_eq!(repo.resolve_reference("new"), None);
    assert_eq!(repo.operation_heads(), vec![id("c")]);
}

#[test]
fn conflict_outweighs_stale() {
    let mut repo = repo_advanced_to_c();
    repo.record(id("d"), &vec![]).unwrap();
    repo.set_reference("side", id("d"));
    let request = PushRequest {
        have_ops: vec![],
        updates: vec![
            update("main", Some(id("a")), Some(id("b"))),
            update("side", Some(id("a")), Some(id("b"))),
        ],
    };
    let result = run_push(&mut repo, &request, id("op-1")).unwrap();
    assert_eq!(result.ref_results[0].status, RefStatus::Stale);
    assert_eq!(result.ref_results[1].status, RefStatus::Conflict);
    assert_eq!(result.status, PushStatus::Conflict);
}

#[test]
fn updates_are_judged_against_the_state_before_the_push() {
    let mut repo = repo_at_a();
    let request = PushRequest {
        have_ops: vec![id("a")],
        updates: vec![
            update("main", Some(id("a")), Some(id("b"))),
            update("main", Some(id("a")), Some(id("c"))),
        ],
    };
    let result = run_push(&mut repo, &request, id("op-1")).unwrap();
    assert_eq!(result.status, PushStatus::Accepted);
    assert_eq!(repo.resolve_reference("main"), Some(id("c")));
}

#[test]
fn push_recorded_twice_is_an_error() {
    let mut repo = repo_at_a();
    let request = PushRequest {
        have_ops: vec![id("a")],
        updates: vec![update("main", Some(id("a")), Some(id("b")))],
    };
    let r = run_push(&mut repo, &request, id("a"));
    assert_eq!(r.err(), Some(ProtocolError::OperationExists));
    assert_eq!(repo.resolve_reference("main"), Some(id("a")));
    assert_eq!(repo.operation_heads(), vec![id("a")]);
}

#[test]
fn successive_pushes_chain_operations() {
    let mut repo = repo_at_a();
    let first = PushRequest {
        have_ops: vec![id("a")],
        updates: vec![update("main", Some(id("a")), Some(id("b")))],
    };
    run_push(&mut repo, &first, id("op-1")).unwrap();
    let second = PushRequest {
        have_ops: vec![id("op-1")],
        updates: vec![update("main", Some(id("b")), Some(id("c")))],
    };
    let result = run_push(&mut repo, &second, id("op-2")).unwrap();
    assert_eq!(result.status, PushStatus::Accepted);
    assert_eq!(repo.operation_heads(), vec![id("op-2")]);
    assert!(repo.is_ancestor(&id("op-1"), &id("op-2")));
    assert!(repo.is_ancestor(&id("a"), &id("op-2")));
    assert_eq!(repo.resolve_reference("main"), Some(id("c")));
}

#[test]
fn findings_of_single_updates() {
    let repo = repo_advanced_to_c();
    assert_eq!(
        examine(&repo, &update("main", Some(id("c")), Some(id("b")))),
        Finding::Acceptable
    );
    assert_eq!(
        examine(&repo, &update("main", Some(id("c")), None)),
        Finding::Acceptable
    );
    assert_eq!(
        examine(&repo, &update("main", Some(id("a")), None)),
        Finding::Behind
    );
    assert_eq!(examine(&repo, &update("main", None, None)), Finding::Diverged);
    assert_eq!(
        examine(&repo, &update("other", Some(id("c")), Some(id("b")))),
        Finding::UnknownReference
    );
    assert_eq!(
        examine(&repo, &update("other", None, Some(id("b")))),
        Finding::Acceptable
    );
    let malformed = RefUpdate {
        ref_name: "other".to_string(),
        old_id: None,
        new_id: Some("zz".to_string()),
    };
    assert_eq!(examine(&repo, &malformed), Finding::MalformedId);
}

#[test]
fn findings_are_reported() {
    let name = "main".to_string();
    let r = Finding::Acceptable.report(&name);
    assert_eq!((r.ref_name.as_str(), r.status, r.message), ("main", RefStatus::Accepted, None));
    let r = Finding::Behind.report(&name);
    assert_eq!(r.status, RefStatus::Stale);
    let r = Finding::Diverged.report(&name);
    assert_eq!(r.status, RefStatus::Conflict);
    let r = Finding::UnknownReference.report(&name);
    assert_eq!(r.status, RefStatus::Rejected);
    let r = Finding::MalformedId.report(&name);
    assert_eq!(r.status, RefStatus::Rejected);
}

#[test]
fn optional_identifiers_are_read() {
    assert_eq!(read_optional_id(&None), Some(None));
    assert_eq!(read_optional_id(&Some(id("a").to_hex())), Some(Some(id("a"))));
    assert_eq!(
        read_optional_id(&Some(id("a").to_hex().to_uppercase())),
        Some(Some(id("a")))
    );
    assert_eq!(read_optional_id(&Some(String::new())), None);
    assert_eq!(read_optional_id(&Some("g".repeat(64))), None);
}

#[test]
fn server_asks_for_objects_it_does_not_know() {
    let repo = repo_advanced_to_c();
    let known = PushRequest { have_ops: vec![id("a"), id("c")], updates: vec![] };
    assert!(push_negotiation(&repo, &known).is_none());
    let none = PushRequest { have_ops: vec![], updates: vec![] };
    assert!(push_negotiation(&repo, &none).is_none());
    let unknown = PushRequest { have_ops: vec![id("a"), id("local")], updates: vec![] };
    let asked = push_negotiation(&repo, &unknown).unwrap();
    assert!(asked.need_objects);
    assert_eq!(asked.common_op, Some(id("a")));
    let foreign = PushRequest { have_ops: vec![id("local")], updates: vec![] };
    let asked = push_negotiation(&repo, &foreign).unwrap();
    assert!(asked.need_objects);
    assert_eq!(asked.common_op, None);
}

/// a <- b <- c <- d; main -> d, old -> b.
fn repo_with_line() -> RepoState {
    let mut repo = RepoState::new();
    repo.record(id("a"), &vec![]).unwrap();
    repo.record(id("b"), &vec![id("a")]).unwrap();
    repo.record(id("c"), &vec![id("b")]).unwrap();
    repo.record(id("d"), &vec![id("c")]).unwrap();
    assert!(repo.set_operation_heads(&vec![id("d")]));
    repo.set_reference("main", id("d"));
    repo.set_reference("old", id("b"));
    repo
}

#[test]
fn fetch_sends_what_the_client_lacks() {
    let repo = repo_with_line();
    let request = FetchRequest {
        have_ops: vec![id("b")],
        want_refs: vec!["main".to_string()],
        depth: None,
    };
    let response = run_fetch(&repo, &request);
    assert!(response.pack_follows);
    assert_eq!(response.ops_to_send, vec![id("c"), id("d")]);
    assert_eq!(response.commit_count, 2);
}

#[test]
fn fetch_with_nothing_to_send() {
    let repo = repo_with_line();
    let up_to_date = FetchRequest {
        have_ops: vec![id("d")],
        want_refs: vec!["main".to_string(), "old".to_string()],
        depth: None,
    };
    let response = run_fetch(&repo, &up_to_date);
    assert!(!response.pack_follows);
    assert_eq!(response.ops_to_send, vec![]);
    assert_eq!(response.commit_count, 0);

    let unknown = FetchRequest {
        have_ops: vec![],
        want_refs: vec!["missing".to_string()],
        depth: None,
    };
    let response = run_fetch(&repo, &unknown);
    assert!(!response.pack_follows);
    assert_eq!(response.commit_count, 0);

    let nothing = FetchRequest { have_ops: vec![], want_refs: vec![], depth: None };
    assert!(!run_fetch(&repo, &nothing).pack_follows);
}

#[test]
fn fetch_respects_the_depth() {
    let repo = repo_with_line();
    let shallow = |depth: u32| FetchRequest {
        have_ops: vec![],
        want_refs: vec!["main".to_string()],
        depth: Some(depth),
    };
    assert_eq!(run_fetch(&repo, &shallow(0)).ops_to_send, vec![]);
    assert_eq!(run_fetch(&repo, &shallow(1)).ops_to_send, vec![id("d")]);
    assert_eq!(run_fetch(&repo, &shallow(2)).ops_to_send, vec![id("c"), id("d")]);
    let response = run_fetch(&repo, &shallow(9));
    assert_eq!(
        response.ops_to_send,
        vec![id("a"), id("b"), id("c"), id("d")]
    );
    assert_eq!(response.commit_count, 4);
    let both = FetchRequest {
        have_ops: vec![id("a")],
        want_refs: vec!["old".to_string(), "missing".to_string(), "main".to_string()],
        depth: Some(1),
    };
    assert_eq!(run_fetch(&repo, &both).ops_to_send, vec![id("b"), id("d")]);
}

#[test]
fn repository_state_keeps_its_heads_recorded() {
    let mut repo = RepoState::new();
    assert!(!repo.set_operation_heads(&vec![id("a")]));
    assert_eq!(repo.operation_heads(), vec![]);
    assert_eq!(repo.record(id("a"), &vec![]), Ok(()));
    assert_eq!(repo.record(id("a"), &vec![]), Err(HistoryError::Duplicate));
    assert_eq!(
        repo.record(id("b"), &vec![id("z")]),
        Err(HistoryError::UnknownParent)
    );
    assert!(repo.set_operation_heads(&vec![id("a")]));
    assert!(!repo.set_operation_heads(&vec![id("a"), id("b")]));
    assert_eq!(repo.operation_heads(), vec![id("a")]);
    assert!(repo.knows_all(&vec![id("a")]));
    assert!(repo.knows_all(&vec![]));
    assert!(!repo.knows_all(&vec![id("a"), id("b")]));
    assert!(repo.advance(id("b")));
    assert!(!repo.advance(id("b")));
    assert_eq!(repo.operation_heads(), vec![id("b")]);
    assert_eq!(repo.common_ancestor(&vec![id("a")], &vec![id("b")]), Some(id("a")));
    assert_eq!(repo.missing(&vec![id("b")], &vec![id("a")], None), vec![id("b")]);
    repo.set_reference("main", id("b"));
    repo.remove_reference("main");
    assert_eq!(repo.resolve_reference("main"), None);
}

#[test]
fn operation_identifier_is_the_digest_of_heads_and_body() {
    let mut repo = RepoState::new();
    assert_eq!(repo.next_operation(b"push"), ObjectId::hash(b"push"));
    assert_eq!(repo.next_operation(b""), ObjectId::hash(b""));
    repo.record(id("a"), &vec![]).unwrap();
    repo.record(id("b"), &vec![]).unwrap();
    assert!(repo.set_operation_heads(&vec![id("b"), id("a")]));
    let mut content = Vec::new();
    content.extend_from_slice(id("b").as_bytes());
    content.extend_from_slice(id("a").as_bytes());
    content.extend_from_slice(b"push");
    assert_eq!(repo.next_operation(b"push"), ObjectId::hash(&content));
    assert_ne!(repo.next_operation(b"push"), repo.next_operation(b"pull"));
    let first = repo.next_operation(b"push");
    assert!(repo.advance(first));
    assert_ne!(repo.next_operation(b"push"), first);
}
