use forjj::history::{contains_id, History, HistoryError};
use forjj::object_id::ObjectId;

fn id(name: &str) -> ObjectId {
    ObjectId::hash(name.as_bytes())
}

/// a <- b <- d, a <- c <- d, and e on its own.
fn diamond() -> History {
    let mut history = History::new();
    assert_eq!(history.append(id("a"), &vec![]), Ok(0));
    assert_eq!(history.append(id("b"), &vec![id("a")]), Ok(1));
    assert_eq!(history.append(id("c"), &vec![id("a")]), Ok(2));
    assert_eq!(history.append(id("d"), &vec![id("b"), id("c")]), Ok(3));
    assert_eq!(history.append(id("e"), &vec![]), Ok(4));
    history
}

#[test]
fn append_records_in_order() {
    let history = diamond();
    assert_eq!(history.len(), 5);
    assert_eq!(history.position(&id("a")), Some(0));
    assert_eq!(history.position(&id("d")), Some(3));
    assert_eq!(history.position(&id("z")), None);
    assert!(history.contains(&id("e")));
    assert!(!history.contains(&id("z")));
    assert_eq!(history.id_at(2), id("c"));
}

#[test]
fn append_refuses_duplicates_and_unknown_parents() {
    let mut history = diamond();
    assert_eq!(history.append(id("a"), &vec![]), Err(HistoryError::Duplicate));
    assert_eq!(
        history.append(id("b"), &vec![id("z")]),
        Err(HistoryError::Duplicate)
    );
    assert_eq!(
        history.append(id("f"), &vec![id("a"), id("z")]),
        Err(HistoryError::UnknownParent)
    );
    assert_eq!(
        history.append(id("f"), &vec![id("f")]),
        Err(HistoryError::UnknownParent)
    );
    assert_eq!(history.len(), 5);
    assert!(!history.contains(&id("f")));
}

#[test]
fn ancestry_follows_parent_links() {
    let history = diamond();
    assert!(history.is_ancestor(&id("a"), &id("d")));
    assert!(history.is_ancestor(&id("b"), &id("d")));
    assert!(history.is_ancestor(&id("c"), &id("d")));
    assert!(history.is_ancestor(&id("a"), &id("b")));
    assert!(history.is_ancestor(&id("d"), &id("d")));
    assert!(!history.is_ancestor(&id("d"), &id("a")));
    assert!(!history.is_ancestor(&id("b"), &id("c")));
    assert!(!history.is_ancestor(&id("e"), &id("d")));
    assert!(!history.is_ancestor(&id("a"), &id("e")));
}

#[test]
fn unknown_identifiers_have_no_ancestry() {
    let history = diamond();
    assert!(!history.is_ancestor(&id("z"), &id("d")));
    assert!(!history.is_ancestor(&id("a"), &id("z")));
    assert!(!history.is_ancestor(&id("z"), &id("z")));
    assert!(!history.reaches_id(&vec![], &id("a")));
    assert!(history.reaches_id(&vec![id("z"), id("b")], &id("a")));
}

#[test]
fn common_ancestor_is_the_most_recent() {
    let history = diamond();
    assert_eq!(
        history.common_ancestor(&vec![id("b")], &vec![id("c")]),
        Some(id("a"))
    );
    assert_eq!(
        history.common_ancestor(&vec![id("d")], &vec![id("c")]),
        Some(id("c"))
    );
    assert_eq!(
        history.common_ancestor(&vec![id("d")], &vec![id("d")]),
        Some(id("d"))
    );
    assert_eq!(
        history.common_ancestor(&vec![id("b"), id("e")], &vec![id("e"), id("c")]),
        Some(id("e"))
    );
    assert_eq!(
        history.common_ancestor(&vec![id("b"), id("c")], &vec![id("d")]),
        Some(id("c"))
    );
}

#[test]
fn common_ancestor_may_be_absent() {
    let history = diamond();
    assert_eq!(history.common_ancestor(&vec![id("d")], &vec![id("e")]), None);
    assert_eq!(history.common_ancestor(&vec![], &vec![id("d")]), None);
    assert_eq!(history.common_ancestor(&vec![id("d")], &vec![]), None);
    assert_eq!(history.common_ancestor(&vec![], &vec![]), None);
    assert_eq!(history.common_ancestor(&vec![id("z")], &vec![id("d")]), None);
    assert_eq!(
        History::new().common_ancestor(&vec![id("a")], &vec![id("a")]),
        None
    );
}

#[test]
fn missing_is_the_difference_of_the_closures() {
    let history = diamond();
    assert_eq!(
        history.missing(&vec![id("d")], &vec![], None),
        vec![id("a"), id("b"), id("c"), id("d")]
    );
    assert_eq!(
        history.missing(&vec![id("d")], &vec![id("b")], None),
        vec![id("c"), id("d")]
    );
    assert_eq!(
        history.missing(&vec![id("d")], &vec![id("a")], None),
        vec![id("b"), id("c"), id("d")]
    );
    assert_eq!(history.missing(&vec![id("d")], &vec![id("d")], None), vec![]);
    assert_eq!(
        history.missing(&vec![id("b"), id("e")], &vec![id("c")], None),
        vec![id("b"), id("e")]
    );
    assert_eq!(history.missing(&vec![], &vec![], None), vec![]);
    assert_eq!(history.missing(&vec![id("z")], &vec![], None), vec![]);
    assert_eq!(
        history.missing(&vec![id("c")], &vec![id("z")], None),
        vec![id("a"), id("c")]
    );
}

#[test]
fn missing_is_bounded_by_depth() {
    let history = diamond();
    assert_eq!(history.missing(&vec![id("d")], &vec![], Some(0)), vec![]);
    assert_eq!(history.missing(&vec![id("d")], &vec![], Some(1)), vec![id("d")]);
    assert_eq!(
        history.missing(&vec![id("d")], &vec![], Some(2)),
        vec![id("b"), id("c"), id("d")]
    );
    assert_eq!(
        history.missing(&vec![id("d")], &vec![], Some(3)),
        vec![id("a"), id("b"), id("c"), id("d")]
    );
    assert_eq!(
        history.missing(&vec![id("d")], &vec![], Some(u32::MAX)),
        vec![id("a"), id("b"), id("c"), id("d")]
    );
    assert_eq!(
        history.missing(&vec![id("d")], &vec![id("c")], Some(2)),
        vec![id("b"), id("d")]
    );
}

#[test]
fn depth_counts_the_shortest_way() {
    // a <- b <- c, and d with parents c and a: a is two generations from d.
    let mut history = History::new();
    history.append(id("a"), &vec![]).unwrap();
    history.append(id("b"), &vec![id("a")]).unwrap();
    history.append(id("c"), &vec![id("b")]).unwrap();
    history.append(id("d"), &vec![id("c"), id("a")]).unwrap();
    assert_eq!(
        history.missing(&vec![id("d")], &vec![], Some(2)),
        vec![id("a"), id("c"), id("d")]
    );
    assert_eq!(
        history.missing(&vec![id("d")], &vec![], Some(3)),
        vec![id("a"), id("b"), id("c"), id("d")]
    );
}

#[test]
fn contains_id_finds_members() {
    let ids = vec![id("a"), id("b")];
    assert!(contains_id(&ids, &id("a")));
    assert!(contains_id(&ids, &id("b")));
    assert!(!contains_id(&ids, &id("c")));
    assert!(!contains_id(&vec![], &id("a")));
}
