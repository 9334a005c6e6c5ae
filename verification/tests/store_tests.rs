use cdmkn::diff::diff;
use cdmkn::store::Store;
use cdmkn::types::ChangeElement;
use cdmkn::types::ChangeType;
use cdmkn::types::CodemkinError;
use cdmkn::types::RepoStatus;
use cdmkn::watcher::update_document;

fn one_add(content: &str) -> Vec<ChangeElement> {
    vec![ChangeElement { type_: ChangeType::Add, content: content.to_string() }]
}

#[test]
fn add_repository_is_idempotent_by_path() {
    let mut store = Store::new();
    let a = store.add_repository("/home/user/project").unwrap();
    let b = store.add_repository("/home/user/project").unwrap();
    assert_eq!(a, b);
    assert_eq!(store.repositories.len(), 1);
    assert_eq!(store.repositories[0].absolute_path, "/home/user/project");
    assert!(matches!(store.repositories[0].status, RepoStatus::Active));
    assert!(store.repositories[0].current_event.is_none());

    let c = store.add_repository("/home/user/other").unwrap();
    assert_ne!(a, c);
    assert_eq!(store.repositories.len(), 2);
}

#[test]
fn empty_repository_path_is_invalid_input() {
    let mut store = Store::new();
    let r = store.add_repository("");
    assert!(matches!(r, Err(CodemkinError::InvalidInput)));
    assert_eq!(store.repositories.len(), 0);
}

#[test]
fn upsert_document_is_idempotent_by_canonical_path() {
    let mut store = Store::new();
    let repo = store.add_repository("/repo").unwrap();
    let a = store.upsert_document(repo, "src/main.rs", "/repo/src/main.rs", "fn main() {}\n").unwrap();
    let b = store.upsert_document(repo, "src/main.rs", "/repo/src/main.rs", "different\n").unwrap();
    assert_eq!(a, b);
    assert_eq!(store.documents.len(), 1);
    // The stored baseline is the first observed content.
    assert_eq!(store.documents[0].content, "fn main() {}\n");
    assert_eq!(
        store.get_document_baseline(repo, "/repo/src/main.rs").unwrap(),
        "fn main() {}\n"
    );
}

#[test]
fn upsert_document_unknown_repository_is_invalid_input() {
    let mut store = Store::new();
    let r = store.upsert_document(7, "a", "/a", "");
    assert!(matches!(r, Err(CodemkinError::InvalidInput)));
}

#[test]
fn add_event_chains_and_updates_current_pointer() {
    let mut store = Store::new();
    let repo = store.add_repository("/repo").unwrap();
    let e1 = store.add_event(repo, None).unwrap();
    assert_eq!(store.repositories[repo - 1].current_event, Some(e1));
    let e2 = store.add_event(repo, Some(e1)).unwrap();
    assert_eq!(store.repositories[repo - 1].current_event, Some(e2));
    assert_eq!(store.events[e2 - 1].parent_event, Some(e1));
    assert_eq!(store.events[e1 - 1].parent_event, None);
}

#[test]
fn add_event_with_stale_parent_is_rejected() {
    let mut store = Store::new();
    let repo = store.add_repository("/repo").unwrap();
    let e1 = store.add_event(repo, None).unwrap();
    // The repository's pointer moved to e1; a pass that still believes
    // there is no parent is stale.
    let r = store.add_event(repo, None);
    assert!(matches!(r, Err(CodemkinError::InvalidInput)));
    assert_eq!(store.events.len(), 1);
    assert_eq!(store.repositories[repo - 1].current_event, Some(e1));
}

#[test]
fn append_change_with_unknown_ids_is_storage_error() {
    let mut store = Store::new();
    let repo = store.add_repository("/repo").unwrap();
    let doc = store.upsert_document(repo, "f", "/repo/f", "").unwrap();
    let event = store.add_event(repo, None).unwrap();
    assert!(matches!(
        store.append_change(doc + 7, event, one_add("x\n"), 1),
        Err(CodemkinError::StorageError)
    ));
    assert!(matches!(
        store.append_change(doc, event + 7, one_add("x\n"), 1),
        Err(CodemkinError::StorageError)
    ));
    assert_eq!(store.changes.len(), 0);
}

#[test]
fn append_change_advances_the_document_baseline() {
    let mut store = Store::new();
    let repo = store.add_repository("/repo").unwrap();
    let doc = store.upsert_document(repo, "f", "/repo/f", "").unwrap();
    let event = store.add_event(repo, None).unwrap();
    store.append_change(doc, event, one_add("hello\n"), 10).unwrap();
    assert_eq!(store.get_document_baseline(repo, "/repo/f").unwrap(), "hello\n");
}

#[test]
fn latest_changes_of_unknown_document_is_empty() {
    let store = Store::new();
    let rows = store.latest_changes(1, 100);
    assert_eq!(rows.len(), 0);
}

#[test]
fn latest_changes_is_most_recent_first_and_bounded() {
    let mut store = Store::new();
    let repo = store.add_repository("/repo").unwrap();
    let doc = store.upsert_document(repo, "f", "/repo/f", "").unwrap();
    let event = store.add_event(repo, None).unwrap();
    store.append_change(doc, event, one_add("one\n"), 10).unwrap();
    store.append_change(doc, event, one_add("two\n"), 20).unwrap();
    store.append_change(doc, event, one_add("three\n"), 30).unwrap();

    let rows = store.latest_changes(doc, 100);
    assert_eq!(rows.len(), 3);
    assert_eq!(rows[0].created_at, 30);
    assert_eq!(rows[1].created_at, 20);
    assert_eq!(rows[2].created_at, 10);
    for pair in rows.windows(2) {
        assert!(pair[0].created_at >= pair[1].created_at);
    }

    let rows = store.latest_changes(doc, 2);
    assert_eq!(rows.len(), 2);
    assert_eq!(rows[0].created_at, 30);
    assert_eq!(rows[1].created_at, 20);

    let rows = store.latest_changes(doc, 0);
    assert_eq!(rows.len(), 0);
}

#[test]
fn created_at_never_decreases_even_when_the_clock_does() {
    let mut store = Store::new();
    let repo = store.add_repository("/repo").unwrap();
    let doc = store.upsert_document(repo, "f", "/repo/f", "").unwrap();
    let event = store.add_event(repo, None).unwrap();
    store.append_change(doc, event, one_add("a\n"), 100).unwrap();
    // The wall clock jumped backwards; the log's order must not.
    store.append_change(doc, event, one_add("b\n"), 50).unwrap();
    assert_eq!(store.changes[0].created_at, 100);
    assert_eq!(store.changes[1].created_at, 100);
    let rows = store.latest_changes(doc, 10);
    assert!(rows[0].created_at >= rows[1].created_at);
}

#[test]
fn changes_after_filters_by_timestamp() {
    let mut store = Store::new();
    let repo = store.add_repository("/repo").unwrap();
    let doc = store.upsert_document(repo, "f", "/repo/f", "").unwrap();
    let other = store.upsert_document(repo, "g", "/repo/g", "").unwrap();
    let event = store.add_event(repo, None).unwrap();
    store.append_change(doc, event, one_add("a\n"), 10).unwrap();
    store.append_change(other, event, one_add("x\n"), 15).unwrap();
    store.append_change(doc, event, one_add("b\n"), 20).unwrap();
    store.append_change(doc, event, one_add("c\n"), 30).unwrap();

    let all = store.changes_after(doc, None);
    assert_eq!(all.len(), 3);
    assert_eq!(all[0].created_at, 10);
    assert_eq!(all[2].created_at, 30);

    let newer = store.changes_after(doc, Some(10));
    assert_eq!(newer.len(), 2);
    assert_eq!(newer[0].created_at, 20);
    assert_eq!(newer[1].created_at, 30);

    let none = store.changes_after(doc, Some(30));
    assert_eq!(none.len(), 0);
}

#[test]
fn get_document_degrades_to_none() {
    let mut store = Store::new();
    let repo = store.add_repository("/repo").unwrap();
    assert!(store.get_document(repo, "/repo/missing").is_none());
    assert!(store.get_document_baseline(repo, "/repo/missing").is_none());
    let diffs = diff("", "x\n");
    assert_eq!(diffs.len(), 1);
}

#[test]
fn repo_status_codes() {
    assert_eq!(RepoStatus::Inactive.code(), 0);
    assert_eq!(RepoStatus::Starting.code(), 1);
    assert_eq!(RepoStatus::Active.code(), 2);
}

#[test]
fn event_chain_from_current_pointer_reaches_only_existing_events() {
    let mut store = Store::new();
    let repo = store.add_repository("/repo").unwrap();
    let e1 = store.add_event(repo, None).unwrap();
    let e2 = store.add_event(repo, Some(e1)).unwrap();
    let e3 = store.add_event(repo, Some(e2)).unwrap();
    assert_eq!(store.repositories[repo - 1].current_event, Some(e3));

    // Walk the parent chain from the repository's current event: every
    // link names an existing, strictly earlier event, and the walk ends.
    let mut cursor = store.repositories[repo - 1].current_event;
    let mut visited = 0;
    while let Some(id) = cursor {
        assert!(1 <= id && id <= store.events.len());
        let event = &store.events[id - 1];
        assert_eq!(event.id, id);
        if let Some(parent) = event.parent_event {
            assert!(parent < id);
        }
        cursor = event.parent_event;
        visited += 1;
    }
    assert_eq!(visited, 3);
}

#[test]
fn check_wf_accepts_grown_stores_and_rejects_tampered_ones() {
    let mut store = Store::new();
    assert!(store.check_wf());
    let repo = store.add_repository("/repo").unwrap();
    let doc = store.upsert_document(repo, "f", "/repo/f", "").unwrap();
    let event = store.add_event(repo, None).unwrap();
    store.append_change(doc, event, one_add("hello\n"), 10).unwrap();
    assert!(store.check_wf());

    // A change row naming a missing document breaks the invariants.
    let mut broken = Store::new();
    let repo = broken.add_repository("/repo").unwrap();
    let doc = broken.upsert_document(repo, "f", "/repo/f", "").unwrap();
    let event = broken.add_event(repo, None).unwrap();
    broken.append_change(doc, event, one_add("hello\n"), 10).unwrap();
    broken.changes[0].document_id = 99;
    assert!(!broken.check_wf());

    // A baseline that drifted from the latest change breaks them too.
    let mut drifted = Store::new();
    let repo = drifted.add_repository("/repo").unwrap();
    let doc = drifted.upsert_document(repo, "f", "/repo/f", "").unwrap();
    let event = drifted.add_event(repo, None).unwrap();
    drifted.append_change(doc, event, one_add("hello\n"), 10).unwrap();
    drifted.documents[0].content = "something else".to_string();
    assert!(!drifted.check_wf());

    // Timestamps that go backwards along the log break the ordering.
    let mut unordered = Store::new();
    let repo = unordered.add_repository("/repo").unwrap();
    let doc = unordered.upsert_document(repo, "f", "/repo/f", "").unwrap();
    let event = unordered.add_event(repo, None).unwrap();
    unordered.append_change(doc, event, one_add("a\n"), 10).unwrap();
    unordered.append_change(doc, event, one_add("b\n"), 20).unwrap();
    unordered.changes[1].created_at = 5;
    assert!(!unordered.check_wf());
}

#[test]
fn update_document_surfaces_unknown_event_and_repository() {
    let mut store = Store::new();
    let repo = store.add_repository("/repo").unwrap();
    let r = update_document(&mut store, repo, 7, "f", "/repo/f", "a\n", "b\n", 1);
    assert!(matches!(r, Err(CodemkinError::StorageError)));
    assert_eq!(store.documents.len(), 0);
    assert_eq!(store.changes.len(), 0);

    let event = store.add_event(repo, None).unwrap();
    let r = update_document(&mut store, repo + 9, event, "f", "/repo/f", "a\n", "b\n", 1);
    assert!(matches!(r, Err(CodemkinError::InvalidInput)));
    assert_eq!(store.documents.len(), 0);
}
