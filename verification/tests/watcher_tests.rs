use cdmkn::store::Store;
use cdmkn::types::CodemkinError;
use cdmkn::watcher::carry_forward;
use cdmkn::watcher::is_valid_file;
use cdmkn::watcher::observe_file;
use cdmkn::watcher::should_process;
use cdmkn::watcher::update_document;
use cdmkn::watcher::FileCache;
use cdmkn::watcher::FileDecision;
use cdmkn::watcher::SingletonMarker;
use cdmkn::watcher::TickEvent;
use cdmkn::watcher::TickOutcome;

#[test]
fn file_validity_honours_the_size_ceiling() {
    assert!(is_valid_file(true, 0));
    assert!(is_valid_file(true, 199_999));
    assert!(!is_valid_file(true, 200_000));
    assert!(!is_valid_file(true, 1_000_000));
    assert!(!is_valid_file(false, 10));
}

#[test]
fn first_sighting_establishes_baseline_without_a_change_row() {
    // An empty file gains its first content: history starts here, and no
    // change row records the appearance.
    let mut store = Store::new();
    let repo = store.add_repository("/repo").unwrap();
    let mut tick = TickEvent::new(repo);
    let old_cache = FileCache::new();
    let mut new_cache = FileCache::new();
    let outcome = observe_file(
        &mut store,
        &mut tick,
        &old_cache,
        &mut new_cache,
        "notes.txt",
        "/repo/notes.txt",
        "hello\n",
        1_000,
        1,
    )
    .unwrap();
    assert_eq!(outcome, TickOutcome::Baselined);
    assert_eq!(store.changes.len(), 0);
    assert_eq!(store.events.len(), 0);
    assert!(tick.event_id.is_none());
    assert_eq!(store.get_document_baseline(repo, "/repo/notes.txt").unwrap(), "hello\n");
    assert_eq!(new_cache.entries.len(), 1);
    assert_eq!(new_cache.entries[0].file.content, "hello\n");
    assert_eq!(new_cache.entries[0].file.accessed_time, 1_000);
}

#[test]
fn touch_without_edit_updates_only_the_cached_timestamp() {
    let mut store = Store::new();
    let repo = store.add_repository("/repo").unwrap();

    // Tick one: baseline.
    let mut tick = TickEvent::new(repo);
    let empty = FileCache::new();
    let mut cache = FileCache::new();
    observe_file(
        &mut store, &mut tick, &empty, &mut cache,
        "f", "/repo/f", "same\n", 1_000, 1,
    )
    .unwrap();

    // Tick two: the timestamp moved but the content did not.
    let mut tick2 = TickEvent::new(repo);
    let mut cache2 = FileCache::new();
    let decision = should_process(&cache, &cache2, "/repo/f", 2_000);
    assert_eq!(decision, FileDecision::Read);
    let outcome = observe_file(
        &mut store, &mut tick2, &cache, &mut cache2,
        "f", "/repo/f", "same\n", 2_000, 2,
    )
    .unwrap();
    assert_eq!(outcome, TickOutcome::Unchanged);
    assert_eq!(store.changes.len(), 0);
    assert_eq!(store.events.len(), 0);
    assert_eq!(cache2.entries[0].file.accessed_time, 2_000);
    assert_eq!(cache2.entries[0].file.content, "same\n");
}

#[test]
fn unchanged_timestamp_is_skipped_and_carried_forward() {
    let mut store = Store::new();
    let repo = store.add_repository("/repo").unwrap();
    let mut tick = TickEvent::new(repo);
    let empty = FileCache::new();
    let mut cache = FileCache::new();
    observe_file(
        &mut store, &mut tick, &empty, &mut cache,
        "f", "/repo/f", "text\n", 1_000, 1,
    )
    .unwrap();

    let mut cache2 = FileCache::new();
    assert_eq!(should_process(&cache, &cache2, "/repo/f", 1_000), FileDecision::Skip);
    carry_forward(&cache, &mut cache2, "/repo/f");
    assert_eq!(cache2.entries.len(), 1);
    assert_eq!(cache2.entries[0].file.content, "text\n");
    assert_eq!(cache2.entries[0].file.accessed_time, 1_000);

    // Already visited this tick: a second enumeration of the same path.
    assert_eq!(should_process(&cache, &cache2, "/repo/f", 1_000), FileDecision::Visited);
}

#[test]
fn an_edit_appends_one_change_row_that_reconstructs_both_sides() {
    let mut store = Store::new();
    let repo = store.add_repository("/repo").unwrap();
    let mut tick = TickEvent::new(repo);
    let empty = FileCache::new();
    let mut cache = FileCache::new();
    observe_file(
        &mut store, &mut tick, &empty, &mut cache,
        "f", "/repo/f", "a\nb\nc\n", 1_000, 1,
    )
    .unwrap();

    let mut tick2 = TickEvent::new(repo);
    let mut cache2 = FileCache::new();
    let outcome = observe_file(
        &mut store, &mut tick2, &cache, &mut cache2,
        "f", "/repo/f", "a\nx\nc\n", 2_000, 2,
    )
    .unwrap();
    assert_eq!(outcome, TickOutcome::Diffed);
    assert_eq!(store.changes.len(), 1);
    assert_eq!(store.events.len(), 1);
    assert_eq!(tick2.event_id, Some(store.changes[0].event_id));
    let row = &store.changes[0];
    assert_eq!(cdmkn::history::reconstruct_current(&row.elements), "a\nx\nc\n");
    assert_eq!(cdmkn::history::reconstruct_previous(&row.elements), "a\nb\nc\n");
    assert_eq!(store.get_document_baseline(repo, "/repo/f").unwrap(), "a\nx\nc\n");
    assert_eq!(cache2.entries[0].file.content, "a\nx\nc\n");
    assert_eq!(store.repositories[repo - 1].current_event, tick2.event_id);
}

#[test]
fn two_documents_in_one_tick_share_one_event() {
    let mut store = Store::new();
    let repo = store.add_repository("/repo").unwrap();

    // Baseline both documents in the first tick.
    let mut tick = TickEvent::new(repo);
    let empty = FileCache::new();
    let mut cache = FileCache::new();
    observe_file(&mut store, &mut tick, &empty, &mut cache, "a", "/repo/a", "1\n", 10, 1)
        .unwrap();
    observe_file(&mut store, &mut tick, &empty, &mut cache, "b", "/repo/b", "2\n", 10, 1)
        .unwrap();
    assert_eq!(store.events.len(), 0);

    // Both change in the second tick: one event, two change rows.
    let mut tick2 = TickEvent::new(repo);
    let mut cache2 = FileCache::new();
    observe_file(&mut store, &mut tick2, &cache, &mut cache2, "a", "/repo/a", "1!\n", 20, 2)
        .unwrap();
    observe_file(&mut store, &mut tick2, &cache, &mut cache2, "b", "/repo/b", "2!\n", 20, 2)
        .unwrap();
    assert_eq!(store.events.len(), 1);
    assert_eq!(store.changes.len(), 2);
    let event = tick2.event_id.unwrap();
    assert_eq!(store.changes[0].event_id, event);
    assert_eq!(store.changes[1].event_id, event);
    assert_ne!(store.changes[0].document_id, store.changes[1].document_id);
}

#[test]
fn update_document_skips_noop_diffs() {
    let mut store = Store::new();
    let repo = store.add_repository("/repo").unwrap();
    let event = store.add_event(repo, None).unwrap();
    let wrote = update_document(
        &mut store, repo, event, "f", "/repo/f", "same\n", "same\n", 5,
    )
    .unwrap();
    assert!(!wrote);
    assert_eq!(store.changes.len(), 0);
    // The document itself was still registered.
    assert_eq!(store.documents.len(), 1);

    let wrote = update_document(
        &mut store, repo, event, "f", "/repo/f", "same\n", "other\n", 6,
    )
    .unwrap();
    assert!(wrote);
    assert_eq!(store.changes.len(), 1);
}

#[test]
fn second_start_is_refused_and_leaves_the_marker() {
    let mut marker = SingletonMarker::new(Some(42));
    let r = marker.start(99);
    assert!(matches!(r, Err(CodemkinError::CdmknAlreadyRunning { pid: 42 })));
    assert_eq!(marker.pid, Some(42));
    assert_eq!(marker.read_pid(), Some(42));
}

#[test]
fn start_on_a_clean_marker_records_the_pid() {
    let mut marker = SingletonMarker::new(None);
    assert_eq!(marker.start(77).unwrap(), 77);
    assert_eq!(marker.pid, Some(77));
    assert!(marker.should_continue());
}

#[test]
fn stop_mid_tick_lets_the_tick_finish_then_ends_the_loop() {
    let mut store = Store::new();
    let repo = store.add_repository("/repo").unwrap();
    let mut marker = SingletonMarker::new(None);
    marker.start(7).unwrap();

    // Baseline tick.
    let mut tick = TickEvent::new(repo);
    let empty = FileCache::new();
    let mut cache = FileCache::new();
    observe_file(&mut store, &mut tick, &empty, &mut cache, "f", "/repo/f", "v1\n", 1, 1)
        .unwrap();

    // The next tick begins while the marker still exists.
    assert!(marker.should_continue());
    let mut tick2 = TickEvent::new(repo);
    let mut cache2 = FileCache::new();

    // `stop` arrives mid-tick; the tick still finishes its work.
    assert!(marker.stop());
    let outcome = observe_file(
        &mut store, &mut tick2, &cache, &mut cache2, "f", "/repo/f", "v2\n", 2, 2,
    )
    .unwrap();
    assert_eq!(outcome, TickOutcome::Diffed);
    assert_eq!(store.changes.len(), 1);

    // At the next tick-start check the marker is gone: the loop exits and
    // nothing further is written.
    assert!(!marker.should_continue());
    assert_eq!(marker.pid, None);
    // A later `stop` finds nothing to remove.
    assert!(!marker.stop());
}
