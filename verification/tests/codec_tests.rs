use cdmkn::codec::parse_elements;
use cdmkn::codec::serialize_elements;
use cdmkn::diff::diff;
use cdmkn::history::file_state_from_row;
use cdmkn::history::find_snippet;
use cdmkn::history::render_as_unified;
use cdmkn::store::Store;
use cdmkn::types::ChangeElement;
use cdmkn::types::ChangeType;
use cdmkn::types::CodemkinError;
use cdmkn::uploader::build_change_requests;
use cdmkn::uploader::get_api_url;
use cdmkn::uploader::pending_change_requests;

fn elem(t: ChangeType, content: &str) -> ChangeElement {
    ChangeElement { type_: t, content: content.to_string() }
}

#[test]
fn serialized_form_is_the_expected_json() {
    let elements = vec![elem(ChangeType::Same, "a\n"), elem(ChangeType::Add, "x\n")];
    let row = serialize_elements(&elements);
    assert_eq!(
        row,
        "[{\"type\":\"same\",\"content\":\"a\\n\"},{\"type\":\"add\",\"content\":\"x\\n\"}]"
    );
    assert_eq!(serialize_elements(&Vec::new()), "[]");
}

#[test]
fn escaping_covers_quotes_backslashes_and_controls() {
    let elements = vec![elem(ChangeType::Remove, "say \"hi\"\\\n\ttab\rret")];
    let row = serialize_elements(&elements);
    assert_eq!(
        row,
        "[{\"type\":\"remove\",\"content\":\"say \\\"hi\\\"\\\\\\n\\ttab\\rret\"}]"
    );
    let back = parse_elements(&row).unwrap();
    assert_eq!(back, elements);
}

#[test]
fn parse_round_trips_serialized_rows() {
    let cases = vec![
        Vec::new(),
        vec![elem(ChangeType::Same, "plain\n")],
        vec![
            elem(ChangeType::Same, "a\n"),
            elem(ChangeType::Remove, "b\n"),
            elem(ChangeType::Add, "x\n"),
            elem(ChangeType::Same, "c\n"),
        ],
        vec![elem(ChangeType::Add, "")],
        vec![elem(ChangeType::Add, "unicode: héllo ✓\n")],
    ];
    for elements in cases {
        let row = serialize_elements(&elements);
        let back = parse_elements(&row).unwrap();
        assert_eq!(back, elements);
    }
}

#[test]
fn diffs_survive_storage_and_reconstruction() {
    let d = diff("a\nb\nc\n", "a\nx\nc\n");
    let row = serialize_elements(&d);
    let back = parse_elements(&row).unwrap();
    assert_eq!(cdmkn::history::reconstruct_current(&back), "a\nx\nc\n");
    assert_eq!(cdmkn::history::reconstruct_previous(&back), "a\nb\nc\n");
}

#[test]
fn malformed_rows_are_corrupt_history() {
    let bad = [
        "",
        "[",
        "]",
        "{}",
        "[{\"type\":\"same\",\"content\":\"a\"}",
        "[{\"type\":\"same\",\"content\":\"a\"}]x",
        "[{\"type\":\"other\",\"content\":\"a\"}]",
        "[{\"type\":\"same\",\"content\":\"a\\q\"}]",
        "[{\"type\":\"same\",\"content\":\"a\n\"}]",
        "[{\"type\":\"same\",\"content\":\"a\"},]",
        "[{\"type\":\"same\",\"content\":\"a\"} ]",
        "[ {\"type\":\"same\",\"content\":\"a\"}]",
    ];
    for row in bad.iter() {
        let r = parse_elements(row);
        assert!(matches!(r, Err(CodemkinError::CorruptHistory)), "accepted: {}", row);
    }
}

#[test]
fn file_state_counts_snippets_of_a_stored_row() {
    let d = diff("a\nb\nc\n", "a\nx\nc\n");
    let row = serialize_elements(&d);
    let fs = file_state_from_row(&row).unwrap();
    assert_eq!(fs.snippet_count, 2);
    assert_eq!(fs.elements, d);
    assert!(matches!(
        file_state_from_row("not json"),
        Err(CodemkinError::CorruptHistory)
    ));
}

#[test]
fn snippets_are_addressable_for_copying() {
    let d = diff("a\nb\nc\n", "a\nx\nc\n");
    assert_eq!(find_snippet(&d, 0).unwrap(), "b\n");
    assert_eq!(find_snippet(&d, 1).unwrap(), "x\n");
    assert!(find_snippet(&d, 2).is_none());

    let rows = render_as_unified(&d);
    assert_eq!(rows.len(), d.len());
    assert_eq!(rows[1].1, "b\n");
    assert!(matches!(rows[1].0, ChangeType::Remove));
}

#[test]
fn pending_uploads_carry_serialized_elements() {
    let mut store = Store::new();
    let repo = store.add_repository("/repo").unwrap();
    let doc = store.upsert_document(repo, "f", "/repo/f", "").unwrap();
    let event = store.add_event(repo, None).unwrap();
    let d1 = diff("", "v1\n");
    let d2 = diff("v1\n", "v2\n");
    store.append_change(doc, event, d1.clone(), 10).unwrap();
    store.append_change(doc, event, d2.clone(), 20).unwrap();

    let all = pending_change_requests(&store, doc, "remote-123", None);
    assert_eq!(all.len(), 2);
    assert_eq!(all[0].document_id, "remote-123");
    assert_eq!(all[0].created_at, 10);
    assert_eq!(all[0].elements, serialize_elements(&d1));
    assert_eq!(all[1].elements, serialize_elements(&d2));

    let newer = pending_change_requests(&store, doc, "remote-123", Some(10));
    assert_eq!(newer.len(), 1);
    assert_eq!(newer[0].created_at, 20);

    let reqs = build_change_requests(&store.latest_changes(doc, 1), "remote-123");
    assert_eq!(reqs.len(), 1);
    assert_eq!(reqs[0].created_at, 20);
}

#[test]
fn api_url_is_fixed() {
    assert_eq!(get_api_url(), "https://api.getsesh.io");
}
