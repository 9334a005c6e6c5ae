use cdmkn::diff::diff;
use cdmkn::diff::split_lines;
use cdmkn::diff::Changeset;
use cdmkn::history::extract_snippets;
use cdmkn::history::get_file_text;
use cdmkn::history::get_snippets_count;
use cdmkn::history::reconstruct_current;
use cdmkn::history::reconstruct_previous;
use cdmkn::types::ChangeType;

#[test]
fn split_keeps_separators() {
    let lines = split_lines("a\nb\nc\n");
    let expected = vec!["a\n", "b\n", "c\n"];
    assert_eq!(lines.len(), expected.len());
    for (line, want) in lines.iter().zip(expected.iter()) {
        assert_eq!(line, want);
    }
}

#[test]
fn split_final_line_without_newline() {
    let lines = split_lines("a\nb");
    assert_eq!(lines, vec!["a\n".to_string(), "b".to_string()]);
    assert_eq!(split_lines("").len(), 0);
    assert_eq!(split_lines("x"), vec!["x".to_string()]);
}

#[test]
fn one_line_edit_gives_distance_two() {
    // Baseline "a\nb\nc\n" edited to "a\nx\nc\n": one removed line, one
    // added line, unchanged lines around them.
    let d = diff("a\nb\nc\n", "a\nx\nc\n");
    assert_eq!(d.len(), 4);
    assert!(matches!(d[0].type_, ChangeType::Same));
    assert_eq!(d[0].content, "a\n");
    assert!(matches!(d[1].type_, ChangeType::Remove));
    assert_eq!(d[1].content, "b\n");
    assert!(matches!(d[2].type_, ChangeType::Add));
    assert_eq!(d[2].content, "x\n");
    assert!(matches!(d[3].type_, ChangeType::Same));
    assert_eq!(d[3].content, "c\n");
    assert_eq!(get_snippets_count(&d), 2);

    let snippets = extract_snippets(&d);
    assert_eq!(snippets.len(), 2);
    assert_eq!(snippets[0].0, 0);
    assert!(matches!(snippets[0].1.type_, ChangeType::Remove));
    assert_eq!(snippets[0].1.content, "b\n");
    assert_eq!(snippets[1].0, 1);
    assert!(matches!(snippets[1].1.type_, ChangeType::Add));
    assert_eq!(snippets[1].1.content, "x\n");
}

#[test]
fn reconstruction_round_trip() {
    let cases = [
        ("a\nb\nc\n", "a\nx\nc\n"),
        ("", "hello\n"),
        ("hello\n", ""),
        ("", ""),
        ("one\ntwo\nthree", "one\ntwo\nthree\nfour"),
        ("x", "y"),
        ("shared\nhead\nold tail\n", "shared\nhead\nnew tail\nmore\n"),
        ("tab\tand \"quote\"\n", "tab\tand 'quote'\n"),
    ];
    for (old, new) in cases.iter() {
        let d = diff(old, new);
        assert_eq!(reconstruct_current(&d), *new);
        assert_eq!(reconstruct_previous(&d), *old);
        assert_eq!(get_file_text(&d), *new);
    }
}

#[test]
fn identical_inputs_have_distance_zero() {
    let d = diff("a\nb\nc\n", "a\nb\nc\n");
    assert_eq!(get_snippets_count(&d), 0);
    for e in d.iter() {
        assert!(matches!(e.type_, ChangeType::Same));
    }
    let cs = Changeset::new("same text\n", "same text\n");
    assert_eq!(cs.distance, 0);
}

#[test]
fn empty_sides_give_single_runs() {
    let d = diff("", "a\nb\n");
    assert_eq!(d.len(), 1);
    assert!(matches!(d[0].type_, ChangeType::Add));
    assert_eq!(d[0].content, "a\nb\n");

    let d = diff("a\nb\n", "");
    assert_eq!(d.len(), 1);
    assert!(matches!(d[0].type_, ChangeType::Remove));
    assert_eq!(d[0].content, "a\nb\n");

    let d = diff("", "");
    assert_eq!(d.len(), 0);
}

#[test]
fn changeset_distance_matches_snippet_count() {
    let cs = Changeset::new("a\nb\nc\n", "a\nx\nc\n");
    assert_eq!(cs.distance, 2);
    assert_eq!(cs.distance, get_snippets_count(&cs.diffs));
    let cs = Changeset::new("left\n", "right\n");
    assert!(cs.distance > 0);
}

#[test]
fn adjacent_runs_are_merged() {
    // Two removed lines in a row come back as one Remove run.
    let d = diff("a\nb\nc\nd\n", "a\nd\n");
    assert_eq!(d.len(), 3);
    assert!(matches!(d[0].type_, ChangeType::Same));
    assert_eq!(d[0].content, "a\n");
    assert!(matches!(d[1].type_, ChangeType::Remove));
    assert_eq!(d[1].content, "b\nc\n");
    assert!(matches!(d[2].type_, ChangeType::Same));
    assert_eq!(d[2].content, "d\n");
}
