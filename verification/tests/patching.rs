use misfit_engine::patch::{apply_replacements, locate_block, patch_file, PatchError};

fn chars(s: &str) -> Vec<char> {
    s.chars().collect()
}

const TEMPLATE: &str = "head\n/* BEGIN */old stuff/* END */\ntail /* END */";

#[test]
fn patch_keeps_markers() {
    let out = patch_file(TEMPLATE, "/* BEGIN */", "/* END */", "NEW", false).unwrap();
    assert_eq!(out, "head\n/* BEGIN */NEW/* END */\ntail /* END */");
}

#[test]
fn patch_strips_markers() {
    let out = patch_file(TEMPLATE, "/* BEGIN */", "/* END */", "NEW", true).unwrap();
    assert_eq!(out, "head\nNEW\ntail /* END */");
}

#[test]
fn patch_start_marker_missing() {
    let err = patch_file("no markers here /* END */", "/* BEGIN */", "/* END */", "x", false)
        .unwrap_err();
    assert_eq!(err, PatchError::StartMarkerNotFound);
    assert_eq!(err.message(), "Start marker not found");
}

#[test]
fn patch_end_marker_missing_after_start() {
    let err = patch_file("/* END */ then /* BEGIN */ only", "/* BEGIN */", "/* END */", "x", true)
        .unwrap_err();
    assert_eq!(err, PatchError::EndMarkerNotFound);
    assert_eq!(err.message(), "End marker not found");
}

#[test]
fn patch_end_marker_is_searched_after_the_start_marker() {
    let out = patch_file("E..S..E..E", "S", "E", "x", false).unwrap();
    assert_eq!(out, "E..SxE..E");
    let out = patch_file("abab", "ab", "ab", "-", false).unwrap();
    assert_eq!(out, "ab-ab");
    let err = patch_file("aba", "ab", "ab", "-", false).unwrap_err();
    assert_eq!(err, PatchError::EndMarkerNotFound);
}

#[test]
fn patch_with_same_marker_twice() {
    let out = patch_file("a|b|c", "|", "|", "X", false).unwrap();
    assert_eq!(out, "a|X|c");
    let out = patch_file("a|b|c", "|", "|", "X", true).unwrap();
    assert_eq!(out, "aXc");
}

#[test]
fn patch_with_empty_markers() {
    assert_eq!(patch_file("abc", "", "", "X", false).unwrap(), "Xabc");
    assert_eq!(patch_file("abc", "b", "", "X", false).unwrap(), "abXc");
    assert_eq!(patch_file("", "", "", "X", true).unwrap(), "X");
}

#[test]
fn patch_leaves_text_outside_the_block_alone() {
    let text = "äöü <<a>> héllo <<b>> ✓✓";
    let out = patch_file(text, "<<a>>", "<<b>>", "日本", false).unwrap();
    assert_eq!(out, "äöü <<a>>日本<<b>> ✓✓");
    let out = patch_file(text, "<<a>>", "<<b>>", "", true).unwrap();
    assert_eq!(out, "äöü  ✓✓");
}

#[test]
fn locate_gives_both_indices() {
    let found = locate_block(&chars("xxSyyEzz"), &chars("S"), &chars("E")).unwrap();
    assert_eq!(found, (2, 5));
    assert_eq!(
        locate_block(&chars("xx"), &chars("S"), &chars("E")).unwrap_err(),
        PatchError::StartMarkerNotFound
    );
}

#[test]
fn patch_round_trip_finds_inserted_content() {
    let start = "<!-- s -->";
    let end = "<!-- e -->";
    for content in ["", "one line", "multi\nline\n", "<!-- s -->again", "ü✓"] {
        let patched = patch_file("A<!-- s -->old<!-- e -->B", start, end, content, false).unwrap();
        let text = chars(&patched);
        let (s, e) = locate_block(&text, &chars(start), &chars(end)).unwrap();
        let between: String = text[s + start.chars().count()..e].iter().collect();
        assert_eq!(between, content);
    }
}

#[test]
fn patch_round_trip_fails_when_content_holds_the_end_marker() {
    let patched = patch_file("A[[x]]B", "[[", "]]", "a]]b", false).unwrap();
    assert_eq!(patched, "A[[a]]b]]B");
    let text = chars(&patched);
    let (s, e) = locate_block(&text, &chars("[["), &chars("]]")).unwrap();
    let between: String = text[s + 2..e].iter().collect();
    assert_eq!(between, "a");
}

#[test]
fn patch_twice_with_markers_kept_replaces_the_first_content() {
    let once = patch_file("A[[x]]B", "[[", "]]", "one", false).unwrap();
    let twice = patch_file(&once, "[[", "]]", "two", false).unwrap();
    assert_eq!(twice, "A[[two]]B");
}

#[test]
fn replacements_are_made_in_turn() {
    let reps = vec![
        ("{{NAME}}".to_string(), "app".to_string()),
        ("{{DIR}}".to_string(), "/opt/{{NAME}}".to_string()),
        ("app".to_string(), "APP".to_string()),
    ];
    assert_eq!(
        apply_replacements("{{NAME}} in {{DIR}}", &reps),
        "APP in /opt/{{NAME}}"
    );
    assert_eq!(apply_replacements("same", &vec![]), "same");
}
