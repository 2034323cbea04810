use context_map::vue::extract_vue_scripts;
use context_map::walker::SourceKind;

fn found(source: &str) -> Vec<(String, usize, SourceKind)> {
    extract_vue_scripts(source)
        .into_iter()
        .map(|b| (b.content, b.line_offset, b.kind))
        .collect()
}

#[test]
fn finds_a_script_region_with_its_line_offset() {
    let source = "\n<template><div /></template>\n<script lang=\"ts\">\nexport const a = 1\n</script>\n";
    assert_eq!(
        found(source),
        vec![("\nexport const a = 1\n".to_string(), 2, SourceKind::Ts)]
    );
}

#[test]
fn file_without_script_has_no_region() {
    assert!(found("<template><div /></template>\n").is_empty());
    assert!(found("").is_empty());
}

#[test]
fn tag_that_names_another_file_is_skipped() {
    let source = "<script src=\"./a.ts\"></script>\n<script>let b</script>";
    assert_eq!(found(source), vec![("let b".to_string(), 1, SourceKind::Ts)]);
}

#[test]
fn lang_tsx_with_and_without_quotes_is_jsx() {
    assert_eq!(
        found("<script lang=\"tsx\">a</script>"),
        vec![("a".to_string(), 0, SourceKind::Tsx)]
    );
    assert_eq!(
        found("<script lang='tsx'>a</script>"),
        vec![("a".to_string(), 0, SourceKind::Tsx)]
    );
    assert_eq!(
        found("<script setup lang=tsx>a</script>"),
        vec![("a".to_string(), 0, SourceKind::Tsx)]
    );
    assert_eq!(
        found("<script lang=\"ts\">a</script>"),
        vec![("a".to_string(), 0, SourceKind::Ts)]
    );
    assert_eq!(
        found("<script lang=\"js\">a</script>"),
        vec![("a".to_string(), 0, SourceKind::Ts)]
    );
}

#[test]
fn tags_are_found_whatever_their_case() {
    assert_eq!(
        found("<SCRIPT LANG=\"TSX\">Ab</Script>"),
        vec![("Ab".to_string(), 0, SourceKind::Tsx)]
    );
}

#[test]
fn several_regions_are_found_in_order() {
    let source = "<script>one</script>\n\n<script setup lang=\"ts\">\ntwo\n</script>";
    assert_eq!(
        found(source),
        vec![
            ("one".to_string(), 0, SourceKind::Ts),
            ("\ntwo\n".to_string(), 2, SourceKind::Ts),
        ]
    );
}

#[test]
fn truncated_regions_end_the_search_without_error() {
    assert!(found("<script lang=\"ts\"").is_empty());
    assert!(found("<script>never closed").is_empty());
    assert_eq!(
        found("<script>a</script><script>b"),
        vec![("a".to_string(), 0, SourceKind::Ts)]
    );
}

#[test]
fn a_tag_inside_a_text_still_opens_a_region() {
    let source = "<p>\"<script>\"</p>\nx</script>";
    assert_eq!(found(source), vec![("\"</p>\nx".to_string(), 0, SourceKind::Ts)]);
}

#[test]
fn content_with_characters_of_several_bytes_is_cut_whole() {
    let source = "<!-- \u{e9}\u{4e2d} -->\n<script>const s = \"\u{1f600}\"</script>";
    assert_eq!(
        found(source),
        vec![("const s = \"\u{1f600}\"".to_string(), 1, SourceKind::Ts)]
    );
}
