use mainteno::sanitizer::{clean, strip_markdown_fences};
use mainteno::text::trim_string;

#[test]
fn clean_extracts_fenced_diff() {
    let raw = "```\n--- a/x\n+++ b/x\n@@ ...\n```";
    assert_eq!(clean(raw), "--- a/x\n+++ b/x\n@@ ...\n");
}

#[test]
fn clean_discards_commentary_around_diff() {
    let raw = "Here is the patch you asked for:\n```diff\ndiff --git a/f b/f\n--- a/f\n+++ b/f\n@@ -1 +1 @@\n-old\n+new\n```\nHope this helps!";
    assert_eq!(
        clean(raw),
        "diff --git a/f b/f\n--- a/f\n+++ b/f\n@@ -1 +1 @@\n-old\n+new\n"
    );
}

#[test]
fn clean_with_no_diff_marker_is_empty() {
    assert_eq!(clean("just some prose, no patch at all"), "");
    assert_eq!(clean(""), "");
    assert_eq!(clean("```\nnothing resembling a patch\n```"), "");
}

#[test]
fn clean_strips_terminal_escapes() {
    let raw = "\u{1b}[31m--- a/x\u{1b}[0m\n+++ b/x\n@@ -1 +1 @@\n-a\n+b";
    assert_eq!(clean(raw), "--- a/x\n+++ b/x\n@@ -1 +1 @@\n-a\n+b\n");
}

#[test]
fn clean_stops_at_first_trailing_fence() {
    let raw = "--- a/x\n+++ b/x\n```\ntrailing commentary\n--- not/part\n";
    assert_eq!(clean(raw), "--- a/x\n+++ b/x\n");
}

#[test]
fn strip_fences_removes_leading_and_trailing_fences() {
    let raw = "```diff\ncontent line\nsecond line\n```";
    assert_eq!(strip_markdown_fences(raw), "content line\nsecond line\n");
}

#[test]
fn strip_fences_keeps_plain_text_and_adds_newline() {
    assert_eq!(strip_markdown_fences("a commit message"), "a commit message\n");
}

#[test]
fn strip_fences_removes_control_characters() {
    let raw = "mes\u{7}sage\u{1b}[1m text";
    assert_eq!(strip_markdown_fences(raw), "message text\n");
}

#[test]
fn strip_fences_on_only_fences_yields_bare_newline() {
    assert_eq!(strip_markdown_fences("```\n```"), "\n");
}

#[test]
fn trim_matches_str_trim() {
    assert_eq!(trim_string("  spaced out \t\n"), "spaced out");
    assert_eq!(trim_string(""), "");
    assert_eq!(trim_string(" \u{a0} "), "");
    assert_eq!(trim_string("inner  space kept"), "inner  space kept");
}
