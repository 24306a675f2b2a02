use swcat::text::{expand_tabs, process_lines};

// ── expand_tabs ───────────────────────────────────────────────────────────

#[test]
fn tab_at_start_of_line() {
    assert_eq!(expand_tabs("\thello"), "    hello");
}

#[test]
fn tab_aligns_to_next_stop() {
    // "ab" is 2 chars wide; next tab stop at col 4 → 2 spaces inserted
    assert_eq!(expand_tabs("ab\tcd"), "ab  cd");
}

#[test]
fn consecutive_tabs() {
    assert_eq!(expand_tabs("\t\t"), "        ");
}

#[test]
fn no_tabs_unchanged() {
    assert_eq!(expand_tabs("hello world"), "hello world");
}

#[test]
fn box_drawing_chars_become_dashes() {
    // U+2500 (BOX DRAWINGS LIGHT HORIZONTAL) and U+2502 (VERTICAL)
    assert_eq!(expand_tabs("\u{2500}\u{2500}\u{2500}"), "---");
}

#[test]
fn extended_latin_stripped_to_base() {
    assert_eq!(expand_tabs("caf\u{00e9}"), "cafe");
}

// ── process_lines: passthrough ────────────────────────────────────────────

#[test]
fn no_width_expands_tabs_and_returns_all_lines() {
    let out = process_lines("a\tb\nc", None, false);
    assert_eq!(out, vec!["a   b", "c"]);
}

#[test]
fn short_lines_pass_through_unchanged() {
    let out = process_lines("hi\nbye", Some(10), false);
    assert_eq!(out, vec!["hi", "bye"]);
}

// ── process_lines: truncation ─────────────────────────────────────────────

#[test]
fn truncate_ascii() {
    let out = process_lines("hello world", Some(5), false);
    assert_eq!(out, vec!["hello"]);
}

#[test]
fn truncate_is_unicode_safe() {
    // "café" is 4 chars (not 5 bytes); truncating at 3 must not panic
    let out = process_lines("café extra", Some(3), false);
    assert_eq!(out, vec!["caf"]);
}

#[test]
fn truncate_emoji_safe() {
    // Emoji fall outside ASCII and are replaced with '?'; truncation still works
    let out = process_lines("🌟🌟🌟🌟🌟", Some(3), false);
    assert_eq!(out, vec!["???"]);
}

// ── process_lines: word-wrap ──────────────────────────────────────────────

#[test]
fn wrap_breaks_at_last_space_in_window() {
    // width=12 fits "hello world" exactly; space at index 11 is the break point
    let out = process_lines("hello world foo", Some(12), true);
    assert_eq!(out, vec!["hello world", "foo"]);
}

#[test]
fn wrap_strips_leading_spaces_on_continuation() {
    // "hello" (5) fits in width=6; space is skipped on next segment
    let out = process_lines("hello world", Some(6), true);
    assert_eq!(out, vec!["hello", "world"]);
}

#[test]
fn wrap_hard_breaks_when_no_space() {
    let out = process_lines("abcdefghij", Some(4), true);
    assert_eq!(out, vec!["abcd", "efgh", "ij"]);
}

#[test]
fn wrap_is_unicode_safe() {
    // 'e' with accent is sanitized to 'e'; wrapping still works correctly
    let out = process_lines("café latte", Some(5), true);
    assert_eq!(out, vec!["cafe", "latte"]);
}

#[test]
fn wrap_handles_multiline_input() {
    let out = process_lines("one two\nthree four five", Some(9), true);
    assert_eq!(out, vec!["one two", "three", "four five"]);
}
