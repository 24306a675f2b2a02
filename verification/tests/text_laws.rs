use swcat::text::{ascii_safe, expand_tabs, process_lines, TAB_WIDTH};

fn printable(s: &str) -> bool {
    s.chars().all(|c| ('\x20'..='\x7e').contains(&c))
}

fn non_spaces(lines: &[String]) -> String {
    lines.concat().chars().filter(|&c| c != ' ').collect()
}

#[test]
fn tab_after_full_stop_inserts_a_whole_stop() {
    assert_eq!(expand_tabs("abcd\te"), "abcd    e");
    assert_eq!(expand_tabs("abc\td"), "abc d");
}

#[test]
fn tab_moves_to_next_multiple_of_tab_width() {
    for prefix in ["", "a", "ab", "abc", "abcd", "abcde"] {
        let s = format!("{prefix}\t");
        let out = expand_tabs(&s);
        assert_eq!(out.len() % TAB_WIDTH, 0);
        assert!(out.len() > prefix.len() && out.len() <= prefix.len() + TAB_WIDTH);
    }
}

#[test]
fn expand_tabs_is_idempotent() {
    let once = expand_tabs("x\ty\u{2014}z\u{2026}\t\u{1F31F}");
    assert_eq!(expand_tabs(&once), once);
}

#[test]
fn expand_tabs_output_is_printable() {
    let out = expand_tabs("\u{1}\u{7f}\t\u{2500}\u{2588}\u{2192}\u{2191}\u{21d2}\u{2022}\u{201c}\u{00c7}\u{00f1}\u{00fc}\u{4e16}");
    assert!(printable(&out));
}

#[test]
fn ascii_table_mappings() {
    assert_eq!(expand_tabs("\u{2502}\u{2588}"), "-#");
    assert_eq!(expand_tabs("\u{2190}\u{2192}\u{2191}\u{2193}\u{21d2}"), "--||>");
    assert_eq!(expand_tabs("\u{2022}\u{2023}\u{25e6}\u{2013}\u{2014}\u{2026}"), "***--.");
    assert_eq!(expand_tabs("\u{2018}\u{2019}\u{201c}\u{201d}"), "''\"\"");
    assert_eq!(expand_tabs("\u{00c0}\u{00e5}\u{00c8}\u{00eb}\u{00cc}\u{00ef}"), "AaEeIi");
    assert_eq!(expand_tabs("\u{00d2}\u{00f6}\u{00d9}\u{00fc}\u{00c7}\u{00e7}\u{00d1}\u{00f1}"), "OoUuCcNn");
    assert_eq!(expand_tabs("\u{00d7}\u{00f7}\u{4e16}\r"), "????");
    assert_eq!(expand_tabs(""), "");
}

#[test]
fn uppercase_accents_keep_their_case() {
    assert_eq!(expand_tabs("\u{00c9}t\u{00c9}"), "EtE");
    assert_eq!(expand_tabs("\u{00c5}\u{00cb}\u{00ce}\u{00d6}\u{00dc}\u{00c7}\u{00d1}"), "AEIOUCN");
}

#[test]
fn ascii_safe_keeps_printable_and_is_idempotent() {
    for c in ['a', 'Z', ' ', '~', '\u{00c9}', '\u{2500}', '\u{1F31F}', '\t', '\u{7f}'] {
        let once = ascii_safe(c);
        assert!(('\x20'..='\x7e').contains(&once));
        assert_eq!(ascii_safe(once), once);
        if ('\x20'..='\x7e').contains(&c) {
            assert_eq!(once, c);
        }
    }
    assert_eq!(ascii_safe('\u{00e9}'), 'e');
    assert_eq!(ascii_safe('\u{00c9}'), 'E');
}

#[test]
fn lines_follow_str_lines() {
    assert_eq!(process_lines("a\r\nb\r\n", None, false), vec!["a", "b"]);
    assert_eq!(process_lines("a\n\nb\n", None, false), vec!["a", "", "b"]);
    assert_eq!(process_lines("", None, false), Vec::<String>::new());
    assert_eq!(process_lines("\n", None, false), vec![""]);
    assert_eq!(process_lines("x\r", None, false), vec!["x?"]);
    assert_eq!(process_lines("a\rb\nc", None, false), vec!["a?b", "c"]);
}

#[test]
fn width_is_respected() {
    let raw = "The quick brown fox jumps over the lazy dog\n\tand then\tsome more words follow here\nx";
    for w in 1..20 {
        for wrap in [false, true] {
            for line in process_lines(raw, Some(w), wrap) {
                assert!(line.chars().count() <= w, "{line:?} longer than {w}");
                assert!(printable(&line));
            }
        }
    }
}

#[test]
fn truncation_keeps_one_line_per_line() {
    let raw = "short\na much longer line here\n\nend";
    let out = process_lines(raw, Some(6), false);
    assert_eq!(out, vec!["short", "a much", "", "end"]);
}

#[test]
fn wrapping_keeps_all_text() {
    let raw = "word   another  third fourth-longer-word a b c";
    for w in 1..15 {
        let out = process_lines(raw, Some(w), true);
        assert_eq!(non_spaces(&out), non_spaces(&[raw.to_string()]));
    }
}

#[test]
fn wrapped_continuations_start_with_text() {
    let out = process_lines("aa    bb    cc", Some(3), true);
    assert_eq!(out, vec!["aa", "bb", "cc"]);
    for line in &out[1..] {
        assert!(!line.starts_with(' '));
    }
}

#[test]
fn wrapping_keeps_trailing_spaces_when_only_spaces_follow() {
    assert_eq!(process_lines("ab      ", Some(3), true), vec!["ab", "  ", "  "]);
}

#[test]
fn width_zero_truncates_to_empty_lines() {
    assert_eq!(process_lines("abc\n\nd", Some(0), false), vec!["", "", ""]);
}

#[test]
fn width_zero_wraps_blank_lines() {
    assert_eq!(process_lines("   ", Some(0), true), vec!["", "", ""]);
    assert_eq!(process_lines("\t", Some(0), true), vec!["", "", "", ""]);
}

#[test]
fn leading_space_break_is_ignored() {
    // The only space in the window is its first character: cut hard instead.
    assert_eq!(process_lines(" abcdef", Some(4), true), vec![" abc", "def"]);
}
