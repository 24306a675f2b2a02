use swcat::content::{gui_crawl_lines, prepend_header, tui_crawl_lines};
use swcat::session::{key_command, next_phase, start_phase, Command, Key, Phase, LOGO_MS, PROLOGUE_MS};

#[test]
fn start_phase_skips_intro() {
    assert_eq!(start_phase(true), Phase::Crawl);
    assert_eq!(start_phase(false), Phase::Prologue);
}

#[test]
fn quit_keys_work_everywhere() {
    for p in [Phase::Prologue, Phase::Logo, Phase::Crawl, Phase::Done] {
        assert_eq!(key_command(p, Key::Char('q')), Command::Quit);
        assert_eq!(key_command(p, Key::Esc), Command::Quit);
    }
}

#[test]
fn crawl_keys_only_while_crawling() {
    assert_eq!(key_command(Phase::Crawl, Key::Char(' ')), Command::TogglePause);
    assert_eq!(key_command(Phase::Crawl, Key::Up), Command::SpeedUp);
    assert_eq!(key_command(Phase::Crawl, Key::Char('=')), Command::SpeedUp);
    assert_eq!(key_command(Phase::Crawl, Key::Down), Command::SpeedDown);
    assert_eq!(key_command(Phase::Crawl, Key::Char('-')), Command::SpeedDown);
    assert_eq!(key_command(Phase::Crawl, Key::Char('x')), Command::Ignore);
    assert_eq!(key_command(Phase::Crawl, Key::Other), Command::Ignore);
    for p in [Phase::Prologue, Phase::Logo] {
        assert_eq!(key_command(p, Key::Char(' ')), Command::Ignore);
        assert_eq!(key_command(p, Key::Up), Command::Ignore);
        assert_eq!(key_command(p, Key::Down), Command::Ignore);
    }
}

#[test]
fn phases_advance_on_time_and_scroll() {
    assert_eq!(next_phase(Phase::Prologue, PROLOGUE_MS - 1, 0, 0, 0), Some(Phase::Prologue));
    assert_eq!(next_phase(Phase::Prologue, PROLOGUE_MS, 0, 0, 0), Some(Phase::Logo));
    assert_eq!(next_phase(Phase::Logo, LOGO_MS - 1, 0, 0, 0), Some(Phase::Logo));
    assert_eq!(next_phase(Phase::Logo, LOGO_MS, 0, 0, 0), Some(Phase::Crawl));
    assert_eq!(next_phase(Phase::Crawl, 0, 33, 10, 24), Some(Phase::Crawl));
    assert_eq!(next_phase(Phase::Crawl, 0, 34, 10, 24), Some(Phase::Done));
    assert_eq!(next_phase(Phase::Crawl, 0, 5, 10, 24), Some(Phase::Crawl));
    assert_eq!(next_phase(Phase::Done, 0, 0, 0, 0), None);
}

#[test]
fn tui_lines_are_wrapped_under_a_framed_header() {
    let out = tui_crawl_lines("one two three", Some(8), true, Some("NOTES.TXT".to_string()));
    assert_eq!(out, vec!["", "NOTES.TXT", "", "one two", "three"]);
    let plain = tui_crawl_lines("x", None, false, None);
    assert_eq!(plain, vec!["x"]);
    let long = "word ".repeat(30);
    for line in tui_crawl_lines(&long, None, true, None) {
        assert!(line.len() <= 75);
    }
}

#[test]
fn tui_lines_are_cut_without_wrap() {
    assert_eq!(tui_crawl_lines("hello world", Some(5), false, None), vec!["hello"]);
    assert_eq!(tui_crawl_lines("hello world", Some(5), true, None), vec!["hello", "world"]);
    let long = "x".repeat(100);
    assert_eq!(tui_crawl_lines(&long, Some(75), false, None), vec!["x".repeat(75)]);
}

#[test]
fn tui_lines_wrap_at_default_width_without_a_width() {
    let long = "x".repeat(100);
    assert_eq!(tui_crawl_lines(&long, None, false, None), vec!["x".repeat(75), "x".repeat(25)]);
    let words = "word ".repeat(30);
    let out = tui_crawl_lines(&words, None, false, None);
    assert_eq!(out, tui_crawl_lines(&words, None, true, None));
    assert!(out.len() > 1 && out.iter().all(|l| l.len() <= 75));
}

#[test]
fn gui_lines_have_title_and_blank() {
    let out = gui_crawl_lines("a\tb", None, false, Some("A.RS".to_string()));
    assert_eq!(out, vec!["A.RS", "", "a   b"]);
    assert_eq!(gui_crawl_lines("abcdef", Some(3), false, None), vec!["abc"]);
}

#[test]
fn header_framing() {
    let out = prepend_header(vec!["x".to_string()], "T".to_string());
    assert_eq!(out, vec!["", "T", "", "x"]);
}
