//! The terminal crawl's sequence of phases and what the keys do in each.

use vstd::prelude::*;

verus! {

/// How long the prologue text is shown, in milliseconds.
pub const PROLOGUE_MS: u64 = 4000;

/// How long the logo is shown, in milliseconds.
pub const LOGO_MS: u64 = 6000;

/// The phases a terminal crawl goes through, in this order.
#[derive(Debug, Clone, Copy, PartialEq, Eq, Structural)]
pub enum Phase {
    Prologue,
    Logo,
    Crawl,
    Done,
}

/// A key press, as far as the crawl tells keys apart.
#[derive(Debug, Clone, Copy, PartialEq, Eq, Structural)]
pub enum Key {
    Char(char),
    Esc,
    Up,
    Down,
    Other,
}

/// What a key press asks for.
#[derive(Debug, Clone, Copy, PartialEq, Eq, Structural)]
pub enum Command {
    Quit,
    TogglePause,
    SpeedUp,
    SpeedDown,
    Ignore,
}

/// The phase a crawl starts in.
pub fn start_phase(skip_intro: bool) -> (p: Phase)
    ensures
        p == (if skip_intro { Phase::Crawl } else { Phase::Prologue }),
{
    if skip_intro {
        Phase::Crawl
    } else {
        Phase::Prologue
    }
}

/// The command a key press gives: `q` and Escape quit in every phase; space
/// pauses or resumes, up and `=` speed up, down and `-` slow down, but only
/// while the text crawls; other keys do nothing.
pub open spec fn spec_command(phase: Phase, key: Key) -> Command {
    match key {
        Key::Char('q') | Key::Esc => Command::Quit,
        Key::Char(' ') => if phase == Phase::Crawl { Command::TogglePause } else { Command::Ignore },
        Key::Up | Key::Char('=') => if phase == Phase::Crawl { Command::SpeedUp } else { Command::Ignore },
        Key::Down | Key::Char('-') => if phase == Phase::Crawl { Command::SpeedDown } else { Command::Ignore },
        _ => Command::Ignore,
    }
}

/// The command a key press gives in `phase`.
pub fn key_command(phase: Phase, key: Key) -> (c: Command)
    ensures
        c == spec_command(phase, key),
{
    let crawling = match phase {
        Phase::Crawl => true,
        _ => false,
    };
    match key {
        Key::Char('q') | Key::Esc => Command::Quit,
        Key::Char(' ') => if crawling { Command::TogglePause } else { Command::Ignore },
        Key::Up | Key::Char('=') => if crawling { Command::SpeedUp } else { Command::Ignore },
        Key::Down | Key::Char('-') => if crawling { Command::SpeedDown } else { Command::Ignore },
        _ => Command::Ignore,
    }
}

/// The phase after a frame: the prologue gives way to the logo after
/// `PROLOGUE_MS`, the logo to the crawl after `LOGO_MS`, and the crawl ends
/// once the bottom row's line `scroll_line` is past the last line by a
/// screen's height. `None` means the crawl is over and the loop stops.
pub open spec fn spec_next_phase(
    phase: Phase,
    elapsed_ms: u64,
    scroll_line: usize,
    n_lines: usize,
    screen_h: u16,
) -> Option<Phase> {
    match phase {
        Phase::Prologue => Some(if elapsed_ms >= PROLOGUE_MS { Phase::Logo } else { Phase::Prologue }),
        Phase::Logo => Some(if elapsed_ms >= LOGO_MS { Phase::Crawl } else { Phase::Logo }),
        Phase::Crawl => Some(
            if scroll_line >= n_lines + screen_h { Phase::Done } else { Phase::Crawl },
        ),
        Phase::Done => None,
    }
}

/// The phase after a frame, as `spec_next_phase` states it. `elapsed_ms` is
/// the time spent in the current phase; `scroll_line` the whole number of
/// lines scrolled so far.
pub fn next_phase(
    phase: Phase,
    elapsed_ms: u64,
    scroll_line: usize,
    n_lines: usize,
    screen_h: u16,
) -> (next: Option<Phase>)
    ensures
        next == spec_next_phase(phase, elapsed_ms, scroll_line, n_lines, screen_h),
{
    match phase {
        Phase::Prologue => Some(if elapsed_ms >= PROLOGUE_MS { Phase::Logo } else { Phase::Prologue }),
        Phase::Logo => Some(if elapsed_ms >= LOGO_MS { Phase::Crawl } else { Phase::Logo }),
        Phase::Crawl => {
            let h = screen_h as usize;
            Some(if scroll_line >= h && scroll_line - h >= n_lines { Phase::Done } else { Phase::Crawl })
        },
        Phase::Done => None,
    }
}

/// Law: `q` and Escape quit in every phase.
pub proof fn law_quit_in_every_phase(phase: Phase)
    ensures
        spec_command(phase, Key::Char('q')) == Command::Quit,
        spec_command(phase, Key::Esc) == Command::Quit,
{
}

/// Law: before and after the crawl, keys other than `q` and Escape do nothing.
pub proof fn law_keys_act_only_while_crawling(phase: Phase, key: Key)
    requires
        phase != Phase::Crawl,
    ensures
        spec_command(phase, key) == Command::Quit || spec_command(phase, key) == Command::Ignore,
{
}

/// Law: each command comes from its own keys only: quitting from `q` or
/// Escape; pausing from space, speeding up from up or `=`, slowing down from
/// down or `-`, and these three only while the text crawls. Those keys give
/// those commands there.
pub proof fn law_commands_come_from_their_keys(phase: Phase, key: Key)
    ensures
        spec_command(phase, key) == Command::Quit <==> (key == Key::Char('q') || key == Key::Esc),
        spec_command(phase, key) == Command::TogglePause <==> (phase == Phase::Crawl && key
            == Key::Char(' ')),
        spec_command(phase, key) == Command::SpeedUp <==> (phase == Phase::Crawl && (key
            == Key::Up || key == Key::Char('='))),
        spec_command(phase, key) == Command::SpeedDown <==> (phase == Phase::Crawl && (key
            == Key::Down || key == Key::Char('-'))),
{
}

/// Law: the prologue shows for 4 seconds and the logo for 6.
pub proof fn law_phase_timings(elapsed_ms: u64, scroll_line: usize, n_lines: usize, screen_h: u16)
    ensures
        spec_next_phase(Phase::Prologue, elapsed_ms, scroll_line, n_lines, screen_h) == Some(
            if elapsed_ms >= 4000 { Phase::Logo } else { Phase::Prologue },
        ),
        spec_next_phase(Phase::Logo, elapsed_ms, scroll_line, n_lines, screen_h) == Some(
            if elapsed_ms >= 6000 { Phase::Crawl } else { Phase::Logo },
        ),
{
}

/// The phase that follows `phase`.
pub open spec fn successor(phase: Phase) -> Phase {
    match phase {
        Phase::Prologue => Phase::Logo,
        Phase::Logo => Phase::Crawl,
        _ => Phase::Done,
    }
}

/// Law: phases only move forward, one at a time: a frame keeps the phase or
/// moves to the next; only once the crawl is done does the loop stop.
pub proof fn law_phases_advance_in_order(
    phase: Phase,
    elapsed_ms: u64,
    scroll_line: usize,
    n_lines: usize,
    screen_h: u16,
)
    ensures
        spec_next_phase(phase, elapsed_ms, scroll_line, n_lines, screen_h) is None <==> phase
            == Phase::Done,
        spec_next_phase(phase, elapsed_ms, scroll_line, n_lines, screen_h) matches Some(p) ==> p
            == phase || p == successor(phase),
{
}

/// Law: the crawl ends only once every line has scrolled past a screen's height.
pub proof fn law_crawl_ends_after_text(scroll_line: usize, n_lines: usize, screen_h: u16)
    ensures
        spec_next_phase(Phase::Crawl, 0, scroll_line, n_lines, screen_h) == Some(Phase::Done)
            <==> scroll_line >= n_lines + screen_h,
{
}

} // verus!
