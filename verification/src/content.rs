//! The lines a crawl shows: the file's text, prepared, under its title.

use vstd::prelude::*;
use crate::crawl::{spec_row_text, MAX_W};
use crate::text::{process_lines, spec_process_lines, string_views, wrap_makes_progress};

verus! {

/// The terminal crawl's opening: a blank line, the title, a blank line.
pub open spec fn framed_title(title: Seq<char>) -> Seq<Seq<char>> {
    seq![Seq::empty(), title, Seq::empty()]
}

/// `lines` under a title framed by blank lines, as the terminal crawl shows it.
pub fn prepend_header(lines: Vec<String>, header: String) -> (out: Vec<String>)
    ensures
        string_views(out@) == framed_title(header@) + string_views(lines@),
{
    let mut lines = lines;
    let ghost body = string_views(lines@);
    lines.insert(0, String::new());
    lines.insert(0, header);
    lines.insert(0, String::new());
    assert(string_views(lines@) =~= framed_title(header@) + body);
    lines
}

/// The width the terminal crawl limits lines to: the one asked for, else
/// `MAX_W`.
pub open spec fn tui_width(width: Option<usize>) -> usize {
    match width {
        Some(w) => w,
        None => MAX_W,
    }
}

/// Whether the terminal crawl word-wraps: when asked to, and always when no
/// width is given (lines are then wrapped at `MAX_W`).
pub open spec fn tui_wraps(width: Option<usize>, wrap: bool) -> bool {
    wrap || width is None
}

/// The lines of the terminal crawl: `raw` limited to `tui_width(width)`
/// characters a line (word-wrapped as `tui_wraps` says, else cut), under the
/// framed header when there is one.
pub fn tui_crawl_lines(raw: &str, width: Option<usize>, wrap: bool, header: Option<String>) -> (out:
    Vec<String>)
    requires
        wrap_makes_progress(raw@, Some(tui_width(width)), tui_wraps(width, wrap)),
    ensures
        string_views(out@) == match header {
            Some(h) => framed_title(h@) + spec_process_lines(
                raw@,
                Some(tui_width(width)),
                tui_wraps(width, wrap),
            ),
            None => spec_process_lines(raw@, Some(tui_width(width)), tui_wraps(width, wrap)),
        },
{
    let (limit, wraps) = match width {
        Some(w) => (w, wrap),
        None => (MAX_W, true),
    };
    let lines = process_lines(raw, Some(limit), wraps);
    match header {
        Some(h) => prepend_header(lines, h),
        None => lines,
    }
}

/// The lines of the graphical crawl: `raw` prepared by `process_lines`, under
/// the title and one blank line when there is a title.
pub fn gui_crawl_lines(raw: &str, width: Option<usize>, wrap: bool, title: Option<String>) -> (out:
    Vec<String>)
    requires
        wrap_makes_progress(raw@, width, wrap),
    ensures
        string_views(out@) == match title {
            Some(t) => seq![t@, Seq::<char>::empty()] + spec_process_lines(raw@, width, wrap),
            None => spec_process_lines(raw@, width, wrap),
        },
{
    let lines = process_lines(raw, width, wrap);
    match title {
        Some(t) => {
            let ghost body = string_views(lines@);
            let ghost tv = t@;
            let mut headed: Vec<String> = vec![t, String::new()];
            let mut lines = lines;
            headed.append(&mut lines);
            assert(string_views(headed@) =~= seq![tv, Seq::<char>::empty()] + body);
            headed
        },
        None => lines,
    }
}

/// Law: on the terminal crawl the title stays centred when the body is
/// left-aligned: the row that shows the title (line 1 of the framed text)
/// shows it alike whether or not `left` is set.
pub proof fn law_title_stays_centred(
    w: nat,
    band: (nat, nat, nat),
    scroll_line: int,
    title: Seq<char>,
    body: Seq<Seq<char>>,
)
    requires
        band.1 < band.2,
        scroll_line - band.0 == 1,
    ensures
        ({
            let lines = framed_title(title) + body;
            &&& lines[1] == title
            &&& spec_row_text(w, band, scroll_line, lines, false, true) == spec_row_text(
                w,
                band,
                scroll_line,
                lines,
                false,
                false,
            )
        }),
{
}

} // verus!
