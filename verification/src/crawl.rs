//! Geometry of the terminal crawl: the band that narrows towards the top of
//! the screen, and which line of text each row shows and where.

use vstd::prelude::*;
use crate::text::{chars_of, string_of_range, string_views};

verus! {

/// Widest line the terminal crawl shows, in characters.
pub const MAX_W: usize = 75;

/// Rows between each one-character narrowing of the band on each side.
pub const TAPER: usize = 1;

/// One row of the crawl band.
pub struct CrawlRow {
    /// How many rows above the bottom row of the band this row is.
    pub depth: usize,
    /// Column of the band's left edge (`/`).
    pub slash_col: usize,
    /// Column of the band's right edge (`\`).
    pub backslash_col: usize,
    /// The text drawn on this row, if any.
    pub text: Option<RowText>,
}

/// Text drawn on a row, starting at column `col`.
pub struct RowText {
    pub col: usize,
    pub text: String,
}

/// The first column of the full-width band, centred on a screen `w`
/// columns wide.
pub open spec fn spec_band_left(w: nat) -> nat {
    ((if w >= MAX_W + 2 { w - (MAX_W + 2) } else { 0int }) / 2) as nat
}

/// The band's edges on every row of a screen `w` by `h` fit in the band's
/// span: the narrowing never passes the right edge of the full-width band.
/// (On taller screens the column arithmetic would underflow.)
pub open spec fn band_fits(w: nat, h: nat) -> bool {
    h == 0 || ((h - 1) as nat) / (TAPER as nat) <= spec_band_left(w) + MAX_W + 1
}

/// Whether the band fits a screen `w` columns wide with `h` rows, as
/// `band_fits` states it.
pub fn band_fits_screen(w: usize, h: usize) -> (ok: bool)
    ensures
        ok == band_fits(w as nat, h as nat),
{
    h == 0 || (h - 1) / TAPER <= (w.saturating_sub(MAX_W + 2)) / 2 + MAX_W + 1
}

/// The band on screen row `r` of `h` rows, `w` columns wide: its depth and
/// the columns of its two edges, or `None` where the edges have met.
pub open spec fn spec_band(w: nat, h: nat, r: nat) -> Option<(nat, nat, nat)> {
    let depth = (h - 1 - r) as nat;
    let shrink = depth / (TAPER as nat);
    let slash = spec_band_left(w) + shrink;
    let backslash = (spec_band_left(w) + MAX_W + 1 - shrink) as nat;
    if slash >= backslash {
        None
    } else {
        Some((depth, slash, backslash))
    }
}

/// The text a row of the band shows: line `scroll_line - depth` of `lines`
/// when there is one, centred between the edges (the header, line 1, is
/// always centred; the rest only unless `left`), cut to the room left, and
/// only when it starts on screen and is not empty.
pub open spec fn spec_row_text(
    w: nat,
    band: (nat, nat, nat),
    scroll_line: int,
    lines: Seq<Seq<char>>,
    no_header: bool,
    left: bool,
) -> Option<(nat, Seq<char>)> {
    let (depth, slash, backslash) = band;
    let idx = scroll_line - depth;
    if idx < 0 || idx >= lines.len() {
        None
    } else {
        let chars = lines[idx];
        let inner = (backslash - slash - 1) as nat;
        let is_header = !no_header && idx == 1;
        let offset: nat = if is_header || !left {
            ((if inner >= chars.len() { inner - chars.len() } else { 0int }) / 2) as nat
        } else {
            0
        };
        let col = slash + 1 + offset;
        let room = (inner - offset) as nat;
        let shown = if chars.len() <= room { chars } else { chars.take(room as int) };
        if col < w && shown.len() > 0 {
            Some((col, shown))
        } else {
            None
        }
    }
}

/// The contents of a row's text.
pub open spec fn text_view(t: Option<RowText>) -> Option<(nat, Seq<char>)> {
    match t {
        Some(t) => Some((t.col as nat, t.text@)),
        None => None,
    }
}

/// `row` is what row `r` of the crawl shows.
pub open spec fn row_is(
    row: Option<CrawlRow>,
    w: nat,
    h: nat,
    r: nat,
    scroll_line: int,
    lines: Seq<Seq<char>>,
    no_header: bool,
    left: bool,
) -> bool {
    match (row, spec_band(w, h, r)) {
        (None, None) => true,
        (Some(row), Some(band)) => {
            &&& (row.depth as nat, row.slash_col as nat, row.backslash_col as nat) == band
            &&& text_view(row.text) == spec_row_text(w, band, scroll_line, lines, no_header, left)
        },
        _ => false,
    }
}

/// The crawl rows of a screen `w` columns wide with `h` rows above the
/// progress bar, when the bottom row shows line `scroll_line` of `lines`.
pub fn crawl_rows(
    w: usize,
    h: usize,
    scroll_line: i64,
    lines: &Vec<String>,
    no_header: bool,
    left: bool,
) -> (rows: Vec<Option<CrawlRow>>)
    requires
        w <= u16::MAX,
        h <= u16::MAX,
        h == 0 || scroll_line - (h - 1) >= i64::MIN,
        band_fits(w as nat, h as nat),
    ensures
        rows@.len() == h,
        forall|r: int|
            0 <= r < h ==> row_is(
                #[trigger] rows@[r],
                w as nat,
                h as nat,
                r as nat,
                scroll_line as int,
                string_views(lines@),
                no_header,
                left,
            ),
{
    let band_w = MAX_W + 2;
    let band_left = (w.saturating_sub(band_w)) / 2;
    let mut rows: Vec<Option<CrawlRow>> = Vec::new();
    let mut screen_row: usize = 0;
    while screen_row < h
        invariant
            w <= u16::MAX,
            h <= u16::MAX,
            h == 0 || scroll_line - (h - 1) >= i64::MIN,
            band_fits(w as nat, h as nat),
            band_w == MAX_W + 2,
            band_left == spec_band_left(w as nat),
            screen_row <= h,
            rows@.len() == screen_row,
            forall|r: int|
                0 <= r < screen_row ==> row_is(
                    #[trigger] rows@[r],
                    w as nat,
                    h as nat,
                    r as nat,
                    scroll_line as int,
                    string_views(lines@),
                    no_header,
                    left,
                ),
        decreases h - screen_row,
    {
        let depth_idx = h.saturating_sub(1 + screen_row);
        let shrink = depth_idx / TAPER;
        let slash_col = band_left + shrink;
        let backslash_col = band_left + band_w - 1 - shrink;
        if slash_col >= backslash_col {
            rows.push(None);
        } else {
            let inner_w = backslash_col - slash_col - 1;
            let line_idx = scroll_line - depth_idx as i64;
            let mut text: Option<RowText> = None;
            if line_idx >= 0 && (line_idx as u64) < (lines.len() as u64) {
                let chars = chars_of(lines[line_idx as usize].as_str());
                assert(chars@ == string_views(lines@)[line_idx as int]);
                let is_header = !no_header && line_idx == 1;
                let should_center = is_header || !left;
                let text_col = if should_center {
                    slash_col + 1 + (inner_w.saturating_sub(chars.len()) / 2)
                } else {
                    slash_col + 1
                };
                let room = inner_w.saturating_sub(text_col.saturating_sub(slash_col + 1));
                let n = if chars.len() <= room { chars.len() } else { room };
                let visible = string_of_range(&chars, 0, n);
                assert(chars@.subrange(0, chars@.len() as int) =~= chars@);
                assert(chars@.subrange(0, n as int) =~= chars@.take(n as int));
                if text_col < w && n > 0 {
                    text = Some(RowText { col: text_col, text: visible });
                }
            }
            rows.push(Some(CrawlRow { depth: depth_idx, slash_col, backslash_col, text }));
        }
        assert(row_is(
            rows@[screen_row as int],
            w as nat,
            h as nat,
            screen_row as nat,
            scroll_line as int,
            string_views(lines@),
            no_header,
            left,
        ));
        screen_row += 1;
    }
    rows
}

/// Law: text drawn on a row of the band lies strictly between the band's
/// edges, so it never covers the border.
pub proof fn law_row_text_inside_band(
    w: nat,
    band: (nat, nat, nat),
    scroll_line: int,
    lines: Seq<Seq<char>>,
    no_header: bool,
    left: bool,
)
    requires
        band.1 < band.2,
    ensures
        spec_row_text(w, band, scroll_line, lines, no_header, left) matches Some((col, shown)) ==> band.1
            < col && col + shown.len() <= band.2,
{
}

/// Law: the shape of the band: its bottom row spans 77 columns centred on the
/// screen, and each row up is one column narrower on each side.
pub proof fn law_band_shape(w: nat, h: nat, r: nat)
    requires
        r < h,
        band_fits(w, h),
        spec_band(w, h, r) is Some,
    ensures
        ({
            let (depth, slash, backslash) = spec_band(w, h, r).unwrap();
            let left = (if w >= 77 { w - 77 } else { 0int }) / 2;
            &&& depth == h - 1 - r
            &&& slash == left + depth
            &&& backslash == left + 76 - depth
        }),
{
}

/// Law: a row shows the beginning of its line: the whole line when it fits
/// between the edges, else as much of its start as reaches the right edge.
pub proof fn law_row_text_is_line_start(
    w: nat,
    band: (nat, nat, nat),
    scroll_line: int,
    lines: Seq<Seq<char>>,
    no_header: bool,
    left: bool,
)
    requires
        band.1 < band.2,
    ensures
        spec_row_text(w, band, scroll_line, lines, no_header, left) matches Some((col, shown)) ==> {
            let line = lines[scroll_line - band.0];
            &&& 0 <= scroll_line - band.0 < lines.len()
            &&& shown.len() > 0
            &&& shown.is_prefix_of(line)
            &&& shown == line || col + shown.len() == band.2
        },
{
}

/// Law: centred text has as much room on its left as on its right, give or
/// take one column; left-aligned text starts right after the left edge.
pub proof fn law_row_text_alignment(
    w: nat,
    band: (nat, nat, nat),
    scroll_line: int,
    lines: Seq<Seq<char>>,
    no_header: bool,
    left: bool,
)
    requires
        band.1 < band.2,
    ensures
        spec_row_text(w, band, scroll_line, lines, no_header, left) matches Some((col, shown)) ==> {
            let left_gap = col - (band.1 + 1);
            let right_gap = band.2 - (col + shown.len());
            let centred = (!no_header && scroll_line - band.0 == 1) || !left;
            &&& centred ==> left_gap <= right_gap <= left_gap + 1
            &&& !centred ==> left_gap == 0
        },
{
}

/// Law: the band narrows going up the screen: a row above a drawn row is
/// drawn too when it is below, and its edges are never further apart.
pub proof fn law_band_narrows_upward(w: nat, h: nat, r1: nat, r2: nat)
    requires
        r1 < r2 < h,
        band_fits(w, h),
        spec_band(w, h, r1) is Some,
    ensures
        spec_band(w, h, r2) is Some,
        spec_band(w, h, r2).unwrap().2 - spec_band(w, h, r2).unwrap().1 >= spec_band(
            w,
            h,
            r1,
        ).unwrap().2 - spec_band(w, h, r1).unwrap().1,
        spec_band(w, h, r2).unwrap().0 < spec_band(w, h, r1).unwrap().0,
{
    let d1 = (h - 1 - r1) as nat;
    let d2 = (h - 1 - r2) as nat;
    assert(d2 / (TAPER as nat) <= d1 / (TAPER as nat));
}

/// The middle `display_w` characters of `chars` (all of them when they fit).
pub open spec fn spec_center_clip(chars: Seq<char>, display_w: nat) -> Seq<char> {
    if chars.len() > display_w {
        let skip = (chars.len() - display_w) / 2;
        chars.subrange(skip, skip + display_w)
    } else {
        chars
    }
}

/// Where a row of `display_w` columns, centred on a screen `w` columns wide,
/// starts to show `shown` centred in it.
pub open spec fn spec_center_col(w: nat, display_w: nat, shown: nat) -> nat {
    ((if w >= display_w { w - display_w } else { 0int }) / 2 + (if display_w >= shown {
        display_w - shown
    } else {
        0int
    }) / 2) as nat
}

/// A line cut to its middle `display_w` characters, and the column where it
/// starts when centred in a row of that width, itself centred on a screen `w`
/// columns wide (the perspective crawl without a border).
pub fn center_clip(line: &String, display_w: usize, w: usize) -> (placed: (usize, String))
    ensures
        placed.1@ == spec_center_clip(line@, display_w as nat),
        placed.0 == spec_center_col(w as nat, display_w as nat, placed.1@.len()),
{
    let chars = chars_of(line.as_str());
    let clipped = if chars.len() > display_w {
        // Center-clip: trim equally from both sides
        let skip = (chars.len() - display_w) / 2;
        string_of_range(&chars, skip, skip + display_w)
    } else {
        let all = string_of_range(&chars, 0, chars.len());
        assert(chars@.subrange(0, chars@.len() as int) =~= chars@);
        all
    };
    let clipped_len = chars_of(clipped.as_str()).len();
    // Two-level centering:
    //   1. Center the perspective band in the terminal
    //   2. Center the actual text within that band
    let band_left = (w.saturating_sub(display_w)) / 2;
    let text_left = band_left + (display_w.saturating_sub(clipped_len)) / 2;
    (text_left, clipped)
}

} // verus!
