//! Placement of the prologue text and the logo on the terminal.

use vstd::prelude::*;
use crate::text::{spec_lines, split_lines, string_views, chars_of};

verus! {

/// A rectangle of terminal cells: its top-left corner and its size.
#[derive(Debug, Clone, Copy, PartialEq, Eq, Structural)]
pub struct Rect {
    pub x: u16,
    pub y: u16,
    pub width: u16,
    pub height: u16,
}

/// The right and bottom edges of `r` fit in the `u16` coordinate space.
pub open spec fn edges_fit(r: Rect) -> bool {
    r.x + r.width <= u16::MAX && r.y + r.height <= u16::MAX
}

/// `r` lies inside `area`.
pub open spec fn inside(r: Rect, area: Rect) -> bool {
    &&& area.x <= r.x
    &&& r.x + r.width <= area.x + area.width
    &&& area.y <= r.y
    &&& r.y + r.height <= area.y + area.height
}

pub open spec fn min_u16(a: u16, b: u16) -> u16 {
    if a <= b { a } else { b }
}

impl Rect {
    /// The rectangle at (`x`, `y`) of the given size, its width and height
    /// clamped so that its right and bottom edges do not pass `u16::MAX`.
    pub open spec fn spec_new(x: u16, y: u16, width: u16, height: u16) -> Rect {
        Rect {
            x,
            y,
            width: min_u16(width, (u16::MAX - x) as u16),
            height: min_u16(height, (u16::MAX - y) as u16),
        }
    }

    /// A rectangle at (`x`, `y`); the size is clamped as `spec_new` says.
    pub fn new(x: u16, y: u16, width: u16, height: u16) -> (r: Rect)
        ensures
            r == Rect::spec_new(x, y, width, height),
            edges_fit(r),
    {
        let max_width = u16::MAX - x;
        let max_height = u16::MAX - y;
        let width = if width > max_width { max_width } else { width };
        let height = if height > max_height { max_height } else { height };
        Rect { x, y, width, height }
    }
}

/// A sub-rectangle of `area`, `width_pct` percent of its width (at least one
/// cell, at most the whole width) and `height` rows high, centred in it.
pub fn centered_sub(area: Rect, width_pct: u16, height: u16) -> (r: Rect)
    requires
        area.width * width_pct <= u16::MAX,
        ({
            let pct_w = (area.width * width_pct / 100) as u16;
            let w = min_u16(if pct_w >= 1 { pct_w } else { 1 }, area.width);
            area.x + (area.width - w) / 2 <= u16::MAX
        }),
        area.y + (if area.height >= height { area.height - height } else { 0 }) / 2 <= u16::MAX,
    ensures
        ({
            let pct_w = (area.width * width_pct / 100) as u16;
            let w = min_u16(if pct_w >= 1 { pct_w } else { 1 }, area.width);
            r == Rect::spec_new(
                (area.x + (area.width - w) / 2) as u16,
                (area.y + (if area.height >= height { area.height - height } else { 0 }) / 2) as u16,
                w,
                min_u16(height, area.height),
            )
        }),
        inside(r, area),
        edges_fit(area) ==> centred_in(r, area) && r.height == min_u16(height, area.height)
            && (1 <= r.width || area.width == 0),
{
    let w = (area.width * width_pct / 100).max(1).min(area.width);
    let x = area.x + (area.width.saturating_sub(w)) / 2;
    let y = area.y + area.height.saturating_sub(height) / 2;
    Rect::new(x, y, w, height.min(area.height))
}

/// `r` sits in the middle of `area`: as much room on its left as on its
/// right, and above as below, give or take one cell.
pub open spec fn centred_in(r: Rect, area: Rect) -> bool {
    let left = r.x - area.x;
    let right = (area.x + area.width) - (r.x + r.width);
    let top = r.y - area.y;
    let bottom = (area.y + area.height) - (r.y + r.height);
    &&& left <= right <= left + 1
    &&& top <= bottom <= top + 1
}

/// The length of the longest of `lines` (0 when there are none).
pub open spec fn longest(lines: Seq<Seq<char>>) -> nat
    decreases lines.len(),
{
    if lines.len() == 0 {
        0
    } else {
        let rest = longest(lines.drop_last());
        if lines.last().len() > rest { lines.last().len() } else { rest }
    }
}

/// Law: `longest` is the length of the longest line: no line is longer,
/// and when there are lines, one of them is that long.
pub proof fn law_longest_is_widest_line(lines: Seq<Seq<char>>)
    ensures
        forall|i: int| 0 <= i < lines.len() ==> (#[trigger] lines[i]).len() <= longest(lines),
        lines.len() > 0 ==> exists|i: int| 0 <= i < lines.len() && (#[trigger] lines[i]).len()
            == longest(lines),
        lines.len() == 0 ==> longest(lines) == 0,
    decreases lines.len(),
{
    if lines.len() > 0 {
        let init = lines.drop_last();
        law_longest_is_widest_line(init);
        assert forall|i: int| 0 <= i < lines.len() implies (#[trigger] lines[i]).len() <= longest(
            lines,
        ) by {
            if i < init.len() {
                assert(lines[i] == init[i]);
            }
        }
        if lines.last().len() > longest(init) || init.len() == 0 {
            assert(lines[lines.len() - 1].len() == longest(lines));
        } else {
            let i = choose|i: int| 0 <= i < init.len() && (#[trigger] init[i]).len() == longest(init);
            assert(lines[i] == init[i]);
        }
    }
}

/// Law: the block's width is the length of its longest line (modulo 2^16):
/// every line fits in it and, when there are lines, one fills it.
pub proof fn law_text_block_width(text: Seq<char>)
    ensures
        forall|i: int|
            0 <= i < spec_lines(text).len() ==> (#[trigger] spec_lines(text)[i]).len() <= longest(
                spec_lines(text),
            ),
        spec_lines(text).len() > 0 ==> exists|i: int|
            0 <= i < spec_lines(text).len() && (#[trigger] spec_lines(text)[i]).len() == longest(
                spec_lines(text),
            ),
{
    law_longest_is_widest_line(spec_lines(text));
}

/// The size of a block of text: the width of its longest line and the number
/// of its lines, each taken modulo 2^16 as the terminal's coordinates are.
pub fn text_block_size(text: &str) -> (size: (u16, u16))
    ensures
        size.0 == longest(spec_lines(text@)) as u16,
        size.1 == spec_lines(text@).len() as u16,
{
    let lines = split_lines(text);
    let mut widest: usize = 0;
    let mut i: usize = 0;
    while i < lines.len()
        invariant
            i <= lines@.len(),
            string_views(lines@) == spec_lines(text@),
            widest == longest(spec_lines(text@).take(i as int)),
        decreases lines@.len() - i,
    {
        let n = chars_of(lines[i].as_str()).len();
        proof {
            let t = spec_lines(text@).take(i + 1);
            assert(t.drop_last() =~= spec_lines(text@).take(i as int));
            assert(t.last() == lines@[i as int]@);
        }
        if n > widest {
            widest = n;
        }
        i += 1;
    }
    assert(spec_lines(text@).take(i as int) =~= spec_lines(text@));
    (widest as u16, lines.len() as u16)
}

/// A block of `text_w` by `text_h` cells centred in `area` (cut to the area's
/// size when it is larger).
pub fn centered_block(area: Rect, text_w: u16, text_h: u16) -> (r: Rect)
    requires
        area.x + (if area.width >= text_w { area.width - text_w } else { 0 }) / 2 <= u16::MAX,
        area.y + (if area.height >= text_h { area.height - text_h } else { 0 }) / 2 <= u16::MAX,
    ensures
        r == Rect::spec_new(
            (area.x + (if area.width >= text_w { area.width - text_w } else { 0 }) / 2) as u16,
            (area.y + (if area.height >= text_h { area.height - text_h } else { 0 }) / 2) as u16,
            min_u16(text_w, area.width),
            min_u16(text_h, area.height),
        ),
        inside(r, area),
        edges_fit(area) ==> centred_in(r, area) && r.width == min_u16(text_w, area.width)
            && r.height == min_u16(text_h, area.height),
{
    let tx = area.x + area.width.saturating_sub(text_w) / 2;
    let ty = area.y + area.height.saturating_sub(text_h) / 2;
    Rect::new(tx, ty, text_w.min(area.width), text_h.min(area.height))
}

} // verus!
