//! Laws of text preparation: what tab expansion, width limiting and
//! wrapping keep, for every input.

use vstd::prelude::*;
use crate::text::{
    TAB_WIDTH, all_printable, all_spaces, break_point, expanded_lines, first_non_space,
    is_printable_ascii, last_space, spec_ascii_safe, lemma_first_non_space_bounds, lemma_wrap_step,
    resume_point, lemma_lines_terminated,
    spec_expand_tabs, spec_limit_all, spec_limit_line, spec_lines, spec_process_lines,
    wrap_makes_progress, wrap_segments,
};

verus! {

/// Law: sanitising a character gives printable ASCII, leaves printable ASCII
/// unchanged, and so changes nothing when applied again.
pub proof fn law_ascii_safe_idempotent(c: char)
    ensures
        is_printable_ascii(spec_ascii_safe(c)),
        is_printable_ascii(c) ==> spec_ascii_safe(c) == c,
        spec_ascii_safe(spec_ascii_safe(c)) == spec_ascii_safe(c),
{
    reveal(spec_ascii_safe);
}

/// Law: the sanitising table, entry by entry: printable ASCII is kept,
/// box-drawing characters become dashes, block elements `#`, arrows dashes,
/// bars or `>`, bullets `*`, dashes `-`, the ellipsis `.`, curly quotes
/// straight ones, accented Latin letters their base letter in the same case,
/// and anything else `?`.
pub proof fn law_ascii_table(c: char)
    ensures
        is_printable_ascii(c) ==> spec_ascii_safe(c) == c,
        '\u{2500}' <= c <= '\u{257f}' ==> spec_ascii_safe(c) == '-',
        '\u{2580}' <= c <= '\u{259f}' ==> spec_ascii_safe(c) == '#',
        c == '\u{2190}' || c == '\u{2192}' ==> spec_ascii_safe(c) == '-',
        c == '\u{2191}' || c == '\u{2193}' ==> spec_ascii_safe(c) == '|',
        c == '\u{21d2}' ==> spec_ascii_safe(c) == '>',
        c == '\u{2022}' || c == '\u{2023}' || c == '\u{25e6}' ==> spec_ascii_safe(c) == '*',
        c == '\u{2013}' || c == '\u{2014}' ==> spec_ascii_safe(c) == '-',
        c == '\u{2026}' ==> spec_ascii_safe(c) == '.',
        c == '\u{2018}' || c == '\u{2019}' ==> spec_ascii_safe(c) == '\'',
        c == '\u{201c}' || c == '\u{201d}' ==> spec_ascii_safe(c) == '"',
        '\u{c0}' <= c <= '\u{c5}' ==> spec_ascii_safe(c) == 'A',
        '\u{e0}' <= c <= '\u{e5}' ==> spec_ascii_safe(c) == 'a',
        '\u{c8}' <= c <= '\u{cb}' ==> spec_ascii_safe(c) == 'E',
        '\u{e8}' <= c <= '\u{eb}' ==> spec_ascii_safe(c) == 'e',
        '\u{cc}' <= c <= '\u{cf}' ==> spec_ascii_safe(c) == 'I',
        '\u{ec}' <= c <= '\u{ef}' ==> spec_ascii_safe(c) == 'i',
        '\u{d2}' <= c <= '\u{d6}' ==> spec_ascii_safe(c) == 'O',
        '\u{f2}' <= c <= '\u{f6}' ==> spec_ascii_safe(c) == 'o',
        '\u{d9}' <= c <= '\u{dc}' ==> spec_ascii_safe(c) == 'U',
        '\u{f9}' <= c <= '\u{fc}' ==> spec_ascii_safe(c) == 'u',
        c == '\u{c7}' ==> spec_ascii_safe(c) == 'C',
        c == '\u{e7}' ==> spec_ascii_safe(c) == 'c',
        c == '\u{d1}' ==> spec_ascii_safe(c) == 'N',
        c == '\u{f1}' ==> spec_ascii_safe(c) == 'n',
        !(is_printable_ascii(c) || ('\u{2500}' <= c <= '\u{259f}') || ('\u{c0}' <= c <= '\u{cf}')
            || ('\u{d1}' <= c <= '\u{d6}') || ('\u{d9}' <= c <= '\u{dc}') || ('\u{e0}' <= c
            <= '\u{ef}') || ('\u{f1}' <= c <= '\u{f6}') || ('\u{f9}' <= c <= '\u{fc}') || c
            == '\u{2190}' || c == '\u{2191}' || c == '\u{2192}' || c == '\u{2193}' || c
            == '\u{21d2}' || c == '\u{2022}' || c == '\u{2023}' || c == '\u{25e6}' || c
            == '\u{2013}' || c == '\u{2014}' || c == '\u{2026}' || c == '\u{2018}' || c
            == '\u{2019}' || c == '\u{201c}' || c == '\u{201d}') ==> spec_ascii_safe(c) == '?',
{
    reveal(spec_ascii_safe);
}

proof fn lemma_last_space_at(t: Seq<char>, p: int)
    requires
        0 <= p < t.len(),
        t[p] == ' ',
        forall|j: int| p < j < t.len() ==> t[j] != ' ',
    ensures
        last_space(t) == Some(p),
    decreases t.len(),
{
    if t.last() != ' ' {
        let d = t.drop_last();
        assert forall|j: int| p < j < d.len() implies d[j] != ' ' by {
            assert(d[j] == t[j]);
        }
        lemma_last_space_at(d, p);
    }
}

proof fn lemma_last_space_at_most_first(t: Seq<char>)
    requires
        forall|j: int| 0 < j < t.len() ==> t[j] != ' ',
    ensures
        last_space(t) is None || last_space(t) == Some(0int),
    decreases t.len(),
{
    if t.len() == 1 {
        assert(last_space(t.drop_last()) is None);
    }
    if t.len() > 1 {
        assert(t.last() == t[t.len() - 1]);
        let d = t.drop_last();
        assert forall|j: int| 0 < j < d.len() implies d[j] != ' ' by {
            assert(d[j] == t[j]);
        }
        lemma_last_space_at_most_first(d);
    }
}

proof fn lemma_first_non_space_at(t: Seq<char>, k: int)
    requires
        0 <= k < t.len(),
        t[k] != ' ',
        forall|j: int| 0 <= j < k ==> t[j] == ' ',
    ensures
        first_non_space(t) == Some(k),
    decreases t.len(),
{
    if k > 0 {
        let d = t.drop_first();
        assert forall|j: int| 0 <= j < k - 1 implies d[j] == ' ' by {
            assert(d[j] == t[j + 1]);
        }
        lemma_first_non_space_at(d, k - 1);
    }
}

/// Law: a line longer than `w` is broken at the last space among its first
/// `w` characters when that space is not its first character: the first line
/// wrapping gives is everything before that space.
pub proof fn law_wrap_breaks_at_last_space(line: Seq<char>, w: nat, p: int)
    requires
        line.len() > w > 0,
        0 < p < w,
        line[p] == ' ',
        forall|j: int| p < j < w ==> line[j] != ' ',
    ensures
        spec_limit_line(line, w, true).len() > 0,
        spec_limit_line(line, w, true)[0] == line.take(p),
{
    lemma_wrap_step(line, w);
    let t = line.take(w as int);
    assert forall|j: int| p < j < t.len() implies t[j] != ' ' by {
        assert(t[j] == line[j]);
    }
    lemma_last_space_at(t, p);
}

/// Law: when no space follows the first character among the first `w`, the
/// line is cut hard after `w` characters.
pub proof fn law_wrap_cuts_hard_without_space(line: Seq<char>, w: nat)
    requires
        line.len() > w > 0,
        forall|j: int| 0 < j < w ==> line[j] != ' ',
    ensures
        spec_limit_line(line, w, true).len() > 0,
        spec_limit_line(line, w, true)[0] == line.take(w as int),
{
    lemma_wrap_step(line, w);
    let t = line.take(w as int);
    assert forall|j: int| 0 < j < t.len() implies t[j] != ' ' by {
        assert(t[j] == line[j]);
    }
    lemma_last_space_at_most_first(t);
}

/// Law: after its first segment, a wrapped line goes on as the wrapping of
/// the rest of the line with the spaces that follow the break left out; when
/// only spaces follow, just the space at the break is left out.
pub proof fn law_wrap_resumes_after_spaces(line: Seq<char>, w: nat, k: int)
    requires
        line.len() > w > 0,
    ensures
        ({
            let segs = spec_limit_line(line, w, true);
            let b = segs[0].len() as int;
            &&& segs.len() > 0
            &&& b <= w
            &&& (b <= k < line.len() && all_spaces(line.subrange(b, k)) && line[k] != ' ')
                ==> segs.drop_first() == wrap_segments(line.skip(k), w)
            &&& (forall|j: int| b <= j < line.len() ==> line[j] == ' ') ==> segs.drop_first()
                == wrap_segments(line.skip(b + 1), w)
        }),
{
    lemma_wrap_step(line, w);
    let b = break_point(line, w);
    let r = resume_point(line, b);
    let segs = spec_limit_line(line, w, true);
    assert(segs[0] == line.take(b));
    assert(segs.drop_first() =~= wrap_segments(line.skip(r), w));
    let next = if b < line.len() && line[b] == ' ' { b + 1 } else { b };
    let rest = line.skip(next);
    lemma_first_non_space_bounds(rest);
    if b <= k < line.len() && all_spaces(line.subrange(b, k)) && line[k] != ' ' {
        if line[b] != ' ' {
            if k > b {
                assert(line.subrange(b, k)[0] == line[b]);
            }
            lemma_first_non_space_at(rest, 0);
        } else {
            if k == b {
                assert(false);
            }
            assert forall|j: int| 0 <= j < k - b - 1 implies rest[j] == ' ' by {
                assert(rest[j] == line.subrange(b, k)[j + 1]);
            }
            lemma_first_non_space_at(rest, k - b - 1);
        }
        assert(r == k);
    }
    if forall|j: int| b <= j < line.len() ==> line[j] == ' ' {
        assert(line[b] == ' ');
        if let Some(m) = first_non_space(rest) {
            assert(rest[m] == line[m + next]);
        }
        assert(r == b + 1);
    }
}

/// Tab expansion only ever produces printable ASCII.
pub proof fn lemma_expand_printable(s: Seq<char>)
    ensures
        all_printable(spec_expand_tabs(s)),
    decreases s.len(),
{
    if s.len() > 0 {
        law_ascii_safe_idempotent(s.last());
        lemma_expand_printable(s.drop_last());
    }
}

/// Law: printable ASCII text (which holds no tab) comes out of tab expansion
/// unchanged.
pub proof fn law_expand_keeps_printable(s: Seq<char>)
    requires
        all_printable(s),
    ensures
        spec_expand_tabs(s) == s,
    decreases s.len(),
{
    if s.len() > 0 {
        assert(is_printable_ascii(s[s.len() - 1]));
        law_ascii_safe_idempotent(s.last());
        assert(all_printable(s.drop_last()));
        law_expand_keeps_printable(s.drop_last());
        assert(s.drop_last().push(s.last()) =~= s);
    }
}

/// Law: expanding text a second time changes nothing.
pub proof fn law_expand_idempotent(s: Seq<char>)
    ensures
        spec_expand_tabs(spec_expand_tabs(s)) == spec_expand_tabs(s),
{
    lemma_expand_printable(s);
    law_expand_keeps_printable(spec_expand_tabs(s));
}

/// Law: a tab moves the output on by one to `TAB_WIDTH` columns, to the next
/// multiple of `TAB_WIDTH`.
pub proof fn law_tab_reaches_next_stop(s: Seq<char>)
    requires
        s.len() > 0,
        s.last() == '\t',
    ensures
        spec_expand_tabs(s).len() % 4 == 0,
        spec_expand_tabs(s.drop_last()).len() < spec_expand_tabs(s).len()
            <= spec_expand_tabs(s.drop_last()).len() + 4,
        spec_expand_tabs(s.drop_last()).is_prefix_of(spec_expand_tabs(s)),
        forall|i: int|
            spec_expand_tabs(s.drop_last()).len() <= i < spec_expand_tabs(s).len()
                ==> spec_expand_tabs(s)[i] == ' ',
{
}

/// Law: expansion goes character by character: a character other than a tab
/// adds exactly its sanitised form to what the text before it expands to.
pub proof fn law_expand_appends(s: Seq<char>, c: char)
    requires
        c != '\t',
    ensures
        spec_expand_tabs(s.push(c)) == spec_expand_tabs(s).push(spec_ascii_safe(c)),
{
    assert(s.push(c).drop_last() =~= s);
}

/// Law: a text without a newline, followed by one, is one line: the text,
/// less a carriage return that ends it.
pub proof fn law_terminated_line(t: Seq<char>)
    requires
        forall|i: int| 0 <= i < t.len() ==> t[i] != '\n',
    ensures
        spec_lines(t.push('\n')) == (if t.len() > 0 && t[t.len() - 1] == '\r' {
            seq![t.take(t.len() - 1)]
        } else {
            seq![t]
        }),
{
    lemma_lines_terminated(t);
    if t.len() > 0 && t[t.len() - 1] == '\r' {
        assert(t.drop_last() =~= t.take(t.len() - 1));
    }
}

/// Each segment of word-aware wrapping has at most `w` characters, and is
/// printable when the wrapped text is.
pub proof fn lemma_wrap_segments_fit(rem: Seq<char>, w: nat)
    requires
        w > 0 || all_spaces(rem),
    ensures
        forall|i: int|
            0 <= i < wrap_segments(rem, w).len() ==> (#[trigger] wrap_segments(rem, w)[i]).len()
                <= w,
        all_printable(rem) ==> forall|i: int|
            0 <= i < wrap_segments(rem, w).len() ==> all_printable(
                #[trigger] wrap_segments(rem, w)[i],
            ),
    decreases rem.len(),
{
    if rem.len() > w {
        lemma_wrap_step(rem, w);
        let b = break_point(rem, w);
        let r = resume_point(rem, b);
        lemma_wrap_segments_fit(rem.skip(r), w);
        let segs = wrap_segments(rem, w);
        let rest = wrap_segments(rem.skip(r), w);
        assert forall|i: int| 0 <= i < segs.len() implies (#[trigger] segs[i]).len() <= w by {
            if i > 0 {
                assert(segs[i] == rest[i - 1]);
            }
        }
        if all_printable(rem) {
            assert(all_printable(rem.skip(r)));
            assert forall|i: int| 0 <= i < segs.len() implies all_printable(#[trigger] segs[i]) by {
                if i > 0 {
                    assert(segs[i] == rest[i - 1]);
                } else {
                    assert(segs[0] == rem.take(b));
                }
            }
        }
    }
}

/// What limiting one line gives: lines of at most `w` characters, printable
/// when the line is.
pub proof fn lemma_limit_line_fits(line: Seq<char>, w: nat, wrap: bool)
    requires
        wrap && line.len() > w ==> (w > 0 || all_spaces(line)),
    ensures
        forall|i: int|
            0 <= i < spec_limit_line(line, w, wrap).len() ==> (#[trigger] spec_limit_line(
                line,
                w,
                wrap,
            )[i]).len() <= w,
        all_printable(line) ==> forall|i: int|
            0 <= i < spec_limit_line(line, w, wrap).len() ==> all_printable(
                #[trigger] spec_limit_line(line, w, wrap)[i],
            ),
{
    if line.len() > w && wrap {
        lemma_wrap_segments_fit(line, w);
    }
}

/// Law: with a width limit, no line that `process_lines` gives is longer
/// than the limit.
pub proof fn law_width_respected(raw: Seq<char>, w: usize, wrap: bool)
    requires
        wrap_makes_progress(raw, Some(w), wrap),
    ensures
        forall|i: int|
            0 <= i < spec_process_lines(raw, Some(w), wrap).len() ==> (
            #[trigger] spec_process_lines(raw, Some(w), wrap)[i]).len() <= w,
{
    lemma_limit_all_fits(expanded_lines(raw), w as nat, wrap);
}

/// Law: every character of every line that `process_lines` gives is
/// printable ASCII.
pub proof fn law_output_printable(raw: Seq<char>, width: Option<usize>, wrap: bool)
    requires
        wrap_makes_progress(raw, width, wrap),
    ensures
        forall|i: int|
            0 <= i < spec_process_lines(raw, width, wrap).len() ==> all_printable(
                #[trigger] spec_process_lines(raw, width, wrap)[i],
            ),
{
    let lines = expanded_lines(raw);
    assert forall|i: int| 0 <= i < lines.len() implies all_printable(#[trigger] lines[i]) by {
        lemma_expand_printable(spec_lines(raw)[i]);
    }
    match width {
        Some(w) => lemma_limit_all_fits(lines, w as nat, wrap),
        None => {},
    }
}

/// Limiting a whole text: each line is at most `w` characters long, and
/// printable when all the input lines are.
pub proof fn lemma_limit_all_fits(lines: Seq<Seq<char>>, w: nat, wrap: bool)
    requires
        wrap && w == 0 ==> forall|i: int| 0 <= i < lines.len() ==> all_spaces(#[trigger] lines[i]),
    ensures
        forall|i: int|
            0 <= i < spec_limit_all(lines, w, wrap).len() ==> (#[trigger] spec_limit_all(
                lines,
                w,
                wrap,
            )[i]).len() <= w,
        (forall|i: int| 0 <= i < lines.len() ==> all_printable(#[trigger] lines[i])) ==> forall|
            i: int,
        |
            0 <= i < spec_limit_all(lines, w, wrap).len() ==> all_printable(
                #[trigger] spec_limit_all(lines, w, wrap)[i],
            ),
    decreases lines.len(),
{
    if lines.len() > 0 {
        let init = lines.drop_last();
        assert forall|i: int| wrap && w == 0 && 0 <= i < init.len() implies all_spaces(
            #[trigger] init[i],
        ) by {
            assert(init[i] == lines[i]);
        }
        lemma_limit_all_fits(init, w, wrap);
        let last = lines.last();
        if wrap && w == 0 {
            assert(all_spaces(lines[lines.len() - 1]));
        }
        lemma_limit_line_fits(last, w, wrap);
        let a = spec_limit_all(init, w, wrap);
        let b = spec_limit_line(last, w, wrap);
        let all = spec_limit_all(lines, w, wrap);
        assert(all == a + b);
        assert forall|i: int| 0 <= i < all.len() implies (#[trigger] all[i]).len() <= w by {
            if i < a.len() {
                assert(all[i] == a[i]);
            } else {
                assert(all[i] == b[i - a.len()]);
            }
        }
        if forall|i: int| 0 <= i < lines.len() ==> all_printable(#[trigger] lines[i]) {
            assert(forall|i: int| 0 <= i < init.len() ==> all_printable(#[trigger] init[i])) by {
                assert forall|i: int| 0 <= i < init.len() implies all_printable(#[trigger] init[i]) by {
                    assert(init[i] == lines[i]);
                }
            }
            assert(all_printable(lines[lines.len() - 1]));
            assert forall|i: int| 0 <= i < all.len() implies all_printable(#[trigger] all[i]) by {
                if i < a.len() {
                    assert(all[i] == a[i]);
                } else {
                    assert(all[i] == b[i - a.len()]);
                }
            }
        }
    }
}

/// The characters of `t` that are not spaces, in order.
pub open spec fn non_spaces(t: Seq<char>) -> Seq<char> {
    t.filter(|c: char| c != ' ')
}

proof fn lemma_non_spaces_of_spaces(t: Seq<char>)
    requires
        all_spaces(t),
    ensures
        non_spaces(t) == Seq::<char>::empty(),
    decreases t.len(),
{
    reveal(Seq::filter);
    if t.len() > 0 {
        assert(t.last() == t[t.len() - 1]);
        assert(all_spaces(t.drop_last()));
        lemma_non_spaces_of_spaces(t.drop_last());
    }
}

/// What wrapping drops between one segment and the next is spaces only.
proof fn lemma_wrap_gap_is_spaces(rem: Seq<char>, w: nat)
    requires
        rem.len() > w,
        w > 0 || all_spaces(rem),
    ensures
        all_spaces(
            rem.subrange(break_point(rem, w), resume_point(rem, break_point(rem, w))),
        ),
{
    lemma_wrap_step(rem, w);
    let b = break_point(rem, w);
    let r = resume_point(rem, b);
    let next = if b < rem.len() && rem[b] == ' ' { b + 1 } else { b };
    lemma_first_non_space_bounds(rem.skip(next));
    let gap = rem.subrange(b, r);
    assert forall|i: int| 0 <= i < gap.len() implies #[trigger] gap[i] == ' ' by {
        assert(gap[i] == rem[b + i]);
        if b + i >= next {
            match first_non_space(rem.skip(next)) {
                Some(k) => {
                    assert(rem.skip(next).take(k)[b + i - next] == rem[b + i]);
                },
                None => {},
            }
        }
    }
}

/// Word-aware wrapping keeps every character that is not a space, in order.
pub proof fn lemma_wrap_keeps_text(rem: Seq<char>, w: nat)
    requires
        w > 0 || all_spaces(rem),
    ensures
        non_spaces(wrap_segments(rem, w).flatten()) == non_spaces(rem),
    decreases rem.len(),
{
    broadcast use Seq::filter_distributes_over_add;

    let segs = wrap_segments(rem, w);
    if rem.len() <= w {
        if rem.len() == 0 {
            assert(segs.flatten() =~= rem);
        } else {
            assert(segs == seq![rem]);
            assert(segs.drop_first() =~= Seq::<Seq<char>>::empty());
            assert(segs.drop_first().flatten() =~= Seq::<char>::empty());
            assert(segs.flatten() =~= rem);
        }
    } else {
        lemma_wrap_step(rem, w);
        lemma_wrap_gap_is_spaces(rem, w);
        let b = break_point(rem, w);
        let r = resume_point(rem, b);
        lemma_wrap_keeps_text(rem.skip(r), w);
        assert(segs == seq![rem.take(b)] + wrap_segments(rem.skip(r), w));
        assert(segs.drop_first() =~= wrap_segments(rem.skip(r), w));
        assert(segs.flatten() == rem.take(b) + wrap_segments(rem.skip(r), w).flatten());
        assert(rem =~= rem.take(b) + rem.subrange(b, r) + rem.skip(r));
        lemma_non_spaces_of_spaces(rem.subrange(b, r));
        assert(non_spaces(rem) =~= non_spaces(rem.take(b)) + non_spaces(rem.subrange(b, r))
            + non_spaces(rem.skip(r)));
        assert(non_spaces(segs.flatten()) =~= non_spaces(rem.take(b)) + non_spaces(
            wrap_segments(rem.skip(r), w).flatten(),
        ));
    }
}

/// Law: wrapping a line loses no text: the characters other than spaces of
/// the lines it gives, read in order, are those of the line.
pub proof fn law_wrap_keeps_text(line: Seq<char>, w: nat)
    requires
        w > 0 || all_spaces(line),
    ensures
        non_spaces(spec_limit_line(line, w, true).flatten()) == non_spaces(line),
{
    if line.len() <= w {
        let one = spec_limit_line(line, w, true);
        assert(one == seq![line]);
        assert(one.drop_first() =~= Seq::<Seq<char>>::empty());
        assert(one.drop_first().flatten() =~= Seq::<char>::empty());
        assert(one.flatten() =~= line);
    } else {
        lemma_wrap_keeps_text(line, w);
    }
}

/// Wrapping text made of spaces gives segments made of spaces.
proof fn lemma_wrap_of_spaces(rem: Seq<char>, w: nat)
    requires
        all_spaces(rem),
    ensures
        forall|i: int|
            0 <= i < wrap_segments(rem, w).len() ==> all_spaces(#[trigger] wrap_segments(rem, w)[i]),
    decreases rem.len(),
{
    let segs = wrap_segments(rem, w);
    if rem.len() > w {
        lemma_wrap_step(rem, w);
        let b = break_point(rem, w);
        let r = resume_point(rem, b);
        assert(all_spaces(rem.skip(r)));
        lemma_wrap_of_spaces(rem.skip(r), w);
        let rest = wrap_segments(rem.skip(r), w);
        assert forall|i: int| 0 <= i < segs.len() implies all_spaces(#[trigger] segs[i]) by {
            if i > 0 {
                assert(segs[i] == rest[i - 1]);
            } else {
                assert(segs[0] == rem.take(b));
            }
        }
    }
}

/// The first segment of a wrapped text is a beginning of that text.
proof fn lemma_wrap_first_segment(rem: Seq<char>, w: nat)
    requires
        w > 0 || all_spaces(rem),
        wrap_segments(rem, w).len() > 0,
    ensures
        wrap_segments(rem, w)[0].is_prefix_of(rem),
{
    if rem.len() > w {
        lemma_wrap_step(rem, w);
    }
}

/// Law: after a break, the next segment does not start with a space (unless
/// nothing but spaces is left to wrap).
pub proof fn law_wrap_continuation_starts_with_text(rem: Seq<char>, w: nat)
    requires
        w > 0 || all_spaces(rem),
    ensures
        forall|i: int|
            1 <= i < wrap_segments(rem, w).len() ==> ({
                let seg = #[trigger] wrap_segments(rem, w)[i];
                all_spaces(seg) || seg[0] != ' '
            }),
    decreases rem.len(),
{
    let segs = wrap_segments(rem, w);
    if rem.len() > w {
        lemma_wrap_step(rem, w);
        let b = break_point(rem, w);
        let r = resume_point(rem, b);
        let next = if b < rem.len() && rem[b] == ' ' { b + 1 } else { b };
        let tail = rem.skip(r);
        let rest = wrap_segments(tail, w);
        law_wrap_continuation_starts_with_text(tail, w);
        lemma_first_non_space_bounds(rem.skip(next));
        if rest.len() > 0 {
            match first_non_space(rem.skip(next)) {
                Some(k) => {
                    assert(tail[0] == rem.skip(next)[k]);
                    lemma_wrap_first_segment(tail, w);
                    if rest[0].len() > 0 {
                        assert(rest[0][0] == tail[0]);
                    }
                },
                None => {
                    assert(tail =~= rem.skip(next));
                    lemma_wrap_of_spaces(tail, w);
                },
            }
        }
        assert forall|i: int| 1 <= i < segs.len() implies ({
            let seg = #[trigger] segs[i];
            all_spaces(seg) || seg[0] != ' '
        }) by {
            assert(segs[i] == rest[i - 1]);
        }
    }
}

/// The cut that truncation makes of one line.
pub open spec fn cut_line(line: Seq<char>, w: nat) -> Seq<char> {
    if line.len() <= w { line } else { line.take(w as int) }
}

proof fn lemma_truncate_all(lines: Seq<Seq<char>>, w: nat)
    ensures
        spec_limit_all(lines, w, false) == lines.map_values(|l: Seq<char>| cut_line(l, w)),
    decreases lines.len(),
{
    if lines.len() > 0 {
        lemma_truncate_all(lines.drop_last(), w);
        assert(spec_limit_all(lines, w, false) =~= lines.map_values(|l: Seq<char>| cut_line(l, w)));
    } else {
        assert(spec_limit_all(lines, w, false) =~= lines.map_values(|l: Seq<char>| cut_line(l, w)));
    }
}

/// Law: truncating (without `wrap`) gives exactly one line per line of the
/// text: the line itself when it fits, else its first `w` characters.
pub proof fn law_truncate_one_per_line(raw: Seq<char>, w: usize)
    ensures
        spec_process_lines(raw, Some(w), false) == expanded_lines(raw).map_values(
            |l: Seq<char>| cut_line(l, w as nat),
        ),
        spec_process_lines(raw, Some(w), false).len() == spec_lines(raw).len(),
{
    lemma_truncate_all(expanded_lines(raw), w as nat);
}

} // verus!
