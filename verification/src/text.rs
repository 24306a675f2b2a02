//! Tab expansion, ASCII sanitising, width limiting and word wrapping.

use vstd::prelude::*;

verus! {

/// Width of a tab stop, in columns.
pub const TAB_WIDTH: usize = 4;

/// True for the printable ASCII characters (space through tilde).
pub open spec fn is_printable_ascii(c: char) -> bool {
    '\x20' <= c && c <= '\x7e'
}

/// The printable ASCII character that stands for `c` in the output: `c`
/// itself when printable, else its closest equivalent (accented Latin letters
/// lose their accent and keep their case), else '?'.
#[verifier::opaque]
pub open spec fn spec_ascii_safe(c: char) -> char {
    if '\x20' <= c && c <= '\x7e' {
        c
    } else if '\u{2500}' <= c && c <= '\u{257f}' {
        '-'
    } else if '\u{2580}' <= c && c <= '\u{259f}' {
        '#'
    } else if c == '\u{2190}' || c == '\u{2192}' {
        '-'
    } else if c == '\u{2191}' || c == '\u{2193}' {
        '|'
    } else if c == '\u{21d2}' {
        '>'
    } else if c == '\u{2022}' || c == '\u{2023}' || c == '\u{25e6}' {
        '*'
    } else if c == '\u{2013}' || c == '\u{2014}' {
        '-'
    } else if c == '\u{2026}' {
        '.'
    } else if c == '\u{2018}' || c == '\u{2019}' {
        '\''
    } else if c == '\u{201c}' || c == '\u{201d}' {
        '"'
    } else if '\u{c0}' <= c && c <= '\u{c5}' {
        'A'
    } else if '\u{e0}' <= c && c <= '\u{e5}' {
        'a'
    } else if '\u{c8}' <= c && c <= '\u{cb}' {
        'E'
    } else if '\u{e8}' <= c && c <= '\u{eb}' {
        'e'
    } else if '\u{cc}' <= c && c <= '\u{cf}' {
        'I'
    } else if '\u{ec}' <= c && c <= '\u{ef}' {
        'i'
    } else if '\u{d2}' <= c && c <= '\u{d6}' {
        'O'
    } else if '\u{f2}' <= c && c <= '\u{f6}' {
        'o'
    } else if '\u{d9}' <= c && c <= '\u{dc}' {
        'U'
    } else if '\u{f9}' <= c && c <= '\u{fc}' {
        'u'
    } else if c == '\u{c7}' {
        'C'
    } else if c == '\u{e7}' {
        'c'
    } else if c == '\u{d1}' {
        'N'
    } else if c == '\u{f1}' {
        'n'
    } else {
        '?'
    }
}

/// Map a character to its closest printable ASCII equivalent, or '?' if none.
/// Printable ASCII passes through unchanged.
pub fn ascii_safe(ch: char) -> (out: char)
    ensures
        out == spec_ascii_safe(ch),
        is_printable_ascii(out),
        is_printable_ascii(ch) ==> out == ch,
{
    reveal(spec_ascii_safe);
    match ch {
        // Printable ASCII: pass through unchanged
        '\x20'..='\x7e' => ch,
        // Box-drawing and block elements -> dashes / pipes
        '\u{2500}'..='\u{257f}' => '-',
        '\u{2580}'..='\u{259f}' => '#',
        // Arrows -> angle brackets / dashes
        '\u{2190}' | '\u{2192}' => '-',
        '\u{2191}' | '\u{2193}' => '|',
        '\u{21d2}' => '>',
        // Bullets, ellipsis, dashes
        '\u{2022}' | '\u{2023}' | '\u{25e6}' => '*',
        '\u{2013}' | '\u{2014}' => '-',
        '\u{2026}' => '.',
        // Quotes
        '\u{2018}' | '\u{2019}' => '\'',
        '\u{201c}' | '\u{201d}' => '"',
        // Extended Latin: strip diacritics to base letter where easy
        '\u{c0}'..='\u{c5}' => 'A',
        '\u{e0}'..='\u{e5}' => 'a',
        '\u{c8}'..='\u{cb}' => 'E',
        '\u{e8}'..='\u{eb}' => 'e',
        '\u{cc}'..='\u{cf}' => 'I',
        '\u{ec}'..='\u{ef}' => 'i',
        '\u{d2}'..='\u{d6}' => 'O',
        '\u{f2}'..='\u{f6}' => 'o',
        '\u{d9}'..='\u{dc}' => 'U',
        '\u{f9}'..='\u{fc}' => 'u',
        '\u{c7}' => 'C',
        '\u{e7}' => 'c',
        '\u{d1}' => 'N',
        '\u{f1}' => 'n',
        // Everything else
        _ => '?',
    }
}

/// `String::push` (std): appends one character to the string.
pub assume_specification[ String::push ](s: &mut String, ch: char)
    ensures
        final(s)@ == old(s)@.push(ch),
;

/// A run of `n` spaces.
pub open spec fn space_run(n: nat) -> Seq<char> {
    Seq::new(n, |i: int| ' ')
}

/// `s` with every tab replaced by spaces up to the next multiple of
/// `TAB_WIDTH` columns, and every other character replaced by
/// `spec_ascii_safe` of it.
pub open spec fn spec_expand_tabs(s: Seq<char>) -> Seq<char>
    decreases s.len(),
{
    if s.len() == 0 {
        Seq::empty()
    } else {
        let prev = spec_expand_tabs(s.drop_last());
        if s.last() == '\t' {
            prev + space_run((TAB_WIDTH - prev.len() % (TAB_WIDTH as nat)) as nat)
        } else {
            prev.push(spec_ascii_safe(s.last()))
        }
    }
}

/// Every character of `s` is printable ASCII.
pub open spec fn all_printable(s: Seq<char>) -> bool {
    forall|i: int| 0 <= i < s.len() ==> is_printable_ascii(#[trigger] s[i])
}

/// Expand tabs and map every character to a printable ASCII equivalent.
pub fn expand_tabs(s: &str) -> (out: String)
    ensures
        out@ == spec_expand_tabs(s@),
        all_printable(out@),
{
    let mut out = String::new();
    let mut col: usize = 0;
    let ghost mut done: Seq<char> = Seq::empty();
    for ch in it: s.chars()
        invariant
            it.seq() == s@,
            done == it.seq().take(it.index() as int),
            out@ == spec_expand_tabs(done),
            all_printable(out@),
            col < TAB_WIDTH,
            col == out@.len() % (TAB_WIDTH as nat),
    {
        let ghost before = out@;
        proof {
            assert(done.push(ch).drop_last() =~= done);
        }
        if ch == '\t' {
            let spaces = TAB_WIDTH - (col % TAB_WIDTH);
            for _k in 0..spaces
                invariant
                    before == spec_expand_tabs(done),
                    all_printable(before),
                    out@ == before + space_run(_k as nat),
                    all_printable(out@),
            {
                out.push(' ');
                assert(out@ =~= before + space_run((_k + 1) as nat));
            }
            col = (col + spaces) % TAB_WIDTH;
        } else {
            out.push(ascii_safe(ch));
            col = (col + 1) % TAB_WIDTH;
        }
        proof {
            done = done.push(ch);
        }
    }
    proof {
        assert(done =~= s@);
    }
    out
}

/// The contents of a sequence of strings.
pub open spec fn string_views(v: Seq<String>) -> Seq<Seq<char>> {
    v.map_values(|s: String| s@)
}

/// Index of the first newline in `s`, or `s.len()` when there is none.
pub open spec fn first_newline(s: Seq<char>) -> int
    decreases s.len(),
{
    if s.len() == 0 {
        0
    } else if s[0] == '\n' {
        0
    } else {
        1 + first_newline(s.drop_first())
    }
}

/// `first_newline` is an index of `t` holding a newline, or the end, with no
/// newline before it.
pub proof fn lemma_first_newline_bounds(s: Seq<char>)
    ensures
        0 <= first_newline(s) <= s.len(),
        first_newline(s) < s.len() ==> s[first_newline(s)] == '\n',
        forall|i: int| 0 <= i < first_newline(s) ==> s[i] != '\n',
    decreases s.len(),
{
    if s.len() > 0 && s[0] != '\n' {
        lemma_first_newline_bounds(s.drop_first());
        assert forall|i: int| 0 <= i < first_newline(s) implies s[i] != '\n' by {
            if i > 0 {
                assert(s[i] == s.drop_first()[i - 1]);
            }
        }
    }
}

/// `t` without one trailing carriage return, if it has one.
pub open spec fn strip_cr(t: Seq<char>) -> Seq<char> {
    if t.len() > 0 && t.last() == '\r' {
        t.drop_last()
    } else {
        t
    }
}

/// The lines of `s`: split at each `\n`, a `\r` just before a `\n` belongs
/// to the line ending, and the final line ending is optional.
pub open spec fn spec_lines(s: Seq<char>) -> Seq<Seq<char>>
    decreases s.len(),
{
    if s.len() == 0 {
        Seq::empty()
    } else {
        let k = first_newline(s);
        if k >= s.len() {
            seq![s]
        } else {
            proof {
                lemma_first_newline_bounds(s);
            }
            seq![strip_cr(s.take(k))] + spec_lines(s.skip(k + 1))
        }
    }
}

/// Every character of `t` is a space.
pub open spec fn all_spaces(t: Seq<char>) -> bool {
    forall|i: int| 0 <= i < t.len() ==> #[trigger] t[i] == ' '
}

/// Index of the last space in `t`, if any.
pub open spec fn last_space(t: Seq<char>) -> Option<int>
    decreases t.len(),
{
    if t.len() == 0 {
        None
    } else if t.last() == ' ' {
        Some(t.len() - 1)
    } else {
        last_space(t.drop_last())
    }
}

/// Index of the first character of `t` that is not a space, if any.
pub open spec fn first_non_space(t: Seq<char>) -> Option<int>
    decreases t.len(),
{
    if t.len() == 0 {
        None
    } else if t[0] != ' ' {
        Some(0)
    } else {
        match first_non_space(t.drop_first()) {
            Some(k) => Some(k + 1),
            None => None,
        }
    }
}

/// Where a line that is too long is broken: at the last space within the
/// first `w` characters, unless there is none or it is the very first
/// character, in which case the line is cut hard after `w` characters.
pub open spec fn break_point(rem: Seq<char>, w: nat) -> int {
    match last_space(rem.take(w as int)) {
        Some(p) => if p > 0 { p } else { w as int },
        None => w as int,
    }
}

/// Where the next segment starts after breaking at `b`: past the space the
/// line was broken on, then past any spaces that follow (when only spaces
/// follow, they are kept).
pub open spec fn resume_point(rem: Seq<char>, b: int) -> int {
    let next = if b < rem.len() && rem[b] == ' ' { b + 1 } else { b };
    let skip = match first_non_space(rem.skip(next)) {
        Some(k) => k,
        None => 0,
    };
    next + skip
}

/// The segments that word-aware wrapping at width `w` cuts `rem` into.
/// It is defined where wrapping makes progress: a width of at least one,
/// or a text made of spaces only.
pub open spec fn wrap_segments(rem: Seq<char>, w: nat) -> Seq<Seq<char>>
    decreases rem.len(),
    when w > 0 || all_spaces(rem)
{
    if rem.len() <= w {
        if rem.len() == 0 {
            Seq::empty()
        } else {
            seq![rem]
        }
    } else {
        let b = break_point(rem, w);
        let r = resume_point(rem, b);
        proof {
            lemma_break_point_bounds(rem, w);
            lemma_resume_point_bounds(rem, b);
        }
        seq![rem.take(b)] + wrap_segments(rem.skip(r), w)
    }
}

/// A last space that is found lies in `t`.
pub proof fn lemma_last_space_bounds(t: Seq<char>)
    ensures
        last_space(t) matches Some(p) ==> 0 <= p < t.len() && t[p] == ' ',
    decreases t.len(),
{
    if t.len() > 0 && t.last() != ' ' {
        lemma_last_space_bounds(t.drop_last());
    }
}

/// A first non-space that is found lies in `t`, after spaces only; when none
/// is found, `t` is all spaces.
pub proof fn lemma_first_non_space_bounds(t: Seq<char>)
    ensures
        first_non_space(t) matches Some(k) ==> 0 <= k < t.len() && t[k] != ' ',
        first_non_space(t) matches Some(k) ==> all_spaces(t.take(k)),
        first_non_space(t) is None ==> all_spaces(t),
    decreases t.len(),
{
    if t.len() > 0 && t[0] == ' ' {
        lemma_first_non_space_bounds(t.drop_first());
        if let Some(k) = first_non_space(t) {
            assert forall|i: int| 0 <= i < t.take(k).len() implies #[trigger] t.take(k)[i] == ' ' by {
                if i > 0 {
                    assert(t.take(k)[i] == t.drop_first().take(k - 1)[i - 1]);
                }
            }
        }
        if first_non_space(t) is None {
            assert forall|i: int| 0 <= i < t.len() implies #[trigger] t[i] == ' ' by {
                if i > 0 {
                    assert(t[i] == t.drop_first()[i - 1]);
                }
            }
        }
    }
}

/// A line is broken within its first `w` characters, and never before its
/// first character when `w > 0`.
pub proof fn lemma_break_point_bounds(rem: Seq<char>, w: nat)
    requires
        rem.len() > w,
    ensures
        0 <= break_point(rem, w) <= w,
        w > 0 ==> break_point(rem, w) > 0,
{
    lemma_last_space_bounds(rem.take(w as int));
}

/// The next segment starts at or after the break, and past it when the line
/// was broken on a space.
pub proof fn lemma_resume_point_bounds(rem: Seq<char>, b: int)
    requires
        0 <= b < rem.len(),
    ensures
        b <= resume_point(rem, b) <= rem.len(),
        rem[b] == ' ' ==> resume_point(rem, b) > b,
{
    let next = if b < rem.len() && rem[b] == ' ' { b + 1 } else { b };
    lemma_first_non_space_bounds(rem.skip(next));
}

/// The first newline of `t` is at `k` when `k` is a newline (or the end) and
/// none comes before it.
pub proof fn lemma_first_newline_at(t: Seq<char>, k: int)
    requires
        0 <= k <= t.len(),
        forall|i: int| 0 <= i < k ==> t[i] != '\n',
        k == t.len() || t[k] == '\n',
    ensures
        first_newline(t) == k,
    decreases t.len(),
{
    if t.len() > 0 && t[0] != '\n' {
        assert forall|i: int| 0 <= i < k - 1 implies t.drop_first()[i] != '\n' by {
            assert(t.drop_first()[i] == t[i + 1]);
        }
        lemma_first_newline_at(t.drop_first(), k - 1);
    }
}

/// A text without a newline is one line (or none, when it is empty).
pub proof fn lemma_lines_without_newline(t: Seq<char>)
    requires
        forall|i: int| 0 <= i < t.len() ==> t[i] != '\n',
    ensures
        spec_lines(t) == (if t.len() == 0 { Seq::<Seq<char>>::empty() } else { seq![t] }),
{
    lemma_first_newline_at(t, t.len() as int);
}

/// A text without a newline, followed by one, is a single line.
pub proof fn lemma_lines_terminated(t: Seq<char>)
    requires
        forall|i: int| 0 <= i < t.len() ==> t[i] != '\n',
    ensures
        spec_lines(t.push('\n')) == seq![strip_cr(t)],
{
    let tn = t.push('\n');
    lemma_first_newline_at(tn, t.len() as int);
    assert(tn.take(t.len() as int) =~= t);
    assert(tn.skip(t.len() as int + 1) =~= Seq::<char>::empty());
    assert(spec_lines(tn.skip(t.len() as int + 1)) =~= Seq::<Seq<char>>::empty());
}

/// The lines of a text that ends with a newline, followed by more text, are
/// the lines of the first followed by the lines of the second.
pub proof fn lemma_lines_concat(t: Seq<char>, u: Seq<char>)
    requires
        t.len() == 0 || t.last() == '\n',
    ensures
        spec_lines(t + u) == spec_lines(t) + spec_lines(u),
    decreases t.len(),
{
    if t.len() == 0 {
        assert(t + u =~= u);
        assert(spec_lines(t) + spec_lines(u) =~= spec_lines(u));
    } else {
        lemma_first_newline_bounds(t);
        let k = first_newline(t);
        if k >= t.len() {
            assert(t[t.len() - 1] != '\n');
            assert(false);
        }
        let tu = t + u;
        assert forall|i: int| 0 <= i < k implies tu[i] != '\n' by {
            assert(tu[i] == t[i]);
        }
        assert(tu[k] == t[k]);
        lemma_first_newline_at(tu, k);
        assert(tu.take(k) =~= t.take(k));
        assert(tu.skip(k + 1) =~= t.skip(k + 1) + u);
        let rest = t.skip(k + 1);
        if rest.len() > 0 {
            assert(rest.last() == t.last());
        }
        lemma_lines_concat(rest, u);
        assert(spec_lines(tu) =~= spec_lines(t) + spec_lines(u));
    }
}

/// The characters of `s`, in order.
pub(crate) fn chars_of(s: &str) -> (out: Vec<char>)
    ensures
        out@ == s@,
{
    let mut out: Vec<char> = Vec::new();
    for ch in it: s.chars()
        invariant
            it.seq() == s@,
            out@ == it.seq().take(it.index() as int),
    {
        proof {
            assert(it.seq().take(it.index() as int).push(ch) =~= it.seq().take(it.index() + 1));
        }
        out.push(ch);
    }
    proof {
        assert(out@ =~= s@);
    }
    out
}

/// The string made of the characters `cs[lo..hi]`.
pub(crate) fn string_of_range(cs: &Vec<char>, lo: usize, hi: usize) -> (out: String)
    requires
        lo <= hi <= cs@.len(),
    ensures
        out@ == cs@.subrange(lo as int, hi as int),
{
    let mut out = String::new();
    let mut i = lo;
    while i < hi
        invariant
            lo <= i <= hi <= cs@.len(),
            out@ == cs@.subrange(lo as int, i as int),
        decreases hi - i,
    {
        out.push(cs[i]);
        i += 1;
        assert(out@ =~= cs@.subrange(lo as int, i as int));
    }
    out
}

/// The lines of `raw`, as `str::lines` yields them.
pub(crate) fn split_lines(raw: &str) -> (out: Vec<String>)
    ensures
        string_views(out@) == spec_lines(raw@),
{
    let mut out: Vec<String> = Vec::new();
    let mut cur: Vec<char> = Vec::new();
    let ghost mut j: int = 0;
    for ch in it: raw.chars()
        invariant
            it.seq() == raw@,
            0 <= j <= it.index() <= raw@.len(),
            cur@ == raw@.subrange(j, it.index() as int),
            forall|i: int| 0 <= i < cur@.len() ==> cur@[i] != '\n',
            j == 0 || raw@[j - 1] == '\n',
            string_views(out@) == spec_lines(raw@.take(j)),
    {
        let ghost i = it.index() as int;
        if ch == '\n' {
            proof {
                assert(raw@.take(i + 1) =~= raw@.take(j) + cur@.push('\n'));
                if j > 0 {
                    assert(raw@.take(j).last() == raw@[j - 1]);
                }
                lemma_lines_concat(raw@.take(j), cur@.push('\n'));
                lemma_lines_terminated(cur@);
            }
            let ghost whole = cur@;
            if cur.len() > 0 && cur[cur.len() - 1] == '\r' {
                cur.pop();
            }
            assert(cur@ == strip_cr(whole));
            let line = string_of_range(&cur, 0, cur.len());
            assert(cur@.subrange(0, cur@.len() as int) =~= cur@);
            out.push(line);
            assert(string_views(out@) =~= spec_lines(raw@.take(i + 1)));
            cur = Vec::new();
            proof {
                j = i + 1;
                assert(cur@ =~= raw@.subrange(j, i + 1));
            }
        } else {
            cur.push(ch);
            assert(cur@ =~= raw@.subrange(j, i + 1));
        }
    }
    proof {
        assert(raw@ =~= raw@.take(j) + cur@);
        if j > 0 {
            assert(raw@.take(j).last() == raw@[j - 1]);
        }
        lemma_lines_concat(raw@.take(j), cur@);
        lemma_lines_without_newline(cur@);
    }
    if cur.len() > 0 {
        let line = string_of_range(&cur, 0, cur.len());
        assert(cur@.subrange(0, cur@.len() as int) =~= cur@);
        out.push(line);
        assert(string_views(out@) =~= spec_lines(raw@));
    } else {
        assert(spec_lines(raw@.take(j)) + spec_lines(cur@) =~= spec_lines(raw@.take(j)));
    }
    out
}

/// What width limiting makes of one line: a line that fits is kept, a
/// longer one is cut after `w` characters, or wrapped when `wrap` is set.
pub open spec fn spec_limit_line(line: Seq<char>, w: nat, wrap: bool) -> Seq<Seq<char>> {
    if line.len() <= w {
        seq![line]
    } else if !wrap {
        seq![line.take(w as int)]
    } else {
        wrap_segments(line, w)
    }
}

/// Width limiting applied to each line in turn, the results joined.
pub open spec fn spec_limit_all(lines: Seq<Seq<char>>, w: nat, wrap: bool) -> Seq<Seq<char>>
    decreases lines.len(),
{
    if lines.len() == 0 {
        Seq::empty()
    } else {
        spec_limit_all(lines.drop_last(), w, wrap) + spec_limit_line(lines.last(), w, wrap)
    }
}

/// The lines of `raw`, each with its tabs expanded.
pub open spec fn expanded_lines(raw: Seq<char>) -> Seq<Seq<char>> {
    spec_lines(raw).map_values(|l: Seq<char>| spec_expand_tabs(l))
}

/// The lines that `process_lines` produces.
pub open spec fn spec_process_lines(raw: Seq<char>, width: Option<usize>, wrap: bool) -> Seq<
    Seq<char>,
> {
    match width {
        None => expanded_lines(raw),
        Some(w) => spec_limit_all(expanded_lines(raw), w as nat, wrap),
    }
}

/// Wrapping at width 0 moves on only past spaces: it ends on a line made of
/// spaces, and never ends on any other non-empty line.
pub open spec fn wrap_makes_progress(raw: Seq<char>, width: Option<usize>, wrap: bool) -> bool {
    wrap && width == Some(0usize) ==> forall|i: int|
        0 <= i < expanded_lines(raw).len() ==> all_spaces(#[trigger] expanded_lines(raw)[i])
}

/// Index, counted from `lo`, of the last space in `cs[lo..hi]`.
fn rposition_space(cs: &Vec<char>, lo: usize, hi: usize) -> (r: Option<usize>)
    requires
        lo <= hi <= cs@.len(),
    ensures
        match r {
            Some(p) => last_space(cs@.subrange(lo as int, hi as int)) == Some(p as int),
            None => last_space(cs@.subrange(lo as int, hi as int)) is None,
        },
{
    let mut k = hi;
    while k > lo
        invariant
            lo <= k <= hi <= cs@.len(),
            last_space(cs@.subrange(lo as int, hi as int)) == last_space(
                cs@.subrange(lo as int, k as int),
            ),
        decreases k,
    {
        let ghost sub = cs@.subrange(lo as int, k as int);
        assert(sub.last() == cs@[k - 1]);
        if cs[k - 1] == ' ' {
            return Some(k - 1 - lo);
        }
        assert(sub.drop_last() =~= cs@.subrange(lo as int, k - 1));
        k -= 1;
    }
    None
}

/// Index, counted from `lo`, of the first character of `cs[lo..hi]` that is
/// not a space.
fn position_non_space(cs: &Vec<char>, lo: usize, hi: usize) -> (r: Option<usize>)
    requires
        lo <= hi <= cs@.len(),
    ensures
        match r {
            Some(p) => first_non_space(cs@.subrange(lo as int, hi as int)) == Some(p as int),
            None => first_non_space(cs@.subrange(lo as int, hi as int)) is None,
        },
{
    let mut k = lo;
    while k < hi
        invariant
            lo <= k <= hi <= cs@.len(),
            first_non_space(cs@.subrange(lo as int, hi as int)) == (match first_non_space(
                cs@.subrange(k as int, hi as int),
            ) {
                Some(m) => Some(m + (k - lo)),
                None => None::<int>,
            }),
        decreases hi - k,
    {
        let ghost sub = cs@.subrange(k as int, hi as int);
        assert(sub[0] == cs@[k as int]);
        if cs[k] != ' ' {
            return Some(k - lo);
        }
        assert(sub.drop_first() =~= cs@.subrange(k + 1, hi as int));
        k += 1;
    }
    None
}

/// One step of word-aware wrapping: the first segment, then the wrapping
/// of what follows it.
pub proof fn lemma_wrap_step(rem: Seq<char>, w: nat)
    requires
        rem.len() > w,
        w > 0 || all_spaces(rem),
    ensures
        ({
            let b = break_point(rem, w);
            let r = resume_point(rem, b);
            &&& 0 <= b <= w
            &&& b <= r
            &&& 0 < r <= rem.len()
            &&& w > 0 || all_spaces(rem.skip(r))
            &&& wrap_segments(rem, w) == seq![rem.take(b)] + wrap_segments(rem.skip(r), w)
        }),
{
    let b = break_point(rem, w);
    lemma_break_point_bounds(rem, w);
    lemma_resume_point_bounds(rem, b);
    let r = resume_point(rem, b);
    if w == 0 {
        assert(rem[0] == ' ');
        assert forall|i: int| 0 <= i < rem.skip(r).len() implies #[trigger] rem.skip(r)[i] == ' ' by {
            assert(rem.skip(r)[i] == rem[i + r]);
        }
    }
}

/// Width limiting of one line, as `spec_limit_line` states it.
#[verifier::spinoff_prover]
#[verifier::rlimit(40)]
fn limit_line(cs: &Vec<char>, w: usize, wrap: bool) -> (out: Vec<String>)
    requires
        wrap && cs@.len() > w ==> (w > 0 || all_spaces(cs@)),
    ensures
        string_views(out@) == spec_limit_line(cs@, w as nat, wrap),
{
    let n = cs.len();
    let mut out: Vec<String> = Vec::new();
    if n <= w {
        out.push(string_of_range(cs, 0, n));
        assert(cs@.subrange(0, n as int) =~= cs@);
        assert(string_views(out@) =~= seq![cs@]);
        return out;
    }
    if !wrap {
        out.push(string_of_range(cs, 0, w));
        assert(string_views(out@) =~= seq![cs@.take(w as int)]);
        return out;
    }
    // Word-aware wrapping: find the last space within the first `w` chars.
    let mut start: usize = 0;
    assert(cs@.skip(0) =~= cs@);
    assert(string_views(out@) + wrap_segments(cs@.skip(0), w as nat) =~= wrap_segments(
        cs@,
        w as nat,
    ));
    while n - start > w
        invariant
            start <= n == cs@.len(),
            w > 0 || all_spaces(cs@.skip(start as int)),
            string_views(out@) + wrap_segments(cs@.skip(start as int), w as nat) == wrap_segments(
                cs@,
                w as nat,
            ),
        decreases n - start,
    {
        let ghost rem = cs@.skip(start as int);
        proof {
            lemma_wrap_step(rem, w as nat);
        }
        let break_at = match rposition_space(cs, start, start + w) {
            Some(p) if p > 0 => p,
            _ => w,
        };
        assert(rem.take(w as int) =~= cs@.subrange(start as int, start + w));
        assert(break_at == break_point(rem, w as nat));
        let piece = string_of_range(cs, start, start + break_at);
        assert(rem.take(break_at as int) =~= cs@.subrange(start as int, start + break_at));
        // Skip the space we broke on, then any leading spaces on the next segment.
        let next = if break_at < n - start && cs[start + break_at] == ' ' {
            break_at + 1
        } else {
            break_at
        };
        let skip = match position_non_space(cs, start + next, n) {
            Some(k) => k,
            None => 0,
        };
        assert(rem.skip(next as int) =~= cs@.subrange(start + next, n as int));
        assert(next + skip == resume_point(rem, break_at as int));
        let ghost prev = string_views(out@);
        out.push(piece);
        assert(string_views(out@) =~= prev.push(rem.take(break_at as int)));
        start = start + next + skip;
        assert(rem.skip(resume_point(rem, break_at as int)) =~= cs@.skip(start as int));
        assert(string_views(out@) + wrap_segments(cs@.skip(start as int), w as nat) =~= prev
            + wrap_segments(rem, w as nat));
    }
    let ghost rem = cs@.skip(start as int);
    if start < n {
        out.push(string_of_range(cs, start, n));
        assert(rem =~= cs@.subrange(start as int, n as int));
        assert(string_views(out@) =~= string_views(out@).drop_last() + wrap_segments(rem, w as nat));
    } else {
        assert(wrap_segments(rem, w as nat) =~= Seq::<Seq<char>>::empty());
        assert(string_views(out@) + wrap_segments(rem, w as nat) =~= string_views(out@));
    }
    out
}

/// Whether `process_lines(raw, width, wrap)` comes to an end: it does unless
/// it wraps at width 0 a line with something other than spaces and tabs.
pub fn wraps_with_progress(raw: &str, width: Option<usize>, wrap: bool) -> (ok: bool)
    ensures
        ok == wrap_makes_progress(raw@, width, wrap),
{
    let zero_wrap = match width {
        Some(w) => wrap && w == 0,
        None => false,
    };
    if !zero_wrap {
        return true;
    }
    let lines = split_lines(raw);
    let mut i: usize = 0;
    while i < lines.len()
        invariant
            i <= lines@.len(),
            wrap && width == Some(0usize),
            string_views(lines@) == spec_lines(raw@),
            forall|j: int| 0 <= j < i ==> all_spaces(#[trigger] expanded_lines(raw@)[j]),
        decreases lines@.len() - i,
    {
        let expanded = chars_of(expand_tabs(lines[i].as_str()).as_str());
        assert(expanded@ == expanded_lines(raw@)[i as int]);
        let mut k: usize = 0;
        while k < expanded.len()
            invariant
                k <= expanded@.len(),
                wrap && width == Some(0usize),
                i < lines@.len() == expanded_lines(raw@).len(),
                expanded@ == expanded_lines(raw@)[i as int],
                forall|m: int| 0 <= m < k ==> expanded@[m] == ' ',
            decreases expanded@.len() - k,
        {
            if expanded[k] != ' ' {
                assert(!all_spaces(expanded_lines(raw@)[i as int]));
                return false;
            }
            k += 1;
        }
        i += 1;
    }
    true
}

/// Apply tab expansion, width limiting, and optional word-aware wrapping.
/// All indexing is Unicode-safe (char-based, not byte-based).
pub fn process_lines(raw: &str, width: Option<usize>, wrap: bool) -> (out: Vec<String>)
    requires
        wrap_makes_progress(raw@, width, wrap),
    ensures
        string_views(out@) == spec_process_lines(raw@, width, wrap),
{
    let lines = split_lines(raw);
    let mut expanded: Vec<String> = Vec::new();
    let mut i: usize = 0;
    while i < lines.len()
        invariant
            i <= lines@.len(),
            string_views(lines@) == spec_lines(raw@),
            string_views(expanded@) == expanded_lines(raw@).take(i as int),
        decreases lines@.len() - i,
    {
        let line = expand_tabs(lines[i].as_str());
        assert(lines@[i as int]@ == string_views(lines@)[i as int]);
        assert(line@ == expanded_lines(raw@)[i as int]);
        assert(expanded_lines(raw@).len() == lines@.len());
        let ghost prev = string_views(expanded@);
        expanded.push(line);
        assert(string_views(expanded@) =~= prev.push(line@));
        assert(expanded_lines(raw@).take(i + 1) =~= expanded_lines(raw@).take(i as int).push(line@));
        i += 1;
        assert(string_views(expanded@) =~= expanded_lines(raw@).take(i as int));
    }
    assert(expanded_lines(raw@).take(i as int) =~= expanded_lines(raw@));
    let w = match width {
        None => return expanded,
        Some(w) => w,
    };
    let mut out: Vec<String> = Vec::new();
    let mut i: usize = 0;
    while i < expanded.len()
        invariant
            i <= expanded@.len(),
            width == Some(w),
            wrap_makes_progress(raw@, width, wrap),
            string_views(expanded@) == expanded_lines(raw@),
            string_views(out@) == spec_limit_all(expanded_lines(raw@).take(i as int), w as nat, wrap),
        decreases expanded@.len() - i,
    {
        let chars = chars_of(expanded[i].as_str());
        assert(chars@ == expanded_lines(raw@)[i as int]);
        let mut pieces = limit_line(&chars, w, wrap);
        let ghost before = out@;
        out.append(&mut pieces);
        proof {
            let t = expanded_lines(raw@).take(i + 1);
            assert(t.drop_last() =~= expanded_lines(raw@).take(i as int));
            assert(string_views(out@) =~= string_views(before) + spec_limit_line(chars@, w as nat, wrap));
        }
        i += 1;
    }
    assert(expanded_lines(raw@).take(i as int) =~= expanded_lines(raw@));
    out
}

} // verus!
