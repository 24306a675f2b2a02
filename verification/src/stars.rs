//! The fixed starfield drawn behind the logo and the crawl.

use vstd::prelude::*;

verus! {

/// How many stars a starfield holds.
pub const STAR_COUNT: usize = 180;

/// The generator's starting state.
pub const STAR_SEED: u64 = 0xdeadbeef_cafe1234;

/// Multiplier of the linear congruential generator.
pub const LCG_MUL: u64 = 6364136223846793005;

/// Increment of the linear congruential generator.
pub const LCG_INC: u64 = 1442695040888963407;

/// One star: a cell of the terminal and the glyph drawn there.
#[derive(Debug, Clone, Copy, PartialEq, Eq, Structural)]
pub struct Star {
    pub row: u16,
    pub col: u16,
    pub ch: char,
}

/// The generator's next state: `seed * LCG_MUL + LCG_INC`, modulo 2^64.
pub open spec fn lcg_next(seed: u64) -> u64 {
    vstd::wrapping::u64_specs::wrapping_add(
        vstd::wrapping::u64_specs::wrapping_mul(seed, LCG_MUL),
        LCG_INC,
    )
}

/// The generator's state after `n` steps from `STAR_SEED`.
pub open spec fn lcg_state(n: nat) -> u64
    decreases n,
{
    if n == 0 {
        STAR_SEED
    } else {
        lcg_next(lcg_state((n - 1) as nat))
    }
}

/// The `n`-th number drawn (counting from 0): the top 31 bits of the state
/// after `n + 1` steps.
pub open spec fn lcg_draw(n: nat) -> u64 {
    lcg_state(n + 1) >> 33u64
}

/// The glyphs a star may have.
pub open spec fn star_glyph(k: u64) -> char {
    if k == 0 {
        '*'
    } else if k == 1 {
        '.'
    } else if k == 2 {
        '\u{b7}'
    } else {
        '+'
    }
}

/// The number of positions along an axis of `n` cells (at least one).
pub open spec fn span(n: u16) -> u64 {
    if n >= 1 { n as u64 } else { 1 }
}

/// The `i`-th star of a starfield made for `rows` by `cols` cells: three
/// consecutive draws give its row, its column and its glyph.
pub open spec fn spec_star(i: nat, rows: u16, cols: u16) -> Star {
    Star {
        row: (lcg_draw(3 * i) % span(rows)) as u16,
        col: (lcg_draw(3 * i + 1) % span(cols)) as u16,
        ch: star_glyph(lcg_draw(3 * i + 2) % 4),
    }
}

fn lcg_step(seed: u64) -> (next: u64)
    ensures
        next == lcg_next(seed),
{
    seed.wrapping_mul(LCG_MUL).wrapping_add(LCG_INC)
}

/// The starfield for a screen of `rows` by `cols` cells. The same size
/// always gives the same stars.
pub fn make_stars(rows: u16, cols: u16) -> (stars: Vec<Star>)
    ensures
        stars@.len() == STAR_COUNT,
        forall|i: int| 0 <= i < STAR_COUNT ==> #[trigger] stars@[i] == spec_star(i as nat, rows, cols),
        forall|i: int|
            0 <= i < STAR_COUNT ==> (#[trigger] stars@[i]).row < span(rows) && stars@[i].col
                < span(cols),
{
    let mut seed: u64 = STAR_SEED;
    let chars = ['*', '.', '\u{b7}', '+'];
    let row_span = rows.max(1) as u64;
    let col_span = cols.max(1) as u64;
    let mut stars: Vec<Star> = Vec::new();
    let mut i: usize = 0;
    while i < STAR_COUNT
        invariant
            i <= STAR_COUNT,
            seed == lcg_state(3 * i as nat),
            row_span == span(rows),
            col_span == span(cols),
            chars@ == seq!['*', '.', '\u{b7}', '+'],
            stars@.len() == i,
            forall|j: int| 0 <= j < i ==> #[trigger] stars@[j] == spec_star(j as nat, rows, cols),
        decreases STAR_COUNT - i,
    {
        seed = lcg_step(seed);
        let row = ((seed >> 33) % row_span) as u16;
        seed = lcg_step(seed);
        let col = ((seed >> 33) % col_span) as u16;
        seed = lcg_step(seed);
        let ch = chars[((seed >> 33) % chars.len() as u64) as usize];
        proof {
            assert(lcg_state(3 * i as nat + 1) == lcg_next(lcg_state(3 * i as nat)));
            assert(lcg_state(3 * i as nat + 2) == lcg_next(lcg_state(3 * i as nat + 1)));
            assert(lcg_state(3 * i as nat + 3) == lcg_next(lcg_state(3 * i as nat + 2)));
        }
        stars.push(Star { row, col, ch });
        i += 1;
    }
    stars
}

/// True when `star` lies inside a screen of `width` by `height` cells.
pub open spec fn star_on_screen(star: Star, width: u16, height: u16) -> bool {
    star.row < height && star.col < width
}

/// The stars that lie inside a screen of `width` by `height` cells, in order.
pub fn visible_stars(stars: &Vec<Star>, width: u16, height: u16) -> (shown: Vec<Star>)
    ensures
        shown@ == stars@.filter(|s: Star| star_on_screen(s, width, height)),
{
    let ghost on_screen = |s: Star| star_on_screen(s, width, height);
    let mut shown: Vec<Star> = Vec::new();
    let mut i: usize = 0;
    while i < stars.len()
        invariant
            i <= stars@.len(),
            on_screen == (|s: Star| star_on_screen(s, width, height)),
            shown@ == stars@.take(i as int).filter(on_screen),
        decreases stars@.len() - i,
    {
        let s = stars[i];
        proof {
            reveal_with_fuel(Seq::filter, 1);
            assert(stars@.take(i + 1).drop_last() =~= stars@.take(i as int));
        }
        if s.row < height && s.col < width {
            shown.push(s);
        }
        i += 1;
    }
    assert(stars@.take(i as int) =~= stars@);
    shown
}

/// The stars of `stars` that lie inside a screen of `width` by `height`
/// cells, in order.
pub open spec fn stars_on_screen(stars: Seq<Star>, width: u16, height: u16) -> Seq<Star> {
    stars.filter(|s: Star| star_on_screen(s, width, height))
}

/// Law: the stars kept are exactly those of the field that lie on screen
/// (row above `height`, column left of `width`), and nothing else.
pub proof fn law_visible_stars_are_those_on_screen(stars: Seq<Star>, width: u16, height: u16)
    ensures
        forall|i: int|
            0 <= i < stars_on_screen(stars, width, height).len() ==> (#[trigger] stars_on_screen(
                stars,
                width,
                height,
            )[i]).row < height && stars_on_screen(stars, width, height)[i].col < width
                && stars.contains(stars_on_screen(stars, width, height)[i]),
        forall|i: int|
            0 <= i < stars.len() && (#[trigger] stars[i]).row < height && stars[i].col < width
                ==> stars_on_screen(stars, width, height).contains(stars[i]),
{
    broadcast use vstd::seq_lib::group_filter_ensures;

    let pred = |s: Star| star_on_screen(s, width, height);
    assert forall|i: int| 0 <= i < stars.filter(pred).len() implies #[trigger] stars.contains(
        stars.filter(pred)[i],
    ) by {
        assert(stars.filter(pred).contains(stars.filter(pred)[i]));
        stars.lemma_filter_contains_rev(pred, stars.filter(pred)[i]);
    }
}

} // verus!
