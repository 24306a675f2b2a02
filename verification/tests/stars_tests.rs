use swcat::stars::{make_stars, visible_stars, Star, LCG_INC, LCG_MUL, STAR_COUNT, STAR_SEED};

fn draws(n: usize) -> Vec<u64> {
    let mut seed = STAR_SEED;
    let mut out = Vec::new();
    for _ in 0..n {
        seed = seed.wrapping_mul(LCG_MUL).wrapping_add(LCG_INC);
        out.push(seed >> 33);
    }
    out
}

#[test]
fn starfield_has_fixed_size_and_stays_on_screen() {
    let stars = make_stars(24, 80);
    assert_eq!(stars.len(), STAR_COUNT);
    for s in &stars {
        assert!(s.row < 24 && s.col < 80);
        assert!(['*', '.', '\u{b7}', '+'].contains(&s.ch));
    }
}

#[test]
fn starfield_follows_the_generator() {
    let d = draws(6);
    let stars = make_stars(30, 100);
    let glyphs = ['*', '.', '\u{b7}', '+'];
    assert_eq!(stars[0], Star { row: (d[0] % 30) as u16, col: (d[1] % 100) as u16, ch: glyphs[(d[2] % 4) as usize] });
    assert_eq!(stars[1], Star { row: (d[3] % 30) as u16, col: (d[4] % 100) as u16, ch: glyphs[(d[5] % 4) as usize] });
}

#[test]
fn same_size_gives_same_stars() {
    assert_eq!(make_stars(40, 120), make_stars(40, 120));
}

#[test]
fn empty_screen_puts_every_star_at_origin() {
    for s in make_stars(0, 0) {
        assert_eq!((s.row, s.col), (0, 0));
    }
}

#[test]
fn visible_stars_keeps_those_on_screen_in_order() {
    let stars = vec![
        Star { row: 1, col: 1, ch: '*' },
        Star { row: 10, col: 1, ch: '.' },
        Star { row: 2, col: 9, ch: '+' },
        Star { row: 3, col: 3, ch: '*' },
    ];
    let shown = visible_stars(&stars, 5, 5);
    assert_eq!(shown, vec![stars[0], stars[3]]);
    assert_eq!(visible_stars(&stars, 0, 0), Vec::<Star>::new());
}
