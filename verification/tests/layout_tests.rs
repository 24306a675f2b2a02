use swcat::crawl::{band_fits_screen, center_clip, crawl_rows, MAX_W};
use swcat::layout::{centered_block, centered_sub, text_block_size, Rect};

#[test]
fn rect_new_clamps_to_coordinate_space() {
    assert_eq!(Rect::new(65000, 10, 1000, 5), Rect { x: 65000, y: 10, width: 535, height: 5 });
    assert_eq!(Rect::new(1, 65535, 4, 9), Rect { x: 1, y: 65535, width: 4, height: 0 });
    assert_eq!(Rect::new(3, 4, 5, 6), Rect { x: 3, y: 4, width: 5, height: 6 });
}

#[test]
fn centered_sub_takes_a_share_of_the_width() {
    let area = Rect { x: 0, y: 0, width: 100, height: 30 };
    assert_eq!(centered_sub(area, 60, 5), Rect { x: 20, y: 12, width: 60, height: 5 });
    assert_eq!(centered_sub(area, 0, 40), Rect { x: 49, y: 0, width: 1, height: 30 });
    let empty = Rect { x: 2, y: 3, width: 0, height: 0 };
    assert_eq!(centered_sub(empty, 70, 7), Rect { x: 2, y: 3, width: 0, height: 0 });
}

#[test]
fn centred_corner_may_sit_near_the_coordinate_limit() {
    let area = Rect { x: 65000, y: 0, width: 1000, height: 10 };
    assert_eq!(centered_sub(area, 1, 5), Rect { x: 65495, y: 2, width: 10, height: 5 });
    assert_eq!(centered_block(area, 10, 4), Rect { x: 65495, y: 3, width: 10, height: 4 });
}

#[test]
fn prologue_block_size() {
    let text = "A long time ago in a terminal far,\nfar away....";
    assert_eq!(text_block_size(text), (34, 2));
    assert_eq!(text_block_size(""), (0, 0));
}

#[test]
fn centered_block_in_area() {
    let area = Rect { x: 0, y: 0, width: 80, height: 24 };
    assert_eq!(centered_block(area, 34, 2), Rect { x: 23, y: 11, width: 34, height: 2 });
    let small = Rect { x: 5, y: 1, width: 10, height: 1 };
    assert_eq!(centered_block(small, 34, 2), Rect { x: 5, y: 1, width: 10, height: 1 });
}

fn lines(v: &[&str]) -> Vec<String> {
    v.iter().map(|s| s.to_string()).collect()
}

#[test]
fn crawl_band_geometry() {
    let text = lines(&["", "TITLE", "", "hello", "world"]);
    let rows = crawl_rows(80, 10, 4, &text, false, false);
    assert_eq!(rows.len(), 10);
    // bottom row: full band, shows line 4
    let bottom = rows[9].as_ref().unwrap();
    assert_eq!((bottom.depth, bottom.slash_col, bottom.backslash_col), (0, 1, 1 + MAX_W + 1));
    let t = bottom.text.as_ref().unwrap();
    assert_eq!(t.text, "world");
    assert_eq!(t.col, 2 + (75 - 5) / 2);
    // row above shows line 3, one column narrower on each side
    let above = rows[8].as_ref().unwrap();
    assert_eq!((above.depth, above.slash_col, above.backslash_col), (1, 2, 76));
    assert_eq!(above.text.as_ref().unwrap().text, "hello");
    // line 2 is empty and line -1 does not exist
    assert!(rows[7].as_ref().unwrap().text.is_none());
    assert!(rows[4].as_ref().unwrap().text.is_none());
    // the title on line 1
    assert_eq!(rows[6].as_ref().unwrap().text.as_ref().unwrap().text, "TITLE");
}

#[test]
fn crawl_text_never_covers_border() {
    let long = "x".repeat(200);
    let text = lines(&["a", &long, "bb", &long, "c"]);
    for h in 1..40 {
        for left in [false, true] {
            for row in crawl_rows(100, h, 3, &text, true, left).into_iter().flatten() {
                if let Some(t) = &row.text {
                    assert!(row.slash_col < t.col);
                    assert!(t.col + t.text.chars().count() <= row.backslash_col);
                }
            }
        }
    }
}

#[test]
fn crawl_left_alignment_keeps_title_centred() {
    let text = lines(&["", "TITLE", "", "body"]);
    let rows = crawl_rows(80, 4, 3, &text, false, true);
    let body = rows[3].as_ref().unwrap();
    assert_eq!(body.text.as_ref().unwrap().col, body.slash_col + 1);
    let title = rows[1].as_ref().unwrap();
    let inner = title.backslash_col - title.slash_col - 1;
    assert_eq!(title.text.as_ref().unwrap().col, title.slash_col + 1 + (inner - 5) / 2);
}

#[test]
fn crawl_band_closes_on_tall_narrow_screens() {
    // The edges meet at depth 38 on a 77-column band.
    let rows = crawl_rows(77, 60, 0, &Vec::new(), true, false);
    assert!(rows[0].is_none());
    assert!(rows[59].is_some());
    let top_drawn = rows.iter().position(|r| r.is_some()).unwrap();
    assert_eq!(rows[top_drawn].as_ref().unwrap().depth, 37);
}

#[test]
fn center_clip_takes_the_middle() {
    assert_eq!(center_clip(&"abcdefgh".to_string(), 4, 10), (3, "cdef".to_string()));
    assert_eq!(center_clip(&"abc".to_string(), 7, 11), (2 + 2, "abc".to_string()));
    assert_eq!(center_clip(&"abcdefg".to_string(), 4, 2), (0, "bcde".to_string()));
}

#[test]
fn crawl_band_narrows_going_up() {
    for (w, h) in [(80, 30), (120, 50), (77, 70), (200, 10)] {
        let rows = crawl_rows(w, h, 0, &Vec::new(), true, false);
        let widths: Vec<Option<usize>> = rows
            .iter()
            .map(|r| r.as_ref().map(|r| r.backslash_col - r.slash_col))
            .collect();
        for r in 1..h {
            if let Some(upper) = widths[r - 1] {
                let lower = widths[r].expect("a row below a drawn row is drawn");
                assert!(upper <= lower);
            }
        }
    }
}

#[test]
fn band_fits_only_short_enough_screens() {
    assert!(band_fits_screen(80, 78));
    assert!(!band_fits_screen(80, 79));
    assert!(band_fits_screen(0, 0));
    assert!(band_fits_screen(200, 138));
    assert!(!band_fits_screen(200, 139));
}

#[test]
fn crawl_before_the_first_line_shows_nothing() {
    let text = lines(&["a", "b"]);
    let rows = crawl_rows(80, 5, -3, &text, true, false);
    assert!(rows.iter().flatten().all(|r| r.text.is_none()));
}
