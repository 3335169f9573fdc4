use segment_display::color::Rgb565;
use segment_display::geometry::Point;
use segment_display::geometry::Rect;
use segment_display::geometry::Size;
use segment_display::segments::anchor_fits;
use segment_display::segments::digit_fills;
use segment_display::segments::segment_pattern;
use segment_display::segments::segment_rects;
use segment_display::segments::GLYPH_HEIGHT;
use segment_display::segments::GLYPH_WIDTH;
use segment_display::segments::SEGMENTS;

fn rect(x: i32, y: i32, width: u32, height: u32) -> Rect {
    Rect::new(Point::new(x, y), Size::new(width, height))
}

fn shared_pixels(a: &Rect, b: &Rect) -> Vec<(i64, i64)> {
    let mut shared = Vec::new();
    for x in a.top_left.x as i64..a.top_left.x as i64 + a.size.width as i64 {
        for y in a.top_left.y as i64..a.top_left.y as i64 + a.size.height as i64 {
            let in_b_x = b.top_left.x as i64 <= x && x < b.top_left.x as i64 + b.size.width as i64;
            let in_b_y = b.top_left.y as i64 <= y && y < b.top_left.y as i64 + b.size.height as i64;
            if in_b_x && in_b_y {
                shared.push((x, y));
            }
        }
    }
    shared
}

#[test]
fn pattern_table_rows() {
    let t = true;
    let f = false;
    assert_eq!(segment_pattern(0), [t, t, t, t, t, t, f]);
    assert_eq!(segment_pattern(1), [f, t, t, f, f, f, f]);
    assert_eq!(segment_pattern(2), [t, t, f, t, t, f, t]);
    assert_eq!(segment_pattern(3), [t, t, t, t, f, f, t]);
    assert_eq!(segment_pattern(4), [f, t, t, f, f, t, t]);
    assert_eq!(segment_pattern(5), [t, f, t, t, f, t, t]);
    assert_eq!(segment_pattern(6), [t, f, t, t, t, t, t]);
    assert_eq!(segment_pattern(7), [t, t, t, f, f, f, f]);
    assert_eq!(segment_pattern(8), [t, t, t, t, t, t, t]);
    assert_eq!(segment_pattern(9), [t, t, t, t, f, t, t]);
}

#[test]
fn pattern_table_is_stable() {
    for digit in 0..=9u8 {
        assert_eq!(segment_pattern(digit), segment_pattern(digit));
    }
}

#[test]
fn segment_rects_at_origin() {
    assert_eq!(
        segment_rects(Point::new(0, 0)),
        [
            rect(2, 0, 16, 3),
            rect(18, 2, 3, 18),
            rect(18, 22, 3, 18),
            rect(2, 40, 16, 3),
            rect(0, 22, 3, 18),
            rect(0, 2, 3, 18),
            rect(2, 20, 16, 3),
        ]
    );
}

#[test]
fn segment_rects_follow_the_anchor() {
    assert_eq!(
        segment_rects(Point::new(50, -7)),
        [
            rect(52, -7, 16, 3),
            rect(68, -5, 3, 18),
            rect(68, 15, 3, 18),
            rect(52, 33, 16, 3),
            rect(50, 15, 3, 18),
            rect(50, -5, 3, 18),
            rect(52, 13, 16, 3),
        ]
    );
}

#[test]
fn segments_are_disjoint_but_for_two_corner_pixels() {
    let anchor = Point::new(30, 40);
    let areas = segment_rects(anchor);
    for i in 0..SEGMENTS {
        for j in 0..SEGMENTS {
            if i == j {
                continue;
            }
            let shared = shared_pixels(&areas[i], &areas[j]);
            if (i, j) == (0, 5) || (i, j) == (5, 0) {
                assert_eq!(shared, vec![(32, 42)]);
            } else if (i, j) == (4, 6) || (i, j) == (6, 4) {
                assert_eq!(shared, vec![(32, 62)]);
            } else {
                assert!(shared.is_empty(), "segments {} and {} overlap", i, j);
            }
        }
    }
}

#[test]
fn glyph_bounding_box_is_21_by_43() {
    assert_eq!(GLYPH_WIDTH, 21);
    assert_eq!(GLYPH_HEIGHT, 43);
    let anchor = Point::new(-5, 9);
    for digit in 0..=9u8 {
        let fills = digit_fills(digit, anchor);
        let left = fills.iter().map(|f| f.area.top_left.x as i64).min();
        let top = fills.iter().map(|f| f.area.top_left.y as i64).min();
        let right = fills.iter().map(|f| f.area.top_left.x as i64 + f.area.size.width as i64).max();
        let bottom = fills.iter().map(|f| f.area.top_left.y as i64 + f.area.size.height as i64).max();
        assert_eq!(left, Some(-5));
        assert_eq!(top, Some(9));
        assert_eq!(right, Some(-5 + 21));
        assert_eq!(bottom, Some(9 + 43));
    }
}

#[test]
fn digit_fills_pair_rects_with_colors() {
    let anchor = Point::new(50, 50);
    let lit = Rgb565::new(0, 63, 0);
    let dim = Rgb565::new(2, 2, 2);
    let fills = digit_fills(4, anchor);
    let areas = segment_rects(anchor);
    let colors = [dim, lit, lit, dim, dim, lit, lit];
    assert_eq!(fills.len(), 7);
    for i in 0..SEGMENTS {
        assert_eq!(fills[i].area, areas[i]);
        assert_eq!(fills[i].color, colors[i]);
    }
}

#[test]
fn digit_fills_follow_the_pattern_for_every_digit() {
    let anchor = Point::new(0, 0);
    for digit in 0..=9u8 {
        let row = segment_pattern(digit);
        let fills = digit_fills(digit, anchor);
        for i in 0..SEGMENTS {
            assert_eq!(fills[i].color, Rgb565::for_segment(row[i]));
        }
    }
}

#[test]
fn digit_fills_are_repeatable() {
    for digit in 0..=9u8 {
        let anchor = Point::new(12, 34);
        assert_eq!(digit_fills(digit, anchor), digit_fills(digit, anchor));
    }
}

#[test]
fn eight_lights_everything_and_one_only_the_right() {
    let lit = Rgb565::new(0, 63, 0);
    let eight = digit_fills(8, Point::new(0, 0));
    assert!(eight.iter().all(|f| f.color == lit));
    let one = digit_fills(1, Point::new(0, 0));
    let lit_places: Vec<usize> = (0..SEGMENTS).filter(|&i| one[i].color == lit).collect();
    assert_eq!(lit_places, vec![1, 2]);
}

#[test]
fn anchor_fits_up_to_the_edge_of_the_coordinates() {
    assert!(anchor_fits(Point::new(0, 0)));
    assert!(anchor_fits(Point::new(i32::MIN, i32::MIN)));
    assert!(anchor_fits(Point::new(i32::MAX - 18, i32::MAX - 40)));
    assert!(!anchor_fits(Point::new(i32::MAX - 17, 0)));
    assert!(!anchor_fits(Point::new(0, i32::MAX - 39)));
    assert!(!anchor_fits(Point::new(i32::MAX, i32::MAX)));
}

#[test]
fn segment_rects_at_the_last_anchor_that_fits() {
    let areas = segment_rects(Point::new(i32::MAX - 18, i32::MAX - 40));
    assert_eq!(areas[1].top_left, Point::new(i32::MAX, i32::MAX - 38));
    assert_eq!(areas[3].top_left, Point::new(i32::MAX - 16, i32::MAX));
}
