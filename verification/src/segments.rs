//! The seven-segment glyph: which segments each digit lights, and where the
//! segments lie relative to the anchor of a glyph.
//!
//! The segments are counted in one fixed order: top, top right, bottom right,
//! bottom, bottom left, top left, middle.

use vstd::prelude::*;
use crate::color::Rgb565;
use crate::geometry::Point;
use crate::geometry::Rect;
use crate::geometry::Size;
use crate::surface::Fill;

verus! {

/// The number of segments of a glyph.
pub const SEGMENTS: usize = 7;

/// The width of a glyph in pixels.
pub const GLYPH_WIDTH: u32 = 21;

/// The height of a glyph in pixels.
pub const GLYPH_HEIGHT: u32 = 43;

/// The segments that `digit` lights, in the fixed order of the segments.
/// This table defines the glyphs.
pub open spec fn pattern_row(digit: u8) -> Seq<bool> {
    match digit {
        0 => seq![true, true, true, true, true, true, false],
        1 => seq![false, true, true, false, false, false, false],
        2 => seq![true, true, false, true, true, false, true],
        3 => seq![true, true, true, true, false, false, true],
        4 => seq![false, true, true, false, false, true, true],
        5 => seq![true, false, true, true, false, true, true],
        6 => seq![true, false, true, true, true, true, true],
        7 => seq![true, true, true, false, false, false, false],
        8 => seq![true, true, true, true, true, true, true],
        _ => seq![true, true, true, true, false, true, true],
    }
}

/// Whether a glyph anchored at `anchor` has all its segments start inside the
/// coordinate space.
pub open spec fn anchor_in_range(anchor: Point) -> bool {
    anchor.x + 18 <= i32::MAX && anchor.y + 40 <= i32::MAX
}

/// The rectangle of the given size that starts `dx` to the right of and `dy`
/// below `anchor`.
pub open spec fn area_at(anchor: Point, dx: int, dy: int, width: u32, height: u32) -> Rect {
    Rect {
        top_left: Point { x: (anchor.x + dx) as i32, y: (anchor.y + dy) as i32 },
        size: Size { width, height },
    }
}

/// The rectangles of the seven segments of a glyph anchored at `anchor`, in
/// the fixed order. They do not depend on the digit.
pub open spec fn segment_areas(anchor: Point) -> Seq<Rect> {
    seq![
        area_at(anchor, 2, 0, 16, 3),
        area_at(anchor, 18, 2, 3, 18),
        area_at(anchor, 18, 22, 3, 18),
        area_at(anchor, 2, 40, 16, 3),
        area_at(anchor, 0, 22, 3, 18),
        area_at(anchor, 0, 2, 3, 18),
        area_at(anchor, 2, 20, 16, 3),
    ]
}

/// The fills that draw `digit` at `anchor`: every segment in the fixed order,
/// lit or unlit as the pattern table says.
pub open spec fn digit_plan(digit: u8, anchor: Point) -> Seq<Fill> {
    Seq::new(
        SEGMENTS as nat,
        |i: int|
            Fill {
                area: segment_areas(anchor)[i],
                color: Rgb565::of_segment(pattern_row(digit)[i]),
            },
    )
}

/// The rectangle that a glyph anchored at `anchor` occupies.
pub open spec fn glyph_box(anchor: Point) -> Rect {
    Rect { top_left: anchor, size: Size { width: GLYPH_WIDTH, height: GLYPH_HEIGHT } }
}

/// Whether a glyph can be anchored at `anchor`.
pub fn anchor_fits(anchor: Point) -> (fits: bool)
    ensures
        fits == anchor_in_range(anchor),
{
    anchor.x <= i32::MAX - 18 && anchor.y <= i32::MAX - 40
}

/// Looks up the row of the pattern table for `digit`.
pub fn segment_pattern(digit: u8) -> (row: [bool; 7])
    requires
        digit <= 9,
    ensures
        row@ == pattern_row(digit),
{
    let table: [[bool; 7]; 10] = [
        [true, true, true, true, true, true, false],
        [false, true, true, false, false, false, false],
        [true, true, false, true, true, false, true],
        [true, true, true, true, false, false, true],
        [false, true, true, false, false, true, true],
        [true, false, true, true, false, true, true],
        [true, false, true, true, true, true, true],
        [true, true, true, false, false, false, false],
        [true, true, true, true, true, true, true],
        [true, true, true, true, false, true, true],
    ];
    let row = table[digit as usize];
    assert(row@ =~= pattern_row(digit));
    row
}

/// Computes the rectangles of the seven segments of a glyph.
pub fn segment_rects(anchor: Point) -> (areas: [Rect; 7])
    requires
        anchor_in_range(anchor),
    ensures
        areas@ == segment_areas(anchor),
{
    let x = anchor.x;
    let y = anchor.y;
    let areas = [
        Rect::new(Point::new(x + 2, y), Size::new(16, 3)),
        Rect::new(Point::new(x + 18, y + 2), Size::new(3, 18)),
        Rect::new(Point::new(x + 18, y + 22), Size::new(3, 18)),
        Rect::new(Point::new(x + 2, y + 40), Size::new(16, 3)),
        Rect::new(Point::new(x, y + 22), Size::new(3, 18)),
        Rect::new(Point::new(x, y + 2), Size::new(3, 18)),
        Rect::new(Point::new(x + 2, y + 20), Size::new(16, 3)),
    ];
    assert(areas@ =~= segment_areas(anchor));
    areas
}

/// Computes the seven fills that draw `digit` at `anchor`.
pub fn digit_fills(digit: u8, anchor: Point) -> (fills: [Fill; 7])
    requires
        digit <= 9,
        anchor_in_range(anchor),
    ensures
        fills@ == digit_plan(digit, anchor),
{
    let areas = segment_rects(anchor);
    let row = segment_pattern(digit);
    let fills = [
        Fill { area: areas[0], color: Rgb565::for_segment(row[0]) },
        Fill { area: areas[1], color: Rgb565::for_segment(row[1]) },
        Fill { area: areas[2], color: Rgb565::for_segment(row[2]) },
        Fill { area: areas[3], color: Rgb565::for_segment(row[3]) },
        Fill { area: areas[4], color: Rgb565::for_segment(row[4]) },
        Fill { area: areas[5], color: Rgb565::for_segment(row[5]) },
        Fill { area: areas[6], color: Rgb565::for_segment(row[6]) },
    ];
    assert(fills@ =~= digit_plan(digit, anchor));
    fills
}

/// Whether the two segments are one of the two pairs that meet in a corner
/// pixel: the top bar with the top left bar, and the middle bar with the
/// bottom left bar.
pub open spec fn share_corner(i: int, j: int) -> bool {
    ||| i == 0 && j == 5
    ||| i == 5 && j == 0
    ||| i == 4 && j == 6
    ||| i == 6 && j == 4
}

/// Whether `outer` is the bounding box of `areas`: every area lies within
/// it, and on each of its four sides some area reaches the side.
pub open spec fn is_bounding_box(outer: Rect, areas: Seq<Rect>) -> bool {
    &&& forall|i: int| 0 <= i < areas.len() ==> (#[trigger] areas[i]).within(outer)
    &&& exists|i: int| 0 <= i < areas.len() && (#[trigger] areas[i]).left() == outer.left()
    &&& exists|i: int| 0 <= i < areas.len() && (#[trigger] areas[i]).right() == outer.right()
    &&& exists|i: int| 0 <= i < areas.len() && (#[trigger] areas[i]).top() == outer.top()
    &&& exists|i: int| 0 <= i < areas.len() && (#[trigger] areas[i]).bottom() == outer.bottom()
}

/// Two different segments of a glyph have no pixel in common, unless they
/// are one of the two pairs that meet in a corner pixel.
pub proof fn lemma_segments_disjoint(anchor: Point, i: int, j: int)
    requires
        anchor_in_range(anchor),
        0 <= i < SEGMENTS,
        0 <= j < SEGMENTS,
        i != j,
        !share_corner(i, j),
    ensures
        segment_areas(anchor)[i].disjoint(segment_areas(anchor)[j]),
{
}

/// The top bar and the top left bar have exactly one pixel in common, two
/// to the right of and two below the anchor. The middle bar and the bottom
/// left bar have exactly one in common, two to the right of and twenty-two
/// below the anchor.
pub proof fn lemma_shared_corners(anchor: Point)
    requires
        anchor_in_range(anchor),
    ensures
        forall|x: int, y: int|
            (#[trigger] segment_areas(anchor)[0].contains(x, y) && segment_areas(
                anchor,
            )[5].contains(x, y)) <==> (x == anchor.x + 2 && y == anchor.y + 2),
        forall|x: int, y: int|
            (#[trigger] segment_areas(anchor)[6].contains(x, y) && segment_areas(
                anchor,
            )[4].contains(x, y)) <==> (x == anchor.x + 2 && y == anchor.y + 22),
{
}

/// The segments of a glyph fill a box of `GLYPH_WIDTH` by `GLYPH_HEIGHT`
/// pixels that starts at the anchor, whatever the digit.
pub proof fn lemma_glyph_bounding_box(anchor: Point)
    requires
        anchor_in_range(anchor),
    ensures
        segment_areas(anchor).len() == SEGMENTS,
        is_bounding_box(glyph_box(anchor), segment_areas(anchor)),
{
    let areas = segment_areas(anchor);
    let outer = glyph_box(anchor);
    assert(areas[5].left() == outer.left());
    assert(areas[1].right() == outer.right());
    assert(areas[0].top() == outer.top());
    assert(areas[3].bottom() == outer.bottom());
}

/// The plan of a digit has one fill for each segment, on the rectangle of
/// that segment, so its rectangles are the same for every digit.
pub proof fn lemma_plan_covers_segments(digit: u8, anchor: Point)
    ensures
        digit_plan(digit, anchor).len() == SEGMENTS,
        forall|i: int|
            0 <= i < SEGMENTS ==> (#[trigger] digit_plan(digit, anchor)[i]).area == segment_areas(
                anchor,
            )[i],
{
}

/// A segment is filled in the lit colour exactly when the pattern table
/// lights it, and the two colours differ.
pub proof fn lemma_plan_colors(digit: u8, anchor: Point, i: int)
    requires
        0 <= i < SEGMENTS,
    ensures
        Rgb565::lit() != Rgb565::unlit(),
        digit_plan(digit, anchor)[i].color == Rgb565::lit() <==> pattern_row(digit)[i],
        digit_plan(digit, anchor)[i].color == Rgb565::unlit() <==> !pattern_row(digit)[i],
{
}

} // verus!
