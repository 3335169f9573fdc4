//! The four corner markers that show how the display is oriented.
//!
//! Each corner of the display gets a square of its own colour: green at the
//! top left, blue at the top right, yellow at the bottom left and magenta at
//! the bottom right.

use vstd::prelude::*;
use crate::color::Rgb565;
use crate::geometry::Point;
use crate::geometry::Rect;
use crate::geometry::Size;
use crate::surface::Fill;

verus! {

/// The side of a corner marker in pixels.
pub const MARKER_SIDE: u32 = 20;

/// The square marker whose top left pixel is at column `x` and row `y`.
pub open spec fn marker_at(x: int, y: int, color: Rgb565) -> Fill {
    Fill {
        area: Rect {
            top_left: Point { x: x as i32, y: y as i32 },
            size: Size { width: MARKER_SIDE, height: MARKER_SIDE },
        },
        color,
    }
}

/// The markers of a display of the given size: top left, top right, bottom
/// left, bottom right.
pub open spec fn marker_plan(display: Size) -> Seq<Fill> {
    let right = display.width - MARKER_SIDE;
    let low = display.height - MARKER_SIDE;
    seq![
        marker_at(0, 0, Rgb565 { r: 0, g: 63, b: 0 }),
        marker_at(right, 0, Rgb565 { r: 0, g: 0, b: 31 }),
        marker_at(0, low, Rgb565 { r: 31, g: 63, b: 0 }),
        marker_at(right, low, Rgb565 { r: 31, g: 0, b: 31 }),
    ]
}

/// The whole display as a rectangle.
pub open spec fn display_box(display: Size) -> Rect {
    Rect { top_left: Point { x: 0, y: 0 }, size: display }
}

/// Computes the four corner markers of a display.
///
/// On a display narrower or lower than a marker the markers start left of or
/// above the display, and it is for the surface to clip them.
pub fn corner_markers(display: Size) -> (markers: [Fill; 4])
    requires
        display.width <= i32::MAX,
        display.height <= i32::MAX,
    ensures
        markers@ == marker_plan(display),
        forall|i: int| 0 <= i < 4 ==> (#[trigger] markers[i]).color.in_gamut(),
{
    let side = Size::new(MARKER_SIDE, MARKER_SIDE);
    let right: i32 = display.width as i32 - MARKER_SIDE as i32;
    let low: i32 = display.height as i32 - MARKER_SIDE as i32;
    let markers = [
        Fill { area: Rect::new(Point::new(0, 0), side), color: Rgb565::new(0, 63, 0) },
        Fill { area: Rect::new(Point::new(right, 0), side), color: Rgb565::new(0, 0, 31) },
        Fill { area: Rect::new(Point::new(0, low), side), color: Rgb565::new(31, 63, 0) },
        Fill { area: Rect::new(Point::new(right, low), side), color: Rgb565::new(31, 0, 31) },
    ];
    assert(markers@ =~= marker_plan(display));
    markers
}

/// On a display that has room for a marker in each direction, every marker
/// lies within the display, and each touches the two sides of its corner.
pub proof fn lemma_markers_in_corners(display: Size)
    requires
        MARKER_SIDE <= display.width <= i32::MAX,
        MARKER_SIDE <= display.height <= i32::MAX,
    ensures
        forall|i: int|
            0 <= i < 4 ==> (#[trigger] marker_plan(display)[i]).area.within(display_box(display)),
        marker_plan(display)[0].area.left() == 0,
        marker_plan(display)[0].area.top() == 0,
        marker_plan(display)[1].area.right() == display.width,
        marker_plan(display)[1].area.top() == 0,
        marker_plan(display)[2].area.left() == 0,
        marker_plan(display)[2].area.bottom() == display.height,
        marker_plan(display)[3].area.right() == display.width,
        marker_plan(display)[3].area.bottom() == display.height,
{
}

} // verus!
