//! Points, sizes and axis-aligned rectangles in device pixel coordinates.

use vstd::prelude::*;

verus! {

/// A pixel position. `x` grows to the right, `y` grows downwards.
#[derive(Clone, Copy, Debug, PartialEq, Eq, Structural)]
pub struct Point {
    pub x: i32,
    pub y: i32,
}

/// The extent of a rectangle in pixels.
#[derive(Clone, Copy, Debug, PartialEq, Eq, Structural)]
pub struct Size {
    pub width: u32,
    pub height: u32,
}

/// An axis-aligned rectangle: the pixels `(x, y)` with
/// `left <= x < right` and `top <= y < bottom`.
#[derive(Clone, Copy, Debug, PartialEq, Eq, Structural)]
pub struct Rect {
    pub top_left: Point,
    pub size: Size,
}

impl Point {
    /// The point `(x, y)`.
    pub fn new(x: i32, y: i32) -> (p: Point)
        ensures
            p == (Point { x, y }),
    {
        Point { x, y }
    }
}

impl Size {
    /// The extent `width` by `height`.
    pub fn new(width: u32, height: u32) -> (s: Size)
        ensures
            s == (Size { width, height }),
    {
        Size { width, height }
    }
}

impl Rect {
    /// The rectangle whose first pixel is `top_left` and which extends over `size`.
    pub fn new(top_left: Point, size: Size) -> (r: Rect)
        ensures
            r == (Rect { top_left, size }),
    {
        Rect { top_left, size }
    }

    /// The column of the leftmost pixels.
    pub open spec fn left(self) -> int {
        self.top_left.x as int
    }

    /// The column just past the rightmost pixels.
    pub open spec fn right(self) -> int {
        self.top_left.x + self.size.width
    }

    /// The row of the topmost pixels.
    pub open spec fn top(self) -> int {
        self.top_left.y as int
    }

    /// The row just past the lowest pixels.
    pub open spec fn bottom(self) -> int {
        self.top_left.y + self.size.height
    }

    /// Whether the pixel `(x, y)` lies in the rectangle.
    pub open spec fn contains(self, x: int, y: int) -> bool {
        self.left() <= x < self.right() && self.top() <= y < self.bottom()
    }

    /// Whether no pixel lies in both rectangles.
    pub open spec fn disjoint(self, other: Rect) -> bool {
        forall|x: int, y: int| !(#[trigger] self.contains(x, y) && other.contains(x, y))
    }

    /// Whether every pixel of `self` lies in `outer`.
    pub open spec fn within(self, outer: Rect) -> bool {
        forall|x: int, y: int| #[trigger] self.contains(x, y) ==> outer.contains(x, y)
    }
}

} // verus!
