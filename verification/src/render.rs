//! Drawing one digit onto a canvas.

use vstd::prelude::*;
use crate::geometry::Point;
use crate::geometry::Rect;
use crate::run::fills_of;
use crate::run::lemma_complete_run;
use crate::run::ran_fail_fast;
use crate::segments::anchor_in_range;
use crate::segments::digit_fills;
use crate::segments::digit_plan;
use crate::segments::glyph_box;
use crate::segments::is_bounding_box;
use crate::segments::lemma_glyph_bounding_box;
use crate::segments::lemma_segments_disjoint;
use crate::segments::segment_areas;
use crate::segments::share_corner;
use crate::segments::SEGMENTS;
use crate::surface::Attempt;
use crate::surface::Canvas;
use crate::surface::Fill;
use crate::surface::FillRect;

verus! {

/// Why a digit was not drawn, or not drawn whole.
#[derive(Debug, PartialEq, Eq)]
pub enum DrawError<E> {
    /// The value to draw is not a decimal digit. Nothing was drawn.
    InvalidDigit,
    /// The surface failed a fill; this is what it reported. The segments
    /// before the failing one are drawn, those after it are not.
    Io(E),
}

/// The rectangles of a list of fills.
pub open spec fn areas_of(fills: Seq<Fill>) -> Seq<Rect> {
    Seq::new(fills.len(), |i: int| fills[i].area)
}

/// Draws `digit` as a seven-segment glyph whose top left corner is `anchor`.
///
/// A value above 9 is refused before anything is drawn. Otherwise the seven
/// segments are filled in their fixed order, lit or unlit, and the first
/// fill that fails ends the drawing with its error.
///
/// Nothing is cleared first: the digit is drawn on top of what the surface
/// shows, and only the seven segments are painted.
pub fn render_digit<S: FillRect>(digit: u8, anchor: Point, canvas: &mut Canvas<S>) -> (result:
    Result<(), DrawError<S::Error>>)
    requires
        digit <= 9 ==> anchor_in_range(anchor),
    ensures
        digit > 9 ==> result == Err::<(), DrawError<S::Error>>(DrawError::InvalidDigit)
            && final(canvas).attempts() == old(canvas).attempts(),
        digit <= 9 ==> match result {
            Ok(_) => ran_fail_fast(
                old(canvas).attempts(),
                final(canvas).attempts(),
                digit_plan(digit, anchor),
                Ok(()),
            ),
            Err(DrawError::Io(e)) => ran_fail_fast(
                old(canvas).attempts(),
                final(canvas).attempts(),
                digit_plan(digit, anchor),
                Err(e),
            ),
            Err(DrawError::InvalidDigit) => false,
        },
        result is Ok ==> final(canvas).attempts().len() == old(canvas).attempts().len() + SEGMENTS,
{
    if digit > 9 {
        return Err(DrawError::InvalidDigit);
    }
    let fills = digit_fills(digit, anchor);
    match canvas.fill_all(&fills) {
        Ok(()) => Ok(()),
        Err(e) => Err(DrawError::Io(e)),
    }
}

/// A digit that was drawn whole took seven fills, one on each segment of
/// the glyph. No two of them share a pixel, but for the two pairs that meet
/// in a corner, and together they span the box of the glyph, which is the
/// same for every digit.
pub proof fn lemma_drawn_glyph<E>(
    digit: u8,
    anchor: Point,
    before: Seq<Attempt<E>>,
    after: Seq<Attempt<E>>,
)
    requires
        anchor_in_range(anchor),
        ran_fail_fast(before, after, digit_plan(digit, anchor), Ok(())),
    ensures
        after.len() == before.len() + SEGMENTS,
        areas_of(fills_of(after.skip(before.len() as int))) == segment_areas(anchor),
        forall|i: int, j: int|
            0 <= i < SEGMENTS && 0 <= j < SEGMENTS && i != j && !share_corner(i, j) ==> (
            #[trigger] after[before.len() + i]).fill.area.disjoint(
                (#[trigger] after[before.len() + j]).fill.area,
            ),
        is_bounding_box(glyph_box(anchor), areas_of(fills_of(after.skip(before.len() as int)))),
{
    let run = after.skip(before.len() as int);
    lemma_complete_run(before, after, digit_plan(digit, anchor));
    assert(areas_of(fills_of(run)) =~= segment_areas(anchor));
    lemma_glyph_bounding_box(anchor);
    assert forall|i: int, j: int|
        0 <= i < SEGMENTS && 0 <= j < SEGMENTS && i != j && !share_corner(i, j) implies (
    #[trigger] after[before.len() + i]).fill.area.disjoint(
        (#[trigger] after[before.len() + j]).fill.area,
    ) by {
        lemma_segments_disjoint(anchor, i, j);
        assert(run[i] == after[before.len() + i]);
        assert(run[j] == after[before.len() + j]);
        assert(run[i].fill == digit_plan(digit, anchor)[i]);
        assert(run[j].fill == digit_plan(digit, anchor)[j]);
    }
}

} // verus!
