//! The drawing capability that the caller supplies, and a record of what was
//! asked of it.
//!
//! Nothing is assumed of a [`FillRect`]: a call may succeed or fail as it
//! likes. A [`Canvas`] owns such a surface and keeps, for the proofs only, the
//! list of the fills that were attempted through it, each with its outcome.
//! The contracts of the drawing functions are stated over that list.
//!
//! The list grows in one place only, [`Canvas::fill`], and there by one
//! attempt for one call of the surface. The fields of a canvas are private
//! to this module, so whatever else draws does so through `fill`.

use vstd::prelude::*;
use crate::color::Rgb565;
use crate::geometry::Rect;

verus! {

/// One solid rectangle to draw.
#[derive(Clone, Copy, Debug, PartialEq, Eq, Structural)]
pub struct Fill {
    pub area: Rect,
    pub color: Rgb565,
}

/// The capability to fill an axis-aligned rectangle with one colour.
///
/// An implementation reports a failure of the underlying bus as `Err`; what
/// it does with a rectangle that leaves the visible area is its own affair.
pub trait FillRect {
    /// What a failed fill reports.
    type Error;

    /// Fills `area` with `color`.
    fn fill_rect(&mut self, area: Rect, color: Rgb565) -> Result<(), Self::Error>;
}

/// A fill that was asked of a surface, and what the surface answered.
pub struct Attempt<E> {
    pub fill: Fill,
    pub outcome: Result<(), E>,
}

/// A surface together with the record of the fills attempted through it.
pub struct Canvas<S: FillRect> {
    surface: S,
    attempts: Ghost<Seq<Attempt<S::Error>>>,
}

impl<S: FillRect> Canvas<S> {
    /// The fills attempted through this canvas so far, oldest first.
    pub closed spec fn attempts(&self) -> Seq<Attempt<S::Error>> {
        self.attempts@
    }

    /// The surface as it is now.
    pub closed spec fn surface_view(&self) -> S {
        self.surface
    }

    /// Wraps a surface. Nothing has been attempted through the new canvas.
    pub fn new(surface: S) -> (canvas: Canvas<S>)
        ensures
            canvas.attempts() == Seq::<Attempt<S::Error>>::empty(),
            canvas.surface_view() == surface,
    {
        Canvas { surface, attempts: Ghost(Seq::empty()) }
    }

    /// Asks the surface for one fill and records the attempt with its outcome.
    ///
    /// The surface is called once, with the rectangle and the colour of
    /// `fill`; what comes back is what the call answered.
    pub fn fill(&mut self, fill: Fill) -> (outcome: Result<(), S::Error>)
        ensures
            exists|r: &mut S|
                mut_ref_current(r) == old(self).surface_view()
                    && mut_ref_future(r) == final(self).surface_view()
                    && #[trigger] call_ensures(S::fill_rect, (r, fill.area, fill.color), outcome),
            final(self).attempts() == old(self).attempts().push(
                (Attempt { fill, outcome }),
            ),
    {
        let outcome = self.surface.fill_rect(fill.area, fill.color);
        proof {
            self.attempts@ = self.attempts@.push(Attempt { fill, outcome });
        }
        outcome
    }

    /// The surface, for inspection.
    pub fn surface(&self) -> (surface: &S)
        ensures
            *surface == self.surface_view(),
    {
        &self.surface
    }

    /// Gives the surface back.
    pub fn into_surface(self) -> (surface: S)
        ensures
            surface == self.surface_view(),
    {
        self.surface
    }
}

} // verus!
