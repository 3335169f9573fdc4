//! Seven-segment digit rendering for small raster displays, and the wire
//! encoding of one addressable status LED.
//!
//! The crate performs no I/O of its own. Drawing goes through the
//! [`FillRect`](surface::FillRect) capability supplied by the caller, and the
//! bytes for the LED are handed back to the caller for transmission.

pub mod color;
pub mod geometry;
pub mod led;
pub mod markers;
pub mod number;
pub mod render;
pub mod run;
pub mod segments;
pub mod surface;
