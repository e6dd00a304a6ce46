//! Monte Carlo estimation of pi: a store of uniformly sampled points in the
//! square [-1, 1) x [-1, 1), a classifier that tells whether a point lies in
//! the closed unit disk, the fixed reference outlines (unit circle and
//! bounding square) drawn behind the samples, and a persistence codec for the
//! store and the pending batch-size text.
//!
//! Coordinates are held as scaled integers: `geometry::SCALE` units stand for
//! the real value 1.0. A UI shell owns the event loop and the plotting; it
//! feeds user input into [`store::TemplateApp`] and renders what comes back.

pub mod codec;
pub mod geometry;
pub mod hexcode;
pub mod numtext;
pub mod store;
