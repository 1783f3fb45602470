//! Turn a glyph outline into an animated vector icon by splicing the glyph's
//! geometry into a keyframe-animation template.

pub mod animate;
pub mod cli;
pub mod fill;
pub mod geom;
pub mod group;
pub mod mapper;
pub mod math;
pub mod outline;
pub mod template;
pub mod transforms;

use vstd::prelude::*;

verus! {

/// Errors of the animation pipeline.
#[derive(Debug, Clone, Copy, PartialEq, Eq, Structural)]
pub enum Error {
    /// Outline extraction failed.
    DrawFailure,
    /// The codepoint has no glyph id or outline.
    MissingGlyph,
    /// A box supplied to coordinate mapping has non-positive width or height.
    InvalidBox,
    /// The template had no substitutable placeholder.
    NoPlaceholderReplaced,
}

} // verus!
