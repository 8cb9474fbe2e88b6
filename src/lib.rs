//! Renders a snippet of source code into a syntax-highlighted PNG image.
//!
//! The pipeline runs in four stages: highlighting (`highlight`, on the text
//! handling of `text`), canvas sizing (`layout`), compositing of glyph
//! coverage in linear fixed-point colour (`color`, `canvas`), and encoding
//! (`encode`). Glyph shaping itself is left to the caller, which hands over
//! each line's extent and the coverage rectangles. `bot` holds the decisions
//! of the chat front end that offers the images.
use vstd::prelude::*;

pub mod bot;
pub mod canvas;
pub mod color;
pub mod encode;
pub mod highlight;
pub mod layout;
pub mod text;

pub use canvas::{Canvas, Coverage, MAX_CANVAS_PIXELS};
pub use color::{LinPixel, Rgba8, LIN_ONE};
pub use encode::{render_bitmap, render_png, Bitmap};
pub use layout::{canvas_extent, LineExtent, FONT_SIZE_PX, LINE_HEIGHT_PX, MARGIN, ORIGIN_OFFSET};

verus! {

/// Why a render failed.
#[derive(Clone, Copy, Debug, PartialEq, Eq, Structural)]
pub enum RenderError {
    /// The lexer could not tokenize a line, or its tokens did not cover the
    /// line exactly: the syntax table is corrupt.
    LexicalEngineFailure,
    /// The canvas would exceed the compositor's size limit.
    CanvasTooLarge,
    /// The PNG encoder refused the bitmap.
    EncodingFailure,
}

} // verus!
