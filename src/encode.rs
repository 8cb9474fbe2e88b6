use vstd::prelude::*;

use crate::canvas::{apply_all, rgba_bytes, Canvas, Coverage, MAX_CANVAS_PIXELS};
use crate::color::{linear_spec, LinPixel, Rgba8};
use crate::layout::{canvas_extent, canvas_height_spec, canvas_width_spec, LineExtent};
use crate::RenderError;

verus! {

#[verifier::external_type_specification]
#[verifier::external_body]
pub struct ExImageError(image::ImageError);

/// The PNG stream that image's encoder writes for an RGBA8 image.
pub uninterp spec fn png_of(width: u32, height: u32, rgba: Seq<u8>) -> Seq<u8>;

/// The eight bytes that open every PNG stream.
pub open spec fn png_signature() -> Seq<u8> {
    seq![137u8, 80, 78, 71, 13, 10, 26, 10]
}

/// Relies on image's `PngEncoder::write_image` with `ColorType::Rgba8`: it
/// writes a PNG stream into the vector, which depends on the dimensions and
/// the pixel bytes alone and opens with the PNG signature. It panics unless the
/// buffer holds four bytes per pixel; with that, png's writer refuses only a
/// zero width or height, and writing into a vector cannot fail.
#[verifier::external_body]
fn encode_png(width: u32, height: u32, rgba: &Vec<u8>) -> (r: Result<Vec<u8>, image::ImageError>)
    requires
        rgba@.len() == 4 * width * height,
    ensures
        width > 0 && height > 0 ==> r is Ok,
        r matches Ok(bytes) ==> bytes@ == png_of(width, height, rgba@) && bytes@.len() >= 8
            && bytes@.subrange(0, 8) == png_signature(),
{
    let mut out: Vec<u8> = Vec::new();
    let encoder = image::codecs::png::PngEncoder::new(&mut out);
    let written = image::ImageEncoder::write_image(
        encoder,
        rgba,
        width,
        height,
        image::ColorType::Rgba8,
    );
    written.map(|_| out)
}

/// The canvas pixels for the given lines, background and coverage events:
/// the background everywhere, then each event composited in order.
pub open spec fn image_pixels(lines: Seq<LineExtent>, background: Rgba8, events: Seq<Coverage>) -> Seq<
    LinPixel,
> {
    let w = canvas_width_spec(lines);
    let h = canvas_height_spec(lines);
    apply_all(Seq::new((w * h) as nat, |i: int| linear_spec(background)), w, events)
}

/// Whether the canvas for these lines fits the compositor's limit.
pub open spec fn fits(lines: Seq<LineExtent>) -> bool {
    canvas_width_spec(lines) * canvas_height_spec(lines) <= MAX_CANVAS_PIXELS
}

/// A rendered bitmap: its size and its row-major 8-bit RGBA bytes.
pub struct Bitmap {
    pub width: u32,
    pub height: u32,
    pub rgba: Vec<u8>,
}

/// Sizes the canvas, fills it with the background, composites the events
/// and returns the 8-bit RGBA bitmap; `None` when the canvas would exceed
/// the compositor's limit.
pub fn render_bitmap(lines: &Vec<LineExtent>, background: Rgba8, events: &Vec<Coverage>) -> (r:
    Option<Bitmap>)
    ensures
        r is None <==> !fits(lines@),
        r matches Some(bm) ==> {
            &&& bm.width == canvas_width_spec(lines@)
            &&& bm.height == canvas_height_spec(lines@)
            &&& bm.rgba@ == rgba_bytes(image_pixels(lines@, background, events@))
            &&& bm.rgba@.len() == 4 * bm.width * bm.height
        },
{
    let (w, h) = canvas_extent(lines);
    if w > MAX_CANVAS_PIXELS || h > MAX_CANVAS_PIXELS {
        proof {
            if w > MAX_CANVAS_PIXELS {
                assert(w * h >= w) by (nonlinear_arith) requires h >= 1;
            }
            if h > MAX_CANVAS_PIXELS {
                assert(w * h >= h) by (nonlinear_arith) requires w >= 1;
            }
        }
        return None;
    }
    assert(w * h <= MAX_CANVAS_PIXELS * MAX_CANVAS_PIXELS) by (nonlinear_arith)
        requires w <= MAX_CANVAS_PIXELS, h <= MAX_CANVAS_PIXELS;
    if w * h > MAX_CANVAS_PIXELS {
        return None;
    }
    let mut canvas = Canvas::new(w as u32, h as u32, background);
    canvas.composite(events);
    let rgba = canvas.to_rgba8();
    assert(rgba@.len() == 4 * (w * h));
    assert(4 * (w * h) == 4 * w * h) by (nonlinear_arith);
    assert(canvas.pixels@ == image_pixels(lines@, background, events@));
    Some(Bitmap { width: w as u32, height: h as u32, rgba })
}

/// Rendering is deterministic: the same lines, background and events give
/// the same pixels, the same bitmap bytes and the same PNG stream.
pub proof fn lemma_render_deterministic(
    lines1: Seq<LineExtent>,
    lines2: Seq<LineExtent>,
    background1: Rgba8,
    background2: Rgba8,
    events1: Seq<Coverage>,
    events2: Seq<Coverage>,
)
    requires
        lines1 == lines2,
        background1 == background2,
        events1 == events2,
    ensures
        image_pixels(lines1, background1, events1) == image_pixels(lines2, background2, events2),
        png_of(
            canvas_width_spec(lines1) as u32,
            canvas_height_spec(lines1) as u32,
            rgba_bytes(image_pixels(lines1, background1, events1)),
        ) == png_of(
            canvas_width_spec(lines2) as u32,
            canvas_height_spec(lines2) as u32,
            rgba_bytes(image_pixels(lines2, background2, events2)),
        ),
{
}

/// Renders the lines' canvas, with the events composited over the
/// background, as PNG bytes.
pub fn render_png(lines: &Vec<LineExtent>, background: Rgba8, events: &Vec<Coverage>) -> (r: Result<
    Vec<u8>,
    RenderError,
>)
    ensures
        !fits(lines@) <==> r == Err::<Vec<u8>, RenderError>(RenderError::CanvasTooLarge),
        r matches Ok(bytes) ==> {
            &&& bytes@ == png_of(
                canvas_width_spec(lines@) as u32,
                canvas_height_spec(lines@) as u32,
                rgba_bytes(image_pixels(lines@, background, events@)),
            )
            &&& bytes@.len() >= 8
            &&& bytes@.subrange(0, 8) == png_signature()
        },
        fits(lines@) ==> r is Ok,
{
    match render_bitmap(lines, background, events) {
        None => Err(RenderError::CanvasTooLarge),
        Some(bm) => match encode_png(bm.width, bm.height, &bm.rgba) {
            Ok(bytes) => Ok(bytes),
            Err(_) => Err(RenderError::EncodingFailure),
        },
    }
}

} // verus!
