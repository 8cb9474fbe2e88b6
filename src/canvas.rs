use vstd::prelude::*;

use crate::color::{
    encode_pixel, encode_spec, linear, linear_spec, over, over_spec, valid_pixel, LinPixel,
    Rgba8,
};
use crate::layout::ORIGIN_OFFSET;

verus! {

/// The largest canvas, in pixels, that the compositor allocates.
pub const MAX_CANVAS_PIXELS: u64 = 0x1000_0000;

/// One antialiased glyph cell: a rectangle of pixels relative to the text
/// origin, filled with a straight 8-bit colour.
#[derive(Clone, Copy, Debug, PartialEq, Eq, Structural)]
pub struct Coverage {
    pub x: i32,
    pub y: i32,
    pub w: u32,
    pub h: u32,
    pub color: Rgba8,
}

/// Whether the event's rectangle, shifted by the origin offset, covers the
/// canvas pixel at column `x` and row `y`.
pub open spec fn covers(ev: Coverage, x: int, y: int) -> bool {
    let left = ev.x + ORIGIN_OFFSET;
    let top = ev.y + ORIGIN_OFFSET;
    &&& left <= x < left + ev.w
    &&& top <= y < top + ev.h
}

/// The pixels after one event: each covered pixel of the canvas gets the
/// event's colour placed over it; every other pixel stays as it was.
pub open spec fn apply_spec(px: Seq<LinPixel>, width: int, ev: Coverage) -> Seq<LinPixel> {
    Seq::new(
        px.len(),
        |i: int|
            if covers(ev, i % width, i / width) {
                over_spec(linear_spec(ev.color), px[i])
            } else {
                px[i]
            },
    )
}

/// The pixels after a sequence of events, applied in order.
pub open spec fn apply_all(px: Seq<LinPixel>, width: int, evs: Seq<Coverage>) -> Seq<LinPixel>
    decreases evs.len(),
{
    if evs.len() == 0 {
        px
    } else {
        apply_spec(apply_all(px, width, evs.drop_last()), width, evs.last())
    }
}

/// The 8-bit RGBA bytes of a row-major pixel sequence.
pub open spec fn rgba_bytes(px: Seq<LinPixel>) -> Seq<u8> {
    Seq::new(
        4 * px.len(),
        |i: int|
            {
                let c = encode_spec(px[i / 4]);
                if i % 4 == 0 {
                    c.r
                } else if i % 4 == 1 {
                    c.g
                } else if i % 4 == 2 {
                    c.b
                } else {
                    c.a
                }
            },
    )
}

/// A row-major buffer of linear, premultiplied pixels.
pub struct Canvas {
    pub width: u32,
    pub height: u32,
    pub pixels: Vec<LinPixel>,
}

impl Canvas {
    pub open spec fn wf(&self) -> bool {
        &&& 0 < self.width
        &&& 0 < self.height
        &&& self.width * self.height <= MAX_CANVAS_PIXELS
        &&& self.pixels@.len() == self.width * self.height
        &&& forall|i: int| 0 <= i < self.pixels@.len() ==> valid_pixel(#[trigger] self.pixels@[i])
    }

    /// A canvas with every pixel set to the background colour in linear space.
    pub fn new(width: u32, height: u32, background: Rgba8) -> (r: Canvas)
        requires
            0 < width,
            0 < height,
            width * height <= MAX_CANVAS_PIXELS,
        ensures
            r.wf(),
            r.width == width,
            r.height == height,
            r.pixels@ == Seq::new((width * height) as nat, |i: int| linear_spec(background)),
    {
        let bg = linear(background);
        let n: usize = (width as u64 * height as u64) as usize;
        let mut pixels: Vec<LinPixel> = Vec::new();
        while pixels.len() < n
            invariant
                pixels@.len() <= n,
                forall|i: int| 0 <= i < pixels@.len() ==> pixels@[i] == bg,
            decreases n - pixels@.len(),
        {
            pixels.push(bg);
        }
        let r = Canvas { width, height, pixels };
        assert(r.pixels@ =~= Seq::new((width * height) as nat, |i: int| linear_spec(background)));
        r
    }

    /// Composites one coverage event. Only the part of its rectangle that
    /// lies on the canvas is drawn; the rest is ignored.
    pub fn apply(&mut self, ev: &Coverage)
        requires
            old(self).wf(),
        ensures
            final(self).wf(),
            final(self).width == old(self).width,
            final(self).height == old(self).height,
            final(self).pixels@ == apply_spec(old(self).pixels@, old(self).width as int, *ev),
    {
        let ghost old_px = self.pixels@;
        let ghost wi = self.width as int;
        let fg = linear(ev.color);
        let width = self.width as i64;
        let height = self.height as i64;
        let left = ev.x as i64 + ORIGIN_OFFSET as i64;
        let top = ev.y as i64 + ORIGIN_OFFSET as i64;
        let x0 = clamp_i64(left, width);
        let x1 = clamp_i64(left + ev.w as i64, width);
        let y0 = clamp_i64(top, height);
        let y1 = clamp_i64(top + ev.h as i64, height);
        proof {
            assert forall|i: int| 0 <= i < old_px.len() implies
                (#[trigger] covers(*ev, i % wi, i / wi) <==> (x0 <= i % wi < x1 && y0 <= i / wi < y1)) by {
                lemma_index_in_canvas(i, wi, self.height as int);
            }
        }
        let w = self.width as usize;
        let mut row: usize = y0;
        while row < y1
            invariant
                self.wf(),
                self.width as int == wi,
                self.height == old(self).height,
                self.pixels@.len() == old_px.len(),
                old_px.len() == wi * self.height,
                w == wi,
                fg == linear_spec(ev.color),
                valid_pixel(fg),
                y0 <= row,
                y1 <= self.height,
                x1 <= wi,
                forall|i: int| 0 <= i < old_px.len() ==>
                    (#[trigger] covers(*ev, i % wi, i / wi) <==> (x0 <= i % wi < x1 && y0 <= i / wi < y1)),
                forall|i: int| 0 <= i < old_px.len() ==> #[trigger] self.pixels@[i] == (
                    if covers(*ev, i % wi, i / wi) && i / wi < row {
                        over_spec(fg, old_px[i])
                    } else {
                        old_px[i]
                    }),
            decreases y1 - row,
        {
            let mut col: usize = x0;
            while col < x1
                invariant
                    self.wf(),
                    self.width as int == wi,
                    self.height == old(self).height,
                    self.pixels@.len() == old_px.len(),
                    old_px.len() == wi * self.height,
                    w == wi,
                    fg == linear_spec(ev.color),
                    valid_pixel(fg),
                    y0 <= row < y1,
                    y1 <= self.height,
                    x0 <= col,
                    x1 <= wi,
                    forall|i: int| 0 <= i < old_px.len() ==>
                        (#[trigger] covers(*ev, i % wi, i / wi) <==> (x0 <= i % wi < x1 && y0 <= i / wi < y1)),
                    forall|i: int| 0 <= i < old_px.len() ==> #[trigger] self.pixels@[i] == (
                        if covers(*ev, i % wi, i / wi) && (i / wi < row || (i / wi == row && i % wi < col)) {
                            over_spec(fg, old_px[i])
                        } else {
                            old_px[i]
                        }),
                decreases x1 - col,
            {
                proof {
                    lemma_row_col(row as int, col as int, wi, self.height as int);
                }
                let idx = row * w + col;
                let old_pixel = self.pixels[idx];
                let new_pixel = over(fg, old_pixel);
                self.pixels.set(idx, new_pixel);
                proof {
                    assert forall|i: int| 0 <= i < old_px.len() implies #[trigger] self.pixels@[i] == (
                        if covers(*ev, i % wi, i / wi) && (i / wi < row || (i / wi == row && i % wi < col + 1)) {
                            over_spec(fg, old_px[i])
                        } else {
                            old_px[i]
                        }) by {
                        if i != idx {
                            if i / wi == row && i % wi == col {
                                lemma_same_index(i, row as int, col as int, wi);
                            }
                        }
                    }
                }
                col = col + 1;
            }
            row = row + 1;
        }
        proof {
            assert(self.pixels@ =~= apply_spec(old_px, wi, *ev));
        }
    }

    /// Composites the events in the order given.
    pub fn composite(&mut self, events: &Vec<Coverage>)
        requires
            old(self).wf(),
        ensures
            final(self).wf(),
            final(self).width == old(self).width,
            final(self).height == old(self).height,
            final(self).pixels@ == apply_all(old(self).pixels@, old(self).width as int, events@),
    {
        let ghost start = self.pixels@;
        let mut k: usize = 0;
        while k < events.len()
            invariant
                self.wf(),
                self.width == old(self).width,
                self.height == old(self).height,
                start == old(self).pixels@,
                k <= events@.len(),
                self.pixels@ == apply_all(start, self.width as int, events@.subrange(0, k as int)),
            decreases events@.len() - k,
        {
            proof {
                assert(events@.subrange(0, k + 1).drop_last() =~= events@.subrange(0, k as int));
            }
            self.apply(&events[k]);
            k = k + 1;
        }
        proof {
            assert(events@.subrange(0, k as int) =~= events@);
        }
    }

    /// The canvas as row-major 8-bit straight RGBA bytes.
    pub fn to_rgba8(&self) -> (r: Vec<u8>)
        requires
            self.wf(),
        ensures
            r@ == rgba_bytes(self.pixels@),
    {
        let mut out: Vec<u8> = Vec::new();
        let mut i: usize = 0;
        while i < self.pixels.len()
            invariant
                self.wf(),
                i <= self.pixels@.len(),
                out@.len() == 4 * i,
                forall|j: int| 0 <= j < 4 * i ==> #[trigger] out@[j] == rgba_bytes(self.pixels@)[j],
            decreases self.pixels@.len() - i,
        {
            let c = encode_pixel(self.pixels[i]);
            out.push(c.r);
            out.push(c.g);
            out.push(c.b);
            out.push(c.a);
            i = i + 1;
        }
        assert(out@ =~= rgba_bytes(self.pixels@));
        out
    }
}

/// An event whose rectangle lies wholly off the canvas leaves every pixel as
/// it was, and no event changes the number of pixels.
pub proof fn lemma_off_canvas_event(px: Seq<LinPixel>, width: int, height: int, ev: Coverage)
    requires
        width > 0,
        px.len() == width * height,
        ev.x + ORIGIN_OFFSET >= width || ev.x + ORIGIN_OFFSET + ev.w <= 0
            || ev.y + ORIGIN_OFFSET >= height || ev.y + ORIGIN_OFFSET + ev.h <= 0,
    ensures
        apply_spec(px, width, ev) == px,
{
    assert forall|i: int| 0 <= i < px.len() implies !covers(ev, #[trigger] (i % width), i / width) by {
        lemma_index_in_canvas(i, width, height);
    }
    assert(apply_spec(px, width, ev) =~= px);
}

/// `v` clamped to `[0, hi]`.
fn clamp_i64(v: i64, hi: i64) -> (r: usize)
    requires
        0 <= hi <= u32::MAX,
    ensures
        r as int == if v < 0 { 0 } else if v > hi { hi as int } else { v as int },
{
    if v < 0 {
        0
    } else if v > hi {
        hi as usize
    } else {
        v as usize
    }
}

proof fn lemma_index_in_canvas(i: int, w: int, h: int)
    requires
        0 <= i < w * h,
        w > 0,
    ensures
        0 <= i % w < w,
        0 <= i / w < h,
{
    vstd::arithmetic::div_mod::lemma_mod_bound(i, w);
    vstd::arithmetic::div_mod::lemma_div_pos_is_pos(i, w);
    if i / w >= h {
        vstd::arithmetic::div_mod::lemma_fundamental_div_mod(i, w);
        assert(w * (i / w) >= w * h) by (nonlinear_arith)
            requires i / w >= h, w > 0;
    }
}

proof fn lemma_row_col(row: int, col: int, w: int, h: int)
    requires
        0 <= row < h,
        0 <= col < w,
    ensures
        0 <= row * w + col < w * h,
        (row * w + col) / w == row,
        (row * w + col) % w == col,
        row * w + col <= usize::MAX || w * h > usize::MAX,
{
    assert(row * w + col < w * h) by (nonlinear_arith)
        requires 0 <= row < h, 0 <= col < w;
    assert(0 <= row * w) by (nonlinear_arith) requires 0 <= row, 0 <= w;
    vstd::arithmetic::div_mod::lemma_fundamental_div_mod_converse(row * w + col, w, row, col);
}

proof fn lemma_same_index(i: int, row: int, col: int, w: int)
    requires
        w > 0,
        0 <= i,
        i / w == row,
        i % w == col,
    ensures
        i == row * w + col,
{
    vstd::arithmetic::div_mod::lemma_fundamental_div_mod(i, w);
    assert(w * row == row * w) by (nonlinear_arith);
}

} // verus!
