use vstd::prelude::*;

verus! {

/// Font size in pixels (32 points scaled by 1.5).
pub const FONT_SIZE_PX: u32 = 48;

/// Line height in pixels (44 points scaled by 1.5).
pub const LINE_HEIGHT_PX: u32 = 66;

/// Extra space added to each canvas dimension, one font-size unit, so that
/// antialiasing overscan never clips a glyph.
pub const MARGIN: u32 = FONT_SIZE_PX;

/// Glyph coordinates are shifted by half the margin on each axis.
pub const ORIGIN_OFFSET: u32 = MARGIN / 2;

/// The extent of one laid-out line, in whole pixels: its width and the
/// baseline y it reaches, each already rounded up.
#[derive(Clone, Copy, Debug, PartialEq, Eq, Structural)]
pub struct LineExtent {
    pub width: u32,
    pub baseline: u32,
}

pub open spec fn max_int(a: int, b: int) -> int {
    if a >= b { a } else { b }
}

/// The largest line width, and at least 1.
pub open spec fn max_width(lines: Seq<LineExtent>) -> int
    decreases lines.len(),
{
    if lines.len() == 0 {
        1
    } else {
        max_int(max_width(lines.drop_last()), lines.last().width as int)
    }
}

/// The largest baseline reached, and at least 1.
pub open spec fn max_baseline(lines: Seq<LineExtent>) -> int
    decreases lines.len(),
{
    if lines.len() == 0 {
        1
    } else {
        max_int(max_baseline(lines.drop_last()), lines.last().baseline as int)
    }
}

pub open spec fn canvas_width_spec(lines: Seq<LineExtent>) -> int {
    max_width(lines) + MARGIN
}

pub open spec fn canvas_height_spec(lines: Seq<LineExtent>) -> int {
    max_baseline(lines) + MARGIN
}

proof fn lemma_max_bounds(lines: Seq<LineExtent>)
    ensures
        1 <= max_width(lines) <= u32::MAX,
        1 <= max_baseline(lines) <= u32::MAX,
        forall|i: int| 0 <= i < lines.len() ==> lines[i].width <= max_width(lines),
        forall|i: int| 0 <= i < lines.len() ==> lines[i].baseline <= max_baseline(lines),
    decreases lines.len(),
{
    if lines.len() > 0 {
        lemma_max_bounds(lines.drop_last());
        assert forall|i: int| 0 <= i < lines.len() - 1 implies lines[i] == lines.drop_last()[i] by {}
    }
}

/// The canvas size for the given lines: the widest line and the lowest
/// baseline, each at least 1, plus the margin.
pub fn canvas_extent(lines: &Vec<LineExtent>) -> (r: (u64, u64))
    ensures
        r.0 == canvas_width_spec(lines@),
        r.1 == canvas_height_spec(lines@),
        r.0 > MARGIN,
        r.1 > MARGIN,
{
    let mut w: u32 = 1;
    let mut h: u32 = 1;
    let mut i: usize = 0;
    while i < lines.len()
        invariant
            i <= lines@.len(),
            w == max_width(lines@.subrange(0, i as int)),
            h == max_baseline(lines@.subrange(0, i as int)),
        decreases lines@.len() - i,
    {
        proof {
            assert(lines@.subrange(0, i + 1).drop_last() =~= lines@.subrange(0, i as int));
        }
        if lines[i].width > w {
            w = lines[i].width;
        }
        if lines[i].baseline > h {
            h = lines[i].baseline;
        }
        i = i + 1;
    }
    proof {
        assert(lines@.subrange(0, i as int) =~= lines@);
        lemma_max_bounds(lines@);
    }
    (w as u64 + MARGIN as u64, h as u64 + MARGIN as u64)
}

/// Appending lines never shrinks the canvas: if `a` is a prefix of `b`, the
/// canvas for `b` is at least as wide and at least as tall as that for `a`.
pub proof fn lemma_extent_grows_with_lines(a: Seq<LineExtent>, b: Seq<LineExtent>)
    requires
        a.len() <= b.len(),
        a == b.subrange(0, a.len() as int),
    ensures
        canvas_width_spec(b) >= canvas_width_spec(a),
        canvas_height_spec(b) >= canvas_height_spec(a),
    decreases b.len(),
{
    if a.len() < b.len() {
        assert(b.drop_last().subrange(0, a.len() as int) =~= b.subrange(0, a.len() as int));
        lemma_extent_grows_with_lines(a, b.drop_last());
    } else {
        assert(a =~= b);
    }
}

/// Widening lines never narrows the canvas: if every line of `b` is at least
/// as wide as the same line of `a`, the canvas for `b` is at least as wide.
pub proof fn lemma_extent_grows_with_width(a: Seq<LineExtent>, b: Seq<LineExtent>)
    requires
        a.len() == b.len(),
        forall|i: int| 0 <= i < a.len() ==> a[i].width <= b[i].width,
    ensures
        canvas_width_spec(b) >= canvas_width_spec(a),
    decreases a.len(),
{
    if a.len() > 0 {
        lemma_extent_grows_with_width(a.drop_last(), b.drop_last());
    }
}

/// The empty snippet gets the smallest canvas: one pixel plus the margin on
/// each axis.
pub proof fn lemma_minimum_canvas()
    ensures
        canvas_width_spec(Seq::<LineExtent>::empty()) == 1 + MARGIN,
        canvas_height_spec(Seq::<LineExtent>::empty()) == 1 + MARGIN,
{
}

} // verus!
