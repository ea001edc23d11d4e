//! What a drawing routine does, as the list of primitive operations it
//! performs in order: fills, text, single pixels, blends and the blur. The
//! picture after a list is the picture before with each operation laid on
//! in turn, within the clip (the blur excepted).
use vstd::prelude::*;
use crate::programs::gui::blur::{passes, region_px, BLUR_PASSES};
use crate::programs::gui::geometry::inside;
use crate::programs::gui::screen::{
    ScreenView, screen_wf, same_frame, pixel, on_screen, in_clip, text_bit, blend_px, filled, drawn_where, blended,
};
use crate::programs::gui::blur::region_blurred;

verus! {

/// One primitive drawing operation.
pub enum DrawOp {
    /// The `w` by `h` rectangle at `(x, y)` set to `c`.
    Fill { x: int, y: int, w: int, h: int, c: u32 },
    /// The text `t` written in `c` from `(x, y)` with `font`.
    Text { x: int, y: int, t: Seq<u8>, font: Seq<u8>, c: u32 },
    /// The pixel `(x, y)` set to `c`.
    Put { x: int, y: int, c: u32 },
    /// `[x0, x1) x [y0, y1)` blended toward `c` by `alpha`.
    Blend { x0: int, y0: int, x1: int, y1: int, c: u32, alpha: u32 },
    /// `[x0, x1) x [y0, y1)`, cut to the buffer, blurred with radius `r`
    /// (whatever the clip).
    Blur { x0: int, y0: int, x1: int, y1: int, r: int },
}

/// The blurred value at `(px, py)` when the blur covers it.
pub open spec fn blur_px(v: ScreenView, x0: int, y0: int, x1: int, y1: int, radius: int, px: int, py: int) -> u32 {
    let bx0 = if x0 > 0 { x0 } else { 0 };
    let by0 = if y0 > 0 { y0 } else { 0 };
    let bx1 = if x1 < v.width { x1 } else { v.width as int };
    let by1 = if y1 < v.height { y1 } else { v.height as int };
    let w = bx1 - bx0;
    let h = by1 - by0;
    let r = if radius >= 1 { radius } else { 1 };
    if bx0 <= px < bx1 && by0 <= py < by1 {
        passes(region_px(v, bx0, by0, w, h), w, h, r, BLUR_PASSES as nat)[(py - by0) * w + (px - bx0)]
    } else {
        pixel(v, px, py)
    }
}

/// The pixel at `(px, py)` after `op` on `v`.
pub open spec fn op_px(v: ScreenView, op: DrawOp, px: int, py: int) -> u32 {
    match op {
        DrawOp::Fill { x, y, w, h, c } => if in_clip(v, px, py) && inside(px, py, x, y, w, h) { c } else { pixel(v, px, py) },
        DrawOp::Text { x, y, t, font, c } => if in_clip(v, px, py) && text_bit(font, t, px - x, py - y, t.len() as int) {
            c
        } else {
            pixel(v, px, py)
        },
        DrawOp::Put { x, y, c } => if in_clip(v, px, py) && px == x && py == y { c } else { pixel(v, px, py) },
        DrawOp::Blend { x0, y0, x1, y1, c, alpha } => if in_clip(v, px, py) && x0 <= px < x1 && y0 <= py < y1 {
            blend_px(pixel(v, px, py), c, alpha)
        } else {
            pixel(v, px, py)
        },
        DrawOp::Blur { x0, y0, x1, y1, r } => blur_px(v, x0, y0, x1, y1, r, px, py),
    }
}

/// `v` after `op`.
pub open spec fn apply(v: ScreenView, op: DrawOp) -> ScreenView {
    ScreenView {
        px: Seq::new(v.px.len(), |yy: int| Seq::new(v.px[yy].len(), |xx: int| op_px(v, op, xx, yy))),
        ..v
    }
}

/// `v` after each operation of `ops` in turn.
pub open spec fn render(v: ScreenView, ops: Seq<DrawOp>) -> ScreenView
    decreases ops.len(),
{
    if ops.len() == 0 { v } else { apply(render(v, ops.drop_last()), ops.last()) }
}

/// A buffer whose every pixel is `op`'s result is `apply` of it.
pub proof fn lemma_apply(a: ScreenView, b: ScreenView, op: DrawOp)
    requires
        screen_wf(a),
        same_frame(a, b),
        forall|x: int, y: int| on_screen(a, x, y) ==> #[trigger] pixel(b, x, y) == op_px(a, op, x, y),
    ensures
        b == apply(a, op),
        screen_wf(apply(a, op)),
{
    let c = apply(a, op);
    assert forall|y: int| 0 <= y < a.height implies #[trigger] b.px[y] =~= c.px[y] by {
        assert forall|x: int| 0 <= x < a.width implies b.px[y][x] == c.px[y][x] by {
            assert(pixel(b, x, y) == op_px(a, op, x, y));
        }
    }
    assert(b.px =~= c.px);
}

pub proof fn lemma_apply_wf(a: ScreenView, op: DrawOp)
    requires
        screen_wf(a),
    ensures
        screen_wf(apply(a, op)),
        apply(a, op).width == a.width && apply(a, op).height == a.height && apply(a, op).format == a.format
            && apply(a, op).clip == a.clip,
        forall|x: int, y: int| on_screen(a, x, y) ==> #[trigger] pixel(apply(a, op), x, y) == op_px(a, op, x, y),
{
}

pub proof fn lemma_render_wf(a: ScreenView, ops: Seq<DrawOp>)
    requires
        screen_wf(a),
    ensures
        screen_wf(render(a, ops)),
        render(a, ops).width == a.width && render(a, ops).height == a.height && render(a, ops).format == a.format
            && render(a, ops).clip == a.clip,
    decreases ops.len(),
{
    if ops.len() > 0 {
        lemma_render_wf(a, ops.drop_last());
        lemma_apply_wf(render(a, ops.drop_last()), ops.last());
    }
}

/// One more operation at the end.
pub proof fn lemma_render_push(a: ScreenView, ops: Seq<DrawOp>, op: DrawOp)
    ensures
        render(a, ops.push(op)) == apply(render(a, ops), op),
{
    assert(ops.push(op).drop_last() =~= ops);
}

/// Two lists one after the other.
pub proof fn lemma_render_concat(a: ScreenView, o1: Seq<DrawOp>, o2: Seq<DrawOp>)
    ensures
        render(a, o1 + o2) == render(render(a, o1), o2),
    decreases o2.len(),
{
    if o2.len() == 0 {
        assert(o1 + o2 =~= o1);
    } else {
        lemma_render_concat(a, o1, o2.drop_last());
        assert((o1 + o2).drop_last() =~= o1 + o2.drop_last());
        assert((o1 + o2).last() == o2.last());
    }
}

pub proof fn lemma_filled(a: ScreenView, b: ScreenView, x: int, y: int, w: int, h: int, c: u32)
    requires
        screen_wf(a),
        filled(a, b, x, y, w, h, c),
    ensures
        b == apply(a, DrawOp::Fill { x, y, w, h, c }),
{
    lemma_apply(a, b, DrawOp::Fill { x, y, w, h, c });
}

pub proof fn lemma_text(a: ScreenView, b: ScreenView, x: int, y: int, t: Seq<u8>, font: Seq<u8>, c: u32)
    requires
        screen_wf(a),
        drawn_where(a, b, |px: int, py: int| text_bit(font, t, px - x, py - y, t.len() as int), c),
    ensures
        b == apply(a, DrawOp::Text { x, y, t, font, c }),
{
    lemma_apply(a, b, DrawOp::Text { x, y, t, font, c });
}

pub proof fn lemma_blended(a: ScreenView, b: ScreenView, x0: int, y0: int, x1: int, y1: int, c: u32, alpha: u32)
    requires
        screen_wf(a),
        blended(a, b, x0, y0, x1, y1, c, alpha),
    ensures
        b == apply(a, DrawOp::Blend { x0, y0, x1, y1, c, alpha }),
{
    lemma_apply(a, b, DrawOp::Blend { x0, y0, x1, y1, c, alpha });
}

pub proof fn lemma_blurred(a: ScreenView, b: ScreenView, x0: int, y0: int, x1: int, y1: int, r: int)
    requires
        screen_wf(a),
        region_blurred(a, b, x0, y0, x1, y1, r),
    ensures
        b == apply(a, DrawOp::Blur { x0, y0, x1, y1, r }),
{
    lemma_apply(a, b, DrawOp::Blur { x0, y0, x1, y1, r });
}

} // verus!
