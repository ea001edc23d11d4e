//! The desktop's drawing: buttons, window frames, tabs, graphs, the pointer
//! and the taskbar's pieces. All of it goes through the clipped primitives of
//! `Screen`, so every routine here changes no pixel outside the clip (the
//! compositor relies on that to repaint only what it must).
use vstd::prelude::*;
use vstd::string::StringSliceAdditionalSpecFns;
use crate::programs::gui::geometry::{
    Win, BTN_W, BTN_H, BTN_X, TITLE_H, BORDER, CLOSE_SZ, TAB_H, TAB_W, PAGER_W, TASKBAR_H,
};
use crate::programs::gui::screen::{
    Screen, ScreenView, screen_wf, kept_outside_clip, filled, drawn_where, blended, same_frame, pixel, on_screen, in_clip,
    pack_fmt, pack_spec, blend_region, text_bit, glyph_bit, FONT_BYTES, GLYPH_W, GLYPH_H, ADVANCE,
};
use crate::text::fmt_dec;
use crate::programs::gui::ops::{DrawOp, apply, render, lemma_apply, lemma_apply_wf, lemma_render_wf, lemma_render_push, lemma_render_concat, lemma_filled, lemma_text, lemma_blended};

verus! {

/// Canvases up to this size are drawn on.
pub const CANVAS_MAX: i32 = 1048576;

/// A canvas the routines here draw on.
pub open spec fn canvas_ok(v: ScreenView) -> bool {
    screen_wf(v) && v.width <= CANVAS_MAX && v.height <= CANVAS_MAX
}

/// Coordinates the routines here take.
pub open spec fn coord(v: int) -> bool {
    -4 * CANVAS_MAX <= v <= 4 * CANVAS_MAX
}

/// Coordinates the primitives are handed (a few sums of the above).
pub open spec fn wide(v: int) -> bool {
    -16 * CANVAS_MAX <= v <= 16 * CANVAS_MAX
}

pub proof fn lemma_kept_refl(a: ScreenView)
    requires
        screen_wf(a),
    ensures
        kept_outside_clip(a, a),
{
}

pub proof fn lemma_kept_trans(a: ScreenView, b: ScreenView, c: ScreenView)
    requires
        kept_outside_clip(a, b),
        kept_outside_clip(b, c),
    ensures
        kept_outside_clip(a, c),
{
    assert forall|x: int, y: int| on_screen(a, x, y) && !in_clip(a, x, y) implies #[trigger] pixel(c, x, y) == pixel(a, x, y) by {
        assert(pixel(c, x, y) == pixel(b, x, y));
    }
}

pub(crate) fn fill_k(s: &mut Screen, x: i64, y: i64, w: i64, h: i64, color: u32, Ghost(a): Ghost<ScreenView>)
    requires
        kept_outside_clip(a, old(s)@),
        canvas_ok(a),
        wide(x as int) && wide(y as int) && wide(w as int) && wide(h as int),
    ensures
        kept_outside_clip(a, final(s)@),
        final(s)@ == apply(old(s)@, DrawOp::Fill { x: x as int, y: y as int, w: w as int, h: h as int, c: color }),
{
    let ghost m = s@;
    s.fill(x, y, w, h, color);
    proof {
        lemma_filled(m, s@, x as int, y as int, w as int, h as int, color);
        assert forall|px: int, py: int| on_screen(m, px, py) && !in_clip(m, px, py) implies #[trigger] pixel(s@, px, py) == pixel(m, px, py) by {}
        lemma_kept_trans(a, m, s@);
    }
}

pub(crate) fn text_k(s: &mut Screen, x: i64, y: i64, t: &[u8], color: u32, font: &[u8], Ghost(a): Ghost<ScreenView>)
    requires
        kept_outside_clip(a, old(s)@),
        canvas_ok(a),
        font@.len() >= FONT_BYTES,
        wide(x as int) && wide(y as int),
    ensures
        kept_outside_clip(a, final(s)@),
        final(s)@ == apply(old(s)@, DrawOp::Text { x: x as int, y: y as int, t: t@, font: font@, c: color }),
{
    let ghost m = s@;
    s.text(x, y, t, color, font);
    proof {
        lemma_text(m, s@, x as int, y as int, t@, font@, color);
        assert forall|px: int, py: int| on_screen(m, px, py) && !in_clip(m, px, py) implies #[trigger] pixel(s@, px, py) == pixel(m, px, py) by {}
        lemma_kept_trans(a, m, s@);
    }
}

pub(crate) fn glyph_k(s: &mut Screen, x: i64, y: i64, c: u8, color: u32, font: &[u8], Ghost(a): Ghost<ScreenView>)
    requires
        kept_outside_clip(a, old(s)@),
        canvas_ok(a),
        font@.len() >= FONT_BYTES,
        wide(x as int) && wide(y as int),
    ensures
        kept_outside_clip(a, final(s)@),
        final(s)@ == apply(old(s)@, DrawOp::Text { x: x as int, y: y as int, t: seq![c], font: font@, c: color }),
{
    let ghost m = s@;
    s.glyph(x, y, c, color, font);
    proof {
        assert forall|px: int, py: int| #[trigger] text_bit(font@, seq![c], px - x, py - y, 1)
            == glyph_bit(font@, c, px - x, py - y) by {
            if glyph_bit(font@, c, px - x, py - y) {
                assert(glyph_bit(font@, seq![c][0], (px - x) - 0 * 8, py - y));
            }
        }
        lemma_apply(m, s@, DrawOp::Text { x: x as int, y: y as int, t: seq![c], font: font@, c: color });
        assert forall|px: int, py: int| on_screen(m, px, py) && !in_clip(m, px, py) implies #[trigger] pixel(s@, px, py) == pixel(m, px, py) by {}
        lemma_kept_trans(a, m, s@);
    }
}

pub(crate) fn put_k(s: &mut Screen, x: i64, y: i64, color: u32, Ghost(a): Ghost<ScreenView>)
    requires
        kept_outside_clip(a, old(s)@),
        canvas_ok(a),
    ensures
        kept_outside_clip(a, final(s)@),
        final(s)@ == apply(old(s)@, DrawOp::Put { x: x as int, y: y as int, c: color }),
{
    let ghost m = s@;
    s.put(x, y, color);
    proof {
        lemma_apply(m, s@, DrawOp::Put { x: x as int, y: y as int, c: color });
        assert forall|px: int, py: int| on_screen(m, px, py) && !in_clip(m, px, py) implies #[trigger] pixel(s@, px, py) == pixel(m, px, py) by {}
        lemma_kept_trans(a, m, s@);
    }
}

pub(crate) fn blend_k(s: &mut Screen, x0: i32, y0: i32, x1: i32, y1: i32, color: u32, alpha: u32, Ghost(a): Ghost<ScreenView>)
    requires
        kept_outside_clip(a, old(s)@),
        canvas_ok(a),
        alpha <= 256,
    ensures
        kept_outside_clip(a, final(s)@),
        final(s)@ == apply(old(s)@, DrawOp::Blend { x0: x0 as int, y0: y0 as int, x1: x1 as int, y1: y1 as int, c: color, alpha }),
{
    let ghost m = s@;
    blend_region(s, x0, y0, x1, y1, color, alpha);
    proof {
        lemma_blended(m, s@, x0 as int, y0 as int, x1 as int, y1 as int, color, alpha);
        assert forall|px: int, py: int| on_screen(m, px, py) && !in_clip(m, px, py) implies #[trigger] pixel(s@, px, py) == pixel(m, px, py) by {}
        lemma_kept_trans(a, m, s@);
    }
}

/// A launcher button: a black outline, a face (darker when pressed) and the
/// label. `b` is `a` with exactly those drawn, in that order, within the clip.
pub open spec fn button_face(fmt: u32, pressed: bool) -> u32 {
    if pressed {
        crate::programs::gui::screen::pack_spec(fmt, 0x90, 0x90, 0x90)
    } else {
        crate::programs::gui::screen::pack_spec(fmt, 0xC8, 0xC8, 0xC8)
    }
}

pub open spec fn button_drawn(a: ScreenView, b: ScreenView, x: int, y: int, label: Seq<u8>, pressed: bool, font: Seq<u8>) -> bool {
    exists|m1: ScreenView, m2: ScreenView|
        #[trigger] filled(a, m1, x, y, BTN_W as int, BTN_H as int, crate::programs::gui::screen::pack_spec(a.format, 0, 0, 0))
            && #[trigger] filled(m1, m2, x + 1, y + 1, BTN_W - 2, BTN_H - 2, button_face(a.format, pressed))
            && drawn_where(
            m2,
            b,
            |px: int, py: int|
                crate::programs::gui::screen::text_bit(font, label, px - (x + 8), py - (y + (BTN_H - GLYPH_H) / 2), label.len() as int),
            crate::programs::gui::screen::pack_spec(a.format, 0, 0, 0),
        )
}

pub fn draw_button(s: &mut Screen, x: i32, y: i32, label: &[u8], pressed: bool, font: &[u8])
    requires
        canvas_ok(old(s)@),
        font@.len() >= FONT_BYTES,
        coord(x as int) && coord(y as int),
    ensures
        canvas_ok(final(s)@),
        kept_outside_clip(old(s)@, final(s)@),
        button_drawn(old(s)@, final(s)@, x as int, y as int, label@, pressed, font@),
{
    let ghost a = s@;
    let border = s.pack(0x00, 0x00, 0x00);
    let face = if pressed { s.pack(0x90, 0x90, 0x90) } else { s.pack(0xC8, 0xC8, 0xC8) };
    s.fill(x as i64, y as i64, BTN_W as i64, BTN_H as i64, border);
    let ghost m1 = s@;
    s.fill(x as i64 + 1, y as i64 + 1, (BTN_W - 2) as i64, (BTN_H - 2) as i64, face);
    let ghost m2 = s@;
    s.text(x as i64 + 8, y as i64 + ((BTN_H - GLYPH_H) / 2) as i64, label, border, font);
    proof {
        assert(filled(a, m1, x as int, y as int, BTN_W as int, BTN_H as int, border));
        assert(filled(m1, m2, x + 1, y + 1, BTN_W - 2, BTN_H - 2, button_face(a.format, pressed)));
        assert(drawn_where(
            m2,
            s@,
            |px: int, py: int|
                crate::programs::gui::screen::text_bit(font@, label@, px - (x + 8), py - (y + (BTN_H - GLYPH_H) / 2), label@.len() as int),
            border,
        ));
        assert forall|px: int, py: int| on_screen(a, px, py) && !in_clip(a, px, py) implies #[trigger] pixel(s@, px, py) == pixel(a, px, py) by {
            assert(pixel(m1, px, py) == pixel(a, px, py));
            assert(pixel(m2, px, py) == pixel(m1, px, py));
        }
        let bit = |px: int, py: int|
            crate::programs::gui::screen::text_bit(font@, label@, px - (x + 8), py - (y + (BTN_H - GLYPH_H) / 2), label@.len() as int);
        assert(drawn_where(m2, s@, bit, border));
        assert(button_drawn(a, s@, x as int, y as int, label@, pressed, font@));
    }
}

/// Launcher button `k` is the pressed one.
pub open spec fn is_pressed(pressed_btn: u8, k: u8) -> bool {
    pressed_btn == k
}

/// `b` is `a` with the launcher's content drawn within the clip: a light
/// background over the whole canvas, then its three buttons, the pressed one
/// (1..3) darker.
pub open spec fn launcher_drawn(a: ScreenView, b: ScreenView, pressed_btn: u8, font: Seq<u8>) -> bool {
    exists|m0: ScreenView, m1: ScreenView, m2: ScreenView|
        #[trigger] filled(a, m0, 0, 0, a.width as int, a.height as int, crate::programs::gui::screen::pack_spec(a.format, 0xE8, 0xE8, 0xE8))
            && #[trigger] button_drawn(m0, m1, BTN_X - 1, 12, "Task Manager".spec_bytes(), is_pressed(pressed_btn, 1), font)
            && #[trigger] button_drawn(m1, m2, BTN_X - 1, 12 + (BTN_H + 8), "Terminal".spec_bytes(), is_pressed(pressed_btn, 2), font)
            && #[trigger] button_drawn(m2, b, BTN_X - 1, 12 + 2 * (BTN_H + 8), "Profiler".spec_bytes(), is_pressed(pressed_btn, 3), font)
}

/// The launcher's content: a light background and its three buttons, the
/// pressed one (1..3) darker.
pub fn draw_launcher_body(c: &mut Screen, pressed_btn: u8, font: &[u8])
    requires
        canvas_ok(old(c)@),
        font@.len() >= FONT_BYTES,
    ensures
        canvas_ok(final(c)@),
        kept_outside_clip(old(c)@, final(c)@),
        launcher_drawn(old(c)@, final(c)@, pressed_btn, font@),
{
    let ghost a = c@;
    let bg = c.pack(0xE8, 0xE8, 0xE8);
    let w = c.width();
    let h = c.height();
    c.fill(0, 0, w as i64, h as i64, bg);
    let ghost m0 = c@;
    let l1 = "Task Manager".as_bytes();
    let l2 = "Terminal".as_bytes();
    let l3 = "Profiler".as_bytes();
    draw_button(c, BTN_X - 1, 12, l1, pressed_btn == 1, font);
    let ghost m1 = c@;
    draw_button(c, BTN_X - 1, 12 + (BTN_H + 8), l2, pressed_btn == 2, font);
    let ghost m2 = c@;
    draw_button(c, BTN_X - 1, 12 + 2 * (BTN_H + 8), l3, pressed_btn == 3, font);
    proof {
        assert(button_drawn(m0, m1, BTN_X - 1, 12, "Task Manager".spec_bytes(), is_pressed(pressed_btn, 1), font@));
        assert(button_drawn(m1, m2, BTN_X - 1, 12 + (BTN_H + 8), "Terminal".spec_bytes(), is_pressed(pressed_btn, 2), font@));
        assert(button_drawn(m2, c@, BTN_X - 1, 12 + 2 * (BTN_H + 8), "Profiler".spec_bytes(), is_pressed(pressed_btn, 3), font@));
        assert(filled(a, m0, 0, 0, a.width as int, a.height as int, crate::programs::gui::screen::pack_spec(a.format, 0xE8, 0xE8, 0xE8)));
        assert(launcher_drawn(a, c@, pressed_btn, font@));
        assert forall|px: int, py: int| on_screen(a, px, py) && !in_clip(a, px, py) implies #[trigger] pixel(c@, px, py) == pixel(a, px, py) by {
            assert(pixel(m0, px, py) == pixel(a, px, py));
            assert(pixel(m1, px, py) == pixel(m0, px, py));
            assert(pixel(m2, px, py) == pixel(m1, px, py));
        }
    }
}

pub open spec fn win_ok(win: Win) -> bool {
    coord(win.x as int) && coord(win.y as int) && coord(win.w as int) && coord(win.h as int)
}

/// Fill the `w` by `h` rectangle at `(x, y)` with `c` when `on`, else change nothing.
pub open spec fn maybe_filled(on: bool, a: ScreenView, b: ScreenView, x: int, y: int, w: int, h: int, c: u32) -> bool {
    if on { filled(a, b, x, y, w, h, c) } else { b == a && screen_wf(a) }
}

/// `b` is `a` with `t` written in `color` from `(x, y)`.
pub open spec fn text_drawn(a: ScreenView, b: ScreenView, x: int, y: int, t: Seq<u8>, font: Seq<u8>, color: u32) -> bool {
    drawn_where(a, b, |px: int, py: int| crate::programs::gui::screen::text_bit(font, t, px - x, py - y, t.len() as int), color)
}

/// The close box at `(cx, cy)`: a red square with a white `x`, drawn when
/// `on` (else nothing changes).
pub open spec fn close_box_drawn(on: bool, a: ScreenView, m: ScreenView, b: ScreenView, cx: int, cy: int, font: Seq<u8>) -> bool {
    if on {
        &&& filled(a, m, cx, cy, CLOSE_SZ as int, CLOSE_SZ as int, crate::programs::gui::screen::pack_spec(a.format, 0xC0, 0x40, 0x40))
        &&& text_drawn(m, b, cx + (CLOSE_SZ - ADVANCE) / 2, cy + (CLOSE_SZ - GLYPH_H) / 2, seq![0x78u8], font,
            crate::programs::gui::screen::pack_spec(a.format, 0xFF, 0xFF, 0xFF))
    } else {
        b == a && m == a && screen_wf(a)
    }
}

pub open spec fn frame_border(fmt: u32, focused: bool) -> u32 {
    if focused { crate::programs::gui::screen::pack_spec(fmt, 0x3A, 0x6A, 0xB8) } else { crate::programs::gui::screen::pack_spec(fmt, 0x44, 0x4E, 0x5E) }
}

pub open spec fn title_bar(fmt: u32, focused: bool) -> u32 {
    if focused { crate::programs::gui::screen::pack_spec(fmt, 0x28, 0x60, 0xC0) } else { crate::programs::gui::screen::pack_spec(fmt, 0x4A, 0x55, 0x66) }
}

pub open spec fn title_text(fmt: u32, focused: bool) -> u32 {
    if focused { crate::programs::gui::screen::pack_spec(fmt, 0xFF, 0xFF, 0xFF) } else { crate::programs::gui::screen::pack_spec(fmt, 0xCE, 0xD6, 0xE0) }
}

/// `b` is `a` with a window's chrome drawn at `win`, in this order within the
/// clip: the frame, the title bar, the accent line (when focused), the
/// title, and the close box (when it has one).
pub open spec fn frame_drawn(a: ScreenView, b: ScreenView, win: Win, title: Seq<u8>, focused: bool, has_close: bool, font: Seq<u8>) -> bool {
    let (x, y, w, h) = (win.x as int, win.y as int, win.w as int, win.h as int);
    let fmt = a.format;
    exists|m1: ScreenView, m2: ScreenView, m3: ScreenView, m4: ScreenView, m5: ScreenView|
        #[trigger] filled(a, m1, x, y, w, h, frame_border(fmt, focused))
            && #[trigger] filled(m1, m2, x, y, w, TITLE_H as int, title_bar(fmt, focused))
            && #[trigger] maybe_filled(focused, m2, m3, x, y + TITLE_H - 2, w, 2, crate::programs::gui::screen::pack_spec(fmt, 0x80, 0xB4, 0xFF))
            && #[trigger] text_drawn(m3, m4, x + BORDER + 4, y + (TITLE_H - GLYPH_H) / 2, title, font, title_text(fmt, focused))
            && #[trigger] close_box_drawn(has_close, m4, m5, b, x + w - (CLOSE_SZ + BORDER), y + (TITLE_H - CLOSE_SZ) / 2, font)
}

/// The window chrome: the frame, the title bar (lit when focused, with an
/// accent line), the title, and the close box unless the window has none.
pub fn draw_frame(s: &mut Screen, win: &Win, title: &[u8], focused: bool, has_close: bool, font: &[u8])
    requires
        canvas_ok(old(s)@),
        font@.len() >= FONT_BYTES,
        win_ok(*win),
    ensures
        canvas_ok(final(s)@),
        kept_outside_clip(old(s)@, final(s)@),
        frame_drawn(old(s)@, final(s)@, *win, title@, focused, has_close, font@),
{
    let ghost a = s@;
    let fmt = s.format();
    let x = win.x as i64;
    let y = win.y as i64;
    let w = win.w as i64;
    let h = win.h as i64;
    let border = if focused { pack_fmt(fmt, 0x3A, 0x6A, 0xB8) } else { pack_fmt(fmt, 0x44, 0x4E, 0x5E) };
    let titlebar = if focused { pack_fmt(fmt, 0x28, 0x60, 0xC0) } else { pack_fmt(fmt, 0x4A, 0x55, 0x66) };
    s.fill(x, y, w, h, border);
    let ghost m1 = s@;
    s.fill(x, y, w, TITLE_H as i64, titlebar);
    let ghost m2 = s@;
    if focused {
        s.fill(x, y + (TITLE_H - 2) as i64, w, 2, pack_fmt(fmt, 0x80, 0xB4, 0xFF));
    }
    let ghost m3 = s@;
    let txt = if focused { pack_fmt(fmt, 0xFF, 0xFF, 0xFF) } else { pack_fmt(fmt, 0xCE, 0xD6, 0xE0) };
    s.text(x + (BORDER + 4) as i64, y + ((TITLE_H - GLYPH_H) / 2) as i64, title, txt, font);
    let ghost m4 = s@;
    let cx = x + w - (CLOSE_SZ + BORDER) as i64;
    let cy = y + ((TITLE_H - CLOSE_SZ) / 2) as i64;
    if has_close {
        s.fill(cx, cy, CLOSE_SZ as i64, CLOSE_SZ as i64, pack_fmt(fmt, 0xC0, 0x40, 0x40));
    }
    let ghost m5 = s@;
    let xb: [u8; 1] = [0x78];
    if has_close {
        s.text(cx + ((CLOSE_SZ - ADVANCE) / 2) as i64, cy + ((CLOSE_SZ - GLYPH_H) / 2) as i64, &xb, pack_fmt(
            fmt,
            0xFF,
            0xFF,
            0xFF,
        ), font);
    }
    proof {
        assert(xb@ =~= seq![0x78u8]);
        assert(filled(a, m1, x as int, y as int, w as int, h as int, frame_border(fmt, focused)));
        assert(filled(m1, m2, x as int, y as int, w as int, TITLE_H as int, title_bar(fmt, focused)));
        assert(maybe_filled(focused, m2, m3, x as int, y + TITLE_H - 2, w as int, 2, crate::programs::gui::screen::pack_spec(fmt, 0x80, 0xB4, 0xFF)));
        assert(text_drawn(m3, m4, x + BORDER + 4, y + (TITLE_H - GLYPH_H) / 2, title@, font@, title_text(fmt, focused)));
        assert(close_box_drawn(has_close, m4, m5, s@, cx as int, cy as int, font@));
        let (gx, gy, gw, gh) = (win.x as int, win.y as int, win.w as int, win.h as int);
        assert(filled(a, m1, gx, gy, gw, gh, frame_border(a.format, focused)));
        assert(filled(m1, m2, gx, gy, gw, TITLE_H as int, title_bar(a.format, focused)));
        assert(maybe_filled(focused, m2, m3, gx, gy + TITLE_H - 2, gw, 2, crate::programs::gui::screen::pack_spec(a.format, 0x80, 0xB4, 0xFF)));
        assert(text_drawn(m3, m4, gx + BORDER + 4, gy + (TITLE_H - GLYPH_H) / 2, title@, font@, title_text(a.format, focused)));
        assert(close_box_drawn(has_close, m4, m5, s@, gx + gw - (CLOSE_SZ + BORDER), gy + (TITLE_H - CLOSE_SZ) / 2, font@));
        assert(frame_drawn(a, s@, *win, title@, focused, has_close, font@));
        assert forall|px: int, py: int| on_screen(a, px, py) && !in_clip(a, px, py) implies #[trigger] pixel(s@, px, py) == pixel(a, px, py) by {
            assert(pixel(m1, px, py) == pixel(a, px, py));
            assert(pixel(m2, px, py) == pixel(m1, px, py));
            assert(pixel(m3, px, py) == pixel(m2, px, py));
            assert(pixel(m4, px, py) == pixel(m3, px, py));
            assert(pixel(m5, px, py) == pixel(m4, px, py));
        }
    }
}

/// Gridlines `1..q` of a graph: a line a quarter of the height apart,
/// counted up from the bottom.
pub open spec fn grid_ops(x: int, y: int, w: int, h: int, c: u32, q: int) -> Seq<DrawOp>
    decreases q,
{
    if q <= 1 { Seq::empty() } else { grid_ops(x, y, w, h, c, q - 1).push(DrawOp::Fill { x, y: y + h - (q - 1) * h / 4, w, h: 1, c }) }
}

/// Columns `0..n` of a graph `w` wide: column `px` shows sample
/// `px * count / w` of the last `count` in the ring, as a bar of that many
/// permille of the height (none when empty or absurdly tall).
pub open spec fn graph_col_ops(x: int, y: int, w: int, h: int, hist: Seq<u16>, head: int, count: int, cap: int, c: u32, n: int) -> Seq<DrawOp>
    decreases n,
{
    if n <= 0 {
        Seq::empty()
    } else {
        let prev = graph_col_ops(x, y, w, h, hist, head, count, cap, c, n - 1);
        let px = n - 1;
        let ii = px * count / w;
        let idx = (head + cap - count + ii) % cap;
        let bh = hist[idx] * h / 1000;
        if bh > 0 && bh <= 4 * CANVAS_MAX { prev.push(DrawOp::Fill { x: x + px, y: y + h - bh, w: 1, h: bh, c }) } else { prev }
    }
}

/// A graph's operations: the background, three gridlines, the bars, the border.
pub open spec fn graph_ops(x: int, y: int, w: int, h: int, hist: Seq<u16>, head: int, count: int, cap: int, c: u32, fmt: u32) -> Seq<DrawOp> {
    if w <= 0 || h <= 0 {
        Seq::empty()
    } else {
        let bd = pack_spec(fmt, 0x50, 0x58, 0x64);
        seq![DrawOp::Fill { x, y, w, h, c: pack_spec(fmt, 0x10, 0x12, 0x18) }] + grid_ops(x, y, w, h, pack_spec(fmt, 0x30, 0x36, 0x40), 4)
            + (if count > 0 { graph_col_ops(x, y, w, h, hist, head, count, cap, c, w) } else { Seq::empty() })
            + seq![
            DrawOp::Fill { x, y, w, h: 1, c: bd },
            DrawOp::Fill { x, y: y + h - 1, w, h: 1, c: bd },
            DrawOp::Fill { x, y, w: 1, h, c: bd },
            DrawOp::Fill { x: x + w - 1, y, w: 1, h, c: bd },
        ]
    }
}

/// A history graph: dark background, quarter gridlines, one column per pixel
/// mapped onto the last `count` samples of the ring `hist` (newest on the
/// right, heights in permille of `h`), and a border.
pub fn draw_graph(s: &mut Screen, x: i32, y: i32, w: i32, h: i32, hist: &[u16], head: usize, count: usize, cap: usize, color: u32)
    requires
        canvas_ok(old(s)@),
        coord(x as int) && coord(y as int) && coord(w as int) && coord(h as int),
        hist@.len() == cap,
        head < cap,
        count <= cap,
        cap <= 4096,
    ensures
        canvas_ok(final(s)@),
        kept_outside_clip(old(s)@, final(s)@),
        final(s)@ == render(old(s)@, graph_ops(x as int, y as int, w as int, h as int, hist@, head as int, count as int, cap as int,
            color, old(s)@.format)),
{
    let ghost a = s@;
    proof { lemma_kept_refl(a); }
    if w <= 0 || h <= 0 {
        return;
    }
    let ghost (gx, gy, gw, gh) = (x as int, y as int, w as int, h as int);
    let (x, y, w, h) = (x as i64, y as i64, w as i64, h as i64);
    let bg = s.pack(0x10, 0x12, 0x18);
    fill_k(s, x, y, w, h, bg, Ghost(a));
    let ghost op0 = DrawOp::Fill { x: gx, y: gy, w: gw, h: gh, c: bg };
    proof {
        lemma_render_push(a, Seq::empty(), op0);
        assert(Seq::<DrawOp>::empty().push(op0) =~= seq![op0]);
    }
    let grid = s.pack(0x30, 0x36, 0x40);
    let mut q: i64 = 1;
    while q < 4
        invariant
            1 <= q <= 4,
            kept_outside_clip(a, s@),
            canvas_ok(a),
            coord(x as int) && coord(y as int) && 0 < w && coord(w as int) && 0 < h && coord(h as int),
            gx == x && gy == y && gw == w && gh == h,
            s@ == render(a, seq![op0] + grid_ops(gx, gy, gw, gh, grid, q as int)),
        decreases 4 - q,
    {
        assert(0 <= q * h <= 4 * h) by (nonlinear_arith)
            requires
                1 <= q < 4,
                h > 0,
        ;
        let yy = y + h - q * h / 4;
        let ghost prev = seq![op0] + grid_ops(gx, gy, gw, gh, grid, q as int);
        fill_k(s, x, yy, w, 1, grid, Ghost(a));
        proof {
            let op = DrawOp::Fill { x: gx, y: gy + gh - q * gh / 4, w: gw, h: 1, c: grid };
            lemma_render_push(a, prev, op);
            assert(prev.push(op) =~= seq![op0] + grid_ops(gx, gy, gw, gh, grid, q + 1));
        }
        q = q + 1;
    }
    let ghost before_cols = seq![op0] + grid_ops(gx, gy, gw, gh, grid, 4);
    if count > 0 {
        let mut px: i64 = 0;
        proof {
            assert(before_cols + graph_col_ops(gx, gy, gw, gh, hist@, head as int, count as int, cap as int, color, 0) =~= before_cols);
        }
        while px < w
            invariant
                0 <= px <= w,
                kept_outside_clip(a, s@),
                canvas_ok(a),
                coord(x as int) && coord(y as int) && 0 < w && coord(w as int) && 0 < h && coord(h as int),
                gx == x && gy == y && gw == w && gh == h,
                hist@.len() == cap,
                head < cap,
                0 < count <= cap,
                cap <= 4096,
                s@ == render(a, before_cols + graph_col_ops(gx, gy, gw, gh, hist@, head as int, count as int, cap as int, color, px as int)),
            decreases w - px,
        {
            assert((px as int) * (count as int) <= (w as int) * 4096) by (nonlinear_arith)
                requires
                    0 <= px <= w,
                    count <= 4096,
            ;
            let ii: i64 = px * (count as i64) / w;
            assert(0 <= ii < count) by (nonlinear_arith)
                requires
                    ii == (px as int) * (count as int) / (w as int),
                    0 <= px < w,
                    count > 0,
            ;
            let i = ii as usize;
            let idx = (head + cap - count + i) % cap;
            let hv = hist[idx] as i64;
            assert(0 <= hv * h <= 65535 * h) by (nonlinear_arith)
                requires
                    0 <= hv <= 65535,
                    h > 0,
            ;
            let bh = hv * h / 1000;
            let ghost prev = before_cols + graph_col_ops(gx, gy, gw, gh, hist@, head as int, count as int, cap as int, color, px as int);
            proof {
                assert(before_cols + graph_col_ops(gx, gy, gw, gh, hist@, head as int, count as int, cap as int, color, px + 1)
                    == (if bh > 0 && bh <= 4 * CANVAS_MAX { prev.push(DrawOp::Fill { x: gx + px, y: gy + gh - bh, w: 1, h: bh as int, c: color }) } else { prev })) by {
                    let g = graph_col_ops(gx, gy, gw, gh, hist@, head as int, count as int, cap as int, color, px as int);
                    assert(before_cols + g.push(DrawOp::Fill { x: gx + px, y: gy + gh - bh, w: 1, h: bh as int, c: color })
                        =~= prev.push(DrawOp::Fill { x: gx + px, y: gy + gh - bh, w: 1, h: bh as int, c: color }));
                }
            }
            if bh > 0 && bh <= 4 * CANVAS_MAX as i64 {
                fill_k(s, x + px, y + h - bh, 1, bh, color, Ghost(a));
                proof {
                    lemma_render_push(a, prev, DrawOp::Fill { x: gx + px, y: gy + gh - bh, w: 1, h: bh as int, c: color });
                }
            }
            px = px + 1;
        }
    }
    let ghost mid = before_cols + (if count > 0 { graph_col_ops(gx, gy, gw, gh, hist@, head as int, count as int, cap as int, color, gw) } else { Seq::empty() });
    proof {
        if count == 0 {
            assert(mid =~= before_cols);
        }
    }
    assert(s@ == render(a, mid));
    let bd = s.pack(0x50, 0x58, 0x64);
    fill_k(s, x, y, w, 1, bd, Ghost(a));
    let ghost b1 = DrawOp::Fill { x: gx, y: gy, w: gw, h: 1, c: bd };
    proof { lemma_render_push(a, mid, b1); }
    fill_k(s, x, y + h - 1, w, 1, bd, Ghost(a));
    let ghost b2 = DrawOp::Fill { x: gx, y: gy + gh - 1, w: gw, h: 1, c: bd };
    proof { lemma_render_push(a, mid.push(b1), b2); }
    fill_k(s, x, y, 1, h, bd, Ghost(a));
    let ghost b3 = DrawOp::Fill { x: gx, y: gy, w: 1, h: gh, c: bd };
    proof { lemma_render_push(a, mid.push(b1).push(b2), b3); }
    fill_k(s, x + w - 1, y, 1, h, bd, Ghost(a));
    let ghost b4 = DrawOp::Fill { x: gx + gw - 1, y: gy, w: 1, h: gh, c: bd };
    proof {
        lemma_render_push(a, mid.push(b1).push(b2).push(b3), b4);
        assert(mid.push(b1).push(b2).push(b3).push(b4) =~= graph_ops(gx, gy, gw, gh, hist@, head as int, count as int, cap as int,
            color, a.format));
    }
}

/// `N.N%` for a permille value from `(x, y)`: the whole percent, a point,
/// the tenth and a percent sign, one character every 8 pixels.
pub open spec fn permille_ops(x: int, y: int, p: u16, c: u32, font: Seq<u8>) -> Seq<DrawOp> {
    let ip = crate::text::dec_digits((p / 10) as nat);
    let fp = crate::text::dec_digits((p % 10) as nat);
    seq![
        DrawOp::Text { x, y, t: ip, font, c },
        DrawOp::Text { x: x + ip.len() * 8, y, t: ".".spec_bytes(), font, c },
        DrawOp::Text { x: x + ip.len() * 8 + 8, y, t: fp, font, c },
        DrawOp::Text { x: x + ip.len() * 8 + 8 + fp.len() * 8, y, t: "%".spec_bytes(), font, c },
    ]
}

/// A permille value as `N.N%` from `x`; returns the x just past it.
pub fn text_permille(s: &mut Screen, x: i32, y: i32, permille: u16, color: u32, font: &[u8]) -> (nx: i64)
    requires
        canvas_ok(old(s)@),
        font@.len() >= FONT_BYTES,
        coord(x as int) && coord(y as int),
    ensures
        canvas_ok(final(s)@),
        kept_outside_clip(old(s)@, final(s)@),
        final(s)@ == render(old(s)@, permille_ops(x as int, y as int, permille, color, font@)),
        nx == x + 8 * (crate::text::dec_digits((permille / 10) as nat).len() + crate::text::dec_digits((permille % 10) as nat).len() + 2),
        x + 32 <= nx <= x + 64,
{
    proof {
        assert(crate::text::pow10(5) == 100000) by {
            reveal_with_fuel(crate::text::pow10, 6);
        }
        crate::text::lemma_dec_len((permille / 10) as nat, 5);
        assert(crate::text::pow10(1) == 10) by {
            reveal_with_fuel(crate::text::pow10, 2);
        }
        crate::text::lemma_dec_len((permille % 10) as nat, 1);
    }
    let ghost a = s@;
    proof { lemma_kept_refl(a); }
    let ip = fmt_dec((permille / 10) as u64);
    let fp = fmt_dec((permille % 10) as u64);
    let x = x as i64;
    let y = y as i64;
    let dot = ".".as_bytes();
    let pct = "%".as_bytes();
    text_k(s, x, y, ip.as_slice(), color, font, Ghost(a));
    let ghost o1 = DrawOp::Text { x: x as int, y: y as int, t: ip@, font: font@, c: color };
    proof { lemma_render_push(a, Seq::empty(), o1); }
    let mut xx = x + ip.len() as i64 * 8;
    text_k(s, xx, y, dot, color, font, Ghost(a));
    let ghost o2 = DrawOp::Text { x: xx as int, y: y as int, t: dot@, font: font@, c: color };
    proof { lemma_render_push(a, seq![o1], o2); assert(Seq::<DrawOp>::empty().push(o1) =~= seq![o1]); }
    xx = xx + 8;
    text_k(s, xx, y, fp.as_slice(), color, font, Ghost(a));
    let ghost o3 = DrawOp::Text { x: xx as int, y: y as int, t: fp@, font: font@, c: color };
    proof { lemma_render_push(a, seq![o1].push(o2), o3); }
    xx = xx + fp.len() as i64 * 8;
    text_k(s, xx, y, pct, color, font, Ghost(a));
    let ghost o4 = DrawOp::Text { x: xx as int, y: y as int, t: pct@, font: font@, c: color };
    proof {
        lemma_render_push(a, seq![o1].push(o2).push(o3), o4);
        assert(seq![o1].push(o2).push(o3).push(o4) =~= permille_ops(x as int, y as int, permille, color, font@));
    }
    xx + 8
}

/// The operations of Task Manager tab `i` (`active` lit and underlined).
pub open spec fn tab_ops(fmt: u32, active: u8, i: int, font: Seq<u8>) -> Seq<DrawOp> {
    let x = i * TAB_W;
    let on = active as int == i;
    let face = if on { pack_spec(fmt, 0xE8, 0xE8, 0xE8) } else { pack_spec(fmt, 0xB0, 0xB6, 0xBE) };
    let body = seq![
        DrawOp::Fill { x, y: 0, w: TAB_W as int, h: TAB_H as int, c: face },
        DrawOp::Fill { x: x + (TAB_W - 1), y: 0, w: 1, h: TAB_H as int, c: pack_spec(fmt, 0x80, 0x86, 0x90) },
    ];
    let lit = if on { body.push(DrawOp::Fill { x, y: 0, w: TAB_W as int, h: 2, c: pack_spec(fmt, 0x20, 0x60, 0xC0) }) } else { body };
    let label = if i == 0 { "Processes".spec_bytes() } else { "Performance".spec_bytes() };
    lit.push(DrawOp::Text { x: x + 10, y: (TAB_H - GLYPH_H) / 2, t: label, font, c: pack_spec(fmt, 0, 0, 0) })
}

/// The strip and tabs `0..n`.
pub open spec fn tabs_ops(w: int, fmt: u32, active: u8, n: int, font: Seq<u8>) -> Seq<DrawOp>
    decreases n,
{
    if n <= 0 {
        seq![DrawOp::Fill { x: 0, y: 0, w, h: TAB_H as int, c: pack_spec(fmt, 0xC0, 0xC6, 0xCE) }]
    } else {
        tabs_ops(w, fmt, active, n - 1, font) + tab_ops(fmt, active, n - 1, font)
    }
}

/// The Task Manager's tab strip; the active tab is lit and underlined.
pub fn draw_tabs(s: &mut Screen, active: u8, font: &[u8])
    requires
        canvas_ok(old(s)@),
        font@.len() >= FONT_BYTES,
    ensures
        canvas_ok(final(s)@),
        kept_outside_clip(old(s)@, final(s)@),
        final(s)@ == render(old(s)@, tabs_ops(old(s)@.width as int, old(s)@.format, active, 2, font@)),
{
    let ghost a = s@;
    proof { lemma_kept_refl(a); }
    let w = s.width() as i64;
    let fmt = s.format();
    let strip = s.pack(0xC0, 0xC6, 0xCE);
    fill_k(s, 0, 0, w, TAB_H as i64, strip, Ghost(a));
    proof {
        assert(seq![DrawOp::Fill { x: 0, y: 0, w: w as int, h: TAB_H as int, c: strip }] =~= Seq::<DrawOp>::empty().push(
            DrawOp::Fill { x: 0, y: 0, w: w as int, h: TAB_H as int, c: strip }));
        lemma_render_push(a, Seq::empty(), DrawOp::Fill { x: 0, y: 0, w: w as int, h: TAB_H as int, c: strip });
    }
    let mut i: u8 = 0;
    while i < 2
        invariant
            i <= 2,
            kept_outside_clip(a, s@),
            canvas_ok(a),
            font@.len() >= FONT_BYTES,
            w == a.width,
            fmt == a.format,
            s@ == render(a, tabs_ops(w as int, fmt, active, i as int, font@)),
        decreases 2 - i,
    {
        let ghost done = tabs_ops(w as int, fmt, active, i as int, font@);
        let x = i as i64 * TAB_W as i64;
        let on = active == i;
        let face = if on { s.pack(0xE8, 0xE8, 0xE8) } else { s.pack(0xB0, 0xB6, 0xBE) };
        fill_k(s, x, 0, TAB_W as i64, TAB_H as i64, face, Ghost(a));
        let ghost o1 = DrawOp::Fill { x: x as int, y: 0, w: TAB_W as int, h: TAB_H as int, c: face };
        proof { lemma_render_push(a, done, o1); }
        let edge = s.pack(0x80, 0x86, 0x90);
        fill_k(s, x + (TAB_W - 1) as i64, 0, 1, TAB_H as i64, edge, Ghost(a));
        let ghost o2 = DrawOp::Fill { x: x + (TAB_W - 1), y: 0, w: 1, h: TAB_H as int, c: edge };
        proof { lemma_render_push(a, done.push(o1), o2); }
        let ghost mid = done.push(o1).push(o2);
        if on {
            let accent = s.pack(0x20, 0x60, 0xC0);
            fill_k(s, x, 0, TAB_W as i64, 2, accent, Ghost(a));
            proof { lemma_render_push(a, done.push(o1).push(o2), DrawOp::Fill { x: x as int, y: 0, w: TAB_W as int, h: 2, c: accent }); }
        }
        let ghost lit = if on { mid.push(DrawOp::Fill { x: x as int, y: 0, w: TAB_W as int, h: 2, c: pack_spec(fmt, 0x20, 0x60, 0xC0) }) } else { mid };
        assert(s@ == render(a, lit));
        let black = s.pack(0, 0, 0);
        let label = if i == 0 { "Processes".as_bytes() } else { "Performance".as_bytes() };
        text_k(s, x + 10, ((TAB_H - GLYPH_H) / 2) as i64, label, black, font, Ghost(a));
        proof {
            let o4 = DrawOp::Text { x: x + 10, y: (TAB_H - GLYPH_H) / 2, t: label@, font: font@, c: black };
            lemma_render_push(a, lit, o4);
            let t = tab_ops(fmt, active, i as int, font@);
            assert(lit.push(o4) =~= done + t);
            assert(tabs_ops(w as int, fmt, active, i + 1, font@) == done + t);
        }
        i = i + 1;
    }
}

/// Row `row` of the 12 by 16 arrow pointer: bit `c` of the first mask is an
/// outline (black) pixel in column `c`, of the second a fill (white) one.
pub open spec fn cursor_row_spec(row: int) -> (u16, u16) {
    if row == 0 { (0x0001, 0x0000) }
    else if row == 1 { (0x0003, 0x0000) }
    else if row == 2 { (0x0005, 0x0002) }
    else if row == 3 { (0x0009, 0x0006) }
    else if row == 4 { (0x0011, 0x000e) }
    else if row == 5 { (0x0021, 0x001e) }
    else if row == 6 { (0x0041, 0x003e) }
    else if row == 7 { (0x0081, 0x007e) }
    else if row == 8 { (0x0101, 0x00fe) }
    else if row == 9 { (0x0201, 0x01fe) }
    else if row == 10 { (0x03e1, 0x001e) }
    else if row == 11 { (0x0049, 0x0036) }
    else if row == 12 { (0x0095, 0x0062) }
    else if row == 13 { (0x0093, 0x0060) }
    else if row == 14 { (0x0121, 0x00c0) }
    else if row == 15 { (0x01c0, 0x0000) }
    else { (0, 0) }
}

/// Row `row` of the pointer.
fn cursor_row(row: usize) -> (r: (u16, u16))
    ensures
        r == cursor_row_spec(row as int),
{
    match row {
        0 => (0x0001, 0x0000),
        1 => (0x0003, 0x0000),
        2 => (0x0005, 0x0002),
        3 => (0x0009, 0x0006),
        4 => (0x0011, 0x000e),
        5 => (0x0021, 0x001e),
        6 => (0x0041, 0x003e),
        7 => (0x0081, 0x007e),
        8 => (0x0101, 0x00fe),
        9 => (0x0201, 0x01fe),
        10 => (0x03e1, 0x001e),
        11 => (0x0049, 0x0036),
        12 => (0x0095, 0x0062),
        13 => (0x0093, 0x0060),
        14 => (0x0121, 0x00c0),
        15 => (0x01c0, 0x0000),
        _ => (0, 0),
    }
}

/// Columns `0..n` of pointer row `row` at `(cx, cy)`: a black pixel where
/// the outline has a bit, else a white one where the fill has one.
pub open spec fn cursor_col_ops(cx: int, cy: int, row: int, n: int, black: u32, white: u32) -> Seq<DrawOp>
    decreases n,
{
    if n <= 0 {
        Seq::empty()
    } else {
        let prev = cursor_col_ops(cx, cy, row, n - 1, black, white);
        let col = n - 1;
        let bit = 1u16 << (col as u16);
        if cursor_row_spec(row).0 & bit != 0 {
            prev.push(DrawOp::Put { x: cx + col, y: cy + row, c: black })
        } else if cursor_row_spec(row).1 & bit != 0 {
            prev.push(DrawOp::Put { x: cx + col, y: cy + row, c: white })
        } else {
            prev
        }
    }
}

/// Rows `0..rows` of the pointer (12 columns each).
pub open spec fn cursor_ops(cx: int, cy: int, rows: int, black: u32, white: u32) -> Seq<DrawOp>
    decreases rows,
{
    if rows <= 0 {
        Seq::empty()
    } else {
        cursor_ops(cx, cy, rows - 1, black, white) + cursor_col_ops(cx, cy, rows - 1, 12, black, white)
    }
}

/// The mouse pointer (a 12 by 16 arrow: black outline, white fill) with its
/// tip at `(cx, cy)`, within the clip.
pub fn draw_cursor(s: &mut Screen, cx: i32, cy: i32)
    requires
        canvas_ok(old(s)@),
    ensures
        canvas_ok(final(s)@),
        kept_outside_clip(old(s)@, final(s)@),
        final(s)@ == render(old(s)@, cursor_ops(cx as int, cy as int, 16, pack_spec(old(s)@.format, 0, 0, 0),
            pack_spec(old(s)@.format, 0xFF, 0xFF, 0xFF))),
{
    let ghost a = s@;
    proof { lemma_kept_refl(a); }
    let white = s.pack(0xFF, 0xFF, 0xFF);
    let black = s.pack(0x00, 0x00, 0x00);
    let mut row: usize = 0;
    while row < 16
        invariant
            row <= 16,
            kept_outside_clip(a, s@),
            canvas_ok(a),
            black == pack_spec(a.format, 0, 0, 0),
            white == pack_spec(a.format, 0xFF, 0xFF, 0xFF),
            s@ == render(a, cursor_ops(cx as int, cy as int, row as int, black, white)),
        decreases 16 - row,
    {
        let (o, w) = cursor_row(row);
        let ghost done = cursor_ops(cx as int, cy as int, row as int, black, white);
        let mut col: u16 = 0;
        proof {
            assert(done + cursor_col_ops(cx as int, cy as int, row as int, 0, black, white) =~= done);
        }
        while col < 12
            invariant
                col <= 12,
                row < 16,
                kept_outside_clip(a, s@),
                canvas_ok(a),
                (o, w) == cursor_row_spec(row as int),
                done == cursor_ops(cx as int, cy as int, row as int, black, white),
                s@ == render(a, done + cursor_col_ops(cx as int, cy as int, row as int, col as int, black, white)),
            decreases 12 - col,
        {
            let bit: u16 = 1u16 << col;
            let ghost prev = done + cursor_col_ops(cx as int, cy as int, row as int, col as int, black, white);
            if o & bit != 0 {
                put_k(s, cx as i64 + col as i64, cy as i64 + row as i64, black, Ghost(a));
                proof {
                    let op = DrawOp::Put { x: cx + col, y: cy + row, c: black };
                    lemma_render_push(a, prev, op);
                    assert(prev.push(op) =~= done + cursor_col_ops(cx as int, cy as int, row as int, col + 1, black, white));
                }
            } else if w & bit != 0 {
                put_k(s, cx as i64 + col as i64, cy as i64 + row as i64, white, Ghost(a));
                proof {
                    let op = DrawOp::Put { x: cx + col, y: cy + row, c: white };
                    lemma_render_push(a, prev, op);
                    assert(prev.push(op) =~= done + cursor_col_ops(cx as int, cy as int, row as int, col + 1, black, white));
                }
            } else {
                proof {
                    assert(prev =~= done + cursor_col_ops(cx as int, cy as int, row as int, col + 1, black, white));
                }
            }
            col = col + 1;
        }
        row = row + 1;
    }
}

/// The colours of a taskbar button: the wash and its strength, the accent
/// line and the label.
pub open spec fn tb_wash(fmt: u32, active: bool) -> u32 {
    if active { crate::programs::gui::screen::pack_spec(fmt, 0x4C, 0x8C, 0xE0) } else { crate::programs::gui::screen::pack_spec(fmt, 0x38, 0x44, 0x56) }
}

pub open spec fn tb_alpha(active: bool) -> u32 {
    if active { 150 } else { 70 }
}

pub open spec fn tb_label(fmt: u32, active: bool) -> u32 {
    if active { crate::programs::gui::screen::pack_spec(fmt, 0xFF, 0xFF, 0xFF) } else { crate::programs::gui::screen::pack_spec(fmt, 0xC6, 0xD0, 0xDC) }
}

/// `v / 2` rounded toward zero.
pub open spec fn half_trunc(v: int) -> int {
    if v >= 0 { v / 2 } else { -((-v) / 2) }
}

/// How many characters of a label fit a button `w` wide.
pub open spec fn tb_fit(label_len: int, w: int) -> int {
    let room = (w - 12) / ADVANCE as int;
    let maxch = if room > 0 { room } else { 0 };
    if label_len < maxch { label_len } else { maxch }
}

/// `b` is `a` with a taskbar button drawn within the clip: the wash over
/// `[x, x + w) x [y, y + h)`, the accent line when active, then as much of
/// the label as fits.
pub open spec fn tb_button_drawn(a: ScreenView, b: ScreenView, x: int, y: int, w: int, h: int, label: Seq<u8>, active: bool, font: Seq<u8>) -> bool {
    let fmt = a.format;
    exists|m1: ScreenView, m2: ScreenView|
        #[trigger] blended(a, m1, x, y, x + w, y + h, tb_wash(fmt, active), tb_alpha(active))
            && #[trigger] maybe_filled(active, m1, m2, x, y + h - 2, w, 2, crate::programs::gui::screen::pack_spec(fmt, 0x80, 0xB4, 0xFF))
            && #[trigger] text_drawn(m2, b, x + 6, y + half_trunc(h - GLYPH_H), label.take(tb_fit(label.len() as int, w)), font, tb_label(fmt, active))
}

/// A taskbar button's operations: the wash, the accent line when active,
/// then as much of the label as fits.
pub open spec fn tb_button_ops(x: int, y: int, w: int, h: int, label: Seq<u8>, active: bool, fmt: u32, font: Seq<u8>) -> Seq<DrawOp> {
    seq![DrawOp::Blend { x0: x, y0: y, x1: x + w, y1: y + h, c: tb_wash(fmt, active), alpha: tb_alpha(active) }] + (if active {
        seq![DrawOp::Fill { x, y: y + h - 2, w, h: 2, c: pack_spec(fmt, 0x80, 0xB4, 0xFF) }]
    } else {
        Seq::empty()
    }) + seq![
        DrawOp::Text { x: x + 6, y: y + half_trunc(h - GLYPH_H), t: label.take(tb_fit(label.len() as int, w)), font, c: tb_label(fmt, active) },
    ]
}

/// A taskbar button: a translucent wash (brighter with an accent line when
/// active) and as much of the label as fits.
pub fn draw_tb_button(s: &mut Screen, x: i32, y: i32, w: i32, h: i32, label: &[u8], active: bool, font: &[u8])
    requires
        canvas_ok(old(s)@),
        font@.len() >= FONT_BYTES,
        coord(x as int) && coord(y as int) && coord(w as int) && coord(h as int),
    ensures
        canvas_ok(final(s)@),
        kept_outside_clip(old(s)@, final(s)@),
        tb_button_drawn(old(s)@, final(s)@, x as int, y as int, w as int, h as int, label@, active, font@),
        final(s)@ == render(old(s)@, tb_button_ops(x as int, y as int, w as int, h as int, label@, active, old(s)@.format, font@)),
{
    let ghost a = s@;
    let fmt = s.format();
    if active {
        blend_region(s, x, y, x + w, y + h, pack_fmt(fmt, 0x4C, 0x8C, 0xE0), 150);
    } else {
        blend_region(s, x, y, x + w, y + h, pack_fmt(fmt, 0x38, 0x44, 0x56), 70);
    }
    let ghost m1 = s@;
    if active {
        s.fill(x as i64, (y + h - 2) as i64, w as i64, 2, pack_fmt(fmt, 0x80, 0xB4, 0xFF));
    }
    let ghost m2 = s@;
    let txt = if active { pack_fmt(fmt, 0xFF, 0xFF, 0xFF) } else { pack_fmt(fmt, 0xC6, 0xD0, 0xDC) };
    let maxch: usize = if w > 12 { ((w - 12) / ADVANCE) as usize } else { 0 };
    let n = if label.len() < maxch { label.len() } else { maxch };
    assert(n == tb_fit(label@.len() as int, w as int));
    let dy: i32 = if h >= GLYPH_H { (h - GLYPH_H) / 2 } else { -((GLYPH_H - h) / 2) };
    s.text((x + 6) as i64, (y + dy) as i64, &label[0..n], txt, font);
    proof {
        assert(label@.subrange(0, n as int) =~= label@.take(n as int));
        assert(blended(a, m1, x as int, y as int, x + w, y + h, tb_wash(a.format, active), tb_alpha(active)));
        assert(maybe_filled(active, m1, m2, x as int, y + h - 2, w as int, 2, crate::programs::gui::screen::pack_spec(a.format, 0x80, 0xB4, 0xFF)));
        assert(text_drawn(m2, s@, x + 6, y + half_trunc(h - GLYPH_H), label@.take(tb_fit(label@.len() as int, w as int)), font@, tb_label(a.format, active)));
        assert(tb_button_drawn(a, s@, x as int, y as int, w as int, h as int, label@, active, font@));
        let op1 = DrawOp::Blend { x0: x as int, y0: y as int, x1: x + w, y1: y + h, c: tb_wash(a.format, active), alpha: tb_alpha(active) };
        let op3 = DrawOp::Text { x: x + 6, y: y + half_trunc(h - GLYPH_H), t: label@.take(tb_fit(label@.len() as int, w as int)), font: font@,
            c: tb_label(a.format, active) };
        lemma_blended(a, m1, x as int, y as int, x + w, y + h, tb_wash(a.format, active), tb_alpha(active));
        lemma_render_push(a, Seq::empty(), op1);
        assert(Seq::<DrawOp>::empty().push(op1) =~= seq![op1]);
        lemma_apply_wf(a, op1);
        let mid = if active {
            seq![op1, DrawOp::Fill { x: x as int, y: y + h - 2, w: w as int, h: 2, c: pack_spec(a.format, 0x80, 0xB4, 0xFF) }]
        } else {
            seq![op1]
        };
        if active {
            let op2 = DrawOp::Fill { x: x as int, y: y + h - 2, w: w as int, h: 2, c: pack_spec(a.format, 0x80, 0xB4, 0xFF) };
            lemma_filled(m1, m2, x as int, y + h - 2, w as int, 2, pack_spec(a.format, 0x80, 0xB4, 0xFF));
            lemma_render_push(a, seq![op1], op2);
            assert(seq![op1].push(op2) =~= mid);
        }
        assert(m2 == render(a, mid));
        lemma_render_wf(a, mid);
        lemma_text(m2, s@, x + 6, y + half_trunc(h - GLYPH_H), label@.take(tb_fit(label@.len() as int, w as int)), font@,
            tb_label(a.format, active));
        lemma_render_push(a, mid, op3);
        assert(mid.push(op3) =~= tb_button_ops(x as int, y as int, w as int, h as int, label@, active, a.format, font@));
        assert forall|px: int, py: int| on_screen(a, px, py) && !in_clip(a, px, py) implies #[trigger] pixel(s@, px, py) == pixel(a, px, py) by {
            assert(pixel(m1, px, py) == pixel(a, px, py));
            assert(pixel(m2, px, py) == pixel(m1, px, py));
        }
    }
}

pub open spec fn pager_color(fmt: u32, lit: bool) -> u32 {
    if lit { crate::programs::gui::screen::pack_spec(fmt, 0xFF, 0xFF, 0xFF) } else { crate::programs::gui::screen::pack_spec(fmt, 0x5A, 0x66, 0x76) }
}

pub open spec fn up_color(fmt: u32, page: int) -> u32 {
    pager_color(fmt, page > 0)
}

pub open spec fn down_color(fmt: u32, page: int, pages: int) -> u32 {
    pager_color(fmt, page + 1 < pages)
}

/// `b` is `a` with the pager at `x` drawn within the clip: `^` (lit unless
/// on the first page) above `v` (lit unless on the last).
pub open spec fn pager_drawn(a: ScreenView, b: ScreenView, x: int, top: int, page: int, pages: int, font: Seq<u8>) -> bool {
    let cx = x + (PAGER_W - ADVANCE) / 2;
    exists|m: ScreenView|
        #[trigger] text_drawn(a, m, cx, top + 4, seq![0x5eu8], font, up_color(a.format, page))
            && #[trigger] text_drawn(m, b, cx, top + TASKBAR_H - GLYPH_H - 4, seq![0x76u8], font, down_color(a.format, page, pages))
}

/// The pager's operations: `^` (lit unless on the first page) above `v`
/// (lit unless on the last).
pub open spec fn pager_ops(x: int, top: int, page: int, pages: int, fmt: u32, font: Seq<u8>) -> Seq<DrawOp> {
    let cx = x + (PAGER_W - ADVANCE) / 2;
    seq![
        DrawOp::Text { x: cx, y: top + 4, t: seq![0x5eu8], font, c: up_color(fmt, page) },
        DrawOp::Text { x: cx, y: top + TASKBAR_H - GLYPH_H - 4, t: seq![0x76u8], font, c: down_color(fmt, page, pages) },
    ]
}

/// The taskbar's page switcher: up and down arrows, dimmed at the ends.
pub fn draw_pager(s: &mut Screen, x: i32, top: i32, page: usize, pages: usize, font: &[u8])
    requires
        canvas_ok(old(s)@),
        font@.len() >= FONT_BYTES,
        coord(x as int) && coord(top as int),
    ensures
        canvas_ok(final(s)@),
        kept_outside_clip(old(s)@, final(s)@),
        pager_drawn(old(s)@, final(s)@, x as int, top as int, page as int, pages as int, font@),
        final(s)@ == render(old(s)@, pager_ops(x as int, top as int, page as int, pages as int, old(s)@.format, font@)),
{
    let ghost a = s@;
    let fmt = s.format();
    let cx = (x + (PAGER_W - ADVANCE) / 2) as i64;
    let on = pack_fmt(fmt, 0xFF, 0xFF, 0xFF);
    let off = pack_fmt(fmt, 0x5A, 0x66, 0x76);
    let up: [u8; 1] = [0x5e];
    let down: [u8; 1] = [0x76];
    s.text(cx, (top + 4) as i64, &up, if page > 0 { on } else { off }, font);
    let ghost m = s@;
    let more = page < pages && pages - page > 1;
    s.text(cx, (top + TASKBAR_H - GLYPH_H - 4) as i64, &down, if more { on } else { off }, font);
    proof {
        assert(up@ =~= seq![0x5eu8]);
        assert(down@ =~= seq![0x76u8]);
        assert(more == (page + 1 < pages));
        assert(text_drawn(a, m, cx as int, top + 4, seq![0x5eu8], font@, up_color(a.format, page as int)));
        assert(text_drawn(m, s@, cx as int, top + TASKBAR_H - GLYPH_H - 4, seq![0x76u8], font@, down_color(a.format, page as int, pages as int)));
        assert(pager_drawn(a, s@, x as int, top as int, page as int, pages as int, font@));
        let op1 = DrawOp::Text { x: cx as int, y: top + 4, t: seq![0x5eu8], font: font@, c: up_color(a.format, page as int) };
        let op2 = DrawOp::Text { x: cx as int, y: top + TASKBAR_H - GLYPH_H - 4, t: seq![0x76u8], font: font@,
            c: down_color(a.format, page as int, pages as int) };
        lemma_text(a, m, cx as int, top + 4, seq![0x5eu8], font@, up_color(a.format, page as int));
        lemma_render_push(a, Seq::empty(), op1);
        assert(Seq::<DrawOp>::empty().push(op1) =~= seq![op1]);
        lemma_apply_wf(a, op1);
        lemma_text(m, s@, cx as int, top + TASKBAR_H - GLYPH_H - 4, seq![0x76u8], font@, down_color(a.format, page as int, pages as int));
        lemma_render_push(a, seq![op1], op2);
        assert(seq![op1].push(op2) =~= pager_ops(x as int, top as int, page as int, pages as int, a.format, font@));
        assert forall|px: int, py: int| on_screen(a, px, py) && !in_clip(a, px, py) implies #[trigger] pixel(s@, px, py) == pixel(a, px, py) by {
            assert(pixel(m, px, py) == pixel(a, px, py));
        }
    }
}

} // verus!
