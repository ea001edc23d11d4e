//! Putting the desktop together: the frosted-glass taskbar and the
//! compositor that repaints a dirty part of the back buffer (the desktop, the
//! windows' frames and contents, and the taskbar when it is touched).
use vstd::prelude::*;
use vstd::string::StringSliceAdditionalSpecFns;
use crate::programs::gui::blur::{blur_region, region_blurred, BLUR_R};
use crate::programs::gui::desktop::{WinEntry, WinKind, geo_ok};
use crate::programs::gui::draw::{
    canvas_ok, coord, lemma_kept_refl, lemma_kept_trans, blend_k, text_k, draw_tb_button, draw_pager, draw_frame, win_ok,
    tb_button_ops, pager_ops,
};
use crate::programs::gui::ops::{DrawOp, render, lemma_render_push, lemma_render_concat, lemma_render_wf, lemma_blurred};
use crate::programs::gui::geometry::{
    Rect, Win, rect_add, rect_empty, taskbar_layout, taskbar_layout_spec, taskbar_order, shown_page, button_order, TASKBAR_H, TB_PAD,
    TB_BTN_W, TB_BTN_GAP, TITLE_H, BORDER,
};
use crate::programs::gui::screen::{
    Screen, ScreenView, screen_wf, kept_outside_clip, same_frame, pixel, on_screen, in_clip, pack_fmt, pack_spec, paint_desktop, blit,
    FONT_BYTES, GLYPH_H, ADVANCE,
};
use crate::text::{fmt_uptime, uptime_text, lemma_u64_digits};

verus! {

/// The title shown for a kind of window.
pub open spec fn title_spec(k: WinKind) -> Seq<u8> {
    match k {
        WinKind::Launcher => "KazuOS".spec_bytes(),
        WinKind::TaskMgr => "Task Manager".spec_bytes(),
        WinKind::Terminal => "Terminal".spec_bytes(),
        WinKind::Profiler => "Profiler".spec_bytes(),
    }
}

/// The title shown for a kind of window.
pub fn kind_title(k: WinKind) -> (t: &'static [u8])
    ensures
        t@ == title_spec(k),
{
    match k {
        WinKind::Launcher => "KazuOS".as_bytes(),
        WinKind::TaskMgr => "Task Manager".as_bytes(),
        WinKind::Terminal => "Terminal".as_bytes(),
        WinKind::Profiler => "Profiler".as_bytes(),
    }
}

/// Every window but the launcher has a close box.
pub fn kind_has_close(k: WinKind) -> (b: bool)
    ensures
        b == !(k == WinKind::Launcher),
{
    match k {
        WinKind::Launcher => false,
        _ => true,
    }
}

/// Drawing from `a` to `b` touched no pixel that is both outside the clip and
/// above row `top`.
pub open spec fn kept_above(a: ScreenView, b: ScreenView, top: int) -> bool {
    &&& same_frame(a, b)
    &&& forall|x: int, y: int| on_screen(a, x, y) && !in_clip(a, x, y) && y < top ==> #[trigger] pixel(b, x, y) == pixel(a, x, y)
}

/// The windows' ids, in stacking order.
pub open spec fn ids_of(windows: Seq<WinEntry>) -> Seq<u64> {
    windows.map_values(|w: WinEntry| w.id)
}

/// A window's button is lit when the window has the focus.
pub open spec fn has_focus(focused: Option<u64>, id: u64) -> bool {
    match focused {
        Some(f) => f == id,
        None => false,
    }
}

/// Buttons `0..k` of the page that starts at `start` in `order`, one slot
/// apart from `TB_PAD`, at `y` and `h` tall.
pub open spec fn tb_buttons_ops(
    windows: Seq<WinEntry>,
    order: Seq<usize>,
    start: int,
    k: int,
    y: int,
    h: int,
    focused: Option<u64>,
    fmt: u32,
    font: Seq<u8>,
) -> Seq<DrawOp>
    decreases k,
{
    if k <= 0 {
        Seq::empty()
    } else {
        let wn = windows[order[start + k - 1] as int];
        tb_buttons_ops(windows, order, start, k - 1, y, h, focused, fmt, font) + tb_button_ops(
            TB_PAD + (k - 1) * (TB_BTN_W + TB_BTN_GAP),
            y,
            TB_BTN_W as int,
            h,
            title_spec(wn.kind),
            has_focus(focused, wn.id),
            fmt,
            font,
        )
    }
}

/// The taskbar on `v`, its buttons in `order`: the strip blurred, tinted and
/// edged, the clock, the buttons of the shown page, and the pager when the
/// buttons overflow.
pub open spec fn taskbar_ops(
    v: ScreenView,
    windows: Seq<WinEntry>,
    order: Seq<usize>,
    focused: Option<u64>,
    tb_page: int,
    uptime_secs: u64,
    font: Seq<u8>,
) -> Seq<DrawOp> {
    let sw = v.width as int;
    let sh = v.height as int;
    let top = sh - TASKBAR_H;
    let fmt = v.format;
    let clock = uptime_text(uptime_secs);
    let n = order.len() as int;
    let lay = taskbar_layout_spec(n as usize, v.width);
    let page: int = if tb_page < lay.pages - 1 { tb_page } else { lay.pages - 1 };
    let start = page * lay.per_page;
    let count: int = if lay.per_page <= n - start { lay.per_page as int } else { n - start };
    seq![
        DrawOp::Blur { x0: 0, y0: top, x1: sw, y1: sh, r: BLUR_R as int },
        DrawOp::Blend { x0: 0, y0: top, x1: sw, y1: sh, c: pack_spec(fmt, 0x1E, 0x2A, 0x3C), alpha: 120 },
        DrawOp::Blend { x0: 0, y0: top, x1: sw, y1: top + 1, c: pack_spec(fmt, 0x9C, 0xC4, 0xF0), alpha: 90 },
        DrawOp::Text {
            x: sw - TB_PAD - clock.len() * ADVANCE,
            y: top + (TASKBAR_H - GLYPH_H) / 2,
            t: clock,
            font,
            c: pack_spec(fmt, 0xDA, 0xE4, 0xF0),
        },
    ] + tb_buttons_ops(windows, order, start, count, top + 5, TASKBAR_H - 10, focused, fmt, font) + (if lay.overflow {
        pager_ops(lay.btn_max_x + TB_BTN_GAP, top, page, lay.pages as int, fmt, font)
    } else {
        Seq::empty()
    })
}

/// The frosted-glass taskbar along the bottom `TASKBAR_H` rows: the strip's
/// backdrop blurred (whatever the clip), a translucent tint and a hairline
/// over it, the uptime clock on the right, then one page of window buttons
/// (in button order, the focused one lit) and the pager when they overflow.
/// Above the strip nothing outside the clip changes.
pub fn draw_taskbar(s: &mut Screen, windows: &[WinEntry], focused: Option<u64>, tb_page: usize, uptime_secs: u64, font: &[u8])
    requires
        canvas_ok(old(s)@),
        old(s)@.width * old(s)@.height <= usize::MAX,
        font@.len() >= FONT_BYTES,
    ensures
        canvas_ok(final(s)@),
        kept_above(old(s)@, final(s)@, old(s)@.height - TASKBAR_H),
        exists|order: Seq<usize>|
            order.len() == (if windows@.len() < 64 { windows@.len() as int } else { 64 })
                && #[trigger] button_order(ids_of(windows@), order, order.len() as int)
                && final(s)@ == render(old(s)@, taskbar_ops(old(s)@, windows@, order, focused, tb_page as int, uptime_secs, font@)),
{
    let ghost a = s@;
    let sw = s.width();
    let sh = s.height();
    let top = sh - TASKBAR_H;
    let fmt = s.format();
    blur_region(s, 0, top, sw, sh, BLUR_R);
    let ghost m = s@;
    let ghost mut cur: Seq<DrawOp> = Seq::empty();
    proof {
        assert(region_blurred(a, m, 0, top as int, sw as int, sh as int, BLUR_R as int));
        lemma_blurred(a, m, 0, top as int, sw as int, sh as int, BLUR_R as int);
        let op = DrawOp::Blur { x0: 0, y0: top as int, x1: sw as int, y1: sh as int, r: BLUR_R as int };
        lemma_render_push(a, cur, op);
        cur = cur.push(op);
        lemma_render_wf(a, cur);
        lemma_kept_refl(m);
    }
    let tint = pack_fmt(fmt, 0x1E, 0x2A, 0x3C);
    blend_k(s, 0, top, sw, sh, tint, 120, Ghost(m));
    proof {
        let op = DrawOp::Blend { x0: 0, y0: top as int, x1: sw as int, y1: sh as int, c: tint, alpha: 120 };
        lemma_render_push(a, cur, op);
        cur = cur.push(op);
    }
    let edge = pack_fmt(fmt, 0x9C, 0xC4, 0xF0);
    blend_k(s, 0, top, sw, top + 1, edge, 90, Ghost(m));
    proof {
        let op = DrawOp::Blend { x0: 0, y0: top as int, x1: sw as int, y1: top + 1, c: edge, alpha: 90 };
        lemma_render_push(a, cur, op);
        cur = cur.push(op);
    }
    let clock = fmt_uptime(uptime_secs);
    proof {
        lemma_u64_digits(uptime_secs / 3600);
    }
    assert(clock@.len() <= 29);
    let clock_w = (clock.len() as i64) * (ADVANCE as i64);
    let clock_c = pack_fmt(fmt, 0xDA, 0xE4, 0xF0);
    text_k(s, (sw as i64) - (TB_PAD as i64) - clock_w, (top + (TASKBAR_H - GLYPH_H) / 2) as i64, clock.as_slice(), clock_c, font,
        Ghost(m));
    proof {
        let op = DrawOp::Text {
            x: sw - TB_PAD - clock@.len() * ADVANCE,
            y: top + (TASKBAR_H - GLYPH_H) / 2,
            t: clock@,
            font: font@,
            c: clock_c,
        };
        lemma_render_push(a, cur, op);
        cur = cur.push(op);
    }
    let mut ids: Vec<u64> = Vec::new();
    let mut i: usize = 0;
    while i < windows.len()
        invariant
            i <= windows@.len(),
            ids@.len() == i,
            forall|j: int| 0 <= j < i ==> #[trigger] ids@[j] == windows@[j].id,
        decreases windows@.len() - i,
    {
        ids.push(windows[i].id);
        i = i + 1;
    }
    proof {
        assert(ids@ =~= ids_of(windows@));
    }
    let order = taskbar_order(ids.as_slice());
    let n = order.len();
    let lay = taskbar_layout(n, sw);
    let page = if tb_page < lay.pages - 1 { tb_page } else { lay.pages - 1 };
    proof {
        assert(page * lay.per_page <= n) by (nonlinear_arith)
            requires
                page <= lay.pages - 1,
                lay.per_page >= 1,
                lay.pages >= 1,
                lay.pages == 1 || lay.pages == (n + lay.per_page - 1) / lay.per_page as int,
                lay.pages == 1 ==> page == 0,
        ;
    }
    let start = page * lay.per_page;
    let count = if lay.per_page <= n - start { lay.per_page } else { n - start };
    let by = top + 5;
    let bh = TASKBAR_H - 10;
    let ghost pre = cur;
    proof {
        assert(pre + tb_buttons_ops(windows@, order@, start as int, 0, by as int, bh as int, focused, fmt, font@) =~= pre);
        lemma_render_wf(a, pre);
    }
    let mut k: usize = 0;
    let mut bx: i32 = TB_PAD;
    while k < count
        invariant
            canvas_ok(m),
            kept_outside_clip(m, s@),
            font@.len() >= FONT_BYTES,
            k <= count,
            start + count <= n,
            n == order@.len(),
            n <= 64,
            ids@.len() == windows@.len(),
            button_order(ids@, order@, n as int),
            bx == 6 + k * 136,
            n <= windows@.len(),
            count <= 64,
            coord(by as int),
            -TASKBAR_H <= top <= sh,
            by == top + 5,
            bh == TASKBAR_H - 10,
            canvas_ok(a),
            sh == a.height,
            fmt == a.format,
            s@ == render(a, pre + tb_buttons_ops(windows@, order@, start as int, k as int, by as int, bh as int, focused, fmt, font@)),
        decreases count - k,
    {
        let wi = order[start + k];
        assert(order@[(start + k) as int] < n);
        let wn = windows[wi];
        let active = match focused {
            Some(f) => f == wn.id,
            None => false,
        };
        let ghost before = s@;
        let ghost prev = pre + tb_buttons_ops(windows@, order@, start as int, k as int, by as int, bh as int, focused, fmt, font@);
        proof { lemma_render_wf(a, prev); }
        draw_tb_button(s, bx, by, TB_BTN_W, bh, kind_title(wn.kind), active, font);
        proof {
            lemma_kept_trans(m, before, s@);
            assert(active == has_focus(focused, wn.id));
            let more = tb_button_ops(bx as int, by as int, TB_BTN_W as int, bh as int, title_spec(wn.kind), active, fmt, font@);
            lemma_render_concat(a, prev, more);
            assert(tb_buttons_ops(windows@, order@, start as int, k + 1, by as int, bh as int, focused, fmt, font@)
                == tb_buttons_ops(windows@, order@, start as int, k as int, by as int, bh as int, focused, fmt, font@) + more);
            assert(prev + more =~= pre + tb_buttons_ops(windows@, order@, start as int, k + 1, by as int, bh as int, focused, fmt, font@));
        }
        bx = bx + TB_BTN_W + TB_BTN_GAP;
        k = k + 1;
    }
    let ghost body = pre + tb_buttons_ops(windows@, order@, start as int, count as int, by as int, bh as int, focused, fmt, font@);
    if lay.overflow {
        let ghost before = s@;
        proof { lemma_render_wf(a, body); }
        draw_pager(s, lay.btn_max_x + TB_BTN_GAP, top, page, lay.pages, font);
        proof {
            lemma_kept_trans(m, before, s@);
            lemma_render_concat(a, body, pager_ops(lay.btn_max_x + TB_BTN_GAP, top as int, page as int, lay.pages as int, fmt, font@));
        }
    } else {
        proof { assert(body + Seq::<DrawOp>::empty() =~= body); }
    }
    proof {
        assert forall|x: int, y: int| on_screen(a, x, y) && !in_clip(a, x, y) && y < top implies #[trigger] pixel(s@, x, y)
            == pixel(a, x, y) by {
            assert(pixel(m, x, y) == pixel(a, x, y));
            assert(pixel(s@, x, y) == pixel(m, x, y));
        }
        let ops = taskbar_ops(a, windows@, order@, focused, tb_page as int, uptime_secs, font@);
        assert(body + (if lay.overflow {
            pager_ops(lay.btn_max_x + TB_BTN_GAP, top as int, page as int, lay.pages as int, fmt, font@)
        } else {
            Seq::<DrawOp>::empty()
        }) =~= ops);
        assert(button_order(ids_of(windows@), order@, order@.len() as int));
    }
}

/// The point lies in `r`.
pub open spec fn in_r(r: Rect, x: int, y: int) -> bool {
    r.x0 <= x < r.x1 && r.y0 <= y < r.y1
}

/// `r` cut to a `w` by `h` buffer.
pub open spec fn clamped(r: Rect, w: i32, h: i32) -> Rect {
    Rect {
        x0: if r.x0 > 0 { r.x0 } else { 0 },
        y0: if r.y0 > 0 { r.y0 } else { 0 },
        x1: if r.x1 < w { r.x1 } else { w },
        y1: if r.y1 < h { r.y1 } else { h },
    }
}

/// The dirty rectangle touches the taskbar strip of a `sw` by `sh` screen.
pub open spec fn touches_taskbar(dirty: Rect, sw: i32, sh: i32) -> bool {
    let top = sh - TASKBAR_H;
    !rect_empty(dirty) && 0 < dirty.x1 && sw > dirty.x0 && top < dirty.y1 && top + TASKBAR_H > dirty.y0
}

/// What a repaint of `dirty` covers: the glass taskbar needs its whole strip,
/// so a dirty rectangle that touches it grows to take it in.
pub open spec fn paint_rect(dirty: Rect, sw: i32, sh: i32) -> Rect {
    if touches_taskbar(dirty, sw, sh) { rect_add(dirty, 0, (sh - TASKBAR_H) as i32, sw, TASKBAR_H) } else { dirty }
}

/// Repaint the dirty part of the back buffer: clip to it (grown to the whole
/// taskbar strip when it touches it), lay the desktop `bg` there, then each
/// window back to front that overlaps it (its frame, then its content canvas
/// below the title bar), then the taskbar if touched. Returns the rectangle
/// repainted, which the caller copies to the framebuffer; nothing outside it
/// changes, and an empty `dirty` changes nothing at all.
pub fn composite(
    s: &mut Screen,
    windows: &[WinEntry],
    canvases: &[Screen],
    focused: Option<u64>,
    tb_page: usize,
    uptime_secs: u64,
    bg: &Screen,
    dirty: Rect,
    font: &[u8],
) -> (paint: Rect)
    requires
        canvas_ok(old(s)@),
        old(s)@.width * old(s)@.height <= usize::MAX,
        font@.len() >= FONT_BYTES,
        screen_wf(bg@),
        bg@.width == old(s)@.width,
        bg@.height == old(s)@.height,
        canvases@.len() == windows@.len(),
        forall|i: int| 0 <= i < canvases@.len() ==> screen_wf(#[trigger] canvases@[i]@),
        forall|i: int| 0 <= i < windows@.len() ==> geo_ok(#[trigger] windows@[i].geo),
    ensures
        paint == paint_rect(dirty, old(s)@.width, old(s)@.height),
        rect_empty(dirty) ==> final(s)@ == old(s)@,
        !rect_empty(dirty) ==> final(s)@.clip == clamped(paint, old(s)@.width, old(s)@.height),
        canvas_ok(final(s)@),
        final(s)@.width == old(s)@.width && final(s)@.height == old(s)@.height && final(s)@.format == old(s)@.format,
        forall|x: int, y: int| on_screen(old(s)@, x, y) && !in_r(paint, x, y) ==> #[trigger] pixel(final(s)@, x, y) == pixel(
            old(s)@,
            x,
            y,
        ),
{
    let ghost a = s@;
    if dirty.is_empty() {
        return dirty;
    }
    let sw = s.width();
    let sh = s.height();
    let tb_top = sh - TASKBAR_H;
    let mut paint = dirty;
    let touch_tb = paint.intersects(0, tb_top, sw, TASKBAR_H);
    if touch_tb {
        paint.add(0, tb_top, sw, TASKBAR_H);
    }
    assert(paint == paint_rect(dirty, sw, sh));
    s.set_clip(paint);
    let ghost c = s@;
    assert(c.clip == clamped(paint, sw, sh));
    paint_desktop(s, paint, bg);
    let mut i: usize = 0;
    while i < windows.len()
        invariant
            i <= windows@.len(),
            canvases@.len() == windows@.len(),
            forall|j: int| 0 <= j < canvases@.len() ==> screen_wf(#[trigger] canvases@[j]@),
            forall|j: int| 0 <= j < windows@.len() ==> geo_ok(#[trigger] windows@[j].geo),
            font@.len() >= FONT_BYTES,
            canvas_ok(s@),
            s@.width == a.width && s@.height == a.height && s@.format == a.format,
            s@.clip == clamped(paint, sw, sh),
            sw == a.width && sh == a.height,
            forall|x: int, y: int| on_screen(a, x, y) && !in_r(paint, x, y) ==> #[trigger] pixel(s@, x, y) == pixel(a, x, y),
        decreases windows@.len() - i,
    {
        let wn = windows[i];
        let g = wn.geo;
        assert(geo_ok(windows@[i as int].geo));
        if paint.intersects(g.x, g.y, g.w, g.h) {
            let is_focused = match focused {
                Some(f) => f == wn.id,
                None => false,
            };
            let ghost before = s@;
            draw_frame(s, &g, kind_title(wn.kind), is_focused, kind_has_close(wn.kind), font);
            proof {
                assert forall|x: int, y: int| on_screen(a, x, y) && !in_r(paint, x, y) implies #[trigger] pixel(s@, x, y)
                    == pixel(a, x, y) by {
                    assert(!in_clip(before, x, y));
                    assert(pixel(s@, x, y) == pixel(before, x, y));
                }
            }
            assert(screen_wf(canvases@[i as int]@));
            blit(s, &canvases[i], g.x + BORDER, g.y + TITLE_H, paint);
        }
        i = i + 1;
    }
    if touch_tb {
        let ghost before = s@;
        draw_taskbar(s, windows, focused, tb_page, uptime_secs, font);
        proof {
            assert forall|x: int, y: int| on_screen(a, x, y) && !in_r(paint, x, y) implies #[trigger] pixel(s@, x, y)
                == pixel(a, x, y) by {
                assert(!in_clip(before, x, y));
                assert(y < sh - TASKBAR_H);
                assert(pixel(s@, x, y) == pixel(before, x, y));
            }
        }
    }
    paint
}

} // verus!
