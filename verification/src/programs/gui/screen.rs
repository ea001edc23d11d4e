//! The desktop's pixel buffers: the back buffer of the screen and the
//! windows' content canvases, with clipped drawing primitives. Copying the
//! back buffer to the framebuffer is the program's own business.
use vstd::prelude::*;
use crate::programs::gui::geometry::{Rect, rect_empty, inside};
use vstd::arithmetic::div_mod::{lemma_fundamental_div_mod, lemma_fundamental_div_mod_converse};
use vstd::arithmetic::mul::lemma_mul_is_commutative;

verus! {

/// Glyph cell width of the built-in 7x14 font.
pub const GLYPH_W: i32 = 7;
/// Glyph cell height of the built-in 7x14 font.
pub const GLYPH_H: i32 = 14;
/// Horizontal step from one character to the next.
pub const ADVANCE: i32 = 8;
/// Bytes of font data: one byte per glyph row for the 95 printable ASCII
/// characters.
pub const FONT_BYTES: usize = 1330;

/// A pixel buffer with a clip rectangle that all drawing is confined to.
pub struct Screen {
    width: i32,
    height: i32,
    format: u32,
    clip: Rect,
    rows: Vec<Vec<u32>>,
}

pub struct ScreenView {
    pub width: i32,
    pub height: i32,
    /// 0: RGB, 1: BGR.
    pub format: u32,
    pub clip: Rect,
    /// Pixel rows, top to bottom.
    pub px: Seq<Seq<u32>>,
}

impl View for Screen {
    type V = ScreenView;

    closed spec fn view(&self) -> ScreenView {
        ScreenView {
            width: self.width,
            height: self.height,
            format: self.format,
            clip: self.clip,
            px: self.rows@.map_values(|r: Vec<u32>| r@),
        }
    }
}

/// A well-formed buffer: `height` rows of `width` pixels, the clip inside.
pub open spec fn screen_wf(v: ScreenView) -> bool {
    &&& v.width >= 1 && v.height >= 1
    &&& v.px.len() == v.height
    &&& forall|y: int| 0 <= y < v.height ==> #[trigger] v.px[y].len() == v.width
    &&& 0 <= v.clip.x0 && v.clip.x1 <= v.width
    &&& 0 <= v.clip.y0 && v.clip.y1 <= v.height
}

/// The pixel at `(x, y)`.
pub open spec fn pixel(v: ScreenView, x: int, y: int) -> u32 {
    v.px[y][x]
}

pub open spec fn on_screen(v: ScreenView, x: int, y: int) -> bool {
    0 <= x < v.width && 0 <= y < v.height
}

pub open spec fn in_clip(v: ScreenView, x: int, y: int) -> bool {
    v.clip.x0 <= x < v.clip.x1 && v.clip.y0 <= y < v.clip.y1
}

/// Same size, format and clip; still well formed.
pub open spec fn same_frame(a: ScreenView, b: ScreenView) -> bool {
    &&& a.width == b.width && a.height == b.height && a.format == b.format && a.clip == b.clip
    &&& screen_wf(b)
}

/// Drawing from `a` to `b` touched no pixel outside the clip.
pub open spec fn kept_outside_clip(a: ScreenView, b: ScreenView) -> bool {
    &&& same_frame(a, b)
    &&& forall|x: int, y: int| on_screen(a, x, y) && !in_clip(a, x, y) ==> #[trigger] pixel(b, x, y) == pixel(a, x, y)
}

/// `b` is `a` with the pixels of the `w` by `h` rectangle at `(x, y)` that lie
/// in the clip set to `c`.
pub open spec fn filled(a: ScreenView, b: ScreenView, x: int, y: int, w: int, h: int, c: u32) -> bool {
    &&& same_frame(a, b)
    &&& forall|px: int, py: int| on_screen(a, px, py) ==> #[trigger] pixel(b, px, py) == (if in_clip(a, px, py)
        && inside(px, py, x, y, w, h) { c } else { pixel(a, px, py) })
}

/// Pack a color in the buffer's pixel order (0: RGB, 1: BGR).
pub open spec fn pack_spec(fmt: u32, r: u8, g: u8, b: u8) -> u32 {
    if fmt == 1 {
        (b * 0x10000 + g * 0x100 + r) as u32
    } else {
        (r * 0x10000 + g * 0x100 + b) as u32
    }
}

pub fn pack_fmt(fmt: u32, r: u8, g: u8, b: u8) -> (c: u32)
    ensures
        c == pack_spec(fmt, r, g, b),
{
    let (hi, lo) = if fmt == 1 { (b, r) } else { (r, b) };
    let c = (hi as u32) << 16 | (g as u32) << 8 | (lo as u32);
    assert(c == hi * 0x10000 + g * 0x100 + lo) by (bit_vector)
        requires
            c == (hi as u32) << 16 | (g as u32) << 8 | (lo as u32),
    ;
    c
}

/// `v` clamped to a channel value.
pub open spec fn clamp8_spec(v: int) -> u8 {
    if v < 0 { 0 } else if v > 255 { 255 } else { v as u8 }
}

pub fn clamp8(v: i32) -> (r: u8)
    ensures
        r == clamp8_spec(v as int),
{
    if v < 0 { 0 } else if v > 255 { 255 } else { v as u8 }
}

/// A fresh all-zero row.
fn zero_row(w: i32) -> (r: Vec<u32>)
    requires
        w >= 1,
    ensures
        r@.len() == w,
        forall|x: int| 0 <= x < w ==> #[trigger] r@[x] == 0,
{
    let mut r: Vec<u32> = Vec::new();
    let mut i: i32 = 0;
    while i < w
        invariant
            0 <= i <= w,
            r@.len() == i,
            forall|x: int| 0 <= x < i ==> #[trigger] r@[x] == 0,
        decreases w - i,
    {
        r.push(0);
        i = i + 1;
    }
    r
}

impl Screen {
    /// A black buffer of at least 1 by 1 pixels, clipped to itself.
    pub fn new(width: i32, height: i32, format: u32) -> (s: Screen)
        ensures
            s@.width == (if width >= 1 { width } else { 1 }),
            s@.height == (if height >= 1 { height } else { 1 }),
            s@.format == format,
            s@.clip == (Rect { x0: 0, y0: 0, x1: s@.width, y1: s@.height }),
            screen_wf(s@),
            forall|x: int, y: int| on_screen(s@, x, y) ==> #[trigger] pixel(s@, x, y) == 0,
    {
        let w = if width >= 1 { width } else { 1 };
        let h = if height >= 1 { height } else { 1 };
        let mut rows: Vec<Vec<u32>> = Vec::new();
        let mut y: i32 = 0;
        while y < h
            invariant
                w >= 1,
                0 <= y <= h,
                rows@.len() == y,
                forall|j: int| 0 <= j < y ==> #[trigger] rows@[j]@.len() == w,
                forall|j: int, x: int| 0 <= j < y && 0 <= x < w ==> #[trigger] rows@[j]@[x] == 0,
            decreases h - y,
        {
            rows.push(zero_row(w));
            y = y + 1;
        }
        Screen { width: w, height: h, format, clip: Rect { x0: 0, y0: 0, x1: w, y1: h }, rows }
    }

    /// An off-screen buffer (a window's content canvas) of at least 1 by 1.
    pub fn offscreen(w: i32, h: i32, format: u32) -> (s: Screen)
        ensures
            s@.width == (if w >= 1 { w } else { 1 }),
            s@.height == (if h >= 1 { h } else { 1 }),
            s@.format == format,
            s@.clip == (Rect { x0: 0, y0: 0, x1: s@.width, y1: s@.height }),
            screen_wf(s@),
            forall|x: int, y: int| on_screen(s@, x, y) ==> #[trigger] pixel(s@, x, y) == 0,
    {
        Screen::new(w, h, format)
    }

    pub fn width(&self) -> (w: i32)
        ensures
            w == self@.width,
    {
        self.width
    }

    pub fn height(&self) -> (h: i32)
        ensures
            h == self@.height,
    {
        self.height
    }

    pub fn format(&self) -> (f: u32)
        ensures
            f == self@.format,
    {
        self.format
    }

    pub fn clip(&self) -> (r: Rect)
        ensures
            r == self@.clip,
    {
        self.clip
    }

    /// Row `y` of pixels (what presenting copies out).
    pub fn row(&self, y: i32) -> (r: &[u32])
        requires
            screen_wf(self@),
            0 <= y < self@.height,
        ensures
            r@ == self@.px[y as int],
    {
        assert(self@.px[y as int] == self.rows@[y as int]@);
        self.rows[y as usize].as_slice()
    }

    /// The pixel at `(x, y)`.
    pub fn get(&self, x: i32, y: i32) -> (c: u32)
        requires
            screen_wf(self@),
            on_screen(self@, x as int, y as int),
        ensures
            c == pixel(self@, x as int, y as int),
    {
        assert(self@.px[y as int] == self.rows@[y as int]@);
        self.rows[y as usize][x as usize]
    }

    /// The whole buffer as a rectangle.
    pub fn full_rect(&self) -> (r: Rect)
        ensures
            r == (Rect { x0: 0, y0: 0, x1: self@.width, y1: self@.height }),
    {
        Rect { x0: 0, y0: 0, x1: self.width, y1: self.height }
    }

    /// Confine drawing to `r` (cut to the buffer).
    pub fn set_clip(&mut self, r: Rect)
        requires
            screen_wf(old(self)@),
        ensures
            final(self)@ == (ScreenView {
                clip: Rect {
                    x0: if r.x0 > 0 { r.x0 } else { 0 },
                    y0: if r.y0 > 0 { r.y0 } else { 0 },
                    x1: if r.x1 < old(self)@.width { r.x1 } else { old(self)@.width },
                    y1: if r.y1 < old(self)@.height { r.y1 } else { old(self)@.height },
                },
                ..old(self)@
            }),
            screen_wf(final(self)@),
    {
        self.clip = Rect {
            x0: if r.x0 > 0 { r.x0 } else { 0 },
            y0: if r.y0 > 0 { r.y0 } else { 0 },
            x1: if r.x1 < self.width { r.x1 } else { self.width },
            y1: if r.y1 < self.height { r.y1 } else { self.height },
        };
    }

    /// Pack a color in this buffer's pixel order.
    pub fn pack(&self, r: u8, g: u8, b: u8) -> (c: u32)
        ensures
            c == pack_spec(self@.format, r, g, b),
    {
        pack_fmt(self.format, r, g, b)
    }

    /// Set one pixel, if it lies in the clip.
    pub fn put(&mut self, x: i64, y: i64, color: u32)
        requires
            screen_wf(old(self)@),
        ensures
            same_frame(old(self)@, final(self)@),
            forall|px: int, py: int| on_screen(old(self)@, px, py) ==> #[trigger] pixel(final(self)@, px, py) == (if in_clip(
                old(self)@,
                px,
                py,
            ) && px == x && py == y { color } else { pixel(old(self)@, px, py) }),
    {
        if x < self.clip.x0 as i64 || x >= self.clip.x1 as i64 || y < self.clip.y0 as i64 || y >= self.clip.y1 as i64 {
            return;
        }
        let ghost before = self@;
        let ghost old_rows = self.rows@;
        let yi = y as usize;
        let xi = x as usize;
        assert(before.px[y as int] == old_rows[y as int]@);
        self.rows[yi].set(xi, color);
        proof {
            assert(self.rows@.len() == old_rows.len());
            assert forall|j: int| 0 <= j < old_rows.len() implies #[trigger] self.rows@[j]@ == (if j == y {
                old_rows[j]@.update(x as int, color)
            } else {
                old_rows[j]@
            }) by {
            }
            assert forall|j: int| 0 <= j < old_rows.len() implies #[trigger] self@.px[j] == self.rows@[j]@ by {
            }
            assert forall|j: int| 0 <= j < old_rows.len() implies #[trigger] before.px[j] == old_rows[j]@ by {
            }
            assert forall|py: int| 0 <= py < self@.height implies #[trigger] self@.px[py].len() == self@.width by {
                if py != y {
                    assert(self@.px[py] == before.px[py]);
                }
            }
            assert forall|px: int, py: int| on_screen(before, px, py) implies #[trigger] pixel(self@, px, py) == (if in_clip(
                before,
                px,
                py,
            ) && px == x && py == y { color } else { pixel(before, px, py) }) by {
                if py != y {
                    assert(self@.px[py] == before.px[py]);
                }
            }
        }
    }

    /// Fill the part of the `w` by `h` rectangle at `(x, y)` that lies in the
    /// clip.
    pub fn fill(&mut self, x: i64, y: i64, w: i64, h: i64, color: u32)
        requires
            screen_wf(old(self)@),
            i32::MIN <= x <= i32::MAX,
            i32::MIN <= y <= i32::MAX,
            i32::MIN <= w <= i32::MAX,
            i32::MIN <= h <= i32::MAX,
        ensures
            filled(old(self)@, final(self)@, x as int, y as int, w as int, h as int, color),
    {
        let ghost a = self@;
        let x0: i64 = if x > self.clip.x0 as i64 { x } else { self.clip.x0 as i64 };
        let y0: i64 = if y > self.clip.y0 as i64 { y } else { self.clip.y0 as i64 };
        let x1: i64 = if x + w < self.clip.x1 as i64 { x + w } else { self.clip.x1 as i64 };
        let y1: i64 = if y + h < self.clip.y1 as i64 { y + h } else { self.clip.y1 as i64 };
        let mut yy = y0;
        while yy < y1
            invariant
                screen_wf(a),
                same_frame(a, self@),
                y0 <= yy,
                y0 == (if y > a.clip.y0 { y as int } else { a.clip.y0 as int }),
                y1 == (if y + h < a.clip.y1 { y + h } else { a.clip.y1 as int }),
                x0 == (if x > a.clip.x0 { x as int } else { a.clip.x0 as int }),
                x1 == (if x + w < a.clip.x1 { x + w } else { a.clip.x1 as int }),
                forall|px: int, py: int| on_screen(a, px, py) ==> #[trigger] pixel(self@, px, py) == (if in_clip(a, px, py)
                    && inside(px, py, x as int, y as int, w as int, h as int) && py < yy { color } else { pixel(a, px, py) }),
            decreases y1 - yy,
        {
            let mut xx = x0;
            while xx < x1
                invariant
                    screen_wf(a),
                    same_frame(a, self@),
                    y0 <= yy < y1,
                    x0 <= xx,
                    y0 == (if y > a.clip.y0 { y as int } else { a.clip.y0 as int }),
                    y1 == (if y + h < a.clip.y1 { y + h } else { a.clip.y1 as int }),
                    x0 == (if x > a.clip.x0 { x as int } else { a.clip.x0 as int }),
                    x1 == (if x + w < a.clip.x1 { x + w } else { a.clip.x1 as int }),
                    forall|px: int, py: int| on_screen(a, px, py) ==> #[trigger] pixel(self@, px, py) == (if in_clip(a, px, py)
                        && inside(px, py, x as int, y as int, w as int, h as int) && (py < yy || (py == yy && px < xx)) {
                        color
                    } else {
                        pixel(a, px, py)
                    }),
                decreases x1 - xx,
            {
                self.put(xx, yy, color);
                xx = xx + 1;
            }
            yy = yy + 1;
        }
    }
}


/// Row `row`, column `col` of the glyph for `c` is set in `font` (printable
/// ASCII only; one byte per row, most significant bit leftmost).
pub open spec fn glyph_bit(font: Seq<u8>, c: u8, col: int, row: int) -> bool {
    &&& 0x20 <= c <= 0x7e
    &&& 0 <= col < GLYPH_W
    &&& 0 <= row < GLYPH_H
    &&& font[(c - 0x20) * 14 + row] & (0x80u8 >> (col as u8)) != 0
}

/// The glyph of some character of `s`, drawn from `x` on in `ADVANCE` steps,
/// covers offset `(dx, dy)` from the text's origin.
pub open spec fn text_bit(font: Seq<u8>, s: Seq<u8>, dx: int, dy: int, n: int) -> bool {
    exists|i: int| 0 <= i < n && #[trigger] glyph_bit(font, s[i], dx - i * 8, dy)
}

/// `b` is `a` with `color` drawn where `bit` holds (and the clip allows).
pub open spec fn drawn_where(a: ScreenView, b: ScreenView, bit: spec_fn(int, int) -> bool, color: u32) -> bool {
    &&& same_frame(a, b)
    &&& forall|px: int, py: int| on_screen(a, px, py) ==> #[trigger] pixel(b, px, py) == (if in_clip(a, px, py) && bit(
        px,
        py,
    ) { color } else { pixel(a, px, py) })
}

impl Screen {
    /// Draw the glyph for `c` with its top-left corner at `(x, y)`.
    pub fn glyph(&mut self, x: i64, y: i64, c: u8, color: u32, font: &[u8])
        requires
            screen_wf(old(self)@),
            font@.len() >= FONT_BYTES,
            i32::MIN <= x <= i32::MAX + 8,
            i32::MIN <= y <= i32::MAX,
        ensures
            drawn_where(old(self)@, final(self)@, |px: int, py: int| glyph_bit(font@, c, px - x, py - y), color),
    {
        let ghost a = self@;
        if c < 0x20 || c > 0x7e {
            return;
        }
        let base = (c - 0x20) as usize * 14;
        let mut row: u8 = 0;
        while row < 14
            invariant
                screen_wf(a),
                same_frame(a, self@),
                font@.len() >= FONT_BYTES,
                0x20 <= c <= 0x7e,
                base == (c - 0x20) * 14,
                row <= 14,
                i32::MIN <= x <= i32::MAX + 8,
                i32::MIN <= y <= i32::MAX,
                forall|px: int, py: int| on_screen(a, px, py) ==> #[trigger] pixel(self@, px, py) == (if in_clip(a, px, py)
                    && glyph_bit(font@, c, px - x, py - y) && py - y < row { color } else { pixel(a, px, py) }),
            decreases 14 - row,
        {
            let bits = font[base + row as usize];
            let mut col: u8 = 0;
            while col < 7
                invariant
                    screen_wf(a),
                    same_frame(a, self@),
                    font@.len() >= FONT_BYTES,
                    0x20 <= c <= 0x7e,
                    base == (c - 0x20) * 14,
                    row < 14,
                    col <= 7,
                    bits == font@[base + row],
                    i32::MIN <= x <= i32::MAX + 8,
                    i32::MIN <= y <= i32::MAX,
                    forall|px: int, py: int| on_screen(a, px, py) ==> #[trigger] pixel(self@, px, py) == (if in_clip(a, px, py)
                        && glyph_bit(font@, c, px - x, py - y) && (py - y < row || (py - y == row && px - x < col)) {
                        color
                    } else {
                        pixel(a, px, py)
                    }),
                decreases 7 - col,
            {
                if bits & (0x80u8 >> col) != 0 {
                    self.put(x + col as i64, y + row as i64, color);
                }
                col = col + 1;
            }
            row = row + 1;
        }
    }

    /// Draw the characters of `s` from `(x, y)`, one every `ADVANCE` pixels.
    pub fn text(&mut self, x: i64, y: i64, s: &[u8], color: u32, font: &[u8])
        requires
            screen_wf(old(self)@),
            font@.len() >= FONT_BYTES,
            i32::MIN <= x <= i32::MAX,
            i32::MIN <= y <= i32::MAX,
        ensures
            drawn_where(old(self)@, final(self)@, |px: int, py: int| text_bit(font@, s@, px - x, py - y, s@.len() as int), color),
    {
        let ghost a = self@;
        let mut i: usize = 0;
        let mut cx: i64 = x;
        while i < s.len()
            invariant
                screen_wf(a),
                same_frame(a, self@),
                font@.len() >= FONT_BYTES,
                i <= s@.len(),
                cx == x + 8 * i,
                cx <= i32::MAX + 8,
                a == old(self)@,
                i32::MIN <= x <= i32::MAX,
                i32::MIN <= y <= i32::MAX,
                forall|px: int, py: int| on_screen(a, px, py) ==> #[trigger] pixel(self@, px, py) == (if in_clip(a, px, py)
                    && text_bit(font@, s@, px - x, py - y, i as int) { color } else { pixel(a, px, py) }),
            decreases s@.len() - i,
        {
            if cx >= self.clip.x1 as i64 {
                proof {
                    assert forall|px: int, py: int| on_screen(a, px, py) && in_clip(a, px, py) implies text_bit(
                        font@,
                        s@,
                        px - x,
                        py - y,
                        s@.len() as int,
                    ) == text_bit(font@, s@, px - x, py - y, i as int) by {
                        if text_bit(font@, s@, px - x, py - y, s@.len() as int) {
                            let k = choose|k: int| 0 <= k < s@.len() && #[trigger] glyph_bit(font@, s@[k], px - x - k * 8, py - y);
                            if k >= i {
                                assert(px - x - k * 8 < 0);
                            }
                        }
                        if text_bit(font@, s@, px - x, py - y, i as int) {
                            let k = choose|k: int| 0 <= k < i && #[trigger] glyph_bit(font@, s@[k], px - x - k * 8, py - y);
                            assert(0 <= k < s@.len());
                        }
                    }
                }
                return;
            }
            let ghost before = self@;
            self.glyph(cx, y, s[i], color, font);
            proof {
                assert forall|px: int, py: int| on_screen(a, px, py) implies #[trigger] pixel(self@, px, py) == (if in_clip(
                    a,
                    px,
                    py,
                ) && text_bit(font@, s@, px - x, py - y, i + 1) { color } else { pixel(a, px, py) }) by {
                    if glyph_bit(font@, s@[i as int], px - cx, py - y) {
                        assert(glyph_bit(font@, s@[i as int], (px - x) - i * 8, py - y));
                    }
                    if text_bit(font@, s@, px - x, py - y, i + 1) && !text_bit(font@, s@, px - x, py - y, i as int) {
                        let k = choose|k: int| 0 <= k < i + 1 && #[trigger] glyph_bit(font@, s@[k], px - x - k * 8, py - y);
                        assert(k == i);
                    }
                }
            }
            cx = cx + 8;
            i = i + 1;
        }
    }
}


/// `(px, py)` lies where `blit` copies `src` placed at `(dx, dy)` within
/// `clip`.
pub open spec fn in_blit(src: ScreenView, dx: int, dy: int, clip: Rect, px: int, py: int) -> bool {
    &&& dx <= px < dx + src.width && dy <= py < dy + src.height
    &&& clip.x0 <= px < clip.x1 && clip.y0 <= py < clip.y1
}

/// Index in a `w`-wide save buffer of the pixel `(px, py)` for a rectangle
/// at `(x, y)`.
pub open spec fn save_index(px: int, py: int, x: int, y: int, w: int) -> int {
    (py - y) * w + (px - x)
}

impl Screen {
    /// Set one pixel, whatever the clip.
    pub fn set_pixel(&mut self, x: i32, y: i32, color: u32)
        requires
            screen_wf(old(self)@),
            on_screen(old(self)@, x as int, y as int),
        ensures
            same_frame(old(self)@, final(self)@),
            forall|px: int, py: int| on_screen(old(self)@, px, py) ==> #[trigger] pixel(final(self)@, px, py) == (if px == x
                && py == y { color } else { pixel(old(self)@, px, py) }),
    {
        let ghost before = self@;
        let ghost old_rows = self.rows@;
        assert(before.px[y as int] == old_rows[y as int]@);
        self.rows[y as usize].set(x as usize, color);
        proof {
            assert forall|j: int| 0 <= j < old_rows.len() implies #[trigger] self.rows@[j]@ == (if j == y {
                old_rows[j]@.update(x as int, color)
            } else {
                old_rows[j]@
            }) by {
            }
            assert forall|j: int| 0 <= j < old_rows.len() implies #[trigger] self@.px[j] == self.rows@[j]@ by {
            }
            assert forall|j: int| 0 <= j < old_rows.len() implies #[trigger] before.px[j] == old_rows[j]@ by {
            }
            assert forall|py: int| 0 <= py < self@.height implies #[trigger] self@.px[py].len() == self@.width by {
                assert(self@.px[py] == self.rows@[py]@);
                assert(before.px[py] == old_rows[py]@);
            }
        }
    }

    /// Copy the pixels of the `w` by `h` rectangle at `(x, y)` into `buf`, row
    /// by row; cells off the buffer are left as they were.
    pub fn save_under(&self, buf: &mut [u32], x: i32, y: i32, w: i32, h: i32)
        requires
            screen_wf(self@),
            w >= 1,
            h >= 0,
            old(buf)@.len() >= w * h,
        ensures
            final(buf)@.len() == old(buf)@.len(),
            forall|k: int| 0 <= k < old(buf)@.len() ==> #[trigger] final(buf)@[k] == (if k < w * h && on_screen(
                self@,
                x + k % (w as int),
                y + k / (w as int),
            ) { pixel(self@, x + k % (w as int), y + k / (w as int)) } else { old(buf)@[k] }),
    {
        assert((w as int) * (h as int) <= 0x4000_0000_0000_0000) by (nonlinear_arith)
            requires
                1 <= w <= 0x8000_0000,
                0 <= h <= 0x8000_0000,
        ;
        let n: u64 = (w as u64) * (h as u64);
        let mut k: u64 = 0;
        while k < n
            invariant
                screen_wf(self@),
                w >= 1,
                h >= 0,
                n == w * h,
                n <= old(buf)@.len(),
                buf@.len() == old(buf)@.len(),
                k <= n,
                forall|q: int| 0 <= q < old(buf)@.len() ==> #[trigger] buf@[q] == (if q < k && on_screen(
                    self@,
                    x + q % (w as int),
                    y + q / (w as int),
                ) { pixel(self@, x + q % (w as int), y + q / (w as int)) } else { old(buf)@[q] }),
            decreases n - k,
        {
            let c = (k % (w as u64)) as i64;
            let r = (k / (w as u64)) as i64;
            assert((k as int) / (w as int) < h) by (nonlinear_arith)
                requires
                    k < w * h,
                    w >= 1,
            ;
            let xx = x as i64 + c;
            let yy = y as i64 + r;
            if xx >= 0 && xx < self.width as i64 && yy >= 0 && yy < self.height as i64 {
                let p = self.get(xx as i32, yy as i32);
                buf[k as usize] = p;
            }
            k = k + 1;
        }
    }

    /// Write `buf` back over the `w` by `h` rectangle at `(x, y)` (the inverse
    /// of `save_under`), whatever the clip.
    pub fn restore_under(&mut self, buf: &[u32], x: i32, y: i32, w: i32, h: i32)
        requires
            screen_wf(old(self)@),
            w >= 1,
            h >= 0,
            buf@.len() >= w * h,
        ensures
            same_frame(old(self)@, final(self)@),
            forall|px: int, py: int| on_screen(old(self)@, px, py) ==> #[trigger] pixel(final(self)@, px, py) == (if x <= px
                < x + w && y <= py < y + h { buf@[save_index(px, py, x as int, y as int, w as int)] } else {
                pixel(old(self)@, px, py)
            }),
    {
        let ghost a = self@;
        assert((w as int) * (h as int) <= 0x4000_0000_0000_0000) by (nonlinear_arith)
            requires
                1 <= w <= 0x8000_0000,
                0 <= h <= 0x8000_0000,
        ;
        let n: u64 = (w as u64) * (h as u64);
        let mut k: u64 = 0;
        while k < n
            invariant
                screen_wf(a),
                same_frame(a, self@),
                w >= 1,
                h >= 0,
                n == w * h,
                n <= buf@.len(),
                k <= n,
                forall|px: int, py: int| on_screen(a, px, py) ==> #[trigger] pixel(self@, px, py) == (if x <= px < x + w && y
                    <= py < y + h && save_index(px, py, x as int, y as int, w as int) < k {
                    buf@[save_index(px, py, x as int, y as int, w as int)]
                } else {
                    pixel(a, px, py)
                }),
            decreases n - k,
        {
            let c = (k % (w as u64)) as i64;
            let r = (k / (w as u64)) as i64;
            assert((k as int) / (w as int) < h) by (nonlinear_arith)
                requires
                    k < w * h,
                    w >= 1,
            ;
            let xx = x as i64 + c;
            let yy = y as i64 + r;
            proof {
                lemma_fundamental_div_mod(k as int, w as int);
                lemma_mul_is_commutative(w as int, r as int);
                assert(save_index(xx as int, yy as int, x as int, y as int, w as int) == k);
                assert forall|px: int, py: int| x <= px < x + w && y <= py < y + h && save_index(
                    px,
                    py,
                    x as int,
                    y as int,
                    w as int,
                ) == k implies px == xx && py == yy by {
                    lemma_fundamental_div_mod_converse(k as int, w as int, py - y, px - x);
                }
            }
            if xx >= 0 && xx < self.width as i64 && yy >= 0 && yy < self.height as i64 {
                self.set_pixel(xx as i32, yy as i32, buf[k as usize]);
            }
            k = k + 1;
        }
        proof {
            assert forall|px: int, py: int| x <= px < x + w && y <= py < y + h implies save_index(
                px,
                py,
                x as int,
                y as int,
                w as int,
            ) < n by {
                assert((py - y) * w + (px - x) < (py - y + 1) * w) by (nonlinear_arith)
                    requires
                        px - x < w,
                ;
                assert((py - y + 1) * w <= h * w) by (nonlinear_arith)
                    requires
                        py - y + 1 <= h,
                        w >= 1,
                ;
            }
        }
    }
}

/// Copy `src` onto `dst` with its top-left at `(dx, dy)`, only within `clip`
/// and `dst` (the clip of `dst` itself does not apply).
pub fn blit(dst: &mut Screen, src: &Screen, dx: i32, dy: i32, clip: Rect)
    requires
        screen_wf(old(dst)@),
        screen_wf(src@),
    ensures
        same_frame(old(dst)@, final(dst)@),
        forall|px: int, py: int| on_screen(old(dst)@, px, py) ==> #[trigger] pixel(final(dst)@, px, py) == (if in_blit(
            src@,
            dx as int,
            dy as int,
            clip,
            px,
            py,
        ) { pixel(src@, px - dx, py - dy) } else { pixel(old(dst)@, px, py) }),
{
    let ghost a = dst@;
    let sw = src.width();
    let sh = src.height();
    let x0: i64 = imax3(dx as i64, clip.x0 as i64, 0);
    let y0: i64 = imax3(dy as i64, clip.y0 as i64, 0);
    let x1: i64 = imin3(dx as i64 + sw as i64, clip.x1 as i64, dst.width() as i64);
    let y1: i64 = imin3(dy as i64 + sh as i64, clip.y1 as i64, dst.height() as i64);
    let mut y = y0;
    while y < y1
        invariant
            screen_wf(a),
            screen_wf(src@),
            same_frame(a, dst@),
            sw == src@.width && sh == src@.height,
            y0 <= y,
            x0 == max3(dx as i64, clip.x0 as i64, 0),
            y0 == max3(dy as i64, clip.y0 as i64, 0),
            x1 == min3((dx + sw) as i64, clip.x1 as i64, a.width as i64),
            y1 == min3((dy + sh) as i64, clip.y1 as i64, a.height as i64),
            forall|px: int, py: int| on_screen(a, px, py) ==> #[trigger] pixel(dst@, px, py) == (if in_blit(
                src@,
                dx as int,
                dy as int,
                clip,
                px,
                py,
            ) && py < y { pixel(src@, px - dx, py - dy) } else { pixel(a, px, py) }),
        decreases y1 - y,
    {
        let mut x = x0;
        while x < x1
            invariant
                screen_wf(a),
                screen_wf(src@),
                same_frame(a, dst@),
                sw == src@.width && sh == src@.height,
                y0 <= y < y1,
                x0 <= x,
                x0 == max3(dx as i64, clip.x0 as i64, 0),
                y0 == max3(dy as i64, clip.y0 as i64, 0),
                x1 == min3((dx + sw) as i64, clip.x1 as i64, a.width as i64),
                y1 == min3((dy + sh) as i64, clip.y1 as i64, a.height as i64),
                forall|px: int, py: int| on_screen(a, px, py) ==> #[trigger] pixel(dst@, px, py) == (if in_blit(
                    src@,
                    dx as int,
                    dy as int,
                    clip,
                    px,
                    py,
                ) && (py < y || (py == y && px < x)) { pixel(src@, px - dx, py - dy) } else { pixel(a, px, py) }),
            decreases x1 - x,
        {
            let c = src.get((x - dx as i64) as i32, (y - dy as i64) as i32);
            dst.set_pixel(x as i32, y as i32, c);
            x = x + 1;
        }
        y = y + 1;
    }
}

pub open spec fn max3(a: i64, b: i64, c: i64) -> i64 {
    if a >= b && a >= c { a } else if b >= c { b } else { c }
}

pub open spec fn min3(a: i64, b: i64, c: i64) -> i64 {
    if a <= b && a <= c { a } else if b <= c { b } else { c }
}

fn imax3(a: i64, b: i64, c: i64) -> (m: i64)
    ensures
        m == max3(a, b, c),
{
    if a >= b && a >= c { a } else if b >= c { b } else { c }
}

fn imin3(a: i64, b: i64, c: i64) -> (m: i64)
    ensures
        m == min3(a, b, c),
{
    if a <= b && a <= c { a } else if b <= c { b } else { c }
}


/// Top of a terminal canvas's text area, and its rows' height.
pub const TERM_TOP: i32 = 4;
pub const LINE_H: i32 = 16;
/// Rows of the terminal's text grid.
pub const TROWS: usize = 18;

/// Shift the text area of a terminal canvas up by `rows_up` text rows; the
/// rows left at the bottom keep their old pixels (they are repainted next).
pub open spec fn scrolled_canvas(a: ScreenView, b: ScreenView, rows_up: int) -> bool {
    let dy = rows_up * 16;
    let bottom = if 4 + 18 * 16 < a.height { 292int } else { a.height as int };
    &&& same_frame(a, b)
    &&& forall|px: int, py: int| on_screen(a, px, py) ==> #[trigger] pixel(b, px, py) == (if dy > 0 && 4 + dy < bottom && 4
        <= py < bottom - dy { pixel(a, px, py + dy) } else { pixel(a, px, py) })
}

pub fn scroll_term_canvas_up(canvas: &mut Screen, rows_up: usize)
    requires
        screen_wf(old(canvas)@),
    ensures
        scrolled_canvas(old(canvas)@, final(canvas)@, rows_up as int),
{
    let ghost a = canvas@;
    let height = canvas.height();
    let width = canvas.width();
    let bottom: i64 = if 4 + 18 * 16 < height { 4 + 18 * 16 } else { height as i64 };
    if rows_up == 0 || rows_up >= 18 {
        assert(rows_up == 0 || !(4 + rows_up * 16 < bottom));
        return;
    }
    let dy = (rows_up as i64) * 16;
    if 4 + dy >= bottom {
        return;
    }
    let mut y: i64 = 4;
    while y < bottom - dy
        invariant
            screen_wf(a),
            same_frame(a, canvas@),
            width == a.width,
            height == a.height,
            bottom == (if 4 + 18 * 16 < a.height { 292int } else { a.height as int }),
            dy == rows_up * 16,
            dy > 0,
            4 + dy < bottom,
            4 <= y <= bottom - dy,
            forall|px: int, py: int| on_screen(a, px, py) ==> #[trigger] pixel(canvas@, px, py) == (if 4 <= py < y {
                pixel(a, px, py + dy)
            } else {
                pixel(a, px, py)
            }),
        decreases bottom - dy - y,
    {
        let mut x: i32 = 0;
        while x < width
            invariant
                screen_wf(a),
                same_frame(a, canvas@),
                width == a.width,
                height == a.height,
                bottom == (if 4 + 18 * 16 < a.height { 292int } else { a.height as int }),
                dy == rows_up * 16,
                dy > 0,
                4 + dy < bottom,
                4 <= y < bottom - dy,
                0 <= x <= width,
                forall|px: int, py: int| on_screen(a, px, py) ==> #[trigger] pixel(canvas@, px, py) == (if 4 <= py < y || (py
                    == y && px < x) { pixel(a, px, py + dy) } else { pixel(a, px, py) }),
            decreases width - x,
        {
            let c = canvas.get(x, (y + dy) as i32);
            canvas.set_pixel(x, y as i32, c);
            x = x + 1;
        }
        y = y + 1;
    }
}

/// `p` blended toward `color` by `alpha` (0..=256), channel by channel.
pub open spec fn blend_px(p: u32, color: u32, alpha: u32) -> u32 {
    let ia = (256 - alpha) as u32;
    let r = ((p & 0xff) * ia + (color & 0xff) * alpha) as u32 >> 8u32;
    let g = (((p >> 8u32) & 0xff) * ia + ((color >> 8u32) & 0xff) * alpha) as u32 >> 8u32;
    let b = (((p >> 16u32) & 0xff) * ia + ((color >> 16u32) & 0xff) * alpha) as u32 >> 8u32;
    (b << 16u32) | (g << 8u32) | r
}

fn blend_one(p: u32, color: u32, alpha: u32) -> (q: u32)
    requires
        alpha <= 256,
    ensures
        q == blend_px(p, color, alpha),
{
    let ia = 256 - alpha;
    let tr = color & 0xff;
    let tg = (color >> 8) & 0xff;
    let tb = (color >> 16) & 0xff;
    let pr = p & 0xff;
    let pg = (p >> 8) & 0xff;
    let pb = (p >> 16) & 0xff;
    assert(tr <= 0xff && tg <= 0xff && tb <= 0xff && pr <= 0xff && pg <= 0xff && pb <= 0xff) by (bit_vector)
        requires
            tr == color & 0xff,
            tg == (color >> 8) & 0xff,
            tb == (color >> 16) & 0xff,
            pr == p & 0xff,
            pg == (p >> 8) & 0xff,
            pb == (p >> 16) & 0xff,
    ;
    assert(pr * ia <= 0xff * 256 && tr * alpha <= 0xff * 256) by (nonlinear_arith)
        requires
            pr <= 0xff,
            tr <= 0xff,
            ia <= 256,
            alpha <= 256,
    ;
    assert(pg * ia <= 0xff * 256 && tg * alpha <= 0xff * 256) by (nonlinear_arith)
        requires
            pg <= 0xff,
            tg <= 0xff,
            ia <= 256,
            alpha <= 256,
    ;
    assert(pb * ia <= 0xff * 256 && tb * alpha <= 0xff * 256) by (nonlinear_arith)
        requires
            pb <= 0xff,
            tb <= 0xff,
            ia <= 256,
            alpha <= 256,
    ;
    let r = (pr * ia + tr * alpha) >> 8;
    let g = (pg * ia + tg * alpha) >> 8;
    let b = (pb * ia + tb * alpha) >> 8;
    (b << 16) | (g << 8) | r
}

/// `b` is `a` with the pixels of `[x0, x1) x [y0, y1)` that lie in the clip
/// blended toward `color` by `alpha`.
pub open spec fn blended(a: ScreenView, b: ScreenView, x0: int, y0: int, x1: int, y1: int, color: u32, alpha: u32) -> bool {
    &&& same_frame(a, b)
    &&& forall|px: int, py: int| on_screen(a, px, py) ==> #[trigger] pixel(b, px, py) == (if in_clip(a, px, py) && x0 <= px
        < x1 && y0 <= py < y1 { blend_px(pixel(a, px, py), color, alpha) } else { pixel(a, px, py) })
}

/// Alpha-blend a flat `color` over the clipped part of `[x0, x1) x [y0, y1)`;
/// `alpha` runs from 0 (no change) to 256 (opaque).
pub fn blend_region(s: &mut Screen, x0: i32, y0: i32, x1: i32, y1: i32, color: u32, alpha: u32)
    requires
        screen_wf(old(s)@),
        alpha <= 256,
    ensures
        blended(old(s)@, final(s)@, x0 as int, y0 as int, x1 as int, y1 as int, color, alpha),
{
    let ghost a = s@;
    let clip = s.clip();
    let bx0: i32 = if x0 > clip.x0 { x0 } else { clip.x0 };
    let by0: i32 = if y0 > clip.y0 { y0 } else { clip.y0 };
    let bx1: i32 = if x1 < clip.x1 { x1 } else { clip.x1 };
    let by1: i32 = if y1 < clip.y1 { y1 } else { clip.y1 };
    let mut y = by0;
    while y < by1
        invariant
            screen_wf(a),
            same_frame(a, s@),
            alpha <= 256,
            clip == a.clip,
            by0 <= y,
            bx0 == (if x0 > clip.x0 { x0 } else { clip.x0 }),
            by0 == (if y0 > clip.y0 { y0 } else { clip.y0 }),
            bx1 == (if x1 < clip.x1 { x1 } else { clip.x1 }),
            by1 == (if y1 < clip.y1 { y1 } else { clip.y1 }),
            forall|px: int, py: int| on_screen(a, px, py) ==> #[trigger] pixel(s@, px, py) == (if in_clip(a, px, py) && x0
                <= px < x1 && y0 <= py < y1 && py < y { blend_px(pixel(a, px, py), color, alpha) } else { pixel(a, px, py) }),
        decreases by1 - y,
    {
        let mut x = bx0;
        while x < bx1
            invariant
                screen_wf(a),
                same_frame(a, s@),
                alpha <= 256,
                clip == a.clip,
                by0 <= y < by1,
                bx0 <= x,
                bx0 == (if x0 > clip.x0 { x0 } else { clip.x0 }),
                by0 == (if y0 > clip.y0 { y0 } else { clip.y0 }),
                bx1 == (if x1 < clip.x1 { x1 } else { clip.x1 }),
                by1 == (if y1 < clip.y1 { y1 } else { clip.y1 }),
                forall|px: int, py: int| on_screen(a, px, py) ==> #[trigger] pixel(s@, px, py) == (if in_clip(a, px, py)
                    && x0 <= px < x1 && y0 <= py < y1 && (py < y || (py == y && px < x)) {
                    blend_px(pixel(a, px, py), color, alpha)
                } else {
                    pixel(a, px, py)
                }),
            decreases bx1 - x,
        {
            let p = s.get(x, y);
            s.set_pixel(x, y, blend_one(p, color, alpha));
            x = x + 1;
        }
        y = y + 1;
    }
}


/// The desktop background at `(x, y)` on a `sw` by `sh` screen: a diagonal
/// indigo-to-teal gradient with a bright diamond lattice every 72 pixels.
pub open spec fn desktop_spec(fmt: u32, x: int, y: int, sw: int, sh: int) -> u32 {
    let span = sw + sh;
    let t = (x + y) * 255 / span;
    let u = (x - y + sh) * 255 / span;
    let d1 = (x + y) % 72;
    let d2 = (x - y) % 72;
    let bump = if d1 < 2 || d2 < 2 { 2int } else if d1 < 4 || d2 < 4 { 1int } else { 0int };
    let r = 0x12 + t * 0x22 / 255 + if bump == 2 { 0x18int } else if bump == 1 { 0x09int } else { 0 };
    let g = 0x1e + u * 0x2c / 255 + if bump == 2 { 0x20int } else if bump == 1 { 0x0dint } else { 0 };
    let b = 0x42 + t * 0x26 / 255 + if bump == 2 { 0x26int } else if bump == 1 { 0x11int } else { 0 };
    pack_spec(fmt, clamp8_spec(r), clamp8_spec(g), clamp8_spec(b))
}

proof fn lemma_shifted_mod(v: int)
    ensures
        (v + 2415919104) % 72 == v % 72,
{
    vstd::arithmetic::div_mod::lemma_mod_multiples_vanish(33554432, v, 72);
    assert(72 * 33554432 == 2415919104);
}

#[verifier::spinoff_prover]
#[verifier::rlimit(40)]
pub fn desktop_px(fmt: u32, x: i32, y: i32, sw: i32, sh: i32) -> (c: u32)
    requires
        0 <= x < sw,
        0 <= y < sh,
    ensures
        c == desktop_spec(fmt, x as int, y as int, sw as int, sh as int),
{
    let span = sw as i64 + sh as i64;
    let t = (x as i64 + y as i64) * 255 / span;
    let u = (x as i64 - y as i64 + sh as i64) * 255 / span;
    assert(t <= 255 && u <= 255) by (nonlinear_arith)
        requires
            t == (x + y) * 255 / (span as int),
            u == (x - y + sh) * 255 / (span as int),
            0 <= x < sw,
            0 <= y < sh,
            span == sw + sh,
    ;
    assert(t >= 0 && u >= 0) by (nonlinear_arith)
        requires
            t == (x + y) * 255 / (span as int),
            u == (x - y + sh) * 255 / (span as int),
            0 <= x < sw,
            0 <= y < sh,
            span == sw + sh,
    ;
    let d1 = (x as i64 + y as i64) % 72;
    let d2 = (x as i64 - y as i64 + 2415919104) % 72;
    proof {
        lemma_shifted_mod(x - y);
    }
    assert(d2 == (x - y) % 72);
    let bump: i64 = if d1 < 2 || d2 < 2 { 2 } else if d1 < 4 || d2 < 4 { 1 } else { 0 };
    let r = 0x12 + t * 0x22 / 255 + if bump == 2 { 0x18 } else if bump == 1 { 0x09 } else { 0 };
    let g = 0x1e + u * 0x2c / 255 + if bump == 2 { 0x20 } else if bump == 1 { 0x0d } else { 0 };
    let b = 0x42 + t * 0x26 / 255 + if bump == 2 { 0x26 } else if bump == 1 { 0x11 } else { 0 };
    assert(0 <= t * 0x22 / 255 <= 0x22 && 0 <= u * 0x2c / 255 <= 0x2c && 0 <= t * 0x26 / 255 <= 0x26) by (nonlinear_arith)
        requires
            0 <= t <= 255,
            0 <= u <= 255,
    ;
    pack_fmt(fmt, clamp8(r as i32), clamp8(g as i32), clamp8(b as i32))
}

/// The whole desktop background for a `sw` by `sh` screen, computed once.
pub fn build_desktop(sw: i32, sh: i32, fmt: u32) -> (bg: Screen)
    requires
        sw >= 1,
        sh >= 1,
    ensures
        screen_wf(bg@),
        bg@.width == sw && bg@.height == sh && bg@.format == fmt,
        forall|x: int, y: int| on_screen(bg@, x, y) ==> #[trigger] pixel(bg@, x, y) == desktop_spec(fmt, x, y, sw as int, sh as int),
{
    let mut bg = Screen::new(sw, sh, fmt);
    let ghost a = bg@;
    let mut y: i32 = 0;
    while y < sh
        invariant
            screen_wf(a),
            same_frame(a, bg@),
            a.width == sw && a.height == sh && a.format == fmt,
            0 <= y <= sh,
            forall|px: int, py: int| on_screen(a, px, py) && py < y ==> #[trigger] pixel(bg@, px, py) == desktop_spec(fmt, px, py, sw as int, sh as int),
        decreases sh - y,
    {
        let mut x: i32 = 0;
        while x < sw
            invariant
                screen_wf(a),
                same_frame(a, bg@),
                a.width == sw && a.height == sh && a.format == fmt,
                0 <= y < sh,
                0 <= x <= sw,
                forall|px: int, py: int| on_screen(a, px, py) && (py < y || (py == y && px < x)) ==> #[trigger] pixel(bg@, px, py)
                    == desktop_spec(fmt, px, py, sw as int, sh as int),
            decreases sw - x,
        {
            bg.set_pixel(x, y, desktop_px(fmt, x, y, sw, sh));
            x = x + 1;
        }
        y = y + 1;
    }
    bg
}

/// Paint the desktop background `bg` over the part of `r` in the clip.
pub fn paint_desktop(s: &mut Screen, r: Rect, bg: &Screen)
    requires
        screen_wf(old(s)@),
        screen_wf(bg@),
        bg@.width == old(s)@.width,
        bg@.height == old(s)@.height,
    ensures
        same_frame(old(s)@, final(s)@),
        forall|px: int, py: int| on_screen(old(s)@, px, py) ==> #[trigger] pixel(final(s)@, px, py) == (if in_clip(old(s)@, px, py)
            && r.x0 <= px < r.x1 && r.y0 <= py < r.y1 { pixel(bg@, px, py) } else { pixel(old(s)@, px, py) }),
{
    let ghost a = s@;
    let clip = s.clip();
    let x0: i32 = if r.x0 > clip.x0 { r.x0 } else { clip.x0 };
    let y0: i32 = if r.y0 > clip.y0 { r.y0 } else { clip.y0 };
    let x1: i32 = if r.x1 < clip.x1 { r.x1 } else { clip.x1 };
    let y1: i32 = if r.y1 < clip.y1 { r.y1 } else { clip.y1 };
    let mut y = y0;
    while y < y1
        invariant
            screen_wf(a),
            screen_wf(bg@),
            bg@.width == a.width && bg@.height == a.height,
            same_frame(a, s@),
            clip == a.clip,
            y0 <= y,
            x0 == (if r.x0 > clip.x0 { r.x0 } else { clip.x0 }),
            y0 == (if r.y0 > clip.y0 { r.y0 } else { clip.y0 }),
            x1 == (if r.x1 < clip.x1 { r.x1 } else { clip.x1 }),
            y1 == (if r.y1 < clip.y1 { r.y1 } else { clip.y1 }),
            forall|px: int, py: int| on_screen(a, px, py) ==> #[trigger] pixel(s@, px, py) == (if in_clip(a, px, py) && r.x0
                <= px < r.x1 && r.y0 <= py < r.y1 && py < y { pixel(bg@, px, py) } else { pixel(a, px, py) }),
        decreases y1 - y,
    {
        let mut x = x0;
        while x < x1
            invariant
                screen_wf(a),
                screen_wf(bg@),
                bg@.width == a.width && bg@.height == a.height,
                same_frame(a, s@),
                clip == a.clip,
                y0 <= y < y1,
                x0 <= x,
                x0 == (if r.x0 > clip.x0 { r.x0 } else { clip.x0 }),
                y0 == (if r.y0 > clip.y0 { r.y0 } else { clip.y0 }),
                x1 == (if r.x1 < clip.x1 { r.x1 } else { clip.x1 }),
                y1 == (if r.y1 < clip.y1 { r.y1 } else { clip.y1 }),
                forall|px: int, py: int| on_screen(a, px, py) ==> #[trigger] pixel(s@, px, py) == (if in_clip(a, px, py)
                    && r.x0 <= px < r.x1 && r.y0 <= py < r.y1 && (py < y || (py == y && px < x)) {
                    pixel(bg@, px, py)
                } else {
                    pixel(a, px, py)
                }),
            decreases x1 - x,
        {
            s.set_pixel(x, y, bg.get(x, y));
            x = x + 1;
        }
        y = y + 1;
    }
}

} // verus!
