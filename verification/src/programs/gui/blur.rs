//! The taskbar's frosted glass: a box blur of the screen behind it, run as
//! three horizontal-then-vertical passes (which approximates a Gaussian).
//! Each pass averages every colour channel over a window of `2r + 1` pixels,
//! clamped at the ends of the line, with a running sum.
use vstd::prelude::*;
use crate::programs::gui::screen::{Screen, ScreenView, screen_wf, same_frame, pixel, on_screen};
use vstd::arithmetic::div_mod::{lemma_fundamental_div_mod, lemma_fundamental_div_mod_converse_div, lemma_fundamental_div_mod_converse_mod};
use vstd::arithmetic::mul::lemma_mul_is_commutative;

verus! {

/// Box-blur passes.
pub const BLUR_PASSES: usize = 3;
/// Radius of the taskbar's blur.
pub const BLUR_R: i32 = 8;

/// Channel `k` (0: low byte, 1: middle, 2: high) of a pixel.
pub open spec fn chan(p: u32, k: int) -> int {
    if k == 0 { (p % 256) as int } else if k == 1 { ((p / 256) % 256) as int } else { ((p / 65536) % 256) as int }
}

/// Sum of channel `k` over `line[lo..=hi]`.
pub open spec fn chan_sum(line: Seq<u32>, lo: int, hi: int, k: int) -> int
    decreases hi - lo + 1,
{
    if hi < lo { 0 } else { chan_sum(line, lo, hi - 1, k) + chan(line[hi], k) }
}

/// The window around `x`: `r` pixels each way, inside `[0, n)`.
pub open spec fn win_lo(x: int, r: int) -> int {
    if x - r > 0 { x - r } else { 0 }
}

pub open spec fn win_hi(x: int, r: int, n: int) -> int {
    if x + r < n - 1 { x + r } else { n - 1 }
}

/// The mean of channel `k` over the window around `x`.
pub open spec fn box_mean(line: Seq<u32>, x: int, r: int, k: int) -> int {
    let lo = win_lo(x, r);
    let hi = win_hi(x, r, line.len() as int);
    chan_sum(line, lo, hi, k) / (hi - lo + 1)
}

/// Pixel `x` of the blurred line (channels repacked low to high).
pub open spec fn blurred_px(line: Seq<u32>, x: int, r: int) -> u32 {
    (box_mean(line, x, r, 2) * 65536 + box_mean(line, x, r, 1) * 256 + box_mean(line, x, r, 0)) as u32
}

/// Place `j` is one of the `count` places from `start`, `stride` apart.
pub open spec fn on_line(j: int, start: int, stride: int, count: int) -> bool {
    j >= start && (j - start) % stride == 0 && (j - start) / stride < count
}

/// The `count` pixels of `a` from `start`, `stride` apart.
pub open spec fn strided(a: Seq<u32>, start: int, stride: int, count: int) -> Seq<u32> {
    Seq::new(count as nat, |i: int| a[start + i * stride])
}

pub proof fn lemma_chan_bound(p: u32, k: int)
    ensures
        0 <= chan(p, k) < 256,
{
}

pub proof fn lemma_chan_sum_bound(line: Seq<u32>, lo: int, hi: int, k: int)
    ensures
        0 <= chan_sum(line, lo, hi, k) <= 255 * (if hi >= lo { hi - lo + 1 } else { 0 }),
    decreases hi - lo + 1,
{
    if hi >= lo {
        lemma_chan_sum_bound(line, lo, hi - 1, k);
    }
}

/// Dropping the first pixel of a window takes its channel off the sum.
pub proof fn lemma_chan_sum_front(line: Seq<u32>, lo: int, hi: int, k: int)
    requires
        lo <= hi,
    ensures
        chan_sum(line, lo + 1, hi, k) == chan_sum(line, lo, hi, k) - chan(line[lo], k),
    decreases hi - lo,
{
    if hi > lo {
        lemma_chan_sum_front(line, lo, hi - 1, k);
    } else {
        assert(chan_sum(line, lo, lo - 1, k) == 0);
        assert(chan_sum(line, lo + 1, lo, k) == 0);
    }
}

fn channels(p: u32) -> (c: (u32, u32, u32))
    ensures
        c.0 == chan(p, 0),
        c.1 == chan(p, 1),
        c.2 == chan(p, 2),
{
    assert(p & 0xFF == p % 256) by (bit_vector);
    assert((p >> 8) & 0xFF == (p / 256) % 256) by (bit_vector);
    assert((p >> 16) & 0xFF == (p / 65536) % 256) by (bit_vector);
    (p & 0xFF, (p >> 8) & 0xFF, (p >> 16) & 0xFF)
}

fn repack(r: u32, g: u32, b: u32) -> (p: u32)
    requires
        r < 256,
        g < 256,
        b < 256,
    ensures
        p == b * 65536 + g * 256 + r,
{
    assert((b << 16) | (g << 8) | r == b * 65536 + g * 256 + r) by (bit_vector)
        requires
            r < 256,
            g < 256,
            b < 256,
    ;
    (b << 16) | (g << 8) | r
}

/// Blur the `count` pixels of `a` from `start`, `stride` apart, into the same
/// places of `b` (other places of `b` are left alone).
pub fn blur_line(a: &[u32], b: &mut [u32], start: usize, stride: usize, count: usize, radius: i32)
    requires
        count >= 1,
        stride >= 1,
        start + (count - 1) * stride < a@.len(),
        old(b)@.len() == a@.len(),
        radius <= 65536,
    ensures
        final(b)@.len() == old(b)@.len(),
        ({
            let r = if radius >= 1 { radius as int } else { 1 };
            let line = strided(a@, start as int, stride as int, count as int);
            &&& forall|x: int| 0 <= x < count ==> #[trigger] final(b)@[start + x * stride] == blurred_px(line, x, r)
            &&& forall|j: int| 0 <= j < final(b)@.len() && !on_line(j, start as int, stride as int, count as int)
                ==> #[trigger] final(b)@[j] == old(b)@[j]
        }),
{
    let r: usize = if radius >= 1 { radius as usize } else { 1 };
    let n = count;
    let alen = a.len();
    let ghost line = strided(a@, start as int, stride as int, count as int);
    let ghost b0 = b@;
    let mut sr: u32 = 0;
    let mut sg: u32 = 0;
    let mut sb: u32 = 0;
    let hi0 = if r < n - 1 { r } else { n - 1 };
    let mut i: usize = 0;
    while i <= hi0
        invariant
            hi0 < n,
            i <= hi0 + 1,
            n == count,
            stride >= 1,
            alen == a@.len(),
            line == strided(a@, start as int, stride as int, count as int),
            start + (count - 1) * stride < a@.len(),
            hi0 <= r <= 65536,
            sr == chan_sum(line, 0, i - 1, 0),
            sg == chan_sum(line, 0, i - 1, 1),
            sb == chan_sum(line, 0, i - 1, 2),
        decreases hi0 + 1 - i,
    {
        proof {
            lemma_chan_sum_bound(line, 0, i - 1, 0);
            lemma_chan_sum_bound(line, 0, i - 1, 1);
            lemma_chan_sum_bound(line, 0, i - 1, 2);
        }
        assert(start + i * stride <= start + (count - 1) * stride) by (nonlinear_arith)
            requires
                i < count,
                stride >= 1,
        ;
        let p = a[start + i * stride];
        assert(p == line[i as int]);
        let (cr, cg, cb) = channels(p);
        sr = sr + cr;
        sg = sg + cg;
        sb = sb + cb;
        i = i + 1;
    }
    let mut lo: usize = 0;
    let mut hi: usize = hi0;
    let mut x: usize = 0;
    while x < n
        invariant
            n == count,
            count >= 1,
            stride >= 1,
            alen == a@.len(),
            line == strided(a@, start as int, stride as int, count as int),
            start + (count - 1) * stride < a@.len(),
            b@.len() == a@.len(),
            b0.len() == a@.len(),
            1 <= r <= 65536,
            r == (if radius >= 1 { radius as int } else { 1 }),
            x <= n,
            x < n ==> lo == win_lo(x as int, r as int) && hi == win_hi(x as int, r as int, n as int),
            lo <= hi < n,
            sr == chan_sum(line, lo as int, hi as int, 0),
            sg == chan_sum(line, lo as int, hi as int, 1),
            sb == chan_sum(line, lo as int, hi as int, 2),
            forall|q: int| 0 <= q < x ==> #[trigger] b@[start + q * stride] == blurred_px(line, q, r as int),
            forall|j: int| 0 <= j < b@.len() && !on_line(j, start as int, stride as int, x as int) ==> #[trigger] b@[j] == b0[j],
        decreases n - x,
    {
        proof {
            lemma_chan_sum_bound(line, lo as int, hi as int, 0);
            lemma_chan_sum_bound(line, lo as int, hi as int, 1);
            lemma_chan_sum_bound(line, lo as int, hi as int, 2);
        }
        let cnt = (hi - lo + 1) as u32;
        let rr = sr / cnt;
        let gg = sg / cnt;
        let bv = sb / cnt;
        assert(rr < 256 && gg < 256 && bv < 256) by (nonlinear_arith)
            requires
                sr <= 255 * cnt,
                sg <= 255 * cnt,
                sb <= 255 * cnt,
                cnt >= 1,
                rr == sr / cnt,
                gg == sg / cnt,
                bv == sb / cnt,
        ;
        let v = repack(rr, gg, bv);
        assert(v == blurred_px(line, x as int, r as int));
        let ghost bx = b@;
        assert(start + x * stride <= start + (count - 1) * stride) by (nonlinear_arith)
            requires
                x < count,
                stride >= 1,
        ;
        let idx = start + x * stride;
        b[idx] = v;
        assert(b@ == bx.update(idx as int, v));
        proof {
            assert forall|q: int| 0 <= q < x + 1 implies #[trigger] b@[start + q * stride] == blurred_px(line, q, r as int) by {
                if q == x {
                    assert(b@[idx as int] == v);
                }
                if q < x {
                    assert(bx[start + q * stride] == blurred_px(line, q, r as int));
                    assert(start + q * stride != start + x * stride) by (nonlinear_arith)
                        requires
                            q < x,
                            stride >= 1,
                    ;
                    assert(start + q * stride <= start + (count - 1) * stride) by (nonlinear_arith)
                        requires
                            q < count,
                            stride >= 1,
                    ;
                    assert(b@[start + q * stride] == bx[start + q * stride]);
                }
            }
            assert forall|j: int| 0 <= j < b@.len() && !on_line(j, start as int, stride as int, x + 1) implies #[trigger] b@[j] == b0[j] by {
                if j == start + x * stride {
                    lemma_row_col(x as int, 0, stride as int);
                }
                if on_line(j, start as int, stride as int, x as int) {
                    assert(on_line(j, start as int, stride as int, x + 1));
                }
            }
        }
        let nlo = if x + 1 > r { x + 1 - r } else { 0 };
        let room = n - 1 - x;
        let nhi = if r + 1 < room { x + 1 + r } else { n - 1 };
        while lo < nlo
            invariant
                lo <= nlo,
                nlo <= x <= hi,
                hi < n,
                hi == win_hi(x as int, r as int, n as int),
                nlo == win_lo(x + 1, r as int),
                1 <= r,
                x < n,
                line == strided(a@, start as int, stride as int, count as int),
                    start + (count - 1) * stride < a@.len(),
                stride >= 1,
                n == count,
                alen == a@.len(),
                sr == chan_sum(line, lo as int, hi as int, 0),
                sg == chan_sum(line, lo as int, hi as int, 1),
                sb == chan_sum(line, lo as int, hi as int, 2),
            decreases nlo - lo,
        {
            assert(start + lo * stride <= start + (count - 1) * stride) by (nonlinear_arith)
                requires
                    lo < count,
                    stride >= 1,
            ;
            let p = a[start + lo * stride];
            assert(p == line[lo as int]);
            let (cr, cg, cb) = channels(p);
            proof {
                lemma_chan_sum_front(line, lo as int, hi as int, 0);
                lemma_chan_sum_front(line, lo as int, hi as int, 1);
                lemma_chan_sum_front(line, lo as int, hi as int, 2);
                lemma_chan_sum_bound(line, lo + 1, hi as int, 0);
                lemma_chan_sum_bound(line, lo + 1, hi as int, 1);
                lemma_chan_sum_bound(line, lo + 1, hi as int, 2);
            }
            sr = sr - cr;
            sg = sg - cg;
            sb = sb - cb;
            lo = lo + 1;
        }
        while hi < nhi
            invariant
                hi <= nhi,
                nhi < n,
                nhi == win_hi(x + 1, r as int, n as int),
                lo == nlo,
                nlo == win_lo(x + 1, r as int),
                lo <= hi + 1,
                line == strided(a@, start as int, stride as int, count as int),
                    start + (count - 1) * stride < a@.len(),
                stride >= 1,
                n == count,
                alen == a@.len(),
                1 <= r <= 65536,
                hi - lo + 1 <= 2 * r + 1,
                sr == chan_sum(line, lo as int, hi as int, 0),
                sg == chan_sum(line, lo as int, hi as int, 1),
                sb == chan_sum(line, lo as int, hi as int, 2),
            decreases nhi - hi,
        {
            proof {
                lemma_chan_sum_bound(line, lo as int, hi as int, 0);
                lemma_chan_sum_bound(line, lo as int, hi as int, 1);
                lemma_chan_sum_bound(line, lo as int, hi as int, 2);
            }
            hi = hi + 1;
            assert(start + hi * stride <= start + (count - 1) * stride) by (nonlinear_arith)
                requires
                    hi < count,
                    stride >= 1,
            ;
            let p = a[start + hi * stride];
            assert(p == line[hi as int]);
            let (cr, cg, cb) = channels(p);
            sr = sr + cr;
            sg = sg + cg;
            sb = sb + cb;
        }
        x = x + 1;
    }
}

/// The `w` by `h` block of `v` whose corner is `(x0, y0)`, row by row.
pub open spec fn region_px(v: ScreenView, x0: int, y0: int, w: int, h: int) -> Seq<u32> {
    Seq::new((w * h) as nat, |i: int| pixel(v, x0 + i % w, y0 + i / w))
}

/// Every row of the `w` by `h` block `a` blurred.
pub open spec fn hpass(a: Seq<u32>, w: int, h: int, r: int) -> Seq<u32> {
    Seq::new((w * h) as nat, |i: int| blurred_px(strided(a, (i / w) * w, 1, w), i % w, r))
}

/// Every column of the `w` by `h` block `b` blurred.
pub open spec fn vpass(b: Seq<u32>, w: int, h: int, r: int) -> Seq<u32> {
    Seq::new((w * h) as nat, |i: int| blurred_px(strided(b, i % w, w, h), i / w, r))
}

/// `k` rounds of rows-then-columns.
pub open spec fn passes(a: Seq<u32>, w: int, h: int, r: int, k: nat) -> Seq<u32>
    decreases k,
{
    if k == 0 { a } else { vpass(hpass(passes(a, w, h, r, (k - 1) as nat), w, h, r), w, h, r) }
}

/// `b` is `a` with `[x0, x1) x [y0, y1)`, cut to the buffer, blurred by
/// `BLUR_PASSES` rounds of radius `radius` (at least 1); the clip plays no part.
pub open spec fn region_blurred(a: ScreenView, b: ScreenView, x0: int, y0: int, x1: int, y1: int, radius: int) -> bool {
    let bx0 = if x0 > 0 { x0 } else { 0 };
    let by0 = if y0 > 0 { y0 } else { 0 };
    let bx1 = if x1 < a.width { x1 } else { a.width as int };
    let by1 = if y1 < a.height { y1 } else { a.height as int };
    let w = bx1 - bx0;
    let h = by1 - by0;
    let r = if radius >= 1 { radius } else { 1 };
    let fin = passes(region_px(a, bx0, by0, w, h), w, h, r, BLUR_PASSES as nat);
    &&& same_frame(a, b)
    &&& forall|px: int, py: int| on_screen(a, px, py) ==> #[trigger] pixel(b, px, py) == (if bx0 <= px < bx1 && by0 <= py
        < by1 { fin[(py - by0) * w + (px - bx0)] } else { pixel(a, px, py) })
}

proof fn lemma_row_col(q: int, r: int, w: int)
    requires
        w > 0,
        q >= 0,
        0 <= r < w,
    ensures
        (q * w + r) / w == q,
        (q * w + r) % w == r,
{
    lemma_fundamental_div_mod_converse_div(q * w + r, w, q, r);
    lemma_fundamental_div_mod_converse_mod(q * w + r, w, q, r);
}

proof fn lemma_index_bounds(i: int, w: int, h: int)
    requires
        w > 0,
        0 <= i < w * h,
    ensures
        0 <= i % w < w,
        0 <= i / w < h,
        (i / w) * w + i % w == i,
{
    lemma_fundamental_div_mod(i, w);
    lemma_mul_is_commutative(w, i / w);
    assert(0 <= i / w < h) by (nonlinear_arith)
        requires
            w > 0,
            0 <= i < w * h,
            i == (i / w) * w + i % w,
            0 <= i % w < w,
    ;
}

/// Rows pass: `b` gets every row of `a` blurred.
fn rows_pass(a: &Vec<u32>, b: &mut Vec<u32>, w: usize, h: usize, radius: i32)
    requires
        w >= 1,
        h >= 1,
        a@.len() == w * h,
        old(b)@.len() == w * h,
        radius <= 65536,
    ensures
        final(b)@ == hpass(a@, w as int, h as int, if radius >= 1 { radius as int } else { 1 }),
{
    let ghost r = if radius >= 1 { radius as int } else { 1 };
    let mut yy: usize = 0;
    while yy < h
        invariant
            w >= 1,
            h >= 1,
            yy <= h,
            a@.len() == w * h,
            b@.len() == w * h,
            radius <= 65536,
            r == (if radius >= 1 { radius as int } else { 1 }),
            forall|i: int| 0 <= i < yy * w ==> #[trigger] b@[i] == hpass(a@, w as int, h as int, r)[i],
        decreases h - yy,
    {
        assert(yy * w + (w - 1) * 1 < a@.len() && yy * w + w <= w * h) by (nonlinear_arith)
            requires
                yy < h,
                w >= 1,
                a@.len() == w * h,
        ;
        let alen = a.len();
        let ghost before = b@;
        let start = yy * w;
        blur_line(a.as_slice(), b.as_mut_slice(), start, 1, w, radius);
        proof {
            assert forall|i: int| 0 <= i < (yy + 1) * w implies #[trigger] b@[i] == hpass(a@, w as int, h as int, r)[i] by {
                assert((yy + 1) * w == yy * w + w) by (nonlinear_arith);
                if i < yy * w {
                    assert(!on_line(i, start as int, 1, w as int));
                    assert(b@[i] == before[i]);
                } else {
                    let x = i - yy * w;
                    lemma_row_col(yy as int, x, w as int);
                    assert(i == start + x * 1);
                    assert(i / (w as int) == yy && i % (w as int) == x);
                    assert(b@[start + x * 1] == blurred_px(strided(a@, start as int, 1, w as int), x, r));
                }
            }
        }
        yy = yy + 1;
    }
    proof {
        assert(b@ =~= hpass(a@, w as int, h as int, r)) by {
            assert(yy * w == w * h) by (nonlinear_arith)
                requires
                    yy == h,
            ;
        }
    }
}

/// Columns pass: `a` gets every column of `b` blurred.
fn cols_pass(b: &Vec<u32>, a: &mut Vec<u32>, w: usize, h: usize, radius: i32)
    requires
        w >= 1,
        h >= 1,
        b@.len() == w * h,
        old(a)@.len() == w * h,
        radius <= 65536,
    ensures
        final(a)@ == vpass(b@, w as int, h as int, if radius >= 1 { radius as int } else { 1 }),
{
    let ghost r = if radius >= 1 { radius as int } else { 1 };
    let mut xx: usize = 0;
    while xx < w
        invariant
            w >= 1,
            h >= 1,
            xx <= w,
            b@.len() == w * h,
            a@.len() == w * h,
            radius <= 65536,
            r == (if radius >= 1 { radius as int } else { 1 }),
            forall|i: int| 0 <= i < w * h && i % (w as int) < xx ==> #[trigger] a@[i] == vpass(b@, w as int, h as int, r)[i],
        decreases w - xx,
    {
        assert(xx + (h - 1) * w < b@.len()) by (nonlinear_arith)
            requires
                xx < w,
                h >= 1,
                b@.len() == w * h,
        ;
        let ghost before = a@;
        blur_line(b.as_slice(), a.as_mut_slice(), xx, w, h, radius);
        proof {
            assert forall|i: int| 0 <= i < w * h && i % (w as int) < xx + 1 implies #[trigger] a@[i] == vpass(b@, w as int, h as int, r)[i] by {
                lemma_index_bounds(i, w as int, h as int);
                let q = i / (w as int);
                let c = i % (w as int);
                if c < xx {
                    if on_line(i, xx as int, w as int, h as int) {
                        let k = (i - xx) / (w as int);
                        lemma_fundamental_div_mod(i - xx, w as int);
                        lemma_mul_is_commutative(w as int, k);
                        lemma_row_col(k, xx as int, w as int);
                        assert(i == k * w + xx);
                        assert(false);
                    }
                    assert(a@[i] == before[i]);
                } else {
                    assert(c == xx);
                    assert(i == xx + q * w);
                    assert(a@[xx + q * w] == blurred_px(strided(b@, xx as int, w as int, h as int), q, r));
                }
            }
        }
        xx = xx + 1;
    }
    proof {
        assert forall|i: int| 0 <= i < a@.len() implies #[trigger] a@[i] == vpass(b@, w as int, h as int, r)[i] by {
            lemma_index_bounds(i, w as int, h as int);
        }
        assert(a@ =~= vpass(b@, w as int, h as int, r));
    }
}

/// A fresh all-zero vector of `n` pixels.
fn zeros(n: usize) -> (v: Vec<u32>)
    ensures
        v@.len() == n,
{
    let mut v: Vec<u32> = Vec::new();
    let mut i: usize = 0;
    while i < n
        invariant
            i <= n,
            v@.len() == i,
        decreases n - i,
    {
        v.push(0);
        i = i + 1;
    }
    v
}

/// Blur `[x0, x1) x [y0, y1)` of the buffer (cut to its edges) in place:
/// `BLUR_PASSES` rounds of a horizontal then a vertical box blur of radius
/// `radius`, which together approximate a Gaussian.
pub fn blur_region(s: &mut Screen, x0: i32, y0: i32, x1: i32, y1: i32, radius: i32)
    requires
        screen_wf(old(s)@),
        old(s)@.width * old(s)@.height <= usize::MAX,
        radius <= 65536,
    ensures
        region_blurred(old(s)@, final(s)@, x0 as int, y0 as int, x1 as int, y1 as int, radius as int),
{
    let ghost v = s@;
    let bx0: i32 = if x0 > 0 { x0 } else { 0 };
    let by0: i32 = if y0 > 0 { y0 } else { 0 };
    let bx1: i32 = if x1 < s.width() { x1 } else { s.width() };
    let by1: i32 = if y1 < s.height() { y1 } else { s.height() };
    if bx1 <= bx0 || by1 <= by0 {
        return;
    }
    let w: usize = (bx1 - bx0) as usize;
    let h: usize = (by1 - by0) as usize;
    assert(w * h <= v.width * v.height) by (nonlinear_arith)
        requires
            1 <= w <= v.width,
            1 <= h <= v.height,
    ;
    let n: usize = w * h;
    let ghost region = region_px(v, bx0 as int, by0 as int, w as int, h as int);
    let mut a: Vec<u32> = Vec::new();
    let mut yy: usize = 0;
    while yy < h
        invariant
            s@ == v,
            screen_wf(v),
            w == bx1 - bx0,
            h == by1 - by0,
            0 <= bx0 < bx1 <= v.width,
            0 <= by0 < by1 <= v.height,
            n == w * h,
            yy <= h,
            region == region_px(v, bx0 as int, by0 as int, w as int, h as int),
            a@.len() == yy * w,
            forall|i: int| 0 <= i < a@.len() ==> #[trigger] a@[i] == region[i],
        decreases h - yy,
    {
        let mut xx: usize = 0;
        while xx < w
            invariant
                s@ == v,
                screen_wf(v),
                w == bx1 - bx0,
                h == by1 - by0,
                0 <= bx0 < bx1 <= v.width,
                0 <= by0 < by1 <= v.height,
                n == w * h,
                yy < h,
                xx <= w,
                region == region_px(v, bx0 as int, by0 as int, w as int, h as int),
                a@.len() == yy * w + xx,
                forall|i: int| 0 <= i < a@.len() ==> #[trigger] a@[i] == region[i],
            decreases w - xx,
        {
            let c = s.get(bx0 + xx as i32, by0 + yy as i32);
            proof {
                lemma_row_col(yy as int, xx as int, w as int);
                assert(yy * w + xx < w * h) by (nonlinear_arith)
                    requires
                        yy < h,
                        xx < w,
                ;
            }
            a.push(c);
            xx = xx + 1;
        }
        assert((yy + 1) * w == yy * w + w) by (nonlinear_arith);
        yy = yy + 1;
    }
    assert(yy * w == w * h) by (nonlinear_arith)
        requires
            yy == h,
    ;
    assert(a@ =~= region);
    let mut b = zeros(n);
    let ghost r = if radius >= 1 { radius as int } else { 1 };
    let mut k: usize = 0;
    while k < BLUR_PASSES
        invariant
            w >= 1,
            h >= 1,
            n == w * h,
            k <= BLUR_PASSES,
            a@.len() == n,
            b@.len() == n,
            radius <= 65536,
            r == (if radius >= 1 { radius as int } else { 1 }),
            a@ == passes(region, w as int, h as int, r, k as nat),
        decreases BLUR_PASSES - k,
    {
        rows_pass(&a, &mut b, w, h, radius);
        cols_pass(&b, &mut a, w, h, radius);
        k = k + 1;
    }
    let ghost fin = a@;
    let mut yy: usize = 0;
    while yy < h
        invariant
            screen_wf(v),
            same_frame(v, s@),
            w == bx1 - bx0,
            h == by1 - by0,
            0 <= bx0 < bx1 <= v.width,
            0 <= by0 < by1 <= v.height,
            n == w * h,
            yy <= h,
            a@ == fin,
            fin.len() == n,
            forall|px: int, py: int| on_screen(v, px, py) ==> #[trigger] pixel(s@, px, py) == (if bx0 <= px < bx1 && by0
                <= py < by0 + yy { fin[(py - by0) * w + (px - bx0)] } else { pixel(v, px, py) }),
        decreases h - yy,
    {
        let mut xx: usize = 0;
        while xx < w
            invariant
                screen_wf(v),
                same_frame(v, s@),
                w == bx1 - bx0,
                h == by1 - by0,
                0 <= bx0 < bx1 <= v.width,
                0 <= by0 < by1 <= v.height,
                n == w * h,
                yy < h,
                xx <= w,
                a@ == fin,
                fin.len() == n,
                forall|px: int, py: int| on_screen(v, px, py) ==> #[trigger] pixel(s@, px, py) == (if bx0 <= px < bx1 && by0
                    <= py < by1 && (py < by0 + yy || (py == by0 + yy && px < bx0 + xx)) {
                    fin[(py - by0) * w + (px - bx0)]
                } else {
                    pixel(v, px, py)
                }),
            decreases w - xx,
        {
            assert(yy * w + xx < w * h) by (nonlinear_arith)
                requires
                    yy < h,
                    xx < w,
            ;
            let c = a[yy * w + xx];
            s.set_pixel(bx0 + xx as i32, by0 + yy as i32, c);
            xx = xx + 1;
        }
        yy = yy + 1;
    }
}

} // verus!
