//! The desktop's geometry: dirty rectangles, window frames, hit tests, and
//! the taskbar's layout.
use vstd::prelude::*;

verus! {

/// Height of a window's title bar.
pub const TITLE_H: i32 = 28;
/// Side of the close box.
pub const CLOSE_SZ: i32 = 18;
/// Window frame thickness (left, right, bottom).
pub const BORDER: i32 = 4;
/// Height of the taskbar along the bottom edge.
pub const TASKBAR_H: i32 = 40;
pub const TB_BTN_W: i32 = 132;
pub const TB_BTN_GAP: i32 = 4;
pub const TB_PAD: i32 = 6;
/// Room kept on the right of the taskbar for the clock.
pub const TB_CLOCK_W: i32 = 100;
/// Width of the page switcher shown when the buttons overflow.
pub const PAGER_W: i32 = 24;
/// Launcher buttons, relative to the window body.
pub const BTN_W: i32 = 150;
pub const BTN_H: i32 = 24;
pub const BTN_X: i32 = 12;
/// Task Manager tab strip.
pub const TAB_H: i32 = 22;
pub const TAB_W: i32 = 110;
/// Profiler toggle button.
pub const PROF_BTN_W: i32 = 64;
pub const PROF_BTN_H: i32 = 20;

/// A rectangle with exclusive right and bottom edges; empty when it has no
/// area.
#[derive(Clone, Copy, PartialEq, Eq, Structural, Debug)]
pub struct Rect {
    pub x0: i32,
    pub y0: i32,
    pub x1: i32,
    pub y1: i32,
}

pub open spec fn rect_empty(r: Rect) -> bool {
    r.x0 >= r.x1 || r.y0 >= r.y1
}

/// The point lies in the `w` by `h` rectangle at `(x, y)`.
pub open spec fn inside(px: int, py: int, x: int, y: int, w: int, h: int) -> bool {
    px >= x && px < x + w && py >= y && py < y + h
}

/// `r` grown to cover the `w` by `h` rectangle at `(x, y)` (unchanged when that
/// has no area).
pub open spec fn rect_add(r: Rect, x: i32, y: i32, w: i32, h: i32) -> Rect {
    if w <= 0 || h <= 0 {
        r
    } else {
        Rect {
            x0: if x < r.x0 { x } else { r.x0 },
            y0: if y < r.y0 { y } else { r.y0 },
            x1: if x + w > r.x1 { (x + w) as i32 } else { r.x1 },
            y1: if y + h > r.y1 { (y + h) as i32 } else { r.y1 },
        }
    }
}

impl Rect {
    /// The empty rectangle that any `add` replaces.
    pub fn empty() -> (r: Rect)
        ensures
            r == (Rect { x0: i32::MAX, y0: i32::MAX, x1: i32::MIN, y1: i32::MIN }),
            rect_empty(r),
    {
        Rect { x0: i32::MAX, y0: i32::MAX, x1: i32::MIN, y1: i32::MIN }
    }

    pub fn is_empty(&self) -> (b: bool)
        ensures
            b == rect_empty(*self),
    {
        self.x0 >= self.x1 || self.y0 >= self.y1
    }

    /// Grow to cover the `w` by `h` rectangle at `(x, y)`.
    pub fn add(&mut self, x: i32, y: i32, w: i32, h: i32)
        requires
            w > 0 && h > 0 ==> x + w <= i32::MAX && y + h <= i32::MAX,
        ensures
            *final(self) == rect_add(*old(self), x, y, w, h),
    {
        if w <= 0 || h <= 0 {
            return;
        }
        if x < self.x0 {
            self.x0 = x;
        }
        if y < self.y0 {
            self.y0 = y;
        }
        if x + w > self.x1 {
            self.x1 = x + w;
        }
        if y + h > self.y1 {
            self.y1 = y + h;
        }
    }

    /// Whether the rectangle overlaps the `w` by `h` rectangle at `(x, y)`.
    pub fn intersects(&self, x: i32, y: i32, w: i32, h: i32) -> (b: bool)
        ensures
            b == (!rect_empty(*self) && x < self.x1 && x + w > self.x0 && y < self.y1 && y + h > self.y0),
    {
        !self.is_empty() && x < self.x1 && (x as i64) + (w as i64) > self.x0 as i64 && y < self.y1 && (y as i64)
            + (h as i64) > self.y0 as i64
    }
}

/// A window's frame on the screen.
#[derive(Clone, Copy, PartialEq, Eq, Structural, Debug)]
pub struct Win {
    pub x: i32,
    pub y: i32,
    pub w: i32,
    pub h: i32,
}

/// Whether the point lies in the `w` by `h` rectangle at `(x, y)`.
pub fn in_rect(px: i32, py: i32, x: i32, y: i32, w: i32, h: i32) -> (b: bool)
    ensures
        b == inside(px as int, py as int, x as int, y as int, w as int, h as int),
{
    px >= x && (px as i64) < (x as i64) + (w as i64) && py >= y && (py as i64) < (y as i64) + (h as i64)
}

/// The close box of a window: `(x, y, w, h)` at the right end of its title
/// bar.
pub fn close_rect(win: &Win) -> (r: (i32, i32, i32, i32))
    requires
        i32::MIN + CLOSE_SZ + BORDER <= win.x + win.w <= i32::MAX,
        win.y + (TITLE_H - CLOSE_SZ) / 2 <= i32::MAX,
    ensures
        r == ((win.x + win.w - CLOSE_SZ - BORDER) as i32, (win.y + (TITLE_H - CLOSE_SZ) / 2) as i32, CLOSE_SZ, CLOSE_SZ),
{
    (win.x + win.w - CLOSE_SZ - BORDER, win.y + (TITLE_H - CLOSE_SZ) / 2, CLOSE_SZ, CLOSE_SZ)
}

/// Body-local top of launcher button `i` (0-based), stacked top-down.
pub fn launcher_btn_y(i: i32) -> (y: i32)
    requires
        0 <= i <= 1000,
    ensures
        y == 12 + i * (BTN_H + 8),
{
    12 + i * (BTN_H + 8)
}

/// Width of a window's body (inside the frame), at least 1.
pub fn body_w(geo: &Win) -> (w: i32)
    ensures
        w == (if geo.w - 2 * BORDER >= 1 { geo.w - 2 * BORDER } else { 1 }),
{
    if geo.w >= 2 * BORDER + 1 { geo.w - 2 * BORDER } else { 1 }
}

/// Height of a window's body (below the title bar, inside the frame), at
/// least 1.
pub fn body_h(geo: &Win) -> (h: i32)
    ensures
        h == (if geo.h - TITLE_H - BORDER >= 1 { geo.h - TITLE_H - BORDER } else { 1 }),
{
    if geo.h >= TITLE_H + BORDER + 1 { geo.h - TITLE_H - BORDER } else { 1 }
}

/// The Task Manager tab under a body-local point: 0 for Processes, 1 for
/// Performance.
pub open spec fn tab_at(px: i32, py: i32) -> Option<u8> {
    if py < 0 || py >= TAB_H {
        None
    } else if 0 <= px < TAB_W {
        Some(0u8)
    } else if TAB_W <= px < 2 * TAB_W {
        Some(1u8)
    } else {
        None
    }
}

pub fn taskmgr_tab(px: i32, py: i32) -> (t: Option<u8>)
    ensures
        t == tab_at(px, py),
{
    if py < 0 || py >= TAB_H {
        return None;
    }
    if px >= 0 && px < TAB_W {
        Some(0)
    } else if px >= TAB_W && px < 2 * TAB_W {
        Some(1)
    } else {
        None
    }
}

/// The profiler's Start/Stop button, in body-local coordinates (`bw`: body
/// width).
pub fn prof_button(px: i32, py: i32, bw: i32) -> (b: bool)
    ensures
        b == inside(px as int, py as int, bw - PROF_BTN_W - 8, 6, PROF_BTN_W as int, PROF_BTN_H as int),
{
    let x = (bw as i64) - (PROF_BTN_W as i64) - 8;
    (px as i64) >= x && (px as i64) < x + (PROF_BTN_W as i64) && py >= 6 && py < 6 + PROF_BTN_H
}

/// The point lies on launcher button `k` (0-based).
pub open spec fn on_button(x: i32, y: i32, k: int) -> bool {
    inside(x as int, y as int, BTN_X - 1, 12 + k * (BTN_H + 8), BTN_W as int, BTN_H as int)
}

/// The launcher button (1, 2 or 3) under a body-local point, 0 for none.
pub open spec fn button_at_spec(x: i32, y: i32) -> u8 {
    if on_button(x, y, 0) {
        1
    } else if on_button(x, y, 1) {
        2
    } else if on_button(x, y, 2) {
        3
    } else {
        0
    }
}

pub fn button_at(x: i32, y: i32) -> (b: u8)
    ensures
        b == button_at_spec(x, y),
{
    let mut i: i32 = 0;
    while i < 3
        invariant
            0 <= i <= 3,
            forall|k: int| 0 <= k < i ==> !#[trigger] on_button(x, y, k),
        decreases 3 - i,
    {
        if in_rect(x, y, BTN_X - 1, launcher_btn_y(i), BTN_W, BTN_H) {
            return (i + 1) as u8;
        }
        i = i + 1;
    }
    0
}


// ── taskbar ─────────────────────────────────────────────────────────────────

/// How the window buttons fit on the taskbar.
#[derive(Clone, Copy, PartialEq, Eq, Structural, Debug)]
pub struct TbLayout {
    pub per_page: usize,
    pub pages: usize,
    /// Right edge available to the buttons.
    pub btn_max_x: i32,
    /// The buttons need more than one page (a pager is shown).
    pub overflow: bool,
}

/// `a / b` for positive `b`, 0 when `a` is negative.
pub open spec fn div_floor0(a: int, b: int) -> int {
    if a < 0 { 0 } else { a / b }
}

/// The taskbar layout for `n` buttons on a screen `sw` wide: all on one page,
/// or paginated with the pager reserved on the right.
pub open spec fn taskbar_layout_spec(n: usize, sw: i32) -> TbLayout {
    let slot = (TB_BTN_W + TB_BTN_GAP) as int;
    let full_max = sw - TB_CLOCK_W;
    let fit_full = div_floor0(full_max - TB_PAD, slot);
    if n <= fit_full || n == 0 {
        TbLayout { per_page: if fit_full >= 1 { fit_full as usize } else { 1 }, pages: 1, btn_max_x: full_max as i32, overflow: false }
    } else {
        let btn_max_x = full_max - PAGER_W - TB_BTN_GAP;
        let q = div_floor0(btn_max_x - TB_PAD, slot);
        let per_page = if q >= 1 { q } else { 1 };
        TbLayout {
            per_page: per_page as usize,
            pages: ((n + per_page - 1) / per_page) as usize,
            btn_max_x: btn_max_x as i32,
            overflow: true,
        }
    }
}

pub fn taskbar_layout(n: usize, sw: i32) -> (l: TbLayout)
    requires
        sw >= i32::MIN + TB_CLOCK_W + PAGER_W + TB_BTN_GAP,
    ensures
        l == taskbar_layout_spec(n, sw),
        l.per_page >= 1,
        l.pages >= 1,
{
    let slot: i32 = TB_BTN_W + TB_BTN_GAP;
    let full_max = sw - TB_CLOCK_W;
    let num = (full_max as i64) - (TB_PAD as i64);
    let fit_full: usize = if num < 0 { 0 } else { (num / (slot as i64)) as usize };
    if n <= fit_full || n == 0 {
        return TbLayout { per_page: if fit_full >= 1 { fit_full } else { 1 }, pages: 1, btn_max_x: full_max, overflow: false };
    }
    let btn_max_x = full_max - PAGER_W - TB_BTN_GAP;
    let num2 = (btn_max_x as i64) - (TB_PAD as i64);
    let q: usize = if num2 < 0 { 0 } else { (num2 / (slot as i64)) as usize };
    let per_page = if q >= 1 { q } else { 1 };
    assert(n >= 1);
    let pages = (n - 1) / per_page + 1;
    proof {
        assert(pages == (n + per_page - 1) / per_page as int) by (nonlinear_arith)
            requires
                per_page >= 1,
                n >= 1,
                pages == (n - 1) / per_page as int + 1,
        ;
    }
    TbLayout { per_page, pages, btn_max_x, overflow: true }
}

/// Window `a` comes before window `b` in button order: smaller id, or the
/// same id and earlier in the list.
pub open spec fn before(ids: Seq<u64>, a: int, b: int) -> bool {
    ids[a] < ids[b] || (ids[a] == ids[b] && a < b)
}

/// `order` lists window positions below `n` in button order, without repeats.
pub open spec fn button_order(ids: Seq<u64>, order: Seq<usize>, n: int) -> bool {
    &&& forall|i: int| 0 <= i < order.len() ==> #[trigger] order[i] < n
    &&& forall|i: int, j: int| 0 <= i < j < order.len() ==> before(ids, #[trigger] order[i] as int, #[trigger] order[j] as int)
}

/// Button order of the (first 64) windows: by id, the list order among equal
/// ids, so that a button does not move when its window is raised.
pub fn taskbar_order(ids: &[u64]) -> (order: Vec<usize>)
    ensures
        order@.len() == (if ids@.len() < 64 { ids@.len() } else { 64 }),
        button_order(ids@, order@, order@.len() as int),
{
    let n = if ids.len() < 64 { ids.len() } else { 64 };
    let mut idx: Vec<usize> = Vec::new();
    let mut k: usize = 0;
    while k < n
        invariant
            k <= n <= ids@.len(),
            n <= 64,
            idx@.len() == k,
            forall|p: int| 0 <= p < k ==> #[trigger] idx@[p] == p,
        decreases n - k,
    {
        idx.push(k);
        k = k + 1;
    }
    let mut i: usize = 1;
    if n == 0 {
        return idx;
    }
    while i < n
        invariant
            1 <= i <= n <= ids@.len(),
            n <= 64,
            idx@.len() == n,
            button_order(ids@, idx@.subrange(0, i as int), i as int),
            forall|p: int| i <= p < n ==> #[trigger] idx@[p] == p,
        decreases n - i,
    {
        let ghost pre = idx@.subrange(0, i as int);
        proof {
            assert forall|p: int| 0 <= p < n implies #[trigger] idx@[p] < n by {
                if p < i {
                    assert(idx@[p] == pre[p]);
                }
            }
        }
        let mut j: usize = i;
        while j > 0 && ids[idx[j - 1]] > ids[idx[j]]
            invariant
                1 <= i < n <= ids@.len(),
                0 <= j <= i,
                idx@.len() == n,
                idx@[j as int] == i,
                forall|p: int| 0 <= p < j ==> #[trigger] idx@[p] == pre[p],
                forall|p: int| j < p <= i ==> #[trigger] idx@[p] == pre[p - 1],
                forall|p: int| j <= p < i ==> before(ids@, i as int, #[trigger] pre[p] as int),
                forall|p: int| i < p < n ==> #[trigger] idx@[p] == p,
                forall|p: int| 0 <= p < n ==> #[trigger] idx@[p] < n,
                button_order(ids@, pre, i as int),
            decreases j,
        {
            let a = idx[j - 1];
            let b = idx[j];
            idx.set(j - 1, b);
            idx.set(j, a);
            j = j - 1;
        }
        proof {
            assert forall|p: int| 0 <= p < n implies #[trigger] idx@[p] < n by {
            }
        }
        proof {
            let cur = idx@.subrange(0, i + 1);
            assert forall|p: int| 0 <= p < cur.len() implies #[trigger] cur[p] < i + 1 by {
                if p < j {
                    assert(cur[p] == pre[p]);
                } else if p > j {
                    assert(cur[p] == pre[p - 1]);
                }
            }
            if j > 0 {
                assert(!(ids@[pre[j - 1] as int] > ids@[i as int]));
                assert(pre[j - 1] < i);
                assert(before(ids@, pre[j - 1] as int, i as int));
            }
            assert forall|a: int, b: int| 0 <= a < b < cur.len() implies before(ids@, #[trigger] cur[a] as int, #[trigger] cur[b] as int) by {
                if b < j {
                    assert(cur[a] == pre[a] && cur[b] == pre[b]);
                } else if b == j {
                    assert(cur[a] == pre[a]);
                    if a < j - 1 {
                        assert(before(ids@, pre[a] as int, pre[j - 1] as int));
                    }
                } else if a > j {
                    assert(cur[a] == pre[a - 1] && cur[b] == pre[b - 1]);
                } else if a == j {
                    assert(cur[b] == pre[b - 1]);
                } else {
                    assert(cur[a] == pre[a] && cur[b] == pre[b - 1]);
                }
            }
        }
        i = i + 1;
    }
    assert(idx@.subrange(0, n as int) =~= idx@);
    idx
}

/// What a click on the taskbar hit.
#[derive(Clone, Copy, PartialEq, Eq, Structural, Debug)]
pub enum TbHit {
    Window(u64),
    PageUp,
    PageDown,
    Empty,
}

/// Button `k` of a page spans `mx`: buttons are `TB_BTN_W` (132) wide, one
/// every `TB_BTN_W + TB_BTN_GAP` (136) pixels from `TB_PAD` (6).
pub open spec fn on_tb_button(mx: i32, k: int) -> bool {
    6 + k * 136 <= mx < 6 + k * 136 + 132
}

/// The page shown: the requested one, kept below the page count.
pub open spec fn shown_page(tb_page: usize, pages: usize) -> int {
    if tb_page < pages - 1 { tb_page as int } else { pages - 1 }
}

/// What a taskbar click at `(mx, my)` hits, given the windows' ids in list
/// order and their button order, the screen size and the current page: the
/// pager (when shown), one of the page's buttons, or nothing.
pub open spec fn taskbar_hit_spec(ids: Seq<u64>, order: Seq<usize>, mx: i32, my: i32, sw: i32, sh: i32, tb_page: usize) -> TbHit {
    let lay = taskbar_layout_spec(order.len() as usize, sw);
    let top = sh - TASKBAR_H;
    let px = lay.btn_max_x + TB_BTN_GAP;
    let start = shown_page(tb_page, lay.pages) * lay.per_page;
    let count = if start + lay.per_page <= order.len() { lay.per_page as int } else { order.len() - start };
    if lay.overflow && px <= mx < px + PAGER_W {
        if my < top + TASKBAR_H / 2 { TbHit::PageUp } else { TbHit::PageDown }
    } else if exists|k: int| 0 <= k < count && #[trigger] on_tb_button(mx, k) {
        let k = choose|k: int| 0 <= k < count && #[trigger] on_tb_button(mx, k);
        TbHit::Window(ids[order[start + k] as int])
    } else {
        TbHit::Empty
    }
}

/// What a taskbar click hits (see `taskbar_hit_spec`); `ids` are the windows'
/// ids in list (stacking) order.
pub fn taskbar_hit(ids: &[u64], mx: i32, my: i32, sw: i32, sh: i32, tb_page: usize) -> (hit: TbHit)
    requires
        sw >= i32::MIN + TB_CLOCK_W + PAGER_W + TB_BTN_GAP,
        sh >= i32::MIN + TASKBAR_H,
    ensures
        exists|order: Seq<usize>|
            order.len() == (if ids@.len() < 64 { ids@.len() } else { 64 }) && button_order(ids@, order, order.len() as int)
                && hit == taskbar_hit_spec(ids@, order, mx, my, sw, sh, tb_page),
{
    let top = sh - TASKBAR_H;
    let order = taskbar_order(ids);
    let n = order.len();
    let lay = taskbar_layout(n, sw);
    let ghost spec_hit = taskbar_hit_spec(ids@, order@, mx, my, sw, sh, tb_page);
    if lay.overflow {
        let px = (lay.btn_max_x as i64) + (TB_BTN_GAP as i64);
        if (mx as i64) >= px && (mx as i64) < px + (PAGER_W as i64) {
            let r = if (my as i64) < (top as i64) + (TASKBAR_H / 2) as i64 { TbHit::PageUp } else { TbHit::PageDown };
            assert(r == spec_hit);
            return r;
        }
    }
    let page = if tb_page < lay.pages - 1 { tb_page } else { lay.pages - 1 };
    proof {
        assert(page * lay.per_page <= n) by (nonlinear_arith)
            requires
                page <= lay.pages - 1,
                lay.per_page >= 1,
                lay.pages >= 1,
                lay.pages == 1 || lay.pages == (n + lay.per_page - 1) / lay.per_page as int,
                lay.pages == 1 ==> page == 0,
        ;
    }
    let start = page * lay.per_page;
    let count = if lay.per_page <= n - start { lay.per_page } else { n - start };
    let mut k: usize = 0;
    let mut bx: i64 = 6;
    while k < count
        invariant
            k <= count,
            start + count <= n,
            n == order@.len(),
            bx == 6 + k * 136,
            forall|q: int| 0 <= q < k ==> !#[trigger] on_tb_button(mx, q),
            forall|p: int| 0 <= p < n ==> #[trigger] order@[p] < ids@.len(),
            count <= 64,
            lay == taskbar_layout_spec(n, sw),
            page == shown_page(tb_page, lay.pages),
            start == page * lay.per_page,
            count == (if lay.per_page <= n - start { lay.per_page } else { (n - start) as usize }),
            spec_hit == taskbar_hit_spec(ids@, order@, mx, my, sw, sh, tb_page),
            order@.len() == (if ids@.len() < 64 { ids@.len() } else { 64 }),
            button_order(ids@, order@, order@.len() as int),
            !(lay.overflow && lay.btn_max_x + TB_BTN_GAP <= mx < lay.btn_max_x + TB_BTN_GAP + PAGER_W),
        decreases count - k,
    {
        if (mx as i64) >= bx && (mx as i64) < bx + 132 {
            let id = ids[order[start + k]];
            proof {
                assert(on_tb_button(mx, k as int));
                assert forall|q: int| 0 <= q < count && #[trigger] on_tb_button(mx, q) implies q == k by {
                    if q > k {
                        assert(q * 136 >= (k + 1) * 136);
                    }
                    if q < k {
                        assert(k * 136 >= (q + 1) * 136);
                    }
                }
                let lay_s = taskbar_layout_spec(order@.len() as usize, sw);
                let start_s = shown_page(tb_page, lay_s.pages) * lay_s.per_page;
                assert(lay_s == lay);
                assert(start_s == start);
                let count_s = if start_s + lay_s.per_page <= order@.len() { lay_s.per_page as int } else { order@.len() - start_s };
                assert(count_s == count);
                let kk = choose|q: int| 0 <= q < count_s && #[trigger] on_tb_button(mx, q);
                assert(kk == k);
            }
            let r = TbHit::Window(id);
            assert(r == spec_hit);
            return r;
        }
        bx = bx + 136;
        k = k + 1;
    }
    assert(TbHit::Empty == spec_hit);
    TbHit::Empty
}

/// The ids of the buttons, left to right, for a button order.
pub open spec fn button_ids(ids: Seq<u64>, order: Seq<usize>) -> Seq<u64> {
    order.map_values(|k: usize| ids[k as int])
}

pub open spec fn increasing(s: Seq<u64>) -> bool {
    forall|i: int, j: int| 0 <= i < j < s.len() ==> s[i] < s[j]
}

/// Two increasing sequences holding the same values are the same.
proof fn lemma_increasing_unique(a: Seq<u64>, b: Seq<u64>)
    requires
        increasing(a),
        increasing(b),
        forall|x: u64| a.contains(x) <==> b.contains(x),
    ensures
        a == b,
    decreases a.len(),
{
    if a.len() == 0 {
        if b.len() > 0 {
            assert(b.contains(b[0]));
        }
        assert(a =~= b);
    } else {
        assert(a.contains(a[0]));
        assert(b.len() > 0);
        assert(b.contains(b[0]));
        let ia = choose|i: int| 0 <= i < a.len() && a[i] == b[0];
        let ib = choose|i: int| 0 <= i < b.len() && b[i] == a[0];
        assert(a[0] <= a[ia]);
        assert(b[0] <= b[ib]);
        assert(a[0] == b[0]);
        let a1 = a.drop_first();
        let b1 = b.drop_first();
        assert forall|x: u64| a1.contains(x) <==> b1.contains(x) by {
            if a1.contains(x) {
                let i = choose|i: int| 0 <= i < a1.len() && a1[i] == x;
                assert(a[i + 1] == x);
                assert(x > a[0]);
                assert(b.contains(x));
                let j = choose|j: int| 0 <= j < b.len() && b[j] == x;
                assert(j != 0);
                assert(b1[j - 1] == x);
            }
            if b1.contains(x) {
                let i = choose|i: int| 0 <= i < b1.len() && b1[i] == x;
                assert(b[i + 1] == x);
                assert(x > b[0]);
                assert(a.contains(x));
                let j = choose|j: int| 0 <= j < a.len() && a[j] == x;
                assert(j != 0);
                assert(a1[j - 1] == x);
            }
        }
        lemma_increasing_unique(a1, b1);
        assert(a =~= seq![a[0]] + a1);
        assert(b =~= seq![b[0]] + b1);
    }
}

/// `n` distinct positions below `n` take in every position below `n`.
proof fn lemma_order_covers(order: Seq<usize>, n: int)
    requires
        order.len() == n,
        n <= usize::MAX,
        forall|i: int| 0 <= i < n ==> #[trigger] order[i] < n,
        forall|i: int, j: int| 0 <= i < j < n ==> order[i] != order[j],
    ensures
        forall|k: int| 0 <= k < n ==> #[trigger] order.contains(k as usize),
{
    broadcast use vstd::seq_lib::seq_to_set_is_finite;
    let s = order.map_values(|k: usize| k as int);
    assert(s.no_duplicates()) by {
        assert forall|i: int, j: int| 0 <= i < s.len() && 0 <= j < s.len() && i != j implies s[i] != s[j] by {
            if i < j {
                assert(order[i] != order[j]);
            } else {
                assert(order[j] != order[i]);
            }
        }
    }
    s.unique_seq_to_set();
    vstd::set_lib::lemma_int_range(0, n);
    let r = vstd::set_lib::set_int_range(0, n);
    assert(s.to_set().subset_of(r)) by {
        assert forall|x: int| s.to_set().contains(x) implies r.contains(x) by {
            let i = choose|i: int| 0 <= i < s.len() && s[i] == x;
            assert(order[i] < n);
        }
    }
    vstd::set_lib::lemma_subset_equality(s.to_set(), r);
    assert forall|k: int| 0 <= k < n implies #[trigger] order.contains(k as usize) by {
        assert(r.contains(k));
        assert(s.to_set().contains(k));
        let i = choose|i: int| 0 <= i < s.len() && s[i] == k;
        assert(order[i] == k as usize);
    }
}

/// A full button order lists every id, in increasing order (ids distinct).
proof fn lemma_full_order_ids(ids: Seq<u64>, order: Seq<usize>)
    requires
        ids.no_duplicates(),
        ids.len() <= 64,
        order.len() == ids.len(),
        button_order(ids, order, order.len() as int),
    ensures
        increasing(button_ids(ids, order)),
        forall|x: u64| button_ids(ids, order).contains(x) <==> ids.contains(x),
{
    let n = order.len() as int;
    let b = button_ids(ids, order);
    assert forall|i: int, j: int| 0 <= i < j < b.len() implies b[i] < b[j] by {
        assert(before(ids, order[i] as int, order[j] as int));
        if ids[order[i] as int] == ids[order[j] as int] {
            assert((order[i] as int) < (order[j] as int));
        }
    }
    assert forall|i: int, j: int| 0 <= i < j < n implies order[i] != order[j] by {
        assert(before(ids, order[i] as int, order[j] as int));
    }
    lemma_order_covers(order, n);
    assert forall|x: u64| b.contains(x) <==> ids.contains(x) by {
        if b.contains(x) {
            let i = choose|i: int| 0 <= i < b.len() && b[i] == x;
            assert(order[i] < n);
            assert(ids[order[i] as int] == x);
        }
        if ids.contains(x) {
            let k = choose|k: int| 0 <= k < ids.len() && ids[k] == x;
            assert(order.contains(k as usize));
            let i = choose|i: int| 0 <= i < order.len() && order[i] == k as usize;
            assert(order[i] as int == k);
            assert(b[i] == ids[order[i] as int]);
            assert(b[i] == x);
        }
    }
}

/// A button stays put when the windows are restacked: for two stackings of
/// the same distinct window ids (at most 64, all on the taskbar), the button
/// orders list the ids the same way, left to right.
pub proof fn law_buttons_ignore_stacking(ids1: Seq<u64>, ids2: Seq<u64>, o1: Seq<usize>, o2: Seq<usize>)
    requires
        ids1.no_duplicates(),
        ids2.no_duplicates(),
        forall|x: u64| ids1.contains(x) <==> ids2.contains(x),
        ids1.len() == ids2.len(),
        ids1.len() <= 64,
        o1.len() == ids1.len(),
        o2.len() == ids2.len(),
        button_order(ids1, o1, o1.len() as int),
        button_order(ids2, o2, o2.len() as int),
    ensures
        button_ids(ids1, o1) == button_ids(ids2, o2),
{
    lemma_full_order_ids(ids1, o1);
    lemma_full_order_ids(ids2, o2);
    assert forall|x: u64| button_ids(ids1, o1).contains(x) <==> button_ids(ids2, o2).contains(x) by {
        assert(button_ids(ids1, o1).contains(x) <==> ids1.contains(x));
        assert(button_ids(ids2, o2).contains(x) <==> ids2.contains(x));
    }
    lemma_increasing_unique(button_ids(ids1, o1), button_ids(ids2, o2));
}

} // verus!
