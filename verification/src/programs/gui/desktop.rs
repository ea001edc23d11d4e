//! The desktop's window management: the stacking order, focus, title-bar
//! drags, pointer capture and the taskbar page. The program runs the event
//! loop and owns the windows' contents and pixels; it asks this module what a
//! press, a release or a motion does, and is told which window gets what and
//! which part of the screen to repaint.
use vstd::prelude::*;
use crate::programs::gui::geometry::{
    Rect, Win, TbHit, inside, rect_add, rect_empty, in_rect, body_w, close_rect, taskbar_hit, taskbar_hit_spec, button_order,
    taskbar_layout, taskbar_layout_spec, button_ids, law_buttons_ignore_stacking,
    TITLE_H, CLOSE_SZ, BORDER, TASKBAR_H,
};

verus! {

/// What a window shows.
#[derive(Clone, Copy, PartialEq, Eq, Structural, Debug)]
pub enum WinKind {
    Launcher,
    TaskMgr,
    Terminal,
    Profiler,
}

/// A window in the stacking order.
#[derive(Clone, Copy, PartialEq, Eq, Structural, Debug)]
pub struct WinEntry {
    pub id: u64,
    pub geo: Win,
    pub kind: WinKind,
}

/// Screens up to this size are handled.
pub const SCREEN_MAX: i32 = 16384;
/// Windows are at most this wide or tall.
pub const WIN_MAX: i32 = 4096;

/// The desktop's window state.
pub struct Desk {
    windows: Vec<WinEntry>,
    next_id: u64,
    cascade: i32,
    focused: Option<u64>,
    dragging: Option<u64>,
    grab_dx: i32,
    grab_dy: i32,
    capture: Option<u64>,
    tb_page: usize,
}

pub struct DeskView {
    /// Back to front: the last window is on top.
    pub windows: Seq<WinEntry>,
    pub next_id: u64,
    /// Opened windows so far, which staggers new ones.
    pub cascade: i32,
    /// The active window (lit title bar), if any.
    pub focused: Option<u64>,
    /// The window whose title bar is held.
    pub dragging: Option<u64>,
    /// Where in the title bar it was grabbed.
    pub grab_dx: i32,
    pub grab_dy: i32,
    /// The window that took the current press in its body.
    pub capture: Option<u64>,
    pub tb_page: usize,
}

impl View for Desk {
    type V = DeskView;

    closed spec fn view(&self) -> DeskView {
        DeskView {
            windows: self.windows@,
            next_id: self.next_id,
            cascade: self.cascade,
            focused: self.focused,
            dragging: self.dragging,
            grab_dx: self.grab_dx,
            grab_dy: self.grab_dy,
            capture: self.capture,
            tb_page: self.tb_page,
        }
    }
}

/// `v / 2` rounded toward zero, as integer division does.
pub open spec fn half_toward_zero(v: int) -> int {
    if v >= 0 { v / 2 } else { -((-v) / 2) }
}

pub open spec fn geo_ok(g: Win) -> bool {
    &&& -WIN_MAX <= g.x <= SCREEN_MAX
    &&& -WIN_MAX <= g.y <= SCREEN_MAX
    &&& 1 <= g.w <= WIN_MAX
    &&& 1 <= g.h <= WIN_MAX
}

/// Window ids are distinct, below the next one to give, and frames are in
/// range.
pub open spec fn desk_wf(d: DeskView) -> bool {
    &&& forall|i: int| 0 <= i < d.windows.len() ==> geo_ok(#[trigger] d.windows[i].geo)
    &&& forall|i: int| 0 <= i < d.windows.len() ==> 1 <= #[trigger] d.windows[i].id < d.next_id
    &&& forall|i: int, j: int| 0 <= i < j < d.windows.len() ==> (#[trigger] d.windows[i]).id != (#[trigger] d.windows[j]).id
    &&& 0 <= d.grab_dx < WIN_MAX
    &&& 0 <= d.grab_dy < WIN_MAX
    &&& 0 <= d.cascade
    &&& d.next_id >= 1
}

/// The pointer and screen are in range.
pub open spec fn screen_ok(mx: i32, my: i32, sw: i32, sh: i32) -> bool {
    &&& 0 <= mx < sw <= SCREEN_MAX
    &&& 0 <= my < sh <= SCREEN_MAX
    &&& sh >= TASKBAR_H + TITLE_H
}

/// The position of window `id` in the stacking order, or -1.
pub open spec fn win_index(ws: Seq<WinEntry>, id: u64) -> int
    decreases ws.len(),
{
    if ws.len() == 0 {
        -1
    } else if ws.last().id == id {
        ws.len() - 1
    } else {
        win_index(ws.drop_last(), id)
    }
}

/// The frontmost window under the point, or -1.
pub open spec fn topmost(ws: Seq<WinEntry>, px: int, py: int) -> int
    decreases ws.len(),
{
    if ws.len() == 0 {
        -1
    } else if inside(px, py, ws.last().geo.x as int, ws.last().geo.y as int, ws.last().geo.w as int, ws.last().geo.h as int) {
        ws.len() - 1
    } else {
        topmost(ws.drop_last(), px, py)
    }
}

/// Window `id` brought to the front, the others keeping their order.
pub open spec fn raised(ws: Seq<WinEntry>, id: u64) -> Seq<WinEntry> {
    let p = win_index(ws, id);
    if p < 0 || p == ws.len() - 1 { ws } else { ws.remove(p).push(ws[p]) }
}

/// `r` grown over every window's frame, back to front.
pub open spec fn cover(r: Rect, ws: Seq<WinEntry>) -> Rect
    decreases ws.len(),
{
    if ws.len() == 0 {
        r
    } else {
        let g = ws.last().geo;
        rect_add(cover(r, ws.drop_last()), g.x, g.y, g.w, g.h)
    }
}

pub proof fn lemma_win_index(ws: Seq<WinEntry>, id: u64)
    ensures
        -1 <= win_index(ws, id) < ws.len(),
        win_index(ws, id) >= 0 ==> ws[win_index(ws, id)].id == id,
        win_index(ws, id) < 0 ==> forall|j: int| 0 <= j < ws.len() ==> (#[trigger] ws[j]).id != id,
    decreases ws.len(),
{
    if ws.len() > 0 && ws.last().id != id {
        lemma_win_index(ws.drop_last(), id);
        if win_index(ws, id) < 0 {
            assert forall|j: int| 0 <= j < ws.len() implies (#[trigger] ws[j]).id != id by {
                if j < ws.len() - 1 {
                    assert(ws[j] == ws.drop_last()[j]);
                }
            }
        }
    }
}

pub proof fn lemma_topmost(ws: Seq<WinEntry>, px: int, py: int)
    ensures
        -1 <= topmost(ws, px, py) < ws.len(),
        topmost(ws, px, py) >= 0 ==> inside(px, py, ws[topmost(ws, px, py)].geo.x as int, ws[topmost(ws, px, py)].geo.y as int,
            ws[topmost(ws, px, py)].geo.w as int, ws[topmost(ws, px, py)].geo.h as int),
        forall|j: int| topmost(ws, px, py) < j < ws.len() ==> !inside(px, py, (#[trigger] ws[j]).geo.x as int, ws[j].geo.y as int,
            ws[j].geo.w as int, ws[j].geo.h as int),
    decreases ws.len(),
{
    if ws.len() > 0 && !inside(px, py, ws.last().geo.x as int, ws.last().geo.y as int, ws.last().geo.w as int, ws.last().geo.h as int) {
        lemma_topmost(ws.drop_last(), px, py);
        assert forall|j: int| topmost(ws, px, py) < j < ws.len() implies !inside(px, py, (#[trigger] ws[j]).geo.x as int,
            ws[j].geo.y as int, ws[j].geo.w as int, ws[j].geo.h as int) by {
            if j < ws.len() - 1 {
                assert(ws[j] == ws.drop_last()[j]);
            }
        }
    }
}

/// Raising a window keeps the same windows: it ends up in front, and the
/// others keep their order behind it.
pub proof fn law_raise_keeps_windows(ws: Seq<WinEntry>, id: u64)
    requires
        win_index(ws, id) >= 0,
    ensures
        raised(ws, id).len() == ws.len(),
        raised(ws, id).last() == ws[win_index(ws, id)],
        raised(ws, id).drop_last() == ws.remove(win_index(ws, id)),
{
    lemma_win_index(ws, id);
    let p = win_index(ws, id);
    if p == ws.len() - 1 {
        assert(ws.remove(p) =~= ws.drop_last());
    }
}


/// The ids of the windows, back to front.
pub open spec fn win_ids(ws: Seq<WinEntry>) -> Seq<u64> {
    ws.map_values(|w: WinEntry| w.id)
}

/// Raising a window never moves a taskbar button: with distinct ids and at
/// most 64 windows (all on the taskbar), the button orders before and after
/// the raise list the ids the same way.
pub proof fn law_raise_keeps_buttons(ws: Seq<WinEntry>, id: u64, o1: Seq<usize>, o2: Seq<usize>)
    requires
        forall|i: int, j: int| 0 <= i < j < ws.len() ==> (#[trigger] ws[i]).id != (#[trigger] ws[j]).id,
        ws.len() <= 64,
        win_index(ws, id) >= 0,
        o1.len() == ws.len(),
        o2.len() == ws.len(),
        button_order(win_ids(ws), o1, o1.len() as int),
        button_order(win_ids(raised(ws, id)), o2, o2.len() as int),
    ensures
        button_ids(win_ids(ws), o1) == button_ids(win_ids(raised(ws, id)), o2),
{
    law_raise_keeps_windows(ws, id);
    lemma_win_index(ws, id);
    let p = win_index(ws, id);
    let r = raised(ws, id);
    let n = ws.len();
    assert forall|j: int| 0 <= j < n implies #[trigger] r[j] == (if j < p { ws[j] } else if j < n - 1 { ws[j + 1] } else {
        ws[p]
    }) by {
        if j < n - 1 {
            assert(r.drop_last()[j] == r[j]);
        }
    }
    let a = win_ids(ws);
    let b = win_ids(r);
    assert(a.no_duplicates()) by {
        assert forall|i: int, j: int| 0 <= i < a.len() && 0 <= j < a.len() && i != j implies a[i] != a[j] by {
            if i < j {
                assert(ws[i].id != ws[j].id);
            } else {
                assert(ws[j].id != ws[i].id);
            }
        }
    }
    let src = |j: int| if j < p { j } else if j < n - 1 { j + 1 } else { p };
    assert forall|j: int| 0 <= j < n implies #[trigger] b[j] == a[src(j)] by {
        assert(r[j] == ws[src(j)]);
    }
    assert(b.no_duplicates()) by {
        assert forall|i: int, j: int| 0 <= i < b.len() && 0 <= j < b.len() && i != j implies b[i] != b[j] by {
            assert(b[i] == a[src(i)] && b[j] == a[src(j)]);
            assert(src(i) != src(j));
        }
    }
    assert forall|x: u64| a.contains(x) <==> b.contains(x) by {
        if a.contains(x) {
            let k = choose|k: int| 0 <= k < a.len() && a[k] == x;
            let j = if k < p { k } else if k == p { n - 1 } else { k - 1 };
            assert(src(j) == k);
            assert(b[j] == x);
        }
        if b.contains(x) {
            let j = choose|j: int| 0 <= j < b.len() && b[j] == x;
            assert(a[src(j)] == x);
        }
    }
    law_buttons_ignore_stacking(a, b, o1, o2);
}

/// What a press of the left button did.
#[derive(Clone, Copy, PartialEq, Eq, Structural, Debug)]
pub enum Press {
    /// The taskbar was hit.
    Taskbar(TbHit),
    /// Window `0` (showing `1`) was closed by its close box.
    Closed(u64, WinKind),
    /// The title bar of window `0` was grabbed.
    Drag(u64),
    /// A press in the body of window `0`, at body-local `(1, 2)`, the body
    /// being `3` wide: for its content.
    Body(u64, i32, i32, i32),
    /// The empty desktop.
    Desktop,
}

/// What a pointer motion did.
#[derive(Clone, Copy, PartialEq, Eq, Structural, Debug)]
pub enum Motion {
    /// The dragged window moved from frame `0` to frame `1`.
    Moved(Win, Win),
    /// For the content of the capturing window `0`: body-local `(1, 2)`, body width `3`.
    Deliver(u64, i32, i32, i32),
    Still,
}

/// What opening a launcher kind (1: Task Manager, 2: Terminal, else
/// Profiler) takes.
#[derive(Clone, Copy, PartialEq, Eq, Structural, Debug)]
pub enum OpenPlan {
    /// The Task Manager is single: raise the open one.
    Raise(u64),
    /// Make a window of this kind with this frame.
    Create(WinKind, Win),
}

pub open spec fn on_close_box(g: Win, mx: int, my: int) -> bool {
    inside(mx, my, g.x + g.w - CLOSE_SZ - BORDER, g.y + (TITLE_H - CLOSE_SZ) / 2, CLOSE_SZ as int, CLOSE_SZ as int)
}

pub open spec fn on_title(g: Win, mx: int, my: int) -> bool {
    inside(mx, my, g.x as int, g.y as int, g.w as int, TITLE_H as int)
}

pub open spec fn body_width(g: Win) -> int {
    if g.w - 2 * BORDER >= 1 { g.w - 2 * BORDER } else { 1 }
}

/// The pointer in a window's body coordinates, with the body's width.
pub open spec fn body_point(id: u64, g: Win, mx: int, my: int) -> (u64, i32, i32, i32) {
    (id, (mx - (g.x + BORDER)) as i32, (my - (g.y + TITLE_H)) as i32, body_width(g) as i32)
}

/// The desktop after a taskbar click hit `h`.
pub open spec fn taskbar_applied(d: DeskView, h: TbHit) -> DeskView {
    match h {
        TbHit::Window(id) => DeskView { focused: Some(id), windows: raised(d.windows, id), ..d },
        TbHit::PageUp => DeskView { tb_page: if d.tb_page > 0 { (d.tb_page - 1) as usize } else { 0 }, ..d },
        TbHit::PageDown => DeskView { tb_page: (d.tb_page + 1) as usize, ..d },
        TbHit::Empty => DeskView { focused: None, ..d },
    }
}

/// A press above the taskbar: the frontmost window under it is raised and
/// focused, then closed (close box), grabbed (title bar) or captures the
/// press (body); on the empty desktop the focus is cleared.
pub open spec fn window_press(d: DeskView, mx: int, my: int) -> (DeskView, Press) {
    let t = topmost(d.windows, mx, my);
    if t < 0 {
        (DeskView { focused: None, ..d }, Press::Desktop)
    } else {
        let e = d.windows[t];
        let w = raised(d.windows, e.id);
        let g = e.geo;
        if e.kind != WinKind::Launcher && on_close_box(g, mx, my) {
            (DeskView { windows: w.drop_last(), focused: None, ..d }, Press::Closed(e.id, e.kind))
        } else if on_title(g, mx, my) {
            (
                DeskView {
                    windows: w,
                    focused: Some(e.id),
                    dragging: Some(e.id),
                    grab_dx: (mx - g.x) as i32,
                    grab_dy: (my - g.y) as i32,
                    ..d
                },
                Press::Drag(e.id),
            )
        } else {
            let b = body_point(e.id, g, mx, my);
            (DeskView { windows: w, focused: Some(e.id), capture: Some(e.id), ..d }, Press::Body(b.0, b.1, b.2, b.3))
        }
    }
}

/// The taskbar strip.
pub open spec fn with_taskbar(r: Rect, sw: i32, sh: i32) -> Rect {
    rect_add(r, 0, (sh - TASKBAR_H) as i32, sw, TASKBAR_H)
}

pub open spec fn empty_rect() -> Rect {
    Rect { x0: i32::MAX, y0: i32::MAX, x1: i32::MIN, y1: i32::MIN }
}

pub open spec fn ids_of(ws: Seq<WinEntry>) -> Seq<u64> {
    ws.map_values(|w: WinEntry| w.id)
}

/// The first window of kind `k`, or -1.
pub open spec fn first_of_kind(ws: Seq<WinEntry>, k: WinKind) -> int
    decreases ws.len(),
{
    if ws.len() == 0 {
        -1
    } else if ws[0].kind == k {
        0
    } else if first_of_kind(ws.drop_first(), k) < 0 {
        -1
    } else {
        first_of_kind(ws.drop_first(), k) + 1
    }
}

pub proof fn lemma_first_of_kind(ws: Seq<WinEntry>, k: WinKind)
    ensures
        -1 <= first_of_kind(ws, k) < ws.len(),
        first_of_kind(ws, k) >= 0 ==> ws[first_of_kind(ws, k)].kind == k,
        forall|j: int| 0 <= j < ws.len() && (first_of_kind(ws, k) < 0 || j < first_of_kind(ws, k)) ==> (#[trigger] ws[j]).kind != k,
    decreases ws.len(),
{
    if ws.len() > 0 && ws[0].kind != k {
        lemma_first_of_kind(ws.drop_first(), k);
        assert forall|j: int| 0 <= j < ws.len() && (first_of_kind(ws, k) < 0 || j < first_of_kind(ws, k)) implies (#[trigger] ws[j]).kind != k by {
            if j > 0 {
                assert(ws[j] == ws.drop_first()[j - 1]);
            }
        }
    }
}

/// The frame of a new window of launcher kind `kind`, staggered by the
/// number opened so far.
pub open spec fn new_frame(kind: u8, cascade: i32) -> Win {
    let off = (cascade % 6) * 24;
    if kind == 1 {
        Win { x: (90 + off) as i32, y: (60 + off) as i32, w: 540, h: 440 }
    } else if kind == 2 {
        Win { x: (130 + off) as i32, y: (96 + off) as i32, w: 540, h: 320 }
    } else {
        Win { x: (110 + off) as i32, y: (90 + off) as i32, w: 440, h: 260 }
    }
}

pub open spec fn kind_of(kind: u8) -> WinKind {
    if kind == 1 { WinKind::TaskMgr } else if kind == 2 { WinKind::Terminal } else { WinKind::Profiler }
}

pub open spec fn open_plan(d: DeskView, kind: u8) -> OpenPlan {
    let t = first_of_kind(d.windows, WinKind::TaskMgr);
    if kind == 1 && t >= 0 {
        OpenPlan::Raise(d.windows[t].id)
    } else {
        OpenPlan::Create(kind_of(kind), new_frame(kind, d.cascade))
    }
}

/// Where a drag to `(mx, my)` puts the title bar: under the pointer as
/// grabbed, but never below the top of the taskbar.
pub open spec fn dragged_frame(g: Win, d: DeskView, mx: int, my: int, sh: int) -> Win {
    let ny = if my - d.grab_dy <= sh - TASKBAR_H - TITLE_H { my - d.grab_dy } else { sh - TASKBAR_H - TITLE_H };
    Win { x: (mx - d.grab_dx) as i32, y: ny as i32, ..g }
}

pub open spec fn motion_of(d: DeskView, mx: int, my: int, sh: int) -> (DeskView, Motion) {
    match d.dragging {
        Some(id) => {
            let p = win_index(d.windows, id);
            if p < 0 {
                (d, Motion::Still)
            } else {
                let g = d.windows[p].geo;
                let n = dragged_frame(g, d, mx, my, sh);
                if n.x != g.x || n.y != g.y {
                    (DeskView { windows: d.windows.update(p, WinEntry { geo: n, ..d.windows[p] }), ..d }, Motion::Moved(g, n))
                } else {
                    (d, Motion::Still)
                }
            }
        },
        None => match d.capture {
            Some(id) => {
                let p = win_index(d.windows, id);
                if p < 0 {
                    (d, Motion::Still)
                } else {
                    let b = body_point(id, d.windows[p].geo, mx, my);
                    (d, Motion::Deliver(b.0, b.1, b.2, b.3))
                }
            },
            None => (d, Motion::Still),
        },
    }
}


pub proof fn lemma_index_of_member(ws: Seq<WinEntry>, t: int)
    requires
        0 <= t < ws.len(),
        forall|i: int, j: int| 0 <= i < j < ws.len() ==> (#[trigger] ws[i]).id != (#[trigger] ws[j]).id,
    ensures
        win_index(ws, ws[t].id) == t,
{
    lemma_win_index(ws, ws[t].id);
    let p = win_index(ws, ws[t].id);
    if p < 0 {
        assert(ws[t].id != ws[t].id);
    }
    if p != t {
        if p < t {
            assert(ws[p].id != ws[t].id);
        } else {
            assert(ws[t].id != ws[p].id);
        }
    }
}

fn geo_cover(r: &mut Rect, ws: &Vec<WinEntry>)
    requires
        forall|i: int| 0 <= i < ws@.len() ==> geo_ok(#[trigger] ws@[i].geo),
    ensures
        *final(r) == cover(*old(r), ws@),
{
    let ghost r0 = *r;
    let mut i: usize = 0;
    while i < ws.len()
        invariant
            i <= ws@.len(),
            forall|k: int| 0 <= k < ws@.len() ==> geo_ok(#[trigger] ws@[k].geo),
            *r == cover(r0, ws@.take(i as int)),
        decreases ws@.len() - i,
    {
        let g = ws[i].geo;
        assert(geo_ok(ws@[i as int].geo));
        assert(ws@.take(i + 1).drop_last() =~= ws@.take(i as int));
        r.add(g.x, g.y, g.w, g.h);
        i = i + 1;
    }
    assert(ws@.take(ws@.len() as int) =~= ws@);
}

impl Desk {
    /// The desktop at start: the launcher (id 1) centred and focused.
    pub fn new(sw: i32, sh: i32) -> (d: Desk)
        requires
            0 < sw <= SCREEN_MAX,
            0 < sh <= SCREEN_MAX,
        ensures
            desk_wf(d@),
            d@ == (DeskView {
                windows: seq![WinEntry {
                    id: 1,
                    geo: Win { x: half_toward_zero(sw - 240) as i32, y: half_toward_zero(sh - 200) as i32, w: 240, h: 200 },
                    kind: WinKind::Launcher,
                }],
                next_id: 2,
                cascade: 0,
                focused: Some(1),
                dragging: None,
                grab_dx: 0,
                grab_dy: 0,
                capture: None,
                tb_page: 0,
            }),
    {
        let geo = Win { x: (sw - 240) / 2, y: (sh - 200) / 2, w: 240, h: 200 };
        let mut windows: Vec<WinEntry> = Vec::new();
        windows.push(WinEntry { id: 1, geo, kind: WinKind::Launcher });
        let d = Desk {
            windows,
            next_id: 2,
            cascade: 0,
            focused: Some(1),
            dragging: None,
            grab_dx: 0,
            grab_dy: 0,
            capture: None,
            tb_page: 0,
        };
        assert(d@.windows =~= seq![WinEntry { id: 1, geo, kind: WinKind::Launcher }]);
        d
    }

    pub fn windows(&self) -> (w: &Vec<WinEntry>)
        ensures
            w@ == self@.windows,
    {
        &self.windows
    }

    pub fn focused(&self) -> (f: Option<u64>)
        ensures
            f == self@.focused,
    {
        self.focused
    }

    pub fn tb_page(&self) -> (p: usize)
        ensures
            p == self@.tb_page,
    {
        self.tb_page
    }

    /// Keep the taskbar page below the page count of a `sw`-wide screen (as
    /// windows open and close, or after paging past the end).
    pub fn keep_page(&mut self, sw: i32)
        requires
            desk_wf(old(self)@),
            sw >= 0,
        ensures
            desk_wf(final(self)@),
            ({
                let pages = taskbar_layout_spec(old(self)@.windows.len() as usize, sw).pages;
                final(self)@ == (DeskView {
                    tb_page: if old(self)@.tb_page >= pages { (pages - 1) as usize } else { old(self)@.tb_page },
                    ..old(self)@
                })
            }),
    {
        let pages = taskbar_layout(self.windows.len(), sw).pages;
        if self.tb_page >= pages {
            self.tb_page = pages - 1;
        }
    }

    /// The id the next window gets.
    pub fn next_id(&self) -> (n: u64)
        ensures
            n == self@.next_id,
    {
        self.next_id
    }

    /// How many windows have been opened so far (it staggers new ones).
    pub fn cascade(&self) -> (c: i32)
        ensures
            c == self@.cascade,
    {
        self.cascade
    }

    /// The position of window `id` in the stacking order.
    pub fn win_pos(&self, id: u64) -> (p: Option<usize>)
        ensures
            match p {
                Some(i) => win_index(self@.windows, id) == i,
                None => win_index(self@.windows, id) < 0,
            },
    {
        proof {
            lemma_win_index(self.windows@, id);
        }
        assert(self.windows@.take(self.windows@.len() as int) =~= self.windows@);
        let mut i = self.windows.len();
        while i > 0
            invariant
                i <= self.windows@.len(),
                win_index(self.windows@.take(i as int), id) == win_index(self.windows@, id),
            decreases i,
        {
            let ghost t = self.windows@.take(i as int);
            assert(t.drop_last() =~= self.windows@.take(i - 1));
            if self.windows[i - 1].id == id {
                return Some(i - 1);
            }
            i = i - 1;
        }
        None
    }

    /// The frontmost window under the point.
    pub fn topmost_at(&self, px: i32, py: i32) -> (p: Option<usize>)
        ensures
            match p {
                Some(i) => topmost(self@.windows, px as int, py as int) == i,
                None => topmost(self@.windows, px as int, py as int) < 0,
            },
    {
        assert(self.windows@.take(self.windows@.len() as int) =~= self.windows@);
        let mut i = self.windows.len();
        while i > 0
            invariant
                i <= self.windows@.len(),
                topmost(self.windows@.take(i as int), px as int, py as int) == topmost(self.windows@, px as int, py as int),
            decreases i,
        {
            let ghost t = self.windows@.take(i as int);
            assert(t.drop_last() =~= self.windows@.take(i - 1));
            let g = self.windows[i - 1].geo;
            if in_rect(px, py, g.x, g.y, g.w, g.h) {
                return Some(i - 1);
            }
            i = i - 1;
        }
        None
    }

    /// Bring window `id` to the front.
    pub fn raise(&mut self, id: u64)
        requires
            desk_wf(old(self)@),
        ensures
            desk_wf(final(self)@),
            final(self)@ == (DeskView { windows: raised(old(self)@.windows, id), ..old(self)@ }),
    {
        let ghost ws = self.windows@;
        proof {
            lemma_win_index(ws, id);
        }
        let n = self.windows.len();
        if let Some(p) = self.win_pos(id) {
            assert(p < n);
            if p + 1 != n {
                let w = self.windows.remove(p);
                self.windows.push(w);
                proof {
                    let r = self.windows@;
                    assert(r =~= ws.remove(p as int).push(ws[p as int]));
                    assert forall|i: int| 0 <= i < r.len() implies geo_ok(#[trigger] r[i].geo) by {
                        if i < p {
                            assert(r[i] == ws[i]);
                        } else if i < r.len() - 1 {
                            assert(r[i] == ws[i + 1]);
                        }
                    }
                    assert forall|i: int| 0 <= i < r.len() implies 1 <= #[trigger] r[i].id < old(self)@.next_id by {
                        if i < p {
                            assert(r[i] == ws[i]);
                        } else if i < r.len() - 1 {
                            assert(r[i] == ws[i + 1]);
                        }
                    }
                    assert forall|i: int, j: int| 0 <= i < j < r.len() implies (#[trigger] r[i]).id != (#[trigger] r[j]).id by {
                        let oi = if i < p { i } else { i + 1 };
                        let oj = if j == r.len() - 1 { p as int } else if j < p { j } else { j + 1 };
                        assert(r[i] == ws[oi]);
                        assert(r[j] == ws[oj]);
                        assert(oi != oj);
                    }
                }
            }
        }
    }

    /// The ids in stacking order.
    fn ids(&self) -> (v: Vec<u64>)
        ensures
            v@ == ids_of(self@.windows),
    {
        let mut v: Vec<u64> = Vec::new();
        let mut i: usize = 0;
        while i < self.windows.len()
            invariant
                i <= self.windows@.len(),
                v@ == ids_of(self.windows@.take(i as int)),
            decreases self.windows@.len() - i,
        {
            v.push(self.windows[i].id);
            i = i + 1;
            assert(v@ =~= ids_of(self.windows@.take(i as int)));
        }
        assert(self.windows@.take(self.windows@.len() as int) =~= self.windows@);
        v
    }

    /// A press of the left button at `(mx, my)` on a `sw` by `sh` screen: the
    /// desktop's part of it, what it hit, and the area to repaint.
    pub fn press(&mut self, mx: i32, my: i32, sw: i32, sh: i32) -> (r: (Press, Rect))
        requires
            desk_wf(old(self)@),
            screen_ok(mx, my, sw, sh),
            old(self)@.tb_page < usize::MAX,
        ensures
            desk_wf(final(self)@),
            my >= sh - TASKBAR_H ==> r.0 is Taskbar && ({
                let h = r.0->Taskbar_0;
                let ids = ids_of(old(self)@.windows);
                &&& exists|order: Seq<usize>|
                    order.len() == (if ids.len() < 64 { ids.len() } else { 64 }) && button_order(ids, order, order.len() as int)
                        && h == taskbar_hit_spec(ids, order, mx, my, sw, sh, old(self)@.tb_page)
                &&& final(self)@ == taskbar_applied(old(self)@, h)
                &&& r.1 == with_taskbar(cover(empty_rect(), final(self)@.windows), sw, sh)
            }),
            my < sh - TASKBAR_H ==> ({
                let t = topmost(old(self)@.windows, mx as int, my as int);
                &&& (final(self)@, r.0) == window_press(old(self)@, mx as int, my as int)
                &&& t < 0 ==> r.1 == with_taskbar(cover(empty_rect(), final(self)@.windows), sw, sh)
                &&& t >= 0 ==> r.1 == cover(
                    rect_add(empty_rect(), old(self)@.windows[t].geo.x, old(self)@.windows[t].geo.y,
                        old(self)@.windows[t].geo.w, old(self)@.windows[t].geo.h),
                    final(self)@.windows,
                )
            }),
    {
        let ghost d = self@;
        if my >= sh - TASKBAR_H {
            let ids = self.ids();
            let hit = taskbar_hit(ids.as_slice(), mx, my, sw, sh, self.tb_page);
            match hit {
                TbHit::Window(id) => {
                    self.focused = Some(id);
                    self.raise(id);
                },
                TbHit::PageUp => {
                    self.tb_page = if self.tb_page > 0 { self.tb_page - 1 } else { 0 };
                },
                TbHit::PageDown => {
                    self.tb_page = self.tb_page + 1;
                },
                TbHit::Empty => {
                    self.focused = None;
                },
            }
            let mut dr = Rect::empty();
            geo_cover(&mut dr, &self.windows);
            dr.add(0, sh - TASKBAR_H, sw, TASKBAR_H);
            return (Press::Taskbar(hit), dr);
        }
        proof {
            lemma_topmost(d.windows, mx as int, my as int);
        }
        match self.topmost_at(mx, my) {
            None => {
                self.focused = None;
                let mut dr = Rect::empty();
                geo_cover(&mut dr, &self.windows);
                dr.add(0, sh - TASKBAR_H, sw, TASKBAR_H);
                (Press::Desktop, dr)
            },
            Some(t) => {
                let e = self.windows[t];
                proof {
                    lemma_index_of_member(d.windows, t as int);
                    law_raise_keeps_windows(d.windows, e.id);
                }
                self.raise(e.id);
                let g = e.geo;
                assert(geo_ok(g));
                let mut dr = Rect::empty();
                dr.add(g.x, g.y, g.w, g.h);
                let (cx, cy, cw, ch) = close_rect(&g);
                let press = if e.kind != WinKind::Launcher && in_rect(mx, my, cx, cy, cw, ch) {
                    self.windows.pop();
                    self.focused = None;
                    Press::Closed(e.id, e.kind)
                } else {
                    self.focused = Some(e.id);
                    if in_rect(mx, my, g.x, g.y, g.w, TITLE_H) {
                        self.dragging = Some(e.id);
                        self.grab_dx = mx - g.x;
                        self.grab_dy = my - g.y;
                        Press::Drag(e.id)
                    } else {
                        self.capture = Some(e.id);
                        Press::Body(e.id, mx - (g.x + BORDER), my - (g.y + TITLE_H), body_w(&g))
                    }
                };
                proof {
                    let w = self@.windows;
                    assert forall|i: int| 0 <= i < w.len() implies geo_ok(#[trigger] w[i].geo) by {
                        assert(w[i] == raised(d.windows, e.id)[i]);
                    }
                }
                geo_cover(&mut dr, &self.windows);
                (press, dr)
            },
        }
    }

    /// With the left button up, no title bar is held.
    pub fn button_state(&mut self, left: bool)
        requires
            desk_wf(old(self)@),
        ensures
            desk_wf(final(self)@),
            final(self)@ == (if left { old(self)@ } else { DeskView { dragging: None, ..old(self)@ } }),
    {
        if !left {
            self.dragging = None;
        }
    }

    /// A release of the left button: the window that captured the press (if
    /// it is still open) gets it, in its body coordinates; the capture ends.
    pub fn release(&mut self, mx: i32, my: i32) -> (r: Option<(u64, i32, i32, i32)>)
        requires
            desk_wf(old(self)@),
            0 <= mx <= SCREEN_MAX,
            0 <= my <= SCREEN_MAX,
        ensures
            desk_wf(final(self)@),
            final(self)@ == (DeskView { capture: None, ..old(self)@ }),
            r == (match old(self)@.capture {
                Some(id) => if win_index(old(self)@.windows, id) >= 0 {
                    Some(body_point(id, old(self)@.windows[win_index(old(self)@.windows, id)].geo, mx as int, my as int))
                } else {
                    None
                },
                None => None,
            }),
    {
        let c = self.capture;
        self.capture = None;
        match c {
            Some(id) => match self.win_pos(id) {
                Some(p) => {
                    proof {
                        lemma_win_index(self.windows@, id);
                    }
                    let g = self.windows[p].geo;
                    assert(geo_ok(g));
                    Some((id, mx - (g.x + BORDER), my - (g.y + TITLE_H), body_w(&g)))
                },
                None => None,
            },
            None => None,
        }
    }

    /// The pointer moved to `(mx, my)`: a held title bar drags its window;
    /// otherwise the capturing window's content gets the motion.
    pub fn motion(&mut self, mx: i32, my: i32, sh: i32) -> (m: Motion)
        requires
            desk_wf(old(self)@),
            0 <= mx < SCREEN_MAX,
            0 <= my < sh <= SCREEN_MAX,
            sh >= TASKBAR_H + TITLE_H,
        ensures
            desk_wf(final(self)@),
            (final(self)@, m) == motion_of(old(self)@, mx as int, my as int, sh as int),
    {
        let ghost d = self@;
        match self.dragging {
            Some(id) => match self.win_pos(id) {
                Some(p) => {
                    proof {
                        lemma_win_index(d.windows, id);
                    }
                    let e = self.windows[p];
                    let g = e.geo;
                    let nx = mx - self.grab_dx;
                    let ty = my - self.grab_dy;
                    let ny = if ty <= sh - TASKBAR_H - TITLE_H { ty } else { sh - TASKBAR_H - TITLE_H };
                    if nx != g.x || ny != g.y {
                        let n = Win { x: nx, y: ny, w: g.w, h: g.h };
                        self.windows.set(p, WinEntry { geo: n, ..e });
                        proof {
                            let w = self@.windows;
                            assert forall|i: int| 0 <= i < w.len() implies geo_ok(#[trigger] w[i].geo) by {
                                if i != p {
                                    assert(w[i] == d.windows[i]);
                                }
                            }
                            assert forall|i: int| 0 <= i < w.len() implies 1 <= #[trigger] w[i].id < d.next_id by {
                                assert(w[i].id == d.windows[i].id);
                            }
                            assert forall|i: int, j: int| 0 <= i < j < w.len() implies (#[trigger] w[i]).id != (#[trigger] w[j]).id by {
                                assert(w[i].id == d.windows[i].id);
                                assert(w[j].id == d.windows[j].id);
                            }
                        }
                        Motion::Moved(g, n)
                    } else {
                        Motion::Still
                    }
                },
                None => Motion::Still,
            },
            None => match self.capture {
                Some(id) => match self.win_pos(id) {
                    Some(p) => {
                        proof {
                            lemma_win_index(d.windows, id);
                        }
                        let g = self.windows[p].geo;
                        assert(geo_ok(g));
                        Motion::Deliver(id, mx - (g.x + BORDER), my - (g.y + TITLE_H), body_w(&g))
                    },
                    None => Motion::Still,
                },
                None => Motion::Still,
            },
        }
    }

    /// What opening launcher kind `kind` takes.
    pub fn plan_open(&self, kind: u8) -> (p: OpenPlan)
        requires
            desk_wf(self@),
        ensures
            p == open_plan(self@, kind),
    {
        proof {
            lemma_first_of_kind(self.windows@, WinKind::TaskMgr);
        }
        if kind == 1 {
            let mut i: usize = 0;
            while i < self.windows.len()
                invariant
                    kind == 1,
                    i <= self.windows@.len(),
                    -1 <= first_of_kind(self.windows@, WinKind::TaskMgr) < self.windows@.len(),
                    first_of_kind(self.windows@, WinKind::TaskMgr) >= 0 ==> self.windows@[first_of_kind(self.windows@, WinKind::TaskMgr)].kind == WinKind::TaskMgr,
                    forall|j: int| 0 <= j < self.windows@.len() && (first_of_kind(self.windows@, WinKind::TaskMgr) < 0 || j < first_of_kind(self.windows@, WinKind::TaskMgr)) ==> (#[trigger] self.windows@[j]).kind != WinKind::TaskMgr,
                    forall|j: int| 0 <= j < i ==> (#[trigger] self.windows@[j]).kind != WinKind::TaskMgr,
                decreases self.windows@.len() - i,
            {
                if self.windows[i].kind == WinKind::TaskMgr {
                    assert(first_of_kind(self.windows@, WinKind::TaskMgr) == i as int);
                    return OpenPlan::Raise(self.windows[i].id);
                }
                i = i + 1;
            }
        }
        let off = (self.cascade % 6) * 24;
        let geo = if kind == 1 {
            Win { x: 90 + off, y: 60 + off, w: 540, h: 440 }
        } else if kind == 2 {
            Win { x: 130 + off, y: 96 + off, w: 540, h: 320 }
        } else {
            Win { x: 110 + off, y: 90 + off, w: 440, h: 260 }
        };
        let k = if kind == 1 { WinKind::TaskMgr } else if kind == 2 { WinKind::Terminal } else { WinKind::Profiler };
        OpenPlan::Create(k, geo)
    }

    /// Add the new front window of `kind` with frame `geo` (once its canvas
    /// exists); returns its id.
    pub fn commit_open(&mut self, kind: WinKind, geo: Win) -> (id: u64)
        requires
            desk_wf(old(self)@),
            geo_ok(geo),
            old(self)@.next_id < u64::MAX,
            old(self)@.cascade < i32::MAX,
        ensures
            desk_wf(final(self)@),
            id == old(self)@.next_id,
            final(self)@ == (DeskView {
                windows: old(self)@.windows.push(WinEntry { id, geo, kind }),
                next_id: (old(self)@.next_id + 1) as u64,
                cascade: (old(self)@.cascade + 1) as i32,
                ..old(self)@
            }),
    {
        let ghost d = self@;
        let id = self.next_id;
        self.cascade = self.cascade + 1;
        self.next_id = self.next_id + 1;
        self.windows.push(WinEntry { id, geo, kind });
        proof {
            let w = self@.windows;
            assert forall|i: int| 0 <= i < w.len() implies geo_ok(#[trigger] w[i].geo) by {
                if i < d.windows.len() {
                    assert(w[i] == d.windows[i]);
                }
            }
            assert forall|i: int| 0 <= i < w.len() implies 1 <= #[trigger] w[i].id < self@.next_id by {
                if i < d.windows.len() {
                    assert(w[i] == d.windows[i]);
                }
            }
            assert forall|i: int, j: int| 0 <= i < j < w.len() implies (#[trigger] w[i]).id != (#[trigger] w[j]).id by {
                assert(w[i] == d.windows[i]);
                if j < d.windows.len() {
                    assert(w[j] == d.windows[j]);
                }
            }
        }
        id
    }

    /// Focus the front window (none without windows).
    pub fn focus_front(&mut self)
        requires
            desk_wf(old(self)@),
        ensures
            desk_wf(final(self)@),
            final(self)@ == (DeskView {
                focused: if old(self)@.windows.len() > 0 { Some(old(self)@.windows.last().id) } else { None },
                ..old(self)@
            }),
    {
        let n = self.windows.len();
        self.focused = if n > 0 { Some(self.windows[n - 1].id) } else { None };
    }

    /// The window that keys go to: the focused one, when it is open.
    pub fn key_target(&self) -> (p: Option<usize>)
        ensures
            p == (match self@.focused {
                Some(id) => if win_index(self@.windows, id) >= 0 { Some(win_index(self@.windows, id) as usize) } else { None },
                None => None,
            }),
    {
        match self.focused {
            Some(id) => self.win_pos(id),
            None => None,
        }
    }

}

/// The first position from `i` on whose id is `x`.
pub open spec fn first_with_from(ids: Seq<u64>, x: u64, i: int) -> Option<int>
    decreases ids.len() - i,
{
    if i < 0 || i >= ids.len() {
        None
    } else if ids[i] == x {
        Some(i)
    } else {
        first_with_from(ids, x, i + 1)
    }
}

/// Where each window's contents sit among the program's items, for putting
/// them in stacking order: for each id of `order`, the first item whose id
/// it is, if any. Items no window names are the closed windows'.
pub fn follow_positions(item_ids: &[u64], order: &[u64]) -> (r: Vec<Option<usize>>)
    ensures
        r@.len() == order@.len(),
        forall|k: int| 0 <= k < order@.len() ==> match #[trigger] r@[k] {
            Some(i) => first_with_from(item_ids@, order@[k], 0) == Some(i as int),
            None => first_with_from(item_ids@, order@[k], 0) is None,
        },
{
    let mut r: Vec<Option<usize>> = Vec::new();
    let mut k: usize = 0;
    while k < order.len()
        invariant
            k <= order@.len(),
            r@.len() == k,
            forall|j: int| 0 <= j < k ==> match #[trigger] r@[j] {
                Some(i) => first_with_from(item_ids@, order@[j], 0) == Some(i as int),
                None => first_with_from(item_ids@, order@[j], 0) is None,
            },
        decreases order@.len() - k,
    {
        let x = order[k];
        let mut i: usize = 0;
        let mut found: Option<usize> = None;
        while i < item_ids.len()
            invariant
                i <= item_ids@.len(),
                match found {
                    Some(j) => first_with_from(item_ids@, x, 0) == Some(j as int),
                    None => first_with_from(item_ids@, x, i as int) == first_with_from(item_ids@, x, 0),
                },
            decreases item_ids@.len() - i,
        {
            if found.is_none() && item_ids[i] == x {
                found = Some(i);
            }
            i = i + 1;
        }
        proof {
            if found is None {
                assert(first_with_from(item_ids@, x, i as int) is None);
            }
        }
        r.push(found);
        k = k + 1;
    }
    r
}

} // verus!
