//! The desktop's window contents: the launcher, the profiler and the Task
//! Manager. Each keeps its own state and answers input; the statistics they
//! show are computed here from figures the program reads from the kernel.
use vstd::prelude::*;
use crate::programs::gui::geometry::{button_at, button_at_spec, prof_button, inside, PROF_BTN_W, PROF_BTN_H};
use crate::programs::gui::screen::{Screen, kept_outside_clip, FONT_BYTES};
use crate::programs::gui::draw::{canvas_ok, lemma_kept_refl, lemma_kept_trans, fill_k, text_k, text_permille, draw_graph, permille_ops, graph_ops};
use crate::programs::gui::ops::{DrawOp, render, lemma_render_push, lemma_render_concat};
use crate::programs::gui::screen::pack_spec;
use vstd::string::StringSliceAdditionalSpecFns;

verus! {

/// What a window's content asks of the desktop after an input event.
#[derive(Clone, Copy, PartialEq, Eq, Structural, Debug)]
pub enum InputAction {
    Idle,
    /// Open a window of this launcher kind (1: Task Manager, 2: Terminal,
    /// 3: Profiler).
    Open(u8),
    /// Quit the desktop.
    Quit,
}

// ── launcher ────────────────────────────────────────────────────────────────

/// The launcher: which button (1..=3, 0 none) is held down.
pub struct Launcher {
    pub pressed: u8,
}

impl Launcher {
    pub fn new() -> (l: Launcher)
        ensures
            l.pressed == 0,
    {
        Launcher { pressed: 0 }
    }

    /// A press highlights the button under the pointer (left button only);
    /// true when the highlight changed.
    pub fn on_mouse_down(&mut self, x: i32, y: i32, buttons: u8) -> (r: (bool, InputAction))
        ensures
            final(self).pressed == (if buttons & 1 != 0 { button_at_spec(x, y) } else { 0 }),
            r == (final(self).pressed != old(self).pressed, InputAction::Idle),
    {
        let p = if buttons & 1 != 0 { button_at(x, y) } else { 0 };
        let dirty = p != self.pressed;
        self.pressed = p;
        (dirty, InputAction::Idle)
    }

    /// The highlight follows the pointer while the button is held.
    pub fn on_mouse_move(&mut self, x: i32, y: i32, buttons: u8) -> (r: (bool, InputAction))
        ensures
            final(self).pressed == (if buttons & 1 != 0 { button_at_spec(x, y) } else { 0 }),
            r == (final(self).pressed != old(self).pressed, InputAction::Idle),
    {
        let p = if buttons & 1 != 0 { button_at(x, y) } else { 0 };
        let dirty = p != self.pressed;
        self.pressed = p;
        (dirty, InputAction::Idle)
    }

    /// A release over a button opens its window; the highlight is cleared.
    pub fn on_mouse_up(&mut self, x: i32, y: i32) -> (r: (bool, InputAction))
        ensures
            final(self).pressed == 0,
            r == (true, if button_at_spec(x, y) != 0 { InputAction::Open(button_at_spec(x, y)) } else { InputAction::Idle }),
    {
        let b = button_at(x, y);
        self.pressed = 0;
        let action = if b != 0 { InputAction::Open(b) } else { InputAction::Idle };
        (true, action)
    }
}

// ── load figures ────────────────────────────────────────────────────────────

/// `a * b`, saturating.
pub open spec fn sat_mul(a: u64, b: u64) -> u64 {
    if a * b > u64::MAX { u64::MAX } else { (a * b) as u64 }
}

pub fn saturating_mul(a: u64, b: u64) -> (r: u64)
    ensures
        r == sat_mul(a, b),
{
    if b != 0 && a > u64::MAX / b {
        assert(a * b > u64::MAX) by (nonlinear_arith)
            requires
                b != 0,
                a > u64::MAX / b,
        ;
        u64::MAX
    } else {
        assert(a * b <= u64::MAX) by (nonlinear_arith)
            requires
                b == 0 || a <= u64::MAX / b,
        ;
        a * b
    }
}

/// `a - b`, saturating at 0.
pub open spec fn sat_sub(a: u64, b: u64) -> u64 {
    if a >= b { (a - b) as u64 } else { 0 }
}

/// `a + b`, saturating.
pub open spec fn sat_add(a: u64, b: u64) -> u64 {
    if a + b > u64::MAX { u64::MAX } else { (a + b) as u64 }
}

/// The share (in permille, at most 1000) that `delta` is of `span`.
pub open spec fn load_permille(delta: u64, span: u64) -> u16 {
    let p = sat_mul(delta, 1000) / span;
    if p > 1000 { 1000 } else { p as u16 }
}

pub fn permille_of(delta: u64, span: u64) -> (r: u16)
    requires
        span >= 1,
    ensures
        r == load_permille(delta, span),
{
    let p = saturating_mul(delta, 1000) / span;
    if p > 1000 { 1000 } else { p as u16 }
}

// ── profiler ────────────────────────────────────────────────────────────────

/// Samples kept by the profiler.
pub const PROF_SAMPLES: usize = 30;

/// A scrolling CPU-load graph that can be paused.
pub struct Profiler {
    samples: [u16; PROF_SAMPLES],
    head: usize,
    count: usize,
    running: bool,
    primed: bool,
    prev_busy: u64,
    prev_total: u64,
    cur: u16,
}

pub struct ProfilerView {
    /// Load samples in permille, a ring written at `head`.
    pub samples: Seq<u16>,
    pub head: nat,
    pub count: nat,
    pub running: bool,
    /// A first sample was taken (loads are deltas from it).
    pub primed: bool,
    pub prev_busy: u64,
    pub prev_total: u64,
    /// The latest load.
    pub cur: u16,
}

impl View for Profiler {
    type V = ProfilerView;

    closed spec fn view(&self) -> ProfilerView {
        ProfilerView {
            samples: self.samples@,
            head: self.head as nat,
            count: self.count as nat,
            running: self.running,
            primed: self.primed,
            prev_busy: self.prev_busy,
            prev_total: self.prev_total,
            cur: self.cur,
        }
    }
}

/// The profiler after a sample of the system's `user`, `kernel` and `idle`
/// tick counters: the load since the previous sample goes into the ring
/// (except for the very first sample, which only sets the baseline).
pub open spec fn sampled(p: ProfilerView, user: u64, kernel: u64, idle: u64) -> ProfilerView {
    let busy = sat_add(user, kernel);
    let total = sat_add(busy, idle);
    let dbusy = sat_sub(busy, p.prev_busy);
    let dt = if sat_sub(total, p.prev_total) >= 1 { sat_sub(total, p.prev_total) } else { 1 };
    let base = ProfilerView { prev_busy: busy, prev_total: total, ..p };
    if !p.primed {
        ProfilerView { primed: true, ..base }
    } else {
        let load = load_permille(dbusy, dt);
        ProfilerView {
            cur: load,
            samples: p.samples.update(p.head as int, load),
            head: (p.head + 1) % (PROF_SAMPLES as nat),
            count: if p.count < PROF_SAMPLES { p.count + 1 } else { p.count },
            ..base
        }
    }
}

/// The Profiler window's operations (see `Profiler::draw`).
pub open spec fn profiler_ops(v: ProfilerView, w: int, h: int, fmt: u32, font: Seq<u8>) -> Seq<DrawOp> {
    let white = pack_spec(fmt, 0xe8, 0xe8, 0xe8);
    let bx = w - (PROF_BTN_W + 8);
    let face = if v.running { pack_spec(fmt, 0xC0, 0x50, 0x50) } else { pack_spec(fmt, 0x40, 0xA0, 0x50) };
    let label = if v.running { "Stop".spec_bytes() } else { "Start".spec_bytes() };
    let chars: int = if v.running { 4 } else { 5 };
    let head = seq![
        DrawOp::Fill { x: 0, y: 0, w, h, c: pack_spec(fmt, 0x20, 0x24, 0x2c) },
        DrawOp::Text { x: 8, y: 8, t: "CPU load".spec_bytes(), font, c: white },
    ] + permille_ops(88, 8, v.cur, white, font) + seq![
        DrawOp::Fill { x: bx, y: 6, w: PROF_BTN_W as int, h: PROF_BTN_H as int, c: pack_spec(fmt, 0, 0, 0) },
        DrawOp::Fill { x: bx + 1, y: 7, w: PROF_BTN_W - 2, h: PROF_BTN_H - 2, c: face },
        DrawOp::Text { x: bx + (PROF_BTN_W - chars * 8) / 2, y: 9, t: label, font, c: white },
    ];
    let bar = if v.running { pack_spec(fmt, 0x40, 0xC0, 0x80) } else { pack_spec(fmt, 0x70, 0x78, 0x84) };
    if w - 8 <= 8 || h - 8 <= 34 {
        head
    } else {
        head + graph_ops(8, 34, w - 16, h - 42, v.samples, v.head as int, v.count as int, PROF_SAMPLES as int, bar, fmt)
    }
}

impl Profiler {
    #[verifier::type_invariant]
    closed spec fn inv(&self) -> bool {
        self.head < PROF_SAMPLES && self.count <= PROF_SAMPLES
    }

    /// A running profiler with an all-zero (full) ring.
    pub fn new() -> (p: Profiler)
        ensures
            p@ == (ProfilerView {
                samples: Seq::new(PROF_SAMPLES as nat, |i: int| 0u16),
                head: 0,
                count: PROF_SAMPLES as nat,
                running: true,
                primed: false,
                prev_busy: 0,
                prev_total: 0,
                cur: 0,
            }),
    {
        let p = Profiler {
            samples: [0u16; PROF_SAMPLES],
            head: 0,
            count: PROF_SAMPLES,
            running: true,
            primed: false,
            prev_busy: 0,
            prev_total: 0,
            cur: 0,
        };
        assert(p@.samples =~= Seq::new(PROF_SAMPLES as nat, |i: int| 0u16));
        p
    }

    pub fn running(&self) -> (b: bool)
        ensures
            b == self@.running,
    {
        self.running
    }

    pub fn cur(&self) -> (c: u16)
        ensures
            c == self@.cur,
    {
        self.cur
    }

    /// The `i`-th sample (oldest first) of the last `count`.
    pub fn sample_at(&self, i: usize) -> (v: u16)
        requires
            i < self@.count,
        ensures
            v == self@.samples[(self@.head + PROF_SAMPLES - self@.count + i) % (PROF_SAMPLES as int)],
    {
        proof {
            use_type_invariant(self);
        }
        self.samples[(self.head + PROF_SAMPLES - self.count + i) % PROF_SAMPLES]
    }

    pub fn count(&self) -> (n: usize)
        ensures
            n == self@.count,
            n <= PROF_SAMPLES,
    {
        proof {
            use_type_invariant(self);
        }
        self.count
    }

    /// The Start/Stop button toggles sampling; resuming takes a new baseline.
    pub fn on_mouse_up(&mut self, x: i32, y: i32, bw: i32) -> (r: (bool, InputAction))
        ensures
            ({
                let hit = inside(x as int, y as int, bw - PROF_BTN_W - 8, 6, PROF_BTN_W as int, PROF_BTN_H as int);
                &&& r == (hit, InputAction::Idle)
                &&& hit ==> final(self)@ == (ProfilerView {
                    running: !old(self)@.running,
                    primed: if !old(self)@.running { false } else { old(self)@.primed },
                    ..old(self)@
                })
                &&& !hit ==> final(self)@ == old(self)@
            }),
    {
        proof {
            use_type_invariant(&*self);
        }
        if prof_button(x, y, bw) {
            self.running = !self.running;
            if self.running {
                self.primed = false;
            }
            return (true, InputAction::Idle);
        }
        (false, InputAction::Idle)
    }

    /// The Profiler's window: a dark background, the current load, the
    /// Start/Stop button (red while running) and the load graph below.
    pub fn draw(&self, s: &mut Screen, font: &[u8])
        requires
            canvas_ok(old(s)@),
            font@.len() >= FONT_BYTES,
        ensures
            canvas_ok(final(s)@),
            kept_outside_clip(old(s)@, final(s)@),
            final(s)@ == render(old(s)@, profiler_ops(self@, old(s)@.width as int, old(s)@.height as int, old(s)@.format, font@)),
    {
        proof {
            use_type_invariant(self);
        }
        let ghost a = s@;
        proof { lemma_kept_refl(a); }
        let bg = s.pack(0x20, 0x24, 0x2c);
        let white = s.pack(0xe8, 0xe8, 0xe8);
        let w = s.width() as i64;
        let h = s.height() as i64;
        let cpu = "CPU load".as_bytes();
        fill_k(s, 0, 0, w, h, bg, Ghost(a));
        let ghost o1 = DrawOp::Fill { x: 0, y: 0, w: w as int, h: h as int, c: bg };
        proof { lemma_render_push(a, Seq::empty(), o1); }
        text_k(s, 8, 8, cpu, white, font, Ghost(a));
        let ghost o2 = DrawOp::Text { x: 8, y: 8, t: cpu@, font: font@, c: white };
        proof { lemma_render_push(a, Seq::empty().push(o1), o2); }
        let ghost ops = Seq::empty().push(o1).push(o2);
        let ghost m = s@;
        text_permille(s, 8 + 10 * 8, 8, self.cur, white, font);
        proof {
            lemma_kept_trans(a, m, s@);
            lemma_render_concat(a, ops, permille_ops(88, 8, self.cur, white, font@));
        }
        let ghost ops = ops + permille_ops(88, 8, self.cur, white, font@);
        let bx = w - (PROF_BTN_W + 8) as i64;
        let by: i64 = 6;
        let border = s.pack(0x00, 0x00, 0x00);
        let face = if self.running { s.pack(0xC0, 0x50, 0x50) } else { s.pack(0x40, 0xA0, 0x50) };
        fill_k(s, bx, by, PROF_BTN_W as i64, PROF_BTN_H as i64, border, Ghost(a));
        let ghost o3 = DrawOp::Fill { x: bx as int, y: 6, w: PROF_BTN_W as int, h: PROF_BTN_H as int, c: border };
        proof { lemma_render_push(a, ops, o3); }
        fill_k(s, bx + 1, by + 1, (PROF_BTN_W - 2) as i64, (PROF_BTN_H - 2) as i64, face, Ghost(a));
        let ghost o4 = DrawOp::Fill { x: bx + 1, y: 7, w: PROF_BTN_W - 2, h: PROF_BTN_H - 2, c: face };
        proof { lemma_render_push(a, ops.push(o3), o4); }
        let (label, chars) = if self.running { ("Stop".as_bytes(), 4i64) } else { ("Start".as_bytes(), 5i64) };
        let lx = bx + (PROF_BTN_W as i64 - chars * 8) / 2;
        text_k(s, lx, by + ((PROF_BTN_H - 14) / 2) as i64, label, white, font, Ghost(a));
        let ghost o5 = DrawOp::Text { x: lx as int, y: 9, t: label@, font: font@, c: white };
        proof { lemma_render_push(a, ops.push(o3).push(o4), o5); }
        let ghost ops = ops.push(o3).push(o4).push(o5);
        let gx0: i64 = 8;
        let gy0: i64 = 34;
        let gx1 = w - 8;
        let gy1 = h - 8;
        if gx1 <= gx0 || gy1 <= gy0 {
            proof {
                assert(ops + Seq::<DrawOp>::empty() =~= ops);
                assert(ops + Seq::<DrawOp>::empty() =~= profiler_ops(self@, w as int, h as int, a.format, font@));
            }
            return;
        }
        let bar = if self.running { s.pack(0x40, 0xC0, 0x80) } else { s.pack(0x70, 0x78, 0x84) };
        let ghost m = s@;
        draw_graph(s, gx0 as i32, gy0 as i32, (gx1 - gx0) as i32, (gy1 - gy0) as i32, self.samples.as_slice(), self.head,
            self.count, PROF_SAMPLES, bar);
        proof {
            lemma_kept_trans(a, m, s@);
            let g = graph_ops(8, 34, gx1 - 8, gy1 - 34, self@.samples, self@.head as int, self@.count as int, PROF_SAMPLES as int,
                bar, a.format);
            lemma_render_concat(a, ops, g);
            assert(ops + g =~= profiler_ops(self@, w as int, h as int, a.format, font@));
        }
    }

    /// Take a sample of the system tick counters.
    pub fn sample(&mut self, user: u64, kernel: u64, idle: u64)
        ensures
            final(self)@ == sampled(old(self)@, user, kernel, idle),
    {
        proof {
            use_type_invariant(&*self);
        }
        let busy = user.saturating_add(kernel);
        let total = busy.saturating_add(idle);
        let dbusy = busy.saturating_sub(self.prev_busy);
        let d = total.saturating_sub(self.prev_total);
        let dt = if d >= 1 { d } else { 1 };
        self.prev_busy = busy;
        self.prev_total = total;
        if !self.primed {
            self.primed = true;
            return;
        }
        let load = permille_of(dbusy, dt);
        self.cur = load;
        let h = self.head;
        self.samples[h] = load;
        self.head = (h + 1) % PROF_SAMPLES;
        if self.count < PROF_SAMPLES {
            self.count = self.count + 1;
        }
    }
}

} // verus!
