//! The desktop terminal's text grid: a dumb terminal that the shell's output
//! is fed into, tracking which rows changed and how far the grid scrolled.
//! Spawning the shell and moving bytes over the pipes is the program's job.
use vstd::prelude::*;
use vstd::string::StringSliceAdditionalSpecFns;
use crate::programs::gui::screen::{Screen, ScreenView, kept_outside_clip, pack_spec, FONT_BYTES};
use crate::programs::gui::draw::{canvas_ok, lemma_kept_refl, fill_k, text_k, glyph_k};
use crate::programs::gui::ops::{DrawOp, render, lemma_render_push};

verus! {

/// Columns of the grid.
pub const TCOLS: usize = 64;
/// Rows of the grid.
pub const TROWS: usize = 18;
/// Space.
pub const BLANK: u8 = 0x20;

/// The terminal's state.
pub struct Term {
    grid: Vec<Vec<u8>>,
    cx: usize,
    cy: usize,
    /// Escape state: 0 normal, 1 after ESC, 2 inside a CSI sequence.
    esc: u8,
    /// First numeric CSI parameter.
    eparam: u32,
    spawned: bool,
    alive: bool,
    in_write: u64,
    out_read: u64,
    shell_pid: u64,
    /// Rows changed since the last draw (`dy0 >= dy1`: none).
    dy0: usize,
    dy1: usize,
    /// Row the cursor block was last drawn at.
    last_cur_y: usize,
    /// Lines scrolled since the last frame (at most `TROWS`).
    scrolled: usize,
}

pub struct TermView {
    pub grid: Seq<Seq<u8>>,
    pub cx: nat,
    pub cy: nat,
    pub esc: u8,
    pub eparam: u32,
    pub dy0: nat,
    pub dy1: nat,
    pub last_cur_y: nat,
    pub scrolled: nat,
    /// A shell was started for this terminal, and is still running.
    pub spawned: bool,
    pub alive: bool,
    /// The pipe end the terminal writes keys to, the one it reads output
    /// from, and the shell's pid.
    pub in_write: u64,
    pub out_read: u64,
    pub shell_pid: u64,
}

impl View for Term {
    type V = TermView;

    closed spec fn view(&self) -> TermView {
        TermView {
            grid: self.grid@.map_values(|r: Vec<u8>| r@),
            cx: self.cx as nat,
            cy: self.cy as nat,
            esc: self.esc,
            eparam: self.eparam,
            dy0: self.dy0 as nat,
            dy1: self.dy1 as nat,
            last_cur_y: self.last_cur_y as nat,
            scrolled: self.scrolled as nat,
            spawned: self.spawned,
            alive: self.alive,
            in_write: self.in_write,
            out_read: self.out_read,
            shell_pid: self.shell_pid,
        }
    }
}

/// A well-formed terminal: a `TROWS` by `TCOLS` grid, the cursor inside it
/// (the column may sit just past the last one), dirty marks within the grid.
pub open spec fn term_wf(t: TermView) -> bool {
    &&& t.grid.len() == TROWS
    &&& forall|r: int| 0 <= r < TROWS ==> #[trigger] t.grid[r].len() == TCOLS
    &&& t.cx <= TCOLS
    &&& t.cy < TROWS
    &&& t.dy1 <= TROWS
    &&& t.dy0 <= TROWS
    &&& t.last_cur_y < TROWS
    &&& t.scrolled <= TROWS
    &&& t.esc <= 2
}

/// The grid cell a canvas coordinate `v` (relative to the grid's origin)
/// falls in, for cells `step` pixels apart: 0 before the grid, at most `cap`.
pub open spec fn cell_spec(v: int, step: int, cap: int) -> int {
    let q = if v <= 0 { 0 } else { v / step };
    if q < cap { q } else { cap }
}

fn cell_index(v: i64, step: i64, cap: usize) -> (r: usize)
    requires
        step >= 1,
    ensures
        r <= cap,
        r == cell_spec(v as int, step as int, cap as int),
{
    let q: i64 = if v <= 0 { 0 } else { v / step };
    if (q as u64) < (cap as u64) { q as usize } else { cap }
}

/// The glyphs of row `r` in columns `c0..c` (blanks are skipped), 8 by 16
/// pixels a cell from `(5, 4)`.
pub open spec fn row_ops(grid: Seq<Seq<u8>>, r: int, c0: int, c: int, fg: u32, font: Seq<u8>) -> Seq<DrawOp>
    decreases c - c0,
{
    if c <= c0 {
        Seq::empty()
    } else {
        let prev = row_ops(grid, r, c0, c - 1, fg, font);
        let ch = grid[r][c - 1];
        if ch != BLANK { prev.push(DrawOp::Text { x: 5 + (c - 1) * 8, y: 4 + r * 16, t: seq![ch], font, c: fg }) } else { prev }
    }
}

/// Rows `r0..r` of the grid, columns `c0..c1` of each.
pub open spec fn rows_ops(grid: Seq<Seq<u8>>, r0: int, r: int, c0: int, c1: int, fg: u32, font: Seq<u8>) -> Seq<DrawOp>
    decreases r - r0,
{
    if r <= r0 { Seq::empty() } else { rows_ops(grid, r0, r - 1, c0, c1, fg, font) + row_ops(grid, r - 1, c0, c1, fg, font) }
}

/// What the terminal's window shows on `v`: the background, the glyphs of
/// the cells that meet the clip, then the cursor block while the shell
/// runs, or the exit note once it has stopped.
pub open spec fn term_ops(t: TermView, v: ScreenView, font: Seq<u8>) -> Seq<DrawOp> {
    let fmt = v.format;
    let c0 = cell_spec(v.clip.x0 - 5, 8, TCOLS as int);
    let c1 = cell_spec(v.clip.x1 - 5 + 7, 8, TCOLS as int);
    let r0 = cell_spec(v.clip.y0 - 4, 16, TROWS as int);
    let r1 = cell_spec(v.clip.y1 - 4 + 15, 16, TROWS as int);
    seq![DrawOp::Fill { x: 0, y: 0, w: v.width as int, h: v.height as int, c: pack_spec(fmt, 0x0a, 0x0a, 0x14) }]
        + rows_ops(t.grid, r0, r1, c0, c1, pack_spec(fmt, 0xD0, 0xD0, 0xD0), font) + (if t.alive {
        seq![DrawOp::Fill { x: 5 + t.cx as int * 8, y: 4 + t.cy as int * 16, w: 7, h: 14, c: pack_spec(fmt, 0x40, 0xC0, 0x40) }]
    } else if t.spawned {
        seq![DrawOp::Text { x: 5, y: 4 + TROWS * 16 - 16, t: "[shell exited]".spec_bytes(), font, c: pack_spec(fmt, 0x90, 0x90, 0x90) }]
    } else {
        Seq::empty()
    })
}

/// A blank grid.
pub open spec fn blank_grid() -> Seq<Seq<u8>> {
    Seq::new(TROWS as nat, |r: int| Seq::new(TCOLS as nat, |c: int| BLANK))
}

/// Row `r` marked changed.
pub open spec fn marked(t: TermView, r: nat) -> TermView {
    if r < TROWS {
        TermView { dy0: if r < t.dy0 { r } else { t.dy0 }, dy1: if r + 1 > t.dy1 { r + 1 } else { t.dy1 }, ..t }
    } else {
        t
    }
}

/// The terminal after a newline: back to column 0 and down a row, or, on the
/// last row, the grid scrolled up one row (pending marks move up with it, the
/// scroll count grows, and the bottom row is marked).
pub open spec fn newline_spec(t: TermView) -> TermView {
    if t.cy + 1 >= TROWS {
        let g = t.grid.subrange(1, TROWS as int).push(Seq::new(TCOLS as nat, |c: int| BLANK));
        let moved = if t.dy1 > t.dy0 {
            TermView {
                dy0: if t.dy0 >= 1 { (t.dy0 - 1) as nat } else { 0 },
                dy1: if t.dy1 >= 1 { (t.dy1 - 1) as nat } else { 0 },
                ..t
            }
        } else {
            t
        };
        marked(
            TermView {
                grid: g,
                cx: 0,
                scrolled: if t.scrolled + 1 < TROWS { t.scrolled + 1 } else { TROWS as nat },
                ..moved
            },
            (TROWS - 1) as nat,
        )
    } else {
        TermView { cx: 0, cy: t.cy + 1, ..t }
    }
}

/// The terminal after a CSI final byte (or parameter digit / separator).
pub open spec fn csi_spec(t: TermView, ch: u8) -> TermView {
    if 0x30 <= ch <= 0x39 {
        let m = if t.eparam * 10 > u32::MAX { u32::MAX as int } else { t.eparam * 10 };
        TermView { eparam: if m + (ch - 0x30) > u32::MAX { u32::MAX } else { (m + (ch - 0x30)) as u32 }, ..t }
    } else if ch == 0x3b {
        t
    } else {
        let n: int = if t.eparam == 0 { 1 } else { t.eparam as int };
        let done = if ch == 0x4a {
            if t.eparam == 2 {
                TermView { grid: blank_grid(), scrolled: 0, dy0: 0, dy1: TROWS as nat, ..t }
            } else {
                t
            }
        } else if ch == 0x48 {
            marked(TermView { cx: 0, cy: 0, ..marked(t, t.cy) }, 0)
        } else if ch == 0x4b {
            marked(
                TermView {
                    grid: t.grid.update(
                        t.cy as int,
                        Seq::new(TCOLS as nat, |c: int| if c >= t.cx { BLANK } else { t.grid[t.cy as int][c] }),
                    ),
                    ..t
                },
                t.cy,
            )
        } else if ch == 0x44 {
            marked(TermView { cx: if t.cx >= n { (t.cx - n) as nat } else { 0 }, ..t }, t.cy)
        } else if ch == 0x43 {
            marked(TermView { cx: if t.cx + n < TCOLS - 1 { (t.cx + n) as nat } else { (TCOLS - 1) as nat }, ..t }, t.cy)
        } else {
            t
        };
        TermView { esc: 0, ..done }
    }
}

/// The terminal after one byte of shell output.
pub open spec fn put_char_spec(t: TermView, ch: u8) -> TermView {
    if t.esc == 1 {
        if ch == 0x5b { TermView { esc: 2, eparam: 0, ..t } } else { TermView { esc: 0, ..t } }
    } else if t.esc == 2 {
        csi_spec(t, ch)
    } else if ch == 0x1b {
        TermView { esc: 1, ..t }
    } else if ch == 0x0a {
        newline_spec(t)
    } else if ch == 0x0d {
        marked(TermView { cx: 0, ..t }, t.cy)
    } else if ch == 0x08 {
        marked(TermView { cx: if t.cx > 0 { (t.cx - 1) as nat } else { 0 }, ..t }, t.cy)
    } else if ch == 0x09 {
        TermView { cx: if (t.cx / 4 + 1) * 4 < TCOLS - 1 { (t.cx / 4 + 1) * 4 } else { (TCOLS - 1) as nat }, ..t }
    } else if 0x20 <= ch <= 0x7e {
        let u = if t.cx >= TCOLS { newline_spec(t) } else { t };
        marked(
            TermView { grid: u.grid.update(u.cy as int, u.grid[u.cy as int].update(u.cx as int, ch)), cx: u.cx + 1, ..u },
            u.cy,
        )
    } else {
        t
    }
}


fn blank_row() -> (r: Vec<u8>)
    ensures
        r@ == Seq::new(TCOLS as nat, |c: int| BLANK),
{
    let mut r: Vec<u8> = Vec::new();
    let mut i: usize = 0;
    while i < TCOLS
        invariant
            i <= TCOLS,
            r@ == Seq::new(i as nat, |c: int| BLANK),
        decreases TCOLS - i,
    {
        r.push(BLANK);
        i = i + 1;
        assert(r@ =~= Seq::new(i as nat, |c: int| BLANK));
    }
    r
}

fn blank_rows() -> (g: Vec<Vec<u8>>)
    ensures
        g@.map_values(|r: Vec<u8>| r@) == blank_grid(),
{
    let mut g: Vec<Vec<u8>> = Vec::new();
    let mut i: usize = 0;
    while i < TROWS
        invariant
            i <= TROWS,
            g@.len() == i,
            forall|r: int| 0 <= r < i ==> #[trigger] g@[r]@ == Seq::new(TCOLS as nat, |c: int| BLANK),
        decreases TROWS - i,
    {
        g.push(blank_row());
        i = i + 1;
    }
    assert(g@.map_values(|r: Vec<u8>| r@) =~= blank_grid());
    g
}

impl Term {
    /// A blank terminal with no shell yet.
    pub fn new() -> (t: Term)
        ensures
            t@ == (TermView {
                grid: blank_grid(),
                cx: 0,
                cy: 0,
                esc: 0,
                eparam: 0,
                dy0: TROWS as nat,
                dy1: 0,
                last_cur_y: 0,
                scrolled: 0,
                spawned: false,
                alive: false,
                in_write: 0,
                out_read: 0,
                shell_pid: 0,
            }),
            term_wf(t@),
    {
        Term {
            grid: blank_rows(),
            cx: 0,
            cy: 0,
            esc: 0,
            eparam: 0,
            spawned: false,
            alive: false,
            in_write: 0,
            out_read: 0,
            shell_pid: 0,
            dy0: TROWS,
            dy1: 0,
            last_cur_y: 0,
            scrolled: 0,
        }
    }

    /// Clear the grid and all terminal state (before starting a shell).
    pub fn reset_screen(&mut self)
        ensures
            final(self)@ == (TermView {
                grid: blank_grid(),
                cx: 0,
                cy: 0,
                esc: 0,
                eparam: 0,
                dy0: TROWS as nat,
                dy1: 0,
                last_cur_y: 0,
                scrolled: 0,
                ..old(self)@
            }),
            term_wf(final(self)@),
    {
        self.grid = blank_rows();
        self.cx = 0;
        self.cy = 0;
        self.esc = 0;
        self.eparam = 0;
        self.dy0 = TROWS;
        self.dy1 = 0;
        self.last_cur_y = 0;
        self.scrolled = 0;
    }

    /// The character at row `r`, column `c`.
    pub fn cell(&self, r: usize, c: usize) -> (ch: u8)
        requires
            term_wf(self@),
            r < TROWS,
            c < TCOLS,
        ensures
            ch == self@.grid[r as int][c as int],
    {
        assert(self@.grid[r as int] == self.grid@[r as int]@);
        self.grid[r][c]
    }

    pub fn cursor(&self) -> (p: (usize, usize))
        ensures
            p == (self@.cx as usize, self@.cy as usize),
    {
        (self.cx, self.cy)
    }

    /// Mark row `r` changed.
    pub fn mark(&mut self, r: usize)
        ensures
            final(self)@ == marked(old(self)@, r as nat),
    {
        if r < TROWS {
            if r < self.dy0 {
                self.dy0 = r;
            }
            if r + 1 > self.dy1 {
                self.dy1 = r + 1;
            }
        }
    }

    /// Mark every row changed.
    pub fn mark_all(&mut self)
        ensures
            final(self)@ == (TermView { dy0: 0, dy1: TROWS as nat, ..old(self)@ }),
    {
        self.dy0 = 0;
        self.dy1 = TROWS;
    }

    fn newline(&mut self)
        requires
            term_wf(old(self)@),
        ensures
            final(self)@ == newline_spec(old(self)@),
            term_wf(final(self)@),
    {
        let ghost t = self@;
        self.cx = 0;
        if self.cy + 1 >= TROWS {
            let ghost g0 = self.grid@;
            self.grid.remove(0);
            self.grid.push(blank_row());
            proof {
                assert(self.grid@.map_values(|r: Vec<u8>| r@) =~= t.grid.subrange(1, TROWS as int).push(
                    Seq::new(TCOLS as nat, |c: int| BLANK),
                ));
            }
            if self.dy1 > self.dy0 {
                self.dy0 = if self.dy0 >= 1 { self.dy0 - 1 } else { 0 };
                self.dy1 = if self.dy1 >= 1 { self.dy1 - 1 } else { 0 };
            }
            self.scrolled = if self.scrolled + 1 < TROWS { self.scrolled + 1 } else { TROWS };
            self.mark(TROWS - 1);
        } else {
            self.cy = self.cy + 1;
        }
    }

    fn csi(&mut self, ch: u8)
        requires
            term_wf(old(self)@),
        ensures
            final(self)@ == csi_spec(old(self)@, ch),
            term_wf(final(self)@),
    {
        let ghost t = self@;
        if 0x30 <= ch && ch <= 0x39 {
            let m: u32 = if self.eparam > u32::MAX / 10 { u32::MAX } else { self.eparam * 10 };
            self.eparam = m.saturating_add((ch - 0x30) as u32);
            return;
        }
        if ch == 0x3b {
            return;
        }
        let n: usize = if self.eparam == 0 { 1 } else { self.eparam as usize };
        if ch == 0x4a {
            if self.eparam == 2 {
                self.grid = blank_rows();
                self.scrolled = 0;
                self.mark_all();
            }
        } else if ch == 0x48 {
            let cy = self.cy;
            self.mark(cy);
            self.cx = 0;
            self.cy = 0;
            self.mark(0);
        } else if ch == 0x4b {
            let cy = self.cy;
            let cx = self.cx;
            assert(self@.grid[cy as int] == self.grid@[cy as int]@);
            let mut c = cx;
            while c < TCOLS
                invariant
                    cx <= c <= TCOLS,
                    cy < TROWS,
                    term_wf(t),
                    cx == t.cx,
                    cy == t.cy,
                    self@ == (TermView { grid: self@.grid, ..t }),
                    self.grid@.len() == TROWS,
                    forall|r: int| 0 <= r < TROWS && r != cy ==> #[trigger] self.grid@[r]@ == t.grid[r],
                    self.grid@[cy as int]@ == Seq::new(TCOLS as nat, |k: int| if cx <= k < c { BLANK } else { t.grid[cy as int][k] }),
                decreases TCOLS - c,
            {
                self.grid[cy].set(c, BLANK);
                c = c + 1;
                assert(self.grid@[cy as int]@ =~= Seq::new(TCOLS as nat, |k: int| if cx <= k < c { BLANK } else { t.grid[cy as int][k] }));
            }
            proof {
                let row = Seq::new(TCOLS as nat, |k: int| if k >= t.cx { BLANK } else { t.grid[t.cy as int][k] });
                assert(self.grid@[cy as int]@ =~= row);
                assert(self.grid@.map_values(|r: Vec<u8>| r@) =~= t.grid.update(cy as int, row));
            }
            self.mark(cy);
        } else if ch == 0x44 {
            self.cx = if self.cx >= n { self.cx - n } else { 0 };
            let cy = self.cy;
            self.mark(cy);
        } else if ch == 0x43 {
            self.cx = if n < TCOLS - 1 && self.cx < TCOLS - 1 - n { self.cx + n } else { TCOLS - 1 };
            let cy = self.cy;
            self.mark(cy);
        }
        self.esc = 0;
    }

    /// Take one byte of the shell's output.
    pub fn put_char(&mut self, ch: u8)
        requires
            term_wf(old(self)@),
        ensures
            final(self)@ == put_char_spec(old(self)@, ch),
            term_wf(final(self)@),
    {
        if self.esc == 1 {
            if ch == 0x5b {
                self.eparam = 0;
                self.esc = 2;
            } else {
                self.esc = 0;
            }
            return;
        }
        if self.esc == 2 {
            self.csi(ch);
            return;
        }
        if ch == 0x1b {
            self.esc = 1;
        } else if ch == 0x0a {
            self.newline();
        } else if ch == 0x0d {
            self.cx = 0;
            let cy = self.cy;
            self.mark(cy);
        } else if ch == 0x08 {
            if self.cx > 0 {
                self.cx = self.cx - 1;
            }
            let cy = self.cy;
            self.mark(cy);
        } else if ch == 0x09 {
            let t = (self.cx / 4 + 1) * 4;
            self.cx = if t < TCOLS - 1 { t } else { TCOLS - 1 };
        } else if 0x20 <= ch && ch <= 0x7e {
            if self.cx >= TCOLS {
                self.newline();
            }
            let ghost u = self@;
            let cy = self.cy;
            let cx = self.cx;
            assert(u.grid[cy as int] == self.grid@[cy as int]@);
            self.grid[cy].set(cx, ch);
            proof {
                assert(self.grid@.map_values(|r: Vec<u8>| r@) =~= u.grid.update(cy as int, u.grid[cy as int].update(cx as int, ch)));
            }
            self.cx = cx + 1;
            self.mark(cy);
        }
    }

    /// Take a chunk of the shell's output.
    pub fn feed(&mut self, bytes: &[u8])
        requires
            term_wf(old(self)@),
        ensures
            term_wf(final(self)@),
            final(self)@ == bytes@.fold_left(old(self)@, |t: TermView, ch: u8| put_char_spec(t, ch)),
    {
        let mut i: usize = 0;
        while i < bytes.len()
            invariant
                i <= bytes@.len(),
                term_wf(self@),
                self@ == bytes@.subrange(0, i as int).fold_left(old(self)@, |t: TermView, ch: u8| put_char_spec(t, ch)),
            decreases bytes@.len() - i,
        {
            proof {
                assert(bytes@.subrange(0, i + 1).drop_last() =~= bytes@.subrange(0, i as int));
            }
            self.put_char(bytes[i]);
            i = i + 1;
        }
        assert(bytes@.subrange(0, bytes@.len() as int) =~= bytes@);
    }
}


/// The rows to repaint for the cursor's old and new rows together with the
/// changed rows, and the terminal after taking them; `None` when nothing
/// changed (the terminal is then left as it was).
pub open spec fn take_dirty_spec(t: TermView) -> (TermView, Option<(nat, nat)>) {
    let cur_lo = if t.cy < t.last_cur_y { t.cy } else { t.last_cur_y };
    let cur_hi = (if t.cy > t.last_cur_y { t.cy } else { t.last_cur_y }) + 1;
    if t.dy0 >= t.dy1 && t.cy == t.last_cur_y {
        (t, None)
    } else {
        let (y0, y1) = if t.dy0 >= t.dy1 {
            (cur_lo, cur_hi)
        } else {
            (if t.dy0 < cur_lo { t.dy0 } else { cur_lo }, if t.dy1 > cur_hi { t.dy1 } else { cur_hi })
        };
        (
            TermView { last_cur_y: t.cy, dy0: TROWS as nat, dy1: 0, ..t },
            Some((if y0 < TROWS { y0 } else { TROWS as nat }, if y1 < TROWS { y1 } else { TROWS as nat })),
        )
    }
}

/// This frame's scroll count and rows to repaint: when the grid scrolled, the
/// rows newly exposed at the bottom and the row the old cursor block moved to
/// are added.
pub open spec fn take_frame_spec(t: TermView) -> (TermView, (nat, Option<(nat, nat)>)) {
    let scrolled = t.scrolled;
    let (t2, dirty) = take_dirty_spec(TermView { scrolled: 0, ..t });
    if scrolled == 0 {
        (t2, (0, dirty))
    } else {
        let lo = if TROWS >= scrolled { (TROWS - scrolled) as nat } else { 0 };
        let ghost_row = if t.last_cur_y >= scrolled { (t.last_cur_y - scrolled) as nat } else { 0 };
        let r0 = if lo < ghost_row { lo } else { ghost_row };
        let merged = match dirty {
            Some((a, b)) => (if a < r0 { a } else { r0 }, if b > TROWS { b } else { TROWS as nat }),
            None => (r0, TROWS as nat),
        };
        (t2, (scrolled, Some(merged)))
    }
}

/// What a key pressed in the terminal window does.
#[derive(Clone, Copy, PartialEq, Eq, Structural, Debug)]
pub enum TermKey {
    /// Ctrl+C while the shell runs: interrupt its foreground command.
    Interrupt,
    /// Ctrl+C after the shell exited: quit the desktop.
    Quit,
    /// Send the byte to the shell's input.
    Forward,
    Ignore,
}

/// Keys the shell's line editor takes: printable ASCII, Enter, backspace and
/// the four arrows (0x80..=0x83).
pub open spec fn editable(b: u8) -> bool {
    (0x20 <= b <= 0x7e) || b == 0x0d || b == 0x0a || b == 0x08 || b == 0x7f || (0x80 <= b <= 0x83)
}

impl Term {
    pub fn take_dirty(&mut self) -> (r: Option<(usize, usize)>)
        requires
            term_wf(old(self)@),
        ensures
            final(self)@ == take_dirty_spec(old(self)@).0,
            match r {
                Some((a, b)) => take_dirty_spec(old(self)@).1 == Some((a as nat, b as nat)),
                None => take_dirty_spec(old(self)@).1 is None,
            },
            term_wf(final(self)@),
    {
        let cur_lo = if self.cy < self.last_cur_y { self.cy } else { self.last_cur_y };
        let cur_hi = (if self.cy > self.last_cur_y { self.cy } else { self.last_cur_y }) + 1;
        let (y0, y1) = if self.dy0 >= self.dy1 {
            if self.cy == self.last_cur_y {
                return None;
            }
            (cur_lo, cur_hi)
        } else {
            (if self.dy0 < cur_lo { self.dy0 } else { cur_lo }, if self.dy1 > cur_hi { self.dy1 } else { cur_hi })
        };
        self.last_cur_y = self.cy;
        self.dy0 = TROWS;
        self.dy1 = 0;
        Some((if y0 < TROWS { y0 } else { TROWS }, if y1 < TROWS { y1 } else { TROWS }))
    }

    pub fn take_frame(&mut self) -> (r: (usize, Option<(usize, usize)>))
        requires
            term_wf(old(self)@),
        ensures
            final(self)@ == take_frame_spec(old(self)@).0,
            r.0 == take_frame_spec(old(self)@).1.0,
            match r.1 {
                Some((a, b)) => take_frame_spec(old(self)@).1.1 == Some((a as nat, b as nat)),
                None => take_frame_spec(old(self)@).1.1 is None,
            },
            term_wf(final(self)@),
    {
        let scrolled = self.scrolled;
        self.scrolled = 0;
        let old_cur = self.last_cur_y;
        let dirty = self.take_dirty();
        if scrolled == 0 {
            return (0, dirty);
        }
        let lo = if TROWS >= scrolled { TROWS - scrolled } else { 0 };
        let ghost_row = if old_cur >= scrolled { old_cur - scrolled } else { 0 };
        let r0 = if lo < ghost_row { lo } else { ghost_row };
        let merged = match dirty {
            Some((a, b)) => (if a < r0 { a } else { r0 }, if b > TROWS { b } else { TROWS }),
            None => (r0, TROWS),
        };
        (scrolled, Some(merged))
    }

    /// Record the shell started for this terminal: its pipe ends and pid
    /// (0 or `u64::MAX`: it could not be started).
    pub fn started(&mut self, in_write: u64, out_read: u64, pid: u64)
        ensures
            final(self)@ == (TermView {
                spawned: true,
                alive: pid != 0 && pid != u64::MAX,
                in_write,
                out_read,
                shell_pid: pid,
                ..old(self)@
            }),
    {
        self.in_write = in_write;
        self.out_read = out_read;
        self.shell_pid = pid;
        self.spawned = true;
        self.alive = pid != 0 && pid != u64::MAX;
    }

    /// Record the shell was shut down.
    pub fn stopped(&mut self)
        ensures
            final(self)@ == (TermView { spawned: false, alive: false, ..old(self)@ }),
    {
        self.spawned = false;
        self.alive = false;
    }

    /// The shell's output ended: it is gone, and every row is repainted.
    pub fn output_closed(&mut self)
        ensures
            final(self)@ == (TermView { alive: false, dy0: 0, dy1: TROWS as nat, ..old(self)@ }),
    {
        self.alive = false;
        self.mark_all();
    }

    pub fn spawned(&self) -> (b: bool)
        ensures
            b == self@.spawned,
    {
        self.spawned
    }

    pub fn alive(&self) -> (b: bool)
        ensures
            b == self@.alive,
    {
        self.alive
    }

    pub fn in_write(&self) -> (fd: u64)
        ensures
            fd == self@.in_write,
    {
        self.in_write
    }

    pub fn out_read(&self) -> (fd: u64)
        ensures
            fd == self@.out_read,
    {
        self.out_read
    }

    pub fn shell_pid(&self) -> (pid: u64)
        ensures
            pid == self@.shell_pid,
    {
        self.shell_pid
    }

    /// What a key pressed in the terminal window does.
    /// The terminal's window: the grid's characters (only the cells that
    /// meet the clip are visited), the cursor block while the shell runs, or
    /// a note once it has exited.
    pub fn draw(&self, s: &mut Screen, font: &[u8])
        requires
            term_wf(self@),
            canvas_ok(old(s)@),
            font@.len() >= FONT_BYTES,
        ensures
            canvas_ok(final(s)@),
            kept_outside_clip(old(s)@, final(s)@),
            final(s)@ == render(old(s)@, term_ops(self@, old(s)@, font@)),
    {
        let ghost a = s@;
        proof { lemma_kept_refl(a); }
        let bg = s.pack(0x0a, 0x0a, 0x14);
        let fg = s.pack(0xD0, 0xD0, 0xD0);
        let cur = s.pack(0x40, 0xC0, 0x40);
        let w = s.width() as i64;
        let h = s.height() as i64;
        fill_k(s, 0, 0, w, h, bg, Ghost(a));
        let ghost op0 = DrawOp::Fill { x: 0, y: 0, w: a.width as int, h: a.height as int, c: bg };
        proof {
            lemma_render_push(a, Seq::empty(), op0);
            assert(Seq::<DrawOp>::empty().push(op0) =~= seq![op0]);
        }
        let x0: i64 = 5;
        let y0: i64 = 4;
        let clip = s.clip();
        let c_start = cell_index(clip.x0 as i64 - x0, 8, TCOLS);
        let c_end = cell_index(clip.x1 as i64 - x0 + 7, 8, TCOLS);
        let r_start = cell_index(clip.y0 as i64 - y0, 16, TROWS);
        let r_end = cell_index(clip.y1 as i64 - y0 + 15, 16, TROWS);
        let ghost g = self@.grid;
        let ghost (gc0, gc1, gr0) = (c_start as int, c_end as int, r_start as int);
        proof {
            assert(rows_ops(g, gr0, gr0, gc0, gc1, fg, font@) =~= Seq::<DrawOp>::empty());
            assert(seq![op0] + rows_ops(g, gr0, gr0, gc0, gc1, fg, font@) =~= seq![op0]);
        }
        let mut r = r_start;
        while r < r_end
            invariant
                term_wf(self@),
                g == self@.grid,
                x0 == 5 && y0 == 4,
                r_end <= TROWS,
                c_end <= TCOLS,
                c_start <= TCOLS,
                gc0 == c_start && gc1 == c_end && gr0 == r_start,
                r_start <= r,
                r <= r_end || r == r_start,
                kept_outside_clip(a, s@),
                canvas_ok(a),
                font@.len() >= FONT_BYTES,
                s@ == render(a, seq![op0] + rows_ops(g, gr0, r as int, gc0, gc1, fg, font@)),
            decreases r_end - r,
        {
            let ghost before = seq![op0] + rows_ops(g, gr0, r as int, gc0, gc1, fg, font@);
            proof {
                assert(row_ops(g, r as int, gc0, gc0, fg, font@) =~= Seq::<DrawOp>::empty());
                assert(before + row_ops(g, r as int, gc0, gc0, fg, font@) =~= before);
            }
            let mut c = c_start;
            while c < c_end
                invariant
                    term_wf(self@),
                    g == self@.grid,
                    x0 == 5 && y0 == 4,
                    r < r_end <= TROWS,
                    c_end <= TCOLS,
                    gc0 == c_start && gc1 == c_end,
                    c_start <= c,
                    c <= c_end || c == c_start,
                    kept_outside_clip(a, s@),
                    canvas_ok(a),
                    font@.len() >= FONT_BYTES,
                    s@ == render(a, before + row_ops(g, r as int, gc0, c as int, fg, font@)),
                decreases c_end - c,
            {
                assert(self@.grid[r as int].len() == TCOLS);
                let ch = self.grid[r][c];
                let ghost prev = before + row_ops(g, r as int, gc0, c as int, fg, font@);
                proof {
                    assert(ch == g[r as int][c as int]);
                }
                if ch != BLANK {
                    glyph_k(s, x0 + c as i64 * 8, y0 + r as i64 * 16, ch, fg, font, Ghost(a));
                    proof {
                        let op = DrawOp::Text { x: 5 + c * 8, y: 4 + r * 16, t: seq![ch], font: font@, c: fg };
                        lemma_render_push(a, prev, op);
                        assert(prev.push(op) =~= before + row_ops(g, r as int, gc0, c + 1, fg, font@));
                    }
                } else {
                    proof {
                        assert(prev =~= before + row_ops(g, r as int, gc0, c + 1, fg, font@));
                    }
                }
                c = c + 1;
            }
            proof {
                if c > c_end {
                    assert(row_ops(g, r as int, gc0, gc1, fg, font@) =~= Seq::<DrawOp>::empty());
                }
                assert(rows_ops(g, gr0, r + 1, gc0, gc1, fg, font@) == rows_ops(g, gr0, r as int, gc0, gc1, fg, font@)
                    + row_ops(g, r as int, gc0, gc1, fg, font@));
                assert(before + row_ops(g, r as int, gc0, gc1, fg, font@) =~= seq![op0] + rows_ops(g, gr0, r + 1, gc0, gc1, fg, font@));
            }
            r = r + 1;
        }
        let ghost body = seq![op0] + rows_ops(g, gr0, r_end as int, gc0, gc1, fg, font@);
        proof {
            if r > r_end {
                assert(rows_ops(g, gr0, r_end as int, gc0, gc1, fg, font@) =~= Seq::<DrawOp>::empty());
                assert(rows_ops(g, gr0, r as int, gc0, gc1, fg, font@) =~= Seq::<DrawOp>::empty());
            }
            assert(s@ == render(a, body));
        }
        if self.alive {
            fill_k(s, x0 + self.cx as i64 * 8, y0 + self.cy as i64 * 16, 7, 14, cur, Ghost(a));
            proof {
                let op = DrawOp::Fill { x: 5 + self@.cx as int * 8, y: 4 + self@.cy as int * 16, w: 7, h: 14, c: cur };
                lemma_render_push(a, body, op);
                assert(body.push(op) =~= term_ops(self@, a, font@));
            }
        } else if self.spawned {
            let grey = s.pack(0x90, 0x90, 0x90);
            let note = "[shell exited]".as_bytes();
            text_k(s, x0, y0 + (TROWS as i64) * 16 - 16, note, grey, font, Ghost(a));
            proof {
                let op = DrawOp::Text { x: 5, y: 4 + TROWS * 16 - 16, t: "[shell exited]".spec_bytes(), font: font@, c: grey };
                lemma_render_push(a, body, op);
                assert(body.push(op) =~= term_ops(self@, a, font@));
            }
        } else {
            proof {
                assert(body + Seq::<DrawOp>::empty() =~= body);
                assert(body =~= term_ops(self@, a, font@));
            }
        }
    }

    pub fn route_key(&self, b: u8) -> (k: TermKey)
        ensures
            k == (if b == 0x03 {
                if self@.alive { TermKey::Interrupt } else { TermKey::Quit }
            } else if editable(b) && self@.alive {
                TermKey::Forward
            } else {
                TermKey::Ignore
            }),
    {
        if b == 0x03 {
            return if self.alive { TermKey::Interrupt } else { TermKey::Quit };
        }
        let editable = (0x20 <= b && b <= 0x7e) || b == 0x0d || b == 0x0a || b == 0x08 || b == 0x7f || (0x80 <= b && b <= 0x83);
        if editable && self.alive { TermKey::Forward } else { TermKey::Ignore }
    }
}


/// A printable byte written at the cursor lands in the grid there, and the
/// cursor moves one column right.
pub proof fn law_char_lands_at_cursor(t: TermView, ch: u8)
    requires
        term_wf(t),
        t.esc == 0,
        t.cx < TCOLS,
        0x20 <= ch <= 0x7e,
    ensures
        put_char_spec(t, ch).grid[t.cy as int][t.cx as int] == ch,
        put_char_spec(t, ch).cx == t.cx + 1,
        put_char_spec(t, ch).cy == t.cy,
{
}

/// `ESC [ 2 J` clears the whole grid, whatever was on it.
pub proof fn law_clear_screen(t: TermView)
    requires
        term_wf(t),
        t.esc == 0,
    ensures
        put_char_spec(put_char_spec(put_char_spec(put_char_spec(t, 0x1b), 0x5b), 0x32), 0x4a).grid == blank_grid(),
        put_char_spec(put_char_spec(put_char_spec(put_char_spec(t, 0x1b), 0x5b), 0x32), 0x4a).esc == 0,
{
}

} // verus!
