//! The Task Manager's figures: a process table with each process's share of
//! the CPU since the previous refresh, and the Performance tab's rolling
//! history of system, per-core and memory load. The program reads the
//! kernel's counters into a `TaskSnapshot`; everything shown is computed here.
use vstd::prelude::*;
use crate::bytes::{nul_len, until_nul, push_all};
use crate::text::{fmt_dec, dec_digits};
use vstd::string::StringSliceAdditionalSpecFns;
use crate::programs::gui::screen::{Screen, ScreenView, kept_outside_clip, pack_spec, FONT_BYTES};
use crate::programs::gui::draw::{
    canvas_ok, CANVAS_MAX, lemma_kept_refl, lemma_kept_trans, fill_k, text_k, text_permille, draw_graph, draw_tabs, permille_ops,
    graph_ops, tabs_ops,
};
use crate::programs::gui::ops::{DrawOp, render, lemma_render_push, lemma_render_concat};
use crate::programs::gui::geometry::{taskmgr_tab, tab_at};
use crate::programs::gui::widgets::{InputAction, sat_mul, sat_sub, load_permille, permille_of, saturating_mul};

verus! {

/// Rows the process table holds.
pub const MAXT: usize = 48;
/// Samples kept by each history graph.
pub const PERF_SAMPLES: usize = 30;

/// One process as the kernel reports it.
pub struct ProcSample {
    pub pid: u64,
    pub parent: u64,
    pub cpu_ticks: u64,
    pub memory_bytes: u64,
    /// The image name, NUL-padded.
    pub image_name: Vec<u8>,
}

/// A CPU's (or the whole system's) tick counters.
#[derive(Clone, Copy)]
pub struct CpuTicks {
    pub user: u64,
    pub kernel: u64,
    pub idle: u64,
}

/// What one refresh reads from the kernel.
pub struct TaskSnapshot {
    /// System-wide user, kernel and idle ticks.
    pub totals: CpuTicks,
    /// The number of CPUs as reported (0 is taken as 1).
    pub ncpu: u64,
    /// The kernel's own entry (pid 0), when the kernel answered.
    pub kernel: Option<ProcSample>,
    /// The user processes, in the kernel's order.
    pub procs: Vec<ProcSample>,
    /// Memory word: total KiB in the high half, used KiB in the low half.
    pub mem: u64,
    /// Each core's counters.
    pub cores: Vec<CpuTicks>,
}

/// A row of the process table.
pub struct TaskRow {
    pub pid: u64,
    pub ppid: u64,
    /// Share of one CPU since the previous refresh, in permille.
    pub permille: u64,
    pub mem_kb: u64,
    pub name: Vec<u8>,
}

pub struct TaskRowView {
    pub pid: u64,
    pub ppid: u64,
    pub permille: u64,
    pub mem_kb: u64,
    pub name: Seq<u8>,
}

impl View for TaskRow {
    type V = TaskRowView;

    open spec fn view(&self) -> TaskRowView {
        TaskRowView {
            pid: self.pid,
            ppid: self.ppid,
            permille: self.permille,
            mem_kb: self.mem_kb,
            name: self.name@,
        }
    }
}

/// The Task Manager's state.
pub struct TaskMon {
    rows: Vec<TaskRow>,
    prev: Vec<(u64, u64)>,
    prev_total: u64,
    primed: bool,
    tab: u8,
    prev_busy: u64,
    cpu_hist: Vec<u16>,
    mem_hist: Vec<u16>,
    phead: usize,
    pcount: usize,
    cpu_cur: u16,
    mem_cur: u16,
    mem_used_kib: u64,
    mem_total_kib: u64,
    core_hist: Vec<Vec<u16>>,
    core_cur: Vec<u16>,
    core_prev_busy: Vec<u64>,
    core_prev_total: Vec<u64>,
}

pub struct TaskMonView {
    pub rows: Seq<TaskRowView>,
    /// (pid, cpu ticks) of each row at the previous refresh.
    pub prev: Seq<(u64, u64)>,
    pub prev_total: u64,
    /// A first refresh was taken (loads are deltas from it).
    pub primed: bool,
    /// 0: Processes, 1: Performance.
    pub tab: u8,
    pub prev_busy: u64,
    pub cpu_hist: Seq<u16>,
    pub mem_hist: Seq<u16>,
    pub phead: nat,
    pub pcount: nat,
    pub cpu_cur: u16,
    pub mem_cur: u16,
    pub mem_used_kib: u64,
    pub mem_total_kib: u64,
    pub core_hist: Seq<Seq<u16>>,
    pub core_cur: Seq<u16>,
    pub core_prev_busy: Seq<u64>,
    pub core_prev_total: Seq<u64>,
}

impl View for TaskMon {
    type V = TaskMonView;

    closed spec fn view(&self) -> TaskMonView {
        TaskMonView {
            rows: self.rows@.map_values(|r: TaskRow| r@),
            prev: self.prev@,
            prev_total: self.prev_total,
            primed: self.primed,
            tab: self.tab,
            prev_busy: self.prev_busy,
            cpu_hist: self.cpu_hist@,
            mem_hist: self.mem_hist@,
            phead: self.phead as nat,
            pcount: self.pcount as nat,
            cpu_cur: self.cpu_cur,
            mem_cur: self.mem_cur,
            mem_used_kib: self.mem_used_kib,
            mem_total_kib: self.mem_total_kib,
            core_hist: self.core_hist@.map_values(|h: Vec<u16>| h@),
            core_cur: self.core_cur@,
            core_prev_busy: self.core_prev_busy@,
            core_prev_total: self.core_prev_total@,
        }
    }
}

/// The shape every Task Manager keeps.
pub open spec fn taskmon_wf(m: TaskMonView) -> bool {
    &&& m.rows.len() <= MAXT
    &&& m.prev.len() <= MAXT
    &&& m.tab <= 1
    &&& m.cpu_hist.len() == PERF_SAMPLES
    &&& m.mem_hist.len() == PERF_SAMPLES
    &&& m.phead < PERF_SAMPLES
    &&& m.pcount <= PERF_SAMPLES
    &&& m.core_hist.len() == m.core_cur.len()
    &&& m.core_prev_busy.len() == m.core_cur.len()
    &&& m.core_prev_total.len() == m.core_cur.len()
    &&& forall|c: int| 0 <= c < m.core_hist.len() ==> (#[trigger] m.core_hist[c]).len() == PERF_SAMPLES
}

// ── what the window shows ───────────────────────────────────────────────────

/// The process table's header: a shaded strip and the column titles.
pub open spec fn proc_header_ops(w: int, fmt: u32, font: Seq<u8>) -> Seq<DrawOp> {
    let black = pack_spec(fmt, 0x00, 0x00, 0x00);
    seq![
        DrawOp::Fill { x: 0, y: 26, w, h: 16, c: pack_spec(fmt, 0xD0, 0xD8, 0xE0) },
        DrawOp::Text { x: 8, y: 28, t: "PID".spec_bytes(), font, c: black },
        DrawOp::Text { x: 56, y: 28, t: "PPID".spec_bytes(), font, c: black },
        DrawOp::Text { x: 112, y: 28, t: "%CPU".spec_bytes(), font, c: black },
        DrawOp::Text { x: 176, y: 28, t: "MEM(KB)".spec_bytes(), font, c: black },
        DrawOp::Text { x: 264, y: 28, t: "NAME".spec_bytes(), font, c: black },
    ]
}

/// One line of the process table at `y`: the shading (on alternate lines),
/// then pid, parent, `N.N` percent, KiB and name in their columns.
pub open spec fn proc_line_ops(r: TaskRowView, y: int, alt: bool, w: int, fmt: u32, font: Seq<u8>) -> Seq<DrawOp> {
    let black = pack_spec(fmt, 0x00, 0x00, 0x00);
    let ip = dec_digits((r.permille / 10) as nat);
    (if alt { seq![DrawOp::Fill { x: 0, y: y - 2, w, h: 16, c: pack_spec(fmt, 0xF4, 0xF4, 0xF4) }] } else { Seq::empty() }) + seq![
        DrawOp::Text { x: 8, y, t: dec_digits(r.pid as nat), font, c: black },
        DrawOp::Text { x: 56, y, t: dec_digits(r.ppid as nat), font, c: black },
        DrawOp::Text { x: 112, y, t: ip, font, c: black },
        DrawOp::Text { x: 112 + ip.len() as int * 8, y, t: ".".spec_bytes(), font, c: black },
        DrawOp::Text { x: 112 + (ip.len() as int + 1) * 8, y, t: dec_digits((r.permille % 10) as nat), font, c: black },
        DrawOp::Text { x: 176, y, t: dec_digits(r.mem_kb as nat), font, c: black },
        DrawOp::Text { x: 264, y, t: r.name, font, c: black },
    ]
}

/// Lines `0..n` of the table, 16 pixels apart from `y = 46`; a line that
/// would start at or below `bottom` is not drawn (nor any after it).
pub open spec fn proc_lines_ops(rows: Seq<TaskRowView>, n: int, w: int, bottom: int, fmt: u32, font: Seq<u8>) -> Seq<DrawOp>
    decreases n,
{
    if n <= 0 {
        Seq::empty()
    } else {
        let prev = proc_lines_ops(rows, n - 1, w, bottom, fmt, font);
        let y = 46 + 16 * (n - 1);
        if y < bottom { prev + proc_line_ops(rows[n - 1], y, (n - 1) % 2 == 1, w, fmt, font) } else { prev }
    }
}

/// The Processes tab on `v`.
pub open spec fn processes_ops(m: TaskMonView, v: ScreenView, font: Seq<u8>) -> Seq<DrawOp> {
    proc_header_ops(v.width as int, v.format, font) + proc_lines_ops(m.rows, m.rows.len() as int, v.width as int,
        v.height - 16, v.format, font)
}

/// The label (`CPU` and its number), load and graph of core `c`, in the
/// grid cell at `(cx, cy)`.
pub open spec fn core_cell_ops(m: TaskMonView, c: int, cx: int, cy: int, cell_w: int, chart_h: int, fmt: u32, font: Seq<u8>) -> Seq<DrawOp> {
    let black = pack_spec(fmt, 0x10, 0x10, 0x10);
    let num = dec_digits(c as nat);
    seq![DrawOp::Text { x: cx, y: cy, t: seq![0x43u8, 0x50u8, 0x55u8] + num, font, c: black }]
        + permille_ops(cx + (5 + num.len()) * 8, cy, m.core_cur[c], black, font)
        + graph_ops(cx, cy + 16, cell_w, chart_h, m.core_hist[c], m.phead as int, m.pcount as int, PERF_SAMPLES as int,
        pack_spec(fmt, 0x40, 0xC0, 0x80), fmt)
}

/// Cores `0..k`, `cols` to a row, in cells `cell_w` by `cell_h` with gaps
/// of 8 from `(8, y)`.
pub open spec fn core_cells_ops(m: TaskMonView, k: int, cols: int, y: int, cell_w: int, cell_h: int, fmt: u32, font: Seq<u8>) -> Seq<DrawOp>
    decreases k,
{
    if k <= 0 {
        Seq::empty()
    } else {
        let c = k - 1;
        core_cells_ops(m, k - 1, cols, y, cell_w, cell_h, fmt, font) + core_cell_ops(m, c, 8 + (c % cols) * (cell_w + 8), y + (c / cols)
            * (cell_h + 8), cell_w, cell_h - 16, fmt, font)
    }
}

/// The per-core grid from `y` down to `grid_bottom`, `gw` wide: one, two or
/// four columns and as many rows as the cores need, drawn only when there
/// are cores (at most 4096), the band is taller than 28 and each cell has
/// room for a graph.
pub open spec fn core_grid_ops(m: TaskMonView, y: int, gw: int, grid_bottom: int, fmt: u32, font: Seq<u8>) -> Seq<DrawOp> {
    let n = m.core_cur.len() as int;
    if n > 0 && n <= 4096 && grid_bottom > y + 28 {
        let cols: int = if n <= 1 { 1 } else if n <= 4 { 2 } else { 4 };
        let rows = (n + cols - 1) / cols;
        let span = gw - (cols - 1) * 8;
        let cell_w = if span > 0 { span / cols } else { 0 };
        let room = grid_bottom - y - (rows - 1) * 8;
        let cell_h = if room > 0 { room / rows } else { 0 };
        if cell_w > 8 && cell_h - 16 >= 8 { core_cells_ops(m, n, cols, y, cell_w, cell_h, fmt, font) } else { Seq::empty() }
    } else {
        Seq::empty()
    }
}

/// The memory line at `y`: the label, the load, then `used / total MB`.
pub open spec fn mem_line_ops(m: TaskMonView, y: int, fmt: u32, font: Seq<u8>) -> Seq<DrawOp> {
    let black = pack_spec(fmt, 0x10, 0x10, 0x10);
    let p = m.mem_cur;
    let x1: int = 72 + 8 * (dec_digits((p / 10) as nat).len() as int + dec_digits((p % 10) as nat).len() as int + 2) + 8;
    let used = dec_digits((m.mem_used_kib / 1024) as nat);
    let total = dec_digits((m.mem_total_kib / 1024) as nat);
    let nu: int = used.len() as int;
    let nt: int = total.len() as int;
    seq![DrawOp::Text { x: 8, y, t: "Memory".spec_bytes(), font, c: black }] + permille_ops(72, y, p, black, font) + seq![
        DrawOp::Text { x: x1, y, t: used, font, c: black },
        DrawOp::Text { x: x1 + nu * 8, y, t: "/".spec_bytes(), font, c: black },
        DrawOp::Text { x: x1 + nu * 8 + 8, y, t: total, font, c: black },
        DrawOp::Text { x: x1 + nu * 8 + 8 + nt * 8, y, t: " MB".spec_bytes(), font, c: black },
    ]
}

/// The Performance tab on `v`: the total CPU load and its graph, the core
/// grid, and the memory line and graph pinned to the bottom.
pub open spec fn performance_ops(m: TaskMonView, v: ScreenView, font: Seq<u8>) -> Seq<DrawOp> {
    let fmt = v.format;
    let w = v.width as int;
    let gw = if w - 16 >= 1 { w - 16 } else { 1 };
    let mem_label_y = v.height - 8 - 56 - 16;
    let black = pack_spec(fmt, 0x10, 0x10, 0x10);
    seq![DrawOp::Text { x: 8, y: 30, t: "CPU Total".spec_bytes(), font, c: black }] + permille_ops(88, 30, m.cpu_cur, black, font)
        + graph_ops(8, 46, gw, 64, m.cpu_hist, m.phead as int, m.pcount as int, PERF_SAMPLES as int, pack_spec(fmt, 0x40, 0xC0, 0x80),
        fmt) + core_grid_ops(m, 120, gw, mem_label_y - 8, fmt, font) + mem_line_ops(m, mem_label_y, fmt, font) + graph_ops(
        8,
        mem_label_y + 16,
        gw,
        56,
        m.mem_hist,
        m.phead as int,
        m.pcount as int,
        PERF_SAMPLES as int,
        pack_spec(fmt, 0x50, 0x90, 0xE0),
        fmt,
    )
}

/// The Task Manager's window on `v`: the body, the tab strip, then the
/// open tab.
pub open spec fn taskmon_ops(m: TaskMonView, v: ScreenView, font: Seq<u8>) -> Seq<DrawOp> {
    seq![DrawOp::Fill { x: 0, y: 0, w: v.width as int, h: v.height as int, c: pack_spec(v.format, 0xE8, 0xE8, 0xE8) }] + tabs_ops(
        v.width as int,
        v.format,
        m.tab,
        2,
        font,
    ) + (if m.tab == 0 { processes_ops(m, v, font) } else { performance_ops(m, v, font) })
}

/// Past the first line that does not fit, no line is drawn.
pub proof fn lemma_lines_stop(rows: Seq<TaskRowView>, i: int, n: int, w: int, bottom: int, fmt: u32, font: Seq<u8>)
    requires
        0 <= i <= n,
        46 + 16 * i >= bottom,
    ensures
        proc_lines_ops(rows, n, w, bottom, fmt, font) == proc_lines_ops(rows, i, w, bottom, fmt, font),
    decreases n - i,
{
    if n > i {
        lemma_lines_stop(rows, i, n - 1, w, bottom, fmt, font);
    }
}

// ── the figures ─────────────────────────────────────────────────────────────

pub open spec fn wadd(a: u64, b: u64) -> u64 {
    vstd::wrapping::u64_specs::wrapping_add(a, b)
}

/// Busy ticks: user plus kernel (wrapping, as the counters do).
pub open spec fn busy_of(t: CpuTicks) -> u64 {
    wadd(t.user, t.kernel)
}

/// All ticks: busy plus idle.
pub open spec fn total_of(t: CpuTicks) -> u64 {
    wadd(busy_of(t), t.idle)
}

/// Ticks elapsed since `prev`, at least 1.
pub open spec fn span(total: u64, prev: u64) -> u64 {
    if sat_sub(total, prev) >= 1 { sat_sub(total, prev) } else { 1 }
}

/// 100% is one fully used core, so a row's scale is 1000 per CPU.
pub open spec fn scale_of(ncpu: u64) -> u64 {
    vstd::wrapping::u64_specs::wrapping_mul(1000, if ncpu >= 1 { ncpu } else { 1 })
}

/// Ticks recorded for `pid` at the previous refresh (0 when it was not seen).
pub open spec fn prev_ticks(prev: Seq<(u64, u64)>, pid: u64) -> u64
    decreases prev.len(),
{
    if prev.len() == 0 {
        0
    } else if prev[0].0 == pid {
        prev[0].1
    } else {
        prev_ticks(prev.drop_first(), pid)
    }
}

/// A row's load: nothing before the first baseline.
pub open spec fn row_permille(primed: bool, ticks: u64, before: u64, scale: u64, dt: u64) -> u64 {
    if primed { sat_mul(sat_sub(ticks, before), scale) / dt } else { 0 }
}

/// The bytes of "kernel".
pub open spec fn kernel_name() -> Seq<u8> {
    seq![0x6bu8, 0x65, 0x72, 0x6e, 0x65, 0x6c]
}

pub open spec fn kernel_row(k: ProcSample, m: TaskMonView, scale: u64, dt: u64) -> TaskRowView {
    TaskRowView {
        pid: 0,
        ppid: 0,
        permille: row_permille(m.primed, k.cpu_ticks, prev_ticks(m.prev, 0), scale, dt),
        mem_kb: k.memory_bytes / 1024,
        name: kernel_name(),
    }
}

pub open spec fn user_row(s: ProcSample, m: TaskMonView, scale: u64, dt: u64) -> TaskRowView {
    TaskRowView {
        pid: s.pid,
        ppid: s.parent,
        permille: row_permille(m.primed, s.cpu_ticks, prev_ticks(m.prev, s.pid), scale, dt),
        mem_kb: s.memory_bytes / 1024,
        name: s.image_name@.take(nul_len(s.image_name@) as int),
    }
}

/// 1 when the snapshot has the kernel's entry.
pub open spec fn kernel_count(snap: TaskSnapshot) -> nat {
    if snap.kernel is Some { 1 } else { 0 }
}

/// How many user processes make it into the table.
pub open spec fn user_count(snap: TaskSnapshot) -> nat {
    let room = (MAXT - kernel_count(snap)) as nat;
    if snap.procs@.len() <= room { snap.procs@.len() } else { room }
}

/// The table after a refresh: the kernel first, then the user processes in
/// the kernel's order, as many as fit.
pub open spec fn refreshed_rows(m: TaskMonView, snap: TaskSnapshot) -> Seq<TaskRowView> {
    let dt = span(total_of(snap.totals), m.prev_total);
    let scale = scale_of(snap.ncpu);
    let users = Seq::new(user_count(snap), |i: int| user_row(snap.procs@[i], m, scale, dt));
    match snap.kernel {
        Some(k) => seq![kernel_row(k, m, scale, dt)] + users,
        None => users,
    }
}

/// The baseline kept for the next refresh: each row's pid and ticks.
pub open spec fn refreshed_prev(snap: TaskSnapshot) -> Seq<(u64, u64)> {
    let users = Seq::new(user_count(snap), |i: int| (snap.procs@[i].pid, snap.procs@[i].cpu_ticks));
    match snap.kernel {
        Some(k) => seq![(0u64, k.cpu_ticks)] + users,
        None => users,
    }
}

pub open spec fn mem_total_of(mem: u64) -> u64 {
    mem / 0x1_0000_0000
}

pub open spec fn mem_used_of(mem: u64) -> u64 {
    mem % 0x1_0000_0000
}

pub open spec fn mem_permille(mem: u64) -> u16 {
    if mem_total_of(mem) > 0 { load_permille(mem_used_of(mem), mem_total_of(mem)) } else { 0 }
}

/// The per-core buffers a refresh starts from: the current ones, or fresh
/// zeroed ones when the core count changed.
pub open spec fn core_base(m: TaskMonView, ncores: nat) -> TaskMonView {
    if m.core_cur.len() == ncores {
        m
    } else {
        TaskMonView {
            core_hist: Seq::new(ncores, |c: int| Seq::new(PERF_SAMPLES as nat, |j: int| 0u16)),
            core_cur: Seq::new(ncores, |c: int| 0u16),
            core_prev_busy: Seq::new(ncores, |c: int| 0u64),
            core_prev_total: Seq::new(ncores, |c: int| 0u64),
            ..m
        }
    }
}

pub open spec fn core_load(b: TaskMonView, t: CpuTicks, c: int) -> u16 {
    if b.primed {
        load_permille(sat_sub(busy_of(t), b.core_prev_busy[c]), span(total_of(t), b.core_prev_total[c]))
    } else {
        0
    }
}

/// The per-core buffers after a refresh from `cores`: each core's load
/// since the previous refresh, and (once primed) that load written into its
/// history ring at the shared head.
pub open spec fn cores_refreshed(m: TaskMonView, cores: Seq<CpuTicks>) -> TaskMonView {
    let b = core_base(m, cores.len());
    let cur = Seq::new(cores.len(), |c: int| core_load(b, cores[c], c));
    TaskMonView {
        core_hist: if m.primed {
            Seq::new(cores.len(), |c: int| b.core_hist[c].update(m.phead as int, cur[c]))
        } else {
            b.core_hist
        },
        core_cur: cur,
        core_prev_busy: Seq::new(cores.len(), |c: int| busy_of(cores[c])),
        core_prev_total: Seq::new(cores.len(), |c: int| total_of(cores[c])),
        ..m
    }
}

/// The Task Manager after a refresh from `snap`.
pub open spec fn refreshed(m: TaskMonView, snap: TaskSnapshot) -> TaskMonView {
    let busy = busy_of(snap.totals);
    let total = total_of(snap.totals);
    let dt = span(total, m.prev_total);
    let cpu = if m.primed { load_permille(sat_sub(busy, m.prev_busy), dt) } else { 0 };
    let memp = mem_permille(snap.mem);
    let k = cores_refreshed(m, snap.cores@);
    TaskMonView {
        rows: refreshed_rows(m, snap),
        prev: refreshed_prev(snap),
        prev_total: total,
        primed: true,
        tab: m.tab,
        prev_busy: busy,
        cpu_hist: if m.primed { m.cpu_hist.update(m.phead as int, cpu) } else { m.cpu_hist },
        mem_hist: if m.primed { m.mem_hist.update(m.phead as int, memp) } else { m.mem_hist },
        phead: if m.primed { (m.phead + 1) % (PERF_SAMPLES as nat) } else { m.phead },
        pcount: if m.primed && m.pcount < PERF_SAMPLES { m.pcount + 1 } else { m.pcount },
        cpu_cur: cpu,
        mem_cur: memp,
        mem_used_kib: mem_used_of(snap.mem),
        mem_total_kib: mem_total_of(snap.mem),
        core_hist: k.core_hist,
        core_cur: k.core_cur,
        core_prev_busy: k.core_prev_busy,
        core_prev_total: k.core_prev_total,
    }
}

/// What a snapshot must hold: one entry per reported CPU.
pub open spec fn snapshot_ok(snap: TaskSnapshot) -> bool {
    snap.cores@.len() == (if snap.ncpu >= 1 { snap.ncpu as nat } else { 1 })
}

/// A refresh without a baseline only records one: every row, the system
/// load and each core read 0%, and the history rings are left as they were.
pub proof fn law_baseline_reports_no_load(m: TaskMonView, snap: TaskSnapshot)
    requires
        !m.primed,
    ensures
        forall|i: int| 0 <= i < refreshed(m, snap).rows.len() ==> (#[trigger] refreshed(m, snap).rows[i]).permille == 0,
        refreshed(m, snap).cpu_cur == 0,
        forall|c: int| 0 <= c < refreshed(m, snap).core_cur.len() ==> (#[trigger] refreshed(m, snap).core_cur[c]) == 0,
        refreshed(m, snap).cpu_hist == m.cpu_hist,
        refreshed(m, snap).mem_hist == m.mem_hist,
        refreshed(m, snap).phead == m.phead,
        refreshed(m, snap).pcount == m.pcount,
        refreshed(m, snap).primed,
{
    let r = refreshed(m, snap);
    assert forall|i: int| 0 <= i < r.rows.len() implies (#[trigger] r.rows[i]).permille == 0 by {
        match snap.kernel {
            Some(k) => {
                if i > 0 {
                    assert(r.rows[i] == user_row(snap.procs@[i - 1], m, scale_of(snap.ncpu), span(total_of(snap.totals), m.prev_total)));
                }
            },
            None => {},
        }
    }
}

fn wrapping_add_u64(a: u64, b: u64) -> (r: u64)
    ensures
        r == wadd(a, b),
{
    a.wrapping_add(b)
}

fn busy(t: CpuTicks) -> (r: u64)
    ensures
        r == busy_of(t),
{
    wrapping_add_u64(t.user, t.kernel)
}

fn total(t: CpuTicks) -> (r: u64)
    ensures
        r == total_of(t),
{
    wrapping_add_u64(busy(t), t.idle)
}

fn span_of(total: u64, prev: u64) -> (r: u64)
    ensures
        r == span(total, prev),
        r >= 1,
{
    let d = total.saturating_sub(prev);
    if d >= 1 { d } else { 1 }
}

fn zeros16(n: usize) -> (v: Vec<u16>)
    ensures
        v@ == Seq::new(n as nat, |j: int| 0u16),
{
    let mut v: Vec<u16> = Vec::new();
    let mut j: usize = 0;
    while j < n
        invariant
            j <= n,
            v@ == Seq::new(j as nat, |k: int| 0u16),
        decreases n - j,
    {
        v.push(0);
        j = j + 1;
        assert(v@ =~= Seq::new(j as nat, |k: int| 0u16));
    }
    v
}

fn zeros64(n: usize) -> (v: Vec<u64>)
    ensures
        v@ == Seq::new(n as nat, |j: int| 0u64),
{
    let mut v: Vec<u64> = Vec::new();
    let mut j: usize = 0;
    while j < n
        invariant
            j <= n,
            v@ == Seq::new(j as nat, |k: int| 0u64),
        decreases n - j,
    {
        v.push(0);
        j = j + 1;
        assert(v@ =~= Seq::new(j as nat, |k: int| 0u64));
    }
    v
}

fn kernel_name_vec() -> (v: Vec<u8>)
    ensures
        v@ == kernel_name(),
{
    let v: Vec<u8> = vec![0x6b, 0x65, 0x72, 0x6e, 0x65, 0x6c];
    assert(v@ =~= kernel_name());
    v
}

impl TaskMon {
    /// An empty table on the Processes tab, with full zeroed history rings.
    pub fn new() -> (m: TaskMon)
        ensures
            taskmon_wf(m@),
            m@.rows.len() == 0,
            m@.prev.len() == 0,
            !m@.primed,
            m@.tab == 0,
            m@.prev_total == 0,
            m@.prev_busy == 0,
            m@.cpu_hist == Seq::new(PERF_SAMPLES as nat, |j: int| 0u16),
            m@.mem_hist == Seq::new(PERF_SAMPLES as nat, |j: int| 0u16),
            m@.phead == 0,
            m@.pcount == PERF_SAMPLES,
            m@.core_cur.len() == 0,
    {
        let cpu_hist = zeros16(PERF_SAMPLES);
        let mem_hist = zeros16(PERF_SAMPLES);
        let m = TaskMon {
            rows: Vec::new(),
            prev: Vec::new(),
            prev_total: 0,
            primed: false,
            tab: 0,
            prev_busy: 0,
            cpu_hist,
            mem_hist,
            phead: 0,
            pcount: PERF_SAMPLES,
            cpu_cur: 0,
            mem_cur: 0,
            mem_used_kib: 0,
            mem_total_kib: 0,
            core_hist: Vec::new(),
            core_cur: Vec::new(),
            core_prev_busy: Vec::new(),
            core_prev_total: Vec::new(),
        };
        assert(m@.rows =~= Seq::<TaskRowView>::empty());
        assert(m@.core_hist =~= Seq::<Seq<u16>>::empty());
        m
    }

    /// Ticks recorded for `pid` at the previous refresh.
    pub fn prev_lookup(&self, pid: u64) -> (t: u64)
        ensures
            t == prev_ticks(self@.prev, pid),
    {
        let ghost p = self.prev@;
        assert(p.subrange(0, p.len() as int) =~= p);
        let mut i: usize = 0;
        while i < self.prev.len()
            invariant
                p == self.prev@,
                i <= p.len(),
                prev_ticks(p.subrange(i as int, p.len() as int), pid) == prev_ticks(p, pid),
            decreases p.len() - i,
        {
            let ghost rest = p.subrange(i as int, p.len() as int);
            assert(rest.drop_first() =~= p.subrange(i + 1, p.len() as int));
            assert(rest[0] == p[i as int]);
            if self.prev[i].0 == pid {
                return self.prev[i].1;
            }
            i = i + 1;
        }
        assert(p.subrange(i as int, p.len() as int) =~= Seq::<(u64, u64)>::empty());
        0
    }

    /// The table and its baseline for `snap`.
    fn build_rows(&self, snap: &TaskSnapshot, scale: u64, dt: u64) -> (r: (Vec<TaskRow>, Vec<(u64, u64)>))
        requires
            scale == scale_of(snap.ncpu),
            dt == span(total_of(snap.totals), self@.prev_total),
        ensures
            r.0@.map_values(|x: TaskRow| x@) == refreshed_rows(self@, *snap),
            r.1@ == refreshed_prev(*snap),
    {
        let ghost m = self@;
        let mut rows: Vec<TaskRow> = Vec::new();
        let mut prev: Vec<(u64, u64)> = Vec::new();
        let primed = self.primed;
        let ghost users_of = |k: nat| Seq::new(k, |i: int| user_row(snap.procs@[i], m, scale, dt));
        let ghost pairs_of = |k: nat| Seq::new(k, |i: int| (snap.procs@[i].pid, snap.procs@[i].cpu_ticks));
        let ghost head: Seq<TaskRowView> = Seq::empty();
        let ghost head_prev: Seq<(u64, u64)> = Seq::empty();
        match &snap.kernel {
            Some(k) => {
                let before = self.prev_lookup(0);
                let permille = if primed {
                    saturating_mul(k.cpu_ticks.saturating_sub(before), scale) / dt
                } else {
                    0
                };
                rows.push(TaskRow { pid: 0, ppid: 0, permille, mem_kb: k.memory_bytes / 1024, name: kernel_name_vec() });
                prev.push((0, k.cpu_ticks));
                proof {
                    head = seq![kernel_row(*k, m, scale, dt)];
                    head_prev = seq![(0u64, k.cpu_ticks)];
                }
            },
            None => {},
        }
        assert(rows@.map_values(|x: TaskRow| x@) =~= head);
        let room = MAXT - rows.len();
        let n = if snap.procs.len() <= room { snap.procs.len() } else { room };
        assert(n == user_count(*snap));
        let mut i: usize = 0;
        while i < n
            invariant
                m == self@,
                primed == m.primed,
                scale == scale_of(snap.ncpu),
                dt == span(total_of(snap.totals), m.prev_total),
                n == user_count(*snap),
                n <= snap.procs@.len(),
                i <= n,
                users_of == (|k: nat| Seq::new(k, |j: int| user_row(snap.procs@[j], m, scale, dt))),
                pairs_of == (|k: nat| Seq::new(k, |j: int| (snap.procs@[j].pid, snap.procs@[j].cpu_ticks))),
                rows@.map_values(|x: TaskRow| x@) == head + users_of(i as nat),
                prev@ == head_prev + pairs_of(i as nat),
            decreases n - i,
        {
            let s = &snap.procs[i];
            let before = self.prev_lookup(s.pid);
            let permille = if primed {
                saturating_mul(s.cpu_ticks.saturating_sub(before), scale) / dt
            } else {
                0
            };
            let img = s.image_name.as_slice();
            let nl = until_nul(img);
            let mut name: Vec<u8> = Vec::new();
            push_all(&mut name, &img[0..nl]);
            assert(name@ =~= s.image_name@.take(nul_len(s.image_name@) as int));
            let row = TaskRow { pid: s.pid, ppid: s.parent, permille, mem_kb: s.memory_bytes / 1024, name };
            assert(row@.permille == row_permille(primed, s.cpu_ticks, before, scale, dt));
            assert(row@ == user_row(snap.procs@[i as int], m, scale, dt));
            let ghost old_rows = rows@;
            rows.push(row);
            assert(rows@.map_values(|x: TaskRow| x@) =~= old_rows.map_values(|x: TaskRow| x@).push(row@));
            prev.push((s.pid, s.cpu_ticks));
            i = i + 1;
            assert(rows@.map_values(|x: TaskRow| x@) =~= head + users_of(i as nat));
            assert(prev@ =~= head_prev + pairs_of(i as nat));
        }
        proof {
            match &snap.kernel {
                Some(k) => {
                    assert(refreshed_rows(m, *snap) =~= head + users_of(n as nat));
                    assert(refreshed_prev(*snap) =~= head_prev + pairs_of(n as nat));
                },
                None => {
                    assert(refreshed_rows(m, *snap) =~= head + users_of(n as nat));
                    assert(refreshed_prev(*snap) =~= head_prev + pairs_of(n as nat));
                },
            }
        }
        (rows, prev)
    }

    /// Bring the per-core buffers up to date with `cores`.
    fn refresh_cores(&mut self, cores: &Vec<CpuTicks>)
        requires
            taskmon_wf(old(self)@),
        ensures
            taskmon_wf(final(self)@),
            final(self)@ == cores_refreshed(old(self)@, cores@),
    {
        let ghost m = self@;
        let n = cores.len();
        if self.core_cur.len() != n {
            let mut hist: Vec<Vec<u16>> = Vec::new();
            let mut c: usize = 0;
            while c < n
                invariant
                    c <= n,
                    hist@.map_values(|h: Vec<u16>| h@) == Seq::new(c as nat, |k: int| Seq::new(PERF_SAMPLES as nat, |j: int| 0u16)),
                decreases n - c,
            {
                let row = zeros16(PERF_SAMPLES);
                let ghost before = hist@;
                hist.push(row);
                assert(hist@.map_values(|h: Vec<u16>| h@) =~= before.map_values(|h: Vec<u16>| h@).push(Seq::new(PERF_SAMPLES as nat, |j: int| 0u16)));
                c = c + 1;
                assert(hist@.map_values(|h: Vec<u16>| h@) =~= Seq::new(c as nat, |k: int| Seq::new(PERF_SAMPLES as nat, |j: int| 0u16)));
            }
            self.core_hist = hist;
            self.core_cur = zeros16(n);
            self.core_prev_busy = zeros64(n);
            self.core_prev_total = zeros64(n);
        }
        let ghost b = self@;
        assert(b == core_base(m, n as nat));
        let primed = self.primed;
        let phead = self.phead;
        let ghost cur = Seq::new(n as nat, |c: int| core_load(b, cores@[c], c));
        let mut c: usize = 0;
        while c < n
            invariant
                n == cores@.len(),
                c <= n,
                primed == m.primed,
                phead == m.phead,
                b == core_base(m, n as nat),
                taskmon_wf(b),
                b.core_cur.len() == n,
                cur == Seq::new(n as nat, |k: int| core_load(b, cores@[k], k)),
                self@ == (TaskMonView {
                    core_hist: self@.core_hist,
                    core_cur: self@.core_cur,
                    core_prev_busy: self@.core_prev_busy,
                    core_prev_total: self@.core_prev_total,
                    ..b
                }),
                self@.core_hist.len() == n,
                self@.core_cur.len() == n,
                self@.core_prev_busy.len() == n,
                self@.core_prev_total.len() == n,
                forall|j: int| 0 <= j < c ==> self@.core_cur[j] == cur[j],
                forall|j: int| 0 <= j < c ==> self@.core_prev_busy[j] == busy_of(cores@[j]),
                forall|j: int| 0 <= j < c ==> self@.core_prev_total[j] == total_of(cores@[j]),
                forall|j: int| 0 <= j < c ==> self@.core_hist[j] == (if primed {
                    b.core_hist[j].update(phead as int, cur[j])
                } else {
                    b.core_hist[j]
                }),
                forall|j: int| c <= j < n ==> self@.core_prev_busy[j] == b.core_prev_busy[j],
                forall|j: int| c <= j < n ==> self@.core_prev_total[j] == b.core_prev_total[j],
                forall|j: int| c <= j < n ==> self@.core_hist[j] == b.core_hist[j],
            decreases n - c,
        {
            let t = cores[c];
            let cb = busy(t);
            let ct = total(t);
            let cdt = span_of(ct, self.core_prev_total[c]);
            let load = if primed {
                permille_of(cb.saturating_sub(self.core_prev_busy[c]), cdt)
            } else {
                0
            };
            assert(load == cur[c as int]);
            self.core_cur.set(c, load);
            self.core_prev_busy.set(c, cb);
            self.core_prev_total.set(c, ct);
            if primed {
                let ghost old_hist = self@.core_hist;
                assert(self.core_hist@[c as int]@ == old_hist[c as int]);
                assert(old_hist[c as int] == b.core_hist[c as int]);
                assert(b.core_hist[c as int].len() == PERF_SAMPLES);
                assert(b.phead == m.phead);
                assert(phead < self.core_hist@[c as int]@.len());
                self.core_hist[c].set(phead, load);
                assert(self@.core_hist =~= old_hist.update(c as int, old_hist[c as int].update(phead as int, load)));
            }
            c = c + 1;
        }
        assert(self@.core_cur =~= cur);
        assert(self@.core_prev_busy =~= Seq::new(n as nat, |k: int| busy_of(cores@[k])));
        assert(self@.core_prev_total =~= Seq::new(n as nat, |k: int| total_of(cores@[k])));
        if primed {
            assert(self@.core_hist =~= Seq::new(n as nat, |k: int| b.core_hist[k].update(phead as int, cur[k])));
        } else {
            assert(self@.core_hist =~= b.core_hist);
        }
    }

    /// Take a new reading: rebuild the process table, and (after the first
    /// reading, which only sets the baseline) push the loads into the rings.
    pub fn refresh(&mut self, snap: &TaskSnapshot)
        requires
            taskmon_wf(old(self)@),
            snapshot_ok(*snap),
        ensures
            taskmon_wf(final(self)@),
            final(self)@ == refreshed(old(self)@, *snap),
    {
        let ghost m = self@;
        let busy = busy(snap.totals);
        let total = total(snap.totals);
        let dt = span_of(total, self.prev_total);
        let ncpu = if snap.ncpu >= 1 { snap.ncpu } else { 1 };
        let scale = 1000u64.wrapping_mul(ncpu);
        let primed = self.primed;
        let (rows, prev) = self.build_rows(snap, scale, dt);
        let cpu = if primed { permille_of(busy.saturating_sub(self.prev_busy), dt) } else { 0 };
        let mem = snap.mem;
        assert(mem >> 32u64 == mem / 0x1_0000_0000u64) by (bit_vector);
        assert(mem & 0xffff_ffffu64 == mem % 0x1_0000_0000u64) by (bit_vector);
        let mem_total = mem >> 32;
        let mem_used = mem & 0xffff_ffff;
        let memp = if mem_total > 0 { permille_of(mem_used, mem_total) } else { 0 };
        self.refresh_cores(&snap.cores);
        if primed {
            let h = self.phead;
            self.cpu_hist.set(h, cpu);
            self.mem_hist.set(h, memp);
            self.phead = (h + 1) % PERF_SAMPLES;
            if self.pcount < PERF_SAMPLES {
                self.pcount = self.pcount + 1;
            }
        }
        self.cpu_cur = cpu;
        self.mem_cur = memp;
        self.mem_used_kib = mem_used;
        self.mem_total_kib = mem_total;
        self.rows = rows;
        self.prev = prev;
        self.prev_total = total;
        self.prev_busy = busy;
        self.primed = true;
    }

    /// Re-baseline: the next refresh records ticks without reporting a load.
    pub fn baseline(&mut self, snap: &TaskSnapshot)
        requires
            taskmon_wf(old(self)@),
            snapshot_ok(*snap),
        ensures
            taskmon_wf(final(self)@),
            final(self)@ == refreshed(TaskMonView { primed: false, ..old(self)@ }, *snap),
    {
        self.primed = false;
        self.refresh(snap);
    }

    /// The Task Manager's window: the tab strip, then the process list or
    /// the performance graphs.
    pub fn draw(&self, s: &mut Screen, font: &[u8])
        requires
            taskmon_wf(self@),
            canvas_ok(old(s)@),
            font@.len() >= FONT_BYTES,
        ensures
            canvas_ok(final(s)@),
            kept_outside_clip(old(s)@, final(s)@),
            final(s)@ == render(old(s)@, taskmon_ops(self@, old(s)@, font@)),
    {
        let ghost a = s@;
        proof { lemma_kept_refl(a); }
        let body = s.pack(0xE8, 0xE8, 0xE8);
        let w = s.width() as i64;
        let h = s.height() as i64;
        fill_k(s, 0, 0, w, h, body, Ghost(a));
        let ghost op0 = DrawOp::Fill { x: 0, y: 0, w: a.width as int, h: a.height as int, c: body };
        let ghost m = s@;
        proof {
            lemma_render_push(a, Seq::empty(), op0);
            assert(Seq::<DrawOp>::empty().push(op0) =~= seq![op0]);
            crate::programs::gui::ops::lemma_render_wf(a, seq![op0]);
        }
        draw_tabs(s, self.tab, font);
        let ghost tabs = tabs_ops(a.width as int, a.format, self@.tab, 2, font@);
        proof {
            lemma_kept_trans(a, m, s@);
            lemma_render_concat(a, seq![op0], tabs);
            crate::programs::gui::ops::lemma_render_wf(a, seq![op0] + tabs);
        }
        let ghost m = s@;
        if self.tab == 0 {
            self.draw_processes(s, font);
        } else {
            self.draw_performance(s, font);
        }
        proof {
            lemma_kept_trans(a, m, s@);
            let body_ops = if self@.tab == 0 { processes_ops(self@, m, font@) } else { performance_ops(self@, m, font@) };
            assert(body_ops == (if self@.tab == 0 { processes_ops(self@, a, font@) } else { performance_ops(self@, a, font@) }));
            lemma_render_concat(a, seq![op0] + tabs, body_ops);
            assert(seq![op0] + tabs + body_ops =~= taskmon_ops(self@, a, font@));
        }
    }

    /// The process list: a header, then one line per row (alternate lines
    /// shaded) as far as the window reaches.
    #[verifier::spinoff_prover]
    #[verifier::rlimit(50)]
    pub fn draw_processes(&self, s: &mut Screen, font: &[u8])
        requires
            taskmon_wf(self@),
            canvas_ok(old(s)@),
            font@.len() >= FONT_BYTES,
        ensures
            canvas_ok(final(s)@),
            kept_outside_clip(old(s)@, final(s)@),
            final(s)@ == render(old(s)@, processes_ops(self@, old(s)@, font@)),
    {
        let ghost a = s@;
        proof { lemma_kept_refl(a); }
        let black = s.pack(0x00, 0x00, 0x00);
        let head_bg = s.pack(0xD0, 0xD8, 0xE0);
        let row_alt = s.pack(0xF4, 0xF4, 0xF4);
        let w = s.width() as i64;
        let bx: i64 = 8;
        let mut y: i64 = 22 + 6;
        let ghost fmt = a.format;
        let ghost mut cur: Seq<DrawOp> = Seq::empty();
        fill_k(s, 0, y - 2, w, 16, head_bg, Ghost(a));
        proof {
            let op = DrawOp::Fill { x: 0, y: 26, w: w as int, h: 16, c: head_bg };
            lemma_render_push(a, cur, op);
            cur = cur.push(op);
        }
        text_k(s, bx, y, "PID".as_bytes(), black, font, Ghost(a));
        proof {
            let op = DrawOp::Text { x: 8, y: 28, t: "PID".spec_bytes(), font: font@, c: black };
            lemma_render_push(a, cur, op);
            cur = cur.push(op);
        }
        text_k(s, bx + 48, y, "PPID".as_bytes(), black, font, Ghost(a));
        proof {
            let op = DrawOp::Text { x: 56, y: 28, t: "PPID".spec_bytes(), font: font@, c: black };
            lemma_render_push(a, cur, op);
            cur = cur.push(op);
        }
        text_k(s, bx + 104, y, "%CPU".as_bytes(), black, font, Ghost(a));
        proof {
            let op = DrawOp::Text { x: 112, y: 28, t: "%CPU".spec_bytes(), font: font@, c: black };
            lemma_render_push(a, cur, op);
            cur = cur.push(op);
        }
        text_k(s, bx + 168, y, "MEM(KB)".as_bytes(), black, font, Ghost(a));
        proof {
            let op = DrawOp::Text { x: 176, y: 28, t: "MEM(KB)".spec_bytes(), font: font@, c: black };
            lemma_render_push(a, cur, op);
            cur = cur.push(op);
        }
        text_k(s, bx + 256, y, "NAME".as_bytes(), black, font, Ghost(a));
        proof {
            let op = DrawOp::Text { x: 264, y: 28, t: "NAME".spec_bytes(), font: font@, c: black };
            lemma_render_push(a, cur, op);
            cur = cur.push(op);
        }
        let ghost head = proc_header_ops(a.width as int, fmt, font@);
        proof {
            assert(cur =~= head);
            assert(head + proc_lines_ops(self@.rows, 0, a.width as int, a.height - 16, fmt, font@) =~= head);
        }
        y = y + 16 + 2;
        let bottom = s.height() as i64 - 16;
        let mut alt = false;
        let mut i: usize = 0;
        while i < self.rows.len()
            invariant
                taskmon_wf(self@),
                kept_outside_clip(a, s@),
                canvas_ok(a),
                font@.len() >= FONT_BYTES,
                bx == 8,
                y == 46 + 16 * i,
                alt == (i % 2 == 1),
                i <= self.rows@.len(),
                self.rows@.len() <= MAXT,
                w == a.width,
                fmt == a.format,
                bottom == a.height - 16,
                black == pack_spec(fmt, 0x00, 0x00, 0x00),
                row_alt == pack_spec(fmt, 0xF4, 0xF4, 0xF4),
                s@ == render(a, head + proc_lines_ops(self@.rows, i as int, w as int, bottom as int, fmt, font@)),
            ensures
                i == self.rows@.len() || 46 + 16 * i >= bottom,
                s@ == render(a, head + proc_lines_ops(self@.rows, i as int, w as int, bottom as int, fmt, font@)),
            decreases self.rows@.len() - i,
        {
            if y >= bottom {
                break;
            }
            let r = &self.rows[i];
            let ghost rv = self@.rows[i as int];
            let ghost before = head + proc_lines_ops(self@.rows, i as int, w as int, bottom as int, fmt, font@);
            let ghost mut cur: Seq<DrawOp> = before;
            proof {
                assert(rv == r@);
            }
            if alt {
                fill_k(s, 0, y - 2, w, 16, row_alt, Ghost(a));
                proof {
                    let op = DrawOp::Fill { x: 0, y: y - 2, w: w as int, h: 16, c: row_alt };
                    lemma_render_push(a, cur, op);
                    cur = cur.push(op);
                }
            }
            let ghost start = cur;
            let pid = fmt_dec(r.pid);
            text_k(s, bx, y, pid.as_slice(), black, font, Ghost(a));
            proof {
                let op = DrawOp::Text { x: 8, y: y as int, t: pid@, font: font@, c: black };
                lemma_render_push(a, cur, op);
                cur = cur.push(op);
            }
            let pp = fmt_dec(r.ppid);
            text_k(s, bx + 48, y, pp.as_slice(), black, font, Ghost(a));
            proof {
                let op = DrawOp::Text { x: 56, y: y as int, t: pp@, font: font@, c: black };
                lemma_render_push(a, cur, op);
                cur = cur.push(op);
            }
            let ip = fmt_dec(r.permille / 10);
            text_k(s, bx + 104, y, ip.as_slice(), black, font, Ghost(a));
            proof {
                let op = DrawOp::Text { x: 112, y: y as int, t: ip@, font: font@, c: black };
                lemma_render_push(a, cur, op);
                cur = cur.push(op);
            }
            let ni = ip.len() as i64;
            text_k(s, bx + 104 + ni * 8, y, ".".as_bytes(), black, font, Ghost(a));
            proof {
                let op = DrawOp::Text { x: 112 + ni * 8, y: y as int, t: ".".spec_bytes(), font: font@, c: black };
                lemma_render_push(a, cur, op);
                cur = cur.push(op);
            }
            let fp = fmt_dec(r.permille % 10);
            text_k(s, bx + 104 + (ni + 1) * 8, y, fp.as_slice(), black, font, Ghost(a));
            proof {
                let op = DrawOp::Text { x: 112 + (ni + 1) * 8, y: y as int, t: fp@, font: font@, c: black };
                lemma_render_push(a, cur, op);
                cur = cur.push(op);
            }
            let mem = fmt_dec(r.mem_kb);
            text_k(s, bx + 168, y, mem.as_slice(), black, font, Ghost(a));
            proof {
                let op = DrawOp::Text { x: 176, y: y as int, t: mem@, font: font@, c: black };
                lemma_render_push(a, cur, op);
                cur = cur.push(op);
            }
            text_k(s, bx + 256, y, r.name.as_slice(), black, font, Ghost(a));
            proof {
                let op = DrawOp::Text { x: 264, y: y as int, t: r.name@, font: font@, c: black };
                lemma_render_push(a, cur, op);
                cur = cur.push(op);
                let line = proc_line_ops(rv, y as int, alt, w as int, fmt, font@);
                assert(cur =~= before + line);
                assert(proc_lines_ops(self@.rows, i + 1, w as int, bottom as int, fmt, font@)
                    == proc_lines_ops(self@.rows, i as int, w as int, bottom as int, fmt, font@) + line);
                assert(before + line =~= head + proc_lines_ops(self@.rows, i + 1, w as int, bottom as int, fmt, font@));
            }
            y = y + 16;
            alt = !alt;
            i = i + 1;
        }
        proof {
            if i < self.rows@.len() {
                lemma_lines_stop(self@.rows, i as int, self@.rows.len() as int, w as int, bottom as int, fmt, font@);
            }
        }
    }

    /// The performance view: the total CPU load and its graph, a grid of
    /// per-core graphs, and the memory figures and graph at the bottom.
    #[verifier::spinoff_prover]
    #[verifier::rlimit(50)]
    pub fn draw_performance(&self, s: &mut Screen, font: &[u8])
        requires
            taskmon_wf(self@),
            canvas_ok(old(s)@),
            font@.len() >= FONT_BYTES,
        ensures
            canvas_ok(final(s)@),
            kept_outside_clip(old(s)@, final(s)@),
            final(s)@ == render(old(s)@, performance_ops(self@, old(s)@, font@)),
    {
        let ghost a = s@;
        proof { lemma_kept_refl(a); }
        let ghost fmt = a.format;
        let black = s.pack(0x10, 0x10, 0x10);
        let cpu_col = s.pack(0x40, 0xC0, 0x80);
        let mem_col = s.pack(0x50, 0x90, 0xE0);
        let w = s.width() as i64;
        let gx: i64 = 8;
        let gw: i64 = if w - 16 >= 1 { w - 16 } else { 1 };
        let mut y: i64 = 22 + 8;
        let bottom = s.height() as i64 - 8;
        let mem_h: i64 = 56;
        let mem_label_y = bottom - mem_h - 16;
        let ghost mut cur: Seq<DrawOp> = Seq::empty();
        text_k(s, gx, y, "CPU Total".as_bytes(), black, font, Ghost(a));
        proof {
            let op = DrawOp::Text { x: 8, y: 30, t: "CPU Total".spec_bytes(), font: font@, c: black };
            lemma_render_push(a, cur, op);
            cur = cur.push(op);
            assert(cur =~= seq![op]);
        }
        let ghost m = s@;
        text_permille(s, (gx + 80) as i32, y as i32, self.cpu_cur, black, font);
        proof {
            lemma_kept_trans(a, m, s@);
            let more = permille_ops(88, 30, self@.cpu_cur, black, font@);
            lemma_render_concat(a, cur, more);
            cur = cur + more;
        }
        y = y + 16;
        let total_h: i64 = 64;
        let ghost m = s@;
        proof { crate::programs::gui::ops::lemma_render_wf(a, cur); }
        draw_graph(s, gx as i32, y as i32, gw as i32, total_h as i32, self.cpu_hist.as_slice(), self.phead, self.pcount,
            PERF_SAMPLES, cpu_col);
        proof {
            lemma_kept_trans(a, m, s@);
            let more = graph_ops(8, 46, gw as int, 64, self@.cpu_hist, self@.phead as int, self@.pcount as int, PERF_SAMPLES as int,
                cpu_col, fmt);
            lemma_render_concat(a, cur, more);
            cur = cur + more;
        }
        y = y + total_h + 10;
        let n = self.core_cur.len();
        let grid_bottom = mem_label_y - 8;
        let ghost pre = cur;
        let ghost grid = core_grid_ops(self@, 120, gw as int, grid_bottom as int, fmt, font@);
        if n > 0 && n <= 4096 && grid_bottom > y + 16 + 12 {
            let cols: i64 = if n <= 1 { 1 } else if n <= 4 { 2 } else { 4 };
            let rows: i64 = (n as i64 + cols - 1) / cols;
            assert(1 <= rows <= 4096) by (nonlinear_arith)
                requires
                    rows == (n as int + cols - 1) / (cols as int),
                    1 <= n <= 4096,
                    1 <= cols <= 4,
            ;
            let gap: i64 = 8;
            let span = gw - (cols - 1) * gap;
            let cell_w = if span > 0 { span / cols } else { 0 };
            let room = grid_bottom - y - (rows - 1) * gap;
            let cell_h = if room > 0 { room / rows } else { 0 };
            let chart_h = cell_h - 16;
            if cell_w > 8 && chart_h >= 8 {
                assert(rows * cell_h <= room) by (nonlinear_arith)
                    requires
                        cell_h == room / rows,
                        room > 0,
                        rows >= 1,
                ;
                assert(cell_w <= gw) by (nonlinear_arith)
                    requires
                        cell_w == span / cols,
                        span == gw - (cols - 1) * gap,
                        span > 0,
                        cols >= 1,
                        gap == 8,
                        gw >= 1,
                ;
                proof {
                    assert(grid == core_cells_ops(self@, n as int, cols as int, 120, cell_w as int, cell_h as int, fmt, font@));
                    assert(pre + core_cells_ops(self@, 0, cols as int, 120, cell_w as int, cell_h as int, fmt, font@) =~= pre);
                }
                let mut c: usize = 0;
                while c < n
                    invariant
                        taskmon_wf(self@),
                        kept_outside_clip(a, s@),
                        canvas_ok(a),
                        font@.len() >= FONT_BYTES,
                        n == self@.core_cur.len(),
                        1 <= n <= 4096,
                        c <= n,
                        1 <= cols <= 4,
                        rows == (n as int + cols - 1) / (cols as int),
                        1 <= rows <= 4096,
                        gap == 8,
                        gx == 8,
                        y == 120,
                        8 < cell_w <= gw,
                        1 <= gw <= CANVAS_MAX,
                        chart_h >= 8,
                        cell_h == chart_h + 16,
                        room == grid_bottom - y - (rows - 1) * gap,
                        rows * cell_h <= room,
                        grid_bottom <= CANVAS_MAX,
                        fmt == a.format,
                        black == pack_spec(fmt, 0x10, 0x10, 0x10),
                        cpu_col == pack_spec(fmt, 0x40, 0xC0, 0x80),
                        s@ == render(a, pre + core_cells_ops(self@, c as int, cols as int, 120, cell_w as int, cell_h as int, fmt, font@)),
                    decreases n - c,
                {
                    let col = (c as i64) % cols;
                    let row = (c as i64) / cols;
                    assert(row <= rows - 1) by (nonlinear_arith)
                        requires
                            row == (c as int) / (cols as int),
                            rows == (n as int + cols - 1) / (cols as int),
                            c < n,
                            cols >= 1,
                    ;
                    assert(0 <= row * (cell_h + gap) <= grid_bottom - y - cell_h) by (nonlinear_arith)
                        requires
                            0 <= row <= rows - 1,
                            rows * cell_h <= grid_bottom - y - (rows - 1) * gap,
                            cell_h >= 24,
                            gap == 8,
                    ;
                    assert(0 <= col * (cell_w + gap) <= 3 * (cell_w + gap)) by (nonlinear_arith)
                        requires
                            0 <= col < cols,
                            cols <= 4,
                            cell_w + gap >= 0,
                    ;
                    let cx = gx + col * (cell_w + gap);
                    let cy = y + row * (cell_h + gap);
                    let ghost before = pre + core_cells_ops(self@, c as int, cols as int, 120, cell_w as int, cell_h as int, fmt, font@);
                    let ghost mut cur: Seq<DrawOp> = before;
                    let mut lbl: Vec<u8> = Vec::new();
                    lbl.push(0x43);
                    lbl.push(0x50);
                    lbl.push(0x55);
                    let num = fmt_dec(c as u64);
                    push_all(&mut lbl, num.as_slice());
                    proof {
                        assert(lbl@ =~= seq![0x43u8, 0x50u8, 0x55u8] + dec_digits(c as nat));
                    }
                    text_k(s, cx, cy, lbl.as_slice(), black, font, Ghost(a));
                    proof {
                        let op = DrawOp::Text { x: cx as int, y: cy as int, t: lbl@, font: font@, c: black };
                        lemma_render_push(a, cur, op);
                        cur = cur.push(op);
                        crate::programs::gui::ops::lemma_render_wf(a, cur);
                    }
                    let ln = num.len() as i64;
                    let ghost m = s@;
                    text_permille(s, (cx + (5 + ln) * 8) as i32, cy as i32, self.core_cur[c], black, font);
                    proof {
                        lemma_kept_trans(a, m, s@);
                        let more = permille_ops(cx + (5 + ln) * 8, cy as int, self@.core_cur[c as int], black, font@);
                        lemma_render_concat(a, cur, more);
                        cur = cur + more;
                        crate::programs::gui::ops::lemma_render_wf(a, cur);
                    }
                    assert(self@.core_hist[c as int].len() == PERF_SAMPLES);
                    let ghost m = s@;
                    draw_graph(s, cx as i32, (cy + 16) as i32, cell_w as i32, chart_h as i32, self.core_hist[c].as_slice(),
                        self.phead, self.pcount, PERF_SAMPLES, cpu_col);
                    proof {
                        lemma_kept_trans(a, m, s@);
                        let more = graph_ops(cx as int, cy + 16, cell_w as int, chart_h as int, self@.core_hist[c as int],
                            self@.phead as int, self@.pcount as int, PERF_SAMPLES as int, cpu_col, fmt);
                        assert(self.core_hist@[c as int]@ == self@.core_hist[c as int]);
                        lemma_render_concat(a, cur, more);
                        cur = cur + more;
                        let cell = core_cell_ops(self@, c as int, cx as int, cy as int, cell_w as int, chart_h as int, fmt, font@);
                        assert(cur =~= before + cell);
                        assert(core_cells_ops(self@, c + 1, cols as int, 120, cell_w as int, cell_h as int, fmt, font@)
                            == core_cells_ops(self@, c as int, cols as int, 120, cell_w as int, cell_h as int, fmt, font@) + cell);
                        assert(before + cell =~= pre + core_cells_ops(self@, c + 1, cols as int, 120, cell_w as int, cell_h as int,
                            fmt, font@));
                    }
                    c = c + 1;
                }
                proof { cur = pre + grid; }
            } else {
                proof {
                    assert(grid =~= Seq::<DrawOp>::empty());
                    assert(pre + grid =~= pre);
                    cur = pre + grid;
                }
            }
        } else {
            proof {
                assert(grid =~= Seq::<DrawOp>::empty());
                assert(pre + grid =~= pre);
                cur = pre + grid;
            }
        }
        assert(s@ == render(a, cur));
        let y = mem_label_y;
        text_k(s, gx, y, "Memory".as_bytes(), black, font, Ghost(a));
        let ghost line_start = cur;
        proof {
            let op = DrawOp::Text { x: 8, y: y as int, t: "Memory".spec_bytes(), font: font@, c: black };
            lemma_render_push(a, cur, op);
            cur = cur.push(op);
            crate::programs::gui::ops::lemma_render_wf(a, cur);
        }
        let ghost m = s@;
        let mut xx = text_permille(s, (gx + 64) as i32, y as i32, self.mem_cur, black, font);
        proof {
            lemma_kept_trans(a, m, s@);
            let more = permille_ops(72, y as int, self@.mem_cur, black, font@);
            lemma_render_concat(a, cur, more);
            cur = cur + more;
        }
        xx = xx + 8;
        let used = fmt_dec(self.mem_used_kib / 1024);
        text_k(s, xx, y, used.as_slice(), black, font, Ghost(a));
        proof {
            let op = DrawOp::Text { x: xx as int, y: y as int, t: used@, font: font@, c: black };
            lemma_render_push(a, cur, op);
            cur = cur.push(op);
        }
        xx = xx + used.len() as i64 * 8;
        text_k(s, xx, y, "/".as_bytes(), black, font, Ghost(a));
        proof {
            let op = DrawOp::Text { x: xx as int, y: y as int, t: "/".spec_bytes(), font: font@, c: black };
            lemma_render_push(a, cur, op);
            cur = cur.push(op);
        }
        xx = xx + 8;
        let total = fmt_dec(self.mem_total_kib / 1024);
        text_k(s, xx, y, total.as_slice(), black, font, Ghost(a));
        proof {
            let op = DrawOp::Text { x: xx as int, y: y as int, t: total@, font: font@, c: black };
            lemma_render_push(a, cur, op);
            cur = cur.push(op);
        }
        xx = xx + total.len() as i64 * 8;
        text_k(s, xx, y, " MB".as_bytes(), black, font, Ghost(a));
        proof {
            let op = DrawOp::Text { x: xx as int, y: y as int, t: " MB".spec_bytes(), font: font@, c: black };
            lemma_render_push(a, cur, op);
            cur = cur.push(op);
            assert(cur =~= line_start + mem_line_ops(self@, y as int, fmt, font@));
            crate::programs::gui::ops::lemma_render_wf(a, cur);
        }
        let ghost m = s@;
        draw_graph(s, gx as i32, (y + 16) as i32, gw as i32, mem_h as i32, self.mem_hist.as_slice(), self.phead, self.pcount,
            PERF_SAMPLES, mem_col);
        proof {
            lemma_kept_trans(a, m, s@);
            let more = graph_ops(8, y + 16, gw as int, 56, self@.mem_hist, self@.phead as int, self@.pcount as int, PERF_SAMPLES as int,
                mem_col, fmt);
            lemma_render_concat(a, cur, more);
            cur = cur + more;
            assert(cur =~= performance_ops(self@, a, font@));
        }
    }

    pub fn tab(&self) -> (t: u8)
        ensures
            t == self@.tab,
    {
        self.tab
    }

    pub fn rows(&self) -> (r: &Vec<TaskRow>)
        ensures
            r@.map_values(|x: TaskRow| x@) == self@.rows,
    {
        &self.rows
    }

    /// A click in the tab strip switches between Processes and Performance.
    pub fn on_mouse_up(&mut self, x: i32, y: i32) -> (r: (bool, InputAction))
        requires
            taskmon_wf(old(self)@),
        ensures
            taskmon_wf(final(self)@),
            ({
                let t = tab_at(x, y);
                &&& t is Some && t->0 != old(self)@.tab ==> final(self)@ == (TaskMonView { tab: t->0, ..old(self)@ })
                    && r == (true, InputAction::Idle)
                &&& !(t is Some && t->0 != old(self)@.tab) ==> final(self)@ == old(self)@
                    && r == (false, InputAction::Idle)
            }),
    {
        if let Some(t) = taskmgr_tab(x, y) {
            if self.tab != t {
                self.tab = t;
                return (true, InputAction::Idle);
            }
        }
        (false, InputAction::Idle)
    }
}

} // verus!
