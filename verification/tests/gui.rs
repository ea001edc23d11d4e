use kazuos::programs::gui::geometry::{button_at, taskbar_hit, taskbar_order, Rect, TbHit};
use kazuos::programs::gui::screen::{clamp8, pack_fmt, Screen};
use kazuos::programs::gui::taskmgr::{CpuTicks, ProcSample, TaskMon, TaskSnapshot};
use kazuos::programs::gui::term::{Term, TermKey};
use kazuos::programs::gui::widgets::{permille_of, InputAction, Launcher, Profiler};
use kazuos::text::{fmt_dec, fmt_uptime};

#[test]
fn rect_union() {
    let mut r = Rect::empty();
    assert!(r.is_empty());
    r.add(10, 10, 5, 5);
    r.add(0, 12, 2, 20);
    assert_eq!(r, Rect { x0: 0, y0: 10, x1: 15, y1: 32 });
    r.add(100, 100, 0, 5);
    assert_eq!(r, Rect { x0: 0, y0: 10, x1: 15, y1: 32 });
    assert!(r.intersects(14, 31, 10, 10));
    assert!(!r.intersects(15, 0, 10, 100));
}

#[test]
fn screen_fill_respects_clip() {
    let mut s = Screen::offscreen(8, 8, 0);
    s.set_clip(Rect { x0: 2, y0: 2, x1: 4, y1: 4 });
    s.fill(0, 0, 8, 8, 7);
    assert_eq!(s.get(2, 2), 7);
    assert_eq!(s.get(3, 3), 7);
    assert_eq!(s.get(4, 4), 0);
    assert_eq!(s.get(1, 2), 0);
    assert_eq!(clamp8(-5), 0);
    assert_eq!(clamp8(300), 255);
    assert_eq!(pack_fmt(0, 1, 2, 3), 0x010203);
}

#[test]
fn launcher_and_taskbar() {
    let mut l = Launcher::new();
    let b = button_at(20, 20);
    assert_eq!(b, 1);
    assert_eq!(l.on_mouse_down(20, 20, 1), (true, InputAction::Idle));
    assert_eq!(l.on_mouse_up(20, 20), (true, InputAction::Open(1)));
    assert_eq!(taskbar_order(&[5, 3, 9]), vec![1, 0, 2]);
    assert_eq!(taskbar_hit(&[5, 3, 9], 10, 760, 1024, 768, 0), TbHit::Window(3));
    assert_eq!(taskbar_hit(&[5, 3, 9], 1000, 760, 1024, 768, 0), TbHit::Empty);
}

#[test]
fn profiler_baseline_then_load() {
    let mut p = Profiler::new();
    p.sample(100, 100, 800);
    assert_eq!(p.cur(), 0);
    p.sample(150, 150, 900);
    // busy 100 of 200 ticks
    assert_eq!(p.cur(), 500);
    assert_eq!(p.sample_at(p.count() - 1), 500);
    assert_eq!(permille_of(3, 2), 1000);
}

fn proc(pid: u64, ticks: u64, name: &[u8]) -> ProcSample {
    let mut n = name.to_vec();
    n.resize(32, 0);
    ProcSample { pid, parent: 1, cpu_ticks: ticks, memory_bytes: 8192, image_name: n }
}

fn snap(user: u64, kernel: u64, idle: u64, k_ticks: u64, p_ticks: u64) -> TaskSnapshot {
    TaskSnapshot {
        totals: CpuTicks { user, kernel, idle },
        ncpu: 1,
        kernel: Some(ProcSample { pid: 0, parent: 0, cpu_ticks: k_ticks, memory_bytes: 4096, image_name: vec![] }),
        procs: vec![proc(7, p_ticks, b"shell")],
        mem: (1000u64 << 32) | 250,
        cores: vec![CpuTicks { user, kernel, idle }],
    }
}

#[test]
fn task_manager_rows_and_loads() {
    let mut m = TaskMon::new();
    m.refresh(&snap(10, 10, 80, 10, 10));
    let rows = m.rows();
    assert_eq!(rows.len(), 2);
    assert_eq!((rows[0].pid, rows[0].permille, rows[0].mem_kb), (0, 0, 4));
    assert_eq!(rows[0].name, b"kernel".to_vec());
    assert_eq!((rows[1].pid, rows[1].ppid, rows[1].permille), (7, 1, 0));
    assert_eq!(rows[1].name, b"shell".to_vec());
    // 100 more ticks: the shell had 50 of them
    m.refresh(&snap(60, 20, 120, 20, 60));
    let rows = m.rows();
    assert_eq!(rows[1].permille, 500);
    assert_eq!(rows[0].permille, 100);
    assert_eq!(m.tab(), 0);
    assert_eq!(m.on_mouse_up(120, 5), (true, InputAction::Idle));
    assert_eq!(m.tab(), 1);
}

#[test]
fn terminal_grid() {
    let mut t = Term::new();
    t.feed(b"hi\r\nx");
    assert_eq!(t.cell(0, 0), b'h');
    assert_eq!(t.cell(0, 1), b'i');
    assert_eq!(t.cell(1, 0), b'x');
    assert_eq!(t.cursor(), (1, 1));
    t.feed(b"\x1b[2J");
    assert_eq!(t.cell(0, 0), b' ');
    assert!(matches!(t.route_key(3), TermKey::Quit) || matches!(t.route_key(3), TermKey::Interrupt));
}

#[test]
fn numbers_as_text() {
    assert_eq!(fmt_dec(0), b"0".to_vec());
    assert_eq!(fmt_dec(18446744073709551615), b"18446744073709551615".to_vec());
    assert_eq!(fmt_uptime(3725), b"up 1:02:05".to_vec());
}

#[test]
fn buttons_keep_their_places_when_raised() {
    let before = [5u64, 2, 9];
    let after = [2u64, 9, 5];
    let o1 = taskbar_order(&before);
    let o2 = taskbar_order(&after);
    let ids1: Vec<u64> = o1.iter().map(|&k| before[k]).collect();
    let ids2: Vec<u64> = o2.iter().map(|&k| after[k]).collect();
    assert_eq!(ids1, vec![2, 5, 9]);
    assert_eq!(ids1, ids2);
}
