use kazuos::programs::gui::blur::{blur_line, blur_region, BLUR_R};
use kazuos::programs::gui::compose::{composite, draw_taskbar, kind_has_close, kind_title};
use kazuos::programs::gui::desktop::{WinEntry, WinKind};
use kazuos::programs::gui::draw::{draw_button, draw_frame};
use kazuos::programs::gui::geometry::{Rect, Win};
use kazuos::programs::gui::screen::{blend_region, Screen, FONT_BYTES};
use kazuos::programs::report::lookup_prev;

fn blank_font() -> Vec<u8> {
    vec![0u8; FONT_BYTES]
}

#[test]
fn box_blur_of_a_spike() {
    let a = [0u32, 0, 90, 0, 0];
    let mut b = [7u32; 5];
    blur_line(&a, &mut b, 0, 1, 5, 1);
    assert_eq!(b, [0, 30, 30, 30, 0]);
}

#[test]
fn box_blur_keeps_a_flat_line_and_other_places() {
    let a = [0x112233u32; 9];
    let mut b = [5u32; 9];
    // Every third place from 1: places 1, 4, 7.
    blur_line(&a, &mut b, 1, 3, 3, 8);
    assert_eq!(b, [5, 0x112233, 5, 5, 0x112233, 5, 5, 0x112233, 5]);
}

#[test]
fn box_blur_channels_apart() {
    // Two pixels, radius 1: both become the mean of each channel.
    let a = [0x0000_00FFu32, 0x00FF_0000];
    let mut b = [0u32; 2];
    blur_line(&a, &mut b, 0, 1, 2, 0);
    assert_eq!(b, [0x007F_007F, 0x007F_007F]);
}

#[test]
fn region_blur_stays_inside() {
    let mut s = Screen::new(6, 6, 0);
    s.set_pixel(3, 3, 0xFF);
    s.set_pixel(0, 0, 0x10);
    blur_region(&mut s, 2, 2, 5, 5, 1);
    assert_eq!(s.get(0, 0), 0x10);
    assert_eq!(s.get(5, 5), 0);
    assert_eq!(s.get(1, 3), 0);
    let total: u32 = (2..5).flat_map(|y| (2..5).map(move |x| (x, y))).map(|(x, y)| s.get(x, y)).sum();
    assert!(total > 0);
    assert!(s.get(3, 3) < 0xFF);
    // A flat region stays flat.
    let mut f = Screen::new(5, 5, 0);
    for y in 0..5 {
        for x in 0..5 {
            f.set_pixel(x, y, 0x404040);
        }
    }
    blur_region(&mut f, -3, -3, 50, 50, BLUR_R);
    for y in 0..5 {
        for x in 0..5 {
            assert_eq!(f.get(x, y), 0x404040);
        }
    }
}

#[test]
fn blend_halfway() {
    let mut s = Screen::new(2, 1, 0);
    s.set_pixel(0, 0, 0x000000);
    blend_region(&mut s, 0, 0, 1, 1, 0x0000FF, 128);
    assert_eq!(s.get(0, 0), 0x7F);
    assert_eq!(s.get(1, 0), 0);
}

#[test]
fn drawing_stays_in_the_clip() {
    let font = blank_font();
    let mut s = Screen::new(200, 120, 0);
    s.set_clip(Rect { x0: 10, y0: 10, x1: 60, y1: 40 });
    draw_button(&mut s, 0, 0, b"Go", false, &font);
    draw_frame(&mut s, &Win { x: 5, y: 5, w: 120, h: 80 }, b"Terminal", true, true, &font);
    assert_eq!(s.get(5, 5), 0);
    assert_eq!(s.get(100, 50), 0);
    assert_ne!(s.get(20, 20), 0);
}

#[test]
fn titles_and_close_boxes() {
    assert_eq!(kind_title(WinKind::Launcher), b"KazuOS");
    assert_eq!(kind_title(WinKind::TaskMgr), b"Task Manager");
    assert_eq!(kind_title(WinKind::Terminal), b"Terminal");
    assert_eq!(kind_title(WinKind::Profiler), b"Profiler");
    assert!(!kind_has_close(WinKind::Launcher));
    assert!(kind_has_close(WinKind::Terminal));
}

#[test]
fn taskbar_only_paints_its_strip() {
    let font = blank_font();
    let mut s = Screen::new(320, 200, 0);
    s.set_pixel(10, 10, 0xABCDEF);
    s.set_clip(Rect { x0: 0, y0: 160, x1: 320, y1: 200 });
    let wins = [WinEntry { id: 1, geo: Win { x: 10, y: 10, w: 100, h: 80 }, kind: WinKind::Terminal }];
    draw_taskbar(&mut s, &wins, Some(1), 0, 3725, &font);
    assert_eq!(s.get(10, 10), 0xABCDEF);
    assert_eq!(s.get(300, 150), 0);
    // The tint lands on the strip.
    assert_ne!(s.get(2, 198), 0);
}

#[test]
fn compositor_repaints_only_the_dirty_part() {
    let font = blank_font();
    let mut bg = Screen::new(320, 200, 0);
    for y in 0..200 {
        for x in 0..320 {
            bg.set_pixel(x, y, 0x222222);
        }
    }
    let mut s = Screen::new(320, 200, 0);
    let wins = [WinEntry { id: 1, geo: Win { x: 100, y: 20, w: 80, h: 60 }, kind: WinKind::Profiler }];
    let canvases = [Screen::new(72, 28, 0)];
    // Nothing dirty: nothing changes.
    let p = composite(&mut s, &wins, &canvases, None, 0, 0, &bg, Rect::empty(), &font);
    assert!(p.is_empty());
    assert_eq!(s.get(0, 0), 0);
    // A corner away from the window and the taskbar gets the desktop.
    let p = composite(&mut s, &wins, &canvases, None, 0, 0, &bg, Rect { x0: 0, y0: 0, x1: 20, y1: 20 }, &font);
    assert_eq!(p, Rect { x0: 0, y0: 0, x1: 20, y1: 20 });
    assert_eq!(s.get(5, 5), 0x222222);
    assert_eq!(s.get(25, 25), 0);
    // A rect touching the taskbar grows to the whole strip.
    let p = composite(&mut s, &wins, &canvases, Some(1), 0, 0, &bg, Rect { x0: 10, y0: 150, x1: 20, y1: 170 }, &font);
    assert_eq!(p, Rect { x0: 0, y0: 150, x1: 320, y1: 200 });
    assert_eq!(s.get(30, 100), 0);
    // The window's content canvas lands under its title bar.
    let p = composite(&mut s, &wins, &canvases, Some(1), 0, 0, &bg, Rect { x0: 100, y0: 20, x1: 180, y1: 80 }, &font);
    assert_eq!(p, Rect { x0: 100, y0: 20, x1: 180, y1: 80 });
    assert_eq!(s.get(110, 60), 0);
    assert_ne!(s.get(101, 21), 0x222222);
}

#[test]
fn previous_ticks_by_pid() {
    let keys = [4u64, 9, 4, 12];
    let ticks = [40u64, 90, 41, 120];
    assert_eq!(lookup_prev(&keys, &ticks, 4, 4), 40);
    assert_eq!(lookup_prev(&keys, &ticks, 4, 12), 120);
    assert_eq!(lookup_prev(&keys, &ticks, 3, 12), 0);
    assert_eq!(lookup_prev(&keys, &ticks, 4, 7), 0);
}
