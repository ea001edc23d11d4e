use kazuos::programs::gui::desktop::{follow_positions, Desk, Motion, OpenPlan, Press, WinKind};
use kazuos::programs::gui::geometry::{TbHit, Win};

#[test]
fn desk_starts_with_the_launcher() {
    let d = Desk::new(1024, 768);
    let w = d.windows();
    assert_eq!(w.len(), 1);
    assert_eq!(w[0].id, 1);
    assert_eq!(w[0].geo, Win { x: 392, y: 284, w: 240, h: 200 });
    assert_eq!(w[0].kind, WinKind::Launcher);
    assert_eq!(d.focused(), Some(1));
}

#[test]
fn open_then_raise_the_task_manager() {
    let mut d = Desk::new(1024, 768);
    let plan = d.plan_open(1);
    let geo = match plan {
        OpenPlan::Create(WinKind::TaskMgr, g) => g,
        _ => panic!("create"),
    };
    assert_eq!(geo, Win { x: 90, y: 60, w: 540, h: 440 });
    let id = d.commit_open(WinKind::TaskMgr, geo);
    assert_eq!(id, 2);
    d.focus_front();
    assert_eq!(d.focused(), Some(2));
    // a second one raises the first
    assert_eq!(d.plan_open(1), OpenPlan::Raise(2));
    // a terminal is staggered
    match d.plan_open(2) {
        OpenPlan::Create(WinKind::Terminal, g) => assert_eq!(g, Win { x: 154, y: 120, w: 540, h: 320 }),
        _ => panic!("terminal"),
    }
}

#[test]
fn press_raises_focuses_and_drags() {
    let mut d = Desk::new(1024, 768);
    let id = d.commit_open(WinKind::Profiler, Win { x: 100, y: 100, w: 440, h: 260 });
    // click the launcher's body, which lies under the profiler nowhere here
    let (p, _) = d.press(400, 400, 1024, 768);
    assert_eq!(p, Press::Body(1, 400 - 396, 400 - 312, 232));
    assert_eq!(d.windows().last().unwrap().id, 1);
    assert_eq!(d.focused(), Some(1));
    assert_eq!(d.release(400, 400), Some((1, 4, 88, 232)));
    assert_eq!(d.release(400, 400), None);
    // grab the profiler's title bar and move it
    let (p, _) = d.press(150, 110, 1024, 768);
    assert_eq!(p, Press::Drag(id));
    assert_eq!(d.windows().last().unwrap().id, id);
    let m = d.motion(160, 130, 768);
    assert_eq!(m, Motion::Moved(Win { x: 100, y: 100, w: 440, h: 260 }, Win { x: 110, y: 120, w: 440, h: 260 }));
    // the title bar stays above the taskbar
    let m = d.motion(160, 767, 768);
    assert_eq!(m, Motion::Moved(Win { x: 110, y: 120, w: 440, h: 260 }, Win { x: 110, y: 700, w: 440, h: 260 }));
    d.button_state(false);
    assert_eq!(d.motion(170, 700, 768), Motion::Still);
}

#[test]
fn close_box_and_empty_desktop() {
    let mut d = Desk::new(1024, 768);
    let id = d.commit_open(WinKind::Terminal, Win { x: 100, y: 100, w: 540, h: 320 });
    // close box: x + w - 18 - 4 .. +18, y + 5 .. +18
    let (p, _) = d.press(630, 110, 1024, 768);
    assert_eq!(p, Press::Closed(id, WinKind::Terminal));
    assert_eq!(d.windows().len(), 1);
    assert_eq!(d.focused(), None);
    let (p, _) = d.press(5, 5, 1024, 768);
    assert_eq!(p, Press::Desktop);
    let (p, _) = d.press(10, 760, 1024, 768);
    assert!(matches!(p, Press::Taskbar(TbHit::Window(1))));
    assert_eq!(d.focused(), Some(1));
    assert_eq!(d.key_target(), Some(0));
}

#[test]
fn follow_positions_puts_items_in_window_order() {
    assert_eq!(follow_positions(&[5, 3, 9], &[9, 5, 7]), vec![Some(2), Some(0), None]);
    assert_eq!(follow_positions(&[], &[1]), vec![None]);
    assert_eq!(follow_positions(&[4, 4], &[4]), vec![Some(0)]);
}
