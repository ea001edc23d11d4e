use kazuos::task::scheduler::{entry_path, EntryPath};
use kazuos::task::thread::{create_user_thread, set_blocking_rsp, set_kernel_preempted, set_kernel_rsp};
use kazuos::usermem::{pci_bar_target, round_to_page, user_alloc_len, MapTable, UserMapping, HEAP_VA_BASE, MAX_USER_ALLOC};
use kazuos::task::process::{
    add_memory_bytes, count, init, kill_pid, memory_bytes, oom_victim, spawn, spawn_kernel_task, spawn_user_process,
    take_kill_pending, PrivilegeLevel, ProcessTable,
};
use kazuos::task::thread::ThreadTable;
use kazuos::terminal::console::{ConsoleAction, EscapeParser};
use kazuos::terminal::tty::{Key, Tty};
use kazuos::vfs::{
    create, lookup, metadata, mkdir, read_at, read_dir, read_file, rmdir, unlink, write_at, DirEntry, FileType, FsError, Metadata,
    RamFs, VfsNode,
};

/// A KFS image with no entries.
fn empty_image() -> Vec<u8> {
    let mut v = b"KFS\0".to_vec();
    v.extend_from_slice(&1u32.to_le_bytes());
    v.extend_from_slice(&0u32.to_le_bytes());
    v.resize(28, 0);
    v
}

fn fresh_fs() -> RamFs {
    let mut fs = RamFs::new();
    kazuos::vfs::init(&mut fs, &empty_image()).unwrap();
    fs
}

#[test]
fn vfs_read_after_write() {
    let mut fs = fresh_fs();
    let (node, generation) = create(&mut fs, "/notes.txt").unwrap();
    assert_eq!(write_at(&mut fs, node, generation, 0, b"hello"), 5);
    let mut buf = [0u8; 8];
    assert_eq!(read_at(&fs, node, generation, 1, &mut buf), 4);
    assert_eq!(&buf[..4], b"ello");
    let m = metadata(&fs, "/notes.txt").unwrap();
    assert_eq!((m.len, m.kind), (5, FileType::File));
    assert_eq!(lookup(&fs, "/notes.txt", None), Ok(VfsNode::File { node, generation, len: 5 }));
}

#[test]
fn vfs_unlink_and_stale_handles() {
    let mut fs = fresh_fs();
    let (node, generation) = create(&mut fs, "/a").unwrap();
    assert_eq!(create(&mut fs, "/a"), Err(FsError::AlreadyExists));
    unlink(&mut fs, "/a").unwrap();
    assert_eq!(lookup(&fs, "/a", None), Err(FsError::NotFound));
    let mut buf = [0u8; 4];
    assert_eq!(read_at(&fs, node, generation, 0, &mut buf), 0);
    assert_eq!(write_at(&mut fs, node, generation, 0, b"x"), 0);
}

#[test]
fn vfs_directories_and_errors() {
    let mut fs = fresh_fs();
    mkdir(&mut fs, "/d").unwrap();
    assert_eq!(lookup(&fs, "/d", None), Ok(VfsNode::Dir));
    create(&mut fs, "/d/f").unwrap();
    assert_eq!(rmdir(&mut fs, "/d"), Err(FsError::NotEmpty));
    unlink(&mut fs, "/d/f").unwrap();
    rmdir(&mut fs, "/d").unwrap();
    assert_eq!(lookup(&fs, "/d", None), Err(FsError::NotFound));
    assert_eq!(lookup(&fs, "relative", None), Err(FsError::InvalidPath));
    assert_eq!(lookup(&fs, "/dev/audio", Some(3)), Ok(VfsNode::Device(3)));
    let mut bad = RamFs::new();
    assert_eq!(kazuos::vfs::init(&mut bad, b"nope"), Err(FsError::InvalidImage));
}

#[test]
fn processes_spawn_kill_and_oom() {
    let mut pt = ProcessTable::new();
    let mut tt = ThreadTable::new();
    init(&mut pt, &mut tt);
    assert_eq!(count(&pt), 1);
    let pid = spawn_user_process(&mut pt, &mut tt, "shell", 0x400000, 0x7fff0000, 0x1000, PrivilegeLevel::User, 0, 0,
        Some(0x10_0000), 1, 0);
    assert!(pid != 0);
    assert_eq!(count(&pt), 2);
    let drv = spawn_kernel_task(&mut pt, &mut tt, "drv", 0x1234, PrivilegeLevel::Driver, Some(0x20_0000), 1, 0);
    assert!(drv != 0 && drv != pid);
    add_memory_bytes(&mut pt, pid, 4096);
    add_memory_bytes(&mut pt, drv, 8192);
    assert_eq!(memory_bytes(&pt, pid), Some(4096));
    // the driver is privileged, so the user process is the victim
    assert_eq!(oom_victim(&pt, 0), Some(pid));
    kill_pid(&mut pt, &mut tt, drv);
    assert!(!take_kill_pending(&mut pt, drv));
    kill_pid(&mut pt, &mut tt, pid);
    assert!(take_kill_pending(&mut pt, pid));
    assert!(!take_kill_pending(&mut pt, pid));
}

#[test]
fn tty_edits_and_submits() {
    let mut t = Tty::new(1000);
    t.handle_key(Key::Char('a'));
    t.handle_key(Key::Char('c'));
    t.handle_key(Key::Left);
    t.handle_key(Key::Char('b'));
    assert_eq!(t.input(), b"abc");
    t.handle_key(Key::Char('\x08'));
    assert_eq!(t.input(), b"ac");
    let out = t.handle_key(Key::Char('\n'));
    assert_eq!(out.line.unwrap().as_bytes(), b"ac");
    assert_eq!(t.input(), b"");
}

#[test]
fn console_escape_sequences() {
    let mut p = EscapeParser::new();
    assert!(matches!(p.feed('x'), ConsoleAction::Draw('x')));
    assert!(matches!(p.feed('\n'), ConsoleAction::Newline));
    assert!(matches!(p.feed('\x1b'), ConsoleAction::Nothing));
    assert!(matches!(p.feed('['), ConsoleAction::Nothing));
    assert!(matches!(p.feed('1'), ConsoleAction::Nothing));
    assert!(matches!(p.feed('2'), ConsoleAction::Nothing));
    assert!(matches!(p.feed(';'), ConsoleAction::Nothing));
    assert!(matches!(p.feed('5'), ConsoleAction::Nothing));
    match p.feed('H') {
        ConsoleAction::Csi { cmd, params, count } => {
            assert_eq!(cmd, 'H');
            assert_eq!(&params[..2], &[12, 5]);
            assert_eq!(count, 2);
        },
        _ => panic!("csi"),
    }
}

#[test]
fn user_alloc_sizes() {
    assert_eq!(round_to_page(1), 4096);
    assert_eq!(round_to_page(4096), 4096);
    assert_eq!(round_to_page(4097), 8192);
    assert_eq!(user_alloc_len(0), None);
    assert_eq!(user_alloc_len(10), Some(4096));
    assert_eq!(user_alloc_len(MAX_USER_ALLOC), Some(MAX_USER_ALLOC));
    assert_eq!(user_alloc_len(MAX_USER_ALLOC + 1), None);
}

#[test]
fn user_mappings_book() {
    let mut t = MapTable::new(HEAP_VA_BASE);
    let a = t.map(3, 0, 8192);
    let b = t.map(4, 0, 4096);
    let c = t.map(3, 0, 4096);
    assert_eq!(a, HEAP_VA_BASE);
    assert_eq!(b, HEAP_VA_BASE + 8192);
    assert_eq!(c, HEAP_VA_BASE + 12288);
    assert_eq!(t.next_va(), HEAP_VA_BASE + 16384);
    // Another process cannot free pid 3's block.
    assert_eq!(t.take(4, a), None);
    assert_eq!(t.take(3, a), Some(UserMapping { pid: 3, virt: a, phys: 0, size: 8192 }));
    assert_eq!(t.take(3, a), None);
    assert_eq!(t.len(), 2);
    // On exit, pid 3's remaining mapping goes; pid 4's stays.
    assert_eq!(t.take_any(3), Some(UserMapping { pid: 3, virt: c, phys: 0, size: 4096 }));
    assert_eq!(t.take_any(3), None);
    assert_eq!(t.len(), 1);
    assert_eq!(t.entry(0).pid, 4);
}

#[test]
fn bar_map_request() {
    assert_eq!(pci_bar_target(0x00_03_1F_02, 0), Some((0x03, 0x1F, 0x02, 0)));
    assert_eq!(pci_bar_target(0x01_00_00, 5), Some((1, 0, 0, 5)));
    assert_eq!(pci_bar_target(0x01_00_00, 6), None);
}

#[test]
fn entering_the_picked_thread() {
    let mut tt = ThreadTable::new();
    let tid = create_user_thread(&mut tt, 5, 0x40_0000, 0x7fff_0000, 0x9000, PrivilegeLevel::User, 0, 0, Some(0x10_0000), 1);
    assert!(tid != 0);
    match entry_path(&mut tt, tid) {
        EntryPath::User { ctx, stack_top } => {
            assert_eq!(ctx.rip, 0x40_0000);
            assert_eq!(ctx.cr3, 0x9000);
            assert_eq!(stack_top, 0x10_0000 + 65536);
        }
        other => panic!("unexpected {:?}", other),
    }
    set_kernel_rsp(&mut tt, tid, 0x10_8000);
    set_kernel_preempted(&mut tt, tid, true);
    assert_eq!(entry_path(&mut tt, tid), EntryPath::Preempted { rsp: 0x10_8000, cr3: 0x9000, stack_top: 0x11_0000 });
    set_blocking_rsp(&mut tt, tid, 0x10_f000, [0u64; 18]);
    assert_eq!(entry_path(&mut tt, tid), EntryPath::Blocked { rsp: 0x10_f000, retval: 0, cr3: 0x9000, stack_top: 0x11_0000 });
    // The pending return is consumed: next time the preemption shows.
    assert_eq!(entry_path(&mut tt, tid), EntryPath::Preempted { rsp: 0x10_8000, cr3: 0x9000, stack_top: 0x11_0000 });
    assert_eq!(entry_path(&mut tt, 999), EntryPath::Halt);
}

#[test]
fn tty_blink_follows_the_reading_after_drawing() {
    let mut t = Tty::new(1000);
    assert!(t.update_cursor(5));
    assert!(t.cursor_visible());
    t.schedule_blink(10);
    assert!(!t.update_cursor(500_009));
    assert!(t.update_cursor(500_010));
    assert!(!t.cursor_visible());
}

/// A KFS image with one entry: `path`, flagged `flags`, with `data` after it.
fn one_entry_image(path: &[u8], flags: u32, data: &[u8]) -> Vec<u8> {
    let mut v = b"KFS\0".to_vec();
    v.extend_from_slice(&1u32.to_le_bytes());
    v.extend_from_slice(&1u32.to_le_bytes());
    v.resize(28, 0);
    let data_off = (28 + 32 + path.len()) as u64;
    v.extend_from_slice(&(path.len() as u16).to_le_bytes());
    v.extend_from_slice(&0u16.to_le_bytes());
    v.extend_from_slice(&data_off.to_le_bytes());
    v.extend_from_slice(&(data.len() as u64).to_le_bytes());
    v.extend_from_slice(&flags.to_le_bytes());
    v.extend_from_slice(&[0u8; 8]);
    v.extend_from_slice(path);
    v.extend_from_slice(data);
    v
}

#[test]
fn vfs_init_synthesizes_parents_and_loads_data() {
    let image = one_entry_image(b"/bin/sh.kxe", 2, b"hi");
    assert_eq!(image.len(), 73);
    let mut fs = RamFs::new();
    assert_eq!(kazuos::vfs::init(&mut fs, &image), Ok(()));
    assert_eq!(metadata(&fs, "/bin"), Ok(Metadata { len: 0, kind: FileType::Directory }));
    assert_eq!(read_file(&fs, "/bin/sh.kxe"), Ok(b"hi".to_vec()));
    let mut out = [DirEntry::empty(); 4];
    assert_eq!(read_dir(&fs, "/", &mut out), Ok(1));
    assert_eq!(out[0].name(), "/bin");
}

#[test]
fn vfs_init_reports_bad_entries() {
    let mut fs = RamFs::new();
    // data past the end of the image
    let mut image = one_entry_image(b"/f", 2, b"hi");
    image.truncate(image.len() - 1);
    assert_eq!(kazuos::vfs::init(&mut fs, &image), Err(FsError::InvalidImage));
    // neither a file nor a directory; the root and the parent are left behind
    assert_eq!(kazuos::vfs::init(&mut fs, &one_entry_image(b"/d/x", 0, b"")), Err(FsError::InvalidImage));
    assert_eq!(metadata(&fs, "/d"), Ok(Metadata { len: 0, kind: FileType::Directory }));
    assert_eq!(metadata(&fs, "/d/x"), Err(FsError::NotFound));
    // a malformed path
    assert_eq!(kazuos::vfs::init(&mut fs, &one_entry_image(b"/a//b", 1, b"")), Err(FsError::InvalidPath));
    // a directory entry
    assert_eq!(kazuos::vfs::init(&mut fs, &one_entry_image(b"/etc", 1, b"")), Ok(()));
    assert_eq!(metadata(&fs, "/etc"), Ok(Metadata { len: 0, kind: FileType::Directory }));
}

#[test]
fn vfs_metadata_after_mkdir_create_write() {
    let mut fs = fresh_fs();
    assert_eq!(mkdir(&mut fs, "/d"), Ok(()));
    assert_eq!(create(&mut fs, "/d/f"), Ok((2, 0)));
    assert_eq!(write_at(&mut fs, 2, 0, 0, b"hello"), 5);
    assert_eq!(metadata(&fs, "/d"), Ok(Metadata { len: 0, kind: FileType::Directory }));
    assert_eq!(metadata(&fs, "/d/f"), Ok(Metadata { len: 5, kind: FileType::File }));
    assert_eq!(metadata(&fs, "/d/g"), Err(FsError::NotFound));
    assert_eq!(metadata(&fs, "d"), Err(FsError::InvalidPath));
}

#[test]
fn vfs_slot_reuse_bumps_generation() {
    let mut fs = fresh_fs();
    assert_eq!(create(&mut fs, "/a"), Ok((1, 0)));
    assert_eq!(unlink(&mut fs, "/a"), Ok(()));
    assert_eq!(create(&mut fs, "/b"), Ok((1, 1)));
    assert_eq!(lookup(&fs, "/b", None), Ok(VfsNode::File { node: 1, generation: 1, len: 0 }));
    assert_eq!(write_at(&mut fs, 1, 0, 0, b"x"), 0);
    assert_eq!(metadata(&fs, "/b"), Ok(Metadata { len: 0, kind: FileType::File }));
}

#[test]
fn vfs_mkdir_errors() {
    let mut fs = fresh_fs();
    assert_eq!(mkdir(&mut fs, "/a"), Ok(()));
    assert_eq!(create(&mut fs, "/f"), Ok((2, 0)));
    assert_eq!(mkdir(&mut fs, "/a"), Err(FsError::AlreadyExists));
    assert_eq!(mkdir(&mut fs, "/"), Err(FsError::AlreadyExists));
    assert_eq!(mkdir(&mut fs, "/x/y"), Err(FsError::NotFound));
    assert_eq!(mkdir(&mut fs, "/f/g"), Err(FsError::NotADirectory));
    assert_eq!(mkdir(&mut fs, "/a/"), Err(FsError::InvalidPath));
    assert_eq!(metadata(&fs, "/a"), Ok(Metadata { len: 0, kind: FileType::Directory }));
    assert_eq!(metadata(&fs, "/x"), Err(FsError::NotFound));
}

#[test]
fn spawn_pids_increase_and_failed_spawn_keeps_the_table() {
    let mut pt = ProcessTable::new();
    let mut tt = ThreadTable::new();
    let p1 = spawn(&mut pt, &mut tt, "a", Some(0x10_0000), 1, 0);
    assert!(p1 != 0);
    assert_eq!(spawn(&mut pt, &mut tt, "b", None, 1, 0), 0);
    assert_eq!(count(&pt), 2);
    let p2 = spawn(&mut pt, &mut tt, "c", Some(0x20_0000), 1, 0);
    assert!(p2 > p1);
    assert_eq!(count(&pt), 3);
}
