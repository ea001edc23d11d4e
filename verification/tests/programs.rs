use kazuos::kxe::KxeHeader;
use kazuos::programs::args::{parse_leading_u64, parse_u32, parse_u64, thread_count};
use kazuos::programs::mouse::{event_message, kkm_info, kkm_run, mouse_byte_ready, PacketDecoder};
use kazuos::programs::pager::{line_at, line_starts, rows_for, status_bar, Pager, KEY_DOWN, KEY_UP};
use kazuos::programs::pci::{class_index, device_index, ids_text, slot_name};
use kazuos::programs::report::{bar, kernel_mem_kib, padded, pct10, pct10_n, ps_pct10, ps_state, row, sep, thread_row};

#[test]
fn decimal_arguments() {
    assert_eq!(parse_u32(b"440"), Some(440));
    assert_eq!(parse_u32(b""), None);
    assert_eq!(parse_u32(b"4294967295"), Some(u32::MAX));
    assert_eq!(parse_u32(b"4294967296"), None);
    assert_eq!(parse_u32(b"12a"), None);
    assert_eq!(parse_u64(b""), Some(0));
    assert_eq!(parse_u64(b"18446744073709551615"), Some(u64::MAX));
    assert_eq!(parse_u64(b"18446744073709551616"), None);
    assert_eq!(parse_leading_u64(b"12x5"), 12);
    assert_eq!(parse_leading_u64(b"x"), 0);
    assert_eq!(parse_leading_u64(b"18446744073709551616"), 0);
    assert_eq!(thread_count(None), 1);
    assert_eq!(thread_count(Some(b"0")), 1);
    assert_eq!(thread_count(Some(b"8")), 8);
    assert_eq!(thread_count(Some(b"500")), 64);
}

#[test]
fn mouse_packets() {
    let i = kkm_info();
    assert_eq!(i.name, "ps2mouse");
    assert!(i.depends.is_empty());
    let mut d = PacketDecoder::new();
    // a byte without bit 3 is skipped; then flags (left button, x negative), dx, dy
    let ev = kkm_run(&mut d, &[0x00, 0x19, 0xfe, 0x05]);
    assert_eq!(ev, vec![event_message(1, -2, 5)]);
    assert_eq!(event_message(1, -2, 5), vec![1, 0xfe, 0xff, 5, 0]);
    assert_eq!(d.idx, 0);
    assert_eq!(d.feed(0x08), None);
    assert_eq!(d.feed(0x03), None);
    assert_eq!(d.feed(0x04), Some((0, 3, 4)));
    assert!(mouse_byte_ready(0x21));
    assert!(!mouse_byte_ready(0x01));
    assert!(!mouse_byte_ready(0x20));
}

#[test]
fn pager_lines_and_keys() {
    let text = b"one\r\ntwo\nthree\n";
    let starts = line_starts(text);
    assert_eq!(starts, vec![0, 5, 9]);
    assert_eq!(line_at(text, 0), b"one");
    assert_eq!(line_at(text, 5), b"two");
    assert_eq!(line_at(text, 9), b"three");
    assert_eq!(rows_for(25u64 << 32 | 80), 24);
    assert_eq!(rows_for(0), 23);
    let mut p = Pager::new(100, 24);
    assert!(p.key(b' '));
    assert_eq!(p.top, 24);
    assert!(p.key(b'b'));
    assert_eq!(p.top, 0);
    assert!(p.key(KEY_UP));
    assert_eq!(p.top, 0);
    assert!(p.key(KEY_DOWN));
    assert_eq!(p.top, 1);
    for _ in 0..10 {
        p.key(b'f');
    }
    assert_eq!(p.top, 76);
    assert!(!p.key(b'q'));
    assert_eq!(p.top, 76);
    let s = status_bar(p);
    assert_eq!(s, b"\x1b[7m (END)  lines 100/100  100%  q:quit  space/b:page  j/k:line \x1b[0m".to_vec());
    let s = status_bar(Pager::new(100, 24));
    assert_eq!(s, b"\x1b[7m  lines 24/100  24%  q:quit  space/b:page  j/k:line \x1b[0m".to_vec());
}

#[test]
fn pci_text_and_lookups() {
    assert_eq!(slot_name(0, 0x1f, 11), b"00:1f.3".to_vec());
    assert_eq!(ids_text(0x8086, 0x2415), b"8086:2415".to_vec());
    let classes = [(0x01u8, 0x01u8), (0x02, 0x00), (0x02, 0x80)];
    assert_eq!(class_index(&classes, 0x02, 0x00), Some(1));
    assert_eq!(class_index(&classes, 0x02, 0x07), Some(2));
    assert_eq!(class_index(&classes, 0x03, 0x00), None);
    let devices = [(0x8086u16, 0x100eu16), (0x1234, 0x1111)];
    assert_eq!(device_index(&devices, 0x1234, 0x1111), Some(1));
    assert_eq!(device_index(&devices, 0x1234, 0x1112), None);
}

#[test]
fn process_table_lines() {
    assert_eq!(ps_pct10(1, 4), 250);
    assert_eq!(ps_pct10(5, 4), 999);
    assert_eq!(ps_pct10(5, 0), 0);
    assert_eq!(pct10(5, 4), 1000);
    assert_eq!(pct10_n(1, 4, 4), 1000);
    assert_eq!(pct10_n(4, 4, 4), 4000);
    assert_eq!(padded(42, 4), b"  42".to_vec());
    assert_eq!(padded(0, 3), b"  0".to_vec());
    assert_eq!(padded(123456, 3), b"456".to_vec());
    assert_eq!(
        row(7, b"Running", 253, 1024, b"shell"),
        b"     7  Running   25.3%    1024KiB  shell\r\n".to_vec()
    );
    assert_eq!(thread_row(3, b"Sleep  ", 5, 1), b"      `- t  3  Sleep      0.5%  cpu1\r\n".to_vec());
    assert_eq!(bar(500, 1000, 4), b"##  ".to_vec());
    assert_eq!(bar(5000, 1000, 4), b"####".to_vec());
    assert_eq!(sep(3), b"---\r\n".to_vec());
    assert_eq!(sep(200).len(), 98);
    assert_eq!(ps_state(2), "Running");
    assert_eq!(ps_state(3), "Sleep  ");
    assert_eq!(ps_state(9), "?      ");
    assert_eq!(kernel_mem_kib(100, 30), 70);
    assert_eq!(kernel_mem_kib(10, 30), 0);
}

#[test]
fn kxe_header_fields() {
    let mut b = vec![b'K', b'X', b'E', 0];
    b.extend_from_slice(&0x1000u64.to_le_bytes());
    b.extend_from_slice(&36u64.to_le_bytes());
    b.extend_from_slice(&0x200u64.to_le_bytes());
    b.extend_from_slice(&1u32.to_le_bytes());
    b.extend_from_slice(&0u32.to_le_bytes());
    let h = KxeHeader::read(&b).unwrap();
    assert_eq!(h.magic, *b"KXE\0");
    assert_eq!((h.entry, h.code_offset, h.code_size, h.flags, h.reserved), (0x1000, 36, 0x200, 1, 0));
    assert!(KxeHeader::read(&b[..35]).is_none());
}
