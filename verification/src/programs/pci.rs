//! `lspci`: the `BB:DD.F` slot text, raw ids in hex, and the name lookups
//! (the program holds the name tables; the keys are searched here).
use vstd::prelude::*;

verus! {

pub open spec fn hex_digit(d: int) -> u8 {
    if d < 10 { (0x30 + d) as u8 } else { (0x61 + d - 10) as u8 }
}

pub open spec fn hex2_spec(v: u8) -> Seq<u8> {
    seq![hex_digit(v as int / 16), hex_digit(v as int % 16)]
}

pub open spec fn hex4_spec(v: u16) -> Seq<u8> {
    hex2_spec((v / 256) as u8) + hex2_spec((v % 256) as u8)
}

fn hex_char(d: u8) -> (c: u8)
    requires
        d < 16,
    ensures
        c == hex_digit(d as int),
{
    if d < 10 { 0x30 + d } else { 0x61 + d - 10 }
}

fn push_hex2(out: &mut Vec<u8>, v: u8)
    ensures
        final(out)@ == old(out)@ + hex2_spec(v),
{
    let ghost o = out@;
    out.push(hex_char(v / 16));
    out.push(hex_char(v % 16));
    assert(out@ =~= o + hex2_spec(v));
}

/// A device's place: bus and device in two hex digits each, and the function.
pub open spec fn slot_text(bus: u8, dev: u8, func: u8) -> Seq<u8> {
    hex2_spec(bus) + seq![0x3au8] + hex2_spec(dev) + seq![0x2eu8, (0x30 + func % 8) as u8]
}

pub fn slot_name(bus: u8, dev: u8, func: u8) -> (v: Vec<u8>)
    ensures
        v@ == slot_text(bus, dev, func),
{
    let mut v: Vec<u8> = Vec::new();
    push_hex2(&mut v, bus);
    v.push(0x3a);
    push_hex2(&mut v, dev);
    v.push(0x2e);
    v.push(0x30 + func % 8);
    assert(v@ =~= slot_text(bus, dev, func));
    v
}

/// Vendor and device ids as `vvvv:dddd`.
pub open spec fn ids_spec(vendor: u16, device: u16) -> Seq<u8> {
    hex4_spec(vendor) + seq![0x3au8] + hex4_spec(device)
}

pub fn ids_text(vendor: u16, device: u16) -> (v: Vec<u8>)
    ensures
        v@ == ids_spec(vendor, device),
{
    let mut v: Vec<u8> = Vec::new();
    push_hex2(&mut v, (vendor / 256) as u8);
    push_hex2(&mut v, (vendor % 256) as u8);
    v.push(0x3a);
    push_hex2(&mut v, (device / 256) as u8);
    push_hex2(&mut v, (device % 256) as u8);
    assert(v@ =~= ids_spec(vendor, device));
    v
}

/// The first key equal to `k`, or -1.
pub open spec fn key_index<K>(keys: Seq<K>, k: K) -> int
    decreases keys.len(),
{
    if keys.len() == 0 {
        -1
    } else if keys[0] == k {
        0
    } else if key_index(keys.drop_first(), k) < 0 {
        -1
    } else {
        key_index(keys.drop_first(), k) + 1
    }
}

pub proof fn lemma_key_index<K>(keys: Seq<K>, k: K)
    ensures
        -1 <= key_index(keys, k) < keys.len(),
        key_index(keys, k) >= 0 ==> keys[key_index(keys, k)] == k,
        forall|j: int| 0 <= j < keys.len() && (key_index(keys, k) < 0 || j < key_index(keys, k)) ==> keys[j] != k,
    decreases keys.len(),
{
    if keys.len() > 0 && keys[0] != k {
        lemma_key_index(keys.drop_first(), k);
        assert forall|j: int| 0 <= j < keys.len() && (key_index(keys, k) < 0 || j < key_index(keys, k)) implies keys[j] != k by {
            if j > 0 {
                assert(keys[j] == keys.drop_first()[j - 1]);
            }
        }
    }
}

fn find_class_key(keys: &[(u8, u8)], k: (u8, u8)) -> (r: Option<usize>)
    ensures
        match r {
            Some(i) => key_index(keys@, k) == i,
            None => key_index(keys@, k) < 0,
        },
{
    proof {
        lemma_key_index(keys@, k);
    }
    let mut i: usize = 0;
    while i < keys.len()
        invariant
            i <= keys@.len(),
            -1 <= key_index(keys@, k) < keys@.len(),
            key_index(keys@, k) >= 0 ==> keys@[key_index(keys@, k)] == k,
            forall|j: int| 0 <= j < keys@.len() && (key_index(keys@, k) < 0 || j < key_index(keys@, k)) ==> keys@[j] != k,
            forall|j: int| 0 <= j < i ==> keys@[j] != k,
        decreases keys@.len() - i,
    {
        if keys[i].0 == k.0 && keys[i].1 == k.1 {
            return Some(i);
        }
        i = i + 1;
    }
    None
}

/// The class-name entry for `(class, sub)`: the exact pair, else the
/// class's "other" entry (subclass 0x80), else none.
pub open spec fn class_entry(keys: Seq<(u8, u8)>, class: u8, sub: u8) -> int {
    if key_index(keys, (class, sub)) >= 0 { key_index(keys, (class, sub)) } else { key_index(keys, (class, 0x80u8)) }
}

pub fn class_index(keys: &[(u8, u8)], class: u8, sub: u8) -> (r: Option<usize>)
    ensures
        match r {
            Some(i) => class_entry(keys@, class, sub) == i,
            None => class_entry(keys@, class, sub) < 0,
        },
{
    match find_class_key(keys, (class, sub)) {
        Some(i) => Some(i),
        None => find_class_key(keys, (class, 0x80)),
    }
}

/// The device-name entry for `(vendor, device)`.
pub fn device_index(keys: &[(u16, u16)], vendor: u16, device: u16) -> (r: Option<usize>)
    ensures
        match r {
            Some(i) => key_index(keys@, (vendor, device)) == i,
            None => key_index(keys@, (vendor, device)) < 0,
        },
{
    proof {
        lemma_key_index(keys@, (vendor, device));
    }
    let mut i: usize = 0;
    while i < keys.len()
        invariant
            i <= keys@.len(),
            -1 <= key_index(keys@, (vendor, device)) < keys@.len(),
            key_index(keys@, (vendor, device)) >= 0 ==> keys@[key_index(keys@, (vendor, device))] == (vendor, device),
            forall|j: int| 0 <= j < keys@.len() && (key_index(keys@, (vendor, device)) < 0 || j < key_index(keys@, (vendor, device))) ==> keys@[j] != (vendor, device),
            forall|j: int| 0 <= j < i ==> keys@[j] != (vendor, device),
        decreases keys@.len() - i,
    {
        if keys[i].0 == vendor && keys[i].1 == device {
            return Some(i);
        }
        i = i + 1;
    }
    None
}

/// The configuration-space address (for port 0xCF8) of register `off` of
/// bus `bus`, device `dev`, function `func`: the enable bit, then the place,
/// then the register's dword.
pub open spec fn config_address_spec(bus: u8, dev: u8, func: u8, off: u8) -> u32 {
    (0x8000_0000 + bus * 0x10000 + dev * 0x800 + func * 0x100 + (off / 4) * 4) as u32
}

pub fn config_address(bus: u8, dev: u8, func: u8, off: u8) -> (a: u32)
    requires
        dev < 32,
        func < 8,
    ensures
        a == config_address_spec(bus, dev, func, off),
{
    let a = 0x8000_0000u32 | ((bus as u32) << 16) | ((dev as u32) << 11) | ((func as u32) << 8) | ((off as u32) & 0xFC);
    assert(a == 0x8000_0000 + bus * 0x10000 + dev * 0x800 + func * 0x100 + (off / 4) * 4) by (bit_vector)
        requires
            dev < 32,
            func < 8,
            a == 0x8000_0000u32 | ((bus as u32) << 16) | ((dev as u32) << 11) | ((func as u32) << 8) | ((off as u32) & 0xFC),
    ;
    a
}

/// The 16-bit register at `off` within the dword `d` read from `off`'s dword:
/// its upper half when `off` is 2 past the dword, else its lower half.
pub open spec fn half_at(d: u32, off: u8) -> u16 {
    if (off / 2) % 2 == 1 { (d / 0x10000) as u16 } else { (d % 0x10000) as u16 }
}

pub fn config_half(d: u32, off: u8) -> (h: u16)
    ensures
        h == half_at(d, off),
{
    assert(off & 2 != 0 <==> (off / 2) % 2 == 1) by (bit_vector);
    assert((d >> 16) as u16 == d / 0x10000) by (bit_vector);
    assert(d as u16 == d % 0x10000) by (bit_vector);
    if off & 2 != 0 { (d >> 16) as u16 } else { d as u16 }
}

/// The dword `d` with the 16-bit register at `off` replaced by `val`.
pub open spec fn with_half_spec(d: u32, off: u8, val: u16) -> u32 {
    if (off / 2) % 2 == 1 { (val * 0x10000 + d % 0x10000) as u32 } else { ((d / 0x10000) * 0x10000 + val) as u32 }
}

pub fn config_with_half(d: u32, off: u8, val: u16) -> (n: u32)
    ensures
        n == with_half_spec(d, off, val),
        half_at(n, off) == val,
{
    assert(off & 2 != 0 <==> (off / 2) % 2 == 1) by (bit_vector);
    let n = if off & 2 != 0 { (d & 0x0000_FFFF) | ((val as u32) << 16) } else { (d & 0xFFFF_0000) | val as u32 };
    assert((d & 0x0000_FFFF) | ((val as u32) << 16) == val * 0x10000 + d % 0x10000) by (bit_vector);
    assert((d & 0xFFFF_0000) | val as u32 == (d / 0x10000) * 0x10000 + val) by (bit_vector);
    n
}

} // verus!
