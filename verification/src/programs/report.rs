//! The process tables that `ps` and `ktop` print: percentages in tenths,
//! right-aligned columns, the load bars of `ktop`. The programs read the
//! counters and write the lines; the lines are made here.
use vstd::prelude::*;
use vstd::string::StringSliceAdditionalSpecFns;
use crate::bytes::push_all;
use crate::text::{dec_digits, fmt_dec, lemma_u64_digits};

verus! {

pub open spec fn wmul(a: u64, b: u64) -> u64 {
    vstd::wrapping::u64_specs::wrapping_mul(a, b)
}

/// `ps`: a share of `total` ticks in tenths of a percent, below 100%.
pub open spec fn ps_share(ticks: u64, total: u64) -> u64 {
    if total > 0 {
        if wmul(ticks, 1000) / total <= 999 { wmul(ticks, 1000) / total } else { 999 }
    } else {
        0
    }
}

pub fn ps_pct10(ticks: u64, total: u64) -> (p: u64)
    ensures
        p == ps_share(ticks, total),
{
    if total > 0 {
        let q = ticks.wrapping_mul(1000) / total;
        if q <= 999 { q } else { 999 }
    } else {
        0
    }
}

/// `ktop`: a share in tenths of a percent, at most 100%.
pub open spec fn top_share(part: u64, total: u64) -> u64 {
    if total > 0 {
        if wmul(part, 1000) / total <= 1000 { wmul(part, 1000) / total } else { 1000 }
    } else {
        0
    }
}

pub fn pct10(part: u64, total: u64) -> (p: u64)
    ensures
        p == top_share(part, total),
{
    if total > 0 {
        let q = part.wrapping_mul(1000) / total;
        if q <= 1000 { q } else { 1000 }
    } else {
        0
    }
}

/// `ktop`'s per-process share: one fully used core is 100%, so `n` cores
/// top out at `n` times 100%.
pub open spec fn top_share_n(part: u64, total: u64, n: u64) -> u64 {
    if total > 0 {
        let q = wmul(wmul(part, 1000), n) / total;
        if q <= wmul(n, 1000) { q } else { wmul(n, 1000) }
    } else {
        0
    }
}

pub fn pct10_n(part: u64, total: u64, n: u64) -> (p: u64)
    ensures
        p == top_share_n(part, total, n),
{
    if total > 0 {
        let q = part.wrapping_mul(1000).wrapping_mul(n) / total;
        let cap = n.wrapping_mul(1000);
        if q <= cap { q } else { cap }
    } else {
        0
    }
}

/// `n` right-aligned in `w` columns: its last `w` digits when it has more.
pub open spec fn padded_spec(n: u64, w: nat) -> Seq<u8> {
    let d = dec_digits(n as nat);
    if d.len() <= w {
        Seq::new((w - d.len()) as nat, |i: int| 0x20u8) + d
    } else {
        d.subrange(d.len() - w, d.len() as int)
    }
}

pub fn padded(n: u64, w: usize) -> (v: Vec<u8>)
    requires
        1 <= w <= 20,
    ensures
        v@ == padded_spec(n, w as nat),
{
    proof {
        lemma_u64_digits(n);
    }
    let d = fmt_dec(n);
    let mut v: Vec<u8> = Vec::new();
    if d.len() <= w {
        let pad = w - d.len();
        let mut i: usize = 0;
        while i < pad
            invariant
                i <= pad,
                v@ == Seq::new(i as nat, |k: int| 0x20u8),
            decreases pad - i,
        {
            v.push(0x20);
            i = i + 1;
            assert(v@ =~= Seq::new(i as nat, |k: int| 0x20u8));
        }
        push_all(&mut v, d.as_slice());
    } else {
        let start = d.len() - w;
        let mut i: usize = start;
        while i < d.len()
            invariant
                start <= i <= d@.len(),
                v@ == d@.subrange(start as int, i as int),
            decreases d@.len() - i,
        {
            v.push(d[i]);
            i = i + 1;
            assert(v@ =~= d@.subrange(start as int, i as int));
        }
    }
    v
}

/// A share in tenths as `NNN.N%`.
pub open spec fn pct_text(p10: u64) -> Seq<u8> {
    padded_spec(p10 / 10, 3) + seq![0x2eu8, (0x30 + p10 % 10) as u8, 0x25u8]
}

/// A process line of `ps` and `ktop`: pid, state, CPU share, memory and name.
pub open spec fn row_spec(pid: u64, state: Seq<u8>, p10: u64, mem_kib: u64, name: Seq<u8>) -> Seq<u8> {
    "  ".spec_bytes() + padded_spec(pid, 4) + "  ".spec_bytes() + state + "  ".spec_bytes() + pct_text(p10)
        + "  ".spec_bytes() + padded_spec(mem_kib, 6) + "KiB  ".spec_bytes() + name + "\r\n".spec_bytes()
}

fn push_pct(v: &mut Vec<u8>, p10: u64)
    ensures
        final(v)@ == old(v)@ + pct_text(p10),
{
    let ghost o = v@;
    let a = padded(p10 / 10, 3);
    push_all(v, a.as_slice());
    v.push(0x2e);
    v.push(0x30 + (p10 % 10) as u8);
    v.push(0x25);
    assert(v@ =~= o + pct_text(p10));
}

pub fn row(pid: u64, state: &[u8], p10: u64, mem_kib: u64, name: &[u8]) -> (v: Vec<u8>)
    ensures
        v@ == row_spec(pid, state@, p10, mem_kib, name@),
{
    let mut v: Vec<u8> = Vec::new();
    push_all(&mut v, "  ".as_bytes());
    let a = padded(pid, 4);
    push_all(&mut v, a.as_slice());
    push_all(&mut v, "  ".as_bytes());
    push_all(&mut v, state);
    push_all(&mut v, "  ".as_bytes());
    push_pct(&mut v, p10);
    push_all(&mut v, "  ".as_bytes());
    let m = padded(mem_kib, 6);
    push_all(&mut v, m.as_slice());
    push_all(&mut v, "KiB  ".as_bytes());
    push_all(&mut v, name);
    push_all(&mut v, "\r\n".as_bytes());
    v
}

/// A thread line of `ktop`: tid, state, CPU share and the CPU it last ran on.
pub open spec fn thread_row_spec(tid: u64, state: Seq<u8>, p10: u64, cpu: u64) -> Seq<u8> {
    "      `- t".spec_bytes() + padded_spec(tid, 3) + "  ".spec_bytes() + state + "  ".spec_bytes() + pct_text(p10)
        + "  cpu".spec_bytes() + dec_digits(cpu as nat) + "\r\n".spec_bytes()
}

pub fn thread_row(tid: u64, state: &[u8], p10: u64, cpu: u64) -> (v: Vec<u8>)
    ensures
        v@ == thread_row_spec(tid, state@, p10, cpu),
{
    let mut v: Vec<u8> = Vec::new();
    push_all(&mut v, "      `- t".as_bytes());
    let a = padded(tid, 3);
    push_all(&mut v, a.as_slice());
    push_all(&mut v, "  ".as_bytes());
    push_all(&mut v, state);
    push_all(&mut v, "  ".as_bytes());
    push_pct(&mut v, p10);
    push_all(&mut v, "  cpu".as_bytes());
    let c = fmt_dec(cpu);
    push_all(&mut v, c.as_slice());
    push_all(&mut v, "\r\n".as_bytes());
    v
}

/// A load bar `width` wide: `#` for the share of `max`, spaces after.
pub open spec fn bar_spec(p10: u64, max: u64, width: nat) -> Seq<u8> {
    let q = wmul(p10, width as u64) / max;
    let filled = if q <= width { q as nat } else { width };
    Seq::new(width, |i: int| if i < filled { 0x23u8 } else { 0x20u8 })
}

pub fn bar(p10: u64, max: u64, width: usize) -> (v: Vec<u8>)
    requires
        max > 0,
        width <= u64::MAX,
    ensures
        v@ == bar_spec(p10, max, width as nat),
{
    let q = p10.wrapping_mul(width as u64) / max;
    let filled: usize = if q <= width as u64 { q as usize } else { width };
    let mut v: Vec<u8> = Vec::new();
    let mut i: usize = 0;
    while i < width
        invariant
            i <= width,
            filled <= width,
            v@ == Seq::new(i as nat, |k: int| if k < filled { 0x23u8 } else { 0x20u8 }),
        decreases width - i,
    {
        v.push(if i < filled { 0x23 } else { 0x20 });
        i = i + 1;
        assert(v@ =~= Seq::new(i as nat, |k: int| if k < filled { 0x23u8 } else { 0x20u8 }));
    }
    v
}

/// A separator of dashes as wide as the terminal, at most 96.
pub open spec fn sep_spec(cols: usize) -> Seq<u8> {
    Seq::new(if cols <= 96 { cols as nat } else { 96 }, |i: int| 0x2du8) + "\r\n".spec_bytes()
}

pub fn sep(cols: usize) -> (v: Vec<u8>)
    ensures
        v@ == sep_spec(cols),
{
    let n = if cols <= 96 { cols } else { 96 };
    let mut v: Vec<u8> = Vec::new();
    let mut i: usize = 0;
    while i < n
        invariant
            i <= n,
            v@ == Seq::new(i as nat, |k: int| 0x2du8),
        decreases n - i,
    {
        v.push(0x2d);
        i = i + 1;
        assert(v@ =~= Seq::new(i as nat, |k: int| 0x2du8));
    }
    push_all(&mut v, "\r\n".as_bytes());
    v
}

/// The state column of `ps`.
pub fn ps_state(state: u64) -> (s: &'static str)
    ensures
        (state == 1 || state == 2) ==> s@ == "Running"@,
        state == 3 ==> s@ == "Sleep  "@,
        !(1 <= state <= 3) ==> s@ == "?      "@,
{
    match state {
        1 | 2 => "Running",
        3 => "Sleep  ",
        _ => "?      ",
    }
}

/// `ps`'s kernel memory: what is in use and not held by user processes.
pub fn kernel_mem_kib(used_kib: u64, user_kib: u64) -> (k: u64)
    ensures
        k == (if used_kib >= user_kib { (used_kib - user_kib) as u64 } else { 0 }),
{
    used_kib.saturating_sub(user_kib)
}

/// The previous tick count recorded for `key` among the first `n` entries:
/// that of the first entry with that key, or 0 for a newcomer.
pub open spec fn prev_of(keys: Seq<u64>, ticks: Seq<u64>, n: int, key: u64) -> u64 {
    if exists|i: int| 0 <= i < n && keys[i] == key {
        let i = choose|i: int| 0 <= i < n && keys[i] == key && forall|j: int| 0 <= j < i ==> keys[j] != key;
        ticks[i]
    } else {
        0
    }
}

/// The tick count a process had at the previous refresh (0 if it is new).
pub fn lookup_prev(keys: &[u64], ticks: &[u64], n: usize, key: u64) -> (t: u64)
    requires
        n <= keys@.len(),
        n <= ticks@.len(),
    ensures
        t == prev_of(keys@, ticks@, n as int, key),
{
    let mut i: usize = 0;
    while i < n
        invariant
            i <= n,
            n <= keys@.len(),
            n <= ticks@.len(),
            forall|j: int| 0 <= j < i ==> keys@[j] != key,
        decreases n - i,
    {
        if keys[i] == key {
            proof {
                let w = choose|w: int| 0 <= w < n && keys@[w] == key && forall|j: int| 0 <= j < w ==> keys@[j] != key;
                assert(0 <= i < n && keys@[i as int] == key && forall|j: int| 0 <= j < i ==> keys@[j] != key);
                if w < i {
                    assert(keys@[w] != key);
                }
                if w > i {
                    assert(keys@[i as int] != key);
                }
            }
            return ticks[i];
        }
        i = i + 1;
    }
    0
}

} // verus!
