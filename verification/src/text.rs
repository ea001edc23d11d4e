//! Text helpers: UTF-8 checking of byte buffers and decimal formatting.
use vstd::prelude::*;
use vstd::utf8::valid_utf8;
use vstd::string::StringSliceAdditionalSpecFns;

verus! {

/// `core::str::from_utf8`: the bytes as a string exactly when they are valid
/// UTF-8; the string then holds those very bytes.
#[verifier::external_body]
pub(crate) fn str_from_utf8(v: &[u8]) -> (r: Option<&str>)
    ensures
        match r {
            Some(s) => valid_utf8(v@) && s.spec_bytes() == v@,
            None => !valid_utf8(v@),
        },
{
    core::str::from_utf8(v).ok()
}


/// `10^k`.
pub open spec fn pow10(k: nat) -> nat
    decreases k,
{
    if k == 0 { 1 } else { 10 * pow10((k - 1) as nat) }
}

/// The decimal digits of `n`, most significant first, without leading zeros
/// (a single `0` for zero).
pub open spec fn dec_digits(n: nat) -> Seq<u8>
    decreases n,
{
    if n < 10 {
        seq![(0x30 + n) as u8]
    } else {
        dec_digits(n / 10).push((0x30 + n % 10) as u8)
    }
}

pub proof fn lemma_dec_len(n: nat, k: nat)
    requires
        k >= 1,
        n < pow10(k),
    ensures
        1 <= dec_digits(n).len() <= k,
    decreases n,
{
    if n >= 10 {
        assert(k >= 2) by {
            if k == 1 {
                assert(pow10(1) == 10) by {
                    reveal_with_fuel(pow10, 2);
                }
            }
        }
        assert(n / 10 < pow10((k - 1) as nat)) by (nonlinear_arith)
            requires
                n < pow10(k),
                pow10(k) == 10 * pow10((k - 1) as nat),
        ;
        lemma_dec_len(n / 10, (k - 1) as nat);
    }
}

/// Every `u64` has at most 20 decimal digits.
pub proof fn lemma_u64_digits(n: u64)
    ensures
        1 <= dec_digits(n as nat).len() <= 20,
{
    assert(pow10(20) == 100000000000000000000) by {
        reveal_with_fuel(pow10, 21);
    }
    lemma_dec_len(n as nat, 20);
}

/// The decimal digits of `n`.
pub fn fmt_dec(n: u64) -> (v: Vec<u8>)
    ensures
        v@ == dec_digits(n as nat),
        1 <= v@.len() <= 20,
{
    proof {
        lemma_u64_digits(n);
    }
    let mut rev: Vec<u8> = Vec::new();
    let mut m = n;
    rev.push(0x30u8 + (m % 10) as u8);
    m = m / 10;
    while m > 0
        invariant
            rev@.len() >= 1,
            m > 0 ==> dec_digits(n as nat) == dec_digits(m as nat) + rev@.reverse(),
            m == 0 ==> dec_digits(n as nat) == rev@.reverse(),
        decreases m,
    {
        let ghost before = rev@;
        proof {
            if m >= 10 {
                assert(dec_digits(m as nat) == dec_digits((m / 10) as nat).push((0x30 + m % 10) as u8));
            }
        }
        rev.push(0x30u8 + (m % 10) as u8);
        proof {
            assert(rev@.reverse() =~= seq![(0x30 + m % 10) as u8] + before.reverse());
            if m >= 10 {
                assert(dec_digits(m as nat) + before.reverse() =~= dec_digits((m / 10) as nat) + rev@.reverse());
            } else {
                assert(dec_digits(m as nat) =~= seq![(0x30 + m % 10) as u8]);
            }
        }
        m = m / 10;
    }
    let mut out: Vec<u8> = Vec::new();
    let mut k: usize = rev.len();
    while k > 0
        invariant
            k <= rev@.len(),
            out@ == rev@.subrange(k as int, rev@.len() as int).reverse(),
        decreases k,
    {
        k = k - 1;
        out.push(rev[k]);
        assert(out@ =~= rev@.subrange(k as int, rev@.len() as int).reverse());
    }
    assert(rev@.subrange(0, rev@.len() as int) =~= rev@);
    out
}


/// The digit character for `d < 10`.
pub open spec fn digit(d: int) -> u8 {
    (0x30 + d) as u8
}

/// `up H:MM:SS` for an uptime of `secs` seconds.
pub open spec fn uptime_text(secs: u64) -> Seq<u8> {
    let h = secs / 3600;
    let m = (secs % 3600) / 60;
    let s = secs % 60;
    seq![0x75u8, 0x70u8, 0x20u8] + dec_digits(h as nat) + seq![
        0x3au8,
        digit((m / 10) as int),
        digit((m % 10) as int),
        0x3au8,
        digit((s / 10) as int),
        digit((s % 10) as int),
    ]
}

/// The taskbar clock: `up H:MM:SS`.
pub fn fmt_uptime(secs: u64) -> (v: Vec<u8>)
    ensures
        v@ == uptime_text(secs),
{
    let h = secs / 3600;
    let m = (secs % 3600) / 60;
    let s = secs % 60;
    let mut v: Vec<u8> = Vec::new();
    v.push(0x75);
    v.push(0x70);
    v.push(0x20);
    let hd = fmt_dec(h);
    let mut i: usize = 0;
    while i < hd.len()
        invariant
            i <= hd@.len(),
            v@ == seq![0x75u8, 0x70u8, 0x20u8] + hd@.subrange(0, i as int),
        decreases hd@.len() - i,
    {
        v.push(hd[i]);
        i = i + 1;
        assert(v@ =~= seq![0x75u8, 0x70u8, 0x20u8] + hd@.subrange(0, i as int));
    }
    assert(hd@.subrange(0, hd@.len() as int) =~= hd@);
    v.push(0x3a);
    v.push(0x30 + (m / 10) as u8);
    v.push(0x30 + (m % 10) as u8);
    v.push(0x3a);
    v.push(0x30 + (s / 10) as u8);
    v.push(0x30 + (s % 10) as u8);
    assert(v@ =~= uptime_text(secs));
    v
}

} // verus!
