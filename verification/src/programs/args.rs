//! Decimal numbers on the command line, as the user programs read them.
use vstd::prelude::*;

verus! {

pub open spec fn is_digit(b: u8) -> bool {
    0x30 <= b <= 0x39
}

pub open spec fn all_digits(s: Seq<u8>) -> bool {
    forall|i: int| 0 <= i < s.len() ==> is_digit(#[trigger] s[i])
}

/// The value of a string of decimal digits.
pub open spec fn dec_value(s: Seq<u8>) -> nat
    decreases s.len(),
{
    if s.len() == 0 {
        0
    } else {
        dec_value(s.drop_last()) * 10 + (s.last() - 0x30) as nat
    }
}

/// The leading digits' count.
pub open spec fn digit_run(s: Seq<u8>) -> nat
    decreases s.len(),
{
    if s.len() == 0 || !is_digit(s[0]) { 0 } else { 1 + digit_run(s.drop_first()) }
}

/// The value of digits, wrapping at 2^64 as it is accumulated.
pub open spec fn wrapped_value(s: Seq<u8>) -> u64
    decreases s.len(),
{
    if s.len() == 0 {
        0
    } else {
        vstd::wrapping::u64_specs::wrapping_add(
            vstd::wrapping::u64_specs::wrapping_mul(wrapped_value(s.drop_last()), 10),
            (s.last() - 0x30) as u64,
        )
    }
}

pub proof fn lemma_dec_prefix(s: Seq<u8>, k: int)
    requires
        all_digits(s),
        0 <= k <= s.len(),
    ensures
        dec_value(s.take(k)) <= dec_value(s),
    decreases s.len(),
{
    if k < s.len() {
        let t = s.drop_last();
        assert(all_digits(t)) by {
            assert forall|i: int| 0 <= i < t.len() implies is_digit(#[trigger] t[i]) by {
                assert(t[i] == s[i]);
            }
        }
        assert(t.take(k) =~= s.take(k));
        lemma_dec_prefix(t, k);
    } else {
        assert(s.take(k) =~= s);
    }
}

pub proof fn lemma_digit_run(s: Seq<u8>)
    ensures
        digit_run(s) <= s.len(),
        all_digits(s.take(digit_run(s) as int)),
        digit_run(s) < s.len() ==> !is_digit(s[digit_run(s) as int]),
    decreases s.len(),
{
    if s.len() > 0 && is_digit(s[0]) {
        let t = s.drop_first();
        lemma_digit_run(t);
        let n = digit_run(s) as int;
        assert forall|i: int| 0 <= i < n implies is_digit(#[trigger] s.take(n)[i]) by {
            if i > 0 {
                assert(s.take(n)[i] == t.take(n - 1)[i - 1]);
            }
        }
        if n < s.len() {
            assert(s[n] == t[n - 1]);
        }
    }
}

/// Digits worth at most `max`: their value; anything else (a non-digit, or
/// a value past `max`) gives `None`. An empty string is 0.
pub fn parse_digits(s: &[u8], max: u64) -> (r: Option<u64>)
    requires
        max >= 9,
    ensures
        r == (if all_digits(s@) && dec_value(s@) <= max { Some(dec_value(s@) as u64) } else { None }),
{
    let mut v: u64 = 0;
    let mut i: usize = 0;
    while i < s.len()
        invariant
            i <= s@.len(),
            max >= 9,
            all_digits(s@.take(i as int)),
            v == dec_value(s@.take(i as int)),
            v <= max,
        decreases s@.len() - i,
    {
        let b = s[i];
        if b < 0x30 || b > 0x39 {
            return None;
        }
        let d = (b - 0x30) as u64;
        let ghost t = s@.take(i + 1);
        assert(t.drop_last() =~= s@.take(i as int));
        assert(dec_value(t) == v * 10 + d);
        if v > (max - d) / 10 {
            proof {
                assert(v * 10 + d > max) by (nonlinear_arith)
                    requires
                        v > (max - d) / 10,
                        d <= 9,
                        max >= 9,
                ;
                if all_digits(s@) {
                    lemma_dec_prefix(s@, i + 1);
                }
            }
            return None;
        }
        assert(v * 10 + d <= max) by (nonlinear_arith)
            requires
                v <= (max - d) / 10,
                d <= 9,
                max >= 9,
        ;
        v = v * 10 + d;
        assert(all_digits(t)) by {
            assert forall|k: int| 0 <= k < t.len() implies is_digit(#[trigger] t[k]) by {
                if k < i {
                    assert(t[k] == s@.take(i as int)[k]);
                }
            }
        }
        i = i + 1;
    }
    assert(s@.take(s@.len() as int) =~= s@);
    Some(v)
}

/// A 32-bit decimal number: digits only, at least one, no larger than
/// `u32::MAX`.
pub fn parse_u32(s: &[u8]) -> (r: Option<u32>)
    ensures
        r == (if s@.len() > 0 && all_digits(s@) && dec_value(s@) <= u32::MAX {
            Some(dec_value(s@) as u32)
        } else {
            None
        }),
{
    if s.len() == 0 {
        return None;
    }
    match parse_digits(s, 0xffff_ffff) {
        Some(v) => Some(v as u32),
        None => None,
    }
}

/// A 64-bit decimal number: digits only (the empty string is 0), no larger
/// than `u64::MAX`.
pub fn parse_u64(s: &[u8]) -> (r: Option<u64>)
    ensures
        r == (if all_digits(s@) && dec_value(s@) <= u64::MAX { Some(dec_value(s@) as u64) } else { None }),
{
    parse_digits(s, 0xffff_ffff_ffff_ffff)
}

/// The leading digits of `s` as a number, wrapping on overflow; 0 without
/// leading digits.
pub fn parse_leading_u64(s: &[u8]) -> (n: u64)
    ensures
        n == wrapped_value(s@.take(digit_run(s@) as int)),
{
    proof {
        lemma_digit_run(s@);
    }
    let ghost k = digit_run(s@) as int;
    let mut n: u64 = 0;
    let mut i: usize = 0;
    while i < s.len()
        invariant
            i <= k,
            k <= s@.len(),
            all_digits(s@.take(k)),
            k < s@.len() ==> !is_digit(s@[k]),
            n == wrapped_value(s@.take(i as int)),
        ensures
            i == k,
            n == wrapped_value(s@.take(i as int)),
        decreases s@.len() - i,
    {
        let c = s[i];
        if c < 0x30 || c > 0x39 {
            assert(i == k) by {
                if i < k {
                    assert(s@.take(k)[i as int] == c);
                }
            }
            break;
        }
        assert(i < k);
        assert(s@.take(i + 1).drop_last() =~= s@.take(i as int));
        n = n.wrapping_mul(10).wrapping_add((c - 0x30) as u64);
        i = i + 1;
    }
    n
}

/// `cpuburner`'s thread count: the argument's leading number, between 1 and
/// 64; 1 without an argument.
pub fn thread_count(arg: Option<&[u8]>) -> (n: usize)
    ensures
        n == (match arg {
            Some(a) => {
                let v = wrapped_value(a@.take(digit_run(a@) as int));
                if v < 1 { 1 } else if v > 64 { 64 } else { v as int }
            },
            None => 1,
        }),
        1 <= n <= 64,
{
    match arg {
        Some(a) => {
            let v = parse_leading_u64(a);
            if v < 1 { 1 } else if v > 64 { 64 } else { v as usize }
        },
        None => 1,
    }
}

} // verus!
