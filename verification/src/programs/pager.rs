//! `less`: the line index of the text read from standard input, paging by
//! keys, and the lines and status bar shown. The program reads the input and
//! the keyboard and writes to the console; what is shown is decided here.
use vstd::prelude::*;
use vstd::string::StringSliceAdditionalSpecFns;
use crate::bytes::{push_all, find_byte, first_index, lemma_first_index};
use crate::text::{dec_digits, fmt_dec};

verus! {

pub const KEY_UP: u8 = 0x82;
pub const KEY_DOWN: u8 = 0x83;
/// Lines indexed at most.
pub const MAX_LINES: usize = 4096;
pub const NEWLINE: u8 = 0x0a;
pub const CR: u8 = 0x0d;

/// Where each line starts: at 0, and after every newline that is not the
/// last byte; at most `MAX_LINES` lines (the starts found in the first `n`
/// bytes).
pub open spec fn starts_upto(d: Seq<u8>, n: int) -> Seq<usize>
    decreases n,
{
    if n <= 0 {
        seq![0usize]
    } else {
        let prev = starts_upto(d, n - 1);
        let i = n - 1;
        if d[i] == NEWLINE && i + 1 < d.len() && prev.len() < MAX_LINES {
            prev.push((i + 1) as usize)
        } else {
            prev
        }
    }
}

pub open spec fn line_starts_spec(d: Seq<u8>) -> Seq<usize> {
    starts_upto(d, d.len() as int)
}

pub proof fn lemma_starts_bounds(d: Seq<u8>, n: int)
    requires
        0 <= n <= d.len(),
    ensures
        1 <= starts_upto(d, n).len() <= MAX_LINES,
        forall|k: int| 0 <= k < starts_upto(d, n).len() ==> #[trigger] starts_upto(d, n)[k] < d.len() || (k == 0 && d.len() == 0),
    decreases n,
{
    if n > 0 {
        lemma_starts_bounds(d, n - 1);
    }
}

pub fn line_starts(data: &[u8]) -> (v: Vec<usize>)
    ensures
        v@ == line_starts_spec(data@),
        1 <= v@.len() <= MAX_LINES,
{
    let mut v: Vec<usize> = Vec::new();
    v.push(0);
    let mut i: usize = 0;
    while i < data.len()
        invariant
            i <= data@.len(),
            v@ == starts_upto(data@, i as int),
            1 <= v@.len() <= MAX_LINES,
        decreases data@.len() - i,
    {
        if data[i] == NEWLINE && i + 1 < data.len() && v.len() < MAX_LINES {
            v.push(i + 1);
        }
        i = i + 1;
    }
    v
}

/// Rows of text on a console of the packed size `console_size` (rows in the
/// high half): one row is kept for the status bar; 23 when the size is unknown.
pub open spec fn text_rows(console_size: u64) -> usize {
    let r = console_size / 0x1_0000_0000;
    if r >= 2 { (r - 1) as usize } else { 23 }
}

pub fn rows_for(console_size: u64) -> (r: usize)
    ensures
        r == text_rows(console_size),
        r >= 1,
{
    assert((console_size >> 32u64) == console_size / 0x1_0000_0000) by (bit_vector);
    let r = console_size >> 32;
    assert(r <= 0xffff_ffff);
    if r >= 2 { (r - 1) as usize } else { 23 }
}

/// The pager's position: the first line shown.
#[derive(Clone, Copy, PartialEq, Eq, Structural, Debug)]
pub struct Pager {
    pub top: usize,
    pub total: usize,
    pub rows: usize,
}

/// The last line that can be at the top.
pub open spec fn max_top(p: Pager) -> int {
    if p.total >= p.rows { p.total - p.rows } else { 0 }
}

pub open spec fn pager_ok(p: Pager) -> bool {
    p.top <= max_top(p) && p.rows >= 1
}

/// What a key does: `q`, `Q` and Ctrl-C quit (`None`); space and `f` page
/// down, `b` pages up, down-arrow, `j`, return and newline go down a line,
/// up-arrow and `k` go up one; other keys do nothing.
pub open spec fn after_key(p: Pager, k: u8) -> Option<Pager> {
    let m = max_top(p);
    if k == 0x71 || k == 0x51 || k == 0x03 {
        None
    } else if k == 0x20 || k == 0x66 || k == 0x46 {
        Some(Pager { top: (if p.top + p.rows <= m { p.top + p.rows } else { m }) as usize, ..p })
    } else if k == 0x62 || k == 0x42 {
        Some(Pager { top: (if p.top >= p.rows { p.top - p.rows } else { 0 }) as usize, ..p })
    } else if k == KEY_DOWN || k == 0x6a || k == CR || k == NEWLINE {
        Some(Pager { top: (if p.top + 1 <= m { p.top + 1 } else { m }) as usize, ..p })
    } else if k == KEY_UP || k == 0x6b {
        Some(Pager { top: (if p.top >= 1 { p.top - 1 } else { 0 }) as usize, ..p })
    } else {
        Some(p)
    }
}

impl Pager {
    pub fn new(total: usize, rows: usize) -> (p: Pager)
        requires
            rows >= 1,
        ensures
            pager_ok(p),
            p == (Pager { top: 0, total, rows }),
    {
        Pager { top: 0, total, rows }
    }

    /// Apply a key; `false` when it quits.
    pub fn key(&mut self, k: u8) -> (go_on: bool)
        requires
            pager_ok(*old(self)),
        ensures
            pager_ok(*final(self)),
            go_on == (after_key(*old(self), k) is Some),
            go_on ==> after_key(*old(self), k) == Some(*final(self)),
            !go_on ==> *final(self) == *old(self),
    {
        let m = if self.total >= self.rows { self.total - self.rows } else { 0 };
        if k == 0x71 || k == 0x51 || k == 0x03 {
            return false;
        }
        if k == 0x20 || k == 0x66 || k == 0x46 {
            self.top = if self.rows <= m && self.top <= m - self.rows { self.top + self.rows } else { m };
        } else if k == 0x62 || k == 0x42 {
            self.top = if self.top >= self.rows { self.top - self.rows } else { 0 };
        } else if k == KEY_DOWN || k == 0x6a || k == CR || k == NEWLINE {
            self.top = if self.top < m { self.top + 1 } else { m };
        } else if k == KEY_UP || k == 0x6b {
            self.top = if self.top >= 1 { self.top - 1 } else { 0 };
        }
        true
    }
}

/// One past the last line shown.
pub open spec fn shown_end(p: Pager) -> int {
    if p.top + p.rows <= p.total { p.top + p.rows } else { p.total as int }
}

/// The status bar, in reverse video: `(END)` at the end, the lines shown of
/// the total, and how far in that is.
pub open spec fn status_spec(p: Pager) -> Seq<u8> {
    let end = shown_end(p);
    let pct: nat = if p.total <= p.rows { 100 } else { ((end * 100) / (p.total as int)) as nat };
    "\x1b[7m".spec_bytes() + (if end >= p.total { " (END)".spec_bytes() } else { Seq::empty() })
        + "  lines ".spec_bytes() + dec_digits(end as nat) + "/".spec_bytes() + dec_digits(p.total as nat)
        + "  ".spec_bytes() + dec_digits(pct) + "%  q:quit  space/b:page  j/k:line \x1b[0m".spec_bytes()
}

pub fn status_bar(p: Pager) -> (v: Vec<u8>)
    requires
        pager_ok(p),
        p.total as int * 100 <= u64::MAX,
    ensures
        v@ == status_spec(p),
{
    let end = if p.top + p.rows <= p.total { p.top + p.rows } else { p.total };
    let pct: u64 = if p.total <= p.rows { 100 } else { (end as u64 * 100) / p.total as u64 };
    let mut v: Vec<u8> = Vec::new();
    push_all(&mut v, "\x1b[7m".as_bytes());
    if end >= p.total {
        push_all(&mut v, " (END)".as_bytes());
    }
    push_all(&mut v, "  lines ".as_bytes());
    let a = fmt_dec(end as u64);
    push_all(&mut v, a.as_slice());
    push_all(&mut v, "/".as_bytes());
    let b = fmt_dec(p.total as u64);
    push_all(&mut v, b.as_slice());
    push_all(&mut v, "  ".as_bytes());
    let c = fmt_dec(pct);
    push_all(&mut v, c.as_slice());
    push_all(&mut v, "%  q:quit  space/b:page  j/k:line \x1b[0m".as_bytes());
    assert(v@ =~= status_spec(p));
    v
}

/// The line starting at `start`: up to the next newline (or the end), less
/// a carriage return before it.
pub open spec fn line_text(d: Seq<u8>, start: int) -> Seq<u8> {
    let nl = first_index(d.subrange(start, d.len() as int), NEWLINE);
    let end = if nl >= 0 { start + nl } else { d.len() as int };
    let e = if end > start && d[end - 1] == CR { end - 1 } else { end };
    d.subrange(start, e)
}

pub fn line_at(data: &[u8], start: usize) -> (l: &[u8])
    requires
        start <= data@.len(),
    ensures
        l@ == line_text(data@, start as int),
{
    let rest = &data[start..data.len()];
    proof {
        lemma_first_index(rest@, NEWLINE);
    }
    let end = match find_byte(rest, NEWLINE) {
        Some(i) => start + i,
        None => data.len(),
    };
    let e = if end > start && data[end - 1] == CR { end - 1 } else { end };
    &data[start..e]
}

/// A page down and a page up bring the same lines back, away from the end.
pub proof fn law_page_down_then_up(p: Pager)
    requires
        pager_ok(p),
        p.top + p.rows <= max_top(p),
    ensures
        after_key(p, 0x20) is Some,
        after_key(after_key(p, 0x20)->0, 0x62) == Some(p),
{
}

} // verus!
