//! The line editor of the text console: an input line with a cursor, edited
//! key by key, and a blinking caret. Drawing is left to the console.
use vstd::prelude::*;
use vstd::string::StringSliceAdditionalSpecFns;
use vstd::utf8::valid_utf8;
use crate::text::str_from_utf8;

verus! {

/// Capacity of the input buffer; a line holds at most `INPUT_CAP - 1` bytes.
pub const INPUT_CAP: usize = 128;

/// Blink half-period of the caret, in milliseconds.
pub const BLINK_MS: u64 = 500;

/// A key as the keyboard driver reports it.
#[derive(Clone, Copy, PartialEq, Eq, Structural, Debug)]
pub enum Key {
    Char(char),
    Left,
    Right,
    Up,
    Down,
    Other,
}

/// Unicode general category Cc: U+0000..U+001F and U+007F..U+009F.
pub open spec fn is_control_spec(c: char) -> bool {
    (c as u32) < 0x20 || (0x7f <= (c as u32) && (c as u32) <= 0x9f)
}

pub fn is_control(c: char) -> (r: bool)
    ensures
        r == is_control_spec(c),
{
    let n = c as u32;
    n < 0x20 || (0x7f <= n && n <= 0x9f)
}

/// A submitted input line.
pub struct Line {
    buf: [u8; INPUT_CAP],
    len: usize,
}

impl View for Line {
    type V = Seq<u8>;

    closed spec fn view(&self) -> Seq<u8> {
        self.buf@.subrange(0, self.len as int)
    }
}

impl Line {
    #[verifier::type_invariant]
    closed spec fn inv(&self) -> bool {
        self.len <= INPUT_CAP
    }

    /// The line as text; empty when it is not valid UTF-8.
    pub fn as_str(&self) -> (s: &str)
        ensures
            valid_utf8(self@) ==> s.spec_bytes() == self@,
            !valid_utf8(self@) ==> s@.len() == 0,
    {
        proof {
            use_type_invariant(self);
        }
        let bytes: &[u8] = &self.buf[0..self.len];
        assert(bytes@ == self@);
        match str_from_utf8(bytes) {
            Some(s) => s,
            None => {
                proof {
                    reveal_strlit("");
                }
                ""
            },
        }
    }

    /// The line's bytes.
    pub fn as_bytes(&self) -> (b: &[u8])
        ensures
            b@ == self@,
    {
        proof {
            use_type_invariant(self);
        }
        &self.buf[0..self.len]
    }
}


/// The editor's state as seen from outside.
pub struct TtyView {
    /// The bytes typed so far.
    pub input: Seq<u8>,
    /// Insertion point, at most the input's length.
    pub cursor: nat,
    pub cursor_visible: bool,
    /// When the caret next toggles (TSC).
    pub next_blink: u64,
    pub tsc_per_ms: u64,
}

/// The console line editor.
pub struct Tty {
    input: [u8; INPUT_CAP],
    len: usize,
    cursor: usize,
    cursor_visible: bool,
    next_blink: u64,
    tsc_per_ms: u64,
}

impl View for Tty {
    type V = TtyView;

    closed spec fn view(&self) -> TtyView {
        TtyView {
            input: self.input@.subrange(0, self.len as int),
            cursor: self.cursor as nat,
            cursor_visible: self.cursor_visible,
            next_blink: self.next_blink,
            tsc_per_ms: self.tsc_per_ms,
        }
    }
}

/// TSC ticks between caret toggles (wrapping).
pub open spec fn blink_interval(tsc_per_ms: u64) -> u64 {
    vstd::wrapping::u64_specs::wrapping_mul(tsc_per_ms, BLINK_MS)
}

/// When the caret next toggles if it was just drawn at `now`.
pub open spec fn blink_after(now: u64, tsc_per_ms: u64) -> u64 {
    vstd::wrapping::u64_specs::wrapping_add(now, blink_interval(tsc_per_ms))
}

/// The input after typing `c` at the cursor: inserted when it is ASCII and the
/// line has room.
pub open spec fn typed(input: Seq<u8>, cursor: nat, c: char) -> (Seq<u8>, nat) {
    if input.len() < INPUT_CAP - 1 && (c as u32) < 0x80 {
        (input.insert(cursor as int, c as u8), cursor + 1)
    } else {
        (input, cursor)
    }
}

/// The input after a backspace: the byte before the cursor is removed.
pub open spec fn erased(input: Seq<u8>, cursor: nat) -> (Seq<u8>, nat) {
    if cursor > 0 {
        (input.remove(cursor - 1), (cursor - 1) as nat)
    } else {
        (input, cursor)
    }
}

/// What a key did.
pub struct KeyOutcome {
    /// The submitted line, on Enter.
    pub line: Option<Line>,
    /// The input changed and must be drawn again.
    pub redraw: bool,
}

impl Tty {
    #[verifier::type_invariant]
    closed spec fn inv(&self) -> bool {
        self.len < INPUT_CAP && self.cursor <= self.len
    }

    /// An empty editor; `tsc_per_ms` is the TSC rate.
    pub fn new(tsc_per_ms: u64) -> (t: Self)
        ensures
            t@ == (TtyView { input: Seq::empty(), cursor: 0, cursor_visible: false, next_blink: 0, tsc_per_ms }),
    {
        let t = Tty { input: [0u8; INPUT_CAP], len: 0, cursor: 0, cursor_visible: false, next_blink: 0, tsc_per_ms };
        assert(t@.input =~= Seq::<u8>::empty());
        t
    }

    /// The bytes typed so far.
    pub fn input(&self) -> (b: &[u8])
        ensures
            b@ == self@.input,
    {
        proof {
            use_type_invariant(self);
        }
        &self.input[0..self.len]
    }

    /// The bytes before the cursor (where the caret is drawn).
    pub fn before_cursor(&self) -> (b: &[u8])
        ensures
            b@ == self@.input.subrange(0, self@.cursor as int),
    {
        proof {
            use_type_invariant(self);
        }
        let b = &self.input[0..self.cursor];
        assert(b@ =~= self@.input.subrange(0, self@.cursor as int));
        b
    }

    pub fn cursor_visible(&self) -> (v: bool)
        ensures
            v == self@.cursor_visible,
    {
        self.cursor_visible
    }

    /// Start a new line after the prompt was printed at TSC `now`.
    pub fn prompt(&mut self, now: u64)
        ensures
            final(self)@ == (TtyView {
                input: Seq::empty(),
                cursor: 0,
                cursor_visible: false,
                next_blink: blink_after(now, old(self)@.tsc_per_ms),
                tsc_per_ms: old(self)@.tsc_per_ms,
            }),
    {
        proof {
            use_type_invariant(&*self);
        }
        self.cursor = 0;
        self.len = 0;
        self.cursor_visible = false;
        self.next_blink = now.wrapping_add(self.tsc_per_ms.wrapping_mul(BLINK_MS));
        assert(self@.input =~= Seq::<u8>::empty());
    }

    /// Toggle the caret if its blink time has come (the counter read `now`);
    /// true when it toggled. The caller then draws the caret in its new state
    /// and schedules the next toggle with `schedule_blink` from a fresh
    /// reading taken after drawing.
    pub fn update_cursor(&mut self, now: u64) -> (toggled: bool)
        ensures
            toggled == (now >= old(self)@.next_blink),
            toggled ==> final(self)@ == (TtyView { cursor_visible: !old(self)@.cursor_visible, ..old(self)@ }),
            !toggled ==> final(self)@ == old(self)@,
    {
        proof {
            use_type_invariant(&*self);
        }
        if now >= self.next_blink {
            self.cursor_visible = !self.cursor_visible;
            true
        } else {
            false
        }
    }

    /// The caret was just drawn and the counter then read `now`: the next
    /// toggle comes one blink period later.
    pub fn schedule_blink(&mut self, now: u64)
        ensures
            final(self)@ == (TtyView { next_blink: blink_after(now, old(self)@.tsc_per_ms), ..old(self)@ }),
    {
        proof {
            use_type_invariant(&*self);
        }
        self.next_blink = now.wrapping_add(self.tsc_per_ms.wrapping_mul(BLINK_MS));
    }

    /// Insert `ch` at the cursor if it is ASCII and the line has room.
    fn push(&mut self, ch: char) -> (changed: bool)
        ensures
            (final(self)@.input, final(self)@.cursor) == typed(old(self)@.input, old(self)@.cursor, ch),
            changed == (old(self)@.input.len() < INPUT_CAP - 1 && (ch as u32) < 0x80),
            final(self)@.cursor_visible == old(self)@.cursor_visible,
            final(self)@.next_blink == old(self)@.next_blink,
            final(self)@.tsc_per_ms == old(self)@.tsc_per_ms,
    {
        proof {
            use_type_invariant(&*self);
        }
        let code = ch as u32;
        if self.len < INPUT_CAP - 1 && code < 0x80 {
            let ghost old_arr = self.input@;
            let ghost old_view = self@.input;
            let cur = self.cursor;
            let len = self.len;
            let mut a = self.input;
            let mut i = len;
            while i > cur
                invariant
                    cur <= i <= len,
                    len < INPUT_CAP - 1,
                    a@.len() == INPUT_CAP,
                    forall|j: int| 0 <= j < i ==> #[trigger] a@[j] == old_arr[j],
                    forall|j: int| i < j <= len ==> #[trigger] a@[j] == old_arr[j - 1],
                decreases i - cur,
            {
                a[i] = a[i - 1];
                i = i - 1;
            }
            a[cur] = code as u8;
            self.input = a;
            self.len = len + 1;
            self.cursor = cur + 1;
            proof {
                assert(self@.input =~= old_view.insert(cur as int, ch as u8));
            }
            true
        } else {
            false
        }
    }

    /// Remove the byte before the cursor, if any.
    fn backspace(&mut self) -> (changed: bool)
        ensures
            (final(self)@.input, final(self)@.cursor) == erased(old(self)@.input, old(self)@.cursor),
            changed == (old(self)@.cursor > 0),
            final(self)@.cursor_visible == old(self)@.cursor_visible,
            final(self)@.next_blink == old(self)@.next_blink,
            final(self)@.tsc_per_ms == old(self)@.tsc_per_ms,
    {
        proof {
            use_type_invariant(&*self);
        }
        if self.cursor > 0 {
            let ghost old_arr = self.input@;
            let ghost old_view = self@.input;
            let cur = self.cursor;
            let len = self.len;
            let mut a = self.input;
            let mut i = cur;
            while i < len
                invariant
                    0 < cur <= i <= len,
                    len < INPUT_CAP,
                    a@.len() == INPUT_CAP,
                    forall|j: int| 0 <= j < cur - 1 ==> #[trigger] a@[j] == old_arr[j],
                    forall|j: int| cur - 1 <= j < i - 1 ==> #[trigger] a@[j] == old_arr[j + 1],
                    forall|j: int| i - 1 <= j < INPUT_CAP ==> #[trigger] a@[j] == old_arr[j],
                decreases len - i,
            {
                a[i - 1] = a[i];
                i = i + 1;
            }
            self.input = a;
            self.cursor = cur - 1;
            self.len = len - 1;
            proof {
                assert(self@.input =~= old_view.remove(cur - 1));
            }
            true
        } else {
            false
        }
    }

    fn move_left(&mut self)
        ensures
            final(self)@ == (TtyView { cursor: if old(self)@.cursor > 0 { (old(self)@.cursor - 1) as nat } else { 0 }, ..old(self)@ }),
    {
        proof {
            use_type_invariant(&*self);
        }
        if self.cursor > 0 {
            self.cursor = self.cursor - 1;
        }
    }

    fn move_right(&mut self)
        ensures
            final(self)@ == (TtyView {
                cursor: if old(self)@.cursor < old(self)@.input.len() { old(self)@.cursor + 1 } else { old(self)@.cursor },
                ..old(self)@
            }),
    {
        proof {
            use_type_invariant(&*self);
        }
        if self.cursor < self.len {
            self.cursor = self.cursor + 1;
        }
    }

    /// Hand the input out as a line and start over.
    fn submit(&mut self) -> (line: Line)
        ensures
            line@ == old(self)@.input,
            final(self)@ == (TtyView { input: Seq::empty(), cursor: 0, cursor_visible: false, ..old(self)@ }),
    {
        proof {
            use_type_invariant(&*self);
        }
        let line = Line { buf: self.input, len: self.len };
        self.cursor = 0;
        self.len = 0;
        self.cursor_visible = false;
        assert(self@.input =~= Seq::<u8>::empty());
        line
    }

    /// Apply a key. Enter submits the line; backspace erases before the
    /// cursor; a printable character is inserted; Left and Right move the
    /// cursor; other keys do nothing. The caret is hidden first and, unless a
    /// line was submitted, shown again: the caller draws it and then starts a
    /// fresh blink period with `schedule_blink` from the counter read after
    /// drawing.
    pub fn handle_key(&mut self, key: Key) -> (out: KeyOutcome)
        ensures
            ({
                let v = old(self)@;
                let shown = |w: TtyView| TtyView { cursor_visible: true, ..w };
                match key {
                    Key::Char(c) => if c == '\n' {
                        &&& out.line matches Some(l) && l@ == v.input
                        &&& !out.redraw
                        &&& final(self)@ == (TtyView { input: Seq::empty(), cursor: 0, cursor_visible: false, ..v })
                    } else if c == '\x08' {
                        &&& out.line is None
                        &&& out.redraw == (v.cursor > 0)
                        &&& final(self)@ == shown(
                            TtyView { input: erased(v.input, v.cursor).0, cursor: erased(v.input, v.cursor).1, ..v },
                        )
                    } else if !is_control_spec(c) {
                        &&& out.line is None
                        &&& out.redraw == (v.input.len() < INPUT_CAP - 1 && (c as u32) < 0x80)
                        &&& final(self)@ == shown(
                            TtyView { input: typed(v.input, v.cursor, c).0, cursor: typed(v.input, v.cursor, c).1, ..v },
                        )
                    } else {
                        out.line is None && !out.redraw && final(self)@ == shown(v)
                    },
                    Key::Left => {
                        &&& out.line is None
                        &&& !out.redraw
                        &&& final(self)@ == shown(TtyView { cursor: if v.cursor > 0 { (v.cursor - 1) as nat } else { 0 }, ..v })
                    },
                    Key::Right => {
                        &&& out.line is None
                        &&& !out.redraw
                        &&& final(self)@ == shown(
                            TtyView { cursor: if v.cursor < v.input.len() { v.cursor + 1 } else { v.cursor }, ..v },
                        )
                    },
                    _ => out.line is None && !out.redraw && final(self)@ == shown(v),
                }
            }),
            final(self)@.cursor <= final(self)@.input.len() < INPUT_CAP,
    {
        proof {
            use_type_invariant(&*self);
        }
        self.cursor_visible = false;
        let mut redraw = false;
        let line = match key {
            Key::Char(c) => {
                if c == '\n' {
                    Some(self.submit())
                } else if c == '\x08' {
                    redraw = self.backspace();
                    None
                } else if !is_control(c) {
                    redraw = self.push(c);
                    None
                } else {
                    None
                }
            },
            Key::Left => {
                self.move_left();
                None
            },
            Key::Right => {
                self.move_right();
                None
            },
            _ => None,
        };
        proof {
            use_type_invariant(&*self);
        }
        if line.is_none() {
            self.cursor_visible = true;
        }
        KeyOutcome { line, redraw }
    }
}


/// Printable ASCII, space through `~`, is never a control character (so a
/// typed space or letter goes into the line), while the C0 controls, DEL and
/// the C1 controls are; nothing at or above U+00A0 is.
pub proof fn law_control_chars(c: char)
    ensures
        0x20 <= (c as u32) <= 0x7e ==> !is_control_spec(c),
        (c as u32) < 0x20 || (0x7f <= (c as u32) <= 0x9f) ==> is_control_spec(c),
        (c as u32) >= 0xa0 ==> !is_control_spec(c),
{
}

/// A printable ASCII character typed into a line with room goes in at the
/// cursor, and the cursor moves past it.
pub proof fn law_printable_inserted(input: Seq<u8>, cursor: nat, c: char)
    requires
        cursor <= input.len() < INPUT_CAP - 1,
        0x20 <= (c as u32) <= 0x7e,
    ensures
        !is_control_spec(c),
        typed(input, cursor, c).0.len() == input.len() + 1,
        typed(input, cursor, c).0[cursor as int] == c as u32,
        typed(input, cursor, c).0.subrange(0, cursor as int) == input.subrange(0, cursor as int),
        typed(input, cursor, c).0.subrange(cursor as int + 1, input.len() as int + 1) == input.subrange(cursor as int, input.len() as int),
        typed(input, cursor, c).1 == cursor + 1,
{
    let t = typed(input, cursor, c).0;
    assert(t.subrange(0, cursor as int) =~= input.subrange(0, cursor as int));
    assert(t.subrange(cursor as int + 1, input.len() as int + 1) =~= input.subrange(cursor as int, input.len() as int));
}

/// Typing a character and erasing it again gives back the same line and
/// cursor, whenever the character was taken.
pub proof fn law_type_then_erase(input: Seq<u8>, cursor: nat, c: char)
    requires
        cursor <= input.len() < INPUT_CAP - 1,
        (c as u32) < 0x80,
    ensures
        erased(typed(input, cursor, c).0, typed(input, cursor, c).1) == (input, cursor),
{
    assert(input.insert(cursor as int, c as u8).remove(cursor as int) =~= input);
}


} // verus!
