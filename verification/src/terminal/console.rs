//! The text console's escape-sequence decoder: which characters are drawn,
//! which move the cursor, and which CSI commands (`ESC [ params cmd`) they
//! form. Drawing and cursor arithmetic are the console's own business.
use vstd::prelude::*;

verus! {

/// Where the framebuffer is and how it is laid out.
pub struct FbParams {
    pub base: u64,
    pub width: u32,
    pub height: u32,
    pub stride: u32,
    /// 0: RGB, 1: BGR.
    pub format: u32,
}

#[derive(Clone, Copy, PartialEq, Eq, Structural, Debug)]
pub enum EscapeState {
    Normal,
    Esc,
    Csi,
}

/// What one character asks of the console.
pub enum ConsoleAction {
    Newline,
    CarriageReturn,
    Backspace,
    Draw(char),
    /// A complete CSI sequence: its final character and parameters; `count` is
    /// the number of parameters given (separators plus one).
    Csi { cmd: char, params: [u16; 4], count: usize },
    Nothing,
}

pub struct EscapeParser {
    state: EscapeState,
    params: [u16; 4],
    count: usize,
}

pub struct EscapeView {
    pub state: EscapeState,
    pub params: Seq<u16>,
    pub count: nat,
}

impl View for EscapeParser {
    type V = EscapeView;

    closed spec fn view(&self) -> EscapeView {
        EscapeView { state: self.state, params: self.params@, count: self.count as nat }
    }
}

/// `p * 10 + d`, saturating at `u16::MAX`.
pub open spec fn push_digit(p: u16, d: u16) -> u16 {
    let m = if p * 10 > u16::MAX { u16::MAX as int } else { p * 10 };
    if m + d > u16::MAX { u16::MAX } else { (m + d) as u16 }
}

pub open spec fn is_digit(c: char) -> bool {
    '0' <= c && c <= '9'
}

impl EscapeParser {
    #[verifier::type_invariant]
    closed spec fn inv(&self) -> bool {
        self.count <= 3 || (self.count == 4 && self.state != EscapeState::Csi)
    }

    pub fn new() -> (p: Self)
        ensures
            p@.state == EscapeState::Normal,
            p@.params == seq![0u16, 0u16, 0u16, 0u16],
            p@.count == 0,
    {
        let p = EscapeParser { state: EscapeState::Normal, params: [0u16; 4], count: 0 };
        assert(p@.params =~= seq![0u16, 0u16, 0u16, 0u16]);
        p
    }

    /// Feed one character. In plain text, newline, carriage return and
    /// backspace move the cursor, ESC starts a sequence and anything else is
    /// drawn. After ESC, `[` starts a CSI sequence (parameters reset) and any
    /// other character ends it. In a CSI sequence digits accumulate into the
    /// current parameter (saturating), `;` moves to the next of four, and any
    /// other character completes the command.
    pub fn feed(&mut self, c: char) -> (a: ConsoleAction)
        ensures
            ({
                let v = old(self)@;
                let w = final(self)@;
                match v.state {
                    EscapeState::Normal => if c == '\n' {
                        a is Newline && w == v
                    } else if c == '\r' {
                        a is CarriageReturn && w == v
                    } else if c == '\x08' {
                        a is Backspace && w == v
                    } else if c == '\x1b' {
                        a is Nothing && w == (EscapeView { state: EscapeState::Esc, ..v })
                    } else {
                        a == ConsoleAction::Draw(c) && w == v
                    },
                    EscapeState::Esc => if c == '[' {
                        &&& a is Nothing
                        &&& w == (EscapeView { state: EscapeState::Csi, params: seq![0u16, 0u16, 0u16, 0u16], count: 0 })
                    } else {
                        a is Nothing && w == (EscapeView { state: EscapeState::Normal, ..v })
                    },
                    EscapeState::Csi => if is_digit(c) {
                        let i = if v.count < 3 { v.count as int } else { 3 };
                        &&& a is Nothing
                        &&& w == (EscapeView {
                            params: v.params.update(i, push_digit(v.params[i], ((c as u32) - 0x30) as u16)),
                            ..v
                        })
                    } else if c == ';' {
                        a is Nothing && w == (EscapeView { count: if v.count < 3 { v.count + 1 } else { v.count }, ..v })
                    } else {
                        &&& a matches ConsoleAction::Csi { cmd, params, count } && cmd == c && params@ == v.params
                            && count == v.count + 1
                        &&& w == (EscapeView { state: EscapeState::Normal, count: v.count + 1, ..v })
                    },
                }
            }),
    {
        proof {
            use_type_invariant(&*self);
        }
        match self.state {
            EscapeState::Normal => {
                if c == '\n' {
                    ConsoleAction::Newline
                } else if c == '\r' {
                    ConsoleAction::CarriageReturn
                } else if c == '\x08' {
                    ConsoleAction::Backspace
                } else if c == '\x1b' {
                    self.state = EscapeState::Esc;
                    ConsoleAction::Nothing
                } else {
                    ConsoleAction::Draw(c)
                }
            },
            EscapeState::Esc => {
                if c == '[' {
                    self.count = 0;
                    self.params = [0u16; 4];
                    self.state = EscapeState::Csi;
                    assert(self@.params =~= seq![0u16, 0u16, 0u16, 0u16]);
                } else {
                    self.state = EscapeState::Normal;
                }
                ConsoleAction::Nothing
            },
            EscapeState::Csi => {
                if '0' <= c && c <= '9' {
                    let i = if self.count < 3 { self.count } else { 3 };
                    let p = self.params[i];
                    let m: u16 = if p > 6553 { u16::MAX } else { p * 10 };
                    let d = ((c as u32) - 0x30) as u16;
                    self.params[i] = m.saturating_add(d);
                    ConsoleAction::Nothing
                } else if c == ';' {
                    if self.count < 3 {
                        self.count = self.count + 1;
                    }
                    ConsoleAction::Nothing
                } else {
                    self.state = EscapeState::Normal;
                    self.count = self.count + 1;
                    ConsoleAction::Csi { cmd: c, params: self.params, count: self.count }
                }
            },
        }
    }
}

} // verus!
