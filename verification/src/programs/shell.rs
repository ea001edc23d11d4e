//! The shell: command lines parsed into commands, exec requests built from a
//! command, and the line editor with its history ring. Running the commands
//! (the system calls) is the program's own loop.
use vstd::prelude::*;
use vstd::string::StringSliceAdditionalSpecFns;
use crate::text::{dec_digits, fmt_dec};
use crate::bytes::{SPACE, SLASH, trimmed, trim, has_prefix, first_index, starts_with, bytes_eq, find_byte, push_all};

verus! {

/// Size of the input line buffer; a line holds at most `BUF_SIZE - 1` bytes.
pub const BUF_SIZE: usize = 256;
/// Commands remembered for recall.
pub const MAX_HISTORY: usize = 32;
/// Size of an exec request (path, NUL, then NUL-terminated arguments).
pub const EXEC_BUF: usize = 128;
/// `|`
pub const PIPE: u8 = 0x7c;
/// `>`
pub const GREATER: u8 = 0x3e;
/// `&`
pub const AMPERSAND: u8 = 0x26;

/// A command line, once parsed.
pub enum ShellCommand {
    Help,
    Clear,
    Mem,
    Ps,
    Sysinfo,
    Smpinfo,
    Shutdown,
    Reboot,
    /// List a directory (the argument as typed, `/` when none).
    Ls(Vec<u8>),
    Touch(Vec<u8>),
    Rm(Vec<u8>),
    Mkdir(Vec<u8>),
    Rmdir(Vec<u8>),
    Cat(Vec<u8>),
    /// Print the text.
    Echo(Vec<u8>),
    /// Write the text to the file.
    EchoTo(Vec<u8>, Vec<u8>),
    Exec(Vec<u8>),
    /// Run the first command with its output piped into the second.
    Pipe(Vec<u8>, Vec<u8>),
    /// Run a program (`/bin/<name>.kxe` or a path) with arguments.
    Run(Vec<u8>),
}

pub enum CommandView {
    Help,
    Clear,
    Mem,
    Ps,
    Sysinfo,
    Smpinfo,
    Shutdown,
    Reboot,
    Ls(Seq<u8>),
    Touch(Seq<u8>),
    Rm(Seq<u8>),
    Mkdir(Seq<u8>),
    Rmdir(Seq<u8>),
    Cat(Seq<u8>),
    Echo(Seq<u8>),
    EchoTo(Seq<u8>, Seq<u8>),
    Exec(Seq<u8>),
    Pipe(Seq<u8>, Seq<u8>),
    Run(Seq<u8>),
}

impl View for ShellCommand {
    type V = CommandView;

    open spec fn view(&self) -> CommandView {
        match self {
            ShellCommand::Help => CommandView::Help,
            ShellCommand::Clear => CommandView::Clear,
            ShellCommand::Mem => CommandView::Mem,
            ShellCommand::Ps => CommandView::Ps,
            ShellCommand::Sysinfo => CommandView::Sysinfo,
            ShellCommand::Smpinfo => CommandView::Smpinfo,
            ShellCommand::Shutdown => CommandView::Shutdown,
            ShellCommand::Reboot => CommandView::Reboot,
            ShellCommand::Ls(p) => CommandView::Ls(p@),
            ShellCommand::Touch(p) => CommandView::Touch(p@),
            ShellCommand::Rm(p) => CommandView::Rm(p@),
            ShellCommand::Mkdir(p) => CommandView::Mkdir(p@),
            ShellCommand::Rmdir(p) => CommandView::Rmdir(p@),
            ShellCommand::Cat(p) => CommandView::Cat(p@),
            ShellCommand::Echo(t) => CommandView::Echo(t@),
            ShellCommand::EchoTo(t, p) => CommandView::EchoTo(t@, p@),
            ShellCommand::Exec(p) => CommandView::Exec(p@),
            ShellCommand::Pipe(a, b) => CommandView::Pipe(a@, b@),
            ShellCommand::Run(c) => CommandView::Run(c@),
        }
    }
}

/// `s[from..]`, trimmed.
pub open spec fn rest_trimmed(s: Seq<u8>, from: int) -> Seq<u8> {
    trimmed(s.subrange(from, s.len() as int))
}

/// What `echo` does with its argument: `TEXT > PATH` writes to a file.
pub open spec fn echo_of(args: Seq<u8>) -> CommandView {
    let p = first_index(args, GREATER);
    if p >= 0 {
        CommandView::EchoTo(trimmed(args.subrange(0, p)), rest_trimmed(args, p + 1))
    } else {
        CommandView::Echo(args)
    }
}

/// The command a trimmed, non-empty command text names.
pub open spec fn classify(c: Seq<u8>) -> CommandView {
    if c == "help".spec_bytes() {
        CommandView::Help
    } else if c == "clear".spec_bytes() {
        CommandView::Clear
    } else if c == "mem".spec_bytes() {
        CommandView::Mem
    } else if c == "ps".spec_bytes() {
        CommandView::Ps
    } else if c == "sysinfo".spec_bytes() {
        CommandView::Sysinfo
    } else if c == "smpinfo".spec_bytes() {
        CommandView::Smpinfo
    } else if c == "shutdown".spec_bytes() {
        CommandView::Shutdown
    } else if c == "reboot".spec_bytes() {
        CommandView::Reboot
    } else if c == "ls".spec_bytes() || has_prefix(c, "ls ".spec_bytes()) {
        CommandView::Ls(
            if c.len() > "ls ".spec_bytes().len() { rest_trimmed(c, "ls ".spec_bytes().len() as int) } else { seq![SLASH] },
        )
    } else if has_prefix(c, "touch ".spec_bytes()) {
        CommandView::Touch(rest_trimmed(c, "touch ".spec_bytes().len() as int))
    } else if has_prefix(c, "rm ".spec_bytes()) {
        CommandView::Rm(rest_trimmed(c, "rm ".spec_bytes().len() as int))
    } else if has_prefix(c, "mkdir ".spec_bytes()) {
        CommandView::Mkdir(rest_trimmed(c, "mkdir ".spec_bytes().len() as int))
    } else if has_prefix(c, "rmdir ".spec_bytes()) {
        CommandView::Rmdir(rest_trimmed(c, "rmdir ".spec_bytes().len() as int))
    } else if has_prefix(c, "cat ".spec_bytes()) {
        CommandView::Cat(rest_trimmed(c, "cat ".spec_bytes().len() as int))
    } else if has_prefix(c, "echo ".spec_bytes()) {
        echo_of(rest_trimmed(c, "echo ".spec_bytes().len() as int))
    } else if has_prefix(c, "exec ".spec_bytes()) {
        CommandView::Exec(rest_trimmed(c, "exec ".spec_bytes().len() as int))
    } else if first_index(c, PIPE) >= 0 {
        CommandView::Pipe(trimmed(c.subrange(0, first_index(c, PIPE))), rest_trimmed(c, first_index(c, PIPE) + 1))
    } else {
        CommandView::Run(c)
    }
}

/// The command in a line and whether it runs in the background (a trailing
/// `&`); `None` for a blank line.
pub open spec fn parse_spec(line: Seq<u8>) -> Option<(CommandView, bool)> {
    let c0 = trimmed(line);
    if c0.len() == 0 {
        None
    } else if c0.last() == AMPERSAND {
        Some((classify(trimmed(c0.drop_last())), true))
    } else {
        Some((classify(c0), false))
    }
}

fn to_vec(s: &[u8]) -> (v: Vec<u8>)
    ensures
        v@ == s@,
{
    let mut v: Vec<u8> = Vec::new();
    let mut i: usize = 0;
    while i < s.len()
        invariant
            i <= s@.len(),
            v@ == s@.subrange(0, i as int),
        decreases s@.len() - i,
    {
        v.push(s[i]);
        i = i + 1;
        assert(v@ =~= s@.subrange(0, i as int));
    }
    v
}

fn rest_trim(s: &[u8], from: usize) -> (v: Vec<u8>)
    requires
        from <= s@.len(),
    ensures
        v@ == rest_trimmed(s@, from as int),
{
    to_vec(trim(&s[from..s.len()]))
}

fn is_word(s: &[u8], w: &str) -> (r: bool)
    ensures
        r == (s@ == w.spec_bytes()),
{
    bytes_eq(s, w.as_bytes())
}

/// The length of `w` when `s` starts with it.
fn after_word(s: &[u8], w: &str) -> (r: Option<usize>)
    ensures
        match r {
            Some(n) => has_prefix(s@, w.spec_bytes()) && n == w.spec_bytes().len() && n <= s@.len(),
            None => !has_prefix(s@, w.spec_bytes()),
        },
{
    let wb = w.as_bytes();
    if starts_with(s, wb) {
        Some(wb.len())
    } else {
        None
    }
}

fn parse_echo(args: Vec<u8>) -> (c: ShellCommand)
    ensures
        c@ == echo_of(args@),
{
    match find_byte(args.as_slice(), GREATER) {
        Some(p) => {
            assert(p < args.len());
            let text = to_vec(trim(&args.as_slice()[0..p]));
            let path = rest_trim(args.as_slice(), p + 1);
            ShellCommand::EchoTo(text, path)
        },
        None => ShellCommand::Echo(args),
    }
}

fn classify_exec(c: &[u8]) -> (r: ShellCommand)
    ensures
        r@ == classify(c@),
{
    if is_word(c, "help") {
        ShellCommand::Help
    } else if is_word(c, "clear") {
        ShellCommand::Clear
    } else if is_word(c, "mem") {
        ShellCommand::Mem
    } else if is_word(c, "ps") {
        ShellCommand::Ps
    } else if is_word(c, "sysinfo") {
        ShellCommand::Sysinfo
    } else if is_word(c, "smpinfo") {
        ShellCommand::Smpinfo
    } else if is_word(c, "shutdown") {
        ShellCommand::Shutdown
    } else if is_word(c, "reboot") {
        ShellCommand::Reboot
    } else if is_word(c, "ls") || after_word(c, "ls ").is_some() {
        let n = "ls ".as_bytes().len();
        if c.len() > n {
            ShellCommand::Ls(rest_trim(c, n))
        } else {
            let mut v: Vec<u8> = Vec::new();
            v.push(SLASH);
            assert(v@ =~= seq![SLASH]);
            ShellCommand::Ls(v)
        }
    } else if let Some(n) = after_word(c, "touch ") {
        ShellCommand::Touch(rest_trim(c, n))
    } else if let Some(n) = after_word(c, "rm ") {
        ShellCommand::Rm(rest_trim(c, n))
    } else if let Some(n) = after_word(c, "mkdir ") {
        ShellCommand::Mkdir(rest_trim(c, n))
    } else if let Some(n) = after_word(c, "rmdir ") {
        ShellCommand::Rmdir(rest_trim(c, n))
    } else if let Some(n) = after_word(c, "cat ") {
        ShellCommand::Cat(rest_trim(c, n))
    } else if let Some(n) = after_word(c, "echo ") {
        parse_echo(rest_trim(c, n))
    } else if let Some(n) = after_word(c, "exec ") {
        ShellCommand::Exec(rest_trim(c, n))
    } else {
        match find_byte(c, PIPE) {
            Some(p) => {
                assert(p < c.len());
                ShellCommand::Pipe(to_vec(trim(&c[0..p])), rest_trim(c, p + 1))
            },
            None => ShellCommand::Run(to_vec(c)),
        }
    }
}

/// Parse a command line: blank lines give `None`; a trailing `&` asks for the
/// program to run in the background.
pub fn parse_command(line: &[u8]) -> (r: Option<(ShellCommand, bool)>)
    ensures
        match r {
            Some((c, bg)) => parse_spec(line@) == Some((c@, bg)),
            None => parse_spec(line@) is None,
        },
{
    let c0 = trim(line);
    if c0.len() == 0 {
        return None;
    }
    if c0[c0.len() - 1] == AMPERSAND {
        let c = trim(&c0[0..c0.len() - 1]);
        assert(c0@.subrange(0, c0@.len() - 1) =~= c0@.drop_last());
        Some((classify_exec(c), true))
    } else {
        Some((classify_exec(c0), false))
    }
}

/// A path given to a file command must be absolute.
pub fn is_absolute(path: &[u8]) -> (r: bool)
    ensures
        r == (path@.len() > 0 && path@[0] == SLASH),
{
    path.len() > 0 && path[0] == SLASH
}


// ── exec requests ───────────────────────────────────────────────────────────

/// The program a command name stands for: a name with a `/` is a path (made
/// absolute), any other name is `/bin/<name>.kxe`.
pub open spec fn exec_path(name: Seq<u8>) -> Seq<u8> {
    if first_index(name, SLASH) >= 0 {
        if name.len() > 0 && name[0] == SLASH { name } else { seq![SLASH] + name }
    } else {
        "/bin/".spec_bytes() + name + ".kxe".spec_bytes()
    }
}

/// Scanning `s`: the words finished so far (each followed by a NUL) and the
/// word still open at the end.
pub open spec fn words_scan(s: Seq<u8>) -> (Seq<u8>, Seq<u8>)
    decreases s.len(),
{
    if s.len() == 0 {
        (Seq::empty(), Seq::empty())
    } else {
        let (done, open) = words_scan(s.drop_last());
        if s.last() == SPACE {
            if open.len() > 0 { (done + open.push(0u8), Seq::empty()) } else { (done, open) }
        } else {
            (done, open.push(s.last()))
        }
    }
}

/// The space-separated words of `s`, each followed by a NUL.
pub open spec fn word_block(s: Seq<u8>) -> Seq<u8> {
    let (done, open) = words_scan(s);
    if open.len() > 0 { done + open.push(0u8) } else { done }
}

/// The program name of a command: up to its first space.
pub open spec fn command_name(cmd: Seq<u8>) -> Seq<u8> {
    if first_index(cmd, SPACE) >= 0 { cmd.subrange(0, first_index(cmd, SPACE)) } else { cmd }
}

/// The argument text of a command: after the name and one space, trimmed.
pub open spec fn command_args(cmd: Seq<u8>) -> Seq<u8> {
    let n = command_name(cmd).len();
    if cmd.len() > n + 1 { rest_trimmed(cmd, (n + 1) as int) } else { Seq::empty() }
}

/// What the exec call gets for a command: the program path, a NUL, then the
/// arguments each followed by a NUL; `None` when that exceeds `EXEC_BUF`.
pub open spec fn exec_request_spec(cmd: Seq<u8>) -> Option<Seq<u8>> {
    let req = exec_path(command_name(cmd)).push(0u8) + word_block(command_args(cmd));
    if req.len() > EXEC_BUF { None } else { Some(req) }
}

/// A plain command name (no `/`), the first `k` bytes of the command, names
/// the program `/bin/<name>.kxe`: when the request fits, it starts with
/// `/bin/`, the name, `.kxe` and a NUL.
pub proof fn law_exec_plain_name(cmd: Seq<u8>, k: int)
    requires
        0 <= k <= cmd.len(),
        forall|i: int| 0 <= i < k ==> cmd[i] != SPACE && cmd[i] != SLASH,
        k == cmd.len() || cmd[k] == SPACE,
    ensures
        exec_request_spec(cmd) matches Some(req) ==> {
            &&& req.len() >= k + 10
            &&& req.subrange(0, 5) == seq![0x2fu8, 0x62u8, 0x69u8, 0x6eu8, 0x2fu8]
            &&& req.subrange(5, 5 + k) == cmd.subrange(0, k)
            &&& req.subrange(5 + k, 9 + k) == seq![0x2eu8, 0x6bu8, 0x78u8, 0x65u8]
            &&& req[9 + k] == 0
        },
{
    crate::bytes::lemma_first_index(cmd, SPACE);
    let f = first_index(cmd, SPACE);
    if f >= 0 {
        assert(f >= k);
        assert(f == k);
    }
    let name = command_name(cmd);
    assert(name =~= cmd.subrange(0, k));
    crate::bytes::lemma_first_index(name, SLASH);
    assert(first_index(name, SLASH) < 0);
    let bin = "/bin/";
    let kxe = ".kxe";
    reveal_strlit("/bin/");
    reveal_strlit(".kxe");
    vstd::string::is_ascii_spec_bytes(bin);
    vstd::string::is_ascii_spec_bytes(kxe);
    assert(vstd::string::is_ascii(bin));
    assert(vstd::string::is_ascii(kxe));
    assert(bin.spec_bytes() =~= seq![0x2fu8, 0x62u8, 0x69u8, 0x6eu8, 0x2fu8]);
    assert(kxe.spec_bytes() =~= seq![0x2eu8, 0x6bu8, 0x78u8, 0x65u8]);
    let p = exec_path(name);
    assert(p == bin.spec_bytes() + name + kxe.spec_bytes());
    let req = p.push(0u8) + word_block(command_args(cmd));
    assert(req.subrange(0, 5) =~= seq![0x2fu8, 0x62u8, 0x69u8, 0x6eu8, 0x2fu8]);
    assert(req.subrange(5, 5 + k) =~= cmd.subrange(0, k));
    assert(req.subrange(5 + k, 9 + k) =~= seq![0x2eu8, 0x6bu8, 0x78u8, 0x65u8]);
}

/// A command name with a `/` in it, the first `k` bytes of the command, is
/// a path: when the request fits, it starts with that path (made absolute
/// by a leading `/` when it is not) and a NUL.
pub proof fn law_exec_path_name(cmd: Seq<u8>, k: int, j: int)
    requires
        0 <= j < k <= cmd.len(),
        cmd[j] == SLASH,
        forall|i: int| 0 <= i < k ==> cmd[i] != SPACE,
        k == cmd.len() || cmd[k] == SPACE,
    ensures
        exec_request_spec(cmd) matches Some(req) ==> if cmd[0] == SLASH {
            req.len() > k && req.subrange(0, k) == cmd.subrange(0, k) && req[k] == 0
        } else {
            req.len() > k + 1 && req[0] == SLASH && req.subrange(1, k + 1) == cmd.subrange(0, k) && req[k + 1] == 0
        },
{
    crate::bytes::lemma_first_index(cmd, SPACE);
    let f = first_index(cmd, SPACE);
    if f >= 0 {
        assert(f >= k);
        assert(f == k);
    }
    let name = command_name(cmd);
    assert(name =~= cmd.subrange(0, k));
    crate::bytes::lemma_first_index(name, SLASH);
    assert(name[j] == SLASH);
    assert(first_index(name, SLASH) >= 0);
    let req = exec_path(name).push(0u8) + word_block(command_args(cmd));
    if cmd[0] == SLASH {
        assert(req.subrange(0, k) =~= cmd.subrange(0, k));
    } else {
        assert(req.subrange(1, k + 1) =~= cmd.subrange(0, k));
    }
}

fn append_words(out: &mut Vec<u8>, args: &[u8])
    ensures
        final(out)@ == old(out)@ + word_block(args@),
{
    let ghost o = out@;
    let mut ws: usize = 0;
    let mut i: usize = 0;
    assert(args@.subrange(0, 0) =~= Seq::<u8>::empty());
    while i < args.len()
        invariant
            ws <= i <= args@.len(),
            out@ == o + words_scan(args@.subrange(0, i as int)).0,
            words_scan(args@.subrange(0, i as int)).1 == args@.subrange(ws as int, i as int),
        decreases args@.len() - i,
    {
        let ghost pre = args@.subrange(0, i as int);
        assert(args@.subrange(0, i + 1).drop_last() =~= pre);
        if args[i] == SPACE {
            if i > ws {
                push_all(out, &args[ws..i]);
                out.push(0u8);
                assert(out@ =~= o + (words_scan(pre).0 + words_scan(pre).1.push(0u8)));
            }
            ws = i + 1;
            assert(args@.subrange(ws as int, i + 1) =~= Seq::<u8>::empty());
        } else {
            assert(args@.subrange(ws as int, i + 1) =~= args@.subrange(ws as int, i as int).push(args@[i as int]));
        }
        i = i + 1;
    }
    assert(args@.subrange(0, args@.len() as int) =~= args@);
    if ws < args.len() {
        push_all(out, &args[ws..args.len()]);
        out.push(0u8);
        assert(out@ =~= o + word_block(args@));
    } else {
        assert(args@.subrange(ws as int, args@.len() as int) =~= Seq::<u8>::empty());
        assert(out@ =~= o + word_block(args@));
    }
}

/// Build the exec request for a command (see `exec_request_spec`).
pub fn exec_request(cmd: &[u8]) -> (r: Option<Vec<u8>>)
    ensures
        match r {
            Some(v) => exec_request_spec(cmd@) == Some(v@),
            None => exec_request_spec(cmd@) is None,
        },
{
    let name: &[u8] = match find_byte(cmd, SPACE) {
        Some(i) => &cmd[0..i],
        None => cmd,
    };
    assert(name@.len() <= cmd@.len());
    let args: &[u8] = if cmd.len() - name.len() > 1 {
        trim(&cmd[name.len() + 1..cmd.len()])
    } else {
        &cmd[0..0]
    };
    assert(name@ == command_name(cmd@));
    assert(args@ =~= command_args(cmd@));
    let mut out: Vec<u8> = Vec::new();
    let has_slash = find_byte(name, SLASH).is_some();
    if has_slash {
        if name.len() > 0 && name[0] == SLASH {
            push_all(&mut out, name);
        } else {
            out.push(SLASH);
            push_all(&mut out, name);
        }
    } else {
        push_all(&mut out, "/bin/".as_bytes());
        push_all(&mut out, name);
        push_all(&mut out, ".kxe".as_bytes());
    }
    assert(out@ =~= exec_path(name@));
    out.push(0u8);
    append_words(&mut out, args);
    if out.len() > EXEC_BUF {
        None
    } else {
        Some(out)
    }
}


// ── history and line editing ────────────────────────────────────────────────

/// The last `MAX_HISTORY` command lines, in a ring.
pub struct History {
    entries: Vec<Vec<u8>>,
    count: usize,
}

pub struct HistoryView {
    /// The ring's slots.
    pub entries: Seq<Seq<u8>>,
    /// Lines ever added (wrapping); the next goes to slot `count % MAX_HISTORY`.
    pub count: usize,
}

impl View for History {
    type V = HistoryView;

    closed spec fn view(&self) -> HistoryView {
        HistoryView { entries: self.entries@.map_values(|e: Vec<u8>| e@), count: self.count }
    }
}

/// A well-formed ring: `MAX_HISTORY` slots, each shorter than a line buffer.
pub open spec fn history_wf(h: HistoryView) -> bool {
    &&& h.entries.len() == MAX_HISTORY
    &&& forall|i: int| 0 <= i < MAX_HISTORY ==> #[trigger] h.entries[i].len() < BUF_SIZE
}

/// The line recalled `age` steps back (1: the newest).
pub open spec fn recalled(h: HistoryView, age: nat) -> Seq<u8> {
    h.entries[((h.count - age) % (MAX_HISTORY as int))]
}

/// How far back the history reaches.
pub open spec fn depth(h: HistoryView) -> nat {
    if h.count < MAX_HISTORY { h.count as nat } else { MAX_HISTORY as nat }
}

/// The history after adding `line`.
pub open spec fn pushed(h: HistoryView, line: Seq<u8>) -> HistoryView {
    HistoryView {
        entries: h.entries.update((h.count % MAX_HISTORY) as int, line),
        count: vstd::wrapping::usize_specs::wrapping_add(h.count, 1),
    }
}

impl History {
    /// An empty history.
    pub fn new() -> (h: Self)
        ensures
            h@.count == 0,
            h@.entries == Seq::new(MAX_HISTORY as nat, |i: int| Seq::<u8>::empty()),
            history_wf(h@),
    {
        let mut entries: Vec<Vec<u8>> = Vec::new();
        let mut i: usize = 0;
        while i < MAX_HISTORY
            invariant
                i <= MAX_HISTORY,
                entries@.len() == i,
                forall|j: int| 0 <= j < i ==> #[trigger] entries@[j]@ == Seq::<u8>::empty(),
            decreases MAX_HISTORY - i,
        {
            entries.push(Vec::new());
            i = i + 1;
        }
        let h = History { entries, count: 0 };
        assert(h@.entries =~= Seq::new(MAX_HISTORY as nat, |i: int| Seq::<u8>::empty()));
        h
    }

    /// Add a line.
    pub fn push(&mut self, line: &[u8])
        requires
            history_wf(old(self)@),
            line@.len() < BUF_SIZE,
        ensures
            final(self)@ == pushed(old(self)@, line@),
            history_wf(final(self)@),
    {
        let slot = self.count % MAX_HISTORY;
        let ghost before = self.entries@;
        assert(self.entries@.len() == self@.entries.len());
        self.entries.set(slot, to_vec(line));
        proof {
            assert(self.entries@.map_values(|e: Vec<u8>| e@) =~= before.map_values(|e: Vec<u8>| e@).update(
                slot as int,
                line@,
            ));
        }
        self.count = self.count.wrapping_add(1);
    }

    /// The line `age` steps back (1: the newest).
    pub fn recall(&self, age: usize) -> (r: Vec<u8>)
        requires
            history_wf(self@),
            1 <= age <= depth(self@),
        ensures
            r@ == recalled(self@, age as nat),
    {
        let slot = (self.count - age) % MAX_HISTORY;
        assert(self.entries@.len() == self@.entries.len());
        let e = &self.entries[slot];
        to_vec(e.as_slice())
    }

    pub fn depth(&self) -> (d: usize)
        ensures
            d == depth(self@),
    {
        if self.count < MAX_HISTORY { self.count } else { MAX_HISTORY }
    }
}

/// What one input byte did.
pub enum InputEvent {
    /// Keep reading.
    Continue,
    /// Enter: the line is done (and was added to the history if not empty).
    Line(Vec<u8>),
    /// Ctrl+C: the line is abandoned.
    Cancel,
}

pub enum InputEventView {
    Continue,
    Line(Seq<u8>),
    Cancel,
}

impl View for InputEvent {
    type V = InputEventView;

    open spec fn view(&self) -> InputEventView {
        match self {
            InputEvent::Continue => InputEventView::Continue,
            InputEvent::Line(l) => InputEventView::Line(l@),
            InputEvent::Cancel => InputEventView::Cancel,
        }
    }
}

/// The shell's input: the line being edited and the history. Arrows arrive
/// as the bytes 0x80 (left), 0x81 (right), 0x82 (up: older history) and 0x83
/// (down: newer).
pub struct ShellInput {
    line: Vec<u8>,
    pos: usize,
    age: usize,
    saved: Vec<u8>,
    hist: History,
}

pub struct InputView {
    pub line: Seq<u8>,
    pub pos: nat,
    /// How far back in the history the line was recalled from (0: typed).
    pub age: nat,
    /// The typed line, kept while browsing the history.
    pub saved: Seq<u8>,
    pub hist: HistoryView,
}

impl View for ShellInput {
    type V = InputView;

    closed spec fn view(&self) -> InputView {
        InputView {
            line: self.line@,
            pos: self.pos as nat,
            age: self.age as nat,
            saved: self.saved@,
            hist: self.hist@,
        }
    }
}

/// A fresh line over history `h`.
pub open spec fn fresh_input(h: HistoryView) -> InputView {
    InputView { line: Seq::empty(), pos: 0, age: 0, saved: Seq::empty(), hist: h }
}

/// One byte of input applied to the line and the history.
pub open spec fn input_step(v: InputView, b: u8) -> (InputView, InputEventView) {
    if b == 0x0a || b == 0x0d {
        (
            fresh_input(if v.line.len() > 0 { pushed(v.hist, v.line) } else { v.hist }),
            InputEventView::Line(v.line),
        )
    } else if b == 0x03 {
        (fresh_input(v.hist), InputEventView::Cancel)
    } else if b == 0x08 || b == 0x7f {
        (
            if v.pos > 0 { InputView { line: v.line.remove(v.pos - 1), pos: (v.pos - 1) as nat, ..v } } else { v },
            InputEventView::Continue,
        )
    } else if b == 0x80 {
        (InputView { pos: if v.pos > 0 { (v.pos - 1) as nat } else { 0 }, ..v }, InputEventView::Continue)
    } else if b == 0x81 {
        (InputView { pos: if v.pos < v.line.len() { v.pos + 1 } else { v.pos }, ..v }, InputEventView::Continue)
    } else if b == 0x82 {
        (
            if v.age < depth(v.hist) {
                let l = recalled(v.hist, v.age + 1);
                InputView { line: l, pos: l.len(), age: v.age + 1, saved: if v.age == 0 { v.line } else { v.saved }, ..v }
            } else {
                v
            },
            InputEventView::Continue,
        )
    } else if b == 0x83 {
        (
            if v.age > 0 {
                let l = if v.age == 1 { v.saved } else { recalled(v.hist, (v.age - 1) as nat) };
                InputView { line: l, pos: l.len(), age: (v.age - 1) as nat, ..v }
            } else {
                v
            },
            InputEventView::Continue,
        )
    } else if 0x20 <= b < 0x7f {
        (
            if v.line.len() < BUF_SIZE - 1 {
                InputView { line: v.line.insert(v.pos as int, b), pos: v.pos + 1, ..v }
            } else {
                v
            },
            InputEventView::Continue,
        )
    } else {
        (v, InputEventView::Continue)
    }
}

impl ShellInput {
    #[verifier::type_invariant]
    closed spec fn inv(&self) -> bool {
        &&& self.line@.len() < BUF_SIZE
        &&& self.pos <= self.line@.len()
        &&& self.saved@.len() < BUF_SIZE
        &&& history_wf(self.hist@)
        &&& self.age <= depth(self.hist@)
    }

    /// An empty line and an empty history.
    pub fn new() -> (s: Self)
        ensures
            s@ == fresh_input(HistoryView {
                entries: Seq::new(MAX_HISTORY as nat, |i: int| Seq::<u8>::empty()),
                count: 0,
            }),
    {
        ShellInput { line: Vec::new(), pos: 0, age: 0, saved: Vec::new(), hist: History::new() }
    }

    /// The line as typed (or recalled).
    pub fn line(&self) -> (l: &[u8])
        ensures
            l@ == self@.line,
    {
        self.line.as_slice()
    }

    /// The cursor position in the line.
    pub fn pos(&self) -> (p: usize)
        ensures
            p == self@.pos,
    {
        self.pos
    }

    fn set_line(&mut self, l: Vec<u8>, pos: usize)
        requires
            l@.len() < BUF_SIZE,
            pos <= l@.len(),
        ensures
            final(self)@ == (InputView { line: l@, pos: pos as nat, ..old(self)@ }),
    {
        proof {
            use_type_invariant(&*self);
        }
        self.pos = 0;
        self.line = l;
        self.pos = pos;
    }

    /// Apply one input byte (see `input_step`).
    pub fn feed(&mut self, b: u8) -> (ev: InputEvent)
        ensures
            (final(self)@, ev@) == input_step(old(self)@, b),
    {
        proof {
            use_type_invariant(&*self);
        }
        if b == 0x0a || b == 0x0d {
            let mut line: Vec<u8> = Vec::new();
            self.pos = 0;
            std::mem::swap(&mut line, &mut self.line);
            self.age = 0;
            self.saved = Vec::new();
            let mut h = History::new();
            std::mem::swap(&mut h, &mut self.hist);
            if line.len() > 0 {
                h.push(line.as_slice());
            }
            self.hist = h;
            InputEvent::Line(line)
        } else if b == 0x03 {
            self.pos = 0;
            self.line = Vec::new();
            self.age = 0;
            self.saved = Vec::new();
            InputEvent::Cancel
        } else if b == 0x08 || b == 0x7f {
            if self.pos > 0 {
                let p = self.pos - 1;
                let mut l = to_vec(self.line.as_slice());
                l.remove(p);
                self.set_line(l, p);
            }
            InputEvent::Continue
        } else if b == 0x80 {
            if self.pos > 0 {
                self.pos = self.pos - 1;
            }
            InputEvent::Continue
        } else if b == 0x81 {
            if self.pos < self.line.len() {
                self.pos = self.pos + 1;
            }
            InputEvent::Continue
        } else if b == 0x82 {
            if self.age < self.hist.depth() {
                if self.age == 0 {
                    self.saved = to_vec(self.line.as_slice());
                }
                let a = self.age + 1;
                let l = self.hist.recall(a);
                let n = l.len();
                self.set_line(l, n);
                self.age = a;
            }
            InputEvent::Continue
        } else if b == 0x83 {
            if self.age > 0 {
                let a = self.age - 1;
                let l = if a == 0 {
                    to_vec(self.saved.as_slice())
                } else {
                    self.hist.recall(a)
                };
                let n = l.len();
                self.age = a;
                self.set_line(l, n);
            }
            InputEvent::Continue
        } else if 0x20 <= b && b < 0x7f {
            if self.line.len() < BUF_SIZE - 1 {
                let p = self.pos;
                let mut l = to_vec(self.line.as_slice());
                l.insert(p, b);
                self.set_line(l, p + 1);
            }
            InputEvent::Continue
        } else {
            InputEvent::Continue
        }
    }
}

/// Prompt printed before the line.
pub open spec fn prompt_bytes() -> Seq<u8> {
    "KazuOS> ".spec_bytes()
}

/// Longest redraw output.
pub const REDRAW_CAP: usize = 288;

/// The ANSI output that repaints the line: return, erase the line, prompt,
/// text, and, when the cursor is not at the end, `ESC [ n D` to move it back
/// `n` places; cut at `REDRAW_CAP` bytes.
pub open spec fn redraw_spec(line: Seq<u8>, pos: nat) -> Seq<u8> {
    let base = "\r\x1b[K".spec_bytes() + prompt_bytes() + line;
    let full = if pos < line.len() {
        base + "\x1b[".spec_bytes() + dec_digits((line.len() - pos) as nat) + "D".spec_bytes()
    } else {
        base
    };
    if full.len() > REDRAW_CAP { full.subrange(0, REDRAW_CAP as int) } else { full }
}

/// The repaint output for `line` with the cursor at `pos`.
pub fn redraw_bytes(line: &[u8], pos: usize) -> (v: Vec<u8>)
    ensures
        v@ == redraw_spec(line@, pos as nat),
{
    let mut out: Vec<u8> = Vec::new();
    push_all(&mut out, "\r\x1b[K".as_bytes());
    push_all(&mut out, "KazuOS> ".as_bytes());
    push_all(&mut out, line);
    if pos < line.len() {
        push_all(&mut out, "\x1b[".as_bytes());
        let digits = fmt_dec((line.len() - pos) as u64);
        push_all(&mut out, digits.as_slice());
        push_all(&mut out, "D".as_bytes());
    }
    if out.len() > REDRAW_CAP {
        out.truncate(REDRAW_CAP);
    }
    out
}


// ── laws ────────────────────────────────────────────────────────────────────

/// The newest history entry is the line just added.
pub proof fn law_recall_newest(h: HistoryView, line: Seq<u8>)
    requires
        history_wf(h),
        h.count < usize::MAX,
    ensures
        depth(pushed(h, line)) >= 1,
        recalled(pushed(h, line), 1) == line,
{
    let c = h.count as int;
    assert((c + 1 - 1) % (MAX_HISTORY as int) == c % (MAX_HISTORY as int));
}

/// Going up into the history and back down restores the typed line.
pub proof fn law_up_down_restores(v: InputView)
    requires
        v.age == 0,
        depth(v.hist) >= 1,
    ensures
        input_step(input_step(v, 0x82).0, 0x83).0.line == v.line,
        input_step(input_step(v, 0x82).0, 0x83).0.age == 0,
{
}

/// Typing a printable byte and erasing it gives back the line and cursor,
/// whenever the byte was taken.
pub proof fn law_type_then_erase(v: InputView, b: u8)
    requires
        0x20 <= b < 0x7f,
        v.line.len() < BUF_SIZE - 1,
        v.pos <= v.line.len(),
    ensures
        input_step(input_step(v, b).0, 0x08).0 == v,
{
    assert(v.line.insert(v.pos as int, b).remove(v.pos as int) =~= v.line);
}


// ── command helpers ─────────────────────────────────────────────────────────

/// The directory `ls` lists: the argument made absolute; `None` when that
/// does not fit a line buffer.
pub open spec fn ls_path_spec(raw: Seq<u8>) -> Option<Seq<u8>> {
    if has_prefix(raw, seq![SLASH]) {
        Some(raw)
    } else if 1 + raw.len() > BUF_SIZE {
        None
    } else {
        Some(seq![SLASH] + raw)
    }
}

pub fn ls_path(raw: &[u8]) -> (r: Option<Vec<u8>>)
    ensures
        match r {
            Some(v) => ls_path_spec(raw@) == Some(v@),
            None => ls_path_spec(raw@) is None,
        },
{
    let slash: [u8; 1] = [SLASH];
    assert(slash@ =~= seq![SLASH]);
    if starts_with(raw, &slash) {
        Some(to_vec(raw))
    } else if raw.len() > BUF_SIZE - 1 {
        None
    } else {
        let mut v: Vec<u8> = Vec::new();
        v.push(SLASH);
        push_all(&mut v, raw);
        assert(v@ =~= seq![SLASH] + raw@);
        Some(v)
    }
}

/// Memory figures from the packed `SYS_MEM_INFO` answer (total KiB in the
/// high half, used KiB in the low half): total, used and free (saturating);
/// `None` when the answer is 0 (no physical memory manager).
pub fn mem_figures(info: u64) -> (r: Option<(u64, u64, u64)>)
    ensures
        info == 0 ==> r is None,
        info != 0 ==> r == Some((
            info / 0x1_0000_0000,
            info % 0x1_0000_0000,
            if info / 0x1_0000_0000 >= info % 0x1_0000_0000 {
                (info / 0x1_0000_0000 - info % 0x1_0000_0000) as u64
            } else {
                0u64
            },
        )),
{
    if info == 0 {
        return None;
    }
    let total = info >> 32;
    let used = info & 0xffff_ffff;
    assert((info >> 32) == info / 0x1_0000_0000) by (bit_vector);
    assert((info & 0xffff_ffff) == info % 0x1_0000_0000) by (bit_vector);
    Some((total, used, total.saturating_sub(used)))
}

/// The eight-column state label `ps` prints for a process state number.
pub fn state_label(state: u64) -> (s: &'static str)
    ensures
        state == 1 ==> s@ == "ready   "@,
        state == 2 ==> s@ == "running "@,
        state == 3 ==> s@ == "sleeping"@,
        state == 4 ==> s@ == "exited  "@,
        !(1 <= state <= 4) ==> s@ == "unknown "@,
{
    match state {
        1 => "ready   ",
        2 => "running ",
        3 => "sleeping",
        4 => "exited  ",
        _ => "unknown ",
    }
}

} // verus!
