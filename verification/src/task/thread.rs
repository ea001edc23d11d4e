//! The thread table: per-thread scheduling state, saved user context and the
//! blocking/wakeup protocol.
//!
//! A thread that blocks in a syscall records where its syscall frame lives
//! (`blocking_rsp`) together with the frame's register words; a wakeup copies
//! those registers back into the user context with the syscall's return value in
//! `rax`, marks the thread Ready and clears what it was waiting for.
use vstd::prelude::*;
use crate::task::process::{PrivilegeLevel, WaitTarget};

verus! {

pub const KERNEL_STACK_SIZE: u64 = 65536;

/// Number of 64-bit words in a blocking syscall frame (15 registers, then the
/// iret frame rip, cs, rflags, rsp).
pub const BLOCKING_FRAME_WORDS: usize = 18;

/// Number of 64-bit words a fresh kernel task's initial stack frame holds.
pub const KERNEL_TASK_FRAME_WORDS: usize = 20;

#[derive(Clone, Copy, PartialEq, Eq, Structural, Debug)]
pub enum ThreadState {
    Empty,
    Ready,
    Running,
    Sleeping,
    Exited,
}

impl ThreadState {
    pub fn name(self) -> (r: &'static str)
        ensures
            r@ == state_name(self as u8),
    {
        match self {
            ThreadState::Empty => "empty",
            ThreadState::Ready => "ready",
            ThreadState::Running => "running",
            ThreadState::Sleeping => "sleeping",
            ThreadState::Exited => "exited",
        }
    }
}

/// Display name of a thread or process state, by the state's number (0 empty,
/// 1 ready, 2 running, 3 sleeping, 4 exited).
pub open spec fn state_name(n: u8) -> Seq<char> {
    if n == 0 {
        "empty"@
    } else if n == 1 {
        "ready"@
    } else if n == 2 {
        "running"@
    } else if n == 3 {
        "sleeping"@
    } else {
        "exited"@
    }
}

#[derive(Clone, Copy, PartialEq, Eq, Structural, Debug)]
pub struct UserContext {
    pub rax: u64,
    pub rbx: u64,
    pub rcx: u64,
    pub rdx: u64,
    pub rsi: u64,
    pub rdi: u64,
    pub rbp: u64,
    pub r8: u64,
    pub r9: u64,
    pub r10: u64,
    pub r11: u64,
    pub r12: u64,
    pub r13: u64,
    pub r14: u64,
    pub r15: u64,
    pub rip: u64,
    pub rsp: u64,
    pub rflags: u64,
    pub cr3: u64,
    pub kernel_rsp: u64,
    pub user_stack_top: u64,
}

/// All registers zero, interrupts enabled.
pub open spec fn empty_context() -> UserContext {
    UserContext {
        rax: 0,
        rbx: 0,
        rcx: 0,
        rdx: 0,
        rsi: 0,
        rdi: 0,
        rbp: 0,
        r8: 0,
        r9: 0,
        r10: 0,
        r11: 0,
        r12: 0,
        r13: 0,
        r14: 0,
        r15: 0,
        rip: 0,
        rsp: 0,
        rflags: 0x202,
        cr3: 0,
        kernel_rsp: 0,
        user_stack_top: 0,
    }
}

/// The context a fresh thread starts from: all registers zero, interrupts
/// enabled.
pub fn empty_user_context() -> (c: UserContext)
    ensures
        c == empty_context(),
{
    UserContext {
        rax: 0,
        rbx: 0,
        rcx: 0,
        rdx: 0,
        rsi: 0,
        rdi: 0,
        rbp: 0,
        r8: 0,
        r9: 0,
        r10: 0,
        r11: 0,
        r12: 0,
        r13: 0,
        r14: 0,
        r15: 0,
        rip: 0,
        rsp: 0,
        rflags: 0x202,
        cr3: 0,
        kernel_rsp: 0,
        user_stack_top: 0,
    }
}

#[derive(Clone, Copy)]
pub struct Thread {
    pub tid: u64,
    pub pid: u64,
    pub state: ThreadState,
    pub cpu_ticks: u64,
    pub user_context: UserContext,
    pub kernel_rsp: u64,
    pub kernel_stack_base: u64,
    pub kernel_preempted: bool,
    pub blocking_rsp: u64,
    /// The register words of the blocking syscall frame at `blocking_rsp`.
    pub blocking_frame: [u64; BLOCKING_FRAME_WORDS],
    pub blocking_retval: u64,
    pub wait_target: WaitTarget,
    pub privilege: PrivilegeLevel,
    pub assigned_cpu: usize,
}

pub struct ThreadTable {
    threads: Vec<Thread>,
    next_tid: u64,
    next_assign_cpu: usize,
    initialized: bool,
}

impl View for ThreadTable {
    type V = Seq<Thread>;

    closed spec fn view(&self) -> Seq<Thread> {
        self.threads@
    }
}

impl ThreadTable {
    /// Every thread id in the table is below the next id to hand out, which is
    /// never 0 (tid 0 means "no thread").
    #[verifier::type_invariant]
    closed spec fn inv(&self) -> bool {
        self.next_tid >= 1 && tids_below(self.threads@, self.next_tid)
    }

    /// The next thread id to hand out.
    pub closed spec fn next_tid_spec(&self) -> u64 {
        self.next_tid
    }

    /// Round-robin counter for CPU assignment.
    pub closed spec fn next_cpu_spec(&self) -> usize {
        self.next_assign_cpu
    }

    pub closed spec fn initialized_spec(&self) -> bool {
        self.initialized
    }

    /// An empty, uninitialised table.
    pub fn new() -> (t: Self)
        ensures
            t@ == Seq::<Thread>::empty(),
            t.next_tid_spec() == 1,
            t.next_cpu_spec() == 0,
            !t.initialized_spec(),
    {
        ThreadTable { threads: Vec::new(), next_tid: 1, next_assign_cpu: 0, initialized: false }
    }
}

/// The thread records, in table order.
pub fn threads_slice(tt: &ThreadTable) -> (v: &[Thread])
    ensures
        v@ == tt@,
{
    tt.threads.as_slice()
}

// ── lookup by tid ───────────────────────────────────────────────────────────

/// Index of the first thread from `i` on with id `tid`, or -1.
pub open spec fn find_from(s: Seq<Thread>, tid: u64, i: int) -> int
    decreases s.len() - i,
{
    if i < 0 || i >= s.len() {
        -1
    } else if s[i].tid == tid {
        i
    } else {
        find_from(s, tid, i + 1)
    }
}

/// Index of the first thread with id `tid`, or -1.
pub open spec fn find_tid(s: Seq<Thread>, tid: u64) -> int {
    find_from(s, tid, 0)
}

pub proof fn lemma_find_from(s: Seq<Thread>, tid: u64, i: int)
    requires
        0 <= i,
    ensures
        -1 <= find_from(s, tid, i) < s.len(),
        find_from(s, tid, i) >= 0 ==> find_from(s, tid, i) >= i && s[find_from(s, tid, i)].tid == tid,
        find_from(s, tid, i) >= 0 ==> forall|j: int| i <= j < find_from(s, tid, i) ==> s[j].tid != tid,
        find_from(s, tid, i) == -1 ==> forall|j: int| i <= j < s.len() ==> s[j].tid != tid,
    decreases s.len() - i,
{
    if i < s.len() && s[i].tid != tid {
        lemma_find_from(s, tid, i + 1);
    }
}

pub proof fn lemma_find_tid(s: Seq<Thread>, tid: u64)
    ensures
        -1 <= find_tid(s, tid) < s.len(),
        find_tid(s, tid) >= 0 ==> s[find_tid(s, tid)].tid == tid,
        find_tid(s, tid) >= 0 ==> forall|j: int| 0 <= j < find_tid(s, tid) ==> s[j].tid != tid,
        find_tid(s, tid) == -1 ==> forall|j: int| 0 <= j < s.len() ==> s[j].tid != tid,
{
    lemma_find_from(s, tid, 0);
}

proof fn lemma_same_tids_from(s: Seq<Thread>, t: Seq<Thread>, tid: u64, i: int)
    requires
        t.len() == s.len(),
        forall|j: int| 0 <= j < s.len() ==> #[trigger] t[j].tid == s[j].tid,
        0 <= i,
    ensures
        find_from(t, tid, i) == find_from(s, tid, i),
    decreases s.len() - i,
{
    if i < s.len() && s[i].tid != tid {
        lemma_same_tids_from(s, t, tid, i + 1);
    }
}

/// Two tables with the same ids, position by position, find every id at the
/// same place.
pub proof fn lemma_same_tids(s: Seq<Thread>, t: Seq<Thread>, tid: u64)
    requires
        t.len() == s.len(),
        forall|j: int| 0 <= j < s.len() ==> #[trigger] t[j].tid == s[j].tid,
    ensures
        find_tid(t, tid) == find_tid(s, tid),
{
    lemma_same_tids_from(s, t, tid, 0);
}

/// Replacing a thread by one with the same id keeps every lookup in place.
pub proof fn lemma_find_after_update(s: Seq<Thread>, k: int, x: Thread, tid: u64)
    requires
        0 <= k < s.len(),
        x.tid == s[k].tid,
    ensures
        find_tid(s.update(k, x), tid) == find_tid(s, tid),
{
    let t = s.update(k, x);
    assert forall|j: int| 0 <= j < s.len() implies #[trigger] t[j].tid == s[j].tid by {
        if j == k {
        }
    }
    lemma_same_tids(s, t, tid);
}

/// The thread with id `tid`, if any.
pub open spec fn thread_of(s: Seq<Thread>, tid: u64) -> Option<Thread> {
    if find_tid(s, tid) >= 0 {
        Some(s[find_tid(s, tid)])
    } else {
        None
    }
}

/// Apply `f` to the thread with id `tid`, if any.
pub open spec fn update_thread(s: Seq<Thread>, tid: u64, f: spec_fn(Thread) -> Thread) -> Seq<Thread> {
    if find_tid(s, tid) >= 0 {
        s.update(find_tid(s, tid), f(s[find_tid(s, tid)]))
    } else {
        s
    }
}

fn find_index(tt: &ThreadTable, tid: u64) -> (r: Option<usize>)
    ensures
        match r {
            Some(i) => i as int == find_tid(tt@, tid) && i < tt@.len(),
            None => find_tid(tt@, tid) == -1,
        },
{
    let mut i: usize = 0;
    while i < tt.threads.len()
        invariant
            i <= tt@.len(),
            find_tid(tt@, tid) == find_from(tt@, tid, i as int),
        decreases tt@.len() - i,
    {
        if tt.threads[i].tid == tid {
            return Some(i);
        }
        i = i + 1;
    }
    None
}

/// Replace the thread at index `i` by one with the same id.
fn put(tt: &mut ThreadTable, i: usize, t: Thread)
    requires
        i < old(tt)@.len(),
        t.tid == old(tt)@[i as int].tid,
    ensures
        final(tt)@ == old(tt)@.update(i as int, t),
        final(tt).next_tid_spec() == old(tt).next_tid_spec(),
        final(tt).next_cpu_spec() == old(tt).next_cpu_spec(),
        final(tt).initialized_spec() == old(tt).initialized_spec(),
{
    proof {
        use_type_invariant(&*tt);
    }
    let mut v: Vec<Thread> = Vec::new();
    std::mem::swap(&mut v, &mut tt.threads);
    v.set(i, t);
    proof {
        assert forall|j: int| 0 <= j < v@.len() implies v@[j].tid < tt.next_tid by {
            if j != i {
            }
        }
    }
    tt.threads = v;
}

/// Same table counters.
pub open spec fn same_counters(a: &ThreadTable, b: &ThreadTable) -> bool {
    &&& a.next_tid_spec() == b.next_tid_spec()
    &&& a.next_cpu_spec() == b.next_cpu_spec()
    &&& a.initialized_spec() == b.initialized_spec()
}

// ── state transitions ───────────────────────────────────────────────────────

pub open spec fn is_live_state(s: ThreadState) -> bool {
    !(s == ThreadState::Empty || s == ThreadState::Exited)
}

pub open spec fn is_schedulable_state(s: ThreadState) -> bool {
    s == ThreadState::Ready || s == ThreadState::Running || s == ThreadState::Sleeping
}

/// A thread that is neither empty nor exited becomes Running.
pub open spec fn run_thread(t: Thread) -> Thread {
    if is_live_state(t.state) { Thread { state: ThreadState::Running, ..t } } else { t }
}

/// A Ready, Running or Sleeping thread becomes Ready.
pub open spec fn ready_thread(t: Thread) -> Thread {
    if is_schedulable_state(t.state) { Thread { state: ThreadState::Ready, ..t } } else { t }
}

/// A thread that is neither empty nor exited becomes Sleeping.
pub open spec fn sleep_thread(t: Thread) -> Thread {
    if is_live_state(t.state) { Thread { state: ThreadState::Sleeping, ..t } } else { t }
}

pub fn set_running(tt: &mut ThreadTable, tid: u64)
    ensures
        final(tt)@ == update_thread(old(tt)@, tid, |t: Thread| run_thread(t)),
        same_counters(final(tt), old(tt)),
{
    if let Some(i) = find_index(tt, tid) {
        let t = tt.threads[i];
        if !matches!(t.state, ThreadState::Empty | ThreadState::Exited) {
            put(tt, i, Thread { state: ThreadState::Running, ..t });
        }
    }
}

pub fn set_ready(tt: &mut ThreadTable, tid: u64)
    ensures
        final(tt)@ == update_thread(old(tt)@, tid, |t: Thread| ready_thread(t)),
        same_counters(final(tt), old(tt)),
{
    if let Some(i) = find_index(tt, tid) {
        let t = tt.threads[i];
        if matches!(t.state, ThreadState::Ready | ThreadState::Running | ThreadState::Sleeping) {
            put(tt, i, Thread { state: ThreadState::Ready, ..t });
        }
    }
}

pub fn set_sleeping(tt: &mut ThreadTable, tid: u64)
    ensures
        final(tt)@ == update_thread(old(tt)@, tid, |t: Thread| sleep_thread(t)),
        same_counters(final(tt), old(tt)),
{
    if let Some(i) = find_index(tt, tid) {
        let t = tt.threads[i];
        if !matches!(t.state, ThreadState::Empty | ThreadState::Exited) {
            put(tt, i, Thread { state: ThreadState::Sleeping, ..t });
        }
    }
}

/// Move `tid` to `state` by the matching transition; Empty and Exited requests
/// are ignored.
pub fn set_state(tt: &mut ThreadTable, tid: u64, state: ThreadState)
    ensures
        state == ThreadState::Ready ==> final(tt)@ == update_thread(old(tt)@, tid, |t: Thread| ready_thread(t)),
        state == ThreadState::Running ==> final(tt)@ == update_thread(old(tt)@, tid, |t: Thread| run_thread(t)),
        state == ThreadState::Sleeping ==> final(tt)@ == update_thread(old(tt)@, tid, |t: Thread| sleep_thread(t)),
        (state == ThreadState::Empty || state == ThreadState::Exited) ==> final(tt)@ == old(tt)@,
        same_counters(final(tt), old(tt)),
{
    match state {
        ThreadState::Ready => set_ready(tt, tid),
        ThreadState::Running => set_running(tt, tid),
        ThreadState::Sleeping => set_sleeping(tt, tid),
        _ => {},
    }
}

pub fn state(tt: &ThreadTable, tid: u64) -> (r: Option<ThreadState>)
    ensures
        r == (match thread_of(tt@, tid) {
            Some(t) => Some(t.state),
            None => None::<ThreadState>,
        }),
{
    match find_index(tt, tid) {
        Some(i) => Some(tt.threads[i].state),
        None => None,
    }
}

// ── field accessors ─────────────────────────────────────────────────────────

pub fn set_user_context(tt: &mut ThreadTable, tid: u64, context: UserContext)
    ensures
        final(tt)@ == update_thread(old(tt)@, tid, |t: Thread| Thread { user_context: context, ..t }),
        same_counters(final(tt), old(tt)),
{
    if let Some(i) = find_index(tt, tid) {
        let t = tt.threads[i];
        put(tt, i, Thread { user_context: context, ..t });
    }
}

pub fn user_context(tt: &ThreadTable, tid: u64) -> (r: Option<UserContext>)
    ensures
        r == (match thread_of(tt@, tid) {
            Some(t) => Some(t.user_context),
            None => None::<UserContext>,
        }),
{
    match find_index(tt, tid) {
        Some(i) => Some(tt.threads[i].user_context),
        None => None,
    }
}

pub fn user_cr3(tt: &ThreadTable, tid: u64) -> (r: Option<u64>)
    ensures
        r == (match thread_of(tt@, tid) {
            Some(t) => Some(t.user_context.cr3),
            None => None::<u64>,
        }),
{
    match user_context(tt, tid) {
        Some(ctx) => Some(ctx.cr3),
        None => None,
    }
}

pub fn kernel_rsp(tt: &ThreadTable, tid: u64) -> (r: Option<u64>)
    ensures
        r == (match thread_of(tt@, tid) {
            Some(t) => Some(t.kernel_rsp),
            None => None::<u64>,
        }),
{
    match find_index(tt, tid) {
        Some(i) => Some(tt.threads[i].kernel_rsp),
        None => None,
    }
}

pub fn set_kernel_rsp(tt: &mut ThreadTable, tid: u64, rsp: u64)
    ensures
        final(tt)@ == update_thread(old(tt)@, tid, |t: Thread| Thread { kernel_rsp: rsp, ..t }),
        same_counters(final(tt), old(tt)),
{
    if let Some(i) = find_index(tt, tid) {
        let t = tt.threads[i];
        put(tt, i, Thread { kernel_rsp: rsp, ..t });
    }
}

pub fn kernel_stack_base(tt: &ThreadTable, tid: u64) -> (r: Option<u64>)
    ensures
        r == (match thread_of(tt@, tid) {
            Some(t) => Some(t.kernel_stack_base),
            None => None::<u64>,
        }),
{
    match find_index(tt, tid) {
        Some(i) => Some(tt.threads[i].kernel_stack_base),
        None => None,
    }
}

/// Top of `tid`'s kernel stack (base plus the stack size, wrapping).
pub fn kernel_stack_top(tt: &ThreadTable, tid: u64) -> (r: Option<u64>)
    ensures
        r == (match thread_of(tt@, tid) {
            Some(t) => Some(((t.kernel_stack_base + KERNEL_STACK_SIZE) % 0x1_0000_0000_0000_0000) as u64),
            None => None::<u64>,
        }),
{
    match kernel_stack_base(tt, tid) {
        Some(base) => Some(base.wrapping_add(KERNEL_STACK_SIZE)),
        None => None,
    }
}

pub fn set_kernel_preempted(tt: &mut ThreadTable, tid: u64, val: bool)
    ensures
        final(tt)@ == update_thread(old(tt)@, tid, |t: Thread| Thread { kernel_preempted: val, ..t }),
        same_counters(final(tt), old(tt)),
{
    if let Some(i) = find_index(tt, tid) {
        let t = tt.threads[i];
        put(tt, i, Thread { kernel_preempted: val, ..t });
    }
}

pub fn is_kernel_preempted(tt: &ThreadTable, tid: u64) -> (r: bool)
    ensures
        r == (match thread_of(tt@, tid) {
            Some(t) => t.kernel_preempted,
            None => false,
        }),
{
    match find_index(tt, tid) {
        Some(i) => tt.threads[i].kernel_preempted,
        None => false,
    }
}

/// Record that `tid` blocked in a syscall whose frame sits at `rsp`, holding
/// the register words `frame`.
pub fn set_blocking_rsp(tt: &mut ThreadTable, tid: u64, rsp: u64, frame: [u64; BLOCKING_FRAME_WORDS])
    ensures
        final(tt)@ == update_thread(old(tt)@, tid, |t: Thread| Thread { blocking_rsp: rsp, blocking_frame: frame, ..t }),
        same_counters(final(tt), old(tt)),
{
    if let Some(i) = find_index(tt, tid) {
        let t = tt.threads[i];
        put(tt, i, Thread { blocking_rsp: rsp, blocking_frame: frame, ..t });
    }
}

/// Take (and clear) `tid`'s blocking frame pointer, if one is set.
pub fn take_blocking_rsp(tt: &mut ThreadTable, tid: u64) -> (r: Option<u64>)
    ensures
        match thread_of(old(tt)@, tid) {
            Some(t) => if t.blocking_rsp != 0 {
                r == Some(t.blocking_rsp) && final(tt)@ == update_thread(
                    old(tt)@,
                    tid,
                    |u: Thread| Thread { blocking_rsp: 0, ..u },
                )
            } else {
                r is None && final(tt)@ == old(tt)@
            },
            None => r is None && final(tt)@ == old(tt)@,
        },
        same_counters(final(tt), old(tt)),
{
    if let Some(i) = find_index(tt, tid) {
        let t = tt.threads[i];
        if t.blocking_rsp != 0 {
            put(tt, i, Thread { blocking_rsp: 0, ..t });
            return Some(t.blocking_rsp);
        }
    }
    None
}

/// Take (and clear) `tid`'s pending syscall return value.
pub fn take_blocking_retval(tt: &mut ThreadTable, tid: u64) -> (r: u64)
    ensures
        match thread_of(old(tt)@, tid) {
            Some(t) => r == t.blocking_retval && final(tt)@ == update_thread(
                old(tt)@,
                tid,
                |u: Thread| Thread { blocking_retval: 0, ..u },
            ),
            None => r == 0 && final(tt)@ == old(tt)@,
        },
        same_counters(final(tt), old(tt)),
{
    if let Some(i) = find_index(tt, tid) {
        let t = tt.threads[i];
        put(tt, i, Thread { blocking_retval: 0, ..t });
        return t.blocking_retval;
    }
    0
}

pub fn set_wait_target(tt: &mut ThreadTable, tid: u64, target: WaitTarget)
    ensures
        final(tt)@ == update_thread(old(tt)@, tid, |t: Thread| Thread { wait_target: target, ..t }),
        same_counters(final(tt), old(tt)),
{
    if let Some(i) = find_index(tt, tid) {
        let t = tt.threads[i];
        put(tt, i, Thread { wait_target: target, ..t });
    }
}

pub fn wait_target(tt: &ThreadTable, tid: u64) -> (r: Option<WaitTarget>)
    ensures
        r == (match thread_of(tt@, tid) {
            Some(t) => Some(t.wait_target),
            None => None::<WaitTarget>,
        }),
{
    match find_index(tt, tid) {
        Some(i) => Some(tt.threads[i].wait_target),
        None => None,
    }
}

/// Charge `ticks` of CPU time to `tid` (saturating).
pub fn add_cpu_ticks(tt: &mut ThreadTable, tid: u64, ticks: u64)
    ensures
        final(tt)@ == update_thread(
            old(tt)@,
            tid,
            |t: Thread| Thread { cpu_ticks: (if t.cpu_ticks + ticks > u64::MAX { u64::MAX as int } else { t.cpu_ticks + ticks }) as u64, ..t },
        ),
        same_counters(final(tt), old(tt)),
{
    if let Some(i) = find_index(tt, tid) {
        let t = tt.threads[i];
        put(tt, i, Thread { cpu_ticks: t.cpu_ticks.saturating_add(ticks), ..t });
    }
}

pub fn cpu_ticks(tt: &ThreadTable, tid: u64) -> (r: Option<u64>)
    ensures
        r == (match thread_of(tt@, tid) {
            Some(t) => Some(t.cpu_ticks),
            None => None::<u64>,
        }),
{
    match find_index(tt, tid) {
        Some(i) => Some(tt.threads[i].cpu_ticks),
        None => None,
    }
}

pub fn assigned_cpu(tt: &ThreadTable, tid: u64) -> (r: Option<usize>)
    ensures
        r == (match thread_of(tt@, tid) {
            Some(t) => Some(t.assigned_cpu),
            None => None::<usize>,
        }),
{
    match find_index(tt, tid) {
        Some(i) => Some(tt.threads[i].assigned_cpu),
        None => None,
    }
}

pub fn set_assigned_cpu(tt: &mut ThreadTable, tid: u64, cpu: usize)
    ensures
        final(tt)@ == update_thread(old(tt)@, tid, |t: Thread| Thread { assigned_cpu: cpu, ..t }),
        same_counters(final(tt), old(tt)),
{
    if let Some(i) = find_index(tt, tid) {
        let t = tt.threads[i];
        put(tt, i, Thread { assigned_cpu: cpu, ..t });
    }
}

pub fn set_thread_pid(tt: &mut ThreadTable, tid: u64, pid: u64)
    ensures
        final(tt)@ == update_thread(old(tt)@, tid, |t: Thread| Thread { pid, ..t }),
        same_counters(final(tt), old(tt)),
{
    if let Some(i) = find_index(tt, tid) {
        let t = tt.threads[i];
        put(tt, i, Thread { pid, ..t });
    }
}

pub fn set_privilege(tt: &mut ThreadTable, tid: u64, privilege: PrivilegeLevel)
    ensures
        final(tt)@ == update_thread(old(tt)@, tid, |t: Thread| Thread { privilege, ..t }),
        same_counters(final(tt), old(tt)),
{
    if let Some(i) = find_index(tt, tid) {
        let t = tt.threads[i];
        put(tt, i, Thread { privilege, ..t });
    }
}

/// Privilege of `tid`; unknown threads count as User.
pub fn privilege_level(tt: &ThreadTable, tid: u64) -> (r: PrivilegeLevel)
    ensures
        r == (match thread_of(tt@, tid) {
            Some(t) => t.privilege,
            None => PrivilegeLevel::User,
        }),
{
    match find_index(tt, tid) {
        Some(i) => tt.threads[i].privilege,
        None => PrivilegeLevel::User,
    }
}

// ── creation and removal ────────────────────────────────────────────────────

/// The initial stack of a kernel task: 15 zeroed registers (with `arg` in the
/// rdi slot) followed by an iret frame that enters `entry` in kernel mode with
/// interrupts enabled on a stack ending at `stack_top`.
pub fn kernel_task_frame(entry: u64, arg: u64, stack_top: u64) -> (f: [u64; KERNEL_TASK_FRAME_WORDS])
    ensures
        forall|k: int| 0 <= k < 20 && k != 10 && k != 15 && k != 16 && k != 17 && k != 18 && k != 19 ==> f@[k] == 0,
        f@[10] == arg,
        f@[15] == entry,
        f@[16] == 0x8,
        f@[17] == 0x202,
        f@[18] == stack_top,
        f@[19] == 0x10,
{
    let mut f = [0u64; KERNEL_TASK_FRAME_WORDS];
    f[10] = arg;
    f[15] = entry;
    f[16] = 0x8;
    f[17] = 0x202;
    f[18] = stack_top;
    f[19] = 0x10;
    f
}

/// The thread record a freshly created kernel thread gets.
pub open spec fn fresh_thread(tid: u64, pid: u64, stack_base: u64, privilege: PrivilegeLevel, cpu: usize) -> Thread {
    Thread {
        tid,
        pid,
        state: ThreadState::Sleeping,
        cpu_ticks: 0,
        user_context: empty_context(),
        kernel_rsp: (stack_base + KERNEL_STACK_SIZE - 160) as u64,
        kernel_stack_base: stack_base,
        kernel_preempted: false,
        blocking_rsp: 0,
        blocking_frame: [0u64; BLOCKING_FRAME_WORDS],
        blocking_retval: 0,
        wait_target: WaitTarget::NoTarget,
        privilege,
        assigned_cpu: cpu,
    }
}

/// Reset the table the first time it is used.
pub fn init(tt: &mut ThreadTable)
    ensures
        old(tt).initialized_spec() ==> final(tt)@ == old(tt)@ && final(tt).next_tid_spec() == old(tt).next_tid_spec(),
        !old(tt).initialized_spec() ==> final(tt)@ == Seq::<Thread>::empty() && final(tt).next_tid_spec() == 1,
        final(tt).initialized_spec(),
        final(tt).next_cpu_spec() == old(tt).next_cpu_spec(),
{
    proof {
        use_type_invariant(&*tt);
    }
    if tt.initialized {
        return;
    }
    tt.threads = Vec::new();
    tt.next_tid = 1;
    tt.initialized = true;
}

/// The round-robin CPU counter after one more assignment (wrapping).
pub open spec fn next_cpu_after(n: usize) -> usize {
    if n == usize::MAX { 0 } else { (n + 1) as usize }
}

/// Register a new kernel thread whose stack (of `KERNEL_STACK_SIZE` bytes) was
/// allocated at `stack_base`; `None` means the allocation failed and no thread
/// is created (tid 0), as does an exhausted id counter. The thread starts
/// Sleeping, with its kernel stack pointer at the initial frame
/// (`kernel_task_frame`) and a CPU picked round-robin over `cpu_count` CPUs.
pub fn create_kernel_thread(
    tt: &mut ThreadTable,
    pid: u64,
    privilege: PrivilegeLevel,
    stack_base: Option<u64>,
    cpu_count: usize,
) -> (tid: u64)
    requires
        match stack_base {
            Some(b) => b + KERNEL_STACK_SIZE <= u64::MAX,
            None => true,
        },
    ensures
        ({
            let t0 = if old(tt).initialized_spec() { old(tt)@ } else { Seq::<Thread>::empty() };
            let n0 = if old(tt).initialized_spec() { old(tt).next_tid_spec() } else { 1 };
            let ncpu = if cpu_count == 0 { 1 } else { cpu_count as int };
            match stack_base {
                Some(b) if n0 < u64::MAX => {
                    &&& tid == n0
                    &&& tid != 0
                    &&& final(tt).next_tid_spec() == n0 + 1
                    &&& final(tt).next_cpu_spec() == next_cpu_after(old(tt).next_cpu_spec())
                    &&& final(tt)@ == t0.push(
                        fresh_thread(n0, pid, b, privilege, ((old(tt).next_cpu_spec() as int) % ncpu) as usize),
                    )
                    &&& find_tid(final(tt)@, tid) == final(tt)@.len() - 1
                },
                _ => {
                    &&& tid == 0
                    &&& final(tt)@ == t0
                    &&& final(tt).next_tid_spec() == n0
                    &&& final(tt).next_cpu_spec() == old(tt).next_cpu_spec()
                },
            }
        }),
        final(tt).initialized_spec(),
{
    init(tt);
    proof {
        use_type_invariant(&*tt);
    }
    let stack_base = match stack_base {
        Some(base) => base,
        None => return 0,
    };
    let kernel_rsp = stack_base + KERNEL_STACK_SIZE - 160;
    let tid = tt.next_tid;
    if tid == u64::MAX {
        return 0;
    }
    let ghost before = tt@;
    tt.next_tid = tid + 1;
    let ncpu = if cpu_count == 0 { 1 } else { cpu_count };
    let assigned_cpu = tt.next_assign_cpu % ncpu;
    tt.next_assign_cpu = if tt.next_assign_cpu == usize::MAX { 0 } else { tt.next_assign_cpu + 1 };
    let mut v: Vec<Thread> = Vec::new();
    std::mem::swap(&mut v, &mut tt.threads);
    v.push(Thread {
        tid,
        pid,
        state: ThreadState::Sleeping,
        cpu_ticks: 0,
        user_context: empty_user_context(),
        kernel_rsp,
        kernel_stack_base: stack_base,
        kernel_preempted: false,
        blocking_rsp: 0,
        blocking_frame: [0u64; BLOCKING_FRAME_WORDS],
        blocking_retval: 0,
        wait_target: WaitTarget::NoTarget,
        privilege,
        assigned_cpu,
    });
    proof {
        assert(v@.drop_last() =~= before);
        lemma_fresh_tid_last(v@, tid);
    }
    tt.threads = v;
    tid
}

/// The user context a thread starts user mode with.
pub open spec fn entry_context(entry: u64, user_stack_top: u64, cr3: u64, argc: u64, argv: u64) -> UserContext {
    UserContext { rip: entry, rsp: user_stack_top, cr3, user_stack_top, rdi: argc, rsi: argv, ..empty_context() }
}

pub fn user_entry_context(entry: u64, user_stack_top: u64, cr3: u64, argc: u64, argv: u64) -> (c: UserContext)
    ensures
        c == entry_context(entry, user_stack_top, cr3, argc, argv),
{
    UserContext { rip: entry, rsp: user_stack_top, cr3, user_stack_top, rdi: argc, rsi: argv, ..empty_user_context() }
}

/// Create a kernel thread for `pid` that will enter user mode at `entry` with
/// the given stack, address space and `(argc, argv)`.
pub fn create_user_thread(
    tt: &mut ThreadTable,
    pid: u64,
    entry: u64,
    user_stack_top: u64,
    cr3: u64,
    privilege: PrivilegeLevel,
    argc: u64,
    argv: u64,
    stack_base: Option<u64>,
    cpu_count: usize,
) -> (tid: u64)
    requires
        match stack_base {
            Some(b) => b + KERNEL_STACK_SIZE <= u64::MAX,
            None => true,
        },
    ensures
        ({
            let t0 = if old(tt).initialized_spec() { old(tt)@ } else { Seq::<Thread>::empty() };
            let n0 = if old(tt).initialized_spec() { old(tt).next_tid_spec() } else { 1 };
            let ncpu = if cpu_count == 0 { 1 } else { cpu_count as int };
            match stack_base {
                Some(b) if n0 < u64::MAX => {
                    &&& tid == n0
                    &&& final(tt).next_tid_spec() == n0 + 1
                    &&& final(tt).next_cpu_spec() == next_cpu_after(old(tt).next_cpu_spec())
                    &&& final(tt)@ == t0.push(
                        Thread {
                            user_context: entry_context(entry, user_stack_top, cr3, argc, argv),
                            ..fresh_thread(n0, pid, b, privilege, ((old(tt).next_cpu_spec() as int) % ncpu) as usize)
                        },
                    )
                },
                _ => {
                    &&& tid == 0
                    &&& final(tt)@ == t0
                    &&& final(tt).next_tid_spec() == n0
                    &&& final(tt).next_cpu_spec() == old(tt).next_cpu_spec()
                },
            }
        }),
        final(tt).initialized_spec(),
{
    proof {
        use_type_invariant(&*tt);
    }
    let tid = create_kernel_thread(tt, pid, privilege, stack_base, cpu_count);
    if tid == 0 {
        return 0;
    }
    set_user_context(tt, tid, user_entry_context(entry, user_stack_top, cr3, argc, argv));
    tid
}

/// Ids below the next id; used to show a freshly pushed thread is found at the end.
pub open spec fn tids_below(s: Seq<Thread>, n: u64) -> bool {
    forall|j: int| 0 <= j < s.len() ==> s[j].tid < n
}

proof fn lemma_fresh_tid_last(s: Seq<Thread>, tid: u64)
    requires
        s.len() > 0,
        s.last().tid == tid,
        tids_below(s.drop_last(), tid),
    ensures
        find_tid(s, tid) == s.len() - 1,
{
    lemma_find_from(s, tid, 0);
    let k = find_tid(s, tid);
    if k >= 0 && k < s.len() - 1 {
        assert(s.drop_last()[k].tid < tid);
    }
}

/// The threads of `s` whose id is not `tid`, in order.
pub open spec fn without_tid(s: Seq<Thread>, tid: u64) -> Seq<Thread>
    decreases s.len(),
{
    if s.len() == 0 {
        s
    } else if s.last().tid == tid {
        without_tid(s.drop_last(), tid)
    } else {
        without_tid(s.drop_last(), tid).push(s.last())
    }
}

/// Dropping an id that no thread has changes nothing.
pub proof fn lemma_without_absent(s: Seq<Thread>, tid: u64)
    requires
        forall|j: int| 0 <= j < s.len() ==> #[trigger] s[j].tid != tid,
    ensures
        without_tid(s, tid) == s,
    decreases s.len(),
{
    if s.len() > 0 {
        assert forall|j: int| 0 <= j < s.drop_last().len() implies #[trigger] s.drop_last()[j].tid != tid by {
            assert(s[j].tid != tid);
        }
        lemma_without_absent(s.drop_last(), tid);
        assert(s.last().tid != tid);
        assert(s.drop_last().push(s.last()) =~= s);
    }
}

proof fn lemma_without_tid_below(s: Seq<Thread>, tid: u64, n: u64)
    requires
        tids_below(s, n),
    ensures
        tids_below(without_tid(s, tid), n),
    decreases s.len(),
{
    if s.len() > 0 {
        lemma_without_tid_below(s.drop_last(), tid, n);
    }
}

/// Drop every thread with id `tid`.
pub fn remove_thread(tt: &mut ThreadTable, tid: u64)
    ensures
        final(tt)@ == without_tid(old(tt)@, tid),
        same_counters(final(tt), old(tt)),
{
    let ghost s = tt@;
    let mut kept: Vec<Thread> = Vec::new();
    let mut i: usize = 0;
    while i < tt.threads.len()
        invariant
            s == tt@,
            i <= s.len(),
            kept@ == without_tid(s.subrange(0, i as int), tid),
        decreases s.len() - i,
    {
        let t = tt.threads[i];
        proof {
            assert(s.subrange(0, i + 1).drop_last() =~= s.subrange(0, i as int));
        }
        if t.tid != tid {
            kept.push(t);
        }
        i = i + 1;
    }
    assert(s.subrange(0, s.len() as int) =~= s);
    proof {
        use_type_invariant(&*tt);
        lemma_without_tid_below(s, tid, tt.next_tid);
    }
    tt.threads = kept;
}

// ── enumeration ─────────────────────────────────────────────────────────────

/// Which threads an enumeration considers.
pub enum Filter {
    /// Not Empty, with an id above the given one (`u64::MAX`: any id).
    LiveAfter(u64),
    /// Ready or Running, with an id above the given one.
    ActiveAfter(u64),
    /// Not Empty.
    NotEmpty,
    /// Ready, Running or Sleeping.
    Schedulable,
}

pub open spec fn selects(f: Filter, t: Thread) -> bool {
    match f {
        Filter::LiveAfter(tid) => not_empty(t) && (tid == u64::MAX || t.tid > tid),
        Filter::ActiveAfter(tid) => active_after(t, tid),
        Filter::NotEmpty => not_empty(t),
        Filter::Schedulable => is_schedulable_state(t.state),
    }
}

fn selects_exec(f: &Filter, t: &Thread) -> (r: bool)
    ensures
        r == selects(*f, *t),
{
    match f {
        Filter::LiveAfter(tid) => !matches!(t.state, ThreadState::Empty) && (*tid == u64::MAX || t.tid > *tid),
        Filter::ActiveAfter(tid) => matches!(t.state, ThreadState::Ready | ThreadState::Running) && t.tid > *tid,
        Filter::NotEmpty => !matches!(t.state, ThreadState::Empty),
        Filter::Schedulable => matches!(t.state, ThreadState::Ready | ThreadState::Running | ThreadState::Sleeping),
    }
}

/// Smallest id among threads the filter selects, if any.
pub open spec fn min_tid(s: Seq<Thread>, p: Filter) -> Option<u64>
    decreases s.len(),
{
    if s.len() == 0 {
        None
    } else {
        let rest = min_tid(s.drop_last(), p);
        if selects(p, s.last()) {
            match rest {
                Some(m) => if s.last().tid < m { Some(s.last().tid) } else { Some(m) },
                None => Some(s.last().tid),
            }
        } else {
            rest
        }
    }
}

/// Number of threads the filter selects.
pub open spec fn count_threads(s: Seq<Thread>, p: Filter) -> nat
    decreases s.len(),
{
    if s.len() == 0 {
        0
    } else {
        count_threads(s.drop_last(), p) + if selects(p, s.last()) { 1nat } else { 0nat }
    }
}

pub open spec fn not_empty(t: Thread) -> bool {
    t.state != ThreadState::Empty
}

pub open spec fn active_after(t: Thread, tid: u64) -> bool {
    (t.state == ThreadState::Ready || t.state == ThreadState::Running) && t.tid > tid
}

fn min_selected(tt: &ThreadTable, f: Filter) -> (r: Option<u64>)
    ensures
        r == min_tid(tt@, f),
{
    let mut best: Option<u64> = None;
    let mut i: usize = 0;
    while i < tt.threads.len()
        invariant
            i <= tt@.len(),
            best == min_tid(tt@.subrange(0, i as int), f),
        decreases tt@.len() - i,
    {
        let t = tt.threads[i];
        proof {
            assert(tt@.subrange(0, i + 1).drop_last() =~= tt@.subrange(0, i as int));
        }
        if selects_exec(&f, &t) {
            best = match best {
                Some(m) => if t.tid < m { Some(t.tid) } else { Some(m) },
                None => Some(t.tid),
            };
        }
        i = i + 1;
    }
    assert(tt@.subrange(0, tt@.len() as int) =~= tt@);
    best
}

fn count_selected(tt: &ThreadTable, f: Filter) -> (r: u64)
    ensures
        r == count_threads(tt@, f),
{
    let mut n: u64 = 0;
    let mut i: usize = 0;
    while i < tt.threads.len()
        invariant
            i <= tt@.len(),
            n == count_threads(tt@.subrange(0, i as int), f),
            n <= i,
        decreases tt@.len() - i,
    {
        proof {
            assert(tt@.subrange(0, i + 1).drop_last() =~= tt@.subrange(0, i as int));
        }
        if selects_exec(&f, &tt.threads[i]) {
            n = n + 1;
        }
        i = i + 1;
    }
    assert(tt@.subrange(0, tt@.len() as int) =~= tt@);
    n
}

/// Smallest id of a thread that is not Empty and (unless `tid` is `u64::MAX`,
/// which means "from the start") has an id above `tid`.
pub fn next_tid_after(tt: &ThreadTable, tid: u64) -> (r: Option<u64>)
    ensures
        r == min_tid(tt@, Filter::LiveAfter(tid)),
{
    min_selected(tt, Filter::LiveAfter(tid))
}

/// The first thread id that is not Empty, scanning from the front.
pub fn first_tid(tt: &ThreadTable) -> (r: Option<u64>)
    ensures
        match r {
            Some(id) => exists|i: int| 0 <= i < tt@.len() && tt@[i].tid == id && not_empty(tt@[i]) && forall|j: int|
                0 <= j < i ==> !not_empty(#[trigger] tt@[j]),
            None => forall|j: int| 0 <= j < tt@.len() ==> !not_empty(#[trigger] tt@[j]),
        },
{
    let mut i: usize = 0;
    while i < tt.threads.len()
        invariant
            i <= tt@.len(),
            forall|j: int| 0 <= j < i ==> !not_empty(#[trigger] tt@[j]),
        decreases tt@.len() - i,
    {
        if !matches!(tt.threads[i].state, ThreadState::Empty) {
            return Some(tt.threads[i].tid);
        }
        i = i + 1;
    }
    None
}

/// Smallest id above `tid` of a Ready or Running thread.
pub fn active_tid_after(tt: &ThreadTable, tid: u64) -> (r: Option<u64>)
    ensures
        r == min_tid(tt@, Filter::ActiveAfter(tid)),
{
    min_selected(tt, Filter::ActiveAfter(tid))
}

/// Number of threads that are not Empty.
pub fn count(tt: &ThreadTable) -> (r: u64)
    ensures
        r == count_threads(tt@, Filter::NotEmpty),
{
    count_selected(tt, Filter::NotEmpty)
}

/// Number of Ready, Running or Sleeping threads.
pub fn active_count(tt: &ThreadTable) -> (r: u64)
    ensures
        r == count_threads(tt@, Filter::Schedulable),
{
    count_selected(tt, Filter::Schedulable)
}

/// The first non-Empty thread with id `tid`, if any.
pub open spec fn first_live_with_tid(s: Seq<Thread>, tid: u64, i: int) -> bool {
    0 <= i < s.len() && s[i].tid == tid && not_empty(s[i]) && forall|j: int|
        0 <= j < i ==> !(s[j].tid == tid && not_empty(#[trigger] s[j]))
}

/// Owning process of the first non-Empty thread with id `tid`.
pub fn thread_pid(tt: &ThreadTable, tid: u64) -> (r: Option<u64>)
    ensures
        match r {
            Some(pid) => exists|i: int| first_live_with_tid(tt@, tid, i) && tt@[i].pid == pid,
            None => forall|j: int| 0 <= j < tt@.len() ==> !(tt@[j].tid == tid && not_empty(#[trigger] tt@[j])),
        },
{
    let mut i: usize = 0;
    while i < tt.threads.len()
        invariant
            i <= tt@.len(),
            forall|j: int| 0 <= j < i ==> !(tt@[j].tid == tid && not_empty(#[trigger] tt@[j])),
        decreases tt@.len() - i,
    {
        if tt.threads[i].tid == tid && !matches!(tt.threads[i].state, ThreadState::Empty) {
            assert(first_live_with_tid(tt@, tid, i as int));
            return Some(tt.threads[i].pid);
        }
        i = i + 1;
    }
    None
}

/// Whether a non-Empty thread with id `tid` exists.
pub fn thread_exists(tt: &ThreadTable, tid: u64) -> (r: bool)
    ensures
        r == exists|j: int| 0 <= j < tt@.len() && tt@[j].tid == tid && not_empty(#[trigger] tt@[j]),
{
    thread_pid(tt, tid).is_some()
}

// ── blocking and wakeup ─────────────────────────────────────────────────────

/// The user context after returning `retval` from the syscall whose frame is
/// `f` (register words in push order r15 .. rax, then rip, cs, rflags, rsp).
pub open spec fn frame_context(ctx: UserContext, f: Seq<u64>, retval: u64) -> UserContext {
    UserContext {
        rax: retval,
        rbx: f[12],
        rcx: f[11],
        rdx: f[10],
        rsi: f[9],
        rdi: f[8],
        rbp: f[13],
        r8: f[7],
        r9: f[6],
        r10: f[5],
        r11: f[4],
        r12: f[3],
        r13: f[2],
        r14: f[1],
        r15: f[0],
        rip: f[14],
        rsp: f[17],
        rflags: f[16],
        ..ctx
    }
}

/// The thread after its blocked syscall completes with `retval`: a thread with
/// no blocking frame is unchanged.
pub open spec fn restored(t: Thread, retval: u64) -> Thread {
    if t.blocking_rsp == 0 {
        t
    } else {
        Thread {
            user_context: frame_context(t.user_context, t.blocking_frame@, retval),
            blocking_rsp: 0,
            kernel_preempted: false,
            ..t
        }
    }
}

/// The thread after being woken with `retval`.
pub open spec fn woken(t: Thread, retval: u64) -> Thread {
    Thread { state: ThreadState::Ready, wait_target: WaitTarget::NoTarget, ..restored(t, retval) }
}

fn restore_ctx_from_blocking_frame(t: Thread, retval: u64) -> (r: Thread)
    ensures
        r == restored(t, retval),
{
    if t.blocking_rsp == 0 {
        return t;
    }
    let f = t.blocking_frame;
    let ctx = UserContext {
        rax: retval,
        rbx: f[12],
        rcx: f[11],
        rdx: f[10],
        rsi: f[9],
        rdi: f[8],
        rbp: f[13],
        r8: f[7],
        r9: f[6],
        r10: f[5],
        r11: f[4],
        r12: f[3],
        r13: f[2],
        r14: f[1],
        r15: f[0],
        rip: f[14],
        rsp: f[17],
        rflags: f[16],
        ..t.user_context
    };
    Thread { user_context: ctx, blocking_rsp: 0, kernel_preempted: false, ..t }
}

fn wake(t: Thread, retval: u64) -> (r: Thread)
    ensures
        r == woken(t, retval),
{
    let r = restore_ctx_from_blocking_frame(t, retval);
    Thread { state: ThreadState::Ready, wait_target: WaitTarget::NoTarget, ..r }
}

/// If `tid` has a blocking frame, complete it now with its pending return value
/// (which is cleared); returns whether it did.
pub fn apply_blocking_return_if_pending(tt: &mut ThreadTable, tid: u64) -> (r: bool)
    ensures
        match thread_of(old(tt)@, tid) {
            Some(t) => if t.blocking_rsp != 0 {
                r && final(tt)@ == update_thread(
                    old(tt)@,
                    tid,
                    |u: Thread| Thread { blocking_retval: 0, ..restored(u, u.blocking_retval) },
                )
            } else {
                !r && final(tt)@ == old(tt)@
            },
            None => !r && final(tt)@ == old(tt)@,
        },
        same_counters(final(tt), old(tt)),
{
    if let Some(i) = find_index(tt, tid) {
        let t = tt.threads[i];
        if t.blocking_rsp != 0 {
            let retval = t.blocking_retval;
            let r = restore_ctx_from_blocking_frame(Thread { blocking_retval: 0, ..t }, retval);
            put(tt, i, r);
            return true;
        }
    }
    false
}

/// A sleeping thread waiting for what `pred` describes.
pub open spec fn sleeping_on(t: Thread, pred: spec_fn(WaitTarget) -> bool) -> bool {
    t.state == ThreadState::Sleeping && pred(t.wait_target)
}

/// Which sleeper a single wakeup looks for.
pub enum Waiter {
    /// Any thread sleeping on the keyboard.
    Key,
    /// A thread of the given process sleeping on the keyboard.
    KeyOf(u64),
    /// A thread sleeping on the given interrupt line.
    Irq(u8),
}

pub open spec fn key_waiter(t: Thread) -> bool {
    t.state == ThreadState::Sleeping && t.wait_target == WaitTarget::Keyboard
}

pub open spec fn waits_for(w: Waiter, t: Thread) -> bool {
    match w {
        Waiter::Key => key_waiter(t),
        Waiter::KeyOf(pid) => t.pid == pid && key_waiter(t),
        Waiter::Irq(irq) => t.state == ThreadState::Sleeping && t.wait_target == WaitTarget::Irq(irq),
    }
}

fn waits_for_exec(w: &Waiter, t: &Thread) -> (r: bool)
    ensures
        r == waits_for(*w, *t),
{
    if !matches!(t.state, ThreadState::Sleeping) {
        return false;
    }
    match w {
        Waiter::Key => t.wait_target == WaitTarget::Keyboard,
        Waiter::KeyOf(pid) => t.pid == *pid && t.wait_target == WaitTarget::Keyboard,
        Waiter::Irq(irq) => t.wait_target == WaitTarget::Irq(*irq),
    }
}

/// Index of the first thread the waiter matches, or -1.
pub open spec fn first_match(s: Seq<Thread>, w: Waiter) -> int {
    if exists|i: int| 0 <= i < s.len() && waits_for(w, s[i]) {
        choose|i: int| 0 <= i < s.len() && waits_for(w, s[i]) && forall|j: int| 0 <= j < i ==> !waits_for(w, s[j])
    } else {
        -1
    }
}

proof fn lemma_first_match(s: Seq<Thread>, w: Waiter, i: int)
    requires
        0 <= i <= s.len(),
        forall|j: int| 0 <= j < i ==> !waits_for(w, s[j]),
        i == s.len() || waits_for(w, s[i]),
    ensures
        first_match(s, w) == (if i == s.len() { -1 } else { i }),
{
    if i < s.len() {
        let k = choose|k: int| 0 <= k < s.len() && waits_for(w, s[k]) && forall|j: int| 0 <= j < k ==> !waits_for(w, s[j]);
        assert(k == i) by {
            if k < i {
                assert(!waits_for(w, s[k]));
            } else if k > i {
                assert(!waits_for(w, s[i]));
            }
        }
    }
}

/// The table after waking the first thread `w` matches with `retval`.
pub open spec fn wake_first(s: Seq<Thread>, w: Waiter, retval: u64) -> Seq<Thread> {
    if first_match(s, w) >= 0 {
        s.update(first_match(s, w), woken(s[first_match(s, w)], retval))
    } else {
        s
    }
}

/// Wake every thread satisfying `p` with `retval`.
pub open spec fn wake_all(s: Seq<Thread>, w: Sweep, retval: u64) -> Seq<Thread> {
    Seq::new(s.len(), |i: int| if sweep_matches(s[i], w) { woken(s[i], retval) } else { s[i] })
}

fn wake_first_exec(tt: &mut ThreadTable, w: Waiter, retval: u64) -> (r: bool)
    ensures
        final(tt)@ == wake_first(old(tt)@, w, retval),
        r == (first_match(old(tt)@, w) >= 0),
        same_counters(final(tt), old(tt)),
{
    let mut i: usize = 0;
    while i < tt.threads.len()
        invariant
            i <= tt@.len(),
            tt@ == old(tt)@,
            same_counters(tt, old(tt)),
            forall|j: int| 0 <= j < i ==> !waits_for(w, tt@[j]),
        decreases tt@.len() - i,
    {
        let t = tt.threads[i];
        if waits_for_exec(&w, &t) {
            proof {
                lemma_first_match(tt@, w, i as int);
            }
            put(tt, i, wake(t, retval));
            return true;
        }
        i = i + 1;
    }
    proof {
        lemma_first_match(tt@, w, i as int);
    }
    false
}

/// Wake the first thread sleeping on the keyboard, delivering `key`.
pub fn wakeup_key_waiters(tt: &mut ThreadTable, key: u8) -> (r: usize)
    ensures
        final(tt)@ == wake_first(old(tt)@, Waiter::Key, key as u64),
        r == (if first_match(old(tt)@, Waiter::Key) >= 0 { 1usize } else { 0usize }),
        same_counters(final(tt), old(tt)),
{
    if wake_first_exec(tt, Waiter::Key, key as u64) { 1 } else { 0 }
}

/// Like `wakeup_key_waiters` but only wakes a keyboard waiter belonging to
/// `pid` (keyboard focus).
pub fn wakeup_key_waiter_for_pid(tt: &mut ThreadTable, pid: u64, key: u8) -> (r: usize)
    ensures
        final(tt)@ == wake_first(old(tt)@, Waiter::KeyOf(pid), key as u64),
        r == (if first_match(old(tt)@, Waiter::KeyOf(pid)) >= 0 { 1usize } else { 0usize }),
        same_counters(final(tt), old(tt)),
{
    if wake_first_exec(tt, Waiter::KeyOf(pid), key as u64) { 1 } else { 0 }
}

/// Wake the first thread sleeping on interrupt `irq`.
pub fn wakeup_irq_waiter(tt: &mut ThreadTable, irq: u8) -> (r: bool)
    ensures
        final(tt)@ == wake_first(old(tt)@, Waiter::Irq(irq), 0),
        r == (first_match(old(tt)@, Waiter::Irq(irq)) >= 0),
        same_counters(final(tt), old(tt)),
{
    wake_first_exec(tt, Waiter::Irq(irq), 0)
}

pub open spec fn pid_waiter(t: Thread, pid: u64) -> bool {
    t.state == ThreadState::Sleeping && t.wait_target == WaitTarget::Pid(pid)
}

pub open spec fn audio_waiter(t: Thread) -> bool {
    t.state == ThreadState::Sleeping && t.wait_target == WaitTarget::Audio
}

pub open spec fn tick_waiter(t: Thread) -> bool {
    t.state == ThreadState::Sleeping && t.wait_target == WaitTarget::Tick
}

pub open spec fn timer_due(t: Thread, now: u64) -> bool {
    t.state == ThreadState::Sleeping && match t.wait_target {
        WaitTarget::Timer(deadline) => now >= deadline,
        _ => false,
    }
}

/// Which wakeup a sweep performs.
pub enum Sweep {
    Pid(u64),
    Audio,
    Tick,
    Timer(u64),
}

pub open spec fn sweep_matches(t: Thread, w: Sweep) -> bool {
    match w {
        Sweep::Pid(pid) => pid_waiter(t, pid),
        Sweep::Audio => audio_waiter(t),
        Sweep::Tick => tick_waiter(t),
        Sweep::Timer(now) => timer_due(t, now),
    }
}

fn sweep_hit(t: &Thread, w: &Sweep) -> (r: bool)
    ensures
        r == sweep_matches(*t, *w),
{
    if !matches!(t.state, ThreadState::Sleeping) {
        return false;
    }
    match w {
        Sweep::Pid(pid) => t.wait_target == WaitTarget::Pid(*pid),
        Sweep::Audio => t.wait_target == WaitTarget::Audio,
        Sweep::Tick => t.wait_target == WaitTarget::Tick,
        Sweep::Timer(now) => match t.wait_target {
            WaitTarget::Timer(deadline) => *now >= deadline,
            _ => false,
        },
    }
}

/// Wake every thread the sweep matches, each with `retval`.
fn wake_sweep(tt: &mut ThreadTable, w: Sweep, retval: u64)
    ensures
        final(tt)@ == wake_all(old(tt)@, w, retval),
        same_counters(final(tt), old(tt)),
{
    let ghost s = tt@;
    let mut i: usize = 0;
    while i < tt.threads.len()
        invariant
            tt@.len() == s.len(),
            i <= s.len(),
            same_counters(tt, old(tt)),
            forall|j: int| 0 <= j < i ==> tt@[j] == (if sweep_matches(s[j], w) { woken(s[j], retval) } else { s[j] }),
            forall|j: int| i <= j < s.len() ==> tt@[j] == s[j],
        decreases s.len() - i,
    {
        let t = tt.threads[i];
        if sweep_hit(&t, &w) {
            put(tt, i, wake(t, retval));
        }
        i = i + 1;
    }
    assert(tt@ =~= wake_all(s, w, retval));
}

/// Wake every thread waiting for process `exited_pid` to exit (they see 1).
pub fn wakeup_pid_waiters(tt: &mut ThreadTable, exited_pid: u64)
    ensures
        final(tt)@ == wake_all(old(tt)@, Sweep::Pid(exited_pid), 1),
        same_counters(final(tt), old(tt)),
{
    wake_sweep(tt, Sweep::Pid(exited_pid), 1);
}

/// Wake every thread waiting for audio buffer space.
pub fn wakeup_audio_waiters(tt: &mut ThreadTable)
    ensures
        final(tt)@ == wake_all(old(tt)@, Sweep::Audio, 0),
        same_counters(final(tt), old(tt)),
{
    wake_sweep(tt, Sweep::Audio, 0);
}

/// Wake every thread whose sleep deadline is at or before `now_tsc`.
pub fn wake_timer_sleepers(tt: &mut ThreadTable, now_tsc: u64)
    ensures
        final(tt)@ == wake_all(old(tt)@, Sweep::Timer(now_tsc), 0),
        same_counters(final(tt), old(tt)),
{
    wake_sweep(tt, Sweep::Timer(now_tsc), 0);
}

/// Wake every thread waiting for the next timer tick.
pub fn wake_tick_sleepers(tt: &mut ThreadTable)
    ensures
        final(tt)@ == wake_all(old(tt)@, Sweep::Tick, 0),
        same_counters(final(tt), old(tt)),
{
    wake_sweep(tt, Sweep::Tick, 0);
}

pub open spec fn ipc_waiting(t: Thread) -> bool {
    t.state == ThreadState::Sleeping && t.wait_target is Ipc
}

/// Wake `tid` with `retval` if it sleeps on an IPC receive.
pub fn wakeup_ipc_waiter(tt: &mut ThreadTable, tid: u64, retval: u64)
    ensures
        final(tt)@ == update_thread(old(tt)@, tid, |t: Thread| if ipc_waiting(t) { woken(t, retval) } else { t }),
        same_counters(final(tt), old(tt)),
{
    if let Some(i) = find_index(tt, tid) {
        let t = tt.threads[i];
        if matches!(t.state, ThreadState::Sleeping) && matches!(t.wait_target, WaitTarget::Ipc(_)) {
            put(tt, i, wake(t, retval));
        }
    }
}

pub open spec fn pipe_reader(t: Thread, pipe_id: u64) -> bool {
    t.state == ThreadState::Sleeping && match t.wait_target {
        WaitTarget::PipeRead { pipe_id: id, .. } => id == pipe_id,
        _ => false,
    }
}

/// A reader blocked on a pipe: which thread, where its buffer is, how large it
/// is, and the address space the buffer lives in.
#[derive(Clone, Copy, PartialEq, Eq, Debug)]
pub struct PipeRead {
    pub tid: u64,
    pub buf_ptr: u64,
    pub buf_len: u64,
    pub cr3: u64,
}

/// The reads waiting on `pipe_id`, in table order.
pub open spec fn pipe_reads(s: Seq<Thread>, pipe_id: u64) -> Seq<PipeRead>
    decreases s.len(),
{
    if s.len() == 0 {
        Seq::empty()
    } else {
        let rest = pipe_reads(s.drop_last(), pipe_id);
        let t = s.last();
        if pipe_reader(t, pipe_id) {
            match t.wait_target {
                WaitTarget::PipeRead { buf_ptr, buf_len, .. } => rest.push(
                    PipeRead { tid: t.tid, buf_ptr, buf_len, cr3: t.user_context.cr3 },
                ),
                _ => rest,
            }
        } else {
            rest
        }
    }
}

/// Readers blocked on `pipe_id`, in the order they are served.
pub fn pending_pipe_reads(tt: &ThreadTable, pipe_id: u64) -> (r: Vec<PipeRead>)
    ensures
        r@ == pipe_reads(tt@, pipe_id),
{
    let mut out: Vec<PipeRead> = Vec::new();
    let mut i: usize = 0;
    while i < tt.threads.len()
        invariant
            i <= tt@.len(),
            out@ == pipe_reads(tt@.subrange(0, i as int), pipe_id),
        decreases tt@.len() - i,
    {
        let t = tt.threads[i];
        proof {
            assert(tt@.subrange(0, i + 1).drop_last() =~= tt@.subrange(0, i as int));
        }
        if matches!(t.state, ThreadState::Sleeping) {
            if let WaitTarget::PipeRead { pipe_id: id, buf_ptr, buf_len } = t.wait_target {
                if id == pipe_id {
                    out.push(PipeRead { tid: t.tid, buf_ptr, buf_len, cr3: t.user_context.cr3 });
                }
            }
        }
        i = i + 1;
    }
    assert(tt@.subrange(0, tt@.len() as int) =~= tt@);
    out
}

/// Number of pipe readers of `pipe_id` among the first `n` threads.
pub open spec fn readers_before(s: Seq<Thread>, pipe_id: u64, n: int) -> int {
    pipe_reads(s.subrange(0, n), pipe_id).len() as int
}

/// Wake the readers blocked on `pipe_id`; the k-th of them (in
/// `pending_pipe_reads` order) completes with `got[k]` bytes. Readers beyond
/// `got` are left asleep.
pub fn notify_pipe_readers(tt: &mut ThreadTable, pipe_id: u64, got: &[u64])
    ensures
        final(tt)@.len() == old(tt)@.len(),
        forall|j: int|
            0 <= j < old(tt)@.len() ==> #[trigger] final(tt)@[j] == (if pipe_reader(old(tt)@[j], pipe_id)
                && readers_before(old(tt)@, pipe_id, j) < got@.len() {
                woken(old(tt)@[j], got@[readers_before(old(tt)@, pipe_id, j)])
            } else {
                old(tt)@[j]
            }),
        same_counters(final(tt), old(tt)),
{
    let ghost s = tt@;
    let mut k: usize = 0;
    let mut i: usize = 0;
    while i < tt.threads.len()
        invariant
            tt@.len() == s.len(),
            i <= s.len(),
            k == readers_before(s, pipe_id, i as int),
            k <= i,
            same_counters(tt, old(tt)),
            forall|j: int| 0 <= j < i ==> #[trigger] tt@[j] == (if pipe_reader(s[j], pipe_id)
                && readers_before(s, pipe_id, j) < got@.len() {
                woken(s[j], got@[readers_before(s, pipe_id, j)])
            } else {
                s[j]
            }),
            forall|j: int| i <= j < s.len() ==> tt@[j] == s[j],
        decreases s.len() - i,
    {
        let t = tt.threads[i];
        proof {
            assert(s.subrange(0, i + 1).drop_last() =~= s.subrange(0, i as int));
            assert(s.subrange(0, i + 1).last() == s[i as int]);
        }
        let mut hit = false;
        if matches!(t.state, ThreadState::Sleeping) {
            if let WaitTarget::PipeRead { pipe_id: id, .. } = t.wait_target {
                if id == pipe_id {
                    hit = true;
                }
            }
        }
        if hit {
            if k < got.len() {
                put(tt, i, wake(t, got[k]));
            }
            k = k + 1;
        }
        i = i + 1;
    }
}


// ── laws ────────────────────────────────────────────────────────────────────

/// A saved blocking frame is handed out once: after `take_blocking_rsp` the
/// thread has none, so a second take finds nothing.
pub proof fn law_blocking_frame_taken_once(s: Seq<Thread>, tid: u64)
    ensures
        match thread_of(update_thread(s, tid, |u: Thread| Thread { blocking_rsp: 0, ..u }), tid) {
            Some(t) => t.blocking_rsp == 0,
            None => thread_of(s, tid) is None,
        },
{
    lemma_find_tid(s, tid);
    let k = find_tid(s, tid);
    if k >= 0 {
        lemma_find_after_update(s, k, Thread { blocking_rsp: 0, ..s[k] }, tid);
    }
}

/// After `remove_thread(tid)` no thread with that id is left, and every other
/// thread is still there.
pub proof fn law_removed_thread_gone(s: Seq<Thread>, tid: u64)
    ensures
        find_tid(without_tid(s, tid), tid) == -1,
        forall|j: int| 0 <= j < s.len() && s[j].tid != tid ==> without_tid(s, tid).contains(#[trigger] s[j]),
    decreases s.len(),
{
    let w = without_tid(s, tid);
    if s.len() > 0 {
        law_removed_thread_gone(s.drop_last(), tid);
        let r = without_tid(s.drop_last(), tid);
        lemma_find_tid(r, tid);
        assert forall|j: int| 0 <= j < w.len() implies #[trigger] w[j].tid != tid by {
            if j < r.len() {
                assert(w[j] == r[j]);
            }
        }
        assert forall|j: int| 0 <= j < s.len() && s[j].tid != tid implies w.contains(#[trigger] s[j]) by {
            if j < s.len() - 1 {
                assert(s[j] == s.drop_last()[j]);
                let m = choose|m: int| 0 <= m < r.len() && r[m] == s.drop_last()[j];
                assert(w[m] == r[m]);
            } else {
                assert(w[w.len() - 1] == s[j]);
            }
        }
    }
    lemma_find_tid(w, tid);
}

/// Keyboard focus: a key for process `pid` wakes at most one of its own
/// keyboard sleepers and leaves every thread of every other process as it was.
pub proof fn law_focused_key_spares_others(s: Seq<Thread>, pid: u64, key: u64)
    ensures
        wake_first(s, Waiter::KeyOf(pid), key).len() == s.len(),
        forall|j: int| 0 <= j < s.len() && s[j].pid != pid ==> #[trigger] wake_first(s, Waiter::KeyOf(pid), key)[j] == s[j],
{
    let w = Waiter::KeyOf(pid);
    lemma_first_match_found(s, w, 0);
}

/// The first match, if any, is a thread that waits for `w`.
proof fn lemma_first_match_found(s: Seq<Thread>, w: Waiter, i: int)
    requires
        0 <= i <= s.len(),
        forall|j: int| 0 <= j < i ==> !waits_for(w, s[j]),
    ensures
        first_match(s, w) == -1 || (0 <= first_match(s, w) < s.len() && waits_for(w, s[first_match(s, w)])),
    decreases s.len() - i,
{
    if i == s.len() || waits_for(w, s[i]) {
        lemma_first_match(s, w, i);
    } else {
        lemma_first_match_found(s, w, i + 1);
    }
}

} // verus!
