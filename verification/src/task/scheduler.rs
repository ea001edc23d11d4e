//! Per-CPU scheduling state, the choice of the next thread to run, and the
//! layouts of the register frames exchanged with the interrupt/syscall stubs.
use vstd::prelude::*;
use crate::task::thread::{
    ThreadTable, Thread, ThreadState, UserContext, thread_pid, first_live_with_tid, not_empty,
    set_kernel_rsp, set_user_context, user_context, update_thread, thread_of, same_counters, take_blocking_rsp,
    take_blocking_retval, is_kernel_preempted, kernel_rsp, kernel_stack_top, KERNEL_STACK_SIZE,
};

verus! {

/// Words of the frame the user-return path pops: 15 registers, then the iret
/// frame rip, cs, rflags, rsp, ss.
pub const RETURN_FRAME_WORDS: usize = 20;

/// The register frame an interrupt or syscall stub pushes, lowest address first.
#[derive(Clone, Copy, PartialEq, Eq, Structural, Debug)]
pub struct InterruptFrame {
    pub r15: u64,
    pub r14: u64,
    pub r13: u64,
    pub r12: u64,
    pub rbp: u64,
    pub rbx: u64,
    pub r11: u64,
    pub r10: u64,
    pub r9: u64,
    pub r8: u64,
    pub rdi: u64,
    pub rsi: u64,
    pub rdx: u64,
    pub rcx: u64,
    pub rax: u64,
    pub rip: u64,
    pub cs: u64,
    pub rflags: u64,
    pub rsp: u64,
    pub ss: u64,
}

/// What one CPU is running: the current user process and thread, the process
/// chosen next, and whether the CPU idles.
#[derive(Clone, Copy, PartialEq, Eq, Structural, Debug)]
pub struct CpuSlot {
    pub pid: Option<u64>,
    pub tid: Option<u64>,
    pub next_pid: Option<u64>,
    pub idle: bool,
}

/// The per-CPU slots.
pub struct Cpus {
    slots: Vec<CpuSlot>,
}

impl View for Cpus {
    type V = Seq<CpuSlot>;

    closed spec fn view(&self) -> Seq<CpuSlot> {
        self.slots@
    }
}

impl Cpus {
    /// `n` CPUs, none running anything.
    pub fn new(n: usize) -> (c: Self)
        ensures
            c@.len() == n,
            forall|i: int| 0 <= i < n ==> #[trigger] c@[i] == (CpuSlot { pid: None, tid: None, next_pid: None, idle: false }),
    {
        let mut v: Vec<CpuSlot> = Vec::new();
        let mut i: usize = 0;
        while i < n
            invariant
                i <= n,
                v@.len() == i,
                forall|j: int| 0 <= j < i ==> #[trigger] v@[j] == (CpuSlot { pid: None, tid: None, next_pid: None, idle: false }),
            decreases n - i,
        {
            v.push(CpuSlot { pid: None, tid: None, next_pid: None, idle: false });
            i = i + 1;
        }
        Cpus { slots: v }
    }

    pub fn cpu_count(&self) -> (n: usize)
        ensures
            n == self@.len(),
    {
        self.slots.len()
    }
}

/// The user process running on `cpu`, if any.
pub fn current_user_pid(cpus: &Cpus, cpu: usize) -> (r: Option<u64>)
    requires
        cpu < cpus@.len(),
    ensures
        r == cpus@[cpu as int].pid,
{
    cpus.slots[cpu].pid
}

/// The user thread running on `cpu`, if any.
pub fn current_user_tid(cpus: &Cpus, cpu: usize) -> (r: Option<u64>)
    requires
        cpu < cpus@.len(),
    ensures
        r == cpus@[cpu as int].tid,
{
    cpus.slots[cpu].tid
}

/// Record the pid and tid running on `cpu`.
pub(crate) fn set_slot(cpus: &mut Cpus, cpu: usize, pid: Option<u64>, tid: Option<u64>)
    requires
        cpu < old(cpus)@.len(),
    ensures
        final(cpus)@ == old(cpus)@.update(cpu as int, CpuSlot { pid, tid, ..old(cpus)@[cpu as int] }),
{
    let c = cpus.slots[cpu];
    cpus.slots.set(cpu, CpuSlot { pid, tid, ..c });
}

/// Make `tid` (or nothing) the thread running on `cpu`; the CPU's process
/// becomes that thread's owner.
pub fn set_current_user_tid(cpus: &mut Cpus, tt: &ThreadTable, cpu: usize, tid: Option<u64>)
    requires
        cpu < old(cpus)@.len(),
    ensures
        final(cpus)@.len() == old(cpus)@.len(),
        forall|i: int| 0 <= i < old(cpus)@.len() && i != cpu ==> #[trigger] final(cpus)@[i] == old(cpus)@[i],
        final(cpus)@[cpu as int].tid == tid,
        final(cpus)@[cpu as int].next_pid == old(cpus)@[cpu as int].next_pid,
        final(cpus)@[cpu as int].idle == old(cpus)@[cpu as int].idle,
        match tid {
            None => final(cpus)@[cpu as int].pid is None,
            Some(t) => match final(cpus)@[cpu as int].pid {
                Some(p) => exists|i: int| first_live_with_tid(tt@, t, i) && tt@[i].pid == p,
                None => forall|j: int| 0 <= j < tt@.len() ==> !(tt@[j].tid == t && not_empty(#[trigger] tt@[j])),
            },
        },
{
    let pid = match tid {
        Some(t) => thread_pid(tt, t),
        None => None,
    };
    set_slot(cpus, cpu, pid, tid);
}

/// Mark whether `cpu` idles.
pub fn set_idle(cpus: &mut Cpus, cpu: usize, idle: bool)
    requires
        cpu < old(cpus)@.len(),
    ensures
        final(cpus)@ == old(cpus)@.update(cpu as int, CpuSlot { idle, ..old(cpus)@[cpu as int] }),
{
    let c = cpus.slots[cpu];
    cpus.slots.set(cpu, CpuSlot { idle, ..c });
}

pub fn is_idle(cpus: &Cpus, cpu: usize) -> (r: bool)
    requires
        cpu < cpus@.len(),
    ensures
        r == cpus@[cpu as int].idle,
{
    cpus.slots[cpu].idle
}

/// If `pid` is the process running on `cpu`, forget it (and its thread and the
/// next pick).
pub fn clear_current_user(cpus: &mut Cpus, cpu: usize, pid: u64)
    requires
        cpu < old(cpus)@.len(),
    ensures
        old(cpus)@[cpu as int].pid == Some(pid) ==> final(cpus)@ == old(cpus)@.update(
            cpu as int,
            CpuSlot { pid: None, tid: None, next_pid: None, idle: old(cpus)@[cpu as int].idle },
        ),
        old(cpus)@[cpu as int].pid != Some(pid) ==> final(cpus)@ == old(cpus)@,
{
    let c = cpus.slots[cpu];
    if c.pid == Some(pid) {
        cpus.slots.set(cpu, CpuSlot { pid: None, tid: None, next_pid: None, idle: c.idle });
    }
}

// ── choosing the next thread ────────────────────────────────────────────────

/// A Ready thread assigned to `cpu` with an id above `after`.
pub open spec fn runnable_on(t: Thread, cpu: usize, after: u64) -> bool {
    t.assigned_cpu == cpu && t.state == ThreadState::Ready && t.tid > after
}

/// Smallest id of a thread runnable on `cpu` above `after`, if any.
pub open spec fn min_runnable(s: Seq<Thread>, cpu: usize, after: u64) -> Option<u64>
    decreases s.len(),
{
    if s.len() == 0 {
        None
    } else {
        let rest = min_runnable(s.drop_last(), cpu, after);
        if runnable_on(s.last(), cpu, after) {
            match rest {
                Some(m) => if s.last().tid < m { Some(s.last().tid) } else { Some(m) },
                None => Some(s.last().tid),
            }
        } else {
            rest
        }
    }
}

/// Round-robin pick on `cpu`: the next Ready thread after `current_tid`, else
/// wrapping to the smallest Ready one, else 0 (idle).
pub open spec fn schedule_spec(s: Seq<Thread>, cpu: usize, current_tid: u64) -> u64 {
    match min_runnable(s, cpu, current_tid) {
        Some(t) => t,
        None => match min_runnable(s, cpu, 0) {
            Some(t) => t,
            None => 0,
        },
    }
}

/// What `min_runnable` picks: the id of some thread runnable above `after`,
/// no larger than any other such; nothing when there is none.
proof fn lemma_min_runnable(s: Seq<Thread>, cpu: usize, after: u64)
    ensures
        match min_runnable(s, cpu, after) {
            Some(m) => {
                &&& exists|i: int| 0 <= i < s.len() && runnable_on(s[i], cpu, after) && s[i].tid == m
                &&& forall|j: int| 0 <= j < s.len() && runnable_on(#[trigger] s[j], cpu, after) ==> m <= s[j].tid
            },
            None => forall|j: int| 0 <= j < s.len() ==> !runnable_on(#[trigger] s[j], cpu, after),
        },
    decreases s.len(),
{
    if s.len() > 0 {
        let t = s.drop_last();
        lemma_min_runnable(t, cpu, after);
        assert forall|j: int| 0 <= j < t.len() implies #[trigger] t[j] == s[j] by {}
        let last = s.len() - 1;
        assert(s[last] == s.last());
        match min_runnable(t, cpu, after) {
            Some(m) => {
                let i = choose|i: int| 0 <= i < t.len() && runnable_on(t[i], cpu, after) && t[i].tid == m;
                assert(s[i] == t[i]);
            },
            None => {},
        }
        match min_runnable(s, cpu, after) {
            Some(m) => {
                assert forall|j: int| 0 <= j < s.len() && runnable_on(#[trigger] s[j], cpu, after) implies m <= s[j].tid by {
                    if j < last {
                        assert(s[j] == t[j]);
                    }
                }
            },
            None => {
                assert forall|j: int| 0 <= j < s.len() implies !runnable_on(#[trigger] s[j], cpu, after) by {
                    if j < last {
                        assert(s[j] == t[j]);
                    }
                }
            },
        }
    }
}

/// Round robin: when some Ready thread on `cpu` has an id above the current
/// one, the next pick is the smallest such id; only when none has does the
/// pick wrap around to the smallest Ready id (above 0); with no Ready thread
/// on `cpu` it is 0, the idle loop.
pub proof fn law_round_robin(s: Seq<Thread>, cpu: usize, current_tid: u64)
    ensures
        ({
            let r = schedule_spec(s, cpu, current_tid);
            let ready = |t: Thread| t.assigned_cpu == cpu && t.state == ThreadState::Ready;
            if exists|i: int| 0 <= i < s.len() && ready(s[i]) && s[i].tid > current_tid {
                &&& r > current_tid
                &&& exists|i: int| 0 <= i < s.len() && ready(s[i]) && s[i].tid == r
                &&& forall|j: int| 0 <= j < s.len() && ready(#[trigger] s[j]) && s[j].tid > current_tid ==> r <= s[j].tid
            } else if exists|i: int| 0 <= i < s.len() && ready(s[i]) && s[i].tid > 0 {
                &&& r > 0
                &&& exists|i: int| 0 <= i < s.len() && ready(s[i]) && s[i].tid == r
                &&& forall|j: int| 0 <= j < s.len() && ready(#[trigger] s[j]) && s[j].tid > 0 ==> r <= s[j].tid
            } else {
                r == 0
            }
        }),
{
    lemma_min_runnable(s, cpu, current_tid);
    lemma_min_runnable(s, cpu, 0);
    let ready = |t: Thread| t.assigned_cpu == cpu && t.state == ThreadState::Ready;
    if exists|i: int| 0 <= i < s.len() && ready(s[i]) && s[i].tid > current_tid {
        let i = choose|i: int| 0 <= i < s.len() && ready(s[i]) && s[i].tid > current_tid;
        assert(runnable_on(s[i], cpu, current_tid));
    } else if exists|i: int| 0 <= i < s.len() && ready(s[i]) && s[i].tid > 0 {
        let i = choose|i: int| 0 <= i < s.len() && ready(s[i]) && s[i].tid > 0;
        assert(runnable_on(s[i], cpu, 0));
        assert forall|j: int| 0 <= j < s.len() implies !runnable_on(#[trigger] s[j], cpu, current_tid) by {
            assert(!(ready(s[j]) && s[j].tid > current_tid));
        }
    } else {
        assert forall|j: int| 0 <= j < s.len() implies !runnable_on(#[trigger] s[j], cpu, 0) by {
            assert(!(ready(s[j]) && s[j].tid > 0));
        }
    }
}

fn min_runnable_exec(tt: &ThreadTable, cpu: usize, after: u64) -> (r: Option<u64>)
    ensures
        r == min_runnable(tt@, cpu, after),
{
    let mut best: Option<u64> = None;
    let mut i: usize = 0;
    let threads = thread_list(tt);
    while i < threads.len()
        invariant
            threads@ == tt@,
            i <= tt@.len(),
            best == min_runnable(tt@.subrange(0, i as int), cpu, after),
        decreases tt@.len() - i,
    {
        let t = threads[i];
        proof {
            assert(tt@.subrange(0, i + 1).drop_last() =~= tt@.subrange(0, i as int));
        }
        if t.assigned_cpu == cpu && matches!(t.state, ThreadState::Ready) && t.tid > after {
            best = match best {
                Some(m) => if t.tid < m { Some(t.tid) } else { Some(m) },
                None => Some(t.tid),
            };
        }
        i = i + 1;
    }
    assert(tt@.subrange(0, tt@.len() as int) =~= tt@);
    best
}

/// A read-only view of the thread records.
fn thread_list(tt: &ThreadTable) -> (v: &[Thread])
    ensures
        v@ == tt@,
{
    crate::task::thread::threads_slice(tt)
}

/// Pick the thread `cpu` runs next (0: nothing is ready).
pub fn schedule_next(tt: &ThreadTable, cpu: usize, current_tid: u64) -> (r: u64)
    ensures
        r == schedule_spec(tt@, cpu, current_tid),
{
    match min_runnable_exec(tt, cpu, current_tid) {
        Some(t) => t,
        None => match min_runnable_exec(tt, cpu, 0) {
            Some(t) => t,
            None => 0,
        },
    }
}

/// How the CPU enters the thread it picked.
#[derive(Clone, Copy, PartialEq, Eq, Structural, Debug)]
pub enum EntryPath {
    /// Return from the syscall it blocked in: pop its frame at `rsp` with
    /// `retval` in rax, in address space `cr3` (0: keep the current one).
    Blocked { rsp: u64, retval: u64, cr3: u64, stack_top: u64 },
    /// Resume where a timer preempted it in the kernel: pop the frame at `rsp`.
    Preempted { rsp: u64, cr3: u64, stack_top: u64 },
    /// Enter user mode from its saved context.
    User { ctx: UserContext, stack_top: u64 },
    /// The thread is gone: halt until the next tick.
    Halt,
}

/// Top of a thread's kernel stack.
pub open spec fn stack_top_of(t: Thread) -> u64 {
    ((t.kernel_stack_base + KERNEL_STACK_SIZE) % 0x1_0000_0000_0000_0000) as u64
}

/// The entry for a thread record: a pending syscall return comes first, then
/// a kernel preemption, else the user context.
pub open spec fn entry_of(t: Option<Thread>) -> EntryPath {
    match t {
        None => EntryPath::Halt,
        Some(t) => if t.blocking_rsp != 0 {
            EntryPath::Blocked {
                rsp: t.blocking_rsp,
                retval: t.blocking_retval,
                cr3: t.user_context.cr3,
                stack_top: stack_top_of(t),
            }
        } else if t.kernel_preempted {
            EntryPath::Preempted { rsp: t.kernel_rsp, cr3: t.user_context.cr3, stack_top: stack_top_of(t) }
        } else {
            EntryPath::User { ctx: t.user_context, stack_top: stack_top_of(t) }
        },
    }
}

/// Decide how to enter thread `tid`; a pending syscall return is consumed
/// (its frame pointer and return value are cleared), nothing else changes.
pub fn entry_path(tt: &mut ThreadTable, tid: u64) -> (e: EntryPath)
    ensures
        e == entry_of(thread_of(old(tt)@, tid)),
        same_counters(final(tt), old(tt)),
        final(tt)@ == (if e is Blocked {
            update_thread(old(tt)@, tid, |u: Thread| Thread { blocking_rsp: 0, blocking_retval: 0, ..u })
        } else {
            old(tt)@
        }),
{
    let ghost t0 = tt@;
    if let Some(rsp) = take_blocking_rsp(tt, tid) {
        let ghost t1 = tt@;
        let retval = take_blocking_retval(tt, tid);
        let ctx = user_context(tt, tid);
        let top = kernel_stack_top(tt, tid);
        proof {
            crate::task::thread::lemma_find_tid(t0, tid);
            crate::task::thread::lemma_find_tid(t1, tid);
            crate::task::thread::lemma_find_after_update(t0, crate::task::thread::find_tid(t0, tid), 
                Thread { blocking_rsp: 0, ..t0[crate::task::thread::find_tid(t0, tid)] }, tid);
            crate::task::thread::lemma_find_after_update(t1, crate::task::thread::find_tid(t1, tid), 
                Thread { blocking_retval: 0, ..t1[crate::task::thread::find_tid(t1, tid)] }, tid);
        }
        let (cr3, stack_top) = match (ctx, top) {
            (Some(c), Some(s)) => (c.cr3, s),
            _ => (0, 0),
        };
        proof {
            assert(tt@ =~= update_thread(t0, tid, |u: Thread| Thread { blocking_rsp: 0, blocking_retval: 0, ..u }));
        }
        return EntryPath::Blocked { rsp, retval, cr3, stack_top };
    }
    if is_kernel_preempted(tt, tid) {
        if let Some(rsp) = kernel_rsp(tt, tid) {
            let cr3 = match user_context(tt, tid) {
                Some(c) => c.cr3,
                None => 0,
            };
            let stack_top = match kernel_stack_top(tt, tid) {
                Some(s) => s,
                None => 0,
            };
            return EntryPath::Preempted { rsp, cr3, stack_top };
        }
    }
    match user_context(tt, tid) {
        Some(ctx) => {
            let stack_top = match kernel_stack_top(tt, tid) {
                Some(s) => s,
                None => 0,
            };
            EntryPath::User { ctx, stack_top }
        }
        None => EntryPath::Halt,
    }
}

// ── register frames ─────────────────────────────────────────────────────────

/// The context after saving an interrupt frame taken at `frame_ptr`.
pub open spec fn saved_context(ctx: UserContext, f: InterruptFrame, frame_ptr: u64) -> UserContext {
    UserContext {
        rax: f.rax,
        rcx: f.rcx,
        rdx: f.rdx,
        rsi: f.rsi,
        rdi: f.rdi,
        r8: f.r8,
        r9: f.r9,
        r10: f.r10,
        r11: f.r11,
        rbx: f.rbx,
        rbp: f.rbp,
        r12: f.r12,
        r13: f.r13,
        r14: f.r14,
        r15: f.r15,
        rip: f.rip,
        rsp: f.rsp,
        rflags: f.rflags,
        kernel_rsp: frame_ptr,
        ..ctx
    }
}

/// Save the registers of the interrupt frame at `frame_ptr` into `tid`'s user
/// context (cr3 and the user stack top are kept).
pub fn save_user_context(tt: &mut ThreadTable, tid: u64, frame: &InterruptFrame, frame_ptr: u64)
    ensures
        final(tt)@ == update_thread(old(tt)@, tid, |t: Thread| Thread { user_context: saved_context(t.user_context, *frame, frame_ptr), ..t }),
        same_counters(final(tt), old(tt)),
{
    if let Some(ctx) = user_context(tt, tid) {
        let c = UserContext {
            rax: frame.rax,
            rcx: frame.rcx,
            rdx: frame.rdx,
            rsi: frame.rsi,
            rdi: frame.rdi,
            r8: frame.r8,
            r9: frame.r9,
            r10: frame.r10,
            r11: frame.r11,
            rbx: frame.rbx,
            rbp: frame.rbp,
            r12: frame.r12,
            r13: frame.r13,
            r14: frame.r14,
            r15: frame.r15,
            rip: frame.rip,
            rsp: frame.rsp,
            rflags: frame.rflags,
            kernel_rsp: frame_ptr,
            ..ctx
        };
        set_user_context(tt, tid, c);
    }
}

/// Remember where `tid`'s kernel context was saved.
pub fn save_kernel_context(tt: &mut ThreadTable, tid: u64, saved_rsp: u64)
    ensures
        final(tt)@ == update_thread(old(tt)@, tid, |t: Thread| Thread { kernel_rsp: saved_rsp, ..t }),
        same_counters(final(tt), old(tt)),
{
    set_kernel_rsp(tt, tid, saved_rsp);
}

/// The 20-word frame the syscall-return path pops to enter user mode with
/// `ctx` (rax, rcx, rdx, rsi, rdi, r8–r11, rbx, rbp, r12–r15, then rip, user
/// code selector, rflags with interrupts enabled, rsp, user data selector).
/// `user_code` and `user_data` are the GDT's ring-3 selectors.
pub fn setup_user_frame_on_temp_stack(ctx: &UserContext, user_code: u64, user_data: u64) -> (f: [u64; RETURN_FRAME_WORDS])
    ensures
        f@ == seq![
            ctx.rax, ctx.rcx, ctx.rdx, ctx.rsi, ctx.rdi, ctx.r8, ctx.r9, ctx.r10, ctx.r11, ctx.rbx, ctx.rbp,
            ctx.r12, ctx.r13, ctx.r14, ctx.r15, ctx.rip, user_code, ctx.rflags | 0x200, ctx.rsp, user_data,
        ],
{
    let f = [
        ctx.rax,
        ctx.rcx,
        ctx.rdx,
        ctx.rsi,
        ctx.rdi,
        ctx.r8,
        ctx.r9,
        ctx.r10,
        ctx.r11,
        ctx.rbx,
        ctx.rbp,
        ctx.r12,
        ctx.r13,
        ctx.r14,
        ctx.r15,
        ctx.rip,
        user_code,
        ctx.rflags | 0x200,
        ctx.rsp,
        user_data,
    ];
    assert(f@ =~= seq![
        ctx.rax, ctx.rcx, ctx.rdx, ctx.rsi, ctx.rdi, ctx.r8, ctx.r9, ctx.r10, ctx.r11, ctx.rbx, ctx.rbp,
        ctx.r12, ctx.r13, ctx.r14, ctx.r15, ctx.rip, user_code, ctx.rflags | 0x200, ctx.rsp, user_data,
    ]);
    f
}

/// The 20-word frame the timer-return path pops (the interrupt stub's push
/// order r15 .. rax, then the iret frame).
pub fn setup_user_frame_for_timer_on_temp_stack(ctx: &UserContext, user_code: u64, user_data: u64) -> (f: [u64; RETURN_FRAME_WORDS])
    ensures
        f@ == seq![
            ctx.r15, ctx.r14, ctx.r13, ctx.r12, ctx.rbp, ctx.rbx, ctx.r11, ctx.r10, ctx.r9, ctx.r8, ctx.rdi,
            ctx.rsi, ctx.rdx, ctx.rcx, ctx.rax, ctx.rip, user_code, ctx.rflags | 0x200, ctx.rsp, user_data,
        ],
{
    let f = [
        ctx.r15,
        ctx.r14,
        ctx.r13,
        ctx.r12,
        ctx.rbp,
        ctx.rbx,
        ctx.r11,
        ctx.r10,
        ctx.r9,
        ctx.r8,
        ctx.rdi,
        ctx.rsi,
        ctx.rdx,
        ctx.rcx,
        ctx.rax,
        ctx.rip,
        user_code,
        ctx.rflags | 0x200,
        ctx.rsp,
        user_data,
    ];
    assert(f@ =~= seq![
        ctx.r15, ctx.r14, ctx.r13, ctx.r12, ctx.rbp, ctx.rbx, ctx.r11, ctx.r10, ctx.r9, ctx.r8, ctx.rdi,
        ctx.rsi, ctx.rdx, ctx.rcx, ctx.rax, ctx.rip, user_code, ctx.rflags | 0x200, ctx.rsp, user_data,
    ]);
    f
}

/// Overwrite an interrupt frame so the return lands in user mode with `ctx`.
pub fn restore_user_frame(frame: &mut InterruptFrame, ctx: &UserContext, user_code: u64, user_data: u64)
    ensures
        *final(frame) == (InterruptFrame {
            r15: ctx.r15,
            r14: ctx.r14,
            r13: ctx.r13,
            r12: ctx.r12,
            rbp: ctx.rbp,
            rbx: ctx.rbx,
            r11: ctx.r11,
            r10: ctx.r10,
            r9: ctx.r9,
            r8: ctx.r8,
            rdi: ctx.rdi,
            rsi: ctx.rsi,
            rdx: ctx.rdx,
            rcx: ctx.rcx,
            rax: ctx.rax,
            rip: ctx.rip,
            cs: user_code,
            rflags: ctx.rflags,
            rsp: ctx.rsp,
            ss: user_data,
        }),
{
    frame.rax = ctx.rax;
    frame.rcx = ctx.rcx;
    frame.rdx = ctx.rdx;
    frame.rsi = ctx.rsi;
    frame.rdi = ctx.rdi;
    frame.r8 = ctx.r8;
    frame.r9 = ctx.r9;
    frame.r10 = ctx.r10;
    frame.r11 = ctx.r11;
    frame.rbx = ctx.rbx;
    frame.rbp = ctx.rbp;
    frame.r12 = ctx.r12;
    frame.r13 = ctx.r13;
    frame.r14 = ctx.r14;
    frame.r15 = ctx.r15;
    frame.rip = ctx.rip;
    frame.rsp = ctx.rsp;
    frame.rflags = ctx.rflags;
    frame.cs = user_code;
    frame.ss = user_data;
}

} // verus!
