//! The process table: one record per process, each driven by a main thread in
//! the thread table.
use vstd::prelude::*;
use vstd::string::StringSliceAdditionalSpecFns;
use crate::task::thread;
use crate::task::thread::next_cpu_after;
use crate::task::thread::{
    ThreadTable, Thread, ThreadState, UserContext, thread_of, update_thread, same_counters, ready_thread,
    run_thread, sleep_thread, restored, woken, Waiter, Sweep, wake_first, wake_all, first_match,
    entry_context, fresh_thread, ipc_waiting, pipe_reader, readers_before, empty_context, without_tid,
    find_tid, lemma_find_tid, lemma_find_after_update, lemma_same_tids, lemma_without_absent, KERNEL_STACK_SIZE,
};
use crate::task::scheduler::{Cpus, CpuSlot, set_slot, current_user_pid, current_user_tid, clear_current_user};

verus! {

pub const IMAGE_NAME_LEN: usize = 32;

#[derive(Clone, Copy, PartialEq, Eq, Structural, Debug)]
pub enum ProcessState {
    Empty,
    Ready,
    Running,
    Sleeping,
    Exited,
}

impl ProcessState {
    pub fn name(self) -> (r: &'static str)
        ensures
            r@ == thread::state_name(self as u8),
    {
        match self {
            ProcessState::Empty => "empty",
            ProcessState::Ready => "ready",
            ProcessState::Running => "running",
            ProcessState::Sleeping => "sleeping",
            ProcessState::Exited => "exited",
        }
    }
}

#[derive(Clone, Copy, PartialEq, Eq, Structural, Debug)]
pub enum PrivilegeLevel {
    System,
    Driver,
    User,
}

/// System and Driver processes are exempt from signals, kills and OOM.
pub open spec fn privileged(p: PrivilegeLevel) -> bool {
    p == PrivilegeLevel::System || p == PrivilegeLevel::Driver
}

pub fn is_privileged(p: PrivilegeLevel) -> (r: bool)
    ensures
        r == privileged(p),
{
    matches!(p, PrivilegeLevel::System | PrivilegeLevel::Driver)
}

/// What a sleeping thread waits for.
#[derive(Clone, Copy, PartialEq, Eq, Structural, Debug)]
pub enum WaitTarget {
    NoTarget,
    Keyboard,
    Pid(u64),
    Timer(u64),
    Tick,
    Ipc(u64),
    Irq(u8),
    Audio,
    PipeRead { pipe_id: u64, buf_ptr: u64, buf_len: u64 },
}

pub struct Process {
    pid: u64,
    state: ProcessState,
    image_name: [u8; IMAGE_NAME_LEN],
    start_tsc: u64,
    entry: u64,
    stack_top: u64,
    step: u64,
    memory_bytes: u64,
    background: bool,
    sigint_catch: bool,
    sigint_pending: bool,
    /// A kill was requested while the process's thread might be running; the
    /// thread exits itself the next time it enters the kernel.
    kill_pending: bool,
    /// Spawning process (0: the kernel). Children die with their parent.
    parent: u64,
    privilege: PrivilegeLevel,
    main_tid: Option<u64>,
    threads: Vec<u64>,
}

pub struct ProcessView {
    pub pid: u64,
    pub state: ProcessState,
    /// The name field's bytes (NUL-padded).
    pub image_name: Seq<u8>,
    pub start_tsc: u64,
    pub entry: u64,
    pub stack_top: u64,
    pub step: u64,
    pub memory_bytes: u64,
    pub background: bool,
    pub sigint_catch: bool,
    pub sigint_pending: bool,
    pub kill_pending: bool,
    pub parent: u64,
    pub privilege: PrivilegeLevel,
    pub main_tid: Option<u64>,
    pub threads: Seq<u64>,
}

impl View for Process {
    type V = ProcessView;

    closed spec fn view(&self) -> ProcessView {
        ProcessView {
            pid: self.pid,
            state: self.state,
            image_name: self.image_name@,
            start_tsc: self.start_tsc,
            entry: self.entry,
            stack_top: self.stack_top,
            step: self.step,
            memory_bytes: self.memory_bytes,
            background: self.background,
            sigint_catch: self.sigint_catch,
            sigint_pending: self.sigint_pending,
            kill_pending: self.kill_pending,
            parent: self.parent,
            privilege: self.privilege,
            main_tid: self.main_tid,
            threads: self.threads@,
        }
    }
}

#[derive(Clone, Copy, Debug)]
pub struct ProcessInfo {
    pub pid: u64,
    pub state: ProcessState,
    pub image_name: [u8; IMAGE_NAME_LEN],
    pub start_tsc: u64,
    pub entry: u64,
    pub stack_top: u64,
    pub step: u64,
    pub cpu_ticks: u64,
    pub memory_bytes: u64,
}

pub struct ProcessTable {
    procs: Vec<Process>,
    next_pid: u64,
    initialized: bool,
}

pub open spec fn procs_view(v: Seq<Process>) -> Seq<ProcessView> {
    v.map_values(|p: Process| p@)
}

impl View for ProcessTable {
    type V = Seq<ProcessView>;

    closed spec fn view(&self) -> Seq<ProcessView> {
        procs_view(self.procs@)
    }
}

/// Every pid is below the next pid to hand out, and no two processes share one.
pub open spec fn pids_ok(s: Seq<ProcessView>, n: u64) -> bool {
    &&& forall|j: int| 0 <= j < s.len() ==> #[trigger] s[j].pid < n
    &&& forall|i: int, j: int| 0 <= i < j < s.len() ==> #[trigger] s[i].pid != #[trigger] s[j].pid
}

impl ProcessTable {
    #[verifier::type_invariant]
    closed spec fn inv(&self) -> bool {
        self.next_pid >= 1 && pids_ok(self@, self.next_pid)
    }

    pub closed spec fn next_pid_spec(&self) -> u64 {
        self.next_pid
    }

    pub closed spec fn initialized_spec(&self) -> bool {
        self.initialized
    }

    /// An empty, uninitialised table.
    pub fn new() -> (t: Self)
        ensures
            t@ == Seq::<ProcessView>::empty(),
            t.next_pid_spec() == 1,
            !t.initialized_spec(),
    {
        let t = ProcessTable { procs: Vec::new(), next_pid: 1, initialized: false };
        assert(t@ =~= Seq::<ProcessView>::empty());
        t
    }
}

// ── lookup by pid ───────────────────────────────────────────────────────────

/// Index of the first process from `i` on with id `pid`, or -1.
pub open spec fn find_from(s: Seq<ProcessView>, pid: u64, i: int) -> int
    decreases s.len() - i,
{
    if i < 0 || i >= s.len() {
        -1
    } else if s[i].pid == pid {
        i
    } else {
        find_from(s, pid, i + 1)
    }
}

pub open spec fn find_pid(s: Seq<ProcessView>, pid: u64) -> int {
    find_from(s, pid, 0)
}

pub proof fn lemma_find_from(s: Seq<ProcessView>, pid: u64, i: int)
    requires
        0 <= i,
    ensures
        -1 <= find_from(s, pid, i) < s.len(),
        find_from(s, pid, i) >= 0 ==> find_from(s, pid, i) >= i && s[find_from(s, pid, i)].pid == pid,
        find_from(s, pid, i) == -1 ==> forall|j: int| i <= j < s.len() ==> s[j].pid != pid,
    decreases s.len() - i,
{
    if i < s.len() && s[i].pid != pid {
        lemma_find_from(s, pid, i + 1);
    }
}

/// The process with id `pid`, if any.
pub open spec fn proc_of(s: Seq<ProcessView>, pid: u64) -> Option<ProcessView> {
    if find_pid(s, pid) >= 0 {
        Some(s[find_pid(s, pid)])
    } else {
        None
    }
}

/// Main thread of `pid`, if the process exists and has one.
pub open spec fn main_tid_of(s: Seq<ProcessView>, pid: u64) -> Option<u64> {
    match proc_of(s, pid) {
        Some(p) => p.main_tid,
        None => None,
    }
}

/// Apply `f` to the process with id `pid`, if any.
pub open spec fn update_proc(s: Seq<ProcessView>, pid: u64, f: spec_fn(ProcessView) -> ProcessView) -> Seq<ProcessView> {
    if find_pid(s, pid) >= 0 {
        s.update(find_pid(s, pid), f(s[find_pid(s, pid)]))
    } else {
        s
    }
}

/// Apply `f` to the main thread of `pid`, if there is one.
pub open spec fn update_main(ps: Seq<ProcessView>, ts: Seq<Thread>, pid: u64, f: spec_fn(Thread) -> Thread) -> Seq<Thread> {
    match main_tid_of(ps, pid) {
        Some(tid) => update_thread(ts, tid, f),
        None => ts,
    }
}

/// A query on the main thread of `pid`.
pub open spec fn main_thread(ps: Seq<ProcessView>, ts: Seq<Thread>, pid: u64) -> Option<Thread> {
    match main_tid_of(ps, pid) {
        Some(tid) => thread_of(ts, tid),
        None => None,
    }
}

fn find_index(pt: &ProcessTable, pid: u64) -> (r: Option<usize>)
    ensures
        match r {
            Some(i) => i as int == find_pid(pt@, pid) && i < pt@.len(),
            None => find_pid(pt@, pid) == -1,
        },
{
    let mut i: usize = 0;
    while i < pt.procs.len()
        invariant
            i <= pt@.len(),
            find_pid(pt@, pid) == find_from(pt@, pid, i as int),
        decreases pt@.len() - i,
    {
        if pt.procs[i].pid == pid {
            return Some(i);
        }
        i = i + 1;
    }
    None
}

/// Same table counters.
pub open spec fn same_pcounters(a: &ProcessTable, b: &ProcessTable) -> bool {
    a.next_pid_spec() == b.next_pid_spec() && a.initialized_spec() == b.initialized_spec()
}

/// Main thread of `pid`, if the process exists and has one.
pub fn main_tid(pt: &ProcessTable, pid: u64) -> (r: Option<u64>)
    ensures
        r == main_tid_of(pt@, pid),
{
    match find_index(pt, pid) {
        Some(i) => pt.procs[i].main_tid,
        None => None,
    }
}

/// In a table with unique pids, each process is found at its own position.
pub proof fn lemma_unique_find(s: Seq<ProcessView>, n: u64, j: int)
    requires
        pids_ok(s, n),
        0 <= j < s.len(),
    ensures
        find_pid(s, s[j].pid) == j,
{
    lemma_find_from(s, s[j].pid, 0);
    let f = find_pid(s, s[j].pid);
    if f != j {
        if f < j {
            assert(s[f].pid != s[j].pid);
        } else {
            assert(s[j].pid != s[f].pid);
        }
    }
}

// ── creation ────────────────────────────────────────────────────────────────

/// The name field made from `b`: its first `IMAGE_NAME_LEN - 1` bytes, then
/// NUL padding.
pub open spec fn name_bytes(b: Seq<u8>) -> Seq<u8> {
    Seq::new(IMAGE_NAME_LEN as nat, |i: int| if i < b.len() && i < IMAGE_NAME_LEN - 1 { b[i] } else { 0u8 })
}

/// The record of the kernel itself, pid 0.
pub open spec fn kernel_record() -> ProcessView {
    ProcessView {
        pid: 0,
        state: ProcessState::Running,
        image_name: name_bytes(seq![0x6bu8, 0x65u8, 0x72u8, 0x6eu8, 0x65u8, 0x6cu8]),
        start_tsc: 0,
        entry: 0,
        stack_top: 0,
        step: 0,
        memory_bytes: 0,
        background: false,
        sigint_catch: false,
        sigint_pending: false,
        kill_pending: false,
        parent: 0,
        privilege: PrivilegeLevel::Driver,
        main_tid: None,
        threads: Seq::empty(),
    }
}

/// The record of a freshly created process.
pub open spec fn new_record(pid: u64, name: Seq<u8>, privilege: PrivilegeLevel, main_tid: u64, start_tsc: u64) -> ProcessView {
    ProcessView {
        pid,
        state: ProcessState::Sleeping,
        image_name: name_bytes(name),
        start_tsc,
        entry: 0,
        stack_top: 0,
        step: 0,
        memory_bytes: 0,
        background: false,
        sigint_catch: false,
        sigint_pending: false,
        kill_pending: false,
        parent: 0,
        privilege,
        main_tid: Some(main_tid),
        threads: seq![main_tid],
    }
}

/// The table as `init` leaves it.
pub open spec fn table_after_init(pt: &ProcessTable) -> Seq<ProcessView> {
    if pt.initialized_spec() { pt@ } else { seq![kernel_record()] }
}

/// The next pid as `init` leaves it.
pub open spec fn pid_after_init(pt: &ProcessTable) -> u64 {
    if pt.initialized_spec() { pt.next_pid_spec() } else { 1 }
}

/// The thread table as its own `init` leaves it.
pub open spec fn threads_after_init(tt: &ThreadTable) -> Seq<Thread> {
    if tt.initialized_spec() { tt@ } else { Seq::empty() }
}

/// The next tid as the thread table's `init` leaves it.
pub open spec fn tid_after_init(tt: &ThreadTable) -> u64 {
    if tt.initialized_spec() { tt.next_tid_spec() } else { 1 }
}

fn kernel_process() -> (p: Process)
    ensures
        p@ == kernel_record(),
{
    let mut name = [0u8; IMAGE_NAME_LEN];
    name[0] = 0x6b;
    name[1] = 0x65;
    name[2] = 0x72;
    name[3] = 0x6e;
    name[4] = 0x65;
    name[5] = 0x6c;
    let p = Process {
        pid: 0,
        state: ProcessState::Running,
        image_name: name,
        start_tsc: 0,
        entry: 0,
        stack_top: 0,
        step: 0,
        memory_bytes: 0,
        background: false,
        sigint_catch: false,
        sigint_pending: false,
        kill_pending: false,
        parent: 0,
        privilege: PrivilegeLevel::Driver,
        main_tid: None,
        threads: Vec::new(),
    };
    assert(p@.image_name =~= kernel_record().image_name);
    assert(p@.threads =~= Seq::<u64>::empty());
    p
}

/// Set the table up the first time it is used: the thread table is
/// initialised and the kernel's own record (pid 0) is the only process.
pub fn init(pt: &mut ProcessTable, tt: &mut ThreadTable)
    ensures
        final(pt).initialized_spec(),
        final(pt)@ == table_after_init(old(pt)),
        final(pt).next_pid_spec() == pid_after_init(old(pt)),
        old(pt).initialized_spec() ==> final(tt)@ == old(tt)@ && same_counters(final(tt), old(tt)),
        !old(pt).initialized_spec() ==> {
            &&& final(tt)@ == threads_after_init(old(tt))
            &&& final(tt).next_tid_spec() == tid_after_init(old(tt))
            &&& final(tt).next_cpu_spec() == old(tt).next_cpu_spec()
            &&& final(tt).initialized_spec()
        },
{
    proof {
        use_type_invariant(&*pt);
    }
    if pt.initialized {
        return;
    }
    thread::init(tt);
    let mut v: Vec<Process> = Vec::new();
    v.push(kernel_process());
    proof {
        assert(procs_view(v@) =~= seq![kernel_record()]);
    }
    pt.procs = v;
    pt.next_pid = 1;
    pt.initialized = true;
}

fn allocate_pid(pt: &mut ProcessTable) -> (pid: u64)
    requires
        old(pt).next_pid_spec() < u64::MAX,
    ensures
        pid == old(pt).next_pid_spec(),
        final(pt).next_pid_spec() == pid + 1,
        final(pt)@ == old(pt)@,
        final(pt).initialized_spec() == old(pt).initialized_spec(),
{
    proof {
        use_type_invariant(&*pt);
    }
    let pid = pt.next_pid;
    pt.next_pid = pid + 1;
    pid
}

/// Register a process for `main_tid` under the next pid; 0 when pids are
/// exhausted.
fn create_process(
    pt: &mut ProcessTable,
    tt: &mut ThreadTable,
    image_name: &str,
    privilege: PrivilegeLevel,
    main_tid: u64,
    start_tsc: u64,
) -> (pid: u64)
    ensures
        final(pt).initialized_spec(),
        pid_after_init(old(pt)) < u64::MAX ==> {
            &&& pid == pid_after_init(old(pt))
            &&& final(pt).next_pid_spec() == pid + 1
            &&& final(pt)@ == table_after_init(old(pt)).push(
                new_record(pid, image_name.spec_bytes(), privilege, main_tid, start_tsc),
            )
        },
        pid_after_init(old(pt)) == u64::MAX ==> {
            &&& pid == 0
            &&& final(pt)@ == table_after_init(old(pt))
            &&& final(pt).next_pid_spec() == u64::MAX
        },
        (old(pt).initialized_spec() || old(tt).initialized_spec()) ==> final(tt)@ == old(tt)@ && same_counters(
            final(tt),
            old(tt),
        ),
{
    init(pt, tt);
    proof {
        use_type_invariant(&*pt);
    }
    if pt.next_pid == u64::MAX {
        return 0;
    }
    let pid = allocate_pid(pt);
    let bytes = image_name.as_bytes();
    let len = if bytes.len() < IMAGE_NAME_LEN - 1 { bytes.len() } else { IMAGE_NAME_LEN - 1 };
    let mut name = [0u8; IMAGE_NAME_LEN];
    let mut k: usize = 0;
    while k < len
        invariant
            len <= bytes@.len(),
            len <= IMAGE_NAME_LEN - 1,
            k <= len,
            forall|j: int| 0 <= j < IMAGE_NAME_LEN ==> #[trigger] name@[j] == (if j < k { bytes@[j] } else { 0u8 }),
        decreases len - k,
    {
        name[k] = bytes[k];
        k = k + 1;
    }
    let mut threads: Vec<u64> = Vec::new();
    threads.push(main_tid);
    let p = Process {
        pid,
        state: ProcessState::Sleeping,
        image_name: name,
        start_tsc,
        entry: 0,
        stack_top: 0,
        step: 0,
        memory_bytes: 0,
        background: false,
        sigint_catch: false,
        sigint_pending: false,
        kill_pending: false,
        parent: 0,
        privilege,
        main_tid: Some(main_tid),
        threads,
    };
    proof {
        assert(p@.image_name =~= name_bytes(image_name.spec_bytes()));
        assert(p@.threads =~= seq![main_tid]);
    }
    let ghost s = pt@;
    let mut v: Vec<Process> = Vec::new();
    std::mem::swap(&mut v, &mut pt.procs);
    v.push(p);
    proof {
        assert(procs_view(v@) =~= s.push(p@));
        assert forall|i: int, j: int| 0 <= i < j < procs_view(v@).len() implies #[trigger] procs_view(v@)[i].pid
            != #[trigger] procs_view(v@)[j].pid by {
            if j == s.len() {
                assert(s[i].pid < pid);
            } else {
                assert(s[i].pid != s[j].pid);
            }
        }
        assert forall|j: int| 0 <= j < procs_view(v@).len() implies #[trigger] procs_view(v@)[j].pid < pt.next_pid by {
            if j < s.len() {
                assert(s[j].pid < pid);
            }
        }
    }
    pt.procs = v;
    pid
}

/// The main thread of a freshly spawned process, once it is made Ready.
pub open spec fn spawned_thread(
    tid: u64,
    pid: u64,
    stack_base: u64,
    privilege: PrivilegeLevel,
    cpu: usize,
    context: UserContext,
) -> Thread {
    Thread { pid, state: ThreadState::Ready, user_context: context, ..fresh_thread(tid, 0, stack_base, privilege, cpu) }
}

/// The record of a freshly spawned process, once it is made Ready.
pub open spec fn spawned_record(pid: u64, name: Seq<u8>, privilege: PrivilegeLevel, main_tid: u64, start_tsc: u64) -> ProcessView {
    ProcessView { state: ProcessState::Ready, ..new_record(pid, name, privilege, main_tid, start_tsc) }
}

/// The CPU the next created thread is assigned to.
pub open spec fn next_cpu(tt: &ThreadTable, cpu_count: usize) -> usize {
    ((tt.next_cpu_spec() as int) % (if cpu_count == 0 { 1 } else { cpu_count as int })) as usize
}

/// The tables' counters after a spawn: both tables end initialised; when a
/// stack was given and a thread id was free, the thread counters moved on
/// by one thread and the next pid by one (unless pids were exhausted);
/// otherwise the process table's counters are untouched and the thread
/// table's are as its initialisation leaves them.
pub open spec fn spawn_counters(
    old_pt: &ProcessTable,
    old_tt: &ThreadTable,
    pt: &ProcessTable,
    tt: &ThreadTable,
    stack_base: Option<u64>,
) -> bool {
    let n0 = tid_after_init(old_tt);
    let p0 = pid_after_init(old_pt);
    &&& tt.initialized_spec()
    &&& match stack_base {
        Some(b) if n0 < u64::MAX => {
            &&& pt.initialized_spec()
            &&& pt.next_pid_spec() == (if p0 < u64::MAX { p0 + 1 } else { p0 as int })
            &&& tt.next_tid_spec() == n0 + 1
            &&& tt.next_cpu_spec() == next_cpu_after(old_tt.next_cpu_spec())
        },
        _ => {
            &&& same_pcounters(pt, old_pt)
            &&& tt.next_tid_spec() == n0
            &&& tt.next_cpu_spec() == old_tt.next_cpu_spec()
        },
    }
}

fn spawn_with(
    pt: &mut ProcessTable,
    tt: &mut ThreadTable,
    image_name: &str,
    privilege: PrivilegeLevel,
    context: UserContext,
    stack_base: Option<u64>,
    cpu_count: usize,
    start_tsc: u64,
) -> (pid: u64)
    requires
        match stack_base {
            Some(b) => b + KERNEL_STACK_SIZE <= u64::MAX,
            None => true,
        },
    ensures
        ({
            let t0 = threads_after_init(old(tt));
            let n0 = tid_after_init(old(tt));
            let p0 = pid_after_init(old(pt));
            match stack_base {
                Some(b) if n0 < u64::MAX && p0 < u64::MAX => {
                    &&& pid == p0
                    &&& final(pt)@ == table_after_init(old(pt)).push(
                        spawned_record(p0, image_name.spec_bytes(), privilege, n0, start_tsc),
                    )
                    &&& final(tt)@ == t0.push(spawned_thread(n0, p0, b, privilege, next_cpu(old(tt), cpu_count), context))
                },
                Some(b) if n0 < u64::MAX => pid == 0 && final(pt)@ == table_after_init(old(pt)) && final(tt)@ == t0,
                _ => pid == 0 && final(pt)@ == old(pt)@ && final(tt)@ == t0,
            }
        }),
        spawn_counters(old(pt), old(tt), final(pt), final(tt), stack_base),
{
    proof {
        use_type_invariant(&*pt);
    }
    let tid = thread::create_kernel_thread(tt, 0, privilege, stack_base, cpu_count);
    if tid == 0 {
        return 0;
    }
    let ghost t1 = tt@;
    let ghost last = t1.len() - 1;
    proof {
        lemma_find_tid(t1, tid);
        assert(t1.drop_last() =~= threads_after_init(old(tt)));
    }
    let pid = create_process(pt, tt, image_name, privilege, tid, start_tsc);
    if pid == 0 {
        thread::remove_thread(tt, tid);
        proof {
            assert forall|j: int| 0 <= j < t1.drop_last().len() implies #[trigger] t1.drop_last()[j].tid != tid by {
                assert(t1[j].tid != tid);
            }
            lemma_without_absent(t1.drop_last(), tid);
        }
        return 0;
    }
    thread::set_thread_pid(tt, tid, pid);
    let ghost t2 = tt@;
    proof {
        lemma_find_after_update(t1, last, t2[last], tid);
    }
    thread::set_user_context(tt, tid, context);
    let ghost t3 = tt@;
    proof {
        lemma_find_after_update(t2, last, t3[last], tid);
        use_type_invariant(&*pt);
        lemma_unique_find(pt@, pt.next_pid, pt@.len() - 1);
    }
    set_ready(pt, tt, pid);
    proof {
        assert(tt@ =~= threads_after_init(old(tt)).push(
            spawned_thread(tid, pid, stack_base->0, privilege, next_cpu(old(tt), cpu_count), context),
        ));
    }
    pid
}

/// Start a System process named `image_name` on a fresh kernel thread whose
/// stack was allocated at `stack_base` (`None`: allocation failed, pid 0).
/// The process and its main thread are left Ready.
pub fn spawn(
    pt: &mut ProcessTable,
    tt: &mut ThreadTable,
    image_name: &str,
    stack_base: Option<u64>,
    cpu_count: usize,
    start_tsc: u64,
) -> (pid: u64)
    requires
        match stack_base {
            Some(b) => b + KERNEL_STACK_SIZE <= u64::MAX,
            None => true,
        },
    ensures
        ({
            let t0 = threads_after_init(old(tt));
            let n0 = tid_after_init(old(tt));
            let p0 = pid_after_init(old(pt));
            match stack_base {
                Some(b) if n0 < u64::MAX && p0 < u64::MAX => {
                    &&& pid == p0
                    &&& final(pt)@ == table_after_init(old(pt)).push(
                        spawned_record(p0, image_name.spec_bytes(), PrivilegeLevel::System, n0, start_tsc),
                    )
                    &&& final(tt)@ == t0.push(spawned_thread(n0, p0, b, PrivilegeLevel::System, next_cpu(old(tt), cpu_count), empty_context()))
                },
                Some(b) if n0 < u64::MAX => pid == 0 && final(pt)@ == table_after_init(old(pt)) && final(tt)@ == t0,
                _ => pid == 0 && final(pt)@ == old(pt)@ && final(tt)@ == t0,
            }
        }),
        spawn_counters(old(pt), old(tt), final(pt), final(tt), stack_base),
{
    spawn_with(pt, tt, image_name, PrivilegeLevel::System, thread::empty_user_context(), stack_base, cpu_count, start_tsc)
}

/// Start a kernel task at `entry` with the given privilege; like `spawn`, and
/// the main thread's context resumes at `entry`.
pub fn spawn_kernel_task(
    pt: &mut ProcessTable,
    tt: &mut ThreadTable,
    image_name: &str,
    entry: u64,
    privilege: PrivilegeLevel,
    stack_base: Option<u64>,
    cpu_count: usize,
    start_tsc: u64,
) -> (pid: u64)
    requires
        match stack_base {
            Some(b) => b + KERNEL_STACK_SIZE <= u64::MAX,
            None => true,
        },
    ensures
        ({
            let t0 = threads_after_init(old(tt));
            let n0 = tid_after_init(old(tt));
            let p0 = pid_after_init(old(pt));
            match stack_base {
                Some(b) if n0 < u64::MAX && p0 < u64::MAX => {
                    &&& pid == p0
                    &&& final(pt)@ == table_after_init(old(pt)).push(
                        spawned_record(p0, image_name.spec_bytes(), privilege, n0, start_tsc),
                    )
                    &&& final(tt)@ == t0.push(spawned_thread(n0, p0, b, privilege, next_cpu(old(tt), cpu_count), UserContext { rip: entry, ..empty_context() }))
                },
                Some(b) if n0 < u64::MAX => pid == 0 && final(pt)@ == table_after_init(old(pt)) && final(tt)@ == t0,
                _ => pid == 0 && final(pt)@ == old(pt)@ && final(tt)@ == t0,
            }
        }),
        spawn_counters(old(pt), old(tt), final(pt), final(tt), stack_base),
{
    let context = UserContext { rip: entry, ..thread::empty_user_context() };
    spawn_with(pt, tt, image_name, privilege, context, stack_base, cpu_count, start_tsc)
}

/// Start a user process that enters user mode at `entry` on the given stack
/// and address space, with `(argc, argv)` in its first two argument registers.
pub fn spawn_user_process(
    pt: &mut ProcessTable,
    tt: &mut ThreadTable,
    image_name: &str,
    entry: u64,
    user_stack_top: u64,
    cr3: u64,
    privilege: PrivilegeLevel,
    argc: u64,
    argv: u64,
    stack_base: Option<u64>,
    cpu_count: usize,
    start_tsc: u64,
) -> (pid: u64)
    requires
        match stack_base {
            Some(b) => b + KERNEL_STACK_SIZE <= u64::MAX,
            None => true,
        },
    ensures
        ({
            let t0 = threads_after_init(old(tt));
            let n0 = tid_after_init(old(tt));
            let p0 = pid_after_init(old(pt));
            match stack_base {
                Some(b) if n0 < u64::MAX && p0 < u64::MAX => {
                    &&& pid == p0
                    &&& final(pt)@ == table_after_init(old(pt)).push(
                        spawned_record(p0, image_name.spec_bytes(), privilege, n0, start_tsc),
                    )
                    &&& final(tt)@ == t0.push(spawned_thread(n0, p0, b, privilege, next_cpu(old(tt), cpu_count), entry_context(entry, user_stack_top, cr3, argc, argv)))
                },
                Some(b) if n0 < u64::MAX => pid == 0 && final(pt)@ == table_after_init(old(pt)) && final(tt)@ == t0,
                _ => pid == 0 && final(pt)@ == old(pt)@ && final(tt)@ == t0,
            }
        }),
        spawn_counters(old(pt), old(tt), final(pt), final(tt), stack_base),
{
    let context = thread::user_entry_context(entry, user_stack_top, cr3, argc, argv);
    spawn_with(pt, tt, image_name, privilege, context, stack_base, cpu_count, start_tsc)
}

// ── field updates ───────────────────────────────────────────────────────────

/// Which process field a plain update writes.
pub enum FieldWrite {
    Privilege(PrivilegeLevel),
    SigintCatch(bool),
    SigintPending(bool),
    KillPending(bool),
    Parent(u64),
    MemoryBytes(u64),
    Background(bool),
    State(ProcessState),
    Step(u64),
}

pub open spec fn write_field(p: ProcessView, w: FieldWrite) -> ProcessView {
    match w {
        FieldWrite::Privilege(v) => ProcessView { privilege: v, ..p },
        FieldWrite::SigintCatch(v) => ProcessView { sigint_catch: v, ..p },
        FieldWrite::SigintPending(v) => ProcessView { sigint_pending: v, ..p },
        FieldWrite::KillPending(v) => ProcessView { kill_pending: v, ..p },
        FieldWrite::Parent(v) => ProcessView { parent: v, ..p },
        FieldWrite::MemoryBytes(v) => ProcessView { memory_bytes: v, ..p },
        FieldWrite::Background(v) => ProcessView { background: v, ..p },
        FieldWrite::State(v) => ProcessView { state: v, ..p },
        FieldWrite::Step(v) => ProcessView { step: v, ..p },
    }
}

/// Write one field of the process at index `i`.
fn write_at(pt: &mut ProcessTable, i: usize, w: FieldWrite)
    requires
        i < old(pt)@.len(),
    ensures
        final(pt)@ == old(pt)@.update(i as int, write_field(old(pt)@[i as int], w)),
        same_pcounters(final(pt), old(pt)),
{
    proof {
        use_type_invariant(&*pt);
    }
    let ghost s = pt@;
    let mut v: Vec<Process> = Vec::new();
    std::mem::swap(&mut v, &mut pt.procs);
    let p = &mut v[i];
    match w {
        FieldWrite::Privilege(x) => p.privilege = x,
        FieldWrite::SigintCatch(x) => p.sigint_catch = x,
        FieldWrite::SigintPending(x) => p.sigint_pending = x,
        FieldWrite::KillPending(x) => p.kill_pending = x,
        FieldWrite::Parent(x) => p.parent = x,
        FieldWrite::MemoryBytes(x) => p.memory_bytes = x,
        FieldWrite::Background(x) => p.background = x,
        FieldWrite::State(x) => p.state = x,
        FieldWrite::Step(n) => p.step = n,
    }
    proof {
        assert(procs_view(v@) =~= s.update(i as int, write_field(s[i as int], w)));
        lemma_pids_kept(s, procs_view(v@), pt.next_pid);
    }
    pt.procs = v;
}

/// A table with the same pids, position by position, keeps the pid invariant.
proof fn lemma_pids_kept(s: Seq<ProcessView>, t: Seq<ProcessView>, n: u64)
    requires
        pids_ok(s, n),
        t.len() == s.len(),
        forall|j: int| 0 <= j < s.len() ==> #[trigger] t[j].pid == s[j].pid,
    ensures
        pids_ok(t, n),
{
    assert forall|i: int, j: int| 0 <= i < j < t.len() implies #[trigger] t[i].pid != #[trigger] t[j].pid by {
        assert(t[i].pid == s[i].pid);
        assert(t[j].pid == s[j].pid);
    }
    assert forall|j: int| 0 <= j < t.len() implies #[trigger] t[j].pid < n by {
        assert(t[j].pid == s[j].pid);
    }
}

pub fn set_privilege(pt: &mut ProcessTable, tt: &mut ThreadTable, pid: u64, privilege: PrivilegeLevel)
    ensures
        final(pt)@ == update_proc(old(pt)@, pid, |p: ProcessView| ProcessView { privilege, ..p }),
        final(tt)@ == update_main(old(pt)@, old(tt)@, pid, |t: Thread| Thread { privilege, ..t }),
        same_pcounters(final(pt), old(pt)),
        same_counters(final(tt), old(tt)),
{
    if let Some(i) = find_index(pt, pid) {
        write_at(pt, i, FieldWrite::Privilege(privilege));
    }
    proof {
        lemma_state_write_keeps_main(old(pt)@, pt@, pid);
    }
    if let Some(tid) = main_tid(pt, pid) {
        thread::set_privilege(tt, tid, privilege);
    }
}

/// Privilege of `pid`; unknown processes count as User.
pub fn privilege_level(pt: &ProcessTable, pid: u64) -> (r: PrivilegeLevel)
    ensures
        r == (match proc_of(pt@, pid) {
            Some(p) => p.privilege,
            None => PrivilegeLevel::User,
        }),
{
    match find_index(pt, pid) {
        Some(i) => pt.procs[i].privilege,
        None => PrivilegeLevel::User,
    }
}

pub fn sigint_set_catch(pt: &mut ProcessTable, pid: u64, catch: bool)
    ensures
        final(pt)@ == update_proc(old(pt)@, pid, |p: ProcessView| ProcessView { sigint_catch: catch, ..p }),
        same_pcounters(final(pt), old(pt)),
{
    if let Some(i) = find_index(pt, pid) {
        write_at(pt, i, FieldWrite::SigintCatch(catch));
    }
}

/// Consume the pending-SIGINT flag of `pid`.
pub fn sigint_check_and_clear(pt: &mut ProcessTable, pid: u64) -> (r: bool)
    ensures
        r == (match proc_of(old(pt)@, pid) {
            Some(p) => p.sigint_pending,
            None => false,
        }),
        final(pt)@ == update_proc(old(pt)@, pid, |p: ProcessView| ProcessView { sigint_pending: false, ..p }),
        same_pcounters(final(pt), old(pt)),
{
    if let Some(i) = find_index(pt, pid) {
        let pending = pt.procs[i].sigint_pending;
        write_at(pt, i, FieldWrite::SigintPending(false));
        return pending;
    }
    false
}

/// Consume the deferred-kill flag of `pid`: true tells the process's own thread
/// to exit itself.
pub fn take_kill_pending(pt: &mut ProcessTable, pid: u64) -> (r: bool)
    ensures
        r == (match proc_of(old(pt)@, pid) {
            Some(p) => p.kill_pending,
            None => false,
        }),
        final(pt)@ == update_proc(old(pt)@, pid, |p: ProcessView| ProcessView { kill_pending: false, ..p }),
        same_pcounters(final(pt), old(pt)),
{
    if let Some(i) = find_index(pt, pid) {
        let pending = pt.procs[i].kill_pending;
        write_at(pt, i, FieldWrite::KillPending(false));
        return pending;
    }
    false
}

pub fn set_parent(pt: &mut ProcessTable, pid: u64, parent: u64)
    ensures
        final(pt)@ == update_proc(old(pt)@, pid, |p: ProcessView| ProcessView { parent, ..p }),
        same_pcounters(final(pt), old(pt)),
{
    if let Some(i) = find_index(pt, pid) {
        write_at(pt, i, FieldWrite::Parent(parent));
    }
}

/// Advance and return `pid`'s step counter (wrapping); 0 for unknown pids.
pub fn step(pt: &mut ProcessTable, pid: u64) -> (r: u64)
    ensures
        match proc_of(old(pt)@, pid) {
            Some(p) => r == (if p.step == u64::MAX { 0 } else { p.step + 1 }) && final(pt)@ == update_proc(
                old(pt)@,
                pid,
                |q: ProcessView| ProcessView { step: r, ..q },
            ),
            None => r == 0 && final(pt)@ == old(pt)@,
        },
        same_pcounters(final(pt), old(pt)),
{
    if let Some(i) = find_index(pt, pid) {
        let s = pt.procs[i].step;
        let n = if s == u64::MAX { 0 } else { s + 1 };
        write_at(pt, i, FieldWrite::Step(n));
        return n;
    }
    0
}

pub fn set_memory_bytes(pt: &mut ProcessTable, pid: u64, bytes: u64)
    ensures
        final(pt)@ == update_proc(old(pt)@, pid, |p: ProcessView| ProcessView { memory_bytes: bytes, ..p }),
        same_pcounters(final(pt), old(pt)),
{
    if let Some(i) = find_index(pt, pid) {
        write_at(pt, i, FieldWrite::MemoryBytes(bytes));
    }
}

/// Charge `bytes` more memory to `pid` (saturating).
pub fn add_memory_bytes(pt: &mut ProcessTable, pid: u64, bytes: u64)
    ensures
        final(pt)@ == update_proc(
            old(pt)@,
            pid,
            |p: ProcessView| ProcessView { memory_bytes: (if p.memory_bytes + bytes > u64::MAX { u64::MAX as int } else { p.memory_bytes + bytes }) as u64, ..p },
        ),
        same_pcounters(final(pt), old(pt)),
{
    if let Some(i) = find_index(pt, pid) {
        let m = pt.procs[i].memory_bytes;
        write_at(pt, i, FieldWrite::MemoryBytes(m.saturating_add(bytes)));
    }
}

/// Release `bytes` of `pid`'s memory charge (saturating at 0).
pub fn sub_memory_bytes(pt: &mut ProcessTable, pid: u64, bytes: u64)
    ensures
        final(pt)@ == update_proc(
            old(pt)@,
            pid,
            |p: ProcessView| ProcessView { memory_bytes: (if p.memory_bytes < bytes { 0 } else { p.memory_bytes - bytes }) as u64, ..p },
        ),
        same_pcounters(final(pt), old(pt)),
{
    if let Some(i) = find_index(pt, pid) {
        let m = pt.procs[i].memory_bytes;
        write_at(pt, i, FieldWrite::MemoryBytes(m.saturating_sub(bytes)));
    }
}

pub fn memory_bytes(pt: &ProcessTable, pid: u64) -> (r: Option<u64>)
    ensures
        r == (match proc_of(pt@, pid) {
            Some(p) => Some(p.memory_bytes),
            None => None::<u64>,
        }),
{
    match find_index(pt, pid) {
        Some(i) => Some(pt.procs[i].memory_bytes),
        None => None,
    }
}

pub fn set_background(pt: &mut ProcessTable, pid: u64, background: bool)
    ensures
        final(pt)@ == update_proc(old(pt)@, pid, |p: ProcessView| ProcessView { background, ..p }),
        same_pcounters(final(pt), old(pt)),
{
    if let Some(i) = find_index(pt, pid) {
        write_at(pt, i, FieldWrite::Background(background));
    }
}

pub fn is_background(pt: &ProcessTable, pid: u64) -> (r: bool)
    ensures
        r == (match proc_of(pt@, pid) {
            Some(p) => p.background,
            None => false,
        }),
{
    match find_index(pt, pid) {
        Some(i) => pt.procs[i].background,
        None => false,
    }
}

// ── main-thread forwards ────────────────────────────────────────────────────

pub fn add_cpu_ticks(pt: &ProcessTable, tt: &mut ThreadTable, pid: u64, ticks: u64)
    ensures
        final(tt)@ == update_main(
            pt@,
            old(tt)@,
            pid,
            |t: Thread| Thread { cpu_ticks: (if t.cpu_ticks + ticks > u64::MAX { u64::MAX as int } else { t.cpu_ticks + ticks }) as u64, ..t },
        ),
        same_counters(final(tt), old(tt)),
{
    if let Some(tid) = main_tid(pt, pid) {
        thread::add_cpu_ticks(tt, tid, ticks);
    }
}

pub fn cpu_ticks(pt: &ProcessTable, tt: &ThreadTable, pid: u64) -> (r: Option<u64>)
    ensures
        r == (match main_thread(pt@, tt@, pid) {
            Some(t) => Some(t.cpu_ticks),
            None => None::<u64>,
        }),
{
    match main_tid(pt, pid) {
        Some(tid) => thread::cpu_ticks(tt, tid),
        None => None,
    }
}

/// `ticks * 1000 / total` (saturating product, 0 when `total` is 0).
pub open spec fn permille(ticks: u64, total: u64) -> u64 {
    let prod = if ticks * 1000 > u64::MAX { u64::MAX as int } else { ticks * 1000 };
    if total == 0 { 0 } else { (prod / total as int) as u64 }
}

/// Share of `total_ticks` (in permille) that `pid`'s main thread used.
pub fn cpu_usage_permille(pt: &ProcessTable, tt: &ThreadTable, pid: u64, total_ticks: u64) -> (r: Option<u64>)
    ensures
        r == (match main_thread(pt@, tt@, pid) {
            Some(t) => Some(permille(t.cpu_ticks, total_ticks)),
            None => None::<u64>,
        }),
{
    match cpu_ticks(pt, tt, pid) {
        Some(ticks) => {
            let prod = if ticks > u64::MAX / 1000 { u64::MAX } else { ticks * 1000 };
            Some(if total_ticks == 0 { 0 } else { prod / total_ticks })
        },
        None => None,
    }
}

pub fn set_user_context(pt: &ProcessTable, tt: &mut ThreadTable, pid: u64, context: UserContext)
    ensures
        final(tt)@ == update_main(pt@, old(tt)@, pid, |t: Thread| Thread { user_context: context, ..t }),
        same_counters(final(tt), old(tt)),
{
    if let Some(tid) = main_tid(pt, pid) {
        thread::set_user_context(tt, tid, context);
    }
}

pub fn user_context(pt: &ProcessTable, tt: &ThreadTable, pid: u64) -> (r: Option<UserContext>)
    ensures
        r == (match main_thread(pt@, tt@, pid) {
            Some(t) => Some(t.user_context),
            None => None::<UserContext>,
        }),
{
    match main_tid(pt, pid) {
        Some(tid) => thread::user_context(tt, tid),
        None => None,
    }
}

pub fn user_cr3(pt: &ProcessTable, tt: &ThreadTable, pid: u64) -> (r: Option<u64>)
    ensures
        r == (match main_thread(pt@, tt@, pid) {
            Some(t) => Some(t.user_context.cr3),
            None => None::<u64>,
        }),
{
    match main_tid(pt, pid) {
        Some(tid) => thread::user_cr3(tt, tid),
        None => None,
    }
}

pub fn user_stack_top(pt: &ProcessTable, tt: &ThreadTable, pid: u64) -> (r: Option<u64>)
    ensures
        r == (match main_thread(pt@, tt@, pid) {
            Some(t) => Some(t.user_context.user_stack_top),
            None => None::<u64>,
        }),
{
    match main_tid(pt, pid) {
        Some(tid) => match thread::user_context(tt, tid) {
            Some(ctx) => Some(ctx.user_stack_top),
            None => None,
        },
        None => None,
    }
}

pub fn kernel_rsp(pt: &ProcessTable, tt: &ThreadTable, pid: u64) -> (r: Option<u64>)
    ensures
        r == (match main_thread(pt@, tt@, pid) {
            Some(t) => Some(t.kernel_rsp),
            None => None::<u64>,
        }),
{
    match main_tid(pt, pid) {
        Some(tid) => thread::kernel_rsp(tt, tid),
        None => None,
    }
}

pub fn set_kernel_rsp(pt: &ProcessTable, tt: &mut ThreadTable, pid: u64, rsp: u64)
    ensures
        final(tt)@ == update_main(pt@, old(tt)@, pid, |t: Thread| Thread { kernel_rsp: rsp, ..t }),
        same_counters(final(tt), old(tt)),
{
    if let Some(tid) = main_tid(pt, pid) {
        thread::set_kernel_rsp(tt, tid, rsp);
    }
}

pub fn kernel_stack_base(pt: &ProcessTable, tt: &ThreadTable, pid: u64) -> (r: Option<u64>)
    ensures
        r == (match main_thread(pt@, tt@, pid) {
            Some(t) => Some(t.kernel_stack_base),
            None => None::<u64>,
        }),
{
    match main_tid(pt, pid) {
        Some(tid) => thread::kernel_stack_base(tt, tid),
        None => None,
    }
}

pub fn kernel_stack_top(pt: &ProcessTable, tt: &ThreadTable, pid: u64) -> (r: Option<u64>)
    ensures
        r == (match main_thread(pt@, tt@, pid) {
            Some(t) => Some(((t.kernel_stack_base + thread::KERNEL_STACK_SIZE) % 0x1_0000_0000_0000_0000) as u64),
            None => None::<u64>,
        }),
{
    match main_tid(pt, pid) {
        Some(tid) => thread::kernel_stack_top(tt, tid),
        None => None,
    }
}

pub fn set_kernel_preempted(pt: &ProcessTable, tt: &mut ThreadTable, pid: u64, val: bool)
    ensures
        final(tt)@ == update_main(pt@, old(tt)@, pid, |t: Thread| Thread { kernel_preempted: val, ..t }),
        same_counters(final(tt), old(tt)),
{
    if let Some(tid) = main_tid(pt, pid) {
        thread::set_kernel_preempted(tt, tid, val);
    }
}

pub fn is_kernel_preempted(pt: &ProcessTable, tt: &ThreadTable, pid: u64) -> (r: bool)
    ensures
        r == (match main_thread(pt@, tt@, pid) {
            Some(t) => t.kernel_preempted,
            None => false,
        }),
{
    match main_tid(pt, pid) {
        Some(tid) => thread::is_kernel_preempted(tt, tid),
        None => false,
    }
}

pub fn set_blocking_rsp(
    pt: &ProcessTable,
    tt: &mut ThreadTable,
    pid: u64,
    rsp: u64,
    frame: [u64; thread::BLOCKING_FRAME_WORDS],
)
    ensures
        final(tt)@ == update_main(pt@, old(tt)@, pid, |t: Thread| Thread { blocking_rsp: rsp, blocking_frame: frame, ..t }),
        same_counters(final(tt), old(tt)),
{
    if let Some(tid) = main_tid(pt, pid) {
        thread::set_blocking_rsp(tt, tid, rsp, frame);
    }
}

pub fn take_blocking_rsp(pt: &ProcessTable, tt: &mut ThreadTable, pid: u64) -> (r: Option<u64>)
    ensures
        match main_thread(pt@, old(tt)@, pid) {
            Some(t) => if t.blocking_rsp != 0 {
                r == Some(t.blocking_rsp) && final(tt)@ == update_main(
                    pt@,
                    old(tt)@,
                    pid,
                    |u: Thread| Thread { blocking_rsp: 0, ..u },
                )
            } else {
                r is None && final(tt)@ == old(tt)@
            },
            None => r is None && final(tt)@ == old(tt)@,
        },
        same_counters(final(tt), old(tt)),
{
    match main_tid(pt, pid) {
        Some(tid) => thread::take_blocking_rsp(tt, tid),
        None => None,
    }
}

pub fn take_blocking_retval(pt: &ProcessTable, tt: &mut ThreadTable, pid: u64) -> (r: u64)
    ensures
        match main_thread(pt@, old(tt)@, pid) {
            Some(t) => r == t.blocking_retval && final(tt)@ == update_main(
                pt@,
                old(tt)@,
                pid,
                |u: Thread| Thread { blocking_retval: 0, ..u },
            ),
            None => r == 0 && final(tt)@ == old(tt)@,
        },
        same_counters(final(tt), old(tt)),
{
    match main_tid(pt, pid) {
        Some(tid) => thread::take_blocking_retval(tt, tid),
        None => 0,
    }
}

pub fn apply_blocking_return_if_pending(pt: &ProcessTable, tt: &mut ThreadTable, pid: u64) -> (r: bool)
    ensures
        match main_thread(pt@, old(tt)@, pid) {
            Some(t) => if t.blocking_rsp != 0 {
                r && final(tt)@ == update_main(
                    pt@,
                    old(tt)@,
                    pid,
                    |u: Thread| Thread { blocking_retval: 0, ..restored(u, u.blocking_retval) },
                )
            } else {
                !r && final(tt)@ == old(tt)@
            },
            None => !r && final(tt)@ == old(tt)@,
        },
        same_counters(final(tt), old(tt)),
{
    match main_tid(pt, pid) {
        Some(tid) => thread::apply_blocking_return_if_pending(tt, tid),
        None => false,
    }
}

pub fn set_wait_target(pt: &ProcessTable, tt: &mut ThreadTable, pid: u64, target: WaitTarget)
    ensures
        final(tt)@ == update_main(pt@, old(tt)@, pid, |t: Thread| Thread { wait_target: target, ..t }),
        same_counters(final(tt), old(tt)),
{
    if let Some(tid) = main_tid(pt, pid) {
        thread::set_wait_target(tt, tid, target);
    }
}

pub fn wakeup_ipc_waiter(pt: &ProcessTable, tt: &mut ThreadTable, pid: u64, retval: u64)
    ensures
        final(tt)@ == update_main(pt@, old(tt)@, pid, |t: Thread| if ipc_waiting(t) { woken(t, retval) } else { t }),
        same_counters(final(tt), old(tt)),
{
    if let Some(tid) = main_tid(pt, pid) {
        thread::wakeup_ipc_waiter(tt, tid, retval);
    }
}

pub fn wakeup_key_waiters(tt: &mut ThreadTable, key: u8) -> (r: usize)
    ensures
        final(tt)@ == wake_first(old(tt)@, Waiter::Key, key as u64),
        r == (if first_match(old(tt)@, Waiter::Key) >= 0 { 1usize } else { 0usize }),
        same_counters(final(tt), old(tt)),
{
    thread::wakeup_key_waiters(tt, key)
}

pub fn wakeup_key_waiter_for_pid(tt: &mut ThreadTable, pid: u64, key: u8) -> (r: usize)
    ensures
        final(tt)@ == wake_first(old(tt)@, Waiter::KeyOf(pid), key as u64),
        r == (if first_match(old(tt)@, Waiter::KeyOf(pid)) >= 0 { 1usize } else { 0usize }),
        same_counters(final(tt), old(tt)),
{
    thread::wakeup_key_waiter_for_pid(tt, pid, key)
}

pub fn wakeup_pid_waiters(tt: &mut ThreadTable, exited_pid: u64)
    ensures
        final(tt)@ == wake_all(old(tt)@, Sweep::Pid(exited_pid), 1),
        same_counters(final(tt), old(tt)),
{
    thread::wakeup_pid_waiters(tt, exited_pid)
}

pub fn wakeup_irq_waiter(tt: &mut ThreadTable, irq: u8) -> (r: bool)
    ensures
        final(tt)@ == wake_first(old(tt)@, Waiter::Irq(irq), 0),
        r == (first_match(old(tt)@, Waiter::Irq(irq)) >= 0),
        same_counters(final(tt), old(tt)),
{
    thread::wakeup_irq_waiter(tt, irq)
}

pub fn notify_pipe_readers(tt: &mut ThreadTable, pipe_id: u64, got: &[u64])
    ensures
        final(tt)@.len() == old(tt)@.len(),
        forall|j: int|
            0 <= j < old(tt)@.len() ==> #[trigger] final(tt)@[j] == (if pipe_reader(old(tt)@[j], pipe_id)
                && readers_before(old(tt)@, pipe_id, j) < got@.len() {
                woken(old(tt)@[j], got@[readers_before(old(tt)@, pipe_id, j)])
            } else {
                old(tt)@[j]
            }),
        same_counters(final(tt), old(tt)),
{
    thread::notify_pipe_readers(tt, pipe_id, got)
}

pub fn wakeup_audio_waiters(tt: &mut ThreadTable)
    ensures
        final(tt)@ == wake_all(old(tt)@, Sweep::Audio, 0),
        same_counters(final(tt), old(tt)),
{
    thread::wakeup_audio_waiters(tt)
}

pub fn wake_timer_sleepers(tt: &mut ThreadTable, now_tsc: u64)
    ensures
        final(tt)@ == wake_all(old(tt)@, Sweep::Timer(now_tsc), 0),
        same_counters(final(tt), old(tt)),
{
    thread::wake_timer_sleepers(tt, now_tsc)
}

pub fn wake_tick_sleepers(tt: &mut ThreadTable)
    ensures
        final(tt)@ == wake_all(old(tt)@, Sweep::Tick, 0),
        same_counters(final(tt), old(tt)),
{
    thread::wake_tick_sleepers(tt)
}

// ── per-CPU current process ─────────────────────────────────────────────────

/// The process running on `cpu` (0: the kernel).
pub fn current_pid(cpus: &Cpus, cpu: usize) -> (r: u64)
    requires
        cpu < cpus@.len(),
    ensures
        r == (match cpus@[cpu as int].pid {
            Some(p) => p,
            None => 0,
        }),
{
    match current_user_pid(cpus, cpu) {
        Some(p) => p,
        None => 0,
    }
}

/// The thread running on `cpu` (0: none).
pub fn current_tid(cpus: &Cpus, cpu: usize) -> (r: u64)
    requires
        cpu < cpus@.len(),
    ensures
        r == (match cpus@[cpu as int].tid {
            Some(t) => t,
            None => 0,
        }),
{
    match current_user_tid(cpus, cpu) {
        Some(t) => t,
        None => 0,
    }
}

/// Make `pid` (or nothing) the process running on `cpu`, with its main thread.
pub fn set_current_user_pid(cpus: &mut Cpus, pt: &ProcessTable, cpu: usize, pid: Option<u64>)
    requires
        cpu < old(cpus)@.len(),
    ensures
        final(cpus)@ == old(cpus)@.update(
            cpu as int,
            CpuSlot {
                pid,
                tid: match pid {
                    Some(p) => main_tid_of(pt@, p),
                    None => None,
                },
                ..old(cpus)@[cpu as int]
            },
        ),
{
    let tid = match pid {
        Some(p) => main_tid(pt, p),
        None => None,
    };
    set_slot(cpus, cpu, pid, tid);
}

/// Forget the process running on `cpu` (its thread too).
pub fn clear_current_pid(cpus: &mut Cpus, pt: &ProcessTable, cpu: usize)
    requires
        cpu < old(cpus)@.len(),
    ensures
        final(cpus)@ == old(cpus)@.update(cpu as int, CpuSlot { pid: None, tid: None, ..old(cpus)@[cpu as int] }),
{
    set_current_user_pid(cpus, pt, cpu, None);
}

// ── state transitions ───────────────────────────────────────────────────────

pub open spec fn proc_live(s: ProcessState) -> bool {
    !(s == ProcessState::Empty || s == ProcessState::Exited)
}

pub open spec fn proc_schedulable(s: ProcessState) -> bool {
    s == ProcessState::Ready || s == ProcessState::Running || s == ProcessState::Sleeping
}

/// Mark `pid` Ready (if it is Ready, Running or Sleeping) together with its
/// main thread.
pub fn set_ready(pt: &mut ProcessTable, tt: &mut ThreadTable, pid: u64)
    ensures
        final(pt)@ == update_proc(
            old(pt)@,
            pid,
            |p: ProcessView| if proc_schedulable(p.state) { ProcessView { state: ProcessState::Ready, ..p } } else { p },
        ),
        final(tt)@ == update_main(old(pt)@, old(tt)@, pid, |t: Thread| ready_thread(t)),
        same_pcounters(final(pt), old(pt)),
        same_counters(final(tt), old(tt)),
{
    if let Some(i) = find_index(pt, pid) {
        if matches!(pt.procs[i].state, ProcessState::Ready | ProcessState::Running | ProcessState::Sleeping) {
            write_at(pt, i, FieldWrite::State(ProcessState::Ready));
        }
    }
    proof {
        lemma_state_write_keeps_main(old(pt)@, pt@, pid);
    }
    if let Some(tid) = main_tid(pt, pid) {
        thread::set_ready(tt, tid);
    }
}

/// Mark `pid` Sleeping (unless Empty or Exited) together with its main thread.
pub fn set_sleeping(pt: &mut ProcessTable, tt: &mut ThreadTable, pid: u64)
    ensures
        final(pt)@ == update_proc(
            old(pt)@,
            pid,
            |p: ProcessView| if proc_live(p.state) { ProcessView { state: ProcessState::Sleeping, ..p } } else { p },
        ),
        final(tt)@ == update_main(old(pt)@, old(tt)@, pid, |t: Thread| sleep_thread(t)),
        same_pcounters(final(pt), old(pt)),
        same_counters(final(tt), old(tt)),
{
    if let Some(i) = find_index(pt, pid) {
        if !matches!(pt.procs[i].state, ProcessState::Empty | ProcessState::Exited) {
            write_at(pt, i, FieldWrite::State(ProcessState::Sleeping));
        }
    }
    proof {
        lemma_state_write_keeps_main(old(pt)@, pt@, pid);
    }
    if let Some(tid) = main_tid(pt, pid) {
        thread::set_sleeping(tt, tid);
    }
}

/// Make `pid` the process running on `cpu`: the CPU slot records it (and its
/// main thread), the process becomes Running unless Empty or Exited, and so
/// does its main thread.
pub fn set_running(pt: &mut ProcessTable, tt: &mut ThreadTable, cpus: &mut Cpus, cpu: usize, pid: u64)
    requires
        cpu < old(cpus)@.len(),
    ensures
        final(pt)@ == update_proc(
            old(pt)@,
            pid,
            |p: ProcessView| if proc_live(p.state) { ProcessView { state: ProcessState::Running, ..p } } else { p },
        ),
        final(tt)@ == update_main(old(pt)@, old(tt)@, pid, |t: Thread| run_thread(t)),
        final(cpus)@ == old(cpus)@.update(
            cpu as int,
            CpuSlot { pid: Some(pid), tid: main_tid_of(old(pt)@, pid), ..old(cpus)@[cpu as int] },
        ),
        same_pcounters(final(pt), old(pt)),
        same_counters(final(tt), old(tt)),
{
    set_current_user_pid(cpus, pt, cpu, Some(pid));
    if let Some(i) = find_index(pt, pid) {
        if !matches!(pt.procs[i].state, ProcessState::Empty | ProcessState::Exited) {
            write_at(pt, i, FieldWrite::State(ProcessState::Running));
        }
    }
    proof {
        lemma_state_write_keeps_main(old(pt)@, pt@, pid);
    }
    if let Some(tid) = main_tid(pt, pid) {
        thread::set_running(tt, tid);
        let ghost mid = cpus@;
        set_slot(cpus, cpu, Some(pid), Some(tid));
        proof {
            assert(cpus@ =~= mid);
        }
    }
}

/// Updating a process's state (or any field but the pid and main thread)
/// keeps which thread is its main thread.
proof fn lemma_state_write_keeps_main(s: Seq<ProcessView>, t: Seq<ProcessView>, pid: u64)
    requires
        t.len() == s.len(),
        forall|j: int| 0 <= j < s.len() ==> #[trigger] t[j].pid == s[j].pid && t[j].main_tid == s[j].main_tid,
    ensures
        main_tid_of(t, pid) == main_tid_of(s, pid),
        find_pid(t, pid) == find_pid(s, pid),
{
    lemma_same_pids_find(s, t, pid, 0);
    lemma_find_from(s, pid, 0);
    let f = find_pid(s, pid);
    if f >= 0 {
        assert(t[f].pid == s[f].pid);
    }
}

proof fn lemma_same_pids_find(s: Seq<ProcessView>, t: Seq<ProcessView>, pid: u64, i: int)
    requires
        t.len() == s.len(),
        forall|j: int| 0 <= j < s.len() ==> #[trigger] t[j].pid == s[j].pid,
        0 <= i,
    ensures
        find_from(t, pid, i) == find_from(s, pid, i),
    decreases s.len() - i,
{
    if i < s.len() && s[i].pid != pid {
        lemma_same_pids_find(s, t, pid, i + 1);
    }
}


// ── killing ─────────────────────────────────────────────────────────────────

/// A process that a kill request reaches: not the kernel, not privileged.
pub open spec fn killable(p: ProcessView) -> bool {
    p.pid != 0 && !privileged(p.privilege)
}

/// The process table after a kill request for `pid`.
pub open spec fn killed_procs(ps: Seq<ProcessView>, pid: u64) -> Seq<ProcessView> {
    match proc_of(ps, pid) {
        Some(p) => if killable(p) {
            update_proc(ps, pid, |q: ProcessView| ProcessView { kill_pending: true, ..q })
        } else {
            ps
        },
        None => ps,
    }
}

/// The thread table after a kill request for `pid`: its main thread is woken
/// (made Ready) so that it runs and exits itself.
pub open spec fn killed_threads(ps: Seq<ProcessView>, ts: Seq<Thread>, pid: u64) -> Seq<Thread> {
    match proc_of(ps, pid) {
        Some(p) => if killable(p) { update_main(ps, ts, pid, |t: Thread| ready_thread(t)) } else { ts },
        None => ts,
    }
}

/// Request that `pid` die: it is flagged (`kill_pending`) and its main thread
/// made Ready; nothing is freed here, the process's own thread exits itself
/// the next time it enters the kernel. The kernel and privileged processes
/// are never killed.
pub fn kill_pid(pt: &mut ProcessTable, tt: &mut ThreadTable, pid: u64)
    ensures
        final(pt)@ == killed_procs(old(pt)@, pid),
        final(tt)@ == killed_threads(old(pt)@, old(tt)@, pid),
        same_pcounters(final(pt), old(pt)),
        same_counters(final(tt), old(tt)),
{
    proof {
        lemma_find_from(old(pt)@, pid, 0);
    }
    if pid == 0 {
        return;
    }
    match find_index(pt, pid) {
        None => {
            return;
        },
        Some(i) => {
            if is_privileged(pt.procs[i].privilege) {
                return;
            }
            write_at(pt, i, FieldWrite::KillPending(true));
        },
    }
    proof {
        lemma_state_write_keeps_main(old(pt)@, pt@, pid);
    }
    if let Some(main) = main_tid(pt, pid) {
        thread::set_ready(tt, main);
    }
}

/// A child of `parent` that a kill request reaches.
pub open spec fn child_killed(p: ProcessView, parent: u64) -> bool {
    p.parent == parent && killable(p)
}

/// The thread at position `k` is the main thread of a killed child of `parent`
/// among the first `n` processes (and the first thread with its id).
pub open spec fn readied_upto(ps: Seq<ProcessView>, ts: Seq<Thread>, parent: u64, n: int, k: int) -> bool {
    &&& find_tid(ts, ts[k].tid) == k
    &&& exists|j: int| 0 <= j < n && child_killed(#[trigger] ps[j], parent) && ps[j].main_tid == Some(ts[k].tid)
}

/// The thread at position `k` is the main thread of a killed child of `parent`.
pub open spec fn readied_by(ps: Seq<ProcessView>, ts: Seq<Thread>, parent: u64, k: int) -> bool {
    readied_upto(ps, ts, parent, ps.len() as int, k)
}

/// The process table after the children of `parent` are killed.
pub open spec fn children_killed(ps: Seq<ProcessView>, parent: u64) -> Seq<ProcessView> {
    Seq::new(
        ps.len(),
        |j: int| if child_killed(ps[j], parent) { ProcessView { kill_pending: true, ..ps[j] } } else { ps[j] },
    )
}

/// The thread table after the children of `parent` are killed.
pub open spec fn children_readied(ps: Seq<ProcessView>, ts: Seq<Thread>, parent: u64) -> Seq<Thread> {
    Seq::new(ts.len(), |k: int| if readied_by(ps, ts, parent, k) { ready_thread(ts[k]) } else { ts[k] })
}

proof fn lemma_kill_step(
    ps0: Seq<ProcessView>,
    ts0: Seq<Thread>,
    pcur: Seq<ProcessView>,
    tcur: Seq<Thread>,
    tnext: Seq<Thread>,
    np: u64,
    pid: u64,
    i: int,
)
    requires
        pids_ok(ps0, np),
        0 <= i < ps0.len(),
        pcur.len() == ps0.len(),
        forall|j: int| 0 <= j < ps0.len() ==> #[trigger] pcur[j] == (if j < i && child_killed(ps0[j], pid) {
            ProcessView { kill_pending: true, ..ps0[j] }
        } else {
            ps0[j]
        }),
        tcur.len() == ts0.len(),
        forall|k: int| 0 <= k < ts0.len() ==> #[trigger] tcur[k] == (if readied_upto(ps0, ts0, pid, i, k) {
            ready_thread(ts0[k])
        } else {
            ts0[k]
        }),
        tnext == (if ps0[i].parent == pid { killed_threads(pcur, tcur, ps0[i].pid) } else { tcur }),
    ensures
        tnext.len() == ts0.len(),
        forall|k: int| 0 <= k < ts0.len() ==> #[trigger] tnext[k] == (if readied_upto(ps0, ts0, pid, i + 1, k) {
            ready_thread(ts0[k])
        } else {
            ts0[k]
        }),
{
    lemma_pids_kept(ps0, pcur, np);
    lemma_unique_find(pcur, np, i);
    assert forall|k: int| 0 <= k < ts0.len() implies #[trigger] tcur[k].tid == ts0[k].tid by {
    }
    let m = ps0[i].main_tid;
    let hit = ps0[i].parent == pid && killable(ps0[i]) && m is Some;
    if hit {
        let mt = m->0;
        lemma_same_tids(ts0, tcur, mt);
        lemma_find_tid(ts0, mt);
    }
    assert forall|k: int| 0 <= k < ts0.len() implies #[trigger] tnext[k] == (if readied_upto(ps0, ts0, pid, i + 1, k) {
        ready_thread(ts0[k])
    } else {
        ts0[k]
    }) by {
        if readied_upto(ps0, ts0, pid, i + 1, k) && !readied_upto(ps0, ts0, pid, i, k) {
            let j = choose|j: int| 0 <= j < i + 1 && child_killed(#[trigger] ps0[j], pid) && ps0[j].main_tid == Some(ts0[k].tid);
            assert(j == i);
        }
        if readied_upto(ps0, ts0, pid, i, k) {
            let j = choose|j: int| 0 <= j < i && child_killed(#[trigger] ps0[j], pid) && ps0[j].main_tid == Some(ts0[k].tid);
            assert(0 <= j < i + 1 && child_killed(ps0[j], pid));
        }
    }
}

/// Kill every process whose parent is `pid` (used when the parent exits).
fn kill_children(pt: &mut ProcessTable, tt: &mut ThreadTable, pid: u64)
    ensures
        final(pt)@ == children_killed(old(pt)@, pid),
        final(tt)@ == children_readied(old(pt)@, old(tt)@, pid),
        same_pcounters(final(pt), old(pt)),
        same_counters(final(tt), old(tt)),
{
    let ghost ps0 = pt@;
    let ghost ts0 = tt@;
    let ghost np = pt.next_pid;
    proof {
        use_type_invariant(&*pt);
    }
    let mut i: usize = 0;
    while i < pt.procs.len()
        invariant
            pids_ok(ps0, np),
            pt.next_pid_spec() == np,
            same_pcounters(pt, old(pt)),
            same_counters(tt, old(tt)),
            ps0 == old(pt)@,
            ts0 == old(tt)@,
            i <= pt@.len(),
            pt@.len() == ps0.len(),
            forall|j: int| 0 <= j < ps0.len() ==> #[trigger] pt@[j] == (if j < i && child_killed(ps0[j], pid) {
                ProcessView { kill_pending: true, ..ps0[j] }
            } else {
                ps0[j]
            }),
            tt@.len() == ts0.len(),
            forall|k: int| 0 <= k < ts0.len() ==> #[trigger] tt@[k] == (if readied_upto(ps0, ts0, pid, i as int, k) {
                ready_thread(ts0[k])
            } else {
                ts0[k]
            }),
        decreases ps0.len() - i,
    {
        let ghost pcur = pt@;
        let ghost tcur = tt@;
        proof {
            lemma_pids_kept(ps0, pcur, np);
            lemma_unique_find(pcur, np, i as int);
        }
        if pt.procs[i].parent == pid {
            let child = pt.procs[i].pid;
            kill_pid(pt, tt, child);
        }
        proof {
            lemma_kill_step(ps0, ts0, pcur, tcur, tt@, np, pid, i as int);
            assert forall|j: int| 0 <= j < ps0.len() implies #[trigger] pt@[j] == (if j < i + 1 && child_killed(ps0[j], pid) {
                ProcessView { kill_pending: true, ..ps0[j] }
            } else {
                ps0[j]
            }) by {
                if j == i {
                }
            }
        }
        i = i + 1;
    }
    proof {
        assert(pt@ =~= children_killed(ps0, pid));
        assert(tt@ =~= children_readied(ps0, ts0, pid));
    }
}


// ── exit ────────────────────────────────────────────────────────────────────

/// `s` without the threads whose ids are in `tids`, dropped in order.
pub open spec fn without_tids(s: Seq<Thread>, tids: Seq<u64>) -> Seq<Thread>
    decreases tids.len(),
{
    if tids.len() == 0 {
        s
    } else {
        without_tid(without_tids(s, tids.drop_last()), tids.last())
    }
}

/// The table without the process `pid`: the last record takes its place.
pub open spec fn procs_without(ps: Seq<ProcessView>, pid: u64) -> Seq<ProcessView> {
    if find_pid(ps, pid) >= 0 {
        ps.update(find_pid(ps, pid), ps.last()).drop_last()
    } else {
        ps
    }
}

/// The thread table without the threads of process `pid`.
pub open spec fn threads_without(ps: Seq<ProcessView>, ts: Seq<Thread>, pid: u64) -> Seq<Thread> {
    match proc_of(ps, pid) {
        Some(p) => without_tids(ts, p.threads),
        None => ts,
    }
}

/// Drop the process `pid` and all of its threads.
fn remove_process(pt: &mut ProcessTable, tt: &mut ThreadTable, pid: u64)
    ensures
        final(pt)@ == procs_without(old(pt)@, pid),
        final(tt)@ == threads_without(old(pt)@, old(tt)@, pid),
        same_pcounters(final(pt), old(pt)),
        same_counters(final(tt), old(tt)),
{
    proof {
        use_type_invariant(&*pt);
        lemma_find_from(old(pt)@, pid, 0);
    }
    if let Some(pos) = find_index(pt, pid) {
        let ghost s = pt@;
        let mut v: Vec<Process> = Vec::new();
        std::mem::swap(&mut v, &mut pt.procs);
        let p = v.swap_remove(pos);
        proof {
            let t = procs_view(v@);
            assert(t =~= s.update(pos as int, s.last()).drop_last());
            assert forall|a: int, b: int| 0 <= a < b < t.len() implies #[trigger] t[a].pid != #[trigger] t[b].pid by {
                let ia = if a == pos { s.len() - 1 } else { a };
                let ib = if b == pos { s.len() - 1 } else { b };
                assert(t[a].pid == s[ia].pid);
                assert(t[b].pid == s[ib].pid);
                if ia < ib {
                    assert(s[ia].pid != s[ib].pid);
                } else {
                    assert(s[ib].pid != s[ia].pid);
                }
            }
            assert forall|j: int| 0 <= j < t.len() implies #[trigger] t[j].pid < pt.next_pid by {
                if j == pos {
                    assert(s[s.len() - 1].pid < pt.next_pid);
                } else {
                    assert(s[j].pid < pt.next_pid);
                }
            }
        }
        pt.procs = v;
        let ghost ts0 = tt@;
        let mut k: usize = 0;
        while k < p.threads.len()
            invariant
                k <= p.threads@.len(),
                tt@ == without_tids(ts0, p.threads@.subrange(0, k as int)),
                same_counters(tt, old(tt)),
            decreases p.threads@.len() - k,
        {
            proof {
                assert(p.threads@.subrange(0, k + 1).drop_last() =~= p.threads@.subrange(0, k as int));
            }
            thread::remove_thread(tt, p.threads[k]);
            k = k + 1;
        }
        proof {
            assert(p.threads@.subrange(0, p.threads@.len() as int) =~= p.threads@);
        }
    }
}

/// End the process running on `cpu`. For the kernel (pid 0) its record just
/// goes back to Running. Otherwise its children are killed, the CPU forgets
/// it, it is removed with all its threads, and whoever waits on it is woken
/// (with 1). Returns the pid and, for a user process, the address space (cr3)
/// its main thread had, whose release (with the process's descriptors and
/// memory) is left to the caller.
pub fn exit_current(pt: &mut ProcessTable, tt: &mut ThreadTable, cpus: &mut Cpus, cpu: usize) -> (r: (u64, Option<u64>))
    requires
        cpu < old(cpus)@.len(),
    ensures
        ({
            let slot = old(cpus)@[cpu as int];
            let pid = match slot.pid {
                Some(p) => p,
                None => 0,
            };
            &&& r.0 == pid
            &&& pid == 0 ==> {
                &&& r.1 is None
                &&& final(pt)@ == update_proc(
                    old(pt)@,
                    0,
                    |p: ProcessView| ProcessView { state: ProcessState::Running, ..p },
                )
                &&& final(tt)@ == old(tt)@
                &&& final(cpus)@ == old(cpus)@.update(cpu as int, CpuSlot { pid: None, tid: None, ..slot })
            }
            &&& pid != 0 ==> {
                let ps1 = children_killed(old(pt)@, pid);
                let ts1 = children_readied(old(pt)@, old(tt)@, pid);
                &&& r.1 == (match main_thread(ps1, ts1, pid) {
                    Some(t) => Some(t.user_context.cr3),
                    None => None::<u64>,
                })
                &&& final(pt)@ == procs_without(ps1, pid)
                &&& final(tt)@ == wake_all(threads_without(ps1, ts1, pid), Sweep::Pid(pid), 1)
                &&& final(cpus)@ == old(cpus)@.update(
                    cpu as int,
                    CpuSlot { pid: None, tid: None, next_pid: None, idle: slot.idle },
                )
            }
        }),
        same_pcounters(final(pt), old(pt)),
        same_counters(final(tt), old(tt)),
{
    let pid = current_pid(cpus, cpu);
    let tid = current_tid(cpus, cpu);
    let mut cr3: Option<u64> = None;
    if pid == 0 {
        if let Some(i) = find_index(pt, 0) {
            write_at(pt, i, FieldWrite::State(ProcessState::Running));
        }
    } else {
        kill_children(pt, tt, pid);
        clear_current_user(cpus, cpu, pid);
        cr3 = user_cr3(pt, tt, pid);
        remove_process(pt, tt, pid);
        thread::wakeup_pid_waiters(tt, pid);
    }
    let ghost before = cpus@;
    clear_current_pid(cpus, pt, cpu);
    proof {
        assert(cpus@ =~= before.update(cpu as int, CpuSlot { pid: None, tid: None, ..before[cpu as int] }));
    }
    if tid != 0 {
        thread::set_state(tt, tid, ThreadState::Exited);
    }
    (pid, cr3)
}


// ── signals ─────────────────────────────────────────────────────────────────

/// A thread interrupted out of a blocking syscall: if it sleeps in one, the
/// saved frame is dropped and it becomes Ready with no wait target.
pub open spec fn interrupted(t: Thread) -> Thread {
    if t.state == ThreadState::Sleeping && t.blocking_rsp != 0 {
        Thread { state: ThreadState::Ready, wait_target: WaitTarget::NoTarget, blocking_rsp: 0, ..t }
    } else {
        t
    }
}

/// Deliver SIGINT to `pid`. Privileged processes ignore it; a process that
/// catches it gets it marked pending and its main thread is interrupted out of
/// a blocking syscall; any other process is killed.
pub fn send_sigint(pt: &mut ProcessTable, tt: &mut ThreadTable, pid: u64)
    ensures
        match proc_of(old(pt)@, pid) {
            None => final(pt)@ == old(pt)@ && final(tt)@ == old(tt)@,
            Some(p) => if privileged(p.privilege) {
                final(pt)@ == old(pt)@ && final(tt)@ == old(tt)@
            } else if p.sigint_catch {
                &&& final(pt)@ == update_proc(old(pt)@, pid, |q: ProcessView| ProcessView { sigint_pending: true, ..q })
                &&& final(tt)@ == update_main(old(pt)@, old(tt)@, pid, |t: Thread| interrupted(t))
            } else {
                final(pt)@ == killed_procs(old(pt)@, pid) && final(tt)@ == killed_threads(old(pt)@, old(tt)@, pid)
            },
        },
        same_pcounters(final(pt), old(pt)),
        same_counters(final(tt), old(tt)),
{
    proof {
        lemma_find_from(old(pt)@, pid, 0);
    }
    let i = match find_index(pt, pid) {
        Some(i) => i,
        None => return,
    };
    if is_privileged(pt.procs[i].privilege) {
        return;
    }
    if pt.procs[i].sigint_catch {
        write_at(pt, i, FieldWrite::SigintPending(true));
        proof {
            lemma_state_write_keeps_main(old(pt)@, pt@, pid);
        }
        if let Some(tid) = main_tid(pt, pid) {
            let ghost t0 = tt@;
            proof {
                lemma_find_tid(t0, tid);
            }
            let sleeping = match thread::state(tt, tid) {
                Some(ThreadState::Sleeping) => true,
                _ => false,
            };
            if sleeping {
                if thread::take_blocking_rsp(tt, tid).is_some() {
                    let ghost t1 = tt@;
                    proof {
                        lemma_find_after_update(t0, find_tid(t0, tid), t1[find_tid(t0, tid)], tid);
                    }
                    thread::apply_blocking_return_if_pending(tt, tid);
                    thread::set_ready(tt, tid);
                    let ghost t2 = tt@;
                    proof {
                        lemma_find_after_update(t1, find_tid(t0, tid), t2[find_tid(t0, tid)], tid);
                    }
                    thread::set_wait_target(tt, tid, WaitTarget::NoTarget);
                    proof {
                        assert(tt@ =~= t0.update(find_tid(t0, tid), interrupted(t0[find_tid(t0, tid)])));
                    }
                }
            }
        }
    } else {
        kill_pid(pt, tt, pid);
    }
}

/// A thread asked to leave a wait: if sleeping, a pending syscall return is
/// applied and it becomes Ready with no wait target.
pub open spec fn exit_requested(t: Thread) -> Thread {
    if t.state == ThreadState::Sleeping {
        let u = if t.blocking_rsp != 0 {
            Thread { blocking_retval: 0, ..restored(t, t.blocking_retval) }
        } else {
            t
        };
        Thread { state: ThreadState::Ready, wait_target: WaitTarget::NoTarget, ..u }
    } else {
        t
    }
}

/// Ask the module `pid` to exit: its SIGINT is marked pending (whatever its
/// privilege) and a sleeping main thread is woken.
pub fn send_module_exit(pt: &mut ProcessTable, tt: &mut ThreadTable, pid: u64)
    ensures
        final(pt)@ == update_proc(old(pt)@, pid, |q: ProcessView| ProcessView { sigint_pending: true, ..q }),
        final(tt)@ == (match proc_of(old(pt)@, pid) {
            Some(p) => update_main(old(pt)@, old(tt)@, pid, |t: Thread| exit_requested(t)),
            None => old(tt)@,
        }),
        same_pcounters(final(pt), old(pt)),
        same_counters(final(tt), old(tt)),
{
    proof {
        lemma_find_from(old(pt)@, pid, 0);
    }
    let i = match find_index(pt, pid) {
        Some(i) => i,
        None => return,
    };
    write_at(pt, i, FieldWrite::SigintPending(true));
    proof {
        lemma_state_write_keeps_main(old(pt)@, pt@, pid);
    }
    if let Some(tid) = main_tid(pt, pid) {
        let ghost t0 = tt@;
        proof {
            lemma_find_tid(t0, tid);
        }
        let sleeping = match thread::state(tt, tid) {
            Some(ThreadState::Sleeping) => true,
            _ => false,
        };
        if sleeping {
            thread::apply_blocking_return_if_pending(tt, tid);
            let ghost t1 = tt@;
            proof {
                if t1 != t0 {
                    lemma_find_after_update(t0, find_tid(t0, tid), t1[find_tid(t0, tid)], tid);
                }
            }
            thread::set_ready(tt, tid);
            let ghost t2 = tt@;
            proof {
                lemma_find_after_update(t1, find_tid(t0, tid), t2[find_tid(t0, tid)], tid);
            }
            thread::set_wait_target(tt, tid, WaitTarget::NoTarget);
            proof {
                assert(tt@ =~= t0.update(find_tid(t0, tid), exit_requested(t0[find_tid(t0, tid)])));
            }
        }
    }
}


// ── foreground and OOM ──────────────────────────────────────────────────────

/// The process that the main thread of `p` waits on, if it waits on one.
pub open spec fn waits_on(ts: Seq<Thread>, p: ProcessView) -> Option<u64> {
    match p.main_tid {
        Some(tid) => match thread_of(ts, tid) {
            Some(t) => match t.wait_target {
                WaitTarget::Pid(x) => Some(x),
                _ => None,
            },
            None => None,
        },
        None => None,
    }
}

/// Some process waits on `pid`.
pub open spec fn waited_on(ps: Seq<ProcessView>, ts: Seq<Thread>, pid: u64) -> bool {
    exists|j: int| 0 <= j < ps.len() && #[trigger] waits_on(ts, ps[j]) == Some(pid)
}

/// A live user-side process that something waits on and that waits on nothing
/// itself: the leaf of a wait chain.
pub open spec fn fg_candidate(ps: Seq<ProcessView>, ts: Seq<Thread>, p: ProcessView) -> bool {
    &&& p.pid != 0
    &&& proc_live(p.state)
    &&& waited_on(ps, ts, p.pid)
    &&& waits_on(ts, p) is None
}

fn waits_on_exec(p: &Process, tt: &ThreadTable) -> (r: Option<u64>)
    ensures
        r == waits_on(tt@, p@),
{
    match p.main_tid {
        Some(tid) => match thread::wait_target(tt, tid) {
            Some(WaitTarget::Pid(x)) => Some(x),
            _ => None,
        },
        None => None,
    }
}

/// The foreground process for terminal signals: the first process (in table
/// order) that another process waits on and that waits on no process itself.
/// `None` when nothing is waited on.
pub fn foreground_pid(pt: &ProcessTable, tt: &ThreadTable) -> (r: Option<u64>)
    ensures
        match r {
            Some(pid) => exists|i: int|
                0 <= i < pt@.len() && pt@[i].pid == pid && #[trigger] fg_candidate(pt@, tt@, pt@[i]) && forall|j: int|
                    0 <= j < i ==> !#[trigger] fg_candidate(pt@, tt@, pt@[j]),
            None => forall|j: int| 0 <= j < pt@.len() ==> !#[trigger] fg_candidate(pt@, tt@, pt@[j]),
        },
{
    let mut i: usize = 0;
    while i < pt.procs.len()
        invariant
            i <= pt@.len(),
            forall|j: int| 0 <= j < i ==> !#[trigger] fg_candidate(pt@, tt@, pt@[j]),
        decreases pt@.len() - i,
    {
        let p = &pt.procs[i];
        let live = !matches!(p.state, ProcessState::Empty | ProcessState::Exited);
        if p.pid != 0 && live {
            let mut waited = false;
            let mut k: usize = 0;
            while k < pt.procs.len()
                invariant
                    k <= pt@.len(),
                    i < pt@.len(),
                    p@ == pt@[i as int],
                    waited <==> exists|j: int| 0 <= j < k && #[trigger] waits_on(tt@, pt@[j]) == Some(p@.pid),
                decreases pt@.len() - k,
            {
                let w = waits_on_exec(&pt.procs[k], tt);
                assert(pt@[k as int] == pt.procs@[k as int]@);
                let hit = match w {
                    Some(x) => x == p.pid,
                    None => false,
                };
                if hit {
                    waited = true;
                }
                proof {
                    if !hit {
                        assert forall|j: int| 0 <= j < k + 1 && #[trigger] waits_on(tt@, pt@[j]) == Some(p@.pid) implies j
                            < k by {
                        }
                    }
                }
                k = k + 1;
            }
            if waited && waits_on_exec(p, tt).is_none() {
                assert(fg_candidate(pt@, tt@, pt@[i as int]));
                return Some(p.pid);
            }
        }
        i = i + 1;
    }
    None
}

/// The process that `pid` waits on, if `pid` exists and waits on one.
pub open spec fn next_in_chain(ps: Seq<ProcessView>, ts: Seq<Thread>, pid: u64) -> Option<u64> {
    match proc_of(ps, pid) {
        Some(p) => waits_on(ts, p),
        None => None,
    }
}

/// Where following the wait chain from `cur` for at most `n` steps ends.
pub open spec fn chain_leaf(ps: Seq<ProcessView>, ts: Seq<Thread>, cur: u64, n: nat) -> u64
    decreases n,
{
    if n == 0 {
        cur
    } else {
        match next_in_chain(ps, ts, cur) {
            Some(x) => chain_leaf(ps, ts, x, (n - 1) as nat),
            None => cur,
        }
    }
}

/// Follow `root`'s wait chain (root waits on X, X waits on Y, ...) for at most
/// 64 steps to its leaf, the foreground process; `root` itself when it waits
/// on no process.
pub fn foreground_leaf(pt: &ProcessTable, tt: &ThreadTable, root: u64) -> (r: u64)
    ensures
        r == chain_leaf(pt@, tt@, root, 64),
{
    let mut cur = root;
    let mut steps: u64 = 0;
    while steps < 64
        invariant
            steps <= 64,
            chain_leaf(pt@, tt@, root, 64) == chain_leaf(pt@, tt@, cur, (64 - steps) as nat),
        decreases 64 - steps,
    {
        let next = match find_index(pt, cur) {
            Some(i) => waits_on_exec(&pt.procs[i], tt),
            None => None,
        };
        match next {
            Some(n) => cur = n,
            None => {
                return cur;
            },
        }
        steps = steps + 1;
    }
    cur
}

/// A process the OOM killer may pick: live, killable, and not `exclude`.
pub open spec fn oom_eligible(p: ProcessView, exclude: u64) -> bool {
    p.pid != 0 && p.pid != exclude && !privileged(p.privilege) && proc_live(p.state)
}

/// The heaviest eligible process (pid and memory), the first of equals.
pub open spec fn oom_best(s: Seq<ProcessView>, exclude: u64) -> Option<(u64, u64)>
    decreases s.len(),
{
    if s.len() == 0 {
        None
    } else {
        let b = oom_best(s.drop_last(), exclude);
        let p = s.last();
        if oom_eligible(p, exclude) && (match b {
            Some(x) => p.memory_bytes > x.1,
            None => true,
        }) {
            Some((p.pid, p.memory_bytes))
        } else {
            b
        }
    }
}

/// Pick an out-of-memory victim: the eligible process using the most memory
/// (the first of equals).
pub fn oom_victim(pt: &ProcessTable, exclude: u64) -> (r: Option<u64>)
    ensures
        r == (match oom_best(pt@, exclude) {
            Some(x) => Some(x.0),
            None => None::<u64>,
        }),
{
    let mut best: Option<(u64, u64)> = None;
    let mut i: usize = 0;
    while i < pt.procs.len()
        invariant
            i <= pt@.len(),
            best == oom_best(pt@.subrange(0, i as int), exclude),
        decreases pt@.len() - i,
    {
        let p = &pt.procs[i];
        proof {
            assert(pt@.subrange(0, i + 1).drop_last() =~= pt@.subrange(0, i as int));
        }
        let eligible = p.pid != 0 && p.pid != exclude && !is_privileged(p.privilege) && !matches!(
            p.state,
            ProcessState::Empty | ProcessState::Exited
        );
        if eligible {
            let better = match best {
                Some(b) => p.memory_bytes > b.1,
                None => true,
            };
            if better {
                best = Some((p.pid, p.memory_bytes));
            }
        }
        i = i + 1;
    }
    proof {
        assert(pt@.subrange(0, pt@.len() as int) =~= pt@);
    }
    match best {
        Some(b) => Some(b.0),
        None => None,
    }
}

/// The OOM victim is an eligible process, and no eligible process uses more
/// memory than it; there is no victim only when no process is eligible.
pub proof fn law_oom_victim_heaviest(s: Seq<ProcessView>, exclude: u64)
    ensures
        match oom_best(s, exclude) {
            Some(x) => {
                &&& exists|i: int| 0 <= i < s.len() && s[i].pid == x.0 && s[i].memory_bytes == x.1 && oom_eligible(#[trigger] s[i], exclude)
                &&& forall|j: int| 0 <= j < s.len() && oom_eligible(#[trigger] s[j], exclude) ==> s[j].memory_bytes <= x.1
            },
            None => forall|j: int| 0 <= j < s.len() ==> !oom_eligible(#[trigger] s[j], exclude),
        },
    decreases s.len(),
{
    if s.len() > 0 {
        let t = s.drop_last();
        law_oom_victim_heaviest(t, exclude);
        let last = s.len() - 1;
        assert forall|j: int| 0 <= j < t.len() implies #[trigger] t[j] == s[j] by {
        }
        assert(s[last] == s.last());
        match oom_best(s, exclude) {
            Some(x) => {
                assert forall|j: int| 0 <= j < s.len() && oom_eligible(#[trigger] s[j], exclude) implies s[j].memory_bytes <= x.1 by {
                    if j < last {
                        assert(s[j] == t[j]);
                        assert(oom_eligible(t[j], exclude));
                    }
                }
                if x.0 == s[last].pid && x.1 == s[last].memory_bytes && oom_eligible(s[last], exclude) {
                } else {
                    let y = oom_best(t, exclude)->0;
                    let i = choose|i: int| 0 <= i < t.len() && t[i].pid == y.0 && t[i].memory_bytes == y.1 && oom_eligible(#[trigger] t[i], exclude);
                    assert(s[i] == t[i]);
                }
            },
            None => {
                assert forall|j: int| 0 <= j < s.len() implies !oom_eligible(#[trigger] s[j], exclude) by {
                    if j < last {
                        assert(s[j] == t[j]);
                    }
                }
            },
        }
    }
}


// ── enumeration and totals ──────────────────────────────────────────────────

/// Which processes an enumeration considers.
pub enum PFilter {
    /// Not Empty, with a pid above the given one.
    LiveAfter(u64),
    /// Ready or Running, with a pid above the given one.
    ActiveAfter(u64),
    /// Not Empty.
    NotEmpty,
    /// Ready, Running or Sleeping.
    Schedulable,
}

pub open spec fn pselects(f: PFilter, p: ProcessView) -> bool {
    match f {
        PFilter::LiveAfter(pid) => p.state != ProcessState::Empty && p.pid > pid,
        PFilter::ActiveAfter(pid) => (p.state == ProcessState::Ready || p.state == ProcessState::Running) && p.pid > pid,
        PFilter::NotEmpty => p.state != ProcessState::Empty,
        PFilter::Schedulable => proc_schedulable(p.state),
    }
}

fn pselects_exec(f: &PFilter, p: &Process) -> (r: bool)
    ensures
        r == pselects(*f, p@),
{
    match f {
        PFilter::LiveAfter(pid) => !matches!(p.state, ProcessState::Empty) && p.pid > *pid,
        PFilter::ActiveAfter(pid) => matches!(p.state, ProcessState::Ready | ProcessState::Running) && p.pid > *pid,
        PFilter::NotEmpty => !matches!(p.state, ProcessState::Empty),
        PFilter::Schedulable => matches!(p.state, ProcessState::Ready | ProcessState::Running | ProcessState::Sleeping),
    }
}

/// Smallest pid among the processes the filter selects, if any.
pub open spec fn min_pid(s: Seq<ProcessView>, f: PFilter) -> Option<u64>
    decreases s.len(),
{
    if s.len() == 0 {
        None
    } else {
        let rest = min_pid(s.drop_last(), f);
        if pselects(f, s.last()) {
            match rest {
                Some(m) => if s.last().pid < m { Some(s.last().pid) } else { Some(m) },
                None => Some(s.last().pid),
            }
        } else {
            rest
        }
    }
}

/// Number of processes the filter selects.
pub open spec fn count_procs(s: Seq<ProcessView>, f: PFilter) -> nat
    decreases s.len(),
{
    if s.len() == 0 {
        0
    } else {
        count_procs(s.drop_last(), f) + if pselects(f, s.last()) { 1nat } else { 0nat }
    }
}

fn min_selected(pt: &ProcessTable, f: PFilter) -> (r: Option<u64>)
    ensures
        r == min_pid(pt@, f),
{
    let mut best: Option<u64> = None;
    let mut i: usize = 0;
    while i < pt.procs.len()
        invariant
            i <= pt@.len(),
            best == min_pid(pt@.subrange(0, i as int), f),
        decreases pt@.len() - i,
    {
        proof {
            assert(pt@.subrange(0, i + 1).drop_last() =~= pt@.subrange(0, i as int));
        }
        let p = &pt.procs[i];
        if pselects_exec(&f, p) {
            best = match best {
                Some(m) => if p.pid < m { Some(p.pid) } else { Some(m) },
                None => Some(p.pid),
            };
        }
        i = i + 1;
    }
    assert(pt@.subrange(0, pt@.len() as int) =~= pt@);
    best
}

fn count_selected(pt: &ProcessTable, f: PFilter) -> (r: u64)
    ensures
        r == count_procs(pt@, f),
{
    let mut n: u64 = 0;
    let mut i: usize = 0;
    while i < pt.procs.len()
        invariant
            i <= pt@.len(),
            n == count_procs(pt@.subrange(0, i as int), f),
            n <= i,
        decreases pt@.len() - i,
    {
        proof {
            assert(pt@.subrange(0, i + 1).drop_last() =~= pt@.subrange(0, i as int));
        }
        if pselects_exec(&f, &pt.procs[i]) {
            n = n + 1;
        }
        i = i + 1;
    }
    assert(pt@.subrange(0, pt@.len() as int) =~= pt@);
    n
}

/// Smallest pid above `pid` of a Ready or Running process.
pub fn active_pid_after(pt: &ProcessTable, pid: u64) -> (r: Option<u64>)
    ensures
        r == min_pid(pt@, PFilter::ActiveAfter(pid)),
{
    min_selected(pt, PFilter::ActiveAfter(pid))
}

/// Smallest pid above `pid` of a process that is not Empty.
pub fn next_pid_after(pt: &ProcessTable, pid: u64) -> (r: Option<u64>)
    ensures
        r == min_pid(pt@, PFilter::LiveAfter(pid)),
{
    min_selected(pt, PFilter::LiveAfter(pid))
}

/// Number of processes that are not Empty.
pub fn count(pt: &ProcessTable) -> (r: u64)
    ensures
        r == count_procs(pt@, PFilter::NotEmpty),
{
    count_selected(pt, PFilter::NotEmpty)
}

/// Number of Ready, Running or Sleeping processes.
pub fn active_count(pt: &ProcessTable) -> (r: u64)
    ensures
        r == count_procs(pt@, PFilter::Schedulable),
{
    count_selected(pt, PFilter::Schedulable)
}

/// The pid of the first process (in table order) that is not Empty.
pub fn first_pid(pt: &ProcessTable) -> (r: Option<u64>)
    ensures
        match r {
            Some(pid) => exists|i: int|
                0 <= i < pt@.len() && pt@[i].pid == pid && #[trigger] pt@[i].state != ProcessState::Empty && forall|j: int|
                    0 <= j < i ==> #[trigger] pt@[j].state == ProcessState::Empty,
            None => forall|j: int| 0 <= j < pt@.len() ==> #[trigger] pt@[j].state == ProcessState::Empty,
        },
{
    let mut i: usize = 0;
    while i < pt.procs.len()
        invariant
            i <= pt@.len(),
            forall|j: int| 0 <= j < i ==> #[trigger] pt@[j].state == ProcessState::Empty,
        decreases pt@.len() - i,
    {
        if !matches!(pt.procs[i].state, ProcessState::Empty) {
            assert(pt@[i as int] == pt.procs@[i as int]@);
            assert(pt@[i as int].state != ProcessState::Empty);
            return Some(pt.procs[i].pid);
        }
        i = i + 1;
    }
    None
}

/// `a + b` modulo 2^64.
pub open spec fn wadd(a: u64, b: u64) -> u64 {
    if a + b > u64::MAX { (a + b - u64::MAX - 1) as u64 } else { (a + b) as u64 }
}

/// CPU ticks of the main thread of `p` (0 for the kernel, or without one).
pub open spec fn main_ticks(ts: Seq<Thread>, p: ProcessView) -> u64 {
    if p.pid == 0 {
        0
    } else {
        match p.main_tid {
            Some(tid) => match thread_of(ts, tid) {
                Some(t) => t.cpu_ticks,
                None => 0,
            },
            None => 0,
        }
    }
}

/// Sum (modulo 2^64) of the main-thread CPU ticks of all user-side processes.
pub open spec fn ticks_total(ps: Seq<ProcessView>, ts: Seq<Thread>) -> u64
    decreases ps.len(),
{
    if ps.len() == 0 {
        0
    } else {
        wadd(ticks_total(ps.drop_last(), ts), main_ticks(ts, ps.last()))
    }
}

/// Memory charged to `p` if it counts as user memory (not the kernel, not Empty).
pub open spec fn user_memory(p: ProcessView) -> u64 {
    if p.pid != 0 && p.state != ProcessState::Empty { p.memory_bytes } else { 0 }
}

/// Sum (modulo 2^64) of the memory charged to user-side processes.
pub open spec fn memory_total(ps: Seq<ProcessView>) -> u64
    decreases ps.len(),
{
    if ps.len() == 0 {
        0
    } else {
        wadd(memory_total(ps.drop_last()), user_memory(ps.last()))
    }
}

/// CPU ticks of all processes but the kernel (summed modulo 2^64).
pub fn total_cpu_ticks(pt: &ProcessTable, tt: &ThreadTable) -> (r: u64)
    ensures
        r == ticks_total(pt@, tt@),
{
    let mut sum: u64 = 0;
    let mut i: usize = 0;
    while i < pt.procs.len()
        invariant
            i <= pt@.len(),
            sum == ticks_total(pt@.subrange(0, i as int), tt@),
        decreases pt@.len() - i,
    {
        proof {
            assert(pt@.subrange(0, i + 1).drop_last() =~= pt@.subrange(0, i as int));
        }
        let p = &pt.procs[i];
        if p.pid != 0 {
            let ticks = match p.main_tid {
                Some(tid) => match thread::cpu_ticks(tt, tid) {
                    Some(t) => t,
                    None => 0,
                },
                None => 0,
            };
            sum = sum.wrapping_add(ticks);
        } else {
            sum = sum.wrapping_add(0);
        }
        i = i + 1;
    }
    assert(pt@.subrange(0, pt@.len() as int) =~= pt@);
    sum
}

/// The CPU time used by user-side processes; the same total.
pub fn user_cpu_ticks_total(pt: &ProcessTable, tt: &ThreadTable) -> (r: u64)
    ensures
        r == ticks_total(pt@, tt@),
{
    total_cpu_ticks(pt, tt)
}

/// Memory charged to all processes but the kernel and Empty records (summed
/// modulo 2^64).
pub fn user_memory_total(pt: &ProcessTable) -> (r: u64)
    ensures
        r == memory_total(pt@),
{
    let mut sum: u64 = 0;
    let mut i: usize = 0;
    while i < pt.procs.len()
        invariant
            i <= pt@.len(),
            sum == memory_total(pt@.subrange(0, i as int)),
        decreases pt@.len() - i,
    {
        proof {
            assert(pt@.subrange(0, i + 1).drop_last() =~= pt@.subrange(0, i as int));
        }
        let p = &pt.procs[i];
        let m = if p.pid != 0 && !matches!(p.state, ProcessState::Empty) { p.memory_bytes } else { 0 };
        sum = sum.wrapping_add(m);
        i = i + 1;
    }
    assert(pt@.subrange(0, pt@.len() as int) =~= pt@);
    sum
}

/// What `info` reports for process `p`: for the kernel, the physical memory in
/// use minus what user processes are charged (saturating) and its own tick
/// count; for others their own charge and main-thread ticks.
pub open spec fn info_of(
    i: ProcessInfo,
    p: ProcessView,
    ps: Seq<ProcessView>,
    ts: Seq<Thread>,
    pmm_used_bytes: u64,
    kernel_ticks: u64,
) -> bool {
    &&& i.pid == p.pid
    &&& i.state == p.state
    &&& i.image_name@ == p.image_name
    &&& i.start_tsc == p.start_tsc
    &&& i.entry == p.entry
    &&& i.stack_top == p.stack_top
    &&& i.step == p.step
    &&& i.cpu_ticks == (if p.pid == 0 { kernel_ticks } else { main_ticks(ts, p) })
    &&& i.memory_bytes == (if p.pid == 0 {
        if pmm_used_bytes < memory_total(ps) { 0 } else { (pmm_used_bytes - memory_total(ps)) as u64 }
    } else {
        p.memory_bytes
    })
}

/// A snapshot of the first process with id `pid` that is not Empty.
/// `pmm_used_bytes` is the physical memory in use and `kernel_ticks` the
/// kernel's own CPU ticks, which go into the kernel's entry.
pub fn info(pt: &ProcessTable, tt: &ThreadTable, pid: u64, pmm_used_bytes: u64, kernel_ticks: u64) -> (r: Option<ProcessInfo>)
    ensures
        match r {
            Some(i) => exists|k: int|
                0 <= k < pt@.len() && #[trigger] pt@[k].pid == pid && pt@[k].state != ProcessState::Empty && info_of(
                    i,
                    pt@[k],
                    pt@,
                    tt@,
                    pmm_used_bytes,
                    kernel_ticks,
                ),
            None => forall|k: int| 0 <= k < pt@.len() ==> !(#[trigger] pt@[k].pid == pid && pt@[k].state != ProcessState::Empty),
        },
{
    let mut k: usize = 0;
    while k < pt.procs.len()
        invariant
            k <= pt@.len(),
            forall|j: int| 0 <= j < k ==> !(#[trigger] pt@[j].pid == pid && pt@[j].state != ProcessState::Empty),
        decreases pt@.len() - k,
    {
        let p = &pt.procs[k];
        if p.pid == pid && !matches!(p.state, ProcessState::Empty) {
            let memory_bytes = if p.pid == 0 {
                pmm_used_bytes.saturating_sub(user_memory_total(pt))
            } else {
                p.memory_bytes
            };
            let cpu_ticks = if p.pid == 0 {
                kernel_ticks
            } else {
                match p.main_tid {
                    Some(tid) => match thread::cpu_ticks(tt, tid) {
                        Some(t) => t,
                        None => 0,
                    },
                    None => 0,
                }
            };
            let i = ProcessInfo {
                pid: p.pid,
                state: p.state,
                image_name: p.image_name,
                start_tsc: p.start_tsc,
                entry: p.entry,
                stack_top: p.stack_top,
                step: p.step,
                cpu_ticks,
                memory_bytes,
            };
            assert(info_of(i, pt@[k as int], pt@, tt@, pmm_used_bytes, kernel_ticks));
            return Some(i);
        }
        k = k + 1;
    }
    None
}

// ── a process's threads ─────────────────────────────────────────────────────

/// Record `tid` as one more thread of `pid`.
pub fn add_thread_to_process(pt: &mut ProcessTable, pid: u64, tid: u64)
    ensures
        final(pt)@ == update_proc(old(pt)@, pid, |p: ProcessView| ProcessView { threads: p.threads.push(tid), ..p }),
        same_pcounters(final(pt), old(pt)),
{
    proof {
        use_type_invariant(&*pt);
    }
    if let Some(i) = find_index(pt, pid) {
        let ghost s = pt@;
        let mut v: Vec<Process> = Vec::new();
        std::mem::swap(&mut v, &mut pt.procs);
        v[i].threads.push(tid);
        proof {
            assert(procs_view(v@) =~= s.update(i as int, ProcessView { threads: s[i as int].threads.push(tid), ..s[i as int] }));
            lemma_pids_kept(s, procs_view(v@), pt.next_pid);
        }
        pt.procs = v;
    }
}

/// `s` without the occurrences of `x`, in order.
pub open spec fn without_value(s: Seq<u64>, x: u64) -> Seq<u64>
    decreases s.len(),
{
    if s.len() == 0 {
        s
    } else if s.last() == x {
        without_value(s.drop_last(), x)
    } else {
        without_value(s.drop_last(), x).push(s.last())
    }
}

/// Forget `tid` as a thread of `pid`.
pub fn remove_thread_from_process(pt: &mut ProcessTable, pid: u64, tid: u64)
    ensures
        final(pt)@ == update_proc(old(pt)@, pid, |p: ProcessView| ProcessView { threads: without_value(p.threads, tid), ..p }),
        same_pcounters(final(pt), old(pt)),
{
    proof {
        use_type_invariant(&*pt);
    }
    if let Some(i) = find_index(pt, pid) {
        let ghost s = pt@;
        let ghost old_threads = s[i as int].threads;
        let mut kept: Vec<u64> = Vec::new();
        let mut k: usize = 0;
        while k < pt.procs[i].threads.len()
            invariant
                i < pt@.len(),
                pt@ == s,
                old_threads == pt.procs@[i as int].threads@,
                k <= old_threads.len(),
                kept@ == without_value(old_threads.subrange(0, k as int), tid),
            decreases old_threads.len() - k,
        {
            let t = pt.procs[i].threads[k];
            proof {
                assert(old_threads.subrange(0, k + 1).drop_last() =~= old_threads.subrange(0, k as int));
                assert(old_threads.subrange(0, k + 1).last() == t);
            }
            if t != tid {
                kept.push(t);
            }
            k = k + 1;
        }
        proof {
            assert(old_threads.subrange(0, old_threads.len() as int) =~= old_threads);
        }
        let mut v: Vec<Process> = Vec::new();
        std::mem::swap(&mut v, &mut pt.procs);
        v[i].threads = kept;
        proof {
            assert(procs_view(v@) =~= s.update(i as int, ProcessView { threads: without_value(old_threads, tid), ..s[i as int] }));
            lemma_pids_kept(s, procs_view(v@), pt.next_pid);
        }
        pt.procs = v;
    }
}


// ── laws ────────────────────────────────────────────────────────────────────

/// A kill request never touches the kernel (pid 0) or a privileged process.
pub proof fn law_kill_spares_privileged(ps: Seq<ProcessView>, ts: Seq<Thread>, pid: u64)
    requires
        match proc_of(ps, pid) {
            Some(p) => p.pid == 0 || privileged(p.privilege),
            None => true,
        },
    ensures
        killed_procs(ps, pid) == ps,
        killed_threads(ps, ts, pid) == ts,
{
}

/// Once a process is removed (as on exit) no record with its pid is left.
pub proof fn law_removed_process_gone(ps: Seq<ProcessView>, n: u64, pid: u64)
    requires
        pids_ok(ps, n),
    ensures
        find_pid(procs_without(ps, pid), pid) == -1,
        procs_without(ps, pid).len() == if find_pid(ps, pid) >= 0 { ps.len() - 1 } else { ps.len() as int },
{
    lemma_find_from(ps, pid, 0);
    let t = procs_without(ps, pid);
    let k = find_pid(ps, pid);
    if k >= 0 {
        assert forall|j: int| 0 <= j < t.len() implies #[trigger] t[j].pid != pid by {
            if j == k {
                assert(ps[k].pid != ps[ps.len() - 1].pid);
            } else {
                if j < k {
                } else {
                    assert(ps[k].pid != ps[j].pid);
                }
            }
        }
    }
    lemma_find_from(t, pid, 0);
}

/// A spawned process gets a pid no existing process has.
pub proof fn law_spawn_pid_fresh(ps: Seq<ProcessView>, n: u64)
    requires
        pids_ok(ps, n),
    ensures
        find_pid(ps, n) == -1,
{
    lemma_find_from(ps, n, 0);
}

/// A spawn that handed out a pid and a thread id leaves both tables
/// initialised with the next pid and tid one above them, so the next spawn
/// that succeeds gets larger ones: pids and tids keep increasing.
pub proof fn law_spawn_ids_increase(old_pt: &ProcessTable, old_tt: &ThreadTable, pt: &ProcessTable, tt: &ThreadTable, b: u64)
    requires
        spawn_counters(old_pt, old_tt, pt, tt, Some(b)),
        tid_after_init(old_tt) < u64::MAX,
        pid_after_init(old_pt) < u64::MAX,
    ensures
        pid_after_init(pt) == pid_after_init(old_pt) + 1,
        tid_after_init(tt) == tid_after_init(old_tt) + 1,
{
}

/// Making a process Ready, Running or Sleeping never revives one that is
/// Empty or Exited.
pub proof fn law_no_revival(ps: Seq<ProcessView>, pid: u64)
    ensures
        ({
            let ready = update_proc(
                ps,
                pid,
                |p: ProcessView| if proc_schedulable(p.state) { ProcessView { state: ProcessState::Ready, ..p } } else { p },
            );
            let sleeping = update_proc(
                ps,
                pid,
                |p: ProcessView| if proc_live(p.state) { ProcessView { state: ProcessState::Sleeping, ..p } } else { p },
            );
            let running = update_proc(
                ps,
                pid,
                |p: ProcessView| if proc_live(p.state) { ProcessView { state: ProcessState::Running, ..p } } else { p },
            );
            forall|j: int| 0 <= j < ps.len() && !proc_live(#[trigger] ps[j].state) ==> ready[j] == ps[j]
                && sleeping[j] == ps[j] && running[j] == ps[j]
        }),
{
    lemma_find_from(ps, pid, 0);
}

} // verus!
