//! The kernel's books of what it has mapped into user address spaces for
//! the memory syscalls: user heap pages, DMA buffers and PCI BAR windows.
//! Each kind has its own virtual-address region, handed out by a bump
//! pointer, and a table of the mappings made there, each owned by a process.
//! Page tables and frames are the kernel's business; this module decides the
//! addresses and keeps the table.
use vstd::prelude::*;

verus! {

/// Where user heap allocations are mapped.
pub const HEAP_VA_BASE: u64 = 0x0000_00C0_0000_0000;
/// Where DMA buffers are mapped for user-space drivers.
pub const DMA_VA_BASE: u64 = 0x0000_00A0_0000_0000;
/// Where PCI BARs are mapped for user-space drivers.
pub const PCI_MMIO_VA_BASE: u64 = 0x0000_00E0_0000_0000;
/// The largest heap or DMA request granted (128 MiB).
pub const MAX_USER_ALLOC: u64 = 134217728;
pub const PAGE_SIZE: u64 = 4096;

/// `n` rounded up to a whole number of pages.
pub open spec fn page_round(n: int) -> int {
    ((n + 4095) / 4096) * 4096
}

/// `size` rounded up to whole pages.
pub fn round_to_page(size: u64) -> (r: u64)
    requires
        size <= u64::MAX - 4095,
    ensures
        r == page_round(size as int),
{
    let s = size + 4095;
    assert(s & !4095u64 == (s / 4096) * 4096) by (bit_vector);
    s & !4095
}

/// The length a heap or DMA request of `size` bytes is granted: `None` for
/// nothing or more than `MAX_USER_ALLOC`, else `size` rounded up to pages.
pub fn user_alloc_len(size: u64) -> (r: Option<u64>)
    ensures
        r == (if size == 0 || size > MAX_USER_ALLOC { None } else { Some(page_round(size as int) as u64) }),
{
    if size == 0 || size > MAX_USER_ALLOC {
        return None;
    }
    Some(round_to_page(size))
}

/// One mapping made for a process.
#[derive(Clone, Copy, PartialEq, Eq, Structural, Debug)]
pub struct UserMapping {
    pub pid: u64,
    pub virt: u64,
    /// The physical base (DMA buffers; 0 where the kernel does not keep it).
    pub phys: u64,
    /// Bytes mapped, a whole number of pages.
    pub size: u64,
}

/// The mappings of one kind and the next free address of its region.
pub struct MapTable {
    next_va: u64,
    entries: Vec<UserMapping>,
}

pub struct MapTableView {
    pub next_va: u64,
    pub entries: Seq<UserMapping>,
}

impl View for MapTable {
    type V = MapTableView;

    closed spec fn view(&self) -> MapTableView {
        MapTableView { next_va: self.next_va, entries: self.entries@ }
    }
}

/// The ranges of `a` and `b` do not overlap.
pub open spec fn apart(a: UserMapping, b: UserMapping) -> bool {
    a.virt + a.size <= b.virt || b.virt + b.size <= a.virt
}

/// Every mapping is non-empty and lies below the next free address, and no
/// two overlap.
pub open spec fn table_wf(t: MapTableView) -> bool {
    &&& forall|i: int| 0 <= i < t.entries.len() ==> #[trigger] t.entries[i].size > 0
    &&& forall|i: int| 0 <= i < t.entries.len() ==> #[trigger] t.entries[i].virt + t.entries[i].size <= t.next_va
    &&& forall|i: int, j: int| 0 <= i < j < t.entries.len() ==> apart(#[trigger] t.entries[i], #[trigger] t.entries[j])
}

/// The mapping was made for `pid` at `virt`.
pub open spec fn owns(m: UserMapping, pid: u64, virt: u64) -> bool {
    m.pid == pid && m.virt == virt
}

/// `i` is the first entry of `s` made for `pid` at `virt`.
pub open spec fn first_owned(s: Seq<UserMapping>, pid: u64, virt: u64, i: int) -> bool {
    &&& 0 <= i < s.len()
    &&& owns(s[i], pid, virt)
    &&& forall|j: int| 0 <= j < i ==> !owns(#[trigger] s[j], pid, virt)
}

/// `i` is the first entry of `s` made for `pid`.
pub open spec fn first_of(s: Seq<UserMapping>, pid: u64, i: int) -> bool {
    &&& 0 <= i < s.len()
    &&& s[i].pid == pid
    &&& forall|j: int| 0 <= j < i ==> (#[trigger] s[j]).pid != pid
}

/// `s` with entry `i` taken out: the last entry moves into its place.
pub open spec fn swap_removed(s: Seq<UserMapping>, i: int) -> Seq<UserMapping> {
    s.update(i, s.last()).drop_last()
}

/// The table after a mapping of `size` bytes for `pid`.
pub open spec fn mapped(t: MapTableView, pid: u64, phys: u64, size: u64) -> MapTableView {
    MapTableView {
        next_va: (t.next_va + size) as u64,
        entries: t.entries.push(UserMapping { pid, virt: t.next_va, phys, size }),
    }
}

proof fn lemma_swap_removed_wf(t: MapTableView, i: int)
    requires
        table_wf(t),
        0 <= i < t.entries.len(),
    ensures
        table_wf(MapTableView { next_va: t.next_va, entries: swap_removed(t.entries, i) }),
{
    let s = t.entries;
    let r = swap_removed(s, i);
    let last = s.len() - 1;
    assert forall|a: int, b: int| 0 <= a < b < r.len() implies apart(#[trigger] r[a], #[trigger] r[b]) by {
        let ia = if a == i { last } else { a };
        let ib = if b == i { last } else { b };
        assert(r[a] == s[ia] && r[b] == s[ib]);
        assert(ia != ib);
        if ia < ib {
            assert(apart(s[ia], s[ib]));
        } else {
            assert(apart(s[ib], s[ia]));
        }
    }
    assert forall|a: int| 0 <= a < r.len() implies #[trigger] r[a].size > 0 && r[a].virt + r[a].size <= t.next_va by {
        let ia = if a == i { last } else { a };
        assert(r[a] == s[ia]);
    }
}

impl MapTable {
    /// An empty table whose region starts at `base`.
    pub fn new(base: u64) -> (t: MapTable)
        ensures
            t@.next_va == base,
            t@.entries == Seq::<UserMapping>::empty(),
            table_wf(t@),
    {
        MapTable { next_va: base, entries: Vec::new() }
    }

    /// The address the next mapping gets.
    pub fn next_va(&self) -> (v: u64)
        ensures
            v == self@.next_va,
    {
        self.next_va
    }

    pub fn len(&self) -> (n: usize)
        ensures
            n == self@.entries.len(),
    {
        self.entries.len()
    }

    pub fn entry(&self, i: usize) -> (m: UserMapping)
        requires
            i < self@.entries.len(),
        ensures
            m == self@.entries[i as int],
    {
        self.entries[i]
    }

    /// Hand out the next `size` bytes of the region to `pid` and record the
    /// mapping; returns its address. (Where the mapping then fails, the caller
    /// takes it back out; the addresses stay used.)
    pub fn map(&mut self, pid: u64, phys: u64, size: u64) -> (virt: u64)
        requires
            table_wf(old(self)@),
            size > 0,
            old(self)@.next_va + size <= u64::MAX,
        ensures
            virt == old(self)@.next_va,
            final(self)@ == mapped(old(self)@, pid, phys, size),
            table_wf(final(self)@),
    {
        let virt = self.next_va;
        self.next_va = self.next_va + size;
        self.entries.push(UserMapping { pid, virt, phys, size });
        let ghost t = self@;
        assert forall|i: int, j: int| 0 <= i < j < t.entries.len() implies apart(#[trigger] t.entries[i], #[trigger] t.entries[j]) by {
            if j == t.entries.len() - 1 {
                assert(t.entries[i] == old(self)@.entries[i]);
            } else {
                assert(t.entries[i] == old(self)@.entries[i]);
                assert(t.entries[j] == old(self)@.entries[j]);
            }
        }
        assert forall|i: int| 0 <= i < t.entries.len() implies #[trigger] t.entries[i].size > 0 && t.entries[i].virt
            + t.entries[i].size <= t.next_va by {
            if i < t.entries.len() - 1 {
                assert(t.entries[i] == old(self)@.entries[i]);
            }
        }
        virt
    }

    /// Take out the first mapping made for `pid` at `virt` (what a free of
    /// `virt` by `pid` releases); `None` when it has none there.
    pub fn take(&mut self, pid: u64, virt: u64) -> (r: Option<UserMapping>)
        requires
            table_wf(old(self)@),
        ensures
            table_wf(final(self)@),
            final(self)@.next_va == old(self)@.next_va,
            r is None <==> forall|i: int| 0 <= i < old(self)@.entries.len() ==> !owns(#[trigger] old(self)@.entries[i], pid, virt),
            r is None ==> final(self)@ == old(self)@,
            r matches Some(m) ==> exists|i: int|
                first_owned(old(self)@.entries, pid, virt, i) && m == old(self)@.entries[i] && final(self)@.entries
                    == swap_removed(old(self)@.entries, i),
    {
        let mut i: usize = 0;
        while i < self.entries.len()
            invariant
                i <= self.entries@.len(),
                self@ == old(self)@,
                table_wf(old(self)@),
                forall|j: int| 0 <= j < i ==> !owns(#[trigger] self.entries@[j], pid, virt),
            decreases self.entries@.len() - i,
        {
            let m = self.entries[i];
            if m.pid == pid && m.virt == virt {
                proof {
                    lemma_swap_removed_wf(self@, i as int);
                    assert(first_owned(self.entries@, pid, virt, i as int));
                }
                let got = self.entries.swap_remove(i);
                return Some(got);
            }
            i = i + 1;
        }
        None
    }

    /// Take out the first mapping `pid` still has (a process's mappings are
    /// taken out one by one when it exits); `None` when it has none.
    pub fn take_any(&mut self, pid: u64) -> (r: Option<UserMapping>)
        requires
            table_wf(old(self)@),
        ensures
            table_wf(final(self)@),
            final(self)@.next_va == old(self)@.next_va,
            r is None <==> forall|i: int| 0 <= i < old(self)@.entries.len() ==> (#[trigger] old(self)@.entries[i]).pid != pid,
            r is None ==> final(self)@ == old(self)@,
            r matches Some(m) ==> exists|i: int|
                first_of(old(self)@.entries, pid, i) && m == old(self)@.entries[i] && final(self)@.entries == swap_removed(
                    old(self)@.entries,
                    i,
                ),
    {
        let mut i: usize = 0;
        while i < self.entries.len()
            invariant
                i <= self.entries@.len(),
                self@ == old(self)@,
                table_wf(old(self)@),
                forall|j: int| 0 <= j < i ==> (#[trigger] self.entries@[j]).pid != pid,
            decreases self.entries@.len() - i,
        {
            if self.entries[i].pid == pid {
                proof {
                    lemma_swap_removed_wf(self@, i as int);
                    assert(first_of(self.entries@, pid, i as int));
                }
                let got = self.entries.swap_remove(i);
                return Some(got);
            }
            i = i + 1;
        }
        None
    }
}

/// No two mappings of a well-formed table overlap, and each lies in the part
/// of the region already handed out.
pub proof fn law_mappings_disjoint(t: MapTableView, i: int, j: int)
    requires
        table_wf(t),
        0 <= i < t.entries.len(),
        0 <= j < t.entries.len(),
        i != j,
    ensures
        apart(t.entries[i], t.entries[j]),
        t.entries[i].virt + t.entries[i].size <= t.next_va,
{
    if i < j {
        assert(apart(t.entries[i], t.entries[j]));
    } else {
        assert(apart(t.entries[j], t.entries[i]));
    }
}

/// Freeing what was just mapped gives back exactly that mapping: in the
/// table after `map`, the first entry owned by `pid` at the address `map`
/// returned is the new one.
pub proof fn law_take_after_map(t: MapTableView, pid: u64, phys: u64, size: u64)
    requires
        table_wf(t),
        size > 0,
        t.next_va + size <= u64::MAX,
    ensures
        first_owned(mapped(t, pid, phys, size).entries, pid, t.next_va, t.entries.len() as int),
        forall|i: int| #[trigger] first_owned(mapped(t, pid, phys, size).entries, pid, t.next_va, i) ==> i == t.entries.len(),
        mapped(t, pid, phys, size).entries[t.entries.len() as int] == (UserMapping { pid, virt: t.next_va, phys, size }),
{
    let s = mapped(t, pid, phys, size).entries;
    assert forall|j: int| 0 <= j < t.entries.len() implies !owns(#[trigger] s[j], pid, t.next_va) by {
        assert(s[j] == t.entries[j]);
        assert(t.entries[j].size > 0);
    }
}

/// A free by one process never releases another's mapping: every mapping
/// of another process is still in the table after `pid` takes one out.
pub proof fn law_take_spares_others(s: Seq<UserMapping>, i: int, pid: u64, k: int)
    requires
        0 <= i < s.len(),
        s[i].pid == pid,
        0 <= k < s.len(),
        s[k].pid != pid,
    ensures
        swap_removed(s, i).contains(s[k]),
{
    let r = swap_removed(s, i);
    if k == s.len() - 1 {
        assert(r[i] == s[k]);
    } else {
        assert(r[k] == s[k]);
    }
}

/// Which BAR a BAR-map request names: the bus, device and function packed in
/// the low three bytes of `bdf` (bus highest) and the BAR number in the low
/// byte of `bar_index`; `None` past BAR 5.
pub fn pci_bar_target(bdf: u64, bar_index: u64) -> (r: Option<(u8, u8, u8, u8)>)
    ensures
        r == (if bar_index % 256 > 5 {
            None
        } else {
            Some((((bdf / 65536) % 256) as u8, ((bdf / 256) % 256) as u8, (bdf % 256) as u8, (bar_index % 256) as u8))
        }),
{
    let bar = (bar_index & 0xFF) as u8;
    assert(bar_index & 0xFF == bar_index % 256) by (bit_vector);
    if bar > 5 {
        return None;
    }
    let bus = ((bdf >> 16) & 0xFF) as u8;
    let dev = ((bdf >> 8) & 0xFF) as u8;
    let func = (bdf & 0xFF) as u8;
    assert((bdf >> 16) & 0xFF == (bdf / 65536) % 256) by (bit_vector);
    assert((bdf >> 8) & 0xFF == (bdf / 256) % 256) by (bit_vector);
    assert(bdf & 0xFF == bdf % 256) by (bit_vector);
    Some((bus, dev, func, bar))
}

} // verus!
