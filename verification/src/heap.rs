//! The user runtime's memory allocator: an address-ordered free list of
//! blocks that coalesces on free, first-fit allocation that splits off the
//! rest of a block, and bookkeeping of the arenas obtained from the kernel
//! so that an arena that is entirely free again is handed back. The program
//! asks the kernel for arenas, gives them back, and writes the block header
//! in front of each allocation; the list itself is kept here.
use vstd::prelude::*;

verus! {

/// Bytes asked of the kernel when the free list runs dry.
pub const ARENA_SIZE: usize = 131072;
/// Arenas tracked for handing back.
pub const MAX_ARENAS: usize = 1024;
/// The smallest remainder kept as a free block (a list node's size).
pub const NODE_SIZE: usize = 16;
/// The header in front of each allocation: its block's address and size.
pub const HEADER_SIZE: usize = 16;
/// The alignment of list nodes and headers.
pub const WORD: usize = 8;
/// Arenas are whole pages.
pub const PAGE: usize = 4096;

/// A free block: address and size.
pub type Block = (usize, usize);

pub open spec fn block_end(b: Block) -> int {
    b.0 + b.1
}

/// Free blocks are non-empty, in address order, and neither overlap nor
/// touch (touching blocks are merged).
pub open spec fn free_wf(f: Seq<Block>) -> bool {
    &&& forall|i: int| 0 <= i < f.len() ==> (#[trigger] f[i]).1 >= 1 && block_end(f[i]) <= usize::MAX
    &&& forall|i: int, j: int| 0 <= i < j < f.len() ==> block_end(#[trigger] f[i]) < (#[trigger] f[j]).0
}

/// Byte `x` lies in a free block.
pub open spec fn covers(f: Seq<Block>, x: int) -> bool {
    exists|k: int| 0 <= k < f.len() && (#[trigger] f[k]).0 <= x < block_end(f[k])
}

/// The range `[a, a + s)` shares no byte with the free blocks.
pub open spec fn apart(f: Seq<Block>, a: int, s: int) -> bool {
    forall|k: int| 0 <= k < f.len() ==> block_end(#[trigger] f[k]) <= a || a + s <= f[k].0
}

/// The first block at or after address `a`.
pub open spec fn insert_pos(f: Seq<Block>, a: int) -> int
    decreases f.len(),
{
    if f.len() == 0 {
        0
    } else if f[0].0 >= a {
        0
    } else {
        1 + insert_pos(f.drop_first(), a)
    }
}

/// The free list after freeing `[a, a + s)`: the block goes in address
/// order, merged with the next block and with the previous one where they
/// touch.
pub open spec fn inserted(f: Seq<Block>, a: usize, s: usize) -> Seq<Block> {
    let i = insert_pos(f, a as int);
    let merge_next = i < f.len() && a + s == f[i].0;
    let size = if merge_next { s + f[i].1 } else { s as int };
    let rest = if merge_next { f.subrange(i + 1, f.len() as int) } else { f.subrange(i, f.len() as int) };
    if i > 0 && block_end(f[i - 1]) == a {
        f.take(i - 1).push((f[i - 1].0, (f[i - 1].1 + size) as usize)) + rest
    } else {
        f.take(i).push((a, size as usize)) + rest
    }
}

pub proof fn lemma_insert_pos(f: Seq<Block>, a: int)
    requires
        free_wf(f),
    ensures
        0 <= insert_pos(f, a) <= f.len(),
        forall|k: int| 0 <= k < insert_pos(f, a) ==> (#[trigger] f[k]).0 < a,
        forall|k: int| insert_pos(f, a) <= k < f.len() ==> (#[trigger] f[k]).0 >= a,
    decreases f.len(),
{
    if f.len() > 0 {
        let t = f.drop_first();
        assert(free_wf(t)) by {
            assert forall|i: int| 0 <= i < t.len() implies (#[trigger] t[i]).1 >= 1 && block_end(t[i]) <= usize::MAX by {
                assert(t[i] == f[i + 1]);
            }
            assert forall|i: int, j: int| 0 <= i < j < t.len() implies block_end(#[trigger] t[i]) < (#[trigger] t[j]).0 by {
                assert(t[i] == f[i + 1]);
                assert(t[j] == f[j + 1]);
            }
        }
        lemma_insert_pos(t, a);
        if f[0].0 >= a {
            assert forall|k: int| 0 <= k < f.len() implies (#[trigger] f[k]).0 >= a by {
                if k > 0 {
                    assert(block_end(f[0]) < f[k].0);
                }
            }
        } else {
            assert forall|k: int| 0 <= k < insert_pos(f, a) implies (#[trigger] f[k]).0 < a by {
                if k > 0 {
                    assert(f[k] == t[k - 1]);
                }
            }
            assert forall|k: int| insert_pos(f, a) <= k < f.len() implies (#[trigger] f[k]).0 >= a by {
                assert(f[k] == t[k - 1]);
            }
        }
    }
}

/// `v` rounded up to a multiple of `a`.
pub open spec fn round_up(v: int, a: int) -> int {
    ((v + a - 1) / a) * a
}

pub fn align_up(v: usize, a: usize) -> (r: usize)
    requires
        a >= 1,
        v + a - 1 <= usize::MAX,
    ensures
        r == round_up(v as int, a as int),
        v <= r,
{
    let q = (v + (a - 1)) / a;
    assert(q * a <= v + a - 1 && v <= q * a) by (nonlinear_arith)
        requires
            q == (v + a - 1) / (a as int),
            a >= 1,
    ;
    q * a
}


/// The first free block of at least `need` bytes, or -1.
pub open spec fn fit_index(f: Seq<Block>, need: usize) -> int
    decreases f.len(),
{
    if f.len() == 0 {
        -1
    } else if f[0].1 >= need {
        0
    } else if fit_index(f.drop_first(), need) < 0 {
        -1
    } else {
        fit_index(f.drop_first(), need) + 1
    }
}

pub proof fn lemma_fit_index(f: Seq<Block>, need: usize)
    ensures
        -1 <= fit_index(f, need) < f.len(),
        fit_index(f, need) >= 0 ==> f[fit_index(f, need)].1 >= need,
        forall|j: int| 0 <= j < f.len() && (fit_index(f, need) < 0 || j < fit_index(f, need)) ==> (#[trigger] f[j]).1 < need,
    decreases f.len(),
{
    if f.len() > 0 && f[0].1 < need {
        lemma_fit_index(f.drop_first(), need);
        assert forall|j: int| 0 <= j < f.len() && (fit_index(f, need) < 0 || j < fit_index(f, need)) implies (#[trigger] f[j]).1 < need by {
            if j > 0 {
                assert(f[j] == f.drop_first()[j - 1]);
            }
        }
    }
}

/// The free list after taking `need` bytes first-fit, and the block handed
/// out (address and size): the front of the first block that is large
/// enough, or all of it when what would be left is too small to keep.
pub open spec fn taken(f: Seq<Block>, need: usize) -> (Seq<Block>, Option<Block>) {
    let k = fit_index(f, need);
    if k < 0 {
        (f, None)
    } else {
        let b = f[k];
        if b.1 - need >= NODE_SIZE {
            (f.update(k, ((b.0 + need) as usize, (b.1 - need) as usize)), Some((b.0, need)))
        } else {
            (f.remove(k), Some(b))
        }
    }
}

/// An allocation: the address handed to the program, and the block it lives
/// in (recorded in the header just before it).
#[derive(Clone, Copy, PartialEq, Eq, Structural, Debug)]
pub struct Grant {
    pub user: usize,
    pub block_addr: usize,
    pub block_size: usize,
}

/// The first free block equal to `b`, or -1.
pub open spec fn block_at(f: Seq<Block>, b: Block) -> int
    decreases f.len(),
{
    if f.len() == 0 {
        -1
    } else if f[0] == b {
        0
    } else if block_at(f.drop_first(), b) < 0 {
        -1
    } else {
        block_at(f.drop_first(), b) + 1
    }
}

pub proof fn lemma_block_at(f: Seq<Block>, b: Block)
    ensures
        -1 <= block_at(f, b) < f.len(),
        block_at(f, b) >= 0 ==> f[block_at(f, b)] == b,
        forall|j: int| 0 <= j < f.len() && (block_at(f, b) < 0 || j < block_at(f, b)) ==> (#[trigger] f[j]) != b,
    decreases f.len(),
{
    if f.len() > 0 && f[0] != b {
        lemma_block_at(f.drop_first(), b);
        assert forall|j: int| 0 <= j < f.len() && (block_at(f, b) < 0 || j < block_at(f, b)) implies (#[trigger] f[j]) != b by {
            if j > 0 {
                assert(f[j] == f.drop_first()[j - 1]);
            }
        }
    }
}

/// The free list, the arena slots and the arenas handed back after looking
/// at the first `n` slots: an arena that is one whole free block leaves the
/// list and its slot is cleared.
pub open spec fn released(f: Seq<Block>, ar: Seq<Block>, n: nat) -> (Seq<Block>, Seq<Block>, Seq<usize>)
    decreases n,
{
    if n == 0 {
        (f, ar, Seq::empty())
    } else {
        let prev = released(f, ar, (n - 1) as nat);
        let slot = ar[n - 1];
        if slot.0 == 0 {
            prev
        } else {
            let k = block_at(prev.0, slot);
            if k >= 0 {
                (prev.0.remove(k), prev.1.update(n - 1, (0usize, 0usize)), prev.2.push(slot.0))
            } else {
                prev
            }
        }
    }
}

/// The first unused arena slot, or -1.
pub open spec fn free_slot(ar: Seq<Block>) -> int
    decreases ar.len(),
{
    if ar.len() == 0 {
        -1
    } else if ar[0].0 == 0 {
        0
    } else if free_slot(ar.drop_first()) < 0 {
        -1
    } else {
        free_slot(ar.drop_first()) + 1
    }
}

pub proof fn lemma_free_slot(ar: Seq<Block>)
    ensures
        -1 <= free_slot(ar) < ar.len(),
        free_slot(ar) >= 0 ==> ar[free_slot(ar)].0 == 0,
        forall|j: int| 0 <= j < ar.len() && (free_slot(ar) < 0 || j < free_slot(ar)) ==> (#[trigger] ar[j]).0 != 0,
    decreases ar.len(),
{
    if ar.len() > 0 && ar[0].0 != 0 {
        lemma_free_slot(ar.drop_first());
        assert forall|j: int| 0 <= j < ar.len() && (free_slot(ar) < 0 || j < free_slot(ar)) implies (#[trigger] ar[j]).0 != 0 by {
            if j > 0 {
                assert(ar[j] == ar.drop_first()[j - 1]);
            }
        }
    }
}

/// Removing a block keeps the list well formed.
pub proof fn lemma_remove_wf(f: Seq<Block>, k: int)
    requires
        free_wf(f),
        0 <= k < f.len(),
    ensures
        free_wf(f.remove(k)),
{
    let r = f.remove(k);
    assert forall|i: int| 0 <= i < r.len() implies (#[trigger] r[i]).1 >= 1 && block_end(r[i]) <= usize::MAX by {
        if i < k { assert(r[i] == f[i]); } else { assert(r[i] == f[i + 1]); }
    }
    assert forall|i: int, j: int| 0 <= i < j < r.len() implies block_end(#[trigger] r[i]) < (#[trigger] r[j]).0 by {
        let oi = if i < k { i } else { i + 1 };
        let oj = if j < k { j } else { j + 1 };
        assert(r[i] == f[oi]);
        assert(r[j] == f[oj]);
    }
}

pub proof fn lemma_released_wf(f: Seq<Block>, ar: Seq<Block>, n: nat)
    requires
        free_wf(f),
        n <= ar.len(),
    ensures
        free_wf(released(f, ar, n).0),
        released(f, ar, n).1.len() == ar.len(),
        forall|j: int| n <= j < ar.len() ==> #[trigger] released(f, ar, n).1[j] == ar[j],
    decreases n,
{
    if n > 0 {
        lemma_released_wf(f, ar, (n - 1) as nat);
        let prev = released(f, ar, (n - 1) as nat);
        lemma_block_at(prev.0, ar[n - 1]);
        if ar[n - 1].0 != 0 && block_at(prev.0, ar[n - 1]) >= 0 {
            lemma_remove_wf(prev.0, block_at(prev.0, ar[n - 1]));
        }
    }
}


/// The block an allocation of `size` bytes aligned to `align` asks for:
/// room for the header, the data and the worst-case alignment gap, in whole
/// words; and the alignment used (at least a word).
pub open spec fn alloc_need(size: usize, align: usize) -> (usize, usize) {
    let al = if align >= WORD { align } else { WORD };
    (round_up(HEADER_SIZE + size + al, WORD as int) as usize, al)
}

pub fn alloc_request(size: usize, align: usize) -> (r: (usize, usize))
    requires
        size + align + HEADER_SIZE + 2 * WORD <= usize::MAX,
    ensures
        r == alloc_need(size, align),
        r.1 >= WORD,
        HEADER_SIZE + size + r.1 <= r.0,
{
    let al = if align >= WORD { align } else { WORD };
    (align_up(HEADER_SIZE + size + al, WORD), al)
}

/// The arena to ask the kernel for when `min` bytes are needed: at least
/// the usual arena size, in whole pages.
pub open spec fn arena_want(min: usize) -> usize {
    round_up(if min > ARENA_SIZE { min as int } else { ARENA_SIZE as int }, PAGE as int) as usize
}

pub fn grow_size(min: usize) -> (w: usize)
    requires
        min + PAGE <= usize::MAX,
    ensures
        w == arena_want(min),
        w >= min,
{
    align_up(if min > ARENA_SIZE { min } else { ARENA_SIZE }, PAGE)
}

/// An allocation lies inside its block, after the header, at an aligned
/// address: for a block of `alloc_need(size, align)` bytes or more at
/// `addr`, the address handed out leaves room for the header before it and
/// for `size` bytes after it.
pub proof fn law_grant_fits(addr: usize, kept: usize, size: usize, align: usize)
    requires
        size + align + HEADER_SIZE + 2 * WORD <= usize::MAX,
        kept >= alloc_need(size, align).0,
        addr + kept <= usize::MAX,
    ensures
        ({
            let al = alloc_need(size, align).1;
            let user = round_up(addr + HEADER_SIZE, al as int);
            &&& addr + HEADER_SIZE <= user
            &&& user + size <= addr + kept
            &&& user % (al as int) == 0
        }),
{
    let al = alloc_need(size, align).1 as int;
    let v = addr + HEADER_SIZE;
    let q = (v + al - 1) / al;
    assert(v <= q * al && q * al <= v + al - 1 && (q * al) % al == 0) by (nonlinear_arith)
        requires
            q == (v + al - 1) / al,
            al >= 1,
    ;
    let need = alloc_need(size, align).0 as int;
    let w = HEADER_SIZE + size + al;
    assert(w <= round_up(w, WORD as int)) by (nonlinear_arith)
        requires
            w >= 0,
    ;
}

/// The allocator's state.
pub struct Heap {
    free: Vec<Block>,
    arenas: Vec<Block>,
}

pub struct HeapView {
    /// The free blocks, by address.
    pub free: Seq<Block>,
    /// The arenas obtained from the kernel; `(0, 0)` marks an unused slot.
    pub arenas: Seq<Block>,
}

impl View for Heap {
    type V = HeapView;

    closed spec fn view(&self) -> HeapView {
        HeapView { free: self.free@, arenas: self.arenas@ }
    }
}

pub open spec fn heap_wf(h: HeapView) -> bool {
    &&& free_wf(h.free)
    &&& h.arenas.len() == MAX_ARENAS
}

impl Heap {
    /// No free blocks and no arenas.
    pub fn new() -> (h: Heap)
        ensures
            heap_wf(h@),
            h@.free.len() == 0,
            h@.arenas == Seq::new(MAX_ARENAS as nat, |i: int| (0usize, 0usize)),
    {
        let mut arenas: Vec<Block> = Vec::new();
        let mut i: usize = 0;
        while i < MAX_ARENAS
            invariant
                i <= MAX_ARENAS,
                arenas@ == Seq::new(i as nat, |k: int| (0usize, 0usize)),
            decreases MAX_ARENAS - i,
        {
            arenas.push((0, 0));
            i = i + 1;
            assert(arenas@ =~= Seq::new(i as nat, |k: int| (0usize, 0usize)));
        }
        Heap { free: Vec::new(), arenas }
    }

    pub fn free_blocks(&self) -> (f: &Vec<Block>)
        ensures
            f@ == self@.free,
    {
        &self.free
    }

    /// Take `need` bytes first-fit for an allocation whose header of `header`
    /// bytes goes just before an address aligned to `align`.
    pub fn take(&mut self, need: usize, header: usize, align: usize) -> (g: Option<Grant>)
        requires
            heap_wf(old(self)@),
            align >= 1,
            header + align <= need,
        ensures
            heap_wf(final(self)@),
            final(self)@ == (HeapView { free: taken(old(self)@.free, need).0, ..old(self)@ }),
            match g {
                Some(g) => taken(old(self)@.free, need).1 == Some((g.block_addr, g.block_size))
                    && g.user == round_up(g.block_addr + header, align as int),
                None => taken(old(self)@.free, need).1 is None,
            },
    {
        let ghost f = self.free@;
        let ghost h0 = self@;
        proof {
            lemma_fit_index(f, need);
        }
        let mut k: usize = 0;
        while k < self.free.len()
            invariant
                h0 == old(self)@,
                self@ == h0,
                f == h0.free,
                heap_wf(h0),
                header + align <= need,
                align >= 1,
                f == self.free@,
                free_wf(f),
                k <= f.len(),
                -1 <= fit_index(f, need) < f.len(),
                fit_index(f, need) >= 0 ==> f[fit_index(f, need)].1 >= need,
                forall|j: int| 0 <= j < f.len() && (fit_index(f, need) < 0 || j < fit_index(f, need)) ==> (#[trigger] f[j]).1 < need,
                forall|j: int| 0 <= j < k ==> (#[trigger] f[j]).1 < need,
            decreases f.len() - k,
        {
            let b = self.free[k];
            if b.1 >= need {
                assert(fit_index(f, need) == k as int);
                let kept = if b.1 - need >= NODE_SIZE {
                    self.free.set(k, (b.0 + need, b.1 - need));
                    proof {
                        let r = self.free@;
                        assert forall|i: int| 0 <= i < r.len() implies (#[trigger] r[i]).1 >= 1 && block_end(r[i]) <= usize::MAX by {
                            if i != k { assert(r[i] == f[i]); }
                        }
                        assert forall|i: int, j: int| 0 <= i < j < r.len() implies block_end(#[trigger] r[i]) < (#[trigger] r[j]).0 by {
                            if i != k && j != k { assert(r[i] == f[i] && r[j] == f[j]); }
                            else if i == k { assert(r[j] == f[j]); assert(block_end(f[k as int]) < f[j].0); }
                            else { assert(r[i] == f[i]); assert(block_end(f[i]) < f[k as int].0); }
                        }
                    }
                    need
                } else {
                    self.free.remove(k);
                    proof {
                        lemma_remove_wf(f, k as int);
                    }
                    b.1
                };
                assert(block_end(f[k as int]) <= usize::MAX);
                assert(b.0 + header + align - 1 <= usize::MAX);
                let user = align_up(b.0 + header, align);
                return Some(Grant { user, block_addr: b.0, block_size: kept });
            }
            k = k + 1;
        }
        None
    }

    /// Record the arena `[p, p + want)` just obtained from the kernel (in
    /// the first unused slot, if any) and add it to the free memory.
    pub fn add_arena(&mut self, p: usize, want: usize)
        requires
            heap_wf(old(self)@),
            p != 0,
            want >= 1,
            p + want <= usize::MAX,
            apart(old(self)@.free, p as int, want as int),
        ensures
            heap_wf(final(self)@),
            final(self)@ == (HeapView {
                free: inserted(old(self)@.free, p, want),
                arenas: if free_slot(old(self)@.arenas) >= 0 {
                    old(self)@.arenas.update(free_slot(old(self)@.arenas), (p, want))
                } else {
                    old(self)@.arenas
                },
            }),
    {
        let ghost ar = self.arenas@;
        proof {
            lemma_free_slot(ar);
        }
        let mut j: usize = 0;
        while j < self.arenas.len()
            invariant
                ar == self.arenas@,
                ar.len() == MAX_ARENAS,
                j <= ar.len(),
                -1 <= free_slot(ar) < ar.len(),
                free_slot(ar) >= 0 ==> ar[free_slot(ar)].0 == 0,
                forall|i: int| 0 <= i < ar.len() && (free_slot(ar) < 0 || i < free_slot(ar)) ==> (#[trigger] ar[i]).0 != 0,
                forall|i: int| 0 <= i < j ==> (#[trigger] ar[i]).0 != 0,
            ensures
                ar == self.arenas@,
                j <= ar.len(),
                j < ar.len() ==> free_slot(ar) == j as int,
                j == ar.len() ==> free_slot(ar) < 0,
            decreases ar.len() - j,
        {
            if self.arenas[j].0 == 0 {
                break;
            }
            j = j + 1;
        }
        if j < self.arenas.len() {
            self.arenas.set(j, (p, want));
        }
        self.insert(p, want);
    }

    /// Hand back every arena that is one whole free block again: it leaves
    /// the free list, its slot is cleared, and its address is returned for
    /// the program to give back to the kernel.
    pub fn release_empty_arenas(&mut self) -> (out: Vec<usize>)
        requires
            heap_wf(old(self)@),
        ensures
            heap_wf(final(self)@),
            ({
                let r = released(old(self)@.free, old(self)@.arenas, MAX_ARENAS as nat);
                &&& final(self)@ == (HeapView { free: r.0, arenas: r.1 })
                &&& out@ == r.2
            }),
    {
        let ghost f0 = self.free@;
        let ghost ar0 = self.arenas@;
        let mut out: Vec<usize> = Vec::new();
        let mut j: usize = 0;
        while j < MAX_ARENAS
            invariant
                ar0.len() == MAX_ARENAS,
                free_wf(f0),
                j <= MAX_ARENAS,
                ({
                    let r = released(f0, ar0, j as nat);
                    &&& self.free@ == r.0
                    &&& self.arenas@ == r.1
                    &&& out@ == r.2
                }),
            decreases MAX_ARENAS - j,
        {
            proof {
                lemma_released_wf(f0, ar0, j as nat);
            }
            let slot = self.arenas[j];
            assert(slot == ar0[j as int]);
            if slot.0 != 0 {
                let ghost f = self.free@;
                proof {
                    lemma_block_at(f, slot);
                }
                let mut k: usize = 0;
                while k < self.free.len()
                    invariant
                        f == self.free@,
                        k <= f.len(),
                        -1 <= block_at(f, slot) < f.len(),
                        block_at(f, slot) >= 0 ==> f[block_at(f, slot)] == slot,
                        forall|i: int| 0 <= i < f.len() && (block_at(f, slot) < 0 || i < block_at(f, slot)) ==> (#[trigger] f[i]) != slot,
                        forall|i: int| 0 <= i < k ==> (#[trigger] f[i]) != slot,
                    ensures
                        f == self.free@,
                        k <= f.len(),
                        k < f.len() ==> block_at(f, slot) == k as int,
                        k == f.len() ==> block_at(f, slot) < 0,
                    decreases f.len() - k,
                {
                    if self.free[k].0 == slot.0 && self.free[k].1 == slot.1 {
                        break;
                    }
                    k = k + 1;
                }
                if k < self.free.len() {
                    self.free.remove(k);
                    out.push(slot.0);
                    self.arenas.set(j, (0, 0));
                }
            }
            j = j + 1;
        }
        proof {
            lemma_released_wf(f0, ar0, MAX_ARENAS as nat);
        }
        out
    }

    /// Free the block `[addr, addr + size)` recorded in an allocation's
    /// header, then hand back whatever arenas became entirely free.
    pub fn dealloc(&mut self, addr: usize, size: usize) -> (out: Vec<usize>)
        requires
            heap_wf(old(self)@),
            size >= 1,
            addr + size <= usize::MAX,
            apart(old(self)@.free, addr as int, size as int),
        ensures
            heap_wf(final(self)@),
            ({
                let r = released(inserted(old(self)@.free, addr, size), old(self)@.arenas, MAX_ARENAS as nat);
                &&& final(self)@ == (HeapView { free: r.0, arenas: r.1 })
                &&& out@ == r.2
            }),
    {
        self.insert(addr, size);
        self.release_empty_arenas()
    }

    /// Free `[a, a + s)`: put it in address order and merge it with the
    /// blocks it touches.
    pub fn insert(&mut self, a: usize, s: usize)
        requires
            heap_wf(old(self)@),
            s >= 1,
            a + s <= usize::MAX,
            apart(old(self)@.free, a as int, s as int),
        ensures
            heap_wf(final(self)@),
            final(self)@ == (HeapView { free: inserted(old(self)@.free, a, s), ..old(self)@ }),
    {
        let ghost f = self.free@;
        proof {
            lemma_insert_pos(f, a as int);
        }
        let mut i: usize = 0;
        while i < self.free.len() && self.free[i].0 < a
            invariant
                f == self.free@,
                i <= f.len(),
                i <= insert_pos(f, a as int),
                0 <= insert_pos(f, a as int) <= f.len(),
                forall|k: int| insert_pos(f, a as int) <= k < f.len() ==> (#[trigger] f[k]).0 >= a,
            decreases f.len() - i,
        {
            i = i + 1;
        }
        assert(i == insert_pos(f, a as int));
        let merge_next = i < self.free.len() && a + s == self.free[i].0;
        let size = if merge_next { s + self.free[i].1 } else { s };
        let merge_prev = i > 0 && self.free[i - 1].0 + self.free[i - 1].1 == a;
        let mut out: Vec<Block> = Vec::new();
        let start = if merge_prev { i - 1 } else { i };
        let mut k: usize = 0;
        while k < start
            invariant
                f == self.free@,
                start <= f.len(),
                k <= start,
                out@ == f.take(k as int),
            decreases start - k,
        {
            out.push(self.free[k]);
            k = k + 1;
            assert(out@ =~= f.take(k as int));
        }
        if merge_prev {
            let p = self.free[i - 1];
            out.push((p.0, p.1 + size));
        } else {
            out.push((a, size));
        }
        let ghost head = out@;
        let mut k: usize = if merge_next { i + 1 } else { i };
        let ghost from = k as int;
        while k < self.free.len()
            invariant
                f == self.free@,
                0 <= from <= k <= f.len(),
                out@ == head + f.subrange(from, k as int),
            decreases f.len() - k,
        {
            out.push(self.free[k]);
            k = k + 1;
            assert(out@ =~= head + f.subrange(from, k as int));
        }
        proof {
            assert(out@ =~= inserted(f, a, s));
            lemma_inserted_wf(f, a, s);
        }
        self.free = out;
    }
}

/// Where the blocks of `f` are after freeing `[a, a + s)`: those before the
/// new block stay, the new (possibly merged) block is at `lo`, and the rest
/// follow from `hi` on.
pub open spec fn ins_lo(f: Seq<Block>, a: usize) -> int {
    let i = insert_pos(f, a as int);
    if i > 0 && block_end(f[i - 1]) == a { i - 1 } else { i }
}

pub open spec fn ins_hi(f: Seq<Block>, a: usize, s: usize) -> int {
    let i = insert_pos(f, a as int);
    if i < f.len() && a + s == f[i].0 { i + 1 } else { i }
}

pub proof fn lemma_inserted_shape(f: Seq<Block>, a: usize, s: usize)
    requires
        free_wf(f),
        a + s <= usize::MAX,
    ensures
        ({
            let r = inserted(f, a, s);
            let lo = ins_lo(f, a);
            let hi = ins_hi(f, a, s);
            let i = insert_pos(f, a as int);
            &&& 0 <= lo <= i <= hi <= f.len()
            &&& r.len() == lo + 1 + (f.len() - hi)
            &&& forall|q: int| 0 <= q < lo ==> #[trigger] r[q] == f[q]
            &&& forall|q: int| lo < q < r.len() ==> #[trigger] r[q] == f[q - lo - 1 + hi]
            &&& r[lo].0 == (if lo < i { f[i - 1].0 } else { a })
            &&& block_end(r[lo]) == (if hi > i { block_end(f[i]) } else { a + s })
        }),
{
    lemma_insert_pos(f, a as int);
}

pub proof fn lemma_inserted_wf(f: Seq<Block>, a: usize, s: usize)
    requires
        free_wf(f),
        s >= 1,
        a + s <= usize::MAX,
        apart(f, a as int, s as int),
    ensures
        free_wf(inserted(f, a, s)),
{
    lemma_insert_pos(f, a as int);
    lemma_inserted_shape(f, a, s);
    let i = insert_pos(f, a as int);
    let r = inserted(f, a, s);
    let lo = ins_lo(f, a);
    let hi = ins_hi(f, a, s);
    if i > 0 {
        assert(f[i - 1].0 < a);
        assert(block_end(f[i - 1]) <= a);
    }
    if i < f.len() {
        assert(a + s <= f[i].0);
    }
    // the new block: from `start` to `end`
    let start = r[lo].0 as int;
    let end = block_end(r[lo]);
    assert(end <= usize::MAX) by {
        if hi > i {
            assert(block_end(f[i]) <= usize::MAX);
        }
    }
    assert(r[lo].1 >= 1);
    // everything before `lo` ends before `start`
    assert forall|p: int| 0 <= p < lo implies block_end(#[trigger] f[p]) < start by {
        if lo < i {
            assert(block_end(f[p]) < f[i - 1].0);
        } else if i > 0 {
            if p < i - 1 {
                assert(block_end(f[p]) < f[i - 1].0);
            }
        }
    }
    // everything from `hi` on starts after `end`
    assert forall|q: int| hi <= q < f.len() implies end < (#[trigger] f[q]).0 by {
        if hi > i {
            assert(block_end(f[i]) < f[q].0);
        } else {
            assert(a + s <= f[q].0);
            assert(a + s != f[q].0 || q > i) by {
                if q == i {
                    assert(!(i < f.len() && a + s == f[i].0));
                }
            }
            if q > i {
                assert(block_end(f[i]) < f[q].0);
                assert(f[i].0 < block_end(f[i]));
            }
        }
    }
    assert forall|q: int| 0 <= q < r.len() implies (#[trigger] r[q]).1 >= 1 && block_end(r[q]) <= usize::MAX by {
        if q < lo {
            assert(r[q] == f[q]);
        } else if q > lo {
            assert(r[q] == f[q - lo - 1 + hi]);
        }
    }
    assert forall|p: int, q: int| 0 <= p < q < r.len() implies block_end(#[trigger] r[p]) < (#[trigger] r[q]).0 by {
        if q < lo {
            assert(r[p] == f[p] && r[q] == f[q]);
        } else if q == lo {
            assert(r[p] == f[p]);
        } else if p < lo {
            assert(r[p] == f[p] && r[q] == f[q - lo - 1 + hi]);
            assert(block_end(f[p]) < start);
            assert(end < f[q - lo - 1 + hi].0);
        } else if p == lo {
            assert(r[q] == f[q - lo - 1 + hi]);
        } else {
            assert(r[p] == f[p - lo - 1 + hi] && r[q] == f[q - lo - 1 + hi]);
        }
    }
}

/// Freeing a range adds exactly its bytes to the free memory.
pub proof fn law_free_adds_exactly(f: Seq<Block>, a: usize, s: usize, x: int)
    requires
        free_wf(f),
        s >= 1,
        a + s <= usize::MAX,
        apart(f, a as int, s as int),
    ensures
        covers(inserted(f, a, s), x) <==> (covers(f, x) || a <= x < a + s),
{
    lemma_insert_pos(f, a as int);
    lemma_inserted_shape(f, a, s);
    let i = insert_pos(f, a as int);
    let r = inserted(f, a, s);
    let lo = ins_lo(f, a);
    let hi = ins_hi(f, a, s);
    if covers(r, x) {
        let k = choose|k: int| 0 <= k < r.len() && (#[trigger] r[k]).0 <= x < block_end(r[k]);
        if k < lo {
            assert(f[k] == r[k]);
        } else if k > lo {
            let o = k - lo - 1 + hi;
            assert(f[o] == r[k]);
            assert(f[o].0 <= x < block_end(f[o]));
        } else {
            if x < a {
                assert(lo < i);
                assert(f[i - 1].0 <= x < block_end(f[i - 1]));
            } else if x >= a + s {
                assert(hi > i);
                assert(f[i].0 <= x < block_end(f[i]));
            }
        }
    }
    if covers(f, x) {
        let k = choose|k: int| 0 <= k < f.len() && (#[trigger] f[k]).0 <= x < block_end(f[k]);
        if k < lo {
            assert(r[k] == f[k]);
        } else if k >= hi {
            let q = k - hi + lo + 1;
            assert(r[q] == f[k]);
            assert(r[q].0 <= x < block_end(r[q]));
        } else {
            assert(r[lo].0 <= x < block_end(r[lo])) by {
                if k < i {
                    assert(k == i - 1);
                } else {
                    assert(k == i);
                    if i > 0 {
                        assert(f[i - 1].0 < a);
                    }
                }
            }
        }
    }
    if a <= x < a + s {
        assert(r[lo].0 <= x < block_end(r[lo])) by {
            if lo < i {
                assert(f[i - 1].0 < a);
            }
        }
    }
}

pub proof fn lemma_blocks_disjoint(f: Seq<Block>, i: int, j: int, x: int)
    requires
        free_wf(f),
        0 <= i < f.len(),
        0 <= j < f.len(),
        i != j,
        f[i].0 <= x < block_end(f[i]),
    ensures
        !(f[j].0 <= x < block_end(f[j])),
{
    if i < j {
        assert(block_end(f[i]) < f[j].0);
    } else {
        assert(block_end(f[j]) < f[i].0);
    }
}

/// Taking memory removes exactly the block handed out from the free memory.
pub proof fn law_take_removes_exactly(f: Seq<Block>, need: usize, x: int)
    requires
        free_wf(f),
        need >= 1,
        taken(f, need).1 is Some,
    ensures
        ({
            let g = taken(f, need).1->0;
            covers(taken(f, need).0, x) <==> (covers(f, x) && !(g.0 <= x < g.0 + g.1))
        }),
{
    lemma_fit_index(f, need);
    let k = fit_index(f, need);
    let b = f[k];
    let r = taken(f, need).0;
    let g = taken(f, need).1->0;
    if b.1 - need >= NODE_SIZE {
        if covers(r, x) {
            let i = choose|i: int| 0 <= i < r.len() && (#[trigger] r[i]).0 <= x < block_end(r[i]);
            if i != k {
                assert(r[i] == f[i]);
                lemma_blocks_disjoint(f, i, k, x);
            } else {
                assert(f[k].0 <= x < block_end(f[k]));
            }
        }
        if covers(f, x) && !(g.0 <= x < g.0 + g.1) {
            let i = choose|i: int| 0 <= i < f.len() && (#[trigger] f[i]).0 <= x < block_end(f[i]);
            if i != k {
                assert(r[i] == f[i]);
            } else {
                assert(r[k].0 <= x < block_end(r[k]));
            }
        }
    } else {
        if covers(r, x) {
            let i = choose|i: int| 0 <= i < r.len() && (#[trigger] r[i]).0 <= x < block_end(r[i]);
            let o = if i < k { i } else { i + 1 };
            assert(r[i] == f[o]);
            lemma_blocks_disjoint(f, o, k, x);
        }
        if covers(f, x) && !(g.0 <= x < g.0 + g.1) {
            let i = choose|i: int| 0 <= i < f.len() && (#[trigger] f[i]).0 <= x < block_end(f[i]);
            assert(i != k);
            let q = if i < k { i } else { i - 1 };
            assert(r[q] == f[i]);
        }
    }
}

} // verus!
