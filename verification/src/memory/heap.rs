//! Free-list allocator with boundary tags.
//!
//! The allocator manages one contiguous byte region.  Every block of the
//! region, free or allocated, carries a header at its lowest address (block
//! size plus, for free blocks, the successor link) and a footer duplicating
//! the size at its highest bytes.  The `blocks` vector is the model of that
//! boundary-tag chain: it lists every block of the region in address order,
//! exactly as a walk over the embedded headers would discover them, and an
//! entry is marked `free` precisely when its header is threaded on the free
//! list.  The free list itself is therefore the subsequence of free entries,
//! in the same (strictly increasing) address order.
//!
//! Invariants maintained by every operation:
//! * the blocks tile the region exactly: the first block starts at
//!   `start_address`, each block ends where its successor begins, and the
//!   last block ends at `start_address + capacity`;
//! * every block address and size is a multiple of [`ALIGN`] and every size
//!   is at least the header/footer overhead;
//! * no two free blocks are adjacent (they would have been coalesced).

use vstd::prelude::*;
use vstd::arithmetic::div_mod::lemma_fundamental_div_mod;

verus! {

/// Fixed alignment, in bytes, of block addresses and block sizes.  Requests
/// for any alignment up to this value are satisfiable; larger ones are
/// rejected.
pub const ALIGN: usize = 16;

/// Bytes occupied by a block header: the block size and the successor link.
pub const HEADER_SIZE: usize = 16;

/// Bytes occupied by a block footer: a copy of the block size, stored at the
/// top of the block so the block below a given address can be found.
pub const FOOTER_SIZE: usize = 8;

/// Placement strategy used to pick the free block serving a request.
#[derive(Clone, Copy, PartialEq, Eq, Structural, Debug)]
pub enum HeapType {
    BestFit,
    WorstFit,
    FirstFit,
    NextFit,
}

/// One boundary-tagged block of the managed region: what its header and
/// footer record (address and total size, header and footer included) plus
/// whether the block is on the free list.
#[derive(Clone, Copy, PartialEq, Eq, Structural, Debug)]
pub struct Block {
    pub addr: usize,
    pub size: usize,
    pub free: bool,
}

/// A node of the free list as reported to callers: the block's header
/// address and its total size.
#[derive(Clone, Copy, PartialEq, Eq, Structural, Debug)]
pub struct FreeListNode {
    pub addr: usize,
    pub size: usize,
}

impl FreeListNode {
    pub fn new(addr: usize, size: usize) -> (r: FreeListNode)
        ensures
            r.addr == addr,
            r.size == size,
    {
        FreeListNode { addr, size }
    }
}

/// The free-list allocator.  `blocks` models the boundary-tag chain embedded
/// in the region (see the module documentation); `cursor` remembers the
/// address of the free block at which a Next-Fit search resumes (`None`
/// meaning the list head).
pub struct FreeList {
    pub blocks: Vec<Block>,
    pub start_address: usize,
    pub capacity: usize,
    pub heap_type: HeapType,
    pub cursor: Option<usize>,
}

// ============================================================================
// Specification model
// ============================================================================

/// Rounds `x` up to the next multiple of `ALIGN`.
pub open spec fn spec_align_up(x: int) -> int {
    ((x + ALIGN - 1) / (ALIGN as int)) * (ALIGN as int)
}

/// Rounds `x` down to a multiple of `ALIGN`.
pub open spec fn spec_align_down(x: int) -> int {
    (x / (ALIGN as int)) * (ALIGN as int)
}

/// Payload actually reserved for a request: a zero-byte request is served as
/// a minimum one-byte payload.
pub open spec fn spec_payload_size(req: int) -> int {
    if req == 0 {
        1
    } else {
        req
    }
}

/// Total block size serving a request: the payload rounded up to `ALIGN`,
/// plus the header/footer overhead, the sum again rounded up to `ALIGN`.
pub open spec fn spec_total_size(req: int) -> int {
    spec_align_up(spec_align_up(spec_payload_size(req)) + HEADER_SIZE + FOOTER_SIZE)
}

/// Usable capacity of a raw region: the region start is rounded up to
/// `ALIGN` (the rounding loss is unusable) and what remains is rounded down
/// to a multiple of `ALIGN`.
pub open spec fn spec_usable_capacity(start: int, capacity: int) -> int {
    if capacity >= spec_align_up(start) - start {
        spec_align_down(capacity - (spec_align_up(start) - start))
    } else {
        0
    }
}

/// A block whose address and size respect the alignment and whose size can
/// hold at least its own header and footer.
pub open spec fn block_wf(b: Block) -> bool {
    &&& b.addr % ALIGN == 0
    &&& b.size % ALIGN == 0
    &&& b.size >= HEADER_SIZE + FOOTER_SIZE
}

/// Each block ends exactly where its successor begins.
pub open spec fn contiguous(s: Seq<Block>) -> bool {
    forall|i: int, j: int|
        #![trigger s[i], s[j]]
        0 <= i && i + 1 == j && j < s.len() ==> s[i].addr + s[i].size == s[j].addr
}

/// No two address-adjacent blocks are both free.
pub open spec fn no_adjacent_free(s: Seq<Block>) -> bool {
    forall|i: int, j: int|
        #![trigger s[i], s[j]]
        0 <= i && i + 1 == j && j < s.len() ==> !(s[i].free && s[j].free)
}

/// Every block of the sequence is well formed.
pub open spec fn blocks_wf(s: Seq<Block>) -> bool {
    forall|i: int| 0 <= i < s.len() ==> block_wf(#[trigger] s[i])
}

/// Total bytes covered by the blocks of `s`.
pub open spec fn sum_sizes(s: Seq<Block>) -> int
    decreases s.len(),
{
    if s.len() == 0 {
        0
    } else {
        sum_sizes(s.drop_last()) + s.last().size
    }
}

/// The free list: the free blocks of `s`, in the same (address) order.
pub open spec fn free_view(s: Seq<Block>) -> Seq<FreeListNode>
    decreases s.len(),
{
    if s.len() == 0 {
        Seq::empty()
    } else {
        let rest = free_view(s.drop_last());
        if s.last().free {
            rest.push(FreeListNode { addr: s.last().addr, size: s.last().size })
        } else {
            rest
        }
    }
}

/// Block chain of a freshly initialized heap: one free block spanning the
/// whole usable region.
pub open spec fn initial_blocks(start: int, usable: int) -> Seq<Block> {
    seq![Block { addr: start as usize, size: usable as usize, free: true }]
}

impl FreeList {
    /// One-past-the-end address of the managed region.
    pub open spec fn region_end(self) -> int {
        self.start_address + self.capacity
    }

    /// Well-formedness: the blocks tile the region exactly, all are aligned
    /// and large enough for their boundary tags, and no two free blocks
    /// touch.
    pub open spec fn wf(self) -> bool {
        &&& self.start_address % ALIGN == 0
        &&& self.capacity % ALIGN == 0
        &&& HEADER_SIZE + FOOTER_SIZE <= self.capacity
        &&& self.start_address + self.capacity <= usize::MAX
        &&& self.blocks@.len() > 0
        &&& self.blocks@[0].addr == self.start_address
        &&& self.blocks@.last().addr + self.blocks@.last().size == self.region_end()
        &&& blocks_wf(self.blocks@)
        &&& contiguous(self.blocks@)
        &&& no_adjacent_free(self.blocks@)
    }

    /// The free list of this heap, in address order.
    pub open spec fn free_list_view(self) -> Seq<FreeListNode> {
        free_view(self.blocks@)
    }
}

// ============================================================================
// Alignment arithmetic
// ============================================================================

proof fn lemma_align_up_props(x: int)
    requires
        x >= 0,
    ensures
        spec_align_up(x) % (ALIGN as int) == 0,
        x <= spec_align_up(x) < x + ALIGN,
{
    let a = ALIGN as int;
    lemma_fundamental_div_mod(x + a - 1, a);
    lemma_fundamental_div_mod(((x + a - 1) / a) * a, a);
    assert(spec_align_up(x) % a == 0) by {
        let q = (x + a - 1) / a;
        assert((q * a) / a == q && (q * a) % a == 0) by (nonlinear_arith)
            requires
                a > 0,
                q * a == a * ((q * a) / a) + (q * a) % a,
                0 <= (q * a) % a < a,
        ;
    }
}

proof fn lemma_align_down_props(x: int)
    requires
        x >= 0,
    ensures
        spec_align_down(x) % (ALIGN as int) == 0,
        x - ALIGN < spec_align_down(x) <= x,
{
    let a = ALIGN as int;
    lemma_fundamental_div_mod(x, a);
    assert(spec_align_down(x) % a == 0) by {
        let q = x / a;
        lemma_fundamental_div_mod(q * a, a);
        assert((q * a) / a == q && (q * a) % a == 0) by (nonlinear_arith)
            requires
                a > 0,
                q * a == a * ((q * a) / a) + (q * a) % a,
                0 <= (q * a) % a < a,
        ;
    }
}

impl FreeList {
    /// Rounds a size or address up to the allocator's alignment.
    fn align_up(x: usize) -> (r: usize)
        requires
            x + ALIGN - 1 <= usize::MAX,
        ensures
            r == spec_align_up(x as int),
    {
        proof {
            lemma_align_up_props(x as int);
            lemma_fundamental_div_mod(x as int + ALIGN - 1, ALIGN as int);
        }
        let t = x + (ALIGN - 1);
        t - (t % ALIGN)
    }

    /// Per-block bookkeeping overhead: one header plus one footer.
    fn block_overhead() -> (r: usize)
        ensures
            r == HEADER_SIZE + FOOTER_SIZE,
    {
        HEADER_SIZE + FOOTER_SIZE
    }

    /// Creates an allocator for the region `[start, start + capacity)`.
    ///
    /// The start is rounded up to [`ALIGN`] and the capacity shrunk by the
    /// rounding loss, then rounded down to a multiple of [`ALIGN`]; a region
    /// whose usable capacity cannot hold even one block's boundary tags is a
    /// misconfiguration and is ruled out by the precondition.  The whole
    /// usable region becomes a single free block, at which both the list
    /// head and the Next-Fit cursor point.
    pub fn init(start: usize, capacity: usize, heap_type: HeapType) -> (r: FreeList)
        requires
            start + capacity <= usize::MAX,
            spec_usable_capacity(start as int, capacity as int) >= HEADER_SIZE + FOOTER_SIZE,
        ensures
            r.wf(),
            r.start_address == spec_align_up(start as int),
            r.capacity == spec_usable_capacity(start as int, capacity as int),
            r.heap_type == heap_type,
            r.blocks@ =~= initial_blocks(r.start_address as int, r.capacity as int),
            r.cursor == Some(r.start_address),
            r.free_list_view() =~= seq![FreeListNode { addr: r.start_address, size: r.capacity }],
    {
        proof {
            lemma_align_up_props(start as int);
            if capacity as int >= spec_align_up(start as int) - start {
                lemma_align_down_props(capacity - (spec_align_up(start as int) - start));
            }
        }
        let aligned_start = FreeList::align_up(start);
        let loss = aligned_start - start;
        let available = capacity - loss;
        proof {
            lemma_fundamental_div_mod(available as int, ALIGN as int);
        }
        let usable = (available / ALIGN) * ALIGN;
        let mut blocks: Vec<Block> = Vec::new();
        blocks.push(Block { addr: aligned_start, size: usable, free: true });
        let r = FreeList {
            blocks,
            start_address: aligned_start,
            capacity: usable,
            heap_type,
            cursor: Some(aligned_start),
        };
        proof {
            assert(r.blocks@.drop_last() =~= Seq::<Block>::empty());
            assert(free_view(Seq::<Block>::empty()) =~= Seq::<FreeListNode>::empty());
            assert(r.free_list_view() =~= seq![
                FreeListNode { addr: r.start_address, size: r.capacity },
            ]);
        }
        r
    }
}

// ============================================================================
// Derived facts about well-formed block chains
// ============================================================================

/// In a contiguous chain of well-formed blocks, addresses strictly increase
/// and each block ends at or before any later block's start.
proof fn lemma_prefix_reach(s: Seq<Block>, i: int, j: int)
    requires
        contiguous(s),
        blocks_wf(s),
        0 <= i <= j < s.len(),
    ensures
        s[i].addr <= s[j].addr,
        i < j ==> s[i].addr + s[i].size <= s[j].addr,
    decreases j - i,
{
    if i < j {
        lemma_prefix_reach(s, i, j - 1);
        assert(s[j - 1].addr + s[j - 1].size == s[j].addr);
        assert(block_wf(s[j - 1]));
    }
}

/// Every block of a well-formed heap lies inside the managed region (and
/// hence is no larger than the capacity).
proof fn lemma_block_in_region(fl: FreeList, i: int)
    requires
        fl.wf(),
        0 <= i < fl.blocks@.len(),
    ensures
        fl.start_address <= fl.blocks@[i].addr,
        fl.blocks@[i].addr + fl.blocks@[i].size <= fl.region_end(),
        fl.blocks@[i].size <= fl.capacity,
{
    let s = fl.blocks@;
    lemma_prefix_reach(s, 0, i);
    lemma_prefix_reach(s, i, s.len() - 1);
    assert(block_wf(s[i]));
}

/// A multiple of `ALIGN` that fits in `usize` leaves at least `ALIGN - 1`
/// bytes of headroom below `usize::MAX`.
proof fn lemma_aligned_slack(c: int)
    requires
        0 <= c <= usize::MAX,
        c % (ALIGN as int) == 0,
    ensures
        c <= usize::MAX - (ALIGN - 1),
{
    lemma_fundamental_div_mod(c, ALIGN as int);
}

/// The total block size of any request is an aligned size large enough for
/// its boundary tags, and no smaller than the aligned payload it holds.
proof fn lemma_total_size_props(req: int)
    requires
        0 <= req,
    ensures
        spec_total_size(req) % (ALIGN as int) == 0,
        spec_total_size(req) >= HEADER_SIZE + FOOTER_SIZE + spec_align_up(spec_payload_size(req)),
        spec_total_size(req) >= spec_payload_size(req),
        spec_total_size(req) >= HEADER_SIZE + FOOTER_SIZE,
{
    lemma_align_up_props(spec_payload_size(req));
    lemma_align_up_props(spec_align_up(spec_payload_size(req)) + HEADER_SIZE + FOOTER_SIZE);
}

// ============================================================================
// Placement strategies: what each search selects
// ============================================================================

/// Whether the free block `b` can serve a request of `total` bytes.
pub open spec fn block_fits(b: Block, total: int) -> bool {
    b.free && b.size >= total
}

/// No block of `s` can serve the request.
pub open spec fn no_fit(s: Seq<Block>, total: int) -> bool {
    forall|j: int| 0 <= j < s.len() ==> !block_fits(#[trigger] s[j], total)
}

/// `i` is the First-Fit choice: the first fitting block from the head.
pub open spec fn is_first_fit(s: Seq<Block>, total: int, i: int) -> bool {
    &&& 0 <= i < s.len()
    &&& block_fits(s[i], total)
    &&& forall|j: int| 0 <= j < i ==> !block_fits(#[trigger] s[j], total)
}

/// `i` is the Best-Fit choice: a fitting block of minimal size, the first
/// one of that size in address order.
pub open spec fn is_best_fit(s: Seq<Block>, total: int, i: int) -> bool {
    &&& 0 <= i < s.len()
    &&& block_fits(s[i], total)
    &&& forall|j: int|
        0 <= j < s.len() && block_fits(#[trigger] s[j], total) ==> s[i].size <= s[j].size
    &&& forall|j: int| 0 <= j < i && block_fits(#[trigger] s[j], total) ==> s[i].size < s[j].size
}

/// `i` is the Worst-Fit choice: a fitting block of maximal size, the first
/// one of that size in address order.
pub open spec fn is_worst_fit(s: Seq<Block>, total: int, i: int) -> bool {
    &&& 0 <= i < s.len()
    &&& block_fits(s[i], total)
    &&& forall|j: int|
        0 <= j < s.len() && block_fits(#[trigger] s[j], total) ==> s[i].size >= s[j].size
    &&& forall|j: int| 0 <= j < i && block_fits(#[trigger] s[j], total) ==> s[i].size > s[j].size
}

/// `start` is the index at which a Next-Fit search begins: the index of the
/// free block the cursor points at, or the head when the cursor is unset or
/// its referent is no longer on the list.
pub open spec fn is_cursor_start(s: Seq<Block>, cursor: Option<usize>, start: int) -> bool {
    match cursor {
        None => start == 0,
        Some(a) => (0 <= start < s.len() && s[start].free && s[start].addr == a) || (start == 0
            && forall|j: int| 0 <= j < s.len() ==> !((#[trigger] s[j]).free && s[j].addr == a)),
    }
}

/// `i` is the Next-Fit choice for a search beginning at `start`: the first
/// fitting block at or after `start`, wrapping once to the head.
pub open spec fn is_next_fit(s: Seq<Block>, start: int, total: int, i: int) -> bool {
    &&& 0 <= i < s.len()
    &&& block_fits(s[i], total)
    &&& if i >= start {
        forall|j: int| start <= j < i ==> !block_fits(#[trigger] s[j], total)
    } else {
        &&& forall|j: int| start <= j < s.len() ==> !block_fits(#[trigger] s[j], total)
        &&& forall|j: int| 0 <= j < i ==> !block_fits(#[trigger] s[j], total)
    }
}

/// The block picked by the configured strategy for a request of `total`
/// bytes against the heap state `pre`.
pub open spec fn chosen_index(pre: FreeList, total: int, i: int) -> bool {
    match pre.heap_type {
        HeapType::FirstFit => is_first_fit(pre.blocks@, total, i),
        HeapType::BestFit => is_best_fit(pre.blocks@, total, i),
        HeapType::WorstFit => is_worst_fit(pre.blocks@, total, i),
        HeapType::NextFit => exists|start: int|
            is_cursor_start(pre.blocks@, pre.cursor, start) && is_next_fit(
                pre.blocks@,
                start,
                total,
                i,
            ),
    }
}

// ============================================================================
// Allocation and deallocation: full behaviour
// ============================================================================

/// The cursor value after block `i` was consumed whole: the address of the
/// first free block after `i`, or unset (meaning the head) when none
/// follows.
pub open spec fn cursor_after_consume(s: Seq<Block>, i: int, c: Option<usize>) -> bool {
    match c {
        Some(a) => exists|j: int|
            i < j < s.len() && (#[trigger] s[j]).free && s[j].addr == a && (forall|k: int|
                i < k < j ==> !(#[trigger] s[k]).free),
        None => forall|k: int| i < k < s.len() ==> !(#[trigger] s[k]).free,
    }
}

/// The splitting policy: a candidate is split only when the remainder can
/// itself hold a block's boundary tags.
pub open spec fn split_threshold_met(b: Block, total: int) -> bool {
    b.size >= total + HEADER_SIZE + FOOTER_SIZE
}

/// State change of a successful allocation that consumed (part of) block
/// `i`: the payload pointer sits just above the block's header; a large
/// enough candidate is split, with the low part allocated and the high
/// remainder free in the candidate's list position; otherwise the whole
/// candidate is consumed.  The cursor moves to the node immediately after
/// the consumed bytes.
pub open spec fn allocate_success(pre: FreeList, post: FreeList, total: int, i: int, p: int) -> bool {
    let b = pre.blocks@[i];
    &&& p == b.addr + HEADER_SIZE
    &&& if split_threshold_met(b, total) {
        &&& post.blocks@ == pre.blocks@.update(
            i,
            Block { addr: b.addr, size: total as usize, free: false },
        ).insert(i + 1, Block { addr: (b.addr + total) as usize, size: (b.size - total) as usize, free: true })
        &&& post.cursor == Some((b.addr + total) as usize)
    } else {
        &&& post.blocks@ == pre.blocks@.update(
            i,
            Block { addr: b.addr, size: b.size, free: false },
        )
        &&& cursor_after_consume(pre.blocks@, i, post.cursor)
    }
}

/// Full behaviour of `allocate`.  Oversized alignments, requests whose
/// total block size overflows or exceeds the capacity, and requests no free
/// block can serve all fail with the heap untouched; otherwise the request
/// succeeds on exactly the block the strategy picks.
pub open spec fn allocate_spec(
    pre: FreeList,
    post: FreeList,
    req: int,
    align: int,
    r: Option<usize>,
) -> bool {
    let total = spec_total_size(req);
    &&& post.wf()
    &&& post.start_address == pre.start_address
    &&& post.capacity == pre.capacity
    &&& post.heap_type == pre.heap_type
    &&& (align > ALIGN ==> r is None && post.blocks@ == pre.blocks@ && post.cursor == pre.cursor)
    &&& (align <= ALIGN && total > pre.capacity ==> r is None && post.blocks@ == pre.blocks@
        && post.cursor == pre.cursor)
    &&& (align <= ALIGN && total <= pre.capacity ==> {
        &&& (r is Some <==> exists|i: int|
            0 <= i < pre.blocks@.len() && block_fits(#[trigger] pre.blocks@[i], total))
        &&& (r is None ==> post.blocks@ == pre.blocks@ && post.cursor == pre.cursor)
        &&& (r matches Some(p) ==> exists|i: int|
            #[trigger] chosen_index(pre, total, i) && allocate_success(pre, post, total, i, p as int))
    })
}

/// `i` is the block whose payload starts at `address`: the block is
/// allocated and its header sits exactly one header below the payload.
pub open spec fn is_payload_of(s: Seq<Block>, address: int, i: int) -> bool {
    &&& 0 <= i < s.len()
    &&& !s[i].free
    &&& s[i].addr + HEADER_SIZE == address
}

/// The block chain after block `i` is freed: the block and whichever of
/// its two physical neighbours are already free fuse into one free block
/// spanning exactly their combined range.
pub open spec fn merged_blocks(s: Seq<Block>, i: int) -> Seq<Block> {
    let lo = if i > 0 && s[i - 1].free {
        i - 1
    } else {
        i
    };
    let hi = if i + 1 < s.len() && s[i + 1].free {
        i + 1
    } else {
        i
    };
    let merged = Block {
        addr: s[lo].addr,
        size: (s[hi].addr + s[hi].size - s[lo].addr) as usize,
        free: true,
    };
    s.subrange(0, lo) + seq![merged] + s.subrange(hi + 1, s.len() as int)
}

/// State change of deallocating block `i`: the block returns to the free
/// list at its address position and coalesces with its free neighbours.
pub open spec fn deallocate_success(pre: FreeList, post: FreeList, i: int) -> bool {
    post.blocks@ == merged_blocks(pre.blocks@, i)
}

/// Full behaviour of `deallocate`: the freed block coalesces with its free
/// neighbours and the Next-Fit cursor is reset to the list head.
pub open spec fn deallocate_spec(pre: FreeList, post: FreeList, address: int) -> bool {
    &&& post.wf()
    &&& post.start_address == pre.start_address
    &&& post.capacity == pre.capacity
    &&& post.heap_type == pre.heap_type
    &&& post.cursor is None
    &&& forall|i: int|
        #[trigger] is_payload_of(pre.blocks@, address, i) ==> deallocate_success(pre, post, i)
}

impl FreeList {
    /// First-Fit search: the first block large enough, scanning from the
    /// head.  Returns the block's index, or `None` when no block fits.
    #[verifier::loop_isolation(false)]
    fn find_region_first_fit(&self, total: usize) -> (r: Option<usize>)
        requires
            self.wf(),
        ensures
            r matches Some(i) ==> is_first_fit(self.blocks@, total as int, i as int),
            r is None ==> no_fit(self.blocks@, total as int),
    {
        if total > self.capacity {
            proof {
                assert forall|j: int| 0 <= j < self.blocks@.len() implies !block_fits(
                    #[trigger] self.blocks@[j],
                    total as int,
                ) by {
                    lemma_block_in_region(*self, j);
                }
            }
            return None;
        }
        let n = self.blocks.len();
        let mut idx: usize = 0;
        while idx < n
            invariant
                idx <= n,
                forall|j: int| 0 <= j < idx ==> !block_fits(#[trigger] self.blocks@[j], total as int),
            decreases n - idx,
        {
            let b = self.blocks[idx];
            if b.free && b.size >= total {
                return Some(idx);
            }
            idx = idx + 1;
        }
        None
    }

    /// Best-Fit search: the smallest block large enough, over the whole
    /// list; on ties, the first such block in address order.
    #[verifier::loop_isolation(false)]
    fn find_region_best_fit(&self, total: usize) -> (r: Option<usize>)
        requires
            self.wf(),
        ensures
            r matches Some(i) ==> is_best_fit(self.blocks@, total as int, i as int),
            r is None ==> no_fit(self.blocks@, total as int),
    {
        if total > self.capacity {
            proof {
                assert forall|j: int| 0 <= j < self.blocks@.len() implies !block_fits(
                    #[trigger] self.blocks@[j],
                    total as int,
                ) by {
                    lemma_block_in_region(*self, j);
                }
            }
            return None;
        }
        let n = self.blocks.len();
        let mut best: Option<usize> = None;
        let mut idx: usize = 0;
        while idx < n
            invariant
                idx <= n,
                match best {
                    None => forall|j: int|
                        0 <= j < idx ==> !block_fits(#[trigger] self.blocks@[j], total as int),
                    Some(bi) => {
                        &&& bi < idx
                        &&& block_fits(self.blocks@[bi as int], total as int)
                        &&& forall|j: int|
                            0 <= j < idx && block_fits(#[trigger] self.blocks@[j], total as int)
                                ==> self.blocks@[bi as int].size <= self.blocks@[j].size
                        &&& forall|j: int|
                            0 <= j < bi && block_fits(#[trigger] self.blocks@[j], total as int)
                                ==> self.blocks@[bi as int].size < self.blocks@[j].size
                    },
                },
            decreases n - idx,
        {
            let b = self.blocks[idx];
            if b.free && b.size >= total {
                match best {
                    None => {
                        best = Some(idx);
                    },
                    Some(bi) => {
                        if b.size < self.blocks[bi].size {
                            best = Some(idx);
                        }
                    },
                }
            }
            idx = idx + 1;
        }
        best
    }

    /// Worst-Fit search: the largest block large enough, over the whole
    /// list; on ties, the first such block in address order.
    #[verifier::loop_isolation(false)]
    fn find_region_worst_fit(&self, total: usize) -> (r: Option<usize>)
        requires
            self.wf(),
        ensures
            r matches Some(i) ==> is_worst_fit(self.blocks@, total as int, i as int),
            r is None ==> no_fit(self.blocks@, total as int),
    {
        if total > self.capacity {
            proof {
                assert forall|j: int| 0 <= j < self.blocks@.len() implies !block_fits(
                    #[trigger] self.blocks@[j],
                    total as int,
                ) by {
                    lemma_block_in_region(*self, j);
                }
            }
            return None;
        }
        let n = self.blocks.len();
        let mut worst: Option<usize> = None;
        let mut idx: usize = 0;
        while idx < n
            invariant
                idx <= n,
                match worst {
                    None => forall|j: int|
                        0 <= j < idx ==> !block_fits(#[trigger] self.blocks@[j], total as int),
                    Some(wi) => {
                        &&& wi < idx
                        &&& block_fits(self.blocks@[wi as int], total as int)
                        &&& forall|j: int|
                            0 <= j < idx && block_fits(#[trigger] self.blocks@[j], total as int)
                                ==> self.blocks@[wi as int].size >= self.blocks@[j].size
                        &&& forall|j: int|
                            0 <= j < wi && block_fits(#[trigger] self.blocks@[j], total as int)
                                ==> self.blocks@[wi as int].size > self.blocks@[j].size
                    },
                },
            decreases n - idx,
        {
            let b = self.blocks[idx];
            if b.free && b.size >= total {
                match worst {
                    None => {
                        worst = Some(idx);
                    },
                    Some(wi) => {
                        if b.size > self.blocks[wi].size {
                            worst = Some(idx);
                        }
                    },
                }
            }
            idx = idx + 1;
        }
        worst
    }

    /// Index of the free block the Next-Fit cursor points at, or the head
    /// when the cursor is unset or its referent has left the list.
    #[verifier::loop_isolation(false)]
    fn cursor_start_index(&self) -> (start: usize)
        requires
            self.wf(),
        ensures
            is_cursor_start(self.blocks@, self.cursor, start as int),
            start < self.blocks@.len(),
    {
        match self.cursor {
            None => 0,
            Some(a) => {
                let n = self.blocks.len();
                let mut k: usize = 0;
                while k < n
                    invariant
                        k <= n,
                        forall|j: int|
                            0 <= j < k ==> !((#[trigger] self.blocks@[j]).free
                                && self.blocks@[j].addr == a),
                    decreases n - k,
                {
                    let b = self.blocks[k];
                    if b.free && b.addr == a {
                        return k;
                    }
                    k = k + 1;
                }
                0
            },
        }
    }

    /// Next-Fit search: the first block large enough, scanning from the
    /// cursor's position and wrapping once to the head.
    #[verifier::loop_isolation(false)]
    #[verifier::rlimit(30)]
    fn find_region_next_fit(&self, total: usize) -> (r: Option<usize>)
        requires
            self.wf(),
        ensures
            r matches Some(i) ==> exists|start: int|
                #[trigger] is_cursor_start(self.blocks@, self.cursor, start) && is_next_fit(
                    self.blocks@,
                    start,
                    total as int,
                    i as int,
                ),
            r is None ==> no_fit(self.blocks@, total as int),
    {
        if total > self.capacity {
            proof {
                assert forall|j: int| 0 <= j < self.blocks@.len() implies !block_fits(
                    #[trigger] self.blocks@[j],
                    total as int,
                ) by {
                    lemma_block_in_region(*self, j);
                }
            }
            return None;
        }
        let start = self.cursor_start_index();
        let n = self.blocks.len();
        let mut idx: usize = start;
        while idx < n
            invariant
                start <= idx <= n,
                forall|j: int|
                    start <= j < idx ==> !block_fits(#[trigger] self.blocks@[j], total as int),
            decreases n - idx,
        {
            let b = self.blocks[idx];
            if b.free && b.size >= total {
                proof {
                    assert(is_cursor_start(self.blocks@, self.cursor, start as int));
                    assert(is_next_fit(self.blocks@, start as int, total as int, idx as int));
                }
                return Some(idx);
            }
            idx = idx + 1;
        }
        let mut idx2: usize = 0;
        while idx2 < start
            invariant
                idx2 <= start,
                forall|j: int|
                    start <= j < self.blocks@.len() ==> !block_fits(
                        #[trigger] self.blocks@[j],
                        total as int,
                    ),
                forall|j: int|
                    0 <= j < idx2 ==> !block_fits(#[trigger] self.blocks@[j], total as int),
            decreases start - idx2,
        {
            let b = self.blocks[idx2];
            if b.free && b.size >= total {
                proof {
                    assert(is_cursor_start(self.blocks@, self.cursor, start as int));
                    assert(is_next_fit(self.blocks@, start as int, total as int, idx2 as int));
                }
                return Some(idx2);
            }
            idx2 = idx2 + 1;
        }
        None
    }
}

/// Consuming a free block whole (flipping it to allocated) preserves every
/// heap invariant: addresses and sizes are untouched and turning a block
/// non-free cannot create a pair of adjacent free blocks.
proof fn lemma_consume_preserves_wf(pre: FreeList, post: FreeList, i: int)
    requires
        pre.wf(),
        0 <= i < pre.blocks@.len(),
        post.blocks@ == pre.blocks@.update(
            i,
            Block { addr: pre.blocks@[i].addr, size: pre.blocks@[i].size, free: false },
        ),
        post.start_address == pre.start_address,
        post.capacity == pre.capacity,
    ensures
        post.wf(),
{
    let s = pre.blocks@;
    let t = post.blocks@;
    assert forall|j: int| 0 <= j < t.len() implies block_wf(#[trigger] t[j]) by {
        assert(block_wf(s[j]));
        if j != i {
            assert(t[j] == s[j]);
        }
    }
    assert forall|a: int, b: int|
        #![trigger t[a], t[b]]
        0 <= a && a + 1 == b && b < t.len() implies t[a].addr + t[a].size == t[b].addr && !(t[a].free
        && t[b].free) by {
        assert(s[a].addr + s[a].size == s[b].addr);
        assert(!(s[a].free && s[b].free));
    }
    assert(t[0].addr == s[0].addr);
    assert(t.last().addr + t.last().size == s.last().addr + s.last().size);
}

/// Splitting a free block into an allocated low part of `total` bytes and
/// a free remainder preserves every heap invariant, provided the remainder
/// can hold its own boundary tags.
proof fn lemma_split_preserves_wf(pre: FreeList, post: FreeList, i: int, total: int)
    requires
        pre.wf(),
        0 <= i < pre.blocks@.len(),
        pre.blocks@[i].free,
        total % (ALIGN as int) == 0,
        HEADER_SIZE + FOOTER_SIZE <= total,
        total + HEADER_SIZE + FOOTER_SIZE <= pre.blocks@[i].size,
        post.blocks@ == pre.blocks@.update(
            i,
            Block { addr: pre.blocks@[i].addr, size: total as usize, free: false },
        ).insert(
            i + 1,
            Block {
                addr: (pre.blocks@[i].addr + total) as usize,
                size: (pre.blocks@[i].size - total) as usize,
                free: true,
            },
        ),
        post.start_address == pre.start_address,
        post.capacity == pre.capacity,
    ensures
        post.wf(),
{
    let s = pre.blocks@;
    let t = post.blocks@;
    let b = s[i];
    lemma_block_in_region(pre, i);
    let low = Block { addr: b.addr, size: total as usize, free: false };
    let high = Block { addr: (b.addr + total) as usize, size: (b.size - total) as usize, free: true };
    assert(t.len() == s.len() + 1);
    let u = s.update(i, low);
    assert forall|j: int| 0 <= j < t.len() implies #[trigger] t[j] == (if j < i {
        s[j]
    } else if j == i {
        low
    } else if j == i + 1 {
        high
    } else {
        s[j - 1]
    }) by {
        if j < i + 1 {
            assert(t[j] == u[j]);
        } else if j == i + 1 {
            assert(t[j] == high);
        } else {
            assert(t[j] == u[j - 1]);
            assert(u[j - 1] == s[j - 1]);
        }
    }
    assert(block_wf(b));
    assert forall|j: int| 0 <= j < t.len() implies block_wf(#[trigger] t[j]) by {
        if j < i || j > i + 1 {
        } else {
            assert(block_wf(low));
            assert(block_wf(high));
        }
    }
    assert forall|a: int, c: int|
        #![trigger t[a], t[c]]
        0 <= a && a + 1 == c && c < t.len() implies t[a].addr + t[a].size == t[c].addr && !(t[a].free
        && t[c].free) by {
        if c < i {
            assert(s[a].addr + s[a].size == s[c].addr);
            assert(!(s[a].free && s[c].free));
        } else if c == i {
            assert(s[a].addr + s[a].size == s[i].addr);
            assert(!(s[a].free && s[i].free));
        } else if a == i {
            assert(t[a] == low && t[c] == high);
        } else if a == i + 1 {
            assert(high.addr + high.size == b.addr + b.size);
            if i + 1 < s.len() {
                assert(s[i].addr + s[i].size == s[i + 1].addr);
                assert(!(s[i].free && s[i + 1].free));
            }
            assert(t[c] == s[c - 1]);
        } else {
            assert(s[a - 1].addr + s[a - 1].size == s[c - 1].addr);
            assert(!(s[a - 1].free && s[c - 1].free));
        }
    }
    assert(t[0].addr == pre.start_address);
    assert(t.last().addr + t.last().size == pre.region_end());
}

/// Freeing block `i` and fusing it with its free neighbours preserves
/// every heap invariant.
proof fn lemma_merge_preserves_wf(pre: FreeList, post: FreeList, i: int)
    requires
        pre.wf(),
        0 <= i < pre.blocks@.len(),
        !pre.blocks@[i].free,
        post.blocks@ == merged_blocks(pre.blocks@, i),
        post.start_address == pre.start_address,
        post.capacity == pre.capacity,
    ensures
        post.wf(),
        post.blocks@.len() > 0,
{
    let s = pre.blocks@;
    let t = post.blocks@;
    let n = s.len() as int;
    let lo = if i > 0 && s[i - 1].free {
        i - 1
    } else {
        i
    };
    let hi = if i + 1 < n && s[i + 1].free {
        i + 1
    } else {
        i
    };
    let merged = Block {
        addr: s[lo].addr,
        size: (s[hi].addr + s[hi].size - s[lo].addr) as usize,
        free: true,
    };
    lemma_block_in_region(pre, lo);
    lemma_block_in_region(pre, hi);
    lemma_prefix_reach(s, lo, hi);
    assert(t.len() == n - (hi - lo));
    assert forall|j: int| 0 <= j < t.len() implies #[trigger] t[j] == (if j < lo {
        s[j]
    } else if j == lo {
        merged
    } else {
        s[j + (hi - lo)]
    }) by {}
    assert(s[lo].addr + (s[hi].addr + s[hi].size - s[lo].addr) == s[hi].addr + s[hi].size);
    assert(block_wf(merged)) by {
        assert(block_wf(s[lo]));
        assert(block_wf(s[hi]));
        assert(block_wf(s[i]));
        if lo < i {
            assert(s[lo].addr + s[lo].size == s[i].addr);
        }
        if hi > i {
            assert(s[i].addr + s[i].size == s[i + 1].addr);
        }
    }
    assert forall|j: int| 0 <= j < t.len() implies block_wf(#[trigger] t[j]) by {
        if j < lo {
            assert(block_wf(s[j]));
        } else if j > lo {
            assert(block_wf(s[j + (hi - lo)]));
        }
    }
    assert forall|a: int, c: int|
        #![trigger t[a], t[c]]
        0 <= a && a + 1 == c && c < t.len() implies t[a].addr + t[a].size == t[c].addr && !(t[a].free
        && t[c].free) by {
        if c < lo {
            assert(s[a].addr + s[a].size == s[c].addr);
            assert(!(s[a].free && s[c].free));
        } else if c == lo {
            // the block below the merged one is not free: were it free, the
            // merge would have started one block lower
            assert(s[a].addr + s[a].size == s[lo].addr);
            if lo == i - 1 {
                assert(!(s[i - 2].free && s[i - 1].free));
            }
        } else if a == lo {
            // the block above the merged one is not free either
            assert(t[c] == s[hi + 1]);
            assert(s[hi].addr + s[hi].size == s[hi + 1].addr);
            if hi == i + 1 {
                assert(!(s[i + 1].free && s[i + 2].free));
            }
        } else {
            assert(s[a + (hi - lo)].addr + s[a + (hi - lo)].size == s[c + (hi - lo)].addr);
            assert(!(s[a + (hi - lo)].free && s[c + (hi - lo)].free));
        }
    }
    assert(t[0].addr == pre.start_address) by {
        if lo > 0 {
            assert(t[0] == s[0]);
        }
    }
    assert(t.last().addr + t.last().size == pre.region_end()) by {
        if hi < n - 1 {
            assert(t.last() == s[n - 1]);
        }
    }
}

impl FreeList {
    /// Serves an allocation request of `requested_size` bytes at alignment
    /// `requested_align`.
    ///
    /// The request fails — returning `None` with the heap untouched — when
    /// the alignment exceeds [`ALIGN`], when the total block size
    /// (payload rounded up, plus boundary-tag overhead, rounded up again)
    /// overflows or exceeds the heap capacity, or when no free block can
    /// hold it.  Otherwise the strategy picks its block, the block is split
    /// when the remainder could hold boundary tags of its own (else
    /// consumed whole, accepting bounded internal fragmentation), the
    /// Next-Fit cursor moves to the node just after the consumed bytes,
    /// and the first payload byte's address is returned.
    #[verifier::loop_isolation(false)]
    #[verifier::rlimit(100)]
    pub fn allocate(&mut self, requested_size: usize, requested_align: usize) -> (r: Option<usize>)
        requires
            old(self).wf(),
        ensures
            final(self).wf(),
            allocate_spec(
                *old(self),
                *final(self),
                requested_size as int,
                requested_align as int,
                r,
            ),
    {
        proof {
            lemma_total_size_props(requested_size as int);
            lemma_aligned_slack(self.capacity as int);
        }
        let ghost total_spec = spec_total_size(requested_size as int);
        if requested_align > ALIGN {
            return None;
        }
        let payload: usize = if requested_size == 0 {
            1
        } else {
            requested_size
        };
        if payload > usize::MAX - (ALIGN - 1) {
            proof {
                lemma_align_up_props(payload as int);
                lemma_align_up_props(spec_align_up(payload as int) + HEADER_SIZE + FOOTER_SIZE);
            }
            return None;
        }
        let aligned_payload = FreeList::align_up(payload);
        if aligned_payload > usize::MAX - (HEADER_SIZE + FOOTER_SIZE) - (ALIGN - 1) {
            proof {
                lemma_align_up_props(aligned_payload as int + HEADER_SIZE + FOOTER_SIZE);
            }
            return None;
        }
        let total = FreeList::align_up(aligned_payload + FreeList::block_overhead());
        proof {
            assert(total == total_spec);
        }
        if total > self.capacity {
            return None;
        }
        let region = match self.heap_type {
            HeapType::FirstFit => self.find_region_first_fit(total),
            HeapType::BestFit => self.find_region_best_fit(total),
            HeapType::WorstFit => self.find_region_worst_fit(total),
            HeapType::NextFit => self.find_region_next_fit(total),
        };
        match region {
            None => None,
            Some(i) => {
                proof {
                    lemma_block_in_region(*self, i as int);
                    assert(chosen_index(*old(self), total as int, i as int));
                }
                let b = self.blocks[i];
                if b.size - total >= FreeList::block_overhead() {
                    // enough room to split off a free remainder
                    let remainder = b.size - total;
                    self.blocks.set(i, Block { addr: b.addr, size: total, free: false });
                    let count = self.blocks.len();
                    proof {
                        assert(i < count);
                    }
                    self.blocks.insert(
                        i + 1,
                        Block { addr: b.addr + total, size: remainder, free: true },
                    );
                    self.cursor = Some(b.addr + total);
                    proof {
                        lemma_split_preserves_wf(*old(self), *final(self), i as int, total as int);
                        assert(allocate_success(
                            *old(self),
                            *final(self),
                            total as int,
                            i as int,
                            b.addr + HEADER_SIZE,
                        ));
                    }
                    Some(b.addr + HEADER_SIZE)
                } else {
                    // consume the whole block
                    self.blocks.set(i, Block { addr: b.addr, size: b.size, free: false });
                    let n = self.blocks.len();
                    let mut cur: Option<usize> = None;
                    let mut j = i + 1;
                    while j < n && cur.is_none()
                        invariant
                            i < j <= n,
                            cur is None ==> forall|k: int|
                                i < k < j ==> !(#[trigger] self.blocks@[k]).free,
                            cur is Some ==> cursor_after_consume(self.blocks@, i as int, cur),
                        decreases n - j,
                    {
                        let c = self.blocks[j];
                        if c.free {
                            cur = Some(c.addr);
                            proof {
                                assert((#[trigger] self.blocks@[j as int]).free
                                    && self.blocks@[j as int].addr == c.addr);
                            }
                        }
                        j = j + 1;
                    }
                    proof {
                        assert(cursor_after_consume(self.blocks@, i as int, cur));
                    }
                    self.cursor = cur;
                    proof {
                        lemma_consume_preserves_wf(*old(self), *final(self), i as int);
                        assert forall|k: int| i < k < old(self).blocks@.len() implies (
                        #[trigger] old(self).blocks@[k]).free == self.blocks@[k].free by {}
                        assert(cursor_after_consume(old(self).blocks@, i as int, self.cursor));
                        assert(allocate_success(
                            *old(self),
                            *final(self),
                            total as int,
                            i as int,
                            b.addr + HEADER_SIZE,
                        ));
                    }
                    Some(b.addr + HEADER_SIZE)
                }
            },
        }
    }

    /// Returns the allocation whose first payload byte is `address` to the
    /// free list.
    ///
    /// The caller must hand back an address obtained from `allocate` and
    /// not yet deallocated; the engine performs no forged-pointer
    /// detection.  The block rejoins the free list at its address position,
    /// fuses with its free physical neighbours (never with an allocated
    /// one: the byte below the freed header then belongs to an allocated
    /// block, whose range ends elsewhere), and the Next-Fit cursor is reset
    /// to the list head so it can never dangle.
    #[verifier::loop_isolation(false)]
    #[verifier::rlimit(100)]
    pub fn deallocate(&mut self, address: usize)
        requires
            old(self).wf(),
            exists|i: int| is_payload_of(old(self).blocks@, address as int, i),
        ensures
            final(self).wf(),
            deallocate_spec(*old(self), *final(self), address as int),
    {
        let n = self.blocks.len();
        let mut scan: usize = 0;
        let mut found = false;
        let mut i: usize = 0;
        // recover the block: its header sits one header below the payload
        while scan < n && !found
            invariant
                scan <= n,
                !found ==> forall|j: int|
                    0 <= j < scan ==> !is_payload_of(self.blocks@, address as int, j),
                found ==> is_payload_of(self.blocks@, address as int, i as int),
            decreases n - scan,
        {
            let b = self.blocks[scan];
            proof {
                lemma_block_in_region(*self, scan as int);
            }
            if !b.free && b.addr + HEADER_SIZE == address {
                found = true;
                i = scan;
            }
            scan = scan + 1;
        }
        proof {
            assert(found);
        }
        let ghost i0 = i as int;
        let ghost s = self.blocks@;
        proof {
            // the freed block is the only one with this payload address
            assert forall|j: int| is_payload_of(s, address as int, j) implies j == i0 by {
                if j != i0 {
                    if j < i0 {
                        lemma_prefix_reach(s, j, i0);
                        assert(block_wf(s[j]));
                    } else {
                        lemma_prefix_reach(s, i0, j);
                        assert(block_wf(s[i0]));
                    }
                }
            }
        }
        let b = self.blocks[i];
        self.blocks.set(i, Block { addr: b.addr, size: b.size, free: true });
        // forward coalescing: absorb a free successor
        if i + 1 < self.blocks.len() && self.blocks[i + 1].free {
            proof {
                lemma_block_in_region(*old(self), i0);
                lemma_block_in_region(*old(self), i0 + 1);
            }
            let cb = self.blocks[i];
            let nb = self.blocks[i + 1];
            self.blocks.set(i, Block { addr: cb.addr, size: cb.size + nb.size, free: true });
            self.blocks.remove(i + 1);
        }
        // backward coalescing: a free predecessor absorbs the block
        if i > 0 && self.blocks[i - 1].free {
            proof {
                lemma_block_in_region(*old(self), i0 - 1);
                lemma_block_in_region(*old(self), i0);
            }
            let pb = self.blocks[i - 1];
            let cb = self.blocks[i];
            self.blocks.set(i - 1, Block { addr: pb.addr, size: pb.size + cb.size, free: true });
            self.blocks.remove(i);
        }
        self.cursor = None;
        proof {
            assert(self.blocks@ =~= merged_blocks(s, i0));
            lemma_merge_preserves_wf(*old(self), *final(self), i0);
        }
    }
}

impl FreeList {
    /// The free list as a vector of nodes, in address order: what a walk
    /// from the list head over the successor links would visit.
    #[verifier::loop_isolation(false)]
    pub fn free_nodes(&self) -> (r: Vec<FreeListNode>)
        ensures
            r@ == self.free_list_view(),
    {
        let n = self.blocks.len();
        let mut r: Vec<FreeListNode> = Vec::new();
        let mut k: usize = 0;
        while k < n
            invariant
                k <= n,
                r@ == free_view(self.blocks@.subrange(0, k as int)),
            decreases n - k,
        {
            let b = self.blocks[k];
            if b.free {
                r.push(FreeListNode { addr: b.addr, size: b.size });
            }
            proof {
                let pre = self.blocks@.subrange(0, k as int);
                let cur = self.blocks@.subrange(0, k as int + 1);
                assert(cur.drop_last() =~= pre);
                assert(cur.last() == self.blocks@[k as int]);
            }
            k = k + 1;
        }
        proof {
            assert(self.blocks@.subrange(0, n as int) =~= self.blocks@);
        }
        r
    }
}

// ============================================================================
// Invariant laws
// ============================================================================

/// Conservation of memory: in a contiguous chain the block sizes telescope,
/// so they sum to the span from the first block's start to the last block's
/// end.
proof fn lemma_sum_contiguous(s: Seq<Block>)
    requires
        contiguous(s),
        s.len() > 0,
    ensures
        sum_sizes(s) == s.last().addr + s.last().size - s[0].addr,
    decreases s.len(),
{
    if s.len() == 1 {
        assert(s.drop_last() =~= Seq::<Block>::empty());
        assert(sum_sizes(Seq::<Block>::empty()) == 0);
        assert(sum_sizes(s) == s.last().size);
    } else {
        let p = s.drop_last();
        assert(contiguous(p)) by {
            assert forall|a: int, c: int|
                #![trigger p[a], p[c]]
                0 <= a && a + 1 == c && c < p.len() implies p[a].addr + p[a].size == p[c].addr by {
                assert(p[a] == s[a]);
                assert(p[c] == s[c]);
            }
        }
        lemma_sum_contiguous(p);
        assert(p[0] == s[0]);
        assert(p.last() == s[s.len() - 2]);
        assert(s[s.len() - 2].addr + s[s.len() - 2].size == s[s.len() - 1].addr);
        assert(sum_sizes(s) == sum_sizes(p) + s.last().size);
    }
}

/// Law: blocks are neither created nor destroyed, only split and merged —
/// at every point the sizes of all blocks, free and allocated, sum to the
/// usable capacity fixed at initialization.
pub proof fn lemma_capacity_conserved(fl: FreeList)
    requires
        fl.wf(),
    ensures
        sum_sizes(fl.blocks@) == fl.capacity,
{
    lemma_sum_contiguous(fl.blocks@);
}

/// Law: distinct blocks never overlap — in particular the payload ranges
/// of any two live allocations are disjoint, each lying inside its own
/// allocated block.
pub proof fn lemma_blocks_disjoint(fl: FreeList, i: int, j: int)
    requires
        fl.wf(),
        0 <= i < fl.blocks@.len(),
        0 <= j < fl.blocks@.len(),
        i != j,
    ensures
        fl.blocks@[i].addr + fl.blocks@[i].size <= fl.blocks@[j].addr || fl.blocks@[j].addr
            + fl.blocks@[j].size <= fl.blocks@[i].addr,
{
    if i < j {
        lemma_prefix_reach(fl.blocks@, i, j);
    } else {
        lemma_prefix_reach(fl.blocks@, j, i);
    }
}

/// Law: once every block is free again — after deallocating every pointer
/// a sequence of allocations returned — the heap has collapsed back to a
/// single free block spanning the whole usable region.
pub proof fn lemma_full_coalescing(fl: FreeList)
    requires
        fl.wf(),
        forall|i: int| 0 <= i < fl.blocks@.len() ==> (#[trigger] fl.blocks@[i]).free,
    ensures
        fl.blocks@ =~= initial_blocks(fl.start_address as int, fl.capacity as int),
        fl.free_list_view() =~= seq![FreeListNode { addr: fl.start_address, size: fl.capacity }],
{
    let s = fl.blocks@;
    if s.len() >= 2 {
        assert(s[0].free);
        assert(s[1].free);
        assert(false);
    }
    assert(s =~= initial_blocks(fl.start_address as int, fl.capacity as int));
    assert(s.drop_last() =~= Seq::<Block>::empty());
    assert(free_view(Seq::<Block>::empty()) =~= Seq::<FreeListNode>::empty());
}

proof fn lemma_free_view_empty(s: Seq<Block>)
    ensures
        free_view(s).len() == 0 <==> forall|i: int| 0 <= i < s.len() ==> !(#[trigger] s[i]).free,
    decreases s.len(),
{
    if s.len() > 0 {
        let p = s.drop_last();
        let m = s.len() - 1;
        lemma_free_view_empty(p);
        assert forall|i: int| 0 <= i < p.len() implies #[trigger] p[i] == s[i] by {}
        if free_view(s).len() == 0 {
            assert(!s[m].free);
            assert(free_view(p).len() == 0);
            assert forall|i: int| 0 <= i < s.len() implies !(#[trigger] s[i]).free by {
                if i < m {
                    assert(!p[i].free);
                }
            }
        }
        if forall|i: int| 0 <= i < s.len() ==> !(#[trigger] s[i]).free {
            assert forall|i: int| 0 <= i < p.len() implies !(#[trigger] p[i]).free by {
                assert(!s[i].free);
            }
            assert(!s[m].free);
            assert(free_view(p).len() == 0);
            assert(free_view(s) == free_view(p));
        }
    }
}

/// Law: the free list is empty exactly when no free memory remains.
pub proof fn lemma_empty_free_list(fl: FreeList)
    ensures
        fl.free_list_view().len() == 0 <==> forall|i: int|
            0 <= i < fl.blocks@.len() ==> !(#[trigger] fl.blocks@[i]).free,
{
    lemma_free_view_empty(fl.blocks@);
}

/// Law: a block serving a request has room for the requested payload
/// between its header and footer — so the payload range behind a pointer
/// `allocate` returns lies inside the consumed block, and pointers from
/// distinct blocks can never overlap.
pub proof fn lemma_payload_within_block(req: int)
    requires
        0 <= req,
    ensures
        HEADER_SIZE + spec_payload_size(req) + FOOTER_SIZE <= spec_total_size(req),
{
    lemma_align_up_props(spec_payload_size(req));
    lemma_total_size_props(req);
}

/// The free view of a chain: consecutive nodes are strictly separated, and
/// a non-empty view ends with the chain's last free block.
proof fn lemma_free_view_props(s: Seq<Block>)
    requires
        contiguous(s),
        blocks_wf(s),
        no_adjacent_free(s),
    ensures
        forall|k: int|
            0 <= k && k + 1 < free_view(s).len() ==> (#[trigger] free_view(s)[k]).addr + free_view(
                s,
            )[k].size < free_view(s)[k + 1].addr,
        free_view(s).len() > 0 ==> exists|i: int|
            0 <= i < s.len() && (#[trigger] s[i]).free && free_view(s).last() == (FreeListNode {
                addr: s[i].addr,
                size: s[i].size,
            }) && (forall|j: int| i < j < s.len() ==> !(#[trigger] s[j]).free),
    decreases s.len(),
{
    if s.len() > 0 {
        let m = s.len() - 1;
        let p = s.drop_last();
        assert forall|a: int| 0 <= a < p.len() implies #[trigger] p[a] == s[a] by {}
        assert(contiguous(p)) by {
            assert forall|a: int, c: int|
                #![trigger p[a], p[c]]
                0 <= a && a + 1 == c && c < p.len() implies p[a].addr + p[a].size == p[c].addr by {
                assert(s[a].addr + s[a].size == s[c].addr);
            }
        }
        assert(blocks_wf(p));
        assert(no_adjacent_free(p)) by {
            assert forall|a: int, c: int|
                #![trigger p[a], p[c]]
                0 <= a && a + 1 == c && c < p.len() implies !(p[a].free && p[c].free) by {
                assert(!(s[a].free && s[c].free));
            }
        }
        lemma_free_view_props(p);
        let v = free_view(s);
        let vp = free_view(p);
        if s.last().free {
            let nd = FreeListNode { addr: s[m].addr, size: s[m].size };
            assert(v == vp.push(nd));
            if vp.len() > 0 {
                let i = choose|i: int|
                    0 <= i < p.len() && (#[trigger] p[i]).free && vp.last() == (FreeListNode {
                        addr: p[i].addr,
                        size: p[i].size,
                    }) && (forall|j: int| i < j < p.len() ==> !(#[trigger] p[j]).free);
                // the previous last free block cannot touch the new one
                assert(i < m - 1) by {
                    if i == m - 1 {
                        assert(!(s[m - 1].free && s[m].free));
                    }
                }
                lemma_prefix_reach(s, i, m - 1);
                assert(s[m - 1].addr + s[m - 1].size == s[m].addr);
                assert(block_wf(s[m - 1]));
                assert(s[i].addr + s[i].size < s[m].addr);
                assert forall|k: int|
                    0 <= k && k + 1 < v.len() implies (#[trigger] v[k]).addr + v[k].size < v[k
                    + 1].addr by {
                    if k + 1 < vp.len() {
                        assert(v[k] == vp[k]);
                        assert(v[k + 1] == vp[k + 1]);
                    } else {
                        assert(v[k] == vp.last());
                        assert(v[k + 1] == nd);
                    }
                }
            }
            assert(0 <= m < s.len() && s[m].free && v.last() == nd && (forall|j: int|
                m < j < s.len() ==> !(#[trigger] s[j]).free));
        } else {
            assert(v == vp);
            if v.len() > 0 {
                let i = choose|i: int|
                    0 <= i < p.len() && (#[trigger] p[i]).free && vp.last() == (FreeListNode {
                        addr: p[i].addr,
                        size: p[i].size,
                    }) && (forall|j: int| i < j < p.len() ==> !(#[trigger] p[j]).free);
                assert(0 <= i < s.len() && s[i].free && v.last() == (FreeListNode {
                    addr: s[i].addr,
                    size: s[i].size,
                }) && (forall|j: int| i < j < s.len() ==> !(#[trigger] s[j]).free)) by {
                    assert forall|j: int| i < j < s.len() implies !(#[trigger] s[j]).free by {
                        if j < m {
                            assert(!p[j].free);
                        }
                    }
                }
            }
        }
    }
}

/// Law: the free list is strictly address-ordered and holds no two
/// address-adjacent blocks — each node ends strictly below the next node's
/// start.
pub proof fn lemma_free_list_ordered(fl: FreeList)
    requires
        fl.wf(),
    ensures
        forall|k: int|
            0 <= k && k + 1 < fl.free_list_view().len() ==> (#[trigger] fl.free_list_view()[k]).addr
                + fl.free_list_view()[k].size < fl.free_list_view()[k + 1].addr,
{
    lemma_free_view_props(fl.blocks@);
}

} // verus!
