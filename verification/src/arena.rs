//! The node arena: one flat store of memory cells with two complementary
//! allocation disciplines sharing the address space.
//!
//! The variable-size region grows from the low boundary and serves
//! multi-cell records through a free list of address-sorted, fully
//! coalesced blocks; the single-cell region grows downward from the high
//! boundary and serves one-cell records through a plain free stack.  The
//! gap between the two boundaries belongs to whichever region reaches it
//! first.  Out-of-memory is a hard condition surfaced to the caller, never
//! retried internally.
//!
//! A handful of cells at both ends of the store are permanently allocated
//! ("static" glue specifications low, list heads high) and are live from
//! the start.

use vstd::prelude::*;
use crate::word::MemoryWord;
use crate::TexError;

verus! {

/// Smallest and largest valid cell address.
pub const MEM_MIN: u16 = 0;
pub const MEM_MAX: u16 = 30000;

/// The boundaries the two regions grow from.
pub const MEM_BOT: u16 = 0;
pub const MEM_TOP: u16 = 30000;

/// Number of cells a glue specification occupies.
pub const GLUE_SPEC_SIZE: u16 = 4;

// The permanently allocated glue specifications at the bottom of the
// variable-size region.
pub const ZERO_GLUE: u16 = MEM_BOT;
pub const FIL_GLUE: u16 = ZERO_GLUE + GLUE_SPEC_SIZE;
pub const FILL_GLUE: u16 = FIL_GLUE + GLUE_SPEC_SIZE;
pub const SS_GLUE: u16 = FILL_GLUE + GLUE_SPEC_SIZE;
pub const FIL_NEG_GLUE: u16 = SS_GLUE + GLUE_SPEC_SIZE;
/// Largest statically allocated cell of the variable-size region.
pub const LO_MEM_STAT_MAX: u16 = FIL_NEG_GLUE + GLUE_SPEC_SIZE - 1;

// The permanently allocated list heads at the top of the one-cell region.
pub const PAGE_INS_HEAD: u16 = MEM_TOP;
pub const CONTRIB_HEAD: u16 = MEM_TOP - 1;
pub const PAGE_HEAD: u16 = MEM_TOP - 2;
pub const TEMP_HEAD: u16 = MEM_TOP - 3;
pub const HOLD_HEAD: u16 = MEM_TOP - 4;
pub const ADJUST_HEAD: u16 = MEM_TOP - 5;
pub const ACTIVE_NODE: u16 = MEM_TOP - 7;
pub const ALIGN_HEAD: u16 = MEM_TOP - 8;
pub const END_SPAN: u16 = MEM_TOP - 9;
pub const OMIT_TEMPLATE: u16 = MEM_TOP - 10;
pub const NULL_LIST: u16 = MEM_TOP - 11;
pub const LIG_TRICK: u16 = MEM_TOP - 12;
pub const GARBAGE: u16 = MEM_TOP - 12;
pub const BACKUP_HEAD: u16 = MEM_TOP - 13;
/// Smallest statically allocated cell of the one-cell region.
pub const HI_MEM_STAT_MIN: u16 = MEM_TOP - 13;
/// Number of one-cell nodes always present.
pub const HI_MEM_STAT_USAGE: u16 = 14;

/// The null pointer: address 0 is never handed out.
pub const NULL: u16 = 0;

/// Whether address `a` lies in some block of the free list.
pub open spec fn in_free_list(s: Seq<(u16, u16)>, a: int) -> bool {
    exists|i: int| 0 <= i < s.len() && (#[trigger] s[i]).0 <= a < s[i].0 + s[i].1
}

/// Total number of cells the free list holds.
pub open spec fn free_cells(s: Seq<(u16, u16)>) -> int
    decreases s.len(),
{
    if s.len() == 0 {
        0int
    } else {
        free_cells(s.drop_last()) + s.last().1
    }
}

/// The free-list blocks are nonempty, lie strictly between the static
/// bottom area and `lo_bound` inclusive, and are address-sorted with a gap
/// of at least one live cell between consecutive blocks (so the list is
/// always fully coalesced).
pub open spec fn blocks_wf(s: Seq<(u16, u16)>, lo_bound: int) -> bool {
    &&& forall|i: int|
        0 <= i < s.len() ==> LO_MEM_STAT_MAX < (#[trigger] s[i]).0 && s[i].0 + s[i].1 <= lo_bound
            + 1 && s[i].1 >= 1
    &&& forall|i: int| 0 <= i < s.len() - 1 ==> (#[trigger] s[i]).0 + s[i].1 < s[i + 1].0
}

/// The set of cell addresses of `[lo, hi)`.
pub open spec fn range_set(lo: int, hi: int) -> Set<int> {
    Set::new(|a: int| lo <= a < hi)
}

/// What a bulk-loaded arena snapshot must satisfy: the full store, sane
/// region boundaries, a well-formed free list, and a free stack of
/// distinct ordinary one-cell addresses.
pub open spec fn import_valid(
    cells: Seq<MemoryWord>,
    lo: u16,
    hi: u16,
    blocks: Seq<(u16, u16)>,
    avail: Seq<u16>,
) -> bool {
    &&& cells.len() == MEM_MAX + 1
    &&& LO_MEM_STAT_MAX <= lo
    &&& lo < hi
    &&& hi <= HI_MEM_STAT_MIN
    &&& blocks_wf(blocks, lo as int)
    &&& forall|i: int| 0 <= i < avail.len() ==> hi <= (#[trigger] avail[i]) < HI_MEM_STAT_MIN
    &&& forall|i: int, j: int| 0 <= i < j < avail.len() ==> avail[i] != avail[j]
}

/// In a well-formed free list every earlier block ends strictly before a
/// later block starts.
pub proof fn lemma_block_order(s: Seq<(u16, u16)>, lo_bound: int, i: int, j: int)
    requires
        blocks_wf(s, lo_bound),
        0 <= i < j < s.len(),
    ensures
        s[i].0 + s[i].1 < s[j].0,
    decreases j - i,
{
    if j > i + 1 {
        lemma_block_order(s, lo_bound, i, j - 1);
    }
}

/// A cell lies in at most one block of a well-formed free list.
pub proof fn lemma_blocks_disjoint(s: Seq<(u16, u16)>, lo_bound: int, i: int, j: int, a: int)
    requires
        blocks_wf(s, lo_bound),
        0 <= i < s.len(),
        0 <= j < s.len(),
        s[i].0 <= a < s[i].0 + s[i].1,
        s[j].0 <= a < s[j].0 + s[j].1,
    ensures
        i == j,
{
    if i < j {
        lemma_block_order(s, lo_bound, i, j);
    }
    if j < i {
        lemma_block_order(s, lo_bound, j, i);
    }
}

/// The free list of a well-formed arena never holds more cells than lie
/// between the static bottom area and the variable region's top.
pub proof fn lemma_free_cells_bound(s: Seq<(u16, u16)>, lo_bound: int)
    requires
        blocks_wf(s, lo_bound),
        LO_MEM_STAT_MAX <= lo_bound,
    ensures
        0 <= free_cells(s) <= lo_bound - LO_MEM_STAT_MAX,
    decreases s.len(),
{
    if s.len() > 0 {
        let pre = s.drop_last();
        let last = s.last();
        if pre.len() == 0 {
            assert(free_cells(pre) == 0);
        } else {
            assert forall|i: int|
                0 <= i < pre.len() implies LO_MEM_STAT_MAX < (#[trigger] pre[i]).0 && pre[i].0
                + pre[i].1 <= (last.0 - 2) + 1 && pre[i].1 >= 1 by {
                assert(pre[i] == s[i]);
                lemma_block_order(s, lo_bound, i, s.len() - 1);
            }
            assert forall|i: int|
                0 <= i < pre.len() - 1 implies (#[trigger] pre[i]).0 + pre[i].1 < pre[i + 1].0 by {
                assert(pre[i] == s[i]);
                assert(pre[i + 1] == s[i + 1]);
            }
            assert(blocks_wf(pre, last.0 - 2));
            assert(pre.last() == s[s.len() - 2]);
            assert(LO_MEM_STAT_MAX < pre.last().0);
            assert(pre.last().0 + pre.last().1 <= last.0 - 1);
            assert(LO_MEM_STAT_MAX <= last.0 - 2);
            lemma_free_cells_bound(pre, last.0 - 2);
        }
    }
}

/// Law: freeing exactly what was allocated restores the free space.  An
/// allocation removes its run from the free set and the matching free adds
/// it back, so after freeing everything that was allocated the free set —
/// and with it the total number of free cells — is what it was at the
/// start.
pub proof fn lemma_alloc_free_round_trip(free: Set<int>, run: Set<int>)
    requires
        run.subset_of(free),
    ensures
        free.difference(run).union(run) == free,
{
    assert(free.difference(run).union(run) =~= free);
}

/// Law: no two live allocations overlap.  Every allocation is drawn from
/// the free set of its moment and removed from it, so a later allocation
/// can never share a cell with an earlier one that is still live.
pub proof fn lemma_allocations_disjoint(free: Set<int>, r1: Set<int>, r2: Set<int>)
    requires
        r1.subset_of(free),
        r2.subset_of(free.difference(r1)),
    ensures
        r1.disjoint(r2),
{
    assert forall|x: int| r1.contains(x) implies !r2.contains(x) by {
        if r2.contains(x) {
            assert(free.difference(r1).contains(x));
        }
    }
}

/// One step of an allocator history: taking a run from the free space or
/// returning one to it.
pub enum AllocEvent {
    Allocate { p: u16, size: u16 },
    Free { p: u16, size: u16 },
}

/// The cells of the run of `size` cells starting at `p`.
pub open spec fn run_set(p: u16, size: u16) -> Set<int> {
    range_set(p as int, p + size)
}

/// Whether one event is legal: an allocation draws its run whole from the
/// current free space (as `allocate_variable` ensures of the run it
/// returns), and a free returns a currently live run (what the caller
/// freeing only what it allocated amounts to).
pub open spec fn step_ok(f: Set<int>, live: Set<(u16, u16)>, e: AllocEvent) -> bool {
    match e {
        AllocEvent::Allocate { p, size } => run_set(p, size).subset_of(f),
        AllocEvent::Free { p, size } => live.contains((p, size)),
    }
}

/// The free space and the live runs after one event, matching the free-set
/// transitions `allocate_variable` and `free_variable` ensure.
pub open spec fn step_state(f: Set<int>, live: Set<(u16, u16)>, e: AllocEvent) -> (
    Set<int>,
    Set<(u16, u16)>,
) {
    match e {
        AllocEvent::Allocate { p, size } => (
            f.difference(run_set(p, size)),
            live.insert((p, size)),
        ),
        AllocEvent::Free { p, size } => (f.union(run_set(p, size)), live.remove((p, size))),
    }
}

/// Whether a whole history is legal, step by step.
pub open spec fn trace_ok(f: Set<int>, live: Set<(u16, u16)>, es: Seq<AllocEvent>) -> bool
    decreases es.len(),
{
    es.len() == 0 || (step_ok(f, live, es[0]) && trace_ok(
        step_state(f, live, es[0]).0,
        step_state(f, live, es[0]).1,
        es.skip(1),
    ))
}

/// The free space and the live runs after a whole history.
pub open spec fn trace_state(f: Set<int>, live: Set<(u16, u16)>, es: Seq<AllocEvent>) -> (
    Set<int>,
    Set<(u16, u16)>,
)
    decreases es.len(),
{
    if es.len() == 0 {
        (f, live)
    } else {
        trace_state(step_state(f, live, es[0]).0, step_state(f, live, es[0]).1, es.skip(1))
    }
}

/// The cells of all live runs together.
pub open spec fn live_cells(live: Set<(u16, u16)>) -> Set<int> {
    Set::new(
        |a: int|
            exists|r: (u16, u16)| #[trigger] live.contains(r) && run_set(r.0, r.1).contains(a),
    )
}

/// The allocator-history invariant: the free space and the live runs
/// together cover exactly the starting free space, no live run overlaps
/// the free space, and no two live runs overlap.
pub open spec fn trace_inv(f0: Set<int>, f: Set<int>, live: Set<(u16, u16)>) -> bool {
    &&& f.union(live_cells(live)) == f0
    &&& forall|r: (u16, u16)| #[trigger] live.contains(r) ==> run_set(r.0, r.1).disjoint(f)
    &&& forall|r1: (u16, u16), r2: (u16, u16)|
        #[trigger] live.contains(r1) && #[trigger] live.contains(r2) && r1 != r2 ==> run_set(
            r1.0,
            r1.1,
        ).disjoint(run_set(r2.0, r2.1))
}

/// The invariant holds before anything is allocated.
pub proof fn lemma_trace_start(f0: Set<int>)
    ensures
        trace_inv(f0, f0, Set::<(u16, u16)>::empty()),
{
    assert(f0.union(live_cells(Set::<(u16, u16)>::empty())) =~= f0);
}

/// Law (no two live allocations overlap): one legal event preserves the
/// allocator-history invariant — in particular, a run just allocated is
/// disjoint from every run still live.
pub proof fn lemma_trace_step(f0: Set<int>, f: Set<int>, live: Set<(u16, u16)>, e: AllocEvent)
    requires
        trace_inv(f0, f, live),
        step_ok(f, live, e),
    ensures
        trace_inv(f0, step_state(f, live, e).0, step_state(f, live, e).1),
{
    match e {
        AllocEvent::Allocate { p, size } => {
            let run = run_set(p, size);
            let f2 = f.difference(run);
            let live2 = live.insert((p, size));
            assert forall|a: int| #[trigger]
                f2.union(live_cells(live2)).contains(a) implies f0.contains(a) by {
                if live_cells(live2).contains(a) {
                    let r = choose|r: (u16, u16)| #[trigger]
                        live2.contains(r) && run_set(r.0, r.1).contains(a);
                    if r == (p, size) {
                        assert(f.contains(a));
                    } else {
                        assert(live.contains(r));
                        assert(live_cells(live).contains(a));
                    }
                }
                assert(f.union(live_cells(live)).contains(a));
            }
            assert forall|a: int| f0.contains(a) implies #[trigger]
                f2.union(live_cells(live2)).contains(a) by {
                assert(f.union(live_cells(live)).contains(a));
                if f.contains(a) {
                    if run.contains(a) {
                        assert(live2.contains((p, size)));
                        assert(live_cells(live2).contains(a));
                    }
                } else {
                    let r = choose|r: (u16, u16)| #[trigger]
                        live.contains(r) && run_set(r.0, r.1).contains(a);
                    assert(live2.contains(r));
                    assert(live_cells(live2).contains(a));
                }
            }
            assert(f2.union(live_cells(live2)) =~= f0);
            assert forall|r: (u16, u16)| #[trigger]
                live2.contains(r) implies run_set(r.0, r.1).disjoint(f2) by {
                if r == (p, size) {
                    assert forall|a: int| run_set(r.0, r.1).contains(a) implies !f2.contains(
                        a,
                    ) by {}
                } else {
                    assert(live.contains(r));
                    assert forall|a: int| run_set(r.0, r.1).contains(a) implies !f2.contains(
                        a,
                    ) by {
                        assert(run_set(r.0, r.1).disjoint(f));
                    }
                }
            }
            assert forall|r1: (u16, u16), r2: (u16, u16)|
                #[trigger] live2.contains(r1) && #[trigger] live2.contains(r2) && r1
                    != r2 implies run_set(r1.0, r1.1).disjoint(run_set(r2.0, r2.1)) by {
                if r1 == (p, size) {
                    assert(live.contains(r2));
                    assert forall|a: int| run_set(r1.0, r1.1).contains(a) implies !run_set(
                        r2.0,
                        r2.1,
                    ).contains(a) by {
                        assert(f.contains(a));
                        assert(run_set(r2.0, r2.1).disjoint(f));
                    }
                } else if r2 == (p, size) {
                    assert(live.contains(r1));
                    assert forall|a: int| run_set(r1.0, r1.1).contains(a) implies !run_set(
                        r2.0,
                        r2.1,
                    ).contains(a) by {
                        assert(run_set(r1.0, r1.1).disjoint(f));
                    }
                } else {
                    assert(live.contains(r1));
                    assert(live.contains(r2));
                }
            }
        },
        AllocEvent::Free { p, size } => {
            let run = run_set(p, size);
            let f2 = f.union(run);
            let live2 = live.remove((p, size));
            assert forall|a: int| #[trigger]
                f2.union(live_cells(live2)).contains(a) implies f0.contains(a) by {
                if live_cells(live2).contains(a) {
                    let r = choose|r: (u16, u16)| #[trigger]
                        live2.contains(r) && run_set(r.0, r.1).contains(a);
                    assert(live.contains(r));
                    assert(live_cells(live).contains(a));
                }
                if run.contains(a) {
                    assert(live_cells(live).contains(a));
                }
                assert(f.union(live_cells(live)).contains(a));
            }
            assert forall|a: int| f0.contains(a) implies #[trigger]
                f2.union(live_cells(live2)).contains(a) by {
                assert(f.union(live_cells(live)).contains(a));
                if !f.contains(a) {
                    let r = choose|r: (u16, u16)| #[trigger]
                        live.contains(r) && run_set(r.0, r.1).contains(a);
                    if r == (p, size) {
                        assert(f2.contains(a));
                    } else {
                        assert(live2.contains(r));
                        assert(live_cells(live2).contains(a));
                    }
                }
            }
            assert(f2.union(live_cells(live2)) =~= f0);
            assert forall|r: (u16, u16)| #[trigger]
                live2.contains(r) implies run_set(r.0, r.1).disjoint(f2) by {
                assert(live.contains(r));
                assert forall|a: int| run_set(r.0, r.1).contains(a) implies !f2.contains(a) by {
                    assert(run_set(r.0, r.1).disjoint(f));
                    assert(run_set(r.0, r.1).disjoint(run));
                }
            }
        },
    }
}

/// Law (allocator round trip over any history): after any legal sequence
/// of variable-size allocations and frees, the invariant still holds; and
/// if the history freed everything it allocated, the free space — and so
/// the total number of free cells — is exactly what it started as.
pub proof fn lemma_trace_round_trip(
    f0: Set<int>,
    f: Set<int>,
    live: Set<(u16, u16)>,
    es: Seq<AllocEvent>,
)
    requires
        trace_inv(f0, f, live),
        trace_ok(f, live, es),
    ensures
        trace_inv(f0, trace_state(f, live, es).0, trace_state(f, live, es).1),
        trace_state(f, live, es).1 == Set::<(u16, u16)>::empty() ==> trace_state(f, live, es).0
            == f0,
    decreases es.len(),
{
    if es.len() == 0 {
        if live == Set::<(u16, u16)>::empty() {
            assert(live_cells(live) =~= Set::<int>::empty());
            assert(f.union(live_cells(live)) =~= f);
        }
    } else {
        lemma_trace_step(f0, f, live, es[0]);
        lemma_trace_round_trip(
            f0,
            step_state(f, live, es[0]).0,
            step_state(f, live, es[0]).1,
            es.skip(1),
        );
    }
}

/// Law: adjacent free runs coalesce.  Because the free list is always
/// fully coalesced, any contiguous run of free cells — for instance two
/// address-adjacent freed blocks — lies inside one single block, whose
/// size is at least the run's length; an allocation of the combined size
/// therefore succeeds.
pub proof fn lemma_coalesced_run(s: Seq<(u16, u16)>, lo_bound: int, a: int, b: int)
    requires
        blocks_wf(s, lo_bound),
        a < b,
        forall|x: int| a <= x < b ==> in_free_list(s, x),
    ensures
        exists|i: int|
            0 <= i < s.len() && (#[trigger] s[i]).0 <= a && b <= s[i].0 + s[i].1 && s[i].1 >= b
                - a,
{
    assert(in_free_list(s, a));
    let i = choose|i: int| 0 <= i < s.len() && (#[trigger] s[i]).0 <= a < s[i].0 + s[i].1;
    let e = s[i].0 + s[i].1;
    if e < b {
        assert(in_free_list(s, e));
        let j = choose|j: int| 0 <= j < s.len() && (#[trigger] s[j]).0 <= e < s[j].0 + s[j].1;
        if i < j {
            lemma_block_order(s, lo_bound, i, j);
        } else if j < i {
            lemma_block_order(s, lo_bound, j, i);
        }
        assert(false);
    }
    assert(s[i].0 <= a && b <= s[i].0 + s[i].1 && s[i].1 >= b - a);
}

/// Law: a one-cell allocation immediately freed leaves the set of cells in
/// use exactly as it was; repeated allocate/free of one cell has no
/// lasting effect.
pub proof fn lemma_single_cell_round_trip(in_use: Set<int>, p: int)
    requires
        !in_use.contains(p),
    ensures
        in_use.insert(p).remove(p) == in_use,
{
    assert(in_use.insert(p).remove(p) =~= in_use);
}

/// The arena.
pub struct NodeArena {
    mem: Vec<MemoryWord>,
    lo_mem_max: u16,
    hi_mem_min: u16,
    mem_end: u16,
    free_blocks: Vec<(u16, u16)>,
    avail: Vec<u16>,
}

impl NodeArena {
    /// The cells.
    pub closed spec fn cells(&self) -> Seq<MemoryWord> {
        self.mem@
    }

    /// Highest address the variable-size region has used.
    pub closed spec fn lo_max(&self) -> u16 {
        self.lo_mem_max
    }

    /// Lowest address the one-cell region has used.
    pub closed spec fn hi_min(&self) -> u16 {
        self.hi_mem_min
    }

    /// Last usable address.
    pub closed spec fn end(&self) -> u16 {
        self.mem_end
    }

    /// The variable-region free list.
    pub closed spec fn free_list(&self) -> Seq<(u16, u16)> {
        self.free_blocks@
    }

    /// The one-cell free stack.
    pub closed spec fn avail_list(&self) -> Seq<u16> {
        self.avail@
    }

    /// Every cell address currently free for variable-size allocation:
    /// the free-list blocks together with the untouched gap between the
    /// two regions.
    pub open spec fn var_free_set(&self) -> Set<int> {
        Set::new(
            |a: int|
                in_free_list(self.free_list(), a) || (self.lo_max() < a < self.hi_min()),
        )
    }

    /// Every one-cell address currently in use (the static heads
    /// included): the one-cell region minus the free stack.
    pub open spec fn single_in_use(&self) -> Set<int> {
        Set::new(
            |a: int|
                self.hi_min() <= a <= self.end() && !self.avail_list().contains(a as u16),
        )
    }

    /// Whether `a` is a live cell: a variable-region address not on the
    /// free list, or a one-cell address in use.
    pub open spec fn live(&self, a: int) -> bool {
        ||| (0 <= a <= self.lo_max() && !in_free_list(self.free_list(), a))
        ||| self.single_in_use().contains(a)
    }

    pub open spec fn wf(&self) -> bool {
        &&& self.cells().len() == MEM_MAX + 1
        &&& LO_MEM_STAT_MAX <= self.lo_max()
        &&& self.lo_max() < self.hi_min()
        &&& self.hi_min() <= HI_MEM_STAT_MIN
        &&& self.end() == MEM_TOP
        &&& blocks_wf(self.free_list(), self.lo_max() as int)
        &&& forall|i: int|
            0 <= i < self.avail_list().len() ==> self.hi_min()
                <= (#[trigger] self.avail_list()[i]) < HI_MEM_STAT_MIN
        &&& forall|i: int, j: int|
            0 <= i < j < self.avail_list().len() ==> self.avail_list()[i] != self.avail_list()[j]
    }

    /// A fresh arena: all cells zero, both regions holding only their
    /// static cells, everything between them free.
    pub fn new() -> (r: NodeArena)
        ensures
            r.wf(),
            r.lo_max() == LO_MEM_STAT_MAX,
            r.hi_min() == HI_MEM_STAT_MIN,
            r.end() == MEM_TOP,
            r.free_list() == Seq::<(u16, u16)>::empty(),
            r.avail_list() == Seq::<u16>::empty(),
            forall|a: int| 0 <= a <= MEM_MAX ==> r.cells()[a] == (MemoryWord {
                b0: 0,
                b1: 0,
                b2: 0,
                b3: 0,
            }),
    {
        let mut mem: Vec<MemoryWord> = Vec::new();
        let total: usize = MEM_MAX as usize + 1;
        let mut k: usize = 0;
        while k < total
            invariant
                k <= total,
                mem@.len() == k,
                forall|j: int| 0 <= j < k ==> mem@[j] == (MemoryWord { b0: 0, b1: 0, b2: 0, b3: 0 }),
            decreases total - k,
        {
            mem.push(MemoryWord { b0: 0, b1: 0, b2: 0, b3: 0 });
            k = k + 1;
        }
        NodeArena {
            mem,
            lo_mem_max: LO_MEM_STAT_MAX,
            hi_mem_min: HI_MEM_STAT_MIN,
            mem_end: MEM_TOP,
            free_blocks: Vec::new(),
            avail: Vec::new(),
        }
    }

    /// Reads a cell by address; only live cells may be read.
    pub fn get(&self, addr: u16) -> (r: Result<MemoryWord, TexError>)
        requires
            self.wf(),
        ensures
            self.live(addr as int) ==> r == Ok::<MemoryWord, TexError>(self.cells()[addr as int]),
            !self.live(addr as int) ==> r == Err::<MemoryWord, TexError>(TexError::InvalidAddress),
    {
        if self.is_live(addr) {
            Ok(self.mem[addr as usize])
        } else {
            Err(TexError::InvalidAddress)
        }
    }

    /// Writes a cell by address; only live cells may be written, so the
    /// allocator's own bookkeeping can never be corrupted through `set`.
    pub fn set(&mut self, addr: u16, w: MemoryWord) -> (r: Result<(), TexError>)
        requires
            old(self).wf(),
        ensures
            final(self).wf(),
            old(self).live(addr as int) ==> {
                &&& r == Ok::<(), TexError>(())
                &&& final(self).cells() == old(self).cells().update(addr as int, w)
            },
            !old(self).live(addr as int) ==> {
                &&& r == Err::<(), TexError>(TexError::InvalidAddress)
                &&& *final(self) == *old(self)
            },
            final(self).lo_max() == old(self).lo_max(),
            final(self).hi_min() == old(self).hi_min(),
            final(self).end() == old(self).end(),
            final(self).free_list() == old(self).free_list(),
            final(self).avail_list() == old(self).avail_list(),
    {
        if self.is_live(addr) {
            self.mem[addr as usize] = w;
            proof {
                // only the cells changed: the allocator structures are intact
                assert(final(self).free_list() == old(self).free_list());
                assert(final(self).avail_list() == old(self).avail_list());
                assert(blocks_wf(final(self).free_list(), final(self).lo_max() as int));
            }
            Ok(())
        } else {
            Err(TexError::InvalidAddress)
        }
    }

    /// Reads a cell known to be live.
    pub fn cell(&self, addr: u16) -> (r: MemoryWord)
        requires
            self.wf(),
            self.live(addr as int),
        ensures
            r == self.cells()[addr as int],
    {
        self.mem[addr as usize]
    }

    /// Writes a cell known to be live.
    pub fn cell_write(&mut self, addr: u16, w: MemoryWord)
        requires
            old(self).wf(),
            old(self).live(addr as int),
        ensures
            final(self).wf(),
            final(self).cells() == old(self).cells().update(addr as int, w),
            final(self).lo_max() == old(self).lo_max(),
            final(self).hi_min() == old(self).hi_min(),
            final(self).end() == old(self).end(),
            final(self).free_list() == old(self).free_list(),
            final(self).avail_list() == old(self).avail_list(),
            final(self).var_free_set() == old(self).var_free_set(),
            final(self).single_in_use() == old(self).single_in_use(),
            forall|a: int| old(self).live(a) ==> final(self).live(a),
    {
        self.mem[addr as usize] = w;
        proof {
            assert(final(self).var_free_set() =~= old(self).var_free_set());
            assert(final(self).single_in_use() =~= old(self).single_in_use());
        }
    }

    /// Decides at runtime whether an address is live.
    fn is_live(&self, addr: u16) -> (r: bool)
        requires
            self.wf(),
        ensures
            r <==> self.live(addr as int),
    {
        if addr <= self.lo_mem_max {
            let in_free = self.addr_in_free_list(addr);
            !in_free
        } else if self.hi_mem_min <= addr && addr <= self.mem_end {
            let in_avail = self.addr_in_avail(addr);
            proof {
                if !self.avail_list().contains(addr) {
                    assert(self.single_in_use().contains(addr as int));
                }
            }
            !in_avail
        } else {
            false
        }
    }

    /// Scans the free list for an address.
    fn addr_in_free_list(&self, addr: u16) -> (r: bool)
        requires
            self.wf(),
        ensures
            r <==> in_free_list(self.free_list(), addr as int),
    {
        let n = self.free_blocks.len();
        let mut i: usize = 0;
        while i < n
            invariant
                n == self.free_list().len(),
                i <= n,
                forall|j: int|
                    0 <= j < i ==> !((#[trigger] self.free_list()[j]).0 <= addr as int
                        && (addr as int) < self.free_list()[j].0 + self.free_list()[j].1),
            decreases n - i,
        {
            let (a, s) = self.free_blocks[i];
            if a <= addr && (addr as u32) < a as u32 + s as u32 {
                proof {
                    assert(in_free_list(self.free_list(), addr as int));
                }
                return true;
            }
            i = i + 1;
        }
        false
    }

    /// Scans the one-cell free stack for an address.
    fn addr_in_avail(&self, addr: u16) -> (r: bool)
        ensures
            r <==> self.avail_list().contains(addr),
    {
        let n = self.avail.len();
        let mut i: usize = 0;
        while i < n
            invariant
                n == self.avail_list().len(),
                i <= n,
                forall|j: int| 0 <= j < i ==> self.avail_list()[j] != addr,
            decreases n - i,
        {
            if self.avail[i] == addr {
                return true;
            }
            i = i + 1;
        }
        false
    }

    /// Takes one cell from the one-cell region: the most recently freed
    /// cell if any, else the next untouched cell below the region's
    /// current bottom.  Fails with `OutOfMemory`, changing nothing, when
    /// the free stack is empty and the gap between the regions is gone.
    pub fn allocate_single(&mut self) -> (r: Result<u16, TexError>)
        requires
            old(self).wf(),
        ensures
            final(self).wf(),
            final(self).cells() == old(self).cells(),
            final(self).lo_max() == old(self).lo_max(),
            final(self).end() == old(self).end(),
            final(self).free_list() == old(self).free_list(),
            old(self).avail_list().len() > 0 || old(self).hi_min() - 1 > old(self).lo_max() ==> {
                &&& r matches Ok(p)
                &&& old(self).hi_min() <= r->Ok_0 + 1 && r->Ok_0 < HI_MEM_STAT_MIN
                &&& !old(self).single_in_use().contains(r->Ok_0 as int)
                &&& final(self).single_in_use() == old(self).single_in_use().insert(r->Ok_0 as int)
                &&& final(self).var_free_set() == old(self).var_free_set().remove(r->Ok_0 as int)
                &&& final(self).hi_min() <= old(self).hi_min()
            },
            !(old(self).avail_list().len() > 0 || old(self).hi_min() - 1 > old(self).lo_max())
                ==> r == Err::<u16, TexError>(TexError::OutOfMemory) && *final(self) == *old(self),
    {
        if self.avail.len() == 0 {
            if self.hi_mem_min - 1 > self.lo_mem_max {
                self.hi_mem_min = self.hi_mem_min - 1;
                let p = self.hi_mem_min;
                proof {
                    assert(final(self).single_in_use() =~= old(self).single_in_use().insert(
                        p as int,
                    ));
                    assert(final(self).var_free_set() =~= old(self).var_free_set().remove(
                        p as int,
                    ));
                }
                return Ok(p);
            } else {
                return Err(TexError::OutOfMemory);
            }
        }
        let popped = self.avail.pop();
        match popped {
            Some(p) => {
                proof {
                    let pre = old(self).avail_list();
                    assert(pre.len() > 0);
                    assert(p == pre.last());
                    assert(self.avail_list() =~= pre.drop_last());
                    assert(!old(self).single_in_use().contains(p as int));
                    assert forall|i: int, j: int|
                        0 <= i < j < self.avail_list().len() implies self.avail_list()[i]
                        != self.avail_list()[j] by {
                        assert(self.avail_list()[i] == pre[i]);
                        assert(self.avail_list()[j] == pre[j]);
                    }
                    assert forall|a: int|
                        final(self).single_in_use().contains(a) <==> old(
                            self,
                        ).single_in_use().insert(p as int).contains(a) by {
                        if old(self).hi_min() <= a <= old(self).end() {
                            let au = a as u16;
                            if self.avail_list().contains(au) {
                                let i = choose|i: int|
                                    0 <= i < self.avail_list().len() && self.avail_list()[i]
                                        == au;
                                assert(pre[i] == au);
                                assert(pre.contains(au));
                            }
                            if a != p && pre.contains(au) {
                                let i = choose|i: int| 0 <= i < pre.len() && pre[i] == au;
                                if i == pre.len() - 1 {
                                    assert(au == p);
                                } else {
                                    assert(self.avail_list()[i] == au);
                                    assert(self.avail_list().contains(au));
                                }
                            }
                        }
                    }
                    assert(final(self).single_in_use() =~= old(self).single_in_use().insert(
                        p as int,
                    ));
                    assert(final(self).var_free_set() =~= old(self).var_free_set().remove(
                        p as int,
                    ));
                }
                Ok(p)
            },
            None => {
                proof {
                    assert(false);
                }
                Err(TexError::OutOfMemory)
            },
        }
    }

    /// Takes a run of `size` consecutive cells from the variable-size
    /// region: the best-fitting free block is found and shrunk (or removed
    /// when it fits exactly); when no block is large enough the region
    /// grows into the gap between the regions.  Fails with `OutOfMemory`,
    /// changing nothing, when neither is possible.
    #[verifier::rlimit(100)]
    pub fn allocate_variable(&mut self, size: u16) -> (r: Result<u16, TexError>)
        requires
            old(self).wf(),
            1 <= size,
        ensures
            final(self).wf(),
            final(self).cells() == old(self).cells(),
            final(self).hi_min() == old(self).hi_min(),
            final(self).end() == old(self).end(),
            final(self).avail_list() == old(self).avail_list(),
            final(self).single_in_use() == old(self).single_in_use(),
            (exists|i: int|
                0 <= i < old(self).free_list().len() && (#[trigger] old(self).free_list()[i]).1
                    >= size) || old(self).hi_min() - old(self).lo_max() - 1 >= size ==> {
                &&& r is Ok
                &&& LO_MEM_STAT_MAX < r->Ok_0
                &&& r->Ok_0 + size <= final(self).lo_max() + 1
                &&& forall|a: int|
                    r->Ok_0 <= a < r->Ok_0 + size ==> old(self).var_free_set().contains(a)
                &&& forall|a: int| r->Ok_0 <= a < r->Ok_0 + size ==> final(self).live(a)
                &&& final(self).var_free_set() == old(self).var_free_set().difference(
                    range_set(r->Ok_0 as int, r->Ok_0 + size),
                )
            },
            !((exists|i: int|
                0 <= i < old(self).free_list().len() && (#[trigger] old(self).free_list()[i]).1
                    >= size) || old(self).hi_min() - old(self).lo_max() - 1 >= size) ==> {
                &&& r == Err::<u16, TexError>(TexError::OutOfMemory)
                &&& *final(self) == *old(self)
            },
    {
        let n = self.free_blocks.len();
        let mut best: usize = n;
        let mut best_size: u16 = 0;
        let mut i: usize = 0;
        while i < n
            invariant
                n == self.free_list().len(),
                i <= n,
                best == n || (best < i && self.free_list()[best as int].1 >= size
                    && self.free_list()[best as int].1 == best_size),
                best == n ==> forall|j: int| 0 <= j < i ==> (#[trigger] self.free_list()[j]).1 < size,
            decreases n - i,
        {
            let (_a, s) = self.free_blocks[i];
            if s >= size && (best == n || s < best_size) {
                best = i;
                best_size = s;
            }
            i = i + 1;
        }
        let ghost pre = self.free_list();
        if best < n {
            let (a, s) = self.free_blocks[best];
            proof {
                assert forall|x: int| a <= x < a + size implies old(self).var_free_set().contains(
                    x,
                ) by {
                    assert(pre[best as int].0 <= x < pre[best as int].0 + pre[best as int].1);
                }
            }
            if s == size {
                self.free_blocks.remove(best);
                proof {
                    self.lemma_after_remove(*old(self), best as int, size);
                }
                Ok(a)
            } else {
                self.free_blocks[best] = (a + size, s - size);
                proof {
                    self.lemma_after_shrink(*old(self), best as int, size);
                }
                Ok(a)
            }
        } else {
            if self.hi_mem_min - self.lo_mem_max - 1 >= size {
                let p = self.lo_mem_max + 1;
                self.lo_mem_max = self.lo_mem_max + size;
                proof {
                    assert forall|x: int|
                        p <= x < p + size implies old(self).var_free_set().contains(x) by {}
                    assert(blocks_wf(self.free_list(), self.lo_max() as int)) by {
                        assert(forall|j: int|
                            0 <= j < pre.len() ==> LO_MEM_STAT_MAX < (#[trigger] pre[j]).0
                                && pre[j].0 + pre[j].1 <= old(self).lo_max() + 1 && pre[j].1
                                >= 1);
                    }
                    assert forall|x: int|
                        final(self).var_free_set().contains(x) <==> old(
                            self,
                        ).var_free_set().difference(
                            range_set(p as int, p + size),
                        ).contains(x) by {
                        if in_free_list(pre, x) {
                            let j = choose|j: int|
                                0 <= j < pre.len() && (#[trigger] pre[j]).0 <= x < pre[j].0
                                    + pre[j].1;
                            assert(x <= old(self).lo_max());
                        }
                    }
                    assert(final(self).var_free_set() =~= old(self).var_free_set().difference(
                        range_set(p as int, p + size),
                    ));
                    assert forall|a: int| p <= a < p + size implies final(self).live(a) by {
                        if in_free_list(self.free_list(), a) {
                            let j = choose|j: int|
                                0 <= j < pre.len() && (#[trigger] pre[j]).0 <= a < pre[j].0
                                    + pre[j].1;
                            assert(pre[j].1 >= size);
                        }
                    }
                    assert(final(self).single_in_use() =~= old(self).single_in_use());
                }
                Ok(p)
            } else {
                Err(TexError::OutOfMemory)
            }
        }
    }

    /// After removing an exactly fitting block, the free set has lost that
    /// block's cells and nothing else, and the list is still well-formed.
    proof fn lemma_after_remove(&self, pre_state: NodeArena, b: int, size: u16)
        requires
            pre_state.wf(),
            0 <= b < pre_state.free_list().len(),
            pre_state.free_list()[b].1 == size,
            self.free_list() == pre_state.free_list().remove(b),
            self.lo_max() == pre_state.lo_max(),
            self.hi_min() == pre_state.hi_min(),
            self.end() == pre_state.end(),
            self.avail_list() == pre_state.avail_list(),
            self.cells() == pre_state.cells(),
        ensures
            blocks_wf(self.free_list(), self.lo_max() as int),
            self.var_free_set() == pre_state.var_free_set().difference(
                range_set(
                    pre_state.free_list()[b].0 as int,
                    pre_state.free_list()[b].0 + size,
                ),
            ),
            forall|a: int|
                pre_state.free_list()[b].0 <= a < pre_state.free_list()[b].0 + size
                    ==> self.live(a),
            self.single_in_use() == pre_state.single_in_use(),
    {
        let pre = pre_state.free_list();
        let now = self.free_list();
        let blk = pre[b];
        assert(now.len() == pre.len() - 1);
        assert forall|j: int| 0 <= j < now.len() implies #[trigger] now[j] == (if j < b {
            pre[j]
        } else {
            pre[j + 1]
        }) by {}
        assert forall|j: int|
            0 <= j < now.len() implies LO_MEM_STAT_MAX < (#[trigger] now[j]).0 && now[j].0
            + now[j].1 <= self.lo_max() + 1 && now[j].1 >= 1 by {}
        assert forall|j: int| 0 <= j < now.len() - 1 implies (#[trigger] now[j]).0 + now[j].1
            < now[j + 1].0 by {
            if j + 1 < b {
            } else if j < b && j + 1 >= b {
                lemma_block_order(pre, pre_state.lo_max() as int, j, b + 1);
            } else {
            }
        }
        assert forall|x: int|
            self.var_free_set().contains(x) <==> pre_state.var_free_set().difference(
                range_set(blk.0 as int, blk.0 + size),
            ).contains(x) by {
            if in_free_list(now, x) {
                let j = choose|j: int|
                    0 <= j < now.len() && (#[trigger] now[j]).0 <= x < now[j].0 + now[j].1;
                let jo = if j < b {
                    j
                } else {
                    j + 1
                };
                assert(pre[jo].0 <= x < pre[jo].0 + pre[jo].1);
                if blk.0 <= x < blk.0 + size {
                    lemma_blocks_disjoint(pre, pre_state.lo_max() as int, jo, b, x);
                }
            }
            if in_free_list(pre, x) && !(blk.0 <= x < blk.0 + size) {
                let jo = choose|jo: int|
                    0 <= jo < pre.len() && (#[trigger] pre[jo]).0 <= x < pre[jo].0 + pre[jo].1;
                assert(jo != b);
                let j = if jo < b {
                    jo
                } else {
                    jo - 1
                };
                assert(now[j].0 <= x < now[j].0 + now[j].1);
                assert(in_free_list(now, x));
            }
        }
        assert(self.var_free_set() =~= pre_state.var_free_set().difference(
            range_set(blk.0 as int, blk.0 + size),
        ));
        assert forall|a: int| blk.0 <= a < blk.0 + size implies self.live(a) by {
            assert(a <= self.lo_max());
            if in_free_list(now, a) {
                let j = choose|j: int|
                    0 <= j < now.len() && (#[trigger] now[j]).0 <= a < now[j].0 + now[j].1;
                let jo = if j < b {
                    j
                } else {
                    j + 1
                };
                assert(pre[jo].0 <= a < pre[jo].0 + pre[jo].1);
                lemma_blocks_disjoint(pre, pre_state.lo_max() as int, jo, b, a);
            }
        }
        assert(self.single_in_use() =~= pre_state.single_in_use());
    }

    /// After shrinking a block from the front, the free set has lost the
    /// allocated run and nothing else, and the list is still well-formed.
    proof fn lemma_after_shrink(&self, pre_state: NodeArena, b: int, size: u16)
        requires
            pre_state.wf(),
            0 <= b < pre_state.free_list().len(),
            pre_state.free_list()[b].1 > size,
            size >= 1,
            self.free_list() == pre_state.free_list().update(
                b,
                (
                    (pre_state.free_list()[b].0 + size) as u16,
                    (pre_state.free_list()[b].1 - size) as u16,
                ),
            ),
            self.lo_max() == pre_state.lo_max(),
            self.hi_min() == pre_state.hi_min(),
            self.end() == pre_state.end(),
            self.avail_list() == pre_state.avail_list(),
            self.cells() == pre_state.cells(),
        ensures
            blocks_wf(self.free_list(), self.lo_max() as int),
            self.var_free_set() == pre_state.var_free_set().difference(
                range_set(
                    pre_state.free_list()[b].0 as int,
                    pre_state.free_list()[b].0 + size,
                ),
            ),
            forall|a: int|
                pre_state.free_list()[b].0 <= a < pre_state.free_list()[b].0 + size
                    ==> self.live(a),
            self.single_in_use() == pre_state.single_in_use(),
    {
        let pre = pre_state.free_list();
        let now = self.free_list();
        let blk = pre[b];
        assert forall|j: int|
            0 <= j < now.len() implies LO_MEM_STAT_MAX < (#[trigger] now[j]).0 && now[j].0
            + now[j].1 <= self.lo_max() + 1 && now[j].1 >= 1 by {}
        assert forall|j: int| 0 <= j < now.len() - 1 implies (#[trigger] now[j]).0 + now[j].1
            < now[j + 1].0 by {}
        assert forall|x: int|
            self.var_free_set().contains(x) <==> pre_state.var_free_set().difference(
                range_set(blk.0 as int, blk.0 + size),
            ).contains(x) by {
            if in_free_list(now, x) {
                let j = choose|j: int|
                    0 <= j < now.len() && (#[trigger] now[j]).0 <= x < now[j].0 + now[j].1;
                assert(pre[j].0 <= x < pre[j].0 + pre[j].1);
                if blk.0 <= x < blk.0 + size {
                    lemma_blocks_disjoint(pre, pre_state.lo_max() as int, j, b, x);
                }
            }
            if in_free_list(pre, x) && !(blk.0 <= x < blk.0 + size) {
                let jo = choose|jo: int|
                    0 <= jo < pre.len() && (#[trigger] pre[jo]).0 <= x < pre[jo].0 + pre[jo].1;
                if jo == b {
                    assert(now[b].0 <= x < now[b].0 + now[b].1);
                } else {
                    assert(now[jo].0 <= x < now[jo].0 + now[jo].1);
                }
                assert(in_free_list(now, x));
            }
        }
        assert(self.var_free_set() =~= pre_state.var_free_set().difference(
            range_set(blk.0 as int, blk.0 + size),
        ));
        assert forall|a: int| blk.0 <= a < blk.0 + size implies self.live(a) by {
            assert(a <= self.lo_max());
            if in_free_list(now, a) {
                let j = choose|j: int|
                    0 <= j < now.len() && (#[trigger] now[j]).0 <= a < now[j].0 + now[j].1;
                if j == b {
                } else {
                    assert(pre[j].0 <= a < pre[j].0 + pre[j].1);
                    lemma_blocks_disjoint(pre, pre_state.lo_max() as int, j, b, a);
                }
            }
        }
        assert(self.single_in_use() =~= pre_state.single_in_use());
    }

    /// Returns a run of `size` cells to the variable-size free list,
    /// merging with the address-adjacent free blocks on either side so the
    /// list stays fully coalesced.  A run outside the region's used part,
    /// or one that overlaps the free list (a double free), fails with
    /// `InvalidAddress` and changes nothing.
    #[verifier::rlimit(100)]
    pub fn free_variable(&mut self, p: u16, size: u16) -> (r: Result<(), TexError>)
        requires
            old(self).wf(),
        ensures
            final(self).wf(),
            final(self).cells() == old(self).cells(),
            final(self).lo_max() == old(self).lo_max(),
            final(self).hi_min() == old(self).hi_min(),
            final(self).end() == old(self).end(),
            final(self).avail_list() == old(self).avail_list(),
            final(self).single_in_use() == old(self).single_in_use(),
            (LO_MEM_STAT_MAX < p && size >= 1 && p + size <= old(self).lo_max() + 1 && (forall|
                a: int,
            |
                p <= a < p + size ==> !in_free_list(old(self).free_list(), a))) ==> {
                &&& r == Ok::<(), TexError>(())
                &&& final(self).var_free_set() == old(self).var_free_set().union(
                    range_set(p as int, p + size),
                )
                &&& forall|a: int|
                    p <= a < p + size ==> in_free_list(final(self).free_list(), a)
            },
            !(LO_MEM_STAT_MAX < p && size >= 1 && p + size <= old(self).lo_max() + 1 && (forall|
                a: int,
            |
                p <= a < p + size ==> !in_free_list(old(self).free_list(), a))) ==> {
                &&& r == Err::<(), TexError>(TexError::InvalidAddress)
                &&& *final(self) == *old(self)
            },
    {
        if p <= LO_MEM_STAT_MAX || size == 0 {
            return Err(TexError::InvalidAddress);
        }
        if p as u32 + size as u32 > self.lo_mem_max as u32 + 1 {
            return Err(TexError::InvalidAddress);
        }
        let n = self.free_blocks.len();
        let mut i: usize = 0;
        let mut scanning = true;
        while scanning && i < n
            invariant
                n == self.free_list().len(),
                self.wf(),
                i <= n,
                forall|j: int|
                    0 <= j < i ==> (#[trigger] self.free_list()[j]).0 + self.free_list()[j].1 < p,
                !scanning ==> i < n && self.free_list()[i as int].0 + self.free_list()[i as int].1
                    >= p,
            decreases n - i + if scanning {
                1int
            } else {
                0int
            },
        {
            let (a, s) = self.free_blocks[i];
            if a + s >= p {
                scanning = false;
            } else {
                i = i + 1;
            }
        }
        let ghost pre = self.free_list();
        let merge_prev = i < n && {
            let (a, s) = self.free_blocks[i];
            a + s == p
        };
        let k = if merge_prev {
            i + 1
        } else {
            i
        };
        proof {
            assert forall|j: int|
                0 <= j < k implies (#[trigger] pre[j]).0 + pre[j].1 <= p by {
                if j < i {
                } else {
                }
            }
        }
        if k < n {
            let (ak, _sk) = self.free_blocks[k];
            if ak < p + size {
                proof {
                    // a cell of block k lies inside the freed run: double free
                    if ak >= p {
                        assert(in_free_list(pre, ak as int));
                    } else {
                        assert(k == i && !merge_prev);
                        assert(pre[k as int].0 + pre[k as int].1 > p);
                        assert(in_free_list(pre, p as int));
                    }
                }
                return Err(TexError::InvalidAddress);
            }
        }
        proof {
            // the freed run overlaps no block: earlier blocks end at or
            // before p, later blocks start at or after the run's end
            assert forall|a: int|
                p <= a < p + size implies !in_free_list(pre, a) by {
                if in_free_list(pre, a) {
                    let j = choose|j: int|
                        0 <= j < pre.len() && (#[trigger] pre[j]).0 <= a < pre[j].0 + pre[j].1;
                    if j < k {
                    } else if j > k {
                        lemma_block_order(pre, self.lo_max() as int, k as int, j);
                    }
                }
            }
        }
        let merge_next = k < n && {
            let (ak, _sk) = self.free_blocks[k];
            ak == p + size
        };
        if merge_prev && merge_next {
            let (ai, si) = self.free_blocks[i];
            let (_ak, sk) = self.free_blocks[k];
            proof {
                if k < n - 1 {
                    lemma_block_order(pre, self.lo_max() as int, k as int, k + 1);
                }
            }
            self.free_blocks[i] = (ai, si + size + sk);
            self.free_blocks.remove(k);
            proof {
                self.lemma_after_merge_both(*old(self), i as int, p, size);
            }
            Ok(())
        } else if merge_prev {
            let (ai, si) = self.free_blocks[i];
            self.free_blocks[i] = (ai, si + size);
            proof {
                self.lemma_after_grow(*old(self), i as int, ai, (si + size) as u16, p, size);
            }
            Ok(())
        } else if merge_next {
            let (ak, sk) = self.free_blocks[k];
            self.free_blocks[k] = (p, size + sk);
            proof {
                self.lemma_after_grow(*old(self), k as int, p, (size + sk) as u16, p, size);
            }
            Ok(())
        } else {
            self.free_blocks.insert(k, (p, size));
            proof {
                self.lemma_after_insert(*old(self), k as int, p, size);
            }
            Ok(())
        }
    }

    /// After growing one block to absorb an adjacent freed run, the free
    /// set has gained exactly that run.
    proof fn lemma_after_grow(
        &self,
        pre_state: NodeArena,
        b: int,
        na: u16,
        ns: u16,
        p: u16,
        size: u16,
    )
        requires
            pre_state.wf(),
            0 <= b < pre_state.free_list().len(),
            size >= 1,
            LO_MEM_STAT_MAX < p,
            p + size <= pre_state.lo_max() + 1,
            forall|a: int| p <= a < p + size ==> !in_free_list(pre_state.free_list(), a),
            // the new block is exactly the old block plus the adjacent run
            na == if p < pre_state.free_list()[b].0 {
                p
            } else {
                pre_state.free_list()[b].0
            },
            na as int + ns as int == if p + size > pre_state.free_list()[b].0
                + pre_state.free_list()[b].1 {
                (p + size) as int
            } else {
                pre_state.free_list()[b].0 + pre_state.free_list()[b].1
            },
            pre_state.free_list()[b].0 + pre_state.free_list()[b].1 == p || p + size
                == pre_state.free_list()[b].0,
            b > 0 ==> pre_state.free_list()[b - 1].0 + pre_state.free_list()[b - 1].1 < na,
            b + 1 < pre_state.free_list().len() ==> na + ns < pre_state.free_list()[b + 1].0,
            self.free_list() == pre_state.free_list().update(b, (na, ns)),
            self.lo_max() == pre_state.lo_max(),
            self.hi_min() == pre_state.hi_min(),
            self.end() == pre_state.end(),
            self.avail_list() == pre_state.avail_list(),
            self.cells() == pre_state.cells(),
        ensures
            blocks_wf(self.free_list(), self.lo_max() as int),
            self.var_free_set() == pre_state.var_free_set().union(range_set(p as int, p + size)),
            forall|a: int| p <= a < p + size ==> in_free_list(self.free_list(), a),
            self.single_in_use() == pre_state.single_in_use(),
    {
        let pre = pre_state.free_list();
        let now = self.free_list();
        assert forall|j: int|
            0 <= j < now.len() implies LO_MEM_STAT_MAX < (#[trigger] now[j]).0 && now[j].0
            + now[j].1 <= self.lo_max() + 1 && now[j].1 >= 1 by {}
        assert forall|j: int| 0 <= j < now.len() - 1 implies (#[trigger] now[j]).0 + now[j].1
            < now[j + 1].0 by {}
        assert forall|a: int| p <= a < p + size implies in_free_list(self.free_list(), a) by {
            assert(now[b].0 <= a < now[b].0 + now[b].1);
        }
        assert forall|x: int|
            self.var_free_set().contains(x) <==> pre_state.var_free_set().union(
                range_set(p as int, p + size),
            ).contains(x) by {
            if in_free_list(now, x) {
                let j = choose|j: int|
                    0 <= j < now.len() && (#[trigger] now[j]).0 <= x < now[j].0 + now[j].1;
                if j != b {
                    assert(pre[j].0 <= x < pre[j].0 + pre[j].1);
                    assert(in_free_list(pre, x));
                } else {
                    if !(p <= x < p + size) {
                        assert(pre[b].0 <= x < pre[b].0 + pre[b].1);
                        assert(in_free_list(pre, x));
                    }
                }
            }
            if in_free_list(pre, x) {
                let j = choose|j: int|
                    0 <= j < pre.len() && (#[trigger] pre[j]).0 <= x < pre[j].0 + pre[j].1;
                if j == b {
                    assert(now[b].0 <= x < now[b].0 + now[b].1);
                } else {
                    assert(now[j].0 <= x < now[j].0 + now[j].1);
                }
                assert(in_free_list(now, x));
            }
            if p <= x < p + size {
                assert(now[b].0 <= x < now[b].0 + now[b].1);
                assert(in_free_list(now, x));
            }
        }
        assert(self.var_free_set() =~= pre_state.var_free_set().union(
            range_set(p as int, p + size),
        ));
        assert(self.single_in_use() =~= pre_state.single_in_use());
    }

    /// After merging the freed run with the blocks on both of its sides,
    /// the free set has gained exactly that run.
    proof fn lemma_after_merge_both(&self, pre_state: NodeArena, b: int, p: u16, size: u16)
        requires
            pre_state.wf(),
            0 <= b < pre_state.free_list().len() - 1,
            size >= 1,
            LO_MEM_STAT_MAX < p,
            p + size <= pre_state.lo_max() + 1,
            forall|a: int| p <= a < p + size ==> !in_free_list(pre_state.free_list(), a),
            pre_state.free_list()[b].0 + pre_state.free_list()[b].1 == p,
            pre_state.free_list()[b + 1].0 == p + size,
            self.free_list() == pre_state.free_list().update(
                b,
                (
                    pre_state.free_list()[b].0,
                    (pre_state.free_list()[b].1 + size + pre_state.free_list()[b + 1].1) as u16,
                ),
            ).remove(b + 1),
            self.lo_max() == pre_state.lo_max(),
            self.hi_min() == pre_state.hi_min(),
            self.end() == pre_state.end(),
            self.avail_list() == pre_state.avail_list(),
            self.cells() == pre_state.cells(),
        ensures
            blocks_wf(self.free_list(), self.lo_max() as int),
            self.var_free_set() == pre_state.var_free_set().union(range_set(p as int, p + size)),
            forall|a: int| p <= a < p + size ==> in_free_list(self.free_list(), a),
            self.single_in_use() == pre_state.single_in_use(),
    {
        let pre = pre_state.free_list();
        let now = self.free_list();
        assert(now.len() == pre.len() - 1);
        assert forall|j: int| 0 <= j < now.len() implies #[trigger] now[j] == (if j < b {
            pre[j]
        } else if j == b {
            (
                pre[b].0,
                (pre[b].1 + size + pre[b + 1].1) as u16,
            )
        } else {
            pre[j + 1]
        }) by {}
        assert forall|j: int|
            0 <= j < now.len() implies LO_MEM_STAT_MAX < (#[trigger] now[j]).0 && now[j].0
            + now[j].1 <= self.lo_max() + 1 && now[j].1 >= 1 by {}
        assert forall|j: int| 0 <= j < now.len() - 1 implies (#[trigger] now[j]).0 + now[j].1
            < now[j + 1].0 by {
            if j < b - 1 {
            } else if j == b - 1 {
            } else if j == b {
                assert(now[j + 1] == pre[j + 2]);
                lemma_block_order(pre, pre_state.lo_max() as int, b + 1, j + 2);
            } else {
                lemma_block_order(pre, pre_state.lo_max() as int, j + 1, j + 2);
            }
        }
        assert forall|a: int| p <= a < p + size implies in_free_list(self.free_list(), a) by {
            assert(now[b].0 <= a < now[b].0 + now[b].1);
        }
        assert forall|x: int|
            self.var_free_set().contains(x) <==> pre_state.var_free_set().union(
                range_set(p as int, p + size),
            ).contains(x) by {
            if in_free_list(now, x) {
                let j = choose|j: int|
                    0 <= j < now.len() && (#[trigger] now[j]).0 <= x < now[j].0 + now[j].1;
                if j != b {
                    let jo = if j < b {
                        j
                    } else {
                        j + 1
                    };
                    assert(pre[jo].0 <= x < pre[jo].0 + pre[jo].1);
                    assert(in_free_list(pre, x));
                } else {
                    if !(p <= x < p + size) {
                        if x < p {
                            assert(pre[b].0 <= x < pre[b].0 + pre[b].1);
                        } else {
                            assert(pre[b + 1].0 <= x < pre[b + 1].0 + pre[b + 1].1);
                        }
                        assert(in_free_list(pre, x));
                    }
                }
            }
            if in_free_list(pre, x) {
                let j = choose|j: int|
                    0 <= j < pre.len() && (#[trigger] pre[j]).0 <= x < pre[j].0 + pre[j].1;
                if j == b || j == b + 1 {
                    assert(now[b].0 <= x < now[b].0 + now[b].1);
                } else if j < b {
                    assert(now[j].0 <= x < now[j].0 + now[j].1);
                } else {
                    assert(now[j - 1].0 <= x < now[j - 1].0 + now[j - 1].1);
                }
                assert(in_free_list(now, x));
            }
            if p <= x < p + size {
                assert(now[b].0 <= x < now[b].0 + now[b].1);
                assert(in_free_list(now, x));
            }
        }
        assert(self.var_free_set() =~= pre_state.var_free_set().union(
            range_set(p as int, p + size),
        ));
        assert(self.single_in_use() =~= pre_state.single_in_use());
    }

    /// After inserting the freed run as a block of its own, the free set
    /// has gained exactly that run.
    proof fn lemma_after_insert(&self, pre_state: NodeArena, b: int, p: u16, size: u16)
        requires
            pre_state.wf(),
            0 <= b <= pre_state.free_list().len(),
            size >= 1,
            LO_MEM_STAT_MAX < p,
            p + size <= pre_state.lo_max() + 1,
            forall|a: int| p <= a < p + size ==> !in_free_list(pre_state.free_list(), a),
            b > 0 ==> pre_state.free_list()[b - 1].0 + pre_state.free_list()[b - 1].1 < p,
            b < pre_state.free_list().len() ==> p + size < pre_state.free_list()[b].0,
            self.free_list() == pre_state.free_list().insert(b, (p, size)),
            self.lo_max() == pre_state.lo_max(),
            self.hi_min() == pre_state.hi_min(),
            self.end() == pre_state.end(),
            self.avail_list() == pre_state.avail_list(),
            self.cells() == pre_state.cells(),
        ensures
            blocks_wf(self.free_list(), self.lo_max() as int),
            self.var_free_set() == pre_state.var_free_set().union(range_set(p as int, p + size)),
            forall|a: int| p <= a < p + size ==> in_free_list(self.free_list(), a),
            self.single_in_use() == pre_state.single_in_use(),
    {
        let pre = pre_state.free_list();
        let now = self.free_list();
        assert(now.len() == pre.len() + 1);
        assert forall|j: int| 0 <= j < now.len() implies #[trigger] now[j] == (if j < b {
            pre[j]
        } else if j == b {
            (p, size)
        } else {
            pre[j - 1]
        }) by {}
        assert forall|j: int|
            0 <= j < now.len() implies LO_MEM_STAT_MAX < (#[trigger] now[j]).0 && now[j].0
            + now[j].1 <= self.lo_max() + 1 && now[j].1 >= 1 by {}
        assert forall|j: int| 0 <= j < now.len() - 1 implies (#[trigger] now[j]).0 + now[j].1
            < now[j + 1].0 by {}
        assert forall|a: int| p <= a < p + size implies in_free_list(self.free_list(), a) by {
            assert(now[b].0 <= a < now[b].0 + now[b].1);
        }
        assert forall|x: int|
            self.var_free_set().contains(x) <==> pre_state.var_free_set().union(
                range_set(p as int, p + size),
            ).contains(x) by {
            if in_free_list(now, x) {
                let j = choose|j: int|
                    0 <= j < now.len() && (#[trigger] now[j]).0 <= x < now[j].0 + now[j].1;
                if j != b {
                    let jo = if j < b {
                        j
                    } else {
                        j - 1
                    };
                    assert(pre[jo].0 <= x < pre[jo].0 + pre[jo].1);
                    assert(in_free_list(pre, x));
                }
            }
            if in_free_list(pre, x) {
                let j = choose|j: int|
                    0 <= j < pre.len() && (#[trigger] pre[j]).0 <= x < pre[j].0 + pre[j].1;
                if j < b {
                    assert(now[j].0 <= x < now[j].0 + now[j].1);
                } else {
                    assert(now[j + 1].0 <= x < now[j + 1].0 + now[j + 1].1);
                }
                assert(in_free_list(now, x));
            }
            if p <= x < p + size {
                assert(now[b].0 <= x < now[b].0 + now[b].1);
                assert(in_free_list(now, x));
            }
        }
        assert(self.var_free_set() =~= pre_state.var_free_set().union(
            range_set(p as int, p + size),
        ));
        assert(self.single_in_use() =~= pre_state.single_in_use());
    }

    /// Returns one cell to the one-cell free stack in constant time.  The
    /// cell must have been live; an address outside the one-cell region's
    /// ordinary part (the static heads are permanently allocated) fails
    /// with `InvalidAddress` and changes nothing.
    pub fn free_single(&mut self, p: u16) -> (r: Result<(), TexError>)
        requires
            old(self).wf(),
            !old(self).avail_list().contains(p),
        ensures
            final(self).wf(),
            final(self).cells() == old(self).cells(),
            final(self).lo_max() == old(self).lo_max(),
            final(self).hi_min() == old(self).hi_min(),
            final(self).end() == old(self).end(),
            final(self).free_list() == old(self).free_list(),
            final(self).var_free_set() == old(self).var_free_set(),
            old(self).hi_min() <= p < HI_MEM_STAT_MIN ==> {
                &&& r == Ok::<(), TexError>(())
                &&& final(self).avail_list() == old(self).avail_list().push(p)
                &&& final(self).single_in_use() == old(self).single_in_use().remove(p as int)
            },
            !(old(self).hi_min() <= p < HI_MEM_STAT_MIN) ==> {
                &&& r == Err::<(), TexError>(TexError::InvalidAddress)
                &&& *final(self) == *old(self)
            },
    {
        if p < self.hi_mem_min || p >= HI_MEM_STAT_MIN {
            return Err(TexError::InvalidAddress);
        }
        let ghost pre = self.avail@;
        self.avail.push(p);
        proof {
            assert forall|i: int, j: int|
                0 <= i < j < self.avail_list().len() implies self.avail_list()[i]
                != self.avail_list()[j] by {
                if j < pre.len() {
                    assert(self.avail_list()[i] == pre[i]);
                    assert(self.avail_list()[j] == pre[j]);
                } else {
                    assert(self.avail_list()[j] == p);
                    assert(self.avail_list()[i] == pre[i]);
                    assert(pre.contains(pre[i]));
                }
            }
            assert forall|a: int|
                final(self).single_in_use().contains(a) <==> old(self).single_in_use().remove(
                    p as int,
                ).contains(a) by {
                if old(self).hi_min() <= a <= old(self).end() {
                    let au = a as u16;
                    if a == p {
                        assert(self.avail_list()[pre.len() as int] == p);
                        assert(self.avail_list().contains(p));
                    } else {
                        if pre.contains(au) {
                            let i = choose|i: int| 0 <= i < pre.len() && pre[i] == au;
                            assert(self.avail_list()[i] == au);
                            assert(self.avail_list().contains(au));
                        }
                        if self.avail_list().contains(au) {
                            let i = choose|i: int|
                                0 <= i < self.avail_list().len() && self.avail_list()[i] == au;
                            if i == pre.len() {
                                assert(au == p);
                            } else {
                                assert(pre[i] == au);
                                assert(pre.contains(au));
                            }
                        }
                    }
                }
            }
            assert(final(self).single_in_use() =~= old(self).single_in_use().remove(p as int));
            assert(final(self).var_free_set() =~= old(self).var_free_set());
        }
        Ok(())
    }

    /// Highest address the variable-size region has used.
    pub fn lo_mem_max(&self) -> (r: u16)
        ensures
            r == self.lo_max(),
    {
        self.lo_mem_max
    }

    /// Lowest address the one-cell region has used.
    pub fn hi_mem_min(&self) -> (r: u16)
        ensures
            r == self.hi_min(),
    {
        self.hi_mem_min
    }

    /// Last usable address of the store.
    pub fn mem_end(&self) -> (r: u16)
        ensures
            r == self.end(),
    {
        self.mem_end
    }

    /// How many cells the one-cell free stack holds.
    pub fn single_cells_free(&self) -> (r: usize)
        ensures
            r == self.avail_list().len(),
    {
        self.avail.len()
    }

    /// How many cells are free for variable-size allocation: the free-list
    /// blocks plus the untouched gap between the regions.
    #[verifier::rlimit(100)]
    pub fn variable_free_cells(&self) -> (r: u32)
        requires
            self.wf(),
        ensures
            r == free_cells(self.free_list()) + (self.hi_min() - self.lo_max() - 1),
    {
        let n = self.free_blocks.len();
        let mut sum: u32 = 0;
        let mut i: usize = 0;
        proof {
            assert(self.free_list().take(0int) =~= Seq::<(u16, u16)>::empty());
        }
        while i < n
            invariant
                self.wf(),
                n == self.free_list().len(),
                i <= n,
                sum == free_cells(self.free_list().take(i as int)),
                sum <= MEM_MAX,
            decreases n - i,
        {
            let (_a, s) = self.free_blocks[i];
            proof {
                let pre = self.free_list().take(i as int);
                let nxt = self.free_list().take(i + 1);
                assert(nxt.drop_last() =~= pre);
                assert(nxt.last() == self.free_list()[i as int]);
                assert forall|j: int|
                    0 <= j < nxt.len() implies LO_MEM_STAT_MAX < (#[trigger] nxt[j]).0 && nxt[j].0
                    + nxt[j].1 <= self.lo_max() + 1 && nxt[j].1 >= 1 by {
                    assert(nxt[j] == self.free_list()[j]);
                }
                assert forall|j: int| 0 <= j < nxt.len() - 1 implies (#[trigger] nxt[j]).0
                    + nxt[j].1 < nxt[j + 1].0 by {
                    assert(nxt[j] == self.free_list()[j]);
                    assert(nxt[j + 1] == self.free_list()[j + 1]);
                }
                assert(blocks_wf(nxt, self.lo_max() as int));
                lemma_free_cells_bound(nxt, self.lo_max() as int);
            }
            sum = sum + s as u32;
            i = i + 1;
        }
        proof {
            assert(self.free_list().take(n as int) =~= self.free_list());
        }
        sum + (self.hi_mem_min - self.lo_mem_max - 1) as u32
    }

    /// Exports the raw cells for bulk saving.
    pub fn export_cells(&self) -> (r: Vec<MemoryWord>)
        requires
            self.wf(),
        ensures
            r@ == self.cells(),
    {
        let n = self.mem.len();
        let mut out: Vec<MemoryWord> = Vec::new();
        let mut i: usize = 0;
        while i < n
            invariant
                n == self.cells().len(),
                i <= n,
                out@ == self.cells().take(i as int),
            decreases n - i,
        {
            out.push(self.mem[i]);
            proof {
                assert(out@ =~= self.cells().take(i + 1));
            }
            i = i + 1;
        }
        proof {
            assert(out@ =~= self.cells());
        }
        out
    }

    /// Exports the variable-region free list for bulk saving.
    pub fn export_free_list(&self) -> (r: Vec<(u16, u16)>)
        ensures
            r@ == self.free_list(),
    {
        let n = self.free_blocks.len();
        let mut out: Vec<(u16, u16)> = Vec::new();
        let mut i: usize = 0;
        while i < n
            invariant
                n == self.free_list().len(),
                i <= n,
                out@ == self.free_list().take(i as int),
            decreases n - i,
        {
            out.push(self.free_blocks[i]);
            proof {
                assert(out@ =~= self.free_list().take(i + 1));
            }
            i = i + 1;
        }
        proof {
            assert(out@ =~= self.free_list());
        }
        out
    }

    /// Exports the one-cell free stack for bulk saving.
    pub fn export_avail(&self) -> (r: Vec<u16>)
        ensures
            r@ == self.avail_list(),
    {
        let n = self.avail.len();
        let mut out: Vec<u16> = Vec::new();
        let mut i: usize = 0;
        while i < n
            invariant
                n == self.avail_list().len(),
                i <= n,
                out@ == self.avail_list().take(i as int),
            decreases n - i,
        {
            out.push(self.avail[i]);
            proof {
                assert(out@ =~= self.avail_list().take(i + 1));
            }
            i = i + 1;
        }
        proof {
            assert(out@ =~= self.avail_list());
        }
        out
    }

    /// Bulk-loads a previously saved arena.  Every structural invariant is
    /// re-checked at load time — the store's size, the region boundaries,
    /// the free blocks' order and coalescing gaps, and the free stack's
    /// range and distinctness; a snapshot failing any check is refused
    /// whole with `InvalidAddress`.
    #[verifier::rlimit(100)]
    pub fn import(
        cells: Vec<MemoryWord>,
        lo_mem_max: u16,
        hi_mem_min: u16,
        free_blocks: Vec<(u16, u16)>,
        avail: Vec<u16>,
    ) -> (r: Result<NodeArena, TexError>)
        ensures
            import_valid(cells@, lo_mem_max, hi_mem_min, free_blocks@, avail@) ==> {
                &&& r is Ok
                &&& r->Ok_0.wf()
                &&& r->Ok_0.cells() == cells@
                &&& r->Ok_0.lo_max() == lo_mem_max
                &&& r->Ok_0.hi_min() == hi_mem_min
                &&& r->Ok_0.end() == MEM_TOP
                &&& r->Ok_0.free_list() == free_blocks@
                &&& r->Ok_0.avail_list() == avail@
            },
            !import_valid(cells@, lo_mem_max, hi_mem_min, free_blocks@, avail@) ==> r == Err::<
                NodeArena,
                TexError,
            >(TexError::InvalidAddress),
    {
        if cells.len() != MEM_MAX as usize + 1 {
            return Err(TexError::InvalidAddress);
        }
        if lo_mem_max < LO_MEM_STAT_MAX || lo_mem_max >= hi_mem_min || hi_mem_min
            > HI_MEM_STAT_MIN {
            return Err(TexError::InvalidAddress);
        }
        let n = free_blocks.len();
        let mut i: usize = 0;
        while i < n
            invariant
                n == free_blocks@.len(),
                i <= n,
                forall|j: int|
                    0 <= j < i ==> LO_MEM_STAT_MAX < (#[trigger] free_blocks@[j]).0
                        && free_blocks@[j].0 + free_blocks@[j].1 <= lo_mem_max + 1
                        && free_blocks@[j].1 >= 1,
                forall|j: int|
                    0 <= j < i && j + 1 < n ==> (#[trigger] free_blocks@[j]).0 + free_blocks@[j].1
                        < free_blocks@[j + 1].0,
            decreases n - i,
        {
            let (a, s) = free_blocks[i];
            if a <= LO_MEM_STAT_MAX || s == 0 || a as u32 + s as u32 > lo_mem_max as u32 + 1 {
                return Err(TexError::InvalidAddress);
            }
            if i + 1 < n {
                let (a2, _s2) = free_blocks[i + 1];
                if a as u32 + s as u32 >= a2 as u32 {
                    return Err(TexError::InvalidAddress);
                }
            }
            i = i + 1;
        }
        let m = avail.len();
        let mut i: usize = 0;
        while i < m
            invariant
                m == avail@.len(),
                i <= m,
                forall|j: int|
                    0 <= j < i ==> hi_mem_min <= (#[trigger] avail@[j]) < HI_MEM_STAT_MIN,
            decreases m - i,
        {
            let c = avail[i];
            if c < hi_mem_min || c >= HI_MEM_STAT_MIN {
                return Err(TexError::InvalidAddress);
            }
            i = i + 1;
        }
        let mut i: usize = 0;
        while i < m
            invariant
                m == avail@.len(),
                i <= m,
                forall|j: int, k: int| 0 <= j < k < i ==> avail@[j] != avail@[k],
                forall|j: int, k: int| 0 <= j < i && j < k < m ==> avail@[j] != avail@[k],
            decreases m - i,
        {
            let mut j: usize = i + 1;
            while j < m
                invariant
                    m == avail@.len(),
                    i < m,
                    i + 1 <= j <= m,
                    forall|k: int| i < k < j ==> avail@[i as int] != avail@[k],
                decreases m - j,
            {
                if avail[i] == avail[j] {
                    return Err(TexError::InvalidAddress);
                }
                j = j + 1;
            }
            i = i + 1;
        }
        Ok(
            NodeArena {
                mem: cells,
                lo_mem_max,
                hi_mem_min,
                mem_end: MEM_TOP,
                free_blocks,
                avail,
            },
        )
    }

    /// A diagnostic scan over both free lists: block order, coalescing
    /// gaps, and address ranges are re-checked at runtime.
    pub fn check_consistency(&self) -> (r: bool)
        requires
            self.wf(),
        ensures
            r,
    {
        let n = self.free_blocks.len();
        let mut i: usize = 0;
        let mut good = true;
        while i < n
            invariant
                self.wf(),
                n == self.free_list().len(),
                i <= n,
                good,
            decreases n - i,
        {
            let (a, s) = self.free_blocks[i];
            if a <= LO_MEM_STAT_MAX || s == 0 || a as u32 + s as u32 > self.lo_mem_max as u32 + 1 {
                good = false;
            }
            if i + 1 < n {
                let (a2, _s2) = self.free_blocks[i + 1];
                if a + s >= a2 {
                    good = false;
                }
            }
            i = i + 1;
        }
        let m = self.avail.len();
        let mut j: usize = 0;
        while j < m
            invariant
                self.wf(),
                m == self.avail_list().len(),
                j <= m,
                good,
            decreases m - j,
        {
            let c = self.avail[j];
            if c < self.hi_mem_min || c > self.mem_end {
                good = false;
            }
            j = j + 1;
        }
        good
    }
}

} // verus!
