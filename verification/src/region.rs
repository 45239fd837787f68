//! The walk over the committed, readable memory regions of a process.
//!
//! A process's virtual address space is reported region by region: each
//! query at an address yields one page-aligned span with homogeneous
//! commit state and protection flags, or no span at all past the end of
//! the mapped space. The walk starts at a given address and moves
//! forward: a free region (or no region) ends the walk, any other region
//! advances the cursor to the region's end, and a region is collected
//! exactly when it is committed and readable under the recognized
//! protection mask. An advance that would wrap the address space is an
//! internal invariant violation: the walk stops early and keeps the
//! results collected so far.
//!
//! The walk is verified against [`MemoryMap`], the library's model of an
//! address space: an ordered, non-overlapping sequence of regions. The
//! thin consumer that queries the operating system live drives the same
//! decisions one query at a time through [`walk_step`].

use vstd::prelude::*;

use crate::errors::ToolkitError;

verus! {

/// Read-only pages.
pub const PAGE_READONLY: u32 = 0x02;

/// Read-write pages.
pub const PAGE_READWRITE: u32 = 0x04;

/// Copy-on-write pages.
pub const PAGE_WRITECOPY: u32 = 0x08;

/// Execute-read pages.
pub const PAGE_EXECUTE_READ: u32 = 0x20;

/// Execute-read-write pages.
pub const PAGE_EXECUTE_READWRITE: u32 = 0x40;

/// Execute-copy-on-write pages.
pub const PAGE_EXECUTE_WRITECOPY: u32 = 0x80;

/// The protection flags under which a committed region counts as
/// readable.
pub const READABLE_PROTECTION_MASK: u32 = 0x02 | 0x04 | 0x08 | 0x20 | 0x40 | 0x80;

/// The commit state of a span of pages.
#[derive(Clone, Copy, Debug, PartialEq, Eq, Structural)]
pub enum RegionState {
    /// Not backed by anything; ends the contiguous allocation run.
    Free,
    /// Reserved but not committed; skipped by the walk.
    Reserved,
    /// Committed to physical storage.
    Committed,
}

/// One page-aligned span of a process's address space with homogeneous
/// commit state and protection flags.
#[derive(Clone, Copy, Debug, PartialEq, Eq, Structural)]
pub struct MemoryRegion {
    /// Base address of the span.
    pub base: usize,
    /// Size of the span in bytes.
    pub size: usize,
    /// Commit state of every page of the span.
    pub state: RegionState,
    /// Protection flags of every page of the span.
    pub protect: u32,
}

/// Whether an address lies inside a region.
pub open spec fn region_contains(r: MemoryRegion, addr: usize) -> bool {
    r.base <= addr && addr < r.base + r.size
}

/// Whether a region is committed and readable under the recognized
/// protection mask.
pub open spec fn is_readable_region(r: MemoryRegion) -> bool {
    r.state == RegionState::Committed && (r.protect & READABLE_PROTECTION_MASK) != 0
}

/// The index of the first region at or after `i` that contains `addr`,
/// or `-1` when none does.
pub open spec fn find_index_from(regions: Seq<MemoryRegion>, addr: usize, i: int) -> int
    decreases regions.len() - i,
{
    if i < 0 || i >= regions.len() {
        -1
    } else if region_contains(regions[i], addr) {
        i
    } else {
        find_index_from(regions, addr, i + 1)
    }
}

/// The index of the first region that contains `addr`, or `-1`.
pub open spec fn find_index(regions: Seq<MemoryRegion>, addr: usize) -> int {
    find_index_from(regions, addr, 0)
}

proof fn lemma_find_index_from(regions: Seq<MemoryRegion>, addr: usize, i: int)
    requires
        0 <= i,
    ensures
        ({
            let r = find_index_from(regions, addr, i);
            &&& r == -1 || (i <= r < regions.len())
            &&& r == -1 ==> forall|j: int| i <= j < regions.len() ==> !region_contains(
                regions[j],
                addr,
            )
            &&& r >= 0 ==> region_contains(regions[r], addr) && (forall|j: int|
                i <= j < r ==> !region_contains(regions[j], addr))
        }),
    decreases regions.len() - i,
{
    if i < regions.len() && !region_contains(regions[i], addr) {
        lemma_find_index_from(regions, addr, i + 1);
    }
}

/// What `find_index` finds: the first region containing the address, or
/// `-1` exactly when no region contains it.
pub proof fn lemma_find_index(regions: Seq<MemoryRegion>, addr: usize)
    ensures
        ({
            let r = find_index(regions, addr);
            &&& r == -1 || (0 <= r < regions.len())
            &&& r == -1 ==> forall|j: int|
                0 <= j < regions.len() ==> !region_contains(regions[j], addr)
            &&& r >= 0 ==> region_contains(regions[r], addr) && (forall|j: int|
                0 <= j < r ==> !region_contains(regions[j], addr))
        }),
{
    lemma_find_index_from(regions, addr, 0);
}

/// Well-formedness of a modelled address space: every region has at
/// least one byte, and the regions are ordered and do not overlap.
pub open spec fn map_wf(regions: Seq<MemoryRegion>) -> bool {
    &&& forall|i: int| 0 <= i < regions.len() ==> (#[trigger] regions[i]).size >= 1
    &&& forall|i: int|
        0 <= i && i + 1 < regions.len() ==> (#[trigger] regions[i]).base + regions[i].size
            <= regions[i + 1].base
}

/// In a well-formed map every earlier region ends at or before a later
/// region's base.
pub proof fn lemma_wf_ordered(regions: Seq<MemoryRegion>, j: int, k: int)
    requires
        map_wf(regions),
        0 <= j < k < regions.len(),
    ensures
        regions[j].base + regions[j].size <= regions[k].base,
    decreases k - j,
{
    if j + 1 < k {
        lemma_wf_ordered(regions, j + 1, k);
    }
}

/// In a well-formed map, the region containing an address is unique, so
/// it is the one `find_index` finds.
pub proof fn lemma_find_index_unique(regions: Seq<MemoryRegion>, addr: usize, i: int)
    requires
        map_wf(regions),
        0 <= i < regions.len(),
        region_contains(regions[i], addr),
    ensures
        find_index(regions, addr) == i,
{
    lemma_find_index(regions, addr);
    assert forall|j: int| 0 <= j < regions.len() && j != i implies !region_contains(
        regions[j],
        addr,
    ) by {
        if j < i {
            lemma_wf_ordered(regions, j, i);
        } else {
            lemma_wf_ordered(regions, i, j);
        }
    }
}

/// The regions the walk collects, and whether it stopped on an address
/// computation that would wrap, when it enters the run at region `i` of
/// a well-formed map.
///
/// The walk ends at a free region or where the next region does not
/// start exactly at the current region's end; it collects exactly the
/// committed regions readable under the mask, in order.
pub open spec fn walk_run(regions: Seq<MemoryRegion>, i: int) -> (Seq<MemoryRegion>, bool)
    decreases regions.len() - i,
{
    if i < 0 || i >= regions.len() {
        (Seq::empty(), false)
    } else if regions[i].state == RegionState::Free {
        (Seq::empty(), false)
    } else if regions[i].base + regions[i].size > usize::MAX {
        (Seq::empty(), true)
    } else {
        let rest = if i + 1 < regions.len() && regions[i + 1].base == regions[i].base
            + regions[i].size {
            walk_run(regions, i + 1)
        } else {
            (Seq::<MemoryRegion>::empty(), false)
        };
        if is_readable_region(regions[i]) {
            (seq![regions[i]] + rest.0, rest.1)
        } else {
            rest
        }
    }
}

/// The result of the whole walk from a starting address: the collected
/// regions, and whether it was cut short by an address computation that
/// would wrap.
pub open spec fn walk_spec(regions: Seq<MemoryRegion>, start: usize) -> (Seq<MemoryRegion>, bool) {
    let i = find_index(regions, start);
    if i == -1 {
        (Seq::empty(), false)
    } else {
        walk_run(regions, i)
    }
}

/// After leaving region `i` at its end address, the walk finds the next
/// region exactly when it starts at that address.
#[verifier::rlimit(50)]
proof fn lemma_step_find(regions: Seq<MemoryRegion>, i: int, next: usize)
    requires
        map_wf(regions),
        0 <= i < regions.len(),
        next == regions[i].base + regions[i].size,
    ensures
        find_index(regions, next) == (if i + 1 < regions.len() && regions[i + 1].base == next {
            i + 1
        } else {
            -1
        }),
{
    if i + 1 < regions.len() && regions[i + 1].base == next {
        lemma_find_index_unique(regions, next, i + 1);
    } else {
        lemma_find_index(regions, next);
        if find_index(regions, next) >= 0 {
            let j = find_index(regions, next);
            if j <= i {
                if j < i {
                    lemma_wf_ordered(regions, j, i);
                }
            } else {
                lemma_wf_ordered(regions, i, j);
                if i + 1 < j {
                    lemma_wf_ordered(regions, i + 1, j);
                }
            }
        }
    }
}

/// A modelled address space: the ordered, non-overlapping regions that
/// the virtual-memory query primitive would report, as plain values.
pub struct MemoryMap {
    regions: Vec<MemoryRegion>,
}

impl View for MemoryMap {
    type V = Seq<MemoryRegion>;

    closed spec fn view(&self) -> Seq<MemoryRegion> {
        self.regions@
    }
}

impl MemoryMap {
    /// Well-formedness of the model.
    pub open spec fn wf(&self) -> bool {
        map_wf(self@)
    }

    /// Builds a map from regions, accepting exactly the well-formed ones.
    #[verifier::rlimit(50)]
    pub fn from_regions(regions: Vec<MemoryRegion>) -> (r: Option<MemoryMap>)
        ensures
            r is Some <==> map_wf(regions@),
            r matches Some(m) ==> m@ == regions@ && m.wf(),
    {
        let n = regions.len();
        let mut i: usize = 0;
        while i < n
            invariant
                0 <= i <= n == regions@.len(),
                forall|j: int| 0 <= j < i ==> (#[trigger] regions@[j]).size >= 1,
                forall|j: int|
                    0 <= j < i && j + 1 < regions@.len() ==> (#[trigger] regions@[j]).base
                        + regions@[j].size <= regions@[j + 1].base,
            decreases n - i,
        {
            if regions[i].size < 1 {
                return None;
            }
            if i + 1 < n {
                match regions[i].base.checked_add(regions[i].size) {
                    Some(end) => {
                        if end > regions[i + 1].base {
                            return None;
                        }
                    },
                    None => {
                        // the region's end exceeds every possible next base
                        return None;
                    },
                }
            }
            i = i + 1;
        }
        Some(MemoryMap { regions })
    }

    /// Answers one virtual-memory query against the model: the region
    /// containing the address, or nothing when the address is unmapped.
    pub fn query(&self, addr: usize) -> (r: Option<MemoryRegion>)
        ensures
            r == (if find_index(self@, addr) == -1 {
                Option::<MemoryRegion>::None
            } else {
                Some(self@[find_index(self@, addr)])
            }),
    {
        proof {
            lemma_find_index(self@, addr);
        }
        let n = self.regions.len();
        let mut i: usize = 0;
        while i < n
            invariant
                0 <= i <= n == self@.len(),
                forall|j: int| 0 <= j < i ==> !region_contains(self@[j], addr),
                find_index(self@, addr) == -1 || (0 <= find_index(self@, addr) < self@.len()),
                find_index(self@, addr) == -1 ==> forall|j: int|
                    0 <= j < self@.len() ==> !region_contains(self@[j], addr),
                find_index(self@, addr) >= 0 ==> region_contains(
                    self@[find_index(self@, addr)],
                    addr,
                ) && (forall|j: int|
                    0 <= j < find_index(self@, addr) ==> !region_contains(self@[j], addr)),
            decreases n - i,
        {
            let r = self.regions[i];
            if addr >= r.base && addr - r.base < r.size {
                proof {
                    if find_index(self@, addr) < i {
                        assert(!region_contains(self@[find_index(self@, addr)], addr));
                    }
                }
                return Some(r);
            }
            i = i + 1;
        }
        None
    }
}

/// One decision of the walk, taken from one virtual-memory query result.
#[derive(Clone, Copy, Debug, PartialEq, Eq, Structural)]
pub enum WalkDecision {
    /// Stop the walk normally: no region, or a free region.
    Halt,
    /// Stop early with the results collected so far: advancing the
    /// cursor past this region would wrap the address space.
    Fault,
    /// Advance to `next` without collecting the region.
    Skip { next: usize },
    /// Collect the region and advance to `next`.
    Record { next: usize },
}

/// The walk's decision on one query result.
pub open spec fn walk_step_spec(q: Option<MemoryRegion>) -> WalkDecision {
    match q {
        Option::None => WalkDecision::Halt,
        Option::Some(r) => {
            if r.state == RegionState::Free {
                WalkDecision::Halt
            } else if r.base + r.size > usize::MAX {
                WalkDecision::Fault
            } else if is_readable_region(r) {
                WalkDecision::Record { next: (r.base + r.size) as usize }
            } else {
                WalkDecision::Skip { next: (r.base + r.size) as usize }
            }
        },
    }
}

/// Takes the walk's decision on one virtual-memory query result: a free
/// or missing region ends the walk, any other region advances the cursor
/// to its end, and only a committed region readable under the mask is
/// collected.
pub fn walk_step(q: Option<MemoryRegion>) -> (d: WalkDecision)
    ensures
        d == walk_step_spec(q),
{
    match q {
        Option::None => WalkDecision::Halt,
        Option::Some(r) => {
            if r.state == RegionState::Free {
                WalkDecision::Halt
            } else {
                match r.base.checked_add(r.size) {
                    Option::None => WalkDecision::Fault,
                    Option::Some(next) => {
                        if r.state == RegionState::Committed && (r.protect
                            & READABLE_PROTECTION_MASK) != 0 {
                            WalkDecision::Record { next }
                        } else {
                            WalkDecision::Skip { next }
                        }
                    },
                }
            }
        },
    }
}

/// The loop's termination measure: how many regions can still lie ahead
/// of the cursor.
pub open spec fn walk_measure(regions: Seq<MemoryRegion>, cursor: usize) -> int {
    if find_index(regions, cursor) == -1 {
        0
    } else {
        regions.len() - find_index(regions, cursor)
    }
}

/// Walks forward from `base_address` through the modelled address space
/// and returns the ordered committed, readable regions of the contiguous
/// allocation run, ending at the first free or unmapped address.
///
/// No failure is signaled for an unmapped starting address: the result
/// is simply empty. The one reported error is
/// `SystemInvariantViolation`, when an advance would wrap the address
/// space; the walk then ends early and the regions collected so far are
/// still returned.
#[verifier::rlimit(50)]
pub fn get_readable_pages_by_address(map: &MemoryMap, base_address: usize) -> (r: (
    Vec<MemoryRegion>,
    Option<ToolkitError>,
))
    requires
        map.wf(),
    ensures
        r.0@ == walk_spec(map@, base_address).0,
        r.1 == (if walk_spec(map@, base_address).1 {
            Some(ToolkitError::SystemInvariantViolation)
        } else {
            Option::<ToolkitError>::None
        }),
{
    let mut cursor = base_address;
    let mut out: Vec<MemoryRegion> = Vec::new();
    proof {
        assert(out@ + walk_spec(map@, cursor).0 =~= walk_spec(map@, base_address).0);
    }
    loop
        invariant
            map.wf(),
            walk_spec(map@, base_address).0 == out@ + walk_spec(map@, cursor).0,
            walk_spec(map@, base_address).1 == walk_spec(map@, cursor).1,
        decreases walk_measure(map@, cursor),
    {
        let ghost regions = map@;
        let ghost i = find_index(regions, cursor);
        proof {
            lemma_find_index(regions, cursor);
        }
        let q = map.query(cursor);
        match walk_step(q) {
            WalkDecision::Halt => {
                proof {
                    if i >= 0 {
                        assert(q == Some(regions[i]));
                        assert(regions[i].state == RegionState::Free);
                        assert(walk_run(regions, i) == (Seq::<MemoryRegion>::empty(), false));
                    }
                    assert(walk_spec(regions, cursor).0 =~= Seq::<MemoryRegion>::empty());
                    assert(out@ + walk_spec(regions, cursor).0 =~= out@);
                }
                return (out, None);
            },
            WalkDecision::Fault => {
                proof {
                    assert(q is Some);
                    assert(i >= 0);
                    assert(q == Some(regions[i]));
                    assert(regions[i].state != RegionState::Free);
                    assert(regions[i].base + regions[i].size > usize::MAX);
                    assert(walk_run(regions, i) == (Seq::<MemoryRegion>::empty(), true));
                    assert(walk_spec(regions, cursor).1 == true);
                    assert(out@ + walk_spec(regions, cursor).0 =~= out@);
                }
                return (out, Some(ToolkitError::SystemInvariantViolation));
            },
            WalkDecision::Skip { next } => {
                proof {
                    assert(q is Some);
                    assert(i >= 0);
                    assert(q == Some(regions[i]));
                    assert(regions[i].state != RegionState::Free);
                    assert(!is_readable_region(regions[i]));
                    assert(next == regions[i].base + regions[i].size);
                    lemma_step_find(regions, i, next);
                    assert(walk_spec(regions, next) == walk_run(regions, i));
                }
                cursor = next;
            },
            WalkDecision::Record { next } => {
                proof {
                    assert(q is Some);
                    assert(i >= 0);
                    assert(q == Some(regions[i]));
                    assert(regions[i].state != RegionState::Free);
                    assert(is_readable_region(regions[i]));
                    assert(next == regions[i].base + regions[i].size);
                    lemma_step_find(regions, i, next);
                }
                if let Some(r) = q {
                    out.push(r);
                    proof {
                        assert(walk_run(regions, i).0 =~= seq![r] + walk_spec(regions, next).0);
                        assert(walk_run(regions, i).1 == walk_spec(regions, next).1);
                        assert(out@ + walk_spec(regions, next).0 =~= walk_spec(
                            regions,
                            base_address,
                        ).0);
                    }
                    cursor = next;
                } else {
                    proof {
                        assert(false);
                    }
                    return (out, None);
                }
            },
        }
    }
}

proof fn lemma_walk_run_only_readable(regions: Seq<MemoryRegion>, i: int)
    ensures
        forall|k: int|
            0 <= k < walk_run(regions, i).0.len() ==> is_readable_region(
                #[trigger] walk_run(regions, i).0[k],
            ),
    decreases regions.len() - i,
{
    if 0 <= i < regions.len() && regions[i].state != RegionState::Free && regions[i].base
        + regions[i].size <= usize::MAX {
        let has_next = i + 1 < regions.len() && regions[i + 1].base == regions[i].base
            + regions[i].size;
        if has_next {
            lemma_walk_run_only_readable(regions, i + 1);
        }
        let rest = if has_next {
            walk_run(regions, i + 1)
        } else {
            (Seq::<MemoryRegion>::empty(), false)
        };
        if is_readable_region(regions[i]) {
            assert(walk_run(regions, i).0 == seq![regions[i]] + rest.0);
            assert forall|k: int| 0 <= k < walk_run(regions, i).0.len() implies is_readable_region(
                walk_run(regions, i).0[k],
            ) by {
                if k > 0 {
                    assert(walk_run(regions, i).0[k] == rest.0[k - 1]);
                }
            }
        } else {
            assert(walk_run(regions, i).0 == rest.0);
        }
    }
}

/// Law: the walk never returns a free region, nor one whose protection
/// flags are all zero under the readable mask — every returned region is
/// committed and readable.
pub proof fn lemma_walk_only_readable(regions: Seq<MemoryRegion>, start: usize)
    ensures
        forall|k: int|
            0 <= k < walk_spec(regions, start).0.len() ==> is_readable_region(
                #[trigger] walk_spec(regions, start).0[k],
            ),
{
    let i = find_index(regions, start);
    if i != -1 {
        lemma_walk_run_only_readable(regions, i);
    }
}

/// Law: on a starting address that no region contains, the walk returns
/// an empty sequence and signals no error.
pub proof fn lemma_walk_unmapped(regions: Seq<MemoryRegion>, start: usize)
    requires
        forall|j: int| 0 <= j < regions.len() ==> !region_contains(#[trigger] regions[j], start),
    ensures
        walk_spec(regions, start).0 == Seq::<MemoryRegion>::empty(),
        !walk_spec(regions, start).1,
{
    lemma_find_index(regions, start);
}

#[verifier::rlimit(50)]
proof fn lemma_walk_run_contiguous(regions: Seq<MemoryRegion>, k: int, j: int)
    requires
        map_wf(regions),
        0 <= k <= j < regions.len(),
        forall|m: int|
            k <= m < j ==> (#[trigger] regions[m]).state == RegionState::Committed && (
            regions[m].protect & READABLE_PROTECTION_MASK) != 0,
        forall|m: int|
            k <= m < j ==> (#[trigger] regions[m]).base + regions[m].size == regions[m + 1].base,
        regions[j].state == RegionState::Free,
    ensures
        walk_run(regions, k).0 =~= regions.subrange(k, j),
        !walk_run(regions, k).1,
    decreases j - k,
{
    if k == j {
        assert(walk_run(regions, k).0 =~= regions.subrange(k, j));
    } else {
        assert(regions[k].state == RegionState::Committed);
        assert(regions[k].base + regions[k].size == regions[k + 1].base);
        assert(regions[k].base + regions[k].size <= usize::MAX);
        assert(is_readable_region(regions[k]));
        lemma_walk_run_contiguous(regions, k + 1, j);
        assert(walk_run(regions, k).0 =~= seq![regions[k]] + walk_run(regions, k + 1).0);
        assert(seq![regions[k]] + regions.subrange(k + 1, j) =~= regions.subrange(k, j));
    }
}

/// Law: on a starting address inside a run of committed, readable,
/// contiguous regions closed off by a free region, the walk returns
/// exactly the regions of the run from the containing one on — as many
/// as the map reports before the free region, in order, tiling the span
/// from the containing region's base up to (not including) the free
/// region's base, with no gaps and no overlaps — and signals no error.
#[verifier::rlimit(50)]
pub proof fn lemma_walk_contiguous_run(regions: Seq<MemoryRegion>, start: usize, i: int, j: int)
    requires
        map_wf(regions),
        0 <= i <= j < regions.len(),
        region_contains(regions[i], start),
        forall|m: int|
            i <= m < j ==> (#[trigger] regions[m]).state == RegionState::Committed && (
            regions[m].protect & READABLE_PROTECTION_MASK) != 0,
        forall|m: int|
            i <= m < j ==> (#[trigger] regions[m]).base + regions[m].size == regions[m + 1].base,
        regions[j].state == RegionState::Free,
    ensures
        walk_spec(regions, start).0 == regions.subrange(i, j),
        walk_spec(regions, start).0.len() == j - i,
        !walk_spec(regions, start).1,
{
    lemma_find_index_unique(regions, start, i);
    lemma_walk_run_contiguous(regions, i, j);
}

} // verus!
