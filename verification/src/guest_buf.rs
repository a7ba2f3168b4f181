//! Guest-owned media buffers as the host sees them.
//!
//! A guest that owns its buffers hands over a list of guest-physical ranges. Such a list becomes
//! a linear view of the bytes: large ones by mapping the guest's pages back to back, small ones
//! by a copy that is written back. Where the pages are is the one thing that must be right: an
//! address is resolved to its region, and what is mapped is the region's place in the object
//! that backs it plus the address's place in the region. The host's right to touch the bytes is
//! checked before anything is mapped or copied.
use crate::errno;
use crate::guest_mem;
use crate::guest_mem::AccessFault;
use crate::guest_mem::AddressRange;
use crate::guest_mem::GuestMemory;
use crate::guest_mem::MemoryRegion;
use vstd::prelude::*;

verus! {

/// Below this many bytes a buffer is copied rather than mapped.
pub const MAPPING_THRESHOLD: usize = 0x400;

/// Which rule of a linear list was broken.
#[derive(Clone, Copy, Debug, PartialEq, Eq, Structural)]
pub enum NotLinear {
    /// An entry but the first does not start on a page boundary.
    Start,
    /// An entry but the last does not end on one.
    End,
}

/// Why a buffer was not imported.
#[derive(Clone, Copy, Debug, PartialEq, Eq, Structural)]
pub enum ImportError {
    Empty,
    NotLinear(NotLinear),
    /// The range is lent to the guest.
    Inaccessible(u64, usize),
    OutsideWindows(u64, usize),
    /// The range is no guest memory.
    InvalidRange(u64, usize),
    Overflow,
    /// The host arena could not be built.
    Arena,
    /// The pages could not be held.
    Grant,
    /// No dma-buf could be built.
    Udmabuf,
}

impl ImportError {
    /// The error number the guest gets.
    pub fn errno(&self) -> (e: i32)
        ensures
            e == match *self {
                ImportError::Inaccessible(..) | ImportError::OutsideWindows(..) => errno::EFAULT,
                ImportError::Empty
                | ImportError::NotLinear(_)
                | ImportError::InvalidRange(..)
                | ImportError::Overflow => errno::EINVAL,
                ImportError::Arena | ImportError::Grant => errno::ENOMEM,
                ImportError::Udmabuf => errno::EIO,
            },
    {
        match *self {
            ImportError::Inaccessible(..) | ImportError::OutsideWindows(..) => errno::EFAULT,
            ImportError::Empty
            | ImportError::NotLinear(_)
            | ImportError::InvalidRange(..)
            | ImportError::Overflow => errno::EINVAL,
            ImportError::Arena | ImportError::Grant => errno::ENOMEM,
            ImportError::Udmabuf => errno::EIO,
        }
    }
}

/// Who decides whether the host may touch a range.
pub enum HostAccessPolicy {
    /// The guest memory itself, which knows what is lent.
    GuestMemory,
    /// These windows, where the memory at hand cannot tell. The memory is asked as well.
    Windows(Vec<AddressRange>),
}

/// Whether one window holds all of `len` bytes from `addr` on.
pub open spec fn inside_a_window(windows: Seq<AddressRange>, addr: int, len: int) -> bool {
    exists|i: int|
        0 <= i < windows.len() && (#[trigger] windows[i]).start <= addr && addr + len - 1
            <= windows[i].end
}

/// Why the memory refuses a range.
pub open spec fn gate_fault(mem: GuestMemory, addr: u64, len: usize) -> Option<ImportError> {
    match guest_mem::access_fault(mem, addr as int, len as int) {
        None => None,
        Some(AccessFault::Protected) => Some(ImportError::Inaccessible(addr, len)),
        Some(AccessFault::Invalid) => Some(ImportError::InvalidRange(addr, len)),
    }
}

/// Why a policy refuses a range.
pub open spec fn check_fault(
    policy: HostAccessPolicy,
    mem: GuestMemory,
    addr: u64,
    len: usize,
) -> Option<ImportError> {
    match policy {
        HostAccessPolicy::GuestMemory => gate_fault(mem, addr, len),
        HostAccessPolicy::Windows(w) => if len != 0 && addr + len - 1 > u64::MAX {
            Some(ImportError::Overflow)
        } else if len != 0 && !inside_a_window(w@, addr as int, len as int) {
            Some(ImportError::OutsideWindows(addr, len))
        } else {
            gate_fault(mem, addr, len)
        },
    }
}

impl HostAccessPolicy {
    /// Refuses `len` bytes from `addr` on unless the host may touch all of them.
    pub fn check(&self, mem: &GuestMemory, addr: u64, len: usize) -> (r: Result<(), ImportError>)
        requires
            mem.wf(),
        ensures
            match r {
                Ok(()) => check_fault(*self, *mem, addr, len) is None,
                Err(e) => check_fault(*self, *mem, addr, len) == Some(e),
            },
    {
        match self {
            HostAccessPolicy::GuestMemory => {},
            HostAccessPolicy::Windows(windows) => {
                let range = match AddressRange::from_start_and_size(addr, len as u64) {
                    Some(range) => range,
                    None => {
                        return Err(ImportError::Overflow);
                    },
                };
                if len != 0 {
                    let mut found = false;
                    let mut i: usize = 0;
                    while i < windows.len() && !found
                        invariant
                            i <= windows@.len(),
                            len != 0,
                            range.start == addr,
                            range.end == addr + len - 1,
                            found ==> inside_a_window(windows@, addr as int, len as int),
                            !found ==> forall|j: int|
                                0 <= j < i ==> !((#[trigger] windows@[j]).start <= addr && addr
                                    + len - 1 <= windows@[j].end),
                        decreases windows@.len() - i,
                    {
                        if windows[i].contains_range(range) {
                            assert(windows@[i as int].start <= addr);
                            found = true;
                        }
                        i = i + 1;
                    }
                    if !found {
                        return Err(ImportError::OutsideWindows(addr, len));
                    }
                }
            },
        }
        match mem.check_range(addr, len as u64) {
            Ok(()) => Ok(()),
            Err(AccessFault::Protected) => Err(ImportError::Inaccessible(addr, len)),
            Err(AccessFault::Invalid) => Err(ImportError::InvalidRange(addr, len)),
        }
    }
}

/// The regions of which the host may touch every byte.
pub open spec fn accessible_regions(
    regions: Seq<MemoryRegion>,
    memory_is_lent: bool,
) -> Seq<MemoryRegion>
    decreases regions.len(),
{
    if regions.len() == 0 {
        Seq::empty()
    } else {
        let rest = accessible_regions(regions.drop_last(), memory_is_lent);
        if !memory_is_lent || regions.last().purpose.stays_shared() {
            rest.push(regions.last())
        } else {
            rest
        }
    }
}

/// The range of addresses of a region.
pub open spec fn region_range(r: MemoryRegion) -> AddressRange {
    AddressRange { start: r.guest_addr, end: (r.guest_addr + r.size - 1) as u64 }
}

/// The windows the host may touch, for a process whose memory table does not tell: every region
/// where the memory is not lent, those that stay shared where it is.
pub fn host_accessible_windows(mem: &GuestMemory, memory_is_lent: bool) -> (windows: Vec<
    AddressRange,
>)
    requires
        mem.wf(),
    ensures
        windows@ == accessible_regions(mem.regions@, memory_is_lent).map_values(
            |r: MemoryRegion| region_range(r),
        ),
{
    let mut windows: Vec<AddressRange> = Vec::new();
    let mut i: usize = 0;
    let ghost range = |r: MemoryRegion| region_range(r);
    assert(mem.regions@.take(0) =~= Seq::empty());
    assert(windows@ =~= accessible_regions(mem.regions@.take(0), memory_is_lent).map_values(range));
    while i < mem.regions.len()
        invariant
            mem.wf(),
            i <= mem.regions@.len(),
            range == (|r: MemoryRegion| region_range(r)),
            windows@ == accessible_regions(
                mem.regions@.take(i as int),
                memory_is_lent,
            ).map_values(range),
        decreases mem.regions@.len() - i,
    {
        let r = mem.regions[i];
        let ghost done = accessible_regions(mem.regions@.take(i as int), memory_is_lent);
        proof {
            assert(mem.regions@[i as int].wf());
            assert(mem.regions@.take(i + 1).drop_last() =~= mem.regions@.take(i as int));
        }
        if !memory_is_lent || r.purpose.is_shared() {
            match AddressRange::from_start_and_size(r.guest_addr, r.size) {
                Some(window) => {
                    windows.push(window);
                    assert(windows@ =~= done.push(r).map_values(range));
                },
                None => {},
            }
        }
        i = i + 1;
    }
    assert(mem.regions@.take(i as int) =~= mem.regions@);
    windows
}

/// A window list made from a memory is that memory's own rule: a range inside one window is one
/// that the protected memory does not hold back.
pub proof fn law_windows_agree_with_the_memory(mem: GuestMemory, i: int, addr: int, len: int)
    requires
        mem.wf(),
        mem.protected,
        0 <= i < mem.regions@.len(),
        mem.regions@[i].holds(addr),
        addr + len <= mem.regions@[i].guest_addr + mem.regions@[i].size,
        0 < len,
        guest_mem::region_at(mem.regions@, addr) == Some(mem.regions@[i]),
    ensures
        mem.regions@[i].purpose.stays_shared() <==> guest_mem::access_fault(mem, addr, len) is None,
        mem.regions@[i].purpose.stays_shared() ==> inside_a_window(
            accessible_regions(mem.regions@, true).map_values(|r: MemoryRegion| region_range(r)),
            addr,
            len,
        ),
{
    if mem.regions@[i].purpose.stays_shared() {
        let j = lemma_shared_is_listed(mem.regions@, i);
        let windows = accessible_regions(mem.regions@, true).map_values(
            |r: MemoryRegion| region_range(r),
        );
        assert(mem.regions@[i].wf());
        assert(windows[j] == region_range(mem.regions@[i]));
    }
}

proof fn lemma_shared_is_listed(regions: Seq<MemoryRegion>, i: int) -> (j: int)
    requires
        0 <= i < regions.len(),
        regions[i].purpose.stays_shared(),
    ensures
        0 <= j < accessible_regions(regions, true).len(),
        accessible_regions(regions, true)[j] == regions[i],
    decreases regions.len(),
{
    if i == regions.len() - 1 {
        accessible_regions(regions, true).len() - 1
    } else {
        let j = lemma_shared_is_listed(regions.drop_last(), i);
        j
    }
}

// The linear view.

/// How many bytes the first `k` entries of a list hold.
pub open spec fn sg_len(sgs: Seq<(u64, usize)>, k: int) -> int
    decreases k,
{
    if k <= 0 {
        0
    } else {
        sg_len(sgs, k - 1) + sgs[k - 1].1
    }
}

/// How many bytes of whole pages an entry asks for, its place in its first page included.
pub open spec fn entry_span(sg: (u64, usize), page: int) -> int {
    sg.0 as int % page + sg.1
}

/// The spans of the first `k` entries together.
pub open spec fn arena_bytes(sgs: Seq<(u64, usize)>, page: int, k: int) -> int
    decreases k,
{
    if k <= 0 {
        0
    } else {
        arena_bytes(sgs, page, k - 1) + entry_span(sgs[k - 1], page)
    }
}

/// Where the pages of entry `k` go: behind those of the entries before it.
pub open spec fn map_pos(sgs: Seq<(u64, usize)>, page: int, k: int) -> int
    decreases k,
{
    if k <= 0 {
        0
    } else {
        map_pos(sgs, page, k - 1) + guest_mem::page_up(entry_span(sgs[k - 1], page), page)
    }
}

/// Why the ends of the entries from `i` on make the list not linear.
pub open spec fn end_fault(sgs: Seq<(u64, usize)>, page: int, i: int) -> Option<ImportError>
    decreases sgs.len() - i,
{
    if i >= sgs.len() - 1 {
        None
    } else if sgs[i].0 + sgs[i].1 > u64::MAX {
        Some(ImportError::Overflow)
    } else if (sgs[i].0 + sgs[i].1) % page != 0 {
        Some(ImportError::NotLinear(NotLinear::End))
    } else {
        end_fault(sgs, page, i + 1)
    }
}

/// Why the sizes of the entries from `i` on cannot be taken.
pub open spec fn size_fault(sgs: Seq<(u64, usize)>, page: int, i: int) -> Option<ImportError>
    decreases sgs.len() - i,
{
    if i >= sgs.len() {
        None
    } else if sgs[i].1 == 0 {
        Some(ImportError::Empty)
    } else if arena_bytes(sgs, page, i + 1) > u64::MAX || sg_len(sgs, i + 1) > usize::MAX {
        Some(ImportError::Overflow)
    } else {
        size_fault(sgs, page, i + 1)
    }
}

/// Why a list cannot be made linear.
pub open spec fn list_fault(sgs: Seq<(u64, usize)>, page: int) -> Option<ImportError> {
    if sgs.len() == 0 {
        Some(ImportError::Empty)
    } else if exists|i: int| 1 <= i < sgs.len() && (#[trigger] sgs[i]).0 as int % page != 0 {
        Some(ImportError::NotLinear(NotLinear::Start))
    } else if end_fault(sgs, page, 0) is Some {
        end_fault(sgs, page, 0)
    } else {
        size_fault(sgs, page, 0)
    }
}

/// Why the pages of one entry cannot be mapped: the policy says so, or they are not all in the
/// region that holds the first of them.
pub open spec fn part_fault(
    policy: HostAccessPolicy,
    mem: GuestMemory,
    page: int,
    sg: (u64, usize),
) -> Option<ImportError> {
    if check_fault(policy, mem, sg.0, sg.1) is Some {
        check_fault(policy, mem, sg.0, sg.1)
    } else {
        let first = sg.0 - sg.0 as int % page;
        match guest_mem::region_at(mem.regions@, first) {
            None => Some(ImportError::InvalidRange(sg.0, sg.1)),
            Some(r) => if first - r.guest_addr + guest_mem::page_up(entry_span(sg, page), page) > r.size {
                Some(ImportError::InvalidRange(sg.0, sg.1))
            } else {
                None
            },
        }
    }
}

/// The first fault among the entries from `i` on.
pub open spec fn map_fault(
    policy: HostAccessPolicy,
    mem: GuestMemory,
    page: int,
    sgs: Seq<(u64, usize)>,
    i: int,
) -> Option<ImportError>
    decreases sgs.len() - i,
{
    if i >= sgs.len() {
        None
    } else if part_fault(policy, mem, page, sgs[i]) is Some {
        part_fault(policy, mem, page, sgs[i])
    } else {
        map_fault(policy, mem, page, sgs, i + 1)
    }
}

/// Pages of the guest's memory and where they go in the linear view.
#[derive(Clone, Copy, Debug, PartialEq, Eq, Structural)]
pub struct ArenaPart {
    /// Where in the arena.
    pub pos: u64,
    pub len: u64,
    /// The object that backs the pages.
    pub shm: i32,
    /// Where in that object they are.
    pub shm_offset: u64,
}

/// What the pages of entry `k` are mapped from.
pub open spec fn part_of(
    mem: GuestMemory,
    page: int,
    sgs: Seq<(u64, usize)>,
    k: int,
    part: ArenaPart,
) -> bool {
    let first = sgs[k].0 - sgs[k].0 as int % page;
    match guest_mem::region_at(mem.regions@, first) {
        None => false,
        Some(r) => {
            &&& part.pos == map_pos(sgs, page, k)
            &&& part.len == guest_mem::page_up(entry_span(sgs[k], page), page)
            &&& part.shm == r.shm
            &&& part.shm_offset == r.shm_offset + (first - r.guest_addr)
            &&& first - r.guest_addr + part.len <= r.size
        },
    }
}

/// Whether the sums that a list asks for can be rounded to whole pages within a machine word.
pub open spec fn rounds(sgs: Seq<(u64, usize)>, page: int) -> bool {
    &&& forall|i: int| 0 <= i < sgs.len() ==> (#[trigger] sgs[i]).1 + 2 * page <= u64::MAX
    &&& arena_bytes(sgs, page, sgs.len() as int) <= u64::MAX ==> arena_bytes(
        sgs,
        page,
        sgs.len() as int,
    ) + page <= u64::MAX
}

proof fn lemma_arena_grows(sgs: Seq<(u64, usize)>, page: int, i: int, k: int)
    requires
        0 <= i <= k <= sgs.len(),
        0 < page,
    ensures
        0 <= arena_bytes(sgs, page, i) <= arena_bytes(sgs, page, k),
        0 <= map_pos(sgs, page, i) <= map_pos(sgs, page, k),
        0 <= sg_len(sgs, i) <= sg_len(sgs, k),
        arena_bytes(sgs, page, i) <= map_pos(sgs, page, i),
        sg_len(sgs, i) <= arena_bytes(sgs, page, i),
    decreases k,
{
    if i < k {
        lemma_arena_grows(sgs, page, i, k - 1);
        guest_mem::lemma_page_up(entry_span(sgs[k - 1], page), page);
    } else if k > 0 {
        lemma_arena_grows(sgs, page, k - 1, k - 1);
        guest_mem::lemma_page_up(entry_span(sgs[k - 1], page), page);
    }
}

proof fn lemma_end_ok(sgs: Seq<(u64, usize)>, page: int, from: int, i: int)
    requires
        0 <= from <= i < sgs.len() - 1,
        end_fault(sgs, page, from) is None,
    ensures
        (sgs[i].0 + sgs[i].1) % page == 0,
    decreases i - from,
{
    if from < i {
        lemma_end_ok(sgs, page, from + 1, i);
    }
}

/// The linear view is linear: byte 0 of entry `k` stands, in the arena, right behind the last
/// byte of the entry before it.
pub proof fn law_arena_is_linear(sgs: Seq<(u64, usize)>, page: int, k: int)
    requires
        0 < page,
        list_fault(sgs, page) is None,
        0 <= k < sgs.len(),
    ensures
        map_pos(sgs, page, k) + sgs[k].0 as int % page == sgs[0].0 as int % page + sg_len(sgs, k),
    decreases k,
{
    if k > 0 {
        let p = k - 1;
        law_arena_is_linear(sgs, page, p);
        lemma_end_ok(sgs, page, 0, p);
        assert(sgs[k].0 as int % page == 0);
        let a = sgs[p].0 as int;
        let n = sgs[p].1 as int;
        assert((a % page + n) % page == 0) by {
            vstd::arithmetic::div_mod::lemma_add_mod_noop_right(n, a, page);
        }
        guest_mem::lemma_page_up(entry_span(sgs[p], page), page);
    }
}

/// Every byte of the view is the guest's: byte `j` of entry `k` is, in the object that backs its
/// region, as far from the region's start there as its address is in the guest.
pub proof fn law_view_shows_the_guests_bytes(
    mem: GuestMemory,
    page: int,
    sgs: Seq<(u64, usize)>,
    k: int,
    j: int,
    part: ArenaPart,
)
    requires
        0 < page,
        0 <= k < sgs.len(),
        0 <= j < sgs[k].1,
        list_fault(sgs, page) is None,
        part_of(mem, page, sgs, k, part),
    ensures
        ({
            let first = sgs[k].0 - sgs[k].0 as int % page;
            let r = guest_mem::region_at(mem.regions@, first)->0;
            let place = sgs[0].0 as int % page + sg_len(sgs, k) + j;
            &&& part.pos <= place < part.pos + part.len
            &&& part.shm_offset + (place - part.pos) == r.shm_offset + (sgs[k].0 + j - r.guest_addr)
            &&& sgs[k].0 + j < r.guest_addr + r.size
        }),
{
    law_arena_is_linear(sgs, page, k);
    guest_mem::lemma_page_up(entry_span(sgs[k], page), page);
}

proof fn lemma_size_ok(sgs: Seq<(u64, usize)>, page: int, i: int)
    requires
        0 <= i <= sgs.len(),
        size_fault(sgs, page, i) is None,
        i == 0 || (arena_bytes(sgs, page, i) <= u64::MAX && sg_len(sgs, i) <= usize::MAX),
    ensures
        arena_bytes(sgs, page, sgs.len() as int) <= u64::MAX,
        sg_len(sgs, sgs.len() as int) <= usize::MAX,
    decreases sgs.len() - i,
{
    if i < sgs.len() {
        lemma_size_ok(sgs, page, i + 1);
    }
}

/// The arena is filled: its size is where the pages of the last entry end.
pub proof fn law_arena_is_filled(sgs: Seq<(u64, usize)>, page: int)
    requires
        0 < page,
        list_fault(sgs, page) is None,
    ensures
        map_pos(sgs, page, sgs.len() as int) == guest_mem::page_up(
            arena_bytes(sgs, page, sgs.len() as int),
            page,
        ),
{
    let n = sgs.len() as int;
    law_arena_is_linear(sgs, page, n - 1);
    lemma_arena_sum(sgs, page, n - 1);
    let a = map_pos(sgs, page, n - 1);
    let x = entry_span(sgs[n - 1], page);
    lemma_pos_whole_pages(sgs, page, n - 1);
    vstd::arithmetic::div_mod::lemma_fundamental_div_mod(a, page);
    let d = a / page;
    assert(page * d == d * page) by (nonlinear_arith);
    vstd::arithmetic::div_mod::lemma_fundamental_div_mod(x + page - 1, page);
    let q = (x + page - 1) / page;
    assert(page * (d + q) == page * d + page * q) by (nonlinear_arith);
    assert((d + q) * page == d * page + q * page) by (nonlinear_arith);
    vstd::arithmetic::div_mod::lemma_fundamental_div_mod_converse(
        a + x + page - 1,
        page,
        d + q,
        (x + page - 1) % page,
    );
}

proof fn lemma_pos_whole_pages(sgs: Seq<(u64, usize)>, page: int, k: int)
    requires
        0 < page,
        0 <= k <= sgs.len(),
    ensures
        map_pos(sgs, page, k) % page == 0,
    decreases k,
{
    vstd::arithmetic::div_mod::lemma_small_mod(0, page as nat);
    if k > 0 {
        lemma_pos_whole_pages(sgs, page, k - 1);
        guest_mem::lemma_page_up(entry_span(sgs[k - 1], page), page);
        vstd::arithmetic::div_mod::lemma_add_mod_noop(
            map_pos(sgs, page, k - 1),
            guest_mem::page_up(entry_span(sgs[k - 1], page), page),
            page,
        );
    }
}

/// The spans of the entries before `k` are what their pages take.
proof fn lemma_arena_sum(sgs: Seq<(u64, usize)>, page: int, k: int)
    requires
        0 < page,
        list_fault(sgs, page) is None,
        0 <= k < sgs.len(),
    ensures
        arena_bytes(sgs, page, k) == map_pos(sgs, page, k),
    decreases k,
{
    if k > 0 {
        lemma_arena_sum(sgs, page, k - 1);
        lemma_end_ok(sgs, page, 0, k - 1);
        vstd::arithmetic::div_mod::lemma_add_mod_noop_right(
            sgs[k - 1].1 as int,
            sgs[k - 1].0 as int,
            page,
        );
        guest_mem::lemma_page_up(entry_span(sgs[k - 1], page), page);
    }
}

/// A linear mapping of sparse guest memory: what to map where.
pub struct GuestArenaMapping {
    parts: Vec<ArenaPart>,
    arena_size: u64,
    start_offset: u64,
    len: usize,
}

/// The plain sums and ends of a list.
fn check_list(sgs: &Vec<(u64, usize)>, page: u64) -> (r: Result<(u64, usize), ImportError>)
    requires
        0 < page,
        rounds(sgs@, page as int),
    ensures
        match r {
            Ok((span, len)) => {
                &&& list_fault(sgs@, page as int) is None
                &&& span == arena_bytes(sgs@, page as int, sgs@.len() as int)
                &&& len == sg_len(sgs@, sgs@.len() as int)
            },
            Err(e) => list_fault(sgs@, page as int) == Some(e),
        },
{
    if sgs.len() == 0 {
        return Err(ImportError::Empty);
    }
    let mut i: usize = 1;
    while i < sgs.len()
        invariant
            0 < page,
            1 <= i <= sgs@.len(),
            forall|j: int| 1 <= j < i ==> (#[trigger] sgs@[j]).0 as int % page as int == 0,
        decreases sgs@.len() - i,
    {
        if sgs[i].0 % page != 0 {
            assert(sgs@[i as int].0 as int % page as int != 0);
            return Err(ImportError::NotLinear(NotLinear::Start));
        }
        i = i + 1;
    }
    assert(!exists|i: int| 1 <= i < sgs@.len() && (#[trigger] sgs@[i]).0 as int % page as int != 0);
    i = 0;
    while i < sgs.len() - 1
        invariant
            0 < page,
            0 < sgs@.len(),
            i <= sgs@.len() - 1,
            end_fault(sgs@, page as int, 0) == end_fault(sgs@, page as int, i as int),
            !exists|i: int| 1 <= i < sgs@.len() && (#[trigger] sgs@[i]).0 as int % page as int != 0,
        decreases sgs@.len() - i,
    {
        let end: u64 = match sgs[i].0.checked_add(sgs[i].1 as u64) {
            Some(end) => end,
            None => {
                return Err(ImportError::Overflow);
            },
        };
        if end % page != 0 {
            return Err(ImportError::NotLinear(NotLinear::End));
        }
        i = i + 1;
    }
    let mut span: u64 = 0;
    let mut total: usize = 0;
    i = 0;
    while i < sgs.len()
        invariant
            0 < page,
            rounds(sgs@, page as int),
            i <= sgs@.len(),
            span == arena_bytes(sgs@, page as int, i as int),
            total == sg_len(sgs@, i as int),
            0 < sgs@.len(),
            end_fault(sgs@, page as int, 0) is None,
            !exists|i: int| 1 <= i < sgs@.len() && (#[trigger] sgs@[i]).0 as int % page as int != 0,
            size_fault(sgs@, page as int, 0) == size_fault(sgs@, page as int, i as int),
        decreases sgs@.len() - i,
    {
        let len: usize = sgs[i].1;
        if len == 0 {
            return Err(ImportError::Empty);
        }
        assert(sgs@[i as int].1 + 2 * page <= u64::MAX);
        assert(sgs@[i as int].0 as int % (page as int) < page);
        span = match span.checked_add(sgs[i].0 % page + len as u64) {
            Some(span) => span,
            None => {
                return Err(ImportError::Overflow);
            },
        };
        total = match total.checked_add(len) {
            Some(total) => total,
            None => {
                return Err(ImportError::Overflow);
            },
        };
        i = i + 1;
    }
    Ok((span, total))
}

impl GuestArenaMapping {
    /// What to map, in order.
    pub closed spec fn parts(&self) -> Seq<ArenaPart> {
        self.parts@
    }

    /// How many bytes to reserve.
    pub closed spec fn arena_size(&self) -> int {
        self.arena_size as int
    }

    /// Where in the arena the view starts.
    pub closed spec fn start_offset(&self) -> int {
        self.start_offset as int
    }

    /// How long the view is.
    pub closed spec fn view_len(&self) -> int {
        self.len as int
    }

    /// The mapping that shows a list of guest ranges as one.
    pub open spec fn shows(&self, mem: GuestMemory, sgs: Seq<(u64, usize)>, page: int) -> bool {
        &&& self.view_len() == sg_len(sgs, sgs.len() as int)
        &&& self.start_offset() == sgs[0].0 as int % page
        &&& self.arena_size() == guest_mem::page_up(arena_bytes(sgs, page, sgs.len() as int), page)
        &&& self.parts().len() == sgs.len()
        &&& forall|k: int|
            0 <= k < sgs.len() ==> #[trigger] part_of(mem, page, sgs, k, self.parts()[k])
    }

    /// Plans the mapping of a list of guest ranges.
    ///
    /// Whole pages are mapped back to back, so every entry but the first starts on a page, every
    /// entry but the last ends on one. Each entry is checked before its pages are taken.
    pub fn new(
        mem: &GuestMemory,
        sgs: &Vec<(u64, usize)>,
        policy: &HostAccessPolicy,
        page: u64,
    ) -> (r: Result<Self, ImportError>)
        requires
            mem.wf(),
            0 < page,
            rounds(sgs@, page as int),
        ensures
            match r {
                Ok(m) => {
                    &&& list_fault(sgs@, page as int) is None
                    &&& map_fault(*policy, *mem, page as int, sgs@, 0) is None
                    &&& m.shows(*mem, sgs@, page as int)
                },
                Err(e) => if list_fault(sgs@, page as int) is Some {
                    list_fault(sgs@, page as int) == Some(e)
                } else {
                    map_fault(*policy, *mem, page as int, sgs@, 0) == Some(e)
                },
            },
    {
        let (span, len) = match check_list(sgs, page) {
            Ok(sums) => sums,
            Err(e) => {
                return Err(e);
            },
        };
        let arena_size: u64 = guest_mem::round_to_pages(span, page);
        let mut parts: Vec<ArenaPart> = Vec::new();
        let mut pos: u64 = 0;
        let mut i: usize = 0;
        proof {
            law_arena_is_filled(sgs@, page as int);
        }
        while i < sgs.len()
            invariant
                mem.wf(),
                0 < page,
                rounds(sgs@, page as int),
                list_fault(sgs@, page as int) is None,
                i <= sgs@.len(),
                arena_size == map_pos(sgs@, page as int, sgs@.len() as int),
                pos == map_pos(sgs@, page as int, i as int),
                parts@.len() == i,
                forall|k: int|
                    0 <= k < i ==> #[trigger] part_of(*mem, page as int, sgs@, k, parts@[k]),
                map_fault(*policy, *mem, page as int, sgs@, 0) == map_fault(
                    *policy,
                    *mem,
                    page as int,
                    sgs@,
                    i as int,
                ),
            decreases sgs@.len() - i,
        {
            let (addr, len) = sgs[i];
            match policy.check(mem, addr, len) {
                Ok(()) => {},
                Err(e) => {
                    return Err(e);
                },
            }
            assert(sgs@[i as int].1 + 2 * page <= u64::MAX);
            assert(addr as int % (page as int) < page);
            proof {
                vstd::arithmetic::div_mod::lemma_mod_decreases(addr as nat, page as nat);
            }
            let first: u64 = addr - addr % page;
            let map_len: u64 = guest_mem::round_to_pages(addr % page + len as u64, page);
            proof {
                guest_mem::lemma_page_up(entry_span(sgs@[i as int], page as int), page as int);
                lemma_arena_grows(sgs@, page as int, i + 1, sgs@.len() as int);
            }
            let region = match mem.find_region(first) {
                Some(region) => region,
                None => {
                    return Err(ImportError::InvalidRange(addr, len));
                },
            };
            let map_offset: u64 = first - region.guest_addr;
            if map_len > region.size - map_offset {
                return Err(ImportError::InvalidRange(addr, len));
            }
            let ghost prev = parts@;
            parts.push(
                ArenaPart {
                    pos,
                    len: map_len,
                    shm: region.shm,
                    shm_offset: region.shm_offset + map_offset,
                },
            );
            assert(part_of(*mem, page as int, sgs@, i as int, parts@[i as int]));
            assert forall|k: int| 0 <= k < i + 1 implies #[trigger] part_of(
                *mem,
                page as int,
                sgs@,
                k,
                parts@[k],
            ) by {
                if k < i {
                    assert(parts@[k] == prev[k]);
                }
            }
            pos = pos + map_len;
            i = i + 1;
        }
        Ok(GuestArenaMapping { parts, arena_size, start_offset: sgs[0].0 % page, len })
    }

    /// How long the view is.
    pub fn len(&self) -> (n: usize)
        ensures
            n == self.view_len(),
    {
        self.len
    }

    /// Whether the view is empty.
    pub fn is_empty(&self) -> (b: bool)
        ensures
            b == (self.view_len() == 0),
    {
        self.len == 0
    }

    /// What to map, in order.
    pub fn mapped_parts(&self) -> (p: &Vec<ArenaPart>)
        ensures
            p@ == self.parts(),
    {
        &self.parts
    }

    /// How many bytes to reserve, and where in them the view starts.
    pub fn layout(&self) -> (l: (u64, u64))
        ensures
            l.0 == self.arena_size(),
            l.1 == self.start_offset(),
    {
        (self.arena_size, self.start_offset)
    }
}

// The copy.

/// The first fault among the entries from `i` on that a copy meets.
pub open spec fn copy_fault(
    policy: HostAccessPolicy,
    mem: GuestMemory,
    sgs: Seq<(u64, usize)>,
    i: int,
) -> Option<ImportError>
    decreases sgs.len() - i,
{
    if i >= sgs.len() {
        None
    } else if check_fault(policy, mem, sgs[i].0, sgs[i].1) is Some {
        check_fault(policy, mem, sgs[i].0, sgs[i].1)
    } else {
        copy_fault(policy, mem, sgs, i + 1)
    }
}

/// Why the length of a list cannot be taken: it is not a number of the machine, or it is zero.
pub open spec fn total_fault(sgs: Seq<(u64, usize)>) -> Option<ImportError> {
    if sg_len(sgs, sgs.len() as int) > usize::MAX {
        Some(ImportError::Overflow)
    } else if sg_len(sgs, sgs.len() as int) == 0 {
        Some(ImportError::Empty)
    } else {
        None
    }
}

proof fn lemma_sg_len_grows(sgs: Seq<(u64, usize)>, i: int, k: int)
    requires
        0 <= i <= k <= sgs.len(),
    ensures
        0 <= sg_len(sgs, i) <= sg_len(sgs, k),
    decreases k,
{
    if i < k {
        lemma_sg_len_grows(sgs, i, k - 1);
    } else if k > 0 {
        lemma_sg_len_grows(sgs, k - 1, k - 1);
    }
}

/// The length of a list.
fn total_len(sgs: &Vec<(u64, usize)>) -> (r: Result<usize, ImportError>)
    ensures
        match r {
            Ok(n) => total_fault(sgs@) is None && n == sg_len(sgs@, sgs@.len() as int),
            Err(e) => total_fault(sgs@) == Some(e),
        },
{
    let mut total: usize = 0;
    let mut i: usize = 0;
    while i < sgs.len()
        invariant
            i <= sgs@.len(),
            total == sg_len(sgs@, i as int),
        decreases sgs@.len() - i,
    {
        proof {
            lemma_sg_len_grows(sgs@, i + 1, sgs@.len() as int);
        }
        total = match total.checked_add(sgs[i].1) {
            Some(total) => total,
            None => {
                return Err(ImportError::Overflow);
            },
        };
        i = i + 1;
    }
    if total == 0 {
        return Err(ImportError::Empty);
    }
    Ok(total)
}

/// Bytes of a copy and where in the guest they belong.
#[derive(Clone, Copy, Debug, PartialEq, Eq, Structural)]
pub struct ShadowPart {
    /// Where in the copy.
    pub pos: usize,
    pub addr: u64,
    pub len: usize,
}

/// Which bytes of a copy belong where.
pub open spec fn shadow_parts(sgs: Seq<(u64, usize)>) -> Seq<ShadowPart> {
    Seq::new(
        sgs.len(),
        |k: int| ShadowPart { pos: sg_len(sgs, k) as usize, addr: sgs[k].0, len: sgs[k].1 },
    )
}

/// The parts of a copy lie end to end: none of its bytes belongs to two places, and none to no
/// place.
pub proof fn law_shadow_parts_tile(sgs: Seq<(u64, usize)>, i: int) -> (k: int)
    requires
        total_fault(sgs) is None,
        0 <= i < sg_len(sgs, sgs.len() as int),
    ensures
        0 <= k < sgs.len(),
        shadow_parts(sgs)[k].pos <= i < shadow_parts(sgs)[k].pos + shadow_parts(sgs)[k].len,
        forall|m: int|
            0 <= m < sgs.len() && m != k ==> !((#[trigger] shadow_parts(sgs)[m]).pos <= i
                < shadow_parts(sgs)[m].pos + shadow_parts(sgs)[m].len),
{
    let k = lemma_find_part(sgs, i, sgs.len() as int);
    lemma_sg_len_grows(sgs, k, sgs.len() as int);
    assert forall|m: int| 0 <= m < sgs.len() && m != k implies !((#[trigger] shadow_parts(
        sgs,
    )[m]).pos <= i < shadow_parts(sgs)[m].pos + shadow_parts(sgs)[m].len) by {
        lemma_sg_len_grows(sgs, m, sgs.len() as int);
        if m < k {
            lemma_sg_len_grows(sgs, m + 1, k);
        } else {
            lemma_sg_len_grows(sgs, k + 1, m);
        }
    }
    k
}

proof fn lemma_find_part(sgs: Seq<(u64, usize)>, i: int, n: int) -> (k: int)
    requires
        0 <= n <= sgs.len(),
        0 <= i < sg_len(sgs, n),
    ensures
        0 <= k < n,
        sg_len(sgs, k) <= i < sg_len(sgs, k) + sgs[k].1,
    decreases n,
{
    if i >= sg_len(sgs, n - 1) {
        n - 1
    } else {
        lemma_find_part(sgs, i, n - 1)
    }
}

/// A copy of sparse guest memory that is written back where it may have been changed.
pub struct GuestShadowMapping {
    data: Vec<u8>,
    sgs: Vec<(u64, usize)>,
    dirty: bool,
}

impl GuestShadowMapping {
    /// The bytes.
    pub closed spec fn data(&self) -> Seq<u8> {
        self.data@
    }

    /// The guest ranges they are a copy of.
    pub closed spec fn sgs(&self) -> Seq<(u64, usize)> {
        self.sgs@
    }

    /// Whether they may have been changed.
    pub closed spec fn dirty(&self) -> bool {
        self.dirty
    }

    pub open spec fn wf(&self) -> bool {
        &&& total_fault(self.sgs()) is None
        &&& self.data().len() == sg_len(self.sgs(), self.sgs().len() as int)
    }

    /// Prepares the copy of a list of guest ranges, once every entry was checked. The bytes are
    /// still to be [loaded](Self::load).
    pub fn new(mem: &GuestMemory, sgs: Vec<(u64, usize)>, policy: &HostAccessPolicy) -> (r: Result<
        Self,
        ImportError,
    >)
        requires
            mem.wf(),
        ensures
            match r {
                Ok(s) => {
                    &&& total_fault(sgs@) is None
                    &&& copy_fault(*policy, *mem, sgs@, 0) is None
                    &&& s.wf()
                    &&& s.sgs() == sgs@
                    &&& !s.dirty()
                },
                Err(e) => if total_fault(sgs@) is Some {
                    total_fault(sgs@) == Some(e)
                } else {
                    copy_fault(*policy, *mem, sgs@, 0) == Some(e)
                },
            },
    {
        let total: usize = match total_len(&sgs) {
            Ok(total) => total,
            Err(e) => {
                return Err(e);
            },
        };
        let mut i: usize = 0;
        while i < sgs.len()
            invariant
                mem.wf(),
                i <= sgs@.len(),
                total_fault(sgs@) is None,
                copy_fault(*policy, *mem, sgs@, 0) == copy_fault(*policy, *mem, sgs@, i as int),
            decreases sgs@.len() - i,
        {
            match policy.check(mem, sgs[i].0, sgs[i].1) {
                Ok(()) => {},
                Err(e) => {
                    return Err(e);
                },
            }
            i = i + 1;
        }
        let mut data: Vec<u8> = Vec::new();
        while data.len() < total
            invariant
                data@.len() <= total,
            decreases total - data@.len(),
        {
            data.push(0);
        }
        Ok(GuestShadowMapping { data, sgs, dirty: false })
    }

    /// Which bytes of the copy belong where in the guest: what to load, and what to write back.
    pub fn parts(&self) -> (parts: Vec<ShadowPart>)
        requires
            self.wf(),
        ensures
            parts@ == shadow_parts(self.sgs()),
    {
        let mut parts: Vec<ShadowPart> = Vec::new();
        let mut pos: usize = 0;
        let mut i: usize = 0;
        while i < self.sgs.len()
            invariant
                self.wf(),
                i <= self.sgs@.len(),
                pos == sg_len(self.sgs@, i as int),
                parts@ == shadow_parts(self.sgs@).take(i as int),
            decreases self.sgs@.len() - i,
        {
            proof {
                lemma_sg_len_grows(self.sgs@, i + 1, self.sgs@.len() as int);
            }
            let (addr, len) = self.sgs[i];
            parts.push(ShadowPart { pos, addr, len });
            assert(parts@ =~= shadow_parts(self.sgs@).take(i + 1));
            pos = pos + len;
            i = i + 1;
        }
        assert(parts@ =~= shadow_parts(self.sgs@));
        parts
    }

    /// Takes bytes as the guest holds them.
    pub fn load(&mut self, pos: usize, bytes: &[u8])
        requires
            old(self).wf(),
            pos + bytes@.len() <= old(self).data().len(),
        ensures
            final(self).wf(),
            final(self).sgs() == old(self).sgs(),
            final(self).dirty() == old(self).dirty(),
            final(self).data() == Seq::new(
                old(self).data().len(),
                |i: int|
                    if pos <= i < pos + bytes@.len() {
                        bytes@[i - pos]
                    } else {
                        old(self).data()[i]
                    },
            ),
    {
        let end: usize = self.data.len();
        let mut i: usize = 0;
        while i < bytes.len()
            invariant
                i <= bytes@.len(),
                end == self.data@.len(),
                pos + bytes@.len() <= end,
                self.sgs() == old(self).sgs(),
                self.dirty() == old(self).dirty(),
                self.data@.len() == old(self).data().len(),
                forall|j: int|
                    0 <= j < end ==> #[trigger] self.data@[j] == if pos <= j < pos + i {
                        bytes@[j - pos]
                    } else {
                        old(self).data()[j]
                    },
            decreases bytes@.len() - i,
        {
            self.data.set(pos + i, bytes[i]);
            i = i + 1;
        }
        assert(self.data@ =~= Seq::new(
            old(self).data().len(),
            |i: int|
                if pos <= i < pos + bytes@.len() {
                    bytes@[i - pos]
                } else {
                    old(self).data()[i]
                },
        ));
    }

    /// How long the copy is.
    pub fn len(&self) -> (n: usize)
        ensures
            n == self.data().len(),
    {
        self.data.len()
    }

    /// Whether the copy is empty.
    pub fn is_empty(&self) -> (b: bool)
        ensures
            b == (self.data().len() == 0),
    {
        self.data.len() == 0
    }

    /// The bytes, to read.
    pub fn as_slice(&self) -> (d: &[u8])
        ensures
            d@ == self.data(),
    {
        self.data.as_slice()
    }

    /// The bytes, to change. From here on they count as changed.
    pub fn as_mut_slice(&mut self) -> (d: &mut [u8])
        ensures
            d@ == old(self).data(),
            final(self).data() == final(d)@,
            final(self).sgs() == old(self).sgs(),
            final(self).dirty(),
    {
        self.dirty = true;
        self.data.as_mut_slice()
    }

    /// What to write back when the copy goes away: nothing unless it may have been changed.
    pub fn write_back(&self) -> (parts: Vec<ShadowPart>)
        requires
            self.wf(),
        ensures
            parts@ == if self.dirty() {
                shadow_parts(self.sgs())
            } else {
                Seq::empty()
            },
    {
        if !self.dirty {
            return Vec::new();
        }
        self.parts()
    }
}

/// Guest memory either mapped or copied.
pub enum GuestMemoryChunk {
    Mapping(GuestArenaMapping),
    Shadow(GuestShadowMapping),
}

impl GuestMemoryChunk {
    /// How many bytes there are.
    pub open spec fn view_len(&self) -> int {
        match self {
            GuestMemoryChunk::Mapping(m) => m.view_len(),
            GuestMemoryChunk::Shadow(s) => s.data().len() as int,
        }
    }

    /// How many bytes there are.
    pub fn len(&self) -> (n: usize)
        ensures
            n == self.view_len(),
    {
        match self {
            GuestMemoryChunk::Mapping(m) => m.len(),
            GuestMemoryChunk::Shadow(s) => s.len(),
        }
    }

    /// Whether there are none.
    pub fn is_empty(&self) -> (b: bool)
        ensures
            b == (self.view_len() == 0),
    {
        self.len() == 0
    }
}

/// A guest-owned buffer: its ranges, a linear view of them, and whether a dma-buf holds its
/// pages.
pub struct GuestBufferImport {
    sgs: Vec<(u64, usize)>,
    mapping: GuestMemoryChunk,
    dmabuf: bool,
}

/// Why a list is not imported.
pub open spec fn import_fault(
    policy: HostAccessPolicy,
    mem: GuestMemory,
    page: int,
    sgs: Seq<(u64, usize)>,
) -> Option<ImportError> {
    if total_fault(sgs) is Some {
        total_fault(sgs)
    } else if sg_len(sgs, sgs.len() as int) < MAPPING_THRESHOLD {
        copy_fault(policy, mem, sgs, 0)
    } else if list_fault(sgs, page) is Some {
        list_fault(sgs, page)
    } else {
        map_fault(policy, mem, page, sgs, 0)
    }
}

/// What building a dma-buf takes.
#[derive(Clone, Copy, Debug, PartialEq, Eq, Structural)]
pub enum DmabufStep {
    /// It is there.
    Ready,
    /// Hold the pages, then build it.
    HoldPages,
}

impl GuestBufferImport {
    /// The guest's ranges.
    pub closed spec fn ranges(&self) -> Seq<(u64, usize)> {
        self.sgs@
    }

    /// The linear view.
    pub closed spec fn chunk(&self) -> GuestMemoryChunk {
        self.mapping
    }

    /// Whether a dma-buf holds the pages.
    pub closed spec fn has_dmabuf(&self) -> bool {
        self.dmabuf
    }

    /// Imports a list of guest ranges: small ones by copy, the others by mapping.
    pub fn new(
        mem: &GuestMemory,
        sgs: Vec<(u64, usize)>,
        policy: &HostAccessPolicy,
        page: u64,
    ) -> (r: Result<Self, ImportError>)
        requires
            mem.wf(),
            0 < page,
            rounds(sgs@, page as int),
        ensures
            match r {
                Ok(b) => {
                    &&& import_fault(*policy, *mem, page as int, sgs@) is None
                    &&& b.ranges() == sgs@
                    &&& !b.has_dmabuf()
                    &&& b.chunk().view_len() == sg_len(sgs@, sgs@.len() as int)
                    &&& match b.chunk() {
                        GuestMemoryChunk::Shadow(s) => {
                            &&& sg_len(sgs@, sgs@.len() as int) < MAPPING_THRESHOLD
                            &&& s.wf() && s.sgs() == sgs@ && !s.dirty()
                        },
                        GuestMemoryChunk::Mapping(m) => {
                            &&& sg_len(sgs@, sgs@.len() as int) >= MAPPING_THRESHOLD
                            &&& m.shows(*mem, sgs@, page as int)
                        },
                    }
                },
                Err(e) => import_fault(*policy, *mem, page as int, sgs@) == Some(e),
            },
    {
        let total: usize = match total_len(&sgs) {
            Ok(total) => total,
            Err(e) => {
                return Err(e);
            },
        };
        let mapping = if total >= MAPPING_THRESHOLD {
            match GuestArenaMapping::new(mem, &sgs, policy, page) {
                Ok(m) => GuestMemoryChunk::Mapping(m),
                Err(e) => {
                    return Err(e);
                },
            }
        } else {
            match GuestShadowMapping::new(mem, copy_list(&sgs), policy) {
                Ok(s) => GuestMemoryChunk::Shadow(s),
                Err(e) => {
                    return Err(e);
                },
            }
        };
        Ok(GuestBufferImport { sgs, mapping, dmabuf: false })
    }

    /// The guest's ranges.
    pub fn sgs(&self) -> (s: &Vec<(u64, usize)>)
        ensures
            s@ == self.ranges(),
    {
        &self.sgs
    }

    /// The linear view.
    pub fn mapping(&self) -> (m: &GuestMemoryChunk)
        ensures
            *m == self.chunk(),
    {
        &self.mapping
    }

    /// The linear view, to change.
    pub fn mapping_mut(&mut self) -> (m: &mut GuestMemoryChunk)
        ensures
            *m == old(self).chunk(),
            final(self).chunk() == *final(m),
            final(self).ranges() == old(self).ranges(),
            final(self).has_dmabuf() == old(self).has_dmabuf(),
    {
        &mut self.mapping
    }

    /// How many bytes the buffer holds.
    pub fn len(&self) -> (n: usize)
        ensures
            n == self.chunk().view_len(),
    {
        self.mapping.len()
    }

    /// Whether it holds none.
    pub fn is_empty(&self) -> (b: bool)
        ensures
            b == (self.chunk().view_len() == 0),
    {
        self.mapping.is_empty()
    }

    /// Whether the view is a copy.
    pub fn is_shadowed(&self) -> (b: bool)
        ensures
            b == (self.chunk() is Shadow),
    {
        match self.mapping {
            GuestMemoryChunk::Shadow(_) => true,
            GuestMemoryChunk::Mapping(_) => false,
        }
    }

    /// What a dma-buf over the pages takes. It is built once.
    pub fn dmabuf(&self) -> (step: DmabufStep)
        ensures
            step == if self.has_dmabuf() {
                DmabufStep::Ready
            } else {
                DmabufStep::HoldPages
            },
    {
        if self.dmabuf {
            DmabufStep::Ready
        } else {
            DmabufStep::HoldPages
        }
    }

    /// Takes whether the pages are held.
    pub fn on_held(&self, held: bool) -> (r: Result<(), ImportError>)
        ensures
            r == if held {
                Ok::<(), ImportError>(())
            } else {
                Err(ImportError::Grant)
            },
    {
        if held {
            Ok(())
        } else {
            Err(ImportError::Grant)
        }
    }

    /// Takes whether the dma-buf was built over pages that are held. On an error the pages are
    /// to be let go.
    pub fn on_built(&mut self, built: bool) -> (r: Result<(), ImportError>)
        ensures
            final(self).ranges() == old(self).ranges(),
            final(self).chunk() == old(self).chunk(),
            final(self).has_dmabuf() == (old(self).has_dmabuf() || built),
            r == if built {
                Ok::<(), ImportError>(())
            } else {
                Err(ImportError::Udmabuf)
            },
    {
        if built {
            self.dmabuf = true;
            Ok(())
        } else {
            Err(ImportError::Udmabuf)
        }
    }

    /// Whether pages are to be let go when the buffer goes away, once its dma-buf is closed.
    pub fn on_drop(&mut self) -> (let_go: bool)
        ensures
            let_go == old(self).has_dmabuf(),
            !final(self).has_dmabuf(),
            final(self).ranges() == old(self).ranges(),
            final(self).chunk() == old(self).chunk(),
    {
        let held = self.dmabuf;
        self.dmabuf = false;
        held
    }
}

/// A copy of a list.
fn copy_list(sgs: &Vec<(u64, usize)>) -> (r: Vec<(u64, usize)>)
    ensures
        r@ == sgs@,
{
    let mut r: Vec<(u64, usize)> = Vec::new();
    let mut i: usize = 0;
    while i < sgs.len()
        invariant
            i <= sgs@.len(),
            r@ == sgs@.take(i as int),
        decreases sgs@.len() - i,
    {
        r.push(sgs[i]);
        assert(r@ =~= sgs@.take(i + 1));
        i = i + 1;
    }
    assert(r@ =~= sgs@);
    r
}

proof fn lemma_map_fault_none(
    policy: HostAccessPolicy,
    mem: GuestMemory,
    page: int,
    sgs: Seq<(u64, usize)>,
    i: int,
    k: int,
)
    requires
        0 <= i <= k < sgs.len(),
        map_fault(policy, mem, page, sgs, i) is None,
    ensures
        part_fault(policy, mem, page, sgs[k]) is None,
    decreases k - i,
{
    if i < k {
        lemma_map_fault_none(policy, mem, page, sgs, i + 1, k);
    }
}

proof fn lemma_copy_fault_none(
    policy: HostAccessPolicy,
    mem: GuestMemory,
    sgs: Seq<(u64, usize)>,
    i: int,
    k: int,
)
    requires
        0 <= i <= k < sgs.len(),
        copy_fault(policy, mem, sgs, i) is None,
    ensures
        check_fault(policy, mem, sgs[k].0, sgs[k].1) is None,
    decreases k - i,
{
    if i < k {
        lemma_copy_fault_none(policy, mem, sgs, i + 1, k);
    }
}

/// Whichever way a buffer is imported, the policy agreed to every one of its entries.
pub proof fn law_imported_is_checked(
    policy: HostAccessPolicy,
    mem: GuestMemory,
    page: int,
    sgs: Seq<(u64, usize)>,
    k: int,
)
    requires
        import_fault(policy, mem, page, sgs) is None,
        0 <= k < sgs.len(),
    ensures
        check_fault(policy, mem, sgs[k].0, sgs[k].1) is None,
{
    if sg_len(sgs, sgs.len() as int) < MAPPING_THRESHOLD {
        lemma_copy_fault_none(policy, mem, sgs, 0, k);
    } else {
        lemma_map_fault_none(policy, mem, page, sgs, 0, k);
    }
}

/// The length of a list is the sum of its entries' lengths.
pub proof fn law_lengths_add_up(sgs: Seq<(u64, usize)>, k: int)
    requires
        0 <= k,
    ensures
        sg_len(sgs, 0) == 0,
        sg_len(sgs, k + 1) == sg_len(sgs, k) + sgs[k].1,
{
}

/// A list is taken however many entries it has: it is refused only where it is empty or has an
/// empty entry, where an entry but the first does not start on a page or one but the last does not
/// end on one, or where its sums do not fit the machine.
pub proof fn law_a_good_list_is_taken(sgs: Seq<(u64, usize)>, page: int)
    requires
        0 < page,
        sgs.len() > 0,
        forall|i: int| 0 <= i < sgs.len() ==> 0 < (#[trigger] sgs[i]).1,
        forall|i: int| 1 <= i < sgs.len() ==> (#[trigger] sgs[i]).0 as int % page == 0,
        forall|i: int|
            0 <= i < sgs.len() - 1 ==> (#[trigger] sgs[i]).0 + sgs[i].1 <= u64::MAX && (sgs[i].0
                + sgs[i].1) % page == 0,
        sgs[0].0 as int % page + sg_len(sgs, sgs.len() as int) <= u64::MAX,
        sg_len(sgs, sgs.len() as int) <= usize::MAX,
    ensures
        list_fault(sgs, page) is None,
{
    lemma_ends_are_good(sgs, page, 0);
    lemma_span_sum(sgs, page, sgs.len() as int);
    lemma_sizes_are_good(sgs, page, 0);
}

proof fn lemma_ends_are_good(sgs: Seq<(u64, usize)>, page: int, i: int)
    requires
        0 <= i,
        forall|i: int|
            0 <= i < sgs.len() - 1 ==> (#[trigger] sgs[i]).0 + sgs[i].1 <= u64::MAX && (sgs[i].0
                + sgs[i].1) % page == 0,
    ensures
        end_fault(sgs, page, i) is None,
    decreases sgs.len() - i,
{
    if i < sgs.len() - 1 {
        lemma_ends_are_good(sgs, page, i + 1);
    }
}

proof fn lemma_span_sum(sgs: Seq<(u64, usize)>, page: int, k: int)
    requires
        0 < page,
        1 <= k <= sgs.len(),
        forall|i: int| 1 <= i < sgs.len() ==> (#[trigger] sgs[i]).0 as int % page == 0,
    ensures
        arena_bytes(sgs, page, k) == sgs[0].0 as int % page + sg_len(sgs, k),
    decreases k,
{
    if k > 1 {
        lemma_span_sum(sgs, page, k - 1);
        assert(sgs[k - 1].0 as int % page == 0);
    } else {
        assert(arena_bytes(sgs, page, 0) == 0);
        assert(sg_len(sgs, 0) == 0);
    }
}

proof fn lemma_sizes_are_good(sgs: Seq<(u64, usize)>, page: int, i: int)
    requires
        0 < page,
        0 <= i,
        forall|i: int| 0 <= i < sgs.len() ==> 0 < (#[trigger] sgs[i]).1,
        arena_bytes(sgs, page, sgs.len() as int) <= u64::MAX,
        sg_len(sgs, sgs.len() as int) <= usize::MAX,
    ensures
        size_fault(sgs, page, i) is None,
    decreases sgs.len() - i,
{
    if i < sgs.len() {
        lemma_arena_grows(sgs, page, i + 1, sgs.len() as int);
        lemma_sizes_are_good(sgs, page, i + 1);
    }
}

/// A list that is taken keeps every rule.
pub proof fn law_a_taken_list_keeps_the_rules(sgs: Seq<(u64, usize)>, page: int, k: int)
    requires
        0 < page,
        list_fault(sgs, page) is None,
        0 <= k < sgs.len(),
    ensures
        sgs.len() > 0,
        0 < sgs[k].1,
        k > 0 ==> sgs[k].0 as int % page == 0,
        k < sgs.len() - 1 ==> (sgs[k].0 + sgs[k].1) % page == 0,
        sg_len(sgs, sgs.len() as int) <= usize::MAX,
{
    if k < sgs.len() - 1 {
        lemma_end_ok(sgs, page, 0, k);
    }
    lemma_size_ok(sgs, page, 0);
    lemma_size_rules(sgs, page, 0, k);
}

proof fn lemma_size_rules(sgs: Seq<(u64, usize)>, page: int, i: int, k: int)
    requires
        0 <= i <= k < sgs.len(),
        size_fault(sgs, page, i) is None,
    ensures
        0 < sgs[k].1,
    decreases k - i,
{
    if i < k {
        lemma_size_rules(sgs, page, i + 1, k);
    }
}

/// What a list is refused with is what is wrong with it.
pub proof fn law_a_refused_list_breaks_a_rule(sgs: Seq<(u64, usize)>, page: int)
    requires
        0 < page,
    ensures
        sgs.len() == 0 ==> list_fault(sgs, page) == Some(ImportError::Empty),
        list_fault(sgs, page) == Some(ImportError::Empty) ==> sgs.len() == 0 || exists|i: int|
            0 <= i < sgs.len() && (#[trigger] sgs[i]).1 == 0,
        list_fault(sgs, page) == Some(ImportError::NotLinear(NotLinear::Start)) ==> exists|i: int|
            1 <= i < sgs.len() && (#[trigger] sgs[i]).0 as int % page != 0,
        list_fault(sgs, page) == Some(ImportError::NotLinear(NotLinear::End)) ==> exists|i: int|
            0 <= i < sgs.len() - 1 && ((#[trigger] sgs[i]).0 + sgs[i].1) % page != 0,
        list_fault(sgs, page) matches Some(e) ==> e is Empty || e is NotLinear || e is Overflow,
{
    lemma_end_reason(sgs, page, 0);
    lemma_size_reason(sgs, page, 0);
}

proof fn lemma_end_reason(sgs: Seq<(u64, usize)>, page: int, i: int)
    requires
        0 <= i,
    ensures
        end_fault(sgs, page, i) matches Some(e) ==> e is Overflow || e == ImportError::NotLinear(
            NotLinear::End,
        ),
        end_fault(sgs, page, i) == Some(ImportError::NotLinear(NotLinear::End)) ==> exists|j: int|
            i <= j < sgs.len() - 1 && ((#[trigger] sgs[j]).0 + sgs[j].1) % page != 0,
    decreases sgs.len() - i,
{
    if i < sgs.len() - 1 {
        lemma_end_reason(sgs, page, i + 1);
    }
}

proof fn lemma_size_reason(sgs: Seq<(u64, usize)>, page: int, i: int)
    requires
        0 <= i,
    ensures
        size_fault(sgs, page, i) matches Some(e) ==> e is Overflow || e is Empty,
        size_fault(sgs, page, i) == Some(ImportError::Empty) ==> exists|j: int|
            i <= j < sgs.len() && (#[trigger] sgs[j]).1 == 0,
    decreases sgs.len() - i,
{
    if i < sgs.len() {
        lemma_size_reason(sgs, page, i + 1);
    }
}

/// A policy of the memory's own agrees to a range of which the region of its first byte holds all,
/// unless that region is lent. One of windows asks, besides, for one window that holds all of it.
pub proof fn law_a_policy_agrees_to_what_is_the_hosts(
    policy: HostAccessPolicy,
    mem: GuestMemory,
    addr: u64,
    len: usize,
    i: int,
)
    requires
        0 < len,
        addr + len <= u64::MAX,
        0 <= i < mem.regions@.len(),
        mem.regions@[i].guest_addr <= addr < mem.regions@[i].guest_addr + mem.regions@[i].size,
        forall|j: int|
            0 <= j < i ==> !((#[trigger] mem.regions@[j]).guest_addr <= addr
                < mem.regions@[j].guest_addr + mem.regions@[j].size),
    ensures
        ({
            let r = mem.regions@[i];
            let free = addr + len <= r.guest_addr + r.size && (!mem.protected
                || r.purpose.stays_shared());
            let seen = policy matches HostAccessPolicy::Windows(w) ==> exists|k: int|
                0 <= k < w@.len() && (#[trigger] w@[k]).start <= addr && addr + len - 1
                    <= w@[k].end;
            &&& check_fault(policy, mem, addr, len) is None <==> free && seen
            &&& policy is GuestMemory && mem.protected && !r.purpose.stays_shared() ==> check_fault(
                policy,
                mem,
                addr,
                len,
            ) == Some(ImportError::Inaccessible(addr, len))
            &&& !seen ==> check_fault(policy, mem, addr, len) == Some(
                ImportError::OutsideWindows(addr, len),
            )
        }),
{
    guest_mem::law_a_range_lies_in_one_region(mem, addr as int, len as int, i);
}

/// A list that keeps the rules, and whose entries all lie with their whole pages in one region that
/// the policy agrees to, is imported, however many entries it has.
pub proof fn law_a_good_list_is_imported(
    policy: HostAccessPolicy,
    mem: GuestMemory,
    page: int,
    sgs: Seq<(u64, usize)>,
)
    requires
        0 < page,
        list_fault(sgs, page) is None,
        forall|k: int|
            #![trigger sgs[k]]
            0 <= k < sgs.len() ==> check_fault(policy, mem, sgs[k].0, sgs[k].1) is None && (
            guest_mem::region_at(mem.regions@, sgs[k].0 - sgs[k].0 as int % page) matches Some(r)
                && sgs[k].0 + sgs[k].1 + page <= r.guest_addr + r.size + 1),
    ensures
        import_fault(policy, mem, page, sgs) is None,
{
    lemma_size_ok(sgs, page, 0);
    lemma_arena_grows(sgs, page, 1, sgs.len() as int);
    law_a_taken_list_keeps_the_rules(sgs, page, 0);
    assert(sg_len(sgs, 1) == sgs[0].1) by {
        reveal_with_fuel(sg_len, 2);
    }
    lemma_all_parts_are_good(policy, mem, page, sgs, 0);
    lemma_all_copies_are_good(policy, mem, sgs, 0);
}

proof fn lemma_all_parts_are_good(
    policy: HostAccessPolicy,
    mem: GuestMemory,
    page: int,
    sgs: Seq<(u64, usize)>,
    i: int,
)
    requires
        0 < page,
        0 <= i,
        forall|k: int|
            #![trigger sgs[k]]
            0 <= k < sgs.len() ==> check_fault(policy, mem, sgs[k].0, sgs[k].1) is None && (
            guest_mem::region_at(mem.regions@, sgs[k].0 - sgs[k].0 as int % page) matches Some(r)
                && sgs[k].0 + sgs[k].1 + page <= r.guest_addr + r.size + 1),
    ensures
        map_fault(policy, mem, page, sgs, i) is None,
    decreases sgs.len() - i,
{
    if i < sgs.len() {
        lemma_all_parts_are_good(policy, mem, page, sgs, i + 1);
        guest_mem::lemma_page_up(entry_span(sgs[i], page), page);
    }
}

proof fn lemma_all_copies_are_good(
    policy: HostAccessPolicy,
    mem: GuestMemory,
    sgs: Seq<(u64, usize)>,
    i: int,
)
    requires
        0 <= i,
        forall|k: int|
            #![trigger sgs[k]]
            0 <= k < sgs.len() ==> check_fault(policy, mem, sgs[k].0, sgs[k].1) is None,
    ensures
        copy_fault(policy, mem, sgs, i) is None,
    decreases sgs.len() - i,
{
    if i < sgs.len() {
        lemma_all_copies_are_good(policy, mem, sgs, i + 1);
    }
}

/// Pages that end where their region does are taken, too: an entry of whole pages needs no byte
/// behind them.
pub proof fn law_whole_pages_are_taken(
    policy: HostAccessPolicy,
    mem: GuestMemory,
    page: int,
    sg: (u64, usize),
    r: MemoryRegion,
)
    requires
        0 < page,
        check_fault(policy, mem, sg.0, sg.1) is None,
        sg.0 as int % page == 0,
        sg.1 as int % page == 0,
        guest_mem::region_at(mem.regions@, sg.0 as int) == Some(r),
    ensures
        part_fault(policy, mem, page, sg) is None <==> sg.0 + sg.1 <= r.guest_addr + r.size,
{
    guest_mem::lemma_page_up(entry_span(sg, page), page);
}

/// A short list is copied, and then its entries may start and end anywhere: it is imported where
/// the policy agrees to each of them.
pub proof fn law_a_short_list_has_no_page_rules(
    policy: HostAccessPolicy,
    mem: GuestMemory,
    page: int,
    sgs: Seq<(u64, usize)>,
)
    requires
        0 < sg_len(sgs, sgs.len() as int) < 1024,
        forall|k: int|
            #![trigger sgs[k]]
            0 <= k < sgs.len() ==> check_fault(policy, mem, sgs[k].0, sgs[k].1) is None,
    ensures
        import_fault(policy, mem, page, sgs) is None,
{
    lemma_all_copies_are_good(policy, mem, sgs, 0);
}

/// A mapping shows the list: byte `j` of entry `k` is in the view behind all bytes of the entries
/// before, and what is mapped there is the guest's own byte, in the object that backs its region.
/// The parts follow one another in the arena, and the arena holds all of the view.
pub proof fn law_a_mapping_shows_the_list(
    m: GuestArenaMapping,
    mem: GuestMemory,
    page: int,
    sgs: Seq<(u64, usize)>,
    k: int,
    j: int,
)
    requires
        0 < page,
        list_fault(sgs, page) is None,
        m.shows(mem, sgs, page),
        0 <= k < sgs.len(),
        0 <= j < sgs[k].1,
    ensures
        ({
            let place = m.start_offset() + sg_len(sgs, k) + j;
            let part = m.parts()[k];
            let region = guest_mem::region_at(mem.regions@, sgs[k].0 - sgs[k].0 as int % page);
            &&& m.parts().len() == sgs.len()
            &&& m.view_len() == sg_len(sgs, sgs.len() as int)
            &&& 0 <= m.start_offset() < page
            &&& m.start_offset() + m.view_len() <= m.arena_size()
            &&& part.pos <= place < part.pos + part.len
            &&& part.pos as int % page == 0 && part.len as int % page == 0
            &&& region matches Some(r) && part.shm == r.shm && part.shm_offset + (place - part.pos)
                == r.shm_offset + (sgs[k].0 + j - r.guest_addr)
            &&& k == 0 ==> part.pos == 0
            &&& k + 1 < sgs.len() ==> m.parts()[k + 1].pos == part.pos + part.len
        }),
{
    assert(part_of(mem, page, sgs, k, m.parts()[k]));
    law_view_shows_the_guests_bytes(mem, page, sgs, k, j, m.parts()[k]);
    law_arena_is_linear(sgs, page, 0);
    let n = sgs.len() as int;
    guest_mem::lemma_page_up(entry_span(sgs[k], page), page);
    lemma_pos_is_whole(sgs, page, k);
    lemma_span_sum_taken(sgs, page);
    guest_mem::lemma_page_up(arena_bytes(sgs, page, n), page);
    if k + 1 < sgs.len() {
        assert(part_of(mem, page, sgs, k + 1, m.parts()[k + 1]));
    }
    assert(sg_len(sgs, 0) == 0 && map_pos(sgs, page, 0) == 0);
    if k == 0 {
        assert(m.parts()[0].pos == map_pos(sgs, page, 0));
    }
}

proof fn lemma_pos_is_whole(sgs: Seq<(u64, usize)>, page: int, k: int)
    requires
        0 < page,
    ensures
        map_pos(sgs, page, k) % page == 0,
    decreases k,
{
    if k > 0 {
        lemma_pos_is_whole(sgs, page, k - 1);
        let a = map_pos(sgs, page, k - 1);
        let b = guest_mem::page_up(entry_span(sgs[k - 1], page), page);
        guest_mem::lemma_page_up(entry_span(sgs[k - 1], page), page);
        assert((a + b) % page == 0) by {
            vstd::arithmetic::div_mod::lemma_mod_adds(a, b, page);
        }
    } else {
        vstd::arithmetic::div_mod::lemma_small_mod(0, page as nat);
    }
}

proof fn lemma_span_sum_taken(sgs: Seq<(u64, usize)>, page: int)
    requires
        0 < page,
        list_fault(sgs, page) is None,
    ensures
        arena_bytes(sgs, page, sgs.len() as int) == sgs[0].0 as int % page + sg_len(
            sgs,
            sgs.len() as int,
        ),
        0 <= arena_bytes(sgs, page, sgs.len() as int),
{
    assert forall|i: int| 1 <= i < sgs.len() implies (#[trigger] sgs[i]).0 as int % page == 0 by {}
    lemma_span_sum(sgs, page, sgs.len() as int);
    lemma_arena_grows(sgs, page, 0, sgs.len() as int);
}

/// The bytes of a copy are the guest's in the order of the list: a part is as long as its entry,
/// belongs at the entry's address, and stands behind the parts before it.
pub proof fn law_a_copy_is_in_the_order_of_the_list(sgs: Seq<(u64, usize)>, k: int)
    requires
        total_fault(sgs) is None,
        0 <= k < sgs.len(),
    ensures
        shadow_parts(sgs).len() == sgs.len(),
        shadow_parts(sgs)[k].addr == sgs[k].0,
        shadow_parts(sgs)[k].len == sgs[k].1,
        shadow_parts(sgs)[0].pos == 0,
        k + 1 < sgs.len() ==> shadow_parts(sgs)[k + 1].pos == shadow_parts(sgs)[k].pos
            + shadow_parts(sgs)[k].len,
{
    lemma_sg_len_grows(sgs, k, sgs.len() as int);
    lemma_sg_len_grows(sgs, 0, sgs.len() as int);
    if k + 1 < sgs.len() {
        lemma_sg_len_grows(sgs, k + 1, sgs.len() as int);
    }
    assert(sg_len(sgs, 0) == 0);
}

/// A list has a length exactly where its sum is a number of the machine and not zero.
pub proof fn law_a_list_has_a_length(sgs: Seq<(u64, usize)>)
    ensures
        total_fault(sgs) is None <==> 0 < sg_len(sgs, sgs.len() as int) <= usize::MAX,
{
    lemma_sg_len_grows(sgs, 0, sgs.len() as int);
}

/// The windows of a memory are the ranges of its regions: of all of them, or of those that stay
/// shared where the memory is lent.
pub proof fn law_windows_are_the_shared_regions(regions: Seq<MemoryRegion>, memory_is_lent: bool)
    ensures
        accessible_regions(regions, memory_is_lent) == regions.filter(
            |r: MemoryRegion| !memory_is_lent || r.purpose.stays_shared(),
        ),
    decreases regions.len(),
{
    reveal(Seq::filter);
    if regions.len() > 0 {
        law_windows_are_the_shared_regions(regions.drop_last(), memory_is_lent);
    }
}

/// A window holds the addresses of its region, and no others.
pub proof fn law_a_window_is_its_region(r: MemoryRegion, addr: int)
    requires
        r.wf(),
    ensures
        region_range(r).holds(addr) <==> r.guest_addr <= addr < r.guest_addr + r.size,
{
}

/// Of the entries that are refused the first is told, and by its own fault; whether the list is mapped
/// or copied.
pub proof fn law_the_first_refused_entry_is_told(
    policy: HostAccessPolicy,
    mem: GuestMemory,
    page: int,
    sgs: Seq<(u64, usize)>,
    i: int,
    k: int,
)
    requires
        0 <= i <= k < sgs.len(),
    ensures
        (part_fault(policy, mem, page, sgs[k]) is Some && forall|j: int|
            i <= j < k ==> part_fault(policy, mem, page, #[trigger] sgs[j]) is None) ==> map_fault(
            policy,
            mem,
            page,
            sgs,
            i,
        ) == part_fault(policy, mem, page, sgs[k]),
        (check_fault(policy, mem, sgs[k].0, sgs[k].1) is Some && forall|j: int|
            i <= j < k ==> check_fault(policy, mem, (#[trigger] sgs[j]).0, sgs[j].1) is None)
            ==> copy_fault(policy, mem, sgs, i) == check_fault(policy, mem, sgs[k].0, sgs[k].1),
    decreases k - i,
{
    if i < k {
        law_the_first_refused_entry_is_told(policy, mem, page, sgs, i + 1, k);
        if forall|j: int| i <= j < k ==> part_fault(policy, mem, page, #[trigger] sgs[j]) is None {
            assert(part_fault(policy, mem, page, sgs[i]) is None);
        }
        if forall|j: int|
            i <= j < k ==> check_fault(policy, mem, (#[trigger] sgs[j]).0, sgs[j].1) is None {
            assert(check_fault(policy, mem, sgs[i].0, sgs[i].1) is None);
        }
    }
}

/// What the memory keeps from the host is told apart from what is no memory, with the range that was
/// asked for.
pub proof fn law_a_refused_range_is_told(mem: GuestMemory, addr: u64, len: usize)
    ensures
        gate_fault(mem, addr, len) is None <==> guest_mem::access_fault(
            mem,
            addr as int,
            len as int,
        ) is None,
        gate_fault(mem, addr, len) matches Some(ImportError::Inaccessible(a, n)) ==> a == addr && n
            == len && guest_mem::access_fault(mem, addr as int, len as int) == Some(
            AccessFault::Protected,
        ),
        gate_fault(mem, addr, len) matches Some(ImportError::InvalidRange(a, n)) ==> a == addr && n
            == len && guest_mem::access_fault(mem, addr as int, len as int) == Some(
            AccessFault::Invalid,
        ),
        gate_fault(mem, addr, len) matches Some(e) ==> e is Inaccessible || e is InvalidRange,
{
}

} // verus!
