//! Guest memory as the host lays it out: regions of guest-physical addresses, each for a purpose
//! and each backed by a range of a shared-memory object.
use vstd::prelude::*;

verus! {

/// What a region is for.
#[derive(Clone, Copy, Debug, PartialEq, Eq, Structural)]
pub enum MemoryRegionPurpose {
    Bios,
    /// Ordinary guest RAM.
    GuestMemoryRegion,
    ReservedMemory,
    ProtectedFirmwareRegion,
    SharedFramebuffer,
    StaticSwiotlbRegion,
    /// The RAM of a machine whose memory is shared after it started.
    SharedGuestRam,
    /// The page over which such a machine's first code is told what it got.
    ShimHandoff,
    GpuPool,
    GpuPoolGuest,
    Drm2KgslPool,
    VenusPool,
    MediaPool,
    MediaPoolGuest,
    Edk2PreloadPool,
    DynamicTestPool,
}

impl MemoryRegionPurpose {
    /// Whether the host keeps the right to touch a region of this purpose while the guest's
    /// memory is lent.
    pub open spec fn stays_shared(self) -> bool {
        self is GpuPool || self is GpuPoolGuest || self is Drm2KgslPool || self is VenusPool
            || self is MediaPool || self is MediaPoolGuest || self is DynamicTestPool
            || self is SharedGuestRam || self is ShimHandoff || self is SharedFramebuffer
            || self is StaticSwiotlbRegion
    }

    /// Whether the host keeps the right to touch a region of this purpose while the guest's
    /// memory is lent.
    pub fn is_shared(self) -> (b: bool)
        ensures
            b == self.stays_shared(),
    {
        match self {
            MemoryRegionPurpose::GpuPool
            | MemoryRegionPurpose::GpuPoolGuest
            | MemoryRegionPurpose::Drm2KgslPool
            | MemoryRegionPurpose::VenusPool
            | MemoryRegionPurpose::MediaPool
            | MemoryRegionPurpose::MediaPoolGuest
            | MemoryRegionPurpose::DynamicTestPool
            | MemoryRegionPurpose::SharedGuestRam
            | MemoryRegionPurpose::ShimHandoff
            | MemoryRegionPurpose::SharedFramebuffer
            | MemoryRegionPurpose::StaticSwiotlbRegion => true,
            _ => false,
        }
    }
}

/// One region.
#[derive(Clone, Copy, Debug, PartialEq, Eq, Structural)]
pub struct MemoryRegion {
    /// Where the guest sees it.
    pub guest_addr: u64,
    /// How long it is.
    pub size: u64,
    /// The object that backs it.
    pub shm: i32,
    /// Where in that object it starts.
    pub shm_offset: u64,
    pub purpose: MemoryRegionPurpose,
}

impl MemoryRegion {
    /// Whether the region is one that exists: not empty, and with an end that is an address,
    /// both in the guest and in what backs it.
    pub open spec fn wf(self) -> bool {
        &&& 0 < self.size
        &&& self.guest_addr + self.size <= u64::MAX
        &&& self.shm_offset + self.size <= u64::MAX
    }

    /// Whether an address lies in it.
    pub open spec fn holds(self, addr: int) -> bool {
        self.guest_addr <= addr < self.guest_addr + self.size
    }
}

/// The guest's memory.
pub struct GuestMemory {
    pub regions: Vec<MemoryRegion>,
    /// Whether the host may touch only what stays shared.
    pub protected: bool,
}

/// Which region holds an address: the first that does.
pub open spec fn region_at(regions: Seq<MemoryRegion>, addr: int) -> Option<MemoryRegion>
    decreases regions.len(),
{
    if regions.len() == 0 {
        None
    } else if regions[0].holds(addr) {
        Some(regions[0])
    } else {
        region_at(regions.drop_first(), addr)
    }
}

/// Why a range cannot be touched.
#[derive(Clone, Copy, Debug, PartialEq, Eq, Structural)]
pub enum AccessFault {
    /// It is no guest memory.
    Invalid,
    /// It is lent to the guest.
    Protected,
}

/// Whether `len` bytes from `addr` on can be touched: they lie in one region, and the host may
/// touch it.
pub open spec fn access_fault(mem: GuestMemory, addr: int, len: int) -> Option<AccessFault> {
    match region_at(mem.regions@, addr) {
        None => Some(AccessFault::Invalid),
        Some(r) => if mem.protected && !r.purpose.stays_shared() {
            Some(AccessFault::Protected)
        } else if addr + len > r.guest_addr + r.size {
            Some(AccessFault::Invalid)
        } else {
            None
        },
    }
}

impl GuestMemory {
    pub open spec fn wf(&self) -> bool {
        forall|i: int| 0 <= i < self.regions@.len() ==> (#[trigger] self.regions@[i]).wf()
    }

    /// Which region holds an address.
    pub fn find_region(&self, addr: u64) -> (r: Option<MemoryRegion>)
        requires
            self.wf(),
        ensures
            r == region_at(self.regions@, addr as int),
            r matches Some(x) ==> x.wf() && x.holds(addr as int),
    {
        let mut i: usize = 0;
        assert(self.regions@.skip(0) =~= self.regions@);
        while i < self.regions.len()
            invariant
                self.wf(),
                i <= self.regions@.len(),
                region_at(self.regions@, addr as int) == region_at(
                    self.regions@.skip(i as int),
                    addr as int,
                ),
            decreases self.regions@.len() - i,
        {
            let r = self.regions[i];
            proof {
                assert(self.regions@[i as int].wf());
                assert(self.regions@.skip(i as int)[0] == r);
                assert(self.regions@.skip(i as int).drop_first() =~= self.regions@.skip(i + 1));
            }
            if r.guest_addr <= addr && addr < r.guest_addr + r.size {
                return Some(r);
            }
            i = i + 1;
        }
        None
    }

    /// Whether `len` bytes from `addr` on can be touched.
    pub fn check_range(&self, addr: u64, len: u64) -> (r: Result<(), AccessFault>)
        requires
            self.wf(),
        ensures
            match r {
                Ok(()) => access_fault(*self, addr as int, len as int) is None,
                Err(e) => access_fault(*self, addr as int, len as int) == Some(e),
            },
    {
        match self.find_region(addr) {
            None => Err(AccessFault::Invalid),
            Some(r) => {
                if self.protected && !r.purpose.is_shared() {
                    Err(AccessFault::Protected)
                } else if len > r.guest_addr + r.size - addr {
                    Err(AccessFault::Invalid)
                } else {
                    Ok(())
                }
            },
        }
    }
}

/// A range of addresses, both ends in it. Empty where the end comes before the start.
#[derive(Clone, Copy, Debug, PartialEq, Eq, Structural)]
pub struct AddressRange {
    pub start: u64,
    pub end: u64,
}

impl AddressRange {
    /// Whether an address lies in the range.
    pub open spec fn holds(self, addr: int) -> bool {
        self.start <= addr <= self.end
    }

    /// The range of `size` addresses from `start` on, where its end is an address.
    pub fn from_start_and_size(start: u64, size: u64) -> (r: Option<Self>)
        ensures
            r is Some <==> size == 0 || start + size - 1 <= u64::MAX,
            r matches Some(x) ==> forall|a: int|
                #[trigger] x.holds(a) <==> start <= a < start + size,
            r matches Some(x) ==> if size == 0 {
                x.start == 1 && x.end == 0
            } else {
                x.start == start && x.end == start + size - 1
            },
    {
        if size == 0 {
            return Some(AddressRange { start: 1, end: 0 });
        }
        match start.checked_add(size - 1) {
            Some(end) => Some(AddressRange { start, end }),
            None => None,
        }
    }

    /// Whether no address lies in the range.
    pub fn is_empty(&self) -> (b: bool)
        ensures
            b == (self.end < self.start),
            b == (forall|a: int| !#[trigger] self.holds(a)),
    {
        proof {
            if self.start <= self.end {
                assert(self.holds(self.start as int));
            }
        }
        self.end < self.start
    }

    /// Whether every address of a range that is not empty lies in this one.
    pub fn contains_range(&self, other: AddressRange) -> (b: bool)
        requires
            other.start <= other.end,
        ensures
            b == (forall|a: int| other.holds(a) ==> #[trigger] self.holds(a)),
            b == (self.start <= other.start && other.end <= self.end),
    {
        proof {
            assert(other.holds(other.start as int) && other.holds(other.end as int));
            if forall|a: int| other.holds(a) ==> #[trigger] self.holds(a) {
                assert(self.holds(other.start as int));
                assert(self.holds(other.end as int));
            }
        }
        self.start <= other.start && other.end <= self.end
    }
}

/// `x` rounded up to whole pages.
pub open spec fn page_up(x: int, page: int) -> int {
    ((x + page - 1) / page) * page
}

/// Rounding up gives the least whole number of pages that holds `x` bytes.
pub proof fn lemma_page_up(x: int, page: int)
    requires
        0 <= x,
        0 < page,
    ensures
        x <= page_up(x, page) < x + page,
        page_up(x, page) % page == 0,
        x % page == 0 ==> page_up(x, page) == x,
{
    let q = (x + page - 1) / page;
    vstd::arithmetic::div_mod::lemma_fundamental_div_mod(x + page - 1, page);
    assert(page * q == q * page) by (nonlinear_arith);
    assert((q * page) % page == 0) by (nonlinear_arith)
        requires
            page > 0,
    ;
    if x % page == 0 {
        vstd::arithmetic::div_mod::lemma_fundamental_div_mod(x, page);
        let d = x / page;
        assert(page * d == d * page) by (nonlinear_arith);
        vstd::arithmetic::div_mod::lemma_fundamental_div_mod_converse(x + page - 1, page, d, page - 1);
    }
}

/// `x` rounded up to whole pages.
pub fn round_to_pages(x: u64, page: u64) -> (r: u64)
    requires
        0 < page,
        x + page <= u64::MAX,
    ensures
        r == page_up(x as int, page as int),
{
    proof {
        lemma_page_up(x as int, page as int);
    }
    ((x + (page - 1)) / page) * page
}

/// The region of an address is the first that holds it; without one, none does.
pub proof fn law_a_region_is_found(regions: Seq<MemoryRegion>, addr: int, i: int)
    requires
        0 <= i < regions.len(),
        regions[i].guest_addr <= addr < regions[i].guest_addr + regions[i].size,
        forall|j: int|
            0 <= j < i ==> !((#[trigger] regions[j]).guest_addr <= addr < regions[j].guest_addr
                + regions[j].size),
    ensures
        region_at(regions, addr) == Some(regions[i]),
    decreases i,
{
    if i > 0 {
        let rest = regions.drop_first();
        assert forall|j: int| 0 <= j < i - 1 implies !((#[trigger] rest[j]).guest_addr <= addr
            < rest[j].guest_addr + rest[j].size) by {
            assert(rest[j] == regions[j + 1]);
        }
        assert(!regions[0].holds(addr));
        law_a_region_is_found(rest, addr, i - 1);
    }
}

/// An address that no region holds has none.
pub proof fn law_no_region_is_made_up(regions: Seq<MemoryRegion>, addr: int)
    requires
        forall|j: int|
            0 <= j < regions.len() ==> !((#[trigger] regions[j]).guest_addr <= addr
                < regions[j].guest_addr + regions[j].size),
    ensures
        region_at(regions, addr) is None,
    decreases regions.len(),
{
    if regions.len() > 0 {
        let rest = regions.drop_first();
        assert forall|j: int| 0 <= j < rest.len() implies !((#[trigger] rest[j]).guest_addr <= addr
            < rest[j].guest_addr + rest[j].size) by {
            assert(rest[j] == regions[j + 1]);
        }
        assert(!regions[0].holds(addr));
        law_no_region_is_made_up(rest, addr);
    }
}

/// A range is touched exactly where all of it lies in the region of its first byte, and that region
/// is not lent away.
pub proof fn law_a_range_lies_in_one_region(mem: GuestMemory, addr: int, len: int, i: int)
    requires
        0 <= i < mem.regions@.len(),
        mem.regions@[i].guest_addr <= addr < mem.regions@[i].guest_addr + mem.regions@[i].size,
        forall|j: int|
            0 <= j < i ==> !((#[trigger] mem.regions@[j]).guest_addr <= addr
                < mem.regions@[j].guest_addr + mem.regions@[j].size),
    ensures
        ({
            let r = mem.regions@[i];
            let inside = addr + len <= r.guest_addr + r.size;
            let lent = mem.protected && !r.purpose.stays_shared();
            &&& access_fault(mem, addr, len) is None <==> inside && !lent
            &&& access_fault(mem, addr, len) == Some(AccessFault::Protected) <==> lent
            &&& access_fault(mem, addr, len) == Some(AccessFault::Invalid) <==> !inside && !lent
        }),
{
    law_a_region_is_found(mem.regions@, addr, i);
}

/// What is lent is what the guest runs from and in; every pool, the framebuffer, the bounce buffers
/// and the memory that is shared on purpose stay with the host too.
pub proof fn law_only_what_the_guest_runs_in_is_lent(p: MemoryRegionPurpose)
    ensures
        !p.stays_shared() <==> p is Bios || p is GuestMemoryRegion || p is ReservedMemory || p
            is ProtectedFirmwareRegion || p is Edk2PreloadPool,
{
}

} // verus!
