//! The buffer pool that all media devices of a machine share, the leases on it, and the protocol
//! by which it is served to helper processes.
//!
//! There is one offset space and one allocator over it: an offset is what a device tells the
//! guest, and two allocators over the same window would hand out the same bytes twice. The books
//! kept here say who holds which bytes. Space is given back by its holder alone, or all at once
//! when the holder is known to be gone.
use crate::errno;
use crate::guest_mem;
use crate::guest_mem::GuestMemory;
use crate::guest_mem::MemoryRegion;
use std::collections::BTreeMap;
use vstd::prelude::*;

verus! {

/// A pool as it is found in a memory table.
#[derive(Clone, Copy, Debug, PartialEq, Eq, Structural)]
pub struct PoolHandle {
    /// The object that backs the pool.
    pub shm: i32,
    /// Where in that object it starts.
    pub fd_offset: u64,
    /// Where the guest sees it.
    pub gpa: u64,
    pub size: u64,
}

/// Why a pool was not found or not set up.
#[derive(Clone, Copy, Debug, PartialEq, Eq, Structural)]
pub enum PoolError {
    /// No region starts at the pool's base.
    NoRegion,
    /// The pool is not a whole number of pages.
    NotWholePages,
}

impl PoolError {
    /// What is reported.
    pub fn text(&self) -> (t: &'static str)
        ensures
            t@ == match *self {
                PoolError::NoRegion => "no memory region starts at the media_host pool base"@,
                PoolError::NotWholePages => {
                    "the media_host pool's size is not a whole number of pages"@
                },
            },
    {
        match *self {
            PoolError::NoRegion => "no memory region starts at the media_host pool base",
            PoolError::NotWholePages => "the media_host pool's size is not a whole number of pages",
        }
    }
}

/// The first region that starts at an address.
pub open spec fn region_from(regions: Seq<MemoryRegion>, gpa: u64) -> Option<MemoryRegion>
    decreases regions.len(),
{
    if regions.len() == 0 {
        None
    } else if regions[0].guest_addr == gpa {
        Some(regions[0])
    } else {
        region_from(regions.drop_first(), gpa)
    }
}

/// The pool that starts at an address.
pub open spec fn handle_from(regions: Seq<MemoryRegion>, gpa: u64) -> Result<PoolHandle, PoolError> {
    match region_from(regions, gpa) {
        Some(x) => Ok(PoolHandle { shm: x.shm, fd_offset: x.shm_offset, gpa, size: x.size }),
        None => Err(PoolError::NoRegion),
    }
}

/// Finds the pool again in a memory table that has lost its purposes: the region that starts at
/// its base.
pub fn pool_handle_at(mem: &GuestMemory, gpa: u64) -> (r: Result<PoolHandle, PoolError>)
    ensures
        r == handle_from(mem.regions@, gpa),
{
    let mut i: usize = 0;
    assert(mem.regions@.skip(0) =~= mem.regions@);
    while i < mem.regions.len()
        invariant
            i <= mem.regions@.len(),
            region_from(mem.regions@, gpa) == region_from(mem.regions@.skip(i as int), gpa),
        decreases mem.regions@.len() - i,
    {
        let x = mem.regions[i];
        proof {
            assert(mem.regions@.skip(i as int)[0] == x);
            assert(mem.regions@.skip(i as int).drop_first() =~= mem.regions@.skip(i + 1));
        }
        if x.guest_addr == gpa {
            return Ok(PoolHandle { shm: x.shm, fd_offset: x.shm_offset, gpa, size: x.size });
        }
        i = i + 1;
    }
    Err(PoolError::NoRegion)
}

/// What a helper asks.
#[derive(Clone, Copy, Debug, PartialEq, Eq, Structural)]
pub enum PoolRequest {
    /// Give me so many bytes.
    Reserve { len: u64 },
    /// Take back what starts here.
    Release { offset: u64 },
}

/// What it is answered.
#[derive(Clone, Copy, Debug, PartialEq, Eq, Structural)]
pub enum PoolResponse {
    /// The bytes start here.
    Reserved { offset: u64 },
    /// The release was dealt with.
    Released,
    /// There are no bytes, for this reason.
    Errno(i32),
}

/// A buffer in the pool.
#[derive(Clone, Copy, Debug, PartialEq, Eq, Structural)]
pub struct HostBuffer {
    /// Where it is in the object that backs the pool.
    pub fd_offset: u64,
    pub len: u64,
    /// Where it is in the pool; nothing where it is no buffer of the pool.
    pub pool_offset: Option<u64>,
}

/// One process's mapping of the whole pool.
#[derive(Clone, Copy, Debug, PartialEq, Eq, Structural)]
pub struct MappedPool {
    pub handle: PoolHandle,
    pub page: u64,
}

impl MappedPool {
    pub open spec fn wf(&self) -> bool {
        &&& self.page > 0
        &&& self.handle.fd_offset + self.handle.size <= u64::MAX
    }

    /// Whether a range is a page-aligned part of the pool.
    pub open spec fn fits(&self, offset: int, len: int) -> bool {
        len > 0 && offset % self.page as int == 0 && offset + len <= self.handle.size
    }

    /// The buffer of `len` bytes at `offset`, where it is one and a descriptor could be had.
    pub open spec fn buffer_of(&self, offset: u64, len: u64, descriptor: bool) -> Result<
        HostBuffer,
        i32,
    > {
        if self.fits(offset as int, len as int) && descriptor {
            Ok(
                HostBuffer {
                    fd_offset: (self.handle.fd_offset + offset) as u64,
                    len,
                    pool_offset: Some(offset),
                },
            )
        } else {
            Err(errno::EIO)
        }
    }

    /// The mapping of a pool.
    pub fn new(handle: PoolHandle, page: u64) -> (m: Self)
        requires
            page > 0,
            handle.fd_offset + handle.size <= u64::MAX,
        ensures
            m.wf(),
            m.handle == handle,
            m.page == page,
    {
        MappedPool { handle, page }
    }

    /// The size of the pool.
    pub fn size(&self) -> (n: u64)
        ensures
            n == self.handle.size,
    {
        self.handle.size
    }

    /// The buffer of `len` bytes at `offset`, given whether a descriptor for it could be had.
    /// What is no page-aligned part of the pool is refused: the two sides are out of step, and
    /// nothing is known of what such a buffer would lie over.
    pub fn buffer_at(&self, offset: u64, len: u64, descriptor: bool) -> (r: Result<HostBuffer, i32>)
        requires
            self.wf(),
        ensures
            r == self.buffer_of(offset, len, descriptor),
    {
        if len == 0 || offset % self.page != 0 || offset > self.handle.size || len
            > self.handle.size - offset || !descriptor {
            return Err(errno::EIO);
        }
        Ok(HostBuffer { fd_offset: self.handle.fd_offset + offset, len, pool_offset: Some(offset) })
    }
}

/// How many bytes are held, going by the books: for each offset, the holder and the size.
pub open spec fn held(books: Map<u64, (u64, u64)>) -> int
    decreases books.dom().len(),
    when books.dom().finite()
{
    if books.dom().len() == 0 {
        0
    } else {
        let k = books.dom().choose();
        books[k].1 + held(books.remove(k))
    }
}

/// Whether the books are sound: every holding is whole pages inside the pool, and no two share
/// a byte.
pub open spec fn sound(books: Map<u64, (u64, u64)>, page: int, size: int) -> bool {
    &&& books.dom().finite()
    &&& forall|a: u64|
        #[trigger] books.contains_key(a) ==> {
            &&& books[a].1 > 0
            &&& a as int % page == 0
            &&& books[a].1 as int % page == 0
            &&& a + books[a].1 <= size
        }
    &&& forall|a: u64, b: u64|
        #[trigger] books.contains_key(a) && #[trigger] books.contains_key(b) && a < b ==> a
            + books[a].1 <= b
}

/// Whether a range is whole pages of the pool that nobody holds.
pub open spec fn unheld(
    books: Map<u64, (u64, u64)>,
    page: int,
    size: int,
    offset: int,
    len: int,
) -> bool {
    &&& len > 0
    &&& offset % page == 0
    &&& len % page == 0
    &&& offset + len <= size
    &&& forall|a: u64|
        #[trigger] books.contains_key(a) ==> a + books[a].1 <= offset || offset + len <= a
}

/// Any holding can be counted first.
proof fn lemma_held_remove(books: Map<u64, (u64, u64)>, k: u64)
    requires
        books.dom().finite(),
        books.contains_key(k),
    ensures
        held(books) == books[k].1 + held(books.remove(k)),
    decreases books.dom().len(),
{
    let c = books.dom().choose();
    assert(books.dom().contains(k));
    assert(books.dom().len() > 0);
    assert(books.dom().contains(c));
    assert(books.remove(c).dom() =~= books.dom().remove(c));
    assert(books.remove(k).dom() =~= books.dom().remove(k));
    if c != k {
        lemma_held_remove(books.remove(c), k);
        lemma_held_remove(books.remove(k), c);
        assert(books.remove(c).remove(k) =~= books.remove(k).remove(c));
        assert(books.remove(k).dom().contains(c));
    }
}

proof fn lemma_held_insert(books: Map<u64, (u64, u64)>, k: u64, v: (u64, u64))
    requires
        books.dom().finite(),
        !books.contains_key(k),
    ensures
        held(books.insert(k, v)) == held(books) + v.1,
{
    let after = books.insert(k, v);
    assert(after.dom() =~= books.dom().insert(k));
    lemma_held_remove(after, k);
    assert(after.remove(k) =~= books);
}

proof fn lemma_last_key(s: Set<u64>) -> (m: u64)
    requires
        s.finite(),
        s.len() > 0,
    ensures
        s.contains(m),
        forall|a: u64| #[trigger] s.contains(a) ==> a <= m,
    decreases s.len(),
{
    let c = s.choose();
    if s.len() == 1 {
        assert forall|a: u64| #[trigger] s.contains(a) implies a <= c by {
            if a != c {
                assert(s.remove(c).contains(a));
                assert(s.remove(c).len() == 0);
            }
        }
        c
    } else {
        let m = lemma_last_key(s.remove(c));
        assert forall|a: u64| #[trigger] s.contains(a) implies a <= (if c > m {
            c
        } else {
            m
        }) by {
            if a != c {
                assert(s.remove(c).contains(a));
            }
        }
        if c > m {
            c
        } else {
            m
        }
    }
}

/// Sound books hold no more than the pool has.
pub proof fn law_held_fits_the_pool(books: Map<u64, (u64, u64)>, page: int, size: int)
    requires
        sound(books, page, size),
        0 <= size,
    ensures
        0 <= held(books) <= size,
    decreases books.dom().len(),
{
    if books.dom().len() > 0 {
        let m = lemma_last_key(books.dom());
        assert(books.contains_key(m));
        lemma_held_remove(books, m);
        let rest = books.remove(m);
        assert(rest.dom() =~= books.dom().remove(m));
        assert(sound(rest, page, m as int)) by {
            assert forall|a: u64| #[trigger] rest.contains_key(a) implies a + rest[a].1 <= m by {
                assert(books.contains_key(a));
                assert(books.dom().contains(a));
            }
        }
        law_held_fits_the_pool(rest, page, m as int);
    }
}

/// The allocator over the pool's one offset space.
pub struct MediaPoolAllocator {
    mapped: MappedPool,
    next_owner: u64,
    live: BTreeMap<u64, (u64, u64)>,
    used: u64,
}

impl MediaPoolAllocator {
    /// The pool.
    pub closed spec fn pool(&self) -> MappedPool {
        self.mapped
    }

    /// Who holds which bytes.
    pub closed spec fn books(&self) -> Map<u64, (u64, u64)> {
        self.live@
    }

    /// How many bytes are held.
    pub closed spec fn used(&self) -> int {
        self.used as int
    }

    /// The number of the last lease.
    pub closed spec fn last_owner(&self) -> u64 {
        self.next_owner
    }

    pub open spec fn wf(&self) -> bool {
        &&& self.pool().wf()
        &&& self.pool().handle.size > 0
        &&& self.pool().handle.size % self.pool().page == 0
        &&& sound(self.books(), self.pool().page as int, self.pool().handle.size as int)
        &&& self.used() == held(self.books())
    }

    /// An allocator over a pool of which nothing is held.
    pub fn new(mapped: MappedPool) -> (r: Result<Self, PoolError>)
        requires
            mapped.wf(),
        ensures
            match r {
                Ok(p) => {
                    &&& mapped.handle.size > 0 && mapped.handle.size % mapped.page == 0
                    &&& p.wf()
                    &&& p.pool() == mapped
                    &&& p.books() == Map::<u64, (u64, u64)>::empty()
                    &&& p.used() == 0
                    &&& p.last_owner() == 0
                },
                Err(e) => {
                    &&& e == PoolError::NotWholePages
                    &&& mapped.handle.size == 0 || mapped.handle.size % mapped.page != 0
                },
            },
    {
        if mapped.handle.size == 0 || mapped.handle.size % mapped.page != 0 {
            return Err(PoolError::NotWholePages);
        }
        Ok(MediaPoolAllocator { mapped, next_owner: 0, live: BTreeMap::new(), used: 0 })
    }
}

/// How many bytes are asked of the offset space for `len` bytes: whole pages, and nothing for a
/// length that is zero or more than the pool.
pub open spec fn request_size(pool: MappedPool, len: int) -> Option<int> {
    let size = guest_mem::page_up(len, pool.page as int);
    if len == 0 || size > pool.handle.size {
        None
    } else {
        Some(size)
    }
}

/// What a holder gets of `len` bytes that are asked for, given where the offset space put them, and
/// the books after that.
pub open spec fn reserved(
    pool: MappedPool,
    books: Map<u64, (u64, u64)>,
    len: u64,
    owner: u64,
    answer: Option<u64>,
) -> (Result<u64, i32>, Map<u64, (u64, u64)>) {
    match (request_size(pool, len as int), answer) {
        (None, _) => (Err(errno::EINVAL), books),
        (Some(_), None) => (Err(errno::ENOMEM), books),
        (Some(size), Some(offset)) => (Ok(offset), books.insert(offset, (owner, size as u64))),
    }
}

/// The books after a holder gave an offset back. It changes nothing where that is not its own.
pub open spec fn given_back(books: Map<u64, (u64, u64)>, offset: u64, owner: u64) -> Map<
    u64,
    (u64, u64),
> {
    if books.contains_key(offset) && books[offset].0 == owner {
        books.remove(offset)
    } else {
        books
    }
}

/// The buffer that a holder gets, and the books after that.
pub open spec fn allocated(
    pool: MappedPool,
    books: Map<u64, (u64, u64)>,
    len: u64,
    owner: u64,
    answer: Option<u64>,
    descriptor: bool,
) -> (Result<HostBuffer, i32>, Map<u64, (u64, u64)>) {
    match (request_size(pool, len as int), answer) {
        (None, _) => (Err(errno::EINVAL), books),
        (Some(_), None) => (Err(errno::ENOMEM), books),
        (Some(size), Some(offset)) => if descriptor {
            (
                Ok(
                    HostBuffer {
                        fd_offset: (pool.handle.fd_offset + offset) as u64,
                        len,
                        pool_offset: Some(offset),
                    },
                ),
                books.insert(offset, (owner, size as u64)),
            )
        } else {
            (Err(errno::EIO), books)
        },
    }
}

/// The books without what one holder has.
pub open spec fn without(books: Map<u64, (u64, u64)>, owner: u64) -> Map<u64, (u64, u64)> {
    books.restrict(books.dom().filter(|a: u64| books[a].0 != owner))
}

impl MediaPoolAllocator {
    /// How many bytes to ask of the offset space for a buffer of `len` bytes. A length of zero,
    /// or one that no pool of this size can satisfy, is refused before it is asked.
    pub fn request_size(&self, len: u64) -> (r: Result<u64, i32>)
        requires
            self.wf(),
        ensures
            match request_size(self.pool(), len as int) {
                Some(size) => r == Ok::<u64, i32>(size as u64) && 0 < size <= u64::MAX && size
                    % self.pool().page as int == 0,
                None => r == Err::<u64, i32>(errno::EINVAL),
            },
    {
        let page: u64 = self.mapped.page;
        proof {
            guest_mem::lemma_page_up(len as int, page as int);
        }
        if len == 0 || len > self.mapped.handle.size {
            return Err(errno::EINVAL);
        }
        let part: u64 = len % page;
        let size: u64 = if part == 0 {
            len
        } else {
            match len.checked_add(page - part) {
                Some(size) => size,
                None => {
                    proof {
                        lemma_round(len as int, page as int);
                    }
                    return Err(errno::EINVAL);
                },
            }
        };
        proof {
            lemma_round(len as int, page as int);
        }
        if size > self.mapped.handle.size {
            return Err(errno::EINVAL);
        }
        Ok(size)
    }

    /// Whether a range is whole pages of the pool that nobody holds.
    pub fn is_unheld(&self, offset: u64, len: u64) -> (b: bool)
        requires
            self.wf(),
        ensures
            b == unheld(
                self.books(),
                self.pool().page as int,
                self.pool().handle.size as int,
                offset as int,
                len as int,
            ),
    {
        if len == 0 || offset % self.mapped.page != 0 || len % self.mapped.page != 0 || offset
            > self.mapped.handle.size || len > self.mapped.handle.size - offset {
            return false;
        }
        let keys: Vec<u64> = keys_of(&self.live);
        let mut i: usize = 0;
        while i < keys.len()
            invariant
                self.wf(),
                offset + len <= u64::MAX,
                i <= keys@.len(),
                keys@.to_set() == self.live@.dom(),
                forall|j: int|
                    0 <= j < i ==> {
                        let a = #[trigger] keys@[j];
                        a + self.live@[a].1 <= offset || offset + len <= a
                    },
            decreases keys@.len() - i,
        {
            let a: u64 = keys[i];
            assert(keys@.to_set().contains(keys@[i as int]));
            assert(self.live@.contains_key(a));
            match self.live.get(&a) {
                Some(h) => {
                    if !(a + h.1 <= offset || offset + len <= a) {
                        return false;
                    }
                },
                None => {},
            }
            i = i + 1;
        }
        assert forall|a: u64| #[trigger] self.live@.contains_key(a) implies a + self.live@[a].1
            <= offset || offset + len <= a by {
            assert(keys@.to_set().contains(a));
            let j = choose|j: int| 0 <= j < keys@.len() && keys@[j] == a;
            assert(keys@[j] == a);
        }
        true
    }
}

/// The offsets of what is held.
fn keys_of(live: &BTreeMap<u64, (u64, u64)>) -> (keys: Vec<u64>)
    ensures
        keys@.to_set() == live@.dom(),
        keys@.no_duplicates(),
        keys@.len() == live@.dom().len(),
{
    let mut keys: Vec<u64> = Vec::new();
    let ghost all = vstd::std_specs::iter::IteratorSpec::remaining(&live.keys());
    for a in it: live.keys()
        invariant
            keys@.len() == it.index(),
            forall|i: int| 0 <= i < keys@.len() ==> #[trigger] keys@[i] == *it.seq()[i],
            it.seq() == all,
    {
        keys.push(*a);
    }
    assert(keys@ =~= all.unref());
    keys
}

/// Rounding up by what is missing to a whole page.
proof fn lemma_round(len: int, page: int)
    requires
        0 < page,
        0 <= len,
    ensures
        guest_mem::page_up(len, page) == if len % page == 0 {
            len
        } else {
            len + (page - len % page)
        },
{
    guest_mem::lemma_page_up(len, page);
    if len % page != 0 {
        vstd::arithmetic::div_mod::lemma_fundamental_div_mod(len, page);
        let d = len / page;
        let r = len % page;
        assert(page * (d + 1) == page * d + page) by (nonlinear_arith);
        assert(page * (d + 1) == (d + 1) * page) by (nonlinear_arith);
        vstd::arithmetic::div_mod::lemma_fundamental_div_mod_converse(
            len + page - 1,
            page,
            d + 1,
            r - 1,
        );
    }
}

impl MediaPoolAllocator {
    /// Nothing but the books changed.
    pub open spec fn same_pool(&self, before: &Self) -> bool {
        &&& self.pool() == before.pool()
        &&& self.last_owner() == before.last_owner()
    }

    /// Whether what the offset space answered is its to give: whole pages that nobody holds.
    pub open spec fn honest(&self, len: u64, answer: Option<u64>) -> bool {
        match (request_size(self.pool(), len as int), answer) {
            (Some(size), Some(offset)) => unheld(
                self.books(),
                self.pool().page as int,
                self.pool().handle.size as int,
                offset as int,
                size,
            ),
            _ => true,
        }
    }

    /// Books `len` bytes for a holder, given where the offset space put the pages asked of it;
    /// `None` where it has no room.
    pub fn reserve(&mut self, len: u64, owner: u64, answer: Option<u64>) -> (r: Result<u64, i32>)
        requires
            old(self).wf(),
            old(self).honest(len, answer),
        ensures
            final(self).wf(),
            final(self).same_pool(old(self)),
            (r, final(self).books()) == reserved(
                old(self).pool(),
                old(self).books(),
                len,
                owner,
                answer,
            ),
            r matches Ok(offset) ==> !old(self).books().contains_key(offset) && final(self).used()
                == old(self).used() + final(self).books()[offset].1,
    {
        let size: u64 = match self.request_size(len) {
            Ok(size) => size,
            Err(e) => {
                return Err(e);
            },
        };
        let offset: u64 = match answer {
            Some(offset) => offset,
            None => {
                return Err(errno::ENOMEM);
            },
        };
        let ghost before = self.live@;
        proof {
            if before.contains_key(offset) {
                assert(before[offset].1 > 0);
            }
            lemma_held_insert(before, offset, (owner, size));
            let after = before.insert(offset, (owner, size));
            let page = self.mapped.page as int;
            let all = self.mapped.handle.size as int;
            assert(after.dom() =~= before.dom().insert(offset));
            assert(sound(after, page, all)) by {
                assert forall|a: u64| #[trigger] after.contains_key(a) implies after[a].1 > 0 && a
                    as int % page == 0 && after[a].1 as int % page == 0 && a + after[a].1
                    <= all by {
                    if a != offset {
                        assert(before.contains_key(a));
                    }
                }
                assert forall|a: u64, b: u64| #[trigger]
                    after.contains_key(a) && #[trigger] after.contains_key(b) && a < b implies a
                    + after[a].1 <= b by {
                    if a == offset {
                        assert(before.contains_key(b));
                    } else if b == offset {
                        assert(before.contains_key(a));
                    } else {
                        assert(before.contains_key(a) && before.contains_key(b));
                    }
                }
            }
            law_held_fits_the_pool(after, page, all);
        }
        self.used = self.used + size;
        self.live.insert(offset, (owner, size));
        Ok(offset)
    }

    /// Takes an offset that is held off the books. It is then also to be given back to the
    /// offset space.
    fn free(&mut self, offset: u64)
        requires
            old(self).wf(),
            old(self).books().contains_key(offset),
        ensures
            final(self).wf(),
            final(self).same_pool(old(self)),
            final(self).books() == old(self).books().remove(offset),
            final(self).used() == old(self).used() - old(self).books()[offset].1,
    {
        let ghost before = self.live@;
        proof {
            lemma_held_remove(before, offset);
            let after = before.remove(offset);
            assert(after.dom() =~= before.dom().remove(offset));
            let page = self.mapped.page as int;
            let all = self.mapped.handle.size as int;
            assert(sound(after, page, all)) by {
                assert forall|a: u64| #[trigger] after.contains_key(a) implies after[a].1 > 0 && a
                    as int % page == 0 && after[a].1 as int % page == 0 && a + after[a].1
                    <= all by {
                    assert(before.contains_key(a));
                }
                assert forall|a: u64, b: u64| #[trigger]
                    after.contains_key(a) && #[trigger] after.contains_key(b) && a < b implies a
                    + after[a].1 <= b by {
                    assert(before.contains_key(a) && before.contains_key(b));
                }
            }
            law_held_fits_the_pool(after, page, all);
        }
        match self.live.remove(&offset) {
            Some(h) => {
                self.used = self.used.saturating_sub(h.1);
            },
            None => {},
        }
    }

    /// Gives one holding back, if it is the holder's to give. Anything else is refused, and
    /// stays as it was.
    pub fn unreserve(&mut self, offset: u64, owner: u64) -> (r: Result<(), i32>)
        requires
            old(self).wf(),
        ensures
            final(self).wf(),
            final(self).same_pool(old(self)),
            final(self).books() == given_back(old(self).books(), offset, owner),
            r == if old(self).books().contains_key(offset) && old(self).books()[offset].0 == owner {
                Ok::<(), i32>(())
            } else {
                Err(errno::EINVAL)
            },
    {
        let holder: Option<u64> = match self.live.get(&offset) {
            Some(h) => Some(h.0),
            None => None,
        };
        match holder {
            Some(o) => {
                if o == owner {
                    self.free(offset);
                    Ok(())
                } else {
                    Err(errno::EINVAL)
                }
            },
            None => Err(errno::EINVAL),
        }
    }

    /// Books `len` bytes and builds the buffer over them. Where the buffer cannot be built, the
    /// bytes go back.
    pub fn allocate(
        &mut self,
        len: u64,
        owner: u64,
        answer: Option<u64>,
        descriptor: bool,
    ) -> (r: Result<HostBuffer, i32>)
        requires
            old(self).wf(),
            old(self).honest(len, answer),
        ensures
            final(self).wf(),
            final(self).same_pool(old(self)),
            (r, final(self).books()) == allocated(
                old(self).pool(),
                old(self).books(),
                len,
                owner,
                answer,
                descriptor,
            ),
    {
        let offset: u64 = match self.reserve(len, owner, answer) {
            Ok(offset) => offset,
            Err(e) => {
                return Err(e);
            },
        };
        proof {
            guest_mem::lemma_page_up(len as int, self.mapped.page as int);
        }
        match self.mapped.buffer_at(offset, len, descriptor) {
            Ok(buffer) => Ok(buffer),
            Err(e) => {
                let _ = self.unreserve(offset, owner);
                assert(self.live@ =~= old(self).books());
                Err(e)
            },
        }
    }

    /// Takes a buffer back. A buffer that is not the pool's frees nothing in it.
    pub fn release(&mut self, buf: HostBuffer, owner: u64)
        requires
            old(self).wf(),
        ensures
            final(self).wf(),
            final(self).same_pool(old(self)),
            final(self).books() == match buf.pool_offset {
                Some(offset) => given_back(old(self).books(), offset, owner),
                None => old(self).books(),
            },
    {
        match buf.pool_offset {
            Some(offset) => {
                let _ = self.unreserve(offset, owner);
            },
            None => {},
        }
    }

    /// Takes back everything that one holder still has. Returns how many holdings there were.
    pub fn release_owner(&mut self, owner: u64) -> (n: usize)
        requires
            old(self).wf(),
        ensures
            final(self).wf(),
            final(self).same_pool(old(self)),
            final(self).books() == without(old(self).books(), owner),
            n == old(self).books().dom().len() - final(self).books().dom().len(),
    {
        let keys: Vec<u64> = keys_of(&self.live);
        let ghost before = self.live@;
        let mut n: usize = 0;
        let mut i: usize = 0;
        while i < keys.len()
            invariant
                self.wf(),
                self.same_pool(old(self)),
                before == old(self).books(),
                before.dom().finite(),
                i <= keys@.len(),
                n <= i,
                keys@.to_set() == before.dom(),
                keys@.no_duplicates(),
                n + self.live@.dom().len() == before.dom().len(),
                forall|a: u64| #[trigger]
                    self.live@.contains_key(a) ==> before.contains_key(a) && before[a]
                        == self.live@[a],
                forall|j: int|
                    i <= j < keys@.len() ==> self.live@.contains_key(#[trigger] keys@[j]),
                forall|j: int|
                    0 <= j < i ==> (self.live@.contains_key(#[trigger] keys@[j])
                        <==> before[keys@[j]].0 != owner),
            decreases keys@.len() - i,
        {
            let a: u64 = keys[i];
            assert(self.live@.contains_key(keys@[i as int]));
            let mine: bool = match self.live.get(&a) {
                Some(h) => h.0 == owner,
                None => false,
            };
            if mine {
                let ghost prev = self.live@;
                self.free(a);
                n = n + 1;
                assert(self.live@.dom() =~= prev.dom().remove(a));
                assert forall|j: int| i + 1 <= j < keys@.len() implies self.live@.contains_key(
                    #[trigger] keys@[j],
                ) by {
                    assert(prev.contains_key(keys@[j]));
                    assert(keys@[j] != keys@[i as int]);
                }
                assert forall|j: int| 0 <= j < i + 1 implies (self.live@.contains_key(
                    #[trigger] keys@[j],
                ) <==> before[keys@[j]].0 != owner) by {
                    if j < i {
                        assert(keys@[j] != keys@[i as int]);
                    }
                }
            }
            i = i + 1;
        }
        proof {
            let after = without(before, owner);
            assert forall|a: u64| #[trigger] before.contains_key(a) implies (
            self.live@.contains_key(a) <==> before[a].0 != owner) by {
                assert(keys@.to_set().contains(a));
                let j = choose|j: int| 0 <= j < keys@.len() && keys@[j] == a;
                assert(keys@[j] == a);
            }
            assert(self.live@ =~= after);
        }
        n
    }

    /// A new lease: a holder with a number that no other lease has.
    pub fn lease(&mut self, card: String) -> (lease: PoolBufferAllocator)
        requires
            old(self).wf(),
            old(self).last_owner() < u64::MAX,
        ensures
            final(self).wf(),
            final(self).pool() == old(self).pool(),
            final(self).books() == old(self).books(),
            final(self).last_owner() == old(self).last_owner() + 1,
            lease.owner() == final(self).last_owner(),
            lease.card() == card@,
    {
        self.next_owner = self.next_owner + 1;
        PoolBufferAllocator { card, owner: self.next_owner }
    }

    /// How many bytes are held.
    pub fn used_bytes(&self) -> (n: u64)
        ensures
            n == self.used(),
    {
        self.used
    }

    /// How many holdings there are.
    pub fn live_count(&self) -> (n: usize)
        requires
            self.wf(),
        ensures
            n == self.books().dom().len(),
    {
        self.live.len()
    }

    /// The pool's place in the guest.
    pub fn guest_range(&self) -> (r: (u64, u64))
        ensures
            r == (self.pool().handle.gpa, self.pool().handle.size),
    {
        (self.mapped.handle.gpa, self.mapped.handle.size)
    }
}

/// One device's lease on the pool.
pub struct PoolBufferAllocator {
    card: String,
    owner: u64,
}

impl PoolBufferAllocator {
    /// The holder's number.
    pub closed spec fn owner(&self) -> u64 {
        self.owner
    }

    /// The device's name.
    pub closed spec fn card(&self) -> Seq<char> {
        self.card@
    }

    /// The holder's number.
    pub fn holder(&self) -> (o: u64)
        ensures
            o == self.owner(),
    {
        self.owner
    }

    /// The device's name.
    pub fn name(&self) -> (c: &String)
        ensures
            c@ == self.card(),
    {
        &self.card
    }
}

/// What was booked and then given back leaves the books as they were.
pub proof fn law_reserve_then_unreserve(
    books: Map<u64, (u64, u64)>,
    offset: u64,
    owner: u64,
    size: u64,
)
    requires
        !books.contains_key(offset),
    ensures
        books.insert(offset, (owner, size)).contains_key(offset),
        books.insert(offset, (owner, size))[offset].0 == owner,
        books.insert(offset, (owner, size)).remove(offset) == books,
{
    assert(books.insert(offset, (owner, size)).remove(offset) =~= books);
}

/// A sweep takes what its own lease holds, and nothing of any other.
pub proof fn law_sweep_takes_its_own(books: Map<u64, (u64, u64)>, owner: u64, a: u64)
    ensures
        without(books, owner).contains_key(a) <==> books.contains_key(a) && books[a].0 != owner,
        without(books, owner).contains_key(a) ==> without(books, owner)[a] == books[a],
        without(without(books, owner), owner) == without(books, owner),
{
    assert(without(without(books, owner), owner) =~= without(books, owner));
}

/// No byte of the pool is two holders': the holdings of sound books share none.
pub proof fn law_no_byte_is_held_twice(
    books: Map<u64, (u64, u64)>,
    page: int,
    size: int,
    a: u64,
    b: u64,
    x: int,
)
    requires
        sound(books, page, size),
        books.contains_key(a),
        books.contains_key(b),
        a <= x < a + books[a].1,
        b <= x < b + books[b].1,
    ensures
        a == b,
{
}

// Serving the pool to a helper.

/// How many unreadable requests in a row are put up with.
pub const POOL_SERVER_MAX_CONSECUTIVE_ERRORS: u32 = 8;

/// How long a helper waits for an answer, in milliseconds.
pub const POOL_RPC_TIMEOUT_MS: u64 = 5000;

/// What the server of one helper is doing.
#[derive(Clone, Copy, Debug, PartialEq, Eq, Structural)]
pub enum ServerState {
    /// Answering requests.
    Serving,
    /// Answering nothing, and holding the lease until the helper is gone.
    Parked,
    /// The helper is gone, and its lease was swept.
    Closed,
}

/// What the server does next.
#[derive(Clone, Copy, Debug, PartialEq, Eq, Structural)]
pub enum ServerAction {
    /// Send an answer, then read.
    Answer(PoolResponse),
    /// Read at once.
    Read,
    /// Wait so many milliseconds, then read.
    Pause(u64),
}

/// What a served holder is answered to a request, given what the offset space answered, and the
/// books after that.
pub open spec fn answered(
    pool: MappedPool,
    books: Map<u64, (u64, u64)>,
    owner: u64,
    request: PoolRequest,
    answer: Option<u64>,
) -> (ServerAction, Map<u64, (u64, u64)>) {
    match request {
        PoolRequest::Reserve { len } => {
            let (r, after) = reserved(pool, books, len, owner, answer);
            (
                ServerAction::Answer(
                    match r {
                        Ok(offset) => PoolResponse::Reserved { offset },
                        Err(e) => PoolResponse::Errno(e),
                    },
                ),
                after,
            )
        },
        PoolRequest::Release { offset } => (
            ServerAction::Answer(PoolResponse::Released),
            given_back(books, offset, owner),
        ),
    }
}

/// What an unreadable request makes of a server, and what it does next.
pub open spec fn unreadable(state: ServerState, errors: int) -> (ServerState, int, ServerAction) {
    match state {
        ServerState::Serving => if errors + 1 == POOL_SERVER_MAX_CONSECUTIVE_ERRORS {
            (ServerState::Parked, errors + 1, ServerAction::Read)
        } else {
            (ServerState::Serving, errors + 1, ServerAction::Pause(10))
        },
        _ => (state, errors, ServerAction::Pause(100)),
    }
}

/// The server of one helper's lease.
///
/// The lease is swept when the connection reaches its end, and only then: nothing else proves
/// that the helper is gone and writes into its buffers no more.
pub struct PoolServer {
    lease: PoolBufferAllocator,
    errors: u32,
    state: ServerState,
}

impl PoolServer {
    /// The holder whose lease is served.
    pub closed spec fn owner(&self) -> u64 {
        self.lease.owner()
    }

    /// How many unreadable requests came in a row.
    pub closed spec fn errors(&self) -> u32 {
        self.errors
    }

    /// What the server is doing.
    pub closed spec fn state(&self) -> ServerState {
        self.state
    }

    pub open spec fn wf(&self) -> bool {
        self.state() is Serving ==> self.errors() < POOL_SERVER_MAX_CONSECUTIVE_ERRORS
    }

    /// Begins to serve a lease.
    pub fn new(lease: PoolBufferAllocator) -> (server: Self)
        ensures
            server.wf(),
            server.owner() == lease.owner(),
            server.errors() == 0,
            server.state() == ServerState::Serving,
    {
        PoolServer { lease, errors: 0, state: ServerState::Serving }
    }

    /// What the server is doing.
    pub fn current(&self) -> (s: ServerState)
        ensures
            s == self.state(),
    {
        self.state
    }

    /// Takes a request, and where it is a reservation what the offset space answered. A foreign
    /// or unknown offset is refused by the books; the helper is told that its release was dealt
    /// with either way.
    pub fn on_request(
        &mut self,
        pool: &mut MediaPoolAllocator,
        request: PoolRequest,
        answer: Option<u64>,
    ) -> (action: ServerAction)
        requires
            old(self).wf(),
            old(self).state() !is Closed,
            old(pool).wf(),
            old(self).state() is Serving ==> (request matches PoolRequest::Reserve { len } ==> old(
                pool,
            ).honest(len, answer)),
        ensures
            final(self).wf(),
            final(pool).wf(),
            final(pool).same_pool(old(pool)),
            final(self).owner() == old(self).owner(),
            final(self).state() == old(self).state(),
            old(self).state() is Parked ==> {
                &&& action == ServerAction::Read
                &&& final(pool).books() == old(pool).books()
                &&& final(self).errors() == old(self).errors()
            },
            old(self).state() is Serving ==> {
                &&& final(self).errors() == 0
                &&& (action, final(pool).books()) == answered(
                    old(pool).pool(),
                    old(pool).books(),
                    old(self).owner(),
                    request,
                    answer,
                )
            },
    {
        match self.state {
            ServerState::Serving => {
                self.errors = 0;
                match request {
                    PoolRequest::Reserve { len } => {
                        match pool.reserve(len, self.lease.owner, answer) {
                            Ok(offset) => ServerAction::Answer(PoolResponse::Reserved { offset }),
                            Err(e) => ServerAction::Answer(PoolResponse::Errno(e)),
                        }
                    },
                    PoolRequest::Release { offset } => {
                        let _ = pool.unreserve(offset, self.lease.owner);
                        ServerAction::Answer(PoolResponse::Released)
                    },
                }
            },
            _ => ServerAction::Read,
        }
    }

    /// Takes a request that could not be read. The helper still lives: its lease stays. After
    /// too many in a row nothing is answered any more.
    pub fn on_unreadable(&mut self) -> (action: ServerAction)
        requires
            old(self).wf(),
            old(self).state() !is Closed,
        ensures
            final(self).wf(),
            final(self).owner() == old(self).owner(),
            (final(self).state(), final(self).errors() as int, action) == unreadable(
                old(self).state(),
                old(self).errors() as int,
            ),
    {
        match self.state {
            ServerState::Serving => {
                self.errors = self.errors + 1;
                if self.errors >= POOL_SERVER_MAX_CONSECUTIVE_ERRORS {
                    self.state = ServerState::Parked;
                    ServerAction::Read
                } else {
                    ServerAction::Pause(10)
                }
            },
            _ => ServerAction::Pause(100),
        }
    }

    /// Takes that an answer could not be sent. The helper does not read, but it lives: its lease
    /// stays, and nothing is answered any more.
    pub fn on_unanswered(&mut self) -> (action: ServerAction)
        requires
            old(self).wf(),
            old(self).state() !is Closed,
        ensures
            final(self).wf(),
            final(self).owner() == old(self).owner(),
            final(self).errors() == old(self).errors(),
            final(self).state() == ServerState::Parked,
            action == ServerAction::Read,
    {
        self.state = ServerState::Parked;
        ServerAction::Read
    }

    /// Takes that the connection is at its end: the helper is gone, and all it held goes back.
    /// Returns how many holdings there were.
    pub fn on_closed(&mut self, pool: &mut MediaPoolAllocator) -> (n: usize)
        requires
            old(self).wf(),
            old(self).state() !is Closed,
            old(pool).wf(),
        ensures
            final(self).wf(),
            final(self).owner() == old(self).owner(),
            final(self).errors() == old(self).errors(),
            final(self).state() == ServerState::Closed,
            final(pool).wf(),
            final(pool).same_pool(old(pool)),
            final(pool).books() == without(old(pool).books(), old(self).owner()),
            n == old(pool).books().dom().len() - final(pool).books().dom().len(),
    {
        self.state = ServerState::Closed;
        pool.release_owner(self.lease.owner)
    }
}

// A helper's side.

/// What a helper hears: nothing once the connection is given up, or where no answer came.
pub open spec fn heard(dead: bool, answer: Option<PoolResponse>) -> Result<PoolResponse, i32> {
    if dead {
        Err(errno::EIO)
    } else {
        match answer {
            Some(response) => Ok(response),
            None => Err(errno::EIO),
        }
    }
}

/// A helper's connection to the pool's server.
///
/// Requests carry no number, so after a missed answer the two sides are out of step: a late
/// answer would be taken for the next one. From there on everything fails.
pub struct RemotePool {
    mapped: MappedPool,
    dead: bool,
}

/// What becomes of an allocation.
#[derive(Clone, Copy, Debug, PartialEq, Eq, Structural)]
pub enum RemoteStep {
    Built(HostBuffer),
    /// Give the offset back, then fail.
    GiveBack { offset: u64, errno: i32 },
    Failed(i32),
}

impl RemotePool {
    /// This process's mapping of the pool.
    pub closed spec fn pool(&self) -> MappedPool {
        self.mapped
    }

    /// Whether the connection is given up.
    pub closed spec fn dead(&self) -> bool {
        self.dead
    }

    /// A connection that works.
    pub fn new(mapped: MappedPool) -> (r: Self)
        ensures
            r.pool() == mapped,
            !r.dead(),
    {
        RemotePool { mapped, dead: false }
    }

    /// Whether anything may be asked.
    pub fn ready(&self) -> (r: Result<(), i32>)
        ensures
            r == if self.dead() {
                Err::<(), i32>(errno::EIO)
            } else {
                Ok(())
            },
    {
        if self.dead {
            Err(errno::EIO)
        } else {
            Ok(())
        }
    }

    /// Takes the answer to a request; nothing where it could not be sent, or no answer came in
    /// time. That ends the connection.
    pub fn on_answer(&mut self, answer: Option<PoolResponse>) -> (r: Result<PoolResponse, i32>)
        ensures
            final(self).pool() == old(self).pool(),
            final(self).dead() == (old(self).dead() || answer is None),
            r == heard(old(self).dead(), answer),
    {
        if self.dead {
            return Err(errno::EIO);
        }
        match answer {
            Some(response) => Ok(response),
            None => {
                self.dead = true;
                Err(errno::EIO)
            },
        }
    }

    /// Takes that an answer was none to what was asked. That ends the connection.
    pub fn out_of_step(&mut self) -> (e: i32)
        ensures
            final(self).pool() == old(self).pool(),
            final(self).dead(),
            e == errno::EIO,
    {
        self.dead = true;
        errno::EIO
    }
}

/// What becomes of an allocation of `len` bytes on a live connection, given the answer.
pub open spec fn remote_step(
    pool: MappedPool,
    len: u64,
    answer: Option<PoolResponse>,
    descriptor: bool,
) -> RemoteStep {
    match answer {
        Some(PoolResponse::Reserved { offset }) => if pool.fits(offset as int, len as int)
            && descriptor {
            RemoteStep::Built(
                HostBuffer {
                    fd_offset: (pool.handle.fd_offset + offset) as u64,
                    len,
                    pool_offset: Some(offset),
                },
            )
        } else {
            RemoteStep::GiveBack { offset, errno: errno::EIO }
        },
        Some(PoolResponse::Errno(e)) => RemoteStep::Failed(e),
        _ => RemoteStep::Failed(errno::EIO),
    }
}

/// A helper device's allocator: every offset comes from the one allocator, over the connection.
pub struct RemotePoolAllocator {
    pool: RemotePool,
    card: String,
}

impl RemotePoolAllocator {
    /// The connection.
    pub closed spec fn connection(&self) -> RemotePool {
        self.pool
    }

    /// The device's name.
    pub closed spec fn card(&self) -> Seq<char> {
        self.card@
    }

    /// An allocator over a connection.
    pub fn new(pool: RemotePool, card: String) -> (r: Self)
        ensures
            r.connection() == pool,
            r.card() == card@,
    {
        RemotePoolAllocator { pool, card }
    }

    /// What to ask for a buffer of `len` bytes.
    pub fn allocate(&self, len: u64) -> (r: Result<PoolRequest, i32>)
        ensures
            r == if self.connection().dead() {
                Err::<PoolRequest, i32>(errno::EIO)
            } else {
                Ok(PoolRequest::Reserve { len })
            },
    {
        match self.pool.ready() {
            Ok(()) => Ok(PoolRequest::Reserve { len }),
            Err(e) => Err(e),
        }
    }

    /// Takes the answer, and whether a descriptor for the buffer could be had. Bytes that were
    /// booked but of which no buffer could be made are given back.
    pub fn on_allocated(
        &mut self,
        len: u64,
        answer: Option<PoolResponse>,
        descriptor: bool,
    ) -> (step: RemoteStep)
        requires
            old(self).connection().pool().wf(),
            !old(self).connection().dead(),
        ensures
            final(self).card() == old(self).card(),
            final(self).connection().pool() == old(self).connection().pool(),
            step == remote_step(old(self).connection().pool(), len, answer, descriptor),
            final(self).connection().dead() == (answer is None || answer
                == Some(PoolResponse::Released)),
    {
        match self.pool.on_answer(answer) {
            Ok(PoolResponse::Reserved { offset }) => {
                match self.pool.mapped.buffer_at(offset, len, descriptor) {
                    Ok(buffer) => RemoteStep::Built(buffer),
                    Err(errno) => RemoteStep::GiveBack { offset, errno },
                }
            },
            Ok(PoolResponse::Errno(e)) => RemoteStep::Failed(e),
            Ok(PoolResponse::Released) => RemoteStep::Failed(self.pool.out_of_step()),
            Err(e) => RemoteStep::Failed(e),
        }
    }

    /// What to ask to give an offset back; nothing where nothing may be asked.
    pub fn give_back(&self, offset: u64) -> (r: Option<PoolRequest>)
        ensures
            r == if self.connection().dead() {
                None::<PoolRequest>
            } else {
                Some(PoolRequest::Release { offset })
            },
    {
        match self.pool.ready() {
            Ok(()) => Some(PoolRequest::Release { offset }),
            Err(_) => None,
        }
    }

    /// What to ask to release a buffer; nothing where it is not the pool's, or nothing may be
    /// asked.
    pub fn release(&self, buf: HostBuffer) -> (r: Option<PoolRequest>)
        ensures
            r == match buf.pool_offset {
                Some(offset) => if self.connection().dead() {
                    None::<PoolRequest>
                } else {
                    Some(PoolRequest::Release { offset })
                },
                None => None,
            },
    {
        match buf.pool_offset {
            Some(offset) => self.give_back(offset),
            None => None,
        }
    }

    /// Takes the answer to giving an offset back. Whatever it is, the device goes on.
    pub fn on_given_back(&mut self, answer: Option<PoolResponse>)
        requires
            !old(self).connection().dead(),
        ensures
            final(self).card() == old(self).card(),
            final(self).connection().pool() == old(self).connection().pool(),
            final(self).connection().dead() == (answer != Some(PoolResponse::Released)),
    {
        match self.pool.on_answer(answer) {
            Ok(PoolResponse::Released) => {},
            Ok(_) => {
                let _ = self.pool.out_of_step();
            },
            Err(_) => {},
        }
    }
}

/// What the server of sound books gives out, a helper that maps the same pool takes: an answered
/// reservation is never one that it has to give back for want of a place.
pub proof fn law_helper_takes_what_is_served(
    pool: MappedPool,
    books: Map<u64, (u64, u64)>,
    len: u64,
    offset: u64,
)
    requires
        pool.wf(),
        request_size(pool, len as int) is Some,
        unheld(
            books,
            pool.page as int,
            pool.handle.size as int,
            offset as int,
            request_size(pool, len as int)->0,
        ),
    ensures
        remote_step(pool, len, Some(PoolResponse::Reserved { offset }), true) is Built,
{
    guest_mem::lemma_page_up(len as int, pool.page as int);
}

/// The pool is the first region that starts at its base. Where none does, there is no pool.
pub proof fn law_the_pool_starts_at_its_base(regions: Seq<MemoryRegion>, gpa: u64)
    ensures
        match region_from(regions, gpa) {
            Some(r) => exists|i: int|
                0 <= i < regions.len() && #[trigger] regions[i] == r && r.guest_addr == gpa
                    && forall|j: int| 0 <= j < i ==> (#[trigger] regions[j]).guest_addr != gpa,
            None => forall|i: int| 0 <= i < regions.len() ==> (#[trigger] regions[i]).guest_addr
                != gpa,
        },
    decreases regions.len(),
{
    if regions.len() > 0 {
        if regions[0].guest_addr == gpa {
            assert(regions[0] == region_from(regions, gpa)->0);
        } else {
            let rest = regions.drop_first();
            law_the_pool_starts_at_its_base(rest, gpa);
            match region_from(rest, gpa) {
                Some(r) => {
                    let i = choose|i: int|
                        0 <= i < rest.len() && #[trigger] rest[i] == r && r.guest_addr == gpa
                            && forall|j: int| 0 <= j < i ==> (#[trigger] rest[j]).guest_addr != gpa;
                    assert(regions[i + 1] == r);
                    assert forall|j: int| 0 <= j < i + 1 implies (#[trigger] regions[j]).guest_addr
                        != gpa by {
                        if j > 0 {
                            assert(rest[j - 1].guest_addr != gpa);
                        }
                    }
                },
                None => {
                    assert forall|i: int| 0 <= i < regions.len() implies (
                    #[trigger] regions[i]).guest_addr != gpa by {
                        if i > 0 {
                            assert(rest[i - 1].guest_addr != gpa);
                        }
                    }
                },
            }
        }
    }
}

/// A range of whose bytes every one is the pool's fits where it starts with a page, and no other
/// range does.
pub proof fn law_what_fits_is_the_pools(pool: MappedPool, offset: u64, len: u64, pages: int)
    requires
        pool.wf(),
    ensures
        pool.fits(offset as int, len as int) ==> len > 0 && offset + len <= pool.handle.size,
        offset == pages * pool.page && len > 0 && offset + len <= pool.handle.size ==> pool.fits(
            offset as int,
            len as int,
        ),
        0 < offset - pages * pool.page < pool.page ==> !pool.fits(offset as int, len as int),
        offset + len > pool.handle.size ==> !pool.fits(offset as int, len as int),
        len == 0 ==> !pool.fits(offset as int, len as int),
{
    let page = pool.page as int;
    if offset == pages * page {
        vstd::arithmetic::div_mod::lemma_fundamental_div_mod_converse(
            offset as int,
            page,
            pages,
            0,
        );
    }
    let over = offset - pages * page;
    if 0 < over < page {
        vstd::arithmetic::div_mod::lemma_fundamental_div_mod_converse(
            offset as int,
            page,
            pages,
            over,
        );
    }
}

/// Nothing is held at first. What is booked is counted, and what is given back is counted no more.
pub proof fn law_what_is_booked_is_counted(
    books: Map<u64, (u64, u64)>,
    offset: u64,
    owner: u64,
    size: u64,
)
    requires
        books.dom().finite(),
    ensures
        held(Map::<u64, (u64, u64)>::empty()) == 0,
        !books.contains_key(offset) ==> held(books.insert(offset, (owner, size))) == held(books)
            + size,
        books.contains_key(offset) ==> held(books.remove(offset)) == held(books)
            - books[offset].1,
{
    assert(Map::<u64, (u64, u64)>::empty().dom() =~= Set::<u64>::empty());
    if books.contains_key(offset) {
        lemma_held_remove(books, offset);
    } else {
        lemma_held_insert(books, offset, (owner, size));
    }
}

/// Whole pages that nobody holds can be booked, and the books stay sound. They stay so too where
/// a holding is given back.
pub proof fn law_books_stay_sound(
    books: Map<u64, (u64, u64)>,
    page: int,
    size: int,
    offset: u64,
    owner: u64,
    len: u64,
    back: u64,
)
    requires
        sound(books, page, size),
    ensures
        sound(Map::<u64, (u64, u64)>::empty(), page, size),
        sound(books.remove(back), page, size),
        unheld(books, page, size, offset as int, len as int) ==> sound(
            books.insert(offset, (owner, len)),
            page,
            size,
        ),
{
    assert(books.remove(back).dom() =~= books.dom().remove(back));
    assert(Map::<u64, (u64, u64)>::empty().dom() =~= Set::<u64>::empty());
    if unheld(books, page, size, offset as int, len as int) {
        let after = books.insert(offset, (owner, len));
        assert(after.dom() =~= books.dom().insert(offset));
        assert forall|a: u64, b: u64|
            #[trigger] after.contains_key(a) && #[trigger] after.contains_key(b) && a
                < b implies a + after[a].1 <= b by {
            if a != offset && b != offset {
                assert(books.contains_key(a) && books.contains_key(b));
            } else if a == offset {
                assert(books.contains_key(b));
            } else {
                assert(books.contains_key(a));
            }
        }
    }
}

/// A holding is whole pages of the pool.
pub proof fn law_a_holding_is_the_pools(
    books: Map<u64, (u64, u64)>,
    page: int,
    size: int,
    a: u64,
)
    requires
        sound(books, page, size),
        books.contains_key(a),
        0 < page,
    ensures
        0 < books[a].1,
        a + books[a].1 <= size,
        exists|first: int, n: int|
            0 <= first && 0 < n && a == #[trigger] (first * page) && books[a].1
                == #[trigger] (n * page),
{
    let len = books[a].1 as int;
    vstd::arithmetic::div_mod::lemma_fundamental_div_mod(a as int, page);
    vstd::arithmetic::div_mod::lemma_fundamental_div_mod(len, page);
    let first = a as int / page;
    let n = len / page;
    vstd::arithmetic::div_mod::lemma_div_pos_is_pos(a as int, page);
    vstd::arithmetic::div_mod::lemma_div_pos_is_pos(len, page);
    assert(first * page == page * first && n * page == page * n) by (nonlinear_arith);
    if n == 0 {
        assert(n * page == 0) by (nonlinear_arith)
            requires
                n == 0,
        ;
    }
    assert(a == first * page && len == n * page);
}

/// Whether a byte of the pool is part of the holding that starts at `a`.
pub open spec fn holds(books: Map<u64, (u64, u64)>, a: u64, x: int) -> bool {
    books.contains_key(a) && a <= x < a + books[a].1
}

/// A range that is free to be booked has no byte that anybody holds, and one with such a byte is
/// not free.
pub proof fn law_what_is_free_nobody_holds(
    books: Map<u64, (u64, u64)>,
    page: int,
    size: int,
    offset: int,
    len: int,
)
    requires
        sound(books, page, size),
        0 < len,
        offset % page == 0,
        len % page == 0,
        offset + len <= size,
    ensures
        unheld(books, page, size, offset, len) <==> forall|a: u64, x: int|
            offset <= x < offset + len ==> !#[trigger] holds(books, a, x),
{
    if !unheld(books, page, size, offset, len) {
        let a = choose|a: u64|
            #[trigger] books.contains_key(a) && !(a + books[a].1 <= offset || offset + len <= a);
        let x = if a > offset {
            a as int
        } else {
            offset
        };
        assert(holds(books, a, x));
    }
}

/// As many bytes are asked for as the fewest whole pages that hold what is wanted, where the pool
/// is as large as that.
pub proof fn law_the_fewest_pages_are_asked_for(pool: MappedPool, len: u64, n: int)
    requires
        pool.wf(),
    ensures
        len == 0 ==> request_size(pool, len as int) is None,
        len > 0 && (n - 1) * pool.page < len <= n * pool.page ==> {
            &&& n * pool.page <= pool.handle.size ==> request_size(pool, len as int) == Some(
                n * pool.page,
            )
            &&& n * pool.page > pool.handle.size ==> request_size(pool, len as int) is None
        },
{
    let page = pool.page as int;
    if len > 0 && (n - 1) * page < len <= n * page {
        assert((n - 1) * page == n * page - page) by (nonlinear_arith);
        let over = len + page - 1 - n * page;
        vstd::arithmetic::div_mod::lemma_fundamental_div_mod_converse(
            len + page - 1,
            page,
            n,
            over,
        );
    }
}

/// What a helper makes of an answer. A buffer is built where it was put, and of the length that was
/// wanted; what cannot be built is given back whole; a refusal is passed on; what is no answer
/// fails.
pub proof fn law_a_helper_goes_by_the_answer(
    pool: MappedPool,
    len: u64,
    answer: Option<PoolResponse>,
    descriptor: bool,
)
    requires
        pool.wf(),
    ensures
        match remote_step(pool, len, answer, descriptor) {
            RemoteStep::Built(b) => {
                &&& b.pool_offset matches Some(offset) && answer == Some(
                    PoolResponse::Reserved { offset },
                ) && b.fd_offset - pool.handle.fd_offset == offset && offset + len
                    <= pool.handle.size
                &&& b.len == len && len > 0 && descriptor
            },
            RemoteStep::GiveBack { offset, errno } => answer == Some(
                PoolResponse::Reserved { offset },
            ) && errno == 5 && !(descriptor && pool.fits(offset as int, len as int)),
            RemoteStep::Failed(e) => answer == Some(PoolResponse::Errno(e)) || e == 5 && (answer
                is None || answer == Some(PoolResponse::Released)),
        },
{
}

/// The offset space is taken at its word only for pages that are free. Without an answer there is
/// nothing to doubt.
pub proof fn law_an_honest_answer_is_free_space(
    allocator: MediaPoolAllocator,
    len: u64,
    offset: u64,
    a: u64,
    x: int,
)
    requires
        allocator.wf(),
        len > 0,
        len <= allocator.pool().handle.size,
    ensures
        allocator.honest(len, None),
        allocator.honest(len, Some(offset)) ==> offset + len <= allocator.pool().handle.size,
        allocator.honest(len, Some(offset)) && offset <= x < offset + len ==> !holds(
            allocator.books(),
            a,
            x,
        ),
{
    let pool = allocator.pool();
    let page = pool.page as int;
    lemma_round(len as int, page);
    let size = guest_mem::page_up(len as int, page);
    let m = pool.handle.size as int;
    vstd::arithmetic::div_mod::lemma_fundamental_div_mod(m, page);
    guest_mem::lemma_page_up(len as int, page);
    let q = (len + page - 1) / page;
    let whole = m / page;
    assert(q <= whole) by (nonlinear_arith)
        requires
            q * page == size,
            size < len + page,
            len <= m,
            m == page * whole,
            0 < page,
    ;
    assert(q * page <= whole * page) by (nonlinear_arith)
        requires
            q <= whole,
            0 < page,
    ;
    assert(whole * page == page * whole) by (nonlinear_arith);
}

/// An allocator's count is what its books hold, and never more than the pool.
pub proof fn law_the_count_is_what_is_held(allocator: MediaPoolAllocator)
    requires
        allocator.wf(),
    ensures
        allocator.used() == held(allocator.books()),
        0 <= allocator.used() <= allocator.pool().handle.size,
        allocator.books() == Map::<u64, (u64, u64)>::empty() ==> allocator.used() == 0,
{
    let size = allocator.pool().handle.size as int;
    law_held_fits_the_pool(allocator.books(), allocator.pool().page as int, size);
    assert(Map::<u64, (u64, u64)>::empty().dom() =~= Set::<u64>::empty());
}

/// What is reserved is booked: at the offset that the offset space gave, for the holder, in as many
/// bytes as the pages take. Every other holding stays as it is. What is refused changes nothing: it
/// is no size that the pool could have, or there is no room.
pub proof fn law_a_reservation_is_booked(
    pool: MappedPool,
    books: Map<u64, (u64, u64)>,
    len: u64,
    owner: u64,
    answer: Option<u64>,
    a: u64,
)
    requires
        pool.wf(),
    ensures
        ({
            let (r, after) = reserved(pool, books, len, owner, answer);
            &&& r == Err::<u64, i32>(22) <==> request_size(pool, len as int) is None
            &&& r == Err::<u64, i32>(12) <==> request_size(pool, len as int) is Some && answer
                is None
            &&& r matches Ok(offset) ==> {
                &&& answer == Some(offset)
                &&& after.contains_key(offset)
                &&& after[offset].0 == owner
                &&& len <= after[offset].1 < len + pool.page
                &&& a != offset ==> after.contains_key(a) == books.contains_key(a) && after[a]
                    == books[a]
            }
            &&& r is Err ==> after == books
        }),
{
    guest_mem::lemma_page_up(len as int, pool.page as int);
}

/// Only its holder gives an offset back, and nothing else is given back with it.
pub proof fn law_only_the_holder_gives_back(
    books: Map<u64, (u64, u64)>,
    offset: u64,
    owner: u64,
    a: u64,
)
    ensures
        given_back(books, offset, owner).contains_key(a) <==> books.contains_key(a) && !(a == offset
            && books[a].0 == owner),
        given_back(books, offset, owner).contains_key(a) ==> given_back(books, offset, owner)[a]
            == books[a],
        given_back(given_back(books, offset, owner), offset, owner) == given_back(
            books,
            offset,
            owner,
        ),
{
}

/// A buffer is what was reserved, in the object that backs the pool; where none can be built, nothing
/// is reserved.
pub proof fn law_a_buffer_is_what_was_reserved(
    pool: MappedPool,
    books: Map<u64, (u64, u64)>,
    len: u64,
    owner: u64,
    answer: Option<u64>,
    descriptor: bool,
)
    requires
        pool.wf(),
        answer matches Some(offset) ==> offset <= pool.handle.size,
    ensures
        ({
            let (r, after) = allocated(pool, books, len, owner, answer, descriptor);
            let (booked, then) = reserved(pool, books, len, owner, answer);
            &&& r matches Ok(b) ==> {
                &&& b.len == len
                &&& b.pool_offset matches Some(offset) && booked == Ok::<u64, i32>(offset)
                    && b.fd_offset == pool.handle.fd_offset + offset
                &&& after == then
            }
            &&& r is Err ==> after == books
            &&& booked is Ok && descriptor ==> r is Ok
            &&& booked is Ok && !descriptor ==> r == Err::<HostBuffer, i32>(5)
            &&& booked matches Err(e) ==> r == Err::<HostBuffer, i32>(e)
        }),
{
}

/// A buffer lies in the pool where its offset says, and there is none without a descriptor.
pub proof fn law_a_buffer_lies_where_its_offset_says(
    pool: MappedPool,
    offset: u64,
    len: u64,
    descriptor: bool,
)
    requires
        pool.wf(),
    ensures
        match pool.buffer_of(offset, len, descriptor) {
            Ok(b) => {
                &&& descriptor && pool.fits(offset as int, len as int)
                &&& b.len == len && b.pool_offset == Some(offset)
                &&& b.fd_offset - pool.handle.fd_offset == offset
                &&& b.fd_offset + b.len <= pool.handle.fd_offset + pool.handle.size
            },
            Err(e) => e == 5 && !(descriptor && pool.fits(offset as int, len as int)),
        },
{
}

/// A helper is answered what became of its request: where its bytes are, or why it has none. A release
/// is dealt with whatever it was of, and takes nothing that is another's.
pub proof fn law_a_helper_is_answered(
    pool: MappedPool,
    books: Map<u64, (u64, u64)>,
    owner: u64,
    request: PoolRequest,
    answer: Option<u64>,
    a: u64,
)
    requires
        pool.wf(),
    ensures
        ({
            let (action, after) = answered(pool, books, owner, request, answer);
            &&& request matches PoolRequest::Reserve { len } ==> {
                let (r, then) = reserved(pool, books, len, owner, answer);
                &&& after == then
                &&& r matches Ok(offset) ==> action == ServerAction::Answer(
                    PoolResponse::Reserved { offset },
                )
                &&& r matches Err(e) ==> action == ServerAction::Answer(PoolResponse::Errno(e))
            }
            &&& request matches PoolRequest::Release { offset } ==> {
                &&& action == ServerAction::Answer(PoolResponse::Released)
                &&& after == given_back(books, offset, owner)
                &&& books.contains_key(a) && books[a].0 != owner ==> after.contains_key(a)
                    && after[a] == books[a]
            }
        }),
{
}

/// The eighth unreadable request in a row parks the server, and none before it does. Until then it
/// waits ten milliseconds, and once parked a hundred.
pub proof fn law_the_eighth_in_a_row_parks(state: ServerState, errors: int)
    requires
        0 <= errors,
        state is Serving ==> errors < 8,
    ensures
        ({
            let (after, n, action) = unreadable(state, errors);
            &&& state is Serving ==> n == errors + 1
            &&& state is Serving && n == 8 ==> after is Parked && action is Read
            &&& state is Serving && n < 8 ==> after is Serving && action == ServerAction::Pause(10)
            &&& !(state is Serving) ==> after == state && n == errors && action
                == ServerAction::Pause(100)
        }),
{
}

/// The books change; the pool, and how many leases there were, do not.
pub proof fn law_only_the_books_change(after: MediaPoolAllocator, before: MediaPoolAllocator)
    requires
        after.same_pool(&before),
    ensures
        after.pool() == before.pool() && after.last_owner() == before.last_owner(),
{
}

/// The pool is all of its region, in the object that backs it.
pub proof fn law_the_pool_is_all_of_its_region(regions: Seq<MemoryRegion>, gpa: u64)
    ensures
        match handle_from(regions, gpa) {
            Ok(h) => region_from(regions, gpa) matches Some(r) && h.gpa == gpa && h.size == r.size
                && h.shm == r.shm && h.fd_offset == r.shm_offset,
            Err(e) => e is NoRegion && region_from(regions, gpa) is None,
        },
{
}

/// A helper hears what it is answered, on a connection that lives; anything else is a failed transfer.
pub proof fn law_a_helper_hears_its_answer(dead: bool, answer: Option<PoolResponse>)
    ensures
        heard(dead, answer) matches Ok(response) ==> !dead && answer == Some(response),
        !dead && answer is Some ==> heard(dead, answer) is Ok,
        dead || answer is None ==> heard(dead, answer) == Err::<PoolResponse, i32>(5),
{
}

} // verus!
