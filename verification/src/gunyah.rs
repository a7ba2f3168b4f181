//! Decisions of a machine's host side: which memory is lent and in what pieces, the numbers of its
//! memory slots, how it is started, and what its exits mean.
use crate::codec;
use crate::errno;
use crate::guest_mem;
use crate::guest_mem::GuestMemory;
use crate::guest_mem::MemoryRegionPurpose;
use crate::mthp;
use crate::mthp::LendPrepResult;
use std::collections::BTreeMap;
use vstd::prelude::*;

verus! {

/// Whether a region is given away before the machine starts, where the machine's memory is its
/// own. What the host goes on to use is shared instead, or handed over later.
pub open spec fn is_lent(purpose: MemoryRegionPurpose, isolates: bool) -> bool {
    isolates && (purpose is Bios || purpose is GuestMemoryRegion || purpose
        is ProtectedFirmwareRegion || purpose is ReservedMemory)
}

/// Whether a region is given away before the machine starts.
pub fn lends(purpose: MemoryRegionPurpose, isolates: bool) -> (b: bool)
    ensures
        b == is_lent(purpose, isolates),
{
    match purpose {
        MemoryRegionPurpose::Bios
        | MemoryRegionPurpose::GuestMemoryRegion
        | MemoryRegionPurpose::ProtectedFirmwareRegion
        | MemoryRegionPurpose::ReservedMemory => isolates,
        _ => false,
    }
}

/// What is given away, the host no longer touches.
pub proof fn law_lent_memory_is_not_shared(purpose: MemoryRegionPurpose, isolates: bool)
    requires
        is_lent(purpose, isolates),
    ensures
        !purpose.stays_shared(),
{
}

/// How a region is given away.
#[derive(Clone, Copy, Debug, PartialEq, Eq, Structural)]
pub enum LendMthpMode {
    /// In one piece.
    Single,
    /// In pieces.
    Chunked,
}

/// One piece that is given away, in a slot of its own.
#[derive(Clone, Copy, Debug, PartialEq, Eq, Structural)]
pub struct LendPiece {
    pub slot: u32,
    pub offset: u64,
    pub size: u64,
}

/// The pieces that a region is given away in. The first takes the region's own slot, and the
/// others those from `next` on.
pub open spec fn lend_pieces(
    index: int,
    size: int,
    split: Seq<(int, int)>,
    next: int,
) -> Seq<LendPiece> {
    if split.len() == 0 {
        seq![LendPiece { slot: index as u32, offset: 0, size: size as u64 }]
    } else {
        Seq::new(
            split.len(),
            |i: int|
                LendPiece {
                    slot: if i == 0 {
                        index as u32
                    } else {
                        (next + i - 1) as u32
                    },
                    offset: split[i].0 as u64,
                    size: split[i].1 as u64,
                },
        )
    }
}

/// The next slot after those pieces.
pub open spec fn next_slot(split: Seq<(int, int)>, next: int) -> int {
    if split.len() == 0 {
        next
    } else {
        next + split.len() - 1
    }
}

/// What a prepared region is split into.
pub open spec fn split_of(size: int, mode: LendMthpMode, need_small: Seq<bool>) -> Seq<(int, int)> {
    match mode {
        LendMthpMode::Single => Seq::empty(),
        LendMthpMode::Chunked => mthp::lend_split(size, Some(need_small)),
    }
}

/// The pieces that a region is given away in, and the next slot after them. `prepared` is how
/// and from what, where the region was prepared at all.
pub fn lend_region(
    index: u32,
    size: u64,
    prepared: Option<(LendMthpMode, &LendPrepResult)>,
    next: u32,
) -> (r: (Vec<LendPiece>, u32))
    requires
        prepared matches Some(p) ==> (size > mthp::LEND_CHUNK_SIZE ==> p.1.need_small@.len()
            >= size / mthp::THP_SIZE),
        prepared matches Some(p) ==> next + split_of(size as int, p.0, p.1.need_small@).len()
            <= u32::MAX,
    ensures
        ({
            let split = match prepared {
                Some(p) => split_of(size as int, p.0, p.1.need_small@),
                None => Seq::empty(),
            };
            &&& r.0@ == lend_pieces(index as int, size as int, split, next as int)
            &&& r.1 == next_slot(split, next as int)
        }),
{
    let mut pieces: Vec<LendPiece> = Vec::new();
    if let Some((mode, prep)) = prepared {
        if mode == LendMthpMode::Chunked {
            let chunks = mthp::compute_lend_chunks(size, Some(prep));
            let ghost split = mthp::lend_split(size as int, Some(prep.need_small@));
            assert(mthp::pieces(chunks@) == split);
            if chunks.len() > 0 {
                let mut i: usize = 0;
                while i < chunks.len()
                    invariant
                        i <= chunks@.len(),
                        mthp::pieces(chunks@) == split,
                        next + split.len() <= u32::MAX,
                        chunks@.len() == split.len(),
                        pieces@ == lend_pieces(
                            index as int,
                            size as int,
                            split,
                            next as int,
                        ).take(i as int),
                        split.len() > 0,
                    decreases chunks@.len() - i,
                {
                    let slot: u32 = if i == 0 {
                        index
                    } else {
                        next + (i - 1) as u32
                    };
                    let c = chunks[i];
                    assert(split[i as int] == (c.offset as int, c.size as int));
                    pieces.push(LendPiece { slot, offset: c.offset, size: c.size });
                    i = i + 1;
                    assert(pieces@ =~= lend_pieces(
                        index as int,
                        size as int,
                        split,
                        next as int,
                    ).take(i as int));
                }
                assert(pieces@ =~= lend_pieces(index as int, size as int, split, next as int));
                return (pieces, next + (chunks.len() - 1) as u32);
            }
        }
    }
    pieces.push(LendPiece { slot: index, offset: 0, size });
    assert(pieces@ =~= lend_pieces(index as int, size as int, Seq::empty(), next as int));
    (pieces, next)
}

/// The pieces that a region is given away in reach over the whole region, one after the other,
/// whether it was prepared or not.
pub proof fn law_pieces_cover_the_region(
    index: int,
    size: u64,
    prepared: Option<(LendMthpMode, Seq<bool>)>,
    next: int,
)
    requires
        0 < size,
        prepared matches Some(p) ==> p.1.len() >= size / mthp::THP_SIZE,
    ensures
        ({
            let split = match prepared {
                Some(p) => split_of(size as int, p.0, p.1),
                None => Seq::empty(),
            };
            let pieces = lend_pieces(index, size as int, split, next);
            mthp::end_to_end(
                Seq::new(
                    pieces.len(),
                    |i: int| (pieces[i].offset as int, pieces[i].size as int),
                ),
                0,
                size as int,
            )
        }),
{
    let split = match prepared {
        Some(p) => split_of(size as int, p.0, p.1),
        None => Seq::empty(),
    };
    let pieces = lend_pieces(index, size as int, split, next);
    let pairs = Seq::new(pieces.len(), |i: int| (pieces[i].offset as int, pieces[i].size as int));
    if split.len() > 0 {
        if let Some((_, need_small)) = prepared {
            mthp::law_lend_split_covers(size as int, Some(need_small));
        }
        assert forall|i: int| 0 <= i < split.len() implies #[trigger] pairs[i] == split[i] by {
            lemma_piece_inside(split, 0, size as int, i);
        }
        assert(pairs =~= split);
    }
}

proof fn lemma_piece_inside(split: Seq<(int, int)>, from: int, to: int, i: int)
    requires
        mthp::end_to_end(split, from, to),
        0 <= i < split.len(),
    ensures
        from <= split[i].0,
        0 < split[i].1,
        split[i].0 + split[i].1 <= to,
{
    lemma_piece_starts(split, from, to, i);
    lemma_piece_ends(split, from, to, i);
}

proof fn lemma_piece_starts(split: Seq<(int, int)>, from: int, to: int, i: int)
    requires
        mthp::end_to_end(split, from, to),
        0 <= i < split.len(),
    ensures
        from <= split[i].0,
    decreases i,
{
    if i > 0 {
        lemma_piece_starts(split, from, to, i - 1);
        assert(split[i].0 == split[i - 1].0 + split[i - 1].1);
    }
}

proof fn lemma_piece_ends(split: Seq<(int, int)>, from: int, to: int, i: int)
    requires
        mthp::end_to_end(split, from, to),
        0 <= i < split.len(),
    ensures
        split[i].0 + split[i].1 <= to,
    decreases split.len() - i,
{
    if i + 1 < split.len() {
        lemma_piece_ends(split, from, to, i + 1);
        assert(split[i + 1].0 == split[i].0 + split[i].1);
    }
}

/// No two pieces share a slot, and none takes the slot of another region.
pub proof fn law_pieces_have_slots_of_their_own(
    index: int,
    size: int,
    split: Seq<(int, int)>,
    next: int,
    i: int,
    j: int,
)
    requires
        0 <= index < next,
        next + split.len() <= u32::MAX,
        0 <= i < j < lend_pieces(index, size, split, next).len(),
    ensures
        lend_pieces(index, size, split, next)[i].slot != lend_pieces(
            index,
            size,
            split,
            next,
        )[j].slot,
        lend_pieces(index, size, split, next)[j].slot >= next,
{
}

/// A share of the window.
#[derive(Clone, Copy, Debug, PartialEq, Eq, Structural)]
pub struct Parcel {
    pub offset: u64,
    pub size: u64,
}

/// So many mebibytes in bytes, in 64 bits.
pub open spec fn mebibytes(m: u64) -> int {
    (m * 0x10_0000) % 0x1_0000_0000_0000_0000
}

/// How large a share of a window is: all of it, unless so many mebibytes are asked for. A share is
/// made of whole folios.
pub open spec fn parcel_size(size: int, mb: Option<u64>) -> int {
    match mb {
        Some(m) => if mebibytes(m) == 0 {
            size
        } else {
            codec::min_int((mebibytes(m) + 0x1f_ffff) / 0x20_0000 * 0x20_0000, size)
        },
        None => size,
    }
}

/// How many shares there are.
pub open spec fn parcel_count(size: int, mb: Option<u64>) -> int {
    (size + parcel_size(size, mb) - 1) / parcel_size(size, mb)
}

/// The shares of a window.
pub open spec fn parcels_of(size: int, mb: Option<u64>) -> Seq<Parcel> {
    let chunk = parcel_size(size, mb);
    Seq::new(
        parcel_count(size, mb) as nat,
        |i: int|
            Parcel {
                offset: (i * chunk) as u64,
                size: codec::min_int(chunk, size - i * chunk) as u64,
            },
    )
}

proof fn lemma_parcels(size: int, chunk: int, n: int)
    requires
        0 < chunk <= size,
        n == (size + chunk - 1) / chunk,
    ensures
        1 <= n <= size,
        (n - 1) * chunk < size <= n * chunk,
{
    let m = size + chunk - 1;
    vstd::arithmetic::div_mod::lemma_fundamental_div_mod(m, chunk);
    assert(chunk * n == n * chunk) by (nonlinear_arith);
    let r = m % chunk;
    assert(n * chunk == m - r && 0 <= r < chunk);
    assert((n - 1) * chunk == n * chunk - chunk) by (nonlinear_arith);
    assert(1 <= n && n <= size) by (nonlinear_arith)
        requires
            n * chunk >= size,
            (n - 1) * chunk < size,
            0 < chunk,
            0 < size,
    ;
}

proof fn lemma_whole_shares(size: int, chunk: int)
    requires
        0 < chunk <= size <= u64::MAX,
    ensures
        (size + chunk - 1) / chunk == size / chunk + if size % chunk == 0 {
            0int
        } else {
            1
        },
        size % chunk != 0 ==> size / chunk < u64::MAX,
{
    let (q, r) = (size / chunk, size % chunk);
    vstd::arithmetic::div_mod::lemma_fundamental_div_mod(size, chunk);
    assert(chunk * (q + 1) == chunk * q + chunk) by (nonlinear_arith);
    if r == 0 {
        assert(size + chunk - 1 == q * chunk + (chunk - 1)) by (nonlinear_arith)
            requires
                size == chunk * q,
        ;
        vstd::arithmetic::div_mod::lemma_fundamental_div_mod_converse(
            size + chunk - 1,
            chunk,
            q,
            chunk - 1,
        );
    } else {
        assert(size + chunk - 1 == (q + 1) * chunk + (r - 1)) by (nonlinear_arith)
            requires
                size == chunk * q + r,
        ;
        vstd::arithmetic::div_mod::lemma_fundamental_div_mod_converse(
            size + chunk - 1,
            chunk,
            q + 1,
            r - 1,
        );
        assert(q < size) by (nonlinear_arith)
            requires
                size == chunk * q + r,
                0 < r,
                0 < chunk,
                0 <= size,
        ;
    }
}

/// The shares of a window, where no more than `max` of them are needed. `mb` is how many mebibytes
/// one is to have.
pub fn window_parcels(size: u64, mb: Option<u64>, max: u32) -> (r: Result<Vec<Parcel>, i32>)
    requires
        0 < size,
        mb matches Some(m) ==> mebibytes(m) <= 0xffff_ffff_ffe0_0000,
    ensures
        match r {
            Ok(p) => p@ == parcels_of(size as int, mb) && p@.len() <= max,
            Err(e) => e == errno::EINVAL && parcel_count(size as int, mb) > max,
        },
{
    let chunk: u64 = match mb {
        Some(m) => {
            let asked: u64 = m.wrapping_mul(0x10_0000);
            if asked == 0 {
                size
            } else {
                let c: u64 = (asked - 1) / 0x20_0000 * 0x20_0000 + 0x20_0000;
                if c < size {
                    c
                } else {
                    size
                }
            }
        },
        None => size,
    };
    assert(chunk == parcel_size(size as int, mb));
    proof {
        lemma_whole_shares(size as int, chunk as int);
    }
    let mut count: u64 = size / chunk;
    if size % chunk != 0 {
        count = count + 1;
    }
    proof {
        lemma_parcels(size as int, chunk as int, count as int);
    }
    if count > max as u64 {
        return Err(errno::EINVAL);
    }
    let mut parcels: Vec<Parcel> = Vec::new();
    let mut i: u64 = 0;
    while i < count
        invariant
            0 < chunk <= size,
            chunk == parcel_size(size as int, mb),
            count == parcel_count(size as int, mb),
            (count - 1) * chunk < size,
            i <= count,
            parcels@ == parcels_of(size as int, mb).take(i as int),
        decreases count - i,
    {
        assert(0 <= i * chunk <= (count - 1) * chunk) by (nonlinear_arith)
            requires
                0 <= i <= count - 1,
                0 < chunk,
        ;
        let offset: u64 = i * chunk;
        let rest: u64 = size - offset;
        parcels.push(
            Parcel {
                offset,
                size: if chunk < rest {
                    chunk
                } else {
                    rest
                },
            },
        );
        i = i + 1;
        assert(parcels@ =~= parcels_of(size as int, mb).take(i as int));
    }
    assert(parcels@ =~= parcels_of(size as int, mb));
    Ok(parcels)
}

/// The shares of a window follow one another from its start to its end.
pub proof fn law_parcels_cover_the_window(size: int, mb: Option<u64>, i: int)
    requires
        0 < size <= u64::MAX,
        mb matches Some(m) ==> mebibytes(m) <= 0xffff_ffff_ffe0_0000,
        0 <= i < parcels_of(size, mb).len(),
    ensures
        ({
            let p = parcels_of(size, mb);
            &&& p[0].offset == 0
            &&& 0 < p[i].size <= parcel_size(size, mb)
            &&& i + 1 < p.len() ==> p[i + 1].offset == p[i].offset + p[i].size
            &&& i + 1 == p.len() ==> p[i].offset + p[i].size == size
        }),
{
    let chunk = parcel_size(size, mb);
    let n = parcel_count(size, mb);
    lemma_parcels(size, chunk, n);
    assert((i + 1) * chunk == i * chunk + chunk) by (nonlinear_arith);
    assert(0 <= i * chunk <= (n - 1) * chunk) by (nonlinear_arith)
        requires
            0 <= i <= n - 1,
            0 < chunk,
    ;
    if i + 1 < n {
        assert((i + 1) * chunk <= (n - 1) * chunk) by (nonlinear_arith)
            requires
                i + 1 <= n - 1,
                0 < chunk,
        ;
    } else {
        assert(n * chunk == (i + 1) * chunk);
    }
}

/// The numbers of a machine's memory slots as a value. The first `base` are those of its regions.
pub struct SlotsView {
    pub base: int,
    /// Where what is in a slot begins.
    pub live: Map<u32, u64>,
    /// Slots that were used and are free again.
    pub gaps: Seq<u32>,
    /// A slot that is being filled.
    pub pending: Option<u32>,
}

impl SlotsView {
    /// How many numbers are given out.
    pub open spec fn count(self) -> int {
        self.live.len() + self.gaps.len() + if self.pending is Some {
            1int
        } else {
            0
        }
    }

    /// A slot is being filled: the lowest that was free again, or else the next number.
    pub open spec fn began(self, before: Self, slot: u32) -> bool {
        &&& self.pending == Some(slot)
        &&& self.base == before.base
        &&& self.live == before.live
        &&& if before.gaps.len() == 0 {
            slot == before.base + before.live.len() && self.gaps == before.gaps
        } else {
            &&& before.gaps.contains(slot)
            &&& forall|i: int| 0 <= i < before.gaps.len() ==> slot <= #[trigger] before.gaps[i]
            &&& exists|at: int|
                0 <= at < before.gaps.len() && before.gaps[at] == slot && self.gaps
                    == #[trigger] before.gaps.remove(at)
        }
    }

    /// The slot was filled, with what begins at `guest_addr`.
    pub open spec fn filled(self, guest_addr: u64) -> Self {
        SlotsView { live: self.live.insert(self.pending->0, guest_addr), pending: None, ..self }
    }

    /// The slot was not filled, and is free again.
    pub open spec fn not_filled(self) -> Self {
        SlotsView { gaps: self.gaps.push(self.pending->0), pending: None, ..self }
    }

    /// A slot that was in use is free again.
    pub open spec fn emptied(self, slot: u32) -> Self {
        SlotsView { live: self.live.remove(slot), gaps: self.gaps.push(slot), ..self }
    }

    /// Whether a number is given out.
    pub open spec fn knows(self, slot: u32) -> bool {
        self.live.dom().contains(slot) || self.gaps.contains(slot) || self.pending == Some(slot)
    }

    /// The numbers given out are the first after those of the regions; each is in use, free or
    /// being filled, and only one of these.
    pub open spec fn wf(self) -> bool {
        &&& self.live.dom().finite()
        &&& 0 <= self.base
        &&& self.base + self.count() <= u32::MAX
        &&& self.gaps.no_duplicates()
        &&& forall|s: u32| #[trigger] self.knows(s) <==> self.base <= s < self.base + self.count()
        &&& forall|s: u32|
            #[trigger] self.knows(s) ==> !(self.live.dom().contains(s) && self.gaps.contains(s))
                && !(self.live.dom().contains(s) && self.pending == Some(s)) && !(
            self.gaps.contains(s) && self.pending == Some(s))
    }
}

/// The numbers of a machine's memory slots.
pub struct Slots {
    base: u32,
    live: BTreeMap<u32, u64>,
    gaps: Vec<u32>,
    pending: Option<u32>,
}

impl View for Slots {
    type V = SlotsView;

    closed spec fn view(&self) -> SlotsView {
        SlotsView {
            base: self.base as int,
            live: self.live@,
            gaps: self.gaps@,
            pending: self.pending,
        }
    }
}

proof fn lemma_without(s: Seq<u32>, at: int)
    requires
        s.no_duplicates(),
        0 <= at < s.len(),
    ensures
        s.remove(at).no_duplicates(),
        forall|x: u32| #[trigger] s.remove(at).contains(x) <==> s.contains(x) && x != s[at],
{
    let t = s.remove(at);
    assert forall|x: u32| #[trigger] t.contains(x) <==> s.contains(x) && x != s[at] by {
        if t.contains(x) {
            let i = choose|i: int| 0 <= i < t.len() && t[i] == x;
            if i < at {
                assert(s[i] == x);
            } else {
                assert(s[i + 1] == x);
            }
        }
        if s.contains(x) && x != s[at] {
            let i = choose|i: int| 0 <= i < s.len() && s[i] == x;
            if i < at {
                assert(t[i] == x);
            } else {
                assert(t[i - 1] == x);
            }
        }
    }
}

proof fn lemma_with(s: Seq<u32>, x: u32)
    requires
        s.no_duplicates(),
        !s.contains(x),
    ensures
        s.push(x).no_duplicates(),
        forall|y: u32| #[trigger] s.push(x).contains(y) <==> s.contains(y) || y == x,
{
    let t = s.push(x);
    assert forall|y: u32| #[trigger] t.contains(y) <==> s.contains(y) || y == x by {
        if s.contains(y) {
            let i = choose|i: int| 0 <= i < s.len() && s[i] == y;
            assert(t[i] == y);
        }
        if y == x {
            assert(t[s.len() as int] == y);
        }
    }
}

impl Slots {
    /// The slots of a machine with `base` regions.
    pub fn new(base: u32) -> (s: Self)
        requires
            base < u32::MAX,
        ensures
            s@.wf(),
            s@ == (SlotsView {
                base: base as int,
                live: Map::empty(),
                gaps: Seq::empty(),
                pending: None,
            }),
    {
        Slots { base, live: BTreeMap::new(), gaps: Vec::new(), pending: None }
    }

    /// A slot to fill: the lowest that is free again, or else the next number.
    pub fn begin(&mut self) -> (slot: u32)
        requires
            old(self)@.wf(),
            old(self)@.pending is None,
            old(self)@.base + old(self)@.count() < u32::MAX,
        ensures
            final(self)@.wf(),
            final(self)@.pending == Some(slot),
            final(self)@.base == old(self)@.base,
            final(self)@.live == old(self)@.live,
            !old(self)@.live.dom().contains(slot),
            slot >= old(self)@.base,
            final(self)@.began(old(self)@, slot),
    {
        let ghost before = self@;
        if self.gaps.len() == 0 {
            let n: usize = self.live.len();
            let slot: u32 = self.base + n as u32;
            assert(!before.knows(slot));
            self.pending = Some(slot);
            proof {
                assert forall|s: u32| #[trigger] self@.knows(s) <==> self@.base <= s < self@.base
                    + self@.count() by {
                    assert(before.knows(s) <==> before.base <= s < before.base + before.count());
                }
                assert forall|s: u32| #[trigger] self@.knows(s) implies !(
                self@.live.dom().contains(s) && self@.gaps.contains(s)) && !(
                self@.live.dom().contains(s) && self@.pending == Some(s)) && !(
                self@.gaps.contains(s) && self@.pending == Some(s)) by {
                    if s != slot {
                        assert(before.knows(s));
                    }
                }
            }
            return slot;
        }
        let mut at: usize = 0;
        let mut i: usize = 1;
        while i < self.gaps.len()
            invariant
                at < i <= self.gaps@.len(),
                self@ == before,
                forall|j: int| 0 <= j < i ==> self.gaps@[at as int] <= #[trigger] self.gaps@[j],
            decreases self.gaps@.len() - i,
        {
            if self.gaps[i] < self.gaps[at] {
                at = i;
            }
            i = i + 1;
        }
        proof {
            lemma_without(self.gaps@, at as int);
        }
        let slot: u32 = self.gaps.remove(at);
        self.pending = Some(slot);
        proof {
            assert(before.gaps[at as int] == slot);
            assert(before.knows(slot));
            assert forall|s: u32| #[trigger] self@.knows(s) <==> self@.base <= s < self@.base
                + self@.count() by {
                assert(before.knows(s) <==> before.base <= s < before.base + before.count());
            }
            assert forall|s: u32| #[trigger] self@.knows(s) implies !(self@.live.dom().contains(s)
                && self@.gaps.contains(s)) && !(self@.live.dom().contains(s) && self@.pending
                == Some(s)) && !(self@.gaps.contains(s) && self@.pending == Some(s)) by {
                assert(before.knows(s));
            }
        }
        slot
    }

    /// Takes that the slot was filled, with what begins at `guest_addr`.
    pub fn on_filled(&mut self, guest_addr: u64)
        requires
            old(self)@.wf(),
            old(self)@.pending is Some,
        ensures
            final(self)@.wf(),
            final(self)@ == old(self)@.filled(guest_addr),
    {
        let ghost before = self@;
        if let Some(slot) = self.pending {
            assert(before.knows(slot));
            self.live.insert(slot, guest_addr);
            self.pending = None;
            proof {
                assert(self@.live.dom() =~= before.live.dom().insert(slot));
                assert forall|s: u32| #[trigger] self@.knows(s) <==> self@.base <= s < self@.base
                    + self@.count() by {
                    assert(before.knows(s) <==> before.base <= s < before.base + before.count());
                }
                assert forall|s: u32| #[trigger] self@.knows(s) implies !(
                self@.live.dom().contains(s) && self@.gaps.contains(s)) && !(
                self@.live.dom().contains(s) && self@.pending == Some(s)) && !(
                self@.gaps.contains(s) && self@.pending == Some(s)) by {
                    assert(before.knows(s));
                }
            }
        }
    }

    /// Takes that the slot was not filled. It is free again.
    pub fn on_not_filled(&mut self)
        requires
            old(self)@.wf(),
            old(self)@.pending is Some,
        ensures
            final(self)@.wf(),
            final(self)@ == old(self)@.not_filled(),
    {
        let ghost before = self@;
        if let Some(slot) = self.pending {
            assert(before.knows(slot));
            proof {
                lemma_with(self.gaps@, slot);
            }
            self.gaps.push(slot);
            self.pending = None;
            proof {
                assert forall|s: u32| #[trigger] self@.knows(s) <==> self@.base <= s < self@.base
                    + self@.count() by {
                    assert(before.knows(s) <==> before.base <= s < before.base + before.count());
                }
                assert forall|s: u32| #[trigger] self@.knows(s) implies !(
                self@.live.dom().contains(s) && self@.gaps.contains(s)) && !(
                self@.live.dom().contains(s) && self@.pending == Some(s)) && !(
                self@.gaps.contains(s) && self@.pending == Some(s)) by {
                    assert(before.knows(s));
                }
            }
        }
    }

    /// Where what is in a slot begins.
    pub fn find(&self, slot: u32) -> (addr: Option<u64>)
        ensures
            addr == if self@.live.dom().contains(slot) {
                Some(self@.live[slot])
            } else {
                None::<u64>
            },
    {
        match self.live.get(&slot) {
            Some(a) => Some(*a),
            None => None,
        }
    }

    /// Empties a slot, which is free again. Returns where what was in it began; an error where
    /// nothing was.
    pub fn remove(&mut self, slot: u32) -> (r: Result<u64, i32>)
        requires
            old(self)@.wf(),
        ensures
            final(self)@.wf(),
            match r {
                Ok(addr) => {
                    &&& old(self)@.live.dom().contains(slot)
                    &&& addr == old(self)@.live[slot]
                    &&& final(self)@ == old(self)@.emptied(slot)
                },
                Err(e) => {
                    &&& !old(self)@.live.dom().contains(slot)
                    &&& e == errno::ENOENT
                    &&& final(self)@ == old(self)@
                },
            },
    {
        let ghost before = self@;
        match self.live.remove(&slot) {
            Some(addr) => {
                proof {
                    assert(before.live.dom().contains(slot));
                    assert(before.knows(slot));
                    lemma_with(self.gaps@, slot);
                }
                self.gaps.push(slot);
                proof {
                    assert(self@.live.dom() =~= before.live.dom().remove(slot));
                    assert forall|s: u32| #[trigger] self@.knows(s) <==> self@.base <= s
                        < self@.base + self@.count() by {
                        assert(before.knows(s) <==> before.base <= s < before.base
                            + before.count());
                    }
                    assert forall|s: u32| #[trigger] self@.knows(s) implies !(
                    self@.live.dom().contains(s) && self@.gaps.contains(s)) && !(
                    self@.live.dom().contains(s) && self@.pending == Some(s)) && !(
                    self@.gaps.contains(s) && self@.pending == Some(s)) by {
                        assert(before.knows(s));
                    }
                }
                Ok(addr)
            },
            None => {
                assert(self.live@ =~= before.live);
                Err(errno::ENOENT)
            },
        }
    }
}

/// A slot that is being filled is not in use, nor one of a region's.
pub proof fn law_a_slot_in_use_is_not_given_again(v: SlotsView, slot: u32)
    requires
        v.wf(),
        v.pending == Some(slot),
    ensures
        !v.live.dom().contains(slot),
        slot >= v.base,
{
    assert(v.knows(slot));
}

/// Whether a range touches a region.
pub open spec fn overlaps(mem: GuestMemory, start: int, end: int) -> bool {
    exists|i: int|
        0 <= i < mem.regions@.len() && (#[trigger] mem.regions@[i]).guest_addr < end && start
            < mem.regions@[i].guest_addr + mem.regions@[i].size
}

/// A size in whole pages.
pub open spec fn whole_pages(size: int, page: int) -> int {
    (size + page - 1) / page * page
}

/// How many bytes a new region takes, in whole pages, or why it cannot be added.
pub open spec fn added_of(mem: GuestMemory, guest_addr: u64, size: u64, page: u64) -> Result<
    u64,
    i32,
> {
    let whole = whole_pages(size as int, page as int);
    if guest_addr + whole > u64::MAX {
        Err(errno::EOVERFLOW)
    } else if overlaps(mem, guest_addr as int, guest_addr + whole) {
        Err(errno::ENOSPC)
    } else {
        Ok(whole as u64)
    }
}

/// How many bytes a new region takes, in whole pages, or why it cannot be added.
pub fn region_size(mem: &GuestMemory, guest_addr: u64, size: u64, page: u64) -> (r: Result<
    u64,
    i32,
>)
    requires
        mem.wf(),
        0 < page,
        size + page <= u64::MAX,
    ensures
        r == added_of(*mem, guest_addr, size, page),
{
    let up: u64 = size + page - 1;
    proof {
        vstd::arithmetic::div_mod::lemma_fundamental_div_mod(up as int, page as int);
        let q = up as int / page as int;
        assert(page * q == q * page) by (nonlinear_arith);
        assert(0 <= q * page) by (nonlinear_arith)
            requires
                0 <= q,
                0 < page,
        ;
    }
    let len: u64 = up / page * page;
    let end: u64 = match guest_addr.checked_add(len) {
        Some(e) => e,
        None => {
            return Err(errno::EOVERFLOW);
        },
    };
    let mut i: usize = 0;
    while i < mem.regions.len()
        invariant
            mem.wf(),
            i <= mem.regions@.len(),
            forall|j: int|
                0 <= j < i ==> !((#[trigger] mem.regions@[j]).guest_addr < end && guest_addr
                    < mem.regions@[j].guest_addr + mem.regions@[j].size),
            end == guest_addr + len,
            len == whole_pages(size as int, page as int),
        decreases mem.regions@.len() - i,
    {
        let region = mem.regions[i];
        assert(mem.regions@[i as int].wf());
        if region.guest_addr < end && guest_addr < region.guest_addr + region.size {
            assert(overlaps(*mem, guest_addr as int, end as int));
            return Err(errno::ENOSPC);
        }
        i = i + 1;
    }
    Ok(len)
}

/// Whether a region that could not be shared is to be lent instead: only where the machine says
/// that it is there already.
pub fn lend_instead(error: i32) -> (b: bool)
    ensures
        b == (error == errno::EEXIST),
{
    error == errno::EEXIST
}

/// The number by which what is shared at an address is known: that of its page.
pub fn share_label(guest_addr: u64) -> (label: u32)
    ensures
        label == (guest_addr / 4096) as u32,
{
    (guest_addr / 4096) as u32
}

/// The first region for a purpose, from `i` on; the number of regions where there is none.
pub open spec fn region_for(mem: GuestMemory, purpose: MemoryRegionPurpose, i: int) -> int
    decreases mem.regions@.len() - i,
{
    if i >= mem.regions@.len() {
        mem.regions@.len() as int
    } else if mem.regions@[i].purpose == purpose {
        i
    } else {
        region_for(mem, purpose, i + 1)
    }
}

fn find_region_for(mem: &GuestMemory, purpose: MemoryRegionPurpose) -> (r: Option<usize>)
    ensures
        ({
            let at = region_for(*mem, purpose, 0);
            r == if at < mem.regions@.len() {
                Some(at as usize)
            } else {
                None::<usize>
            }
        }),
        r matches Some(i) ==> i < mem.regions@.len() && i == region_for(*mem, purpose, 0),
{
    let mut i: usize = 0;
    while i < mem.regions.len()
        invariant
            i <= mem.regions@.len(),
            region_for(*mem, purpose, 0) == region_for(*mem, purpose, i as int),
        decreases mem.regions@.len() - i,
    {
        if mem.regions[i].purpose == purpose {
            return Some(i);
        }
        i = i + 1;
    }
    None
}

/// The window that is shared after the start, and the page over which the guest is told; an error
/// where either is missing.
pub fn window_and_handoff(mem: &GuestMemory) -> (r: Result<(usize, usize), i32>)
    ensures
        ({
            let w = region_for(*mem, MemoryRegionPurpose::SharedGuestRam, 0);
            let h = region_for(*mem, MemoryRegionPurpose::ShimHandoff, 0);
            if w < mem.regions@.len() && h < mem.regions@.len() {
                r matches Ok(p) && p.0 == w && p.1 == h
            } else {
                r == Err::<(usize, usize), i32>(errno::EINVAL)
            }
        }),
{
    let window: Option<usize> = find_region_for(mem, MemoryRegionPurpose::SharedGuestRam);
    let handoff: Option<usize> = find_region_for(mem, MemoryRegionPurpose::ShimHandoff);
    match (window, handoff) {
        (Some(w), Some(h)) => Ok((w, h)),
        _ => Err(errno::EINVAL),
    }
}

/// Why a machine is not started.
#[derive(Clone, Copy, Debug, PartialEq, Eq, Structural)]
pub enum InitError {
    /// The device tree or the payload is in no region.
    NoRegion,
    /// They are not in the same region.
    Apart,
    /// The payload does not begin where its region does, and the machine starts there.
    Offset,
    /// It was refused.
    Failed(i32),
}

/// What starting a machine takes.
#[derive(Clone, Copy, Debug, PartialEq, Eq, Structural)]
pub struct InitPlan {
    /// How large the payload's region is, where the machine is authenticated by it.
    pub authenticate: Option<u64>,
    /// Where in its region the payload is.
    pub payload_offset: u64,
}

/// Where the first region begins that begins at an address.
pub open spec fn region_from(mem: GuestMemory, addr: u64, i: int) -> Option<u64>
    decreases mem.regions@.len() - i,
{
    if i >= mem.regions@.len() {
        None
    } else if mem.regions@[i].guest_addr == addr {
        Some(mem.regions@[i].size)
    } else {
        region_from(mem, addr, i + 1)
    }
}

/// What starting a machine takes: the device tree and the payload are in one region.
pub open spec fn plan_of(mem: GuestMemory, payload: u64, fdt: u64, trusted: bool) -> Result<
    InitPlan,
    InitError,
> {
    match (
        guest_mem::region_at(mem.regions@, fdt as int),
        guest_mem::region_at(mem.regions@, payload as int),
    ) {
        (Some(d), Some(p)) => if d != p {
            Err(InitError::Apart)
        } else {
            Ok(
                InitPlan {
                    authenticate: if trusted {
                        region_from(mem, payload, 0)
                    } else {
                        None
                    },
                    payload_offset: (payload - p.guest_addr) as u64,
                },
            )
        },
        _ => Err(InitError::NoRegion),
    }
}

/// What starting a machine takes. `trusted` is whether it is known to be authenticated.
pub fn init_arch(mem: &GuestMemory, payload: u64, fdt: u64, trusted: bool) -> (r: Result<
    InitPlan,
    InitError,
>)
    requires
        mem.wf(),
    ensures
        r == plan_of(*mem, payload, fdt, trusted),
{
    let tree = match mem.find_region(fdt) {
        Some(d) => d,
        None => {
            return Err(InitError::NoRegion);
        },
    };
    let image = match mem.find_region(payload) {
        Some(p) => p,
        None => {
            return Err(InitError::NoRegion);
        },
    };
    if tree != image {
        return Err(InitError::Apart);
    }
    let mut authenticate: Option<u64> = None;
    if trusted {
        let mut i: usize = 0;
        while i < mem.regions.len() && mem.regions[i].guest_addr != payload
            invariant
                i <= mem.regions@.len(),
                region_from(*mem, payload, 0) == region_from(*mem, payload, i as int),
            decreases mem.regions@.len() - i,
        {
            i = i + 1;
        }
        if i < mem.regions.len() {
            authenticate = Some(mem.regions[i].size);
        }
    }
    Ok(InitPlan { authenticate, payload_offset: payload - image.guest_addr })
}

/// Whether a machine may start at its payload.
pub open spec fn entry_of(plan: InitPlan, isolates: bool, runs_firmware: bool) -> Result<
    (),
    InitError,
> {
    if isolates && !runs_firmware && plan.payload_offset != 0 {
        Err(InitError::Offset)
    } else {
        Ok(())
    }
}

/// Whether a machine may start at its payload. One whose memory is its own, without firmware,
/// starts where the region does.
pub fn check_entry(plan: &InitPlan, isolates: bool, runs_firmware: bool) -> (r: Result<
    (),
    InitError,
>)
    ensures
        r == entry_of(*plan, isolates, runs_firmware),
{
    if isolates && !runs_firmware && plan.payload_offset != 0 {
        Err(InitError::Offset)
    } else {
        Ok(())
    }
}

/// What comes of setting where the machine starts.
pub open spec fn booted_of(plan: InitPlan, error: Option<i32>) -> Result<(), InitError> {
    match error {
        None => Ok(()),
        Some(e) => if e != errno::ENOTTY {
            Err(InitError::Failed(e))
        } else if plan.payload_offset != 0 {
            Err(InitError::Offset)
        } else {
            Ok(())
        },
    }
}

/// Takes what came of setting where the machine starts. A host that cannot set it starts it where
/// the region does.
pub fn on_boot_pc(plan: &InitPlan, error: Option<i32>) -> (r: Result<(), InitError>)
    ensures
        r == booted_of(*plan, error),
{
    match error {
        None => Ok(()),
        Some(e) => if e != errno::ENOTTY {
            Err(InitError::Failed(e))
        } else if plan.payload_offset != 0 {
            Err(InitError::Offset)
        } else {
            Ok(())
        },
    }
}

/// Which writes of the guest's an event is for.
#[derive(Clone, Copy, Debug, PartialEq, Eq, Structural)]
pub enum Datamatch {
    AnyLength,
    U8(Option<u8>),
    U16(Option<u16>),
    U32(Option<u32>),
    U64(Option<u64>),
}

/// Whether the value counts, which, and how many bytes.
pub open spec fn match_of(d: Datamatch) -> (bool, u64, u32) {
    match d {
        Datamatch::AnyLength => (false, 0, 0),
        Datamatch::U8(v) => match v {
            Some(u) => (true, u as u64, 1),
            None => (false, 0, 1),
        },
        Datamatch::U16(v) => match v {
            Some(u) => (true, u as u64, 2),
            None => (false, 0, 2),
        },
        Datamatch::U32(v) => match v {
            Some(u) => (true, u as u64, 4),
            None => (false, 0, 4),
        },
        Datamatch::U64(v) => match v {
            Some(u) => (true, u, 8),
            None => (false, 0, 8),
        },
    }
}

/// Whether the value counts, which, and how many bytes.
pub fn datamatch(d: Datamatch) -> (r: (bool, u64, u32))
    ensures
        r == match_of(d),
{
    match d {
        Datamatch::AnyLength => (false, 0, 0),
        Datamatch::U8(v) => match v {
            Some(u) => (true, u as u64, 1),
            None => (false, 0, 1),
        },
        Datamatch::U16(v) => match v {
            Some(u) => (true, u as u64, 2),
            None => (false, 0, 2),
        },
        Datamatch::U32(v) => match v {
            Some(u) => (true, u as u64, 4),
            None => (false, 0, 4),
        },
        Datamatch::U64(v) => match v {
            Some(u) => (true, u, 8),
            None => (false, 0, 8),
        },
    }
}

/// Why a processor stopped, as the host says it.
#[derive(Clone, Copy, Debug, PartialEq, Eq, Structural)]
pub enum RunExit {
    Mmio,
    LoadFailed,
    Crashed,
    /// The machine is gone, for this reason.
    Exited(u16),
    UnknownStatus,
    PageFault { attempt: i32 },
    Unknown,
}

/// Why a processor stopped.
#[derive(Clone, Copy, Debug, PartialEq, Eq, Structural)]
pub enum VcpuExit {
    Mmio,
    FailEntry,
    SystemEventCrash,
    SystemEventShutdown,
    SystemEventReset,
}

/// What an exit means. The reasons of a machine that is gone are: it left, it was turned off, it
/// was reset in either way, its watchdog bit, its hypervisor failed, its memory did, it was
/// stopped.
pub open spec fn exit_of(e: RunExit) -> Result<VcpuExit, int> {
    match e {
        RunExit::Mmio => Ok(VcpuExit::Mmio),
        RunExit::LoadFailed => Ok(VcpuExit::FailEntry),
        RunExit::Crashed => Ok(VcpuExit::SystemEventCrash),
        RunExit::Exited(reason) => if reason == 0 || reason == 1 || reason == 7 {
            Ok(VcpuExit::SystemEventShutdown)
        } else if reason == 2 || reason == 3 {
            Ok(VcpuExit::SystemEventReset)
        } else if reason == 4 || reason == 5 || reason == 6 {
            Ok(VcpuExit::SystemEventCrash)
        } else {
            Err(errno::EINVAL as int)
        },
        RunExit::UnknownStatus => Err(errno::EINVAL as int),
        RunExit::PageFault { attempt } => Err(-attempt as int),
        RunExit::Unknown => Err(errno::EINVAL as int),
    }
}

/// What an exit means.
pub fn vcpu_exit(e: RunExit) -> (r: Result<VcpuExit, i32>)
    requires
        e matches RunExit::PageFault { attempt } ==> attempt > i32::MIN,
    ensures
        match exit_of(e) {
            Ok(x) => r == Ok::<VcpuExit, i32>(x),
            Err(n) => r is Err && r->Err_0 == n,
        },
{
    match e {
        RunExit::Mmio => Ok(VcpuExit::Mmio),
        RunExit::LoadFailed => Ok(VcpuExit::FailEntry),
        RunExit::Crashed => Ok(VcpuExit::SystemEventCrash),
        RunExit::Exited(reason) => if reason == 0 || reason == 1 || reason == 7 {
            Ok(VcpuExit::SystemEventShutdown)
        } else if reason == 2 || reason == 3 {
            Ok(VcpuExit::SystemEventReset)
        } else if reason == 4 || reason == 5 || reason == 6 {
            Ok(VcpuExit::SystemEventCrash)
        } else {
            Err(errno::EINVAL)
        },
        RunExit::UnknownStatus => Err(errno::EINVAL),
        RunExit::PageFault { attempt } => Err(-attempt),
        RunExit::Unknown => Err(errno::EINVAL),
    }
}

/// Why a mapping could not be changed.
#[derive(Clone, Copy, Debug, PartialEq, Eq, Structural)]
pub enum MmapError {
    InvalidAddress,
    NotPageAligned,
    SystemCallFailed(i32),
    Other,
}

/// What the caller is told of a mapping that could not be written out.
pub open spec fn msync_errno_of(e: MmapError) -> i32 {
    match e {
        MmapError::InvalidAddress => errno::EFAULT,
        MmapError::NotPageAligned => errno::EINVAL,
        MmapError::SystemCallFailed(n) => n,
        MmapError::Other => errno::EIO,
    }
}

/// What the caller is told of a mapping that could not be changed.
pub open spec fn mapping_errno_of(e: MmapError) -> i32 {
    match e {
        MmapError::SystemCallFailed(n) => n,
        _ => errno::EIO,
    }
}

/// What the caller is told of a mapping that could not be written out.
pub fn msync_errno(e: MmapError) -> (n: i32)
    ensures
        n == msync_errno_of(e),
{
    match e {
        MmapError::InvalidAddress => errno::EFAULT,
        MmapError::NotPageAligned => errno::EINVAL,
        MmapError::SystemCallFailed(n) => n,
        MmapError::Other => errno::EIO,
    }
}

/// What the caller is told of a mapping that could not be changed.
pub fn mapping_errno(e: MmapError) -> (n: i32)
    ensures
        n == mapping_errno_of(e),
{
    match e {
        MmapError::SystemCallFailed(n) => n,
        _ => errno::EIO,
    }
}

/// A machine comes to a stop for exactly one reason, and only a machine that was turned off,
/// left or was stopped is shut down.
pub proof fn law_only_a_reset_resets(reason: u16)
    ensures
        exit_of(RunExit::Exited(reason)) == Ok::<VcpuExit, int>(VcpuExit::SystemEventReset)
            <==> reason == 2 || reason == 3,
        exit_of(RunExit::Exited(reason)) is Err <==> reason > 7,
{
}

/// Whether a window may be shared.
pub open spec fn shared_if(populated: bool, locked: bool) -> Result<(), i32> {
    if populated && locked {
        Ok(())
    } else {
        Err(errno::ENOMEM)
    }
}

/// Whether a window may be shared: only one whose pages are all there and stay where they are.
pub fn check_window(populated: bool, locked: bool) -> (r: Result<(), i32>)
    ensures
        r == shared_if(populated, locked),
{
    if populated && locked {
        Ok(())
    } else {
        Err(errno::ENOMEM)
    }
}

/// The numbers by which the machine's first code says how far it has come.
#[derive(Clone, Copy, Debug, PartialEq, Eq, Structural)]
pub struct StatusAbi {
    pub running: u64,
    pub accepted: u64,
    pub tree_done: u64,
    pub jumping: u64,
    /// The bit that it gave up.
    pub error: u64,
}

/// What is new of it.
#[derive(Clone, Copy, Debug, PartialEq, Eq, Structural)]
pub enum ShimNews {
    Nothing,
    Running,
    Accepted,
    TreeDone,
    /// It is done: the payload runs.
    Jumping,
    /// It is done: it said why.
    GaveUp,
    Other(u64),
}

/// What a number means.
pub open spec fn news_of(abi: StatusAbi, status: u64) -> ShimNews {
    if status == abi.running {
        ShimNews::Running
    } else if status == abi.accepted {
        ShimNews::Accepted
    } else if status == abi.tree_done {
        ShimNews::TreeDone
    } else if status == abi.jumping {
        ShimNews::Jumping
    } else if status & abi.error != 0 {
        ShimNews::GaveUp
    } else {
        ShimNews::Other(status)
    }
}

/// What is new of a number, after another.
pub open spec fn told_of(abi: StatusAbi, last: u64, status: u64) -> ShimNews {
    if status == last {
        ShimNews::Nothing
    } else {
        news_of(abi, status)
    }
}

/// Watches the machine's first code.
pub struct ShimWatch {
    last: u64,
}

impl ShimWatch {
    /// The last number seen.
    pub closed spec fn seen(&self) -> u64 {
        self.last
    }

    /// Nothing was seen yet.
    pub fn new() -> (w: Self)
        ensures
            w.seen() == 0,
    {
        ShimWatch { last: 0 }
    }

    /// Takes the number as it is now. What was told is not told again.
    pub fn on_status(&mut self, abi: &StatusAbi, status: u64) -> (news: ShimNews)
        ensures
            final(self).seen() == status,
            news == told_of(*abi, old(self).seen(), status),
    {
        if status == self.last {
            return ShimNews::Nothing;
        }
        self.last = status;
        if status == abi.running {
            ShimNews::Running
        } else if status == abi.accepted {
            ShimNews::Accepted
        } else if status == abi.tree_done {
            ShimNews::TreeDone
        } else if status == abi.jumping {
            ShimNews::Jumping
        } else if status & abi.error != 0 {
            ShimNews::GaveUp
        } else {
            ShimNews::Other(status)
        }
    }

    /// Whether it never said anything.
    pub fn never_ran(&self) -> (b: bool)
        ensures
            b == (self.seen() == 0),
    {
        self.last == 0
    }
}

/// A machine whose memory is not its own is lent nothing. One whose memory is its own is lent all of
/// it but what the host shares with it or hands over later.
pub proof fn law_a_machine_is_lent_what_it_runs_in(purpose: MemoryRegionPurpose)
    ensures
        !is_lent(purpose, false),
        is_lent(MemoryRegionPurpose::GuestMemoryRegion, true),
        is_lent(MemoryRegionPurpose::Bios, true),
        is_lent(MemoryRegionPurpose::ProtectedFirmwareRegion, true),
        is_lent(MemoryRegionPurpose::ReservedMemory, true),
        purpose is SharedGuestRam || purpose is ShimHandoff || purpose is GpuPool || purpose
            is SharedFramebuffer || purpose is StaticSwiotlbRegion || purpose is GpuPoolGuest
            || purpose is Drm2KgslPool || purpose is VenusPool || purpose is MediaPool || purpose
            is MediaPoolGuest || purpose is Edk2PreloadPool || purpose is DynamicTestPool
            ==> !is_lent(purpose, true),
{
}

/// A region that is not split is one piece, in its own slot. One that is split is given away in the
/// pieces of the split, in order: the first in the region's own slot, and each further one in the
/// slot after the one before it.
pub proof fn law_pieces_are_those_of_the_split(
    index: u32,
    size: u64,
    split: Seq<(int, int)>,
    next: u32,
    i: int,
)
    requires
        0 <= i < split.len(),
        next + split.len() <= u32::MAX,
        0 <= split[i].0 <= u64::MAX,
        0 <= split[i].1 <= u64::MAX,
    ensures
        ({
            let whole = lend_pieces(index as int, size as int, Seq::empty(), next as int);
            let p = lend_pieces(index as int, size as int, split, next as int);
            &&& whole.len() == 1 && whole[0].slot == index && whole[0].offset == 0
                && whole[0].size == size
            &&& p.len() == split.len()
            &&& p[i].offset == split[i].0 && p[i].size == split[i].1
            &&& p[0].slot == index
            &&& i == 1 ==> p[i].slot == next
            &&& i > 1 ==> p[i].slot == p[i - 1].slot + 1
        }),
{
}

/// Only a region in pieces is split, and then as its blocks ask.
pub proof fn law_only_pieces_are_split(size: int, need_small: Seq<bool>)
    ensures
        split_of(size, LendMthpMode::Single, need_small).len() == 0,
        split_of(size, LendMthpMode::Chunked, need_small) == mthp::lend_split(
            size,
            Some(need_small),
        ),
{
}

/// A share has as many folios as it takes to hold what is asked for, and not one more; where that is
/// nothing, or more than the window, it is the window.
pub proof fn law_a_share_is_whole_folios(size: int, m: u64, folios: int)
    requires
        0 < size,
        m * 0x10_0000 <= u64::MAX,
    ensures
        parcel_size(size, None) == size,
        m == 0 ==> parcel_size(size, Some(m)) == size,
        m > 0 && (folios - 1) * 0x20_0000 < m * 0x10_0000 <= folios * 0x20_0000 ==> (if folios
            * 0x20_0000 <= size {
            parcel_size(size, Some(m)) == folios * 0x20_0000
        } else {
            parcel_size(size, Some(m)) == size
        }),
{
}

/// All shares but the last are of one size, and the last is no larger.
pub proof fn law_shares_are_of_one_size(size: int, mb: Option<u64>, i: int)
    requires
        0 < size <= u64::MAX,
        mb matches Some(m) ==> mebibytes(m) <= 0xffff_ffff_ffe0_0000,
        0 <= i < parcels_of(size, mb).len(),
    ensures
        i + 1 < parcels_of(size, mb).len() ==> parcels_of(size, mb)[i].size == parcel_size(
            size,
            mb,
        ),
        parcels_of(size, mb)[i].size <= parcel_size(size, mb),
        parcels_of(size, mb)[i].offset == i * parcel_size(size, mb),
{
    law_parcels_cover_the_window(size, mb, i);
    let chunk = parcel_size(size, mb);
    let n = parcel_count(size, mb);
    lemma_parcels(size, chunk, n);
    assert(0 <= i * chunk <= (n - 1) * chunk) by (nonlinear_arith)
        requires
            0 <= i <= n - 1,
            0 < chunk,
    ;
    if i + 1 < n {
        assert((i + 1) * chunk <= (n - 1) * chunk) by (nonlinear_arith)
            requires
                i + 1 <= n - 1,
                0 < chunk,
        ;
        assert((i + 1) * chunk == i * chunk + chunk) by (nonlinear_arith);
    }
}

/// As many numbers are given out as slots are in use, free again or being filled. They are those
/// right after the regions', so the next is known to be nobody's.
pub proof fn law_the_next_number_is_nobodys(v: SlotsView, slot: u32)
    requires
        v.wf(),
    ensures
        slot < v.base ==> !v.knows(slot),
        slot == v.base + v.count() ==> !v.knows(slot),
        v.live.dom().contains(slot) ==> v.base <= slot && !v.gaps.contains(slot) && v.pending
            != Some(slot),
        v.gaps.contains(slot) ==> v.base <= slot && v.pending != Some(slot),
        v.pending == Some(slot) ==> v.base <= slot,
        v.base <= slot < v.base + v.live.len() + v.gaps.len() ==> v.live.dom().contains(slot)
            || v.gaps.contains(slot) || v.pending == Some(slot),
{
    assert(v.knows(slot) <==> v.base <= slot < v.base + v.count());
}

/// A range touches a region where they share a byte.
pub proof fn law_what_touches_shares_a_byte(mem: GuestMemory, start: int, end: int)
    requires
        mem.wf(),
        start < end,
    ensures
        overlaps(mem, start, end) <==> exists|x: int, i: int|
            start <= x < end && 0 <= i < mem.regions@.len() && #[trigger] mem.regions@[i].holds(x),
{
    if overlaps(mem, start, end) {
        let i = choose|i: int|
            0 <= i < mem.regions@.len() && (#[trigger] mem.regions@[i]).guest_addr < end && start
                < mem.regions@[i].guest_addr + mem.regions@[i].size;
        let r = mem.regions@[i];
        assert(r.wf());
        let x = if start > r.guest_addr {
            start
        } else {
            r.guest_addr as int
        };
        assert(mem.regions@[i].holds(x));
    }
    if exists|x: int, i: int|
        start <= x < end && 0 <= i < mem.regions@.len() && #[trigger] mem.regions@[i].holds(x) {
        let (x, i) = choose|x: int, i: int|
            start <= x < end && 0 <= i < mem.regions@.len() && #[trigger] mem.regions@[i].holds(x);
        assert(mem.regions@[i].guest_addr < end);
    }
}

/// Whole pages are the fewest that hold a size.
pub proof fn law_whole_pages_are_the_fewest(size: int, page: int, n: int)
    requires
        0 <= size,
        0 < page,
        (n - 1) * page < size <= n * page,
    ensures
        whole_pages(size, page) == n * page,
{
    assert((n - 1) * page == n * page - page) by (nonlinear_arith);
    vstd::arithmetic::div_mod::lemma_fundamental_div_mod_converse(
        size + page - 1,
        page,
        n,
        size + page - 1 - n * page,
    );
}

/// The region for a purpose is the first there is, and there is none where no region has it.
pub proof fn law_the_first_region_for_a_purpose(
    mem: GuestMemory,
    purpose: MemoryRegionPurpose,
    i: int,
)
    requires
        0 <= i <= mem.regions@.len(),
    ensures
        ({
            let at = region_for(mem, purpose, i);
            &&& i <= at <= mem.regions@.len()
            &&& at < mem.regions@.len() ==> mem.regions@[at].purpose == purpose
            &&& forall|j: int| i <= j < at ==> (#[trigger] mem.regions@[j]).purpose != purpose
        }),
    decreases mem.regions@.len() - i,
{
    if i < mem.regions@.len() && mem.regions@[i].purpose != purpose {
        law_the_first_region_for_a_purpose(mem, purpose, i + 1);
    }
}

/// What is authenticated is as large as the first region that begins with the payload.
pub proof fn law_the_first_region_from_an_address(mem: GuestMemory, addr: u64, i: int, k: int)
    requires
        0 <= i <= k <= mem.regions@.len(),
        forall|j: int| i <= j < k ==> (#[trigger] mem.regions@[j]).guest_addr != addr,
        k < mem.regions@.len() ==> mem.regions@[k].guest_addr == addr,
    ensures
        k < mem.regions@.len() ==> region_from(mem, addr, i) == Some(mem.regions@[k].size),
        k == mem.regions@.len() ==> region_from(mem, addr, i) is None,
    decreases k - i,
{
    if i < k {
        assert(mem.regions@[i].guest_addr != addr);
        law_the_first_region_from_an_address(mem, addr, i + 1, k);
    }
}

/// A machine is started where the device tree and the payload are in one region, at the payload. It
/// is authenticated only where that is asked for.
pub proof fn law_a_machine_starts_at_its_payload(
    mem: GuestMemory,
    payload: u64,
    fdt: u64,
    trusted: bool,
)
    requires
        mem.wf(),
    ensures
        ({
            let d = guest_mem::region_at(mem.regions@, fdt as int);
            let p = guest_mem::region_at(mem.regions@, payload as int);
            match plan_of(mem, payload, fdt, trusted) {
                Ok(plan) => {
                    &&& d == p
                    &&& p matches Some(r) && r.guest_addr + plan.payload_offset == payload
                    &&& !trusted ==> plan.authenticate is None
                    &&& trusted ==> plan.authenticate == region_from(mem, payload, 0)
                },
                Err(InitError::NoRegion) => d is None || p is None,
                Err(InitError::Apart) => d is Some && p is Some && d != p,
                Err(_) => false,
            }
        }),
{
    if let Some(r) = guest_mem::region_at(mem.regions@, payload as int) {
        lemma_held_by_its_region(mem.regions@, payload as int);
    }
}

proof fn lemma_held_by_its_region(regions: Seq<guest_mem::MemoryRegion>, addr: int)
    ensures
        guest_mem::region_at(regions, addr) matches Some(r) ==> r.holds(addr),
    decreases regions.len(),
{
    if regions.len() > 0 {
        lemma_held_by_its_region(regions.drop_first(), addr);
    }
}

/// An event for one value is for that value, and one for any is for none in particular. Either is for
/// writes of its own length.
pub proof fn law_an_event_is_for_its_value(v: u64)
    ensures
        match_of(Datamatch::AnyLength) == (false, 0u64, 0u32),
        v <= u8::MAX ==> match_of(Datamatch::U8(Some(v as u8))) == (true, v, 1u32),
        v <= u16::MAX ==> match_of(Datamatch::U16(Some(v as u16))) == (true, v, 2u32),
        v <= u32::MAX ==> match_of(Datamatch::U32(Some(v as u32))) == (true, v, 4u32),
        match_of(Datamatch::U64(Some(v))) == (true, v, 8u32),
        match_of(Datamatch::U8(None)) == (false, 0u64, 1u32),
        match_of(Datamatch::U16(None)) == (false, 0u64, 2u32),
        match_of(Datamatch::U32(None)) == (false, 0u64, 4u32),
        match_of(Datamatch::U64(None)) == (false, 0u64, 8u32),
{
}

/// A machine that left, was turned off or was stopped is shut down; one that failed has crashed. A
/// page that could not be had is told by its own error.
pub proof fn law_an_exit_means_one_thing(e: RunExit)
    ensures
        exit_of(e) == Ok::<VcpuExit, int>(VcpuExit::SystemEventShutdown) <==> (
        e matches RunExit::Exited(reason) && (reason == 0 || reason == 1 || reason == 7)),
        exit_of(e) == Ok::<VcpuExit, int>(VcpuExit::SystemEventCrash) <==> e is Crashed || (
        e matches RunExit::Exited(reason) && 4 <= reason <= 6),
        exit_of(e) == Ok::<VcpuExit, int>(VcpuExit::Mmio) <==> e is Mmio,
        exit_of(e) == Ok::<VcpuExit, int>(VcpuExit::FailEntry) <==> e is LoadFailed,
        e matches RunExit::PageFault { attempt } ==> (exit_of(e) matches Err(n) && n + attempt
            == 0),
        e is UnknownStatus || e is Unknown ==> exit_of(e) == Err::<VcpuExit, int>(22),
        (e matches RunExit::Exited(reason) && reason > 7) ==> exit_of(e) == Err::<VcpuExit, int>(
            22,
        ),
{
}

/// Each number that the machine's first code may say is told by its own word, and a number of which
/// nothing is known as it is.
pub proof fn law_each_number_is_told_by_its_word(abi: StatusAbi, status: u64)
    requires
        abi.running != abi.accepted,
        abi.running != abi.tree_done,
        abi.running != abi.jumping,
        abi.accepted != abi.tree_done,
        abi.accepted != abi.jumping,
        abi.tree_done != abi.jumping,
    ensures
        news_of(abi, status) is Running <==> status == abi.running,
        news_of(abi, status) is Accepted <==> status == abi.accepted,
        news_of(abi, status) is TreeDone <==> status == abi.tree_done,
        news_of(abi, status) is Jumping <==> status == abi.jumping,
        news_of(abi, status) matches ShimNews::Other(s) ==> s == status && status & abi.error == 0,
        news_of(abi, status) is GaveUp ==> status & abi.error != 0,
        !(news_of(abi, status) is Nothing),
{
}

/// A region is added in whole pages where they end inside the address space and touch no other region.
/// Otherwise it is refused, by 75 where they do not end there and by 28 where they do touch one.
pub proof fn law_a_region_is_added_where_there_is_room(
    mem: GuestMemory,
    guest_addr: u64,
    size: u64,
    page: u64,
    n: int,
)
    requires
        0 < page,
        (n - 1) * page < size <= n * page,
    ensures
        ({
            let r = added_of(mem, guest_addr, size, page);
            let end = guest_addr + n * page;
            &&& r is Ok <==> end <= u64::MAX && !overlaps(mem, guest_addr as int, end)
            &&& r matches Ok(whole) ==> whole == n * page
            &&& r == Err::<u64, i32>(75) <==> end > u64::MAX
            &&& r == Err::<u64, i32>(28) <==> end <= u64::MAX && overlaps(
                mem,
                guest_addr as int,
                end,
            )
        }),
{
    law_whole_pages_are_the_fewest(size as int, page as int, n);
}

/// A payload at the start of its region may always run. Another may where the memory is not the
/// machine's own, or firmware finds it; and where the start could be set.
pub proof fn law_a_payload_that_starts_its_region_may_run(
    plan: InitPlan,
    isolates: bool,
    runs_firmware: bool,
    error: Option<i32>,
)
    ensures
        entry_of(plan, isolates, runs_firmware) is Ok <==> plan.payload_offset == 0 || !isolates
            || runs_firmware,
        entry_of(plan, isolates, runs_firmware) matches Err(e) ==> e is Offset,
        booted_of(plan, error) is Ok <==> error is None || (error == Some(25i32)
            && plan.payload_offset == 0),
        (error matches Some(e) && e != 25) ==> (error matches Some(e) && booted_of(plan, error)
            == Err::<(), InitError>(InitError::Failed(e))),
        error == Some(25i32) && plan.payload_offset != 0 ==> booted_of(plan, error) == Err::<
            (),
            InitError,
        >(InitError::Offset),
{
}

/// What the kernel said of a mapping is passed on as it is.
pub proof fn law_the_kernels_word_is_passed_on(e: MmapError)
    ensures
        e matches MmapError::SystemCallFailed(n) ==> msync_errno_of(e) == n && mapping_errno_of(e)
            == n,
        e is InvalidAddress ==> msync_errno_of(e) == 14,
        e is NotPageAligned ==> msync_errno_of(e) == 22,
        e is Other ==> msync_errno_of(e) == 5,
        !(e is SystemCallFailed) ==> mapping_errno_of(e) == 5,
{
}

/// The slot that is filled next is nobody's: the lowest that is free again, which is then free no
/// more, or the first number that was never given out. What is in use stays.
pub proof fn law_a_free_slot_is_filled_first(after: SlotsView, before: SlotsView, slot: u32, s: u32)
    requires
        before.wf(),
        before.pending is None,
        after.began(before, slot),
    ensures
        after.pending == Some(slot),
        after.live == before.live,
        after.base == before.base,
        !before.live.dom().contains(slot),
        before.gaps.contains(s) ==> slot <= s,
        before.gaps.len() > 0 ==> before.gaps.contains(slot) && after.gaps.len()
            == before.gaps.len() - 1,
        before.gaps.len() == 0 ==> slot == before.base + before.live.len() && after.gaps.len()
            == 0,
        s != slot && before.gaps.contains(s) ==> after.gaps.contains(s),
        !after.gaps.contains(slot),
{
    if before.gaps.len() > 0 {
        let at = choose|at: int|
            0 <= at < before.gaps.len() && before.gaps[at] == slot && after.gaps
                == #[trigger] before.gaps.remove(at);
        assert(before.knows(slot));
        if before.gaps.contains(s) {
            let i = before.gaps.index_of(s);
            if s != slot {
                if i < at {
                    assert(after.gaps[i] == s);
                } else {
                    assert(after.gaps[i - 1] == s);
                }
            }
        }
        if after.gaps.contains(slot) {
            let i = after.gaps.index_of(slot);
            let j = if i < at {
                i
            } else {
                i + 1
            };
            assert(before.gaps[j] == slot);
        }
    } else {
        if before.live.dom().contains(slot) {
            assert(before.knows(slot));
        }
    }
}

/// What is filled is found in its slot until that is emptied, and no other slot is touched. A slot that
/// was emptied, or was never filled, is free again.
pub proof fn law_a_slot_holds_what_it_was_filled_with(v: SlotsView, addr: u64, slot: u32, s: u32)
    requires
        v.pending == Some(slot),
        !v.live.dom().contains(slot),
    ensures
        ({
            let f = v.filled(addr);
            let e = f.emptied(slot);
            let n = v.not_filled();
            &&& f.live.dom().contains(slot) && f.live[slot] == addr && f.pending is None && f.gaps
                == v.gaps
            &&& s != slot ==> f.live.dom().contains(s) == v.live.dom().contains(s)
            &&& s != slot && v.live.dom().contains(s) ==> f.live[s] == v.live[s]
            &&& e.live == v.live && e.gaps == v.gaps.push(slot) && e.pending is None
            &&& n.live == v.live && n.gaps == v.gaps.push(slot) && n.pending is None
            &&& f.base == v.base && e.base == v.base && n.base == v.base
        }),
{
    assert(v.filled(addr).emptied(slot).live =~= v.live);
}

/// A number that was told is not told again until another came between.
pub proof fn law_a_number_is_told_once(abi: StatusAbi, last: u64, status: u64)
    ensures
        told_of(abi, status, status) is Nothing,
        last != status ==> told_of(abi, last, status) == news_of(abi, status),
{
}

/// The slots of a region's pieces are all below the next one, and none between is left out.
pub proof fn law_the_next_slot_follows_the_last_piece(
    index: u32,
    size: u64,
    split: Seq<(int, int)>,
    next: u32,
)
    requires
        index < next,
        next + split.len() <= u32::MAX,
    ensures
        ({
            let p = lend_pieces(index as int, size as int, split, next as int);
            &&& next_slot(split, next as int) == next + p.len() - 1
            &&& p.len() > 1 ==> p.last().slot + 1 == next_slot(split, next as int)
            &&& p.len() == 1 ==> next_slot(split, next as int) == next
        }),
{
}

/// A window is shared only with all of its pages there, and held where they are.
pub proof fn law_a_window_is_shared_whole(populated: bool, locked: bool)
    ensures
        shared_if(populated, locked) is Ok <==> populated && locked,
        !(populated && locked) ==> shared_if(populated, locked) == Err::<(), i32>(12),
{
}

} // verus!
