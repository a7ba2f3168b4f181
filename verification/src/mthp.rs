//! Large-page preparation of guest memory, and the split of a region into the pieces that are
//! handed to the hypervisor one call at a time.
//!
//! A region is populated in batches, then collapsed into the largest folios the kernel will
//! give: first whole 2 MB folios, then ever smaller ones over what is left. What came of it
//! decides how the region is cut: pieces of at most 256 MB, none of which mixes 2 MB folios
//! with smaller pages.
use vstd::prelude::*;

verus! {

/// The size of the largest folio.
pub const THP_SIZE: u64 = 0x20_0000;

/// The smallest unit a collapse works on.
pub const MAP_UNIT: u64 = 0x1_0000;

/// How much is populated at once.
pub const BATCH_SIZE: u64 = 0x400_0000;

/// Memory is compacted after every so many batches.
pub const COMPACT_INTERVAL: u64 = 4;

/// The most that one LEND call hands over.
pub const LEND_CHUNK_SIZE: u64 = 0x1000_0000;

/// The size of a page.
pub const PAGE_SIZE: u64 = 0x1000;

/// How many folio sizes the collapse cascade goes through.
pub const LEVELS: usize = 6;

/// What became of a region that was prepared.
pub struct LendPrepResult {
    /// For each 2 MB piece: `true` where it is not one 2 MB folio.
    pub need_small: Vec<bool>,
    /// How many bytes were collapsed into folios of at least 64 KB.
    pub large_page_bytes: u64,
    /// Whether every page of the region could be resolved.
    pub populated: bool,
}

/// A piece of a region.
#[derive(Clone, Copy, Debug, PartialEq, Eq, Structural)]
pub struct LendChunk {
    /// Where the piece starts, from the base of the region.
    pub offset: u64,
    /// How long it is, in bytes.
    pub size: u64,
}

/// The pieces of a split as pairs of offset and size.
pub open spec fn pieces(chunks: Seq<LendChunk>) -> Seq<(int, int)> {
    Seq::new(chunks.len(), |i: int| (chunks[i].offset as int, chunks[i].size as int))
}

/// `size` bytes from `offset` on, cut into pieces of `max` bytes; the last may be shorter.
pub open spec fn fixed_split(offset: int, size: int, max: int) -> Seq<(int, int)>
    decreases size,
{
    if size <= 0 || max <= 0 {
        Seq::empty()
    } else if size <= max {
        seq![(offset, size)]
    } else {
        seq![(offset, max)] + fixed_split(offset + max, size - max, max)
    }
}

/// Where the run of equal flags that holds `c` ends.
pub open spec fn run_end(need_small: Seq<bool>, c: int) -> int
    decreases need_small.len() - c,
{
    if c + 1 < need_small.len() && need_small[c + 1] == need_small[c] {
        run_end(need_small, c + 1)
    } else {
        c + 1
    }
}

/// The split of the 2 MB pieces from `c` on: each run of equal backing by itself, in pieces of
/// at most [`LEND_CHUNK_SIZE`].
pub open spec fn backing_split(need_small: Seq<bool>, c: int) -> Seq<(int, int)>
    decreases need_small.len() - c,
    when c >= 0
    via backing_split_decreases
{
    if c >= need_small.len() {
        Seq::empty()
    } else {
        let e = run_end(need_small, c);
        fixed_split(c * THP_SIZE, (e - c) * THP_SIZE, LEND_CHUNK_SIZE as int) + backing_split(
            need_small,
            e,
        )
    }
}

#[via_fn]
proof fn backing_split_decreases(need_small: Seq<bool>, c: int) {
    if c < need_small.len() {
        lemma_run_end(need_small, c);
    }
}

proof fn lemma_run_end(need_small: Seq<bool>, c: int)
    requires
        0 <= c < need_small.len(),
    ensures
        c < run_end(need_small, c) <= need_small.len(),
        forall|i: int| c <= i < run_end(need_small, c) ==> need_small[i] == need_small[c],
        run_end(need_small, c) < need_small.len() ==> need_small[run_end(need_small, c)]
            != need_small[c],
    decreases need_small.len() - c,
{
    if c + 1 < need_small.len() && need_small[c + 1] == need_small[c] {
        lemma_run_end(need_small, c + 1);
    }
}

/// The pieces lie end to end, from `from` to `to`, and none is empty.
pub open spec fn end_to_end(p: Seq<(int, int)>, from: int, to: int) -> bool {
    &&& forall|i: int| 0 <= i < p.len() ==> (#[trigger] p[i]).1 > 0
    &&& forall|i: int, j: int|
        0 <= i && j == i + 1 && j < p.len() ==> (#[trigger] p[j]).0 == (#[trigger] p[i]).0 + p[i].1
    &&& if p.len() == 0 {
        from == to
    } else {
        p[0].0 == from && p.last().0 + p.last().1 == to
    }
}

/// No piece is longer than `max`.
pub open spec fn at_most(p: Seq<(int, int)>, max: int) -> bool {
    forall|i: int| 0 <= i < p.len() ==> (#[trigger] p[i]).1 <= max
}

/// Every 2 MB piece that `piece` touches has the same backing.
pub open spec fn one_backing(need_small: Seq<bool>, piece: (int, int)) -> bool {
    forall|a: int, b: int|
        piece.0 <= a * THP_SIZE < piece.0 + piece.1 && piece.0 <= b * THP_SIZE < piece.0 + piece.1
            ==> #[trigger] need_small[a] == #[trigger] need_small[b]
}

proof fn lemma_join(p: Seq<(int, int)>, q: Seq<(int, int)>, from: int, mid: int, to: int, max: int)
    requires
        end_to_end(p, from, mid),
        end_to_end(q, mid, to),
        at_most(p, max),
        at_most(q, max),
    ensures
        end_to_end(p + q, from, to),
        at_most(p + q, max),
{
    let r = p + q;
    assert forall|i: int, j: int| 0 <= i && j == i + 1 && j < r.len() implies (
    #[trigger] r[j]).0 == (#[trigger] r[i]).0 + r[i].1 by {
        if j == p.len() {
            assert(r[i] == p.last() && r[j] == q[0]);
        } else if j < p.len() {
            assert(r[i] == p[i] && r[j] == p[j]);
        } else {
            assert(r[i] == q[i - p.len()] && r[j] == q[j - p.len()]);
        }
    }
    if q.len() == 0 {
        assert(r =~= p);
    } else {
        assert(r.last() == q.last());
        if p.len() == 0 {
            assert(r =~= q);
        }
    }
}

/// A fixed split covers what it splits, piece after piece, and no piece is too long.
pub proof fn law_fixed_split_covers(offset: int, size: int, max: int)
    requires
        size >= 0,
        max > 0,
    ensures
        end_to_end(fixed_split(offset, size, max), offset, offset + size),
        at_most(fixed_split(offset, size, max), max),
    decreases size,
{
    if size > max {
        law_fixed_split_covers(offset + max, size - max, max);
        lemma_join(
            seq![(offset, max)],
            fixed_split(offset + max, size - max, max),
            offset,
            offset + max,
            offset + size,
            max,
        );
    }
}

/// A split by backing covers every 2 MB piece, one run after the other, and no piece of it is
/// longer than one LEND call takes.
pub proof fn law_backing_split_covers(need_small: Seq<bool>, c: int)
    requires
        0 <= c <= need_small.len(),
    ensures
        end_to_end(backing_split(need_small, c), c * THP_SIZE, need_small.len() * THP_SIZE),
        at_most(backing_split(need_small, c), LEND_CHUNK_SIZE as int),
    decreases need_small.len() - c,
{
    if c < need_small.len() {
        let e = run_end(need_small, c);
        lemma_run_end(need_small, c);
        law_backing_split_covers(need_small, e);
        law_fixed_split_covers(c * THP_SIZE, (e - c) * THP_SIZE, LEND_CHUNK_SIZE as int);
        lemma_join(
            fixed_split(c * THP_SIZE, (e - c) * THP_SIZE, LEND_CHUNK_SIZE as int),
            backing_split(need_small, e),
            c * THP_SIZE,
            e * THP_SIZE,
            need_small.len() * THP_SIZE,
            LEND_CHUNK_SIZE as int,
        );
    }
}

proof fn lemma_fixed_split_inside(offset: int, size: int, max: int, i: int)
    requires
        0 <= i < fixed_split(offset, size, max).len(),
        max > 0,
    ensures
        offset <= fixed_split(offset, size, max)[i].0,
        fixed_split(offset, size, max)[i].0 + fixed_split(offset, size, max)[i].1 <= offset + size,
    decreases size,
{
    if size > max && i > 0 {
        lemma_fixed_split_inside(offset + max, size - max, max, i - 1);
        assert(fixed_split(offset, size, max)[i] == fixed_split(
            offset + max,
            size - max,
            max,
        )[i - 1]);
    }
}

/// No piece of a split by backing mixes 2 MB folios with smaller pages.
pub proof fn law_backing_split_never_mixes(need_small: Seq<bool>, c: int, i: int)
    requires
        0 <= c <= need_small.len(),
        0 <= i < backing_split(need_small, c).len(),
    ensures
        one_backing(need_small, backing_split(need_small, c)[i]),
    decreases need_small.len() - c,
{
    let e = run_end(need_small, c);
    let head = fixed_split(c * THP_SIZE, (e - c) * THP_SIZE, LEND_CHUNK_SIZE as int);
    lemma_run_end(need_small, c);
    if i < head.len() {
        lemma_fixed_split_inside(c * THP_SIZE, (e - c) * THP_SIZE, LEND_CHUNK_SIZE as int, i);
    } else {
        law_backing_split_never_mixes(need_small, e, i - head.len());
    }
}

proof fn lemma_fixed_split_step(offset: int, size: int, max: int, k: int)
    requires
        max > 0,
        0 <= k,
        k * max < size,
    ensures
        fixed_split(offset, size, max).len() > k,
        fixed_split(offset, size, max)[k] == (
            offset + k * max,
            if size - k * max <= max {
                size - k * max
            } else {
                max
            },
        ),
        size - k * max <= max ==> fixed_split(offset, size, max).len() == k + 1,
    decreases k,
{
    if k > 0 {
        assert((k - 1) * max + max == k * max) by (nonlinear_arith);
        assert((k - 1) * max >= 0) by (nonlinear_arith)
            requires
                k > 0,
                max > 0,
        ;
        lemma_fixed_split_step(offset + max, size - max, max, k - 1);
        assert(fixed_split(offset, size, max)[k] == fixed_split(
            offset + max,
            size - max,
            max,
        )[k - 1]);
    } else {
        assert(0 * max == 0) by (nonlinear_arith);
        if size > max {
            assert(fixed_split(offset, size, max)[0] == (offset, max));
        }
    }
}

/// Cuts `size` bytes from `offset` on into pieces of `max` bytes and appends them.
fn push_fixed(chunks: &mut Vec<LendChunk>, offset: u64, size: u64, max: u64)
    requires
        max > 0,
        offset + size <= u64::MAX,
    ensures
        pieces(final(chunks)@) == pieces(old(chunks)@) + fixed_split(
            offset as int,
            size as int,
            max as int,
        ),
{
    let ghost before = chunks@;
    let ghost full = fixed_split(offset as int, size as int, max as int);
    let ghost mut k: int = 0;
    let mut done: u64 = 0;
    proof {
        assert(0 * max == 0) by (nonlinear_arith);
        assert(pieces(chunks@) =~= pieces(before) + full.take(0));
    }
    while done < size
        invariant
            max > 0,
            offset + size <= u64::MAX,
            done <= size,
            full == fixed_split(offset as int, size as int, max as int),
            0 <= k <= full.len(),
            done < size ==> done == k * max,
            done == size ==> k == full.len(),
            pieces(chunks@) == pieces(before) + full.take(k),
        decreases size - done,
    {
        proof {
            lemma_fixed_split_step(offset as int, size as int, max as int, k);
        }
        let left: u64 = size - done;
        let len: u64 = if left < max {
            left
        } else {
            max
        };
        let ghost prev = chunks@;
        chunks.push(LendChunk { offset: offset + done, size: len });
        done = done + len;
        proof {
            assert(full[k] == (offset + k * max, len as int));
            assert(pieces(chunks@) =~= pieces(prev).push(full[k]));
            assert(full.take(k + 1) =~= full.take(k).push(full[k]));
            assert((k + 1) * max == k * max + max) by (nonlinear_arith);
            if done < size {
                lemma_fixed_split_step(offset as int, size as int, max as int, k + 1);
            }
            k = k + 1;
            assert(pieces(chunks@) =~= pieces(before) + full.take(k));
        }
    }
    proof {
        if size == 0 {
            assert(full.len() == 0);
        }
        assert(full.take(k) =~= full);
    }
}

/// What is left of `total_size` bytes behind the last whole 2 MB piece, where anything is.
pub open spec fn remainder(total_size: int) -> Seq<(int, int)> {
    let rest = total_size % THP_SIZE as int;
    if rest == 0 {
        Seq::empty()
    } else {
        seq![(total_size - rest, rest)]
    }
}

/// What a split of `total_size` bytes is: nothing where the region fits one call, pieces by
/// backing where that is known, with what is left of the region behind them, pieces of
/// [`LEND_CHUNK_SIZE`] otherwise.
pub open spec fn lend_split(total_size: int, need_small: Option<Seq<bool>>) -> Seq<(int, int)> {
    if total_size <= LEND_CHUNK_SIZE {
        Seq::empty()
    } else {
        match need_small {
            Some(flags) => backing_split(flags.take(total_size / THP_SIZE as int), 0) + remainder(
                total_size,
            ),
            None => fixed_split(0, total_size, LEND_CHUNK_SIZE as int),
        }
    }
}

/// A split covers the whole region, piece after piece, and no piece is longer than one LEND call
/// takes.
pub proof fn law_lend_split_covers(total_size: int, need_small: Option<Seq<bool>>)
    requires
        total_size > LEND_CHUNK_SIZE,
        need_small matches Some(flags) ==> flags.len() >= total_size / THP_SIZE as int,
    ensures
        end_to_end(lend_split(total_size, need_small), 0, total_size),
        at_most(lend_split(total_size, need_small), LEND_CHUNK_SIZE as int),
{
    match need_small {
        Some(flags) => {
            let whole = flags.take(total_size / THP_SIZE as int);
            law_backing_split_covers(whole, 0);
            lemma_join(
                backing_split(whole, 0),
                remainder(total_size),
                0,
                whole.len() * THP_SIZE,
                total_size,
                LEND_CHUNK_SIZE as int,
            );
        },
        None => {
            law_fixed_split_covers(0, total_size, LEND_CHUNK_SIZE as int);
        },
    }
}

/// No piece of the split of a prepared region mixes 2 MB folios with smaller pages.
pub proof fn law_lend_split_never_mixes(total_size: int, need_small: Seq<bool>, i: int)
    requires
        total_size > LEND_CHUNK_SIZE,
        need_small.len() >= total_size / THP_SIZE as int,
        0 <= i < lend_split(total_size, Some(need_small)).len(),
    ensures
        one_backing(
            need_small.take(total_size / THP_SIZE as int),
            lend_split(total_size, Some(need_small))[i],
        ),
{
    let whole = need_small.take(total_size / THP_SIZE as int);
    if i < backing_split(whole, 0).len() {
        law_backing_split_never_mixes(whole, 0, i);
    }
}

/// Splits a region for LEND. Empty where the region is small enough for one call.
///
/// With the outcome of a preparation, each run of 2 MB pieces of equal backing is split by itself,
/// and what is left of the region behind the last whole piece is one more.
pub fn compute_lend_chunks(total_size: u64, prep: Option<&LendPrepResult>) -> (chunks: Vec<
    LendChunk,
>)
    requires
        total_size > LEND_CHUNK_SIZE && prep is Some ==> prep->0.need_small@.len() >= total_size
            / THP_SIZE,
    ensures
        pieces(chunks@) == lend_split(
            total_size as int,
            match prep {
                Some(p) => Some(p.need_small@),
                None => None,
            },
        ),
{
    let mut chunks: Vec<LendChunk> = Vec::new();
    assert(pieces(chunks@) =~= Seq::empty());
    if total_size <= LEND_CHUNK_SIZE {
        return chunks;
    }
    match prep {
        Some(prep) => {
            assert(total_size / THP_SIZE <= prep.need_small.len());
            let total: usize = (total_size / THP_SIZE) as usize;
            let ghost flags = prep.need_small@.take(total as int);
            let mut c: usize = 0;
            let ghost all = backing_split(flags, 0);
            assert(pieces(chunks@) + backing_split(flags, 0) =~= all);
            while c < total
                invariant
                    c <= total,
                    total == total_size / THP_SIZE,
                    total <= prep.need_small@.len(),
                    flags == prep.need_small@.take(total as int),
                    pieces(chunks@) + backing_split(flags, c as int) == all,
                decreases total - c,
            {
                let is_small = prep.need_small[c];
                let run_start: usize = c;
                let ghost e = run_end(flags, c as int);
                proof {
                    lemma_run_end(flags, c as int);
                }
                while c < total && prep.need_small[c] == is_small
                    invariant
                        run_start <= c <= e <= total,
                        total <= prep.need_small@.len(),
                        flags == prep.need_small@.take(total as int),
                        forall|i: int| run_start <= i < e ==> flags[i] == is_small,
                        e < total ==> flags[e] != is_small,
                    decreases total - c,
                {
                    assert(flags[c as int] == is_small);
                    c = c + 1;
                }
                assert(c == e) by {
                    if c < e {
                        assert(flags[c as int] == is_small);
                    }
                }
                let run_offset: u64 = run_start as u64 * THP_SIZE;
                let run_size: u64 = (c - run_start) as u64 * THP_SIZE;
                let ghost before = pieces(chunks@);
                push_fixed(&mut chunks, run_offset, run_size, LEND_CHUNK_SIZE);
                proof {
                    let run = fixed_split(
                        run_offset as int,
                        run_size as int,
                        LEND_CHUNK_SIZE as int,
                    );
                    assert(backing_split(flags, run_start as int) == run + backing_split(flags, e));
                    assert((before + run) + backing_split(flags, e) =~= before + (run
                        + backing_split(flags, e)));
                }
            }
            assert(pieces(chunks@) =~= all);
            let rest: u64 = total_size % THP_SIZE;
            if rest > 0 {
                chunks.push(LendChunk { offset: total_size - rest, size: rest });
            }
            assert(pieces(chunks@) =~= all + remainder(total_size as int));
        },
        None => {
            push_fixed(&mut chunks, 0, total_size, LEND_CHUNK_SIZE);
            assert(pieces(chunks@) =~= fixed_split(0, total_size as int, LEND_CHUNK_SIZE as int));
        },
    }
    chunks
}

/// Splits a region for SHARE: one piece for each 2 MB folio, whatever backs it, since
/// neighbouring folios need not be neighbours in physical memory.
pub fn compute_share_chunks(total_size: u64) -> (chunks: Vec<LendChunk>)
    ensures
        pieces(chunks@) == fixed_split(0, total_size as int, THP_SIZE as int),
{
    let mut chunks: Vec<LendChunk> = Vec::new();
    assert(pieces(chunks@) =~= Seq::empty());
    push_fixed(&mut chunks, 0, total_size, THP_SIZE);
    assert(pieces(chunks@) =~= fixed_split(0, total_size as int, THP_SIZE as int));
    chunks
}

/// Rounds `v` up to the next multiple of the 2 MB folio size.
pub fn round_up_2mb(v: u64) -> (r: u64)
    requires
        v + THP_SIZE - 1 <= u64::MAX,
    ensures
        r % THP_SIZE == 0,
        v <= r < v + THP_SIZE,
{
    assert(v + 0x1f_ffff <= u64::MAX ==> ((((v + 0x1f_ffff) as u64) & !0x1f_ffffu64) % 0x20_0000
        == 0 && v <= (((v + 0x1f_ffff) as u64) & !0x1f_ffffu64) && (((v + 0x1f_ffff) as u64)
        & !0x1f_ffffu64) < v + 0x20_0000)) by (bit_vector);
    (v + (THP_SIZE - 1)) & !(THP_SIZE - 1)
}

/// Rounding up gives the least multiple of the folio size that is not below the value; what is
/// a multiple already stays as it is.
pub proof fn law_round_up_is_least(v: int, r: int, m: int)
    requires
        r % THP_SIZE as int == 0,
        v <= r < v + THP_SIZE,
        m % THP_SIZE as int == 0,
        v <= m,
    ensures
        r <= m,
        v % THP_SIZE as int == 0 ==> r == v,
{
}

/// A window of `len` bytes that starts on a 2 MB boundary, and the slack round it.
#[derive(Clone, Copy, Debug, PartialEq, Eq, Structural)]
pub struct FolioWindow {
    /// Where the window starts.
    pub aligned: u64,
    /// How many bytes of the reservation lie before it.
    pub head: u64,
    /// Where the slack behind it starts.
    pub tail_start: u64,
    /// How many bytes of the reservation lie behind it.
    pub tail: u64,
}

/// Carves the aligned window out of a reservation of `len` bytes and one folio more that starts
/// at `base`.
pub fn folio_window(base: u64, len: u64) -> (w: FolioWindow)
    requires
        base + len + THP_SIZE <= u64::MAX,
    ensures
        w.aligned % THP_SIZE == 0,
        base <= w.aligned < base + THP_SIZE,
        w.head == w.aligned - base,
        w.tail_start == w.aligned + len,
        w.head + len + w.tail == len + THP_SIZE,
{
    let aligned: u64 = round_up_2mb(base);
    let tail_start: u64 = aligned + len;
    let tail_end: u64 = base + len + THP_SIZE;
    FolioWindow { aligned, head: aligned - base, tail_start, tail: tail_end - tail_start }
}

/// The folios of a file of `rounded` bytes: the offset of each whole one.
pub fn folio_offsets(rounded: u64) -> (offsets: Vec<u64>)
    ensures
        offsets@ == Seq::new((rounded / THP_SIZE) as nat, |w: int| (w * THP_SIZE) as u64),
{
    let windows: u64 = rounded / THP_SIZE;
    let mut offsets: Vec<u64> = Vec::new();
    let mut w: u64 = 0;
    while w < windows
        invariant
            w <= windows == rounded / THP_SIZE,
            offsets@ == Seq::new(w as nat, |i: int| (i * THP_SIZE) as u64),
        decreases windows - w,
    {
        offsets.push(w * THP_SIZE);
        w = w + 1;
    }
    offsets
}

/// How many pages are touched one by one where a range of `len` bytes could not be populated by
/// one call: the whole pages in it.
pub fn pages_to_touch(len: u64) -> (n: u64)
    ensures
        n == len / PAGE_SIZE,
{
    len / PAGE_SIZE
}

/// One batch of a population.
#[derive(Clone, Copy, Debug, PartialEq, Eq, Structural)]
pub struct Batch {
    /// What is populated.
    pub range: LendChunk,
    /// Whether memory is compacted afterwards.
    pub compact: bool,
}

/// The ranges of a sequence of batches.
pub open spec fn batch_ranges(batches: Seq<Batch>) -> Seq<(int, int)> {
    Seq::new(batches.len(), |i: int| (batches[i].range.offset as int, batches[i].range.size as int))
}

/// The batches in which a region of `size` bytes is populated. Memory is compacted behind every
/// [`COMPACT_INTERVAL`]th batch but the last.
pub fn populate_batches(size: u64) -> (batches: Vec<Batch>)
    ensures
        batch_ranges(batches@) == fixed_split(0, size as int, BATCH_SIZE as int),
        forall|i: int|
            0 <= i < batches@.len() ==> (#[trigger] batches@[i]).compact == ((i + 1)
                % COMPACT_INTERVAL as int == 0 && i + 1 < batches@.len()),
{
    let mut ranges: Vec<LendChunk> = Vec::new();
    assert(pieces(ranges@) =~= Seq::empty());
    push_fixed(&mut ranges, 0, size, BATCH_SIZE);
    assert(pieces(ranges@) =~= fixed_split(0, size as int, BATCH_SIZE as int));
    let mut batches: Vec<Batch> = Vec::new();
    let mut i: usize = 0;
    let mut turn: u64 = 0;
    while i < ranges.len()
        invariant
            i <= ranges@.len(),
            batches@.len() == i,
            turn == i as int % COMPACT_INTERVAL as int,
            forall|j: int| 0 <= j < i ==> (#[trigger] batches@[j]).range == ranges@[j],
            forall|j: int|
                0 <= j < i ==> (#[trigger] batches@[j]).compact == ((j + 1)
                    % COMPACT_INTERVAL as int == 0 && j + 1 < ranges@.len()),
        decreases ranges@.len() - i,
    {
        turn = turn + 1;
        if turn == COMPACT_INTERVAL {
            turn = 0;
        }
        batches.push(Batch { range: ranges[i], compact: turn == 0 && i + 1 < ranges.len() });
        i = i + 1;
    }
    assert(batch_ranges(batches@) =~= pieces(ranges@));
    batches
}

// The collapse cascade.

/// How many units a folio of a level holds: 2 MB at level 0, half as much at each further one.
pub open spec fn level_units(level: int) -> int {
    if level == 0 {
        32
    } else if level == 1 {
        16
    } else if level == 2 {
        8
    } else if level == 3 {
        4
    } else if level == 4 {
        2
    } else {
        1
    }
}

/// The page order of a folio of a level.
pub open spec fn level_order(level: int) -> int {
    9 - level
}

/// Whether no unit of block `c` of a level has been collapsed.
pub open spec fn block_free(orders: Seq<u8>, level: int, c: int) -> bool {
    forall|u: int|
        c * level_units(level) <= u < (c + 1) * level_units(level) ==> #[trigger] orders[u] == 0
}

/// How many whole blocks of a level there are.
pub open spec fn level_blocks(units: int, level: int) -> int {
    units / level_units(level)
}

/// The orders after block `c` of a level was collapsed.
pub open spec fn collapsed(orders: Seq<u8>, level: int, c: int) -> Seq<u8> {
    Seq::new(
        orders.len(),
        |u: int|
            if c * level_units(level) <= u < (c + 1) * level_units(level) {
                level_order(level) as u8
            } else {
                orders[u]
            },
    )
}

/// Unit `u` is part of a whole block of its own order.
pub open spec fn in_whole_block(orders: Seq<u8>, u: int) -> bool {
    let level = 9 - orders[u];
    let c = u / level_units(level);
    &&& 0 <= level < LEVELS
    &&& (c + 1) * level_units(level) <= orders.len()
    &&& forall|v: int|
        c * level_units(level) <= v < (c + 1) * level_units(level) ==> #[trigger] orders[v]
            == orders[u]
}

/// A cascade position comes before another: an earlier level, or an earlier block of the same.
pub open spec fn before(level: int, block: int, level2: int, block2: int) -> bool {
    level < level2 || level == level2 && block < block2
}

/// The cascade of collapses over a region: level after level, block after block, leaving out
/// every block of which some unit was collapsed already.
pub struct CollapseCascade {
    orders: Vec<u8>,
    level: usize,
    block: usize,
    pending: bool,
}

impl CollapseCascade {
    /// The order each unit was collapsed to; 0 where it was not.
    pub closed spec fn orders(&self) -> Seq<u8> {
        self.orders@
    }

    /// The level the cascade stands at.
    pub closed spec fn level(&self) -> int {
        self.level as int
    }

    /// The block the cascade stands at.
    pub closed spec fn block(&self) -> int {
        self.block as int
    }

    /// Whether a collapse of the block it stands at was asked for and not answered.
    pub closed spec fn pending(&self) -> bool {
        self.pending
    }

    /// What always holds: every collapsed unit is part of a whole block of its order, and no
    /// collapsed block is ahead of the cascade's level.
    pub open spec fn wf(&self) -> bool {
        &&& 0 <= self.level() <= LEVELS
        &&& 0 <= self.block()
        &&& self.orders().len() * MAP_UNIT <= u64::MAX
        &&& self.orders().len() <= usize::MAX
        &&& forall|u: int|
            0 <= u < self.orders().len() && self.orders()[u] != 0 ==> #[trigger] in_whole_block(
                self.orders(),
                u,
            )
        &&& self.pending() ==> {
            &&& self.level() < LEVELS
            &&& self.block() < level_blocks(self.orders().len() as int, self.level())
            &&& block_free(self.orders(), self.level(), self.block())
        }
    }

    /// A region of `size` bytes of which nothing was collapsed.
    pub fn new(size: u64) -> (cascade: Self)
        requires
            size / MAP_UNIT <= usize::MAX,
        ensures
            cascade.wf(),
            cascade.orders() == Seq::new((size / MAP_UNIT) as nat, |u: int| 0u8),
            cascade.level() == 0,
            cascade.block() == 0,
            !cascade.pending(),
    {
        let count: usize = (size / MAP_UNIT) as usize;
        let mut orders: Vec<u8> = Vec::new();
        let mut u: usize = 0;
        while u < count
            invariant
                u <= count,
                orders@ == Seq::new(u as nat, |u: int| 0u8),
            decreases count - u,
        {
            orders.push(0);
            u = u + 1;
        }
        CollapseCascade { orders, level: 0, block: 0, pending: false }
    }
}

/// How many units a folio of a level holds.
fn units_of(level: usize) -> (n: usize)
    requires
        level < LEVELS,
    ensures
        n == level_units(level as int),
{
    if level == 0 {
        32
    } else if level == 1 {
        16
    } else if level == 2 {
        8
    } else if level == 3 {
        4
    } else if level == 4 {
        2
    } else {
        1
    }
}

/// Whether every unit from `from` to `to` has order 0.
fn all_free(orders: &Vec<u8>, from: usize, to: usize) -> (b: bool)
    requires
        from <= to <= orders@.len(),
    ensures
        b == (forall|u: int| from <= u < to ==> #[trigger] orders@[u] == 0),
{
    let mut u: usize = from;
    while u < to
        invariant
            from <= u <= to <= orders@.len(),
            forall|v: int| from <= v < u ==> #[trigger] orders@[v] == 0,
        decreases to - u,
    {
        if orders[u] != 0 {
            assert(orders@[u as int] != 0);
            return false;
        }
        u = u + 1;
    }
    true
}

proof fn lemma_block_inside(units: int, level: int, c: int)
    requires
        0 <= level < LEVELS,
        0 <= c < level_blocks(units, level),
        units >= 0,
    ensures
        0 <= c * level_units(level),
        (c + 1) * level_units(level) == c * level_units(level) + level_units(level),
        (c + 1) * level_units(level) <= units,
{
    let n = level_units(level);
    assert((c + 1) * n <= units) by (nonlinear_arith)
        requires
            n > 0,
            c + 1 <= units / n,
    ;
}

proof fn lemma_same_block(level: int, c: int, u: int)
    requires
        0 <= level < LEVELS,
        0 <= c,
        c * level_units(level) <= u < (c + 1) * level_units(level),
    ensures
        u / level_units(level) == c,
{
    let n = level_units(level);
    assert(u / n == c) by (nonlinear_arith)
        requires
            n > 0,
            c * n <= u < (c + 1) * n,
    ;
}

/// A successful collapse keeps every collapsed unit inside a whole block of its order.
proof fn lemma_collapsed_whole(orders: Seq<u8>, level: int, c: int)
    requires
        0 <= level < LEVELS,
        0 <= c < level_blocks(orders.len() as int, level),
        block_free(orders, level, c),
        forall|u: int|
            0 <= u < orders.len() && orders[u] != 0 ==> #[trigger] in_whole_block(orders, u),
    ensures
        forall|u: int|
            0 <= u < orders.len() && collapsed(orders, level, c)[u] != 0
                ==> #[trigger] in_whole_block(collapsed(orders, level, c), u),
{
    let after = collapsed(orders, level, c);
    lemma_block_inside(orders.len() as int, level, c);
    assert forall|u: int| 0 <= u < orders.len() && after[u] != 0 implies #[trigger] in_whole_block(
        after,
        u,
    ) by {
        if c * level_units(level) <= u < (c + 1) * level_units(level) {
            lemma_same_block(level, c, u);
        } else {
            assert(in_whole_block(orders, u));
            let l = 9 - orders[u];
            let n = level_units(l);
            let d = u / n;
            assert(d * n <= u < (d + 1) * n) by (nonlinear_arith)
                requires
                    n > 0,
                    d == u / n,
            ;
            assert forall|v: int| d * n <= v < (d + 1) * n implies #[trigger] after[v]
                == after[u] by {
                assert(orders[v] == orders[u]);
                assert(0 <= d * n) by (nonlinear_arith)
                    requires
                        d >= 0,
                        n > 0,
                ;
            }
        }
    }
}

impl CollapseCascade {
    /// The cascade moved on to the next free block, or to its end.
    pub open spec fn advanced(&self, from: &Self, target: Option<LendChunk>) -> bool {
        &&& self.orders() == from.orders()
        &&& !before(self.level(), self.block(), from.level(), from.block())
        &&& forall|l: int, c: int|
            0 <= l < LEVELS && 0 <= c < level_blocks(from.orders().len() as int, l) && !before(
                l,
                c,
                from.level(),
                from.block(),
            ) && before(l, c, self.level(), self.block()) ==> !#[trigger] block_free(
                from.orders(),
                l,
                c,
            )
        &&& self.pending() == target is Some
        &&& target is None ==> self.level() == LEVELS
        &&& target matches Some(t) ==> {
            &&& t.offset == self.block() * level_units(self.level()) * MAP_UNIT
            &&& t.size == level_units(self.level()) * MAP_UNIT
        }
    }

    /// The next block to collapse: the first from where the cascade stands of which no unit was
    /// collapsed. `None` once there is no further one.
    pub fn next_target(&mut self) -> (target: Option<LendChunk>)
        requires
            old(self).wf(),
            !old(self).pending(),
        ensures
            final(self).wf(),
            final(self).orders() == old(self).orders(),
            final(self).advanced(old(self), target),
    {
        let ghost orders = self.orders@;
        while self.level < LEVELS
            invariant
                self.wf(),
                !self.pending(),
                self.orders@ == orders,
                orders == old(self).orders(),
                !before(self.level(), self.block(), old(self).level(), old(self).block()),
                forall|l: int, c: int|
                    0 <= l < LEVELS && 0 <= c < level_blocks(orders.len() as int, l) && !before(
                        l,
                        c,
                        old(self).level(),
                        old(self).block(),
                    ) && before(l, c, self.level(), self.block()) ==> !#[trigger] block_free(
                        orders,
                        l,
                        c,
                    ),
            decreases
                    LEVELS - self.level,
                    level_blocks(orders.len() as int, self.level()) - self.block,
        {
            let units: usize = units_of(self.level);
            if self.block < self.orders.len() / units {
                proof {
                    lemma_block_inside(orders.len() as int, self.level(), self.block());
                }
                let from: usize = self.block * units;
                if all_free(&self.orders, from, from + units) {
                    assert(block_free(orders, self.level(), self.block()));
                    let offset: u64 = from as u64 * MAP_UNIT;
                    self.pending = true;
                    return Some(LendChunk { offset, size: units as u64 * MAP_UNIT });
                }
                assert(!block_free(orders, self.level(), self.block()));
                self.block = self.block + 1;
            } else {
                self.level = self.level + 1;
                self.block = 0;
            }
        }
        None
    }

    /// Takes the answer to the collapse that was asked for and moves on to the next block.
    pub fn record(&mut self, ok: bool)
        requires
            old(self).wf(),
            old(self).pending(),
        ensures
            final(self).wf(),
            !final(self).pending(),
            final(self).level() == old(self).level(),
            final(self).block() == old(self).block() + 1,
            final(self).orders() == if ok {
                collapsed(old(self).orders(), old(self).level(), old(self).block())
            } else {
                old(self).orders()
            },
    {
        proof {
            lemma_block_inside(self.orders@.len() as int, self.level(), self.block());
            lemma_collapsed_whole(self.orders@, self.level(), self.block());
        }
        if ok {
            let units: usize = units_of(self.level);
            let order: u8 = (9 - self.level) as u8;
            let from: usize = self.block * units;
            let ghost orders = self.orders@;
            let to: usize = from + units;
            let mut u: usize = from;
            while u < to
                invariant
                    from <= u <= to <= self.orders@.len(),
                    self.orders@.len() == orders.len(),
                    self.level == old(self).level,
                    self.block == old(self).block,
                    self.pending,
                    forall|v: int|
                        0 <= v < orders.len() ==> #[trigger] self.orders@[v] == if from <= v < u {
                            order
                        } else {
                            orders[v]
                        },
                decreases to - u,
            {
                self.orders.set(u, order);
                u = u + 1;
            }
            assert(self.orders@ =~= collapsed(orders, self.level(), self.block()));
        }
        self.block = self.block + 1;
        self.pending = false;
    }
}

/// The offsets of the units that were not collapsed, in order.
pub open spec fn free_offsets(orders: Seq<u8>) -> Seq<u64>
    decreases orders.len(),
{
    if orders.len() == 0 {
        Seq::empty()
    } else {
        let rest = free_offsets(orders.drop_last());
        if orders.last() == 0 {
            rest.push(((orders.len() - 1) * MAP_UNIT) as u64)
        } else {
            rest
        }
    }
}

/// How many units were collapsed.
pub open spec fn collapsed_units(orders: Seq<u8>) -> int
    decreases orders.len(),
{
    if orders.len() == 0 {
        0
    } else {
        collapsed_units(orders.drop_last()) + if orders.last() != 0 {
            1int
        } else {
            0
        }
    }
}

/// Whether the units of 2 MB piece `ci` are not all part of a 2 MB folio.
pub open spec fn needs_small(orders: Seq<u8>, ci: int) -> bool {
    exists|u: int| ci * 32 <= u < (ci + 1) * 32 && #[trigger] orders[u] < 9
}

impl LendPrepResult {
    /// Whether this is what became of a region, going by the orders of its units.
    pub open spec fn tells(&self, orders: Seq<u8>, populated: bool) -> bool {
        &&& self.populated == populated
        &&& self.large_page_bytes == collapsed_units(orders) * MAP_UNIT
        &&& self.need_small@.len() == orders.len() / 32
        &&& forall|ci: int|
            0 <= ci < self.need_small@.len() ==> #[trigger] self.need_small@[ci] == needs_small(
                orders,
                ci,
            )
    }
}

impl CollapseCascade {
    /// The units to populate once more: those that were not collapsed.
    pub fn unpopulated(&self) -> (offsets: Vec<u64>)
        requires
            self.wf(),
        ensures
            offsets@ == free_offsets(self.orders()),
    {
        let mut offsets: Vec<u64> = Vec::new();
        let mut u: usize = 0;
        assert(self.orders@.take(0) =~= Seq::empty());
        while u < self.orders.len()
            invariant
                self.wf(),
                u <= self.orders@.len(),
                offsets@ == free_offsets(self.orders@.take(u as int)),
            decreases self.orders@.len() - u,
        {
            assert(self.orders@.take(u + 1).drop_last() =~= self.orders@.take(u as int));
            if self.orders[u] == 0 {
                offsets.push(u as u64 * MAP_UNIT);
            }
            u = u + 1;
        }
        assert(self.orders@.take(u as int) =~= self.orders@);
        offsets
    }

    /// What became of the region, once the cascade is over and the region was verified.
    pub fn finish(&self, populated: bool) -> (prep: LendPrepResult)
        requires
            self.wf(),
        ensures
            prep.tells(self.orders(), populated),
    {
        let mut units: u64 = 0;
        let mut u: usize = 0;
        assert(self.orders@.take(0) =~= Seq::empty());
        while u < self.orders.len()
            invariant
                self.wf(),
                u <= self.orders@.len(),
                units <= u,
                units == collapsed_units(self.orders@.take(u as int)),
            decreases self.orders@.len() - u,
        {
            assert(self.orders@.take(u + 1).drop_last() =~= self.orders@.take(u as int));
            if self.orders[u] != 0 {
                units = units + 1;
            }
            u = u + 1;
        }
        assert(self.orders@.take(u as int) =~= self.orders@);
        let mut need_small: Vec<bool> = Vec::new();
        let total: usize = self.orders.len() / 32;
        let mut ci: usize = 0;
        while ci < total
            invariant
                ci <= total,
                total == self.orders.len() / 32,
                need_small@.len() == ci,
                forall|i: int|
                    0 <= i < ci ==> #[trigger] need_small@[i] == needs_small(self.orders@, i),
            decreases total - ci,
        {
            let from: usize = ci * 32;
            let to: usize = from + 32;
            let mut is_thp = true;
            let mut u: usize = from;
            while u < to
                invariant
                    from == ci * 32,
                    to == from + 32,
                    from <= u <= to <= self.orders@.len(),
                    is_thp == (forall|v: int| from <= v < u ==> #[trigger] self.orders@[v] >= 9),
                decreases to - u,
            {
                is_thp = is_thp && self.orders[u] >= 9;
                u = u + 1;
            }
            need_small.push(!is_thp);
            ci = ci + 1;
        }
        LendPrepResult { need_small, large_page_bytes: units * MAP_UNIT, populated }
    }
}

/// A piece that needs no small pages is one 2 MB folio: each of its units was collapsed to the
/// highest order.
pub proof fn law_thp_piece_is_one_folio(cascade: CollapseCascade, ci: int, u: int)
    requires
        cascade.wf(),
        0 <= ci < cascade.orders().len() / 32,
        !needs_small(cascade.orders(), ci),
        ci * 32 <= u < (ci + 1) * 32,
    ensures
        cascade.orders()[u] == 9,
{
    assert(!(cascade.orders()[u] < 9));
    assert(in_whole_block(cascade.orders(), u));
}

/// A failed collapse of a 2 MB block is not the last word on it: while any unit of it is not
/// collapsed, the smaller block that holds the unit alone is still free.
pub proof fn law_free_unit_is_free_block(cascade: CollapseCascade, u: int)
    requires
        cascade.wf(),
        0 <= u < cascade.orders().len(),
        cascade.orders()[u] == 0,
    ensures
        block_free(cascade.orders(), LEVELS - 1, u),
        u < level_blocks(cascade.orders().len() as int, LEVELS - 1),
{
}

/// The flags that a preparation of `size` bytes ends with are as many as a split of the region
/// asks for.
pub proof fn law_flags_fit_the_split(size: u64)
    ensures
        (size / MAP_UNIT) / 32 == size / THP_SIZE,
{
}

/// Every piece of a fixed split but the last is as long as it may be, and starts where so many of
/// them end.
pub proof fn law_fixed_pieces_are_of_one_size(offset: int, size: int, max: int, i: int)
    requires
        size >= 0,
        max > 0,
        0 <= i < fixed_split(offset, size, max).len(),
    ensures
        fixed_split(offset, size, max)[i].0 == offset + i * max,
        i + 1 < fixed_split(offset, size, max).len() ==> fixed_split(offset, size, max)[i].1 == max,
    decreases size,
{
    if size > max {
        let rest = fixed_split(offset + max, size - max, max);
        assert(0 * max == 0) by (nonlinear_arith);
        if i > 0 {
            law_fixed_pieces_are_of_one_size(offset + max, size - max, max, i - 1);
            assert(fixed_split(offset, size, max)[i] == rest[i - 1]);
            assert((i - 1) * max + max == i * max) by (nonlinear_arith);
        }
    } else {
        assert(0 * max == 0) by (nonlinear_arith);
    }
}

/// A run of equal backing is split by itself, and as a whole: it reaches as far as the backing is
/// the same.
pub proof fn law_a_run_is_split_by_itself(need_small: Seq<bool>, c: int, e: int)
    requires
        0 <= c < e <= need_small.len(),
        forall|k: int| c <= k < e ==> #[trigger] need_small[k] == need_small[c],
        e < need_small.len() ==> need_small[e] != need_small[c],
    ensures
        backing_split(need_small, c) == fixed_split(
            c * 0x20_0000,
            (e - c) * 0x20_0000,
            0x1000_0000,
        ) + backing_split(need_small, e),
        backing_split(need_small, need_small.len() as int).len() == 0,
{
    lemma_run_reaches(need_small, c, e);
}

proof fn lemma_run_reaches(need_small: Seq<bool>, c: int, e: int)
    requires
        0 <= c < e <= need_small.len(),
        forall|k: int| c <= k < e ==> #[trigger] need_small[k] == need_small[c],
        e < need_small.len() ==> need_small[e] != need_small[c],
    ensures
        run_end(need_small, c) == e,
    decreases e - c,
{
    if c + 1 < e {
        assert(need_small[c + 1] == need_small[c]);
        lemma_run_reaches(need_small, c + 1, e);
    }
}

/// A region that fits one call is not split. One of which nothing is known is cut into the longest
/// pieces there may be. In one that was prepared, what is left behind the last whole folio is a
/// piece of its own.
pub proof fn law_what_is_left_is_a_piece(size: u64, flags: Seq<bool>, folios: int)
    requires
        flags.len() >= size / THP_SIZE,
    ensures
        size <= 0x1000_0000 ==> lend_split(size as int, None).len() == 0 && lend_split(
            size as int,
            Some(flags),
        ).len() == 0,
        size > 0x1000_0000 ==> lend_split(size as int, None) == fixed_split(
            0,
            size as int,
            0x1000_0000,
        ),
        size > 0x1000_0000 && size == folios * 0x20_0000 ==> lend_split(size as int, Some(flags))
            == backing_split(flags.take(folios), 0),
        size > 0x1000_0000 && 0 < size - folios * 0x20_0000 < 0x20_0000 ==> lend_split(
            size as int,
            Some(flags),
        ) == backing_split(flags.take(folios), 0).push(
            (folios * 0x20_0000, size - folios * 0x20_0000),
        ),
{
    if size > 0x1000_0000 && 0 < size - folios * 0x20_0000 < 0x20_0000 {
        let r = (folios * 0x20_0000, size - folios * 0x20_0000);
        assert(backing_split(flags.take(folios), 0) + seq![r] =~= backing_split(
            flags.take(folios),
            0,
        ).push(r));
    }
    if size > 0x1000_0000 && size == folios * 0x20_0000 {
        assert(backing_split(flags.take(folios), 0) + Seq::<(int, int)>::empty() =~= backing_split(
            flags.take(folios),
            0,
        ));
    }
}

/// Pieces and batches are shown as they are.
pub proof fn law_pieces_are_shown_as_they_are(chunks: Seq<LendChunk>, batches: Seq<Batch>, i: int)
    ensures
        pieces(chunks).len() == chunks.len(),
        batch_ranges(batches).len() == batches.len(),
        0 <= i < chunks.len() ==> pieces(chunks)[i] == (
            chunks[i].offset as int,
            chunks[i].size as int,
        ),
        0 <= i < batches.len() ==> batch_ranges(batches)[i] == (
            batches[i].range.offset as int,
            batches[i].range.size as int,
        ),
{
}

/// Each level of the cascade has folios of half the size of the one before it, from 2 MB down to
/// 64 KB, and an order less by one.
pub proof fn law_each_level_halves_the_folio(level: int)
    requires
        0 <= level < 6,
    ensures
        level_units(0) * MAP_UNIT == 0x20_0000,
        level_units(5) * MAP_UNIT == 0x1_0000,
        level < 5 ==> level_units(level) == 2 * level_units(level + 1),
        level < 5 ==> level_order(level) == level_order(level + 1) + 1,
        level_order(0) == 9,
        level_order(5) == 4,
        LEVELS == 6,
{
}

/// A collapse of a block reaches over the block and no further: every unit of it has the order of
/// its level, and every other unit the order it had.
pub proof fn law_a_collapse_is_of_its_block(orders: Seq<u8>, level: int, c: int, u: int)
    requires
        0 <= level < 6,
        0 <= u < orders.len(),
    ensures
        collapsed(orders, level, c).len() == orders.len(),
        u / level_units(level) == c ==> collapsed(orders, level, c)[u] == 9 - level,
        u / level_units(level) != c ==> collapsed(orders, level, c)[u] == orders[u],
        block_free(orders, level, c) && u / level_units(level) == c ==> orders[u] == 0,
{
    let n = level_units(level);
    vstd::arithmetic::div_mod::lemma_fundamental_div_mod(u, n);
    if c * n <= u < (c + 1) * n {
        assert((c + 1) * n == c * n + n) by (nonlinear_arith);
        vstd::arithmetic::div_mod::lemma_fundamental_div_mod_converse(u, n, c, u - c * n);
    }
    if u / n == c {
        assert(c * n == n * c && (c + 1) * n == c * n + n) by (nonlinear_arith);
    }
}

/// A block of which some unit is collapsed is not free, and of every level there are as many blocks
/// as fit whole.
pub proof fn law_a_block_is_free_as_a_whole(orders: Seq<u8>, level: int, c: int)
    requires
        0 <= level < 6,
        0 <= c,
    ensures
        block_free(orders, level, c) || exists|u: int|
            c * level_units(level) <= u < c * level_units(level) + level_units(level)
                && #[trigger] orders[u] != 0,
        c < level_blocks(orders.len() as int, level) <==> c * level_units(level) + level_units(level)
            <= orders.len(),
{
    let n = level_units(level);
    let len = orders.len() as int;
    assert((c + 1) * n == c * n + n) by (nonlinear_arith);
    vstd::arithmetic::div_mod::lemma_fundamental_div_mod(len, n);
    let q = len / n;
    assert(c < q <==> c * n + n <= len) by (nonlinear_arith)
        requires
            len == n * q + len % n,
            0 <= len % n < n,
            0 < n,
    ;
}

/// The cascade goes by level first, and by block within a level; of two places one comes first.
pub proof fn law_the_cascade_has_an_order(a: int, b: int, c: int, d: int)
    ensures
        a < c ==> before(a, b, c, d),
        before(a, b, a, d) <==> b < d,
        before(a, b, c, d) ==> !before(c, d, a, b),
        !before(a, b, c, d) && !before(c, d, a, b) ==> a == c && b == d,
{
}

/// Every unit that was not collapsed is populated once more, at its own offset, in order, and none
/// that was.
pub proof fn law_what_is_not_collapsed_is_populated_again(orders: Seq<u8>, u: int)
    requires
        orders.len() * MAP_UNIT <= u64::MAX,
        0 <= u < orders.len(),
    ensures
        orders[u] == 0 <==> free_offsets(orders).contains((u * 0x1_0000) as u64),
        forall|i: int, j: int|
            0 <= i < j < free_offsets(orders).len() ==> (#[trigger] free_offsets(orders)[i]) < (
            #[trigger] free_offsets(orders)[j]),
        forall|i: int|
            0 <= i < free_offsets(orders).len() ==> (#[trigger] free_offsets(orders)[i])
                < orders.len() * 0x1_0000,
    decreases orders.len(),
{
    let rest = orders.drop_last();
    let f = free_offsets(rest);
    let all = free_offsets(orders);
    if rest.len() > 0 {
        law_what_is_not_collapsed_is_populated_again(
            rest,
            if u < rest.len() {
                u
            } else {
                0
            },
        );
    }
    let last = (rest.len() * 0x1_0000) as u64;
    assert forall|x: u64| all.contains(x) <==> f.contains(x) || (orders.last() == 0 && x
        == last) by {
        if orders.last() == 0 {
            if f.contains(x) {
                let i = f.index_of(x);
                assert(all[i] == x);
            }
            if x == last {
                assert(all[f.len() as int] == x);
            }
            if all.contains(x) {
                let i = all.index_of(x);
                if i < f.len() {
                    assert(f[i] == x);
                }
            }
        }
    }
    if f.contains(last) {
        let i = f.index_of(last);
        assert(f[i] < rest.len() * 0x1_0000);
    }
    if u < rest.len() {
        assert(rest[u] == orders[u]);
    }
}

/// Every unit is either collapsed or populated once more.
pub proof fn law_units_are_collapsed_or_populated_again(orders: Seq<u8>)
    ensures
        collapsed_units(orders) + free_offsets(orders).len() == orders.len(),
        0 <= collapsed_units(orders),
    decreases orders.len(),
{
    if orders.len() > 0 {
        law_units_are_collapsed_or_populated_again(orders.drop_last());
    }
}

/// A piece with a unit that is not part of a 2 MB folio needs small pages; a piece of such units
/// alone does not.
pub proof fn law_one_small_unit_is_enough(orders: Seq<u8>, ci: int, u: int)
    requires
        0 <= u < orders.len(),
    ensures
        u / 32 == ci && orders[u] < 9 ==> needs_small(orders, ci),
        (forall|v: int| v / 32 == ci ==> #[trigger] orders[v] >= 9) ==> !needs_small(orders, ci),
{
}

/// The block that is collapsed next is free, and lies in the region as a whole. No free block is left
/// out on the way to it, and where there is none, none is left at all.
pub proof fn law_no_free_block_is_left_out(
    after: CollapseCascade,
    from: CollapseCascade,
    target: Option<LendChunk>,
    l: int,
    c: int,
)
    requires
        after.wf(),
        after.advanced(&from, target),
        0 <= l < 6,
        0 <= c < level_blocks(from.orders().len() as int, l),
        block_free(from.orders(), l, c),
        !before(l, c, from.level(), from.block()),
    ensures
        target is Some,
        !before(l, c, after.level(), after.block()),
        target matches Some(t) ==> {
            &&& block_free(after.orders(), after.level(), after.block())
            &&& t.offset + t.size <= after.orders().len() * 0x1_0000
            &&& t.offset == after.block() * t.size
            &&& t.size == level_units(after.level()) * 0x1_0000
        },
        after.orders() == from.orders(),
{
    let n = level_units(after.level());
    let b = after.block();
    if let Some(t) = target {
        lemma_block_inside(after.orders().len() as int, after.level(), b);
        assert((b + 1) * n == b * n + n) by (nonlinear_arith);
        assert(b * n * 0x1_0000 == b * (n * 0x1_0000)) by (nonlinear_arith);
    } else {
        assert(before(l, c, after.level(), after.block()));
    }
}

/// What is told of a region adds up: what is in large pages and what is populated again is all of it.
/// A piece needs small pages exactly where a unit of it is not part of a 2 MB folio.
pub proof fn law_what_is_told_adds_up(
    prep: LendPrepResult,
    orders: Seq<u8>,
    populated: bool,
    ci: int,
)
    requires
        prep.tells(orders, populated),
        0 <= ci < orders.len() / 32,
    ensures
        prep.large_page_bytes + 0x1_0000 * free_offsets(orders).len() == 0x1_0000 * orders.len(),
        prep.populated == populated,
        prep.need_small@.len() == orders.len() / 32,
        prep.need_small@[ci] <==> exists|u: int|
            ci * 32 <= u < ci * 32 + 32 && #[trigger] orders[u] < 9,
{
    law_units_are_collapsed_or_populated_again(orders);
}

} // verus!
