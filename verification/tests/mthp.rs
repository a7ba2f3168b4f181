use droidvm::mthp::{
    compute_lend_chunks, compute_share_chunks, folio_offsets, folio_window, pages_to_touch,
    populate_batches, round_up_2mb, CollapseCascade, LendChunk, LendPrepResult, BATCH_SIZE,
    LEND_CHUNK_SIZE, MAP_UNIT, THP_SIZE,
};

fn chunk(offset: u64, size: u64) -> LendChunk {
    LendChunk { offset, size }
}

fn prepared(need_small: Vec<bool>) -> LendPrepResult {
    LendPrepResult { need_small, large_page_bytes: 0, populated: true }
}

#[test]
fn a_region_that_fits_one_call_is_not_split() {
    assert!(compute_lend_chunks(0, None).is_empty());
    assert!(compute_lend_chunks(LEND_CHUNK_SIZE, None).is_empty());
    assert!(compute_lend_chunks(LEND_CHUNK_SIZE, Some(&prepared(vec![true; 128]))).is_empty());
}

#[test]
fn a_region_of_unknown_backing_is_cut_to_fit() {
    assert_eq!(
        compute_lend_chunks(2 * LEND_CHUNK_SIZE + 0x1000, None),
        vec![
            chunk(0, LEND_CHUNK_SIZE),
            chunk(LEND_CHUNK_SIZE, LEND_CHUNK_SIZE),
            chunk(2 * LEND_CHUNK_SIZE, 0x1000),
        ]
    );
}

#[test]
fn a_lend_never_mixes_backings() {
    let mut flags = vec![false; 130];
    flags[1] = true;
    flags[129] = true;
    let total = 130 * THP_SIZE;
    let chunks = compute_lend_chunks(total, Some(&prepared(flags.clone())));
    assert_eq!(
        chunks,
        vec![
            chunk(0, THP_SIZE),
            chunk(THP_SIZE, THP_SIZE),
            chunk(2 * THP_SIZE, 127 * THP_SIZE),
            chunk(129 * THP_SIZE, THP_SIZE),
        ]
    );
    let mut at = 0;
    for c in &chunks {
        assert_eq!(c.offset, at);
        at += c.size;
        let first = (c.offset / THP_SIZE) as usize;
        let last = ((c.offset + c.size) / THP_SIZE) as usize;
        assert!(flags[first..last].iter().all(|f| *f == flags[first]));
    }
    assert_eq!(at, total);
}

#[test]
fn a_long_run_of_one_backing_is_cut_to_fit() {
    let chunks = compute_lend_chunks(129 * THP_SIZE, Some(&prepared(vec![false; 200])));
    assert_eq!(
        chunks,
        vec![chunk(0, LEND_CHUNK_SIZE), chunk(LEND_CHUNK_SIZE, THP_SIZE)]
    );
}

#[test]
fn a_prepared_region_is_lent_to_its_last_byte() {
    let total = 130 * THP_SIZE + 0x3000;
    let mut flags = vec![false; 130];
    flags[128] = true;
    flags[129] = true;
    let chunks = compute_lend_chunks(total, Some(&prepared(flags)));
    assert_eq!(
        chunks,
        vec![
            chunk(0, LEND_CHUNK_SIZE),
            chunk(LEND_CHUNK_SIZE, 2 * THP_SIZE),
            chunk(130 * THP_SIZE, 0x3000),
        ]
    );
    assert_eq!(chunks.iter().map(|c| c.size).sum::<u64>(), total);
    let barely = compute_lend_chunks(LEND_CHUNK_SIZE + 1, Some(&prepared(vec![true; 128])));
    assert_eq!(barely, vec![chunk(0, LEND_CHUNK_SIZE), chunk(LEND_CHUNK_SIZE, 1)]);
}

#[test]
fn a_share_has_a_piece_for_each_folio() {
    assert!(compute_share_chunks(0).is_empty());
    assert_eq!(compute_share_chunks(THP_SIZE), vec![chunk(0, THP_SIZE)]);
    assert_eq!(
        compute_share_chunks(2 * THP_SIZE + 5),
        vec![chunk(0, THP_SIZE), chunk(THP_SIZE, THP_SIZE), chunk(2 * THP_SIZE, 5)]
    );
}

#[test]
fn rounding_up_to_a_folio() {
    assert_eq!(round_up_2mb(0), 0);
    assert_eq!(round_up_2mb(1), THP_SIZE);
    assert_eq!(round_up_2mb(THP_SIZE), THP_SIZE);
    assert_eq!(round_up_2mb(THP_SIZE + 1), 2 * THP_SIZE);
    let w = folio_window(0x10_0000, 0x40_0000);
    assert_eq!((w.aligned, w.head), (0x20_0000, 0x10_0000));
    assert_eq!((w.tail_start, w.tail), (0x60_0000, 0x10_0000));
    assert_eq!(folio_offsets(2 * THP_SIZE), vec![0, THP_SIZE]);
    assert_eq!(pages_to_touch(0x2fff), 2);
}

#[test]
fn memory_is_compacted_between_batches() {
    let batches = populate_batches(8 * BATCH_SIZE + 1);
    assert_eq!(batches.len(), 9);
    let compacted: Vec<usize> =
        (0..batches.len()).filter(|i| batches[*i].compact).collect();
    assert_eq!(compacted, vec![3, 7]);
    assert_eq!(batches[8].range, chunk(8 * BATCH_SIZE, 1));
    let whole = populate_batches(4 * BATCH_SIZE);
    assert_eq!(whole.len(), 4);
    assert!(!whole[3].compact);
}

#[test]
fn what_a_large_collapse_leaves_is_tried_in_smaller_ones() {
    let mut cascade = CollapseCascade::new(2 * THP_SIZE + 3 * MAP_UNIT);
    assert_eq!(cascade.unpopulated().len(), 67);
    let mut asked = Vec::new();
    while let Some(target) = cascade.next_target() {
        asked.push(target);
        // The first folio collapses; of the second only the first half does.
        let ok = target.size == THP_SIZE && target.offset == 0
            || target.size == THP_SIZE / 2 && target.offset == THP_SIZE;
        cascade.record(ok);
    }
    assert_eq!(asked[0], chunk(0, THP_SIZE));
    assert_eq!(asked[1], chunk(THP_SIZE, THP_SIZE));
    assert_eq!(asked[2], chunk(THP_SIZE, THP_SIZE / 2));
    assert_eq!(asked[3], chunk(THP_SIZE + THP_SIZE / 2, THP_SIZE / 2));
    assert_eq!(*asked.last().unwrap(), chunk(2 * THP_SIZE + 2 * MAP_UNIT, MAP_UNIT));
    assert!(asked[2..].iter().all(|c| c.offset >= THP_SIZE));
    let open = cascade.unpopulated();
    assert_eq!(open.len(), 16 + 3);
    assert_eq!(open[0], THP_SIZE + THP_SIZE / 2);
    let prep = cascade.finish(true);
    assert_eq!(prep.need_small, vec![false, true]);
    assert_eq!(prep.large_page_bytes, THP_SIZE + THP_SIZE / 2);
    assert!(prep.populated);
    assert!(!cascade.finish(false).populated);
}
