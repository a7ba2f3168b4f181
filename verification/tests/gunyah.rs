use droidvm::guest_mem::{GuestMemory, MemoryRegion, MemoryRegionPurpose};
use droidvm::gunyah::{
    check_entry, check_window, datamatch, init_arch, lend_instead, lend_region, lends,
    mapping_errno, msync_errno, on_boot_pc, region_size, share_label, vcpu_exit,
    window_and_handoff, window_parcels, Datamatch, InitError, InitPlan, LendMthpMode, LendPiece,
    MmapError, Parcel, RunExit, ShimNews, ShimWatch, Slots, StatusAbi, VcpuExit,
};
use droidvm::mthp::{LendPrepResult, THP_SIZE};

fn region(guest_addr: u64, size: u64, purpose: MemoryRegionPurpose) -> MemoryRegion {
    MemoryRegion { guest_addr, size, shm: 0, shm_offset: 0, purpose }
}

fn memory(regions: Vec<MemoryRegion>) -> GuestMemory {
    GuestMemory { regions, protected: true }
}

#[test]
fn memory_that_is_given_away() {
    assert!(lends(MemoryRegionPurpose::GuestMemoryRegion, true));
    assert!(!lends(MemoryRegionPurpose::GuestMemoryRegion, false));
    assert!(!lends(MemoryRegionPurpose::StaticSwiotlbRegion, true));
    assert!(!lends(MemoryRegionPurpose::SharedGuestRam, true));
}

#[test]
fn a_region_is_lent_in_pieces_of_its_own_slots() {
    let piece = |slot, offset, size| LendPiece { slot, offset, size };
    let whole = 130 * THP_SIZE;
    let mut need_small = vec![false; 130];
    need_small[129] = true;
    let prep = LendPrepResult { need_small, large_page_bytes: 0, populated: true };
    assert_eq!(lend_region(2, whole, None, 5), (vec![piece(2, 0, whole)], 5));
    assert_eq!(
        lend_region(2, whole, Some((LendMthpMode::Single, &prep)), 5),
        (vec![piece(2, 0, whole)], 5)
    );
    assert_eq!(
        lend_region(2, whole, Some((LendMthpMode::Chunked, &prep)), 5),
        (
            vec![
                piece(2, 0, 128 * THP_SIZE),
                piece(5, 128 * THP_SIZE, THP_SIZE),
                piece(6, 129 * THP_SIZE, THP_SIZE),
            ],
            7
        )
    );
    assert_eq!(
        lend_region(2, THP_SIZE, Some((LendMthpMode::Chunked, &prep)), 5),
        (vec![piece(2, 0, THP_SIZE)], 5)
    );
    // What is left behind the last whole folio has a slot too.
    assert_eq!(
        lend_region(2, 129 * THP_SIZE + 0x1000, Some((LendMthpMode::Chunked, &prep)), 5),
        (
            vec![
                piece(2, 0, 128 * THP_SIZE),
                piece(5, 128 * THP_SIZE, THP_SIZE),
                piece(6, 129 * THP_SIZE, 0x1000),
            ],
            7
        )
    );
}

#[test]
fn parcels_cover_the_window() {
    let parcel = |offset, size| Parcel { offset, size };
    assert_eq!(window_parcels(0x50_0000, None, 4), Ok(vec![parcel(0, 0x50_0000)]));
    assert_eq!(window_parcels(0x50_0000, Some(0), 4), Ok(vec![parcel(0, 0x50_0000)]));
    // A megabyte and a half is rounded up to whole folios.
    assert_eq!(
        window_parcels(0x50_0000, Some(1), 4),
        Ok(vec![
            parcel(0, 0x20_0000),
            parcel(0x20_0000, 0x20_0000),
            parcel(0x40_0000, 0x10_0000),
        ])
    );
    assert_eq!(window_parcels(0x50_0000, Some(1), 2), Err(22));
    assert_eq!(window_parcels(0x50_0000, Some(99), 4), Ok(vec![parcel(0, 0x50_0000)]));
    // So many mebibytes that no bit of them is left.
    assert_eq!(window_parcels(0x50_0000, Some(1 << 44), 4), Ok(vec![parcel(0, 0x50_0000)]));
    assert_eq!(window_parcels(u64::MAX, None, 1), Ok(vec![parcel(0, u64::MAX)]));
}

#[test]
fn slots_are_used_again() {
    let mut s = Slots::new(10);
    assert_eq!(s.begin(), 10);
    s.on_filled(0x1000);
    assert_eq!(s.begin(), 11);
    s.on_filled(0x2000);
    assert_eq!(s.begin(), 12);
    s.on_not_filled();
    assert_eq!(s.find(10), Some(0x1000));
    assert_eq!(s.find(12), None);
    assert_eq!(s.remove(12), Err(2));
    assert_eq!(s.remove(10), Ok(0x1000));
    assert_eq!(s.remove(10), Err(2));
    // The lowest one that is free.
    assert_eq!(s.begin(), 10);
    s.on_filled(0x3000);
    assert_eq!(s.begin(), 12);
    s.on_filled(0x4000);
    assert_eq!(s.begin(), 13);
    assert_eq!(s.find(11), Some(0x2000));
}

#[test]
fn a_new_region_has_a_place_of_its_own() {
    let mem = memory(vec![region(0x10_0000, 0x1000, MemoryRegionPurpose::GuestMemoryRegion)]);
    assert_eq!(region_size(&mem, 0x20_0000, 0x1001, 0x1000), Ok(0x2000));
    assert_eq!(region_size(&mem, 0xf_f000, 0x1000, 0x1000), Ok(0x1000));
    assert_eq!(region_size(&mem, 0xf_f000, 0x1001, 0x1000), Err(28));
    assert_eq!(region_size(&mem, 0x10_0fff, 1, 1), Err(28));
    assert_eq!(region_size(&mem, u64::MAX - 0xfff, 0x1001, 0x1000), Err(75));
    assert!(lend_instead(17));
    assert!(!lend_instead(22));
    assert_eq!(share_label(0x1_2345_6789), 0x12_3456);
}

#[test]
fn the_window_and_the_page_that_goes_with_it() {
    let mut mem = memory(vec![
        region(0, 0x1000, MemoryRegionPurpose::GuestMemoryRegion),
        region(0x1000, 0x1000, MemoryRegionPurpose::ShimHandoff),
        region(0x2000, 0x1000, MemoryRegionPurpose::SharedGuestRam),
    ]);
    assert_eq!(window_and_handoff(&mem), Ok((2, 1)));
    mem.regions.pop();
    assert_eq!(window_and_handoff(&mem), Err(22));
    assert_eq!(check_window(true, true), Ok(()));
    assert_eq!(check_window(false, true), Err(12));
    assert_eq!(check_window(true, false), Err(12));
}

#[test]
fn the_payload_and_the_tree_lie_together() {
    let mem = memory(vec![
        region(0x1000, 0x1000, MemoryRegionPurpose::GuestMemoryRegion),
        region(0x4000, 0x1000, MemoryRegionPurpose::GuestMemoryRegion),
    ]);
    assert_eq!(
        init_arch(&mem, 0x1000, 0x1800, true),
        Ok(InitPlan { authenticate: Some(0x1000), payload_offset: 0 })
    );
    let plan = InitPlan { authenticate: None, payload_offset: 0x10 };
    assert_eq!(init_arch(&mem, 0x1010, 0x1800, true), Ok(plan));
    assert_eq!(init_arch(&mem, 0x1000, 0x4000, true), Err(InitError::Apart));
    assert_eq!(init_arch(&mem, 0x1000, 0x3000, true), Err(InitError::NoRegion));
    assert_eq!(check_entry(&plan, true, false), Err(InitError::Offset));
    assert_eq!(check_entry(&plan, false, false), Ok(()));
    assert_eq!(check_entry(&plan, true, true), Ok(()));
    assert_eq!(on_boot_pc(&plan, None), Ok(()));
    assert_eq!(on_boot_pc(&plan, Some(5)), Err(InitError::Failed(5)));
    assert_eq!(on_boot_pc(&plan, Some(25)), Err(InitError::Offset));
    let at_start = InitPlan { authenticate: None, payload_offset: 0 };
    assert_eq!(on_boot_pc(&at_start, Some(25)), Ok(()));
}

#[test]
fn what_a_doorbell_matches() {
    assert_eq!(datamatch(Datamatch::AnyLength), (false, 0, 0));
    assert_eq!(datamatch(Datamatch::U8(Some(7))), (true, 7, 1));
    assert_eq!(datamatch(Datamatch::U16(None)), (false, 0, 2));
    assert_eq!(datamatch(Datamatch::U32(Some(9))), (true, 9, 4));
    assert_eq!(datamatch(Datamatch::U64(Some(u64::MAX))), (true, u64::MAX, 8));
}

#[test]
fn why_a_virtual_processor_stopped() {
    assert_eq!(vcpu_exit(RunExit::Mmio), Ok(VcpuExit::Mmio));
    assert_eq!(vcpu_exit(RunExit::LoadFailed), Ok(VcpuExit::FailEntry));
    assert_eq!(vcpu_exit(RunExit::Crashed), Ok(VcpuExit::SystemEventCrash));
    for (reason, exit) in [
        (0, VcpuExit::SystemEventShutdown),
        (1, VcpuExit::SystemEventShutdown),
        (2, VcpuExit::SystemEventReset),
        (3, VcpuExit::SystemEventReset),
        (4, VcpuExit::SystemEventCrash),
        (5, VcpuExit::SystemEventCrash),
        (6, VcpuExit::SystemEventCrash),
        (7, VcpuExit::SystemEventShutdown),
    ] {
        assert_eq!(vcpu_exit(RunExit::Exited(reason)), Ok(exit));
    }
    assert_eq!(vcpu_exit(RunExit::Exited(8)), Err(22));
    assert_eq!(vcpu_exit(RunExit::UnknownStatus), Err(22));
    assert_eq!(vcpu_exit(RunExit::Unknown), Err(22));
    assert_eq!(vcpu_exit(RunExit::PageFault { attempt: -14 }), Err(14));
}

#[test]
fn errors_of_a_mapping() {
    assert_eq!(msync_errno(MmapError::InvalidAddress), 14);
    assert_eq!(msync_errno(MmapError::NotPageAligned), 22);
    assert_eq!(msync_errno(MmapError::SystemCallFailed(9)), 9);
    assert_eq!(msync_errno(MmapError::Other), 5);
    assert_eq!(mapping_errno(MmapError::SystemCallFailed(9)), 9);
    assert_eq!(mapping_errno(MmapError::InvalidAddress), 5);
}

#[test]
fn news_of_the_shim() {
    let abi = StatusAbi { running: 1, accepted: 2, tree_done: 3, jumping: 4, error: 0x80 };
    let mut w = ShimWatch::new();
    assert!(w.never_ran());
    assert_eq!(w.on_status(&abi, 0), ShimNews::Nothing);
    assert_eq!(w.on_status(&abi, 1), ShimNews::Running);
    assert_eq!(w.on_status(&abi, 1), ShimNews::Nothing);
    assert!(!w.never_ran());
    assert_eq!(w.on_status(&abi, 2), ShimNews::Accepted);
    assert_eq!(w.on_status(&abi, 3), ShimNews::TreeDone);
    assert_eq!(w.on_status(&abi, 4), ShimNews::Jumping);
    assert_eq!(w.on_status(&abi, 0x81), ShimNews::GaveUp);
    assert_eq!(w.on_status(&abi, 77), ShimNews::Other(77));
}
