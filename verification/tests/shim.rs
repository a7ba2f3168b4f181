use droidvm::rm::Error;
use droidvm::shim::{
    fdt_total_size, message_end, say, Fault, Shim, ShimAbi, ShimHeader, ShimStatus, Step,
    READY_SPINS,
};

const ABI: ShimAbi = ShimAbi { header_magic: 11, handoff_magic: 22, version: 3, max_parcels: 4 };

fn header() -> ShimHeader {
    ShimHeader {
        magic: 11,
        version: 3,
        handoff: 0x1000,
        payload: 0x8000_0000,
        probe_exec: false,
        no_dt_rewrite: false,
    }
}

fn tree(size: u32) -> Vec<u8> {
    let mut head = 0xd00d_feedu32.to_be_bytes().to_vec();
    head.extend_from_slice(&size.to_be_bytes());
    head
}

/// A shim that is to accept its first parcel of `nparcels`.
fn accepting(header: ShimHeader, nparcels: u32) -> Shim {
    let mut shim = Shim::start(ABI, header);
    shim.on_handoff(22, 3, nparcels);
    shim.on_ready(1);
    shim.on_tree_head(&tree(0x1000));
    shim.on_tree(true);
    let mut reg = 5u64.to_be_bytes().to_vec();
    reg.extend_from_slice(&6u64.to_be_bytes());
    shim.on_reg(Some(&reg));
    assert_eq!((shim.tx, shim.rx), (5, 6));
    shim
}

fn complaint(shim: &Shim) -> String {
    assert_eq!(shim.next, Step::Dead);
    assert_eq!(shim.page.status, ShimStatus::Error);
    let end = message_end(&shim.page.msg);
    String::from_utf8(shim.page.msg[..end].to_vec()).unwrap()
}

#[test]
fn every_parcel_is_accepted_before_the_payload_runs() {
    let mut shim = accepting(header(), 2);
    assert_eq!(shim.page.status, ShimStatus::Running);
    assert_eq!(shim.next, Step::Accept(0));
    shim.on_accept(Ok(()));
    assert_eq!(shim.next, Step::Accept(1));
    shim.on_accept(Ok(()));
    assert_eq!(shim.page.status, ShimStatus::Accepted);
    assert_eq!(shim.next, Step::SetWindow);
    shim.on_window(true);
    assert_eq!(shim.next, Step::Jump(0x8000_0000));
    assert_eq!(shim.page.status, ShimStatus::Jumping);
    assert_eq!(shim.accepted, shim.nparcels);
}

#[test]
fn the_probe_and_the_tree_are_optional() {
    let mut shim = accepting(ShimHeader { probe_exec: true, ..header() }, 1);
    shim.on_accept(Ok(()));
    assert_eq!(shim.next, Step::ProbeExec);
    shim.on_probe(42);
    assert_eq!(shim.page.exec_probe, 42);
    assert_eq!(shim.next, Step::SetWindow);
    let mut shim = accepting(ShimHeader { no_dt_rewrite: true, ..header() }, 1);
    shim.on_accept(Ok(()));
    assert_eq!(shim.next, Step::Jump(0x8000_0000));
    let mut shim = Shim::start(ABI, header());
    shim.on_handoff(22, 3, 0);
    assert_eq!(shim.next, Step::Jump(0x8000_0000));
}

#[test]
fn a_header_that_is_not_ours_hangs() {
    assert_eq!(Shim::start(ABI, header()).next, Step::ReadHandoff);
    assert_eq!(Shim::start(ABI, ShimHeader { magic: 0, ..header() }).next, Step::Hang);
    assert_eq!(Shim::start(ABI, ShimHeader { version: 4, ..header() }).next, Step::Hang);
    assert_eq!(Shim::start(ABI, ShimHeader { handoff: 0, ..header() }).next, Step::Hang);
    let mut shim = Shim::start(ABI, header());
    shim.on_handoff(23, 3, 1);
    assert_eq!(shim.next, Step::Hang);
    assert_eq!(shim.page.status, ShimStatus::Absent);
}

#[test]
fn what_goes_wrong_is_written_down() {
    let mut shim = Shim::start(ABI, ShimHeader { payload: 0, ..header() });
    shim.on_handoff(22, 3, 1);
    assert_eq!(complaint(&shim), "no payload address in the header");
    let mut shim = Shim::start(ABI, header());
    shim.on_handoff(22, 3, 5);
    assert_eq!(complaint(&shim), "more parcels than the handoff page can hold");
    assert_eq!(shim.page.error, 5);
    let mut shim = Shim::start(ABI, header());
    shim.on_handoff(22, 3, 1);
    shim.spun = READY_SPINS - 1;
    shim.on_ready(0);
    assert_eq!(shim.next, Step::PollReady);
    shim.on_ready(0);
    assert_eq!(complaint(&shim), "the host never finished sharing the window");
    let mut shim = Shim::start(ABI, header());
    shim.on_handoff(22, 3, 1);
    shim.on_ready(1);
    shim.on_tree_head(&tree(0x1000));
    assert_eq!(shim.next, Step::ParseTree(0x1000));
    shim.on_tree(false);
    assert_eq!(complaint(&shim), "the device tree header did not parse");
    shim.next = Step::ReadTree;
    shim.on_tree_head(&[0; 8]);
    assert_eq!(complaint(&shim), "the device tree pointer is not a device tree");
    shim.next = Step::FindReg;
    shim.on_reg(None);
    assert_eq!(complaint(&shim), "no gunyah-resource-manager node in the device tree");
    shim.next = Step::FindReg;
    shim.on_reg(Some(&[0; 15]));
    assert_eq!(complaint(&shim), "the resource manager node's reg is too short");
    assert_eq!(shim.page.error, 15);
}

#[test]
fn a_parcel_that_is_not_accepted_is_fatal() {
    for (error, code, text) in [
        (Error::Refused(9), 9, "the resource manager refused MEM_ACCEPT"),
        (Error::Timeout, 0, "MEM_ACCEPT never got a reply"),
        (Error::Send(60), 60, "could not send MEM_ACCEPT to the resource manager"),
    ] {
        let mut shim = accepting(header(), 2);
        shim.on_accept(Err(error));
        assert_eq!(complaint(&shim), text);
        assert_eq!(shim.page.error, code);
        assert_eq!(shim.accepted, 0);
    }
    let mut shim = accepting(header(), 1);
    shim.on_accept(Ok(()));
    shim.on_window(false);
    assert_eq!(complaint(&shim), "could not point /memory at the window");
    shim.die(1, Fault::Panicked);
    assert_eq!(
        complaint(&shim),
        "shim panicked (a bounds check fired: the device tree is not what we assumed)"
    );
}

#[test]
fn a_message_is_cut_to_its_area() {
    let mut msg = vec![9; 4];
    say(&mut msg, "ab");
    assert_eq!(msg, vec![97, 98, 0, 9]);
    assert_eq!(message_end(&msg), 2);
    say(&mut msg, "abcdef");
    assert_eq!(msg, vec![97, 98, 99, 0]);
    assert_eq!(message_end(&vec![1, 2]), 2);
}

#[test]
fn the_size_of_a_tree_is_bounded() {
    assert_eq!(fdt_total_size(&tree(40)), Some(40));
    assert_eq!(fdt_total_size(&tree(39)), None);
    assert_eq!(fdt_total_size(&tree(0x80_0000)), Some(0x80_0000));
    assert_eq!(fdt_total_size(&tree(0x80_0001)), None);
    assert_eq!(fdt_total_size(&[0xd0, 0x0d, 0xfe, 0xee, 0, 0, 1, 0]), None);
}
