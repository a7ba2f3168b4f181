use droidvm::guest_mem::{MemoryRegion, MemoryRegionPurpose};
use droidvm::gunyah_dt::{create_fdt, push_hex, GunyahIrqRoute, Prop, PropValue};

fn region(guest_addr: u64, size: u64, purpose: MemoryRegionPurpose) -> MemoryRegion {
    MemoryRegion { guest_addr, size, shm: 0, shm_offset: 0, purpose }
}

fn find<'a>(props: &'a [Prop], node: &str, name: &str) -> Option<&'a PropValue> {
    props.iter().find(|p| p.node == node && p.name == name).map(|p| &p.value)
}

fn number(props: &[Prop], node: &str, name: &str) -> Option<u64> {
    match find(props, node, name) {
        Some(PropValue::U64(v)) => Some(*v),
        Some(PropValue::U32(v)) => Some(*v as u64),
        _ => None,
    }
}

fn text<'a>(props: &'a [Prop], node: &str, name: &str) -> Option<&'a str> {
    match find(props, node, name) {
        Some(PropValue::Text(s)) => Some(s),
        _ => None,
    }
}

const MEMORY: &str = "/gunyah-vm-config/memory";

#[test]
fn numbers_to_the_base_of_16() {
    for n in [0, 9, 15, 16, 0xabc_def0, u64::MAX] {
        let mut s = "x".to_owned();
        push_hex(&mut s, n);
        assert_eq!(s, format!("x{n:x}"));
    }
}

#[test]
fn the_machine_and_its_layout() {
    let regions = vec![
        region(0x8000_0000, 0x4000_0000, MemoryRegionPurpose::GuestMemoryRegion),
        region(0x7000_0000, 0x1000, MemoryRegionPurpose::StaticSwiotlbRegion),
    ];
    let props = create_fdt(&regions, &Vec::new(), 7);
    assert_eq!(text(&props, "/gunyah-vm-config", "image-name"), Some("crosvm-vm"));
    assert_eq!(text(&props, "/gunyah-vm-config", "os-type"), Some("linux"));
    assert_eq!(number(&props, MEMORY, "base-address"), Some(0x8000_0000));
    assert_eq!(number(&props, MEMORY, "size-max"), Some(0x1_c000_0000));
    assert_eq!(number(&props, MEMORY, "firmware-address"), None);
    assert_eq!(number(&props, "/gunyah-vm-config/interrupts", "config"), Some(7));
    assert_eq!(text(&props, "/gunyah-vm-config/vcpus", "affinity"), Some("proxy"));
    assert_eq!(
        text(&props, "/gunyah-vm-config/vdevices/rm-rpc", "generate"),
        Some("/hypervisor/qcom,resource-mgr")
    );
}

#[test]
fn the_firmware_bounds_the_fence() {
    let fence = "/reserved-memory/gunyah-rm-lowmem@40000000";
    let mut regions = vec![
        region(0x8000_0000, 0x1000, MemoryRegionPurpose::GuestMemoryRegion),
        region(0x7fc0_0000, 0x1000, MemoryRegionPurpose::ProtectedFirmwareRegion),
    ];
    let props = create_fdt(&regions, &Vec::new(), 1);
    assert_eq!(number(&props, MEMORY, "firmware-address"), Some(0x7fc0_0000));
    assert!(matches!(
        find(&props, fence, "reg"),
        Some(PropValue::Pair(0x4000_0000, 0x3fc0_0000))
    ));
    assert!(matches!(find(&props, fence, "no-map"), Some(PropValue::Empty)));
    regions.pop();
    let props = create_fdt(&regions, &Vec::new(), 1);
    assert!(matches!(
        find(&props, fence, "reg"),
        Some(PropValue::Pair(0x4000_0000, 0x4000_0000))
    ));
    regions[0].guest_addr = 0x4000_0000;
    let props = create_fdt(&regions, &Vec::new(), 1);
    assert!(find(&props, fence, "reg").is_none());
    assert!(find(&props, "/reserved-memory", "ranges").is_none());
}

#[test]
fn a_doorbell_for_each_interrupt() {
    let regions = vec![region(0x8000_0000, 0x1000, MemoryRegionPurpose::GuestMemoryRegion)];
    let routes = vec![
        GunyahIrqRoute { irq: 0x2a, level: true },
        GunyahIrqRoute { irq: 3, level: false },
    ];
    let props = create_fdt(&regions, &routes, 1);
    let bell = "/gunyah-vm-config/vdevices/bell-2a";
    assert_eq!(text(&props, bell, "vdevice-type"), Some("doorbell"));
    assert_eq!(text(&props, bell, "generate"), Some("/hypervisor/bell-2a"));
    assert_eq!(number(&props, bell, "label"), Some(0x2a));
    assert!(matches!(find(&props, bell, "interrupts"), Some(PropValue::Cells(0, 0x2a, 4))));
    let bell = "/gunyah-vm-config/vdevices/bell-3";
    assert!(matches!(find(&props, bell, "interrupts"), Some(PropValue::Cells(0, 3, 1))));
}

#[test]
fn shared_regions_are_declared() {
    let regions = vec![
        region(0x8000_0000, 0x1000, MemoryRegionPurpose::GuestMemoryRegion),
        region(0x9000_0000, 0x1000, MemoryRegionPurpose::StaticSwiotlbRegion),
        region(0xa000_0000, 0x1000, MemoryRegionPurpose::SharedGuestRam),
        region(0xb000_0000, 0x1000, MemoryRegionPurpose::MediaPool),
    ];
    let props = create_fdt(&regions, &Vec::new(), 1);
    let base = |i| number(&props, &format!("/gunyah-vm-config/vdevices/shm-{i}/memory"), "base");
    assert_eq!(base(0), None);
    assert_eq!(base(1), Some(0x9000_0000));
    assert_eq!(base(2), None);
    assert_eq!(base(3), Some(0xb000_0000));
    let memory = "/gunyah-vm-config/vdevices/shm-3/memory";
    assert_eq!(number(&props, memory, "label"), Some(3));
}
