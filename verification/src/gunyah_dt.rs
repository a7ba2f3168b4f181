//! The device tree by which a machine is described to the resource manager.
//!
//! What is to be set is a list of properties, in order; a node is there once one of its
//! properties is.
use crate::codec;
use crate::guest_mem::MemoryRegion;
use crate::guest_mem::MemoryRegionPurpose;
use vstd::prelude::*;

verus! {

/// A gibibyte.
pub const GIB: u64 = 0x4000_0000;

/// What the platform's own devices take above the memory.
pub const PLAT_MMIO_SIZE: u64 = 0x80_0000;

/// What a device's window is a multiple of, and how large it is at least.
pub const BAR_TARGET: u64 = 0x1_0000_0000;

/// What the window takes beyond that.
pub const WINDOW_TAIL: u64 = 0x2000_0000;

/// The lowest address of memory that the resource manager adds by itself.
pub const LOWMEM_FLOOR: u64 = 0x4000_0000;

/// A shared interrupt.
pub const GIC_FDT_IRQ_TYPE_SPI: u32 = 0;

pub const IRQ_TYPE_EDGE_RISING: u32 = 1;

pub const IRQ_TYPE_LEVEL_HIGH: u32 = 4;

/// A value of a property.
pub enum PropValue {
    Empty,
    Text(String),
    U32(u32),
    U64(u64),
    /// Three cells.
    Cells(u32, u32, u32),
    /// Two wide cells.
    Pair(u64, u64),
}

/// A value of a property, as a value.
pub enum ValueView {
    Empty,
    Text(Seq<char>),
    U32(u32),
    U64(u64),
    Cells(u32, u32, u32),
    Pair(u64, u64),
}

impl View for PropValue {
    type V = ValueView;

    open spec fn view(&self) -> ValueView {
        match *self {
            PropValue::Empty => ValueView::Empty,
            PropValue::Text(s) => ValueView::Text(s@),
            PropValue::U32(v) => ValueView::U32(v),
            PropValue::U64(v) => ValueView::U64(v),
            PropValue::Cells(a, b, c) => ValueView::Cells(a, b, c),
            PropValue::Pair(a, b) => ValueView::Pair(a, b),
        }
    }
}

/// A property of a node, which is given by its path.
pub struct Prop {
    pub node: String,
    pub name: String,
    pub value: PropValue,
}

/// A property as a value.
pub struct PropView {
    pub node: Seq<char>,
    pub name: Seq<char>,
    pub value: ValueView,
}

impl View for Prop {
    type V = PropView;

    open spec fn view(&self) -> PropView {
        PropView { node: self.node@, name: self.name@, value: self.value@ }
    }
}

/// A digit of a number to the base of 16.
pub open spec fn hex_digit(d: int) -> Seq<char> {
    if d == 0 {
        "0"@
    } else if d == 1 {
        "1"@
    } else if d == 2 {
        "2"@
    } else if d == 3 {
        "3"@
    } else if d == 4 {
        "4"@
    } else if d == 5 {
        "5"@
    } else if d == 6 {
        "6"@
    } else if d == 7 {
        "7"@
    } else if d == 8 {
        "8"@
    } else if d == 9 {
        "9"@
    } else if d == 10 {
        "a"@
    } else if d == 11 {
        "b"@
    } else if d == 12 {
        "c"@
    } else if d == 13 {
        "d"@
    } else if d == 14 {
        "e"@
    } else {
        "f"@
    }
}

/// A number to the base of 16, without leading zeros.
pub open spec fn hex_of(n: int) -> Seq<char>
    decreases n,
{
    if n < 16 {
        hex_digit(n)
    } else {
        hex_of(n / 16) + hex_digit(n % 16)
    }
}

fn digit(d: u64) -> (s: &'static str)
    requires
        d < 16,
    ensures
        s@ == hex_digit(d as int),
{
    if d == 0 {
        "0"
    } else if d == 1 {
        "1"
    } else if d == 2 {
        "2"
    } else if d == 3 {
        "3"
    } else if d == 4 {
        "4"
    } else if d == 5 {
        "5"
    } else if d == 6 {
        "6"
    } else if d == 7 {
        "7"
    } else if d == 8 {
        "8"
    } else if d == 9 {
        "9"
    } else if d == 10 {
        "a"
    } else if d == 11 {
        "b"
    } else if d == 12 {
        "c"
    } else if d == 13 {
        "d"
    } else if d == 14 {
        "e"
    } else {
        "f"
    }
}

/// Appends a number to the base of 16.
pub fn push_hex(out: &mut String, n: u64)
    ensures
        final(out)@ == old(out)@ + hex_of(n as int),
    decreases n,
{
    if n >= 16 {
        push_hex(out, n / 16);
    }
    out.append(digit(n % 16));
    assert(out@ =~= old(out)@ + hex_of(n as int));
}

/// An interrupt of the machine's.
#[derive(Clone, Copy, Debug, PartialEq, Eq, Structural)]
pub struct GunyahIrqRoute {
    pub irq: u32,
    pub level: bool,
}

/// The next multiple of `m`, `n` itself where it is one.
pub open spec fn next_multiple(n: int, m: int) -> int {
    if n % m == 0 {
        n
    } else {
        n + m - n % m
    }
}

fn multiple_after(n: u64, m: u64) -> (r: u64)
    requires
        0 < m,
        n + m <= u64::MAX,
    ensures
        r == next_multiple(n as int, m as int),
        n <= r < n + m,
{
    let rest: u64 = n % m;
    if rest == 0 {
        n
    } else {
        n + (m - rest)
    }
}

/// Where the first `n` regions end.
pub open spec fn top_of(regions: Seq<MemoryRegion>, n: int) -> int
    decreases n,
{
    if n <= 0 {
        0
    } else {
        codec::max_int(
            top_of(regions, n - 1),
            regions[n - 1].guest_addr + regions[n - 1].size,
        )
    }
}

/// Where the first of the first `n` regions for a purpose begins.
pub open spec fn first_for(
    regions: Seq<MemoryRegion>,
    purpose: MemoryRegionPurpose,
    n: int,
) -> Option<u64>
    decreases n,
{
    if n <= 0 {
        None
    } else {
        match first_for(regions, purpose, n - 1) {
            Some(a) => Some(a),
            None => if regions[n - 1].purpose == purpose {
                Some(regions[n - 1].guest_addr)
            } else {
                None
            },
        }
    }
}

/// Where the window for devices above the memory ends.
pub open spec fn window_top(ram_top: int) -> int {
    next_multiple(ram_top + PLAT_MMIO_SIZE, BAR_TARGET as int) + BAR_TARGET + WINDOW_TAIL
}

/// Where the machine's addresses begin: at the payload, which is where it is looked for.
pub open spec fn base_of(regions: Seq<MemoryRegion>) -> u64 {
    match first_for(regions, MemoryRegionPurpose::GuestMemoryRegion, regions.len() as int) {
        Some(a) => a,
        None => 0,
    }
}

/// How far they reach: over the memory and the window above it.
pub open spec fn size_max_of(regions: Seq<MemoryRegion>) -> int {
    codec::max_int(
        next_multiple(
            window_top(top_of(regions, regions.len() as int)) - base_of(regions),
            GIB as int,
        ),
        4 * GIB,
    )
}

/// Where the firmware is.
pub open spec fn firmware_of(regions: Seq<MemoryRegion>) -> Option<u64> {
    first_for(regions, MemoryRegionPurpose::ProtectedFirmwareRegion, regions.len() as int)
}

/// Whether a region is declared, so that it is shared before the machine starts: what the host
/// and the guest use together.
pub open spec fn is_declared(purpose: MemoryRegionPurpose) -> bool {
    match purpose {
        MemoryRegionPurpose::Bios => false,
        MemoryRegionPurpose::GuestMemoryRegion => false,
        MemoryRegionPurpose::ProtectedFirmwareRegion => false,
        MemoryRegionPurpose::ReservedMemory => false,
        MemoryRegionPurpose::SharedGuestRam => false,
        _ => true,
    }
}

fn declared(purpose: MemoryRegionPurpose) -> (b: bool)
    ensures
        b == is_declared(purpose),
{
    match purpose {
        MemoryRegionPurpose::Bios
        | MemoryRegionPurpose::GuestMemoryRegion
        | MemoryRegionPurpose::ProtectedFirmwareRegion
        | MemoryRegionPurpose::ReservedMemory
        | MemoryRegionPurpose::SharedGuestRam => false,
        _ => true,
    }
}

pub open spec fn prop(node: Seq<char>, name: Seq<char>, value: ValueView) -> PropView {
    PropView { node, name, value }
}

/// What stands first: the machine, and the cells of its memory.
pub open spec fn head_props() -> Seq<PropView> {
    seq![
        prop("/gunyah-vm-config"@, "image-name"@, ValueView::Text("crosvm-vm"@)),
        prop("/gunyah-vm-config"@, "os-type"@, ValueView::Text("linux"@)),
        prop("/gunyah-vm-config/memory"@, "#address-cells"@, ValueView::U32(2)),
        prop("/gunyah-vm-config/memory"@, "#size-cells"@, ValueView::U32(2)),
    ]
}

/// The firmware, where there is one.
pub open spec fn firmware_props(firmware: Option<u64>) -> Seq<PropView> {
    match firmware {
        Some(a) => seq![
            prop("/gunyah-vm-config/memory"@, "firmware-address"@, ValueView::U64(a)),
        ],
        None => Seq::empty(),
    }
}

/// The machine's addresses, and what else there is one of.
pub open spec fn layout_props(base: u64, size_max: u64, intc: u32) -> Seq<PropView> {
    seq![
        prop("/gunyah-vm-config/memory"@, "base-address"@, ValueView::U64(base)),
        prop("/gunyah-vm-config/memory"@, "size-max"@, ValueView::U64(size_max)),
        prop("/gunyah-vm-config/interrupts"@, "config"@, ValueView::U32(intc)),
        prop("/gunyah-vm-config/vcpus"@, "affinity"@, ValueView::Text("proxy"@)),
        prop("/gunyah-vm-config/vdevices"@, "generate"@, ValueView::Text("/hypervisor"@)),
    ]
}

/// A doorbell for an interrupt.
pub open spec fn bell_props(route: GunyahIrqRoute) -> Seq<PropView> {
    let name = "bell-"@ + hex_of(route.irq as int);
    let node = "/gunyah-vm-config/vdevices/"@ + name;
    seq![
        prop(node, "vdevice-type"@, ValueView::Text("doorbell"@)),
        prop(node, "generate"@, ValueView::Text("/hypervisor/"@ + name)),
        prop(node, "label"@, ValueView::U32(route.irq)),
        prop(node, "peer-default"@, ValueView::Empty),
        prop(node, "source-can-clear"@, ValueView::Empty),
        prop(
            node,
            "interrupts"@,
            ValueView::Cells(
                GIC_FDT_IRQ_TYPE_SPI,
                route.irq,
                if route.level {
                    IRQ_TYPE_LEVEL_HIGH
                } else {
                    IRQ_TYPE_EDGE_RISING
                },
            ),
        ),
    ]
}

/// Doorbells for the first `n` interrupts.
pub open spec fn bells_props(routes: Seq<GunyahIrqRoute>, n: int) -> Seq<PropView>
    decreases n,
{
    if n <= 0 {
        Seq::empty()
    } else {
        bells_props(routes, n - 1) + bell_props(routes[n - 1])
    }
}

/// The guest's way to the resource manager.
pub open spec fn rm_props() -> Seq<PropView> {
    let node = "/gunyah-vm-config/vdevices/rm-rpc"@;
    seq![
        prop(node, "vdevice-type"@, ValueView::Text("rm-rpc"@)),
        prop(node, "generate"@, ValueView::Text("/hypervisor/qcom,resource-mgr"@)),
        prop(node, "message-size"@, ValueView::U32(0xf0)),
        prop(node, "queue-depth"@, ValueView::U32(8)),
    ]
}

/// A region that is shared before the machine starts.
pub open spec fn shm_props(index: u32, guest_addr: u64) -> Seq<PropView> {
    let node = "/gunyah-vm-config/vdevices/shm-"@ + hex_of(index as int);
    let memory = node + "/memory"@;
    seq![
        prop(node, "vdevice-type"@, ValueView::Text("shm"@)),
        prop(node, "peer-default"@, ValueView::Empty),
        prop(node, "dma_base"@, ValueView::U64(0)),
        prop(memory, "optional"@, ValueView::Empty),
        prop(memory, "label"@, ValueView::U32(index)),
        prop(memory, "#address-cells"@, ValueView::U32(2)),
        prop(memory, "base"@, ValueView::U64(guest_addr)),
    ]
}

/// Those among the first `n` regions.
pub open spec fn shms_props(regions: Seq<MemoryRegion>, n: int) -> Seq<PropView>
    decreases n,
{
    if n <= 0 {
        Seq::empty()
    } else if is_declared(regions[n - 1].purpose) {
        shms_props(regions, n - 1) + shm_props((n - 1) as u32, regions[n - 1].guest_addr)
    } else {
        shms_props(regions, n - 1)
    }
}

/// What keeps the guest off the memory that the resource manager adds below its own: code cannot
/// run there. It reaches up to the lowest address that the guest was given.
pub open spec fn fence_props(top: u64) -> Seq<PropView> {
    if top > LOWMEM_FLOOR {
        let node = "/reserved-memory"@;
        let fence = "/reserved-memory/gunyah-rm-lowmem@"@ + hex_of(LOWMEM_FLOOR as int);
        seq![
            prop(node, "#address-cells"@, ValueView::U32(2)),
            prop(node, "#size-cells"@, ValueView::U32(2)),
            prop(node, "ranges"@, ValueView::Empty),
            prop(fence, "reg"@, ValueView::Pair(LOWMEM_FLOOR, (top - LOWMEM_FLOOR) as u64)),
            prop(fence, "no-map"@, ValueView::Empty),
        ]
    } else {
        Seq::empty()
    }
}

/// Where the fence ends.
pub open spec fn fence_top(regions: Seq<MemoryRegion>) -> u64 {
    match firmware_of(regions) {
        Some(a) => a,
        None => base_of(regions),
    }
}

/// All that is set for a machine.
pub open spec fn fdt_of(
    regions: Seq<MemoryRegion>,
    routes: Seq<GunyahIrqRoute>,
    intc: u32,
) -> Seq<PropView> {
    head_props() + firmware_props(firmware_of(regions)) + layout_props(
        base_of(regions),
        size_max_of(regions) as u64,
        intc,
    ) + bells_props(routes, routes.len() as int) + rm_props() + shms_props(
        regions,
        regions.len() as int,
    ) + fence_props(fence_top(regions))
}

/// Properties as values.
pub open spec fn shown(props: Seq<Prop>) -> Seq<PropView> {
    props.map_values(|p: Prop| p@)
}

fn put(props: &mut Vec<Prop>, node: &str, name: &str, value: PropValue)
    ensures
        shown(final(props)@) == shown(old(props)@).push(prop(node@, name@, value@)),
{
    props.push(Prop { node: node.to_owned(), name: name.to_owned(), value });
    assert(shown(props@) =~= shown(old(props)@).push(prop(node@, name@, value@)));
}

fn put_text(props: &mut Vec<Prop>, node: &str, name: &str, value: &str)
    ensures
        shown(final(props)@) == shown(old(props)@).push(
            prop(node@, name@, ValueView::Text(value@)),
        ),
{
    put(props, node, name, PropValue::Text(value.to_owned()));
}

fn put_head(props: &mut Vec<Prop>)
    ensures
        shown(final(props)@) == shown(old(props)@) + head_props(),
{
    put_text(props, "/gunyah-vm-config", "image-name", "crosvm-vm");
    put_text(props, "/gunyah-vm-config", "os-type", "linux");
    put(props, "/gunyah-vm-config/memory", "#address-cells", PropValue::U32(2));
    put(props, "/gunyah-vm-config/memory", "#size-cells", PropValue::U32(2));
    assert(shown(props@) =~= shown(old(props)@) + head_props());
}

fn put_layout(props: &mut Vec<Prop>, firmware: Option<u64>, base: u64, size_max: u64, intc: u32)
    ensures
        shown(final(props)@) == shown(old(props)@) + firmware_props(firmware) + layout_props(
            base,
            size_max,
            intc,
        ),
{
    if let Some(a) = firmware {
        put(props, "/gunyah-vm-config/memory", "firmware-address", PropValue::U64(a));
    }
    assert(shown(props@) =~= shown(old(props)@) + firmware_props(firmware));
    let ghost before = shown(props@);
    put(props, "/gunyah-vm-config/memory", "base-address", PropValue::U64(base));
    put(props, "/gunyah-vm-config/memory", "size-max", PropValue::U64(size_max));
    put(props, "/gunyah-vm-config/interrupts", "config", PropValue::U32(intc));
    put_text(props, "/gunyah-vm-config/vcpus", "affinity", "proxy");
    put_text(props, "/gunyah-vm-config/vdevices", "generate", "/hypervisor");
    assert(shown(props@) =~= before + layout_props(base, size_max, intc));
}

fn put_bell(props: &mut Vec<Prop>, route: &GunyahIrqRoute)
    ensures
        shown(final(props)@) == shown(old(props)@) + bell_props(*route),
{
    let mut name: String = "bell-".to_owned();
    push_hex(&mut name, route.irq as u64);
    let mut node: String = "/gunyah-vm-config/vdevices/".to_owned();
    node.append(name.as_str());
    let mut generate: String = "/hypervisor/".to_owned();
    generate.append(name.as_str());
    let at: &str = node.as_str();
    put_text(props, at, "vdevice-type", "doorbell");
    put(props, at, "generate", PropValue::Text(generate));
    put(props, at, "label", PropValue::U32(route.irq));
    put(props, at, "peer-default", PropValue::Empty);
    put(props, at, "source-can-clear", PropValue::Empty);
    let kind: u32 = if route.level {
        IRQ_TYPE_LEVEL_HIGH
    } else {
        IRQ_TYPE_EDGE_RISING
    };
    put(props, at, "interrupts", PropValue::Cells(GIC_FDT_IRQ_TYPE_SPI, route.irq, kind));
    assert(shown(props@) =~= shown(old(props)@) + bell_props(*route));
}

fn put_bells(props: &mut Vec<Prop>, routes: &Vec<GunyahIrqRoute>)
    ensures
        shown(final(props)@) == shown(old(props)@) + bells_props(routes@, routes@.len() as int),
{
    let mut i: usize = 0;
    assert(shown(props@) =~= shown(old(props)@) + bells_props(routes@, 0));
    while i < routes.len()
        invariant
            i <= routes@.len(),
            shown(props@) == shown(old(props)@) + bells_props(routes@, i as int),
        decreases routes@.len() - i,
    {
        put_bell(props, &routes[i]);
        i = i + 1;
        assert(shown(props@) =~= shown(old(props)@) + bells_props(routes@, i as int));
    }
}

fn put_rm(props: &mut Vec<Prop>)
    ensures
        shown(final(props)@) == shown(old(props)@) + rm_props(),
{
    let at: &str = "/gunyah-vm-config/vdevices/rm-rpc";
    put_text(props, at, "vdevice-type", "rm-rpc");
    put_text(props, at, "generate", "/hypervisor/qcom,resource-mgr");
    put(props, at, "message-size", PropValue::U32(0xf0));
    put(props, at, "queue-depth", PropValue::U32(8));
    assert(shown(props@) =~= shown(old(props)@) + rm_props());
}

/// Declares a region that is shared before the machine starts.
fn put_shm(props: &mut Vec<Prop>, index: u32, guest_addr: u64)
    ensures
        shown(final(props)@) == shown(old(props)@) + shm_props(index, guest_addr),
{
    let mut node: String = "/gunyah-vm-config/vdevices/shm-".to_owned();
    push_hex(&mut node, index as u64);
    let mut memory: String = node.clone();
    memory.append("/memory");
    let at: &str = node.as_str();
    let in_it: &str = memory.as_str();
    put_text(props, at, "vdevice-type", "shm");
    put(props, at, "peer-default", PropValue::Empty);
    put(props, at, "dma_base", PropValue::U64(0));
    put(props, in_it, "optional", PropValue::Empty);
    put(props, in_it, "label", PropValue::U32(index));
    put(props, in_it, "#address-cells", PropValue::U32(2));
    put(props, in_it, "base", PropValue::U64(guest_addr));
    assert(shown(props@) =~= shown(old(props)@) + shm_props(index, guest_addr));
}

fn put_shms(props: &mut Vec<Prop>, regions: &Vec<MemoryRegion>)
    requires
        regions@.len() <= u32::MAX,
    ensures
        shown(final(props)@) == shown(old(props)@) + shms_props(regions@, regions@.len() as int),
{
    let mut i: usize = 0;
    assert(shown(props@) =~= shown(old(props)@) + shms_props(regions@, 0));
    while i < regions.len()
        invariant
            i <= regions@.len() <= u32::MAX,
            shown(props@) == shown(old(props)@) + shms_props(regions@, i as int),
        decreases regions@.len() - i,
    {
        if declared(regions[i].purpose) {
            put_shm(props, i as u32, regions[i].guest_addr);
        }
        i = i + 1;
        assert(shown(props@) =~= shown(old(props)@) + shms_props(regions@, i as int));
    }
}

fn put_fence(props: &mut Vec<Prop>, top: u64)
    ensures
        shown(final(props)@) == shown(old(props)@) + fence_props(top),
{
    if top > LOWMEM_FLOOR {
        let at: &str = "/reserved-memory";
        let mut node: String = "/reserved-memory/gunyah-rm-lowmem@".to_owned();
        push_hex(&mut node, LOWMEM_FLOOR);
        let fence: &str = node.as_str();
        put(props, at, "#address-cells", PropValue::U32(2));
        put(props, at, "#size-cells", PropValue::U32(2));
        put(props, at, "ranges", PropValue::Empty);
        put(props, fence, "reg", PropValue::Pair(LOWMEM_FLOOR, top - LOWMEM_FLOOR));
        put(props, fence, "no-map", PropValue::Empty);
    }
    assert(shown(props@) =~= shown(old(props)@) + fence_props(top));
}

/// What is read off the regions.
struct Reach {
    ram_top: u64,
    base: Option<u64>,
    firmware: Option<u64>,
}

fn reach(regions: &Vec<MemoryRegion>) -> (r: Reach)
    requires
        forall|i: int| 0 <= i < regions@.len() ==> (#[trigger] regions@[i]).wf(),
    ensures
        r.ram_top == top_of(regions@, regions@.len() as int),
        r.base == first_for(
            regions@,
            MemoryRegionPurpose::GuestMemoryRegion,
            regions@.len() as int,
        ),
        r.firmware == firmware_of(regions@),
        r.base is Some ==> r.base->0 <= r.ram_top,
{
    let mut ram_top: u64 = 0;
    let mut base: Option<u64> = None;
    let mut firmware: Option<u64> = None;
    let mut i: usize = 0;
    while i < regions.len()
        invariant
            i <= regions@.len(),
            forall|j: int| 0 <= j < regions@.len() ==> (#[trigger] regions@[j]).wf(),
            ram_top == top_of(regions@, i as int),
            base == first_for(regions@, MemoryRegionPurpose::GuestMemoryRegion, i as int),
            firmware == first_for(
                regions@,
                MemoryRegionPurpose::ProtectedFirmwareRegion,
                i as int,
            ),
            base is Some ==> base->0 <= ram_top,
        decreases regions@.len() - i,
    {
        let region = regions[i];
        assert(regions@[i as int].wf());
        let end: u64 = region.guest_addr + region.size;
        if end > ram_top {
            ram_top = end;
        }
        match region.purpose {
            MemoryRegionPurpose::GuestMemoryRegion => {
                if base.is_none() {
                    base = Some(region.guest_addr);
                }
            },
            MemoryRegionPurpose::ProtectedFirmwareRegion => {
                if firmware.is_none() {
                    firmware = Some(region.guest_addr);
                }
            },
            _ => {},
        }
        i = i + 1;
    }
    Reach { ram_top, base, firmware }
}

/// Whether there is at most one region of firmware.
pub open spec fn one_firmware(regions: Seq<MemoryRegion>) -> bool {
    forall|i: int, j: int|
        0 <= i < regions.len() && 0 <= j < regions.len() && (#[trigger] regions[i]).purpose
            == MemoryRegionPurpose::ProtectedFirmwareRegion && (#[trigger] regions[j]).purpose
            == MemoryRegionPurpose::ProtectedFirmwareRegion ==> i == j
}

/// All that is set for a machine. `routes` are its interrupts, and `intc` is the handle of its
/// interrupt controller.
pub fn create_fdt(regions: &Vec<MemoryRegion>, routes: &Vec<GunyahIrqRoute>, intc: u32) -> (props:
    Vec<Prop>)
    requires
        forall|i: int| 0 <= i < regions@.len() ==> (#[trigger] regions@[i]).wf(),
        regions@.len() <= u32::MAX,
        one_firmware(regions@),
        top_of(regions@, regions@.len() as int) + PLAT_MMIO_SIZE + 2 * BAR_TARGET + WINDOW_TAIL
            + GIB <= u64::MAX,
    ensures
        shown(props@) == fdt_of(regions@, routes@, intc),
{
    let r = reach(regions);
    let base: u64 = match r.base {
        Some(a) => a,
        None => 0,
    };
    let window: u64 = multiple_after(r.ram_top + PLAT_MMIO_SIZE, BAR_TARGET) + BAR_TARGET
        + WINDOW_TAIL;
    let length: u64 = multiple_after(window - base, GIB);
    let size_max: u64 = if length < 4 * GIB {
        4 * GIB
    } else {
        length
    };
    let top: u64 = match r.firmware {
        Some(a) => a,
        None => base,
    };
    let mut props: Vec<Prop> = Vec::new();
    assert(shown(props@) =~= Seq::empty());
    put_head(&mut props);
    put_layout(&mut props, r.firmware, base, size_max, intc);
    put_bells(&mut props, routes);
    put_rm(&mut props);
    put_shms(&mut props, regions);
    put_fence(&mut props, top);
    assert(shown(props@) =~= fdt_of(regions@, routes@, intc));
    props
}

/// The machine's addresses reach over all of its memory and over the window for devices above it.
pub proof fn law_the_layout_reaches_over_the_window(regions: Seq<MemoryRegion>, i: int)
    requires
        forall|j: int| 0 <= j < regions.len() ==> (#[trigger] regions[j]).wf(),
        0 <= i < regions.len(),
        regions[i].guest_addr >= base_of(regions),
    ensures
        regions[i].guest_addr + regions[i].size + PLAT_MMIO_SIZE + BAR_TARGET <= base_of(regions)
            + size_max_of(regions),
        window_top(top_of(regions, regions.len() as int)) <= base_of(regions) + size_max_of(
            regions,
        ),
        size_max_of(regions) % (GIB as int) == 0,
{
    lemma_top(regions, regions.len() as int, i);
    let n = window_top(top_of(regions, regions.len() as int)) - base_of(regions);
    assert((n + GIB - n % (GIB as int)) % (GIB as int) == 0) by (nonlinear_arith)
        requires
            GIB == 0x4000_0000u64,
    ;
}

proof fn lemma_top(regions: Seq<MemoryRegion>, n: int, i: int)
    requires
        0 <= i < n <= regions.len(),
    ensures
        regions[i].guest_addr + regions[i].size <= top_of(regions, n),
    decreases n,
{
    if i < n - 1 {
        lemma_top(regions, n - 1, i);
    }
}

/// The fence ends where the first thing begins that the guest was given: nothing of the firmware
/// or the payload lies behind it.
pub proof fn law_the_fence_spares_the_guest(regions: Seq<MemoryRegion>)
    requires
        fence_props(fence_top(regions)).len() > 0,
    ensures
        fence_props(fence_top(regions))[3].value == ValueView::Pair(
            LOWMEM_FLOOR,
            (fence_top(regions) - LOWMEM_FLOOR) as u64,
        ),
        LOWMEM_FLOOR + (fence_top(regions) - LOWMEM_FLOOR) as u64 == fence_top(regions),
        firmware_of(regions) is Some ==> fence_top(regions) == firmware_of(regions)->0,
        firmware_of(regions) is None ==> fence_top(regions) == base_of(regions),
{
}

/// A digit is one character, and is read as its value.
pub proof fn law_a_digit_is_one_character(d: int)
    requires
        0 <= d < 16,
    ensures
        hex_digit(d).len() == 1,
        d < 10 ==> hex_digit(d)[0] as int == '0' as int + d,
        d >= 10 ==> hex_digit(d)[0] as int == 'a' as int + d - 10,
{
    reveal_strlit("0");
    reveal_strlit("1");
    reveal_strlit("2");
    reveal_strlit("3");
    reveal_strlit("4");
    reveal_strlit("5");
    reveal_strlit("6");
    reveal_strlit("7");
    reveal_strlit("8");
    reveal_strlit("9");
    reveal_strlit("a");
    reveal_strlit("b");
    reveal_strlit("c");
    reveal_strlit("d");
    reveal_strlit("e");
    reveal_strlit("f");
}

/// A number has one digit more than its sixteenth, and that one is last.
pub proof fn law_a_number_is_written_in_sixteens(n: int, d: int)
    requires
        0 <= n,
        0 <= d < 16,
    ensures
        hex_of(d) == hex_digit(d),
        n > 0 ==> hex_of(16 * n + d) == hex_of(n) + hex_digit(d),
{
}

/// The next multiple is the least that is not below.
pub proof fn law_the_next_multiple_is_the_least(n: int, m: int, k: int)
    requires
        0 <= n,
        0 < m,
        (k - 1) * m < n <= k * m,
    ensures
        next_multiple(n, m) == k * m,
{
    assert((k - 1) * m == k * m - m) by (nonlinear_arith);
    if n == k * m {
        vstd::arithmetic::div_mod::lemma_fundamental_div_mod_converse(n, m, k, 0);
    } else {
        vstd::arithmetic::div_mod::lemma_fundamental_div_mod_converse(
            n,
            m,
            k - 1,
            n - (k - 1) * m,
        );
    }
}

/// The top is the highest end of a region: none ends above it, and one ends there.
pub proof fn law_the_top_is_the_highest_end(regions: Seq<MemoryRegion>, n: int)
    requires
        0 <= n <= regions.len(),
    ensures
        forall|i: int|
            0 <= i < n ==> (#[trigger] regions[i]).guest_addr + regions[i].size <= top_of(
                regions,
                n,
            ),
        n > 0 && top_of(regions, n) > 0 ==> exists|i: int|
            0 <= i < n && (#[trigger] regions[i]).guest_addr + regions[i].size == top_of(
                regions,
                n,
            ),
        n == 0 ==> top_of(regions, n) == 0,
    decreases n,
{
    if n > 0 {
        law_the_top_is_the_highest_end(regions, n - 1);
        let last = regions[n - 1];
        if top_of(regions, n) == last.guest_addr + last.size {
            assert(regions[n - 1].guest_addr + regions[n - 1].size == top_of(regions, n));
        }
    }
}

/// The first region for a purpose is the first in the table.
pub proof fn law_the_first_for_a_purpose(
    regions: Seq<MemoryRegion>,
    purpose: MemoryRegionPurpose,
    n: int,
    k: int,
)
    requires
        0 <= k <= n <= regions.len(),
        forall|j: int| 0 <= j < k ==> (#[trigger] regions[j]).purpose != purpose,
        k < n ==> regions[k].purpose == purpose,
    ensures
        k < n ==> first_for(regions, purpose, n) == Some(regions[k].guest_addr),
        k == n ==> first_for(regions, purpose, n) is None,
    decreases n,
{
    if k < n - 1 {
        law_the_first_for_a_purpose(regions, purpose, n - 1, k);
    } else if n > 0 {
        law_the_first_for_a_purpose(regions, purpose, n - 1, n - 1);
    }
}

/// The machine's addresses begin at its first memory, and the firmware is at its own.
pub proof fn law_addresses_begin_at_the_payload(regions: Seq<MemoryRegion>, k: int)
    requires
        0 <= k < regions.len(),
    ensures
        regions[k].purpose is GuestMemoryRegion && (forall|j: int|
            0 <= j < k ==> !((#[trigger] regions[j]).purpose is GuestMemoryRegion)) ==> base_of(
            regions,
        ) == regions[k].guest_addr,
        regions[k].purpose is ProtectedFirmwareRegion && (forall|j: int|
            0 <= j < k ==> !((#[trigger] regions[j]).purpose is ProtectedFirmwareRegion))
            ==> firmware_of(regions) == Some(regions[k].guest_addr),
        (forall|j: int|
            0 <= j < regions.len() ==> !((#[trigger] regions[j]).purpose is ProtectedFirmwareRegion))
            ==> firmware_of(regions) is None,
{
    let n = regions.len() as int;
    if regions[k].purpose is GuestMemoryRegion && (forall|j: int|
        0 <= j < k ==> !((#[trigger] regions[j]).purpose is GuestMemoryRegion)) {
        law_the_first_for_a_purpose(regions, MemoryRegionPurpose::GuestMemoryRegion, n, k);
    }
    if regions[k].purpose is ProtectedFirmwareRegion && (forall|j: int|
        0 <= j < k ==> !((#[trigger] regions[j]).purpose is ProtectedFirmwareRegion)) {
        law_the_first_for_a_purpose(regions, MemoryRegionPurpose::ProtectedFirmwareRegion, n, k);
    }
    if forall|j: int|
        0 <= j < regions.len() ==> !((#[trigger] regions[j]).purpose is ProtectedFirmwareRegion) {
        law_the_first_for_a_purpose(regions, MemoryRegionPurpose::ProtectedFirmwareRegion, n, n);
    }
}

/// The window ends one and an eighth times four gibibytes above the first multiple of four gibibytes
/// that leaves the platform its eight mebibytes above the memory.
pub proof fn law_the_window_is_above_the_memory(ram_top: int, k: int)
    requires
        0 <= ram_top,
        (k - 1) * 0x1_0000_0000 < ram_top + 0x80_0000 <= k * 0x1_0000_0000,
    ensures
        window_top(ram_top) == (k + 1) * 0x1_0000_0000 + 0x2000_0000,
{
}

/// The machine's addresses reach no further than they must: four gibibytes, or less than one above
/// the end of the window.
pub proof fn law_the_layout_reaches_no_further(regions: Seq<MemoryRegion>)
    requires
        window_top(top_of(regions, regions.len() as int)) >= base_of(regions),
    ensures
        size_max_of(regions) >= 0x1_0000_0000,
        size_max_of(regions) == 0x1_0000_0000 || base_of(regions) + size_max_of(regions)
            < window_top(top_of(regions, regions.len() as int)) + 0x4000_0000,
{
}

/// What the guest runs in is not declared, nor what is shared with it later; all else is.
pub proof fn law_what_is_shared_is_declared(purpose: MemoryRegionPurpose)
    ensures
        purpose is GuestMemoryRegion || purpose is Bios || purpose is ProtectedFirmwareRegion
            || purpose is ReservedMemory || purpose is SharedGuestRam ==> !is_declared(purpose),
        purpose is SharedFramebuffer || purpose is StaticSwiotlbRegion || purpose is ShimHandoff
            || purpose is GpuPool || purpose is GpuPoolGuest || purpose is Drm2KgslPool || purpose
            is VenusPool || purpose is MediaPool || purpose is MediaPoolGuest || purpose
            is Edk2PreloadPool || purpose is DynamicTestPool ==> is_declared(purpose),
{
}

/// Whether a property of a node is set to a value.
pub open spec fn says(
    props: Seq<PropView>,
    node: Seq<char>,
    name: Seq<char>,
    value: ValueView,
) -> bool {
    exists|i: int|
        0 <= i < props.len() && (#[trigger] props[i]).node == node && props[i].name == name
            && props[i].value == value
}

proof fn lemma_says_among(
    before: Seq<PropView>,
    props: Seq<PropView>,
    after: Seq<PropView>,
    node: Seq<char>,
    name: Seq<char>,
    value: ValueView,
)
    requires
        says(props, node, name, value),
    ensures
        says(before + props + after, node, name, value),
{
    let i = choose|i: int|
        0 <= i < props.len() && (#[trigger] props[i]).node == node && props[i].name == name
            && props[i].value == value;
    assert((before + props + after)[before.len() + i] == props[i]);
}

proof fn lemma_says_bell(
    routes: Seq<GunyahIrqRoute>,
    n: int,
    i: int,
    name: Seq<char>,
    value: ValueView,
)
    requires
        0 <= i < n <= routes.len(),
        says(
            bell_props(routes[i]),
            "/gunyah-vm-config/vdevices/"@ + ("bell-"@ + hex_of(routes[i].irq as int)),
            name,
            value,
        ),
    ensures
        says(
            bells_props(routes, n),
            "/gunyah-vm-config/vdevices/"@ + ("bell-"@ + hex_of(routes[i].irq as int)),
            name,
            value,
        ),
    decreases n,
{
    let node = "/gunyah-vm-config/vdevices/"@ + ("bell-"@ + hex_of(routes[i].irq as int));
    let rest = bells_props(routes, n - 1);
    let last = bell_props(routes[n - 1]);
    if i == n - 1 {
        lemma_says_among(rest, last, Seq::empty(), node, name, value);
        assert(rest + last + Seq::<PropView>::empty() =~= bells_props(routes, n));
    } else {
        lemma_says_bell(routes, n - 1, i, name, value);
        lemma_says_among(Seq::empty(), rest, last, node, name, value);
        assert(Seq::<PropView>::empty() + rest + last =~= bells_props(routes, n));
    }
}

/// Every interrupt has a doorbell of its own, which carries the interrupt's number and says whether
/// it is one of a level or of an edge.
pub proof fn law_every_interrupt_has_a_doorbell(
    regions: Seq<MemoryRegion>,
    routes: Seq<GunyahIrqRoute>,
    intc: u32,
    i: int,
)
    requires
        0 <= i < routes.len(),
    ensures
        ({
            let tree = fdt_of(regions, routes, intc);
            let name = "bell-"@ + hex_of(routes[i].irq as int);
            let node = "/gunyah-vm-config/vdevices/"@ + name;
            let irq = routes[i].irq;
            &&& says(tree, node, "vdevice-type"@, ValueView::Text("doorbell"@))
            &&& says(tree, node, "generate"@, ValueView::Text("/hypervisor/"@ + name))
            &&& says(tree, node, "label"@, ValueView::U32(irq))
            &&& says(tree, node, "peer-default"@, ValueView::Empty)
            &&& says(tree, node, "source-can-clear"@, ValueView::Empty)
            &&& routes[i].level ==> says(tree, node, "interrupts"@, ValueView::Cells(0, irq, 4))
            &&& !routes[i].level ==> says(tree, node, "interrupts"@, ValueView::Cells(0, irq, 1))
        }),
{
    let name = "bell-"@ + hex_of(routes[i].irq as int);
    let node = "/gunyah-vm-config/vdevices/"@ + name;
    let bell = bell_props(routes[i]);
    let bells = bells_props(routes, routes.len() as int);
    let before = head_props() + firmware_props(firmware_of(regions)) + layout_props(
        base_of(regions),
        size_max_of(regions) as u64,
        intc,
    );
    let after = rm_props() + shms_props(regions, regions.len() as int) + fence_props(
        fence_top(regions),
    );
    assert(before + bells + after =~= fdt_of(regions, routes, intc));
    assert forall|k: int| 0 <= k < 6 implies says(
        before + bells + after,
        node,
        (#[trigger] bell[k]).name,
        bell[k].value,
    ) by {
        assert(says(bell, node, bell[k].name, bell[k].value));
        lemma_says_bell(routes, routes.len() as int, i, bell[k].name, bell[k].value);
        lemma_says_among(before, bells, after, node, bell[k].name, bell[k].value);
    }
    assert(bell[0].name == "vdevice-type"@ && bell[1].name == "generate"@ && bell[2].name
        == "label"@);
    assert(bell[3].name == "peer-default"@ && bell[4].name == "source-can-clear"@ && bell[5].name
        == "interrupts"@);
}

proof fn lemma_says_shm(
    regions: Seq<MemoryRegion>,
    n: int,
    i: int,
    node: Seq<char>,
    name: Seq<char>,
    value: ValueView,
)
    requires
        0 <= i < n <= regions.len(),
        is_declared(regions[i].purpose),
        says(shm_props(i as u32, regions[i].guest_addr), node, name, value),
    ensures
        says(shms_props(regions, n), node, name, value),
    decreases n,
{
    let rest = shms_props(regions, n - 1);
    let last = shm_props((n - 1) as u32, regions[n - 1].guest_addr);
    if i == n - 1 {
        lemma_says_among(rest, last, Seq::empty(), node, name, value);
        assert(rest + last + Seq::<PropView>::empty() =~= shms_props(regions, n));
    } else {
        lemma_says_shm(regions, n - 1, i, node, name, value);
        if is_declared(regions[n - 1].purpose) {
            lemma_says_among(Seq::empty(), rest, last, node, name, value);
            assert(Seq::<PropView>::empty() + rest + last =~= shms_props(regions, n));
        }
    }
}

/// Every region that the host and the guest use together is declared by its number, at its own
/// address.
pub proof fn law_every_shared_region_is_declared(
    regions: Seq<MemoryRegion>,
    routes: Seq<GunyahIrqRoute>,
    intc: u32,
    i: int,
)
    requires
        0 <= i < regions.len(),
        i <= u32::MAX,
        is_declared(regions[i].purpose),
    ensures
        ({
            let tree = fdt_of(regions, routes, intc);
            let node = "/gunyah-vm-config/vdevices/shm-"@ + hex_of(i);
            let memory = node + "/memory"@;
            &&& says(tree, node, "vdevice-type"@, ValueView::Text("shm"@))
            &&& says(tree, node, "peer-default"@, ValueView::Empty)
            &&& says(tree, node, "dma_base"@, ValueView::U64(0))
            &&& says(tree, memory, "optional"@, ValueView::Empty)
            &&& says(tree, memory, "label"@, ValueView::U32(i as u32))
            &&& says(tree, memory, "#address-cells"@, ValueView::U32(2))
            &&& says(tree, memory, "base"@, ValueView::U64(regions[i].guest_addr))
        }),
{
    let node = "/gunyah-vm-config/vdevices/shm-"@ + hex_of(i);
    let memory = node + "/memory"@;
    let shm = shm_props(i as u32, regions[i].guest_addr);
    let shms = shms_props(regions, regions.len() as int);
    let before = head_props() + firmware_props(firmware_of(regions)) + layout_props(
        base_of(regions),
        size_max_of(regions) as u64,
        intc,
    ) + bells_props(routes, routes.len() as int) + rm_props();
    let after = fence_props(fence_top(regions));
    assert(before + shms + after =~= fdt_of(regions, routes, intc));
    assert forall|k: int| 0 <= k < 7 implies says(
        before + shms + after,
        (#[trigger] shm[k]).node,
        shm[k].name,
        shm[k].value,
    ) by {
        assert(says(shm, shm[k].node, shm[k].name, shm[k].value));
        lemma_says_shm(
            regions,
            regions.len() as int,
            i,
            shm[k].node,
            shm[k].name,
            shm[k].value,
        );
        lemma_says_among(before, shms, after, shm[k].node, shm[k].name, shm[k].value);
    }
    assert(shm[0].node == node && shm[1].node == node && shm[2].node == node);
    assert(shm[3].node == memory && shm[4].node == memory && shm[5].node == memory && shm[6].node
        == memory);
}

/// The tree says what the machine is, where its addresses begin and how far they reach, which
/// interrupt controller it has, and how it gets at the resource manager. It says where the firmware
/// is exactly where there is one.
pub proof fn law_the_tree_describes_the_machine(
    regions: Seq<MemoryRegion>,
    routes: Seq<GunyahIrqRoute>,
    intc: u32,
)
    ensures
        ({
            let tree = fdt_of(regions, routes, intc);
            let config = "/gunyah-vm-config"@;
            let memory = "/gunyah-vm-config/memory"@;
            let rm = "/gunyah-vm-config/vdevices/rm-rpc"@;
            &&& says(tree, config, "image-name"@, ValueView::Text("crosvm-vm"@))
            &&& says(tree, config, "os-type"@, ValueView::Text("linux"@))
            &&& says(tree, memory, "#address-cells"@, ValueView::U32(2))
            &&& says(tree, memory, "#size-cells"@, ValueView::U32(2))
            &&& says(tree, memory, "base-address"@, ValueView::U64(base_of(regions)))
            &&& says(tree, memory, "size-max"@, ValueView::U64(size_max_of(regions) as u64))
            &&& says(tree, "/gunyah-vm-config/interrupts"@, "config"@, ValueView::U32(intc))
            &&& says(tree, "/gunyah-vm-config/vcpus"@, "affinity"@, ValueView::Text("proxy"@))
            &&& says(
                tree,
                "/gunyah-vm-config/vdevices"@,
                "generate"@,
                ValueView::Text("/hypervisor"@),
            )
            &&& says(tree, rm, "vdevice-type"@, ValueView::Text("rm-rpc"@))
            &&& says(tree, rm, "generate"@, ValueView::Text("/hypervisor/qcom,resource-mgr"@))
            &&& says(tree, rm, "message-size"@, ValueView::U32(240))
            &&& says(tree, rm, "queue-depth"@, ValueView::U32(8))
            &&& firmware_of(regions) matches Some(a) ==> says(
                tree,
                memory,
                "firmware-address"@,
                ValueView::U64(a),
            )
        }),
{
    let tree = fdt_of(regions, routes, intc);
    let f = firmware_props(firmware_of(regions)).len() as int;
    let b = bells_props(routes, routes.len() as int).len() as int;
    assert(tree[0] == head_props()[0] && tree[1] == head_props()[1]);
    assert(tree[2] == head_props()[2] && tree[3] == head_props()[3]);
    let layout = layout_props(base_of(regions), size_max_of(regions) as u64, intc);
    assert(tree[4 + f] == layout[0] && tree[5 + f] == layout[1] && tree[6 + f] == layout[2]);
    assert(tree[7 + f] == layout[3] && tree[8 + f] == layout[4]);
    assert(tree[9 + f + b] == rm_props()[0] && tree[10 + f + b] == rm_props()[1]);
    assert(tree[11 + f + b] == rm_props()[2] && tree[12 + f + b] == rm_props()[3]);
    if let Some(a) = firmware_of(regions) {
        assert(tree[4] == firmware_props(Some(a))[0]);
    }
}

/// How many of the first `n` regions are declared.
pub open spec fn declared_count(regions: Seq<MemoryRegion>, n: int) -> int
    decreases n,
{
    if n <= 0 {
        0
    } else {
        declared_count(regions, n - 1) + if is_declared(regions[n - 1].purpose) {
            1int
        } else {
            0
        }
    }
}

proof fn lemma_counts(regions: Seq<MemoryRegion>, routes: Seq<GunyahIrqRoute>, n: int)
    ensures
        n >= 0 ==> bells_props(routes, n).len() == 6 * n,
        shms_props(regions, n).len() == 7 * declared_count(regions, n),
    decreases n,
{
    if n > 0 {
        lemma_counts(regions, routes, n - 1);
    }
}

/// Nothing is set twice, and nothing beside that: thirteen properties of the machine, one more where
/// there is firmware, six of every interrupt, seven of every declared region, and five of the fence
/// where there is one.
pub proof fn law_nothing_else_is_set(
    regions: Seq<MemoryRegion>,
    routes: Seq<GunyahIrqRoute>,
    intc: u32,
)
    ensures
        fdt_of(regions, routes, intc).len() == 13 + (if firmware_of(regions) is Some {
            1int
        } else {
            0
        }) + 6 * routes.len() + 7 * declared_count(regions, regions.len() as int) + (if fence_top(
            regions,
        ) > 0x4000_0000 {
            5int
        } else {
            0
        }),
{
    lemma_counts(regions, routes, routes.len() as int);
    lemma_counts(regions, routes, regions.len() as int);
}

/// The fence keeps the guest off everything from one gibibyte up to the firmware, or to the payload
/// where there is none.
pub proof fn law_the_fence_is_in_the_tree(
    regions: Seq<MemoryRegion>,
    routes: Seq<GunyahIrqRoute>,
    intc: u32,
)
    requires
        fence_top(regions) > 0x4000_0000,
    ensures
        ({
            let tree = fdt_of(regions, routes, intc);
            let node = "/reserved-memory"@;
            let fence = "/reserved-memory/gunyah-rm-lowmem@"@ + hex_of(0x4000_0000);
            let size = (fence_top(regions) - 0x4000_0000) as u64;
            &&& says(tree, fence, "reg"@, ValueView::Pair(0x4000_0000, size))
            &&& says(tree, fence, "no-map"@, ValueView::Empty)
            &&& says(tree, node, "#address-cells"@, ValueView::U32(2))
            &&& says(tree, node, "#size-cells"@, ValueView::U32(2))
            &&& says(tree, node, "ranges"@, ValueView::Empty)
        }),
{
    let tree = fdt_of(regions, routes, intc);
    let f = fence_props(fence_top(regions));
    let n = tree.len() - 5;
    assert(f.len() == 5);
    assert(tree[n] == f[0] && tree[n + 1] == f[1] && tree[n + 2] == f[2]);
    assert(tree[n + 3] == f[3] && tree[n + 4] == f[4]);
}

} // verus!
