//! The first code a virtual machine with shared memory runs, up to the jump to its payload.
//!
//! It finds the resource manager in the device tree, accepts each parcel that the host listed on
//! the handoff page, points the tree at the memory it got, and jumps. The handoff page is the
//! only way it can speak: what went wrong is written there.
use crate::bytes;
use crate::rm;
use vstd::prelude::*;

verus! {

/// How long a message on the handoff page may be, its closing zero included.
pub const MSG_SIZE: usize = 256;

/// How many times the host's ready mark is looked for before giving up.
pub const READY_SPINS: u64 = 200_000_000;

/// The number a device tree starts with.
pub const FDT_MAGIC: u64 = 0xd00d_feed;

/// The size of a device tree's header.
pub const FDT_HEADER_SIZE: u64 = 40;

/// The most that is reserved for a device tree.
pub const FDT_MAX_SIZE: u64 = 0x80_0000;

/// What the page says of how far the shim has come.
#[derive(Clone, Copy, Debug, PartialEq, Eq, Structural)]
pub enum ShimStatus {
    /// Nothing was written yet.
    Absent,
    Running,
    /// Every parcel is accepted.
    Accepted,
    /// The tree names the window as memory.
    DtDone,
    /// The payload is about to run.
    Jumping,
    /// The shim gave up.
    Error,
}

/// Why the shim gave up.
#[derive(Clone, Copy, Debug, PartialEq, Eq, Structural)]
pub enum Fault {
    NoPayload,
    TooManyParcels,
    NeverReady,
    NotATree,
    TreeHeader,
    NoResourceManager,
    RegTooShort,
    AcceptRefused,
    AcceptTimeout,
    AcceptSend,
    MemoryWindow,
    Panicked,
}

impl Fault {
    /// What is written on the page.
    pub open spec fn message(self) -> Seq<char> {
        match self {
            Fault::NoPayload => "no payload address in the header"@,
            Fault::TooManyParcels => "more parcels than the handoff page can hold"@,
            Fault::NeverReady => "the host never finished sharing the window"@,
            Fault::NotATree => "the device tree pointer is not a device tree"@,
            Fault::TreeHeader => "the device tree header did not parse"@,
            Fault::NoResourceManager => "no gunyah-resource-manager node in the device tree"@,
            Fault::RegTooShort => "the resource manager node's reg is too short"@,
            Fault::AcceptRefused => "the resource manager refused MEM_ACCEPT"@,
            Fault::AcceptTimeout => "MEM_ACCEPT never got a reply"@,
            Fault::AcceptSend => "could not send MEM_ACCEPT to the resource manager"@,
            Fault::MemoryWindow => "could not point /memory at the window"@,
            Fault::Panicked => {
                "shim panicked (a bounds check fired: the device tree is not what we assumed)"@
            },
        }
    }

    /// What is written on the page.
    pub fn text(self) -> (t: &'static str)
        ensures
            t@ == self.message(),
    {
        match self {
            Fault::NoPayload => "no payload address in the header",
            Fault::TooManyParcels => "more parcels than the handoff page can hold",
            Fault::NeverReady => "the host never finished sharing the window",
            Fault::NotATree => "the device tree pointer is not a device tree",
            Fault::TreeHeader => "the device tree header did not parse",
            Fault::NoResourceManager => "no gunyah-resource-manager node in the device tree",
            Fault::RegTooShort => "the resource manager node's reg is too short",
            Fault::AcceptRefused => "the resource manager refused MEM_ACCEPT",
            Fault::AcceptTimeout => "MEM_ACCEPT never got a reply",
            Fault::AcceptSend => "could not send MEM_ACCEPT to the resource manager",
            Fault::MemoryWindow => "could not point /memory at the window",
            Fault::Panicked => {
                "shim panicked (a bounds check fired: the device tree is not what we assumed)"
            },
        }
    }
}

/// What the shim writes on the handoff page.
pub struct Handoff {
    pub status: ShimStatus,
    pub error: u64,
    pub exec_probe: u64,
    pub msg: Vec<u8>,
}

/// A message area after `text` was written to it: as much of it as fits, then a zero.
pub open spec fn said(msg: Seq<u8>, text: Seq<u8>) -> Seq<u8> {
    let n = if text.len() < msg.len() - 1 {
        text.len() as int
    } else {
        msg.len() - 1
    };
    Seq::new(
        msg.len(),
        |i: int|
            if i < n {
                text[i]
            } else if i == n {
                0
            } else {
                msg[i]
            },
    )
}

/// How much of a message area is text: what stands before the first zero.
pub open spec fn said_len(msg: Seq<u8>) -> int
    decreases msg.len(),
{
    if msg.len() == 0 || msg[0] == 0 {
        0
    } else {
        1 + said_len(msg.drop_first())
    }
}

/// Writes `text` to a message area.
pub fn say(msg: &mut Vec<u8>, text: &str)
    requires
        old(msg)@.len() > 0,
    ensures
        final(msg)@ == said(old(msg)@, vstd::utf8::encode_utf8(text@)),
{
    let bytes: &[u8] = text.as_bytes();
    let room: usize = msg.len() - 1;
    let n: usize = if bytes.len() < room {
        bytes.len()
    } else {
        room
    };
    let mut i: usize = 0;
    while i < n
        invariant
            i <= n < msg@.len(),
            n <= bytes@.len(),
            msg@.len() == old(msg)@.len(),
            forall|j: int|
                0 <= j < msg@.len() ==> #[trigger] msg@[j] == if j < i {
                    bytes@[j]
                } else {
                    old(msg)@[j]
                },
        decreases n - i,
    {
        msg.set(i, bytes[i]);
        i = i + 1;
    }
    msg.set(n, 0);
    assert(msg@ =~= said(old(msg)@, vstd::utf8::encode_utf8(text@)));
}

/// Where the text of a message area ends.
pub fn message_end(msg: &Vec<u8>) -> (n: usize)
    ensures
        n == said_len(msg@),
        n <= msg@.len(),
{
    let mut i: usize = 0;
    assert(msg@.skip(0) =~= msg@);
    while i < msg.len() && msg[i] != 0
        invariant
            i <= msg@.len(),
            said_len(msg@) == i + said_len(msg@.skip(i as int)),
        decreases msg@.len() - i,
    {
        assert(msg@.skip(i as int).drop_first() =~= msg@.skip(i + 1));
        assert(msg@.skip(i as int)[0] == msg@[i as int]);
        i = i + 1;
    }
    if i < msg.len() {
        assert(msg@.skip(i as int)[0] == msg@[i as int]);
    }
    i
}

/// A reader of the page gets the text that was written, as far as it fits.
pub proof fn law_what_is_said_is_read(msg: Seq<u8>, text: Seq<u8>)
    requires
        msg.len() > 0,
        forall|i: int| 0 <= i < text.len() ==> #[trigger] text[i] != 0,
    ensures
        ({
            let n = said_len(said(msg, text));
            &&& n == if text.len() < msg.len() - 1 {
                text.len() as int
            } else {
                msg.len() - 1
            }
            &&& said(msg, text).take(n) == text.take(n)
        }),
    decreases text.len(),
{
    let s = said(msg, text);
    if msg.len() > 1 && text.len() > 0 {
        law_what_is_said_is_read(msg.drop_first(), text.drop_first());
        assert(s.drop_first() =~= said(msg.drop_first(), text.drop_first()));
    }
    let n = said_len(s);
    assert(s.take(n) =~= text.take(n));
}

impl Handoff {
    /// An empty page.
    pub fn new() -> (h: Self)
        ensures
            h.status == ShimStatus::Absent,
            h.error == 0,
            h.exec_probe == 0,
            h.msg@ == Seq::new(MSG_SIZE as nat, |i: int| 0u8),
    {
        let mut msg: Vec<u8> = Vec::new();
        while msg.len() < MSG_SIZE
            invariant
                msg@.len() <= MSG_SIZE,
                msg@ == Seq::new(msg@.len(), |i: int| 0u8),
            decreases MSG_SIZE - msg@.len(),
        {
            msg.push(0);
        }
        Handoff { status: ShimStatus::Absent, error: 0, exec_probe: 0, msg }
    }

    /// Writes down why the shim gives up.
    pub fn die(&mut self, err: u64, fault: Fault)
        requires
            old(self).msg@.len() > 0,
        ensures
            final(self).died(old(self), err, fault),
    {
        self.error = err;
        let text: &str = fault.text();
        say(&mut self.msg, text);
        self.status = ShimStatus::Error;
    }

    /// The page after the shim gave up.
    pub open spec fn died(&self, before: &Handoff, err: u64, fault: Fault) -> bool {
        &&& self.status == ShimStatus::Error
        &&& self.error == err
        &&& self.exec_probe == before.exec_probe
        &&& self.msg@ == said(before.msg@, vstd::utf8::encode_utf8(fault.message()))
    }
}

/// The size that a device tree's first bytes name, where it is one: not smaller than its header
/// and not larger than what is reserved for it.
pub open spec fn total_size(head: Seq<u8>) -> Option<int> {
    let total = bytes::from_be(head.subrange(4, 8));
    if bytes::from_be(head.subrange(0, 4)) == FDT_MAGIC && FDT_HEADER_SIZE <= total
        <= FDT_MAX_SIZE {
        Some(total)
    } else {
        None
    }
}

/// The size that a device tree's first eight bytes name; nothing else about it is trusted.
pub fn fdt_total_size(head: &[u8]) -> (size: Option<u64>)
    requires
        head@.len() >= 8,
    ensures
        match size {
            Some(n) => total_size(head@) == Some(n as int),
            None => total_size(head@) is None,
        },
{
    if bytes::read_be(head, 0, 4) != FDT_MAGIC {
        return None;
    }
    let total: u64 = bytes::read_be(head, 4, 4);
    if total < FDT_HEADER_SIZE || total > FDT_MAX_SIZE {
        return None;
    }
    Some(total)
}

/// What both sides of the handoff agree on.
#[derive(Clone, Copy, Debug, PartialEq, Eq, Structural)]
pub struct ShimAbi {
    pub header_magic: u64,
    pub handoff_magic: u64,
    pub version: u32,
    /// How many parcels the page can list.
    pub max_parcels: u32,
}

/// What the host wrote into the shim before it started.
#[derive(Clone, Copy, Debug, PartialEq, Eq, Structural)]
pub struct ShimHeader {
    pub magic: u64,
    pub version: u32,
    /// Where the handoff page is; 0 where there is none.
    pub handoff: u64,
    /// Where the payload starts.
    pub payload: u64,
    /// Whether to try to execute out of the window.
    pub probe_exec: bool,
    /// Whether the tree is left as it is.
    pub no_dt_rewrite: bool,
}

/// What the shim does next.
#[derive(Clone, Copy, Debug, PartialEq, Eq, Structural)]
pub enum Step {
    /// Stop for good, with nothing to say it on.
    Hang,
    /// Stop for good; the page says why.
    Dead,
    /// Read the handoff page.
    ReadHandoff,
    /// Look whether the host is done.
    PollReady,
    /// Read the start of the device tree.
    ReadTree,
    /// Parse a tree of so many bytes.
    ParseTree(u64),
    /// Find the `reg` of the resource manager's node.
    FindReg,
    /// Accept parcel number so many.
    Accept(u32),
    /// Try to execute out of the first parcel.
    ProbeExec,
    /// Name the first parcel as memory in the tree.
    SetWindow,
    /// Jump to the payload.
    Jump(u64),
}

/// What a shim does first, by its header.
pub open spec fn first_step(abi: ShimAbi, header: ShimHeader) -> Step {
    if header.magic != abi.header_magic || header.version != abi.version || header.handoff == 0 {
        Step::Hang
    } else {
        Step::ReadHandoff
    }
}

/// The shim under way.
pub struct Shim {
    pub abi: ShimAbi,
    pub header: ShimHeader,
    pub page: Handoff,
    /// How many parcels the page lists.
    pub nparcels: u32,
    /// How many were accepted.
    pub accepted: u32,
    /// How many times the ready mark was looked for in vain.
    pub spun: u64,
    /// The resource manager's queues.
    pub tx: u64,
    pub rx: u64,
    pub next: Step,
}

impl Shim {
    /// What holds at every step. Above all: the payload runs only with every listed parcel
    /// accepted, and only where the header names one.
    pub open spec fn wf(&self) -> bool {
        &&& self.page.msg@.len() == MSG_SIZE
        &&& self.accepted <= self.nparcels
        &&& self.spun <= READY_SPINS + 1
        &&& (self.next == Step::PollReady ==> self.spun <= READY_SPINS)
        &&& (self.next is PollReady || self.next is ReadTree || self.next is ParseTree
            || self.next is FindReg || self.next is Accept || self.next is ProbeExec
            || self.next is SetWindow || self.next is Jump ==> self.header.payload != 0
            && self.nparcels <= self.abi.max_parcels)
        &&& (self.next matches Step::Accept(i) ==> i == self.accepted && i < self.nparcels)
        &&& (self.next is ProbeExec || self.next is SetWindow ==> 0 < self.nparcels
            == self.accepted)
        &&& (self.next matches Step::Jump(a) ==> a == self.header.payload && self.accepted
            == self.nparcels && self.page.status == ShimStatus::Jumping)
        &&& (self.next is Dead ==> self.page.status == ShimStatus::Error)
    }

    /// Nothing but the page and the next step changed.
    pub open spec fn same_parcels(&self, before: &Shim) -> bool {
        &&& self.abi == before.abi
        &&& self.header == before.header
        &&& self.nparcels == before.nparcels
        &&& self.spun == before.spun
        &&& self.accepted == before.accepted
        &&& self.tx == before.tx
        &&& self.rx == before.rx
    }

    /// The shim gave up for a reason.
    pub open spec fn gave_up(&self, before: &Shim, err: u64, fault: Fault) -> bool {
        &&& self.next == Step::Dead
        &&& self.page.died(&before.page, err, fault)
    }

    /// The page was read.
    pub open spec fn took_handoff(
        &self,
        before: &Self,
        magic: u64,
        version: u32,
        nparcels: u32,
    ) -> bool {
        &&& self.abi == before.abi
        &&& self.header == before.header
        &&& self.accepted == 0
        &&& self.tx == before.tx
        &&& self.rx == before.rx
        &&& {
            let abi = before.abi;
            let payload = before.header.payload;
            if magic != abi.handoff_magic || version != abi.version {
                &&& self.same_parcels(before)
                &&& self.next == Step::Hang
                &&& self.page == before.page
            } else {
                &&& self.nparcels == nparcels
                &&& self.spun == 0
                &&& if payload == 0 {
                    self.gave_up(before, 0, Fault::NoPayload)
                } else if nparcels == 0 {
                    &&& self.next == Step::Jump(payload)
                    &&& self.page == (Handoff {
                        status: ShimStatus::Jumping,
                        ..before.page
                    })
                } else if nparcels > abi.max_parcels {
                    self.gave_up(before, nparcels as u64, Fault::TooManyParcels)
                } else {
                    &&& self.next == Step::PollReady
                    &&& self.page == (Handoff {
                        status: ShimStatus::Running,
                        ..before.page
                    })
                }
            }
        }
    }

    /// The ready mark was looked for.
    pub open spec fn took_ready(&self, before: &Self, ready: u64) -> bool {
        if ready != 0 {
            &&& self.same_parcels(before)
            &&& self.next == Step::ReadTree
            &&& self.page == before.page
        } else {
            &&& self.spun == before.spun + 1
            &&& self.nparcels == before.nparcels
            &&& self.accepted == before.accepted
            &&& self.abi == before.abi
            &&& self.header == before.header
            &&& self.tx == before.tx
            &&& self.rx == before.rx
            &&& if before.spun == READY_SPINS {
                self.gave_up(before, 0, Fault::NeverReady)
            } else {
                self.next == Step::PollReady && self.page == before.page
            }
        }
    }

    /// The first bytes of the tree were read.
    pub open spec fn took_tree_head(&self, before: &Self, head: Seq<u8>) -> bool {
        &&& self.same_parcels(before)
        &&& match total_size(head) {
            Some(n) => self.next == Step::ParseTree(n as u64) && self.page == before.page,
            None => self.gave_up(before, 0, Fault::NotATree),
        }
    }

    /// The tree was parsed, or could not be.
    pub open spec fn took_tree(&self, before: &Self, parsed: bool) -> bool {
        &&& self.same_parcels(before)
        &&& if parsed {
            self.next == Step::FindReg && self.page == before.page
        } else {
            self.gave_up(before, 0, Fault::TreeHeader)
        }
    }

    /// The resource manager was looked for.
    pub open spec fn took_reg(&self, before: &Self, reg: Option<Seq<u8>>) -> bool {
        &&& self.nparcels == before.nparcels
        &&& self.accepted == 0
        &&& self.abi == before.abi
        &&& self.header == before.header
        &&& self.spun == before.spun
        &&& match reg {
            None => {
                &&& self.same_parcels(before)
                &&& self.gave_up(before, 0, Fault::NoResourceManager)
            },
            Some(r) => if r.len() < 16 {
                &&& self.same_parcels(before)
                &&& self.gave_up(before, r.len() as u64, Fault::RegTooShort)
            } else {
                &&& self.tx == bytes::from_be(r.subrange(0, 8))
                &&& self.rx == bytes::from_be(r.subrange(8, 16))
                &&& self.next == Step::Accept(0)
                &&& self.page == before.page
            },
        }
    }

    /// A parcel was accepted, or was not.
    pub open spec fn took_accept(&self, before: &Self, result: Result<(), rm::Error>) -> bool {
        &&& self.nparcels == before.nparcels
        &&& self.header == before.header
        &&& self.abi == before.abi
        &&& self.spun == before.spun
        &&& self.tx == before.tx
        &&& self.rx == before.rx
        &&& result is Err ==> self.accepted == before.accepted
        &&& match result {
            Ok(()) => {
                &&& self.accepted == before.accepted + 1
                &&& if self.accepted < before.nparcels {
                    &&& self.next == Step::Accept(self.accepted)
                    &&& self.page == before.page
                } else {
                    self.follows_acceptance(before.page)
                }
            },
            Err(rm::Error::Refused(code)) => self.gave_up(
                before,
                code as u64,
                Fault::AcceptRefused,
            ),
            Err(rm::Error::Timeout) => self.gave_up(before, 0, Fault::AcceptTimeout),
            Err(rm::Error::Send(e)) => self.gave_up(before, e, Fault::AcceptSend),
        }
    }

    /// The tree names the window, or could not be made to.
    pub open spec fn took_window(&self, before: &Self, done: bool) -> bool {
        &&& self.same_parcels(before)
        &&& if done {
            &&& self.next == Step::Jump(before.header.payload)
            &&& self.page == (Handoff { status: ShimStatus::Jumping, ..before.page })
        } else {
            self.gave_up(before, 0, Fault::MemoryWindow)
        }
    }

    /// Starts from what the host wrote into the header. A header that is not to be trusted names
    /// no page to complain on.
    pub fn start(abi: ShimAbi, header: ShimHeader) -> (shim: Self)
        ensures
            shim.wf(),
            shim.abi == abi,
            shim.header == header,
            shim.nparcels == 0,
            shim.accepted == 0,
            shim.spun == 0,
            shim.tx == 0,
            shim.rx == 0,
            shim.page.status == ShimStatus::Absent,
            shim.page.error == 0,
            shim.page.exec_probe == 0,
            shim.page.msg@ == Seq::new(MSG_SIZE as nat, |i: int| 0u8),
            shim.next == first_step(abi, header),
    {
        let next = if header.magic != abi.header_magic || header.version != abi.version
            || header.handoff == 0 {
            Step::Hang
        } else {
            Step::ReadHandoff
        };
        Shim {
            abi,
            header,
            page: Handoff::new(),
            nparcels: 0,
            accepted: 0,
            spun: 0,
            tx: 0,
            rx: 0,
            next,
        }
    }

    /// Gives up.
    pub fn die(&mut self, err: u64, fault: Fault)
        requires
            old(self).wf(),
        ensures
            final(self).wf(),
            final(self).same_parcels(old(self)),
            final(self).gave_up(old(self), err, fault),
    {
        self.page.die(err, fault);
        self.next = Step::Dead;
    }

    /// Goes on once every parcel is in: to the payload.
    fn jump(&mut self)
        requires
            old(self).page.msg@.len() == MSG_SIZE,
            old(self).header.payload != 0,
            old(self).accepted == old(self).nparcels <= old(self).abi.max_parcels,
            old(self).spun <= READY_SPINS + 1,
        ensures
            final(self).wf(),
            final(self).same_parcels(old(self)),
            final(self).next == Step::Jump(old(self).header.payload),
            final(self).page == (Handoff { status: ShimStatus::Jumping, ..old(self).page }),
    {
        self.page.status = ShimStatus::Jumping;
        self.next = Step::Jump(self.header.payload);
    }

    /// Takes what the handoff page starts with.
    pub fn on_handoff(&mut self, magic: u64, version: u32, nparcels: u32)
        requires
            old(self).wf(),
            old(self).next is ReadHandoff,
            old(self).accepted == 0,
        ensures
            final(self).wf(),
            final(self).took_handoff(old(self), magic, version, nparcels),
    {
        if magic != self.abi.handoff_magic || version != self.abi.version {
            self.next = Step::Hang;
            return;
        }
        self.page.status = ShimStatus::Running;
        self.nparcels = nparcels;
        self.spun = 0;
        if self.header.payload == 0 {
            self.die(0, Fault::NoPayload);
        } else if nparcels == 0 {
            self.jump();
        } else if nparcels > self.abi.max_parcels {
            self.die(nparcels as u64, Fault::TooManyParcels);
        } else {
            self.next = Step::PollReady;
        }
    }

    /// Takes the ready mark as it was found.
    pub fn on_ready(&mut self, ready: u64)
        requires
            old(self).wf(),
            old(self).next is PollReady,
        ensures
            final(self).wf(),
            final(self).took_ready(old(self), ready),
    {
        if ready != 0 {
            self.next = Step::ReadTree;
            return;
        }
        if self.spun == READY_SPINS {
            self.die(0, Fault::NeverReady);
        }
        self.spun = self.spun + 1;
    }

    /// Takes the first bytes of the device tree.
    pub fn on_tree_head(&mut self, head: &[u8])
        requires
            old(self).wf(),
            old(self).next is ReadTree,
            head@.len() >= 8,
        ensures
            final(self).wf(),
            final(self).took_tree_head(old(self), head@),
    {
        match fdt_total_size(head) {
            Some(n) => {
                self.next = Step::ParseTree(n);
            },
            None => {
                self.die(0, Fault::NotATree);
            },
        }
    }

    /// Takes whether the tree parsed.
    pub fn on_tree(&mut self, parsed: bool)
        requires
            old(self).wf(),
            old(self).next is ParseTree,
        ensures
            final(self).wf(),
            final(self).took_tree(old(self), parsed),
    {
        if parsed {
            self.next = Step::FindReg;
        } else {
            self.die(0, Fault::TreeHeader);
        }
    }

    /// Takes the `reg` of the resource manager's node, where it has one: the queue to send on,
    /// then the one to receive from.
    pub fn on_reg(&mut self, reg: Option<&[u8]>)
        requires
            old(self).wf(),
            old(self).next is FindReg,
            old(self).accepted == 0 < old(self).nparcels,
        ensures
            final(self).wf(),
            final(self).took_reg(
                old(self),
                match reg {
                    Some(r) => Some(r@),
                    None => None,
                },
            ),
    {
        match reg {
            None => {
                self.die(0, Fault::NoResourceManager);
            },
            Some(r) => {
                if r.len() < 16 {
                    self.die(r.len() as u64, Fault::RegTooShort);
                } else {
                    self.tx = bytes::read_be(r, 0, 8);
                    self.rx = bytes::read_be(r, 8, 8);
                    self.next = Step::Accept(0);
                }
            },
        }
    }

    /// Takes what came of accepting a parcel.
    pub fn on_accept(&mut self, result: Result<(), rm::Error>)
        requires
            old(self).wf(),
            old(self).next is Accept,
        ensures
            final(self).wf(),
            final(self).took_accept(old(self), result),
    {
        match result {
            Ok(()) => {
                self.accepted = self.accepted + 1;
                if self.accepted < self.nparcels {
                    self.next = Step::Accept(self.accepted);
                } else {
                    self.page.status = ShimStatus::Accepted;
                    if self.header.probe_exec {
                        self.next = Step::ProbeExec;
                    } else if !self.header.no_dt_rewrite {
                        self.next = Step::SetWindow;
                    } else {
                        self.jump();
                    }
                }
            },
            Err(rm::Error::Refused(code)) => {
                self.die(code as u64, Fault::AcceptRefused);
            },
            Err(rm::Error::Timeout) => {
                self.die(0, Fault::AcceptTimeout);
            },
            Err(rm::Error::Send(e)) => {
                self.die(e, Fault::AcceptSend);
            },
        }
    }

    /// What follows once the last parcel is accepted: the probe where the header asks for it,
    /// then the tree unless the header says not to, then the payload.
    pub open spec fn follows_acceptance(&self, before: Handoff) -> bool {
        if self.header.probe_exec {
            &&& self.next == Step::ProbeExec
            &&& self.page == (Handoff { status: ShimStatus::Accepted, ..before })
        } else {
            self.follows_probe(before)
        }
    }

    /// What follows the probe.
    pub open spec fn follows_probe(&self, before: Handoff) -> bool {
        if !self.header.no_dt_rewrite {
            &&& self.next == Step::SetWindow
            &&& self.page == (Handoff { status: ShimStatus::Accepted, ..before })
        } else {
            &&& self.next == Step::Jump(self.header.payload)
            &&& self.page == (Handoff { status: ShimStatus::Jumping, ..before })
        }
    }

    /// Takes what executing out of the window gave.
    pub fn on_probe(&mut self, value: u64)
        requires
            old(self).wf(),
            old(self).next is ProbeExec,
            old(self).page.status == ShimStatus::Accepted,
        ensures
            final(self).wf(),
            final(self).same_parcels(old(self)),
            final(self).follows_probe((Handoff { exec_probe: value, ..old(self).page })),
    {
        self.page.exec_probe = value;
        if !self.header.no_dt_rewrite {
            self.next = Step::SetWindow;
        } else {
            self.jump();
        }
    }

    /// Takes whether the tree now names the window.
    pub fn on_window(&mut self, done: bool)
        requires
            old(self).wf(),
            old(self).next is SetWindow,
        ensures
            final(self).wf(),
            final(self).took_window(old(self), done),
    {
        if done {
            self.page.status = ShimStatus::DtDone;
            self.jump();
        } else {
            self.die(0, Fault::MemoryWindow);
        }
    }
}

/// The payload never runs short of memory: a shim that jumps has accepted every parcel the page
/// lists, and has one to jump to.
pub proof fn law_no_jump_before_every_accept(shim: Shim)
    requires
        shim.wf(),
        shim.next is Jump,
    ensures
        shim.accepted == shim.nparcels,
        shim.next == Step::Jump(shim.header.payload),
        shim.header.payload != 0,
{
}

/// Each fault is told in words of its own, which fit the page whole.
pub proof fn law_each_fault_is_told_in_its_words(a: Fault, b: Fault)
    ensures
        0 < a.message().len() < 256,
        a.message() == b.message() ==> a == b,
        a is NoPayload ==> "no payload"@.is_prefix_of(a.message()),
        a is TooManyParcels ==> "more parcels"@.is_prefix_of(a.message()),
        a is NeverReady ==> "the host never"@.is_prefix_of(a.message()),
        a is NotATree ==> "the device tree pointer"@.is_prefix_of(a.message()),
        a is TreeHeader ==> "the device tree header"@.is_prefix_of(a.message()),
        a is NoResourceManager ==> "no gunyah-resource-manager"@.is_prefix_of(a.message()),
        a is RegTooShort ==> "the resource manager node's reg"@.is_prefix_of(a.message()),
        a is AcceptRefused ==> "the resource manager refused"@.is_prefix_of(a.message()),
        a is AcceptTimeout ==> "MEM_ACCEPT never"@.is_prefix_of(a.message()),
        a is AcceptSend ==> "could not send"@.is_prefix_of(a.message()),
        a is MemoryWindow ==> "could not point /memory"@.is_prefix_of(a.message()),
        a is Panicked ==> "shim panicked"@.is_prefix_of(a.message()),
{
    reveal_strlit("no payload address in the header");
    reveal_strlit("no payload");
    reveal_strlit("more parcels than the handoff page can hold");
    reveal_strlit("more parcels");
    reveal_strlit("the host never finished sharing the window");
    reveal_strlit("the host never");
    reveal_strlit("the device tree pointer is not a device tree");
    reveal_strlit("the device tree pointer");
    reveal_strlit("the device tree header did not parse");
    reveal_strlit("the device tree header");
    reveal_strlit("no gunyah-resource-manager node in the device tree");
    reveal_strlit("no gunyah-resource-manager");
    reveal_strlit("the resource manager node's reg is too short");
    reveal_strlit("the resource manager node's reg");
    reveal_strlit("the resource manager refused MEM_ACCEPT");
    reveal_strlit("the resource manager refused");
    reveal_strlit("MEM_ACCEPT never got a reply");
    reveal_strlit("MEM_ACCEPT never");
    reveal_strlit("could not send MEM_ACCEPT to the resource manager");
    reveal_strlit("could not send");
    reveal_strlit("could not point /memory at the window");
    reveal_strlit("could not point /memory");
    reveal_strlit("shim panicked (a bounds check fired: the device tree is not what we assumed)");
    reveal_strlit("shim panicked");
    assert(Fault::NoPayload.message().len() == 32);
    assert(Fault::TooManyParcels.message().len() == 43);
    assert(Fault::NeverReady.message().len() == 42);
    assert(Fault::NotATree.message().len() == 44);
    assert(Fault::TreeHeader.message().len() == 36);
    assert(Fault::NoResourceManager.message().len() == 50);
    assert(Fault::RegTooShort.message().len() == 44);
    assert(Fault::AcceptRefused.message().len() == 39);
    assert(Fault::AcceptTimeout.message().len() == 28);
    assert(Fault::AcceptSend.message().len() == 49);
    assert(Fault::MemoryWindow.message().len() == 37);
    assert(Fault::Panicked.message().len() == 76);
    assert(Fault::NotATree.message()[4] != Fault::RegTooShort.message()[4]);
    match a {
        Fault::NoPayload => {
            assert(a.message().subrange(0, 10) =~= "no payload"@);
        },
        Fault::TooManyParcels => {
            assert(a.message().subrange(0, 12) =~= "more parcels"@);
        },
        Fault::NeverReady => {
            assert(a.message().subrange(0, 14) =~= "the host never"@);
        },
        Fault::NotATree => {
            assert(a.message().subrange(0, 23) =~= "the device tree pointer"@);
        },
        Fault::TreeHeader => {
            assert(a.message().subrange(0, 22) =~= "the device tree header"@);
        },
        Fault::NoResourceManager => {
            assert(a.message().subrange(0, 26) =~= "no gunyah-resource-manager"@);
        },
        Fault::RegTooShort => {
            assert(a.message().subrange(0, 31) =~= "the resource manager node's reg"@);
        },
        Fault::AcceptRefused => {
            assert(a.message().subrange(0, 28) =~= "the resource manager refused"@);
        },
        Fault::AcceptTimeout => {
            assert(a.message().subrange(0, 16) =~= "MEM_ACCEPT never"@);
        },
        Fault::AcceptSend => {
            assert(a.message().subrange(0, 14) =~= "could not send"@);
        },
        Fault::MemoryWindow => {
            assert(a.message().subrange(0, 23) =~= "could not point /memory"@);
        },
        Fault::Panicked => {
            assert(a.message().subrange(0, 13) =~= "shim panicked"@);
        },
    }
}

/// The text of a message area ends at its first zero, or where the area does.
pub proof fn law_a_text_ends_at_the_first_zero(msg: Seq<u8>, k: int)
    requires
        0 <= k <= msg.len(),
        forall|i: int| 0 <= i < k ==> #[trigger] msg[i] != 0,
        k < msg.len() ==> msg[k] == 0,
    ensures
        said_len(msg) == k,
    decreases msg.len(),
{
    if k > 0 {
        let rest = msg.drop_first();
        assert forall|i: int| 0 <= i < k - 1 implies #[trigger] rest[i] != 0 by {
            assert(rest[i] == msg[i + 1]);
        }
        assert(msg[0] != 0);
        law_a_text_ends_at_the_first_zero(rest, k - 1);
    }
}

/// What is said stands at the front, one zero behind it, and what stood behind that still does.
pub proof fn law_what_is_said_stands_in_front(msg: Seq<u8>, text: Seq<u8>, i: int)
    requires
        0 <= i < msg.len(),
    ensures
        said(msg, text).len() == msg.len(),
        i < text.len() && i < msg.len() - 1 ==> said(msg, text)[i] == text[i],
        i == text.len() || i == msg.len() - 1 && i < text.len() ==> said(msg, text)[i] == 0,
        i > text.len() ==> said(msg, text)[i] == msg[i],
{
}

/// A shim that gave up says so, by its error and in the fault's words, and keeps what the probe gave.
pub proof fn law_a_dead_shim_says_why(after: Shim, before: Shim, err: u64, fault: Fault)
    requires
        after.gave_up(&before, err, fault),
        before.page.msg@.len() > 0,
    ensures
        after.next is Dead,
        after.page.status is Error,
        after.page.error == err,
        after.page.exec_probe == before.page.exec_probe,
        after.page.msg@ == said(before.page.msg@, vstd::utf8::encode_utf8(fault.message())),
{
}

/// A device tree begins with its mark, highest byte first, and names its size behind that. It is
/// believed from the header's forty bytes up to eight mebibytes.
pub proof fn law_a_tree_names_its_size(head: Seq<u8>)
    requires
        head.len() >= 8,
    ensures
        ({
            let n = 16777216 * head[4] + 65536 * head[5] + 256 * head[6] + head[7];
            let marked = head[0] == 0xd0 && head[1] == 0x0d && head[2] == 0xfe && head[3] == 0xed;
            &&& marked && 40 <= n <= 8388608 ==> total_size(head) == Some(n as int)
            &&& !(marked && 40 <= n <= 8388608) ==> total_size(head) is None
        }),
{
    lemma_word(head, 0);
    lemma_word(head, 4);
}

proof fn lemma_word(head: Seq<u8>, at: int)
    requires
        0 <= at,
        at + 4 <= head.len(),
    ensures
        bytes::from_be(head.subrange(at, at + 4)) == 16777216 * head[at] + 65536 * head[at + 1]
            + 256 * head[at + 2] + head[at + 3],
{
    reveal_with_fuel(bytes::from_be, 5);
    let s = head.subrange(at, at + 4);
    assert(s.last() == head[at + 3]);
    assert(s.drop_last().last() == head[at + 2]);
    assert(s.drop_last().drop_last().last() == head[at + 1]);
    assert(s.drop_last().drop_last().drop_last().last() == head[at]);
}

/// Once the last parcel is in, the probe comes first where it is asked for, then the tree unless it
/// is to be left alone, and then the payload. The page says that all is accepted until the jump, and
/// nothing else on it changes.
pub proof fn law_the_payload_comes_last(shim: Shim, before: Handoff)
    requires
        shim.follows_acceptance(before),
    ensures
        shim.header.probe_exec <==> shim.next is ProbeExec,
        !shim.header.probe_exec && !shim.header.no_dt_rewrite <==> shim.next is SetWindow,
        !shim.header.probe_exec && shim.header.no_dt_rewrite <==> shim.next is Jump,
        shim.next matches Step::Jump(a) ==> a == shim.header.payload && shim.page.status is Jumping,
        !(shim.next is Jump) ==> shim.page.status is Accepted,
        shim.page.error == before.error && shim.page.exec_probe == before.exec_probe
            && shim.page.msg == before.msg,
{
}

/// What follows the probe is the tree, unless it is to be left alone, and then the payload.
pub proof fn law_the_tree_comes_before_the_payload(shim: Shim, before: Handoff)
    requires
        shim.follows_probe(before),
    ensures
        !shim.header.no_dt_rewrite <==> shim.next is SetWindow,
        shim.header.no_dt_rewrite <==> shim.next is Jump,
        shim.next matches Step::Jump(a) ==> a == shim.header.payload && shim.page.status is Jumping,
        !(shim.next is Jump) ==> shim.page.status is Accepted,
        shim.page.error == before.error && shim.page.exec_probe == before.exec_probe
            && shim.page.msg == before.msg,
{
}

/// Parcels are accepted one after the other: the next to be accepted is the one after those that
/// were. Nothing is accepted, and no tree is read, without a payload or beyond what the page can list.
pub proof fn law_parcels_are_accepted_in_turn(shim: Shim)
    requires
        shim.wf(),
    ensures
        shim.next matches Step::Accept(i) ==> i == shim.accepted && i < shim.nparcels,
        shim.next is ProbeExec || shim.next is SetWindow ==> shim.accepted == shim.nparcels
            && shim.nparcels > 0,
        shim.next is Accept || shim.next is ReadTree || shim.next is ParseTree || shim.next
            is FindReg || shim.next is PollReady ==> shim.header.payload != 0 && shim.nparcels
            <= shim.abi.max_parcels,
        shim.next is Dead ==> shim.page.status is Error,
        shim.accepted <= shim.nparcels,
        shim.page.msg@.len() == 256,
{
}

/// A page that is not to be trusted is not written to. One that is to be is acted on: a payload must
/// be named, no more parcels than fit may be listed, and where none is, the payload runs at once.
pub proof fn law_a_page_is_acted_on(
    after: Shim,
    before: Shim,
    magic: u64,
    version: u32,
    nparcels: u32,
)
    requires
        after.took_handoff(&before, magic, version, nparcels),
    ensures
        ({
            let trusted = magic == before.abi.handoff_magic && version == before.abi.version;
            &&& after.next is Hang <==> !trusted
            &&& !trusted ==> after.page == before.page && after.nparcels == before.nparcels
            &&& trusted ==> after.nparcels == nparcels && after.spun == 0
            &&& after.next is Jump <==> trusted && before.header.payload != 0 && nparcels == 0
            &&& after.next matches Step::Jump(a) ==> a == before.header.payload && after.page.status
                is Jumping
            &&& after.next is PollReady <==> trusted && before.header.payload != 0 && 0 < nparcels
                <= before.abi.max_parcels
            &&& after.next is PollReady ==> after.page.status is Running && after.page.error
                == before.page.error && after.page.msg == before.page.msg
            &&& trusted && before.header.payload == 0 ==> after.gave_up(
                &before,
                0,
                Fault::NoPayload,
            )
            &&& trusted && before.header.payload != 0 && nparcels > before.abi.max_parcels
                ==> after.gave_up(&before, nparcels as u64, Fault::TooManyParcels)
            &&& after.header == before.header && after.abi == before.abi && after.accepted == 0
                && after.tx == before.tx && after.rx == before.rx
        }),
{
}

/// The host is waited for until its mark is there, and no longer than so many looks; a look in vain is
/// counted, and nothing else changes.
pub proof fn law_the_host_is_waited_for(after: Shim, before: Shim, ready: u64)
    requires
        after.took_ready(&before, ready),
        before.spun <= 200_000_000,
    ensures
        after.next is ReadTree <==> ready != 0,
        ready != 0 ==> after.spun == before.spun && after.page == before.page,
        ready == 0 ==> after.spun == before.spun + 1,
        ready == 0 && before.spun < 200_000_000 ==> after.next is PollReady && after.page
            == before.page,
        ready == 0 && before.spun == 200_000_000 ==> after.gave_up(&before, 0, Fault::NeverReady),
        after.header == before.header && after.abi == before.abi && after.nparcels
            == before.nparcels && after.accepted == before.accepted && after.tx == before.tx
            && after.rx == before.rx,
{
}

/// A tree is parsed in the size that it names, and then the resource manager is looked for in it. What
/// is no tree, or does not parse, ends the shim by its own fault.
pub proof fn law_a_tree_is_parsed_in_its_size(
    after: Shim,
    before: Shim,
    head: Seq<u8>,
    parsed: bool,
)
    ensures
        after.took_tree_head(&before, head) ==> {
            &&& total_size(head) matches Some(n) ==> after.next == Step::ParseTree(n as u64)
                && after.page == before.page
            &&& total_size(head) is None ==> after.gave_up(&before, 0, Fault::NotATree)
            &&& after.same_parcels(&before)
        },
        after.took_tree(&before, parsed) ==> {
            &&& after.next is FindReg <==> parsed
            &&& parsed ==> after.page == before.page
            &&& !parsed ==> after.gave_up(&before, 0, Fault::TreeHeader)
            &&& after.same_parcels(&before)
        },
{
}

/// The resource manager's queues stand in its `reg`, the one to send on first, highest byte first. With
/// them the first parcel is accepted; a `reg` without both, or none, ends the shim by its own fault.
pub proof fn law_the_queues_stand_in_the_reg(after: Shim, before: Shim, reg: Option<Seq<u8>>)
    requires
        after.took_reg(&before, reg),
    ensures
        after.next is Accept <==> (reg matches Some(r) && r.len() >= 16),
        after.next matches Step::Accept(i) ==> i == 0 && after.page == before.page,
        (reg matches Some(r) && r.len() >= 16) ==> {
            let r = reg->Some_0;
            &&& after.tx == bytes::from_be(r.take(8))
            &&& after.rx == bytes::from_be(r.skip(8).take(8))
        },
        (reg matches Some(r) && r.len() < 16) ==> after.gave_up(
            &before,
            reg->Some_0.len() as u64,
            Fault::RegTooShort,
        ),
        reg is None ==> after.gave_up(&before, 0, Fault::NoResourceManager),
        after.next is Dead ==> after.tx == before.tx && after.rx == before.rx,
        after.nparcels == before.nparcels && after.spun == before.spun && after.header
            == before.header && after.abi == before.abi && after.accepted == 0,
{
    if let Some(r) = reg {
        if r.len() >= 16 {
            assert(r.take(8) =~= r.subrange(0, 8));
            assert(r.skip(8).take(8) =~= r.subrange(8, 16));
        }
    }
}

/// A parcel that was accepted is counted, and the next one follows until there is none; then what the
/// header asks for does. One that was not ends the shim, and says why by the error that came.
pub proof fn law_an_accepted_parcel_is_counted(
    after: Shim,
    before: Shim,
    result: Result<(), rm::Error>,
)
    requires
        after.took_accept(&before, result),
        before.wf(),
        before.next is Accept,
    ensures
        result is Ok ==> after.accepted == before.accepted + 1,
        result is Err ==> after.accepted == before.accepted,
        result is Ok && before.accepted + 1 < before.nparcels ==> after.next == Step::Accept(
            (before.accepted + 1) as u32,
        ) && after.page == before.page,
        result is Ok && before.accepted + 1 == before.nparcels ==> after.follows_acceptance(
            before.page,
        ),
        result matches Err(rm::Error::Refused(code)) ==> after.gave_up(
            &before,
            code as u64,
            Fault::AcceptRefused,
        ),
        result matches Err(rm::Error::Send(e)) ==> after.gave_up(&before, e, Fault::AcceptSend),
        result == Err::<(), rm::Error>(rm::Error::Timeout) ==> after.gave_up(
            &before,
            0,
            Fault::AcceptTimeout,
        ),
        after.nparcels == before.nparcels && after.spun == before.spun && after.header
            == before.header && after.abi == before.abi && after.tx == before.tx && after.rx
            == before.rx,
{
}

/// Once the tree names the window the payload runs; where it cannot be made to, it never does.
pub proof fn law_the_payload_runs_in_its_window(after: Shim, before: Shim, done: bool)
    requires
        after.took_window(&before, done),
    ensures
        after.next is Jump <==> done,
        after.next matches Step::Jump(a) ==> a == before.header.payload && after.page.status
            is Jumping && after.page.error == before.page.error && after.page.msg
            == before.page.msg && after.page.exec_probe == before.page.exec_probe,
        !done ==> after.gave_up(&before, 0, Fault::MemoryWindow),
        after.same_parcels(&before),
{
}

/// What is the same is all that is not the page or the step.
pub proof fn law_the_same_parcels_are_the_same(after: Shim, before: Shim)
    requires
        after.same_parcels(&before),
    ensures
        after.abi == before.abi && after.header == before.header && after.nparcels
            == before.nparcels && after.accepted == before.accepted && after.spun == before.spun
            && after.tx == before.tx && after.rx == before.rx,
{
}

/// A header is trusted by its mark and its version, and only with a page to speak on; otherwise the
/// shim does nothing at all.
pub proof fn law_a_header_is_trusted_by_its_mark(abi: ShimAbi, header: ShimHeader)
    ensures
        first_step(abi, header) is ReadHandoff <==> header.magic == abi.header_magic
            && header.version == abi.version && header.handoff != 0,
        first_step(abi, header) is ReadHandoff || first_step(abi, header) is Hang,
{
}

} // verus!
