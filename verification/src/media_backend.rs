//! A media device in a process of its own: what it is told, and the life of its two queues.
use crate::guest_mem::AddressRange;
use vstd::prelude::*;

verus! {

/// The queues of a media device: for commands, and for events.
pub const QUEUE_COUNT: usize = 2;

/// The feature that the vhost-user protocol itself is negotiated by: bit 30.
pub const PROTOCOL_FEATURES: u64 = 0x4000_0000;

/// The feature by which the guest hands memory over before the device touches it: bit 33.
pub const ACCESS_PLATFORM: u64 = 0x2_0000_0000;

/// How long describing a device may take, in seconds.
pub const ENUMERATION_TIMEOUT_SECS: u64 = 15;

/// Which device to be.
#[derive(Clone, Copy, Debug, PartialEq, Eq, Structural)]
pub enum MediaDeviceKind {
    Simple,
    Loopback,
    Camera,
    Decoder,
    Encoder,
}

/// All that the process is told.
pub struct MediaBackendParams {
    pub kind: MediaDeviceKind,
    /// The name of the card; each kind has a default.
    pub card: Option<String>,
    /// Which host camera.
    pub camera_id: Option<String>,
    pub role: Option<String>,
    /// Whether codecs in software are offered too.
    pub allow_sw: bool,
    /// Where the pool begins in the guest's memory.
    pub pool_gpa: u64,
    /// Begin and size of every window that the host may touch.
    pub access_windows: Vec<(u64, u64)>,
    /// Whether the guest is to hand memory over.
    pub access_platform: bool,
}

/// Whether a window is one: not empty, and inside the address space.
pub open spec fn is_window(w: (u64, u64)) -> bool {
    w.1 > 0 && w.0 + w.1 - 1 <= u64::MAX
}

/// The features that are offered: those of any device, the one of the protocol, and that of handing
/// memory over where the guest is to.
pub open spec fn features_of(base: u64, access_platform: bool) -> u64 {
    if access_platform {
        base | PROTOCOL_FEATURES | ACCESS_PLATFORM
    } else {
        base | PROTOCOL_FEATURES
    }
}

/// A window that is none.
#[derive(Clone, Copy, Debug, PartialEq, Eq, Structural)]
pub struct BadWindow {
    pub base: u64,
    pub size: u64,
}

/// A queue that there is none of.
#[derive(Clone, Copy, Debug, PartialEq, Eq, Structural)]
pub struct UnknownQueue {
    pub idx: usize,
}

/// The windows as ranges, or the first that is none.
pub fn check_windows(windows: &Vec<(u64, u64)>) -> (r: Result<Vec<AddressRange>, BadWindow>)
    ensures
        match r {
            Ok(ranges) => {
                &&& ranges@.len() == windows@.len()
                &&& forall|i: int|
                    0 <= i < windows@.len() ==> is_window(#[trigger] windows@[i]) && ranges@[i]
                        == (AddressRange {
                        start: windows@[i].0,
                        end: (windows@[i].0 + windows@[i].1 - 1) as u64,
                    })
            },
            Err(bad) => exists|i: int|
                {
                    &&& 0 <= i < windows@.len()
                    &&& !is_window(#[trigger] windows@[i])
                    &&& (bad.base, bad.size) == windows@[i]
                    &&& forall|j: int| 0 <= j < i ==> is_window(#[trigger] windows@[j])
                },
        },
{
    let mut ranges: Vec<AddressRange> = Vec::new();
    let mut i: usize = 0;
    while i < windows.len()
        invariant
            i <= windows@.len(),
            ranges@.len() == i,
            forall|j: int|
                0 <= j < i ==> is_window(#[trigger] windows@[j]) && ranges@[j] == (AddressRange {
                    start: windows@[j].0,
                    end: (windows@[j].0 + windows@[j].1 - 1) as u64,
                }),
        decreases windows@.len() - i,
    {
        let (base, size): (u64, u64) = windows[i];
        match AddressRange::from_start_and_size(base, size) {
            Some(range) => {
                if range.is_empty() {
                    assert(!is_window(windows@[i as int]));
                    return Err(BadWindow { base, size });
                }
                ranges.push(range);
            },
            None => {
                assert(!is_window(windows@[i as int]));
                return Err(BadWindow { base, size });
            },
        }
        i = i + 1;
    }
    Ok(ranges)
}

/// A device as a value, but for what its queues are.
pub struct BackendView<Q> {
    pub command: Option<Q>,
    pub event: Option<Q>,
    /// Whether a worker has the queues.
    pub running: bool,
    /// Whether the pool was found.
    pub pool: bool,
}

impl<Q> BackendView<Q> {
    /// The queues are here, or with the worker.
    pub open spec fn wf(self) -> bool {
        self.running ==> self.command is None && self.event is None
    }

    pub open spec fn queue(self, idx: int) -> Option<Q> {
        if idx == 0 {
            self.command
        } else if idx == 1 {
            self.event
        } else {
            None
        }
    }

    /// What becomes of a queue that is started, and what is then.
    pub open spec fn starting(self, idx: usize, queue: Q) -> (Result<bool, UnknownQueue>, Self) {
        if idx < QUEUE_COUNT {
            let v = self.with_queue(idx as int, Some(queue));
            (Ok(v.command is Some && v.event is Some), v)
        } else {
            (Err(UnknownQueue { idx }), self)
        }
    }

    pub open spec fn with_queue(self, idx: int, q: Option<Q>) -> Self {
        if idx == 0 {
            BackendView { command: q, ..self }
        } else if idx == 1 {
            BackendView { event: q, ..self }
        } else {
            self
        }
    }
}

/// A media device served to a virtual machine from outside it. `Q` is a queue.
pub struct MediaBackend<Q> {
    params: MediaBackendParams,
    avail_features: u64,
    windows: Vec<AddressRange>,
    command: Option<Q>,
    event: Option<Q>,
    running: bool,
    pool: bool,
}

impl<Q> View for MediaBackend<Q> {
    type V = BackendView<Q>;

    closed spec fn view(&self) -> BackendView<Q> {
        BackendView {
            command: self.command,
            event: self.event,
            running: self.running,
            pool: self.pool,
        }
    }
}

impl<Q> MediaBackend<Q> {
    pub closed spec fn told(&self) -> MediaBackendParams {
        self.params
    }

    pub closed spec fn offers(&self) -> u64 {
        self.avail_features
    }

    pub closed spec fn may_touch(&self) -> Seq<AddressRange> {
        self.windows@
    }

    /// What never changes.
    pub open spec fn same_device(&self, o: &Self) -> bool {
        &&& self.told() == o.told()
        &&& self.offers() == o.offers()
        &&& self.may_touch() == o.may_touch()
    }

    /// A device that has no queues yet. `base_features` are those of a device of a machine that
    /// is not protected: what that one is, this process is not told, but for the one feature that
    /// it decides.
    pub fn new(params: MediaBackendParams, base_features: u64) -> (r: Result<Self, BadWindow>)
        ensures
            match r {
                Ok(b) => {
                    &&& b@ == (BackendView::<Q> {
                        command: None,
                        event: None,
                        running: false,
                        pool: false,
                    })
                    &&& b@.wf()
                    &&& b.told() == params
                    &&& b.offers() == features_of(base_features, params.access_platform)
                    &&& b.may_touch().len() == params.access_windows@.len()
                    &&& forall|i: int|
                        0 <= i < params.access_windows@.len() ==> is_window(
                            #[trigger] params.access_windows@[i],
                        ) && b.may_touch()[i] == (AddressRange {
                            start: params.access_windows@[i].0,
                            end: (params.access_windows@[i].0 + params.access_windows@[i].1
                                - 1) as u64,
                        })
                },
                Err(bad) => exists|i: int|
                    {
                        &&& 0 <= i < params.access_windows@.len()
                        &&& !is_window(#[trigger] params.access_windows@[i])
                        &&& (bad.base, bad.size) == params.access_windows@[i]
                        &&& forall|j: int|
                            0 <= j < i ==> is_window(#[trigger] params.access_windows@[j])
                    },
            },
    {
        match check_windows(&params.access_windows) {
            Ok(windows) => {
                let mut avail_features: u64 = base_features | PROTOCOL_FEATURES;
                if params.access_platform {
                    avail_features = avail_features | ACCESS_PLATFORM;
                }
                Ok(
                    MediaBackend {
                        params,
                        avail_features,
                        windows,
                        command: None,
                        event: None,
                        running: false,
                        pool: false,
                    },
                )
            },
            Err(bad) => Err(bad),
        }
    }

    /// What the process was told.
    pub fn params(&self) -> (p: &MediaBackendParams)
        ensures
            *p == self.told(),
    {
        &self.params
    }

    /// The features offered.
    pub fn features(&self) -> (f: u64)
        ensures
            f == self.offers(),
    {
        self.avail_features
    }

    /// The windows that the host may touch.
    pub fn windows(&self) -> (w: &Vec<AddressRange>)
        ensures
            w@ == self.may_touch(),
    {
        &self.windows
    }

    /// How many queues there are.
    pub fn max_queue_num(&self) -> (n: usize)
        ensures
            n == QUEUE_COUNT,
    {
        QUEUE_COUNT
    }

    /// Whether a worker has the queues. It is stopped before any of them is changed.
    pub fn is_running(&self) -> (b: bool)
        ensures
            b == self@.running,
    {
        self.running
    }

    /// Takes the queues back from a worker that has stopped.
    pub fn on_stopped(&mut self, command: Q, event: Q)
        requires
            old(self)@.wf(),
            old(self)@.running,
        ensures
            final(self)@.wf(),
            final(self).same_device(old(self)),
            final(self)@ == (BackendView {
                command: Some(command),
                event: Some(event),
                running: false,
                ..old(self)@
            }),
    {
        self.running = false;
        self.command = Some(command);
        self.event = Some(event);
    }

    /// Takes a queue, where there is one of that number. An earlier one in its place is dropped.
    /// Returns whether both are here, so that the worker is to be started.
    pub fn start_queue(&mut self, idx: usize, queue: Q) -> (r: Result<bool, UnknownQueue>)
        requires
            old(self)@.wf(),
            idx < QUEUE_COUNT ==> !old(self)@.running,
        ensures
            final(self)@.wf(),
            final(self).same_device(old(self)),
            (r, final(self)@) == old(self)@.starting(idx, queue),
    {
        if idx >= QUEUE_COUNT {
            return Err(UnknownQueue { idx });
        }
        if idx == 0 {
            self.command = Some(queue);
        } else {
            self.event = Some(queue);
        }
        Ok(self.command.is_some() && self.event.is_some())
    }

    /// Whether the pool is still to be found. It is looked for when a worker is first started,
    /// which is when there is a memory to look in, and kept.
    pub fn needs_pool(&self) -> (b: bool)
        ensures
            b == !self@.pool,
    {
        !self.pool
    }

    /// Takes that the pool was found.
    pub fn on_pool(&mut self)
        requires
            old(self)@.wf(),
        ensures
            final(self)@.wf(),
            final(self).same_device(old(self)),
            final(self)@ == (BackendView { pool: true, ..old(self)@ }),
    {
        self.pool = true;
    }

    /// Hands both queues to a worker.
    pub fn take_queues(&mut self) -> (queues: Option<(Q, Q)>)
        requires
            old(self)@.wf(),
        ensures
            final(self)@.wf(),
            final(self).same_device(old(self)),
            match queues {
                Some(q) => {
                    &&& old(self)@.command == Some(q.0)
                    &&& old(self)@.event == Some(q.1)
                    &&& final(self)@ == (BackendView { command: None, event: None, ..old(self)@ })
                },
                None => {
                    &&& old(self)@.command is None || old(self)@.event is None
                    &&& final(self)@ == old(self)@
                },
            },
    {
        if self.command.is_none() || self.event.is_none() {
            return None;
        }
        match (self.command.take(), self.event.take()) {
            (Some(c), Some(e)) => Some((c, e)),
            _ => None,
        }
    }

    /// Takes that the worker has the queues.
    pub fn on_started(&mut self)
        requires
            old(self)@.wf(),
            old(self)@.command is None,
            old(self)@.event is None,
        ensures
            final(self)@.wf(),
            final(self).same_device(old(self)),
            final(self)@ == (BackendView { running: true, ..old(self)@ }),
    {
        self.running = true;
    }

    /// Hands a queue back. The worker, which cannot do with one, was stopped before.
    pub fn stop_queue(&mut self, idx: usize) -> (queue: Option<Q>)
        requires
            old(self)@.wf(),
            !old(self)@.running,
        ensures
            final(self)@.wf(),
            final(self).same_device(old(self)),
            queue == old(self)@.queue(idx as int),
            final(self)@ == old(self)@.with_queue(idx as int, None),
    {
        if idx == 0 {
            self.command.take()
        } else if idx == 1 {
            self.event.take()
        } else {
            None
        }
    }

    /// Drops both queues. The worker was stopped before.
    pub fn reset(&mut self)
        requires
            old(self)@.wf(),
            !old(self)@.running,
        ensures
            final(self)@.wf(),
            final(self).same_device(old(self)),
            final(self)@ == (BackendView { command: None, event: None, ..old(self)@ }),
    {
        self.command = None;
        self.event = None;
    }
}

/// A queue that is started is the one that is handed back, whatever became of the other.
pub proof fn law_a_queue_comes_back<Q>(v: BackendView<Q>, idx: int, other: int, q: Q, r: Q)
    requires
        0 <= idx < QUEUE_COUNT,
        0 <= other < QUEUE_COUNT,
        idx != other,
    ensures
        v.with_queue(idx, Some(q)).with_queue(other, Some(r)).queue(idx) == Some(q),
        v.with_queue(idx, Some(q)).with_queue(other, None).queue(idx) == Some(q),
{
}

/// Whether a kind of device is served from a process of its own.
pub fn is_served(kind: MediaDeviceKind) -> (b: bool)
    ensures
        b == !(kind is Encoder),
{
    match kind {
        MediaDeviceKind::Encoder => false,
        _ => true,
    }
}

/// The card's name, where the kind takes one.
pub open spec fn card_of(kind: MediaDeviceKind, card: Option<Seq<char>>, camera: Seq<char>) -> Option<
    Seq<char>,
> {
    match kind {
        MediaDeviceKind::Simple => None,
        MediaDeviceKind::Encoder => None,
        _ => match card {
            Some(c) => Some(c),
            None => Some(
                match kind {
                    MediaDeviceKind::Loopback => "droidvm loopback"@,
                    MediaDeviceKind::Decoder => "droidvm decoder"@,
                    _ => "camera "@ + camera,
                },
            ),
        },
    }
}

/// The card's name: the one given, or the default of the kind, which for a camera tells which one
/// it is. `None` where the kind takes no name, or is not served.
pub fn card_for(kind: MediaDeviceKind, card: Option<&str>, camera: &str) -> (name: Option<String>)
    ensures
        match card_of(
            kind,
            match card {
                Some(c) => Some(c@),
                None => None,
            },
            camera@,
        ) {
            Some(n) => name is Some && name->0@ == n,
            None => name is None,
        },
{
    match kind {
        MediaDeviceKind::Simple | MediaDeviceKind::Encoder => {
            return None;
        },
        _ => {},
    }
    if let Some(c) = card {
        return Some(c.to_owned());
    }
    match kind {
        MediaDeviceKind::Loopback => Some("droidvm loopback".to_owned()),
        MediaDeviceKind::Decoder => Some("droidvm decoder".to_owned()),
        _ => {
            let mut name: String = "camera ".to_owned();
            name.append(camera);
            Some(name)
        },
    }
}

/// A window has a byte, and its last one has an address.
pub proof fn law_a_window_has_a_last_byte(w: (u64, u64), last: u64)
    ensures
        is_window(w) && last - w.0 == w.1 - 1 ==> w.0 <= last,
        w.0 <= last && w.1 == last - w.0 + 1 ==> is_window(w),
        w.1 == 0 ==> !is_window(w),
        w.0 + w.1 > u64::MAX + 1 ==> !is_window(w),
{
}

/// The first queue is for commands and the second for events, and setting one leaves the other, the
/// worker and the pool alone. There is no third.
pub proof fn law_each_queue_has_its_place<Q>(v: BackendView<Q>, idx: int, q: Option<Q>)
    ensures
        v.queue(0) == v.command && v.queue(1) == v.event,
        idx != 0 && idx != 1 ==> v.queue(idx) is None && v.with_queue(idx, q) == v,
        v.with_queue(0, q).command == q && v.with_queue(0, q).event == v.event,
        v.with_queue(1, q).event == q && v.with_queue(1, q).command == v.command,
        v.with_queue(idx, q).running == v.running && v.with_queue(idx, q).pool == v.pool,
{
}

/// A worker has both queues or none: while it runs, none is here.
pub proof fn law_a_worker_has_both_queues<Q>(v: BackendView<Q>, idx: int)
    requires
        v.wf(),
        v.running,
    ensures
        v.queue(idx) is None,
{
}

/// A card that is named has that name, whatever it is. One that is not is told from the cards of
/// other kinds, and a camera from other cameras.
pub proof fn law_a_card_has_its_name(kind: MediaDeviceKind, card: Seq<char>, camera: Seq<char>)
    ensures
        kind is Loopback || kind is Camera || kind is Decoder ==> card_of(kind, Some(card), camera)
            == Some(card) && card_of(kind, None, camera) is Some,
        kind is Simple || kind is Encoder ==> card_of(kind, Some(card), camera) is None && card_of(
            kind,
            None,
            camera,
        ) is None,
        card_of(MediaDeviceKind::Loopback, None, camera) == Some("droidvm loopback"@),
        card_of(MediaDeviceKind::Decoder, None, camera) == Some("droidvm decoder"@),
        card_of(MediaDeviceKind::Camera, None, camera) matches Some(n) && n.len() == 7 + camera.len()
            && n.take(7) == "camera "@ && n.skip(7) == camera,
{
    reveal_strlit("camera ");
    let n = "camera "@ + camera;
    assert(n.take(7) =~= "camera "@);
    assert(n.skip(7) =~= camera);
}

/// Bit 30 is always offered, and bit 33 where memory is to be handed over. Every other bit is offered
/// where it is one of the base features, and those are all offered.
pub proof fn law_each_feature_has_its_bit(base: u64, access_platform: bool, bit: u64)
    requires
        bit < 64,
    ensures
        features_of(base, access_platform) & (1u64 << 30u64) != 0,
        access_platform ==> features_of(base, access_platform) & (1u64 << 33u64) != 0,
        base & (1u64 << bit) != 0 ==> features_of(base, access_platform) & (1u64 << bit) != 0,
        bit != 30 && (bit != 33 || !access_platform) && base & (1u64 << bit) == 0 ==> features_of(
            base,
            access_platform,
        ) & (1u64 << bit) == 0,
{
    let f: u64 = base | 0x4000_0000u64;
    let g: u64 = base | 0x4000_0000u64 | 0x2_0000_0000u64;
    assert(f & (1u64 << 30u64) != 0 && g & (1u64 << 30u64) != 0 && g & (1u64 << 33u64) != 0 && (base
        & (1u64 << bit) != 0 ==> f & (1u64 << bit) != 0 && g & (1u64 << bit) != 0) && (bit != 30
        && base & (1u64 << bit) == 0 ==> f & (1u64 << bit) == 0) && (bit != 30 && bit != 33 && base
        & (1u64 << bit) == 0 ==> g & (1u64 << bit) == 0)) by (bit_vector)
        requires
            bit < 64,
            f == base | 0x4000_0000u64,
            g == base | 0x4000_0000u64 | 0x2_0000_0000u64,
    ;
}

/// What a device is never changes: what it was told, what it offers, and what it may touch.
pub proof fn law_a_device_stays_what_it_is<Q>(after: MediaBackend<Q>, before: MediaBackend<Q>)
    requires
        after.same_device(&before),
    ensures
        after.told() == before.told() && after.offers() == before.offers() && after.may_touch()
            == before.may_touch(),
{
}

/// A worker is started with the second of its queues, whichever that is, and there is no third one.
pub proof fn law_a_worker_is_started_with_both_queues<Q>(v: BackendView<Q>, a: Q, b: Q, idx: usize)
    requires
        v.command is None,
        v.event is None,
    ensures
        ({
            let (one, w) = v.starting(0, a);
            let (two, x) = w.starting(1, b);
            &&& one == Ok::<bool, UnknownQueue>(false) && two == Ok::<bool, UnknownQueue>(true)
            &&& x.command == Some(a) && x.event == Some(b)
        }),
        ({
            let (one, w) = v.starting(1, b);
            let (two, x) = w.starting(0, a);
            &&& one == Ok::<bool, UnknownQueue>(false) && two == Ok::<bool, UnknownQueue>(true)
            &&& x.command == Some(a) && x.event == Some(b)
        }),
        idx > 1 ==> v.starting(idx, a) == (Err::<bool, UnknownQueue>(UnknownQueue { idx }), v),
{
}

} // verus!
