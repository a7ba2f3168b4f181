//! The compressed screen on a connection of its own: what is sent, and to whom.
//!
//! A connection is told the size of the picture once, and then units: a length, and as many
//! bytes. A unit of length zero is a heartbeat. Whoever cannot be served is told why. There is
//! one client at a time; it waits until there is an encoder to say the size.
//!
//! The sockets are elsewhere. A connection is known here by a number.
use crate::bytes;
use crate::text;
use vstd::prelude::*;

verus! {

/// How long a client may hear nothing before it is sent a heartbeat.
pub const HEARTBEAT_INTERVAL_MS: u64 = 3_000;

/// How long a write may take before the client counts as gone.
pub const CLIENT_WRITE_TIMEOUT_MS: u64 = 10_000;

/// How much the kernel may hold for a client.
pub const CLIENT_SEND_BUFFER: i32 = 262_144;

/// What a served connection begins with: `DVH2`.
pub open spec fn magic_stream() -> Seq<u8> {
    seq![0x44u8, 0x56u8, 0x48u8, 0x32u8]
}

/// What a refused connection begins with: `DVHX`.
pub open spec fn magic_refused() -> Seq<u8> {
    seq![0x44u8, 0x56u8, 0x48u8, 0x58u8]
}

/// Why a connection is refused. The word before the colon is what a receiver may go by, and never
/// changes; the rest is for people.
#[derive(Clone, Copy, Debug, PartialEq, Eq, Structural)]
pub enum Refusal {
    /// There is no encoder, and there will be none.
    NoEncoder,
    /// Another client has the stream.
    Busy,
    /// No frame has come yet.
    NoFrame,
}

impl Refusal {
    pub open spec fn text(self) -> Seq<char> {
        match self {
            Refusal::NoEncoder => "no-encoder: this device has no H.264 encoder we can use"@,
            Refusal::Busy => "busy: another client already has the stream"@,
            Refusal::NoFrame =>
                "no-frame: no encoded frame is available; the screen may be idle"@,
        }
    }

    /// What the client is told.
    pub fn reason(self) -> (r: &'static str)
        ensures
            r@ == self.text(),
    {
        match self {
            Refusal::NoEncoder => "no-encoder: this device has no H.264 encoder we can use",
            Refusal::Busy => "busy: another client already has the stream",
            Refusal::NoFrame =>
                "no-frame: no encoded frame is available; the screen may be idle",
        }
    }
}

/// All that a refused client is told: the magic, the reason and a zero.
pub open spec fn refusal_of(r: Refusal) -> Seq<u8> {
    (magic_refused() + text::utf8(r.text())).push(0)
}

/// All that a refused client is told.
pub fn refusal(r: Refusal) -> (said: Vec<u8>)
    ensures
        said@ == refusal_of(r),
{
    let mut said: Vec<u8> = Vec::new();
    said.push(0x44);
    said.push(0x56);
    said.push(0x48);
    said.push(0x58);
    assert(said@ =~= magic_refused());
    let reason: &[u8] = r.reason().as_bytes();
    append(&mut said, reason);
    said.push(0);
    said
}

/// Appends bytes.
fn append(out: &mut Vec<u8>, more: &[u8])
    ensures
        final(out)@ == old(out)@ + more@,
{
    let mut i: usize = 0;
    while i < more.len()
        invariant
            i <= more@.len(),
            out@ == old(out)@ + more@.take(i as int),
        decreases more@.len() - i,
    {
        out.push(more[i]);
        i = i + 1;
        assert(out@ =~= old(out)@ + more@.take(i as int));
    }
    assert(more@.take(i as int) =~= more@);
}

/// A unit: the length, lowest byte first, and the bytes.
pub open spec fn unit_of(payload: Seq<u8>) -> Seq<u8> {
    bytes::le_bytes(payload.len() as u32 as int, 4) + payload
}

/// A unit.
pub fn unit(payload: &[u8]) -> (u: Vec<u8>)
    ensures
        u@ == unit_of(payload@),
{
    let mut u: Vec<u8> = Vec::new();
    bytes::push_le(&mut u, payload.len() as u32 as u64, 4);
    assert(u@ =~= bytes::le_bytes(payload@.len() as u32 as int, 4));
    append(&mut u, payload);
    u
}

/// What a served connection begins with: the magic and the size of the picture, and the stream's
/// parameter sets as a unit where there are any.
pub open spec fn header_of(width: u32, height: u32, config: Option<Seq<u8>>) -> Seq<u8> {
    let head = magic_stream() + bytes::le_bytes(width as u16 as int, 2) + bytes::le_bytes(
        height as u16 as int,
        2,
    );
    match config {
        Some(c) => head + unit_of(c),
        None => head,
    }
}

/// What a served connection begins with.
pub fn header(width: u32, height: u32, config: Option<&[u8]>) -> (h: Vec<u8>)
    ensures
        h@ == header_of(
            width,
            height,
            match config {
                Some(c) => Some(c@),
                None => None,
            },
        ),
{
    let mut h: Vec<u8> = Vec::new();
    h.push(0x44);
    h.push(0x56);
    h.push(0x48);
    h.push(0x32);
    assert(h@ =~= magic_stream());
    bytes::push_le(&mut h, width as u16 as u64, 2);
    bytes::push_le(&mut h, height as u16 as u64, 2);
    if let Some(c) = config {
        let u: Vec<u8> = unit(c);
        append(&mut h, u.as_slice());
    }
    h
}

/// What a receiver takes a stream of units for; `None` where it does not end with a unit.
pub open spec fn units_in(stream: Seq<u8>) -> Option<Seq<Seq<u8>>>
    decreases stream.len(),
{
    if stream.len() == 0 {
        Some(Seq::empty())
    } else if stream.len() < 4 {
        None
    } else {
        let n = bytes::from_le(stream.take(4));
        if n < 0 || stream.len() < 4 + n {
            None
        } else {
            match units_in(stream.skip(4 + n)) {
                Some(rest) => Some(seq![stream.subrange(4, 4 + n)] + rest),
                None => None,
            }
        }
    }
}

/// Units, one after the other.
pub open spec fn stream_of(payloads: Seq<Seq<u8>>) -> Seq<u8>
    decreases payloads.len(),
{
    if payloads.len() == 0 {
        Seq::empty()
    } else {
        unit_of(payloads[0]) + stream_of(payloads.drop_first())
    }
}

/// A receiver finds in the stream exactly the units that were sent, heartbeats and all.
pub proof fn law_a_receiver_finds_the_units(payloads: Seq<Seq<u8>>)
    requires
        forall|i: int| 0 <= i < payloads.len() ==> (#[trigger] payloads[i]).len() <= u32::MAX,
    ensures
        units_in(stream_of(payloads)) == Some(payloads),
    decreases payloads.len(),
{
    if payloads.len() == 0 {
        assert(payloads =~= Seq::empty());
    } else {
        let first = payloads[0];
        let rest = payloads.drop_first();
        let stream = stream_of(payloads);
        law_a_receiver_finds_the_units(rest);
        assert(bytes::pow256(4) == 0x1_0000_0000) by {
            reveal_with_fuel(bytes::pow256, 5);
        }
        bytes::law_le_round_trip(first.len() as int, 4);
        assert(stream.take(4) =~= bytes::le_bytes(first.len() as int, 4));
        assert(stream.subrange(4, 4 + first.len() as int) =~= first);
        assert(stream.skip(4 + first.len() as int) =~= stream_of(rest));
        assert(seq![first] + rest =~= payloads);
    }
}

/// What is sent to say that the host is there.
pub proof fn law_a_heartbeat_is_four_zeros()
    ensures
        unit_of(Seq::empty()) == seq![0u8, 0u8, 0u8, 0u8],
{
    reveal_with_fuel(bytes::le_bytes, 5);
    assert(unit_of(Seq::empty()) =~= seq![0u8, 0u8, 0u8, 0u8]);
}

/// A served client and a refused one can be told apart by the first four bytes.
pub proof fn law_a_refusal_is_no_stream(w: u32, h: u32, config: Option<Seq<u8>>, r: Refusal)
    ensures
        header_of(w, h, config).take(4) == magic_stream(),
        refusal_of(r).take(4) == magic_refused(),
        magic_stream() != magic_refused(),
{
    assert(header_of(w, h, config).take(4) =~= magic_stream());
    assert(refusal_of(r).take(4) =~= magic_refused());
    assert(magic_stream()[3] != magic_refused()[3]);
}

/// A channel as a value.
pub struct ChannelView {
    /// The client that is served.
    pub live: Option<u64>,
    /// The client that waits for an encoder.
    pub pending: Option<u64>,
    /// Frames that were written.
    pub written: u64,
    pub heartbeats: u64,
    /// When something was last written to the client that is served.
    pub last_write_ms: u64,
}

impl ChannelView {
    /// Whether frames are to be made: somebody is served, or waits.
    pub open spec fn wanted(self) -> bool {
        self.live is Some || self.pending is Some
    }

    /// Whether the client that is served has heard nothing for an interval.
    pub open spec fn beat_due(self, now_ms: u64) -> bool {
        self.live is Some && now_ms - self.last_write_ms >= HEARTBEAT_INTERVAL_MS
    }

    /// A unit was written.
    pub open spec fn wrote(self, what: Unit, now_ms: u64) -> Self {
        match what {
            Unit::Frame => ChannelView {
                last_write_ms: now_ms,
                written: next_count(self.written),
                ..self
            },
            Unit::Heartbeat => ChannelView {
                last_write_ms: now_ms,
                heartbeats: next_count(self.heartbeats),
                ..self
            },
        }
    }

    /// The client that is served is gone, where it is the one that is meant.
    pub open spec fn without(self, client: u64) -> Self {
        if self.live == Some(client) {
            ChannelView { live: None, ..self }
        } else {
            self
        }
    }
}

/// A number after the next.
pub open spec fn next_count(n: u64) -> u64 {
    ((n + 1) % 0x1_0000_0000_0000_0000) as u64
}

fn count(n: u64) -> (r: u64)
    ensures
        r == next_count(n),
{
    if n == u64::MAX {
        0
    } else {
        n + 1
    }
}

/// What was written.
#[derive(Clone, Copy, Debug, PartialEq, Eq, Structural)]
pub enum Unit {
    Frame,
    Heartbeat,
}

/// The one client.
pub struct Channel {
    live: Option<u64>,
    pending: Option<u64>,
    written: u64,
    heartbeats: u64,
    last_write_ms: u64,
}

impl View for Channel {
    type V = ChannelView;

    closed spec fn view(&self) -> ChannelView {
        ChannelView {
            live: self.live,
            pending: self.pending,
            written: self.written,
            heartbeats: self.heartbeats,
            last_write_ms: self.last_write_ms,
        }
    }
}

impl Channel {
    /// Nobody is there.
    pub fn new() -> (c: Self)
        ensures
            c@ == (ChannelView {
                live: None,
                pending: None,
                written: 0,
                heartbeats: 0,
                last_write_ms: 0,
            }),
    {
        Channel { live: None, pending: None, written: 0, heartbeats: 0, last_write_ms: 0 }
    }

    /// Whether a client is served.
    pub fn has_client(&self) -> (b: bool)
        ensures
            b == self@.live is Some,
    {
        self.live.is_some()
    }

    /// Whether frames are to be made.
    pub fn is_wanted(&self) -> (b: bool)
        ensures
            b == self@.wanted(),
    {
        self.live.is_some() || self.pending.is_some()
    }

    /// The client to write to.
    pub fn live(&self) -> (c: Option<u64>)
        ensures
            c == self@.live,
    {
        self.live
    }

    /// The client that waits.
    pub fn pending(&self) -> (c: Option<u64>)
        ensures
            c == self@.pending,
    {
        self.pending
    }

    /// How many frames were written.
    pub fn written(&self) -> (n: u64)
        ensures
            n == self@.written,
    {
        self.written
    }

    /// How many heartbeats were written.
    pub fn heartbeats(&self) -> (n: u64)
        ensures
            n == self@.heartbeats,
    {
        self.heartbeats
    }

    /// When something was last written.
    pub fn last_write_ms(&self) -> (n: u64)
        ensures
            n == self@.last_write_ms,
    {
        self.last_write_ms
    }

    /// Whether a heartbeat is to be sent. One is never sent before the header, nor to a client
    /// that waits.
    pub fn heartbeat_due(&self, now_ms: u64) -> (b: bool)
        ensures
            b == self@.beat_due(now_ms),
    {
        self.live.is_some() && now_ms >= self.last_write_ms && now_ms - self.last_write_ms
            >= HEARTBEAT_INTERVAL_MS
    }

    /// Takes that a unit was written. A heartbeat is no frame.
    pub fn on_written(&mut self, what: Unit, now_ms: u64)
        ensures
            final(self)@ == old(self)@.wrote(what, now_ms),
    {
        self.last_write_ms = now_ms;
        match what {
            Unit::Frame => {
                self.written = count(self.written);
            },
            Unit::Heartbeat => {
                self.heartbeats = count(self.heartbeats);
            },
        }
    }

    /// Takes that a client is gone, or that a write to it failed: part of a unit is no unit, so
    /// there is no second try. By then another client may be served, and that one stays. Returns
    /// whether the connection is to be shut down.
    pub fn drop_live(&mut self, client: u64) -> (dropped: bool)
        ensures
            dropped == (old(self)@.live == Some(client)),
            final(self)@ == old(self)@.without(client),
    {
        match self.live {
            Some(c) => if c == client {
                self.live = None;
                true
            } else {
                false
            },
            None => false,
        }
    }

    /// Ends every connection. Returns the served one, which is to be shut down, and the one that
    /// waited.
    pub fn disconnect(&mut self) -> (gone: (Option<u64>, Option<u64>))
        ensures
            gone == (old(self)@.live, old(self)@.pending),
            final(self)@ == (ChannelView { live: None, pending: None, ..old(self)@ }),
    {
        let gone: (Option<u64>, Option<u64>) = (self.live, self.pending);
        self.live = None;
        self.pending = None;
        gone
    }

    /// Takes a connection, unless there is one. It waits from here on.
    pub fn park(&mut self, client: u64) -> (taken: bool)
        ensures
            taken == !old(self)@.wanted(),
            final(self)@ == if old(self)@.wanted() {
                old(self)@
            } else {
                ChannelView { pending: Some(client), ..old(self)@ }
            },
    {
        if self.live.is_some() || self.pending.is_some() {
            return false;
        }
        self.pending = Some(client);
        true
    }

    /// The client that waited, which waits no more.
    pub fn take_pending(&mut self) -> (client: Option<u64>)
        ensures
            client == old(self)@.pending,
            final(self)@ == (ChannelView { pending: None, ..old(self)@ }),
    {
        let client: Option<u64> = self.pending;
        self.pending = None;
        client
    }

    /// Serves a client from here on. It has just been sent the header.
    pub fn promote(&mut self, client: u64, now_ms: u64)
        ensures
            final(self)@ == (ChannelView {
                live: Some(client),
                last_write_ms: now_ms,
                ..old(self)@
            }),
    {
        self.live = Some(client);
        self.last_write_ms = now_ms;
    }
}

/// A client that hears something is sent no heartbeat for an interval, and one is due at its end.
pub proof fn law_a_write_defers_the_next_beat(v: ChannelView, sent_ms: u64, now_ms: u64)
    requires
        v.live is Some,
        v.last_write_ms == sent_ms,
        sent_ms <= now_ms,
    ensures
        v.beat_due(now_ms) <==> now_ms >= sent_ms + HEARTBEAT_INTERVAL_MS,
{
}

/// A client that waits is never sent a heartbeat.
pub proof fn law_a_waiting_client_hears_nothing(v: ChannelView, now_ms: u64)
    requires
        v.live is None,
    ensures
        !v.beat_due(now_ms),
{
}

/// A write that failed takes away the client it was for, and no other.
pub proof fn law_a_late_failure_spares_the_next_client(v: ChannelView, failed: u64)
    ensures
        v.live == Some(failed) ==> v.without(failed).live is None,
        v.live != Some(failed) ==> v.without(failed) == v,
        v.without(failed).pending == v.pending,
{
}

/// A receiver that reads a header as bytes: four that say `DVH2`, two of the width and two of the
/// height, the lower one first, and behind them the parameter sets as a unit, or nothing.
pub proof fn law_a_header_says_the_size(width: u32, height: u32, config: Option<Seq<u8>>)
    ensures
        ({
            let h = header_of(width, height, config);
            &&& h.len() >= 8
            &&& h[0] == 0x44 && h[1] == 0x56 && h[2] == 0x48 && h[3] == 0x32
            &&& width <= 0xffff ==> h[4] + 256 * h[5] == width
            &&& height <= 0xffff ==> h[6] + 256 * h[7] == height
            &&& config is None ==> h.len() == 8
            &&& config matches Some(c) ==> h.skip(8) == unit_of(c)
        }),
{
    reveal_with_fuel(bytes::le_bytes, 4);
    let h = header_of(width, height, config);
    if let Some(c) = config {
        assert(h.skip(8) =~= unit_of(c));
    }
}

/// A unit is four bytes longer than what it carries. They say how long that is, the lowest first,
/// and it follows them as it is.
pub proof fn law_a_unit_says_its_length(payload: Seq<u8>)
    requires
        payload.len() <= u32::MAX,
    ensures
        ({
            let u = unit_of(payload);
            &&& u.len() == payload.len() + 4
            &&& u[0] + 256 * u[1] + 65536 * u[2] + 16777216 * u[3] == payload.len()
            &&& u.skip(4) == payload
        }),
{
    reveal_with_fuel(bytes::le_bytes, 5);
    assert(unit_of(payload).skip(4) =~= payload);
}

/// A refused client reads `DVHX`, the reason, and one zero at the end.
pub proof fn law_a_refusal_gives_its_reason(r: Refusal)
    ensures
        ({
            let said = refusal_of(r);
            &&& said.len() >= 5
            &&& said[0] == 0x44 && said[1] == 0x56 && said[2] == 0x48 && said[3] == 0x58
            &&& said.subrange(4, said.len() - 1) == text::utf8(r.text())
            &&& said.last() == 0
        }),
{
    let said = refusal_of(r);
    assert(said.subrange(4, said.len() - 1) =~= text::utf8(r.text()));
}

/// The word before the colon tells the reasons apart.
pub proof fn law_a_reason_begins_with_its_word(r: Refusal)
    ensures
        r is NoEncoder <==> "no-encoder:"@.is_prefix_of(r.text()),
        r is Busy <==> "busy:"@.is_prefix_of(r.text()),
        r is NoFrame <==> "no-frame:"@.is_prefix_of(r.text()),
{
    reveal_strlit("no-encoder:");
    reveal_strlit("busy:");
    reveal_strlit("no-frame:");
    reveal_strlit("no-encoder: this device has no H.264 encoder we can use");
    reveal_strlit("busy: another client already has the stream");
    reveal_strlit("no-frame: no encoded frame is available; the screen may be idle");
    let t = r.text();
    match r {
        Refusal::NoEncoder => {
            assert(t.subrange(0, 11) =~= "no-encoder:"@);
            assert(t[0] != "busy:"@[0]);
            assert(t[3] != "no-frame:"@[3]);
        },
        Refusal::Busy => {
            assert(t.subrange(0, 5) =~= "busy:"@);
            assert(t[0] != "no-encoder:"@[0]);
            assert(t[0] != "no-frame:"@[0]);
        },
        Refusal::NoFrame => {
            assert(t.subrange(0, 9) =~= "no-frame:"@);
            assert(t[0] != "busy:"@[0]);
            assert(t[3] != "no-encoder:"@[3]);
        },
    }
}

/// Frames are made as long as there is a client, served or waiting. A beat is due three seconds
/// after the last write and not before, and only to a client that is served.
pub proof fn law_frames_are_made_for_a_client(v: ChannelView, client: u64, now_ms: u64)
    ensures
        !v.wanted() <==> v.live is None && v.pending is None,
        v.beat_due(now_ms) ==> v.wanted() && now_ms >= v.last_write_ms + 3000,
        v.live is Some && now_ms >= v.last_write_ms + 3000 ==> v.beat_due(now_ms),
        v.without(client).written == v.written,
        v.without(client).heartbeats == v.heartbeats,
        v.without(client).last_write_ms == v.last_write_ms,
        v.live is Some && v.without(client).wanted() != v.wanted() ==> v.live == Some(client)
            && v.pending is None,
{
}

/// A count goes up by one, and from the last number to zero.
pub proof fn law_a_count_goes_up(n: u64)
    ensures
        n < u64::MAX ==> next_count(n) == n + 1,
        n == u64::MAX ==> next_count(n) == 0,
{
}

/// What is written is counted by what it is, and puts the next beat off.
pub proof fn law_what_is_written_is_counted(v: ChannelView, what: Unit, now_ms: u64, later_ms: u64)
    requires
        v.written < u64::MAX,
        v.heartbeats < u64::MAX,
        now_ms <= later_ms < now_ms + 3000,
    ensures
        ({
            let w = v.wrote(what, now_ms);
            &&& what is Frame ==> w.written == v.written + 1 && w.heartbeats == v.heartbeats
            &&& what is Heartbeat ==> w.heartbeats == v.heartbeats + 1 && w.written == v.written
            &&& !w.beat_due(later_ms)
            &&& w.last_write_ms == now_ms
            &&& w.live == v.live && w.pending == v.pending
        }),
{
}

} // verus!
