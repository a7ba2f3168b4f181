//! The screen, compressed by the platform's encoder for whoever asks for it.
//!
//! Frames are offered as they come; they are encoded only while somebody wants them. There is
//! one encoder, for the size of the last frame that was wanted. It is built when there is a first
//! frame to build it for, and built anew when the size changes. Where it cannot be built, that is
//! not tried again.
use crate::codec;
use crate::vnc_channel;
use crate::vnc_channel::Channel;
use crate::vnc_channel::ChannelView;
use crate::vnc_channel::Refusal;
use vstd::prelude::*;

verus! {

/// How far the stream's port is from the port of the screen.
pub const H264_PORT_OFFSET: u16 = 100;

/// The frame rate that the encoder is told to expect.
pub const ENCODER_FRAME_RATE: i32 = 30;

/// Seconds between the encoder's own keyframes.
pub const ENCODER_IFRAME_INTERVAL_SECS: i32 = 2;

/// How large a compressed frame is expected to be.
pub const OUTPUT_BUFFER_INITIAL: usize = 524_288;

/// How large one is a wonder.
pub const OUTPUT_BUFFER_LOUD: usize = 16_777_216;

/// How long the encoder is waited for at a time.
pub const OUTPUT_POLL_TIMEOUT_US: i64 = 100_000;

/// How long a client waits for the first encoder.
pub const FIRST_ENCODER_WAIT_MS: u64 = 10_000;

/// How large parameter sets may be.
pub const CONFIG_MAX: usize = 4096;

/// The flag of a keyframe.
pub const BUFFER_FLAG_SYNC_FRAME: u32 = 1;

/// The flag of parameter sets.
pub const BUFFER_FLAG_CODEC_CONFIG: u32 = 2;

/// The size of a screen.
#[derive(Clone, Copy, Debug, PartialEq, Eq, Structural)]
pub struct ScreenSize {
    pub width: u32,
    pub height: u32,
}

/// The bitrate for a size: a tenth of a bit for every pixel of every frame, within bounds.
pub open spec fn bitrate_of(width: int, height: int) -> int {
    codec::min_int(codec::max_int(width * height * 30 / 10, 1_000_000), 40_000_000)
}

/// The bitrate for a size.
pub fn bitrate_for(width: u32, height: u32) -> (r: i32)
    ensures
        r == bitrate_of(width as int, height as int),
{
    assert(0 <= width * height <= u32::MAX * (u32::MAX as int)) by (nonlinear_arith)
        requires
            0 <= width <= u32::MAX,
            0 <= height <= u32::MAX,
    ;
    let pixels: u128 = width as u128 * height as u128;
    let bits: u128 = pixels * 30 / 10;
    if bits < 1_000_000 {
        1_000_000
    } else if bits > 40_000_000 {
        40_000_000
    } else {
        bits as i32
    }
}

/// A larger screen never gets a smaller bitrate.
pub proof fn law_bitrate_grows_with_the_screen(w: int, h: int, w2: int, h2: int)
    requires
        0 <= w <= w2,
        0 <= h <= h2,
    ensures
        bitrate_of(w, h) <= bitrate_of(w2, h2),
        1_000_000 <= bitrate_of(w, h) <= 40_000_000,
{
    assert(w * h <= w2 * h2) by (nonlinear_arith)
        requires
            0 <= w <= w2,
            0 <= h <= h2,
    ;
}

/// What polling the encoder came to.
#[derive(Clone, Copy, Debug, PartialEq, Eq, Structural)]
pub enum PollOutput {
    /// A compressed frame of so many bytes.
    Frame(usize),
    Idle,
    /// The frame is so large.
    TooSmall(usize),
    Failed,
}

/// What polling the encoder came to, by what it returned.
pub open spec fn polled_of(ret: i32, size: u32) -> PollOutput {
    if ret > 0 {
        PollOutput::Frame(ret as usize)
    } else if ret == 0 {
        PollOutput::Idle
    } else if ret == -1 {
        PollOutput::TooSmall(size as usize)
    } else {
        PollOutput::Failed
    }
}

/// What polling the encoder came to, by what it returned.
pub fn poll_output(ret: i32, size: u32) -> (p: PollOutput)
    ensures
        p == polled_of(ret, size),
{
    if ret > 0 {
        PollOutput::Frame(ret as usize)
    } else if ret == 0 {
        PollOutput::Idle
    } else if ret == -1 {
        PollOutput::TooSmall(size as usize)
    } else {
        PollOutput::Failed
    }
}

/// What to do with what the encoder gave.
#[derive(Clone, Copy, Debug, PartialEq, Eq, Structural)]
pub enum DrainStep {
    /// Send the frame to the client, where there is one, and to the other audience, which is told
    /// what the frame is.
    Deliver { to: Option<u64>, is_config: bool, is_sync: bool },
    Nothing,
    /// Make room for so many bytes. It may be a wonder.
    Grow { needed: usize, loud: bool },
    /// The stream ends.
    End,
}

/// How many bytes of parameter sets there are, where there are any and they fit.
pub open spec fn config_of(size: usize) -> Option<usize> {
    if size == 0 || size > CONFIG_MAX {
        None
    } else {
        Some(size)
    }
}

/// How many bytes of parameter sets there are, where there are any and they fit.
pub fn config_len(size: usize) -> (n: Option<usize>)
    ensures
        n == config_of(size),
{
    if size == 0 || size > CONFIG_MAX {
        None
    } else {
        Some(size)
    }
}

/// A frame that is offered.
#[derive(Clone, Copy, Debug, PartialEq, Eq, Structural)]
pub struct FrameOffer {
    pub has_pixels: bool,
    pub width: i32,
    pub height: i32,
    /// Whether the frame is still with the graphics hardware.
    pub has_gpu_blit: bool,
    pub gpu_import_id: i64,
    pub has_cursor: bool,
    pub cursor_visible: bool,
}

impl FrameOffer {
    /// Whether there is a picture in it.
    pub open spec fn has_picture(self) -> bool {
        self.has_pixels && self.width > 0 && self.height > 0
    }
}

/// What to do with an offered frame.
#[derive(Clone, Copy, Debug, PartialEq, Eq, Structural)]
pub enum OfferStep {
    /// Nothing.
    Skip,
    /// Nothing, and nobody wants frames any more.
    Paused { skipped: u64 },
    /// Encode it.
    Feed { width: u32, height: u32 },
}

/// What the encoder for a frame takes.
#[derive(Clone, Copy, Debug, PartialEq, Eq, Structural)]
pub enum EncoderStep {
    Have,
    Build { bitrate: i32 },
    /// There is none, and there will be none.
    Never,
}

/// What a new encoder entails.
#[derive(Clone, Copy, Debug, PartialEq, Eq)]
pub struct Rebuilt {
    /// Whether there is one now. Then the other audience is told the size.
    pub built: bool,
    /// The client that was served and the one that waited, where the size changed: they were told
    /// another.
    pub gone: Option<(Option<u64>, Option<u64>)>,
}

/// What follows a frame that was handed to the encoder.
#[derive(Clone, Copy, Debug, PartialEq, Eq, Structural)]
pub enum EncodeStep {
    Done,
    /// The graphics hardware cannot feed the encoder. Hand the frame over by the processor, as
    /// every frame from here on.
    ByProcessor,
    /// It failed, for the so many-th time, and that is worth a word.
    Report(u64),
    /// It failed.
    Quiet,
}

/// What becomes of a new connection.
#[derive(Clone, Copy, Debug, PartialEq, Eq, Structural)]
pub enum ConnectStep {
    /// It is told why not.
    Refuse(Refusal),
    /// It waits for an encoder.
    Wait,
}

/// What becomes of a connection that waits.
#[derive(Clone, Copy, Debug, PartialEq, Eq, Structural)]
pub enum WaitStep {
    /// The display goes away, and so do these two.
    Stop { live: Option<u64>, pending: Option<u64> },
    /// There is an encoder of this size.
    Ready(ScreenSize),
    /// The one that waited, where it still did, is told why not.
    Refuse { reason: Refusal, client: Option<u64> },
    Again,
}

/// What becomes of a connection that was sent the header.
#[derive(Clone, Copy, Debug, PartialEq, Eq, Structural)]
pub enum ServeStep {
    /// It is served from here on. It is owed a keyframe, the only place where it can start, so one
    /// is asked for.
    AskForKeyframe,
    /// It left before it had the header.
    Left,
    /// It was taken away meanwhile, and is owed nothing.
    Gone,
}

/// A consumer of frames as a value.
pub struct ConsumerView {
    pub channel: ChannelView,
    /// The size that there is an encoder for.
    pub encoder: Option<ScreenSize>,
    pub encoder_failed: bool,
    pub gpu_route_failed: bool,
    pub was_feeding: bool,
    pub paused_offers: u64,
    pub encode_errors: u64,
    pub connects: u64,
    pub joins_answered: u64,
    pub stop: bool,
}

impl ConsumerView {
    /// Whether frames are wanted: by the channel, or by `others`.
    pub open spec fn wants(self, others: i32) -> bool {
        self.channel.wanted() || others > 0
    }

    /// After a frame that nobody wants.
    pub open spec fn passed_over(self) -> Self {
        ConsumerView {
            paused_offers: vnc_channel::next_count(self.paused_offers),
            was_feeding: false,
            ..self
        }
    }

    /// After an encoder was asked for.
    pub open spec fn built(self, width: u32, height: u32, ok: bool) -> Self {
        if !ok {
            ConsumerView { encoder_failed: true, ..self }
        } else if self.encoder is Some {
            ConsumerView {
                encoder: Some(ScreenSize { width, height }),
                channel: ChannelView { live: None, pending: None, ..self.channel },
                ..self
            }
        } else {
            ConsumerView { encoder: Some(ScreenSize { width, height }), ..self }
        }
    }

    /// What a new encoder entails.
    pub open spec fn rebuilt(self, ok: bool) -> Rebuilt {
        Rebuilt {
            built: ok,
            gone: if ok && self.encoder is Some {
                Some((self.channel.live, self.channel.pending))
            } else {
                None
            },
        }
    }

    /// After the client that waited was sent the header.
    pub open spec fn serving(self, client: u64, now_ms: u64) -> Self {
        ConsumerView {
            channel: ChannelView {
                live: Some(client),
                pending: None,
                last_write_ms: now_ms,
                ..self.channel
            },
            ..self
        }
    }

    /// Nobody is served, and nobody waits.
    pub open spec fn alone(self) -> Self {
        ConsumerView { channel: ChannelView { live: None, pending: None, ..self.channel }, ..self }
    }

    /// Nobody waits.
    pub open spec fn without_waiting(self) -> Self {
        ConsumerView { channel: ChannelView { pending: None, ..self.channel }, ..self }
    }

    /// What becomes of a new connection, and what is then.
    pub open spec fn connected(self, client: u64) -> (ConnectStep, Self) {
        if self.channel.wanted() {
            (ConnectStep::Refuse(Refusal::Busy), self)
        } else {
            (
                ConnectStep::Wait,
                ConsumerView {
                    channel: ChannelView { pending: Some(client), ..self.channel },
                    connects: vnc_channel::next_count(self.connects),
                    ..self
                },
            )
        }
    }

    /// What becomes of a connection that waits, and what is then.
    pub open spec fn waited(self, time_is_up: bool) -> (WaitStep, Self) {
        if self.stop {
            (
                WaitStep::Stop { live: self.channel.live, pending: self.channel.pending },
                self.alone(),
            )
        } else if self.encoder is Some {
            (WaitStep::Ready(self.encoder->0), self)
        } else if self.encoder_failed {
            (
                WaitStep::Refuse { reason: Refusal::NoEncoder, client: self.channel.pending },
                self.without_waiting(),
            )
        } else if time_is_up {
            (
                WaitStep::Refuse { reason: Refusal::NoFrame, client: self.channel.pending },
                self.without_waiting(),
            )
        } else {
            (WaitStep::Again, self)
        }
    }

    /// What becomes of a connection that was sent the header, or was not, and what is then.
    pub open spec fn served(self, client: u64, header_sent: bool, now_ms: u64) -> (ServeStep, Self) {
        if self.channel.pending != Some(client) {
            (ServeStep::Gone, self)
        } else if header_sent {
            (ServeStep::AskForKeyframe, self.serving(client, now_ms))
        } else {
            (ServeStep::Left, self.without_waiting())
        }
    }

    /// What becomes of an offered frame, and what is then.
    pub open spec fn offered(self, offer: FrameOffer, others: i32) -> (OfferStep, Self) {
        if self.stop {
            (OfferStep::Skip, self)
        } else if !self.wants(others) {
            (
                if self.was_feeding {
                    OfferStep::Paused { skipped: self.paused_offers }
                } else {
                    OfferStep::Skip
                },
                self.passed_over(),
            )
        } else {
            (
                if !offer.has_picture() {
                    OfferStep::Skip
                } else {
                    OfferStep::Feed { width: offer.width as u32, height: offer.height as u32 }
                },
                ConsumerView { was_feeding: true, ..self },
            )
        }
    }

    /// What the encoder for a size takes.
    pub open spec fn encoder_step(self, width: u32, height: u32) -> EncoderStep {
        if self.encoder == Some((ScreenSize { width, height })) {
            EncoderStep::Have
        } else if self.encoder_failed {
            EncoderStep::Never
        } else {
            EncoderStep::Build { bitrate: bitrate_of(width as int, height as int) as i32 }
        }
    }

    /// How a frame gets to the encoder: whether by the graphics hardware, and whether with the
    /// cursor.
    pub open spec fn routed(self, offer: FrameOffer) -> (bool, bool) {
        (
            !self.gpu_route_failed && offer.gpu_import_id != 0 && offer.has_gpu_blit,
            offer.cursor_visible && offer.has_cursor,
        )
    }

    /// What follows a frame that was handed to the encoder, and what is then.
    pub open spec fn encoded(self, by_gpu: bool, ok: bool) -> (EncodeStep, Self) {
        if ok {
            (EncodeStep::Done, self)
        } else if by_gpu {
            (EncodeStep::ByProcessor, ConsumerView { gpu_route_failed: true, ..self })
        } else {
            let n = vnc_channel::next_count(self.encode_errors);
            (
                if self.encode_errors == 0 || is_power_of_two(self.encode_errors as int) {
                    EncodeStep::Report(n)
                } else {
                    EncodeStep::Quiet
                },
                ConsumerView { encode_errors: n, ..self },
            )
        }
    }

    /// What is done with what the encoder gave, and whom that takes away.
    pub open spec fn drained(self, polled: PollOutput, flags: u32) -> (DrainStep, (
        Option<u64>,
        Option<u64>,
    )) {
        match polled {
            PollOutput::Frame(_) => (
                DrainStep::Deliver {
                    to: self.channel.live,
                    is_config: flags & BUFFER_FLAG_CODEC_CONFIG != 0,
                    is_sync: flags & BUFFER_FLAG_SYNC_FRAME != 0,
                },
                (None, None),
            ),
            PollOutput::Idle => (DrainStep::Nothing, (None, None)),
            PollOutput::TooSmall(needed) => (
                DrainStep::Grow { needed, loud: needed >= OUTPUT_BUFFER_LOUD },
                (None, None),
            ),
            PollOutput::Failed => (DrainStep::End, (self.channel.live, self.channel.pending)),
        }
    }

    /// A number that moves whenever somebody joins either audience.
    pub open spec fn generation(self, joins: u64) -> int {
        (self.connects as int % 0x1_0000_0000) * 0x1_0000_0000 + joins as int % 0x1_0000_0000
    }
}

/// Whether a number is a power of two.
pub open spec fn is_power_of_two(n: int) -> bool
    decreases n,
{
    if n <= 0 {
        false
    } else if n == 1 {
        true
    } else {
        n % 2 == 0 && is_power_of_two(n / 2)
    }
}

fn power_of_two(n: u64) -> (b: bool)
    ensures
        b == is_power_of_two(n as int),
    decreases n,
{
    if n == 0 {
        false
    } else if n == 1 {
        true
    } else {
        n % 2 == 0 && power_of_two(n / 2)
    }
}

/// The consumer of frames.
pub struct H264Consumer {
    channel: Channel,
    encoder: Option<ScreenSize>,
    encoder_failed: bool,
    gpu_route_failed: bool,
    was_feeding: bool,
    paused_offers: u64,
    encode_errors: u64,
    connects: u64,
    joins_answered: u64,
    stop: bool,
}

impl View for H264Consumer {
    type V = ConsumerView;

    closed spec fn view(&self) -> ConsumerView {
        ConsumerView {
            channel: self.channel@,
            encoder: self.encoder,
            encoder_failed: self.encoder_failed,
            gpu_route_failed: self.gpu_route_failed,
            was_feeding: self.was_feeding,
            paused_offers: self.paused_offers,
            encode_errors: self.encode_errors,
            connects: self.connects,
            joins_answered: self.joins_answered,
            stop: self.stop,
        }
    }
}

fn count(n: u64) -> (r: u64)
    ensures
        r == vnc_channel::next_count(n),
{
    if n == u64::MAX {
        0
    } else {
        n + 1
    }
}

impl H264Consumer {
    /// Nobody is there, and there is no encoder.
    pub fn new() -> (c: Self)
        ensures
            c@ == (ConsumerView {
                channel: ChannelView {
                    live: None,
                    pending: None,
                    written: 0,
                    heartbeats: 0,
                    last_write_ms: 0,
                },
                encoder: None,
                encoder_failed: false,
                gpu_route_failed: false,
                was_feeding: false,
                paused_offers: 0,
                encode_errors: 0,
                connects: 0,
                joins_answered: 0,
                stop: false,
            }),
    {
        H264Consumer {
            channel: Channel::new(),
            encoder: None,
            encoder_failed: false,
            gpu_route_failed: false,
            was_feeding: false,
            paused_offers: 0,
            encode_errors: 0,
            connects: 0,
            joins_answered: 0,
            stop: false,
        }
    }

    /// The clients.
    pub fn channel(&self) -> (c: &Channel)
        ensures
            c@ == self@.channel,
    {
        &self.channel
    }

    /// The clients, to change.
    pub fn channel_mut(&mut self) -> (c: &mut Channel)
        ensures
            c@ == old(self)@.channel,
            final(self)@ == (ConsumerView { channel: final(c)@, ..old(self)@ }),
    {
        &mut self.channel
    }

    /// Whether frames are wanted: by a client that is served or waits, or by one of the `others`,
    /// who are served the same stream elsewhere.
    pub fn wants_frames(&self, others: i32) -> (b: bool)
        ensures
            b == self@.wants(others),
    {
        self.channel.is_wanted() || others > 0
    }

    /// A number that moves whenever somebody joins, here or elsewhere.
    pub fn connect_generation(&self, joins: u64) -> (g: u64)
        ensures
            g == self@.generation(joins),
    {
        let here: u64 = self.connects % 0x1_0000_0000;
        let there: u64 = joins % 0x1_0000_0000;
        here * 0x1_0000_0000 + there
    }

    /// Takes a connection, unless there is one.
    pub fn connect(&mut self, client: u64) -> (step: ConnectStep)
        ensures
            (step, final(self)@) == old(self)@.connected(client),
    {
        if !self.channel.park(client) {
            return ConnectStep::Refuse(Refusal::Busy);
        }
        self.connects = count(self.connects);
        ConnectStep::Wait
    }

    /// What becomes of a connection that waits. Where an encoder cannot be had, it is told never
    /// to ask again; where the time is up, it is told to ask later.
    pub fn poll_waiting(&mut self, time_is_up: bool) -> (step: WaitStep)
        ensures
            (step, final(self)@) == old(self)@.waited(time_is_up),
    {
        if self.stop {
            let (live, pending): (Option<u64>, Option<u64>) = self.channel.disconnect();
            return WaitStep::Stop { live, pending };
        }
        if let Some(size) = self.encoder {
            return WaitStep::Ready(size);
        }
        if self.encoder_failed {
            let client: Option<u64> = self.channel.take_pending();
            return WaitStep::Refuse { reason: Refusal::NoEncoder, client };
        }
        if time_is_up {
            let client: Option<u64> = self.channel.take_pending();
            return WaitStep::Refuse { reason: Refusal::NoFrame, client };
        }
        WaitStep::Again
    }

    /// Takes what came of sending the header to a client that waits. With the header it is served
    /// from here on, and a keyframe is asked for.
    pub fn serve(&mut self, client: u64, header_sent: bool, now_ms: u64) -> (step: ServeStep)
        ensures
            (step, final(self)@) == old(self)@.served(client, header_sent, now_ms),
    {
        if self.channel.pending() != Some(client) {
            return ServeStep::Gone;
        }
        let _ = self.channel.take_pending();
        if !header_sent {
            return ServeStep::Left;
        }
        self.channel.promote(client, now_ms);
        ServeStep::AskForKeyframe
    }

    /// Whether an offered frame is encoded. While nobody wants frames, none is.
    pub fn on_frame(&mut self, offer: &FrameOffer, others: i32) -> (step: OfferStep)
        ensures
            (step, final(self)@) == old(self)@.offered(*offer, others),
    {
        if self.stop {
            return OfferStep::Skip;
        }
        if !self.wants_frames(others) {
            let skipped: u64 = self.paused_offers;
            let fed = self.was_feeding;
            self.paused_offers = count(skipped);
            self.was_feeding = false;
            return if fed {
                OfferStep::Paused { skipped }
            } else {
                OfferStep::Skip
            };
        }
        self.was_feeding = true;
        if !offer.has_pixels || offer.width <= 0 || offer.height <= 0 {
            return OfferStep::Skip;
        }
        OfferStep::Feed { width: offer.width as u32, height: offer.height as u32 }
    }

    /// What the encoder for a size takes.
    pub fn encoder_for(&self, width: u32, height: u32) -> (step: EncoderStep)
        ensures
            step == self@.encoder_step(width, height),
    {
        if self.encoder == Some(ScreenSize { width, height }) {
            return EncoderStep::Have;
        }
        if self.encoder_failed {
            return EncoderStep::Never;
        }
        EncoderStep::Build { bitrate: bitrate_for(width, height) }
    }

    /// Takes what came of building an encoder. Where it takes another's place, the clients are
    /// gone: they were told another size.
    pub fn on_built(&mut self, width: u32, height: u32, ok: bool) -> (r: Rebuilt)
        ensures
            final(self)@ == old(self)@.built(width, height, ok),
            r == old(self)@.rebuilt(ok),
    {
        if !ok {
            self.encoder_failed = true;
            return Rebuilt { built: false, gone: None };
        }
        let replaced = self.encoder.is_some();
        self.encoder = Some(ScreenSize { width, height });
        let gone: Option<(Option<u64>, Option<u64>)> = if replaced {
            Some(self.channel.disconnect())
        } else {
            None
        };
        Rebuilt { built: true, gone }
    }

    /// Whether the graphics hardware hands a frame to the encoder, and whether the cursor is drawn
    /// on it.
    pub fn route(&self, offer: &FrameOffer) -> (r: (bool, bool))
        ensures
            r == self@.routed(*offer),
    {
        (
            !self.gpu_route_failed && offer.gpu_import_id != 0 && offer.has_gpu_blit,
            offer.cursor_visible && offer.has_cursor,
        )
    }

    /// Takes what came of handing a frame to the encoder. The graphics hardware is not tried
    /// again after it failed.
    pub fn on_encoded(&mut self, by_gpu: bool, ok: bool) -> (step: EncodeStep)
        ensures
            (step, final(self)@) == old(self)@.encoded(by_gpu, ok),
    {
        if ok {
            return EncodeStep::Done;
        }
        if by_gpu {
            self.gpu_route_failed = true;
            return EncodeStep::ByProcessor;
        }
        let before: u64 = self.encode_errors;
        self.encode_errors = count(before);
        if before == 0 || power_of_two(before) {
            EncodeStep::Report(self.encode_errors)
        } else {
            EncodeStep::Quiet
        }
    }

    /// Whether somebody joined elsewhere since that was last asked. They are served nothing until
    /// there is a keyframe, so one is asked for.
    pub fn sync_frame_for_joins(&mut self, joins: u64) -> (ask: bool)
        ensures
            ask == (old(self)@.joins_answered != joins),
            final(self)@ == (ConsumerView { joins_answered: joins, ..old(self)@ }),
    {
        let ask = self.joins_answered != joins;
        self.joins_answered = joins;
        ask
    }

    /// What to do with what the encoder gave.
    pub fn drain(&mut self, polled: PollOutput, flags: u32) -> (step: (DrainStep, (
        Option<u64>,
        Option<u64>,
    )))
        ensures
            step == old(self)@.drained(polled, flags),
            final(self)@ == if polled is Failed {
                old(self)@.alone()
            } else {
                old(self)@
            },
    {
        match polled {
            PollOutput::Frame(_) => (
                DrainStep::Deliver {
                    to: self.channel.live(),
                    is_config: flags & BUFFER_FLAG_CODEC_CONFIG != 0,
                    is_sync: flags & BUFFER_FLAG_SYNC_FRAME != 0,
                },
                (None, None),
            ),
            PollOutput::Idle => (DrainStep::Nothing, (None, None)),
            PollOutput::TooSmall(needed) => (
                DrainStep::Grow { needed, loud: needed >= OUTPUT_BUFFER_LOUD },
                (None, None),
            ),
            PollOutput::Failed => (DrainStep::End, self.channel.disconnect()),
        }
    }

    /// Whether the display is going away.
    pub fn is_stopped(&self) -> (b: bool)
        ensures
            b == self@.stop,
    {
        self.stop
    }

    /// The display goes away. Returns the connections that end.
    pub fn shutdown(&mut self) -> (gone: (Option<u64>, Option<u64>))
        ensures
            gone == (old(self)@.channel.live, old(self)@.channel.pending),
            final(self)@ == (ConsumerView {
                stop: true,
                channel: ChannelView { live: None, pending: None, ..old(self)@.channel },
                ..old(self)@
            }),
    {
        self.stop = true;
        self.channel.disconnect()
    }
}

/// A client is served frames of one size only: when the encoder is replaced, it is gone.
pub proof fn law_a_header_holds_for_all_that_follows(v: ConsumerView, width: u32, height: u32)
    requires
        v.encoder is Some,
        v.encoder != Some((ScreenSize { width, height })),
    ensures
        v.built(width, height, true).channel.live is None,
        v.built(width, height, true).encoder == Some((ScreenSize { width, height })),
        v.built(width, height, false).encoder == v.encoder,
        v.built(width, height, false).channel == v.channel,
{
}

/// A client that waits makes frames wanted, so that the encoder it waits for is built.
pub proof fn law_a_waiting_client_wants_frames(v: ConsumerView, others: i32)
    requires
        v.channel.pending is Some,
    ensures
        v.wants(others),
{
}

/// The generation moves when somebody joins on either side, though somebody leaves at once.
pub proof fn law_a_join_moves_the_generation(a: ConsumerView, b: ConsumerView, j: u64, k: u64)
    requires
        a.connects as int % 0x1_0000_0000 != b.connects as int % 0x1_0000_0000 || j as int
            % 0x1_0000_0000 != k as int % 0x1_0000_0000,
    ensures
        a.generation(j) != b.generation(k),
{
}

/// Between the bounds a bitrate is three bits a second for every pixel. Outside them it is the
/// bound.
pub proof fn law_a_bitrate_is_three_bits_a_pixel(w: int, h: int)
    requires
        0 <= w,
        0 <= h,
    ensures
        1_000_000 <= 3 * (w * h) <= 40_000_000 ==> bitrate_of(w, h) == 3 * (w * h),
        3 * (w * h) < 1_000_000 ==> bitrate_of(w, h) == 1_000_000,
        3 * (w * h) > 40_000_000 ==> bitrate_of(w, h) == 40_000_000,
{
}

/// A frame is a picture where it has pixels on both sides.
pub proof fn law_a_picture_has_pixels(f: FrameOffer)
    ensures
        f.has_picture() ==> f.has_pixels && 1 <= f.width && 1 <= f.height,
        f.has_pixels && 1 <= f.width && 1 <= f.height ==> f.has_picture(),
{
}

/// Frames are wanted while anybody is there, here or elsewhere, and by nobody else.
pub proof fn law_frames_are_wanted_by_somebody(v: ConsumerView, others: i32)
    ensures
        v.channel.live is Some ==> v.wants(others),
        others >= 1 ==> v.wants(others),
        v.channel.live is None && v.channel.pending is None && others < 1 ==> !v.wants(others),
{
}

/// A frame that is passed over is counted, and nothing else comes of it.
pub proof fn law_a_frame_passed_over_is_counted(v: ConsumerView)
    ensures
        v.paused_offers < u64::MAX ==> v.passed_over().paused_offers == v.paused_offers + 1,
        !v.passed_over().was_feeding,
        v.passed_over().channel == v.channel,
        v.passed_over().encoder == v.encoder,
        v.passed_over().encoder_failed == v.encoder_failed,
        v.passed_over().gpu_route_failed == v.gpu_route_failed,
        v.passed_over().encode_errors == v.encode_errors,
        v.passed_over().connects == v.connects,
        v.passed_over().joins_answered == v.joins_answered,
        v.passed_over().stop == v.stop,
{
}

/// An encoder that was built is there, for its own size. The first one keeps the clients, who were
/// told no size yet; any other takes them away. One that could not be built changes nothing but that
/// none is asked for again. The counts stay either way.
pub proof fn law_an_encoder_is_for_its_size(v: ConsumerView, width: u32, height: u32, ok: bool)
    ensures
        ({
            let b = v.built(width, height, ok);
            &&& ok ==> (b.encoder matches Some(s) && s.width == width && s.height == height)
            &&& ok ==> b.encoder_failed == v.encoder_failed
            &&& !ok ==> b.encoder_failed && b.encoder == v.encoder && b.channel == v.channel
            &&& v.encoder is None ==> b.channel == v.channel
            &&& v.encoder is Some && ok ==> b.channel.live is None && b.channel.pending is None
            &&& b.channel.written == v.channel.written && b.channel.heartbeats
                == v.channel.heartbeats && b.channel.last_write_ms == v.channel.last_write_ms
            &&& b.gpu_route_failed == v.gpu_route_failed && b.was_feeding == v.was_feeding
                && b.paused_offers == v.paused_offers && b.encode_errors == v.encode_errors
                && b.connects == v.connects && b.joins_answered == v.joins_answered && b.stop
                == v.stop
        }),
{
}

/// A client that was sent the header is served, waits no more, and has just heard something: its
/// next beat is an interval away.
pub proof fn law_a_served_client_has_heard_something(
    v: ConsumerView,
    client: u64,
    now_ms: u64,
    later_ms: u64,
)
    requires
        now_ms <= later_ms,
    ensures
        ({
            let s = v.serving(client, now_ms);
            &&& s.channel.live == Some(client)
            &&& s.channel.pending is None
            &&& s.channel.beat_due(later_ms) <==> later_ms - now_ms >= 3000
            &&& s.channel.written == v.channel.written && s.channel.heartbeats
                == v.channel.heartbeats
            &&& s.encoder == v.encoder && s.encoder_failed == v.encoder_failed
                && s.gpu_route_failed == v.gpu_route_failed && s.was_feeding == v.was_feeding
                && s.paused_offers == v.paused_offers && s.encode_errors == v.encode_errors
                && s.connects == v.connects && s.joins_answered == v.joins_answered && s.stop
                == v.stop
        }),
{
}

/// A generation holds both counts, each to 2 to the power of 32: of those who joined here in its
/// upper half, and elsewhere in its lower one.
pub proof fn law_a_generation_holds_both_counts(v: ConsumerView, joins: u64)
    ensures
        v.connects <= u32::MAX && joins <= u32::MAX ==> {
            &&& v.generation(joins) / 0x1_0000_0000 == v.connects
            &&& v.generation(joins) % 0x1_0000_0000 == joins
        },
        0 <= v.generation(joins) <= u64::MAX,
{
}

/// The powers of two are two to some power, and nothing else.
pub proof fn law_a_power_of_two_is_one(n: int)
    ensures
        is_power_of_two(n) <==> exists|k: nat| n == #[trigger] vstd::arithmetic::power2::pow2(k),
    decreases n,
{
    vstd::arithmetic::power2::lemma2_to64();
    if n == 1 {
        assert(n == vstd::arithmetic::power2::pow2(0));
    } else if n > 1 {
        law_a_power_of_two_is_one(n / 2);
        if is_power_of_two(n) {
            let k = choose|k: nat| n / 2 == #[trigger] vstd::arithmetic::power2::pow2(k);
            vstd::arithmetic::power2::lemma_pow2_unfold(k + 1);
            assert(n == vstd::arithmetic::power2::pow2(k + 1));
        }
        if exists|k: nat| n == #[trigger] vstd::arithmetic::power2::pow2(k) {
            let k = choose|k: nat| n == #[trigger] vstd::arithmetic::power2::pow2(k);
            if k > 0 {
                vstd::arithmetic::power2::lemma_pow2_unfold(k);
                assert(n / 2 == vstd::arithmetic::power2::pow2((k - 1) as nat));
            }
        }
    } else {
        assert forall|k: nat| n != #[trigger] vstd::arithmetic::power2::pow2(k) by {
            vstd::arithmetic::power2::lemma_pow2_pos(k);
        }
    }
}

/// What the encoder returned is a length where it is positive, and otherwise why there is none.
pub proof fn law_a_positive_answer_is_a_length(ret: i32, size: u32)
    ensures
        polled_of(ret, size) matches PollOutput::Frame(n) ==> n == ret && n > 0,
        polled_of(ret, size) is Frame <==> ret > 0,
        polled_of(ret, size) is Idle <==> ret == 0,
        polled_of(ret, size) is TooSmall <==> ret == -1,
        polled_of(ret, size) matches PollOutput::TooSmall(n) ==> n == size,
        polled_of(ret, size) is Failed <==> ret < -1,
{
}

/// There is one client at a time: one that is taken waits, and whoever comes after it is told that
/// another has the stream, and changes nothing.
pub proof fn law_one_client_at_a_time(v: ConsumerView, client: u64, next: u64, others: i32)
    ensures
        ({
            let (step, w) = v.connected(client);
            &&& step is Wait <==> v.channel.live is None && v.channel.pending is None
            &&& step is Wait ==> w.channel.pending == Some(client) && w.channel.live is None
                && w.wants(others) && w.connects == vnc_channel::next_count(v.connects)
                && w.encoder == v.encoder
            &&& step is Wait ==> w.connected(next) == (ConnectStep::Refuse(Refusal::Busy), w)
            &&& !(step is Wait) ==> step == ConnectStep::Refuse(Refusal::Busy) && w == v
            &&& w.encoder_failed == v.encoder_failed && w.gpu_route_failed == v.gpu_route_failed
                && w.was_feeding == v.was_feeding && w.paused_offers == v.paused_offers
                && w.encode_errors == v.encode_errors && w.joins_answered == v.joins_answered
                && w.stop == v.stop && w.channel.written == v.channel.written
                && w.channel.heartbeats == v.channel.heartbeats && w.channel.last_write_ms
                == v.channel.last_write_ms
        }),
{
}

/// A client waits until there is an encoder, whose size it is told, or none can be had any more, or
/// its time is up, or the display goes away; whoever is told no waits no more.
pub proof fn law_a_wait_comes_to_an_end(v: ConsumerView, time_is_up: bool)
    ensures
        ({
            let (step, w) = v.waited(time_is_up);
            &&& step is Stop <==> v.stop
            &&& step matches WaitStep::Ready(s) ==> v.encoder == Some(s) && w == v
            &&& !v.stop && v.encoder is Some ==> step is Ready
            &&& step is Again <==> !v.stop && v.encoder is None && !v.encoder_failed && !time_is_up
            &&& step is Again ==> w == v
            &&& step matches WaitStep::Refuse { reason, client } ==> {
                &&& client == v.channel.pending
                &&& w.channel.pending is None && w.channel.live == v.channel.live
                &&& reason == (if v.encoder_failed {
                    Refusal::NoEncoder
                } else {
                    Refusal::NoFrame
                })
            }
            &&& step matches WaitStep::Stop { live, pending } ==> live == v.channel.live && pending
                == v.channel.pending && w.channel.live is None && w.channel.pending is None
            &&& w.encoder == v.encoder && w.encoder_failed == v.encoder_failed && w.stop == v.stop
                && w.connects == v.connects && w.gpu_route_failed == v.gpu_route_failed
                && w.was_feeding == v.was_feeding && w.paused_offers == v.paused_offers
                && w.encode_errors == v.encode_errors && w.joins_answered == v.joins_answered
                && w.channel.written == v.channel.written && w.channel.heartbeats
                == v.channel.heartbeats && w.channel.last_write_ms == v.channel.last_write_ms
        }),
{
}

/// Only the client that waits is served, and only with its header; then a keyframe is asked for. One
/// that left waits no more, and one that waited no more is owed nothing.
pub proof fn law_only_who_waits_is_served(
    v: ConsumerView,
    client: u64,
    header_sent: bool,
    now_ms: u64,
)
    ensures
        ({
            let (step, w) = v.served(client, header_sent, now_ms);
            &&& step is AskForKeyframe <==> v.channel.pending == Some(client) && header_sent
            &&& step is AskForKeyframe ==> w.channel.live == Some(client) && w.channel.pending
                is None && w.channel.last_write_ms == now_ms
            &&& step is Left <==> v.channel.pending == Some(client) && !header_sent
            &&& step is Left ==> w.channel.pending is None && w.channel.live == v.channel.live
                && w.channel.last_write_ms == v.channel.last_write_ms
            &&& step is Gone ==> w == v
            &&& w.channel.written == v.channel.written && w.channel.heartbeats
                == v.channel.heartbeats
            &&& w.encoder == v.encoder && w.connects == v.connects && w.stop == v.stop
                && w.encoder_failed == v.encoder_failed && w.gpu_route_failed == v.gpu_route_failed
                && w.was_feeding == v.was_feeding && w.paused_offers == v.paused_offers
                && w.encode_errors == v.encode_errors && w.joins_answered == v.joins_answered
        }),
{
}

/// A frame is encoded exactly where somebody wants it, it is a picture, and the display stays; then
/// at its own size. That nobody wants frames any more is told once, with how many were passed over.
pub proof fn law_a_wanted_picture_is_encoded(v: ConsumerView, offer: FrameOffer, others: i32)
    ensures
        ({
            let (step, w) = v.offered(offer, others);
            &&& step is Feed <==> !v.stop && v.wants(others) && offer.has_pixels && offer.width > 0
                && offer.height > 0
            &&& step matches OfferStep::Feed { width, height } ==> width == offer.width && height
                == offer.height
            &&& step is Paused <==> !v.stop && !v.wants(others) && v.was_feeding
            &&& step matches OfferStep::Paused { skipped } ==> skipped == v.paused_offers
            &&& !(w.offered(offer, others).0 is Paused)
            &&& v.stop ==> w == v
            &&& !v.stop ==> (w.was_feeding <==> v.wants(others))
            &&& !v.stop && v.wants(others) ==> w.paused_offers == v.paused_offers
            &&& !v.stop && !v.wants(others) ==> w.paused_offers == vnc_channel::next_count(
                v.paused_offers,
            )
            &&& w.channel == v.channel && w.encoder == v.encoder && w.connects == v.connects
                && w.stop == v.stop && w.encoder_failed == v.encoder_failed && w.gpu_route_failed
                == v.gpu_route_failed && w.encode_errors == v.encode_errors && w.joins_answered
                == v.joins_answered
        }),
{
}

/// An encoder is built for a size that there is none for, once; where it could not be, it is not
/// asked for again, and an encoder of another size does not serve.
pub proof fn law_an_encoder_is_built_when_it_is_needed(
    v: ConsumerView,
    width: u32,
    height: u32,
    ok: bool,
)
    ensures
        v.built(width, height, true).encoder_step(width, height) is Have,
        v.encoder_step(width, height) is Have ==> (v.encoder matches Some(s) && s.width == width
            && s.height == height),
        v.encoder_step(width, height) is Build <==> !v.encoder_failed && v.encoder != Some(
            (ScreenSize { width, height }),
        ),
        !(v.built(width, height, false).encoder_step(width, height) is Build),
        v.encoder_step(width, height) matches EncoderStep::Build { bitrate } ==> bitrate
            == bitrate_of(width as int, height as int),
{
}

/// The graphics hardware hands over what it holds, until it failed once. The cursor is drawn where it
/// is to be seen.
pub proof fn law_the_hardware_is_tried_until_it_fails(v: ConsumerView, offer: FrameOffer)
    ensures
        ({
            let (gpu, cursor) = v.routed(offer);
            let (step, w) = v.encoded(true, false);
            &&& gpu ==> offer.has_gpu_blit && offer.gpu_import_id != 0
            &&& offer.has_gpu_blit && offer.gpu_import_id != 0 && !v.gpu_route_failed ==> gpu
            &&& step is ByProcessor
            &&& match w.routed(offer) {
                (again, _) => !again,
            }
            &&& cursor <==> offer.has_cursor && offer.cursor_visible
        }),
{
}

/// A frame that was taken changes nothing. The failures of the processor's way are counted, and the
/// first and the one after every power of two are told, by their number.
pub proof fn law_failures_are_counted(v: ConsumerView, by_gpu: bool)
    ensures
        v.encoded(by_gpu, true) == (EncodeStep::Done, v),
        ({
            let (step, w) = v.encoded(false, false);
            &&& v.encode_errors < u64::MAX ==> w.encode_errors == v.encode_errors + 1
            &&& step is Report <==> v.encode_errors == 0 || is_power_of_two(v.encode_errors as int)
            &&& step matches EncodeStep::Report(n) ==> n == w.encode_errors
            &&& step is Report || step is Quiet
            &&& w.gpu_route_failed == v.gpu_route_failed
        }),
        ({
            let (_, w) = v.encoded(by_gpu, false);
            &&& by_gpu ==> w.gpu_route_failed && w.encode_errors == v.encode_errors
            &&& w.channel == v.channel && w.encoder == v.encoder && w.connects == v.connects
                && w.stop == v.stop && w.encoder_failed == v.encoder_failed && w.was_feeding
                == v.was_feeding && w.paused_offers == v.paused_offers && w.joins_answered
                == v.joins_answered
        }),
{
}

/// A frame goes to the client that is served, with what it is by its flags: the first bit marks a
/// keyframe and the second parameter sets. A frame that is too large is asked room for, loudly from
/// sixteen mebibytes on. Only a failure ends the stream, and then for everybody.
pub proof fn law_a_frame_goes_to_who_is_served(v: ConsumerView, polled: PollOutput, flags: u32)
    ensures
        ({
            let (step, gone) = v.drained(polled, flags);
            &&& step is Deliver <==> polled is Frame
            &&& step matches DrainStep::Deliver { to, is_config, is_sync } ==> to == v.channel.live
                && is_sync == (flags & 1 != 0) && is_config == (flags & 2 != 0)
            &&& step is Nothing <==> polled is Idle
            &&& step matches DrainStep::Grow { needed, loud } ==> polled == PollOutput::TooSmall(
                needed,
            ) && loud == (needed >= 16 * 1024 * 1024)
            &&& step is End <==> polled is Failed
            &&& step is End ==> gone == (v.channel.live, v.channel.pending)
            &&& !(step is End) ==> gone == (None::<u64>, None::<u64>)
            &&& v.alone().channel.live is None && v.alone().channel.pending is None
            &&& v.alone().channel.written == v.channel.written && v.alone().channel.heartbeats
                == v.channel.heartbeats && v.alone().channel.last_write_ms
                == v.channel.last_write_ms
            &&& v.alone().encoder == v.encoder && v.alone().stop == v.stop && v.alone().connects
                == v.connects
        }),
{
}

/// Parameter sets are taken whole, from one byte up to 4096, or not at all.
pub proof fn law_parameter_sets_are_taken_whole(size: usize)
    ensures
        config_of(size) is Some <==> 1 <= size <= 4096,
        config_of(size) matches Some(n) ==> n == size,
{
}

/// Who was there is told of an encoder that takes another's place, and of no other.
pub proof fn law_a_replaced_encoder_costs_its_clients(v: ConsumerView, ok: bool)
    ensures
        v.rebuilt(ok).built == ok,
        v.rebuilt(ok).gone is Some <==> ok && v.encoder is Some,
        v.rebuilt(ok).gone matches Some(g) ==> g == (v.channel.live, v.channel.pending),
{
}

} // verus!
