//! One encode: how the codec is set up, what is fed to it, and how what comes out reaches the
//! guest.
//!
//! A session never calls the codec. It says what to do next and takes what came of it. Coded
//! frames are held here from the moment the codec delivers them until a buffer of the guest's
//! takes them, in order; while too many are held, no raw frame is fed.
use crate::codec;
use crate::codec::CodecError;
use crate::codec::Timeval;
use crate::decoder;
use crate::decoder::BufferInfo;
use crate::decoder::InputBuffer;
use crate::decoder::Outcome;
use crate::decoder::OutputBuffer;
use crate::decoder::Rect;
use crate::encoder;
use crate::encoder::ChosenEncoder;
use crate::encoder::ColorAspects;
use crate::encoder::Colorimetry;
use crate::encoder::InputLayout;
use crate::encoder::VideoBitrateMode;
use crate::errno;
use crate::text;
use vstd::prelude::*;

verus! {

/// Where the stream's headers go.
#[derive(Clone, Copy, Debug, PartialEq, Eq, Structural)]
pub enum VideoHeaderMode {
    /// In a buffer of their own.
    Separate,
    /// In front of the first frame.
    JoinedWith1stFrame,
}

/// What the guest asks of a session. The frame rate and the distance of keyframes go to the
/// codec beside this.
#[derive(Clone, Copy, Debug, PartialEq, Eq)]
pub struct EncoderConfig {
    pub coded_format: u32,
    pub coded_size: (u32, u32),
    pub visible: Rect,
    pub bitrate: u32,
    pub bitrate_mode: VideoBitrateMode,
    pub profile: Option<i32>,
    pub level: Option<i32>,
    pub header_mode: VideoHeaderMode,
    pub prepend_headers: bool,
    pub qp: Option<(i32, i32)>,
    pub colorimetry: Colorimetry,
}

/// What a codec is created with. What is `None` is left to it.
#[derive(Clone, Copy, Debug, PartialEq, Eq, Structural)]
pub struct EncoderSetup {
    /// Which of the codecs.
    pub codec: usize,
    pub width: i32,
    pub height: i32,
    pub bitrate: i32,
    pub bitrate_mode: i32,
    pub profile: Option<i32>,
    pub level: Option<i32>,
    pub prepend_headers: bool,
    pub qp_min: Option<i32>,
    pub qp_max: Option<i32>,
    pub colors: ColorAspects,
}

/// What starting a session takes.
#[derive(Clone, Copy, Debug, PartialEq, Eq, Structural)]
pub enum StartStep {
    /// Nothing: it runs.
    Running,
    Create(EncoderSetup),
}

/// The first codec for a format, from `i` on; the length of the list where there is none.
pub open spec fn codec_for(codecs: Seq<ChosenEncoder>, fourcc: u32, i: int) -> int
    decreases codecs.len() - i,
{
    if i >= codecs.len() {
        codecs.len() as int
    } else if codecs[i].fourcc == fourcc {
        i
    } else {
        codec_for(codecs, fourcc, i + 1)
    }
}

/// A size as the codec takes it: at least 1.
pub open spec fn side(v: int) -> i32 {
    codec::min_int(codec::max_int(v, 1), i32::MAX as int) as i32
}

/// What a codec is created with. It is created for the visible picture: that is what it is
/// given. The level is passed on only where it is not the one the guest's control starts at, so
/// that the codec picks the level that the size and the rate need.
pub open spec fn setup_of(chosen: ChosenEncoder, at: int, config: EncoderConfig) -> EncoderSetup {
    EncoderSetup {
        codec: at as usize,
        width: side(config.visible.width as int),
        height: side(config.visible.height as int),
        bitrate: decoder::as_i32(config.bitrate as int),
        bitrate_mode: encoder::bitrate_mode_of(config.bitrate_mode),
        profile: match config.profile {
            Some(p) => encoder::profile_mc(encoder::profiles_of(chosen.mime@), p, 0),
            None => None,
        },
        level: match config.level {
            Some(l) => if Some(l) == chosen.default_level {
                None
            } else {
                encoder::level_mc(chosen.mime@, l as int)
            },
            None => None,
        },
        prepend_headers: config.prepend_headers,
        qp_min: match config.qp {
            Some(q) => if chosen.qp_bounds && q.0 > encoder::QP_MIN {
                Some(q.0)
            } else {
                None
            },
            None => None,
        },
        qp_max: match config.qp {
            Some(q) => if chosen.qp_bounds && q.1 < encoder::QP_MAX {
                Some(q.1)
            } else {
                None
            },
            None => None,
        },
        colors: encoder::aspects_of(config.colorimetry),
    }
}

/// Why a codec's input layout is refused.
#[derive(Clone, Copy, Debug, PartialEq, Eq, Structural)]
pub enum LayoutError {
    /// It is neither of the two layouts that can be filled.
    ColorFormat,
    /// It names no slice height, so the chroma cannot be placed.
    NoSliceHeight,
    /// It does not cover the picture.
    TooSmall,
}

/// What the codec publishes of its input once it is configured.
#[derive(Clone, Copy, Debug, PartialEq, Eq, Structural)]
pub struct InputFormat {
    pub color_format: Option<i32>,
    pub stride: Option<i32>,
    pub slice_height: Option<i32>,
}

/// Whether a colour format is interleaved chroma, two planes of it, or neither.
pub open spec fn semiplanar_of(color_format: i32) -> Option<bool> {
    if color_format == encoder::COLOR_FORMAT_YUV420_SEMI_PLANAR || color_format
        == encoder::COLOR_FORMAT_YUV420_PACKED_SEMI_PLANAR || color_format
        == encoder::COLOR_QCOM_FORMAT_YUV420_SEMI_PLANAR || color_format
        == encoder::COLOR_FORMAT_YUV420_FLEXIBLE {
        Some(true)
    } else if color_format == encoder::COLOR_FORMAT_YUV420_PLANAR || color_format
        == encoder::COLOR_FORMAT_YUV420_PACKED_PLANAR {
        Some(false)
    } else {
        None
    }
}

/// The input layout of a codec: its stride is the width where it names none, but the slice
/// height it has to name.
pub open spec fn layout_of(format: InputFormat, requested: i32, width: int, height: int) -> Result<
    InputLayout,
    LayoutError,
> {
    let color_format = match format.color_format {
        Some(c) => c,
        None => requested,
    };
    let stride = match format.stride {
        Some(s) => s as int,
        None => width,
    };
    match (semiplanar_of(color_format), format.slice_height) {
        (None, _) => Err(LayoutError::ColorFormat),
        (Some(_), None) => Err(LayoutError::NoSliceHeight),
        (Some(semiplanar), Some(slice)) => if stride < width || slice < height {
            Err(LayoutError::TooSmall)
        } else {
            Ok(
                InputLayout {
                    color_format,
                    stride: stride as u32,
                    slice_height: slice as u32,
                    semiplanar,
                },
            )
        },
    }
}

/// The input layout of a codec, or why the codec is refused.
pub fn input_layout(format: InputFormat, requested: i32, width: i32, height: i32) -> (r: Result<
    InputLayout,
    LayoutError,
>)
    requires
        0 <= width,
        0 <= height,
    ensures
        r == layout_of(format, requested, width as int, height as int),
{
    let color_format: i32 = match format.color_format {
        Some(c) => c,
        None => requested,
    };
    let semiplanar = if color_format == encoder::COLOR_FORMAT_YUV420_SEMI_PLANAR || color_format
        == encoder::COLOR_FORMAT_YUV420_PACKED_SEMI_PLANAR || color_format
        == encoder::COLOR_QCOM_FORMAT_YUV420_SEMI_PLANAR || color_format
        == encoder::COLOR_FORMAT_YUV420_FLEXIBLE {
        true
    } else if color_format == encoder::COLOR_FORMAT_YUV420_PLANAR || color_format
        == encoder::COLOR_FORMAT_YUV420_PACKED_PLANAR {
        false
    } else {
        return Err(LayoutError::ColorFormat);
    };
    let stride: i32 = match format.stride {
        Some(s) => s,
        None => width,
    };
    let slice: i32 = match format.slice_height {
        Some(s) => s,
        None => {
            return Err(LayoutError::NoSliceHeight);
        },
    };
    if stride < width || slice < height {
        return Err(LayoutError::TooSmall);
    }
    Ok(InputLayout { color_format, stride: stride as u32, slice_height: slice as u32, semiplanar })
}

/// What waits for a place in the codec.
#[derive(Clone, Copy, Debug, PartialEq, Eq, Structural)]
pub enum PendingInput {
    Frame(InputBuffer),
    /// The end of the stream.
    Eos,
}

/// What an output of the codec is.
#[derive(Clone, Copy, Debug, PartialEq, Eq, Structural)]
pub enum Part {
    /// The stream's headers alone.
    Headers,
    /// A coded frame.
    Coded { key: bool, is_last: bool },
    /// An empty last buffer.
    EmptyLast,
}

impl Part {
    /// What the guest is told the buffer holds.
    pub open spec fn shown_as(self) -> FrameKind {
        match self {
            Part::Headers => FrameKind::Headers,
            Part::Coded { key, .. } => if key {
                FrameKind::Key
            } else {
                FrameKind::Inter
            },
            Part::EmptyLast => FrameKind::Inter,
        }
    }

    /// Whether the stream ends with it.
    pub open spec fn ends(self) -> bool {
        match self {
            Part::Headers => false,
            Part::Coded { is_last, .. } => is_last,
            Part::EmptyLast => true,
        }
    }

    fn kind(self) -> (k: FrameKind)
        ensures
            k == self.shown_as(),
    {
        match self {
            Part::Headers => FrameKind::Headers,
            Part::Coded { key, .. } => if key {
                FrameKind::Key
            } else {
                FrameKind::Inter
            },
            Part::EmptyLast => FrameKind::Inter,
        }
    }

    fn is_last(self) -> (b: bool)
        ensures
            b == self.ends(),
    {
        match self {
            Part::Headers => false,
            Part::Coded { is_last, .. } => is_last,
            Part::EmptyLast => true,
        }
    }
}

/// What the codec delivered and no buffer of the guest's has taken.
struct Held {
    part: Part,
    bytes: Vec<u8>,
    pts_us: i64,
}

/// What is held, as a value.
pub struct HeldView {
    pub part: Part,
    pub bytes: Seq<u8>,
    pub pts_us: i64,
}

impl View for Held {
    type V = HeldView;

    closed spec fn view(&self) -> HeldView {
        HeldView { part: self.part, bytes: self.bytes@, pts_us: self.pts_us }
    }
}

#[derive(Clone, Copy, Debug, PartialEq, Eq, Structural)]
pub enum FrameKind {
    Headers,
    Key,
    Inter,
}

/// Why a session ended.
#[derive(Clone, Copy, Debug, PartialEq, Eq, Structural)]
pub enum Fault {
    /// The codec refused so many indices since the last flush.
    Refused(u32),
    /// A frame does not fit the codec's layout or buffer.
    Pack,
    /// A coded frame fits none of the lent buffers.
    CaptureTooSmall,
    /// The codec's input buffers do not hold a padded frame.
    InputTooSmall,
    /// The codec reported an error.
    Codec(i32),
    FlushFailed,
    FlushTimedOut,
}

/// What the device is told.
#[derive(Clone, Copy, Debug, PartialEq, Eq, Structural)]
pub enum EncoderEvent {
    InputBufferDone(u32),
    FrameEncoded {
        index: u32,
        bytesused: u32,
        timestamp: Timeval,
        kind: FrameKind,
        is_last: bool,
    },
    Error(Fault),
}

/// What feeding the codec takes.
#[derive(Clone, Copy, Debug, PartialEq, Eq, Structural)]
pub enum InputJob {
    /// Queue the end of the stream at an index.
    Eos { index: i32 },
    /// Pack a frame into an index. With `sync`, the codec is first asked to make it a keyframe.
    Frame { index: i32, buffer: InputBuffer, pts: u64, sync: bool },
}

/// Bytes to write into a buffer of the guest's.
pub struct WriteJob {
    pub capture: OutputBuffer,
    pub bytes: Vec<u8>,
}

/// A session as a value.
pub struct EncodeView {
    /// Whether there is a codec.
    pub running: bool,
    /// Which of the codecs it is.
    pub chosen: Option<int>,
    pub layout: Option<InputLayout>,
    pub coded_size: (u32, u32),
    pub visible: Rect,
    pub header_mode: VideoHeaderMode,
    /// The codec's places for input that nothing uses.
    pub free_inputs: Seq<i32>,
    pub pending: Seq<PendingInput>,
    pub captures: Seq<OutputBuffer>,
    pub held: Seq<HeldView>,
    /// Headers that wait for the next frame.
    pub joined: Option<Seq<u8>>,
    pub events: Seq<EncoderEvent>,
    pub eos_queued: bool,
    pub eos_seen: bool,
    pub dead: bool,
    /// Whether it is known how much an input holds.
    pub capacity_known: bool,
    /// The time of the first frame that was fed.
    pub first_pts: Option<i64>,
    /// Whether the next frame is to be a keyframe.
    pub sync: bool,
    pub refused: int,
}

/// The events without the returned inputs.
pub open spec fn without_inputs(events: Seq<EncoderEvent>) -> Seq<EncoderEvent>
    decreases events.len(),
{
    if events.len() == 0 {
        Seq::empty()
    } else {
        let rest = without_inputs(events.drop_last());
        if events.last() is InputBufferDone {
            rest
        } else {
            rest.push(events.last())
        }
    }
}

/// The events without the coded frames.
pub open spec fn without_frames(events: Seq<EncoderEvent>) -> Seq<EncoderEvent>
    decreases events.len(),
{
    if events.len() == 0 {
        Seq::empty()
    } else {
        let rest = without_frames(events.drop_last());
        if events.last() is FrameEncoded {
            rest
        } else {
            rest.push(events.last())
        }
    }
}

impl EncodeView {
    pub open spec fn wf(self) -> bool {
        &&& 0 <= self.refused
        &&& !self.dead ==> self.refused <= codec::MAX_REFUSED_INDICES
        &&& self.refused <= codec::MAX_REFUSED_INDICES + 1
    }

    /// The session is over: the device hears why, and nothing is lent any more.
    pub open spec fn failed(self, fault: Fault) -> Self {
        if self.dead {
            self
        } else {
            EncodeView {
                dead: true,
                pending: Seq::empty(),
                captures: Seq::empty(),
                held: Seq::empty(),
                free_inputs: Seq::empty(),
                joined: None,
                events: self.events.push(EncoderEvent::Error(fault)),
                ..self
            }
        }
    }

    /// The codec refused an index. A null buffer is an index from before a flush, and is passed
    /// over.
    pub open spec fn refused_index(self, e: CodecError) -> Self {
        if self.dead || e == CodecError::Null || e == CodecError::NullCodec {
            self
        } else {
            let counted = EncodeView { refused: self.refused + 1, ..self };
            if counted.refused > codec::MAX_REFUSED_INDICES {
                counted.failed(Fault::Refused(counted.refused as u32))
            } else {
                counted
            }
        }
    }

    /// What feeding the codec takes, where anything can be fed.
    pub open spec fn input_job(self) -> Option<InputJob> {
        if self.dead || self.eos_queued || self.held.len() >= encoder::HELD_OUTPUT_LIMIT
            || !self.running || self.layout is None || self.free_inputs.len() == 0
            || self.pending.len() == 0 {
            None
        } else {
            match self.pending[0] {
                PendingInput::Eos => Some(InputJob::Eos { index: self.free_inputs[0] }),
                PendingInput::Frame(buffer) => Some(
                    InputJob::Frame {
                        index: self.free_inputs[0],
                        buffer,
                        pts: codec::wrap_u64(
                            buffer.timestamp.tv_sec * 1_000_000 + buffer.timestamp.tv_usec,
                        ) as u64,
                        sync: self.sync,
                    },
                ),
            }
        }
    }

    /// After the input job. A frame that the codec's layout or buffer does not take ends the
    /// session: nothing makes it fit.
    pub open spec fn fed(self, error: Option<CodecError>) -> Self {
        let used = EncodeView { free_inputs: self.free_inputs.drop_first(), ..self };
        match (self.pending[0], error) {
            (PendingInput::Eos, None) => EncodeView {
                pending: self.pending.drop_first(),
                eos_queued: true,
                ..used
            },
            (PendingInput::Frame(buffer), None) => EncodeView {
                pending: self.pending.drop_first(),
                first_pts: match self.first_pts {
                    Some(p) => Some(p),
                    None => Some(
                        (codec::wrap_u64(
                            buffer.timestamp.tv_sec * 1_000_000 + buffer.timestamp.tv_usec,
                        ) as u64) as i64,
                    ),
                },
                sync: false,
                events: self.events.push(EncoderEvent::InputBufferDone(buffer.index)),
                ..used
            },
            (PendingInput::Frame(_), Some(e)) => if e == CodecError::Fill || e
                == CodecError::BufferTooSmall {
                self.failed(Fault::Pack)
            } else {
                used.refused_index(e)
            },
            (PendingInput::Eos, Some(e)) => used.refused_index(e),
        }
    }

    /// The codec offers a place for input, which holds `capacity` bytes. A place that does not
    /// hold a padded frame ends the session.
    pub open spec fn input_available(self, index: i32, capacity: Option<usize>) -> Self {
        let free = EncodeView { free_inputs: self.free_inputs.push(index), ..self };
        match capacity {
            Some(n) => if self.capacity_known {
                free
            } else if self.layout is Some && n < self.layout->0.frame_bytes() {
                (EncodeView { capacity_known: true, ..self }).failed(Fault::InputTooSmall)
            } else {
                EncodeView { capacity_known: true, ..free }
            },
            None => free,
        }
    }

    /// Something more is held.
    pub open spec fn holding(self, part: Part, bytes: Seq<u8>, pts_us: i64) -> Self {
        EncodeView { held: self.held.push(HeldView { part, bytes, pts_us }), ..self }
    }

    /// The stream's headers, placed as the guest asked. They carry the time of the first frame.
    pub open spec fn headers_taken(self, bytes: Seq<u8>, pts_us: i64) -> Self {
        match self.header_mode {
            VideoHeaderMode::Separate => self.holding(
                Part::Headers,
                bytes,
                match self.first_pts {
                    Some(p) => p,
                    None => pts_us,
                },
            ),
            VideoHeaderMode::JoinedWith1stFrame => EncodeView { joined: Some(bytes), ..self },
        }
    }

    /// After an output was copied out of the codec and given back to it.
    pub open spec fn output_taken(
        self,
        info: BufferInfo,
        src: Seq<u8>,
        error: Option<CodecError>,
    ) -> Self {
        let v = match error {
            Some(e) => self.refused_index(e),
            None => self,
        };
        let eos = info.flags & codec::BUFFER_FLAG_END_OF_STREAM != 0;
        let bytes = output_bytes(info, src);
        if info.flags & codec::BUFFER_FLAG_CODEC_CONFIG != 0 {
            let h = v.headers_taken(bytes, info.pts_us);
            if eos {
                h.holding(Part::EmptyLast, Seq::empty(), info.pts_us)
            } else {
                h
            }
        } else if bytes.len() > 0 {
            v.holding(
                Part::Coded {
                    key: info.flags & codec::BUFFER_FLAG_KEY_FRAME != 0,
                    is_last: eos,
                },
                bytes,
                info.pts_us,
            )
        } else if eos {
            v.holding(Part::EmptyLast, Seq::empty(), info.pts_us)
        } else {
            v
        }
    }

    /// What the next write puts into a buffer: a frame has the waiting headers in front of it,
    /// unless it starts with them.
    pub open spec fn next_bytes(self) -> Seq<u8> {
        let first = self.held[0];
        match (first.part, self.joined) {
            (Part::Coded { .. }, Some(headers)) => if headers.is_prefix_of(first.bytes) {
                first.bytes
            } else {
                headers + first.bytes
            },
            _ => first.bytes,
        }
    }

    /// Where the next write goes; the number of lent buffers where none takes it.
    pub open spec fn next_capture(self) -> int {
        decoder::first_fit(self.captures, self.next_bytes().len() as int, 0)
    }

    /// Whether there is something to write and a buffer that takes it.
    pub open spec fn can_write(self) -> bool {
        !self.dead && self.held.len() > 0 && self.next_capture() < self.captures.len()
    }

    /// After the next write. Where buffers are lent and none is large enough, the session ends:
    /// part of a frame is no frame.
    pub open spec fn written(self) -> Self {
        if self.dead || self.held.len() == 0 || self.captures.len() == 0 {
            self
        } else if self.next_capture() >= self.captures.len() {
            self.failed(Fault::CaptureTooSmall)
        } else {
            let first = self.held[0];
            EncodeView {
                held: self.held.drop_first(),
                captures: self.captures.remove(self.next_capture()),
                joined: if first.part is Coded {
                    None
                } else {
                    self.joined
                },
                events: self.events.push(
                    EncoderEvent::FrameEncoded {
                        index: self.captures[self.next_capture()].index,
                        bytesused: self.next_bytes().len() as u32,
                        timestamp: codec::timeval_of(first.pts_us as int),
                        kind: first.part.shown_as(),
                        is_last: first.part.ends(),
                    },
                ),
                eos_seen: self.eos_seen || first.part.ends(),
                ..self
            }
        }
    }

    /// The next frame is to be a keyframe.
    pub open spec fn keyframe_forced(self) -> Self {
        EncodeView { sync: self.sync || self.running, ..self }
    }

    /// The codec is being flushed. What was copied out of it stays.
    pub open spec fn flushing(self) -> Self {
        if !self.running {
            self
        } else {
            EncodeView {
                running: false,
                free_inputs: Seq::empty(),
                eos_queued: false,
                eos_seen: false,
                refused: 0,
                ..self
            }
        }
    }

    /// A codec runs.
    pub open spec fn started(self, codec: int, layout: InputLayout, config: EncoderConfig) -> Self {
        EncodeView {
            running: true,
            chosen: Some(codec),
            layout: Some(layout),
            coded_size: config.coded_size,
            visible: config.visible,
            header_mode: config.header_mode,
            free_inputs: Seq::empty(),
            held: Seq::empty(),
            joined: None,
            eos_queued: false,
            eos_seen: false,
            capacity_known: false,
            first_pts: None,
            sync: false,
            refused: 0,
            ..self
        }
    }

    /// The session's use of its codec ends. The returned inputs are still told.
    pub open spec fn stopped(self) -> Self {
        EncodeView {
            running: false,
            pending: Seq::empty(),
            captures: Seq::empty(),
            held: Seq::empty(),
            free_inputs: Seq::empty(),
            joined: None,
            events: without_frames(self.events),
            layout: None,
            eos_queued: false,
            eos_seen: false,
            capacity_known: false,
            first_pts: None,
            sync: false,
            ..self
        }
    }

    /// Whether the session may be used.
    pub open spec fn alive(self) -> Result<(), i32> {
        if self.dead {
            Err(errno::ENODEV)
        } else {
            Ok(())
        }
    }

    /// Whether a raw frame may be queued.
    pub open spec fn encode_step(self) -> Result<(), i32> {
        if self.dead {
            Err(errno::ENODEV)
        } else if !self.running {
            Err(errno::EINVAL)
        } else {
            Ok(())
        }
    }

    /// A raw frame waits.
    pub open spec fn queued(self, buffer: InputBuffer) -> Self {
        EncodeView { pending: self.pending.push(PendingInput::Frame(buffer)), ..self }
    }

    /// A buffer for coded frames was lent.
    pub open spec fn lent(self, buffer: OutputBuffer) -> Self {
        if self.dead {
            self
        } else {
            EncodeView { captures: self.captures.push(buffer), ..self }
        }
    }

    /// What to set the codec's bitrate to, where there is a codec.
    pub open spec fn bitrate_step(self, bitrate: u32) -> Result<Option<i32>, i32> {
        if self.dead {
            Err(errno::ENODEV)
        } else if !self.running {
            Ok(None)
        } else {
            Ok(Some(decoder::as_i32(bitrate as int)))
        }
    }

    /// A flush began.
    pub open spec fn seeking(self) -> Self {
        (EncodeView {
            pending: Seq::empty(),
            events: without_inputs(self.events),
            ..self
        }).flushing()
    }

    /// The codec was flushed, or was not.
    pub open spec fn flushed(self, outcome: Outcome) -> Self {
        match outcome {
            Outcome::Done => EncodeView { running: true, ..self },
            Outcome::Failed(_) => self.failed(Fault::FlushFailed),
            Outcome::TimedOut => self.failed(Fault::FlushTimedOut),
        }
    }

    /// The end of the stream waits, unless it did or is in the codec.
    pub open spec fn drained(self) -> Self {
        if self.dead || self.eos_queued || self.has_eos() {
            self
        } else {
            EncodeView { pending: self.pending.push(PendingInput::Eos), ..self }
        }
    }

    /// Whether the end of the stream waits.
    pub open spec fn has_eos(self) -> bool {
        exists|i: int| 0 <= i < self.pending.len() && (#[trigger] self.pending[i]) is Eos
    }
}

/// The bytes of an output: as many as it says, and as the codec's buffer holds.
pub open spec fn output_bytes(info: BufferInfo, src: Seq<u8>) -> Seq<u8> {
    src.take(
        codec::min_int(decoder::at_least_zero(info.size as int), src.len() as int),
    )
}

/// One encode.
pub struct MediaCodecEncoderSession {
    codecs: Vec<ChosenEncoder>,
    running: bool,
    chosen: Option<usize>,
    layout: Option<InputLayout>,
    coded_size: (u32, u32),
    visible: Rect,
    header_mode: VideoHeaderMode,
    free_inputs: Vec<i32>,
    pending: Vec<PendingInput>,
    captures: Vec<OutputBuffer>,
    held: Vec<Held>,
    joined: Option<Vec<u8>>,
    events: Vec<EncoderEvent>,
    eos_queued: bool,
    eos_seen: bool,
    dead: bool,
    capacity_known: bool,
    first_pts: Option<i64>,
    sync: bool,
    refused: u32,
}

impl View for MediaCodecEncoderSession {
    type V = EncodeView;

    closed spec fn view(&self) -> EncodeView {
        EncodeView {
            running: self.running,
            chosen: match self.chosen {
                Some(i) => Some(i as int),
                None => None,
            },
            layout: self.layout,
            coded_size: self.coded_size,
            visible: self.visible,
            header_mode: self.header_mode,
            free_inputs: self.free_inputs@,
            pending: self.pending@,
            captures: self.captures@,
            held: self.held@.map_values(|h: Held| h@),
            joined: match self.joined {
                Some(v) => Some(v@),
                None => None,
            },
            events: self.events@,
            eos_queued: self.eos_queued,
            eos_seen: self.eos_seen,
            dead: self.dead,
            capacity_known: self.capacity_known,
            first_pts: self.first_pts,
            sync: self.sync,
            refused: self.refused as int,
        }
    }
}

/// What starting a session takes.
pub open spec fn start_of(
    codecs: Seq<ChosenEncoder>,
    v: EncodeView,
    config: EncoderConfig,
) -> Result<StartStep, i32> {
    let at = codec_for(codecs, config.coded_format, 0);
    if v.running {
        Ok(StartStep::Running)
    } else if v.dead {
        Err(errno::ENODEV)
    } else if at >= codecs.len() {
        Err(errno::EINVAL)
    } else {
        Ok(StartStep::Create(setup_of(codecs[at], at, config)))
    }
}

impl MediaCodecEncoderSession {
    /// The codecs to choose from.
    pub closed spec fn codecs(&self) -> Seq<ChosenEncoder> {
        self.codecs@
    }

    /// A session with no codec.
    pub fn new(codecs: Vec<ChosenEncoder>) -> (s: Self)
        ensures
            s@.wf(),
            s.codecs() == codecs@,
            s@ == (EncodeView {
                running: false,
                chosen: None,
                layout: None,
                coded_size: (0, 0),
                visible: Rect { left: 0, top: 0, width: 0, height: 0 },
                header_mode: VideoHeaderMode::JoinedWith1stFrame,
                free_inputs: Seq::empty(),
                pending: Seq::empty(),
                captures: Seq::empty(),
                held: Seq::empty(),
                joined: None,
                events: Seq::empty(),
                eos_queued: false,
                eos_seen: false,
                dead: false,
                capacity_known: false,
                first_pts: None,
                sync: false,
                refused: 0,
            }),
    {
        let s = MediaCodecEncoderSession {
            codecs,
            running: false,
            chosen: None,
            layout: None,
            coded_size: (0, 0),
            visible: Rect { left: 0, top: 0, width: 0, height: 0 },
            header_mode: VideoHeaderMode::JoinedWith1stFrame,
            free_inputs: Vec::new(),
            pending: Vec::new(),
            captures: Vec::new(),
            held: Vec::new(),
            joined: None,
            events: Vec::new(),
            eos_queued: false,
            eos_seen: false,
            dead: false,
            capacity_known: false,
            first_pts: None,
            sync: false,
            refused: 0,
        };
        assert(s@.held =~= Seq::empty());
        s
    }

    /// Ends the session.
    fn fail(&mut self, fault: Fault)
        requires
            old(self)@.refused <= codec::MAX_REFUSED_INDICES + 1,
        ensures
            final(self)@.wf(),
            final(self).codecs() == old(self).codecs(),
            final(self)@ == old(self)@.failed(fault),
    {
        if self.dead {
            return;
        }
        self.dead = true;
        self.pending.clear();
        self.captures.clear();
        self.held.clear();
        self.free_inputs.clear();
        self.joined = None;
        self.events.push(EncoderEvent::Error(fault));
        assert(self@.held =~= Seq::empty());
    }

    /// Takes that the codec refused an index.
    fn refuse(&mut self, e: CodecError)
        requires
            old(self)@.wf(),
        ensures
            final(self)@.wf(),
            final(self).codecs() == old(self).codecs(),
            final(self)@ == old(self)@.refused_index(e),
    {
        if self.dead || e == CodecError::Null || e == CodecError::NullCodec {
            return;
        }
        self.refused = self.refused + 1;
        if self.refused > codec::MAX_REFUSED_INDICES {
            self.fail(Fault::Refused(self.refused));
        }
    }

    /// What starting the session takes.
    pub fn start(&self, config: &EncoderConfig) -> (r: Result<StartStep, i32>)
        ensures
            r == start_of(self.codecs(), self@, *config),
    {
        if self.running {
            return Ok(StartStep::Running);
        }
        if self.dead {
            return Err(errno::ENODEV);
        }
        let mut i: usize = 0;
        while i < self.codecs.len() && self.codecs[i].fourcc != config.coded_format
            invariant
                i <= self.codecs@.len(),
                codec_for(self.codecs@, config.coded_format, 0) == codec_for(
                    self.codecs@,
                    config.coded_format,
                    i as int,
                ),
            decreases self.codecs@.len() - i,
        {
            i = i + 1;
        }
        if i >= self.codecs.len() {
            return Err(errno::EINVAL);
        }
        let chosen = &self.codecs[i];
        let mime: &str = chosen.mime.as_str();
        let profile: Option<i32> = match config.profile {
            Some(p) => encoder::find_mc(&encoder::profile_pairs(mime), p),
            None => None,
        };
        let level: Option<i32> = match config.level {
            Some(l) => if chosen.default_level == Some(l) {
                None
            } else {
                encoder::level_to_mc(mime, l)
            },
            None => None,
        };
        let mut qp_min: Option<i32> = None;
        let mut qp_max: Option<i32> = None;
        if chosen.qp_bounds {
            if let Some(q) = config.qp {
                if q.0 > encoder::QP_MIN {
                    qp_min = Some(q.0);
                }
                if q.1 < encoder::QP_MAX {
                    qp_max = Some(q.1);
                }
            }
        }
        Ok(
            StartStep::Create(
                EncoderSetup {
                    codec: i,
                    width: clamped(config.visible.width),
                    height: clamped(config.visible.height),
                    bitrate: capped(config.bitrate),
                    bitrate_mode: encoder::bitrate_mode_to_mc(config.bitrate_mode),
                    profile,
                    level,
                    prepend_headers: config.prepend_headers,
                    qp_min,
                    qp_max,
                    colors: encoder::color_aspects(&config.colorimetry),
                },
            ),
        )
    }
}

/// What came of creating a codec.
#[derive(Clone, Copy, Debug, PartialEq, Eq, Structural)]
pub enum Creation {
    /// It runs. It was asked for `requested`, and publishes `format`.
    Done { format: InputFormat, requested: i32 },
    Failed(CodecError),
    TimedOut,
}

/// The colour format to ask a codec for, after those it refused.
pub open spec fn color_after(refused: Option<i32>) -> Option<i32> {
    match refused {
        None => Some(encoder::COLOR_FORMAT_YUV420_SEMI_PLANAR),
        Some(r) => if r == encoder::COLOR_FORMAT_YUV420_SEMI_PLANAR {
            Some(encoder::COLOR_FORMAT_YUV420_FLEXIBLE)
        } else {
            None
        },
    }
}

/// What creating a codec came to: its layout, or what the guest is told.
pub open spec fn created(config: EncoderConfig, outcome: Creation) -> Result<InputLayout, i32> {
    match outcome {
        Creation::Done { format, requested } => match layout_of(
            format,
            requested,
            side(config.visible.width as int) as int,
            side(config.visible.height as int) as int,
        ) {
            Ok(layout) => Ok(layout),
            Err(_) => Err(errno::EINVAL),
        },
        Creation::Failed(e) => Err(codec::errno_of(e)),
        Creation::TimedOut => Err(errno::ETIMEDOUT),
    }
}

/// The colour format to ask a codec for, after those it refused.
pub fn color_format_after(refused: Option<i32>) -> (c: Option<i32>)
    ensures
        c == color_after(refused),
{
    match refused {
        None => Some(encoder::COLOR_FORMAT_YUV420_SEMI_PLANAR),
        Some(r) => if r == encoder::COLOR_FORMAT_YUV420_SEMI_PLANAR {
            Some(encoder::COLOR_FORMAT_YUV420_FLEXIBLE)
        } else {
            None
        },
    }
}

impl MediaCodecEncoderSession {
    /// Takes what came of creating the codec. Where it was created and this is an error, its
    /// input layout is refused, and it is to be stopped.
    pub fn on_started(&mut self, codec: usize, config: &EncoderConfig, outcome: Creation) -> (r:
        Result<(), i32>)
        requires
            old(self)@.wf(),
        ensures
            final(self)@.wf(),
            final(self).codecs() == old(self).codecs(),
            match created(*config, outcome) {
                Ok(layout) => {
                    &&& r == Ok::<(), i32>(())
                    &&& final(self)@ == old(self)@.started(codec as int, layout, *config)
                },
                Err(e) => final(self)@ == old(self)@ && r == Err::<(), i32>(e),
            },
    {
        match outcome {
            Creation::Done { format, requested } => {
                let width: i32 = clamped(config.visible.width);
                let height: i32 = clamped(config.visible.height);
                match input_layout(format, requested, width, height) {
                    Ok(layout) => {
                        self.running = true;
                        self.chosen = Some(codec);
                        self.layout = Some(layout);
                        self.coded_size = config.coded_size;
                        self.visible = config.visible;
                        self.header_mode = config.header_mode;
                        self.free_inputs.clear();
                        self.held.clear();
                        self.joined = None;
                        self.eos_queued = false;
                        self.eos_seen = false;
                        self.capacity_known = false;
                        self.first_pts = None;
                        self.sync = false;
                        self.refused = 0;
                        assert(self@.held =~= Seq::empty());
                        Ok(())
                    },
                    Err(_) => Err(errno::EINVAL),
                }
            },
            Creation::Failed(e) => Err(codec::errno_for(e)),
            Creation::TimedOut => Err(errno::ETIMEDOUT),
        }
    }

    /// Queues a raw frame.
    pub fn encode(&mut self, buffer: InputBuffer) -> (r: Result<(), i32>)
        requires
            old(self)@.wf(),
        ensures
            final(self)@.wf(),
            final(self).codecs() == old(self).codecs(),
            r == old(self)@.encode_step(),
            final(self)@ == if r is Ok {
                old(self)@.queued(buffer)
            } else {
                old(self)@
            },
    {
        if self.dead {
            return Err(errno::ENODEV);
        }
        if !self.running {
            return Err(errno::EINVAL);
        }
        self.pending.push(PendingInput::Frame(buffer));
        Ok(())
    }

    /// What feeding the codec takes; `None` where nothing can be fed.
    pub fn next_input(&self) -> (job: Option<InputJob>)
        ensures
            job == self@.input_job(),
    {
        if self.dead || self.eos_queued || self.held.len() >= encoder::HELD_OUTPUT_LIMIT
            || !self.running || self.layout.is_none() || self.free_inputs.len() == 0
            || self.pending.len() == 0 {
            return None;
        }
        match self.pending[0] {
            PendingInput::Eos => Some(InputJob::Eos { index: self.free_inputs[0] }),
            PendingInput::Frame(buffer) => Some(
                InputJob::Frame {
                    index: self.free_inputs[0],
                    buffer,
                    pts: codec::pts_from(buffer.timestamp),
                    sync: self.sync,
                },
            ),
        }
    }

    /// How the codec wants its input, and the coded size and the visible picture of the guest's
    /// frames: what a frame is packed by.
    pub fn packing(&self) -> (p: (Option<InputLayout>, (u32, u32), Rect))
        ensures
            p == (self@.layout, self@.coded_size, self@.visible),
    {
        (self.layout, self.coded_size, self.visible)
    }

    /// Takes what came of feeding the codec.
    pub fn on_input(&mut self, error: Option<CodecError>)
        requires
            old(self)@.wf(),
            old(self)@.input_job() is Some,
        ensures
            final(self)@.wf(),
            final(self).codecs() == old(self).codecs(),
            final(self)@ == old(self)@.fed(error),
    {
        let head = self.pending[0];
        if let Some(e) = error {
            if let PendingInput::Frame(_) = head {
                if e == CodecError::Fill || e == CodecError::BufferTooSmall {
                    self.fail(Fault::Pack);
                    return;
                }
            }
        }
        let _ = self.free_inputs.remove(0);
        assert(self.free_inputs@ =~= old(self)@.free_inputs.drop_first());
        match error {
            Some(e) => {
                self.refuse(e);
            },
            None => {
                let _ = self.pending.remove(0);
                assert(self.pending@ =~= old(self)@.pending.drop_first());
                match head {
                    PendingInput::Eos => {
                        self.eos_queued = true;
                    },
                    PendingInput::Frame(buffer) => {
                        if self.first_pts.is_none() {
                            self.first_pts = Some(codec::pts_from(buffer.timestamp) as i64);
                        }
                        self.sync = false;
                        self.events.push(EncoderEvent::InputBufferDone(buffer.index));
                    },
                }
            },
        }
    }

    /// Takes a place for input that the codec offers. Returns whether to go on with what else
    /// the codec reported.
    pub fn on_input_available(&mut self, index: i32, capacity: Option<usize>) -> (go_on: bool)
        requires
            old(self)@.wf(),
        ensures
            final(self)@.wf(),
            final(self).codecs() == old(self).codecs(),
            final(self)@ == old(self)@.input_available(index, capacity),
            go_on == !(!old(self)@.capacity_known && old(self)@.layout is Some && (capacity matches
                Some(n) && n < old(self)@.layout->0.frame_bytes())),
    {
        if !self.capacity_known {
            if let Some(n) = capacity {
                self.capacity_known = true;
                if let Some(layout) = self.layout {
                    if (n as u128) < layout.frame_size() {
                        self.fail(Fault::InputTooSmall);
                        return false;
                    }
                }
            }
        }
        self.free_inputs.push(index);
        true
    }

    /// Takes that the codec would not show an output.
    pub fn on_output_refused(&mut self, e: CodecError)
        requires
            old(self)@.wf(),
        ensures
            final(self)@.wf(),
            final(self).codecs() == old(self).codecs(),
            final(self)@ == old(self)@.refused_index(e),
    {
        self.refuse(e);
    }

    fn hold(&mut self, part: Part, bytes: Vec<u8>, pts_us: i64)
        requires
            old(self)@.wf(),
        ensures
            final(self)@.wf(),
            final(self).codecs() == old(self).codecs(),
            final(self)@ == old(self)@.holding(part, bytes@, pts_us),
    {
        self.held.push(Held { part, bytes, pts_us });
        assert(self@.held =~= old(self)@.held.push(HeldView { part, bytes: bytes@, pts_us }));
    }

    fn take_headers(&mut self, bytes: Vec<u8>, pts_us: i64)
        requires
            old(self)@.wf(),
        ensures
            final(self)@.wf(),
            final(self).codecs() == old(self).codecs(),
            final(self)@ == old(self)@.headers_taken(bytes@, pts_us),
    {
        let pts: i64 = match self.first_pts {
            Some(p) => p,
            None => pts_us,
        };
        match self.header_mode {
            VideoHeaderMode::Separate => {
                self.hold(Part::Headers, bytes, pts);
            },
            VideoHeaderMode::JoinedWith1stFrame => {
                self.joined = Some(bytes);
            },
        }
    }

    /// Takes an output of the codec: what its buffer held, and what came of giving the buffer
    /// back.
    pub fn on_output(&mut self, info: BufferInfo, src: &[u8], error: Option<CodecError>)
        requires
            old(self)@.wf(),
        ensures
            final(self)@.wf(),
            final(self).codecs() == old(self).codecs(),
            final(self)@ == old(self)@.output_taken(info, src@, error),
    {
        if let Some(e) = error {
            self.refuse(e);
        }
        let ghost v = self@;
        let mut n: usize = 0;
        if info.size > 0 {
            n = src.len();
            if (info.size as u64) < n as u64 {
                n = info.size as usize;
            }
        }
        let mut bytes: Vec<u8> = Vec::new();
        while bytes.len() < n
            invariant
                bytes@.len() <= n <= src@.len(),
                bytes@ == src@.take(bytes@.len() as int),
            decreases n - bytes@.len(),
        {
            let at: usize = bytes.len();
            bytes.push(src[at]);
        }
        assert(bytes@ == output_bytes(info, src@));
        let eos = info.flags & codec::BUFFER_FLAG_END_OF_STREAM != 0;
        let key = info.flags & codec::BUFFER_FLAG_KEY_FRAME != 0;
        if info.flags & codec::BUFFER_FLAG_CODEC_CONFIG != 0 {
            self.take_headers(bytes, info.pts_us);
        } else if bytes.len() > 0 {
            self.hold(Part::Coded { key, is_last: eos }, bytes, info.pts_us);
            return;
        }
        if eos {
            let empty: Vec<u8> = Vec::new();
            self.hold(Part::EmptyLast, empty, info.pts_us);
        }
    }

    /// Takes an error that the codec reported.
    pub fn on_error(&mut self, status: i32)
        requires
            old(self)@.wf(),
        ensures
            final(self)@.wf(),
            final(self).codecs() == old(self).codecs(),
            final(self)@ == old(self)@.failed(Fault::Codec(status)),
    {
        self.fail(Fault::Codec(status));
    }
}

impl MediaCodecEncoderSession {
    /// The next bytes to write into a buffer of the guest's, and the buffer; `None` where nothing
    /// is held or no buffer is lent, and where the session ended for want of a large enough one.
    pub fn next_write(&mut self) -> (job: Option<WriteJob>)
        requires
            old(self)@.wf(),
        ensures
            final(self)@.wf(),
            final(self).codecs() == old(self).codecs(),
            final(self)@ == old(self)@.written(),
            match job {
                Some(j) => {
                    &&& old(self)@.can_write()
                    &&& j.capture == old(self)@.captures[old(self)@.next_capture()]
                    &&& j.bytes@ == old(self)@.next_bytes()
                },
                None => !old(self)@.can_write(),
            },
    {
        if self.dead || self.held.len() == 0 || self.captures.len() == 0 {
            return None;
        }
        proof {
            lemma_first_fit_bound(self@.captures, self@.next_bytes().len() as int, 0);
        }
        let ghost start = self@;
        let frame = match self.held[0].part {
            Part::Coded { .. } => true,
            _ => false,
        };
        assert(start.held[0] == self.held@[0]@);
        let mut prefixed = false;
        let mut need: u128 = self.held[0].bytes.len() as u128;
        if frame {
            if let Some(headers) = &self.joined {
                if !text::bytes_start_with(&self.held[0].bytes, headers) {
                    prefixed = true;
                    need = need + headers.len() as u128;
                }
            }
        }
        assert(need == start.next_bytes().len());
        let mut at: usize = 0;
        while at < self.captures.len() && (self.captures[at].len as u128) < need
            invariant
                at <= self.captures@.len(),
                *self == *old(self),
                decoder::first_fit(self.captures@, need as int, 0) == decoder::first_fit(
                    self.captures@,
                    need as int,
                    at as int,
                ),
            decreases self.captures@.len() - at,
        {
            at = at + 1;
        }
        assert(at == start.next_capture());
        if at >= self.captures.len() {
            self.fail(Fault::CaptureTooSmall);
            return None;
        }
        let capture = self.captures.remove(at);
        let mut first = self.held.remove(0);
        assert(self@.held =~= start.held.drop_first());
        assert(first@ == start.held[0]);
        let mut bytes: Vec<u8> = Vec::new();
        if frame {
            let mut joined: Option<Vec<u8>> = None;
            std::mem::swap(&mut joined, &mut self.joined);
            if prefixed {
                if let Some(headers) = joined {
                    bytes = headers;
                }
            }
        }
        bytes.append(&mut first.bytes);
        assert(bytes@ == start.next_bytes());
        self.events.push(
            EncoderEvent::FrameEncoded {
                index: capture.index,
                bytesused: need as u32,
                timestamp: codec::timeval_from(first.pts_us),
                kind: first.part.kind(),
                is_last: first.part.is_last(),
            },
        );
        if first.part.is_last() {
            self.eos_seen = true;
        }
        Some(WriteJob { capture, bytes })
    }

    /// Lends a buffer for coded frames.
    pub fn use_as_capture(&mut self, buffer: OutputBuffer) -> (r: Result<(), i32>)
        requires
            old(self)@.wf(),
        ensures
            final(self)@.wf(),
            final(self).codecs() == old(self).codecs(),
            r == old(self)@.alive(),
            final(self)@ == old(self)@.lent(buffer),
    {
        if self.dead {
            return Err(errno::ENODEV);
        }
        self.captures.push(buffer);
        Ok(())
    }

    /// What to set the codec's bitrate to; nothing where there is no codec, which starts with
    /// it.
    pub fn set_bitrate(&self, bitrate: u32) -> (r: Result<Option<i32>, i32>)
        ensures
            r == self@.bitrate_step(bitrate),
    {
        if self.dead {
            return Err(errno::ENODEV);
        }
        if !self.running {
            return Ok(None);
        }
        Ok(Some(capped(bitrate)))
    }

    /// Makes the next frame that goes into the codec a keyframe. Where there is no codec, its
    /// first frame is one.
    pub fn force_keyframe(&mut self) -> (r: Result<(), i32>)
        requires
            old(self)@.wf(),
        ensures
            final(self)@.wf(),
            final(self).codecs() == old(self).codecs(),
            r == old(self)@.alive(),
            final(self)@ == if old(self)@.dead {
                old(self)@
            } else {
                old(self)@.keyframe_forced()
            },
    {
        if self.dead {
            return Err(errno::ENODEV);
        }
        if self.running {
            self.sync = true;
        }
        Ok(())
    }

    /// Begins a flush: what waits is dropped, and so is every return of an input that the device
    /// has not seen. Returns whether there is a codec to flush.
    pub fn flush(&mut self) -> (flush: bool)
        requires
            old(self)@.wf(),
        ensures
            final(self)@.wf(),
            final(self).codecs() == old(self).codecs(),
            flush == old(self)@.running,
            final(self)@ == old(self)@.seeking(),
    {
        self.pending.clear();
        let mut kept: Vec<EncoderEvent> = Vec::new();
        let mut i: usize = 0;
        assert(self.events@.take(0) =~= Seq::empty());
        while i < self.events.len()
            invariant
                i <= self.events@.len(),
                self.events@ == old(self)@.events,
                kept@ == without_inputs(self.events@.take(i as int)),
            decreases self.events@.len() - i,
        {
            assert(self.events@.take(i + 1).drop_last() =~= self.events@.take(i as int));
            match self.events[i] {
                EncoderEvent::InputBufferDone(_) => {},
                e => {
                    kept.push(e);
                },
            }
            i = i + 1;
        }
        assert(self.events@.take(i as int) =~= self.events@);
        self.events = kept;
        if !self.running {
            return false;
        }
        self.running = false;
        self.free_inputs.clear();
        self.eos_queued = false;
        self.eos_seen = false;
        self.refused = 0;
        true
    }

    /// Takes what came of the flush. A codec that did not flush is gone, and so is the session.
    pub fn on_flushed(&mut self, outcome: Outcome) -> (r: Result<(), i32>)
        requires
            old(self)@.wf(),
        ensures
            final(self)@.wf(),
            final(self).codecs() == old(self).codecs(),
            r == decoder::came_to(outcome),
            final(self)@ == old(self)@.flushed(outcome),
    {
        match outcome {
            Outcome::Done => {
                self.running = true;
                Ok(())
            },
            Outcome::Failed(e) => {
                self.fail(Fault::FlushFailed);
                Err(codec::errno_for(e))
            },
            Outcome::TimedOut => {
                self.fail(Fault::FlushTimedOut);
                Err(errno::ETIMEDOUT)
            },
        }
    }

    /// Queues the end of the stream, once.
    pub fn drain(&mut self) -> (r: Result<(), i32>)
        requires
            old(self)@.wf(),
        ensures
            final(self)@.wf(),
            final(self).codecs() == old(self).codecs(),
            r == old(self)@.alive(),
            final(self)@ == old(self)@.drained(),
    {
        if self.dead {
            return Err(errno::ENODEV);
        }
        if self.eos_queued {
            return Ok(());
        }
        let mut i: usize = 0;
        while i < self.pending.len()
            invariant
                i <= self.pending@.len(),
                *self == *old(self),
                self@.wf(),
                !self.dead,
                forall|j: int| 0 <= j < i ==> (#[trigger] self.pending@[j]) is Frame,
            decreases self.pending@.len() - i,
        {
            match self.pending[i] {
                PendingInput::Eos => {
                    assert(self.pending@[i as int] is Eos);
                    return Ok(());
                },
                PendingInput::Frame(_) => {},
            }
            i = i + 1;
        }
        assert(!self@.has_eos());
        self.pending.push(PendingInput::Eos);
        Ok(())
    }

    /// Ends the session's use of its codec. Returns whether there is one to stop.
    pub fn stop(&mut self) -> (stop: bool)
        requires
            old(self)@.wf(),
        ensures
            final(self)@.wf(),
            final(self).codecs() == old(self).codecs(),
            stop == old(self)@.running,
            final(self)@ == old(self)@.stopped(),
    {
        self.pending.clear();
        self.captures.clear();
        self.held.clear();
        self.free_inputs.clear();
        self.joined = None;
        let mut kept: Vec<EncoderEvent> = Vec::new();
        let mut i: usize = 0;
        assert(self.events@.take(0) =~= Seq::empty());
        while i < self.events.len()
            invariant
                i <= self.events@.len(),
                self.events@ == old(self)@.events,
                kept@ == without_frames(self.events@.take(i as int)),
            decreases self.events@.len() - i,
        {
            assert(self.events@.take(i + 1).drop_last() =~= self.events@.take(i as int));
            match self.events[i] {
                EncoderEvent::FrameEncoded { .. } => {},
                e => {
                    kept.push(e);
                },
            }
            i = i + 1;
        }
        assert(self.events@.take(i as int) =~= self.events@);
        self.events = kept;
        self.layout = None;
        self.eos_queued = false;
        self.eos_seen = false;
        self.capacity_known = false;
        self.first_pts = None;
        self.sync = false;
        let running = self.running;
        self.running = false;
        assert(self@.held =~= Seq::empty());
        running
    }

    /// How many events wait for the device. A step that makes them more wakes it.
    pub fn event_count(&self) -> (n: usize)
        ensures
            n == self@.events.len(),
    {
        self.events.len()
    }

    /// Whether the session is over.
    pub fn is_dead(&self) -> (b: bool)
        ensures
            b == self@.dead,
    {
        self.dead
    }

    /// Hands out what the device is to hear.
    pub fn take_events(&mut self) -> (events: Vec<EncoderEvent>)
        requires
            old(self)@.wf(),
        ensures
            final(self)@.wf(),
            final(self).codecs() == old(self).codecs(),
            events@ == old(self)@.events,
            final(self)@ == (EncodeView { events: Seq::empty(), ..old(self)@ }),
    {
        let mut events: Vec<EncoderEvent> = Vec::new();
        std::mem::swap(&mut events, &mut self.events);
        events
    }
}

proof fn lemma_first_fit_bound(captures: Seq<OutputBuffer>, need: int, i: int)
    requires
        0 <= i <= captures.len(),
    ensures
        i <= decoder::first_fit(captures, need, i) <= captures.len(),
        decoder::first_fit(captures, need, i) < captures.len() ==> captures[decoder::first_fit(
            captures,
            need,
            i,
        )].len >= need,
    decreases captures.len() - i,
{
    if i < captures.len() && captures[i].len < need {
        lemma_first_fit_bound(captures, need, i + 1);
    }
}

/// A session that is over stays over: it asks for nothing, writes nothing, and says so once.
pub proof fn law_the_end_is_final(v: EncodeView, fault: Fault, other: Fault)
    requires
        v.wf(),
        !v.dead,
    ensures
        ({
            let f = v.failed(fault);
            &&& f.dead
            &&& f.pending.len() == 0 && f.captures.len() == 0 && f.held.len() == 0
            &&& f.events == v.events.push(EncoderEvent::Error(fault))
            &&& f.failed(other) == f
            &&& f.input_job() is None
            &&& f.written() == f
        }),
{
}

/// Once the end of the stream is in the codec, nothing more goes in until it is flushed.
pub proof fn law_nothing_follows_the_end(v: EncodeView)
    requires
        v.eos_queued,
    ensures
        v.input_job() is None,
        v.running ==> !v.flushing().eos_queued,
{
}

/// While as many coded frames are held as may be, no raw frame is fed; a write makes room.
pub proof fn law_held_output_holds_input_back(v: EncodeView)
    requires
        v.held.len() >= encoder::HELD_OUTPUT_LIMIT,
    ensures
        v.input_job() is None,
        v.can_write() ==> v.written().held.len() == v.held.len() - 1,
{
}

/// What is written fits the buffer, and is all of what was held: the frame, with the waiting
/// headers in front of it where it does not start with them. The headers are waiting no more.
pub proof fn law_a_written_frame_is_whole(v: EncodeView)
    requires
        v.can_write(),
    ensures
        v.next_bytes().len() <= v.captures[v.next_capture()].len,
        v.held[0].bytes.is_suffix_of(v.next_bytes()),
        v.held[0].part is Coded && v.joined is Some ==> v.joined->0.is_prefix_of(v.next_bytes()),
        v.held[0].part is Coded ==> v.written().joined is None,
        v.joined is None ==> v.next_bytes() == v.held[0].bytes,
{
    lemma_first_fit_bound(v.captures, v.next_bytes().len() as int, 0);
    let first = v.held[0].bytes;
    if v.held[0].part is Coded && v.joined is Some && !v.joined->0.is_prefix_of(first) {
        let headers = v.joined->0;
        let all = headers + first;
        assert(all.subrange(all.len() - first.len(), all.len() as int) =~= first);
        assert(all.subrange(0, headers.len() as int) =~= headers);
    } else {
        assert(first.subrange(0, first.len() as int) =~= first);
    }
}

/// Coded frames leave in the order they came: a write takes the oldest, and what comes from the
/// codec meanwhile stands behind. A flush of the codec keeps them.
pub proof fn law_coded_frames_keep_their_order(
    v: EncodeView,
    part: Part,
    bytes: Seq<u8>,
    pts_us: i64,
)
    requires
        v.can_write(),
    ensures
        v.holding(part, bytes, pts_us).held[0] == v.held[0],
        v.written().holding(part, bytes, pts_us).held == v.holding(
            part,
            bytes,
            pts_us,
        ).held.drop_first(),
        v.flushing().held == v.held,
        v.flushing().joined == v.joined,
{
    assert(v.written().holding(part, bytes, pts_us).held =~= v.holding(
        part,
        bytes,
        pts_us,
    ).held.drop_first());
}

/// A keyframe that the guest forces is the next frame that goes into the codec, however long
/// that frame waits for a place and whatever the codec refuses meanwhile. No frame after it is
/// forced.
pub proof fn law_a_forced_keyframe_is_the_next_frame(v: EncodeView, e: CodecError)
    requires
        v.running,
    ensures
        ({
            let f = v.keyframe_forced();
            &&& f.input_job() matches Some(InputJob::Frame { sync, .. }) ==> sync
            &&& f.input_job() is Some ==> f.fed(Some(e)).sync
            &&& f.input_job() is Some && f.pending[0] is Eos ==> f.fed(None).sync
            &&& f.input_job() is Some && f.pending[0] is Frame ==> !f.fed(None).sync
            &&& f.written().sync && f.flushing().sync
        }),
{
}

/// A side of the picture as the codec takes it.
fn clamped(v: u32) -> (r: i32)
    ensures
        r == side(v as int),
{
    if v < 1 {
        1
    } else {
        capped(v)
    }
}

/// A number as the codec takes it.
fn capped(v: u32) -> (r: i32)
    ensures
        r == decoder::as_i32(v as int),
{
    if v < 0x7fff_ffff {
        v as i32
    } else {
        i32::MAX
    }
}

/// Every byte of an output that the codec delivers is held, in order and behind what is held
/// already: a frame as a keyframe exactly where its flag says so, and as the last one exactly where
/// the codec says that the stream ends with it. An empty output is held only where it ends the
/// stream.
pub proof fn law_an_output_is_held_as_it_is(v: EncodeView, info: BufferInfo, src: Seq<u8>)
    requires
        info.flags & 2 == 0,
    ensures
        ({
            let r = v.output_taken(info, src, None);
            let ends = info.flags & 4 != 0;
            let n: int = if info.size <= 0 {
                0
            } else if info.size <= src.len() {
                info.size as int
            } else {
                src.len() as int
            };
            let last = r.held.last();
            &&& n > 0 ==> {
                &&& r.held.len() == v.held.len() + 1 && r.held.drop_last() == v.held
                &&& last.bytes == src.take(n) && last.pts_us == info.pts_us
                &&& last.part matches Part::Coded { key, is_last } && (key <==> info.flags & 1 != 0)
                    && (is_last <==> ends)
            }
            &&& n == 0 && ends ==> {
                &&& r.held.len() == v.held.len() + 1 && r.held.drop_last() == v.held
                &&& last.part is EmptyLast && last.bytes.len() == 0 && last.pts_us == info.pts_us
            }
            &&& n == 0 && !ends ==> r == v
            &&& r.joined == v.joined && r.events == v.events && r.captures == v.captures
        }),
{
    let r = v.output_taken(info, src, None);
    if r.held.len() > v.held.len() {
        assert(r.held.drop_last() =~= v.held);
    }
}

/// The stream's headers go where the guest asked: into a buffer of their own, with the time of the
/// first frame, or in front of the next frame. A stream that ends with them ends all the same.
pub proof fn law_headers_go_where_the_guest_asked(v: EncodeView, info: BufferInfo, src: Seq<u8>)
    requires
        info.flags & 2 != 0,
        0 <= info.size <= src.len(),
    ensures
        ({
            let r = v.output_taken(info, src, None);
            let bytes = src.take(info.size as int);
            let ends = info.flags & 4 != 0;
            let more: int = if ends {
                1
            } else {
                0
            };
            &&& v.header_mode is Separate ==> {
                &&& r.joined == v.joined
                &&& r.held.len() == v.held.len() + 1 + more
                &&& r.held[v.held.len() as int].part is Headers
                &&& r.held[v.held.len() as int].bytes == bytes
                &&& v.first_pts matches Some(p) ==> r.held[v.held.len() as int].pts_us == p
                &&& v.first_pts is None ==> r.held[v.held.len() as int].pts_us == info.pts_us
            }
            &&& v.header_mode is JoinedWith1stFrame ==> r.joined == Some(bytes) && r.held.len()
                == v.held.len() + more
            &&& ends ==> r.held.last().part is EmptyLast && r.held.last().bytes.len() == 0
            &&& forall|i: int| 0 <= i < v.held.len() ==> r.held[i] == v.held[i]
        }),
{
}

/// What is written is told: the buffer, how many bytes, the time of the frame, what it holds and
/// whether the stream ends with it. The end is out exactly with the frame that ends the stream.
pub proof fn law_what_is_written_is_told(v: EncodeView)
    requires
        v.can_write(),
        v.next_bytes().len() <= u32::MAX,
    ensures
        ({
            let r = v.written();
            let first = v.held[0];
            &&& r.events.len() == v.events.len() + 1 && r.events.drop_last() == v.events
            &&& r.events.last() matches EncoderEvent::FrameEncoded {
                index,
                bytesused,
                timestamp,
                kind,
                is_last,
            } && {
                &&& index == v.captures[v.next_capture()].index
                &&& bytesused == v.next_bytes().len()
                &&& timestamp.tv_sec * 1_000_000 + timestamp.tv_usec == first.pts_us
                &&& 0 <= timestamp.tv_usec < 1_000_000
                &&& kind is Headers <==> first.part is Headers
                &&& kind is Key <==> (first.part matches Part::Coded { key, .. } && key)
                &&& is_last <==> first.part is EmptyLast || (first.part matches Part::Coded {
                    is_last,
                    ..
                } && is_last)
                &&& r.eos_seen <==> v.eos_seen || is_last
            }
            &&& r.held == v.held.drop_first()
            &&& r.captures == v.captures.remove(v.next_capture())
            &&& !r.dead
        }),
{
    codec::law_a_time_is_whole_seconds_and_millionths(v.held[0].pts_us);
    assert(v.written().events.drop_last() =~= v.events);
}

/// A write goes to the first lent buffer that is large enough. Where buffers are lent and none is,
/// the session ends; where none is lent, it waits.
pub proof fn law_a_write_goes_to_the_first_that_fits(v: EncodeView)
    requires
        !v.dead,
        v.held.len() > 0,
    ensures
        ({
            let need = v.next_bytes().len();
            let at = v.next_capture();
            &&& v.can_write() ==> 0 <= at < v.captures.len() && v.captures[at].len >= need
                && forall|i: int| 0 <= i < at ==> (#[trigger] v.captures[i]).len < need
            &&& !v.can_write() ==> forall|i: int|
                0 <= i < v.captures.len() ==> (#[trigger] v.captures[i]).len < need
            &&& v.captures.len() == 0 ==> v.written() == v
            &&& v.captures.len() > 0 && !v.can_write() ==> v.written().dead
                && v.written().events.last() == EncoderEvent::Error(Fault::CaptureTooSmall)
        }),
{
    decoder::law_the_first_that_fits(v.captures, v.next_bytes().len() as int, 0);
}

/// Headers that wait are joined to the next frame once, and never to headers or to an empty end. A
/// frame that starts with them already is written as it is.
pub proof fn law_headers_are_joined_once(v: EncodeView)
    requires
        v.can_write(),
    ensures
        !(v.held[0].part is Coded) ==> v.next_bytes() == v.held[0].bytes && v.written().joined
            == v.joined,
        v.held[0].part is Coded ==> v.written().joined is None,
        v.held[0].part is Coded ==> (v.joined matches Some(h) ==> {
            &&& h.is_prefix_of(v.held[0].bytes) ==> v.next_bytes() == v.held[0].bytes
            &&& !h.is_prefix_of(v.held[0].bytes) ==> v.next_bytes() == h + v.held[0].bytes
        }),
{
}

/// Raw frames go in order: what is fed is the first that waits, to the first free place, with the
/// guest's time in microseconds. Nothing is fed while the codec is not there or has no place, or
/// while as many as 32 coded frames are held.
pub proof fn law_raw_frames_go_in_order(v: EncodeView)
    ensures
        v.input_job() is Some <==> !v.dead && !v.eos_queued && v.held.len() < 32 && v.running
            && v.layout is Some && v.free_inputs.len() > 0 && v.pending.len() > 0,
        v.input_job() is Some && v.pending[0] is Eos ==> v.input_job() == Some(
            InputJob::Eos { index: v.free_inputs[0] },
        ),
        v.input_job() is Some ==> (v.pending[0] matches PendingInput::Frame(b) ==> (
        v.input_job() matches Some(InputJob::Frame { index, buffer, pts, sync }) && index
            == v.free_inputs[0] && buffer == b && sync == v.sync && {
            let us = b.timestamp.tv_sec * 1_000_000 + b.timestamp.tv_usec;
            (0 <= us <= u64::MAX ==> pts == us) && (us - pts) % 0x1_0000_0000_0000_0000 == 0
        })),
{
}

/// A raw frame is returned once, when it is in the codec. One that the codec refused waits as it
/// did, unless it can never fit: then the session ends.
pub proof fn law_no_raw_frame_is_lost(v: EncodeView, e: CodecError)
    requires
        v.wf(),
        v.input_job() is Some,
    ensures
        ({
            let r = v.fed(None);
            &&& r.pending == v.pending.drop_first() && r.free_inputs == v.free_inputs.drop_first()
            &&& r.held == v.held && r.captures == v.captures && !r.dead
            &&& v.pending[0] is Eos ==> r.eos_queued && r.events == v.events && r.first_pts
                == v.first_pts
            &&& v.pending[0] matches PendingInput::Frame(b) ==> {
                &&& !r.eos_queued
                &&& r.events == v.events.push(EncoderEvent::InputBufferDone(b.index))
                &&& v.first_pts is Some ==> r.first_pts == v.first_pts
                &&& v.first_pts is None && 0 <= b.timestamp.tv_sec * 1_000_000
                    + b.timestamp.tv_usec <= i64::MAX ==> r.first_pts == Some(
                    (b.timestamp.tv_sec * 1_000_000 + b.timestamp.tv_usec) as i64,
                )
            }
        }),
        ({
            let r = v.fed(Some(e));
            let never = v.pending[0] is Frame && (e is Fill || e is BufferTooSmall);
            &&& never ==> r.dead && r.events == v.events.push(EncoderEvent::Error(Fault::Pack))
            &&& !never && !r.dead ==> r.pending == v.pending && r.events == v.events
                && r.free_inputs == v.free_inputs.drop_first()
            &&& !never && v.refused < 64 ==> !r.dead
            &&& r.eos_queued == v.eos_queued
        }),
{
}

/// A codec may refuse 64 indices between two flushes, and the next refusal ends the session. An
/// index from before a flush is no refusal.
pub proof fn law_refusals_are_counted(v: EncodeView, e: CodecError)
    requires
        v.wf(),
        !v.dead,
    ensures
        e is Null || e is NullCodec ==> v.refused_index(e) == v,
        !(e is Null || e is NullCodec) && v.refused < 64 ==> !v.refused_index(e).dead
            && v.refused_index(e).refused == v.refused + 1 && v.refused_index(e).events == v.events
            && v.refused_index(e).held == v.held && v.refused_index(e).pending == v.pending,
        !(e is Null || e is NullCodec) && v.refused >= 64 ==> v.refused_index(e).dead,
        v.running ==> v.flushing().refused == 0,
{
}

/// A place for input is taken as it comes. The first of which it is known how much it holds decides
/// whether a padded frame fits at all.
pub proof fn law_a_place_must_hold_a_frame(v: EncodeView, index: i32, n: usize)
    requires
        !v.dead,
        v.layout is Some,
    ensures
        v.input_available(index, None).free_inputs == v.free_inputs.push(index),
        v.input_available(index, None).capacity_known == v.capacity_known,
        v.capacity_known || n >= v.layout->0.frame_bytes() ==> v.input_available(
            index,
            Some(n),
        ).free_inputs == v.free_inputs.push(index) && !v.input_available(index, Some(n)).dead,
        !v.capacity_known && n < v.layout->0.frame_bytes() ==> v.input_available(
            index,
            Some(n),
        ).dead,
        v.input_available(index, Some(n)).capacity_known,
{
}

/// A session starts afresh: with the guest's sizes and its place for headers, with nothing of an
/// earlier stream held and no end in sight; what the guest queued and lent is still there.
pub proof fn law_a_session_starts_afresh(
    v: EncodeView,
    codec: int,
    layout: InputLayout,
    config: EncoderConfig,
)
    ensures
        ({
            let r = v.started(codec, layout, config);
            &&& r.running && r.chosen == Some(codec) && r.layout == Some(layout)
            &&& r.coded_size == config.coded_size && r.visible == config.visible
            &&& r.header_mode == config.header_mode
            &&& r.held.len() == 0 && r.free_inputs.len() == 0 && r.joined is None
            &&& !r.eos_queued && !r.eos_seen && !r.capacity_known && r.first_pts is None && !r.sync
            &&& r.refused == 0
            &&& r.pending == v.pending && r.captures == v.captures && r.events == v.events
        }),
{
}

/// A flush voids the codec's places and the ends it reported, and nothing of the guest's; the end
/// of a session's codec takes back all that was lent, and every frame that was not heard.
pub proof fn law_a_flush_spares_the_guests_buffers(v: EncodeView)
    ensures
        v.running ==> {
            let f = v.flushing();
            &&& f.free_inputs.len() == 0 && !f.eos_queued && !f.eos_seen && !f.running
            &&& f.captures == v.captures && f.pending == v.pending && f.events == v.events
            &&& f.held == v.held && f.joined == v.joined && f.dead == v.dead && f.layout == v.layout
        },
        ({
            let s = v.stopped();
            &&& !s.running && s.pending.len() == 0 && s.captures.len() == 0 && s.held.len() == 0
            &&& s.free_inputs.len() == 0 && s.joined is None && s.layout is None
            &&& !s.eos_queued && !s.eos_seen && s.first_pts is None && s.dead == v.dead
        }),
{
}

/// A seek takes back the returns of inputs that were not heard; the end of the codec's use takes
/// back the frames. No other event is taken back.
pub proof fn law_only_what_is_void_is_taken_back(events: Seq<EncoderEvent>)
    ensures
        without_inputs(events) == events.filter(|e: EncoderEvent| !(e is InputBufferDone)),
        without_frames(events) == events.filter(|e: EncoderEvent| !(e is FrameEncoded)),
    decreases events.len(),
{
    reveal(Seq::filter);
    if events.len() > 0 {
        law_only_what_is_void_is_taken_back(events.drop_last());
    }
}

/// A codec is found by its format: it is for that format, and none before it is.
pub proof fn law_a_codec_is_found_by_its_format(codecs: Seq<ChosenEncoder>, fourcc: u32, i: int)
    requires
        0 <= i <= codecs.len(),
    ensures
        ({
            let at = codec_for(codecs, fourcc, i);
            &&& i <= at <= codecs.len()
            &&& at < codecs.len() ==> codecs[at].fourcc == fourcc
            &&& forall|j: int| i <= j < at ==> (#[trigger] codecs[j]).fourcc != fourcc
        }),
    decreases codecs.len() - i,
{
    if i < codecs.len() && codecs[i].fourcc != fourcc {
        law_a_codec_is_found_by_its_format(codecs, fourcc, i + 1);
    }
}

/// A codec is created as the guest asks: for the visible picture, with its rate, its way with
/// headers, and the bounds of its quantizer as far as they bind and the codec has any. Its level is
/// left to the codec where the guest left it.
pub proof fn law_a_codec_is_created_as_asked(chosen: ChosenEncoder, at: usize, c: EncoderConfig)
    ensures
        ({
            let s = setup_of(chosen, at as int, c);
            &&& s.codec == at
            &&& 1 <= c.visible.width <= i32::MAX ==> s.width == c.visible.width
            &&& 1 <= c.visible.height <= i32::MAX ==> s.height == c.visible.height
            &&& c.visible.width == 0 ==> s.width == 1
            &&& c.visible.height == 0 ==> s.height == 1
            &&& c.bitrate <= i32::MAX ==> s.bitrate == c.bitrate
            &&& s.bitrate_mode == encoder::bitrate_mode_of(c.bitrate_mode)
            &&& s.prepend_headers == c.prepend_headers
            &&& s.colors == encoder::aspects_of(c.colorimetry)
            &&& c.profile is None ==> s.profile is None
            &&& c.profile matches Some(p) ==> s.profile == encoder::profile_mc(
                encoder::profiles_of(chosen.mime@),
                p,
                0,
            )
            &&& c.level is None || c.level == chosen.default_level ==> s.level is None
            &&& c.level is Some && c.level != chosen.default_level ==> s.level == encoder::level_mc(
                chosen.mime@,
                c.level->0 as int,
            )
            &&& c.qp is None || !chosen.qp_bounds ==> s.qp_min is None && s.qp_max is None
            &&& chosen.qp_bounds ==> (c.qp matches Some(q) ==> {
                &&& q.0 > 0 ==> s.qp_min == Some(q.0)
                &&& q.0 <= 0 ==> s.qp_min is None
                &&& q.1 < 51 ==> s.qp_max == Some(q.1)
                &&& q.1 >= 51 ==> s.qp_max is None
            })
        }),
{
}

/// A layout is taken as the codec publishes it: its own colour format, or the one that it was asked
/// for, its own stride, or the width, and its own slice height. One that does not cover the
/// picture, names no slice height or is of another arrangement is refused.
pub proof fn law_a_layout_is_taken_as_published(
    f: InputFormat,
    requested: i32,
    width: int,
    height: int,
)
    requires
        0 <= width <= i32::MAX,
        0 <= height <= i32::MAX,
    ensures
        ({
            let color = if f.color_format is Some {
                f.color_format->0
            } else {
                requested
            };
            let stride = if f.stride is Some {
                f.stride->0 as int
            } else {
                width
            };
            let pairs = color == 21 || color == 39 || color == 0x7FA3_0C00 || color == 0x7F42_0888;
            let planes = color == 19 || color == 20;
            let r = layout_of(f, requested, width, height);
            &&& !pairs && !planes <==> r == Err::<InputLayout, LayoutError>(LayoutError::ColorFormat)
            &&& (pairs || planes) && f.slice_height is None ==> r == Err::<InputLayout, LayoutError>(
                LayoutError::NoSliceHeight,
            )
            &&& (pairs || planes) && f.slice_height is Some && (stride < width || f.slice_height->0
                < height) ==> r == Err::<InputLayout, LayoutError>(LayoutError::TooSmall)
            &&& (pairs || planes) && f.slice_height is Some && stride >= width && f.slice_height->0
                >= height ==> (r matches Ok(l) && l.color_format == color && l.stride == stride
                && l.slice_height == f.slice_height->0 && (l.semiplanar <==> pairs))
        }),
{
}

/// A session is told why it cannot be used: it is over, or it has no codec. A bitrate goes to the codec
/// that there is, as it was asked for where its numbers reach so far.
pub proof fn law_a_session_says_why_it_cannot_be_used(v: EncodeView, bitrate: u32)
    ensures
        v.alive() is Ok <==> !v.dead,
        v.encode_step() is Ok <==> !v.dead && v.running,
        v.dead ==> v.alive() == Err::<(), i32>(19) && v.encode_step() == Err::<(), i32>(19)
            && v.bitrate_step(bitrate) == Err::<Option<i32>, i32>(19),
        !v.dead && !v.running ==> v.encode_step() == Err::<(), i32>(22) && v.bitrate_step(bitrate)
            == Ok::<Option<i32>, i32>(None),
        !v.dead && v.running ==> (v.bitrate_step(bitrate) matches Ok(Some(n)) && n <= bitrate && (
        bitrate <= i32::MAX ==> n == bitrate) && (bitrate > i32::MAX ==> n == i32::MAX)),
{
}

/// A session that runs is not started again, and one that is over never is. Another is started with
/// the codec for its format.
pub proof fn law_a_session_is_started_once(
    codecs: Seq<ChosenEncoder>,
    v: EncodeView,
    config: EncoderConfig,
)
    ensures
        ({
            let r = start_of(codecs, v, config);
            &&& v.running ==> r == Ok::<StartStep, i32>(StartStep::Running)
            &&& !v.running && v.dead ==> r == Err::<StartStep, i32>(19)
            &&& r matches Ok(StartStep::Create(setup)) ==> !v.running && !v.dead && exists|i: int|
                0 <= i < codecs.len() && (#[trigger] codecs[i]).fourcc == config.coded_format
                    && setup == setup_of(codecs[i], i, config)
            &&& !v.running && !v.dead ==> (r is Err <==> forall|i: int|
                0 <= i < codecs.len() ==> (#[trigger] codecs[i]).fourcc != config.coded_format)
            &&& !v.running && !v.dead && r is Err ==> r == Err::<StartStep, i32>(22)
        }),
{
    law_a_codec_is_found_by_its_format(codecs, config.coded_format, 0);
    let at = codec_for(codecs, config.coded_format, 0);
    if at < codecs.len() {
        assert(codecs[at].fourcc == config.coded_format);
    }
}

/// A codec is asked for pairs of colour samples first, then for whatever it has, and then no more.
pub proof fn law_two_colour_formats_are_tried(refused: i32)
    ensures
        color_after(None) == Some(21i32),
        color_after(Some(21i32)) == Some(0x7f42_0888i32),
        refused != 21 ==> color_after(Some(refused)) is None,
{
}

/// A codec is used with the layout that it published for the picture that is seen. One without a layout
/// that can be filled is refused by 22, and one that was not created by what came of that.
pub proof fn law_a_codec_without_a_layout_is_refused(config: EncoderConfig, outcome: Creation)
    ensures
        match created(config, outcome) {
            Ok(layout) => outcome matches Creation::Done { format, requested } && layout_of(
                format,
                requested,
                side(config.visible.width as int) as int,
                side(config.visible.height as int) as int,
            ) == Ok::<InputLayout, LayoutError>(layout),
            Err(e) => match outcome {
                Creation::Done { format, requested } => e == 22 && layout_of(
                    format,
                    requested,
                    side(config.visible.width as int) as int,
                    side(config.visible.height as int) as int,
                ) is Err,
                Creation::Failed(error) => e == codec::errno_of(error),
                Creation::TimedOut => e == 110,
            },
        },
{
}

/// What the guest queues and lends goes behind what is there: nothing is lost and nothing overtakes.
pub proof fn law_nothing_overtakes(v: EncodeView, buffer: InputBuffer, capture: OutputBuffer)
    requires
        !v.dead,
    ensures
        v.queued(buffer).pending == v.pending.push(PendingInput::Frame(buffer)),
        v.queued(buffer).captures == v.captures && v.queued(buffer).held == v.held && v.queued(
            buffer,
        ).events == v.events && v.queued(buffer).free_inputs == v.free_inputs && v.queued(
            buffer,
        ).joined == v.joined && v.queued(buffer).eos_queued == v.eos_queued,
        v.lent(capture).captures == v.captures.push(capture),
        v.lent(capture).pending == v.pending && v.lent(capture).held == v.held && v.lent(
            capture,
        ).events == v.events && v.lent(capture).free_inputs == v.free_inputs && v.lent(
            capture,
        ).joined == v.joined && v.lent(capture).eos_queued == v.eos_queued,
{
}

/// A flush drops what waits, and the guest hears no more of the inputs it will not see; what was coded
/// stays. One that is done lets the codec run on; one that is not ends the session.
pub proof fn law_a_flush_is_done_or_ends_the_session(v: EncodeView, e: CodecError)
    requires
        !v.dead,
    ensures
        v.seeking().pending.len() == 0,
        v.seeking().events == without_inputs(v.events),
        v.seeking().captures == v.captures,
        v.seeking().held == v.held,
        v.seeking().joined == v.joined,
        !v.seeking().running,
        v.running ==> v.seeking().free_inputs.len() == 0 && !v.seeking().eos_queued
            && !v.seeking().eos_seen && v.seeking().refused == 0,
        v.flushed(Outcome::Done).running && !v.flushed(Outcome::Done).dead,
        v.flushed(Outcome::Done).captures == v.captures && v.flushed(Outcome::Done).events
            == v.events && v.flushed(Outcome::Done).pending == v.pending && v.flushed(
            Outcome::Done,
        ).held == v.held,
        v.flushed(Outcome::Failed(e)).dead && v.flushed(Outcome::TimedOut).dead,
        v.flushed(Outcome::Failed(e)).events == v.events.push(
            EncoderEvent::Error(Fault::FlushFailed),
        ),
        v.flushed(Outcome::TimedOut).events == v.events.push(
            EncoderEvent::Error(Fault::FlushTimedOut),
        ),
{
}

/// The end of the stream is queued once, behind everything else, however often it is asked for. Where
/// it is in the codec already, or the session is over, it is not queued.
pub proof fn law_the_end_is_queued_once(v: EncodeView)
    ensures
        ({
            let d = v.drained();
            &&& d.drained() == d
            &&& !v.dead && !v.eos_queued ==> exists|i: int|
                0 <= i < d.pending.len() && (#[trigger] d.pending[i]) is Eos
            &&& d.pending.len() > v.pending.len() ==> d.pending.drop_last() == v.pending
                && d.pending.last() is Eos && !v.eos_queued && !v.dead
            &&& d.pending.len() <= v.pending.len() ==> d == v
            &&& d.captures == v.captures && d.held == v.held && d.events == v.events
                && d.eos_queued == v.eos_queued && d.running == v.running
        }),
{
    let d = v.drained();
    if !v.dead && !v.eos_queued && !v.has_eos() {
        assert(d.pending[v.pending.len() as int] is Eos);
        assert(d.pending.drop_last() =~= v.pending);
    }
}

/// A session that is stopped has nothing left of its codec or of the guest's buffers.
pub proof fn law_a_stopped_session_holds_nothing(v: EncodeView)
    ensures
        !v.stopped().running,
        v.stopped().pending.len() == 0 && v.stopped().captures.len() == 0 && v.stopped().held.len()
            == 0 && v.stopped().free_inputs.len() == 0 && v.stopped().joined is None,
        v.stopped().dead == v.dead,
{
}

/// Whether the colour samples of a format stand in pairs or in planes of their own, by its number.
pub proof fn law_a_colour_format_tells_its_planes(f: i32)
    ensures
        semiplanar_of(21) == Some(true) && semiplanar_of(39) == Some(true) && semiplanar_of(
            0x7fa3_0c00,
        ) == Some(true) && semiplanar_of(0x7f42_0888) == Some(true),
        semiplanar_of(19) == Some(false) && semiplanar_of(20) == Some(false),
        f != 19 && f != 20 && f != 21 && f != 39 && f != 0x7fa3_0c00 && f != 0x7f42_0888
            ==> semiplanar_of(f) is None,
{
}

/// What the guest is told that a buffer holds: headers, a keyframe, or a frame that is none.
pub proof fn law_a_part_is_shown_as_what_it_is(part: Part)
    ensures
        part.shown_as() is Headers <==> part is Headers,
        part.shown_as() is Key <==> (part matches Part::Coded { key, .. } && key),
        part.shown_as() is Headers || part.shown_as() is Key || part.shown_as() is Inter,
{
}

/// As many bytes are taken of an output as it says, from its front, and no more than there are.
pub proof fn law_an_output_has_the_bytes_it_says(info: BufferInfo, src: Seq<u8>)
    ensures
        0 <= info.size <= src.len() ==> output_bytes(info, src) == src.subrange(
            0,
            info.size as int,
        ),
        info.size < 0 ==> output_bytes(info, src).len() == 0,
        info.size > src.len() ==> output_bytes(info, src) == src,
{
    assert(src.take(src.len() as int) =~= src);
}

} // verus!
