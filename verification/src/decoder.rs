//! The video decoder: which codec decodes what, and one decode from its first bitstream buffer to
//! its last frame.
//!
//! A session never calls the codec. It says what to do next (feed this buffer, release that
//! output, copy a frame here) and takes what came of it. Frames go out in the order in which the
//! codec delivered them; a change of size is announced once every frame before it is out, so no
//! frame is laid out for the size of another.
use crate::bytes;
use crate::codec;
use crate::codec::CodecError;
use crate::codec::CodecInfo;
use crate::codec::CodecKind;
use crate::codec::SizeRange;
use crate::codec::Timeval;
use crate::errno;
use vstd::prelude::*;

verus! {

/// How many buffers for frames the guest is told to bring.
pub const MIN_CAPTURE_BUFFERS: u32 = 4;

/// A coded format as it is offered.
#[derive(Clone, Copy, Debug, PartialEq, Eq, Structural)]
pub struct CodedFormat {
    pub fourcc: u32,
    pub width: SizeRange,
    pub height: SizeRange,
    /// The bitstream carries its own size.
    pub dynamic_resolution: bool,
}

/// The codec behind a coded format.
#[derive(Clone, Debug)]
pub struct ChosenCodec {
    pub fourcc: u32,
    pub mime: String,
    pub name: String,
    pub hardware: bool,
    pub vendor: bool,
    pub low_latency: bool,
}

impl ChosenCodec {
    /// Whether this is a listed codec, chosen for format `k`.
    pub open spec fn stands_for(&self, k: int, info: CodecInfo) -> bool {
        &&& self.fourcc == codec::format_fourcc(k)
        &&& self.mime@ == codec::format_mime(k)
        &&& self.name@ == info.name@
        &&& self.hardware == codec::hardware(info)
        &&& self.vendor == info.is_vendor
        &&& self.low_latency == codec::supports(info, "low-latency"@)
    }
}

/// The formats among the first `k` for which there is a codec, each with the codec's place in
/// the list.
pub open spec fn offered(codecs: Seq<CodecInfo>, kind: CodecKind, allow_sw: bool, k: int) -> Seq<
    (int, int),
>
    decreases k,
{
    if k <= 0 {
        Seq::empty()
    } else {
        let rest = offered(codecs, kind, allow_sw, k - 1);
        let mime = codec::format_mime(k - 1);
        if codec::no_choice(codecs, codecs.len() as int, kind, mime, allow_sw) {
            rest
        } else {
            rest.push((k - 1, choice(codecs, kind, mime, allow_sw)))
        }
    }
}

/// The place of the codec that is chosen.
pub open spec fn choice(codecs: Seq<CodecInfo>, kind: CodecKind, mime: Seq<char>, allow_sw: bool) -> int {
    choose|i: int| codec::best(codecs, codecs.len() as int, kind, mime, allow_sw, i)
}

/// The platform's decoders, one for each coded format that has one.
pub struct MediaCodecDecoderBackend {
    pub coded_formats: Vec<CodedFormat>,
    pub codecs: Vec<ChosenCodec>,
}

impl MediaCodecDecoderBackend {
    /// Chooses a decoder for each coded format. Software is left out unless it is allowed; a
    /// format without a decoder is not offered, and a platform without any gets a device that
    /// offers nothing.
    pub fn new(list: &Vec<CodecInfo>, allow_sw: bool) -> (backend: Self)
        ensures
            ({
                let o = offered(
                    list@,
                    CodecKind::Decoder,
                    allow_sw,
                    codec::CODED_FORMATS as int,
                );
                &&& backend.coded_formats@.len() == o.len()
                &&& backend.codecs@.len() == o.len()
                &&& forall|m: int|
                    0 <= m < o.len() ==> #[trigger] backend.coded_formats@[m] == (CodedFormat {
                        fourcc: codec::format_fourcc(o[m].0),
                        width: codec::sizes_of(list@[o[m].1].video).0,
                        height: codec::sizes_of(list@[o[m].1].video).1,
                        dynamic_resolution: true,
                    })
                &&& forall|m: int|
                    0 <= m < o.len() ==> (#[trigger] backend.codecs@[m]).stands_for(
                        o[m].0,
                        list@[o[m].1],
                    )
            }),
    {
        let mut coded_formats: Vec<CodedFormat> = Vec::new();
        let mut codecs: Vec<ChosenCodec> = Vec::new();
        let mut k: usize = 0;
        while k < codec::CODED_FORMATS
            invariant
                k <= codec::CODED_FORMATS,
                ({
                    let o = offered(list@, CodecKind::Decoder, allow_sw, k as int);
                    &&& coded_formats@.len() == o.len()
                    &&& codecs@.len() == o.len()
                    &&& forall|m: int|
                        0 <= m < o.len() ==> #[trigger] coded_formats@[m] == (CodedFormat {
                            fourcc: codec::format_fourcc(o[m].0),
                            width: codec::sizes_of(list@[o[m].1].video).0,
                            height: codec::sizes_of(list@[o[m].1].video).1,
                            dynamic_resolution: true,
                        })
                    &&& forall|m: int|
                        0 <= m < o.len() ==> (#[trigger] codecs@[m]).stands_for(
                            o[m].0,
                            list@[o[m].1],
                        )
                }),
            decreases codec::CODED_FORMATS - k,
        {
            let (fourcc, mime) = codec::coded_format(k);
            match codec::choose_codec(list, CodecKind::Decoder, mime, allow_sw) {
                Some(i) => {
                    let info = &list[i];
                    proof {
                        let n = list@.len() as int;
                        assert(codec::rank_of(
                            list@[i as int],
                            CodecKind::Decoder,
                            mime@,
                            allow_sw,
                        ) > 0);
                        let c = choice(list@, CodecKind::Decoder, mime@, allow_sw);
                        codec::law_the_choice_is_unique(
                            list@,
                            CodecKind::Decoder,
                            mime@,
                            allow_sw,
                            i as int,
                            c,
                        );
                    }
                    let (width, height) = codec::size_ranges(info);
                    coded_formats.push(
                        CodedFormat { fourcc, width, height, dynamic_resolution: true },
                    );
                    codecs.push(
                        ChosenCodec {
                            fourcc,
                            mime: mime.to_owned(),
                            name: info.name.clone(),
                            hardware: codec::is_hardware(info),
                            vendor: info.is_vendor,
                            low_latency: codec::has_feature(info, "low-latency"),
                        },
                    );
                },
                None => {},
            }
            k = k + 1;
        }
        MediaCodecDecoderBackend { coded_formats, codecs }
    }
}

// The session.

/// A bitstream buffer that the guest lends.
#[derive(Clone, Copy, Debug, PartialEq, Eq, Structural)]
pub struct InputBuffer {
    pub index: u32,
    pub len: usize,
    pub timestamp: Timeval,
}

/// A frame buffer that the guest lends.
#[derive(Clone, Copy, Debug, PartialEq, Eq, Structural)]
pub struct OutputBuffer {
    pub index: u32,
    pub len: usize,
}

/// What the codec says of an output.
#[derive(Clone, Copy, Debug, PartialEq, Eq, Structural)]
pub struct BufferInfo {
    pub size: i32,
    pub flags: u32,
    pub pts_us: i64,
}

/// A crop: the first and the last column and row in it.
#[derive(Clone, Copy, Debug, PartialEq, Eq, Structural)]
pub struct Crop {
    pub left: i32,
    pub top: i32,
    pub right: i32,
    pub bottom: i32,
}

/// What the codec says of its output from here on. A dimension that it does not give is 0.
#[derive(Clone, Copy, Debug, PartialEq, Eq, Structural)]
pub struct OutputFormat {
    pub width: i32,
    pub height: i32,
    pub crop: Option<Crop>,
}

/// What the codec delivered and the session has not passed on.
#[derive(Clone, Copy, Debug, PartialEq, Eq, Structural)]
pub enum Held {
    Output { index: i32, info: BufferInfo },
    Format(Option<OutputFormat>),
}

/// What waits for a place in the codec.
#[derive(Clone, Copy, Debug, PartialEq, Eq, Structural)]
pub enum PendingInput {
    /// A bitstream buffer, of which `offset` bytes are in the codec.
    Bitstream { buffer: InputBuffer, offset: usize },
    /// The end of the stream.
    Eos,
}

/// Part of a frame.
#[derive(Clone, Copy, Debug, PartialEq, Eq, Structural)]
pub struct Rect {
    pub left: i32,
    pub top: i32,
    pub width: u32,
    pub height: u32,
}

/// A size as it was announced.
#[derive(Clone, Copy, Debug, PartialEq, Eq, Structural)]
pub struct Announced {
    pub width: u32,
    pub height: u32,
    pub visible: Rect,
}

/// Why a session ended.
#[derive(Clone, Copy, Debug, PartialEq, Eq, Structural)]
pub enum Fault {
    /// The codec refused so many indices since the last flush.
    Refused(u32),
    /// A frame's layout does not fit its buffer.
    ImageTooLarge,
    /// A frame's layout cannot be read.
    ImageData,
    /// A frame could not be copied out.
    Repack,
    /// The codec reported an error.
    Codec(i32),
    FlushFailed,
    FlushTimedOut,
}

/// What the device is told.
#[derive(Clone, Copy, Debug, PartialEq, Eq, Structural)]
pub enum DecoderEvent {
    InputBufferDone(u32),
    FrameDecoded { index: u32, bytesused: u32, timestamp: Timeval, is_last: bool },
    FormatChanged { width: u32, height: u32, visible: Rect, min_capture_buffers: u32 },
    Error(Fault),
}

/// A session as a value.
pub struct SessionView {
    /// Whether there is a codec.
    pub running: bool,
    /// Which of the codecs it is.
    pub chosen: Option<int>,
    pub announced: Option<Announced>,
    /// The codec's places for input that nothing uses.
    pub free_inputs: Seq<i32>,
    pub pending: Seq<PendingInput>,
    pub captures: Seq<OutputBuffer>,
    pub held: Seq<Held>,
    pub events: Seq<DecoderEvent>,
    /// The end of the stream is in the codec: it takes nothing more until it is flushed.
    pub eos_queued: bool,
    /// The end of the stream is out.
    pub eos_seen: bool,
    pub dead: bool,
    /// How many indices the codec refused since the last flush.
    pub refused: int,
}

/// What feeding the codec takes.
#[derive(Clone, Copy, Debug, PartialEq, Eq, Structural)]
pub enum InputJob {
    /// Queue the end of the stream at an index.
    Eos { index: i32 },
    /// Copy what is left of a buffer to an index.
    Feed { index: i32, buffer: InputBuffer, start: usize, pts: u64 },
}

/// What an output takes.
#[derive(Clone, Copy, Debug, PartialEq, Eq, Structural)]
pub enum OutputJob {
    /// Nothing can be done.
    Idle,
    /// Give an index back; there is nothing in it.
    Release { index: i32 },
    /// Give an index back; the last buffer is an empty one.
    ReleaseLast { index: i32, capture: OutputBuffer },
    /// Look at the frame at an index.
    Inspect { index: i32 },
}

/// How a frame lies in the codec's buffer.
#[derive(Clone, Copy, Debug, PartialEq, Eq, Structural)]
pub struct ImageData {
    pub width: u32,
    pub height: u32,
    /// Where the first plane starts.
    pub offset: u32,
    /// How many bytes the layout takes as it is written.
    pub required: usize,
    /// And with the first plane's start taken off.
    pub rebased: usize,
}

#[derive(Clone, Copy, Debug, PartialEq, Eq, Structural)]
pub enum ImageInfo {
    Absent,
    Unreadable,
    Data(ImageData),
}

/// What the codec says of one frame. A dimension that it does not give is 0.
#[derive(Clone, Copy, Debug, PartialEq, Eq, Structural)]
pub struct FrameFormat {
    pub width: i32,
    pub height: i32,
    pub stride: Option<i32>,
    pub slice_height: Option<i32>,
    pub image: ImageInfo,
}

/// Which layout a frame is read by.
#[derive(Clone, Copy, Debug, PartialEq, Eq, Structural)]
pub enum Layout {
    AsWritten,
    /// The buffer already starts at the first plane.
    Rebased,
    /// Two planes of so many bytes a row and so many rows.
    SemiPlanar { stride: u32, slice_height: u32 },
}

/// A frame that can be copied out.
#[derive(Clone, Copy, Debug, PartialEq, Eq, Structural)]
pub struct Image {
    pub width: u32,
    pub height: u32,
    pub layout: Layout,
}

/// A copy to make.
#[derive(Clone, Copy, Debug, PartialEq, Eq, Structural)]
pub struct CopyJob {
    pub index: i32,
    pub capture: OutputBuffer,
    pub image: Image,
    pub canvas_width: u32,
    pub canvas_height: u32,
}

/// A number that is not below 0.
pub open spec fn at_least_zero(v: int) -> int {
    codec::max_int(v, 0)
}

/// The layout a frame is read by: as it is written where that fits the buffer, without the first
/// plane's start where only that fits, and from stride and slice height where none is written.
pub open spec fn image_of(format: FrameFormat, buf_len: int) -> Result<Image, Fault> {
    match format.image {
        ImageInfo::Data(d) => if d.offset == 0 || d.required <= buf_len {
            Ok(Image { width: d.width, height: d.height, layout: Layout::AsWritten })
        } else if d.rebased <= buf_len {
            Ok(Image { width: d.width, height: d.height, layout: Layout::Rebased })
        } else {
            Err(Fault::ImageTooLarge)
        },
        ImageInfo::Unreadable => Err(Fault::ImageData),
        ImageInfo::Absent => {
            let width = at_least_zero(format.width as int);
            let height = at_least_zero(format.height as int);
            Ok(
                Image {
                    width: width as u32,
                    height: height as u32,
                    layout: Layout::SemiPlanar {
                        stride: at_least_zero(
                            match format.stride {
                                Some(s) => s as int,
                                None => width,
                            },
                        ) as u32,
                        slice_height: at_least_zero(
                            match format.slice_height {
                                Some(s) => s as int,
                                None => height,
                            },
                        ) as u32,
                    },
                },
            )
        },
    }
}

/// The part of a frame that is seen: the crop's size, at the origin, where there is a crop.
pub open spec fn visible_of(format: OutputFormat) -> Rect {
    match format.crop {
        Some(c) => if c.right >= c.left && c.bottom >= c.top {
            Rect {
                left: 0,
                top: 0,
                width: codec::min_int(c.right - c.left + 1, format.width as int) as u32,
                height: codec::min_int(c.bottom - c.top + 1, format.height as int) as u32,
            }
        } else {
            Rect { left: 0, top: 0, width: format.width as u32, height: format.height as u32 }
        },
        None => Rect { left: 0, top: 0, width: format.width as u32, height: format.height as u32 },
    }
}

/// The first buffer of at least so many bytes, from `i` on; the length of the list where there
/// is none.
pub open spec fn first_fit(captures: Seq<OutputBuffer>, need: int, i: int) -> int
    decreases captures.len() - i,
{
    if i >= captures.len() {
        captures.len() as int
    } else if captures[i].len >= need {
        i
    } else {
        first_fit(captures, need, i + 1)
    }
}

/// The events without the returned inputs.
pub open spec fn without_inputs(events: Seq<DecoderEvent>) -> Seq<DecoderEvent>
    decreases events.len(),
{
    if events.len() == 0 {
        Seq::empty()
    } else {
        let rest = without_inputs(events.drop_last());
        if events.last() is InputBufferDone {
            rest
        } else {
            rest.push(events.last())
        }
    }
}

/// The events without the frames.
pub open spec fn without_frames(events: Seq<DecoderEvent>) -> Seq<DecoderEvent>
    decreases events.len(),
{
    if events.len() == 0 {
        Seq::empty()
    } else {
        let rest = without_frames(events.drop_last());
        if events.last() is FrameDecoded {
            rest
        } else {
            rest.push(events.last())
        }
    }
}

/// The indices of the outputs that are held.
pub open spec fn held_indices(held: Seq<Held>) -> Seq<i32>
    decreases held.len(),
{
    if held.len() == 0 {
        Seq::empty()
    } else {
        let rest = held_indices(held.drop_last());
        match held.last() {
            Held::Output { index, .. } => rest.push(index),
            Held::Format(_) => rest,
        }
    }
}

/// A sequence without its first element, where it has one.
pub open spec fn rest_of<T>(s: Seq<T>) -> Seq<T> {
    if s.len() == 0 {
        s
    } else {
        s.drop_first()
    }
}

impl SessionView {
    pub open spec fn wf(self) -> bool {
        &&& 0 <= self.refused
        &&& !self.dead ==> self.refused <= codec::MAX_REFUSED_INDICES
        &&& self.refused <= codec::MAX_REFUSED_INDICES + 1
        &&& forall|i: int|
            0 <= i < self.pending.len() ==> (#[trigger] self.pending[i] matches
                PendingInput::Bitstream { buffer, offset } ==> offset <= buffer.len)
    }

    /// The session is over: the device hears why, and nothing is lent any more.
    pub open spec fn failed(self, fault: Fault) -> Self {
        if self.dead {
            self
        } else {
            SessionView {
                dead: true,
                pending: Seq::empty(),
                captures: Seq::empty(),
                held: Seq::empty(),
                free_inputs: Seq::empty(),
                events: self.events.push(DecoderEvent::Error(fault)),
                ..self
            }
        }
    }

    /// The codec refused an index. A null buffer is an index from before a flush, and is passed
    /// over.
    pub open spec fn refused_index(self, e: CodecError) -> Self {
        if e == CodecError::Null || e == CodecError::NullCodec {
            self
        } else {
            let counted = SessionView { refused: self.refused + 1, ..self };
            if counted.refused > codec::MAX_REFUSED_INDICES {
                counted.failed(Fault::Refused(counted.refused as u32))
            } else {
                counted
            }
        }
    }

    /// What feeding the codec takes, where anything can be fed.
    pub open spec fn input_job(self) -> Option<InputJob> {
        if self.dead || self.eos_queued || !self.running || self.free_inputs.len() == 0
            || self.pending.len() == 0 {
            None
        } else {
            match self.pending[0] {
                PendingInput::Eos => Some(InputJob::Eos { index: self.free_inputs[0] }),
                PendingInput::Bitstream { buffer, offset } => Some(
                    InputJob::Feed {
                        index: self.free_inputs[0],
                        buffer,
                        start: offset,
                        pts: codec::wrap_u64(
                            buffer.timestamp.tv_sec * 1_000_000 + buffer.timestamp.tv_usec,
                        ) as u64,
                    },
                ),
            }
        }
    }

    /// After the input job: so many bytes were copied, or the codec refused.
    pub open spec fn fed(self, result: Result<usize, CodecError>) -> Self {
        let used = SessionView { free_inputs: self.free_inputs.drop_first(), ..self };
        match result {
            Err(e) => used.refused_index(e),
            Ok(copied) => match self.pending[0] {
                PendingInput::Eos => SessionView {
                    pending: self.pending.drop_first(),
                    eos_queued: true,
                    ..used
                },
                PendingInput::Bitstream { buffer, offset } => if offset + copied >= buffer.len {
                    SessionView {
                        pending: self.pending.drop_first(),
                        events: self.events.push(DecoderEvent::InputBufferDone(buffer.index)),
                        ..used
                    }
                } else {
                    SessionView {
                        pending: self.pending.update(
                            0,
                            PendingInput::Bitstream { buffer, offset: (offset + copied) as usize },
                        ),
                        ..used
                    }
                },
            },
        }
    }

    /// A size is announced, unless it was already.
    pub open spec fn announcing(self, a: Announced) -> Self {
        if self.announced == Some(a) {
            self
        } else {
            SessionView {
                announced: Some(a),
                events: self.events.push(
                    DecoderEvent::FormatChanged {
                        width: a.width,
                        height: a.height,
                        visible: a.visible,
                        min_capture_buffers: MIN_CAPTURE_BUFFERS,
                    },
                ),
                ..self
            }
        }
    }

    /// A change of format. One without a size is passed over.
    pub open spec fn reformatted(self, format: Option<OutputFormat>) -> Self {
        match format {
            Some(f) => if f.width <= 0 || f.height <= 0 {
                self
            } else {
                self.announcing(
                    Announced {
                        width: f.width as u32,
                        height: f.height as u32,
                        visible: visible_of(f),
                    },
                )
            },
            None => self,
        }
    }

    /// Every format change that no output stands before was announced.
    pub open spec fn settled(self) -> Self
        decreases self.held.len(),
    {
        if self.dead || !self.running || self.held.len() == 0 {
            self
        } else {
            match self.held[0] {
                Held::Output { .. } => self,
                Held::Format(f) => (SessionView {
                    held: self.held.drop_first(),
                    ..self
                }).reformatted(f).settled(),
            }
        }
    }

    /// What the first output takes, in a session that is settled.
    pub open spec fn output_job(self) -> OutputJob {
        if self.dead || !self.running || self.held.len() == 0 {
            OutputJob::Idle
        } else {
            match self.held[0] {
                Held::Format(_) => OutputJob::Idle,
                Held::Output { index, info } => {
                    let is_eos = info.flags & codec::BUFFER_FLAG_END_OF_STREAM != 0;
                    let is_config = info.flags & codec::BUFFER_FLAG_CODEC_CONFIG != 0;
                    if info.size <= 0 || is_config {
                        if !is_eos {
                            OutputJob::Release { index }
                        } else if self.captures.len() == 0 {
                            OutputJob::Idle
                        } else {
                            OutputJob::ReleaseLast { index, capture: self.captures[0] }
                        }
                    } else {
                        OutputJob::Inspect { index }
                    }
                },
            }
        }
    }

    /// What the codec says of the first output.
    pub open spec fn first_info(self) -> BufferInfo {
        self.held[0]->info
    }

    /// A frame is done.
    pub open spec fn finished(
        self,
        index: u32,
        bytesused: u32,
        info: BufferInfo,
        is_last: bool,
    ) -> Self {
        SessionView {
            events: self.events.push(
                DecoderEvent::FrameDecoded {
                    index,
                    bytesused,
                    timestamp: codec::timeval_of(info.pts_us as int),
                    is_last,
                },
            ),
            eos_seen: self.eos_seen || is_last,
            ..self
        }
    }

    /// After an index was given back, or refused.
    pub open spec fn after_release(self, error: Option<CodecError>) -> Self {
        match error {
            Some(e) => self.refused_index(e),
            None => self,
        }
    }

    /// After an empty output was given back.
    pub open spec fn released(self, error: Option<CodecError>) -> Self {
        let v = self.after_release(error);
        SessionView { held: rest_of(v.held), ..v }
    }

    /// After the empty last output was given back.
    pub open spec fn last_released(self, error: Option<CodecError>) -> Self {
        let v = (SessionView { captures: self.captures.drop_first(), ..self }).after_release(error);
        (SessionView { held: rest_of(v.held), ..v }).finished(
            self.captures[0].index,
            0,
            self.first_info(),
            true,
        )
    }

    /// The first output could not be looked at.
    pub open spec fn not_inspected(self, e: CodecError) -> Self {
        (SessionView { held: self.held.drop_first(), ..self }).refused_index(e)
    }

    /// A picture larger than what was announced is announced.
    pub open spec fn canvas_for(self, image: Image) -> Self {
        match self.announced {
            Some(a) => if a.width >= image.width && a.height >= image.height {
                self
            } else {
                self.announcing(whole_picture(image))
            },
            None => self.announcing(whole_picture(image)),
        }
    }

    /// The copy that the first output takes once it was looked at: the frame is laid out for the
    /// announced size, in the first lent buffer that holds one. `None` where there is no such
    /// buffer, or the session failed.
    pub open spec fn inspected(self, format: FrameFormat, buf_len: int) -> (Self, Option<CopyJob>) {
        match image_of(format, buf_len) {
            Err(fault) => (self.failed(fault), None),
            Ok(image) => {
                let v = self.canvas_for(image);
                let a = v.announced->0;
                let at = first_fit(
                    v.captures,
                    codec::nv12_bytes(a.width as int, a.height as int),
                    0,
                );
                if at >= v.captures.len() {
                    (v, None)
                } else {
                    (
                        SessionView { captures: v.captures.remove(at), ..v },
                        Some(
                            CopyJob {
                                index: self.held[0]->index,
                                capture: v.captures[at],
                                image,
                                canvas_width: a.width,
                                canvas_height: a.height,
                            },
                        ),
                    )
                }
            },
        }
    }

    /// After a frame was copied out and its index given back, or the copy failed.
    pub open spec fn copied(self, job: CopyJob, copied: bool, error: Option<CodecError>) -> Self {
        if !copied {
            self.failed(Fault::Repack)
        } else {
            let v = self.after_release(error);
            let info = self.first_info();
            (SessionView { held: rest_of(v.held), ..v }).finished(
                job.capture.index,
                codec::nv12_bytes(job.canvas_width as int, job.canvas_height as int) as u32,
                info,
                info.flags & codec::BUFFER_FLAG_END_OF_STREAM != 0,
            )
        }
    }

    /// The codec is being flushed: everything it delivered is void.
    pub open spec fn flushing(self) -> Self {
        if !self.running {
            self
        } else {
            SessionView {
                running: false,
                held: Seq::empty(),
                free_inputs: Seq::empty(),
                eos_queued: false,
                eos_seen: false,
                refused: 0,
                ..self
            }
        }
    }

    /// The format changes among what is held, announced in order.
    pub open spec fn reformatted_all(self, held: Seq<Held>) -> Self
        decreases held.len(),
    {
        if held.len() == 0 {
            self
        } else {
            let v = self.reformatted_all(held.drop_last());
            match held.last() {
                Held::Format(f) => v.reformatted(f),
                Held::Output { .. } => v,
            }
        }
    }

    /// Every lent buffer goes back unfilled: no frame is reported any more, and every output
    /// that is held is given up.
    pub open spec fn captures_cleared(self) -> Self {
        (SessionView {
            captures: Seq::empty(),
            events: without_frames(self.events),
            held: Seq::empty(),
            ..self
        }).reformatted_all(self.held)
    }

    /// Whether the session may be used.
    pub open spec fn alive(self) -> Result<(), i32> {
        if self.dead {
            Err(errno::ENODEV)
        } else {
            Ok(())
        }
    }

    /// The session has a codec, which runs.
    pub open spec fn started(self, codec: int) -> Self {
        SessionView { running: true, chosen: Some(codec), ..self }
    }

    /// Whether a bitstream buffer may be queued, and whether the codec is to be flushed first.
    pub open spec fn decode_step(self) -> Result<bool, i32> {
        if self.dead {
            Err(errno::ENODEV)
        } else if !self.running {
            Err(errno::EINVAL)
        } else {
            Ok(self.eos_seen && self.eos_queued)
        }
    }

    /// A bitstream buffer waits.
    pub open spec fn queued(self, buffer: InputBuffer) -> Self {
        SessionView {
            pending: self.pending.push(PendingInput::Bitstream { buffer, offset: 0 }),
            ..self
        }
    }

    /// The codec reported something. A change of format waits behind what came before it.
    pub open spec fn took(self, event: CodecEvent) -> Self {
        match event {
            CodecEvent::InputAvailable(index) => SessionView {
                free_inputs: self.free_inputs.push(index),
                ..self
            },
            CodecEvent::OutputAvailable { index, info } => SessionView {
                held: self.held.push(Held::Output { index, info }),
                ..self
            },
            CodecEvent::FormatChanged(format) => if self.held.len() == 0 {
                self.reformatted(format)
            } else {
                SessionView { held: self.held.push(Held::Format(format)), ..self }
            },
            CodecEvent::Error(status) => self.failed(Fault::Codec(status)),
        }
    }

    /// A frame buffer was lent.
    pub open spec fn lent(self, buffer: OutputBuffer) -> Self {
        if self.dead {
            self
        } else {
            SessionView { captures: self.captures.push(buffer), ..self }
        }
    }

    /// A seek began.
    pub open spec fn seeking(self) -> Self {
        (SessionView {
            pending: Seq::empty(),
            events: without_inputs(self.events),
            ..self
        }).flushing()
    }

    /// The codec was flushed, or was not.
    pub open spec fn flushed(self, outcome: Outcome) -> Self {
        match outcome {
            Outcome::Done => SessionView { running: true, ..self },
            Outcome::Failed(_) => self.failed(Fault::FlushFailed),
            Outcome::TimedOut => self.failed(Fault::FlushTimedOut),
        }
    }

    /// The end of the stream waits, unless it did or is in the codec.
    pub open spec fn drained(self) -> Self {
        if self.dead || self.eos_queued || self.has_eos() {
            self
        } else {
            SessionView { pending: self.pending.push(PendingInput::Eos), ..self }
        }
    }

    /// Whether a new stream waits for the codec to be flushed.
    pub open spec fn restarts(self) -> bool {
        !self.dead && self.eos_seen && self.eos_queued && self.has_bitstream()
    }

    /// The session has no codec any more.
    pub open spec fn stopped(self) -> Self {
        SessionView {
            pending: Seq::empty(),
            captures: Seq::empty(),
            held: Seq::empty(),
            free_inputs: Seq::empty(),
            events: Seq::empty(),
            running: false,
            ..self
        }
    }

    /// Whether anything but the end of the stream waits.
    pub open spec fn has_bitstream(self) -> bool {
        exists|i: int| 0 <= i < self.pending.len() && (#[trigger] self.pending[i]) is Bitstream
    }

    /// Whether the end of the stream waits.
    pub open spec fn has_eos(self) -> bool {
        exists|i: int| 0 <= i < self.pending.len() && (#[trigger] self.pending[i]) is Eos
    }
}

/// A picture announced as a size of its own.
pub open spec fn whole_picture(image: Image) -> Announced {
    Announced {
        width: image.width,
        height: image.height,
        visible: Rect { left: 0, top: 0, width: image.width, height: image.height },
    }
}

/// One decode.
pub struct MediaCodecDecoderSession {
    codecs: Vec<ChosenCodec>,
    running: bool,
    chosen: Option<usize>,
    announced: Option<Announced>,
    free_inputs: Vec<i32>,
    pending: Vec<PendingInput>,
    captures: Vec<OutputBuffer>,
    held: Vec<Held>,
    events: Vec<DecoderEvent>,
    eos_queued: bool,
    eos_seen: bool,
    dead: bool,
    refused: u32,
}

impl View for MediaCodecDecoderSession {
    type V = SessionView;

    closed spec fn view(&self) -> SessionView {
        SessionView {
            running: self.running,
            chosen: match self.chosen {
                Some(i) => Some(i as int),
                None => None,
            },
            announced: self.announced,
            free_inputs: self.free_inputs@,
            pending: self.pending@,
            captures: self.captures@,
            held: self.held@,
            events: self.events@,
            eos_queued: self.eos_queued,
            eos_seen: self.eos_seen,
            dead: self.dead,
            refused: self.refused as int,
        }
    }
}

/// What a codec is created with.
#[derive(Clone, Copy, Debug, PartialEq, Eq, Structural)]
pub struct DecoderSetup {
    /// Which of the codecs.
    pub codec: usize,
    pub width: i32,
    pub height: i32,
    pub max_input_size: i32,
    pub low_latency: bool,
}

/// What starting a session takes.
#[derive(Clone, Copy, Debug, PartialEq, Eq, Structural)]
pub enum StartStep {
    /// Nothing: it runs.
    Running,
    Create(DecoderSetup),
}

/// What came of a call that may take too long.
#[derive(Clone, Copy, Debug, PartialEq, Eq, Structural)]
pub enum Outcome {
    Done,
    Failed(CodecError),
    TimedOut,
}

/// Something the codec reported.
#[derive(Clone, Copy, Debug, PartialEq, Eq, Structural)]
pub enum CodecEvent {
    InputAvailable(i32),
    OutputAvailable { index: i32, info: BufferInfo },
    FormatChanged(Option<OutputFormat>),
    Error(i32),
}

/// The first codec for a format, from `i` on; the length of the list where there is none.
pub open spec fn codec_for(codecs: Seq<ChosenCodec>, fourcc: u32, i: int) -> int
    decreases codecs.len() - i,
{
    if i >= codecs.len() {
        codecs.len() as int
    } else if codecs[i].fourcc == fourcc {
        i
    } else {
        codec_for(codecs, fourcc, i + 1)
    }
}

/// A size as the codec takes it.
pub open spec fn as_i32(v: int) -> i32 {
    codec::min_int(v, i32::MAX as int) as i32
}

/// What starting a session takes.
pub open spec fn start_of(
    codecs: Seq<ChosenCodec>,
    v: SessionView,
    coded_format: u32,
    coded_size: (u32, u32),
) -> Result<StartStep, i32> {
    let at = codec_for(codecs, coded_format, 0);
    if v.running {
        Ok(StartStep::Running)
    } else if v.dead {
        Err(errno::ENODEV)
    } else if at >= codecs.len() {
        Err(errno::EINVAL)
    } else {
        Ok(
            StartStep::Create(
                DecoderSetup {
                    codec: at as usize,
                    width: as_i32(coded_size.0 as int),
                    height: as_i32(coded_size.1 as int),
                    max_input_size: as_i32(
                        codec::input_size_of(coded_size.0 as int, coded_size.1 as int),
                    ),
                    low_latency: codecs[at].low_latency,
                },
            ),
        )
    }
}

/// What a call that may take too long came to, as the guest is told.
pub open spec fn came_to(outcome: Outcome) -> Result<(), i32> {
    match outcome {
        Outcome::Done => Ok(()),
        Outcome::Failed(e) => Err(codec::errno_of(e)),
        Outcome::TimedOut => Err(errno::ETIMEDOUT),
    }
}

impl MediaCodecDecoderSession {
    /// The codecs to choose from.
    pub closed spec fn codecs(&self) -> Seq<ChosenCodec> {
        self.codecs@
    }

    /// A session with no codec.
    pub fn new(codecs: Vec<ChosenCodec>) -> (s: Self)
        ensures
            s@.wf(),
            s.codecs() == codecs@,
            s@ == (SessionView {
                running: false,
                chosen: None,
                announced: None,
                free_inputs: Seq::empty(),
                pending: Seq::empty(),
                captures: Seq::empty(),
                held: Seq::empty(),
                events: Seq::empty(),
                eos_queued: false,
                eos_seen: false,
                dead: false,
                refused: 0,
            }),
    {
        MediaCodecDecoderSession {
            codecs,
            running: false,
            chosen: None,
            announced: None,
            free_inputs: Vec::new(),
            pending: Vec::new(),
            captures: Vec::new(),
            held: Vec::new(),
            events: Vec::new(),
            eos_queued: false,
            eos_seen: false,
            dead: false,
            refused: 0,
        }
    }

    /// Ends the session.
    fn fail(&mut self, fault: Fault)
        requires
            old(self)@.wf(),
        ensures
            final(self)@.wf(),
            final(self).codecs() == old(self).codecs(),
            final(self)@ == old(self)@.failed(fault),
    {
        if !self.dead {
            self.close(fault);
        }
    }

    /// Tells the device that the session is over, and gives up all that is lent.
    fn close(&mut self, fault: Fault)
        requires
            !old(self)@.dead,
            old(self)@.refused <= codec::MAX_REFUSED_INDICES + 1,
        ensures
            final(self)@.wf(),
            final(self).codecs() == old(self).codecs(),
            final(self)@ == old(self)@.failed(fault),
    {
        self.dead = true;
        self.pending.clear();
        self.captures.clear();
        self.held.clear();
        self.free_inputs.clear();
        self.events.push(DecoderEvent::Error(fault));
    }

    /// Takes that the codec refused an index.
    fn refuse(&mut self, e: CodecError)
        requires
            old(self)@.wf(),
            !old(self)@.dead,
        ensures
            final(self)@.wf(),
            final(self).codecs() == old(self).codecs(),
            final(self)@ == old(self)@.refused_index(e),
    {
        if e == CodecError::Null || e == CodecError::NullCodec {
            return;
        }
        self.refused = self.refused + 1;
        if self.refused > codec::MAX_REFUSED_INDICES {
            self.close(Fault::Refused(self.refused));
        }
    }

    /// What starting the session takes.
    pub fn start(&self, coded_format: u32, coded_size: (u32, u32)) -> (r: Result<StartStep, i32>)
        ensures
            r == start_of(self.codecs(), self@, coded_format, coded_size),
    {
        if self.running {
            return Ok(StartStep::Running);
        }
        if self.dead {
            return Err(errno::ENODEV);
        }
        let mut i: usize = 0;
        while i < self.codecs.len() && self.codecs[i].fourcc != coded_format
            invariant
                i <= self.codecs@.len(),
                codec_for(self.codecs@, coded_format, 0) == codec_for(
                    self.codecs@,
                    coded_format,
                    i as int,
                ),
            decreases self.codecs@.len() - i,
        {
            i = i + 1;
        }
        if i >= self.codecs.len() {
            return Err(errno::EINVAL);
        }
        let top: u32 = 0x7fff_ffff;
        let size: u64 = codec::max_input_size(coded_size);
        Ok(
            StartStep::Create(
                DecoderSetup {
                    codec: i,
                    width: if coded_size.0 < top {
                        coded_size.0 as i32
                    } else {
                        i32::MAX
                    },
                    height: if coded_size.1 < top {
                        coded_size.1 as i32
                    } else {
                        i32::MAX
                    },
                    max_input_size: if size < top as u64 {
                        size as i32
                    } else {
                        i32::MAX
                    },
                    low_latency: self.codecs[i].low_latency,
                },
            ),
        )
    }

    /// Takes what came of creating the codec.
    pub fn on_started(&mut self, codec: usize, outcome: Outcome) -> (r: Result<(), i32>)
        requires
            old(self)@.wf(),
        ensures
            final(self)@.wf(),
            final(self).codecs() == old(self).codecs(),
            r == came_to(outcome),
            final(self)@ == if outcome is Done {
                old(self)@.started(codec as int)
            } else {
                old(self)@
            },
    {
        match outcome {
            Outcome::Done => {
                self.running = true;
                self.chosen = Some(codec);
                Ok(())
            },
            Outcome::Failed(e) => Err(codec::errno_for(e)),
            Outcome::TimedOut => Err(errno::ETIMEDOUT),
        }
    }

    /// Whether a bitstream buffer may be queued, and whether the codec is to be flushed first: a
    /// new stream after one that ended.
    pub fn decode(&self) -> (r: Result<bool, i32>)
        ensures
            r == self@.decode_step(),
    {
        if self.dead {
            return Err(errno::ENODEV);
        }
        if !self.running {
            return Err(errno::EINVAL);
        }
        Ok(self.eos_seen && self.eos_queued)
    }

    /// Queues a bitstream buffer.
    pub fn queue(&mut self, buffer: InputBuffer)
        requires
            old(self)@.wf(),
        ensures
            final(self)@.wf(),
            final(self).codecs() == old(self).codecs(),
            final(self)@ == old(self)@.queued(buffer),
    {
        self.pending.push(PendingInput::Bitstream { buffer, offset: 0 });
    }

    /// What feeding the codec takes; `None` where nothing can be fed.
    pub fn next_input(&self) -> (job: Option<InputJob>)
        ensures
            job == self@.input_job(),
    {
        if self.dead || self.eos_queued || !self.running || self.free_inputs.len() == 0
            || self.pending.len() == 0 {
            return None;
        }
        match self.pending[0] {
            PendingInput::Eos => Some(InputJob::Eos { index: self.free_inputs[0] }),
            PendingInput::Bitstream { buffer, offset } => Some(
                InputJob::Feed {
                    index: self.free_inputs[0],
                    buffer,
                    start: offset,
                    pts: codec::pts_from(buffer.timestamp),
                },
            ),
        }
    }

    /// Takes what came of feeding the codec: how many bytes of the buffer are in it.
    pub fn on_input(&mut self, result: Result<usize, CodecError>)
        requires
            old(self)@.wf(),
            old(self)@.input_job() is Some,
            result matches Ok(copied) ==> (old(self)@.pending[0] matches PendingInput::Bitstream {
                buffer,
                offset,
            } ==> copied <= buffer.len - offset),
        ensures
            final(self)@.wf(),
            final(self).codecs() == old(self).codecs(),
            final(self)@ == old(self)@.fed(result),
    {
        let _ = self.free_inputs.remove(0);
        assert(self.free_inputs@ =~= old(self)@.free_inputs.drop_first());
        match result {
            Err(e) => {
                self.refuse(e);
            },
            Ok(copied) => {
                match self.pending[0] {
                    PendingInput::Eos => {
                        let _ = self.pending.remove(0);
                        assert(self.pending@ =~= old(self)@.pending.drop_first());
                        self.eos_queued = true;
                    },
                    PendingInput::Bitstream { buffer, offset } => {
                        if offset + copied >= buffer.len {
                            let _ = self.pending.remove(0);
                            assert(self.pending@ =~= old(self)@.pending.drop_first());
                            self.events.push(DecoderEvent::InputBufferDone(buffer.index));
                        } else {
                            self.pending.set(
                                0,
                                PendingInput::Bitstream { buffer, offset: offset + copied },
                            );
                        }
                    },
                }
            },
        }
    }

    /// Announces a size, unless it was already.
    fn announce(&mut self, a: Announced)
        requires
            old(self)@.wf(),
        ensures
            final(self)@.wf(),
            final(self).codecs() == old(self).codecs(),
            final(self)@ == old(self)@.announcing(a),
    {
        if self.announced == Some(a) {
            return;
        }
        self.announced = Some(a);
        self.events.push(
            DecoderEvent::FormatChanged {
                width: a.width,
                height: a.height,
                visible: a.visible,
                min_capture_buffers: MIN_CAPTURE_BUFFERS,
            },
        );
    }

    /// Takes a change of format.
    fn handle_format(&mut self, format: Option<OutputFormat>)
        requires
            old(self)@.wf(),
        ensures
            final(self)@.wf(),
            final(self).codecs() == old(self).codecs(),
            final(self)@ == old(self)@.reformatted(format),
    {
        let f = match format {
            Some(f) => f,
            None => {
                return;
            },
        };
        if f.width <= 0 || f.height <= 0 {
            return;
        }
        let mut width: i64 = f.width as i64;
        let mut height: i64 = f.height as i64;
        match f.crop {
            Some(c) => {
                if c.right >= c.left && c.bottom >= c.top {
                    let w: i64 = c.right as i64 - c.left as i64 + 1;
                    let h: i64 = c.bottom as i64 - c.top as i64 + 1;
                    if w < width {
                        width = w;
                    }
                    if h < height {
                        height = h;
                    }
                }
            },
            None => {},
        }
        let visible = Rect { left: 0, top: 0, width: width as u32, height: height as u32 };
        assert(visible == visible_of(f));
        self.announce(Announced { width: f.width as u32, height: f.height as u32, visible });
    }
}

impl MediaCodecDecoderSession {
    /// What the first output takes. Format changes that stand before it are announced on the
    /// way.
    pub fn next_output(&mut self) -> (job: OutputJob)
        requires
            old(self)@.wf(),
        ensures
            final(self)@.wf(),
            final(self).codecs() == old(self).codecs(),
            final(self)@ == old(self)@.settled(),
            job == old(self)@.settled().output_job(),
    {
        while !self.dead && self.running && self.held.len() > 0
            invariant
                self@.wf(),
                self.codecs() == old(self).codecs(),
                self@.settled() == old(self)@.settled(),
            decreases self.held@.len(),
        {
            let ghost v = self@;
            match self.held[0] {
                Held::Output { index, info } => {
                    let is_eos = info.flags & codec::BUFFER_FLAG_END_OF_STREAM != 0;
                    let is_config = info.flags & codec::BUFFER_FLAG_CODEC_CONFIG != 0;
                    if info.size <= 0 || is_config {
                        if !is_eos {
                            return OutputJob::Release { index };
                        }
                        if self.captures.len() == 0 {
                            return OutputJob::Idle;
                        }
                        return OutputJob::ReleaseLast { index, capture: self.captures[0] };
                    }
                    return OutputJob::Inspect { index };
                },
                Held::Format(format) => {
                    let _ = self.held.remove(0);
                    assert(self.held@ =~= v.held.drop_first());
                    let ghost w = self@;
                    self.handle_format(format);
                    assert(self.held@ == w.held);
                },
            }
        }
        OutputJob::Idle
    }

    /// Drops the first output, where there is one.
    fn drop_held(&mut self)
        requires
            old(self)@.wf(),
        ensures
            final(self)@.wf(),
            final(self).codecs() == old(self).codecs(),
            final(self)@ == (SessionView { held: rest_of(old(self)@.held), ..old(self)@ }),
    {
        if self.held.len() > 0 {
            let _ = self.held.remove(0);
            assert(self.held@ =~= old(self)@.held.drop_first());
        }
    }

    /// Reports a frame.
    fn finish_frame(&mut self, index: u32, bytesused: u32, info: BufferInfo, is_last: bool)
        requires
            old(self)@.wf(),
        ensures
            final(self)@.wf(),
            final(self).codecs() == old(self).codecs(),
            final(self)@ == old(self)@.finished(index, bytesused, info, is_last),
    {
        self.events.push(
            DecoderEvent::FrameDecoded {
                index,
                bytesused,
                timestamp: codec::timeval_from(info.pts_us),
                is_last,
            },
        );
        if is_last {
            self.eos_seen = true;
        }
    }

    /// Takes that an empty output was given back, or refused.
    pub fn on_released(&mut self, error: Option<CodecError>)
        requires
            old(self)@.wf(),
            old(self)@.output_job() is Release,
        ensures
            final(self)@.wf(),
            final(self).codecs() == old(self).codecs(),
            final(self)@ == old(self)@.released(error),
    {
        match error {
            Some(e) => {
                self.refuse(e);
            },
            None => {},
        }
        self.drop_held();
    }

    /// Takes that the empty last output was given back, or refused. The guest gets an empty last
    /// buffer.
    pub fn on_last_released(&mut self, error: Option<CodecError>)
        requires
            old(self)@.wf(),
            old(self)@.output_job() is ReleaseLast,
        ensures
            final(self)@.wf(),
            final(self).codecs() == old(self).codecs(),
            final(self)@ == old(self)@.last_released(error),
    {
        let info = self.first_output();
        let capture = self.captures.remove(0);
        assert(self.captures@ =~= old(self)@.captures.drop_first());
        match error {
            Some(e) => {
                self.refuse(e);
            },
            None => {},
        }
        self.drop_held();
        self.finish_frame(capture.index, 0, info, true);
    }

    /// What the codec says of the first output.
    fn first_output(&self) -> (info: BufferInfo)
        requires
            self@.held.len() > 0,
            self@.held[0] is Output,
        ensures
            info == self@.first_info(),
    {
        match self.held[0] {
            Held::Output { index, info } => info,
            Held::Format(_) => BufferInfo { size: 0, flags: 0, pts_us: 0 },
        }
    }

    /// Takes that the first output could not be looked at.
    pub fn on_not_inspected(&mut self, e: CodecError)
        requires
            old(self)@.wf(),
            old(self)@.output_job() is Inspect,
        ensures
            final(self)@.wf(),
            final(self).codecs() == old(self).codecs(),
            final(self)@ == old(self)@.not_inspected(e),
    {
        let _ = self.held.remove(0);
        assert(self.held@ =~= old(self)@.held.drop_first());
        self.refuse(e);
    }

    /// Takes what the codec says of the first output, and how many bytes are in it. Returns the
    /// copy to make, where there is a buffer to copy to.
    pub fn on_inspected(&mut self, format: FrameFormat, buf_len: usize) -> (job: Option<CopyJob>)
        requires
            old(self)@.wf(),
            old(self)@.output_job() is Inspect,
        ensures
            final(self)@.wf(),
            final(self).codecs() == old(self).codecs(),
            final(self)@ == old(self)@.inspected(format, buf_len as int).0,
            job == old(self)@.inspected(format, buf_len as int).1,
    {
        let index: i32 = match self.held[0] {
            Held::Output { index, info } => index,
            Held::Format(_) => 0,
        };
        let image = match image_for(format, buf_len) {
            Ok(image) => image,
            Err(fault) => {
                self.fail(fault);
                return None;
            },
        };
        let fits = match self.announced {
            Some(a) => a.width >= image.width && a.height >= image.height,
            None => false,
        };
        if !fits {
            self.announce(
                Announced {
                    width: image.width,
                    height: image.height,
                    visible: Rect { left: 0, top: 0, width: image.width, height: image.height },
                },
            );
        }
        let (canvas_width, canvas_height): (u32, u32) = match self.announced {
            Some(a) => (a.width, a.height),
            None => (0, 0),
        };
        let ghost v = old(self)@.canvas_for(image);
        assert(self@ == v);
        let need: u128 = codec::nv12_size(canvas_width, canvas_height);
        let mut at: usize = 0;
        while at < self.captures.len() && (self.captures[at].len as u128) < need
            invariant
                at <= self.captures@.len(),
                first_fit(self.captures@, need as int, 0) == first_fit(
                    self.captures@,
                    need as int,
                    at as int,
                ),
            decreases self.captures@.len() - at,
        {
            at = at + 1;
        }
        if at >= self.captures.len() {
            return None;
        }
        let capture = self.captures.remove(at);
        assert(self.captures@ =~= v.captures.remove(at as int));
        Some(CopyJob { index, capture, image, canvas_width, canvas_height })
    }

    /// Takes whether a frame was copied out, and that its index was given back, or refused.
    pub fn on_copied(&mut self, job: CopyJob, copied: bool, error: Option<CodecError>)
        requires
            old(self)@.wf(),
            !old(self)@.dead,
            old(self)@.held.len() > 0,
            old(self)@.held[0] is Output,
        ensures
            final(self)@.wf(),
            final(self).codecs() == old(self).codecs(),
            final(self)@ == old(self)@.copied(job, copied, error),
    {
        if !copied {
            self.fail(Fault::Repack);
            return;
        }
        let info = self.first_output();
        match error {
            Some(e) => {
                self.refuse(e);
            },
            None => {},
        }
        self.drop_held();
        let need: u128 = codec::nv12_size(job.canvas_width, job.canvas_height);
        let used: u32 = #[verifier::truncate]
        (need as u32);
        self.finish_frame(
            job.capture.index,
            used,
            info,
            info.flags & codec::BUFFER_FLAG_END_OF_STREAM != 0,
        );
    }

    /// Takes something that the codec reported.
    pub fn on_event(&mut self, event: CodecEvent)
        requires
            old(self)@.wf(),
        ensures
            final(self)@.wf(),
            final(self).codecs() == old(self).codecs(),
            final(self)@ == old(self)@.took(event),
    {
        match event {
            CodecEvent::InputAvailable(index) => {
                self.free_inputs.push(index);
            },
            CodecEvent::OutputAvailable { index, info } => {
                self.held.push(Held::Output { index, info });
            },
            CodecEvent::FormatChanged(format) => {
                if self.held.len() == 0 {
                    self.handle_format(format);
                } else {
                    self.held.push(Held::Format(format));
                }
            },
            CodecEvent::Error(status) => {
                self.fail(Fault::Codec(status));
            },
        }
    }

    /// Lends a frame buffer.
    pub fn use_as_capture(&mut self, buffer: OutputBuffer) -> (r: Result<(), i32>)
        requires
            old(self)@.wf(),
        ensures
            final(self)@.wf(),
            final(self).codecs() == old(self).codecs(),
            r == old(self)@.alive(),
            final(self)@ == old(self)@.lent(buffer),
    {
        if self.dead {
            return Err(errno::ENODEV);
        }
        self.captures.push(buffer);
        Ok(())
    }

    /// Takes every lent frame buffer back. Returns the indices to give back to the codec: the
    /// frames that were held are the guest's discarded ones.
    pub fn clear_capture_buffers(&mut self) -> (release: Vec<i32>)
        requires
            old(self)@.wf(),
        ensures
            final(self)@.wf(),
            final(self).codecs() == old(self).codecs(),
            final(self)@ == old(self)@.captures_cleared(),
            release@ == held_indices(old(self)@.held),
    {
        self.captures.clear();
        let mut kept: Vec<DecoderEvent> = Vec::new();
        let mut i: usize = 0;
        assert(self.events@.take(0) =~= Seq::empty());
        while i < self.events.len()
            invariant
                i <= self.events@.len(),
                self.events@ == old(self)@.events,
                kept@ == without_frames(self.events@.take(i as int)),
            decreases self.events@.len() - i,
        {
            assert(self.events@.take(i + 1).drop_last() =~= self.events@.take(i as int));
            match self.events[i] {
                DecoderEvent::FrameDecoded { .. } => {},
                e => {
                    kept.push(e);
                },
            }
            i = i + 1;
        }
        assert(self.events@.take(i as int) =~= self.events@);
        self.events = kept;
        let mut held: Vec<Held> = Vec::new();
        std::mem::swap(&mut held, &mut self.held);
        let mut release: Vec<i32> = Vec::new();
        let ghost base = self@;
        let mut k: usize = 0;
        assert(held@.take(0) =~= Seq::empty());
        while k < held.len()
            invariant
                k <= held@.len(),
                self@.wf(),
                self.codecs() == old(self).codecs(),
                self@ == base.reformatted_all(held@.take(k as int)),
                release@ == held_indices(held@.take(k as int)),
            decreases held@.len() - k,
        {
            assert(held@.take(k + 1).drop_last() =~= held@.take(k as int));
            match held[k] {
                Held::Output { index, info } => {
                    release.push(index);
                },
                Held::Format(format) => {
                    self.handle_format(format);
                },
            }
            k = k + 1;
        }
        assert(held@.take(k as int) =~= held@);
        release
    }

    /// Begins a seek: what waits is dropped, and so is every return of an input that the device
    /// has not seen. Returns whether there is a codec to flush.
    pub fn flush(&mut self) -> (flush: bool)
        requires
            old(self)@.wf(),
        ensures
            final(self)@.wf(),
            final(self).codecs() == old(self).codecs(),
            flush == old(self)@.running,
            final(self)@ == old(self)@.seeking(),
    {
        self.pending.clear();
        let mut kept: Vec<DecoderEvent> = Vec::new();
        let mut i: usize = 0;
        assert(self.events@.take(0) =~= Seq::empty());
        while i < self.events.len()
            invariant
                i <= self.events@.len(),
                self.events@ == old(self)@.events,
                kept@ == without_inputs(self.events@.take(i as int)),
            decreases self.events@.len() - i,
        {
            assert(self.events@.take(i + 1).drop_last() =~= self.events@.take(i as int));
            match self.events[i] {
                DecoderEvent::InputBufferDone(_) => {},
                e => {
                    kept.push(e);
                },
            }
            i = i + 1;
        }
        assert(self.events@.take(i as int) =~= self.events@);
        self.events = kept;
        self.flush_codec()
    }

    /// Begins to flush the codec, where there is one.
    pub fn flush_codec(&mut self) -> (flush: bool)
        requires
            old(self)@.wf(),
        ensures
            final(self)@.wf(),
            final(self).codecs() == old(self).codecs(),
            flush == old(self)@.running,
            final(self)@ == old(self)@.flushing(),
    {
        if !self.running {
            return false;
        }
        self.running = false;
        self.held.clear();
        self.free_inputs.clear();
        self.eos_queued = false;
        self.eos_seen = false;
        self.refused = 0;
        true
    }

    /// Takes what came of the flush. A codec that did not flush is gone, and so is the session.
    pub fn on_flushed(&mut self, outcome: Outcome) -> (r: Result<(), i32>)
        requires
            old(self)@.wf(),
        ensures
            final(self)@.wf(),
            final(self).codecs() == old(self).codecs(),
            r == came_to(outcome),
            final(self)@ == old(self)@.flushed(outcome),
    {
        match outcome {
            Outcome::Done => {
                self.running = true;
                Ok(())
            },
            Outcome::Failed(e) => {
                self.fail(Fault::FlushFailed);
                Err(codec::errno_for(e))
            },
            Outcome::TimedOut => {
                self.fail(Fault::FlushTimedOut);
                Err(errno::ETIMEDOUT)
            },
        }
    }

    /// Queues the end of the stream, once.
    pub fn drain(&mut self) -> (r: Result<(), i32>)
        requires
            old(self)@.wf(),
        ensures
            final(self)@.wf(),
            final(self).codecs() == old(self).codecs(),
            r == old(self)@.alive(),
            final(self)@ == old(self)@.drained(),
    {
        if self.dead {
            return Err(errno::ENODEV);
        }
        if self.eos_queued {
            return Ok(());
        }
        let mut i: usize = 0;
        while i < self.pending.len()
            invariant
                i <= self.pending@.len(),
                *self == *old(self),
                self@.wf(),
                !self.dead,
                forall|j: int| 0 <= j < i ==> (#[trigger] self.pending@[j]) is Bitstream,
            decreases self.pending@.len() - i,
        {
            match self.pending[i] {
                PendingInput::Eos => {
                    assert(self.pending@[i as int] is Eos);
                    return Ok(());
                },
                PendingInput::Bitstream { .. } => {},
            }
            i = i + 1;
        }
        assert(!self@.has_eos());
        self.pending.push(PendingInput::Eos);
        Ok(())
    }

    /// Whether a new stream waits for the codec to be flushed: the old one is out to its end.
    pub fn wants_restart(&self) -> (b: bool)
        ensures
            b == self@.restarts(),
    {
        if self.dead || !self.eos_seen || !self.eos_queued {
            return false;
        }
        let mut i: usize = 0;
        while i < self.pending.len()
            invariant
                i <= self.pending@.len(),
                !self.dead && self.eos_seen && self.eos_queued,
                forall|j: int| 0 <= j < i ==> (#[trigger] self.pending@[j]) is Eos,
            decreases self.pending@.len() - i,
        {
            match self.pending[i] {
                PendingInput::Bitstream { .. } => {
                    assert(self.pending@[i as int] is Bitstream);
                    return true;
                },
                PendingInput::Eos => {},
            }
            i = i + 1;
        }
        false
    }

    /// Ends the session's use of its codec. Returns whether there is one to stop.
    pub fn stop(&mut self) -> (stop: bool)
        requires
            old(self)@.wf(),
        ensures
            final(self)@.wf(),
            final(self).codecs() == old(self).codecs(),
            stop == old(self)@.running,
            final(self)@ == old(self)@.stopped(),
    {
        self.pending.clear();
        self.captures.clear();
        self.held.clear();
        self.free_inputs.clear();
        self.events.clear();
        let running = self.running;
        self.running = false;
        running
    }

    /// How many events wait for the device. A step that makes them more wakes it.
    pub fn event_count(&self) -> (n: usize)
        ensures
            n == self@.events.len(),
    {
        self.events.len()
    }

    /// Whether the session is over.
    pub fn is_dead(&self) -> (b: bool)
        ensures
            b == self@.dead,
    {
        self.dead
    }

    /// Hands out what the device is to hear.
    pub fn take_events(&mut self) -> (events: Vec<DecoderEvent>)
        requires
            old(self)@.wf(),
        ensures
            final(self)@.wf(),
            final(self).codecs() == old(self).codecs(),
            events@ == old(self)@.events,
            final(self)@ == (SessionView { events: Seq::empty(), ..old(self)@ }),
    {
        let mut events: Vec<DecoderEvent> = Vec::new();
        std::mem::swap(&mut events, &mut self.events);
        events
    }
}

/// The layout a frame is read by.
pub fn image_for(format: FrameFormat, buf_len: usize) -> (r: Result<Image, Fault>)
    ensures
        r == image_of(format, buf_len as int),
{
    match format.image {
        ImageInfo::Data(d) => {
            if d.offset == 0 || d.required <= buf_len {
                Ok(Image { width: d.width, height: d.height, layout: Layout::AsWritten })
            } else if d.rebased <= buf_len {
                Ok(Image { width: d.width, height: d.height, layout: Layout::Rebased })
            } else {
                Err(Fault::ImageTooLarge)
            }
        },
        ImageInfo::Unreadable => Err(Fault::ImageData),
        ImageInfo::Absent => {
            let width: u32 = not_negative(format.width);
            let height: u32 = not_negative(format.height);
            let stride: u32 = match format.stride {
                Some(s) => not_negative(s),
                None => width,
            };
            let slice_height: u32 = match format.slice_height {
                Some(s) => not_negative(s),
                None => height,
            };
            Ok(Image { width, height, layout: Layout::SemiPlanar { stride, slice_height } })
        },
    }
}

/// A number that is not below 0.
fn not_negative(v: i32) -> (r: u32)
    ensures
        r == at_least_zero(v as int),
{
    if v < 0 {
        0
    } else {
        v as u32
    }
}

// What the copies take.

/// One access unit of a bitstream buffer.
#[derive(Clone, Copy, Debug, PartialEq, Eq, Structural)]
pub struct AccessUnit {
    pub has_picture: bool,
    pub has_parameter_sets: bool,
}

/// Whether a buffer holds parameter sets and no picture.
pub open spec fn only_parameter_sets(units: Seq<AccessUnit>) -> bool {
    &&& forall|i: int| 0 <= i < units.len() ==> !(#[trigger] units[i]).has_picture
    &&& exists|i: int| 0 <= i < units.len() && (#[trigger] units[i]).has_parameter_sets
}

/// How many bytes of what is left go into a place of the codec's, and the flags they go with.
pub open spec fn feed_of(start: int, remaining: int, capacity: int, units: Seq<AccessUnit>) -> (
    int,
    u32,
) {
    let n = codec::min_int(remaining, capacity);
    (
        n,
        if n < remaining {
            codec::BUFFER_FLAG_PARTIAL_FRAME
        } else if start == 0 && only_parameter_sets(units) {
            codec::BUFFER_FLAG_CODEC_CONFIG
        } else {
            0
        },
    )
}

/// How many bytes of what is left go into a place of the codec's, and the flags they go with:
/// more to come, or parameter sets on their own.
pub fn feed(start: usize, remaining: usize, capacity: usize, units: &Vec<AccessUnit>) -> (r: (
    usize,
    u32,
))
    ensures
        (r.0 as int, r.1) == feed_of(start as int, remaining as int, capacity as int, units@),
{
    if capacity < remaining {
        return (capacity, codec::BUFFER_FLAG_PARTIAL_FRAME);
    }
    let mut sets = false;
    let mut i: usize = 0;
    while i < units.len()
        invariant
            i <= units@.len(),
            remaining <= capacity,
            forall|j: int| 0 <= j < i ==> !(#[trigger] units@[j]).has_picture,
            sets == exists|j: int| 0 <= j < i && (#[trigger] units@[j]).has_parameter_sets,
        decreases units@.len() - i,
    {
        if units[i].has_picture {
            assert(units@[i as int].has_picture);
            return (remaining, 0);
        }
        if units[i].has_parameter_sets {
            assert(units@[i as int].has_parameter_sets);
            sets = true;
        }
        i = i + 1;
    }
    if start == 0 && sets {
        (remaining, codec::BUFFER_FLAG_CODEC_CONFIG)
    } else {
        (remaining, 0)
    }
}

/// Where a row of a frame goes, and how much of it at most: the luma rows first, then the rows
/// of the chroma plane, each as long as the canvas is wide.
pub fn row_place(job: &CopyJob, row: usize) -> (r: (u128, u32))
    ensures
        r.0 == row_offset(*job, row as int),
        r.1 == row_width(*job, row as int),
{
    let cw: u128 = job.canvas_width as u128;
    assert(0 <= job.canvas_width * job.canvas_height <= 0xffff_ffff * 0xffff_ffff)
        by (nonlinear_arith)
        requires
            0 <= job.canvas_width <= 0xffff_ffff,
            0 <= job.canvas_height <= 0xffff_ffff,
    ;
    assert(0 <= row * job.canvas_width <= 0xffff_ffff_ffff_ffff * 0xffff_ffff) by (nonlinear_arith)
        requires
            0 <= row <= 0xffff_ffff_ffff_ffff,
            0 <= job.canvas_width <= 0xffff_ffff,
    ;
    let height: u128 = job.image.height as u128;
    if (row as u128) < height {
        (row as u128 * cw, job.image.width)
    } else {
        let chroma: u128 = row as u128 - height;
        assert(0 <= chroma * cw <= row * cw) by (nonlinear_arith)
            requires
                0 <= chroma <= row,
                0 <= cw,
        ;
        (cw * job.canvas_height as u128 + chroma * cw, job.canvas_width)
    }
}

/// Where a row goes.
pub open spec fn row_offset(job: CopyJob, row: int) -> int {
    if row < job.image.height {
        row * job.canvas_width
    } else {
        job.canvas_width * job.canvas_height + (row - job.image.height) * job.canvas_width
    }
}

/// How much of it at most.
pub open spec fn row_width(job: CopyJob, row: int) -> int {
    if row < job.image.height {
        job.image.width as int
    } else {
        job.canvas_width as int
    }
}

/// Every row of a frame that the canvas holds lands inside the canvas's bytes.
pub proof fn law_rows_stay_inside(job: CopyJob, row: int)
    requires
        job.image.width <= job.canvas_width,
        job.image.height <= job.canvas_height,
        0 <= row < job.image.height + codec::half_up(job.image.height as int),
    ensures
        0 <= row_offset(job, row),
        row_offset(job, row) + row_width(job, row) <= codec::nv12_bytes(
            job.canvas_width as int,
            job.canvas_height as int,
        ),
{
    let (cw, ch, h) = (job.canvas_width as int, job.canvas_height as int, job.image.height as int);
    let (hw, hh) = (codec::half_up(cw), codec::half_up(ch));
    assert(0 <= 2 * hw * hh) by (nonlinear_arith)
        requires
            hw >= 0,
            hh >= 0,
    ;
    assert(cw * hh <= 2 * hw * hh) by (nonlinear_arith)
        requires
            cw <= 2 * hw,
            0 <= hh,
    ;
    if row < h {
        assert(0 <= row * cw && (row + 1) * cw == row * cw + cw && (row + 1) * cw <= cw * ch)
            by (nonlinear_arith)
            requires
                0 <= row,
                row + 1 <= ch,
                0 <= cw,
        ;
    } else {
        let c = row - h;
        assert(0 <= c * cw && (c + 1) * cw == c * cw + cw && (c + 1) * cw <= cw * hh)
            by (nonlinear_arith)
            requires
                0 <= c,
                c + 1 <= hh,
                0 <= cw,
        ;
        assert(0 <= cw * ch) by (nonlinear_arith)
            requires
                0 <= cw,
                0 <= ch,
        ;
    }
}

/// Copies a row of a frame to its place on the canvas: no more of it than is the frame's there.
pub fn copy_row(job: &CopyJob, row: usize, row_bytes: &[u8], dst: &mut [u8])
    requires
        job.image.width <= job.canvas_width,
        job.image.height <= job.canvas_height,
        row < job.image.height + codec::half_up(job.image.height as int),
        codec::nv12_bytes(job.canvas_width as int, job.canvas_height as int) <= old(dst)@.len(),
    ensures
        final(dst)@ == Seq::new(
            old(dst)@.len(),
            |p: int|
                {
                    let at = row_offset(*job, row as int);
                    let n = codec::min_int(row_bytes@.len() as int, row_width(*job, row as int));
                    if at <= p < at + n {
                        row_bytes@[p - at]
                    } else {
                        old(dst)@[p]
                    }
                },
        ),
{
    proof {
        law_rows_stay_inside(*job, row as int);
    }
    let (at, width): (u128, u32) = row_place(job, row);
    let len: usize = row_bytes.len();
    let n: usize = if (len as u64) < width as u64 {
        len
    } else {
        width as usize
    };
    let held: usize = dst.len();
    assert(at + n <= held);
    bytes::copy_bytes(row_bytes, 0, dst, at as usize, n);
    assert(dst@ =~= Seq::new(
        old(dst)@.len(),
        |p: int|
            {
                if at <= p < at + n {
                    row_bytes@[p - at]
                } else {
                    old(dst)@[p]
                }
            },
    ));
}

/// Two rows of a frame that the canvas holds have no byte in common.
pub proof fn law_rows_are_apart(job: CopyJob, row: int, later: int)
    requires
        job.image.width <= job.canvas_width,
        job.image.height <= job.canvas_height,
        0 <= row < later,
    ensures
        row_offset(job, row) + row_width(job, row) <= row_offset(job, later),
{
    let (cw, ch, h) = (job.canvas_width as int, job.canvas_height as int, job.image.height as int);
    if later < h {
        assert(row * cw + cw <= later * cw) by (nonlinear_arith)
            requires
                row + 1 <= later,
                0 <= cw,
        ;
    } else if row < h {
        assert(row * cw + cw <= cw * ch && 0 <= (later - h) * cw) by (nonlinear_arith)
            requires
                row + 1 <= ch,
                0 <= later - h,
                0 <= cw,
        ;
    } else {
        assert((row - h) * cw + cw <= (later - h) * cw) by (nonlinear_arith)
            requires
                row + 1 <= later,
                0 <= cw,
        ;
    }
}

/// The copy that a session asks for is one that the buffer and the canvas hold.
pub proof fn law_copy_fits(v: SessionView, format: FrameFormat, buf_len: int)
    requires
        v.wf(),
        v.output_job() is Inspect,
        v.inspected(format, buf_len).1 is Some,
    ensures
        ({
            let job = v.inspected(format, buf_len).1->0;
            &&& job.image.width <= job.canvas_width
            &&& job.image.height <= job.canvas_height
            &&& codec::nv12_bytes(job.canvas_width as int, job.canvas_height as int)
                <= job.capture.len
        }),
{
    let image = image_of(format, buf_len)->Ok_0;
    let w = v.canvas_for(image);
    let a = w.announced->0;
    lemma_first_fit(w.captures, codec::nv12_bytes(a.width as int, a.height as int), 0);
}

proof fn lemma_first_fit(captures: Seq<OutputBuffer>, need: int, i: int)
    requires
        0 <= i <= captures.len(),
    ensures
        i <= first_fit(captures, need, i) <= captures.len(),
        first_fit(captures, need, i) < captures.len() ==> captures[first_fit(
            captures,
            need,
            i,
        )].len >= need,
    decreases captures.len() - i,
{
    if i < captures.len() && captures[i].len < need {
        lemma_first_fit(captures, need, i + 1);
    }
}

/// A session that is over stays over: it asks for nothing, lends nothing, and says so once.
pub proof fn law_the_end_is_final(v: SessionView, fault: Fault, other: Fault)
    requires
        v.wf(),
        !v.dead,
    ensures
        ({
            let f = v.failed(fault);
            &&& f.dead
            &&& f.pending.len() == 0 && f.captures.len() == 0 && f.held.len() == 0
            &&& f.events == v.events.push(DecoderEvent::Error(fault))
            &&& f.failed(other) == f
            &&& f.input_job() is None
            &&& f.settled() == f
            &&& f.output_job() is Idle
        }),
{
}

/// Once the end of the stream is in the codec, nothing more goes in until it is flushed.
pub proof fn law_nothing_follows_the_end(v: SessionView)
    requires
        v.eos_queued,
    ensures
        v.input_job() is None,
        v.running ==> !v.flushing().eos_queued,
{
}

/// Announcing the format changes that are due drops no output and leaves their order alone.
pub proof fn law_settling_keeps_the_outputs(v: SessionView)
    ensures
        held_indices(v.settled().held) == held_indices(v.held),
        v.settled().captures == v.captures,
        v.settled().pending == v.pending,
    decreases v.held.len(),
{
    if !v.dead && v.running && v.held.len() > 0 {
        if v.held[0] is Format {
            let w = (SessionView { held: v.held.drop_first(), ..v }).reformatted(v.held[0]->0);
            law_settling_keeps_the_outputs(w);
            lemma_indices_skip_format(v.held);
        }
    }
}

proof fn lemma_indices_skip_format(held: Seq<Held>)
    requires
        held.len() > 0,
        held[0] is Format,
    ensures
        held_indices(held) == held_indices(held.drop_first()),
    decreases held.len(),
{
    if held.len() > 1 {
        lemma_indices_skip_format(held.drop_last());
        assert(held.drop_last().drop_first() =~= held.drop_first().drop_last());
    } else {
        assert(held.drop_last() =~= Seq::empty());
        assert(held.drop_first() =~= Seq::empty());
    }
}

/// A change of size that comes while outputs are held is not announced before they are out.
pub proof fn law_a_new_size_waits(v: SessionView)
    requires
        !v.dead,
        v.held.len() > 0,
        v.held[0] is Output,
    ensures
        v.settled() == v,
{
}

/// The flags of an output decide what becomes of it: it holds a frame unless it is empty or holds
/// the codec's own headers; of those without a frame, only one that ends the stream takes a buffer
/// of the guest's, and waits for one.
pub proof fn law_an_output_is_for_what_it_holds(v: SessionView)
    requires
        !v.dead,
        v.running,
        v.held.len() > 0,
        v.held[0] is Output,
    ensures
        ({
            let index = v.held[0]->index;
            let size = v.held[0]->info.size;
            let ends = v.held[0]->info.flags & 4 != 0;
            let headers = v.held[0]->info.flags & 2 != 0;
            let job = v.output_job();
            &&& size > 0 && !headers ==> job == OutputJob::Inspect { index }
            &&& (size <= 0 || headers) && !ends ==> job == OutputJob::Release { index }
            &&& (size <= 0 || headers) && ends && v.captures.len() == 0 ==> job is Idle
            &&& (size <= 0 || headers) && ends && v.captures.len() > 0 ==> job
                == OutputJob::ReleaseLast { index, capture: v.captures[0] }
        }),
{
}

/// A frame that was copied out is reported once: in the buffer it was copied to, with the bytes of
/// the canvas and the codec's time. It is the last one exactly where the codec says that the stream
/// ends with it, and then, and only then, the end is out.
pub proof fn law_a_copied_frame_is_reported(v: SessionView, job: CopyJob, e: Option<CodecError>)
    requires
        v.wf(),
        !v.dead,
        v.held.len() > 0,
        v.held[0] is Output,
    ensures
        ({
            let r = v.copied(job, true, e);
            let info = v.held[0]->info;
            let ends = info.flags & 4 != 0;
            &&& r.events.len() > 0
            &&& r.events.last() matches DecoderEvent::FrameDecoded {
                index,
                bytesused,
                timestamp,
                is_last,
            } && {
                &&& index == job.capture.index
                &&& is_last <==> ends
                &&& timestamp.tv_sec * 1_000_000 + timestamp.tv_usec == info.pts_us
                &&& 0 <= timestamp.tv_usec < 1_000_000
                &&& codec::nv12_bytes(job.canvas_width as int, job.canvas_height as int) <= u32::MAX
                    ==> bytesused == codec::nv12_bytes(
                    job.canvas_width as int,
                    job.canvas_height as int,
                )
            }
            &&& r.eos_seen <==> v.eos_seen || ends
            &&& !r.dead ==> r.events.drop_last() == v.events && r.held == v.held.drop_first()
                && r.captures == v.captures && r.announced == v.announced
            &&& r.dead ==> r.events.len() == v.events.len() + 2 && r.events.drop_last().drop_last()
                == v.events && r.events[v.events.len() as int] is Error
            &&& e is None ==> !r.dead
        }),
{
    codec::law_a_time_is_whole_seconds_and_millionths(v.held[0]->info.pts_us);
    let r = v.copied(job, true, e);
    if r.dead {
        assert(r.events.drop_last().drop_last() =~= v.events);
    } else {
        assert(r.events.drop_last() =~= v.events);
    }
}

/// A frame that could not be copied out ends the session, and is not reported.
pub proof fn law_a_lost_frame_ends_the_session(v: SessionView, job: CopyJob, e: Option<CodecError>)
    requires
        !v.dead,
    ensures
        v.copied(job, false, e).dead,
        v.copied(job, false, e).events == v.events.push(DecoderEvent::Error(Fault::Repack)),
{
}

/// An empty output that ends the stream is reported as an empty last buffer, in the first one that
/// was lent. One that does not end the stream is not reported at all.
pub proof fn law_an_empty_end_is_reported(v: SessionView, e: Option<CodecError>)
    requires
        v.wf(),
        !v.dead,
        v.held.len() > 0,
        v.held[0] is Output,
    ensures
        v.output_job() is ReleaseLast ==> {
            let r = v.last_released(e);
            &&& v.held[0]->info.flags & 4 != 0
            &&& r.events.len() > 0
            &&& r.events.last() matches DecoderEvent::FrameDecoded {
                index,
                bytesused,
                timestamp,
                is_last,
            } && index == v.captures[0].index && bytesused == 0 && is_last
                && timestamp.tv_sec * 1_000_000 + timestamp.tv_usec == v.held[0]->info.pts_us
            &&& r.eos_seen
            &&& !r.dead ==> r.events.drop_last() == v.events && r.held == v.held.drop_first()
                && r.captures == v.captures.drop_first()
            &&& e is None ==> !r.dead
        },
        v.output_job() is Release ==> {
            let r = v.released(e);
            &&& v.held[0]->info.flags & 4 == 0
            &&& !r.dead ==> r.events == v.events && r.held == v.held.drop_first() && r.captures
                == v.captures
            &&& r.dead ==> r.events.drop_last() == v.events && r.events.last() is Error
            &&& r.eos_seen == v.eos_seen
            &&& e is None ==> !r.dead
        },
{
    codec::law_a_time_is_whole_seconds_and_millionths(v.held[0]->info.pts_us);
    if v.output_job() is ReleaseLast {
        assert(v.last_released(e).events.drop_last() =~= v.events || v.last_released(e).dead);
    }
    if v.output_job() is Release {
        assert(v.released(e).events.drop_last() =~= v.events || !v.released(e).dead);
    }
}

/// An output that could not be looked at is not reported, and is given up.
pub proof fn law_an_unseen_output_is_given_up(v: SessionView, e: CodecError)
    requires
        v.wf(),
        !v.dead,
        v.held.len() > 0,
    ensures
        ({
            let r = v.not_inspected(e);
            &&& !r.dead ==> r.held == v.held.drop_first() && r.events == v.events && r.captures
                == v.captures
            &&& r.eos_seen == v.eos_seen
            &&& r.dead ==> r.events.last() is Error
        }),
{
}

/// A codec may refuse 64 indices between two flushes, and the next refusal ends the session. An
/// index from before a flush is no refusal.
pub proof fn law_refusals_are_counted(v: SessionView, e: CodecError)
    requires
        v.wf(),
        !v.dead,
    ensures
        e is Null || e is NullCodec ==> v.refused_index(e) == v,
        !(e is Null || e is NullCodec) && v.refused < 64 ==> !v.refused_index(e).dead
            && v.refused_index(e).refused == v.refused + 1 && v.refused_index(e).events == v.events
            && v.refused_index(e).held == v.held && v.refused_index(e).pending == v.pending,
        !(e is Null || e is NullCodec) && v.refused >= 64 ==> v.refused_index(e).dead,
        v.running ==> v.flushing().refused == 0,
{
}

/// Input goes in order: what is fed is the first that waits, from where it was left, to the first
/// free place, with the guest's time in microseconds.
pub proof fn law_input_goes_in_order(v: SessionView)
    requires
        !v.dead,
        v.running,
        !v.eos_queued,
        v.free_inputs.len() > 0,
        v.pending.len() > 0,
    ensures
        v.pending[0] is Eos ==> v.input_job() == Some(InputJob::Eos { index: v.free_inputs[0] }),
        v.pending[0] matches PendingInput::Bitstream { buffer: b, offset: o } ==> (v.input_job() matches Some(
            InputJob::Feed { index, buffer, start, pts },
        ) && index == v.free_inputs[0] && buffer == b && start == o && {
            let us = b.timestamp.tv_sec * 1_000_000 + b.timestamp.tv_usec;
            (0 <= us <= u64::MAX ==> pts == us) && (us - pts) % 0x1_0000_0000_0000_0000 == 0
        }),
{
}

/// Nothing is fed without a codec, a free place or something that waits.
pub proof fn law_feeding_takes_a_place(v: SessionView)
    ensures
        v.dead || v.eos_queued || !v.running || v.free_inputs.len() == 0 || v.pending.len() == 0
            <==> v.input_job() is None,
{
}

/// A bitstream buffer is returned once, when the last of its bytes is in the codec; until then the
/// rest of it goes on waiting in front. One that the codec refused waits as it did.
pub proof fn law_no_byte_of_input_is_lost(v: SessionView, n: usize, e: CodecError)
    requires
        v.wf(),
        v.input_job() is Some,
    ensures
        ({
            let r = v.fed(Ok(n));
            &&& r.free_inputs == v.free_inputs.drop_first()
            &&& r.held == v.held && r.captures == v.captures && !r.dead
            &&& v.pending[0] is Eos ==> r.eos_queued && r.pending == v.pending.drop_first()
                && r.events == v.events
            &&& v.pending[0] matches PendingInput::Bitstream { buffer, offset } ==> {
                &&& !r.eos_queued
                &&& offset + n >= buffer.len ==> r.pending == v.pending.drop_first() && r.events
                    == v.events.push(DecoderEvent::InputBufferDone(buffer.index))
                &&& offset + n < buffer.len ==> r.events == v.events && r.pending.len()
                    == v.pending.len() && r.pending.drop_first() == v.pending.drop_first()
                    && r.pending[0] == (PendingInput::Bitstream {
                    buffer,
                    offset: (offset + n) as usize,
                })
            }
        }),
        ({
            let r = v.fed(Err(e));
            &&& !r.dead ==> r.pending == v.pending && r.events == v.events && r.free_inputs
                == v.free_inputs.drop_first()
            &&& r.eos_queued == v.eos_queued
        }),
{
    let r = v.fed(Ok(n));
    if let PendingInput::Bitstream { buffer, offset } = v.pending[0] {
        if offset + n < buffer.len {
            assert(r.pending.drop_first() =~= v.pending.drop_first());
        }
    }
}

/// A size is announced with all of it: its own width and height, and how many buffers to bring. It
/// is announced only where it is another than before.
pub proof fn law_only_another_size_is_announced(v: SessionView, f: OutputFormat)
    requires
        f.width > 0,
        f.height > 0,
    ensures
        ({
            let r = v.reformatted(Some(f));
            let a = Announced {
                width: f.width as u32,
                height: f.height as u32,
                visible: visible_of(f),
            };
            &&& r.announced == Some(a)
            &&& v.announced == Some(a) ==> r == v
            &&& v.announced != Some(a) ==> r.events == v.events.push(
                DecoderEvent::FormatChanged {
                    width: f.width as u32,
                    height: f.height as u32,
                    visible: visible_of(f),
                    min_capture_buffers: 4,
                },
            )
            &&& r.held == v.held && r.captures == v.captures && r.pending == v.pending
            &&& r.reformatted(Some(f)) == r
        }),
        v.reformatted(None) == v,
        v.reformatted(Some(OutputFormat { width: 0, ..f })) == v,
        v.reformatted(Some(OutputFormat { height: 0, ..f })) == v,
{
}

/// What is seen of a frame is as large as the crop, both its edges in it, and inside the frame. It
/// is the whole frame where there is no crop.
pub proof fn law_the_crop_is_seen(f: OutputFormat)
    requires
        f.width > 0,
        f.height > 0,
    ensures
        ({
            let r = visible_of(f);
            &&& r.left == 0 && r.top == 0
            &&& 1 <= r.width <= f.width && 1 <= r.height <= f.height
            &&& f.crop is None ==> r.width == f.width && r.height == f.height
            &&& f.crop matches Some(c) ==> {
                &&& 0 <= c.left <= c.right < f.width && 0 <= c.top <= c.bottom < f.height ==> r.width
                    == c.right - c.left + 1 && r.height == c.bottom - c.top + 1
                &&& c.right < c.left || c.bottom < c.top ==> r.width == f.width && r.height
                    == f.height
            }
        }),
{
}

/// A frame goes to the first lent buffer that holds a whole canvas, and the canvas is what the
/// guest was told last: as large as the picture at least. Without such a buffer the frame stays,
/// and nothing but a larger size is told.
pub proof fn law_a_frame_goes_to_the_first_that_fits(
    v: SessionView,
    format: FrameFormat,
    buf_len: int,
)
    requires
        v.wf(),
        v.output_job() is Inspect,
        image_of(format, buf_len) is Ok,
    ensures
        ({
            let (r, job) = v.inspected(format, buf_len);
            let image = image_of(format, buf_len)->Ok_0;
            let a = r.announced->0;
            let need = codec::nv12_bytes(a.width as int, a.height as int);
            &&& r.announced is Some && a.width >= image.width && a.height >= image.height
            &&& (v.announced matches Some(b) && b.width >= image.width && b.height >= image.height)
                ==> r.announced == v.announced && r.events == v.events
            &&& !(v.announced matches Some(b) && b.width >= image.width && b.height
                >= image.height) ==> a.width == image.width && a.height == image.height
                && a.visible.width == image.width && a.visible.height == image.height
            &&& !r.dead && r.held == v.held && r.pending == v.pending
            &&& job is None ==> r.captures == v.captures && forall|i: int|
                0 <= i < v.captures.len() ==> (#[trigger] v.captures[i]).len < need
            &&& job matches Some(j) ==> {
                &&& j.index == v.held[0]->index && j.image == image
                &&& j.canvas_width == a.width && j.canvas_height == a.height
                &&& exists|at: int|
                    0 <= at < v.captures.len() && j.capture == #[trigger] v.captures[at]
                        && v.captures[at].len >= need && r.captures == v.captures.remove(at)
                        && forall|i: int|
                        0 <= i < at ==> (#[trigger] v.captures[i]).len < need
            }
        }),
{
    let image = image_of(format, buf_len)->Ok_0;
    let w = v.canvas_for(image);
    let a = w.announced->0;
    let need = codec::nv12_bytes(a.width as int, a.height as int);
    law_the_first_that_fits(w.captures, need, 0);
    let at = first_fit(w.captures, need, 0);
    if at < w.captures.len() {
        assert(v.captures[at].len >= need);
    }
}

/// The first buffer that fits: it fits, and none before it does.
pub proof fn law_the_first_that_fits(captures: Seq<OutputBuffer>, need: int, i: int)
    requires
        0 <= i <= captures.len(),
    ensures
        ({
            let at = first_fit(captures, need, i);
            &&& i <= at <= captures.len()
            &&& at < captures.len() ==> captures[at].len >= need
            &&& forall|j: int| i <= j < at ==> (#[trigger] captures[j]).len < need
        }),
    decreases captures.len() - i,
{
    if i < captures.len() && captures[i].len < need {
        law_the_first_that_fits(captures, need, i + 1);
    }
}

/// A frame is read as its layout is written wherever the buffer holds that, and never by a layout
/// that reaches past the buffer where one is known to. Without a written layout it has the codec's
/// stride and slice height, and those of the picture where the codec gives none.
pub proof fn law_a_frame_is_read_by_its_layout(f: FrameFormat, buf_len: int)
    ensures
        f.image matches ImageInfo::Data(d) ==> {
            &&& d.required <= buf_len ==> image_of(f, buf_len) == Ok::<Image, Fault>(
                Image { width: d.width, height: d.height, layout: Layout::AsWritten },
            )
            &&& d.offset != 0 && d.required > buf_len && d.rebased <= buf_len ==> image_of(f, buf_len)
                == Ok::<Image, Fault>(
                Image { width: d.width, height: d.height, layout: Layout::Rebased },
            )
            &&& d.offset != 0 && d.required > buf_len && d.rebased > buf_len ==> image_of(f, buf_len)
                == Err::<Image, Fault>(Fault::ImageTooLarge)
            &&& d.offset == 0 ==> image_of(f, buf_len) is Ok && image_of(f, buf_len)->Ok_0.layout
                is AsWritten
        },
        f.image is Unreadable ==> image_of(f, buf_len) == Err::<Image, Fault>(Fault::ImageData),
        f.image is Absent && f.width >= 0 && f.height >= 0 ==> {
            &&& image_of(f, buf_len) is Ok
            &&& image_of(f, buf_len)->Ok_0.width == f.width
            &&& image_of(f, buf_len)->Ok_0.height == f.height
            &&& image_of(f, buf_len)->Ok_0.layout matches Layout::SemiPlanar { stride, slice_height }
                && (f.stride is None ==> stride == f.width) && ((f.stride matches Some(s)
                && s >= 0) ==> stride == f.stride->0) && (f.slice_height is None ==> slice_height == f.height) && ((
            f.slice_height matches Some(s) && s >= 0) ==> slice_height == f.slice_height->0)
        },
{
}

/// A pixel lands in its place: luma at its own row and column of the canvas, chroma behind all of
/// the canvas's luma, at its own row there.
pub proof fn law_a_pixel_lands_in_its_place(job: CopyJob, row: int, chroma_row: int)
    requires
        0 <= row < job.image.height,
        0 <= chroma_row,
    ensures
        row_offset(job, row) == row * job.canvas_width,
        row_width(job, row) == job.image.width,
        row_offset(job, job.image.height + chroma_row) == (job.canvas_height + chroma_row)
            * job.canvas_width,
        row_width(job, job.image.height + chroma_row) == job.canvas_width,
{
    let (c, h) = (job.canvas_width as int, job.canvas_height as int);
    assert(c * h + chroma_row * c == (h + chroma_row) * c) by (nonlinear_arith);
}

/// A seek takes back the returns of inputs that were not heard, and no other event.
pub proof fn law_a_seek_keeps_the_frames(events: Seq<DecoderEvent>)
    ensures
        without_inputs(events) == events.filter(|e: DecoderEvent| !(e is InputBufferDone)),
        without_frames(events) == events.filter(|e: DecoderEvent| !(e is FrameDecoded)),
    decreases events.len(),
{
    reveal(Seq::filter);
    if events.len() > 0 {
        law_a_seek_keeps_the_frames(events.drop_last());
    }
}

/// A flush voids what the codec delivered and the ends it reported, and nothing of the guest's.
pub proof fn law_a_flush_spares_the_guests_buffers(v: SessionView)
    requires
        v.running,
    ensures
        ({
            let f = v.flushing();
            &&& f.held.len() == 0 && f.free_inputs.len() == 0 && !f.eos_queued && !f.eos_seen
            &&& f.captures == v.captures && f.pending == v.pending && f.events == v.events
            &&& f.announced == v.announced && f.dead == v.dead && f.chosen == v.chosen
            &&& !f.running
        }),
{
}

/// The indices that are given back are those of the outputs that are held, in order.
pub proof fn law_every_held_index_is_given_back(held: Seq<Held>, index: i32, info: BufferInfo, f: Option<
    OutputFormat,
>)
    ensures
        held_indices(Seq::empty()) == Seq::<i32>::empty(),
        held_indices(held.push(Held::Output { index, info })) == held_indices(held).push(index),
        held_indices(held.push(Held::Format(f))) == held_indices(held),
{
    assert(held.push(Held::Output { index, info }).drop_last() =~= held);
    assert(held.push(Held::Format(f)).drop_last() =~= held);
}

/// When the lent buffers go back, no frame is reported any more, but every size that waited is
/// still told, the newest last.
pub proof fn law_sizes_outlive_the_buffers(v: SessionView, held: Seq<Held>, f: OutputFormat)
    requires
        f.width > 0,
        f.height > 0,
        v.held == held.push(Held::Format(Some(f))),
    ensures
        ({
            let r = v.captures_cleared();
            &&& r.captures.len() == 0 && r.held.len() == 0
            &&& r.announced matches Some(a) && a.width == f.width && a.height == f.height
                && a.visible == visible_of(f)
            &&& r.pending == v.pending && r.dead == v.dead
        }),
{
    assert(v.held.drop_last() =~= held);
    let w = SessionView {
        captures: Seq::empty(),
        events: without_frames(v.events),
        held: Seq::empty(),
        ..v
    };
    lemma_reformatted_all_keeps(w, held);
}

proof fn lemma_reformatted_all_keeps(v: SessionView, held: Seq<Held>)
    ensures
        ({
            let r = v.reformatted_all(held);
            &&& r.captures == v.captures && r.held == v.held && r.pending == v.pending
            &&& r.dead == v.dead
        }),
    decreases held.len(),
{
    if held.len() > 0 {
        lemma_reformatted_all_keeps(v, held.drop_last());
    }
}

/// A codec is found by its format: it is for that format, and none before it is.
pub proof fn law_a_codec_is_found_by_its_format(codecs: Seq<ChosenCodec>, fourcc: u32, i: int)
    requires
        0 <= i <= codecs.len(),
    ensures
        ({
            let at = codec_for(codecs, fourcc, i);
            &&& i <= at <= codecs.len()
            &&& at < codecs.len() ==> codecs[at].fourcc == fourcc
            &&& forall|j: int| i <= j < at ==> (#[trigger] codecs[j]).fourcc != fourcc
        }),
    decreases codecs.len() - i,
{
    if i < codecs.len() && codecs[i].fourcc != fourcc {
        law_a_codec_is_found_by_its_format(codecs, fourcc, i + 1);
    }
}

/// A size is handed to the codec as it is, where its numbers reach so far.
pub proof fn law_a_size_is_handed_on(v: u32)
    ensures
        v <= i32::MAX ==> as_i32(v as int) == v,
        v > i32::MAX ==> as_i32(v as int) == i32::MAX,
{
}

/// The codec that is offered is the best one.
pub proof fn law_the_best_codec_is_offered(
    codecs: Seq<CodecInfo>,
    kind: CodecKind,
    mime: Seq<char>,
    allow_sw: bool,
    i: int,
)
    requires
        codec::best(codecs, codecs.len() as int, kind, mime, allow_sw, i),
    ensures
        choice(codecs, kind, mime, allow_sw) == i,
{
    let c = choice(codecs, kind, mime, allow_sw);
    codec::law_the_choice_is_unique(codecs, kind, mime, allow_sw, i, c);
}

/// A format is offered exactly where some codec will do for it.
pub proof fn law_every_format_with_a_codec_is_offered(
    codecs: Seq<CodecInfo>,
    kind: CodecKind,
    allow_sw: bool,
    n: int,
    k: int,
)
    requires
        0 <= k < n,
    ensures
        (exists|m: int|
            0 <= m < offered(codecs, kind, allow_sw, n).len() && (#[trigger] offered(
                codecs,
                kind,
                allow_sw,
                n,
            )[m]).0 == k) <==> !codec::no_choice(
            codecs,
            codecs.len() as int,
            kind,
            codec::format_mime(k),
            allow_sw,
        ),
    decreases n,
{
    let o = offered(codecs, kind, allow_sw, n);
    let rest = offered(codecs, kind, allow_sw, n - 1);
    lemma_offered_below(codecs, kind, allow_sw, n - 1);
    if k < n - 1 {
        law_every_format_with_a_codec_is_offered(codecs, kind, allow_sw, n - 1, k);
        if exists|m: int| 0 <= m < rest.len() && (#[trigger] rest[m]).0 == k {
            let m = choose|m: int| 0 <= m < rest.len() && (#[trigger] rest[m]).0 == k;
            assert(o[m].0 == k);
        }
        if exists|m: int| 0 <= m < o.len() && (#[trigger] o[m]).0 == k {
            let m = choose|m: int| 0 <= m < o.len() && (#[trigger] o[m]).0 == k;
            assert(m < rest.len());
            assert(rest[m].0 == k);
        }
    } else {
        if o.len() > rest.len() {
            assert(o[rest.len() as int].0 == k);
        }
        if exists|m: int| 0 <= m < o.len() && (#[trigger] o[m]).0 == k {
            let m = choose|m: int| 0 <= m < o.len() && (#[trigger] o[m]).0 == k;
            if m < rest.len() {
                assert(rest[m].0 < k);
            }
        }
    }
}

proof fn lemma_offered_below(codecs: Seq<CodecInfo>, kind: CodecKind, allow_sw: bool, n: int)
    ensures
        forall|m: int|
            0 <= m < offered(codecs, kind, allow_sw, n).len() ==> (#[trigger] offered(
                codecs,
                kind,
                allow_sw,
                n,
            )[m]).0 < n,
    decreases n,
{
    if n > 0 {
        let rest = offered(codecs, kind, allow_sw, n - 1);
        let o = offered(codecs, kind, allow_sw, n);
        lemma_offered_below(codecs, kind, allow_sw, n - 1);
        assert forall|m: int| 0 <= m < o.len() implies (#[trigger] o[m]).0 < n by {
            if m < rest.len() {
                assert(rest[m].0 < n - 1);
            }
        }
    }
}

/// A session is told why it cannot be used: it is over, or it has no codec. A codec is flushed before
/// it decodes on exactly where the old stream is in it to its end, and out.
pub proof fn law_a_session_says_why_it_cannot_be_used(v: SessionView)
    ensures
        v.alive() is Ok <==> !v.dead,
        v.dead ==> v.alive() == Err::<(), i32>(19) && v.decode_step() == Err::<bool, i32>(19),
        !v.dead && !v.running ==> v.decode_step() == Err::<bool, i32>(22),
        !v.dead && v.running ==> (v.decode_step() matches Ok(flush) && (flush <==> v.eos_queued
            && v.eos_seen)),
        v.restarts() <==> !v.dead && v.eos_queued && v.eos_seen && exists|i: int|
            0 <= i < v.pending.len() && (#[trigger] v.pending[i]) is Bitstream,
{
}

/// A session that runs is not started again, and one that is over never is. Another is started with
/// the codec for its format, at the size that is asked for.
pub proof fn law_a_session_is_started_once(
    codecs: Seq<ChosenCodec>,
    v: SessionView,
    coded_format: u32,
    coded_size: (u32, u32),
)
    requires
        codecs.len() <= usize::MAX,
    ensures
        ({
            let r = start_of(codecs, v, coded_format, coded_size);
            &&& v.running ==> r == Ok::<StartStep, i32>(StartStep::Running)
            &&& !v.running && v.dead ==> r == Err::<StartStep, i32>(19)
            &&& r matches Ok(StartStep::Create(setup)) ==> {
                &&& !v.running && !v.dead
                &&& setup.codec < codecs.len()
                &&& codecs[setup.codec as int].fourcc == coded_format
                &&& setup.low_latency == codecs[setup.codec as int].low_latency
                &&& coded_size.0 <= i32::MAX ==> setup.width == coded_size.0
                &&& coded_size.1 <= i32::MAX ==> setup.height == coded_size.1
            }
            &&& !v.running && !v.dead ==> (r is Err <==> forall|i: int|
                0 <= i < codecs.len() ==> (#[trigger] codecs[i]).fourcc != coded_format)
            &&& !v.running && !v.dead && r is Err ==> r == Err::<StartStep, i32>(22)
        }),
{
    law_a_codec_is_found_by_its_format(codecs, coded_format, 0);
}

/// A session that was started runs, with its codec, and is otherwise as it was.
pub proof fn law_a_started_session_runs(v: SessionView, codec: int)
    ensures
        v.started(codec).running,
        v.started(codec).chosen == Some(codec),
        v.started(codec).pending == v.pending && v.started(codec).captures == v.captures
            && v.started(codec).held == v.held && v.started(codec).free_inputs == v.free_inputs
            && v.started(codec).events == v.events && v.started(codec).announced == v.announced
            && v.started(codec).eos_queued == v.eos_queued && v.started(codec).eos_seen
            == v.eos_seen && v.started(codec).dead == v.dead && v.started(codec).refused
            == v.refused,
{
}

/// What a call came to is told: nothing where it is done, the codec's error by its number, and 110
/// where it took too long.
pub proof fn law_what_it_came_to_is_told(outcome: Outcome)
    ensures
        came_to(outcome) is Ok <==> outcome is Done,
        outcome matches Outcome::Failed(e) ==> came_to(outcome) == Err::<(), i32>(
            codec::errno_of(e),
        ),
        outcome is TimedOut ==> came_to(outcome) == Err::<(), i32>(110),
{
}

/// What the guest queues and lends, and what the codec reports, goes behind what is there: nothing is
/// lost and nothing overtakes. Only a change of format with nothing before it is told at once.
pub proof fn law_nothing_overtakes(
    v: SessionView,
    buffer: InputBuffer,
    capture: OutputBuffer,
    index: i32,
    info: BufferInfo,
    format: Option<OutputFormat>,
)
    requires
        !v.dead,
    ensures
        v.queued(buffer).pending == v.pending.push(PendingInput::Bitstream { buffer, offset: 0 }),
        v.queued(buffer).captures == v.captures && v.queued(buffer).held == v.held && v.queued(
            buffer,
        ).events == v.events,
        v.lent(capture).captures == v.captures.push(capture),
        v.lent(capture).pending == v.pending && v.lent(capture).held == v.held && v.lent(
            capture,
        ).events == v.events,
        v.took(CodecEvent::InputAvailable(index)).free_inputs == v.free_inputs.push(index),
        v.took(CodecEvent::InputAvailable(index)).held == v.held,
        v.took(CodecEvent::OutputAvailable { index, info }).held == v.held.push(
            Held::Output { index, info },
        ),
        v.took(CodecEvent::OutputAvailable { index, info }).free_inputs == v.free_inputs,
        v.took(CodecEvent::OutputAvailable { index, info }).events == v.events,
        v.held.len() > 0 ==> v.took(CodecEvent::FormatChanged(format)).held == v.held.push(
            Held::Format(format),
        ) && v.took(CodecEvent::FormatChanged(format)).events == v.events,
        v.held.len() == 0 ==> v.took(CodecEvent::FormatChanged(format)) == v.reformatted(format),
        v.took(CodecEvent::Error(index)).dead,
        v.took(CodecEvent::Error(index)).events == v.events.push(
            DecoderEvent::Error(Fault::Codec(index)),
        ),
{
}

/// A seek drops what waits and what the codec holds, and the guest hears no more of the inputs it will
/// not see. A flush that is done lets the codec run on; one that is not ends the session.
pub proof fn law_a_flush_is_done_or_ends_the_session(v: SessionView, e: CodecError)
    requires
        !v.dead,
    ensures
        v.seeking().pending.len() == 0,
        v.seeking().events == without_inputs(v.events),
        v.seeking().captures == v.captures,
        !v.seeking().running,
        v.running ==> v.seeking().held.len() == 0 && v.seeking().free_inputs.len() == 0
            && !v.seeking().eos_queued && !v.seeking().eos_seen,
        v.flushed(Outcome::Done).running && !v.flushed(Outcome::Done).dead,
        v.flushed(Outcome::Done).captures == v.captures && v.flushed(Outcome::Done).events
            == v.events && v.flushed(Outcome::Done).pending == v.pending,
        v.flushed(Outcome::Failed(e)).dead && v.flushed(Outcome::TimedOut).dead,
        v.flushed(Outcome::Failed(e)).events == v.events.push(
            DecoderEvent::Error(Fault::FlushFailed),
        ),
        v.flushed(Outcome::TimedOut).events == v.events.push(
            DecoderEvent::Error(Fault::FlushTimedOut),
        ),
{
}

/// The end of the stream is queued once, behind everything else, however often it is asked for. Where
/// it is in the codec already, or the session is over, it is not queued.
pub proof fn law_the_end_is_queued_once(v: SessionView)
    ensures
        ({
            let d = v.drained();
            &&& d.drained() == d
            &&& !v.dead && !v.eos_queued ==> exists|i: int|
                0 <= i < d.pending.len() && (#[trigger] d.pending[i]) is Eos
            &&& d.pending.len() > v.pending.len() ==> d.pending.drop_last() == v.pending
                && d.pending.last() is Eos && !v.eos_queued && !v.dead
            &&& d.pending.len() <= v.pending.len() ==> d == v
            &&& d.captures == v.captures && d.held == v.held && d.events == v.events
                && d.eos_queued == v.eos_queued && d.running == v.running
        }),
{
    let d = v.drained();
    if !v.dead && !v.eos_queued && !v.has_eos() {
        assert(d.pending[v.pending.len() as int] is Eos);
        assert(d.pending.drop_last() =~= v.pending);
    }
}

/// A session that is stopped has nothing left of its codec or of the guest's buffers, but knows its
/// codec and what it announced.
pub proof fn law_a_stopped_session_holds_nothing(v: SessionView)
    ensures
        !v.stopped().running,
        v.stopped().pending.len() == 0 && v.stopped().captures.len() == 0 && v.stopped().held.len()
            == 0 && v.stopped().free_inputs.len() == 0 && v.stopped().events.len() == 0,
        v.stopped().chosen == v.chosen && v.stopped().announced == v.announced && v.stopped().dead
            == v.dead && v.stopped().eos_queued == v.eos_queued && v.stopped().eos_seen
            == v.eos_seen && v.stopped().refused == v.refused,
{
}

/// As much goes into a place as fits. What does not fit is marked by 8: more is to come. A buffer of
/// parameter sets alone, from its start, is marked by 2, and all else by nothing.
pub proof fn law_as_much_is_fed_as_fits(
    start: int,
    remaining: int,
    capacity: int,
    units: Seq<AccessUnit>,
)
    requires
        0 <= start,
        0 <= remaining,
        0 <= capacity,
    ensures
        ({
            let (n, flags) = feed_of(start, remaining, capacity, units);
            let config = (exists|i: int|
                0 <= i < units.len() && (#[trigger] units[i]).has_parameter_sets) && !exists|i: int|
                0 <= i < units.len() && (#[trigger] units[i]).has_picture;
            &&& n <= remaining && n <= capacity
            &&& n == remaining || n == capacity
            &&& n < remaining <==> flags == 8
            &&& flags == 2 <==> remaining <= capacity && start == 0 && config
            &&& flags == 0 || flags == 2 || flags == 8
        }),
{
}

/// A chosen codec is the listed one: its name, what it is and what it can are the listed codec's, and
/// its format is the one that it was chosen for.
pub proof fn law_a_chosen_codec_is_the_listed_one(c: ChosenCodec, k: int, info: CodecInfo)
    requires
        c.stands_for(k, info),
    ensures
        c.name@ == info.name@,
        c.fourcc == codec::format_fourcc(k),
        c.mime@ == codec::format_mime(k),
        c.hardware <==> codec::hardware(info),
        c.vendor <==> info.is_vendor,
        c.low_latency <==> exists|i: int|
            0 <= i < info.features@.len() && (#[trigger] info.features@[i]).feature@
                == "low-latency"@ && info.features@[i].supported,
{
}

/// Formats are offered in their order, each with the codec that is chosen for it.
pub proof fn law_formats_are_offered_in_order(
    codecs: Seq<CodecInfo>,
    kind: CodecKind,
    allow_sw: bool,
    n: int,
    i: int,
    j: int,
)
    requires
        0 <= i <= j < offered(codecs, kind, allow_sw, n).len(),
    ensures
        ({
            let o = offered(codecs, kind, allow_sw, n);
            &&& 0 <= o[j].0 < n
            &&& i < j ==> o[i].0 < o[j].0
            &&& o[j].1 == choice(codecs, kind, codec::format_mime(o[j].0), allow_sw)
        }),
    decreases n,
{
    let rest = offered(codecs, kind, allow_sw, n - 1);
    if j < rest.len() {
        law_formats_are_offered_in_order(codecs, kind, allow_sw, n - 1, i, j);
    } else if i < j {
        law_formats_are_offered_in_order(codecs, kind, allow_sw, n - 1, i, i);
    }
}

/// What is no size is none: a frame below nothing has no extent, and neither has a row.
pub proof fn law_what_is_below_nothing_is_nothing(f: FrameFormat, buf_len: int)
    ensures
        f.image is Absent ==> {
            let i = image_of(f, buf_len)->Ok_0;
            &&& f.width < 0 ==> i.width == 0
            &&& f.height < 0 ==> i.height == 0
            &&& (f.stride matches Some(s) && s < 0) ==> (
            i.layout matches Layout::SemiPlanar { stride, .. } && stride == 0)
            &&& (f.slice_height matches Some(s) && s < 0) ==> (
            i.layout matches Layout::SemiPlanar { slice_height, .. } && slice_height == 0)
        },
        (f.image matches ImageInfo::Data(d) && d.offset == 0) ==> (
        f.image matches ImageInfo::Data(d) && image_of(f, buf_len)->Ok_0.width == d.width
            && image_of(f, buf_len)->Ok_0.height == d.height),
{
}

/// A crop that is wider or higher than the frame shows the whole of it; one that is not shows as much
/// as it says, wherever in the frame it lies. A format without a size changes nothing.
pub proof fn law_a_crop_shows_as_much_as_it_says(v: SessionView, f: OutputFormat)
    ensures
        (f.crop matches Some(c) && c.left <= c.right && c.top <= c.bottom && f.width > 0 && f.height
            > 0) ==> (f.crop matches Some(c) && {
            &&& c.right - c.left < f.width ==> visible_of(f).width == c.right - c.left + 1
            &&& c.right - c.left >= f.width ==> visible_of(f).width == f.width
            &&& c.bottom - c.top < f.height ==> visible_of(f).height == c.bottom - c.top + 1
            &&& c.bottom - c.top >= f.height ==> visible_of(f).height == f.height
        }),
        f.width <= 0 || f.height <= 0 ==> v.reformatted(Some(f)) == v,
{
}

/// A picture that is larger than what was announced is announced before it is delivered, at its own
/// size and as a whole.
pub proof fn law_a_larger_picture_is_announced(v: SessionView, format: FrameFormat, buf_len: int)
    requires
        v.wf(),
        v.output_job() is Inspect,
        image_of(format, buf_len) is Ok,
    ensures
        ({
            let (r, _) = v.inspected(format, buf_len);
            let image = image_of(format, buf_len)->Ok_0;
            let whole = Rect { left: 0, top: 0, width: image.width, height: image.height };
            !(v.announced matches Some(b) && b.width >= image.width && b.height >= image.height)
                ==> r.events == v.events.push(
                DecoderEvent::FormatChanged {
                    width: image.width,
                    height: image.height,
                    visible: whole,
                    min_capture_buffers: 4,
                },
            )
        }),
{
}

} // verus!
