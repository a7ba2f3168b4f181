use droidvm::codec::{CodecError, Timeval, H264, HEVC};
use droidvm::decoder::{BufferInfo, InputBuffer, Outcome, OutputBuffer, Rect};
use droidvm::encode_session::{
    color_format_after, input_layout, Creation, EncoderConfig, EncoderEvent, Fault, FrameKind,
    InputFormat, InputJob, LayoutError, MediaCodecEncoderSession, StartStep, VideoHeaderMode,
};
use droidvm::encoder::{ChosenEncoder, Colorimetry, VideoBitrateMode};

const KEY: u32 = 1;
const HEADERS: u32 = 2;
const END: u32 = 4;

fn codecs() -> Vec<ChosenEncoder> {
    vec![ChosenEncoder {
        fourcc: H264,
        mime: "video/avc".to_owned(),
        name: "c2.qti.avc.encoder".to_owned(),
        hardware: true,
        vendor: true,
        qp_bounds: true,
        default_level: Some(15),
    }]
}

fn config(header_mode: VideoHeaderMode) -> EncoderConfig {
    EncoderConfig {
        coded_format: H264,
        coded_size: (4, 2),
        visible: Rect { left: 0, top: 0, width: 4, height: 2 },
        bitrate: u32::MAX,
        bitrate_mode: VideoBitrateMode::ConstantBitrate,
        profile: Some(4),
        level: Some(3),
        header_mode,
        prepend_headers: true,
        qp: Some((0, 30)),
        colorimetry: Colorimetry { colorspace: 3, quantization: 0, xfer_func: 0 },
    }
}

fn created() -> Creation {
    Creation::Done {
        format: InputFormat { color_format: Some(21), stride: Some(6), slice_height: Some(2) },
        requested: 21,
    }
}

fn running(header_mode: VideoHeaderMode) -> MediaCodecEncoderSession {
    let mut s = MediaCodecEncoderSession::new(codecs());
    assert_eq!(s.on_started(0, &config(header_mode), created()), Ok(()));
    s
}

fn raw(index: u32, tv_usec: i64) -> InputBuffer {
    InputBuffer { index, len: 12, timestamp: Timeval { tv_sec: 0, tv_usec } }
}

fn coded(flags: u32, size: i32, pts_us: i64) -> BufferInfo {
    BufferInfo { size, flags, pts_us }
}

fn encoded(index: u32, bytesused: u32, tv_usec: i64, kind: FrameKind, is_last: bool) -> EncoderEvent {
    EncoderEvent::FrameEncoded {
        index,
        bytesused,
        timestamp: Timeval { tv_sec: 0, tv_usec },
        kind,
        is_last,
    }
}

#[test]
fn an_encode_starts_with_what_the_guest_asked() {
    let mut s = MediaCodecEncoderSession::new(codecs());
    let c = config(VideoHeaderMode::Separate);
    assert_eq!(s.encode(raw(1, 0)), Err(22));
    let setup = match s.start(&c) {
        Ok(StartStep::Create(setup)) => setup,
        _ => panic!("no codec"),
    };
    assert_eq!((setup.codec, setup.width, setup.height), (0, 4, 2));
    assert_eq!((setup.bitrate, setup.bitrate_mode), (i32::MAX, 2));
    assert_eq!((setup.profile, setup.level), (Some(8), Some(8)));
    assert_eq!((setup.qp_min, setup.qp_max), (None, Some(30)));
    assert_eq!(setup.colors.standard, Some(1));
    assert!(setup.prepend_headers);
    // The level that the control starts at is left to the codec.
    let at_default = EncoderConfig { level: Some(15), profile: Some(99), qp: None, ..c };
    match s.start(&at_default) {
        Ok(StartStep::Create(setup)) => {
            assert_eq!((setup.level, setup.profile), (None, None));
            assert_eq!((setup.qp_min, setup.qp_max), (None, None));
        }
        _ => panic!("no codec"),
    }
    assert_eq!(s.start(&EncoderConfig { coded_format: HEVC, ..c }), Err(22));
    assert_eq!(s.on_started(0, &c, Creation::Failed(CodecError::LibraryLoad)), Err(38));
    assert_eq!(s.on_started(0, &c, Creation::TimedOut), Err(110));
    assert_eq!(s.set_bitrate(5), Ok(None));
    assert_eq!(s.force_keyframe(), Ok(()));
    assert_eq!(s.on_started(0, &c, created()), Ok(()));
    assert_eq!(s.start(&c), Ok(StartStep::Running));
    assert_eq!(s.set_bitrate(5), Ok(Some(5)));
}

#[test]
fn the_layout_of_the_input() {
    let format = |color_format, stride, slice_height| InputFormat {
        color_format,
        stride,
        slice_height,
    };
    let l = input_layout(format(None, None, Some(16)), 21, 20, 10).unwrap();
    assert_eq!((l.color_format, l.stride, l.slice_height, l.semiplanar), (21, 20, 16, true));
    assert!(!input_layout(format(Some(19), Some(32), Some(16)), 21, 20, 10).unwrap().semiplanar);
    assert_eq!(
        input_layout(format(Some(5), None, None), 21, 20, 10),
        Err(LayoutError::ColorFormat)
    );
    assert_eq!(
        input_layout(format(None, None, None), 21, 20, 10),
        Err(LayoutError::NoSliceHeight)
    );
    assert_eq!(
        input_layout(format(None, Some(19), Some(10)), 21, 20, 10),
        Err(LayoutError::TooSmall)
    );
    assert_eq!(
        input_layout(format(None, Some(20), Some(9)), 21, 20, 10),
        Err(LayoutError::TooSmall)
    );
    assert_eq!(color_format_after(None), Some(21));
    assert_eq!(color_format_after(Some(21)), Some(0x7F42_0888));
    assert_eq!(color_format_after(Some(0x7F42_0888)), None);
    let mut s = MediaCodecEncoderSession::new(codecs());
    let refused = Creation::Done { format: format(None, None, None), requested: 21 };
    assert_eq!(s.on_started(0, &config(VideoHeaderMode::Separate), refused), Err(22));
}

#[test]
fn raw_frames_are_fed_in_order() {
    let mut s = running(VideoHeaderMode::Separate);
    let (layout, coded_size, visible) = s.packing();
    assert_eq!(layout.unwrap().frame_size(), 18);
    assert_eq!((coded_size, visible.width), ((4, 2), 4));
    s.encode(raw(1, 100)).unwrap();
    s.encode(raw(2, 200)).unwrap();
    s.drain().unwrap();
    assert_eq!(s.next_input(), None);
    for i in 7..11 {
        assert!(s.on_input_available(i, Some(18)));
    }
    assert_eq!(
        s.next_input(),
        Some(InputJob::Frame { index: 7, buffer: raw(1, 100), pts: 100, sync: false })
    );
    s.on_input(None);
    s.on_input(Some(CodecError::Ndk(-1)));
    assert_eq!(
        s.next_input(),
        Some(InputJob::Frame { index: 9, buffer: raw(2, 200), pts: 200, sync: false })
    );
    s.on_input(None);
    assert_eq!(s.next_input(), Some(InputJob::Eos { index: 10 }));
    s.on_input(None);
    assert_eq!(
        s.take_events(),
        vec![EncoderEvent::InputBufferDone(1), EncoderEvent::InputBufferDone(2)]
    );
    s.encode(raw(3, 300)).unwrap();
    s.on_input_available(11, None);
    assert_eq!(s.next_input(), None);
}

#[test]
fn a_forced_keyframe_is_the_next_frame() {
    let mut s = MediaCodecEncoderSession::new(codecs());
    // Without a codec there is nothing to ask: the first frame is a keyframe.
    assert_eq!(s.force_keyframe(), Ok(()));
    assert_eq!(s.on_started(0, &config(VideoHeaderMode::Separate), created()), Ok(()));
    s.encode(raw(1, 100)).unwrap();
    s.encode(raw(2, 200)).unwrap();
    s.encode(raw(3, 300)).unwrap();
    s.on_input_available(7, Some(18));
    let frame = |index, buffer, pts, sync| Some(InputJob::Frame { index, buffer, pts, sync });
    assert_eq!(s.next_input(), frame(7, raw(1, 100), 100, false));
    s.on_input(None);
    assert_eq!(s.force_keyframe(), Ok(()));
    assert_eq!(s.next_input(), None);
    s.on_input_available(8, Some(18));
    assert_eq!(s.next_input(), frame(8, raw(2, 200), 200, true));
    s.on_input(Some(CodecError::Ndk(-1)));
    s.on_input_available(9, Some(18));
    assert_eq!(s.next_input(), frame(9, raw(2, 200), 200, true));
    s.on_input(None);
    s.on_input_available(10, Some(18));
    assert_eq!(s.next_input(), frame(10, raw(3, 300), 300, false));
}

#[test]
fn headers_in_a_buffer_of_their_own() {
    let mut s = running(VideoHeaderMode::Separate);
    s.on_input_available(0, Some(100));
    s.encode(raw(1, 100)).unwrap();
    s.on_input(None);
    s.take_events();
    s.on_output(coded(HEADERS, 3, 7), &[9, 8, 7, 6], None);
    s.on_output(coded(KEY, 2, 100), &[1, 2, 3], None);
    assert!(s.next_write().is_none());
    s.use_as_capture(OutputBuffer { index: 5, len: 10 }).unwrap();
    s.use_as_capture(OutputBuffer { index: 6, len: 10 }).unwrap();
    let job = s.next_write().unwrap();
    assert_eq!((job.capture.index, job.bytes), (5, vec![9, 8, 7]));
    let job = s.next_write().unwrap();
    assert_eq!((job.capture.index, job.bytes), (6, vec![1, 2]));
    assert_eq!(
        s.take_events(),
        vec![
            encoded(5, 3, 100, FrameKind::Headers, false),
            encoded(6, 2, 100, FrameKind::Key, false),
        ]
    );
}

#[test]
fn headers_in_front_of_the_first_frame() {
    let mut s = running(VideoHeaderMode::JoinedWith1stFrame);
    s.on_output(coded(HEADERS, 2, 0), &[9, 8], None);
    s.on_output(coded(KEY, 2, 5), &[1, 2], None);
    s.on_output(coded(0, 1, 6), &[3], None);
    s.on_output(coded(END, 0, 7), &[], None);
    for i in 0..4 {
        s.use_as_capture(OutputBuffer { index: i, len: 3 + i as usize }).unwrap();
    }
    assert_eq!(s.next_write().unwrap().bytes, vec![9, 8, 1, 2]);
    assert_eq!(s.next_write().unwrap().bytes, vec![3]);
    assert!(s.next_write().unwrap().bytes.is_empty());
    assert!(s.next_write().is_none());
    assert_eq!(
        s.take_events(),
        vec![
            encoded(1, 4, 5, FrameKind::Key, false),
            encoded(0, 1, 6, FrameKind::Inter, false),
            encoded(2, 0, 7, FrameKind::Inter, true),
        ]
    );
    // A frame that starts with them has them once.
    let mut s = running(VideoHeaderMode::JoinedWith1stFrame);
    s.on_output(coded(HEADERS, 2, 0), &[9, 8], None);
    s.on_output(coded(KEY | END, 4, 5), &[9, 8, 1, 2], None);
    s.use_as_capture(OutputBuffer { index: 1, len: 9 }).unwrap();
    assert_eq!(s.next_write().unwrap().bytes, vec![9, 8, 1, 2]);
    assert_eq!(s.take_events(), vec![encoded(1, 4, 5, FrameKind::Key, true)]);
}

#[test]
fn headers_that_end_the_stream() {
    let mut s = running(VideoHeaderMode::Separate);
    s.on_output(coded(HEADERS | END, 2, 3), &[9, 8], None);
    s.use_as_capture(OutputBuffer { index: 1, len: 9 }).unwrap();
    s.use_as_capture(OutputBuffer { index: 2, len: 9 }).unwrap();
    assert_eq!(s.next_write().unwrap().bytes, vec![9, 8]);
    assert!(s.next_write().unwrap().bytes.is_empty());
    assert_eq!(
        s.take_events(),
        vec![
            encoded(1, 2, 3, FrameKind::Headers, false),
            encoded(2, 0, 3, FrameKind::Inter, true),
        ]
    );
}

#[test]
fn a_frame_that_no_buffer_holds_ends_the_session() {
    let mut s = running(VideoHeaderMode::Separate);
    s.on_output(coded(KEY, 5, 0), &[1; 5], None);
    s.use_as_capture(OutputBuffer { index: 1, len: 4 }).unwrap();
    assert!(s.next_write().is_none());
    assert_eq!(s.take_events(), vec![EncoderEvent::Error(Fault::CaptureTooSmall)]);
    assert!(s.is_dead());
    assert_eq!(s.encode(raw(1, 0)), Err(19));
    assert_eq!(s.use_as_capture(OutputBuffer { index: 1, len: 4 }), Err(19));
    assert_eq!(s.set_bitrate(1), Err(19));
    assert_eq!(s.force_keyframe(), Err(19));
    assert_eq!(s.drain(), Err(19));
    s.on_error(4);
    assert_eq!(s.event_count(), 0);
}

#[test]
fn what_else_ends_an_encode() {
    let mut s = running(VideoHeaderMode::Separate);
    assert!(!s.on_input_available(1, Some(17)));
    assert_eq!(s.take_events(), vec![EncoderEvent::Error(Fault::InputTooSmall)]);
    for e in [CodecError::Fill, CodecError::BufferTooSmall] {
        let mut s = running(VideoHeaderMode::Separate);
        s.on_input_available(1, None);
        s.encode(raw(1, 0)).unwrap();
        s.on_input(Some(e));
        assert_eq!(s.take_events(), vec![EncoderEvent::Error(Fault::Pack)]);
    }
    let mut s = running(VideoHeaderMode::Separate);
    for _ in 0..64 {
        s.on_output_refused(CodecError::Other);
    }
    s.on_output_refused(CodecError::NullCodec);
    assert!(!s.is_dead());
    s.on_output(coded(0, 0, 0), &[], Some(CodecError::Other));
    assert_eq!(s.take_events(), vec![EncoderEvent::Error(Fault::Refused(65))]);
    let mut s = running(VideoHeaderMode::Separate);
    s.on_error(-38);
    assert_eq!(s.take_events(), vec![EncoderEvent::Error(Fault::Codec(-38))]);
}

#[test]
fn held_output_holds_input_back() {
    let mut s = running(VideoHeaderMode::Separate);
    s.on_input_available(1, None);
    s.encode(raw(1, 0)).unwrap();
    for _ in 0..32 {
        assert!(s.next_input().is_some());
        s.on_output(coded(0, 1, 0), &[1], None);
    }
    assert!(s.next_input().is_none());
    s.use_as_capture(OutputBuffer { index: 0, len: 1 }).unwrap();
    assert!(s.next_write().is_some());
    assert!(s.next_input().is_some());
}

#[test]
fn a_flush_keeps_what_was_coded() {
    let mut s = running(VideoHeaderMode::Separate);
    s.on_input_available(1, None);
    s.encode(raw(1, 0)).unwrap();
    s.on_input(None);
    s.encode(raw(2, 0)).unwrap();
    s.on_output(coded(0, 1, 0), &[1], None);
    assert!(s.flush());
    assert_eq!(s.event_count(), 0);
    assert_eq!(s.on_flushed(Outcome::Done), Ok(()));
    s.on_input_available(1, None);
    assert_eq!(s.next_input(), None);
    s.use_as_capture(OutputBuffer { index: 0, len: 1 }).unwrap();
    assert_eq!(s.next_write().unwrap().bytes, vec![1]);
    assert!(s.stop());
    assert_eq!(s.event_count(), 0);
    assert!(!s.stop());
    let mut s = running(VideoHeaderMode::Separate);
    s.flush();
    assert_eq!(s.on_flushed(Outcome::TimedOut), Err(110));
    assert_eq!(s.take_events(), vec![EncoderEvent::Error(Fault::FlushTimedOut)]);
    let mut s = running(VideoHeaderMode::Separate);
    s.flush();
    assert_eq!(s.on_flushed(Outcome::Failed(CodecError::Null)), Err(5));
    assert_eq!(s.take_events(), vec![EncoderEvent::Error(Fault::FlushFailed)]);
}
