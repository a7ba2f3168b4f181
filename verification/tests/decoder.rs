use droidvm::codec::{
    CodecError, CodecFeature, CodecInfo, CodecKind, CodecType, SizeRange, Timeval, H264, HEVC,
};
use droidvm::decoder::{
    copy_row, feed, image_for, row_place, AccessUnit, BufferInfo, ChosenCodec, CodecEvent, CopyJob, Crop,
    DecoderEvent, DecoderSetup, Fault, FrameFormat, Image, ImageData, ImageInfo, InputBuffer,
    InputJob, Layout, MediaCodecDecoderBackend, MediaCodecDecoderSession, Outcome, OutputBuffer,
    OutputFormat, OutputJob, Rect, StartStep,
};

fn info(name: &str, mime: &str, features: &[&str]) -> CodecInfo {
    CodecInfo {
        name: name.to_owned(),
        mime: mime.to_owned(),
        kind: CodecKind::Decoder,
        codec_type: CodecType::HardwareAccelerated,
        is_vendor: true,
        features: features
            .iter()
            .map(|f| CodecFeature { feature: f.to_string(), supported: true, required: false })
            .collect(),
        video: None,
        encoder: None,
        profiles: Vec::new(),
    }
}

fn codecs() -> Vec<ChosenCodec> {
    vec![ChosenCodec {
        fourcc: H264,
        mime: "video/avc".to_owned(),
        name: "c2.qti.avc.decoder".to_owned(),
        hardware: true,
        vendor: true,
        low_latency: true,
    }]
}

fn running() -> MediaCodecDecoderSession {
    let mut s = MediaCodecDecoderSession::new(codecs());
    assert_eq!(s.on_started(0, Outcome::Done), Ok(()));
    s
}

fn bitstream(index: u32, len: usize) -> InputBuffer {
    InputBuffer { index, len, timestamp: Timeval { tv_sec: 1, tv_usec: 2 } }
}

fn output(index: i32, size: i32, flags: u32) -> CodecEvent {
    CodecEvent::OutputAvailable { index, info: BufferInfo { size, flags, pts_us: 1_000_002 } }
}

fn size(width: i32, height: i32) -> OutputFormat {
    OutputFormat { width, height, crop: None }
}

fn semiplanar(width: i32, height: i32) -> FrameFormat {
    FrameFormat {
        width,
        height,
        stride: None,
        slice_height: None,
        image: ImageInfo::Absent,
    }
}

fn changed(width: u32, height: u32) -> DecoderEvent {
    DecoderEvent::FormatChanged {
        width,
        height,
        visible: Rect { left: 0, top: 0, width, height },
        min_capture_buffers: 4,
    }
}

#[test]
fn a_codec_is_offered_for_each_format() {
    let list = vec![
        info("c2.qti.avc.decoder", "video/avc", &[]),
        info("c2.qti.avc.decoder.low_latency", "video/avc", &[]),
        info("c2.qti.hevc.decoder", "video/hevc", &["low-latency"]),
    ];
    let b = MediaCodecDecoderBackend::new(&list, false);
    assert_eq!(b.coded_formats.len(), 2);
    assert_eq!(b.codecs.len(), 2);
    assert_eq!(b.coded_formats[0].fourcc, H264);
    assert!(b.coded_formats[0].dynamic_resolution);
    assert_eq!(b.coded_formats[0].width, SizeRange { min: 16, max: 4096, step: 2 });
    assert_eq!(b.codecs[0].name, "c2.qti.avc.decoder");
    assert!(!b.codecs[0].low_latency);
    assert_eq!(b.coded_formats[1].fourcc, HEVC);
    assert!(b.coded_formats[1].dynamic_resolution);
    assert!(b.codecs[1].low_latency && b.codecs[1].hardware && b.codecs[1].vendor);
}

#[test]
fn a_session_starts_with_the_codec_of_its_format() {
    let mut s = MediaCodecDecoderSession::new(codecs());
    assert_eq!(s.decode(), Err(22));
    assert_eq!(s.start(HEVC, (640, 480)), Err(22));
    assert_eq!(
        s.start(H264, (1920, u32::MAX)),
        Ok(StartStep::Create(DecoderSetup {
            codec: 0,
            width: 1920,
            height: i32::MAX,
            max_input_size: i32::MAX,
            low_latency: true,
        }))
    );
    assert_eq!(s.on_started(0, Outcome::Failed(CodecError::NullCodec)), Err(19));
    assert_eq!(s.on_started(0, Outcome::TimedOut), Err(110));
    assert_eq!(s.on_started(0, Outcome::Done), Ok(()));
    assert_eq!(s.start(HEVC, (1, 1)), Ok(StartStep::Running));
    assert_eq!(s.decode(), Ok(false));
    s.on_event(CodecEvent::Error(-1));
    assert!(s.is_dead());
    assert_eq!(s.decode(), Err(19));
    assert_eq!(s.drain(), Err(19));
    assert_eq!(s.use_as_capture(OutputBuffer { index: 1, len: 9 }), Err(19));
    s.stop();
    assert_eq!(s.start(H264, (1, 1)), Err(19));
}

#[test]
fn a_buffer_that_is_too_long_is_fed_in_parts() {
    let mut s = running();
    s.queue(bitstream(5, 100));
    assert_eq!(s.next_input(), None);
    s.on_event(CodecEvent::InputAvailable(8));
    s.on_event(CodecEvent::InputAvailable(9));
    let buffer = bitstream(5, 100);
    assert_eq!(
        s.next_input(),
        Some(InputJob::Feed { index: 8, buffer, start: 0, pts: 1_000_002 })
    );
    s.on_input(Ok(60));
    assert_eq!(s.event_count(), 0);
    assert_eq!(
        s.next_input(),
        Some(InputJob::Feed { index: 9, buffer, start: 60, pts: 1_000_002 })
    );
    s.on_input(Ok(40));
    assert_eq!(s.take_events(), vec![DecoderEvent::InputBufferDone(5)]);
    assert_eq!(s.next_input(), None);
}

#[test]
fn the_end_of_the_stream_is_fed_last() {
    let mut s = running();
    s.queue(bitstream(1, 10));
    assert_eq!(s.drain(), Ok(()));
    assert_eq!(s.drain(), Ok(()));
    s.on_event(CodecEvent::InputAvailable(0));
    s.on_event(CodecEvent::InputAvailable(1));
    s.on_event(CodecEvent::InputAvailable(2));
    s.on_input(Ok(10));
    assert_eq!(s.next_input(), Some(InputJob::Eos { index: 1 }));
    s.on_input(Ok(0));
    s.queue(bitstream(2, 10));
    assert_eq!(s.next_input(), None);
    assert!(!s.wants_restart());
    s.on_event(output(3, 0, 4));
    assert_eq!(s.next_output(), OutputJob::Idle);
    s.use_as_capture(OutputBuffer { index: 7, len: 6 }).unwrap();
    assert_eq!(
        s.next_output(),
        OutputJob::ReleaseLast { index: 3, capture: OutputBuffer { index: 7, len: 6 } }
    );
    s.on_last_released(None);
    assert_eq!(
        s.take_events(),
        vec![
            DecoderEvent::InputBufferDone(1),
            DecoderEvent::FrameDecoded {
                index: 7,
                bytesused: 0,
                timestamp: Timeval { tv_sec: 1, tv_usec: 2 },
                is_last: true,
            },
        ]
    );
    assert!(s.wants_restart());
    assert_eq!(s.decode(), Ok(true));
    assert!(s.flush_codec());
    assert_eq!(s.on_flushed(Outcome::Done), Ok(()));
    assert!(!s.wants_restart());
    s.on_event(CodecEvent::InputAvailable(4));
    assert!(s.next_input().is_some());
}

#[test]
fn a_frame_goes_to_the_first_buffer_that_holds_it() {
    let mut s = running();
    s.on_event(CodecEvent::FormatChanged(Some(size(4, 2))));
    s.on_event(CodecEvent::FormatChanged(Some(size(4, 2))));
    assert_eq!(s.take_events(), vec![changed(4, 2)]);
    s.on_event(output(11, 12, 0));
    s.on_event(CodecEvent::FormatChanged(Some(size(8, 2))));
    assert_eq!(s.next_output(), OutputJob::Inspect { index: 11 });
    s.use_as_capture(OutputBuffer { index: 0, len: 11 }).unwrap();
    assert_eq!(s.on_inspected(semiplanar(4, 2), 12), None);
    s.use_as_capture(OutputBuffer { index: 1, len: 12 }).unwrap();
    let job = s.on_inspected(semiplanar(4, 2), 12).unwrap();
    assert_eq!(
        job,
        CopyJob {
            index: 11,
            capture: OutputBuffer { index: 1, len: 12 },
            image: Image {
                width: 4,
                height: 2,
                layout: Layout::SemiPlanar { stride: 4, slice_height: 2 },
            },
            canvas_width: 4,
            canvas_height: 2,
        }
    );
    assert_eq!(row_place(&job, 1), (4, 4));
    assert_eq!(row_place(&job, 2), (8, 4));
    // The new size is announced when the frame before it is out.
    assert_eq!(s.event_count(), 0);
    s.on_copied(job, true, None);
    assert_eq!(s.next_output(), OutputJob::Idle);
    assert_eq!(
        s.take_events(),
        vec![
            DecoderEvent::FrameDecoded {
                index: 1,
                bytesused: 12,
                timestamp: Timeval { tv_sec: 1, tv_usec: 2 },
                is_last: false,
            },
            changed(8, 2),
        ]
    );
}

#[test]
fn outputs_that_hold_no_frame_are_given_back() {
    let mut s = running();
    s.on_event(output(1, 0, 0));
    s.on_event(output(2, 30, 2));
    assert_eq!(s.next_output(), OutputJob::Release { index: 1 });
    s.on_released(None);
    assert_eq!(s.next_output(), OutputJob::Release { index: 2 });
    s.on_released(Some(CodecError::Null));
    assert_eq!(s.next_output(), OutputJob::Idle);
    assert_eq!(s.event_count(), 0);
}

#[test]
fn a_larger_picture_is_announced_before_it_is_copied() {
    let mut s = running();
    s.on_event(output(1, 24, 0));
    s.use_as_capture(OutputBuffer { index: 3, len: 100 }).unwrap();
    assert_eq!(s.next_output(), OutputJob::Inspect { index: 1 });
    let job = s.on_inspected(semiplanar(4, 4), 24).unwrap();
    assert_eq!((job.canvas_width, job.canvas_height), (4, 4));
    assert_eq!(s.take_events(), vec![changed(4, 4)]);
    s.on_copied(job, false, None);
    assert_eq!(s.take_events(), vec![DecoderEvent::Error(Fault::Repack)]);
    assert!(s.is_dead());
}

#[test]
fn a_codec_that_refuses_too_much_ends_the_session() {
    let mut s = running();
    for i in 0..70 {
        s.on_event(CodecEvent::InputAvailable(i));
    }
    s.queue(bitstream(1, 10));
    s.on_input(Err(CodecError::Null));
    for _ in 0..64 {
        s.on_input(Err(CodecError::Ndk(-1)));
        assert!(!s.is_dead());
    }
    s.on_input(Err(CodecError::Ndk(-1)));
    assert!(s.is_dead());
    s.on_event(CodecEvent::Error(3));
    assert_eq!(s.take_events(), vec![DecoderEvent::Error(Fault::Refused(65))]);
    let mut s = running();
    s.on_event(output(1, 10, 0));
    s.on_not_inspected(CodecError::Ndk(-1));
    assert_eq!(s.next_output(), OutputJob::Idle);
    assert!(!s.is_dead());
}

#[test]
fn a_flush_forgets_what_was_queued() {
    let mut s = running();
    for i in 0..3 {
        s.on_event(CodecEvent::InputAvailable(i));
    }
    s.queue(bitstream(1, 10));
    s.queue(bitstream(2, 10));
    s.on_input(Ok(10));
    s.on_event(CodecEvent::FormatChanged(Some(size(4, 2))));
    s.on_event(output(9, 10, 0));
    assert!(s.flush());
    assert_eq!(s.take_events(), vec![changed(4, 2)]);
    assert_eq!(s.next_output(), OutputJob::Idle);
    assert!(!s.flush());
    assert_eq!(s.on_flushed(Outcome::TimedOut), Err(110));
    assert_eq!(s.take_events(), vec![DecoderEvent::Error(Fault::FlushTimedOut)]);
    let mut s = running();
    s.flush();
    assert_eq!(s.on_flushed(Outcome::Failed(CodecError::Ndk(1100))), Err(16));
    assert_eq!(s.take_events(), vec![DecoderEvent::Error(Fault::FlushFailed)]);
}

#[test]
fn captures_that_are_taken_back_take_the_outputs_along() {
    let mut s = running();
    s.on_event(output(5, 10, 0));
    s.on_event(CodecEvent::FormatChanged(Some(size(6, 6))));
    s.on_event(output(6, 10, 0));
    s.use_as_capture(OutputBuffer { index: 0, len: 100 }).unwrap();
    assert_eq!(s.clear_capture_buffers(), vec![5, 6]);
    assert_eq!(s.take_events(), vec![changed(6, 6)]);
    assert!(s.stop());
    assert!(!s.stop());
}

#[test]
fn what_is_seen_of_a_frame() {
    let mut s = running();
    let crop = |left, top, right, bottom| Some(Crop { left, top, right, bottom });
    for (format, want) in [
        (OutputFormat { crop: crop(8, 8, 17, 12), ..size(20, 20) }, Some((10, 5))),
        (OutputFormat { crop: crop(0, 0, 99, 99), ..size(20, 20) }, Some((20, 20))),
        (OutputFormat { crop: crop(9, 0, 8, 9), ..size(21, 20) }, Some((21, 20))),
        (size(0, 5), None),
        (size(5, -1), None),
    ] {
        s.on_event(CodecEvent::FormatChanged(Some(format)));
        let seen = s.take_events().first().map(|e| match e {
            DecoderEvent::FormatChanged { visible, .. } => (visible.width, visible.height),
            _ => panic!("no format"),
        });
        assert_eq!(seen, want);
    }
    s.on_event(CodecEvent::FormatChanged(None));
    assert_eq!(s.event_count(), 0);
}

#[test]
fn the_layout_of_a_frame() {
    let data = ImageData { width: 4, height: 2, offset: 8, required: 30, rebased: 22 };
    let format = FrameFormat { image: ImageInfo::Data(data), ..semiplanar(0, 0) };
    let image = |layout| Ok(Image { width: 4, height: 2, layout });
    assert_eq!(image_for(format, 30), image(Layout::AsWritten));
    assert_eq!(image_for(format, 29), image(Layout::Rebased));
    assert_eq!(image_for(format, 21), Err(Fault::ImageTooLarge));
    let at_start = ImageInfo::Data(ImageData { offset: 0, ..data });
    let format = FrameFormat { image: at_start, ..format };
    assert_eq!(image_for(format, 1), image(Layout::AsWritten));
    let format = FrameFormat { image: ImageInfo::Unreadable, ..format };
    assert_eq!(image_for(format, 99), Err(Fault::ImageData));
    let format = FrameFormat { stride: Some(-1), slice_height: Some(5), ..semiplanar(4, -2) };
    assert_eq!(
        image_for(format, 0),
        Ok(Image {
            width: 4,
            height: 0,
            layout: Layout::SemiPlanar { stride: 0, slice_height: 5 },
        })
    );
}

#[test]
fn what_a_buffer_is_fed_with() {
    let sets = AccessUnit { has_picture: false, has_parameter_sets: true };
    let picture = AccessUnit { has_picture: true, has_parameter_sets: false };
    let other = AccessUnit { has_picture: false, has_parameter_sets: false };
    assert_eq!(feed(0, 100, 60, &vec![sets]), (60, 8));
    assert_eq!(feed(0, 100, 100, &vec![sets, other]), (100, 2));
    assert_eq!(feed(0, 100, 200, &vec![sets, picture]), (100, 0));
    assert_eq!(feed(5, 100, 200, &vec![sets]), (100, 0));
    assert_eq!(feed(0, 100, 200, &vec![other]), (100, 0));
    assert_eq!(feed(0, 0, 0, &vec![]), (0, 0));
}

#[test]
fn rows_land_on_a_larger_canvas() {
    let job = CopyJob {
        index: 1,
        capture: OutputBuffer { index: 0, len: 24 },
        image: Image {
            width: 3,
            height: 2,
            layout: Layout::SemiPlanar { stride: 4, slice_height: 2 },
        },
        canvas_width: 4,
        canvas_height: 4,
    };
    let mut canvas = vec![0u8; 24];
    // A row that is longer than the picture is wide gives no more than the picture's part.
    copy_row(&job, 0, &[1, 2, 3, 9], &mut canvas);
    copy_row(&job, 1, &[4, 5, 6], &mut canvas);
    copy_row(&job, 2, &[7, 8, 7, 8], &mut canvas);
    assert_eq!(
        canvas,
        vec![1, 2, 3, 0, 4, 5, 6, 0, 0, 0, 0, 0, 0, 0, 0, 0, 7, 8, 7, 8, 0, 0, 0, 0]
    );
}
