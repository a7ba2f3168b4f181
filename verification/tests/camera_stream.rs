use droidvm::camera::{AfMode, Facts, HostCamera, NoCamera};
use droidvm::camera_control::{
    Applied, CameraControl, Entry, ExposureMode, Geometry, RequestUpdate, Setting,
};
use droidvm::camera_stream::{
    errno_for, AndroidCameraBackend, AndroidCameraStream, CameraError, Command, EmptyBuffer,
    FilledBuffer, OpenFailure, OpenOutcome, Step, StreamRequest,
};

fn camera(yuv_sizes: Vec<(i32, i32)>) -> HostCamera {
    HostCamera {
        id: "0".to_owned(),
        facing: "back".to_owned(),
        is_back: true,
        yuv_sizes,
        yuv_min_frame_durations: Vec::new(),
        fps_ranges: Vec::new(),
        zoom_hundredths: None,
        af_modes: Vec::new(),
        flash_available: false,
        ae_modes: Vec::new(),
        exposure_time_range_ns: None,
        sensitivity_range: None,
        ae_compensation_range: None,
        ae_compensation_step: None,
        awb_modes: Vec::new(),
        antibanding_modes: Vec::new(),
        effects: Vec::new(),
        scene_modes: Vec::new(),
        video_stabilization_modes: Vec::new(),
        max_regions: (0, 0, 0),
        active_array: None,
        physical_ids: Vec::new(),
    }
}

fn facts() -> Facts {
    Facts {
        active_array: None,
        af_continuous: AfMode::ContinuousVideo,
        af_single: AfMode::Auto,
        awb: Vec::new(),
        effects: Vec::new(),
        scenes: Vec::new(),
    }
}

const GEOMETRY: Geometry = Geometry { active_array: None, width: 4, height: 4, scale: 10 };

fn values(update: &RequestUpdate) -> Vec<Setting> {
    update
        .entries
        .iter()
        .map(|e| match e {
            Entry::Value(s) => *s,
            Entry::Regions(_, _) => panic!("regions"),
        })
        .collect()
}

fn lend(s: &mut AndroidCameraStream, index: u32) {
    let buffer = EmptyBuffer { index, len: 24, stride: 4 };
    assert!(matches!(s.on_command(Command::Lend(buffer), &facts(), &GEOMETRY), Step::Done));
}

#[test]
fn why_a_camera_would_not_open() {
    for code in [-10010, -10011] {
        assert_eq!(errno_for(CameraError::Ndk(code)), 16);
    }
    for code in [-10012, -10013] {
        assert_eq!(errno_for(CameraError::Ndk(code)), 13);
    }
    assert_eq!(errno_for(CameraError::Ndk(-10002)), 19);
    assert_eq!(errno_for(CameraError::Ndk(-10000)), 5);
    assert_eq!(errno_for(CameraError::NoSuchCamera), 19);
    assert_eq!(errno_for(CameraError::BadCameraId), 19);
    assert_eq!(errno_for(CameraError::UnsupportedSize), 22);
    assert_eq!(errno_for(CameraError::LibraryLoad), 38);
    assert_eq!(errno_for(CameraError::MissingSymbol), 38);
    assert_eq!(errno_for(CameraError::Other), 5);
}

#[test]
fn a_backend_needs_a_camera_with_a_size() {
    assert_eq!(AndroidCameraBackend::new(&Vec::new(), None).err(), Some(NoCamera::NoneListed));
    let list = vec![camera(vec![(0, 0)])];
    assert_eq!(AndroidCameraBackend::new(&list, None).err(), Some(NoCamera::NoSize));
    assert_eq!(AndroidCameraBackend::new(&list, Some("7")).err(), Some(NoCamera::NotListed));
    let b = AndroidCameraBackend::new(&vec![camera(vec![(4, 4)])], Some("0")).ok().unwrap();
    assert_eq!(b.info().name, "Camera 0 (back)");
    assert_eq!(b.facts().af_single, AfMode::Off);
    assert!(!b.set_controls());
}

#[test]
fn a_stream_is_opened_with_every_control() {
    let mut b = AndroidCameraBackend::new(&vec![camera(vec![(4, 4)])], None).ok().unwrap();
    let mut request = StreamRequest {
        width: 4,
        height: 4,
        fps: (15, 30),
        buffers: 1,
        controls: vec![
            CameraControl::Zoom(100),
            CameraControl::ExposureMode(ExposureMode::Manual),
        ],
    };
    let o = b.open_stream(&request, 10);
    assert_eq!(o.depth, 3);
    assert_eq!(o.geometry, GEOMETRY);
    assert_eq!(o.applied.fps_min, 15);
    assert!(o.applied.manual());
    let entries = values(&o.update);
    assert_eq!(entries[0], Setting::Zoom(100));
    assert_eq!(*entries.last().unwrap(), Setting::FpsRange(15, 30));
    assert!(b.set_controls());
    request.buffers = 5;
    assert_eq!(b.open_stream(&request, 10).depth, 5);
    request.buffers = 32;
    assert_eq!(b.open_stream(&request, 10).depth, 8);
    assert_eq!(b.on_opened(OpenOutcome::Opened), Ok(()));
    assert!(b.set_controls());
    for (outcome, errno, join) in [
        (OpenOutcome::Failed(CameraError::NoSuchCamera), 19, true),
        (OpenOutcome::Died, 5, true),
        (OpenOutcome::TimedOut, 110, false),
    ] {
        b.open_stream(&request, 10);
        assert_eq!(b.on_opened(outcome), Err(OpenFailure { errno, join }));
        assert!(!b.set_controls());
    }
    assert_eq!(
        b.on_opened(OpenOutcome::NoThread),
        Err(OpenFailure { errno: 11, join: false })
    );
}

#[test]
fn a_jump_in_the_numbers_tells_what_was_lost() {
    let mut s = AndroidCameraStream::new(Applied::new());
    assert!(!s.has_buffer());
    lend(&mut s, 7);
    lend(&mut s, 8);
    assert!(s.has_buffer());
    let b = s.on_frame();
    assert_eq!(b.index, 7);
    assert_eq!(
        s.on_copied(b, 24, 99),
        FilledBuffer { index: 7, bytesused: 24, timestamp_ns: 99, sequence: 0 }
    );
    for _ in 0..3 {
        s.on_let_go();
    }
    let b = s.on_frame();
    assert_eq!(s.on_copied(b, 24, 100).sequence, 4);
    assert_eq!(s.sequence(), 5);
}

#[test]
fn a_stall_is_mentioned_ever_more_rarely() {
    let mut s = AndroidCameraStream::new(Applied::new());
    let mut said = Vec::new();
    for wait in 1..=300 {
        let (report, stalled) = s.on_no_frame();
        if report {
            said.push((wait, stalled));
        }
    }
    assert_eq!(
        said,
        vec![(40, 2_000_000_000), (120, 4_000_000_000), (280, 8_000_000_000)]
    );
    lend(&mut s, 1);
    s.on_frame();
    for wait in 1..=40 {
        assert_eq!(s.on_no_frame().0, wait == 40);
    }
}

#[test]
fn controls_of_a_stream_are_one_request() {
    let mut s = AndroidCameraStream::new(Applied::new());
    let controls = vec![CameraControl::Zoom(5), CameraControl::FpsRange(10, 20)];
    match s.on_command(Command::Controls(controls), &facts(), &GEOMETRY) {
        Step::Apply(update) => {
            assert_eq!(values(&update), vec![Setting::Zoom(5), Setting::FpsRange(10, 20)])
        }
        _ => panic!("no request"),
    }
    assert!(matches!(s.on_command(Command::Stop, &facts(), &GEOMETRY), Step::Finish));
}
