use droidvm::camera::{
    AfMode, AntibandingMode, AwbMode, ColorEffect, EffectMode, Facts, HostAeMode, HostScene,
    PowerLine, SceneMode, SensorRect, VideoStabilizationMode, WhiteBalance,
};
use droidvm::camera_control::{
    af_status_of, build_update, AeState, AfState, AfStatus, AfTrigger, Applied, Area,
    CameraControl, CaptureResult, ControlMode, Entry, ExposureMode, FlashLed, FlashMode, Geometry,
    IsoMode, LastReported, Metering, ModeEcho, Region, RequestUpdate, Setting, Verdict,
};

const SCALE: u32 = 10_000;

fn facts() -> Facts {
    Facts {
        active_array: None,
        af_continuous: AfMode::ContinuousVideo,
        af_single: AfMode::Auto,
        awb: vec![(WhiteBalance::Shade, AwbMode::Shade)],
        effects: vec![(ColorEffect::Sepia, EffectMode::Sepia)],
        scenes: vec![
            (SceneMode::NoScene, HostScene::Disabled),
            (SceneMode::Night, HostScene::Night),
        ],
    }
}

fn geometry(left: i32, top: i32, width: i32, height: i32) -> Geometry {
    Geometry {
        active_array: Some(SensorRect { left, top, width, height }),
        width: 1600,
        height: 900,
        scale: SCALE,
    }
}

fn region(x: u32, y: u32, width: u32, height: u32) -> Region {
    Region { x, y, width, height, weight: 7, set: true }
}

fn values(update: &RequestUpdate) -> Vec<Setting> {
    update
        .entries
        .iter()
        .map(|e| match e {
            Entry::Value(s) => *s,
            Entry::Regions(_, _) => panic!("regions"),
        })
        .collect()
}

fn build(controls: Vec<CameraControl>) -> (RequestUpdate, Applied) {
    let mut applied = Applied::new();
    let g = geometry(0, 0, 4000, 3000);
    let update = build_update(&facts(), &g, &mut applied, &controls);
    (update, applied)
}

fn nothing() -> CaptureResult {
    CaptureResult {
        af_state: None,
        ae_state: None,
        physical_id: None,
        zoom: None,
        awb_mode: None,
        effect_mode: None,
        scene_mode: None,
        control_mode: None,
    }
}

#[test]
fn the_whole_frame_is_the_middle_of_the_array() {
    // A 16:9 frame of a 4:3 array leaves out bands above and below.
    let g = geometry(8, 16, 4000, 3000);
    assert_eq!(
        g.area(&region(0, 0, SCALE, SCALE)),
        Some(Area { xmin: 8, ymin: 391, xmax: 4008, ymax: 2641, weight: 7 })
    );
    assert_eq!(
        g.area(&region(5000, 5000, 2500, 1)),
        Some(Area { xmin: 2008, ymin: 1516, xmax: 3008, ymax: 1517, weight: 7 })
    );
    // And of a wide one, bands at the sides.
    let g = geometry(0, 0, 4000, 900);
    assert_eq!(
        g.area(&region(0, 0, SCALE, SCALE)),
        Some(Area { xmin: 1200, ymin: 0, xmax: 2800, ymax: 900, weight: 7 })
    );
}

#[test]
fn a_region_at_the_far_edge_is_not_empty() {
    let g = geometry(0, 0, 4000, 900);
    assert_eq!(
        g.area(&region(u32::MAX, u32::MAX, 5, 5)),
        Some(Area { xmin: 2800, ymin: 900, xmax: 2801, ymax: 901, weight: 7 })
    );
    let far = geometry(i32::MAX, i32::MIN, i32::MAX, 1);
    let a = far.area(&region(SCALE, 0, 0, 0)).unwrap();
    assert_eq!((a.xmin, a.xmax), (i32::MAX, i32::MAX));
}

#[test]
fn regions_without_a_place() {
    let g = geometry(0, 0, 4000, 3000);
    assert_eq!(g.area(&Region { set: false, ..region(0, 0, 1, 1) }), None);
    assert_eq!(Geometry { active_array: None, ..g }.area(&region(0, 0, 1, 1)), None);
    assert_eq!(Geometry { width: 0, ..g }.area(&region(0, 0, 1, 1)), None);
    assert_eq!(geometry(0, 0, 0, 5).area(&region(0, 0, 1, 1)), None);
}

#[test]
fn either_switch_turns_the_automatic_exposure_off() {
    let auto = Applied::new();
    assert!(!auto.manual());
    assert_eq!(auto.ae(), (HostAeMode::On, FlashMode::Off));
    let by_time = Applied { exposure: ExposureMode::Manual, ..auto };
    let by_iso = Applied { iso: IsoMode::Manual, flash: FlashLed::Torch, ..auto };
    assert_eq!(by_time.ae(), (HostAeMode::Off, FlashMode::Off));
    assert_eq!(by_iso.ae(), (HostAeMode::Off, FlashMode::Torch));
    assert_eq!(Applied { flash: FlashLed::Flash, ..auto }.ae().1, FlashMode::Off);
}

#[test]
fn a_long_exposure_is_no_stall() {
    let auto = Applied::new();
    assert_eq!(auto.frame_duration(), 0);
    assert_eq!(auto.stall_report(0), 2_000_000_000);
    assert_eq!(auto.stall_report(3), 16_000_000_000);
    assert_eq!(auto.stall_report(99), 32_000_000_000);
    let slow = Applied { fps_min: 15, ..auto };
    assert_eq!(slow.frame_duration(), 66_666_666);
    let long = Applied { exposure: ExposureMode::Manual, exposure_time: 50_000, ..slow };
    assert_eq!(long.frame_duration(), 5_000_000_000);
    assert_eq!(long.stall_report(1), 30_000_000_000);
}

#[test]
fn controls_become_entries_in_order() {
    let (update, applied) = build(vec![
        CameraControl::FpsRange(15, 30),
        CameraControl::Zoom(250),
        CameraControl::ExposureBias(-3),
        CameraControl::WhiteBalance(WhiteBalance::Shade),
        CameraControl::WhiteBalance(WhiteBalance::Cloudy),
        CameraControl::PowerLine(PowerLine::Disabled),
        CameraControl::ColorEffect(ColorEffect::Sepia),
        CameraControl::ColorEffect(ColorEffect::Aqua),
        CameraControl::SceneMode(SceneMode::Night),
        CameraControl::SceneMode(SceneMode::Text),
        CameraControl::Stabilization(true),
        CameraControl::FocusAuto(false),
        CameraControl::AfTrigger(AfTrigger::Start),
        CameraControl::AfTrigger(AfTrigger::Cancel),
        CameraControl::AfStatus(AfStatus::Busy),
        CameraControl::AeState(AeState::Locked),
        CameraControl::ActivePhysicalId("2".to_owned()),
    ]);
    assert_eq!(
        values(&update),
        vec![
            Setting::FpsRange(15, 30),
            Setting::Zoom(250),
            Setting::AeCompensation(-3),
            Setting::AwbMode(AwbMode::Shade),
            Setting::AntibandingMode(AntibandingMode::Off),
            Setting::EffectMode(EffectMode::Sepia),
            Setting::ControlMode(ControlMode::UseSceneMode),
            Setting::SceneMode(HostScene::Night),
            Setting::VideoStabilization(VideoStabilizationMode::On),
            Setting::AfMode(AfMode::Auto),
        ]
    );
    assert_eq!(update.triggers, vec![AfTrigger::Start, AfTrigger::Cancel]);
    assert_eq!(update.echo.awb, Some(AwbMode::Shade));
    assert_eq!(update.echo.effect, Some(EffectMode::Sepia));
    assert_eq!(update.echo.scene, Some((HostScene::Night, ControlMode::UseSceneMode)));
    assert_eq!(applied.fps_min, 15);
}

#[test]
fn manual_values_go_with_the_manual_mode() {
    let (update, applied) = build(vec![
        CameraControl::ExposureTime(200),
        CameraControl::Iso(400),
        CameraControl::ExposureMode(ExposureMode::Manual),
        CameraControl::FlashLed(FlashLed::Torch),
    ]);
    assert_eq!(
        values(&update),
        vec![
            Setting::AeMode(HostAeMode::Off),
            Setting::FlashMode(FlashMode::Torch),
            Setting::ExposureTimeNs(20_000_000),
            Setting::Sensitivity(400),
        ]
    );
    assert!(applied.manual());
    let (update, _) = build(vec![
        CameraControl::ExposureTime(200),
        CameraControl::IsoMode(IsoMode::Auto),
        CameraControl::SceneMode(SceneMode::NoScene),
    ]);
    assert_eq!(
        values(&update),
        vec![
            Setting::ControlMode(ControlMode::Auto),
            Setting::SceneMode(HostScene::Disabled),
            Setting::AeMode(HostAeMode::On),
            Setting::FlashMode(FlashMode::Off),
        ]
    );
}

#[test]
fn regions_are_entries_of_their_own() {
    let (update, _) = build(vec![
        CameraControl::AfRegions(vec![
            region(0, 0, SCALE, SCALE),
            Region { set: false, ..region(0, 0, 1, 1) },
        ]),
        CameraControl::AeRegions(vec![]),
        CameraControl::AwbRegions(vec![region(0, 0, 0, 0)]),
    ]);
    let of = |i: usize| match &update.entries[i] {
        Entry::Regions(m, areas) => (*m, areas.clone()),
        Entry::Value(_) => panic!("no regions"),
    };
    let whole = Area { xmin: 0, ymin: 375, xmax: 4000, ymax: 2625, weight: 7 };
    assert_eq!(of(0), (Metering::Focus, vec![whole]));
    assert_eq!(of(1), (Metering::Exposure, vec![]));
    assert_eq!(of(2).1[0], Area { xmin: 0, ymin: 375, xmax: 1, ymax: 376, weight: 7 });
}

#[test]
fn modes_are_judged_some_results_later() {
    let mut echo = ModeEcho::new();
    assert!(echo.is_empty());
    assert_eq!(echo.on_result(&nothing()), None);
    echo.awb = Some(AwbMode::Shade);
    echo.scene = Some((HostScene::Night, ControlMode::UseSceneMode));
    let took = CaptureResult {
        awb_mode: Some(AwbMode::Shade),
        scene_mode: Some(HostScene::Night),
        control_mode: Some(ControlMode::Auto),
        ..nothing()
    };
    for _ in 0..5 {
        assert_eq!(echo.on_result(&took), None);
    }
    assert_eq!(
        echo.on_result(&took),
        Some(Verdict { awb: Some(true), effect: None, scene: Some(false) })
    );
    assert!(echo.is_empty());
    echo.effect = Some(EffectMode::Mono);
    assert_eq!(
        echo.verdict(&nothing()),
        Some(Verdict { awb: None, effect: Some(false), scene: None })
    );
}

#[test]
fn states_of_the_focus() {
    assert_eq!(af_status_of(AfState::Inactive), AfStatus::Idle);
    assert_eq!(af_status_of(AfState::PassiveScan), AfStatus::Busy);
    assert_eq!(af_status_of(AfState::ActiveScan), AfStatus::Busy);
    assert_eq!(af_status_of(AfState::PassiveFocused), AfStatus::Reached);
    assert_eq!(af_status_of(AfState::FocusedLocked), AfStatus::Reached);
    assert_eq!(af_status_of(AfState::NotFocusedLocked), AfStatus::Failed);
    assert_eq!(af_status_of(AfState::PassiveUnfocused), AfStatus::Failed);
}

#[test]
fn the_same_is_not_reported_twice() {
    let mut last = LastReported::new();
    let result = CaptureResult {
        af_state: Some(AfState::ActiveScan),
        ae_state: Some(AeState::Converged),
        physical_id: Some("2".to_owned()),
        zoom: Some(100),
        ..nothing()
    };
    let r = last.on_result(&result, Some(150));
    assert_eq!((r.af, r.ae), (Some(AfStatus::Busy), Some(AeState::Converged)));
    assert_eq!((r.lens, r.zoom), (Some("2".to_owned()), Some(100)));
    let r = last.on_result(&result, Some(150));
    assert_eq!((r.af, r.ae, r.lens, r.zoom), (None, None, None, None));
    // Two states that the guest is told the same of are the same.
    let again = CaptureResult {
        af_state: Some(AfState::PassiveScan),
        physical_id: Some("4".to_owned()),
        ..nothing()
    };
    let r = last.on_result(&again, Some(150));
    assert_eq!((r.af, r.lens, r.zoom), (None, Some("4".to_owned()), None));
    let r = last.on_result(&result, Some(150));
    assert_eq!((r.lens, r.zoom), (Some("2".to_owned()), None));
}

#[test]
fn only_a_zoom_that_was_not_asked_for_is_reported() {
    let mut last = LastReported::new();
    let zoomed = |zoom: u32| CaptureResult { zoom: Some(zoom), ..nothing() };
    assert_eq!(last.on_result(&zoomed(200), Some(200)).zoom, None);
    // Asked for more than the camera has.
    assert_eq!(last.on_result(&zoomed(800), Some(900)).zoom, Some(800));
    assert_eq!(last.on_result(&zoomed(800), Some(900)).zoom, None);
    assert_eq!(last.on_result(&zoomed(300), Some(300)).zoom, None);
    assert_eq!(last.on_result(&zoomed(800), Some(900)).zoom, Some(800));
    // Nothing was asked for.
    assert_eq!(last.on_result(&zoomed(100), None).zoom, Some(100));
}
