use droidvm::camera::{
    choose_camera, describe, AeMode, AfMode, AntibandingMode, AwbMode, ColorEffect, EffectMode,
    ExposureBias, FrameSize, HostAeMode, HostCamera, HostScene, MaxRegions, MinDuration, NoCamera,
    PowerLine, SceneMode, SensorRect, VideoStabilizationMode, WhiteBalance,
};

fn plain(id: &str, is_back: bool) -> HostCamera {
    HostCamera {
        id: id.to_owned(),
        facing: if is_back { "back".to_owned() } else { "front".to_owned() },
        is_back,
        yuv_sizes: vec![(640, 480)],
        yuv_min_frame_durations: Vec::new(),
        fps_ranges: Vec::new(),
        zoom_hundredths: None,
        af_modes: Vec::new(),
        flash_available: false,
        ae_modes: Vec::new(),
        exposure_time_range_ns: None,
        sensitivity_range: None,
        ae_compensation_range: None,
        ae_compensation_step: None,
        awb_modes: Vec::new(),
        antibanding_modes: Vec::new(),
        effects: Vec::new(),
        scene_modes: Vec::new(),
        video_stabilization_modes: Vec::new(),
        max_regions: (1, 1, 1),
        active_array: None,
        physical_ids: Vec::new(),
    }
}

#[test]
fn the_camera_that_is_meant() {
    let list = vec![plain("1", false), plain("0", true), plain("2", true)];
    assert_eq!(choose_camera(&list, None), Ok(1));
    assert_eq!(choose_camera(&list, Some("2")), Ok(2));
    assert_eq!(choose_camera(&list, Some("9")), Err(NoCamera::NotListed));
    assert_eq!(choose_camera(&vec![plain("1", false)], None), Ok(0));
    assert_eq!(choose_camera(&Vec::new(), None), Err(NoCamera::NoneListed));
    assert_eq!(choose_camera(&Vec::new(), Some("0")), Err(NoCamera::NotListed));
}

#[test]
fn a_camera_that_has_nothing_to_set() {
    let (info, facts) = describe(&plain("0", true));
    assert_eq!(info.id, "0");
    assert_eq!(info.name, "Camera 0 (back)");
    assert_eq!(
        info.sizes,
        vec![FrameSize { width: 640, height: 480, min_frame_duration_ns: None }]
    );
    assert!(info.fps_ranges.is_empty() && info.zoom_range.is_none());
    assert_eq!(info.max_regions, MaxRegions { ae: 0, awb: 0, af: 0 });
    assert_eq!(facts.af_continuous, AfMode::ContinuousPicture);
    assert_eq!(facts.af_single, AfMode::Off);
    assert!(!info.stabilization && !info.flash);
}

#[test]
fn what_the_guest_sees_of_a_camera() {
    let mut c = plain("0", true);
    c.yuv_sizes = vec![(640, 480), (0, 480), (1920, 1080), (-1, 1)];
    c.yuv_min_frame_durations = vec![
        MinDuration { width: 640, height: 480, ns: 0 },
        MinDuration { width: 640, height: 480, ns: 5 },
        MinDuration { width: 1920, height: 1080, ns: 33_333_333 },
    ];
    c.fps_ranges = vec![(15, 30), (0, 30), (30, 15), (30, 30)];
    c.zoom_hundredths = Some((60, 1000));
    c.af_modes = vec![AfMode::Macro, AfMode::ContinuousVideo];
    c.flash_available = true;
    c.ae_modes = vec![
        HostAeMode::On,
        HostAeMode::OnLowLightBoostBrightnessPriority,
        HostAeMode::OnExternalFlash,
    ];
    c.exposure_time_range_ns = Some((1_000, 2_000));
    c.sensitivity_range = Some((50, 3200));
    c.ae_compensation_range = Some((-12, 12));
    c.ae_compensation_step = Some((1, 6));
    c.antibanding_modes = vec![AntibandingMode::Auto, AntibandingMode::Hz50];
    c.video_stabilization_modes = vec![VideoStabilizationMode::Off, VideoStabilizationMode::On];
    c.max_regions = (2, -1, 1);
    let array = SensorRect { left: 0, top: 0, width: 4000, height: 3000 };
    c.active_array = Some(array);
    c.physical_ids = vec!["2".to_owned(), "4".to_owned()];
    let (info, facts) = describe(&c);
    assert_eq!(
        info.sizes,
        vec![
            FrameSize { width: 640, height: 480, min_frame_duration_ns: None },
            FrameSize { width: 1920, height: 1080, min_frame_duration_ns: Some(33_333_333) },
        ]
    );
    assert_eq!(info.fps_ranges, vec![(15, 30), (30, 30)]);
    assert_eq!(info.zoom_range, Some((60, 1000)));
    assert_eq!(info.ae_modes, vec![AeMode::On, AeMode::OnExternalFlash]);
    assert_eq!(info.exposure_range_ns, Some((1_000, 2_000)));
    assert_eq!(info.iso_range, Some((50, 3200)));
    assert_eq!(
        info.exposure_bias,
        Some(ExposureBias { min: -12, max: 12, step_num: 1, step_den: 6 })
    );
    assert_eq!(info.antibanding, vec![PowerLine::Auto, PowerLine::Hz50]);
    assert!(info.stabilization && info.flash);
    assert_eq!(info.max_regions, MaxRegions { ae: 2, awb: 0, af: 1 });
    assert_eq!(info.physical_ids, vec!["2".to_owned(), "4".to_owned()]);
    assert_eq!(facts.active_array, Some(array));
    assert_eq!(facts.af_continuous, AfMode::ContinuousVideo);
    assert_eq!(facts.af_single, AfMode::Macro);
}

#[test]
fn ranges_that_are_none_are_not_offered() {
    let mut c = plain("0", true);
    c.zoom_hundredths = Some((200, 100));
    c.exposure_time_range_ns = Some((0, 10));
    c.sensitivity_range = Some((10, 9));
    c.ae_compensation_range = Some((0, 0));
    c.ae_compensation_step = Some((1, 3));
    c.active_array = Some(SensorRect { left: 0, top: 0, width: 0, height: 9 });
    let (info, facts) = describe(&c);
    assert!(info.zoom_range.is_none());
    assert!(info.exposure_range_ns.is_none());
    assert!(info.iso_range.is_none());
    assert!(info.exposure_bias.is_none());
    assert!(facts.active_array.is_none());
    assert_eq!(info.max_regions.ae, 0);
    c.ae_compensation_range = Some((0, 1));
    c.ae_compensation_step = Some((0, 3));
    assert!(describe(&c).0.exposure_bias.is_none());
    c.ae_compensation_step = Some((1, 0));
    assert!(describe(&c).0.exposure_bias.is_none());
}

#[test]
fn modes_the_guest_has_a_word_for() {
    let mut c = plain("0", true);
    c.awb_modes = vec![AwbMode::Twilight, AwbMode::Off, AwbMode::Auto];
    c.effects = vec![EffectMode::Posterize, EffectMode::Mono, EffectMode::Off];
    c.scene_modes = vec![
        HostScene::Snow,
        HostScene::FacePriority,
        HostScene::Action,
        HostScene::Sports,
        HostScene::Barcode,
    ];
    let (info, facts) = describe(&c);
    assert_eq!(
        facts.awb,
        vec![
            (WhiteBalance::Auto, AwbMode::Auto),
            (WhiteBalance::Horizon, AwbMode::Twilight),
        ]
    );
    assert_eq!(info.awb_modes, vec![WhiteBalance::Auto, WhiteBalance::Horizon]);
    assert_eq!(
        facts.effects,
        vec![
            (ColorEffect::NoEffect, EffectMode::Off),
            (ColorEffect::BlackWhite, EffectMode::Mono),
        ]
    );
    assert_eq!(info.effects, vec![ColorEffect::NoEffect, ColorEffect::BlackWhite]);
    assert_eq!(
        facts.scenes,
        vec![
            (SceneMode::Sports, HostScene::Sports),
            (SceneMode::BeachSnow, HostScene::Snow),
            (SceneMode::Text, HostScene::Barcode),
        ]
    );
    assert_eq!(
        info.scenes,
        vec![SceneMode::Sports, SceneMode::BeachSnow, SceneMode::Text]
    );
}
