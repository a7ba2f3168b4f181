use droidvm::bytes::{push_le, read_be, read_le};
use droidvm::codec::{
    choose_codec, coded_format, errno_for, has_feature, is_hardware, max_input_size, nv12_size, passed_over,
    passed_over_names,
    pts_from, rank, size_range, size_ranges, timeval_from, CodecError, CodecFeature, CodecInfo,
    CodecKind, CodecType, SizeRange, Timeval, VideoCapabilities,
};
use droidvm::text;

fn info(name: &str, codec_type: CodecType, is_vendor: bool) -> CodecInfo {
    CodecInfo {
        name: name.to_owned(),
        mime: "video/avc".to_owned(),
        kind: CodecKind::Decoder,
        codec_type,
        is_vendor,
        features: Vec::new(),
        video: None,
        encoder: None,
        profiles: Vec::new(),
    }
}

fn feature(name: &str, supported: bool, required: bool) -> CodecFeature {
    CodecFeature { feature: name.to_owned(), supported, required }
}

#[test]
fn coded_formats() {
    assert_eq!(coded_format(0), (u32::from_le_bytes(*b"H264"), "video/avc"));
    assert_eq!(coded_format(1), (u32::from_le_bytes(*b"HEVC"), "video/hevc"));
    assert_eq!(coded_format(2), (u32::from_le_bytes(*b"VP80"), "video/x-vnd.on2.vp8"));
    assert_eq!(coded_format(3), (u32::from_le_bytes(*b"VP90"), "video/x-vnd.on2.vp9"));
    assert_eq!(coded_format(4), (u32::from_le_bytes(*b"AV10"), "video/av01"));
}

#[test]
fn hardware_is_told_by_type_or_by_name() {
    assert!(is_hardware(&info("c2.android.x", CodecType::HardwareAccelerated, false)));
    assert!(!is_hardware(&info("c2.qti.x", CodecType::SoftwareOnly, false)));
    assert!(!is_hardware(&info("c2.qti.x", CodecType::SoftwareWithDeviceAccess, false)));
    assert!(!is_hardware(&info("c2.qti.x", CodecType::Invalid, false)));
    assert!(is_hardware(&info("c2.qti.x", CodecType::Unknown, false)));
    assert!(!is_hardware(&info("c2.android.avc.decoder", CodecType::Unknown, false)));
    assert!(!is_hardware(&info("OMX.google.h264.decoder", CodecType::Unknown, false)));
}

#[test]
fn a_codec_is_ranked() {
    let hw = info("c2.qti.avc.decoder", CodecType::HardwareAccelerated, true);
    assert_eq!(rank(&hw, CodecKind::Decoder, "video/avc", false), Some(3));
    assert_eq!(rank(&hw, CodecKind::Encoder, "video/avc", true), None);
    assert_eq!(rank(&hw, CodecKind::Decoder, "video/hevc", true), None);
    let plain = info("c2.qti.avc.decoder", CodecType::HardwareAccelerated, false);
    assert_eq!(rank(&plain, CodecKind::Decoder, "video/avc", false), Some(2));
    let sw = info("c2.android.avc.decoder", CodecType::SoftwareOnly, true);
    assert_eq!(rank(&sw, CodecKind::Decoder, "video/avc", true), Some(1));
    assert_eq!(rank(&sw, CodecKind::Decoder, "video/avc", false), None);
    let secure = info("c2.qti.avc.decoder.secure", CodecType::HardwareAccelerated, true);
    assert_eq!(rank(&secure, CodecKind::Decoder, "video/avc", true), None);
    let mut drm = info("c2.x", CodecType::HardwareAccelerated, true);
    drm.features.push(feature("secure-playback", true, false));
    assert_eq!(rank(&drm, CodecKind::Decoder, "video/avc", true), Some(3));
    drm.features.push(feature("secure-playback", true, true));
    assert_eq!(rank(&drm, CodecKind::Decoder, "video/avc", true), None);
    assert!(has_feature(&drm, "secure-playback"));
    assert!(!has_feature(&drm, "secure"));
}

#[test]
fn the_best_codec_is_chosen() {
    let list = vec![
        info("c2.android.avc.decoder", CodecType::SoftwareOnly, false),
        info("c2.qti.avc.decoder.low_latency", CodecType::HardwareAccelerated, true),
        info("c2.qti.avc.decoder", CodecType::HardwareAccelerated, true),
        info("c2.qtj.avc.decoder", CodecType::HardwareAccelerated, true),
    ];
    assert_eq!(choose_codec(&list, CodecKind::Decoder, "video/avc", true), Some(2));
    assert_eq!(choose_codec(&list, CodecKind::Encoder, "video/avc", true), None);
    let soft = vec![info("c2.android.avc.decoder", CodecType::SoftwareOnly, false)];
    assert_eq!(choose_codec(&soft, CodecKind::Decoder, "video/avc", true), Some(0));
    assert_eq!(choose_codec(&soft, CodecKind::Decoder, "video/avc", false), None);
}

#[test]
fn the_others_are_passed_over_in_order() {
    let list = vec![
        info("c2.android.avc.decoder", CodecType::SoftwareOnly, false),
        info("c2.qti.avc.decoder.low_latency", CodecType::HardwareAccelerated, true),
        info("c2.qti.avc.decoder", CodecType::HardwareAccelerated, true),
        info("c2.plain", CodecType::HardwareAccelerated, false),
        info("c2.qtj.avc.decoder", CodecType::HardwareAccelerated, true),
        info("c2.qti.avc.decoder.secure", CodecType::HardwareAccelerated, true),
    ];
    let places = |sw| passed_over(&list, CodecKind::Decoder, "video/avc", sw);
    assert_eq!(places(true), vec![4, 1, 3, 0]);
    assert_eq!(places(false), vec![4, 1, 3]);
    assert_eq!(
        passed_over_names(&list, CodecKind::Decoder, "video/avc", true),
        vec![
            "c2.qtj.avc.decoder",
            "c2.qti.avc.decoder.low_latency",
            "c2.plain",
            "c2.android.avc.decoder (software)",
        ]
    );
    assert!(passed_over(&list, CodecKind::Encoder, "video/avc", true).is_empty());
    assert!(passed_over_names(&list, CodecKind::Decoder, "video/hevc", true).is_empty());
}

#[test]
fn sizes_that_a_codec_takes() {
    assert_eq!(size_range(16, 4096, 2), SizeRange { min: 16, max: 4096, step: 2 });
    assert_eq!(size_range(-3, -9, 0), SizeRange { min: 1, max: 1, step: 1 });
    assert_eq!(size_range(100, 50, -1), SizeRange { min: 100, max: 100, step: 1 });
    let mut i = info("x", CodecType::Unknown, false);
    let fallback = SizeRange { min: 16, max: 4096, step: 2 };
    assert_eq!(size_ranges(&i), (fallback, fallback));
    i.video = Some(VideoCapabilities {
        widths: (96, 8192),
        heights: (90, 4320),
        width_alignment: 2,
        height_alignment: 4,
        frame_rates: (0, 60),
        bitrates: (1, 100),
    });
    assert_eq!(
        size_ranges(&i),
        (
            SizeRange { min: 96, max: 8192, step: 2 },
            SizeRange { min: 90, max: 4320, step: 4 }
        )
    );
}

#[test]
fn failures_as_error_numbers() {
    assert_eq!(errno_for(CodecError::LibraryLoad), 38);
    assert_eq!(errno_for(CodecError::MissingSymbol), 38);
    assert_eq!(errno_for(CodecError::NullCodec), 19);
    assert_eq!(errno_for(CodecError::Ndk(1100)), 16);
    assert_eq!(errno_for(CodecError::Ndk(1101)), 16);
    assert_eq!(errno_for(CodecError::Ndk(-10002)), 22);
    assert_eq!(errno_for(CodecError::Ndk(-10004)), 22);
    assert_eq!(errno_for(CodecError::Ndk(-10000)), 5);
    assert_eq!(errno_for(CodecError::Null), 5);
    assert_eq!(errno_for(CodecError::Fill), 5);
    assert_eq!(errno_for(CodecError::BufferTooSmall), 5);
    assert_eq!(errno_for(CodecError::Other), 5);
}

#[test]
fn a_time_comes_back_as_it_was() {
    for (tv_sec, tv_usec) in [(0, 0), (1, 999_999), (9_000_000_000, 5)] {
        let ts = Timeval { tv_sec, tv_usec };
        assert_eq!(timeval_from(pts_from(ts) as i64), ts);
    }
    assert_eq!(pts_from(Timeval { tv_sec: 2, tv_usec: 3 }), 2_000_003);
    assert_eq!(pts_from(Timeval { tv_sec: -1, tv_usec: 0 }), u64::MAX - 999_999);
    assert_eq!(timeval_from(-1), Timeval { tv_sec: -1, tv_usec: 999_999 });
    assert_eq!(timeval_from(-1_000_000), Timeval { tv_sec: -1, tv_usec: 0 });
    assert_eq!(
        timeval_from(i64::MIN),
        Timeval { tv_sec: -9_223_372_036_855, tv_usec: 224_192 }
    );
}

#[test]
fn sizes_of_buffers() {
    assert_eq!(max_input_size((1920, 1080)), 1_555_328);
    assert_eq!(max_input_size((640, 480)), 0x10_0000);
    assert_eq!(nv12_size(1920, 1080), 3_110_400);
    assert_eq!(nv12_size(3, 3), 9 + 8);
}

#[test]
fn numbers_as_bytes() {
    let mut out = vec![7];
    push_le(&mut out, 0x0102_0304_0506_0708, 3);
    assert_eq!(out, vec![7, 8, 7, 6]);
    assert_eq!(read_le(&out, 1, 3), 0x06_0708);
    assert_eq!(read_be(&out, 1, 3), 0x08_0706);
    assert_eq!(read_le(&[1; 8], 0, 8), 0x0101_0101_0101_0101);
    assert_eq!(read_be(&out, 4, 0), 0);
}

#[test]
fn texts_are_compared_by_their_bytes() {
    assert!(text::same("front", "front"));
    assert!(!text::same("front", "fronts"));
    assert!(text::starts_with("OMX.google.x", "OMX.google."));
    assert!(!text::starts_with("OMX", "OMX.google."));
    assert!(text::ends_with("a.secure", ".secure"));
    assert!(!text::ends_with("secure", ".secure"));
    assert_eq!(text::byte_len("a\u{e9}"), 3);
    assert!(text::bytes_start_with(&vec![1, 2, 3], &vec![1, 2]));
    assert!(!text::bytes_start_with(&vec![1], &vec![1, 2]));
}
