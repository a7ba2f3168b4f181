use droidvm::codec::{
    CodecFeature, CodecInfo, CodecKind, CodecType, EncoderModes, ProfileInfo, SizeRange,
    VideoCapabilities, H264, VP80,
};
use droidvm::decoder::Rect;
use droidvm::encoder::{
    bitrate_mode_to_mc, color_aspects, describe, find_mc, level_to_mc,
    level_to_v4l2, pack_frame, preferred_profile, profile_pairs, ColorAspects, Colorimetry,
    ControlRange, FrameRateRange, InputLayout, MediaCodecEncoderBackend, PackError, QpRange,
    VideoBitrateMode,
};

fn rect(left: i32, top: i32, width: u32, height: u32) -> Rect {
    Rect { left, top, width, height }
}

fn layout(stride: u32, slice_height: u32, semiplanar: bool) -> InputLayout {
    InputLayout { color_format: 21, stride, slice_height, semiplanar }
}

fn encoder(name: &str, mime: &str) -> CodecInfo {
    CodecInfo {
        name: name.to_owned(),
        mime: mime.to_owned(),
        kind: CodecKind::Encoder,
        codec_type: CodecType::HardwareAccelerated,
        is_vendor: true,
        features: Vec::new(),
        video: None,
        encoder: None,
        profiles: Vec::new(),
    }
}

/// A 4 by 2 frame: the luma counts from 1, the chroma from 101.
fn frame() -> Vec<u8> {
    vec![1, 2, 3, 4, 5, 6, 7, 8, 101, 102, 103, 104]
}

#[test]
fn profiles_of_a_media_type() {
    let avc = profile_pairs("video/avc");
    assert_eq!(avc.len(), 9);
    assert_eq!(avc[3], (0x08, 4));
    assert_eq!(avc[8], (0x80000, 17));
    assert_eq!(profile_pairs("video/hevc"), vec![(1, 0), (2, 2), (4, 1)]);
    assert_eq!(profile_pairs("video/x-vnd.on2.vp8"), vec![(1, 0)]);
    assert_eq!(
        profile_pairs("video/x-vnd.on2.vp9"),
        vec![(1, 0), (2, 1), (4, 2), (8, 3)]
    );
    assert!(profile_pairs("video/av01").is_empty());
    assert_eq!(find_mc(&avc, 4), Some(8));
    assert_eq!(find_mc(&avc, 99), None);
    assert_eq!(preferred_profile("video/avc"), Some(4));
    assert_eq!(preferred_profile("video/hevc"), Some(0));
    assert_eq!(preferred_profile("video/av01"), None);
}

#[test]
fn a_level_comes_back_as_it_was() {
    for level in 0..20 {
        let mc = level_to_mc("video/avc", level).unwrap();
        assert_eq!(mc, 1 << level);
        assert_eq!(level_to_v4l2("video/avc", mc), Some(level));
    }
    for level in 0..13 {
        let mc = level_to_mc("video/hevc", level).unwrap();
        assert_eq!(mc, 1 << (2 * level));
        assert_eq!(level_to_v4l2("video/hevc", mc), Some(level));
        assert_eq!(level_to_v4l2("video/hevc", 2 * mc), Some(level));
    }
    assert_eq!(level_to_mc("video/avc", 20), None);
    assert_eq!(level_to_mc("video/avc", -1), None);
    assert_eq!(level_to_mc("video/x-vnd.on2.vp8", 0), None);
    assert_eq!(level_to_v4l2("video/avc", 3), None);
    assert_eq!(level_to_v4l2("video/avc", 1 << 20), None);
    assert_eq!(level_to_v4l2("video/avc", i32::MIN), None);
}

#[test]
fn bitrate_modes() {
    assert_eq!(bitrate_mode_to_mc(VideoBitrateMode::VariableBitrate), 1);
    assert_eq!(bitrate_mode_to_mc(VideoBitrateMode::ConstantBitrate), 2);
    assert_eq!(bitrate_mode_to_mc(VideoBitrateMode::ConstantQuality), 0);
}

#[test]
fn colours_as_the_codec_takes_them() {
    let told = |colorspace, quantization, xfer_func| {
        let a = color_aspects(&Colorimetry { colorspace, quantization, xfer_func });
        (a.standard, a.range, a.transfer)
    };
    assert_eq!(told(3, 0, 0), (Some(1), Some(2), Some(3)));
    assert_eq!(told(1, 1, 1), (Some(4), Some(1), Some(3)));
    assert_eq!(told(5, 2, 7), (Some(4), Some(2), Some(6)));
    assert_eq!(told(6, 9, 5), (Some(2), None, Some(1)));
    assert_eq!(told(10, 0, 3), (Some(6), Some(2), None));
    assert_eq!(told(8, 0, 0), (None, None, None));
    assert_eq!(
        color_aspects(&Colorimetry { colorspace: 8, quantization: 1, xfer_func: 1 }),
        ColorAspects { standard: None, range: Some(1), transfer: Some(3) }
    );
}

#[test]
fn a_frame_is_padded_to_the_layout() {
    let l = layout(6, 3, true);
    assert_eq!(l.frame_size(), 27);
    let mut dst = vec![0; 27];
    assert_eq!(pack_frame(&frame(), (4, 2), rect(0, 0, 4, 2), &l, &mut dst), Ok(27));
    assert_eq!(&dst[..10], &[1, 2, 3, 4, 0, 0, 5, 6, 7, 8]);
    assert_eq!(&dst[10..], &[0, 0, 0, 0, 0, 0, 0, 0, 101, 102, 103, 104, 0, 0, 0, 0, 0]);
    let l = layout(6, 3, false);
    let mut dst = vec![0; 27];
    assert_eq!(pack_frame(&frame(), (4, 2), rect(0, 0, 4, 2), &l, &mut dst), Ok(27));
    assert_eq!(&dst[18..], &[101, 103, 0, 102, 104, 0, 0, 0, 0]);
}

#[test]
fn only_what_is_visible_is_packed() {
    let l = layout(2, 2, true);
    let mut dst = vec![0; 6];
    // The left edge is brought down to an even column.
    assert_eq!(pack_frame(&frame(), (4, 2), rect(3, -7, 9, 9), &l, &mut dst), Ok(6));
    assert_eq!(dst, vec![3, 4, 7, 8, 103, 104]);
}

#[test]
fn frames_that_cannot_be_packed() {
    let l = layout(4, 2, true);
    let all = rect(0, 0, 4, 2);
    let mut dst = vec![0; 12];
    assert_eq!(
        pack_frame(&frame(), (4, 2), rect(0, 0, 0, 2), &l, &mut dst),
        Err(PackError::Empty)
    );
    assert_eq!(
        pack_frame(&frame()[..11], (4, 2), all, &l, &mut dst),
        Err(PackError::SourceTooSmall)
    );
    assert_eq!(
        pack_frame(&frame(), (4, 2), all, &layout(3, 2, true), &mut dst),
        Err(PackError::Layout)
    );
    assert_eq!(
        pack_frame(&frame(), (4, 2), all, &l, &mut dst[..11]),
        Err(PackError::TargetTooSmall)
    );
    assert_eq!(dst, vec![0; 12]);
}

#[test]
fn an_odd_picture_stays_inside_its_layout() {
    // A 3 by 3 frame: the luma counts from 1, the chroma from 101.
    let src: Vec<u8> = (1..10).chain(101..109).collect();
    let all = rect(0, 0, 3, 3);
    let odd = layout(3, 3, true);
    assert_eq!(odd.frame_size(), 13);
    let mut dst = vec![0; 16];
    assert_eq!(pack_frame(&src, (3, 3), all, &odd, &mut dst), Ok(13));
    assert_eq!(dst, vec![1, 2, 3, 4, 5, 6, 7, 8, 9, 101, 102, 103, 105, 0, 0, 0]);
    // No room past the padded frame is asked for.
    let mut tight = vec![0; 13];
    assert_eq!(pack_frame(&src, (3, 3), all, &odd, &mut tight), Ok(13));
    assert_eq!(tight, dst[..13]);
    // Two planes of one byte each.
    let mut dst = vec![0; 16];
    assert_eq!(pack_frame(&src, (3, 3), all, &layout(3, 3, false), &mut dst), Ok(13));
    assert_eq!(&dst[9..], &[101, 102, 0, 0, 0, 0, 0]);
    // With rows to spare, the last row still does not run on into the padding.
    let mut dst = vec![0; 18];
    assert_eq!(pack_frame(&src, (3, 3), all, &layout(3, 4, true), &mut dst), Ok(18));
    assert_eq!(&dst[9..], &[0, 0, 0, 101, 102, 103, 105, 106, 107]);
    // A layout with even sides has room for all of it.
    let mut dst = vec![0; 24];
    assert_eq!(pack_frame(&src, (3, 3), all, &layout(4, 4, true), &mut dst), Ok(24));
    assert_eq!(&dst[16..], &[101, 102, 103, 104, 105, 106, 107, 108]);
    let mut dst = vec![0; 24];
    assert_eq!(pack_frame(&src, (3, 3), all, &layout(4, 4, false), &mut dst), Ok(24));
    assert_eq!(&dst[16..], &[101, 103, 105, 107, 102, 104, 106, 108]);
}

#[test]
fn an_encoder_as_it_is_offered() {
    let mut info = encoder("c2.qti.avc.encoder", "video/avc");
    info.features.push(CodecFeature {
        feature: "qp-bounds".to_owned(),
        supported: true,
        required: false,
    });
    info.video = Some(VideoCapabilities {
        widths: (96, 8192),
        heights: (96, 4320),
        width_alignment: 2,
        height_alignment: 2,
        frame_rates: (0, 120),
        bitrates: (5_000_000, 9_000_000),
    });
    info.encoder = Some(EncoderModes { vbr: false, cbr: true });
    info.profiles = vec![
        ProfileInfo { profile: 0x01, levels: vec![1, 0x10] },
        ProfileInfo { profile: 0x08, levels: vec![0x8000, 0x10, 3] },
        ProfileInfo { profile: 0x08, levels: vec![] },
        ProfileInfo { profile: 0x77, levels: vec![] },
    ];
    let (format, chosen) = describe(&info, 0);
    assert_eq!(format.fourcc, H264);
    assert_eq!(format.width, SizeRange { min: 96, max: 8192, step: 2 });
    assert_eq!(format.frame_rate, FrameRateRange { min: 1, max: 120 });
    assert_eq!(
        format.bitrate,
        ControlRange { min: 5_000_000, max: 9_000_000, default: 5_000_000 }
    );
    assert_eq!(format.gop_size, ControlRange { min: 0, max: 65_535, default: 30 });
    assert_eq!(format.bitrate_modes, vec![VideoBitrateMode::ConstantBitrate]);
    assert_eq!(format.profiles, vec![4, 0]);
    assert_eq!(format.levels, vec![15, 4, 0]);
    assert_eq!(format.qp, Some(QpRange { min: 0, max: 51 }));
    assert!(chosen.qp_bounds && chosen.hardware && chosen.vendor);
    assert_eq!(chosen.default_level, Some(15));
    assert_eq!(chosen.name, "c2.qti.avc.encoder");
}

#[test]
fn an_encoder_that_publishes_nothing() {
    let list = vec![
        encoder("c2.qti.vp8.encoder", "video/x-vnd.on2.vp8"),
        encoder("c2.qti.av1.encoder", "video/x-unknown"),
    ];
    let b = MediaCodecEncoderBackend::new(&list, false);
    assert_eq!(b.min_output_buffers, 4);
    assert_eq!(b.coded_formats.len(), 1);
    let format = &b.coded_formats[0];
    assert_eq!(format.fourcc, VP80);
    assert_eq!(format.frame_rate, FrameRateRange { min: 1, max: 240 });
    assert_eq!(format.bitrate, ControlRange { min: 1, max: 100_000_000, default: 2_000_000 });
    assert_eq!(
        format.bitrate_modes,
        vec![VideoBitrateMode::VariableBitrate, VideoBitrateMode::ConstantBitrate]
    );
    assert!(format.profiles.is_empty() && format.levels.is_empty());
    assert_eq!(format.qp, None);
    assert_eq!(b.codecs[0].default_level, None);
}
