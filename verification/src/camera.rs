//! What a host camera offers the guest, and which camera is chosen.
use crate::text;
use vstd::prelude::*;

verus! {

/// How a camera focuses.
#[derive(Clone, Copy, Debug, PartialEq, Eq, Structural)]
pub enum AfMode {
    Off,
    Auto,
    Macro,
    ContinuousVideo,
    ContinuousPicture,
    Edof,
}

/// How a camera finds its exposure, as the platform knows it.
#[derive(Clone, Copy, Debug, PartialEq, Eq, Structural)]
pub enum HostAeMode {
    Off,
    On,
    OnAutoFlash,
    OnAlwaysFlash,
    OnAutoFlashRedeye,
    OnExternalFlash,
    OnLowLightBoostBrightnessPriority,
}

/// How a camera finds its exposure, as the guest knows it.
#[derive(Clone, Copy, Debug, PartialEq, Eq, Structural)]
pub enum AeMode {
    Off,
    On,
    OnAutoFlash,
    OnAlwaysFlash,
    OnAutoFlashRedeye,
    OnExternalFlash,
}

/// A white balance of the platform's.
#[derive(Clone, Copy, Debug, PartialEq, Eq, Structural)]
pub enum AwbMode {
    Off,
    Auto,
    Incandescent,
    Fluorescent,
    WarmFluorescent,
    Daylight,
    CloudyDaylight,
    Twilight,
    Shade,
}

/// A white balance of the guest's.
#[derive(Clone, Copy, Debug, PartialEq, Eq, Structural)]
pub enum WhiteBalance {
    Auto,
    Incandescent,
    Fluorescent,
    FluorescentH,
    Daylight,
    Cloudy,
    Horizon,
    Shade,
}

/// A colour effect of the platform's.
#[derive(Clone, Copy, Debug, PartialEq, Eq, Structural)]
pub enum EffectMode {
    Off,
    Mono,
    Negative,
    Solarize,
    Sepia,
    Posterize,
    Whiteboard,
    Blackboard,
    Aqua,
}

/// A colour effect of the guest's.
#[derive(Clone, Copy, Debug, PartialEq, Eq, Structural)]
pub enum ColorEffect {
    NoEffect,
    BlackWhite,
    Negative,
    Solarization,
    Sepia,
    Aqua,
}

/// A scene of the platform's.
#[derive(Clone, Copy, Debug, PartialEq, Eq, Structural)]
pub enum HostScene {
    Disabled,
    FacePriority,
    Action,
    Portrait,
    Landscape,
    Night,
    NightPortrait,
    Theatre,
    Beach,
    Snow,
    Sunset,
    SteadyPhoto,
    Fireworks,
    Sports,
    Party,
    Candlelight,
    Barcode,
}

/// A scene of the guest's.
#[derive(Clone, Copy, Debug, PartialEq, Eq, Structural)]
pub enum SceneMode {
    NoScene,
    Sports,
    Portrait,
    Landscape,
    Night,
    BeachSnow,
    Sunset,
    Fireworks,
    PartyIndoor,
    CandleLight,
    Text,
}

/// How a camera avoids flicker, as the platform knows it.
#[derive(Clone, Copy, Debug, PartialEq, Eq, Structural)]
pub enum AntibandingMode {
    Off,
    Hz50,
    Hz60,
    Auto,
}

/// How a camera avoids flicker, as the guest knows it.
#[derive(Clone, Copy, Debug, PartialEq, Eq, Structural)]
pub enum PowerLine {
    Disabled,
    Hz50,
    Hz60,
    Auto,
}

/// Whether a camera steadies its picture.
#[derive(Clone, Copy, Debug, PartialEq, Eq, Structural)]
pub enum VideoStabilizationMode {
    Off,
    On,
}

/// A rectangle of the sensor.
#[derive(Clone, Copy, Debug, PartialEq, Eq, Structural)]
pub struct SensorRect {
    pub left: i32,
    pub top: i32,
    pub width: i32,
    pub height: i32,
}

/// How long a frame of a size takes at least.
#[derive(Clone, Copy, Debug, PartialEq, Eq, Structural)]
pub struct MinDuration {
    pub width: i32,
    pub height: i32,
    pub ns: i64,
}

/// A camera as the platform lists it. Modes that nobody knows are not among the modes.
pub struct HostCamera {
    pub id: String,
    /// Where it looks, in the platform's word.
    pub facing: String,
    pub is_back: bool,
    /// The sizes of its 4:2:0 output.
    pub yuv_sizes: Vec<(i32, i32)>,
    pub yuv_min_frame_durations: Vec<MinDuration>,
    pub fps_ranges: Vec<(i32, i32)>,
    /// The zoom in hundredths, rounded inward.
    pub zoom_hundredths: Option<(u32, u32)>,
    pub af_modes: Vec<AfMode>,
    pub flash_available: bool,
    pub ae_modes: Vec<HostAeMode>,
    pub exposure_time_range_ns: Option<(i64, i64)>,
    pub sensitivity_range: Option<(i32, i32)>,
    pub ae_compensation_range: Option<(i32, i32)>,
    pub ae_compensation_step: Option<(i32, i32)>,
    pub awb_modes: Vec<AwbMode>,
    pub antibanding_modes: Vec<AntibandingMode>,
    pub effects: Vec<EffectMode>,
    pub scene_modes: Vec<HostScene>,
    pub video_stabilization_modes: Vec<VideoStabilizationMode>,
    /// How many regions may steer the exposure, the white balance and the focus.
    pub max_regions: (i32, i32, i32),
    pub active_array: Option<SensorRect>,
    pub physical_ids: Vec<String>,
}

/// A frame size.
#[derive(Clone, Copy, Debug, PartialEq, Eq, Structural)]
pub struct FrameSize {
    pub width: u32,
    pub height: u32,
    pub min_frame_duration_ns: Option<u64>,
}

/// An exposure compensation, in steps of a fraction.
#[derive(Clone, Copy, Debug, PartialEq, Eq, Structural)]
pub struct ExposureBias {
    pub min: i32,
    pub max: i32,
    pub step_num: i32,
    pub step_den: i32,
}

/// How many regions may steer the camera.
#[derive(Clone, Copy, Debug, PartialEq, Eq, Structural)]
pub struct MaxRegions {
    pub ae: u32,
    pub awb: u32,
    pub af: u32,
}

/// A camera as the guest sees it.
pub struct CameraInfo {
    pub id: String,
    pub name: String,
    pub sizes: Vec<FrameSize>,
    pub fps_ranges: Vec<(u32, u32)>,
    pub zoom_range: Option<(u32, u32)>,
    pub af_modes: Vec<AfMode>,
    pub flash: bool,
    pub ae_modes: Vec<AeMode>,
    pub exposure_range_ns: Option<(u64, u64)>,
    pub iso_range: Option<(u32, u32)>,
    pub exposure_bias: Option<ExposureBias>,
    pub awb_modes: Vec<WhiteBalance>,
    pub antibanding: Vec<PowerLine>,
    pub effects: Vec<ColorEffect>,
    pub scenes: Vec<SceneMode>,
    pub stabilization: bool,
    pub max_regions: MaxRegions,
    pub physical_ids: Vec<String>,
}

/// What is known of a camera beside what the guest sees: what each of the guest's choices stands
/// for.
pub struct Facts {
    /// The coordinates that regions are given in.
    pub active_array: Option<SensorRect>,
    pub af_continuous: AfMode,
    pub af_single: AfMode,
    pub awb: Vec<(WhiteBalance, AwbMode)>,
    pub effects: Vec<(ColorEffect, EffectMode)>,
    pub scenes: Vec<(SceneMode, HostScene)>,
}

/// The platform's white balances that the guest has a word for.
pub open spec fn awb_table() -> Seq<(AwbMode, WhiteBalance)> {
    seq![
        (AwbMode::Auto, WhiteBalance::Auto),
        (AwbMode::Incandescent, WhiteBalance::Incandescent),
        (AwbMode::Fluorescent, WhiteBalance::Fluorescent),
        (AwbMode::WarmFluorescent, WhiteBalance::FluorescentH),
        (AwbMode::Daylight, WhiteBalance::Daylight),
        (AwbMode::CloudyDaylight, WhiteBalance::Cloudy),
        (AwbMode::Twilight, WhiteBalance::Horizon),
        (AwbMode::Shade, WhiteBalance::Shade),
    ]
}

/// The platform's colour effects that the guest has a word for.
pub open spec fn effect_table() -> Seq<(EffectMode, ColorEffect)> {
    seq![
        (EffectMode::Off, ColorEffect::NoEffect),
        (EffectMode::Mono, ColorEffect::BlackWhite),
        (EffectMode::Negative, ColorEffect::Negative),
        (EffectMode::Solarize, ColorEffect::Solarization),
        (EffectMode::Sepia, ColorEffect::Sepia),
        (EffectMode::Aqua, ColorEffect::Aqua),
    ]
}

/// The platform's scenes that the guest has a word for. Where two share a word, the first that a
/// camera has is taken.
pub open spec fn scene_table() -> Seq<(HostScene, SceneMode)> {
    seq![
        (HostScene::Disabled, SceneMode::NoScene),
        (HostScene::Sports, SceneMode::Sports),
        (HostScene::Action, SceneMode::Sports),
        (HostScene::Portrait, SceneMode::Portrait),
        (HostScene::Landscape, SceneMode::Landscape),
        (HostScene::Night, SceneMode::Night),
        (HostScene::Beach, SceneMode::BeachSnow),
        (HostScene::Snow, SceneMode::BeachSnow),
        (HostScene::Sunset, SceneMode::Sunset),
        (HostScene::Fireworks, SceneMode::Fireworks),
        (HostScene::Party, SceneMode::PartyIndoor),
        (HostScene::Candlelight, SceneMode::CandleLight),
        (HostScene::Barcode, SceneMode::Text),
    ]
}

/// Whether a list of pairs has `b` in front.
pub open spec fn has_first<A, B>(pairs: Seq<(B, A)>, b: B) -> bool {
    exists|i: int| 0 <= i < pairs.len() && (#[trigger] pairs[i]).0 == b
}

/// The first `n` rows of a table that a camera has.
pub open spec fn offered<A, B>(table: Seq<(A, B)>, modes: Seq<A>, n: int) -> Seq<(B, A)>
    decreases n,
{
    if n <= 0 {
        Seq::empty()
    } else {
        let rest = offered(table, modes, n - 1);
        let row = table[n - 1];
        if modes.contains(row.0) {
            rest.push((row.1, row.0))
        } else {
            rest
        }
    }
}

/// The first `n` rows of a table that a camera has, each word of the guest's once.
pub open spec fn offered_once<A, B>(table: Seq<(A, B)>, modes: Seq<A>, n: int) -> Seq<(B, A)>
    decreases n,
{
    if n <= 0 {
        Seq::empty()
    } else {
        let rest = offered_once(table, modes, n - 1);
        let row = table[n - 1];
        if modes.contains(row.0) && !has_first(rest, row.1) {
            rest.push((row.1, row.0))
        } else {
            rest
        }
    }
}

/// What stands in front in a list of pairs.
pub open spec fn firsts<A, B>(pairs: Seq<(B, A)>) -> Seq<B> {
    Seq::new(pairs.len(), |i: int| pairs[i].0)
}

/// The mode that `FocusAuto` stands for: continuous focus for video where the camera has it.
pub open spec fn continuous_of(modes: Seq<AfMode>) -> AfMode {
    if modes.contains(AfMode::ContinuousVideo) {
        AfMode::ContinuousVideo
    } else {
        AfMode::ContinuousPicture
    }
}

/// The mode for focus on demand.
pub open spec fn single_of(modes: Seq<AfMode>) -> AfMode {
    if modes.contains(AfMode::Auto) {
        AfMode::Auto
    } else if modes.contains(AfMode::Macro) {
        AfMode::Macro
    } else {
        AfMode::Off
    }
}

/// How long a frame of a size takes at least: the first entry for it, where it is positive.
pub open spec fn min_duration(durations: Seq<MinDuration>, w: i32, h: i32, i: int) -> Option<u64>
    decreases durations.len() - i,
{
    if i >= durations.len() {
        None
    } else if durations[i].width == w && durations[i].height == h {
        if durations[i].ns > 0 {
            Some(durations[i].ns as u64)
        } else {
            None
        }
    } else {
        min_duration(durations, w, h, i + 1)
    }
}

/// The sizes among the first `n` that are sizes at all.
pub open spec fn sizes_of(camera: HostCamera, n: int) -> Seq<FrameSize>
    decreases n,
{
    if n <= 0 {
        Seq::empty()
    } else {
        let rest = sizes_of(camera, n - 1);
        let (w, h) = camera.yuv_sizes@[n - 1];
        if w > 0 && h > 0 {
            rest.push(
                FrameSize {
                    width: w as u32,
                    height: h as u32,
                    min_frame_duration_ns: min_duration(
                        camera.yuv_min_frame_durations@,
                        w,
                        h,
                        0,
                    ),
                },
            )
        } else {
            rest
        }
    }
}

/// The frame rates among the first `n` that are ranges at all.
pub open spec fn rates_of(ranges: Seq<(i32, i32)>, n: int) -> Seq<(u32, u32)>
    decreases n,
{
    if n <= 0 {
        Seq::empty()
    } else {
        let rest = rates_of(ranges, n - 1);
        let (min, max) = ranges[n - 1];
        if min > 0 && max >= min {
            rest.push((min as u32, max as u32))
        } else {
            rest
        }
    }
}

/// The guest's word for an exposure mode.
pub open spec fn ae_word(mode: HostAeMode) -> Option<AeMode> {
    match mode {
        HostAeMode::Off => Some(AeMode::Off),
        HostAeMode::On => Some(AeMode::On),
        HostAeMode::OnAutoFlash => Some(AeMode::OnAutoFlash),
        HostAeMode::OnAlwaysFlash => Some(AeMode::OnAlwaysFlash),
        HostAeMode::OnAutoFlashRedeye => Some(AeMode::OnAutoFlashRedeye),
        HostAeMode::OnExternalFlash => Some(AeMode::OnExternalFlash),
        HostAeMode::OnLowLightBoostBrightnessPriority => None,
    }
}

/// The guest's words for the first `n` exposure modes.
pub open spec fn ae_words(modes: Seq<HostAeMode>, n: int) -> Seq<AeMode>
    decreases n,
{
    if n <= 0 {
        Seq::empty()
    } else {
        let rest = ae_words(modes, n - 1);
        match ae_word(modes[n - 1]) {
            Some(m) => rest.push(m),
            None => rest,
        }
    }
}

/// The guest's word for a way to avoid flicker.
pub open spec fn power_line_of(mode: AntibandingMode) -> PowerLine {
    match mode {
        AntibandingMode::Off => PowerLine::Disabled,
        AntibandingMode::Hz50 => PowerLine::Hz50,
        AntibandingMode::Hz60 => PowerLine::Hz60,
        AntibandingMode::Auto => PowerLine::Auto,
    }
}

/// The sensor's array, where it is one.
pub open spec fn array_of(array: Option<SensorRect>) -> Option<SensorRect> {
    match array {
        Some(r) => if r.width > 0 && r.height > 0 {
            Some(r)
        } else {
            None
        },
        None => None,
    }
}

/// A number of regions, where it is not negative.
pub open spec fn count_of(n: i32) -> u32 {
    if n < 0 {
        0
    } else {
        n as u32
    }
}

/// The exposure compensation, where it can be set.
pub open spec fn bias_of(range: Option<(i32, i32)>, step: Option<(i32, i32)>) -> Option<
    ExposureBias,
> {
    match (range, step) {
        (Some(r), Some(s)) => if r.1 > r.0 && s.1 > 0 && s.0 != 0 {
            Some(ExposureBias { min: r.0, max: r.1, step_num: s.0, step_den: s.1 })
        } else {
            None
        },
        _ => None,
    }
}

/// The name a camera goes by.
pub open spec fn name_of(camera: HostCamera) -> Seq<char> {
    "Camera "@ + camera.id@ + " ("@ + camera.facing@ + ")"@
}

/// Whether two lists of texts are the same.
pub open spec fn same_texts(a: Seq<String>, b: Seq<String>) -> bool {
    a.len() == b.len() && forall|i: int| 0 <= i < a.len() ==> (#[trigger] a[i])@ == b[i]@
}

/// What is known of a camera.
pub open spec fn facts_of(facts: Facts, camera: HostCamera) -> bool {
    &&& facts.active_array == array_of(camera.active_array)
    &&& facts.af_continuous == continuous_of(camera.af_modes@)
    &&& facts.af_single == single_of(camera.af_modes@)
    &&& facts.awb@ == offered(awb_table(), camera.awb_modes@, 8)
    &&& facts.effects@ == offered(effect_table(), camera.effects@, 6)
    &&& facts.scenes@ == offered_once(scene_table(), camera.scene_modes@, 13)
}

/// What the guest sees of a camera. Regions need the array that they are given in.
pub open spec fn info_of(info: CameraInfo, camera: HostCamera) -> bool {
    &&& info.id@ == camera.id@
    &&& info.name@ == name_of(camera)
    &&& info.sizes@ == sizes_of(camera, camera.yuv_sizes@.len() as int)
    &&& info.fps_ranges@ == rates_of(camera.fps_ranges@, camera.fps_ranges@.len() as int)
    &&& info.zoom_range == match camera.zoom_hundredths {
        Some(z) => if z.0 > 0 && z.0 <= z.1 {
            Some(z)
        } else {
            None
        },
        None => None,
    }
    &&& info.af_modes@ == camera.af_modes@
    &&& info.flash == camera.flash_available
    &&& info.ae_modes@ == ae_words(camera.ae_modes@, camera.ae_modes@.len() as int)
    &&& info.exposure_range_ns == match camera.exposure_time_range_ns {
        Some(r) => if r.0 > 0 && r.0 <= r.1 {
            Some((r.0 as u64, r.1 as u64))
        } else {
            None
        },
        None => None,
    }
    &&& info.iso_range == match camera.sensitivity_range {
        Some(r) => if r.0 > 0 && r.0 <= r.1 {
            Some((r.0 as u32, r.1 as u32))
        } else {
            None
        },
        None => None,
    }
    &&& info.exposure_bias == bias_of(camera.ae_compensation_range, camera.ae_compensation_step)
    &&& info.awb_modes@ == firsts(offered(awb_table(), camera.awb_modes@, 8))
    &&& info.antibanding@ == camera.antibanding_modes@.map_values(
        |m: AntibandingMode| power_line_of(m),
    )
    &&& info.effects@ == firsts(offered(effect_table(), camera.effects@, 6))
    &&& info.scenes@ == firsts(offered_once(scene_table(), camera.scene_modes@, 13))
    &&& info.stabilization == camera.video_stabilization_modes@.contains(VideoStabilizationMode::On)
    &&& info.max_regions == if array_of(camera.active_array) is Some {
        MaxRegions {
            ae: count_of(camera.max_regions.0),
            awb: count_of(camera.max_regions.1),
            af: count_of(camera.max_regions.2),
        }
    } else {
        MaxRegions { ae: 0, awb: 0, af: 0 }
    }
    &&& same_texts(info.physical_ids@, camera.physical_ids@)
}

fn has_af(modes: &Vec<AfMode>, mode: AfMode) -> (b: bool)
    ensures
        b == modes@.contains(mode),
{
    let mut i: usize = 0;
    while i < modes.len()
        invariant
            i <= modes@.len(),
            forall|j: int| 0 <= j < i ==> modes@[j] != mode,
        decreases modes@.len() - i,
    {
        if modes[i] == mode {
            assert(modes@[i as int] == mode);
            return true;
        }
        i = i + 1;
    }
    false
}

fn has_awb(modes: &Vec<AwbMode>, mode: AwbMode) -> (b: bool)
    ensures
        b == modes@.contains(mode),
{
    let mut i: usize = 0;
    while i < modes.len()
        invariant
            i <= modes@.len(),
            forall|j: int| 0 <= j < i ==> modes@[j] != mode,
        decreases modes@.len() - i,
    {
        if modes[i] == mode {
            assert(modes@[i as int] == mode);
            return true;
        }
        i = i + 1;
    }
    false
}

fn has_effect(modes: &Vec<EffectMode>, mode: EffectMode) -> (b: bool)
    ensures
        b == modes@.contains(mode),
{
    let mut i: usize = 0;
    while i < modes.len()
        invariant
            i <= modes@.len(),
            forall|j: int| 0 <= j < i ==> modes@[j] != mode,
        decreases modes@.len() - i,
    {
        if modes[i] == mode {
            assert(modes@[i as int] == mode);
            return true;
        }
        i = i + 1;
    }
    false
}

fn has_scene(modes: &Vec<HostScene>, mode: HostScene) -> (b: bool)
    ensures
        b == modes@.contains(mode),
{
    let mut i: usize = 0;
    while i < modes.len()
        invariant
            i <= modes@.len(),
            forall|j: int| 0 <= j < i ==> modes@[j] != mode,
        decreases modes@.len() - i,
    {
        if modes[i] == mode {
            assert(modes@[i as int] == mode);
            return true;
        }
        i = i + 1;
    }
    false
}

fn has_stabilization(modes: &Vec<VideoStabilizationMode>, mode: VideoStabilizationMode) -> (b: bool)
    ensures
        b == modes@.contains(mode),
{
    let mut i: usize = 0;
    while i < modes.len()
        invariant
            i <= modes@.len(),
            forall|j: int| 0 <= j < i ==> modes@[j] != mode,
        decreases modes@.len() - i,
    {
        if modes[i] == mode {
            assert(modes@[i as int] == mode);
            return true;
        }
        i = i + 1;
    }
    false
}

/// The guest's words that a camera has, with what they stand for.
fn awb_offered(modes: &Vec<AwbMode>) -> (r: Vec<(WhiteBalance, AwbMode)>)
    ensures
        r@ == offered(awb_table(), modes@, 8),
{
    let table: Vec<(AwbMode, WhiteBalance)> = vec![
        (AwbMode::Auto, WhiteBalance::Auto),
        (AwbMode::Incandescent, WhiteBalance::Incandescent),
        (AwbMode::Fluorescent, WhiteBalance::Fluorescent),
        (AwbMode::WarmFluorescent, WhiteBalance::FluorescentH),
        (AwbMode::Daylight, WhiteBalance::Daylight),
        (AwbMode::CloudyDaylight, WhiteBalance::Cloudy),
        (AwbMode::Twilight, WhiteBalance::Horizon),
        (AwbMode::Shade, WhiteBalance::Shade),
    ];
    assert(table@ == awb_table());
    let mut r: Vec<(WhiteBalance, AwbMode)> = Vec::new();
    let mut i: usize = 0;
    while i < table.len()
        invariant
            i <= table@.len(),
            table@ == awb_table(),
            r@ == offered(awb_table(), modes@, i as int),
        decreases table@.len() - i,
    {
        if has_awb(modes, table[i].0) {
            r.push((table[i].1, table[i].0));
        }
        i = i + 1;
    }
    r
}

/// The guest's words that a camera has, with what they stand for.
fn effects_offered(modes: &Vec<EffectMode>) -> (r: Vec<(ColorEffect, EffectMode)>)
    ensures
        r@ == offered(effect_table(), modes@, 6),
{
    let table: Vec<(EffectMode, ColorEffect)> = vec![
        (EffectMode::Off, ColorEffect::NoEffect),
        (EffectMode::Mono, ColorEffect::BlackWhite),
        (EffectMode::Negative, ColorEffect::Negative),
        (EffectMode::Solarize, ColorEffect::Solarization),
        (EffectMode::Sepia, ColorEffect::Sepia),
        (EffectMode::Aqua, ColorEffect::Aqua),
    ];
    assert(table@ == effect_table());
    let mut r: Vec<(ColorEffect, EffectMode)> = Vec::new();
    let mut i: usize = 0;
    while i < table.len()
        invariant
            i <= table@.len(),
            table@ == effect_table(),
            r@ == offered(effect_table(), modes@, i as int),
        decreases table@.len() - i,
    {
        if has_effect(modes, table[i].0) {
            r.push((table[i].1, table[i].0));
        }
        i = i + 1;
    }
    r
}

/// Whether a scene of the guest's is listed.
fn is_listed(scenes: &Vec<(SceneMode, HostScene)>, scene: SceneMode) -> (b: bool)
    ensures
        b == has_first(scenes@, scene),
{
    let mut i: usize = 0;
    while i < scenes.len()
        invariant
            i <= scenes@.len(),
            forall|j: int| 0 <= j < i ==> (#[trigger] scenes@[j]).0 != scene,
        decreases scenes@.len() - i,
    {
        if scenes[i].0 == scene {
            assert(scenes@[i as int].0 == scene);
            return true;
        }
        i = i + 1;
    }
    false
}

/// The guest's words that a camera has, with what they stand for.
fn scenes_offered(modes: &Vec<HostScene>) -> (r: Vec<(SceneMode, HostScene)>)
    ensures
        r@ == offered_once(scene_table(), modes@, 13),
{
    let table: Vec<(HostScene, SceneMode)> = vec![
        (HostScene::Disabled, SceneMode::NoScene),
        (HostScene::Sports, SceneMode::Sports),
        (HostScene::Action, SceneMode::Sports),
        (HostScene::Portrait, SceneMode::Portrait),
        (HostScene::Landscape, SceneMode::Landscape),
        (HostScene::Night, SceneMode::Night),
        (HostScene::Beach, SceneMode::BeachSnow),
        (HostScene::Snow, SceneMode::BeachSnow),
        (HostScene::Sunset, SceneMode::Sunset),
        (HostScene::Fireworks, SceneMode::Fireworks),
        (HostScene::Party, SceneMode::PartyIndoor),
        (HostScene::Candlelight, SceneMode::CandleLight),
        (HostScene::Barcode, SceneMode::Text),
    ];
    assert(table@ == scene_table());
    let mut r: Vec<(SceneMode, HostScene)> = Vec::new();
    let mut i: usize = 0;
    while i < table.len()
        invariant
            i <= table@.len(),
            table@ == scene_table(),
            r@ == offered_once(scene_table(), modes@, i as int),
        decreases table@.len() - i,
    {
        if has_scene(modes, table[i].0) && !is_listed(&r, table[i].1) {
            r.push((table[i].1, table[i].0));
        }
        i = i + 1;
    }
    r
}

fn find_min_duration(durations: &Vec<MinDuration>, w: i32, h: i32) -> (r: Option<u64>)
    ensures
        r == min_duration(durations@, w, h, 0),
{
    let mut i: usize = 0;
    while i < durations.len()
        invariant
            i <= durations@.len(),
            min_duration(durations@, w, h, 0) == min_duration(durations@, w, h, i as int),
        decreases durations@.len() - i,
    {
        let d = durations[i];
        if d.width == w && d.height == h {
            return if d.ns > 0 {
                Some(d.ns as u64)
            } else {
                None
            };
        }
        i = i + 1;
    }
    None
}

fn frame_sizes(camera: &HostCamera) -> (r: Vec<FrameSize>)
    ensures
        r@ == sizes_of(*camera, camera.yuv_sizes@.len() as int),
{
    let mut r: Vec<FrameSize> = Vec::new();
    let mut i: usize = 0;
    while i < camera.yuv_sizes.len()
        invariant
            i <= camera.yuv_sizes@.len(),
            r@ == sizes_of(*camera, i as int),
        decreases camera.yuv_sizes@.len() - i,
    {
        let (w, h): (i32, i32) = camera.yuv_sizes[i];
        if w > 0 && h > 0 {
            let min_frame_duration_ns: Option<u64> = find_min_duration(
                &camera.yuv_min_frame_durations,
                w,
                h,
            );
            r.push(FrameSize { width: w as u32, height: h as u32, min_frame_duration_ns });
        }
        i = i + 1;
    }
    r
}

fn frame_rates(ranges: &Vec<(i32, i32)>) -> (r: Vec<(u32, u32)>)
    ensures
        r@ == rates_of(ranges@, ranges@.len() as int),
{
    let mut r: Vec<(u32, u32)> = Vec::new();
    let mut i: usize = 0;
    while i < ranges.len()
        invariant
            i <= ranges@.len(),
            r@ == rates_of(ranges@, i as int),
        decreases ranges@.len() - i,
    {
        let (min, max): (i32, i32) = ranges[i];
        if min > 0 && max >= min {
            r.push((min as u32, max as u32));
        }
        i = i + 1;
    }
    r
}

fn exposure_modes(modes: &Vec<HostAeMode>) -> (r: Vec<AeMode>)
    ensures
        r@ == ae_words(modes@, modes@.len() as int),
{
    let mut r: Vec<AeMode> = Vec::new();
    let mut i: usize = 0;
    while i < modes.len()
        invariant
            i <= modes@.len(),
            r@ == ae_words(modes@, i as int),
        decreases modes@.len() - i,
    {
        match modes[i] {
            HostAeMode::Off => {
                r.push(AeMode::Off);
            },
            HostAeMode::On => {
                r.push(AeMode::On);
            },
            HostAeMode::OnAutoFlash => {
                r.push(AeMode::OnAutoFlash);
            },
            HostAeMode::OnAlwaysFlash => {
                r.push(AeMode::OnAlwaysFlash);
            },
            HostAeMode::OnAutoFlashRedeye => {
                r.push(AeMode::OnAutoFlashRedeye);
            },
            HostAeMode::OnExternalFlash => {
                r.push(AeMode::OnExternalFlash);
            },
            HostAeMode::OnLowLightBoostBrightnessPriority => {},
        }
        i = i + 1;
    }
    r
}

fn power_lines(modes: &Vec<AntibandingMode>) -> (r: Vec<PowerLine>)
    ensures
        r@ == modes@.map_values(|m: AntibandingMode| power_line_of(m)),
{
    let mut r: Vec<PowerLine> = Vec::new();
    while r.len() < modes.len()
        invariant
            r@.len() <= modes@.len(),
            forall|j: int| 0 <= j < r@.len() ==> #[trigger] r@[j] == power_line_of(modes@[j]),
        decreases modes@.len() - r@.len(),
    {
        let i: usize = r.len();
        r.push(
            match modes[i] {
                AntibandingMode::Off => PowerLine::Disabled,
                AntibandingMode::Hz50 => PowerLine::Hz50,
                AntibandingMode::Hz60 => PowerLine::Hz60,
                AntibandingMode::Auto => PowerLine::Auto,
            },
        );
    }
    r
}

fn texts(list: &Vec<String>) -> (r: Vec<String>)
    ensures
        same_texts(r@, list@),
{
    let mut r: Vec<String> = Vec::new();
    while r.len() < list.len()
        invariant
            r@.len() <= list@.len(),
            forall|j: int| 0 <= j < r@.len() ==> (#[trigger] r@[j])@ == list@[j]@,
        decreases list@.len() - r@.len(),
    {
        let i: usize = r.len();
        r.push(list[i].clone());
    }
    r
}

fn count(n: i32) -> (c: u32)
    ensures
        c == count_of(n),
{
    if n < 0 {
        0
    } else {
        n as u32
    }
}

/// What the guest sees of a camera, and what is kept beside it.
pub fn describe(camera: &HostCamera) -> (r: (CameraInfo, Facts))
    ensures
        info_of(r.0, *camera),
        facts_of(r.1, *camera),
{
    let af_continuous = if has_af(&camera.af_modes, AfMode::ContinuousVideo) {
        AfMode::ContinuousVideo
    } else {
        AfMode::ContinuousPicture
    };
    let af_single = if has_af(&camera.af_modes, AfMode::Auto) {
        AfMode::Auto
    } else if has_af(&camera.af_modes, AfMode::Macro) {
        AfMode::Macro
    } else {
        AfMode::Off
    };
    let active_array: Option<SensorRect> = match camera.active_array {
        Some(r) => if r.width > 0 && r.height > 0 {
            Some(r)
        } else {
            None
        },
        None => None,
    };
    let facts = Facts {
        active_array,
        af_continuous,
        af_single,
        awb: awb_offered(&camera.awb_modes),
        effects: effects_offered(&camera.effects),
        scenes: scenes_offered(&camera.scene_modes),
    };
    let mut name: String = "Camera ".to_owned();
    name.append(camera.id.as_str());
    name.append(" (");
    name.append(camera.facing.as_str());
    name.append(")");
    let mut af_modes: Vec<AfMode> = Vec::new();
    while af_modes.len() < camera.af_modes.len()
        invariant
            af_modes@.len() <= camera.af_modes@.len(),
            af_modes@ == camera.af_modes@.take(af_modes@.len() as int),
        decreases camera.af_modes@.len() - af_modes@.len(),
    {
        let i: usize = af_modes.len();
        af_modes.push(camera.af_modes[i]);
    }
    assert(af_modes@ =~= camera.af_modes@);
    let mut awb_modes: Vec<WhiteBalance> = Vec::new();
    while awb_modes.len() < facts.awb.len()
        invariant
            awb_modes@.len() <= facts.awb@.len(),
            awb_modes@ == firsts(facts.awb@).take(awb_modes@.len() as int),
        decreases facts.awb@.len() - awb_modes@.len(),
    {
        let i: usize = awb_modes.len();
        awb_modes.push(facts.awb[i].0);
    }
    assert(awb_modes@ =~= firsts(facts.awb@));
    let mut effects: Vec<ColorEffect> = Vec::new();
    while effects.len() < facts.effects.len()
        invariant
            effects@.len() <= facts.effects@.len(),
            effects@ == firsts(facts.effects@).take(effects@.len() as int),
        decreases facts.effects@.len() - effects@.len(),
    {
        let i: usize = effects.len();
        effects.push(facts.effects[i].0);
    }
    assert(effects@ =~= firsts(facts.effects@));
    let mut scenes: Vec<SceneMode> = Vec::new();
    while scenes.len() < facts.scenes.len()
        invariant
            scenes@.len() <= facts.scenes@.len(),
            scenes@ == firsts(facts.scenes@).take(scenes@.len() as int),
        decreases facts.scenes@.len() - scenes@.len(),
    {
        let i: usize = scenes.len();
        scenes.push(facts.scenes[i].0);
    }
    assert(scenes@ =~= firsts(facts.scenes@));
    let info = CameraInfo {
        id: camera.id.clone(),
        name,
        sizes: frame_sizes(camera),
        fps_ranges: frame_rates(&camera.fps_ranges),
        zoom_range: match camera.zoom_hundredths {
            Some(z) => if z.0 > 0 && z.0 <= z.1 {
                Some(z)
            } else {
                None
            },
            None => None,
        },
        af_modes,
        flash: camera.flash_available,
        ae_modes: exposure_modes(&camera.ae_modes),
        exposure_range_ns: match camera.exposure_time_range_ns {
            Some(r) => if r.0 > 0 && r.0 <= r.1 {
                Some((r.0 as u64, r.1 as u64))
            } else {
                None
            },
            None => None,
        },
        iso_range: match camera.sensitivity_range {
            Some(r) => if r.0 > 0 && r.0 <= r.1 {
                Some((r.0 as u32, r.1 as u32))
            } else {
                None
            },
            None => None,
        },
        exposure_bias: match (camera.ae_compensation_range, camera.ae_compensation_step) {
            (Some(r), Some(s)) => if r.1 > r.0 && s.1 > 0 && s.0 != 0 {
                Some(ExposureBias { min: r.0, max: r.1, step_num: s.0, step_den: s.1 })
            } else {
                None
            },
            _ => None,
        },
        awb_modes,
        antibanding: power_lines(&camera.antibanding_modes),
        effects,
        scenes,
        stabilization: has_stabilization(
            &camera.video_stabilization_modes,
            VideoStabilizationMode::On,
        ),
        max_regions: if active_array.is_some() {
            MaxRegions {
                ae: count(camera.max_regions.0),
                awb: count(camera.max_regions.1),
                af: count(camera.max_regions.2),
            }
        } else {
            MaxRegions { ae: 0, awb: 0, af: 0 }
        },
        physical_ids: texts(&camera.physical_ids),
    };
    (info, facts)
}

/// The first camera by a name, from `i` on; the length of the list where there is none.
pub open spec fn camera_named(cameras: Seq<HostCamera>, id: Seq<char>, i: int) -> int
    decreases cameras.len() - i,
{
    if i >= cameras.len() {
        cameras.len() as int
    } else if cameras[i].id@ == id {
        i
    } else {
        camera_named(cameras, id, i + 1)
    }
}

/// The first camera that looks back, from `i` on; the length of the list where there is none.
pub open spec fn back_camera(cameras: Seq<HostCamera>, i: int) -> int
    decreases cameras.len() - i,
{
    if i >= cameras.len() {
        cameras.len() as int
    } else if cameras[i].is_back {
        i
    } else {
        back_camera(cameras, i + 1)
    }
}

/// Why there is no camera.
#[derive(Clone, Copy, Debug, PartialEq, Eq, Structural)]
pub enum NoCamera {
    /// The one that was asked for is not listed.
    NotListed,
    /// None is listed.
    NoneListed,
    /// It has no 4:2:0 output.
    NoSize,
}

/// Which camera is meant: the one that is named, or else the first that looks back, or else the
/// first.
pub open spec fn chosen_camera(cameras: Seq<HostCamera>, id: Option<Seq<char>>) -> Result<
    int,
    NoCamera,
> {
    match id {
        Some(id) => {
            let at = camera_named(cameras, id, 0);
            if at < cameras.len() {
                Ok(at)
            } else {
                Err(NoCamera::NotListed)
            }
        },
        None => {
            let at = back_camera(cameras, 0);
            if at < cameras.len() {
                Ok(at)
            } else if cameras.len() > 0 {
                Ok(0int)
            } else {
                Err(NoCamera::NoneListed)
            }
        },
    }
}

fn find_named(cameras: &Vec<HostCamera>, id: &str) -> (r: usize)
    ensures
        r == camera_named(cameras@, id@, 0),
        r <= cameras@.len(),
{
    let mut i: usize = 0;
    while i < cameras.len()
        invariant
            i <= cameras@.len(),
            camera_named(cameras@, id@, 0) == camera_named(cameras@, id@, i as int),
        decreases cameras@.len() - i,
    {
        if text::same(cameras[i].id.as_str(), id) {
            return i;
        }
        i = i + 1;
    }
    i
}

fn find_back(cameras: &Vec<HostCamera>) -> (r: usize)
    ensures
        r == back_camera(cameras@, 0),
        r <= cameras@.len(),
{
    let mut i: usize = 0;
    while i < cameras.len()
        invariant
            i <= cameras@.len(),
            back_camera(cameras@, 0) == back_camera(cameras@, i as int),
        decreases cameras@.len() - i,
    {
        if cameras[i].is_back {
            return i;
        }
        i = i + 1;
    }
    i
}

/// The index of the camera that is meant.
pub fn choose_camera(cameras: &Vec<HostCamera>, id: Option<&str>) -> (r: Result<usize, NoCamera>)
    ensures
        match chosen_camera(
            cameras@,
            match id {
                Some(id) => Some(id@),
                None => None,
            },
        ) {
            Ok(i) => r is Ok && r->Ok_0 == i && 0 <= i < cameras@.len(),
            Err(e) => r == Err::<usize, NoCamera>(e),
        },
{
    match id {
        Some(name) => {
            let i: usize = find_named(cameras, name);
            if i < cameras.len() {
                Ok(i)
            } else {
                Err(NoCamera::NotListed)
            }
        },
        None => {
            let i: usize = find_back(cameras);
            if i < cameras.len() {
                Ok(i)
            } else if cameras.len() > 0 {
                Ok(0)
            } else {
                Err(NoCamera::NoneListed)
            }
        },
    }
}

/// Every word offered for a mode stands for a mode that the camera has, by the table.
pub proof fn law_an_offered_word_stands_for_a_mode<A, B>(
    table: Seq<(A, B)>,
    modes: Seq<A>,
    n: int,
    i: int,
)
    requires
        0 <= n <= table.len(),
    ensures
        0 <= i < offered(table, modes, n).len() ==> {
            let pair = offered(table, modes, n)[i];
            modes.contains(pair.1) && table.contains((pair.1, pair.0))
        },
        0 <= i < offered_once(table, modes, n).len() ==> {
            let pair = offered_once(table, modes, n)[i];
            modes.contains(pair.1) && table.contains((pair.1, pair.0))
        },
    decreases n,
{
    if n > 0 {
        law_an_offered_word_stands_for_a_mode(table, modes, n - 1, i);
        assert(table.contains(table[n - 1])) by {
            assert(table[n - 1] == table[n - 1]);
        }
    }
}

/// No scene is offered twice, though two of the platform's share a word.
pub proof fn law_no_scene_is_offered_twice(modes: Seq<HostScene>, n: int, i: int, j: int)
    requires
        0 <= n <= 13,
        0 <= i < j < offered_once(scene_table(), modes, n).len(),
    ensures
        offered_once(scene_table(), modes, n)[i].0 != offered_once(scene_table(), modes, n)[j].0,
    decreases n,
{
    let rest = offered_once(scene_table(), modes, n - 1);
    if j < rest.len() {
        law_no_scene_is_offered_twice(modes, n - 1, i, j);
    } else {
        assert(rest[i].0 != scene_table()[n - 1].1);
    }
}

/// Every mode of the camera's that the guest has a word for is offered, under its own word.
pub proof fn law_every_mode_with_a_word_is_offered<A, B>(
    table: Seq<(A, B)>,
    modes: Seq<A>,
    n: int,
    k: int,
)
    requires
        0 <= k < n <= table.len(),
        modes.contains(table[k].0),
    ensures
        exists|i: int|
            0 <= i < offered(table, modes, n).len() && #[trigger] offered(table, modes, n)[i] == (
                table[k].1,
                table[k].0,
            ),
        has_first(offered_once(table, modes, n), table[k].1),
    decreases n,
{
    let o = offered(table, modes, n);
    let once = offered_once(table, modes, n);
    if k == n - 1 {
        let rest = offered(table, modes, n - 1);
        assert(o[rest.len() as int] == (table[k].1, table[k].0));
        let before = offered_once(table, modes, n - 1);
        if !has_first(before, table[k].1) {
            assert(once[before.len() as int].0 == table[k].1);
        }
    } else {
        law_every_mode_with_a_word_is_offered(table, modes, n - 1, k);
        let rest = offered(table, modes, n - 1);
        let i = choose|i: int|
            0 <= i < rest.len() && #[trigger] rest[i] == (table[k].1, table[k].0);
        assert(o[i] == (table[k].1, table[k].0));
        let before = offered_once(table, modes, n - 1);
        let j = choose|j: int| 0 <= j < before.len() && (#[trigger] before[j]).0 == table[k].1;
        assert(once[j].0 == table[k].1);
    }
}

/// Where two modes share a word, it stands for the first that the camera has.
pub proof fn law_a_shared_word_stands_for_the_first<A, B>(
    table: Seq<(A, B)>,
    modes: Seq<A>,
    n: int,
    k: int,
)
    requires
        0 <= k < n <= table.len(),
        modes.contains(table[k].0),
        forall|j: int|
            0 <= j < k ==> !modes.contains((#[trigger] table[j]).0) || table[j].1 != table[k].1,
    ensures
        exists|i: int|
            0 <= i < offered_once(table, modes, n).len() && #[trigger] offered_once(
                table,
                modes,
                n,
            )[i] == (table[k].1, table[k].0),
    decreases n,
{
    let once = offered_once(table, modes, n);
    let before = offered_once(table, modes, n - 1);
    if k == n - 1 {
        lemma_offered_from_the_table(table, modes, n - 1);
        if has_first(before, table[k].1) {
            let i = choose|i: int| 0 <= i < before.len() && (#[trigger] before[i]).0 == table[k].1;
            let j = choose|j: int|
                0 <= j < n - 1 && before[i] == ((#[trigger] table[j]).1, table[j].0)
                    && modes.contains(table[j].0);
            assert(table[j].1 == table[k].1);
        }
        assert(once[before.len() as int] == (table[k].1, table[k].0));
    } else {
        law_a_shared_word_stands_for_the_first(table, modes, n - 1, k);
        let i = choose|i: int|
            0 <= i < before.len() && #[trigger] before[i] == (table[k].1, table[k].0);
        assert(once[i] == (table[k].1, table[k].0));
    }
}

proof fn lemma_offered_from_the_table<A, B>(table: Seq<(A, B)>, modes: Seq<A>, n: int)
    requires
        0 <= n <= table.len(),
    ensures
        forall|i: int|
            0 <= i < offered_once(table, modes, n).len() ==> exists|j: int|
                0 <= j < n && #[trigger] offered_once(table, modes, n)[i] == (
                    (#[trigger] table[j]).1,
                    table[j].0,
                ) && modes.contains(table[j].0),
    decreases n,
{
    if n > 0 {
        lemma_offered_from_the_table(table, modes, n - 1);
        let once = offered_once(table, modes, n);
        let before = offered_once(table, modes, n - 1);
        assert forall|i: int| 0 <= i < once.len() implies exists|j: int|
            0 <= j < n && #[trigger] once[i] == ((#[trigger] table[j]).1, table[j].0)
                && modes.contains(table[j].0) by {
            if i < before.len() {
                assert(once[i] == before[i]);
                let j = choose|j: int|
                    0 <= j < n - 1 && before[i] == ((#[trigger] table[j]).1, table[j].0)
                        && modes.contains(table[j].0);
                assert(once[i] == (table[j].1, table[j].0));
            } else {
                assert(once[i] == (table[n - 1].1, table[n - 1].0));
            }
        }
    }
}

/// The words mean what the modes do: each white balance, effect and scene of the platform's has
/// the guest's word for the same thing.
pub proof fn law_words_mean_what_the_modes_do(k: int)
    ensures
        awb_table().len() == 8 && effect_table().len() == 6 && scene_table().len() == 13,
        0 <= k < 8 ==> {
            let (m, w) = awb_table()[k];
            &&& m is Auto <==> w is Auto
            &&& m is Incandescent <==> w is Incandescent
            &&& m is Fluorescent <==> w is Fluorescent
            &&& m is WarmFluorescent <==> w is FluorescentH
            &&& m is Daylight <==> w is Daylight
            &&& m is CloudyDaylight <==> w is Cloudy
            &&& m is Twilight <==> w is Horizon
            &&& m is Shade <==> w is Shade
            &&& !(m is Off)
        },
        0 <= k < 6 ==> {
            let (m, w) = effect_table()[k];
            &&& m is Off <==> w is NoEffect
            &&& m is Mono <==> w is BlackWhite
            &&& m is Negative <==> w is Negative
            &&& m is Solarize <==> w is Solarization
            &&& m is Sepia <==> w is Sepia
            &&& m is Aqua <==> w is Aqua
        },
        0 <= k < 13 ==> {
            let (m, w) = scene_table()[k];
            &&& m is Disabled <==> w is NoScene
            &&& m is Sports || m is Action <==> w is Sports
            &&& m is Portrait <==> w is Portrait
            &&& m is Landscape <==> w is Landscape
            &&& m is Night <==> w is Night
            &&& m is Beach || m is Snow <==> w is BeachSnow
            &&& m is Sunset <==> w is Sunset
            &&& m is Fireworks <==> w is Fireworks
            &&& m is Party <==> w is PartyIndoor
            &&& m is Candlelight <==> w is CandleLight
            &&& m is Barcode <==> w is Text
        },
        0 <= k < 8 ==> forall|j: int| 0 <= j < k ==> (#[trigger] awb_table()[j]).0
            != awb_table()[k].0,
        0 <= k < 6 ==> forall|j: int| 0 <= j < k ==> (#[trigger] effect_table()[j]).0
            != effect_table()[k].0,
        0 <= k < 13 ==> forall|j: int| 0 <= j < k ==> (#[trigger] scene_table()[j]).0
            != scene_table()[k].0,
{
}

/// A size takes as long as its own first entry says, where that says anything.
pub proof fn law_a_size_takes_its_own_time(
    durations: Seq<MinDuration>,
    w: i32,
    h: i32,
    k: int,
    i: int,
)
    requires
        0 <= i <= k <= durations.len(),
        forall|j: int|
            i <= j < k ==> (#[trigger] durations[j]).width != w || durations[j].height != h,
        k < durations.len() ==> durations[k].width == w && durations[k].height == h,
    ensures
        k < durations.len() && durations[k].ns > 0 ==> min_duration(durations, w, h, i) == Some(
            durations[k].ns as u64,
        ),
        k == durations.len() || durations[k].ns <= 0 ==> min_duration(durations, w, h, i) is None,
    decreases k - i,
{
    if i < k {
        assert(durations[i].width != w || durations[i].height != h);
        law_a_size_takes_its_own_time(durations, w, h, k, i + 1);
    }
}

/// Every size of the camera's is offered as it is, in order: its own width and height, and its own
/// time. What is no size is left out.
pub proof fn law_every_size_is_offered(camera: HostCamera, n: int)
    requires
        0 <= n < camera.yuv_sizes@.len(),
    ensures
        ({
            let (w, h) = camera.yuv_sizes@[n];
            let before = sizes_of(camera, n);
            let after = sizes_of(camera, n + 1);
            &&& sizes_of(camera, 0) == Seq::<FrameSize>::empty()
            &&& w <= 0 || h <= 0 ==> after == before
            &&& w > 0 && h > 0 ==> after.drop_last() == before && after.len() == before.len() + 1
                && after.last().width == w && after.last().height == h
                && after.last().min_frame_duration_ns == min_duration(
                camera.yuv_min_frame_durations@,
                w,
                h,
                0,
            )
        }),
{
    let (w, h) = camera.yuv_sizes@[n];
    if w > 0 && h > 0 {
        assert(sizes_of(camera, n + 1).drop_last() =~= sizes_of(camera, n));
    }
}

/// Every range of frame rates is offered as it is, in order. What is no range is left out.
pub proof fn law_every_range_of_rates_is_offered(ranges: Seq<(i32, i32)>, n: int)
    requires
        0 <= n < ranges.len(),
    ensures
        ({
            let (lo, hi) = ranges[n];
            let before = rates_of(ranges, n);
            let after = rates_of(ranges, n + 1);
            &&& rates_of(ranges, 0) == Seq::<(u32, u32)>::empty()
            &&& !(0 < lo <= hi) ==> after == before
            &&& 0 < lo <= hi ==> after.drop_last() == before && after.len() == before.len() + 1
                && after.last().0 == lo && after.last().1 == hi
        }),
{
    if 0 < ranges[n].0 <= ranges[n].1 {
        assert(rates_of(ranges, n + 1).drop_last() =~= rates_of(ranges, n));
    }
}

/// Every exposure mode that the guest has a word for is offered by that word, in order.
pub proof fn law_every_exposure_mode_is_offered(modes: Seq<HostAeMode>, n: int)
    requires
        0 <= n < modes.len(),
    ensures
        ({
            let m = modes[n];
            let before = ae_words(modes, n);
            let after = ae_words(modes, n + 1);
            &&& ae_words(modes, 0) == Seq::<AeMode>::empty()
            &&& m is OnLowLightBoostBrightnessPriority ==> after == before
            &&& !(m is OnLowLightBoostBrightnessPriority) ==> after.drop_last() == before
                && after.len() == before.len() + 1 && {
                let w = after.last();
                &&& w is Off <==> m is Off
                &&& w is On <==> m is On
                &&& w is OnAutoFlash <==> m is OnAutoFlash
                &&& w is OnAlwaysFlash <==> m is OnAlwaysFlash
                &&& w is OnAutoFlashRedeye <==> m is OnAutoFlashRedeye
                &&& w is OnExternalFlash <==> m is OnExternalFlash
            }
        }),
{
    if !(modes[n] is OnLowLightBoostBrightnessPriority) {
        assert(ae_words(modes, n + 1).drop_last() =~= ae_words(modes, n));
    }
}

/// A camera focuses as it can: for video while it runs where it has that, and on demand by the mode
/// that it has for it.
pub proof fn law_a_camera_focuses_as_it_can(modes: Seq<AfMode>)
    ensures
        modes.contains(AfMode::ContinuousVideo) <==> continuous_of(modes) is ContinuousVideo,
        !modes.contains(AfMode::ContinuousVideo) <==> continuous_of(modes) is ContinuousPicture,
        modes.contains(AfMode::Auto) <==> single_of(modes) is Auto,
        !modes.contains(AfMode::Auto) && modes.contains(AfMode::Macro) <==> single_of(modes)
            is Macro,
        !modes.contains(AfMode::Auto) && !modes.contains(AfMode::Macro) <==> single_of(modes)
            is Off,
{
}

/// What the guest sees of a camera is the camera's own. A range that is none is not offered, nor
/// are regions where the sensor is not known.
pub proof fn law_the_guest_sees_the_cameras_own(info: CameraInfo, camera: HostCamera)
    requires
        info_of(info, camera),
    ensures
        info.id@ == camera.id@,
        info.name@ == "Camera "@ + camera.id@ + " ("@ + camera.facing@ + ")"@,
        info.sizes@ == sizes_of(camera, camera.yuv_sizes@.len() as int),
        info.fps_ranges@ == rates_of(camera.fps_ranges@, camera.fps_ranges@.len() as int),
        info.ae_modes@ == ae_words(camera.ae_modes@, camera.ae_modes@.len() as int),
        info.af_modes@ == camera.af_modes@ && info.flash == camera.flash_available,
        info.stabilization <==> camera.video_stabilization_modes@.contains(
            VideoStabilizationMode::On,
        ),
        camera.zoom_hundredths matches Some(z) ==> (0 < z.0 <= z.1 ==> info.zoom_range == Some(z))
            && (!(0 < z.0 <= z.1) ==> info.zoom_range is None),
        camera.zoom_hundredths is None ==> info.zoom_range is None,
        camera.exposure_time_range_ns matches Some(r) ==> (0 < r.0 <= r.1 ==> (
        info.exposure_range_ns matches Some(e) && e.0 == r.0 && e.1 == r.1)) && (!(0 < r.0 <= r.1)
            ==> info.exposure_range_ns is None),
        camera.exposure_time_range_ns is None ==> info.exposure_range_ns is None,
        camera.sensitivity_range matches Some(r) ==> (0 < r.0 <= r.1 ==> (
        info.iso_range matches Some(e) && e.0 == r.0 && e.1 == r.1)) && (!(0 < r.0 <= r.1)
            ==> info.iso_range is None),
        camera.sensitivity_range is None ==> info.iso_range is None,
        camera.antibanding_modes@.len() == info.antibanding@.len(),
        forall|i: int|
            0 <= i < info.antibanding@.len() ==> {
                let m = camera.antibanding_modes@[i];
                let w = #[trigger] info.antibanding@[i];
                (w is Disabled <==> m is Off) && (w is Hz50 <==> m is Hz50) && (w is Hz60 <==> m
                    is Hz60) && (w is Auto <==> m is Auto)
            },
        camera.physical_ids@.len() == info.physical_ids@.len(),
        forall|i: int|
            0 <= i < info.physical_ids@.len() ==> (#[trigger] info.physical_ids@[i])@
                == camera.physical_ids@[i]@,
        (camera.active_array matches Some(a) && a.width > 0 && a.height > 0) ==> {
            &&& camera.max_regions.0 >= 0 ==> info.max_regions.ae == camera.max_regions.0
            &&& camera.max_regions.1 >= 0 ==> info.max_regions.awb == camera.max_regions.1
            &&& camera.max_regions.2 >= 0 ==> info.max_regions.af == camera.max_regions.2
            &&& camera.max_regions.0 < 0 ==> info.max_regions.ae == 0
            &&& camera.max_regions.1 < 0 ==> info.max_regions.awb == 0
            &&& camera.max_regions.2 < 0 ==> info.max_regions.af == 0
        },
        !(camera.active_array matches Some(a) && a.width > 0 && a.height > 0) ==> info.max_regions.ae
            == 0 && info.max_regions.awb == 0 && info.max_regions.af == 0,
        ({
            let good = (camera.ae_compensation_range matches Some(r) && r.0 < r.1) && (
            camera.ae_compensation_step matches Some(s) && s.1 > 0 && s.0 != 0);
            &&& info.exposure_bias is Some <==> good
            &&& good ==> match (
                camera.ae_compensation_range,
                camera.ae_compensation_step,
                info.exposure_bias,
            ) {
                (Some(r), Some(s), Some(b)) => b.min == r.0 && b.max == r.1 && b.step_num == s.0
                    && b.step_den == s.1,
                _ => false,
            }
        }),
{
}

/// What is kept of a camera goes with what the guest sees: each word that is offered is kept with
/// its mode, at the same place.
pub proof fn law_what_is_kept_goes_with_what_is_seen(
    info: CameraInfo,
    facts: Facts,
    camera: HostCamera,
    i: int,
)
    requires
        info_of(info, camera),
        facts_of(facts, camera),
    ensures
        info.awb_modes@.len() == facts.awb@.len(),
        info.effects@.len() == facts.effects@.len(),
        info.scenes@.len() == facts.scenes@.len(),
        0 <= i < facts.awb@.len() ==> info.awb_modes@[i] == facts.awb@[i].0,
        0 <= i < facts.effects@.len() ==> info.effects@[i] == facts.effects@[i].0,
        0 <= i < facts.scenes@.len() ==> info.scenes@[i] == facts.scenes@[i].0,
        facts.awb@ == offered(awb_table(), camera.awb_modes@, 8),
        facts.effects@ == offered(effect_table(), camera.effects@, 6),
        facts.scenes@ == offered_once(scene_table(), camera.scene_modes@, 13),
        facts.af_continuous == continuous_of(camera.af_modes@),
        facts.af_single == single_of(camera.af_modes@),
        (camera.active_array matches Some(a) && a.width > 0 && a.height > 0) ==> facts.active_array
            == camera.active_array,
        !(camera.active_array matches Some(a) && a.width > 0 && a.height > 0)
            ==> facts.active_array is None,
{
}

/// The camera that is meant is the one by the name that is given, and only that; without a name the
/// first that looks back, or else the first of all.
pub proof fn law_the_camera_that_is_meant(cameras: Seq<HostCamera>, id: Seq<char>)
    ensures
        match chosen_camera(cameras, Some(id)) {
            Ok(i) => 0 <= i < cameras.len() && cameras[i].id@ == id && forall|j: int|
                0 <= j < i ==> (#[trigger] cameras[j]).id@ != id,
            Err(e) => e == NoCamera::NotListed && forall|j: int|
                0 <= j < cameras.len() ==> (#[trigger] cameras[j]).id@ != id,
        },
        match chosen_camera(cameras, None) {
            Ok(i) => 0 <= i < cameras.len() && (cameras[i].is_back && (forall|j: int|
                0 <= j < i ==> !(#[trigger] cameras[j]).is_back) || i == 0 && forall|j: int|
                0 <= j < cameras.len() ==> !(#[trigger] cameras[j]).is_back),
            Err(e) => e == NoCamera::NoneListed && cameras.len() == 0,
        },
{
    lemma_found_by_name(cameras, id, 0);
    lemma_found_by_back(cameras, 0);
}

proof fn lemma_found_by_name(cameras: Seq<HostCamera>, id: Seq<char>, i: int)
    requires
        0 <= i <= cameras.len(),
    ensures
        ({
            let at = camera_named(cameras, id, i);
            &&& i <= at <= cameras.len()
            &&& at < cameras.len() ==> cameras[at].id@ == id
            &&& forall|j: int| i <= j < at ==> (#[trigger] cameras[j]).id@ != id
        }),
    decreases cameras.len() - i,
{
    if i < cameras.len() && cameras[i].id@ != id {
        lemma_found_by_name(cameras, id, i + 1);
    }
}

proof fn lemma_found_by_back(cameras: Seq<HostCamera>, i: int)
    requires
        0 <= i <= cameras.len(),
    ensures
        ({
            let at = back_camera(cameras, i);
            &&& i <= at <= cameras.len()
            &&& at < cameras.len() ==> cameras[at].is_back
            &&& forall|j: int| i <= j < at ==> !(#[trigger] cameras[j]).is_back
        }),
    decreases cameras.len() - i,
{
    if i < cameras.len() && !cameras[i].is_back {
        lemma_found_by_back(cameras, i + 1);
    }
}

} // verus!
