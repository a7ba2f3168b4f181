//! The guest's camera controls as requests to the platform, and what comes back of them.
use crate::camera::AfMode;
use crate::camera::AntibandingMode;
use crate::camera::AwbMode;
use crate::camera::ColorEffect;
use crate::camera::EffectMode;
use crate::camera::Facts;
use crate::camera::HostAeMode;
use crate::camera::HostScene;
use crate::camera::PowerLine;
use crate::camera::SceneMode;
use crate::camera::SensorRect;
use crate::camera::VideoStabilizationMode;
use crate::camera::WhiteBalance;
use crate::codec;
use crate::text;
use vstd::prelude::*;

verus! {

/// How many results are waited for before a mode is judged: a request takes a few frames to show.
pub const ECHO_AFTER: u32 = 6;

/// The least time without a frame that is worth a word.
pub const STALL_REPORT_NS: u64 = 2_000_000_000;

#[derive(Clone, Copy, Debug, PartialEq, Eq, Structural)]
pub enum ExposureMode {
    Auto,
    Manual,
}

#[derive(Clone, Copy, Debug, PartialEq, Eq, Structural)]
pub enum IsoMode {
    Manual,
    Auto,
}

#[derive(Clone, Copy, Debug, PartialEq, Eq, Structural)]
pub enum FlashLed {
    Off,
    Flash,
    Torch,
}

#[derive(Clone, Copy, Debug, PartialEq, Eq, Structural)]
pub enum FlashMode {
    Off,
    Torch,
}

#[derive(Clone, Copy, Debug, PartialEq, Eq, Structural)]
pub enum ControlMode {
    Auto,
    UseSceneMode,
}

#[derive(Clone, Copy, Debug, PartialEq, Eq, Structural)]
pub enum AfTrigger {
    Start,
    Cancel,
}

/// What the camera's focus is doing, as the platform knows it.
#[derive(Clone, Copy, Debug, PartialEq, Eq, Structural)]
pub enum AfState {
    Inactive,
    PassiveScan,
    PassiveFocused,
    ActiveScan,
    FocusedLocked,
    NotFocusedLocked,
    PassiveUnfocused,
}

/// What the camera's focus is doing, as the guest knows it.
#[derive(Clone, Copy, Debug, PartialEq, Eq, Structural)]
pub enum AfStatus {
    Idle,
    Busy,
    Reached,
    Failed,
}

#[derive(Clone, Copy, Debug, PartialEq, Eq, Structural)]
pub enum AeState {
    Inactive,
    Searching,
    Converged,
    Locked,
    FlashRequired,
    Precapture,
}

/// A part of the frame that the guest points at.
#[derive(Clone, Copy, Debug, PartialEq, Eq, Structural)]
pub struct Region {
    pub x: u32,
    pub y: u32,
    pub width: u32,
    pub height: u32,
    pub weight: u32,
    /// Whether the guest set it at all.
    pub set: bool,
}

/// A part of the sensor. The maxima are exclusive.
#[derive(Clone, Copy, Debug, PartialEq, Eq, Structural)]
pub struct Area {
    pub xmin: i32,
    pub ymin: i32,
    pub xmax: i32,
    pub ymax: i32,
    pub weight: i32,
}

/// A control of the guest's.
pub enum CameraControl {
    FpsRange(u32, u32),
    /// In hundredths.
    Zoom(u32),
    ExposureMode(ExposureMode),
    /// In units of 100 microseconds.
    ExposureTime(u32),
    IsoMode(IsoMode),
    Iso(u32),
    FlashLed(FlashLed),
    /// In the camera's own steps.
    ExposureBias(i32),
    WhiteBalance(WhiteBalance),
    PowerLine(PowerLine),
    ColorEffect(ColorEffect),
    SceneMode(SceneMode),
    Stabilization(bool),
    FocusAuto(bool),
    AfTrigger(AfTrigger),
    AeRegions(Vec<Region>),
    AfRegions(Vec<Region>),
    AwbRegions(Vec<Region>),
    /// What the camera reports, and nobody sets.
    AfStatus(AfStatus),
    AeState(AeState),
    ActivePhysicalId(String),
}

/// Which of the camera's routines regions steer.
#[derive(Clone, Copy, Debug, PartialEq, Eq, Structural)]
pub enum Metering {
    Exposure,
    Focus,
    WhiteBalance,
}

/// A request entry with a plain value.
#[derive(Clone, Copy, Debug, PartialEq, Eq, Structural)]
pub enum Setting {
    FpsRange(i32, i32),
    /// In hundredths.
    Zoom(u32),
    AeCompensation(i32),
    AwbMode(AwbMode),
    AntibandingMode(AntibandingMode),
    EffectMode(EffectMode),
    ControlMode(ControlMode),
    SceneMode(HostScene),
    VideoStabilization(VideoStabilizationMode),
    AfMode(AfMode),
    AeMode(HostAeMode),
    FlashMode(FlashMode),
    ExposureTimeNs(i64),
    Sensitivity(i32),
}

/// A request entry.
pub enum Entry {
    Value(Setting),
    Regions(Metering, Vec<Area>),
}

/// A request entry as a value.
pub enum EntryView {
    Value(Setting),
    Regions(Metering, Seq<Area>),
}

impl View for Entry {
    type V = EntryView;

    open spec fn view(&self) -> EntryView {
        match *self {
            Entry::Value(s) => EntryView::Value(s),
            Entry::Regions(m, areas) => EntryView::Regions(m, areas@),
        }
    }
}

/// The stream's geometry. `scale` is what the guest's regions are fractions of.
#[derive(Clone, Copy, Debug, PartialEq, Eq, Structural)]
pub struct Geometry {
    pub active_array: Option<SensorRect>,
    pub width: u32,
    pub height: u32,
    pub scale: u32,
}

/// A number as the platform takes it.
pub open spec fn clamped(v: int) -> i32 {
    codec::max_int(codec::min_int(v, i32::MAX as int), i32::MIN as int) as i32
}

/// The size of the largest part of an array that has the shape of the frame.
pub open spec fn crop_of(aw: int, ah: int, sw: int, sh: int) -> (int, int) {
    if aw * sh > ah * sw {
        (ah * sw / sh, ah)
    } else {
        (aw, aw * sh / sw)
    }
}

/// One side of an area: from `start` to `start + length` in `scale`ths of `crop`, which begins at
/// `origin`. It is at least one wide.
pub open spec fn span_of(start: int, length: int, scale: int, origin: int, crop: int) -> (
    int,
    int,
) {
    let lo = origin + codec::min_int(start, scale) * crop / scale;
    let hi = origin + codec::min_int(start + length, scale) * crop / scale;
    (lo, codec::max_int(hi, lo + 1))
}

impl Geometry {
    /// Where a region lies on the sensor: the frame is the middle of the array, in the frame's
    /// shape.
    pub open spec fn area_of(self, r: Region) -> Option<Area> {
        match self.active_array {
            Some(a) => if !r.set || a.width <= 0 || a.height <= 0 || self.width == 0 || self.height
                == 0 {
                None
            } else {
                let (cw, ch) = crop_of(
                    a.width as int,
                    a.height as int,
                    self.width as int,
                    self.height as int,
                );
                let cx = a.left + (a.width - cw) / 2;
                let cy = a.top + (a.height - ch) / 2;
                let x = span_of(r.x as int, r.width as int, self.scale as int, cx, cw);
                let y = span_of(r.y as int, r.height as int, self.scale as int, cy, ch);
                Some(
                    Area {
                        xmin: clamped(x.0),
                        ymin: clamped(y.0),
                        xmax: clamped(x.1),
                        ymax: clamped(y.1),
                        weight: r.weight as i32,
                    },
                )
            },
            None => None,
        }
    }

    /// Where the first `n` regions lie, without those that are not set.
    pub open spec fn areas_of(self, regions: Seq<Region>, n: int) -> Seq<Area>
        decreases n,
    {
        if n <= 0 {
            Seq::empty()
        } else {
            let rest = self.areas_of(regions, n - 1);
            match self.area_of(regions[n - 1]) {
                Some(a) => rest.push(a),
                None => rest,
            }
        }
    }
}

/// The crop lies inside the array.
proof fn lemma_crop(aw: int, ah: int, sw: int, sh: int)
    requires
        0 < aw <= i32::MAX,
        0 < ah <= i32::MAX,
        0 < sw <= u32::MAX,
        0 < sh <= u32::MAX,
    ensures
        0 <= crop_of(aw, ah, sw, sh).0 <= aw,
        0 <= crop_of(aw, ah, sw, sh).1 <= ah,
        0 <= aw * sh <= i64::MAX,
        0 <= ah * sw <= i64::MAX,
{
    assert(0 <= aw * sh <= i64::MAX) by (nonlinear_arith)
        requires
            0 < aw <= i32::MAX,
            0 < sh <= u32::MAX,
    ;
    assert(0 <= ah * sw <= i64::MAX) by (nonlinear_arith)
        requires
            0 < ah <= i32::MAX,
            0 < sw <= u32::MAX,
    ;
    if aw * sh > ah * sw {
        assert(0 <= ah * sw / sh <= aw) by (nonlinear_arith)
            requires
                0 <= ah * sw,
                ah * sw <= aw * sh,
                0 < sh,
        ;
    } else {
        assert(0 <= aw * sh / sw <= ah) by (nonlinear_arith)
            requires
                0 <= aw * sh,
                aw * sh <= ah * sw,
                0 < sw,
        ;
    }
}

/// A fraction of a length is no longer than it.
proof fn lemma_fraction(part: int, scale: int, length: int)
    requires
        0 <= part <= scale,
        0 < scale <= u32::MAX,
        0 <= length <= i32::MAX,
    ensures
        0 <= part * length <= i64::MAX,
        0 <= part * length / scale <= length,
{
    assert(0 <= part * length <= scale * length && scale * length <= i64::MAX) by (nonlinear_arith)
        requires
            0 <= part <= scale,
            0 < scale <= u32::MAX,
            0 <= length <= i32::MAX,
    ;
    assert(0 <= part * length / scale <= length) by (nonlinear_arith)
        requires
            0 <= part * length <= scale * length,
            0 < scale,
    ;
}

/// One side of an area.
fn span(start: u32, length: u32, scale: u32, origin: i64, crop: i64) -> (r: (i64, i64))
    requires
        0 < scale,
        0 <= crop <= i32::MAX,
        -0x1_0000_0000 <= origin <= 0x1_0000_0000,
    ensures
        (r.0 as int, r.1 as int) == span_of(
            start as int,
            length as int,
            scale as int,
            origin as int,
            crop as int,
        ),
{
    let from: i64 = if start < scale {
        start as i64
    } else {
        scale as i64
    };
    let sum: i64 = start as i64 + length as i64;
    let to: i64 = if sum < scale as i64 {
        sum
    } else {
        scale as i64
    };
    proof {
        lemma_fraction(from as int, scale as int, crop as int);
        lemma_fraction(to as int, scale as int, crop as int);
    }
    let lo: i64 = origin + from * crop / scale as i64;
    let hi: i64 = origin + to * crop / scale as i64;
    if hi > lo + 1 {
        (lo, hi)
    } else {
        (lo, lo + 1)
    }
}

fn clamp(v: i64) -> (r: i32)
    ensures
        r == clamped(v as int),
{
    if v < i32::MIN as i64 {
        i32::MIN
    } else if v > i32::MAX as i64 {
        i32::MAX
    } else {
        v as i32
    }
}

impl Geometry {
    /// Where a region lies on the sensor.
    pub fn area(&self, region: &Region) -> (r: Option<Area>)
        requires
            0 < self.scale,
        ensures
            r == self.area_of(*region),
    {
        if !region.set {
            return None;
        }
        let array = match self.active_array {
            Some(a) => a,
            None => {
                return None;
            },
        };
        let (aw, ah): (i64, i64) = (array.width as i64, array.height as i64);
        let (sw, sh): (i64, i64) = (self.width as i64, self.height as i64);
        if aw <= 0 || ah <= 0 || sw <= 0 || sh <= 0 {
            return None;
        }
        proof {
            lemma_crop(aw as int, ah as int, sw as int, sh as int);
        }
        let (cw, ch): (i64, i64) = if aw * sh > ah * sw {
            (ah * sw / sh, ah)
        } else {
            (aw, aw * sh / sw)
        };
        let cx: i64 = array.left as i64 + (aw - cw) / 2;
        let cy: i64 = array.top as i64 + (ah - ch) / 2;
        let x: (i64, i64) = span(region.x, region.width, self.scale, cx, cw);
        let y: (i64, i64) = span(region.y, region.height, self.scale, cy, ch);
        Some(
            Area {
                xmin: clamp(x.0),
                ymin: clamp(y.0),
                xmax: clamp(x.1),
                ymax: clamp(y.1),
                weight: region.weight as i32,
            },
        )
    }

    fn areas(&self, regions: &Vec<Region>) -> (r: Vec<Area>)
        requires
            0 < self.scale,
        ensures
            r@ == self.areas_of(regions@, regions@.len() as int),
    {
        let mut r: Vec<Area> = Vec::new();
        let mut i: usize = 0;
        while i < regions.len()
            invariant
                0 < self.scale,
                i <= regions@.len(),
                r@ == self.areas_of(regions@, i as int),
            decreases regions@.len() - i,
        {
            if let Some(a) = self.area(&regions[i]) {
                r.push(a);
            }
            i = i + 1;
        }
        r
    }
}

/// An area is not empty, and lies on the array, but for the one row or column that a region at
/// the frame's far edge is given.
pub proof fn law_an_area_lies_on_the_array(g: Geometry, r: Region)
    requires
        0 < g.scale,
        g.area_of(r) is Some,
        g.active_array->0.left + g.active_array->0.width < i32::MAX,
        g.active_array->0.top + g.active_array->0.height < i32::MAX,
    ensures
        ({
            let a = g.active_array->0;
            let p = g.area_of(r)->0;
            &&& a.left <= p.xmin < p.xmax <= a.left + a.width + 1
            &&& a.top <= p.ymin < p.ymax <= a.top + a.height + 1
            &&& p.xmax <= a.left + a.width || p.xmax == p.xmin + 1
            &&& p.ymax <= a.top + a.height || p.ymax == p.ymin + 1
        }),
{
    let a = g.active_array->0;
    lemma_crop(a.width as int, a.height as int, g.width as int, g.height as int);
    let (cw, ch) = crop_of(a.width as int, a.height as int, g.width as int, g.height as int);
    let s = g.scale as int;
    lemma_fraction(codec::min_int(r.x as int, s), s, cw);
    lemma_fraction(codec::min_int(r.x + r.width, s), s, cw);
    lemma_fraction(codec::min_int(r.y as int, s), s, ch);
    lemma_fraction(codec::min_int(r.y + r.height, s), s, ch);
}

/// The whole frame is the middle of the array, in the frame's shape, and weighs what it is given.
pub proof fn law_the_whole_frame_is_the_crop(g: Geometry, r: Region)
    requires
        0 < g.scale,
        g.area_of(r) is Some,
        r.x == 0 && r.y == 0,
        r.width >= g.scale && r.height >= g.scale,
        crop_of(
            g.active_array->0.width as int,
            g.active_array->0.height as int,
            g.width as int,
            g.height as int,
        ).0 > 0,
        crop_of(
            g.active_array->0.width as int,
            g.active_array->0.height as int,
            g.width as int,
            g.height as int,
        ).1 > 0,
        g.active_array->0.left + g.active_array->0.width < i32::MAX,
        g.active_array->0.top + g.active_array->0.height < i32::MAX,
    ensures
        ({
            let a = g.active_array->0;
            let p = g.area_of(r)->0;
            let (cw, ch) = crop_of(
                a.width as int,
                a.height as int,
                g.width as int,
                g.height as int,
            );
            &&& p.xmax - p.xmin == cw
            &&& p.ymax - p.ymin == ch
            &&& cw == a.width || ch == a.height
            &&& p.xmin == a.left + (a.width - cw) / 2
            &&& p.ymin == a.top + (a.height - ch) / 2
        }),
{
    let a = g.active_array->0;
    lemma_crop(a.width as int, a.height as int, g.width as int, g.height as int);
    let (cw, ch) = crop_of(a.width as int, a.height as int, g.width as int, g.height as int);
    let s = g.scale as int;
    assert(s * cw / s == cw && s * ch / s == ch && 0 * cw / s == 0 && 0 * ch / s == 0)
        by (nonlinear_arith)
        requires
            s > 0,
    ;
}

/// What was last applied of the controls that share a request entry.
#[derive(Clone, Copy, Debug, PartialEq, Eq, Structural)]
pub struct Applied {
    pub exposure: ExposureMode,
    pub iso: IsoMode,
    /// In units of 100 microseconds.
    pub exposure_time: u32,
    pub iso_value: u32,
    pub flash: FlashLed,
    /// The bottom of the frame rates in force; 0 where none was set.
    pub fps_min: u32,
}

impl Applied {
    /// Whether the automatic exposure is off. The guest has two switches for it, and either turns
    /// it off.
    pub open spec fn is_manual(self) -> bool {
        self.exposure == ExposureMode::Manual || self.iso == IsoMode::Manual
    }

    /// The exposure mode for the two switches. The flash is never the exposure's to fire.
    pub open spec fn ae_of(self) -> HostAeMode {
        if self.is_manual() {
            HostAeMode::Off
        } else {
            HostAeMode::On
        }
    }

    pub open spec fn flash_of(self) -> FlashMode {
        if self.flash == FlashLed::Torch {
            FlashMode::Torch
        } else {
            FlashMode::Off
        }
    }

    /// How long a frame is to take: its own exposure where that is manual, and no less than the
    /// slowest frame rate gives. 0 where nothing is known.
    pub open spec fn frame_ns(self) -> int {
        codec::max_int(
            if self.is_manual() {
                self.exposure_time * 100_000
            } else {
                0
            },
            if self.fps_min == 0 {
                0
            } else {
                1_000_000_000int / self.fps_min as int
            },
        )
    }

    /// How long a stall is to last before the next word on it, after `said` words: the longer the
    /// more were said, and never less than three frames.
    pub open spec fn stall_ns(self, said: int) -> int {
        codec::max_int(STALL_REPORT_NS as int, 3 * self.frame_ns()) * pow2_upto4(said)
    }

    /// What a camera starts with.
    pub fn new() -> (a: Self)
        ensures
            a == (Applied {
                exposure: ExposureMode::Auto,
                iso: IsoMode::Auto,
                exposure_time: 333,
                iso_value: 100,
                flash: FlashLed::Off,
                fps_min: 0,
            }),
    {
        Applied {
            exposure: ExposureMode::Auto,
            iso: IsoMode::Auto,
            exposure_time: 333,
            iso_value: 100,
            flash: FlashLed::Off,
            fps_min: 0,
        }
    }

    pub fn manual(&self) -> (b: bool)
        ensures
            b == self.is_manual(),
    {
        self.exposure == ExposureMode::Manual || self.iso == IsoMode::Manual
    }

    /// The exposure mode and the flash mode.
    pub fn ae(&self) -> (r: (HostAeMode, FlashMode))
        ensures
            r == (self.ae_of(), self.flash_of()),
    {
        let ae = if self.manual() {
            HostAeMode::Off
        } else {
            HostAeMode::On
        };
        let flash = match self.flash {
            FlashLed::Torch => FlashMode::Torch,
            FlashLed::Off | FlashLed::Flash => FlashMode::Off,
        };
        (ae, flash)
    }

    /// How long a frame is to take, in nanoseconds.
    pub fn frame_duration(&self) -> (ns: u64)
        ensures
            ns == self.frame_ns(),
            ns <= 429_496_729_500_000,
    {
        let exposure: u64 = if self.manual() {
            self.exposure_time as u64 * 100_000
        } else {
            0
        };
        let interval: u64 = if self.fps_min == 0 {
            0
        } else {
            1_000_000_000 / self.fps_min as u64
        };
        if exposure > interval {
            exposure
        } else {
            interval
        }
    }

    /// How long a stall is to last before the next word on it, in nanoseconds.
    pub fn stall_report(&self, already_said: u32) -> (ns: u64)
        ensures
            ns == self.stall_ns(already_said as int),
            STALL_REPORT_NS <= ns <= 20_615_843_016_000_000,
    {
        let frames: u64 = 3 * self.frame_duration();
        let base: u64 = if frames > STALL_REPORT_NS {
            frames
        } else {
            STALL_REPORT_NS
        };
        if already_said == 0 {
            base
        } else if already_said == 1 {
            base * 2
        } else if already_said == 2 {
            base * 4
        } else if already_said == 3 {
            base * 8
        } else {
            base * 16
        }
    }
}

/// Two to the power of `n`, or of 4 where `n` is more.
pub open spec fn pow2_upto4(n: int) -> int {
    if n <= 0 {
        1
    } else if n == 1 {
        2
    } else if n == 2 {
        4
    } else if n == 3 {
        8
    } else {
        16
    }
}

/// What a request asked of the modes that a camera may ignore, and how many results came since.
#[derive(Clone, Copy, Debug, PartialEq, Eq)]
pub struct ModeEcho {
    pub awb: Option<AwbMode>,
    pub effect: Option<EffectMode>,
    /// A scene, and the control mode that it takes to have any effect.
    pub scene: Option<(HostScene, ControlMode)>,
    pub results: u32,
}

/// Which of the modes a camera took, of those that were asked for.
#[derive(Clone, Copy, Debug, PartialEq, Eq, Structural)]
pub struct Verdict {
    pub awb: Option<bool>,
    pub effect: Option<bool>,
    pub scene: Option<bool>,
}

/// What the camera says of a frame it took. The zoom is in hundredths.
pub struct CaptureResult {
    pub af_state: Option<AfState>,
    pub ae_state: Option<AeState>,
    pub physical_id: Option<String>,
    pub zoom: Option<u32>,
    pub awb_mode: Option<AwbMode>,
    pub effect_mode: Option<EffectMode>,
    pub scene_mode: Option<HostScene>,
    pub control_mode: Option<ControlMode>,
}

impl ModeEcho {
    pub open spec fn asks_nothing(self) -> bool {
        self.awb is None && self.effect is None && self.scene is None
    }

    /// What the result says of what was asked for.
    pub open spec fn judged(self, r: CaptureResult) -> Verdict {
        Verdict {
            awb: match self.awb {
                Some(want) => Some(r.awb_mode == Some(want)),
                None => None,
            },
            effect: match self.effect {
                Some(want) => Some(r.effect_mode == Some(want)),
                None => None,
            },
            scene: match self.scene {
                Some(want) => Some(
                    r.scene_mode == Some(want.0) && r.control_mode == Some(want.1),
                ),
                None => None,
            },
        }
    }

    pub fn new() -> (e: Self)
        ensures
            e == (ModeEcho { awb: None, effect: None, scene: None, results: 0 }),
    {
        ModeEcho { awb: None, effect: None, scene: None, results: 0 }
    }

    pub fn is_empty(&self) -> (b: bool)
        ensures
            b == self.asks_nothing(),
    {
        self.awb.is_none() && self.effect.is_none() && self.scene.is_none()
    }

    /// What the result says of what was asked for; nothing where nothing was.
    pub fn verdict(&self, result: &CaptureResult) -> (v: Option<Verdict>)
        ensures
            v == if self.asks_nothing() {
                None::<Verdict>
            } else {
                Some(self.judged(*result))
            },
    {
        if self.is_empty() {
            return None;
        }
        Some(
            Verdict {
                awb: match self.awb {
                    Some(want) => Some(result.awb_mode == Some(want)),
                    None => None,
                },
                effect: match self.effect {
                    Some(want) => Some(result.effect_mode == Some(want)),
                    None => None,
                },
                scene: match self.scene {
                    Some(want) => Some(
                        result.scene_mode == Some(want.0) && result.control_mode == Some(want.1),
                    ),
                    None => None,
                },
            },
        )
    }

    /// What a result tells of the request, and what is then.
    pub open spec fn echoed(self, result: CaptureResult) -> (Option<Verdict>, Self) {
        if self.asks_nothing() {
            (None, self)
        } else if self.results + 1 < ECHO_AFTER {
            (None, ModeEcho { results: (self.results + 1) as u32, ..self })
        } else {
            (
                Some(self.judged(result)),
                ModeEcho { awb: None, effect: None, scene: None, results: 0 },
            )
        }
    }

    /// Takes a result. The request is judged once, some results after it was made, and then
    /// forgotten.
    pub fn on_result(&mut self, result: &CaptureResult) -> (v: Option<Verdict>)
        requires
            old(self).results < ECHO_AFTER,
        ensures
            final(self).results < ECHO_AFTER,
            (v, *final(self)) == old(self).echoed(*result),
    {
        if self.is_empty() {
            return None;
        }
        self.results = self.results + 1;
        if self.results < ECHO_AFTER {
            return None;
        }
        let v = self.verdict(result);
        *self = ModeEcho::new();
        v
    }
}

/// What the first pair for a word stands for, from `i` on.
pub open spec fn stands_for<A, B>(pairs: Seq<(B, A)>, word: B, i: int) -> Option<A>
    decreases pairs.len() - i,
{
    if i >= pairs.len() {
        None
    } else if pairs[i].0 == word {
        Some(pairs[i].1)
    } else {
        stands_for(pairs, word, i + 1)
    }
}

/// What a word of the guest's stands for.
fn find_awb(pairs: &Vec<(WhiteBalance, AwbMode)>, word: WhiteBalance) -> (r: Option<AwbMode>)
    ensures
        r == stands_for(pairs@, word, 0),
{
    let mut i: usize = 0;
    while i < pairs.len()
        invariant
            i <= pairs@.len(),
            stands_for(pairs@, word, 0) == stands_for(pairs@, word, i as int),
        decreases pairs@.len() - i,
    {
        if pairs[i].0 == word {
            return Some(pairs[i].1);
        }
        i = i + 1;
    }
    None
}

/// What a word of the guest's stands for.
fn find_effect(pairs: &Vec<(ColorEffect, EffectMode)>, word: ColorEffect) -> (r: Option<EffectMode>)
    ensures
        r == stands_for(pairs@, word, 0),
{
    let mut i: usize = 0;
    while i < pairs.len()
        invariant
            i <= pairs@.len(),
            stands_for(pairs@, word, 0) == stands_for(pairs@, word, i as int),
        decreases pairs@.len() - i,
    {
        if pairs[i].0 == word {
            return Some(pairs[i].1);
        }
        i = i + 1;
    }
    None
}

/// What a word of the guest's stands for.
fn find_scene(pairs: &Vec<(SceneMode, HostScene)>, word: SceneMode) -> (r: Option<HostScene>)
    ensures
        r == stands_for(pairs@, word, 0),
{
    let mut i: usize = 0;
    while i < pairs.len()
        invariant
            i <= pairs@.len(),
            stands_for(pairs@, word, 0) == stands_for(pairs@, word, i as int),
        decreases pairs@.len() - i,
    {
        if pairs[i].0 == word {
            return Some(pairs[i].1);
        }
        i = i + 1;
    }
    None
}

/// A request in the making.
pub struct UpdateView {
    pub entries: Seq<EntryView>,
    pub triggers: Seq<AfTrigger>,
    pub echo: ModeEcho,
    pub applied: Applied,
    /// Whether anything of the exposure changed.
    pub ae_changed: bool,
}

impl UpdateView {
    pub open spec fn with(self, setting: Setting) -> Self {
        UpdateView { entries: self.entries.push(EntryView::Value(setting)), ..self }
    }

    pub open spec fn exposing(self, applied: Applied) -> Self {
        UpdateView { applied, ae_changed: true, ..self }
    }

    pub open spec fn metering(self, of: Metering, areas: Seq<Area>) -> Self {
        UpdateView { entries: self.entries.push(EntryView::Regions(of, areas)), ..self }
    }

    /// One control more. What the camera has no mode for is passed over.
    pub open spec fn controlled(self, facts: Facts, g: Geometry, c: CameraControl) -> Self {
        match c {
            CameraControl::FpsRange(min, max) => (UpdateView {
                applied: Applied { fps_min: min, ..self.applied },
                ..self
            }).with(Setting::FpsRange(min as i32, max as i32)),
            CameraControl::Zoom(v) => self.with(Setting::Zoom(v)),
            CameraControl::ExposureMode(m) => self.exposing(
                Applied { exposure: m, ..self.applied },
            ),
            CameraControl::ExposureTime(v) => self.exposing(
                Applied { exposure_time: v, ..self.applied },
            ),
            CameraControl::IsoMode(m) => self.exposing(Applied { iso: m, ..self.applied }),
            CameraControl::Iso(v) => self.exposing(Applied { iso_value: v, ..self.applied }),
            CameraControl::FlashLed(m) => self.exposing(Applied { flash: m, ..self.applied }),
            CameraControl::ExposureBias(steps) => self.with(Setting::AeCompensation(steps)),
            CameraControl::WhiteBalance(preset) => match stands_for(facts.awb@, preset, 0) {
                Some(mode) => (UpdateView {
                    echo: ModeEcho { awb: Some(mode), ..self.echo },
                    ..self
                }).with(Setting::AwbMode(mode)),
                None => self,
            },
            CameraControl::PowerLine(m) => self.with(
                Setting::AntibandingMode(
                    match m {
                        PowerLine::Disabled => AntibandingMode::Off,
                        PowerLine::Hz50 => AntibandingMode::Hz50,
                        PowerLine::Hz60 => AntibandingMode::Hz60,
                        PowerLine::Auto => AntibandingMode::Auto,
                    },
                ),
            ),
            CameraControl::ColorEffect(effect) => match stands_for(facts.effects@, effect, 0) {
                Some(mode) => (UpdateView {
                    echo: ModeEcho { effect: Some(mode), ..self.echo },
                    ..self
                }).with(Setting::EffectMode(mode)),
                None => self,
            },
            CameraControl::SceneMode(scene) => match stands_for(facts.scenes@, scene, 0) {
                Some(mode) => {
                    let control = scene_control(scene);
                    (UpdateView {
                        echo: ModeEcho { scene: Some((mode, control)), ..self.echo },
                        ..self
                    }).with(Setting::ControlMode(control)).with(Setting::SceneMode(mode))
                },
                None => self,
            },
            CameraControl::Stabilization(on) => self.with(
                Setting::VideoStabilization(
                    if on {
                        VideoStabilizationMode::On
                    } else {
                        VideoStabilizationMode::Off
                    },
                ),
            ),
            CameraControl::FocusAuto(continuous) => self.with(
                Setting::AfMode(
                    if continuous {
                        facts.af_continuous
                    } else {
                        facts.af_single
                    },
                ),
            ),
            CameraControl::AfTrigger(t) => UpdateView { triggers: self.triggers.push(t), ..self },
            CameraControl::AeRegions(r) => self.metering(
                Metering::Exposure,
                g.areas_of(r@, r@.len() as int),
            ),
            CameraControl::AfRegions(r) => self.metering(
                Metering::Focus,
                g.areas_of(r@, r@.len() as int),
            ),
            CameraControl::AwbRegions(r) => self.metering(
                Metering::WhiteBalance,
                g.areas_of(r@, r@.len() as int),
            ),
            CameraControl::AfStatus(_) => self,
            CameraControl::AeState(_) => self,
            CameraControl::ActivePhysicalId(_) => self,
        }
    }

    /// The request, with the exposure as it is in the end where anything of it changed. The
    /// manual values go with the manual mode only.
    pub open spec fn finished(self) -> Self {
        if !self.ae_changed {
            self
        } else {
            let u = self.with(Setting::AeMode(self.applied.ae_of())).with(
                Setting::FlashMode(self.applied.flash_of()),
            );
            if self.applied.is_manual() {
                u.with(
                    Setting::ExposureTimeNs((self.applied.exposure_time * 100_000) as i64),
                ).with(Setting::Sensitivity(self.applied.iso_value as i32))
            } else {
                u
            }
        }
    }
}

/// The control mode that a scene takes: one of its own, unless it is none.
pub open spec fn scene_control(scene: SceneMode) -> ControlMode {
    if scene == SceneMode::NoScene {
        ControlMode::Auto
    } else {
        ControlMode::UseSceneMode
    }
}

/// A request that holds nothing yet.
pub open spec fn empty_update(applied: Applied) -> UpdateView {
    UpdateView {
        entries: Seq::empty(),
        triggers: Seq::empty(),
        echo: ModeEcho { awb: None, effect: None, scene: None, results: 0 },
        applied,
        ae_changed: false,
    }
}

/// The request after the first `n` controls.
pub open spec fn controlled_by(
    facts: Facts,
    g: Geometry,
    applied: Applied,
    controls: Seq<CameraControl>,
    n: int,
) -> UpdateView
    decreases n,
{
    if n <= 0 {
        empty_update(applied)
    } else {
        controlled_by(facts, g, applied, controls, n - 1).controlled(facts, g, controls[n - 1])
    }
}

/// The request for controls.
pub open spec fn update_of(
    facts: Facts,
    g: Geometry,
    applied: Applied,
    controls: Seq<CameraControl>,
) -> UpdateView {
    controlled_by(facts, g, applied, controls, controls.len() as int).finished()
}

/// A request: the entries to set, in order, and the triggers to fire once they are set.
pub struct RequestUpdate {
    pub entries: Vec<Entry>,
    pub triggers: Vec<AfTrigger>,
    pub echo: ModeEcho,
}

/// The values of entries.
pub open spec fn entry_views(entries: Seq<Entry>) -> Seq<EntryView> {
    entries.map_values(|e: Entry| e@)
}

/// The zoom that entries set: the last one.
pub open spec fn zoom_in(entries: Seq<EntryView>) -> Option<u32>
    decreases entries.len(),
{
    if entries.len() == 0 {
        None
    } else {
        match entries.last() {
            EntryView::Value(Setting::Zoom(z)) => Some(z),
            _ => zoom_in(entries.drop_last()),
        }
    }
}

impl RequestUpdate {
    /// The zoom that is asked for, if any is.
    pub fn asked_zoom(&self) -> (z: Option<u32>)
        ensures
            z == zoom_in(entry_views(self.entries@)),
    {
        let mut n: usize = self.entries.len();
        assert(self.entries@.take(n as int) =~= self.entries@);
        while n > 0
            invariant
                n <= self.entries@.len(),
                zoom_in(entry_views(self.entries@)) == zoom_in(
                    entry_views(self.entries@.take(n as int)),
                ),
            decreases n,
        {
            assert(entry_views(self.entries@.take(n as int)).last() == self.entries@[n - 1]@);
            assert(entry_views(self.entries@.take(n as int)).drop_last() =~= entry_views(
                self.entries@.take(n - 1),
            ));
            if let Entry::Value(Setting::Zoom(z)) = self.entries[n - 1] {
                return Some(z);
            }
            n = n - 1;
        }
        None
    }

    /// Whether it holds what the model does.
    pub open spec fn shows(&self, u: UpdateView) -> bool {
        &&& entry_views(self.entries@) == u.entries
        &&& self.triggers@ == u.triggers
        &&& self.echo == u.echo
    }

    /// Adds an entry.
    pub fn put(&mut self, setting: Setting)
        ensures
            entry_views(final(self).entries@) == entry_views(old(self).entries@).push(
                EntryView::Value(setting),
            ),
            final(self).triggers@ == old(self).triggers@,
            final(self).echo == old(self).echo,
    {
        self.entries.push(Entry::Value(setting));
        assert(entry_views(self.entries@) =~= entry_views(old(self).entries@).push(
            EntryView::Value(setting),
        ));
    }

    fn put_regions(&mut self, of: Metering, areas: Vec<Area>)
        ensures
            entry_views(final(self).entries@) == entry_views(old(self).entries@).push(
                EntryView::Regions(of, areas@),
            ),
            final(self).triggers@ == old(self).triggers@,
            final(self).echo == old(self).echo,
    {
        self.entries.push(Entry::Regions(of, areas));
        assert(entry_views(self.entries@) =~= entry_views(old(self).entries@).push(
            EntryView::Regions(of, areas@),
        ));
    }

    /// Adds what one control asks for. Returns whether it changed anything of the exposure.
    fn control(&mut self, facts: &Facts, geometry: &Geometry, applied: &mut Applied, control:
        &CameraControl, Ghost(u): Ghost<UpdateView>) -> (ae: bool)
        requires
            old(self).shows(u),
            *old(applied) == u.applied,
            0 < geometry.scale,
        ensures
            final(self).shows(u.controlled(*facts, *geometry, *control)),
            *final(applied) == u.controlled(*facts, *geometry, *control).applied,
            u.controlled(*facts, *geometry, *control).ae_changed == (u.ae_changed || ae),
    {
        match control {
            CameraControl::FpsRange(min, max) => {
                applied.fps_min = *min;
                self.put(Setting::FpsRange(*min as i32, *max as i32));
                false
            },
            CameraControl::Zoom(v) => {
                self.put(Setting::Zoom(*v));
                false
            },
            CameraControl::ExposureMode(mode) => {
                applied.exposure = *mode;
                true
            },
            CameraControl::ExposureTime(v) => {
                applied.exposure_time = *v;
                true
            },
            CameraControl::IsoMode(mode) => {
                applied.iso = *mode;
                true
            },
            CameraControl::Iso(v) => {
                applied.iso_value = *v;
                true
            },
            CameraControl::FlashLed(mode) => {
                applied.flash = *mode;
                true
            },
            CameraControl::ExposureBias(steps) => {
                self.put(Setting::AeCompensation(*steps));
                false
            },
            CameraControl::WhiteBalance(preset) => {
                if let Some(mode) = find_awb(&facts.awb, *preset) {
                    self.echo.awb = Some(mode);
                    self.put(Setting::AwbMode(mode));
                }
                false
            },
            CameraControl::PowerLine(mode) => {
                self.put(
                    Setting::AntibandingMode(
                        match *mode {
                            PowerLine::Disabled => AntibandingMode::Off,
                            PowerLine::Hz50 => AntibandingMode::Hz50,
                            PowerLine::Hz60 => AntibandingMode::Hz60,
                            PowerLine::Auto => AntibandingMode::Auto,
                        },
                    ),
                );
                false
            },
            CameraControl::ColorEffect(effect) => {
                if let Some(mode) = find_effect(&facts.effects, *effect) {
                    self.echo.effect = Some(mode);
                    self.put(Setting::EffectMode(mode));
                }
                false
            },
            CameraControl::SceneMode(scene) => {
                if let Some(mode) = find_scene(&facts.scenes, *scene) {
                    let control_mode = if *scene == SceneMode::NoScene {
                        ControlMode::Auto
                    } else {
                        ControlMode::UseSceneMode
                    };
                    self.echo.scene = Some((mode, control_mode));
                    self.put(Setting::ControlMode(control_mode));
                    self.put(Setting::SceneMode(mode));
                }
                false
            },
            CameraControl::Stabilization(on) => {
                self.put(
                    Setting::VideoStabilization(
                        if *on {
                            VideoStabilizationMode::On
                        } else {
                            VideoStabilizationMode::Off
                        },
                    ),
                );
                false
            },
            CameraControl::FocusAuto(continuous) => {
                self.put(
                    Setting::AfMode(
                        if *continuous {
                            facts.af_continuous
                        } else {
                            facts.af_single
                        },
                    ),
                );
                false
            },
            CameraControl::AfTrigger(trigger) => {
                self.triggers.push(*trigger);
                false
            },
            CameraControl::AeRegions(regions) => {
                self.put_regions(Metering::Exposure, geometry.areas(regions));
                false
            },
            CameraControl::AfRegions(regions) => {
                self.put_regions(Metering::Focus, geometry.areas(regions));
                false
            },
            CameraControl::AwbRegions(regions) => {
                self.put_regions(Metering::WhiteBalance, geometry.areas(regions));
                false
            },
            CameraControl::AfStatus(_) => false,
            CameraControl::AeState(_) => false,
            CameraControl::ActivePhysicalId(_) => false,
        }
    }
}

/// The request for controls. What is applied in the end is kept in `applied`.
pub fn build_update(
    facts: &Facts,
    geometry: &Geometry,
    applied: &mut Applied,
    controls: &Vec<CameraControl>,
) -> (update: RequestUpdate)
    requires
        0 < geometry.scale,
    ensures
        update.shows(update_of(*facts, *geometry, *old(applied), controls@)),
        *final(applied) == update_of(*facts, *geometry, *old(applied), controls@).applied,
{
    let mut update = RequestUpdate {
        entries: Vec::new(),
        triggers: Vec::new(),
        echo: ModeEcho::new(),
    };
    assert(entry_views(update.entries@) =~= Seq::empty());
    let mut ae_changed = false;
    let mut i: usize = 0;
    let ghost before = *applied;
    while i < controls.len()
        invariant
            0 < geometry.scale,
            i <= controls@.len(),
            before == *old(applied),
            update.shows(controlled_by(*facts, *geometry, before, controls@, i as int)),
            *applied == controlled_by(*facts, *geometry, before, controls@, i as int).applied,
            ae_changed == controlled_by(
                *facts,
                *geometry,
                before,
                controls@,
                i as int,
            ).ae_changed,
        decreases controls@.len() - i,
    {
        let ae = update.control(
            facts,
            geometry,
            applied,
            &controls[i],
            Ghost(controlled_by(*facts, *geometry, before, controls@, i as int)),
        );
        ae_changed = ae_changed || ae;
        i = i + 1;
    }
    if ae_changed {
        let (ae, flash) = applied.ae();
        update.put(Setting::AeMode(ae));
        update.put(Setting::FlashMode(flash));
        if applied.manual() {
            update.put(Setting::ExposureTimeNs(applied.exposure_time as i64 * 100_000));
            update.put(Setting::Sensitivity(applied.iso_value as i32));
        }
    }
    update
}

/// What the guest is told of a state of the focus.
pub open spec fn af_status(state: AfState) -> AfStatus {
    match state {
        AfState::Inactive => AfStatus::Idle,
        AfState::PassiveScan => AfStatus::Busy,
        AfState::ActiveScan => AfStatus::Busy,
        AfState::PassiveFocused => AfStatus::Reached,
        AfState::FocusedLocked => AfStatus::Reached,
        AfState::NotFocusedLocked => AfStatus::Failed,
        AfState::PassiveUnfocused => AfStatus::Failed,
    }
}

/// What the guest is told of a state of the focus.
pub fn af_status_of(state: AfState) -> (s: AfStatus)
    ensures
        s == af_status(state),
{
    match state {
        AfState::Inactive => AfStatus::Idle,
        AfState::PassiveScan | AfState::ActiveScan => AfStatus::Busy,
        AfState::PassiveFocused | AfState::FocusedLocked => AfStatus::Reached,
        AfState::NotFocusedLocked | AfState::PassiveUnfocused => AfStatus::Failed,
    }
}

/// What was last reported of a camera.
pub struct LastReported {
    af: Option<AfStatus>,
    ae: Option<AeState>,
    lens: Option<String>,
    zoom: Option<u32>,
}

/// What is known of a camera's state, as a value.
pub struct ReportView {
    pub af: Option<AfStatus>,
    pub ae: Option<AeState>,
    pub lens: Option<Seq<char>>,
    pub zoom: Option<u32>,
}

impl View for LastReported {
    type V = ReportView;

    closed spec fn view(&self) -> ReportView {
        ReportView {
            af: self.af,
            ae: self.ae,
            lens: match self.lens {
                Some(l) => Some(l@),
                None => None,
            },
            zoom: self.zoom,
        }
    }
}

/// What a result says.
pub open spec fn said_by(r: CaptureResult) -> ReportView {
    ReportView {
        af: match r.af_state {
            Some(s) => Some(af_status(s)),
            None => None,
        },
        ae: r.ae_state,
        lens: match r.physical_id {
            Some(l) => Some(l@),
            None => None,
        },
        zoom: r.zoom,
    }
}

/// The newer of two values, where there is one.
pub open spec fn newer<T>(last: Option<T>, said: Option<T>) -> Option<T> {
    match said {
        Some(v) => Some(v),
        None => last,
    }
}

/// What is new in `said`, where it says something and that is not what was said last.
pub open spec fn news<T>(last: Option<T>, said: Option<T>) -> Option<T> {
    if said is Some && said != last {
        said
    } else {
        None
    }
}

/// What is new in a zoom, where it is not the one that the guest asked for. The guest knows what
/// it asked for; what it is told is that the camera does something else.
pub open spec fn zoom_news(last: Option<u32>, said: Option<u32>, asked: Option<u32>) -> Option<u32> {
    if said == asked {
        None
    } else {
        news(last, said)
    }
}

/// What to tell the guest, in this order.
pub struct Reports {
    pub af: Option<AfStatus>,
    pub ae: Option<AeState>,
    pub lens: Option<String>,
    pub zoom: Option<u32>,
}

impl View for Reports {
    type V = ReportView;

    open spec fn view(&self) -> ReportView {
        ReportView {
            af: self.af,
            ae: self.ae,
            lens: match self.lens {
                Some(l) => Some(l@),
                None => None,
            },
            zoom: self.zoom,
        }
    }
}

impl ReportView {
    /// What is new in what a result says, given the zoom that was asked for last.
    pub open spec fn news_in(self, said: ReportView, asked: Option<u32>) -> ReportView {
        ReportView {
            af: news(self.af, said.af),
            ae: news(self.ae, said.ae),
            lens: news(self.lens, said.lens),
            zoom: zoom_news(self.zoom, said.zoom, asked),
        }
    }

    /// What was reported last, after that.
    pub open spec fn after(self, said: ReportView) -> ReportView {
        ReportView {
            af: newer(self.af, said.af),
            ae: newer(self.ae, said.ae),
            lens: newer(self.lens, said.lens),
            zoom: newer(self.zoom, said.zoom),
        }
    }
}

impl LastReported {
    /// Nothing was reported yet.
    pub fn new() -> (l: Self)
        ensures
            l@ == (ReportView { af: None, ae: None, lens: None, zoom: None }),
    {
        LastReported { af: None, ae: None, lens: None, zoom: None }
    }

    /// Takes a result, and the zoom that the guest asked for last. Returns what is new in it.
    pub fn on_result(&mut self, result: &CaptureResult, asked: Option<u32>) -> (r: Reports)
        ensures
            r@ == old(self)@.news_in(said_by(*result), asked),
            final(self)@ == old(self)@.after(said_by(*result)),
    {
        let mut r = Reports { af: None, ae: None, lens: None, zoom: None };
        if let Some(state) = result.af_state {
            let status = af_status_of(state);
            if self.af != Some(status) {
                self.af = Some(status);
                r.af = Some(status);
            }
        }
        if let Some(state) = result.ae_state {
            if self.ae != Some(state) {
                self.ae = Some(state);
                r.ae = Some(state);
            }
        }
        if let Some(lens) = &result.physical_id {
            let known = match &self.lens {
                Some(last) => text::same(last.as_str(), lens.as_str()),
                None => false,
            };
            if !known {
                self.lens = Some(lens.clone());
                r.lens = Some(lens.clone());
            }
        }
        if let Some(zoom) = result.zoom {
            if self.zoom != Some(zoom) {
                self.zoom = Some(zoom);
                if asked != Some(zoom) {
                    r.zoom = Some(zoom);
                }
            }
        }
        r
    }
}

/// The guest is told of a zoom only where the camera does not do what was asked of it, and then
/// once.
pub proof fn law_only_another_zoom_is_reported(last: Option<u32>, said: Option<u32>, asked: u32)
    ensures
        zoom_news(last, Some(asked), Some(asked)) is None,
        zoom_news(last, said, Some(asked)) matches Some(z) ==> z != asked && said == Some(z),
        zoom_news(newer(last, said), said, Some(asked)) is None,
        said is Some && said != last && said != Some(asked) ==> zoom_news(last, said, Some(asked))
            == said,
{
}

/// A result that says what the last one said is not reported again.
pub proof fn law_the_same_is_not_reported_twice<T>(last: Option<T>, said: Option<T>)
    ensures
        news(newer(last, said), said) is None,
        news(last, said) is Some ==> newer(last, said) == news(last, said),
{
}

/// Either of the guest's two switches turns the automatic exposure off, and the flash, where it is
/// lit, is lit in both modes.
pub proof fn law_either_switch_turns_the_exposure_off(a: Applied)
    ensures
        a.ae_of() == HostAeMode::Off <==> a.exposure == ExposureMode::Manual || a.iso
            == IsoMode::Manual,
        a.ae_of() == HostAeMode::Off || a.ae_of() == HostAeMode::On,
        a.flash_of() == FlashMode::Torch <==> a.flash == FlashLed::Torch,
{
}

/// Whether an entry is one of the manual exposure.
pub open spec fn is_manual_value(e: EntryView) -> bool {
    e matches EntryView::Value(s) && (s is ExposureTimeNs || s is Sensitivity)
}

proof fn lemma_no_manual_value(
    facts: Facts,
    g: Geometry,
    applied: Applied,
    controls: Seq<CameraControl>,
    n: int,
)
    ensures
        forall|i: int|
            0 <= i < controlled_by(facts, g, applied, controls, n).entries.len()
                ==> !is_manual_value(
                #[trigger] controlled_by(facts, g, applied, controls, n).entries[i],
            ),
    decreases n,
{
    if n > 0 {
        lemma_no_manual_value(facts, g, applied, controls, n - 1);
    }
}

/// The manual values of the exposure are written exactly where something of the exposure changed
/// and it is manual in the end.
pub proof fn law_manual_values_go_with_the_manual_mode(
    facts: Facts,
    g: Geometry,
    applied: Applied,
    controls: Seq<CameraControl>,
)
    ensures
        ({
            let u = update_of(facts, g, applied, controls);
            (exists|i: int| 0 <= i < u.entries.len() && is_manual_value(#[trigger] u.entries[i]))
                <==> u.ae_changed && u.applied.is_manual()
        }),
{
    let n = controls.len() as int;
    let c = controlled_by(facts, g, applied, controls, n);
    lemma_no_manual_value(facts, g, applied, controls, n);
    let u = update_of(facts, g, applied, controls);
    if u.ae_changed && u.applied.is_manual() {
        assert(is_manual_value(u.entries[u.entries.len() - 1]));
    } else {
        assert forall|i: int| 0 <= i < u.entries.len() implies !is_manual_value(
            #[trigger] u.entries[i],
        ) by {
            if i < c.entries.len() {
                assert(u.entries[i] == c.entries[i]);
            }
        }
    }
}

/// A stall is spoken of ever more rarely, and never before three frames are overdue.
pub proof fn law_a_long_exposure_is_no_stall(a: Applied, said: int)
    ensures
        a.stall_ns(said) >= 3 * a.frame_ns(),
        a.stall_ns(said) >= STALL_REPORT_NS,
        a.stall_ns(said) <= a.stall_ns(said + 1),
        a.stall_ns(said) <= 16 * a.stall_ns(0),
        a.is_manual() ==> a.frame_ns() >= a.exposure_time * 100_000,
{
    let base = codec::max_int(STALL_REPORT_NS as int, 3 * a.frame_ns());
    assert(forall|k: int| 1 <= k ==> base <= #[trigger] (base * k)) by (nonlinear_arith)
        requires
            base >= 0,
    ;
    assert(base * pow2_upto4(said) <= base * pow2_upto4(said + 1) && base * pow2_upto4(said) <= 16
        * base) by (nonlinear_arith)
        requires
            base >= 0,
            1 <= pow2_upto4(said) <= pow2_upto4(said + 1),
            pow2_upto4(said) <= 16,
    ;
}

/// The frame is as much of the array as has the frame's shape: all of its width or all of its
/// height, and of the other side as much as the shape gives, rounded down.
pub proof fn law_the_frame_has_its_own_shape(aw: int, ah: int, sw: int, sh: int)
    requires
        0 < aw <= i32::MAX,
        0 < ah <= i32::MAX,
        0 < sw <= u32::MAX,
        0 < sh <= u32::MAX,
    ensures
        ({
            let (cw, ch) = crop_of(aw, ah, sw, sh);
            &&& 0 <= cw <= aw && 0 <= ch <= ah
            &&& aw * sh > ah * sw ==> ch == ah && cw * sh <= ah * sw < (cw + 1) * sh
            &&& aw * sh <= ah * sw ==> cw == aw && ch * sw <= aw * sh < (ch + 1) * sw
        }),
{
    lemma_crop(aw, ah, sw, sh);
    vstd::arithmetic::div_mod::lemma_fundamental_div_mod(ah * sw, sh);
    vstd::arithmetic::div_mod::lemma_fundamental_div_mod(aw * sh, sw);
    let (a, b) = (ah * sw / sh, aw * sh / sw);
    assert(sh * a == a * sh && (a + 1) * sh == a * sh + sh) by (nonlinear_arith);
    assert(sw * b == b * sw && (b + 1) * sw == b * sw + sw) by (nonlinear_arith);
}

/// Whether `at` is `part` in `scale`ths of a side of `length` that begins at `origin`, rounded
/// down; what is beyond the side is its end.
pub open spec fn is_part(at: int, part: int, scale: int, origin: int, length: int) -> bool {
    &&& part >= scale ==> at == origin + length
    &&& part <= scale ==> (at - origin) * scale <= part * length < (at - origin + 1) * scale
}

proof fn lemma_is_part(part: int, scale: int, origin: int, length: int)
    requires
        0 < scale,
        0 <= part,
        0 <= length,
    ensures
        is_part(
            origin + codec::min_int(part, scale) * length / scale,
            part,
            scale,
            origin,
            length,
        ),
{
    let m = codec::min_int(part, scale);
    let q = m * length / scale;
    vstd::arithmetic::div_mod::lemma_fundamental_div_mod(m * length, scale);
    assert(scale * q == q * scale && (q + 1) * scale == q * scale + scale) by (nonlinear_arith);
    if part >= scale {
        assert(scale * length == length * scale) by (nonlinear_arith);
        vstd::arithmetic::div_mod::lemma_fundamental_div_mod_converse(
            scale * length,
            scale,
            length,
            0,
        );
    }
}

/// A region lies where the guest points: each edge is as far along its own side of the frame as the
/// guest says, across by the width and down by the height, and the area weighs what the region
/// does. An area is at least one wide and one high.
pub proof fn law_a_region_lies_where_the_guest_points(g: Geometry, r: Region, a: SensorRect)
    requires
        0 < g.scale,
        g.active_array == Some(a),
        r.set,
        0 < a.width,
        0 < a.height,
        0 < g.width,
        0 < g.height,
        a.left + a.width < i32::MAX,
        a.top + a.height < i32::MAX,
        r.weight <= i32::MAX,
    ensures
        ({
            let (cw, ch) = crop_of(
                a.width as int,
                a.height as int,
                g.width as int,
                g.height as int,
            );
            let cx = a.left + (a.width - cw) / 2;
            let cy = a.top + (a.height - ch) / 2;
            let s = g.scale as int;
            g.area_of(r) matches Some(p) && {
                &&& is_part(p.xmin as int, r.x as int, s, cx, cw)
                &&& is_part(p.ymin as int, r.y as int, s, cy, ch)
                &&& is_part(p.xmax as int, r.x + r.width, s, cx, cw) || p.xmax == p.xmin + 1
                &&& is_part(p.ymax as int, r.y + r.height, s, cy, ch) || p.ymax == p.ymin + 1
                &&& p.xmin < p.xmax && p.ymin < p.ymax
                &&& p.weight == r.weight
            }
        }),
{
    law_an_area_lies_on_the_array(g, r);
    let (cw, ch) = crop_of(a.width as int, a.height as int, g.width as int, g.height as int);
    lemma_crop(a.width as int, a.height as int, g.width as int, g.height as int);
    let cx = a.left + (a.width - cw) / 2;
    let cy = a.top + (a.height - ch) / 2;
    let s = g.scale as int;
    lemma_is_part(r.x as int, s, cx, cw);
    lemma_is_part(r.y as int, s, cy, ch);
    lemma_is_part(r.x + r.width, s, cx, cw);
    lemma_is_part(r.y + r.height, s, cy, ch);
    lemma_span_inside(r.x as int, r.width as int, s, cx, cw);
    lemma_span_inside(r.y as int, r.height as int, s, cy, ch);
}

proof fn lemma_span_inside(start: int, length: int, scale: int, origin: int, crop: int)
    requires
        0 < scale <= u32::MAX,
        0 <= start,
        0 <= length,
        0 <= crop <= i32::MAX,
    ensures
        ({
            let (lo, hi) = span_of(start, length, scale, origin, crop);
            origin <= lo <= origin + crop && lo < hi <= origin + crop + 1
        }),
{
    lemma_fraction(codec::min_int(start, scale), scale, crop);
    lemma_fraction(codec::min_int(start + length, scale), scale, crop);
}

/// Regions that are not set, and all of them where the sensor or the frame is not known, are passed
/// over; the others keep their order.
pub proof fn law_regions_keep_their_order(g: Geometry, regions: Seq<Region>, n: int)
    requires
        0 <= n < regions.len(),
    ensures
        g.areas_of(regions, 0) == Seq::<Area>::empty(),
        g.area_of(regions[n]) matches Some(a) ==> g.areas_of(regions, n + 1) == g.areas_of(
            regions,
            n,
        ).push(a),
        g.area_of(regions[n]) is None ==> g.areas_of(regions, n + 1) == g.areas_of(regions, n),
        g.area_of(regions[n]) is None <==> !regions[n].set || g.active_array is None || g.width == 0
            || g.height == 0 || g.active_array->0.width <= 0 || g.active_array->0.height <= 0,
{
}

/// Each plain control asks for its own entry, and for nothing else.
pub proof fn law_a_plain_control_asks_for_its_own_entry(
    u: UpdateView,
    facts: Facts,
    g: Geometry,
    min: u32,
    max: u32,
    zoom: u32,
    steps: i32,
    on: bool,
    line: PowerLine,
)
    requires
        min <= i32::MAX,
        max <= i32::MAX,
    ensures
        ({
            let r = u.controlled(facts, g, CameraControl::FpsRange(min, max));
            &&& r.entries == u.entries.push(
                EntryView::Value(Setting::FpsRange(min as i32, max as i32)),
            )
            &&& r.applied.fps_min == min
            &&& r.triggers == u.triggers && r.ae_changed == u.ae_changed
        }),
        u.controlled(facts, g, CameraControl::Zoom(zoom)) == (UpdateView {
            entries: u.entries.push(EntryView::Value(Setting::Zoom(zoom))),
            ..u
        }),
        u.controlled(facts, g, CameraControl::ExposureBias(steps)) == (UpdateView {
            entries: u.entries.push(EntryView::Value(Setting::AeCompensation(steps))),
            ..u
        }),
        u.controlled(facts, g, CameraControl::Stabilization(on)).entries.last() == EntryView::Value(
            Setting::VideoStabilization(
                if on {
                    VideoStabilizationMode::On
                } else {
                    VideoStabilizationMode::Off
                },
            ),
        ),
        u.controlled(facts, g, CameraControl::FocusAuto(on)).entries.last() == EntryView::Value(
            Setting::AfMode(
                if on {
                    facts.af_continuous
                } else {
                    facts.af_single
                },
            ),
        ),
        ({
            let r = u.controlled(facts, g, CameraControl::PowerLine(line));
            &&& r.entries.len() == u.entries.len() + 1
            &&& r.entries.last() matches EntryView::Value(Setting::AntibandingMode(m)) && {
                &&& m is Off <==> line is Disabled
                &&& m is Hz50 <==> line is Hz50
                &&& m is Hz60 <==> line is Hz60
                &&& m is Auto <==> line is Auto
            }
        }),
{
}

/// A control of the exposure changes what is applied of it, each its own part, and is written in
/// the end only.
pub proof fn law_a_control_of_the_exposure_changes_its_own_part(
    u: UpdateView,
    facts: Facts,
    g: Geometry,
    e: ExposureMode,
    i: IsoMode,
    f: FlashLed,
    v: u32,
)
    ensures
        u.controlled(facts, g, CameraControl::ExposureMode(e)) == (UpdateView {
            applied: Applied { exposure: e, ..u.applied },
            ae_changed: true,
            ..u
        }),
        u.controlled(facts, g, CameraControl::IsoMode(i)) == (UpdateView {
            applied: Applied { iso: i, ..u.applied },
            ae_changed: true,
            ..u
        }),
        u.controlled(facts, g, CameraControl::FlashLed(f)) == (UpdateView {
            applied: Applied { flash: f, ..u.applied },
            ae_changed: true,
            ..u
        }),
        u.controlled(facts, g, CameraControl::ExposureTime(v)) == (UpdateView {
            applied: Applied { exposure_time: v, ..u.applied },
            ae_changed: true,
            ..u
        }),
        u.controlled(facts, g, CameraControl::Iso(v)) == (UpdateView {
            applied: Applied { iso_value: v, ..u.applied },
            ae_changed: true,
            ..u
        }),
{
}

/// A word of the guest's that the camera has a mode for asks for that mode, and is looked for in
/// the results; one that it has none for is passed over. A scene goes with the control mode that
/// lets it have any effect.
pub proof fn law_a_word_asks_for_its_mode(
    u: UpdateView,
    facts: Facts,
    g: Geometry,
    w: WhiteBalance,
    c: ColorEffect,
    s: SceneMode,
)
    ensures
        ({
            let r = u.controlled(facts, g, CameraControl::WhiteBalance(w));
            match stands_for(facts.awb@, w, 0) {
                Some(m) => r.entries == u.entries.push(EntryView::Value(Setting::AwbMode(m)))
                    && r.echo.awb == Some(m) && r.echo.effect == u.echo.effect && r.echo.scene
                    == u.echo.scene && r.applied == u.applied,
                None => r == u,
            }
        }),
        ({
            let r = u.controlled(facts, g, CameraControl::ColorEffect(c));
            match stands_for(facts.effects@, c, 0) {
                Some(m) => r.entries == u.entries.push(EntryView::Value(Setting::EffectMode(m)))
                    && r.echo.effect == Some(m) && r.echo.awb == u.echo.awb && r.echo.scene
                    == u.echo.scene && r.applied == u.applied,
                None => r == u,
            }
        }),
        ({
            let r = u.controlled(facts, g, CameraControl::SceneMode(s));
            let control = if s is NoScene {
                ControlMode::Auto
            } else {
                ControlMode::UseSceneMode
            };
            match stands_for(facts.scenes@, s, 0) {
                Some(m) => r.entries == u.entries.push(
                    EntryView::Value(Setting::ControlMode(control)),
                ).push(EntryView::Value(Setting::SceneMode(m))) && r.echo.scene == Some(
                    (m, control),
                ) && r.echo.awb == u.echo.awb && r.echo.effect == u.echo.effect && r.applied
                    == u.applied,
                None => r == u,
            }
        }),
{
}

/// Regions steer the routine that they are for, and a trigger fires in its turn. What only the
/// camera reports asks for nothing.
pub proof fn law_regions_steer_their_own_routine(
    u: UpdateView,
    facts: Facts,
    g: Geometry,
    regions: Vec<Region>,
    t: AfTrigger,
    status: AfStatus,
    state: AeState,
    id: String,
)
    ensures
        ({
            let areas = g.areas_of(regions@, regions@.len() as int);
            &&& u.controlled(facts, g, CameraControl::AeRegions(regions)) == (UpdateView {
                entries: u.entries.push(EntryView::Regions(Metering::Exposure, areas)),
                ..u
            })
            &&& u.controlled(facts, g, CameraControl::AfRegions(regions)) == (UpdateView {
                entries: u.entries.push(EntryView::Regions(Metering::Focus, areas)),
                ..u
            })
            &&& u.controlled(facts, g, CameraControl::AwbRegions(regions)) == (UpdateView {
                entries: u.entries.push(EntryView::Regions(Metering::WhiteBalance, areas)),
                ..u
            })
        }),
        u.controlled(facts, g, CameraControl::AfTrigger(t)) == (UpdateView {
            triggers: u.triggers.push(t),
            ..u
        }),
        u.controlled(facts, g, CameraControl::AfStatus(status)) == u,
        u.controlled(facts, g, CameraControl::AeState(state)) == u,
        u.controlled(facts, g, CameraControl::ActivePhysicalId(id)) == u,
{
}

/// Where something of the exposure changed, it is written as it is in the end: the mode, the flash,
/// and behind them the time in nanoseconds and the sensitivity, where they are manual.
pub proof fn law_the_exposure_is_written_as_it_is_in_the_end(u: UpdateView)
    ensures
        !u.ae_changed ==> u.finished() == u,
        u.ae_changed ==> {
            let e = u.finished().entries;
            let n = u.entries.len() as int;
            let manual = u.applied.exposure is Manual || u.applied.iso is Manual;
            &&& e.len() == n + if manual {
                4int
            } else {
                2
            }
            &&& forall|i: int| 0 <= i < n ==> e[i] == u.entries[i]
            &&& e[n] == EntryView::Value(
                Setting::AeMode(
                    if manual {
                        HostAeMode::Off
                    } else {
                        HostAeMode::On
                    },
                ),
            )
            &&& e[n + 1] == EntryView::Value(
                Setting::FlashMode(
                    if u.applied.flash is Torch {
                        FlashMode::Torch
                    } else {
                        FlashMode::Off
                    },
                ),
            )
            &&& manual ==> (e[n + 2] matches EntryView::Value(Setting::ExposureTimeNs(t)) && t
                == u.applied.exposure_time * 100_000)
            &&& manual && u.applied.iso_value <= i32::MAX ==> (e[n + 3] matches EntryView::Value(
                Setting::Sensitivity(v),
            ) && v == u.applied.iso_value)
        },
        u.finished().triggers == u.triggers && u.finished().echo == u.echo && u.finished().applied
            == u.applied,
{
}

/// Controls are taken in order, each once, from what was applied before.
pub proof fn law_controls_are_taken_in_order(
    facts: Facts,
    g: Geometry,
    applied: Applied,
    controls: Seq<CameraControl>,
    c: CameraControl,
)
    ensures
        ({
            let all = controls.push(c);
            let n = controls.len() as int;
            let none = controlled_by(facts, g, applied, controls, 0);
            &&& none.entries.len() == 0 && none.triggers.len() == 0 && none.applied == applied
            &&& !none.ae_changed && none.echo.asks_nothing() && none.echo.results == 0
            &&& controlled_by(facts, g, applied, all, n + 1) == controlled_by(
                facts,
                g,
                applied,
                controls,
                n,
            ).controlled(facts, g, c)
        }),
{
    lemma_controls_before(facts, g, applied, controls, controls.push(c), controls.len() as int);
}

proof fn lemma_controls_before(
    facts: Facts,
    g: Geometry,
    applied: Applied,
    a: Seq<CameraControl>,
    b: Seq<CameraControl>,
    n: int,
)
    requires
        n <= a.len(),
        n <= b.len(),
        forall|i: int| 0 <= i < n ==> a[i] == b[i],
    ensures
        controlled_by(facts, g, applied, a, n) == controlled_by(facts, g, applied, b, n),
    decreases n,
{
    if n > 0 {
        lemma_controls_before(facts, g, applied, a, b, n - 1);
    }
}

/// A word stands for the mode of its first pair, and for none where it has no pair.
pub proof fn law_a_word_stands_for_its_first_pair<A, B>(pairs: Seq<(B, A)>, word: B, k: int, i: int)
    requires
        0 <= i <= k <= pairs.len(),
        forall|j: int| i <= j < k ==> (#[trigger] pairs[j]).0 != word,
        k < pairs.len() ==> pairs[k].0 == word,
    ensures
        k < pairs.len() ==> stands_for(pairs, word, i) == Some(pairs[k].1),
        k == pairs.len() ==> stands_for(pairs, word, i) is None,
    decreases k - i,
{
    if i < k {
        assert(pairs[i].0 != word);
        law_a_word_stands_for_its_first_pair(pairs, word, k, i + 1);
    }
}

/// A mode was taken exactly where the result names it; a scene only along with its control mode.
/// What was not asked for is not judged.
pub proof fn law_a_mode_was_taken_where_the_result_names_it(e: ModeEcho, r: CaptureResult)
    ensures
        e.judged(r).awb is Some <==> e.awb is Some,
        e.judged(r).effect is Some <==> e.effect is Some,
        e.judged(r).scene is Some <==> e.scene is Some,
        e.judged(r).awb == Some(true) <==> e.awb is Some && r.awb_mode == e.awb,
        e.judged(r).effect == Some(true) <==> e.effect is Some && r.effect_mode == e.effect,
        e.judged(r).scene == Some(true) <==> (e.scene matches Some(s) && r.scene_mode == Some(s.0)
            && r.control_mode == Some(s.1)),
        e.asks_nothing() <==> e.awb is None && e.effect is None && e.scene is None,
{
}

/// The guest is told that the focus is sought while the lens moves, and that it was reached or not
/// when it stands.
pub proof fn law_the_focus_is_told_as_it_is(s: AfState)
    ensures
        af_status(s) is Idle <==> s is Inactive,
        af_status(s) is Busy <==> s is PassiveScan || s is ActiveScan,
        af_status(s) is Reached <==> s is PassiveFocused || s is FocusedLocked,
        af_status(s) is Failed <==> s is NotFocusedLocked || s is PassiveUnfocused,
{
}

/// A result says what the camera says in it, each part by itself, and nothing of what it leaves
/// out.
pub proof fn law_a_result_says_what_is_in_it(r: CaptureResult)
    ensures
        said_by(r).zoom == r.zoom && said_by(r).ae == r.ae_state,
        r.af_state is None <==> said_by(r).af is None,
        r.af_state matches Some(s) ==> said_by(r).af == Some(af_status(s)),
        r.physical_id is None <==> said_by(r).lens is None,
        r.physical_id matches Some(l) ==> said_by(r).lens == Some(l@),
{
}

/// What is new is told, and what is said last is remembered.
pub proof fn law_what_is_new_is_told<T>(last: Option<T>, said: Option<T>)
    ensures
        said is Some && said != last ==> news(last, said) == said,
        said is None || said == last ==> news(last, said) is None,
        said is Some ==> newer(last, said) == said,
        said is None ==> newer(last, said) == last,
{
}

/// The zoom that entries set is the last one among them.
pub proof fn law_the_last_zoom_counts(entries: Seq<EntryView>, z: u32, e: EntryView)
    requires
        !(e matches EntryView::Value(s) && s is Zoom),
    ensures
        zoom_in(Seq::empty()) is None,
        zoom_in(entries.push(EntryView::Value(Setting::Zoom(z)))) == Some(z),
        zoom_in(entries.push(e)) == zoom_in(entries),
{
    assert(entries.push(EntryView::Value(Setting::Zoom(z))).drop_last() =~= entries);
    assert(entries.push(e).drop_last() =~= entries);
}

/// A frame takes as long as the slowest rate allows, and its own exposure where that is manual and
/// longer. A word on a stall comes after a time that doubles four times.
pub proof fn law_a_frame_takes_its_time(a: Applied, said: int)
    ensures
        ({
            let slowest = if a.fps_min == 0 {
                0
            } else {
                1_000_000_000int / a.fps_min as int
            };
            &&& !a.is_manual() ==> a.frame_ns() == slowest
            &&& a.is_manual() ==> a.frame_ns() >= slowest && a.frame_ns() >= a.exposure_time
                * 100_000 && (a.frame_ns() == slowest || a.frame_ns() == a.exposure_time * 100_000)
        }),
        0 <= said < 4 ==> a.stall_ns(said + 1) == 2 * a.stall_ns(said),
        said >= 4 ==> a.stall_ns(said) == a.stall_ns(4),
        a.stall_ns(0) == STALL_REPORT_NS || a.stall_ns(0) == 3 * a.frame_ns(),
{
    let base = codec::max_int(STALL_REPORT_NS as int, 3 * a.frame_ns());
    assert(base * 1 == base && base * 2 == 2 * base && base * 4 == 4 * base && base * 8 == 8 * base
        && base * 16 == 16 * base) by (nonlinear_arith);
}

/// A request is judged by the sixth result after it, and by no other, and then forgotten; what was
/// never asked for is never judged.
pub proof fn law_a_request_is_judged_once(echo: ModeEcho, result: CaptureResult)
    requires
        echo.results < 6,
    ensures
        ({
            let (v, after) = echo.echoed(result);
            let asks = echo.awb is Some || echo.effect is Some || echo.scene is Some;
            &&& v is Some <==> asks && echo.results == 5
            &&& v matches Some(verdict) ==> verdict == echo.judged(result) && after.awb is None
                && after.effect is None && after.scene is None && after.results == 0
            &&& !asks ==> after == echo
            &&& asks && echo.results < 5 ==> after.results == echo.results + 1 && after.awb
                == echo.awb && after.effect == echo.effect && after.scene == echo.scene
        }),
{
}

/// What a result says is told once: said again, it is no news. Each of the four is told by itself, and
/// what a result does not say is not forgotten.
pub proof fn law_the_same_is_not_told_twice(last: ReportView, said: ReportView, asked: Option<u32>)
    ensures
        ({
            let then = last.after(said);
            let again = then.news_in(said, asked);
            &&& again.af is None && again.ae is None && again.lens is None && again.zoom is None
            &&& said.af is Some ==> then.af == said.af
            &&& said.ae is Some ==> then.ae == said.ae
            &&& said.lens is Some ==> then.lens == said.lens
            &&& said.zoom is Some ==> then.zoom == said.zoom
            &&& said.af is None ==> then.af == last.af
            &&& said.ae is None ==> then.ae == last.ae
            &&& said.lens is None ==> then.lens == last.lens
            &&& said.zoom is None ==> then.zoom == last.zoom
        }),
        ({
            let n = last.news_in(said, asked);
            &&& said.af is Some && said.af != last.af ==> n.af == said.af
            &&& said.ae is Some && said.ae != last.ae ==> n.ae == said.ae
            &&& said.lens is Some && said.lens != last.lens ==> n.lens == said.lens
            &&& said.zoom is Some && said.zoom != last.zoom && said.zoom != asked ==> n.zoom
                == said.zoom
            &&& said.zoom is Some && said.zoom == asked ==> n.zoom is None
        }),
{
}

/// A request holds its entries as they are, in their order, with what to trigger and what to look for
/// in the results. One setting more is one entry more, behind them.
pub proof fn law_a_request_holds_its_entries(
    update: RequestUpdate,
    u: UpdateView,
    setting: Setting,
    i: int,
)
    requires
        update.shows(u),
        0 <= i < u.entries.len(),
    ensures
        update.entries@.len() == u.entries.len(),
        update.entries@[i]@ == u.entries[i],
        update.triggers@ == u.triggers,
        update.echo == u.echo,
        u.with(setting).entries == u.entries.push(EntryView::Value(setting)),
        u.with(setting).triggers == u.triggers && u.with(setting).echo == u.echo && u.with(
            setting,
        ).applied == u.applied && u.with(setting).ae_changed == u.ae_changed,
{
    assert(entry_views(update.entries@)[i] == update.entries@[i]@);
}

} // verus!
