//! The video encoder: which codec encodes what and how it is set up, how a raw frame is laid out
//! for it, and one encode from its first frame to its last coded one.
use crate::bytes;
use crate::codec;
use crate::codec::CodecError;
use crate::codec::CodecInfo;
use crate::codec::CodecKind;
use crate::codec::SizeRange;
use crate::codec::Timeval;
use crate::decoder;
use crate::decoder::BufferInfo;
use crate::decoder::InputBuffer;
use crate::decoder::Outcome;
use crate::decoder::OutputBuffer;
use crate::decoder::Rect;
use crate::errno;
use crate::text;
use vstd::arithmetic::power2;
use vstd::prelude::*;

verus! {

/// How many raw frames the guest is told to bring.
pub const MIN_OUTPUT_BUFFERS: u32 = 4;

/// The bitrate where the guest sets none.
pub const DEFAULT_BITRATE: i32 = 2_000_000;

/// How many coded frames are held before no raw frame is fed.
pub const HELD_OUTPUT_LIMIT: usize = 32;

pub const QP_MIN: i32 = 0;

pub const QP_MAX: i32 = 51;

pub const BITRATE_MODE_CQ: i32 = 0;

pub const BITRATE_MODE_VBR: i32 = 1;

pub const BITRATE_MODE_CBR: i32 = 2;

pub const COLOR_FORMAT_YUV420_PLANAR: i32 = 19;

pub const COLOR_FORMAT_YUV420_PACKED_PLANAR: i32 = 20;

pub const COLOR_FORMAT_YUV420_SEMI_PLANAR: i32 = 21;

pub const COLOR_FORMAT_YUV420_PACKED_SEMI_PLANAR: i32 = 39;

pub const COLOR_FORMAT_YUV420_FLEXIBLE: i32 = 0x7F42_0888;

pub const COLOR_QCOM_FORMAT_YUV420_SEMI_PLANAR: i32 = 0x7FA3_0C00;

pub const COLOR_STANDARD_BT709: i32 = 1;

pub const COLOR_STANDARD_BT601_PAL: i32 = 2;

pub const COLOR_STANDARD_BT601_NTSC: i32 = 4;

pub const COLOR_STANDARD_BT2020: i32 = 6;

pub const COLOR_RANGE_FULL: i32 = 1;

pub const COLOR_RANGE_LIMITED: i32 = 2;

pub const COLOR_TRANSFER_LINEAR: i32 = 1;

pub const COLOR_TRANSFER_SDR_VIDEO: i32 = 3;

pub const COLOR_TRANSFER_ST2084: i32 = 6;

pub const V4L2_COLORSPACE_SMPTE170M: u32 = 1;

pub const V4L2_COLORSPACE_REC709: u32 = 3;

pub const V4L2_COLORSPACE_470_SYSTEM_M: u32 = 5;

pub const V4L2_COLORSPACE_470_SYSTEM_BG: u32 = 6;

pub const V4L2_COLORSPACE_BT2020: u32 = 10;

pub const V4L2_QUANTIZATION_DEFAULT: u32 = 0;

pub const V4L2_QUANTIZATION_FULL_RANGE: u32 = 1;

pub const V4L2_QUANTIZATION_LIM_RANGE: u32 = 2;

pub const V4L2_XFER_FUNC_DEFAULT: u32 = 0;

pub const V4L2_XFER_FUNC_709: u32 = 1;

pub const V4L2_XFER_FUNC_NONE: u32 = 5;

pub const V4L2_XFER_FUNC_SMPTE2084: u32 = 7;

/// The profiles of a media type: the codec's number and the guest's. One that the guest has no
/// number for is not listed.
pub open spec fn profiles_of(mime: Seq<char>) -> Seq<(i32, i32)> {
    if mime == "video/avc"@ {
        seq![
            (0x01i32, 0i32),
            (0x02, 2),
            (0x04, 3),
            (0x08, 4),
            (0x10, 5),
            (0x20, 6),
            (0x40, 7),
            (0x10000, 1),
            (0x80000, 17),
        ]
    } else if mime == "video/hevc"@ {
        seq![(0x01i32, 0i32), (0x02, 2), (0x04, 1)]
    } else if mime == "video/x-vnd.on2.vp8"@ {
        seq![(0x01i32, 0i32)]
    } else if mime == "video/x-vnd.on2.vp9"@ {
        seq![(0x01i32, 0i32), (0x02, 1), (0x04, 2), (0x08, 3)]
    } else {
        Seq::empty()
    }
}

/// The profiles of a media type.
pub fn profile_pairs(mime: &str) -> (pairs: Vec<(i32, i32)>)
    ensures
        pairs@ == profiles_of(mime@),
{
    let mut pairs: Vec<(i32, i32)> = Vec::new();
    if text::same(mime, "video/avc") {
        pairs.push((0x01, 0));
        pairs.push((0x02, 2));
        pairs.push((0x04, 3));
        pairs.push((0x08, 4));
        pairs.push((0x10, 5));
        pairs.push((0x20, 6));
        pairs.push((0x40, 7));
        pairs.push((0x10000, 1));
        pairs.push((0x80000, 17));
    } else if text::same(mime, "video/hevc") {
        pairs.push((0x01, 0));
        pairs.push((0x02, 2));
        pairs.push((0x04, 1));
    } else if text::same(mime, "video/x-vnd.on2.vp8") {
        pairs.push((0x01, 0));
    } else if text::same(mime, "video/x-vnd.on2.vp9") {
        pairs.push((0x01, 0));
        pairs.push((0x02, 1));
        pairs.push((0x04, 2));
        pairs.push((0x08, 3));
    }
    assert(pairs@ =~= profiles_of(mime@));
    pairs
}

/// The profile a session starts with where the guest sets none.
pub open spec fn preferred_profile_of(mime: Seq<char>) -> Option<i32> {
    if mime == "video/avc"@ {
        Some(4i32)
    } else if mime == "video/hevc"@ || mime == "video/x-vnd.on2.vp8"@ || mime
        == "video/x-vnd.on2.vp9"@ {
        Some(0i32)
    } else {
        None
    }
}

/// The profile a session starts with where the guest sets none.
pub fn preferred_profile(mime: &str) -> (p: Option<i32>)
    ensures
        p == preferred_profile_of(mime@),
{
    if text::same(mime, "video/avc") {
        Some(4)
    } else if text::same(mime, "video/hevc") || text::same(mime, "video/x-vnd.on2.vp8")
        || text::same(mime, "video/x-vnd.on2.vp9") {
        Some(0)
    } else {
        None
    }
}

/// The guest's number for the codec's level `1 << bit`: the twenty levels of H.264 in order, and
/// the thirteen of HEVC, each of which the codec lists for two tiers.
pub open spec fn level_at(mime: Seq<char>, bit: int) -> Option<i32> {
    if mime == "video/avc"@ && bit < 20 {
        Some(bit as i32)
    } else if mime == "video/hevc"@ && bit / 2 < 13 {
        Some((bit / 2) as i32)
    } else {
        None
    }
}

/// The codec's level `mc` is `1 << bit`.
pub open spec fn is_level(mc: int, bit: int) -> bool {
    0 <= bit < 31 && mc == power2::pow2(bit as nat)
}

/// A level of the codec's as the guest's.
pub open spec fn level_v4l2(mime: Seq<char>, mc: int) -> Option<i32> {
    if exists|bit: int| is_level(mc, bit) {
        level_at(mime, choose|bit: int| is_level(mc, bit))
    } else {
        None
    }
}

proof fn lemma_one_bit(mc: int, a: int, b: int)
    requires
        is_level(mc, a),
        is_level(mc, b),
    ensures
        a == b,
{
    if a < b {
        power2::lemma_pow2_strictly_increases(a as nat, b as nat);
    } else if b < a {
        power2::lemma_pow2_strictly_increases(b as nat, a as nat);
    }
}

/// A level of the codec's as the guest's.
pub fn level_to_v4l2(mime: &str, mc: i32) -> (l: Option<i32>)
    ensures
        l == level_v4l2(mime@, mc as int),
{
    let avc = text::same(mime, "video/avc");
    let hevc = text::same(mime, "video/hevc");
    let mut p: i64 = 1;
    let mut bit: i32 = 0;
    proof {
        power2::lemma2_to64();
    }
    while bit < 31
        invariant
            0 <= bit <= 31,
            p == power2::pow2(bit as nat),
            p <= 0x8000_0000,
            avc == (mime@ == "video/avc"@),
            hevc == (mime@ == "video/hevc"@),
            forall|b: int| 0 <= b < bit ==> !#[trigger] is_level(mc as int, b),
        decreases 31 - bit,
    {
        if mc as i64 == p {
            proof {
                assert(is_level(mc as int, bit as int));
                lemma_one_bit(
                    mc as int,
                    bit as int,
                    choose|b: int| is_level(mc as int, b),
                );
            }
            if avc && bit < 20 {
                return Some(bit);
            }
            if hevc && bit / 2 < 13 {
                proof {
                    if avc {
                        lemma_types_differ();
                    }
                }
                return Some(bit / 2);
            }
            return None;
        }
        proof {
            power2::lemma_pow2_unfold((bit + 1) as nat);
            power2::lemma2_to64();
            if bit < 30 {
                power2::lemma_pow2_strictly_increases((bit + 1) as nat, 31);
            }
        }
        p = p * 2;
        bit = bit + 1;
    }
    None
}

proof fn lemma_types_differ()
    ensures
        "video/avc"@ != "video/hevc"@,
{
    reveal_strlit("video/avc");
    reveal_strlit("video/hevc");
    assert("video/avc"@.len() != "video/hevc"@.len());
}

/// A level of the guest's as the codec's, in the main tier.
pub open spec fn level_mc(mime: Seq<char>, v4l2: int) -> Option<i32> {
    if mime == "video/avc"@ && 0 <= v4l2 < 20 {
        Some(power2::pow2(v4l2 as nat) as i32)
    } else if mime == "video/hevc"@ && 0 <= v4l2 < 13 {
        Some(power2::pow2((2 * v4l2) as nat) as i32)
    } else {
        None
    }
}

/// A level of the guest's as the codec's.
pub fn level_to_mc(mime: &str, v4l2: i32) -> (l: Option<i32>)
    ensures
        l == level_mc(mime@, v4l2 as int),
{
    if text::same(mime, "video/avc") && 0 <= v4l2 && v4l2 < 20 {
        Some(power_of_two(v4l2))
    } else if text::same(mime, "video/hevc") && 0 <= v4l2 && v4l2 < 13 {
        Some(power_of_two(2 * v4l2))
    } else {
        None
    }
}

/// Two to the power of `n`.
fn power_of_two(n: i32) -> (p: i32)
    requires
        0 <= n <= 24,
    ensures
        p == power2::pow2(n as nat),
{
    let mut p: i32 = 1;
    let mut i: i32 = 0;
    proof {
        power2::lemma2_to64();
    }
    while i < n
        invariant
            0 <= i <= n <= 24,
            p == power2::pow2(i as nat),
        decreases n - i,
    {
        proof {
            power2::lemma_pow2_unfold((i + 1) as nat);
            power2::lemma2_to64();
            if i + 1 < 24 {
                power2::lemma_pow2_strictly_increases((i + 1) as nat, 24);
            }
        }
        p = p * 2;
        i = i + 1;
    }
    p
}

/// A level that the guest sets and the codec takes is the one it was set to.
pub proof fn law_level_round_trip(mime: Seq<char>, v4l2: int)
    requires
        level_mc(mime, v4l2) is Some,
    ensures
        level_v4l2(mime, level_mc(mime, v4l2)->0 as int) == Some(v4l2 as i32),
{
    lemma_types_differ();
    let bit: int = if mime == "video/avc"@ {
        v4l2
    } else {
        2 * v4l2
    };
    power2::lemma2_to64();
    if bit < 24 {
        power2::lemma_pow2_strictly_increases(bit as nat, 24);
    }
    let mc = power2::pow2(bit as nat) as int;
    assert(is_level(mc, bit));
    lemma_one_bit(mc, bit, choose|b: int| is_level(mc, b));
}

#[derive(Clone, Copy, Debug, PartialEq, Eq, Structural)]
pub enum VideoBitrateMode {
    VariableBitrate,
    ConstantBitrate,
    ConstantQuality,
}

/// A bitrate mode as the codec's.
pub open spec fn bitrate_mode_of(mode: VideoBitrateMode) -> i32 {
    match mode {
        VideoBitrateMode::VariableBitrate => BITRATE_MODE_VBR,
        VideoBitrateMode::ConstantBitrate => BITRATE_MODE_CBR,
        VideoBitrateMode::ConstantQuality => BITRATE_MODE_CQ,
    }
}

/// A bitrate mode as the codec's.
pub fn bitrate_mode_to_mc(mode: VideoBitrateMode) -> (m: i32)
    ensures
        m == bitrate_mode_of(mode),
{
    match mode {
        VideoBitrateMode::VariableBitrate => BITRATE_MODE_VBR,
        VideoBitrateMode::ConstantBitrate => BITRATE_MODE_CBR,
        VideoBitrateMode::ConstantQuality => BITRATE_MODE_CQ,
    }
}

/// The colours of raw frames as the guest says them.
#[derive(Clone, Copy, Debug, PartialEq, Eq, Structural)]
pub struct Colorimetry {
    pub colorspace: u32,
    pub quantization: u32,
    pub xfer_func: u32,
}

/// And as the codec takes them; nothing where it cannot be told.
#[derive(Clone, Copy, Debug, PartialEq, Eq, Structural)]
pub struct ColorAspects {
    pub standard: Option<i32>,
    pub range: Option<i32>,
    pub transfer: Option<i32>,
}

/// Whether the defaults of a colour space are those of plain video: limited range, and the
/// transfer of standard dynamic range.
pub open spec fn is_sdr(colorspace: u32) -> bool {
    colorspace == V4L2_COLORSPACE_REC709 || colorspace == V4L2_COLORSPACE_SMPTE170M || colorspace
        == V4L2_COLORSPACE_470_SYSTEM_M || colorspace == V4L2_COLORSPACE_470_SYSTEM_BG || colorspace
        == V4L2_COLORSPACE_BT2020
}

/// The colours as the codec takes them.
pub open spec fn aspects_of(c: Colorimetry) -> ColorAspects {
    ColorAspects {
        standard: if c.colorspace == V4L2_COLORSPACE_REC709 {
            Some(COLOR_STANDARD_BT709)
        } else if c.colorspace == V4L2_COLORSPACE_SMPTE170M || c.colorspace
            == V4L2_COLORSPACE_470_SYSTEM_M {
            Some(COLOR_STANDARD_BT601_NTSC)
        } else if c.colorspace == V4L2_COLORSPACE_470_SYSTEM_BG {
            Some(COLOR_STANDARD_BT601_PAL)
        } else if c.colorspace == V4L2_COLORSPACE_BT2020 {
            Some(COLOR_STANDARD_BT2020)
        } else {
            None
        },
        range: if c.quantization == V4L2_QUANTIZATION_FULL_RANGE {
            Some(COLOR_RANGE_FULL)
        } else if c.quantization == V4L2_QUANTIZATION_LIM_RANGE || c.quantization
            == V4L2_QUANTIZATION_DEFAULT && is_sdr(c.colorspace) {
            Some(COLOR_RANGE_LIMITED)
        } else {
            None
        },
        transfer: if c.xfer_func == V4L2_XFER_FUNC_709 || c.xfer_func == V4L2_XFER_FUNC_DEFAULT
            && is_sdr(c.colorspace) {
            Some(COLOR_TRANSFER_SDR_VIDEO)
        } else if c.xfer_func == V4L2_XFER_FUNC_SMPTE2084 {
            Some(COLOR_TRANSFER_ST2084)
        } else if c.xfer_func == V4L2_XFER_FUNC_NONE {
            Some(COLOR_TRANSFER_LINEAR)
        } else {
            None
        },
    }
}

/// The colours as the codec takes them.
pub fn color_aspects(c: &Colorimetry) -> (a: ColorAspects)
    ensures
        a == aspects_of(*c),
{
    let standard = match c.colorspace {
        V4L2_COLORSPACE_REC709 => Some(COLOR_STANDARD_BT709),
        V4L2_COLORSPACE_SMPTE170M | V4L2_COLORSPACE_470_SYSTEM_M => Some(COLOR_STANDARD_BT601_NTSC),
        V4L2_COLORSPACE_470_SYSTEM_BG => Some(COLOR_STANDARD_BT601_PAL),
        V4L2_COLORSPACE_BT2020 => Some(COLOR_STANDARD_BT2020),
        _ => None,
    };
    let sdr = standard.is_some();
    let range = match c.quantization {
        V4L2_QUANTIZATION_FULL_RANGE => Some(COLOR_RANGE_FULL),
        V4L2_QUANTIZATION_LIM_RANGE => Some(COLOR_RANGE_LIMITED),
        V4L2_QUANTIZATION_DEFAULT => {
            if sdr {
                Some(COLOR_RANGE_LIMITED)
            } else {
                None
            }
        },
        _ => None,
    };
    let transfer = match c.xfer_func {
        V4L2_XFER_FUNC_709 => Some(COLOR_TRANSFER_SDR_VIDEO),
        V4L2_XFER_FUNC_SMPTE2084 => Some(COLOR_TRANSFER_ST2084),
        V4L2_XFER_FUNC_NONE => Some(COLOR_TRANSFER_LINEAR),
        V4L2_XFER_FUNC_DEFAULT => {
            if sdr {
                Some(COLOR_TRANSFER_SDR_VIDEO)
            } else {
                None
            }
        },
        _ => None,
    };
    ColorAspects { standard, range, transfer }
}

// The layout of a raw frame in the codec.

/// How the codec wants its input laid out: rows padded to `stride`, the chroma plane
/// `slice_height` rows down, interleaved or as two planes of half the stride.
#[derive(Clone, Copy, Debug, PartialEq, Eq, Structural)]
pub struct InputLayout {
    pub color_format: i32,
    pub stride: u32,
    pub slice_height: u32,
    pub semiplanar: bool,
}

/// Why a frame cannot be packed.
#[derive(Clone, Copy, Debug, PartialEq, Eq, Structural)]
pub enum PackError {
    /// Nothing of the frame is visible.
    Empty,
    /// The frame is longer than its buffer.
    SourceTooSmall,
    /// The layout does not cover the picture.
    Layout,
    /// The padded frame is longer than the codec's buffer.
    TargetTooSmall,
}

impl InputLayout {
    /// The bytes of a padded frame.
    pub open spec fn frame_bytes(self) -> int {
        let luma = self.stride * self.slice_height;
        luma + luma / 2
    }

    /// The bytes of a padded frame.
    pub fn frame_size(&self) -> (n: u128)
        ensures
            n == self.frame_bytes(),
    {
        assert(0 <= self.stride * self.slice_height <= 0xffff_ffff * 0xffff_ffff)
            by (nonlinear_arith)
            requires
                0 <= self.stride <= 0xffff_ffff,
                0 <= self.slice_height <= 0xffff_ffff,
        ;
        let luma: u128 = self.stride as u128 * self.slice_height as u128;
        luma + luma / 2
    }
}

/// The part of a frame that is packed: its left and top edge, which are even so that its chroma
/// samples are whole, and its size, all inside the frame.
pub struct Window {
    pub left: int,
    pub top: int,
    pub width: int,
    pub height: int,
}

/// The even number at or below one that is not negative.
pub open spec fn even(v: int) -> int {
    codec::max_int(v, 0) - codec::max_int(v, 0) % 2
}

/// The part of a `cw` by `ch` frame that is packed.
pub open spec fn window_of(cw: int, ch: int, visible: Rect) -> Window {
    let left = codec::min_int(even(visible.left as int), cw);
    let top = codec::min_int(even(visible.top as int), ch);
    Window {
        left,
        top,
        width: codec::min_int(visible.width as int, cw - left),
        height: codec::min_int(visible.height as int, ch - top),
    }
}

/// Why a frame cannot be packed.
pub open spec fn pack_fault(
    src_len: int,
    cw: int,
    ch: int,
    w: Window,
    layout: InputLayout,
    dst_len: int,
) -> Option<PackError> {
    if w.width == 0 || w.height == 0 {
        Some(PackError::Empty)
    } else if src_len < codec::nv12_bytes(cw, ch) {
        Some(PackError::SourceTooSmall)
    } else if layout.stride < w.width || layout.slice_height < w.height {
        Some(PackError::Layout)
    } else if dst_len < layout.frame_bytes() {
        Some(PackError::TargetTooSmall)
    } else {
        None
    }
}

/// Luma sample `(col, row)` of the window.
pub open spec fn luma_at(src: Seq<u8>, cw: int, w: Window, row: int, col: int) -> u8 {
    src[(w.top + row) * cw + w.left + col]
}

/// Byte `i` of row `row` of the window's chroma, of which the two kinds alternate.
pub open spec fn chroma_at(src: Seq<u8>, cw: int, ch: int, w: Window, row: int, i: int) -> u8 {
    src[cw * ch + (w.top / 2 + row) * (2 * codec::half_up(cw)) + w.left + i]
}

/// The codec's buffer with the luma packed: each row of the picture at the start of a row of the
/// layout, the rest as it was.
pub open spec fn luma_packed(
    src: Seq<u8>,
    cw: int,
    w: Window,
    layout: InputLayout,
    dst: Seq<u8>,
) -> Seq<u8> {
    Seq::new(
        dst.len(),
        |p: int|
            {
                let row = p / layout.stride as int;
                let col = p % layout.stride as int;
                if row < w.height && col < w.width {
                    luma_at(src, cw, w, row, col)
                } else {
                    dst[p]
                }
            },
    )
}

/// The codec's buffer with interleaved chroma packed behind the luma: each row of the picture at
/// the start of a row of the layout, as far as that row and the padded frame reach, the rest as it
/// was.
pub open spec fn chroma_packed(
    src: Seq<u8>,
    cw: int,
    ch: int,
    w: Window,
    layout: InputLayout,
    dst: Seq<u8>,
) -> Seq<u8> {
    let base = layout.stride * layout.slice_height;
    Seq::new(
        dst.len(),
        |p: int|
            {
                let row = (p - base) / layout.stride as int;
                let col = (p - base) % layout.stride as int;
                if base <= p < layout.frame_bytes() && row < codec::half_up(w.height) && col < 2
                    * codec::half_up(w.width) {
                    chroma_at(src, cw, ch, w, row, col)
                } else {
                    dst[p]
                }
            },
    )
}

/// The codec's buffer with chroma packed into two planes behind the luma, each with half the
/// stride and half the rows: of each kind, a row of the picture at the start of a row of its
/// plane, as far as that row and the plane reach, the rest as it was.
pub open spec fn planes_packed(
    src: Seq<u8>,
    cw: int,
    ch: int,
    w: Window,
    layout: InputLayout,
    dst: Seq<u8>,
) -> Seq<u8> {
    let base = layout.stride * layout.slice_height;
    let half = layout.stride as int / 2;
    let plane = half * (layout.slice_height as int / 2);
    Seq::new(
        dst.len(),
        |p: int|
            {
                let kind: int = if p < base + plane {
                    0
                } else {
                    1
                };
                let k = p - base - kind * plane;
                if base <= p < base + 2 * plane && k / half < codec::half_up(w.height) && k % half
                    < codec::half_up(w.width) {
                    chroma_at(src, cw, ch, w, k / half, 2 * (k % half) + kind)
                } else {
                    dst[p]
                }
            },
    )
}

/// The codec's buffer with a frame packed into it.
pub open spec fn packed(
    src: Seq<u8>,
    cw: int,
    ch: int,
    w: Window,
    layout: InputLayout,
    dst: Seq<u8>,
) -> Seq<u8> {
    let luma = luma_packed(src, cw, w, layout, dst);
    if layout.semiplanar {
        chroma_packed(src, cw, ch, w, layout, luma)
    } else {
        planes_packed(src, cw, ch, w, layout, luma)
    }
}

/// Where a row of the window lies in a frame: inside the luma, or inside the chroma.
proof fn lemma_row_inside(cw: int, ch: int, visible: Rect, row: int)
    requires
        0 <= cw,
        0 <= ch,
        0 <= row,
    ensures
        ({
            let w = window_of(cw, ch, visible);
            &&& 0 <= w.left <= cw && 0 <= w.top <= ch
            &&& w.width <= cw - w.left && w.height <= ch - w.top
            &&& row < w.height && w.width >= 0 ==> {
                &&& 0 <= (w.top + row) * cw
                &&& (w.top + row) * cw + w.left + w.width <= cw * ch
            }
            &&& row < codec::half_up(w.height) && w.width > 0 && w.height > 0 ==> {
                &&& 0 <= cw * ch
                &&& 0 <= (w.top / 2 + row) * (2 * codec::half_up(cw))
                &&& cw * ch + (w.top / 2 + row) * (2 * codec::half_up(cw)) + w.left + 2
                    * codec::half_up(w.width) <= codec::nv12_bytes(cw, ch)
            }
        }),
{
    let w = window_of(cw, ch, visible);
    if row < w.height && w.width >= 0 {
        let r = w.top + row;
        assert(0 <= r * cw && r * cw + cw <= cw * ch) by (nonlinear_arith)
            requires
                0 <= r,
                r + 1 <= ch,
                0 <= cw,
        ;
    }
    if row < codec::half_up(w.height) && w.width > 0 && w.height > 0 {
        let hw = codec::half_up(cw);
        let hh = codec::half_up(ch);
        let r = w.top / 2 + row;
        assert(w.top % 2 == 0);
        assert(w.left % 2 == 0);
        assert(r + 1 <= hh);
        assert(w.left + 2 * codec::half_up(w.width) <= 2 * hw);
        assert(0 <= cw * ch) by (nonlinear_arith)
            requires
                0 <= cw,
                0 <= ch,
        ;
        assert(0 <= r * (2 * hw) && r * (2 * hw) + 2 * hw <= 2 * hw * hh) by (nonlinear_arith)
            requires
                0 <= r,
                r + 1 <= hh,
                0 <= hw,
        ;
    }
}

/// Packs the luma.
fn pack_luma(
    src: &[u8],
    cw: u32,
    ch: u32,
    visible: Rect,
    w: (u32, u32, u32, u32),
    layout: &InputLayout,
    dst: &mut [u8],
)
    requires
        ({
            let win = window_of(cw as int, ch as int, visible);
            &&& w.0 == win.left && w.1 == win.top && w.2 == win.width && w.3 == win.height
            &&& pack_fault(
                src@.len() as int,
                cw as int,
                ch as int,
                win,
                *layout,
                old(dst)@.len() as int,
            ) is None
        }),
    ensures
        final(dst)@ == luma_packed(
            src@,
            cw as int,
            window_of(cw as int, ch as int, visible),
            *layout,
            old(dst)@,
        ),
{
    let ghost win = window_of(cw as int, ch as int, visible);
    let ghost want = luma_packed(src@, cw as int, win, *layout, dst@);
    let ghost stride = layout.stride as int;
    let slen: usize = src.len();
    let dlen: usize = dst.len();
    let mut row: u32 = 0;
    while row < w.3
        invariant
            win == window_of(cw as int, ch as int, visible),
            w.0 == win.left && w.1 == win.top && w.2 == win.width && w.3 == win.height,
            slen == src@.len(),
            dlen == dst@.len() == old(dst)@.len(),
            stride == layout.stride,
            win.width <= stride,
            0 < stride,
            win.height <= layout.slice_height,
            codec::nv12_bytes(cw as int, ch as int) <= slen,
            layout.frame_bytes() <= dlen,
            want == luma_packed(src@, cw as int, win, *layout, old(dst)@),
            row <= w.3,
            forall|p: int|
                0 <= p < dlen ==> #[trigger] dst@[p] == if p < row * stride {
                    want[p]
                } else {
                    old(dst)@[p]
                },
        decreases w.3 - row,
    {
        proof {
            lemma_row_inside(cw as int, ch as int, visible, row as int);
            let hw = codec::half_up(cw as int);
            let hh = codec::half_up(ch as int);
            assert(0 <= 2 * hw * hh) by (nonlinear_arith)
                requires
                    hw >= 0,
                    hh >= 0,
            ;
            let sh = layout.slice_height as int;
            assert(0 <= row * stride && (row + 1) * stride == row * stride + stride && (row + 1)
                * stride <= stride * sh) by (nonlinear_arith)
                requires
                    0 <= row,
                    row + 1 <= sh,
                    0 < stride,
            ;
            assert(0 <= stride * sh) by (nonlinear_arith)
                requires
                    0 <= sh,
                    0 < stride,
            ;
        }
        let from: usize = (w.1 as usize + row as usize) * cw as usize + w.0 as usize;
        let to: usize = row as usize * layout.stride as usize;
        let ghost prev = dst@;
        bytes::copy_bytes(src, from, dst, to, w.2 as usize);
        proof {
            assert forall|p: int| 0 <= p < dlen implies #[trigger] dst@[p] == if p < (row + 1)
                * stride {
                want[p]
            } else {
                old(dst)@[p]
            } by {
                assert(prev[p] == if p < row * stride {
                    want[p]
                } else {
                    old(dst)@[p]
                });
                if row * stride <= p < (row + 1) * stride {
                    vstd::arithmetic::div_mod::lemma_fundamental_div_mod_converse(
                        p,
                        stride,
                        row as int,
                        p - row * stride,
                    );
                }
            }
        }
        row = row + 1;
    }
    proof {
        assert forall|p: int| 0 <= p < dlen && p >= row * stride implies want[p]
            == old(dst)@[p] by {
            let q = p / stride;
            assert(q >= row) by (nonlinear_arith)
                requires
                    p >= row * stride,
                    0 < stride,
                    q == p / stride,
            ;
        }
        assert(dst@ =~= want);
    }
}

/// Packs interleaved chroma.
fn pack_chroma(
    src: &[u8],
    cw: u32,
    ch: u32,
    visible: Rect,
    w: (u32, u32, u32, u32),
    layout: &InputLayout,
    dst: &mut [u8],
)
    requires
        ({
            let win = window_of(cw as int, ch as int, visible);
            &&& w.0 == win.left && w.1 == win.top && w.2 == win.width && w.3 == win.height
            &&& pack_fault(
                src@.len() as int,
                cw as int,
                ch as int,
                win,
                *layout,
                old(dst)@.len() as int,
            ) is None
        }),
    ensures
        final(dst)@ == chroma_packed(
            src@,
            cw as int,
            ch as int,
            window_of(cw as int, ch as int, visible),
            *layout,
            old(dst)@,
        ),
{
    let ghost win = window_of(cw as int, ch as int, visible);
    let ghost stride = layout.stride as int;
    let ghost sh = layout.slice_height as int;
    let ghost start = dst@;
    let ghost want = chroma_packed(src@, cw as int, ch as int, win, *layout, start);
    let slen: usize = src.len();
    let dlen: usize = dst.len();
    proof {
        lemma_row_inside(cw as int, ch as int, visible, 0);
        assert(0 < stride * sh) by (nonlinear_arith)
            requires
                0 < sh,
                0 < stride,
        ;
    }
    let base: usize = layout.stride as usize * layout.slice_height as usize;
    let end: usize = base + base / 2;
    let rows: u32 = w.3 / 2 + w.3 % 2;
    let wide: usize = (w.2 as usize / 2 + w.2 as usize % 2) * 2;
    let mut row: u32 = 0;
    assert(0 * stride == 0) by (nonlinear_arith);
    while row < rows
        invariant
            win == window_of(cw as int, ch as int, visible),
            w.0 == win.left && w.1 == win.top && w.2 == win.width && w.3 == win.height,
            win.width > 0 && win.height > 0,
            slen == src@.len(),
            dlen == dst@.len() == start.len(),
            stride == layout.stride,
            sh == layout.slice_height,
            base == stride * sh,
            end == base + base as int / 2,
            end == layout.frame_bytes(),
            end <= dlen,
            0 < win.width <= stride,
            win.height <= sh,
            rows == codec::half_up(win.height),
            wide == 2 * codec::half_up(win.width),
            codec::nv12_bytes(cw as int, ch as int) <= slen,
            want == chroma_packed(src@, cw as int, ch as int, win, *layout, start),
            row <= rows,
            forall|p: int|
                0 <= p < dlen ==> #[trigger] dst@[p] == if p < base + row * stride {
                    want[p]
                } else {
                    start[p]
                },
        decreases rows - row,
    {
        proof {
            lemma_row_inside(cw as int, ch as int, visible, row as int);
            assert((row + 1) * stride == row * stride + stride) by (nonlinear_arith);
            assert(0 <= 2 * (row * stride) <= stride * sh) by (nonlinear_arith)
                requires
                    0 <= row,
                    2 * row <= sh,
                    0 < stride,
            ;
            let hw = codec::half_up(cw as int);
            let hh = codec::half_up(ch as int);
            assert(2 * hw <= 2 * hw * hh) by (nonlinear_arith)
                requires
                    0 <= hw,
                    1 <= hh,
            ;
        }
        let row_src: usize = (cw as usize / 2 + cw as usize % 2) * 2;
        let from: usize = cw as usize * ch as usize + (w.1 as usize / 2 + row as usize) * row_src
            + w.0 as usize;
        let to: usize = base + row as usize * layout.stride as usize;
        let fits: usize = if wide < layout.stride as usize {
            wide
        } else {
            layout.stride as usize
        };
        let n: usize = if fits < end - to {
            fits
        } else {
            end - to
        };
        let ghost prev = dst@;
        bytes::copy_bytes(src, from, dst, to, n);
        proof {
            assert forall|p: int| 0 <= p < dlen implies #[trigger] dst@[p] == if p < base + (row
                + 1) * stride {
                want[p]
            } else {
                start[p]
            } by {
                assert(prev[p] == if p < base + row * stride {
                    want[p]
                } else {
                    start[p]
                });
                if to <= p < to + stride {
                    vstd::arithmetic::div_mod::lemma_fundamental_div_mod_converse(
                        p - base,
                        stride,
                        row as int,
                        p - to,
                    );
                }
            }
        }
        row = row + 1;
    }
    proof {
        assert forall|p: int| 0 <= p < dlen && p >= base + row * stride implies want[p]
            == start[p] by {
            let x = p - base;
            let q = x / stride;
            assert(q >= row) by (nonlinear_arith)
                requires
                    x >= row * stride,
                    0 < stride,
                    q == x / stride,
            ;
        }
        assert(dst@ =~= want);
    }
}

/// Packs chroma into two planes.
fn pack_planes(
    src: &[u8],
    cw: u32,
    ch: u32,
    visible: Rect,
    w: (u32, u32, u32, u32),
    layout: &InputLayout,
    dst: &mut [u8],
)
    requires
        ({
            let win = window_of(cw as int, ch as int, visible);
            &&& w.0 == win.left && w.1 == win.top && w.2 == win.width && w.3 == win.height
            &&& pack_fault(
                src@.len() as int,
                cw as int,
                ch as int,
                win,
                *layout,
                old(dst)@.len() as int,
            ) is None
        }),
    ensures
        final(dst)@ == planes_packed(
            src@,
            cw as int,
            ch as int,
            window_of(cw as int, ch as int, visible),
            *layout,
            old(dst)@,
        ),
{
    let ghost win = window_of(cw as int, ch as int, visible);
    let ghost stride = layout.stride as int;
    let ghost sh = layout.slice_height as int;
    let ghost start = dst@;
    let ghost want = planes_packed(src@, cw as int, ch as int, win, *layout, start);
    let slen: usize = src.len();
    let dlen: usize = dst.len();
    proof {
        lemma_planes_inside(*layout);
    }
    let base: usize = layout.stride as usize * layout.slice_height as usize;
    let half: usize = layout.stride as usize / 2;
    let high: usize = layout.slice_height as usize / 2;
    let plane: usize = half * high;
    let rows: usize = w.3 as usize / 2 + w.3 as usize % 2;
    let cols: usize = w.2 as usize / 2 + w.2 as usize % 2;
    let rows_in: usize = if rows < high {
        rows
    } else {
        high
    };
    let cols_in: usize = if cols < half {
        cols
    } else {
        half
    };
    let mut row: usize = 0;
    assert(0 * half == 0) by (nonlinear_arith);
    while row < rows_in
        invariant
            win == window_of(cw as int, ch as int, visible),
            w.0 == win.left && w.1 == win.top && w.2 == win.width && w.3 == win.height,
            win.width > 0 && win.height > 0,
            slen == src@.len(),
            dlen == dst@.len() == start.len(),
            stride == layout.stride,
            sh == layout.slice_height,
            base == stride * sh,
            half == stride / 2,
            high == sh / 2,
            plane == half * high,
            base + 2 * plane <= dlen,
            rows == codec::half_up(win.height),
            cols == codec::half_up(win.width),
            rows_in <= rows && rows_in <= high,
            cols_in == if cols < half {
                cols
            } else {
                half
            },
            codec::nv12_bytes(cw as int, ch as int) <= slen,
            want == planes_packed(src@, cw as int, ch as int, win, *layout, start),
            row <= rows_in,
            row * half <= plane,
            forall|p: int|
                0 <= p < dlen ==> #[trigger] dst@[p] == if base <= p < base + row * half || base
                    + plane <= p < base + plane + row * half {
                    want[p]
                } else {
                    start[p]
                },
        decreases rows_in - row,
    {
        proof {
            lemma_row_inside(cw as int, ch as int, visible, row as int);
            let hw = codec::half_up(cw as int);
            let hh = codec::half_up(ch as int);
            assert(2 * hw <= 2 * hw * hh) by (nonlinear_arith)
                requires
                    0 <= hw,
                    1 <= hh,
            ;
            assert(0 <= row * half && (row + 1) * half == row * half + half && (row + 1) * half
                <= half * high) by (nonlinear_arith)
                requires
                    0 <= row,
                    row + 1 <= high,
                    0 <= half,
            ;
        }
        let row_src: usize = (cw as usize / 2 + cw as usize % 2) * 2;
        let from: usize = cw as usize * ch as usize + (w.1 as usize / 2 + row) * row_src
            + w.0 as usize;
        let u: usize = base + row * half;
        let v: usize = u + plane;
        let ghost prev = dst@;
        let mut col: usize = 0;
        while col < cols_in
            invariant
                slen == src@.len(),
                dlen == dst@.len() == prev.len(),
                cols_in <= cols && cols_in <= half,
                cols == codec::half_up(win.width),
                u + half <= v,
                v == u + plane,
                v + half <= dlen,
                from == cw * ch + (win.top / 2 + row) * (2 * codec::half_up(cw as int)) + win.left,
                from + 2 * cols <= slen,
                col <= cols_in,
                forall|p: int|
                    0 <= p < dlen ==> #[trigger] dst@[p] == if u <= p < u + col {
                        chroma_at(src@, cw as int, ch as int, win, row as int, 2 * (p - u))
                    } else if v <= p < v + col {
                        chroma_at(src@, cw as int, ch as int, win, row as int, 2 * (p - v) + 1)
                    } else {
                        prev[p]
                    },
            decreases cols_in - col,
        {
            dst[u + col] = src[from + 2 * col];
            dst[v + col] = src[from + 2 * col + 1];
            col = col + 1;
        }
        proof {
            assert forall|p: int| 0 <= p < dlen implies #[trigger] dst@[p] == if base <= p < base
                + (row + 1) * half || base + plane <= p < base + plane + (row + 1) * half {
                want[p]
            } else {
                start[p]
            } by {
                assert(prev[p] == if base <= p < base + row * half || base + plane <= p < base
                    + plane + row * half {
                    want[p]
                } else {
                    start[p]
                });
                if u <= p < u + half {
                    vstd::arithmetic::div_mod::lemma_fundamental_div_mod_converse(
                        p - base,
                        half as int,
                        row as int,
                        p - u,
                    );
                } else if v <= p < v + half {
                    vstd::arithmetic::div_mod::lemma_fundamental_div_mod_converse(
                        p - base - plane,
                        half as int,
                        row as int,
                        p - v,
                    );
                }
            }
        }
        row = row + 1;
    }
    proof {
        assert forall|p: int|
            0 <= p < dlen && !(base <= p < base + row * half || base + plane <= p < base + plane
                + row * half) implies want[p] == start[p] by {
            let kind: int = if p < base + plane {
                0
            } else {
                1
            };
            let k = p - base - kind * plane;
            if base <= p < base + 2 * plane {
                assert(0 < half) by (nonlinear_arith)
                    requires
                        0 < plane,
                        plane == half * high,
                        0 <= half,
                ;
                let q = k / half as int;
                assert(q >= row) by (nonlinear_arith)
                    requires
                        k >= row * half,
                        0 < half,
                        q == k / half as int,
                ;
                assert(q < high) by (nonlinear_arith)
                    requires
                        k < half * high,
                        0 < half,
                        q == k / half as int,
                ;
            }
        }
        assert(dst@ =~= want);
    }
}

/// The two planes of chroma end inside the padded frame.
proof fn lemma_planes_inside(layout: InputLayout)
    ensures
        ({
            let luma = layout.stride * layout.slice_height;
            let plane = (layout.stride as int / 2) * (layout.slice_height as int / 2);
            &&& 0 <= plane
            &&& 0 <= luma
            &&& luma + 2 * plane <= layout.frame_bytes()
        }),
{
    let (s, h) = (layout.stride as int, layout.slice_height as int);
    let (s2, h2) = (s / 2, h / 2);
    assert(0 <= s2 * h2 && 4 * (s2 * h2) <= s * h) by (nonlinear_arith)
        requires
            0 <= s2,
            0 <= h2,
            2 * s2 <= s,
            2 * h2 <= h,
    ;
}

/// The part of a frame that is packed: left, top, width and height.
fn window(cw: u32, ch: u32, visible: Rect) -> (w: (u32, u32, u32, u32))
    ensures
        ({
            let win = window_of(cw as int, ch as int, visible);
            w.0 == win.left && w.1 == win.top && w.2 == win.width && w.3 == win.height
        }),
{
    let l: u32 = if visible.left < 0 {
        0
    } else {
        visible.left as u32
    };
    let t: u32 = if visible.top < 0 {
        0
    } else {
        visible.top as u32
    };
    let left: u32 = if l - l % 2 < cw {
        l - l % 2
    } else {
        cw
    };
    let top: u32 = if t - t % 2 < ch {
        t - t % 2
    } else {
        ch
    };
    let width: u32 = if visible.width < cw - left {
        visible.width
    } else {
        cw - left
    };
    let height: u32 = if visible.height < ch - top {
        visible.height
    } else {
        ch - top
    };
    (left, top, width, height)
}

/// Packs the visible part of a tightly packed NV12 frame into the codec's buffer, and returns
/// how many bytes of it are used. Bytes in the padding stay as they were, and so do those behind
/// the padded frame: chroma that a tight layout of an odd picture has no room for is left out.
pub fn pack_frame(
    src: &[u8],
    coded: (u32, u32),
    visible: Rect,
    layout: &InputLayout,
    dst: &mut [u8],
) -> (r: Result<usize, PackError>)
    ensures
        ({
            let w = window_of(coded.0 as int, coded.1 as int, visible);
            let fault = pack_fault(
                src@.len() as int,
                coded.0 as int,
                coded.1 as int,
                w,
                *layout,
                old(dst)@.len() as int,
            );
            match r {
                Err(e) => fault == Some(e) && final(dst)@ == old(dst)@,
                Ok(n) => {
                    &&& fault is None
                    &&& n == layout.frame_bytes()
                    &&& final(dst)@ == packed(
                        src@,
                        coded.0 as int,
                        coded.1 as int,
                        w,
                        *layout,
                        old(dst)@,
                    )
                    &&& forall|p: int| n <= p < old(dst)@.len() ==> final(dst)@[p] == old(dst)@[p]
                },
            }
        }),
{
    let (cw, ch) = coded;
    let w = window(cw, ch, visible);
    if w.2 == 0 || w.3 == 0 {
        return Err(PackError::Empty);
    }
    if (src.len() as u128) < codec::nv12_size(cw, ch) {
        return Err(PackError::SourceTooSmall);
    }
    if layout.stride < w.2 || layout.slice_height < w.3 {
        return Err(PackError::Layout);
    }
    let needed: u128 = layout.frame_size();
    if (dst.len() as u128) < needed {
        return Err(PackError::TargetTooSmall);
    }
    pack_luma(src, cw, ch, visible, w, layout, dst);
    if layout.semiplanar {
        pack_chroma(src, cw, ch, visible, w, layout, dst);
    } else {
        pack_planes(src, cw, ch, visible, w, layout, dst);
    }
    proof {
        lemma_planes_inside(*layout);
        lemma_luma_inside(
            src@,
            cw as int,
            window_of(cw as int, ch as int, visible),
            *layout,
            old(dst)@,
        );
    }
    Ok(needed as usize)
}

/// Packing the luma leaves what is behind it alone.
proof fn lemma_luma_inside(src: Seq<u8>, cw: int, w: Window, layout: InputLayout, dst: Seq<u8>)
    requires
        w.height <= layout.slice_height,
        0 < layout.stride,
    ensures
        forall|p: int|
            layout.stride * layout.slice_height <= p < dst.len() ==> #[trigger] luma_packed(
                src,
                cw,
                w,
                layout,
                dst,
            )[p] == dst[p],
{
    let (s, h) = (layout.stride as int, layout.slice_height as int);
    assert forall|p: int| s * h <= p < dst.len() implies #[trigger] luma_packed(
        src,
        cw,
        w,
        layout,
        dst,
    )[p] == dst[p] by {
        let row = p / s;
        assert(row >= h) by (nonlinear_arith)
            requires
                s * h <= p,
                0 < s,
                row == p / s,
        ;
    }
}

/// Where each sample of a chroma row, of which the two kinds alternate, stands in a padded frame.
pub open spec fn chroma_place(layout: InputLayout, row: int, i: int) -> int {
    let base = layout.stride * layout.slice_height;
    if layout.semiplanar {
        base + row * layout.stride + i
    } else {
        let half = layout.stride as int / 2;
        base + (i % 2) * (half * (layout.slice_height as int / 2)) + row * half + i / 2
    }
}

/// A layout that covers the picture, its sides rounded up to even numbers, loses none of it: each
/// sample of luma and of chroma is found in its place.
pub proof fn law_the_whole_picture_is_packed(
    src: Seq<u8>,
    cw: int,
    ch: int,
    w: Window,
    layout: InputLayout,
    dst: Seq<u8>,
    row: int,
    i: int,
)
    requires
        0 < w.width && 2 * codec::half_up(w.width) <= layout.stride,
        0 < w.height && 2 * codec::half_up(w.height) <= layout.slice_height,
        layout.frame_bytes() <= dst.len(),
        0 <= row,
        0 <= i,
    ensures
        ({
            let r = packed(src, cw, ch, w, layout, dst);
            &&& row < w.height && i < w.width ==> r[row * layout.stride + i] == luma_at(
                src,
                cw,
                w,
                row,
                i,
            )
            &&& row < codec::half_up(w.height) && i < 2 * codec::half_up(w.width)
                ==> r[chroma_place(layout, row, i)] == chroma_at(src, cw, ch, w, row, i)
        }),
{
    let (s, h) = (layout.stride as int, layout.slice_height as int);
    let (s2, h2) = (s / 2, h / 2);
    lemma_planes_inside(layout);
    assert(0 <= row * s && 0 <= row * s2) by (nonlinear_arith)
        requires
            0 <= row,
            0 <= s,
            0 <= s2,
    ;
    if row < w.height && i < w.width {
        assert(row * s + s <= s * h) by (nonlinear_arith)
            requires
                row + 1 <= h,
                0 < s,
        ;
        vstd::arithmetic::div_mod::lemma_fundamental_div_mod_converse(row * s + i, s, row, i);
    }
    if row < codec::half_up(w.height) && i < 2 * codec::half_up(w.width) {
        if layout.semiplanar {
            assert(2 * (row * s + s) <= s * h) by (nonlinear_arith)
                requires
                    2 * row + 2 <= h,
                    0 < s,
            ;
            vstd::arithmetic::div_mod::lemma_fundamental_div_mod_converse(row * s + i, s, row, i);
        } else {
            assert(row * s2 + s2 <= s2 * h2) by (nonlinear_arith)
                requires
                    row + 1 <= h2,
                    0 <= s2,
            ;
            vstd::arithmetic::div_mod::lemma_fundamental_div_mod_converse(
                row * s2 + i / 2,
                s2,
                row,
                i / 2,
            );
            let plane = s2 * h2;
            assert(0 * plane == 0 && 1 * plane == plane) by (nonlinear_arith);
        }
    }
}

// The choice of an encoder, and what it is offered as.

#[derive(Clone, Copy, Debug, PartialEq, Eq, Structural)]
pub struct FrameRateRange {
    pub min: u32,
    pub max: u32,
}

/// A control of the guest's: its range, and what it starts at.
#[derive(Clone, Copy, Debug, PartialEq, Eq, Structural)]
pub struct ControlRange {
    pub min: i32,
    pub max: i32,
    pub default: i32,
}

#[derive(Clone, Copy, Debug, PartialEq, Eq, Structural)]
pub struct QpRange {
    pub min: i32,
    pub max: i32,
}

/// A coded format as it is offered.
pub struct CodedFormat {
    pub fourcc: u32,
    pub width: SizeRange,
    pub height: SizeRange,
    pub frame_rate: FrameRateRange,
    pub bitrate: ControlRange,
    pub gop_size: ControlRange,
    pub bitrate_modes: Vec<VideoBitrateMode>,
    pub profiles: Vec<i32>,
    /// The highest first.
    pub levels: Vec<i32>,
    pub qp: Option<QpRange>,
}

/// The codec behind a coded format.
#[derive(Clone, Debug)]
pub struct ChosenEncoder {
    pub fourcc: u32,
    pub mime: String,
    pub name: String,
    pub hardware: bool,
    pub vendor: bool,
    pub qp_bounds: bool,
    /// The level that the guest's control starts at. A session at this level leaves the choice
    /// to the codec.
    pub default_level: Option<i32>,
}

/// The frame rates offered: the platform's, not below 1 and not empty, or a wide range where it
/// publishes none.
pub open spec fn frame_rates_of(video: Option<codec::VideoCapabilities>) -> FrameRateRange {
    match video {
        Some(v) => if v.frame_rates.1 <= 0 {
            FrameRateRange { min: 1, max: 240 }
        } else {
            let min = codec::max_int(v.frame_rates.0 as int, 1);
            FrameRateRange {
                min: min as u32,
                max: codec::max_int(v.frame_rates.1 as int, min) as u32,
            }
        },
        None => FrameRateRange { min: 1, max: 240 },
    }
}

/// The bitrates offered, in the same way.
pub open spec fn bitrates_of(video: Option<codec::VideoCapabilities>) -> ControlRange {
    let (lo, hi): (int, int) = match video {
        Some(v) => if v.bitrates.1 <= 0 {
            (1, 100_000_000)
        } else {
            let lo = codec::max_int(v.bitrates.0 as int, 1);
            (lo, codec::max_int(v.bitrates.1 as int, lo))
        },
        None => (1, 100_000_000),
    };
    ControlRange {
        min: lo as i32,
        max: hi as i32,
        default: codec::min_int(codec::max_int(DEFAULT_BITRATE as int, lo), hi) as i32,
    }
}

/// The bitrate modes offered: those the codec takes, a variable one before a constant one, and
/// a variable one where it takes neither. Constant quality is not offered.
pub open spec fn modes_of(encoder: Option<codec::EncoderModes>) -> Seq<VideoBitrateMode> {
    let vbr = VideoBitrateMode::VariableBitrate;
    let cbr = VideoBitrateMode::ConstantBitrate;
    match encoder {
        Some(e) => if e.vbr && e.cbr {
            seq![vbr, cbr]
        } else if e.cbr {
            seq![cbr]
        } else {
            seq![vbr]
        },
        None => seq![vbr, cbr],
    }
}

/// The guest's number for a profile of the codec's, from pair `i` on.
pub open spec fn profile_v4l2(pairs: Seq<(i32, i32)>, mc: i32, i: int) -> Option<i32>
    decreases pairs.len() - i,
{
    if i >= pairs.len() {
        None
    } else if pairs[i].0 == mc {
        Some(pairs[i].1)
    } else {
        profile_v4l2(pairs, mc, i + 1)
    }
}

/// The codec's number for a profile of the guest's, from pair `i` on.
pub open spec fn profile_mc(pairs: Seq<(i32, i32)>, v4l2: i32, i: int) -> Option<i32>
    decreases pairs.len() - i,
{
    if i >= pairs.len() {
        None
    } else if pairs[i].1 == v4l2 {
        Some(pairs[i].0)
    } else {
        profile_mc(pairs, v4l2, i + 1)
    }
}

/// The guest's numbers for the first `n` profiles of a codec, each once, in the codec's order.
pub open spec fn profile_menu(mime: Seq<char>, infos: Seq<codec::ProfileInfo>, n: int) -> Seq<i32>
    decreases n,
{
    if n <= 0 {
        Seq::empty()
    } else {
        let rest = profile_menu(mime, infos, n - 1);
        match profile_v4l2(profiles_of(mime), infos[n - 1].profile, 0) {
            Some(v) => if rest.contains(v) {
                rest
            } else {
                rest.push(v)
            },
            None => rest,
        }
    }
}

/// A menu with one entry, where it is there, brought to the front.
pub open spec fn with_first(menu: Seq<i32>, first: Option<i32>) -> Seq<i32> {
    match first {
        Some(p) => if menu.contains(p) {
            seq![p] + menu.remove(menu.index_of(p))
        } else {
            menu
        },
        None => menu,
    }
}

/// Whether some of the first `n` profiles of a codec comes in a level of the guest's.
pub open spec fn has_level(mime: Seq<char>, infos: Seq<codec::ProfileInfo>, n: int, l: i32) -> bool {
    exists|i: int, j: int| #[trigger] level_listed(mime, infos, n, l, i, j)
}

/// Level `j` of profile `i`, one of the first `n`, is the guest's level `l`.
pub open spec fn level_listed(
    mime: Seq<char>,
    infos: Seq<codec::ProfileInfo>,
    n: int,
    l: i32,
    i: int,
    j: int,
) -> bool {
    &&& 0 <= i < n
    &&& 0 <= j < infos[i].levels@.len()
    &&& level_v4l2(mime, infos[i].levels@[j] as int) == Some(l)
}

/// Whether every number is above the next.
pub open spec fn falling(s: Seq<i32>) -> bool {
    forall|i: int, j: int| 0 <= i < j < s.len() ==> s[i] > s[j]
}

impl CodedFormat {
    /// Whether this is how a codec for format `k` is offered.
    pub open spec fn describes(&self, k: int, info: CodecInfo) -> bool {
        let mime = codec::format_mime(k);
        &&& self.fourcc == codec::format_fourcc(k)
        &&& (self.width, self.height) == codec::sizes_of(info.video)
        &&& self.frame_rate == frame_rates_of(info.video)
        &&& self.bitrate == bitrates_of(info.video)
        &&& self.gop_size == (ControlRange { min: 0, max: 65_535, default: 30 })
        &&& self.bitrate_modes@ == modes_of(info.encoder)
        &&& self.profiles@ == with_first(
            profile_menu(mime, info.profiles@, info.profiles@.len() as int),
            preferred_profile_of(mime),
        )
        &&& falling(self.levels@)
        &&& forall|l: i32| #[trigger]
            self.levels@.contains(l) <==> has_level(
                mime,
                info.profiles@,
                info.profiles@.len() as int,
                l,
            )
        &&& self.qp == if codec::supports(info, "qp-bounds"@) {
            Some(QpRange { min: QP_MIN, max: QP_MAX })
        } else {
            None
        }
    }
}

impl ChosenEncoder {
    /// Whether this is a listed codec, chosen for format `k` and offered as `format`.
    pub open spec fn stands_for(&self, k: int, info: CodecInfo, format: CodedFormat) -> bool {
        &&& self.fourcc == codec::format_fourcc(k)
        &&& self.mime@ == codec::format_mime(k)
        &&& self.name@ == info.name@
        &&& self.hardware == codec::hardware(info)
        &&& self.vendor == info.is_vendor
        &&& self.qp_bounds == codec::supports(info, "qp-bounds"@)
        &&& self.default_level == if format.levels@.len() == 0 {
            None
        } else {
            Some(format.levels@[0])
        }
    }
}

/// Puts a number into a falling list, unless it is there.
fn insert_falling(list: &mut Vec<i32>, x: i32)
    requires
        falling(old(list)@),
    ensures
        falling(final(list)@),
        forall|l: i32| #[trigger] final(list)@.contains(l) <==> old(list)@.contains(l) || l == x,
{
    let ghost before = list@;
    let mut i: usize = 0;
    while i < list.len() && list[i] > x
        invariant
            i <= list@.len(),
            list@ == before,
            falling(before),
            forall|j: int| 0 <= j < i ==> #[trigger] list@[j] > x,
        decreases list@.len() - i,
    {
        i = i + 1;
    }
    if i < list.len() && list[i] == x {
        assert(list@[i as int] == x);
        return;
    }
    list.insert(i, x);
    proof {
        assert(list@ =~= before.insert(i as int, x));
        assert(list@[i as int] == x);
        assert forall|l: i32| #[trigger] list@.contains(l) <==> before.contains(l) || l == x by {
            if before.contains(l) {
                let j = choose|j: int| 0 <= j < before.len() && before[j] == l;
                if j < i {
                    assert(list@[j] == l);
                } else {
                    assert(list@[j + 1] == l);
                }
            }
            if list@.contains(l) {
                let j = choose|j: int| 0 <= j < list@.len() && list@[j] == l;
                if j < i {
                    assert(before[j] == l);
                } else if j > i {
                    assert(before[j - 1] == l);
                }
            }
        }
    }
}

/// Whether a list holds a number, and where first.
fn position(list: &Vec<i32>, x: i32) -> (r: Option<usize>)
    ensures
        match r {
            Some(i) => i < list@.len() && list@[i as int] == x && forall|j: int|
                0 <= j < i ==> #[trigger] list@[j] != x,
            None => !list@.contains(x),
        },
{
    let mut i: usize = 0;
    while i < list.len()
        invariant
            i <= list@.len(),
            forall|j: int| 0 <= j < i ==> #[trigger] list@[j] != x,
        decreases list@.len() - i,
    {
        if list[i] == x {
            return Some(i);
        }
        i = i + 1;
    }
    None
}

/// The guest's number for a profile of the codec's.
fn find_v4l2(pairs: &Vec<(i32, i32)>, mc: i32) -> (r: Option<i32>)
    ensures
        r == profile_v4l2(pairs@, mc, 0),
{
    let mut i: usize = 0;
    while i < pairs.len()
        invariant
            i <= pairs@.len(),
            profile_v4l2(pairs@, mc, 0) == profile_v4l2(pairs@, mc, i as int),
        decreases pairs@.len() - i,
    {
        if pairs[i].0 == mc {
            return Some(pairs[i].1);
        }
        i = i + 1;
    }
    None
}

/// The codec's number for a profile of the guest's.
pub fn find_mc(pairs: &Vec<(i32, i32)>, v4l2: i32) -> (r: Option<i32>)
    ensures
        r == profile_mc(pairs@, v4l2, 0),
{
    let mut i: usize = 0;
    while i < pairs.len()
        invariant
            i <= pairs@.len(),
            profile_mc(pairs@, v4l2, 0) == profile_mc(pairs@, v4l2, i as int),
        decreases pairs@.len() - i,
    {
        if pairs[i].1 == v4l2 {
            return Some(pairs[i].0);
        }
        i = i + 1;
    }
    None
}

/// The profile menu of a codec.
fn profiles(mime: &str, infos: &Vec<codec::ProfileInfo>) -> (menu: Vec<i32>)
    ensures
        menu@ == with_first(
            profile_menu(mime@, infos@, infos@.len() as int),
            preferred_profile_of(mime@),
        ),
{
    let pairs = profile_pairs(mime);
    let mut menu: Vec<i32> = Vec::new();
    let mut i: usize = 0;
    while i < infos.len()
        invariant
            i <= infos@.len(),
            pairs@ == profiles_of(mime@),
            menu@ == profile_menu(mime@, infos@, i as int),
            menu@.no_duplicates(),
        decreases infos@.len() - i,
    {
        match find_v4l2(&pairs, infos[i].profile) {
            Some(v) => {
                match position(&menu, v) {
                    Some(at) => {
                        assert(menu@[at as int] == v);
                    },
                    None => {
                        menu.push(v);
                    },
                }
            },
            None => {},
        }
        i = i + 1;
    }
    match preferred_profile(mime) {
        Some(p) => {
            match position(&menu, p) {
                Some(at) => {
                    let ghost before = menu@;
                    proof {
                        assert(before[at as int] == p);
                        assert(before.contains(p));
                        lemma_first_place(before, p, at as int);
                    }
                    let _ = menu.remove(at);
                    menu.insert(0, p);
                    assert(menu@ =~= seq![p] + before.remove(at as int));
                },
                None => {},
            }
        },
        None => {},
    }
    menu
}

/// In a menu without repeats, an entry has one place.
proof fn lemma_first_place(menu: Seq<i32>, p: i32, at: int)
    requires
        0 <= at < menu.len(),
        menu[at] == p,
        menu.no_duplicates(),
    ensures
        menu.index_of(p) == at,
{
    let i = menu.index_of(p);
    assert(0 <= i < menu.len() && menu[i] == p);
}

/// The level menu of a codec: every level of every profile, the highest first.
fn levels(mime: &str, infos: &Vec<codec::ProfileInfo>) -> (menu: Vec<i32>)
    ensures
        falling(menu@),
        forall|l: i32| #[trigger]
            menu@.contains(l) <==> has_level(mime@, infos@, infos@.len() as int, l),
{
    let mut menu: Vec<i32> = Vec::new();
    let mut i: usize = 0;
    while i < infos.len()
        invariant
            i <= infos@.len(),
            falling(menu@),
            forall|l: i32| #[trigger] menu@.contains(l) <==> has_level(mime@, infos@, i as int, l),
        decreases infos@.len() - i,
    {
        let ghost before = menu@;
        let mut j: usize = 0;
        while j < infos[i].levels.len()
            invariant
                i < infos@.len(),
                j <= infos@[i as int].levels@.len(),
                falling(menu@),
                forall|l: i32| #[trigger] before.contains(l) <==> has_level(mime@, infos@, i as int, l),
                forall|l: i32| #[trigger]
                    menu@.contains(l) <==> before.contains(l) || exists|k: int|
                        k < j && #[trigger] level_listed(mime@, infos@, i + 1, l, i as int, k),
            decreases infos@[i as int].levels@.len() - j,
        {
            let ghost prev = menu@;
            let mc: i32 = infos[i].levels[j];
            match level_to_v4l2(mime, mc) {
                Some(l) => {
                    insert_falling(&mut menu, l);
                    assert(level_listed(mime@, infos@, i + 1, l, i as int, j as int));
                },
                None => {},
            }
            j = j + 1;
            assert forall|l: i32| #[trigger] menu@.contains(l) <==> before.contains(l) || exists|
                k: int,
            |
                k < j && #[trigger] level_listed(mime@, infos@, i + 1, l, i as int, k) by {
                if prev.contains(l) && !before.contains(l) {
                    let k = choose|k: int|
                        k < j - 1 && #[trigger] level_listed(mime@, infos@, i + 1, l, i as int, k);
                    assert(level_listed(mime@, infos@, i + 1, l, i as int, k));
                }
            }
        }
        assert forall|l: i32| #[trigger] menu@.contains(l) <==> has_level(
            mime@,
            infos@,
            i + 1,
            l,
        ) by {
            if before.contains(l) {
                let (a, b) = choose|a: int, b: int| #[trigger]
                    level_listed(mime@, infos@, i as int, l, a, b);
                assert(level_listed(mime@, infos@, i + 1, l, a, b));
            }
            if has_level(mime@, infos@, i + 1, l) {
                let (a, b) = choose|a: int, b: int| #[trigger]
                    level_listed(mime@, infos@, i + 1, l, a, b);
                if a < i {
                    assert(level_listed(mime@, infos@, i as int, l, a, b));
                }
            }
        }
        i = i + 1;
    }
    menu
}

/// The larger of two numbers.
fn larger(a: i32, b: i32) -> (m: i32)
    ensures
        m == codec::max_int(a as int, b as int),
{
    if a < b {
        b
    } else {
        a
    }
}

/// A chosen codec as it is offered, and as a session creates it.
pub fn describe(info: &CodecInfo, k: usize) -> (r: (CodedFormat, ChosenEncoder))
    requires
        k < codec::CODED_FORMATS,
    ensures
        r.0.describes(k as int, *info),
        r.1.stands_for(k as int, *info, r.0),
{
    let (fourcc, mime) = codec::coded_format(k);
    let (width, height) = codec::size_ranges(info);
    let mut frame_rate = FrameRateRange { min: 1, max: 240 };
    let mut low: i32 = 1;
    let mut high: i32 = 100_000_000;
    match info.video {
        Some(v) => {
            if v.frame_rates.1 > 0 {
                let min: i32 = larger(v.frame_rates.0, 1);
                frame_rate = FrameRateRange {
                    min: min as u32,
                    max: larger(v.frame_rates.1, min) as u32,
                };
            }
            if v.bitrates.1 > 0 {
                low = larger(v.bitrates.0, 1);
                high = larger(v.bitrates.1, low);
            }
        },
        None => {},
    }
    let start: i32 = larger(DEFAULT_BITRATE, low);
    let bitrate = ControlRange {
        min: low,
        max: high,
        default: if start < high {
            start
        } else {
            high
        },
    };
    let mut bitrate_modes: Vec<VideoBitrateMode> = Vec::new();
    let (vbr, cbr): (bool, bool) = match info.encoder {
        Some(e) => (e.vbr, e.cbr),
        None => (true, true),
    };
    if vbr || !cbr {
        bitrate_modes.push(VideoBitrateMode::VariableBitrate);
    }
    if cbr {
        bitrate_modes.push(VideoBitrateMode::ConstantBitrate);
    }
    assert(bitrate_modes@ =~= modes_of(info.encoder));
    let qp_bounds = codec::has_feature(info, "qp-bounds");
    let profiles = profiles(mime, &info.profiles);
    let levels = levels(mime, &info.profiles);
    let default_level: Option<i32> = if levels.len() == 0 {
        None
    } else {
        Some(levels[0])
    };
    let format = CodedFormat {
        fourcc,
        width,
        height,
        frame_rate,
        bitrate,
        gop_size: ControlRange { min: 0, max: 65_535, default: 30 },
        bitrate_modes,
        profiles,
        levels,
        qp: if qp_bounds {
            Some(QpRange { min: QP_MIN, max: QP_MAX })
        } else {
            None
        },
    };
    let chosen = ChosenEncoder {
        fourcc,
        mime: mime.to_owned(),
        name: info.name.clone(),
        hardware: codec::is_hardware(info),
        vendor: info.is_vendor,
        qp_bounds,
        default_level,
    };
    (format, chosen)
}

/// The formats among the first `k` for which there is an encoder, each with the codec's place in
/// the list. AV1 is offered only along with software.
pub open spec fn encoders_offered(codecs: Seq<CodecInfo>, allow_sw: bool, k: int) -> Seq<
    (int, int),
>
    decreases k,
{
    if k <= 0 {
        Seq::empty()
    } else {
        let rest = encoders_offered(codecs, allow_sw, k - 1);
        let mime = codec::format_mime(k - 1);
        if codec::format_fourcc(k - 1) == codec::AV10 && !allow_sw || codec::no_choice(
            codecs,
            codecs.len() as int,
            CodecKind::Encoder,
            mime,
            allow_sw,
        ) {
            rest
        } else {
            rest.push((k - 1, decoder::choice(codecs, CodecKind::Encoder, mime, allow_sw)))
        }
    }
}

/// The platform's encoders, one for each coded format that has one.
pub struct MediaCodecEncoderBackend {
    pub coded_formats: Vec<CodedFormat>,
    pub codecs: Vec<ChosenEncoder>,
    pub min_output_buffers: u32,
}

impl MediaCodecEncoderBackend {
    /// Whether the first of the formats are offered as `o` says.
    pub open spec fn offers(&self, list: Seq<CodecInfo>, o: Seq<(int, int)>) -> bool {
        &&& self.coded_formats@.len() == o.len()
        &&& self.codecs@.len() == o.len()
        &&& forall|m: int|
            0 <= m < o.len() ==> (#[trigger] self.coded_formats@[m]).describes(
                o[m].0,
                list[o[m].1],
            )
        &&& forall|m: int|
            0 <= m < o.len() ==> (#[trigger] self.codecs@[m]).stands_for(
                o[m].0,
                list[o[m].1],
                self.coded_formats@[m],
            )
    }

    /// Chooses an encoder for each coded format. Software is left out unless it is allowed, and
    /// so is AV1; a platform without any encoder gets a device that offers nothing.
    pub fn new(list: &Vec<CodecInfo>, allow_sw: bool) -> (backend: Self)
        ensures
            backend.min_output_buffers == MIN_OUTPUT_BUFFERS,
            backend.offers(
                list@,
                encoders_offered(list@, allow_sw, codec::CODED_FORMATS as int),
            ),
    {
        let mut backend = MediaCodecEncoderBackend {
            coded_formats: Vec::new(),
            codecs: Vec::new(),
            min_output_buffers: MIN_OUTPUT_BUFFERS,
        };
        let mut k: usize = 0;
        while k < codec::CODED_FORMATS
            invariant
                k <= codec::CODED_FORMATS,
                backend.min_output_buffers == MIN_OUTPUT_BUFFERS,
                backend.offers(list@, encoders_offered(list@, allow_sw, k as int)),
            decreases codec::CODED_FORMATS - k,
        {
            let (fourcc, mime) = codec::coded_format(k);
            if !(fourcc == codec::AV10 && !allow_sw) {
                match codec::choose_codec(list, CodecKind::Encoder, mime, allow_sw) {
                    Some(i) => {
                        let info = &list[i];
                        proof {
                            assert(codec::rank_of(
                                list@[i as int],
                                CodecKind::Encoder,
                                mime@,
                                allow_sw,
                            ) > 0);
                            codec::law_the_choice_is_unique(
                                list@,
                                CodecKind::Encoder,
                                mime@,
                                allow_sw,
                                i as int,
                                decoder::choice(list@, CodecKind::Encoder, mime@, allow_sw),
                            );
                        }
                        let (format, chosen) = describe(info, k);
                        backend.coded_formats.push(format);
                        backend.codecs.push(chosen);
                    },
                    None => {},
                }
            }
            k = k + 1;
        }
        backend
    }
}

/// A padded frame is one and a half times its luma.
pub proof fn law_a_padded_frame_is_half_again_its_luma(layout: InputLayout)
    ensures
        ({
            let luma = layout.stride * layout.slice_height;
            3 * luma - 1 <= 2 * layout.frame_bytes() <= 3 * luma
        }),
{
}

/// What is packed of a frame is what is visible of it: an edge that is even and inside the frame
/// stays, an odd one is brought down by one, a negative one to the frame's own. No more is packed
/// than is visible or the frame holds.
pub proof fn law_the_visible_part_is_packed(cw: int, ch: int, visible: Rect)
    requires
        0 <= cw,
        0 <= ch,
    ensures
        ({
            let w = window_of(cw, ch, visible);
            &&& 0 <= w.left <= cw && 0 <= w.top <= ch
            &&& visible.left <= 0 ==> w.left == 0
            &&& visible.top <= 0 ==> w.top == 0
            &&& 0 <= visible.left <= cw && visible.left % 2 == 0 ==> w.left == visible.left
            &&& 0 <= visible.top <= ch && visible.top % 2 == 0 ==> w.top == visible.top
            &&& 0 < visible.left <= cw && visible.left % 2 == 1 ==> w.left == visible.left - 1
            &&& 0 < visible.top <= ch && visible.top % 2 == 1 ==> w.top == visible.top - 1
            &&& visible.left > cw + 1 ==> w.left == cw
            &&& visible.top > ch + 1 ==> w.top == ch
            &&& w.left + visible.width <= cw ==> w.width == visible.width
            &&& w.top + visible.height <= ch ==> w.height == visible.height
            &&& w.left + visible.width > cw ==> w.left + w.width == cw
            &&& w.top + visible.height > ch ==> w.top + w.height == ch
        }),
{
}

/// A frame is packed wherever something of it is visible, its buffer holds it, the layout covers
/// what is visible, and the codec's buffer holds the padded frame. Otherwise the first of these
/// that fails is told.
pub proof fn law_a_frame_that_fits_is_packed(
    src_len: int,
    cw: int,
    ch: int,
    w: Window,
    layout: InputLayout,
    dst_len: int,
)
    ensures
        ({
            let f = pack_fault(src_len, cw, ch, w, layout, dst_len);
            let seen = w.width != 0 && w.height != 0;
            let held = codec::nv12_bytes(cw, ch) <= src_len;
            let covered = w.width <= layout.stride && w.height <= layout.slice_height;
            let room = layout.frame_bytes() <= dst_len;
            &&& f is None <==> seen && held && covered && room
            &&& f == Some(PackError::Empty) <==> !seen
            &&& f == Some(PackError::SourceTooSmall) <==> seen && !held
            &&& f == Some(PackError::Layout) <==> seen && held && !covered
            &&& f == Some(PackError::TargetTooSmall) <==> seen && held && covered && !room
        }),
{
}

/// Each pixel is packed from its own place: luma of the visible part's row `row` and column `col`
/// from that row and column of the frame, to that row and column of the layout.
pub proof fn law_luma_is_packed_in_place(
    src: Seq<u8>,
    cw: int,
    ch: int,
    w: Window,
    layout: InputLayout,
    dst: Seq<u8>,
    row: int,
    col: int,
)
    requires
        0 <= row < layout.slice_height,
        0 <= col < layout.stride,
        w.width <= layout.stride,
        w.height <= layout.slice_height,
        layout.frame_bytes() <= dst.len(),
    ensures
        ({
            let r = packed(src, cw, ch, w, layout, dst);
            let p = row * layout.stride + col;
            &&& r.len() == dst.len()
            &&& row < w.height && col < w.width ==> r[p] == src[(w.top + row) * cw + (w.left + col)]
            &&& row >= w.height || col >= w.width ==> r[p] == dst[p]
        }),
{
    let (s, h) = (layout.stride as int, layout.slice_height as int);
    lemma_planes_inside(layout);
    assert(0 <= row * s && row * s + s <= s * h) by (nonlinear_arith)
        requires
            0 <= row,
            row + 1 <= h,
            0 < s,
    ;
    vstd::arithmetic::div_mod::lemma_fundamental_div_mod_converse(row * s + col, s, row, col);
}

/// Interleaved chroma is packed from its own place: byte `col` of chroma row `row` of the visible
/// part, of which the two kinds alternate, stands at that column of row `row` behind the luma.
pub proof fn law_pairs_are_packed_in_place(
    src: Seq<u8>,
    cw: int,
    ch: int,
    w: Window,
    layout: InputLayout,
    dst: Seq<u8>,
    row: int,
    col: int,
)
    requires
        layout.semiplanar,
        0 <= row,
        0 <= col < layout.stride,
        w.height <= layout.slice_height,
        (layout.slice_height + row) * layout.stride + col < layout.frame_bytes(),
        layout.frame_bytes() <= dst.len(),
    ensures
        ({
            let r = packed(src, cw, ch, w, layout, dst);
            let p = (layout.slice_height + row) * layout.stride + col;
            let pitch = cw + cw % 2;
            let inside = row < codec::half_up(w.height) && col < w.width + w.width % 2;
            &&& inside && cw >= 0 && w.width >= 0 ==> r[p] == src[cw * ch + (w.top / 2 + row) * pitch
                + (w.left + col)]
            &&& !inside && w.width >= 0 ==> r[p] == dst[p]
        }),
{
    let (s, h) = (layout.stride as int, layout.slice_height as int);
    lemma_luma_inside(src, cw, w, layout, dst);
    assert((h + row) * s + col == s * h + (row * s + col)) by (nonlinear_arith);
    assert(0 <= row * s && 0 <= s * h) by (nonlinear_arith)
        requires
            0 <= row,
            0 < s,
            0 <= h,
    ;
    vstd::arithmetic::div_mod::lemma_fundamental_div_mod_converse(row * s + col, s, row, col);
    assert(2 * codec::half_up(w.width) == w.width + w.width % 2);
    assert(2 * codec::half_up(cw) == cw + cw % 2);
    assert(luma_packed(src, cw, w, layout, dst)[s * h + (row * s + col)] == dst[s * h + (row * s
        + col)]);
}

/// Chroma in two planes is packed from its own place: sample `col` of chroma row `row`, of the
/// first kind in the plane behind the luma, of the second in the plane behind that.
pub proof fn law_planes_are_packed_in_place(
    src: Seq<u8>,
    cw: int,
    ch: int,
    w: Window,
    layout: InputLayout,
    dst: Seq<u8>,
    half: int,
    high: int,
    second: bool,
    row: int,
    col: int,
)
    requires
        !layout.semiplanar,
        2 * half <= layout.stride <= 2 * half + 1,
        2 * high <= layout.slice_height <= 2 * high + 1,
        0 <= row < high,
        0 <= col < half,
        w.height <= layout.slice_height,
        layout.frame_bytes() <= dst.len(),
    ensures
        ({
            let r = packed(src, cw, ch, w, layout, dst);
            let kind: int = if second {
                1
            } else {
                0
            };
            let p = layout.stride * layout.slice_height + (kind * high + row) * half + col;
            let pitch = cw + cw % 2;
            let inside = row < codec::half_up(w.height) && col < codec::half_up(w.width);
            &&& inside && cw >= 0 ==> r[p] == src[cw * ch + (w.top / 2 + row) * pitch + (w.left + 2
                * col + kind)]
            &&& !inside ==> r[p] == dst[p]
        }),
{
    let (s, h) = (layout.stride as int, layout.slice_height as int);
    assert(half == s / 2 && high == h / 2);
    lemma_luma_inside(src, cw, w, layout, dst);
    lemma_planes_inside(layout);
    let kind: int = if second {
        1
    } else {
        0
    };
    let plane = half * high;
    let k = row * half + col;
    assert((kind * high + row) * half == kind * plane + row * half) by (nonlinear_arith)
        requires
            plane == half * high,
    ;
    assert(0 <= row * half && row * half + half <= half * high) by (nonlinear_arith)
        requires
            0 <= row,
            row + 1 <= high,
            0 <= half,
    ;
    assert(0 * plane == 0 && 1 * plane == plane) by (nonlinear_arith);
    vstd::arithmetic::div_mod::lemma_fundamental_div_mod_converse(k, half, row, col);
    assert(2 * codec::half_up(cw) == cw + cw % 2);
    let p = s * h + kind * plane + k;
    assert(luma_packed(src, cw, w, layout, dst)[p] == dst[p]);
}

/// The frame rates that are offered are the codec's, at least one and not empty; where it gives
/// none, a wide range.
pub proof fn law_offered_rates_are_the_codecs_own(v: codec::VideoCapabilities)
    ensures
        ({
            let f = frame_rates_of(Some(v));
            &&& 1 <= f.min <= f.max
            &&& v.frame_rates.1 <= 0 ==> f.min == 1 && f.max == 240
            &&& 1 <= v.frame_rates.0 <= v.frame_rates.1 ==> f.min == v.frame_rates.0 && f.max
                == v.frame_rates.1
            &&& v.frame_rates.0 < 1 <= v.frame_rates.1 ==> f.min == 1 && f.max == v.frame_rates.1
            &&& 0 < v.frame_rates.1 < v.frame_rates.0 ==> f.min == v.frame_rates.0 && f.max == f.min
        }),
        frame_rates_of(None).min == 1 && frame_rates_of(None).max == 240,
        ({
            let b = bitrates_of(Some(v));
            &&& 1 <= b.min <= b.default <= b.max
            &&& b.min <= 2_000_000 <= b.max ==> b.default == 2_000_000
            &&& b.min > 2_000_000 ==> b.default == b.min
            &&& b.max < 2_000_000 ==> b.default == b.max
            &&& v.bitrates.1 <= 0 ==> b.min == 1 && b.max == 100_000_000
            &&& 1 <= v.bitrates.0 <= v.bitrates.1 ==> b.min == v.bitrates.0 && b.max == v.bitrates.1
            &&& v.bitrates.0 < 1 <= v.bitrates.1 ==> b.min == 1 && b.max == v.bitrates.1
            &&& 0 < v.bitrates.1 < v.bitrates.0 ==> b.min == v.bitrates.0 && b.max == b.min
        }),
        bitrates_of(None).min == 1 && bitrates_of(None).max == 100_000_000,
        bitrates_of(None).default == 2_000_000,
{
}

/// A bitrate mode is offered where the codec takes it; a variable one comes first, and there is
/// always one.
pub proof fn law_a_mode_that_the_codec_takes_is_offered(e: codec::EncoderModes)
    ensures
        ({
            let m = modes_of(Some(e));
            &&& m.len() > 0
            &&& m.contains(VideoBitrateMode::ConstantBitrate) <==> e.cbr
            &&& m.contains(VideoBitrateMode::VariableBitrate) <==> e.vbr || !e.cbr
            &&& !m.contains(VideoBitrateMode::ConstantQuality)
            &&& e.vbr ==> m[0] is VariableBitrate
        }),
        modes_of(None) == seq![VideoBitrateMode::VariableBitrate, VideoBitrateMode::ConstantBitrate],
{
    let m = modes_of(Some(e));
    if e.vbr && e.cbr {
        assert(m[0] is VariableBitrate && m[1] is ConstantBitrate && m.len() == 2);
    } else {
        assert(m.len() == 1 && m[0] == m.last());
    }
}

/// A mode of the guest's is the codec's own of that kind.
pub proof fn law_modes_are_told_apart(m: VideoBitrateMode)
    ensures
        m is VariableBitrate <==> bitrate_mode_of(m) == 1,
        m is ConstantBitrate <==> bitrate_mode_of(m) == 2,
        m is ConstantQuality <==> bitrate_mode_of(m) == 0,
{
}

/// A profile is translated by its own pair: the first that has it, either way.
pub proof fn law_a_profile_is_translated_by_its_pair(pairs: Seq<(i32, i32)>, k: int, i: int)
    requires
        0 <= i <= k < pairs.len(),
    ensures
        (forall|j: int| i <= j < k ==> (#[trigger] pairs[j]).0 != pairs[k].0) ==> profile_v4l2(
            pairs,
            pairs[k].0,
            i,
        ) == Some(pairs[k].1),
        (forall|j: int| i <= j < k ==> (#[trigger] pairs[j]).1 != pairs[k].1) ==> profile_mc(
            pairs,
            pairs[k].1,
            i,
        ) == Some(pairs[k].0),
    decreases k - i,
{
    if i < k {
        law_a_profile_is_translated_by_its_pair(pairs, k, i + 1);
        assert(pairs[i] == pairs[i]);
    }
}

/// A profile that no pair has is not translated.
pub proof fn law_no_profile_is_made_up(pairs: Seq<(i32, i32)>, x: i32, i: int)
    requires
        0 <= i,
    ensures
        (forall|j: int| i <= j < pairs.len() ==> (#[trigger] pairs[j]).0 != x) ==> profile_v4l2(
            pairs,
            x,
            i,
        ) is None,
        (forall|j: int| i <= j < pairs.len() ==> (#[trigger] pairs[j]).1 != x) ==> profile_mc(
            pairs,
            x,
            i,
        ) is None,
    decreases pairs.len() - i,
{
    if i < pairs.len() {
        law_no_profile_is_made_up(pairs, x, i + 1);
        assert(pairs[i] == pairs[i]);
    }
}

/// A profile goes to the codec and back: each number of the codec's stands for one of the guest's,
/// and the other way round. The profile that a session starts with is one of them.
pub proof fn law_profiles_are_told_apart(mime: Seq<char>, i: int, j: int)
    requires
        0 <= i < j < profiles_of(mime).len(),
    ensures
        profiles_of(mime)[i].0 != profiles_of(mime)[j].0,
        profiles_of(mime)[i].1 != profiles_of(mime)[j].1,
{
}

/// The menu of profiles holds those of the codec's that the guest has a number for, and each once.
pub proof fn law_the_menu_holds_the_codecs_profiles(
    mime: Seq<char>,
    infos: Seq<codec::ProfileInfo>,
    n: int,
    p: i32,
)
    requires
        0 <= n,
    ensures
        profile_menu(mime, infos, n).no_duplicates(),
        profile_menu(mime, infos, n).contains(p) <==> exists|i: int|
            0 <= i < n && profile_v4l2(
                profiles_of(mime),
                (#[trigger] infos[i]).profile,
                0,
            ) == Some(p),
    decreases n,
{
    if n > 0 {
        law_the_menu_holds_the_codecs_profiles(mime, infos, n - 1, p);
        let rest = profile_menu(mime, infos, n - 1);
        let menu = profile_menu(mime, infos, n);
        match profile_v4l2(profiles_of(mime), infos[n - 1].profile, 0) {
            Some(v) => {
                if !rest.contains(v) {
                    assert(menu == rest.push(v));
                    assert(menu[rest.len() as int] == v);
                    if menu.contains(p) && !rest.contains(p) {
                        let k = choose|k: int| 0 <= k < menu.len() && menu[k] == p;
                        if k < rest.len() {
                            assert(rest[k] == p);
                        }
                        assert(p == v);
                    }
                    if rest.contains(p) {
                        let k = choose|k: int| 0 <= k < rest.len() && rest[k] == p;
                        assert(menu[k] == p);
                    }
                    assert forall|a: int, b: int|
                        0 <= a < menu.len() && 0 <= b < menu.len() && a != b implies menu[a]
                        != menu[b] by {
                        if a == rest.len() {
                            assert(rest[b] == menu[b]);
                        } else if b == rest.len() {
                            assert(rest[a] == menu[a]);
                        }
                    }
                }
                assert(infos[n - 1] == infos[n - 1]);
            },
            None => {},
        }
    }
}

/// The profile that a session starts with comes first where the codec has it, and none is lost.
pub proof fn law_the_preferred_profile_comes_first(menu: Seq<i32>, p: i32)
    ensures
        with_first(menu, None) == menu,
        !menu.contains(p) ==> with_first(menu, Some(p)) == menu,
        menu.contains(p) ==> with_first(menu, Some(p)).len() == menu.len() && with_first(
            menu,
            Some(p),
        )[0] == p,
        forall|i: int|
            0 <= i < menu.len() ==> with_first(menu, Some(p)).contains(#[trigger] menu[i]),
{
    let r = with_first(menu, Some(p));
    if menu.contains(p) {
        let k = menu.index_of(p);
        assert(0 <= k < menu.len());
        assert forall|i: int| 0 <= i < menu.len() implies r.contains(#[trigger] menu[i]) by {
            if i < k {
                assert(r[i + 1] == menu[i]);
            } else if i == k {
                assert(r[0] == menu[i]);
            } else {
                assert(r[i] == menu[i]);
            }
        }
    }
}

/// A codec is offered as what it is: its own format, sizes, rates and modes, its profiles with the
/// preferred one first, and its levels, the highest first. A session is started at that level.
pub proof fn law_an_encoder_is_offered_as_it_is(
    f: CodedFormat,
    e: ChosenEncoder,
    k: int,
    info: CodecInfo,
)
    requires
        f.describes(k, info),
        e.stands_for(k, info, f),
    ensures
        f.fourcc == codec::format_fourcc(k) && e.fourcc == codec::format_fourcc(k),
        e.mime@ == codec::format_mime(k) && e.name@ == info.name@,
        e.hardware == codec::hardware(info) && e.vendor == info.is_vendor,
        f.width == codec::sizes_of(info.video).0 && f.height == codec::sizes_of(info.video).1,
        f.frame_rate == frame_rates_of(info.video) && f.bitrate == bitrates_of(info.video),
        f.bitrate_modes@ == modes_of(info.encoder),
        f.gop_size.min == 0 && f.gop_size.default == 30 && f.gop_size.max == 65_535,
        f.profiles@ == with_first(
            profile_menu(codec::format_mime(k), info.profiles@, info.profiles@.len() as int),
            preferred_profile_of(codec::format_mime(k)),
        ),
        forall|i: int, j: int| 0 <= i < j < f.levels@.len() ==> f.levels@[i] > f.levels@[j],
        forall|i: int, j: int|
            #![trigger info.profiles@[i].levels@[j]]
            0 <= i < info.profiles@.len() && 0 <= j < info.profiles@[i].levels@.len() ==> (
            level_v4l2(codec::format_mime(k), info.profiles@[i].levels@[j] as int) matches Some(l)
                ==> f.levels@.contains(l)),
        f.qp is Some <==> codec::supports(info, "qp-bounds"@),
        f.qp matches Some(q) ==> q.min == 0 && q.max == 51,
        e.qp_bounds == codec::supports(info, "qp-bounds"@),
        f.levels@.len() > 0 ==> e.default_level == Some(f.levels@[0]),
        f.levels@.len() == 0 ==> e.default_level is None,
{
    assert forall|i: int, j: int|
        #![trigger info.profiles@[i].levels@[j]]
        0 <= i < info.profiles@.len() && 0 <= j < info.profiles@[i].levels@.len() implies (
    level_v4l2(codec::format_mime(k), info.profiles@[i].levels@[j] as int) matches Some(l)
        ==> f.levels@.contains(l)) by {
        if let Some(l) = level_v4l2(codec::format_mime(k), info.profiles@[i].levels@[j] as int) {
            assert(level_listed(
                codec::format_mime(k),
                info.profiles@,
                info.profiles@.len() as int,
                l,
                i,
                j,
            ));
        }
    }
}

/// A format is encoded exactly where some encoder will do for it, and AV1 only where software is
/// allowed.
pub proof fn law_every_format_with_an_encoder_is_offered(
    codecs: Seq<CodecInfo>,
    allow_sw: bool,
    n: int,
    k: int,
)
    requires
        0 <= k < n,
    ensures
        (exists|m: int|
            0 <= m < encoders_offered(codecs, allow_sw, n).len() && (#[trigger] encoders_offered(
                codecs,
                allow_sw,
                n,
            )[m]).0 == k) <==> !codec::no_choice(
            codecs,
            codecs.len() as int,
            CodecKind::Encoder,
            codec::format_mime(k),
            allow_sw,
        ) && (allow_sw || codec::format_fourcc(k) != 0x3031_5641u32),
    decreases n,
{
    let o = encoders_offered(codecs, allow_sw, n);
    let rest = encoders_offered(codecs, allow_sw, n - 1);
    lemma_encoders_below(codecs, allow_sw, n - 1);
    if k < n - 1 {
        law_every_format_with_an_encoder_is_offered(codecs, allow_sw, n - 1, k);
        if exists|m: int| 0 <= m < rest.len() && (#[trigger] rest[m]).0 == k {
            let m = choose|m: int| 0 <= m < rest.len() && (#[trigger] rest[m]).0 == k;
            assert(o[m].0 == k);
        }
        if exists|m: int| 0 <= m < o.len() && (#[trigger] o[m]).0 == k {
            let m = choose|m: int| 0 <= m < o.len() && (#[trigger] o[m]).0 == k;
            assert(m < rest.len());
            assert(rest[m].0 == k);
        }
    } else {
        if o.len() > rest.len() {
            assert(o[rest.len() as int].0 == k);
        }
        if exists|m: int| 0 <= m < o.len() && (#[trigger] o[m]).0 == k {
            let m = choose|m: int| 0 <= m < o.len() && (#[trigger] o[m]).0 == k;
            if m < rest.len() {
                assert(rest[m].0 < k);
            }
        }
    }
}

proof fn lemma_encoders_below(codecs: Seq<CodecInfo>, allow_sw: bool, n: int)
    ensures
        forall|m: int|
            0 <= m < encoders_offered(codecs, allow_sw, n).len() ==> (#[trigger] encoders_offered(
                codecs,
                allow_sw,
                n,
            )[m]).0 < n,
    decreases n,
{
    if n > 0 {
        let rest = encoders_offered(codecs, allow_sw, n - 1);
        let o = encoders_offered(codecs, allow_sw, n);
        lemma_encoders_below(codecs, allow_sw, n - 1);
        assert forall|m: int| 0 <= m < o.len() implies (#[trigger] o[m]).0 < n by {
            if m < rest.len() {
                assert(rest[m].0 < n - 1);
            }
        }
    }
}

/// The levels of H.264 follow one another as the codec doubles its number; of HEVC the codec has
/// two numbers for each, the main tier's and the high tier's.
pub proof fn law_levels_follow_one_another(bit: int)
    requires
        0 <= bit,
    ensures
        bit < 20 ==> level_at("video/avc"@, bit) == Some(bit as i32),
        bit >= 20 ==> level_at("video/avc"@, bit) is None,
        bit < 26 ==> (level_at("video/hevc"@, bit) matches Some(l) && 2 * l <= bit <= 2 * l + 1),
        bit >= 26 ==> level_at("video/hevc"@, bit) is None,
        level_at("video/av01"@, bit) is None,
{
    reveal_strlit("video/avc");
    reveal_strlit("video/hevc");
    reveal_strlit("video/av01");
    assert("video/avc"@.len() != "video/hevc"@.len());
    assert("video/avc"@.len() != "video/av01"@.len());
    assert("video/hevc"@[6] != "video/av01"@[6]);
}

/// Colours are told only where they are known: a standard for each colour space that has one, the
/// range that is asked for, and the defaults of plain video for those spaces alone.
pub proof fn law_colours_are_told_where_they_are_known(c: Colorimetry)
    ensures
        ({
            let a = aspects_of(c);
            let known = c.colorspace == 1 || c.colorspace == 3 || c.colorspace == 5 || c.colorspace
                == 6 || c.colorspace == 10;
            &&& a.standard is Some <==> known
            &&& a.standard == Some(1i32) <==> c.colorspace == 3
            &&& a.standard == Some(4i32) <==> c.colorspace == 1 || c.colorspace == 5
            &&& a.standard == Some(2i32) <==> c.colorspace == 6
            &&& a.standard == Some(6i32) <==> c.colorspace == 10
            &&& a.range == Some(1i32) <==> c.quantization == 1
            &&& a.range == Some(2i32) <==> c.quantization == 2 || c.quantization == 0 && known
            &&& a.range is None <==> !(c.quantization == 1 || c.quantization == 2 || c.quantization
                == 0 && known)
            &&& a.transfer == Some(3i32) <==> c.xfer_func == 1 || c.xfer_func == 0 && known
            &&& a.transfer == Some(6i32) <==> c.xfer_func == 7
            &&& a.transfer == Some(1i32) <==> c.xfer_func == 5
            &&& a.transfer is None <==> !(c.xfer_func == 1 || c.xfer_func == 7 || c.xfer_func == 5
                || c.xfer_func == 0 && known)
        }),
{
}

/// What a backend offers is what was chosen, one for one: each format is described by its codec, and
/// each codec stands for its format.
pub proof fn law_what_is_offered_was_chosen(
    backend: MediaCodecEncoderBackend,
    list: Seq<CodecInfo>,
    o: Seq<(int, int)>,
    m: int,
)
    requires
        backend.offers(list, o),
        0 <= m < o.len(),
    ensures
        backend.coded_formats@.len() == o.len(),
        backend.codecs@.len() == o.len(),
        ({
            let (k, at) = o[m];
            &&& backend.coded_formats@[m].describes(k, list[at])
            &&& backend.codecs@[m].stands_for(k, list[at], backend.coded_formats@[m])
        }),
{
}

} // verus!
