//! What the decoder and the encoder share: the choice of a codec, and the values that pass
//! between the guest's side and the codec's.
use crate::errno;
use crate::text;
use vstd::prelude::*;

verus! {

/// How long the start of a codec may take, in milliseconds.
pub const CODEC_START_TIMEOUT_MS: u64 = 10_000;

/// How long its flush may take.
pub const CODEC_FLUSH_TIMEOUT_MS: u64 = 5_000;

/// How long its stop may take.
pub const CODEC_STOP_TIMEOUT_MS: u64 = 5_000;

/// How many refused indices are put up with between two flushes.
pub const MAX_REFUSED_INDICES: u32 = 64;

/// The least capacity asked for an input buffer.
pub const MIN_INPUT_BUFFER_SIZE: u64 = 0x10_0000;

pub const BUFFER_FLAG_KEY_FRAME: u32 = 1;

pub const BUFFER_FLAG_CODEC_CONFIG: u32 = 2;

pub const BUFFER_FLAG_END_OF_STREAM: u32 = 4;

pub const BUFFER_FLAG_PARTIAL_FRAME: u32 = 8;

/// The four letters of H.264.
pub const H264: u32 = 0x3436_3248;

/// The four letters of HEVC.
pub const HEVC: u32 = 0x4356_4548;

/// The four letters of VP8.
pub const VP80: u32 = 0x3038_5056;

/// The four letters of VP9.
pub const VP90: u32 = 0x3039_5056;

/// The four letters of AV1.
pub const AV10: u32 = 0x3031_5641;

/// How many coded formats there are.
pub const CODED_FORMATS: usize = 5;

/// The coded formats, in the order in which they are listed.
pub open spec fn format_fourcc(k: int) -> u32 {
    if k == 0 {
        H264
    } else if k == 1 {
        HEVC
    } else if k == 2 {
        VP80
    } else if k == 3 {
        VP90
    } else {
        AV10
    }
}

/// The media type of each.
pub open spec fn format_mime(k: int) -> Seq<char> {
    if k == 0 {
        "video/avc"@
    } else if k == 1 {
        "video/hevc"@
    } else if k == 2 {
        "video/x-vnd.on2.vp8"@
    } else if k == 3 {
        "video/x-vnd.on2.vp9"@
    } else {
        "video/av01"@
    }
}

/// A coded format and its media type.
pub fn coded_format(k: usize) -> (f: (u32, &'static str))
    requires
        k < CODED_FORMATS,
    ensures
        f.0 == format_fourcc(k as int),
        f.1@ == format_mime(k as int),
{
    if k == 0 {
        (H264, "video/avc")
    } else if k == 1 {
        (HEVC, "video/hevc")
    } else if k == 2 {
        (VP80, "video/x-vnd.on2.vp8")
    } else if k == 3 {
        (VP90, "video/x-vnd.on2.vp9")
    } else {
        (AV10, "video/av01")
    }
}

#[derive(Clone, Copy, Debug, PartialEq, Eq, Structural)]
pub enum CodecKind {
    Decoder,
    Encoder,
}

#[derive(Clone, Copy, Debug, PartialEq, Eq, Structural)]
pub enum CodecType {
    HardwareAccelerated,
    SoftwareOnly,
    SoftwareWithDeviceAccess,
    Invalid,
    /// The platform does not say.
    Unknown,
}

/// A feature of a codec.
pub struct CodecFeature {
    pub feature: String,
    pub supported: bool,
    /// The codec works only with the feature on.
    pub required: bool,
}

/// What a codec can do with pictures.
#[derive(Clone, Copy, Debug, PartialEq, Eq)]
pub struct VideoCapabilities {
    pub widths: (i32, i32),
    pub heights: (i32, i32),
    pub width_alignment: i32,
    pub height_alignment: i32,
    pub frame_rates: (i32, i32),
    pub bitrates: (i32, i32),
}

/// A profile and the levels it comes in.
pub struct ProfileInfo {
    pub profile: i32,
    pub levels: Vec<i32>,
}

/// What an encoder can do besides.
#[derive(Clone, Copy, Debug, PartialEq, Eq, Structural)]
pub struct EncoderModes {
    /// Takes a variable bitrate.
    pub vbr: bool,
    /// Takes a constant one.
    pub cbr: bool,
}

/// A codec as the platform lists it.
pub struct CodecInfo {
    pub name: String,
    pub mime: String,
    pub kind: CodecKind,
    pub codec_type: CodecType,
    pub is_vendor: bool,
    pub features: Vec<CodecFeature>,
    pub video: Option<VideoCapabilities>,
    pub encoder: Option<EncoderModes>,
    pub profiles: Vec<ProfileInfo>,
}

/// Whether a codec has a feature.
pub open spec fn supports(info: CodecInfo, feature: Seq<char>) -> bool {
    exists|i: int|
        0 <= i < info.features@.len() && (#[trigger] info.features@[i]).feature@ == feature
            && info.features@[i].supported
}

/// Whether a codec has a feature.
pub fn has_feature(info: &CodecInfo, feature: &str) -> (b: bool)
    ensures
        b == supports(*info, feature@),
{
    let mut i: usize = 0;
    while i < info.features.len()
        invariant
            i <= info.features@.len(),
            forall|j: int|
                0 <= j < i ==> !((#[trigger] info.features@[j]).feature@ == feature@
                    && info.features@[j].supported),
        decreases info.features@.len() - i,
    {
        if text::same(info.features[i].feature.as_str(), feature) && info.features[i].supported {
            assert(info.features@[i as int].supported);
            return true;
        }
        i = i + 1;
    }
    false
}

/// Whether a codec is hardware: as the platform says, or by its name where it does not.
pub open spec fn hardware(info: CodecInfo) -> bool {
    match info.codec_type {
        CodecType::HardwareAccelerated => true,
        CodecType::Unknown => !text::utf8("c2.android."@).is_prefix_of(text::utf8(info.name@))
            && !text::utf8("OMX.google."@).is_prefix_of(text::utf8(info.name@)),
        _ => false,
    }
}

/// Whether a codec is hardware.
pub fn is_hardware(info: &CodecInfo) -> (b: bool)
    ensures
        b == hardware(*info),
{
    match info.codec_type {
        CodecType::HardwareAccelerated => true,
        CodecType::SoftwareOnly | CodecType::SoftwareWithDeviceAccess | CodecType::Invalid => false,
        CodecType::Unknown => !(text::starts_with(info.name.as_str(), "c2.android.")
            || text::starts_with(info.name.as_str(), "OMX.google.")),
    }
}

/// Whether a codec works on protected content alone.
pub open spec fn needs_secure(info: CodecInfo) -> bool {
    ||| exists|i: int|
        0 <= i < info.features@.len() && (#[trigger] info.features@[i]).required
            && info.features@[i].feature@ == "secure-playback"@
    ||| text::utf8(".secure"@).is_suffix_of(text::utf8(info.name@))
}

/// How much a codec is wanted: a vendor's hardware most, then any hardware, then software where
/// that is allowed. 0 where it is not wanted at all.
pub open spec fn rank_of(info: CodecInfo, kind: CodecKind, mime: Seq<char>, allow_sw: bool) -> int {
    if info.kind != kind || info.mime@ != mime || needs_secure(info) {
        0
    } else if hardware(info) && info.is_vendor {
        3
    } else if hardware(info) {
        2
    } else if allow_sw {
        1
    } else {
        0
    }
}

/// How much a codec is wanted.
pub fn rank(info: &CodecInfo, kind: CodecKind, mime: &str, allow_sw: bool) -> (r: Option<u8>)
    ensures
        match r {
            Some(n) => n == rank_of(*info, kind, mime@, allow_sw) && n > 0,
            None => rank_of(*info, kind, mime@, allow_sw) == 0,
        },
{
    if info.kind != kind || !text::same(info.mime.as_str(), mime) {
        return None;
    }
    let mut i: usize = 0;
    while i < info.features.len()
        invariant
            i <= info.features@.len(),
            forall|j: int|
                0 <= j < i ==> !((#[trigger] info.features@[j]).required
                    && info.features@[j].feature@ == "secure-playback"@),
        decreases info.features@.len() - i,
    {
        if info.features[i].required && text::same(
            info.features[i].feature.as_str(),
            "secure-playback",
        ) {
            assert(info.features@[i as int].required);
            return None;
        }
        i = i + 1;
    }
    if text::ends_with(info.name.as_str(), ".secure") {
        return None;
    }
    let hw = is_hardware(info);
    if hw && info.is_vendor {
        Some(3)
    } else if hw {
        Some(2)
    } else if allow_sw {
        Some(1)
    } else {
        None
    }
}

/// Whether codec `i` of a list comes before codec `j`: a higher rank, then a shorter name, then
/// an earlier place in the list.
pub open spec fn preferred(
    codecs: Seq<CodecInfo>,
    kind: CodecKind,
    mime: Seq<char>,
    allow_sw: bool,
    i: int,
    j: int,
) -> bool {
    let ri = rank_of(codecs[i], kind, mime, allow_sw);
    let rj = rank_of(codecs[j], kind, mime, allow_sw);
    let ni = text::utf8(codecs[i].name@).len();
    let nj = text::utf8(codecs[j].name@).len();
    ri > rj || ri == rj && (ni < nj || ni == nj && i < j)
}

/// Whether codec `i` is the choice among the first `n` of a list.
pub open spec fn best(
    codecs: Seq<CodecInfo>,
    n: int,
    kind: CodecKind,
    mime: Seq<char>,
    allow_sw: bool,
    i: int,
) -> bool {
    &&& 0 <= i < n
    &&& rank_of(codecs[i], kind, mime, allow_sw) > 0
    &&& forall|j: int|
        #![trigger codecs[j]]
        0 <= j < n && j != i && rank_of(codecs[j], kind, mime, allow_sw) > 0 ==> preferred(
            codecs,
            kind,
            mime,
            allow_sw,
            i,
            j,
        )
}

/// Whether none of the first `n` codecs of a list will do.
pub open spec fn no_choice(
    codecs: Seq<CodecInfo>,
    n: int,
    kind: CodecKind,
    mime: Seq<char>,
    allow_sw: bool,
) -> bool {
    forall|j: int| 0 <= j < n ==> rank_of(#[trigger] codecs[j], kind, mime, allow_sw) == 0
}

/// The choice among the codecs of a list, by its place there.
pub fn choose_codec(codecs: &Vec<CodecInfo>, kind: CodecKind, mime: &str, allow_sw: bool) -> (r:
    Option<usize>)
    ensures
        match r {
            Some(i) => best(codecs@, codecs@.len() as int, kind, mime@, allow_sw, i as int),
            None => no_choice(codecs@, codecs@.len() as int, kind, mime@, allow_sw),
        },
{
    let mut chosen: Option<usize> = None;
    let mut chosen_rank: u8 = 0;
    let mut chosen_len: usize = 0;
    let mut i: usize = 0;
    while i < codecs.len()
        invariant
            i <= codecs@.len(),
            match chosen {
                Some(c) => {
                    &&& best(codecs@, i as int, kind, mime@, allow_sw, c as int)
                    &&& chosen_rank == rank_of(codecs@[c as int], kind, mime@, allow_sw)
                    &&& chosen_len == text::utf8(codecs@[c as int].name@).len()
                },
                None => no_choice(codecs@, i as int, kind, mime@, allow_sw),
            },
        decreases codecs@.len() - i,
    {
        match rank(&codecs[i], kind, mime, allow_sw) {
            Some(r) => {
                let len: usize = text::byte_len(codecs[i].name.as_str());
                if chosen.is_none() || r > chosen_rank || r == chosen_rank && len < chosen_len {
                    chosen = Some(i);
                    chosen_rank = r;
                    chosen_len = len;
                }
            },
            None => {},
        }
        i = i + 1;
    }
    chosen
}

/// Whether codec `i` of a list comes before codec `j`.
fn comes_before(
    codecs: &Vec<CodecInfo>,
    kind: CodecKind,
    mime: &str,
    allow_sw: bool,
    i: usize,
    j: usize,
) -> (b: bool)
    requires
        i < codecs@.len(),
        j < codecs@.len(),
    ensures
        b == preferred(codecs@, kind, mime@, allow_sw, i as int, j as int),
{
    let ri: u8 = match rank(&codecs[i], kind, mime, allow_sw) {
        Some(r) => r,
        None => 0,
    };
    let rj: u8 = match rank(&codecs[j], kind, mime, allow_sw) {
        Some(r) => r,
        None => 0,
    };
    let ni: usize = text::byte_len(codecs[i].name.as_str());
    let nj: usize = text::byte_len(codecs[j].name.as_str());
    ri > rj || ri == rj && (ni < nj || ni == nj && i < j)
}

/// Whether `places` are those codecs among the first `n` of a list that will do, in the order of
/// preference.
pub open spec fn in_order(
    codecs: Seq<CodecInfo>,
    n: int,
    kind: CodecKind,
    mime: Seq<char>,
    allow_sw: bool,
    places: Seq<usize>,
) -> bool {
    &&& forall|i: int|
        0 <= i < places.len() ==> #[trigger] places[i] < n && rank_of(
            codecs[places[i] as int],
            kind,
            mime,
            allow_sw,
        ) > 0
    &&& forall|i: int, j: int|
        0 <= i < j < places.len() ==> preferred(
            codecs,
            kind,
            mime,
            allow_sw,
            #[trigger] places[i] as int,
            #[trigger] places[j] as int,
        )
    &&& forall|c: usize|
        c < n && rank_of(codecs[c as int], kind, mime, allow_sw) > 0 ==> #[trigger] places.contains(
            c,
        )
}

/// The codecs of a list that will do, by their places there, in the order of preference.
fn eligible(codecs: &Vec<CodecInfo>, kind: CodecKind, mime: &str, allow_sw: bool) -> (places: Vec<
    usize,
>)
    ensures
        in_order(codecs@, codecs@.len() as int, kind, mime@, allow_sw, places@),
{
    let mut places: Vec<usize> = Vec::new();
    let mut i: usize = 0;
    while i < codecs.len()
        invariant
            i <= codecs@.len(),
            in_order(codecs@, i as int, kind, mime@, allow_sw, places@),
        decreases codecs@.len() - i,
    {
        let ghost before = places@;
        if rank(&codecs[i], kind, mime, allow_sw).is_some() {
            let mut k: usize = 0;
            while k < places.len() && !comes_before(codecs, kind, mime, allow_sw, i, places[k])
                invariant
                    i < codecs@.len(),
                    k <= places@.len(),
                    places@ == before,
                    in_order(codecs@, i as int, kind, mime@, allow_sw, before),
                    forall|m: int|
                        0 <= m < k ==> !preferred(
                            codecs@,
                            kind,
                            mime@,
                            allow_sw,
                            i as int,
                            #[trigger] before[m] as int,
                        ),
                decreases places@.len() - k,
            {
                k = k + 1;
            }
            places.insert(k, i);
            assert forall|c: usize|
                c < i + 1 && rank_of(codecs@[c as int], kind, mime@, allow_sw)
                    > 0 implies #[trigger] places@.contains(c) by {
                if c == i {
                    assert(places@[k as int] == c);
                } else {
                    assert(before.contains(c));
                    let m = choose|m: int| 0 <= m < before.len() && before[m] == c;
                    if m < k {
                        assert(places@[m] == c);
                    } else {
                        assert(places@[m + 1] == c);
                    }
                }
            }
        }
        i = i + 1;
    }
    places
}

/// Whether `places` are the codecs of a list that were passed over: all that will do but the
/// choice, each once, in the order of preference.
pub open spec fn are_passed_over(
    codecs: Seq<CodecInfo>,
    kind: CodecKind,
    mime: Seq<char>,
    allow_sw: bool,
    places: Seq<usize>,
) -> bool {
    let n = codecs.len() as int;
    &&& places.no_duplicates()
    &&& forall|c: usize| #[trigger]
        places.contains(c) <==> c < n && rank_of(codecs[c as int], kind, mime, allow_sw) > 0
            && !best(codecs, n, kind, mime, allow_sw, c as int)
    &&& forall|i: int, j: int|
        0 <= i < j < places.len() ==> preferred(
            codecs,
            kind,
            mime,
            allow_sw,
            #[trigger] places[i] as int,
            #[trigger] places[j] as int,
        )
}

/// The codecs of a list that would do, but that the choice was preferred to: by their places there,
/// in the order of preference.
pub fn passed_over(codecs: &Vec<CodecInfo>, kind: CodecKind, mime: &str, allow_sw: bool) -> (r: Vec<
    usize,
>)
    ensures
        are_passed_over(codecs@, kind, mime@, allow_sw, r@),
{
    let mut r = eligible(codecs, kind, mime, allow_sw);
    let ghost all = r@;
    let count: usize = codecs.len();
    let ghost n = count as int;
    if r.len() > 0 {
        let _ = r.remove(0);
        proof {
            assert(r@ =~= all.drop_first());
            let first = all[0] as int;
            assert forall|j: int|
                #![trigger codecs@[j]]
                0 <= j < n && j != first && rank_of(codecs@[j], kind, mime@, allow_sw)
                    > 0 implies preferred(codecs@, kind, mime@, allow_sw, first, j) by {
                let c = j as usize;
                assert(all.contains(c));
                let m = choose|m: int| 0 <= m < all.len() && all[m] == c;
                assert(all[0] != all[m]);
            }
            assert(best(codecs@, n, kind, mime@, allow_sw, first));
        }
    }
    proof {
        assert forall|c: usize|
            (#[trigger] r@.contains(c)) == (c < n && rank_of(
                codecs@[c as int],
                kind,
                mime@,
                allow_sw,
            ) > 0 && !best(codecs@, n, kind, mime@, allow_sw, c as int)) by {
            if r@.contains(c) {
                let m = choose|m: int| 0 <= m < r@.len() && r@[m] == c;
                assert(all[m + 1] == c);
                let first = all[0];
                assert(preferred(codecs@, kind, mime@, allow_sw, first as int, c as int));
                assert(codecs@[first as int] == codecs@[first as int]);
            } else if c < n && rank_of(codecs@[c as int], kind, mime@, allow_sw) > 0 {
                assert(all.contains(c));
                let m = choose|m: int| 0 <= m < all.len() && all[m] == c;
                if m > 0 {
                    assert(r@[m - 1] == c);
                }
            }
        }
    }
    r
}

/// The name of a codec that was passed over: software is marked.
pub open spec fn name_with_mark(info: CodecInfo) -> Seq<char> {
    if hardware(info) {
        info.name@
    } else {
        info.name@ + " (software)"@
    }
}

/// The names of the codecs that were passed over, in the order of preference.
pub fn passed_over_names(
    codecs: &Vec<CodecInfo>,
    kind: CodecKind,
    mime: &str,
    allow_sw: bool,
) -> (names: Vec<String>)
    ensures
        exists|places: Seq<usize>|
            {
                &&& #[trigger] are_passed_over(codecs@, kind, mime@, allow_sw, places)
                &&& names@.len() == places.len()
                &&& forall|i: int|
                    0 <= i < places.len() ==> (#[trigger] names@[i])@ == name_with_mark(
                        codecs@[places[i] as int],
                    )
            },
{
    let places = passed_over(codecs, kind, mime, allow_sw);
    let mut names: Vec<String> = Vec::new();
    let mut i: usize = 0;
    while i < places.len()
        invariant
            i <= places@.len(),
            are_passed_over(codecs@, kind, mime@, allow_sw, places@),
            names@.len() == i,
            forall|m: int|
                0 <= m < i ==> (#[trigger] names@[m])@ == name_with_mark(
                    codecs@[places@[m] as int],
                ),
        decreases places@.len() - i,
    {
        assert(places@.contains(places@[i as int]));
        let info = &codecs[places[i]];
        let mut name: String = info.name.as_str().to_owned();
        if !is_hardware(info) {
            name.append(" (software)");
        }
        names.push(name);
        i = i + 1;
    }
    names
}

/// There is one order of the codecs that were passed over.
pub proof fn law_the_order_is_unique(
    codecs: Seq<CodecInfo>,
    kind: CodecKind,
    mime: Seq<char>,
    allow_sw: bool,
    a: Seq<usize>,
    b: Seq<usize>,
)
    requires
        are_passed_over(codecs, kind, mime, allow_sw, a),
        are_passed_over(codecs, kind, mime, allow_sw, b),
    ensures
        a == b,
{
    a.unique_seq_to_set();
    b.unique_seq_to_set();
    assert forall|c: usize| a.contains(c) == b.contains(c) by {}
    assert(a.to_set() =~= b.to_set());
    assert forall|i: int| 0 <= i < a.len() implies a[i] == b[i] by {
        lemma_same_order(codecs, kind, mime, allow_sw, a, b, i);
    }
    assert(a =~= b);
}

proof fn lemma_same_order(
    codecs: Seq<CodecInfo>,
    kind: CodecKind,
    mime: Seq<char>,
    allow_sw: bool,
    a: Seq<usize>,
    b: Seq<usize>,
    i: int,
)
    requires
        are_passed_over(codecs, kind, mime, allow_sw, a),
        are_passed_over(codecs, kind, mime, allow_sw, b),
        a.len() == b.len(),
        0 <= i < a.len(),
    ensures
        a[i] == b[i],
    decreases i,
{
    assert forall|m: int| 0 <= m < i implies a[m] == b[m] by {
        lemma_same_order(codecs, kind, mime, allow_sw, a, b, m);
    }
    assert(a.contains(a[i]) && b.contains(b[i]));
    assert(b.contains(a[i]) && a.contains(b[i]));
    let j = choose|j: int| 0 <= j < b.len() && b[j] == a[i];
    let k = choose|k: int| 0 <= k < a.len() && a[k] == b[i];
    if j < i {
        assert(a[j] == a[i]);
    }
    if k < i {
        assert(b[k] == b[i]);
    }
    if i < j && i < k {
        assert(preferred(codecs, kind, mime, allow_sw, b[i] as int, b[j] as int));
        assert(preferred(codecs, kind, mime, allow_sw, a[i] as int, a[k] as int));
    }
}

/// There is one choice at most: two codecs cannot both be preferred to all others.
pub proof fn law_the_choice_is_unique(
    codecs: Seq<CodecInfo>,
    kind: CodecKind,
    mime: Seq<char>,
    allow_sw: bool,
    i: int,
    j: int,
)
    requires
        best(codecs, codecs.len() as int, kind, mime, allow_sw, i),
        best(codecs, codecs.len() as int, kind, mime, allow_sw, j),
    ensures
        i == j,
{
    if i != j {
        assert(preferred(codecs, kind, mime, allow_sw, i, j));
        assert(preferred(codecs, kind, mime, allow_sw, j, i));
    }
}

/// Software is chosen only where it is allowed and no hardware will do.
pub proof fn law_hardware_before_software(
    codecs: Seq<CodecInfo>,
    kind: CodecKind,
    mime: Seq<char>,
    allow_sw: bool,
    i: int,
    j: int,
)
    requires
        best(codecs, codecs.len() as int, kind, mime, allow_sw, i),
        !hardware(codecs[i]),
        0 <= j < codecs.len(),
    ensures
        allow_sw,
        hardware(codecs[j]) ==> rank_of(codecs[j], kind, mime, allow_sw) == 0,
{
    if hardware(codecs[j]) && rank_of(codecs[j], kind, mime, allow_sw) > 0 {
        assert(preferred(codecs, kind, mime, allow_sw, i, j));
    }
}

/// A range of sizes.
#[derive(Clone, Copy, Debug, PartialEq, Eq, Structural)]
pub struct SizeRange {
    pub min: u32,
    pub max: u32,
    pub step: u32,
}

/// The larger of two numbers.
pub open spec fn max_int(a: int, b: int) -> int {
    if a < b {
        b
    } else {
        a
    }
}

/// The smaller of two numbers.
pub open spec fn min_int(a: int, b: int) -> int {
    if a < b {
        a
    } else {
        b
    }
}

/// What a platform's range comes to: not below 1, not empty, with a step of at least 1.
pub open spec fn size_range_of(lo: int, hi: int, step: int) -> SizeRange {
    SizeRange {
        min: max_int(lo, 1) as u32,
        max: max_int(hi, max_int(lo, 1)) as u32,
        step: max_int(step, 1) as u32,
    }
}

/// What is offered where the platform publishes nothing.
pub open spec fn fallback_sizes() -> SizeRange {
    SizeRange { min: 16, max: 4096, step: 2 }
}

/// What a platform's range comes to.
pub fn size_range(lo: i32, hi: i32, step: i32) -> (r: SizeRange)
    ensures
        r == size_range_of(lo as int, hi as int, step as int),
        1 <= r.min <= r.max,
        1 <= r.step,
{
    let lo: i32 = if lo < 1 {
        1
    } else {
        lo
    };
    let hi: i32 = if hi < lo {
        lo
    } else {
        hi
    };
    let step: i32 = if step < 1 {
        1
    } else {
        step
    };
    SizeRange { min: lo as u32, max: hi as u32, step: step as u32 }
}

/// The sizes a codec takes, across and down.
pub open spec fn sizes_of(video: Option<VideoCapabilities>) -> (SizeRange, SizeRange) {
    match video {
        Some(v) => (
            size_range_of(v.widths.0 as int, v.widths.1 as int, v.width_alignment as int),
            size_range_of(v.heights.0 as int, v.heights.1 as int, v.height_alignment as int),
        ),
        None => (fallback_sizes(), fallback_sizes()),
    }
}

/// The sizes a codec takes, across and down.
pub fn size_ranges(info: &CodecInfo) -> (r: (SizeRange, SizeRange))
    ensures
        r == sizes_of(info.video),
{
    match info.video {
        Some(v) => (
            size_range(v.widths.0, v.widths.1, v.width_alignment),
            size_range(v.heights.0, v.heights.1, v.height_alignment),
        ),
        None => (
            SizeRange { min: 16, max: 4096, step: 2 },
            SizeRange { min: 16, max: 4096, step: 2 },
        ),
    }
}

/// Why a codec call failed.
#[derive(Clone, Copy, Debug, PartialEq, Eq, Structural)]
pub enum CodecError {
    LibraryLoad,
    MissingSymbol,
    /// No codec of that name.
    NullCodec,
    /// No buffer for that index, or another null.
    Null,
    /// The codec's own status.
    Ndk(i32),
    /// The input could not be filled in.
    Fill,
    BufferTooSmall,
    Other,
}

/// The error number the guest gets for a codec call that failed.
pub open spec fn errno_of(e: CodecError) -> i32 {
    match e {
        CodecError::LibraryLoad | CodecError::MissingSymbol => errno::ENOSYS,
        CodecError::NullCodec => errno::ENODEV,
        CodecError::Ndk(status) => if status == 1100 || status == 1101 {
            errno::EBUSY
        } else if status == -10002 || status == -10004 {
            errno::EINVAL
        } else {
            errno::EIO
        },
        _ => errno::EIO,
    }
}

/// The error number the guest gets for a codec call that failed.
pub fn errno_for(e: CodecError) -> (n: i32)
    ensures
        n == errno_of(e),
{
    match e {
        CodecError::LibraryLoad | CodecError::MissingSymbol => errno::ENOSYS,
        CodecError::NullCodec => errno::ENODEV,
        CodecError::Ndk(status) => {
            if status == 1100 || status == 1101 {
                errno::EBUSY
            } else if status == -10002 || status == -10004 {
                errno::EINVAL
            } else {
                errno::EIO
            }
        },
        _ => errno::EIO,
    }
}

/// A time as the guest writes it.
#[derive(Clone, Copy, Debug, PartialEq, Eq, Structural)]
pub struct Timeval {
    pub tv_sec: i64,
    pub tv_usec: i64,
}

/// A number brought into the range of a 64-bit unsigned one.
pub open spec fn wrap_u64(v: int) -> int {
    v % 0x1_0000_0000_0000_0000
}

/// A guest's time as the microseconds that a codec carries through a frame.
#[verifier::rlimit(60)]
#[verifier::spinoff_prover]
pub fn pts_from(ts: Timeval) -> (pts: u64)
    ensures
        pts == wrap_u64(ts.tv_sec * 1_000_000 + ts.tv_usec),
{
    let us: i64 = ts.tv_sec.wrapping_mul(1_000_000).wrapping_add(ts.tv_usec);
    let pts: u64 = us as u64;
    proof {
        assert(us < 0 ==> (us as u64) == us + 0x1_0000_0000_0000_0000) by (bit_vector);
    }
    pts
}

/// A frame's microseconds as a guest's time.
pub open spec fn timeval_of(pts_us: int) -> Timeval {
    Timeval { tv_sec: (pts_us / 1_000_000) as i64, tv_usec: (pts_us % 1_000_000) as i64 }
}

/// A frame's microseconds as a guest's time: the fraction of a second is never negative.
pub fn timeval_from(pts_us: i64) -> (ts: Timeval)
    ensures
        ts == timeval_of(pts_us as int),
        0 <= ts.tv_usec < 1_000_000,
{
    if pts_us >= 0 {
        Timeval { tv_sec: pts_us / 1_000_000, tv_usec: pts_us % 1_000_000 }
    } else {
        let back: i64 = -(pts_us + 1);
        assert(pts_us == -1 - back);
        Timeval { tv_sec: -1 - back / 1_000_000, tv_usec: 999_999 - back % 1_000_000 }
    }
}

/// A time that goes through a codec comes back as it was.
pub proof fn law_time_round_trip(ts: Timeval)
    requires
        0 <= ts.tv_usec < 1_000_000,
        0 <= ts.tv_sec * 1_000_000 + ts.tv_usec <= i64::MAX,
    ensures
        wrap_u64(ts.tv_sec * 1_000_000 + ts.tv_usec) <= i64::MAX,
        timeval_of(wrap_u64(ts.tv_sec * 1_000_000 + ts.tv_usec)) == ts,
{
}

/// The input capacity asked for a coded size: a quarter of the raw picture's samples three times
/// over, and not less than [`MIN_INPUT_BUFFER_SIZE`].
pub open spec fn input_size_of(width: int, height: int) -> int {
    max_int((width * height * 3 / 2) / 2 + 128, MIN_INPUT_BUFFER_SIZE as int)
}

/// The input capacity asked for a coded size.
pub fn max_input_size(coded: (u32, u32)) -> (n: u64)
    ensures
        n == input_size_of(coded.0 as int, coded.1 as int),
{
    assert(coded.0 * coded.1 <= 0xffff_ffff * 0xffff_ffff) by (nonlinear_arith)
        requires
            coded.0 <= 0xffff_ffff,
            coded.1 <= 0xffff_ffff,
    ;
    assert(0 <= coded.0 * coded.1) by (nonlinear_arith);
    let pixels: u128 = coded.0 as u128 * coded.1 as u128;
    let n: u64 = ((pixels * 3 / 2) / 2 + 128) as u64;
    if n < MIN_INPUT_BUFFER_SIZE {
        MIN_INPUT_BUFFER_SIZE
    } else {
        n
    }
}

/// Half of a number, rounded up.
pub open spec fn half_up(n: int) -> int {
    (n + 1) / 2
}

/// The bytes of one tightly packed NV12 frame. Odd dimensions round the chroma plane up.
pub open spec fn nv12_bytes(width: int, height: int) -> int {
    width * height + 2 * half_up(width) * half_up(height)
}

/// The bytes of one tightly packed NV12 frame.
pub fn nv12_size(width: u32, height: u32) -> (n: u128)
    ensures
        n == nv12_bytes(width as int, height as int),
{
    let (w, h): (u128, u128) = (width as u128, height as u128);
    let (hw, hh): (u128, u128) = ((w + 1) / 2, (h + 1) / 2);
    assert(0 <= w * h <= 0xffff_ffff * 0xffff_ffff) by (nonlinear_arith)
        requires
            0 <= w <= 0xffff_ffff,
            0 <= h <= 0xffff_ffff,
    ;
    assert(0 <= (2 * hw) * hh <= 0x1_0000_0000 * 0x1_0000_0000) by (nonlinear_arith)
        requires
            0 <= hw <= 0x8000_0000,
            0 <= hh <= 0x8000_0000,
    ;
    w * h + 2 * hw * hh
}

/// Half of a number, rounded up.
pub proof fn law_a_half_is_rounded_up(n: int)
    ensures
        n <= 2 * half_up(n) <= n + 1,
{
}

/// A picture takes a byte for each pixel, and two for each square of four, of which those at an
/// odd edge are narrower.
pub proof fn law_a_picture_takes_its_bytes(width: int, height: int, cols: int, rows: int)
    requires
        0 <= width && width <= 2 * cols <= width + 1,
        0 <= height && height <= 2 * rows <= height + 1,
    ensures
        nv12_bytes(width, height) == width * height + 2 * (cols * rows),
        width % 2 == 0 && height % 2 == 0 ==> 2 * nv12_bytes(width, height) == 3 * (width * height),
{
    assert(half_up(width) == cols && half_up(height) == rows);
    assert((2 * cols) * rows == 2 * (cols * rows)) by (nonlinear_arith);
    if width % 2 == 0 && height % 2 == 0 {
        assert(width * height == 4 * (cols * rows)) by (nonlinear_arith)
            requires
                width == 2 * cols,
                height == 2 * rows,
        ;
    }
}

/// A time as the guest is told it is the codec's time, in seconds and millionths that are less than
/// a second.
pub proof fn law_a_time_is_whole_seconds_and_millionths(pts_us: i64)
    ensures
        0 <= timeval_of(pts_us as int).tv_usec < 1_000_000,
        timeval_of(pts_us as int).tv_sec * 1_000_000 + timeval_of(pts_us as int).tv_usec == pts_us,
{
}

/// A number in 64 bits is itself where it fits, and otherwise differs by a multiple of their range.
pub proof fn law_wrapping_keeps_what_fits(v: int)
    ensures
        0 <= wrap_u64(v) <= u64::MAX,
        0 <= v <= u64::MAX ==> wrap_u64(v) == v,
        (v - wrap_u64(v)) % 0x1_0000_0000_0000_0000 == 0,
{
}

/// A codec is wanted only for its own kind of work and its own media type, and only where it is
/// not for protected content. Among those hardware is always wanted, software only where allowed.
pub proof fn law_a_codec_is_wanted_for_its_own_work(
    info: CodecInfo,
    kind: CodecKind,
    mime: Seq<char>,
    allow_sw: bool,
)
    ensures
        rank_of(info, kind, mime, allow_sw) >= 0,
        rank_of(info, kind, mime, allow_sw) > 0 ==> info.kind == kind && info.mime@ == mime
            && !needs_secure(info) && (hardware(info) || allow_sw),
        info.kind == kind && info.mime@ == mime && !needs_secure(info) && (hardware(info)
            || allow_sw) ==> rank_of(info, kind, mime, allow_sw) > 0,
        rank_of(info, info.kind, info.mime@, true) == rank_of(info, info.kind, info.mime@, false)
            || !hardware(info),
{
}

/// Of two codecs that will do, hardware comes before software, a vendor's hardware before other
/// hardware, and software is not told apart by its vendor.
pub proof fn law_the_order_of_codecs(
    a: CodecInfo,
    b: CodecInfo,
    kind: CodecKind,
    mime: Seq<char>,
    allow_sw: bool,
)
    requires
        rank_of(a, kind, mime, allow_sw) > 0,
        rank_of(b, kind, mime, allow_sw) > 0,
    ensures
        hardware(a) && !hardware(b) ==> rank_of(a, kind, mime, allow_sw) > rank_of(
            b,
            kind,
            mime,
            allow_sw,
        ),
        hardware(a) && hardware(b) && a.is_vendor && !b.is_vendor ==> rank_of(
            a,
            kind,
            mime,
            allow_sw,
        ) > rank_of(b, kind, mime, allow_sw),
        hardware(a) == hardware(b) && a.is_vendor == b.is_vendor ==> rank_of(
            a,
            kind,
            mime,
            allow_sw,
        ) == rank_of(b, kind, mime, allow_sw),
        !hardware(a) && !hardware(b) ==> rank_of(a, kind, mime, allow_sw) == rank_of(
            b,
            kind,
            mime,
            allow_sw,
        ),
{
}

/// What decides between two codecs of a list: the rank, then the shorter name, then the earlier
/// place. One of two different ones always comes first, and never both.
pub proof fn law_preference_is_an_order(
    codecs: Seq<CodecInfo>,
    kind: CodecKind,
    mime: Seq<char>,
    allow_sw: bool,
    i: int,
    j: int,
    k: int,
)
    ensures
        i != j ==> preferred(codecs, kind, mime, allow_sw, i, j) != preferred(
            codecs,
            kind,
            mime,
            allow_sw,
            j,
            i,
        ),
        !preferred(codecs, kind, mime, allow_sw, i, i),
        preferred(codecs, kind, mime, allow_sw, i, j) && preferred(
            codecs,
            kind,
            mime,
            allow_sw,
            j,
            k,
        ) ==> preferred(codecs, kind, mime, allow_sw, i, k),
        rank_of(codecs[i], kind, mime, allow_sw) > rank_of(codecs[j], kind, mime, allow_sw)
            ==> preferred(codecs, kind, mime, allow_sw, i, j),
        rank_of(codecs[i], kind, mime, allow_sw) == rank_of(codecs[j], kind, mime, allow_sw)
            && text::utf8(codecs[i].name@).len() < text::utf8(codecs[j].name@).len() ==> preferred(
            codecs,
            kind,
            mime,
            allow_sw,
            i,
            j,
        ),
        rank_of(codecs[i], kind, mime, allow_sw) == rank_of(codecs[j], kind, mime, allow_sw)
            && text::utf8(codecs[i].name@).len() == text::utf8(codecs[j].name@).len() && i < j
            ==> preferred(codecs, kind, mime, allow_sw, i, j),
{
}

/// Whether a codec is hardware is what its type says; only where the type is unknown does the
/// platform's own prefix tell software.
pub proof fn law_the_type_tells_hardware(info: CodecInfo)
    ensures
        info.codec_type is HardwareAccelerated ==> hardware(info),
        info.codec_type is SoftwareOnly || info.codec_type is SoftwareWithDeviceAccess
            || info.codec_type is Invalid ==> !hardware(info),
        info.codec_type is Unknown ==> (hardware(info) <==> !(text::utf8("c2.android."@).is_prefix_of(
            text::utf8(info.name@),
        ) || text::utf8("OMX.google."@).is_prefix_of(text::utf8(info.name@)))),
{
}

/// The sizes that are offered are the codec's own, each side from its own bounds and step, made
/// sane: a least size of one, a greatest that is not below it, a step that is not zero.
pub proof fn law_offered_sizes_are_the_codecs_own(v: VideoCapabilities)
    ensures
        ({
            let (w, h) = sizes_of(Some(v));
            &&& 1 <= w.min <= w.max && 1 <= h.min <= h.max && 1 <= w.step && 1 <= h.step
            &&& 1 <= v.widths.0 ==> w.min == v.widths.0
            &&& 1 <= v.heights.0 ==> h.min == v.heights.0
            &&& 1 <= v.widths.0 <= v.widths.1 ==> w.max == v.widths.1
            &&& 1 <= v.heights.0 <= v.heights.1 ==> h.max == v.heights.1
            &&& v.widths.1 < w.min ==> w.max == w.min
            &&& v.heights.1 < h.min ==> h.max == h.min
            &&& 1 <= v.width_alignment ==> w.step == v.width_alignment
            &&& 1 <= v.height_alignment ==> h.step == v.height_alignment
            &&& v.widths.0 < 1 ==> w.min == 1
            &&& v.heights.0 < 1 ==> h.min == 1
            &&& 1 <= v.widths.1 && v.widths.0 < 1 ==> w.max == v.widths.1
            &&& 1 <= v.heights.1 && v.heights.0 < 1 ==> h.max == v.heights.1
            &&& v.width_alignment < 1 ==> w.step == 1
            &&& v.height_alignment < 1 ==> h.step == 1
        }),
{
}

/// A buffer for input holds half of a raw picture and a little more, and never less than a
/// mebibyte.
pub proof fn law_an_input_has_room(width: int, height: int)
    requires
        0 <= width,
        0 <= height,
    ensures
        input_size_of(width, height) >= 0x10_0000,
        4 * (input_size_of(width, height) - 127) > 3 * (width * height),
        input_size_of(width, height) > 0x10_0000 ==> 4 * (input_size_of(width, height) - 128) <= 3
            * (width * height),
{
    assert(0 <= width * height) by (nonlinear_arith)
        requires
            0 <= width,
            0 <= height,
    ;
    assert(width * height * 3 == 3 * (width * height)) by (nonlinear_arith);
}

/// Each coded format has a code and a media type of its own, and the two go together.
pub proof fn law_formats_are_told_apart(i: int, j: int)
    requires
        0 <= i < CODED_FORMATS,
        0 <= j < CODED_FORMATS,
    ensures
        format_fourcc(i) == format_fourcc(j) <==> i == j,
        format_mime(i) == format_mime(j) <==> i == j,
        format_fourcc(i) == 0x3436_3248u32 <==> format_mime(i) == "video/avc"@,
        format_fourcc(i) == 0x4356_4548u32 <==> format_mime(i) == "video/hevc"@,
        format_fourcc(i) == 0x3038_5056u32 <==> format_mime(i) == "video/x-vnd.on2.vp8"@,
        format_fourcc(i) == 0x3039_5056u32 <==> format_mime(i) == "video/x-vnd.on2.vp9"@,
        format_fourcc(i) == 0x3031_5641u32 <==> format_mime(i) == "video/av01"@,
{
    reveal_strlit("video/avc");
    reveal_strlit("video/hevc");
    reveal_strlit("video/x-vnd.on2.vp8");
    reveal_strlit("video/x-vnd.on2.vp9");
    reveal_strlit("video/av01");
    assert("video/avc"@.len() == 9);
    assert("video/hevc"@.len() == 10 && "video/av01"@.len() == 10);
    assert("video/x-vnd.on2.vp8"@.len() == 19 && "video/x-vnd.on2.vp9"@.len() == 19);
    assert("video/x-vnd.on2.vp8"@[18] != "video/x-vnd.on2.vp9"@[18]);
    assert("video/hevc"@[6] != "video/av01"@[6]);
}

/// A refusal that is about the guest's own doing is told from one that is about the device, and
/// from one that may pass.
pub proof fn law_errors_are_told_apart(status: i32)
    ensures
        errno_of(CodecError::LibraryLoad) == 38,
        errno_of(CodecError::MissingSymbol) == 38,
        errno_of(CodecError::NullCodec) == 19,
        status == 1100 || status == 1101 <==> errno_of(CodecError::Ndk(status)) == 16,
        status == -10002 || status == -10004 <==> errno_of(CodecError::Ndk(status)) == 22,
        errno_of(CodecError::Ndk(status)) == 5 || errno_of(CodecError::Ndk(status)) == 16
            || errno_of(CodecError::Ndk(status)) == 22,
{
}

/// A codec has a feature where it lists it as one that it supports.
pub proof fn law_a_feature_is_one_that_is_supported(info: CodecInfo, feature: Seq<char>, i: int)
    requires
        0 <= i < info.features@.len(),
    ensures
        info.features@[i].feature@ == feature && info.features@[i].supported ==> supports(
            info,
            feature,
        ),
        (forall|j: int|
            0 <= j < info.features@.len() ==> (#[trigger] info.features@[j]).feature@ != feature
                || !info.features@[j].supported) ==> !supports(info, feature),
{
}

/// Software is marked as such behind its name, and hardware goes by its name alone.
pub proof fn law_software_is_marked(info: CodecInfo)
    ensures
        hardware(info) ==> name_with_mark(info) == info.name@,
        !hardware(info) ==> name_with_mark(info).len() == info.name@.len() + 11 && name_with_mark(
            info,
        ).take(info.name@.len() as int) == info.name@,
{
    reveal_strlit(" (software)");
    if !hardware(info) {
        assert(name_with_mark(info).take(info.name@.len() as int) =~= info.name@);
    }
}

/// Codecs in order are all that will do and no other, each once, and none before one that is
/// preferred to it.
pub proof fn law_codecs_in_order_are_all_that_will_do(
    codecs: Seq<CodecInfo>,
    kind: CodecKind,
    mime: Seq<char>,
    allow_sw: bool,
    places: Seq<usize>,
    c: usize,
    i: int,
    j: int,
)
    requires
        in_order(codecs, codecs.len() as int, kind, mime, allow_sw, places),
        0 <= i < j < places.len(),
        c < codecs.len(),
    ensures
        places.contains(c) <==> rank_of(codecs[c as int], kind, mime, allow_sw) > 0,
        preferred(codecs, kind, mime, allow_sw, places[i] as int, places[j] as int),
{
}

/// A range that a platform publishes is offered as it is where it is one. Without one, sizes from 16 to
/// 4096 in steps of two are.
pub proof fn law_a_published_range_is_offered(lo: i32, hi: i32, step: i32)
    ensures
        1 <= lo <= hi && 1 <= step ==> {
            let r = size_range_of(lo as int, hi as int, step as int);
            r.min == lo && r.max == hi && r.step == step
        },
        lo < 1 ==> size_range_of(lo as int, hi as int, step as int).min == 1,
        hi < lo ==> size_range_of(lo as int, hi as int, step as int).max == size_range_of(
            lo as int,
            hi as int,
            step as int,
        ).min,
        step < 1 ==> size_range_of(lo as int, hi as int, step as int).step == 1,
        fallback_sizes().min == 16 && fallback_sizes().max == 4096 && fallback_sizes().step == 2,
{
}

} // verus!
