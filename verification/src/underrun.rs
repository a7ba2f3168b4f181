//! Packet-loss concealment for playback underruns.
//!
//! When no period was queued in time, the waveform is continued from the last good one: by
//! repeating its last pitch period, fading to nothing over a few periods, and blending real
//! audio back in over the invented tail. Only 16-bit little-endian samples are concealed.
//!
//! The lag to repeat at is the caller's to find: [`UnderrunConcealer::pitch_search`] hands out
//! the signal and the bounds of the search.
use vstd::prelude::*;

verus! {

/// The longest pitch period searched, in milliseconds.
pub const MAX_PITCH_MS: u64 = 20;

/// The shortest pitch period searched, in milliseconds.
pub const MIN_PITCH_MS: u64 = 2;

/// How many periods of concealment there are before the output is silent.
pub const FADE_PERIODS: u32 = 3;

/// How long the crossfade is when real audio resumes, in milliseconds.
pub const BLEND_MS: u64 = 2;

/// A concealer as a value.
pub struct ConcealerView {
    pub channels: int,
    pub frame_rate: int,
    pub period_bytes: int,
    pub scratch: Seq<u8>,
    pub history: Seq<u8>,
    pub have_history: bool,
    pub consecutive: int,
    pub tail: Seq<i16>,
    pub concealed_last: bool,
}

/// The signed number in two bytes, lowest first.
pub open spec fn sample(lo: u8, hi: u8) -> int {
    let v = lo + 256 * hi;
    if v >= 32768 {
        v - 65536
    } else {
        v
    }
}

/// Sample `i` of a period.
pub open spec fn sample_at(pcm: Seq<u8>, i: int) -> int {
    sample(pcm[2 * i], pcm[2 * i + 1])
}

/// The period whose samples are `s`.
pub open spec fn pcm_of(s: Seq<i16>) -> Seq<u8> {
    Seq::new(
        2 * s.len(),
        |k: int|
            if k % 2 == 0 {
                (s[k / 2] as int % 256) as u8
            } else {
                ((s[k / 2] as int / 256) % 256) as u8
            },
    )
}

/// The gain, in units of 1/32768, at a frame of a concealed period with `periods` periods of
/// fade left.
pub open spec fn fade_gain(periods: int, frames: int, frame: int) -> int {
    ((periods * frames - frame) * 32768) / (FADE_PERIODS * frames)
}

/// Sample `i` of a concealed period: the sample one lag (or more) back from the end of the
/// history, faded.
pub open spec fn concealed_sample(
    history: Seq<u8>,
    channels: int,
    frames: int,
    lag: int,
    periods: int,
    i: int,
) -> int {
    let frame = i / channels;
    let source = (frames - lag + frame % lag) * channels + i % channels;
    (sample_at(history, source) * fade_gain(periods, frames, frame)) / 32768
}

/// The weight of the real sample, in units of 1/32768, at a frame of a crossfade.
pub open spec fn blend_weight(blend_frames: int, frame: int) -> int {
    ((frame + 1) * 32768) / (blend_frames + 1)
}

/// A real sample blended over a concealed one.
pub open spec fn blended(heard: int, concealed: int, weight: int) -> int {
    (heard * weight + concealed * (32768 - weight)) / 32768
}

impl ConcealerView {
    pub open spec fn wf(self) -> bool {
        &&& self.channels > 0
        &&& self.frame_rate > 0
        &&& self.period_bytes > 0
        &&& self.period_bytes % (2 * self.channels) == 0
        &&& self.scratch.len() == self.period_bytes
        &&& self.history.len() == self.period_bytes
        &&& 2 * self.tail.len() == self.period_bytes
        &&& 0 <= self.consecutive <= u32::MAX
    }

    /// How many frames a period holds.
    pub open spec fn frames(self) -> int {
        self.period_bytes / 2 / self.channels
    }

    /// How many frames the crossfade takes.
    pub open spec fn blend_frames(self) -> int {
        let wanted = self.frame_rate * BLEND_MS / 1000;
        if wanted < self.frames() {
            wanted
        } else {
            self.frames()
        }
    }

    /// How many periods of fade are left.
    pub open spec fn fade_left(self) -> int {
        if self.consecutive >= FADE_PERIODS {
            0
        } else {
            FADE_PERIODS - self.consecutive
        }
    }

    /// A period with its start blended over the concealed tail.
    pub open spec fn blend(self, pcm: Seq<u8>) -> Seq<u8> {
        Seq::new(
            pcm.len(),
            |k: int|
                {
                    let i = k / 2;
                    let v = blended(
                        sample_at(pcm, i),
                        self.tail[i] as int,
                        blend_weight(self.blend_frames(), i / self.channels),
                    );
                    if i >= self.blend_frames() * self.channels {
                        pcm[k]
                    } else if k % 2 == 0 {
                        (v % 256) as u8
                    } else {
                        ((v / 256) % 256) as u8
                    }
                },
        )
    }

    /// Nothing to continue from.
    pub open spec fn after_reset(self) -> Self {
        ConcealerView {
            have_history: false,
            consecutive: 0,
            concealed_last: false,
            tail: Seq::new(self.tail.len(), |i: int| 0i16),
            ..self
        }
    }

    /// After a whole good period in the scratch.
    pub open spec fn after_good(self) -> Self {
        ConcealerView {
            scratch: self.history,
            history: if self.concealed_last {
                self.blend(self.scratch)
            } else {
                self.scratch
            },
            have_history: true,
            consecutive: 0,
            concealed_last: false,
            ..self
        }
    }

    /// The samples that a concealment invents.
    pub open spec fn invented(self, lag: int) -> Seq<i16> {
        Seq::new(
            self.tail.len(),
            |i: int|
                concealed_sample(
                    self.history,
                    self.channels,
                    self.frames(),
                    lag,
                    self.fade_left(),
                    i,
                ) as i16,
        )
    }

    /// After a concealed period.
    pub open spec fn after_conceal(self, lag: int) -> Self {
        let counted = ConcealerView {
            concealed_last: true,
            consecutive: if self.consecutive < u32::MAX {
                self.consecutive + 1
            } else {
                self.consecutive
            },
            ..self
        };
        if !self.have_history {
            self
        } else if self.fade_left() == 0 {
            ConcealerView { tail: Seq::new(self.tail.len(), |i: int| 0i16), ..counted }
        } else {
            ConcealerView {
                tail: self.invented(lag),
                scratch: pcm_of(self.invented(lag)),
                ..counted
            }
        }
    }
}

/// Continues a stream of periods over the ones that did not come.
pub struct UnderrunConcealer {
    channels: usize,
    frame_rate: u32,
    period_bytes: usize,
    scratch: Vec<u8>,
    history: Vec<u8>,
    have_history: bool,
    consecutive: u32,
    tail: Vec<i16>,
    concealed_last: bool,
}

impl View for UnderrunConcealer {
    type V = ConcealerView;

    closed spec fn view(&self) -> ConcealerView {
        ConcealerView {
            channels: self.channels as int,
            frame_rate: self.frame_rate as int,
            period_bytes: self.period_bytes as int,
            scratch: self.scratch@,
            history: self.history@,
            have_history: self.have_history,
            consecutive: self.consecutive as int,
            tail: self.tail@,
            concealed_last: self.concealed_last,
        }
    }
}

/// What a search for the pitch period works on.
pub struct PitchSearch {
    /// The history with its channels summed.
    pub mono: Vec<i32>,
    /// The shortest lag to try, in frames.
    pub min_lag: usize,
    /// The longest.
    pub max_lag: usize,
}

/// The sum of the first `n` channels of a frame.
pub open spec fn channel_sum(pcm: Seq<u8>, channels: int, frame: int, n: int) -> int
    decreases n,
{
    if n <= 0 {
        0
    } else {
        channel_sum(pcm, channels, frame, n - 1) + sample_at(pcm, frame * channels + n - 1)
    }
}

/// The bounds of the search at a frame rate, over periods of so many frames.
pub open spec fn lag_bounds(frame_rate: int, frames: int) -> (int, int) {
    let lo = frame_rate * MIN_PITCH_MS / 1000;
    let hi = frame_rate * MAX_PITCH_MS / 1000;
    (
        if lo < 1 {
            1
        } else {
            lo
        },
        if hi < frames / 2 {
            hi
        } else {
            frames / 2
        },
    )
}

/// `v` over 32768, rounded down.
fn floor_q15(v: i64) -> (r: i64)
    requires
        -0x4000_0000_0000 <= v <= 0x4000_0000_0000,
    ensures
        r == v as int / 32768,
{
    if v >= 0 {
        v / 32768
    } else {
        let up: i64 = (32767 - v) / 32768;
        assert(up == (32767 - v) / 32768);
        -up
    }
}

/// The signed number in two bytes, lowest first.
fn sample_of(lo: u8, hi: u8) -> (v: i64)
    ensures
        v == sample(lo, hi),
        -32768 <= v <= 32767,
{
    let v: i64 = lo as i64 + 256 * (hi as i64);
    if v >= 32768 {
        v - 65536
    } else {
        v
    }
}

/// Writes sample `i` of a period.
fn put_sample(pcm: &mut Vec<u8>, i: usize, v: i64)
    requires
        2 * i + 1 < old(pcm)@.len(),
        -32768 <= v <= 32767,
    ensures
        final(pcm)@ == old(pcm)@.update(2 * i, (v as int % 256) as u8).update(
            2 * i + 1,
            ((v as int / 256) % 256) as u8,
        ),
{
    let len: usize = pcm.len();
    let u: i64 = if v < 0 {
        v + 65536
    } else {
        v
    };
    let lo: u8 = (u % 256) as u8;
    let hi: u8 = (u / 256) as u8;
    assert(lo == (v as int % 256) as u8);
    assert(hi == ((v as int / 256) % 256) as u8);
    pcm.set(2 * i, lo);
    pcm.set(2 * i + 1, hi);
}

/// `len` bytes of zero.
fn zeroes(len: usize) -> (v: Vec<u8>)
    ensures
        v@ == Seq::new(len as nat, |i: int| 0u8),
{
    let mut v: Vec<u8> = Vec::new();
    while v.len() < len
        invariant
            v@.len() <= len,
            v@ == Seq::new(v@.len(), |i: int| 0u8),
        decreases len - v@.len(),
    {
        v.push(0);
    }
    v
}

proof fn lemma_gain_bounds(periods: int, frames: int, frame: int)
    requires
        1 <= periods <= 3,
        0 <= frame < frames,
    ensures
        0 <= fade_gain(periods, frames, frame) <= 32768,
        0 <= periods * frames - frame <= 3 * frames,
{
    assert(frames <= periods * frames <= 3 * frames) by (nonlinear_arith)
        requires
            1 <= periods <= 3,
            0 < frames,
    ;
    let num = periods * frames - frame;
    let d = 3 * frames;
    assert(0 <= (num * 32768) / d <= 32768) by (nonlinear_arith)
        requires
            0 <= num <= d,
            d > 0,
    ;
}

proof fn lemma_product_bounds(a: int, w: int)
    requires
        -32768 <= a <= 32767,
        0 <= w <= 32768,
    ensures
        -32768 * w <= a * w <= 32767 * w,
        -0x4000_0000 <= a * w <= 0x4000_0000,
        -32768 <= (a * w) / 32768 <= 32767,
{
    assert(-32768 * w <= a * w <= 32767 * w) by (nonlinear_arith)
        requires
            -32768 <= a <= 32767,
            0 <= w,
    ;
}

proof fn lemma_weight_bounds(blend_frames: int, frame: int)
    requires
        0 <= frame < blend_frames,
    ensures
        0 <= blend_weight(blend_frames, frame) <= 32768,
{
    let num = frame + 1;
    let d = blend_frames + 1;
    assert(0 <= (num * 32768) / d <= 32768) by (nonlinear_arith)
        requires
            0 <= num <= d,
            d > 0,
    ;
}

proof fn lemma_blend_bounds(a: int, b: int, w: int)
    requires
        -32768 <= a <= 32767,
        -32768 <= b <= 32767,
        0 <= w <= 32768,
    ensures
        -0x8000_0000 <= a * w <= 0x8000_0000,
        -0x8000_0000 <= b * (32768 - w) <= 0x8000_0000,
        -32768 <= blended(a, b, w) <= 32767,
{
    lemma_product_bounds(a, w);
    lemma_product_bounds(b, 32768 - w);
}

/// Sample index `frame * channels + ch` is at that frame and channel.
proof fn lemma_frame_of(channels: int, frame: int, ch: int)
    requires
        0 <= ch < channels,
        0 <= frame,
    ensures
        (frame * channels + ch) / channels == frame,
        (frame * channels + ch) % channels == ch,
{
    assert((frame * channels + ch) / channels == frame && (frame * channels + ch) % channels == ch)
        by (nonlinear_arith)
        requires
            0 <= ch < channels,
            0 <= frame,
    ;
}

proof fn lemma_frame_inside(channels: int, frames: int, frame: int)
    requires
        0 < channels,
        0 <= frame < frames,
    ensures
        0 <= frame * channels,
        (frame + 1) * channels == frame * channels + channels,
        frame * channels + channels <= frames * channels,
{
    assert(0 <= frame * channels && (frame + 1) * channels == frame * channels + channels && (frame
        + 1) * channels <= frames * channels) by (nonlinear_arith)
        requires
            0 < channels,
            0 <= frame < frames,
    ;
}

impl ConcealerView {
    proof fn lemma_frames(self)
        requires
            self.wf(),
        ensures
            self.frames() > 0,
            self.frames() * self.channels == self.tail.len(),
            2 * (self.frames() * self.channels) == self.period_bytes,
            self.blend_frames() >= 0,
    {
        let p = self.period_bytes;
        let c = self.channels;
        let q = p / (2 * c);
        vstd::arithmetic::div_mod::lemma_fundamental_div_mod(p, 2 * c);
        assert((2 * c) * q == 2 * (c * q)) by (nonlinear_arith);
        assert(p / 2 == c * q);
        assert((c * q) / c == q) by (nonlinear_arith)
            requires
                c > 0,
        ;
        assert(c * q == q * c) by (nonlinear_arith);
        assert(q > 0) by (nonlinear_arith)
            requires
                c > 0,
                2 * (c * q) > 0,
        ;
    }
}

impl UnderrunConcealer {
    /// A concealer for a stream of 16-bit samples. `None` where the samples are not 16-bit, or
    /// the geometry makes no sense.
    pub fn new(
        channels: usize,
        frame_rate: u32,
        period_bytes: usize,
        sample_bytes: usize,
    ) -> (concealer: Option<Self>)
        requires
            channels * 2 <= usize::MAX,
        ensures
            concealer is Some <==> sample_bytes == 2 && channels > 0 && frame_rate > 0
                && period_bytes > 0 && period_bytes as int % (2 * channels) == 0,
            concealer matches Some(c) ==> c@.wf() && c@ == (ConcealerView {
                channels: channels as int,
                frame_rate: frame_rate as int,
                period_bytes: period_bytes as int,
                scratch: Seq::new(period_bytes as nat, |i: int| 0u8),
                history: Seq::new(period_bytes as nat, |i: int| 0u8),
                have_history: false,
                consecutive: 0,
                tail: Seq::new((period_bytes / 2) as nat, |i: int| 0i16),
                concealed_last: false,
            }),
    {
        if sample_bytes != 2 || channels == 0 || frame_rate == 0 || period_bytes == 0 {
            return None;
        }
        if period_bytes % (channels * 2) != 0 {
            return None;
        }
        let samples: usize = period_bytes / 2;
        let mut tail: Vec<i16> = Vec::new();
        while tail.len() < samples
            invariant
                tail@.len() <= samples,
                tail@ == Seq::new(tail@.len(), |i: int| 0i16),
            decreases samples - tail@.len(),
        {
            tail.push(0);
        }
        proof {
            let q = period_bytes as int / (2 * channels);
            vstd::arithmetic::div_mod::lemma_fundamental_div_mod(
                period_bytes as int,
                2 * channels,
            );
            assert((2 * channels) * q == 2 * (channels * q)) by (nonlinear_arith);
        }
        Some(
            UnderrunConcealer {
                channels,
                frame_rate,
                period_bytes,
                scratch: zeroes(period_bytes),
                history: zeroes(period_bytes),
                have_history: false,
                consecutive: 0,
                tail,
                concealed_last: false,
            },
        )
    }

    /// How many bytes a period holds.
    pub fn period_bytes(&self) -> (n: usize)
        ensures
            n == self@.period_bytes,
    {
        self.period_bytes
    }

    /// How many frames a period holds.
    pub fn frames(&self) -> (n: usize)
        requires
            self@.wf(),
        ensures
            n == self@.frames(),
            n > 0,
    {
        proof {
            self@.lemma_frames();
        }
        self.period_bytes / 2 / self.channels
    }

    /// The buffer to read the incoming period into.
    pub fn scratch_mut(&mut self) -> (scratch: &mut [u8])
        ensures
            scratch@ == old(self)@.scratch,
            final(self)@ == (ConcealerView { scratch: final(scratch)@, ..old(self)@ }),
    {
        self.scratch.as_mut_slice()
    }

    /// Nothing to continue from.
    fn reset(&mut self)
        ensures
            final(self)@ == old(self)@.after_reset(),
    {
        self.have_history = false;
        self.consecutive = 0;
        self.concealed_last = false;
        let mut i: usize = 0;
        while i < self.tail.len()
            invariant
                i <= self.tail@.len(),
                self.tail@.len() == old(self)@.tail.len(),
                forall|j: int| 0 <= j < i ==> #[trigger] self.tail@[j] == 0,
                self@ == (ConcealerView { tail: self.tail@, ..old(self)@.after_reset() }),
            decreases self.tail@.len() - i,
        {
            self.tail.set(i, 0);
            i = i + 1;
        }
        assert(self.tail@ =~= old(self)@.after_reset().tail);
    }

    /// Takes `len` bytes of real audio in the scratch. The first whole period after a hole is
    /// blended over the concealed tail; a whole period is then what a hole is continued from.
    /// Returns what to hand to the endpoint.
    pub fn commit_good_period(&mut self, len: usize) -> (out: &[u8])
        requires
            old(self)@.wf(),
            len <= old(self)@.period_bytes,
        ensures
            final(self)@.wf(),
            len != old(self)@.period_bytes ==> {
                &&& final(self)@ == old(self)@.after_reset()
                &&& out@ == old(self)@.scratch.take(len as int)
            },
            len == old(self)@.period_bytes ==> {
                &&& final(self)@ == old(self)@.after_good()
                &&& out@ == old(self)@.after_good().history
            },
    {
        if len != self.period_bytes {
            self.reset();
            return vstd::slice::slice_subrange(self.scratch.as_slice(), 0, len);
        }
        if self.concealed_last {
            self.blend_in();
        }
        let mut scratch: Vec<u8> = Vec::new();
        std::mem::swap(&mut scratch, &mut self.scratch);
        std::mem::swap(&mut scratch, &mut self.history);
        std::mem::swap(&mut scratch, &mut self.scratch);
        self.have_history = true;
        self.consecutive = 0;
        self.concealed_last = false;
        self.history.as_slice()
    }

    /// Blends the start of the scratch over the concealed tail.
    fn blend_in(&mut self)
        requires
            old(self)@.wf(),
        ensures
            final(self)@ == (ConcealerView {
                scratch: old(self)@.blend(old(self)@.scratch),
                ..old(self)@
            }),
    {
        let frames: usize = self.frames();
        let wanted: u64 = self.frame_rate as u64 * BLEND_MS / 1000;
        let blend_frames: usize = if wanted < frames as u64 {
            wanted as usize
        } else {
            frames
        };
        let ghost v = self@;
        let ghost real_pcm = self.scratch@;
        proof {
            v.lemma_frames();
            assert(blend_frames == v.blend_frames());
        }
        let channels: usize = self.channels;
        let mut frame: usize = 0;
        assert(self.scratch@ =~= real_pcm);
        while frame < blend_frames
            invariant
                v.wf(),
                v == old(self)@,
                channels == v.channels,
                blend_frames == v.blend_frames() <= v.frames(),
                v.frames() * v.channels == v.tail.len(),
                real_pcm == v.scratch,
                frame <= blend_frames,
                self@ == (ConcealerView { scratch: self.scratch@, ..v }),
                self.scratch@.len() == v.period_bytes,
                forall|k: int|
                    0 <= k < v.period_bytes ==> #[trigger] self.scratch@[k] == if k / 2 < frame
                        * channels {
                        v.blend(real_pcm)[k]
                    } else {
                        real_pcm[k]
                    },
            decreases blend_frames - frame,
        {
            let w: i64 = ((frame as u128 + 1) * 32768 / (blend_frames as u128 + 1)) as i64;
            proof {
                lemma_weight_bounds(blend_frames as int, frame as int);
                assert(w == blend_weight(blend_frames as int, frame as int));
                lemma_frame_inside(channels as int, v.frames(), frame as int);
                lemma_frame_inside(channels as int, blend_frames as int, frame as int);
            }
            let base: usize = frame * channels;
            let mut ch: usize = 0;
            while ch < channels
                invariant
                    v.wf(),
                    v == old(self)@,
                    channels == v.channels,
                    blend_frames == v.blend_frames() <= v.frames(),
                    real_pcm == v.scratch,
                    frame < blend_frames,
                    base == frame * channels,
                    base + channels <= v.tail.len(),
                    base + channels <= blend_frames * channels,
                    ch <= channels,
                    0 <= w <= 32768,
                    w == blend_weight(blend_frames as int, frame as int),
                    self@ == (ConcealerView { scratch: self.scratch@, ..v }),
                    self.scratch@.len() == v.period_bytes,
                    forall|k: int|
                        0 <= k < v.period_bytes ==> #[trigger] self.scratch@[k] == if k / 2 < base
                            + ch {
                            v.blend(real_pcm)[k]
                        } else {
                            real_pcm[k]
                        },
                decreases channels - ch,
            {
                let i: usize = base + ch;
                let ghost prev = self.scratch@;
                let len: usize = self.scratch.len();
                proof {
                    lemma_frame_of(channels as int, frame as int, ch as int);
                    assert(prev[2 * i] == real_pcm[2 * i]);
                    assert(prev[2 * i + 1] == real_pcm[2 * i + 1]);
                }
                let heard: i64 = sample_of(self.scratch[2 * i], self.scratch[2 * i + 1]);
                let invented: i64 = self.tail[i] as i64;
                proof {
                    lemma_blend_bounds(heard as int, invented as int, w as int);
                }
                let mixed: i64 = floor_q15(heard * w + invented * (32768 - w));
                put_sample(&mut self.scratch, i, mixed);
                ch = ch + 1;
                assert forall|k: int| 0 <= k < v.period_bytes implies #[trigger] self.scratch@[k]
                    == if k / 2 < base + ch {
                    v.blend(real_pcm)[k]
                } else {
                    real_pcm[k]
                } by {
                    if k == 2 * i || k == 2 * i + 1 {
                        assert(k / 2 == i);
                    } else {
                        assert(self.scratch@[k] == prev[k]);
                    }
                }
            }
            frame = frame + 1;
        }
        assert(self.scratch@ =~= v.blend(real_pcm));
    }
}

impl UnderrunConcealer {
    /// Continues the last good period, repeating its last `lag` frames. `None` where there is
    /// nothing to continue from, or the output has faded away: the caller writes silence.
    pub fn conceal(&mut self, lag: usize) -> (out: Option<&[u8]>)
        requires
            old(self)@.wf(),
            1 <= lag <= old(self)@.frames(),
        ensures
            final(self)@.wf(),
            final(self)@ == old(self)@.after_conceal(lag as int),
            out is Some <==> old(self)@.have_history && old(self)@.fade_left() > 0,
            out matches Some(pcm) ==> pcm@ == pcm_of(old(self)@.invented(lag as int)),
    {
        if !self.have_history {
            return None;
        }
        if self.consecutive >= FADE_PERIODS {
            let mut i: usize = 0;
            while i < self.tail.len()
                invariant
                    i <= self.tail@.len(),
                    self.tail@.len() == old(self)@.tail.len(),
                    forall|j: int| 0 <= j < i ==> #[trigger] self.tail@[j] == 0,
                    self@ == (ConcealerView { tail: self.tail@, ..old(self)@ }),
                decreases self.tail@.len() - i,
            {
                self.tail.set(i, 0);
                i = i + 1;
            }
            assert(self.tail@ =~= Seq::new(old(self)@.tail.len(), |i: int| 0i16));
            self.concealed_last = true;
            self.consecutive = self.consecutive.saturating_add(1);
            return None;
        }
        self.invent(lag);
        self.concealed_last = true;
        self.consecutive = self.consecutive.saturating_add(1);
        Some(self.scratch.as_slice())
    }

    /// Fills the tail and the scratch with a continuation of the history.
    fn invent(&mut self, lag: usize)
        requires
            old(self)@.wf(),
            1 <= lag <= old(self)@.frames(),
            old(self)@.fade_left() > 0,
        ensures
            final(self)@ == (ConcealerView {
                tail: old(self)@.invented(lag as int),
                scratch: pcm_of(old(self)@.invented(lag as int)),
                ..old(self)@
            }),
    {
        let frames: usize = self.frames();
        let channels: usize = self.channels;
        let periods: u32 = FADE_PERIODS - self.consecutive;
        let start: usize = frames - lag;
        let ghost v = self@;
        let ghost new_tail = v.invented(lag as int);
        proof {
            v.lemma_frames();
        }
        let mut frame: usize = 0;
        let mut turn: usize = 0;
        while frame < frames
            invariant
                v.wf(),
                v == old(self)@,
                channels == v.channels,
                frames == v.frames(),
                frames * channels == v.tail.len(),
                2 * (frames * channels) == v.period_bytes,
                periods == v.fade_left(),
                1 <= periods <= 3,
                1 <= lag <= frames,
                start == frames - lag,
                turn == frame as int % lag as int,
                new_tail == v.invented(lag as int),
                frame <= frames,
                self@ == (ConcealerView { scratch: self.scratch@, tail: self.tail@, ..v }),
                self.tail@.len() == v.tail.len(),
                self.scratch@.len() == v.period_bytes,
                forall|i: int|
                    0 <= i < frame * channels ==> #[trigger] self.tail@[i] == new_tail[i],
                forall|k: int|
                    0 <= k < 2 * (frame * channels) ==> #[trigger] self.scratch@[k] == pcm_of(
                        new_tail,
                    )[k],
            decreases frames - frame,
        {
            proof {
                lemma_gain_bounds(periods as int, frames as int, frame as int);
                lemma_frame_inside(channels as int, frames as int, frame as int);
                lemma_frame_inside(channels as int, frames as int, start + turn);
            }
            let num: u128 = periods as u128 * frames as u128 - frame as u128;
            let gain: i64 = (num * 32768 / (FADE_PERIODS as u128 * frames as u128)) as i64;
            assert(gain == fade_gain(periods as int, frames as int, frame as int));
            let base: usize = frame * channels;
            let source: usize = (start + turn) * channels;
            let mut ch: usize = 0;
            while ch < channels
                invariant
                    v.wf(),
                    v == old(self)@,
                    channels == v.channels,
                    frames == v.frames(),
                    periods == v.fade_left(),
                    1 <= lag <= frames,
                    start == frames - lag,
                    turn == frame as int % lag as int,
                    new_tail == v.invented(lag as int),
                    frame < frames,
                    base == frame * channels,
                    source == (start + turn) * channels,
                    base + channels <= v.tail.len(),
                    source + channels <= v.tail.len(),
                    2 * v.tail.len() == v.period_bytes,
                    ch <= channels,
                    0 <= gain <= 32768,
                    gain == fade_gain(periods as int, frames as int, frame as int),
                    self@ == (ConcealerView { scratch: self.scratch@, tail: self.tail@, ..v }),
                    self.tail@.len() == v.tail.len(),
                    self.scratch@.len() == v.period_bytes,
                    forall|i: int| 0 <= i < base + ch ==> #[trigger] self.tail@[i] == new_tail[i],
                    forall|k: int|
                        0 <= k < 2 * (base + ch) ==> #[trigger] self.scratch@[k] == pcm_of(
                            new_tail,
                        )[k],
                decreases channels - ch,
            {
                let i: usize = base + ch;
                let j: usize = source + ch;
                let len: usize = self.history.len();
                let s: i64 = sample_of(self.history[2 * j], self.history[2 * j + 1]);
                proof {
                    lemma_frame_of(channels as int, frame as int, ch as int);
                    lemma_product_bounds(s as int, gain as int);
                }
                let faded: i64 = floor_q15(s * gain);
                let ghost prev = self.scratch@;
                assert(faded as i16 == new_tail[i as int]);
                self.tail.set(i, faded as i16);
                put_sample(&mut self.scratch, i, faded);
                ch = ch + 1;
                assert forall|k: int| 0 <= k < 2 * (base + ch) implies #[trigger] self.scratch@[k]
                    == pcm_of(new_tail)[k] by {
                    if k == 2 * i || k == 2 * i + 1 {
                        assert(k / 2 == i);
                    } else {
                        assert(self.scratch@[k] == prev[k]);
                    }
                }
            }
            proof {
                vstd::arithmetic::div_mod::lemma_fundamental_div_mod(frame as int, lag as int);
                let q = frame as int / lag as int;
                assert((frame + 1) % lag as int == if turn + 1 == lag {
                    0
                } else {
                    turn + 1
                }) by {
                    assert(lag * (q + 1) == lag * q + lag) by (nonlinear_arith);
                    if turn + 1 == lag {
                        vstd::arithmetic::div_mod::lemma_fundamental_div_mod_converse(
                            frame + 1,
                            lag as int,
                            q + 1,
                            0,
                        );
                    } else {
                        vstd::arithmetic::div_mod::lemma_fundamental_div_mod_converse(
                            frame + 1,
                            lag as int,
                            q,
                            turn + 1,
                        );
                    }
                }
            }
            frame = frame + 1;
            turn = turn + 1;
            if turn == lag {
                turn = 0;
            }
        }
        assert(self.tail@ =~= new_tail);
        assert(self.scratch@ =~= pcm_of(new_tail));
    }

    /// What to search the pitch period in. `None` where the period is too short for a search:
    /// the whole of it is then what is repeated.
    pub fn pitch_search(&self) -> (search: Option<PitchSearch>)
        requires
            self@.wf(),
            self@.channels < 65536,
        ensures
            ({
                let (lo, hi) = lag_bounds(self@.frame_rate, self@.frames());
                &&& search is Some <==> lo < hi
                &&& search matches Some(p) ==> {
                    &&& p.min_lag == lo
                    &&& p.max_lag == hi
                    &&& p.mono@.len() == self@.frames()
                    &&& forall|f: int|
                        0 <= f < p.mono@.len() ==> #[trigger] p.mono@[f] == channel_sum(
                            self@.history,
                            self@.channels,
                            f,
                            self@.channels,
                        )
                }
            }),
    {
        let frames: usize = self.frames();
        let lo: u64 = self.frame_rate as u64 * MIN_PITCH_MS / 1000;
        let hi: u64 = self.frame_rate as u64 * MAX_PITCH_MS / 1000;
        let min_lag: u64 = if lo < 1 {
            1
        } else {
            lo
        };
        let max_lag: u64 = if hi < (frames / 2) as u64 {
            hi
        } else {
            (frames / 2) as u64
        };
        if max_lag <= min_lag {
            return None;
        }
        proof {
            self@.lemma_frames();
        }
        let mut mono: Vec<i32> = Vec::new();
        let mut f: usize = 0;
        while f < frames
            invariant
                self@.wf(),
                self.channels < 65536,
                frames == self@.frames(),
                frames * self.channels == self@.tail.len(),
                f <= frames,
                mono@.len() == f,
                forall|g: int|
                    0 <= g < f ==> #[trigger] mono@[g] == channel_sum(
                        self@.history,
                        self@.channels,
                        g,
                        self@.channels,
                    ),
            decreases frames - f,
        {
            proof {
                lemma_frame_inside(self.channels as int, frames as int, f as int);
            }
            let len: usize = self.history.len();
            let mut sum: i32 = 0;
            let mut ch: usize = 0;
            while ch < self.channels
                invariant
                    self@.wf(),
                    self.channels < 65536,
                    len == self.history@.len(),
                    2 * (f * self.channels + self.channels) <= len,
                    ch <= self.channels,
                    -32768 * ch <= sum <= 32768 * ch,
                    sum == channel_sum(self@.history, self@.channels, f as int, ch as int),
                decreases self.channels - ch,
            {
                let i: usize = f * self.channels + ch;
                let v: i64 = sample_of(self.history[2 * i], self.history[2 * i + 1]);
                sum = sum + v as i32;
                ch = ch + 1;
            }
            mono.push(sum);
            f = f + 1;
        }
        Some(PitchSearch { mono, min_lag: min_lag as usize, max_lag: max_lag as usize })
    }
}

/// The gain only falls: from frame to frame within a period, and from the end of one period to
/// the start of the next.
pub proof fn law_gain_falls(periods: int, frames: int, frame: int)
    requires
        1 <= periods <= FADE_PERIODS,
        0 <= frame < frames,
    ensures
        0 <= fade_gain(periods, frames, frame) <= 32768,
        fade_gain(FADE_PERIODS as int, frames, 0) == 32768,
        frame + 1 < frames ==> fade_gain(periods, frames, frame + 1) <= fade_gain(
            periods,
            frames,
            frame,
        ),
        periods > 1 ==> fade_gain(periods - 1, frames, 0) <= fade_gain(periods, frames, frame),
{
    lemma_gain_bounds(periods, frames, frame);
    let d = 3 * frames;
    let num = periods * frames - frame;
    vstd::arithmetic::div_mod::lemma_div_is_ordered((num - 1) * 32768, num * 32768, d);
    assert((periods - 1) * frames == periods * frames - frames) by (nonlinear_arith);
    vstd::arithmetic::div_mod::lemma_div_is_ordered((num - (frames - frame)) * 32768, num * 32768, d);
    assert((d * 32768) / d == 32768) by (nonlinear_arith)
        requires
            d > 0,
    ;
}

/// A hole fades to silence: once [`FADE_PERIODS`] periods were concealed in a row, every further
/// one is silence, and the tail that real audio is blended over is silent too.
pub proof fn law_a_long_hole_is_silent(v: ConcealerView, lag: int)
    requires
        v.wf(),
        v.have_history,
        v.consecutive >= FADE_PERIODS,
    ensures
        v.fade_left() == 0,
        v.after_conceal(lag).fade_left() == 0,
        forall|i: int| 0 <= i < v.tail.len() ==> #[trigger] v.after_conceal(lag).tail[i] == 0,
{
}

/// Real audio is changed only by the first whole period after a hole: a second one in a row
/// passes as it came.
pub proof fn law_blend_only_after_a_hole(v: ConcealerView, incoming: Seq<u8>)
    requires
        v.wf(),
        incoming.len() == v.period_bytes,
    ensures
        (ConcealerView { scratch: incoming, ..v.after_good() }).after_good().history == incoming,
{
}

/// What is concealed is never louder than what it repeats.
pub proof fn law_concealment_is_not_louder(v: ConcealerView, lag: int, i: int)
    requires
        v.wf(),
        1 <= lag <= v.frames(),
        v.fade_left() > 0,
        0 <= i < v.tail.len(),
    ensures
        ({
            let frame = i / v.channels;
            let s = sample_at(
                v.history,
                (v.frames() - lag + frame % lag) * v.channels + i % v.channels,
            );
            let c = concealed_sample(v.history, v.channels, v.frames(), lag, v.fade_left(), i);
            &&& s >= 0 ==> 0 <= c <= s
            &&& s <= 0 ==> s <= c <= 0
        }),
{
    v.lemma_frames();
    let frames = v.frames();
    let frame = i / v.channels;
    assert(0 <= frame < frames) by (nonlinear_arith)
        requires
            0 <= i < frames * v.channels,
            v.channels > 0,
            frame == i / v.channels,
    ;
    lemma_gain_bounds(v.fade_left(), frames, frame);
    let g = fade_gain(v.fade_left(), frames, frame);
    let s = sample_at(v.history, (v.frames() - lag + frame % lag) * v.channels + i % v.channels);
    assert(s >= 0 ==> 0 <= s * g <= s * 32768) by (nonlinear_arith)
        requires
            0 <= g <= 32768,
    ;
    assert(s <= 0 ==> s * 32768 <= s * g <= 0) by (nonlinear_arith)
        requires
            0 <= g <= 32768,
    ;
}

/// Samples are 16 bits, two's complement, lowest byte first.
pub proof fn law_samples_are_little_endian(lo: u8, hi: u8)
    ensures
        -32768 <= sample(lo, hi) <= 32767,
        (sample(lo, hi) - lo - 256 * hi) % 65536 == 0,
{
}

/// Sample `i` of a period is in the two bytes from `2 * i` on.
pub proof fn law_samples_stand_in_a_row(pcm: Seq<u8>, i: int)
    ensures
        -32768 <= sample_at(pcm, i) <= 32767,
        (sample_at(pcm, i) - pcm[2 * i] - 256 * pcm[2 * i + 1]) % 65536 == 0,
{
}

/// What is written as a sample is read as the same sample.
pub proof fn law_a_written_sample_is_read(s: Seq<i16>, i: int)
    requires
        0 <= i < s.len(),
    ensures
        pcm_of(s).len() == 2 * s.len(),
        sample(pcm_of(s)[2 * i], pcm_of(s)[2 * i + 1]) == s[i],
{
}

/// Where in a period a sample of a frame and a channel is.
proof fn lemma_place(v: ConcealerView, frames: int, frame: int, ch: int)
    requires
        v.wf(),
        2 * (frames * v.channels) == v.period_bytes,
        0 <= frame < frames,
        0 <= ch < v.channels,
    ensures
        frames == v.frames(),
        0 <= frame * v.channels + ch < v.tail.len(),
        (frame * v.channels + ch) / v.channels == frame,
        (frame * v.channels + ch) % v.channels == ch,
{
    v.lemma_frames();
    lemma_frame_of(v.channels, frame, ch);
    let f = v.frames();
    let c = v.channels;
    assert(frames == f) by (nonlinear_arith)
        requires
            frames * c == f * c,
            c > 0,
    ;
    lemma_frame_inside(c, frames, frame);
}

/// Each channel is continued by itself. In a hole after `n` concealed periods, the sample of
/// channel `ch` at frame `frame` comes from the same channel of the history, from the frame
/// `from` among its last `lag` ones that is a whole number of lags before it. It is that sample
/// times what is left of a fade over [`FADE_PERIODS`] periods, to within rounding: the gain that is
/// left is taken in parts of 32768, and what is no whole part is cut off, as what is no whole sample
/// is.
pub proof fn law_each_channel_is_continued(
    v: ConcealerView,
    lag: int,
    frames: int,
    frame: int,
    ch: int,
    from: int,
    gain: int,
)
    requires
        v.wf(),
        v.have_history,
        0 <= v.consecutive < 3,
        2 * (frames * v.channels) == v.period_bytes,
        1 <= lag <= frames,
        0 <= frame < frames,
        0 <= ch < v.channels,
        frames - lag <= from < frames,
        (frames + frame - from) % lag == 0,
        gain * (3 * frames) <= 32768 * ((3 - v.consecutive) * frames - frame) < (gain + 1) * (3
            * frames),
    ensures
        ({
            let was = sample_at(v.history, from * v.channels + ch);
            let out = v.after_conceal(lag).scratch;
            let is = sample_at(out, frame * v.channels + ch);
            let whole = 3 * frames;
            let left = (3 - v.consecutive) * frames - frame;
            &&& out.len() == v.period_bytes
            &&& -2 * whole < is * whole - was * left < 2 * whole
            &&& 32768 * is <= was * gain < 32768 * (is + 1)
            &&& v.consecutive == 0 && frame == 0 ==> is == was
            &&& v.after_conceal(lag).tail[frame * v.channels + ch] == is
        }),
{
    lemma_place(v, frames, frame, ch);
    lemma_place(v, frames, from, ch);
    let c = v.channels;
    let i = frame * c + ch;
    let periods = 3 - v.consecutive;
    assert(from == frames - lag + frame % lag) by {
        let a = from - (frames - lag);
        let q = (frames + frame - from) / lag;
        vstd::arithmetic::div_mod::lemma_fundamental_div_mod(frames + frame - from, lag);
        assert(frame == lag * (q - 1) + a) by (nonlinear_arith)
            requires
                frames + frame - from == lag * q,
                a == from - (frames - lag),
        ;
        assert(lag * (q - 1) == (q - 1) * lag) by (nonlinear_arith);
        vstd::arithmetic::div_mod::lemma_fundamental_div_mod_converse(frame, lag, q - 1, a);
    }
    let was = sample_at(v.history, from * c + ch);
    let g = fade_gain(periods, frames, frame);
    assert(g == gain) by {
        let d = 3 * frames;
        let num = 32768 * (periods * frames - frame);
        assert((gain + 1) * d == gain * d + d) by (nonlinear_arith);
        vstd::arithmetic::div_mod::lemma_fundamental_div_mod_converse(
            num,
            d,
            gain,
            num - gain * d,
        );
    }
    lemma_gain_bounds(periods, frames, frame);
    lemma_product_bounds(was, g);
    let is = (was * g) / 32768;
    assert(v.invented(lag)[i] == is);
    law_a_written_sample_is_read(v.invented(lag), i);
    let d = 3 * frames;
    let num = periods * frames - frame;
    vstd::arithmetic::div_mod::lemma_fundamental_div_mod(num * 32768, d);
    vstd::arithmetic::div_mod::lemma_fundamental_div_mod(was * g, 32768);
    lemma_fade_error(was, g, is, num, d, (num * 32768) % d, (was * g) % 32768);
    if v.consecutive == 0 && frame == 0 {
        law_gain_falls(3, frames, 0);
        assert((was * 32768) / 32768 == was);
    }
}

proof fn lemma_fade_error(was: int, g: int, is: int, num: int, d: int, r: int, q: int)
    requires
        -32768 <= was <= 32767,
        0 < d,
        num * 32768 == d * g + r,
        0 <= r < d,
        was * g == 32768 * is + q,
        0 <= q < 32768,
    ensures
        -2 * d < is * d - was * num < 2 * d,
{
    // 32768 * (is * d - was * num) == - was * r - q * d
    assert(32768 * (is * d) == (was * g) * d - q * d) by (nonlinear_arith)
        requires
            was * g == 32768 * is + q,
    ;
    assert(32768 * (was * num) == was * (d * g) + was * r) by (nonlinear_arith)
        requires
            num * 32768 == d * g + r,
    ;
    assert((was * g) * d == was * (d * g)) by (nonlinear_arith);
    assert(-32768 * d < was * r < 32768 * d) by (nonlinear_arith)
        requires
            -32768 <= was <= 32767,
            0 <= r < d,
    ;
    assert(0 <= q * d < 32768 * d) by (nonlinear_arith)
        requires
            0 <= q < 32768,
            0 < d,
    ;
}

/// A hole is counted: each concealed period takes one period off the fade, and a whole good one
/// starts it anew.
pub proof fn law_a_hole_is_counted(v: ConcealerView, lag: int)
    requires
        v.wf(),
    ensures
        v.after_good().consecutive == 0 && v.after_good().have_history,
        !v.after_good().concealed_last,
        !v.after_reset().have_history && v.after_reset().consecutive == 0,
        !v.after_reset().concealed_last,
        v.have_history ==> v.after_conceal(lag).concealed_last,
        v.have_history && v.consecutive < u32::MAX ==> v.after_conceal(lag).consecutive
            == v.consecutive + 1,
        v.have_history && v.consecutive < 3 ==> v.fade_left() > 0,
        v.after_conceal(lag).history == v.history,
        !v.have_history ==> v.after_conceal(lag) == v,
        !v.concealed_last ==> v.after_good().history == v.scratch,
{
}

/// Real audio comes back over the concealed tail, each channel over its own: over `b` frames,
/// which is the crossfade's time or the whole period, the weight of what is heard grows by equal
/// steps. Behind them it is heard as it came.
pub proof fn law_real_audio_is_blended_in(
    v: ConcealerView,
    frames: int,
    b: int,
    frame: int,
    ch: int,
    weight: int,
)
    requires
        v.wf(),
        v.concealed_last,
        2 * (frames * v.channels) == v.period_bytes,
        0 <= b <= frames,
        b == frames || b * 500 <= v.frame_rate,
        b == frames ==> frames * 500 <= v.frame_rate,
        b < frames ==> v.frame_rate < (b + 1) * 500,
        0 <= frame < frames,
        0 <= ch < v.channels,
        weight * (b + 1) <= 32768 * (frame + 1) < (weight + 1) * (b + 1),
    ensures
        ({
            let i = frame * v.channels + ch;
            let came = sample_at(v.scratch, i);
            let is = sample_at(v.after_good().history, i);
            let mix = came * (frame + 1) + v.tail[i] * (b - frame);
            &&& v.after_good().history.len() == v.period_bytes
            &&& frame >= b ==> is == came
            &&& frame < b ==> 32768 * is <= came * weight + v.tail[i] * (32768 - weight) < 32768 * (
            is + 1)
            &&& frame < b ==> -3 * (b + 1) < is * (b + 1) - mix < 3 * (b + 1)
        }),
{
    lemma_place(v, frames, frame, ch);
    let c = v.channels;
    let i = frame * c + ch;
    assert(b == v.blend_frames());
    assert(frame < b ==> i < b * c) by {
        if frame < b {
            lemma_frame_inside(c, b, frame);
        }
    }
    assert(frame >= b ==> i >= b * c) by (nonlinear_arith)
        requires
            i == frame * c + ch,
            0 <= ch,
            0 < c,
    ;
    if frame < b {
        let w = blend_weight(b, frame);
        assert(w == weight) by {
            let num = 32768 * (frame + 1);
            assert((weight + 1) * (b + 1) == weight * (b + 1) + (b + 1)) by (nonlinear_arith);
            vstd::arithmetic::div_mod::lemma_fundamental_div_mod_converse(
                num,
                b + 1,
                weight,
                num - weight * (b + 1),
            );
        }
        lemma_weight_bounds(b, frame);
        let came = sample_at(v.scratch, i);
        let t = v.tail[i] as int;
        lemma_blend_bounds(came, t, w);
        let is = blended(came, t, w);
        let d = b + 1;
        let num = frame + 1;
        vstd::arithmetic::div_mod::lemma_fundamental_div_mod(num * 32768, d);
        vstd::arithmetic::div_mod::lemma_fundamental_div_mod(came * w + t * (32768 - w), 32768);
        lemma_blend_error(
            came,
            t,
            w,
            is,
            num,
            d,
            (num * 32768) % d,
            (came * w + t * (32768 - w)) % 32768,
        );
        assert(v.after_good().history[2 * i] == (is % 256) as u8);
        assert(v.after_good().history[2 * i + 1] == ((is / 256) % 256) as u8);
    }
}

proof fn lemma_blend_error(
    came: int,
    t: int,
    w: int,
    is: int,
    num: int,
    d: int,
    r: int,
    q: int,
)
    requires
        -32768 <= came <= 32767,
        -32768 <= t <= 32767,
        0 < d,
        num * 32768 == d * w + r,
        0 <= r < d,
        came * w + t * (32768 - w) == 32768 * is + q,
        0 <= q < 32768,
    ensures
        -3 * d < is * d - (came * num + t * (d - num)) < 3 * d,
{
    let e = came - t;
    // 32768 * (is * d - mix) == - e * r - q * d
    assert(came * w + t * (32768 - w) == e * w + 32768 * t) by (nonlinear_arith)
        requires
            e == came - t,
    ;
    assert(32768 * (is * d) == (e * w) * d + 32768 * (t * d) - q * d) by (nonlinear_arith)
        requires
            e * w + 32768 * t == 32768 * is + q,
    ;
    assert(came * num + t * (d - num) == e * num + t * d) by (nonlinear_arith)
        requires
            e == came - t,
    ;
    assert(32768 * (e * num) == e * (d * w) + e * r) by (nonlinear_arith)
        requires
            num * 32768 == d * w + r,
    ;
    assert((e * w) * d == e * (d * w)) by (nonlinear_arith);
    assert(-65536 * d < e * r < 65536 * d) by (nonlinear_arith)
        requires
            -65535 <= e <= 65535,
            0 <= r < d,
    ;
    assert(0 <= q * d < 32768 * d) by (nonlinear_arith)
        requires
            0 <= q < 32768,
            0 < d,
    ;
}

/// A pitch is sought between 2 and 20 milliseconds, as far as half a period reaches, and at one
/// frame at least.
pub proof fn law_a_pitch_is_an_audible_one(frame_rate: int, frames: int)
    requires
        0 < frame_rate,
        0 <= frames,
    ensures
        ({
            let (lo, hi) = lag_bounds(frame_rate, frames);
            &&& 1 <= lo
            &&& lo > 1 ==> lo * 500 <= frame_rate
            &&& frame_rate < (lo + 1) * 500
            &&& 2 * hi <= frames && hi * 50 <= frame_rate
            &&& 2 * (hi + 1) > frames || (hi + 1) * 50 > frame_rate
        }),
{
}

/// A frame's channels are summed one by one, each once.
pub proof fn law_channels_are_summed(pcm: Seq<u8>, channels: int, frame: int, n: int)
    requires
        0 <= n,
    ensures
        channel_sum(pcm, channels, frame, 0) == 0,
        channel_sum(pcm, channels, frame, n + 1) == channel_sum(pcm, channels, frame, n)
            + sample_at(pcm, frame * channels + n),
{
}

/// What a period is does not change with what is in it. A reset forgets the concealed tail; a good
/// period leaves it, and leaves the old history to be written over.
pub proof fn law_a_period_stays_what_it_is(v: ConcealerView, lag: int, i: int)
    requires
        v.wf(),
        0 <= i < v.tail.len(),
    ensures
        v.after_reset().tail.len() == v.tail.len() && v.after_reset().tail[i] == 0,
        v.after_reset().history == v.history && v.after_reset().scratch == v.scratch,
        v.after_good().tail == v.tail && v.after_good().scratch == v.history,
        v.after_reset().channels == v.channels && v.after_good().channels == v.channels
            && v.after_conceal(lag).channels == v.channels,
        v.after_reset().frame_rate == v.frame_rate && v.after_good().frame_rate == v.frame_rate
            && v.after_conceal(lag).frame_rate == v.frame_rate,
        v.after_reset().period_bytes == v.period_bytes && v.after_good().period_bytes
            == v.period_bytes && v.after_conceal(lag).period_bytes == v.period_bytes,
        v.after_conceal(lag).have_history == v.have_history,
        v.after_conceal(lag).tail.len() == v.tail.len(),
{
}

} // verus!
