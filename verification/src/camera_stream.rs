//! A camera's stream: how it is opened, and how its frames reach the guest's buffers.
//!
//! The camera itself is used by the stream's own thread. What that thread does next, and what
//! becomes of the outcome, is decided here.
use crate::camera;
use crate::camera::CameraInfo;
use crate::camera::Facts;
use crate::camera::HostCamera;
use crate::camera::NoCamera;
use crate::camera_control;
use crate::camera_control::Applied;
use crate::camera_control::CameraControl;
use crate::camera_control::Geometry;
use crate::camera_control::RequestUpdate;
use crate::camera_control::Setting;
use crate::codec;
use crate::errno;
use vstd::prelude::*;

verus! {

/// The fewest images a reader may hold: one is being copied, and the newest can be told only with
/// two to spare.
pub const MIN_READER_DEPTH: u32 = 3;

/// The most.
pub const MAX_READER_DEPTH: u32 = 8;

/// How long one wait for a frame is.
pub const FRAME_WAIT_NS: u64 = 50_000_000;

/// How long opening a camera may take.
pub const OPEN_TIMEOUT_MS: u64 = 10_000;

/// Why a camera cannot be used.
#[derive(Clone, Copy, Debug, PartialEq, Eq, Structural)]
pub enum CameraError {
    /// The platform's own number.
    Ndk(i32),
    NoSuchCamera,
    BadCameraId,
    UnsupportedSize,
    LibraryLoad,
    MissingSymbol,
    Other,
}

/// What the guest is told of a camera that would not open.
pub open spec fn errno_of(e: CameraError) -> i32 {
    match e {
        CameraError::Ndk(code) => if code == -10010 || code == -10011 {
            errno::EBUSY
        } else if code == -10012 || code == -10013 {
            errno::EACCES
        } else if code == -10002 {
            errno::ENODEV
        } else {
            errno::EIO
        },
        CameraError::NoSuchCamera => errno::ENODEV,
        CameraError::BadCameraId => errno::ENODEV,
        CameraError::UnsupportedSize => errno::EINVAL,
        CameraError::LibraryLoad => errno::ENOSYS,
        CameraError::MissingSymbol => errno::ENOSYS,
        CameraError::Other => errno::EIO,
    }
}

/// What the guest is told of a camera that would not open.
pub fn errno_for(e: CameraError) -> (n: i32)
    ensures
        n == errno_of(e),
{
    match e {
        CameraError::Ndk(code) => if code == -10010 || code == -10011 {
            errno::EBUSY
        } else if code == -10012 || code == -10013 {
            errno::EACCES
        } else if code == -10002 {
            errno::ENODEV
        } else {
            errno::EIO
        },
        CameraError::NoSuchCamera | CameraError::BadCameraId => errno::ENODEV,
        CameraError::UnsupportedSize => errno::EINVAL,
        CameraError::LibraryLoad | CameraError::MissingSymbol => errno::ENOSYS,
        CameraError::Other => errno::EIO,
    }
}

/// What the guest asks of a stream.
pub struct StreamRequest {
    pub width: u32,
    pub height: u32,
    pub fps: (u32, u32),
    /// How many buffers it has.
    pub buffers: u32,
    /// Every control at its present value.
    pub controls: Vec<CameraControl>,
}

/// What a stream is opened with.
pub struct Opening {
    pub depth: i32,
    pub geometry: Geometry,
    /// What the first request holds, and what to trigger once the camera is open.
    pub update: RequestUpdate,
    pub applied: Applied,
}

impl Opening {
    /// Whether this is what a stream is opened with.
    pub open spec fn asks(&self, facts: Facts, request: StreamRequest, scale: u32) -> bool {
        let u = camera_control::update_of(
            facts,
            self.geometry,
            first_applied(),
            request.controls@,
        );
        &&& self.depth == depth_for(request.buffers as int)
        &&& self.geometry == (Geometry {
            active_array: facts.active_array,
            width: request.width,
            height: request.height,
            scale,
        })
        &&& self.update.shows(
            u.with(Setting::FpsRange(request.fps.0 as i32, request.fps.1 as i32)),
        )
        &&& self.applied == (Applied { fps_min: request.fps.0, ..u.applied })
    }
}

/// What came of opening a camera on its thread.
#[derive(Clone, Copy, Debug, PartialEq, Eq, Structural)]
pub enum OpenOutcome {
    Opened,
    Failed(CameraError),
    /// The thread is gone without a word.
    Died,
    TimedOut,
    /// There is no thread.
    NoThread,
}

/// What the guest is told, and whether the thread is waited for. One that has not answered in
/// time is not.
#[derive(Clone, Copy, Debug, PartialEq, Eq, Structural)]
pub struct OpenFailure {
    pub errno: i32,
    pub join: bool,
}

/// What comes of opening a camera.
pub open spec fn opened_as(outcome: OpenOutcome) -> Result<(), OpenFailure> {
    match outcome {
        OpenOutcome::Opened => Ok(()),
        OpenOutcome::Failed(e) => Err(OpenFailure { errno: errno_of(e), join: true }),
        OpenOutcome::Died => Err(OpenFailure { errno: errno::EIO, join: true }),
        OpenOutcome::TimedOut => Err(OpenFailure { errno: errno::ETIMEDOUT, join: false }),
        OpenOutcome::NoThread => Err(OpenFailure { errno: errno::EAGAIN, join: false }),
    }
}

/// Whether controls go to a stream after that, given whether they did before.
pub open spec fn streams_after(outcome: OpenOutcome, streaming: bool) -> bool {
    match outcome {
        OpenOutcome::Opened => streaming,
        OpenOutcome::NoThread => streaming,
        _ => false,
    }
}

/// A depth that serves `buffers` buffers.
pub open spec fn depth_for(buffers: int) -> int {
    codec::min_int(codec::max_int(buffers, MIN_READER_DEPTH as int), MAX_READER_DEPTH as int)
}

/// A host camera.
pub struct AndroidCameraBackend {
    info: CameraInfo,
    facts: Facts,
    /// Whether controls go to a stream.
    streaming: bool,
}

impl AndroidCameraBackend {
    pub closed spec fn info_view(&self) -> CameraInfo {
        self.info
    }

    pub closed spec fn facts_view(&self) -> Facts {
        self.facts
    }

    pub closed spec fn is_streaming(&self) -> bool {
        self.streaming
    }

    /// The camera that is meant, described.
    pub fn new(cameras: &Vec<HostCamera>, camera_id: Option<&str>) -> (r: Result<Self, NoCamera>)
        ensures
            match camera::chosen_camera(
                cameras@,
                match camera_id {
                    Some(id) => Some(id@),
                    None => None,
                },
            ) {
                Ok(i) => {
                    let sizes = camera::sizes_of(cameras@[i], cameras@[i].yuv_sizes@.len() as int);
                    match r {
                        Ok(b) => {
                            &&& sizes.len() > 0
                            &&& camera::info_of(b.info_view(), cameras@[i])
                            &&& camera::facts_of(b.facts_view(), cameras@[i])
                            &&& !b.is_streaming()
                        },
                        Err(e) => sizes.len() == 0 && e == NoCamera::NoSize,
                    }
                },
                Err(e) => r is Err && r->Err_0 == e,
            },
    {
        match camera::choose_camera(cameras, camera_id) {
            Ok(i) => {
                let (info, facts) = camera::describe(&cameras[i]);
                if info.sizes.len() == 0 {
                    Err(NoCamera::NoSize)
                } else {
                    Ok(AndroidCameraBackend { info, facts, streaming: false })
                }
            },
            Err(e) => Err(e),
        }
    }

    /// What the guest sees.
    pub fn info(&self) -> (info: &CameraInfo)
        ensures
            *info == self.info_view(),
    {
        &self.info
    }

    /// What is known beside it.
    pub fn facts(&self) -> (facts: &Facts)
        ensures
            *facts == self.facts_view(),
    {
        &self.facts
    }

    /// Begins to open a stream. Every control and the frame rate are in the first request, so
    /// that the first frame is taken with them. `scale` is what the guest's regions are fractions
    /// of.
    pub fn open_stream(&mut self, request: &StreamRequest, scale: u32) -> (o: Opening)
        requires
            0 < scale,
        ensures
            final(self).is_streaming(),
            final(self).info_view() == old(self).info_view(),
            final(self).facts_view() == old(self).facts_view(),
            o.asks(old(self).facts_view(), *request, scale),
    {
        let geometry = Geometry {
            active_array: self.facts.active_array,
            width: request.width,
            height: request.height,
            scale,
        };
        let depth: i32 = if request.buffers < MIN_READER_DEPTH {
            MIN_READER_DEPTH as i32
        } else if request.buffers > MAX_READER_DEPTH {
            MAX_READER_DEPTH as i32
        } else {
            request.buffers as i32
        };
        let mut applied = Applied::new();
        let mut update = camera_control::build_update(
            &self.facts,
            &geometry,
            &mut applied,
            &request.controls,
        );
        update.put(Setting::FpsRange(request.fps.0 as i32, request.fps.1 as i32));
        applied.fps_min = request.fps.0;
        self.streaming = true;
        Opening { depth, geometry, update, applied }
    }

    /// Takes what came of opening the camera.
    pub fn on_opened(&mut self, outcome: OpenOutcome) -> (r: Result<(), OpenFailure>)
        ensures
            final(self).info_view() == old(self).info_view(),
            final(self).facts_view() == old(self).facts_view(),
            final(self).is_streaming() == streams_after(outcome, old(self).is_streaming()),
            r == opened_as(outcome),
    {
        match outcome {
            OpenOutcome::Opened => Ok(()),
            OpenOutcome::Failed(e) => {
                self.streaming = false;
                Err(OpenFailure { errno: errno_for(e), join: true })
            },
            OpenOutcome::Died => {
                self.streaming = false;
                Err(OpenFailure { errno: errno::EIO, join: true })
            },
            OpenOutcome::TimedOut => {
                self.streaming = false;
                Err(OpenFailure { errno: errno::ETIMEDOUT, join: false })
            },
            OpenOutcome::NoThread => Err(OpenFailure { errno: errno::EAGAIN, join: false }),
        }
    }

    /// Whether controls are to be sent to a stream. Where there is none, the next one is opened
    /// with them; either way setting them succeeds.
    pub fn set_controls(&self) -> (send: bool)
        ensures
            send == self.is_streaming(),
    {
        self.streaming
    }
}

/// What a camera starts with.
pub open spec fn first_applied() -> Applied {
    Applied {
        exposure: camera_control::ExposureMode::Auto,
        iso: camera_control::IsoMode::Auto,
        exposure_time: 333,
        iso_value: 100,
        flash: camera_control::FlashLed::Off,
        fps_min: 0,
    }
}

/// A buffer that the guest lends.
#[derive(Clone, Copy, Debug, PartialEq, Eq, Structural)]
pub struct EmptyBuffer {
    pub index: u32,
    pub len: usize,
    pub stride: u32,
}

/// A buffer that holds a frame.
#[derive(Clone, Copy, Debug, PartialEq, Eq, Structural)]
pub struct FilledBuffer {
    pub index: u32,
    pub bytesused: u32,
    pub timestamp_ns: i64,
    pub sequence: u32,
}

/// What the device asks of a stream.
pub enum Command {
    Lend(EmptyBuffer),
    Controls(Vec<CameraControl>),
    Stop,
}

/// What a command takes.
pub enum Step {
    /// Nothing.
    Done,
    /// One submission of a request, and its triggers. Where it is refused, the stream goes on as
    /// it was.
    Apply(RequestUpdate),
    /// The stream ends.
    Finish,
}

/// A stream as a value.
pub struct StreamView {
    pub empties: Seq<EmptyBuffer>,
    /// The number of the next frame, but for those that are lost.
    pub sequence: u32,
    /// Frames that were let go since the last one that was delivered.
    pub lost: u32,
    /// How long no frame has come.
    pub stalled_ns: int,
    /// How often that was said.
    pub said: int,
    pub applied: Applied,
}

impl StreamView {
    pub open spec fn wf(self) -> bool {
        &&& 0 <= self.stalled_ns <= 20_615_843_016_000_000
        &&& 0 <= self.said <= u32::MAX
    }

    /// A buffer was lent.
    pub open spec fn lent(self, buffer: EmptyBuffer) -> Self {
        StreamView { empties: self.empties.push(buffer), ..self }
    }

    /// A frame came, and takes the first buffer.
    pub open spec fn came(self) -> Self {
        StreamView { empties: self.empties.drop_first(), stalled_ns: 0, said: 0, ..self }
    }

    /// How long no frame has come, at the end of another wait.
    pub open spec fn stalled(self) -> int {
        self.stalled_ns + FRAME_WAIT_NS
    }

    /// Whether that is worth a word.
    pub open spec fn is_stall(self) -> bool {
        self.stalled() >= self.applied.stall_ns(self.said)
    }

    /// No frame came in one wait.
    pub open spec fn waited(self) -> Self {
        if self.is_stall() {
            StreamView {
                stalled_ns: 0,
                said: codec::min_int(self.said + 1, u32::MAX as int),
                ..self
            }
        } else {
            StreamView { stalled_ns: self.stalled(), ..self }
        }
    }

    /// A frame was let go: there was no buffer for it.
    pub open spec fn let_go(self) -> Self {
        StreamView {
            lost: if self.lost == u32::MAX {
                u32::MAX
            } else {
                (self.lost + 1) as u32
            },
            ..self
        }
    }

    /// The number of the next frame.
    pub open spec fn next_sequence(self) -> u32 {
        ((self.sequence + self.lost) % 0x1_0000_0000) as u32
    }

    /// What the guest is given of a frame.
    pub open spec fn filling(
        self,
        buffer: EmptyBuffer,
        bytesused: u32,
        timestamp_ns: i64,
    ) -> FilledBuffer {
        FilledBuffer {
            index: buffer.index,
            bytesused,
            timestamp_ns,
            sequence: self.next_sequence(),
        }
    }

    /// A frame was delivered.
    pub open spec fn delivered(self) -> Self {
        StreamView {
            sequence: ((self.next_sequence() + 1) % 0x1_0000_0000) as u32,
            lost: 0,
            ..self
        }
    }
}

/// The frames of an open stream.
pub struct AndroidCameraStream {
    empties: Vec<EmptyBuffer>,
    sequence: u32,
    lost: u32,
    stalled_ns: u64,
    said: u32,
    applied: Applied,
}

impl View for AndroidCameraStream {
    type V = StreamView;

    closed spec fn view(&self) -> StreamView {
        StreamView {
            empties: self.empties@,
            sequence: self.sequence,
            lost: self.lost,
            stalled_ns: self.stalled_ns as int,
            said: self.said as int,
            applied: self.applied,
        }
    }
}

impl AndroidCameraStream {
    /// A stream with no buffers, with what it was opened with applied.
    pub fn new(applied: Applied) -> (c: Self)
        ensures
            c@.wf(),
            c@ == (StreamView {
                empties: Seq::empty(),
                sequence: 0,
                lost: 0,
                stalled_ns: 0,
                said: 0,
                applied,
            }),
    {
        AndroidCameraStream { empties: Vec::new(), sequence: 0, lost: 0, stalled_ns: 0, said: 0, applied }
    }

    /// Takes a command.
    pub fn on_command(&mut self, command: Command, facts: &Facts, geometry: &Geometry) -> (step:
        Step)
        requires
            old(self)@.wf(),
            0 < geometry.scale,
        ensures
            final(self)@.wf(),
            match command {
                Command::Lend(buffer) => {
                    &&& step is Done
                    &&& final(self)@ == old(self)@.lent(buffer)
                },
                Command::Controls(controls) => {
                    let u = camera_control::update_of(
                        *facts,
                        *geometry,
                        old(self)@.applied,
                        controls@,
                    );
                    &&& step matches Step::Apply(update) && update.shows(u)
                    &&& final(self)@ == (StreamView { applied: u.applied, ..old(self)@ })
                },
                Command::Stop => step is Finish && final(self)@ == old(self)@,
            },
    {
        match command {
            Command::Lend(buffer) => {
                self.empties.push(buffer);
                Step::Done
            },
            Command::Controls(controls) => {
                let update = camera_control::build_update(
                    facts,
                    geometry,
                    &mut self.applied,
                    &controls,
                );
                Step::Apply(update)
            },
            Command::Stop => Step::Finish,
        }
    }

    /// Whether there is a buffer for a frame. Where there is none, a frame that has come is let
    /// go, since it would be old by the time there is one, and a command is waited for.
    pub fn has_buffer(&self) -> (b: bool)
        ensures
            b == (self@.empties.len() > 0),
    {
        self.empties.len() > 0
    }

    /// Takes that a frame was let go.
    pub fn on_let_go(&mut self)
        requires
            old(self)@.wf(),
        ensures
            final(self)@.wf(),
            final(self)@ == old(self)@.let_go(),
    {
        if self.lost < u32::MAX {
            self.lost = self.lost + 1;
        }
    }

    /// Takes that no frame came in one wait. Returns whether that is worth a word, and how long
    /// none has come.
    pub fn on_no_frame(&mut self) -> (r: (bool, u64))
        requires
            old(self)@.wf(),
        ensures
            final(self)@.wf(),
            r == (old(self)@.is_stall(), old(self)@.stalled() as u64),
            final(self)@ == old(self)@.waited(),
    {
        let stalled: u64 = self.stalled_ns + FRAME_WAIT_NS;
        if stalled >= self.applied.stall_report(self.said) {
            self.stalled_ns = 0;
            if self.said < u32::MAX {
                self.said = self.said + 1;
            }
            (true, stalled)
        } else {
            self.stalled_ns = stalled;
            (false, stalled)
        }
    }

    /// Takes that a frame came. Returns the buffer it is copied to: the one that was lent first.
    pub fn on_frame(&mut self) -> (buffer: EmptyBuffer)
        requires
            old(self)@.wf(),
            old(self)@.empties.len() > 0,
        ensures
            final(self)@.wf(),
            buffer == old(self)@.empties[0],
            final(self)@ == old(self)@.came(),
    {
        self.stalled_ns = 0;
        self.said = 0;
        let buffer = self.empties.remove(0);
        assert(self.empties@ =~= old(self)@.empties.drop_first());
        buffer
    }

    /// Takes that the frame was copied. Returns what the guest is given. The frames that were let
    /// go are counted in its number.
    pub fn on_copied(&mut self, buffer: EmptyBuffer, bytesused: u32, timestamp_ns: i64) -> (filled:
        FilledBuffer)
        requires
            old(self)@.wf(),
        ensures
            final(self)@.wf(),
            filled == old(self)@.filling(buffer, bytesused, timestamp_ns),
            final(self)@ == old(self)@.delivered(),
    {
        let sequence: u32 = ((self.sequence as u64 + self.lost as u64) % 0x1_0000_0000) as u32;
        self.lost = 0;
        self.sequence = ((sequence as u64 + 1) % 0x1_0000_0000) as u32;
        FilledBuffer { index: buffer.index, bytesused, timestamp_ns, sequence }
    }

    /// How many frames were delivered and lost so far, to 2 to the power of 32.
    pub fn sequence(&self) -> (n: u32)
        ensures
            n == self@.sequence,
    {
        self.sequence
    }
}

/// After `n` frames were let go.
pub open spec fn let_go_times(v: StreamView, n: nat) -> StreamView
    decreases n,
{
    if n == 0 {
        v
    } else {
        let_go_times(v, (n - 1) as nat).let_go()
    }
}

proof fn lemma_let_go(v: StreamView, n: nat)
    requires
        v.lost + n <= u32::MAX,
    ensures
        let_go_times(v, n).lost == v.lost + n,
        let_go_times(v, n).sequence == v.sequence,
    decreases n,
{
    if n > 0 {
        lemma_let_go(v, (n - 1) as nat);
    }
}

/// Between two delivered frames the number jumps by one more than there were frames lost.
pub proof fn law_a_jump_tells_what_was_lost(v: StreamView, n: nat)
    requires
        n <= u32::MAX,
    ensures
        let_go_times(v.delivered(), n).next_sequence() == (v.next_sequence() + 1 + n)
            % 0x1_0000_0000,
{
    let d = v.delivered();
    lemma_let_go(d, n);
    vstd::arithmetic::div_mod::lemma_add_mod_noop(
        v.next_sequence() + 1,
        n as int,
        0x1_0000_0000,
    );
    vstd::arithmetic::div_mod::lemma_add_mod_noop(
        d.sequence as int,
        n as int,
        0x1_0000_0000,
    );
}

/// A reader can always tell the newest image and still copy one.
pub proof fn law_a_reader_has_images_to_spare(buffers: int)
    ensures
        depth_for(buffers) >= 3,
        depth_for(buffers) <= 8,
        3 <= buffers <= 8 ==> depth_for(buffers) == buffers,
{
}

/// The guest is told of each trouble by the number that stands for it: busy, not allowed, no such
/// camera, a size that cannot be had, or no camera library at all. All else is a failed transfer.
pub proof fn law_each_trouble_has_its_number(e: CameraError)
    ensures
        errno_of(e) == 16 <==> e == CameraError::Ndk(-10010 as i32) || e == CameraError::Ndk(
            -10011 as i32,
        ),
        errno_of(e) == 13 <==> e == CameraError::Ndk(-10012 as i32) || e == CameraError::Ndk(
            -10013 as i32,
        ),
        errno_of(e) == 19 <==> e is NoSuchCamera || e is BadCameraId || e == CameraError::Ndk(
            -10002 as i32,
        ),
        errno_of(e) == 22 <==> e is UnsupportedSize,
        errno_of(e) == 38 <==> e is LibraryLoad || e is MissingSymbol,
        errno_of(e) == 5 || errno_of(e) == 13 || errno_of(e) == 16 || errno_of(e) == 19 || errno_of(
            e,
        ) == 22 || errno_of(e) == 38,
{
}

/// Too few buffers, and too many, are served by the nearest depth there is.
pub proof fn law_a_depth_is_the_nearest(buffers: int, other: int)
    requires
        3 <= other <= 8,
    ensures
        buffers <= depth_for(buffers) ==> depth_for(buffers) - buffers <= (if other >= buffers {
            other - buffers
        } else {
            buffers - other
        }),
        depth_for(buffers) <= buffers ==> buffers - depth_for(buffers) <= (if other >= buffers {
            other - buffers
        } else {
            buffers - other
        }),
        3 <= depth_for(buffers) <= 8,
{
}

/// A frame that is let go is counted, up to the most that can be counted, and costs no buffer. A
/// frame that is delivered clears that count, takes the number after it, and costs none either:
/// its buffer was taken when it came.
pub proof fn law_only_the_counts_change(v: StreamView)
    ensures
        v.lost < u32::MAX ==> v.let_go().lost == v.lost + 1,
        v.lost == u32::MAX ==> v.let_go() == v,
        v.let_go().sequence == v.sequence,
        v.delivered().lost == 0,
        v.delivered().sequence == v.delivered().next_sequence(),
        v.sequence + v.lost < u32::MAX ==> v.delivered().sequence == v.sequence + v.lost + 1,
        v.sequence + v.lost == u32::MAX ==> v.delivered().sequence == 0,
        v.sequence + v.lost > u32::MAX ==> v.delivered().sequence == v.sequence + v.lost
            - u32::MAX,
        v.let_go().empties == v.empties && v.delivered().empties == v.empties,
        v.let_go().stalled_ns == v.stalled_ns && v.delivered().stalled_ns == v.stalled_ns,
        v.let_go().said == v.said && v.delivered().said == v.said,
        v.let_go().applied == v.applied && v.delivered().applied == v.applied,
{
}

/// A camera starts with everything left to itself, and in the dark.
pub proof fn law_a_camera_starts_by_itself()
    ensures
        first_applied().exposure is Auto,
        first_applied().iso is Auto,
        first_applied().flash is Off,
        first_applied().exposure_time == 333,
        first_applied().iso_value == 100,
        first_applied().fps_min == 0,
{
}

/// A camera that opened is no failure, and one that did not is told by its number. Its thread is
/// waited for exactly where it has answered or is gone; one that is late, or was never there, is not.
/// Where no camera was had, controls go to no stream.
pub proof fn law_a_late_thread_is_not_waited_for(outcome: OpenOutcome, streaming: bool)
    ensures
        opened_as(outcome) is Ok <==> outcome is Opened,
        opened_as(outcome) matches Err(f) ==> (f.join <==> outcome is Failed || outcome is Died),
        outcome matches OpenOutcome::Failed(e) ==> (opened_as(outcome) matches Err(f) && f.errno
            == errno_of(e)),
        outcome is Died ==> (opened_as(outcome) matches Err(f) && f.errno == 5),
        outcome is TimedOut ==> (opened_as(outcome) matches Err(f) && f.errno == 110),
        outcome is NoThread ==> (opened_as(outcome) matches Err(f) && f.errno == 11),
        outcome is Failed || outcome is Died || outcome is TimedOut ==> !streams_after(
            outcome,
            streaming,
        ),
        outcome is Opened || outcome is NoThread ==> streams_after(outcome, streaming) == streaming,
{
}

/// Buffers are filled in the order in which they were lent, whatever comes between, and none is lost:
/// the one that is lent now is filled after all that were lent before it.
pub proof fn law_buffers_are_filled_in_turn(v: StreamView, buffer: EmptyBuffer, i: int)
    requires
        0 <= i < v.empties.len(),
    ensures
        v.lent(buffer).empties[i] == v.empties[i],
        v.lent(buffer).empties.last() == buffer,
        v.lent(buffer).empties.len() == v.empties.len() + 1,
        v.came().empties.len() == v.empties.len() - 1,
        i > 0 ==> v.came().empties[i - 1] == v.empties[i],
        v.lent(buffer).came().empties == v.came().lent(buffer).empties,
        v.waited().empties == v.empties,
        v.lent(buffer).sequence == v.sequence && v.lent(buffer).lost == v.lost && v.lent(
            buffer,
        ).stalled_ns == v.stalled_ns && v.lent(buffer).said == v.said && v.lent(buffer).applied
            == v.applied,
        v.came().sequence == v.sequence && v.came().lost == v.lost && v.came().applied == v.applied,
        v.waited().sequence == v.sequence && v.waited().lost == v.lost && v.waited().applied
            == v.applied,
{
    assert(v.lent(buffer).came().empties =~= v.came().lent(buffer).empties);
}

/// A stall is 50 milliseconds longer with every wait in vain, until it is worth a word: then it is
/// counted anew, and the next word is later or no sooner. A frame ends it.
pub proof fn law_a_stall_grows_until_it_is_told(v: StreamView)
    requires
        v.wf(),
    ensures
        v.stalled() == v.stalled_ns + 50_000_000,
        v.is_stall() <==> v.stalled_ns + 50_000_000 >= v.applied.stall_ns(v.said),
        !v.is_stall() ==> v.waited().stalled_ns == v.stalled_ns + 50_000_000 && v.waited().said
            == v.said,
        v.is_stall() ==> v.waited().stalled_ns == 0,
        v.is_stall() && v.said < u32::MAX ==> v.waited().said == v.said + 1,
        v.is_stall() && v.said == u32::MAX ==> v.waited().said == v.said,
        v.came().stalled_ns == 0 && v.came().said == 0,
{
}

/// A stream is opened at the size and rate that were asked for, with every control in its first
/// request, and the slowest rate is kept for telling a stall.
pub proof fn law_a_stream_is_opened_as_asked(
    o: Opening,
    facts: Facts,
    request: StreamRequest,
    scale: u32,
)
    requires
        o.asks(facts, request, scale),
    ensures
        3 <= o.depth <= 8,
        3 <= request.buffers <= 8 ==> o.depth == request.buffers,
        o.geometry.width == request.width && o.geometry.height == request.height
            && o.geometry.scale == scale && o.geometry.active_array == facts.active_array,
        o.applied.fps_min == request.fps.0,
        ({
            let u = camera_control::update_of(
                facts,
                o.geometry,
                first_applied(),
                request.controls@,
            );
            &&& o.update.shows(
                u.with(Setting::FpsRange(request.fps.0 as i32, request.fps.1 as i32)),
            )
            &&& o.applied.exposure == u.applied.exposure && o.applied.iso == u.applied.iso
                && o.applied.exposure_time == u.applied.exposure_time && o.applied.iso_value
                == u.applied.iso_value && o.applied.flash == u.applied.flash
        }),
{
}

/// A frame is given in the buffer that it was copied to, with its bytes, its time and its number; the
/// next one has a number that is higher by one, but for those that are lost between.
pub proof fn law_a_frame_is_given_in_its_buffer(
    v: StreamView,
    buffer: EmptyBuffer,
    bytesused: u32,
    timestamp_ns: i64,
)
    ensures
        ({
            let f = v.filling(buffer, bytesused, timestamp_ns);
            let g = v.delivered().filling(buffer, bytesused, timestamp_ns);
            &&& f.index == buffer.index
            &&& f.bytesused == bytesused
            &&& f.timestamp_ns == timestamp_ns
            &&& v.sequence + v.lost <= u32::MAX ==> f.sequence == v.sequence + v.lost
            &&& f.sequence < u32::MAX ==> g.sequence == f.sequence + 1
        }),
{
}

} // verus!
