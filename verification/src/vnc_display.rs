//! The screen that remote viewers see, and the input that they send.
use crate::codec;
use crate::text;
use std::collections::BTreeMap;
use vstd::prelude::*;

verus! {

/// The largest coordinate of the guest's pointer and touch devices, whatever the screen's size.
pub const VNC_ABS_MAX: i32 = 0x7FFF;

/// The port where none is given.
pub const DEFAULT_PORT: i32 = 5900;

/// A key was pressed or let go.
pub const VNC_INPUT_KEY: u8 = 1;

/// The pointer moved, or a button of it.
pub const VNC_INPUT_POINTER: u8 = 2;

/// The number of a finger that was lifted.
pub const NO_TRACKING_ID: i32 = -1;

/// A turn of the wheel towards the user.
pub const WHEEL_DOWN: i32 = -1;

/// The side of the guest's cursor image.
pub const CURSOR_SIDE: u32 = 64;

/// A coordinate of the screen, whose extent is `extent`, on the scale of the guest's devices.
pub open spec fn norm_abs(v: int, extent: int) -> int {
    codec::min_int(
        codec::max_int(v, 0) * VNC_ABS_MAX / codec::max_int(extent, 1),
        VNC_ABS_MAX as int,
    )
}

/// A coordinate on the scale of the guest's devices.
pub fn vnc_norm_abs(v: i32, extent: u32) -> (r: i32)
    ensures
        r == norm_abs(v as int, extent as int),
{
    let e: i64 = if extent < 1 {
        1
    } else {
        extent as i64
    };
    let x: i64 = if v < 0 {
        0
    } else {
        v as i64
    };
    assert(0 <= x * 0x7FFF / e as int) by (nonlinear_arith)
        requires
            0 <= x,
            1 <= e,
    ;
    let scaled: i64 = x * 0x7FFF / e;
    if scaled > 0x7FFF {
        0x7FFF
    } else {
        scaled as i32
    }
}

/// Coordinates keep their order on the guest's scale, begin at its begin and stay on it. The far
/// edge of the screen is the far edge of the scale, at any size.
pub proof fn law_the_pointer_stays_on_the_scale(a: int, b: int, extent: int)
    requires
        a <= b,
        extent >= 0,
    ensures
        0 <= norm_abs(a, extent) <= norm_abs(b, extent) <= VNC_ABS_MAX,
        a <= 0 ==> norm_abs(a, extent) == 0,
        b >= extent && b >= 1 ==> norm_abs(b, extent) == VNC_ABS_MAX,
{
    let e = codec::max_int(extent, 1);
    let x = codec::max_int(a, 0);
    let y = codec::max_int(b, 0);
    assert(0 <= x * 0x7FFF / e && x * 0x7FFF / e <= y * 0x7FFF / e) by {
        assert(0 <= x * 0x7FFF <= y * 0x7FFF);
        vstd::arithmetic::div_mod::lemma_div_is_ordered(0, x * 0x7FFF, e);
        vstd::arithmetic::div_mod::lemma_div_is_ordered(x * 0x7FFF, y * 0x7FFF, e);
    }
    assert(0int / e == 0) by (nonlinear_arith)
        requires
            e >= 1,
    ;
    if y >= e {
        assert(y * 0x7FFF / e >= 0x7FFF) by (nonlinear_arith)
            requires
                y >= e,
                e >= 1,
        ;
    }
}

/// Whether a byte is a digit.
pub open spec fn is_digit(b: u8) -> bool {
    48 <= b <= 57
}

/// The number that digits write; `None` where one of them is none.
pub open spec fn number_of(s: Seq<u8>) -> Option<int>
    decreases s.len(),
{
    if s.len() == 0 {
        Some(0)
    } else {
        match number_of(s.drop_last()) {
            Some(n) => if is_digit(s.last()) {
                Some(10 * n + (s.last() - 48))
            } else {
                None
            },
            None => None,
        }
    }
}

/// The signed number that a text writes in full, where it fits.
pub open spec fn i32_of(s: Seq<u8>) -> Option<int> {
    let (negative, digits) = if s.len() > 0 && (s[0] == 45 || s[0] == 43) {
        (s[0] == 45, s.drop_first())
    } else {
        (false, s)
    };
    if digits.len() == 0 {
        None
    } else {
        match number_of(digits) {
            Some(n) => if negative && n <= 0x8000_0000 {
                Some(-n)
            } else if !negative && n <= 0x7fff_ffff {
                Some(n)
            } else {
                None
            },
            None => None,
        }
    }
}

/// What stands behind the last colon, or all where there is none.
pub open spec fn behind_colon(s: Seq<u8>) -> Seq<u8>
    decreases s.len(),
{
    if s.len() == 0 || s.last() == 58 {
        Seq::empty()
    } else {
        behind_colon(s.drop_last()).push(s.last())
    }
}

/// The port of an address: what stands behind its last colon, or the usual one where that is no
/// number.
pub open spec fn port_of(addr: Seq<char>) -> int {
    match i32_of(behind_colon(text::utf8(addr))) {
        Some(n) => n,
        None => DEFAULT_PORT as int,
    }
}

/// The bytes from the last colon on are those behind it.
proof fn lemma_behind_colon(s: Seq<u8>, at: int)
    requires
        0 <= at <= s.len(),
        forall|i: int| at <= i < s.len() ==> s[i] != 58,
        at == 0 || s[at - 1] == 58,
    ensures
        behind_colon(s) == s.skip(at),
    decreases s.len(),
{
    if s.len() == 0 || s.last() == 58 {
        assert(s.skip(at) =~= Seq::empty());
    } else {
        lemma_behind_colon(s.drop_last(), at);
        assert(s.skip(at) =~= s.drop_last().skip(at).push(s.last()));
    }
}

/// A text that has no number in its beginning has none.
proof fn lemma_no_number(s: Seq<u8>, n: int)
    requires
        0 <= n <= s.len(),
        number_of(s.take(n)) is None,
    ensures
        number_of(s) is None,
    decreases s.len() - n,
{
    if n < s.len() {
        assert(s.take(n + 1).drop_last() =~= s.take(n));
        lemma_no_number(s, n + 1);
    } else {
        assert(s.take(n) =~= s);
    }
}

/// More digits make a larger number.
proof fn lemma_number_grows(s: Seq<u8>, n: int)
    requires
        0 <= n <= s.len(),
        number_of(s) is Some,
    ensures
        number_of(s.take(n)) is Some,
        0 <= number_of(s.take(n))->0 <= number_of(s)->0,
    decreases s.len(),
{
    if n < s.len() {
        lemma_number_grows(s.drop_last(), n);
        assert(s.drop_last().take(n) =~= s.take(n));
    } else {
        assert(s.take(n) =~= s);
        if s.len() > 0 {
            lemma_number_grows(s.drop_last(), s.len() - 1);
            assert(s.drop_last().take(s.len() - 1) =~= s.drop_last());
        }
    }
}

/// The number that the bytes from `at` on write; `None` where that is none or more than `max`.
fn number(bytes: &[u8], at: usize, max: u64) -> (r: Option<u64>)
    requires
        at <= bytes@.len(),
        max <= 0x8000_0000,
    ensures
        match r {
            Some(n) => n <= max && number_of(bytes@.skip(at as int)) == Some(n as int),
            None => number_of(bytes@.skip(at as int)) matches Some(n) ==> n > max,
        },
{
    let ghost s = bytes@.skip(at as int);
    let len: usize = bytes.len();
    let mut n: u64 = 0;
    let mut i: usize = at;
    assert(s.take(0) =~= Seq::empty());
    while i < len
        invariant
            at <= i <= len == bytes@.len(),
            s == bytes@.skip(at as int),
            number_of(s.take(i - at)) == Some(n as int),
            n <= max <= 0x8000_0000,
        decreases len - i,
    {
        let b: u8 = bytes[i];
        assert(s.take(i - at + 1).drop_last() =~= s.take(i - at));
        assert(s.take(i - at + 1).last() == b);
        if b < 48 || b > 57 {
            proof {
                lemma_no_number(s, i - at + 1);
            }
            return None;
        }
        n = 10 * n + (b - 48) as u64;
        if n > max {
            proof {
                if number_of(s) is Some {
                    lemma_number_grows(s, i - at + 1);
                }
            }
            return None;
        }
        i = i + 1;
    }
    assert(s.take(i - at) =~= s);
    Some(n)
}

/// The port of an address.
pub fn port(addr: &str) -> (p: i32)
    ensures
        p == port_of(addr@),
{
    let bytes: &[u8] = addr.as_bytes();
    let len: usize = bytes.len();
    let mut at: usize = len;
    while at > 0 && bytes[at - 1] != 58
        invariant
            at <= len == bytes@.len(),
            forall|i: int| at <= i < len ==> bytes@[i] != 58,
        decreases at,
    {
        at = at - 1;
    }
    let ghost tail = bytes@.skip(at as int);
    proof {
        lemma_behind_colon(bytes@, at as int);
    }
    if at == len {
        return DEFAULT_PORT;
    }
    let first: u8 = bytes[at];
    assert(tail[0] == first);
    let signed = first == 45 || first == 43;
    let digits: usize = if signed {
        at + 1
    } else {
        at
    };
    assert(signed ==> bytes@.skip(digits as int) =~= tail.drop_first());
    if digits == len {
        return DEFAULT_PORT;
    }
    let max: u64 = if first == 45 {
        0x8000_0000
    } else {
        0x7fff_ffff
    };
    match number(bytes, digits, max) {
        Some(n) => if first == 45 {
            (0 - n as i64) as i32
        } else {
            n as i32
        },
        None => DEFAULT_PORT,
    }
}

/// What a viewer did.
#[derive(Clone, Copy, Debug, PartialEq, Eq, Structural)]
pub struct VncInputEvent {
    pub event_type: u8,
    pub down: u8,
    pub linux_keycode: u16,
    pub x: i32,
    pub y: i32,
    /// The buttons that are down: left, middle and right, and the wheel up and down.
    pub button_mask: u8,
}

/// What a device of the guest's reports.
#[derive(Clone, Copy, Debug, PartialEq, Eq, Structural)]
pub enum GuestInput {
    AbsoluteX(i32),
    AbsoluteY(i32),
    LeftClick(bool),
    MiddleClick(bool),
    RightClick(bool),
    Wheel(i32),
    Key { code: u16, pressed: bool },
    MultitouchSlot(i32),
    MultitouchTrackingId(i32),
    MultitouchX(i32),
    MultitouchY(i32),
    Touch(bool),
}

/// Which device of the guest's reports.
#[derive(Clone, Copy, Debug, PartialEq, Eq, Structural)]
pub enum EventDeviceKind {
    Keyboard,
    Tablet,
    Touchscreen,
}

/// What a device of the guest's reports at once.
pub struct GuestEvents {
    pub device: EventDeviceKind,
    pub events: Vec<GuestInput>,
}

/// Whether a button is down.
pub open spec fn is_down(mask: u8, button: u8) -> bool {
    mask & button != 0
}

/// A click, where the button changed.
pub open spec fn click(now: u8, before: u8, button: u8, event: GuestInput) -> Seq<GuestInput> {
    if is_down(now, button) != is_down(before, button) {
        seq![event]
    } else {
        Seq::empty()
    }
}

/// A turn of the wheel, where it began.
pub open spec fn turn(now: u8, before: u8, button: u8, by: i32) -> Seq<GuestInput> {
    if is_down(now, button) && !is_down(before, button) {
        seq![GuestInput::Wheel(by)]
    } else {
        Seq::empty()
    }
}

/// The number after.
pub open spec fn next_id(id: i32) -> i32 {
    if id == i32::MAX {
        i32::MIN
    } else {
        (id + 1) as i32
    }
}

/// The number before.
pub open spec fn previous_id(id: i32) -> i32 {
    if id == i32::MIN {
        i32::MAX
    } else {
        (id - 1) as i32
    }
}

/// What a display's input is, as a value.
pub struct InputView {
    pub width: u32,
    pub height: u32,
    /// Whether the pointer is a finger.
    pub touch_input: bool,
    pub queue: Seq<VncInputEvent>,
    /// The number of the next touch.
    pub next_tracking_id: i32,
    pub prev_button_mask: u8,
}

impl InputView {
    /// The pointer as a tablet: where it is, what changed of the buttons, and the wheel.
    pub open spec fn tablet_events(self, e: VncInputEvent) -> Seq<GuestInput> {
        let now = e.button_mask;
        let before = self.prev_button_mask;
        seq![
            GuestInput::AbsoluteX(norm_abs(e.x as int, self.width as int) as i32),
            GuestInput::AbsoluteY(norm_abs(e.y as int, self.height as int) as i32),
        ] + click(now, before, 1, GuestInput::LeftClick(is_down(now, 1))) + click(
            now,
            before,
            2,
            GuestInput::MiddleClick(is_down(now, 2)),
        ) + click(now, before, 4, GuestInput::RightClick(is_down(now, 4))) + turn(
            now,
            before,
            8,
            1,
        ) + turn(now, before, 16, WHEEL_DOWN)
    }

    /// A touch at the pointer.
    pub open spec fn touch_events(self, e: VncInputEvent, id: i32) -> Seq<GuestInput> {
        seq![
            GuestInput::MultitouchSlot(0),
            GuestInput::MultitouchTrackingId(id),
            GuestInput::MultitouchX(norm_abs(e.x as int, self.width as int) as i32),
            GuestInput::MultitouchY(norm_abs(e.y as int, self.height as int) as i32),
            GuestInput::Touch(true),
        ]
    }

    /// What the guest is told of a viewer's event.
    pub open spec fn told(self, e: VncInputEvent) -> Option<(EventDeviceKind, Seq<GuestInput>)> {
        if e.event_type == VNC_INPUT_KEY {
            Some(
                (
                    EventDeviceKind::Keyboard,
                    seq![GuestInput::Key { code: e.linux_keycode, pressed: e.down != 0 }],
                ),
            )
        } else if e.event_type != VNC_INPUT_POINTER {
            None
        } else if !self.touch_input {
            Some((EventDeviceKind::Tablet, self.tablet_events(e)))
        } else if is_down(e.button_mask, 1) {
            let id = if is_down(self.prev_button_mask, 1) {
                previous_id(self.next_tracking_id)
            } else {
                self.next_tracking_id
            };
            Some((EventDeviceKind::Touchscreen, self.touch_events(e, id)))
        } else if is_down(self.prev_button_mask, 1) {
            Some(
                (
                    EventDeviceKind::Touchscreen,
                    seq![
                        GuestInput::MultitouchSlot(0),
                        GuestInput::MultitouchTrackingId(NO_TRACKING_ID),
                        GuestInput::Touch(false),
                    ],
                ),
            )
        } else {
            None
        }
    }

    /// After a viewer's event.
    pub open spec fn after(self, e: VncInputEvent) -> Self {
        if e.event_type != VNC_INPUT_POINTER {
            self
        } else {
            InputView {
                prev_button_mask: e.button_mask,
                next_tracking_id: if self.touch_input && is_down(e.button_mask, 1) && !is_down(
                    self.prev_button_mask,
                    1,
                ) {
                    next_id(self.next_tracking_id)
                } else {
                    self.next_tracking_id
                },
                ..self
            }
        }
    }
}

impl InputView {
    /// What the guest's device reports of a viewer's event, if anything.
    pub open spec fn inputs(self, e: VncInputEvent) -> Seq<GuestInput> {
        match self.told(e) {
            Some(t) => t.1,
            None => Seq::empty(),
        }
    }
}

/// Buttons that did not change are not told again, and a held wheel turns once.
pub proof fn law_only_changes_are_clicks(v: InputView, e: VncInputEvent)
    requires
        v.prev_button_mask == e.button_mask,
    ensures
        v.tablet_events(e).len() == 2,
        v.tablet_events(e)[0] is AbsoluteX,
        v.tablet_events(e)[1] is AbsoluteY,
{
}

/// A finger keeps its number from when it is put down to when it is lifted, and the next one gets
/// another.
pub proof fn law_a_finger_keeps_its_number(
    v: InputView,
    down: VncInputEvent,
    drag: VncInputEvent,
    up: VncInputEvent,
    again: VncInputEvent,
)
    requires
        v.touch_input,
        !is_down(v.prev_button_mask, 1),
        down.event_type == VNC_INPUT_POINTER,
        drag.event_type == VNC_INPUT_POINTER,
        up.event_type == VNC_INPUT_POINTER,
        again.event_type == VNC_INPUT_POINTER,
        is_down(down.button_mask, 1),
        is_down(drag.button_mask, 1),
        !is_down(up.button_mask, 1),
        is_down(again.button_mask, 1),
    ensures
        ({
            let a = v.after(down);
            let b = a.after(drag);
            let c = b.after(up);
            &&& v.told(down) matches Some(t) && t.1[1] == GuestInput::MultitouchTrackingId(
                v.next_tracking_id,
            )
            &&& a.told(drag) matches Some(t) && t.1[1] == GuestInput::MultitouchTrackingId(
                v.next_tracking_id,
            )
            &&& b.told(up) matches Some(t) && t.1[1] == GuestInput::MultitouchTrackingId(NO_TRACKING_ID)
            &&& c.told(again) matches Some(t) && t.1[1] != GuestInput::MultitouchTrackingId(
                v.next_tracking_id,
            )
        }),
{
}

/// An image that the display was lent.
#[derive(Clone, Copy, Debug, PartialEq, Eq, Structural)]
pub struct VncImport {
    pub handle: i64,
    pub width: u32,
    pub height: u32,
}

/// Why there is no surface.
#[derive(Clone, Copy, Debug, PartialEq, Eq, Structural)]
pub enum SurfaceError {
    Unsupported,
    Allocate,
}

/// What creating a surface takes.
#[derive(Clone, Copy, Debug, PartialEq, Eq, Structural)]
pub enum SurfaceStep {
    /// A cursor image of this side, over the screen there is.
    Cursor { side: u32 },
    /// The screen is resized first.
    Resize { width: u32, height: u32 },
    /// A screen of this size.
    Screen { width: u32, height: u32 },
}

/// The display.
pub struct DisplayVnc {
    port: i32,
    width: u32,
    height: u32,
    touch_input: bool,
    queue: Vec<VncInputEvent>,
    next_tracking_id: i32,
    prev_button_mask: u8,
    /// Whether there is a screen.
    has_screen: bool,
    /// Whether the graphics hardware can be used, once that was asked.
    blit: Option<bool>,
    imports: BTreeMap<u32, VncImport>,
}

impl View for DisplayVnc {
    type V = InputView;

    closed spec fn view(&self) -> InputView {
        InputView {
            width: self.width,
            height: self.height,
            touch_input: self.touch_input,
            queue: self.queue@,
            next_tracking_id: self.next_tracking_id,
            prev_button_mask: self.prev_button_mask,
        }
    }
}

impl DisplayVnc {
    pub closed spec fn listens_on(&self) -> i32 {
        self.port
    }

    /// The port that viewers come to.
    pub fn port(&self) -> (p: i32)
        ensures
            p == self.listens_on(),
    {
        self.port
    }

    pub closed spec fn screen(&self) -> bool {
        self.has_screen
    }

    pub closed spec fn blit_answer(&self) -> Option<bool> {
        self.blit
    }

    pub closed spec fn lent(&self) -> Map<u32, VncImport> {
        self.imports@
    }

    /// Everything but the input.
    pub open spec fn same_but_input(&self, o: &Self) -> bool {
        &&& self.listens_on() == o.listens_on()
        &&& self.screen() == o.screen()
        &&& self.blit_answer() == o.blit_answer()
        &&& self.lent() == o.lent()
    }

    /// A display with no screen, for viewers at an address.
    pub fn new_tcp(addr: &str, width: u32, height: u32, touch_input: bool) -> (d: Self)
        ensures
            d.listens_on() == port_of(addr@),
            d@ == (InputView {
                width,
                height,
                touch_input,
                queue: Seq::empty(),
                next_tracking_id: 0,
                prev_button_mask: 0,
            }),
            !d.screen(),
            d.blit_answer() is None,
            d.lent() == Map::<u32, VncImport>::empty(),
    {
        DisplayVnc {
            port: port(addr),
            width,
            height,
            touch_input,
            queue: Vec::new(),
            next_tracking_id: 0,
            prev_button_mask: 0,
            has_screen: false,
            blit: None,
            imports: BTreeMap::new(),
        }
    }

    /// Takes a viewer's event.
    pub fn push_event(&mut self, event: VncInputEvent)
        ensures
            final(self)@ == (InputView { queue: old(self)@.queue.push(event), ..old(self)@ }),
            final(self).same_but_input(old(self)),
    {
        self.queue.push(event);
    }

    /// Whether events wait.
    pub fn pending_events(&self) -> (b: bool)
        ensures
            b == (self@.queue.len() > 0),
    {
        self.queue.len() > 0
    }

    #[verifier::rlimit(60)]
    #[verifier::spinoff_prover]
    fn pointer_to_mouse_events(&mut self, ev: &VncInputEvent) -> (r: GuestEvents)
        ensures
            r.device == EventDeviceKind::Tablet,
            r.events@ == old(self)@.tablet_events(*ev),
            final(self)@ == (InputView { prev_button_mask: ev.button_mask, ..old(self)@ }),
            final(self).same_but_input(old(self)),
    {
        let now: u8 = ev.button_mask;
        let before: u8 = self.prev_button_mask;
        self.prev_button_mask = now;
        let mut events: Vec<GuestInput> = Vec::new();
        events.push(GuestInput::AbsoluteX(vnc_norm_abs(ev.x, self.width)));
        events.push(GuestInput::AbsoluteY(vnc_norm_abs(ev.y, self.height)));
        let (left, left_before) = (now & 1 != 0, before & 1 != 0);
        if left != left_before {
            events.push(GuestInput::LeftClick(left));
        }
        let (middle, middle_before) = (now & 2 != 0, before & 2 != 0);
        if middle != middle_before {
            events.push(GuestInput::MiddleClick(middle));
        }
        let (right, right_before) = (now & 4 != 0, before & 4 != 0);
        if right != right_before {
            events.push(GuestInput::RightClick(right));
        }
        if now & 8 != 0 && before & 8 == 0 {
            events.push(GuestInput::Wheel(1));
        }
        if now & 16 != 0 && before & 16 == 0 {
            events.push(GuestInput::Wheel(WHEEL_DOWN));
        }
        assert(events@ =~= old(self)@.tablet_events(*ev));
        GuestEvents { device: EventDeviceKind::Tablet, events }
    }

    /// What the guest is told of the viewer's event that has waited longest; nothing where none
    /// waits, or it says nothing to the guest.
    pub fn convert_next_event(&mut self) -> (r: Option<GuestEvents>)
        ensures
            final(self).same_but_input(old(self)),
            old(self)@.queue.len() == 0 ==> r is None && final(self)@ == old(self)@,
            old(self)@.queue.len() > 0 ==> {
                let e = old(self)@.queue[0];
                let v = InputView { queue: old(self)@.queue.drop_first(), ..old(self)@ };
                &&& final(self)@ == v.after(e)
                &&& match r {
                    Some(g) => v.told(e) == Some((g.device, g.events@)),
                    None => v.told(e) is None,
                }
            },
    {
        if self.queue.len() == 0 {
            return None;
        }
        let ev = self.queue.remove(0);
        assert(self.queue@ =~= old(self)@.queue.drop_first());
        if ev.event_type == VNC_INPUT_KEY {
            let mut events: Vec<GuestInput> = Vec::new();
            events.push(GuestInput::Key { code: ev.linux_keycode, pressed: ev.down != 0 });
            assert(events@ =~= seq![
                GuestInput::Key { code: ev.linux_keycode, pressed: ev.down != 0 },
            ]);
            return Some(GuestEvents { device: EventDeviceKind::Keyboard, events });
        }
        if ev.event_type != VNC_INPUT_POINTER {
            return None;
        }
        if !self.touch_input {
            return Some(self.pointer_to_mouse_events(&ev));
        }
        let ghost v = self@;
        let now = ev.button_mask & 1 != 0;
        let before = self.prev_button_mask & 1 != 0;
        self.prev_button_mask = ev.button_mask;
        let mut events: Vec<GuestInput> = Vec::new();
        if now {
            let id: i32 = if before {
                if self.next_tracking_id == i32::MIN {
                    i32::MAX
                } else {
                    self.next_tracking_id - 1
                }
            } else {
                self.next_tracking_id
            };
            if !before {
                self.next_tracking_id = if id == i32::MAX {
                    i32::MIN
                } else {
                    id + 1
                };
            }
            events.push(GuestInput::MultitouchSlot(0));
            events.push(GuestInput::MultitouchTrackingId(id));
            events.push(GuestInput::MultitouchX(vnc_norm_abs(ev.x, self.width)));
            events.push(GuestInput::MultitouchY(vnc_norm_abs(ev.y, self.height)));
            events.push(GuestInput::Touch(true));
            assert(events@ =~= v.touch_events(ev, id));
        } else if before {
            events.push(GuestInput::MultitouchSlot(0));
            events.push(GuestInput::MultitouchTrackingId(NO_TRACKING_ID));
            events.push(GuestInput::Touch(false));
            assert(events@ =~= seq![
                GuestInput::MultitouchSlot(0),
                GuestInput::MultitouchTrackingId(NO_TRACKING_ID),
                GuestInput::Touch(false),
            ]);
        } else {
            return None;
        }
        Some(GuestEvents { device: EventDeviceKind::Touchscreen, events })
    }
}

/// The size that is asked for, or the present one where none is.
pub open spec fn size_or(requested: u32, present: u32) -> u32 {
    if requested != 0 {
        requested
    } else {
        present
    }
}

/// What creating a surface takes, on a display of a size, with a screen or without one.
pub open spec fn surface_of(
    present: (u32, u32),
    screen: bool,
    has_parent: bool,
    is_cursor: bool,
    requested: (u32, u32),
) -> Result<SurfaceStep, SurfaceError> {
    if has_parent {
        if is_cursor && screen {
            Ok(SurfaceStep::Cursor { side: CURSOR_SIDE })
        } else {
            Err(SurfaceError::Unsupported)
        }
    } else {
        let width = size_or(requested.0, present.0);
        let height = size_or(requested.1, present.1);
        if width != present.0 || height != present.1 {
            Ok(SurfaceStep::Resize { width, height })
        } else {
            Ok(SurfaceStep::Screen { width, height })
        }
    }
}

/// The image to show on a surface, among those that were lent.
pub open spec fn shown_of(lent: Map<u32, VncImport>, import_id: u32, width: u32, height: u32) -> Result<
    VncImport,
    ImportError,
> {
    if !lent.dom().contains(import_id) {
        Err(ImportError::Unknown)
    } else if lent[import_id].width != width || lent[import_id].height != height {
        Err(ImportError::OtherSize)
    } else {
        Ok(lent[import_id])
    }
}

impl DisplayVnc {
    /// What creating a surface takes. One with a parent is the cursor, which has no size of its
    /// own to resize the screen to.
    pub fn create_surface(&self, has_parent: bool, is_cursor: bool, requested: (u32, u32)) -> (r:
        Result<SurfaceStep, SurfaceError>)
        ensures
            r == surface_of(
                (self@.width, self@.height),
                self.screen(),
                has_parent,
                is_cursor,
                requested,
            ),
    {
        if has_parent {
            if !is_cursor || !self.has_screen {
                return Err(SurfaceError::Unsupported);
            }
            return Ok(SurfaceStep::Cursor { side: CURSOR_SIDE });
        }
        let width: u32 = if requested.0 != 0 {
            requested.0
        } else {
            self.width
        };
        let height: u32 = if requested.1 != 0 {
            requested.1
        } else {
            self.height
        };
        if width != self.width || height != self.height {
            Ok(SurfaceStep::Resize { width, height })
        } else {
            Ok(SurfaceStep::Screen { width, height })
        }
    }

    /// Takes what came of resizing the screen.
    pub fn on_resized(&mut self, width: u32, height: u32, ok: bool) -> (r: Result<(), SurfaceError>)
        ensures
            r == if ok {
                Ok::<(), SurfaceError>(())
            } else {
                Err(SurfaceError::Allocate)
            },
            final(self)@ == if ok {
                InputView { width, height, ..old(self)@ }
            } else {
                old(self)@
            },
            final(self).same_but_input(old(self)),
    {
        if !ok {
            return Err(SurfaceError::Allocate);
        }
        self.width = width;
        self.height = height;
        Ok(())
    }

    /// Takes that there is a screen.
    pub fn on_screen(&mut self)
        ensures
            final(self)@ == old(self)@,
            final(self).listens_on() == old(self).listens_on(),
            final(self).screen(),
            final(self).blit_answer() == old(self).blit_answer(),
            final(self).lent() == old(self).lent(),
    {
        self.has_screen = true;
    }

    /// Whether the graphics hardware can be used, where that was asked before. It is asked once.
    pub fn blit_known(&self) -> (b: Option<bool>)
        ensures
            b == self.blit_answer(),
    {
        self.blit
    }

    /// Takes the answer, where it is the first.
    pub fn on_blit_probed(&mut self, available: bool)
        ensures
            final(self)@ == old(self)@,
            final(self).listens_on() == old(self).listens_on(),
            final(self).screen() == old(self).screen(),
            final(self).lent() == old(self).lent(),
            final(self).blit_answer() == match old(self).blit_answer() {
                Some(b) => Some(b),
                None => Some(available),
            },
    {
        if self.blit.is_none() {
            self.blit = Some(available);
        }
    }

    /// Takes an image that the display was lent.
    pub fn on_imported(&mut self, import_id: u32, import: VncImport)
        ensures
            final(self)@ == old(self)@,
            final(self).listens_on() == old(self).listens_on(),
            final(self).screen() == old(self).screen(),
            final(self).blit_answer() == old(self).blit_answer(),
            final(self).lent() == old(self).lent().insert(import_id, import),
    {
        self.imports.insert(import_id, import);
    }

    /// Gives an image back. Returns what to give back, where it was lent.
    pub fn release_import(&mut self, import_id: u32) -> (handle: Option<i64>)
        ensures
            final(self)@ == old(self)@,
            final(self).listens_on() == old(self).listens_on(),
            final(self).screen() == old(self).screen(),
            final(self).blit_answer() == old(self).blit_answer(),
            final(self).lent() == old(self).lent().remove(import_id),
            handle == if old(self).lent().dom().contains(import_id) {
                Some(old(self).lent()[import_id].handle)
            } else {
                None::<i64>
            },
    {
        match self.imports.remove(&import_id) {
            Some(import) => Some(import.handle),
            None => {
                assert(self.imports@ =~= old(self).imports@);
                None
            },
        }
    }

    /// The image to show on a surface, where it was lent and has the size of the surface. One of
    /// another size would be shown sheared.
    pub fn import_for(&self, import_id: u32, width: u32, height: u32) -> (r: Result<
        VncImport,
        ImportError,
    >)
        ensures
            r == shown_of(self.lent(), import_id, width, height),
    {
        match self.imports.get(&import_id) {
            Some(import) => if import.width != width || import.height != height {
                Err(ImportError::OtherSize)
            } else {
                Ok(*import)
            },
            None => Err(ImportError::Unknown),
        }
    }
}

/// Why an image is not shown.
#[derive(Clone, Copy, Debug, PartialEq, Eq, Structural)]
pub enum ImportError {
    Unknown,
    /// It has not the size of the surface.
    OtherSize,
    /// The graphics hardware did not copy it.
    Blit,
    /// The copy cannot be read.
    Unreadable,
    /// The copy has not the size of the screen.
    TargetSize,
}

/// The guest's cursor.
pub struct CursorState {
    pub pixels: Vec<u8>,
    pub width: u32,
    pub height: u32,
    /// The corner of its image.
    pub x: i32,
    pub y: i32,
    pub visible: bool,
}

/// Where the frame without the cursor is.
#[derive(Clone, Copy, Debug, PartialEq, Eq, Structural)]
pub enum FrameSource {
    /// In memory.
    Data,
    /// Where the graphics hardware put it.
    Mapped,
}

/// What is offered to the viewers.
#[derive(Clone, Copy, Debug, PartialEq, Eq, Structural)]
pub struct Offer {
    pub source: FrameSource,
    /// Whether there is an image of the cursor, and whether it is drawn.
    pub has_cursor: bool,
    pub cursor_visible: bool,
    /// Whether the guest drew a new frame, and not only the cursor changed.
    pub full: bool,
}

/// What the graphics hardware made of a frame.
#[derive(Clone, Copy, Debug, PartialEq, Eq, Structural)]
pub struct BlitMapping {
    pub width: u32,
    pub height: u32,
    pub stride_bytes: u32,
}

/// How many rows, from `y` on, lie inside both buffers.
pub open spec fn rows_inside(
    src_len: int,
    stride: int,
    dst_len: int,
    packed: int,
    rows: int,
    y: int,
) -> int
    decreases rows - y,
{
    if y >= rows || y * stride + packed > src_len || y * packed + packed > dst_len {
        y
    } else {
        rows_inside(src_len, stride, dst_len, packed, rows, y + 1)
    }
}

/// A buffer with `rows` rows of another, whose rows are `stride` apart, packed into it.
pub open spec fn repacked(
    src: Seq<u8>,
    stride: int,
    dst: Seq<u8>,
    packed: int,
    rows: int,
) -> Seq<u8> {
    Seq::new(
        dst.len(),
        |p: int|
            if packed > 0 && p / packed < rows {
                src[(p / packed) * stride + p % packed]
            } else {
                dst[p]
            },
    )
}

/// The screen's frame.
pub struct SharedFramebuffer {
    width: u32,
    height: u32,
    data: Vec<u8>,
    mapped: bool,
    cursor: CursorState,
}

/// The screen's frame as a value.
pub struct FramebufferView {
    pub width: u32,
    pub height: u32,
    pub data: Seq<u8>,
    /// Whether the frame is where the graphics hardware put it.
    pub mapped: bool,
    pub cursor_pixels: Seq<u8>,
    pub cursor_size: (u32, u32),
    pub cursor_at: (i32, i32),
    pub cursor_visible: bool,
}

impl View for SharedFramebuffer {
    type V = FramebufferView;

    closed spec fn view(&self) -> FramebufferView {
        FramebufferView {
            width: self.width,
            height: self.height,
            data: self.data@,
            mapped: self.mapped,
            cursor_pixels: self.cursor.pixels@,
            cursor_size: (self.cursor.width, self.cursor.height),
            cursor_at: (self.cursor.x, self.cursor.y),
            cursor_visible: self.cursor.visible,
        }
    }
}

impl FramebufferView {
    /// The guest drew a frame in memory.
    pub open spec fn flipped(self, local: Seq<u8>) -> Self {
        FramebufferView { data: self.copied(local), mapped: false, ..self }
    }

    /// The cursor has a new image, which is shown.
    pub open spec fn with_cursor(self, pixels: Seq<u8>, size: (u32, u32)) -> Self {
        FramebufferView {
            cursor_pixels: pixels,
            cursor_size: size,
            cursor_visible: true,
            ..self
        }
    }

    /// What becomes of what the graphics hardware made of a frame, and what is then.
    pub open spec fn shows_mapping(self, mapping: BlitMapping, src: Seq<u8>) -> (
        Result<(), ImportError>,
        Self,
    ) {
        let packed = self.width * 4;
        if mapping.width != self.width || mapping.height != self.height {
            (Err(ImportError::TargetSize), self)
        } else if mapping.stride_bytes == packed {
            (Ok(()), FramebufferView { mapped: true, ..self })
        } else {
            (
                Ok(()),
                FramebufferView {
                    data: repacked(
                        src,
                        mapping.stride_bytes as int,
                        self.data,
                        packed,
                        rows_inside(
                            src.len() as int,
                            mapping.stride_bytes as int,
                            self.data.len() as int,
                            packed,
                            self.height as int,
                            0,
                        ),
                    ),
                    ..self
                },
            )
        }
    }

    pub open spec fn has_cursor(self) -> bool {
        self.cursor_pixels.len() > 0 && self.cursor_size.0 > 0 && self.cursor_size.1 > 0
    }

    /// What is offered, where there is a frame: one that the graphics hardware has overwritten is
    /// none.
    pub open spec fn offered(self, full: bool, mapping_is_current: bool) -> Option<Offer> {
        if self.mapped && !mapping_is_current {
            None
        } else {
            Some(
                Offer {
                    source: if self.mapped {
                        FrameSource::Mapped
                    } else {
                        FrameSource::Data
                    },
                    has_cursor: self.has_cursor(),
                    cursor_visible: self.cursor_visible && self.has_cursor(),
                    full,
                },
            )
        }
    }

    /// The data with as much of a frame in it as both hold.
    pub open spec fn copied(self, local: Seq<u8>) -> Seq<u8> {
        Seq::new(
            self.data.len(),
            |p: int|
                if p < local.len() {
                    local[p]
                } else {
                    self.data[p]
                },
        )
    }
}

impl SharedFramebuffer {
    /// A black frame without a cursor.
    pub fn new(width: u32, height: u32) -> (f: Self)
        requires
            width * height * 4 <= usize::MAX,
        ensures
            f@.width == width,
            f@.height == height,
            f@.data == Seq::new((width * height * 4) as nat, |p: int| 0u8),
            !f@.mapped,
            f@.cursor_pixels == Seq::<u8>::empty(),
            f@.cursor_size == (0u32, 0u32),
            f@.cursor_at == (0i32, 0i32),
            !f@.cursor_visible,
    {
        assert(0 <= width * height) by (nonlinear_arith)
            requires
                0 <= width,
                0 <= height,
        ;
        let size: usize = width as usize * height as usize * 4;
        let data: Vec<u8> = vec![0u8; size];
        assert(data@ =~= Seq::new((width * height * 4) as nat, |p: int| 0u8));
        SharedFramebuffer {
            width,
            height,
            data,
            mapped: false,
            cursor: CursorState {
                pixels: Vec::new(),
                width: 0,
                height: 0,
                x: 0,
                y: 0,
                visible: false,
            },
        }
    }

    /// The frame in memory.
    pub fn data(&self) -> (d: &Vec<u8>)
        ensures
            d@ == self@.data,
    {
        &self.data
    }

    /// The cursor.
    pub fn cursor(&self) -> (c: &CursorState)
        ensures
            c.pixels@ == self@.cursor_pixels,
            (c.width, c.height) == self@.cursor_size,
            (c.x, c.y) == self@.cursor_at,
            c.visible == self@.cursor_visible,
    {
        &self.cursor
    }

    /// What to offer to the viewers.
    pub fn offer(&self, full: bool, mapping_is_current: bool) -> (o: Option<Offer>)
        ensures
            o == self@.offered(full, mapping_is_current),
    {
        if self.mapped && !mapping_is_current {
            return None;
        }
        let has_cursor = self.cursor.pixels.len() > 0 && self.cursor.width > 0
            && self.cursor.height > 0;
        Some(
            Offer {
                source: if self.mapped {
                    FrameSource::Mapped
                } else {
                    FrameSource::Data
                },
                has_cursor,
                cursor_visible: self.cursor.visible && has_cursor,
                full,
            },
        )
    }

    /// Takes a frame that the guest drew in memory.
    pub fn flip(&mut self, local: &Vec<u8>)
        ensures
            final(self)@ == old(self)@.flipped(local@),
    {
        let ghost start = self@;
        let mut i: usize = 0;
        while i < self.data.len() && i < local.len()
            invariant
                i <= self.data@.len(),
                i <= local@.len(),
                self@ == (FramebufferView { data: self.data@, ..start }),
                self.data@.len() == start.data.len(),
                forall|p: int|
                    0 <= p < self.data@.len() ==> #[trigger] self.data@[p] == if p < i {
                        local@[p]
                    } else {
                        start.data[p]
                    },
            decreases local@.len() - i,
        {
            self.data.set(i, local[i]);
            i = i + 1;
        }
        assert(self.data@ =~= start.copied(local@));
        self.mapped = false;
    }

    /// Takes that the graphics hardware is about to overwrite the frame.
    pub fn before_blit(&mut self)
        ensures
            final(self)@ == (FramebufferView { mapped: false, ..old(self)@ }),
    {
        self.mapped = false;
    }

    /// Takes what the graphics hardware made of a frame. Where its rows are packed, it is the
    /// frame; else its rows are packed into memory.
    pub fn on_mapped(&mut self, mapping: BlitMapping, src: &[u8]) -> (r: Result<(), ImportError>)
        requires
            old(self)@.width * 4 <= usize::MAX,
        ensures
            (r, final(self)@) == old(self)@.shows_mapping(mapping, src@),
    {
        if mapping.width != self.width || mapping.height != self.height {
            return Err(ImportError::TargetSize);
        }
        let packed: usize = self.width as usize * 4;
        if mapping.stride_bytes as usize == packed {
            self.mapped = true;
            return Ok(());
        }
        let height: u32 = self.height;
        self.repack(src, mapping.stride_bytes, packed, height);
        Ok(())
    }

    /// Packs rows into memory.
    fn repack(&mut self, src: &[u8], stride: u32, packed: usize, rows: u32)
        requires
            packed == old(self)@.width * 4,
        ensures
            final(self)@ == (FramebufferView {
                data: repacked(
                    src@,
                    stride as int,
                    old(self)@.data,
                    packed as int,
                    rows_inside(
                        src@.len() as int,
                        stride as int,
                        old(self)@.data.len() as int,
                        packed as int,
                        rows as int,
                        0,
                    ),
                ),
                ..old(self)@
            }),
    {
        let ghost start = self@;
        let slen: usize = src.len();
        let dlen: usize = self.data.len();
        let mut y: u32 = 0;
        proof {
            lemma_repacked_none(src@, stride as int, start.data, packed as int);
        }
        while y < rows && row_fits(y, stride, packed, slen, dlen)
            invariant
                y <= rows,
                slen == src@.len(),
                dlen == self.data@.len() == start.data.len(),
                packed == start.width * 4,
                self@ == (FramebufferView { data: self.data@, ..start }),
                self.data@ == repacked(
                    src@,
                    stride as int,
                    start.data,
                    packed as int,
                    y as int,
                ),
                rows_inside(
                    slen as int,
                    stride as int,
                    dlen as int,
                    packed as int,
                    rows as int,
                    0,
                ) == rows_inside(
                    slen as int,
                    stride as int,
                    dlen as int,
                    packed as int,
                    rows as int,
                    y as int,
                ),
            decreases rows - y,
        {
            assert(0 <= y * stride && 0 <= y * packed) by (nonlinear_arith)
                requires
                    0 <= y,
                    0 <= stride,
                    0 <= packed,
            ;
            let from: usize = (y as u64 * stride as u64) as usize;
            let to: usize = (y as u128 * packed as u128) as usize;
            let ghost before = self.data@;
            crate::bytes::copy_bytes(src, from, self.data.as_mut_slice(), to, packed);
            proof {
                lemma_repacked_step(
                    src@,
                    stride as int,
                    start.data,
                    packed as int,
                    y as int,
                    before,
                    self.data@,
                );
            }
            y = y + 1;
        }
    }

    /// Takes a new image of the cursor, which is shown.
    pub fn set_cursor(&mut self, pixels: Vec<u8>, width: u32, height: u32)
        ensures
            final(self)@ == old(self)@.with_cursor(pixels@, (width, height)),
    {
        self.cursor.pixels = pixels;
        self.cursor.width = width;
        self.cursor.height = height;
        self.cursor.visible = true;
    }

    /// Moves the corner of the cursor's image. Returns where the pointer itself is, whose place in
    /// the image is `hot`.
    pub fn set_position(&mut self, x: i32, y: i32, hot: (u32, u32)) -> (at: (i32, i32))
        ensures
            final(self)@ == (FramebufferView { cursor_at: (x, y), ..old(self)@ }),
            at == (x.wrapping_add(hot.0 as i32), y.wrapping_add(hot.1 as i32)),
    {
        self.cursor.x = x;
        self.cursor.y = y;
        (x.wrapping_add(hot.0 as i32), y.wrapping_add(hot.1 as i32))
    }

    /// Shows or hides the cursor.
    pub fn set_cursor_visible(&mut self, visible: bool)
        ensures
            final(self)@ == (FramebufferView { cursor_visible: visible, ..old(self)@ }),
    {
        self.cursor.visible = visible;
    }
}

/// A frame that the graphics hardware has overwritten is not shown, though only the cursor moved:
/// what is in memory was not drawn by the guest.
pub proof fn law_a_stale_frame_is_not_shown(v: FramebufferView, full: bool)
    ensures
        v.mapped ==> v.offered(full, false) is None,
        !v.mapped ==> v.offered(full, false) == v.offered(full, true),
        v.offered(full, true) is Some,
{
}

/// Whether a row lies inside both buffers.
fn row_fits(y: u32, stride: u32, packed: usize, src_len: usize, dst_len: usize) -> (b: bool)
    requires
        packed <= 4 * u32::MAX,
    ensures
        b == (y * stride + packed <= src_len && y * packed + packed <= dst_len),
{
    assert(0 <= y * stride <= u32::MAX * (u32::MAX as int) && 0 <= y * packed <= u32::MAX * (4
        * u32::MAX as int)) by (nonlinear_arith)
        requires
            0 <= y <= u32::MAX,
            0 <= stride <= u32::MAX,
            0 <= packed <= 4 * u32::MAX,
    ;
    y as u128 * stride as u128 + packed as u128 <= src_len as u128 && y as u128 * packed as u128
        + packed as u128 <= dst_len as u128
}

proof fn lemma_repacked_none(src: Seq<u8>, stride: int, dst: Seq<u8>, packed: int)
    ensures
        repacked(src, stride, dst, packed, 0) == dst,
{
    assert forall|p: int| 0 <= p < dst.len() && packed > 0 implies #[trigger] (p / packed)
        >= 0 by {
        assert(p / packed >= 0) by (nonlinear_arith)
            requires
                0 <= p,
                packed > 0,
        ;
    }
    assert(repacked(src, stride, dst, packed, 0) =~= dst);
}

proof fn lemma_repacked_step(
    src: Seq<u8>,
    stride: int,
    dst: Seq<u8>,
    packed: int,
    y: int,
    before: Seq<u8>,
    after: Seq<u8>,
)
    requires
        0 <= y,
        0 <= packed,
        before == repacked(src, stride, dst, packed, y),
        after == Seq::new(
            before.len(),
            |p: int|
                if y * packed <= p < y * packed + packed {
                    src[y * stride + (p - y * packed)]
                } else {
                    before[p]
                },
        ),
    ensures
        after == repacked(src, stride, dst, packed, y + 1),
{
    let want = repacked(src, stride, dst, packed, y + 1);
    assert forall|p: int| 0 <= p < dst.len() implies after[p] == want[p] by {
        if packed > 0 {
            let q = p / packed;
            let c = p % packed;
            vstd::arithmetic::div_mod::lemma_fundamental_div_mod(p, packed);
            assert(packed * q == q * packed) by (nonlinear_arith);
            if q == y {
            } else {
                assert(!(y * packed <= p < y * packed + packed)) by (nonlinear_arith)
                    requires
                        p == q * packed + c,
                        0 <= c < packed,
                        q != y,
                ;
            }
        }
    }
    assert(after =~= want);
}

/// A coordinate of the screen is told in proportion: as far along the guest's scale as it is along
/// the screen, rounded down.
pub proof fn law_a_coordinate_is_in_proportion(v: int, extent: int)
    requires
        0 <= v <= extent,
        0 < extent,
    ensures
        norm_abs(v, extent) * extent <= v * 32767 < (norm_abs(v, extent) + 1) * extent,
        norm_abs(0, extent) == 0,
        norm_abs(extent, extent) == 32767,
{
    let q = (v * 32767) / extent;
    vstd::arithmetic::div_mod::lemma_fundamental_div_mod(v * 32767, extent);
    assert(extent * q == q * extent) by (nonlinear_arith);
    assert((q + 1) * extent == q * extent + extent) by (nonlinear_arith);
    assert(q <= 32767) by (nonlinear_arith)
        requires
            q * extent <= v * 32767,
            v <= extent,
            0 < extent,
    ;
    law_the_pointer_stays_on_the_scale(0, extent, extent);
}

/// Whether `told` is where `v` is on a screen of this extent, on the guest's scale: in proportion,
/// rounded down, and at the edge for what is beyond it.
pub open spec fn is_in_proportion(told: int, v: int, extent: int) -> bool {
    &&& v <= 0 ==> told == 0
    &&& v >= extent && v > 0 ==> told == 32767
    &&& 0 <= v < extent ==> told * extent <= v * 32767 < (told + 1) * extent
}

proof fn lemma_in_proportion(v: int, extent: int)
    requires
        extent >= 0,
    ensures
        is_in_proportion(norm_abs(v, extent), v, extent),
        0 <= norm_abs(v, extent) <= 32767,
{
    law_the_pointer_stays_on_the_scale(v, v, extent);
    if 0 <= v < extent {
        law_a_coordinate_is_in_proportion(v, extent);
    }
}

/// A pointer is told where it is, each coordinate on a scale of its own: across by the width and
/// down by the height. A tablet and a touchscreen are told the same of the same pointer.
pub proof fn law_a_pointer_is_told_where_it_is(v: InputView, e: VncInputEvent)
    requires
        e.event_type == 2,
    ensures
        !v.touch_input ==> (v.told(e) matches Some(t) && t.0 is Tablet && t.1.len() >= 2
            && (t.1[0] matches GuestInput::AbsoluteX(x) && is_in_proportion(
            x as int,
            e.x as int,
            v.width as int,
        )) && (t.1[1] matches GuestInput::AbsoluteY(y) && is_in_proportion(
            y as int,
            e.y as int,
            v.height as int,
        ))),
        v.touch_input && e.button_mask & 1 != 0 ==> (v.told(e) matches Some(t) && t.0 is Touchscreen
            && t.1.len() == 5 && t.1[0] == GuestInput::MultitouchSlot(0) && t.1[1]
            is MultitouchTrackingId && (t.1[2] matches GuestInput::MultitouchX(x)
            && is_in_proportion(x as int, e.x as int, v.width as int)) && (
        t.1[3] matches GuestInput::MultitouchY(y) && is_in_proportion(
            y as int,
            e.y as int,
            v.height as int,
        )) && t.1[4] == GuestInput::Touch(true)),
        ({
            let tablet = InputView { touch_input: false, ..v };
            let touch = InputView { touch_input: true, ..v };
            e.button_mask & 1 != 0 ==> {
                &&& tablet.inputs(e)[0]->AbsoluteX_0 == touch.inputs(e)[2]->MultitouchX_0
                &&& tablet.inputs(e)[1]->AbsoluteY_0 == touch.inputs(e)[3]->MultitouchY_0
            }
        }),
{
    lemma_in_proportion(e.x as int, v.width as int);
    lemma_in_proportion(e.y as int, v.height as int);
}

/// A finger that is lifted is told as such, once; a pointer that only hovers is not told to a
/// touchscreen.
pub proof fn law_a_finger_is_lifted_once(v: InputView, e: VncInputEvent)
    requires
        v.touch_input,
        e.event_type == 2,
        e.button_mask & 1 == 0,
    ensures
        v.prev_button_mask & 1 != 0 ==> v.told(e) == Some(
            (
                EventDeviceKind::Touchscreen,
                seq![
                    GuestInput::MultitouchSlot(0),
                    GuestInput::MultitouchTrackingId(-1 as i32),
                    GuestInput::Touch(false),
                ],
            ),
        ),
        v.prev_button_mask & 1 == 0 ==> v.told(e) is None,
        v.after(e).told(e) is None,
{
}

/// A key is told as it is, whatever the pointer does, and changes nothing of the pointer.
pub proof fn law_a_key_is_told_as_it_is(v: InputView, e: VncInputEvent)
    ensures
        e.event_type == 1 ==> (v.told(e) matches Some(t) && t.0 is Keyboard && t.1.len() == 1
            && t.1[0] == (GuestInput::Key { code: e.linux_keycode, pressed: e.down != 0 })),
        e.event_type == 1 ==> v.after(e) == v,
        e.event_type != 1 && e.event_type != 2 ==> v.told(e) is None && v.after(e) == v,
{
}

proof fn lemma_in_either(a: Seq<GuestInput>, b: Seq<GuestInput>, x: GuestInput)
    ensures
        (a + b).contains(x) <==> a.contains(x) || b.contains(x),
{
    if a.contains(x) {
        let i = choose|i: int| 0 <= i < a.len() && a[i] == x;
        assert((a + b)[i] == x);
    }
    if b.contains(x) {
        let i = choose|i: int| 0 <= i < b.len() && b[i] == x;
        assert((a + b)[a.len() + i] == x);
    }
    if (a + b).contains(x) {
        let i = choose|i: int| 0 <= i < (a + b).len() && (a + b)[i] == x;
        if i < a.len() {
            assert(a[i] == x);
        } else {
            assert(b[i - a.len()] == x);
        }
    }
}

proof fn lemma_told_to_a_tablet(v: InputView, e: VncInputEvent, x: GuestInput)
    ensures
        v.tablet_events(e).contains(x) <==> {
            ||| x == GuestInput::AbsoluteX(norm_abs(e.x as int, v.width as int) as i32)
            ||| x == GuestInput::AbsoluteY(norm_abs(e.y as int, v.height as int) as i32)
            ||| click(
                e.button_mask,
                v.prev_button_mask,
                1,
                GuestInput::LeftClick(is_down(e.button_mask, 1)),
            ).contains(x)
            ||| click(
                e.button_mask,
                v.prev_button_mask,
                2,
                GuestInput::MiddleClick(is_down(e.button_mask, 2)),
            ).contains(x)
            ||| click(
                e.button_mask,
                v.prev_button_mask,
                4,
                GuestInput::RightClick(is_down(e.button_mask, 4)),
            ).contains(x)
            ||| turn(e.button_mask, v.prev_button_mask, 8, 1).contains(x)
            ||| turn(e.button_mask, v.prev_button_mask, 16, WHEEL_DOWN).contains(x)
        },
{
    let (now, before) = (e.button_mask, v.prev_button_mask);
    let head = seq![
        GuestInput::AbsoluteX(norm_abs(e.x as int, v.width as int) as i32),
        GuestInput::AbsoluteY(norm_abs(e.y as int, v.height as int) as i32),
    ];
    let l = click(now, before, 1, GuestInput::LeftClick(is_down(now, 1)));
    let m = click(now, before, 2, GuestInput::MiddleClick(is_down(now, 2)));
    let r = click(now, before, 4, GuestInput::RightClick(is_down(now, 4)));
    let u = turn(now, before, 8, 1);
    let d = turn(now, before, 16, WHEEL_DOWN);
    lemma_in_either(head, l, x);
    lemma_in_either(head + l, m, x);
    lemma_in_either(head + l + m, r, x);
    lemma_in_either(head + l + m + r, u, x);
    lemma_in_either(head + l + m + r + u, d, x);
    assert(head[0] == GuestInput::AbsoluteX(norm_abs(e.x as int, v.width as int) as i32));
    assert(head[1] == GuestInput::AbsoluteY(norm_abs(e.y as int, v.height as int) as i32));
}

proof fn lemma_of_one(s: Seq<GuestInput>, e: GuestInput, x: GuestInput, there: bool)
    requires
        there ==> s == seq![e],
        !there ==> s == Seq::<GuestInput>::empty(),
    ensures
        s.contains(x) <==> there && x == e,
{
    if there {
        assert(s[0] == e);
    }
}

/// Each button is its own: a click of it is told exactly where its own bit changed, and as what it
/// changed to. The wheel turns where its bit was set, up and down each by one.
pub proof fn law_each_button_is_told_by_its_own_bit(v: InputView, e: VncInputEvent, pressed: bool, by: i32)
    requires
        !v.touch_input,
        e.event_type == 2,
    ensures
        ({
            let now = e.button_mask;
            let before = v.prev_button_mask;
            let told = v.inputs(e);
            &&& told.contains(GuestInput::LeftClick(pressed)) <==> (now & 1 != 0) != (before & 1
                != 0) && pressed == (now & 1 != 0)
            &&& told.contains(GuestInput::MiddleClick(pressed)) <==> (now & 2 != 0) != (before & 2
                != 0) && pressed == (now & 2 != 0)
            &&& told.contains(GuestInput::RightClick(pressed)) <==> (now & 4 != 0) != (before & 4
                != 0) && pressed == (now & 4 != 0)
            &&& told.contains(GuestInput::Wheel(by)) <==> (by == 1 && now & 8 != 0 && before & 8 == 0)
                || (by == -1 && now & 16 != 0 && before & 16 == 0)
            &&& v.after(e).prev_button_mask == now
            &&& v.after(e).queue == v.queue && v.after(e).width == v.width && v.after(e).height
                == v.height
        }),
{
    let (now, before) = (e.button_mask, v.prev_button_mask);
    let inputs = seq![
        GuestInput::LeftClick(pressed),
        GuestInput::MiddleClick(pressed),
        GuestInput::RightClick(pressed),
        GuestInput::Wheel(by),
    ];
    assert forall|i: int| 0 <= i < 4 implies ({
        let x = #[trigger] inputs[i];
        v.tablet_events(e).contains(x) <==> {
            ||| is_down(now, 1) != is_down(before, 1) && x == GuestInput::LeftClick(is_down(now, 1))
            ||| is_down(now, 2) != is_down(before, 2) && x == GuestInput::MiddleClick(
                is_down(now, 2),
            )
            ||| is_down(now, 4) != is_down(before, 4) && x == GuestInput::RightClick(
                is_down(now, 4),
            )
            ||| is_down(now, 8) && !is_down(before, 8) && x == GuestInput::Wheel(1)
            ||| is_down(now, 16) && !is_down(before, 16) && x == GuestInput::Wheel(-1 as i32)
        }
    }) by {
        let x = inputs[i];
        lemma_told_to_a_tablet(v, e, x);
        lemma_of_one(
            click(now, before, 1, GuestInput::LeftClick(is_down(now, 1))),
            GuestInput::LeftClick(is_down(now, 1)),
            x,
            is_down(now, 1) != is_down(before, 1),
        );
        lemma_of_one(
            click(now, before, 2, GuestInput::MiddleClick(is_down(now, 2))),
            GuestInput::MiddleClick(is_down(now, 2)),
            x,
            is_down(now, 2) != is_down(before, 2),
        );
        lemma_of_one(
            click(now, before, 4, GuestInput::RightClick(is_down(now, 4))),
            GuestInput::RightClick(is_down(now, 4)),
            x,
            is_down(now, 4) != is_down(before, 4),
        );
        lemma_of_one(
            turn(now, before, 8, 1),
            GuestInput::Wheel(1),
            x,
            is_down(now, 8) && !is_down(before, 8),
        );
        lemma_of_one(
            turn(now, before, 16, WHEEL_DOWN),
            GuestInput::Wheel(-1 as i32),
            x,
            is_down(now, 16) && !is_down(before, 16),
        );
    }
    assert(inputs[0] == GuestInput::LeftClick(pressed));
    assert(inputs[1] == GuestInput::MiddleClick(pressed));
    assert(inputs[2] == GuestInput::RightClick(pressed));
    assert(inputs[3] == GuestInput::Wheel(by));
}

/// Fingers are numbered one after the other, and a number comes back only after all others.
pub proof fn law_fingers_are_numbered_in_turn(id: i32)
    ensures
        previous_id(next_id(id)) == id,
        next_id(previous_id(id)) == id,
        (next_id(id) - id - 1) % 0x1_0000_0000 == 0,
{
}

/// A number is written in tens, the highest digit first, and by digits alone.
pub proof fn law_a_number_is_written_in_tens(s: Seq<u8>, b: u8)
    ensures
        number_of(Seq::empty()) == Some(0int),
        48 <= b <= 57 && number_of(s) is Some ==> number_of(s.push(b)) == Some(
            10 * number_of(s)->0 + (b - 48),
        ),
        !(48 <= b <= 57) || number_of(s) is None ==> number_of(s.push(b)) is None,
{
    assert(s.push(b).drop_last() =~= s);
}

/// The port of an address is the number behind its last colon, whatever stands before it, and the
/// usual one where there is no such number.
pub proof fn law_the_port_is_behind_the_last_colon(addr: Seq<char>, host: Seq<u8>, digits: Seq<u8>)
    requires
        text::utf8(addr) == host.push(58) + digits || text::utf8(addr) == digits,
        forall|i: int| 0 <= i < digits.len() ==> #[trigger] digits[i] != 58,
    ensures
        digits.len() > 0 && 48 <= digits[0] && (number_of(digits) matches Some(n) && n <= i32::MAX)
            ==> port_of(addr) == number_of(digits)->0,
        digits.len() == 0 ==> port_of(addr) == 5900,
        digits.len() > 0 && 48 <= digits[0] && (number_of(digits) matches Some(n) ==> n > i32::MAX)
            ==> port_of(addr) == 5900,
        digits.len() > 1 && digits[0] == 45 && (number_of(digits.drop_first()) matches Some(n) && n
            <= 0x8000_0000) ==> port_of(addr) == -(number_of(digits.drop_first())->0),
        digits.len() > 1 && digits[0] == 43 && (number_of(digits.drop_first()) matches Some(n) && n
            <= i32::MAX) ==> port_of(addr) == number_of(digits.drop_first())->0,
{
    lemma_all_behind(digits);
    lemma_behind_the_last(host, digits);
}

proof fn lemma_all_behind(s: Seq<u8>)
    requires
        forall|i: int| 0 <= i < s.len() ==> #[trigger] s[i] != 58,
    ensures
        behind_colon(s) == s,
    decreases s.len(),
{
    if s.len() > 0 {
        assert forall|i: int| 0 <= i < s.drop_last().len() implies #[trigger] s.drop_last()[i]
            != 58 by {
            assert(s[i] != 58);
        }
        lemma_all_behind(s.drop_last());
        assert(s.last() == s[s.len() - 1]);
        assert(s.drop_last().push(s.last()) =~= s);
    } else {
        assert(s =~= Seq::empty());
    }
}

proof fn lemma_behind_the_last(host: Seq<u8>, digits: Seq<u8>)
    requires
        forall|i: int| 0 <= i < digits.len() ==> #[trigger] digits[i] != 58,
    ensures
        behind_colon(host.push(58) + digits) == digits,
    decreases digits.len(),
{
    let s = host.push(58) + digits;
    if digits.len() == 0 {
        assert(s.last() == 58);
        assert(digits =~= Seq::empty());
    } else {
        let d = digits.drop_last();
        assert forall|i: int| 0 <= i < d.len() implies #[trigger] d[i] != 58 by {
            assert(digits[i] != 58);
        }
        lemma_behind_the_last(host, d);
        assert(s.drop_last() =~= host.push(58) + d);
        assert(s.last() == digits[digits.len() - 1]);
        assert(d.push(digits.last()) =~= digits);
    }
}

/// A frame whose rows are padded is packed pixel by pixel: byte `x` of row `y` is the same byte of
/// the same row. What is behind the packed rows is as it was.
pub proof fn law_a_packed_frame_is_the_same_picture(
    src: Seq<u8>,
    stride: int,
    dst: Seq<u8>,
    packed: int,
    rows: int,
    y: int,
    x: int,
)
    requires
        0 <= y,
        0 <= x < packed,
        y * packed + x < dst.len(),
    ensures
        repacked(src, stride, dst, packed, rows).len() == dst.len(),
        y < rows ==> repacked(src, stride, dst, packed, rows)[y * packed + x] == src[y * stride + x],
        y >= rows ==> repacked(src, stride, dst, packed, rows)[y * packed + x] == dst[y * packed
            + x],
{
    vstd::arithmetic::div_mod::lemma_fundamental_div_mod_converse(y * packed + x, packed, y, x);
    assert(0 <= y * packed) by (nonlinear_arith)
        requires
            0 <= y,
            0 < packed,
    ;
}

/// Rows are packed as long as both buffers hold them, and all of them where both hold all.
pub proof fn law_rows_are_packed_while_they_fit(
    src_len: int,
    stride: int,
    dst_len: int,
    packed: int,
    rows: int,
    y: int,
)
    requires
        y <= rows,
    ensures
        ({
            let n = rows_inside(src_len, stride, dst_len, packed, rows, y);
            &&& y <= n <= rows
            &&& forall|k: int|
                y <= k < n ==> (#[trigger] (k * stride)) + packed <= src_len && k * packed + packed
                    <= dst_len
            &&& n < rows ==> n * stride + packed > src_len || n * packed + packed > dst_len
        }),
    decreases rows - y,
{
    if y < rows && !(y * stride + packed > src_len || y * packed + packed > dst_len) {
        law_rows_are_packed_while_they_fit(src_len, stride, dst_len, packed, rows, y + 1);
    }
}

/// A frame that the guest drew in memory is what is shown, byte for byte.
pub proof fn law_a_drawn_frame_is_shown(v: FramebufferView, local: Seq<u8>, p: int)
    requires
        0 <= p < v.data.len(),
    ensures
        v.copied(local).len() == v.data.len(),
        p < local.len() ==> v.copied(local)[p] == local[p],
        p >= local.len() ==> v.copied(local)[p] == v.data[p],
{
}

/// What is offered is where the frame is; the cursor is drawn where it has an image and is shown.
pub proof fn law_the_cursor_is_drawn_where_there_is_one(v: FramebufferView, full: bool)
    ensures
        v.offered(full, true) matches Some(o) && {
            &&& o.full == full
            &&& o.source is Mapped <==> v.mapped
            &&& o.has_cursor <==> v.cursor_pixels.len() > 0 && v.cursor_size.0 > 0
                && v.cursor_size.1 > 0
            &&& o.cursor_visible <==> o.has_cursor && v.cursor_visible
        },
{
}

/// A size that is not asked for stays.
pub proof fn law_a_size_that_is_not_asked_for_stays(requested: u32, present: u32)
    ensures
        size_or(0, present) == present,
        requested > 0 ==> size_or(requested, present) == requested,
{
}

/// A surface with a parent is a cursor, and there is one only on a screen. Any other is the screen, at
/// the size that is asked for; the display is resized to it exactly where it has another.
pub proof fn law_a_surface_has_the_size_asked_for(
    present: (u32, u32),
    screen: bool,
    has_parent: bool,
    is_cursor: bool,
    requested: (u32, u32),
)
    ensures
        ({
            let r = surface_of(present, screen, has_parent, is_cursor, requested);
            &&& r is Err <==> has_parent && !(is_cursor && screen)
            &&& r matches Err(e) ==> e is Unsupported
            &&& r matches Ok(SurfaceStep::Cursor { side }) ==> has_parent && side == 64
            &&& r matches Ok(SurfaceStep::Screen { width, height }) ==> !has_parent && (width, height)
                == present
            &&& r matches Ok(SurfaceStep::Resize { width, height }) ==> {
                &&& !has_parent
                &&& width != present.0 || height != present.1
                &&& width == requested.0 || requested.0 == 0 && width == present.0
                &&& height == requested.1 || requested.1 == 0 && height == present.1
            }
            &&& !has_parent && requested == present ==> r is Ok && !(r == Ok::<
                SurfaceStep,
                SurfaceError,
            >(SurfaceStep::Resize { width: present.0, height: present.1 }))
            &&& !has_parent && requested.0 != 0 && requested.0 != present.0 ==> (
            r matches Ok(SurfaceStep::Resize { width, height }) && width == requested.0)
            &&& !has_parent && requested.1 != 0 && requested.1 != present.1 ==> (
            r matches Ok(SurfaceStep::Resize { width, height }) && height == requested.1)
        }),
{
}

/// An image is shown where it was lent and is not given back, on a surface of its own size.
pub proof fn law_an_image_is_shown_at_its_own_size(
    lent: Map<u32, VncImport>,
    id: u32,
    image: VncImport,
    width: u32,
    height: u32,
)
    ensures
        shown_of(lent.insert(id, image), id, image.width, image.height) == Ok::<
            VncImport,
            ImportError,
        >(image),
        width != image.width || height != image.height ==> shown_of(
            lent.insert(id, image),
            id,
            width,
            height,
        ) == Err::<VncImport, ImportError>(ImportError::OtherSize),
        shown_of(lent.remove(id), id, width, height) == Err::<VncImport, ImportError>(
            ImportError::Unknown,
        ),
        shown_of(lent, id, width, height) matches Ok(i) ==> lent.dom().contains(id) && lent[id] == i
            && i.width == width && i.height == height,
{
}

/// What the hardware made of a frame of another size is not shown. Where its rows are packed it is the
/// frame, and what is in memory stays; else the rows are packed into memory, as far as they fit.
pub proof fn law_a_mapped_frame_is_shown(v: FramebufferView, mapping: BlitMapping, src: Seq<u8>)
    ensures
        ({
            let (r, w) = v.shows_mapping(mapping, src);
            let same = mapping.width == v.width && mapping.height == v.height;
            &&& r is Ok <==> same
            &&& !same ==> r == Err::<(), ImportError>(ImportError::TargetSize) && w == v
            &&& same && mapping.stride_bytes == 4 * v.width ==> w.mapped && w.data == v.data
            &&& same && mapping.stride_bytes != 4 * v.width ==> w.mapped == v.mapped && w.data
                == repacked(
                src,
                mapping.stride_bytes as int,
                v.data,
                4 * v.width,
                rows_inside(
                    src.len() as int,
                    mapping.stride_bytes as int,
                    v.data.len() as int,
                    4 * v.width,
                    v.height as int,
                    0,
                ),
            )
            &&& w.width == v.width && w.height == v.height && w.cursor_pixels == v.cursor_pixels
                && w.cursor_size == v.cursor_size && w.cursor_at == v.cursor_at && w.cursor_visible
                == v.cursor_visible
        }),
{
}

/// A frame that the guest drew is shown from memory, however it was shown before. A new cursor is seen,
/// where the old one was.
pub proof fn law_what_the_guest_drew_is_shown(
    v: FramebufferView,
    local: Seq<u8>,
    size: (u32, u32),
    full: bool,
)
    ensures
        !v.flipped(local).mapped,
        v.flipped(local).data == v.copied(local),
        v.flipped(local).offered(full, false) matches Some(o) && o.source is Data && o.full == full,
        v.flipped(local).cursor_pixels == v.cursor_pixels && v.flipped(local).cursor_at
            == v.cursor_at && v.flipped(local).cursor_size == v.cursor_size && v.flipped(
            local,
        ).cursor_visible == v.cursor_visible && v.flipped(local).width == v.width && v.flipped(
            local,
        ).height == v.height,
        v.with_cursor(local, size).cursor_pixels == local,
        v.with_cursor(local, size).cursor_size == size,
        v.with_cursor(local, size).cursor_visible,
        v.with_cursor(local, size).cursor_at == v.cursor_at && v.with_cursor(local, size).data
            == v.data && v.with_cursor(local, size).mapped == v.mapped && v.with_cursor(
            local,
            size,
        ).width == v.width && v.with_cursor(local, size).height == v.height,
{
}

/// What is no input stays: where the display listens, its screen, and what it was lent.
pub proof fn law_input_changes_nothing_else(after: DisplayVnc, before: DisplayVnc)
    requires
        after.same_but_input(&before),
    ensures
        after.listens_on() == before.listens_on() && after.screen() == before.screen()
            && after.blit_answer() == before.blit_answer() && after.lent() == before.lent(),
{
}

} // verus!
