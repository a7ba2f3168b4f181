//! Waking a worker that waits outside its own loop.
//!
//! A worker watches its kill event while it is in its loop; while it is inside a device call
//! that blocks, it does not. [`KillSignal`] carries the kill event to such a wait, so that both
//! are waited for at once. The kill event is left signaled: it is the worker's loop that takes
//! it once the call unwinds.
use vstd::prelude::*;

verus! {

/// Why a wait returned.
#[derive(Clone, Copy, Debug, PartialEq, Eq, Structural)]
pub enum Wakeup {
    /// What was waited for happened, and was taken.
    Ready,
    /// The worker was told to stop.
    Killed,
}

/// The slot for the worker's kill event, known by its descriptor. It is filled once; a slot that
/// was never filled makes a wait that only the event waited for ends.
#[derive(Clone, Copy, Debug, PartialEq, Eq, Structural)]
pub struct KillSignal {
    event: Option<i32>,
}

/// What a wait with some signals up comes to: nothing yet, or why it ends. A kill wins a tie.
pub open spec fn wakeup(armed: bool, ready: bool, killed: bool) -> Option<Wakeup> {
    if armed && killed {
        Some(Wakeup::Killed)
    } else if ready {
        Some(Wakeup::Ready)
    } else {
        None
    }
}

/// The kill event in a slot after another was put there.
pub open spec fn armed_with(event: Option<i32>, kill_evt: i32) -> Option<i32> {
    match event {
        Some(e) => Some(e),
        None => Some(kill_evt),
    }
}

/// The events to wait for, with a kill event or without one.
pub open spec fn waited_for(kill: Option<i32>, event: i32) -> Seq<i32> {
    match kill {
        Some(k) => seq![event, k],
        None => seq![event],
    }
}

impl KillSignal {
    /// The kill event in the slot.
    pub closed spec fn event(&self) -> Option<i32> {
        self.event
    }

    /// An empty slot.
    pub fn new() -> (signal: Self)
        ensures
            signal.event() is None,
    {
        KillSignal { event: None }
    }

    /// Puts the worker's kill event in the slot. A second call keeps the first event.
    pub fn arm(&mut self, kill_evt: i32)
        ensures
            final(self).event() == armed_with(old(self).event(), kill_evt),
    {
        if self.event.is_none() {
            self.event = Some(kill_evt);
        }
    }

    /// Whether a wait can be interrupted at all.
    pub fn is_armed(&self) -> (b: bool)
        ensures
            b == (self.event() is Some),
    {
        self.event.is_some()
    }

    /// The events to wait for: the one asked about, and the kill event where there is one.
    pub fn waits_for(&self, event: i32) -> (events: Vec<i32>)
        ensures
            events@ == waited_for(self.event(), event),
    {
        let mut events: Vec<i32> = Vec::new();
        events.push(event);
        match self.event {
            Some(k) => {
                events.push(k);
            },
            None => {},
        }
        assert(events@ =~= waited_for(self.event(), event));
        events
    }

    /// What a wait comes to, given which of the two events are signaled. `None`: wait on.
    /// `Ready` takes the event; `Killed` takes neither.
    pub fn wait_or_kill(&self, ready: bool, killed: bool) -> (w: Option<Wakeup>)
        ensures
            w == wakeup(self.event() is Some, ready, killed),
    {
        if self.event.is_some() && killed {
            Some(Wakeup::Killed)
        } else if ready {
            Some(Wakeup::Ready)
        } else {
            None
        }
    }
}

/// A kill ends every wait that can be interrupted, whatever else is signaled; and without one
/// nothing but the event itself does.
pub proof fn law_a_kill_wins(ready: bool, killed: bool)
    ensures
        wakeup(true, ready, true) == Some(Wakeup::Killed),
        wakeup(false, ready, killed) == wakeup(false, ready, !killed),
        wakeup(true, ready, false) == wakeup(false, ready, false),
        wakeup(true, ready, killed) is None <==> !ready && !killed,
{
}

/// A wait ends with what ended it: it is killed only where it can be and was, and ready only where
/// the event happened.
pub proof fn law_a_wait_ends_with_what_ended_it(armed: bool, ready: bool, killed: bool)
    ensures
        wakeup(armed, ready, killed) == Some(Wakeup::Killed) ==> armed && killed,
        wakeup(armed, ready, killed) == Some(Wakeup::Ready) ==> ready,
        ready && !killed ==> wakeup(armed, ready, killed) == Some(Wakeup::Ready),
        ready && !armed ==> wakeup(armed, ready, killed) == Some(Wakeup::Ready),
        wakeup(armed, ready, killed) is None ==> !ready,
{
}

/// A slot keeps the first kill event that it was given, and a wait is for that one too.
pub proof fn law_the_first_kill_event_stays(slot: Option<i32>, first: i32, second: i32, event: i32)
    ensures
        armed_with(None, first) == Some(first),
        armed_with(armed_with(slot, first), second) == armed_with(slot, first),
        waited_for(slot, event).contains(event),
        slot matches Some(k) ==> waited_for(slot, event).contains(k) && waited_for(slot, event).len()
            == 2,
        slot is None ==> waited_for(slot, event).len() == 1,
        waited_for(slot, event)[0] == event,
{
    assert(waited_for(slot, event)[0] == event);
    if let Some(k) = slot {
        assert(waited_for(slot, event)[1] == k);
    }
}

} // verus!
