use droidvm::kill::KillSignal;
use droidvm::kill::Wakeup;

/// An event that counts how often it was signalled.
struct Event {
    fd: i32,
    signals: u32,
}

impl Event {
    fn new(fd: i32) -> Event {
        Event { fd, signals: 0 }
    }

    fn signal(&mut self) {
        self.signals += 1;
    }

    fn is_signalled(&self) -> bool {
        self.signals > 0
    }

    fn consume(&mut self) {
        self.signals -= 1;
    }
}

/// A wait, with what is signalled when it ends. A wait that nothing would end is `None`.
fn wait(signal: &KillSignal, event: &mut Event, kill_evt: Option<&Event>) -> Option<Wakeup> {
    let watched = signal.waits_for(event.fd);
    let killed = kill_evt.map_or(false, |k| watched.contains(&k.fd) && k.is_signalled());
    let woken = signal.wait_or_kill(event.is_signalled(), killed);
    if woken == Some(Wakeup::Ready) {
        event.consume();
    }
    woken
}

#[test]
fn an_unarmed_signal_waits_for_the_event_itself() {
    let signal = KillSignal::new();
    assert!(!signal.is_armed());
    let mut event = Event::new(5);
    event.signal();
    assert_eq!(signal.waits_for(5), vec![5]);
    assert_eq!(wait(&signal, &mut event, None), Some(Wakeup::Ready));
    // It was consumed: nothing is left for a second wait.
    assert!(!event.is_signalled());
    assert_eq!(wait(&signal, &mut event, None), None);
}

#[test]
fn an_armed_signal_still_passes_the_event_on() {
    let kill_evt = Event::new(9);
    let mut signal = KillSignal::new();
    signal.arm(kill_evt.fd);
    assert!(signal.is_armed());
    let mut event = Event::new(5);
    event.signal();
    assert_eq!(wait(&signal, &mut event, Some(&kill_evt)), Some(Wakeup::Ready));
}

#[test]
fn a_kill_ends_a_wait_nothing_else_would() {
    let mut kill_evt = Event::new(9);
    let mut signal = KillSignal::new();
    signal.arm(kill_evt.fd);
    let mut event = Event::new(5);
    kill_evt.signal();
    assert_eq!(wait(&signal, &mut event, Some(&kill_evt)), Some(Wakeup::Killed));
    assert_eq!(wait(&signal, &mut event, Some(&kill_evt)), Some(Wakeup::Killed));
    assert!(kill_evt.is_signalled());
}

#[test]
fn a_kill_wakes_a_wait_that_is_already_blocked() {
    let mut kill_evt = Event::new(9);
    let mut signal = KillSignal::new();
    signal.arm(kill_evt.fd);
    let mut event = Event::new(5);
    assert_eq!(wait(&signal, &mut event, Some(&kill_evt)), None);
    kill_evt.signal();
    assert_eq!(wait(&signal, &mut event, Some(&kill_evt)), Some(Wakeup::Killed));
}

#[test]
fn a_kill_wins_a_tie() {
    let mut kill_evt = Event::new(9);
    let mut signal = KillSignal::new();
    signal.arm(kill_evt.fd);
    let mut event = Event::new(5);
    event.signal();
    kill_evt.signal();
    assert_eq!(wait(&signal, &mut event, Some(&kill_evt)), Some(Wakeup::Killed));
    assert!(event.is_signalled());
}
