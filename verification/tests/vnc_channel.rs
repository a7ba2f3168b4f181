use droidvm::vnc_channel::{header, refusal, unit, Channel, Refusal, Unit, HEARTBEAT_INTERVAL_MS};

const CLIENT: u64 = 7;

/// A channel whose client's connection is a buffer. A connection that is closed takes no bytes.
struct Connection {
    channel: Channel,
    wire: Vec<u8>,
    read: usize,
    closed: bool,
}

/// A channel with a client that is served.
fn live_channel() -> Connection {
    let mut channel = Channel::new();
    channel.promote(CLIENT, 0);
    Connection { channel, wire: Vec::new(), read: 0, closed: false }
}

impl Connection {
    fn write(&mut self, what: Unit, payload: &[u8], now_ms: u64) {
        let client = match self.channel.live() {
            Some(client) => client,
            None => return,
        };
        if self.closed {
            self.channel.drop_live(client);
            return;
        }
        self.wire.extend_from_slice(&unit(payload));
        self.channel.on_written(what, now_ms);
    }

    fn heartbeat_if_due(&mut self, now_ms: u64) {
        if self.channel.heartbeat_due(now_ms) {
            self.write(Unit::Heartbeat, &[], now_ms);
        }
    }

    fn send_frame(&mut self, payload: &[u8], now_ms: u64) {
        self.write(Unit::Frame, payload, now_ms);
    }

    fn reap_if_closed(&mut self) {
        if let Some(client) = self.channel.live() {
            if self.closed {
                self.channel.drop_live(client);
            }
        }
    }

    fn read_frame(&mut self) -> Vec<u8> {
        let at = self.read;
        let length = u32::from_le_bytes([
            self.wire[at],
            self.wire[at + 1],
            self.wire[at + 2],
            self.wire[at + 3],
        ]) as usize;
        self.read = at + 4 + length;
        self.wire[at + 4..at + 4 + length].to_vec()
    }

    fn quiet(&self) -> bool {
        self.read == self.wire.len()
    }
}

#[test]
fn a_heartbeat_is_a_length_of_zero_and_nothing_else() {
    let mut c = live_channel();
    let interval = HEARTBEAT_INTERVAL_MS;

    c.heartbeat_if_due(0);
    c.heartbeat_if_due(interval - 1);
    assert_eq!(c.channel.heartbeats(), 0);
    assert!(c.quiet());

    c.heartbeat_if_due(interval);
    assert_eq!(c.channel.heartbeats(), 1);
    assert!(c.read_frame().is_empty());
    assert!(c.quiet());
    assert_eq!(c.wire, vec![0, 0, 0, 0]);

    let sent_at = c.channel.last_write_ms();
    c.heartbeat_if_due(sent_at + interval - 1);
    assert_eq!(c.channel.heartbeats(), 1);
    c.heartbeat_if_due(sent_at + interval);
    assert_eq!(c.channel.heartbeats(), 2);
}

#[test]
fn a_heartbeat_is_not_a_frame_in_any_of_the_accounting() {
    let mut c = live_channel();
    c.heartbeat_if_due(HEARTBEAT_INTERVAL_MS);
    assert!(c.read_frame().is_empty());

    assert_eq!(c.channel.written(), 0);
    assert_eq!(c.channel.heartbeats(), 1);
    assert!(c.channel.has_client());
    assert!(c.channel.is_wanted());
}

#[test]
fn a_payload_frame_is_length_prefixed_and_defers_the_next_beat() {
    let mut c = live_channel();
    let interval = HEARTBEAT_INTERVAL_MS;
    let coded = b"\x00\x00\x00\x01\x65 a coded picture".to_vec();

    c.send_frame(&coded, 1_234);
    assert_eq!(c.read_frame(), coded);
    assert_eq!(c.channel.written(), 1);

    let sent_at = c.channel.last_write_ms();
    assert_eq!(sent_at, 1_234);
    c.heartbeat_if_due(sent_at + interval - 1);
    assert_eq!(c.channel.heartbeats(), 0);
    assert!(c.quiet());

    c.heartbeat_if_due(sent_at + interval);
    assert_eq!(c.channel.heartbeats(), 1);
    assert!(c.read_frame().is_empty());
}

#[test]
fn a_connection_waiting_for_its_first_encoder_is_never_written_to() {
    let mut channel = Channel::new();
    assert!(channel.park(CLIENT));
    let mut c = Connection { channel, wire: Vec::new(), read: 0, closed: false };

    assert!(c.channel.is_wanted());
    assert!(!c.channel.has_client());
    c.heartbeat_if_due(u64::MAX);
    assert_eq!(c.channel.heartbeats(), 0);
    assert!(c.quiet());
}

#[test]
fn a_closed_client_is_reaped_without_a_frame_having_to_flow() {
    let mut c = live_channel();
    c.reap_if_closed();
    assert!(c.channel.has_client());
    c.closed = true;
    c.reap_if_closed();
    assert!(!c.channel.has_client());
    assert!(!c.channel.is_wanted());
    assert!(c.quiet());
}

#[test]
fn a_failed_write_takes_the_client_away() {
    let mut c = live_channel();
    c.closed = true;
    for _ in 0..40 {
        c.send_frame(b"\x00\x00\x00\x01\x65 nobody is listening", 1);
        if !c.channel.has_client() {
            break;
        }
    }
    assert!(!c.channel.has_client());
    assert!(!c.channel.is_wanted());
    assert_eq!(c.channel.written(), 0);
}

#[test]
fn every_refusal_is_a_stable_token_and_a_human_tail() {
    for (token, reason) in [
        ("no-encoder", Refusal::NoEncoder.reason()),
        ("busy", Refusal::Busy.reason()),
        ("no-frame", Refusal::NoFrame.reason()),
    ] {
        assert!(reason.starts_with(&format!("{token}: ")), "{}", reason);
        assert_eq!(reason.split(':').next(), Some(token));
        assert_eq!(
            reason
                .split_whitespace()
                .next()
                .map(|word| word.trim_end_matches(':')),
            Some(token)
        );
        assert!(!token.contains(char::is_whitespace));
        assert!(!reason.contains('\0'));
        assert!(reason[token.len() + 2..].len() > 8, "{}", reason);
    }
}

#[test]
fn a_refusal_is_the_magic_the_reason_and_a_nul() {
    let said = refusal(Refusal::Busy);
    let mut expected = b"DVHX".to_vec();
    expected.extend_from_slice(Refusal::Busy.reason().as_bytes());
    expected.push(0);
    assert_eq!(said, expected);
}

#[test]
fn a_stream_begins_with_its_size_and_its_parameter_sets() {
    assert_eq!(header(1920, 1080, None), b"DVH2\x80\x07\x38\x04".to_vec());
    assert_eq!(
        header(0x1_0002, 3, Some(&[9, 8])),
        b"DVH2\x02\x00\x03\x00\x02\x00\x00\x00\x09\x08".to_vec()
    );
    assert_ne!(header(1, 1, None)[..4], refusal(Refusal::NoFrame)[..4]);
}

#[test]
fn a_receiver_finds_the_second_unit_behind_the_first() {
    let mut c = live_channel();
    c.send_frame(&[1, 2, 3], 5);
    c.heartbeat_if_due(5 + HEARTBEAT_INTERVAL_MS);
    c.send_frame(&[4], 6_000);
    assert_eq!(c.read_frame(), vec![1, 2, 3]);
    assert!(c.read_frame().is_empty());
    assert_eq!(c.read_frame(), vec![4]);
    assert!(c.quiet());
}

#[test]
fn a_late_failure_does_not_take_the_next_client_away() {
    let mut channel = Channel::new();
    channel.promote(1, 0);
    assert!(channel.drop_live(1));
    channel.promote(2, 10);
    assert!(!channel.drop_live(1));
    assert_eq!(channel.live(), Some(2));
    assert_eq!(channel.last_write_ms(), 10);
}

#[test]
fn one_client_at_a_time() {
    let mut channel = Channel::new();
    assert!(channel.park(1));
    assert!(!channel.park(2));
    assert_eq!(channel.take_pending(), Some(1));
    channel.promote(1, 3);
    assert!(!channel.park(3));
    assert_eq!(channel.disconnect(), (Some(1), None));
    assert!(!channel.is_wanted());
    assert!(channel.park(4));
    assert_eq!(channel.disconnect(), (None, Some(4)));
    assert_eq!(channel.take_pending(), None);
}
