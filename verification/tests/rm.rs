use droidvm::rm::{Error, Progress, Rm, GH_ERROR_OK};

fn reply(kind: u8, seq: u16, id: u32, code: u32) -> Vec<u8> {
    let mut m = vec![0x21, kind];
    m.extend_from_slice(&seq.to_le_bytes());
    m.extend_from_slice(&id.to_le_bytes());
    m.extend_from_slice(&code.to_le_bytes());
    m
}

#[test]
fn the_request_as_it_is_sent() {
    let mut rm = Rm::new(3, 4);
    assert_eq!((rm.send_queue(), rm.receive_queue()), (3, 4));
    let exchange = rm.mem_accept(0x0a0b_0c0d, 0x1_8000_0000, 0x20_0000);
    let mut want = vec![0x21, 0x01, 1, 0, 0x11, 0, 0, 0x51];
    want.extend_from_slice(&[0x0d, 0x0c, 0x0b, 0x0a, 0, 2, 0x90, 0]);
    want.extend_from_slice(&[0; 8]);
    want.extend_from_slice(&[1, 0, 0, 0]);
    want.extend_from_slice(&0x1_8000_0000u64.to_le_bytes());
    want.extend_from_slice(&0x20_0000u64.to_le_bytes());
    want.extend_from_slice(&[0; 4]);
    assert_eq!(exchange.bytes(), &want[..]);
    assert_eq!(rm.mem_accept(1, 2, 3).bytes()[2..4], [2, 0]);
}

#[test]
fn a_request_that_cannot_be_sent() {
    let exchange = Rm::new(1, 2).mem_accept(1, 2, 3);
    assert_eq!(exchange.on_sent(GH_ERROR_OK), Progress::Waiting);
    assert_eq!(exchange.on_sent(60), Progress::Failed(Error::Send(60)));
}

#[test]
fn only_the_reply_to_the_request_answers_it() {
    let mut exchange = Rm::new(1, 2).mem_accept(1, 2, 3);
    let id = 0x5100_0011;
    let answer = reply(0x02, 1, id, 0);
    assert_eq!(exchange.on_received(60, 12, &answer), Progress::Waiting);
    assert_eq!(exchange.on_received(0, 11, &answer), Progress::Waiting);
    assert_eq!(exchange.on_received(0, 12, &reply(0x01, 1, id, 0)), Progress::Waiting);
    assert_eq!(exchange.on_received(0, 12, &reply(0x02, 2, id, 0)), Progress::Waiting);
    assert_eq!(exchange.on_received(0, 12, &reply(0x02, 1, 7, 0)), Progress::Waiting);
    assert_eq!(
        exchange.on_received(0, 12, &reply(0x02, 1, id, 9)),
        Progress::Failed(Error::Refused(9))
    );
    assert_eq!(exchange.on_received(0, 12, &reply(0x06, 1, id, 0)), Progress::Accepted);
    assert_eq!(exchange.on_received(0, 12, &answer), Progress::Accepted);
}

#[test]
fn a_reply_that_never_comes() {
    let mut exchange = Rm::new(1, 2).mem_accept(1, 2, 3);
    let none = vec![0; 12];
    let mut looked: u32 = 1;
    while exchange.on_received(60, 0, &none) == Progress::Waiting {
        looked += 1;
    }
    assert_eq!(looked, 200_000_000);
}
