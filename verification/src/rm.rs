//! The one call made to the resource manager: accepting a memory parcel that the host shared.
//!
//! The exchange is a message and its reply over a pair of queues. [`Rm::mem_accept`] builds the
//! message; [`MemAccept`] takes what the queues answered and says when the exchange is over.
use crate::bytes;
use vstd::prelude::*;

verus! {

/// The hypercall that sends a message.
pub const GH_HCALL_MSGQ_SEND: u64 = 0xC600_801B;

/// The hypercall that receives one.
pub const GH_HCALL_MSGQ_RECV: u64 = 0xC600_801C;

/// Asks that the message be delivered at once.
pub const GH_MSGQ_TX_PUSH: u64 = 1;

/// The hypercall succeeded.
pub const GH_ERROR_OK: u64 = 0;

/// The version of the protocol.
pub const RPC_API: u8 = 0x21;

/// A message that asks.
pub const RPC_TYPE_REQUEST: u8 = 0x01;

/// A message that answers.
pub const RPC_TYPE_REPLY: u8 = 0x02;

/// The message that accepts a parcel.
pub const RPC_MEM_ACCEPT: u32 = 0x5100_0011;

/// The parcel is ordinary memory.
pub const MEM_TYPE_NORMAL: u8 = 0;

/// The parcel was shared, not lent.
pub const TRANS_TYPE_SHARE: u8 = 2;

/// Map the parcel as one range, and have done with it.
pub const ACCEPT_CONTIGUOUS_DONE: u8 = 0x90;

/// The longest message a queue carries.
pub const MSGQ_MSG_SIZE: usize = 240;

/// The shortest reply that can hold an answer.
pub const REPLY_MIN: u64 = 12;

/// How many times a reply is looked for.
pub const REPLY_SPINS: u32 = 200_000_000;

/// Why a parcel was not accepted.
#[derive(Clone, Copy, Debug, PartialEq, Eq, Structural)]
pub enum Error {
    /// The queue refused the message, with the hypercall's error.
    Send(u64),
    /// The resource manager said no, with its code.
    Refused(u32),
    /// No reply came.
    Timeout,
}

/// The message that accepts parcel `handle` at `gpa`.
pub open spec fn accept_message(seq: u16, handle: u32, gpa: u64, size: u64) -> Seq<u8> {
    seq![RPC_API, RPC_TYPE_REQUEST] + bytes::le_bytes(seq as int, 2) + bytes::le_bytes(
        RPC_MEM_ACCEPT as int,
        4,
    ) + bytes::le_bytes(handle as int, 4) + seq![
        MEM_TYPE_NORMAL,
        TRANS_TYPE_SHARE,
        ACCEPT_CONTIGUOUS_DONE,
        0u8,
    ] + bytes::le_bytes(0, 4) + bytes::le_bytes(0, 4) + bytes::le_bytes(1, 2) + bytes::le_bytes(
        0,
        2,
    ) + bytes::le_bytes(gpa as int, 8) + bytes::le_bytes(size as int, 8) + bytes::le_bytes(0, 2)
        + bytes::le_bytes(0, 2)
}

/// What a message answers to the request numbered `seq`: the code, or nothing where it is not
/// the answer to that request.
pub open spec fn answer(seq: u16, msg: Seq<u8>) -> Option<u32> {
    if msg[1] % 4 == RPC_TYPE_REPLY && bytes::from_le(msg.subrange(2, 4)) == seq && bytes::from_le(
        msg.subrange(4, 8),
    ) == RPC_MEM_ACCEPT {
        Some(bytes::from_le(msg.subrange(8, 12)) as u32)
    } else {
        None
    }
}

/// A connection to the resource manager: its two queues, and how many requests were made.
pub struct Rm {
    tx: u64,
    rx: u64,
    seq: u16,
}

/// How far an exchange has come.
#[derive(Clone, Copy, Debug, PartialEq, Eq, Structural)]
pub enum Progress {
    /// Look for a reply.
    Waiting,
    /// The parcel is accepted.
    Accepted,
    /// It is not.
    Failed(Error),
}

/// How far an exchange has come once the message was sent.
pub open spec fn sent_of(err: u64) -> Progress {
    if err != GH_ERROR_OK {
        Progress::Failed(Error::Send(err))
    } else {
        Progress::Waiting
    }
}

/// How far it has come after a reply was looked for so many times, by what the last look gave.
pub open spec fn progress_of(seq: u16, spins: int, err: u64, got: u64, msg: Seq<u8>) -> Progress {
    match (if err != GH_ERROR_OK || got < REPLY_MIN {
        None
    } else {
        answer(seq, msg)
    }) {
        Some(code) => if code == 0 {
            Progress::Accepted
        } else {
            Progress::Failed(Error::Refused(code))
        },
        None => if spins == REPLY_SPINS {
            Progress::Failed(Error::Timeout)
        } else {
            Progress::Waiting
        },
    }
}

/// An exchange under way.
pub struct MemAccept {
    seq: u16,
    spins: u32,
    message: Vec<u8>,
}

impl Rm {
    /// The queue to send on.
    pub closed spec fn tx(&self) -> u64 {
        self.tx
    }

    /// The queue to receive from.
    pub closed spec fn rx(&self) -> u64 {
        self.rx
    }

    /// The number of the last request.
    pub closed spec fn seq(&self) -> u16 {
        self.seq
    }

    /// A connection over two queues on which nothing was asked yet.
    pub fn new(tx: u64, rx: u64) -> (rm: Self)
        ensures
            rm.tx() == tx,
            rm.rx() == rx,
            rm.seq() == 0,
    {
        Rm { tx, rx, seq: 0 }
    }

    /// The queue to send on.
    pub fn send_queue(&self) -> (q: u64)
        ensures
            q == self.tx(),
    {
        self.tx
    }

    /// The queue to receive from.
    pub fn receive_queue(&self) -> (q: u64)
        ensures
            q == self.rx(),
    {
        self.rx
    }

    /// Begins to take the shared parcel `handle` at a fixed address.
    ///
    /// One entry covers the whole of it, mapped as one range: the guest cannot know how the
    /// pages of the parcel are scattered. No rights are listed: those the host asked for hold.
    pub fn mem_accept(&mut self, handle: u32, gpa: u64, size: u64) -> (exchange: MemAccept)
        ensures
            final(self).tx() == old(self).tx(),
            final(self).rx() == old(self).rx(),
            final(self).seq() == (old(self).seq() + 1) % 0x1_0000,
            exchange.seq() == final(self).seq(),
            exchange.spins() == 0,
            exchange.message() == accept_message(final(self).seq(), handle, gpa, size),
            exchange.message().len() == 48,
    {
        self.seq = self.seq.wrapping_add(1);
        let mut m: Vec<u8> = Vec::new();
        m.push(RPC_API);
        m.push(RPC_TYPE_REQUEST);
        assert(m@ =~= seq![RPC_API, RPC_TYPE_REQUEST]);
        bytes::push_le(&mut m, self.seq as u64, 2);
        bytes::push_le(&mut m, RPC_MEM_ACCEPT as u64, 4);
        bytes::push_le(&mut m, handle as u64, 4);
        let ghost head = m@;
        m.push(MEM_TYPE_NORMAL);
        m.push(TRANS_TYPE_SHARE);
        m.push(ACCEPT_CONTIGUOUS_DONE);
        m.push(0);
        assert(m@ =~= head + seq![MEM_TYPE_NORMAL, TRANS_TYPE_SHARE, ACCEPT_CONTIGUOUS_DONE, 0u8]);
        bytes::push_le(&mut m, 0, 4);
        bytes::push_le(&mut m, 0, 4);
        bytes::push_le(&mut m, 1, 2);
        bytes::push_le(&mut m, 0, 2);
        bytes::push_le(&mut m, gpa, 8);
        bytes::push_le(&mut m, size, 8);
        bytes::push_le(&mut m, 0, 2);
        bytes::push_le(&mut m, 0, 2);
        proof {
            reveal_with_fuel(bytes::le_bytes, 9);
        }
        MemAccept { seq: self.seq, spins: 0, message: m }
    }
}

impl MemAccept {
    /// The number of the request.
    pub closed spec fn seq(&self) -> u16 {
        self.seq
    }

    /// How many times a reply was looked for.
    pub closed spec fn spins(&self) -> u32 {
        self.spins
    }

    /// The message to send.
    pub closed spec fn message(&self) -> Seq<u8> {
        self.message@
    }

    /// The message to send.
    pub fn bytes(&self) -> (m: &[u8])
        ensures
            m@ == self.message(),
    {
        self.message.as_slice()
    }

    /// Takes the answer to the send.
    pub fn on_sent(&self, err: u64) -> (p: Progress)
        ensures
            p == sent_of(err),
    {
        if err != GH_ERROR_OK {
            Progress::Failed(Error::Send(err))
        } else {
            Progress::Waiting
        }
    }

    /// Takes the answer to one receive: its error, how many bytes came, and the buffer they came
    /// in. Anything but the answer to this request is passed over.
    pub fn on_received(&mut self, err: u64, got: u64, msg: &[u8]) -> (p: Progress)
        requires
            old(self).spins() < REPLY_SPINS,
            msg@.len() >= REPLY_MIN,
        ensures
            final(self).seq() == old(self).seq(),
            final(self).message() == old(self).message(),
            final(self).spins() == old(self).spins() + 1,
            p == progress_of(
                old(self).seq(),
                final(self).spins() as int,
                err,
                got,
                msg@,
            ),
    {
        self.spins = self.spins + 1;
        if err == GH_ERROR_OK && got >= REPLY_MIN && msg[1] % 4 == RPC_TYPE_REPLY && bytes::read_le(
            msg,
            2,
            2,
        ) == self.seq as u64 && bytes::read_le(msg, 4, 4) == RPC_MEM_ACCEPT as u64 {
            proof {
                reveal_with_fuel(bytes::pow256, 5);
            }
            let code: u64 = bytes::read_le(msg, 8, 4);
            if code == 0 {
                return Progress::Accepted;
            }
            return Progress::Failed(Error::Refused(code as u32));
        }
        if self.spins == REPLY_SPINS {
            Progress::Failed(Error::Timeout)
        } else {
            Progress::Waiting
        }
    }
}

/// A reply as the resource manager writes it.
pub open spec fn reply(kind: u8, seq: u16, msg_id: u32, code: u32) -> Seq<u8> {
    seq![RPC_API, kind] + bytes::le_bytes(seq as int, 2) + bytes::le_bytes(msg_id as int, 4)
        + bytes::le_bytes(code as int, 4)
}

/// A reply to the request is read as its code; one to another request, of another kind or to
/// another message is no answer.
pub proof fn law_only_the_reply_answers(seq: u16, kind: u8, seq2: u16, msg_id: u32, code: u32)
    ensures
        answer(seq, reply(kind, seq2, msg_id, code)) == if kind % 4 == RPC_TYPE_REPLY && seq2 == seq
            && msg_id == RPC_MEM_ACCEPT {
            Some(code)
        } else {
            None
        },
{
    let m = reply(kind, seq2, msg_id, code);
    reveal_with_fuel(bytes::pow256, 5);
    bytes::law_le_round_trip(seq2 as int, 2);
    bytes::law_le_round_trip(msg_id as int, 4);
    bytes::law_le_round_trip(code as int, 4);
    assert(m.subrange(2, 4) =~= bytes::le_bytes(seq2 as int, 2));
    assert(m.subrange(4, 8) =~= bytes::le_bytes(msg_id as int, 4));
    assert(m.subrange(8, 12) =~= bytes::le_bytes(code as int, 4));
    assert(m[1] == kind);
}

/// Where each part of the message stands, and what it is: the header, the parcel, what kind of
/// memory it is and how it was given, and one entry, for the whole range at its address.
pub proof fn law_a_message_asks_for_the_parcel(seq: u16, handle: u32, gpa: u64, size: u64)
    ensures
        ({
            let m = accept_message(seq, handle, gpa, size);
            &&& m.len() == 48
            &&& m[0] == 0x21 && m[1] == 1
            &&& m[2] + 256 * m[3] == seq
            &&& m[4] == 0x11 && m[5] == 0 && m[6] == 0 && m[7] == 0x51
            &&& m[8] + 256 * m[9] + 65536 * m[10] + 16777216 * m[11] == handle
            &&& m[12] == 0 && m[13] == 2 && m[14] == 0x90 && m[15] == 0
            &&& forall|i: int| 16 <= i < 24 ==> #[trigger] m[i] == 0
            &&& m[24] == 1 && m[25] == 0 && m[26] == 0 && m[27] == 0
            &&& bytes::from_le(m.subrange(28, 36)) == gpa
            &&& bytes::from_le(m.subrange(36, 44)) == size
            &&& forall|i: int| 44 <= i < 48 ==> #[trigger] m[i] == 0
        }),
{
    let m = accept_message(seq, handle, gpa, size);
    assert(bytes::pow256(8) == 0x1_0000_0000_0000_0000) by {
        reveal_with_fuel(bytes::pow256, 9);
    }
    bytes::law_le_round_trip(gpa as int, 8);
    bytes::law_le_round_trip(size as int, 8);
    let low = |x: int, n: nat| bytes::le_bytes(x, n);
    assert(low(0, 4) == seq![0u8, 0u8, 0u8, 0u8] && low(0, 2) == seq![0u8, 0u8] && low(1, 2)
        == seq![1u8, 0u8] && low(0x5100_0011, 4) == seq![0x11u8, 0u8, 0u8, 0x51u8] && low(
        seq as int,
        2,
    ).len() == 2 && low(seq as int, 2)[0] + 256 * low(seq as int, 2)[1] == seq && low(
        handle as int,
        4,
    ).len() == 4 && low(handle as int, 4)[0] + 256 * low(handle as int, 4)[1] + 65536 * low(
        handle as int,
        4,
    )[2] + 16777216 * low(handle as int, 4)[3] == handle) by {
        reveal_with_fuel(bytes::le_bytes, 5);
        assert(low(0, 4) =~= seq![0u8, 0u8, 0u8, 0u8]);
        assert(low(0, 2) =~= seq![0u8, 0u8]);
        assert(low(1, 2) =~= seq![1u8, 0u8]);
        assert(low(0x5100_0011, 4) =~= seq![0x11u8, 0u8, 0u8, 0x51u8]);
    }
    assert(m.subrange(28, 36) =~= bytes::le_bytes(gpa as int, 8));
    assert(m.subrange(36, 44) =~= bytes::le_bytes(size as int, 8));
}

/// A message is an answer by what stands in it: that it is a reply, to what was asked, under the
/// number it was asked by. The code stands behind that.
pub proof fn law_an_answer_is_read_where_it_stands(seq: u16, msg: Seq<u8>)
    requires
        msg.len() >= 12,
    ensures
        answer(seq, msg) is Some <==> msg[1] % 4 == 2 && msg[2] + 256 * msg[3] == seq && msg[4]
            == 0x11 && msg[5] == 0 && msg[6] == 0 && msg[7] == 0x51,
        answer(seq, msg) matches Some(code) ==> code == msg[8] + 256 * msg[9] + 65536 * msg[10]
            + 16777216 * msg[11],
{
    lemma_two(msg, 2);
    lemma_four(msg, 4);
    lemma_four(msg, 8);
}

proof fn lemma_two(msg: Seq<u8>, at: int)
    requires
        0 <= at,
        at + 2 <= msg.len(),
    ensures
        bytes::from_le(msg.subrange(at, at + 2)) == msg[at] + 256 * msg[at + 1],
{
    reveal_with_fuel(bytes::from_le, 3);
    let s = msg.subrange(at, at + 2);
    assert(s.drop_first()[0] == msg[at + 1]);
}

proof fn lemma_four(msg: Seq<u8>, at: int)
    requires
        0 <= at,
        at + 4 <= msg.len(),
    ensures
        bytes::from_le(msg.subrange(at, at + 4)) == msg[at] + 256 * msg[at + 1] + 65536 * msg[at + 2]
            + 16777216 * msg[at + 3],
{
    reveal_with_fuel(bytes::from_le, 5);
    let s = msg.subrange(at, at + 4);
    assert(s.drop_first()[0] == msg[at + 1]);
    assert(s.drop_first().drop_first()[0] == msg[at + 2]);
    assert(s.drop_first().drop_first().drop_first()[0] == msg[at + 3]);
}

/// A parcel is accepted by an answer of zero, and by nothing else; any other answer refuses it by its
/// code. Until there is one, it is waited for, up to the last look. What could not be sent is failed
/// by the error that came.
pub proof fn law_only_zero_accepts(seq: u16, spins: int, err: u64, got: u64, msg: Seq<u8>)
    requires
        0 < spins <= 200_000_000,
        msg.len() >= 12,
    ensures
        ({
            let read = err == 0 && got >= 12 && answer(seq, msg) is Some;
            let p = progress_of(seq, spins, err, got, msg);
            &&& p is Accepted <==> read && answer(seq, msg) == Some(0u32)
            &&& p matches Progress::Failed(Error::Refused(code)) ==> read && answer(seq, msg)
                == Some(code) && code != 0
            &&& p == Progress::Failed(Error::Timeout) <==> !read && spins == 200_000_000
            &&& p is Waiting <==> !read && spins < 200_000_000
        }),
        sent_of(err) is Waiting <==> err == 0,
        err != 0 ==> sent_of(err) == Progress::Failed(Error::Send(err)),
{
}

} // verus!
