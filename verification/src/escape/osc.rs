//! OSC (Operating System Command) sequence parser.
//!
//! Handles parsing after the router has consumed `ESC ]`.
//! Accumulates payload bytes until BEL (0x07) terminates.
//! ST (ESC \) termination is handled by the router.
//! Only produces events for query sequences (payload ends with `?`).

use vstd::prelude::*;

verus! {

/// The number of bytes that a payload may have.
pub const MAX_PAYLOAD: usize = 256;

/// What a byte, or the end of a sequence, comes to.
#[derive(Debug, Clone, Copy, PartialEq, Eq, Structural)]
pub enum OscResult {
    Pending,
    /// Payload is a query (ends with `?`).
    Complete,
    Reject,
}

/// `byte` is a control character: one of C0 or DEL.
pub open spec fn is_control(byte: u8) -> bool {
    byte <= 0x1f || byte == 0x7f
}

/// `payload` is a query: it ends with `?`.
pub open spec fn is_query(payload: Seq<u8>) -> bool {
    payload.len() > 0 && payload.last() == 0x3f
}

/// What the end of a sequence with this payload comes to.
pub open spec fn end_result(payload: Seq<u8>) -> OscResult {
    if is_query(payload) {
        OscResult::Complete
    } else {
        OscResult::Reject
    }
}

/// What `byte` comes to behind `payload`: BEL ends the sequence, a control
/// character or a byte too many rejects it, any other byte belongs to it.
pub open spec fn feed_result(payload: Seq<u8>, byte: u8) -> OscResult {
    if byte == 0x07 {
        end_result(payload)
    } else if is_control(byte) || payload.len() >= MAX_PAYLOAD {
        OscResult::Reject
    } else {
        OscResult::Pending
    }
}

/// The payload after `byte`: only a byte that leaves the sequence pending is added.
pub open spec fn feed_payload(payload: Seq<u8>, byte: u8) -> Seq<u8> {
    if feed_result(payload, byte) == OscResult::Pending {
        payload.push(byte)
    } else {
        payload
    }
}

/// Accumulates the payload of an OSC sequence.
pub struct OscParser {
    payload: Vec<u8>,
}

impl OscParser {
    /// The bytes of the sequence so far.
    pub closed spec fn payload(&self) -> Seq<u8> {
        self.payload@
    }

    /// The payload is within its limit and holds no control character.
    pub open spec fn wf(&self) -> bool {
        &&& self.payload().len() <= MAX_PAYLOAD
        &&& forall|i: int|
            0 <= i < self.payload().len() ==> !is_control(#[trigger] self.payload()[i])
    }

    pub fn new() -> (res: Self)
        ensures
            res.wf(),
            res.payload() == Seq::<u8>::empty(),
    {
        Self { payload: Vec::new() }
    }

    /// Takes the next byte of the sequence.
    pub fn feed(&mut self, byte: u8) -> (res: OscResult)
        ensures
            res == feed_result(old(self).payload(), byte),
            final(self).payload() == feed_payload(old(self).payload(), byte),
            old(self).wf() ==> final(self).wf(),
    {
        match byte {
            0x07 => self.finish(),
            0x00..=0x06 | 0x08..=0x1f | 0x7f => OscResult::Reject,
            _ => {
                if self.payload.len() >= MAX_PAYLOAD {
                    OscResult::Reject
                } else {
                    self.payload.push(byte);
                    OscResult::Pending
                }
            },
        }
    }

    /// Check if the accumulated payload is a query (ends with `?`).
    pub fn finish(&self) -> (res: OscResult)
        ensures
            res == end_result(self.payload()),
    {
        let len: usize = self.payload.len();
        if len > 0 && self.payload[len - 1] == 0x3f {
            OscResult::Complete
        } else {
            OscResult::Reject
        }
    }

    /// Forgets the payload.
    pub fn reset(&mut self)
        ensures
            final(self).wf(),
            final(self).payload() == Seq::<u8>::empty(),
    {
        self.payload.clear();
    }
}

/// The payload after all of `bytes` were fed behind `payload`.
pub open spec fn fed_payload(payload: Seq<u8>, bytes: Seq<u8>) -> Seq<u8>
    decreases bytes.len(),
{
    if bytes.len() == 0 {
        payload
    } else {
        feed_payload(fed_payload(payload, bytes.drop_last()), bytes.last())
    }
}

/// Bytes without control characters are all pending, and make up the payload, as
/// long as they are within the limit.
pub proof fn law_payload_accumulates(bytes: Seq<u8>)
    requires
        bytes.len() <= MAX_PAYLOAD,
        forall|i: int| 0 <= i < bytes.len() ==> 0x20 <= #[trigger] bytes[i] && bytes[i] != 0x7f,
    ensures
        fed_payload(seq![], bytes) == bytes,
        forall|i: int|
            0 <= i < bytes.len() ==> feed_result(
                #[trigger] fed_payload(seq![], bytes.take(i)),
                bytes[i],
            ) == OscResult::Pending,
    decreases bytes.len(),
{
    assert forall|i: int| 0 <= i < bytes.len() implies feed_result(
        #[trigger] fed_payload(seq![], bytes.take(i)),
        bytes[i],
    ) == OscResult::Pending by {
        law_payload_accumulates(bytes.take(i));
    }
    if bytes.len() > 0 {
        law_payload_accumulates(bytes.drop_last());
        assert(bytes.drop_last().push(bytes.last()) =~= bytes);
    }
}

/// A sequence that is longer than the limit is rejected at the first byte over it.
pub proof fn law_long_payload_is_rejected(bytes: Seq<u8>, byte: u8)
    requires
        bytes.len() == MAX_PAYLOAD,
        forall|i: int| 0 <= i < bytes.len() ==> 0x20 <= #[trigger] bytes[i] && bytes[i] != 0x7f,
        byte != 0x07,
    ensures
        feed_result(fed_payload(seq![], bytes), byte) == OscResult::Reject,
{
    law_payload_accumulates(bytes);
}

/// A sequence that was fed to a new parser and ended with BEL is complete exactly
/// where it is a query; so is one that the router ended.
pub proof fn law_only_queries_complete(bytes: Seq<u8>)
    requires
        bytes.len() <= MAX_PAYLOAD,
        forall|i: int| 0 <= i < bytes.len() ==> 0x20 <= #[trigger] bytes[i] && bytes[i] != 0x7f,
    ensures
        feed_result(fed_payload(seq![], bytes), 0x07) == OscResult::Complete <==> is_query(bytes),
        end_result(fed_payload(seq![], bytes)) == OscResult::Complete <==> is_query(bytes),
{
    law_payload_accumulates(bytes);
}

/// What a byte comes to, behind any payload: BEL completes the sequence exactly where the
/// payload ends with `?`; a byte that is no control character is pending, and added,
/// exactly where the payload is below 256 bytes; every other byte is rejected. A byte that
/// is not pending changes nothing.
pub proof fn law_byte(payload: Seq<u8>, byte: u8)
    ensures
        feed_result(payload, byte) == OscResult::Complete <==> byte == 0x07 && payload.len() > 0
            && payload[payload.len() - 1] == 0x3f,
        feed_result(payload, byte) == OscResult::Pending <==> 0x20 <= byte && byte != 0x7f
            && payload.len() < 256,
        feed_result(payload, byte) == OscResult::Pending ==> feed_payload(payload, byte)
            == payload + seq![byte],
        feed_result(payload, byte) != OscResult::Pending ==> feed_payload(payload, byte) == payload,
        end_result(payload) == feed_result(payload, 0x07),
{
    assert(payload.push(byte) =~= payload + seq![byte]);
}

/// The payload after any bytes is, of those that are no control characters, the first up
/// to the limit: rejected bytes leave no trace.
pub proof fn law_rejected_bytes_leave_no_trace(bytes: Seq<u8>, byte: u8, more: Seq<u8>)
    requires
        byte <= 0x1f || byte == 0x7f,
    ensures
        fed_payload(seq![], bytes + seq![byte] + more) == fed_payload(seq![], bytes + more),
    decreases more.len(),
{
    let (with, without) = (bytes + seq![byte] + more, bytes + more);
    if more.len() == 0 {
        assert(with.drop_last() =~= bytes);
        assert(without =~= bytes);
    } else {
        law_rejected_bytes_leave_no_trace(bytes, byte, more.drop_last());
        assert(with.drop_last() =~= bytes + seq![byte] + more.drop_last());
        assert(without.drop_last() =~= bytes + more.drop_last());
    }
}

/// Whatever bytes are fed, the payload stays within its limit and free of control
/// characters.
pub proof fn law_payload_stays_valid(payload: Seq<u8>, bytes: Seq<u8>)
    requires
        payload.len() <= MAX_PAYLOAD,
        forall|i: int| 0 <= i < payload.len() ==> !is_control(#[trigger] payload[i]),
    ensures
        fed_payload(payload, bytes).len() <= MAX_PAYLOAD,
        forall|i: int|
            0 <= i < fed_payload(payload, bytes).len() ==> !is_control(
                #[trigger] fed_payload(payload, bytes)[i],
            ),
    decreases bytes.len(),
{
    if bytes.len() > 0 {
        law_payload_stays_valid(payload, bytes.drop_last());
    }
}

} // verus!
