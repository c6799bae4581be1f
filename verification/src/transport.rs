//! Replay protection of the peer-to-peer transport: every message carries the session's
//! random nonce and a sequence number, and a receiver accepts only the next number of its
//! session, so that a message cannot be replayed, dropped or reordered unnoticed.
use vstd::prelude::*;

use crate::connection_requests::{signature_valid, validate_encapsulated_signature};
use crate::types::{ClientId, TransportSessionNonce};

verus! {

/// The replay protection header of a message.
#[derive(Clone, Copy, Debug)]
pub struct Header {
    pub sequence_number: u64,
    pub session_nonce: TransportSessionNonce,
}

/// Whether a receiver whose session has the nonce `nonce` and whose next expected sequence
/// number is `next` accepts a message with the header `h`.
pub open spec fn header_accepted(nonce: Seq<u8>, next: u64, h: Header) -> bool {
    h.session_nonce@ == nonce && h.sequence_number == next
}

/// Checks the headers of the messages received in one session.
pub struct ReplayGuard {
    session_nonce: TransportSessionNonce,
    next_sequence: u64,
}

/// Whether two session nonces are equal.
pub fn nonces_equal(a: &TransportSessionNonce, b: &TransportSessionNonce) -> (r: bool)
    ensures
        r == (a@ == b@),
{
    let mut i: usize = 0;
    while i < 16
        invariant
            i <= 16,
            forall|j: int| 0 <= j < i ==> a@[j] == b@[j],
        decreases 16 - i,
    {
        if a[i] != b[i] {
            return false;
        }
        i = i + 1;
    }
    assert(a@ =~= b@);
    true
}

impl ReplayGuard {
    /// The nonce of the session.
    pub closed spec fn spec_nonce(&self) -> Seq<u8> {
        self.session_nonce@
    }

    /// The sequence number of the next message to accept.
    pub closed spec fn spec_next(&self) -> u64 {
        self.next_sequence
    }

    /// A guard for the session `session_nonce` whose next message has the sequence number
    /// `first` (1 for data messages, since 0 is the initiation message; 0 for
    /// acknowledgements).
    pub fn new(session_nonce: TransportSessionNonce, first: u64) -> (r: Self)
        ensures
            r.spec_nonce() == session_nonce@,
            r.spec_next() == first,
    {
        ReplayGuard { session_nonce, next_sequence: first }
    }

    /// Checks the header of a received message: it is accepted when it carries the
    /// session's nonce and the expected sequence number, which then moves on by one.
    pub fn accept(&mut self, header: &Header) -> (r: bool)
        requires
            old(self).spec_next() < u64::MAX,
        ensures
            r == header_accepted(old(self).spec_nonce(), old(self).spec_next(), *header),
            r ==> final(self).spec_next() == old(self).spec_next() + 1,
            !r ==> final(self).spec_next() == old(self).spec_next(),
            final(self).spec_nonce() == old(self).spec_nonce(),
    {
        if !nonces_equal(&header.session_nonce, &self.session_nonce)
            || header.sequence_number != self.next_sequence {
            return false;
        }
        self.next_sequence = self.next_sequence + 1;
        true
    }
}

/// A message that was accepted is refused if it comes again: the expected sequence number
/// only grows, and a header is accepted at one sequence number only.
pub proof fn lemma_no_replay(nonce: Seq<u8>, next: u64, later: u64, h: Header)
    requires
        header_accepted(nonce, next, h),
        later > next,
    ensures
        !header_accepted(nonce, later, h),
{
}

/// Numbers the messages that a sender sends in one session.
pub struct SendCounter {
    session_nonce: TransportSessionNonce,
    msg_counter: u64,
}

impl SendCounter {
    pub closed spec fn spec_counter(&self) -> u64 {
        self.msg_counter
    }

    pub closed spec fn spec_nonce(&self) -> Seq<u8> {
        self.session_nonce@
    }

    /// A counter for the session `session_nonce`, starting at 1, since 0 is reserved for the
    /// initiation message.
    pub fn new(session_nonce: TransportSessionNonce) -> (r: Self)
        ensures
            r.spec_counter() == 1,
            r.spec_nonce() == session_nonce@,
    {
        SendCounter { session_nonce, msg_counter: 1 }
    }

    /// The header of the next message to send.
    pub fn header(&self) -> (r: Header)
        ensures
            r.sequence_number == self.spec_counter(),
            r.session_nonce@ == self.spec_nonce(),
    {
        Header { sequence_number: self.msg_counter, session_nonce: self.session_nonce }
    }

    /// Whether an acknowledgement of `acknowledged` is for the message being sent.
    pub fn is_ack_for_current(&self, acknowledged: u64) -> (r: bool)
        ensures
            r == (acknowledged == self.spec_counter()),
    {
        acknowledged == self.msg_counter
    }

    /// Records that the message being sent was acknowledged.
    pub fn acknowledged(&mut self)
        requires
            old(self).spec_counter() < u64::MAX,
        ensures
            final(self).spec_counter() == old(self).spec_counter() + 1,
            final(self).spec_nonce() == old(self).spec_nonce(),
    {
        self.msg_counter = self.msg_counter + 1;
    }
}

/// Why a received message was refused.
#[derive(Clone, Copy, Debug, PartialEq, Eq, Structural)]
pub enum MessageError {
    /// The signature is not the sending peer's signature of the body.
    BadSignature,
    /// The header does not carry the session's nonce and the next sequence number.
    BadHeader,
}

/// What checking a message with the given signature validity and header gives, for a guard
/// whose session has the nonce `nonce` and whose next sequence number is `next`.
pub open spec fn message_check(signed: bool, nonce: Seq<u8>, next: u64, header: Header) -> Result<
    u64,
    MessageError,
> {
    if !signed {
        Err(MessageError::BadSignature)
    } else if !header_accepted(nonce, next, header) {
        Err(MessageError::BadHeader)
    } else {
        Ok(header.sequence_number)
    }
}

/// Checks a message received from the peer `source_pubkey`: its body must be signed by the
/// peer, and the header decoded from the body must be the next one that `guard` accepts.
/// Gives back the message's sequence number.
pub fn validate_incoming_message(
    source_pubkey: &ClientId,
    guard: &mut ReplayGuard,
    body: &[u8],
    signature: &[u8],
    header: &Header,
) -> (r: Result<u64, MessageError>)
    requires
        old(guard).spec_next() < u64::MAX,
    ensures
        r == message_check(
            signature_valid(source_pubkey@, body@, signature@),
            old(guard).spec_nonce(),
            old(guard).spec_next(),
            *header,
        ),
        final(guard).spec_next() == (if r is Ok {
            old(guard).spec_next() + 1
        } else {
            old(guard).spec_next() as int
        }),
        final(guard).spec_nonce() == old(guard).spec_nonce(),
{
    if validate_encapsulated_signature(source_pubkey, body, signature).is_err() {
        return Err(MessageError::BadSignature);
    }
    if guard.accept(header) {
        Ok(header.sequence_number)
    } else {
        Err(MessageError::BadHeader)
    }
}

/// Checks an acknowledgement received from the peer `sender_pubkey` as a message of its
/// session, and gives back the sequence number that it acknowledges, decoded from its body.
pub fn parse_incoming_ack(
    sender_pubkey: &ClientId,
    guard: &mut ReplayGuard,
    body: &[u8],
    signature: &[u8],
    header: &Header,
    acknowledged: u64,
) -> (r: Result<u64, MessageError>)
    requires
        old(guard).spec_next() < u64::MAX,
    ensures
        r == (match message_check(
            signature_valid(sender_pubkey@, body@, signature@),
            old(guard).spec_nonce(),
            old(guard).spec_next(),
            *header,
        ) {
            Ok(_) => Ok::<u64, MessageError>(acknowledged),
            Err(e) => Err(e),
        }),
        final(guard).spec_next() == (if r is Ok {
            old(guard).spec_next() + 1
        } else {
            old(guard).spec_next() as int
        }),
        final(guard).spec_nonce() == old(guard).spec_nonce(),
{
    match validate_incoming_message(sender_pubkey, guard, body, signature, header) {
        Ok(_) => Ok(acknowledged),
        Err(e) => Err(e),
    }
}

} // verus!
