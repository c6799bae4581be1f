//! Outgoing peer-to-peer connection requests: each request gets a random session nonce, and
//! an answer is taken only for a request that was made, once. The initiation message that
//! opens a connection is checked for its signature and its replay protection header.
use vstd::prelude::*;

use crate::auth::deadline_after;
use crate::crypto::random_bytes_16;
use crate::keyed::ByteKeyMap;
use crate::server::{ed25519_strictly_valid, ed25519_verify_strict};
use crate::transport::{header_accepted, nonces_equal, Header};
use crate::types::{ClientId, TransportSessionNonce};

verus! {

/// What a connection to a peer is for.
#[derive(Clone, Copy, Debug, PartialEq, Eq, Structural)]
pub enum RequestType {
    /// Sending packfiles and index files to the peer.
    Transport,
    /// Getting back everything the peer stores for us.
    RestoreAll,
}

/// A connection request that was sent and not yet answered.
#[derive(Clone, Copy, Debug)]
pub struct P2PConnectionRequest {
    pub session_nonce: TransportSessionNonce,
    pub purpose: RequestType,
}

/// Errors of connection requests.
#[derive(Clone, Copy, Debug, PartialEq, Eq, Structural)]
pub enum ConnectionRequestError {
    /// The system random number generator failed.
    Randomness,
    /// An answer came for a request that was not made, or was already answered.
    Unsolicited,
}

/// How long a connection request stays open, in seconds.
pub const TRANSPORT_REQUEST_EXPIRY: u64 = 60;

/// Keeps track of outgoing connection requests, so that answers that were not asked for are
/// refused. A request stays open for `TRANSPORT_REQUEST_EXPIRY` seconds; times are in
/// seconds, handed in by the caller.
pub struct P2PConnectionManager {
    requests: ByteKeyMap<32, (P2PConnectionRequest, u64)>,
}

impl P2PConnectionManager {
    /// The request to each peer, with the moment it stops being open.
    pub closed spec fn spec_requests(&self) -> Map<Seq<u8>, (P2PConnectionRequest, u64)> {
        self.requests@
    }

    /// A manager with no open requests.
    pub fn new() -> (r: Self)
        ensures
            r.spec_requests() == Map::<Seq<u8>, (P2PConnectionRequest, u64)>::empty(),
    {
        P2PConnectionManager { requests: ByteKeyMap::new() }
    }

    /// Records at `now` a connection request to `client_id` for `purpose`, with a new random
    /// session nonce, which is returned to be sent to the peer. A new request to the same
    /// peer replaces the old one.
    pub fn add_request(&mut self, client_id: ClientId, purpose: RequestType, now: u64) -> (r: Result<
        TransportSessionNonce,
        ConnectionRequestError,
    >)
        ensures
            r matches Ok(n) ==> final(self).spec_requests() == old(self).spec_requests().insert(
                client_id@,
                (
                    P2PConnectionRequest { session_nonce: n, purpose },
                    deadline_after(now, TRANSPORT_REQUEST_EXPIRY),
                ),
            ),
            r matches Err(e) ==> e == ConnectionRequestError::Randomness
                && final(self).spec_requests() == old(self).spec_requests(),
    {
        match random_bytes_16() {
            Ok(session_nonce) => {
                let until = now.saturating_add(TRANSPORT_REQUEST_EXPIRY);
                self.requests.insert(client_id, (P2PConnectionRequest { session_nonce, purpose }, until));
                Ok(session_nonce)
            },
            Err(_) => Err(ConnectionRequestError::Randomness),
        }
    }

    /// Takes at `now` the request to `client_id`, which must still be open; it is then no
    /// longer recorded.
    pub fn finalize_request(&mut self, client_id: ClientId, now: u64) -> (r: Result<
        P2PConnectionRequest,
        ConnectionRequestError,
    >)
        ensures
            r == finalize_outcome(old(self).spec_requests(), client_id@, now),
            final(self).spec_requests() == old(self).spec_requests().remove(client_id@),
    {
        match self.requests.remove(&client_id) {
            Some((request, until)) => if now < until {
                Ok(request)
            } else {
                Err(ConnectionRequestError::Unsolicited)
            },
            None => Err(ConnectionRequestError::Unsolicited),
        }
    }
}

/// What taking the request to `client` from `requests` at `now` gives: the request while it
/// is open, a refusal when there is none or it expired.
pub open spec fn finalize_outcome(
    requests: Map<Seq<u8>, (P2PConnectionRequest, u64)>,
    client: Seq<u8>,
    now: u64,
) -> Result<P2PConnectionRequest, ConnectionRequestError> {
    if requests.contains_key(client) && now < requests[client].1 {
        Ok(requests[client].0)
    } else {
        Err(ConnectionRequestError::Unsolicited)
    }
}

/// A request that was made is answered once, with what was recorded for it: finalizing it
/// before it expires gives the recorded nonce and purpose, finalizing it after it expired is
/// refused, and finalizing it again is refused.
pub proof fn lemma_request_answered_once(
    requests: Map<Seq<u8>, (P2PConnectionRequest, u64)>,
    client: ClientId,
    request: P2PConnectionRequest,
    made: u64,
    now: u64,
    later: u64,
)
    ensures
        now < deadline_after(made, TRANSPORT_REQUEST_EXPIRY) ==> finalize_outcome(
            requests.insert(client@, (request, deadline_after(made, TRANSPORT_REQUEST_EXPIRY))),
            client@,
            now,
        ) == Ok::<P2PConnectionRequest, ConnectionRequestError>(request),
        now >= deadline_after(made, TRANSPORT_REQUEST_EXPIRY) ==> finalize_outcome(
            requests.insert(client@, (request, deadline_after(made, TRANSPORT_REQUEST_EXPIRY))),
            client@,
            now,
        ) == Err::<P2PConnectionRequest, ConnectionRequestError>(
            ConnectionRequestError::Unsolicited,
        ),
        finalize_outcome(
            requests.insert(client@, (request, deadline_after(made, TRANSPORT_REQUEST_EXPIRY))).remove(
                client@,
            ),
            client@,
            later,
        ) == Err::<P2PConnectionRequest, ConnectionRequestError>(
            ConnectionRequestError::Unsolicited,
        ),
{
}

/// Why an initiation message was refused.
#[derive(Clone, Copy, Debug, PartialEq, Eq, Structural)]
pub enum InitiationError {
    /// The signature is not the peer's signature of the body.
    BadSignature,
    /// The header does not carry the session's nonce and the sequence number 0.
    BadHeader,
}

/// Whether `signature` is the signature of `body` by the client `source`; a signature of
/// another length than 64 bytes is refused.
pub open spec fn signature_valid(source: Seq<u8>, body: Seq<u8>, signature: Seq<u8>) -> bool {
    signature.len() == 64 && ed25519_strictly_valid(source, body, signature)
}

/// Checks the signature of an encapsulated message: `signature` must be the signature of
/// `body` by the client `source`.
pub fn validate_encapsulated_signature(source: &ClientId, body: &[u8], signature: &[u8]) -> (r: Result<
    (),
    InitiationError,
>)
    ensures
        r is Ok <==> signature_valid(source@, body@, signature@),
        r matches Err(e) ==> e == InitiationError::BadSignature,
{
    if signature.len() != 64 {
        return Err(InitiationError::BadSignature);
    }
    let mut sig = [0u8; 64];
    let mut i: usize = 0;
    while i < 64
        invariant
            i <= 64,
            signature@.len() == 64,
            sig@.len() == 64,
            forall|j: int| 0 <= j < i ==> sig@[j] == signature@[j],
        decreases 64 - i,
    {
        sig[i] = signature[i];
        i = i + 1;
    }
    assert(sig@ =~= signature@);
    if ed25519_verify_strict(source, body, &sig) {
        Ok(())
    } else {
        Err(InitiationError::BadSignature)
    }
}

/// Checks the initiation message of a connection with the peer `source` in the session
/// `session_nonce`: its body must be signed by the peer, and the header decoded from the body
/// must carry the session's nonce and the sequence number 0. Gives back the purpose decoded
/// from the body.
pub fn check_initiation(
    source: &ClientId,
    session_nonce: &TransportSessionNonce,
    body: &[u8],
    signature: &[u8],
    header: &Header,
    purpose: RequestType,
) -> (r: Result<RequestType, InitiationError>)
    ensures
        !signature_valid(source@, body@, signature@) ==> r == Err::<RequestType, InitiationError>(
            InitiationError::BadSignature,
        ),
        signature_valid(source@, body@, signature@) && !header_accepted(session_nonce@, 0, *header)
            ==> r == Err::<RequestType, InitiationError>(InitiationError::BadHeader),
        signature_valid(source@, body@, signature@) && header_accepted(session_nonce@, 0, *header)
            ==> r == Ok::<RequestType, InitiationError>(purpose),
{
    match validate_encapsulated_signature(source, body, signature) {
        Ok(()) => {},
        Err(e) => return Err(e),
    }
    if !nonces_equal(&header.session_nonce, session_nonce) || header.sequence_number != 0 {
        return Err(InitiationError::BadHeader);
    }
    Ok(purpose)
}

} // verus!
