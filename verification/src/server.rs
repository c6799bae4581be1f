//! The server's decisions: matching storage requests between clients, the errors that
//! handlers answer with, session tokens and the login challenge.
use vstd::prelude::*;
use vstd::string::{StringExecFns, StringSliceAdditionalSpecFns};

use crate::file_utils::{hex_decode, hex_decoded};
use crate::types::{ClientId, SessionToken};

verus! {

/// A client's request for backup storage.
#[derive(Clone, Copy, Debug)]
pub struct Request {
    pub storage_required: u64,
    pub client_id: ClientId,
}

/// The message that tells a client that storage was matched for it.
#[derive(Clone, Copy, Debug)]
pub struct BackupMatched {
    pub storage_available: u64,
    pub destination_id: ClientId,
}

/// What the server answers a failed request with.
#[derive(Clone, Copy, Debug)]
pub enum HandlerError {
    Unauthorized,
    BadRequest,
    ChallengeNotFound,
    Database,
    DatabaseTypeMismatch,
    NoBackupsAvailable,
    Crypto,
    Rng,
    Serialization,
    ClientNotFound(ClientId),
    ClientNotConnected(ClientId),
    ClientExists(ClientId),
    Io,
}

/// The kind of error that the client is told of.
#[derive(Clone, Debug, PartialEq, Eq)]
pub enum ErrorType {
    Unauthorized,
    Retry,
    ServerError(String),
    BadRequest(String),
    DestinationUnreachable,
    NoBackups,
}

/// The HTTP status code of each error.
pub open spec fn status_spec(e: HandlerError) -> u16 {
    match e {
        HandlerError::Unauthorized => 401,
        HandlerError::BadRequest => 400,
        HandlerError::Serialization => 400,
        HandlerError::Crypto => 400,
        HandlerError::ChallengeNotFound => 404,
        HandlerError::ClientNotConnected(_) => 404,
        HandlerError::ClientNotFound(_) => 404,
        HandlerError::Io => 404,
        HandlerError::NoBackupsAvailable => 404,
        HandlerError::Database => 500,
        HandlerError::Rng => 500,
        HandlerError::DatabaseTypeMismatch => 500,
        HandlerError::ClientExists(_) => 409,
    }
}

/// What the client is told of each error: the kind, and the message where there is one.
pub open spec fn error_type_matches(e: HandlerError, t: ErrorType) -> bool {
    match e {
        HandlerError::Unauthorized => t == ErrorType::Unauthorized,
        HandlerError::ChallengeNotFound => t == ErrorType::Retry,
        HandlerError::Database => t matches ErrorType::ServerError(m) && m@ == "Database error"@,
        HandlerError::Rng => t matches ErrorType::ServerError(m) && m@ == "Server error"@,
        HandlerError::DatabaseTypeMismatch => t matches ErrorType::ServerError(m) && m@
            == "Encountered invalid data"@,
        HandlerError::BadRequest => t matches ErrorType::BadRequest(m) && m@ == "Bad request"@,
        HandlerError::Crypto => t matches ErrorType::BadRequest(m) && m@ == "Crypto error"@,
        HandlerError::Serialization => t matches ErrorType::BadRequest(m) && m@ == "Serialization error"@,
        HandlerError::ClientExists(_) => t matches ErrorType::BadRequest(m) && m@ == "Client already exists"@,
        HandlerError::ClientNotConnected(_) => t == ErrorType::DestinationUnreachable,
        HandlerError::Io => t == ErrorType::DestinationUnreachable,
        HandlerError::ClientNotFound(_) => t == ErrorType::DestinationUnreachable,
        HandlerError::NoBackupsAvailable => t == ErrorType::NoBackups,
    }
}

impl HandlerError {
    /// The HTTP status code that the error is answered with.
    pub fn status(&self) -> (r: u16)
        ensures
            r == status_spec(*self),
    {
        match self {
            HandlerError::Unauthorized => 401,
            HandlerError::BadRequest => 400,
            HandlerError::Serialization => 400,
            HandlerError::Crypto => 400,
            HandlerError::ChallengeNotFound => 404,
            HandlerError::ClientNotConnected(_) => 404,
            HandlerError::ClientNotFound(_) => 404,
            HandlerError::Io => 404,
            HandlerError::NoBackupsAvailable => 404,
            HandlerError::Database => 500,
            HandlerError::Rng => 500,
            HandlerError::DatabaseTypeMismatch => 500,
            HandlerError::ClientExists(_) => 409,
        }
    }

    /// What the client is told of the error.
    pub fn error_type(&self) -> (r: ErrorType)
        ensures
            error_type_matches(*self, r),
    {
        match self {
            HandlerError::Unauthorized => ErrorType::Unauthorized,
            HandlerError::ChallengeNotFound => ErrorType::Retry,
            HandlerError::Database => ErrorType::ServerError(String::from_str("Database error")),
            HandlerError::Rng => ErrorType::ServerError(String::from_str("Server error")),
            HandlerError::DatabaseTypeMismatch => ErrorType::ServerError(
                String::from_str("Encountered invalid data"),
            ),
            HandlerError::BadRequest => ErrorType::BadRequest(String::from_str("Bad request")),
            HandlerError::Crypto => ErrorType::BadRequest(String::from_str("Crypto error")),
            HandlerError::Serialization => ErrorType::BadRequest(String::from_str("Serialization error")),
            HandlerError::ClientExists(_) => ErrorType::BadRequest(String::from_str("Client already exists")),
            HandlerError::ClientNotConnected(_) => ErrorType::DestinationUnreachable,
            HandlerError::Io => ErrorType::DestinationUnreachable,
            HandlerError::ClientNotFound(_) => ErrorType::DestinationUnreachable,
            HandlerError::NoBackupsAvailable => ErrorType::NoBackups,
        }
    }
}

/// Why a session token was refused.
#[derive(Clone, Copy, PartialEq, Eq, Structural, Debug)]
pub enum TokenError {
    /// The token is not hexadecimal text.
    InvalidHex,
    /// The token has another length than a session token's.
    InvalidLength,
}

/// The session token that the text `token` stands for.
pub fn parse_session_token(token: &str) -> (r: Result<SessionToken, TokenError>)
    ensures
        match hex_decoded(token.spec_bytes()) {
            None => r == Err::<SessionToken, TokenError>(TokenError::InvalidHex),
            Some(v) => if v.len() == 16 {
                r matches Ok(t) && t@ == v
            } else {
                r == Err::<SessionToken, TokenError>(TokenError::InvalidLength)
            },
        },
{
    let bytes = match hex_decode(token) {
        Some(b) => b,
        None => return Err(TokenError::InvalidHex),
    };
    if bytes.len() != 16 {
        return Err(TokenError::InvalidLength);
    }
    let mut t = [0u8; 16];
    let mut i: usize = 0;
    while i < 16
        invariant
            i <= 16,
            bytes@.len() == 16,
            t@.len() == 16,
            forall|j: int| 0 <= j < i ==> t@[j] == bytes@[j],
        decreases 16 - i,
    {
        t[i] = bytes[i];
        i = i + 1;
    }
    assert(t@ =~= bytes@);
    Ok(t)
}

/// Whether `sig` is a valid Ed25519 signature of `msg` by the public key `pk`, as the strict
/// verification of ed25519-dalek decides, the key and signature bytes being well-formed.
pub uninterp spec fn ed25519_strictly_valid(pk: Seq<u8>, msg: Seq<u8>, sig: Seq<u8>) -> bool;

/// Calls `ed25519_dalek::PublicKey::from_bytes`, `Signature::from_bytes` and
/// `PublicKey::verify_strict`. Claims that it succeeds exactly when the named check holds.
#[verifier::external_body]
pub fn ed25519_verify_strict(pk: &[u8; 32], msg: &[u8], sig: &[u8; 64]) -> (r: bool)
    ensures
        r == ed25519_strictly_valid(pk@, msg@, sig@),
{
    match (ed25519_dalek::PublicKey::from_bytes(pk), ed25519_dalek::Signature::from_bytes(sig)) {
        (Ok(p), Ok(s)) => p.verify_strict(msg, &s).is_ok(),
        _ => false,
    }
}

/// How matching goes on after a queued request was matched.
#[derive(Clone, Copy, Debug)]
pub enum MatchStep {
    /// The incoming request still needs storage: take the next queued request.
    Continue,
    /// The incoming request is fully matched; the queued request is put back with what it
    /// still needs, if anything.
    Stop(Option<Request>),
}

/// One matching step: the incoming request still needs `remaining` and is matched with the
/// queued request `destination`. The smaller of the two amounts is taken from both sides.
/// Gives the step and what the incoming request still needs after it.
pub open spec fn match_step(remaining: u64, destination: Request) -> (MatchStep, u64) {
    if remaining < destination.storage_required {
        (
            MatchStep::Stop(
                Some(
                    Request {
                        client_id: destination.client_id,
                        storage_required: (destination.storage_required - remaining) as u64,
                    },
                ),
            ),
            0,
        )
    } else if remaining > destination.storage_required {
        (MatchStep::Continue, (remaining - destination.storage_required) as u64)
    } else {
        (MatchStep::Stop(None), 0)
    }
}

/// The total storage that the requests `q` ask for.
pub open spec fn total_storage(q: Seq<Request>) -> int
    decreases q.len(),
{
    if q.len() == 0 {
        0
    } else {
        q[0].storage_required + total_storage(q.drop_first())
    }
}

/// The queue after an incoming request of `client` that still needs `remaining` was matched
/// against the queue `q` (front first), every queued request being from another client and
/// every notification going through: matched requests leave the queue, a queued request
/// that was not used up goes to the back with what it still needs, and what the incoming
/// request still needs at the end goes to the back too.
pub open spec fn queue_after_matching(q: Seq<Request>, remaining: u64, client: ClientId) -> Seq<Request>
    decreases q.len(),
{
    if q.len() == 0 {
        if remaining > 0 {
            seq![Request { storage_required: remaining, client_id: client }]
        } else {
            Seq::empty()
        }
    } else {
        let (step, left) = match_step(remaining, q[0]);
        match step {
            MatchStep::Continue => queue_after_matching(q.drop_first(), left, client),
            MatchStep::Stop(Some(back)) => q.drop_first().push(back),
            MatchStep::Stop(None) => q.drop_first(),
        }
    }
}

proof fn lemma_total_nonnegative(q: Seq<Request>)
    ensures
        total_storage(q) >= 0,
    decreases q.len(),
{
    if q.len() > 0 {
        lemma_total_nonnegative(q.drop_first());
    }
}

proof fn lemma_total_push(q: Seq<Request>, r: Request)
    ensures
        total_storage(q.push(r)) == total_storage(q) + r.storage_required,
    decreases q.len(),
{
    if q.len() == 0 {
        assert(q.push(r).drop_first() =~= Seq::<Request>::empty());
        assert(total_storage(Seq::<Request>::empty()) == 0);
        assert(total_storage(q) == 0);
        assert(q.push(r)[0] == r);
    } else {
        lemma_total_push(q.drop_first(), r);
        assert(q.push(r).drop_first() =~= q.drop_first().push(r));
    }
}

/// Matching takes the smaller amount from both sides: after an incoming request asking for
/// `remaining` is matched against a queue asking for `S` in all, the queue asks for
/// `|S - remaining|`. When the queue held less, it ends holding only the incoming
/// request's remainder; otherwise the incoming client is left off the queue.
pub proof fn lemma_matching_takes_the_minimum(q: Seq<Request>, remaining: u64, client: ClientId)
    requires
        remaining > 0,
        forall|i: int| 0 <= i < q.len() ==> (#[trigger] q[i]).client_id != client,
    ensures
        total_storage(queue_after_matching(q, remaining, client)) == if total_storage(q)
            >= remaining {
            total_storage(q) - remaining
        } else {
            remaining - total_storage(q)
        },
        total_storage(q) < remaining ==> queue_after_matching(q, remaining, client) == seq![
            Request { storage_required: (remaining - total_storage(q)) as u64, client_id: client },
        ],
        total_storage(q) >= remaining ==> forall|i: int|
            0 <= i < queue_after_matching(q, remaining, client).len()
                ==> (#[trigger] queue_after_matching(q, remaining, client)[i]).client_id != client,
    decreases q.len(),
{
    let out = queue_after_matching(q, remaining, client);
    if q.len() == 0 {
        let one = seq![Request { storage_required: remaining, client_id: client }];
        assert(one.drop_first() =~= Seq::<Request>::empty());
        assert(total_storage(Seq::<Request>::empty()) == 0);
        assert(total_storage(one) == remaining);
        assert(out == one);
        assert(total_storage(q) == 0);
    } else {
        let d = q[0];
        let rest = q.drop_first();
        lemma_total_nonnegative(rest);
        assert(total_storage(q) == d.storage_required + total_storage(rest));
        assert forall|i: int| 0 <= i < rest.len() implies (#[trigger] rest[i]).client_id != client by {
            assert(rest[i] == q[i + 1]);
        }
        if remaining < d.storage_required {
            let back = Request {
                client_id: d.client_id,
                storage_required: (d.storage_required - remaining) as u64,
            };
            lemma_total_push(rest, back);
            assert(out == rest.push(back));
            assert forall|i: int| 0 <= i < out.len() implies (#[trigger] out[i]).client_id
                != client by {
                if i < rest.len() {
                    assert(out[i] == rest[i]);
                } else {
                    assert(out[i] == back);
                    assert(q[0].client_id != client);
                }
            }
        } else if remaining > d.storage_required {
            let left = (remaining - d.storage_required) as u64;
            lemma_matching_takes_the_minimum(rest, left, client);
        } else {
            assert(out == rest);
        }
    }
}

/// The matching of one incoming storage request against the queued ones. The queue is
/// first in, first out: the earliest requests are matched first, and a queued request
/// that is matched is taken off the queue, its remainder put back.
pub struct Fulfillment {
    request: Request,
    storage_to_fulfill: u64,
}

/// What an incoming request starts: nothing when it asks for no storage, a refusal when it
/// asks for more than `max_request_size`, otherwise matching.
pub enum FulfillStart {
    Nothing,
    Refused(HandlerError),
    Matching(Fulfillment),
}

impl Fulfillment {
    /// The incoming request.
    pub closed spec fn spec_request(&self) -> Request {
        self.request
    }

    /// The storage that the incoming request still needs.
    pub closed spec fn spec_remaining(&self) -> u64 {
        self.storage_to_fulfill
    }

    /// Starts matching the incoming `request`.
    pub fn begin(request: Request, max_request_size: u64) -> (r: FulfillStart)
        ensures
            request.storage_required == 0 ==> r is Nothing,
            request.storage_required != 0 && request.storage_required > max_request_size ==> (r matches FulfillStart::Refused(e) && e == HandlerError::BadRequest),
            request.storage_required != 0 && request.storage_required <= max_request_size ==> (r matches FulfillStart::Matching(f) && f.spec_request() == request && f.spec_remaining() == request.storage_required),
    {
        if request.storage_required == 0 {
            return FulfillStart::Nothing;
        }
        if request.storage_required > max_request_size {
            return FulfillStart::Refused(HandlerError::BadRequest);
        }
        FulfillStart::Matching(
            Fulfillment { request, storage_to_fulfill: request.storage_required },
        )
    }

    /// Whether the queued request `destination` may be matched: it is not from the same
    /// client (such a request is discarded).
    pub fn accepts(&self, destination: &Request) -> (r: bool)
        ensures
            r == (destination.client_id != self.spec_request().client_id),
    {
        !crate::orchestrator::ids_equal(&destination.client_id, &self.request.client_id)
    }

    /// The message to the queued client: the incoming client offers the storage it
    /// requested.
    pub fn destination_message(&self) -> (r: BackupMatched)
        ensures
            r.storage_available == self.spec_request().storage_required,
            r.destination_id == self.spec_request().client_id,
    {
        BackupMatched {
            storage_available: self.request.storage_required,
            destination_id: self.request.client_id,
        }
    }

    /// The message to the incoming client: the queued client offers the storage it
    /// requested.
    pub fn requester_message(destination: &Request) -> (r: BackupMatched)
        ensures
            r.storage_available == destination.storage_required,
            r.destination_id == destination.client_id,
    {
        BackupMatched {
            storage_available: destination.storage_required,
            destination_id: destination.client_id,
        }
    }

    /// Records that both clients were told of the match with `destination`; the smaller of
    /// what the incoming request still needs and what the queued request asks for is taken
    /// from both. When the queued request asks for more, matching stops and it goes back with
    /// the rest; when it asks for less, matching goes on with what is still needed; when the
    /// amounts are equal, matching stops and neither goes back.
    pub fn matched(&mut self, destination: &Request) -> (r: MatchStep)
        ensures
            final(self).spec_request() == old(self).spec_request(),
            (r, final(self).spec_remaining()) == match_step(old(self).spec_remaining(), *destination),
    {
        let d = destination.storage_required;
        if self.storage_to_fulfill < d {
            let back = Request {
                client_id: destination.client_id,
                storage_required: d - self.storage_to_fulfill,
            };
            self.storage_to_fulfill = 0;
            MatchStep::Stop(Some(back))
        } else if self.storage_to_fulfill > d {
            self.storage_to_fulfill = self.storage_to_fulfill - d;
            MatchStep::Continue
        } else {
            self.storage_to_fulfill = 0;
            MatchStep::Stop(None)
        }
    }

    /// What is put on the queue once matching is over: the incoming request with the
    /// storage it still needs, when it needs some.
    pub fn remainder(&self) -> (r: Option<Request>)
        ensures
            self.spec_remaining() > 0 ==> r == Some(
                Request {
                    client_id: self.spec_request().client_id,
                    storage_required: self.spec_remaining(),
                },
            ),
            self.spec_remaining() == 0 ==> r is None,
    {
        if self.storage_to_fulfill > 0 {
            Some(
                Request {
                    client_id: self.request.client_id,
                    storage_required: self.storage_to_fulfill,
                },
            )
        } else {
            None
        }
    }
}

} // verus!
