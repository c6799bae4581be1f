//! The server's record of login challenges and active sessions. A challenge is valid for 30
//! seconds and a session for 24 hours; times are in seconds, handed in by the caller.
use vstd::prelude::*;

use vstd::string::StringSliceAdditionalSpecFns;

use crate::crypto::{random_bytes_16, random_bytes_32};
use crate::file_utils::hex_decoded;
use crate::keyed::ByteKeyMap;
use crate::server::{ed25519_strictly_valid, ed25519_verify_strict, parse_session_token, HandlerError};
use crate::types::{ChallengeNonce, ClientId, SessionToken};

verus! {

/// How long a challenge nonce is valid for, in seconds.
pub const CHALLENGE_EXPIRATION: u64 = 30;

/// How long a session token is valid for, at most, in seconds.
pub const SESSION_EXPIRATION: u64 = 86_400;

/// The moment `duration` seconds after `now`, or the last representable moment.
pub open spec fn deadline_after(now: u64, duration: u64) -> u64 {
    if now + duration <= u64::MAX {
        (now + duration) as u64
    } else {
        u64::MAX
    }
}

fn deadline(now: u64, duration: u64) -> (r: u64)
    ensures
        r == deadline_after(now, duration),
{
    now.saturating_add(duration)
}

/// The challenge nonce of `client` that is still valid at `now`: stored with a deadline that
/// `now` has not reached.
pub open spec fn live_challenge(
    challenges: Map<Seq<u8>, (ChallengeNonce, u64)>,
    client: Seq<u8>,
    now: u64,
) -> Option<ChallengeNonce> {
    if challenges.contains_key(client) && now < challenges[client].1 {
        Some(challenges[client].0)
    } else {
        None
    }
}

/// What verifying `response` against the challenges `challenges` at `now` answers for
/// `client`.
pub open spec fn verify_outcome(
    challenges: Map<Seq<u8>, (ChallengeNonce, u64)>,
    client: Seq<u8>,
    response: Seq<u8>,
    now: u64,
) -> Result<(), HandlerError> {
    match live_challenge(challenges, client, now) {
        None => Err(HandlerError::ChallengeNotFound),
        Some(n) => if ed25519_strictly_valid(client, n@, response) {
            Ok(())
        } else {
            Err(HandlerError::Crypto)
        },
    }
}

/// The challenges left after verifying `response` for `client` at `now`: an answered
/// challenge is removed, a failed one stays.
pub open spec fn challenges_after_verify(
    challenges: Map<Seq<u8>, (ChallengeNonce, u64)>,
    client: Seq<u8>,
    response: Seq<u8>,
    now: u64,
) -> Map<Seq<u8>, (ChallengeNonce, u64)> {
    if verify_outcome(challenges, client, response, now) is Ok {
        challenges.remove(client)
    } else {
        challenges
    }
}

/// The client of the session `token` that is still valid at `now`.
pub open spec fn live_session(sessions: Map<Seq<u8>, (ClientId, u64)>, token: Seq<u8>, now: u64) -> Option<
    ClientId,
> {
    if sessions.contains_key(token) && now < sessions[token].1 {
        Some(sessions[token].0)
    } else {
        None
    }
}

/// Keeps track of client authentication challenges and active sessions.
pub struct ClientAuthManager {
    challenges: ByteKeyMap<32, (ChallengeNonce, u64)>,
    sessions: ByteKeyMap<16, (ClientId, u64)>,
}

impl ClientAuthManager {
    /// The pending challenge nonce of each client, with the moment it stops being valid.
    pub closed spec fn spec_challenges(&self) -> Map<Seq<u8>, (ChallengeNonce, u64)> {
        self.challenges@
    }

    /// The client of each session token, with the moment the session ends.
    pub closed spec fn spec_sessions(&self) -> Map<Seq<u8>, (ClientId, u64)> {
        self.sessions@
    }

    /// A manager with no challenges and no sessions.
    pub fn new() -> (r: Self)
        ensures
            r.spec_challenges() == Map::<Seq<u8>, (ChallengeNonce, u64)>::empty(),
            r.spec_sessions() == Map::<Seq<u8>, (ClientId, u64)>::empty(),
    {
        ClientAuthManager { challenges: ByteKeyMap::new(), sessions: ByteKeyMap::new() }
    }

    /// Starts a new challenge for the client at `now`, with a random nonce, valid for
    /// `CHALLENGE_EXPIRATION` seconds. A client has one challenge at a time: a new one
    /// replaces the old.
    pub fn challenge_begin(&mut self, client_id: ClientId, now: u64) -> (r: Result<
        ChallengeNonce,
        HandlerError,
    >)
        ensures
            r matches Ok(n) ==> final(self).spec_challenges() == old(self).spec_challenges().insert(
                client_id@,
                (n, deadline_after(now, CHALLENGE_EXPIRATION)),
            ),
            r matches Err(e) ==> e == HandlerError::Rng
                && final(self).spec_challenges() == old(self).spec_challenges(),
            final(self).spec_sessions() == old(self).spec_sessions(),
    {
        match random_bytes_32() {
            Ok(nonce) => {
                let until = deadline(now, CHALLENGE_EXPIRATION);
                self.challenges.insert(client_id, (nonce, until));
                Ok(nonce)
            },
            Err(_) => Err(HandlerError::Rng),
        }
    }

    /// Verifies at `now` a response to a challenge started before and still valid: the
    /// response must be the client's signature of the nonce. An answered challenge is
    /// removed.
    pub fn challenge_verify(&mut self, client_id: ClientId, response: &[u8; 64], now: u64) -> (r:
        Result<(), HandlerError>)
        ensures
            r == verify_outcome(old(self).spec_challenges(), client_id@, response@, now),
            final(self).spec_challenges() == challenges_after_verify(
                old(self).spec_challenges(),
                client_id@,
                response@,
                now,
            ),
            final(self).spec_sessions() == old(self).spec_sessions(),
    {
        let (nonce, until) = match self.challenges.get(&client_id) {
            Some(entry) => entry,
            None => return Err(HandlerError::ChallengeNotFound),
        };
        if now >= until {
            return Err(HandlerError::ChallengeNotFound);
        }
        if !ed25519_verify_strict(&client_id, &nonce, response) {
            return Err(HandlerError::Crypto);
        }
        let _ = self.challenges.remove(&client_id);
        Ok(())
    }

    /// Starts a session for the client at `now`, with a new random token, valid for
    /// `SESSION_EXPIRATION` seconds.
    pub fn session_start(&mut self, client_id: ClientId, now: u64) -> (r: Result<
        SessionToken,
        HandlerError,
    >)
        ensures
            r matches Ok(t) ==> final(self).spec_sessions() == old(self).spec_sessions().insert(
                t@,
                (client_id, deadline_after(now, SESSION_EXPIRATION)),
            ),
            r matches Err(e) ==> e == HandlerError::Rng
                && final(self).spec_sessions() == old(self).spec_sessions(),
            final(self).spec_challenges() == old(self).spec_challenges(),
    {
        match random_bytes_16() {
            Ok(token) => {
                let until = deadline(now, SESSION_EXPIRATION);
                self.sessions.insert(token, (client_id, until));
                Ok(token)
            },
            Err(_) => Err(HandlerError::Rng),
        }
    }

    /// The client of the session `token`, if the session is still valid at `now`.
    pub fn get_session(&self, token: SessionToken, now: u64) -> (r: Option<ClientId>)
        ensures
            r == live_session(self.spec_sessions(), token@, now),
    {
        match self.sessions.get(&token) {
            Some((client, until)) => if now < until {
                Some(client)
            } else {
                None
            },
            None => None,
        }
    }
}

/// The session token that `text` spells in hex, when it spells one.
pub open spec fn token_of_text(text: Seq<u8>) -> Option<Seq<u8>> {
    match hex_decoded(text) {
        Some(v) => if v.len() == 16 {
            Some(v)
        } else {
            None
        },
        None => None,
    }
}

/// The client of the session whose token `token` spells in hex, if the session is still
/// valid at `now`; `Unauthorized` when the text is no token or no valid session has it.
pub fn check_token(auth: &ClientAuthManager, token: &str, now: u64) -> (r: Result<ClientId, HandlerError>)
    ensures
        match token_of_text(token.spec_bytes()) {
            Some(t) => match live_session(auth.spec_sessions(), t, now) {
                Some(c) => r == Ok::<ClientId, HandlerError>(c),
                None => r == Err::<ClientId, HandlerError>(HandlerError::Unauthorized),
            },
            None => r == Err::<ClientId, HandlerError>(HandlerError::Unauthorized),
        },
{
    match parse_session_token(token) {
        Ok(t) => match auth.get_session(t, now) {
            Some(c) => Ok(c),
            None => Err(HandlerError::Unauthorized),
        },
        Err(_) => Err(HandlerError::Unauthorized),
    }
}

/// A challenge answered once cannot be answered again: after a successful verification,
/// verifying the same client again, at any time, fails because no challenge is left.
pub proof fn lemma_challenge_single_use(
    challenges: Map<Seq<u8>, (ChallengeNonce, u64)>,
    client: Seq<u8>,
    response: Seq<u8>,
    now: u64,
    later_response: Seq<u8>,
    later: u64,
)
    requires
        verify_outcome(challenges, client, response, now) is Ok,
    ensures
        verify_outcome(
            challenges_after_verify(challenges, client, response, now),
            client,
            later_response,
            later,
        ) == Err::<(), HandlerError>(HandlerError::ChallengeNotFound),
{
}

/// A challenge is not accepted once it expired: at or after its deadline, verifying it
/// fails as if there were none.
pub proof fn lemma_expired_challenge_refused(
    challenges: Map<Seq<u8>, (ChallengeNonce, u64)>,
    client: Seq<u8>,
    response: Seq<u8>,
    now: u64,
)
    requires
        challenges.contains_key(client),
        now >= challenges[client].1,
    ensures
        verify_outcome(challenges, client, response, now) == Err::<(), HandlerError>(
            HandlerError::ChallengeNotFound,
        ),
{
}

} // verus!
