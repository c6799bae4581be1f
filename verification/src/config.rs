//! The client's configuration decisions: which peers may store data here, the event kinds of
//! the log, the storage obfuscation key and whether to use TLS.
use vstd::prelude::*;

use crate::crypto::ExGetrandomError;
use crate::defaults::{PEER_STORAGE_USAGE_SPREAD, SERVER_USE_TLS};
use crate::encoding::{le_bytes, le_value, lemma_le_roundtrip, lemma_pow256_values};
use crate::types::ClientId;

verus! {

/// Information about a peer.
#[derive(Clone, Copy, Debug)]
pub struct PeerInfo {
    pub pubkey: ClientId,
    pub bytes_transmitted: i64,
    pub bytes_received: i64,
    pub bytes_negotiated: i64,
    pub first_seen: i64,
    pub last_seen: i64,
}

/// Whether a peer may send more data to store: it has negotiated storage left, or it is
/// over by less than the allowed spread.
pub open spec fn peer_allowed_spec(negotiated: i64, received: i64) -> bool {
    negotiated - received > 0 || (if negotiated >= received {
        negotiated - received
    } else {
        received - negotiated
    }) < PEER_STORAGE_USAGE_SPREAD
}

/// A peer may send data exactly while what it sent is less than what it negotiated plus the
/// allowed spread: in particular, always while it has negotiated storage left, however much.
pub proof fn lemma_peer_allowed_within_spread(negotiated: i64, received: i64)
    ensures
        peer_allowed_spec(negotiated, received) <==> received < negotiated + PEER_STORAGE_USAGE_SPREAD,
        negotiated > received ==> peer_allowed_spec(negotiated, received),
        received >= negotiated + PEER_STORAGE_USAGE_SPREAD ==> !peer_allowed_spec(negotiated, received),
{
}

/// Whether a peer may send more data to store, see `peer_allowed_spec`.
pub fn is_peer_allowed_to_send_data(peer: &PeerInfo) -> (r: bool)
    requires
        i64::MIN <= peer.bytes_negotiated - peer.bytes_received <= i64::MAX,
    ensures
        r == peer_allowed_spec(peer.bytes_negotiated, peer.bytes_received),
        r == (peer.bytes_received < peer.bytes_negotiated + PEER_STORAGE_USAGE_SPREAD),
        peer.bytes_negotiated > peer.bytes_received ==> r,
{
    proof {
        lemma_peer_allowed_within_spread(peer.bytes_negotiated, peer.bytes_received);
    }
    let d = peer.bytes_negotiated - peer.bytes_received;
    if d > 0 {
        return true;
    }
    let diff: i128 = (peer.bytes_received as i128) - (peer.bytes_negotiated as i128);
    diff < PEER_STORAGE_USAGE_SPREAD as i128
}

/// The kind of a logged event.
#[derive(Clone, Copy, PartialEq, Eq, Structural, Debug)]
pub enum EventType {
    RestoreRequest,
    Backup,
}

/// The number that stands for an event kind.
pub open spec fn event_id(e: EventType) -> u8 {
    match e {
        EventType::RestoreRequest => 0,
        EventType::Backup => 1,
    }
}

/// The event kind that a number stands for.
pub open spec fn event_from_id(id: u8) -> Option<EventType> {
    if id == 0 {
        Some(EventType::RestoreRequest)
    } else if id == 1 {
        Some(EventType::Backup)
    } else {
        None
    }
}

impl EventType {
    /// The event kind that `id` stands for.
    pub fn from_id(id: u8) -> (r: Option<Self>)
        ensures
            r == event_from_id(id),
    {
        match id {
            0 => Some(EventType::RestoreRequest),
            1 => Some(EventType::Backup),
            _ => None,
        }
    }

    /// The number that stands for the event kind.
    pub fn to_id(self) -> (r: u8)
        ensures
            r == event_id(self),
    {
        match self {
            EventType::RestoreRequest => 0,
            EventType::Backup => 1,
        }
    }
}

/// Reading back the number of an event kind gives the kind, and only the numbers of kinds
/// stand for one.
pub proof fn lemma_event_type_roundtrip(e: EventType, id: u8)
    ensures
        event_from_id(event_id(e)) == Some(e),
        event_from_id(id) matches Some(k) ==> event_id(k) == id,
{
}

/// Whether to use TLS, given the value of the `USE_TLS` environment variable: "1" turns it
/// on, "0" off, and anything else (or no value) keeps the built-in setting.
pub fn use_tls_setting(value: Option<&str>) -> (r: bool)
    ensures
        (value matches Some(v) && v@ == seq!['1']) ==> r,
        (value matches Some(v) && v@ == seq!['0']) ==> !r,
        !(value matches Some(v) && (v@ == seq!['1'] || v@ == seq!['0'])) ==> r == SERVER_USE_TLS,
{
    match value {
        Some(v) => {
            if v.unicode_len() == 1 {
                let c = v.get_char(0);
                if c == '1' {
                    assert(v@ =~= seq!['1']);
                    return true;
                }
                if c == '0' {
                    assert(v@ =~= seq!['0']);
                    return false;
                }
            }
            SERVER_USE_TLS
        },
        None => SERVER_USE_TLS,
    }
}

/// Calls `getrandom::getrandom` on a 4-byte buffer. Nothing is claimed of the bytes.
#[verifier::external_body]
fn random_bytes_4() -> (r: Result<[u8; 4], getrandom::Error>) {
    let mut buf = [0u8; 4];
    getrandom::getrandom(&mut buf).map(|_| buf)
}

/// Why a stored obfuscation key could not be read.
#[derive(Clone, Copy, PartialEq, Eq, Structural, Debug)]
pub enum ObfuscationKeyError {
    /// The system random number generator failed.
    Randomness,
    /// The stored key is not 4 bytes long.
    InvalidKey,
}

/// Generates a random 4-byte storage obfuscation key.
pub fn generate_obfuscation_key() -> (r: Result<u32, ObfuscationKeyError>)
    ensures
        r matches Err(e) ==> e == ObfuscationKeyError::Randomness,
{
    match random_bytes_4() {
        Ok(b) => Ok(obfuscation_key_from_bytes(&b)),
        Err(_) => Err(ObfuscationKeyError::Randomness),
    }
}

/// The key that 4 little-endian bytes stand for.
pub fn obfuscation_key_from_bytes(b: &[u8; 4]) -> (r: u32)
    ensures
        r as nat == le_value(b@),
{
    let r = (b[0] as u32) | ((b[1] as u32) << 8u32) | ((b[2] as u32) << 16u32) | ((b[3] as u32) << 24u32);
    proof {
        let (b0, b1, b2, b3) = (b@[0], b@[1], b@[2], b@[3]);
        assert((b0 as u32) | ((b1 as u32) << 8u32) | ((b2 as u32) << 16u32) | ((b3 as u32) << 24u32)
            == b0 as u32 + 256 * (b1 as u32 + 256 * (b2 as u32 + 256 * b3 as u32))) by (bit_vector);
        assert(b@.drop_first().drop_first().drop_first().drop_first().len() == 0);
        assert(le_value(b@) == b0 + 256 * le_value(b@.drop_first()));
        assert(le_value(b@.drop_first()) == b1 + 256 * le_value(b@.drop_first().drop_first()));
        assert(le_value(b@.drop_first().drop_first()) == b2 + 256 * le_value(
            b@.drop_first().drop_first().drop_first(),
        ));
        assert(le_value(b@.drop_first().drop_first().drop_first()) == b3 + 256 * le_value(
            b@.drop_first().drop_first().drop_first().drop_first(),
        ));
    }
    r
}

/// The 4 little-endian bytes of the key, as the obfuscation uses them.
pub fn obfuscation_key_bytes(key: u32) -> (r: [u8; 4])
    ensures
        r@ == le_bytes(key as nat, 4),
{
    let r = [(key & 0xff) as u8, ((key >> 8u32) & 0xff) as u8, ((key >> 16u32) & 0xff) as u8, (key >> 24u32) as u8];
    proof {
        assert((key & 0xff) as u8 == (key % 256) as u8) by (bit_vector);
        assert(((key >> 8u32) & 0xff) as u8 == ((key / 256) % 256) as u8) by (bit_vector);
        assert(((key >> 16u32) & 0xff) as u8 == ((key / 65536) % 256) as u8) by (bit_vector);
        assert((key >> 24u32) as u8 == ((key / 16777216) % 256) as u8) by (bit_vector);
        assert(key as nat / 256 / 256 == key as nat / 65536);
        assert(key as nat / 65536 / 256 == key as nat / 16777216);
        reveal_with_fuel(le_bytes, 5);
        let l = le_bytes(key as nat, 4);
        assert(l == seq![(key as nat % 256) as u8] + le_bytes(key as nat / 256, 3));
        assert(le_bytes(key as nat / 256, 3) == seq![(key as nat / 256 % 256) as u8] + le_bytes(key as nat / 256 / 256, 2));
        assert(le_bytes(key as nat / 256 / 256, 2) == seq![(key as nat / 256 / 256 % 256) as u8] + le_bytes(key as nat / 256 / 256 / 256, 1));
        assert(le_bytes(key as nat / 256 / 256 / 256, 1) == seq![(key as nat / 256 / 256 / 256 % 256) as u8] + le_bytes(key as nat / 256 / 256 / 256 / 256, 0));
        assert(r@ =~= le_bytes(key as nat, 4));
    }
    r
}

/// The key stored as the bytes `v`, when they are 4.
pub fn parse_obfuscation_key(v: &[u8]) -> (r: Result<u32, ObfuscationKeyError>)
    ensures
        v@.len() == 4 ==> (r matches Ok(k) && k as nat == le_value(v@)),
        v@.len() != 4 ==> r == Err::<u32, ObfuscationKeyError>(ObfuscationKeyError::InvalidKey),
{
    if v.len() != 4 {
        return Err(ObfuscationKeyError::InvalidKey);
    }
    let b = [v[0], v[1], v[2], v[3]];
    assert(b@ =~= v@);
    Ok(obfuscation_key_from_bytes(&b))
}

/// Storing a key and reading it back gives the key.
pub proof fn lemma_obfuscation_key_roundtrip(key: u32)
    ensures
        le_value(le_bytes(key as nat, 4)) == key as nat,
        le_bytes(key as nat, 4).len() == 4,
{
    lemma_pow256_values();
    lemma_le_roundtrip(key as nat, 4);
}

} // verus!
