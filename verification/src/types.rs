use vstd::prelude::*;

verus! {

/// Length of the nonce used for AES-256-GCM.
pub const NONCE_SIZE: usize = 12;

/// Hash of a blob (of its plaintext, uncompressed data).
pub type BlobHash = [u8; 32];

/// Random identifier of a packfile, also used as the nonce of its encrypted header.
pub type PackfileId = [u8; 12];

/// Random nonce stored in front of each encrypted blob.
pub type BlobNonce = [u8; 12];

/// Identifier of a client, its Ed25519 public key.
pub type ClientId = [u8; 32];

/// Random nonce identifying a peer-to-peer transport session.
pub type TransportSessionNonce = [u8; 16];

/// Session token handed out by the server after a successful login.
pub type SessionToken = [u8; 16];

/// Random nonce sent by the server as a login/registration challenge.
pub type ChallengeNonce = [u8; 32];

/// Length of a challenge response (an Ed25519 signature).
pub const CHALLENGE_RESPONSE_LENGTH: usize = 64;

} // verus!
