//! Key generation, signatures and key derivation.
use vstd::prelude::*;

use ed25519_dalek::Signer;
use rand_chacha::rand_core::{RngCore, SeedableRng};
use rand_chacha::ChaCha20Rng;

use crate::crypto::{hkdf_sha256_expand, hkdf_sha256_expanded, random_bytes_32};

verus! {

pub type RootSecret = [u8; 32];

pub type PubkeyBytes = [u8; 32];

pub type SymmetricKey = [u8; 32];

pub type Signature = [u8; 64];

/// The first 64 bytes of the ChaCha20 random stream seeded with `seed`.
pub uninterp spec fn chacha20_stream64(seed: Seq<u8>) -> Seq<u8>;

/// The Ed25519 public key of the secret key `secret`.
pub uninterp spec fn ed25519_public_key(secret: Seq<u8>) -> Seq<u8>;

/// The Ed25519 signature of `msg` under the secret key `secret`.
pub uninterp spec fn ed25519_signature(secret: Seq<u8>, msg: Seq<u8>) -> Seq<u8>;

/// Calls `ChaCha20Rng::from_seed` and `fill_bytes` twice, 32 bytes each. Claims that the
/// result is the named start of the stream.
#[verifier::external_body]
fn chacha20_first_64(seed: &[u8; 32]) -> (r: [u8; 64])
    ensures
        r@ == chacha20_stream64(seed@),
{
    let mut csprng = ChaCha20Rng::from_seed(*seed);
    let mut out = [0u8; 64];
    csprng.fill_bytes(&mut out[..32]);
    csprng.fill_bytes(&mut out[32..]);
    out
}

/// Calls `ed25519_dalek::SecretKey::from_bytes` and `PublicKey::from`. Claims that the result
/// is the named public key; `from_bytes` fails only on a length other than 32.
#[verifier::external_body]
fn ed25519_public_from_secret(secret: &[u8; 32]) -> (r: [u8; 32])
    ensures
        r@ == ed25519_public_key(secret@),
{
    let sk = ed25519_dalek::SecretKey::from_bytes(secret).unwrap();
    ed25519_dalek::PublicKey::from(&sk).to_bytes()
}

/// Calls `ed25519_dalek::Keypair::sign` with the key pair of `secret`. Claims that the result
/// is the named (deterministic) signature.
#[verifier::external_body]
fn ed25519_sign(secret: &[u8; 32], msg: &[u8]) -> (r: [u8; 64])
    ensures
        r@ == ed25519_signature(secret@, msg@),
{
    let sk = ed25519_dalek::SecretKey::from_bytes(secret).unwrap();
    let pk = ed25519_dalek::PublicKey::from(&sk);
    ed25519_dalek::Keypair { public: pk, secret: sk }.sign(msg).to_bytes()
}

/// Errors of key generation.
#[derive(Clone, Copy, PartialEq, Eq, Structural, Debug)]
pub enum KeyError {
    /// The system random number generator failed.
    Randomness,
}

/// A struct that handles key generation, signatures and key derivation.
#[derive(Clone, Copy)]
pub struct KeyManager {
    root_secret: RootSecret,
    signing_secret: [u8; 32],
    public_key: PubkeyBytes,
    backup_secret_key: SymmetricKey,
}

impl KeyManager {
    pub closed spec fn spec_root_secret(&self) -> Seq<u8> {
        self.root_secret@
    }

    pub closed spec fn spec_signing_secret(&self) -> Seq<u8> {
        self.signing_secret@
    }

    pub closed spec fn spec_public_key(&self) -> Seq<u8> {
        self.public_key@
    }

    pub closed spec fn spec_backup_secret(&self) -> Seq<u8> {
        self.backup_secret_key@
    }

    /// The key derived from the backup secret for `info`.
    pub open spec fn spec_derived_key(&self, info: Seq<u8>) -> Seq<u8> {
        hkdf_sha256_expanded(self.spec_backup_secret(), info)
    }

    /// Whether the keys held are those that the root secret determines.
    pub open spec fn derived_from_root(&self) -> bool {
        &&& self.spec_signing_secret() == chacha20_stream64(self.spec_root_secret()).subrange(0, 32)
        &&& self.spec_backup_secret() == chacha20_stream64(self.spec_root_secret()).subrange(32, 64)
        &&& self.spec_public_key() == ed25519_public_key(self.spec_signing_secret())
        &&& self.spec_root_secret().len() == 32
    }

    /// Generate a new key manager with a new root secret drawn from the system's random number
    /// generator; the other keys are derived from it as in `from_secret`.
    pub fn generate() -> (r: Result<Self, KeyError>)
        ensures
            r matches Ok(km) ==> km.derived_from_root(),
            r matches Err(e) ==> e == KeyError::Randomness,
    {
        match random_bytes_32() {
            Ok(root_secret) => Self::from_secret(root_secret),
            Err(_) => Err(KeyError::Randomness),
        }
    }

    /// Initialize a key manager from an existing root secret: the first 32 bytes of the
    /// ChaCha20 stream seeded with it are the Ed25519 secret key, the next 32 bytes the
    /// backup secret key.
    pub fn from_secret(root_secret: RootSecret) -> (r: Result<Self, KeyError>)
        ensures
            r matches Ok(km) && km.spec_root_secret() == root_secret@ && km.derived_from_root()
                && km.spec_signing_secret() == chacha20_stream64(root_secret@).subrange(0, 32)
                && km.spec_backup_secret() == chacha20_stream64(root_secret@).subrange(32, 64)
                && km.spec_public_key() == ed25519_public_key(km.spec_signing_secret()),
    {
        let stream = chacha20_first_64(&root_secret);
        let mut signing_secret = [0u8; 32];
        let mut backup_secret_key = [0u8; 32];
        let mut i: usize = 0;
        while i < 32
            invariant
                i <= 32,
                stream@.len() == 64,
                signing_secret@.len() == 32,
                backup_secret_key@.len() == 32,
                forall|j: int| 0 <= j < i ==> signing_secret@[j] == stream@[j],
                forall|j: int| 0 <= j < i ==> backup_secret_key@[j] == stream@[j + 32],
            decreases 32 - i,
        {
            signing_secret[i] = stream[i];
            backup_secret_key[i] = stream[i + 32];
            i = i + 1;
        }
        assert(signing_secret@ =~= stream@.subrange(0, 32));
        assert(backup_secret_key@ =~= stream@.subrange(32, 64));
        let public_key = ed25519_public_from_secret(&signing_secret);
        Ok(KeyManager { root_secret, signing_secret, public_key, backup_secret_key })
    }

    /// Get the root secret of the key manager.
    pub fn get_root_secret(&self) -> (r: RootSecret)
        ensures
            r@ == self.spec_root_secret(),
    {
        self.root_secret
    }

    /// Get the public key of the signature keypair.
    pub fn get_pubkey(&self) -> (r: PubkeyBytes)
        ensures
            r@ == self.spec_public_key(),
    {
        self.public_key
    }

    /// Sign a message with the signature keypair.
    pub fn sign(&self, data: &[u8]) -> (r: Signature)
        ensures
            r@ == ed25519_signature(self.spec_signing_secret(), data@),
    {
        ed25519_sign(&self.signing_secret, data)
    }

    /// Derive a symmetric key from the backup secret key with a KDF.
    pub fn derive_backup_key(&self, info: &[u8]) -> (r: SymmetricKey)
        ensures
            r@ == self.spec_derived_key(info@),
    {
        hkdf_sha256_expand(&self.backup_secret_key, info)
    }
}

} // verus!
