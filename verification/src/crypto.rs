//! The cryptographic and compression primitives of the outside crates, with what they promise.
use vstd::prelude::*;

use aes_gcm::{AeadInPlace, Aes256Gcm, KeyInit, Nonce};
use hkdf::Hkdf;
use sha2::Sha256;

verus! {

#[verifier::external_type_specification]
#[verifier::external_body]
pub struct ExAeadError(aes_gcm::Error);

#[verifier::external_type_specification]
#[verifier::external_body]
pub struct ExGetrandomError(getrandom::Error);

#[verifier::external_type_specification]
#[verifier::external_body]
pub struct ExIoError(std::io::Error);

/// The ciphertext (with its 16-byte tag appended) that AES-256-GCM produces for `plaintext`
/// under `key` and `nonce`, with empty associated data.
pub uninterp spec fn aes_gcm_sealed(key: Seq<u8>, nonce: Seq<u8>, plaintext: Seq<u8>) -> Seq<u8>;

/// The plaintext that AES-256-GCM recovers from `ciphertext` under `key` and `nonce`, with
/// empty associated data, or `None` when authentication fails.
pub uninterp spec fn aes_gcm_opened(key: Seq<u8>, nonce: Seq<u8>, ciphertext: Seq<u8>) -> Option<Seq<u8>>;

/// The 32-byte output of HKDF-SHA256 expanding the pseudorandom key `prk` with `info`.
pub uninterp spec fn hkdf_sha256_expanded(prk: Seq<u8>, info: Seq<u8>) -> Seq<u8>;

/// The frame that zstd at compression `level` (no checksum, no content size, no magic bytes)
/// produces for `data`.
pub uninterp spec fn zstd_compressed(level: i32, data: Seq<u8>) -> Seq<u8>;

/// The worst-case size of a single-pass zstd frame for `n` bytes of input
/// (`ZSTD_COMPRESSBOUND` of zstd.h, for inputs below its maximum input size).
pub open spec fn zstd_compress_bound(n: nat) -> nat {
    n + n / 256 + if n < 131072 {
        ((131072 - n) / 2048) as nat
    } else {
        0
    }
}

/// The data that zstd (no magic bytes) recovers from `frame` into a buffer of `capacity`
/// bytes, or `None` when it fails.
pub uninterp spec fn zstd_decompressed(frame: Seq<u8>, capacity: nat) -> Option<Seq<u8>>;

/// The BLAKE3 hash of `data`.
pub uninterp spec fn blake3_digest(data: Seq<u8>) -> Seq<u8>;

/// Calls `aes_gcm::AeadInPlace::encrypt_in_place` for `Aes256Gcm`. Claims that on success the
/// result is the named ciphertext, 16 bytes longer than the plaintext, and that decrypting it
/// with the same key and nonce gives the plaintext back. It fails exactly on plaintexts longer
/// than 2^36 bytes.
#[verifier::external_body]
pub fn aes_gcm_encrypt(key: &[u8; 32], nonce: &[u8; 12], data: Vec<u8>) -> (r: Result<
    Vec<u8>,
    aes_gcm::Error,
>)
    ensures
        r matches Ok(c) ==> c@ == aes_gcm_sealed(key@, nonce@, data@) && c@.len() == data@.len()
            + 16 && aes_gcm_opened(key@, nonce@, c@) == Some(data@),
        r is Ok <==> data@.len() <= 0x10_0000_0000,
{
    let mut buf = data;
    let cipher = Aes256Gcm::new(&(*key).into());
    cipher.encrypt_in_place(Nonce::from_slice(nonce), b"", &mut buf).map(|_| buf)
}

/// Calls `aes_gcm::AeadInPlace::decrypt_in_place` for `Aes256Gcm`. Claims that it succeeds
/// exactly when the named decryption does, with that plaintext, and that a ciphertext that
/// encryption made of `p` under the same key and nonce (no longer than the largest ciphertext
/// that it accepts, 2^36 + 16 bytes) decrypts to `p`.
#[verifier::external_body]
pub fn aes_gcm_decrypt(key: &[u8; 32], nonce: &[u8; 12], data: Vec<u8>) -> (r: Result<
    Vec<u8>,
    aes_gcm::Error,
>)
    ensures
        r matches Ok(p) ==> aes_gcm_opened(key@, nonce@, data@) == Some(p@),
        r is Err ==> aes_gcm_opened(key@, nonce@, data@) is None,
        match r {
            Ok(x) => forall|p: Seq<u8>|
                data@.len() <= 0x10_0000_0010 && data@ == #[trigger] aes_gcm_sealed(key@, nonce@, p)
                    ==> x@ == p,
            Err(_) => forall|p: Seq<u8>|
                data@.len() <= 0x10_0000_0010 ==> data@ != #[trigger] aes_gcm_sealed(key@, nonce@, p),
        },
{
    let mut buf = data;
    let cipher = Aes256Gcm::new(&(*key).into());
    cipher.decrypt_in_place(Nonce::from_slice(nonce), b"", &mut buf).map(|_| buf)
}

/// Calls `hkdf::Hkdf::<Sha256>::from_prk` and `expand` into 32 bytes. Claims that the result
/// is the named expansion; with a 32-byte key and a 32-byte output neither call fails.
#[verifier::external_body]
pub fn hkdf_sha256_expand(prk: &[u8; 32], info: &[u8]) -> (r: [u8; 32])
    ensures
        r@ == hkdf_sha256_expanded(prk@, info@),
{
    let kdf = Hkdf::<Sha256>::from_prk(prk).unwrap();
    let mut output = [0u8; 32];
    kdf.expand(info, &mut output).unwrap();
    output
}

/// Calls `getrandom::getrandom` on a 12-byte buffer. Nothing is claimed of the bytes.
#[verifier::external_body]
pub fn random_bytes_12() -> (r: Result<[u8; 12], getrandom::Error>) {
    let mut buf = [0u8; 12];
    getrandom::getrandom(&mut buf).map(|_| buf)
}

/// Calls `getrandom::getrandom` on a 16-byte buffer. Nothing is claimed of the bytes.
#[verifier::external_body]
pub fn random_bytes_16() -> (r: Result<[u8; 16], getrandom::Error>) {
    let mut buf = [0u8; 16];
    getrandom::getrandom(&mut buf).map(|_| buf)
}

/// Calls `getrandom::getrandom` on a 32-byte buffer. Nothing is claimed of the bytes.
#[verifier::external_body]
pub fn random_bytes_32() -> (r: Result<[u8; 32], getrandom::Error>) {
    let mut buf = [0u8; 32];
    getrandom::getrandom(&mut buf).map(|_| buf)
}

/// Calls `zstd::bulk::Compressor::compress` at `level`, without checksum, content size and
/// magic bytes. Claims that on success the result is the named frame, no longer than zstd's
/// documented worst case, and that decompressing it into a buffer at least as large as
/// `data` gives `data` back.
#[verifier::external_body]
pub fn zstd_compress(level: i32, data: &[u8]) -> (r: Result<Vec<u8>, std::io::Error>)
    ensures
        r matches Ok(c) ==> c@ == zstd_compressed(level, data@) && (data@.len() <= 0x7f00_0000
            ==> c@.len() <= zstd_compress_bound(data@.len())) && forall|cap: nat|
            cap >= data@.len() ==> #[trigger] zstd_decompressed(c@, cap) == Some(data@),
{
    let mut compressor = zstd::bulk::Compressor::new(level)?;
    compressor.include_checksum(false)?;
    compressor.include_contentsize(false)?;
    compressor.include_magicbytes(false)?;
    compressor.compress(data)
}

/// Calls `zstd::bulk::Decompressor::decompress` without magic bytes. Claims that it succeeds
/// exactly when the named decompression does, with that data, and that a frame that
/// compression at a standard level (1 to 19) made of `x` decompresses to `x` into a buffer
/// at least as large as `x`, for `x` well below zstd's largest input.
#[verifier::external_body]
pub fn zstd_decompress(frame: &[u8], capacity: usize) -> (r: Result<Vec<u8>, std::io::Error>)
    ensures
        r matches Ok(d) ==> zstd_decompressed(frame@, capacity as nat) == Some(d@),
        r is Err ==> zstd_decompressed(frame@, capacity as nat) is None,
        match r {
            Ok(d) => forall|level: i32, x: Seq<u8>|
                1 <= level <= 19 && x.len() <= capacity && x.len() <= 0x7f00_0000 && frame@
                    == #[trigger] zstd_compressed(level, x) ==> d@ == x,
            Err(_) => forall|level: i32, x: Seq<u8>|
                1 <= level <= 19 && x.len() <= capacity && x.len() <= 0x7f00_0000 ==> frame@
                    != #[trigger] zstd_compressed(level, x),
        },
{
    let mut decompressor = zstd::bulk::Decompressor::new()?;
    decompressor.include_magicbytes(false)?;
    decompressor.decompress(frame, capacity)
}

/// Calls `blake3::hash`. Claims that the result is the named digest.
#[verifier::external_body]
pub fn blake3_hash(data: &[u8]) -> (r: [u8; 32])
    ensures
        r@ == blake3_digest(data@),
{
    blake3::hash(data).into()
}

} // verus!
