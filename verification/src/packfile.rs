//! Packfiles: the file format that stores blobs efficiently and securely.
//!
//! A packfile holds one or more blobs. Its layout is:
//! - the length of the encrypted header, 8 bytes little-endian;
//! - the encrypted header: for each blob, its hash (of the plaintext data), its kind, its
//!   compression, the length of its encrypted data and the offset of its record from the
//!   start of the blob section;
//! - the blob section: for each blob, its 12-byte nonce followed by its encrypted data.
//!
//! The header is encrypted with a key derived from the backup secret and the constant
//! "header", with the packfile ID as nonce. Each blob is compressed with zstd and encrypted
//! with a key derived from the backup secret and the blob's hash, with a random nonce.
use vstd::prelude::*;

use std::collections::VecDeque;

use crate::blob::{
    Blob, BlobEncrypted, BlobKind, CompressionKind, HeaderEntryModel, PackfileError, PackfileHeaderBlob, header_view,
};
use crate::blob_index::{index_file_written, 
    index_nonce, BlobIndex, IndexPackfileHandle, KEY_DERIVATION_CONSTANT as INDEX_KEY_DERIVATION_CONSTANT,
};
use crate::formats::{index_bytes, index_view};
use crate::text::decimal_padded10;
use crate::hash_order::hash_list_view;
use crate::crypto::{
    aes_gcm_decrypt, aes_gcm_encrypt, aes_gcm_opened, aes_gcm_sealed, random_bytes_12,
    zstd_compress, zstd_compress_bound, zstd_compressed, zstd_decompress, zstd_decompressed,
};
use crate::defaults::BLOB_MAX_UNCOMPRESSED_SIZE;
use crate::encoding::{
    le_bytes, le_value, lemma_le_roundtrip, lemma_pow256_values, pow256, read_le, write_le,
};
use crate::formats::{
    append_bytes, decode_header, decode_header_spec, encode_header, header_bytes, lemma_header_bytes_len,
    lemma_header_roundtrip,
};
use crate::hash_order::{compare_hashes, HashOrder};
use crate::key_manager::KeyManager;
use crate::types::{BlobHash, BlobNonce, PackfileId, NONCE_SIZE};

verus! {

/// Total blob size, after which it's attempted to write the packfile to disk (3 MiB).
pub const PACKFILE_TARGET_SIZE: usize = 3 * 1024 * 1024;

/// Maximum possible size of a packfile (16 MiB).
pub const PACKFILE_MAX_SIZE: usize = 16 * 1024 * 1024;

/// Maximum number of blobs that can be stored in a packfile.
pub const PACKFILE_MAX_BLOBS: usize = 100_000;

/// The zstd compression level of blob data.
pub const ZSTD_COMPRESSION_LEVEL: i32 = 3;

/// The key derivation constant of packfile headers, "header".
pub const KEY_DERIVATION_CONSTANT_HEADER: [u8; 6] = [104, 101, 97, 100, 101, 114];

/// The key that encrypts packfile headers.
pub open spec fn header_key(keys: KeyManager) -> Seq<u8> {
    keys.spec_derived_key(KEY_DERIVATION_CONSTANT_HEADER@)
}

/// Where a relative seek by `offset` from `base` lands: the offset is taken as a signed
/// 64-bit number.
pub open spec fn seek_target(base: int, offset: u64) -> int {
    if offset < 0x8000_0000_0000_0000 {
        base + offset
    } else {
        base + offset - 0x1_0000_0000_0000_0000
    }
}

/// The first header entry for the blob `hash`.
pub open spec fn find_entry(es: Seq<HeaderEntryModel>, hash: Seq<u8>) -> Option<HeaderEntryModel>
    decreases es.len(),
{
    if es.len() == 0 {
        None
    } else if es[0].hash == hash {
        Some(es[0])
    } else {
        find_entry(es.drop_first(), hash)
    }
}

/// What reading the record described by `e`, in a packfile whose blob section starts at
/// `base`, gives: the blob's hash, kind and plaintext, or the error.
pub open spec fn read_record_spec(keys: KeyManager, file: Seq<u8>, base: int, e: HeaderEntryModel) -> Result<
    (Seq<u8>, BlobKind, Seq<u8>),
    PackfileError,
> {
    let pos = seek_target(base, e.offset);
    if pos < 0 || pos + NONCE_SIZE + e.length > file.len() {
        Err(PackfileError::IoError)
    } else {
        match aes_gcm_opened(
            keys.spec_derived_key(e.hash),
            file.subrange(pos, pos + NONCE_SIZE),
            file.subrange(pos + NONCE_SIZE, pos + NONCE_SIZE + e.length),
        ) {
            None => Err(PackfileError::CryptoError),
            Some(z) => match zstd_decompressed(z, BLOB_MAX_UNCOMPRESSED_SIZE as nat) {
                None => Err(PackfileError::IoError),
                Some(d) => Ok((e.hash, e.kind, d)),
            },
        }
    }
}

/// What reading the blob `hash` from the packfile `id` whose contents are `file` gives: the
/// blob's hash, kind and plaintext, or the error.
pub open spec fn read_blob_spec(keys: KeyManager, id: Seq<u8>, file: Seq<u8>, hash: Seq<u8>) -> Result<
    (Seq<u8>, BlobKind, Seq<u8>),
    PackfileError,
> {
    if file.len() > PACKFILE_MAX_SIZE {
        Err(PackfileError::PackfileTooLarge)
    } else if file.len() < 8 {
        Err(PackfileError::IoError)
    } else {
        let hs = le_value(file.subrange(0, 8)) as int;
        if hs > file.len() || hs == 0 {
            Err(PackfileError::InvalidHeaderSize)
        } else if 8 + hs > file.len() {
            Err(PackfileError::IoError)
        } else {
            match aes_gcm_opened(header_key(keys), id, file.subrange(8, 8 + hs)) {
                None => Err(PackfileError::CryptoError),
                Some(hb) => match decode_header_spec(hb) {
                    None => Err(PackfileError::SerializationError),
                    Some(es) => match find_entry(es, hash) {
                        None => Err(PackfileError::IndexHeaderMismatch),
                        Some(e) => read_record_spec(keys, file, 8 + hs, e),
                    },
                },
            }
        }
    }
}

/// Whether the read blob `r` is the outcome `s`.
pub open spec fn blob_read_matches(
    r: Result<Blob, PackfileError>,
    s: Result<(Seq<u8>, BlobKind, Seq<u8>), PackfileError>,
) -> bool {
    match (r, s) {
        (Ok(b), Ok((h, k, d))) => b.hash@ == h && b.kind == k && b.data@ == d,
        (Err(e1), Err(e2)) => e1 == e2,
        _ => false,
    }
}

/// The position of the first header entry for the blob `hash`.
fn find_entry_position(es: &Vec<PackfileHeaderBlob>, hash: &BlobHash) -> (r: Option<usize>)
    ensures
        match find_entry(header_view(es@), hash@) {
            None => r is None,
            Some(e) => r matches Some(i) && i < es@.len() && es@[i as int]@ == e,
        },
{
    let n = es.len();
    let mut i: usize = 0;
    assert(header_view(es@).skip(0) =~= header_view(es@));
    while i < n
        invariant
            n == es@.len(),
            i <= n,
            find_entry(header_view(es@), hash@) == find_entry(header_view(es@).skip(i as int), hash@),
        decreases n - i,
    {
        let ghost rest = header_view(es@).skip(i as int);
        assert(rest[0] == es@[i as int]@);
        assert(rest.drop_first() =~= header_view(es@).skip(i + 1));
        match compare_hashes(&es[i].hash, hash) {
            HashOrder::Equal => {
                return Some(i);
            },
            _ => {},
        }
        i = i + 1;
    }
    None
}

/// Reads the record described by `e` in a packfile whose blob section starts at `base`.
fn read_record(keys: &KeyManager, file: &[u8], base: usize, e: &PackfileHeaderBlob) -> (r: Result<
    Blob,
    PackfileError,
>)
    requires
        base <= file@.len(),
        file@.len() <= PACKFILE_MAX_SIZE,
    ensures
        blob_read_matches(r, read_record_spec(*keys, file@, base as int, e@)),
        forall|p: Seq<u8>|
            #[trigger] record_sealed(*keys, file@, base as int, e@, p) ==> (r matches Ok(b) && b.hash@
                == e@.hash && b.kind == e@.kind && b.data@ == p),
{
    let size = file.len();
    let pos: usize;
    if e.offset < 0x8000_0000_0000_0000u64 {
        if e.offset > (size - base) as u64 {
            return Err(PackfileError::IoError);
        }
        pos = base + e.offset as usize;
    } else {
        let back: u64 = (u64::MAX - e.offset) + 1;
        if back > base as u64 {
            return Err(PackfileError::IoError);
        }
        pos = base - back as usize;
    }
    assert(pos == seek_target(base as int, e.offset));
    if size - pos < NONCE_SIZE || e.length > (size - pos - NONCE_SIZE) as u64 {
        return Err(PackfileError::IoError);
    }
    let end = pos + NONCE_SIZE + e.length as usize;
    let nonce_slice = vstd::slice::slice_subrange(file, pos, pos + NONCE_SIZE);
    let mut nonce = [0u8; 12];
    let mut i: usize = 0;
    while i < 12
        invariant
            i <= 12,
            nonce_slice@.len() == 12,
            nonce@.len() == 12,
            forall|j: int| 0 <= j < i ==> nonce@[j] == nonce_slice@[j],
        decreases 12 - i,
    {
        nonce[i] = nonce_slice[i];
        i = i + 1;
    }
    assert(nonce@ =~= file@.subrange(pos as int, pos + NONCE_SIZE));
    let ct = vstd::slice::slice_to_vec(vstd::slice::slice_subrange(file, pos + NONCE_SIZE, end));
    let key = keys.derive_backup_key(&e.hash);
    let ghost ct_view = ct@;
    assert(ct_view == file@.subrange(pos + NONCE_SIZE, pos + NONCE_SIZE + e@.length));
    let compressed = match aes_gcm_decrypt(&key, &nonce, ct) {
        Ok(p) => p,
        Err(_) => {
            assert forall|p: Seq<u8>| #[trigger] record_sealed(*keys, file@, base as int, e@, p) implies false by {
                assert(ct_view == aes_gcm_sealed(key@, nonce@, zstd_compressed(ZSTD_COMPRESSION_LEVEL, p)));
            }
            return Err(PackfileError::CryptoError);
        },
    };
    assert forall|p: Seq<u8>| #[trigger] record_sealed(*keys, file@, base as int, e@, p) implies compressed@
        == zstd_compressed(ZSTD_COMPRESSION_LEVEL, p) by {
        assert(ct_view == aes_gcm_sealed(key@, nonce@, zstd_compressed(ZSTD_COMPRESSION_LEVEL, p)));
    }
    match zstd_decompress(compressed.as_slice(), BLOB_MAX_UNCOMPRESSED_SIZE) {
        Ok(data) => Ok(Blob { hash: e.hash, kind: e.kind, data }),
        Err(_) => {
            assert forall|p: Seq<u8>| #[trigger] record_sealed(*keys, file@, base as int, e@, p) implies false by {
                assert(compressed@ == zstd_compressed(ZSTD_COMPRESSION_LEVEL, p));
            }
            Err(PackfileError::IoError)
        },
    }
}

/// Reads the blob `blob_hash` from the packfile `packfile_id` whose contents are `file`.
/// Reading a packfile that was written from sealed blobs gives back the blob that was
/// written: its hash, kind and plaintext.
pub fn read_blob(keys: &KeyManager, packfile_id: &PackfileId, file: &[u8], blob_hash: &BlobHash) -> (r:
    Result<Blob, PackfileError>)
    ensures
        blob_read_matches(r, read_blob_spec(*keys, packfile_id@, file@, blob_hash@)),
        forall|s: Seq<BlobEncrypted>, plain: Seq<Seq<u8>>, j: int|
            #![trigger written_packfile(*keys, packfile_id@, file@, s, plain), s[j]]
            written_packfile(*keys, packfile_id@, file@, s, plain) && 0 <= j < s.len() && s[j].hash@
                == blob_hash@ ==> (r matches Ok(b) && b.hash@ == blob_hash@ && b.kind == s[j].kind
                && b.data@ == plain[j]),
{
    let size = file.len();
    if size > PACKFILE_MAX_SIZE {
        return Err(PackfileError::PackfileTooLarge);
    }
    if size < 8 {
        proof {
            lemma_not_written(*keys, packfile_id@, file@, blob_hash@);
        }
        return Err(PackfileError::IoError);
    }
    let header_size = read_le(file, 0, 8);
    if header_size > size as u64 || header_size == 0 {
        proof {
            lemma_not_written(*keys, packfile_id@, file@, blob_hash@);
        }
        return Err(PackfileError::InvalidHeaderSize);
    }
    if header_size > (size - 8) as u64 {
        proof {
            lemma_not_written(*keys, packfile_id@, file@, blob_hash@);
        }
        return Err(PackfileError::IoError);
    }
    let hs = header_size as usize;
    let header_ct = vstd::slice::slice_to_vec(vstd::slice::slice_subrange(file, 8, 8 + hs));
    let ghost ct_view = header_ct@;
    assert(ct_view == file@.subrange(8, 8 + hs as int));
    let key = keys.derive_backup_key(&KEY_DERIVATION_CONSTANT_HEADER);
    let header_plain = match aes_gcm_decrypt(&key, packfile_id, header_ct) {
        Ok(p) => p,
        Err(_) => {
            assert forall|s: Seq<BlobEncrypted>, plain: Seq<Seq<u8>>, j: int|
                #![trigger written_packfile(*keys, packfile_id@, file@, s, plain), s[j]]
                written_packfile(*keys, packfile_id@, file@, s, plain) && 0 <= j < s.len() && s[j].hash@
                    == blob_hash@ implies false by {
                lemma_written_packfile_layout(*keys, packfile_id@, file@, s, plain, j);
                assert(ct_view == aes_gcm_sealed(key@, packfile_id@, header_bytes(packfile_header(s))));
            }
            return Err(PackfileError::CryptoError);
        },
    };
    let header = match decode_header(header_plain.as_slice()) {
        Ok(h) => h,
        Err(e) => {
            assert forall|s: Seq<BlobEncrypted>, plain: Seq<Seq<u8>>, j: int|
                #![trigger written_packfile(*keys, packfile_id@, file@, s, plain), s[j]]
                written_packfile(*keys, packfile_id@, file@, s, plain) && 0 <= j < s.len() && s[j].hash@
                    == blob_hash@ implies false by {
                lemma_written_packfile_layout(*keys, packfile_id@, file@, s, plain, j);
                assert(ct_view == aes_gcm_sealed(key@, packfile_id@, header_bytes(packfile_header(s))));
                assert(header_plain@ == header_bytes(packfile_header(s)));
            }
            return Err(e);
        },
    };
    match find_entry_position(&header, blob_hash) {
        None => {
            assert forall|s: Seq<BlobEncrypted>, plain: Seq<Seq<u8>>, j: int|
                #![trigger written_packfile(*keys, packfile_id@, file@, s, plain), s[j]]
                written_packfile(*keys, packfile_id@, file@, s, plain) && 0 <= j < s.len() && s[j].hash@
                    == blob_hash@ implies false by {
                lemma_written_packfile_layout(*keys, packfile_id@, file@, s, plain, j);
                assert(ct_view == aes_gcm_sealed(key@, packfile_id@, header_bytes(packfile_header(s))));
                assert(header_plain@ == header_bytes(packfile_header(s)));
                assert(header_view(header@) == packfile_header(s));
            }
            Err(PackfileError::IndexHeaderMismatch)
        },
        Some(i) => {
            let r = read_record(keys, file, 8 + hs, &header[i]);
            assert forall|s: Seq<BlobEncrypted>, plain: Seq<Seq<u8>>, j: int|
                #![trigger written_packfile(*keys, packfile_id@, file@, s, plain), s[j]]
                written_packfile(*keys, packfile_id@, file@, s, plain) && 0 <= j < s.len() && s[j].hash@
                    == blob_hash@ implies (r matches Ok(b) && b.hash@ == blob_hash@ && b.kind == s[j].kind
                && b.data@ == plain[j]) by {
                lemma_written_packfile_layout(*keys, packfile_id@, file@, s, plain, j);
                assert(ct_view == aes_gcm_sealed(key@, packfile_id@, header_bytes(packfile_header(s))));
                assert(header_plain@ == header_bytes(packfile_header(s)));
                assert(header_view(header@) == packfile_header(s));
                assert(header@[i as int]@ == packfile_header(s)[j]);
                assert(record_sealed(*keys, file@, (8 + hs) as int, header@[i as int]@, plain[j]));
            }
            r
        },
    }
}

/// No written packfile that holds a blob with the hash `h` is shorter than its length field
/// or has a length field that is zero or runs past its end.
proof fn lemma_not_written(keys: KeyManager, id: Seq<u8>, file: Seq<u8>, h: Seq<u8>)
    ensures
        forall|s: Seq<BlobEncrypted>, plain: Seq<Seq<u8>>, j: int|
            #![trigger written_packfile(keys, id, file, s, plain), s[j]]
            written_packfile(keys, id, file, s, plain) && 0 <= j < s.len() && s[j].hash@ == h ==> {
                let n = le_value(file.subrange(0, 8));
                &&& 8 <= file.len()
                &&& 0 < n
                &&& 8 + n <= file.len()
            },
{
    assert forall|s: Seq<BlobEncrypted>, plain: Seq<Seq<u8>>, j: int|
        #![trigger written_packfile(keys, id, file, s, plain), s[j]]
        written_packfile(keys, id, file, s, plain) && 0 <= j < s.len() && s[j].hash@ == h implies {
            let n = le_value(file.subrange(0, 8));
            &&& 8 <= file.len()
            &&& 0 < n
            &&& 8 + n <= file.len()
        } by {
        lemma_written_packfile_layout(keys, id, file, s, plain, j);
    }
}

/// The largest encrypted blob that a blob of at most `BLOB_MAX_UNCOMPRESSED_SIZE` bytes
/// gives: zstd's worst case for that size, plus the 16-byte authentication tag.
pub const MAX_SEALED_BLOB_SIZE: usize = 3_158_032;

/// The encrypted form of a blob with plaintext `data`, under `key` and `nonce`.
pub open spec fn sealed_blob(key: Seq<u8>, nonce: Seq<u8>, data: Seq<u8>) -> Seq<u8> {
    aes_gcm_sealed(key, nonce, zstd_compressed(ZSTD_COMPRESSION_LEVEL, data))
}

/// Decrypting and decompressing the queued blob `b` gives back `plain`.
pub open spec fn blob_opens_to(keys: KeyManager, b: BlobEncrypted, plain: Seq<u8>) -> bool {
    match aes_gcm_opened(keys.spec_derived_key(b.hash@), b.nonce@, b.data@) {
        Some(z) => zstd_decompressed(z, BLOB_MAX_UNCOMPRESSED_SIZE as nat) == Some(plain),
        None => false,
    }
}

/// Each blob of `q` is the encrypted, compressed form of its plaintext of at most
/// `BLOB_MAX_UNCOMPRESSED_SIZE` bytes, under the key derived from its hash and its nonce, and
/// is no larger than such a blob can become.
pub open spec fn blobs_sealed(keys: KeyManager, q: Seq<BlobEncrypted>, plain: Seq<Seq<u8>>) -> bool {
    &&& plain.len() == q.len()
    &&& forall|i: int|
        0 <= i < q.len() ==> (#[trigger] q[i]).data@ == sealed_blob(
            keys.spec_derived_key(q[i].hash@),
            q[i].nonce@,
            plain[i],
        ) && plain[i].len() <= BLOB_MAX_UNCOMPRESSED_SIZE && q[i].data@.len() <= MAX_SEALED_BLOB_SIZE
}

/// Each queued blob is sealed from its plaintext and opens to it.
pub open spec fn queue_sealed(keys: KeyManager, q: Seq<BlobEncrypted>, plain: Seq<Seq<u8>>) -> bool {
    &&& blobs_sealed(keys, q, plain)
    &&& forall|i: int| 0 <= i < q.len() ==> blob_opens_to(keys, #[trigger] q[i], plain[i])
}

/// Total size of the blobs of `q` that the index does not hold yet.
pub open spec fn candidate_size(idx: BlobIndex, q: Seq<BlobEncrypted>) -> nat
    decreases q.len(),
{
    if q.len() == 0 {
        0
    } else {
        candidate_size(idx, q.drop_last()) + if idx.spec_is_duplicate(q.last().hash@) {
            0
        } else {
            q.last().data@.len()
        }
    }
}

/// Number of the blobs of `q` that the index does not hold yet.
pub open spec fn candidate_count(idx: BlobIndex, q: Seq<BlobEncrypted>) -> nat
    decreases q.len(),
{
    if q.len() == 0 {
        0
    } else {
        candidate_count(idx, q.drop_last()) + if idx.spec_is_duplicate(q.last().hash@) {
            0nat
        } else {
            1nat
        }
    }
}

/// Whether the queued blobs that the index does not hold yet fill a packfile.
pub open spec fn write_desired_spec(idx: BlobIndex, q: Seq<BlobEncrypted>) -> bool {
    candidate_size(idx, q) >= PACKFILE_TARGET_SIZE || candidate_count(idx, q) >= PACKFILE_MAX_BLOBS
}

proof fn lemma_candidates_monotone(idx: BlobIndex, q: Seq<BlobEncrypted>, i: int)
    requires
        0 <= i <= q.len(),
    ensures
        candidate_size(idx, q.take(i)) <= candidate_size(idx, q),
        candidate_count(idx, q.take(i)) <= candidate_count(idx, q),
    decreases q.len(),
{
    if i == q.len() {
        assert(q.take(i) =~= q);
    } else {
        lemma_candidates_monotone(idx, q.drop_last(), i);
        assert(q.drop_last().take(i) =~= q.take(i));
    }
}

/// The hashes of the blobs `s`.
pub open spec fn blob_hashes(s: Seq<BlobEncrypted>) -> Seq<Seq<u8>> {
    s.map_values(|b: BlobEncrypted| b.hash@)
}

/// The blobs of `q` that go into a packfile, in order: each one whose hash neither the
/// index `idx` holds nor an earlier selected blob has.
pub open spec fn select_blobs(idx: BlobIndex, q: Seq<BlobEncrypted>) -> Seq<BlobEncrypted>
    decreases q.len(),
{
    if q.len() == 0 {
        Seq::empty()
    } else {
        let prev = select_blobs(idx, q.drop_last());
        if idx.spec_is_duplicate(q.last().hash@) || blob_hashes(prev).contains(q.last().hash@) {
            prev
        } else {
            prev.push(q.last())
        }
    }
}

/// The plaintexts `p` of the blobs `q` that `select_blobs` selects.
pub open spec fn select_plain(idx: BlobIndex, q: Seq<BlobEncrypted>, p: Seq<Seq<u8>>) -> Seq<Seq<u8>>
    decreases q.len(),
{
    if q.len() == 0 {
        Seq::empty()
    } else {
        let prev = select_plain(idx, q.drop_last(), p.drop_last());
        if idx.spec_is_duplicate(q.last().hash@) || blob_hashes(select_blobs(idx, q.drop_last())).contains(
            q.last().hash@,
        ) {
            prev
        } else {
            prev.push(p.last())
        }
    }
}

/// The blob section of a packfile holding the blobs `s`: each blob's nonce, then its
/// encrypted data.
pub open spec fn blob_section(s: Seq<BlobEncrypted>) -> Seq<u8>
    decreases s.len(),
{
    if s.len() == 0 {
        Seq::empty()
    } else {
        blob_section(s.drop_last()) + s.last().nonce@ + s.last().data@
    }
}

/// The header entry of the blob `s[j]` in a packfile holding the blobs `s`.
pub open spec fn packfile_header_entry(s: Seq<BlobEncrypted>, j: int) -> HeaderEntryModel {
    HeaderEntryModel {
        hash: s[j].hash@,
        kind: s[j].kind,
        compression: CompressionKind::Zstd,
        length: s[j].data@.len() as u64,
        offset: blob_section(s.take(j)).len() as u64,
    }
}

/// The header of a packfile holding the blobs `s`.
pub open spec fn packfile_header(s: Seq<BlobEncrypted>) -> Seq<HeaderEntryModel> {
    Seq::new(s.len(), |j: int| packfile_header_entry(s, j))
}

/// A packfile holding the blobs `s` is full: its blob section reached the target size, or
/// it holds the maximum number of blobs.
pub open spec fn packfile_full(s: Seq<BlobEncrypted>) -> bool {
    blob_section(s).len() >= PACKFILE_TARGET_SIZE || s.len() >= PACKFILE_MAX_BLOBS
}

/// Taking `k` blobs from the front of `q` is where packing stops: the selection was not
/// full before, and is full after unless `q` ran out.
pub open spec fn stops_after(idx: BlobIndex, q: Seq<BlobEncrypted>, k: int) -> bool {
    &&& 0 <= k <= q.len()
    &&& forall|j: int| 0 <= j < k ==> !packfile_full(#[trigger] select_blobs(idx, q.take(j)))
    &&& (k == q.len() || packfile_full(select_blobs(idx, q.take(k))))
}

/// The bytes of a packfile: the length of the encrypted header, the encrypted header and
/// the blob section.
pub open spec fn packfile_bytes(header_ct: Seq<u8>, section: Seq<u8>) -> Seq<u8> {
    le_bytes(header_ct.len(), 8) + header_ct + section
}

/// The encrypted header of the packfile `id` holding the blobs `s`.
pub open spec fn sealed_header(keys: KeyManager, id: Seq<u8>, s: Seq<BlobEncrypted>) -> Seq<u8> {
    aes_gcm_sealed(header_key(keys), id, header_bytes(packfile_header(s)))
}

/// No two of the blobs `s` have the same hash.
pub open spec fn hashes_distinct(s: Seq<BlobEncrypted>) -> bool {
    forall|i: int, j: int| 0 <= i < j < s.len() ==> (#[trigger] s[i]).hash@ != (#[trigger] s[j]).hash@
}

proof fn lemma_select_distinct(idx: BlobIndex, q: Seq<BlobEncrypted>)
    ensures
        hashes_distinct(select_blobs(idx, q)),
        forall|i: int|
            0 <= i < select_blobs(idx, q).len() ==> !idx.spec_is_duplicate(
                (#[trigger] select_blobs(idx, q)[i]).hash@,
            ),
        select_blobs(idx, q).len() <= q.len(),
    decreases q.len(),
{
    if q.len() > 0 {
        lemma_select_distinct(idx, q.drop_last());
        let prev = select_blobs(idx, q.drop_last());
        if !(idx.spec_is_duplicate(q.last().hash@) || blob_hashes(prev).contains(q.last().hash@)) {
            let cur = prev.push(q.last());
            assert forall|i: int, j: int| 0 <= i < j < cur.len() implies (#[trigger] cur[i]).hash@
                != (#[trigger] cur[j]).hash@ by {
                if j == cur.len() - 1 {
                    assert(blob_hashes(prev)[i] == prev[i].hash@);
                }
            }
        }
    }
}

proof fn lemma_select_plain_len(idx: BlobIndex, q: Seq<BlobEncrypted>, p: Seq<Seq<u8>>)
    requires
        p.len() == q.len(),
    ensures
        select_plain(idx, q, p).len() == select_blobs(idx, q).len(),
    decreases q.len(),
{
    if q.len() > 0 {
        lemma_select_plain_len(idx, q.drop_last(), p.drop_last());
    }
}

/// The blob section of a prefix of `s` is a prefix of the blob section of `s`.
proof fn lemma_blob_section_prefix(s: Seq<BlobEncrypted>, j: int)
    requires
        0 <= j <= s.len(),
    ensures
        blob_section(s.take(j)).len() <= blob_section(s).len(),
        blob_section(s) == blob_section(s.take(j)) + blob_section(s).skip(blob_section(s.take(j)).len() as int),
    decreases s.len(),
{
    if j == s.len() {
        assert(s.take(j) =~= s);
        assert(blob_section(s).skip(blob_section(s).len() as int) =~= Seq::<u8>::empty());
        assert(blob_section(s) + Seq::<u8>::empty() =~= blob_section(s));
    } else {
        lemma_blob_section_prefix(s.drop_last(), j);
        assert(s.drop_last().take(j) =~= s.take(j));
        let a = blob_section(s.take(j));
        let b = blob_section(s.drop_last());
        assert(blob_section(s) =~= b + s.last().nonce@ + s.last().data@);
        assert(blob_section(s).skip(a.len() as int) =~= b.skip(a.len() as int) + s.last().nonce@
            + s.last().data@);
    }
}

/// The record of the blob `s[j]` lies in the blob section at the offset that the header
/// gives.
proof fn lemma_blob_section_record(s: Seq<BlobEncrypted>, j: int)
    requires
        0 <= j < s.len(),
    ensures
        ({
            let off = blob_section(s.take(j)).len() as int;
            let sec = blob_section(s);
            &&& off + NONCE_SIZE + s[j].data@.len() <= sec.len()
            &&& sec.subrange(off, off + NONCE_SIZE) == s[j].nonce@
            &&& sec.subrange(off + NONCE_SIZE, off + NONCE_SIZE + s[j].data@.len()) == s[j].data@
        }),
{
    lemma_blob_section_prefix(s, j + 1);
    let t = s.take(j + 1);
    assert(t.drop_last() =~= s.take(j));
    assert(t.last() == s[j]);
    let off = blob_section(s.take(j)).len() as int;
    let sec = blob_section(s);
    let pre = blob_section(t);
    assert(pre =~= blob_section(s.take(j)) + s[j].nonce@ + s[j].data@);
    assert(sec.subrange(0, pre.len() as int) =~= pre);
    assert(sec.subrange(off, off + NONCE_SIZE) =~= pre.subrange(off, off + NONCE_SIZE));
    assert(sec.subrange(off + NONCE_SIZE, off + NONCE_SIZE + s[j].data@.len()) =~= pre.subrange(
        off + NONCE_SIZE,
        off + NONCE_SIZE + s[j].data@.len(),
    ));
}

proof fn lemma_blob_section_len(s: Seq<BlobEncrypted>)
    ensures
        blob_section(s).len() >= 12 * s.len(),
    decreases s.len(),
{
    if s.len() > 0 {
        lemma_blob_section_len(s.drop_last());
    }
}

/// With distinct hashes, the first header entry for the hash of `s[j]` is the `j`-th.
proof fn lemma_find_entry_distinct(s: Seq<BlobEncrypted>, j: int)
    requires
        0 <= j < s.len(),
        hashes_distinct(s),
    ensures
        find_entry(packfile_header(s), s[j].hash@) == Some(packfile_header(s)[j]),
{
    let es = packfile_header(s);
    assert forall|k: int| 0 <= k < j implies (#[trigger] es[k]).hash != s[j].hash@ by {
        assert(es[k].hash == s[k].hash@);
    }
    lemma_find_entry_skip(es, s[j].hash@, 0, j);
    assert(es.skip(0) =~= es);
}

proof fn lemma_find_entry_skip(es: Seq<HeaderEntryModel>, h: Seq<u8>, i: int, j: int)
    requires
        0 <= i <= j < es.len(),
        es[j].hash == h,
        forall|k: int| i <= k < j ==> (#[trigger] es[k]).hash != h,
    ensures
        find_entry(es.skip(i), h) == Some(es[j]),
    decreases j - i,
{
    let t = es.skip(i);
    assert(t[0] == es[i]);
    if i < j {
        lemma_find_entry_skip(es, h, i + 1, j);
        assert(t.drop_first() =~= es.skip(i + 1));
    }
    if i == 0 {
        assert(es.skip(0) =~= es);
    }
}

/// Reading back any blob of a packfile built from blobs with distinct hashes gives the
/// blob's hash, kind and plaintext: the encrypted header opens to the header, which lists
/// the blob at the offset of its record, and the record opens to the plaintext.
pub proof fn lemma_packfile_read_back(
    keys: KeyManager,
    id: Seq<u8>,
    s: Seq<BlobEncrypted>,
    plain: Seq<Seq<u8>>,
    j: int,
)
    requires
        0 <= j < s.len(),
        queue_sealed(keys, s, plain),
        hashes_distinct(s),
        aes_gcm_opened(header_key(keys), id, sealed_header(keys, id, s)) == Some(
            header_bytes(packfile_header(s)),
        ),
        sealed_header(keys, id, s).len() > 0,
        packfile_bytes(sealed_header(keys, id, s), blob_section(s)).len() <= PACKFILE_MAX_SIZE,
    ensures
        read_blob_spec(keys, id, packfile_bytes(sealed_header(keys, id, s), blob_section(s)), s[j].hash@)
            == Ok::<(Seq<u8>, BlobKind, Seq<u8>), PackfileError>((s[j].hash@, s[j].kind, plain[j])),
{
    let ct = sealed_header(keys, id, s);
    let sec = blob_section(s);
    let file = packfile_bytes(ct, sec);
    let hdr = packfile_header(s);
    lemma_pow256_values();
    lemma_le_roundtrip(ct.len(), 8);
    assert(file.subrange(0, 8) =~= le_bytes(ct.len(), 8));
    assert(file.subrange(8, 8 + ct.len() as int) =~= ct);
    assert(forall|i: int| 0 <= i < hdr.len() ==> (#[trigger] hdr[i]).hash.len() == 32);
    lemma_blob_section_len(s);
    lemma_header_roundtrip(hdr);
    lemma_find_entry_distinct(s, j);
    let e = hdr[j];
    assert(e == packfile_header_entry(s, j));
    let off = blob_section(s.take(j)).len() as int;
    lemma_blob_section_record(s, j);
    let base: int = 8 + ct.len() as int;
    assert(off < 0x8000_0000_0000_0000);
    assert(seek_target(base, e.offset) == base + off);
    assert(file.subrange(base + off, base + off + NONCE_SIZE) =~= sec.subrange(off, off + NONCE_SIZE));
    assert(file.subrange(base + off + NONCE_SIZE, base + off + NONCE_SIZE + s[j].data@.len())
        =~= sec.subrange(off + NONCE_SIZE, off + NONCE_SIZE + s[j].data@.len()));
    assert(blob_opens_to(keys, s[j], plain[j]));
}

/// The packfile `id` whose contents are `file` was written from the blobs `s`, sealed from
/// the plaintexts `plain`: its header was encrypted under the header key and the packfile's
/// ID (as encryption does, 16 bytes longer than the header), followed by the records.
pub open spec fn written_packfile(
    keys: KeyManager,
    id: Seq<u8>,
    file: Seq<u8>,
    s: Seq<BlobEncrypted>,
    plain: Seq<Seq<u8>>,
) -> bool {
    &&& file == packfile_bytes(sealed_header(keys, id, s), blob_section(s))
    &&& file.len() <= PACKFILE_MAX_SIZE
    &&& sealed_header(keys, id, s).len() > 0
    &&& hashes_distinct(s)
    &&& blobs_sealed(keys, s, plain)
}

/// The record that the header entry `e` describes, in a packfile whose blob section starts
/// at `base`, lies within `file` and holds the blob `p` sealed under the key derived from its
/// hash and the record's nonce.
pub open spec fn record_sealed(keys: KeyManager, file: Seq<u8>, base: int, e: HeaderEntryModel, p: Seq<u8>) -> bool {
    let pos = seek_target(base, e.offset);
    &&& 0 <= pos
    &&& pos + NONCE_SIZE + e.length <= file.len()
    &&& e.length <= MAX_SEALED_BLOB_SIZE
    &&& p.len() <= BLOB_MAX_UNCOMPRESSED_SIZE
    &&& file.subrange(pos + NONCE_SIZE, pos + NONCE_SIZE + e.length) == sealed_blob(
        keys.spec_derived_key(e.hash),
        file.subrange(pos, pos + NONCE_SIZE),
        p,
    )
}

/// Where things lie in a written packfile: the length field gives the encrypted header's
/// length, the header decodes back, the first entry for the `j`-th blob's hash is its own,
/// and its record holds that blob.
pub proof fn lemma_written_packfile_layout(
    keys: KeyManager,
    id: Seq<u8>,
    file: Seq<u8>,
    s: Seq<BlobEncrypted>,
    plain: Seq<Seq<u8>>,
    j: int,
)
    requires
        written_packfile(keys, id, file, s, plain),
        0 <= j < s.len(),
    ensures
        ({
            let ct = sealed_header(keys, id, s);
            let hdr = packfile_header(s);
            &&& 8 + ct.len() <= file.len()
            &&& le_value(file.subrange(0, 8)) == ct.len()
            &&& file.subrange(8, 8 + ct.len() as int) == ct
            &&& header_bytes(hdr).len() <= 0x10_0000_0000
            &&& decode_header_spec(header_bytes(hdr)) == Some(hdr)
            &&& find_entry(hdr, s[j].hash@) == Some(hdr[j])
            &&& hdr[j].hash == s[j].hash@
            &&& hdr[j].kind == s[j].kind
            &&& record_sealed(keys, file, 8 + ct.len() as int, hdr[j], plain[j])
        }),
{
    let ct = sealed_header(keys, id, s);
    let sec = blob_section(s);
    let hdr = packfile_header(s);
    lemma_pow256_values();
    lemma_le_roundtrip(ct.len(), 8);
    assert(file.subrange(0, 8) =~= le_bytes(ct.len(), 8));
    assert(file.subrange(8, 8 + ct.len() as int) =~= ct);
    assert(forall|i: int| 0 <= i < hdr.len() ==> (#[trigger] hdr[i]).hash.len() == 32);
    lemma_blob_section_len(s);
    lemma_header_roundtrip(hdr);
    lemma_header_bytes_len(hdr);
    lemma_find_entry_distinct(s, j);
    let e = hdr[j];
    assert(e == packfile_header_entry(s, j));
    let off = blob_section(s.take(j)).len() as int;
    lemma_blob_section_record(s, j);
    let base: int = 8 + ct.len() as int;
    assert(off < 0x8000_0000_0000_0000);
    assert(seek_target(base, e.offset) == base + off);
    assert(file.subrange(base + off, base + off + NONCE_SIZE) =~= sec.subrange(off, off + NONCE_SIZE));
    assert(file.subrange(base + off + NONCE_SIZE, base + off + NONCE_SIZE + s[j].data@.len())
        =~= sec.subrange(off + NONCE_SIZE, off + NONCE_SIZE + s[j].data@.len()));
    assert(s[j].data@ == sealed_blob(keys.spec_derived_key(s[j].hash@), s[j].nonce@, plain[j]));
}

/// Blobs in queue to be written to a packfile, with the plaintext of each.
struct BlobQueue {
    blobs: VecDeque<BlobEncrypted>,
    plain: Ghost<Seq<Seq<u8>>>,
}

impl BlobQueue {
    fn empty() -> (r: Self)
        ensures
            r.blobs@.len() == 0,
            r.plain@.len() == 0,
    {
        BlobQueue { blobs: VecDeque::new(), plain: Ghost(Seq::empty()) }
    }
}

/// Whether some queued blob has the hash `h`.
pub open spec fn queue_has_hash(q: Seq<BlobEncrypted>, h: Seq<u8>) -> bool {
    exists|i: int| 0 <= i < q.len() && (#[trigger] q[i]).hash@ == h
}

/// Writes blobs into packfiles, deduplicating them against the index, and keeps track of
/// the size of the packfiles written.
pub struct Manager {
    /// The keys that blobs and headers are encrypted with.
    keys: KeyManager,
    /// Blobs in queue to be written to a packfile.
    queue: BlobQueue,
    /// Keeps track if data has been successfully flushed to disk.
    dirty: bool,
    /// Index managing the blob => packfile mapping.
    index: BlobIndex,
    /// The path to the packfile folder.
    output_path: String,
    /// Total size of the packfiles written.
    packfiles_size: u64,
    /// Size of written packfiles above which writing reports that the buffer is full.
    packfiles_size_max: u64,
}

impl Manager {
    #[verifier::type_invariant]
    spec fn inv(self) -> bool {
        queue_sealed(self.keys, self.queue.blobs@, self.queue.plain@)
    }

    pub closed spec fn spec_keys(&self) -> KeyManager {
        self.keys
    }

    /// The queued blobs, oldest first.
    pub closed spec fn spec_queue(&self) -> Seq<BlobEncrypted> {
        self.queue.blobs@
    }

    /// The plaintext of each queued blob.
    pub closed spec fn spec_plain(&self) -> Seq<Seq<u8>> {
        self.queue.plain@
    }

    pub closed spec fn spec_dirty(&self) -> bool {
        self.dirty
    }

    pub closed spec fn spec_index(&self) -> BlobIndex {
        self.index
    }

    pub closed spec fn spec_output_path(&self) -> Seq<char> {
        self.output_path@
    }

    pub closed spec fn spec_packfiles_size(&self) -> u64 {
        self.packfiles_size
    }

    pub closed spec fn spec_packfiles_size_max(&self) -> u64 {
        self.packfiles_size_max
    }

    /// A manager with an empty queue writing packfiles into `output_path`, with the index
    /// `index` and the encryption keys `keys`.
    pub fn new(output_path: String, index: BlobIndex, keys: KeyManager, packfiles_size_max: u64) -> (r:
        Self)
        ensures
            r.spec_queue().len() == 0,
            r.spec_plain().len() == 0,
            !r.spec_dirty(),
            r.spec_index() == index,
            r.spec_keys() == keys,
            r.spec_output_path() == output_path@,
            r.spec_packfiles_size() == 0,
            r.spec_packfiles_size_max() == packfiles_size_max,
    {
        Manager {
            keys,
            queue: BlobQueue::empty(),
            dirty: false,
            index,
            output_path,
            packfiles_size: 0,
            packfiles_size_max,
        }
    }

    /// The index of the manager.
    pub fn index(&self) -> (r: &BlobIndex)
        ensures
            *r == self.spec_index(),
    {
        &self.index
    }

    /// The path to the packfile folder.
    pub fn output_path(&self) -> (r: &String)
        ensures
            r@ == self.spec_output_path(),
    {
        &self.output_path
    }

    /// Total size of the packfiles written.
    pub fn packfiles_size(&self) -> (r: u64)
        ensures
            r == self.spec_packfiles_size(),
    {
        self.packfiles_size
    }

    /// Whether blobs were queued since the last flush.
    pub fn is_dirty(&self) -> (r: bool)
        ensures
            r == self.spec_dirty(),
    {
        self.dirty
    }

    /// Serializes and encrypts a single packfile: generates a random packfile ID, which is
    /// also the nonce of the encrypted header, and returns it with the packfile's bytes.
    pub fn serialize_packfile(&self, data: Vec<u8>, header: &Vec<PackfileHeaderBlob>) -> (r: Result<
        (PackfileId, Vec<u8>),
        PackfileError,
    >)
        ensures
            r matches Ok((id, buf)) ==> ({
                let hb = header_bytes(header_view(header@));
                let ct = aes_gcm_sealed(header_key(self.spec_keys()), id@, hb);
                &&& buf@ == packfile_bytes(ct, data@)
                &&& ct.len() == hb.len() + 16
                &&& aes_gcm_opened(header_key(self.spec_keys()), id@, ct) == Some(hb)
            }),
            r matches Err(e) ==> e == PackfileError::GetrandomError || (e == PackfileError::CryptoError
                && header_bytes(header_view(header@)).len() > 0x10_0000_0000),
    {
        let id = match random_bytes_12() {
            Ok(x) => x,
            Err(_) => return Err(PackfileError::GetrandomError),
        };
        let key = self.keys.derive_backup_key(&KEY_DERIVATION_CONSTANT_HEADER);
        let hb = encode_header(header);
        let ct = match aes_gcm_encrypt(&key, &id, hb) {
            Ok(c) => c,
            Err(_) => return Err(PackfileError::CryptoError),
        };
        let mut buffer: Vec<u8> = Vec::new();
        proof {
            lemma_pow256_values();
        }
        write_le(&mut buffer, ct.len() as u64, 8);
        append_bytes(&mut buffer, ct.as_slice());
        append_bytes(&mut buffer, data.as_slice());
        assert(buffer@ =~= packfile_bytes(ct@, data@));
        Ok((id, buffer))
    }

    /// Takes blobs from the front of the queue into a new packfile, skipping each blob that
    /// the index already holds or that an earlier blob of the packfile has the hash of,
    /// until the packfile is full or the queue runs out, and serializes the packfile.
    /// Returns `None` when no blob went into it. The caller writes the packfile to disk and
    /// then calls `packfile_written`.
    pub fn next_packfile(&mut self) -> (r: Result<
        Option<(PackfileId, Vec<u8>, IndexPackfileHandle)>,
        PackfileError,
    >)
        ensures
            ({
                let q = old(self).spec_queue();
                let idx = old(self).spec_index();
                let keys = old(self).spec_keys();
                let k = q.len() - final(self).spec_queue().len();
                let sel = select_blobs(idx, q.take(k));
                &&& stops_after(idx, q, k)
                &&& final(self).spec_queue() == q.skip(k)
                &&& final(self).spec_plain() == old(self).spec_plain().skip(k)
                &&& hashes_distinct(sel)
                &&& queue_sealed(keys, sel, select_plain(idx, q.take(k), old(self).spec_plain().take(k)))
                &&& final(self).spec_index().spec_queued() == idx.spec_queued().union(
                    blob_hashes(sel).to_set(),
                )
                &&& final(self).spec_index().spec_items() == idx.spec_items()
                &&& final(self).spec_index().spec_buffered() == idx.spec_buffered()
                &&& final(self).spec_index().spec_last_file_num() == idx.spec_last_file_num()
                &&& final(self).spec_index().spec_dirty() == idx.spec_dirty()
                &&& final(self).spec_index().spec_output_path() == idx.spec_output_path()
                &&& final(self).spec_keys() == keys
                &&& final(self).spec_dirty() == old(self).spec_dirty()
                &&& final(self).spec_output_path() == old(self).spec_output_path()
                &&& final(self).spec_packfiles_size() == old(self).spec_packfiles_size()
                &&& final(self).spec_packfiles_size_max() == old(self).spec_packfiles_size_max()
                &&& (r matches Ok(o) ==> (o is None <==> sel.len() == 0))
                &&& (r matches Ok(Some((id, buf, h))) ==> {
                    &&& hash_list_view(h.spec_blobs()) == blob_hashes(sel)
                    &&& written_packfile(
                        keys,
                        id@,
                        buf@,
                        sel,
                        select_plain(idx, q.take(k), old(self).spec_plain().take(k)),
                    )
                    &&& buf@ == packfile_bytes(sealed_header(keys, id@, sel), blob_section(sel))
                    &&& buf@.len() <= PACKFILE_MAX_SIZE
                    &&& sealed_header(keys, id@, sel).len() > 0
                    &&& aes_gcm_opened(header_key(keys), id@, sealed_header(keys, id@, sel)) == Some(
                        header_bytes(packfile_header(sel)),
                    )
                    &&& forall|j: int|
                        0 <= j < sel.len() ==> read_blob_spec(keys, id@, buf@, (#[trigger] sel[j]).hash@)
                            == Ok::<(Seq<u8>, BlobKind, Seq<u8>), PackfileError>(
                            (
                                sel[j].hash@,
                                sel[j].kind,
                                select_plain(idx, q.take(k), old(self).spec_plain().take(k))[j],
                            ),
                        )
                })
                &&& (r matches Err(e) ==> e == PackfileError::GetrandomError && sel.len() > 0)
            }),
    {
        proof {
            use_type_invariant(&*self);
        }
        let mut queue = BlobQueue::empty();
        std::mem::swap(&mut queue, &mut self.queue);
        let mut index = BlobIndex::new(String::new(), 0);
        std::mem::swap(&mut index, &mut self.index);
        let ghost q0 = queue.blobs@;
        let ghost p0 = queue.plain@;
        let ghost idx0 = index;
        let ghost keys = self.keys;
        let mut handle = index.begin_packfile();
        let mut data: Vec<u8> = Vec::new();
        let mut header: Vec<PackfileHeaderBlob> = Vec::new();
        let mut bytes_written: usize = 0;
        let mut full = false;
        let ghost mut k: int = 0;
        proof {
            assert(q0.take(0) =~= Seq::<BlobEncrypted>::empty());
            assert(p0.take(0) =~= Seq::<Seq<u8>>::empty());
            assert(q0.skip(0) =~= q0);
            assert(p0.skip(0) =~= p0);
            assert(blob_hashes(Seq::<BlobEncrypted>::empty()).to_set() =~= Set::<Seq<u8>>::empty());
            assert(idx0.spec_queued().union(Set::<Seq<u8>>::empty()) =~= idx0.spec_queued());
            assert(header_view(header@) =~= packfile_header(Seq::<BlobEncrypted>::empty()));
            assert(hash_list_view(handle.spec_blobs()) =~= blob_hashes(Seq::<BlobEncrypted>::empty()));
        }
        while !full && queue.blobs.len() > 0
            invariant
                0 <= k <= q0.len(),
                p0.len() == q0.len(),
                queue_sealed(keys, q0, p0),
                queue_sealed(keys, queue.blobs@, queue.plain@),
                keys == self.keys,
                queue.blobs@ == q0.skip(k),
                queue.plain@ == p0.skip(k),
                forall|j: int| 0 <= j < k ==> !packfile_full(#[trigger] select_blobs(idx0, q0.take(j))),
                full == packfile_full(select_blobs(idx0, q0.take(k))),
                data@ == blob_section(select_blobs(idx0, q0.take(k))),
                header_view(header@) == packfile_header(select_blobs(idx0, q0.take(k))),
                hash_list_view(handle.spec_blobs()) == blob_hashes(select_blobs(idx0, q0.take(k))),
                queue_sealed(keys, select_blobs(idx0, q0.take(k)), select_plain(idx0, q0.take(k), p0.take(k))),
                index.spec_queued() == idx0.spec_queued().union(
                    blob_hashes(select_blobs(idx0, q0.take(k))).to_set(),
                ),
                index.spec_items() == idx0.spec_items(),
                index.spec_buffered() == idx0.spec_buffered(),
                index.spec_last_file_num() == idx0.spec_last_file_num(),
                index.spec_dirty() == idx0.spec_dirty(),
                index.spec_output_path() == idx0.spec_output_path(),
                bytes_written == data@.len(),
                header@.len() == select_blobs(idx0, q0.take(k)).len(),
                !full ==> data@.len() < PACKFILE_TARGET_SIZE && header@.len() < PACKFILE_MAX_BLOBS,
                data@.len() < PACKFILE_TARGET_SIZE + MAX_SEALED_BLOB_SIZE + NONCE_SIZE,
                header@.len() <= PACKFILE_MAX_BLOBS,
            decreases queue.blobs@.len(),
        {
            let ghost sel = select_blobs(idx0, q0.take(k));
            let ghost selp = select_plain(idx0, q0.take(k), p0.take(k));
            let blob = queue.blobs.pop_front().unwrap();
            queue.plain = Ghost(queue.plain@.drop_first());
            proof {
                assert(blob == q0[k]);
                assert(q0.take(k + 1).drop_last() =~= q0.take(k));
                assert(q0.take(k + 1).last() == q0[k]);
                assert(p0.take(k + 1).drop_last() =~= p0.take(k));
                assert(p0.take(k + 1).last() == p0[k]);
                assert(queue.blobs@ =~= q0.skip(k + 1));
                assert(queue.plain@ =~= p0.skip(k + 1));
                assert forall|i: int| 0 <= i < queue.blobs@.len() implies blob_opens_to(
                    keys,
                    #[trigger] queue.blobs@[i],
                    queue.plain@[i],
                ) && queue.blobs@[i].data@.len() <= MAX_SEALED_BLOB_SIZE by {
                    assert(queue.blobs@[i] == q0[k + 1 + i]);
                    assert(queue.plain@[i] == p0[k + 1 + i]);
                }
                assert(blob_opens_to(keys, q0[k], p0[k]));
                k = k + 1;
            }
            if index.is_blob_duplicate(&blob.hash) {
                proof {
                    assert(idx0.spec_is_duplicate(blob.hash@) || blob_hashes(sel).contains(blob.hash@));
                    assert(select_blobs(idx0, q0.take(k)) == sel);
                    assert(select_plain(idx0, q0.take(k), p0.take(k)) == selp);
                }
            } else {
                proof {
                    assert(!idx0.spec_is_duplicate(blob.hash@));
                    assert(!blob_hashes(sel).to_set().contains(blob.hash@));
                }
                let ghost nsel = sel.push(blob);
                header.push(
                    PackfileHeaderBlob {
                        hash: blob.hash,
                        kind: blob.kind,
                        compression: CompressionKind::Zstd,
                        offset: bytes_written as u64,
                        length: blob.data.len() as u64,
                    },
                );
                bytes_written = bytes_written + blob.data.len() + NONCE_SIZE;
                append_bytes(&mut data, &blob.nonce);
                append_bytes(&mut data, blob.data.as_slice());
                let added = index.add_to_packfile(&mut handle, blob.hash);
                full = bytes_written >= PACKFILE_TARGET_SIZE || header.len() >= PACKFILE_MAX_BLOBS;
                proof {
                    assert(select_blobs(idx0, q0.take(k)) == nsel);
                    assert(select_plain(idx0, q0.take(k), p0.take(k)) == selp.push(p0[k - 1]));
                    assert(nsel.drop_last() =~= sel);
                    assert(nsel.last() == blob);
                    assert(data@ =~= blob_section(nsel));
                    assert forall|j: int| 0 <= j < nsel.len() implies #[trigger] header_view(
                        header@,
                    )[j] == packfile_header(nsel)[j] by {
                        if j < sel.len() {
                            assert(nsel.take(j) =~= sel.take(j));
                            assert(nsel[j] == sel[j]);
                            assert(header_view(header@)[j] == packfile_header(sel)[j]);
                        } else {
                            assert(nsel.take(j) =~= sel);
                        }
                    }
                    assert(header_view(header@) =~= packfile_header(nsel));
                    assert(blob_hashes(nsel) =~= blob_hashes(sel).push(blob.hash@));
                    assert(hash_list_view(handle.spec_blobs()) =~= blob_hashes(nsel));
                    let ha = blob_hashes(nsel);
                    let hb = blob_hashes(sel);
                    assert forall|x: Seq<u8>| ha.contains(x) <==> (hb.contains(x) || x == blob.hash@) by {
                        if ha.contains(x) {
                            let i = choose|i: int| 0 <= i < ha.len() && ha[i] == x;
                            if i < hb.len() {
                                assert(hb[i] == x);
                            }
                        }
                        if hb.contains(x) {
                            let i = choose|i: int| 0 <= i < hb.len() && hb[i] == x;
                            assert(ha[i] == x);
                        }
                        if x == blob.hash@ {
                            assert(ha[hb.len() as int] == x);
                        }
                    }
                    assert(ha.to_set() =~= hb.to_set().insert(blob.hash@));
                    assert(index.spec_queued() =~= idx0.spec_queued().union(
                        blob_hashes(nsel).to_set(),
                    ));
                    let nselp = selp.push(p0[k - 1]);
                    assert forall|i: int| 0 <= i < nsel.len() implies blob_opens_to(
                        keys,
                        #[trigger] nsel[i],
                        nselp[i],
                    ) && nsel[i].data@.len() <= MAX_SEALED_BLOB_SIZE by {
                        if i < sel.len() {
                            assert(nsel[i] == sel[i]);
                            assert(nselp[i] == selp[i]);
                        }
                    }
                }
            }
        }
        proof {
            if !full {
                assert(queue.blobs@.len() == 0);
                assert(k == q0.len());
            }
            lemma_select_distinct(idx0, q0.take(k));
        }
        if header.len() == 0 {
            self.queue = queue;
            self.index = index;
            return Ok(None);
        }
        let ghost sel = select_blobs(idx0, q0.take(k));
        proof {
            assert forall|i: int| 0 <= i < header_view(header@).len() implies (
            #[trigger] header_view(header@)[i]).hash.len() == 32 by {
                assert(header_view(header@)[i] == packfile_header(sel)[i]);
            }
            lemma_header_bytes_len(header_view(header@));
            let n = header@.len();
            assert(52 * n <= 5_200_000) by (nonlinear_arith)
                requires
                    n <= 100_000,
            ;
        }
        let ser = self.serialize_packfile(data, &header);
        self.queue = queue;
        self.index = index;
        match ser {
            Ok((id, buf)) => {
                proof {
                    crate::encoding::lemma_le_bytes_len(sealed_header(keys, id@, sel).len(), 8);
                    let selp = select_plain(idx0, q0.take(k), p0.take(k));
                    assert forall|j: int| 0 <= j < sel.len() implies read_blob_spec(
                        keys,
                        id@,
                        buf@,
                        (#[trigger] sel[j]).hash@,
                    ) == Ok::<(Seq<u8>, BlobKind, Seq<u8>), PackfileError>(
                        (sel[j].hash@, sel[j].kind, selp[j]),
                    ) by {
                        lemma_packfile_read_back(keys, id@, sel, selp, j);
                    }
                }
                Ok(Some((id, buf, handle)))
            },
            Err(e) => Err(e),
        }
    }

    /// Adds the blobs of a packfile that was written to disk to the index, starting with
    /// the blob at `start`, and stopping early when the index's write buffer becomes full.
    /// Returns the position of the first blob that was not added; when it is short of the
    /// number of blobs, the caller flushes the index and calls again from there.
    pub fn finalize_packfile(&mut self, handle: &IndexPackfileHandle, packfile_id: PackfileId, start: usize) -> (r:
        usize)
        requires
            start <= handle.spec_blobs().len(),
        ensures
            start <= r <= handle.spec_blobs().len(),
            final(self).spec_index().spec_buffered() == old(self).spec_index().spec_buffered()
                + handle.spec_blobs().subrange(start as int, r as int).map_values(
                |h: BlobHash| (h, packfile_id),
            ),
            r < handle.spec_blobs().len() ==> final(self).spec_index().needs_flush_spec(),
            final(self).spec_index().spec_items() == old(self).spec_index().spec_items(),
            final(self).spec_index().spec_queued() == old(self).spec_index().spec_queued(),
            final(self).spec_index().spec_last_file_num() == old(self).spec_index().spec_last_file_num(),
            r > start ==> final(self).spec_index().spec_dirty(),
            r == start ==> final(self).spec_index().spec_dirty() == old(self).spec_index().spec_dirty(),
            final(self).spec_queue() == old(self).spec_queue(),
            final(self).spec_plain() == old(self).spec_plain(),
            final(self).spec_keys() == old(self).spec_keys(),
            final(self).spec_dirty() == old(self).spec_dirty(),
            final(self).spec_packfiles_size() == old(self).spec_packfiles_size(),
            final(self).spec_packfiles_size_max() == old(self).spec_packfiles_size_max(),
            final(self).spec_output_path() == old(self).spec_output_path(),
    {
        proof {
            use_type_invariant(&*self);
        }
        let mut index = BlobIndex::new(String::new(), 0);
        std::mem::swap(&mut index, &mut self.index);
        let r = index.finalize_packfile(handle, packfile_id, start);
        self.index = index;
        r
    }

    /// Records a written packfile of `len` bytes in the total size of written packfiles.
    /// Returns whether the total before it was over the limit.
    pub fn packfile_written(&mut self, len: usize) -> (r: bool)
        ensures
            r == (old(self).spec_packfiles_size() > old(self).spec_packfiles_size_max()),
            final(self).spec_packfiles_size() == (old(self).spec_packfiles_size() + len) % 0x1_0000_0000_0000_0000,
            final(self).spec_queue() == old(self).spec_queue(),
            final(self).spec_plain() == old(self).spec_plain(),
            final(self).spec_index() == old(self).spec_index(),
            final(self).spec_keys() == old(self).spec_keys(),
            final(self).spec_dirty() == old(self).spec_dirty(),
            final(self).spec_packfiles_size_max() == old(self).spec_packfiles_size_max(),
            final(self).spec_output_path() == old(self).spec_output_path(),
    {
        proof {
            use_type_invariant(&*self);
        }
        let previous = self.packfiles_size;
        self.packfiles_size = previous.wrapping_add(len as u64);
        previous > self.packfiles_size_max
    }

    /// The outcome of writing packfiles: the total size of written packfiles, or
    /// `ExceededBufferLimit` when the limit was exceeded and the caller asked to hear of it.
    pub fn write_outcome(&self, buffer_limit_exceeded: bool, report_buffer_limit: bool) -> (r: Result<
        u64,
        PackfileError,
    >)
        ensures
            buffer_limit_exceeded && report_buffer_limit ==> r == Err::<u64, PackfileError>(
                PackfileError::ExceededBufferLimit,
            ),
            !(buffer_limit_exceeded && report_buffer_limit) ==> r == Ok::<u64, PackfileError>(
                self.spec_packfiles_size(),
            ),
    {
        if buffer_limit_exceeded && report_buffer_limit {
            Err(PackfileError::ExceededBufferLimit)
        } else {
            Ok(self.packfiles_size)
        }
    }

    /// The number, file name and encrypted contents of the next index file, holding the
    /// index's write buffer. The caller writes the file and then calls `index_flush_done`.
    pub fn index_flush_contents(&self) -> (r: Result<(u32, String, Vec<u8>), PackfileError>)
        requires
            self.spec_index().spec_last_file_num() < u32::MAX,
        ensures
            r matches Ok((num, name, data)) ==> num == self.spec_index().spec_last_file_num() + 1
                && name@ == decimal_padded10(num) && data@ == aes_gcm_sealed(
                self.spec_keys().spec_derived_key(INDEX_KEY_DERIVATION_CONSTANT@),
                index_nonce(num),
                index_bytes(index_view(self.spec_index().spec_buffered())),
            ) && aes_gcm_opened(
                self.spec_keys().spec_derived_key(INDEX_KEY_DERIVATION_CONSTANT@),
                index_nonce(num),
                data@,
            ) == Some(index_bytes(index_view(self.spec_index().spec_buffered())))
                && index_file_written(self.spec_keys(), num, data@, self.spec_index().spec_buffered()),
            r matches Err(e) ==> e == PackfileError::CryptoError,
            index_bytes(index_view(self.spec_index().spec_buffered())).len() <= 0x10_0000_0000 ==> r is Ok,
    {
        self.index.flush_contents(&self.keys)
    }

    /// Records that the index file numbered `file_num` holding the index's write buffer was
    /// written.
    pub fn index_flush_done(&mut self, file_num: u32)
        ensures
            final(self).spec_index().spec_last_file_num() == file_num,
            final(self).spec_index().spec_buffered().len() == 0,
            !final(self).spec_index().spec_dirty(),
            final(self).spec_index().spec_items() == old(self).spec_index().spec_items(),
            final(self).spec_index().spec_queued() == old(self).spec_index().spec_queued(),
            final(self).spec_index().spec_output_path() == old(self).spec_index().spec_output_path(),
            final(self).spec_queue() == old(self).spec_queue(),
            final(self).spec_plain() == old(self).spec_plain(),
            final(self).spec_keys() == old(self).spec_keys(),
            final(self).spec_dirty() == old(self).spec_dirty(),
            final(self).spec_packfiles_size() == old(self).spec_packfiles_size(),
            final(self).spec_packfiles_size_max() == old(self).spec_packfiles_size_max(),
            final(self).spec_output_path() == old(self).spec_output_path(),
    {
        proof {
            use_type_invariant(&*self);
        }
        let mut index = BlobIndex::new(String::new(), 0);
        std::mem::swap(&mut index, &mut self.index);
        index.flush_done(file_num);
        self.index = index;
    }

    /// Records that all queued blobs and the index were written to disk.
    pub fn flush_done(&mut self)
        ensures
            !final(self).spec_dirty(),
            final(self).spec_queue() == old(self).spec_queue(),
            final(self).spec_plain() == old(self).spec_plain(),
            final(self).spec_index() == old(self).spec_index(),
            final(self).spec_keys() == old(self).spec_keys(),
            final(self).spec_packfiles_size() == old(self).spec_packfiles_size(),
            final(self).spec_packfiles_size_max() == old(self).spec_packfiles_size_max(),
            final(self).spec_output_path() == old(self).spec_output_path(),
    {
        proof {
            use_type_invariant(&*self);
        }
        self.dirty = false;
    }

    /// Finds the packfile that contains the blob.
    pub fn find_packfile(&self, blob_hash: &BlobHash) -> (r: Option<PackfileId>)
        ensures
            r is None <==> !self.spec_index().spec_known(blob_hash@),
            r matches Some(p) ==> self.spec_index().spec_items().contains((*blob_hash, p)),
    {
        self.index.find_packfile(blob_hash)
    }

    /// Reads the blob `blob_hash` from the packfile `packfile_id` whose contents are `file`.
    pub fn get_blob(&self, packfile_id: &PackfileId, file: &[u8], blob_hash: &BlobHash) -> (r: Result<
        Blob,
        PackfileError,
    >)
        ensures
            blob_read_matches(r, read_blob_spec(self.spec_keys(), packfile_id@, file@, blob_hash@)),
            forall|s: Seq<BlobEncrypted>, plain: Seq<Seq<u8>>, j: int|
                #![trigger written_packfile(self.spec_keys(), packfile_id@, file@, s, plain), s[j]]
                written_packfile(self.spec_keys(), packfile_id@, file@, s, plain) && 0 <= j < s.len()
                    && s[j].hash@ == blob_hash@ ==> (r matches Ok(b) && b.hash@ == blob_hash@ && b.kind
                    == s[j].kind && b.data@ == plain[j]),
    {
        read_blob(&self.keys, packfile_id, file, blob_hash)
    }

    /// Compresses and encrypts blob data, with a key derived from the blob's hash and a
    /// random nonce. Returns the encrypted data and the nonce.
    pub fn compress_encrypt_blob(&self, blob: &Blob) -> (r: Result<(Vec<u8>, BlobNonce), PackfileError>)
        ensures
            r matches Ok((c, n)) ==> c@ == sealed_blob(
                self.spec_keys().spec_derived_key(blob.hash@),
                n@,
                blob.data@,
            ) && (blob.data@.len() <= BLOB_MAX_UNCOMPRESSED_SIZE ==> c@.len()
                <= MAX_SEALED_BLOB_SIZE && blob_opens_to(
                self.spec_keys(),
                BlobEncrypted { hash: blob.hash, kind: blob.kind, data: c, nonce: n },
                blob.data@,
            )),
            r matches Err(e) ==> e == PackfileError::IoError || e == PackfileError::GetrandomError
                || e == PackfileError::CryptoError,
            blob.data@.len() <= BLOB_MAX_UNCOMPRESSED_SIZE ==> (r matches Err(e) ==> e
                == PackfileError::IoError || e == PackfileError::GetrandomError),
    {
        let compressed = match zstd_compress(ZSTD_COMPRESSION_LEVEL, blob.data.as_slice()) {
            Ok(c) => c,
            Err(_) => return Err(PackfileError::IoError),
        };
        let key = self.keys.derive_backup_key(&blob.hash);
        let nonce = match random_bytes_12() {
            Ok(n) => n,
            Err(_) => return Err(PackfileError::GetrandomError),
        };
        let ghost z = compressed@;
        match aes_gcm_encrypt(&key, &nonce, compressed) {
            Ok(c) => {
                proof {
                    if blob.data@.len() <= BLOB_MAX_UNCOMPRESSED_SIZE {
                        let n = blob.data@.len();
                        assert(zstd_compress_bound(n) <= 3_158_016) by (nonlinear_arith)
                            requires
                                n <= 3145728,
                        ;
                        assert(zstd_decompressed(z, BLOB_MAX_UNCOMPRESSED_SIZE as nat) == Some(
                            blob.data@,
                        ));
                    }
                }
                Ok((c, nonce))
            },
            Err(_) => {
                proof {
                    if blob.data@.len() <= BLOB_MAX_UNCOMPRESSED_SIZE {
                        let n = blob.data@.len();
                        assert(zstd_compress_bound(n) <= 3_158_016) by (nonlinear_arith)
                            requires
                                n <= 3145728,
                        ;
                    }
                }
                Err(PackfileError::CryptoError)
            },
        }
    }

    /// Whether the queued blobs that the index does not hold yet fill a packfile.
    pub fn write_desired(&self) -> (r: bool)
        ensures
            r == write_desired_spec(self.spec_index(), self.spec_queue()),
    {
        let ghost q = self.queue.blobs@;
        let ghost idx = self.index;
        let n = self.queue.blobs.len();
        let mut size: usize = 0;
        let mut cnt: usize = 0;
        let mut i: usize = 0;
        assert(q.take(0) =~= Seq::<BlobEncrypted>::empty());
        while i < n
            invariant
                n == q.len(),
                q == self.queue.blobs@,
                idx == self.index,
                i <= n,
                size == candidate_size(idx, q.take(i as int)),
                cnt == candidate_count(idx, q.take(i as int)),
                size < PACKFILE_TARGET_SIZE,
                cnt < PACKFILE_MAX_BLOBS,
            decreases n - i,
        {
            assert(q.take(i + 1).drop_last() =~= q.take(i as int));
            assert(q.take(i + 1).last() == q[i as int]);
            let b = &self.queue.blobs[i];
            if !self.index.is_blob_duplicate(&b.hash) {
                if b.data.len() >= PACKFILE_TARGET_SIZE - size {
                    proof {
                        lemma_candidates_monotone(idx, q, i + 1);
                    }
                    return true;
                }
                size = size + b.data.len();
                cnt = cnt + 1;
                if cnt >= PACKFILE_MAX_BLOBS {
                    proof {
                        lemma_candidates_monotone(idx, q, i + 1);
                    }
                    return true;
                }
            }
            i = i + 1;
        }
        assert(q.take(n as int) =~= q);
        false
    }

    /// Whether a blob with the hash `hash` is already queued.
    pub fn queue_holds(&self, hash: &BlobHash) -> (r: bool)
        ensures
            r == queue_has_hash(self.spec_queue(), hash@),
    {
        let n = self.queue.blobs.len();
        let mut i: usize = 0;
        while i < n
            invariant
                n == self.queue.blobs@.len(),
                i <= n,
                forall|j: int| 0 <= j < i ==> (#[trigger] self.queue.blobs@[j]).hash@ != hash@,
            decreases n - i,
        {
            if crate::keyed::bytes_equal(&self.queue.blobs[i].hash, hash) {
                return true;
            }
            i = i + 1;
        }
        false
    }

    /// Queues a blob to be written to a packfile. A blob that is already queued, or that the
    /// index already holds, is not queued again, so that identical data is stored once.
    /// Returns whether the queue now fills a packfile, so that the caller should write
    /// packfiles.
    pub fn add_blob(&mut self, blob: Blob) -> (r: Result<bool, PackfileError>)
        ensures
            blob.data@.len() > BLOB_MAX_UNCOMPRESSED_SIZE ==> r == Err::<bool, PackfileError>(
                PackfileError::BlobTooLarge,
            ) && *final(self) == *old(self),
            blob.data@.len() <= BLOB_MAX_UNCOMPRESSED_SIZE && (old(self).spec_index().spec_is_duplicate(
                blob.hash@,
            ) || queue_has_hash(old(self).spec_queue(), blob.hash@)) ==> r == Ok::<bool, PackfileError>(
                false,
            ) && *final(self) == *old(self),
            r matches Err(e) ==> *final(self) == *old(self) && (e == PackfileError::BlobTooLarge
                || e == PackfileError::IoError || e == PackfileError::GetrandomError || e
                == PackfileError::CryptoError),
            blob.data@.len() <= BLOB_MAX_UNCOMPRESSED_SIZE ==> (r matches Err(e) ==> e
                == PackfileError::IoError || e == PackfileError::GetrandomError),
            blob.data@.len() <= BLOB_MAX_UNCOMPRESSED_SIZE && !old(self).spec_index().spec_is_duplicate(
                blob.hash@,
            ) && !queue_has_hash(old(self).spec_queue(), blob.hash@) ==> (r matches Ok(w) ==> final(self).spec_queue().len() == old(self).spec_queue().len()
                + 1 && final(self).spec_queue().drop_last() == old(self).spec_queue()
                && final(self).spec_queue().last().hash == blob.hash
                && final(self).spec_queue().last().kind == blob.kind
                && final(self).spec_queue().last().data@ == sealed_blob(
                old(self).spec_keys().spec_derived_key(blob.hash@),
                final(self).spec_queue().last().nonce@,
                blob.data@,
            ) && final(self).spec_plain() == old(self).spec_plain().push(blob.data@)
                && final(self).spec_dirty() && final(self).spec_index() == old(self).spec_index()
                && final(self).spec_keys() == old(self).spec_keys()
                && final(self).spec_output_path() == old(self).spec_output_path()
                && final(self).spec_packfiles_size() == old(self).spec_packfiles_size()
                && final(self).spec_packfiles_size_max() == old(self).spec_packfiles_size_max()
                && w == write_desired_spec(final(self).spec_index(), final(self).spec_queue())),
    {
        proof {
            use_type_invariant(&*self);
        }
        if blob.data.len() > BLOB_MAX_UNCOMPRESSED_SIZE {
            return Err(PackfileError::BlobTooLarge);
        }
        if self.index.is_blob_duplicate(&blob.hash) || self.queue_holds(&blob.hash) {
            return Ok(false);
        }
        let (data, nonce) = match self.compress_encrypt_blob(&blob) {
            Ok(x) => x,
            Err(e) => return Err(e),
        };
        let enc = BlobEncrypted { hash: blob.hash, kind: blob.kind, data, nonce };
        let mut queue = BlobQueue::empty();
        std::mem::swap(&mut queue, &mut self.queue);
        let ghost old_blobs = queue.blobs@;
        let ghost old_plain = queue.plain@;
        queue.blobs.push_back(enc);
        queue.plain = Ghost(old_plain.push(blob.data@));
        proof {
            assert forall|i: int| 0 <= i < queue.blobs@.len() implies blob_opens_to(
                self.keys,
                #[trigger] queue.blobs@[i],
                queue.plain@[i],
            ) && queue.blobs@[i].data@.len() <= MAX_SEALED_BLOB_SIZE by {
                if i < old_blobs.len() {
                    assert(queue.blobs@[i] == old_blobs[i]);
                }
            }
            assert(queue.blobs@.drop_last() =~= old_blobs);
        }
        self.queue = queue;
        self.dirty = true;
        Ok(self.write_desired())
    }
}

} // verus!
