//! The index: mappings of blob => packfile, used for quickly finding the packfile that holds
//! a blob and for deduplication.
//!
//! On disk, the index is a folder of files numbered sequentially, each holding at most
//! `MAX_FILE_ENTRIES` entries, encrypted with a key derived from the backup key and the
//! constant "index", with the file number as nonce. In memory, the loaded entries are kept
//! sorted by blob hash for binary search; new entries are buffered until they are flushed
//! into a new file.
use vstd::prelude::*;

use crate::blob::PackfileError;
use crate::crypto::{aes_gcm_decrypt, aes_gcm_encrypt, aes_gcm_opened, aes_gcm_sealed};
use crate::formats::{
    decode_index, decode_index_spec, encode_index, index_bytes, index_entry_view, index_view,
    lemma_index_roundtrip, IndexEntry,
};
use crate::hash_order::{
    entry_keys_view, hash_list_view, hashes_sorted, lex_le, lex_lt, lemma_lex_asymmetric,
    lemma_lex_irreflexive, lemma_lex_le_transitive, search_entries, search_hashes, search_result_ok,
};
use crate::key_manager::KeyManager;
use crate::text::{decimal_padded10, format_padded10, parse_u32, parse_u32_spec};
use crate::types::{BlobHash, PackfileId};

verus! {

/// Maximum number of entries in one index file.
pub const MAX_FILE_ENTRIES: usize = 50_000;

/// The key derivation constant of index files, "index".
pub const KEY_DERIVATION_CONSTANT: [u8; 5] = [105, 110, 100, 101, 120];

/// The hashes are in strictly increasing lexicographic order.
pub open spec fn hashes_strictly_sorted(v: Seq<Seq<u8>>) -> bool {
    forall|i: int, j: int| 0 <= i < j < v.len() ==> lex_lt(#[trigger] v[i], #[trigger] v[j])
}

/// Sorts index entries by blob hash with `sort_unstable_by_key`.
#[verifier::external_body]
fn sort_entries_by_hash(v: &mut Vec<IndexEntry>)
    ensures
        final(v)@.to_multiset() == old(v)@.to_multiset(),
        final(v)@.len() == old(v)@.len(),
        hashes_sorted(entry_keys_view(final(v)@)),
{
    v.sort_unstable_by_key(|&(a, _)| a);
}

/// `data` is the index file numbered `file_num` written from the entries `es`: their encoding,
/// encrypted under the index key and the file's nonce.
pub open spec fn index_file_written(keys: KeyManager, file_num: u32, data: Seq<u8>, es: Seq<IndexEntry>) -> bool {
    &&& data == aes_gcm_sealed(
        keys.spec_derived_key(KEY_DERIVATION_CONSTANT@),
        index_nonce(file_num),
        index_bytes(index_view(es)),
    )
    &&& data.len() <= 0x10_0000_0010
    &&& es.len() <= usize::MAX
}

/// Entries with the same view are the same entries.
proof fn lemma_index_view_injective(a: Seq<IndexEntry>, b: Seq<IndexEntry>)
    requires
        index_view(a) == index_view(b),
    ensures
        a == b,
{
    assert(a.len() == index_view(a).len());
    assert forall|i: int| 0 <= i < a.len() implies a[i] == b[i] by {
        assert(index_view(a)[i] == index_view(b)[i]);
        assert(a[i].0 =~= b[i].0);
        assert(a[i].1 =~= b[i].1);
    }
    assert(a =~= b);
}

/// The nonce of the index file numbered `file_number`: its little-endian bytes, then zeros.
pub open spec fn index_nonce(file_number: u32) -> Seq<u8> {
    Seq::new(
        12,
        |i: int|
            if i < 4 {
                ((file_number as nat / crate::encoding::pow256(i as nat)) % 256) as u8
            } else {
                0u8
            },
    )
}

/// The number a file name stands for, or 0 when it is not a number.
pub open spec fn number_or_zero(name: Seq<char>) -> u32 {
    match parse_u32_spec(name) {
        Some(v) => v,
        None => 0,
    }
}

/// Index is a set of files containing mappings of blob => packfile.
pub struct BlobIndex {
    /// Path to the index folder.
    output_path: String,
    /// Index entries loaded from disk, sorted by blob hash.
    items: Vec<IndexEntry>,
    /// Index entries waiting to be written to disk.
    items_buf: Vec<IndexEntry>,
    /// All blob hashes that have been queued for writing or have already been written, sorted.
    blobs_queued: Vec<BlobHash>,
    /// Numeric ID of the last written index file.
    last_file_num: u32,
    /// Keeps track if index has been successfully flushed to disk.
    dirty: bool,
}

/// The blobs of a packfile that is being built.
pub struct IndexPackfileHandle {
    /// Blobs contained in the currently constructed packfile.
    blobs: Vec<BlobHash>,
}

impl IndexPackfileHandle {
    pub closed spec fn spec_blobs(&self) -> Seq<BlobHash> {
        self.blobs@
    }

    /// The number of blobs in the packfile.
    pub fn len(&self) -> (r: usize)
        ensures
            r == self.spec_blobs().len(),
    {
        self.blobs.len()
    }
}

impl BlobIndex {
    #[verifier::type_invariant]
    spec fn inv(self) -> bool {
        &&& hashes_sorted(entry_keys_view(self.items@))
        &&& hashes_strictly_sorted(hash_list_view(self.blobs_queued@))
    }

    /// Entries loaded from disk, sorted by hash.
    pub closed spec fn spec_items(&self) -> Seq<IndexEntry> {
        self.items@
    }

    /// Entries waiting to be written.
    pub closed spec fn spec_buffered(&self) -> Seq<IndexEntry> {
        self.items_buf@
    }

    /// Hashes queued for writing or written this session.
    pub closed spec fn spec_queued(&self) -> Set<Seq<u8>> {
        hash_list_view(self.blobs_queued@).to_set()
    }

    pub closed spec fn spec_last_file_num(&self) -> u32 {
        self.last_file_num
    }

    pub closed spec fn spec_dirty(&self) -> bool {
        self.dirty
    }

    pub closed spec fn spec_output_path(&self) -> Seq<char> {
        self.output_path@
    }

    /// Whether some loaded entry is for blob `h`.
    pub open spec fn spec_known(&self, h: Seq<u8>) -> bool {
        exists|i: int| 0 <= i < self.spec_items().len() && #[trigger] self.spec_items()[i].0@ == h
    }

    /// Whether the blob is queued or known, so that it is not stored again.
    pub open spec fn spec_is_duplicate(&self, h: Seq<u8>) -> bool {
        self.spec_queued().contains(h) || self.spec_known(h)
    }

    /// An empty index for the folder `output_path`, whose last file is `last_file_num`.
    pub fn new(output_path: String, last_file_num: u32) -> (r: Self)
        ensures
            r.spec_items().len() == 0,
            r.spec_buffered().len() == 0,
            r.spec_queued() == Set::<Seq<u8>>::empty(),
            r.spec_last_file_num() == last_file_num,
            !r.spec_dirty(),
            r.spec_output_path() == output_path@,
    {
        let r = BlobIndex {
            output_path,
            items: Vec::new(),
            items_buf: Vec::new(),
            blobs_queued: Vec::new(),
            last_file_num,
            dirty: false,
        };
        assert(hash_list_view(r.blobs_queued@).to_set() =~= Set::<Seq<u8>>::empty());
        r
    }

    /// The folder of the index files.
    pub fn output_path(&self) -> (r: &String)
        ensures
            r@ == self.spec_output_path(),
    {
        &self.output_path
    }

    /// The number of the last written index file.
    pub fn last_file_num(&self) -> (r: u32)
        ensures
            r == self.spec_last_file_num(),
    {
        self.last_file_num
    }

    /// Whether entries were added since the last flush.
    pub fn is_dirty(&self) -> (r: bool)
        ensures
            r == self.spec_dirty(),
    {
        self.dirty
    }

    /// Converts a file number to a nonce.
    pub fn counter_to_nonce(file_number: u32) -> (r: [u8; 12])
        ensures
            r@ == index_nonce(file_number),
    {
        let mut nonce_bytes = [0u8; 12];
        let mut x = file_number;
        let mut i: usize = 0;
        assert(crate::encoding::pow256(0) == 1);
        while i < 4
            invariant
                i <= 4,
                nonce_bytes@.len() == 12,
                x as nat == file_number as nat / crate::encoding::pow256(i as nat),
                forall|j: int| 0 <= j < i ==> nonce_bytes@[j] == index_nonce(file_number)[j],
                forall|j: int| i <= j < 12 ==> nonce_bytes@[j] == 0,
            decreases 4 - i,
        {
            nonce_bytes[i] = (x % 256) as u8;
            proof {
                crate::encoding::lemma_pow256_positive(i as nat);
                vstd::arithmetic::div_mod::lemma_div_denominator(
                    file_number as int,
                    crate::encoding::pow256(i as nat) as int,
                    256,
                );
                crate::encoding::lemma_pow256_positive(i as nat);
                assert(crate::encoding::pow256((i + 1) as nat) == 256 * crate::encoding::pow256(i as nat));
                assert(crate::encoding::pow256(i as nat) * 256 == 256 * crate::encoding::pow256(i as nat)) by (nonlinear_arith);
            }
            x = x / 256;
            i = i + 1;
        }
        assert(nonce_bytes@ =~= index_nonce(file_number));
        nonce_bytes
    }

    /// Decrypts and decodes the index file numbered `file_num`, adding its entries.
    pub fn load_file(&mut self, keys: &KeyManager, file_num: u32, data: Vec<u8>) -> (r: Result<
        (),
        PackfileError,
    >)
        ensures
            match aes_gcm_opened(
                keys.spec_derived_key(KEY_DERIVATION_CONSTANT@),
                index_nonce(file_num),
                data@,
            ) {
                None => r == Err::<(), PackfileError>(PackfileError::CryptoError)
                    && final(self).spec_items() == old(self).spec_items(),
                Some(p) => match decode_index_spec(p) {
                    None => r == Err::<(), PackfileError>(PackfileError::SerializationError)
                        && final(self).spec_items() == old(self).spec_items(),
                    Some(loaded) => r is Ok && exists|es: Seq<IndexEntry>|
                        #[trigger] index_view(es) == loaded
                            && final(self).spec_items().to_multiset() == old(
                            self,
                        ).spec_items().to_multiset().add(es.to_multiset()),
                },
            },
            final(self).spec_buffered() == old(self).spec_buffered(),
            final(self).spec_queued() == old(self).spec_queued(),
            final(self).spec_last_file_num() == old(self).spec_last_file_num(),
            final(self).spec_dirty() == old(self).spec_dirty(),
            final(self).spec_output_path() == old(self).spec_output_path(),
            forall|es: Seq<IndexEntry>|
                #[trigger] index_file_written(*keys, file_num, data@, es) ==> r is Ok
                    && final(self).spec_items().to_multiset() == old(self).spec_items().to_multiset().add(
                    es.to_multiset(),
                ),
            forall|es: Seq<IndexEntry>, i: int|
                #[trigger] index_file_written(*keys, file_num, data@, es) && 0 <= i < es.len()
                    ==> final(self).spec_items().contains(#[trigger] es[i]) && final(self).spec_known(
                    es[i].0@,
                ),
    {
        proof {
            use_type_invariant(&*self);
        }
        let ghost data_view = data@;
        let key = keys.derive_backup_key(&KEY_DERIVATION_CONSTANT);
        let nonce = Self::counter_to_nonce(file_num);
        let plain = match aes_gcm_decrypt(&key, &nonce, data) {
            Ok(p) => p,
            Err(_) => {
                assert forall|es: Seq<IndexEntry>| #[trigger] index_file_written(*keys, file_num, data_view, es)
                    implies false by {
                    assert(data_view == aes_gcm_sealed(key@, nonce@, index_bytes(index_view(es))));
                }
                return Err(PackfileError::CryptoError);
            },
        };
        assert forall|es: Seq<IndexEntry>| #[trigger] index_file_written(*keys, file_num, data_view, es)
            implies plain@ == index_bytes(index_view(es)) && decode_index_spec(plain@) == Some(
            index_view(es),
        ) by {
            assert(data_view == aes_gcm_sealed(key@, nonce@, index_bytes(index_view(es))));
            lemma_index_file_read_back(es);
        }
        let mut entries = match decode_index(plain.as_slice()) {
            Ok(e) => e,
            Err(e) => return Err(e),
        };
        assert forall|es: Seq<IndexEntry>| #[trigger] index_file_written(*keys, file_num, data_view, es)
            implies entries@ == es by {
            lemma_index_view_injective(entries@, es);
        }
        let ghost es = entries@;
        let mut items = Vec::new();
        std::mem::swap(&mut items, &mut self.items);
        let ghost old_items = items@;
        items.append(&mut entries);
        sort_entries_by_hash(&mut items);
        self.items = items;
        proof {
            vstd::seq_lib::lemma_multiset_commutative(old_items, es);
            assert(index_view(es) == decode_index_spec(plain@).unwrap());
            broadcast use vstd::seq_lib::group_to_multiset_ensures;
            let items = self.items@;
            assert forall|es2: Seq<IndexEntry>, i: int|
                #[trigger] index_file_written(*keys, file_num, data_view, es2) && 0 <= i < es2.len()
                    implies items.contains(#[trigger] es2[i]) && self.spec_known(es2[i].0@) by {
                assert(es2 == es);
                assert(es.contains(es[i]));
                assert(es.to_multiset().count(es[i]) > 0);
                assert(items.to_multiset().count(es[i]) > 0);
                let k = choose|k: int| 0 <= k < items.len() && items[k] == es[i];
                assert(self.spec_items()[k].0@ == es[i].0@);
            }
        }
        Ok(())
    }

    /// Returns a handle to a newly created packfile for index.
    pub fn begin_packfile(&mut self) -> (r: IndexPackfileHandle)
        ensures
            r.spec_blobs().len() == 0,
            *final(self) == *old(self),
    {
        IndexPackfileHandle { blobs: Vec::new() }
    }

    /// Adds a blob to the packfile in index, failing when the blob is already queued.
    pub fn add_to_packfile(&mut self, handle: &mut IndexPackfileHandle, blob_hash: BlobHash) -> (r:
        Result<(), PackfileError>)
        ensures
            final(handle).spec_blobs() == old(handle).spec_blobs().push(blob_hash),
            old(self).spec_queued().contains(blob_hash@) ==> r == Err::<(), PackfileError>(
                PackfileError::DuplicateBlob,
            ) && final(self).spec_queued() == old(self).spec_queued(),
            !old(self).spec_queued().contains(blob_hash@) ==> r is Ok && final(self).spec_queued()
                == old(self).spec_queued().insert(blob_hash@),
            final(self).spec_items() == old(self).spec_items(),
            final(self).spec_buffered() == old(self).spec_buffered(),
            final(self).spec_last_file_num() == old(self).spec_last_file_num(),
            final(self).spec_dirty() == old(self).spec_dirty(),
            final(self).spec_output_path() == old(self).spec_output_path(),
    {
        proof {
            use_type_invariant(&*self);
        }
        handle.blobs.push(blob_hash);
        let ghost keys = hash_list_view(self.blobs_queued@);
        match search_hashes(&self.blobs_queued, &blob_hash) {
            Ok(i) => {
                assert(keys.contains(blob_hash@));
                Err(PackfileError::DuplicateBlob)
            },
            Err(i) => {
                let mut queued = Vec::new();
                std::mem::swap(&mut queued, &mut self.blobs_queued);
                queued.insert(i, blob_hash);
                proof {
                    let nk = hash_list_view(queued@);
                    assert(nk =~= keys.insert(i as int, blob_hash@));
                    assert forall|a: int, b: int| 0 <= a < b < nk.len() implies lex_lt(
                        #[trigger] nk[a],
                        #[trigger] nk[b],
                    ) by {
                        if b < i {
                        } else if a > i {
                            assert(nk[a] == keys[a - 1] && nk[b] == keys[b - 1]);
                        } else if a == i {
                            assert(nk[b] == keys[b - 1]);
                        } else if b == i {
                        } else {
                            assert(nk[b] == keys[b - 1]);
                        }
                    }
                    assert(nk.to_set() =~= keys.to_set().insert(blob_hash@)) by {
                        assert forall|x: Seq<u8>| nk.to_set().contains(x) <==> keys.to_set().insert(
                            blob_hash@,
                        ).contains(x) by {
                            if nk.contains(x) {
                                let k = choose|k: int| 0 <= k < nk.len() && nk[k] == x;
                                if k < i {
                                    assert(keys[k] == x);
                                } else if k > i {
                                    assert(keys[k - 1] == x);
                                }
                            }
                            if keys.contains(x) {
                                let k = choose|k: int| 0 <= k < keys.len() && keys[k] == x;
                                if k < i {
                                    assert(nk[k] == x);
                                } else {
                                    assert(nk[k + 1] == x);
                                }
                            }
                            if x == blob_hash@ {
                                assert(nk[i as int] == x);
                            }
                        }
                    }
                }
                self.blobs_queued = queued;
                Ok(())
            },
        }
    }

    /// Returns whether the blob is already known by the index.
    pub fn is_blob_duplicate(&self, blob_hash: &BlobHash) -> (r: bool)
        ensures
            r == self.spec_is_duplicate(blob_hash@),
    {
        proof {
            use_type_invariant(self);
        }
        let ghost keys = hash_list_view(self.blobs_queued@);
        match search_hashes(&self.blobs_queued, blob_hash) {
            Ok(i) => {
                assert(keys.contains(blob_hash@));
                return true;
            },
            Err(_) => {},
        }
        self.find_packfile(blob_hash).is_some()
    }

    /// Finds the packfile that contains the blob.
    pub fn find_packfile(&self, blob_hash: &BlobHash) -> (r: Option<PackfileId>)
        ensures
            r is None <==> !self.spec_known(blob_hash@),
            r matches Some(p) ==> self.spec_items().contains((*blob_hash, p)),
    {
        proof {
            use_type_invariant(self);
        }
        let ghost keys = entry_keys_view(self.items@);
        match search_entries(&self.items, blob_hash) {
            Ok(entry_idx) => {
                let e = self.items[entry_idx];
                proof {
                    assert(keys[entry_idx as int] == e.0@);
                    assert(e.0@ == blob_hash@);
                    assert(e.0 =~= *blob_hash);
                    assert(self.spec_items()[entry_idx as int] == (*blob_hash, e.1));
                }
                Some(e.1)
            },
            Err(_) => {
                proof {
                    assert forall|i: int| 0 <= i < self.spec_items().len() implies #[trigger] self.spec_items()[i].0@
                        != blob_hash@ by {
                        assert(keys[i] == self.spec_items()[i].0@);
                    }
                }
                None
            },
        }
    }

    /// Whether the write buffer is full, so that the index must be flushed.
    pub open spec fn needs_flush_spec(&self) -> bool {
        self.spec_buffered().len() >= MAX_FILE_ENTRIES
    }

    /// Whether the write buffer is full, so that the index must be flushed.
    pub fn needs_flush(&self) -> (r: bool)
        ensures
            r == self.needs_flush_spec(),
    {
        self.items_buf.len() >= MAX_FILE_ENTRIES
    }

    /// Adds a mapping from blob hash to packfile hash to the write buffer. Returns whether
    /// the buffer is now full and must be flushed.
    pub fn push(&mut self, blob_hash: &BlobHash, packfile_hash: &PackfileId) -> (r: bool)
        ensures
            final(self).spec_buffered() == old(self).spec_buffered().push((*blob_hash, *packfile_hash)),
            final(self).spec_dirty(),
            r == (final(self).spec_buffered().len() >= MAX_FILE_ENTRIES),
            final(self).spec_items() == old(self).spec_items(),
            final(self).spec_queued() == old(self).spec_queued(),
            final(self).spec_last_file_num() == old(self).spec_last_file_num(),
            final(self).spec_output_path() == old(self).spec_output_path(),
    {
        proof {
            use_type_invariant(&*self);
        }
        let mut buf = Vec::new();
        std::mem::swap(&mut buf, &mut self.items_buf);
        buf.push((*blob_hash, *packfile_hash));
        self.items_buf = buf;
        self.dirty = true;
        self.items_buf.len() >= MAX_FILE_ENTRIES
    }

    /// Adds the blobs of a finished packfile to the write buffer, starting with the blob at
    /// `start`, and stopping early when the buffer becomes full. Returns the position of the
    /// first blob that was not added (the number of blobs when all were added).
    pub fn finalize_packfile(
        &mut self,
        handle: &IndexPackfileHandle,
        packfile_hash: PackfileId,
        start: usize,
    ) -> (r: usize)
        requires
            start <= handle.spec_blobs().len(),
        ensures
            start <= r <= handle.spec_blobs().len(),
            final(self).spec_buffered() == old(self).spec_buffered() + handle.spec_blobs().subrange(
                start as int,
                r as int,
            ).map_values(|h: BlobHash| (h, packfile_hash)),
            r < handle.spec_blobs().len() ==> final(self).spec_buffered().len() >= MAX_FILE_ENTRIES,
            r > start ==> final(self).spec_dirty(),
            r == start ==> final(self).spec_dirty() == old(self).spec_dirty(),
            final(self).spec_items() == old(self).spec_items(),
            final(self).spec_queued() == old(self).spec_queued(),
            final(self).spec_last_file_num() == old(self).spec_last_file_num(),
            final(self).spec_output_path() == old(self).spec_output_path(),
    {
        let n = handle.blobs.len();
        let mut i = start;
        while i < n
            invariant
                n == handle.spec_blobs().len(),
                start <= i <= n,
                self.spec_buffered() == old(self).spec_buffered() + handle.spec_blobs().subrange(
                    start as int,
                    i as int,
                ).map_values(|h: BlobHash| (h, packfile_hash)),
                i > start ==> self.spec_dirty(),
                i == start ==> self.spec_dirty() == old(self).spec_dirty(),
                self.spec_items() == old(self).spec_items(),
                self.spec_queued() == old(self).spec_queued(),
                self.spec_last_file_num() == old(self).spec_last_file_num(),
                self.spec_output_path() == old(self).spec_output_path(),
            decreases n - i,
        {
            let full = self.push(&handle.blobs[i], &packfile_hash);
            assert(handle.spec_blobs().subrange(start as int, i + 1).map_values(
                |h: BlobHash| (h, packfile_hash),
            ) =~= handle.spec_blobs().subrange(start as int, i as int).map_values(
                |h: BlobHash| (h, packfile_hash),
            ).push((handle.spec_blobs()[i as int], packfile_hash)));
            i = i + 1;
            if full {
                return i;
            }
        }
        i
    }

    /// The number, file name and encrypted contents of the next index file, holding the
    /// write buffer. The caller writes the file and then calls `flush_done`.
    pub fn flush_contents(&self, keys: &KeyManager) -> (r: Result<(u32, String, Vec<u8>), PackfileError>)
        requires
            self.spec_last_file_num() < u32::MAX,
        ensures
            r matches Ok((num, name, data)) ==> num == self.spec_last_file_num() + 1
                && name@ == decimal_padded10(num) && data@ == aes_gcm_sealed(
                keys.spec_derived_key(KEY_DERIVATION_CONSTANT@),
                index_nonce(num),
                index_bytes(index_view(self.spec_buffered())),
            ),
            r matches Ok((num, name, data)) ==> aes_gcm_opened(
                keys.spec_derived_key(KEY_DERIVATION_CONSTANT@),
                index_nonce(num),
                data@,
            ) == Some(index_bytes(index_view(self.spec_buffered()))) && decode_index_spec(
                index_bytes(index_view(self.spec_buffered())),
            ) == Some(index_view(self.spec_buffered())) && index_file_written(
                *keys,
                num,
                data@,
                self.spec_buffered(),
            ),
            r matches Err(e) ==> e == PackfileError::CryptoError,
            index_bytes(index_view(self.spec_buffered())).len() <= 0x10_0000_0000 ==> r is Ok,
    {
        proof {
            assert(self.items_buf@.len() == self.items_buf.len());
            lemma_index_file_read_back(self.items_buf@);
        }
        let plain = encode_index(&self.items_buf);
        let new_file_num = self.last_file_num + 1;
        let key = keys.derive_backup_key(&KEY_DERIVATION_CONSTANT);
        let nonce = Self::counter_to_nonce(new_file_num);
        let data = match aes_gcm_encrypt(&key, &nonce, plain) {
            Ok(d) => d,
            Err(_) => return Err(PackfileError::CryptoError),
        };
        let name = format_padded10(new_file_num);
        Ok((new_file_num, name, data))
    }

    /// Records that the index file numbered `file_num` holding the write buffer was written.
    pub fn flush_done(&mut self, file_num: u32)
        ensures
            final(self).spec_last_file_num() == file_num,
            final(self).spec_buffered().len() == 0,
            !final(self).spec_dirty(),
            final(self).spec_items() == old(self).spec_items(),
            final(self).spec_queued() == old(self).spec_queued(),
            final(self).spec_output_path() == old(self).spec_output_path(),
    {
        proof {
            use_type_invariant(&*self);
        }
        self.last_file_num = file_num;
        self.items_buf = Vec::new();
        self.dirty = false;
    }

    /// The number of an index file from its name, when the name is a number.
    pub fn index_file_number(name: &str) -> (r: Option<u32>)
        ensures
            r == parse_u32_spec(name@),
    {
        parse_u32(name)
    }

    /// The highest number among index file names, names that are not numbers counting as 0.
    pub fn max_index_file_number(names: &Vec<String>) -> (r: u32)
        ensures
            forall|i: int| 0 <= i < names@.len() ==> #[trigger] number_or_zero(names@[i]@) <= r,
            r == 0 || exists|i: int| 0 <= i < names@.len() && #[trigger] number_or_zero(names@[i]@) == r,
    {
        let mut max_num: u32 = 0;
        let n = names.len();
        let mut i: usize = 0;
        while i < n
            invariant
                n == names@.len(),
                i <= n,
                forall|j: int| 0 <= j < i ==> #[trigger] number_or_zero(names@[j]@) <= max_num,
                max_num == 0 || exists|j: int| 0 <= j < i && #[trigger] number_or_zero(names@[j]@) == max_num,
            decreases n - i,
        {
            let num = match parse_u32(names[i].as_str()) {
                Some(v) => v,
                None => 0,
            };
            assert(num == number_or_zero(names@[i as int]@));
            if num > max_num {
                max_num = num;
            }
            i = i + 1;
        }
        max_num
    }
}

/// Index entries written to an index file decode back to the same entries.
pub proof fn lemma_index_file_read_back(entries: Seq<IndexEntry>)
    requires
        entries.len() <= usize::MAX,
    ensures
        decode_index_spec(index_bytes(index_view(entries))) == Some(index_view(entries)),
{
    let es = index_view(entries);
    assert forall|i: int| 0 <= i < es.len() implies (#[trigger] es[i]).0.len() == 32 && es[i].1.len()
        == 12 by {
        assert(es[i] == index_entry_view(entries[i]));
    }
    lemma_index_roundtrip(es);
}

} // verus!
