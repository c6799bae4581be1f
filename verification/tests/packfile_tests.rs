use backuwup::blob::{Blob, BlobKind, PackfileError};
use backuwup::blob_index::BlobIndex;
use backuwup::defaults::BLOB_MAX_UNCOMPRESSED_SIZE;
use backuwup::dir_packer::make_file_blob;
use backuwup::key_manager::KeyManager;
use backuwup::packfile::{read_blob, Manager, PACKFILE_MAX_SIZE};
use rand_chacha::rand_core::{RngCore, SeedableRng};
use rand_chacha::ChaCha8Rng;

fn manager(max: u64) -> (Manager, KeyManager) {
    let keys = KeyManager::from_secret([7u8; 32]).unwrap();
    let index = BlobIndex::new(String::from("index"), 0);
    (Manager::new(String::from("pack"), index, keys, max), keys)
}

fn pattern(n: usize, seed: u8) -> Vec<u8> {
    (0..n).map(|i| (i as u8).wrapping_mul(31).wrapping_add(seed)).collect()
}

#[test]
fn packfile_reads_back_written_blobs() {
    let (mut m, keys) = manager(1 << 40);
    let a = make_file_blob(b"hello world");
    let b = make_file_blob(&pattern(10_000, 3));
    let (ha, hb) = (a.hash, b.hash);
    assert_eq!(m.add_blob(a).unwrap(), false);
    assert_eq!(m.add_blob(b).unwrap(), false);
    let (id, buf, handle) = m.next_packfile().unwrap().unwrap();
    assert_eq!(handle.len(), 2);
    assert!(buf.len() <= PACKFILE_MAX_SIZE);
    let ra = read_blob(&keys, &id, &buf, &ha).unwrap();
    assert_eq!(ra.data, b"hello world".to_vec());
    assert_eq!(ra.hash, ha);
    assert_eq!(ra.kind, BlobKind::FileChunk);
    let rb = m.get_blob(&id, &buf, &hb).unwrap();
    assert_eq!(rb.data, pattern(10_000, 3));
    // the queue is empty now
    assert!(m.next_packfile().unwrap().is_none());
}

#[test]
fn duplicate_blobs_are_packed_once() {
    let (mut m, _keys) = manager(1 << 40);
    let a = make_file_blob(b"same data");
    assert!(!m.queue_holds(&a.hash));
    m.add_blob(a.clone()).unwrap();
    assert!(m.queue_holds(&a.hash));
    // already queued: not queued again
    assert_eq!(m.add_blob(a.clone()).unwrap(), false);
    let (id, _buf, handle) = m.next_packfile().unwrap().unwrap();
    assert_eq!(handle.len(), 1);
    // after the packfile is recorded in the index, the blob is a duplicate
    assert_eq!(m.finalize_packfile(&handle, id, 0), 1);
    assert_eq!(m.find_packfile(&a.hash), None);
    assert!(m.index().is_blob_duplicate(&a.hash));
    assert_eq!(m.add_blob(a).unwrap(), false);
    assert!(m.next_packfile().unwrap().is_none());
}

#[test]
fn blob_too_large_is_refused() {
    let (mut m, _keys) = manager(1 << 40);
    let big = Blob { hash: [1; 32], kind: BlobKind::FileChunk, data: vec![0u8; BLOB_MAX_UNCOMPRESSED_SIZE + 1] };
    assert_eq!(m.add_blob(big).unwrap_err(), PackfileError::BlobTooLarge);
    assert!(m.next_packfile().unwrap().is_none());
}

#[test]
fn write_is_desired_once_target_size_is_reached() {
    let (mut m, _keys) = manager(1 << 40);
    let mut desired = false;
    let mut seed = 0u8;
    while !desired {
        // incompressible data of 1 MiB each
        let mut data = vec![0u8; 1_048_576];
        ChaCha8Rng::from_seed([seed; 32]).fill_bytes(&mut data);
        desired = m.add_blob(make_file_blob(&data)).unwrap();
        seed = seed.wrapping_add(1);
        assert!(seed < 10);
    }
    assert!(m.write_desired());
    let (_id, buf, handle) = m.next_packfile().unwrap().unwrap();
    assert!(handle.len() >= 3);
    assert!(buf.len() <= PACKFILE_MAX_SIZE);
}

#[test]
fn buffer_limit_is_reported_from_the_previous_total() {
    let (mut m, _keys) = manager(100);
    assert_eq!(m.packfile_written(150), false);
    assert_eq!(m.packfiles_size(), 150);
    assert_eq!(m.packfile_written(10), true);
    assert_eq!(m.write_outcome(true, true).unwrap_err(), PackfileError::ExceededBufferLimit);
    assert_eq!(m.write_outcome(true, false).unwrap(), 160);
    assert_eq!(m.write_outcome(false, true).unwrap(), 160);
}

#[test]
fn read_errors() {
    let (mut m, keys) = manager(1 << 40);
    let a = make_file_blob(b"payload");
    let ha = a.hash;
    m.add_blob(a).unwrap();
    let (id, buf, _h) = m.next_packfile().unwrap().unwrap();

    // too large
    let huge = vec![0u8; PACKFILE_MAX_SIZE + 1];
    assert_eq!(read_blob(&keys, &id, &huge, &ha).unwrap_err(), PackfileError::PackfileTooLarge);
    // too short for the header size
    assert_eq!(read_blob(&keys, &id, &buf[..5], &ha).unwrap_err(), PackfileError::IoError);
    // header size zero
    let mut zero = buf.clone();
    zero[..8].copy_from_slice(&0u64.to_le_bytes());
    assert_eq!(read_blob(&keys, &id, &zero, &ha).unwrap_err(), PackfileError::InvalidHeaderSize);
    // header size larger than the file
    let mut large = buf.clone();
    large[..8].copy_from_slice(&(buf.len() as u64 + 1).to_le_bytes());
    assert_eq!(read_blob(&keys, &id, &large, &ha).unwrap_err(), PackfileError::InvalidHeaderSize);
    // header size equal to the file size, so the header cannot be read whole
    let mut exact = buf.clone();
    exact[..8].copy_from_slice(&(buf.len() as u64).to_le_bytes());
    assert_eq!(read_blob(&keys, &id, &exact, &ha).unwrap_err(), PackfileError::IoError);
    // wrong packfile ID (the header nonce)
    let wrong_id = [9u8; 12];
    assert_eq!(read_blob(&keys, &wrong_id, &buf, &ha).unwrap_err(), PackfileError::CryptoError);
    // a blob that the packfile does not hold
    assert_eq!(read_blob(&keys, &id, &buf, &[5u8; 32]).unwrap_err(), PackfileError::IndexHeaderMismatch);
    // a corrupted record
    let mut corrupt = buf.clone();
    let last = corrupt.len() - 1;
    corrupt[last] ^= 1;
    assert_eq!(read_blob(&keys, &id, &corrupt, &ha).unwrap_err(), PackfileError::CryptoError);
    // a truncated record
    let cut = &buf[..buf.len() - 1];
    assert_eq!(read_blob(&keys, &id, cut, &ha).unwrap_err(), PackfileError::IoError);
    // other keys
    let other = KeyManager::from_secret([8u8; 32]).unwrap();
    assert_eq!(read_blob(&other, &id, &buf, &ha).unwrap_err(), PackfileError::CryptoError);
}

#[test]
fn packfile_layout() {
    let (mut m, _keys) = manager(1 << 40);
    let a = make_file_blob(b"abc");
    m.add_blob(a).unwrap();
    let (_id, buf, _h) = m.next_packfile().unwrap().unwrap();
    let header_len = u64::from_le_bytes(buf[..8].try_into().unwrap()) as usize;
    // header: count, hash, kind, compression, length, offset (1 + 32 + 4 varints), plus the tag
    assert_eq!(header_len, 1 + 32 + 1 + 1 + 1 + 1 + 16);
    // blob section: a 12-byte nonce and the encrypted, compressed data
    assert!(buf.len() > 8 + header_len + 12 + 16);
}
