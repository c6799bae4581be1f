use backuwup::blob::PackfileError;
use backuwup::blob_index::{BlobIndex, MAX_FILE_ENTRIES};
use backuwup::key_manager::KeyManager;

fn keys() -> KeyManager {
    KeyManager::from_secret([1u8; 32]).unwrap()
}

#[test]
fn counter_nonce_is_little_endian() {
    assert_eq!(BlobIndex::counter_to_nonce(0x0403_0201), [1, 2, 3, 4, 0, 0, 0, 0, 0, 0, 0, 0]);
    assert_eq!(BlobIndex::counter_to_nonce(0), [0; 12]);
}

#[test]
fn queued_blobs_are_duplicates() {
    let mut index = BlobIndex::new(String::from("index"), 0);
    let mut handle = index.begin_packfile();
    assert!(!index.is_blob_duplicate(&[1; 32]));
    index.add_to_packfile(&mut handle, [1; 32]).unwrap();
    assert!(index.is_blob_duplicate(&[1; 32]));
    assert_eq!(index.add_to_packfile(&mut handle, [1; 32]).unwrap_err(), PackfileError::DuplicateBlob);
    assert_eq!(handle.len(), 2);
}

#[test]
fn flushed_index_loads_back() {
    let k = keys();
    let mut index = BlobIndex::new(String::from("index"), 6);
    let mut handle = index.begin_packfile();
    index.add_to_packfile(&mut handle, [5; 32]).unwrap();
    index.add_to_packfile(&mut handle, [2; 32]).unwrap();
    assert_eq!(index.finalize_packfile(&handle, [8; 12], 0), 2);
    assert!(index.is_dirty());
    let (num, name, data) = index.flush_contents(&k).unwrap();
    assert_eq!(num, 7);
    assert_eq!(name, "0000000007");
    index.flush_done(num);
    assert!(!index.is_dirty());
    assert_eq!(index.last_file_num(), 7);

    let mut fresh = BlobIndex::new(String::from("index"), 7);
    fresh.load_file(&k, 7, data.clone()).unwrap();
    assert_eq!(fresh.find_packfile(&[2; 32]), Some([8; 12]));
    assert_eq!(fresh.find_packfile(&[5; 32]), Some([8; 12]));
    assert_eq!(fresh.find_packfile(&[3; 32]), None);
    assert!(fresh.is_blob_duplicate(&[5; 32]));

    // wrong file number: the nonce differs
    let mut other = BlobIndex::new(String::from("index"), 7);
    assert_eq!(other.load_file(&k, 8, data).unwrap_err(), PackfileError::CryptoError);
}

#[test]
fn full_buffer_needs_flush() {
    let mut index = BlobIndex::new(String::from("index"), 0);
    let mut full = false;
    for i in 0..MAX_FILE_ENTRIES {
        let mut h = [0u8; 32];
        h[..8].copy_from_slice(&(i as u64).to_le_bytes());
        full = index.push(&h, &[0; 12]);
    }
    assert!(full);
    assert!(index.needs_flush());
}

#[test]
fn index_file_numbers() {
    assert_eq!(BlobIndex::index_file_number("0000000042"), Some(42));
    assert_eq!(BlobIndex::index_file_number("+7"), Some(7));
    assert_eq!(BlobIndex::index_file_number("4294967296"), None);
    assert_eq!(BlobIndex::index_file_number("x1"), None);
    let names = vec![String::from("0000000003"), String::from("junk"), String::from("0000000011")];
    assert_eq!(BlobIndex::max_index_file_number(&names), 11);
    assert_eq!(BlobIndex::max_index_file_number(&vec![]), 0);
}
