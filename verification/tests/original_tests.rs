use backuwup::blob::{BlobKind, CompressionKind, PackfileHeaderBlob};
use backuwup::defaults::BLOB_MAX_UNCOMPRESSED_SIZE;
use backuwup::formats::write_header_entry;
use backuwup::obfuscation::obfuscate_data_impl;
use backuwup::packfile::{PACKFILE_MAX_BLOBS, PACKFILE_MAX_SIZE, PACKFILE_TARGET_SIZE};
use backuwup::types::NONCE_SIZE;
use rand_chacha::rand_core::{RngCore, SeedableRng};
use rand_chacha::ChaCha8Rng;

#[test]
fn validate_size_constraints() {
    let entry = PackfileHeaderBlob {
        hash: [0; 32],
        kind: BlobKind::FileChunk,
        compression: CompressionKind::Zstd,
        offset: 0,
        length: 0,
    };

    let mut encoded = Vec::new();
    write_header_entry(&mut encoded, &entry);
    let entry_len = encoded.len();

    // worst case scenario with maximum amount of blobs, target size reached and
    // a maximum size blob added over the target size
    assert!(
        PACKFILE_TARGET_SIZE + BLOB_MAX_UNCOMPRESSED_SIZE + (entry_len * PACKFILE_MAX_BLOBS) + NONCE_SIZE
            <= PACKFILE_MAX_SIZE
    );
}

#[test]
fn obfuscation_test() {
    let mut data: [u8; 123_123] = [0; 123_123];
    ChaCha8Rng::from_seed([0; 32]).fill_bytes(&mut data);
    let orig = data;
    let key = [0x40, 0x41, 0x42, 0x43];

    obfuscate_data_impl(&mut data, key);
    obfuscate_data_impl(&mut data, key);

    assert_eq!(orig, data);
}
