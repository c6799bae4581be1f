use backuwup::blob::{BlobKind, CompressionKind, PackfileError, PackfileHeaderBlob};
use backuwup::formats::{decode_header, decode_index, encode_header, encode_index};
use backuwup::tree::{decode_tree, encode_tree, Tree, TreeMetadata};
use backuwup::blob::TreeKind;
use bincode::Options;

fn entry(h: u8, kind: BlobKind, length: u64, offset: u64) -> PackfileHeaderBlob {
    PackfileHeaderBlob { hash: [h; 32], kind, compression: CompressionKind::Zstd, length, offset }
}

#[test]
fn header_encoding_matches_bincode_varint() {
    let entries = vec![
        entry(1, BlobKind::FileChunk, 0, 0),
        entry(2, BlobKind::Tree, 250, 251),
        entry(3, BlobKind::FileChunk, 65_535, 65_536),
        entry(4, BlobKind::Tree, u32::MAX as u64 + 1, u64::MAX),
    ];
    let ours = encode_header(&entries);
    let tuples: Vec<([u8; 32], u32, u32, u64, u64)> = entries
        .iter()
        .map(|e| (e.hash, if e.kind == BlobKind::FileChunk { 0 } else { 1 }, 1, e.length, e.offset))
        .collect();
    let theirs = bincode::options().with_varint_encoding().serialize(&tuples).unwrap();
    assert_eq!(ours, theirs);
    let back = decode_header(&ours).unwrap();
    assert_eq!(back.len(), 4);
    assert_eq!(back[3].offset, u64::MAX);
    assert_eq!(back[2].length, 65_535);
    assert_eq!(back[1].kind, BlobKind::Tree);
}

#[test]
fn header_decoding_rejects_bad_input() {
    let ours = encode_header(&vec![entry(1, BlobKind::FileChunk, 5, 6)]);
    let mut trailing = ours.clone();
    trailing.push(0);
    assert_eq!(decode_header(&trailing).unwrap_err(), PackfileError::SerializationError);
    assert_eq!(decode_header(&ours[..ours.len() - 1]).unwrap_err(), PackfileError::SerializationError);
    let mut bad_kind = ours.clone();
    bad_kind[33] = 2;
    assert_eq!(decode_header(&bad_kind).unwrap_err(), PackfileError::SerializationError);
    assert_eq!(decode_header(&[]).unwrap_err(), PackfileError::SerializationError);
    assert_eq!(decode_header(&[0]).unwrap().len(), 0);
}

#[test]
fn index_encoding_matches_bincode_varint() {
    let entries = vec![([1u8; 32], [2u8; 12]), ([3u8; 32], [4u8; 12])];
    let ours = encode_index(&entries);
    let theirs = bincode::options().with_varint_encoding().serialize(&entries).unwrap();
    assert_eq!(ours, theirs);
    assert_eq!(decode_index(&ours).unwrap(), entries);
    let mut trailing = ours.clone();
    trailing.push(1);
    assert_eq!(decode_index(&trailing).unwrap_err(), PackfileError::SerializationError);
}

fn sample_tree() -> Tree {
    Tree {
        kind: TreeKind::Dir,
        name: String::from("fotky ě"),
        metadata: TreeMetadata { size: Some(4096), mtime: None, ctime: Some(1_700_000_000) },
        children: vec![[1u8; 32], [2u8; 32]],
        next_sibling: Some([9u8; 32]),
    }
}

#[test]
fn tree_encoding_matches_bincode() {
    let t = sample_tree();
    let ours = encode_tree(&t);
    let theirs = bincode::serialize(&(
        1u32,
        t.name.clone(),
        (t.metadata.size, t.metadata.mtime, t.metadata.ctime),
        t.children.clone(),
        t.next_sibling,
    ))
    .unwrap();
    assert_eq!(ours, theirs);
}

#[test]
fn tree_decoding_roundtrip_ignores_trailing_bytes() {
    let t = sample_tree();
    let mut bytes = encode_tree(&t);
    bytes.extend_from_slice(&[7, 7, 7]);
    let back = decode_tree(&bytes).unwrap();
    assert_eq!(back.kind, t.kind);
    assert_eq!(back.name, t.name);
    assert_eq!(back.metadata, t.metadata);
    assert_eq!(back.children, t.children);
    assert_eq!(back.next_sibling, t.next_sibling);
}

#[test]
fn tree_decoding_rejects_bad_input() {
    let t = sample_tree();
    let bytes = encode_tree(&t);
    assert!(decode_tree(&bytes[..bytes.len() - 1]).is_none());
    let mut bad_kind = bytes.clone();
    bad_kind[0] = 2;
    assert!(decode_tree(&bad_kind).is_none());
    let mut bad_utf8 = bytes.clone();
    bad_utf8[12] = 0xff;
    assert!(decode_tree(&bad_utf8).is_none());
    let mut bad_tag = bytes.clone();
    let tag_pos = 12 + t.name.len();
    bad_tag[tag_pos] = 2;
    assert!(decode_tree(&bad_tag).is_none());
}
