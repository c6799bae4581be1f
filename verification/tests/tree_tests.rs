use backuwup::blob::{BlobKind, TreeKind};
use backuwup::dir_packer::{chunk_file, make_file_blob, process_file_data, tree_metadata, DirArena};
use backuwup::tree::{append_sibling, decode_tree, parse_tree_blob, split_serialize_tree, Tree, TreeError, TreeMetadata, TREE_BLOB_MAX_CHILDREN};
use rand_chacha::rand_core::{RngCore, SeedableRng};
use rand_chacha::ChaCha8Rng;

fn tree_with_children(n: usize) -> Tree {
    let children = (0..n).map(|i| {
        let mut h = [0u8; 32];
        h[..8].copy_from_slice(&(i as u64).to_le_bytes());
        h
    }).collect();
    Tree {
        kind: TreeKind::Dir,
        name: String::from("root"),
        metadata: TreeMetadata { size: Some(1), mtime: Some(2), ctime: None },
        children,
        next_sibling: None,
    }
}

#[test]
fn small_tree_is_one_blob() {
    let t = tree_with_children(3);
    let blobs = split_serialize_tree(&t);
    assert_eq!(blobs.len(), 1);
    assert_eq!(blobs[0].kind, BlobKind::Tree);
    assert_eq!(blobs[0].hash, *blake3::hash(&blobs[0].data).as_bytes());
    let back = decode_tree(&blobs[0].data).unwrap();
    assert_eq!(back.children, t.children);
}

#[test]
fn large_tree_is_split_and_linked() {
    let n = 2 * TREE_BLOB_MAX_CHILDREN + 5;
    let t = tree_with_children(n);
    let blobs = split_serialize_tree(&t);
    assert_eq!(blobs.len(), 3);
    // reassemble as restoring does: fetch the first, then follow the siblings
    let mut root = parse_tree_blob(&blobs[0]).unwrap();
    assert_eq!(root.children.len(), TREE_BLOB_MAX_CHILDREN);
    let mut next = root.next_sibling;
    let mut i = 1;
    while let Some(h) = next {
        assert_eq!(h, blobs[i].hash);
        let part = parse_tree_blob(&blobs[i]).unwrap();
        assert_eq!(part.name, "root");
        next = append_sibling(&mut root, part);
        i += 1;
    }
    assert_eq!(i, 3);
    assert_eq!(root.children, t.children);
}

#[test]
fn exactly_max_children_is_not_split() {
    let t = tree_with_children(TREE_BLOB_MAX_CHILDREN);
    assert_eq!(split_serialize_tree(&t).len(), 1);
    let t = tree_with_children(TREE_BLOB_MAX_CHILDREN + 1);
    assert_eq!(split_serialize_tree(&t).len(), 2);
}

#[test]
fn parse_tree_blob_errors() {
    let chunk = make_file_blob(b"not a tree");
    assert_eq!(parse_tree_blob(&chunk).unwrap_err(), TreeError::NotATree);
    let mut t = split_serialize_tree(&tree_with_children(1)).pop_front().unwrap();
    t.data.truncate(5);
    assert_eq!(parse_tree_blob(&t).unwrap_err(), TreeError::Malformed);
}

#[test]
fn small_file_is_one_chunk() {
    let blobs = chunk_file(b"tiny");
    assert_eq!(blobs.len(), 1);
    assert_eq!(blobs[0].data, b"tiny".to_vec());
    assert_eq!(blobs[0].hash, *blake3::hash(b"tiny").as_bytes());
    let empty = chunk_file(b"");
    assert_eq!(empty.len(), 1);
    assert!(empty[0].data.is_empty());
}

#[test]
fn large_file_chunks_cover_the_data() {
    let mut data = vec![0u8; 5 * 1024 * 1024 + 17];
    ChaCha8Rng::from_seed([3; 32]).fill_bytes(&mut data);
    let blobs = chunk_file(&data);
    assert!(blobs.len() >= 2);
    let mut joined = Vec::new();
    for b in &blobs {
        assert!(b.data.len() <= 3 * 1024 * 1024);
        assert_eq!(b.kind, BlobKind::FileChunk);
        assert_eq!(b.hash, *blake3::hash(&b.data).as_bytes());
        joined.extend_from_slice(&b.data);
    }
    assert_eq!(joined, data);
}

#[test]
fn file_tree_lists_its_chunks() {
    let meta = tree_metadata(4, Some(-5), Some(10));
    assert_eq!(meta, TreeMetadata { size: Some(4), mtime: None, ctime: Some(10) });
    let (blobs, tree) = process_file_data(String::from("a.txt"), meta, b"data");
    assert_eq!(tree.kind, TreeKind::File);
    assert_eq!(tree.name, "a.txt");
    assert_eq!(tree.children, vec![blobs[0].hash]);
    assert_eq!(tree.next_sibling, None);
}

#[test]
fn directories_are_packed_after_their_subdirectories() {
    let mut arena = DirArena::new();
    let a = arena.add_dir(0, String::from("a"));
    let b = arena.add_dir(a, String::from("b"));
    let c = arena.add_dir(0, String::from("c"));
    assert_eq!((a, b, c), (1, 2, 3));
    assert_eq!(arena.node_path(b), vec![String::new(), String::from("a"), String::from("b")]);
    assert_eq!(arena.parent(b), Some(a));
    assert_eq!(arena.parent(0), None);
    // pack last found first: c, b, a, root
    arena.dir_packed(c, [3; 32]);
    arena.dir_packed(b, [2; 32]);
    let tree_a = arena.dir_tree(a, String::from("a"), tree_metadata(0, None, None), vec![[7; 32]]);
    assert_eq!(tree_a.children, vec![[2; 32], [7; 32]]);
    arena.dir_packed(a, [1; 32]);
    let root = arena.dir_tree(0, String::new(), tree_metadata(0, None, None), vec![]);
    assert_eq!(root.children, vec![[3; 32], [1; 32]]);
    assert_eq!(arena.root_hash(), [0; 32]);
    arena.dir_packed(0, [9; 32]);
    assert_eq!(arena.root_hash(), [9; 32]);
}
