//! Packing a directory tree into blobs: files are cut into chunks, each file is described
//! by a file tree listing its chunks, and each directory by a directory tree listing the
//! trees of its subdirectories and files. Directories are packed deepest first, so that a
//! directory's tree can list the trees of its subdirectories.
use vstd::prelude::*;

use crate::blob::{Blob, BlobKind, TreeKind};
use crate::crypto::{blake3_digest, blake3_hash};
use crate::defaults::{BLOB_DESIRED_TARGET_SIZE, BLOB_MAX_UNCOMPRESSED_SIZE, BLOB_MINIMUM_TARGET_SIZE};
use crate::tree::{hashes_view, Tree, TreeMetadata};
use crate::types::BlobHash;

verus! {

/// The chunks, as (offset, length), that FastCDC (the 2020 algorithm, normalization level 1)
/// cuts `data` into with the given minimum, average and maximum sizes.
pub uninterp spec fn fastcdc_chunks_of(data: Seq<u8>, min: u32, avg: u32, max: u32) -> Seq<(usize, usize)>;

/// The total length of the chunks `cs`.
pub open spec fn chunks_total(cs: Seq<(usize, usize)>) -> nat
    decreases cs.len(),
{
    if cs.len() == 0 {
        0
    } else {
        chunks_total(cs.drop_last()) + cs.last().1 as nat
    }
}

/// The chunks `cs` cover `n` bytes, one after another from the start.
pub open spec fn chunks_partition(cs: Seq<(usize, usize)>, n: nat) -> bool {
    &&& forall|i: int| 0 <= i < cs.len() ==> (#[trigger] cs[i]).0 == chunks_total(cs.take(i))
    &&& chunks_total(cs) == n
}

/// Calls `fastcdc::v2020::FastCDC::new` and collects the offset and length of each chunk.
/// Claims that the result is the named chunking, that the chunks cover the data one after
/// another, and that each is between 1 and `max` bytes long, as the iterator's source shows
/// for sizes within the bounds that `FastCDC::new` asserts and ordered minimum, average,
/// maximum.
#[verifier::external_body]
fn fastcdc_chunks(data: &[u8], min: u32, avg: u32, max: u32) -> (r: Vec<(usize, usize)>)
    requires
        64 <= min <= 1_048_576,
        256 <= avg <= 4_194_304,
        1024 <= max <= 16_777_216,
        min <= avg <= max,
    ensures
        r@ == fastcdc_chunks_of(data@, min, avg, max),
        chunks_partition(r@, data@.len()),
        forall|i: int| 0 <= i < r@.len() ==> 0 < (#[trigger] r@[i]).1 <= max,
{
    fastcdc::v2020::FastCDC::new(data, min, avg, max).map(|c| (c.offset, c.length)).collect()
}

/// The data of the chunks that a file's data is stored as: FastCDC chunks when the file is
/// larger than the desired chunk size, otherwise the whole data.
pub open spec fn file_chunks(data: Seq<u8>) -> Seq<Seq<u8>> {
    if data.len() > BLOB_DESIRED_TARGET_SIZE {
        fastcdc_chunks_of(
            data,
            BLOB_MINIMUM_TARGET_SIZE as u32,
            BLOB_DESIRED_TARGET_SIZE as u32,
            BLOB_MAX_UNCOMPRESSED_SIZE as u32,
        ).map_values(|c: (usize, usize)| data.subrange(c.0 as int, c.0 + c.1))
    } else {
        seq![data]
    }
}

/// The sequences `ss`, one after another.
pub open spec fn concat_all(ss: Seq<Seq<u8>>) -> Seq<u8>
    decreases ss.len(),
{
    if ss.len() == 0 {
        Seq::empty()
    } else {
        concat_all(ss.drop_last()) + ss.last()
    }
}

/// The blob that stores the chunk `d` of a file.
pub open spec fn chunk_blob_ok(b: Blob, d: Seq<u8>) -> bool {
    &&& b.kind == BlobKind::FileChunk
    &&& b.data@ == d
    &&& b.hash@ == blake3_digest(d)
}

/// Makes the blob of a chunk of file data, named by the hash of the data.
pub fn make_file_blob(data: &[u8]) -> (r: Blob)
    ensures
        chunk_blob_ok(r, data@),
{
    let hash = blake3_hash(data);
    Blob { hash, kind: BlobKind::FileChunk, data: vstd::slice::slice_to_vec(data) }
}

/// Cuts a file's data into chunk blobs; the chunks, one after another, are the data, and
/// none is larger than `BLOB_MAX_UNCOMPRESSED_SIZE`.
#[verifier::rlimit(50)]
pub fn chunk_file(data: &[u8]) -> (r: Vec<Blob>)
    ensures
        r@.len() == file_chunks(data@).len(),
        forall|i: int| 0 <= i < r@.len() ==> chunk_blob_ok(#[trigger] r@[i], file_chunks(data@)[i]),
        concat_all(file_chunks(data@)) == data@,
        forall|i: int|
            0 <= i < r@.len() ==> (#[trigger] r@[i]).data@.len() <= BLOB_MAX_UNCOMPRESSED_SIZE,
{
    let len = data.len();
    let mut out: Vec<Blob> = Vec::new();
    if len <= BLOB_DESIRED_TARGET_SIZE {
        out.push(make_file_blob(data));
        proof {
            let one = seq![data@];
            assert(one.drop_last() =~= Seq::<Seq<u8>>::empty());
            assert(Seq::<u8>::empty() + data@ =~= data@);
            assert(concat_all(one) == concat_all(one.drop_last()) + one.last());
        }
        return out;
    }
    let chunks = fastcdc_chunks(
        data,
        BLOB_MINIMUM_TARGET_SIZE as u32,
        BLOB_DESIRED_TARGET_SIZE as u32,
        BLOB_MAX_UNCOMPRESSED_SIZE as u32,
    );
    let ghost fc = file_chunks(data@);
    let n = chunks.len();
    let mut i: usize = 0;
    assert(fc.take(0) =~= Seq::<Seq<u8>>::empty());
    assert(chunks@.take(0) =~= Seq::<(usize, usize)>::empty());
    while i < n
        invariant
            n == chunks@.len(),
            len == data@.len(),
            len > BLOB_DESIRED_TARGET_SIZE,
            fc == file_chunks(data@),
            chunks@ == fastcdc_chunks_of(
                data@,
                BLOB_MINIMUM_TARGET_SIZE as u32,
                BLOB_DESIRED_TARGET_SIZE as u32,
                BLOB_MAX_UNCOMPRESSED_SIZE as u32,
            ),
            chunks_partition(chunks@, len as nat),
            forall|j: int|
                0 <= j < chunks@.len() ==> 0 < (#[trigger] chunks@[j]).1 <= BLOB_MAX_UNCOMPRESSED_SIZE,
            i <= n,
            out@.len() == i,
            forall|j: int| 0 <= j < i ==> chunk_blob_ok(#[trigger] out@[j], fc[j]),
            forall|j: int|
                0 <= j < i ==> (#[trigger] out@[j]).data@.len() <= BLOB_MAX_UNCOMPRESSED_SIZE,
            concat_all(fc.take(i as int)) == data@.subrange(0, chunks_total(chunks@.take(i as int)) as int),
            chunks_total(chunks@.take(i as int)) <= len,
        decreases n - i,
    {
        let (offset, length) = chunks[i];
        proof {
            assert(chunks@.take(i + 1).drop_last() =~= chunks@.take(i as int));
            assert(chunks@.take(i + 1).last() == chunks@[i as int]);
            lemma_chunks_total_prefix(chunks@, i + 1);
        }
        let piece = vstd::slice::slice_subrange(data, offset, offset + length);
        let blob = make_file_blob(piece);
        out.push(blob);
        proof {
            assert(fc[i as int] == data@.subrange(offset as int, offset + length));
            assert(fc.take(i + 1).drop_last() =~= fc.take(i as int));
            assert(fc.take(i + 1).last() == fc[i as int]);
            assert(data@.subrange(0, offset as int) + data@.subrange(offset as int, offset + length)
                =~= data@.subrange(0, offset + length));
        }
        i = i + 1;
    }
    proof {
        assert(fc.take(n as int) =~= fc);
        assert(chunks@.take(n as int) =~= chunks@);
        assert(data@.subrange(0, len as int) =~= data@);
    }
    out
}

proof fn lemma_chunks_total_prefix(cs: Seq<(usize, usize)>, i: int)
    requires
        0 <= i <= cs.len(),
    ensures
        chunks_total(cs.take(i)) <= chunks_total(cs),
    decreases cs.len(),
{
    if i < cs.len() {
        lemma_chunks_total_prefix(cs.drop_last(), i);
        assert(cs.drop_last().take(i) =~= cs.take(i));
    } else {
        assert(cs.take(i) =~= cs);
    }
}

/// Backs up a single file's data: cuts it into chunk blobs and makes the file tree that
/// lists them. Returns the chunk blobs and the file tree.
pub fn process_file_data(name: String, metadata: TreeMetadata, data: &[u8]) -> (r: (Vec<Blob>, Tree))
    ensures
        r.0@.len() == file_chunks(data@).len(),
        forall|i: int| 0 <= i < r.0@.len() ==> chunk_blob_ok(#[trigger] r.0@[i], file_chunks(data@)[i]),
        concat_all(file_chunks(data@)) == data@,
        forall|i: int|
            0 <= i < r.0@.len() ==> (#[trigger] r.0@[i]).data@.len() <= BLOB_MAX_UNCOMPRESSED_SIZE,
        r.1.children@.len() == r.0@.len(),
        forall|i: int| 0 <= i < r.0@.len() ==> r.1.children@[i] == (#[trigger] r.0@[i]).hash,
        concat_all(r.0@.map_values(|b: Blob| b.data@)) == data@,
        r.1.kind == TreeKind::File,
        r.1.name@ == name@,
        r.1.metadata == metadata,
        hashes_view(r.1.children@) == file_chunks(data@).map_values(|d: Seq<u8>| blake3_digest(d)),
        r.1.next_sibling is None,
{
    let blobs = chunk_file(data);
    let n = blobs.len();
    let mut children: Vec<BlobHash> = Vec::new();
    let mut i: usize = 0;
    while i < n
        invariant
            n == blobs@.len(),
            n == file_chunks(data@).len(),
            forall|j: int| 0 <= j < n ==> chunk_blob_ok(#[trigger] blobs@[j], file_chunks(data@)[j]),
            i <= n,
            hashes_view(children@) == file_chunks(data@).take(i as int).map_values(
                |d: Seq<u8>| blake3_digest(d),
            ),
            children@.len() == i,
            forall|k: int| 0 <= k < i ==> children@[k] == (#[trigger] blobs@[k]).hash,
        decreases n - i,
    {
        let ghost before = children@;
        children.push(blobs[i].hash);
        proof {
            let fc = file_chunks(data@);
            assert(chunk_blob_ok(blobs@[i as int], fc[i as int]));
            assert(hashes_view(children@) =~= hashes_view(before).push(blobs@[i as int].hash@));
            assert(fc.take(i + 1).map_values(|d: Seq<u8>| blake3_digest(d)) =~= fc.take(
                i as int,
            ).map_values(|d: Seq<u8>| blake3_digest(d)).push(blake3_digest(fc[i as int])));
        }
        i = i + 1;
    }
    assert(file_chunks(data@).take(n as int) =~= file_chunks(data@));
    assert(blobs@.map_values(|b: Blob| b.data@) =~= file_chunks(data@)) by {
        assert forall|k: int| 0 <= k < n implies blobs@.map_values(|b: Blob| b.data@)[k]
            == file_chunks(data@)[k] by {
            assert(chunk_blob_ok(blobs@[k], file_chunks(data@)[k]));
        }
    }
    let tree = Tree { kind: TreeKind::File, name, metadata, children, next_sibling: None };
    (blobs, tree)
}

/// A timestamp in seconds since the Unix epoch, when it is not negative.
pub open spec fn nonnegative_timestamp(ts: Option<i64>) -> Option<u64> {
    match ts {
        Some(t) => if t >= 0 {
            Some(t as u64)
        } else {
            None
        },
        None => None,
    }
}

/// The metadata of a file or directory of `size` bytes, with the given modification and
/// creation times in seconds since the Unix epoch (`None` where they are unknown). A
/// negative timestamp cannot be stored and is left out.
pub fn tree_metadata(size: u64, mtime: Option<i64>, ctime: Option<i64>) -> (r: TreeMetadata)
    ensures
        r.size == Some(size),
        r.mtime == nonnegative_timestamp(mtime),
        r.ctime == nonnegative_timestamp(ctime),
{
    let m = match mtime {
        Some(t) => if t >= 0 {
            Some(t as u64)
        } else {
            None
        },
        None => None,
    };
    let c = match ctime {
        Some(t) => if t >= 0 {
            Some(t as u64)
        } else {
            None
        },
        None => None,
    };
    TreeMetadata { size: Some(size), mtime: m, ctime: c }
}

/// A directory found while browsing the tree to back up.
pub struct DirNode {
    /// The directory that contains this one; `None` for the root.
    parent: Option<usize>,
    /// The directory's file name.
    name: String,
    /// The tree hashes of the subdirectories packed so far.
    children: Vec<BlobHash>,
}

/// The directories of the tree to back up, in the order they were found: each directory
/// comes after the one that contains it, so packing them last to first packs every
/// directory after its subdirectories.
pub struct DirArena {
    nodes: Vec<DirNode>,
    root_hash: Option<BlobHash>,
}

/// The path components from the root to the directory `i`, given the parents and names of
/// the directories.
pub open spec fn node_path_spec(parents: Seq<Option<usize>>, names: Seq<Seq<char>>, i: int) -> Seq<
    Seq<char>,
>
    decreases i,
{
    if 0 <= i < parents.len() {
        match parents[i] {
            Some(p) => if p < i {
                node_path_spec(parents, names, p as int).push(names[i])
            } else {
                Seq::empty()
            },
            None => seq![names[i]],
        }
    } else {
        Seq::empty()
    }
}

impl DirArena {
    #[verifier::type_invariant]
    spec fn inv(self) -> bool {
        &&& self.nodes@.len() >= 1 ==> self.nodes@[0].parent is None
        &&& forall|i: int|
            0 < i < self.nodes@.len() ==> ((#[trigger] self.nodes@[i]).parent matches Some(p) && p < i)
    }

    /// The containing directory of each directory.
    pub closed spec fn spec_parents(&self) -> Seq<Option<usize>> {
        self.nodes@.map_values(|n: DirNode| n.parent)
    }

    /// The name of each directory.
    pub closed spec fn spec_names(&self) -> Seq<Seq<char>> {
        self.nodes@.map_values(|n: DirNode| n.name@)
    }

    /// The subdirectory tree hashes of each directory, packed so far.
    pub closed spec fn spec_children(&self) -> Seq<Seq<Seq<u8>>> {
        self.nodes@.map_values(|n: DirNode| hashes_view(n.children@))
    }

    /// The tree hash of the root, once packed.
    pub closed spec fn spec_root_hash(&self) -> Option<BlobHash> {
        self.root_hash
    }

    /// The directory that contains the directory `id`, `None` for the root. Every directory
    /// but the root comes after the directory that contains it.
    pub fn parent(&self, id: usize) -> (r: Option<usize>)
        requires
            id < self.spec_parents().len(),
        ensures
            r == self.spec_parents()[id as int],
            id == 0 <==> r is None,
            r matches Some(p) ==> p < id,
    {
        proof {
            use_type_invariant(self);
        }
        self.nodes[id].parent
    }

    /// An arena holding only the root directory, whose name is empty.
    pub fn new() -> (r: Self)
        ensures
            r.spec_parents() == seq![None::<usize>],
            r.spec_names().len() == 1,
            r.spec_names()[0].len() == 0,
            r.spec_children() == seq![Seq::<Seq<u8>>::empty()],
            r.spec_root_hash() is None,
    {
        let mut nodes = Vec::new();
        nodes.push(DirNode { parent: None, name: String::new(), children: Vec::new() });
        let r = DirArena { nodes, root_hash: None };
        assert(r.spec_parents() =~= seq![None::<usize>]);
        assert(hashes_view(r.nodes@[0].children@) =~= Seq::<Seq<u8>>::empty());
        assert(r.spec_children() =~= seq![Seq::<Seq<u8>>::empty()]);
        r
    }

    /// The number of directories. There is one name and one list of subdirectory trees per
    /// directory; the first directory, the root, has no containing directory, and every other
    /// directory comes after the directory that contains it.
    pub fn len(&self) -> (r: usize)
        ensures
            r == self.spec_parents().len(),
            r == self.spec_names().len(),
            r == self.spec_children().len(),
            r >= 1 ==> self.spec_parents()[0] is None,
            forall|i: int| 0 < i < r ==> ((#[trigger] self.spec_parents()[i]) matches Some(p) && p < i),
    {
        proof {
            use_type_invariant(self);
        }
        self.nodes.len()
    }

    /// Records the directory `name` found in the directory `parent`. Returns its number.
    pub fn add_dir(&mut self, parent: usize, name: String) -> (r: usize)
        requires
            parent < old(self).spec_parents().len(),
        ensures
            r == old(self).spec_parents().len(),
            final(self).spec_parents() == old(self).spec_parents().push(Some(parent)),
            final(self).spec_names() == old(self).spec_names().push(name@),
            final(self).spec_children() == old(self).spec_children().push(Seq::empty()),
            final(self).spec_root_hash() == old(self).spec_root_hash(),
    {
        proof {
            use_type_invariant(&*self);
        }
        let mut nodes = Vec::new();
        std::mem::swap(&mut nodes, &mut self.nodes);
        let r = nodes.len();
        let ghost before = nodes@;
        nodes.push(DirNode { parent: Some(parent), name, children: Vec::new() });
        proof {
            assert forall|i: int| 0 < i < nodes@.len() implies ((#[trigger] nodes@[i]).parent matches Some(
                p,
            ) && p < i) by {
                if i < before.len() {
                    assert(nodes@[i] == before[i]);
                }
            }
        }
        self.nodes = nodes;
        proof {
            assert(self.spec_parents() =~= old(self).spec_parents().push(Some(parent)));
            assert(self.spec_names() =~= old(self).spec_names().push(name@));
            assert(hashes_view(self.nodes@[r as int].children@) =~= Seq::<Seq<u8>>::empty());
            assert(self.spec_children() =~= old(self).spec_children().push(Seq::empty()));
        }
        r
    }

    /// The path components from the root to the directory `id`, the root's (empty) name
    /// first.
    pub fn node_path(&self, id: usize) -> (r: Vec<String>)
        requires
            id < self.spec_parents().len(),
        ensures
            r@.map_values(|s: String| s@) == node_path_spec(self.spec_parents(), self.spec_names(), id as int),
    {
        proof {
            use_type_invariant(self);
            assert forall|i: int| 0 < i < self.spec_parents().len() implies (#[trigger] self.spec_parents()[i] matches Some(p) && p < i) by {
                assert(self.spec_parents()[i] == self.nodes@[i].parent);
            }
            assert(self.spec_parents()[0] == self.nodes@[0].parent);
        }
        let mut components: Vec<String> = Vec::new();
        let mut cur = id;
        let ghost parents = self.spec_parents();
        let ghost names = self.spec_names();
        loop
            invariant_except_break
                node_path_spec(parents, names, id as int) == node_path_spec(parents, names, cur as int)
                    + components@.map_values(|s: String| s@),
            invariant
                cur < self.nodes@.len(),
                parents == self.spec_parents(),
                names == self.spec_names(),
                parents.len() == self.nodes@.len(),
                parents[0] is None,
                forall|i: int| 0 < i < parents.len() ==> (#[trigger] parents[i] matches Some(p) && p < i),
            ensures
                node_path_spec(parents, names, id as int) == components@.map_values(|s: String| s@),
            decreases cur,
        {
            let node = &self.nodes[cur];
            let ghost before = components@;
            components.insert(0, node.name.clone());
            proof {
                assert(parents[cur as int] == node.parent);
                assert(names[cur as int] == node.name@);
                assert(components@.map_values(|s: String| s@) =~= seq![node.name@] + before.map_values(
                    |s: String| s@,
                ));
            }
            match node.parent {
                Some(p) => {
                    assert(node_path_spec(parents, names, cur as int) == node_path_spec(
                        parents,
                        names,
                        p as int,
                    ).push(node.name@));
                    assert(node_path_spec(parents, names, p as int).push(node.name@) + before.map_values(
                        |s: String| s@,
                    ) =~= node_path_spec(parents, names, p as int) + components@.map_values(
                        |s: String| s@,
                    ));
                    cur = p;
                },
                None => {
                    assert(node_path_spec(parents, names, cur as int) == seq![node.name@]);
                    assert(node_path_spec(parents, names, id as int) =~= components@.map_values(
                        |s: String| s@,
                    ));
                    break ;
                },
            }
        }
        components
    }

    /// The directory tree of the directory `id`: its subdirectories' trees, then the trees of
    /// its files `file_hashes`.
    pub fn dir_tree(&self, id: usize, name: String, metadata: TreeMetadata, file_hashes: Vec<BlobHash>) -> (r:
        Tree)
        requires
            id < self.spec_parents().len(),
        ensures
            r.kind == TreeKind::Dir,
            r.name@ == name@,
            r.metadata == metadata,
            hashes_view(r.children@) == self.spec_children()[id as int] + hashes_view(file_hashes@),
            r.next_sibling is None,
    {
        let mut children = self.nodes[id].children.clone();
        let mut files = file_hashes;
        let ghost c0 = children@;
        let ghost f0 = files@;
        children.append(&mut files);
        proof {
            assert(self.spec_children()[id as int] == hashes_view(self.nodes@[id as int].children@));
            assert(hashes_view(children@) =~= hashes_view(c0) + hashes_view(f0));
        }
        Tree { kind: TreeKind::Dir, name, metadata, children, next_sibling: None }
    }

    /// Records that the directory `id` was packed with the tree hash `hash`: the hash is
    /// added to its parent's subdirectories, or, for the root, kept as the snapshot hash.
    pub fn dir_packed(&mut self, id: usize, hash: BlobHash)
        requires
            id < old(self).spec_parents().len(),
        ensures
            final(self).spec_parents() == old(self).spec_parents(),
            final(self).spec_names() == old(self).spec_names(),
            match old(self).spec_parents()[id as int] {
                Some(p) => final(self).spec_children() == old(self).spec_children().update(
                    p as int,
                    old(self).spec_children()[p as int].push(hash@),
                ) && final(self).spec_root_hash() == old(self).spec_root_hash(),
                None => final(self).spec_children() == old(self).spec_children()
                    && final(self).spec_root_hash() == Some(hash),
            },
    {
        proof {
            use_type_invariant(&*self);
        }
        let parent = self.nodes[id].parent;
        match parent {
            Some(p) => {
                let mut nodes = Vec::new();
                std::mem::swap(&mut nodes, &mut self.nodes);
                let ghost before = nodes@;
                let mut node = nodes.remove(p);
                let ghost old_children = node.children@;
                node.children.push(hash);
                assert(hashes_view(node.children@) =~= hashes_view(old_children).push(hash@));
                nodes.insert(p, node);
                proof {
                    assert forall|i: int| 0 <= i < nodes@.len() implies (#[trigger] nodes@[i]).parent
                        == before[i].parent by {
                        if i != p {
                            assert(nodes@[i] == before[i]);
                        }
                    }
                    assert forall|i: int| 0 < i < nodes@.len() implies ((#[trigger] nodes@[i]).parent matches Some(
                        q,
                    ) && q < i) by {
                        assert(nodes@[i].parent == before[i].parent);
                    }
                }
                self.nodes = nodes;
                proof {
                    assert(self.spec_parents() =~= old(self).spec_parents());
                    assert(self.spec_names() =~= old(self).spec_names());
                    assert forall|i: int| 0 <= i < nodes@.len() implies #[trigger] self.spec_children()[i]
                        == old(self).spec_children().update(
                        p as int,
                        old(self).spec_children()[p as int].push(hash@),
                    )[i] by {
                        if i != p {
                            assert(nodes@[i] == before[i]);
                        } else {
                            assert(before[i].children@ == old_children);
                        }
                    }
                    assert(self.spec_children() =~= old(self).spec_children().update(
                        p as int,
                        old(self).spec_children()[p as int].push(hash@),
                    ));
                }
            },
            None => {
                self.root_hash = Some(hash);
            },
        }
    }

    /// The tree hash of the root directory: the snapshot hash. All zeros before the root
    /// was packed.
    pub fn root_hash(&self) -> (r: BlobHash)
        ensures
            self.spec_root_hash() matches Some(h) ==> r == h,
            self.spec_root_hash() is None ==> forall|i: int| 0 <= i < 32 ==> r@[i] == 0,
    {
        match self.root_hash {
            Some(h) => h,
            None => [0u8; 32],
        }
    }
}

} // verus!
