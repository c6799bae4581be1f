//! Directory trees: the blobs that describe files and directories.
//!
//! A file tree lists the hashes of the chunks of the file's data; a directory tree lists the
//! hashes of the trees of its entries. A tree with many children is split into sibling trees
//! of at most `TREE_BLOB_MAX_CHILDREN` children each, each naming the next one.
//!
//! A tree is encoded with fixed-size integers: the kind as 4 bytes, the name as its 8-byte
//! length and its UTF-8 bytes, each metadata field as a tag byte (0 for none, 1 for some)
//! followed by 8 bytes when present, the children as their 8-byte count and 32 bytes each,
//! and the next sibling as a tag byte followed by 32 bytes when present. All integers are
//! little-endian. A decoder ignores bytes after the encoded tree.
use vstd::prelude::*;
use vstd::utf8::{decode_utf8, encode_utf8, encode_utf8_decode_utf8, encode_utf8_valid_utf8, valid_utf8};

use std::collections::VecDeque;

use crate::blob::{Blob, BlobKind, TreeKind};
use crate::crypto::{blake3_digest, blake3_hash};
use crate::encoding::{le_bytes, le_value, lemma_le_roundtrip, lemma_pow256_values, read_le, write_le};
use crate::formats::{append_bytes, read_array32};
use crate::text::string_from_utf8;
use crate::types::BlobHash;

verus! {

/// Maximum amount of children before a tree is split off to a sibling, so that tree blobs
/// stay small and deduplicate well.
pub const TREE_BLOB_MAX_CHILDREN: usize = 10_000;

/// Metadata of a file or directory.
#[derive(Clone, Copy, PartialEq, Eq, Structural, Debug)]
pub struct TreeMetadata {
    pub size: Option<u64>,
    pub mtime: Option<u64>,
    pub ctime: Option<u64>,
}

/// A directory or file tree, for encoding into a blob or in memory.
#[derive(Debug)]
pub struct Tree {
    pub kind: TreeKind,
    pub name: String,
    pub metadata: TreeMetadata,
    pub children: Vec<BlobHash>,
    pub next_sibling: Option<BlobHash>,
}

/// The mathematical content of a tree.
pub struct TreeModel {
    pub kind: TreeKind,
    pub name: Seq<char>,
    pub metadata: TreeMetadata,
    pub children: Seq<Seq<u8>>,
    pub next_sibling: Option<Seq<u8>>,
}

pub open spec fn hashes_view(v: Seq<BlobHash>) -> Seq<Seq<u8>> {
    v.map_values(|h: BlobHash| h@)
}

pub open spec fn opt_hash_view(o: Option<BlobHash>) -> Option<Seq<u8>> {
    match o {
        Some(h) => Some(h@),
        None => None,
    }
}

impl View for Tree {
    type V = TreeModel;

    open spec fn view(&self) -> TreeModel {
        TreeModel {
            kind: self.kind,
            name: self.name@,
            metadata: self.metadata,
            children: hashes_view(self.children@),
            next_sibling: opt_hash_view(self.next_sibling),
        }
    }
}

pub open spec fn tree_kind_index(k: TreeKind) -> nat {
    match k {
        TreeKind::File => 0,
        TreeKind::Dir => 1,
    }
}

pub open spec fn opt_u64_bytes(o: Option<u64>) -> Seq<u8> {
    match o {
        None => seq![0u8],
        Some(v) => seq![1u8] + le_bytes(v as nat, 8),
    }
}

pub open spec fn opt_hash_bytes(o: Option<Seq<u8>>) -> Seq<u8> {
    match o {
        None => seq![0u8],
        Some(h) => seq![1u8] + h,
    }
}

/// The hashes one after another.
pub open spec fn hashes_bytes(hs: Seq<Seq<u8>>) -> Seq<u8>
    decreases hs.len(),
{
    if hs.len() == 0 {
        Seq::empty()
    } else {
        hashes_bytes(hs.drop_last()) + hs.last()
    }
}

pub open spec fn metadata_bytes(m: TreeMetadata) -> Seq<u8> {
    opt_u64_bytes(m.size) + opt_u64_bytes(m.mtime) + opt_u64_bytes(m.ctime)
}

/// The encoding of a tree.
pub open spec fn tree_bytes(t: TreeModel) -> Seq<u8> {
    le_bytes(tree_kind_index(t.kind), 4) + le_bytes(encode_utf8(t.name).len(), 8) + encode_utf8(t.name)
        + metadata_bytes(t.metadata) + le_bytes(t.children.len(), 8) + hashes_bytes(t.children)
        + opt_hash_bytes(t.next_sibling)
}

/// Reads an optional 64-bit number at `pos`: the value and the position after it.
pub open spec fn parse_opt_u64(s: Seq<u8>, pos: int) -> Option<(Option<u64>, int)> {
    if pos < 0 || pos >= s.len() {
        None
    } else if s[pos] == 0 {
        Some((None, pos + 1))
    } else if s[pos] == 1 && pos + 9 <= s.len() {
        Some((Some(le_value(s.subrange(pos + 1, pos + 9)) as u64), pos + 9))
    } else {
        None
    }
}

/// Reads an optional hash at `pos`: the value and the position after it.
pub open spec fn parse_opt_hash(s: Seq<u8>, pos: int) -> Option<(Option<Seq<u8>>, int)> {
    if pos < 0 || pos >= s.len() {
        None
    } else if s[pos] == 0 {
        Some((None, pos + 1))
    } else if s[pos] == 1 && pos + 33 <= s.len() {
        Some((Some(s.subrange(pos + 1, pos + 33)), pos + 33))
    } else {
        None
    }
}

/// Reads `n` hashes at `pos`: the hashes and the position after them.
pub open spec fn parse_hashes(s: Seq<u8>, pos: int, n: nat) -> Option<(Seq<Seq<u8>>, int)>
    decreases n,
{
    if n == 0 {
        if 0 <= pos <= s.len() {
            Some((Seq::empty(), pos))
        } else {
            None
        }
    } else {
        match parse_hashes(s, pos, (n - 1) as nat) {
            Some((hs, p)) => if p + 32 <= s.len() {
                Some((hs.push(s.subrange(p, p + 32)), p + 32))
            } else {
                None
            },
            None => None,
        }
    }
}

pub open spec fn tree_kind_from_index(v: nat) -> Option<TreeKind> {
    if v == 0 {
        Some(TreeKind::File)
    } else if v == 1 {
        Some(TreeKind::Dir)
    } else {
        None
    }
}

/// Reads the three metadata fields at `pos`: the metadata and the position after it.
pub open spec fn parse_metadata(s: Seq<u8>, pos: int) -> Option<(TreeMetadata, int)> {
    match parse_opt_u64(s, pos) {
        None => None,
        Some((size, p1)) => match parse_opt_u64(s, p1) {
            None => None,
            Some((mtime, p2)) => match parse_opt_u64(s, p2) {
                None => None,
                Some((ctime, p3)) => Some((TreeMetadata { size, mtime, ctime }, p3)),
            },
        },
    }
}

/// Reads the children (their 8-byte count, then the hashes) and the next sibling at `pos`.
pub open spec fn parse_children_sibling(s: Seq<u8>, pos: int) -> Option<
    (Seq<Seq<u8>>, Option<Seq<u8>>),
> {
    if pos < 0 || pos + 8 > s.len() {
        None
    } else {
        match parse_hashes(s, pos + 8, le_value(s.subrange(pos, pos + 8))) {
            None => None,
            Some((hs, p)) => match parse_opt_hash(s, p) {
                None => None,
                Some((ns, _)) => Some((hs, ns)),
            },
        }
    }
}

/// Decodes a tree at the start of `s`, ignoring what follows it.
pub open spec fn decode_tree_spec(s: Seq<u8>) -> Option<TreeModel> {
    if s.len() < 12 {
        None
    } else {
        match tree_kind_from_index(le_value(s.subrange(0, 4))) {
            None => None,
            Some(kind) => {
                let nl = le_value(s.subrange(4, 12)) as int;
                if 12 + nl > s.len() || !valid_utf8(s.subrange(12, 12 + nl)) {
                    None
                } else {
                    match parse_metadata(s, 12 + nl) {
                        None => None,
                        Some((metadata, p)) => match parse_children_sibling(s, p) {
                            None => None,
                            Some((hs, ns)) => Some(
                                TreeModel {
                                    kind,
                                    name: decode_utf8(s.subrange(12, 12 + nl)),
                                    metadata,
                                    children: hs,
                                    next_sibling: ns,
                                },
                            ),
                        },
                    }
                }
            },
        }
    }
}

proof fn lemma_hashes_bytes_len(hs: Seq<Seq<u8>>)
    requires
        forall|i: int| 0 <= i < hs.len() ==> (#[trigger] hs[i]).len() == 32,
    ensures
        hashes_bytes(hs).len() == 32 * hs.len(),
    decreases hs.len(),
{
    if hs.len() > 0 {
        let t = hs.drop_last();
        assert forall|i: int| 0 <= i < t.len() implies (#[trigger] t[i]).len() == 32 by {
            assert(t[i] == hs[i]);
        }
        lemma_hashes_bytes_len(t);
        assert(hs.last() == hs[hs.len() - 1]);
    }
}

proof fn lemma_parse_hashes(pre: Seq<u8>, hs: Seq<Seq<u8>>, rest: Seq<u8>)
    requires
        forall|i: int| 0 <= i < hs.len() ==> (#[trigger] hs[i]).len() == 32,
    ensures
        parse_hashes(pre + hashes_bytes(hs) + rest, pre.len() as int, hs.len()) == Some(
            (hs, (pre.len() + hashes_bytes(hs).len()) as int),
        ),
    decreases hs.len(),
{
    lemma_hashes_bytes_len(hs);
    let s = pre + hashes_bytes(hs) + rest;
    if hs.len() == 0 {
        assert(hs =~= Seq::<Seq<u8>>::empty());
    } else {
        let t = hs.drop_last();
        assert forall|i: int| 0 <= i < t.len() implies (#[trigger] t[i]).len() == 32 by {
            assert(t[i] == hs[i]);
        }
        lemma_hashes_bytes_len(t);
        lemma_parse_hashes(pre, t, hs.last() + rest);
        assert(pre + hashes_bytes(t) + (hs.last() + rest) =~= s);
        let p: int = (pre.len() + hashes_bytes(t).len()) as int;
        assert(hs.last() == hs[hs.len() - 1]);
        assert(s.subrange(p, p + 32) =~= hs.last());
        assert(t.push(hs.last()) =~= hs);
    }
}

/// A tree whose hashes are 32 bytes long, and whose name and children are few enough for
/// their counts to fit in 8 bytes.
pub open spec fn tree_encodable(t: TreeModel) -> bool {
    &&& forall|i: int| 0 <= i < t.children.len() ==> (#[trigger] t.children[i]).len() == 32
    &&& (t.next_sibling matches Some(h) ==> h.len() == 32)
    &&& encode_utf8(t.name).len() < 0x1_0000_0000_0000_0000
    &&& t.children.len() < 0x1_0000_0000_0000_0000
}

proof fn lemma_opt_u64_roundtrip(pre: Seq<u8>, o: Option<u64>, rest: Seq<u8>)
    ensures
        parse_opt_u64(pre + opt_u64_bytes(o) + rest, pre.len() as int) == Some(
            (o, (pre.len() + opt_u64_bytes(o).len()) as int),
        ),
{
    lemma_pow256_values();
    let s = pre + opt_u64_bytes(o) + rest;
    let p = pre.len() as int;
    assert(s[p] == opt_u64_bytes(o)[0]);
    if let Some(v) = o {
        lemma_le_roundtrip(v as nat, 8);
        assert(s.subrange(p + 1, p + 9) =~= le_bytes(v as nat, 8));
    }
}

proof fn lemma_metadata_roundtrip(pre: Seq<u8>, m: TreeMetadata, rest: Seq<u8>)
    ensures
        parse_metadata(pre + metadata_bytes(m) + rest, pre.len() as int) == Some(
            (m, (pre.len() + metadata_bytes(m).len()) as int),
        ),
{
    let s = pre + metadata_bytes(m) + rest;
    let a = opt_u64_bytes(m.size);
    let b = opt_u64_bytes(m.mtime);
    let c = opt_u64_bytes(m.ctime);
    lemma_opt_u64_roundtrip(pre, m.size, b + c + rest);
    assert(pre + a + (b + c + rest) =~= s);
    lemma_opt_u64_roundtrip(pre + a, m.mtime, c + rest);
    assert(pre + a + b + (c + rest) =~= s);
    lemma_opt_u64_roundtrip(pre + a + b, m.ctime, rest);
    assert(pre + a + b + c + rest =~= s);
}

proof fn lemma_children_sibling_roundtrip(
    pre: Seq<u8>,
    hs: Seq<Seq<u8>>,
    ns: Option<Seq<u8>>,
    rest: Seq<u8>,
)
    requires
        forall|i: int| 0 <= i < hs.len() ==> (#[trigger] hs[i]).len() == 32,
        ns matches Some(h) ==> h.len() == 32,
        hs.len() < 0x1_0000_0000_0000_0000,
    ensures
        parse_children_sibling(
            pre + le_bytes(hs.len(), 8) + hashes_bytes(hs) + opt_hash_bytes(ns) + rest,
            pre.len() as int,
        ) == Some((hs, ns)),
{
    lemma_pow256_values();
    let cl = le_bytes(hs.len(), 8);
    let s = pre + cl + hashes_bytes(hs) + opt_hash_bytes(ns) + rest;
    lemma_le_roundtrip(hs.len(), 8);
    let p = pre.len() as int;
    assert(s.subrange(p, p + 8) =~= cl);
    lemma_parse_hashes(pre + cl, hs, opt_hash_bytes(ns) + rest);
    assert(pre + cl + hashes_bytes(hs) + (opt_hash_bytes(ns) + rest) =~= s);
    let p4 = (pre + cl + hashes_bytes(hs)).len() as int;
    assert(s[p4] == opt_hash_bytes(ns)[0]);
    if let Some(h) = ns {
        assert(s.subrange(p4 + 1, p4 + 33) =~= h);
    }
}

/// Decoding an encoded tree gives it back, whatever follows it.
pub proof fn lemma_tree_roundtrip(t: TreeModel, rest: Seq<u8>)
    requires
        tree_encodable(t),
    ensures
        decode_tree_spec(tree_bytes(t) + rest) == Some(t),
{
    lemma_pow256_values();
    let nb = encode_utf8(t.name);
    let k = le_bytes(tree_kind_index(t.kind), 4);
    let nl = le_bytes(nb.len(), 8);
    let tail = le_bytes(t.children.len(), 8) + hashes_bytes(t.children) + opt_hash_bytes(
        t.next_sibling,
    ) + rest;
    let s = tree_bytes(t) + rest;
    lemma_le_roundtrip(tree_kind_index(t.kind), 4);
    lemma_le_roundtrip(nb.len(), 8);
    assert(s.subrange(0, 4) =~= k);
    assert(s.subrange(4, 12) =~= nl);
    assert(s.subrange(12, 12 + nb.len() as int) =~= nb);
    encode_utf8_valid_utf8(t.name);
    encode_utf8_decode_utf8(t.name);
    let a = k + nl + nb;
    lemma_metadata_roundtrip(a, t.metadata, tail);
    assert(a + metadata_bytes(t.metadata) + tail =~= s);
    let b = a + metadata_bytes(t.metadata);
    lemma_children_sibling_roundtrip(b, t.children, t.next_sibling, rest);
    assert(b + le_bytes(t.children.len(), 8) + hashes_bytes(t.children) + opt_hash_bytes(
        t.next_sibling,
    ) + rest =~= s);
}

fn write_opt_u64(out: &mut Vec<u8>, o: Option<u64>)
    ensures
        final(out)@ == old(out)@ + opt_u64_bytes(o),
{
    proof {
        lemma_pow256_values();
    }
    match o {
        None => {
            out.push(0u8);
            assert(out@ =~= old(out)@ + opt_u64_bytes(o));
        },
        Some(v) => {
            out.push(1u8);
            write_le(out, v, 8);
            assert(out@ =~= old(out)@ + opt_u64_bytes(o));
        },
    }
}

fn write_hashes(out: &mut Vec<u8>, hs: &Vec<BlobHash>)
    ensures
        final(out)@ == old(out)@ + le_bytes(hs@.len(), 8) + hashes_bytes(hashes_view(hs@)),
{
    proof {
        lemma_pow256_values();
    }
    let n = hs.len();
    write_le(out, n as u64, 8);
    let ghost start = out@;
    let mut i: usize = 0;
    while i < n
        invariant
            n == hs@.len(),
            i <= n,
            out@ == start + hashes_bytes(hashes_view(hs@.subrange(0, i as int))),
        decreases n - i,
    {
        append_bytes(out, &hs[i]);
        assert(hashes_view(hs@.subrange(0, i + 1)).drop_last() =~= hashes_view(
            hs@.subrange(0, i as int),
        ));
        i = i + 1;
    }
    assert(hs@.subrange(0, n as int) =~= hs@);
}

fn write_opt_hash(out: &mut Vec<u8>, o: &Option<BlobHash>)
    ensures
        final(out)@ == old(out)@ + opt_hash_bytes(opt_hash_view(*o)),
{
    match o {
        None => {
            out.push(0u8);
            assert(out@ =~= old(out)@ + opt_hash_bytes(opt_hash_view(*o)));
        },
        Some(h) => {
            out.push(1u8);
            append_bytes(out, h);
            assert(out@ =~= old(out)@ + opt_hash_bytes(opt_hash_view(*o)));
        },
    }
}

fn write_name(out: &mut Vec<u8>, name: &String)
    ensures
        final(out)@ == old(out)@ + le_bytes(encode_utf8(name@).len(), 8) + encode_utf8(name@),
{
    proof {
        lemma_pow256_values();
    }
    let name_bytes = name.as_str().as_bytes();
    write_le(out, name_bytes.len() as u64, 8);
    append_bytes(out, name_bytes);
}

/// Encodes a tree.
pub fn encode_tree(t: &Tree) -> (r: Vec<u8>)
    ensures
        r@ == tree_bytes(t@),
{
    proof {
        lemma_pow256_values();
    }
    let mut out: Vec<u8> = Vec::new();
    let kind_index: u64 = match t.kind {
        TreeKind::File => 0,
        TreeKind::Dir => 1,
    };
    write_le(&mut out, kind_index, 4);
    write_name(&mut out, &t.name);
    let ghost a = out@;
    write_opt_u64(&mut out, t.metadata.size);
    write_opt_u64(&mut out, t.metadata.mtime);
    write_opt_u64(&mut out, t.metadata.ctime);
    assert(out@ =~= a + metadata_bytes(t.metadata));
    write_hashes(&mut out, &t.children);
    write_opt_hash(&mut out, &t.next_sibling);
    assert(out@ =~= tree_bytes(t@));
    out
}

fn read_opt_u64(s: &[u8], pos: usize) -> (r: Option<(Option<u64>, usize)>)
    requires
        pos <= s@.len(),
    ensures
        match parse_opt_u64(s@, pos as int) {
            None => r is None,
            Some((o, p)) => r matches Some((o2, p2)) && o2 == o && p2 == p && p <= s@.len(),
        },
{
    let len = s.len();
    if pos >= len {
        return None;
    }
    if s[pos] == 0 {
        Some((None, pos + 1))
    } else if s[pos] == 1 && len - pos >= 9 {
        let v = read_le(s, pos + 1, 8);
        Some((Some(v), pos + 9))
    } else {
        None
    }
}

fn read_opt_hash(s: &[u8], pos: usize) -> (r: Option<(Option<BlobHash>, usize)>)
    requires
        pos <= s@.len(),
    ensures
        match parse_opt_hash(s@, pos as int) {
            None => r is None,
            Some((o, p)) => r matches Some((o2, p2)) && opt_hash_view(o2) == o && p2 == p && p <= s@.len(),
        },
{
    let len = s.len();
    if pos >= len {
        return None;
    }
    if s[pos] == 0 {
        Some((None, pos + 1))
    } else if s[pos] == 1 && len - pos >= 33 {
        let h = read_array32(s, pos + 1);
        Some((Some(h), pos + 33))
    } else {
        None
    }
}

proof fn lemma_parse_hashes_none(s: Seq<u8>, pos: int, i: nat, n: nat)
    requires
        i <= n,
        parse_hashes(s, pos, i) is None,
    ensures
        parse_hashes(s, pos, n) is None,
    decreases n - i,
{
    if i < n {
        lemma_parse_hashes_none(s, pos, i + 1, n);
    }
}

fn read_metadata(s: &[u8], pos: usize) -> (r: Option<(TreeMetadata, usize)>)
    requires
        pos <= s@.len(),
    ensures
        match parse_metadata(s@, pos as int) {
            None => r is None,
            Some((m, p)) => r matches Some((m2, p2)) && m2 == m && p2 == p && p <= s@.len(),
        },
{
    let (size, p1) = match read_opt_u64(s, pos) {
        Some(x) => x,
        None => return None,
    };
    let (mtime, p2) = match read_opt_u64(s, p1) {
        Some(x) => x,
        None => return None,
    };
    let (ctime, p3) = match read_opt_u64(s, p2) {
        Some(x) => x,
        None => return None,
    };
    Some((TreeMetadata { size, mtime, ctime }, p3))
}

fn read_children_sibling(s: &[u8], start: usize) -> (r: Option<(Vec<BlobHash>, Option<BlobHash>)>)
    requires
        start <= s@.len(),
    ensures
        match parse_children_sibling(s@, start as int) {
            None => r is None,
            Some((hs, ns)) => r matches Some((c, n)) && hashes_view(c@) == hs && opt_hash_view(n) == ns,
        },
{
    let len = s.len();
    if len - start < 8 {
        return None;
    }
    let n = read_le(s, start, 8);
    let ghost nn = le_value(s@.subrange(start as int, start + 8));
    let mut children: Vec<BlobHash> = Vec::new();
    let mut pos = start + 8;
    let mut i: u64 = 0;
    while i < n
        invariant
            len == s@.len(),
            start + 8 <= pos <= len,
            n == nn,
            nn == le_value(s@.subrange(start as int, start + 8)),
            i <= n,
            parse_hashes(s@, start + 8, i as nat) == Some((hashes_view(children@), pos as int)),
        decreases n - i,
    {
        if len - pos < 32 {
            proof {
                lemma_parse_hashes_none(s@, start + 8, (i + 1) as nat, n as nat);
            }
            return None;
        }
        let h = read_array32(s, pos);
        let ghost before = children@;
        children.push(h);
        assert(hashes_view(children@) =~= hashes_view(before).push(s@.subrange(pos as int, pos + 32)));
        pos = pos + 32;
        i = i + 1;
    }
    match read_opt_hash(s, pos) {
        Some((next_sibling, _)) => Some((children, next_sibling)),
        None => None,
    }
}

/// Decodes a tree at the start of `s`, ignoring what follows it.
pub fn decode_tree(s: &[u8]) -> (r: Option<Tree>)
    ensures
        match decode_tree_spec(s@) {
            None => r is None,
            Some(t) => r matches Some(x) && x@ == t,
        },
{
    let len = s.len();
    if len < 12 {
        return None;
    }
    let k = read_le(s, 0, 4);
    let kind = if k == 0 {
        TreeKind::File
    } else if k == 1 {
        TreeKind::Dir
    } else {
        return None;
    };
    let nl = read_le(s, 4, 8);
    if nl > (len - 12) as u64 {
        return None;
    }
    let p0 = 12 + nl as usize;
    let name_bytes = vstd::slice::slice_to_vec(vstd::slice::slice_subrange(s, 12, p0));
    let name = match string_from_utf8(name_bytes) {
        Some(n) => n,
        None => return None,
    };
    let (metadata, p) = match read_metadata(s, p0) {
        Some(x) => x,
        None => return None,
    };
    let (children, next_sibling) = match read_children_sibling(s, p) {
        Some(x) => x,
        None => return None,
    };
    Some(Tree { kind, name, metadata, children, next_sibling })
}


/// The number of trees that a tree with `n` children is split into.
pub open spec fn split_count(n: nat) -> nat {
    if n <= TREE_BLOB_MAX_CHILDREN {
        1
    } else {
        n / (TREE_BLOB_MAX_CHILDREN as nat) + if n % (TREE_BLOB_MAX_CHILDREN as nat) == 0 {
            0nat
        } else {
            1nat
        }
    }
}

/// The `i`-th batch of at most `TREE_BLOB_MAX_CHILDREN` children.
pub open spec fn chunk_of(cs: Seq<Seq<u8>>, i: int) -> Seq<Seq<u8>> {
    let lo = i * TREE_BLOB_MAX_CHILDREN;
    let hi = if (i + 1) * TREE_BLOB_MAX_CHILDREN < cs.len() {
        (i + 1) * TREE_BLOB_MAX_CHILDREN
    } else {
        cs.len() as int
    };
    cs.subrange(lo, hi)
}

/// The `i`-th tree that a tree with more than `TREE_BLOB_MAX_CHILDREN` children is split
/// into: the same kind, name and metadata, the `i`-th batch of children, and as next
/// sibling the hash of the encoding of the next tree, for all but the last.
pub open spec fn split_part(t: TreeModel, i: int) -> TreeModel
    decreases split_count(t.children.len()) - i,
{
    TreeModel {
        kind: t.kind,
        name: t.name,
        metadata: t.metadata,
        children: chunk_of(t.children, i),
        next_sibling: if 0 <= i && i + 1 < split_count(t.children.len()) {
            Some(blake3_digest(tree_bytes(split_part(t, i + 1))))
        } else {
            None
        },
    }
}

/// The trees that `t` is stored as: `t` itself when it has at most
/// `TREE_BLOB_MAX_CHILDREN` children, otherwise its split parts.
pub open spec fn split_tree_parts(t: TreeModel) -> Seq<TreeModel> {
    if t.children.len() <= TREE_BLOB_MAX_CHILDREN {
        seq![t]
    } else {
        Seq::new(split_count(t.children.len()), |i: int| split_part(t, i))
    }
}

/// The children of the trees `ps`, one tree after another.
pub open spec fn children_concat(ps: Seq<TreeModel>) -> Seq<Seq<u8>>
    decreases ps.len(),
{
    if ps.len() == 0 {
        Seq::empty()
    } else {
        children_concat(ps.drop_last()) + ps.last().children
    }
}

/// The blob that stores the tree `t`.
pub open spec fn tree_blob_ok(b: Blob, t: TreeModel) -> bool {
    &&& b.kind == BlobKind::Tree
    &&& b.data@ == tree_bytes(t)
    &&& b.hash@ == blake3_digest(b.data@)
}

proof fn lemma_split_count(n: nat)
    requires
        n > TREE_BLOB_MAX_CHILDREN,
    ensures
        split_count(n) >= 2,
        (split_count(n) - 1) * TREE_BLOB_MAX_CHILDREN < n,
        n <= split_count(n) * TREE_BLOB_MAX_CHILDREN,
{
    let m: nat = TREE_BLOB_MAX_CHILDREN as nat;
    vstd::arithmetic::div_mod::lemma_fundamental_div_mod(n as int, m as int);
    let q = n / m;
    let r = n % m;
    assert(n == m * q + r);
    assert(q >= 1) by (nonlinear_arith)
        requires
            n == m * q + r,
            r < m,
            n > m,
            m == 10000,
    ;
    if r == 0 {
        assert(q >= 2) by (nonlinear_arith)
            requires
                n == m * q,
                n > m,
                m == 10000,
        ;
        assert((q - 1) * m < n) by (nonlinear_arith)
            requires
                n == m * q,
                q >= 2,
                m == 10000,
        ;
        assert(n <= q * m) by (nonlinear_arith)
            requires
                n == m * q,
        ;
    } else {
        assert(q * m < n) by (nonlinear_arith)
            requires
                n == m * q + r,
                r > 0,
        ;
        assert(n <= (q + 1) * m) by (nonlinear_arith)
            requires
                n == m * q + r,
                r < m,
        ;
    }
}

proof fn lemma_children_concat_split(t: TreeModel, k: int)
    requires
        t.children.len() > TREE_BLOB_MAX_CHILDREN,
        0 <= k <= split_count(t.children.len()),
    ensures
        children_concat(Seq::new(k as nat, |i: int| split_part(t, i))) == t.children.subrange(
            0,
            if k * TREE_BLOB_MAX_CHILDREN < t.children.len() {
                k * TREE_BLOB_MAX_CHILDREN
            } else {
                t.children.len() as int
            },
        ),
    decreases k,
{
    let n = t.children.len();
    lemma_split_count(n);
    let ps = Seq::new(k as nat, |i: int| split_part(t, i));
    if k == 0 {
        assert(t.children.subrange(0, 0) =~= Seq::<Seq<u8>>::empty());
    } else {
        lemma_children_concat_split(t, k - 1);
        assert(ps.drop_last() =~= Seq::new((k - 1) as nat, |i: int| split_part(t, i)));
        assert(ps.last() == split_part(t, k - 1));
        assert((k - 1) * TREE_BLOB_MAX_CHILDREN < n) by (nonlinear_arith)
            requires
                k <= split_count(n),
                (split_count(n) - 1) * TREE_BLOB_MAX_CHILDREN < n,
        ;
        let lo = (k - 1) * TREE_BLOB_MAX_CHILDREN;
        let hi = if k * TREE_BLOB_MAX_CHILDREN < n {
            k * TREE_BLOB_MAX_CHILDREN
        } else {
            n as int
        };
        assert(t.children.subrange(0, lo) + t.children.subrange(lo, hi) =~= t.children.subrange(
            0,
            hi,
        ));
    }
}

/// Splitting a tree loses no child and adds none: the children of its parts, one part after
/// another, are its children.
pub proof fn lemma_split_tree_children(t: TreeModel)
    ensures
        children_concat(split_tree_parts(t)) == t.children,
{
    let n = t.children.len();
    if n <= TREE_BLOB_MAX_CHILDREN {
        let ps = seq![t];
        assert(ps.drop_last() =~= Seq::<TreeModel>::empty());
        assert(children_concat(ps.drop_last()) == Seq::<Seq<u8>>::empty());
        assert(ps.last() == t);
        assert(Seq::<Seq<u8>>::empty() + t.children =~= t.children);
        assert(children_concat(ps) == children_concat(ps.drop_last()) + ps.last().children);
    } else {
        lemma_split_count(n);
        let m = split_count(n);
        lemma_children_concat_split(t, m as int);
        assert(split_tree_parts(t) =~= Seq::new((m as int) as nat, |i: int| split_part(t, i)));
        assert(m * TREE_BLOB_MAX_CHILDREN >= n);
        assert(t.children.subrange(0, n as int) =~= t.children);
    }
}

/// Each part of a split tree has at most `TREE_BLOB_MAX_CHILDREN` children, and names the
/// next part by the hash of its encoding; the last part names none.
pub proof fn lemma_split_tree_parts(t: TreeModel, i: int)
    requires
        t.children.len() > TREE_BLOB_MAX_CHILDREN,
        0 <= i < split_tree_parts(t).len(),
    ensures
        split_tree_parts(t)[i].children.len() <= TREE_BLOB_MAX_CHILDREN,
        i + 1 < split_tree_parts(t).len() ==> split_tree_parts(t)[i].next_sibling == Some(
            blake3_digest(tree_bytes(split_tree_parts(t)[i + 1])),
        ),
        i + 1 == split_tree_parts(t).len() ==> split_tree_parts(t)[i].next_sibling is None,
        split_tree_parts(t)[i].kind == t.kind,
        split_tree_parts(t)[i].name == t.name,
        split_tree_parts(t)[i].metadata == t.metadata,
{
    lemma_split_count(t.children.len());
    assert((i + 1) * TREE_BLOB_MAX_CHILDREN == i * TREE_BLOB_MAX_CHILDREN + TREE_BLOB_MAX_CHILDREN)
        by (nonlinear_arith);
    assert(i * TREE_BLOB_MAX_CHILDREN < t.children.len()) by (nonlinear_arith)
        requires
            i < split_count(t.children.len()),
            (split_count(t.children.len()) - 1) * TREE_BLOB_MAX_CHILDREN < t.children.len(),
    ;
}

/// Splits a tree into trees of at most `TREE_BLOB_MAX_CHILDREN` children if necessary, and
/// encodes them as tree blobs, first part first.
pub fn split_serialize_tree(tree: &Tree) -> (r: VecDeque<Blob>)
    ensures
        r@.len() == split_tree_parts(tree@).len(),
        forall|i: int| 0 <= i < r@.len() ==> tree_blob_ok(#[trigger] r@[i], split_tree_parts(tree@)[i]),
{
    let n = tree.children.len();
    let ghost t = tree@;
    if n <= TREE_BLOB_MAX_CHILDREN {
        let data = encode_tree(tree);
        let hash = blake3_hash(data.as_slice());
        let mut out = VecDeque::new();
        out.push_back(Blob { hash, kind: BlobKind::Tree, data });
        return out;
    }
    proof {
        lemma_split_count(n as nat);
    }
    let m = n / TREE_BLOB_MAX_CHILDREN + if n % TREE_BLOB_MAX_CHILDREN == 0 {
        0
    } else {
        1
    };
    assert(m == split_count(n as nat));
    let mut out: VecDeque<Blob> = VecDeque::new();
    let mut next: Option<BlobHash> = None;
    let mut i = m;
    while i > 0
        invariant
            n == tree.children@.len(),
            n > TREE_BLOB_MAX_CHILDREN,
            t == tree@,
            m == split_count(n as nat),
            m >= 2,
            (m - 1) * TREE_BLOB_MAX_CHILDREN < n,
            n <= m * TREE_BLOB_MAX_CHILDREN,
            i <= m,
            out@.len() == m - i,
            forall|j: int| 0 <= j < out@.len() ==> tree_blob_ok(#[trigger] out@[j], split_part(t, i + j)),
            i == m ==> next is None,
            i < m ==> next == Some(out@[0].hash),
        decreases i,
    {
        i = i - 1;
        assert(i * TREE_BLOB_MAX_CHILDREN < n) by (nonlinear_arith)
            requires
                i < m,
                (m - 1) * TREE_BLOB_MAX_CHILDREN < n,
        ;
        let lo = i * TREE_BLOB_MAX_CHILDREN;
        let hi = if n - lo > TREE_BLOB_MAX_CHILDREN {
            lo + TREE_BLOB_MAX_CHILDREN
        } else {
            n
        };
        let chunk = vstd::slice::slice_to_vec(
            vstd::slice::slice_subrange(tree.children.as_slice(), lo, hi),
        );
        let part = Tree {
            kind: tree.kind,
            name: tree.name.clone(),
            metadata: tree.metadata,
            children: chunk,
            next_sibling: next,
        };
        proof {
            assert((i + 1) * TREE_BLOB_MAX_CHILDREN == lo + TREE_BLOB_MAX_CHILDREN) by (nonlinear_arith)
                requires
                    lo == i * TREE_BLOB_MAX_CHILDREN,
            ;
            assert(hashes_view(chunk@) =~= chunk_of(t.children, i as int));
            if i + 1 < m {
                assert(out@[0] == out@[0]);
                assert(tree_blob_ok(out@[0], split_part(t, i + 1)));
            }
            assert(part@ == split_part(t, i as int));
        }
        let data = encode_tree(&part);
        let hash = blake3_hash(data.as_slice());
        let ghost old_out = out@;
        out.push_front(Blob { hash, kind: BlobKind::Tree, data });
        next = Some(hash);
        proof {
            assert forall|j: int| 0 <= j < out@.len() implies tree_blob_ok(
                #[trigger] out@[j],
                split_part(t, i + j),
            ) by {
                if j > 0 {
                    assert(out@[j] == old_out[j - 1]);
                    assert(i + j == (i + 1) + (j - 1));
                }
            }
        }
    }
    proof {
        assert forall|j: int| 0 <= j < out@.len() implies tree_blob_ok(
            #[trigger] out@[j],
            split_tree_parts(t)[j],
        ) by {
            assert(split_tree_parts(t)[j] == split_part(t, j));
        }
    }
    out
}

/// Appends the children of the sibling tree `part` to `root`. Returns the hash of the next
/// sibling to fetch, if any.
pub fn append_sibling(root: &mut Tree, part: Tree) -> (r: Option<BlobHash>)
    ensures
        final(root)@.children == old(root)@.children + part@.children,
        final(root)@.kind == old(root)@.kind,
        final(root)@.name == old(root)@.name,
        final(root)@.metadata == old(root)@.metadata,
        final(root)@.next_sibling == old(root)@.next_sibling,
        opt_hash_view(r) == part@.next_sibling,
{
    let mut children = part.children;
    let ghost before = root.children@;
    let ghost added = children@;
    root.children.append(&mut children);
    assert(hashes_view(root.children@) =~= hashes_view(before) + hashes_view(added));
    part.next_sibling
}

/// Why a blob could not be read as a tree.
#[derive(Clone, Copy, PartialEq, Eq, Structural, Debug)]
pub enum TreeError {
    /// The blob is not a tree blob.
    NotATree,
    /// The blob's data is not an encoded tree.
    Malformed,
}

/// Reads a tree blob.
pub fn parse_tree_blob(blob: &Blob) -> (r: Result<Tree, TreeError>)
    ensures
        blob.kind != BlobKind::Tree ==> r == Err::<Tree, TreeError>(TreeError::NotATree),
        blob.kind == BlobKind::Tree ==> match decode_tree_spec(blob.data@) {
            None => r == Err::<Tree, TreeError>(TreeError::Malformed),
            Some(t) => r matches Ok(x) && x@ == t,
        },
{
    if blob.kind != BlobKind::Tree {
        return Err(TreeError::NotATree);
    }
    match decode_tree(blob.data.as_slice()) {
        Some(t) => Ok(t),
        None => Err(TreeError::Malformed),
    }
}

} // verus!
