//! Encodings of packfile headers and index files.
//!
//! A packfile header is the number of entries (variable-length integer) followed by the
//! entries; an entry is the 32-byte blob hash, the blob kind and the compression kind
//! (variant indices as variable-length integers), then the length and the offset
//! (variable-length integers). An index file is the number of entries followed by the
//! entries, each a 32-byte blob hash and a 12-byte packfile ID. A decoder accepts exactly
//! one encoded value with no bytes left over.
use vstd::prelude::*;

use crate::blob::{
    header_view, BlobKind, CompressionKind, HeaderEntryModel, PackfileError, PackfileHeaderBlob,
};
use crate::encoding::{
    le_value, lemma_varint_roundtrip, read_varint, varint_bytes, varint_parse, write_varint,
};
use crate::types::{BlobHash, PackfileId};

verus! {

pub open spec fn kind_index(k: BlobKind) -> u64 {
    match k {
        BlobKind::FileChunk => 0,
        BlobKind::Tree => 1,
    }
}

pub open spec fn kind_from_index(v: u64) -> Option<BlobKind> {
    if v == 0 {
        Some(BlobKind::FileChunk)
    } else if v == 1 {
        Some(BlobKind::Tree)
    } else {
        None
    }
}

pub open spec fn compression_index(c: CompressionKind) -> u64 {
    match c {
        CompressionKind::NoCompression => 0,
        CompressionKind::Zstd => 1,
    }
}

pub open spec fn compression_from_index(v: u64) -> Option<CompressionKind> {
    if v == 0 {
        Some(CompressionKind::NoCompression)
    } else if v == 1 {
        Some(CompressionKind::Zstd)
    } else {
        None
    }
}

/// The encoding of one header entry.
pub open spec fn header_entry_bytes(e: HeaderEntryModel) -> Seq<u8> {
    e.hash + varint_bytes(kind_index(e.kind)) + varint_bytes(compression_index(e.compression))
        + varint_bytes(e.length) + varint_bytes(e.offset)
}

/// The encodings of the entries, one after another.
pub open spec fn header_entries_bytes(es: Seq<HeaderEntryModel>) -> Seq<u8>
    decreases es.len(),
{
    if es.len() == 0 {
        Seq::empty()
    } else {
        header_entry_bytes(es[0]) + header_entries_bytes(es.drop_first())
    }
}

/// The encoding of a whole packfile header.
pub open spec fn header_bytes(es: Seq<HeaderEntryModel>) -> Seq<u8> {
    varint_bytes(es.len() as u64) + header_entries_bytes(es)
}

/// Reads one header entry at the start of `s`.
#[verifier::opaque]
pub open spec fn parse_header_entry(s: Seq<u8>) -> Option<(HeaderEntryModel, nat)> {
    if s.len() < 32 {
        None
    } else {
        match varint_parse(s.skip(32)) {
            Some((k, a)) => match kind_from_index(k) {
                Some(kind) => match varint_parse(s.skip(32 + a as int)) {
                    Some((c, b)) => match compression_from_index(c) {
                        Some(compression) => match varint_parse(s.skip(32 + a + b as int)) {
                            Some((length, d)) => match varint_parse(s.skip(32 + a + b + d as int)) {
                                Some((offset, f)) => Some(
                                    (
                                        HeaderEntryModel {
                                            hash: s.subrange(0, 32),
                                            kind,
                                            compression,
                                            length,
                                            offset,
                                        },
                                        32 + a + b + d + f,
                                    ),
                                ),
                                None => None,
                            },
                            None => None,
                        },
                        None => None,
                    },
                    None => None,
                },
                None => None,
            },
            None => None,
        }
    }
}

/// Reads `n` header entries at the start of `s`.
pub open spec fn parse_header_entries(s: Seq<u8>, n: nat) -> Option<(Seq<HeaderEntryModel>, nat)>
    decreases n,
{
    if n == 0 {
        Some((Seq::empty(), 0))
    } else {
        match parse_header_entry(s) {
            Some((e, k)) => match parse_header_entries(s.skip(k as int), (n - 1) as nat) {
                Some((es, m)) => Some((seq![e] + es, k + m)),
                None => None,
            },
            None => None,
        }
    }
}

/// Decodes a whole packfile header.
pub open spec fn decode_header_spec(s: Seq<u8>) -> Option<Seq<HeaderEntryModel>> {
    match varint_parse(s) {
        Some((n, a)) => match parse_header_entries(s.skip(a as int), n as nat) {
            Some((es, m)) => if a + m == s.len() {
                Some(es)
            } else {
                None
            },
            None => None,
        },
        None => None,
    }
}

proof fn lemma_header_entries_push(es: Seq<HeaderEntryModel>, e: HeaderEntryModel)
    ensures
        header_entries_bytes(es.push(e)) == header_entries_bytes(es) + header_entry_bytes(e),
    decreases es.len(),
{
    if es.len() == 0 {
        let one = es.push(e);
        assert(one.drop_first() =~= Seq::<HeaderEntryModel>::empty());
        assert(header_entries_bytes(one.drop_first()) == Seq::<u8>::empty());
        assert(one[0] == e);
        assert(header_entries_bytes(one) =~= header_entry_bytes(e));
    } else {
        lemma_header_entries_push(es.drop_first(), e);
        assert(es.push(e).drop_first() =~= es.drop_first().push(e));
        assert(header_entries_bytes(es.push(e)) =~= header_entries_bytes(es) + header_entry_bytes(
            e,
        ));
    }
}

proof fn lemma_header_entry_roundtrip(e: HeaderEntryModel, rest: Seq<u8>)
    requires
        e.hash.len() == 32,
    ensures
        parse_header_entry(header_entry_bytes(e) + rest) == Some(
            (e, header_entry_bytes(e).len()),
        ),
{
    let vk = varint_bytes(kind_index(e.kind));
    let vc = varint_bytes(compression_index(e.compression));
    let vl = varint_bytes(e.length);
    let vo = varint_bytes(e.offset);
    let s = header_entry_bytes(e) + rest;
    reveal(parse_header_entry);
    lemma_varint_roundtrip(kind_index(e.kind), vc + vl + vo + rest);
    lemma_varint_roundtrip(compression_index(e.compression), vl + vo + rest);
    lemma_varint_roundtrip(e.length, vo + rest);
    lemma_varint_roundtrip(e.offset, rest);
    assert(s.skip(32) =~= vk + (vc + vl + vo + rest));
    assert(s.skip(32 + vk.len() as int) =~= vc + (vl + vo + rest));
    assert(s.skip(32 + vk.len() + vc.len() as int) =~= vl + (vo + rest));
    assert(s.skip(32 + vk.len() + vc.len() + vl.len() as int) =~= vo + rest);
    assert(s.subrange(0, 32) =~= e.hash);
}

proof fn lemma_header_entries_roundtrip(es: Seq<HeaderEntryModel>, rest: Seq<u8>)
    requires
        forall|i: int| 0 <= i < es.len() ==> (#[trigger] es[i]).hash.len() == 32,
    ensures
        parse_header_entries(header_entries_bytes(es) + rest, es.len()) == Some(
            (es, header_entries_bytes(es).len()),
        ),
    decreases es.len(),
{
    if es.len() > 0 {
        let tail = es.drop_first();
        let eb = header_entry_bytes(es[0]);
        lemma_header_entries_roundtrip(tail, rest);
        lemma_header_entry_roundtrip(es[0], header_entries_bytes(tail) + rest);
        let s = header_entries_bytes(es) + rest;
        assert(s =~= eb + (header_entries_bytes(tail) + rest));
        assert(s.skip(eb.len() as int) =~= header_entries_bytes(tail) + rest);
        assert(seq![es[0]] + tail =~= es);
    }
}

/// A decoded header gives back the encoded entries.
pub proof fn lemma_header_roundtrip(es: Seq<HeaderEntryModel>)
    requires
        es.len() <= u64::MAX,
        forall|i: int| 0 <= i < es.len() ==> (#[trigger] es[i]).hash.len() == 32,
    ensures
        decode_header_spec(header_bytes(es)) == Some(es),
{
    let s = header_bytes(es);
    let vn = varint_bytes(es.len() as u64);
    lemma_varint_roundtrip(es.len() as u64, header_entries_bytes(es));
    lemma_header_entries_roundtrip(es, Seq::empty());
    assert(s.skip(vn.len() as int) =~= header_entries_bytes(es) + Seq::<u8>::empty());
}

/// An encoded header takes at most 52 bytes per entry, plus 9 for the number of entries.
pub proof fn lemma_header_bytes_len(es: Seq<HeaderEntryModel>)
    requires
        forall|i: int| 0 <= i < es.len() ==> (#[trigger] es[i]).hash.len() == 32,
    ensures
        header_bytes(es).len() <= 9 + 52 * es.len(),
{
    lemma_varint_roundtrip(es.len() as u64, Seq::empty());
    lemma_header_entries_len(es);
}

proof fn lemma_header_entries_len(es: Seq<HeaderEntryModel>)
    requires
        forall|i: int| 0 <= i < es.len() ==> (#[trigger] es[i]).hash.len() == 32,
    ensures
        header_entries_bytes(es).len() <= 52 * es.len(),
    decreases es.len(),
{
    if es.len() > 0 {
        let e = es[0];
        lemma_varint_roundtrip(kind_index(e.kind), Seq::empty());
        lemma_varint_roundtrip(compression_index(e.compression), Seq::empty());
        lemma_varint_roundtrip(e.length, Seq::empty());
        lemma_varint_roundtrip(e.offset, Seq::empty());
        assert(e.hash.len() == 32);
        assert(varint_bytes(kind_index(e.kind)).len() == 1) by {
            reveal(varint_bytes);
        }
        assert(varint_bytes(compression_index(e.compression)).len() == 1) by {
            reveal(varint_bytes);
        }
        assert(header_entry_bytes(e).len() == 32 + varint_bytes(kind_index(e.kind)).len()
            + varint_bytes(compression_index(e.compression)).len() + varint_bytes(e.length).len()
            + varint_bytes(e.offset).len());
        let t = es.drop_first();
        assert forall|i: int| 0 <= i < t.len() implies (#[trigger] t[i]).hash.len() == 32 by {
            assert(t[i] == es[i + 1]);
        }
        lemma_header_entries_len(t);
        assert(header_entries_bytes(es) == header_entry_bytes(e) + header_entries_bytes(t));
        assert(header_entries_bytes(es).len() == header_entry_bytes(e).len() + header_entries_bytes(
            t,
        ).len());
        assert(t.len() == es.len() - 1);
        assert(52 * es.len() == 52 * t.len() + 52) by (nonlinear_arith)
            requires
                t.len() == es.len() - 1,
        ;
    }
}

/// Appends the bytes of `s` to `out`.
pub fn append_bytes(out: &mut Vec<u8>, s: &[u8])
    ensures
        final(out)@ == old(out)@ + s@,
{
    let n = s.len();
    let mut i: usize = 0;
    while i < n
        invariant
            n == s@.len(),
            i <= n,
            out@ == old(out)@ + s@.subrange(0, i as int),
        decreases n - i,
    {
        out.push(s[i]);
        assert(s@.subrange(0, i + 1) =~= s@.subrange(0, i as int).push(s@[i as int]));
        i = i + 1;
    }
    assert(s@.subrange(0, n as int) =~= s@);
}

/// Reads 32 bytes starting at `pos` into an array.
pub fn read_array32(s: &[u8], pos: usize) -> (r: [u8; 32])
    requires
        pos + 32 <= s@.len(),
    ensures
        r@ == s@.subrange(pos as int, pos + 32),
{
    let len = s.len();
    let mut a = [0u8; 32];
    let mut i: usize = 0;
    while i < 32
        invariant
            pos + 32 <= s@.len(),
            len == s@.len(),
            i <= 32,
            a@.len() == 32,
            forall|j: int| 0 <= j < i ==> a@[j] == s@[pos + j],
        decreases 32 - i,
    {
        a[i] = s[pos + i];
        i = i + 1;
    }
    assert(a@ =~= s@.subrange(pos as int, pos + 32));
    a
}

/// Reads 12 bytes starting at `pos` into an array.
pub fn read_array12(s: &[u8], pos: usize) -> (r: [u8; 12])
    requires
        pos + 12 <= s@.len(),
    ensures
        r@ == s@.subrange(pos as int, pos + 12),
{
    let len = s.len();
    let mut a = [0u8; 12];
    let mut i: usize = 0;
    while i < 12
        invariant
            pos + 12 <= s@.len(),
            len == s@.len(),
            i <= 12,
            a@.len() == 12,
            forall|j: int| 0 <= j < i ==> a@[j] == s@[pos + j],
        decreases 12 - i,
    {
        a[i] = s[pos + i];
        i = i + 1;
    }
    assert(a@ =~= s@.subrange(pos as int, pos + 12));
    a
}

fn kind_to_index(k: BlobKind) -> (r: u64)
    ensures
        r == kind_index(k),
{
    match k {
        BlobKind::FileChunk => 0,
        BlobKind::Tree => 1,
    }
}

fn compression_to_index(c: CompressionKind) -> (r: u64)
    ensures
        r == compression_index(c),
{
    match c {
        CompressionKind::NoCompression => 0,
        CompressionKind::Zstd => 1,
    }
}

/// Appends the encoding of one header entry.
pub fn write_header_entry(out: &mut Vec<u8>, e: &PackfileHeaderBlob)
    ensures
        final(out)@ == old(out)@ + header_entry_bytes(e@),
{
    append_bytes(out, &e.hash);
    write_varint(out, kind_to_index(e.kind));
    write_varint(out, compression_to_index(e.compression));
    write_varint(out, e.length);
    write_varint(out, e.offset);
    assert(out@ =~= old(out)@ + header_entry_bytes(e@));
}

/// Encodes a packfile header.
pub fn encode_header(entries: &Vec<PackfileHeaderBlob>) -> (r: Vec<u8>)
    ensures
        r@ == header_bytes(header_view(entries@)),
{
    let mut out: Vec<u8> = Vec::new();
    let n = entries.len();
    write_varint(&mut out, n as u64);
    let ghost start = out@;
    let mut i: usize = 0;
    while i < n
        invariant
            n == entries@.len(),
            i <= n,
            out@ == start + header_entries_bytes(header_view(entries@.subrange(0, i as int))),
        decreases n - i,
    {
        let ghost prev = header_view(entries@.subrange(0, i as int));
        write_header_entry(&mut out, &entries[i]);
        proof {
            lemma_header_entries_push(prev, entries@[i as int]@);
            assert(header_view(entries@.subrange(0, i + 1)) =~= prev.push(entries@[i as int]@));
        }
        i = i + 1;
    }
    assert(entries@.subrange(0, n as int) =~= entries@);
    assert(out@ =~= header_bytes(header_view(entries@)));
    out
}

fn index_to_kind(v: u64) -> (r: Option<BlobKind>)
    ensures
        r == kind_from_index(v),
{
    if v == 0 {
        Some(BlobKind::FileChunk)
    } else if v == 1 {
        Some(BlobKind::Tree)
    } else {
        None
    }
}

fn index_to_compression(v: u64) -> (r: Option<CompressionKind>)
    ensures
        r == compression_from_index(v),
{
    if v == 0 {
        Some(CompressionKind::NoCompression)
    } else if v == 1 {
        Some(CompressionKind::Zstd)
    } else {
        None
    }
}

/// Reads one header entry starting at `pos`.
pub fn read_header_entry(s: &[u8], pos: usize) -> (r: Option<(PackfileHeaderBlob, usize)>)
    requires
        pos <= s@.len(),
    ensures
        r matches Some((e, k)) ==> parse_header_entry(s@.skip(pos as int)) == Some((e@, k as nat)),
        r is None ==> parse_header_entry(s@.skip(pos as int)) is None,
        r matches Some((e, k)) ==> pos + k <= s@.len(),
{
    let ghost t = s@.skip(pos as int);
    proof {
        reveal(parse_header_entry);
    }
    let len = s.len();
    if len - pos < 32 {
        return None;
    }
    let hash = read_array32(s, pos);
    assert(t.subrange(0, 32) =~= s@.subrange(pos as int, pos + 32));
    assert(t.skip(32) =~= s@.skip(pos + 32));
    let (k, a) = match read_varint(s, pos + 32) {
        Some(x) => x,
        None => return None,
    };
    let kind = match index_to_kind(k) {
        Some(x) => x,
        None => return None,
    };
    assert(t.skip(32 + a) =~= s@.skip(pos + 32 + a));
    let (c, b) = match read_varint(s, pos + 32 + a) {
        Some(x) => x,
        None => return None,
    };
    let compression = match index_to_compression(c) {
        Some(x) => x,
        None => return None,
    };
    assert(t.skip(32 + a + b) =~= s@.skip(pos + 32 + a + b));
    let (length, d) = match read_varint(s, pos + 32 + a + b) {
        Some(x) => x,
        None => return None,
    };
    assert(t.skip(32 + a + b + d) =~= s@.skip(pos + 32 + a + b + d));
    let (offset, f) = match read_varint(s, pos + 32 + a + b + d) {
        Some(x) => x,
        None => return None,
    };
    let e = PackfileHeaderBlob { hash, kind, compression, length, offset };
    Some((e, 32 + a + b + d + f))
}

/// Decodes a packfile header, rejecting malformed input and leftover bytes.
pub fn decode_header(s: &[u8]) -> (r: Result<Vec<PackfileHeaderBlob>, PackfileError>)
    ensures
        r matches Ok(v) ==> decode_header_spec(s@) == Some(header_view(v@)),
        r matches Err(e) ==> decode_header_spec(s@) is None && e == PackfileError::SerializationError,
{
    let len = s.len();
    let (n, a) = match read_varint(s, 0) {
        Some(x) => x,
        None => {
            assert(s@.skip(0) =~= s@);
            return Err(PackfileError::SerializationError);
        },
    };
    assert(s@.skip(0) =~= s@);
    let mut out: Vec<PackfileHeaderBlob> = Vec::new();
    let mut pos = a;
    let mut i: u64 = 0;
    while i < n
        invariant
            len == s@.len(),
            a <= pos <= len,
            i <= n,
            varint_parse(s@) == Some((n, a as nat)),
            out@.len() == i,
            parse_header_entries(s@.skip(a as int), n as nat) == match parse_header_entries(
                s@.skip(pos as int),
                (n - i) as nat,
            ) {
                Some((es, m)) => Some((header_view(out@) + es, ((pos - a) + m) as nat)),
                None => None::<(Seq<HeaderEntryModel>, nat)>,
            },
        decreases n - i,
    {
        match read_header_entry(s, pos) {
            Some((e, k)) => {
                let ghost old_out = out@;
                out.push(e);
                proof {
                    assert(s@.skip(pos as int).skip(k as int) =~= s@.skip(pos + k));
                    assert(header_view(out@) =~= header_view(old_out).push(e@));
                    let rest = parse_header_entries(s@.skip(pos + k), (n - i - 1) as nat);
                    if let Some((es, m)) = rest {
                        assert(header_view(old_out) + (seq![e@] + es) =~= header_view(out@)
                            + es);
                    }
                }
                pos = pos + k;
                i = i + 1;
            },
            None => {
                return Err(PackfileError::SerializationError);
            },
        }
    }
    assert(parse_header_entries(s@.skip(pos as int), 0) == Some(
        (Seq::<HeaderEntryModel>::empty(), 0nat),
    ));
    assert(header_view(out@) + Seq::<HeaderEntryModel>::empty() =~= header_view(out@));
    if pos == len {
        Ok(out)
    } else {
        Err(PackfileError::SerializationError)
    }
}

/// An entry of an index file: a blob and the packfile that holds it.
pub type IndexEntry = (BlobHash, PackfileId);

/// The encoding of one index entry.
pub open spec fn index_entry_bytes(e: (Seq<u8>, Seq<u8>)) -> Seq<u8> {
    e.0 + e.1
}

pub open spec fn index_entry_view(e: IndexEntry) -> (Seq<u8>, Seq<u8>) {
    (e.0@, e.1@)
}

pub open spec fn index_view(v: Seq<IndexEntry>) -> Seq<(Seq<u8>, Seq<u8>)> {
    v.map_values(|e: IndexEntry| index_entry_view(e))
}

pub open spec fn index_entries_bytes(es: Seq<(Seq<u8>, Seq<u8>)>) -> Seq<u8>
    decreases es.len(),
{
    if es.len() == 0 {
        Seq::empty()
    } else {
        index_entry_bytes(es[0]) + index_entries_bytes(es.drop_first())
    }
}

/// The encoding of a whole index file.
pub open spec fn index_bytes(es: Seq<(Seq<u8>, Seq<u8>)>) -> Seq<u8> {
    varint_bytes(es.len() as u64) + index_entries_bytes(es)
}

/// Decodes a whole index file: a count, then that many 44-byte entries, and nothing more.
pub open spec fn decode_index_spec(s: Seq<u8>) -> Option<Seq<(Seq<u8>, Seq<u8>)>> {
    match varint_parse(s) {
        Some((n, a)) => if s.len() == a + 44 * n {
            Some(
                Seq::new(
                    n as nat,
                    |i: int| (s.subrange(a + 44 * i, a + 44 * i + 32), s.subrange(a + 44 * i + 32, a + 44 * i + 44)),
                ),
            )
        } else {
            None
        },
        None => None,
    }
}

proof fn lemma_index_entries_push(es: Seq<(Seq<u8>, Seq<u8>)>, e: (Seq<u8>, Seq<u8>))
    ensures
        index_entries_bytes(es.push(e)) == index_entries_bytes(es) + index_entry_bytes(e),
    decreases es.len(),
{
    if es.len() == 0 {
        let one = es.push(e);
        assert(one.drop_first() =~= Seq::<(Seq<u8>, Seq<u8>)>::empty());
        assert(index_entries_bytes(one.drop_first()) == Seq::<u8>::empty());
        assert(one[0] == e);
        assert(index_entries_bytes(one) =~= index_entry_bytes(e));
    } else {
        lemma_index_entries_push(es.drop_first(), e);
        assert(es.push(e).drop_first() =~= es.drop_first().push(e));
        assert(index_entries_bytes(es.push(e)) =~= index_entries_bytes(es) + index_entry_bytes(
            e,
        ));
    }
}

proof fn lemma_index_entries_layout(es: Seq<(Seq<u8>, Seq<u8>)>)
    requires
        forall|i: int| 0 <= i < es.len() ==> (#[trigger] es[i]).0.len() == 32 && es[i].1.len() == 12,
    ensures
        index_entries_bytes(es).len() == 44 * es.len(),
        forall|i: int|
            0 <= i < es.len() ==> #[trigger] index_entries_bytes(es).subrange(44 * i, 44 * i + 32)
                == es[i].0 && index_entries_bytes(es).subrange(44 * i + 32, 44 * i + 44) == es[i].1,
    decreases es.len(),
{
    if es.len() > 0 {
        let tail = es.drop_first();
        lemma_index_entries_layout(tail);
        let b = index_entries_bytes(es);
        let tb = index_entries_bytes(tail);
        assert(b =~= es[0].0 + es[0].1 + tb);
        assert forall|i: int| 0 <= i < es.len() implies #[trigger] b.subrange(44 * i, 44 * i + 32)
            == es[i].0 && b.subrange(44 * i + 32, 44 * i + 44) == es[i].1 by {
            if i == 0 {
                assert(b.subrange(0, 32) =~= es[0].0);
                assert(b.subrange(32, 44) =~= es[0].1);
            } else {
                assert(tail[i - 1] == es[i]);
                assert(tb.subrange(44 * (i - 1), 44 * (i - 1) + 32) == tail[i - 1].0);
                assert(b.subrange(44 * i, 44 * i + 32) =~= tb.subrange(
                    44 * (i - 1),
                    44 * (i - 1) + 32,
                ));
                assert(b.subrange(44 * i + 32, 44 * i + 44) =~= tb.subrange(
                    44 * (i - 1) + 32,
                    44 * (i - 1) + 44,
                ));
            }
        }
    }
}

/// A decoded index file gives back the encoded entries.
pub proof fn lemma_index_roundtrip(es: Seq<(Seq<u8>, Seq<u8>)>)
    requires
        es.len() <= u64::MAX,
        forall|i: int| 0 <= i < es.len() ==> (#[trigger] es[i]).0.len() == 32 && es[i].1.len() == 12,
    ensures
        decode_index_spec(index_bytes(es)) == Some(es),
{
    let s = index_bytes(es);
    let vn = varint_bytes(es.len() as u64);
    lemma_varint_roundtrip(es.len() as u64, index_entries_bytes(es));
    lemma_index_entries_layout(es);
    let b = index_entries_bytes(es);
    let a = vn.len() as int;
    let d = decode_index_spec(s).unwrap();
    assert forall|i: int| 0 <= i < es.len() implies d[i] == es[i] by {
        assert(s.subrange(a + 44 * i, a + 44 * i + 32) =~= b.subrange(44 * i, 44 * i + 32));
        assert(s.subrange(a + 44 * i + 32, a + 44 * i + 44) =~= b.subrange(
            44 * i + 32,
            44 * i + 44,
        ));
    }
    assert(d =~= es);
}

/// Encodes an index file.
pub fn encode_index(entries: &Vec<IndexEntry>) -> (r: Vec<u8>)
    ensures
        r@ == index_bytes(index_view(entries@)),
{
    let mut out: Vec<u8> = Vec::new();
    let n = entries.len();
    write_varint(&mut out, n as u64);
    let ghost start = out@;
    let mut i: usize = 0;
    while i < n
        invariant
            n == entries@.len(),
            i <= n,
            out@ == start + index_entries_bytes(index_view(entries@.subrange(0, i as int))),
        decreases n - i,
    {
        let ghost prev = index_view(entries@.subrange(0, i as int));
        let ghost before = out@;
        append_bytes(&mut out, &entries[i].0);
        append_bytes(&mut out, &entries[i].1);
        proof {
            lemma_index_entries_push(prev, index_entry_view(entries@[i as int]));
            assert(index_view(entries@.subrange(0, i + 1)) =~= prev.push(
                index_entry_view(entries@[i as int]),
            ));
            assert(out@ =~= before + index_entry_bytes(index_entry_view(entries@[i as int])));
        }
        i = i + 1;
    }
    assert(entries@.subrange(0, n as int) =~= entries@);
    assert(out@ =~= index_bytes(index_view(entries@)));
    out
}

/// Decodes an index file, rejecting malformed input and leftover bytes.
pub fn decode_index(s: &[u8]) -> (r: Result<Vec<IndexEntry>, PackfileError>)
    ensures
        r matches Ok(v) ==> decode_index_spec(s@) == Some(index_view(v@)),
        r matches Err(e) ==> decode_index_spec(s@) is None && e == PackfileError::SerializationError,
{
    let len = s.len();
    assert(s@.skip(0) =~= s@);
    let (n, a) = match read_varint(s, 0) {
        Some(x) => x,
        None => return Err(PackfileError::SerializationError),
    };
    // the remaining bytes must be exactly `n` entries
    let rest = len - a;
    if rest % 44 != 0 || (rest / 44) as u64 != n {
        return Err(PackfileError::SerializationError);
    }
    let count = rest / 44;
    let mut out: Vec<IndexEntry> = Vec::new();
    let mut i: usize = 0;
    while i < count
        invariant
            len == s@.len(),
            rest == len - a,
            count == rest / 44,
            rest % 44 == 0,
            a <= len,
            i <= count,
            out@.len() == i,
            forall|j: int|
                0 <= j < i ==> #[trigger] index_entry_view(out@[j]) == (
                    s@.subrange(a + 44 * j, a + 44 * j + 32),
                    s@.subrange(a + 44 * j + 32, a + 44 * j + 44),
                ),
        decreases count - i,
    {
        let pos = a + 44 * i;
        let h = read_array32(s, pos);
        let p = read_array12(s, pos + 32);
        out.push((h, p));
        i = i + 1;
    }
    let ghost d = decode_index_spec(s@).unwrap();
    assert(index_view(out@) =~= d);
    Ok(out)
}

} // verus!
