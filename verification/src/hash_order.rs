//! The lexicographic order of blob hashes, and binary search over sorted hash lists.
use vstd::prelude::*;

use crate::types::{BlobHash, PackfileId};

verus! {

/// `a` comes strictly before `b` in lexicographic byte order.
pub open spec fn lex_lt(a: Seq<u8>, b: Seq<u8>) -> bool
    decreases a.len(),
{
    if a.len() == 0 || b.len() == 0 {
        a.len() == 0 && b.len() > 0
    } else if a[0] < b[0] {
        true
    } else if a[0] > b[0] {
        false
    } else {
        lex_lt(a.drop_first(), b.drop_first())
    }
}

/// `a` comes before or equals `b` in lexicographic byte order.
pub open spec fn lex_le(a: Seq<u8>, b: Seq<u8>) -> bool {
    lex_lt(a, b) || a == b
}

pub proof fn lemma_lex_irreflexive(a: Seq<u8>)
    ensures
        !lex_lt(a, a),
    decreases a.len(),
{
    if a.len() > 0 {
        lemma_lex_irreflexive(a.drop_first());
    }
}

pub proof fn lemma_lex_transitive(a: Seq<u8>, b: Seq<u8>, c: Seq<u8>)
    requires
        lex_lt(a, b),
        lex_lt(b, c),
    ensures
        lex_lt(a, c),
    decreases a.len(),
{
    if a.len() > 0 && b.len() > 0 && c.len() > 0 {
        if a[0] == b[0] && b[0] == c[0] {
            lemma_lex_transitive(a.drop_first(), b.drop_first(), c.drop_first());
        }
    }
}

pub proof fn lemma_lex_asymmetric(a: Seq<u8>, b: Seq<u8>)
    requires
        lex_lt(a, b),
    ensures
        !lex_lt(b, a),
    decreases a.len(),
{
    if a.len() > 0 && b.len() > 0 && a[0] == b[0] {
        lemma_lex_asymmetric(a.drop_first(), b.drop_first());
    }
}

pub proof fn lemma_lex_total(a: Seq<u8>, b: Seq<u8>)
    ensures
        lex_lt(a, b) || lex_lt(b, a) || a == b,
    decreases a.len(),
{
    if a.len() > 0 && b.len() > 0 && a[0] == b[0] {
        lemma_lex_total(a.drop_first(), b.drop_first());
        if a.drop_first() == b.drop_first() {
            assert(a =~= seq![a[0]] + a.drop_first());
            assert(b =~= seq![b[0]] + b.drop_first());
        }
    } else if a.len() == 0 && b.len() == 0 {
        assert(a =~= b);
    }
}

pub proof fn lemma_lex_le_transitive(a: Seq<u8>, b: Seq<u8>, c: Seq<u8>)
    requires
        lex_le(a, b),
        lex_le(b, c),
    ensures
        lex_le(a, c),
{
    if lex_lt(a, b) && lex_lt(b, c) {
        lemma_lex_transitive(a, b, c);
    }
}

/// The outcome of comparing two hashes.
#[derive(Clone, Copy, PartialEq, Eq, Structural, Debug)]
pub enum HashOrder {
    Less,
    Equal,
    Greater,
}

/// Compares two hashes lexicographically.
pub fn compare_hashes(a: &BlobHash, b: &BlobHash) -> (r: HashOrder)
    ensures
        r == HashOrder::Less <==> lex_lt(a@, b@),
        r == HashOrder::Equal <==> a@ == b@,
        r == HashOrder::Greater <==> lex_lt(b@, a@),
{
    let mut i: usize = 0;
    assert(a@.skip(0) =~= a@);
    assert(b@.skip(0) =~= b@);
    while i < 32
        invariant
            i <= 32,
            a@.len() == 32,
            b@.len() == 32,
            a@.subrange(0, i as int) == b@.subrange(0, i as int),
            lex_lt(a@, b@) == lex_lt(a@.skip(i as int), b@.skip(i as int)),
            lex_lt(b@, a@) == lex_lt(b@.skip(i as int), a@.skip(i as int)),
        decreases 32 - i,
    {
        let ghost sa = a@.skip(i as int);
        let ghost sb = b@.skip(i as int);
        assert(sa[0] == a@[i as int]);
        assert(sb[0] == b@[i as int]);
        if a[i] < b[i] {
            proof {
                lemma_lex_asymmetric(a@, b@);
            }
            return HashOrder::Less;
        } else if a[i] > b[i] {
            proof {
                lemma_lex_asymmetric(b@, a@);
            }
            return HashOrder::Greater;
        }
        assert(sa.drop_first() =~= a@.skip(i + 1));
        assert(sb.drop_first() =~= b@.skip(i + 1));
        assert(a@.subrange(0, i + 1) =~= a@.subrange(0, i as int).push(a@[i as int]));
        assert(b@.subrange(0, i + 1) =~= b@.subrange(0, i as int).push(b@[i as int]));
        i = i + 1;
    }
    assert(a@.subrange(0, 32) =~= a@);
    assert(b@.subrange(0, 32) =~= b@);
    proof {
        lemma_lex_irreflexive(a@);
    }
    HashOrder::Equal
}

/// The hashes are in nondecreasing lexicographic order.
pub open spec fn hashes_sorted(v: Seq<Seq<u8>>) -> bool {
    forall|i: int, j: int| 0 <= i <= j < v.len() ==> lex_le(#[trigger] v[i], #[trigger] v[j])
}

pub open spec fn hash_list_view(v: Seq<BlobHash>) -> Seq<Seq<u8>> {
    v.map_values(|h: BlobHash| h@)
}

pub open spec fn entry_keys_view(v: Seq<(BlobHash, PackfileId)>) -> Seq<Seq<u8>> {
    v.map_values(|e: (BlobHash, PackfileId)| e.0@)
}

/// Binary search for `key` in lexicographically sorted `keys`: `Ok` with an index holding
/// `key` when present, otherwise `Err` with the index at which it could be inserted to keep
/// the order.
pub open spec fn search_result_ok(keys: Seq<Seq<u8>>, key: Seq<u8>, r: Result<usize, usize>) -> bool {
    match r {
        Ok(i) => 0 <= i < keys.len() && keys[i as int] == key,
        Err(i) => 0 <= i <= keys.len() && (forall|j: int| 0 <= j < keys.len() ==> keys[j] != key)
            && (forall|j: int| 0 <= j < i ==> lex_lt(#[trigger] keys[j], key)) && (forall|j: int|
            i <= j < keys.len() ==> lex_lt(key, #[trigger] keys[j])),
    }
}

proof fn lemma_search_narrow_low(keys: Seq<Seq<u8>>, key: Seq<u8>, mid: int)
    requires
        hashes_sorted(keys),
        0 <= mid < keys.len(),
        lex_lt(keys[mid], key),
    ensures
        forall|j: int| 0 <= j <= mid ==> lex_lt(#[trigger] keys[j], key),
{
    assert forall|j: int| 0 <= j <= mid implies lex_lt(#[trigger] keys[j], key) by {
        assert(lex_le(keys[j], keys[mid]));
        if lex_lt(keys[j], keys[mid]) {
            lemma_lex_transitive(keys[j], keys[mid], key);
        }
    }
}

proof fn lemma_search_narrow_high(keys: Seq<Seq<u8>>, key: Seq<u8>, mid: int)
    requires
        hashes_sorted(keys),
        0 <= mid < keys.len(),
        lex_lt(key, keys[mid]),
    ensures
        forall|j: int| mid <= j < keys.len() ==> lex_lt(key, #[trigger] keys[j]),
{
    assert forall|j: int| mid <= j < keys.len() implies lex_lt(key, #[trigger] keys[j]) by {
        assert(lex_le(keys[mid], keys[j]));
        if lex_lt(keys[mid], keys[j]) {
            lemma_lex_transitive(key, keys[mid], keys[j]);
        }
    }
}

proof fn lemma_search_absent(keys: Seq<Seq<u8>>, key: Seq<u8>, lo: int)
    requires
        0 <= lo <= keys.len(),
        forall|j: int| 0 <= j < lo ==> lex_lt(#[trigger] keys[j], key),
        forall|j: int| lo <= j < keys.len() ==> lex_lt(key, #[trigger] keys[j]),
    ensures
        forall|j: int| 0 <= j < keys.len() ==> keys[j] != key,
{
    assert forall|j: int| 0 <= j < keys.len() implies keys[j] != key by {
        if keys[j] == key {
            lemma_lex_irreflexive(key);
        }
    }
}

/// Searches a sorted list of hashes.
pub fn search_hashes(v: &Vec<BlobHash>, key: &BlobHash) -> (r: Result<usize, usize>)
    requires
        hashes_sorted(hash_list_view(v@)),
    ensures
        search_result_ok(hash_list_view(v@), key@, r),
{
    let ghost keys = hash_list_view(v@);
    let mut lo: usize = 0;
    let mut hi: usize = v.len();
    while lo < hi
        invariant
            keys == hash_list_view(v@),
            hashes_sorted(keys),
            0 <= lo <= hi <= v@.len(),
            forall|j: int| 0 <= j < lo ==> lex_lt(#[trigger] keys[j], key@),
            forall|j: int| hi <= j < v@.len() ==> lex_lt(key@, #[trigger] keys[j]),
        decreases hi - lo,
    {
        let mid = lo + (hi - lo) / 2;
        assert(keys[mid as int] == v@[mid as int]@);
        match compare_hashes(&v[mid], key) {
            HashOrder::Equal => {
                return Ok(mid);
            },
            HashOrder::Less => {
                proof {
                    lemma_search_narrow_low(keys, key@, mid as int);
                }
                lo = mid + 1;
            },
            HashOrder::Greater => {
                proof {
                    lemma_search_narrow_high(keys, key@, mid as int);
                }
                hi = mid;
            },
        }
    }
    proof {
        lemma_search_absent(keys, key@, lo as int);
    }
    Err(lo)
}

/// Searches a list of index entries sorted by blob hash.
pub fn search_entries(v: &Vec<(BlobHash, PackfileId)>, key: &BlobHash) -> (r: Result<usize, usize>)
    requires
        hashes_sorted(entry_keys_view(v@)),
    ensures
        search_result_ok(entry_keys_view(v@), key@, r),
{
    let ghost keys = entry_keys_view(v@);
    let mut lo: usize = 0;
    let mut hi: usize = v.len();
    while lo < hi
        invariant
            keys == entry_keys_view(v@),
            hashes_sorted(keys),
            0 <= lo <= hi <= v@.len(),
            forall|j: int| 0 <= j < lo ==> lex_lt(#[trigger] keys[j], key@),
            forall|j: int| hi <= j < v@.len() ==> lex_lt(key@, #[trigger] keys[j]),
        decreases hi - lo,
    {
        let mid = lo + (hi - lo) / 2;
        assert(keys[mid as int] == v@[mid as int].0@);
        match compare_hashes(&v[mid].0, key) {
            HashOrder::Equal => {
                return Ok(mid);
            },
            HashOrder::Less => {
                proof {
                    lemma_search_narrow_low(keys, key@, mid as int);
                }
                lo = mid + 1;
            },
            HashOrder::Greater => {
                proof {
                    lemma_search_narrow_high(keys, key@, mid as int);
                }
                hi = mid;
            },
        }
    }
    proof {
        lemma_search_absent(keys, key@, lo as int);
    }
    Err(lo)
}

} // verus!
