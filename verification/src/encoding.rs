//! Little-endian integers and the compact variable-length integer encoding used by the
//! on-disk formats (packfile headers and index files).
//!
//! A variable-length integer `v` takes one byte when `v <= 250`; otherwise a marker byte
//! (251, 252 or 253) is followed by `v` as a 2, 4 or 8 byte little-endian integer.
use vstd::prelude::*;

verus! {

/// `256^n`.
pub open spec fn pow256(n: nat) -> nat
    decreases n,
{
    if n == 0 {
        1
    } else {
        256 * pow256((n - 1) as nat)
    }
}

/// The `n` low bytes of `v`, least significant first.
pub open spec fn le_bytes(v: nat, n: nat) -> Seq<u8>
    decreases n,
{
    if n == 0 {
        Seq::empty()
    } else {
        seq![(v % 256) as u8] + le_bytes(v / 256, (n - 1) as nat)
    }
}

/// The number that the bytes `s` encode, least significant first.
pub open spec fn le_value(s: Seq<u8>) -> nat
    decreases s.len(),
{
    if s.len() == 0 {
        0
    } else {
        s[0] as nat + 256 * le_value(s.drop_first())
    }
}

pub proof fn lemma_pow256_positive(n: nat)
    ensures
        pow256(n) >= 1,
    decreases n,
{
    if n > 0 {
        lemma_pow256_positive((n - 1) as nat);
    }
}

pub proof fn lemma_pow256_values()
    ensures
        pow256(1) == 256,
        pow256(2) == 0x1_0000,
        pow256(4) == 0x1_0000_0000,
        pow256(8) == 0x1_0000_0000_0000_0000,
{
    reveal_with_fuel(pow256, 9);
}

pub proof fn lemma_le_bytes_len(v: nat, n: nat)
    ensures
        le_bytes(v, n).len() == n,
    decreases n,
{
    if n > 0 {
        lemma_le_bytes_len(v / 256, (n - 1) as nat);
    }
}

/// Reading back `n` little-endian bytes of a number below `256^n` gives the number.
pub proof fn lemma_le_roundtrip(v: nat, n: nat)
    requires
        v < pow256(n),
    ensures
        le_bytes(v, n).len() == n,
        le_value(le_bytes(v, n)) == v,
    decreases n,
{
    lemma_le_bytes_len(v, n);
    if n > 0 {
        let m = (n - 1) as nat;
        assert(v / 256 < pow256(m));
        lemma_le_roundtrip(v / 256, m);
        let s = le_bytes(v, n);
        assert(s.drop_first() =~= le_bytes(v / 256, m));
    }
}

pub proof fn lemma_le_value_bound(s: Seq<u8>)
    ensures
        le_value(s) < pow256(s.len()),
    decreases s.len(),
{
    if s.len() > 0 {
        lemma_le_value_bound(s.drop_first());
    }
}

/// Appends the `n` low bytes of `v` to `out`, least significant first.
pub fn write_le(out: &mut Vec<u8>, v: u64, n: usize)
    requires
        n <= 8,
        v < pow256(n as nat),
    ensures
        final(out)@ == old(out)@ + le_bytes(v as nat, n as nat),
{
    let mut x = v;
    let mut i: usize = 0;
    while i < n
        invariant
            i <= n,
            out@ + le_bytes(x as nat, (n - i) as nat) == old(out)@ + le_bytes(v as nat, n as nat),
        decreases n - i,
    {
        let ghost before = out@;
        out.push((x % 256) as u8);
        assert(le_bytes(x as nat, (n - i) as nat) == seq![(x % 256) as u8] + le_bytes(
            (x / 256) as nat,
            (n - i - 1) as nat,
        ));
        assert(out@ + le_bytes((x / 256) as nat, (n - i - 1) as nat) =~= before + le_bytes(
            x as nat,
            (n - i) as nat,
        ));
        x = x / 256;
        i = i + 1;
    }
    assert(out@ + le_bytes(x as nat, 0) =~= out@);
}

/// Reads `n` bytes starting at `pos` as a little-endian number.
pub fn read_le(s: &[u8], pos: usize, n: usize) -> (r: u64)
    requires
        n <= 8,
        pos + n <= s@.len(),
    ensures
        r as nat == le_value(s@.subrange(pos as int, pos + n)),
{
    let len = s.len();
    let mut acc: u64 = 0;
    let mut i: usize = n;
    proof {
        assert(s@.subrange(pos + n, pos + n).len() == 0);
    }
    while i > 0
        invariant
            n <= 8,
            pos + n <= s@.len(),
            len == s@.len(),
            i <= n,
            acc as nat == le_value(s@.subrange(pos + i, pos + n)),
        decreases i,
    {
        let b = s[pos + (i - 1)];
        let ghost t = s@.subrange(pos + i - 1, pos + n);
        proof {
            assert(t.drop_first() =~= s@.subrange(pos + i, pos + n));
            lemma_le_value_bound(s@.subrange(pos + i, pos + n));
            lemma_pow256_values();
            lemma_pow_mono((n - i) as nat, 7);
        }
        acc = acc * 256 + b as u64;
        i = i - 1;
    }
    acc
}

pub proof fn lemma_pow_mono(a: nat, b: nat)
    requires
        a <= b,
    ensures
        pow256(a) <= pow256(b),
    decreases b,
{
    if a < b {
        lemma_pow_mono(a, (b - 1) as nat);
        lemma_pow256_positive((b - 1) as nat);
    }
}

/// The variable-length encoding of `v`.
#[verifier::opaque]
pub open spec fn varint_bytes(v: u64) -> Seq<u8> {
    if v <= 250 {
        seq![v as u8]
    } else if v <= 0xffff {
        seq![251u8] + le_bytes(v as nat, 2)
    } else if v <= 0xffff_ffff {
        seq![252u8] + le_bytes(v as nat, 4)
    } else {
        seq![253u8] + le_bytes(v as nat, 8)
    }
}

/// Reads a variable-length integer at the start of `s`: the value and the number of bytes
/// it takes, or `None` when `s` does not start with one.
#[verifier::opaque]
pub open spec fn varint_parse(s: Seq<u8>) -> Option<(u64, nat)> {
    if s.len() == 0 {
        None
    } else if s[0] <= 250 {
        Some((s[0] as u64, 1))
    } else if s[0] == 251 && s.len() >= 3 {
        Some((le_value(s.subrange(1, 3)) as u64, 3))
    } else if s[0] == 252 && s.len() >= 5 {
        Some((le_value(s.subrange(1, 5)) as u64, 5))
    } else if s[0] == 253 && s.len() >= 9 {
        Some((le_value(s.subrange(1, 9)) as u64, 9))
    } else {
        None
    }
}

/// Appends the variable-length encoding of `v` to `out`.
pub fn write_varint(out: &mut Vec<u8>, v: u64)
    ensures
        final(out)@ == old(out)@ + varint_bytes(v),
{
    proof {
        lemma_pow256_values();
        reveal(varint_bytes);
    }
    if v <= 250 {
        out.push(v as u8);
        assert(out@ =~= old(out)@ + varint_bytes(v));
    } else if v <= 0xffff {
        out.push(251u8);
        write_le(out, v, 2);
        assert(out@ =~= old(out)@ + varint_bytes(v));
    } else if v <= 0xffff_ffff {
        out.push(252u8);
        write_le(out, v, 4);
        assert(out@ =~= old(out)@ + varint_bytes(v));
    } else {
        out.push(253u8);
        write_le(out, v, 8);
        assert(out@ =~= old(out)@ + varint_bytes(v));
    }
}

/// Reads a variable-length integer starting at `pos`.
pub fn read_varint(s: &[u8], pos: usize) -> (r: Option<(u64, usize)>)
    requires
        pos <= s@.len(),
    ensures
        r matches Some((v, k)) ==> varint_parse(s@.skip(pos as int)) == Some((v, k as nat)),
        r is None ==> varint_parse(s@.skip(pos as int)) is None,
        r matches Some((v, k)) ==> 1 <= k <= 9 && pos + k <= s@.len(),
{
    let ghost t = s@.skip(pos as int);
    proof {
        reveal(varint_parse);
    }
    if pos >= s.len() {
        return None;
    }
    let b = s[pos];
    if b <= 250 {
        Some((b as u64, 1))
    } else if b == 251 && s.len() - pos >= 3 {
        let v = read_le(s, pos + 1, 2);
        assert(t.subrange(1, 3) =~= s@.subrange(pos + 1, pos + 3));
        Some((v, 3))
    } else if b == 252 && s.len() - pos >= 5 {
        let v = read_le(s, pos + 1, 4);
        assert(t.subrange(1, 5) =~= s@.subrange(pos + 1, pos + 5));
        Some((v, 5))
    } else if b == 253 && s.len() - pos >= 9 {
        let v = read_le(s, pos + 1, 8);
        assert(t.subrange(1, 9) =~= s@.subrange(pos + 1, pos + 9));
        Some((v, 9))
    } else {
        None
    }
}

/// Reading back an encoded variable-length integer gives the same value, whatever follows it.
pub proof fn lemma_varint_roundtrip(v: u64, rest: Seq<u8>)
    ensures
        varint_parse(varint_bytes(v) + rest) == Some((v, varint_bytes(v).len())),
        1 <= varint_bytes(v).len() <= 9,
{
    reveal(varint_bytes);
    reveal(varint_parse);
    lemma_pow256_values();
    let s = varint_bytes(v) + rest;
    if v <= 250 {
    } else if v <= 0xffff {
        lemma_le_roundtrip(v as nat, 2);
        assert(s.subrange(1, 3) =~= le_bytes(v as nat, 2));
    } else if v <= 0xffff_ffff {
        lemma_le_roundtrip(v as nat, 4);
        assert(s.subrange(1, 5) =~= le_bytes(v as nat, 4));
    } else {
        lemma_le_roundtrip(v as nat, 8);
        assert(s.subrange(1, 9) =~= le_bytes(v as nat, 8));
    }
}

} // verus!
