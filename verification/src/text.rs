//! Decimal and hexadecimal text for file names and identifiers.
use vstd::prelude::*;
use vstd::utf8::{
    decode_utf8, encode_utf8, encode_utf8_decode_utf8, encode_utf8_valid_utf8, is_ascii_chars,
    is_ascii_chars_encode_utf8, valid_utf8,
};
use vstd::string::StrSliceExecFns;

verus! {

broadcast use vstd::string::group_string_axioms;

pub open spec fn is_digit(c: char) -> bool {
    '0' <= c && c <= '9'
}

pub open spec fn digit_value(c: char) -> nat {
    (c as nat - '0' as nat) as nat
}

/// The number written by the decimal digits `ds`.
pub open spec fn digits_value(ds: Seq<char>) -> nat
    decreases ds.len(),
{
    if ds.len() == 0 {
        0
    } else {
        digits_value(ds.drop_last()) * 10 + digit_value(ds.last())
    }
}

/// `cs` without a leading `+`.
pub open spec fn strip_plus(cs: Seq<char>) -> Seq<char> {
    if cs.len() > 0 && cs[0] == '+' {
        cs.drop_first()
    } else {
        cs
    }
}

pub open spec fn all_digits(ds: Seq<char>) -> bool {
    forall|i: int| 0 <= i < ds.len() ==> is_digit(#[trigger] ds[i])
}

/// What parsing `cs` as a `u32` gives: an optional `+` followed by one or more decimal
/// digits, of a value that fits in 32 bits.
pub open spec fn parse_u32_spec(cs: Seq<char>) -> Option<u32> {
    let ds = strip_plus(cs);
    if ds.len() > 0 && all_digits(ds) && digits_value(ds) <= u32::MAX {
        Some(digits_value(ds) as u32)
    } else {
        None
    }
}

proof fn lemma_digits_value_push(ds: Seq<char>, c: char)
    ensures
        digits_value(ds.push(c)) == digits_value(ds) * 10 + digit_value(c),
{
    assert(ds.push(c).drop_last() =~= ds);
}

proof fn lemma_digits_value_monotone(ds: Seq<char>, c: char)
    requires
        is_digit(c),
    ensures
        digits_value(ds.push(c)) >= digits_value(ds),
{
    lemma_digits_value_push(ds, c);
}

proof fn lemma_digits_prefix_bound(ds: Seq<char>, k: int)
    requires
        0 <= k <= ds.len(),
        forall|i: int| 0 <= i < ds.len() ==> is_digit(#[trigger] ds[i]),
    ensures
        digits_value(ds.subrange(0, k)) <= digits_value(ds),
    decreases ds.len() - k,
{
    if k < ds.len() {
        lemma_digits_prefix_bound(ds, k + 1);
        assert(ds.subrange(0, k + 1) =~= ds.subrange(0, k).push(ds[k]));
        lemma_digits_value_monotone(ds.subrange(0, k), ds[k]);
    } else {
        assert(ds.subrange(0, k) =~= ds);
    }
}

/// Parses a string as a `u32`, as `str::parse::<u32>` does.
pub fn parse_u32(s: &str) -> (r: Option<u32>)
    ensures
        r == parse_u32_spec(s@),
{
    let n = s.unicode_len();
    let ghost cs = s@;
    let mut start: usize = 0;
    if n > 0 && s.get_char(0) == '+' {
        start = 1;
    }
    let ghost ds = strip_plus(cs);
    assert(ds =~= cs.skip(start as int));
    if start >= n {
        return None;
    }
    let mut acc: u64 = 0;
    let mut i: usize = start;
    assert(ds.subrange(0, 0) =~= Seq::<char>::empty());
    while i < n
        invariant
            n == cs.len(),
            cs == s@,
            start <= i <= n,
            ds == cs.skip(start as int),
            ds == strip_plus(cs),
            forall|k: int| 0 <= k < i - start ==> is_digit(#[trigger] ds[k]),
            acc == digits_value(ds.subrange(0, i - start)),
            acc <= u32::MAX,
        decreases n - i,
    {
        let c = s.get_char(i);
        assert(ds[i - start] == c);
        if c < '0' || c > '9' {
            assert(!is_digit(ds[i - start]));
            return None;
        }
        let d = (c as u32 - '0' as u32) as u64;
        proof {
            assert(ds.subrange(0, i - start + 1) =~= ds.subrange(0, i - start).push(c));
            lemma_digits_value_push(ds.subrange(0, i - start), c);
        }
        acc = acc * 10 + d;
        if acc > 0xffff_ffff {
            proof {
                if all_digits(ds) {
                    lemma_digits_prefix_bound(ds, i - start + 1);
                    assert(digits_value(ds) > u32::MAX);
                }
            }
            return None;
        }
        i = i + 1;
    }
    assert(ds.subrange(0, n - start) =~= ds);
    Some(acc as u32)
}

/// The ten-digit decimal text of `v`, padded with leading zeros (as `{v:0>10}` formats it).
pub open spec fn decimal_padded10(v: u32) -> Seq<char> {
    Seq::new(10, |k: int| char_of_digit(((v as nat / pow10((9 - k) as nat)) % 10) as nat))
}

pub open spec fn pow10(n: nat) -> nat
    decreases n,
{
    if n == 0 {
        1
    } else {
        10 * pow10((n - 1) as nat)
    }
}

pub open spec fn char_of_digit(d: nat) -> char {
    ('0' as nat + d) as char
}

/// Calls `String::from_utf8`. Claims that it succeeds exactly on valid UTF-8, with the
/// characters that the bytes encode.
#[verifier::external_body]
pub fn string_from_utf8(bytes: Vec<u8>) -> (r: Option<String>)
    ensures
        r matches Some(s) ==> valid_utf8(bytes@) && s@ == decode_utf8(bytes@),
        r is None ==> !valid_utf8(bytes@),
{
    String::from_utf8(bytes).ok()
}

/// Converts ASCII bytes into a string with the same characters.
pub fn ascii_to_string(bytes: Vec<u8>) -> (r: String)
    requires
        forall|i: int| 0 <= i < bytes@.len() ==> bytes@[i] < 128,
    ensures
        r@ == bytes@.map_values(|b: u8| b as char),
{
    let ghost chars = bytes@.map_values(|b: u8| b as char);
    proof {
        assert(is_ascii_chars(chars));
        is_ascii_chars_encode_utf8(chars);
        assert forall|i: int| 0 <= i < bytes@.len() implies encode_utf8(chars)[i] == bytes@[i] by {
            assert(chars[i] as u8 == encode_utf8(chars)[i]);
        }
        assert(encode_utf8(chars) =~= bytes@);
        encode_utf8_valid_utf8(chars);
        encode_utf8_decode_utf8(chars);
    }
    string_from_utf8(bytes).unwrap()
}

/// Formats `v` as ten decimal digits, padded with leading zeros.
pub fn format_padded10(v: u32) -> (r: String)
    ensures
        r@ == decimal_padded10(v),
{
    let mut out: Vec<u8> = Vec::new();
    let mut div: u32 = 1_000_000_000;
    let mut k: usize = 0;
    proof {
        reveal_with_fuel(pow10, 11);
    }
    while k < 10
        invariant
            k <= 10,
            div as nat == pow10((9 - k) as nat) || k == 10,
            out@.len() == k,
            forall|j: int| 0 <= j < k ==> #[trigger] out@[j] == 48 + ((v as nat / pow10((9 - j) as nat)) % 10),
        decreases 10 - k,
    {
        proof {
            reveal_with_fuel(pow10, 11);
        }
        let d = ((v / div) % 10) as u8;
        out.push(48u8 + d);
        if k < 9 {
            div = div / 10;
        }
        k = k + 1;
    }
    let ghost bytes = out@;
    let r = ascii_to_string(out);
    assert(r@ =~= decimal_padded10(v));
    r
}


proof fn lemma_pow10_positive(n: nat)
    ensures
        pow10(n) >= 1,
    decreases n,
{
    if n > 0 {
        lemma_pow10_positive((n - 1) as nat);
    }
}

proof fn lemma_padded_prefix(v: u32, k: int)
    requires
        0 <= k <= 10,
    ensures
        digits_value(decimal_padded10(v).take(k)) == v as nat / pow10((10 - k) as nat),
        all_digits(decimal_padded10(v).take(k)),
    decreases k,
{
    let t = decimal_padded10(v);
    if k == 0 {
        reveal_with_fuel(pow10, 11);
        assert(t.take(0) =~= Seq::<char>::empty());
        assert(pow10(10) == 10000000000);
        assert(v as nat / 10000000000nat == 0);
    } else {
        lemma_padded_prefix(v, k - 1);
        let p = pow10((10 - k) as nat);
        lemma_pow10_positive((10 - k) as nat);
        assert(pow10((11 - k) as nat) == 10 * p);
        assert(t.take(k).drop_last() =~= t.take(k - 1));
        let d = ((v as nat / p) % 10) as nat;
        assert(t.take(k).last() == char_of_digit(d));
        assert(digit_value(char_of_digit(d)) == d);
        vstd::arithmetic::div_mod::lemma_div_denominator(v as int, p as int, 10);
        vstd::arithmetic::div_mod::lemma_fundamental_div_mod((v as nat / p) as int, 10);
        assert(p * 10 == 10 * p);
        let q = v as nat / p;
        assert(v as nat / pow10((11 - k) as nat) == q / 10);
        assert(digits_value(t.take(k)) == digits_value(t.take(k - 1)) * 10 + digit_value(t.take(k).last()));
        assert((q / 10) * 10 + q % 10 == q) by (nonlinear_arith)
            requires
                q == 10 * (q / 10) + q % 10,
        ;
        assert forall|i: int| 0 <= i < t.take(k).len() implies is_digit(#[trigger] t.take(k)[i]) by {
            if i < k - 1 {
                assert(t.take(k)[i] == t.take(k - 1)[i]);
            }
        }
    }
}

/// Reading back the ten-digit name of an index file gives its number.
pub proof fn lemma_index_name_roundtrip(v: u32)
    ensures
        parse_u32_spec(decimal_padded10(v)) == Some(v),
{
    lemma_padded_prefix(v, 10);
    let t = decimal_padded10(v);
    assert(t.take(10) =~= t);
    assert(pow10(0) == 1);
    assert(((10 - 10) as nat) == 0nat);
    assert(digits_value(t.take(10)) == v as nat / pow10(0));
    assert(v as nat / 1 == v as nat);
    assert(is_digit(t[0]));
    assert(t[0] != '+');
    assert(strip_plus(t) == t);
    assert(digits_value(t) == v as nat);
    assert(all_digits(t));
    assert(t.len() == 10);
}

/// Strict lexicographic order of two texts, by code point, compared up to the shorter one.
pub open spec fn text_lt(a: Seq<char>, b: Seq<char>) -> bool {
    exists|k: int|
        0 <= k < a.len() && k < b.len() && a.take(k) == b.take(k) && (#[trigger] a[k] as nat) < (
        b[k] as nat)
}

/// The number formed by the first `j` of the ten digits of `v`.
spec fn leading(v: u32, j: int) -> nat {
    v as nat / pow10((10 - j) as nat)
}

proof fn lemma_leading_step(v: u32, k: int)
    requires
        0 <= k < 10,
    ensures
        leading(v, k + 1) == 10 * leading(v, k) + leading(v, k + 1) % 10,
        decimal_padded10(v)[k] == char_of_digit(leading(v, k + 1) % 10),
{
    let p = pow10((9 - k) as nat);
    lemma_pow10_positive((9 - k) as nat);
    assert(pow10((10 - k) as nat) == 10 * p);
    assert(p * 10 == 10 * p);
    vstd::arithmetic::div_mod::lemma_div_denominator(v as int, p as int, 10);
    let q = v as nat / p;
    vstd::arithmetic::div_mod::lemma_fundamental_div_mod(q as int, 10);
}

proof fn lemma_digit_char(d: nat)
    requires
        d < 10,
    ensures
        char_of_digit(d) as nat == '0' as nat + d,
{
}

proof fn lemma_order_from(a: u32, b: u32, k: int)
    requires
        a < b,
        0 <= k < 10,
        forall|j: int| 0 <= j <= k ==> #[trigger] leading(a, j) == leading(b, j),
    ensures
        text_lt(decimal_padded10(a), decimal_padded10(b)),
    decreases 10 - k,
{
    let ta = decimal_padded10(a);
    let tb = decimal_padded10(b);
    lemma_leading_step(a, k);
    lemma_leading_step(b, k);
    if leading(a, k + 1) == leading(b, k + 1) {
        if k + 1 == 10 {
            assert(pow10(0) == 1);
            assert(((10 - 10int) as nat) == 0nat);
            assert(a as nat / 1nat == a as nat);
            assert(b as nat / 1nat == b as nat);
            assert(leading(a, 10) == a as nat);
            assert(leading(b, 10) == b as nat);
        } else {
            assert forall|j: int| 0 <= j <= k + 1 implies #[trigger] leading(a, j) == leading(b, j) by {
                if j <= k {
                    assert(leading(a, j) == leading(b, j));
                }
            }
            lemma_order_from(a, b, k + 1);
        }
    } else {
        lemma_pow10_positive((9 - k) as nat);
        vstd::arithmetic::div_mod::lemma_div_is_ordered(
            a as int,
            b as int,
            pow10((9 - k) as nat) as int,
        );
        assert((10 - (k + 1)) as nat == (9 - k) as nat);
        assert(leading(a, k + 1) < leading(b, k + 1));
        let da = leading(a, k + 1) % 10;
        let db = leading(b, k + 1) % 10;
        assert(da < db);
        lemma_digit_char(da);
        lemma_digit_char(db);
        assert forall|i: int| 0 <= i < k implies ta.take(k)[i] == tb.take(k)[i] by {
            lemma_leading_step(a, i);
            lemma_leading_step(b, i);
            assert(leading(a, i + 1) == leading(b, i + 1));
        }
        assert(ta.take(k) =~= tb.take(k));
        assert((ta[k] as nat) < (tb[k] as nat));
    }
}

/// Index file names are ten decimal digits, and they sort as text in the order of the
/// numbers they stand for, so that distinct numbers give distinct names.
pub proof fn lemma_index_names_ordered(a: u32, b: u32)
    ensures
        decimal_padded10(a).len() == 10,
        all_digits(decimal_padded10(a)),
        a < b <==> text_lt(decimal_padded10(a), decimal_padded10(b)),
        a != b ==> decimal_padded10(a) != decimal_padded10(b),
{
    let ta = decimal_padded10(a);
    let tb = decimal_padded10(b);
    lemma_padded_prefix(a, 10);
    assert(ta.take(10) =~= ta);
    lemma_index_name_roundtrip(a);
    lemma_index_name_roundtrip(b);
    if a < b {
        reveal_with_fuel(pow10, 11);
        assert(pow10(10) == 10000000000);
        assert(((10 - 0int) as nat) == 10nat);
        assert(a as nat / 10000000000nat == 0);
        assert(b as nat / 10000000000nat == 0);
        assert(leading(a, 0) == 0 && leading(b, 0) == 0);
        assert forall|j: int| 0 <= j <= 0 implies #[trigger] leading(a, j) == leading(b, j) by {}
        lemma_order_from(a, b, 0);
    }
    if text_lt(ta, tb) {
        let k = choose|k: int|
            0 <= k < ta.len() && k < tb.len() && ta.take(k) == tb.take(k) && (#[trigger] ta[k] as nat)
                < (tb[k] as nat);
        lemma_padded_prefix(a, k);
        lemma_padded_prefix(b, k);
        lemma_leading_step(a, k);
        lemma_leading_step(b, k);
        assert(leading(a, k) == leading(b, k));
        let da = leading(a, k + 1) % 10;
        let db = leading(b, k + 1) % 10;
        lemma_digit_char(da);
        lemma_digit_char(db);
        assert(da < db);
        assert(leading(a, k + 1) < leading(b, k + 1));
        if a >= b {
            lemma_pow10_positive((9 - k) as nat);
            vstd::arithmetic::div_mod::lemma_div_is_ordered(
                b as int,
                a as int,
                pow10((9 - k) as nat) as int,
            );
            assert((10 - (k + 1)) as nat == (9 - k) as nat);
        }
    }
}

} // verus!
