//! File names of packfiles and index files, and the paths that hold them.
//!
//! A packfile is named by the lowercase hexadecimal text of its ID and stored in a folder
//! named by the first two characters of that text, to avoid having too many files in one
//! folder. An index file is named by its number, as ten decimal digits.
use vstd::prelude::*;
use vstd::string::StringSliceAdditionalSpecFns;
use vstd::utf8::{encode_utf8, is_ascii_chars, is_ascii_chars_encode_utf8};

use std::path::{Path, PathBuf};

use crate::defaults::{INDEX_FOLDER, PACKFILE_FOLDER};
use crate::obfuscation::{lemma_obfuscation_involution, obfuscated};
use crate::text::{decimal_padded10, format_padded10, parse_u32, parse_u32_spec};
use crate::types::PackfileId;

verus! {

#[verifier::external_type_specification]
#[verifier::external_body]
pub struct ExPathBuf(PathBuf);

#[verifier::external_type_specification]
#[verifier::external_body]
pub struct ExPath(Path);

/// Why a path does not name a packfile or an index file.
#[derive(Clone, Copy, PartialEq, Eq, Structural, Debug)]
pub enum PathError {
    /// The path has no file name.
    NoFileName,
    /// The file name is not hexadecimal text.
    InvalidHex,
    /// The file name is hexadecimal text of another length than a packfile ID's.
    InvalidLength,
    /// The file name is not a number.
    InvalidNumber,
}

/// The lowercase hexadecimal digit of `v`.
pub open spec fn hex_digit(v: nat) -> char {
    if v < 10 {
        ('0' as nat + v) as char
    } else {
        ('a' as nat + v - 10) as char
    }
}

/// The lowercase hexadecimal text of `bytes`: two digits per byte, high half first.
pub open spec fn hex_lower(bytes: Seq<u8>) -> Seq<char> {
    Seq::new(
        2 * bytes.len(),
        |i: int|
            if i % 2 == 0 {
                hex_digit((bytes[i / 2] / 16) as nat)
            } else {
                hex_digit((bytes[i / 2] % 16) as nat)
            },
    )
}

/// The value of a hexadecimal digit, in either case.
pub open spec fn hex_value(c: u8) -> Option<nat> {
    if 65 <= c <= 70 {
        Some((c - 55) as nat)
    } else if 97 <= c <= 102 {
        Some((c - 87) as nat)
    } else if 48 <= c <= 57 {
        Some((c - 48) as nat)
    } else {
        None
    }
}

/// The bytes that the hexadecimal text `s` stands for, two digits per byte, or `None` when
/// `s` has an odd length or a character that is not a hexadecimal digit.
pub open spec fn hex_decoded(s: Seq<u8>) -> Option<Seq<u8>> {
    if s.len() % 2 != 0 {
        None
    } else if forall|i: int| 0 <= i < s.len() ==> (#[trigger] hex_value(s[i])) is Some {
        Some(
            Seq::new(
                s.len() / 2,
                |j: int| (hex_value(s[2 * j])->0 * 16 + hex_value(s[2 * j + 1])->0) as u8,
            ),
        )
    } else {
        None
    }
}

/// Calls `hex::encode`. Claims that the result is the lowercase hexadecimal text of `bytes`.
#[verifier::external_body]
pub(crate) fn hex_encode(bytes: &[u8]) -> (r: String)
    ensures
        r@ == hex_lower(bytes@),
{
    hex::encode(bytes)
}

/// Calls `hex::decode`. Claims that it succeeds exactly on text of even length made of
/// hexadecimal digits, with the bytes that the text stands for.
#[verifier::external_body]
pub(crate) fn hex_decode(s: &str) -> (r: Option<Vec<u8>>)
    ensures
        r matches Some(v) ==> hex_decoded(s.spec_bytes()) == Some(v@),
        r is None ==> hex_decoded(s.spec_bytes()) is None,
{
    hex::decode(s).ok()
}

/// Calls `Path::file_name`, converting the name lossily to a string. Nothing is claimed of
/// the name: it depends on the platform's path syntax.
#[verifier::external_body]
fn path_file_name(path: &Path) -> (r: Option<String>) {
    path.file_name().map(|n| n.to_string_lossy().to_string())
}

/// Calls `Path::join`. Nothing is claimed of the result: it depends on the platform's path
/// syntax.
#[verifier::external_body]
fn path_join(base: &Path, name: &str) -> (r: PathBuf) {
    base.join(name)
}

/// Calls `PathBuf::as_path`. Nothing is claimed of the result.
#[verifier::external_body]
fn path_buf_as_path(p: &PathBuf) -> (r: &Path) {
    p.as_path()
}

/// The packfile ID that a packfile's file name stands for.
pub fn parse_packfile_name(name: &str) -> (r: Result<PackfileId, PathError>)
    ensures
        match hex_decoded(name.spec_bytes()) {
            None => r == Err::<PackfileId, PathError>(PathError::InvalidHex),
            Some(v) => if v.len() == 12 {
                r matches Ok(id) && id@ == v
            } else {
                r == Err::<PackfileId, PathError>(PathError::InvalidLength)
            },
        },
{
    let bytes = match hex_decode(name) {
        Some(b) => b,
        None => return Err(PathError::InvalidHex),
    };
    if bytes.len() != 12 {
        return Err(PathError::InvalidLength);
    }
    let mut id = [0u8; 12];
    let mut i: usize = 0;
    while i < 12
        invariant
            i <= 12,
            bytes@.len() == 12,
            id@.len() == 12,
            forall|j: int| 0 <= j < i ==> id@[j] == bytes@[j],
        decreases 12 - i,
    {
        id[i] = bytes[i];
        i = i + 1;
    }
    assert(id@ =~= bytes@);
    Ok(id)
}

/// The file name of the packfile `id`: the lowercase hexadecimal text of the ID.
pub fn packfile_name(id: &PackfileId) -> (r: String)
    ensures
        r@ == hex_lower(id@),
{
    hex_encode(id)
}

/// The name of the folder that holds the packfile `id`: the first two characters of its
/// file name.
pub fn packfile_dir_name(id: &PackfileId) -> (r: String)
    ensures
        r@ == hex_lower(id@).subrange(0, 2),
{
    let first = vstd::slice::slice_subrange(id, 0, 1);
    let r = hex_encode(first);
    assert(hex_lower(id@.subrange(0, 1)) =~= hex_lower(id@).subrange(0, 2));
    r
}

/// The number that an index file's name stands for.
pub fn parse_index_name(name: &str) -> (r: Result<u32, PathError>)
    ensures
        match parse_u32_spec(name@) {
            Some(v) => r == Ok::<u32, PathError>(v),
            None => r == Err::<u32, PathError>(PathError::InvalidNumber),
        },
{
    match parse_u32(name) {
        Some(v) => Ok(v),
        None => Err(PathError::InvalidNumber),
    }
}

/// Parse a packfile path from a file name into a native packfile ID.
pub fn parse_packfile_path_into_id(path: &Path) -> (r: Result<PackfileId, PathError>)
    ensures
        r matches Ok(id) ==> exists|name: Seq<u8>| hex_decoded(name) == Some(id@),
        r matches Err(e) ==> e == PathError::NoFileName || e == PathError::InvalidHex || e
            == PathError::InvalidLength,
{
    match path_file_name(path) {
        Some(name) => parse_packfile_name(name.as_str()),
        None => Err(PathError::NoFileName),
    }
}

/// Parse an index path from a file name into a native index ID.
pub fn parse_index_path_into_id(path: &Path) -> (r: Result<u32, PathError>)
    ensures
        r matches Ok(v) ==> exists|name: Seq<char>| parse_u32_spec(name) == Some(v),
        r matches Err(e) ==> e == PathError::NoFileName || e == PathError::InvalidNumber,
{
    match path_file_name(path) {
        Some(name) => parse_index_name(name.as_str()),
        None => Err(PathError::NoFileName),
    }
}

/// The path of the packfile `id` in `backup_folder`: its packfile folder, then the folder
/// named by the first two characters of the packfile's name, then the name.
pub fn get_packfile_path(backup_folder: &Path, id: PackfileId) -> (r: PathBuf) {
    let folder = path_join(backup_folder, PACKFILE_FOLDER);
    let dir_name = packfile_dir_name(&id);
    let dir = path_join(path_buf_as_path(&folder), dir_name.as_str());
    let name = packfile_name(&id);
    path_join(path_buf_as_path(&dir), name.as_str())
}

/// Get the path to an index file.
pub fn get_index_path(backup_folder: &Path, id: u32) -> (r: PathBuf) {
    let folder = path_join(backup_folder, INDEX_FOLDER);
    let name = format_padded10(id);
    path_join(path_buf_as_path(&folder), name.as_str())
}

/// The file name that an index file's number gives.
pub fn index_file_name(id: u32) -> (r: String)
    ensures
        r@ == decimal_padded10(id),
{
    format_padded10(id)
}

pub(crate) proof fn lemma_hex_digit_bytes(v: nat)
    requires
        v < 16,
    ensures
        hex_digit(v) as u8 as nat == hex_digit(v) as nat,
        hex_value(hex_digit(v) as u8) == Some(v),
        '\0' <= hex_digit(v) <= '\u{7f}',
{
}

/// Reading back the name of a packfile gives its ID.
pub proof fn lemma_packfile_name_roundtrip(id: Seq<u8>)
    requires
        id.len() == 12,
    ensures
        hex_decoded(encode_utf8(hex_lower(id))) == Some(id),
{
    let h = hex_lower(id);
    assert forall|i: int| 0 <= i < h.len() implies '\0' <= #[trigger] h[i] <= '\u{7f}' by {
        if i % 2 == 0 {
            lemma_hex_digit_bytes((id[i / 2] / 16) as nat);
        } else {
            lemma_hex_digit_bytes((id[i / 2] % 16) as nat);
        }
    }
    assert(is_ascii_chars(h));
    is_ascii_chars_encode_utf8(h);
    let b = encode_utf8(h);
    assert forall|i: int| 0 <= i < b.len() implies (#[trigger] hex_value(b[i])) is Some by {
        assert(h[i] as u8 == b[i]);
        if i % 2 == 0 {
            lemma_hex_digit_bytes((id[i / 2] / 16) as nat);
        } else {
            lemma_hex_digit_bytes((id[i / 2] % 16) as nat);
        }
    }
    assert forall|j: int| 0 <= j < 12 implies (hex_value(b[2 * j])->0 * 16 + hex_value(
        b[2 * j + 1],
    )->0) as u8 == #[trigger] id[j] by {
        assert(h[2 * j] as u8 == b[2 * j]);
        assert(h[2 * j + 1] as u8 == b[2 * j + 1]);
        assert((2 * j) / 2 == j);
        assert((2 * j + 1) / 2 == j);
        assert((2 * j) % 2 == 0);
        assert((2 * j + 1) % 2 == 1);
        lemma_hex_digit_bytes((id[j] / 16) as nat);
        lemma_hex_digit_bytes((id[j] % 16) as nat);
    }
    assert(hex_decoded(b).unwrap() =~= id);
}

/// What a peer keeps for us comes back unchanged on restore: a packfile `id` (or index file
/// `num`) with contents `d`, saved under its file name as `d` obfuscated with the peer's
/// key, is sent back as the stored bytes deobfuscated with the same key, which is `d`, under
/// the ID (or number) read back from the file name.
pub proof fn lemma_restore_payload(d: Seq<u8>, key: [u8; 4], id: PackfileId, num: u32)
    ensures
        obfuscated(obfuscated(d, key), key) == d,
        hex_decoded(encode_utf8(hex_lower(id@))) == Some(id@),
        parse_u32_spec(decimal_padded10(num)) == Some(num),
{
    lemma_obfuscation_involution(d, key);
    lemma_packfile_name_roundtrip(id@);
    crate::text::lemma_index_name_roundtrip(num);
}

} // verus!
