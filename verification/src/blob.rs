//! Blobs, packfile header entries and the errors of the packfile layer.
use vstd::prelude::*;

use crate::types::{BlobHash, BlobNonce};

verus! {

/// Represents the type of the blob, either a file chunk or a tree.
#[derive(Clone, Copy, PartialEq, Eq, Structural, Debug)]
pub enum BlobKind {
    FileChunk,
    Tree,
}

/// Specifies the compression algorithm used for the blob.
#[derive(Clone, Copy, PartialEq, Eq, Structural, Debug)]
pub enum CompressionKind {
    NoCompression,
    Zstd,
}

/// Specifies the type of the tree, either a file or a directory.
#[derive(Clone, Copy, PartialEq, Eq, Structural, Debug)]
pub enum TreeKind {
    File,
    Dir,
}

/// Represents an item in the header of a packfile (a single blob).
#[derive(Clone, Copy, Debug)]
pub struct PackfileHeaderBlob {
    pub hash: BlobHash,
    pub kind: BlobKind,
    pub compression: CompressionKind,
    /// Length of the encrypted blob data (without its nonce).
    pub length: u64,
    /// Offset of the blob's nonce, counted from the start of the blob section.
    pub offset: u64,
}

/// The mathematical content of a header entry.
pub struct HeaderEntryModel {
    pub hash: Seq<u8>,
    pub kind: BlobKind,
    pub compression: CompressionKind,
    pub length: u64,
    pub offset: u64,
}

impl View for PackfileHeaderBlob {
    type V = HeaderEntryModel;

    open spec fn view(&self) -> HeaderEntryModel {
        HeaderEntryModel {
            hash: self.hash@,
            kind: self.kind,
            compression: self.compression,
            length: self.length,
            offset: self.offset,
        }
    }
}

/// Represents an in-memory blob.
#[derive(Clone, Debug)]
pub struct Blob {
    pub hash: BlobHash,
    pub kind: BlobKind,
    pub data: Vec<u8>,
}

/// Represents an in-memory encrypted blob.
#[derive(Clone, Debug)]
pub struct BlobEncrypted {
    pub hash: BlobHash,
    pub kind: BlobKind,
    pub data: Vec<u8>,
    pub nonce: BlobNonce,
}

/// Errors of the packfile layer.
#[derive(Clone, Copy, PartialEq, Eq, Structural, Debug)]
pub enum PackfileError {
    /// Packfile local buffer over limit.
    ExceededBufferLimit,
    /// Invalid packfile header size.
    InvalidHeaderSize,
    /// Packfile too large.
    PackfileTooLarge,
    /// Blob found in index, but not in packfile. Index might be out of date.
    IndexHeaderMismatch,
    /// Blob too large.
    BlobTooLarge,
    /// Duplicate blob in packfile index.
    DuplicateBlob,
    /// Reading or writing data failed.
    IoError,
    /// A file system operation failed.
    FsError,
    /// Data decryption/encryption error.
    CryptoError,
    /// Encoded data could not be decoded.
    SerializationError,
    /// The system random number generator failed.
    GetrandomError,
    /// A file name is not a valid Unicode string.
    InvalidString,
}

/// Sequence of the views of a vector of header entries.
pub open spec fn header_view(v: Seq<PackfileHeaderBlob>) -> Seq<HeaderEntryModel> {
    v.map_values(|e: PackfileHeaderBlob| e@)
}

} // verus!
