//! A list of possible errors.

use vstd::prelude::*;

verus! {

/// The ways in which a byte source or sink can fail.
#[derive(PartialEq, Eq, Structural, Clone, Copy, Debug)]
pub enum IoError {
    /// Fewer bytes were left in the source than a read asked for.
    EndOfFile,
    /// A position or a length that the source cannot represent.
    InvalidInput,
    /// Any other failure of the underlying resource.
    Other,
}

/// A list of possible errors. This is a superset of `IoError`.
#[derive(PartialEq, Eq, Structural, Clone, Copy, Debug)]
pub enum ZipError {
    IoError(IoError),
    NotAZipFile,
    CrcError,
    DecompressionFailure,
    FileNotFoundInArchive,
    InvalidSignature(u32),
    NonUTF8Field,
    TooLongField,
    /// The archive uses a feature that this reader rejects: encryption,
    /// patched data, a trailing data descriptor, strong encryption, masking,
    /// or a compression method other than Store and Deflate.
    UnsupportedFeature,
}

pub type ZipResult<T> = Result<T, ZipError>;

} // verus!
