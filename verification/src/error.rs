//! The failures of the library. Each one ends the operation that met it: nothing
//! is retried and no partial result is handed out.

use vstd::prelude::*;

verus! {

/// Why an operation failed.
#[derive(Debug, Clone, PartialEq, Eq)]
pub enum PakError {
    /// There is no key file.
    KeyFileMissing,
    /// A line of the key file is not a decimal number from 0 to 255.
    KeyFormatError,
    /// The key file does not hold exactly 32 numbers.
    KeyLengthError,
    /// The root to pack does not exist or is not a directory.
    RootNotFound,
    /// The walk below the root, whose path is given, met an entry that it could
    /// not examine.
    DirectoryAccessError(Vec<u8>),
    /// A path is longer than the 65535 bytes that its length field can state.
    PathTooLong,
    /// The file at the given path was listed but could not be read.
    FileReadError(Vec<u8>),
    /// The codec refused to build a frame, or to read one.
    CompressionError,
    /// The operating system's random source is unavailable.
    RandomSourceError,
    /// The sealed bytes are not what was sealed under this key.
    Unauthenticated,
    /// There are more files than the 32-bit count field can state.
    TooManyFiles,
    /// The bytes to seal are more than one nonce can protect.
    PayloadTooLarge,
    /// The bytes are not the encoding of any list of files.
    MalformedArchive,
}

} // verus!
