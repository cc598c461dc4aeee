use vstd::prelude::*;

verus! {

/// Everything that can go wrong while reading, checking or writing a package.
#[derive(Clone, Copy, Debug, PartialEq, Eq, Structural)]
pub enum Error {
    /// Fewer bytes remain than the value being decoded needs.
    Truncated,
    /// Stored text cannot be decoded under the selected text encoding.
    InvalidEncoding,
    /// Text holds a byte (ASCII) or a character (Latin-1) outside the range of
    /// the selected text encoding; the payload is the first offending code.
    IllegalEncoding(u32),
    /// A length or count does not fit the field that stores it, or an input is
    /// larger than this library can process.
    Oversize,
    /// The footer does not start with the package magic; the payload is what
    /// was found instead.
    BadMagic(u32),
    /// The format version is not one of 1, 2 and 3.
    UnsupportedVersion(u32),
    /// The index region is structurally broken.
    CorruptIndex,
    /// A payload is structurally broken or does not have the recorded size.
    CorruptData,
    /// A check found this many digests that do not agree with the bytes. The
    /// check itself reports them one by one; this is its verdict for a caller
    /// that must not go on with a damaged package.
    ChecksumMismatch(usize),
    /// The compression method is legal in the format but not handled here.
    UnsupportedCompressionMethod(u32),
    /// An archive path would leave the destination root.
    PathTraversal,
    /// Bytes that had to be read or produced could not be: a payload range
    /// that lies outside the data, a missing creation time, a failed compressor.
    Io,
    /// A textual option value is not one of the accepted spellings.
    IllegalArgument,
}

} // verus!
