use vstd::prelude::*;

verus! {

/// Everything that can go wrong while reading or unpacking an archive.
#[derive(Debug, PartialEq, Eq)]
pub enum AsarError {
    /// An open, seek, read or write failed, or the archive ended before the
    /// bytes that were asked of it; the text describes the failure.
    IO(String),
    /// The fixed binary prefix is shorter than sixteen bytes.
    FormatError,
    /// Copying a file's bytes into the destination failed for a reason that
    /// the system did not classify.
    Unknown,
    /// The destination exists and is not a directory.
    InvalidDirectory,
    /// The JSON index is malformed, or a field of the tree is missing or has
    /// the wrong type.
    JsonHeaderError,
}

} // verus!
