//! The errors that reading a file can end in.
use vstd::prelude::*;

verus! {

/// A violation of the file format's framing or layout.
#[derive(Clone, Copy, Debug, PartialEq, Eq, Structural)]
pub enum FormatError {
    /// The last four bytes of the file are not the magic marker.
    MissingMagicMarker,
    /// The compact-protocol decoder rejected the footer metadata.
    MetadataDecodeFailed,
    /// The compact-protocol decoder rejected a page header.
    HeaderDecodeFailed,
    /// A page header declares a negative size or value count.
    InvalidPageHeader,
    /// A page header carries no data-page section.
    NotADataPage,
    /// Fewer compressed bytes follow a page header than it declares.
    TruncatedPage,
    /// The declared values do not fit in the decompressed page.
    ValueCountMismatch,
    /// The column's value type has no decoder here.
    UnsupportedEncoding,
}

/// Any failure of a read.
#[derive(Clone, Copy, Debug, PartialEq, Eq, Structural)]
pub enum ReadError {
    /// A seek or a read went past the bounds of the byte source.
    Io,
    /// The bytes break the file format.
    Format(FormatError),
    /// The codec failed, or its output does not have the declared size.
    Decompression,
}

} // verus!
