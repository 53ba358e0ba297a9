//! A minimal reader for the Parquet columnar file format: it locates and
//! decodes the footer metadata, decodes page headers at given offsets, and
//! decodes the plain-encoded 8-byte integers of one compressed data page.
//!
//! The file is read through a [`ByteSource`], a seekable in-memory view of
//! its bytes, so that every framing rule is checked against the same model
//! that the contracts speak of.
pub mod bytes;
pub mod error;
pub mod footer;
pub mod metadata;
pub mod page;
pub mod source;

pub use bytes::{le_u32, le_u64};
pub use error::{FormatError, ReadError};
pub use footer::{read_footer, read_footer_with, INITIAL_READ_SIZE};
pub use metadata::{
    first_data_page, ColumnMeta, FileMeta, HeaderRead, PageHeaderMeta, PhysicalType, RowGroupMeta,
};
pub use page::{decode_page_payload, decode_plain_u64, read_column_page, read_page_header};
pub use source::ByteSource;
