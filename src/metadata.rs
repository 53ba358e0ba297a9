//! The footer metadata and page headers, as plain values, and the
//! compact-protocol decoder that produces them.
use vstd::prelude::*;

use parquet_format_safe::thrift::protocol::TCompactInputProtocol;
use parquet_format_safe::{FileMetaData, PageHeader};

verus! {

/// The physical type of a column's values.
#[derive(Clone, Copy, Debug, PartialEq, Eq, Structural)]
pub enum PhysicalType {
    Boolean,
    Int32,
    Int64,
    Int96,
    Float,
    Double,
    ByteArray,
    FixedLenByteArray,
    /// A type code that the format does not define.
    Unknown(i32),
}

/// The physical type that the format's type code `code` stands for.
pub open spec fn type_of_code(code: i32) -> PhysicalType {
    if code == 0 {
        PhysicalType::Boolean
    } else if code == 1 {
        PhysicalType::Int32
    } else if code == 2 {
        PhysicalType::Int64
    } else if code == 3 {
        PhysicalType::Int96
    } else if code == 4 {
        PhysicalType::Float
    } else if code == 5 {
        PhysicalType::Double
    } else if code == 6 {
        PhysicalType::ByteArray
    } else if code == 7 {
        PhysicalType::FixedLenByteArray
    } else {
        PhysicalType::Unknown(code)
    }
}

impl PhysicalType {
    /// The physical type of the format's type code `code`.
    pub fn from_code(code: i32) -> (r: PhysicalType)
        ensures
            r == type_of_code(code),
    {
        match code {
            0 => PhysicalType::Boolean,
            1 => PhysicalType::Int32,
            2 => PhysicalType::Int64,
            3 => PhysicalType::Int96,
            4 => PhysicalType::Float,
            5 => PhysicalType::Double,
            6 => PhysicalType::ByteArray,
            7 => PhysicalType::FixedLenByteArray,
            _ => PhysicalType::Unknown(code),
        }
    }
}

/// What the footer records of one column chunk.
#[derive(Clone, Debug)]
pub struct ColumnMeta {
    /// The format's code of the values' physical type.
    pub type_code: i32,
    /// The format's code of the compression codec.
    pub codec: i32,
    /// The file offset of the column's first data page.
    pub data_page_offset: i64,
}

/// What the footer records of one row group.
#[derive(Clone, Debug)]
pub struct RowGroupMeta {
    pub num_rows: i64,
    /// One entry per column chunk; `None` where the chunk carries no
    /// column metadata.
    pub columns: Vec<Option<ColumnMeta>>,
}

/// The decoded footer metadata of a file.
#[derive(Clone, Debug)]
pub struct FileMeta {
    /// The number of rows in the file.
    pub num_rows: i64,
    pub row_groups: Vec<RowGroupMeta>,
}

/// The decoded header of one page.
#[derive(Clone, Copy, Debug, PartialEq, Eq, Structural)]
pub struct PageHeaderMeta {
    pub uncompressed_page_size: i32,
    pub compressed_page_size: i32,
    /// The number of values, where the page is a data page.
    pub num_values: Option<i32>,
}

/// A page header decoded from the front of a byte sequence, and how many
/// of those bytes it left unread.
#[derive(Clone, Copy, Debug, PartialEq, Eq, Structural)]
pub struct HeaderRead {
    pub header: PageHeaderMeta,
    pub unread: usize,
}

/// The first data page of the first column of the first row group of `m`,
/// with the column's type, where the footer records one at a non-negative
/// offset.
pub open spec fn first_page_of(m: FileMeta) -> Option<(u64, PhysicalType)> {
    if m.row_groups@.len() == 0 || m.row_groups@[0].columns@.len() == 0 {
        None
    } else {
        match m.row_groups@[0].columns@[0] {
            Some(c) => if c.data_page_offset >= 0 {
                Some((c.data_page_offset as u64, type_of_code(c.type_code)))
            } else {
                None
            },
            None => None,
        }
    }
}

/// The offset of the first data page of the first column of the first row
/// group, with the column's type; `None` where the footer records none.
pub fn first_data_page(m: &FileMeta) -> (r: Option<(u64, PhysicalType)>)
    ensures
        r == first_page_of(*m),
{
    if m.row_groups.len() == 0 || m.row_groups[0].columns.len() == 0 {
        return None;
    }
    match &m.row_groups[0].columns[0] {
        Some(c) => if c.data_page_offset >= 0 {
            Some((c.data_page_offset as u64, PhysicalType::from_code(c.type_code)))
        } else {
            None
        },
        None => None,
    }
}

#[verifier::external_type_specification]
#[verifier::external_body]
pub struct ExThriftError(parquet_format_safe::thrift::Error);

/// The footer metadata that the compact protocol decodes from `bytes`,
/// allowing containers of `max_bytes` bytes in all; `None` where it
/// rejects them.
pub uninterp spec fn thrift_file_metadata(bytes: Seq<u8>, max_bytes: nat) -> Option<FileMeta>;

/// The page header that the compact protocol decodes from the start of
/// `bytes`, allowing containers of `max_bytes` bytes in all, with the number
/// of bytes that it leaves unread; `None` where it rejects them.
pub uninterp spec fn thrift_page_header(bytes: Seq<u8>, max_bytes: nat) -> Option<HeaderRead>;

/// Relies on `FileMetaData::read_from_in_protocol` over a
/// `TCompactInputProtocol` on `bytes`: its result depends on the bytes and
/// the size allowance alone.
#[verifier::external_body]
pub(crate) fn decode_file_metadata(bytes: &[u8], max_bytes: usize) -> (r: Result<
    FileMeta,
    parquet_format_safe::thrift::Error,
>)
    ensures
        r is Ok <==> thrift_file_metadata(bytes@, max_bytes as nat) is Some,
        r is Ok ==> r->Ok_0 == thrift_file_metadata(bytes@, max_bytes as nat)->0,
{
    let m = FileMetaData::read_from_in_protocol(&mut TCompactInputProtocol::new(bytes, max_bytes))?;
    let row_groups = m.row_groups.iter().map(|g| RowGroupMeta {
        num_rows: g.num_rows,
        columns: g.columns.iter().map(|c| c.meta_data.as_ref().map(|d| ColumnMeta {
            type_code: d.type_.0,
            codec: d.codec.0,
            data_page_offset: d.data_page_offset,
        })).collect(),
    }).collect();
    Ok(FileMeta { num_rows: m.num_rows, row_groups })
}

/// Relies on `PageHeader::read_from_in_protocol` over a
/// `TCompactInputProtocol` that reads `bytes` from their start: its result
/// depends on the bytes and the size allowance alone, and reading a slice
/// only ever shortens what is left of it.
#[verifier::external_body]
pub(crate) fn decode_page_header(bytes: &[u8], max_bytes: usize) -> (r: Result<
    HeaderRead,
    parquet_format_safe::thrift::Error,
>)
    ensures
        r is Ok <==> thrift_page_header(bytes@, max_bytes as nat) is Some,
        r is Ok ==> r->Ok_0 == thrift_page_header(bytes@, max_bytes as nat)->0,
        r is Ok ==> r->Ok_0.unread <= bytes@.len(),
{
    let mut rest = bytes;
    let h = PageHeader::read_from_in_protocol(&mut TCompactInputProtocol::new(&mut rest, max_bytes))?;
    let header = PageHeaderMeta {
        uncompressed_page_size: h.uncompressed_page_size,
        compressed_page_size: h.compressed_page_size,
        num_values: h.data_page_header.map(|d| d.num_values),
    };
    Ok(HeaderRead { header, unread: rest.len() })
}

} // verus!
