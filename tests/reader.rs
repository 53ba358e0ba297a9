use parquet_format_safe::thrift::protocol::TCompactOutputProtocol;
use parquet_format_safe::{
    ColumnChunk, ColumnMetaData, CompressionCodec, DataPageHeader, Encoding, FileMetaData,
    PageHeader, PageType, RowGroup, Type,
};
use parquet_page_reader::{
    decode_page_payload, decode_plain_u64, first_data_page, le_u32, le_u64, read_column_page,
    read_footer, read_footer_with, read_page_header, ByteSource, FormatError, PhysicalType,
    ReadError, INITIAL_READ_SIZE,
};

const ROWS: i64 = 100;

fn known_values() -> Vec<u64> {
    (0..ROWS as u64).map(|i| i * 7 + 1_000_000_007).collect()
}

fn plain_bytes(lead: &[u8], values: &[u64]) -> Vec<u8> {
    let mut out = lead.to_vec();
    for v in values {
        out.extend_from_slice(&v.to_le_bytes());
    }
    out
}

fn page_header_bytes(h: &PageHeader) -> Vec<u8> {
    let mut out = Vec::new();
    {
        let mut protocol = TCompactOutputProtocol::new(&mut out);
        h.write_to_out_protocol(&mut protocol).unwrap();
    }
    out
}

fn metadata_bytes(m: &FileMetaData) -> Vec<u8> {
    let mut out = Vec::new();
    {
        let mut protocol = TCompactOutputProtocol::new(&mut out);
        m.write_to_out_protocol(&mut protocol).unwrap();
    }
    out
}

fn data_page_header(uncompressed: i32, compressed: i32, num_values: i32) -> PageHeader {
    let data = DataPageHeader::new(num_values, Encoding::PLAIN, Encoding::RLE, Encoding::RLE, None);
    PageHeader::new(PageType::DATA_PAGE, uncompressed, compressed, None, data, None, None, None)
}

fn file_metadata(page_offset: i64, type_: Type, sizes: i64) -> FileMetaData {
    let column = ColumnMetaData::new(
        type_,
        vec![Encoding::PLAIN],
        vec!["id".to_string()],
        CompressionCodec::ZSTD,
        ROWS,
        sizes,
        sizes,
        None,
        page_offset,
        None,
        None,
        None,
        None,
        None,
    );
    let chunk = ColumnChunk::new(None, page_offset, column, None, None, None, None, None, None);
    let group = RowGroup::new(vec![chunk], sizes, ROWS, None, None, None, None);
    FileMetaData::new(1, Vec::new(), ROWS, vec![group], None, None, None, None, None)
}

struct Fixture {
    file: Vec<u8>,
    page_offset: u64,
    header_len: usize,
    compressed_len: usize,
    uncompressed_len: usize,
    metadata_len: usize,
}

/// `PAR1`, one zstd data page of the known values behind four leading
/// level bytes, `padding` zero bytes, the metadata, its length and `PAR1`.
fn build_file(padding: usize) -> Fixture {
    let payload = plain_bytes(&[2, 0, 0, 0], &known_values());
    let compressed = zstd::stream::encode_all(&payload[..], 3).unwrap();
    let header = page_header_bytes(&data_page_header(
        payload.len() as i32,
        compressed.len() as i32,
        ROWS as i32,
    ));
    let mut file = b"PAR1".to_vec();
    let page_offset = file.len();
    file.extend_from_slice(&header);
    file.extend_from_slice(&compressed);
    file.extend(std::iter::repeat(0u8).take(padding));
    let meta = metadata_bytes(&file_metadata(page_offset as i64, Type::INT64, compressed.len() as i64));
    file.extend_from_slice(&meta);
    file.extend_from_slice(&(meta.len() as u32).to_le_bytes());
    file.extend_from_slice(b"PAR1");
    Fixture {
        file,
        page_offset: page_offset as u64,
        header_len: header.len(),
        compressed_len: compressed.len(),
        uncompressed_len: payload.len(),
        metadata_len: meta.len(),
    }
}

#[test]
fn footer_with_small_window_reads_row_count() {
    let fx = build_file(0);
    let mut src = ByteSource::new(fx.file.clone());
    let meta = read_footer_with(&mut src, 64).unwrap();
    assert_eq!(meta.num_rows, ROWS);
    assert_eq!(meta.row_groups.len(), 1);
    assert_eq!(meta.row_groups[0].num_rows, ROWS);
    assert_eq!(meta.row_groups[0].columns.len(), 1);
    let column = meta.row_groups[0].columns[0].clone().unwrap();
    assert_eq!(column.data_page_offset, fx.page_offset as i64);
    assert_eq!(column.type_code, 2);
    assert_eq!(column.codec, 6);
}

#[test]
fn footer_reuse_and_reread_paths_agree() {
    let fx = build_file(0);
    // A window that holds the whole metadata: no second read.
    let mut reuse = ByteSource::new(fx.file.clone());
    let a = read_footer_with(&mut reuse, fx.metadata_len + 8).unwrap();
    // A window that holds only the length and the marker: a second read.
    let mut reread = ByteSource::new(fx.file.clone());
    let b = read_footer_with(&mut reread, 8).unwrap();
    // The second read leaves the cursor at the end of the metadata.
    assert_eq!(reread.position(), fx.file.len() - 8);
    assert_eq!(a.num_rows, b.num_rows);
    assert_eq!(a.row_groups[0].columns[0].clone().unwrap().data_page_offset,
               b.row_groups[0].columns[0].clone().unwrap().data_page_offset);
    let mut wide = ByteSource::new(fx.file.clone());
    let c = read_footer_with(&mut wide, fx.file.len()).unwrap();
    assert_eq!(c.num_rows, ROWS);
}

#[test]
fn footer_default_window_needs_that_many_bytes() {
    let small = build_file(0);
    assert!(small.file.len() < INITIAL_READ_SIZE);
    let mut src = ByteSource::new(small.file.clone());
    assert_eq!(read_footer(&mut src).unwrap_err(), ReadError::Io);

    let large = build_file(2000);
    let mut src = ByteSource::new(large.file.clone());
    let meta = read_footer(&mut src).unwrap();
    assert_eq!(meta.num_rows, ROWS);
    let (offset, ty) = first_data_page(&meta).unwrap();
    assert_eq!(offset, large.page_offset);
    assert_eq!(ty, PhysicalType::Int64);
    assert!((offset as usize) < large.file.len());
}

#[test]
fn footer_rejects_mutated_marker() {
    let fx = build_file(0);
    let n = fx.file.len();
    for k in 1..=4 {
        let mut file = fx.file.clone();
        file[n - k] ^= 0x20;
        let mut src = ByteSource::new(file);
        assert_eq!(
            read_footer_with(&mut src, 64).unwrap_err(),
            ReadError::Format(FormatError::MissingMagicMarker)
        );
    }
}

#[test]
fn footer_metadata_size_beyond_file_is_io_error() {
    let fx = build_file(0);
    let n = fx.file.len();
    let mut file = fx.file.clone();
    file[n - 8..n - 4].copy_from_slice(&(n as u32).to_le_bytes());
    let mut src = ByteSource::new(file);
    assert_eq!(read_footer_with(&mut src, 64).unwrap_err(), ReadError::Io);
}

#[test]
fn footer_window_larger_than_file_is_io_error() {
    let fx = build_file(0);
    let mut src = ByteSource::new(fx.file.clone());
    assert_eq!(read_footer_with(&mut src, fx.file.len() + 1).unwrap_err(), ReadError::Io);
}

#[test]
fn footer_corrupt_metadata_fails_to_decode() {
    let mut file = b"PAR1".to_vec();
    file.extend_from_slice(&[0xff; 12]);
    file.extend_from_slice(&12u32.to_le_bytes());
    file.extend_from_slice(b"PAR1");
    let mut src = ByteSource::new(file);
    assert_eq!(
        read_footer_with(&mut src, 24).unwrap_err(),
        ReadError::Format(FormatError::MetadataDecodeFailed)
    );
}

#[test]
fn footer_empty_metadata_goes_to_decoder() {
    let mut file = b"PAR1".to_vec();
    file.extend_from_slice(&0u32.to_le_bytes());
    file.extend_from_slice(b"PAR1");
    let mut src = ByteSource::new(file);
    assert_eq!(
        read_footer_with(&mut src, 8).unwrap_err(),
        ReadError::Format(FormatError::MetadataDecodeFailed)
    );
}

#[test]
fn page_header_matches_layout() {
    let fx = build_file(0);
    let mut src = ByteSource::new(fx.file.clone());
    let h = read_page_header(&mut src, fx.page_offset).unwrap();
    assert_eq!(h.compressed_page_size as usize, fx.compressed_len);
    assert_eq!(h.uncompressed_page_size as usize, fx.uncompressed_len);
    assert_eq!(h.num_values, Some(ROWS as i32));
    assert_eq!(src.position(), fx.page_offset as usize + fx.header_len);
}

#[test]
fn page_header_errors() {
    let fx = build_file(0);
    let mut src = ByteSource::new(fx.file.clone());
    assert_eq!(read_page_header(&mut src, fx.file.len() as u64 + 1).unwrap_err(), ReadError::Io);
    let mut src = ByteSource::new(vec![0xff, 0xff, 0xff]);
    assert_eq!(
        read_page_header(&mut src, 0).unwrap_err(),
        ReadError::Format(FormatError::HeaderDecodeFailed)
    );
}

#[test]
fn column_page_decodes_known_values() {
    let fx = build_file(0);
    let mut src = ByteSource::new(fx.file.clone());
    let meta = read_footer_with(&mut src, 64).unwrap();
    let (offset, ty) = first_data_page(&meta).unwrap();
    let values = read_column_page(&mut src, offset, ty).unwrap();
    assert_eq!(values.len(), 100);
    assert_eq!(values, known_values());
    assert_eq!(
        src.position(),
        fx.page_offset as usize + fx.header_len + fx.compressed_len
    );
}

#[test]
fn column_page_truncated_payload() {
    let fx = build_file(0);
    let end = fx.page_offset as usize + fx.header_len + fx.compressed_len - 1;
    let mut src = ByteSource::new(fx.file[..end].to_vec());
    assert_eq!(
        read_column_page(&mut src, fx.page_offset, PhysicalType::Int64).unwrap_err(),
        ReadError::Format(FormatError::TruncatedPage)
    );
}

#[test]
fn column_page_unsupported_type() {
    let fx = build_file(0);
    for ty in [PhysicalType::Int32, PhysicalType::Double, PhysicalType::ByteArray, PhysicalType::Unknown(42)] {
        let mut src = ByteSource::new(fx.file.clone());
        assert_eq!(
            read_column_page(&mut src, fx.page_offset, ty).unwrap_err(),
            ReadError::Format(FormatError::UnsupportedEncoding)
        );
        assert_eq!(src.position(), 0);
    }
}

fn single_page_file(header: &PageHeader, payload: &[u8]) -> Vec<u8> {
    let mut file = b"PAR1".to_vec();
    file.extend_from_slice(&page_header_bytes(header));
    file.extend_from_slice(payload);
    file
}

#[test]
fn column_page_declared_size_mismatch_is_decompression_error() {
    let payload = plain_bytes(&[], &[1, 2, 3]);
    let compressed = zstd::stream::encode_all(&payload[..], 3).unwrap();
    for declared in [payload.len() - 1, payload.len() + 1] {
        let header = data_page_header(declared as i32, compressed.len() as i32, 2);
        let mut src = ByteSource::new(single_page_file(&header, &compressed));
        assert_eq!(
            read_column_page(&mut src, 4, PhysicalType::Int64).unwrap_err(),
            ReadError::Decompression
        );
    }
}

#[test]
fn column_page_corrupt_payload_is_decompression_error() {
    let garbage = vec![0x13u8; 40];
    let header = data_page_header(24, garbage.len() as i32, 3);
    let mut src = ByteSource::new(single_page_file(&header, &garbage));
    assert_eq!(
        read_column_page(&mut src, 4, PhysicalType::Int64).unwrap_err(),
        ReadError::Decompression
    );
}

#[test]
fn column_page_too_many_values() {
    let payload = plain_bytes(&[], &[5, 6]);
    let compressed = zstd::stream::encode_all(&payload[..], 3).unwrap();
    let header = data_page_header(payload.len() as i32, compressed.len() as i32, 3);
    let mut src = ByteSource::new(single_page_file(&header, &compressed));
    assert_eq!(
        read_column_page(&mut src, 4, PhysicalType::Int64).unwrap_err(),
        ReadError::Format(FormatError::ValueCountMismatch)
    );
}

#[test]
fn column_page_header_checks() {
    let no_data = PageHeader::new(PageType::DATA_PAGE, 8, 8, None, None, None, None, None);
    let mut src = ByteSource::new(single_page_file(&no_data, &[0; 8]));
    assert_eq!(
        read_column_page(&mut src, 4, PhysicalType::Int64).unwrap_err(),
        ReadError::Format(FormatError::NotADataPage)
    );
    let negative = data_page_header(8, -1, 1);
    let mut src = ByteSource::new(single_page_file(&negative, &[0; 8]));
    assert_eq!(
        read_column_page(&mut src, 4, PhysicalType::Int64).unwrap_err(),
        ReadError::Format(FormatError::InvalidPageHeader)
    );
}

#[test]
fn payload_skips_leading_bytes() {
    let a = plain_bytes(&[9, 9, 9], &[10, 20]);
    let b = plain_bytes(&[1, 2, 3], &[10, 20]);
    assert_eq!(decode_page_payload(Some(a), 19, 2).unwrap(), vec![10, 20]);
    assert_eq!(decode_page_payload(Some(b), 19, 2).unwrap(), vec![10, 20]);
    assert_eq!(decode_page_payload(Some(vec![7; 16]), 16, 0).unwrap(), Vec::<u64>::new());
}

#[test]
fn payload_length_mismatch() {
    let d = plain_bytes(&[], &[1, 2]);
    assert_eq!(decode_page_payload(Some(d.clone()), 15, 1).unwrap_err(), ReadError::Decompression);
    assert_eq!(decode_page_payload(Some(d.clone()), 17, 1).unwrap_err(), ReadError::Decompression);
    assert_eq!(decode_page_payload(None, 16, 2).unwrap_err(), ReadError::Decompression);
    assert_eq!(
        decode_page_payload(Some(d), 16, 3).unwrap_err(),
        ReadError::Format(FormatError::ValueCountMismatch)
    );
}

#[test]
fn plain_values_little_endian() {
    let bytes = vec![1, 0, 0, 0, 0, 0, 0, 0, 0xff, 0xff, 0xff, 0xff, 0xff, 0xff, 0xff, 0xff, 0, 1, 0, 0, 0, 0, 0, 0x80];
    assert_eq!(decode_plain_u64(&bytes), vec![1, u64::MAX, 0x8000_0000_0000_0100]);
    assert_eq!(decode_plain_u64(&[]), Vec::<u64>::new());
    assert_eq!(le_u64(&bytes, 16), 0x8000_0000_0000_0100);
    assert_eq!(le_u32(&[0x78, 0x56, 0x34, 0x12, 0xff], 0), 0x1234_5678);
    assert_eq!(le_u32(&[0x78, 0x56, 0x34, 0x12, 0xff], 1), 0xff12_3456);
}

#[test]
fn physical_type_codes() {
    assert_eq!(PhysicalType::from_code(2), PhysicalType::Int64);
    assert_eq!(PhysicalType::from_code(0), PhysicalType::Boolean);
    assert_eq!(PhysicalType::from_code(7), PhysicalType::FixedLenByteArray);
    assert_eq!(PhysicalType::from_code(-3), PhysicalType::Unknown(-3));
}

#[test]
fn byte_source_bounds() {
    let mut src = ByteSource::new(vec![1, 2, 3, 4]);
    assert_eq!(src.len(), 4);
    assert_eq!(src.seek_from_end(5), Err(ReadError::Io));
    assert_eq!(src.seek_start(5), Err(ReadError::Io));
    assert_eq!(src.seek_start(1), Ok(()));
    assert_eq!(src.read_exact(4), Err(ReadError::Io));
    assert_eq!(src.position(), 1);
    assert_eq!(src.read_up_to(10), vec![2, 3, 4]);
    assert_eq!(src.position(), 4);
    assert_eq!(src.seek_from_end(2), Ok(()));
    assert_eq!(src.read_exact(2), Ok(vec![3, 4]));
}
