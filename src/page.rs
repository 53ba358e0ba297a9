//! Decoding one page: its header, its compressed payload, and the
//! plain-encoded 8-byte integers at the end of the decompressed bytes.
use vstd::prelude::*;
use vstd::slice::slice_subrange;

use crate::bytes::{le_u64, le_value};
use crate::error::{FormatError, ReadError};
use crate::metadata::{decode_page_header, thrift_page_header, HeaderRead, PageHeaderMeta, PhysicalType};
use crate::source::ByteSource;

verus! {

/// The container-size allowance handed to the page-header decoder. Page
/// headers are small and of fixed structure.
pub const PAGE_HEADER_ALLOWANCE: usize = 4096;

/// The width in bytes of one plain-encoded value of the supported type.
pub const VALUE_WIDTH: usize = 8;

/// The zstd-compressed frames in `compressed`, decompressed and joined;
/// `None` where the codec rejects them.
pub uninterp spec fn zstd_decoded(compressed: Seq<u8>) -> Option<Seq<u8>>;

/// Relies on `zstd::stream::decode_all`: it decompresses every frame of its
/// input, and its result depends on those bytes alone.
#[verifier::external_body]
fn zstd_decode_all(compressed: &[u8]) -> (r: Option<Vec<u8>>)
    ensures
        r is Some <==> zstd_decoded(compressed@) is Some,
        r is Some ==> r->0@ == zstd_decoded(compressed@)->0,
{
    zstd::stream::decode_all(compressed).ok()
}

/// The outcome of decoding the page header at `offset` of `file`: the
/// header and the offset of the first byte after it.
pub open spec fn page_header_result(file: Seq<u8>, offset: nat) -> Result<
    (PageHeaderMeta, nat),
    ReadError,
> {
    if offset > file.len() {
        Err(ReadError::Io)
    } else {
        match thrift_page_header(file.subrange(offset as int, file.len() as int), PAGE_HEADER_ALLOWANCE as nat) {
            Some(h) => Ok((h.header, (file.len() - h.unread) as nat)),
            None => Err(ReadError::Format(FormatError::HeaderDecodeFailed)),
        }
    }
}

/// Decodes the page header at `offset`, leaving the cursor at the first
/// byte after it: the first byte of the page's compressed payload.
pub fn read_page_header(src: &mut ByteSource, offset: u64) -> (r: Result<PageHeaderMeta, ReadError>)
    requires
        old(src).wf(),
    ensures
        final(src).wf(),
        final(src).bytes() == old(src).bytes(),
        match page_header_result(old(src).bytes(), offset as nat) {
            Ok(p) => r == Ok::<PageHeaderMeta, ReadError>(p.0) && final(src).pos() == p.1,
            Err(e) => r == Err::<PageHeaderMeta, ReadError>(e),
        },
{
    if src.seek_start(offset).is_err() {
        return Err(ReadError::Io);
    }
    let rest = src.remaining();
    let n = rest.len();
    match decode_page_header(rest, PAGE_HEADER_ALLOWANCE) {
        Ok(h) => {
            src.advance(n - h.unread);
            Ok(h.header)
        },
        Err(_) => Err(ReadError::Format(FormatError::HeaderDecodeFailed)),
    }
}

/// The values of `b` read as consecutive 8-byte little-endian integers.
pub open spec fn plain_u64_values(b: Seq<u8>) -> Seq<u64> {
    Seq::new(
        b.len() / 8,
        |i: int| le_value(b.subrange(8 * i, 8 * i + 8)) as u64,
    )
}

/// Decodes `b` as consecutive plain-encoded 8-byte little-endian integers.
pub fn decode_plain_u64(b: &[u8]) -> (r: Vec<u64>)
    requires
        b@.len() % 8 == 0,
    ensures
        r@ == plain_u64_values(b@),
{
    let n = b.len();
    let count = n / 8;
    let mut out: Vec<u64> = Vec::new();
    let mut i: usize = 0;
    while i < count
        invariant
            n == b@.len(),
            n % 8 == 0,
            count == n / 8,
            i <= count,
            out@ =~= plain_u64_values(b@).subrange(0, i as int),
        decreases count - i,
    {
        proof {
            assert(8 * i + 8 <= n) by (nonlinear_arith)
                requires
                    i < count,
                    count == n / 8,
                    n % 8 == 0,
            ;
        }
        let v = le_u64(b, 8 * i);
        out.push(v);
        i = i + 1;
    }
    out
}

/// The values of a page whose payload decompressed to `decoded` (`None`
/// where the codec failed), whose header declares `uncompressed_size`
/// bytes and `num_values` values: the last `8 * num_values` bytes, read
/// as 8-byte integers. The bytes before them are never read as values.
pub open spec fn page_values(decoded: Option<Seq<u8>>, uncompressed_size: nat, num_values: nat) -> Result<
    Seq<u64>,
    ReadError,
> {
    match decoded {
        None => Err(ReadError::Decompression),
        Some(d) => if d.len() != uncompressed_size {
            Err(ReadError::Decompression)
        } else if 8 * num_values > d.len() {
            Err(ReadError::Format(FormatError::ValueCountMismatch))
        } else {
            Ok(plain_u64_values(d.subrange(d.len() - 8 * num_values, d.len() as int)))
        },
    }
}

/// The view of a result that holds values.
pub open spec fn values_view(r: Result<Vec<u64>, ReadError>) -> Result<Seq<u64>, ReadError> {
    match r {
        Ok(v) => Ok(v@),
        Err(e) => Err(e),
    }
}

/// Decodes the values of a page from what its payload decompressed to
/// (`None` where the codec failed). The decompressed size must be exactly
/// `uncompressed_size`; the values are the last `8 * num_values` bytes.
pub fn decode_page_payload(decoded: Option<Vec<u8>>, uncompressed_size: usize, num_values: usize) -> (r: Result<
    Vec<u64>,
    ReadError,
>)
    ensures
        values_view(r) == page_values(
            match decoded {
                Some(d) => Some(d@),
                None => None,
            },
            uncompressed_size as nat,
            num_values as nat,
        ),
{
    match decoded {
        None => Err(ReadError::Decompression),
        Some(d) => {
            let n = d.len();
            if n != uncompressed_size {
                Err(ReadError::Decompression)
            } else if num_values > n / 8 {
                Err(ReadError::Format(FormatError::ValueCountMismatch))
            } else {
                let values = slice_subrange(d.as_slice(), n - 8 * num_values, n);
                let r = decode_plain_u64(values);
                Ok(r)
            }
        },
    }
}

/// The outcome of decoding the values of the page at `offset` of `file`,
/// for a column of type `ty`.
pub open spec fn column_page_result(file: Seq<u8>, offset: nat, ty: PhysicalType) -> Result<
    Seq<u64>,
    ReadError,
> {
    if ty != PhysicalType::Int64 {
        Err(ReadError::Format(FormatError::UnsupportedEncoding))
    } else {
        match page_header_result(file, offset) {
            Err(e) => Err(e),
            Ok(p) => {
                let h = p.0;
                let start = p.1;
                match h.num_values {
                    None => Err(ReadError::Format(FormatError::NotADataPage)),
                    Some(v) => if v < 0 || h.compressed_page_size < 0 || h.uncompressed_page_size < 0 {
                        Err(ReadError::Format(FormatError::InvalidPageHeader))
                    } else if start + h.compressed_page_size > file.len() {
                        Err(ReadError::Format(FormatError::TruncatedPage))
                    } else {
                        page_values(
                            zstd_decoded(file.subrange(start as int, start + h.compressed_page_size)),
                            h.uncompressed_page_size as nat,
                            v as nat,
                        )
                    },
                }
            },
        }
    }
}

/// Decodes the values of the data page at `page_offset`, for a column of
/// type `value_type`: reads the page header, the compressed payload right
/// after it, decompresses it with zstd, and reads the trailing values.
/// Only 8-byte integer columns are supported; any other type is rejected
/// before the source is touched.
pub fn read_column_page(src: &mut ByteSource, page_offset: u64, value_type: PhysicalType) -> (r: Result<
    Vec<u64>,
    ReadError,
>)
    requires
        old(src).wf(),
    ensures
        final(src).wf(),
        final(src).bytes() == old(src).bytes(),
        values_view(r) == column_page_result(old(src).bytes(), page_offset as nat, value_type),
        value_type != PhysicalType::Int64 ==> final(src).pos() == old(src).pos(),
{
    if value_type != PhysicalType::Int64 {
        return Err(ReadError::Format(FormatError::UnsupportedEncoding));
    }
    let ghost file = src.bytes();
    let header = match read_page_header(src, page_offset) {
        Ok(h) => h,
        Err(e) => {
            return Err(e);
        },
    };
    let num_values = match header.num_values {
        Some(v) => v,
        None => {
            return Err(ReadError::Format(FormatError::NotADataPage));
        },
    };
    if num_values < 0 || header.compressed_page_size < 0 || header.uncompressed_page_size < 0 {
        return Err(ReadError::Format(FormatError::InvalidPageHeader));
    }
    let compressed_size = header.compressed_page_size as usize;
    let ghost start = src.pos();
    let compressed = src.read_up_to(compressed_size);
    if compressed.len() != compressed_size {
        return Err(ReadError::Format(FormatError::TruncatedPage));
    }
    proof {
        assert(compressed@ == file.subrange(start as int, start + compressed_size));
    }
    let decoded = zstd_decode_all(compressed.as_slice());
    decode_page_payload(decoded, header.uncompressed_page_size as usize, num_values as usize)
}

/// Decompressed bytes whose length is not the declared uncompressed size
/// are a decompression error: never truncated or padded.
pub proof fn lemma_size_mismatch_rejected(decoded: Seq<u8>, uncompressed_size: nat, num_values: nat)
    requires
        decoded.len() != uncompressed_size,
    ensures
        page_values(Some(decoded), uncompressed_size, num_values) == Err::<Seq<u64>, ReadError>(
            ReadError::Decompression,
        ),
{
}

/// A page of the declared size holding room for `num_values` values decodes
/// to exactly `num_values` values, the `i`-th read from the 8 bytes at
/// `uncompressed_size - 8 * num_values + 8 * i`; the bytes before the values
/// are never read, so pages that differ only there decode alike.
pub proof fn lemma_value_count(
    decoded: Seq<u8>,
    other: Seq<u8>,
    uncompressed_size: nat,
    num_values: nat,
)
    requires
        decoded.len() == uncompressed_size,
        other.len() == uncompressed_size,
        8 * num_values <= uncompressed_size,
        decoded.subrange(uncompressed_size - 8 * num_values, uncompressed_size as int)
            == other.subrange(uncompressed_size - 8 * num_values, uncompressed_size as int),
    ensures
        page_values(Some(decoded), uncompressed_size, num_values) is Ok,
        page_values(Some(decoded), uncompressed_size, num_values)->Ok_0.len() == num_values,
        forall|i: int|
            0 <= i < num_values ==> (#[trigger] page_values(
                Some(decoded),
                uncompressed_size,
                num_values,
            )->Ok_0[i]) as nat == le_value(
                decoded.subrange(
                    uncompressed_size - 8 * num_values + 8 * i,
                    uncompressed_size - 8 * num_values + 8 * i + 8,
                ),
            ),
        page_values(Some(decoded), uncompressed_size, num_values) == page_values(
            Some(other),
            uncompressed_size,
            num_values,
        ),
{
    let start = uncompressed_size - 8 * num_values;
    let vals = decoded.subrange(start, uncompressed_size as int);
    assert(vals.len() == 8 * num_values);
    assert(vals.len() / 8 == num_values) by (nonlinear_arith)
        requires
            vals.len() == 8 * num_values,
    ;
    assert forall|i: int| 0 <= i < num_values implies (#[trigger] plain_u64_values(vals)[i]) as nat
        == le_value(decoded.subrange(start + 8 * i, start + 8 * i + 8)) by {
        assert(8 * i + 8 <= 8 * num_values) by (nonlinear_arith)
            requires
                i < num_values,
        ;
        assert(vals.subrange(8 * i, 8 * i + 8) =~= decoded.subrange(start + 8 * i, start + 8 * i + 8));
        lemma_le_value_fits(vals.subrange(8 * i, 8 * i + 8));
    }
}

proof fn lemma_le_value_fits(b: Seq<u8>)
    requires
        b.len() == 8,
    ensures
        le_value(b) <= u64::MAX,
{
    crate::bytes::lemma_le_value_bound(b);
    crate::bytes::lemma_pow256_eight();
}

} // verus!
