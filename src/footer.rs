//! Locating and decoding the footer: `[metadata][u32 length LE]["PAR1"]`
//! at the end of the file.
use vstd::prelude::*;
use vstd::slice::slice_subrange;

use crate::bytes::{le_u32, le_value};
use crate::error::{FormatError, ReadError};
use crate::metadata::{decode_file_metadata, thrift_file_metadata, FileMeta};
use crate::source::ByteSource;

verus! {

/// How many bytes the first read takes from the end of the file. Where the
/// metadata fits in them, no second read is made.
pub const INITIAL_READ_SIZE: usize = 1024;

/// The magic marker `"PAR1"` ends `b`.
pub open spec fn ends_with_magic(b: Seq<u8>) -> bool {
    &&& b.len() >= 4
    &&& b[b.len() - 4] == 0x50u8
    &&& b[b.len() - 3] == 0x41u8
    &&& b[b.len() - 2] == 0x52u8
    &&& b[b.len() - 1] == 0x31u8
}

/// The metadata length recorded in the four bytes before the marker that
/// ends `b`.
pub open spec fn declared_metadata_size(b: Seq<u8>) -> nat
    recommends
        b.len() >= 8,
{
    le_value(b.subrange(b.len() - 8, b.len() - 4))
}

/// The `size` metadata bytes that precede the length and the marker at the
/// end of `b`.
pub open spec fn metadata_window(b: Seq<u8>, size: nat) -> Seq<u8>
    recommends
        size + 8 <= b.len(),
{
    b.subrange(b.len() - 8 - size, b.len() - 8)
}

/// The container-size allowance handed to the metadata decoder: twice the
/// metadata's size, capped at the largest `usize`.
pub open spec fn metadata_allowance(size: nat) -> nat {
    if 2 * size <= usize::MAX {
        2 * size
    } else {
        usize::MAX as nat
    }
}

/// The outcome of reading the footer of `file`, with a first read of
/// `initial` bytes from its end.
pub open spec fn footer_result(file: Seq<u8>, initial: nat) -> Result<FileMeta, ReadError> {
    if initial > file.len() {
        Err(ReadError::Io)
    } else if !ends_with_magic(file) {
        Err(ReadError::Format(FormatError::MissingMagicMarker))
    } else if declared_metadata_size(file) + 8 > file.len() {
        Err(ReadError::Io)
    } else {
        let size = declared_metadata_size(file);
        match thrift_file_metadata(
            metadata_window(file, size),
            metadata_allowance(size),
        ) {
            Some(m) => Ok(m),
            None => Err(ReadError::Format(FormatError::MetadataDecodeFailed)),
        }
    }
}

/// Tests for the magic marker at the end of `b`.
fn has_magic_marker(b: &[u8]) -> (r: bool)
    ensures
        r == ends_with_magic(b@),
{
    let n = b.len();
    n >= 4 && b[n - 4] == 0x50u8 && b[n - 3] == 0x41u8 && b[n - 2] == 0x52u8 && b[n - 1] == 0x31u8
}

/// The metadata bytes taken from the buffered tail of the file, where they
/// lie wholly inside it.
pub fn metadata_from_tail(tail: &[u8], size: usize) -> (r: &[u8])
    requires
        size + 8 <= tail@.len(),
    ensures
        r@ == metadata_window(tail@, size as nat),
{
    let n = tail.len();
    slice_subrange(tail, n - 8 - size, n - 8)
}

/// Reads and decodes the footer metadata of `src`, taking
/// [`INITIAL_READ_SIZE`] bytes from its end in the first read.
pub fn read_footer(src: &mut ByteSource) -> (r: Result<FileMeta, ReadError>)
    requires
        old(src).wf(),
    ensures
        final(src).wf(),
        final(src).bytes() == old(src).bytes(),
        r == footer_result(old(src).bytes(), INITIAL_READ_SIZE as nat),
{
    read_footer_with(src, INITIAL_READ_SIZE)
}

/// Reads and decodes the footer metadata of `src`, taking `initial` bytes
/// from its end in the first read, and reading again only where the
/// metadata does not fit in them. The cursor is left where the last read
/// left it.
pub fn read_footer_with(src: &mut ByteSource, initial: usize) -> (r: Result<FileMeta, ReadError>)
    requires
        old(src).wf(),
        initial >= 8,
    ensures
        final(src).wf(),
        final(src).bytes() == old(src).bytes(),
        r == footer_result(old(src).bytes(), initial as nat),
{
    let ghost file = src.bytes();
    let len = src.len();
    if src.seek_from_end(initial as u64).is_err() {
        return Err(ReadError::Io);
    }
    let tail = src.read_up_to(initial);
    let n = tail.len();
    proof {
        assert(tail@ =~= file.subrange(len - initial, len as int));
        assert(tail@.subrange(n - 4, n as int) =~= file.subrange(len - 4, len as int));
    }
    if !has_magic_marker(tail.as_slice()) {
        return Err(ReadError::Format(FormatError::MissingMagicMarker));
    }
    let size = le_u32(tail.as_slice(), n - 8);
    proof {
        assert(tail@.subrange(n - 8, n - 4) =~= file.subrange(len - 8, len - 4));
        assert(size as nat == declared_metadata_size(file));
    }
    if src.seek_from_end(size as u64 + 8).is_err() {
        return Err(ReadError::Io);
    }
    let size = size as usize;
    let allowance: usize = if size <= usize::MAX / 2 {
        2 * size
    } else {
        usize::MAX
    };
    let decoded = if size > n - 8 {
        match src.read_exact(size) {
            Ok(bytes) => {
                proof {
                    assert(bytes@ =~= metadata_window(file, size as nat));
                }
                decode_file_metadata(bytes.as_slice(), allowance)
            },
            Err(e) => {
                return Err(e);
            },
        }
    } else {
        let window = metadata_from_tail(tail.as_slice(), size);
        proof {
            lemma_tail_window_matches_file(file, initial as nat, size as nat);
        }
        decode_file_metadata(window, allowance)
    };
    match decoded {
        Ok(m) => Ok(m),
        Err(_) => Err(ReadError::Format(FormatError::MetadataDecodeFailed)),
    }
}

/// The last `initial` bytes of a file: what the first read of the footer
/// takes.
pub open spec fn initial_window(file: Seq<u8>, initial: nat) -> Seq<u8>
    recommends
        initial <= file.len(),
{
    file.subrange(file.len() - initial, file.len() as int)
}

/// Where the metadata fits in the first read, the slice of the buffered
/// tail and a second read of the file give the same bytes.
pub proof fn lemma_tail_window_matches_file(file: Seq<u8>, initial: nat, size: nat)
    requires
        initial <= file.len(),
        size + 8 <= initial,
    ensures
        metadata_window(initial_window(file, initial), size) == metadata_window(file, size),
{
    assert(metadata_window(initial_window(file, initial), size) =~= metadata_window(file, size));
}

/// The size of the first read does not change what the footer read
/// returns: reusing the buffered tail and reading the metadata again give
/// the same bytes to the decoder.
pub proof fn lemma_initial_size_irrelevant(file: Seq<u8>, a: nat, b: nat)
    requires
        8 <= a <= file.len(),
        8 <= b <= file.len(),
    ensures
        footer_result(file, a) == footer_result(file, b),
{
}

/// Every column chunk of `m` that records metadata places its first data
/// page at an offset in `[0, bound)`.
pub open spec fn page_offsets_below(m: FileMeta, bound: int) -> bool {
    forall|g: int, c: int|
        0 <= g < m.row_groups@.len() && 0 <= c < m.row_groups@[g].columns@.len()
            && (#[trigger] m.row_groups@[g].columns@[c]) is Some ==> 0
            <= m.row_groups@[g].columns@[c]->0.data_page_offset < bound
}

/// A well-formed file: it ends with the marker, the metadata length that it
/// records fits in it, the metadata decodes, and every first data page lies
/// before the metadata.
pub open spec fn valid_file(file: Seq<u8>) -> bool {
    let size = declared_metadata_size(file);
    &&& ends_with_magic(file)
    &&& file.len() >= 8
    &&& size + 8 <= file.len()
    &&& thrift_file_metadata(metadata_window(file, size), metadata_allowance(size)) is Some
    &&& page_offsets_below(
        thrift_file_metadata(metadata_window(file, size), metadata_allowance(size))->0,
        file.len() - 8 - size,
    )
}

/// Of a well-formed file at least `initial` bytes long, the footer is read
/// without error, and every first-page offset that it records lies within
/// the file.
pub proof fn lemma_valid_file_offsets_in_bounds(file: Seq<u8>, initial: nat)
    requires
        8 <= initial <= file.len(),
        valid_file(file),
    ensures
        footer_result(file, initial) is Ok,
        page_offsets_below(footer_result(file, initial)->Ok_0, file.len() as int),
{
    let m = footer_result(file, initial)->Ok_0;
    let bound = file.len() - 8 - declared_metadata_size(file);
    assert forall|g: int, c: int|
        0 <= g < m.row_groups@.len() && 0 <= c < m.row_groups@[g].columns@.len()
            && (#[trigger] m.row_groups@[g].columns@[c]) is Some implies 0
            <= m.row_groups@[g].columns@[c]->0.data_page_offset < file.len() by {
        assert(m.row_groups@[g].columns@[c]->0.data_page_offset < bound);
    }
}

/// A file that does not end with the marker is rejected with
/// [`FormatError::MissingMagicMarker`], whatever its metadata holds.
pub proof fn lemma_missing_marker_rejected(file: Seq<u8>, initial: nat)
    requires
        8 <= initial <= file.len(),
        !ends_with_magic(file),
    ensures
        footer_result(file, initial) == Err::<FileMeta, ReadError>(
            ReadError::Format(FormatError::MissingMagicMarker),
        ),
{
}

} // verus!
