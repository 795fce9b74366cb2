//! Decompression of a container.

use vstd::prelude::*;
use crate::byte_order::be_value;
use crate::byte_order::byte_length;
use crate::byte_order::le_value;
use crate::byte_order::lemma_be_leading_zeros;
use crate::byte_order::lemma_be_value_injective;
use crate::byte_order::lemma_byte_length_is_least;
use crate::byte_order::lemma_le_trailing_zeros;
use crate::byte_order::lemma_le_value_injective;
use crate::byte_order::lemma_minimal_be_bytes;
use crate::byte_order::lemma_minimal_le_bytes;
use crate::byte_order::minimal_be_bytes;
use crate::byte_order::minimal_le_bytes;
use crate::byte_order::zero_bytes;
use crate::codec::bytes_value;
use crate::codec::lemma_decode_encode;
use crate::codec::lemma_zeckendorf_bytes_len;
use crate::codec::MAX_COMPRESSED_BYTES;
use crate::codec::zeckendorf_decompress_be;
use crate::codec::zeckendorf_decompress_le;
use crate::engine::MAX_NATURAL_BYTES;
use crate::fibonacci::lemma_fib_exceeds_bytes;
use crate::fibonacci::lemma_fib_monotonic;
use crate::zeck_file_format::compress::compressed_file;
use crate::zeck_file_format::error::ZeckFormatError;
use crate::zeck_file_format::file::ZeckFile;
use crate::zeck_file_format::file::ZeckFileView;
use crate::zeck_file_format::ZECK_FLAG_BIG_ENDIAN;
use crate::zeck_file_format::ZECK_FLAG_RESERVED_MASK;
use crate::zeck_file_format::ZECK_FORMAT_VERSION;

verus! {

/// What a container of version 1 decompresses to. The packed bits stand
/// for a number; its shortest bytes in the byte order that the flags name
/// are filled up with zero bytes at the number's high end, to the length in
/// the header. If they are more than that length, the container is not a
/// valid one.
pub open spec fn decompressed_v1(compressed_data: Seq<u8>, original_size: u64, flags: u8) -> Result<
    Seq<u8>,
    ZeckFormatError,
> {
    let number = bytes_value(compressed_data);
    let big_endian = flags & ZECK_FLAG_BIG_ENDIAN != 0;
    let shortest = if big_endian {
        minimal_be_bytes(number)
    } else {
        minimal_le_bytes(number)
    };
    if shortest.len() > original_size {
        Err(
            ZeckFormatError::DecompressedTooLarge {
                expected_size: original_size as usize,
                actual_size: shortest.len() as usize,
            },
        )
    } else if big_endian {
        Ok(zero_bytes((original_size - shortest.len()) as nat) + shortest)
    } else {
        Ok(shortest + zero_bytes((original_size - shortest.len()) as nat))
    }
}

/// What a container decompresses to: an error if a reserved flag is set;
/// else an error if the version is not 1; else what `decompressed_v1` says.
pub open spec fn decompressed(file: ZeckFileView) -> Result<Seq<u8>, ZeckFormatError> {
    if file.flags & ZECK_FLAG_RESERVED_MASK != 0 {
        Err(ZeckFormatError::ReservedFlagsSet { flags: file.flags })
    } else if file.version != ZECK_FORMAT_VERSION {
        Err(
            ZeckFormatError::UnsupportedVersion {
                found_version: file.version,
                supported_version: ZECK_FORMAT_VERSION,
            },
        )
    } else {
        decompressed_v1(file.compressed_data, file.original_size, file.flags)
    }
}

/// Whether a result with bytes and a result with a sequence say the same.
pub open spec fn same_outcome(
    result: Result<Vec<u8>, ZeckFormatError>,
    expected: Result<Seq<u8>, ZeckFormatError>,
) -> bool {
    match result {
        Ok(data) => expected == Ok::<Seq<u8>, ZeckFormatError>(data@),
        Err(error) => expected == Err::<Seq<u8>, ZeckFormatError>(error),
    }
}

/// Decompresses a container to the original data.
pub fn decompress_zeck_file(zeck_file: &ZeckFile) -> (result: Result<Vec<u8>, ZeckFormatError>)
    requires
        zeck_file.compressed_data@.len() <= MAX_COMPRESSED_BYTES,
        zeck_file.original_size <= usize::MAX,
    ensures
        same_outcome(result, decompressed(zeck_file@)),
{
    if zeck_file.flags & ZECK_FLAG_RESERVED_MASK != 0 {
        return Err(ZeckFormatError::ReservedFlagsSet { flags: zeck_file.flags });
    }
    match zeck_file.version {
        1 => decompress_zeck_v1(
            zeck_file.compressed_data.as_slice(),
            zeck_file.original_size,
            zeck_file.flags,
        ),
        _ => Err(
            ZeckFormatError::UnsupportedVersion {
                found_version: zeck_file.version,
                supported_version: ZECK_FORMAT_VERSION,
            },
        ),
    }
}

/// Decompresses the packed bits of a container of version 1.
pub fn decompress_zeck_v1(compressed_data: &[u8], original_size: u64, flags: u8) -> (result: Result<
    Vec<u8>,
    ZeckFormatError,
>)
    requires
        compressed_data@.len() <= MAX_COMPRESSED_BYTES,
        original_size <= usize::MAX,
    ensures
        same_outcome(result, decompressed_v1(compressed_data@, original_size, flags)),
{
    let is_big_endian = (flags & ZECK_FLAG_BIG_ENDIAN) != 0;
    let decompressed = if is_big_endian {
        zeckendorf_decompress_be(compressed_data)
    } else {
        zeckendorf_decompress_le(compressed_data)
    };
    let original_size_usize = original_size as usize;
    let decompressed_len = decompressed.len();
    if decompressed_len > original_size_usize {
        return Err(
            ZeckFormatError::DecompressedTooLarge {
                expected_size: original_size_usize,
                actual_size: decompressed_len,
            },
        );
    }
    if decompressed_len < original_size_usize {
        let padding_size = original_size_usize - decompressed_len;
        let mut padded: Vec<u8> = Vec::with_capacity(original_size_usize);
        if is_big_endian {
            append_zero_bytes(&mut padded, padding_size);
            append_bytes(&mut padded, decompressed.as_slice());
        } else {
            append_bytes(&mut padded, decompressed.as_slice());
            append_zero_bytes(&mut padded, padding_size);
        }
        Ok(padded)
    } else {
        Ok(decompressed)
    }
}

/// Puts `count` zero bytes at the end of `bytes`.
fn append_zero_bytes(bytes: &mut Vec<u8>, count: usize)
    ensures
        final(bytes)@ == old(bytes)@ + zero_bytes(count as nat),
{
    let mut done: usize = 0;
    while done < count
        invariant
            done <= count,
            bytes@ == old(bytes)@ + zero_bytes(done as nat),
        decreases count - done,
    {
        bytes.push(0u8);
        done = done + 1;
    }
}

/// Puts `more` at the end of `bytes`.
fn append_bytes(bytes: &mut Vec<u8>, more: &[u8])
    ensures
        final(bytes)@ == old(bytes)@ + more@,
{
    let mut done: usize = 0;
    while done < more.len()
        invariant
            done <= more@.len(),
            bytes@ == old(bytes)@ + more@.take(done as int),
        decreases more@.len() - done,
    {
        bytes.push(more[done]);
        done = done + 1;
    }
}

/// Compressing data of at least one byte into a container and
/// decompressing the container gives the data back, byte for byte, in
/// either byte order; and the container is one that
/// `decompress_zeck_file` takes.
pub proof fn lemma_decompress_compress(data: Seq<u8>, big_endian: bool)
    requires
        1 <= data.len() <= MAX_NATURAL_BYTES,
    ensures
        compressed_file(data, big_endian).compressed_data.len() <= MAX_COMPRESSED_BYTES,
        compressed_file(data, big_endian).original_size <= usize::MAX,
        decompressed(compressed_file(data, big_endian)) == Ok::<Seq<u8>, ZeckFormatError>(data),
{
    let number = if big_endian {
        be_value(data)
    } else {
        le_value(data)
    };
    lemma_byte_length_is_least(data);
    lemma_fib_exceeds_bytes(number);
    lemma_fib_monotonic(16 * byte_length(number) + 1, u64::MAX as nat);
    lemma_decode_encode(number);
    lemma_zeckendorf_bytes_len(number);
    assert(1u8 & 0b1111_1110u8 == 0 && 0u8 & 0b1111_1110u8 == 0 && 1u8 & 1u8 != 0 && 0u8 & 1u8
        == 0) by (bit_vector);
    let padding = (data.len() - byte_length(number)) as nat;
    if big_endian {
        let shortest = minimal_be_bytes(number);
        lemma_minimal_be_bytes(number);
        lemma_be_leading_zeros(padding, shortest);
        lemma_be_value_injective(zero_bytes(padding) + shortest, data);
    } else {
        let shortest = minimal_le_bytes(number);
        lemma_minimal_le_bytes(number);
        lemma_le_trailing_zeros(shortest, padding);
        lemma_le_value_injective(shortest + zero_bytes(padding), data);
    }
}

} // verus!
