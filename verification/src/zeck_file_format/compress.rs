//! Compression into a container.

use vstd::prelude::*;
use crate::byte_order::be_value;
use crate::byte_order::le_value;
use crate::codec::CompressionResult;
use crate::codec::zeckendorf_bytes;
use crate::codec::zeckendorf_compress_be;
use crate::codec::zeckendorf_compress_best;
use crate::codec::zeckendorf_compress_le;
use crate::engine::MAX_NATURAL_BYTES;
use crate::zeck_file_format::error::ZeckFormatError;
use crate::zeck_file_format::file::ZeckFile;
use crate::zeck_file_format::file::ZeckFileView;
use crate::zeck_file_format::ZECK_FLAG_BIG_ENDIAN;
use crate::zeck_file_format::ZECK_FORMAT_VERSION;

verus! {

/// The outcome of compressing one input in both byte orders into a
/// container.
#[derive(Debug, Clone, PartialEq, Eq)]
pub enum BestCompressionResult {
    /// Reading the input big-endian gave the shorter output, and one shorter
    /// than the input.
    BigEndianBest {
        /// The container for the big-endian reading.
        zeck_file: ZeckFile,
        /// The length of the output for the little-endian reading.
        le_size: usize,
    },
    /// Reading the input little-endian gave an output shorter than the
    /// input, and no longer than the big-endian reading gave.
    LittleEndianBest {
        /// The container for the little-endian reading.
        zeck_file: ZeckFile,
        /// The length of the output for the big-endian reading.
        be_size: usize,
    },
    /// Neither output is shorter than the input.
    Neither {
        /// The length of the output for the big-endian reading.
        be_size: usize,
        /// The length of the output for the little-endian reading.
        le_size: usize,
    },
}

/// The container that `data` is compressed into when it is read in the
/// given byte order.
pub open spec fn compressed_file(data: Seq<u8>, big_endian: bool) -> ZeckFileView {
    ZeckFileView {
        version: ZECK_FORMAT_VERSION,
        original_size: data.len() as u64,
        flags: if big_endian {
            ZECK_FLAG_BIG_ENDIAN
        } else {
            0
        },
        compressed_data: zeckendorf_bytes(
            if big_endian {
                be_value(data)
            } else {
                le_value(data)
            },
        ),
    }
}

/// What `compress_zeck_best` returns for `data`: the big-endian container
/// if its packed bits are fewer bytes than the data and fewer than the
/// little-endian ones; else the little-endian container if its packed bits
/// are fewer bytes than the data; else neither. The lengths compared are
/// those of the packed bits, without the header.
pub open spec fn is_best_file_of(result: BestCompressionResult, data: Seq<u8>) -> bool {
    let be = compressed_file(data, true);
    let le = compressed_file(data, false);
    if be.compressed_data.len() < data.len() && be.compressed_data.len()
        < le.compressed_data.len() {
        result matches BestCompressionResult::BigEndianBest { zeck_file, le_size } && zeck_file@
            == be && le_size == le.compressed_data.len()
    } else if le.compressed_data.len() < data.len() {
        result matches BestCompressionResult::LittleEndianBest { zeck_file, be_size }
            && zeck_file@ == le && be_size == be.compressed_data.len()
    } else {
        result matches BestCompressionResult::Neither { be_size, le_size } && be_size
            == be.compressed_data.len() && le_size == le.compressed_data.len()
    }
}

/// Compresses `data` in both byte orders and wraps the shorter output in a
/// container if it is shorter than the data; of two outputs of one length
/// the little-endian one is kept. The error is for data whose length does
/// not fit in the header.
pub fn compress_zeck_best(data: &[u8]) -> (result: Result<BestCompressionResult, ZeckFormatError>)
    requires
        data@.len() <= MAX_NATURAL_BYTES,
    ensures
        data@.len() <= u64::MAX ==> (result matches Ok(best) && is_best_file_of(best, data@)),
        data@.len() > u64::MAX ==> result == Err::<BestCompressionResult, ZeckFormatError>(
            ZeckFormatError::DataSizeTooLarge { size: data@.len() as usize },
        ),
{
    let original_size = match u64::try_from(data.len()) {
        Ok(size) => size,
        Err(_) => {
            return Err(ZeckFormatError::DataSizeTooLarge { size: data.len() });
        },
    };
    let result = zeckendorf_compress_best(data);
    match result {
        CompressionResult::BigEndianBest { compressed_data, le_size } => Ok(
            BestCompressionResult::BigEndianBest {
                zeck_file: ZeckFile::new(original_size, compressed_data, true),
                le_size,
            },
        ),
        CompressionResult::LittleEndianBest { compressed_data, be_size } => Ok(
            BestCompressionResult::LittleEndianBest {
                zeck_file: ZeckFile::new(original_size, compressed_data, false),
                be_size,
            },
        ),
        CompressionResult::Neither { be_size, le_size } => Ok(
            BestCompressionResult::Neither { be_size, le_size },
        ),
    }
}

/// Compresses `data`, read as one little-endian number, into a container.
/// The error is for data whose length does not fit in the header.
pub fn compress_zeck_le(data: &[u8]) -> (result: Result<ZeckFile, ZeckFormatError>)
    requires
        data@.len() <= MAX_NATURAL_BYTES,
    ensures
        data@.len() <= u64::MAX ==> (result matches Ok(file) && file@ == compressed_file(
            data@,
            false,
        )),
        data@.len() > u64::MAX ==> result == Err::<ZeckFile, ZeckFormatError>(
            ZeckFormatError::DataSizeTooLarge { size: data@.len() as usize },
        ),
{
    let original_size = match u64::try_from(data.len()) {
        Ok(size) => size,
        Err(_) => {
            return Err(ZeckFormatError::DataSizeTooLarge { size: data.len() });
        },
    };
    let compressed_data = zeckendorf_compress_le(data);
    Ok(ZeckFile::new(original_size, compressed_data, false))
}

/// Compresses `data`, read as one big-endian number, into a container.
/// The error is for data whose length does not fit in the header.
pub fn compress_zeck_be(data: &[u8]) -> (result: Result<ZeckFile, ZeckFormatError>)
    requires
        data@.len() <= MAX_NATURAL_BYTES,
    ensures
        data@.len() <= u64::MAX ==> (result matches Ok(file) && file@ == compressed_file(
            data@,
            true,
        )),
        data@.len() > u64::MAX ==> result == Err::<ZeckFile, ZeckFormatError>(
            ZeckFormatError::DataSizeTooLarge { size: data@.len() as usize },
        ),
{
    let original_size = match u64::try_from(data.len()) {
        Ok(size) => size,
        Err(_) => {
            return Err(ZeckFormatError::DataSizeTooLarge { size: data.len() });
        },
    };
    let compressed_data = zeckendorf_compress_be(data);
    Ok(ZeckFile::new(original_size, compressed_data, true))
}

} // verus!
