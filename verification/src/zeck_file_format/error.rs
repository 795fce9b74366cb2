//! What can be wrong with a container.

use vstd::prelude::*;
use vstd::string::StringExecFns;
use crate::text::append_decimal;
use crate::text::append_hex;
use crate::text::decimal_text;
use crate::text::hex_text;

verus! {

/// What can be wrong with a container or with the data for one.
#[derive(Debug, Clone, PartialEq, Eq)]
pub enum ZeckFormatError {
    /// There are fewer bytes than a header has.
    HeaderTooShort {
        /// The number of bytes there are.
        actual_length: usize,
        /// The number of bytes a header has.
        required_length: usize,
    },
    /// The header names a version that is not read.
    UnsupportedVersion {
        /// The version in the header.
        found_version: u8,
        /// The version that is read.
        supported_version: u8,
    },
    /// A reserved flag is set in the header.
    ReservedFlagsSet {
        /// The flags in the header.
        flags: u8,
    },
    /// Neither byte order gave an output shorter than the data.
    CompressionFailed {
        /// The length of the data.
        original_size: usize,
        /// The length of the output for the big-endian reading.
        be_size: usize,
        /// The length of the output for the little-endian reading.
        le_size: usize,
    },
    /// The packed bits stand for more bytes than the header says.
    DecompressedTooLarge {
        /// The length in the header.
        expected_size: usize,
        /// The number of bytes that the packed bits stand for.
        actual_size: usize,
    },
    /// The length of the data does not fit in the header.
    DataSizeTooLarge {
        /// The length of the data.
        size: usize,
    },
}

/// The message of an error.
pub open spec fn error_text(error: ZeckFormatError) -> Seq<char> {
    match error {
        ZeckFormatError::HeaderTooShort { actual_length, required_length } => {
            "Header too short: got "@ + decimal_text(actual_length as nat)
                + " bytes, need at least "@ + decimal_text(required_length as nat) + " bytes"@
        },
        ZeckFormatError::UnsupportedVersion { found_version, supported_version } => {
            "Unsupported file format version: found "@ + decimal_text(found_version as nat)
                + ", maximum supported is "@ + decimal_text(supported_version as nat)
        },
        ZeckFormatError::ReservedFlagsSet { flags } => {
            "Reserved flags are set in header (flags: 0x"@ + hex_text(flags)
                + "), indicating a newer format version"@
        },
        ZeckFormatError::CompressionFailed { original_size, be_size, le_size } => {
            "Compression failed: original size "@ + decimal_text(original_size as nat)
                + " bytes, big endian compressed size "@ + decimal_text(be_size as nat)
                + " bytes, little endian compressed size "@ + decimal_text(le_size as nat)
                + " bytes"@
        },
        ZeckFormatError::DecompressedTooLarge { expected_size, actual_size } => {
            "Decompressed data is too large: expected "@ + decimal_text(expected_size as nat)
                + " bytes, got "@ + decimal_text(actual_size as nat) + " bytes"@
        },
        ZeckFormatError::DataSizeTooLarge { size } => {
            "Data size "@ + decimal_text(size as nat)
                + " bytes is too large to be represented in the file format header"@
        },
    }
}

impl ZeckFormatError {
    /// The message of this error.
    pub fn to_string(&self) -> (text: String)
        ensures
            text@ == error_text(*self),
    {
        match self {
            ZeckFormatError::HeaderTooShort { actual_length, required_length } => {
                let mut text = String::from_str("Header too short: got ");
                append_decimal(&mut text, *actual_length as u64);
                text.append(" bytes, need at least ");
                append_decimal(&mut text, *required_length as u64);
                text.append(" bytes");
                text
            },
            ZeckFormatError::UnsupportedVersion { found_version, supported_version } => {
                let mut text = String::from_str("Unsupported file format version: found ");
                append_decimal(&mut text, *found_version as u64);
                text.append(", maximum supported is ");
                append_decimal(&mut text, *supported_version as u64);
                text
            },
            ZeckFormatError::ReservedFlagsSet { flags } => {
                let mut text = String::from_str("Reserved flags are set in header (flags: 0x");
                append_hex(&mut text, *flags);
                text.append("), indicating a newer format version");
                text
            },
            ZeckFormatError::CompressionFailed { original_size, be_size, le_size } => {
                let mut text = String::from_str("Compression failed: original size ");
                append_decimal(&mut text, *original_size as u64);
                text.append(" bytes, big endian compressed size ");
                append_decimal(&mut text, *be_size as u64);
                text.append(" bytes, little endian compressed size ");
                append_decimal(&mut text, *le_size as u64);
                text.append(" bytes");
                text
            },
            ZeckFormatError::DecompressedTooLarge { expected_size, actual_size } => {
                let mut text = String::from_str("Decompressed data is too large: expected ");
                append_decimal(&mut text, *expected_size as u64);
                text.append(" bytes, got ");
                append_decimal(&mut text, *actual_size as u64);
                text.append(" bytes");
                text
            },
            ZeckFormatError::DataSizeTooLarge { size } => {
                let mut text = String::from_str("Data size ");
                append_decimal(&mut text, *size as u64);
                text.append(" bytes is too large to be represented in the file format header");
                text
            },
        }
    }
}

} // verus!
