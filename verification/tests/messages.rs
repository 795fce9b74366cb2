use zeck::zeck_file_format::compress::compress_zeck_be;
use zeck::zeck_file_format::EndianUsed;
use zeck::zeck_file_format::ZeckFile;
use zeck::zeck_file_format::ZeckFormatError;

#[test]
fn header_too_short_message() {
    let error = ZeckFormatError::HeaderTooShort { actual_length: 3, required_length: 10 };
    assert_eq!(error.to_string(), "Header too short: got 3 bytes, need at least 10 bytes");
}

#[test]
fn unsupported_version_message() {
    let error = ZeckFormatError::UnsupportedVersion { found_version: 255, supported_version: 1 };
    assert_eq!(
        error.to_string(),
        "Unsupported file format version: found 255, maximum supported is 1"
    );
}

#[test]
fn reserved_flags_message() {
    let error = ZeckFormatError::ReservedFlagsSet { flags: 0x0a };
    assert_eq!(
        error.to_string(),
        "Reserved flags are set in header (flags: 0x0a), indicating a newer format version"
    );
    let error = ZeckFormatError::ReservedFlagsSet { flags: 0xfe };
    assert_eq!(
        error.to_string(),
        "Reserved flags are set in header (flags: 0xfe), indicating a newer format version"
    );
}

#[test]
fn reserved_flags_message_matches_two_digit_hex_for_every_byte() {
    for flags in 0..=255u8 {
        let error = ZeckFormatError::ReservedFlagsSet { flags };
        assert_eq!(
            error.to_string(),
            format!(
                "Reserved flags are set in header (flags: 0x{:02x}), indicating a newer format version",
                flags
            )
        );
    }
}

#[test]
fn compression_failed_message() {
    let error = ZeckFormatError::CompressionFailed { original_size: 100, be_size: 120, le_size: 0 };
    assert_eq!(
        error.to_string(),
        "Compression failed: original size 100 bytes, big endian compressed size 120 bytes, little endian compressed size 0 bytes"
    );
}

#[test]
fn decompressed_too_large_message() {
    let error = ZeckFormatError::DecompressedTooLarge { expected_size: 9, actual_size: 10 };
    assert_eq!(error.to_string(), "Decompressed data is too large: expected 9 bytes, got 10 bytes");
}

#[test]
fn data_size_too_large_message() {
    let error = ZeckFormatError::DataSizeTooLarge { size: usize::MAX };
    assert_eq!(
        error.to_string(),
        format!(
            "Data size {} bytes is too large to be represented in the file format header",
            usize::MAX
        )
    );
}

#[test]
fn decimal_numbers_in_messages() {
    for size in [0usize, 7, 10, 99, 100, 1234567890, 4294967295] {
        let error = ZeckFormatError::DataSizeTooLarge { size };
        assert_eq!(
            error.to_string(),
            format!(
                "Data size {} bytes is too large to be represented in the file format header",
                size
            )
        );
    }
}

#[test]
fn container_description() {
    let file = compress_zeck_be(&[1, 2, 3]).unwrap();
    assert_eq!(
        file.to_string(),
        "ZeckFile { version: 1, original_size: 3 bytes, compressed_size: 2 bytes, endianness: big }"
    );
    let file = ZeckFile {
        version: 2,
        original_size: u64::MAX,
        flags: 0,
        compressed_data: vec![0; 12],
    };
    assert_eq!(
        file.to_string(),
        "ZeckFile { version: 2, original_size: 18446744073709551615 bytes, compressed_size: 12 bytes, endianness: little }"
    );
}

#[test]
fn byte_order_names() {
    assert_eq!(EndianUsed::Big.display_name(), "big endian");
    assert_eq!(EndianUsed::Little.display_name(), "little endian");
    assert_eq!(ZeckFile::new(1, vec![1], true).endian_used(), EndianUsed::Big);
    assert_eq!(ZeckFile::new(1, vec![1], false).endian_used(), EndianUsed::Little);
}
