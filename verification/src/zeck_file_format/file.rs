//! The container as a value, and as bytes.

use vstd::prelude::*;
use vstd::string::StringExecFns;
use crate::byte_order::le_value;
use crate::byte_order::lemma_pow256_values;
use crate::text::append_decimal;
use crate::text::decimal_text;
use crate::zeck_file_format::error::ZeckFormatError;
use crate::zeck_file_format::ZECK_FLAG_BIG_ENDIAN;
use crate::zeck_file_format::ZECK_FORMAT_VERSION;
use crate::zeck_file_format::ZECK_HEADER_SIZE;

verus! {

/// A container: the header's three fields and the packed bits.
#[derive(Debug, Clone, PartialEq, Eq)]
pub struct ZeckFile {
    /// The version of the format.
    pub version: u8,
    /// The length of the original data in bytes.
    pub original_size: u64,
    /// The flags: bit 0 for big-endian, the others reserved.
    pub flags: u8,
    /// The packed bits, without the header.
    pub compressed_data: Vec<u8>,
}

/// The byte order in which data was read as a number.
#[derive(Debug, Clone, Copy, PartialEq, Eq)]
pub enum EndianUsed {
    /// Most significant byte first.
    Big,
    /// Least significant byte first.
    Little,
}

impl EndianUsed {
    /// The byte order in words.
    pub fn display_name(&self) -> (name: &'static str)
        ensures
            name@ == match *self {
                EndianUsed::Big => "big endian"@,
                EndianUsed::Little => "little endian"@,
            },
    {
        match self {
            EndianUsed::Big => "big endian",
            EndianUsed::Little => "little endian",
        }
    }
}

/// A container with its packed bits as a sequence.
pub struct ZeckFileView {
    /// The version of the format.
    pub version: u8,
    /// The length of the original data in bytes.
    pub original_size: u64,
    /// The flags.
    pub flags: u8,
    /// The packed bits.
    pub compressed_data: Seq<u8>,
}

impl View for ZeckFile {
    type V = ZeckFileView;

    open spec fn view(&self) -> ZeckFileView {
        ZeckFileView {
            version: self.version,
            original_size: self.original_size,
            flags: self.flags,
            compressed_data: self.compressed_data@,
        }
    }
}

/// The eight bytes of `value`, least significant first.
pub open spec fn u64_le_bytes(value: u64) -> Seq<u8> {
    Seq::new(8, |i: int| ((value >> ((8 * i) as u64)) & 0xff) as u8)
}

/// The bytes of a container: version, length, flags, packed bits.
pub open spec fn serialized(file: ZeckFileView) -> Seq<u8> {
    seq![file.version] + u64_le_bytes(file.original_size) + seq![file.flags]
        + file.compressed_data
}

/// The container that bytes are read as: an error if there are fewer than
/// ten, and else whatever the first ten say, with the rest as packed bits.
pub open spec fn deserialized(bytes: Seq<u8>) -> Result<ZeckFileView, ZeckFormatError> {
    if bytes.len() < ZECK_HEADER_SIZE {
        Err(
            ZeckFormatError::HeaderTooShort {
                actual_length: bytes.len() as usize,
                required_length: ZECK_HEADER_SIZE,
            },
        )
    } else {
        Ok(
            ZeckFileView {
                version: bytes[0],
                original_size: le_value(bytes.subrange(1, 9)) as u64,
                flags: bytes[9],
                compressed_data: bytes.subrange(10, bytes.len() as int),
            },
        )
    }
}

/// The line that describes a container.
pub open spec fn file_text(file: ZeckFileView) -> Seq<char> {
    "ZeckFile { version: "@ + decimal_text(file.version as nat) + ", original_size: "@
        + decimal_text(file.original_size as nat) + " bytes, compressed_size: "@ + decimal_text(
        file.compressed_data.len(),
    ) + " bytes, endianness: "@ + if file.flags & ZECK_FLAG_BIG_ENDIAN != 0 {
        "big"@
    } else {
        "little"@
    } + " }"@
}

impl ZeckFile {
    /// A container of the current version.
    pub fn new(original_size: u64, compressed_data: Vec<u8>, is_big_endian: bool) -> (file: Self)
        ensures
            file@ == (ZeckFileView {
                version: ZECK_FORMAT_VERSION,
                original_size,
                flags: if is_big_endian {
                    ZECK_FLAG_BIG_ENDIAN
                } else {
                    0
                },
                compressed_data: compressed_data@,
            }),
    {
        let mut flags: u8 = 0;
        if is_big_endian {
            flags = flags | ZECK_FLAG_BIG_ENDIAN;
            assert(0u8 | 1u8 == 1u8) by (bit_vector);
        }
        ZeckFile { version: ZECK_FORMAT_VERSION, original_size, flags, compressed_data }
    }

    /// Whether the data was read as a big-endian number.
    pub fn is_big_endian(&self) -> (big_endian: bool)
        ensures
            big_endian == (self.flags & ZECK_FLAG_BIG_ENDIAN != 0),
    {
        (self.flags & ZECK_FLAG_BIG_ENDIAN) != 0
    }

    /// The byte order in which the data was read as a number.
    pub fn endian_used(&self) -> (endian: EndianUsed)
        ensures
            endian == if self.flags & ZECK_FLAG_BIG_ENDIAN != 0 {
                EndianUsed::Big
            } else {
                EndianUsed::Little
            },
    {
        if self.is_big_endian() {
            EndianUsed::Big
        } else {
            EndianUsed::Little
        }
    }

    /// The container as bytes: the header, then the packed bits.
    pub fn to_bytes(&self) -> (bytes: Vec<u8>)
        requires
            ZECK_HEADER_SIZE + self.compressed_data@.len() <= usize::MAX,
        ensures
            bytes@ == serialized(self@),
    {
        let mut output: Vec<u8> = Vec::with_capacity(ZECK_HEADER_SIZE + self.compressed_data.len());
        output.push(self.version);
        let size = self.original_size;
        let mut i: u64 = 0;
        while i < 8
            invariant
                i <= 8,
                size == self.original_size,
                output@.len() == 1 + i,
                output@[0] == self.version,
                forall|k: int| 0 <= k < i ==> #[trigger] output@[1 + k] == u64_le_bytes(size)[k],
            decreases 8 - i,
        {
            let shifted = size >> (8 * i);
            output.push((shifted & 0xff) as u8);
            i = i + 1;
        }
        output.push(self.flags);
        let ghost header = output@;
        proof {
            let expected = seq![self.version] + u64_le_bytes(size) + seq![self.flags];
            assert forall|k: int| 0 <= k < 10 implies header[k] == expected[k] by {
                if 1 <= k < 9 {
                    assert(header[1 + (k - 1)] == u64_le_bytes(size)[k - 1]);
                }
            }
        }
        let mut place: usize = 0;
        while place < self.compressed_data.len()
            invariant
                place <= self.compressed_data@.len(),
                header.len() == 10,
                output@ == header + self.compressed_data@.take(place as int),
            decreases self.compressed_data@.len() - place,
        {
            output.push(self.compressed_data[place]);
            place = place + 1;
        }
        output
    }

    /// A line that describes the container: its version, the two lengths
    /// and the byte order.
    pub fn to_string(&self) -> (text: String)
        ensures
            text@ == file_text(self@),
    {
        let mut text = String::from_str("ZeckFile { version: ");
        append_decimal(&mut text, self.version as u64);
        text.append(", original_size: ");
        append_decimal(&mut text, self.original_size);
        text.append(" bytes, compressed_size: ");
        append_decimal(&mut text, self.compressed_data.len() as u64);
        text.append(" bytes, endianness: ");
        if self.is_big_endian() {
            text.append("big");
        } else {
            text.append("little");
        }
        text.append(" }");
        text
    }

    /// The number of bytes of the container as bytes.
    pub fn total_size(&self) -> (size: usize)
        requires
            ZECK_HEADER_SIZE + self.compressed_data@.len() <= usize::MAX,
        ensures
            size == ZECK_HEADER_SIZE + self.compressed_data@.len(),
            size == serialized(self@).len(),
    {
        ZECK_HEADER_SIZE + self.compressed_data.len()
    }
}

/// Reads bytes as a container. Nothing but the length is checked here: a
/// version or flags that cannot be read are found when the container is
/// decompressed.
pub fn deserialize_zeck_file(zeck_file_data: &[u8]) -> (result: Result<ZeckFile, ZeckFormatError>)
    ensures
        match result {
            Ok(file) => deserialized(zeck_file_data@) == Ok::<ZeckFileView, ZeckFormatError>(file@),
            Err(error) => deserialized(zeck_file_data@) == Err::<ZeckFileView, ZeckFormatError>(
                error,
            ),
        },
{
    if zeck_file_data.len() < ZECK_HEADER_SIZE {
        return Err(
            ZeckFormatError::HeaderTooShort {
                actual_length: zeck_file_data.len(),
                required_length: ZECK_HEADER_SIZE,
            },
        );
    }
    let version = zeck_file_data[0];
    let mut original_size: u64 = 0;
    let mut i: usize = 8;
    while i > 0
        invariant
            i <= 8,
            zeck_file_data@.len() >= 10,
            original_size == le_value(zeck_file_data@.subrange(1 + i as int, 9)),
            original_size < crate::byte_order::pow256((8 - i) as nat),
        decreases i,
    {
        i = i - 1;
        proof {
            let tail = zeck_file_data@.subrange(1 + i as int, 9);
            assert(tail.drop_first() =~= zeck_file_data@.subrange(2 + i as int, 9));
            lemma_pow256_values();
        }
        original_size = original_size * 256 + zeck_file_data[1 + i] as u64;
    }
    let flags = zeck_file_data[9];
    let mut compressed_data: Vec<u8> = Vec::with_capacity(zeck_file_data.len() - ZECK_HEADER_SIZE);
    let mut place: usize = ZECK_HEADER_SIZE;
    while place < zeck_file_data.len()
        invariant
            10 <= place <= zeck_file_data@.len(),
            compressed_data@ == zeck_file_data@.subrange(10, place as int),
        decreases zeck_file_data@.len() - place,
    {
        compressed_data.push(zeck_file_data[place]);
        place = place + 1;
    }
    Ok(ZeckFile { version, original_size, flags, compressed_data })
}

/// The eight bytes of a machine word write the word.
pub proof fn lemma_u64_le_bytes(value: u64)
    ensures
        u64_le_bytes(value).len() == 8,
        le_value(u64_le_bytes(value)) == value,
{
    let bytes = u64_le_bytes(value);
    assert forall|s: u64| s < 64 implies (value >> s) & 0xff <= 0xff by {
        assert((value >> s) & 0xff <= 0xff) by (bit_vector);
    }
    lemma_le_value_of_eight(bytes);
    assert(value == ((value >> 0u64) & 0xff) + 0x100 * ((value >> 8u64) & 0xff) + 0x1_0000 * ((value
        >> 16u64) & 0xff) + 0x100_0000 * ((value >> 24u64) & 0xff) + 0x1_0000_0000 * ((value
        >> 32u64) & 0xff) + 0x100_0000_0000 * ((value >> 40u64) & 0xff) + 0x1_0000_0000_0000 * ((
    value >> 48u64) & 0xff) + 0x100_0000_0000_0000 * ((value >> 56u64) & 0xff)) by (bit_vector);
}

/// The little-endian value of eight bytes, written out.
proof fn lemma_le_value_of_eight(bytes: Seq<u8>)
    requires
        bytes.len() == 8,
    ensures
        le_value(bytes) == bytes[0] + 0x100 * bytes[1] + 0x1_0000 * bytes[2] + 0x100_0000
            * bytes[3] + 0x1_0000_0000 * bytes[4] + 0x100_0000_0000 * bytes[5]
            + 0x1_0000_0000_0000 * bytes[6] + 0x100_0000_0000_0000 * bytes[7],
{
    let s1 = bytes.drop_first();
    let s2 = s1.drop_first();
    let s3 = s2.drop_first();
    let s4 = s3.drop_first();
    let s5 = s4.drop_first();
    let s6 = s5.drop_first();
    let s7 = s6.drop_first();
    let s8 = s7.drop_first();
    assert(le_value(s8) == 0);
    assert(le_value(s7) == bytes[7]);
    assert(le_value(s5) == bytes[5] + 256 * le_value(s6));
    assert(le_value(s3) == bytes[3] + 256 * le_value(s4));
    assert(le_value(s1) == bytes[1] + 256 * le_value(s2));
}

/// Reading the bytes of a container gives the container back.
pub proof fn lemma_deserialize_serialize(file: ZeckFileView)
    ensures
        serialized(file).len() == ZECK_HEADER_SIZE + file.compressed_data.len(),
        serialized(file).len() <= usize::MAX ==> deserialized(serialized(file)) == Ok::<
            ZeckFileView,
            ZeckFormatError,
        >(file),
{
    let bytes = serialized(file);
    lemma_u64_le_bytes(file.original_size);
    assert(bytes.subrange(1, 9) =~= u64_le_bytes(file.original_size));
    assert(bytes.subrange(10, bytes.len() as int) =~= file.compressed_data);
}

} // verus!
