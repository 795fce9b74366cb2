//! The container: a header of ten bytes, then the packed Zeckendorf bits.
//!
//! ```text
//! offset 0      version, 1
//! offset 1..9   length of the original data, little-endian
//! offset 9      flags: bit 0 is set if the data was read as a big-endian
//!               number; the other bits are reserved and 0
//! offset 10..   the packed bits
//! ```
//!
//! The header keeps what the packed bits lose: how long the original data
//! was, and in which byte order it was read.

pub mod compress;
pub mod decompress;
pub mod error;
pub mod file;

pub use error::ZeckFormatError;
pub use file::EndianUsed;
pub use file::ZeckFile;

use vstd::prelude::*;

verus! {

/// The version of the format that this crate writes and reads.
pub const ZECK_FORMAT_VERSION: u8 = 1;

/// The number of bytes of the header.
pub const ZECK_HEADER_SIZE: usize = 10;

/// The flag that says that the data was read as a big-endian number.
pub const ZECK_FLAG_BIG_ENDIAN: u8 = 0b0000_0001;

/// The flags that are reserved and have to be 0.
pub const ZECK_FLAG_RESERVED_MASK: u8 = 0b1111_1110;

} // verus!
