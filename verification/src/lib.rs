//! Zeckendorf coding of byte buffers.
//!
//! Every natural number is, in exactly one way, a sum of Fibonacci numbers
//! no two of which are neighbours in the Fibonacci sequence. This crate reads
//! a byte buffer as one large natural number, writes that number down as the
//! stream of "use" and "skip" decisions of its Zeckendorf representation, and
//! packs the stream into bytes again. The result is sometimes shorter than
//! the input and sometimes longer; the container format records what is
//! needed to get the input back exactly.

pub mod bits;
pub mod byte_order;
pub mod codec;
pub mod engine;
pub mod ezba;
pub mod fibonacci;
pub mod natural;
pub mod text;
pub mod zeck_file_format;
pub mod zeckendorf;

pub use bits::bit_count_for_number;
pub use bits::highest_one_bit;
pub use codec::all_ones_zeckendorf_to_bigint;
pub use codec::zeckendorf_compress_be;
pub use codec::zeckendorf_compress_best;
pub use codec::zeckendorf_compress_le;
pub use codec::zeckendorf_decompress_be;
pub use codec::zeckendorf_decompress_le;
pub use codec::CompressionResult;
pub use engine::fast_doubling_fibonacci_bigint;
pub use engine::memoized_effective_fibonacci;
pub use engine::memoized_fast_doubling_fibonacci_bigint;
pub use engine::memoized_slow_fibonacci_bigint_iterative;
pub use engine::memoized_slow_fibonacci_recursive;
pub use engine::memoized_zeckendorf_list_descending_for_bigint;
pub use engine::memoized_zeckendorf_list_descending_for_integer;
pub use engine::slow_fibonacci_bigint_iterative;
pub use engine::zl_to_bigint;
pub use engine::Engine;
pub use ezba::ezba_from_ezld;
pub use ezba::ezba_to_ezla;
pub use ezba::pack_ezba_bits_to_bytes;
pub use ezba::unpack_bytes_to_ezba_bits;
pub use ezba::SKIP_BIT;
pub use ezba::USE_BIT;
pub use natural::Natural;
pub use zeckendorf::efi_to_fi;
pub use zeckendorf::efi_to_fi_bigint;
pub use zeckendorf::efi_to_fi_ref;
pub use zeckendorf::ezl_to_zl;
pub use zeckendorf::fi_to_efi;
pub use zeckendorf::fi_to_efi_bigint;
pub use zeckendorf::fi_to_efi_ref;
pub use zeckendorf::zl_to_ezl;
