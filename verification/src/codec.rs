//! The codec without a header: bytes to packed Zeckendorf bits and back.
//!
//! Compression reads the input as one natural number, in one of the two
//! byte orders, and writes the number's Zeckendorf list as packed bits.
//! Decompression reads packed bits as a number and writes the number in
//! its shortest form. Zero bytes at the number's high end are lost on the
//! way: these functions do not keep the input's length. The container in
//! [`crate::zeck_file_format`] does.

use vstd::prelude::*;
use crate::byte_order::be_value;
use crate::byte_order::byte_length;
use crate::byte_order::le_value;
use crate::byte_order::lemma_byte_length_is_least;
use crate::byte_order::minimal_be_bytes;
use crate::byte_order::minimal_le_bytes;
use crate::engine::dense_reach;
use crate::engine::doubling_search_top;
use crate::engine::Engine;
use crate::engine::EngineView;
use crate::engine::larger;
use crate::engine::MAX_NATURAL_BYTES;
use crate::ezba::ezba_from_ezld;
use crate::ezba::ezba_of_ezld;
use crate::ezba::ezba_to_ezla;
use crate::ezba::ezla_of_bits;
use crate::ezba::lemma_ezba_roundtrip;
use crate::ezba::lemma_ezba_walk_shape;
use crate::ezba::lemma_ezla_bounds;
use crate::ezba::lemma_trailing_skip_bits;
use crate::ezba::lemma_unpack_pack_decodes;
use crate::ezba::pack_bits;
use crate::ezba::pack_ezba_bits_to_bytes;
use crate::ezba::skip_bits;
use crate::ezba::unpack_bytes;
use crate::ezba::unpack_bytes_to_ezba_bits;
use crate::fibonacci::fib;
use crate::fibonacci::lemma_fib_exceeds_bytes;
use crate::fibonacci::lemma_fib_monotonic;
use crate::natural::Natural;
use crate::zeckendorf::ezl_to_zl;
use crate::zeckendorf::lemma_lowered_raised;
use crate::zeckendorf::lemma_zeckendorf_exists;
use crate::zeckendorf::lemma_zeckendorf_list_of;
use crate::zeckendorf::lemma_zeckendorf_value_bounds;
use crate::zeckendorf::lemma_zl_value_push;
use crate::zeckendorf::lemma_zl_value_reverse;
use crate::zeckendorf::lowered;
use crate::zeckendorf::raised;
use crate::zeckendorf::zeckendorf_list_of;
use crate::zeckendorf::zl_to_ezl;
use crate::zeckendorf::zl_value;

verus! {

/// The largest number of packed bytes that are read back into a number.
/// Sixteen effective indices go into a byte, and the Fibonacci index of the
/// last has to fit in a machine word.
pub const MAX_COMPRESSED_BYTES: usize = (usize::MAX - 2) / 16;

/// The packed bits that write the number `n`.
pub open spec fn zeckendorf_bytes(n: nat) -> Seq<u8> {
    pack_bits(ezba_of_ezld(lowered(zeckendorf_list_of(n))))
}

/// The number that bits stand for: the sum of the Fibonacci numbers at
/// the indices that the bits take.
pub open spec fn bits_value(bits: Seq<u8>) -> nat {
    zl_value(raised(ezla_of_bits(bits)))
}

/// The number that packed bits stand for.
pub open spec fn bytes_value(compressed: Seq<u8>) -> nat {
    bits_value(unpack_bytes(compressed))
}

/// The outcome of compressing one input in both byte orders.
#[derive(Debug, Clone, PartialEq, Eq)]
pub enum CompressionResult {
    /// Reading the input big-endian gave the shorter output, and one shorter
    /// than the input.
    BigEndianBest {
        /// The output for the big-endian reading.
        compressed_data: Vec<u8>,
        /// The length of the output for the little-endian reading.
        le_size: usize,
    },
    /// Reading the input little-endian gave an output shorter than the
    /// input, and no longer than the big-endian reading gave.
    LittleEndianBest {
        /// The output for the little-endian reading.
        compressed_data: Vec<u8>,
        /// The length of the output for the big-endian reading.
        be_size: usize,
    },
    /// Neither output is shorter than the input.
    Neither {
        /// The length of the output for the big-endian reading.
        be_size: usize,
        /// The length of the output for the little-endian reading.
        le_size: usize,
    },
}

/// What `zeckendorf_compress_best` returns for an input of `input_len`
/// bytes whose two outputs are `be` and `le`: the big-endian output if it
/// is shorter than the input and shorter than the other; else the
/// little-endian output if it is shorter than the input; else neither.
pub open spec fn is_best_of(
    result: CompressionResult,
    input_len: nat,
    be: Seq<u8>,
    le: Seq<u8>,
) -> bool {
    if be.len() < input_len && be.len() < le.len() {
        result matches CompressionResult::BigEndianBest { compressed_data, le_size }
            && compressed_data@ == be && le_size == le.len()
    } else if le.len() < input_len {
        result matches CompressionResult::LittleEndianBest { compressed_data, be_size }
            && compressed_data@ == le && be_size == be.len()
    } else {
        result matches CompressionResult::Neither { be_size, le_size } && be_size == be.len()
            && le_size == le.len()
    }
}

impl Engine {
    /// Writes `n` as packed Zeckendorf bits.
    pub fn encode(&mut self, n: &Natural) -> (compressed: Vec<u8>)
        requires
            old(self).wf(),
            byte_length(n@) <= MAX_NATURAL_BYTES,
        ensures
            final(self).wf(),
            compressed@ == zeckendorf_bytes(n@),
            final(self)@ == (EngineView {
                big_fibonacci_count: if n@ <= 2 || old(self)@.big_list_numbers.contains(n@) {
                    old(self)@.big_fibonacci_count
                } else {
                    larger(old(self)@.big_fibonacci_count, doubling_search_top(n@, 1) + 1)
                },
                big_list_numbers: if n@ <= 2 {
                    old(self)@.big_list_numbers
                } else {
                    old(self)@.big_list_numbers.insert(n@)
                },
                ..old(self)@
            }),
    {
        let data_as_zld = self.zeckendorf_list(n);
        proof {
            lemma_zeckendorf_list_of(data_as_zld@, n@);
        }
        let data_as_ezld = zl_to_ezl(data_as_zld.as_slice());
        let data_as_ezba = ezba_from_ezld(data_as_ezld.as_slice());
        pack_ezba_bits_to_bytes(data_as_ezba.as_slice())
    }

    /// Reads packed Zeckendorf bits as the number they stand for.
    pub fn decode(&mut self, compressed: &[u8]) -> (n: Natural)
        requires
            old(self).wf(),
            compressed@.len() <= MAX_COMPRESSED_BYTES,
        ensures
            final(self).wf(),
            n@ == bytes_value(compressed@),
            final(self)@ == (EngineView {
                big_fibonacci_count: dense_reach(
                    raised(ezla_of_bits(unpack_bytes(compressed@))),
                    old(self)@.big_fibonacci_count,
                ),
                ..old(self)@
            }),
    {
        let compressed_data_as_bits = unpack_bytes_to_ezba_bits(compressed);
        proof {
            lemma_ezla_bounds(compressed_data_as_bits@);
        }
        let compressed_data_as_ezla = ezba_to_ezla(compressed_data_as_bits.as_slice());
        let compressed_data_as_zla = ezl_to_zl(compressed_data_as_ezla.as_slice());
        self.list_value(compressed_data_as_zla.as_slice())
    }
}

/// Compresses `data`, read as one big-endian number.
pub fn zeckendorf_compress_be(data: &[u8]) -> (compressed: Vec<u8>)
    requires
        data@.len() <= MAX_NATURAL_BYTES,
    ensures
        compressed@ == zeckendorf_bytes(be_value(data@)),
{
    let mut engine = Engine::new();
    let data_as_bigint = Natural::from_bytes_be(data);
    proof {
        lemma_bytes_fit(data@);
    }
    engine.encode(&data_as_bigint)
}

/// Compresses `data`, read as one little-endian number.
pub fn zeckendorf_compress_le(data: &[u8]) -> (compressed: Vec<u8>)
    requires
        data@.len() <= MAX_NATURAL_BYTES,
    ensures
        compressed@ == zeckendorf_bytes(le_value(data@)),
{
    let mut engine = Engine::new();
    let data_as_bigint = Natural::from_bytes_le(data);
    proof {
        lemma_bytes_fit(data@);
    }
    engine.encode(&data_as_bigint)
}

/// Decompresses to the shortest big-endian bytes of the number that
/// `compressed_data` stands for.
pub fn zeckendorf_decompress_be(compressed_data: &[u8]) -> (data: Vec<u8>)
    requires
        compressed_data@.len() <= MAX_COMPRESSED_BYTES,
    ensures
        data@ == minimal_be_bytes(bytes_value(compressed_data@)),
{
    let mut engine = Engine::new();
    let compressed_data_as_bigint = engine.decode(compressed_data);
    compressed_data_as_bigint.to_bytes_be()
}

/// Decompresses to the shortest little-endian bytes of the number that
/// `compressed_data` stands for.
pub fn zeckendorf_decompress_le(compressed_data: &[u8]) -> (data: Vec<u8>)
    requires
        compressed_data@.len() <= MAX_COMPRESSED_BYTES,
    ensures
        data@ == minimal_le_bytes(bytes_value(compressed_data@)),
{
    let mut engine = Engine::new();
    let compressed_data_as_bigint = engine.decode(compressed_data);
    compressed_data_as_bigint.to_bytes_le()
}

/// Compresses `data` in both byte orders and keeps the shorter output if
/// it is shorter than the input; of two outputs of one length it keeps the
/// little-endian one.
pub fn zeckendorf_compress_best(data: &[u8]) -> (result: CompressionResult)
    requires
        data@.len() <= MAX_NATURAL_BYTES,
    ensures
        is_best_of(
            result,
            data@.len(),
            zeckendorf_bytes(be_value(data@)),
            zeckendorf_bytes(le_value(data@)),
        ),
{
    let input_size = data.len();
    let mut engine = Engine::new();
    proof {
        lemma_bytes_fit(data@);
    }
    let be_compressed = engine.encode(&Natural::from_bytes_be(data));
    let le_compressed = engine.encode(&Natural::from_bytes_le(data));
    let be_size = be_compressed.len();
    let le_size = le_compressed.len();
    if be_size < input_size && be_size < le_size {
        CompressionResult::BigEndianBest { compressed_data: be_compressed, le_size }
    } else if le_size < input_size && le_size <= be_size {
        CompressionResult::LittleEndianBest { compressed_data: le_compressed, be_size }
    } else {
        CompressionResult::Neither { be_size, le_size }
    }
}

/// The sum of the Fibonacci numbers at the indices 2, 4, ..., `2 * count`:
/// the number that `count` use bits stand for.
pub open spec fn all_ones_value(count: nat) -> nat
    decreases count,
{
    if count == 0 {
        0
    } else {
        all_ones_value((count - 1) as nat) + fib(2 * count)
    }
}

/// The number that `n` use bits in a row stand for; 0 for no bit.
pub fn all_ones_zeckendorf_to_bigint(n: usize) -> (value: Natural)
    requires
        n < usize::MAX / 2,
    ensures
        value@ == all_ones_value(n as nat),
{
    if n == 0 {
        return Natural::zero();
    }
    let ezba = vec![1u8; n];
    proof {
        lemma_ezla_bounds(ezba@);
        lemma_all_ones(ezba@);
    }
    let ezla = ezba_to_ezla(ezba.as_slice());
    let zla = ezl_to_zl(ezla.as_slice());
    let mut engine = Engine::new();
    engine.list_value(zla.as_slice())
}

/// The number that a byte sequence writes has no more bytes than the
/// sequence, and one byte if the sequence is empty.
proof fn lemma_bytes_fit(data: Seq<u8>)
    requires
        data.len() <= MAX_NATURAL_BYTES,
    ensures
        byte_length(be_value(data)) <= MAX_NATURAL_BYTES,
        byte_length(le_value(data)) <= MAX_NATURAL_BYTES,
{
    if data.len() > 0 {
        lemma_byte_length_is_least(data);
    }
}

/// Use bits in a row take every second effective index, whose Fibonacci
/// numbers add up to `all_ones_value`.
proof fn lemma_all_ones(bits: Seq<u8>)
    requires
        forall|i: int| 0 <= i < bits.len() ==> bits[i] == 1,
        2 * bits.len() <= u64::MAX,
    ensures
        crate::ezba::efi_after(bits) == 2 * bits.len(),
        zl_value(raised(ezla_of_bits(bits))) == all_ones_value(bits.len()),
    decreases bits.len(),
{
    if bits.len() > 0 {
        let front = bits.drop_last();
        lemma_all_ones(front);
        let taken = ezla_of_bits(front);
        let index = crate::ezba::efi_after(front) as u64;
        assert(raised(taken.push(index)) =~= raised(taken).push((index + 2) as u64));
        lemma_zl_value_push(raised(taken), (index + 2) as u64);
    }
}

/// Reading back what was written gives the number: packed Zeckendorf bits
/// stand for the number they were made from.
pub proof fn lemma_decode_encode(n: nat)
    requires
        n < fib(u64::MAX as nat),
    ensures
        bytes_value(zeckendorf_bytes(n)) == n,
{
    let list = lemma_zeckendorf_exists(n);
    let ezld = lowered(list);
    lemma_lowered_raised(list);
    lemma_unpack_pack_decodes(ezba_of_ezld(ezld));
    lemma_ezba_roundtrip(ezld);
    lemma_zl_value_reverse(list);
}

/// The packed bits of a number are at most twice as many bytes as the
/// number itself.
pub proof fn lemma_zeckendorf_bytes_len(n: nat)
    requires
        byte_length(n) <= MAX_NATURAL_BYTES,
    ensures
        1 <= zeckendorf_bytes(n).len() <= 2 * byte_length(n),
        zeckendorf_bytes(n).len() <= MAX_COMPRESSED_BYTES,
{
    let length = byte_length(n);
    lemma_fib_exceeds_bytes(n);
    lemma_fib_monotonic(16 * length + 1, u64::MAX as nat);
    let list = lemma_zeckendorf_exists(n);
    let ezld = lowered(list);
    if list.len() > 0 {
        lemma_zeckendorf_value_bounds(list);
        if list.first() > 16 * length {
            lemma_fib_monotonic(16 * length + 1, list.first() as nat);
        }
        lemma_ezba_walk_shape(ezld, 0, 0);
    }
}

/// Of the two outputs, the one that `zeckendorf_compress_best` hands out is
/// shorter than the input and no longer than the other; when both are
/// shorter than the input and of one length, it is the little-endian one.
pub proof fn lemma_best_is_shorter(
    result: CompressionResult,
    input_len: nat,
    be: Seq<u8>,
    le: Seq<u8>,
)
    requires
        is_best_of(result, input_len, be, le),
    ensures
        match result {
            CompressionResult::BigEndianBest { compressed_data, le_size } => compressed_data@.len()
                < input_len && compressed_data@.len() < le_size,
            CompressionResult::LittleEndianBest { compressed_data, be_size } => compressed_data@.len()
                < input_len && compressed_data@.len() <= be_size,
            CompressionResult::Neither { be_size, le_size } => be_size >= input_len && le_size
                >= input_len,
        },
        be.len() == le.len() < input_len ==> result is LittleEndianBest,
{
}

/// Skip bits at the end do not change the number that bits stand for, and
/// neither does packing the bits and unpacking them again.
pub proof fn lemma_padding_keeps_value(bits: Seq<u8>, count: nat)
    ensures
        bits_value(bits + skip_bits(count)) == bits_value(bits),
        bytes_value(pack_bits(bits)) == bits_value(bits),
{
    lemma_trailing_skip_bits(bits, count);
    lemma_unpack_pack_decodes(bits);
}

} // verus!
