//! Byte sequences read as natural numbers, most significant byte first or
//! least significant byte first, and the shortest sequence that writes a
//! given number.

use vstd::prelude::*;

verus! {

/// 256 to the power `e`.
pub open spec fn pow256(e: nat) -> nat
    decreases e,
{
    if e == 0 {
        1
    } else {
        256 * pow256((e - 1) as nat)
    }
}

/// The number that `bytes` writes with its most significant byte first.
/// The empty sequence writes 0.
pub open spec fn be_value(bytes: Seq<u8>) -> nat
    decreases bytes.len(),
{
    if bytes.len() == 0 {
        0
    } else {
        256 * be_value(bytes.drop_last()) + bytes.last() as nat
    }
}

/// The number that `bytes` writes with its least significant byte first.
/// The empty sequence writes 0.
pub open spec fn le_value(bytes: Seq<u8>) -> nat
    decreases bytes.len(),
{
    if bytes.len() == 0 {
        0
    } else {
        bytes.first() as nat + 256 * le_value(bytes.drop_first())
    }
}

/// `count` zero bytes.
pub open spec fn zero_bytes(count: nat) -> Seq<u8> {
    Seq::new(count, |i: int| 0u8)
}

/// A big-endian sequence is minimal when it has at least one byte and no
/// leading zero byte that could be left out.
pub open spec fn is_minimal_be(bytes: Seq<u8>) -> bool {
    bytes.len() >= 1 && (bytes.len() > 1 ==> bytes.first() != 0)
}

/// A little-endian sequence is minimal when it has at least one byte and no
/// trailing zero byte that could be left out.
pub open spec fn is_minimal_le(bytes: Seq<u8>) -> bool {
    bytes.len() >= 1 && (bytes.len() > 1 ==> bytes.last() != 0)
}

/// The minimal big-endian sequence that writes `value`; `[0]` for 0.
pub open spec fn minimal_be_bytes(value: nat) -> Seq<u8>
    decreases value,
{
    if value < 256 {
        seq![value as u8]
    } else {
        minimal_be_bytes(value / 256).push((value % 256) as u8)
    }
}

/// The minimal little-endian sequence that writes `value`; `[0]` for 0.
pub open spec fn minimal_le_bytes(value: nat) -> Seq<u8> {
    minimal_be_bytes(value).reverse()
}

/// The number of bytes of the minimal sequences that write `value`.
pub open spec fn byte_length(value: nat) -> nat
    decreases value,
{
    if value < 256 {
        1
    } else {
        1 + byte_length(value / 256)
    }
}

/// Powers of 256 are positive and grow with the exponent.
pub proof fn lemma_pow256_monotonic(a: nat, b: nat)
    requires
        a <= b,
    ensures
        1 <= pow256(a) <= pow256(b),
    decreases b,
{
    if b > 0 {
        if a < b {
            lemma_pow256_monotonic(a, (b - 1) as nat);
        } else {
            lemma_pow256_monotonic((a - 1) as nat, (b - 1) as nat);
        }
    }
}

/// A sequence of `n` bytes writes a number below `256^n`.
pub proof fn lemma_be_value_bound(bytes: Seq<u8>)
    ensures
        be_value(bytes) < pow256(bytes.len()),
    decreases bytes.len(),
{
    if bytes.len() > 0 {
        lemma_be_value_bound(bytes.drop_last());
    }
}

/// Appending one byte multiplies the big-endian value by 256 and adds the byte.
pub proof fn lemma_be_value_push(bytes: Seq<u8>, byte: u8)
    ensures
        be_value(bytes.push(byte)) == 256 * be_value(bytes) + byte as nat,
{
    assert(bytes.push(byte).drop_last() =~= bytes);
}

/// Putting one byte in front adds it at the weight of the old length.
pub proof fn lemma_be_value_prepend(byte: u8, bytes: Seq<u8>)
    ensures
        be_value(seq![byte] + bytes) == byte as nat * pow256(bytes.len()) + be_value(bytes),
    decreases bytes.len(),
{
    if bytes.len() == 0 {
        assert(be_value(seq![byte]) == 256 * be_value(seq![byte].drop_last()) + byte as nat);
        assert(byte as nat * 1 == byte as nat);
    } else {
        lemma_be_value_prepend(byte, bytes.drop_last());
        assert((seq![byte] + bytes).drop_last() =~= seq![byte] + bytes.drop_last());
        let p = pow256((bytes.len() - 1) as nat);
        let b = byte as nat;
        assert(256 * (b * p) == b * (256 * p)) by (nonlinear_arith);
    }
}

/// The little-endian value is the big-endian value of the reversed sequence.
pub proof fn lemma_le_is_reversed_be(bytes: Seq<u8>)
    ensures
        le_value(bytes) == be_value(bytes.reverse()),
    decreases bytes.len(),
{
    if bytes.len() > 0 {
        lemma_le_is_reversed_be(bytes.drop_first());
        assert(bytes.reverse().drop_last() =~= bytes.drop_first().reverse());
    }
}

/// The big-endian value is the little-endian value of the reversed sequence.
pub proof fn lemma_be_is_reversed_le(bytes: Seq<u8>)
    ensures
        be_value(bytes) == le_value(bytes.reverse()),
{
    lemma_le_is_reversed_be(bytes.reverse());
    assert(bytes.reverse().reverse() =~= bytes);
}

/// Two sequences of one length that write the same big-endian number are equal.
pub proof fn lemma_be_value_injective(a: Seq<u8>, b: Seq<u8>)
    requires
        a.len() == b.len(),
        be_value(a) == be_value(b),
    ensures
        a == b,
    decreases a.len(),
{
    if a.len() > 0 {
        lemma_be_value_injective(a.drop_last(), b.drop_last());
        assert(a =~= a.drop_last().push(a.last()));
    }
}

/// Two sequences of one length that write the same little-endian number are equal.
pub proof fn lemma_le_value_injective(a: Seq<u8>, b: Seq<u8>)
    requires
        a.len() == b.len(),
        le_value(a) == le_value(b),
    ensures
        a == b,
{
    lemma_le_is_reversed_be(a);
    lemma_le_is_reversed_be(b);
    lemma_be_value_injective(a.reverse(), b.reverse());
    assert(a =~= a.reverse().reverse());
}

/// Leading zero bytes do not change a big-endian value.
pub proof fn lemma_be_leading_zeros(count: nat, bytes: Seq<u8>)
    ensures
        be_value(zero_bytes(count) + bytes) == be_value(bytes),
    decreases count,
{
    if count > 0 {
        lemma_be_leading_zeros((count - 1) as nat, bytes);
        let rest = zero_bytes((count - 1) as nat) + bytes;
        assert(zero_bytes(count) + bytes =~= seq![0u8] + rest);
        lemma_be_value_prepend(0u8, rest);
    }
}

/// Trailing zero bytes do not change a little-endian value.
pub proof fn lemma_le_trailing_zeros(bytes: Seq<u8>, count: nat)
    ensures
        le_value(bytes + zero_bytes(count)) == le_value(bytes),
{
    lemma_le_is_reversed_be(bytes + zero_bytes(count));
    lemma_le_is_reversed_be(bytes);
    assert((bytes + zero_bytes(count)).reverse() =~= zero_bytes(count) + bytes.reverse());
    lemma_be_leading_zeros(count, bytes.reverse());
}

/// `minimal_be_bytes(v)` is minimal, writes `v`, and has `byte_length(v)` bytes.
pub proof fn lemma_minimal_be_bytes(value: nat)
    ensures
        is_minimal_be(minimal_be_bytes(value)),
        be_value(minimal_be_bytes(value)) == value,
        minimal_be_bytes(value).len() == byte_length(value),
    decreases value,
{
    if value < 256 {
        let s = seq![value as u8];
        assert(be_value(s) == 256 * be_value(s.drop_last()) + s.last() as nat);
    } else {
        let front = minimal_be_bytes(value / 256);
        lemma_minimal_be_bytes(value / 256);
        lemma_be_value_push(front, (value % 256) as u8);
        if front.len() == 1 {
            assert(be_value(front) == 256 * be_value(front.drop_last()) + front.last() as nat);
        }
    }
}

/// A minimal big-endian sequence is the one that `minimal_be_bytes` gives
/// for its value.
pub proof fn lemma_minimal_be_unique(bytes: Seq<u8>)
    requires
        is_minimal_be(bytes),
    ensures
        bytes == minimal_be_bytes(be_value(bytes)),
    decreases bytes.len(),
{
    let front = bytes.drop_last();
    if bytes.len() == 1 {
        assert(be_value(front) == 0);
    } else {
        lemma_minimal_be_unique(front);
    }
}

/// A minimal little-endian sequence is the one that `minimal_le_bytes` gives
/// for its value.
pub proof fn lemma_minimal_le_unique(bytes: Seq<u8>)
    requires
        is_minimal_le(bytes),
    ensures
        bytes == minimal_le_bytes(le_value(bytes)),
{
    lemma_le_is_reversed_be(bytes);
    lemma_minimal_be_unique(bytes.reverse());
}

/// `minimal_le_bytes(v)` is minimal, writes `v`, and has `byte_length(v)` bytes.
pub proof fn lemma_minimal_le_bytes(value: nat)
    ensures
        is_minimal_le(minimal_le_bytes(value)),
        le_value(minimal_le_bytes(value)) == value,
        minimal_le_bytes(value).len() == byte_length(value),
{
    lemma_minimal_be_bytes(value);
    let be = minimal_be_bytes(value);
    lemma_be_is_reversed_le(be);
}

/// No sequence of at least one byte that writes `v` is shorter than
/// `byte_length(v)`, in either byte order.
pub proof fn lemma_byte_length_is_least(bytes: Seq<u8>)
    requires
        bytes.len() >= 1,
    ensures
        byte_length(be_value(bytes)) <= bytes.len(),
        byte_length(le_value(bytes)) <= bytes.len(),
{
    lemma_byte_length_is_least_be(bytes);
    lemma_le_is_reversed_be(bytes);
    lemma_byte_length_is_least_be(bytes.reverse());
}

/// The big-endian half of `lemma_byte_length_is_least`.
proof fn lemma_byte_length_is_least_be(bytes: Seq<u8>)
    requires
        bytes.len() >= 1,
    ensures
        byte_length(be_value(bytes)) <= bytes.len(),
    decreases bytes.len(),
{
    let value = be_value(bytes);
    if value >= 256 {
        let front = bytes.drop_last();
        assert(value / 256 == be_value(front));
        lemma_byte_length_is_least_be(front);
    }
}

/// Every number is below 256 to the power of its byte length.
pub proof fn lemma_byte_length_bound(value: nat)
    ensures
        value < pow256(byte_length(value)),
    decreases value,
{
    if value >= 256 {
        lemma_byte_length_bound(value / 256);
    } else {
        assert(pow256(0) == 1);
    }
}

/// A little-endian sequence splits at any place into a low part and a
/// high part that counts from the weight of that place.
pub proof fn lemma_le_value_split(bytes: Seq<u8>, place: nat)
    requires
        place <= bytes.len(),
    ensures
        le_value(bytes) == le_value(bytes.take(place as int)) + pow256(place) * le_value(
            bytes.skip(place as int),
        ),
    decreases place,
{
    if place == 0 {
        assert(bytes.skip(0) =~= bytes);
        assert(1 * le_value(bytes) == le_value(bytes));
    } else {
        let rest = bytes.drop_first();
        lemma_le_value_split(rest, (place - 1) as nat);
        assert(bytes.take(place as int).drop_first() =~= rest.take(place - 1));
        assert(bytes.skip(place as int) =~= rest.skip(place - 1));
        let p = pow256((place - 1) as nat);
        let high = le_value(bytes.skip(place as int));
        assert(256 * (p * high) == (256 * p) * high) by (nonlinear_arith);
    }
}

/// The lowest `place` bytes of a little-endian sequence write the number
/// modulo `256^place`.
pub proof fn lemma_le_value_low_bytes(bytes: Seq<u8>, place: nat)
    requires
        place <= bytes.len(),
    ensures
        le_value(bytes.take(place as int)) == le_value(bytes) % pow256(place),
{
    lemma_le_value_split(bytes, place);
    let low = le_value(bytes.take(place as int));
    let high = le_value(bytes.skip(place as int));
    let p = pow256(place);
    lemma_le_is_reversed_be(bytes.take(place as int));
    lemma_be_value_bound(bytes.take(place as int).reverse());
    assert((low + p * high) % p == low) by (nonlinear_arith)
        requires
            0 <= low < p,
            0 <= high,
    ;
}

/// The powers of 256 up to the eighth.
pub proof fn lemma_pow256_values()
    ensures
        pow256(0) == 1,
        pow256(1) == 0x100,
        pow256(2) == 0x1_0000,
        pow256(3) == 0x100_0000,
        pow256(4) == 0x1_0000_0000,
        pow256(5) == 0x100_0000_0000,
        pow256(6) == 0x1_0000_0000_0000,
        pow256(7) == 0x100_0000_0000_0000,
        pow256(8) == 0x1_0000_0000_0000_0000,
{
}

/// The numbers of at most eight bytes are those that fit in 64 bits.
pub proof fn lemma_byte_length_u64(value: nat)
    ensures
        byte_length(value) <= 8 <==> value <= u64::MAX,
{
    reveal_with_fuel(byte_length, 10);
}

} // verus!
