//! Effective Zeckendorf bits, and their packing into bytes.
//!
//! A bit sequence is read from its start with a running effective index
//! that starts at 0. A use bit (1) takes the running index into the list and
//! moves it on by 2; any other bit is a skip bit, which takes nothing and
//! moves it on by 1. Since a use bit always steps over the next index, no
//! bit sequence can ask for two neighbouring indices.
//!
//! Bits are packed eight to a byte, the first bit of a group in the least
//! significant place, and a last group of fewer than eight is filled up
//! with skip bits.

use vstd::prelude::*;
use crate::bits::pow2;
use crate::zeckendorf::is_effective_zeckendorf_descending;

verus! {

/// The bit that takes the running index into the list.
pub const USE_BIT: u8 = 1;

/// The bit that passes the running index over.
pub const SKIP_BIT: u8 = 0;

/// The running effective index after `bits` have been read.
pub open spec fn efi_after(bits: Seq<u8>) -> nat
    decreases bits.len(),
{
    if bits.len() == 0 {
        0
    } else if bits.last() == USE_BIT {
        efi_after(bits.drop_last()) + 2
    } else {
        efi_after(bits.drop_last()) + 1
    }
}

/// The effective indices that `bits` takes, in ascending order.
pub open spec fn ezla_of_bits(bits: Seq<u8>) -> Seq<u64>
    decreases bits.len(),
{
    if bits.len() == 0 {
        Seq::empty()
    } else if bits.last() == USE_BIT {
        ezla_of_bits(bits.drop_last()).push(efi_after(bits.drop_last()) as u64)
    } else {
        ezla_of_bits(bits.drop_last())
    }
}

/// How many effective indices from `efi` on may still get a bit, and one
/// more.
pub open spec fn indices_left(ezld: Seq<u64>, efi: nat) -> nat {
    if ezld.len() == 0 || efi > ezld[0] + 1 {
        0
    } else {
        (ezld[0] + 2 - efi) as nat
    }
}

/// The bits written from the running index `efi` on, when `taken` entries
/// of the list have been written already. The list descends; its entries
/// are looked at from its end, and its first entry is the last index that
/// gets a bit.
pub open spec fn ezba_walk(ezld: Seq<u64>, taken: nat, efi: nat) -> Seq<u8>
    decreases indices_left(ezld, efi),
{
    if ezld.len() == 0 || efi > ezld.first() {
        Seq::empty()
    } else if taken < ezld.len() && ezld[ezld.len() - 1 - taken] == efi {
        seq![USE_BIT] + ezba_walk(ezld, taken + 1, efi + 2)
    } else {
        seq![SKIP_BIT] + ezba_walk(ezld, taken, efi + 1)
    }
}

/// The bits that write a descending effective list: one skip bit for the
/// empty list, and else the walk from index 0 with nothing taken.
pub open spec fn ezba_of_ezld(ezld: Seq<u64>) -> Seq<u8> {
    if ezld.len() == 0 {
        seq![SKIP_BIT]
    } else {
        ezba_walk(ezld, 0, 0)
    }
}

/// `count` skip bits.
pub open spec fn skip_bits(count: nat) -> Seq<u8> {
    Seq::new(count, |i: int| SKIP_BIT)
}

/// Every bit as what it counts for: a use bit as 1, anything else as 0.
pub open spec fn as_use_or_skip(bits: Seq<u8>) -> Seq<u8> {
    Seq::new(
        bits.len(),
        |i: int|
            if bits[i] == USE_BIT {
                USE_BIT
            } else {
                SKIP_BIT
            },
    )
}

/// Up to eight bits read as a binary number, the first bit in the least
/// significant place; a bit that is not a use bit counts as 0.
pub open spec fn byte_of_bits(chunk: Seq<u8>) -> nat
    decreases chunk.len(),
{
    if chunk.len() == 0 {
        0
    } else if chunk.first() == USE_BIT {
        1 + 2 * byte_of_bits(chunk.drop_first())
    } else {
        2 * byte_of_bits(chunk.drop_first())
    }
}

/// The `j`-th group of eight bits; the last group may be shorter.
pub open spec fn chunk_of(bits: Seq<u8>, j: int) -> Seq<u8> {
    bits.subrange(
        8 * j,
        if 8 * j + 8 <= bits.len() {
            8 * j + 8
        } else {
            bits.len() as int
        },
    )
}

/// The number of bytes that `count` bits are packed into.
pub open spec fn packed_len(count: nat) -> nat {
    (count + 7) / 8
}

/// The bytes that `bits` are packed into.
pub open spec fn pack_bits(bits: Seq<u8>) -> Seq<u8> {
    Seq::new(packed_len(bits.len()), |j: int| byte_of_bits(chunk_of(bits, j)) as u8)
}

/// The bits of `bytes`, eight for each byte, least significant first.
pub open spec fn unpack_bytes(bytes: Seq<u8>) -> Seq<u8> {
    Seq::new(8 * bytes.len(), |k: int| (bytes[k / 8] >> ((k % 8) as u8)) & 1u8)
}

/// Writes a descending effective list as bits: for each effective index
/// from 0 up to the list's first entry, a use bit if the index is the next
/// entry from the list's end, and then the index after it gets no bit;
/// a skip bit otherwise. The empty list is written as one skip bit.
pub fn ezba_from_ezld(effective_zeckendorf_list_descending: &[u64]) -> (bits: Vec<u8>)
    ensures
        bits@ == ezba_of_ezld(effective_zeckendorf_list_descending@),
{
    let ezld = effective_zeckendorf_list_descending;
    let mut bits: Vec<u8> = Vec::new();
    if ezld.len() == 0 {
        bits.push(SKIP_BIT);
        return bits;
    }
    let count = ezld.len();
    let max_efi = ezld[0];
    let mut taken: usize = 0;
    let mut current_efi: u64 = 0;
    loop
        invariant_except_break
            taken < count,
            current_efi <= max_efi,
            bits@ + ezba_walk(ezld@, taken as nat, current_efi as nat) == ezba_of_ezld(ezld@),
        invariant
            count == ezld@.len(),
            count > 0,
            max_efi == ezld@.first(),
        ensures
            bits@ == ezba_of_ezld(ezld@),
        decreases max_efi - current_efi,
    {
        let ghost rest = ezba_walk(ezld@, taken as nat, current_efi as nat);
        let step: u64;
        if ezld[count - 1 - taken] == current_efi {
            bits.push(USE_BIT);
            taken = taken + 1;
            step = 2;
        } else {
            bits.push(SKIP_BIT);
            step = 1;
        }
        proof {
            assert(rest == seq![bits@.last()] + ezba_walk(
                ezld@,
                taken as nat,
                (current_efi + step) as nat,
            ));
        }
        if max_efi - current_efi < step {
            break ;
        }
        current_efi = current_efi + step;
    }
    bits
}

/// Reads bits as the ascending effective list that they take: the running
/// index starts at 0, a use bit takes it and moves it on by 2, any other
/// bit moves it on by 1.
pub fn ezba_to_ezla(ezba_bits: &[u8]) -> (ezla: Vec<u64>)
    requires
        ezba_bits@.len() <= u64::MAX / 2,
    ensures
        ezla@ == ezla_of_bits(ezba_bits@),
{
    let mut ezla: Vec<u64> = Vec::new();
    let mut current_efi: u64 = 0;
    let mut place: usize = 0;
    while place < ezba_bits.len()
        invariant
            place <= ezba_bits@.len() <= u64::MAX / 2,
            current_efi == efi_after(ezba_bits@.take(place as int)),
            current_efi <= 2 * place,
            ezla@ == ezla_of_bits(ezba_bits@.take(place as int)),
        decreases ezba_bits@.len() - place,
    {
        proof {
            assert(ezba_bits@.take(place + 1).drop_last() =~= ezba_bits@.take(place as int));
        }
        if ezba_bits[place] == USE_BIT {
            ezla.push(current_efi);
            current_efi = current_efi + 2;
        } else {
            current_efi = current_efi + 1;
        }
        place = place + 1;
    }
    proof {
        assert(ezba_bits@.take(place as int) =~= ezba_bits@);
    }
    ezla
}

/// Packs bits into bytes, eight to a byte: bit `i` of a group goes to
/// place `i` of its byte, counted from the least significant. A last group
/// of fewer than eight bits leaves the high places of its byte 0. A bit
/// that is not a use bit is packed as 0.
pub fn pack_ezba_bits_to_bytes(ezba: &[u8]) -> (bytes: Vec<u8>)
    ensures
        bytes@ == pack_bits(ezba@),
{
    let count = ezba.len();
    let mut out: Vec<u8> = Vec::with_capacity(count / 8 + 1);
    let mut start: usize = 0;
    while start < count
        invariant
            count == ezba@.len(),
            start <= count,
            start == count || start == 8 * out.len(),
            out.len() == packed_len(start as nat),
            forall|j: int|
                0 <= j < out.len() ==> #[trigger] out[j] == byte_of_bits(chunk_of(ezba@, j)) as u8,
        decreases count - start,
    {
        let end = if count - start >= 8 {
            start + 8
        } else {
            count
        };
        let ghost chunk = chunk_of(ezba@, out.len() as int);
        let mut b: u8 = 0;
        let mut i: usize = 0;
        while i < end - start
            invariant
                count == ezba@.len(),
                start < end <= count,
                end - start <= 8,
                i <= end - start,
                chunk == ezba@.subrange(start as int, end as int),
                b == byte_of_bits(chunk.take(i as int)),
            decreases end - start - i,
        {
            proof {
                lemma_byte_of_bits_push(chunk.take(i as int), chunk[i as int]);
                assert(chunk.take(i + 1) =~= chunk.take(i as int).push(chunk[i as int]));
                lemma_set_bit(b, i as u8);
            }
            if ezba[start + i] == 1 {
                b = b | (1u8 << i);
            }
            i = i + 1;
        }
        proof {
            assert(chunk.take(i as int) =~= chunk);
        }
        out.push(b);
        start = end;
    }
    out
}

/// Unpacks bytes into bits, eight for each byte, the least significant bit
/// of a byte first.
pub fn unpack_bytes_to_ezba_bits(bytes: &[u8]) -> (bits: Vec<u8>)
    requires
        bytes@.len() * 8 <= usize::MAX,
    ensures
        bits@ == unpack_bytes(bytes@),
{
    let mut ezba_bits: Vec<u8> = Vec::with_capacity(bytes.len() * 8);
    let mut place: usize = 0;
    while place < bytes.len()
        invariant
            place <= bytes@.len(),
            bytes@.len() * 8 <= usize::MAX,
            ezba_bits@ == unpack_bytes(bytes@.take(place as int)),
        decreases bytes@.len() - place,
    {
        let byte = bytes[place];
        let ghost before = ezba_bits@;
        let mut i: u8 = 0;
        while i < 8
            invariant
                i <= 8,
                place < bytes@.len(),
                byte == bytes@[place as int],
                ezba_bits@.len() == before.len() + i,
                before == unpack_bytes(bytes@.take(place as int)),
                forall|k: int| 0 <= k < before.len() ==> ezba_bits@[k] == before[k],
                forall|k: int|
                    0 <= k < i ==> #[trigger] ezba_bits@[before.len() + k] == (byte >> (
                    k as u8)) & 1u8,
            decreases 8 - i,
        {
            ezba_bits.push((byte >> i) & 1);
            i = i + 1;
        }
        proof {
            let next = unpack_bytes(bytes@.take(place + 1));
            assert forall|k: int| 0 <= k < next.len() implies ezba_bits@[k] == next[k] by {
                let shorter = bytes@.take(place as int);
                if k < before.len() {
                    assert(before[k] == (shorter[k / 8] >> ((k % 8) as u8)) & 1u8);
                } else {
                    let offset = k - before.len();
                    assert(ezba_bits@[before.len() + offset] == (byte >> (offset as u8)) & 1u8);
                }
            }
        }
        place = place + 1;
    }
    ezba_bits
}

/// The powers of two up to the eighth.
proof fn lemma_pow2_values()
    ensures
        pow2(0) == 1,
        pow2(1) == 2,
        pow2(2) == 4,
        pow2(3) == 8,
        pow2(4) == 16,
        pow2(5) == 32,
        pow2(6) == 64,
        pow2(7) == 128,
        pow2(8) == 256,
{
    reveal_with_fuel(pow2, 10);
}

/// Setting a bit above all the bits that are set adds its weight.
proof fn lemma_set_bit(b: u8, i: u8)
    requires
        i < 8,
        b < pow2(i as nat),
    ensures
        (b | (1u8 << i)) == b + pow2(i as nat),
{
    lemma_pow2_values();
    assert(i < 8 && b < (1u8 << i) ==> (b | (1u8 << i)) == b + (1u8 << i)) by (bit_vector);
    assert(1u8 << 0u8 == 1 && 1u8 << 1u8 == 2 && 1u8 << 2u8 == 4 && 1u8 << 3u8 == 8 && 1u8 << 4u8
        == 16 && 1u8 << 5u8 == 32 && 1u8 << 6u8 == 64 && 1u8 << 7u8 == 128) by (bit_vector);
}

/// A group of `n` bits reads as a number below `2^n`.
pub proof fn lemma_byte_of_bits_bound(chunk: Seq<u8>)
    ensures
        byte_of_bits(chunk) < pow2(chunk.len()),
    decreases chunk.len(),
{
    if chunk.len() > 0 {
        lemma_byte_of_bits_bound(chunk.drop_first());
    }
}

/// One more bit at the end of a group adds its weight if it is a use bit.
pub proof fn lemma_byte_of_bits_push(chunk: Seq<u8>, bit: u8)
    ensures
        byte_of_bits(chunk.push(bit)) == byte_of_bits(chunk) + if bit == USE_BIT {
            pow2(chunk.len())
        } else {
            0
        },
        byte_of_bits(chunk) < pow2(chunk.len()),
    decreases chunk.len(),
{
    let longer = chunk.push(bit);
    if chunk.len() == 0 {
        assert(byte_of_bits(longer.drop_first()) == 0);
    } else {
        lemma_byte_of_bits_push(chunk.drop_first(), bit);
        assert(longer.drop_first() =~= chunk.drop_first().push(bit));
    }
}

/// Bit `i` of the byte that a group is packed into is 1 exactly when the
/// group has a use bit at place `i`.
pub proof fn lemma_bit_of_packed_byte(chunk: Seq<u8>, i: nat)
    requires
        chunk.len() <= 8,
        i < 8,
    ensures
        byte_of_bits(chunk) < 256,
        ((byte_of_bits(chunk) as u8) >> (i as u8)) & 1u8 == if i < chunk.len() && chunk[i as int]
            == USE_BIT {
            1u8
        } else {
            0u8
        },
    decreases i,
{
    lemma_byte_of_bits_bound(chunk);
    lemma_pow2_values();
    assert(pow2(chunk.len()) <= 256);
    let v = byte_of_bits(chunk) as u8;
    let s = i as u8;
    if chunk.len() == 0 {
        assert(s < 8 ==> (0u8 >> s) & 1u8 == 0u8) by (bit_vector);
    } else {
        let rest = chunk.drop_first();
        if i == 0 {
            assert((v >> 0u8) & 1u8 == v % 2) by (bit_vector);
        } else {
            lemma_bit_of_packed_byte(rest, (i - 1) as nat);
            assert(0 < s < 8 ==> (v >> s) & 1u8 == ((v / 2) >> ((s - 1) as u8)) & 1u8)
                by (bit_vector);
        }
    }
}

/// Unpacking what was packed gives the bits back, each as what it counts
/// for, and after them the skip bits that filled up the last byte.
pub proof fn lemma_unpack_pack(bits: Seq<u8>)
    ensures
        unpack_bytes(pack_bits(bits)) == as_use_or_skip(bits) + skip_bits(
            (8 * packed_len(bits.len()) - bits.len()) as nat,
        ),
{
    let packed = pack_bits(bits);
    let unpacked = unpack_bytes(packed);
    let expected = as_use_or_skip(bits) + skip_bits(
        (8 * packed_len(bits.len()) - bits.len()) as nat,
    );
    assert forall|k: int| 0 <= k < unpacked.len() implies unpacked[k] == expected[k] by {
        let j = k / 8;
        let i = (k % 8) as nat;
        let chunk = chunk_of(bits, j);
        lemma_bit_of_packed_byte(chunk, i);
    }
}

/// Reading bits as what they count for takes the same indices.
pub proof fn lemma_as_use_or_skip_decodes(bits: Seq<u8>)
    ensures
        efi_after(as_use_or_skip(bits)) == efi_after(bits),
        ezla_of_bits(as_use_or_skip(bits)) == ezla_of_bits(bits),
    decreases bits.len(),
{
    if bits.len() > 0 {
        lemma_as_use_or_skip_decodes(bits.drop_last());
        assert(as_use_or_skip(bits).drop_last() =~= as_use_or_skip(bits.drop_last()));
    }
}

/// Skip bits at the end take nothing: the list read is the same with them
/// and without.
pub proof fn lemma_trailing_skip_bits(bits: Seq<u8>, count: nat)
    ensures
        ezla_of_bits(bits + skip_bits(count)) == ezla_of_bits(bits),
    decreases count,
{
    if count > 0 {
        lemma_trailing_skip_bits(bits, (count - 1) as nat);
        let padded = bits + skip_bits(count);
        assert(padded.drop_last() =~= bits + skip_bits((count - 1) as nat));
    }
}

/// Packing and unpacking does not change the list that bits are read as.
pub proof fn lemma_unpack_pack_decodes(bits: Seq<u8>)
    ensures
        ezla_of_bits(unpack_bytes(pack_bits(bits))) == ezla_of_bits(bits),
{
    lemma_unpack_pack(bits);
    lemma_trailing_skip_bits(
        as_use_or_skip(bits),
        (8 * packed_len(bits.len()) - bits.len()) as nat,
    );
    lemma_as_use_or_skip_decodes(bits);
}

/// The walk from a state that a prefix of bits has reached, put after that
/// prefix, reads as the whole list in ascending order.
proof fn lemma_walk_decodes(ezld: Seq<u64>, taken: nat, efi: nat, prefix: Seq<u8>)
    requires
        is_effective_zeckendorf_descending(ezld),
        ezld.len() > 0,
        taken <= ezld.len(),
        efi_after(prefix) == efi,
        ezla_of_bits(prefix) == ezld.reverse().take(taken as int),
        taken < ezld.len() ==> efi <= ezld.reverse()[taken as int],
        taken == ezld.len() ==> efi > ezld.first(),
    ensures
        ezla_of_bits(prefix + ezba_walk(ezld, taken, efi)) == ezld.reverse(),
    decreases indices_left(ezld, efi),
{
    let ascending = ezld.reverse();
    if efi > ezld.first() {
        if taken < ezld.len() {
            assert(ezld[0] >= ascending[taken as int]);
        }
    } else if taken < ezld.len() && ezld[ezld.len() - 1 - taken] == efi {
        let next = prefix.push(USE_BIT);
        assert(next.drop_last() =~= prefix);
        assert(ezla_of_bits(next) =~= ascending.take(taken as int + 1));
        lemma_walk_decodes(ezld, taken + 1, efi + 2, next);
        assert(prefix + ezba_walk(ezld, taken, efi) =~= next + ezba_walk(ezld, taken + 1, efi + 2));
    } else {
        let next = prefix.push(SKIP_BIT);
        assert(next.drop_last() =~= prefix);
        lemma_walk_decodes(ezld, taken, efi + 1, next);
        assert(prefix + ezba_walk(ezld, taken, efi) =~= next + ezba_walk(ezld, taken, efi + 1));
    }
}

/// Writing an effective list as bits and reading the bits gives the list
/// back, in ascending order.
pub proof fn lemma_ezba_roundtrip(ezld: Seq<u64>)
    requires
        is_effective_zeckendorf_descending(ezld),
    ensures
        ezla_of_bits(ezba_of_ezld(ezld)) == ezld.reverse(),
{
    if ezld.len() == 0 {
        let bits = seq![SKIP_BIT];
        assert(ezla_of_bits(bits.drop_last()) =~= Seq::<u64>::empty());
    } else {
        let empty = Seq::<u8>::empty();
        assert(ezld.reverse().take(0) =~= Seq::<u64>::empty());
        lemma_walk_decodes(ezld, 0, 0, empty);
    }
}

/// The bits that write a list are use bits and skip bits, and there are at
/// most as many of them as the list's first entry plus one.
pub proof fn lemma_ezba_walk_shape(ezld: Seq<u64>, taken: nat, efi: nat)
    ensures
        ezba_walk(ezld, taken, efi).len() <= indices_left(ezld, efi),
        forall|i: int|
            0 <= i < ezba_walk(ezld, taken, efi).len() ==> #[trigger] ezba_walk(
                ezld,
                taken,
                efi,
            )[i] <= 1,
    decreases indices_left(ezld, efi),
{
    if ezld.len() == 0 || efi > ezld.first() {
    } else if taken < ezld.len() && ezld[ezld.len() - 1 - taken] == efi {
        lemma_ezba_walk_shape(ezld, taken + 1, efi + 2);
    } else {
        lemma_ezba_walk_shape(ezld, taken, efi + 1);
    }
}

/// The running index moves on by at most 2 for each bit, and every index
/// taken is at least 2 below where the running index ends.
pub proof fn lemma_ezla_bounds(bits: Seq<u8>)
    requires
        2 * bits.len() <= u64::MAX,
    ensures
        efi_after(bits) <= 2 * bits.len(),
        ezla_of_bits(bits).len() <= bits.len(),
        forall|i: int|
            0 <= i < ezla_of_bits(bits).len() ==> #[trigger] ezla_of_bits(bits)[i] + 2
                <= efi_after(bits),
    decreases bits.len(),
{
    if bits.len() > 0 {
        lemma_ezla_bounds(bits.drop_last());
    }
}

/// Unpacking what use bits and skip bits were packed into gives the same
/// bits, filled up with skip bits to a multiple of eight; never fewer bits
/// than went in; and bits that are read as the same list.
pub proof fn lemma_unpack_pack_of_bits(bits: Seq<u8>)
    requires
        forall|i: int| 0 <= i < bits.len() ==> bits[i] <= 1,
    ensures
        unpack_bytes(pack_bits(bits)) == bits + skip_bits(
            (8 * packed_len(bits.len()) - bits.len()) as nat,
        ),
        unpack_bytes(pack_bits(bits)).len() % 8 == 0,
        bits.len() <= unpack_bytes(pack_bits(bits)).len() < bits.len() + 8,
        ezla_of_bits(unpack_bytes(pack_bits(bits))) == ezla_of_bits(bits),
{
    lemma_unpack_pack(bits);
    lemma_unpack_pack_decodes(bits);
}

} // verus!
