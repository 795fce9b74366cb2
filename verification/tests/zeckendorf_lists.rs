use zeck::all_ones_zeckendorf_to_bigint;
use zeck::efi_to_fi;
use zeck::efi_to_fi_bigint;
use zeck::efi_to_fi_ref;
use zeck::ezba_from_ezld;
use zeck::ezba_to_ezla;
use zeck::ezl_to_zl;
use zeck::fi_to_efi;
use zeck::fi_to_efi_bigint;
use zeck::fi_to_efi_ref;
use zeck::memoized_slow_fibonacci_recursive;
use zeck::memoized_zeckendorf_list_descending_for_bigint;
use zeck::memoized_zeckendorf_list_descending_for_integer;
use zeck::pack_ezba_bits_to_bytes;
use zeck::unpack_bytes_to_ezba_bits;
use zeck::zl_to_bigint;
use zeck::zl_to_ezl;
use zeck::Engine;
use zeck::Natural;

fn first_lists() -> Vec<Vec<u64>> {
    vec![
        vec![],
        vec![2],
        vec![3],
        vec![4],
        vec![4, 2],
        vec![5],
        vec![5, 2],
        vec![5, 3],
        vec![6],
        vec![6, 2],
        vec![6, 3],
    ]
}

#[test]
fn zeckendorf_lists_of_first_integers() {
    let expected = first_lists();
    for n in 0..11u64 {
        assert_eq!(memoized_zeckendorf_list_descending_for_integer(n), expected[n as usize]);
    }
}

#[test]
fn zeckendorf_lists_of_first_naturals() {
    let expected = first_lists();
    for n in 0..11u64 {
        let number = Natural::from_u64(n);
        assert_eq!(memoized_zeckendorf_list_descending_for_bigint(&number), expected[n as usize]);
    }
}

#[test]
fn zeckendorf_list_sums_to_its_number_without_neighbours() {
    let mut engine = Engine::new();
    for n in 0..3000u64 {
        let list = engine.zeckendorf_list_u64(n);
        let mut sum: u64 = 0;
        for index in list.iter() {
            assert!(*index >= 2);
            sum += memoized_slow_fibonacci_recursive(*index);
        }
        assert_eq!(sum, n);
        for pair in list.windows(2) {
            assert!(pair[0] >= pair[1] + 2);
        }
        let big = engine.zeckendorf_list(&Natural::from_u64(n));
        assert_eq!(big, list);
    }
}

#[test]
fn zeckendorf_list_of_larger_numbers() {
    assert_eq!(memoized_zeckendorf_list_descending_for_integer(100), vec![11, 6, 4]);
    assert_eq!(
        memoized_zeckendorf_list_descending_for_integer(1_000_000),
        vec![30, 26, 24, 12, 10]
    );
    assert_eq!(
        memoized_zeckendorf_list_descending_for_bigint(&Natural::from_u64(1_000_000)),
        vec![30, 26, 24, 12, 10]
    );
}

#[test]
fn zeckendorf_list_of_largest_machine_word_input() {
    assert_eq!(memoized_zeckendorf_list_descending_for_integer(10610209857723), vec![64]);
    assert_eq!(memoized_zeckendorf_list_descending_for_integer(10610209857722).len(), 31);
}

#[test]
fn zeckendorf_list_of_a_natural_beyond_machine_words() {
    let number = Natural::from_bytes_be(&[1, 0, 0, 0, 0, 0, 0, 0, 0, 0, 0, 0, 0]);
    let list = memoized_zeckendorf_list_descending_for_bigint(&number);
    for pair in list.windows(2) {
        assert!(pair[0] >= pair[1] + 2);
    }
    assert_eq!(zl_to_bigint(&list), number);
}

#[test]
fn engine_remembers_lists() {
    let mut engine = Engine::new();
    let number = Natural::from_u64(123_456_789);
    let first = engine.zeckendorf_list(&number);
    let second = engine.zeckendorf_list(&number);
    assert_eq!(first, second);
    let small_first = engine.zeckendorf_list_u64(123_456_789);
    let small_second = engine.zeckendorf_list_u64(123_456_789);
    assert_eq!(small_first, small_second);
    assert_eq!(first, small_first);
    assert_eq!(engine.list_value(&first), number);
}

#[test]
fn index_conversions() {
    assert_eq!(efi_to_fi(0), 2);
    assert_eq!(efi_to_fi(1), 3);
    assert_eq!(efi_to_fi(2), 4);
    assert_eq!(efi_to_fi(u64::MAX - 2), u64::MAX);
    assert_eq!(efi_to_fi_ref(&0), 2);
    assert_eq!(efi_to_fi_ref(&1), 3);
    assert_eq!(efi_to_fi_ref(&2), 4);
    assert_eq!(fi_to_efi(2), 0);
    assert_eq!(fi_to_efi(3), 1);
    assert_eq!(fi_to_efi(4), 2);
    assert_eq!(fi_to_efi_ref(&2), 0);
    assert_eq!(fi_to_efi_ref(&3), 1);
    assert_eq!(fi_to_efi_ref(&4), 2);
}

#[test]
fn index_conversions_of_naturals() {
    assert_eq!(efi_to_fi_bigint(Natural::zero()), Natural::from_u64(2));
    assert_eq!(efi_to_fi_bigint(Natural::one()), Natural::from_u64(3));
    assert_eq!(efi_to_fi_bigint(Natural::from_u64(2)), Natural::from_u64(4));
    assert_eq!(fi_to_efi_bigint(Natural::from_u64(2)), Natural::zero());
    assert_eq!(fi_to_efi_bigint(Natural::from_u64(3)), Natural::one());
    assert_eq!(fi_to_efi_bigint(Natural::from_u64(4)), Natural::from_u64(2));
}

#[test]
fn list_conversions() {
    assert_eq!(zl_to_ezl(&[2]), vec![0]);
    assert_eq!(zl_to_ezl(&[3]), vec![1]);
    assert_eq!(zl_to_ezl(&[4]), vec![2]);
    assert_eq!(zl_to_ezl(&[6, 4, 2]), vec![4, 2, 0]);
    assert_eq!(zl_to_ezl(&[]), Vec::<u64>::new());
    assert_eq!(ezl_to_zl(&[0]), vec![2]);
    assert_eq!(ezl_to_zl(&[1]), vec![3]);
    assert_eq!(ezl_to_zl(&[2]), vec![4]);
    assert_eq!(ezl_to_zl(&[0, 2, 4]), vec![2, 4, 6]);
}

#[test]
fn bits_from_effective_lists() {
    assert_eq!(ezba_from_ezld(&[]), vec![0]);
    assert_eq!(ezba_from_ezld(&[0]), vec![1]);
    assert_eq!(ezba_from_ezld(&[1]), vec![0, 1]);
    assert_eq!(ezba_from_ezld(&[2]), vec![0, 0, 1]);
    assert_eq!(ezba_from_ezld(&[2, 0]), vec![1, 1]);
    assert_eq!(ezba_from_ezld(&[3]), vec![0, 0, 0, 1]);
    assert_eq!(ezba_from_ezld(&[5, 3, 0]), vec![1, 0, 1, 1]);
}

#[test]
fn bits_from_lists_that_are_no_zeckendorf_lists() {
    assert_eq!(ezba_from_ezld(&[1, 0]), vec![1]);
    assert_eq!(ezba_from_ezld(&[3, 5]), vec![0, 0, 0, 0]);
    assert_eq!(ezba_from_ezld(&[2, 2]), vec![0, 0, 1]);
}

#[test]
fn effective_lists_from_bits() {
    assert_eq!(ezba_to_ezla(&[0, 0, 0, 0, 0, 0, 0, 0]), Vec::<u64>::new());
    assert_eq!(ezba_to_ezla(&[1, 0, 0, 0, 0, 0, 0, 0]), vec![0]);
    assert_eq!(ezba_to_ezla(&[1, 1, 1, 0, 0, 0, 0, 0]), vec![0, 2, 4]);
    assert_eq!(ezba_to_ezla(&[]), Vec::<u64>::new());
    assert_eq!(ezba_to_ezla(&[0, 1, 0, 1]), vec![1, 4]);
    assert_eq!(ezba_to_ezla(&[2, 1, 7]), vec![1]);
}

#[test]
fn bits_and_lists_are_inverse() {
    for n in 0..2000u64 {
        let list = memoized_zeckendorf_list_descending_for_integer(n);
        let effective = zl_to_ezl(&list);
        let bits = ezba_from_ezld(&effective);
        let mut ascending = ezba_to_ezla(&bits);
        ascending.reverse();
        assert_eq!(ascending, effective);
        if n > 0 {
            assert_eq!(*bits.last().unwrap(), 1);
        }
    }
}

#[test]
fn packing_bits() {
    assert_eq!(pack_ezba_bits_to_bytes(&[0]), vec![0]);
    assert_eq!(pack_ezba_bits_to_bytes(&[1]), vec![1]);
    assert_eq!(pack_ezba_bits_to_bytes(&[0, 1]), vec![0b10]);
    assert_eq!(pack_ezba_bits_to_bytes(&[0, 0, 1]), vec![0b100]);
    assert_eq!(pack_ezba_bits_to_bytes(&[1, 1]), vec![0b11]);
    assert_eq!(pack_ezba_bits_to_bytes(&[]), Vec::<u8>::new());
    assert_eq!(pack_ezba_bits_to_bytes(&[1, 1, 1, 1, 1, 1, 1, 1]), vec![255]);
    assert_eq!(pack_ezba_bits_to_bytes(&[0, 0, 0, 0, 0, 0, 0, 0, 1]), vec![0, 1]);
    assert_eq!(pack_ezba_bits_to_bytes(&[0, 0, 0, 0, 0, 0, 0, 1]), vec![128]);
}

#[test]
fn packing_counts_only_use_bits() {
    assert_eq!(pack_ezba_bits_to_bytes(&[2, 1, 3]), vec![0b10]);
}

#[test]
fn unpacking_bytes() {
    assert_eq!(unpack_bytes_to_ezba_bits(&[0]), vec![0, 0, 0, 0, 0, 0, 0, 0]);
    assert_eq!(unpack_bytes_to_ezba_bits(&[1]), vec![1, 0, 0, 0, 0, 0, 0, 0]);
    assert_eq!(unpack_bytes_to_ezba_bits(&[0b111]), vec![1, 1, 1, 0, 0, 0, 0, 0]);
    assert_eq!(
        unpack_bytes_to_ezba_bits(&[1, 1]),
        vec![1, 0, 0, 0, 0, 0, 0, 0, 1, 0, 0, 0, 0, 0, 0, 0]
    );
    assert_eq!(unpack_bytes_to_ezba_bits(&[]), Vec::<u8>::new());
    assert_eq!(unpack_bytes_to_ezba_bits(&[0x80]), vec![0, 0, 0, 0, 0, 0, 0, 1]);
}

#[test]
fn unpacking_what_was_packed_pads_with_skip_bits() {
    let bits: Vec<u8> = vec![1, 0, 1, 0, 0, 1, 0, 1, 0, 1, 1];
    let unpacked = unpack_bytes_to_ezba_bits(&pack_ezba_bits_to_bytes(&bits));
    assert_eq!(unpacked.len(), 16);
    assert_eq!(&unpacked[..11], &bits[..]);
    assert_eq!(&unpacked[11..], &[0, 0, 0, 0, 0]);
    assert_eq!(ezba_to_ezla(&unpacked), ezba_to_ezla(&bits));
}

#[test]
fn value_of_lists() {
    assert_eq!(zl_to_bigint(&[]), Natural::zero());
    assert_eq!(zl_to_bigint(&[0]), Natural::zero());
    assert_eq!(zl_to_bigint(&[1]), Natural::one());
    assert_eq!(zl_to_bigint(&[2]), Natural::one());
    assert_eq!(zl_to_bigint(&[3]), Natural::from_u64(2));
    assert_eq!(zl_to_bigint(&[4]), Natural::from_u64(3));
    assert_eq!(zl_to_bigint(&[5]), Natural::from_u64(5));
    assert_eq!(zl_to_bigint(&[6]), Natural::from_u64(8));
    assert_eq!(zl_to_bigint(&[6, 2]), Natural::from_u64(9));
    assert_eq!(zl_to_bigint(&[6, 3]), Natural::from_u64(10));
    assert_eq!(zl_to_bigint(&[6, 4]), Natural::from_u64(11));
    assert_eq!(zl_to_bigint(&[6, 4, 2]), Natural::from_u64(12));
    assert_eq!(zl_to_bigint(&[2, 4, 6]), Natural::from_u64(12));
}

#[test]
fn all_ones_numbers() {
    assert_eq!(all_ones_zeckendorf_to_bigint(0), Natural::zero());
    assert_eq!(all_ones_zeckendorf_to_bigint(1), Natural::from_u64(1));
    assert_eq!(all_ones_zeckendorf_to_bigint(2), Natural::from_u64(4));
    assert_eq!(all_ones_zeckendorf_to_bigint(3), Natural::from_u64(12));
    assert_eq!(all_ones_zeckendorf_to_bigint(4), Natural::from_u64(33));
    assert_eq!(all_ones_zeckendorf_to_bigint(32), Natural::from_u64(17167680177564));
}
