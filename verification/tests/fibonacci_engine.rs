use num_bigint::BigUint;
use zeck::bit_count_for_number;
use zeck::fast_doubling_fibonacci_bigint;
use zeck::highest_one_bit;
use zeck::memoized_effective_fibonacci;
use zeck::memoized_fast_doubling_fibonacci_bigint;
use zeck::memoized_slow_fibonacci_bigint_iterative;
use zeck::memoized_slow_fibonacci_recursive;
use zeck::slow_fibonacci_bigint_iterative;
use zeck::Engine;
use zeck::Natural;

fn reference_fibonacci(index: u64) -> BigUint {
    let mut a = BigUint::from(0u8);
    let mut b = BigUint::from(1u8);
    for _ in 0..index {
        let c = &a + &b;
        a = b;
        b = c;
    }
    a
}

fn as_biguint(n: &Natural) -> BigUint {
    BigUint::from_bytes_be(&n.to_bytes_be())
}

#[test]
fn bit_count_of_small_numbers() {
    assert_eq!(bit_count_for_number(0), 0);
    assert_eq!(bit_count_for_number(1), 1);
    assert_eq!(bit_count_for_number(2), 2);
    assert_eq!(bit_count_for_number(3), 2);
    assert_eq!(bit_count_for_number(4), 3);
    assert_eq!(bit_count_for_number(255), 8);
    assert_eq!(bit_count_for_number(256), 9);
}

#[test]
fn bit_count_of_negative_numbers_is_zero() {
    assert_eq!(bit_count_for_number(-1), 0);
    assert_eq!(bit_count_for_number(i32::MIN), 0);
}

#[test]
fn bit_count_of_largest_number() {
    assert_eq!(bit_count_for_number(i32::MAX), 31);
}

#[test]
fn highest_one_bit_of_small_numbers() {
    let expected: [u64; 15] = [0, 1, 2, 2, 4, 4, 4, 4, 8, 8, 8, 8, 8, 8, 8];
    for n in 0..15u64 {
        assert_eq!(highest_one_bit(n), expected[n as usize]);
    }
}

#[test]
fn highest_one_bit_of_largest_number() {
    assert_eq!(highest_one_bit(u64::MAX), 1u64 << 63);
    assert_eq!(highest_one_bit(1u64 << 63), 1u64 << 63);
}

#[test]
fn recursive_fibonacci_first_values() {
    let expected: [u64; 11] = [0, 1, 1, 2, 3, 5, 8, 13, 21, 34, 55];
    for fi in 0..11u64 {
        assert_eq!(memoized_slow_fibonacci_recursive(fi), expected[fi as usize]);
    }
}

#[test]
fn recursive_fibonacci_last_machine_word() {
    assert_eq!(memoized_slow_fibonacci_recursive(93), 12200160415121876738);
    assert_eq!(memoized_slow_fibonacci_recursive(64), 10610209857723);
}

#[test]
fn effective_fibonacci_first_values() {
    let expected: [u64; 11] = [1, 2, 3, 5, 8, 13, 21, 34, 55, 89, 144];
    for efi in 0..11u64 {
        assert_eq!(memoized_effective_fibonacci(efi), expected[efi as usize]);
    }
    assert_eq!(memoized_effective_fibonacci(91), 12200160415121876738);
}

#[test]
fn big_fibonacci_first_values() {
    let expected: [u64; 11] = [0, 1, 1, 2, 3, 5, 8, 13, 21, 34, 55];
    for fi in 0..11u64 {
        let want = Natural::from_u64(expected[fi as usize]);
        assert_eq!(memoized_slow_fibonacci_bigint_iterative(fi), want);
        assert_eq!(slow_fibonacci_bigint_iterative(fi), want);
        assert_eq!(fast_doubling_fibonacci_bigint(fi), want);
        assert_eq!(memoized_fast_doubling_fibonacci_bigint(fi), want);
    }
}

#[test]
fn big_fibonacci_hundredth() {
    let want = "354224848179261915075".parse::<BigUint>().unwrap();
    assert_eq!(as_biguint(&memoized_slow_fibonacci_bigint_iterative(100)), want);
    assert_eq!(as_biguint(&slow_fibonacci_bigint_iterative(100)), want);
    assert_eq!(as_biguint(&fast_doubling_fibonacci_bigint(100)), want);
    assert_eq!(as_biguint(&memoized_fast_doubling_fibonacci_bigint(100)), want);
}

#[test]
fn fast_doubling_agrees_with_iterative_up_to_200() {
    let mut engine = Engine::new();
    for fi in 0..=200u64 {
        let want = reference_fibonacci(fi);
        assert_eq!(as_biguint(&fast_doubling_fibonacci_bigint(fi)), want);
        assert_eq!(as_biguint(&slow_fibonacci_bigint_iterative(fi)), want);
        assert_eq!(as_biguint(&engine.fibonacci_fast_doubling(fi)), want);
        assert_eq!(as_biguint(&engine.fibonacci(fi)), want);
    }
}

#[test]
fn fast_doubling_of_a_large_index() {
    let want = reference_fibonacci(5000);
    assert_eq!(as_biguint(&fast_doubling_fibonacci_bigint(5000)), want);
    assert_eq!(as_biguint(&memoized_fast_doubling_fibonacci_bigint(4999)), reference_fibonacci(4999));
}

#[test]
fn engine_answers_twice_the_same() {
    let mut engine = Engine::new();
    let first = engine.fibonacci_fast_doubling(100);
    let second = engine.fibonacci_fast_doubling(100);
    assert_eq!(first, second);
    let dense = engine.fibonacci(100);
    assert_eq!(first, dense);
    assert_eq!(engine.fibonacci_u64(90), 2880067194370816120);
    assert_eq!(engine.fibonacci_u64(10), 55);
}

#[test]
fn natural_from_and_to_bytes() {
    assert_eq!(Natural::from_bytes_be(&[1, 0]).to_bytes_be(), vec![1, 0]);
    assert_eq!(Natural::from_bytes_be(&[1, 0]).to_bytes_le(), vec![0, 1]);
    assert_eq!(Natural::from_bytes_le(&[1, 0]).to_bytes_be(), vec![1]);
    assert_eq!(Natural::from_bytes_be(&[0, 0, 7]).to_bytes_be(), vec![7]);
    assert_eq!(Natural::from_bytes_le(&[7, 0, 0]).to_bytes_le(), vec![7]);
    assert_eq!(Natural::from_bytes_be(&[]).to_bytes_be(), vec![0]);
    assert_eq!(Natural::from_bytes_le(&[]).to_bytes_le(), vec![0]);
    assert_eq!(Natural::from_u64(0x0102).to_bytes_be(), vec![1, 2]);
    assert_eq!(Natural::zero().to_bytes_be(), vec![0]);
    assert_eq!(Natural::one().to_bytes_le(), vec![1]);
}

#[test]
fn natural_arithmetic() {
    let a = Natural::from_u64(1000);
    let b = Natural::from_u64(24);
    assert_eq!(a.add(&b), Natural::from_u64(1024));
    assert_eq!(a.sub(&b), Natural::from_u64(976));
    assert_eq!(a.mul(&b), Natural::from_u64(24000));
    assert_eq!(a.double(), Natural::from_u64(2000));
    assert_eq!(b.pow(2), Natural::from_u64(576));
    assert_eq!(b.pow(0), Natural::one());
    assert_eq!(a.sub(&a), Natural::zero());
    assert_eq!(a.duplicate(), a);
}

#[test]
fn natural_arithmetic_across_word_size() {
    let a = Natural::from_u64(u64::MAX);
    let sum = a.add(&Natural::one());
    assert_eq!(sum.to_bytes_be(), vec![1, 0, 0, 0, 0, 0, 0, 0, 0]);
    assert_eq!(sum.sub(&Natural::one()), a);
    assert_eq!(a.mul(&a).to_bytes_be().len(), 16);
    assert_eq!(a.double().to_bytes_be(), vec![1, 255, 255, 255, 255, 255, 255, 255, 254]);
}

#[test]
fn natural_comparisons() {
    let a = Natural::from_u64(5);
    let b = Natural::from_u64(6);
    assert!(a.lt(&b));
    assert!(!b.lt(&a));
    assert!(!a.lt(&a));
    assert!(a.equals(&a));
    assert!(!a.equals(&b));
    assert!(a != b);
    assert!(Natural::zero().is_zero());
    assert!(!a.is_zero());
    assert!(Natural::from_bytes_be(&[0, 0]).is_zero());
    assert!(Natural::from_bytes_be(&[0, 5]).equals(&a));
}

#[test]
fn natural_byte_len() {
    assert_eq!(Natural::zero().byte_len(), 1);
    assert_eq!(Natural::from_u64(255).byte_len(), 1);
    assert_eq!(Natural::from_u64(256).byte_len(), 2);
    assert_eq!(Natural::from_bytes_be(&[0, 0, 1, 0, 0]).byte_len(), 3);
}

#[test]
fn natural_as_machine_word() {
    assert_eq!(Natural::zero().to_u64(), Some(0));
    assert_eq!(Natural::from_u64(u64::MAX).to_u64(), Some(u64::MAX));
    assert_eq!(Natural::from_u64(u64::MAX).add(&Natural::one()).to_u64(), None);
    assert_eq!(Natural::from_bytes_be(&[1, 2, 3]).to_u64(), Some(0x010203));
    assert_eq!(Natural::from_bytes_be(&[0, 0, 0, 0, 0, 0, 0, 0, 0, 5]).to_u64(), Some(5));
}

#[test]
fn natural_low_machine_word() {
    assert_eq!(Natural::from_u64(77).low_u64(), 77);
    assert_eq!(Natural::from_u64(u64::MAX).add(&Natural::one()).low_u64(), 0);
    assert_eq!(Natural::from_bytes_be(&[9, 1, 2, 3, 4, 5, 6, 7, 8]).low_u64(), 0x0102030405060708);
    assert_eq!(Natural::from_bytes_le(&[1, 0, 0]).low_u64(), 1);
}

#[test]
fn natural_clone_is_the_same_number() {
    let a = Natural::from_bytes_be(&[1, 2, 3, 4, 5, 6, 7, 8, 9, 10]);
    assert_eq!(a.clone(), a);
}

#[test]
fn fast_doubling_to_one_hundred_keeps_ten_numbers() {
    let mut engine = Engine::new();
    assert_eq!(engine.sparse_fibonacci_count(), 2);
    engine.fibonacci_fast_doubling(100);
    assert_eq!(engine.sparse_fibonacci_count(), 10);
    let kept: Vec<u64> = (0..=100u64)
        .filter(|fi| engine.cached_fast_doubling_fibonacci(*fi).is_some())
        .collect();
    assert_eq!(kept, vec![0, 1, 2, 3, 6, 12, 24, 25, 50, 100]);
    assert_eq!(engine.cached_fast_doubling_fibonacci(50), Some(Natural::from_u64(12586269025)));
    assert_eq!(engine.cached_fast_doubling_fibonacci(51), None);
    engine.fibonacci_fast_doubling(100);
    assert_eq!(engine.sparse_fibonacci_count(), 10);
    engine.fibonacci_fast_doubling(0);
    assert_eq!(engine.sparse_fibonacci_count(), 10);
    engine.fibonacci_fast_doubling(7);
    assert_eq!(engine.sparse_fibonacci_count(), 11);
}
