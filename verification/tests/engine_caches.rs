use zeck::Engine;
use zeck::Natural;

#[test]
fn new_engine_holds_the_first_two_fibonacci_numbers() {
    let engine = Engine::new();
    assert_eq!(engine.small_fibonacci_count(), 2);
    assert_eq!(engine.big_fibonacci_count(), 2);
    assert_eq!(engine.sparse_fibonacci_count(), 2);
    assert_eq!(engine.cached_fast_doubling_fibonacci(0), Some(Natural::zero()));
    assert_eq!(engine.cached_fast_doubling_fibonacci(1), Some(Natural::one()));
    assert_eq!(engine.cached_fast_doubling_fibonacci(2), None);
    assert!(!engine.remembers_list_u64(3));
    assert!(!engine.remembers_list(&Natural::from_u64(3)));
}

#[test]
fn dense_tables_grow_to_the_index_asked_for_and_never_shrink() {
    let mut engine = Engine::new();
    engine.fibonacci_u64(10);
    assert_eq!(engine.small_fibonacci_count(), 11);
    engine.fibonacci_u64(5);
    assert_eq!(engine.small_fibonacci_count(), 11);
    engine.fibonacci_u64(93);
    assert_eq!(engine.small_fibonacci_count(), 94);
    assert_eq!(engine.big_fibonacci_count(), 2);
    engine.fibonacci(20);
    assert_eq!(engine.big_fibonacci_count(), 21);
    engine.fibonacci(0);
    assert_eq!(engine.big_fibonacci_count(), 21);
    assert_eq!(engine.small_fibonacci_count(), 94);
    assert_eq!(engine.sparse_fibonacci_count(), 2);
}

#[test]
fn machine_word_lists_are_remembered_from_three_on() {
    let mut engine = Engine::new();
    for n in 0..=2u64 {
        engine.zeckendorf_list_u64(n);
        assert!(!engine.remembers_list_u64(n));
    }
    assert_eq!(engine.small_fibonacci_count(), 2);
    engine.zeckendorf_list_u64(1_000_000);
    assert!(engine.remembers_list_u64(1_000_000));
    assert!(!engine.remembers_list_u64(999_999));
    assert_eq!(engine.small_fibonacci_count(), 33);
    engine.zeckendorf_list_u64(3);
    assert!(engine.remembers_list_u64(3));
    assert_eq!(engine.small_fibonacci_count(), 33);
    assert_eq!(engine.big_fibonacci_count(), 2);
    assert!(!engine.remembers_list(&Natural::from_u64(1_000_000)));
}

#[test]
fn a_remembered_machine_word_list_does_not_touch_the_table() {
    let mut first = Engine::new();
    first.zeckendorf_list_u64(100);
    assert_eq!(first.small_fibonacci_count(), 17);
    first.zeckendorf_list_u64(100);
    assert_eq!(first.small_fibonacci_count(), 17);
}

#[test]
fn natural_lists_are_remembered_from_three_on() {
    let mut engine = Engine::new();
    for n in 0..=2u64 {
        engine.zeckendorf_list(&Natural::from_u64(n));
        assert!(!engine.remembers_list(&Natural::from_u64(n)));
    }
    assert_eq!(engine.big_fibonacci_count(), 2);
    let number = Natural::from_u64(1_000_000);
    engine.zeckendorf_list(&number);
    assert!(engine.remembers_list(&number));
    assert!(!engine.remembers_list(&Natural::from_u64(999_999)));
    assert_eq!(engine.big_fibonacci_count(), 33);
    assert_eq!(engine.small_fibonacci_count(), 2);
    assert!(!engine.remembers_list_u64(1_000_000));
}

#[test]
fn naturals_with_the_same_low_word_are_kept_apart() {
    let mut engine = Engine::new();
    let low = Natural::from_bytes_be(&[0, 0, 0, 0, 0, 0, 0, 0, 77]);
    let high = Natural::from_bytes_be(&[1, 0, 0, 0, 0, 0, 0, 0, 77]);
    assert_eq!(low.low_u64(), high.low_u64());
    let list_of_low = engine.zeckendorf_list(&low);
    assert!(engine.remembers_list(&low));
    assert!(!engine.remembers_list(&high));
    let list_of_high = engine.zeckendorf_list(&high);
    assert!(engine.remembers_list(&low));
    assert!(engine.remembers_list(&high));
    assert_eq!(engine.zeckendorf_list(&low), list_of_low);
    assert_eq!(engine.zeckendorf_list(&high), list_of_high);
    assert_eq!(engine.list_value(&list_of_low), low);
    assert_eq!(engine.list_value(&list_of_high), high);
}

#[test]
fn list_value_fills_the_table_to_its_largest_index() {
    let mut engine = Engine::new();
    engine.list_value(&[6, 4, 2]);
    assert_eq!(engine.big_fibonacci_count(), 7);
    engine.list_value(&[2, 30, 5]);
    assert_eq!(engine.big_fibonacci_count(), 31);
    engine.list_value(&[]);
    assert_eq!(engine.big_fibonacci_count(), 31);
}

#[test]
fn encode_and_decode_fill_the_table() {
    let mut engine = Engine::new();
    assert_eq!(engine.encode(&Natural::from_u64(255)), vec![33, 2]);
    assert_eq!(engine.big_fibonacci_count(), 17);
    assert!(engine.remembers_list(&Natural::from_u64(255)));
    let mut other = Engine::new();
    assert_eq!(other.decode(&[33, 2]), Natural::from_u64(255));
    assert_eq!(other.big_fibonacci_count(), 14);
    assert!(!other.remembers_list(&Natural::from_u64(255)));
}
