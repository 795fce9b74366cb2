use zeck::zeckendorf_compress_be;
use zeck::zeckendorf_compress_best;
use zeck::zeckendorf_compress_le;
use zeck::zeckendorf_decompress_be;
use zeck::zeckendorf_decompress_le;
use zeck::CompressionResult;
use zeck::Engine;
use zeck::Natural;

#[test]
fn compress_big_endian_scenarios() {
    assert_eq!(zeckendorf_compress_be(&[0]), vec![0]);
    assert_eq!(zeckendorf_compress_be(&[1]), vec![1]);
    assert_eq!(zeckendorf_compress_be(&[12]), vec![0b0000_0111]);
    assert_eq!(zeckendorf_compress_be(&[54]), vec![30]);
    assert_eq!(zeckendorf_compress_be(&[55]), vec![0, 1]);
    assert_eq!(zeckendorf_compress_be(&[255]), vec![33, 2]);
    assert_eq!(zeckendorf_compress_be(&[1, 0]), vec![34, 2]);
}

#[test]
fn compress_little_endian_scenarios() {
    assert_eq!(zeckendorf_compress_le(&[0]), vec![0]);
    assert_eq!(zeckendorf_compress_le(&[1]), vec![1]);
    assert_eq!(zeckendorf_compress_le(&[12]), vec![0b111]);
    assert_eq!(zeckendorf_compress_le(&[54]), vec![30]);
    assert_eq!(zeckendorf_compress_le(&[55]), vec![0, 1]);
    assert_eq!(zeckendorf_compress_le(&[255]), vec![33, 2]);
    assert_eq!(zeckendorf_compress_le(&[0, 1]), vec![34, 2]);
    assert_eq!(zeckendorf_compress_le(&[1, 0]), vec![1]);
}

#[test]
fn compress_longer_inputs() {
    assert_eq!(zeckendorf_compress_be(&[1, 2, 3]), vec![125, 98]);
    assert_eq!(zeckendorf_compress_le(&[1, 2, 3]), vec![131, 4, 32]);
    assert_eq!(zeckendorf_compress_be(&[0, 0, 7]), vec![6]);
    assert_eq!(zeckendorf_compress_le(&[0, 0, 7]), vec![6, 18, 25]);
    assert_eq!(zeckendorf_compress_be(&[255, 255, 255, 255]), vec![84, 2, 153, 35, 3]);
}

#[test]
fn compress_empty_input() {
    assert_eq!(zeckendorf_compress_be(&[]), vec![0]);
    assert_eq!(zeckendorf_compress_le(&[]), vec![0]);
}

#[test]
fn decompress_big_endian_scenarios() {
    assert_eq!(zeckendorf_decompress_be(&[0]), vec![0]);
    assert_eq!(zeckendorf_decompress_be(&[1]), vec![1]);
    assert_eq!(zeckendorf_decompress_be(&[0b111]), vec![12]);
    assert_eq!(zeckendorf_decompress_be(&[33, 2]), vec![255]);
    assert_eq!(zeckendorf_decompress_be(&[34, 2]), vec![1, 0]);
}

#[test]
fn decompress_little_endian_scenarios() {
    assert_eq!(zeckendorf_decompress_le(&[0]), vec![0]);
    assert_eq!(zeckendorf_decompress_le(&[1]), vec![1]);
    assert_eq!(zeckendorf_decompress_le(&[0b111]), vec![12]);
    assert_eq!(zeckendorf_decompress_le(&[33, 2]), vec![255]);
    assert_eq!(zeckendorf_decompress_le(&[34, 2]), vec![0, 1]);
}

#[test]
fn decompress_empty_input() {
    assert_eq!(zeckendorf_decompress_be(&[]), vec![0]);
    assert_eq!(zeckendorf_decompress_le(&[]), vec![0]);
}

#[test]
fn decompress_ignores_trailing_zero_bytes() {
    assert_eq!(zeckendorf_decompress_be(&[34, 2, 0, 0]), vec![1, 0]);
    assert_eq!(zeckendorf_decompress_le(&[34, 2, 0]), vec![0, 1]);
}

#[test]
fn decompress_all_ones() {
    let number = Natural::from_u64(17167680177564);
    assert_eq!(zeckendorf_decompress_be(&[255, 255, 255, 255]), number.to_bytes_be());
    assert_eq!(zeckendorf_decompress_le(&[255, 255, 255, 255]), number.to_bytes_le());
}

#[test]
fn round_trip_of_every_two_byte_number() {
    let mut engine = Engine::new();
    for value in 0..=u16::MAX {
        let number = Natural::from_u64(value as u64);
        let compressed = engine.encode(&number);
        assert_eq!(engine.decode(&compressed), number);
    }
}

#[test]
fn round_trip_without_leading_zero_bytes() {
    let inputs: [&[u8]; 6] =
        [&[1], &[200, 1], &[1, 2, 3, 4, 5], &[255; 40], &[9, 0, 0, 0], &[170, 85, 170, 85, 1]];
    for data in inputs {
        assert_eq!(zeckendorf_decompress_be(&zeckendorf_compress_be(data)), data.to_vec());
    }
}

#[test]
fn round_trip_drops_zero_bytes_at_the_high_end() {
    assert_eq!(zeckendorf_decompress_be(&zeckendorf_compress_be(&[0, 0, 7])), vec![7]);
    assert_eq!(zeckendorf_decompress_le(&zeckendorf_compress_le(&[7, 0, 0])), vec![7]);
    assert_eq!(zeckendorf_decompress_le(&zeckendorf_compress_le(&[0, 0, 7])), vec![0, 0, 7]);
}

#[test]
fn best_is_little_endian_for_one_then_zero() {
    assert_eq!(
        zeckendorf_compress_best(&[1, 0]),
        CompressionResult::LittleEndianBest { compressed_data: vec![1], be_size: 2 }
    );
}

#[test]
fn best_is_big_endian_for_zero_then_one() {
    assert_eq!(
        zeckendorf_compress_best(&[0, 1]),
        CompressionResult::BigEndianBest { compressed_data: vec![1], le_size: 2 }
    );
}

#[test]
fn best_is_neither_when_nothing_is_shorter() {
    assert_eq!(zeckendorf_compress_best(&[255]), CompressionResult::Neither { be_size: 2, le_size: 2 });
    assert_eq!(zeckendorf_compress_best(&[1]), CompressionResult::Neither { be_size: 1, le_size: 1 });
    assert_eq!(zeckendorf_compress_best(&[]), CompressionResult::Neither { be_size: 1, le_size: 1 });
}

#[test]
fn best_prefers_little_endian_on_a_tie() {
    assert_eq!(
        zeckendorf_compress_best(&[0, 0]),
        CompressionResult::LittleEndianBest { compressed_data: vec![0], be_size: 1 }
    );
    assert_eq!(
        zeckendorf_compress_best(&[0, 5, 0]),
        CompressionResult::LittleEndianBest { compressed_data: vec![136, 10], be_size: 2 }
    );
}

#[test]
fn best_payload_is_never_as_long_as_the_input() {
    for a in 0..=255u8 {
        for b in [0u8, 1, 2, 7, 100, 255] {
            let data = [a, b, 0];
            match zeckendorf_compress_best(&data) {
                CompressionResult::BigEndianBest { compressed_data, le_size } => {
                    assert!(compressed_data.len() < data.len());
                    assert!(compressed_data.len() < le_size);
                    assert_eq!(compressed_data, zeckendorf_compress_be(&data));
                }
                CompressionResult::LittleEndianBest { compressed_data, be_size } => {
                    assert!(compressed_data.len() < data.len());
                    assert!(compressed_data.len() <= be_size);
                    assert_eq!(compressed_data, zeckendorf_compress_le(&data));
                }
                CompressionResult::Neither { be_size, le_size } => {
                    assert!(be_size >= data.len());
                    assert!(le_size >= data.len());
                }
            }
        }
    }
}
