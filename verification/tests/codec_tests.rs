use half::f16;
use simgrid::codec::{decode_words, encode_words, storage_word_from_le, storage_word_to_le};

#[test]
fn word_from_le_pair() {
    assert_eq!(storage_word_from_le(0x00, 0x3C), 0x3C00);
    assert_eq!(storage_word_from_le(0xFF, 0x00), 0x00FF);
    assert_eq!(storage_word_from_le(0x01, 0x80), 0x8001);
    assert_eq!(storage_word_from_le(0x00, 0x00), 0x0000);
}

#[test]
fn word_to_le_pair() {
    assert_eq!(storage_word_to_le(0x3C00), (0x00, 0x3C));
    assert_eq!(storage_word_to_le(0x00FF), (0xFF, 0x00));
    assert_eq!(storage_word_to_le(0xFFFF), (0xFF, 0xFF));
}

#[test]
fn words_round_trip() {
    let words: Vec<u16> = vec![0x0000, 0x3C00, 0xFFFF, 0x8001, 0x7BFF, 0x0400];
    let bytes = encode_words(&words);
    assert_eq!(bytes.len(), 2 * words.len());
    let back = decode_words(&bytes);
    assert_eq!(back, words);
}

#[test]
fn bytes_round_trip() {
    let bytes: Vec<u8> = vec![0x01, 0x02, 0xFF, 0x00, 0x12, 0x7C];
    let words = decode_words(&bytes);
    assert_eq!(words, vec![0x0201, 0x00FF, 0x7C12]);
    assert_eq!(encode_words(&words), bytes);
}

#[test]
fn decoding_matches_half() {
    let values: Vec<f32> = vec![1.0, -2.5, 0.5, 65504.0, 0.0, -0.0];
    let mut bytes: Vec<u8> = Vec::new();
    for &v in values.iter() {
        let pair = f16::from_f32(v).to_le_bytes();
        bytes.push(pair[0]);
        bytes.push(pair[1]);
    }
    let words = decode_words(&bytes);
    for (k, &v) in values.iter().enumerate() {
        assert_eq!(words[k], f16::from_f32(v).to_bits());
    }
}

#[test]
fn half_value_round_trips_through_storage() {
    // Encoding then decoding the same bit pattern reproduces the identical
    // decoded value: lossy only relative to full precision, not to itself.
    let values: Vec<f32> = vec![1.0, 3.140625, -0.15625, 1024.0];
    for &v in values.iter() {
        let stored = f16::from_f32(v);
        let words = vec![stored.to_bits()];
        let bytes = encode_words(&words);
        let back = decode_words(&bytes);
        assert_eq!(back[0], stored.to_bits());
        assert_eq!(f32::from(f16::from_bits(back[0])), f32::from(stored));
    }
}
