use tcptransfer::error::TransferError;
use tcptransfer::frame::{decode_size, encode_size, PREFIX_LEN};

#[test]
fn prefix_is_eight_bytes() {
    assert_eq!(PREFIX_LEN, 8);
    assert_eq!(encode_size(0).len(), 8);
}

#[test]
fn zero_encodes_as_zero_bytes() {
    assert_eq!(encode_size(0), [0u8; 8]);
}

#[test]
fn one_encodes_least_significant_first() {
    assert_eq!(encode_size(1), [1, 0, 0, 0, 0, 0, 0, 0]);
}

#[test]
fn every_byte_lands_in_its_place() {
    assert_eq!(
        encode_size(0x0102_0304_0506_0708),
        [0x08, 0x07, 0x06, 0x05, 0x04, 0x03, 0x02, 0x01]
    );
}

#[test]
fn largest_length_encodes_as_all_ones() {
    assert_eq!(encode_size(u64::MAX), [0xff; 8]);
}

#[test]
fn encoding_agrees_with_the_standard_library() {
    let samples: [u64; 8] = [
        0,
        1,
        255,
        256,
        65_535,
        10 * 1024 * 1024,
        0x8000_0000_0000_0000,
        u64::MAX - 1,
    ];
    for size in samples {
        assert_eq!(encode_size(size), size.to_le_bytes());
    }
}

#[test]
fn decoding_reads_least_significant_first() {
    let bytes = [0x08u8, 0x07, 0x06, 0x05, 0x04, 0x03, 0x02, 0x01];
    assert_eq!(decode_size(&bytes), Some(0x0102_0304_0506_0708));
}

#[test]
fn decoding_inverts_encoding() {
    let mut size: u64 = 1;
    for _ in 0..200 {
        size = size.wrapping_mul(6364136223846793005).wrapping_add(1442695040888963407);
        assert_eq!(decode_size(&encode_size(size)), Some(size));
    }
}

#[test]
fn encoding_inverts_decoding() {
    let bytes = [0xdeu8, 0xad, 0xbe, 0xef, 0x00, 0x11, 0x22, 0x33];
    let size = decode_size(&bytes).unwrap();
    assert_eq!(encode_size(size), bytes);
}

#[test]
fn decoding_refuses_other_lengths() {
    assert_eq!(decode_size(&[]), None);
    assert_eq!(decode_size(&[1, 2, 3, 4, 5, 6, 7]), None);
    assert_eq!(decode_size(&[1, 2, 3, 4, 5, 6, 7, 8, 9]), None);
}

#[test]
fn each_error_has_its_own_message() {
    let short = TransferError::ShortPrefix.message();
    let cut = TransferError::Truncated.message();
    assert_eq!(short, "stream closed inside the size prefix");
    assert_eq!(cut, "stream closed before the announced payload length");
    assert_ne!(short, cut);
}
