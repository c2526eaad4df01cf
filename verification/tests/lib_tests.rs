use rfitsio::endian;
use rfitsio::fill_to_2880;
use rfitsio::hdu::headers::{FITSHeader, FITSValue};
use rfitsio::{FITSFile, HDU};

#[test]
fn check_2880_bytes_hdu_not_add_any() {
    assert_eq!(fill_to_2880(2880), 0)
}

#[test]
fn check_5760_bytes_hdu_not_add_any() {
    assert_eq!(fill_to_2880(5760), 0)
}

#[test]
fn test_2885_bytes_hdu_add_5() {
    assert_eq!(fill_to_2880(2885), 2875)
}

#[test]
fn test_1936_1096_bytes_hdu_not_add_any() {
    assert_eq!(fill_to_2880(1936 * 1096), 704)
}

#[test]
fn fill_to_2880_of_zero_and_small() {
    assert_eq!(fill_to_2880(0), 0);
    assert_eq!(fill_to_2880(1), 2879);
    assert_eq!(fill_to_2880(80), 2800);
}

#[test]
fn fill_to_2880_of_negative_follows_truncated_remainder() {
    // -1 % 2880 == -1 in Rust, so the padding is 2881.
    assert_eq!(fill_to_2880(-1), 2881);
    assert_eq!(fill_to_2880(-2880), 0);
}

// --- endian round-trip tests ---

#[test]
fn i16_roundtrip() {
    let values = vec![0_i16, 1, -1, i16::MAX, i16::MIN];
    let bytes = endian::i16_to_be_bytes(&values);
    let decoded = endian::be_bytes_to_i16(&bytes);
    assert_eq!(values, decoded);
}

#[test]
fn i32_roundtrip() {
    let values = vec![0_i32, 1, -1, i32::MAX, i32::MIN];
    let bytes = endian::i32_to_be_bytes(&values);
    let decoded = endian::be_bytes_to_i32(&bytes);
    assert_eq!(values, decoded);
}

#[test]
fn i64_roundtrip() {
    let values = vec![0_i64, 1, -1, i64::MAX, i64::MIN, 0x0102_0304_0506_0708];
    let bytes = endian::i64_to_be_bytes(&values);
    let decoded = endian::be_bytes_to_i64(&bytes);
    assert_eq!(values, decoded);
}

#[test]
fn endian_bytes_are_big_endian() {
    assert_eq!(endian::i16_to_be_bytes(&[0x0102]), vec![1, 2]);
    assert_eq!(endian::i32_to_be_bytes(&[-2]), vec![0xFF, 0xFF, 0xFF, 0xFE]);
    assert_eq!(
        endian::i64_to_be_bytes(&[0x0102_0304_0506_0708]),
        vec![1, 2, 3, 4, 5, 6, 7, 8]
    );
}

#[test]
fn decode_ignores_trailing_partial_chunk() {
    assert_eq!(endian::be_bytes_to_i16(&[0, 5, 7]), vec![5]);
    assert_eq!(endian::be_bytes_to_i32(&[0, 0, 1, 0, 9, 9]), vec![256]);
    assert_eq!(endian::be_bytes_to_i64(&[0, 0, 0, 0, 0, 0, 0, 3, 1]), vec![3]);
    // Encoding what was decoded gives back the whole chunks.
    let bytes = vec![0x80, 0x00, 0x12, 0x34, 0xFF];
    let v = endian::be_bytes_to_i16(&bytes);
    assert_eq!(endian::i16_to_be_bytes(&v), bytes[..4].to_vec());
}

#[test]
fn file_to_bytes_concatenates_hdus() {
    let mut a = HDU::init();
    a.add_header("SIMPLE", FITSValue::Logical(true));
    a.headers.push(FITSHeader::end_hdu());
    let mut b = HDU::init();
    b.add_header("XTENSION", FITSValue::Text("IMAGE".to_string()));
    b.headers.push(FITSHeader::end_hdu());
    b.add_data(vec![1, 2, 3]);
    let mut expected = a.to_bytes();
    expected.extend(b.to_bytes());
    let mut file = FITSFile::new();
    file.add_hdu(a);
    file.add_hdu(b);
    let bytes = file.to_bytes();
    assert_eq!(bytes, expected);
    assert_eq!(bytes.len(), 2880 * 3);
}
