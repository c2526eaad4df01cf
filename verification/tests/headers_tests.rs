use rfitsio::headers::FITSHeader;

#[test]
fn headers_correct_key_format() {
    let header = FITSHeader::new("FOO", "BAR");
    assert_eq!(std::str::from_utf8(&header.key).unwrap(), "FOO     = ");
}

#[test]
fn headers_correct_key_length() {
    let header = FITSHeader::new("FOO", "BAR");
    assert_eq!(header.key.len(), 10);
}

#[test]
fn correct_value_format() {
    let header = FITSHeader::new("FOO", "BAR");
    assert_eq!(
        std::str::from_utf8(&header.value).unwrap(),
        "BAR                                                                   "
    );
}

#[test]
fn correct_value_length() {
    let header = FITSHeader::new("FOO", "BAR");
    assert_eq!(header.value.len(), 70);
}

#[test]
fn correct_key_representation() {
    let header = FITSHeader::new("FOO", "BAR");
    let key = header.key_as_str();

    assert_eq!(key.contains("FOO"), true);
    assert_eq!(key.contains("="), true);
}

#[test]
fn correct_value_representation() {
    let header = FITSHeader::new("FOO", "BAR");
    let value = header.value_as_str();

    assert_eq!(value.contains("BAR"), true);
}

#[test]
fn correct_full_representation() {
    let header = FITSHeader::new("FOO", "BAR");
    let full_header = header.as_str();

    assert_eq!(full_header.contains("FOO"), true);
    assert_eq!(full_header.contains("BAR"), true);
    assert_eq!(full_header.contains("="), true);
}

#[test]
fn simple_value_padding_starts_at_key_length() {
    // The padding runs from the key's length on, over the value as well.
    let header = FITSHeader::new("AB", "WXYZ");
    assert_eq!(&header.value[..4], b"WX  ");
    // A value shorter than the key leaves null bytes up to the key's length.
    let header = FITSHeader::new("ABCD", "X");
    assert_eq!(&header.value[..5], &[b'X', 0, 0, 0, b' ']);
    assert_eq!(header.as_str().len(), 80);
}
