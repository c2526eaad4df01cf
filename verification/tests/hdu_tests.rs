use rfitsio::hdu::data::FITSData;
use rfitsio::hdu::headers::{encode_value, validate_keyword, FITSHeader, FITSValue};
use rfitsio::HDU;

// --- data unit ---

// 800×600 px image: 480_000 bytes, not a multiple of 2880 → 960 padding bytes
#[test]
fn correct_unit_length() {
    let image = vec![255; 800 * 600];
    let mut fits_data = FITSData::new();
    fits_data.add(image);
    assert_eq!(fits_data.data.len(), 480_960);
    assert_eq!(fits_data.data[480_000], 0u8);
}

#[test]
fn no_bytes_added() {
    let image = vec![255; 2880];
    let mut fits_data = FITSData::new();
    fits_data.add(image);
    assert_eq!(fits_data.data.len(), 2880);
}

#[test]
fn add_i16_stores_big_endian() {
    let pixels: Vec<i16> = vec![256, -1];
    let mut fits_data = FITSData::new();
    fits_data.add_i16(&pixels);
    // 256 big-endian = [0x01, 0x00]
    assert_eq!(fits_data.data[0], 0x01);
    assert_eq!(fits_data.data[1], 0x00);
    // -1 big-endian = [0xFF, 0xFF]
    assert_eq!(fits_data.data[2], 0xFF);
    assert_eq!(fits_data.data[3], 0xFF);
}

#[test]
fn add_f32_stores_big_endian() {
    let pixels: Vec<f32> = vec![1.0_f32];
    let mut fits_data = FITSData::new();
    let bytes: Vec<u8> = pixels.iter().flat_map(|v| v.to_be_bytes()).collect();
    fits_data.add(bytes);
    // 1.0f32 big-endian IEEE 754 = [0x3F, 0x80, 0x00, 0x00]
    assert_eq!(&fits_data.data[..4], &[0x3F, 0x80, 0x00, 0x00]);
}

#[test]
fn add_i32_i64_u8_pad_with_nulls() {
    let mut d = FITSData::new();
    d.add_i32(&[1, -2]);
    assert_eq!(&d.data[..8], &[0, 0, 0, 1, 0xFF, 0xFF, 0xFF, 0xFE]);
    assert_eq!(d.data.len(), 2880);
    assert!(d.data[8..].iter().all(|&b| b == 0));
    d.add_i64(&[3]);
    assert_eq!(&d.data[..8], &[0, 0, 0, 0, 0, 0, 0, 3]);
    assert_eq!(d.data.len(), 2880);
    d.add_u8(&[9; 2881]);
    assert_eq!(d.data.len(), 5760);
    assert_eq!(d.data[2880], 9);
    assert_eq!(d.data[2881], 0);
    d.add(Vec::new());
    assert!(d.data.is_empty());
}

// --- header records ---

#[test]
fn correct_key_format() {
    let header = FITSHeader::new("FOO", FITSValue::Integer(1));
    assert_eq!(std::str::from_utf8(&header.key).unwrap(), "FOO     = ");
}

#[test]
fn correct_key_length() {
    let header = FITSHeader::new("FOO", FITSValue::Integer(1));
    assert_eq!(header.key.len(), 10);
}

#[test]
fn integer_value_right_justified() {
    let header = FITSHeader::new("NAXIS", FITSValue::Integer(2));
    assert_eq!(&header.value_as_str()[..20], "                   2");
}

#[test]
fn integer_value_negative_and_extreme() {
    let header = FITSHeader::new("BITPIX", FITSValue::Integer(-32));
    assert_eq!(&header.value_as_str()[..20], "                 -32");
    let header = FITSHeader::new("BIG", FITSValue::Integer(i64::MIN));
    assert_eq!(&header.value_as_str()[..20], "-9223372036854775808");
}

#[test]
fn logical_true_right_justified() {
    let header = FITSHeader::new("SIMPLE", FITSValue::Logical(true));
    assert_eq!(&header.value_as_str()[..20], "                   T");
}

#[test]
fn logical_false_right_justified() {
    let header = FITSHeader::new("SIMPLE", FITSValue::Logical(false));
    assert_eq!(&header.value_as_str()[..20], "                   F");
}

#[test]
fn text_value_single_quoted_padded_to_8() {
    let header = FITSHeader::new("TELESCOP", FITSValue::Text("HST".into()));
    // Minimum 8 chars inside quotes → 'HST     '
    assert!(
        header.value_as_str().starts_with("'HST     '"),
        "got: {:?}",
        &header.value_as_str()[..12]
    );
}

#[test]
fn text_value_internal_quote_doubled() {
    let header = FITSHeader::new("ORIGIN", FITSValue::Text("O'Hara".into()));
    assert!(
        header.value_as_str().starts_with("'O''Hara '"),
        "got: {:?}",
        &header.value_as_str()[..12]
    );
}

#[test]
fn text_value_non_ascii_width_counts_characters() {
    // "é" is 2 bytes, 1 character: the width is 8 characters.
    let header = FITSHeader::new("OBSERVER", FITSValue::Text("é".into()));
    assert!(header.value_as_str().starts_with("'é       '"));
    // 9 bytes, 8 characters: the width is 9, so one space pads it.
    let header = FITSHeader::new("OBSERVER", FITSValue::Text("abcdefgé".into()));
    assert!(header.value_as_str().starts_with("'abcdefgé '"));
}

#[test]
fn float_value_scientific_notation() {
    let header = FITSHeader::new("EXPTIME", FITSValue::Float(format!("{:.10E}", 1.5e3)));
    let trimmed = header.value_as_str()[..20].trim();
    assert!(
        trimmed.contains('E'),
        "expected scientific notation in {:?}",
        trimmed
    );
    assert_eq!(&header.value_as_str()[..20], "      1.5000000000E3");
}

#[test]
fn value_with_comment() {
    let header =
        FITSHeader::new_with_comment("BITPIX", FITSValue::Integer(16), "bits per pixel");
    assert!(
        header.value_as_str().contains("/ bits per pixel"),
        "got: {:?}",
        &header.value_as_str()[..40]
    );
}

#[test]
fn empty_comment_adds_nothing() {
    let a = FITSHeader::new_with_comment("BITPIX", FITSValue::Integer(16), "");
    let b = FITSHeader::new("BITPIX", FITSValue::Integer(16));
    assert_eq!(a.value, b.value);
}

#[test]
fn long_comment_is_cut_at_70_bytes() {
    let comment = "x".repeat(100);
    let field = encode_value(FITSValue::Integer(1), Some(&comment));
    assert_eq!(&field[..23], b"                   1 / ");
    assert!(field[23..].iter().all(|&b| b == b'x'));
}

#[test]
fn value_field_is_70_bytes() {
    let header = FITSHeader::new("NAXIS1", FITSValue::Integer(1024));
    assert_eq!(header.value.len(), 70);
}

#[test]
fn value_not_truncated_when_longer_than_key() {
    let header = FITSHeader::new("AB", FITSValue::Text("LONGERVAL".into()));
    assert!(
        header.value_as_str().contains("LONGERVAL"),
        "value was truncated: {:?}",
        &header.value_as_str()[..20]
    );
}

#[test]
fn comment_record_has_no_equals() {
    let header = FITSHeader::comment("written by rfitsio");
    assert!(!header.key_as_str().contains('='));
    assert!(header.value_as_str().starts_with("written by rfitsio"));
}

#[test]
fn history_record_has_no_equals() {
    let header = FITSHeader::history("calibrated 2024-01-01");
    assert!(!header.key_as_str().contains('='));
    assert!(header.value_as_str().starts_with("calibrated 2024-01-01"));
}

#[test]
fn check_end_header_constructed_correctly() {
    let header = FITSHeader::end_hdu();
    assert!(header.key_as_str().contains("END"));
    assert!(!header.key_as_str().contains('='));
    assert_eq!(header.value, [32; 70]);
}

#[test]
fn keyword_validation() {
    assert!(!validate_keyword("simple"));
    assert!(!validate_keyword("END"));
    assert!(!validate_keyword("COMMENT"));
    assert!(!validate_keyword("HISTORY"));
    assert!(!validate_keyword("TOOLONGKEY"));
    assert!(!validate_keyword(""));
    assert!(validate_keyword("DATE-OBS"));
    assert!(validate_keyword("NAXIS_1"));
    assert!(validate_keyword("ENDTIME"));
}

#[test]
fn new_raw_built_correctly() {
    let key = "COOL    = ";
    let value = "          AWESOME VALUE  / COMMENT                                    ";
    let header = FITSHeader::new_raw(key.as_bytes(), value.as_bytes());
    assert_eq!(header.key_as_str(), key);
    assert_eq!(header.value_as_str(), value);
}

// --- HDU ---

#[test]
fn check_initialization() {
    let hdu = HDU::init();
    assert!(hdu.headers.is_empty());
    assert!(hdu.raw_data().is_empty());
}

#[test]
fn check_raw_data() {
    let mut hdu = HDU::init();
    hdu.add_data(vec![9; 5]);
    assert_eq!(hdu.raw_data()[0..5], [9, 9, 9, 9, 9]);
    assert_eq!(hdu.raw_data().len(), 2880);
}

#[test]
fn check_adding_header() {
    let mut hdu = HDU::init();
    hdu.add_header("NAXIS", FITSValue::Integer(2));
    let key = hdu.headers[0].key_as_str();
    let value = hdu.headers[0].value_as_str();
    assert!(key.contains("NAXIS"));
    assert!(value.contains('2'));
}

#[test]
fn add_comment_history_and_commented_header() {
    let mut hdu = HDU::init();
    hdu.add_comment("a note");
    hdu.add_history("step 1");
    hdu.add_header_with_comment("EXPOSURE", FITSValue::Integer(30), "seconds");
    assert_eq!(hdu.headers.len(), 3);
    assert_eq!(&hdu.headers[0].key, b"COMMENT   ");
    assert_eq!(&hdu.headers[1].key, b"HISTORY   ");
    assert!(hdu.headers[2].value_as_str().starts_with("                  30 / seconds"));
}

#[test]
fn to_bytes_header_section_multiple_of_2880() {
    let mut hdu = HDU::init();
    hdu.add_header("SIMPLE", FITSValue::Logical(true));
    hdu.add_header("BITPIX", FITSValue::Integer(8));
    hdu.add_header("NAXIS", FITSValue::Integer(0));
    hdu.headers.push(FITSHeader::end_hdu());
    let bytes = hdu.to_bytes();
    assert_eq!(
        bytes.len() % 2880,
        0,
        "serialized HDU must be a multiple of 2880 bytes"
    );
}

#[test]
fn to_bytes_layout() {
    let mut hdu = HDU::init();
    hdu.add_header("SIMPLE", FITSValue::Logical(true));
    hdu.headers.push(FITSHeader::end_hdu());
    hdu.add_data(vec![7; 3]);
    let bytes = hdu.to_bytes();
    assert_eq!(bytes.len(), 5760);
    assert_eq!(&bytes[..10], b"SIMPLE  = ");
    assert_eq!(&bytes[80..83], b"END");
    assert!(bytes[160..2880].iter().all(|&b| b == b' '));
    assert_eq!(&bytes[2880..2884], &[7, 7, 7, 0]);
}

#[test]
fn validate_primary_passes_for_valid_hdu() {
    let mut hdu = HDU::init();
    hdu.add_header("SIMPLE", FITSValue::Logical(true));
    hdu.add_header("BITPIX", FITSValue::Integer(8));
    hdu.add_header("NAXIS", FITSValue::Integer(0));
    hdu.headers.push(FITSHeader::end_hdu());
    assert!(hdu.validate_primary().is_ok());
}

#[test]
fn validate_primary_fails_without_simple() {
    let mut hdu = HDU::init();
    hdu.add_header("BITPIX", FITSValue::Integer(8));
    assert!(hdu.validate_primary().is_err());
}

#[test]
fn validate_primary_fails_without_bitpix() {
    let mut hdu = HDU::init();
    hdu.add_header("SIMPLE", FITSValue::Logical(true));
    assert!(hdu.validate_primary().is_err());
}

#[test]
fn validate_primary_fails_without_end() {
    let mut hdu = HDU::init();
    hdu.add_header("SIMPLE", FITSValue::Logical(true));
    hdu.add_header("BITPIX", FITSValue::Integer(8));
    hdu.add_header("NAXIS", FITSValue::Integer(0));
    // no END keyword added
    assert!(hdu.validate_primary().is_err());
}

#[test]
fn validate_primary_messages() {
    let hdu = HDU::init();
    assert_eq!(hdu.validate_primary(), Err("primary HDU has no headers".to_string()));

    let mut hdu = HDU::init();
    hdu.add_header("BITPIX", FITSValue::Integer(8));
    assert_eq!(
        hdu.validate_primary(),
        Err("first keyword must be SIMPLE, found: BITPIX".to_string())
    );

    let mut hdu = HDU::init();
    hdu.add_header("SIMPLE", FITSValue::Logical(true));
    assert_eq!(
        hdu.validate_primary(),
        Err("BITPIX keyword is required in the primary HDU".to_string())
    );

    let mut hdu = HDU::init();
    hdu.add_header("SIMPLE", FITSValue::Logical(true));
    hdu.add_header("BITPIX", FITSValue::Integer(8));
    hdu.add_header("NAXIS1", FITSValue::Integer(8));
    assert_eq!(
        hdu.validate_primary(),
        Err("NAXIS keyword is required in the primary HDU".to_string())
    );

    let mut hdu = HDU::init();
    hdu.add_header("SIMPLE", FITSValue::Logical(true));
    hdu.add_header("BITPIX", FITSValue::Integer(8));
    hdu.add_header("NAXIS", FITSValue::Integer(0));
    assert_eq!(hdu.validate_primary(), Err("last keyword must be END".to_string()));

    let mut hdu = HDU::init();
    hdu.headers.push(FITSHeader::new_raw(&[0xFF; 10], &[b' '; 70]));
    assert_eq!(
        hdu.validate_primary(),
        Err("first keyword must be SIMPLE, found: ?".to_string())
    );
}

#[test]
fn validate_primary_compares_whole_keywords() {
    // A last keyword that only starts with END is not END.
    let mut hdu = HDU::init();
    hdu.add_header("SIMPLE", FITSValue::Logical(true));
    hdu.add_header("BITPIX", FITSValue::Integer(8));
    hdu.add_header("NAXIS", FITSValue::Integer(0));
    hdu.add_header("ENDTIME", FITSValue::Integer(5));
    assert_eq!(hdu.validate_primary(), Err("last keyword must be END".to_string()));

    // A first keyword that only starts with SIMPLE is not SIMPLE.
    let mut hdu = HDU::init();
    hdu.add_header("SIMPLEX", FITSValue::Logical(true));
    hdu.add_header("BITPIX", FITSValue::Integer(8));
    hdu.add_header("NAXIS", FITSValue::Integer(0));
    hdu.headers.push(FITSHeader::end_hdu());
    assert_eq!(
        hdu.validate_primary(),
        Err("first keyword must be SIMPLE, found: SIMPLE".to_string())
    );

    // BITPIX2 does not stand for BITPIX.
    let mut hdu = HDU::init();
    hdu.add_header("SIMPLE", FITSValue::Logical(true));
    hdu.add_header("BITPIX2", FITSValue::Integer(8));
    hdu.add_header("NAXIS", FITSValue::Integer(0));
    hdu.headers.push(FITSHeader::end_hdu());
    assert_eq!(
        hdu.validate_primary(),
        Err("BITPIX keyword is required in the primary HDU".to_string())
    );
}
