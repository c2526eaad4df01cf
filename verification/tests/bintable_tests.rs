use rfitsio::hdu::bintable::{header_int, header_str, BinaryTable, ColumnValue, TForm, TFormType};
use rfitsio::hdu::headers::{FITSHeader, FITSValue};
use rfitsio::HDU;

#[test]
fn parse_float32() {
    let t = TForm::parse("1E").unwrap();
    assert_eq!(t.repeat, 1);
    assert_eq!(t.type_code, TFormType::Float32);
    assert_eq!(t.bytes_per_field(), 4);
}

#[test]
fn parse_repeated_int32() {
    let t = TForm::parse("4J").unwrap();
    assert_eq!(t.repeat, 4);
    assert_eq!(t.type_code, TFormType::Int32);
    assert_eq!(t.bytes_per_field(), 16);
}

#[test]
fn parse_char() {
    let t = TForm::parse("16A").unwrap();
    assert_eq!(t.repeat, 16);
    assert_eq!(t.type_code, TFormType::Char);
    assert_eq!(t.bytes_per_field(), 16);
}

#[test]
fn parse_bits() {
    let t = TForm::parse("9X").unwrap();
    assert_eq!(t.repeat, 9);
    assert_eq!(t.type_code, TFormType::Bit);
    assert_eq!(t.bytes_per_field(), 2); // ceil(9/8)
}

#[test]
fn parse_var_array_int32() {
    let t = TForm::parse("512P").unwrap();
    assert_eq!(t.type_code, TFormType::VarArrayInt32);
    assert_eq!(t.bytes_per_field(), 8); // always 8, repeat is heap hint
}

#[test]
fn parse_var_array_int64() {
    let t = TForm::parse("512Q").unwrap();
    assert_eq!(t.type_code, TFormType::VarArrayInt64);
    assert_eq!(t.bytes_per_field(), 16); // always 16
}

#[test]
fn parse_implicit_repeat_one() {
    let t = TForm::parse("E").unwrap();
    assert_eq!(t.repeat, 1);
    assert_eq!(t.type_code, TFormType::Float32);
}

#[test]
fn parse_unknown_type_returns_none() {
    assert!(TForm::parse("1Z").is_none());
}

#[test]
fn complex_float32_bytes() {
    let t = TForm::parse("2C").unwrap();
    assert_eq!(t.bytes_per_field(), 16); // 2 × 8
}

#[test]
fn complex_float64_bytes() {
    let t = TForm::parse("1M").unwrap();
    assert_eq!(t.bytes_per_field(), 16); // 1 × 16
}

#[test]
fn parse_edge_cases() {
    // Surrounding whitespace, lower case, a leading plus.
    let t = TForm::parse("  3i ").unwrap();
    assert_eq!((t.repeat, t.type_code), (3, TFormType::Int16));
    assert_eq!(TForm::parse("+2K").unwrap().repeat, 2);
    assert!(TForm::parse("").is_none());
    assert!(TForm::parse("12").is_none());
    assert!(TForm::parse("1EE").is_none());
    assert!(TForm::parse("-1E").is_none());
    assert!(TForm::parse("1 E").is_none());
    assert_eq!(TForm::parse("0L").unwrap().bytes_per_field(), 0);
}

fn table_hdu() -> HDU {
    let mut hdu = HDU::init();
    hdu.add_header("XTENSION", FITSValue::Text("bintable".to_string()));
    hdu.add_header("BITPIX", FITSValue::Integer(8));
    hdu.add_header("NAXIS", FITSValue::Integer(2));
    hdu.add_header("NAXIS1", FITSValue::Integer(10));
    hdu.add_header("NAXIS2", FITSValue::Integer(3));
    hdu.add_header("TFIELDS", FITSValue::Integer(3));
    hdu.add_header("TFORM1", FITSValue::Text("1J".to_string()));
    hdu.add_header("TTYPE1", FITSValue::Text("COUNT".to_string()));
    hdu.add_header("TUNIT1", FITSValue::Text("ct".to_string()));
    hdu.add_header_with_comment("TFORM2", FITSValue::Text("4A".to_string()), "label");
    hdu.add_header("TTYPE2", FITSValue::Text("NAME".to_string()));
    hdu.add_header("TFORM3", FITSValue::Text("2L".to_string()));
    hdu.headers.push(FITSHeader::end_hdu());
    let mut data = Vec::new();
    for (n, name, flags) in [(1i32, b"ab\0\0", b"TF"), (-2, b"wxyz", b"FF"), (300, b"q\0\0\0", b"TT")] {
        data.extend_from_slice(&n.to_be_bytes());
        data.extend_from_slice(name);
        data.extend_from_slice(flags);
    }
    hdu.add_data(data);
    hdu
}

#[test]
fn from_hdu_reads_layout() {
    let hdu = table_hdu();
    let t = BinaryTable::from_hdu(&hdu).unwrap();
    assert_eq!(t.nrows, 3);
    assert_eq!(t.row_bytes, 10);
    let cols = t.columns();
    assert_eq!(cols.len(), 3);
    assert_eq!(cols[0].name, "COUNT");
    assert_eq!(cols[0].unit, "ct");
    assert_eq!(cols[0].row_offset, 0);
    assert_eq!(cols[1].name, "NAME");
    assert_eq!(cols[1].unit, "");
    assert_eq!(cols[1].row_offset, 4);
    assert_eq!(cols[2].name, "");
    assert_eq!(cols[2].row_offset, 8);
    assert_eq!(cols[2].tform.type_code, TFormType::Logical);
}

#[test]
fn columns_decode_rows() {
    let hdu = table_hdu();
    let t = BinaryTable::from_hdu(&hdu).unwrap();
    let counts = t.column("COUNT").unwrap();
    assert_eq!(counts.len(), 3);
    match &counts[1] {
        ColumnValue::Int32(v) => assert_eq!(v, &vec![-2]),
        other => panic!("unexpected {:?}", other),
    }
    let names = t.column_at(1).unwrap();
    match (&names[0], &names[1], &names[2]) {
        (ColumnValue::Chars(a), ColumnValue::Chars(b), ColumnValue::Chars(c)) => {
            assert_eq!(a, "ab");
            assert_eq!(b, "wxyz");
            assert_eq!(c, "q");
        }
        other => panic!("unexpected {:?}", other),
    }
    match &t.column_at(2).unwrap()[0] {
        ColumnValue::Logical(v) => assert_eq!(v, &vec![true, false]),
        other => panic!("unexpected {:?}", other),
    }
    assert!(t.column("MISSING").is_none());
    assert!(t.column_at(3).is_none());
}

#[test]
fn rows_beyond_the_data_are_not_decoded() {
    let mut hdu = table_hdu();
    hdu.data.data.truncate(25);
    let t = BinaryTable::from_hdu(&hdu).unwrap();
    // Row 2 of column 1 would end at byte 28.
    assert_eq!(t.column_at(1).unwrap().len(), 2);
    assert_eq!(t.column_at(0).unwrap().len(), 3);
}

#[test]
fn from_hdu_rejects_other_extensions() {
    let mut hdu = HDU::init();
    hdu.add_header("XTENSION", FITSValue::Text("IMAGE".to_string()));
    hdu.headers.push(FITSHeader::end_hdu());
    assert!(BinaryTable::from_hdu(&hdu).is_none());
    let mut hdu = table_hdu();
    hdu.headers.remove(6); // TFORM1
    assert!(BinaryTable::from_hdu(&hdu).is_none());
    let empty = HDU::init();
    assert!(BinaryTable::from_hdu(&empty).is_none());
}

#[test]
fn float_columns_give_bit_patterns() {
    let mut hdu = HDU::init();
    hdu.add_header("XTENSION", FITSValue::Text("BINTABLE".to_string()));
    hdu.add_header("NAXIS1", FITSValue::Integer(24));
    hdu.add_header("NAXIS2", FITSValue::Integer(1));
    hdu.add_header("TFIELDS", FITSValue::Integer(2));
    hdu.add_header("TFORM1", FITSValue::Text("1E".to_string()));
    hdu.add_header("TFORM2", FITSValue::Text("1M".to_string()));
    hdu.headers.push(FITSHeader::end_hdu());
    let mut data = Vec::new();
    data.extend_from_slice(&1.5f32.to_be_bytes());
    data.extend_from_slice(&2.0f64.to_be_bytes());
    data.extend_from_slice(&(-1.0f64).to_be_bytes());
    hdu.add_data(data);
    let t = BinaryTable::from_hdu(&hdu).unwrap();
    match &t.column_at(0).unwrap()[0] {
        ColumnValue::Float32(v) => assert_eq!(f32::from_bits(v[0]), 1.5),
        other => panic!("unexpected {:?}", other),
    }
    match &t.column_at(1).unwrap()[0] {
        ColumnValue::ComplexFloat64(v) => {
            assert_eq!(f64::from_bits(v[0].0), 2.0);
            assert_eq!(f64::from_bits(v[0].1), -1.0);
        }
        other => panic!("unexpected {:?}", other),
    }
}

#[test]
fn header_lookup_reads_first_record() {
    let mut hdu = HDU::init();
    hdu.add_header("XTENSION", FITSValue::Text("BINTABLE".to_string()));
    hdu.add_header_with_comment("NAXIS1", FITSValue::Integer(12), "bytes per row");
    hdu.add_header("NAXIS1", FITSValue::Integer(99));
    hdu.add_header("TTYPE1", FITSValue::Text("  flux ".to_string()));
    hdu.add_header("BADINT", FITSValue::Text("12".to_string()));
    assert_eq!(header_str(&hdu, "XTENSION"), Some("BINTABLE".to_string()));
    assert_eq!(header_str(&hdu, "TTYPE1"), Some("flux".to_string()));
    assert_eq!(header_str(&hdu, "NAXIS1"), Some("12".to_string()));
    assert_eq!(header_int(&hdu, "NAXIS1"), Some(12));
    assert_eq!(header_int(&hdu, "BADINT"), None);
    assert_eq!(header_int(&hdu, "TFIELDS"), None);
    assert_eq!(header_str(&hdu, "TFIELDS"), None);
    assert_eq!(header_str(&hdu, "XTENSIONX"), None);
}
