use rfitsio::hdu::headers::{FITSHeader, FITSValue};
use rfitsio::parsing::{parse_bytes, ParseError};
use rfitsio::{FITSFile, HDU};

fn logical_record(keyword: &str, v: bool) -> [u8; 80] {
    let mut rec = [b' '; 80];
    for (i, &b) in keyword.as_bytes().iter().enumerate() {
        rec[i] = b;
    }
    rec[8] = b'=';
    let val = format!("{:>20}", if v { "T" } else { "F" });
    rec[10..30].copy_from_slice(val.as_bytes());
    rec
}

fn integer_record(keyword: &str, n: i64) -> [u8; 80] {
    let mut rec = [b' '; 80];
    for (i, &b) in keyword.as_bytes().iter().enumerate() {
        rec[i] = b;
    }
    rec[8] = b'=';
    let val = format!("{:>20}", n);
    rec[10..30].copy_from_slice(val.as_bytes());
    rec
}

fn text_record(keyword: &str, text: &str) -> [u8; 80] {
    let mut rec = [b' '; 80];
    for (i, &b) in keyword.as_bytes().iter().enumerate() {
        rec[i] = b;
    }
    rec[8] = b'=';
    let quoted = format!("'{:<8}'", text);
    for (i, &b) in quoted.as_bytes().iter().enumerate() {
        rec[10 + i] = b;
    }
    rec
}

fn end_record() -> [u8; 80] {
    let mut rec = [b' '; 80];
    rec[..3].copy_from_slice(b"END");
    rec
}

fn pad_block(bytes: &mut Vec<u8>, fill: u8) {
    let rem = bytes.len() % 2880;
    if rem != 0 {
        bytes.extend(std::iter::repeat(fill).take(2880 - rem));
    }
}

fn keyword(h: &FITSHeader) -> String {
    h.key_as_str()[..8].trim_end().to_string()
}

/// Build a minimal FITS primary HDU (NAXIS=0, no data) with blank-keyword
/// records interspersed before and after a real keyword.
fn fits_bytes_with_blanks() -> Vec<u8> {
    let records: Vec<[u8; 80]> = vec![
        logical_record("SIMPLE", true),
        integer_record("BITPIX", 8),
        integer_record("NAXIS", 0),
        [b' '; 80],                      // blank keyword before INSTRUME
        text_record("INSTRUME", "TEST"), // keyword that must survive blank
        [b' '; 80],                      // blank keyword before END
        end_record(),
    ];

    let mut bytes: Vec<u8> = records.into_iter().flatten().collect();
    pad_block(&mut bytes, b' ');
    bytes
}

#[test]
fn parser_reads_past_blank_keyword_records() {
    let data = fits_bytes_with_blanks();
    let fits = parse_bytes(&data).expect("parse failed");

    assert_eq!(fits.hdus.len(), 1);

    let headers = &fits.hdus[0].headers;
    // SIMPLE, BITPIX, NAXIS, blank, INSTRUME, blank, END = 7 records
    assert_eq!(headers.len(), 7, "wrong record count — parser may have stopped early");

    let found_instrume = headers.iter().any(|h| keyword(h) == "INSTRUME");
    assert!(
        found_instrume,
        "INSTRUME not found — parser stopped at blank keyword record"
    );

    assert_eq!(keyword(headers.last().unwrap()), "END");
}

#[test]
fn end_keyword_not_confused_with_keyword_starting_with_end() {
    let records: Vec<[u8; 80]> = vec![
        logical_record("SIMPLE", true),
        integer_record("BITPIX", 8),
        integer_record("NAXIS", 0),
        integer_record("ENDTIME", 42), // starts with "END" — must not stop here
        end_record(),
    ];

    let mut bytes: Vec<u8> = records.into_iter().flatten().collect();
    pad_block(&mut bytes, b' ');

    let fits = parse_bytes(&bytes).expect("parse failed");

    let headers = &fits.hdus[0].headers;
    // SIMPLE, BITPIX, NAXIS, ENDTIME, END = 5 records
    assert_eq!(headers.len(), 5, "wrong record count — parser may have stopped at ENDTIME");

    let found_endtime = headers.iter().any(|h| keyword(h) == "ENDTIME");
    assert!(found_endtime, "ENDTIME not found — parser stopped at keyword starting with END");
}

fn image_hdu() -> HDU {
    let mut hdu = HDU::init();
    hdu.add_header("SIMPLE", FITSValue::Logical(true));
    hdu.add_header("BITPIX", FITSValue::Integer(16));
    hdu.add_header("NAXIS", FITSValue::Integer(2));
    hdu.add_header("NAXIS1", FITSValue::Integer(3));
    hdu.add_header_with_comment("NAXIS2", FITSValue::Integer(2), "rows");
    hdu.headers.push(FITSHeader::end_hdu());
    hdu.data.add_i16(&[1, 2, 3, -4, -5, 300]);
    hdu
}

fn table_hdu() -> HDU {
    let mut hdu = HDU::init();
    hdu.add_header("XTENSION", FITSValue::Text("BINTABLE".to_string()));
    hdu.add_header("BITPIX", FITSValue::Integer(8));
    hdu.add_header("NAXIS", FITSValue::Integer(2));
    hdu.add_header("NAXIS1", FITSValue::Integer(4));
    hdu.add_header("NAXIS2", FITSValue::Integer(2));
    hdu.add_header("PCOUNT", FITSValue::Integer(3));
    hdu.add_header("GCOUNT", FITSValue::Integer(1));
    hdu.headers.push(FITSHeader::end_hdu());
    hdu.add_data((0u8..11).collect());
    hdu
}

#[test]
fn write_then_parse_gives_back_records_and_data() {
    let mut file = FITSFile::new();
    file.add_hdu(image_hdu());
    file.add_hdu(table_hdu());
    let bytes = file.to_bytes();
    let back = parse_bytes(&bytes).expect("parse failed");
    assert_eq!(back.hdus.len(), 2);
    for (a, b) in file.hdus.iter().zip(back.hdus.iter()) {
        assert_eq!(a.headers.len(), b.headers.len());
        for (x, y) in a.headers.iter().zip(b.headers.iter()) {
            assert_eq!(x.key, y.key);
            assert_eq!(x.value, y.value);
        }
    }
    // The data unit is read without its padding.
    assert_eq!(back.hdus[0].data.data, vec![0, 1, 0, 2, 0, 3, 0xFF, 0xFC, 0xFF, 0xFB, 1, 44]);
    // GCOUNT × (PCOUNT + NAXIS1 × NAXIS2) × 1 = 11 bytes.
    assert_eq!(back.hdus[1].data.data, (0u8..11).collect::<Vec<u8>>());
}

#[test]
fn truncated_data_unit_is_an_error() {
    let mut bytes = image_hdu().to_bytes();
    bytes.truncate(2880 + 11);
    assert_eq!(parse_bytes(&bytes).unwrap_err(), ParseError::UnexpectedEof);
}

#[test]
fn empty_and_partial_streams() {
    assert_eq!(parse_bytes(&[]).unwrap().hdus.len(), 0);
    // Fewer than 80 bytes: no record, no HDU.
    assert_eq!(parse_bytes(&[b' '; 79]).unwrap().hdus.len(), 0);
    // Records without END up to the end of the stream make one HDU.
    let mut bytes: Vec<u8> = integer_record("NAXIS", 0).to_vec();
    bytes.extend_from_slice(&[b' '; 30]);
    let fits = parse_bytes(&bytes).unwrap();
    assert_eq!(fits.hdus.len(), 1);
    assert_eq!(fits.hdus[0].headers.len(), 1);
}

#[test]
fn comment_after_value_and_unparsable_values() {
    // An unreadable NAXIS counts as 0: no data unit.
    let records: Vec<[u8; 80]> = vec![
        logical_record("SIMPLE", true),
        integer_record("BITPIX", 8),
        text_record("NAXIS", "two"),
        end_record(),
    ];
    let mut bytes: Vec<u8> = records.into_iter().flatten().collect();
    pad_block(&mut bytes, b' ');
    bytes.extend_from_slice(&logical_record("SIMPLE", true));
    bytes.extend_from_slice(&end_record());
    let fits = parse_bytes(&bytes).unwrap();
    assert_eq!(fits.hdus.len(), 2);
    assert!(fits.hdus[0].data.data.is_empty());
}

#[test]
fn data_size_scales_pcount_by_bytes_per_value() {
    // GCOUNT × (PCOUNT + NAXIS1) × |BITPIX|/8 = 1 × (1 + 1) × 2 = 4 bytes.
    let records: Vec<[u8; 80]> = vec![
        logical_record("SIMPLE", true),
        integer_record("BITPIX", 16),
        integer_record("NAXIS", 1),
        integer_record("NAXIS1", 1),
        integer_record("PCOUNT", 1),
        integer_record("GCOUNT", 1),
        end_record(),
    ];
    let mut bytes: Vec<u8> = records.into_iter().flatten().collect();
    pad_block(&mut bytes, b' ');
    bytes.extend_from_slice(&[1, 2, 3, 4, 5]);
    pad_block(&mut bytes, 0);
    let fits = parse_bytes(&bytes).unwrap();
    assert_eq!(fits.hdus.len(), 1);
    assert_eq!(fits.hdus[0].data.data, vec![1, 2, 3, 4]);

    // GCOUNT = 2 doubles it: 2 × (1 + 1) × 2 = 8 bytes; only 5 are there.
    let records: Vec<[u8; 80]> = vec![
        logical_record("SIMPLE", true),
        integer_record("BITPIX", 16),
        integer_record("NAXIS", 1),
        integer_record("NAXIS1", 1),
        integer_record("PCOUNT", 1),
        integer_record("GCOUNT", 2),
        end_record(),
    ];
    let mut bytes: Vec<u8> = records.into_iter().flatten().collect();
    pad_block(&mut bytes, b' ');
    bytes.extend_from_slice(&[1, 2, 3, 4, 5]);
    assert_eq!(parse_bytes(&bytes).unwrap_err(), ParseError::UnexpectedEof);
}
