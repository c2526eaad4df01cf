use rfitsio::hdu::headers::{FITSHeader, FITSValue};
use rfitsio::inspect::{
    bayer_cell_channels, bayer_source_index, extract_bayer_pattern, extract_fits_info, image_layout,
    last_entry_text, ImageLayout,
};
use rfitsio::HDU;

#[test]
fn bayer_pattern_is_upper_cased() {
    let mut hdu = HDU::init();
    hdu.add_header("BAYERPAT", FITSValue::Text("rggb".to_string()));
    assert_eq!(extract_bayer_pattern(&hdu), Some("RGGB".to_string()));
    let mut hdu = HDU::init();
    hdu.add_comment("BAYERPAT = 'RGGB'");
    assert_eq!(extract_bayer_pattern(&hdu), None);
    let mut hdu = HDU::init();
    hdu.add_header("BAYERPAT", FITSValue::Text("".to_string()));
    hdu.add_header("BAYERPAT", FITSValue::Text("GBRG".to_string()));
    assert_eq!(extract_bayer_pattern(&hdu), Some("GBRG".to_string()));
}

#[test]
fn fits_info_rows_in_table_order() {
    let mut hdu = HDU::init();
    hdu.add_header("BITPIX", FITSValue::Integer(16));
    hdu.add_header("EXPOSURE", FITSValue::Integer(30));
    hdu.add_header("EXPTIME", FITSValue::Integer(20));
    hdu.add_header("OBJECT", FITSValue::Text("M31".to_string()));
    hdu.add_header("OBJECT", FITSValue::Text("M42".to_string()));
    hdu.add_header("OBSERVER", FITSValue::Text("".to_string()));
    let rows = extract_fits_info(&hdu);
    assert_eq!(
        rows,
        vec![
            ("Object".to_string(), "M42".to_string()),
            ("Exposure".to_string(), "20".to_string()),
            ("Bit depth".to_string(), "16".to_string()),
        ]
    );
    assert!(extract_fits_info(&HDU::init()).is_empty());
}

#[test]
fn image_layout_of_planes() {
    let mut hdu = HDU::init();
    hdu.add_header("SIMPLE", FITSValue::Logical(true));
    hdu.add_header("BITPIX", FITSValue::Integer(-32));
    hdu.add_header("NAXIS", FITSValue::Integer(3));
    hdu.add_header("NAXIS1", FITSValue::Integer(4));
    hdu.add_header("NAXIS2", FITSValue::Integer(2));
    hdu.add_header("NAXIS3", FITSValue::Integer(3));
    hdu.headers.push(FITSHeader::end_hdu());
    hdu.add_data(vec![0; 96]);
    assert_eq!(
        image_layout(&hdu),
        Some(ImageLayout { width: 4, height: 2, nplanes: 3, bitpix: -32, byte_count: 96 })
    );
    hdu.data.data.truncate(95);
    assert_eq!(image_layout(&hdu), None);
}

#[test]
fn image_layout_rejects_non_images() {
    let mut hdu = HDU::init();
    hdu.add_header("BITPIX", FITSValue::Integer(8));
    hdu.add_header("NAXIS", FITSValue::Integer(1));
    hdu.add_header("NAXIS1", FITSValue::Integer(4));
    hdu.add_data(vec![0; 4]);
    assert_eq!(image_layout(&hdu), None);
    let mut hdu = HDU::init();
    hdu.add_header("BITPIX", FITSValue::Integer(12));
    hdu.add_header("NAXIS", FITSValue::Integer(2));
    hdu.add_header("NAXIS1", FITSValue::Integer(2));
    hdu.add_header("NAXIS2", FITSValue::Integer(2));
    hdu.add_data(vec![0; 4]);
    assert_eq!(image_layout(&hdu), None);
    // NAXIS3 other than 3 gives one plane.
    let mut hdu = HDU::init();
    hdu.add_header("BITPIX", FITSValue::Integer(8));
    hdu.add_header("NAXIS", FITSValue::Integer(3));
    hdu.add_header("NAXIS1", FITSValue::Integer(2));
    hdu.add_header("NAXIS2", FITSValue::Integer(2));
    hdu.add_header("NAXIS3", FITSValue::Integer(4));
    hdu.add_data(vec![0; 16]);
    assert_eq!(image_layout(&hdu).unwrap().nplanes, 1);
}

#[test]
fn bayer_cells_follow_pattern_letters() {
    assert_eq!(bayer_cell_channels("RGGB"), [0, 1, 1, 2]);
    assert_eq!(bayer_cell_channels("BGGR"), [2, 1, 1, 0]);
    assert_eq!(bayer_cell_channels("GR"), [1, 0, 1, 1]);
    assert_eq!(bayer_cell_channels(""), [1, 1, 1, 1]);
    assert_eq!(bayer_cell_channels("RGGBR"), [0, 1, 1, 2]);
}

#[test]
fn bayer_source_indices_cover_the_cell() {
    // A 4 x 4 image gives a 2 x 2 output; output pixel (1, 1) reads rows 2..4, columns 2..4.
    assert_eq!(bayer_source_index(4, 4, 1, 1, 0), 10);
    assert_eq!(bayer_source_index(4, 4, 1, 1, 1), 11);
    assert_eq!(bayer_source_index(4, 4, 1, 1, 2), 14);
    assert_eq!(bayer_source_index(4, 4, 1, 1, 3), 15);
    assert_eq!(bayer_source_index(5, 3, 0, 0, 3), 6);
}

#[test]
fn last_entry_text_takes_the_last_valued_record() {
    let mut hdu = HDU::init();
    assert_eq!(last_entry_text(&hdu, "BZERO"), None);
    hdu.add_header("BZERO", FITSValue::Integer(32768));
    hdu.add_header_with_comment("BSCALE", FITSValue::Integer(2), "scale");
    assert_eq!(last_entry_text(&hdu, "BZERO"), Some("32768".to_string()));
    assert_eq!(last_entry_text(&hdu, "BSCALE"), Some("2".to_string()));
    hdu.add_header("BZERO", FITSValue::Text("x".to_string()));
    assert_eq!(last_entry_text(&hdu, "BZERO"), Some("'x       '".to_string()));
    hdu.add_comment("BZERO = 7");
    assert_eq!(last_entry_text(&hdu, "BZERO"), Some("'x       '".to_string()));
}
