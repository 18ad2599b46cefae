//! Byte-level codec tests: eight-byte reals, integers, strings, framing
//! and the record table.

use float_cmp::{ApproxEq, F64Margin};
use gdsii::gds_real::encode_real;
use gdsii::{
    ascii_string, four_byte_int, frame_records, gdsii_eight_byte_real, record_type, two_byte_int,
    GdsErrorKind, GdsReal, PathEndType, Record, TextAnchor,
};

fn real_to_f64(r: GdsReal) -> f64 {
    let v = r.mant as f64 * 2_f64.powi(4_i32 * r.exp as i32 - 312_i32);
    if r.neg {
        -v
    } else {
        v
    }
}

fn f64_to_gds_real(v: f64) -> GdsReal {
    if v == 0.0 {
        return GdsReal { neg: false, exp: 0, mant: 0 };
    }
    let neg = v.is_sign_negative();
    let a = v.abs();
    let fexp = 0.25 * a.log2();
    let mut exponent = fexp.ceil();
    if exponent == fexp {
        exponent += 1.0;
    }
    let mantissa = a * 16_f64.powf(14_f64 - exponent);
    GdsReal { neg, exp: (exponent + 64.0) as u8, mant: mantissa as u64 }
}

#[test]
fn test_gdsii_eight_byte_real() {
    let mut byte = vec![
        0b01000001_u8,
        0b00010000_u8,
        0b00000000_u8,
        0b00000000_u8,
        0b00000000_u8,
        0b00000000_u8,
        0b00000000_u8,
        0b00000000_u8,
    ];

    assert!(1.0.approx_eq(real_to_f64(gdsii_eight_byte_real(&byte).unwrap()), F64Margin::default()));

    byte[0] = 0b01000010_u8;
    assert!(16.0.approx_eq(real_to_f64(gdsii_eight_byte_real(&byte).unwrap()), F64Margin::default()));

    byte[0] = 0b01000001_u8;
    byte[1] = 0b00001000_u8;
    assert!(0.5.approx_eq(real_to_f64(gdsii_eight_byte_real(&byte).unwrap()), F64Margin::default()));
}

#[test]
fn test_f64_to_gds_bytes() {
    let v = 1.0e-9;

    let mut gds_be_bytes = Vec::new();
    encode_real(f64_to_gds_real(v), &mut gds_be_bytes);
    let fv = real_to_f64(gdsii_eight_byte_real(&gds_be_bytes).unwrap());
    assert!(v.approx_eq(fv, F64Margin::default()));
}

#[test]
fn test_real_encode_decode_is_identity() {
    for v in [0.0, 1.0, -1.0, 90.0, 0.001, 12345.678, -0.25] {
        let r = f64_to_gds_real(v);
        let mut bytes = Vec::new();
        encode_real(r, &mut bytes);
        assert_eq!(bytes.len(), 8);
        assert_eq!(gdsii_eight_byte_real(&bytes).unwrap(), r);
    }
}

#[test]
fn test_real_from_uint() {
    let one = GdsReal::from_uint(1, false);
    assert_eq!(one, GdsReal { neg: false, exp: 65, mant: 0x10_0000_0000_0000 });
    assert!(1.0.approx_eq(real_to_f64(one), F64Margin::default()));
    let ninety = GdsReal::from_uint(90, true);
    assert!((-90.0).approx_eq(real_to_f64(ninety), F64Margin::default()));
    assert_eq!(GdsReal::from_uint(0, true), GdsReal { neg: false, exp: 0, mant: 0 });
}

#[test]
fn test_default_units_reals() {
    assert!(0.001.approx_eq(real_to_f64(GdsReal::milli()), F64Margin::default()));
    assert!(1.0e-9.approx_eq(real_to_f64(GdsReal::nano()), F64Margin::default()));
}

#[test]
fn test_eight_byte_real_wrong_length() {
    let e = gdsii_eight_byte_real(&[0u8; 7]).unwrap_err();
    assert_eq!(e.kind, GdsErrorKind::InvalidFloat);
}

#[test]
fn test_two_byte_int_values() {
    let vals = two_byte_int(&[0x00, 0x01, 0xFF, 0xFF, 0x80, 0x00]).unwrap();
    assert_eq!(vals, vec![1, -1, -32768]);
    let e = two_byte_int(&[0x00, 0x01, 0xFF]).unwrap_err();
    assert_eq!(e.kind, GdsErrorKind::MalformedRecord);
}

#[test]
fn test_four_byte_int_values() {
    let vals = four_byte_int(&[0x00, 0x00, 0x01, 0x2C, 0xFF, 0xFF, 0xFF, 0xFE]).unwrap();
    assert_eq!(vals, vec![300, -2]);
    let e = four_byte_int(&[0x00, 0x00, 0x01]).unwrap_err();
    assert_eq!(e.kind, GdsErrorKind::MalformedRecord);
}

#[test]
fn test_ascii_string_strip_and_reject() {
    assert_eq!(ascii_string(b"AB\0").unwrap(), b"AB");
    assert_eq!(ascii_string(b"AB").unwrap(), b"AB");
    assert_eq!(ascii_string(b"").unwrap(), b"");
    let e = ascii_string(&[0x41, 0xC3]).unwrap_err();
    assert_eq!(e.kind, GdsErrorKind::NonAscii);
}

#[test]
fn test_frame_records_tiles_buffer() {
    // two records: a 6-byte HEADER and a 4-byte ENDLIB
    let buf = [0x00, 0x06, 0x00, 0x02, 0x02, 0x58, 0x00, 0x04, 0x04, 0x00];
    let frames = frame_records(&buf).unwrap();
    assert_eq!(frames, vec![(0, 6), (6, 10)]);
}

#[test]
fn test_frame_records_zero_length() {
    let buf = [0x00, 0x06, 0x00, 0x02, 0x02, 0x58, 0x00, 0x00, 0x04, 0x00];
    let e = frame_records(&buf).unwrap_err();
    assert_eq!(e.kind, GdsErrorKind::ZeroLengthRecord);
    assert_eq!(e.offset, Some(6));
}

#[test]
fn test_frame_records_truncated() {
    let buf = [0x00, 0x06, 0x00, 0x02, 0x02, 0x58, 0x00, 0x08, 0x04, 0x00];
    let e = frame_records(&buf).unwrap_err();
    assert_eq!(e.kind, GdsErrorKind::TruncatedBuffer);
    assert_eq!(e.offset, Some(6));
}

#[test]
fn test_record_type_header() {
    let rec = record_type(&[0x00, 0x06, 0x00, 0x02, 0x02, 0x58]).unwrap();
    assert!(matches!(rec, Record::Header { version: 600 }));
}

#[test]
fn test_record_type_unsupported_tag() {
    // NODE records are among the reserved tags this codec rejects
    let e = record_type(&[0x00, 0x04, 0x15, 0x00]).unwrap_err();
    assert_eq!(e.kind, GdsErrorKind::UnsupportedRecord);
}

#[test]
fn test_record_type_units_needs_two_reals() {
    let mut buf = vec![0x00, 0x0C, 0x03, 0x05];
    buf.extend_from_slice(&[0x41, 0x10, 0, 0, 0, 0, 0, 0]);
    let e = record_type(&buf).unwrap_err();
    assert_eq!(e.kind, GdsErrorKind::InvalidFloat);
}

#[test]
fn test_record_type_xy_points() {
    let mut buf = vec![0x00, 0x14, 0x10, 0x03];
    for v in [0i32, 0, 200, 0] {
        buf.extend_from_slice(&v.to_be_bytes());
    }
    let rec = record_type(&buf).unwrap();
    match rec {
        Record::Points(pts) => {
            assert_eq!(pts.len(), 2);
            assert_eq!((pts[0].x, pts[0].y), (0, 0));
            assert_eq!((pts[1].x, pts[1].y), (200, 0));
        },
        _ => panic!("expected an xy record"),
    }
}

#[test]
fn test_ascii_string_to_be_bytes() {
    let bytes = gdsii::ascii_string_to_be_bytes("cellA_1?$");
    assert_eq!(bytes, b"cellA_1?$");
}

#[test]
fn test_text_anchor_numbers() {
    assert_eq!(gdsii::gds_model::text_anchor_to_gds_num(&TextAnchor::NW), 0);
    assert_eq!(gdsii::gds_model::text_anchor_to_gds_num(&TextAnchor::O), 5);
    assert_eq!(gdsii::gds_model::text_anchor_to_gds_num(&TextAnchor::SE), 10);
}

#[test]
fn test_path_end_type_values() {
    assert_eq!(PathEndType::from_i16(0).unwrap(), PathEndType::Square);
    assert_eq!(PathEndType::from_i16(1).unwrap(), PathEndType::Round);
    assert_eq!(PathEndType::from_i16(2).unwrap(), PathEndType::SquareHalfWidth);
    assert_eq!(PathEndType::from_i16(4).unwrap(), PathEndType::SquareExtend);
    assert!(PathEndType::from_i16(3).is_err());
    assert_eq!(PathEndType::SquareExtend.gds_num(), 4);
}
