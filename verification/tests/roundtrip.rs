//! Whole-stream scenarios: serialize a library built through the API,
//! parse the bytes back, and compare.

use gdsii::{
    gdsii_eight_byte_real, parse_gds_bytes, GdsErrorKind, Lib, Path, PathEndType, Points, Polygon,
    Ref, Struc, Vector,
};

fn real_value(bytes: &[u8]) -> f64 {
    let r = gdsii_eight_byte_real(bytes).unwrap();
    let v = r.mant as f64 * 2_f64.powi(4_i32 * r.exp as i32 - 312_i32);
    if r.neg {
        -v
    } else {
        v
    }
}

fn find_subsequence(haystack: &[u8], needle: &[u8]) -> Option<usize> {
    if needle.len() > haystack.len() {
        return None;
    }
    (0..=haystack.len() - needle.len()).find(|&i| &haystack[i..i + needle.len()] == needle)
}

fn cell_id_by_name(lib: &Lib, name: &[u8]) -> usize {
    for id in lib.all_strucs() {
        if lib.struc(id).unwrap().name == name {
            return id;
        }
    }
    panic!("no cell of that name");
}

#[test]
fn test_empty_library_stream() {
    let lib = Lib::new("X");
    let bytes = lib.gds_bytes().unwrap();
    assert!(bytes.len() >= 40);
    assert_eq!(bytes.len(), 64);
    // HEADER with version 600
    assert_eq!(&bytes[0..6], &[0x00, 0x06, 0x00, 0x02, 0x02, 0x58]);
    // BGNLIB carrying the twelve date values
    assert_eq!(&bytes[6..10], &[0x00, 0x1C, 0x01, 0x02]);
    // LIBNAME "X", padded to even length
    assert_eq!(&bytes[34..40], &[0x00, 0x06, 0x02, 0x06, 0x58, 0x00]);
    // UNITS: database unit in user units, then in meters
    assert_eq!(&bytes[40..44], &[0x00, 0x14, 0x03, 0x05]);
    assert!((real_value(&bytes[44..52]) - 1.0e-3).abs() < 1.0e-12);
    assert!((real_value(&bytes[52..60]) - 1.0e-9).abs() < 1.0e-18);
    // ENDLIB
    assert_eq!(&bytes[60..64], &[0x00, 0x04, 0x04, 0x00]);
}

#[test]
fn test_single_triangle_round_trip() {
    let mut lib = Lib::new("TRI");
    let mut cell = Struc::new("A");
    let mut poly = Polygon::new();
    poly.layer = 7;
    poly.datatype = 0;
    poly.points = vec![Points::new(0, 0), Points::new(200, 0), Points::new(150, 150)];
    cell.polygons.push(poly);
    lib.add_struc(cell).unwrap();

    let bytes = lib.gds_bytes().unwrap();
    let lib2 = parse_gds_bytes(&bytes).unwrap();
    let ids = lib2.all_strucs();
    assert_eq!(ids.len(), 1);
    let c = lib2.struc(ids[0]).unwrap();
    assert_eq!(c.name, b"A");
    assert_eq!(c.polygons.len(), 1);
    // the closing vertex is stripped again on read: three, not four
    assert_eq!(c.polygons[0].points.len(), 3);
    assert_eq!(c.polygons[0].layer, 7);
    assert_eq!(c.polygons[0].datatype, 0);
    assert_eq!(
        c.polygons[0].points,
        vec![Points::new(0, 0), Points::new(200, 0), Points::new(150, 150)]
    );
}

#[test]
fn test_array_reference_round_trip() {
    let mut lib = Lib::new("ARR");
    let unit = lib.add_struc(Struc::new("unit")).unwrap();
    let mat = lib.add_struc(Struc::new("mat")).unwrap();
    let mut refer = Ref::new(unit);
    refer.origin = Points::new(300, 300);
    refer.column = 2;
    refer.row = 3;
    refer.spaceing_col = Vector::new(50, 400);
    refer.spaceing_row = Vector::new(400, 50);
    lib.add_ref(mat, refer).unwrap();

    let bytes = lib.gds_bytes().unwrap();
    // the AREF XY payload holds the origin and the two displaced corners
    let mut xy = vec![0x00, 0x1C, 0x10, 0x03];
    for v in [300i32, 300, 400, 1100, 1500, 450] {
        xy.extend_from_slice(&v.to_be_bytes());
    }
    assert!(find_subsequence(&bytes, &xy).is_some());

    let lib2 = parse_gds_bytes(&bytes).unwrap();
    let mat2 = cell_id_by_name(&lib2, b"mat");
    let c = lib2.struc(mat2).unwrap();
    assert_eq!(c.refs.len(), 1);
    let r = &c.refs[0];
    assert_eq!(r.origin, Points::new(300, 300));
    assert_eq!(r.column, 2);
    assert_eq!(r.row, 3);
    assert_eq!(r.spaceing_col, Vector::new(50, 400));
    assert_eq!(r.spaceing_row, Vector::new(400, 50));
    assert_eq!(lib2.struc(r.refed_struc).unwrap().name, b"unit");
}

#[test]
fn test_path_explicit_extend_round_trip() {
    let mut lib = Lib::new("P");
    let mut cell = Struc::new("W");
    let mut path = Path::new();
    path.layer = 3;
    path.end_type = PathEndType::SquareExtend;
    path.extend_begin = 10;
    path.extend_end = 20;
    path.width = 4;
    path.points = vec![Points::new(0, 0), Points::new(100, 0)];
    cell.paths.push(path);
    lib.add_struc(cell).unwrap();

    let bytes = lib.gds_bytes().unwrap();
    // both extension records are present
    assert!(find_subsequence(&bytes, &[0x00, 0x08, 0x30, 0x03, 0, 0, 0, 10]).is_some());
    assert!(find_subsequence(&bytes, &[0x00, 0x08, 0x31, 0x03, 0, 0, 0, 20]).is_some());

    let lib2 = parse_gds_bytes(&bytes).unwrap();
    let c = lib2.struc(cell_id_by_name(&lib2, b"W")).unwrap();
    assert_eq!(c.paths.len(), 1);
    let p = &c.paths[0];
    assert_eq!(p.end_type, PathEndType::SquareExtend);
    assert_eq!(p.extend_begin, 10);
    assert_eq!(p.extend_end, 20);
    assert_eq!(p.width, 4);
    assert_eq!(p.layer, 3);
    assert_eq!(p.points, vec![Points::new(0, 0), Points::new(100, 0)]);
}

#[test]
fn test_hierarchy_round_trip_keeps_dag() {
    let mut lib = Lib::new("HIER");
    let c = lib.add_struc(Struc::new("C")).unwrap();
    let b = lib.add_struc(Struc::new("B")).unwrap();
    let a = lib.add_struc(Struc::new("A")).unwrap();
    lib.add_ref(a, Ref::new(b)).unwrap();
    lib.add_ref(a, Ref::new(c)).unwrap();
    lib.add_ref(b, Ref::new(c)).unwrap();

    let bytes = lib.gds_bytes().unwrap();
    let lib2 = parse_gds_bytes(&bytes).unwrap();
    assert_eq!(lib2.all_strucs().len(), 3);
    let tops = lib2.top_cells();
    assert_eq!(tops.len(), 1);
    assert_eq!(lib2.struc(tops[0]).unwrap().name, b"A");
    // A holds two references, B one, C none
    assert_eq!(lib2.struc(cell_id_by_name(&lib2, b"A")).unwrap().refs.len(), 2);
    assert_eq!(lib2.struc(cell_id_by_name(&lib2, b"B")).unwrap().refs.len(), 1);
    assert_eq!(lib2.struc(cell_id_by_name(&lib2, b"C")).unwrap().refs.len(), 0);
}

fn push_record(buf: &mut Vec<u8>, tagdt: u16, payload: &[u8]) {
    buf.extend_from_slice(&((payload.len() as u16 + 4).to_be_bytes()));
    buf.extend_from_slice(&tagdt.to_be_bytes());
    buf.extend_from_slice(payload);
}

#[test]
fn test_orphan_property_rejected_with_offset() {
    let mut buf: Vec<u8> = Vec::new();
    push_record(&mut buf, 0x0002, &600i16.to_be_bytes());  // HEADER
    push_record(&mut buf, 0x0102, &[0u8; 24]);  // BGNLIB
    push_record(&mut buf, 0x0206, b"L\0");  // LIBNAME
    push_record(&mut buf, 0x0502, &[0u8; 24]);  // BGNSTR
    push_record(&mut buf, 0x0606, b"A\0");  // STRNAME
    push_record(&mut buf, 0x0800, b"");  // BOUNDARY
    let orphan_offset = buf.len();
    push_record(&mut buf, 0x2C06, b"x\0");  // PROPVALUE with no PROPATTR
    push_record(&mut buf, 0x1100, b"");  // ENDEL
    push_record(&mut buf, 0x0700, b"");  // ENDSTR
    push_record(&mut buf, 0x0400, b"");  // ENDLIB

    let e = parse_gds_bytes(&buf).unwrap_err();
    assert_eq!(e.kind, GdsErrorKind::OrphanProperty);
    assert_eq!(e.offset, Some(orphan_offset));
}

#[test]
fn test_writer_rejects_bad_layer_and_property() {
    let mut lib = Lib::new("BAD");
    let mut cell = Struc::new("E");
    let mut poly = Polygon::new();
    poly.layer = 300;
    cell.polygons.push(poly);
    lib.add_struc(cell).unwrap();
    let e = lib.gds_bytes().unwrap_err();
    assert_eq!(e.kind, GdsErrorKind::NameConstraint);

    let mut lib2 = Lib::new("BAD2");
    let mut cell2 = Struc::new("F");
    let mut poly2 = Polygon::new();
    poly2.property.insert(126, b"v".to_vec());
    cell2.polygons.push(poly2);
    lib2.add_struc(cell2).unwrap();
    let e2 = lib2.gds_bytes().unwrap_err();
    assert_eq!(e2.kind, GdsErrorKind::NameConstraint);
}

#[test]
fn test_writer_rejects_array_overflow() {
    let mut lib = Lib::new("OV");
    let unit = lib.add_struc(Struc::new("u1")).unwrap();
    let top = lib.add_struc(Struc::new("t1")).unwrap();
    let mut refer = Ref::new(unit);
    refer.origin = Points::new(i32::MAX, 0);
    refer.column = 2;
    refer.row = 1;
    refer.spaceing_col = Vector::new(i32::MAX, 0);
    refer.spaceing_row = Vector::new(0, 0);
    lib.add_ref(top, refer).unwrap();
    let e = lib.gds_bytes().unwrap_err();
    assert_eq!(e.kind, GdsErrorKind::CoordinateOverflow);
}

#[test]
fn test_text_round_trip() {
    let mut lib = Lib::new("TXT");
    let mut cell = Struc::new("T");
    let mut label = gdsii::Text::new();
    label.layer = 2;
    label.datatype = 1;
    label.text = b"hello".to_vec();
    label.position = Points::new(10, -20);
    label.anchor = gdsii::TextAnchor::NE;
    label.font = gdsii::TextFont::Fonts2;
    label.x_reflection = true;
    label.magnification = gdsii::GdsReal::from_uint(2, false);
    label.rotation = gdsii::GdsReal::from_uint(90, false);
    cell.label.push(label);
    lib.add_struc(cell).unwrap();

    let bytes = lib.gds_bytes().unwrap();
    let lib2 = parse_gds_bytes(&bytes).unwrap();
    let c = lib2.struc(cell_id_by_name(&lib2, b"T")).unwrap();
    assert_eq!(c.label.len(), 1);
    let t = &c.label[0];
    assert_eq!(t.text, b"hello");
    assert_eq!(t.layer, 2);
    assert_eq!(t.datatype, 1);
    assert_eq!(t.position, Points::new(10, -20));
    assert_eq!(t.anchor, gdsii::TextAnchor::NE);
    assert_eq!(t.font, gdsii::TextFont::Fonts2);
    assert!(t.x_reflection);
    assert_eq!(t.magnification, gdsii::GdsReal::from_uint(2, false));
    assert_eq!(t.rotation, gdsii::GdsReal::from_uint(90, false));
}

#[test]
fn test_properties_round_trip() {
    let mut lib = Lib::new("PR");
    let mut cell = Struc::new("PC");
    let mut poly = Polygon::new();
    poly.layer = 1;
    poly.points = vec![Points::new(0, 0), Points::new(1, 0), Points::new(1, 1)];
    poly.property.insert(2, b"alpha".to_vec());
    poly.property.insert(5, b"beta".to_vec());
    cell.polygons.push(poly);
    lib.add_struc(cell).unwrap();

    let bytes = lib.gds_bytes().unwrap();
    let lib2 = parse_gds_bytes(&bytes).unwrap();
    let c = lib2.struc(cell_id_by_name(&lib2, b"PC")).unwrap();
    let p = &c.polygons[0];
    assert_eq!(p.property.len(), 2);
    assert_eq!(p.property.get(2), Some(b"alpha".to_vec()));
    assert_eq!(p.property.get(5), Some(b"beta".to_vec()));
    assert_eq!(p.property.get(3), None);
}

#[test]
fn test_parse_rejects_unresolved_target() {
    let mut buf: Vec<u8> = Vec::new();
    push_record(&mut buf, 0x0002, &600i16.to_be_bytes());  // HEADER
    push_record(&mut buf, 0x0102, &[0u8; 24]);  // BGNLIB
    push_record(&mut buf, 0x0502, &[0u8; 24]);  // BGNSTR
    push_record(&mut buf, 0x0606, b"A\0");  // STRNAME
    push_record(&mut buf, 0x0A00, b"");  // SREF
    push_record(&mut buf, 0x1206, b"missing_");  // SNAME aimed nowhere
    let mut xy = Vec::new();
    xy.extend_from_slice(&0i32.to_be_bytes());
    xy.extend_from_slice(&0i32.to_be_bytes());
    push_record(&mut buf, 0x1003, &xy);  // XY
    push_record(&mut buf, 0x1100, b"");  // ENDEL
    push_record(&mut buf, 0x0700, b"");  // ENDSTR
    push_record(&mut buf, 0x0400, b"");  // ENDLIB

    let e = parse_gds_bytes(&buf).unwrap_err();
    assert_eq!(e.kind, GdsErrorKind::UnresolvedReference);
}

#[test]
fn test_parse_rejects_duplicate_cell_names() {
    let mut buf: Vec<u8> = Vec::new();
    push_record(&mut buf, 0x0002, &600i16.to_be_bytes());  // HEADER
    push_record(&mut buf, 0x0102, &[0u8; 24]);  // BGNLIB
    for _ in 0..2 {
        push_record(&mut buf, 0x0502, &[0u8; 24]);  // BGNSTR
        push_record(&mut buf, 0x0606, b"A\0");  // STRNAME
        push_record(&mut buf, 0x0700, b"");  // ENDSTR
    }
    push_record(&mut buf, 0x0400, b"");  // ENDLIB

    let e = parse_gds_bytes(&buf).unwrap_err();
    assert_eq!(e.kind, GdsErrorKind::DuplicateCellName);
}

#[test]
fn test_parse_rejects_non_ascii_name() {
    let mut buf: Vec<u8> = Vec::new();
    push_record(&mut buf, 0x0002, &600i16.to_be_bytes());  // HEADER
    push_record(&mut buf, 0x0102, &[0u8; 24]);  // BGNLIB
    push_record(&mut buf, 0x0206, &[0x4C, 0xC9]);  // LIBNAME with a non-ASCII byte
    push_record(&mut buf, 0x0400, b"");  // ENDLIB

    let e = parse_gds_bytes(&buf).unwrap_err();
    assert_eq!(e.kind, GdsErrorKind::NonAscii);
}

#[test]
fn test_parse_rejects_records_after_endlib() {
    let mut buf: Vec<u8> = Vec::new();
    push_record(&mut buf, 0x0002, &600i16.to_be_bytes());  // HEADER
    push_record(&mut buf, 0x0102, &[0u8; 24]);  // BGNLIB
    push_record(&mut buf, 0x0400, b"");  // ENDLIB
    push_record(&mut buf, 0x0400, b"");  // a second ENDLIB
    let e = parse_gds_bytes(&buf).unwrap_err();
    assert_eq!(e.kind, GdsErrorKind::MalformedRecord);
}
