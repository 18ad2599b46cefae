//! Library model tests: the arena, the name index, the reference graph.

use gdsii::{GdsErrorKind, Lib, Ref, Struc};

#[test]
fn test_lib_top_cell() {
    let mut gds_lib = Lib::default();
    let cell1 = gds_lib.add_struc(Struc::new("cell1")).unwrap();
    let cell2 = gds_lib.add_struc(Struc::new("cell2")).unwrap();
    let cell3 = gds_lib.add_struc(Struc::new("cell3")).unwrap();
    gds_lib.add_ref(cell2, Ref::new(cell3)).unwrap();
    gds_lib.add_ref(cell1, Ref::new(cell2)).unwrap();

    let top_cell = gds_lib.top_cells();
    assert_eq!(top_cell.len(), 1);
    assert!(top_cell[0] == cell1);
}

#[test]
fn test_lib_top_struc() {
    let mut gds_lib = Lib::new("test");
    let struc1 = gds_lib.add_struc(Struc::new("cell1")).unwrap();
    let struc2 = gds_lib.add_struc(Struc::new("cell2")).unwrap();
    let struc3 = gds_lib.add_struc(Struc::new("cell3")).unwrap();
    gds_lib.add_ref(struc2, Ref::new(struc3)).unwrap();
    gds_lib.add_ref(struc1, Ref::new(struc2)).unwrap();

    let top_struc = gds_lib.top_strucs();
    assert_eq!(top_struc.len(), 1);
    assert!(top_struc[0] == struc1);
}

#[test]
fn test_lib_add_cross_refer_struct_error() {
    let mut lib = Lib::new("test");
    let struc_1 = lib.add_struc(Struc::new("test_1")).unwrap();
    let struc_2 = lib.add_struc(Struc::new("test_2")).unwrap();
    // one direction of the cross reference is fine
    assert!(matches!(lib.add_ref(struc_2, Ref::new(struc_1)), Ok(_)));
    // closing the loop is rejected and the library keeps its state
    assert!(matches!(lib.add_ref(struc_1, Ref::new(struc_2)), Err(_)));
    assert!(lib.struc(struc_1).unwrap().refs.len() == 0);
}

#[test]
fn test_lib_add_same_name_diff_struct_error() {
    let mut lib = Lib::new("test");
    let struc_1 = Struc::new("test_1");
    let struc_2 = Struc::new("test_1");
    assert!(matches!(lib.add_struc(struc_1), Ok(_)));
    assert!(matches!(lib.add_struc(struc_2), Err(_)));
    assert!(lib.all_strucs().len() == 1);
}

#[test]
fn test_lib_top_struct() {
    let mut lib = Lib::new("test");
    let struc_1 = lib.add_struc(Struc::new("test_1")).unwrap();
    let struc_2 = lib.add_struc(Struc::new("test_2")).unwrap();
    let struc_3 = lib.add_struc(Struc::new("test_3")).unwrap();
    let struc_4 = lib.add_struc(Struc::new("test_4")).unwrap();

    assert!(matches!(lib.add_ref(struc_1, Ref::new(struc_3)), Ok(_)));
    assert!(matches!(lib.add_ref(struc_2, Ref::new(struc_3)), Ok(_)));
    assert!(matches!(lib.add_ref(struc_3, Ref::new(struc_4)), Ok(_)));
    let top_strucs = lib.top_strucs();
    assert!(top_strucs.len() == 2);

    assert!(top_strucs.iter().any(|v| *v == struc_1));
    assert!(top_strucs.iter().any(|v| *v == struc_2));

    assert!(lib.all_strucs().len() == 4);
}

#[test]
fn test_lib_remove_struc() {
    let mut lib = Lib::new("test");
    let struc_1 = lib.add_struc(Struc::new("test_1")).unwrap();
    let struc_2 = lib.add_struc(Struc::new("test_2")).unwrap();
    assert!(matches!(lib.add_ref(struc_1, Ref::new(struc_2)), Ok(_)));
    assert!(lib.top_strucs().len() == 1);
    assert!(lib.all_strucs().len() == 2);
    // only remove struc_1; struc_2 then is the top struc
    lib.remove_struc(struc_1);
    let top_s = lib.top_strucs();
    assert!(top_s.len() == 1);
    assert!(top_s[0] == struc_2);
}

#[test]
fn test_hierarchy_cycle_and_duplicate() {
    let mut lib = Lib::new("H");
    let c = lib.add_struc(Struc::new("C")).unwrap();
    let b = lib.add_struc(Struc::new("B")).unwrap();
    let a = lib.add_struc(Struc::new("A")).unwrap();
    lib.add_ref(a, Ref::new(b)).unwrap();
    lib.add_ref(a, Ref::new(c)).unwrap();
    lib.add_ref(b, Ref::new(c)).unwrap();

    let tops = lib.top_cells();
    assert_eq!(tops, vec![a]);

    // a reference of A to itself would close a cycle
    let e = lib.add_ref(a, Ref::new(a)).unwrap_err();
    assert_eq!(e.kind, GdsErrorKind::CycleDetected);
    // a longer cycle C -> A is also refused
    let e2 = lib.add_ref(c, Ref::new(a)).unwrap_err();
    assert_eq!(e2.kind, GdsErrorKind::CycleDetected);

    // a fourth cell named "B" with a different identity is refused
    let e3 = lib.add_struc(Struc::new("B")).unwrap_err();
    assert_eq!(e3.kind, GdsErrorKind::DuplicateCellName);
}

#[test]
fn test_dangling_reference_reported_on_write() {
    let mut lib = Lib::new("D");
    let inner = lib.add_struc(Struc::new("inner")).unwrap();
    let outer = lib.add_struc(Struc::new("outer")).unwrap();
    lib.add_ref(outer, Ref::new(inner)).unwrap();
    assert!(lib.gds_bytes().is_ok());
    // removing the target does not cascade; the dangling reference is
    // reported when the library is next serialized
    lib.remove_struc(inner);
    let e = lib.gds_bytes().unwrap_err();
    assert_eq!(e.kind, GdsErrorKind::UnresolvedReference);
}

#[test]
fn test_add_ref_to_missing_slot() {
    let mut lib = Lib::new("M");
    let a = lib.add_struc(Struc::new("A1")).unwrap();
    let e = lib.add_ref(a, Ref::new(a + 100)).unwrap_err();
    assert_eq!(e.kind, GdsErrorKind::UnresolvedReference);
}

#[test]
fn test_date_now_ranges() {
    let d = gdsii::Date::now();
    assert!(d.mod_month >= 1 && d.mod_month <= 12);
    assert!(d.mod_day >= 1 && d.mod_day <= 31);
    assert!(d.mod_hour <= 23 && d.mod_minute <= 59 && d.mod_second <= 59);
    assert_eq!(d.mod_year, d.acc_year);
    assert_eq!(d.mod_second, d.acc_second);
}
