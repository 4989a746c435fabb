use mp4box::registry::cicp::{labeled, matrix_name, primaries_name, transfer_name};

#[test]
fn names_hdr_code_points() {
    assert_eq!(primaries_name(9), Some("BT.2020"));
    assert_eq!(transfer_name(16), Some("PQ / SMPTE ST 2084"));
    assert_eq!(transfer_name(18), Some("HLG / ARIB STD-B67"));
    assert_eq!(matrix_name(9), Some("BT.2020 non-constant luminance"));
}

#[test]
fn unassigned_falls_through() {
    assert_eq!(transfer_name(200), None);
    assert_eq!(labeled(200, transfer_name(200)), "200");
    assert_eq!(labeled(16, transfer_name(16)), "16 (PQ / SMPTE ST 2084)");
}

#[test]
fn common_sdr_code_points_are_named() {
    assert_eq!(primaries_name(1), Some("BT.709"));
    assert_eq!(matrix_name(1), Some("BT.709"));
    assert_eq!(primaries_name(3), None);
}
