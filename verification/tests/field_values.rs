use mp4box::edit::fields::{patch_field, FieldKind};
use mp4box::edit::EditError;

fn fixed1616(value: &str) -> Result<u32, EditError> {
    let mut p = vec![0u8; 8];
    patch_field(&mut p, 2, FieldKind::Fixed1616, value)?;
    Ok(u32::from_be_bytes([p[2], p[3], p[4], p[5]]))
}

fn fixed88(value: &str) -> Result<u16, EditError> {
    let mut p = vec![0u8; 4];
    patch_field(&mut p, 1, FieldKind::Fixed88, value)?;
    Ok(u16::from_be_bytes([p[1], p[2]]))
}

#[test]
fn fixed_point_accepts_float_forms() {
    assert_eq!(fixed1616(".5"), Ok(0x8000));
    assert_eq!(fixed1616("1."), Ok(0x10000));
    assert_eq!(fixed1616("1e1"), Ok(0xA0000));
    assert_eq!(fixed1616("2.5e-1"), Ok(0x4000));
    assert_eq!(fixed1616("+1.5E+0"), Ok(0x18000));
    assert_eq!(fixed1616("0.1"), Ok(6554));
    assert_eq!(fixed1616("1.0000000000000000000001"), Ok(0x10000));
    assert_eq!(fixed88("0.75"), Ok(0xC0));
    assert_eq!(fixed88("255.999"), Ok(0xFFFF));
}

#[test]
fn fixed_point_rounds_halves_away_from_zero() {
    // 2^-17 is exactly half a 16.16 step.
    assert_eq!(fixed1616("0.00000762939453125"), Ok(1));
    assert_eq!(fixed1616("0.00000762939453124"), Ok(0));
    assert_eq!(fixed1616("762939453125e-17"), Ok(1));
}

#[test]
fn fixed_point_zero_and_negative() {
    assert_eq!(fixed1616("-0"), Ok(0));
    assert_eq!(fixed1616("-0.0e5"), Ok(0));
    assert_eq!(fixed1616("0e999999999999999999999"), Ok(0));
    assert_eq!(fixed1616("1e-999999999999999999999"), Ok(0));
    assert_eq!(fixed1616("-1"), Err(EditError::BadValue));
}

#[test]
fn fixed_point_refuses_out_of_range_and_malformed() {
    assert_eq!(fixed1616("65536"), Err(EditError::BadValue));
    assert_eq!(fixed1616("6.5536e4"), Err(EditError::BadValue));
    assert_eq!(fixed1616("1e999999999999999999999"), Err(EditError::BadValue));
    assert_eq!(fixed88("256"), Err(EditError::BadValue));
    for bad in ["", ".", "e5", "1e", "1e+", "1.2.3", "inf", "nan", "1_0", " 1", "0x10"] {
        assert_eq!(fixed1616(bad), Err(EditError::BadValue), "{bad:?}");
    }
}
