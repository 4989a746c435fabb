//! Version-aware, in-place patching of named fields inside known boxes.
//! Only the addressed bytes change: matrices, reserved regions and unknown
//! trailing data are preserved verbatim.

use vstd::prelude::*;
use vstd::string::StringSliceAdditionalSpecFns;
use crate::boxes::FourCC;
use crate::util::{
    all_digits, be_bytes, bytes_eq, digits_value, parse_unsigned, spec_parse_unsigned, unsigned_body,
    write_be,
};
use super::EditError;

verus! {

/// Wire format of a patchable field.
#[derive(Debug, Clone, Copy, PartialEq, Eq, Structural)]
pub enum FieldKind {
    U32,
    U64,
    I16,
    /// 16.16 fixed point, set from a decimal value (width, rate).
    Fixed1616,
    /// 8.8 fixed point (volume).
    Fixed88,
    /// ISO-639-2/T packed three-letter language code.
    Lang,
}

impl FieldKind {
    pub open spec fn spec_width(self) -> nat {
        match self {
            FieldKind::I16 | FieldKind::Fixed88 | FieldKind::Lang => 2,
            FieldKind::U32 | FieldKind::Fixed1616 => 4,
            FieldKind::U64 => 8,
        }
    }

    /// Size of the field in bytes.
    pub fn width(&self) -> (r: usize)
        ensures
            r == self.spec_width(),
    {
        match self {
            FieldKind::I16 | FieldKind::Fixed88 | FieldKind::Lang => 2,
            FieldKind::U32 | FieldKind::Fixed1616 => 4,
            FieldKind::U64 => 8,
        }
    }
}

/// Index of a known field name, or `None`.
pub open spec fn field_name_id(f: Seq<u8>) -> Option<int> {
    if f == seq![99u8, 114u8, 101u8, 97u8, 116u8, 105u8, 111u8, 110u8, 95u8, 116u8, 105u8, 109u8, 101u8] {
        Some(0)
    } else if f == seq![109u8, 111u8, 100u8, 105u8, 102u8, 105u8, 99u8, 97u8, 116u8, 105u8, 111u8, 110u8, 95u8, 116u8, 105u8, 109u8, 101u8] {
        Some(1)
    } else if f == seq![116u8, 105u8, 109u8, 101u8, 115u8, 99u8, 97u8, 108u8, 101u8] {
        Some(2)
    } else if f == seq![100u8, 117u8, 114u8, 97u8, 116u8, 105u8, 111u8, 110u8] {
        Some(3)
    } else if f == seq![114u8, 97u8, 116u8, 101u8] {
        Some(4)
    } else if f == seq![118u8, 111u8, 108u8, 117u8, 109u8, 101u8] {
        Some(5)
    } else if f == seq![110u8, 101u8, 120u8, 116u8, 95u8, 116u8, 114u8, 97u8, 99u8, 107u8, 95u8, 105u8, 100u8] {
        Some(6)
    } else if f == seq![116u8, 114u8, 97u8, 99u8, 107u8, 95u8, 105u8, 100u8] {
        Some(7)
    } else if f == seq![108u8, 97u8, 121u8, 101u8, 114u8] {
        Some(8)
    } else if f == seq![97u8, 108u8, 116u8, 101u8, 114u8, 110u8, 97u8, 116u8, 101u8, 95u8, 103u8, 114u8, 111u8, 117u8, 112u8] {
        Some(9)
    } else if f == seq![119u8, 105u8, 100u8, 116u8, 104u8] {
        Some(10)
    } else if f == seq![104u8, 101u8, 105u8, 103u8, 104u8, 116u8] {
        Some(11)
    } else if f == seq![108u8, 97u8, 110u8, 103u8, 117u8, 97u8, 103u8, 101u8] {
        Some(12)
    } else {
        None
    }
}

/// Index of a box with patchable fields: `mvhd`, `tkhd`, `mdhd`.
pub open spec fn field_box_id(cc: Seq<u8>) -> Option<int> {
    if cc == seq![109u8, 118u8, 104u8, 100u8] {
        Some(0)
    } else if cc == seq![116u8, 107u8, 104u8, 100u8] {
        Some(1)
    } else if cc == seq![109u8, 100u8, 104u8, 100u8] {
        Some(2)
    } else {
        None
    }
}

/// The field table: byte offset (from the version byte) and kind of each
/// known field, by box, version and field index.
pub open spec fn field_table(bx: int, version: u8, f: int) -> Option<(usize, FieldKind)> {
    if bx == 0 && version == 0 && f == 0 {
        Some((4usize, FieldKind::U32))
    } else if bx == 0 && version == 0 && f == 1 {
        Some((8usize, FieldKind::U32))
    } else if bx == 0 && version == 0 && f == 2 {
        Some((12usize, FieldKind::U32))
    } else if bx == 0 && version == 0 && f == 3 {
        Some((16usize, FieldKind::U32))
    } else if bx == 0 && version == 0 && f == 4 {
        Some((20usize, FieldKind::Fixed1616))
    } else if bx == 0 && version == 0 && f == 5 {
        Some((24usize, FieldKind::Fixed88))
    } else if bx == 0 && version == 0 && f == 6 {
        Some((96usize, FieldKind::U32))
    } else if bx == 0 && version == 1 && f == 0 {
        Some((4usize, FieldKind::U64))
    } else if bx == 0 && version == 1 && f == 1 {
        Some((12usize, FieldKind::U64))
    } else if bx == 0 && version == 1 && f == 2 {
        Some((20usize, FieldKind::U32))
    } else if bx == 0 && version == 1 && f == 3 {
        Some((24usize, FieldKind::U64))
    } else if bx == 0 && version == 1 && f == 4 {
        Some((32usize, FieldKind::Fixed1616))
    } else if bx == 0 && version == 1 && f == 5 {
        Some((36usize, FieldKind::Fixed88))
    } else if bx == 0 && version == 1 && f == 6 {
        Some((108usize, FieldKind::U32))
    } else if bx == 1 && version == 0 && f == 0 {
        Some((4usize, FieldKind::U32))
    } else if bx == 1 && version == 0 && f == 1 {
        Some((8usize, FieldKind::U32))
    } else if bx == 1 && version == 0 && f == 7 {
        Some((12usize, FieldKind::U32))
    } else if bx == 1 && version == 0 && f == 3 {
        Some((20usize, FieldKind::U32))
    } else if bx == 1 && version == 0 && f == 8 {
        Some((32usize, FieldKind::I16))
    } else if bx == 1 && version == 0 && f == 9 {
        Some((34usize, FieldKind::I16))
    } else if bx == 1 && version == 0 && f == 5 {
        Some((36usize, FieldKind::Fixed88))
    } else if bx == 1 && version == 0 && f == 10 {
        Some((76usize, FieldKind::Fixed1616))
    } else if bx == 1 && version == 0 && f == 11 {
        Some((80usize, FieldKind::Fixed1616))
    } else if bx == 1 && version == 1 && f == 0 {
        Some((4usize, FieldKind::U64))
    } else if bx == 1 && version == 1 && f == 1 {
        Some((12usize, FieldKind::U64))
    } else if bx == 1 && version == 1 && f == 7 {
        Some((20usize, FieldKind::U32))
    } else if bx == 1 && version == 1 && f == 3 {
        Some((28usize, FieldKind::U64))
    } else if bx == 1 && version == 1 && f == 8 {
        Some((44usize, FieldKind::I16))
    } else if bx == 1 && version == 1 && f == 9 {
        Some((46usize, FieldKind::I16))
    } else if bx == 1 && version == 1 && f == 5 {
        Some((48usize, FieldKind::Fixed88))
    } else if bx == 1 && version == 1 && f == 10 {
        Some((88usize, FieldKind::Fixed1616))
    } else if bx == 1 && version == 1 && f == 11 {
        Some((92usize, FieldKind::Fixed1616))
    } else if bx == 2 && version == 0 && f == 0 {
        Some((4usize, FieldKind::U32))
    } else if bx == 2 && version == 0 && f == 1 {
        Some((8usize, FieldKind::U32))
    } else if bx == 2 && version == 0 && f == 2 {
        Some((12usize, FieldKind::U32))
    } else if bx == 2 && version == 0 && f == 3 {
        Some((16usize, FieldKind::U32))
    } else if bx == 2 && version == 0 && f == 12 {
        Some((20usize, FieldKind::Lang))
    } else if bx == 2 && version == 1 && f == 0 {
        Some((4usize, FieldKind::U64))
    } else if bx == 2 && version == 1 && f == 1 {
        Some((12usize, FieldKind::U64))
    } else if bx == 2 && version == 1 && f == 2 {
        Some((20usize, FieldKind::U32))
    } else if bx == 2 && version == 1 && f == 3 {
        Some((24usize, FieldKind::U64))
    } else if bx == 2 && version == 1 && f == 12 {
        Some((32usize, FieldKind::Lang))
    } else {
        None
    }
}

/// Offset and kind of `field` in a box of type `cc` and the given version.
pub open spec fn spec_field_spec(cc: Seq<u8>, version: u8, field: Seq<u8>) -> Option<(usize, FieldKind)> {
    match (field_box_id(cc), field_name_id(field)) {
        (Some(bx), Some(f)) => field_table(bx, version, f),
        _ => None,
    }
}

fn field_name_index(f: &[u8]) -> (r: Option<usize>)
    ensures
        match field_name_id(f@) {
            Some(i) => r == Some(i as usize),
            None => r is None,
        },
{
    proof {
        assert([99u8, 114u8, 101u8, 97u8, 116u8, 105u8, 111u8, 110u8, 95u8, 116u8, 105u8, 109u8, 101u8]@ =~= seq![99u8, 114u8, 101u8, 97u8, 116u8, 105u8, 111u8, 110u8, 95u8, 116u8, 105u8, 109u8, 101u8]);
    }
    if bytes_eq(f, &[99u8, 114u8, 101u8, 97u8, 116u8, 105u8, 111u8, 110u8, 95u8, 116u8, 105u8, 109u8, 101u8]) {
        return Some(0);
    }
    proof {
        assert([109u8, 111u8, 100u8, 105u8, 102u8, 105u8, 99u8, 97u8, 116u8, 105u8, 111u8, 110u8, 95u8, 116u8, 105u8, 109u8, 101u8]@ =~= seq![109u8, 111u8, 100u8, 105u8, 102u8, 105u8, 99u8, 97u8, 116u8, 105u8, 111u8, 110u8, 95u8, 116u8, 105u8, 109u8, 101u8]);
    }
    if bytes_eq(f, &[109u8, 111u8, 100u8, 105u8, 102u8, 105u8, 99u8, 97u8, 116u8, 105u8, 111u8, 110u8, 95u8, 116u8, 105u8, 109u8, 101u8]) {
        return Some(1);
    }
    proof {
        assert([116u8, 105u8, 109u8, 101u8, 115u8, 99u8, 97u8, 108u8, 101u8]@ =~= seq![116u8, 105u8, 109u8, 101u8, 115u8, 99u8, 97u8, 108u8, 101u8]);
    }
    if bytes_eq(f, &[116u8, 105u8, 109u8, 101u8, 115u8, 99u8, 97u8, 108u8, 101u8]) {
        return Some(2);
    }
    proof {
        assert([100u8, 117u8, 114u8, 97u8, 116u8, 105u8, 111u8, 110u8]@ =~= seq![100u8, 117u8, 114u8, 97u8, 116u8, 105u8, 111u8, 110u8]);
    }
    if bytes_eq(f, &[100u8, 117u8, 114u8, 97u8, 116u8, 105u8, 111u8, 110u8]) {
        return Some(3);
    }
    proof {
        assert([114u8, 97u8, 116u8, 101u8]@ =~= seq![114u8, 97u8, 116u8, 101u8]);
    }
    if bytes_eq(f, &[114u8, 97u8, 116u8, 101u8]) {
        return Some(4);
    }
    proof {
        assert([118u8, 111u8, 108u8, 117u8, 109u8, 101u8]@ =~= seq![118u8, 111u8, 108u8, 117u8, 109u8, 101u8]);
    }
    if bytes_eq(f, &[118u8, 111u8, 108u8, 117u8, 109u8, 101u8]) {
        return Some(5);
    }
    proof {
        assert([110u8, 101u8, 120u8, 116u8, 95u8, 116u8, 114u8, 97u8, 99u8, 107u8, 95u8, 105u8, 100u8]@ =~= seq![110u8, 101u8, 120u8, 116u8, 95u8, 116u8, 114u8, 97u8, 99u8, 107u8, 95u8, 105u8, 100u8]);
    }
    if bytes_eq(f, &[110u8, 101u8, 120u8, 116u8, 95u8, 116u8, 114u8, 97u8, 99u8, 107u8, 95u8, 105u8, 100u8]) {
        return Some(6);
    }
    proof {
        assert([116u8, 114u8, 97u8, 99u8, 107u8, 95u8, 105u8, 100u8]@ =~= seq![116u8, 114u8, 97u8, 99u8, 107u8, 95u8, 105u8, 100u8]);
    }
    if bytes_eq(f, &[116u8, 114u8, 97u8, 99u8, 107u8, 95u8, 105u8, 100u8]) {
        return Some(7);
    }
    proof {
        assert([108u8, 97u8, 121u8, 101u8, 114u8]@ =~= seq![108u8, 97u8, 121u8, 101u8, 114u8]);
    }
    if bytes_eq(f, &[108u8, 97u8, 121u8, 101u8, 114u8]) {
        return Some(8);
    }
    proof {
        assert([97u8, 108u8, 116u8, 101u8, 114u8, 110u8, 97u8, 116u8, 101u8, 95u8, 103u8, 114u8, 111u8, 117u8, 112u8]@ =~= seq![97u8, 108u8, 116u8, 101u8, 114u8, 110u8, 97u8, 116u8, 101u8, 95u8, 103u8, 114u8, 111u8, 117u8, 112u8]);
    }
    if bytes_eq(f, &[97u8, 108u8, 116u8, 101u8, 114u8, 110u8, 97u8, 116u8, 101u8, 95u8, 103u8, 114u8, 111u8, 117u8, 112u8]) {
        return Some(9);
    }
    proof {
        assert([119u8, 105u8, 100u8, 116u8, 104u8]@ =~= seq![119u8, 105u8, 100u8, 116u8, 104u8]);
    }
    if bytes_eq(f, &[119u8, 105u8, 100u8, 116u8, 104u8]) {
        return Some(10);
    }
    proof {
        assert([104u8, 101u8, 105u8, 103u8, 104u8, 116u8]@ =~= seq![104u8, 101u8, 105u8, 103u8, 104u8, 116u8]);
    }
    if bytes_eq(f, &[104u8, 101u8, 105u8, 103u8, 104u8, 116u8]) {
        return Some(11);
    }
    proof {
        assert([108u8, 97u8, 110u8, 103u8, 117u8, 97u8, 103u8, 101u8]@ =~= seq![108u8, 97u8, 110u8, 103u8, 117u8, 97u8, 103u8, 101u8]);
    }
    if bytes_eq(f, &[108u8, 97u8, 110u8, 103u8, 117u8, 97u8, 103u8, 101u8]) {
        return Some(12);
    }
    None
}

fn field_box_index(cc: &[u8; 4]) -> (r: Option<usize>)
    ensures
        match field_box_id(cc@) {
            Some(i) => r == Some(i as usize),
            None => r is None,
        },
{
    let c = FourCC(*cc);
    proof {
        assert([109u8, 118u8, 104u8, 100u8]@ =~= seq![109u8, 118u8, 104u8, 100u8]);
        assert([116u8, 107u8, 104u8, 100u8]@ =~= seq![116u8, 107u8, 104u8, 100u8]);
        assert([109u8, 100u8, 104u8, 100u8]@ =~= seq![109u8, 100u8, 104u8, 100u8]);
    }
    if c.equals([109u8, 118u8, 104u8, 100u8]) {
        Some(0)
    } else if c.equals([116u8, 107u8, 104u8, 100u8]) {
        Some(1)
    } else if c.equals([109u8, 100u8, 104u8, 100u8]) {
        Some(2)
    } else {
        None
    }
}

/// Byte offset (relative to the start of the box payload, i.e. the version
/// byte) and kind of `field` in a `fourcc` box of the given version, or
/// `None` for unknown box/field combinations.
pub fn field_spec(fourcc: &[u8; 4], version: u8, field: &str) -> (r: Option<(usize, FieldKind)>)
    ensures
        r == spec_field_spec(fourcc@, version, field.spec_bytes()),
{
    let bx = match field_box_index(fourcc) {
        Some(b) => b,
        None => return None,
    };
    let f = match field_name_index(field.as_bytes()) {
        Some(f) => f,
        None => return None,
    };
    if bx == 0 && version == 0 && f == 0 {
        Some((4usize, FieldKind::U32))
    } else if bx == 0 && version == 0 && f == 1 {
        Some((8usize, FieldKind::U32))
    } else if bx == 0 && version == 0 && f == 2 {
        Some((12usize, FieldKind::U32))
    } else if bx == 0 && version == 0 && f == 3 {
        Some((16usize, FieldKind::U32))
    } else if bx == 0 && version == 0 && f == 4 {
        Some((20usize, FieldKind::Fixed1616))
    } else if bx == 0 && version == 0 && f == 5 {
        Some((24usize, FieldKind::Fixed88))
    } else if bx == 0 && version == 0 && f == 6 {
        Some((96usize, FieldKind::U32))
    } else if bx == 0 && version == 1 && f == 0 {
        Some((4usize, FieldKind::U64))
    } else if bx == 0 && version == 1 && f == 1 {
        Some((12usize, FieldKind::U64))
    } else if bx == 0 && version == 1 && f == 2 {
        Some((20usize, FieldKind::U32))
    } else if bx == 0 && version == 1 && f == 3 {
        Some((24usize, FieldKind::U64))
    } else if bx == 0 && version == 1 && f == 4 {
        Some((32usize, FieldKind::Fixed1616))
    } else if bx == 0 && version == 1 && f == 5 {
        Some((36usize, FieldKind::Fixed88))
    } else if bx == 0 && version == 1 && f == 6 {
        Some((108usize, FieldKind::U32))
    } else if bx == 1 && version == 0 && f == 0 {
        Some((4usize, FieldKind::U32))
    } else if bx == 1 && version == 0 && f == 1 {
        Some((8usize, FieldKind::U32))
    } else if bx == 1 && version == 0 && f == 7 {
        Some((12usize, FieldKind::U32))
    } else if bx == 1 && version == 0 && f == 3 {
        Some((20usize, FieldKind::U32))
    } else if bx == 1 && version == 0 && f == 8 {
        Some((32usize, FieldKind::I16))
    } else if bx == 1 && version == 0 && f == 9 {
        Some((34usize, FieldKind::I16))
    } else if bx == 1 && version == 0 && f == 5 {
        Some((36usize, FieldKind::Fixed88))
    } else if bx == 1 && version == 0 && f == 10 {
        Some((76usize, FieldKind::Fixed1616))
    } else if bx == 1 && version == 0 && f == 11 {
        Some((80usize, FieldKind::Fixed1616))
    } else if bx == 1 && version == 1 && f == 0 {
        Some((4usize, FieldKind::U64))
    } else if bx == 1 && version == 1 && f == 1 {
        Some((12usize, FieldKind::U64))
    } else if bx == 1 && version == 1 && f == 7 {
        Some((20usize, FieldKind::U32))
    } else if bx == 1 && version == 1 && f == 3 {
        Some((28usize, FieldKind::U64))
    } else if bx == 1 && version == 1 && f == 8 {
        Some((44usize, FieldKind::I16))
    } else if bx == 1 && version == 1 && f == 9 {
        Some((46usize, FieldKind::I16))
    } else if bx == 1 && version == 1 && f == 5 {
        Some((48usize, FieldKind::Fixed88))
    } else if bx == 1 && version == 1 && f == 10 {
        Some((88usize, FieldKind::Fixed1616))
    } else if bx == 1 && version == 1 && f == 11 {
        Some((92usize, FieldKind::Fixed1616))
    } else if bx == 2 && version == 0 && f == 0 {
        Some((4usize, FieldKind::U32))
    } else if bx == 2 && version == 0 && f == 1 {
        Some((8usize, FieldKind::U32))
    } else if bx == 2 && version == 0 && f == 2 {
        Some((12usize, FieldKind::U32))
    } else if bx == 2 && version == 0 && f == 3 {
        Some((16usize, FieldKind::U32))
    } else if bx == 2 && version == 0 && f == 12 {
        Some((20usize, FieldKind::Lang))
    } else if bx == 2 && version == 1 && f == 0 {
        Some((4usize, FieldKind::U64))
    } else if bx == 2 && version == 1 && f == 1 {
        Some((12usize, FieldKind::U64))
    } else if bx == 2 && version == 1 && f == 2 {
        Some((20usize, FieldKind::U32))
    } else if bx == 2 && version == 1 && f == 3 {
        Some((24usize, FieldKind::U64))
    } else if bx == 2 && version == 1 && f == 12 {
        Some((32usize, FieldKind::Lang))
    } else {
        None
    }
}

// ---------- values ----------

/// A signed 16-bit integer as Rust's `FromStr` reads it: an optional sign,
/// then at least one ASCII digit, in range.
pub open spec fn spec_parse_i16(s: Seq<u8>) -> Option<int> {
    if s.len() > 0 && s[0] == 45 {
        let body = s.subrange(1, s.len() as int);
        if body.len() > 0 && all_digits(body) && digits_value(body) <= 32768 {
            Some(-(digits_value(body) as int))
        } else {
            None
        }
    } else {
        match spec_parse_unsigned(s, 32767) {
            Some(v) => Some(v as int),
            None => None,
        }
    }
}

/// A three-letter lowercase ISO-639-2 code packed into 15 bits.
pub open spec fn lang_code(b: Seq<u8>) -> Option<nat> {
    if b.len() == 3 && (forall|i: int| 0 <= i < 3 ==> 97 <= #[trigger] b[i] <= 122) {
        Some(((b[0] - 96) * 1024 + (b[1] - 96) * 32 + (b[2] - 96)) as nat)
    } else {
        None
    }
}

/// Ten to the power `k`.
pub open spec fn pow10(k: nat) -> nat
    decreases k,
{
    if k == 0 {
        1
    } else {
        10 * pow10((k - 1) as nat)
    }
}

/// Index of the first '.' at or after `i`, or the length.
pub open spec fn dot_from(s: Seq<u8>, i: int) -> int
    decreases s.len() - i,
    when 0 <= i <= s.len()
{
    if i >= s.len() {
        s.len() as int
    } else if s[i] == 46 {
        i
    } else {
        dot_from(s, i + 1)
    }
}

/// Index of the first 'e' or 'E' at or after `i`, or the length.
pub open spec fn exp_from(s: Seq<u8>, i: int) -> int
    decreases s.len() - i,
    when 0 <= i <= s.len()
{
    if i >= s.len() {
        s.len() as int
    } else if s[i] == 101 || s[i] == 69 {
        i
    } else {
        exp_from(s, i + 1)
    }
}

/// The text after an optional '+' or '-'.
pub open spec fn signed_body(s: Seq<u8>) -> Seq<u8> {
    if s.len() > 0 && (s[0] == 43 || s[0] == 45) {
        s.subrange(1, s.len() as int)
    } else {
        s
    }
}

/// A decimal number as Rust reads an `f64` from digits: an optional sign,
/// digits with an optional '.' (at least one digit in all), then an
/// optional exponent ('e' or 'E', an optional sign, at least one digit).
/// Gives its sign, its digits (integer part, then fraction part) and the
/// power of ten that scales them.
#[verifier::opaque]
pub open spec fn decimal_parts(s: Seq<u8>) -> Option<(bool, Seq<u8>, int)> {
    let neg = s.len() > 0 && s[0] == 45;
    let body = signed_body(s);
    let em = exp_from(body, 0);
    let mant = body.subrange(0, em);
    let d = dot_from(mant, 0);
    let ip = mant.subrange(0, d);
    let fp = if d < mant.len() {
        mant.subrange(d + 1, mant.len() as int)
    } else {
        Seq::empty()
    };
    let ex = if em < body.len() {
        body.subrange(em + 1, body.len() as int)
    } else {
        Seq::empty()
    };
    let ed = signed_body(ex);
    if all_digits(ip) && all_digits(fp) && ip.len() + fp.len() > 0 && (em < body.len() ==> ed.len() > 0
        && all_digits(ed)) {
        let e = if ex.len() > 0 && ex[0] == 45 {
            -(digits_value(ed) as int)
        } else {
            digits_value(ed) as int
        };
        Some((neg, ip + fp, e - fp.len()))
    } else {
        None
    }
}

/// `v`, or `max` when `v` is past it.
pub open spec fn sat(v: nat, max: nat) -> nat {
    if v > max {
        max
    } else {
        v
    }
}

/// A fixed-point field value: a decimal number (see `decimal_parts`) in
/// `[0, limit)`, times `scale`, rounded to the nearest integer with halves
/// away from zero; a result past the field's range saturates at `max`.
/// Zero with a minus sign is zero; other negative values, and text that is
/// not a number, are refused.
pub open spec fn spec_parse_fixed(s: Seq<u8>, scale: nat, limit: nat, max: nat) -> Option<nat> {
    match decimal_parts(s) {
        None => None,
        Some((neg, ds, e)) => fixed_value(neg, ds, e, scale, limit, max),
    }
}

/// The fixed-point encoding of the decimal with sign `neg`, digits `ds`
/// and power of ten `e` (see `spec_parse_fixed`).
pub open spec fn fixed_value(neg: bool, ds: Seq<u8>, e: int, scale: nat, limit: nat, max: nat) -> Option<nat> {
    let m = digits_value(ds);
    if m == 0 {
        Some(0)
    } else if neg {
        None
    } else if e >= 0 {
        let x = m * pow10(e as nat);
        if x >= limit {
            None
        } else {
            Some(sat(x * scale, max))
        }
    } else {
        let q = pow10((-e) as nat);
        if m >= limit * q {
            None
        } else {
            Some(sat((2 * m * scale + q) / (2 * q), max))
        }
    }
}

// ---------- facts about decimal values ----------

/// `decimal_parts` in terms of the pieces the text splits into.
proof fn lemma_parts(s: Seq<u8>, ip: Seq<u8>, fp: Seq<u8>, ex: Seq<u8>, has_exp: bool)
    requires
        ip == signed_body(s).subrange(0, exp_from(signed_body(s), 0)).subrange(
            0,
            dot_from(signed_body(s).subrange(0, exp_from(signed_body(s), 0)), 0),
        ),
        fp == {
            let mant = signed_body(s).subrange(0, exp_from(signed_body(s), 0));
            let d = dot_from(mant, 0);
            if d < mant.len() {
                mant.subrange(d + 1, mant.len() as int)
            } else {
                Seq::empty()
            }
        },
        has_exp == (exp_from(signed_body(s), 0) < signed_body(s).len()),
        ex == if has_exp {
            signed_body(s).subrange(exp_from(signed_body(s), 0) + 1, signed_body(s).len() as int)
        } else {
            Seq::empty()
        },
    ensures
        decimal_parts(s) == if all_digits(ip) && all_digits(fp) && ip.len() + fp.len() > 0 && (has_exp
            ==> signed_body(ex).len() > 0 && all_digits(signed_body(ex))) {
            Some(
                (
                    s.len() > 0 && s[0] == 45,
                    ip + fp,
                    (if ex.len() > 0 && ex[0] == 45 {
                        -(digits_value(signed_body(ex)) as int)
                    } else {
                        digits_value(signed_body(ex)) as int
                    }) - fp.len(),
                ),
            )
        } else {
            None
        },
{
    reveal(decimal_parts);
}

proof fn lemma_pow10_pos(k: nat)
    ensures
        pow10(k) >= 1,
    decreases k,
{
    if k > 0 {
        lemma_pow10_pos((k - 1) as nat);
    }
}

proof fn lemma_pow10_add(a: nat, b: nat)
    ensures
        pow10(a + b) == pow10(a) * pow10(b),
    decreases b,
{
    if b > 0 {
        let b1 = (b - 1) as nat;
        lemma_pow10_add(a, b1);
        assert(pow10(a + b) == 10 * pow10(a + b1));
        assert(pow10(b) == 10 * pow10(b1));
        let x = pow10(a);
        let y = pow10(b1);
        assert(x * (10 * y) == 10 * (x * y)) by (nonlinear_arith);
        assert(pow10(a + b) == pow10(a) * pow10(b));
    } else {
        assert(pow10(0) == 1);
        assert(pow10(a) * 1 == pow10(a));
    }
}

proof fn lemma_pow10_mono(a: nat, b: nat)
    requires
        a <= b,
    ensures
        pow10(a) <= pow10(b),
{
    lemma_pow10_add(a, (b - a) as nat);
    lemma_pow10_pos((b - a) as nat);
    lemma_pow10_pos(a);
    assert(pow10(a) * pow10((b - a) as nat) >= pow10(a)) by (nonlinear_arith)
        requires
            pow10((b - a) as nat) >= 1,
            pow10(a) >= 1,
    ;
}

/// Digits whose value is zero are all '0'.
proof fn lemma_zero_digits(s: Seq<u8>)
    requires
        all_digits(s),
    ensures
        digits_value(s) == 0 <==> forall|i: int| 0 <= i < s.len() ==> #[trigger] s[i] == 48,
    decreases s.len(),
{
    if s.len() > 0 {
        let t = s.drop_last();
        lemma_zero_digits(t);
        if digits_value(s) == 0 {
            assert forall|i: int| 0 <= i < s.len() implies #[trigger] s[i] == 48 by {
                if i < t.len() {
                    assert(t[i] == s[i]);
                }
            }
        }
        if forall|i: int| 0 <= i < s.len() ==> #[trigger] s[i] == 48 {
            assert forall|i: int| 0 <= i < t.len() implies #[trigger] t[i] == 48 by {
                assert(s[i] == 48);
            }
            assert(s[s.len() - 1] == 48);
        }
    }
}

/// Splitting off the last `j` digits: the value is the prefix's value
/// times `10^j` plus the suffix's, which is below `10^j`.
proof fn lemma_digits_split(s: Seq<u8>, j: nat)
    requires
        all_digits(s),
        j <= s.len(),
    ensures
        digits_value(s) == digits_value(s.subrange(0, s.len() - j)) * pow10(j) + digits_value(
            s.subrange(s.len() - j, s.len() as int),
        ),
        digits_value(s.subrange(s.len() - j, s.len() as int)) < pow10(j),
        digits_value(s) / pow10(j) == digits_value(s.subrange(0, s.len() - j)),
    decreases j,
{
    let n = s.len() as int;
    let suf = s.subrange(n - j, n);
    lemma_digits_bound(suf);
    if j == 0 {
        assert(s.subrange(0, n) =~= s);
        assert(suf =~= Seq::<u8>::empty());
        assert(pow10(0) == 1);
        assert(digits_value(s) * 1 == digits_value(s)) by (nonlinear_arith);
    } else {
        let t = s.drop_last();
        lemma_digits_split(t, (j - 1) as nat);
        let pre = s.subrange(0, n - j);
        assert(t.subrange(0, t.len() - (j - 1)) =~= pre);
        let tsuf = t.subrange(t.len() - (j - 1), t.len() as int);
        assert(suf.drop_last() =~= tsuf);
        assert(suf.last() == s.last());
        let p = digits_value(pre);
        let a = digits_value(tsuf);
        let l = (s.last() - 48) as nat;
        let q = pow10((j - 1) as nat);
        assert(digits_value(t) == p * q + a);
        assert(digits_value(s) == digits_value(t) * 10 + l);
        assert(digits_value(s) == (p * q + a) * 10 + l);
        assert(digits_value(suf) == digits_value(suf.drop_last()) * 10 + (suf.last() - 48) as nat);
        assert(digits_value(suf) == a * 10 + l);
        assert(pow10(j) == 10 * q);
        assert((p * q + a) * 10 + l == p * (10 * q) + (a * 10 + l)) by (nonlinear_arith);
        assert(all_digits(suf));
    }
    lemma_pow10_pos(j);
    vstd::arithmetic::div_mod::lemma_fundamental_div_mod_converse(
        digits_value(s) as int,
        pow10(j) as int,
        digits_value(s.subrange(0, n - j)) as int,
        digits_value(suf) as int,
    );
}

/// Rounding half away from zero through the doubled quotient.
proof fn lemma_round_half(z: nat, q: nat)
    requires
        q > 0,
    ensures
        (z + q) / (2 * q) == (z / q + 1) / 2,
{
    let w = z / q;
    let rr = z % q;
    vstd::arithmetic::div_mod::lemma_fundamental_div_mod(z as int, q as int);
    let h = (w + 1) / 2;
    let b = (w + 1) % 2;
    assert(z + q == (2 * h) * q + (b * q + rr)) by (nonlinear_arith)
        requires
            z == w * q + rr,
            w + 1 == 2 * h + b,
    ;
    assert(b * q + rr < 2 * q) by (nonlinear_arith)
        requires
            0 <= b <= 1,
            0 <= rr < q,
    ;
    assert((2 * h) * q == h * (2 * q)) by (nonlinear_arith);
    vstd::arithmetic::div_mod::lemma_fundamental_div_mod_converse(
        (z + q) as int,
        (2 * q) as int,
        h as int,
        (b * q + rr) as int,
    );
}

/// Dropping digits past the point where the step divides the power of
/// ten does not change the floor of the scaled value.
proof fn lemma_trunc_floor(m: nat, t: nat, r: nat, qq: nat, c: nat, d: nat)
    requires
        c > 0,
        d > 0,
        qq > 0,
        d % c == 0,
        m == t * qq + r,
        r < qq,
    ensures
        (m * c) / (d * qq) == (t * c) / d,
{
    let u = (t * c) / d;
    let v = (t * c) % d;
    vstd::arithmetic::div_mod::lemma_fundamental_div_mod((t * c) as int, d as int);
    let b = d / c;
    vstd::arithmetic::div_mod::lemma_fundamental_div_mod(d as int, c as int);
    assert(d == c * b);
    assert(v == c * (t - u * b)) by (nonlinear_arith)
        requires
            t * c == u * d + v,
            d == c * b,
    ;
    assert(v <= d - c) by (nonlinear_arith)
        requires
            v == c * (t - u * b),
            d == c * b,
            v < d,
            c > 0,
            v >= 0,
    ;
    assert(m * c == u * (d * qq) + (v * qq + r * c)) by (nonlinear_arith)
        requires
            m == t * qq + r,
            t * c == u * d + v,
    ;
    assert(v * qq + r * c < d * qq) by (nonlinear_arith)
        requires
            v <= d - c,
            r < qq,
            c > 0,
            v >= 0,
    ;
    vstd::arithmetic::div_mod::lemma_fundamental_div_mod_converse(
        (m * c) as int,
        (d * qq) as int,
        u as int,
        (v * qq + r * c) as int,
    );
}

/// The bytes a field value is written as, or `None` when the text is not
/// a valid value of the kind.
pub open spec fn encode_field(kind: FieldKind, v: Seq<u8>) -> Option<Seq<u8>> {
    match kind {
        FieldKind::U32 => match spec_parse_unsigned(v, u32::MAX as nat) {
            Some(n) => Some(be_bytes(n, 4)),
            None => None,
        },
        FieldKind::U64 => match spec_parse_unsigned(v, u64::MAX as nat) {
            Some(n) => Some(be_bytes(n, 8)),
            None => None,
        },
        FieldKind::I16 => match spec_parse_i16(v) {
            Some(x) => Some(be_bytes(((x + 65536) % 65536) as nat, 2)),
            None => None,
        },
        FieldKind::Fixed1616 => match spec_parse_fixed(v, 65536, 65536, u32::MAX as nat) {
            Some(n) => Some(be_bytes(n, 4)),
            None => None,
        },
        FieldKind::Fixed88 => match spec_parse_fixed(v, 256, 256, u16::MAX as nat) {
            Some(n) => Some(be_bytes(n, 2)),
            None => None,
        },
        FieldKind::Lang => match lang_code(v) {
            Some(n) => Some(be_bytes(n, 2)),
            None => None,
        },
    }
}

fn parse_i16(s: &[u8]) -> (r: Option<u64>)
    ensures
        match spec_parse_i16(s@) {
            Some(x) => r == Some(((x + 65536) % 65536) as u64),
            None => r is None,
        },
{
    if s.len() > 0 && s[0] == 45 {
        let body = crate::util::copy_range(s, 1, s.len());
        if body.len() == 0 || body[0] == 43 {
            proof {
                if body@.len() > 0 {
                    assert(!(48 <= body@[0] <= 57));
                }
            }
            return None;
        }
        proof {
            assert(unsigned_body(body@) == body@);
        }
        match parse_unsigned(body.as_slice(), 32768) {
            Some(v) => if v == 0 {
                Some(0)
            } else {
                Some(65536 - v)
            },
            None => None,
        }
    } else {
        match parse_unsigned(s, 32767) {
            Some(v) => Some(v),
            None => None,
        }
    }
}

fn lang_packed(b: &[u8]) -> (r: Option<u64>)
    ensures
        match lang_code(b@) {
            Some(n) => r == Some(n as u64),
            None => r is None,
        },
{
    if b.len() != 3 {
        return None;
    }
    if b[0] < 97 || b[0] > 122 || b[1] < 97 || b[1] > 122 || b[2] < 97 || b[2] > 122 {
        proof {
            assert(!(97 <= b@[0] <= 122) || !(97 <= b@[1] <= 122) || !(97 <= b@[2] <= 122));
        }
        return None;
    }
    proof {
        assert forall|i: int| 0 <= i < 3 implies 97 <= #[trigger] b@[i] <= 122 by {
            if i == 0 {
            } else if i == 1 {
            } else {
            }
        }
    }
    Some(((b[0] - 96) as u64) * 1024 + ((b[1] - 96) as u64) * 32 + ((b[2] - 96) as u64))
}

/// The scaled value of a decimal with more than 17 fraction places
/// depends on its first 17 only, for steps that divide `10^17`.
proof fn lemma_fixed_large(m: nat, t: nat, r: nat, k: nat, c: nat, lim: nat)
    requires
        k > 17,
        m == t * pow10((k - 17) as nat) + r,
        r < pow10((k - 17) as nat),
        c == 131072 || c == 512,
        lim >= 1,
    ensures
        m < lim * pow10(k) <==> t < lim * 100000000000000000,
        (c * m + pow10(k)) / (2 * pow10(k)) == ((t * c) / 100000000000000000 + 1) / 2,
{
    let j = (k - 17) as nat;
    let qq = pow10(j);
    let d: nat = 100000000000000000;
    lemma_pow10_add(17, j);
    assert(17 + j == k);
    reveal_with_fuel(pow10, 18);
    assert(pow10(17) == d);
    assert(pow10(k) == d * qq);
    lemma_pow10_pos(j);
    assert(m < lim * (d * qq) <==> t < lim * d) by (nonlinear_arith)
        requires
            m == t * qq + r,
            r < qq,
            qq >= 1,
    ;
    assert(d % c == 0);
    lemma_round_half(c * m, d * qq);
    assert(m * c == c * m) by (nonlinear_arith);
    lemma_trunc_floor(m, t, r, qq, c, d);
}

fn dot_index(s: &Vec<u8>) -> (r: usize)
    ensures
        r == dot_from(s@, 0),
        r <= s@.len(),
{
    let mut d: usize = 0;
    while d < s.len() && s[d] != 46
        invariant
            d <= s@.len(),
            dot_from(s@, 0) == dot_from(s@, d as int),
        decreases s@.len() - d,
    {
        d = d + 1;
    }
    d
}

fn exp_index(s: &Vec<u8>) -> (r: usize)
    ensures
        r == exp_from(s@, 0),
        r <= s@.len(),
{
    let mut d: usize = 0;
    while d < s.len() && s[d] != 101 && s[d] != 69
        invariant
            d <= s@.len(),
            exp_from(s@, 0) == exp_from(s@, d as int),
        decreases s@.len() - d,
    {
        d = d + 1;
    }
    d
}

fn is_digits(s: &[u8]) -> (r: bool)
    ensures
        r == all_digits(s@),
{
    let mut i: usize = 0;
    while i < s.len()
        invariant
            i <= s@.len(),
            forall|j: int| 0 <= j < i ==> 48 <= #[trigger] s@[j] <= 57,
        decreases s@.len() - i,
    {
        if s[i] < 48 || s[i] > 57 {
            return false;
        }
        i = i + 1;
    }
    true
}

fn all_zero(s: &[u8]) -> (r: bool)
    ensures
        r == forall|i: int| 0 <= i < s@.len() ==> #[trigger] s@[i] == 48,
{
    let mut i: usize = 0;
    while i < s.len()
        invariant
            i <= s@.len(),
            forall|j: int| 0 <= j < i ==> #[trigger] s@[j] == 48,
        decreases s@.len() - i,
    {
        if s[i] != 48 {
            return false;
        }
        i = i + 1;
    }
    true
}

/// The value of the first `n` digits, when it is below `bound`.
fn digits_below(s: &[u8], n: usize, bound: u128) -> (r: Option<u128>)
    requires
        n <= s@.len(),
        all_digits(s@.subrange(0, n as int)),
        0 < bound <= 0x1_0000_0000_0000_0000_0000_0000,
    ensures
        match r {
            Some(v) => v == digits_value(s@.subrange(0, n as int)) && v < bound,
            None => digits_value(s@.subrange(0, n as int)) >= bound,
        },
{
    let ghost w = s@.subrange(0, n as int);
    let mut acc: u128 = 0;
    let mut i: usize = 0;
    proof {
        assert(s@.subrange(0, 0) =~= Seq::<u8>::empty());
    }
    while i < n
        invariant
            i <= n <= s@.len(),
            w == s@.subrange(0, n as int),
            all_digits(w),
            acc == digits_value(s@.subrange(0, i as int)),
            acc < bound,
            bound <= 0x1_0000_0000_0000_0000_0000_0000,
        decreases n - i,
    {
        assert(48 <= w[i as int] <= 57);
        assert(s@.subrange(0, i + 1).drop_last() =~= s@.subrange(0, i as int));
        acc = acc * 10 + (s[i] - 48) as u128;
        i = i + 1;
        if acc >= bound {
            proof {
                assert(w.subrange(0, i as int) =~= s@.subrange(0, i as int));
                crate::util::lemma_digits_value_mono(w, i as int);
            }
            return None;
        }
    }
    Some(acc)
}

fn pow10_u128(k: u128) -> (r: u128)
    requires
        k <= 17,
    ensures
        r == pow10(k as nat),
        1 <= r <= 100000000000000000,
{
    let mut r: u128 = 1;
    let mut i: u128 = 0;
    while i < k
        invariant
            i <= k <= 17,
            r == pow10(i as nat),
            1 <= r <= pow10(i as nat),
            r <= 100000000000000000,
        decreases k - i,
    {
        proof {
            reveal_with_fuel(pow10, 18);
            lemma_pow10_mono((i + 1) as nat, 17);
        }
        r = r * 10;
        i = i + 1;
    }
    r
}

fn sat_u64(v: u128, max: u64) -> (r: u64)
    ensures
        r == sat(v as nat, max as nat),
{
    if v > max as u128 {
        max
    } else {
        v as u64
    }
}

/// A positive decimal with digits `ds` scaled by `10^e`, `e <= 4`.
fn fixed_whole(ds: &Vec<u8>, e: u128, scale: u64, limit: u64, max: u64) -> (r: Option<u64>)
    requires
        (scale == 65536 && limit == 65536 && max == u32::MAX) || (scale == 256 && limit == 256 && max
            == u16::MAX),
        all_digits(ds@),
        digits_value(ds@) >= 1,
        e <= 4,
    ensures
        match fixed_value(false, ds@, e as int, scale as nat, limit as nat, max as nat) {
            Some(n) => r == Some(n as u64),
            None => r is None,
        },
{
    let ghost m = digits_value(ds@);
    proof {
        assert(ds@.subrange(0, ds@.len() as int) =~= ds@);
    }
    let mv = match digits_below(ds.as_slice(), ds.len(), limit as u128) {
        Some(v) => v,
        None => {
            proof {
                lemma_pow10_pos(e as nat);
                assert(m * pow10(e as nat) >= m) by (nonlinear_arith)
                    requires
                        pow10(e as nat) >= 1,
                ;
            }
            return None;
        },
    };
    let p = pow10_u128(e);
    proof {
        lemma_pow10_mono(e as nat, 4);
        reveal_with_fuel(pow10, 5);
        assert(mv * p <= 65535 * 10000) by (nonlinear_arith)
            requires
                mv < 65536,
                p <= 10000,
        ;
    }
    let x = mv * p;
    if x >= limit as u128 {
        return None;
    }
    Some(sat_u64(x * scale as u128, max))
}

/// A positive decimal with digits `ds` scaled by `10^-k`, `k >= 1`.
fn fixed_frac(ds: &Vec<u8>, k: u128, scale: u64, limit: u64, max: u64) -> (r: Option<u64>)
    requires
        (scale == 65536 && limit == 65536 && max == u32::MAX) || (scale == 256 && limit == 256 && max
            == u16::MAX),
        all_digits(ds@),
        digits_value(ds@) >= 1,
        1 <= k,
    ensures
        match fixed_value(false, ds@, -(k as int), scale as nat, limit as nat, max as nat) {
            Some(n) => r == Some(n as u64),
            None => r is None,
        },
{
    let ghost m = digits_value(ds@);
    let n = ds.len();
    let c: u128 = 2 * scale as u128;
    proof {
        assert(ds@.subrange(0, ds@.len() as int) =~= ds@);
        assert(2 * m * scale == c * m) by (nonlinear_arith)
            requires
                c == 2 * scale,
        ;
    }
    if k <= 17 {
        let q = pow10_u128(k);
        let mv = match digits_below(ds.as_slice(), n, limit as u128 * q) {
            Some(v) => v,
            None => return None,
        };
        proof {
            lemma_round_half((c * m) as nat, q as nat);
            assert(mv * c <= 65536 * 100000000000000000 * 131072) by (nonlinear_arith)
                requires
                    mv < limit * q,
                    limit <= 65536,
                    q <= 100000000000000000,
                    c <= 131072,
            ;
        }
        let raw = ((mv * c) / q + 1) / 2;
        return Some(sat_u64(raw, max));
    }
    let j = k - 17;
    let d17: u128 = 100000000000000000;
    let t: u128 = if j >= n as u128 {
        proof {
            lemma_digits_bound(ds@);
            lemma_pow10_mono(n as nat, j as nat);
            lemma_fixed_large(m, 0, m, k as nat, c as nat, limit as nat);
        }
        0
    } else {
        let nj: usize = (n as u128 - j) as usize;
        proof {
            lemma_digits_split(ds@, j as nat);
            let tt = digits_value(ds@.subrange(0, nj as int));
            let rr = digits_value(ds@.subrange(nj as int, n as int));
            lemma_fixed_large(m, tt, rr, k as nat, c as nat, limit as nat);
            assert(all_digits(ds@.subrange(0, nj as int)));
        }
        match digits_below(ds.as_slice(), nj, limit as u128 * d17) {
            Some(v) => v,
            None => return None,
        }
    };
    let raw = ((t * c) / d17 + 1) / 2;
    Some(sat_u64(raw, max))
}

/// The fixed-point value of a number whose sign, digits `ds` (not all
/// zero), fraction length `fl` and exponent digits `ed` were read.
fn fixed_number(ds: &Vec<u8>, fl: usize, ed: &Vec<u8>, eneg: bool, scale: u64, limit: u64, max: u64) -> (r:
    Option<u64>)
    requires
        (scale == 65536 && limit == 65536 && max == u32::MAX) || (scale == 256 && limit == 256 && max
            == u16::MAX),
        all_digits(ds@),
        all_digits(ed@),
        digits_value(ds@) >= 1,
    ensures
        match fixed_value(
            false,
            ds@,
            (if eneg {
                -(digits_value(ed@) as int)
            } else {
                digits_value(ed@) as int
            }) - fl,
            scale as nat,
            limit as nat,
            max as nat,
        ) {
            Some(n) => r == Some(n as u64),
            None => r is None,
        },
{
    let ghost m = digits_value(ds@);
    let ghost ee: int = (if eneg {
        -(digits_value(ed@) as int)
    } else {
        digits_value(ed@) as int
    }) - fl;
    let n = ds.len();
    let f = fl as u128;
    proof {
        assert(ed@.subrange(0, ed@.len() as int) =~= ed@);
    }
    match digits_below(ed.as_slice(), ed.len(), 0x40_0000_0000_0000_0000) {
        None => {
            if eneg {
                proof {
                    let k = (-ee) as nat;
                    let c = 2 * scale;
                    lemma_digits_bound(ds@);
                    lemma_pow10_mono(n as nat + 6, k);
                    lemma_pow10_add(n as nat, 6);
                    reveal_with_fuel(pow10, 7);
                    assert(pow10(n as nat + 6) == pow10(n as nat) * 1000000);
                    assert(2 * m * scale < pow10(k)) by (nonlinear_arith)
                        requires
                            m < pow10(n as nat),
                            pow10(n as nat) * 1000000 <= pow10(k),
                            scale <= 65536,
                    ;
                    assert(m < limit * pow10(k)) by (nonlinear_arith)
                        requires
                            m < pow10(n as nat),
                            pow10(n as nat) <= pow10(k),
                            limit >= 1,
                    ;
                    vstd::arithmetic::div_mod::lemma_fundamental_div_mod_converse(
                        (2 * m * scale + pow10(k)) as int,
                        (2 * pow10(k)) as int,
                        0,
                        (2 * m * scale + pow10(k)) as int,
                    );
                }
                Some(0)
            } else {
                proof {
                    let e = ee as nat;
                    lemma_pow10_mono(5, e);
                    reveal_with_fuel(pow10, 6);
                    assert(m * pow10(e) >= limit) by (nonlinear_arith)
                        requires
                            m >= 1,
                            pow10(e) >= pow10(5),
                            pow10(5) == 100000,
                            limit <= 65536,
                    ;
                }
                None
            }
        },
        Some(a) => {
            let epos = if eneg {
                a == 0 && f == 0
            } else {
                a >= f
            };
            if epos {
                let e: u128 = if eneg {
                    0
                } else {
                    a - f
                };
                assert(e == ee);
                if e >= 5 {
                    proof {
                        lemma_pow10_mono(5, e as nat);
                        reveal_with_fuel(pow10, 6);
                        assert(m * pow10(e as nat) >= limit) by (nonlinear_arith)
                            requires
                                m >= 1,
                                pow10(e as nat) >= pow10(5),
                                pow10(5) == 100000,
                                limit <= 65536,
                        ;
                    }
                    return None;
                }
                fixed_whole(ds, e, scale, limit, max)
            } else {
                let k: u128 = if eneg {
                    a + f
                } else {
                    f - a
                };
                assert(k == -ee);
                fixed_frac(ds, k, scale, limit, max)
            }
        },
    }
}

/// Splits a number's text into its integer digits, fraction digits and
/// exponent (after the 'e'), and says whether there is an exponent.
fn split_number(s: &[u8]) -> (r: (Vec<u8>, Vec<u8>, Vec<u8>, bool))
    ensures
        r.0@ == signed_body(s@).subrange(0, exp_from(signed_body(s@), 0)).subrange(
            0,
            dot_from(signed_body(s@).subrange(0, exp_from(signed_body(s@), 0)), 0),
        ),
        r.1@ == {
            let mant = signed_body(s@).subrange(0, exp_from(signed_body(s@), 0));
            let d = dot_from(mant, 0);
            if d < mant.len() {
                mant.subrange(d + 1, mant.len() as int)
            } else {
                Seq::empty()
            }
        },
        r.3 == (exp_from(signed_body(s@), 0) < signed_body(s@).len()),
        r.2@ == if r.3 {
            signed_body(s@).subrange(exp_from(signed_body(s@), 0) + 1, signed_body(s@).len() as int)
        } else {
            Seq::empty()
        },
{
    let start: usize = if s.len() > 0 && (s[0] == 43 || s[0] == 45) {
        1
    } else {
        0
    };
    let body = crate::util::copy_range(s, start, s.len());
    proof {
        assert(body@ =~= signed_body(s@));
    }
    let em = exp_index(&body);
    let mant = crate::util::copy_range(body.as_slice(), 0, em);
    let d = dot_index(&mant);
    let ip = crate::util::copy_range(mant.as_slice(), 0, d);
    let fp = if d < mant.len() {
        crate::util::copy_range(mant.as_slice(), d + 1, mant.len())
    } else {
        Vec::new()
    };
    let has_exp = em < body.len();
    let ex = if has_exp {
        crate::util::copy_range(body.as_slice(), em + 1, body.len())
    } else {
        Vec::new()
    };
    (ip, fp, ex, has_exp)
}

fn parse_fixed(s: &[u8], scale: u64, limit: u64, max: u64) -> (r: Option<u64>)
    requires
        (scale == 65536 && limit == 65536 && max == u32::MAX) || (scale == 256 && limit == 256 && max
            == u16::MAX),
    ensures
        match spec_parse_fixed(s@, scale as nat, limit as nat, max as nat) {
            Some(n) => r == Some(n as u64),
            None => r is None,
        },
{
    let neg = s.len() > 0 && s[0] == 45;
    let (ip, fp, ex, has_exp) = split_number(s);
    let eneg = ex.len() > 0 && ex[0] == 45;
    let es: usize = if ex.len() > 0 && (ex[0] == 43 || ex[0] == 45) {
        1
    } else {
        0
    };
    let ed = crate::util::copy_range(ex.as_slice(), es, ex.len());
    proof {
        assert(ed@ =~= signed_body(ex@));
        lemma_parts(s@, ip@, fp@, ex@, has_exp);
    }
    if !is_digits(ip.as_slice()) || !is_digits(fp.as_slice()) || (ip.len() == 0 && fp.len() == 0) || (
    has_exp && (ed.len() == 0 || !is_digits(ed.as_slice()))) {
        return None;
    }
    let mut ds = crate::util::copy_range(ip.as_slice(), 0, ip.len());
    crate::util::push_bytes(&mut ds, fp.as_slice());
    proof {
        assert(ip@.subrange(0, ip@.len() as int) =~= ip@);
        assert(all_digits(ds@));
        if !has_exp {
            assert(ed@ =~= Seq::<u8>::empty());
        }
        assert(all_digits(ed@));
        lemma_zero_digits(ds@);
    }
    if all_zero(ds.as_slice()) {
        return Some(0);
    }
    if neg {
        return None;
    }
    fixed_number(&ds, fp.len(), &ed, eneg, scale, limit, max)
}

/// A run of `n` digits is worth less than `10^n`.
proof fn lemma_digits_bound(s: Seq<u8>)
    requires
        all_digits(s),
    ensures
        digits_value(s) < pow10(s.len()),
    decreases s.len(),
{
    if s.len() > 0 {
        lemma_digits_bound(s.drop_last());
        assert(all_digits(s.drop_last()));
    }
}

/// Why a field could not be patched.
pub open spec fn patch_error(payload_len: nat, offset: nat, kind: FieldKind, value: Seq<u8>) -> Option<EditError> {
    if offset + kind.spec_width() > payload_len {
        Some(EditError::FieldDoesNotFit)
    } else if encode_field(kind, value) is None {
        Some(EditError::BadValue)
    } else {
        None
    }
}

/// Parses `value` per the field kind and writes it into `payload` at
/// `offset`; every other byte is kept.
pub fn patch_field(payload: &mut Vec<u8>, offset: usize, kind: FieldKind, value: &str) -> (r: Result<
    (),
    EditError,
>)
    ensures
        match r {
            Ok(()) => patch_error(old(payload)@.len(), offset as nat, kind, value.spec_bytes()) is None
                && final(payload)@.len() == old(payload)@.len() && final(payload)@.subrange(
                offset as int,
                offset + kind.spec_width(),
            ) == encode_field(kind, value.spec_bytes()).unwrap() && forall|k: int|
                0 <= k < old(payload)@.len() && !(offset <= k < offset + kind.spec_width())
                    ==> final(payload)@[k] == old(payload)@[k],
            Err(e) => patch_error(old(payload)@.len(), offset as nat, kind, value.spec_bytes()) == Some(e)
                && *final(payload) == *old(payload),
        },
{
    let width = kind.width();
    if offset > payload.len() || width > payload.len() - offset {
        return Err(EditError::FieldDoesNotFit);
    }
    let v = value.as_bytes();
    let encoded: Option<u64> = match kind {
        FieldKind::U32 => parse_unsigned(v, 0xffff_ffffu64),
        FieldKind::U64 => parse_unsigned(v, u64::MAX),
        FieldKind::I16 => parse_i16(v),
        FieldKind::Fixed1616 => parse_fixed(v, 65536, 65536, 0xffff_ffffu64),
        FieldKind::Fixed88 => parse_fixed(v, 256, 256, 0xffffu64),
        FieldKind::Lang => lang_packed(v),
    };
    match encoded {
        None => Err(EditError::BadValue),
        Some(x) => {
            write_be(payload, offset, x, width);
            Ok(())
        },
    }
}

} // verus!
