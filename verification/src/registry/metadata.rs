//! Decoders for file-type, handler, image-property and iTunes metadata
//! boxes: `ftyp`, `hdlr`, `kind`, `irot`, `imir`, `data`, `mean`, `name`.

use vstd::prelude::*;
use crate::boxes::BoxHeader;
use crate::util::{
    copy_range, debug_str, push_decimal, push_signed, push_str, spec_debug_str, spec_decimal,
    spec_signed_decimal, spec_utf8_lossy, utf8_exact, utf8_lossy,
};
use super::codecs::{is_text, kv};
use super::data::{BoxValue, DecodeError, FieldSpan, HdlrData, StructuredData};
use super::decoders::{at, read_at, span_is};

verus! {

// ---------- helpers ----------

/// Index of the first zero byte at or after `pos`, or the end.
pub open spec fn first_zero(p: Seq<u8>, pos: int) -> int
    decreases p.len() - pos,
{
    if pos >= p.len() || pos < 0 {
        p.len() as int
    } else if p[pos] == 0u8 {
        pos
    } else {
        first_zero(p, pos + 1)
    }
}

pub proof fn lemma_first_zero(p: Seq<u8>, pos: int)
    requires
        0 <= pos <= p.len(),
    ensures
        pos <= first_zero(p, pos) <= p.len(),
        first_zero(p, pos) < p.len() ==> p[first_zero(p, pos)] == 0u8,
        forall|j: int| pos <= j < first_zero(p, pos) ==> p[j] != 0u8,
    decreases p.len() - pos,
{
    if pos < p.len() && p[pos] != 0u8 {
        lemma_first_zero(p, pos + 1);
    }
}

/// Finds the first zero byte at or after `pos`.
pub fn find_zero(p: &[u8], pos: usize) -> (r: usize)
    requires
        pos <= p@.len(),
    ensures
        r == first_zero(p@, pos as int),
{
    let mut i = pos;
    while i < p.len()
        invariant
            pos <= i <= p@.len(),
            first_zero(p@, pos as int) == first_zero(p@, i as int),
        decreases p@.len() - i,
    {
        if p[i] == 0u8 {
            return i;
        }
        i = i + 1;
    }
    i
}

/// The `{:?}` rendering of the lossy text of `bytes`.
pub open spec fn quoted(bytes: Seq<u8>) -> Seq<char> {
    spec_debug_str(spec_utf8_lossy(bytes))
}

fn push_quoted(t: &mut String, p: &[u8], start: usize, end: usize)
    requires
        start <= end <= p@.len(),
    ensures
        final(t)@ == old(t)@ + quoted(p@.subrange(start as int, end as int)),
{
    let b = copy_range(p, start, end);
    let s = utf8_lossy(b.as_slice());
    let d = debug_str(s.as_str());
    push_str(t, d.as_str());
}

// ---------- ftyp ----------

/// The `i`-th compatible brand, as lossy text.
pub open spec fn brand(p: Seq<u8>, i: int) -> Seq<char> {
    spec_utf8_lossy(p.subrange(8 + 4 * i, 12 + 4 * i))
}

/// The first `k` compatible brands, each quoted, separated by ", ".
pub open spec fn brand_list(p: Seq<u8>, k: nat) -> Seq<char>
    decreases k,
{
    if k == 0 {
        Seq::empty()
    } else if k == 1 {
        spec_debug_str(brand(p, 0))
    } else {
        brand_list(p, (k - 1) as nat) + ", "@ + spec_debug_str(brand(p, k - 1))
    }
}

pub open spec fn ftyp_text(p: Seq<u8>) -> Seq<char> {
    if p.len() < 8 {
        kv("ftyp: payload too short (", p.len()) + " bytes)"@
    } else {
        "major="@ + spec_utf8_lossy(p.subrange(0, 4)) + kv(" minor=", at(p, 4, 4))
            + " compatible=["@ + brand_list(p, ((p.len() - 8) / 4) as nat) + "]"@
    }
}

/// ftyp: major brand, minor version and the list of compatible brands
/// (whole four-byte groups only).
pub struct FtypDecoder;

impl FtypDecoder {
    pub fn decode(&self, payload: &[u8], hdr: &BoxHeader, version: Option<u8>, flags: Option<u32>) -> (r:
        Result<BoxValue, DecodeError>)
        ensures
            is_text(r, ftyp_text(payload@)),
    {
        let p = payload;
        let n = p.len();
        let mut t = String::new();
        if n < 8 {
            push_str(&mut t, "ftyp: payload too short (");
            push_decimal(&mut t, n as u64);
            push_str(&mut t, " bytes)");
            proof {
                assert(t@ =~= ftyp_text(p@));
            }
            return Ok(BoxValue::Text(t));
        }
        push_str(&mut t, "major=");
        let major = copy_range(p, 0, 4);
        let ms = utf8_lossy(major.as_slice());
        push_str(&mut t, ms.as_str());
        push_str(&mut t, " minor=");
        push_decimal(&mut t, read_at(p, 4, 4));
        push_str(&mut t, " compatible=[");
        let count = (n - 8) / 4;
        let ghost head = t@;
        let mut k: usize = 0;
        while k < count
            invariant
                k <= count,
                count == (n - 8) / 4,
                n == p@.len(),
                n >= 8,
                t@ == head + brand_list(p@, k as nat),
            decreases count - k,
        {
            if k > 0 {
                push_str(&mut t, ", ");
            }
            let b = copy_range(p, 8 + 4 * k, 12 + 4 * k);
            let s = utf8_lossy(b.as_slice());
            let d = debug_str(s.as_str());
            push_str(&mut t, d.as_str());
            proof {
                if k == 0 {
                    assert(brand_list(p@, 0) =~= Seq::<char>::empty());
                }
                assert(t@ =~= head + brand_list(p@, (k + 1) as nat));
            }
            k = k + 1;
        }
        push_str(&mut t, "]");
        proof {
            assert(t@ =~= ftyp_text(p@));
        }
        Ok(BoxValue::Text(t))
    }
}

// ---------- hdlr ----------

/// `s` without its trailing zero bytes.
pub open spec fn strip_nuls(s: Seq<u8>) -> Seq<u8>
    decreases s.len(),
{
    if s.len() > 0 && s.last() == 0u8 {
        strip_nuls(s.drop_last())
    } else {
        s
    }
}

/// Index after the last nonzero byte of `p` at or after `start`, or `start`.
fn strip_end(p: &[u8], start: usize) -> (r: usize)
    requires
        start <= p@.len(),
    ensures
        start <= r <= p@.len(),
        p@.subrange(start as int, r as int) == strip_nuls(p@.subrange(start as int, p@.len() as int)),
{
    let mut e = p.len();
    while e > start && p[e - 1] == 0u8
        invariant
            start <= e <= p@.len(),
            strip_nuls(p@.subrange(start as int, p@.len() as int)) == strip_nuls(
                p@.subrange(start as int, e as int),
            ),
        decreases e,
    {
        proof {
            assert(p@.subrange(start as int, e as int).drop_last() =~= p@.subrange(
                start as int,
                e - 1,
            ));
        }
        e = e - 1;
    }
    e
}

/// hdlr: handler type and name. The type is the four bytes as text when
/// they are valid UTF-8, else `????`; the name is the rest of the payload
/// after the reserved words, trailing NULs removed, as lossy text.
pub struct HdlrDecoder;

impl HdlrDecoder {
    pub fn decode(&self, payload: &[u8], hdr: &BoxHeader, version: Option<u8>, flags: Option<u32>) -> (r:
        Result<BoxValue, DecodeError>)
        ensures
            ({
                let p = payload@;
                if p.len() < 20 {
                    r matches Err(DecodeError::Truncated)
                } else {
                    r matches Ok(BoxValue::Structured(StructuredData::HandlerReference(d)))
                        && d.version == (match version {
                        Some(x) => x,
                        None => 0,
                    }) && d.flags == (match flags {
                        Some(x) => x,
                        None => 0,
                    }) && d.handler_type@ == (if vstd::utf8::valid_utf8(p.subrange(4, 8)) {
                        vstd::utf8::decode_utf8(p.subrange(4, 8))
                    } else {
                        "????"@
                    }) && d.name@ == spec_utf8_lossy(strip_nuls(p.subrange(20, p.len() as int)))
                }
            }),
    {
        let p = payload;
        let n = p.len();
        if n < 20 {
            return Err(DecodeError::Truncated);
        }
        let ty = copy_range(p, 4, 8);
        let handler_type = match utf8_exact(ty.as_slice()) {
            Some(s) => s,
            None => "????".to_owned(),
        };
        let e = strip_end(p, 20);
        let name_bytes = copy_range(p, 20, e);
        let name = utf8_lossy(name_bytes.as_slice());
        Ok(
            BoxValue::Structured(
                StructuredData::HandlerReference(
                    HdlrData {
                        version: match version {
                            Some(x) => x,
                            None => 0,
                        },
                        flags: match flags {
                            Some(x) => x,
                            None => 0,
                        },
                        handler_type,
                        name,
                    },
                ),
            ),
        )
    }

    /// Where the handler type and the name lie in the payload.
    pub fn field_spans(&self, version: Option<u8>, flags: Option<u32>, payload_len: u64) -> (r: Vec<
        FieldSpan,
    >)
        ensures
            r@.len() == (if payload_len >= 8 { 1int } else { 0 }) + (if payload_len > 20 { 1int } else { 0 }),
            payload_len >= 8 ==> span_is(r@[0], "handler_type", 4, 4),
            payload_len > 20 ==> span_is(r@[r@.len() - 1], "name", 20, payload_len - 20),
    {
        let mut v: Vec<FieldSpan> = Vec::new();
        if payload_len >= 8 {
            v.push(FieldSpan { name: "handler_type".to_owned(), start: 4, length: 4 });
        }
        if payload_len > 20 {
            v.push(FieldSpan { name: "name".to_owned(), start: 20, length: payload_len - 20 });
        }
        v
    }
}

// ---------- kind, irot, imir ----------

pub open spec fn kind_text(p: Seq<u8>) -> Seq<char> {
    let z1 = first_zero(p, 0);
    "scheme_uri="@ + quoted(p.subrange(0, z1)) + " value="@ + if z1 >= p.len() {
        spec_debug_str(Seq::empty())
    } else {
        quoted(p.subrange(z1 + 1, first_zero(p, z1 + 1)))
    }
}

/// kind: the role's scheme URI and value, two NUL-terminated strings.
pub struct KindDecoder;

impl KindDecoder {
    pub fn decode(&self, payload: &[u8], hdr: &BoxHeader, version: Option<u8>, flags: Option<u32>) -> (r:
        Result<BoxValue, DecodeError>)
        ensures
            is_text(r, kind_text(payload@)),
    {
        let p = payload;
        let n = p.len();
        let mut t = String::new();
        let z1 = find_zero(p, 0);
        proof {
            lemma_first_zero(p@, 0);
        }
        push_str(&mut t, "scheme_uri=");
        push_quoted(&mut t, p, 0, z1);
        push_str(&mut t, " value=");
        if z1 >= n {
            let d = debug_str("");
            proof {
                reveal_strlit("");
                assert(""@ =~= Seq::<char>::empty());
            }
            push_str(&mut t, d.as_str());
        } else {
            let z2 = find_zero(p, z1 + 1);
            proof {
                lemma_first_zero(p@, z1 + 1);
            }
            push_quoted(&mut t, p, z1 + 1, z2);
        }
        proof {
            assert(t@ =~= kind_text(p@));
        }
        Ok(BoxValue::Text(t))
    }
}

/// irot: image rotation, in multiples of 90 degrees anticlockwise.
pub struct IrotDecoder;

impl IrotDecoder {
    pub fn decode(&self, payload: &[u8], hdr: &BoxHeader, version: Option<u8>, flags: Option<u32>) -> (r:
        Result<BoxValue, DecodeError>)
        requires
            payload@.len() == 0 || payload@[0] % 4 != 3,
        ensures
            if payload@.len() == 0 {
                r matches Err(DecodeError::Truncated)
            } else {
                is_text(r, kv("angle=", (payload@[0] % 4 * 90) as nat) + "°"@)
            },
    {
        if payload.len() == 0 {
            return Err(DecodeError::Truncated);
        }
        let mut t = String::new();
        push_str(&mut t, "angle=");
        push_decimal(&mut t, (payload[0] % 4 * 90) as u64);
        push_str(&mut t, "°");
        proof {
            assert(t@ =~= kv("angle=", (payload@[0] % 4 * 90) as nat) + "°"@);
        }
        Ok(BoxValue::Text(t))
    }
}

pub open spec fn imir_axis(b: u8) -> Seq<char> {
    if b % 2 == 0 {
        "vertical (top-bottom)"@
    } else {
        "horizontal (left-right)"@
    }
}

/// imir: image mirroring axis.
pub struct ImirDecoder;

impl ImirDecoder {
    pub fn decode(&self, payload: &[u8], hdr: &BoxHeader, version: Option<u8>, flags: Option<u32>) -> (r:
        Result<BoxValue, DecodeError>)
        ensures
            if payload@.len() == 0 {
                r matches Err(DecodeError::Truncated)
            } else {
                is_text(r, "axis="@ + imir_axis(payload@[0]))
            },
    {
        if payload.len() == 0 {
            return Err(DecodeError::Truncated);
        }
        let mut t = String::new();
        push_str(&mut t, "axis=");
        if payload[0] % 2 == 0 {
            push_str(&mut t, "vertical (top-bottom)");
        } else {
            push_str(&mut t, "horizontal (left-right)");
        }
        Ok(BoxValue::Text(t))
    }
}

// ---------- iTunes data, mean, name ----------

/// A big-endian signed integer of 1, 2, 4 or 8 bytes at `pos`; 0 for
/// other widths.
pub open spec fn signed_be(p: Seq<u8>, pos: int, n: int) -> int {
    if n == 1 {
        (at(p, pos, 1) as u8) as i8 as int
    } else if n == 2 {
        (at(p, pos, 2) as u16) as i16 as int
    } else if n == 4 {
        (at(p, pos, 4) as u32) as i32 as int
    } else if n == 8 {
        (at(p, pos, 8) as u64) as i64 as int
    } else {
        0
    }
}

/// A big-endian unsigned integer of 1, 2, 4 or 8 bytes at `pos`; 0 for
/// other widths.
pub open spec fn unsigned_be(p: Seq<u8>, pos: int, n: int) -> nat {
    if n == 1 || n == 2 || n == 4 || n == 8 {
        at(p, pos, n)
    } else {
        0
    }
}

pub open spec fn ilst_data_text(p: Seq<u8>, code: nat) -> Seq<char> {
    let v = p.subrange(4, p.len() as int);
    let m = (p.len() - 4) as int;
    if code == 1 {
        "type=utf8 value="@ + quoted(v)
    } else if code == 13 {
        kv("type=jpeg (", m as nat) + " bytes)"@
    } else if code == 14 {
        kv("type=png (", m as nat) + " bytes)"@
    } else if code == 21 {
        "type=int value="@ + spec_signed_decimal(signed_be(p, 4, m))
    } else if code == 22 {
        kv("type=uint value=", unsigned_be(p, 4, m))
    } else {
        kv("type_code=", code) + kv(" (", m as nat) + " bytes)"@
    }
}

/// data: an iTunes metadata value, rendered by its type code (the low 24
/// bits of the flags): UTF-8 text, image sizes, or signed and unsigned
/// big-endian integers.
pub struct IlstDataDecoder;

impl IlstDataDecoder {
    pub fn decode(&self, payload: &[u8], hdr: &BoxHeader, version: Option<u8>, flags: Option<u32>) -> (r:
        Result<BoxValue, DecodeError>)
        ensures
            if payload@.len() < 4 {
                r matches Err(DecodeError::Truncated)
            } else {
                is_text(
                    r,
                    ilst_data_text(
                        payload@,
                        (match flags {
                            Some(x) => x,
                            None => 0,
                        } % 0x100_0000) as nat,
                    ),
                )
            },
    {
        let p = payload;
        let n = p.len();
        if n < 4 {
            return Err(DecodeError::Truncated);
        }
        let code: u32 = match flags {
            Some(x) => x,
            None => 0,
        } % 0x100_0000;
        let m = n - 4;
        let mut t = String::new();
        if code == 1 {
            push_str(&mut t, "type=utf8 value=");
            push_quoted(&mut t, p, 4, n);
        } else if code == 13 {
            push_str(&mut t, "type=jpeg (");
            push_decimal(&mut t, m as u64);
            push_str(&mut t, " bytes)");
        } else if code == 14 {
            push_str(&mut t, "type=png (");
            push_decimal(&mut t, m as u64);
            push_str(&mut t, " bytes)");
        } else if code == 21 {
            push_str(&mut t, "type=int value=");
            let v: i64 = if m == 1 {
                read_at(p, 4, 1) as u8 as i8 as i64
            } else if m == 2 {
                read_at(p, 4, 2) as u16 as i16 as i64
            } else if m == 4 {
                read_at(p, 4, 4) as u32 as i32 as i64
            } else if m == 8 {
                read_at(p, 4, 8) as i64
            } else {
                0
            };
            push_signed(&mut t, v);
        } else if code == 22 {
            push_str(&mut t, "type=uint value=");
            let v: u64 = if m == 1 || m == 2 || m == 4 || m == 8 {
                read_at(p, 4, m)
            } else {
                0
            };
            push_decimal(&mut t, v);
        } else {
            push_str(&mut t, "type_code=");
            push_decimal(&mut t, code as u64);
            push_str(&mut t, " (");
            push_decimal(&mut t, m as u64);
            push_str(&mut t, " bytes)");
        }
        proof {
            assert(t@ =~= ilst_data_text(p@, code as nat));
        }
        Ok(BoxValue::Text(t))
    }
}

/// mean: the reverse-DNS domain of an iTunes freeform tag.
pub struct MeanDecoder;

impl MeanDecoder {
    pub fn decode(&self, payload: &[u8], hdr: &BoxHeader, version: Option<u8>, flags: Option<u32>) -> (r:
        Result<BoxValue, DecodeError>)
        ensures
            is_text(r, "domain="@ + quoted(payload@)),
    {
        let mut t = String::new();
        push_str(&mut t, "domain=");
        push_quoted(&mut t, payload, 0, payload.len());
        proof {
            assert(payload@.subrange(0, payload@.len() as int) =~= payload@);
        }
        Ok(BoxValue::Text(t))
    }
}

/// name: the name of an iTunes freeform tag.
pub struct IlstNameDecoder;

impl IlstNameDecoder {
    pub fn decode(&self, payload: &[u8], hdr: &BoxHeader, version: Option<u8>, flags: Option<u32>) -> (r:
        Result<BoxValue, DecodeError>)
        ensures
            is_text(r, "name="@ + quoted(payload@)),
    {
        let mut t = String::new();
        push_str(&mut t, "name=");
        push_quoted(&mut t, payload, 0, payload.len());
        proof {
            assert(payload@.subrange(0, payload@.len() as int) =~= payload@);
        }
        Ok(BoxValue::Text(t))
    }
}

} // verus!
