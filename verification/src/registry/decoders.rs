//! Box payload decoders. Each `*Decoder` decodes the payload of one box
//! type: everything after the box header, and after the version/flags word
//! for full boxes (whose version and flags are passed in).

use vstd::prelude::*;
use crate::boxes::BoxHeader;
use crate::util::{
    be_at, be_bytes, debug_str, lemma_be_value_bytes, pow256, lemma_be_value_bound, lemma_pow256_values, push_decimal, push_str, read_be,
    read_u16, read_u32, read_u64, spec_decimal, utf8_exact, utf8_lossy,
};
use super::data::{
    BoxValue, ClliData, Co64Data, CttsData, CttsEntry, DecodeError, ElstData, ElstEntry, FieldSpan,
    HdlrData, MdcvData, MdhdData, MvhdData, SidxData, SidxReference, StcoData, StructuredData,
    StscData, StscEntry, StssData, StszData, SttsData, SttsEntry, TfdtData, TfhdData, TkhdData,
    TrexData, TrunData, TrunSample,
};

verus! {

// ---------- helpers ----------

/// A span of `len` bytes at `start`, named `name`.
pub open spec fn span_is(s: FieldSpan, name: &str, start: int, len: int) -> bool {
    s.name@ == name@ && s.start == start && s.length == len
}

fn span(name: &str, len: u64, pos: &mut u64) -> (r: FieldSpan)
    requires
        *old(pos) + len <= u64::MAX,
    ensures
        span_is(r, name, *old(pos) as int, len as int),
        *final(pos) == *old(pos) + len,
{
    let s = FieldSpan { name: name.to_owned(), start: *pos, length: len };
    *pos = *pos + len;
    s
}

/// Big-endian value at `pos` as an unsigned integer of `n` bytes.
pub open spec fn at(p: Seq<u8>, pos: int, n: int) -> nat {
    be_at(p, pos, n)
}

pub(crate) fn read_at(p: &[u8], pos: usize, n: usize) -> (r: u64)
    requires
        n <= 8,
        pos + n <= p@.len(),
    ensures
        r == at(p@, pos as int, n as int),
        n == 4 ==> r <= u32::MAX,
        n == 2 ==> r <= u16::MAX,
        n == 1 ==> r <= u8::MAX,
{
    let v = read_be(p, pos, n);
    proof {
        lemma_be_value_bound(p@.subrange(pos as int, pos + n));
        lemma_pow256_values();
    }
    v
}

/// The three-letter language packed in an ISO-639-2/T code, or `und` for 0.
pub open spec fn spec_lang(code: u16) -> Seq<char> {
    if code == 0 {
        seq!['u', 'n', 'd']
    } else {
        seq![
            ((code as nat / 1024) % 32 + 96) as char,
            ((code as nat / 32) % 32 + 96) as char,
            (code as nat % 32 + 96) as char,
        ]
    }
}

/// A language code packing three lower-case letters, five bits each
/// (letter minus 0x60), reads back as those letters.
pub proof fn lemma_lang_roundtrip(a: char, b: char, c: char)
    requires
        'a' <= a <= 'z',
        'a' <= b <= 'z',
        'a' <= c <= 'z',
    ensures
        spec_lang(((a as nat - 0x60) * 1024 + (b as nat - 0x60) * 32 + (c as nat - 0x60)) as u16) == seq![a, b, c],
{
    let x = a as nat - 0x60;
    let y = b as nat - 0x60;
    let z = c as nat - 0x60;
    let code = x * 1024 + y * 32 + z;
    assert(1 <= x <= 26 && 1 <= y <= 26 && 1 <= z <= 26);
    assert(code / 1024 % 32 == x && code / 32 % 32 == y && code % 32 == z && 0 < code < 0x1_0000)
        by (nonlinear_arith)
        requires
            code == x * 1024 + y * 32 + z,
            1 <= x <= 26,
            1 <= y <= 26,
            1 <= z <= 26,
    ;
    let k = code as u16;
    assert(k as nat == code);
    assert(spec_lang(k) =~= seq![a, b, c]);
}

fn lang_from_u16(code: u16) -> (r: String)
    ensures
        r@ == spec_lang(code),
{
    let mut s = String::new();
    if code == 0 {
        push_str(&mut s, "und");
        proof {
            reveal_strlit("und");
            assert(s@ =~= spec_lang(code));
        }
        return s;
    }
    let c1 = ((code / 1024) % 32 + 96) as u8;
    let c2 = ((code / 32) % 32 + 96) as u8;
    let c3 = (code % 32 + 96) as u8;
    crate::util::push_char(&mut s, c1 as char);
    crate::util::push_char(&mut s, c2 as char);
    crate::util::push_char(&mut s, c3 as char);
    proof {
        assert(s@ =~= spec_lang(code));
    }
    s
}

/// Width of the times and durations of a header box: 8 bytes in version
/// 1, else 4.
pub open spec fn time_width(version: Option<u8>) -> int {
    if version == Some(1u8) {
        8
    } else {
        4
    }
}

// ---------- movie, track and media headers ----------

/// mvhd: creation/modification time, timescale, duration, rate, volume and
/// the next track ID.
pub struct MvhdDecoder;

impl MvhdDecoder {
    pub fn decode(&self, payload: &[u8], hdr: &BoxHeader, version: Option<u8>, flags: Option<u32>) -> (r:
        Result<BoxValue, DecodeError>)
        ensures
            ({
                let p = payload@;
                let w = time_width(version);
                match r {
                    Ok(v) => p.len() >= 3 * w + 84 && v == BoxValue::Structured(
                        StructuredData::MovieHeader(
                            MvhdData {
                                version: match version {
                                    Some(x) => x,
                                    None => 0,
                                },
                                flags: match flags {
                                    Some(x) => x,
                                    None => 0,
                                },
                                creation_time: at(p, 0, w) as u64,
                                modification_time: at(p, w, w) as u64,
                                timescale: at(p, 2 * w, 4) as u32,
                                duration: at(p, 2 * w + 4, w) as u64,
                                rate: at(p, 3 * w + 4, 4) as i32,
                                volume: at(p, 3 * w + 8, 2) as i16,
                                next_track_id: at(p, 3 * w + 80, 4) as u32,
                            },
                        ),
                    ),
                    Err(e) => p.len() < 3 * w + 84 && e is Truncated,
                }
            }),
    {
        let v: u8 = match version {
            Some(x) => x,
            None => 0,
        };
        let w: usize = if v == 1 {
            8
        } else {
            4
        };
        let len = payload.len();
        if len < 3 * w + 84 {
            return Err(DecodeError::Truncated);
        }
        let creation_time = read_at(payload, 0, w);
        let modification_time = read_at(payload, w, w);
        let timescale = read_at(payload, 2 * w, 4) as u32;
        let duration = read_at(payload, 2 * w + 4, w);
        let rate_raw = read_at(payload, 3 * w + 4, 4);
        let rate = rate_raw as i32;
        let volume_raw = read_at(payload, 3 * w + 8, 2);
        let volume = volume_raw as i16;
        let next_track_id = read_at(payload, 3 * w + 80, 4) as u32;
        Ok(
            BoxValue::Structured(
                StructuredData::MovieHeader(
                    MvhdData {
                        version: v,
                        flags: match flags {
                            Some(x) => x,
                            None => 0,
                        },
                        creation_time,
                        modification_time,
                        timescale,
                        duration,
                        rate,
                        volume,
                        next_track_id,
                    },
                ),
            ),
        )
    }
}

impl MvhdDecoder {
    /// Where the named fields lie in the payload.
    pub fn field_spans(&self, version: Option<u8>, flags: Option<u32>, payload_len: u64) -> (r: Vec<
        FieldSpan,
    >)
        ensures
            ({
                let w = time_width(version);
                &&& r@.len() == 7
                &&& span_is(r@[0], "creation_time", 0, w)
                &&& span_is(r@[1], "modification_time", w, w)
                &&& span_is(r@[2], "timescale", 2 * w, 4)
                &&& span_is(r@[3], "duration", 2 * w + 4, w)
                &&& span_is(r@[4], "rate", 3 * w + 4, 4)
                &&& span_is(r@[5], "volume", 3 * w + 8, 2)
                &&& span_is(r@[6], "next_track_id", 3 * w + 80, 4)
            }),
    {
        let w: u64 = if version == Some(1u8) {
            8
        } else {
            4
        };
        let mut pos: u64 = 0;
        let mut v: Vec<FieldSpan> = Vec::new();
        v.push(span("creation_time", w, &mut pos));
        v.push(span("modification_time", w, &mut pos));
        v.push(span("timescale", 4, &mut pos));
        v.push(span("duration", w, &mut pos));
        v.push(span("rate", 4, &mut pos));
        v.push(span("volume", 2, &mut pos));
        pos = pos + 70;
        v.push(span("next_track_id", 4, &mut pos));
        v
    }
}

/// A read that leaves the position alone when the bytes are missing.
pub open spec fn lenient(p: Seq<u8>, pos: int, n: int) -> (Option<nat>, int) {
    if pos + n <= p.len() {
        (Some(at(p, pos, n)), pos + n)
    } else {
        (None, pos)
    }
}

fn lenient_read(p: &[u8], pos: &mut usize, n: usize) -> (r: Option<u64>)
    requires
        n <= 8,
    ensures
        match lenient(p@, *old(pos) as int, n as int) {
            (Some(v), q) => r matches Some(x) && x == v && *final(pos) == q,
            (None, q) => r is None && *final(pos) == q,
        },
{
    if *pos <= p.len() && n <= p.len() - *pos {
        let v = read_at(p, *pos, n);
        *pos = *pos + n;
        Some(v)
    } else {
        None
    }
}

/// Track header fields, read leniently after the creation and
/// modification times: (track ID, duration, width, height), missing ones
/// as 0, and width and height only together.
pub open spec fn tkhd_fields(p: Seq<u8>, version: Option<u8>) -> (nat, nat, nat, nat) {
    let w = time_width(version);
    let (id, p1) = lenient(p, 2 * w, 4);
    let (_, p2) = lenient(p, p1, 4);
    let (dur, p3) = lenient(p, p2, w);
    let (wd, p4) = lenient(p, p3 + 52, 4);
    let (ht, _) = lenient(p, p4, 4);
    (
        match id {
            Some(x) => x,
            None => 0,
        },
        match dur {
            Some(x) => x,
            None => 0,
        },
        if wd is Some && ht is Some {
            wd.unwrap()
        } else {
            0
        },
        if wd is Some && ht is Some {
            ht.unwrap()
        } else {
            0
        },
    )
}

/// tkhd: track ID, duration and the 16.16 width and height.
pub struct TkhdDecoder;

impl TkhdDecoder {
    pub fn decode(&self, payload: &[u8], hdr: &BoxHeader, version: Option<u8>, flags: Option<u32>) -> (r:
        Result<BoxValue, DecodeError>)
        ensures
            ({
                let p = payload@;
                let w = time_width(version);
                let f = tkhd_fields(p, version);
                if p.len() < 2 * w {
                    r matches Ok(BoxValue::Text(t)) && t@ == "tkhd: truncated creation/modification"@
                } else {
                    r == Ok::<BoxValue, DecodeError>(
                        BoxValue::Structured(
                            StructuredData::TrackHeader(
                                TkhdData {
                                    version: match version {
                                        Some(x) => x,
                                        None => 0,
                                    },
                                    flags: match flags {
                                        Some(x) => x,
                                        None => 0,
                                    },
                                    track_id: f.0 as u32,
                                    duration: f.1 as u64,
                                    width: f.2 as u32,
                                    height: f.3 as u32,
                                },
                            ),
                        ),
                    )
                }
            }),
    {
        let v: u8 = match version {
            Some(x) => x,
            None => 0,
        };
        let w: usize = if v == 1 {
            8
        } else {
            4
        };
        let len = payload.len();
        if len < 2 * w {
            let mut t = String::new();
            push_str(&mut t, "tkhd: truncated creation/modification");
            proof {
                assert(t@ =~= "tkhd: truncated creation/modification"@);
            }
            return Ok(BoxValue::Text(t));
        }
        let mut pos: usize = 2 * w;
        let id = lenient_read(payload, &mut pos, 4);
        let _reserved = lenient_read(payload, &mut pos, 4);
        let dur = lenient_read(payload, &mut pos, w);
        let (wd, ht) = if pos <= len && 52 <= len - pos {
            pos = pos + 52;
            let a = lenient_read(payload, &mut pos, 4);
            let b = lenient_read(payload, &mut pos, 4);
            (a, b)
        } else {
            (None, None)
        };
        let (width, height) = match (wd, ht) {
            (Some(a), Some(b)) => (a as u32, b as u32),
            _ => (0u32, 0u32),
        };
        proof {
            let f = tkhd_fields(payload@, version);
            assert(w == time_width(version));
            assert(f.0 == match id { Some(x) => x as nat, None => 0nat });
            assert(f.1 == match dur { Some(x) => x as nat, None => 0nat });
            assert(f.2 as u32 == width);
            assert(f.3 as u32 == height);
        }
        Ok(
            BoxValue::Structured(
                StructuredData::TrackHeader(
                    TkhdData {
                        version: v,
                        flags: match flags {
                            Some(x) => x,
                            None => 0,
                        },
                        track_id: match id {
                            Some(x) => x as u32,
                            None => 0,
                        },
                        duration: match dur {
                            Some(x) => x,
                            None => 0,
                        },
                        width,
                        height,
                    },
                ),
            ),
        )
    }

    /// Where the named fields lie in the payload.
    pub fn field_spans(&self, version: Option<u8>, flags: Option<u32>, payload_len: u64) -> (r: Vec<
        FieldSpan,
    >)
        ensures
            ({
                let w = time_width(version);
                &&& r@.len() == 6
                &&& span_is(r@[0], "creation_time", 0, w)
                &&& span_is(r@[1], "modification_time", w, w)
                &&& span_is(r@[2], "track_id", 2 * w, 4)
                &&& span_is(r@[3], "duration", 2 * w + 8, w)
                &&& span_is(r@[4], "width", 3 * w + 60, 4)
                &&& span_is(r@[5], "height", 3 * w + 64, 4)
            }),
    {
        let w: u64 = if version == Some(1u8) {
            8
        } else {
            4
        };
        let mut pos: u64 = 0;
        let mut v: Vec<FieldSpan> = Vec::new();
        v.push(span("creation_time", w, &mut pos));
        v.push(span("modification_time", w, &mut pos));
        v.push(span("track_id", 4, &mut pos));
        pos = pos + 4;
        v.push(span("duration", w, &mut pos));
        pos = pos + 52;
        v.push(span("width", 4, &mut pos));
        v.push(span("height", 4, &mut pos));
        v
    }
}

/// mdhd: times, timescale, duration and language.
pub struct MdhdDecoder;

impl MdhdDecoder {
    pub fn decode(&self, payload: &[u8], hdr: &BoxHeader, version: Option<u8>, flags: Option<u32>) -> (r:
        Result<BoxValue, DecodeError>)
        ensures
            ({
                let p = payload@;
                let w = time_width(version);
                match r {
                    Ok(v) => {
                        &&& p.len() >= 3 * w + 8
                        &&& v matches BoxValue::Structured(StructuredData::MediaHeader(d))
                        &&& d.version == (match version {
                            Some(x) => x,
                            None => 0u8,
                        })
                        &&& d.flags == (match flags {
                            Some(x) => x,
                            None => 0u32,
                        })
                        &&& d.creation_time == at(p, 0, w)
                        &&& d.modification_time == at(p, w, w)
                        &&& d.timescale == at(p, 2 * w, 4)
                        &&& d.duration == at(p, 2 * w + 4, w)
                        &&& d.language@ == spec_lang(at(p, 3 * w + 4, 2) as u16)
                    },
                    Err(e) => p.len() < 3 * w + 8 && e is Truncated,
                }
            }),
    {
        let v: u8 = match version {
            Some(x) => x,
            None => 0,
        };
        let w: usize = if v == 1 {
            8
        } else {
            4
        };
        if payload.len() < 3 * w + 8 {
            return Err(DecodeError::Truncated);
        }
        let creation_time = read_at(payload, 0, w);
        let modification_time = read_at(payload, w, w);
        let timescale = read_at(payload, 2 * w, 4) as u32;
        let duration = read_at(payload, 2 * w + 4, w);
        let code = read_at(payload, 3 * w + 4, 2) as u16;
        let language = lang_from_u16(code);
        Ok(
            BoxValue::Structured(
                StructuredData::MediaHeader(
                    MdhdData {
                        version: v,
                        flags: match flags {
                            Some(x) => x,
                            None => 0,
                        },
                        creation_time,
                        modification_time,
                        timescale,
                        duration,
                        language,
                    },
                ),
            ),
        )
    }

    /// Where the named fields lie in the payload.
    pub fn field_spans(&self, version: Option<u8>, flags: Option<u32>, payload_len: u64) -> (r: Vec<
        FieldSpan,
    >)
        ensures
            ({
                let w = time_width(version);
                &&& r@.len() == 5
                &&& span_is(r@[0], "creation_time", 0, w)
                &&& span_is(r@[1], "modification_time", w, w)
                &&& span_is(r@[2], "timescale", 2 * w, 4)
                &&& span_is(r@[3], "duration", 2 * w + 4, w)
                &&& span_is(r@[4], "language", 3 * w + 4, 2)
            }),
    {
        let w: u64 = if version == Some(1u8) {
            8
        } else {
            4
        };
        let mut pos: u64 = 0;
        let mut v: Vec<FieldSpan> = Vec::new();
        v.push(span("creation_time", w, &mut pos));
        v.push(span("modification_time", w, &mut pos));
        v.push(span("timescale", 4, &mut pos));
        v.push(span("duration", w, &mut pos));
        v.push(span("language", 2, &mut pos));
        v
    }
}

// ---------- tables ----------

fn read_u32s(p: &[u8], base: usize, n: usize) -> (r: Vec<u32>)
    requires
        base + 4 * n <= p@.len(),
    ensures
        r@.len() == n,
        forall|i: int| 0 <= i < n ==> #[trigger] r@[i] == at(p@, base + 4 * i, 4),
{
    let mut v: Vec<u32> = Vec::new();
    let blen = p.len();
    let mut i: usize = 0;
    while i < n
        invariant
            i <= n,
            blen == p@.len(),
            base + 4 * n <= p@.len(),
            v@.len() == i,
            forall|j: int| 0 <= j < i ==> #[trigger] v@[j] == at(p@, base + 4 * j, 4),
        decreases n - i,
    {
        let x = read_at(p, base + 4 * i, 4) as u32;
        v.push(x);
        i = i + 1;
    }
    v
}

fn read_u64s(p: &[u8], base: usize, n: usize) -> (r: Vec<u64>)
    requires
        base + 8 * n <= p@.len(),
    ensures
        r@.len() == n,
        forall|i: int| 0 <= i < n ==> #[trigger] r@[i] == at(p@, base + 8 * i, 8),
{
    let mut v: Vec<u64> = Vec::new();
    let blen = p.len();
    let mut i: usize = 0;
    while i < n
        invariant
            i <= n,
            blen == p@.len(),
            base + 8 * n <= p@.len(),
            v@.len() == i,
            forall|j: int| 0 <= j < i ==> #[trigger] v@[j] == at(p@, base + 8 * j, 8),
        decreases n - i,
    {
        let x = read_at(p, base + 8 * i, 8);
        v.push(x);
        i = i + 1;
    }
    v
}

/// Whether a payload holds a 4-byte count and that many entries of
/// `stride` bytes.
pub open spec fn table_fits(p: Seq<u8>, stride: int) -> bool {
    p.len() >= 4 && p.len() >= 4 + stride * at(p, 0, 4)
}

/// Reads the entry count and checks that the entries fit; returns the count.
fn table_count(p: &[u8], stride: usize) -> (r: Option<usize>)
    requires
        1 <= stride <= 20,
    ensures
        match r {
            Some(n) => table_fits(p@, stride as int) && n == at(p@, 0, 4) && 4 + stride * n <= p@.len()
                && n <= u32::MAX,
            None => !table_fits(p@, stride as int),
        },
{
    let len = p.len();
    if len < 4 {
        return None;
    }
    let count = read_at(p, 0, 4);
    let room: usize = (len - 4) / stride;
    let ghost c: int = count as int;
    let ghost l: int = len as int;
    let ghost st: int = stride as int;
    let ghost rm: int = room as int;
    if count > room as u64 {
        proof {
            assert(rm == (l - 4) / st);
            assert(st * c > l - 4) by (nonlinear_arith)
                requires
                    c > rm,
                    rm == (l - 4) / st,
                    st >= 1,
                    l >= 4,
            ;
        }
        return None;
    }
    proof {
        assert(rm == (l - 4) / st);
        assert(st * c <= l - 4) by (nonlinear_arith)
            requires
                c <= rm,
                rm == (l - 4) / st,
                st >= 1,
                l >= 4,
        ;
    }
    Some(count as usize)
}

/// stts: (sample count, sample delta) runs.
pub struct SttsDecoder;

impl SttsDecoder {
    pub fn decode(&self, payload: &[u8], hdr: &BoxHeader, version: Option<u8>, flags: Option<u32>) -> (r:
        Result<BoxValue, DecodeError>)
        ensures
            ({
                let p = payload@;
                match r {
                    Ok(v) => {
                        &&& table_fits(p, 8)
                        &&& v matches BoxValue::Structured(StructuredData::DecodingTimeToSample(d))
                        &&& d.version == (match version {
                            Some(x) => x,
                            None => 0u8,
                        })
                        &&& d.flags == (match flags {
                            Some(x) => x,
                            None => 0u32,
                        })
                        &&& d.entry_count == at(p, 0, 4)
                        &&& d.entries@.len() == at(p, 0, 4)
                        &&& forall|i: int|
                            0 <= i < d.entries@.len() ==> (#[trigger] d.entries@[i]).sample_count == at(
                                p,
                                4 + 8 * i,
                                4,
                            ) && d.entries@[i].sample_delta == at(p, 8 + 8 * i, 4)
                    },
                    Err(e) => !table_fits(p, 8) && e is Truncated,
                }
            }),
    {
        let blen = payload.len();
        let n = match table_count(payload, 8) {
            Some(n) => n,
            None => return Err(DecodeError::Truncated),
        };
        proof {
            assert(blen == payload@.len());
        }
        let flat = read_u32s(payload, 4, 2 * n);
        let mut entries: Vec<SttsEntry> = Vec::new();
        let mut i: usize = 0;
        while i < n
            invariant
                i <= n,
                blen == payload@.len(),
                4 + 8 * n <= blen,
                flat@.len() == 2 * n,
                forall|j: int| 0 <= j < 2 * n ==> #[trigger] flat@[j] == at(payload@, 4 + 4 * j, 4),
                entries@.len() == i,
                forall|j: int|
                    0 <= j < i ==> (#[trigger] entries@[j]).sample_count == at(payload@, 4 + 8 * j, 4)
                        && entries@[j].sample_delta == at(payload@, 8 + 8 * j, 4),
            decreases n - i,
        {
            let e = SttsEntry { sample_count: flat[2 * i], sample_delta: flat[2 * i + 1] };
            proof {
                assert(flat@[2 * i] == at(payload@, 4 + 4 * (2 * i), 4));
                assert(flat@[2 * i + 1] == at(payload@, 4 + 4 * (2 * i + 1), 4));
            }
            entries.push(e);
            i = i + 1;
        }
        Ok(
            BoxValue::Structured(
                StructuredData::DecodingTimeToSample(
                    SttsData {
                        version: match version {
                            Some(x) => x,
                            None => 0,
                        },
                        flags: match flags {
                            Some(x) => x,
                            None => 0,
                        },
                        entry_count: n as u32,
                        entries,
                    },
                ),
            ),
        )
    }

    /// Where the named fields lie in the payload.
    pub fn field_spans(&self, version: Option<u8>, flags: Option<u32>, payload_len: u64) -> (r: Vec<
        FieldSpan,
    >)
        ensures
            r@.len() == 1,
            span_is(r@[0], "entry_count", 0, 4),
    {
        entry_count_span()
    }
}

fn entry_count_span() -> (r: Vec<FieldSpan>)
    ensures
        r@.len() == 1,
        span_is(r@[0], "entry_count", 0, 4),
{
    let mut pos: u64 = 0;
    let mut v: Vec<FieldSpan> = Vec::new();
    v.push(span("entry_count", 4, &mut pos));
    v
}

/// stss: the sync (key frame) sample numbers.
pub struct StssDecoder;

impl StssDecoder {
    pub fn decode(&self, payload: &[u8], hdr: &BoxHeader, version: Option<u8>, flags: Option<u32>) -> (r:
        Result<BoxValue, DecodeError>)
        ensures
            ({
                let p = payload@;
                match r {
                    Ok(v) => {
                        &&& table_fits(p, 4)
                        &&& v matches BoxValue::Structured(StructuredData::SyncSample(d))
                        &&& d.version == (match version {
                            Some(x) => x,
                            None => 0u8,
                        })
                        &&& d.flags == (match flags {
                            Some(x) => x,
                            None => 0u32,
                        })
                        &&& d.entry_count == at(p, 0, 4)
                        &&& d.sample_numbers@.len() == at(p, 0, 4)
                        &&& forall|i: int| 0 <= i < d.sample_numbers@.len() ==> (#[trigger] d.sample_numbers@[i]) == at(p, 4 + 4 * i, 4)
                    },
                    Err(e) => !table_fits(p, 4) && e is Truncated,
                }
            }),
    {
        let blen = payload.len();
        let n = match table_count(payload, 4) {
            Some(n) => n,
            None => return Err(DecodeError::Truncated),
        };
        proof {
            assert(blen == payload@.len());
        }
        let items = read_u32s(payload, 4, n);

        Ok(
            BoxValue::Structured(
                StructuredData::SyncSample(
                    StssData {
                        version: match version {
                            Some(x) => x,
                            None => 0,
                        },
                        flags: match flags {
                            Some(x) => x,
                            None => 0,
                        },
                        entry_count: n as u32,
                        sample_numbers: items,
                    },
                ),
            ),
        )
    }

    /// Where the named fields lie in the payload.
    pub fn field_spans(&self, version: Option<u8>, flags: Option<u32>, payload_len: u64) -> (r: Vec<
        FieldSpan,
    >)
        ensures
            r@.len() == 1,
            span_is(r@[0], "entry_count", 0, 4),
    {
        entry_count_span()
    }
}

/// ctts: (sample count, composition offset) runs.
pub struct CttsDecoder;

impl CttsDecoder {
    pub fn decode(&self, payload: &[u8], hdr: &BoxHeader, version: Option<u8>, flags: Option<u32>) -> (r:
        Result<BoxValue, DecodeError>)
        ensures
            ({
                let p = payload@;
                match r {
                    Ok(v) => {
                        &&& table_fits(p, 8)
                        &&& v matches BoxValue::Structured(StructuredData::CompositionTimeToSample(d))
                        &&& d.version == (match version {
                            Some(x) => x,
                            None => 0u8,
                        })
                        &&& d.flags == (match flags {
                            Some(x) => x,
                            None => 0u32,
                        })
                        &&& d.entry_count == at(p, 0, 4)
                        &&& d.entries@.len() == at(p, 0, 4)
                        &&& forall|i: int| 0 <= i < d.entries@.len() ==> (#[trigger] d.entries@[i]).sample_count == at(p, 4 + 8 * i, 4) && d.entries@[i].sample_offset == at(p, 8 + 8 * i, 4) as i32
                    },
                    Err(e) => !table_fits(p, 8) && e is Truncated,
                }
            }),
    {
        let blen = payload.len();
        let n = match table_count(payload, 8) {
            Some(n) => n,
            None => return Err(DecodeError::Truncated),
        };
        proof {
            assert(blen == payload@.len());
        }
        
        let flat = read_u32s(payload, 4, 2 * n);
        let mut items: Vec<CttsEntry> = Vec::new();
        let mut i: usize = 0;
        while i < n
            invariant
                i <= n,
                blen == payload@.len(),
                4 + 8 * n <= blen,
                flat@.len() == 2 * n,
                forall|j: int| 0 <= j < 2 * n ==> #[trigger] flat@[j] == at(payload@, 4 + 4 * j, 4),
                items@.len() == i,
                forall|j: int| 0 <= j < i ==> (#[trigger] items@[j]).sample_count == at(payload@, 4 + 8 * j, 4) && items@[j].sample_offset == at(payload@, 8 + 8 * j, 4) as i32,
            decreases n - i,
        {
            let e = CttsEntry { sample_count: flat[2 * i + 0], sample_offset: flat[2 * i + 1] as i32 };
            proof {
                assert(flat@[2 * i + 0] == at(payload@, 4 + 4 * (2 * i + 0), 4)); assert(flat@[2 * i + 1] == at(payload@, 4 + 4 * (2 * i + 1), 4));
            }
            items.push(e);
            i = i + 1;
        }
        Ok(
            BoxValue::Structured(
                StructuredData::CompositionTimeToSample(
                    CttsData {
                        version: match version {
                            Some(x) => x,
                            None => 0,
                        },
                        flags: match flags {
                            Some(x) => x,
                            None => 0,
                        },
                        entry_count: n as u32,
                        entries: items,
                    },
                ),
            ),
        )
    }

    /// Where the named fields lie in the payload.
    pub fn field_spans(&self, version: Option<u8>, flags: Option<u32>, payload_len: u64) -> (r: Vec<
        FieldSpan,
    >)
        ensures
            r@.len() == 1,
            span_is(r@[0], "entry_count", 0, 4),
    {
        entry_count_span()
    }
}

/// stsc: (first chunk, samples per chunk, description index) runs.
pub struct StscDecoder;

impl StscDecoder {
    pub fn decode(&self, payload: &[u8], hdr: &BoxHeader, version: Option<u8>, flags: Option<u32>) -> (r:
        Result<BoxValue, DecodeError>)
        ensures
            ({
                let p = payload@;
                match r {
                    Ok(v) => {
                        &&& table_fits(p, 12)
                        &&& v matches BoxValue::Structured(StructuredData::SampleToChunk(d))
                        &&& d.version == (match version {
                            Some(x) => x,
                            None => 0u8,
                        })
                        &&& d.flags == (match flags {
                            Some(x) => x,
                            None => 0u32,
                        })
                        &&& d.entry_count == at(p, 0, 4)
                        &&& d.entries@.len() == at(p, 0, 4)
                        &&& forall|i: int| 0 <= i < d.entries@.len() ==> (#[trigger] d.entries@[i]).first_chunk == at(p, 4 + 12 * i, 4) && d.entries@[i].samples_per_chunk == at(p, 8 + 12 * i, 4) && d.entries@[i].sample_description_index == at(p, 12 + 12 * i, 4)
                    },
                    Err(e) => !table_fits(p, 12) && e is Truncated,
                }
            }),
    {
        let blen = payload.len();
        let n = match table_count(payload, 12) {
            Some(n) => n,
            None => return Err(DecodeError::Truncated),
        };
        proof {
            assert(blen == payload@.len());
        }
        
        let flat = read_u32s(payload, 4, 3 * n);
        let mut items: Vec<StscEntry> = Vec::new();
        let mut i: usize = 0;
        while i < n
            invariant
                i <= n,
                blen == payload@.len(),
                4 + 12 * n <= blen,
                flat@.len() == 3 * n,
                forall|j: int| 0 <= j < 3 * n ==> #[trigger] flat@[j] == at(payload@, 4 + 4 * j, 4),
                items@.len() == i,
                forall|j: int| 0 <= j < i ==> (#[trigger] items@[j]).first_chunk == at(payload@, 4 + 12 * j, 4) && items@[j].samples_per_chunk == at(payload@, 8 + 12 * j, 4) && items@[j].sample_description_index == at(payload@, 12 + 12 * j, 4),
            decreases n - i,
        {
            let e = StscEntry { first_chunk: flat[3 * i + 0], samples_per_chunk: flat[3 * i + 1], sample_description_index: flat[3 * i + 2] };
            proof {
                assert(flat@[3 * i + 0] == at(payload@, 4 + 4 * (3 * i + 0), 4)); assert(flat@[3 * i + 1] == at(payload@, 4 + 4 * (3 * i + 1), 4)); assert(flat@[3 * i + 2] == at(payload@, 4 + 4 * (3 * i + 2), 4));
            }
            items.push(e);
            i = i + 1;
        }
        Ok(
            BoxValue::Structured(
                StructuredData::SampleToChunk(
                    StscData {
                        version: match version {
                            Some(x) => x,
                            None => 0,
                        },
                        flags: match flags {
                            Some(x) => x,
                            None => 0,
                        },
                        entry_count: n as u32,
                        entries: items,
                    },
                ),
            ),
        )
    }

    /// Where the named fields lie in the payload.
    pub fn field_spans(&self, version: Option<u8>, flags: Option<u32>, payload_len: u64) -> (r: Vec<
        FieldSpan,
    >)
        ensures
            r@.len() == 1,
            span_is(r@[0], "entry_count", 0, 4),
    {
        entry_count_span()
    }
}

/// stco: 32-bit chunk offsets.
pub struct StcoDecoder;

impl StcoDecoder {
    pub fn decode(&self, payload: &[u8], hdr: &BoxHeader, version: Option<u8>, flags: Option<u32>) -> (r:
        Result<BoxValue, DecodeError>)
        ensures
            ({
                let p = payload@;
                match r {
                    Ok(v) => {
                        &&& table_fits(p, 4)
                        &&& v matches BoxValue::Structured(StructuredData::ChunkOffset(d))
                        &&& d.version == (match version {
                            Some(x) => x,
                            None => 0u8,
                        })
                        &&& d.flags == (match flags {
                            Some(x) => x,
                            None => 0u32,
                        })
                        &&& d.entry_count == at(p, 0, 4)
                        &&& d.chunk_offsets@.len() == at(p, 0, 4)
                        &&& forall|i: int| 0 <= i < d.chunk_offsets@.len() ==> (#[trigger] d.chunk_offsets@[i]) == at(p, 4 + 4 * i, 4)
                    },
                    Err(e) => !table_fits(p, 4) && e is Truncated,
                }
            }),
    {
        let blen = payload.len();
        let n = match table_count(payload, 4) {
            Some(n) => n,
            None => return Err(DecodeError::Truncated),
        };
        proof {
            assert(blen == payload@.len());
        }
        let items = read_u32s(payload, 4, n);

        Ok(
            BoxValue::Structured(
                StructuredData::ChunkOffset(
                    StcoData {
                        version: match version {
                            Some(x) => x,
                            None => 0,
                        },
                        flags: match flags {
                            Some(x) => x,
                            None => 0,
                        },
                        entry_count: n as u32,
                        chunk_offsets: items,
                    },
                ),
            ),
        )
    }

    /// Where the named fields lie in the payload.
    pub fn field_spans(&self, version: Option<u8>, flags: Option<u32>, payload_len: u64) -> (r: Vec<
        FieldSpan,
    >)
        ensures
            r@.len() == 1,
            span_is(r@[0], "entry_count", 0, 4),
    {
        entry_count_span()
    }
}

/// co64: 64-bit chunk offsets.
pub struct Co64Decoder;

impl Co64Decoder {
    pub fn decode(&self, payload: &[u8], hdr: &BoxHeader, version: Option<u8>, flags: Option<u32>) -> (r:
        Result<BoxValue, DecodeError>)
        ensures
            ({
                let p = payload@;
                match r {
                    Ok(v) => {
                        &&& table_fits(p, 8)
                        &&& v matches BoxValue::Structured(StructuredData::ChunkOffset64(d))
                        &&& d.version == (match version {
                            Some(x) => x,
                            None => 0u8,
                        })
                        &&& d.flags == (match flags {
                            Some(x) => x,
                            None => 0u32,
                        })
                        &&& d.entry_count == at(p, 0, 4)
                        &&& d.chunk_offsets@.len() == at(p, 0, 4)
                        &&& forall|i: int|
                            0 <= i < d.chunk_offsets@.len() ==> (#[trigger] d.chunk_offsets@[i]) == at(
                                p,
                                4 + 8 * i,
                                8,
                            )
                    },
                    Err(e) => !table_fits(p, 8) && e is Truncated,
                }
            }),
    {
        let blen = payload.len();
        let n = match table_count(payload, 8) {
            Some(n) => n,
            None => return Err(DecodeError::Truncated),
        };
        proof {
            assert(blen == payload@.len());
        }
        let items = read_u64s(payload, 4, n);
        Ok(
            BoxValue::Structured(
                StructuredData::ChunkOffset64(
                    Co64Data {
                        version: match version {
                            Some(x) => x,
                            None => 0,
                        },
                        flags: match flags {
                            Some(x) => x,
                            None => 0,
                        },
                        entry_count: n as u32,
                        chunk_offsets: items,
                    },
                ),
            ),
        )
    }

    /// Where the named fields lie in the payload.
    pub fn field_spans(&self, version: Option<u8>, flags: Option<u32>, payload_len: u64) -> (r: Vec<
        FieldSpan,
    >)
        ensures
            r@.len() == 1,
            span_is(r@[0], "entry_count", 0, 4),
    {
        entry_count_span()
    }
}

/// Whether an stsz payload is complete: the fixed size and count, and a
/// size per sample when the fixed size is 0.
pub open spec fn stsz_fits(p: Seq<u8>) -> bool {
    p.len() >= 8 && (at(p, 0, 4) != 0 || p.len() >= 8 + 4 * at(p, 4, 4))
}

/// stsz: a fixed sample size, or one size per sample.
pub struct StszDecoder;

impl StszDecoder {
    pub fn decode(&self, payload: &[u8], hdr: &BoxHeader, version: Option<u8>, flags: Option<u32>) -> (r:
        Result<BoxValue, DecodeError>)
        ensures
            ({
                let p = payload@;
                match r {
                    Ok(v) => {
                        &&& stsz_fits(p)
                        &&& v matches BoxValue::Structured(StructuredData::SampleSize(d))
                        &&& d.version == (match version {
                            Some(x) => x,
                            None => 0u8,
                        })
                        &&& d.flags == (match flags {
                            Some(x) => x,
                            None => 0u32,
                        })
                        &&& d.sample_size == at(p, 0, 4)
                        &&& d.sample_count == at(p, 4, 4)
                        &&& d.sample_sizes@.len() == if at(p, 0, 4) == 0 {
                            at(p, 4, 4)
                        } else {
                            0
                        }
                        &&& forall|i: int|
                            0 <= i < d.sample_sizes@.len() ==> (#[trigger] d.sample_sizes@[i]) == at(
                                p,
                                8 + 4 * i,
                                4,
                            )
                    },
                    Err(e) => !stsz_fits(p) && e is Truncated,
                }
            }),
    {
        let len = payload.len();
        if len < 8 {
            return Err(DecodeError::Truncated);
        }
        let sample_size = read_at(payload, 0, 4) as u32;
        let sample_count = read_at(payload, 4, 4) as u32;
        let sizes = if sample_size == 0 {
            if sample_count as usize > (len - 8) / 4 {
                return Err(DecodeError::Truncated);
            }
            read_u32s(payload, 8, sample_count as usize)
        } else {
            Vec::new()
        };
        Ok(
            BoxValue::Structured(
                StructuredData::SampleSize(
                    StszData {
                        version: match version {
                            Some(x) => x,
                            None => 0,
                        },
                        flags: match flags {
                            Some(x) => x,
                            None => 0,
                        },
                        sample_size,
                        sample_count,
                        sample_sizes: sizes,
                    },
                ),
            ),
        )
    }

    /// Where the named fields lie in the payload.
    pub fn field_spans(&self, version: Option<u8>, flags: Option<u32>, payload_len: u64) -> (r: Vec<
        FieldSpan,
    >)
        ensures
            r@.len() == 2,
            span_is(r@[0], "sample_size", 0, 4),
            span_is(r@[1], "sample_count", 4, 4),
    {
        let mut pos: u64 = 0;
        let mut v: Vec<FieldSpan> = Vec::new();
        v.push(span("sample_size", 4, &mut pos));
        v.push(span("sample_count", 4, &mut pos));
        v
    }
}

/// trex: per-track fragment defaults.
pub struct TrexDecoder;

impl TrexDecoder {
    pub fn decode(&self, payload: &[u8], hdr: &BoxHeader, version: Option<u8>, flags: Option<u32>) -> (r:
        Result<BoxValue, DecodeError>)
        ensures
            ({
                let p = payload@;
                match r {
                    Ok(v) => p.len() >= 20 && v == BoxValue::Structured(
                        StructuredData::TrackExtends(
                            TrexData {
                                track_id: at(p, 0, 4) as u32,
                                default_sample_description_index: at(p, 4, 4) as u32,
                                default_sample_duration: at(p, 8, 4) as u32,
                                default_sample_size: at(p, 12, 4) as u32,
                                default_sample_flags: at(p, 16, 4) as u32,
                            },
                        ),
                    ),
                    Err(e) => p.len() < 20 && e is Truncated,
                }
            }),
    {
        if payload.len() < 20 {
            return Err(DecodeError::Truncated);
        }
        Ok(
            BoxValue::Structured(
                StructuredData::TrackExtends(
                    TrexData {
                        track_id: read_at(payload, 0, 4) as u32,
                        default_sample_description_index: read_at(payload, 4, 4) as u32,
                        default_sample_duration: read_at(payload, 8, 4) as u32,
                        default_sample_size: read_at(payload, 12, 4) as u32,
                        default_sample_flags: read_at(payload, 16, 4) as u32,
                    },
                ),
            ),
        )
    }

    /// Where the named fields lie in the payload.
    pub fn field_spans(&self, version: Option<u8>, flags: Option<u32>, payload_len: u64) -> (r: Vec<
        FieldSpan,
    >)
        ensures
            r@.len() == 5,
            span_is(r@[0], "track_id", 0, 4),
            span_is(r@[1], "default_sample_description_index", 4, 4),
            span_is(r@[2], "default_sample_duration", 8, 4),
            span_is(r@[3], "default_sample_size", 12, 4),
            span_is(r@[4], "default_sample_flags", 16, 4),
    {
        let mut pos: u64 = 0;
        let mut v: Vec<FieldSpan> = Vec::new();
        v.push(span("track_id", 4, &mut pos));
        v.push(span("default_sample_description_index", 4, &mut pos));
        v.push(span("default_sample_duration", 4, &mut pos));
        v.push(span("default_sample_size", 4, &mut pos));
        v.push(span("default_sample_flags", 4, &mut pos));
        v
    }
}

/// tfdt: the base media decode time (64-bit in version 1).
pub struct TfdtDecoder;

impl TfdtDecoder {
    pub fn decode(&self, payload: &[u8], hdr: &BoxHeader, version: Option<u8>, flags: Option<u32>) -> (r:
        Result<BoxValue, DecodeError>)
        ensures
            ({
                let p = payload@;
                let w = time_width(version);
                match r {
                    Ok(v) => p.len() >= w && v == BoxValue::Structured(
                        StructuredData::TrackFragmentDecodeTime(
                            TfdtData {
                                version: match version {
                                    Some(x) => x,
                                    None => 0,
                                },
                                flags: match flags {
                                    Some(x) => x,
                                    None => 0,
                                },
                                base_media_decode_time: at(p, 0, w) as u64,
                            },
                        ),
                    ),
                    Err(e) => p.len() < w && e is Truncated,
                }
            }),
    {
        let v: u8 = match version {
            Some(x) => x,
            None => 0,
        };
        let w: usize = if v == 1 {
            8
        } else {
            4
        };
        if payload.len() < w {
            return Err(DecodeError::Truncated);
        }
        Ok(
            BoxValue::Structured(
                StructuredData::TrackFragmentDecodeTime(
                    TfdtData {
                        version: v,
                        flags: match flags {
                            Some(x) => x,
                            None => 0,
                        },
                        base_media_decode_time: read_at(payload, 0, w),
                    },
                ),
            ),
        )
    }

    /// Where the named fields lie in the payload.
    pub fn field_spans(&self, version: Option<u8>, flags: Option<u32>, payload_len: u64) -> (r: Vec<
        FieldSpan,
    >)
        ensures
            r@.len() == 1,
            span_is(r@[0], "base_media_decode_time", 0, time_width(version)),
    {
        let w: u64 = if version == Some(1u8) {
            8
        } else {
            4
        };
        let mut pos: u64 = 0;
        let mut v: Vec<FieldSpan> = Vec::new();
        v.push(span("base_media_decode_time", w, &mut pos));
        v
    }
}

/// clli: maximum content and frame-average light levels.
pub struct ClliDecoder;

impl ClliDecoder {
    pub fn decode(&self, payload: &[u8], hdr: &BoxHeader, version: Option<u8>, flags: Option<u32>) -> (r:
        Result<BoxValue, DecodeError>)
        ensures
            ({
                let p = payload@;
                match r {
                    Ok(v) => p.len() >= 4 && v == BoxValue::Structured(
                        StructuredData::ContentLightLevel(
                            ClliData {
                                max_content_light_level: at(p, 0, 2) as u16,
                                max_pic_average_light_level: at(p, 2, 2) as u16,
                            },
                        ),
                    ),
                    Err(e) => p.len() < 4 && e is Truncated,
                }
            }),
    {
        if payload.len() < 4 {
            return Err(DecodeError::Truncated);
        }
        Ok(
            BoxValue::Structured(
                StructuredData::ContentLightLevel(
                    ClliData {
                        max_content_light_level: read_at(payload, 0, 2) as u16,
                        max_pic_average_light_level: read_at(payload, 2, 2) as u16,
                    },
                ),
            ),
        )
    }
}

/// mdcv: display primaries, white point and luminance range; a payload
/// shorter than 24 bytes is returned as raw bytes.
pub struct MdcvDecoder;

impl MdcvDecoder {
    pub fn decode(&self, payload: &[u8], hdr: &BoxHeader, version: Option<u8>, flags: Option<u32>) -> (r:
        Result<BoxValue, DecodeError>)
        ensures
            ({
                let p = payload@;
                if p.len() < 24 {
                    r matches Ok(BoxValue::Bytes(b)) && b@ == p
                } else {
                    r == Ok::<BoxValue, DecodeError>(
                        BoxValue::Structured(
                            StructuredData::MasteringDisplayColourVolume(
                                MdcvData {
                                    red_x: at(p, 0, 2) as u16,
                                    red_y: at(p, 2, 2) as u16,
                                    green_x: at(p, 4, 2) as u16,
                                    green_y: at(p, 6, 2) as u16,
                                    blue_x: at(p, 8, 2) as u16,
                                    blue_y: at(p, 10, 2) as u16,
                                    white_x: at(p, 12, 2) as u16,
                                    white_y: at(p, 14, 2) as u16,
                                    max_display_mastering_luminance: at(p, 16, 4) as u32,
                                    min_display_mastering_luminance: at(p, 20, 4) as u32,
                                },
                            ),
                        ),
                    )
                }
            }),
    {
        if payload.len() < 24 {
            return Ok(BoxValue::Bytes(crate::util::copy_range(payload, 0, payload.len())));
        }
        Ok(
            BoxValue::Structured(
                StructuredData::MasteringDisplayColourVolume(
                    MdcvData {
                        red_x: read_at(payload, 0, 2) as u16,
                        red_y: read_at(payload, 2, 2) as u16,
                        green_x: read_at(payload, 4, 2) as u16,
                        green_y: read_at(payload, 6, 2) as u16,
                        blue_x: read_at(payload, 8, 2) as u16,
                        blue_y: read_at(payload, 10, 2) as u16,
                        white_x: read_at(payload, 12, 2) as u16,
                        white_y: read_at(payload, 14, 2) as u16,
                        max_display_mastering_luminance: read_at(payload, 16, 4) as u32,
                        min_display_mastering_luminance: read_at(payload, 20, 4) as u32,
                    },
                ),
            ),
        )
    }
}

/// Width of one edit list entry: 20 bytes in version 1, else 12.
pub open spec fn elst_stride(version: Option<u8>) -> int {
    if version == Some(1u8) {
        20
    } else {
        12
    }
}

/// The edit list entry at `base`.
pub open spec fn elst_entry(p: Seq<u8>, version: Option<u8>, base: int) -> ElstEntry {
    if version == Some(1u8) {
        ElstEntry {
            segment_duration: at(p, base, 8) as u64,
            media_time: at(p, base + 8, 8) as i64,
            media_rate_integer: at(p, base + 16, 2) as i16,
            media_rate_fraction: at(p, base + 18, 2) as i16,
        }
    } else {
        ElstEntry {
            segment_duration: at(p, base, 4) as u64,
            media_time: (at(p, base + 4, 4) as i32) as i64,
            media_rate_integer: at(p, base + 8, 2) as i16,
            media_rate_fraction: at(p, base + 10, 2) as i16,
        }
    }
}

/// The encoding of an edit list entry: in version 1 a 64-bit segment
/// duration, a signed 64-bit media time and the 16-bit rate integer and
/// fraction, big-endian; otherwise the duration and media time in 32 bits.
pub open spec fn elst_entry_bytes(e: ElstEntry, version: Option<u8>) -> Seq<u8> {
    if version == Some(1u8) {
        be_bytes(e.segment_duration as nat, 8) + be_bytes((e.media_time as u64) as nat, 8)
            + be_bytes((e.media_rate_integer as u16) as nat, 2) + be_bytes(
            (e.media_rate_fraction as u16) as nat,
            2,
        )
    } else {
        be_bytes(e.segment_duration as nat, 4) + be_bytes(((e.media_time as i32) as u32) as nat, 4)
            + be_bytes((e.media_rate_integer as u16) as nat, 2) + be_bytes(
            (e.media_rate_fraction as u16) as nat,
            2,
        )
    }
}

/// Decoding an encoded edit list entry gives the entry back: the segment
/// duration is the first field and the media time the second, whatever
/// the version (in version 0 both must fit in 32 bits).
pub proof fn lemma_elst_entry_roundtrip(p: Seq<u8>, version: Option<u8>, base: int, e: ElstEntry)
    requires
        0 <= base,
        base + elst_stride(version) <= p.len(),
        p.subrange(base, base + elst_stride(version)) == elst_entry_bytes(e, version),
        version != Some(1u8) ==> e.segment_duration <= u32::MAX,
        version != Some(1u8) ==> i32::MIN <= e.media_time <= i32::MAX,
    ensures
        elst_entry(p, version, base) == e,
{
    lemma_pow256_values();
    let ri = e.media_rate_integer;
    let rf = e.media_rate_fraction;
    let q = p.subrange(base, base + elst_stride(version));
    assert((ri as u16) as i16 == ri) by (bit_vector);
    assert((rf as u16) as i16 == rf) by (bit_vector);
    if version == Some(1u8) {
        let mt = e.media_time;
        let a = be_bytes(e.segment_duration as nat, 8);
        let b = be_bytes((mt as u64) as nat, 8);
        let c = be_bytes((ri as u16) as nat, 2);
        let d = be_bytes((rf as u16) as nat, 2);
        crate::util::lemma_be_bytes_len(e.segment_duration as nat, 8);
        crate::util::lemma_be_bytes_len((mt as u64) as nat, 8);
        crate::util::lemma_be_bytes_len((ri as u16) as nat, 2);
        crate::util::lemma_be_bytes_len((rf as u16) as nat, 2);
        lemma_be_value_bytes(e.segment_duration as nat, 8);
        lemma_be_value_bytes((mt as u64) as nat, 8);
        lemma_be_value_bytes((ri as u16) as nat, 2);
        lemma_be_value_bytes((rf as u16) as nat, 2);
        assert(p.subrange(base, base + 8) =~= q.subrange(0, 8));
        assert(q.subrange(0, 8) =~= a);
        assert(p.subrange(base + 8, base + 16) =~= q.subrange(8, 16));
        assert(q.subrange(8, 16) =~= b);
        assert(p.subrange(base + 16, base + 18) =~= q.subrange(16, 18));
        assert(q.subrange(16, 18) =~= c);
        assert(p.subrange(base + 18, base + 20) =~= q.subrange(18, 20));
        assert(q.subrange(18, 20) =~= d);
        assert((mt as u64) as i64 == mt) by (bit_vector);
    } else {
        let mt = e.media_time;
        let m32 = (mt as i32) as u32;
        let a = be_bytes(e.segment_duration as nat, 4);
        let b = be_bytes(m32 as nat, 4);
        let c = be_bytes((ri as u16) as nat, 2);
        let d = be_bytes((rf as u16) as nat, 2);
        crate::util::lemma_be_bytes_len(e.segment_duration as nat, 4);
        crate::util::lemma_be_bytes_len(m32 as nat, 4);
        crate::util::lemma_be_bytes_len((ri as u16) as nat, 2);
        crate::util::lemma_be_bytes_len((rf as u16) as nat, 2);
        lemma_be_value_bytes(e.segment_duration as nat, 4);
        lemma_be_value_bytes(m32 as nat, 4);
        lemma_be_value_bytes((ri as u16) as nat, 2);
        lemma_be_value_bytes((rf as u16) as nat, 2);
        assert(p.subrange(base, base + 4) =~= q.subrange(0, 4));
        assert(q.subrange(0, 4) =~= a);
        assert(p.subrange(base + 4, base + 8) =~= q.subrange(4, 8));
        assert(q.subrange(4, 8) =~= b);
        assert(p.subrange(base + 8, base + 10) =~= q.subrange(8, 10));
        assert(q.subrange(8, 10) =~= c);
        assert(p.subrange(base + 10, base + 12) =~= q.subrange(10, 12));
        assert(q.subrange(10, 12) =~= d);
        assert(-2147483648 <= mt <= 2147483647 ==> ((((mt as i32) as u32) as i32) as i64 == mt))
            by (bit_vector);
    }
}

/// elst: the edit list (64-bit duration and media time in version 1).
pub struct ElstDecoder;

impl ElstDecoder {
    pub fn decode(&self, payload: &[u8], hdr: &BoxHeader, version: Option<u8>, flags: Option<u32>) -> (r:
        Result<BoxValue, DecodeError>)
        ensures
            ({
                let p = payload@;
                let st = elst_stride(version);
                match r {
                    Ok(v) => {
                        &&& table_fits(p, st)
                        &&& v matches BoxValue::Structured(StructuredData::EditList(d))
                        &&& d.version == (match version {
                            Some(x) => x,
                            None => 0u8,
                        })
                        &&& d.flags == (match flags {
                            Some(x) => x,
                            None => 0u32,
                        })
                        &&& d.entry_count == at(p, 0, 4)
                        &&& d.entries@.len() == at(p, 0, 4)
                        &&& forall|i: int|
                            0 <= i < d.entries@.len() ==> (#[trigger] d.entries@[i]) == elst_entry(
                                p,
                                version,
                                4 + st * i,
                            )
                    },
                    Err(e) => !table_fits(p, st) && e is Truncated,
                }
            }),
    {
        let v1 = version == Some(1u8);
        let st: usize = if v1 {
            20
        } else {
            12
        };
        let blen = payload.len();
        let n = match table_count(payload, st) {
            Some(n) => n,
            None => return Err(DecodeError::Truncated),
        };
        proof {
            assert(blen == payload@.len());
        }
        let mut entries: Vec<ElstEntry> = Vec::new();
        let mut i: usize = 0;
        let mut pos: usize = 4;
        while i < n
            invariant
                i <= n,
                blen == payload@.len(),
                4 + st * n <= blen,
                st == elst_stride(version),
                v1 == (version == Some(1u8)),
                pos == 4 + st * i,
                entries@.len() == i,
                forall|j: int|
                    0 <= j < i ==> (#[trigger] entries@[j]) == elst_entry(payload@, version, 4 + st * j),
            decreases n - i,
        {
            proof {
                assert(st * (i + 1) == st * i + st) by (nonlinear_arith);
                assert(st * (i + 1) <= st * n) by (nonlinear_arith)
                    requires
                        i + 1 <= n,
                ;
            }
            let e = if v1 {
                ElstEntry {
                    segment_duration: read_at(payload, pos, 8),
                    media_time: read_at(payload, pos + 8, 8) as i64,
                    media_rate_integer: read_at(payload, pos + 16, 2) as i16,
                    media_rate_fraction: read_at(payload, pos + 18, 2) as i16,
                }
            } else {
                ElstEntry {
                    segment_duration: read_at(payload, pos, 4),
                    media_time: (read_at(payload, pos + 4, 4) as i32) as i64,
                    media_rate_integer: read_at(payload, pos + 8, 2) as i16,
                    media_rate_fraction: read_at(payload, pos + 10, 2) as i16,
                }
            };
            entries.push(e);
            pos = pos + st;
            i = i + 1;
        }
        Ok(
            BoxValue::Structured(
                StructuredData::EditList(
                    ElstData {
                        version: match version {
                            Some(x) => x,
                            None => 0,
                        },
                        flags: match flags {
                            Some(x) => x,
                            None => 0,
                        },
                        entry_count: n as u32,
                        entries,
                    },
                ),
            ),
        )
    }

    /// Where the named fields lie in the payload.
    pub fn field_spans(&self, version: Option<u8>, flags: Option<u32>, payload_len: u64) -> (r: Vec<
        FieldSpan,
    >)
        ensures
            r@.len() == 1,
            span_is(r@[0], "entry_count", 0, 4),
    {
        entry_count_span()
    }
}

/// Start of the sidx reference array.
pub open spec fn sidx_base(version: Option<u8>) -> int {
    12 + 2 * time_width(version)
}

/// Whether an sidx payload holds its header and all its references.
pub open spec fn sidx_fits(p: Seq<u8>, version: Option<u8>) -> bool {
    let b = sidx_base(version);
    p.len() >= b && p.len() >= b + 12 * at(p, b - 2, 2)
}

/// The segment reference at `base`.
pub open spec fn sidx_ref(p: Seq<u8>, base: int) -> SidxReference {
    let word = at(p, base, 4);
    let sap = at(p, base + 8, 4);
    SidxReference {
        reference_type: (word / 0x8000_0000) as u8,
        referenced_size: (word % 0x8000_0000) as u32,
        subsegment_duration: at(p, base + 4, 4) as u32,
        starts_with_sap: sap / 0x8000_0000 == 1,
        sap_type: ((sap / 0x1000_0000) % 8) as u8,
        sap_delta_time: (sap % 0x1000_0000) as u32,
    }
}

/// The encoding of a segment reference: a 1-bit reference type over a
/// 31-bit referenced size, the subsegment duration, then a SAP flag bit,
/// a 3-bit SAP type and a 28-bit SAP delta time, each word big-endian.
pub open spec fn sidx_ref_bytes(r: SidxReference) -> Seq<u8> {
    let word = r.reference_type as nat * 0x8000_0000 + r.referenced_size as nat;
    let sap = (if r.starts_with_sap {
        0x8000_0000nat
    } else {
        0nat
    }) + r.sap_type as nat * 0x1000_0000 + r.sap_delta_time as nat;
    be_bytes(word, 4) + be_bytes(r.subsegment_duration as nat, 4) + be_bytes(sap, 4)
}

/// Decoding an encoded segment reference gives the reference back, for
/// every reference whose fields fit their bit widths.
pub proof fn lemma_sidx_ref_roundtrip(p: Seq<u8>, base: int, r: SidxReference)
    requires
        0 <= base,
        base + 12 <= p.len(),
        p.subrange(base, base + 12) == sidx_ref_bytes(r),
        r.reference_type <= 1,
        r.referenced_size < 0x8000_0000,
        r.sap_type < 8,
        r.sap_delta_time < 0x1000_0000,
    ensures
        sidx_ref(p, base) == r,
{
    lemma_pow256_values();
    let rt = r.reference_type as nat;
    let sz = r.referenced_size as nat;
    let sb: nat = if r.starts_with_sap {
        1
    } else {
        0
    };
    let st = r.sap_type as nat;
    let dt = r.sap_delta_time as nat;
    let word = rt * 0x8000_0000 + sz;
    let sap = sb * 0x8000_0000 + st * 0x1000_0000 + dt;
    assert(sap == (if r.starts_with_sap {
        0x8000_0000nat
    } else {
        0nat
    }) + st * 0x1000_0000 + dt);
    assert(word < pow256(4) && word / 0x8000_0000 == rt && word % 0x8000_0000 == sz) by (nonlinear_arith)
        requires
            word == rt * 0x8000_0000 + sz,
            rt <= 1,
            sz < 0x8000_0000,
            pow256(4) == 0x1_0000_0000,
    ;
    assert(sap < pow256(4) && sap / 0x8000_0000 == sb && (sap / 0x1000_0000) % 8 == st && sap % 0x1000_0000
        == dt) by (nonlinear_arith)
        requires
            sap == sb * 0x8000_0000 + st * 0x1000_0000 + dt,
            sb <= 1,
            st < 8,
            dt < 0x1000_0000,
            pow256(4) == 0x1_0000_0000,
    ;
    let a = be_bytes(word, 4);
    let b = be_bytes(r.subsegment_duration as nat, 4);
    let c = be_bytes(sap, 4);
    crate::util::lemma_be_bytes_len(word, 4);
    crate::util::lemma_be_bytes_len(r.subsegment_duration as nat, 4);
    crate::util::lemma_be_bytes_len(sap, 4);
    lemma_be_value_bytes(word, 4);
    lemma_be_value_bytes(r.subsegment_duration as nat, 4);
    lemma_be_value_bytes(sap, 4);
    let q = p.subrange(base, base + 12);
    assert(p.subrange(base, base + 4) =~= q.subrange(0, 4));
    assert(q.subrange(0, 4) =~= a);
    assert(p.subrange(base + 4, base + 8) =~= q.subrange(4, 8));
    assert(q.subrange(4, 8) =~= b);
    assert(p.subrange(base + 8, base + 12) =~= q.subrange(8, 12));
    assert(q.subrange(8, 12) =~= c);
}

/// sidx: the segment index.
pub struct SidxDecoder;

impl SidxDecoder {
    pub fn decode(&self, payload: &[u8], hdr: &BoxHeader, version: Option<u8>, flags: Option<u32>) -> (r:
        Result<BoxValue, DecodeError>)
        ensures
            ({
                let p = payload@;
                let w = time_width(version);
                let b = sidx_base(version);
                match r {
                    Ok(v) => {
                        &&& sidx_fits(p, version)
                        &&& v matches BoxValue::Structured(StructuredData::SegmentIndex(d))
                        &&& d.version == (match version {
                            Some(x) => x,
                            None => 0u8,
                        })
                        &&& d.flags == (match flags {
                            Some(x) => x,
                            None => 0u32,
                        })
                        &&& d.reference_id == at(p, 0, 4)
                        &&& d.timescale == at(p, 4, 4)
                        &&& d.earliest_presentation_time == at(p, 8, w)
                        &&& d.first_offset == at(p, 8 + w, w)
                        &&& d.references@.len() == at(p, b - 2, 2)
                        &&& forall|i: int|
                            0 <= i < d.references@.len() ==> (#[trigger] d.references@[i]) == sidx_ref(
                                p,
                                b + 12 * i,
                            )
                    },
                    Err(e) => !sidx_fits(p, version) && e is Truncated,
                }
            }),
    {
        let v: u8 = match version {
            Some(x) => x,
            None => 0,
        };
        let w: usize = if v == 1 {
            8
        } else {
            4
        };
        let base = 12 + 2 * w;
        let blen = payload.len();
        if blen < base {
            return Err(DecodeError::Truncated);
        }
        let reference_id = read_at(payload, 0, 4) as u32;
        let timescale = read_at(payload, 4, 4) as u32;
        let ept = read_at(payload, 8, w);
        let first_offset = read_at(payload, 8 + w, w);
        let count = read_at(payload, base - 2, 2) as usize;
        if count > (blen - base) / 12 {
            return Err(DecodeError::Truncated);
        }
        let mut refs: Vec<SidxReference> = Vec::new();
        let mut i: usize = 0;
        while i < count
            invariant
                i <= count,
                blen == payload@.len(),
                base + 12 * count <= blen,
                refs@.len() == i,
                forall|j: int| 0 <= j < i ==> (#[trigger] refs@[j]) == sidx_ref(payload@, base + 12 * j),
            decreases count - i,
        {
            let pos = base + 12 * i;
            let word = read_at(payload, pos, 4);
            let dur = read_at(payload, pos + 4, 4);
            let sap = read_at(payload, pos + 8, 4);
            refs.push(
                SidxReference {
                    reference_type: (word / 0x8000_0000) as u8,
                    referenced_size: (word % 0x8000_0000) as u32,
                    subsegment_duration: dur as u32,
                    starts_with_sap: sap / 0x8000_0000 == 1,
                    sap_type: ((sap / 0x1000_0000) % 8) as u8,
                    sap_delta_time: (sap % 0x1000_0000) as u32,
                },
            );
            i = i + 1;
        }
        Ok(
            BoxValue::Structured(
                StructuredData::SegmentIndex(
                    SidxData {
                        version: v,
                        flags: match flags {
                            Some(x) => x,
                            None => 0,
                        },
                        reference_id,
                        timescale,
                        earliest_presentation_time: ept,
                        first_offset,
                        references: refs,
                    },
                ),
            ),
        )
    }

    /// Where the named fields lie in the payload.
    pub fn field_spans(&self, version: Option<u8>, flags: Option<u32>, payload_len: u64) -> (r: Vec<
        FieldSpan,
    >)
        ensures
            ({
                let w = time_width(version);
                &&& r@.len() == 4
                &&& span_is(r@[0], "reference_id", 0, 4)
                &&& span_is(r@[1], "timescale", 4, 4)
                &&& span_is(r@[2], "earliest_presentation_time", 8, w)
                &&& span_is(r@[3], "first_offset", 8 + w, w)
            }),
    {
        let w: u64 = if version == Some(1u8) {
            8
        } else {
            4
        };
        let mut pos: u64 = 0;
        let mut v: Vec<FieldSpan> = Vec::new();
        v.push(span("reference_id", 4, &mut pos));
        v.push(span("timescale", 4, &mut pos));
        v.push(span("earliest_presentation_time", w, &mut pos));
        v.push(span("first_offset", w, &mut pos));
        v
    }
}

/// Whether any bit of `m` is set in `fl`.
pub open spec fn has(fl: u32, m: u32) -> bool {
    fl & m != 0
}

/// `n` bytes when the flag bit is set, else none.
pub open spec fn opt_len(fl: u32, m: u32, n: int) -> int {
    if has(fl, m) {
        n
    } else {
        0
    }
}

/// A field present when its flag bit is set.
pub open spec fn opt_field(p: Seq<u8>, fl: u32, m: u32, pos: int, n: int) -> Option<nat> {
    if has(fl, m) {
        Some(at(p, pos, n))
    } else {
        None
    }
}

fn opt_read(p: &[u8], fl: u32, m: u32, pos: usize, n: usize) -> (r: (Option<u64>, usize))
    requires
        n <= 8,
        pos + opt_len(fl, m, n as int) <= p@.len(),
    ensures
        match opt_field(p@, fl, m, pos as int, n as int) {
            Some(v) => r.0 matches Some(x) && x == v,
            None => r.0 is None,
        },
        r.1 == pos + opt_len(fl, m, n as int),
{
    let blen = p.len();
    proof {
        assert(blen == p@.len());
    }
    if fl & m != 0 {
        (Some(read_at(p, pos, n)), pos + n)
    } else {
        (None, pos)
    }
}

/// `l` with the span appended when `present`.
pub open spec fn opt_spans(l: Seq<(Seq<char>, int, int)>, present: bool, name: Seq<char>, start: int, len: int) -> Seq<(Seq<char>, int, int)> {
    if present {
        l.push((name, start, len))
    } else {
        l
    }
}

/// The spans are exactly the listed (name, start, length) triples.
pub open spec fn spans_are(r: Seq<FieldSpan>, l: Seq<(Seq<char>, int, int)>) -> bool {
    &&& r.len() == l.len()
    &&& forall|i: int| 0 <= i < r.len() ==> (#[trigger] r[i]).name@ == l[i].0 && r[i].start == l[i].1 && r[i].length == l[i].2
}

/// Offsets of the optional tfhd fields and the payload length they need.
pub open spec fn tfhd_offsets(fl: u32) -> (int, int, int, int, int, int) {
    let o1: int = 4;
    let o2 = o1 + opt_len(fl, 1, 8);
    let o3 = o2 + opt_len(fl, 2, 4);
    let o4 = o3 + opt_len(fl, 8, 4);
    let o5 = o4 + opt_len(fl, 0x10, 4);
    let end = o5 + opt_len(fl, 0x20, 4);
    (o1, o2, o3, o4, o5, end)
}

pub open spec fn map_u32(o: Option<nat>) -> Option<u32> {
    match o {
        Some(x) => Some(x as u32),
        None => None,
    }
}

pub open spec fn map_u64(o: Option<nat>) -> Option<u64> {
    match o {
        Some(x) => Some(x as u64),
        None => None,
    }
}

/// tfhd: the track fragment header; optional fields follow the flag bits.
pub struct TfhdDecoder;

impl TfhdDecoder {
    #[verifier::rlimit(50)]
    pub fn decode(&self, payload: &[u8], hdr: &BoxHeader, version: Option<u8>, flags: Option<u32>) -> (r:
        Result<BoxValue, DecodeError>)
        ensures
            ({
                let p = payload@;
                let fl = match flags {
                    Some(x) => x,
                    None => 0u32,
                };
                let (o1, o2, o3, o4, o5, end) = tfhd_offsets(fl);
                match r {
                    Ok(v) => p.len() >= end && v == BoxValue::Structured(
                        StructuredData::TrackFragmentHeader(
                            TfhdData {
                                version: match version {
                                    Some(x) => x,
                                    None => 0,
                                },
                                flags: fl,
                                track_id: at(p, 0, 4) as u32,
                                base_data_offset: map_u64(opt_field(p, fl, 1, o1, 8)),
                                sample_description_index: map_u32(opt_field(p, fl, 2, o2, 4)),
                                default_sample_duration: map_u32(opt_field(p, fl, 8, o3, 4)),
                                default_sample_size: map_u32(opt_field(p, fl, 0x10, o4, 4)),
                                default_sample_flags: map_u32(opt_field(p, fl, 0x20, o5, 4)),
                                duration_is_empty: has(fl, 0x10000),
                                default_base_is_moof: has(fl, 0x20000),
                            },
                        ),
                    ),
                    Err(e) => p.len() < end && e is Truncated,
                }
            }),
    {
        let fl: u32 = match flags {
            Some(x) => x,
            None => 0,
        };
        let need: usize = 4 + (if fl & 1 != 0 {
            8
        } else {
            0
        }) + (if fl & 2 != 0 {
            4
        } else {
            0
        }) + (if fl & 8 != 0 {
            4
        } else {
            0
        }) + (if fl & 0x10 != 0 {
            4
        } else {
            0
        }) + (if fl & 0x20 != 0 {
            4
        } else {
            0
        });
        proof {
            assert(need == tfhd_offsets(fl).5);
        }
        if payload.len() < need {
            return Err(DecodeError::Truncated);
        }
        let track_id = read_at(payload, 0, 4) as u32;
        let (bdo, p2) = opt_read(payload, fl, 1, 4, 8);
        let (sdi, p3) = opt_read(payload, fl, 2, p2, 4);
        let (dur, p4) = opt_read(payload, fl, 8, p3, 4);
        let (size, p5) = opt_read(payload, fl, 0x10, p4, 4);
        let (sfl, _p6) = opt_read(payload, fl, 0x20, p5, 4);
        Ok(
            BoxValue::Structured(
                StructuredData::TrackFragmentHeader(
                    TfhdData {
                        version: match version {
                            Some(x) => x,
                            None => 0,
                        },
                        flags: fl,
                        track_id,
                        base_data_offset: bdo,
                        sample_description_index: match sdi {
                            Some(x) => Some(x as u32),
                            None => None,
                        },
                        default_sample_duration: match dur {
                            Some(x) => Some(x as u32),
                            None => None,
                        },
                        default_sample_size: match size {
                            Some(x) => Some(x as u32),
                            None => None,
                        },
                        default_sample_flags: match sfl {
                            Some(x) => Some(x as u32),
                            None => None,
                        },
                        duration_is_empty: fl & 0x10000 != 0,
                        default_base_is_moof: fl & 0x20000 != 0,
                    },
                ),
            ),
        )
    }

    /// Where the named fields lie in the payload: the track ID, then each
    /// optional field whose flag bit is set.
    pub fn field_spans(&self, version: Option<u8>, flags: Option<u32>, payload_len: u64) -> (r: Vec<
        FieldSpan,
    >)
        ensures
            ({
                let fl = match flags {
                    Some(x) => x,
                    None => 0u32,
                };
                let (o1, o2, o3, o4, o5, end) = tfhd_offsets(fl);
                let l = opt_spans(
                    opt_spans(
                        opt_spans(
                            opt_spans(
                                opt_spans(seq![("track_id"@, 0int, 4int)], has(fl, 1), "base_data_offset"@, o1, 8),
                                has(fl, 2),
                                "sample_description_index"@,
                                o2,
                                4,
                            ),
                            has(fl, 8),
                            "default_sample_duration"@,
                            o3,
                            4,
                        ),
                        has(fl, 0x10),
                        "default_sample_size"@,
                        o4,
                        4,
                    ),
                    has(fl, 0x20),
                    "default_sample_flags"@,
                    o5,
                    4,
                );
                spans_are(r@, l)
            }),
    {
        let fl: u32 = match flags {
            Some(x) => x,
            None => 0,
        };
        let mut pos: u64 = 0;
        let mut v: Vec<FieldSpan> = Vec::new();
        v.push(span("track_id", 4, &mut pos));
        if fl & 1 != 0 {
            v.push(span("base_data_offset", 8, &mut pos));
        }
        if fl & 2 != 0 {
            v.push(span("sample_description_index", 4, &mut pos));
        }
        if fl & 8 != 0 {
            v.push(span("default_sample_duration", 4, &mut pos));
        }
        if fl & 0x10 != 0 {
            v.push(span("default_sample_size", 4, &mut pos));
        }
        if fl & 0x20 != 0 {
            v.push(span("default_sample_flags", 4, &mut pos));
        }
        v
    }
}

/// Layout of a trun payload under its flags: where the per-sample array
/// starts, and the bytes per sample.
pub open spec fn trun_layout(fl: u32) -> (int, int) {
    let base = 4 + opt_len(fl, 1, 4) + opt_len(fl, 4, 4);
    let stride = opt_len(fl, 0x100, 4) + opt_len(fl, 0x200, 4) + opt_len(fl, 0x400, 4) + opt_len(
        fl,
        0x800,
        4,
    );
    (base, stride)
}

/// Whether a trun payload holds its header and all its samples.
pub open spec fn trun_fits(p: Seq<u8>, fl: u32) -> bool {
    let (base, stride) = trun_layout(fl);
    p.len() >= base && p.len() >= base + stride * at(p, 0, 4)
}

/// The sample record at `pos`.
pub open spec fn trun_sample(p: Seq<u8>, fl: u32, pos: int) -> TrunSample {
    let o_size = pos + opt_len(fl, 0x100, 4);
    let o_flags = o_size + opt_len(fl, 0x200, 4);
    let o_cto = o_flags + opt_len(fl, 0x400, 4);
    TrunSample {
        duration: map_u32(opt_field(p, fl, 0x100, pos, 4)),
        size: map_u32(opt_field(p, fl, 0x200, o_size, 4)),
        flags: map_u32(opt_field(p, fl, 0x400, o_flags, 4)),
        composition_time_offset: match opt_field(p, fl, 0x800, o_cto, 4) {
            Some(x) => Some(x as i32),
            None => None,
        },
    }
}

/// A present 32-bit field as four big-endian bytes; an absent one as none.
pub open spec fn opt_bytes32(o: Option<nat>) -> Seq<u8> {
    match o {
        Some(v) => be_bytes(v, 4),
        None => Seq::empty(),
    }
}

/// An optional 32-bit field as a natural number.
pub open spec fn opt_nat32(o: Option<u32>) -> Option<nat> {
    match o {
        Some(v) => Some(v as nat),
        None => None,
    }
}

/// The encoding of a run's sample record: the fields that are present, in
/// the order duration, size, flags, composition time offset.
pub open spec fn trun_sample_bytes(s: TrunSample) -> Seq<u8> {
    opt_bytes32(opt_nat32(s.duration)) + opt_bytes32(opt_nat32(s.size)) + opt_bytes32(opt_nat32(s.flags))
        + opt_bytes32(
        match s.composition_time_offset {
            Some(c) => Some((c as u32) as nat),
            None => None,
        },
    )
}

proof fn lemma_opt_field_bytes(p: Seq<u8>, fl: u32, m: u32, pos: int, o: Option<nat>)
    requires
        0 <= pos,
        pos + opt_bytes32(o).len() <= p.len(),
        has(fl, m) == o is Some,
        o matches Some(v) ==> v < 0x1_0000_0000,
        p.subrange(pos, pos + opt_bytes32(o).len()) == opt_bytes32(o),
    ensures
        opt_field(p, fl, m, pos, 4) == o,
        opt_len(fl, m, 4) == opt_bytes32(o).len(),
{
    if let Some(v) = o {
        lemma_pow256_values();
        crate::util::lemma_be_bytes_len(v, 4);
        lemma_be_value_bytes(v, 4);
    }
}

/// Decoding an encoded sample record gives the record back, when the flag
/// bits say which of its fields are present.
pub proof fn lemma_trun_sample_roundtrip(p: Seq<u8>, fl: u32, pos: int, s: TrunSample)
    requires
        0 <= pos,
        pos + trun_sample_bytes(s).len() <= p.len(),
        p.subrange(pos, pos + trun_sample_bytes(s).len()) == trun_sample_bytes(s),
        has(fl, 0x100) == s.duration is Some,
        has(fl, 0x200) == s.size is Some,
        has(fl, 0x400) == s.flags is Some,
        has(fl, 0x800) == s.composition_time_offset is Some,
    ensures
        trun_sample(p, fl, pos) == s,
{
    let o1 = opt_nat32(s.duration);
    let o2 = opt_nat32(s.size);
    let o3 = opt_nat32(s.flags);
    let o4 = match s.composition_time_offset {
        Some(c) => Some((c as u32) as nat),
        None => None,
    };
    let a = opt_bytes32(o1);
    let b = opt_bytes32(o2);
    let c = opt_bytes32(o3);
    let d = opt_bytes32(o4);
    if let Some(v) = o1 {
        crate::util::lemma_be_bytes_len(v, 4);
    }
    if let Some(v) = o2 {
        crate::util::lemma_be_bytes_len(v, 4);
    }
    if let Some(v) = o3 {
        crate::util::lemma_be_bytes_len(v, 4);
    }
    if let Some(v) = o4 {
        crate::util::lemma_be_bytes_len(v, 4);
    }
    let q = p.subrange(pos, pos + trun_sample_bytes(s).len());
    let la = a.len() as int;
    let lb = b.len() as int;
    let lc = c.len() as int;
    let ld = d.len() as int;
    assert(q =~= a + b + c + d);
    assert(p.subrange(pos, pos + la) =~= a);
    assert(q.subrange(la, la + lb) =~= b);
    assert(p.subrange(pos + la, pos + la + lb) =~= q.subrange(la, la + lb));
    assert(q.subrange(la + lb, la + lb + lc) =~= c);
    assert(p.subrange(pos + la + lb, pos + la + lb + lc) =~= q.subrange(la + lb, la + lb + lc));
    assert(q.subrange(la + lb + lc, la + lb + lc + ld) =~= d);
    assert(p.subrange(pos + la + lb + lc, pos + la + lb + lc + ld) =~= q.subrange(la + lb + lc, la + lb + lc + ld));
    lemma_opt_field_bytes(p, fl, 0x100, pos, o1);
    lemma_opt_field_bytes(p, fl, 0x200, pos + la, o2);
    lemma_opt_field_bytes(p, fl, 0x400, pos + la + lb, o3);
    lemma_opt_field_bytes(p, fl, 0x800, pos + la + lb + lc, o4);
    if let Some(x) = s.composition_time_offset {
        assert((x as u32) as i32 == x) by (bit_vector);
    }
}

/// trun: a track fragment run; optional fields follow the flag bits.
pub struct TrunDecoder;

impl TrunDecoder {
    #[verifier::rlimit(50)]
    pub fn decode(&self, payload: &[u8], hdr: &BoxHeader, version: Option<u8>, flags: Option<u32>) -> (r:
        Result<BoxValue, DecodeError>)
        ensures
            ({
                let p = payload@;
                let fl = match flags {
                    Some(x) => x,
                    None => 0u32,
                };
                let (base, stride) = trun_layout(fl);
                match r {
                    Ok(v) => {
                        &&& trun_fits(p, fl)
                        &&& v matches BoxValue::Structured(StructuredData::TrackFragmentRun(d))
                        &&& d.version == (match version {
                            Some(x) => x,
                            None => 0u8,
                        })
                        &&& d.flags == fl
                        &&& d.sample_count == at(p, 0, 4)
                        &&& d.data_offset == (match opt_field(p, fl, 1, 4, 4) {
                            Some(x) => Some(x as i32),
                            None => None,
                        })
                        &&& d.first_sample_flags == map_u32(
                            opt_field(p, fl, 4, 4 + opt_len(fl, 1, 4), 4),
                        )
                        &&& d.samples@.len() == at(p, 0, 4)
                        &&& forall|i: int|
                            0 <= i < d.samples@.len() ==> (#[trigger] d.samples@[i]) == trun_sample(
                                p,
                                fl,
                                base + stride * i,
                            )
                    },
                    Err(e) => !trun_fits(p, fl) && e is Truncated,
                }
            }),
    {
        let fl: u32 = match flags {
            Some(x) => x,
            None => 0,
        };
        let blen = payload.len();
        let base: usize = 4 + (if fl & 1 != 0 {
            4
        } else {
            0
        }) + (if fl & 4 != 0 {
            4
        } else {
            0
        });
        let stride: usize = (if fl & 0x100 != 0 {
            4
        } else {
            0
        }) + (if fl & 0x200 != 0 {
            4
        } else {
            0
        }) + (if fl & 0x400 != 0 {
            4
        } else {
            0
        }) + (if fl & 0x800 != 0 {
            4
        } else {
            0
        });
        proof {
            assert(blen == payload@.len());
            assert(base == trun_layout(fl).0 && stride == trun_layout(fl).1);
        }
        if blen < base {
            return Err(DecodeError::Truncated);
        }
        let count = read_at(payload, 0, 4) as usize;
        if stride > 0 && count > (blen - base) / stride {
            proof {
                let ghost c: int = count as int;
                let ghost l: int = blen as int;
                let ghost b: int = base as int;
                let ghost st: int = stride as int;
                assert(st * c > l - b) by (nonlinear_arith)
                    requires
                        c > (l - b) / st,
                        st >= 1,
                        l >= b,
                ;
            }
            return Err(DecodeError::Truncated);
        }
        proof {
            let ghost c: int = count as int;
            let ghost l: int = blen as int;
            let ghost b: int = base as int;
            let ghost st: int = stride as int;
            assert(st * c <= l - b) by (nonlinear_arith)
                requires
                    st == 0 || c <= (l - b) / st,
                    st >= 0,
                    l >= b,
            ;
        }
        let (data_offset_raw, p1) = opt_read(payload, fl, 1, 4, 4);
        let (first_flags, _p2) = opt_read(payload, fl, 4, p1, 4);
        let mut samples: Vec<TrunSample> = Vec::new();
        let mut i: usize = 0;
        let mut pos: usize = base;
        while i < count
            invariant
                i <= count,
                blen == payload@.len(),
                base + stride * count <= blen,
                base == trun_layout(fl).0,
                stride == trun_layout(fl).1,
                pos == base + stride * i,
                samples@.len() == i,
                forall|j: int|
                    0 <= j < i ==> (#[trigger] samples@[j]) == trun_sample(payload@, fl, base + stride * j),
            decreases count - i,
        {
            proof {
                assert(stride * (i + 1) == stride * i + stride) by (nonlinear_arith);
                assert(stride * (i + 1) <= stride * count) by (nonlinear_arith)
                    requires
                        i + 1 <= count,
                ;
            }
            let (d, q1) = opt_read(payload, fl, 0x100, pos, 4);
            let (sz, q2) = opt_read(payload, fl, 0x200, q1, 4);
            let (sf, q3) = opt_read(payload, fl, 0x400, q2, 4);
            let (cto, _q4) = opt_read(payload, fl, 0x800, q3, 4);
            samples.push(
                TrunSample {
                    duration: match d {
                        Some(x) => Some(x as u32),
                        None => None,
                    },
                    size: match sz {
                        Some(x) => Some(x as u32),
                        None => None,
                    },
                    flags: match sf {
                        Some(x) => Some(x as u32),
                        None => None,
                    },
                    composition_time_offset: match cto {
                        Some(x) => Some(x as i32),
                        None => None,
                    },
                },
            );
            pos = pos + stride;
            i = i + 1;
        }
        Ok(
            BoxValue::Structured(
                StructuredData::TrackFragmentRun(
                    TrunData {
                        version: match version {
                            Some(x) => x,
                            None => 0,
                        },
                        flags: fl,
                        sample_count: count as u32,
                        data_offset: match data_offset_raw {
                            Some(x) => Some(x as i32),
                            None => None,
                        },
                        first_sample_flags: match first_flags {
                            Some(x) => Some(x as u32),
                            None => None,
                        },
                        samples,
                    },
                ),
            ),
        )
    }

    /// Where the named fields lie in the payload: the sample count, then
    /// the data offset and first sample flags when their flag bits are set.
    pub fn field_spans(&self, version: Option<u8>, flags: Option<u32>, payload_len: u64) -> (r: Vec<
        FieldSpan,
    >)
        ensures
            ({
                let fl = match flags {
                    Some(x) => x,
                    None => 0u32,
                };
                spans_are(
                    r@,
                    opt_spans(
                        opt_spans(seq![("sample_count"@, 0int, 4int)], has(fl, 1), "data_offset"@, 4, 4),
                        has(fl, 4),
                        "first_sample_flags"@,
                        4 + opt_len(fl, 1, 4),
                        4,
                    ),
                )
            }),
    {
        let fl: u32 = match flags {
            Some(x) => x,
            None => 0,
        };
        let mut pos: u64 = 0;
        let mut v: Vec<FieldSpan> = Vec::new();
        v.push(span("sample_count", 4, &mut pos));
        if fl & 1 != 0 {
            v.push(span("data_offset", 4, &mut pos));
        }
        if fl & 4 != 0 {
            v.push(span("first_sample_flags", 4, &mut pos));
        }
        v
    }
}

} // verus!
