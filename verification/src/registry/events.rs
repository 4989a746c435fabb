//! Decoder for the DASH event message box `emsg`.

use vstd::prelude::*;
use vstd::string::StringSliceAdditionalSpecFns;
use crate::boxes::BoxHeader;
use crate::parser::sat_sub;
use crate::util::{copy_range, spec_utf8_lossy, utf8_lossy};
use super::data::{BoxValue, DecodeError, EmsgData, FieldSpan, StructuredData};
use super::decoders::{at, read_at, span_is};
use super::metadata::{find_zero, first_zero, lemma_first_zero};

verus! {

/// Longest string an event message may hold before its terminating NUL.
pub open spec fn max_cstring() -> int {
    4096
}

/// How a NUL-terminated string at `pos` ends: `Ok` with the index of its
/// NUL; `Err(true)` when more than 4096 bytes come before any NUL;
/// `Err(false)` when the payload ends first.
pub open spec fn cstring_end(p: Seq<u8>, pos: int) -> Result<int, bool> {
    let z = first_zero(p, pos);
    if z - pos > max_cstring() {
        Err(true)
    } else if z >= p.len() {
        Err(false)
    } else {
        Ok(z)
    }
}

fn cstring_end_exec(p: &[u8], pos: usize) -> (r: Result<usize, bool>)
    requires
        pos <= p@.len(),
    ensures
        match cstring_end(p@, pos as int) {
            Ok(z) => r matches Ok(x) && x == z,
            Err(u) => r == Err::<usize, bool>(u),
        },
        r matches Ok(x) ==> pos <= x < p@.len(),
{
    let z = find_zero(p, pos);
    proof {
        lemma_first_zero(p@, pos as int);
    }
    if z - pos > 4096 {
        Err(true)
    } else if z >= p.len() {
        Err(false)
    } else {
        Ok(z)
    }
}

/// Where an event message's parts lie: the scheme URI's bytes, the value's
/// bytes, and the fixed fields (timescale first); or why it does not
/// decode (`true`: a string without a NUL in its first 4097 bytes). In
/// version 0 the strings come first; from version 1 on, the fixed fields.
pub open spec fn emsg_layout(p: Seq<u8>, v: u8) -> Result<(int, int, int, int, int), bool> {
    let (start, fixed) = if v == 0 {
        (0, 0)
    } else {
        (20, 0)
    };
    if v != 0 && p.len() < 20 {
        Err(false)
    } else {
        match cstring_end(p, start) {
            Err(u) => Err(u),
            Ok(z1) => match cstring_end(p, z1 + 1) {
                Err(u) => Err(u),
                Ok(z2) => if v == 0 {
                    if z2 + 17 > p.len() {
                        Err(false)
                    } else {
                        Ok((start, z1, z1 + 1, z2, z2 + 1))
                    }
                } else {
                    Ok((start, z1, z1 + 1, z2, fixed))
                },
            },
        }
    }
}

/// UTF-8 length of the lossy text of `b` (as `str::len` reports it).
pub open spec fn lossy_len(b: Seq<u8>) -> int {
    (vstd::utf8::encode_utf8(spec_utf8_lossy(b)).len() as usize) as int
}

/// emsg: scheme, value, timescale, presentation time, duration, ID, and
/// the size of the message data after the fixed fields and strings.
pub struct EmsgDecoder;

impl EmsgDecoder {
    pub fn decode(&self, payload: &[u8], hdr: &BoxHeader, version: Option<u8>, flags: Option<u32>) -> (r:
        Result<BoxValue, DecodeError>)
        ensures
            ({
                let p = payload@;
                let v = match version {
                    Some(x) => x,
                    None => 0,
                };
                match emsg_layout(p, v) {
                    Err(true) => r matches Err(DecodeError::Invalid(m)) && m@
                        == "unterminated string in emsg"@,
                    Err(false) => r matches Err(DecodeError::Truncated),
                    Ok((ss, se, vs, ve, fx)) => r matches Ok(
                        BoxValue::Structured(StructuredData::EventMessage(d)),
                    ) && {
                        let consumed = lossy_len(p.subrange(ss, se)) + lossy_len(p.subrange(vs, ve))
                            + if v == 0 {
                            18int
                        } else {
                            22int
                        };
                        &&& d.version == v
                        &&& d.flags == (match flags {
                            Some(x) => x,
                            None => 0,
                        })
                        &&& d.scheme_id_uri@ == spec_utf8_lossy(p.subrange(ss, se))
                        &&& d.value@ == spec_utf8_lossy(p.subrange(vs, ve))
                        &&& d.timescale == at(p, fx, 4)
                        &&& if v == 0 {
                            &&& d.presentation_time is None
                            &&& d.presentation_time_delta == Some(at(p, fx + 4, 4) as u32)
                            &&& d.event_duration == at(p, fx + 8, 4)
                            &&& d.id == at(p, fx + 12, 4)
                        } else {
                            &&& d.presentation_time == Some(at(p, fx + 4, 8) as u64)
                            &&& d.presentation_time_delta is None
                            &&& d.event_duration == at(p, fx + 12, 4)
                            &&& d.id == at(p, fx + 16, 4)
                        }
                        &&& d.message_size == sat_sub(
                            sat_sub(sat_sub(hdr.size as int, hdr.header_size as int), 4),
                            consumed,
                        )
                    },
                }
            }),
    {
        let p = payload;
        let n = p.len();
        let v = match version {
            Some(x) => x,
            None => 0,
        };
        if v != 0 && n < 20 {
            return Err(DecodeError::Truncated);
        }
        let start: usize = if v == 0 {
            0
        } else {
            20
        };
        let z1 = match cstring_end_exec(p, start) {
            Ok(z) => z,
            Err(true) => return Err(DecodeError::Invalid("unterminated string in emsg".to_owned())),
            Err(false) => return Err(DecodeError::Truncated),
        };
        let z2 = match cstring_end_exec(p, z1 + 1) {
            Ok(z) => z,
            Err(true) => return Err(DecodeError::Invalid("unterminated string in emsg".to_owned())),
            Err(false) => return Err(DecodeError::Truncated),
        };
        if v == 0 && n - z2 < 17 {
            return Err(DecodeError::Truncated);
        }
        let fx: usize = if v == 0 {
            z2 + 1
        } else {
            0
        };
        let sb = copy_range(p, start, z1);
        let vb = copy_range(p, z1 + 1, z2);
        let scheme_id_uri = utf8_lossy(sb.as_slice());
        let value = utf8_lossy(vb.as_slice());
        let consumed: u128 = scheme_id_uri.as_str().len() as u128 + value.as_str().len() as u128 + if v
            == 0 {
            18
        } else {
            22
        };
        let a = if hdr.size >= hdr.header_size {
            hdr.size - hdr.header_size
        } else {
            0
        };
        let b = if a >= 4 {
            a - 4
        } else {
            0
        };
        let message_size: u64 = if b as u128 >= consumed {
            (b as u128 - consumed) as u64
        } else {
            0
        };
        proof {
            assert(emsg_layout(p@, v) == Ok::<(int, int, int, int, int), bool>(
                (start as int, z1 as int, z1 + 1, z2 as int, fx as int),
            ));
            assert(consumed == lossy_len(p@.subrange(start as int, z1 as int)) + lossy_len(
                p@.subrange(z1 + 1, z2 as int),
            ) + if v == 0 {
                18int
            } else {
                22int
            });
            assert(message_size == sat_sub(
                sat_sub(sat_sub(hdr.size as int, hdr.header_size as int), 4),
                consumed as int,
            ));
        }
        let timescale = read_at(p, fx, 4) as u32;
        let (presentation_time, presentation_time_delta, event_duration, id) = if v == 0 {
            (
                None,
                Some(read_at(p, fx + 4, 4) as u32),
                read_at(p, fx + 8, 4) as u32,
                read_at(p, fx + 12, 4) as u32,
            )
        } else {
            (
                Some(read_at(p, fx + 4, 8)),
                None,
                read_at(p, fx + 12, 4) as u32,
                read_at(p, fx + 16, 4) as u32,
            )
        };
        Ok(
            BoxValue::Structured(
                StructuredData::EventMessage(
                    EmsgData {
                        version: v,
                        flags: match flags {
                            Some(x) => x,
                            None => 0,
                        },
                        scheme_id_uri,
                        value,
                        timescale,
                        presentation_time,
                        presentation_time_delta,
                        event_duration,
                        id,
                        message_size,
                    },
                ),
            ),
        )
    }

    /// Where the fixed fields lie: known in version 1 only, where they
    /// come before the strings.
    pub fn field_spans(&self, version: Option<u8>, flags: Option<u32>, payload_len: u64) -> (r: Vec<
        FieldSpan,
    >)
        ensures
            version != Some(1u8) ==> r@.len() == 0,
            version == Some(1u8) ==> {
                &&& r@.len() == 4
                &&& span_is(r@[0], "timescale", 0, 4)
                &&& span_is(r@[1], "presentation_time", 4, 8)
                &&& span_is(r@[2], "event_duration", 12, 4)
                &&& span_is(r@[3], "id", 16, 4)
            },
    {
        let mut v: Vec<FieldSpan> = Vec::new();
        if version != Some(1u8) {
            return v;
        }
        v.push(FieldSpan { name: "timescale".to_owned(), start: 0, length: 4 });
        v.push(FieldSpan { name: "presentation_time".to_owned(), start: 4, length: 8 });
        v.push(FieldSpan { name: "event_duration".to_owned(), start: 12, length: 4 });
        v.push(FieldSpan { name: "id".to_owned(), start: 16, length: 4 });
        v
    }
}

} // verus!
