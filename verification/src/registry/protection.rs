//! Decoders for the Common Encryption boxes: `pssh`, `tenc`, `senc`,
//! `schm` and `frma`.

use vstd::prelude::*;
use crate::boxes::BoxHeader;
use crate::drm::{parse_pssh_body, pssh_error, pssh_is};
use crate::util::{copy_range, hex_string, push_decimal, push_str, spec_hex, spec_utf8_lossy, utf8_lossy};
use super::codecs::{is_text, kv};
use super::data::{BoxValue, DecodeError, FieldSpan, StructuredData, TencData};
use super::decoders::{at, read_at, span_is};

verus! {

/// pssh: protection system header, with the Widevine or PlayReady payload
/// decoded when the system is one of those.
pub struct PsshDecoder;

impl PsshDecoder {
    pub fn decode(&self, payload: &[u8], hdr: &BoxHeader, version: Option<u8>, flags: Option<u32>) -> (r:
        Result<BoxValue, DecodeError>)
        ensures
            ({
                let v = match version {
                    Some(x) => x,
                    None => 0,
                };
                let f = match flags {
                    Some(x) => x,
                    None => 0,
                };
                match pssh_error(v, payload@) {
                    Some(e) => r matches Err(DecodeError::Invalid(m)) && m@ == e,
                    None => r matches Ok(BoxValue::Structured(StructuredData::ProtectionSystemHeader(d)))
                        && pssh_is(d, v, f, payload@),
                }
            }),
    {
        let v = match version {
            Some(x) => x,
            None => 0,
        };
        let f = match flags {
            Some(x) => x,
            None => 0,
        };
        match parse_pssh_body(v, f, payload) {
            Ok(d) => Ok(BoxValue::Structured(StructuredData::ProtectionSystemHeader(d))),
            Err(m) => Err(DecodeError::Invalid(m)),
        }
    }
}

/// tenc: default encryption parameters of a track.
pub struct TencDecoder;

impl TencDecoder {
    pub fn decode(&self, payload: &[u8], hdr: &BoxHeader, version: Option<u8>, flags: Option<u32>) -> (r:
        Result<BoxValue, DecodeError>)
        ensures
            ({
                let p = payload@;
                let v = match version {
                    Some(x) => x,
                    None => 0,
                };
                let constant = p.len() >= 20 && p[2] != 0 && p[3] == 0;
                if p.len() < 20 || (constant && (p.len() < 21 || p.len() < 21 + p[20])) {
                    r matches Err(DecodeError::Truncated)
                } else {
                    r matches Ok(BoxValue::Structured(StructuredData::TrackEncryption(d))) && {
                        &&& d.version == v
                        &&& d.flags == (match flags {
                            Some(x) => x,
                            None => 0,
                        })
                        &&& d.default_crypt_byte_block == (if v >= 1 { p[1] / 16 } else { 0 })
                        &&& d.default_skip_byte_block == (if v >= 1 { p[1] % 16 } else { 0 })
                        &&& d.default_is_protected == (p[2] != 0)
                        &&& d.default_per_sample_iv_size == p[3]
                        &&& d.default_kid@ == spec_hex(p.subrange(4, 20), false)
                        &&& if constant {
                            d.default_constant_iv matches Some(iv) && iv@ == spec_hex(
                                p.subrange(21, 21 + p[20]),
                                false,
                            )
                        } else {
                            d.default_constant_iv is None
                        }
                    }
                }
            }),
    {
        let p = payload;
        let n = p.len();
        let v = match version {
            Some(x) => x,
            None => 0,
        };
        if n < 20 {
            return Err(DecodeError::Truncated);
        }
        let pattern = p[1];
        let is_protected = p[2] != 0;
        let iv_size = p[3];
        let kid = copy_range(p, 4, 20);
        let constant_iv = if is_protected && iv_size == 0 {
            if n < 21 {
                return Err(DecodeError::Truncated);
            }
            let len = p[20] as usize;
            if n - 21 < len {
                return Err(DecodeError::Truncated);
            }
            let iv = copy_range(p, 21, 21 + len);
            Some(hex_string(iv.as_slice()))
        } else {
            None
        };
        Ok(
            BoxValue::Structured(
                StructuredData::TrackEncryption(
                    TencData {
                        version: v,
                        flags: match flags {
                            Some(x) => x,
                            None => 0,
                        },
                        default_crypt_byte_block: if v >= 1 {
                            pattern / 16
                        } else {
                            0
                        },
                        default_skip_byte_block: if v >= 1 {
                            pattern % 16
                        } else {
                            0
                        },
                        default_is_protected: is_protected,
                        default_per_sample_iv_size: iv_size,
                        default_kid: hex_string(kid.as_slice()),
                        default_constant_iv: constant_iv,
                    },
                ),
            ),
        )
    }

    /// Where the fixed fields lie; the trailing constant IV depends on the
    /// values, so it has no span here.
    pub fn field_spans(&self, version: Option<u8>, flags: Option<u32>, payload_len: u64) -> (r: Vec<
        FieldSpan,
    >)
        ensures
            payload_len < 20 ==> r@.len() == 0,
            payload_len >= 20 ==> {
                &&& r@.len() == 3
                &&& span_is(r@[0], "default_is_protected", 2, 1)
                &&& span_is(r@[1], "default_per_sample_iv_size", 3, 1)
                &&& span_is(r@[2], "default_kid", 4, 16)
            },
    {
        let mut v: Vec<FieldSpan> = Vec::new();
        if payload_len < 20 {
            return v;
        }
        v.push(FieldSpan { name: "default_is_protected".to_owned(), start: 2, length: 1 });
        v.push(FieldSpan { name: "default_per_sample_iv_size".to_owned(), start: 3, length: 1 });
        v.push(FieldSpan { name: "default_kid".to_owned(), start: 4, length: 16 });
        v
    }
}

/// `true` or `false`, as `{}` prints a bool.
pub open spec fn bool_text(b: bool) -> Seq<char> {
    if b {
        "true"@
    } else {
        "false"@
    }
}

pub open spec fn senc_text(p: Seq<u8>, fl: u32) -> Seq<char> {
    kv("sample_count=", at(p, 0, 4)) + " subsamples="@ + bool_text(fl / 2 % 2 == 1)
        + " (per-sample IVs sized by tenc)"@
}

/// senc: sample encryption; only the sample count and whether subsample
/// maps are present, since the IV size comes from tenc.
pub struct SencDecoder;

impl SencDecoder {
    pub fn decode(&self, payload: &[u8], hdr: &BoxHeader, version: Option<u8>, flags: Option<u32>) -> (r:
        Result<BoxValue, DecodeError>)
        ensures
            if payload@.len() < 4 {
                r matches Err(DecodeError::Truncated)
            } else {
                is_text(
                    r,
                    senc_text(
                        payload@,
                        match flags {
                            Some(x) => x,
                            None => 0,
                        },
                    ),
                )
            },
    {
        if payload.len() < 4 {
            return Err(DecodeError::Truncated);
        }
        let fl: u32 = match flags {
            Some(x) => x,
            None => 0,
        };
        let mut t = String::new();
        push_str(&mut t, "sample_count=");
        push_decimal(&mut t, read_at(payload, 0, 4));
        push_str(&mut t, " subsamples=");
        if fl / 2 % 2 == 1 {
            push_str(&mut t, "true");
        } else {
            push_str(&mut t, "false");
        }
        push_str(&mut t, " (per-sample IVs sized by tenc)");
        proof {
            assert(t@ =~= senc_text(payload@, fl));
        }
        Ok(BoxValue::Text(t))
    }
}

pub open spec fn schm_text(p: Seq<u8>) -> Seq<char> {
    "scheme="@ + spec_utf8_lossy(p.subrange(0, 4)) + kv(" version=", at(p, 4, 4) / 65536) + kv(
        ".",
        at(p, 4, 4) % 65536,
    )
}

/// schm: the protection scheme type (cenc, cbcs, ...) and its version.
pub struct SchmDecoder;

impl SchmDecoder {
    pub fn decode(&self, payload: &[u8], hdr: &BoxHeader, version: Option<u8>, flags: Option<u32>) -> (r:
        Result<BoxValue, DecodeError>)
        ensures
            if payload@.len() < 8 {
                r matches Err(DecodeError::Truncated)
            } else {
                is_text(r, schm_text(payload@))
            },
    {
        if payload.len() < 8 {
            return Err(DecodeError::Truncated);
        }
        let scheme = copy_range(payload, 0, 4);
        let v = read_at(payload, 4, 4);
        let mut t = String::new();
        push_str(&mut t, "scheme=");
        let s = utf8_lossy(scheme.as_slice());
        push_str(&mut t, s.as_str());
        push_str(&mut t, " version=");
        push_decimal(&mut t, v / 65536);
        push_str(&mut t, ".");
        push_decimal(&mut t, v % 65536);
        proof {
            assert(t@ =~= schm_text(payload@));
        }
        Ok(BoxValue::Text(t))
    }
}

/// frma: the sample entry format before encryption.
pub struct FrmaDecoder;

impl FrmaDecoder {
    pub fn decode(&self, payload: &[u8], hdr: &BoxHeader, version: Option<u8>, flags: Option<u32>) -> (r:
        Result<BoxValue, DecodeError>)
        ensures
            if payload@.len() < 4 {
                r matches Err(DecodeError::Truncated)
            } else {
                is_text(r, "original_format="@ + spec_utf8_lossy(payload@.subrange(0, 4)))
            },
    {
        if payload.len() < 4 {
            return Err(DecodeError::Truncated);
        }
        let cc = copy_range(payload, 0, 4);
        let mut t = String::new();
        push_str(&mut t, "original_format=");
        let s = utf8_lossy(cc.as_slice());
        push_str(&mut t, s.as_str());
        Ok(BoxValue::Text(t))
    }
}

} // verus!
