//! Decoders for the codec-configuration and visual-property boxes found in
//! sample entries: `btrt`, `pasp`, `avcC`, `hvcC`, `av1C`, `dvcC`/`dvvC`,
//! `vpcC`, `dOps`, `dac3`, `dec3`, `dfLa` and `colr`.
//!
//! Bit fields are written with division and remainder: `b / 2^k % 2^m`
//! is bits `k..k+m` of `b`.

use vstd::prelude::*;
use crate::boxes::BoxHeader;
use crate::util::{
    copy_range, push_decimal, push_hex_byte, push_signed, push_str, spec_decimal, spec_hex_byte,
    spec_signed_decimal, spec_utf8_lossy, utf8_lossy,
};
use super::cicp::{
    labeled, matrix_name, primaries_name, spec_labeled, spec_matrix_name, spec_primaries_name,
    spec_transfer_name, transfer_name,
};
use super::data::{BoxValue, ColrData, DecodeError, DoviConfigData, StructuredData};
use super::decoders::{at, read_at};

verus! {

// ---------- helpers ----------

/// `key` followed by the decimal rendering of `v`.
pub open spec fn kv(key: &str, v: nat) -> Seq<char> {
    key@ + spec_decimal(v)
}

pub(crate) fn push_kv(t: &mut String, key: &str, v: u64)
    ensures
        final(t)@ == old(t)@ + kv(key, v as nat),
{
    push_str(t, key);
    push_decimal(t, v);
    proof {
        assert(final(t)@ =~= old(t)@ + kv(key, v as nat));
    }
}

/// The whole payload, as raw bytes.
pub(crate) fn all_bytes(p: &[u8]) -> (r: Vec<u8>)
    ensures
        r@ == p@,
{
    let v = copy_range(p, 0, p.len());
    proof {
        assert(v@ =~= p@);
    }
    v
}

/// A text value whose view is `s`.
pub open spec fn is_text(r: Result<BoxValue, DecodeError>, s: Seq<char>) -> bool {
    r matches Ok(BoxValue::Text(t)) && t@ == s
}

/// The raw payload, returned as bytes.
pub open spec fn is_bytes(r: Result<BoxValue, DecodeError>, p: Seq<u8>) -> bool {
    r matches Ok(BoxValue::Bytes(b)) && b@ == p
}

/// An optional owned string holding the optional name `n`.
pub open spec fn opt_name_is(o: Option<String>, n: Option<&'static str>) -> bool {
    match n {
        Some(x) => o matches Some(s) && s@ == x@,
        None => o is None,
    }
}

fn opt_name(n: Option<&'static str>) -> (o: Option<String>)
    ensures
        opt_name_is(o, n),
{
    match n {
        Some(x) => Some(x.to_owned()),
        None => None,
    }
}

// ---------- btrt, pasp ----------

pub open spec fn btrt_text(p: Seq<u8>) -> Seq<char> {
    kv("buffer_size=", at(p, 0, 4)) + kv(" max_bitrate=", at(p, 4, 4)) + kv(
        " avg_bitrate=",
        at(p, 8, 4),
    )
}

/// btrt: decoder buffer size and bitrates.
pub struct BtrtDecoder;

impl BtrtDecoder {
    pub fn decode(&self, payload: &[u8], hdr: &BoxHeader, version: Option<u8>, flags: Option<u32>) -> (r:
        Result<BoxValue, DecodeError>)
        ensures
            if payload@.len() < 12 {
                r matches Err(DecodeError::Truncated)
            } else {
                is_text(r, btrt_text(payload@))
            },
    {
        if payload.len() < 12 {
            return Err(DecodeError::Truncated);
        }
        let mut t = String::new();
        push_kv(&mut t, "buffer_size=", read_at(payload, 0, 4));
        push_kv(&mut t, " max_bitrate=", read_at(payload, 4, 4));
        push_kv(&mut t, " avg_bitrate=", read_at(payload, 8, 4));
        proof {
            assert(t@ =~= btrt_text(payload@));
        }
        Ok(BoxValue::Text(t))
    }
}

pub open spec fn pasp_text(p: Seq<u8>) -> Seq<char> {
    kv("h_spacing=", at(p, 0, 4)) + kv(" v_spacing=", at(p, 4, 4))
}

/// pasp: pixel aspect ratio.
pub struct PaspDecoder;

impl PaspDecoder {
    pub fn decode(&self, payload: &[u8], hdr: &BoxHeader, version: Option<u8>, flags: Option<u32>) -> (r:
        Result<BoxValue, DecodeError>)
        ensures
            if payload@.len() < 8 {
                r matches Err(DecodeError::Truncated)
            } else {
                is_text(r, pasp_text(payload@))
            },
    {
        if payload.len() < 8 {
            return Err(DecodeError::Truncated);
        }
        let mut t = String::new();
        push_kv(&mut t, "h_spacing=", read_at(payload, 0, 4));
        push_kv(&mut t, " v_spacing=", read_at(payload, 4, 4));
        proof {
            assert(t@ =~= pasp_text(payload@));
        }
        Ok(BoxValue::Text(t))
    }
}

// ---------- avcC, hvcC, av1C ----------

pub open spec fn avcc_text(p: Seq<u8>) -> Seq<char> {
    kv("configurationVersion=", p[0] as nat) + kv(" profile=", p[1] as nat) + " compat=0x"@
        + spec_hex_byte(p[2], true) + kv(" level=", (p[3] / 10) as nat) + kv(".", (p[3] % 10) as nat)
        + kv(" nal_length_size=", (p[4] % 4 + 1) as nat)
}

/// avcC: AVC decoder configuration record.
pub struct AvccDecoder;

impl AvccDecoder {
    pub fn decode(&self, payload: &[u8], hdr: &BoxHeader, version: Option<u8>, flags: Option<u32>) -> (r:
        Result<BoxValue, DecodeError>)
        ensures
            if payload@.len() < 5 {
                is_bytes(r, payload@)
            } else {
                is_text(r, avcc_text(payload@))
            },
    {
        let p = payload;
        if p.len() < 5 {
            return Ok(BoxValue::Bytes(all_bytes(p)));
        }
        let mut t = String::new();
        push_kv(&mut t, "configurationVersion=", p[0] as u64);
        push_kv(&mut t, " profile=", p[1] as u64);
        push_str(&mut t, " compat=0x");
        push_hex_byte(&mut t, p[2], true);
        push_kv(&mut t, " level=", (p[3] / 10) as u64);
        push_kv(&mut t, ".", (p[3] % 10) as u64);
        push_kv(&mut t, " nal_length_size=", (p[4] % 4 + 1) as u64);
        proof {
            assert(t@ =~= avcc_text(p@));
        }
        Ok(BoxValue::Text(t))
    }
}

pub open spec fn hvcc_text(p: Seq<u8>) -> Seq<char> {
    kv("configurationVersion=", p[0] as nat) + kv(" profile_space=", (p[1] / 64) as nat)
        + " tier="@ + (if p[1] / 32 % 2 == 1 { "high"@ } else { "main"@ }) + kv(
        " profile_idc=",
        (p[1] % 32) as nat,
    ) + kv(" level_idc=", p[12] as nat) + kv(" (", (p[12] / 30) as nat) + kv(
        ".",
        (p[12] % 30 / 3) as nat,
    ) + ")"@
}

/// hvcC: HEVC decoder configuration record.
pub struct HvccDecoder;

impl HvccDecoder {
    pub fn decode(&self, payload: &[u8], hdr: &BoxHeader, version: Option<u8>, flags: Option<u32>) -> (r:
        Result<BoxValue, DecodeError>)
        ensures
            if payload@.len() < 13 {
                is_bytes(r, payload@)
            } else {
                is_text(r, hvcc_text(payload@))
            },
    {
        let p = payload;
        if p.len() < 13 {
            return Ok(BoxValue::Bytes(all_bytes(p)));
        }
        let mut t = String::new();
        push_kv(&mut t, "configurationVersion=", p[0] as u64);
        push_kv(&mut t, " profile_space=", (p[1] / 64) as u64);
        push_str(&mut t, " tier=");
        if p[1] / 32 % 2 == 1 {
            push_str(&mut t, "high");
        } else {
            push_str(&mut t, "main");
        }
        push_kv(&mut t, " profile_idc=", (p[1] % 32) as u64);
        push_kv(&mut t, " level_idc=", p[12] as u64);
        push_kv(&mut t, " (", (p[12] / 30) as u64);
        push_kv(&mut t, ".", (p[12] % 30 / 3) as u64);
        push_str(&mut t, ")");
        proof {
            assert(t@ =~= hvcc_text(p@));
        }
        Ok(BoxValue::Text(t))
    }
}

pub open spec fn av1c_text(p: Seq<u8>) -> Seq<char> {
    kv("marker=", (p[0] / 128) as nat) + kv(" version=", (p[0] % 128) as nat) + kv(
        " profile=",
        (p[1] / 32) as nat,
    ) + kv(" level_idx=", (p[1] % 32) as nat) + kv(" tier=", (p[2] / 128) as nat) + kv(
        " high_bitdepth=",
        (p[2] / 64 % 2) as nat,
    ) + kv(" twelve_bit=", (p[2] / 32 % 2) as nat) + kv(" monochrome=", (p[2] / 16 % 2) as nat)
}

/// av1C: AV1 codec configuration record.
pub struct Av1cDecoder;

impl Av1cDecoder {
    pub fn decode(&self, payload: &[u8], hdr: &BoxHeader, version: Option<u8>, flags: Option<u32>) -> (r:
        Result<BoxValue, DecodeError>)
        ensures
            if payload@.len() < 4 {
                is_bytes(r, payload@)
            } else {
                is_text(r, av1c_text(payload@))
            },
    {
        let p = payload;
        if p.len() < 4 {
            return Ok(BoxValue::Bytes(all_bytes(p)));
        }
        let mut t = String::new();
        push_kv(&mut t, "marker=", (p[0] / 128) as u64);
        push_kv(&mut t, " version=", (p[0] % 128) as u64);
        push_kv(&mut t, " profile=", (p[1] / 32) as u64);
        push_kv(&mut t, " level_idx=", (p[1] % 32) as u64);
        push_kv(&mut t, " tier=", (p[2] / 128) as u64);
        push_kv(&mut t, " high_bitdepth=", (p[2] / 64 % 2) as u64);
        push_kv(&mut t, " twelve_bit=", (p[2] / 32 % 2) as u64);
        push_kv(&mut t, " monochrome=", (p[2] / 16 % 2) as u64);
        proof {
            assert(t@ =~= av1c_text(p@));
        }
        Ok(BoxValue::Text(t))
    }
}

// ---------- dvcC / dvvC ----------

pub open spec fn spec_dv_compatibility_name(id: u8) -> &'static str {
    if id == 0 {
        "none"
    } else if id == 1 {
        "HDR10 (BT.2020 PQ)"
    } else if id == 2 {
        "SDR (BT.709)"
    } else if id == 4 {
        "HLG (BT.2020)"
    } else if id == 6 {
        "BT.2100 (HDR10/HLG)"
    } else {
        "reserved"
    }
}

/// What a Dolby Vision base layer is compatible with, per its
/// `dv_bl_signal_compatibility_id`.
pub fn dv_compatibility_name(id: u8) -> (r: &'static str)
    ensures
        r == spec_dv_compatibility_name(id),
{
    if id == 0 {
        "none"
    } else if id == 1 {
        "HDR10 (BT.2020 PQ)"
    } else if id == 2 {
        "SDR (BT.709)"
    } else if id == 4 {
        "HLG (BT.2020)"
    } else if id == 6 {
        "BT.2100 (HDR10/HLG)"
    } else {
        "reserved"
    }
}

/// dvcC / dvvC: Dolby Vision configuration record.
pub struct DvccDecoder;

impl DvccDecoder {
    pub fn decode(&self, payload: &[u8], hdr: &BoxHeader, version: Option<u8>, flags: Option<u32>) -> (r:
        Result<BoxValue, DecodeError>)
        ensures
            ({
                let p = payload@;
                if p.len() < 5 {
                    is_bytes(r, p)
                } else {
                    r matches Ok(BoxValue::Structured(StructuredData::DolbyVisionConfig(d)))
                        && d.dv_version_major == p[0] && d.dv_version_minor == p[1] && d.dv_profile
                        == p[2] / 2 && d.dv_level == (p[2] % 2) * 32 + p[3] / 8 && d.rpu_present == (
                    p[3] / 4 % 2 == 1) && d.el_present == (p[3] / 2 % 2 == 1) && d.bl_present == (p[3]
                        % 2 == 1) && d.bl_signal_compatibility_id == p[4] / 16
                        && d.bl_signal_compatibility@ == spec_dv_compatibility_name(p[4] / 16)@
                }
            }),
    {
        let p = payload;
        if p.len() < 5 {
            return Ok(BoxValue::Bytes(all_bytes(p)));
        }
        let compat_id = p[4] / 16;
        Ok(
            BoxValue::Structured(
                StructuredData::DolbyVisionConfig(
                    DoviConfigData {
                        dv_version_major: p[0],
                        dv_version_minor: p[1],
                        dv_profile: p[2] / 2,
                        dv_level: (p[2] % 2) * 32 + p[3] / 8,
                        rpu_present: p[3] / 4 % 2 == 1,
                        el_present: p[3] / 2 % 2 == 1,
                        bl_present: p[3] % 2 == 1,
                        bl_signal_compatibility_id: compat_id,
                        bl_signal_compatibility: dv_compatibility_name(compat_id).to_owned(),
                    },
                ),
            ),
        )
    }
}

// ---------- vpcC ----------

/// `code` with its name, when it has one.
pub open spec fn cicp_label(code: u16, name: Option<&'static str>) -> Seq<char> {
    spec_labeled(
        code,
        match name {
            Some(n) => Some(n@),
            None => None,
        },
    )
}

pub open spec fn vpcc_text(p: Seq<u8>) -> Seq<char> {
    kv("profile=", p[0] as nat) + kv(" level=", p[1] as nat) + kv(" bit_depth=", (p[2] / 16) as nat)
        + kv(" chroma=", (p[2] / 2 % 8) as nat) + kv(" full_range=", (p[2] % 2) as nat)
        + " primaries="@ + cicp_label(p[3] as u16, spec_primaries_name(p[3] as u16)) + " transfer="@
        + cicp_label(p[4] as u16, spec_transfer_name(p[4] as u16)) + " matrix="@ + cicp_label(
        p[5] as u16,
        spec_matrix_name(p[5] as u16),
    )
}

/// vpcC: VP8/VP9 codec configuration.
pub struct VpccDecoder;

impl VpccDecoder {
    pub fn decode(&self, payload: &[u8], hdr: &BoxHeader, version: Option<u8>, flags: Option<u32>) -> (r:
        Result<BoxValue, DecodeError>)
        ensures
            if payload@.len() < 6 {
                r matches Err(DecodeError::Truncated)
            } else {
                is_text(r, vpcc_text(payload@))
            },
    {
        let p = payload;
        if p.len() < 6 {
            return Err(DecodeError::Truncated);
        }
        let mut t = String::new();
        push_kv(&mut t, "profile=", p[0] as u64);
        push_kv(&mut t, " level=", p[1] as u64);
        push_kv(&mut t, " bit_depth=", (p[2] / 16) as u64);
        push_kv(&mut t, " chroma=", (p[2] / 2 % 8) as u64);
        push_kv(&mut t, " full_range=", (p[2] % 2) as u64);
        let cp = p[3] as u16;
        let tc = p[4] as u16;
        let mc = p[5] as u16;
        push_str(&mut t, " primaries=");
        let l1 = labeled(cp, primaries_name(cp));
        push_str(&mut t, l1.as_str());
        push_str(&mut t, " transfer=");
        let l2 = labeled(tc, transfer_name(tc));
        push_str(&mut t, l2.as_str());
        push_str(&mut t, " matrix=");
        let l3 = labeled(mc, matrix_name(mc));
        push_str(&mut t, l3.as_str());
        proof {
            assert(t@ =~= vpcc_text(p@));
        }
        Ok(BoxValue::Text(t))
    }
}

// ---------- dOps, dac3, dec3, dfLa ----------

/// Little-endian 32-bit value at `pos`.
pub open spec fn le32(p: Seq<u8>, pos: int) -> nat {
    (p[pos] + p[pos + 1] * 256 + p[pos + 2] * 65536 + p[pos + 3] * 16777216) as nat
}

pub open spec fn dops_text(p: Seq<u8>) -> Seq<char> {
    kv("version=", p[0] as nat) + kv(" channels=", p[1] as nat) + kv(" pre_skip=", at(p, 2, 2)) + kv(
        " input_sample_rate=",
        le32(p, 4),
    ) + " output_gain="@ + spec_signed_decimal((at(p, 8, 2) as u16) as i16 as int) + kv(
        " mapping_family=",
        p[10] as nat,
    )
}

/// dOps: Opus specific box. The input sample rate is little-endian, as in
/// the Ogg Opus header.
pub struct DopsDecoder;

impl DopsDecoder {
    pub fn decode(&self, payload: &[u8], hdr: &BoxHeader, version: Option<u8>, flags: Option<u32>) -> (r:
        Result<BoxValue, DecodeError>)
        ensures
            if payload@.len() < 11 {
                r matches Err(DecodeError::Truncated)
            } else {
                is_text(r, dops_text(payload@))
            },
    {
        let p = payload;
        if p.len() < 11 {
            return Err(DecodeError::Truncated);
        }
        let mut t = String::new();
        push_kv(&mut t, "version=", p[0] as u64);
        push_kv(&mut t, " channels=", p[1] as u64);
        push_kv(&mut t, " pre_skip=", read_at(p, 2, 2));
        let rate: u64 = p[4] as u64 + p[5] as u64 * 256 + p[6] as u64 * 65536 + p[7] as u64
            * 16777216;
        push_kv(&mut t, " input_sample_rate=", rate);
        push_str(&mut t, " output_gain=");
        let g = read_at(p, 8, 2) as u16;
        push_signed(&mut t, g as i16 as i64);
        push_kv(&mut t, " mapping_family=", p[10] as u64);
        proof {
            assert(t@ =~= dops_text(p@));
        }
        Ok(BoxValue::Text(t))
    }
}

pub open spec fn ac3_rate(fscod: nat) -> nat {
    if fscod == 0 {
        48000
    } else if fscod == 1 {
        44100
    } else if fscod == 2 {
        32000
    } else {
        0
    }
}

pub open spec fn dac3_text(p: Seq<u8>) -> Seq<char> {
    kv("fscod=", (p[0] / 64) as nat) + kv(" bsid=", (p[0] / 2 % 32) as nat) + kv(
        " bsmod=",
        (p[0] % 2 * 4 + p[1] / 64) as nat,
    ) + kv(" acmod=", (p[1] / 8 % 8) as nat) + kv(" lfeon=", (p[1] / 4 % 2) as nat) + kv(
        " bit_rate_code=",
        (p[1] % 4 * 8 + p[2] / 32) as nat,
    ) + kv(" sample_rate=", ac3_rate((p[0] / 64) as nat))
}

/// dac3: AC-3 bitstream information.
pub struct Dac3Decoder;

impl Dac3Decoder {
    pub fn decode(&self, payload: &[u8], hdr: &BoxHeader, version: Option<u8>, flags: Option<u32>) -> (r:
        Result<BoxValue, DecodeError>)
        ensures
            if payload@.len() < 3 {
                is_bytes(r, payload@)
            } else {
                is_text(r, dac3_text(payload@))
            },
    {
        let p = payload;
        if p.len() < 3 {
            return Ok(BoxValue::Bytes(all_bytes(p)));
        }
        let b0 = p[0] as u64;
        let b1 = p[1] as u64;
        let b2 = p[2] as u64;
        let fscod = b0 / 64;
        let sample_rate: u64 = if fscod == 0 {
            48000
        } else if fscod == 1 {
            44100
        } else if fscod == 2 {
            32000
        } else {
            0
        };
        let mut t = String::new();
        push_kv(&mut t, "fscod=", fscod);
        push_kv(&mut t, " bsid=", b0 / 2 % 32);
        push_kv(&mut t, " bsmod=", b0 % 2 * 4 + b1 / 64);
        push_kv(&mut t, " acmod=", b1 / 8 % 8);
        push_kv(&mut t, " lfeon=", b1 / 4 % 2);
        push_kv(&mut t, " bit_rate_code=", b1 % 4 * 8 + b2 / 32);
        push_kv(&mut t, " sample_rate=", sample_rate);
        proof {
            assert(t@ =~= dac3_text(p@));
        }
        Ok(BoxValue::Text(t))
    }
}

pub open spec fn dec3_text(p: Seq<u8>) -> Seq<char> {
    let word = p[0] * 256 + p[1];
    kv("data_rate=", (word / 8) as nat) + kv("kbps num_independent_substreams=", (word % 8 + 1) as nat)
}

/// dec3: Enhanced AC-3 bitstream information.
pub struct Dec3Decoder;

impl Dec3Decoder {
    pub fn decode(&self, payload: &[u8], hdr: &BoxHeader, version: Option<u8>, flags: Option<u32>) -> (r:
        Result<BoxValue, DecodeError>)
        ensures
            if payload@.len() < 2 {
                is_bytes(r, payload@)
            } else {
                is_text(r, dec3_text(payload@))
            },
    {
        let p = payload;
        if p.len() < 2 {
            return Ok(BoxValue::Bytes(all_bytes(p)));
        }
        let word = p[0] as u64 * 256 + p[1] as u64;
        let mut t = String::new();
        push_kv(&mut t, "data_rate=", word / 8);
        push_kv(&mut t, "kbps num_independent_substreams=", word % 8 + 1);
        proof {
            assert(t@ =~= dec3_text(p@));
        }
        Ok(BoxValue::Text(t))
    }
}

pub open spec fn dfla_text(p: Seq<u8>) -> Seq<char> {
    let bt = p[0] % 128;
    if bt != 0 || p.len() < 38 {
        kv("FLAC block_type=", bt as nat) + kv(" (", (p.len() - 4) as nat) + " bytes)"@
    } else {
        kv("sample_rate=", (p[14] * 4096 + p[15] * 16 + p[16] / 16) as nat) + kv(
            " channels=",
            (p[16] / 2 % 8 + 1) as nat,
        ) + kv(" bits_per_sample=", (p[16] % 2 * 16 + p[17] / 16 + 1) as nat) + kv(
            " total_samples=",
            (p[17] % 16 * 0x1_0000_0000 + at(p, 18, 4)) as nat,
        )
    }
}

/// dfLa: FLAC specific box; the STREAMINFO block's rate, channels, sample
/// size and length.
pub struct DflaDecoder;

impl DflaDecoder {
    pub fn decode(&self, payload: &[u8], hdr: &BoxHeader, version: Option<u8>, flags: Option<u32>) -> (r:
        Result<BoxValue, DecodeError>)
        ensures
            if payload@.len() < 4 {
                is_bytes(r, payload@)
            } else {
                is_text(r, dfla_text(payload@))
            },
    {
        let p = payload;
        let n = p.len();
        if n < 4 {
            return Ok(BoxValue::Bytes(all_bytes(p)));
        }
        let bt = p[0] % 128;
        let mut t = String::new();
        if bt != 0 || n < 38 {
            push_kv(&mut t, "FLAC block_type=", bt as u64);
            push_kv(&mut t, " (", (n - 4) as u64);
            push_str(&mut t, " bytes)");
        } else {
            let s14 = p[14] as u64;
            let s15 = p[15] as u64;
            let s16 = p[16] as u64;
            let s17 = p[17] as u64;
            push_kv(&mut t, "sample_rate=", s14 * 4096 + s15 * 16 + s16 / 16);
            push_kv(&mut t, " channels=", s16 / 2 % 8 + 1);
            push_kv(&mut t, " bits_per_sample=", s16 % 2 * 16 + s17 / 16 + 1);
            push_kv(&mut t, " total_samples=", s17 % 16 * 0x1_0000_0000 + read_at(p, 18, 4));
        }
        proof {
            assert(t@ =~= dfla_text(p@));
        }
        Ok(BoxValue::Text(t))
    }
}

// ---------- colr ----------

/// The four bytes of `nclx`.
pub open spec fn is_nclx(p: Seq<u8>) -> bool {
    p[0] == 0x6Eu8 && p[1] == 0x63u8 && p[2] == 0x6Cu8 && p[3] == 0x78u8
}

/// The four bytes of `nclc` (QuickTime).
pub open spec fn is_nclc(p: Seq<u8>) -> bool {
    p[0] == 0x6Eu8 && p[1] == 0x63u8 && p[2] == 0x6Cu8 && p[3] == 0x63u8
}

/// Whether a colr payload carries CICP code points: `nclx` (with a range
/// flag byte) or QuickTime's `nclc` (without one), complete.
pub open spec fn has_codes(p: Seq<u8>) -> bool {
    (is_nclx(p) && p.len() >= 11) || (is_nclc(p) && p.len() >= 10)
}

/// colr: colour type and, for `nclx` and `nclc`, the CICP code points with
/// their names; the full-range flag exists in `nclx` only.
pub struct ColrDecoder;

impl ColrDecoder {
    pub fn decode(&self, payload: &[u8], hdr: &BoxHeader, version: Option<u8>, flags: Option<u32>) -> (r:
        Result<BoxValue, DecodeError>)
        ensures
            ({
                let p = payload@;
                if p.len() < 4 {
                    is_bytes(r, p)
                } else {
                    r matches Ok(BoxValue::Structured(StructuredData::ColourInformation(d)))
                        && d.colour_type@ == spec_utf8_lossy(p.subrange(0, 4)) && if has_codes(p) {
                        let cp = at(p, 4, 2) as u16;
                        let tc = at(p, 6, 2) as u16;
                        let mc = at(p, 8, 2) as u16;
                        &&& d.primaries == Some(cp)
                        &&& opt_name_is(d.primaries_name, spec_primaries_name(cp))
                        &&& d.transfer == Some(tc)
                        &&& opt_name_is(d.transfer_name, spec_transfer_name(tc))
                        &&& d.matrix == Some(mc)
                        &&& opt_name_is(d.matrix_name, spec_matrix_name(mc))
                        &&& d.full_range == if is_nclx(p) {
                            Some(p[10] / 128 == 1)
                        } else {
                            None
                        }
                    } else {
                        &&& d.primaries is None
                        &&& d.primaries_name is None
                        &&& d.transfer is None
                        &&& d.transfer_name is None
                        &&& d.matrix is None
                        &&& d.matrix_name is None
                        &&& d.full_range is None
                    }
                }
            }),
    {
        let p = payload;
        let n = p.len();
        if n < 4 {
            return Ok(BoxValue::Bytes(all_bytes(p)));
        }
        let ty = copy_range(p, 0, 4);
        let colour_type = utf8_lossy(ty.as_slice());
        let nclx = p[0] == 0x6Eu8 && p[1] == 0x63u8 && p[2] == 0x6Cu8 && p[3] == 0x78u8;
        let nclc = p[0] == 0x6Eu8 && p[1] == 0x63u8 && p[2] == 0x6Cu8 && p[3] == 0x63u8;
        if (nclx && n >= 11) || (nclc && n >= 10) {
            let cp = read_at(p, 4, 2) as u16;
            let tc = read_at(p, 6, 2) as u16;
            let mc = read_at(p, 8, 2) as u16;
            Ok(
                BoxValue::Structured(
                    StructuredData::ColourInformation(
                        ColrData {
                            colour_type,
                            primaries: Some(cp),
                            primaries_name: opt_name(primaries_name(cp)),
                            transfer: Some(tc),
                            transfer_name: opt_name(transfer_name(tc)),
                            matrix: Some(mc),
                            matrix_name: opt_name(matrix_name(mc)),
                            full_range: if nclx {
                                Some(p[10] / 128 == 1)
                            } else {
                                None
                            },
                        },
                    ),
                ),
            )
        } else {
            Ok(
                BoxValue::Structured(
                    StructuredData::ColourInformation(
                        ColrData {
                            colour_type,
                            primaries: None,
                            primaries_name: None,
                            transfer: None,
                            transfer_name: None,
                            matrix: None,
                            matrix_name: None,
                            full_range: None,
                        },
                    ),
                ),
            )
        }
    }
}

} // verus!
