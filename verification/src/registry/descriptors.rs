//! Decoders for boxes that carry MPEG-4 descriptors: `esds` (an
//! ES_Descriptor with its DecoderConfigDescriptor) and `iods` (an
//! InitialObjectDescriptor).

use vstd::prelude::*;
use crate::boxes::BoxHeader;
use crate::util::{push_hex_byte, push_str, spec_hex_byte, utf8_lossy, spec_utf8_lossy};
use super::codec_config::{
    asc_is, parse_audio_specific_config, read_descriptor_length, spec_descriptor_length,
};
use super::data::{BoxValue, DecodeError, EsdsData, IodsData, StructuredData};
use super::decoders::{at, read_at};

verus! {

/// `pos + k`, or the end `n` when that lies past it.
pub open spec fn clamp_add(pos: int, k: int, n: int) -> int {
    if pos + k > n {
        n
    } else {
        pos + k
    }
}

fn advance(pos: usize, k: usize, n: usize) -> (r: usize)
    requires
        pos <= n,
    ensures
        r == clamp_add(pos as int, k as int, n as int),
{
    if n - pos < k {
        n
    } else {
        pos + k
    }
}

/// objectTypeIndication values that carry an MPEG-4 AudioSpecificConfig.
pub open spec fn is_mpeg4_audio(ot: u8) -> bool {
    ot == 0x40 || (0x66 <= ot <= 0x68)
}

pub open spec fn spec_object_type_name(ot: u8) -> &'static str {
    if ot == 0x40 {
        "MPEG-4 Audio"
    } else if 0x66 <= ot <= 0x68 {
        "MPEG-2 AAC"
    } else if ot == 0x69 {
        "MPEG-2 Audio"
    } else if ot == 0x6B {
        "MP3"
    } else if ot == 0x20 {
        "MPEG-4 Visual"
    } else if ot == 0x21 {
        "H.264/AVC"
    } else if 0x60 <= ot <= 0x65 {
        "MPEG-2 Visual"
    } else {
        "unknown"
    }
}

/// Name of an MPEG-4 objectTypeIndication.
pub fn object_type_name(ot: u8) -> (r: &'static str)
    ensures
        r == spec_object_type_name(ot),
{
    if ot == 0x40 {
        "MPEG-4 Audio"
    } else if 0x66 <= ot && ot <= 0x68 {
        "MPEG-2 AAC"
    } else if ot == 0x69 {
        "MPEG-2 Audio"
    } else if ot == 0x6B {
        "MP3"
    } else if ot == 0x20 {
        "MPEG-4 Visual"
    } else if ot == 0x21 {
        "H.264/AVC"
    } else if 0x60 <= ot && ot <= 0x65 {
        "MPEG-2 Visual"
    } else {
        "unknown"
    }
}

/// Position after the ES_Descriptor header fields that precede the
/// DecoderConfigDescriptor, the optional ones included, or the message for
/// a payload that ends or lacks the descriptor first. Positions past the
/// end are clamped to it.
pub open spec fn esds_config_start(p: Seq<u8>) -> Result<int, Seq<char>> {
    let n = p.len() as int;
    if n == 0 || p[0] != 3u8 {
        Err("esds: no ES_Descriptor"@)
    } else {
        match spec_descriptor_length(p, 1, 0, 0) {
            None => Err("esds: truncated"@),
            Some((_, q)) => if q + 3 > n {
                Err("esds: truncated ES_ID"@)
            } else {
                let fl = p[q + 2];
                let q1 = clamp_add(q + 3, if fl & 0x80u8 != 0 { 2 } else { 0 }, n);
                if fl & 0x40u8 != 0 && q1 >= n {
                    Err("esds: truncated URL"@)
                } else {
                    let q2 = if fl & 0x40u8 != 0 {
                        clamp_add(q1 + 1, p[q1] as int, n)
                    } else {
                        q1
                    };
                    Ok(clamp_add(q2, if fl & 0x20u8 != 0 { 2 } else { 0 }, n))
                }
            },
        }
    }
}

/// What an esds payload decodes to: the objectTypeIndication, the maximum
/// and average bitrates, and where the DecoderSpecificInfo of an MPEG-4
/// audio stream lies (clamped to the payload); or the text reported for a
/// payload that ends early or lacks a descriptor.
pub open spec fn esds_spec(p: Seq<u8>) -> Result<(u8, nat, nat, Option<(int, int)>), Seq<char>> {
    let n = p.len() as int;
    match esds_config_start(p) {
        Err(m) => Err(m),
        Ok(q) => if q >= n || p[q] != 4u8 {
            Err("esds: no DecoderConfigDescriptor"@)
        } else {
            match spec_descriptor_length(p, q + 1, 0, 0) {
                None => Err("esds: truncated DecoderConfig"@),
                Some((_, r)) => if r >= n {
                    Err("esds: truncated objectTypeIndication"@)
                } else if r + 13 > n {
                    Err("esds: objectType=0x"@ + spec_hex_byte(p[r], true))
                } else {
                    let ot = p[r];
                    let s = r + 13;
                    let info = if s < n && p[s] == 5u8 && is_mpeg4_audio(ot) {
                        match spec_descriptor_length(p, s + 1, 0, 0) {
                            Some((len, t)) => Some((t, clamp_add(t, len as int, n))),
                            None => None,
                        }
                    } else {
                        None
                    };
                    Ok((ot, at(p, r + 5, 4), at(p, r + 9, 4), info))
                }
            }
        },
    }
}

fn esds_config_start_exec(p: &[u8]) -> (r: Result<usize, String>)
    ensures
        match esds_config_start(p@) {
            Ok(q) => r matches Ok(x) && x == q && x <= p@.len(),
            Err(m) => r matches Err(t) && t@ == m,
        },
{
    let n = p.len();
    if n == 0 || p[0] != 3u8 {
        return Err("esds: no ES_Descriptor".to_owned());
    }
    let mut pos: usize = 1;
    if read_descriptor_length(p, &mut pos).is_none() {
        return Err("esds: truncated".to_owned());
    }
    if pos > n || n - pos < 3 {
        return Err("esds: truncated ES_ID".to_owned());
    }
    let fl = p[pos + 2];
    let q1 = advance(pos + 3, if fl & 0x80u8 != 0 { 2 } else { 0 }, n);
    if fl & 0x40u8 != 0 && q1 >= n {
        return Err("esds: truncated URL".to_owned());
    }
    let q2 = if fl & 0x40u8 != 0 {
        advance(q1 + 1, p[q1] as usize, n)
    } else {
        q1
    };
    Ok(advance(q2, if fl & 0x20u8 != 0 { 2 } else { 0 }, n))
}

/// esds: the ES_Descriptor's DecoderConfigDescriptor (object type and
/// bitrates) and, for MPEG-4 audio, the AudioSpecificConfig in its
/// DecoderSpecificInfo.
pub struct EsdsDecoder;

impl EsdsDecoder {
    pub fn decode(&self, payload: &[u8], hdr: &BoxHeader, version: Option<u8>, flags: Option<u32>) -> (r:
        Result<BoxValue, DecodeError>)
        ensures
            match esds_spec(payload@) {
                Err(m) => r matches Ok(BoxValue::Text(t)) && t@ == m,
                Ok((ot, mx, av, info)) => r matches Ok(
                    BoxValue::Structured(StructuredData::ElementaryStream(d)),
                ) && d.version == (match version {
                    Some(x) => x,
                    None => 0,
                }) && d.flags == (match flags {
                    Some(x) => x,
                    None => 0,
                }) && d.object_type == ot && d.object_type_name@ == spec_object_type_name(ot)@
                    && d.max_bitrate == mx && d.avg_bitrate == av && match info {
                    None => d.audio_config is None,
                    Some((s, e)) => asc_is(d.audio_config, payload@.subrange(s, e)),
                },
            },
    {
        let p = payload;
        let n = p.len();
        let q = match esds_config_start_exec(p) {
            Ok(q) => q,
            Err(m) => return Ok(BoxValue::Text(m)),
        };
        if q >= n || p[q] != 4u8 {
            return Ok(BoxValue::Text("esds: no DecoderConfigDescriptor".to_owned()));
        }
        let mut pos = q + 1;
        if read_descriptor_length(p, &mut pos).is_none() {
            return Ok(BoxValue::Text("esds: truncated DecoderConfig".to_owned()));
        }
        if pos >= n {
            return Ok(BoxValue::Text("esds: truncated objectTypeIndication".to_owned()));
        }
        let ot = p[pos];
        if n - pos < 13 {
            let mut t = "esds: objectType=0x".to_owned();
            push_hex_byte(&mut t, ot, true);
            proof {
                reveal_strlit("esds: objectType=0x");
            }
            return Ok(BoxValue::Text(t));
        }
        let max_bitrate = read_at(p, pos + 5, 4) as u32;
        let avg_bitrate = read_at(p, pos + 9, 4) as u32;
        let s = pos + 13;
        let mut audio_config = None;
        if s < n && p[s] == 5u8 && (ot == 0x40 || (0x66 <= ot && ot <= 0x68)) {
            let mut t = s + 1;
            match read_descriptor_length(p, &mut t) {
                Some(len) => {
                    let end = advance(t, len as usize, n);
                    let sub = crate::util::copy_range(p, t, end);
                    audio_config = parse_audio_specific_config(sub.as_slice());
                },
                None => {},
            }
        }
        Ok(
            BoxValue::Structured(
                StructuredData::ElementaryStream(
                    EsdsData {
                        version: match version {
                            Some(x) => x,
                            None => 0,
                        },
                        flags: match flags {
                            Some(x) => x,
                            None => 0,
                        },
                        object_type: ot,
                        object_type_name: object_type_name(ot).to_owned(),
                        max_bitrate,
                        avg_bitrate,
                        audio_config,
                    },
                ),
            ),
        )
    }
}

/// Position after an iods payload's descriptor tag and length; the end of
/// the payload when the length runs off it.
pub open spec fn iods_pos(p: Seq<u8>) -> int {
    match spec_descriptor_length(p, 1, 0, 0) {
        Some((_, q)) => q,
        None => p.len() as int,
    }
}

/// iods: the InitialObjectDescriptor's ID, URL or profile levels.
pub struct IodsDecoder;

impl IodsDecoder {
    pub fn decode(&self, payload: &[u8], hdr: &BoxHeader, version: Option<u8>, flags: Option<u32>) -> (r:
        Result<BoxValue, DecodeError>)
        ensures
            ({
                let p = payload@;
                let n = p.len() as int;
                let q = iods_pos(p);
                if n == 0 || q + 2 > n {
                    r matches Ok(BoxValue::Bytes(b)) && b@ == p
                } else {
                    let b0 = p[q];
                    let b1 = p[q + 1];
                    let is_iod = p[0] == 2u8 || p[0] == 0x10u8;
                    let url_flag = (b1 >> 5u8) & 1u8 != 0;
                    let levels = !url_flag && is_iod && q + 7 <= n;
                    r matches Ok(BoxValue::Structured(StructuredData::ObjectDescriptor(d)))
                        && d.version == (match version {
                        Some(x) => x,
                        None => 0,
                    }) && d.flags == (match flags {
                        Some(x) => x,
                        None => 0,
                    }) && d.od_id == b0 * 4 + b1 / 64 && d.include_inline_profiles == (is_iod && (b1
                        >> 4u8) & 1u8 != 0) && (if url_flag && q + 2 < n {
                        d.url matches Some(u) && u@ == spec_utf8_lossy(
                            p.subrange(q + 3, clamp_add(q + 3, p[q + 2] as int, n)),
                        )
                    } else {
                        d.url is None
                    }) && d.od_profile_level == (if levels { p[q + 2] } else { 0xFFu8 })
                        && d.scene_profile_level == (if levels { p[q + 3] } else { 0xFFu8 })
                        && d.audio_profile_level == (if levels { p[q + 4] } else { 0xFFu8 })
                        && d.visual_profile_level == (if levels { p[q + 5] } else { 0xFFu8 })
                        && d.graphics_profile_level == (if levels { p[q + 6] } else { 0xFFu8 })
                }
            }),
    {
        let p = payload;
        let n = p.len();
        if n == 0 {
            return Ok(BoxValue::Bytes(crate::util::copy_range(p, 0, 0)));
        }
        let tag = p[0];
        let mut pos: usize = 1;
        let _len = read_descriptor_length(p, &mut pos);
        if pos > n || n - pos < 2 {
            let all = crate::util::copy_range(p, 0, n);
            proof {
                assert(all@ =~= p@);
            }
            return Ok(BoxValue::Bytes(all));
        }
        let is_iod = tag == 2u8 || tag == 0x10u8;
        let b0 = p[pos];
        let b1 = p[pos + 1];
        pos = pos + 2;
        let od_id: u16 = (b0 as u16) * 4 + (b1 / 64) as u16;
        let url_flag = (b1 >> 5u8) & 1u8 != 0;
        let include_inline_profiles = is_iod && (b1 >> 4u8) & 1u8 != 0;
        let mut url: Option<String> = None;
        let mut od_p: u8 = 0xFF;
        let mut scene_p: u8 = 0xFF;
        let mut audio_p: u8 = 0xFF;
        let mut visual_p: u8 = 0xFF;
        let mut graphics_p: u8 = 0xFF;
        if url_flag {
            if pos < n {
                let url_len = p[pos] as usize;
                let end = advance(pos + 1, url_len, n);
                let bytes = crate::util::copy_range(p, pos + 1, end);
                url = Some(utf8_lossy(bytes.as_slice()));
            }
        } else if is_iod && n - pos >= 5 {
            od_p = p[pos];
            scene_p = p[pos + 1];
            audio_p = p[pos + 2];
            visual_p = p[pos + 3];
            graphics_p = p[pos + 4];
        }
        Ok(
            BoxValue::Structured(
                StructuredData::ObjectDescriptor(
                    IodsData {
                        version: match version {
                            Some(x) => x,
                            None => 0,
                        },
                        flags: match flags {
                            Some(x) => x,
                            None => 0,
                        },
                        od_id,
                        include_inline_profiles,
                        url,
                        od_profile_level: od_p,
                        scene_profile_level: scene_p,
                        audio_profile_level: audio_p,
                        visual_profile_level: visual_p,
                        graphics_profile_level: graphics_p,
                    },
                ),
            ),
        )
    }
}

} // verus!
