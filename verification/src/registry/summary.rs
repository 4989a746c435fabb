//! One-line text summaries of structured box data, the `decoded` text of
//! the box tree.

use vstd::prelude::*;
use crate::drm::{opt_view, strings_view};
use crate::util::{
    debug_str, digit_char, push_char, push_decimal, push_hex_byte, push_signed, push_str,
    spec_debug_str, spec_decimal, spec_hex_byte, spec_signed_decimal,
};
use super::cicp::spec_labeled;
use crate::samples::{typ4, typ_is};
use super::codecs::{kv, push_kv};
use super::data::{
    ColrData, EmsgData, EsdsData, IodsData, MdcvData, PsshData, SidxData, StructuredData, SttsData,
    StsdData, TencData, TfhdData, TrunData,
};

verus! {

// ---------- pieces ----------

/// `v` as eight uppercase hex digits (`{:08X}` of a `u32`).
pub open spec fn hex32(v: u32) -> Seq<char> {
    spec_hex_byte((v / 0x100_0000) as u8, true) + spec_hex_byte((v / 0x1_0000 % 256) as u8, true)
        + spec_hex_byte((v / 256 % 256) as u8, true) + spec_hex_byte((v % 256) as u8, true)
}

fn push_hex32(t: &mut String, v: u32)
    ensures
        final(t)@ == old(t)@ + hex32(v),
{
    push_hex_byte(t, (v / 0x100_0000) as u8, true);
    push_hex_byte(t, (v / 0x1_0000 % 256) as u8, true);
    push_hex_byte(t, (v / 256 % 256) as u8, true);
    push_hex_byte(t, (v % 256) as u8, true);
    proof {
        assert(final(t)@ =~= old(t)@ + hex32(v));
    }
}

/// Four decimal digits, zero-padded.
pub open spec fn pad4(n: nat) -> Seq<char> {
    seq![digit_char(n / 1000 % 10), digit_char(n / 100 % 10), digit_char(n / 10 % 10), digit_char(n % 10)]
}

/// A value stored in units of 0.0001, with four decimals (`{:.4}` of
/// `raw / 10000.0`).
pub open spec fn fixed4(raw: nat) -> Seq<char> {
    spec_decimal(raw / 10000) + seq!['.'] + pad4(raw % 10000)
}

fn push_fixed4(t: &mut String, raw: u32)
    ensures
        final(t)@ == old(t)@ + fixed4(raw as nat),
{
    push_decimal(t, (raw / 10000) as u64);
    push_char(t, '.');
    let f = raw % 10000;
    push_char(t, ((f / 1000 % 10) as u8 + 48) as char);
    push_char(t, ((f / 100 % 10) as u8 + 48) as char);
    push_char(t, ((f / 10 % 10) as u8 + 48) as char);
    push_char(t, ((f % 10) as u8 + 48) as char);
    proof {
        assert(final(t)@ =~= old(t)@ + fixed4(raw as nat));
    }
}

/// `0` or `1` for a flag.
pub open spec fn bit(b: bool) -> nat {
    if b {
        1
    } else {
        0
    }
}

/// `true` or `false`.
pub open spec fn bool_word(b: bool) -> Seq<char> {
    if b {
        "true"@
    } else {
        "false"@
    }
}

fn push_bool(t: &mut String, b: bool)
    ensures
        final(t)@ == old(t)@ + bool_word(b),
{
    if b {
        push_str(t, "true");
    } else {
        push_str(t, "false");
    }
}

// ---------- per kind ----------

pub open spec fn edit_list_text(version: u8, entry_count: u32, first: Option<super::data::ElstEntry>) -> Seq<char> {
    match first {
        Some(e) => kv("version=", version as nat) + kv(" entries=", entry_count as nat) + kv(
            " first: duration=",
            e.segment_duration as nat,
        ) + " media_time="@ + spec_signed_decimal(e.media_time as int) + " rate="@
            + spec_signed_decimal(e.media_rate_integer as int) + "/"@ + spec_signed_decimal(
            e.media_rate_fraction as int,
        ),
        None => kv("version=", version as nat) + " entries=0"@,
    }
}

pub open spec fn stsd_text(d: StsdData) -> Seq<char> {
    if d.entries@.len() == 0 {
        "entries=0"@
    } else {
        let e = d.entries@[0];
        "codec="@ + e.codec@ + (if e.width is Some && e.height is Some {
            " "@ + spec_decimal(e.width.unwrap() as nat) + "x"@ + spec_decimal(e.height.unwrap() as nat)
        } else {
            Seq::empty()
        }) + (match e.channel_count {
            Some(c) => kv(" channels=", c as nat),
            None => Seq::empty(),
        }) + (match e.sample_rate {
            Some(r) => kv(" sample_rate=", r as nat),
            None => Seq::empty(),
        }) + (match e.sample_size {
            Some(b) => kv(" bits=", b as nat),
            None => Seq::empty(),
        }) + kv(" entries=", d.entry_count as nat)
    }
}

/// The first `k` time-to-sample entries as `count×delta`, joined by ", ".
pub open spec fn stts_list(d: SttsData, k: int) -> Seq<char>
    decreases k,
{
    if k <= 0 {
        Seq::empty()
    } else if k == 1 {
        spec_decimal(d.entries@[0].sample_count as nat) + "×"@ + spec_decimal(
            d.entries@[0].sample_delta as nat,
        )
    } else {
        stts_list(d, k - 1) + ", "@ + spec_decimal(d.entries@[k - 1].sample_count as nat) + "×"@
            + spec_decimal(d.entries@[k - 1].sample_delta as nat)
    }
}

pub open spec fn stts_text(d: SttsData) -> Seq<char> {
    let k = if d.entries@.len() < 4 {
        d.entries@.len() as int
    } else {
        4
    };
    kv("entries=", d.entry_count as nat) + " ["@ + stts_list(d, k) + (if d.entry_count > 4 {
        ", …"@
    } else {
        Seq::empty()
    }) + "]"@
}

pub open spec fn trun_text(d: TrunData) -> Seq<char> {
    kv("samples=", d.sample_count as nat) + (match d.data_offset {
        Some(o) => " data_offset="@ + spec_signed_decimal(o as int),
        None => Seq::empty(),
    }) + (if (d.flags / 0x100 % 2 == 1 || d.flags / 0x200 % 2 == 1) && d.samples@.len() > 0 {
        (match d.samples@[0].duration {
            Some(x) => kv(" first_dur=", x as nat),
            None => Seq::empty(),
        }) + (match d.samples@[0].size {
            Some(x) => kv(" first_size=", x as nat),
            None => Seq::empty(),
        })
    } else {
        Seq::empty()
    })
}

pub open spec fn tfhd_text(d: TfhdData) -> Seq<char> {
    kv("track_id=", d.track_id as nat) + (match d.base_data_offset {
        Some(v) => kv(" base_data_offset=", v as nat),
        None => Seq::empty(),
    }) + (match d.sample_description_index {
        Some(v) => kv(" sample_description_index=", v as nat),
        None => Seq::empty(),
    }) + (match d.default_sample_duration {
        Some(v) => kv(" default_duration=", v as nat),
        None => Seq::empty(),
    }) + (match d.default_sample_size {
        Some(v) => kv(" default_size=", v as nat),
        None => Seq::empty(),
    }) + (match d.default_sample_flags {
        Some(v) => " default_flags=0x"@ + hex32(v),
        None => Seq::empty(),
    }) + (if d.default_base_is_moof {
        " default_base_is_moof"@
    } else {
        Seq::empty()
    })
}

pub open spec fn pssh_head(d: PsshData) -> Seq<char> {
    match d.system_name {
        Some(n) => "system="@ + n@ + " ("@ + d.system_id@ + ")"@,
        None => "system="@ + d.system_id@,
    }
}

pub open spec fn pssh_kids(kids: Seq<Seq<char>>) -> Seq<char> {
    if kids.len() > 0 {
        kv(" kids=", kids.len()) + " "@ + kids[0] + (if kids.len() > 1 {
            " "@ + kids[1]
        } else {
            Seq::empty()
        }) + (if kids.len() > 2 {
            "…"@
        } else {
            Seq::empty()
        })
    } else {
        Seq::empty()
    }
}

pub open spec fn pssh_widevine(w: Option<Box<crate::drm::WidevinePsshData>>, nk: nat) -> Seq<char> {
    match w {
        Some(w) => (match w.provider {
            Some(p) => " provider="@ + p@,
            None => Seq::empty(),
        }) + (match w.protection_scheme {
            Some(s) => " scheme="@ + s@,
            None => Seq::empty(),
        }) + (if w.key_ids@.len() > 0 && nk == 0 {
            kv(" wv_kids=", w.key_ids@.len())
        } else {
            Seq::empty()
        }),
        None => Seq::empty(),
    }
}

pub open spec fn pssh_playready(x: Option<Box<crate::drm::PlayReadyPsshData>>) -> Seq<char> {
    match x {
        Some(x) => (match x.wrm_header_version {
            Some(v) => " wrm_version="@ + v@,
            None => Seq::empty(),
        }) + (match x.la_url {
            Some(u) => " la_url=\""@ + u@ + "\""@,
            None => Seq::empty(),
        }),
        None => Seq::empty(),
    }
}

pub open spec fn pssh_text(d: PsshData) -> Seq<char> {
    pssh_head(d) + pssh_kids(strings_view(d.key_ids@)) + kv(" data_size=", d.data_size as nat)
        + pssh_widevine(d.widevine, d.key_ids@.len()) + pssh_playready(d.playready)
}

pub open spec fn tenc_text(d: TencData) -> Seq<char> {
    "protected="@ + bool_word(d.default_is_protected) + kv(
        " iv_size=",
        d.default_per_sample_iv_size as nat,
    ) + " kid="@ + d.default_kid@ + (match d.default_constant_iv {
        Some(iv) => " constant_iv="@ + iv@,
        None => Seq::empty(),
    }) + (if d.default_crypt_byte_block != 0 || d.default_skip_byte_block != 0 {
        kv(" pattern=", d.default_crypt_byte_block as nat) + kv(":", d.default_skip_byte_block as nat)
    } else {
        Seq::empty()
    })
}

pub open spec fn esds_text(d: EsdsData) -> Seq<char> {
    "objectType=0x"@ + spec_hex_byte(d.object_type, true) + " ("@ + d.object_type_name@ + ")"@
        + (match d.audio_config {
        Some(a) => " profile="@ + a.profile@ + kv(" sample_rate=", a.sample_rate as nat) + (match a.extension_sample_rate {
            Some(x) => kv(" output_rate=", x as nat),
            None => Seq::empty(),
        }) + kv(" channels=", a.channel_configuration as nat),
        None => Seq::empty(),
    }) + kv(" max_bitrate=", d.max_bitrate as nat) + kv(" avg_bitrate=", d.avg_bitrate as nat)
}

pub open spec fn emsg_text(d: EmsgData) -> Seq<char> {
    let time = match d.presentation_time {
        Some(t) => kv("presentation_time=", t as nat),
        None => match d.presentation_time_delta {
            Some(dt) => kv("presentation_time_delta=", dt as nat),
            None => Seq::empty(),
        },
    };
    "scheme="@ + spec_debug_str(d.scheme_id_uri@) + " value="@ + spec_debug_str(d.value@) + kv(
        " timescale=",
        d.timescale as nat,
    ) + " "@ + time + kv(" duration=", d.event_duration as nat) + kv(" id=", d.id as nat) + kv(
        " message_size=",
        d.message_size as nat,
    )
}

pub open spec fn iods_text(d: IodsData) -> Seq<char> {
    kv("od_id=", d.od_id as nat) + match d.url {
        Some(u) => " url="@ + spec_debug_str(u@),
        None => " od_profile=0x"@ + spec_hex_byte(d.od_profile_level, true) + " scene=0x"@
            + spec_hex_byte(d.scene_profile_level, true) + " audio=0x"@ + spec_hex_byte(
            d.audio_profile_level,
            true,
        ) + " visual=0x"@ + spec_hex_byte(d.visual_profile_level, true) + " graphics=0x"@
            + spec_hex_byte(d.graphics_profile_level, true),
    }
}

/// A code point with its name, or `?` when absent.
pub open spec fn code_label(v: Option<u16>, n: Option<String>) -> Seq<char> {
    match v {
        Some(x) => spec_labeled(x, opt_view(n)),
        None => "?"@,
    }
}

/// `nclx` always shows its three code points (`?` when absent) and its
/// range flag (0 when absent); `nclc` shows its code points when they were
/// read; other types show only the type.
pub open spec fn colr_text(d: ColrData) -> Seq<char> {
    if d.colour_type@ == typ4('n', 'c', 'l', 'x') {
        "type="@ + d.colour_type@ + " primaries="@ + code_label(d.primaries, d.primaries_name)
            + " transfer="@ + code_label(d.transfer, d.transfer_name) + " matrix="@ + code_label(
            d.matrix,
            d.matrix_name,
        ) + kv(
            " full_range=",
            match d.full_range {
                Some(f) => bit(f),
                None => 0,
            },
        )
    } else if d.primaries is Some {
        "type="@ + d.colour_type@ + " primaries="@ + code_label(d.primaries, d.primaries_name)
            + " transfer="@ + code_label(d.transfer, d.transfer_name) + " matrix="@ + code_label(
            d.matrix,
            d.matrix_name,
        ) + match d.full_range {
            Some(f) => kv(" full_range=", bit(f)),
            None => Seq::empty(),
        }
    } else {
        "type="@ + d.colour_type@
    }
}

pub open spec fn mdcv_text(d: MdcvData) -> Seq<char> {
    kv("R(", d.red_x as nat) + kv(",", d.red_y as nat) + kv(") G(", d.green_x as nat) + kv(
        ",",
        d.green_y as nat,
    ) + kv(") B(", d.blue_x as nat) + kv(",", d.blue_y as nat) + kv(") W(", d.white_x as nat) + kv(
        ",",
        d.white_y as nat,
    ) + ") max_luminance="@ + fixed4(d.max_display_mastering_luminance as nat) + " min_luminance="@
        + fixed4(d.min_display_mastering_luminance as nat) + " cd/m2"@
}

/// The one-line summary of a structured value; none for a track header,
/// whose dimensions are printed as floating-point numbers.
pub open spec fn spec_summary(d: StructuredData) -> Option<Seq<char>> {
    match d {
        StructuredData::MovieHeader(m) => Some(
            kv("timescale=", m.timescale as nat) + kv(" duration=", m.duration as nat),
        ),
        StructuredData::TrackHeader(_) => None,
        StructuredData::MediaHeader(m) => Some(
            kv("timescale=", m.timescale as nat) + kv(" duration=", m.duration as nat) + " language="@
                + m.language@,
        ),
        StructuredData::HandlerReference(h) => Some(
            "handler_type="@ + h.handler_type@ + " name="@ + spec_debug_str(h.name@),
        ),
        StructuredData::EditList(e) => Some(
            edit_list_text(
                e.version,
                e.entry_count,
                if e.entries@.len() > 0 {
                    Some(e.entries@[0])
                } else {
                    None
                },
            ),
        ),
        StructuredData::SegmentIndex(s) => Some(
            kv("timescale=", s.timescale as nat) + kv(
                " earliest_presentation_time=",
                s.earliest_presentation_time as nat,
            ) + kv(" first_offset=", s.first_offset as nat) + kv(" references=", s.references@.len()),
        ),
        StructuredData::SampleDescription(s) => Some(stsd_text(s)),
        StructuredData::DecodingTimeToSample(s) => Some(stts_text(s)),
        StructuredData::CompositionTimeToSample(c) => Some(kv("entries=", c.entry_count as nat)),
        StructuredData::SampleToChunk(c) => Some(kv("entries=", c.entry_count as nat)),
        StructuredData::SampleSize(s) => Some(
            if s.sample_size > 0 {
                kv("fixed_size=", s.sample_size as nat) + kv(" count=", s.sample_count as nat)
            } else {
                kv("variable count=", s.sample_count as nat)
            },
        ),
        StructuredData::SyncSample(s) => Some(kv("keyframes=", s.entry_count as nat)),
        StructuredData::ChunkOffset(c) => Some(kv("chunks=", c.entry_count as nat)),
        StructuredData::ChunkOffset64(c) => Some(kv("chunks=", c.entry_count as nat)),
        StructuredData::TrackFragmentRun(t) => Some(trun_text(t)),
        StructuredData::TrackFragmentHeader(t) => Some(tfhd_text(t)),
        StructuredData::TrackFragmentDecodeTime(t) => Some(
            kv("base_media_decode_time=", t.base_media_decode_time as nat),
        ),
        StructuredData::TrackExtends(t) => Some(
            kv("track_id=", t.track_id as nat) + kv(
                " default_sample_description_index=",
                t.default_sample_description_index as nat,
            ) + kv(" default_sample_duration=", t.default_sample_duration as nat) + kv(
                " default_sample_size=",
                t.default_sample_size as nat,
            ) + " default_sample_flags=0x"@ + hex32(t.default_sample_flags),
        ),
        StructuredData::ProtectionSystemHeader(p) => Some(pssh_text(p)),
        StructuredData::TrackEncryption(t) => Some(tenc_text(t)),
        StructuredData::ElementaryStream(e) => Some(esds_text(e)),
        StructuredData::EventMessage(e) => Some(emsg_text(e)),
        StructuredData::ObjectDescriptor(o) => Some(iods_text(o)),
        StructuredData::ColourInformation(c) => Some(colr_text(c)),
        StructuredData::DolbyVisionConfig(v) => Some(
            kv("version=", v.dv_version_major as nat) + kv(".", v.dv_version_minor as nat) + kv(
                " profile=",
                v.dv_profile as nat,
            ) + kv(" level=", v.dv_level as nat) + kv(" rpu_present=", bit(v.rpu_present)) + kv(
                " el_present=",
                bit(v.el_present),
            ) + kv(" bl_present=", bit(v.bl_present)) + kv(
                " bl_compatibility=",
                v.bl_signal_compatibility_id as nat,
            ) + " ("@ + v.bl_signal_compatibility@ + ")"@,
        ),
        StructuredData::MasteringDisplayColourVolume(m) => Some(mdcv_text(m)),
        StructuredData::ContentLightLevel(c) => Some(
            kv("max_cll=", c.max_content_light_level as nat) + kv(
                " max_fall=",
                c.max_pic_average_light_level as nat,
            ),
        ),
    }
}

// ---------- rendering ----------

fn push_opt_kv32(t: &mut String, key: &str, v: Option<u32>)
    ensures
        final(t)@ == old(t)@ + match v {
            Some(x) => kv(key, x as nat),
            None => Seq::empty(),
        },
{
    match v {
        Some(x) => push_kv(t, key, x as u64),
        None => {
            assert(final(t)@ =~= old(t)@ + Seq::<char>::empty());
        },
    }
}

fn edit_list_summary(d: &super::data::ElstData) -> (r: String)
    ensures
        r@ == edit_list_text(
            d.version,
            d.entry_count,
            if d.entries@.len() > 0 {
                Some(d.entries@[0])
            } else {
                None
            },
        ),
{
    let mut t = String::new();
    push_kv(&mut t, "version=", d.version as u64);
    if d.entries.len() > 0 {
        let e = d.entries[0];
        push_kv(&mut t, " entries=", d.entry_count as u64);
        push_kv(&mut t, " first: duration=", e.segment_duration);
        push_str(&mut t, " media_time=");
        push_signed(&mut t, e.media_time);
        push_str(&mut t, " rate=");
        push_signed(&mut t, e.media_rate_integer as i64);
        push_str(&mut t, "/");
        push_signed(&mut t, e.media_rate_fraction as i64);
    } else {
        push_str(&mut t, " entries=0");
    }
    proof {
        assert(t@ =~= edit_list_text(
            d.version,
            d.entry_count,
            if d.entries@.len() > 0 {
                Some(d.entries@[0])
            } else {
                None
            },
        ));
    }
    t
}

fn stsd_summary(d: &StsdData) -> (r: String)
    ensures
        r@ == stsd_text(*d),
{
    let mut t = String::new();
    if d.entries.len() == 0 {
        push_str(&mut t, "entries=0");
        proof {
            assert(t@ =~= stsd_text(*d));
        }
        return t;
    }
    let e = &d.entries[0];
    push_str(&mut t, "codec=");
    push_str(&mut t, e.codec.as_str());
    let ghost a = t@;
    match (e.width, e.height) {
        (Some(w), Some(h)) => {
            push_str(&mut t, " ");
            push_decimal(&mut t, w as u64);
            push_str(&mut t, "x");
            push_decimal(&mut t, h as u64);
        },
        _ => {},
    }
    let ghost b = t@;
    push_opt_kv32(&mut t, " channels=", match e.channel_count {
        Some(c) => Some(c as u32),
        None => None,
    });
    push_opt_kv32(&mut t, " sample_rate=", e.sample_rate);
    push_opt_kv32(&mut t, " bits=", match e.sample_size {
        Some(c) => Some(c as u32),
        None => None,
    });
    push_kv(&mut t, " entries=", d.entry_count as u64);
    proof {
        assert(t@ =~= stsd_text(*d));
    }
    t
}

fn stts_summary(d: &SttsData) -> (r: String)
    ensures
        r@ == stts_text(*d),
{
    let mut t = String::new();
    push_kv(&mut t, "entries=", d.entry_count as u64);
    push_str(&mut t, " [");
    let ghost head = t@;
    let k: usize = if d.entries.len() < 4 {
        d.entries.len()
    } else {
        4
    };
    let mut i: usize = 0;
    while i < k
        invariant
            i <= k <= d.entries@.len(),
            t@ == head + stts_list(*d, i as int),
        decreases k - i,
    {
        if i > 0 {
            push_str(&mut t, ", ");
        }
        let e = d.entries[i];
        push_decimal(&mut t, e.sample_count as u64);
        push_str(&mut t, "×");
        push_decimal(&mut t, e.sample_delta as u64);
        proof {
            if i == 0 {
                assert(stts_list(*d, 0) =~= Seq::<char>::empty());
            }
            assert(t@ =~= head + stts_list(*d, i + 1));
        }
        i = i + 1;
    }
    if d.entry_count > 4 {
        push_str(&mut t, ", …");
    }
    push_str(&mut t, "]");
    proof {
        assert(t@ =~= stts_text(*d));
    }
    t
}

fn trun_summary(d: &TrunData) -> (r: String)
    ensures
        r@ == trun_text(*d),
{
    let mut t = String::new();
    push_kv(&mut t, "samples=", d.sample_count as u64);
    match d.data_offset {
        Some(o) => {
            push_str(&mut t, " data_offset=");
            push_signed(&mut t, o as i64);
        },
        None => {},
    }
    let ghost a = t@;
    if (d.flags / 0x100 % 2 == 1 || d.flags / 0x200 % 2 == 1) && d.samples.len() > 0 {
        let f = d.samples[0];
        push_opt_kv32(&mut t, " first_dur=", f.duration);
        push_opt_kv32(&mut t, " first_size=", f.size);
    }
    proof {
        assert(t@ =~= trun_text(*d));
    }
    t
}

fn tfhd_summary(d: &TfhdData) -> (r: String)
    ensures
        r@ == tfhd_text(*d),
{
    let mut t = String::new();
    push_kv(&mut t, "track_id=", d.track_id as u64);
    let ghost a = t@;
    match d.base_data_offset {
        Some(v) => push_kv(&mut t, " base_data_offset=", v),
        None => {},
    }
    let ghost b = t@;
    push_opt_kv32(&mut t, " sample_description_index=", d.sample_description_index);
    push_opt_kv32(&mut t, " default_duration=", d.default_sample_duration);
    push_opt_kv32(&mut t, " default_size=", d.default_sample_size);
    let ghost c = t@;
    match d.default_sample_flags {
        Some(v) => {
            push_str(&mut t, " default_flags=0x");
            push_hex32(&mut t, v);
        },
        None => {},
    }
    let ghost e = t@;
    if d.default_base_is_moof {
        push_str(&mut t, " default_base_is_moof");
    }
    proof {
        assert(t@ =~= tfhd_text(*d));
    }
    t
}

fn push_pssh_kids(t: &mut String, kids: &Vec<String>)
    ensures
        final(t)@ == old(t)@ + pssh_kids(strings_view(kids@)),
{
    let nk = kids.len();
    let ghost kv_ = strings_view(kids@);
    if nk > 0 {
        push_kv(t, " kids=", nk as u64);
        push_str(t, " ");
        push_str(t, kids[0].as_str());
        let ghost a = t@;
        if nk > 1 {
            push_str(t, " ");
            push_str(t, kids[1].as_str());
        }
        let ghost b = t@;
        if nk > 2 {
            push_str(t, "…");
        }
        proof {
            assert(kv_[0] == kids@[0]@);
            if nk > 1 {
                assert(kv_[1] == kids@[1]@);
            }
            assert(final(t)@ =~= old(t)@ + pssh_kids(kv_));
        }
    } else {
        proof {
            assert(final(t)@ =~= old(t)@ + pssh_kids(kv_));
        }
    }
}

fn push_pssh_widevine(t: &mut String, w: &Option<Box<crate::drm::WidevinePsshData>>, nk: usize)
    ensures
        final(t)@ == old(t)@ + pssh_widevine(*w, nk as nat),
{
    match w {
        Some(w) => {
            match &w.provider {
                Some(p) => {
                    push_str(t, " provider=");
                    push_str(t, p.as_str());
                },
                None => {},
            }
            let ghost a = t@;
            match &w.protection_scheme {
                Some(x) => {
                    push_str(t, " scheme=");
                    push_str(t, x.as_str());
                },
                None => {},
            }
            let ghost b = t@;
            if w.key_ids.len() > 0 && nk == 0 {
                push_kv(t, " wv_kids=", w.key_ids.len() as u64);
            }
        },
        None => {},
    }
    proof {
        assert(final(t)@ =~= old(t)@ + pssh_widevine(*w, nk as nat));
    }
}

fn push_pssh_playready(t: &mut String, x: &Option<Box<crate::drm::PlayReadyPsshData>>)
    ensures
        final(t)@ == old(t)@ + pssh_playready(*x),
{
    match x {
        Some(x) => {
            match &x.wrm_header_version {
                Some(v) => {
                    push_str(t, " wrm_version=");
                    push_str(t, v.as_str());
                },
                None => {},
            }
            let ghost a = t@;
            match &x.la_url {
                Some(u) => {
                    push_str(t, " la_url=\"");
                    push_str(t, u.as_str());
                    push_str(t, "\"");
                },
                None => {},
            }
        },
        None => {},
    }
    proof {
        assert(final(t)@ =~= old(t)@ + pssh_playready(*x));
    }
}

fn pssh_summary(d: &PsshData) -> (r: String)
    ensures
        r@ == pssh_text(*d),
{
    let mut t = String::new();
    push_str(&mut t, "system=");
    match &d.system_name {
        Some(n) => {
            push_str(&mut t, n.as_str());
            push_str(&mut t, " (");
            push_str(&mut t, d.system_id.as_str());
            push_str(&mut t, ")");
        },
        None => {
            push_str(&mut t, d.system_id.as_str());
        },
    }
    proof {
        assert(t@ =~= pssh_head(*d));
    }
    push_pssh_kids(&mut t, &d.key_ids);
    push_kv(&mut t, " data_size=", d.data_size as u64);
    push_pssh_widevine(&mut t, &d.widevine, d.key_ids.len());
    push_pssh_playready(&mut t, &d.playready);
    proof {
        assert(t@ =~= pssh_text(*d));
    }
    t
}

fn tenc_summary(d: &TencData) -> (r: String)
    ensures
        r@ == tenc_text(*d),
{
    let mut t = String::new();
    push_str(&mut t, "protected=");
    push_bool(&mut t, d.default_is_protected);
    push_kv(&mut t, " iv_size=", d.default_per_sample_iv_size as u64);
    push_str(&mut t, " kid=");
    push_str(&mut t, d.default_kid.as_str());
    let ghost a = t@;
    match &d.default_constant_iv {
        Some(iv) => {
            push_str(&mut t, " constant_iv=");
            push_str(&mut t, iv.as_str());
        },
        None => {},
    }
    let ghost b = t@;
    if d.default_crypt_byte_block != 0 || d.default_skip_byte_block != 0 {
        push_kv(&mut t, " pattern=", d.default_crypt_byte_block as u64);
        push_kv(&mut t, ":", d.default_skip_byte_block as u64);
    }
    proof {
        assert(t@ =~= tenc_text(*d));
    }
    t
}

fn esds_summary(d: &EsdsData) -> (r: String)
    ensures
        r@ == esds_text(*d),
{
    let mut t = String::new();
    push_str(&mut t, "objectType=0x");
    push_hex_byte(&mut t, d.object_type, true);
    push_str(&mut t, " (");
    push_str(&mut t, d.object_type_name.as_str());
    push_str(&mut t, ")");
    let ghost a = t@;
    match &d.audio_config {
        Some(c) => {
            push_str(&mut t, " profile=");
            push_str(&mut t, c.profile.as_str());
            push_kv(&mut t, " sample_rate=", c.sample_rate as u64);
            push_opt_kv32(&mut t, " output_rate=", c.extension_sample_rate);
            push_kv(&mut t, " channels=", c.channel_configuration as u64);
        },
        None => {},
    }
    let ghost b = t@;
    push_kv(&mut t, " max_bitrate=", d.max_bitrate as u64);
    push_kv(&mut t, " avg_bitrate=", d.avg_bitrate as u64);
    proof {
        assert(t@ =~= esds_text(*d));
    }
    t
}

fn emsg_summary(d: &EmsgData) -> (r: String)
    ensures
        r@ == emsg_text(*d),
{
    let mut t = String::new();
    push_str(&mut t, "scheme=");
    let s = debug_str(d.scheme_id_uri.as_str());
    push_str(&mut t, s.as_str());
    push_str(&mut t, " value=");
    let v = debug_str(d.value.as_str());
    push_str(&mut t, v.as_str());
    push_kv(&mut t, " timescale=", d.timescale as u64);
    push_str(&mut t, " ");
    let ghost a = t@;
    match d.presentation_time {
        Some(x) => push_kv(&mut t, "presentation_time=", x),
        None => match d.presentation_time_delta {
            Some(x) => push_kv(&mut t, "presentation_time_delta=", x as u64),
            None => {},
        },
    }
    let ghost b = t@;
    push_kv(&mut t, " duration=", d.event_duration as u64);
    push_kv(&mut t, " id=", d.id as u64);
    push_kv(&mut t, " message_size=", d.message_size);
    proof {
        assert(t@ =~= emsg_text(*d));
    }
    t
}

fn iods_summary(d: &IodsData) -> (r: String)
    ensures
        r@ == iods_text(*d),
{
    let mut t = String::new();
    push_kv(&mut t, "od_id=", d.od_id as u64);
    match &d.url {
        Some(u) => {
            push_str(&mut t, " url=");
            let q = debug_str(u.as_str());
            push_str(&mut t, q.as_str());
        },
        None => {
            push_str(&mut t, " od_profile=0x");
            push_hex_byte(&mut t, d.od_profile_level, true);
            push_str(&mut t, " scene=0x");
            push_hex_byte(&mut t, d.scene_profile_level, true);
            push_str(&mut t, " audio=0x");
            push_hex_byte(&mut t, d.audio_profile_level, true);
            push_str(&mut t, " visual=0x");
            push_hex_byte(&mut t, d.visual_profile_level, true);
            push_str(&mut t, " graphics=0x");
            push_hex_byte(&mut t, d.graphics_profile_level, true);
        },
    }
    proof {
        assert(t@ =~= iods_text(*d));
    }
    t
}

fn push_code_label(t: &mut String, v: Option<u16>, n: &Option<String>)
    ensures
        final(t)@ == old(t)@ + code_label(v, *n),
{
    match v {
        Some(x) => {
            let l = match n {
                Some(s) => super::cicp::labeled(x, Some(s.as_str())),
                None => super::cicp::labeled(x, None),
            };
            push_str(t, l.as_str());
        },
        None => push_str(t, "?"),
    }
}

fn colr_summary(d: &ColrData) -> (r: String)
    ensures
        r@ == colr_text(*d),
{
    let mut t = String::new();
    push_str(&mut t, "type=");
    push_str(&mut t, d.colour_type.as_str());
    if typ_is(&d.colour_type, 'n', 'c', 'l', 'x') {
        push_str(&mut t, " primaries=");
        push_code_label(&mut t, d.primaries, &d.primaries_name);
        push_str(&mut t, " transfer=");
        push_code_label(&mut t, d.transfer, &d.transfer_name);
        push_str(&mut t, " matrix=");
        push_code_label(&mut t, d.matrix, &d.matrix_name);
        let f: u64 = match d.full_range {
            Some(true) => 1,
            _ => 0,
        };
        push_kv(&mut t, " full_range=", f);
    } else if d.primaries.is_some() {
        push_str(&mut t, " primaries=");
        push_code_label(&mut t, d.primaries, &d.primaries_name);
        push_str(&mut t, " transfer=");
        push_code_label(&mut t, d.transfer, &d.transfer_name);
        push_str(&mut t, " matrix=");
        push_code_label(&mut t, d.matrix, &d.matrix_name);
        let ghost a = t@;
        match d.full_range {
            Some(f) => push_kv(
                &mut t,
                " full_range=",
                if f {
                    1
                } else {
                    0
                },
            ),
            None => {},
        }
    }
    proof {
        assert(t@ =~= colr_text(*d));
    }
    t
}

fn mdcv_summary(d: &MdcvData) -> (r: String)
    ensures
        r@ == mdcv_text(*d),
{
    let mut t = String::new();
    push_kv(&mut t, "R(", d.red_x as u64);
    push_kv(&mut t, ",", d.red_y as u64);
    push_kv(&mut t, ") G(", d.green_x as u64);
    push_kv(&mut t, ",", d.green_y as u64);
    push_kv(&mut t, ") B(", d.blue_x as u64);
    push_kv(&mut t, ",", d.blue_y as u64);
    push_kv(&mut t, ") W(", d.white_x as u64);
    push_kv(&mut t, ",", d.white_y as u64);
    push_str(&mut t, ") max_luminance=");
    push_fixed4(&mut t, d.max_display_mastering_luminance);
    push_str(&mut t, " min_luminance=");
    push_fixed4(&mut t, d.min_display_mastering_luminance);
    push_str(&mut t, " cd/m2");
    proof {
        assert(t@ =~= mdcv_text(*d));
    }
    t
}

impl StructuredData {
    /// One-line human-readable summary: the `decoded` text of a box. A
    /// track header has none here: its dimensions print as floating-point
    /// numbers.
    pub fn summary(&self) -> (r: Option<String>)
        ensures
            opt_view(r) == spec_summary(*self),
    {
        let mut t = String::new();
        match self {
            StructuredData::MovieHeader(m) => {
                push_kv(&mut t, "timescale=", m.timescale as u64);
                push_kv(&mut t, " duration=", m.duration);
            },
            StructuredData::TrackHeader(_) => {
                return None;
            },
            StructuredData::MediaHeader(m) => {
                push_kv(&mut t, "timescale=", m.timescale as u64);
                push_kv(&mut t, " duration=", m.duration);
                push_str(&mut t, " language=");
                push_str(&mut t, m.language.as_str());
            },
            StructuredData::HandlerReference(h) => {
                push_str(&mut t, "handler_type=");
                push_str(&mut t, h.handler_type.as_str());
                push_str(&mut t, " name=");
                let q = debug_str(h.name.as_str());
                push_str(&mut t, q.as_str());
            },
            StructuredData::EditList(e) => {
                t = edit_list_summary(e);
            },
            StructuredData::SegmentIndex(s) => {
                push_kv(&mut t, "timescale=", s.timescale as u64);
                push_kv(&mut t, " earliest_presentation_time=", s.earliest_presentation_time);
                push_kv(&mut t, " first_offset=", s.first_offset);
                push_kv(&mut t, " references=", s.references.len() as u64);
            },
            StructuredData::SampleDescription(s) => {
                t = stsd_summary(s);
            },
            StructuredData::DecodingTimeToSample(s) => {
                t = stts_summary(s);
            },
            StructuredData::CompositionTimeToSample(c) => {
                push_kv(&mut t, "entries=", c.entry_count as u64);
            },
            StructuredData::SampleToChunk(c) => {
                push_kv(&mut t, "entries=", c.entry_count as u64);
            },
            StructuredData::SampleSize(s) => {
                if s.sample_size > 0 {
                    push_kv(&mut t, "fixed_size=", s.sample_size as u64);
                    push_kv(&mut t, " count=", s.sample_count as u64);
                } else {
                    push_kv(&mut t, "variable count=", s.sample_count as u64);
                }
            },
            StructuredData::SyncSample(s) => {
                push_kv(&mut t, "keyframes=", s.entry_count as u64);
            },
            StructuredData::ChunkOffset(c) => {
                push_kv(&mut t, "chunks=", c.entry_count as u64);
            },
            StructuredData::ChunkOffset64(c) => {
                push_kv(&mut t, "chunks=", c.entry_count as u64);
            },
            StructuredData::TrackFragmentRun(x) => {
                t = trun_summary(x);
            },
            StructuredData::TrackFragmentHeader(x) => {
                t = tfhd_summary(x);
            },
            StructuredData::TrackFragmentDecodeTime(x) => {
                push_kv(&mut t, "base_media_decode_time=", x.base_media_decode_time);
            },
            StructuredData::TrackExtends(x) => {
                push_kv(&mut t, "track_id=", x.track_id as u64);
                push_kv(
                    &mut t,
                    " default_sample_description_index=",
                    x.default_sample_description_index as u64,
                );
                push_kv(&mut t, " default_sample_duration=", x.default_sample_duration as u64);
                push_kv(&mut t, " default_sample_size=", x.default_sample_size as u64);
                push_str(&mut t, " default_sample_flags=0x");
                push_hex32(&mut t, x.default_sample_flags);
            },
            StructuredData::ProtectionSystemHeader(x) => {
                t = pssh_summary(x);
            },
            StructuredData::TrackEncryption(x) => {
                t = tenc_summary(x);
            },
            StructuredData::ElementaryStream(x) => {
                t = esds_summary(x);
            },
            StructuredData::EventMessage(x) => {
                t = emsg_summary(x);
            },
            StructuredData::ObjectDescriptor(x) => {
                t = iods_summary(x);
            },
            StructuredData::ColourInformation(x) => {
                t = colr_summary(x);
            },
            StructuredData::DolbyVisionConfig(v) => {
                push_kv(&mut t, "version=", v.dv_version_major as u64);
                push_kv(&mut t, ".", v.dv_version_minor as u64);
                push_kv(&mut t, " profile=", v.dv_profile as u64);
                push_kv(&mut t, " level=", v.dv_level as u64);
                push_kv(&mut t, " rpu_present=", if v.rpu_present { 1 } else { 0 });
                push_kv(&mut t, " el_present=", if v.el_present { 1 } else { 0 });
                push_kv(&mut t, " bl_present=", if v.bl_present { 1 } else { 0 });
                push_kv(&mut t, " bl_compatibility=", v.bl_signal_compatibility_id as u64);
                push_str(&mut t, " (");
                push_str(&mut t, v.bl_signal_compatibility.as_str());
                push_str(&mut t, ")");
            },
            StructuredData::MasteringDisplayColourVolume(m) => {
                t = mdcv_summary(m);
            },
            StructuredData::ContentLightLevel(c) => {
                push_kv(&mut t, "max_cll=", c.max_content_light_level as u64);
                push_kv(&mut t, " max_fall=", c.max_pic_average_light_level as u64);
            },
        }
        proof {
            assert(spec_summary(*self) matches Some(x) && t@ =~= x);
        }
        Some(t)
    }
}

} // verus!
