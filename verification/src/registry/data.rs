//! Structured representations of decoded box payloads.
//!
//! Fixed-point fields (movie rate and volume, track dimensions, mastering
//! luminances) are kept as their raw integer encodings; see each field.

use vstd::prelude::*;
use crate::drm::{PlayReadyPsshData, WidevinePsshData};

verus! {

/// Byte range of a single named field within a box's payload.
///
/// Offsets are payload-relative: `start = 0` is the first payload byte, the
/// byte after the box header, and after the version+flags word for full
/// boxes. Spans need not be contiguous or cover the whole payload.
#[derive(Debug, Clone)]
pub struct FieldSpan {
    pub name: String,
    pub start: u64,
    pub length: u64,
}

/// Elementary Stream Descriptor data (esds, ISO 14496-1/-3)
#[derive(Debug, Clone)]
pub struct EsdsData {
    pub version: u8,
    pub flags: u32,
    /// MPEG-4 objectTypeIndication (0x40 = MPEG-4 Audio/AAC, 0x6B = MP3, ...)
    pub object_type: u8,
    /// Human-readable name for `object_type`
    pub object_type_name: String,
    pub max_bitrate: u32,
    pub avg_bitrate: u32,
    /// Parsed AudioSpecificConfig from DecoderSpecificInfo, when present and
    /// the stream is MPEG-4 audio.
    pub audio_config: Option<AudioSpecificConfig>,
}

/// Object Descriptor Box data (iods): an MPEG-4 InitialObjectDescriptor.
#[derive(Debug, Clone)]
pub struct IodsData {
    pub version: u8,
    pub flags: u32,
    /// ObjectDescriptorID (10-bit)
    pub od_id: u16,
    /// includeInlineProfileLevelFlag
    pub include_inline_profiles: bool,
    /// Inline URL, present when URL_Flag is set.
    pub url: Option<String>,
    /// ODProfileLevelIndication (0xFF = none required)
    pub od_profile_level: u8,
    pub scene_profile_level: u8,
    pub audio_profile_level: u8,
    pub visual_profile_level: u8,
    pub graphics_profile_level: u8,
}

/// AudioSpecificConfig (ISO 14496-3 §1.6.2.1).
#[derive(Debug, Clone)]
pub struct AudioSpecificConfig {
    /// audioObjectType (2 = AAC-LC, 5 = SBR, 29 = PS, ...)
    pub audio_object_type: u8,
    /// Profile name derived from the object type and SBR/PS signaling
    pub profile: String,
    /// Core sampling frequency in Hz
    pub sample_rate: u32,
    /// Output sampling frequency after SBR extension, when signaled
    pub extension_sample_rate: Option<u32>,
    /// channelConfiguration
    pub channel_configuration: u8,
    /// Explicit SBR signaling present (HE-AAC)
    pub sbr: bool,
    /// Explicit PS signaling present (HE-AAC v2)
    pub ps: bool,
}

/// Protection System Specific Header Box data (ISO 23001-7)
#[derive(Debug, Clone)]
pub struct PsshData {
    pub version: u8,
    pub flags: u32,
    /// DRM system UUID, hyphenated lowercase hex
    pub system_id: String,
    /// Human-readable DRM system name, if recognized
    pub system_name: Option<String>,
    /// Key IDs (version 1 only), 32-char lowercase hex each
    pub key_ids: Vec<String>,
    /// Size of the system-specific data blob
    pub data_size: u32,
    /// Decoded Widevine payload
    pub widevine: Option<Box<WidevinePsshData>>,
    /// Decoded PlayReady payload
    pub playready: Option<Box<PlayReadyPsshData>>,
}

/// Track Encryption Box data (ISO 23001-7)
#[derive(Debug, Clone)]
pub struct TencData {
    pub version: u8,
    pub flags: u32,
    pub default_crypt_byte_block: u8,
    pub default_skip_byte_block: u8,
    pub default_is_protected: bool,
    pub default_per_sample_iv_size: u8,
    /// Default key ID, 32-char lowercase hex
    pub default_kid: String,
    /// Constant IV (hex) when per-sample IV size is 0
    pub default_constant_iv: Option<String>,
}

/// Event Message Box data (DASH, ISO 23009-1)
#[derive(Debug, Clone)]
pub struct EmsgData {
    pub version: u8,
    pub flags: u32,
    pub scheme_id_uri: String,
    pub value: String,
    pub timescale: u32,
    /// Version 1: absolute presentation time
    pub presentation_time: Option<u64>,
    /// Version 0: delta from the segment start
    pub presentation_time_delta: Option<u32>,
    pub event_duration: u32,
    pub id: u32,
    /// Size of the message payload
    pub message_size: u64,
}

/// Movie Header Box data
#[derive(Debug, Clone)]
pub struct MvhdData {
    pub version: u8,
    pub flags: u32,
    pub creation_time: u64,
    pub modification_time: u64,
    pub timescale: u32,
    pub duration: u64,
    /// Playback rate as stored: 16.16 fixed point (0x10000 = 1.0)
    pub rate: i32,
    /// Playback volume as stored: 8.8 fixed point (0x100 = 1.0)
    pub volume: i16,
    pub next_track_id: u32,
}

/// Edit List Box data
#[derive(Debug, Clone)]
pub struct ElstData {
    pub version: u8,
    pub flags: u32,
    pub entry_count: u32,
    pub entries: Vec<ElstEntry>,
}

#[derive(Debug, Clone, Copy)]
pub struct ElstEntry {
    /// Edit duration in movie timescale units
    pub segment_duration: u64,
    /// Start time within the media (-1 = empty edit)
    pub media_time: i64,
    pub media_rate_integer: i16,
    pub media_rate_fraction: i16,
}

/// Segment Index Box data
#[derive(Debug, Clone)]
pub struct SidxData {
    pub version: u8,
    pub flags: u32,
    pub reference_id: u32,
    pub timescale: u32,
    pub earliest_presentation_time: u64,
    pub first_offset: u64,
    pub references: Vec<SidxReference>,
}

#[derive(Debug, Clone, Copy)]
pub struct SidxReference {
    /// 1 = reference to another sidx, 0 = reference to media
    pub reference_type: u8,
    pub referenced_size: u32,
    pub subsegment_duration: u32,
    pub starts_with_sap: bool,
    pub sap_type: u8,
    pub sap_delta_time: u32,
}

/// Track Fragment Header Box data
#[derive(Debug, Clone)]
pub struct TfhdData {
    pub version: u8,
    pub flags: u32,
    pub track_id: u32,
    pub base_data_offset: Option<u64>,
    pub sample_description_index: Option<u32>,
    pub default_sample_duration: Option<u32>,
    pub default_sample_size: Option<u32>,
    pub default_sample_flags: Option<u32>,
    /// Flag 0x010000: the fragment's samples have no duration
    pub duration_is_empty: bool,
    /// Flag 0x020000: offsets are relative to the enclosing moof
    pub default_base_is_moof: bool,
}

/// Track Fragment Decode Time Box data
#[derive(Debug, Clone)]
pub struct TfdtData {
    pub version: u8,
    pub flags: u32,
    pub base_media_decode_time: u64,
}

/// Track Extends Box data (per-track defaults for fragments)
#[derive(Debug, Clone)]
pub struct TrexData {
    pub track_id: u32,
    pub default_sample_description_index: u32,
    pub default_sample_duration: u32,
    pub default_sample_size: u32,
    pub default_sample_flags: u32,
}

/// Sample Description Box data
#[derive(Debug, Clone)]
pub struct StsdData {
    pub version: u8,
    pub flags: u32,
    pub entry_count: u32,
    pub entries: Vec<SampleEntry>,
}

#[derive(Debug, Clone)]
pub struct SampleEntry {
    pub size: u32,
    pub codec: String,
    pub data_reference_index: u16,
    /// Video: frame width in pixels
    pub width: Option<u16>,
    /// Video: frame height in pixels
    pub height: Option<u16>,
    /// Audio: channel count
    pub channel_count: Option<u16>,
    /// Audio: bits per sample
    pub sample_size: Option<u16>,
    /// Audio: sample rate in Hz (integer part of the 16.16 field)
    pub sample_rate: Option<u32>,
}

/// Decoding Time-to-Sample Box data
#[derive(Debug, Clone)]
pub struct SttsData {
    pub version: u8,
    pub flags: u32,
    pub entry_count: u32,
    pub entries: Vec<SttsEntry>,
}

#[derive(Debug, Clone, Copy)]
pub struct SttsEntry {
    pub sample_count: u32,
    pub sample_delta: u32,
}

/// Composition Time-to-Sample Box data
#[derive(Debug, Clone)]
pub struct CttsData {
    pub version: u8,
    pub flags: u32,
    pub entry_count: u32,
    pub entries: Vec<CttsEntry>,
}

#[derive(Debug, Clone, Copy)]
pub struct CttsEntry {
    pub sample_count: u32,
    pub sample_offset: i32,
}

/// Sample-to-Chunk Box data
#[derive(Debug, Clone)]
pub struct StscData {
    pub version: u8,
    pub flags: u32,
    pub entry_count: u32,
    pub entries: Vec<StscEntry>,
}

#[derive(Debug, Clone, Copy)]
pub struct StscEntry {
    pub first_chunk: u32,
    pub samples_per_chunk: u32,
    pub sample_description_index: u32,
}

/// Sample Size Box data
#[derive(Debug, Clone)]
pub struct StszData {
    pub version: u8,
    pub flags: u32,
    pub sample_size: u32,
    pub sample_count: u32,
    /// Empty when `sample_size > 0`
    pub sample_sizes: Vec<u32>,
}

/// Sync Sample Box data
#[derive(Debug, Clone)]
pub struct StssData {
    pub version: u8,
    pub flags: u32,
    pub entry_count: u32,
    pub sample_numbers: Vec<u32>,
}

/// Chunk Offset Box data
#[derive(Debug, Clone)]
pub struct StcoData {
    pub version: u8,
    pub flags: u32,
    pub entry_count: u32,
    pub chunk_offsets: Vec<u32>,
}

/// 64-bit Chunk Offset Box data
#[derive(Debug, Clone)]
pub struct Co64Data {
    pub version: u8,
    pub flags: u32,
    pub entry_count: u32,
    pub chunk_offsets: Vec<u64>,
}

/// Media Header Box data
#[derive(Debug, Clone)]
pub struct MdhdData {
    pub version: u8,
    pub flags: u32,
    pub creation_time: u64,
    pub modification_time: u64,
    pub timescale: u32,
    pub duration: u64,
    pub language: String,
}

/// Handler Reference Box data
#[derive(Debug, Clone)]
pub struct HdlrData {
    pub version: u8,
    pub flags: u32,
    pub handler_type: String,
    pub name: String,
}

/// Track Header Box data
#[derive(Debug, Clone)]
pub struct TkhdData {
    pub version: u8,
    pub flags: u32,
    pub track_id: u32,
    pub duration: u64,
    /// Width as stored: 16.16 fixed point
    pub width: u32,
    /// Height as stored: 16.16 fixed point
    pub height: u32,
}

/// Track Fragment Run Box data
#[derive(Debug, Clone)]
pub struct TrunData {
    pub version: u8,
    pub flags: u32,
    pub sample_count: u32,
    pub data_offset: Option<i32>,
    pub first_sample_flags: Option<u32>,
    pub samples: Vec<TrunSample>,
}

#[derive(Debug, Clone, Copy)]
pub struct TrunSample {
    pub duration: Option<u32>,
    pub size: Option<u32>,
    pub flags: Option<u32>,
    pub composition_time_offset: Option<i32>,
}

/// Colour Information Box data (colr). For `nclx` the CICP code points are
/// captured with their names; other types carry only `colour_type`.
#[derive(Debug, Clone)]
pub struct ColrData {
    pub colour_type: String,
    pub primaries: Option<u16>,
    pub primaries_name: Option<String>,
    pub transfer: Option<u16>,
    pub transfer_name: Option<String>,
    pub matrix: Option<u16>,
    pub matrix_name: Option<String>,
    pub full_range: Option<bool>,
}

/// Dolby Vision Configuration Box data (dvcC / dvvC).
#[derive(Debug, Clone)]
pub struct DoviConfigData {
    pub dv_version_major: u8,
    pub dv_version_minor: u8,
    pub dv_profile: u8,
    pub dv_level: u8,
    pub rpu_present: bool,
    pub el_present: bool,
    pub bl_present: bool,
    /// Base-layer cross-compatibility id
    pub bl_signal_compatibility_id: u8,
    /// Human-readable meaning of `bl_signal_compatibility_id`
    pub bl_signal_compatibility: String,
}

/// Mastering Display Colour Volume Box data (mdcv). Chromaticity coordinates
/// are the raw 0.00002-step integers; luminances are stored in units of
/// 0.0001 cd/m².
#[derive(Debug, Clone)]
pub struct MdcvData {
    pub red_x: u16,
    pub red_y: u16,
    pub green_x: u16,
    pub green_y: u16,
    pub blue_x: u16,
    pub blue_y: u16,
    pub white_x: u16,
    pub white_y: u16,
    pub max_display_mastering_luminance: u32,
    pub min_display_mastering_luminance: u32,
}

/// Content Light Level Information Box data (clli).
#[derive(Debug, Clone)]
pub struct ClliData {
    /// MaxCLL (cd/m²)
    pub max_content_light_level: u16,
    /// MaxFALL (cd/m²)
    pub max_pic_average_light_level: u16,
}

/// Structured data decoded from a box payload.
#[derive(Debug, Clone)]
pub enum StructuredData {
    SampleDescription(StsdData),
    DecodingTimeToSample(SttsData),
    CompositionTimeToSample(CttsData),
    SampleToChunk(StscData),
    SampleSize(StszData),
    SyncSample(StssData),
    ChunkOffset(StcoData),
    ChunkOffset64(Co64Data),
    MediaHeader(MdhdData),
    HandlerReference(HdlrData),
    TrackHeader(TkhdData),
    MovieHeader(MvhdData),
    EditList(ElstData),
    SegmentIndex(SidxData),
    TrackFragmentRun(TrunData),
    TrackFragmentHeader(TfhdData),
    TrackFragmentDecodeTime(TfdtData),
    TrackExtends(TrexData),
    ProtectionSystemHeader(PsshData),
    TrackEncryption(TencData),
    EventMessage(EmsgData),
    ElementaryStream(EsdsData),
    ObjectDescriptor(IodsData),
    ColourInformation(ColrData),
    DolbyVisionConfig(DoviConfigData),
    MasteringDisplayColourVolume(MdcvData),
    ContentLightLevel(ClliData),
}

/// A value returned from a box decoder: a text summary, raw bytes, or
/// structured data.
#[derive(Debug, Clone)]
pub enum BoxValue {
    Text(String),
    Bytes(Vec<u8>),
    Structured(StructuredData),
}

/// Why a payload could not be decoded.
#[derive(Debug, Clone)]
pub enum DecodeError {
    /// The payload ended inside a field.
    Truncated,
    /// The payload is malformed; the text says how.
    Invalid(String),
}

impl DecodeError {
    /// The text of the error.
    pub open spec fn spec_message(&self) -> Seq<char> {
        match self {
            DecodeError::Truncated => "failed to fill whole buffer"@,
            DecodeError::Invalid(m) => m@,
        }
    }

    /// The text of the error: an I/O-style message for a payload that ended
    /// early, the decoder's own text otherwise.
    pub fn message(&self) -> (r: String)
        ensures
            r@ == self.spec_message(),
    {
        match self {
            DecodeError::Truncated => "failed to fill whole buffer".to_owned(),
            DecodeError::Invalid(m) => m.clone(),
        }
    }
}

} // verus!
