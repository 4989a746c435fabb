//! Box payload decoders and the structured data they produce.

pub mod data;
pub mod cicp;
pub mod codec_config;
pub mod decoders;

pub mod descriptors;
pub mod codecs;
pub mod metadata;
pub mod protection;
pub mod entries;
pub mod events;
pub mod dispatch;
pub mod summary;
pub mod custom;

pub use data::{FieldSpan, EsdsData, IodsData, AudioSpecificConfig, PsshData, TencData, EmsgData, MvhdData, ElstData, ElstEntry, SidxData, SidxReference, TfhdData, TfdtData, TrexData, StsdData, SampleEntry, SttsData, SttsEntry, CttsData, CttsEntry, StscData, StscEntry, StszData, StssData, StcoData, Co64Data, MdhdData, HdlrData, TkhdData, TrunData, TrunSample, ColrData, DoviConfigData, MdcvData, ClliData, StructuredData, BoxValue, DecodeError};
pub use dispatch::{DecoderKind, decode_box, default_decoder};
pub use custom::{BoxDecoder, Registry, default_registry};
