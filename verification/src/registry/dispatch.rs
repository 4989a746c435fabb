//! Which decoder handles which box type, and dispatch to it: the
//! built-in decoder table.

use vstd::prelude::*;
use crate::boxes::{BoxHeader, BoxKey, FourCC};
use super::codecs::{Av1cDecoder, AvccDecoder, BtrtDecoder, ColrDecoder, Dac3Decoder, Dec3Decoder, DflaDecoder, DopsDecoder, HvccDecoder, PaspDecoder, VpccDecoder};
use super::decoders::{ClliDecoder, Co64Decoder, CttsDecoder, ElstDecoder, MdcvDecoder, MdhdDecoder, MvhdDecoder, SidxDecoder, StcoDecoder, StscDecoder, StssDecoder, StszDecoder, SttsDecoder, TfdtDecoder, TfhdDecoder, TkhdDecoder, TrexDecoder, TrunDecoder};
use super::descriptors::{EsdsDecoder, IodsDecoder};
use super::entries::{StsdDecoder, Stz2Decoder};
use super::events::{EmsgDecoder};
use super::metadata::{FtypDecoder, HdlrDecoder, IlstDataDecoder, IlstNameDecoder, ImirDecoder, IrotDecoder, KindDecoder, MeanDecoder};
use super::protection::{FrmaDecoder, PsshDecoder, SchmDecoder, SencDecoder, TencDecoder};
use super::data::{BoxValue, DecodeError, FieldSpan};

verus! {

/// The built-in decoders.
#[derive(Debug, Clone, Copy, PartialEq, Eq, Structural)]
pub enum DecoderKind {
    Ftyp,
    Mvhd,
    Tkhd,
    Mdhd,
    Hdlr,
    Sidx,
    Stsd,
    Stts,
    Stss,
    Ctts,
    Stsc,
    Stsz,
    Stz2,
    Stco,
    Co64,
    Elst,
    Btrt,
    Esds,
    Avcc,
    Hvcc,
    Av1c,
    Vpcc,
    Dops,
    Dac3,
    Dec3,
    Dfla,
    Colr,
    Pasp,
    Mdcv,
    Clli,
    Kind,
    Irot,
    Imir,
    IlstData,
    Mean,
    IlstName,
    Trun,
    Tfhd,
    Tfdt,
    Trex,
    Pssh,
    Tenc,
    Senc,
    Emsg,
    Schm,
    Frma,
    Iods,
}

/// The decoder for a box type, by its four-character code read as a
/// big-endian number. Extended (`uuid`) types have none.
pub open spec fn decoder_for(code: nat) -> Option<DecoderKind> {
    if code == 0x66747970 {
        Some(DecoderKind::Ftyp)
    } else if code == 0x6D766864 {
        Some(DecoderKind::Mvhd)
    } else if code == 0x746B6864 {
        Some(DecoderKind::Tkhd)
    } else if code == 0x6D646864 {
        Some(DecoderKind::Mdhd)
    } else if code == 0x68646C72 {
        Some(DecoderKind::Hdlr)
    } else if code == 0x73696478 {
        Some(DecoderKind::Sidx)
    } else if code == 0x73747364 {
        Some(DecoderKind::Stsd)
    } else if code == 0x73747473 {
        Some(DecoderKind::Stts)
    } else if code == 0x73747373 {
        Some(DecoderKind::Stss)
    } else if code == 0x63747473 {
        Some(DecoderKind::Ctts)
    } else if code == 0x73747363 {
        Some(DecoderKind::Stsc)
    } else if code == 0x7374737A {
        Some(DecoderKind::Stsz)
    } else if code == 0x73747A32 {
        Some(DecoderKind::Stz2)
    } else if code == 0x7374636F {
        Some(DecoderKind::Stco)
    } else if code == 0x636F3634 {
        Some(DecoderKind::Co64)
    } else if code == 0x656C7374 {
        Some(DecoderKind::Elst)
    } else if code == 0x62747274 {
        Some(DecoderKind::Btrt)
    } else if code == 0x65736473 {
        Some(DecoderKind::Esds)
    } else if code == 0x61766343 {
        Some(DecoderKind::Avcc)
    } else if code == 0x68766343 {
        Some(DecoderKind::Hvcc)
    } else if code == 0x61763143 {
        Some(DecoderKind::Av1c)
    } else if code == 0x76706343 {
        Some(DecoderKind::Vpcc)
    } else if code == 0x644F7073 {
        Some(DecoderKind::Dops)
    } else if code == 0x64616333 {
        Some(DecoderKind::Dac3)
    } else if code == 0x64656333 {
        Some(DecoderKind::Dec3)
    } else if code == 0x64664C61 {
        Some(DecoderKind::Dfla)
    } else if code == 0x636F6C72 {
        Some(DecoderKind::Colr)
    } else if code == 0x70617370 {
        Some(DecoderKind::Pasp)
    } else if code == 0x6D646376 {
        Some(DecoderKind::Mdcv)
    } else if code == 0x636C6C69 {
        Some(DecoderKind::Clli)
    } else if code == 0x6B696E64 {
        Some(DecoderKind::Kind)
    } else if code == 0x69726F74 {
        Some(DecoderKind::Irot)
    } else if code == 0x696D6972 {
        Some(DecoderKind::Imir)
    } else if code == 0x64617461 {
        Some(DecoderKind::IlstData)
    } else if code == 0x6D65616E {
        Some(DecoderKind::Mean)
    } else if code == 0x6E616D65 {
        Some(DecoderKind::IlstName)
    } else if code == 0x7472756E {
        Some(DecoderKind::Trun)
    } else if code == 0x74666864 {
        Some(DecoderKind::Tfhd)
    } else if code == 0x74666474 {
        Some(DecoderKind::Tfdt)
    } else if code == 0x74726578 {
        Some(DecoderKind::Trex)
    } else if code == 0x70737368 {
        Some(DecoderKind::Pssh)
    } else if code == 0x74656E63 {
        Some(DecoderKind::Tenc)
    } else if code == 0x73656E63 {
        Some(DecoderKind::Senc)
    } else if code == 0x656D7367 {
        Some(DecoderKind::Emsg)
    } else if code == 0x7363686D {
        Some(DecoderKind::Schm)
    } else if code == 0x66726D61 {
        Some(DecoderKind::Frma)
    } else if code == 0x696F6473 {
        Some(DecoderKind::Iods)
    } else {
        None
    }
}

fn decoder_for_code(code: u32) -> (r: Option<DecoderKind>)
    ensures
        r == decoder_for(code as nat),
{
    if code == 0x66747970 {
        Some(DecoderKind::Ftyp)
    } else if code == 0x6D766864 {
        Some(DecoderKind::Mvhd)
    } else if code == 0x746B6864 {
        Some(DecoderKind::Tkhd)
    } else if code == 0x6D646864 {
        Some(DecoderKind::Mdhd)
    } else if code == 0x68646C72 {
        Some(DecoderKind::Hdlr)
    } else if code == 0x73696478 {
        Some(DecoderKind::Sidx)
    } else if code == 0x73747364 {
        Some(DecoderKind::Stsd)
    } else if code == 0x73747473 {
        Some(DecoderKind::Stts)
    } else if code == 0x73747373 {
        Some(DecoderKind::Stss)
    } else if code == 0x63747473 {
        Some(DecoderKind::Ctts)
    } else if code == 0x73747363 {
        Some(DecoderKind::Stsc)
    } else if code == 0x7374737A {
        Some(DecoderKind::Stsz)
    } else if code == 0x73747A32 {
        Some(DecoderKind::Stz2)
    } else if code == 0x7374636F {
        Some(DecoderKind::Stco)
    } else if code == 0x636F3634 {
        Some(DecoderKind::Co64)
    } else if code == 0x656C7374 {
        Some(DecoderKind::Elst)
    } else if code == 0x62747274 {
        Some(DecoderKind::Btrt)
    } else if code == 0x65736473 {
        Some(DecoderKind::Esds)
    } else if code == 0x61766343 {
        Some(DecoderKind::Avcc)
    } else if code == 0x68766343 {
        Some(DecoderKind::Hvcc)
    } else if code == 0x61763143 {
        Some(DecoderKind::Av1c)
    } else if code == 0x76706343 {
        Some(DecoderKind::Vpcc)
    } else if code == 0x644F7073 {
        Some(DecoderKind::Dops)
    } else if code == 0x64616333 {
        Some(DecoderKind::Dac3)
    } else if code == 0x64656333 {
        Some(DecoderKind::Dec3)
    } else if code == 0x64664C61 {
        Some(DecoderKind::Dfla)
    } else if code == 0x636F6C72 {
        Some(DecoderKind::Colr)
    } else if code == 0x70617370 {
        Some(DecoderKind::Pasp)
    } else if code == 0x6D646376 {
        Some(DecoderKind::Mdcv)
    } else if code == 0x636C6C69 {
        Some(DecoderKind::Clli)
    } else if code == 0x6B696E64 {
        Some(DecoderKind::Kind)
    } else if code == 0x69726F74 {
        Some(DecoderKind::Irot)
    } else if code == 0x696D6972 {
        Some(DecoderKind::Imir)
    } else if code == 0x64617461 {
        Some(DecoderKind::IlstData)
    } else if code == 0x6D65616E {
        Some(DecoderKind::Mean)
    } else if code == 0x6E616D65 {
        Some(DecoderKind::IlstName)
    } else if code == 0x7472756E {
        Some(DecoderKind::Trun)
    } else if code == 0x74666864 {
        Some(DecoderKind::Tfhd)
    } else if code == 0x74666474 {
        Some(DecoderKind::Tfdt)
    } else if code == 0x74726578 {
        Some(DecoderKind::Trex)
    } else if code == 0x70737368 {
        Some(DecoderKind::Pssh)
    } else if code == 0x74656E63 {
        Some(DecoderKind::Tenc)
    } else if code == 0x73656E63 {
        Some(DecoderKind::Senc)
    } else if code == 0x656D7367 {
        Some(DecoderKind::Emsg)
    } else if code == 0x7363686D {
        Some(DecoderKind::Schm)
    } else if code == 0x66726D61 {
        Some(DecoderKind::Frma)
    } else if code == 0x696F6473 {
        Some(DecoderKind::Iods)
    } else {
        None
    }
}

/// The decoder registered for a box key.
pub open spec fn decoder_for_key(key: BoxKey) -> Option<DecoderKind> {
    match key {
        BoxKey::FourCC(cc) => decoder_for(cc.spec_code()),
        BoxKey::Uuid(_) => None,
    }
}

/// Looks up the decoder for a box key.
pub fn default_decoder(key: &BoxKey) -> (r: Option<DecoderKind>)
    ensures
        r == decoder_for_key(*key),
{
    match key {
        BoxKey::FourCC(cc) => decoder_for_code(cc.code()),
        BoxKey::Uuid(_) => None,
    }
}

/// The irot payloads whose angle the decoder cannot represent.
pub open spec fn irot_out_of_range(p: Seq<u8>) -> bool {
    p.len() > 0 && p[0] % 4 == 3
}

/// `r` is what decoder `k` returns for the payload.
pub open spec fn decoded_by(
    k: DecoderKind,
    payload: &[u8],
    hdr: &BoxHeader,
    version: Option<u8>,
    flags: Option<u32>,
    r: Result<BoxValue, DecodeError>,
) -> bool {
    match k {
        DecoderKind::Ftyp => call_ensures(FtypDecoder::decode, (&FtypDecoder, payload, hdr, version, flags), r),
        DecoderKind::Mvhd => call_ensures(MvhdDecoder::decode, (&MvhdDecoder, payload, hdr, version, flags), r),
        DecoderKind::Tkhd => call_ensures(TkhdDecoder::decode, (&TkhdDecoder, payload, hdr, version, flags), r),
        DecoderKind::Mdhd => call_ensures(MdhdDecoder::decode, (&MdhdDecoder, payload, hdr, version, flags), r),
        DecoderKind::Hdlr => call_ensures(HdlrDecoder::decode, (&HdlrDecoder, payload, hdr, version, flags), r),
        DecoderKind::Sidx => call_ensures(SidxDecoder::decode, (&SidxDecoder, payload, hdr, version, flags), r),
        DecoderKind::Stsd => call_ensures(StsdDecoder::decode, (&StsdDecoder, payload, hdr, version, flags), r),
        DecoderKind::Stts => call_ensures(SttsDecoder::decode, (&SttsDecoder, payload, hdr, version, flags), r),
        DecoderKind::Stss => call_ensures(StssDecoder::decode, (&StssDecoder, payload, hdr, version, flags), r),
        DecoderKind::Ctts => call_ensures(CttsDecoder::decode, (&CttsDecoder, payload, hdr, version, flags), r),
        DecoderKind::Stsc => call_ensures(StscDecoder::decode, (&StscDecoder, payload, hdr, version, flags), r),
        DecoderKind::Stsz => call_ensures(StszDecoder::decode, (&StszDecoder, payload, hdr, version, flags), r),
        DecoderKind::Stz2 => call_ensures(Stz2Decoder::decode, (&Stz2Decoder, payload, hdr, version, flags), r),
        DecoderKind::Stco => call_ensures(StcoDecoder::decode, (&StcoDecoder, payload, hdr, version, flags), r),
        DecoderKind::Co64 => call_ensures(Co64Decoder::decode, (&Co64Decoder, payload, hdr, version, flags), r),
        DecoderKind::Elst => call_ensures(ElstDecoder::decode, (&ElstDecoder, payload, hdr, version, flags), r),
        DecoderKind::Btrt => call_ensures(BtrtDecoder::decode, (&BtrtDecoder, payload, hdr, version, flags), r),
        DecoderKind::Esds => call_ensures(EsdsDecoder::decode, (&EsdsDecoder, payload, hdr, version, flags), r),
        DecoderKind::Avcc => call_ensures(AvccDecoder::decode, (&AvccDecoder, payload, hdr, version, flags), r),
        DecoderKind::Hvcc => call_ensures(HvccDecoder::decode, (&HvccDecoder, payload, hdr, version, flags), r),
        DecoderKind::Av1c => call_ensures(Av1cDecoder::decode, (&Av1cDecoder, payload, hdr, version, flags), r),
        DecoderKind::Vpcc => call_ensures(VpccDecoder::decode, (&VpccDecoder, payload, hdr, version, flags), r),
        DecoderKind::Dops => call_ensures(DopsDecoder::decode, (&DopsDecoder, payload, hdr, version, flags), r),
        DecoderKind::Dac3 => call_ensures(Dac3Decoder::decode, (&Dac3Decoder, payload, hdr, version, flags), r),
        DecoderKind::Dec3 => call_ensures(Dec3Decoder::decode, (&Dec3Decoder, payload, hdr, version, flags), r),
        DecoderKind::Dfla => call_ensures(DflaDecoder::decode, (&DflaDecoder, payload, hdr, version, flags), r),
        DecoderKind::Colr => call_ensures(ColrDecoder::decode, (&ColrDecoder, payload, hdr, version, flags), r),
        DecoderKind::Pasp => call_ensures(PaspDecoder::decode, (&PaspDecoder, payload, hdr, version, flags), r),
        DecoderKind::Mdcv => call_ensures(MdcvDecoder::decode, (&MdcvDecoder, payload, hdr, version, flags), r),
        DecoderKind::Clli => call_ensures(ClliDecoder::decode, (&ClliDecoder, payload, hdr, version, flags), r),
        DecoderKind::Kind => call_ensures(KindDecoder::decode, (&KindDecoder, payload, hdr, version, flags), r),
        DecoderKind::Irot => if irot_out_of_range(payload@) {
            r matches Err(DecodeError::Invalid(m)) && m@ == "irot: angle out of range"@
        } else {
            call_ensures(IrotDecoder::decode, (&IrotDecoder, payload, hdr, version, flags), r)
        },
        DecoderKind::Imir => call_ensures(ImirDecoder::decode, (&ImirDecoder, payload, hdr, version, flags), r),
        DecoderKind::IlstData => call_ensures(IlstDataDecoder::decode, (&IlstDataDecoder, payload, hdr, version, flags), r),
        DecoderKind::Mean => call_ensures(MeanDecoder::decode, (&MeanDecoder, payload, hdr, version, flags), r),
        DecoderKind::IlstName => call_ensures(IlstNameDecoder::decode, (&IlstNameDecoder, payload, hdr, version, flags), r),
        DecoderKind::Trun => call_ensures(TrunDecoder::decode, (&TrunDecoder, payload, hdr, version, flags), r),
        DecoderKind::Tfhd => call_ensures(TfhdDecoder::decode, (&TfhdDecoder, payload, hdr, version, flags), r),
        DecoderKind::Tfdt => call_ensures(TfdtDecoder::decode, (&TfdtDecoder, payload, hdr, version, flags), r),
        DecoderKind::Trex => call_ensures(TrexDecoder::decode, (&TrexDecoder, payload, hdr, version, flags), r),
        DecoderKind::Pssh => call_ensures(PsshDecoder::decode, (&PsshDecoder, payload, hdr, version, flags), r),
        DecoderKind::Tenc => call_ensures(TencDecoder::decode, (&TencDecoder, payload, hdr, version, flags), r),
        DecoderKind::Senc => call_ensures(SencDecoder::decode, (&SencDecoder, payload, hdr, version, flags), r),
        DecoderKind::Emsg => call_ensures(EmsgDecoder::decode, (&EmsgDecoder, payload, hdr, version, flags), r),
        DecoderKind::Schm => call_ensures(SchmDecoder::decode, (&SchmDecoder, payload, hdr, version, flags), r),
        DecoderKind::Frma => call_ensures(FrmaDecoder::decode, (&FrmaDecoder, payload, hdr, version, flags), r),
        DecoderKind::Iods => call_ensures(IodsDecoder::decode, (&IodsDecoder, payload, hdr, version, flags), r),
    }
}

/// `fs` is what decoder `k` reports as its field spans.
pub open spec fn spans_ok(k: DecoderKind, version: Option<u8>, flags: Option<u32>, payload_len: u64, fs: Option<
    Vec<FieldSpan>,
>) -> bool {
    &&& fs is Some <==> k.has_spans() && (k is Emsg ==> version == Some(1u8))
    &&& fs matches Some(v) ==> match k {
        DecoderKind::Mvhd => call_ensures(MvhdDecoder::field_spans, (&MvhdDecoder, version, flags, payload_len), v),
        DecoderKind::Tkhd => call_ensures(TkhdDecoder::field_spans, (&TkhdDecoder, version, flags, payload_len), v),
        DecoderKind::Mdhd => call_ensures(MdhdDecoder::field_spans, (&MdhdDecoder, version, flags, payload_len), v),
        DecoderKind::Hdlr => call_ensures(HdlrDecoder::field_spans, (&HdlrDecoder, version, flags, payload_len), v),
        DecoderKind::Sidx => call_ensures(SidxDecoder::field_spans, (&SidxDecoder, version, flags, payload_len), v),
        DecoderKind::Stts => call_ensures(SttsDecoder::field_spans, (&SttsDecoder, version, flags, payload_len), v),
        DecoderKind::Stss => call_ensures(StssDecoder::field_spans, (&StssDecoder, version, flags, payload_len), v),
        DecoderKind::Ctts => call_ensures(CttsDecoder::field_spans, (&CttsDecoder, version, flags, payload_len), v),
        DecoderKind::Stsc => call_ensures(StscDecoder::field_spans, (&StscDecoder, version, flags, payload_len), v),
        DecoderKind::Stsz => call_ensures(StszDecoder::field_spans, (&StszDecoder, version, flags, payload_len), v),
        DecoderKind::Stco => call_ensures(StcoDecoder::field_spans, (&StcoDecoder, version, flags, payload_len), v),
        DecoderKind::Co64 => call_ensures(Co64Decoder::field_spans, (&Co64Decoder, version, flags, payload_len), v),
        DecoderKind::Elst => call_ensures(ElstDecoder::field_spans, (&ElstDecoder, version, flags, payload_len), v),
        DecoderKind::Trun => call_ensures(TrunDecoder::field_spans, (&TrunDecoder, version, flags, payload_len), v),
        DecoderKind::Tfhd => call_ensures(TfhdDecoder::field_spans, (&TfhdDecoder, version, flags, payload_len), v),
        DecoderKind::Tfdt => call_ensures(TfdtDecoder::field_spans, (&TfdtDecoder, version, flags, payload_len), v),
        DecoderKind::Trex => call_ensures(TrexDecoder::field_spans, (&TrexDecoder, version, flags, payload_len), v),
        DecoderKind::Tenc => call_ensures(TencDecoder::field_spans, (&TencDecoder, version, flags, payload_len), v),
        DecoderKind::Emsg => call_ensures(EmsgDecoder::field_spans, (&EmsgDecoder, version, flags, payload_len), v),
        _ => true,
    }
}

impl DecoderKind {
    /// Decodes a payload with this decoder. An irot angle of 270 degrees,
    /// which overflows the byte the angle is computed in, is reported as an
    /// error.
    pub fn decode(&self, payload: &[u8], hdr: &BoxHeader, version: Option<u8>, flags: Option<u32>) -> (r:
        Result<BoxValue, DecodeError>)
        ensures
            decoded_by(*self, payload, hdr, version, flags, r),
    {
        match self {
            DecoderKind::Ftyp => FtypDecoder.decode(payload, hdr, version, flags),
            DecoderKind::Mvhd => MvhdDecoder.decode(payload, hdr, version, flags),
            DecoderKind::Tkhd => TkhdDecoder.decode(payload, hdr, version, flags),
            DecoderKind::Mdhd => MdhdDecoder.decode(payload, hdr, version, flags),
            DecoderKind::Hdlr => HdlrDecoder.decode(payload, hdr, version, flags),
            DecoderKind::Sidx => SidxDecoder.decode(payload, hdr, version, flags),
            DecoderKind::Stsd => StsdDecoder.decode(payload, hdr, version, flags),
            DecoderKind::Stts => SttsDecoder.decode(payload, hdr, version, flags),
            DecoderKind::Stss => StssDecoder.decode(payload, hdr, version, flags),
            DecoderKind::Ctts => CttsDecoder.decode(payload, hdr, version, flags),
            DecoderKind::Stsc => StscDecoder.decode(payload, hdr, version, flags),
            DecoderKind::Stsz => StszDecoder.decode(payload, hdr, version, flags),
            DecoderKind::Stz2 => Stz2Decoder.decode(payload, hdr, version, flags),
            DecoderKind::Stco => StcoDecoder.decode(payload, hdr, version, flags),
            DecoderKind::Co64 => Co64Decoder.decode(payload, hdr, version, flags),
            DecoderKind::Elst => ElstDecoder.decode(payload, hdr, version, flags),
            DecoderKind::Btrt => BtrtDecoder.decode(payload, hdr, version, flags),
            DecoderKind::Esds => EsdsDecoder.decode(payload, hdr, version, flags),
            DecoderKind::Avcc => AvccDecoder.decode(payload, hdr, version, flags),
            DecoderKind::Hvcc => HvccDecoder.decode(payload, hdr, version, flags),
            DecoderKind::Av1c => Av1cDecoder.decode(payload, hdr, version, flags),
            DecoderKind::Vpcc => VpccDecoder.decode(payload, hdr, version, flags),
            DecoderKind::Dops => DopsDecoder.decode(payload, hdr, version, flags),
            DecoderKind::Dac3 => Dac3Decoder.decode(payload, hdr, version, flags),
            DecoderKind::Dec3 => Dec3Decoder.decode(payload, hdr, version, flags),
            DecoderKind::Dfla => DflaDecoder.decode(payload, hdr, version, flags),
            DecoderKind::Colr => ColrDecoder.decode(payload, hdr, version, flags),
            DecoderKind::Pasp => PaspDecoder.decode(payload, hdr, version, flags),
            DecoderKind::Mdcv => MdcvDecoder.decode(payload, hdr, version, flags),
            DecoderKind::Clli => ClliDecoder.decode(payload, hdr, version, flags),
            DecoderKind::Kind => KindDecoder.decode(payload, hdr, version, flags),
            DecoderKind::Irot => {
                if payload.len() > 0 && payload[0] % 4 == 3 {
                    Err(DecodeError::Invalid("irot: angle out of range".to_owned()))
                } else {
                    IrotDecoder.decode(payload, hdr, version, flags)
                }
            },
            DecoderKind::Imir => ImirDecoder.decode(payload, hdr, version, flags),
            DecoderKind::IlstData => IlstDataDecoder.decode(payload, hdr, version, flags),
            DecoderKind::Mean => MeanDecoder.decode(payload, hdr, version, flags),
            DecoderKind::IlstName => IlstNameDecoder.decode(payload, hdr, version, flags),
            DecoderKind::Trun => TrunDecoder.decode(payload, hdr, version, flags),
            DecoderKind::Tfhd => TfhdDecoder.decode(payload, hdr, version, flags),
            DecoderKind::Tfdt => TfdtDecoder.decode(payload, hdr, version, flags),
            DecoderKind::Trex => TrexDecoder.decode(payload, hdr, version, flags),
            DecoderKind::Pssh => PsshDecoder.decode(payload, hdr, version, flags),
            DecoderKind::Tenc => TencDecoder.decode(payload, hdr, version, flags),
            DecoderKind::Senc => SencDecoder.decode(payload, hdr, version, flags),
            DecoderKind::Emsg => EmsgDecoder.decode(payload, hdr, version, flags),
            DecoderKind::Schm => SchmDecoder.decode(payload, hdr, version, flags),
            DecoderKind::Frma => FrmaDecoder.decode(payload, hdr, version, flags),
            DecoderKind::Iods => IodsDecoder.decode(payload, hdr, version, flags),
        }
    }

    /// Whether this decoder maps its fields to payload byte ranges.
    pub open spec fn has_spans(self) -> bool {
        match self {
            DecoderKind::Co64 => true,
            DecoderKind::Ctts => true,
            DecoderKind::Elst => true,
            DecoderKind::Emsg => true,
            DecoderKind::Hdlr => true,
            DecoderKind::Mdhd => true,
            DecoderKind::Mvhd => true,
            DecoderKind::Sidx => true,
            DecoderKind::Stco => true,
            DecoderKind::Stsc => true,
            DecoderKind::Stss => true,
            DecoderKind::Stsz => true,
            DecoderKind::Stts => true,
            DecoderKind::Tenc => true,
            DecoderKind::Tfdt => true,
            DecoderKind::Tfhd => true,
            DecoderKind::Tkhd => true,
            DecoderKind::Trex => true,
            DecoderKind::Trun => true,
            _ => false,
        }
    }

    /// The byte ranges of the named fields, for decoders that have them;
    /// `emsg` has them in version 1 only, where the fixed fields lead.
    pub fn field_spans(&self, version: Option<u8>, flags: Option<u32>, payload_len: u64) -> (r: Option<
        Vec<FieldSpan>,
    >)
        ensures
            spans_ok(*self, version, flags, payload_len, r),
    {
        match self {
            DecoderKind::Mvhd => Some(MvhdDecoder.field_spans(version, flags, payload_len)),
            DecoderKind::Tkhd => Some(TkhdDecoder.field_spans(version, flags, payload_len)),
            DecoderKind::Mdhd => Some(MdhdDecoder.field_spans(version, flags, payload_len)),
            DecoderKind::Hdlr => Some(HdlrDecoder.field_spans(version, flags, payload_len)),
            DecoderKind::Sidx => Some(SidxDecoder.field_spans(version, flags, payload_len)),
            DecoderKind::Stts => Some(SttsDecoder.field_spans(version, flags, payload_len)),
            DecoderKind::Stss => Some(StssDecoder.field_spans(version, flags, payload_len)),
            DecoderKind::Ctts => Some(CttsDecoder.field_spans(version, flags, payload_len)),
            DecoderKind::Stsc => Some(StscDecoder.field_spans(version, flags, payload_len)),
            DecoderKind::Stsz => Some(StszDecoder.field_spans(version, flags, payload_len)),
            DecoderKind::Stco => Some(StcoDecoder.field_spans(version, flags, payload_len)),
            DecoderKind::Co64 => Some(Co64Decoder.field_spans(version, flags, payload_len)),
            DecoderKind::Elst => Some(ElstDecoder.field_spans(version, flags, payload_len)),
            DecoderKind::Trun => Some(TrunDecoder.field_spans(version, flags, payload_len)),
            DecoderKind::Tfhd => Some(TfhdDecoder.field_spans(version, flags, payload_len)),
            DecoderKind::Tfdt => Some(TfdtDecoder.field_spans(version, flags, payload_len)),
            DecoderKind::Trex => Some(TrexDecoder.field_spans(version, flags, payload_len)),
            DecoderKind::Tenc => Some(TencDecoder.field_spans(version, flags, payload_len)),
            DecoderKind::Emsg => if version == Some(1u8) {
                Some(EmsgDecoder.field_spans(version, flags, payload_len))
            } else {
                None
            },
            _ => None,
        }
    }
}

/// Decodes a payload with the decoder registered for `key`; `None` when
/// there is none.
pub fn decode_box(key: &BoxKey, payload: &[u8], hdr: &BoxHeader, version: Option<u8>, flags: Option<u32>) -> (r:
    Option<Result<BoxValue, DecodeError>>)
    ensures
        match decoder_for_key(*key) {
            None => r is None,
            Some(k) => r matches Some(x) && decoded_by(k, payload, hdr, version, flags, x),
        },
{
    match default_decoder(key) {
        None => None,
        Some(k) => Some(k.decode(payload, hdr, version, flags)),
    }
}

} // verus!
