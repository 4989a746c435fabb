//! Typed classification of box fourccs: which boxes the parser descends
//! into, which carry FullBox version/flags, and their human-readable names.

use vstd::prelude::*;
use crate::boxes::FourCC;

verus! {

/// Typed view over common MP4 / ISOBMFF boxes.
///
/// Anything not in this list becomes `KnownBox::Unknown(fourcc)`.
#[derive(Debug, Clone, Copy, PartialEq, Eq, Hash)]
pub enum KnownBox {
    Ftyp,
    Moov,
    Mdat,
    Free,
    Skip,
    Wide,
    Meta,
    Pssh,
    Sidx,
    Ssix,
    Prft,
    Styp,
    Emsg,
    Mfra,
    Mfro,
    Pdin,
    Mvhd,
    Trak,
    Mvex,
    Udta,
    Tkhd,
    Edts,
    Mdia,
    Tref,
    Iprp,
    Meco,
    Ludt,
    Elst,
    Mdhd,
    Hdlr,
    Minf,
    Vmhd,
    Smhd,
    Hmhd,
    Nmhd,
    Sthd,
    Dinf,
    Stbl,
    Gmhd,
    Gmin,
    Glbl,
    Kind,
    Dref,
    Stsd,
    Stts,
    Ctts,
    Stsc,
    Stsz,
    Stz2,
    Stco,
    Co64,
    Stss,
    Stsh,
    Padb,
    Stdp,
    Sdtp,
    Sgpd,
    Sbgp,
    Subs,
    Mehd,
    Trex,
    Moof,
    Mfhd,
    Traf,
    Tfhd,
    Tfdt,
    Trun,
    Tfra,
    Iloc,
    Iinf,
    Infe,
    Iref,
    Ipco,
    Ipma,
    Ipci,
    Ispe,
    Pixi,
    AuxC,
    Clap,
    Colr,
    Hvcc,
    Avcc,
    Pitm,
    Irot,
    Imir,
    Rloc,
    Lsel,
    Tols,
    A1lx,
    A1op,
    Idat,
    Ipro,
    Sinf,
    Schm,
    Schi,
    Tenc,
    Saio,
    Saiz,
    Senc,
    Frma,
    Avc1,
    Avc2,
    Avc3,
    Avc4,
    Hev1,
    Hvc1,
    Vvc1,
    Mp4v,
    Vp08,
    Vp09,
    Av01,
    Dvh1,
    Dvhe,
    Dav1,
    Tx3g,
    Wvtt,
    Stpp,
    Tmcd,
    Encv,
    Enca,
    Enct,
    Ipcm,
    Fpcm,
    Mp4a,
    Ac3,
    Ec3,
    Opus,
    Samr,
    Sawb,
    Alac,
    Flac,
    Esds,
    Av1c,
    Vpcc,
    Dops,
    Dac3,
    Dec3,
    Dfla,
    Dvcc,
    Btrt,
    Ilst,
    IlstData,
    Mean,
    IlstName,
    Vttc,
    Mdcv,
    Clli,
    St3d,
    Sv3d,
    Proj,
    Prhd,
    Equi,
    Cbmp,
    Xml,
    Bxml,
    Ainf,
    Leva,
    Trep,
    Srat,
    Chnl,
    Pcmc,
    Wave,
    Chan,
    Tcmi,
    Pasp,
    Cslg,
    Cprt,
    Gama,
    Fiel,
    Tapt,
    Iods,
    Gsst,
    Gstd,
    Gssd,
    Gspu,
    Gspm,
    Gshh,
    Apch,
    Apcn,
    Apcs,
    Apco,
    Ap4h,
    Ap4x,
    Uuid,
    Unknown(FourCC),
}

impl KnownBox {
    /// The known box named by a fourcc code (the big-endian value of its four bytes).
    #[verifier::opaque]
    pub open spec fn spec_from(cc: FourCC) -> KnownBox {
        let code = cc.spec_code();
        if code == 0x66747970 { KnownBox::Ftyp }
        else if code == 0x6d6f6f76 { KnownBox::Moov }
        else if code == 0x6d646174 { KnownBox::Mdat }
        else if code == 0x66726565 { KnownBox::Free }
        else if code == 0x736b6970 { KnownBox::Skip }
        else if code == 0x77696465 { KnownBox::Wide }
        else if code == 0x6d657461 { KnownBox::Meta }
        else if code == 0x70737368 { KnownBox::Pssh }
        else if code == 0x73696478 { KnownBox::Sidx }
        else if code == 0x73736978 { KnownBox::Ssix }
        else if code == 0x70726674 { KnownBox::Prft }
        else if code == 0x73747970 { KnownBox::Styp }
        else if code == 0x656d7367 { KnownBox::Emsg }
        else if code == 0x6d667261 { KnownBox::Mfra }
        else if code == 0x6d66726f { KnownBox::Mfro }
        else if code == 0x7064696e { KnownBox::Pdin }
        else if code == 0x6d766864 { KnownBox::Mvhd }
        else if code == 0x7472616b { KnownBox::Trak }
        else if code == 0x6d766578 { KnownBox::Mvex }
        else if code == 0x75647461 { KnownBox::Udta }
        else if code == 0x746b6864 { KnownBox::Tkhd }
        else if code == 0x65647473 { KnownBox::Edts }
        else if code == 0x6d646961 { KnownBox::Mdia }
        else if code == 0x74726566 { KnownBox::Tref }
        else if code == 0x69707270 { KnownBox::Iprp }
        else if code == 0x6d65636f { KnownBox::Meco }
        else if code == 0x6c756474 { KnownBox::Ludt }
        else if code == 0x656c7374 { KnownBox::Elst }
        else if code == 0x6d646864 { KnownBox::Mdhd }
        else if code == 0x68646c72 { KnownBox::Hdlr }
        else if code == 0x6d696e66 { KnownBox::Minf }
        else if code == 0x766d6864 { KnownBox::Vmhd }
        else if code == 0x736d6864 { KnownBox::Smhd }
        else if code == 0x686d6864 { KnownBox::Hmhd }
        else if code == 0x6e6d6864 { KnownBox::Nmhd }
        else if code == 0x73746864 { KnownBox::Sthd }
        else if code == 0x64696e66 { KnownBox::Dinf }
        else if code == 0x7374626c { KnownBox::Stbl }
        else if code == 0x676d6864 { KnownBox::Gmhd }
        else if code == 0x676d696e { KnownBox::Gmin }
        else if code == 0x676c626c { KnownBox::Glbl }
        else if code == 0x6b696e64 { KnownBox::Kind }
        else if code == 0x64726566 { KnownBox::Dref }
        else if code == 0x73747364 { KnownBox::Stsd }
        else if code == 0x73747473 { KnownBox::Stts }
        else if code == 0x63747473 { KnownBox::Ctts }
        else if code == 0x73747363 { KnownBox::Stsc }
        else if code == 0x7374737a { KnownBox::Stsz }
        else if code == 0x73747a32 { KnownBox::Stz2 }
        else if code == 0x7374636f { KnownBox::Stco }
        else if code == 0x636f3634 { KnownBox::Co64 }
        else if code == 0x73747373 { KnownBox::Stss }
        else if code == 0x73747368 { KnownBox::Stsh }
        else if code == 0x70616462 { KnownBox::Padb }
        else if code == 0x73746470 { KnownBox::Stdp }
        else if code == 0x73647470 { KnownBox::Sdtp }
        else if code == 0x73677064 { KnownBox::Sgpd }
        else if code == 0x73626770 { KnownBox::Sbgp }
        else if code == 0x73756273 { KnownBox::Subs }
        else if code == 0x6d656864 { KnownBox::Mehd }
        else if code == 0x74726578 { KnownBox::Trex }
        else if code == 0x6d6f6f66 { KnownBox::Moof }
        else if code == 0x6d666864 { KnownBox::Mfhd }
        else if code == 0x74726166 { KnownBox::Traf }
        else if code == 0x74666864 { KnownBox::Tfhd }
        else if code == 0x74666474 { KnownBox::Tfdt }
        else if code == 0x7472756e { KnownBox::Trun }
        else if code == 0x74667261 { KnownBox::Tfra }
        else if code == 0x696c6f63 { KnownBox::Iloc }
        else if code == 0x69696e66 { KnownBox::Iinf }
        else if code == 0x696e6665 { KnownBox::Infe }
        else if code == 0x69726566 { KnownBox::Iref }
        else if code == 0x6970636f { KnownBox::Ipco }
        else if code == 0x69706d61 { KnownBox::Ipma }
        else if code == 0x69706369 { KnownBox::Ipci }
        else if code == 0x69737065 { KnownBox::Ispe }
        else if code == 0x70697869 { KnownBox::Pixi }
        else if code == 0x61757843 { KnownBox::AuxC }
        else if code == 0x636c6170 { KnownBox::Clap }
        else if code == 0x636f6c72 { KnownBox::Colr }
        else if code == 0x68766343 { KnownBox::Hvcc }
        else if code == 0x61766343 { KnownBox::Avcc }
        else if code == 0x7069746d { KnownBox::Pitm }
        else if code == 0x69726f74 { KnownBox::Irot }
        else if code == 0x696d6972 { KnownBox::Imir }
        else if code == 0x726c6f63 { KnownBox::Rloc }
        else if code == 0x6c73656c { KnownBox::Lsel }
        else if code == 0x746f6c73 { KnownBox::Tols }
        else if code == 0x61316c78 { KnownBox::A1lx }
        else if code == 0x61316f70 { KnownBox::A1op }
        else if code == 0x69646174 { KnownBox::Idat }
        else if code == 0x6970726f { KnownBox::Ipro }
        else if code == 0x73696e66 { KnownBox::Sinf }
        else if code == 0x7363686d { KnownBox::Schm }
        else if code == 0x73636869 { KnownBox::Schi }
        else if code == 0x74656e63 { KnownBox::Tenc }
        else if code == 0x7361696f { KnownBox::Saio }
        else if code == 0x7361697a { KnownBox::Saiz }
        else if code == 0x73656e63 { KnownBox::Senc }
        else if code == 0x66726d61 { KnownBox::Frma }
        else if code == 0x61766331 { KnownBox::Avc1 }
        else if code == 0x61766332 { KnownBox::Avc2 }
        else if code == 0x61766333 { KnownBox::Avc3 }
        else if code == 0x61766334 { KnownBox::Avc4 }
        else if code == 0x68657631 { KnownBox::Hev1 }
        else if code == 0x68766331 { KnownBox::Hvc1 }
        else if code == 0x76766331 { KnownBox::Vvc1 }
        else if code == 0x6d703476 { KnownBox::Mp4v }
        else if code == 0x76703038 { KnownBox::Vp08 }
        else if code == 0x76703039 { KnownBox::Vp09 }
        else if code == 0x61763031 { KnownBox::Av01 }
        else if code == 0x64766831 { KnownBox::Dvh1 }
        else if code == 0x64766865 { KnownBox::Dvhe }
        else if code == 0x64617631 { KnownBox::Dav1 }
        else if code == 0x74783367 { KnownBox::Tx3g }
        else if code == 0x77767474 { KnownBox::Wvtt }
        else if code == 0x73747070 { KnownBox::Stpp }
        else if code == 0x746d6364 { KnownBox::Tmcd }
        else if code == 0x656e6376 { KnownBox::Encv }
        else if code == 0x656e6361 { KnownBox::Enca }
        else if code == 0x656e6374 { KnownBox::Enct }
        else if code == 0x6970636d { KnownBox::Ipcm }
        else if code == 0x6670636d { KnownBox::Fpcm }
        else if code == 0x6d703461 { KnownBox::Mp4a }
        else if code == 0x61632d33 { KnownBox::Ac3 }
        else if code == 0x65632d33 { KnownBox::Ec3 }
        else if code == 0x6f707573 { KnownBox::Opus }
        else if code == 0x4f707573 { KnownBox::Opus }
        else if code == 0x73616d72 { KnownBox::Samr }
        else if code == 0x73617762 { KnownBox::Sawb }
        else if code == 0x616c6163 { KnownBox::Alac }
        else if code == 0x664c6143 { KnownBox::Flac }
        else if code == 0x65736473 { KnownBox::Esds }
        else if code == 0x61763143 { KnownBox::Av1c }
        else if code == 0x76706343 { KnownBox::Vpcc }
        else if code == 0x644f7073 { KnownBox::Dops }
        else if code == 0x64616333 { KnownBox::Dac3 }
        else if code == 0x64656333 { KnownBox::Dec3 }
        else if code == 0x64664c61 { KnownBox::Dfla }
        else if code == 0x64766343 { KnownBox::Dvcc }
        else if code == 0x62747274 { KnownBox::Btrt }
        else if code == 0x696c7374 { KnownBox::Ilst }
        else if code == 0x64617461 { KnownBox::IlstData }
        else if code == 0x6d65616e { KnownBox::Mean }
        else if code == 0x6e616d65 { KnownBox::IlstName }
        else if code == 0x76747443 { KnownBox::Vttc }
        else if code == 0x6d646376 { KnownBox::Mdcv }
        else if code == 0x636c6c69 { KnownBox::Clli }
        else if code == 0x73743364 { KnownBox::St3d }
        else if code == 0x73763364 { KnownBox::Sv3d }
        else if code == 0x70726f6a { KnownBox::Proj }
        else if code == 0x70726864 { KnownBox::Prhd }
        else if code == 0x65717569 { KnownBox::Equi }
        else if code == 0x63626d70 { KnownBox::Cbmp }
        else if code == 0x786d6c20 { KnownBox::Xml }
        else if code == 0x62786d6c { KnownBox::Bxml }
        else if code == 0x61696e66 { KnownBox::Ainf }
        else if code == 0x6c657661 { KnownBox::Leva }
        else if code == 0x74726570 { KnownBox::Trep }
        else if code == 0x73726174 { KnownBox::Srat }
        else if code == 0x63686e6c { KnownBox::Chnl }
        else if code == 0x70636d43 { KnownBox::Pcmc }
        else if code == 0x77617665 { KnownBox::Wave }
        else if code == 0x6368616e { KnownBox::Chan }
        else if code == 0x74636d69 { KnownBox::Tcmi }
        else if code == 0x70617370 { KnownBox::Pasp }
        else if code == 0x63736c67 { KnownBox::Cslg }
        else if code == 0x63707274 { KnownBox::Cprt }
        else if code == 0x67616d61 { KnownBox::Gama }
        else if code == 0x6669656c { KnownBox::Fiel }
        else if code == 0x74617074 { KnownBox::Tapt }
        else if code == 0x696f6473 { KnownBox::Iods }
        else if code == 0x67737374 { KnownBox::Gsst }
        else if code == 0x67737464 { KnownBox::Gstd }
        else if code == 0x67737364 { KnownBox::Gssd }
        else if code == 0x67737075 { KnownBox::Gspu }
        else if code == 0x6773706d { KnownBox::Gspm }
        else if code == 0x67736868 { KnownBox::Gshh }
        else if code == 0x61706368 { KnownBox::Apch }
        else if code == 0x6170636e { KnownBox::Apcn }
        else if code == 0x61706373 { KnownBox::Apcs }
        else if code == 0x6170636f { KnownBox::Apco }
        else if code == 0x61703468 { KnownBox::Ap4h }
        else if code == 0x61703478 { KnownBox::Ap4x }
        else if code == 0x75756964 { KnownBox::Uuid }
        else { KnownBox::Unknown(cc) }
    }

    /// Classifies a fourcc.
    pub fn from_fourcc(cc: FourCC) -> (r: KnownBox)
        ensures
            r == KnownBox::spec_from(cc),
    {
        let code = cc.code();
        proof {
            reveal(KnownBox::spec_from);
        }
        match code {
            0x66747970 => KnownBox::Ftyp,
            0x6d6f6f76 => KnownBox::Moov,
            0x6d646174 => KnownBox::Mdat,
            0x66726565 => KnownBox::Free,
            0x736b6970 => KnownBox::Skip,
            0x77696465 => KnownBox::Wide,
            0x6d657461 => KnownBox::Meta,
            0x70737368 => KnownBox::Pssh,
            0x73696478 => KnownBox::Sidx,
            0x73736978 => KnownBox::Ssix,
            0x70726674 => KnownBox::Prft,
            0x73747970 => KnownBox::Styp,
            0x656d7367 => KnownBox::Emsg,
            0x6d667261 => KnownBox::Mfra,
            0x6d66726f => KnownBox::Mfro,
            0x7064696e => KnownBox::Pdin,
            0x6d766864 => KnownBox::Mvhd,
            0x7472616b => KnownBox::Trak,
            0x6d766578 => KnownBox::Mvex,
            0x75647461 => KnownBox::Udta,
            0x746b6864 => KnownBox::Tkhd,
            0x65647473 => KnownBox::Edts,
            0x6d646961 => KnownBox::Mdia,
            0x74726566 => KnownBox::Tref,
            0x69707270 => KnownBox::Iprp,
            0x6d65636f => KnownBox::Meco,
            0x6c756474 => KnownBox::Ludt,
            0x656c7374 => KnownBox::Elst,
            0x6d646864 => KnownBox::Mdhd,
            0x68646c72 => KnownBox::Hdlr,
            0x6d696e66 => KnownBox::Minf,
            0x766d6864 => KnownBox::Vmhd,
            0x736d6864 => KnownBox::Smhd,
            0x686d6864 => KnownBox::Hmhd,
            0x6e6d6864 => KnownBox::Nmhd,
            0x73746864 => KnownBox::Sthd,
            0x64696e66 => KnownBox::Dinf,
            0x7374626c => KnownBox::Stbl,
            0x676d6864 => KnownBox::Gmhd,
            0x676d696e => KnownBox::Gmin,
            0x676c626c => KnownBox::Glbl,
            0x6b696e64 => KnownBox::Kind,
            0x64726566 => KnownBox::Dref,
            0x73747364 => KnownBox::Stsd,
            0x73747473 => KnownBox::Stts,
            0x63747473 => KnownBox::Ctts,
            0x73747363 => KnownBox::Stsc,
            0x7374737a => KnownBox::Stsz,
            0x73747a32 => KnownBox::Stz2,
            0x7374636f => KnownBox::Stco,
            0x636f3634 => KnownBox::Co64,
            0x73747373 => KnownBox::Stss,
            0x73747368 => KnownBox::Stsh,
            0x70616462 => KnownBox::Padb,
            0x73746470 => KnownBox::Stdp,
            0x73647470 => KnownBox::Sdtp,
            0x73677064 => KnownBox::Sgpd,
            0x73626770 => KnownBox::Sbgp,
            0x73756273 => KnownBox::Subs,
            0x6d656864 => KnownBox::Mehd,
            0x74726578 => KnownBox::Trex,
            0x6d6f6f66 => KnownBox::Moof,
            0x6d666864 => KnownBox::Mfhd,
            0x74726166 => KnownBox::Traf,
            0x74666864 => KnownBox::Tfhd,
            0x74666474 => KnownBox::Tfdt,
            0x7472756e => KnownBox::Trun,
            0x74667261 => KnownBox::Tfra,
            0x696c6f63 => KnownBox::Iloc,
            0x69696e66 => KnownBox::Iinf,
            0x696e6665 => KnownBox::Infe,
            0x69726566 => KnownBox::Iref,
            0x6970636f => KnownBox::Ipco,
            0x69706d61 => KnownBox::Ipma,
            0x69706369 => KnownBox::Ipci,
            0x69737065 => KnownBox::Ispe,
            0x70697869 => KnownBox::Pixi,
            0x61757843 => KnownBox::AuxC,
            0x636c6170 => KnownBox::Clap,
            0x636f6c72 => KnownBox::Colr,
            0x68766343 => KnownBox::Hvcc,
            0x61766343 => KnownBox::Avcc,
            0x7069746d => KnownBox::Pitm,
            0x69726f74 => KnownBox::Irot,
            0x696d6972 => KnownBox::Imir,
            0x726c6f63 => KnownBox::Rloc,
            0x6c73656c => KnownBox::Lsel,
            0x746f6c73 => KnownBox::Tols,
            0x61316c78 => KnownBox::A1lx,
            0x61316f70 => KnownBox::A1op,
            0x69646174 => KnownBox::Idat,
            0x6970726f => KnownBox::Ipro,
            0x73696e66 => KnownBox::Sinf,
            0x7363686d => KnownBox::Schm,
            0x73636869 => KnownBox::Schi,
            0x74656e63 => KnownBox::Tenc,
            0x7361696f => KnownBox::Saio,
            0x7361697a => KnownBox::Saiz,
            0x73656e63 => KnownBox::Senc,
            0x66726d61 => KnownBox::Frma,
            0x61766331 => KnownBox::Avc1,
            0x61766332 => KnownBox::Avc2,
            0x61766333 => KnownBox::Avc3,
            0x61766334 => KnownBox::Avc4,
            0x68657631 => KnownBox::Hev1,
            0x68766331 => KnownBox::Hvc1,
            0x76766331 => KnownBox::Vvc1,
            0x6d703476 => KnownBox::Mp4v,
            0x76703038 => KnownBox::Vp08,
            0x76703039 => KnownBox::Vp09,
            0x61763031 => KnownBox::Av01,
            0x64766831 => KnownBox::Dvh1,
            0x64766865 => KnownBox::Dvhe,
            0x64617631 => KnownBox::Dav1,
            0x74783367 => KnownBox::Tx3g,
            0x77767474 => KnownBox::Wvtt,
            0x73747070 => KnownBox::Stpp,
            0x746d6364 => KnownBox::Tmcd,
            0x656e6376 => KnownBox::Encv,
            0x656e6361 => KnownBox::Enca,
            0x656e6374 => KnownBox::Enct,
            0x6970636d => KnownBox::Ipcm,
            0x6670636d => KnownBox::Fpcm,
            0x6d703461 => KnownBox::Mp4a,
            0x61632d33 => KnownBox::Ac3,
            0x65632d33 => KnownBox::Ec3,
            0x6f707573 => KnownBox::Opus,
            0x4f707573 => KnownBox::Opus,
            0x73616d72 => KnownBox::Samr,
            0x73617762 => KnownBox::Sawb,
            0x616c6163 => KnownBox::Alac,
            0x664c6143 => KnownBox::Flac,
            0x65736473 => KnownBox::Esds,
            0x61763143 => KnownBox::Av1c,
            0x76706343 => KnownBox::Vpcc,
            0x644f7073 => KnownBox::Dops,
            0x64616333 => KnownBox::Dac3,
            0x64656333 => KnownBox::Dec3,
            0x64664c61 => KnownBox::Dfla,
            0x64766343 => KnownBox::Dvcc,
            0x62747274 => KnownBox::Btrt,
            0x696c7374 => KnownBox::Ilst,
            0x64617461 => KnownBox::IlstData,
            0x6d65616e => KnownBox::Mean,
            0x6e616d65 => KnownBox::IlstName,
            0x76747443 => KnownBox::Vttc,
            0x6d646376 => KnownBox::Mdcv,
            0x636c6c69 => KnownBox::Clli,
            0x73743364 => KnownBox::St3d,
            0x73763364 => KnownBox::Sv3d,
            0x70726f6a => KnownBox::Proj,
            0x70726864 => KnownBox::Prhd,
            0x65717569 => KnownBox::Equi,
            0x63626d70 => KnownBox::Cbmp,
            0x786d6c20 => KnownBox::Xml,
            0x62786d6c => KnownBox::Bxml,
            0x61696e66 => KnownBox::Ainf,
            0x6c657661 => KnownBox::Leva,
            0x74726570 => KnownBox::Trep,
            0x73726174 => KnownBox::Srat,
            0x63686e6c => KnownBox::Chnl,
            0x70636d43 => KnownBox::Pcmc,
            0x77617665 => KnownBox::Wave,
            0x6368616e => KnownBox::Chan,
            0x74636d69 => KnownBox::Tcmi,
            0x70617370 => KnownBox::Pasp,
            0x63736c67 => KnownBox::Cslg,
            0x63707274 => KnownBox::Cprt,
            0x67616d61 => KnownBox::Gama,
            0x6669656c => KnownBox::Fiel,
            0x74617074 => KnownBox::Tapt,
            0x696f6473 => KnownBox::Iods,
            0x67737374 => KnownBox::Gsst,
            0x67737464 => KnownBox::Gstd,
            0x67737364 => KnownBox::Gssd,
            0x67737075 => KnownBox::Gspu,
            0x6773706d => KnownBox::Gspm,
            0x67736868 => KnownBox::Gshh,
            0x61706368 => KnownBox::Apch,
            0x6170636e => KnownBox::Apcn,
            0x61706373 => KnownBox::Apcs,
            0x6170636f => KnownBox::Apco,
            0x61703468 => KnownBox::Ap4h,
            0x61703478 => KnownBox::Ap4x,
            0x75756964 => KnownBox::Uuid,
            _ => KnownBox::Unknown(cc),
        }
    }

    pub open spec fn spec_is_container(self) -> bool {
        match self {
            KnownBox::Moov => true,
            KnownBox::Trak => true,
            KnownBox::Mdia => true,
            KnownBox::Minf => true,
            KnownBox::Stbl => true,
            KnownBox::Edts => true,
            KnownBox::Udta => true,
            KnownBox::Meta => true,
            KnownBox::Moof => true,
            KnownBox::Mvex => true,
            KnownBox::Mfra => true,
            KnownBox::Meco => true,
            KnownBox::Traf => true,
            KnownBox::Sinf => true,
            KnownBox::Iprp => true,
            KnownBox::Iref => true,
            KnownBox::Ipco => true,
            KnownBox::Ipma => true,
            KnownBox::Ilst => true,
            KnownBox::Ludt => true,
            KnownBox::Gmhd => true,
            KnownBox::Ipro => true,
            KnownBox::Sv3d => true,
            KnownBox::Proj => true,
            KnownBox::Trep => true,
            KnownBox::Wave => true,
            KnownBox::Dinf => true,
            _ => false,
        }
    }

    /// Returns `true` if this box type is a container (i.e. can have children).
    pub fn is_container(&self) -> (r: bool)
        ensures
            r == self.spec_is_container(),
    {
        match self {
            KnownBox::Moov => true,
            KnownBox::Trak => true,
            KnownBox::Mdia => true,
            KnownBox::Minf => true,
            KnownBox::Stbl => true,
            KnownBox::Edts => true,
            KnownBox::Udta => true,
            KnownBox::Meta => true,
            KnownBox::Moof => true,
            KnownBox::Mvex => true,
            KnownBox::Mfra => true,
            KnownBox::Meco => true,
            KnownBox::Traf => true,
            KnownBox::Sinf => true,
            KnownBox::Iprp => true,
            KnownBox::Iref => true,
            KnownBox::Ipco => true,
            KnownBox::Ipma => true,
            KnownBox::Ilst => true,
            KnownBox::Ludt => true,
            KnownBox::Gmhd => true,
            KnownBox::Ipro => true,
            KnownBox::Sv3d => true,
            KnownBox::Proj => true,
            KnownBox::Trep => true,
            KnownBox::Wave => true,
            KnownBox::Dinf => true,
            _ => false,
        }
    }

    pub open spec fn spec_is_full_box(self) -> bool {
        match self {
            KnownBox::Mvhd => true,
            KnownBox::Tkhd => true,
            KnownBox::Mdhd => true,
            KnownBox::Hdlr => true,
            KnownBox::Vmhd => true,
            KnownBox::Smhd => true,
            KnownBox::Nmhd => true,
            KnownBox::Sthd => true,
            KnownBox::Dref => true,
            KnownBox::Stts => true,
            KnownBox::Ctts => true,
            KnownBox::Stsc => true,
            KnownBox::Stsz => true,
            KnownBox::Stz2 => true,
            KnownBox::Stco => true,
            KnownBox::Co64 => true,
            KnownBox::Stss => true,
            KnownBox::Stsh => true,
            KnownBox::Padb => true,
            KnownBox::Stdp => true,
            KnownBox::Stsd => true,
            KnownBox::Sdtp => true,
            KnownBox::Sgpd => true,
            KnownBox::Sbgp => true,
            KnownBox::Subs => true,
            KnownBox::Elst => true,
            KnownBox::Sidx => true,
            KnownBox::Mehd => true,
            KnownBox::Trex => true,
            KnownBox::Mfhd => true,
            KnownBox::Tfhd => true,
            KnownBox::Tfdt => true,
            KnownBox::Trun => true,
            KnownBox::Tfra => true,
            KnownBox::Iloc => true,
            KnownBox::Iinf => true,
            KnownBox::Infe => true,
            KnownBox::Pitm => true,
            KnownBox::Pssh => true,
            KnownBox::Schi => true,
            KnownBox::Saio => true,
            KnownBox::Saiz => true,
            KnownBox::Esds => true,
            KnownBox::Vpcc => true,
            KnownBox::Dfla => true,
            KnownBox::Kind => true,
            KnownBox::St3d => true,
            KnownBox::Prhd => true,
            KnownBox::Equi => true,
            KnownBox::Cbmp => true,
            KnownBox::Tols => true,
            KnownBox::A1op => true,
            KnownBox::Pdin => true,
            KnownBox::Xml => true,
            KnownBox::Bxml => true,
            KnownBox::Ainf => true,
            KnownBox::Leva => true,
            KnownBox::Srat => true,
            KnownBox::Chnl => true,
            KnownBox::Gmin => true,
            KnownBox::Mean => true,
            KnownBox::IlstName => true,
            KnownBox::IlstData => true,
            KnownBox::Iods => true,
            KnownBox::Tenc => true,
            KnownBox::Senc => true,
            KnownBox::Schm => true,
            KnownBox::Emsg => true,
            _ => false,
        }
    }

    /// Returns `true` if this box type is a FullBox (has version/flags).
    pub fn is_full_box(&self) -> (r: bool)
        ensures
            r == self.spec_is_full_box(),
    {
        match self {
            KnownBox::Mvhd => true,
            KnownBox::Tkhd => true,
            KnownBox::Mdhd => true,
            KnownBox::Hdlr => true,
            KnownBox::Vmhd => true,
            KnownBox::Smhd => true,
            KnownBox::Nmhd => true,
            KnownBox::Sthd => true,
            KnownBox::Dref => true,
            KnownBox::Stts => true,
            KnownBox::Ctts => true,
            KnownBox::Stsc => true,
            KnownBox::Stsz => true,
            KnownBox::Stz2 => true,
            KnownBox::Stco => true,
            KnownBox::Co64 => true,
            KnownBox::Stss => true,
            KnownBox::Stsh => true,
            KnownBox::Padb => true,
            KnownBox::Stdp => true,
            KnownBox::Stsd => true,
            KnownBox::Sdtp => true,
            KnownBox::Sgpd => true,
            KnownBox::Sbgp => true,
            KnownBox::Subs => true,
            KnownBox::Elst => true,
            KnownBox::Sidx => true,
            KnownBox::Mehd => true,
            KnownBox::Trex => true,
            KnownBox::Mfhd => true,
            KnownBox::Tfhd => true,
            KnownBox::Tfdt => true,
            KnownBox::Trun => true,
            KnownBox::Tfra => true,
            KnownBox::Iloc => true,
            KnownBox::Iinf => true,
            KnownBox::Infe => true,
            KnownBox::Pitm => true,
            KnownBox::Pssh => true,
            KnownBox::Schi => true,
            KnownBox::Saio => true,
            KnownBox::Saiz => true,
            KnownBox::Esds => true,
            KnownBox::Vpcc => true,
            KnownBox::Dfla => true,
            KnownBox::Kind => true,
            KnownBox::St3d => true,
            KnownBox::Prhd => true,
            KnownBox::Equi => true,
            KnownBox::Cbmp => true,
            KnownBox::Tols => true,
            KnownBox::A1op => true,
            KnownBox::Pdin => true,
            KnownBox::Xml => true,
            KnownBox::Bxml => true,
            KnownBox::Ainf => true,
            KnownBox::Leva => true,
            KnownBox::Srat => true,
            KnownBox::Chnl => true,
            KnownBox::Gmin => true,
            KnownBox::Mean => true,
            KnownBox::IlstName => true,
            KnownBox::IlstData => true,
            KnownBox::Iods => true,
            KnownBox::Tenc => true,
            KnownBox::Senc => true,
            KnownBox::Schm => true,
            KnownBox::Emsg => true,
            _ => false,
        }
    }

    pub open spec fn spec_is_full_container(self) -> bool {
        match self {
            KnownBox::Meta => true,
            KnownBox::Iref => true,
            _ => false,
        }
    }

    /// Returns `true` for FullBoxes whose payload after version/flags is a list of child boxes (`meta`, `iref`).
    pub fn is_full_container(&self) -> (r: bool)
        ensures
            r == self.spec_is_full_container(),
    {
        match self {
            KnownBox::Meta => true,
            KnownBox::Iref => true,
            _ => false,
        }
    }

    /// Human-readable name suitable for UI (e.g. "File Type Box").
    pub open spec fn spec_full_name(self) -> &'static str {
        match self {
            KnownBox::Ftyp => "File Type Box",
            KnownBox::Moov => "Movie Box",
            KnownBox::Mdat => "Media Data Box",
            KnownBox::Free => "Free Space Box",
            KnownBox::Skip => "Skip Box",
            KnownBox::Wide => "Wide Placeholder Box",
            KnownBox::Meta => "Metadata Box",
            KnownBox::Pssh => "Protection System Specific Header",
            KnownBox::Sidx => "Segment Index Box",
            KnownBox::Ssix => "Subsegment Index Box",
            KnownBox::Prft => "Producer Reference Time",
            KnownBox::Styp => "Segment Type Box",
            KnownBox::Emsg => "Event Message Box",
            KnownBox::Mfra => "Movie Fragment Random Access Box",
            KnownBox::Mfro => "Movie Fragment Random Access Offset Box",
            KnownBox::Pdin => "Progressive Download Information Box",
            KnownBox::Mvhd => "Movie Header Box",
            KnownBox::Trak => "Track Box",
            KnownBox::Mvex => "Movie Extends Box",
            KnownBox::Udta => "User Data Box",
            KnownBox::Tkhd => "Track Header Box",
            KnownBox::Edts => "Edit Box",
            KnownBox::Mdia => "Media Box",
            KnownBox::Tref => "Track Reference Box",
            KnownBox::Iprp => "Item Properties Box",
            KnownBox::Meco => "Additional Metadata Container Box",
            KnownBox::Ludt => "Track User Data Box",
            KnownBox::Elst => "Edit List Box",
            KnownBox::Mdhd => "Media Header Box",
            KnownBox::Hdlr => "Handler Reference Box",
            KnownBox::Minf => "Media Information Box",
            KnownBox::Vmhd => "Video Media Header Box",
            KnownBox::Smhd => "Sound Media Header Box",
            KnownBox::Hmhd => "Hint Media Header Box",
            KnownBox::Nmhd => "Null Media Header Box",
            KnownBox::Sthd => "Subtitle Media Header Box",
            KnownBox::Dinf => "Data Information Box",
            KnownBox::Stbl => "Sample Table Box",
            KnownBox::Gmhd => "Generic Media Header Box",
            KnownBox::Gmin => "Base Media Information Header Box",
            KnownBox::Glbl => "Global Sample Description Box",
            KnownBox::Kind => "Track Kind Box",
            KnownBox::Dref => "Data Reference Box",
            KnownBox::Stsd => "Sample Description Box",
            KnownBox::Stts => "Decoding Time-to-Sample Box",
            KnownBox::Ctts => "Composition Time-to-Sample Box",
            KnownBox::Stsc => "Sample-to-Chunk Box",
            KnownBox::Stsz => "Sample Size Box",
            KnownBox::Stz2 => "Compact Sample Size Box",
            KnownBox::Stco => "Chunk Offset Box",
            KnownBox::Co64 => "Chunk Offset (64-bit) Box",
            KnownBox::Stss => "Sync Sample Box",
            KnownBox::Stsh => "Shadow Sync Sample Box",
            KnownBox::Padb => "Padding Bits Box",
            KnownBox::Stdp => "Sample Degradation Priority Box",
            KnownBox::Sdtp => "Sample Dependency Flags Box",
            KnownBox::Sgpd => "Sample Group Description Box",
            KnownBox::Sbgp => "Sample-to-Group Box",
            KnownBox::Subs => "Sub-Sample Information Box",
            KnownBox::Mehd => "Movie Extends Header Box",
            KnownBox::Trex => "Track Extends Box",
            KnownBox::Moof => "Movie Fragment Box",
            KnownBox::Mfhd => "Movie Fragment Header Box",
            KnownBox::Traf => "Track Fragment Box",
            KnownBox::Tfhd => "Track Fragment Header Box",
            KnownBox::Tfdt => "Track Fragment Decode Time Box",
            KnownBox::Trun => "Track Fragment Run Box",
            KnownBox::Tfra => "Track Fragment Random Access Box",
            KnownBox::Iloc => "Item Location Box",
            KnownBox::Iinf => "Item Information Box",
            KnownBox::Infe => "Item Info Entry Box",
            KnownBox::Iref => "Item Reference Box",
            KnownBox::Ipco => "Item Property Container Box",
            KnownBox::Ipma => "Item Property Association Box",
            KnownBox::Ipci => "Item Property Container Info Box",
            KnownBox::Ispe => "Image Spatial Extents Property",
            KnownBox::Pixi => "Pixel Information Property",
            KnownBox::AuxC => "Auxiliary Type Property",
            KnownBox::Clap => "Clean Aperture Box",
            KnownBox::Colr => "Colour Information Box",
            KnownBox::Hvcc => "HEVC Decoder Configuration Box",
            KnownBox::Avcc => "AVC Decoder Configuration Box",
            KnownBox::Pitm => "Primary Item Box",
            KnownBox::Irot => "Image Rotation Box",
            KnownBox::Imir => "Image Mirror Box",
            KnownBox::Rloc => "Relative Location Box",
            KnownBox::Lsel => "Layer Selector Box",
            KnownBox::Tols => "Target Output Layer Set Box",
            KnownBox::A1lx => "AV1 Layer Extents Box",
            KnownBox::A1op => "AV1 Operating Point Selector Box",
            KnownBox::Idat => "Item Data Box",
            KnownBox::Ipro => "Item Protection Box",
            KnownBox::Sinf => "Protection Scheme Information Box",
            KnownBox::Schm => "Scheme Type Box",
            KnownBox::Schi => "Scheme Information Box",
            KnownBox::Tenc => "Track Encryption Box",
            KnownBox::Saio => "Sample Auxiliary Information Offsets Box",
            KnownBox::Saiz => "Sample Auxiliary Information Sizes Box",
            KnownBox::Senc => "Sample Encryption Box",
            KnownBox::Frma => "Original Format Box",
            KnownBox::Avc1 => "AVC Video Sample Entry",
            KnownBox::Avc2 => "AVC2 Video Sample Entry",
            KnownBox::Avc3 => "AVC3 Video Sample Entry",
            KnownBox::Avc4 => "AVC4 Video Sample Entry",
            KnownBox::Hev1 => "HEVC Video Sample Entry (hev1)",
            KnownBox::Hvc1 => "HEVC Video Sample Entry (hvc1)",
            KnownBox::Vvc1 => "VVC Video Sample Entry",
            KnownBox::Mp4v => "MPEG-4 Visual Sample Entry",
            KnownBox::Vp08 => "VP8 Video Sample Entry",
            KnownBox::Vp09 => "VP9 Video Sample Entry",
            KnownBox::Av01 => "AV1 Video Sample Entry",
            KnownBox::Dvh1 => "Dolby Vision HEVC Sample Entry (dvh1)",
            KnownBox::Dvhe => "Dolby Vision HEVC Sample Entry (dvhe)",
            KnownBox::Dav1 => "Dolby Vision AV1 Sample Entry",
            KnownBox::Tx3g => "3GPP Timed Text Sample Entry",
            KnownBox::Wvtt => "WebVTT Sample Entry",
            KnownBox::Stpp => "TTML Sample Entry",
            KnownBox::Tmcd => "Timecode Sample Entry",
            KnownBox::Encv => "Encrypted Video Sample Entry",
            KnownBox::Enca => "Encrypted Audio Sample Entry",
            KnownBox::Enct => "Encrypted Text Sample Entry",
            KnownBox::Ipcm => "In-band PCM Sample Entry",
            KnownBox::Fpcm => "Float PCM Sample Entry",
            KnownBox::Mp4a => "MPEG-4 Audio Sample Entry",
            KnownBox::Ac3 => "AC-3 Audio Sample Entry",
            KnownBox::Ec3 => "Enhanced AC-3 Audio Sample Entry",
            KnownBox::Opus => "Opus Audio Sample Entry",
            KnownBox::Samr => "AMR-NB Audio Sample Entry",
            KnownBox::Sawb => "AMR-WB Audio Sample Entry",
            KnownBox::Alac => "Apple Lossless Sample Entry",
            KnownBox::Flac => "FLAC Audio Sample Entry",
            KnownBox::Esds => "Elementary Stream Descriptor",
            KnownBox::Av1c => "AV1 Codec Configuration Box",
            KnownBox::Vpcc => "VP Codec Configuration Box",
            KnownBox::Dops => "Opus Specific Box",
            KnownBox::Dac3 => "AC-3 Bitstream Information Box",
            KnownBox::Dec3 => "Enhanced AC-3 Bitstream Information Box",
            KnownBox::Dfla => "FLAC Specific Box",
            KnownBox::Dvcc => "Dolby Vision Configuration Box",
            KnownBox::Btrt => "Bitrate Box",
            KnownBox::Ilst => "iTunes Metadata List",
            KnownBox::IlstData => "iTunes Metadata Value",
            KnownBox::Mean => "iTunes Reverse DNS Domain",
            KnownBox::IlstName => "iTunes Reverse DNS Name",
            KnownBox::Vttc => "WebVTT Configuration Box",
            KnownBox::Mdcv => "Mastering Display Color Volume Box",
            KnownBox::Clli => "Content Light Level Information Box",
            KnownBox::St3d => "Stereo 3D Box",
            KnownBox::Sv3d => "Spherical Video V2 Box",
            KnownBox::Proj => "Projection Box",
            KnownBox::Prhd => "Projection Header Box",
            KnownBox::Equi => "Equirectangular Projection Box",
            KnownBox::Cbmp => "Cube Map Projection Box",
            KnownBox::Xml => "XML Box",
            KnownBox::Bxml => "Binary XML Box",
            KnownBox::Ainf => "Asset Information Box",
            KnownBox::Leva => "Level Assignment Box",
            KnownBox::Trep => "Track Extension Properties Box",
            KnownBox::Srat => "Sampling Rate Box",
            KnownBox::Chnl => "Channel Layout Box",
            KnownBox::Pcmc => "PCM Configuration Box",
            KnownBox::Wave => "WAVE Configuration Box",
            KnownBox::Chan => "Audio Channel Layout Box",
            KnownBox::Tcmi => "Timecode Media Information Box",
            KnownBox::Pasp => "Pixel Aspect Ratio Box",
            KnownBox::Cslg => "Composition Shift Least Greatest Box",
            KnownBox::Cprt => "Copyright Box",
            KnownBox::Gama => "Gamma Box",
            KnownBox::Fiel => "Field Handling Box",
            KnownBox::Tapt => "Track Aperture Mode Dimensions Box",
            KnownBox::Iods => "Object Descriptor Box",
            KnownBox::Gsst => "Google Start Time Box",
            KnownBox::Gstd => "Google Track Duration Box",
            KnownBox::Gssd => "Google Source Data Box",
            KnownBox::Gspu => "Google Ping URL Box",
            KnownBox::Gspm => "Google Ping Message Box",
            KnownBox::Gshh => "Google Host Header Box",
            KnownBox::Apch => "Apple ProRes 422 HQ Sample Entry",
            KnownBox::Apcn => "Apple ProRes 422 Sample Entry",
            KnownBox::Apcs => "Apple ProRes 422 LT Sample Entry",
            KnownBox::Apco => "Apple ProRes 422 Proxy Sample Entry",
            KnownBox::Ap4h => "Apple ProRes 4444 Sample Entry",
            KnownBox::Ap4x => "Apple ProRes 4444 XQ Sample Entry",
            KnownBox::Uuid => "UUID Box",
            KnownBox::Unknown(_) => "Unknown Box",
        }
    }

    /// Human-readable name suitable for UI (e.g. "File Type Box").
    pub fn full_name(&self) -> (r: &'static str)
        ensures
            r == self.spec_full_name(),
    {
        match self {
            KnownBox::Ftyp => "File Type Box",
            KnownBox::Moov => "Movie Box",
            KnownBox::Mdat => "Media Data Box",
            KnownBox::Free => "Free Space Box",
            KnownBox::Skip => "Skip Box",
            KnownBox::Wide => "Wide Placeholder Box",
            KnownBox::Meta => "Metadata Box",
            KnownBox::Pssh => "Protection System Specific Header",
            KnownBox::Sidx => "Segment Index Box",
            KnownBox::Ssix => "Subsegment Index Box",
            KnownBox::Prft => "Producer Reference Time",
            KnownBox::Styp => "Segment Type Box",
            KnownBox::Emsg => "Event Message Box",
            KnownBox::Mfra => "Movie Fragment Random Access Box",
            KnownBox::Mfro => "Movie Fragment Random Access Offset Box",
            KnownBox::Pdin => "Progressive Download Information Box",
            KnownBox::Mvhd => "Movie Header Box",
            KnownBox::Trak => "Track Box",
            KnownBox::Mvex => "Movie Extends Box",
            KnownBox::Udta => "User Data Box",
            KnownBox::Tkhd => "Track Header Box",
            KnownBox::Edts => "Edit Box",
            KnownBox::Mdia => "Media Box",
            KnownBox::Tref => "Track Reference Box",
            KnownBox::Iprp => "Item Properties Box",
            KnownBox::Meco => "Additional Metadata Container Box",
            KnownBox::Ludt => "Track User Data Box",
            KnownBox::Elst => "Edit List Box",
            KnownBox::Mdhd => "Media Header Box",
            KnownBox::Hdlr => "Handler Reference Box",
            KnownBox::Minf => "Media Information Box",
            KnownBox::Vmhd => "Video Media Header Box",
            KnownBox::Smhd => "Sound Media Header Box",
            KnownBox::Hmhd => "Hint Media Header Box",
            KnownBox::Nmhd => "Null Media Header Box",
            KnownBox::Sthd => "Subtitle Media Header Box",
            KnownBox::Dinf => "Data Information Box",
            KnownBox::Stbl => "Sample Table Box",
            KnownBox::Gmhd => "Generic Media Header Box",
            KnownBox::Gmin => "Base Media Information Header Box",
            KnownBox::Glbl => "Global Sample Description Box",
            KnownBox::Kind => "Track Kind Box",
            KnownBox::Dref => "Data Reference Box",
            KnownBox::Stsd => "Sample Description Box",
            KnownBox::Stts => "Decoding Time-to-Sample Box",
            KnownBox::Ctts => "Composition Time-to-Sample Box",
            KnownBox::Stsc => "Sample-to-Chunk Box",
            KnownBox::Stsz => "Sample Size Box",
            KnownBox::Stz2 => "Compact Sample Size Box",
            KnownBox::Stco => "Chunk Offset Box",
            KnownBox::Co64 => "Chunk Offset (64-bit) Box",
            KnownBox::Stss => "Sync Sample Box",
            KnownBox::Stsh => "Shadow Sync Sample Box",
            KnownBox::Padb => "Padding Bits Box",
            KnownBox::Stdp => "Sample Degradation Priority Box",
            KnownBox::Sdtp => "Sample Dependency Flags Box",
            KnownBox::Sgpd => "Sample Group Description Box",
            KnownBox::Sbgp => "Sample-to-Group Box",
            KnownBox::Subs => "Sub-Sample Information Box",
            KnownBox::Mehd => "Movie Extends Header Box",
            KnownBox::Trex => "Track Extends Box",
            KnownBox::Moof => "Movie Fragment Box",
            KnownBox::Mfhd => "Movie Fragment Header Box",
            KnownBox::Traf => "Track Fragment Box",
            KnownBox::Tfhd => "Track Fragment Header Box",
            KnownBox::Tfdt => "Track Fragment Decode Time Box",
            KnownBox::Trun => "Track Fragment Run Box",
            KnownBox::Tfra => "Track Fragment Random Access Box",
            KnownBox::Iloc => "Item Location Box",
            KnownBox::Iinf => "Item Information Box",
            KnownBox::Infe => "Item Info Entry Box",
            KnownBox::Iref => "Item Reference Box",
            KnownBox::Ipco => "Item Property Container Box",
            KnownBox::Ipma => "Item Property Association Box",
            KnownBox::Ipci => "Item Property Container Info Box",
            KnownBox::Ispe => "Image Spatial Extents Property",
            KnownBox::Pixi => "Pixel Information Property",
            KnownBox::AuxC => "Auxiliary Type Property",
            KnownBox::Clap => "Clean Aperture Box",
            KnownBox::Colr => "Colour Information Box",
            KnownBox::Hvcc => "HEVC Decoder Configuration Box",
            KnownBox::Avcc => "AVC Decoder Configuration Box",
            KnownBox::Pitm => "Primary Item Box",
            KnownBox::Irot => "Image Rotation Box",
            KnownBox::Imir => "Image Mirror Box",
            KnownBox::Rloc => "Relative Location Box",
            KnownBox::Lsel => "Layer Selector Box",
            KnownBox::Tols => "Target Output Layer Set Box",
            KnownBox::A1lx => "AV1 Layer Extents Box",
            KnownBox::A1op => "AV1 Operating Point Selector Box",
            KnownBox::Idat => "Item Data Box",
            KnownBox::Ipro => "Item Protection Box",
            KnownBox::Sinf => "Protection Scheme Information Box",
            KnownBox::Schm => "Scheme Type Box",
            KnownBox::Schi => "Scheme Information Box",
            KnownBox::Tenc => "Track Encryption Box",
            KnownBox::Saio => "Sample Auxiliary Information Offsets Box",
            KnownBox::Saiz => "Sample Auxiliary Information Sizes Box",
            KnownBox::Senc => "Sample Encryption Box",
            KnownBox::Frma => "Original Format Box",
            KnownBox::Avc1 => "AVC Video Sample Entry",
            KnownBox::Avc2 => "AVC2 Video Sample Entry",
            KnownBox::Avc3 => "AVC3 Video Sample Entry",
            KnownBox::Avc4 => "AVC4 Video Sample Entry",
            KnownBox::Hev1 => "HEVC Video Sample Entry (hev1)",
            KnownBox::Hvc1 => "HEVC Video Sample Entry (hvc1)",
            KnownBox::Vvc1 => "VVC Video Sample Entry",
            KnownBox::Mp4v => "MPEG-4 Visual Sample Entry",
            KnownBox::Vp08 => "VP8 Video Sample Entry",
            KnownBox::Vp09 => "VP9 Video Sample Entry",
            KnownBox::Av01 => "AV1 Video Sample Entry",
            KnownBox::Dvh1 => "Dolby Vision HEVC Sample Entry (dvh1)",
            KnownBox::Dvhe => "Dolby Vision HEVC Sample Entry (dvhe)",
            KnownBox::Dav1 => "Dolby Vision AV1 Sample Entry",
            KnownBox::Tx3g => "3GPP Timed Text Sample Entry",
            KnownBox::Wvtt => "WebVTT Sample Entry",
            KnownBox::Stpp => "TTML Sample Entry",
            KnownBox::Tmcd => "Timecode Sample Entry",
            KnownBox::Encv => "Encrypted Video Sample Entry",
            KnownBox::Enca => "Encrypted Audio Sample Entry",
            KnownBox::Enct => "Encrypted Text Sample Entry",
            KnownBox::Ipcm => "In-band PCM Sample Entry",
            KnownBox::Fpcm => "Float PCM Sample Entry",
            KnownBox::Mp4a => "MPEG-4 Audio Sample Entry",
            KnownBox::Ac3 => "AC-3 Audio Sample Entry",
            KnownBox::Ec3 => "Enhanced AC-3 Audio Sample Entry",
            KnownBox::Opus => "Opus Audio Sample Entry",
            KnownBox::Samr => "AMR-NB Audio Sample Entry",
            KnownBox::Sawb => "AMR-WB Audio Sample Entry",
            KnownBox::Alac => "Apple Lossless Sample Entry",
            KnownBox::Flac => "FLAC Audio Sample Entry",
            KnownBox::Esds => "Elementary Stream Descriptor",
            KnownBox::Av1c => "AV1 Codec Configuration Box",
            KnownBox::Vpcc => "VP Codec Configuration Box",
            KnownBox::Dops => "Opus Specific Box",
            KnownBox::Dac3 => "AC-3 Bitstream Information Box",
            KnownBox::Dec3 => "Enhanced AC-3 Bitstream Information Box",
            KnownBox::Dfla => "FLAC Specific Box",
            KnownBox::Dvcc => "Dolby Vision Configuration Box",
            KnownBox::Btrt => "Bitrate Box",
            KnownBox::Ilst => "iTunes Metadata List",
            KnownBox::IlstData => "iTunes Metadata Value",
            KnownBox::Mean => "iTunes Reverse DNS Domain",
            KnownBox::IlstName => "iTunes Reverse DNS Name",
            KnownBox::Vttc => "WebVTT Configuration Box",
            KnownBox::Mdcv => "Mastering Display Color Volume Box",
            KnownBox::Clli => "Content Light Level Information Box",
            KnownBox::St3d => "Stereo 3D Box",
            KnownBox::Sv3d => "Spherical Video V2 Box",
            KnownBox::Proj => "Projection Box",
            KnownBox::Prhd => "Projection Header Box",
            KnownBox::Equi => "Equirectangular Projection Box",
            KnownBox::Cbmp => "Cube Map Projection Box",
            KnownBox::Xml => "XML Box",
            KnownBox::Bxml => "Binary XML Box",
            KnownBox::Ainf => "Asset Information Box",
            KnownBox::Leva => "Level Assignment Box",
            KnownBox::Trep => "Track Extension Properties Box",
            KnownBox::Srat => "Sampling Rate Box",
            KnownBox::Chnl => "Channel Layout Box",
            KnownBox::Pcmc => "PCM Configuration Box",
            KnownBox::Wave => "WAVE Configuration Box",
            KnownBox::Chan => "Audio Channel Layout Box",
            KnownBox::Tcmi => "Timecode Media Information Box",
            KnownBox::Pasp => "Pixel Aspect Ratio Box",
            KnownBox::Cslg => "Composition Shift Least Greatest Box",
            KnownBox::Cprt => "Copyright Box",
            KnownBox::Gama => "Gamma Box",
            KnownBox::Fiel => "Field Handling Box",
            KnownBox::Tapt => "Track Aperture Mode Dimensions Box",
            KnownBox::Iods => "Object Descriptor Box",
            KnownBox::Gsst => "Google Start Time Box",
            KnownBox::Gstd => "Google Track Duration Box",
            KnownBox::Gssd => "Google Source Data Box",
            KnownBox::Gspu => "Google Ping URL Box",
            KnownBox::Gspm => "Google Ping Message Box",
            KnownBox::Gshh => "Google Host Header Box",
            KnownBox::Apch => "Apple ProRes 422 HQ Sample Entry",
            KnownBox::Apcn => "Apple ProRes 422 Sample Entry",
            KnownBox::Apcs => "Apple ProRes 422 LT Sample Entry",
            KnownBox::Apco => "Apple ProRes 422 Proxy Sample Entry",
            KnownBox::Ap4h => "Apple ProRes 4444 Sample Entry",
            KnownBox::Ap4x => "Apple ProRes 4444 XQ Sample Entry",
            KnownBox::Uuid => "UUID Box",
            KnownBox::Unknown(_) => "Unknown Box",
        }
    }
}

impl From<FourCC> for KnownBox {
    fn from(cc: FourCC) -> (r: KnownBox) {
        KnownBox::from_fourcc(cc)
    }
}

impl vstd::std_specs::convert::FromSpecImpl<FourCC> for KnownBox {
    open spec fn obeys_from_spec() -> bool {
        true
    }

    open spec fn from_spec(cc: FourCC) -> KnownBox {
        KnownBox::spec_from(cc)
    }
}

} // verus!
