//! Per-sample information of a track, from the decoded sample tables of a
//! `trak` box: timing (stts, ctts), sizes (stsz/stz2), file offsets (stsc
//! with stco/co64) and sync flags (stss).

use vstd::prelude::*;
use vstd::string::StrSliceExecFns;
use crate::api::Box;
use crate::fragments::{full_fails, full_track, track_with_fragments};
use crate::registry::data::{
    Co64Data, CttsData, CttsEntry, StcoData, StscData, StssData, StsdData, StszData, StructuredData,
    SttsData, SttsEntry,
};

verus! {

// ---------- finding boxes ----------

/// A box type spelled by four characters.
pub open spec fn typ4(a: char, b: char, c: char, d: char) -> Seq<char> {
    seq![a, b, c, d]
}

/// Whether a string is the four given characters.
pub fn typ_is(s: &String, a: char, b: char, c: char, d: char) -> (r: bool)
    ensures
        r == (s@ == typ4(a, b, c, d)),
{
    let t = s.as_str();
    if t.unicode_len() != 4 {
        return false;
    }
    let r = t.get_char(0) == a && t.get_char(1) == b && t.get_char(2) == c && t.get_char(3) == d;
    proof {
        if r {
            assert(s@ =~= typ4(a, b, c, d));
        }
    }
    r
}

/// The track ID of the first `tkhd` child from index `i` on that carries a
/// decoded track header.
pub open spec fn first_track_id(kids: Seq<Box>, i: int) -> Option<u32>
    decreases kids.len() - i,
{
    if i < 0 || i >= kids.len() {
        None
    } else if kids[i].typ@ == typ4('t', 'k', 'h', 'd') && kids[i].structured_data matches Some(
        StructuredData::TrackHeader(_),
    ) {
        match kids[i].structured_data {
            Some(StructuredData::TrackHeader(d)) => Some(d.track_id),
            _ => None,
        }
    } else {
        first_track_id(kids, i + 1)
    }
}

/// The track ID of a track: from its first `tkhd` child with a decoded
/// track header.
pub open spec fn spec_track_id(trak: Box) -> Option<u32> {
    match trak.children {
        Some(kids) => first_track_id(kids@, 0),
        None => None,
    }
}

/// Finds a track's ID in its decoded `tkhd` child.
pub fn find_track_id(trak_box: &Box) -> (r: Result<u32, String>)
    ensures
        match spec_track_id(*trak_box) {
            Some(id) => r == Ok::<u32, String>(id),
            None => r matches Err(m) && m@ == "No tkhd box found or track ID could not be parsed"@,
        },
{
    match &trak_box.children {
        Some(kids) => {
            let mut i: usize = 0;
            while i < kids.len()
                invariant
                    i <= kids@.len(),
                    trak_box.children == Some(*kids),
                    first_track_id(kids@, 0) == first_track_id(kids@, i as int),
                decreases kids@.len() - i,
            {
                let c = &kids[i];
                if typ_is(&c.typ, 't', 'k', 'h', 'd') {
                    match &c.structured_data {
                        Some(StructuredData::TrackHeader(d)) => {
                            return Ok(d.track_id);
                        },
                        _ => {},
                    }
                }
                i = i + 1;
            }
        },
        None => {},
    }
    Err("No tkhd box found or track ID could not be parsed".to_owned())
}

/// Index of the first child from `i` on of type `t` that has children.
pub open spec fn first_parent(kids: Seq<Box>, t: Seq<char>, i: int) -> Option<int>
    decreases kids.len() - i,
{
    if i < 0 || i >= kids.len() {
        None
    } else if kids[i].typ@ == t && kids[i].children is Some {
        Some(i)
    } else {
        first_parent(kids, t, i + 1)
    }
}

fn find_parent(kids: &Vec<Box>, a: char, b: char, c: char, d: char) -> (r: Option<usize>)
    ensures
        match first_parent(kids@, typ4(a, b, c, d), 0) {
            Some(j) => r matches Some(x) && x == j,
            None => r is None,
        },
        r matches Some(j) ==> j < kids@.len() && kids@[j as int].children is Some,
{
    let mut i: usize = 0;
    while i < kids.len()
        invariant
            i <= kids@.len(),
            first_parent(kids@, typ4(a, b, c, d), 0) == first_parent(kids@, typ4(a, b, c, d), i as int),
        decreases kids@.len() - i,
    {
        if typ_is(&kids[i].typ, a, b, c, d) && kids[i].children.is_some() {
            return Some(i);
        }
        i = i + 1;
    }
    None
}

/// The handler type, timescale and duration a media box's children give,
/// from `i` on, over the defaults given; the last `mdhd` and `hdlr` win.
pub open spec fn media_fields(kids: Seq<Box>, i: int, acc: (Seq<char>, u32, u64)) -> (Seq<char>, u32, u64)
    decreases kids.len() - i,
{
    if i < 0 || i >= kids.len() {
        acc
    } else {
        let k = kids[i];
        let a1 = if k.typ@ == typ4('m', 'd', 'h', 'd') {
            match k.structured_data {
                Some(StructuredData::MediaHeader(m)) => (acc.0, m.timescale, m.duration),
                _ => acc,
            }
        } else {
            acc
        };
        let a2 = if k.typ@ == typ4('h', 'd', 'l', 'r') {
            match k.structured_data {
                Some(StructuredData::HandlerReference(h)) => (h.handler_type@, a1.1, a1.2),
                _ => a1,
            }
        } else {
            a1
        };
        media_fields(kids, i + 1, a2)
    }
}

/// Handler type, timescale and duration of a track: from its first `mdia`
/// child with children, defaulting to `vide`, 1000 and 0.
pub open spec fn spec_media_info(trak: Box) -> (Seq<char>, u32, u64) {
    let dflt = ("vide"@, 1000u32, 0u64);
    match trak.children {
        Some(kids) => match first_parent(kids@, typ4('m', 'd', 'i', 'a'), 0) {
            Some(j) => media_fields(kids@[j].children.unwrap()@, 0, dflt),
            None => dflt,
        },
        None => dflt,
    }
}

/// Finds a track's handler type, timescale and duration.
pub fn find_media_info(trak_box: &Box) -> (r: (String, u32, u64))
    ensures
        (r.0@, r.1, r.2) == spec_media_info(*trak_box),
{
    let mut handler_type = "vide".to_owned();
    let mut timescale: u32 = 1000;
    let mut duration: u64 = 0;
    let kids = match &trak_box.children {
        Some(k) => k,
        None => return (handler_type, timescale, duration),
    };
    let j = match find_parent(kids, 'm', 'd', 'i', 'a') {
        Some(j) => j,
        None => return (handler_type, timescale, duration),
    };
    let mk = match &kids[j].children {
        Some(m) => m,
        None => return (handler_type, timescale, duration),
    };
    let ghost dflt = ("vide"@, 1000u32, 0u64);
    let mut i: usize = 0;
    while i < mk.len()
        invariant
            i <= mk@.len(),
            media_fields(mk@, 0, dflt) == media_fields(mk@, i as int, (handler_type@, timescale, duration)),
        decreases mk@.len() - i,
    {
        let k = &mk[i];
        if typ_is(&k.typ, 'm', 'd', 'h', 'd') {
            match &k.structured_data {
                Some(StructuredData::MediaHeader(m)) => {
                    timescale = m.timescale;
                    duration = m.duration;
                },
                _ => {},
            }
        }
        if typ_is(&k.typ, 'h', 'd', 'l', 'r') {
            match &k.structured_data {
                Some(StructuredData::HandlerReference(h)) => {
                    handler_type = h.handler_type.clone();
                },
                _ => {},
            }
        }
        i = i + 1;
    }
    (handler_type, timescale, duration)
}

/// Index of the first `stbl` child of the first `minf` child (with
/// children) from `i` on among an `mdia` box's children.
pub open spec fn stbl_in_minfs(kids: Seq<Box>, i: int) -> Option<(int, int)>
    decreases kids.len() - i,
{
    if i < 0 || i >= kids.len() {
        None
    } else if kids[i].typ@ == typ4('m', 'i', 'n', 'f') && kids[i].children is Some {
        match first_typ(kids[i].children.unwrap()@, typ4('s', 't', 'b', 'l'), 0) {
            Some(s) => Some((i, s)),
            None => stbl_in_minfs(kids, i + 1),
        }
    } else {
        stbl_in_minfs(kids, i + 1)
    }
}

/// Index of the first child from `i` on of type `t`.
pub open spec fn first_typ(kids: Seq<Box>, t: Seq<char>, i: int) -> Option<int>
    decreases kids.len() - i,
{
    if i < 0 || i >= kids.len() {
        None
    } else if kids[i].typ@ == t {
        Some(i)
    } else {
        first_typ(kids, t, i + 1)
    }
}

/// Path to the first `stbl` under `mdia`/`minf`, searching every `mdia`
/// and `minf` with children in order: (mdia index, minf index, stbl
/// index).
pub open spec fn stbl_path(kids: Seq<Box>, i: int) -> Option<(int, int, int)>
    decreases kids.len() - i,
{
    if i < 0 || i >= kids.len() {
        None
    } else if kids[i].typ@ == typ4('m', 'd', 'i', 'a') && kids[i].children is Some {
        match stbl_in_minfs(kids[i].children.unwrap()@, 0) {
            Some((m, s)) => Some((i, m, s)),
            None => stbl_path(kids, i + 1),
        }
    } else {
        stbl_path(kids, i + 1)
    }
}

/// The `stbl` box a track's path leads to, if any.
pub open spec fn spec_stbl(trak: Box) -> Option<Box> {
    match trak.children {
        Some(kids) => match stbl_path(kids@, 0) {
            Some((a, b, c)) => Some(
                kids@[a].children.unwrap()@[b].children.unwrap()@[c],
            ),
            None => None,
        },
        None => None,
    }
}

fn find_typ(kids: &Vec<Box>, a: char, b: char, c: char, d: char) -> (r: Option<usize>)
    ensures
        match first_typ(kids@, typ4(a, b, c, d), 0) {
            Some(j) => r matches Some(x) && x == j,
            None => r is None,
        },
        r matches Some(j) ==> j < kids@.len(),
{
    let mut i: usize = 0;
    while i < kids.len()
        invariant
            i <= kids@.len(),
            first_typ(kids@, typ4(a, b, c, d), 0) == first_typ(kids@, typ4(a, b, c, d), i as int),
        decreases kids@.len() - i,
    {
        if typ_is(&kids[i].typ, a, b, c, d) {
            return Some(i);
        }
        i = i + 1;
    }
    None
}

fn find_in_minfs(kids: &Vec<Box>) -> (r: Option<&Box>)
    ensures
        match stbl_in_minfs(kids@, 0) {
            Some((m, s)) => r == Some(&kids@[m].children.unwrap()@[s]),
            None => r is None,
        },
{
    let mut i: usize = 0;
    while i < kids.len()
        invariant
            i <= kids@.len(),
            stbl_in_minfs(kids@, 0) == stbl_in_minfs(kids@, i as int),
        decreases kids@.len() - i,
    {
        if typ_is(&kids[i].typ, 'm', 'i', 'n', 'f') {
            match &kids[i].children {
                Some(mk) => match find_typ(mk, 's', 't', 'b', 'l') {
                    Some(s) => {
                        return Some(&mk[s]);
                    },
                    None => {},
                },
                None => {},
            }
        }
        i = i + 1;
    }
    None
}

/// Finds a track's sample table box under `mdia`/`minf`.
pub fn find_stbl_box(trak_box: &Box) -> (r: Result<&Box, String>)
    ensures
        match spec_stbl(*trak_box) {
            Some(b) => r matches Ok(x) && *x == b,
            None => r matches Err(m) && m@ == "stbl box not found"@,
        },
{
    match &trak_box.children {
        Some(kids) => {
            let mut i: usize = 0;
            while i < kids.len()
                invariant
                    i <= kids@.len(),
                    trak_box.children == Some(*kids),
                    stbl_path(kids@, 0) == stbl_path(kids@, i as int),
                decreases kids@.len() - i,
            {
                if typ_is(&kids[i].typ, 'm', 'd', 'i', 'a') {
                    match &kids[i].children {
                        Some(mk) => match find_in_minfs(mk) {
                            Some(s) => {
                                return Ok(s);
                            },
                            None => {},
                        },
                        None => {},
                    }
                }
                i = i + 1;
            }
        },
        None => {},
    }
    Err("stbl box not found".to_owned())
}

// ---------- sample tables ----------

/// The decoded sample tables of a track; each is the last of its kind
/// among the `stbl` box's children.
#[derive(Debug, Clone, Copy)]
pub struct SampleTables<'a> {
    pub stsd: Option<&'a StsdData>,
    pub stts: Option<&'a SttsData>,
    pub ctts: Option<&'a CttsData>,
    pub stsc: Option<&'a StscData>,
    pub stsz: Option<&'a StszData>,
    pub stss: Option<&'a StssData>,
    pub stco: Option<&'a StcoData>,
    pub co64: Option<&'a Co64Data>,
}

/// `t` updated with the structured value of one child.
pub open spec fn with_table<'a>(t: SampleTables<'a>, d: &'a Option<StructuredData>) -> SampleTables<'a> {
    match d {
        Some(StructuredData::SampleDescription(x)) => SampleTables { stsd: Some(x), ..t },
        Some(StructuredData::DecodingTimeToSample(x)) => SampleTables { stts: Some(x), ..t },
        Some(StructuredData::CompositionTimeToSample(x)) => SampleTables { ctts: Some(x), ..t },
        Some(StructuredData::SampleToChunk(x)) => SampleTables { stsc: Some(x), ..t },
        Some(StructuredData::SampleSize(x)) => SampleTables { stsz: Some(x), ..t },
        Some(StructuredData::SyncSample(x)) => SampleTables { stss: Some(x), ..t },
        Some(StructuredData::ChunkOffset(x)) => SampleTables { stco: Some(x), ..t },
        Some(StructuredData::ChunkOffset64(x)) => SampleTables { co64: Some(x), ..t },
        _ => t,
    }
}

/// The tables of the children from `i` on, applied in order over `t`.
pub open spec fn tables_from<'a>(kids: Seq<Box>, i: int, t: SampleTables<'a>) -> SampleTables<'a>
    decreases kids.len() - i,
{
    if i < 0 || i >= kids.len() {
        t
    } else {
        tables_from(kids, i + 1, with_table(t, &kids[i].structured_data))
    }
}

pub open spec fn no_tables<'a>() -> SampleTables<'a> {
    SampleTables {
        stsd: None,
        stts: None,
        ctts: None,
        stsc: None,
        stsz: None,
        stss: None,
        stco: None,
        co64: None,
    }
}

/// The sample tables of an `stbl` box.
pub open spec fn spec_tables<'a>(stbl: &'a Box) -> SampleTables<'a> {
    match stbl.children {
        Some(kids) => tables_from(kids@, 0, no_tables()),
        None => no_tables(),
    }
}

/// Collects the decoded sample tables among an `stbl` box's children.
pub fn extract_sample_tables<'a>(stbl_box: &'a Box) -> (r: SampleTables<'a>)
    ensures
        r == spec_tables(stbl_box),
{
    let mut t = SampleTables {
        stsd: None,
        stts: None,
        ctts: None,
        stsc: None,
        stsz: None,
        stss: None,
        stco: None,
        co64: None,
    };
    match &stbl_box.children {
        Some(kids) => {
            let mut i: usize = 0;
            while i < kids.len()
                invariant
                    i <= kids@.len(),
                    tables_from(kids@, 0, no_tables()) == tables_from(kids@, i as int, t),
                decreases kids@.len() - i,
            {
                match &kids[i].structured_data {
                    Some(StructuredData::SampleDescription(x)) => t.stsd = Some(x),
                    Some(StructuredData::DecodingTimeToSample(x)) => t.stts = Some(x),
                    Some(StructuredData::CompositionTimeToSample(x)) => t.ctts = Some(x),
                    Some(StructuredData::SampleToChunk(x)) => t.stsc = Some(x),
                    Some(StructuredData::SampleSize(x)) => t.stsz = Some(x),
                    Some(StructuredData::SyncSample(x)) => t.stss = Some(x),
                    Some(StructuredData::ChunkOffset(x)) => t.stco = Some(x),
                    Some(StructuredData::ChunkOffset64(x)) => t.co64 = Some(x),
                    _ => {},
                }
                i = i + 1;
            }
            t
        },
        None => t,
    }
}

// ---------- file offsets ----------

/// Size of sample `n`: the fixed size, or its entry in the size table (0
/// past its end).
pub open spec fn size_of(z: &StszData, n: int) -> nat {
    if z.sample_size > 0 {
        z.sample_size as nat
    } else if 0 <= n < z.sample_sizes@.len() {
        z.sample_sizes@[n] as nat
    } else {
        0
    }
}

/// Number of chunks: from co64 when present, else stco.
pub open spec fn chunk_count(t: SampleTables) -> int {
    match t.co64 {
        Some(c) => c.chunk_offsets@.len() as int,
        None => match t.stco {
            Some(c) => c.chunk_offsets@.len() as int,
            None => 0,
        },
    }
}

/// File offset of chunk `c` (0-based).
pub open spec fn chunk_base(t: SampleTables, c: int) -> int {
    match t.co64 {
        Some(x) => x.chunk_offsets@[c] as int,
        None => match t.stco {
            Some(x) => x.chunk_offsets@[c] as int,
            None => 0,
        },
    }
}

/// 0-based first chunk of a sample-to-chunk entry (a stored 0 counts as 1).
pub open spec fn first_of(e: crate::registry::data::StscEntry) -> int {
    if e.first_chunk == 0 {
        0
    } else {
        e.first_chunk - 1
    }
}

/// Chunk after the last one entry `i` covers.
pub open spec fn end_of(t: SampleTables, e: Seq<crate::registry::data::StscEntry>, i: int) -> int {
    let nf = if i + 1 < e.len() {
        first_of(e[i + 1])
    } else {
        chunk_count(t)
    };
    if nf < chunk_count(t) {
        nf
    } else {
        chunk_count(t)
    }
}

/// State of the walk over chunks that assigns file offsets to samples:
/// the next sample, the offsets so far, whether every sample has one, and
/// whether no offset overflowed.
pub struct Walk {
    pub s: nat,
    pub acc: Seq<u64>,
    pub stop: bool,
    pub ok: bool,
}

/// The samples of one chunk: each gets the chunk's running offset, which
/// then grows by its size.
pub open spec fn in_chunk(z: &StszData, spc: nat, k: nat, w: Walk, off: int) -> Walk
    decreases spc - k,
{
    if k >= spc || w.stop || !w.ok {
        w
    } else if w.s >= z.sample_count {
        Walk { stop: true, ..w }
    } else {
        let off2 = off + size_of(z, w.s as int);
        in_chunk(
            z,
            spc,
            k + 1,
            Walk { s: w.s + 1, acc: w.acc.push(off as u64), ok: off2 <= u64::MAX, ..w },
            off2,
        )
    }
}

/// The chunks `c..end` of sample-to-chunk entry `i`.
pub open spec fn in_entry(
    t: SampleTables,
    z: &StszData,
    e: Seq<crate::registry::data::StscEntry>,
    i: int,
    c: int,
    end: int,
    w: Walk,
) -> Walk
    decreases end - c,
{
    if c >= end || w.stop || !w.ok {
        w
    } else {
        in_entry(t, z, e, i, c + 1, end, in_chunk(z, e[i].samples_per_chunk as nat, 0, w, chunk_base(t, c)))
    }
}

/// The sample-to-chunk entries from `i` on.
pub open spec fn in_entries(t: SampleTables, z: &StszData, e: Seq<crate::registry::data::StscEntry>, i: int, w: Walk) -> Walk
    decreases e.len() - i,
{
    if i < 0 || i >= e.len() || w.stop || !w.ok {
        w
    } else {
        in_entries(t, z, e, i + 1, in_entry(t, z, e, i, first_of(e[i]), end_of(t, e, i), w))
    }
}

pub open spec fn walk_start() -> Walk {
    Walk { s: 0, acc: Seq::empty(), stop: false, ok: true }
}

/// The whole walk over the sample-to-chunk table.
pub open spec fn offsets_walk(t: SampleTables, z: &StszData) -> Walk {
    match t.stsc {
        Some(sc) => in_entries(t, z, sc.entries@, 0, walk_start()),
        None => walk_start(),
    }
}

/// No chunk's running offset overflows 64 bits.
pub open spec fn offsets_fit(t: SampleTables) -> bool {
    match t.stsz {
        Some(z) => offsets_walk(t, z).ok,
        None => true,
    }
}

/// File offset of sample `n`; 0 for samples the tables do not place.
pub open spec fn file_offset(t: SampleTables, z: &StszData, n: int) -> u64 {
    let w = offsets_walk(t, z);
    if 0 <= n < w.acc.len() {
        w.acc[n]
    } else {
        0
    }
}

fn size_exec(z: &StszData, n: u32) -> (r: u32)
    ensures
        r == size_of(z, n as int),
{
    if z.sample_size > 0 {
        z.sample_size
    } else if (n as usize) < z.sample_sizes.len() {
        z.sample_sizes[n as usize]
    } else {
        0
    }
}

fn chunk_count_exec(t: &SampleTables) -> (r: usize)
    ensures
        r == chunk_count(*t),
{
    match t.co64 {
        Some(c) => c.chunk_offsets.len(),
        None => match t.stco {
            Some(c) => c.chunk_offsets.len(),
            None => 0,
        },
    }
}

fn chunk_base_exec(t: &SampleTables, c: usize) -> (r: u64)
    requires
        c < chunk_count(*t),
    ensures
        r == chunk_base(*t, c as int),
{
    match t.co64 {
        Some(x) => x.chunk_offsets[c],
        None => match t.stco {
            Some(x) => x.chunk_offsets[c] as u64,
            None => 0,
        },
    }
}

fn first_of_exec(e: &crate::registry::data::StscEntry) -> (r: usize)
    ensures
        r == first_of(*e),
{
    if e.first_chunk == 0 {
        0
    } else {
        (e.first_chunk - 1) as usize
    }
}

/// Assigns the samples of one chunk their offsets; `false` when a running
/// offset overflows.
fn walk_chunk(z: &StszData, spc: u32, acc: &mut Vec<u64>, s: &mut u32, stop: &mut bool, base: u64) -> (ok: bool)
    requires
        !*old(stop),
        *old(s) == old(acc)@.len(),
        *old(s) <= z.sample_count,
    ensures
        in_chunk(z, spc as nat, 0, Walk { s: *old(s) as nat, acc: old(acc)@, stop: false, ok: true }, base as int)
            == (Walk { s: *final(s) as nat, acc: final(acc)@, stop: *final(stop), ok }),
        *final(s) == final(acc)@.len(),
        *final(s) <= z.sample_count,
{
    let ghost w0 = Walk { s: *s as nat, acc: acc@, stop: false, ok: true };
    let mut off: u64 = base;
    let mut k: u32 = 0;
    while k < spc && !*stop
        invariant
            w0 == (Walk { s: *old(s) as nat, acc: old(acc)@, stop: false, ok: true }),
            k <= spc,
            *s == acc@.len(),
            *s <= z.sample_count,
            in_chunk(z, spc as nat, 0, w0, base as int) == in_chunk(
                z,
                spc as nat,
                k as nat,
                Walk { s: *s as nat, acc: acc@, stop: *stop, ok: true },
                off as int,
            ),
        decreases spc - k + if *stop {
            0int
        } else {
            1int
        },
    {
        if *s >= z.sample_count {
            *stop = true;
        } else {
            let sz = size_exec(z, *s);
            if sz as u64 > u64::MAX - off {
                let ghost w = Walk { s: *s as nat, acc: acc@, stop: false, ok: true };
                let ghost nw = Walk { s: w.s + 1, acc: w.acc.push(off), ok: off + sz <= u64::MAX, ..w };
                proof {
                    assert(in_chunk(z, spc as nat, k as nat, w, off as int) == in_chunk(
                        z,
                        spc as nat,
                        (k + 1) as nat,
                        nw,
                        off + sz,
                    ));
                    assert(in_chunk(z, spc as nat, (k + 1) as nat, nw, off + sz) == nw);
                }
                acc.push(off);
                *s = *s + 1;
                assert(nw == (Walk { s: *s as nat, acc: acc@, stop: *stop, ok: false }));
                return false;
            }
            acc.push(off);
            off = off + sz as u64;
            *s = *s + 1;
            k = k + 1;
        }
    }
    true
}

/// File offsets of all samples, from the sample-to-chunk walk; `None` when
/// a chunk's running offset overflows 64 bits.
pub fn file_offsets(t: &SampleTables, z: &StszData) -> (r: Option<Vec<u64>>)
    requires
        t.stsz == Some(z),
    ensures
        r is Some <==> offsets_fit(*t),
        r matches Some(v) ==> v@.len() == z.sample_count && forall|n: int|
            0 <= n < z.sample_count ==> #[trigger] v@[n] == file_offset(*t, z, n),
{
    let mut acc: Vec<u64> = Vec::new();
    let mut s: u32 = 0;
    let mut stop = false;
    let nc = chunk_count_exec(t);
    match t.stsc {
        Some(sc) => {
            let e = &sc.entries;
            let mut i: usize = 0;
            while i < e.len() && !stop
                invariant
                    i <= e@.len(),
                    nc == chunk_count(*t),
                    t.stsz == Some(z),
                    t.stsc == Some(sc),
                    e == &sc.entries,
                    s == acc@.len(),
                    s <= z.sample_count,
                    offsets_walk(*t, z) == in_entries(*t, z, e@, i as int, Walk { s: s as nat, acc: acc@, stop, ok: true }),
                decreases e@.len() - i,
            {
                let first = first_of_exec(&e[i]);
                let nf = if i + 1 < e.len() {
                    first_of_exec(&e[i + 1])
                } else {
                    nc
                };
                let end = if nf < nc {
                    nf
                } else {
                    nc
                };
                let mut c = first;
                while c < end && !stop
                    invariant
                        i < e@.len(),
                        t.stsz == Some(z),
                        end == end_of(*t, e@, i as int),
                        end <= nc,
                        nc == chunk_count(*t),
                        s == acc@.len(),
                        s <= z.sample_count,
                        offsets_walk(*t, z) == in_entries(*t, z, e@, i + 1, in_entry(*t, z, e@, i as int, c as int, end as int, Walk { s: s as nat, acc: acc@, stop, ok: true })),
                    decreases end - c,
                {
                    let base = chunk_base_exec(t, c);
                    let ghost wb = Walk { s: s as nat, acc: acc@, stop, ok: true };
                    let ok = walk_chunk(z, e[i].samples_per_chunk, &mut acc, &mut s, &mut stop, base);
                    if !ok {
                        proof {
                            let wc = Walk { s: s as nat, acc: acc@, stop, ok: false };
                            assert(in_entry(*t, z, e@, i as int, c as int, end as int, wb) == in_entry(
                                *t,
                                z,
                                e@,
                                i as int,
                                c + 1,
                                end as int,
                                wc,
                            ));
                            assert(in_entry(*t, z, e@, i as int, c + 1, end as int, wc) == wc);
                            assert(in_entries(*t, z, e@, i + 1, wc) == wc);
                        }
                        return None;
                    }
                    c = c + 1;
                }
                proof {
                    let w = Walk { s: s as nat, acc: acc@, stop, ok: true };
                    assert(in_entry(*t, z, e@, i as int, c as int, end as int, w) == w);
                }
                i = i + 1;
            }
            proof {
                let w = Walk { s: s as nat, acc: acc@, stop, ok: true };
                assert(in_entries(*t, z, e@, i as int, w) == w);
            }
        },
        None => {},
    }
    let ghost placed = acc@.len();
    while s < z.sample_count
        invariant
            placed <= s <= z.sample_count,
            acc@.len() == s,
            offsets_walk(*t, z).acc.len() == placed,
            forall|n: int| 0 <= n < placed ==> #[trigger] acc@[n] == offsets_walk(*t, z).acc[n],
            forall|n: int| placed <= n < s ==> #[trigger] acc@[n] == 0,
        decreases z.sample_count - s,
    {
        acc.push(0);
        s = s + 1;
    }
    assert forall|n: int| 0 <= n < z.sample_count implies #[trigger] acc@[n] == file_offset(*t, z, n) by {
        if n < placed {
            assert(acc@[n] == offsets_walk(*t, z).acc[n]);
        } else {
            assert(acc@[n] == 0);
        }
    }
    Some(acc)
}

// ---------- timing ----------

/// Index of the run-length entry covering position `n`, counting from
/// entry `j`; `None` past the last entry.
pub open spec fn run_at(counts: Seq<nat>, j: int, n: int) -> Option<int>
    decreases counts.len() - j,
{
    if j < 0 || j >= counts.len() {
        None
    } else if n < counts[j] {
        Some(j)
    } else {
        run_at(counts, j + 1, n - counts[j])
    }
}

pub open spec fn stts_counts(es: Seq<SttsEntry>) -> Seq<nat> {
    es.map_values(|e: SttsEntry| e.sample_count as nat)
}

pub open spec fn ctts_counts(es: Seq<CttsEntry>) -> Seq<nat> {
    es.map_values(|e: CttsEntry| e.sample_count as nat)
}

pub open spec fn stts_entries(t: SampleTables) -> Seq<SttsEntry> {
    match t.stts {
        Some(x) => x.entries@,
        None => Seq::empty(),
    }
}

pub open spec fn ctts_entries(t: SampleTables) -> Seq<CttsEntry> {
    match t.ctts {
        Some(x) => x.entries@,
        None => Seq::empty(),
    }
}

/// Duration of sample `n`: its stts run's delta, or past the table the
/// last delta (0 without one).
pub open spec fn duration_of(t: SampleTables, n: int) -> u32 {
    let es = stts_entries(t);
    match run_at(stts_counts(es), 0, n) {
        Some(j) => es[j].sample_delta,
        None => if es.len() > 0 {
            es.last().sample_delta
        } else {
            0
        },
    }
}

/// Composition offset of sample `n`: its ctts run's offset, or 0.
pub open spec fn composition_of(t: SampleTables, n: int) -> i32 {
    let es = ctts_entries(t);
    match run_at(ctts_counts(es), 0, n) {
        Some(j) => es[j].sample_offset,
        None => 0,
    }
}

/// Decode time of sample `n`: the durations of the samples before it.
pub open spec fn dts_of(t: SampleTables, n: nat) -> nat
    decreases n,
{
    if n == 0 {
        0
    } else {
        dts_of(t, (n - 1) as nat) + duration_of(t, n - 1) as nat
    }
}

/// `dts + off`, clamped to the range of `u64` (`saturating_add_signed`).
pub open spec fn sat_add_signed(dts: int, off: int) -> int {
    if dts + off < 0 {
        0
    } else if dts + off > u64::MAX {
        u64::MAX as int
    } else {
        dts + off
    }
}

/// Whether sample `n` is a sync sample: listed (1-based) in stss, or every
/// sample when there is no stss.
pub open spec fn is_sync_of(t: SampleTables, n: int) -> bool {
    match t.stss {
        Some(x) => x.sample_numbers@.contains((n + 1) as u32),
        None => true,
    }
}

/// Information about one sample of a track.
#[derive(Debug, Clone, Copy)]
pub struct SampleInfo {
    /// 0-based sample index
    pub index: u32,
    /// Decode time (DTS) in track timescale units
    pub dts: u64,
    /// Presentation time (PTS): DTS plus the composition offset
    pub pts: u64,
    /// Duration in track timescale units (from stts)
    pub duration: u32,
    /// Composition offset in track timescale units (from ctts, may be 0)
    pub rendered_offset: i64,
    /// Byte offset in the file (from stsc + stco/co64)
    pub file_offset: u64,
    /// Sample size in bytes (from stsz)
    pub size: u32,
    /// Whether this sample is a sync sample / keyframe (from stss)
    pub is_sync: bool,
}

/// `si` describes sample `n` of the tables.
pub open spec fn sample_is(si: SampleInfo, t: SampleTables, z: &StszData, n: int) -> bool {
    &&& si.index == n
    &&& si.dts == dts_of(t, n as nat)
    &&& si.pts == sat_add_signed(dts_of(t, n as nat) as int, composition_of(t, n) as int)
    &&& si.duration == duration_of(t, n)
    &&& si.rendered_offset == composition_of(t, n) as i64
    &&& si.file_offset == file_offset(t, z, n)
    &&& si.size == size_of(z, n)
    &&& si.is_sync == is_sync_of(t, n)
}

/// Run-length cursor: `idx` is the current entry, `used` the positions of
/// it already consumed; for every `d`, position `n + d` of the table is
/// covered as position `used + d` counting from `idx`.
pub open spec fn cursor_at(counts: Seq<nat>, idx: int, used: int, n: int) -> bool {
    &&& 0 <= idx <= counts.len()
    &&& 0 <= used
    &&& idx < counts.len() ==> used <= counts[idx]
    &&& forall|d: int| #![trigger run_at(counts, 0, n + d)] d >= 0 ==> run_at(counts, 0, n + d) == run_at(counts, idx, used + d)
}

/// Advances a run-length cursor by one position; returns the covering
/// entry.
fn cursor_next(counts: Ghost<Seq<nat>>, cnt: &Vec<u32>, idx: &mut usize, used: &mut u32, Ghost(n): Ghost<int>) -> (r: Option<usize>)
    requires
        counts@.len() == cnt@.len(),
        forall|k: int| 0 <= k < cnt@.len() ==> counts@[k] == cnt@[k] as nat,
        cursor_at(counts@, *old(idx) as int, *old(used) as int, n),
    ensures
        cursor_at(counts@, *final(idx) as int, *final(used) as int, n + 1),
        match run_at(counts@, 0, n) {
            Some(j) => r matches Some(x) && x == j,
            None => r is None,
        },
        r matches Some(x) ==> x < cnt@.len(),
{
    let ghost i0 = *idx;
    let ghost u0 = *used;
    while *idx < cnt.len()
        invariant
            counts@.len() == cnt@.len(),
            forall|k: int| 0 <= k < cnt@.len() ==> counts@[k] == cnt@[k] as nat,
            cursor_at(counts@, *idx as int, *used as int, n),
        decreases cnt@.len() - *idx,
    {
        if *used < cnt[*idx] {
            proof {
                assert(run_at(counts@, 0, n + 0) == run_at(counts@, *idx as int, *used + 0));
                assert forall|d: int| #![trigger run_at(counts@, 0, n + 1 + d)] d >= 0 implies run_at(counts@, 0, n + 1 + d) == run_at(counts@, *idx as int, *used + 1 + d) by {
                    assert(run_at(counts@, 0, n + (1 + d)) == run_at(counts@, *idx as int, *used + (1 + d)));
                }
            }
            *used = *used + 1;
            return Some(*idx);
        }
        proof {
            assert forall|d: int| #![trigger run_at(counts@, 0, n + d)] d >= 0 implies run_at(counts@, 0, n + d) == run_at(counts@, *idx + 1, 0 + d) by {
                assert(run_at(counts@, 0, n + d) == run_at(counts@, *idx as int, *used + d));
            }
        }
        *idx = *idx + 1;
        *used = 0;
    }
    proof {
        assert(run_at(counts@, 0, n + 0) == run_at(counts@, *idx as int, *used + 0));
        assert forall|d: int| #![trigger run_at(counts@, 0, n + 1 + d)] d >= 0 implies run_at(counts@, 0, n + 1 + d) == run_at(counts@, *idx as int, *used + d) by {
            assert(run_at(counts@, 0, n + (1 + d)) == run_at(counts@, *idx as int, *used + (1 + d)));
        }
    }
    None
}

fn stts_count_vec(es: &Vec<SttsEntry>) -> (r: Vec<u32>)
    ensures
        r@.len() == es@.len(),
        forall|k: int| 0 <= k < es@.len() ==> r@[k] == es@[k].sample_count,
{
    let mut v: Vec<u32> = Vec::new();
    let mut i: usize = 0;
    while i < es.len()
        invariant
            i <= es@.len(),
            v@.len() == i,
            forall|k: int| 0 <= k < i ==> v@[k] == es@[k].sample_count,
        decreases es@.len() - i,
    {
        v.push(es[i].sample_count);
        i = i + 1;
    }
    v
}

fn ctts_count_vec(es: &Vec<CttsEntry>) -> (r: Vec<u32>)
    ensures
        r@.len() == es@.len(),
        forall|k: int| 0 <= k < es@.len() ==> r@[k] == es@[k].sample_count,
{
    let mut v: Vec<u32> = Vec::new();
    let mut i: usize = 0;
    while i < es.len()
        invariant
            i <= es@.len(),
            v@.len() == i,
            forall|k: int| 0 <= k < i ==> v@[k] == es@[k].sample_count,
        decreases es@.len() - i,
    {
        v.push(es[i].sample_count);
        i = i + 1;
    }
    v
}

fn contains_u32(v: &Vec<u32>, x: u32) -> (r: bool)
    ensures
        r == v@.contains(x),
{
    let mut i: usize = 0;
    while i < v.len()
        invariant
            i <= v@.len(),
            forall|j: int| 0 <= j < i ==> v@[j] != x,
        decreases v@.len() - i,
    {
        if v[i] == x {
            assert(v@[i as int] == x);
            return true;
        }
        i = i + 1;
    }
    false
}

proof fn lemma_cursor_start(counts: Seq<nat>)
    ensures
        cursor_at(counts, 0, 0, 0),
{
    assert forall|d: int| #![trigger run_at(counts, 0, 0 + d)] d >= 0 implies run_at(counts, 0, 0 + d) == run_at(counts, 0, 0 + d) by {}
}

/// Builds the information of every sample from a track's sample tables;
/// none without a sample size table, and `None` when a chunk's running
/// file offset overflows 64 bits.
pub fn build_sample_info(t: &SampleTables) -> (r: Option<Vec<SampleInfo>>)
    ensures
        r is Some <==> offsets_fit(*t),
        r matches Some(v) ==> match t.stsz {
            None => v@.len() == 0,
            Some(z) => v@.len() == z.sample_count && forall|n: int|
                0 <= n < z.sample_count ==> sample_is(#[trigger] v@[n], *t, z, n),
        },
{
    let z = match t.stsz {
        Some(z) => z,
        None => return Some(Vec::new()),
    };
    let count = z.sample_count;
    let offs = match file_offsets(t, z) {
        Some(v) => v,
        None => return None,
    };
    let empty_stts: Vec<SttsEntry> = Vec::new();
    let empty_ctts: Vec<CttsEntry> = Vec::new();
    let ses: &Vec<SttsEntry> = match t.stts {
        Some(x) => &x.entries,
        None => &empty_stts,
    };
    let ces: &Vec<CttsEntry> = match t.ctts {
        Some(x) => &x.entries,
        None => &empty_ctts,
    };
    proof {
        assert(ses@ == stts_entries(*t));
        assert(ces@ == ctts_entries(*t));
    }
    let scnt = stts_count_vec(ses);
    let ccnt = ctts_count_vec(ces);
    let ghost sc = stts_counts(ses@);
    let ghost cc = ctts_counts(ces@);
    let last_delta: u32 = if ses.len() > 0 {
        ses[ses.len() - 1].sample_delta
    } else {
        0
    };
    let mut si: usize = 0;
    let mut su: u32 = 0;
    let mut ci: usize = 0;
    let mut cu: u32 = 0;
    proof {
        lemma_cursor_start(sc);
        lemma_cursor_start(cc);
    }
    let mut out: Vec<SampleInfo> = Vec::new();
    let mut dts: u64 = 0;
    let mut i: u32 = 0;
    while i < count
        invariant
            t.stsz == Some(z),
            count == z.sample_count,
            offs@.len() == count,
            forall|n: int| 0 <= n < count ==> #[trigger] offs@[n] == file_offset(*t, z, n),
            ses@ == stts_entries(*t),
            ces@ == ctts_entries(*t),
            sc == stts_counts(ses@),
            cc == ctts_counts(ces@),
            scnt@.len() == ses@.len(),
            ccnt@.len() == ces@.len(),
            forall|k: int| 0 <= k < ses@.len() ==> scnt@[k] == ses@[k].sample_count,
            forall|k: int| 0 <= k < ces@.len() ==> ccnt@[k] == ces@[k].sample_count,
            last_delta == (if ses@.len() > 0 {
                ses@.last().sample_delta
            } else {
                0u32
            }),
            cursor_at(sc, si as int, su as int, i as int),
            cursor_at(cc, ci as int, cu as int, i as int),
            i <= count,
            out@.len() == i,
            dts == dts_of(*t, i as nat),
            dts <= i * 0xFFFF_FFFFu64,
            forall|n: int| 0 <= n < i ==> sample_is(#[trigger] out@[n], *t, z, n),
        decreases count - i,
    {
        let dur: u32 = match cursor_next(Ghost(sc), &scnt, &mut si, &mut su, Ghost(i as int)) {
            Some(j) => {
                proof {
                    assert(sc.len() == ses@.len());
                }
                ses[j].sample_delta
            },
            None => last_delta,
        };
        let off: i32 = match cursor_next(Ghost(cc), &ccnt, &mut ci, &mut cu, Ghost(i as int)) {
            Some(j) => {
                proof {
                    assert(cc.len() == ces@.len());
                }
                ces[j].sample_offset
            },
            None => 0,
        };
        let pts: u64 = if off < 0 {
            let m = (-(off as i64)) as u64;
            if dts >= m {
                dts - m
            } else {
                0
            }
        } else {
            let p = off as u64;
            if dts <= u64::MAX - p {
                dts + p
            } else {
                u64::MAX
            }
        };
        let sync = match t.stss {
            Some(x) => contains_u32(&x.sample_numbers, i + 1),
            None => true,
        };
        let info = SampleInfo {
            index: i,
            dts,
            pts,
            duration: dur,
            rendered_offset: off as i64,
            file_offset: offs[i as usize],
            size: size_exec(z, i),
            is_sync: sync,
        };
        out.push(info);
        proof {
            assert(dts + dur <= (i + 1) * 0xFFFF_FFFFu64) by (nonlinear_arith)
                requires
                    dts <= i * 0xFFFF_FFFFu64,
                    dur <= 0xFFFF_FFFFu64,
            ;
            assert((i + 1) * 0xFFFF_FFFFu64 <= 0xFFFF_FFFFu64 * 0xFFFF_FFFFu64) by (nonlinear_arith)
                requires
                    i < 0xFFFF_FFFFu64,
            ;
            assert(sample_is(out@[i as int], *t, z, i as int));
        }
        dts = dts + dur as u64;
        i = i + 1;
    }
    Some(out)
}

// ---------- tracks ----------

/// The samples of one track, with its ID, handler type, timescale and
/// duration.
#[derive(Debug, Clone)]
pub struct TrackSamples {
    pub track_id: u32,
    /// "vide", "soun", ...
    pub handler_type: String,
    pub timescale: u32,
    /// In track timescale units
    pub duration: u64,
    pub sample_count: u32,
    pub samples: Vec<SampleInfo>,
}

/// `r` is what sample extraction gives for the track box `trak`: the
/// first missing part's error, or the track's information and samples.
pub open spec fn track_result(trak: Box, r: Result<TrackSamples, String>) -> bool {
    match spec_track_id(trak) {
        None => r matches Err(m) && m@ == "No tkhd box found or track ID could not be parsed"@,
        Some(id) => match spec_stbl(trak) {
            None => r matches Err(m) && m@ == "stbl box not found"@,
            Some(stbl) => {
                let t = spec_tables(&stbl);
                if !offsets_fit(t) {
                    r matches Err(m) && m@ == "sample file offsets overflow"@
                } else {
                    r matches Ok(ts) && {
                        &&& ts.track_id == id
                        &&& (ts.handler_type@, ts.timescale, ts.duration) == spec_media_info(trak)
                        &&& ts.sample_count == ts.samples@.len() as u32
                        &&& match t.stsz {
                            None => ts.samples@.len() == 0,
                            Some(z) => ts.samples@.len() == z.sample_count && forall|n: int|
                                0 <= n < z.sample_count ==> sample_is(#[trigger] ts.samples@[n], t, z, n),
                        }
                    }
                }
            },
        },
    }
}

/// Whether extracting the samples of `trak` fails.
pub open spec fn track_fails(trak: Box) -> bool {
    match spec_track_id(trak) {
        None => true,
        Some(_) => match spec_stbl(trak) {
            None => true,
            Some(stbl) => !offsets_fit(spec_tables(&stbl)),
        },
    }
}

/// Extracts the samples of one track box (`trak`) from its decoded
/// children.
pub fn extract_track_samples(trak_box: &Box) -> (r: Result<TrackSamples, String>)
    ensures
        track_result(*trak_box, r),
{
    let track_id = find_track_id(trak_box)?;
    let (handler_type, timescale, duration) = find_media_info(trak_box);
    let stbl = find_stbl_box(trak_box)?;
    let tables = extract_sample_tables(stbl);
    let samples = match build_sample_info(&tables) {
        Some(v) => v,
        None => return Err("sample file offsets overflow".to_owned()),
    };
    let sample_count = samples.len() as u32;
    Ok(TrackSamples { track_id, handler_type, timescale, duration, sample_count, samples })
}

/// The `trak` children of the `moov` boxes (with children) among `boxes`
/// from index `i` on, in order.
pub open spec fn traks_from(boxes: Seq<Box>, i: int) -> Seq<Box>
    decreases boxes.len() - i,
{
    if i < 0 || i >= boxes.len() {
        Seq::empty()
    } else if boxes[i].typ@ == typ4('m', 'o', 'o', 'v') && boxes[i].children is Some {
        traks_in(boxes[i].children.unwrap()@, 0) + traks_from(boxes, i + 1)
    } else {
        traks_from(boxes, i + 1)
    }
}

/// The `trak` boxes among `kids` from index `j` on.
pub open spec fn traks_in(kids: Seq<Box>, j: int) -> Seq<Box>
    decreases kids.len() - j,
{
    if j < 0 || j >= kids.len() {
        Seq::empty()
    } else if kids[j].typ@ == typ4('t', 'r', 'a', 'k') {
        seq![kids[j]] + traks_in(kids, j + 1)
    } else {
        traks_in(kids, j + 1)
    }
}

fn collect_traks<'a>(kids: &'a Vec<Box>, out: &mut Vec<&'a Box>)
    ensures
        final(out)@ == old(out)@ + traks_in(kids@, 0).map_values(|b: Box| &b),
{
    let mut j: usize = 0;
    while j < kids.len()
        invariant
            j <= kids@.len(),
            old(out)@ + traks_in(kids@, 0).map_values(|b: Box| &b) == out@ + traks_in(kids@, j as int).map_values(|b: Box| &b),
        decreases kids@.len() - j,
    {
        if typ_is(&kids[j].typ, 't', 'r', 'a', 'k') {
            let ghost before = out@;
            out.push(&kids[j]);
            proof {
                let rest = traks_in(kids@, j + 1).map_values(|b: Box| &b);
                assert((seq![kids@[j as int]] + traks_in(kids@, j + 1)).map_values(|b: Box| &b) =~= seq![&kids@[j as int]] + rest);
                assert(before + (seq![&kids@[j as int]] + rest) =~= out@ + rest);
            }
        }
        j = j + 1;
    }
    proof {
        assert(traks_in(kids@, j as int).map_values(|b: Box| &b) =~= Seq::<&Box>::empty());
        assert(out@ + Seq::<&Box>::empty() =~= out@);
    }
}

/// Extracts the samples of every track of every `moov` box, the samples
/// of the file's movie fragments included; the first track that fails
/// gives the error.
pub fn track_samples(boxes: &Vec<Box>) -> (r: Result<Vec<TrackSamples>, String>)
    ensures
        ({
            let traks = traks_from(boxes@, 0);
            match r {
                Ok(v) => v@.len() == traks.len() && forall|i: int|
                    0 <= i < traks.len() ==> full_track(boxes@, traks[i], Ok(#[trigger] v@[i])),
                Err(m) => exists|i: int|
                    0 <= i < traks.len() && #[trigger] full_track(boxes@, traks[i], Err(m)) && forall|j: int|
                        0 <= j < i ==> !full_fails(boxes@, #[trigger] traks[j]),
            }
        }),
{
    let mut refs: Vec<&Box> = Vec::new();
    let mut i: usize = 0;
    while i < boxes.len()
        invariant
            i <= boxes@.len(),
            traks_from(boxes@, 0).map_values(|b: Box| &b) == refs@ + traks_from(boxes@, i as int).map_values(|b: Box| &b),
        decreases boxes@.len() - i,
    {
        let ghost before = refs@;
        if typ_is(&boxes[i].typ, 'm', 'o', 'o', 'v') {
            match &boxes[i].children {
                Some(kids) => {
                    collect_traks(kids, &mut refs);
                    proof {
                        let a = traks_in(kids@, 0);
                        let b = traks_from(boxes@, i + 1);
                        assert((a + b).map_values(|x: Box| &x) =~= a.map_values(|x: Box| &x) + b.map_values(|x: Box| &x));
                        assert(before + (a.map_values(|x: Box| &x) + b.map_values(|x: Box| &x)) =~= refs@ + b.map_values(|x: Box| &x));
                    }
                },
                None => {},
            }
        }
        i = i + 1;
    }
    proof {
        assert(traks_from(boxes@, i as int).map_values(|b: Box| &b) =~= Seq::<&Box>::empty());
        assert(refs@ + Seq::<&Box>::empty() =~= refs@);
    }
    let ghost traks = traks_from(boxes@, 0);
    let mut out: Vec<TrackSamples> = Vec::new();
    let mut k: usize = 0;
    while k < refs.len()
        invariant
            k <= refs@.len(),
            refs@.len() == traks.len(),
            forall|j: int| 0 <= j < refs@.len() ==> *refs@[j] == traks[j],
            out@.len() == k,
            traks == traks_from(boxes@, 0),
            forall|j: int| 0 <= j < k ==> full_track(boxes@, traks[j], Ok(#[trigger] out@[j])),
            forall|j: int| 0 <= j < k ==> !full_fails(boxes@, #[trigger] traks[j]),
        decreases refs@.len() - k,
    {
        let ts = track_with_fragments(boxes, refs[k]);
        match ts {
            Ok(x) => {
                let ghost before = out@;
                out.push(x);
                proof {
                    assert forall|j: int| 0 <= j < k + 1 implies full_track(boxes@, traks[j], Ok(#[trigger] out@[j])) by {
                        if j < k {
                            assert(out@[j] == before[j]);
                        }
                    }
                }
            },
            Err(m) => {
                proof {
                    let ki = k as int;
                    assert(full_track(boxes@, traks[ki], Err(m)));
                    assert(forall|j: int| 0 <= j < ki ==> !full_fails(boxes@, #[trigger] traks[j]));
                    assert(exists|i: int|
                        0 <= i < traks.len() && #[trigger] full_track(boxes@, traks[i], Err(m)) && forall|j: int|
                            0 <= j < i ==> !full_fails(boxes@, #[trigger] traks[j]));
                    assert(traks == traks_from(boxes@, 0));
                }
                let r: Result<Vec<TrackSamples>, String> = Err(m);
                assert(r is Err);
                assert(r->Err_0 == m);
                assert(r matches Err(mm) && exists|i: int|
                        0 <= i < traks.len() && #[trigger] full_track(boxes@, traks[i], Err(mm)) && forall|j: int|
                            0 <= j < i ==> !full_fails(boxes@, #[trigger] traks[j]));
                return r;
            },
        }
        k = k + 1;
    }
    Ok(out)
}

/// Sync flags: when the tables hold no stss box every sample is a sync
/// sample; with one, a sample is a sync sample exactly when its 1-based
/// number is listed there.
pub proof fn lemma_sync_samples(si: SampleInfo, t: SampleTables, z: &StszData, n: int)
    requires
        0 <= n < z.sample_count,
        sample_is(si, t, z, n),
    ensures
        t.stss is None ==> si.is_sync,
        t.stss matches Some(x) ==> (si.is_sync <==> exists|k: int|
            0 <= k < x.sample_numbers@.len() && #[trigger] x.sample_numbers@[k] as int == n + 1),
{
    if let Some(x) = t.stss {
        let m = (n + 1) as u32;
        assert(m as int == n + 1);
        if si.is_sync {
            let k = choose|k: int| 0 <= k < x.sample_numbers@.len() && x.sample_numbers@[k] == m;
            assert(x.sample_numbers@[k] as int == n + 1);
        }
        if exists|k: int| 0 <= k < x.sample_numbers@.len() && #[trigger] x.sample_numbers@[k] as int == n + 1 {
            let k = choose|k: int| 0 <= k < x.sample_numbers@.len() && #[trigger] x.sample_numbers@[k] as int == n + 1;
            assert(x.sample_numbers@[k] == m);
            assert(x.sample_numbers@.contains(m));
        }
    }
}

/// While the first time-to-sample run lasts, each sample lasts that run's
/// delta and sample `n` is decoded at `n` times the delta.
pub proof fn lemma_first_run_times(t: SampleTables, n: nat)
    requires
        stts_entries(t).len() > 0,
        n <= stts_entries(t)[0].sample_count,
    ensures
        dts_of(t, n) == n * stts_entries(t)[0].sample_delta,
        n < stts_entries(t)[0].sample_count ==> duration_of(t, n as int) == stts_entries(t)[0].sample_delta,
    decreases n,
{
    let es = stts_entries(t);
    let d = es[0].sample_delta as nat;
    assert(stts_counts(es)[0] == es[0].sample_count as nat);
    if n < es[0].sample_count {
        assert(run_at(stts_counts(es), 0, n as int) == Some(0int));
    }
    if n > 0 {
        let m = (n - 1) as nat;
        lemma_first_run_times(t, m);
        assert(run_at(stts_counts(es), 0, m as int) == Some(0int));
        assert(duration_of(t, m as int) == es[0].sample_delta);
        assert(dts_of(t, n) == dts_of(t, m) + d);
        assert(m * d + d == n * d) by (nonlinear_arith)
            requires
                n == m + 1,
        ;
    } else {
        assert(n * d == 0) by (nonlinear_arith)
            requires
                n == 0,
        ;
    }
}

/// Total size of samples `a..n`.
pub open spec fn sizes_between(z: &StszData, a: nat, n: nat) -> nat
    decreases n - a,
{
    if n <= a {
        0
    } else {
        sizes_between(z, a, (n - 1) as nat) + size_of(z, n - 1)
    }
}

/// The samples a chunk places sit back to back from the chunk's offset.
proof fn lemma_in_chunk_offsets(z: &StszData, spc: nat, k: nat, w: Walk, off: int)
    requires
        w.acc.len() == w.s,
        k <= spc,
        !w.stop,
        w.ok,
        0 <= off <= u64::MAX,
    ensures
        ({
            let r = in_chunk(z, spc, k, w, off);
            &&& r.acc.len() == r.s
            &&& r.s >= w.s
            &&& r.acc.subrange(0, w.s as int) == w.acc
            &&& forall|m: int| w.s <= m < r.s ==> #[trigger] r.acc[m] as int == off + sizes_between(z, w.s, m as nat)
            &&& r.ok ==> (r.s == w.s + (spc - k) || r.s >= z.sample_count)
        }),
    decreases spc - k,
{
    if k >= spc {
    } else if w.s >= z.sample_count {
    } else {
        let off2 = off + size_of(z, w.s as int);
        let w2 = Walk { s: w.s + 1, acc: w.acc.push(off as u64), ok: off2 <= u64::MAX, ..w };
        if w2.ok {
            lemma_in_chunk_offsets(z, spc, k + 1, w2, off2);
            let r = in_chunk(z, spc, k + 1, w2, off2);
            assert(r.acc.subrange(0, w.s as int) =~= r.acc.subrange(0, w2.s as int).subrange(0, w.s as int));
            assert(r.acc[w.s as int] == w2.acc[w.s as int]);
            assert forall|m: int| w.s <= m < r.s implies #[trigger] r.acc[m] as int == off + sizes_between(
                z,
                w.s,
                m as nat,
            ) by {
                if m == w.s {
                } else {
                    lemma_sizes_between_front(z, w.s, m as nat);
                }
            }
        } else {
            assert(in_chunk(z, spc, k + 1, w2, off2) == w2);
            assert(w2.acc.subrange(0, w.s as int) =~= w.acc);
        }
    }
}

proof fn lemma_sizes_between_front(z: &StszData, a: nat, n: nat)
    requires
        a < n,
    ensures
        sizes_between(z, a, n) == size_of(z, a as int) + sizes_between(z, a + 1, n),
    decreases n - a,
{
    if n > a + 1 {
        lemma_sizes_between_front(z, a, (n - 1) as nat);
        assert(sizes_between(z, a + 1, n) == sizes_between(z, a + 1, (n - 1) as nat) + size_of(z, n - 1));
    } else {
        assert(sizes_between(z, a, a) == 0);
        assert(sizes_between(z, a + 1, n) == 0);
    }
}

/// When one chunk holds every sample (a single chunk offset, and a single
/// sample-to-chunk entry starting at the first chunk with room for all the
/// samples), sample `n` lies at the chunk's offset plus the sizes of the
/// samples before it.
pub proof fn lemma_single_chunk_offsets(t: SampleTables, z: &StszData, n: nat)
    requires
        t.stsz == Some(z),
        chunk_count(t) == 1,
        t.stsc matches Some(sc) && sc.entries@.len() == 1 && first_of(sc.entries@[0]) == 0
            && sc.entries@[0].samples_per_chunk >= z.sample_count,
        offsets_fit(t),
        n < z.sample_count,
    ensures
        file_offset(t, z, n as int) == chunk_base(t, 0) + sizes_between(z, 0, n),
{
    let sc = t.stsc.unwrap();
    let e = sc.entries@;
    let w0 = walk_start();
    let base = chunk_base(t, 0);
    let spc = e[0].samples_per_chunk as nat;
    assert(end_of(t, e, 0) == 1);
    let r = in_chunk(z, spc, 0, w0, base);
    assert(in_entry(t, z, e, 0, 1, 1, r) == r);
    assert(in_entry(t, z, e, 0, 0, 1, w0) == r);
    assert(in_entries(t, z, e, 1, r) == r);
    assert(offsets_walk(t, z) == r);
    assert(0 <= base <= u64::MAX);
    lemma_in_chunk_offsets(z, spc, 0, w0, base);
}

/// `off` is the file offset of one of the track's chunks.
pub open spec fn chunk_start(t: SampleTables, off: int) -> bool {
    exists|c: int| 0 <= c < chunk_count(t) && #[trigger] chunk_base(t, c) == off
}

/// Offsets laid out chunk by chunk: the first starts a chunk, and each
/// later one either starts a chunk or directly follows the sample before.
pub open spec fn laid_out(t: SampleTables, z: &StszData, acc: Seq<u64>) -> bool {
    &&& acc.len() > 0 ==> chunk_start(t, acc[0] as int)
    &&& forall|m: int|
        1 <= m < acc.len() ==> (#[trigger] acc[m]) as int == acc[m - 1] as int + size_of(z, m - 1)
            || chunk_start(t, acc[m] as int)
}

proof fn lemma_chunk_base_bound(t: SampleTables, c: int)
    requires
        0 <= c < chunk_count(t),
    ensures
        0 <= chunk_base(t, c) <= u64::MAX,
        chunk_start(t, chunk_base(t, c)),
{
}

proof fn lemma_in_chunk_laid_out(t: SampleTables, z: &StszData, spc: nat, k: nat, w: Walk, off: int)
    requires
        w.acc.len() == w.s,
        laid_out(t, z, w.acc),
        w.ok && !w.stop ==> 0 <= off <= u64::MAX,
        chunk_start(t, off) || (w.acc.len() > 0 && off == w.acc.last() as int + size_of(z, w.s - 1)),
    ensures
        in_chunk(z, spc, k, w, off).acc.len() == in_chunk(z, spc, k, w, off).s,
        laid_out(t, z, in_chunk(z, spc, k, w, off).acc),
    decreases spc - k,
{
    if k >= spc || w.stop || !w.ok {
    } else if w.s >= z.sample_count {
    } else {
        let off2 = off + size_of(z, w.s as int);
        let acc2 = w.acc.push(off as u64);
        let w2 = Walk { s: w.s + 1, acc: acc2, ok: off2 <= u64::MAX, ..w };
        assert(acc2[w.s as int] as int == off);
        assert forall|m: int| 1 <= m < acc2.len() implies (#[trigger] acc2[m]) as int == acc2[m - 1] as int
            + size_of(z, m - 1) || chunk_start(t, acc2[m] as int) by {
            if m < w.acc.len() {
                assert(acc2[m] == w.acc[m] && acc2[m - 1] == w.acc[m - 1]);
            } else {
                assert(m == w.s);
                if w.acc.len() > 0 {
                    assert(acc2[m - 1] == w.acc.last());
                }
            }
        }
        if acc2.len() > 0 {
            if w.acc.len() > 0 {
                assert(acc2[0] == w.acc[0]);
            }
        }
        assert(laid_out(t, z, acc2));
        assert(acc2.last() as int == off);
        lemma_in_chunk_laid_out(t, z, spc, k + 1, w2, off2);
    }
}

proof fn lemma_in_entry_laid_out(
    t: SampleTables,
    z: &StszData,
    e: Seq<crate::registry::data::StscEntry>,
    i: int,
    c: int,
    end: int,
    w: Walk,
)
    requires
        w.acc.len() == w.s,
        laid_out(t, z, w.acc),
        0 <= c,
        end <= chunk_count(t),
        0 <= i < e.len(),
    ensures
        in_entry(t, z, e, i, c, end, w).acc.len() == in_entry(t, z, e, i, c, end, w).s,
        laid_out(t, z, in_entry(t, z, e, i, c, end, w).acc),
    decreases end - c,
{
    if c >= end || w.stop || !w.ok {
    } else {
        lemma_chunk_base_bound(t, c);
        lemma_in_chunk_laid_out(t, z, e[i].samples_per_chunk as nat, 0, w, chunk_base(t, c));
        let w2 = in_chunk(z, e[i].samples_per_chunk as nat, 0, w, chunk_base(t, c));
        lemma_in_entry_laid_out(t, z, e, i, c + 1, end, w2);
    }
}

proof fn lemma_in_entries_laid_out(t: SampleTables, z: &StszData, e: Seq<crate::registry::data::StscEntry>, i: int, w: Walk)
    requires
        w.acc.len() == w.s,
        laid_out(t, z, w.acc),
    ensures
        in_entries(t, z, e, i, w).acc.len() == in_entries(t, z, e, i, w).s,
        laid_out(t, z, in_entries(t, z, e, i, w).acc),
    decreases e.len() - i,
{
    if i < 0 || i >= e.len() || w.stop || !w.ok {
    } else {
        let w2 = in_entry(t, z, e, i, first_of(e[i]), end_of(t, e, i), w);
        lemma_in_entry_laid_out(t, z, e, i, first_of(e[i]), end_of(t, e, i), w);
        lemma_in_entries_laid_out(t, z, e, i + 1, w2);
    }
}

/// Samples are laid out chunk by chunk: the first placed sample starts at
/// the offset of a chunk, and each later one either starts a chunk or
/// begins right where the sample before it ends.
pub proof fn lemma_offsets_follow(t: SampleTables, z: &StszData, n: int)
    requires
        0 <= n < offsets_walk(t, z).acc.len(),
    ensures
        n == 0 ==> chunk_start(t, file_offset(t, z, 0) as int),
        n > 0 ==> file_offset(t, z, n) == file_offset(t, z, n - 1) + size_of(z, n - 1) || chunk_start(
            t,
            file_offset(t, z, n) as int,
        ),
{
    let w0 = walk_start();
    assert(laid_out(t, z, w0.acc));
    if let Some(sc) = t.stsc {
        lemma_in_entries_laid_out(t, z, sc.entries@, 0, w0);
    }
    let acc = offsets_walk(t, z).acc;
    if n > 0 {
        assert(1 <= n < acc.len());
        assert(acc[n] as int == acc[n - 1] as int + size_of(z, n - 1) || chunk_start(t, acc[n] as int));
    }
}

/// Without a composition offset table, every sample is presented when it
/// is decoded.
pub proof fn lemma_no_ctts_pts(si: SampleInfo, t: SampleTables, z: &StszData, n: int)
    requires
        sample_is(si, t, z, n),
        t.ctts is None,
    ensures
        si.pts == si.dts,
        si.rendered_offset == 0,
{
    assert(ctts_entries(t).len() == 0);
    assert(run_at(ctts_counts(ctts_entries(t)), 0, n) is None);
}

} // verus!
