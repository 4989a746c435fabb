//! The box tree as plain values: offsets, sizes, types, names, and the
//! decoded text and structured data of each box, plus hex dumps of byte
//! ranges.

use vstd::prelude::*;
use crate::boxes::{BoxHeader, BoxKey, BoxRef, NodeKind};
use crate::drm::opt_view;
use crate::known_boxes::KnownBox;
use crate::parser::{
    box_end_spec, box_wf, children_wf, child_entry, child_strict, lemma_box_wf_elim, node_children,
    parse_boxes, parse_boxes_tolerant, sat_sub, uuid_tag, ParseError, ParseIssue,
};
use crate::registry::data::{BoxValue, DecodeError, FieldSpan, StructuredData};
use crate::registry::dispatch::{decoded_by, decoder_for_key, default_decoder, spans_ok, DecoderKind};
use crate::registry::custom::{BoxDecoder, Registry};
use crate::registry::summary::spec_summary;
use crate::util::{decimal_string, hex_dump, hex_string, spec_decimal, spec_hex, spec_hex_dump};

verus! {

/// One box of the tree, as plain values.
#[derive(Debug)]
pub struct Box {
    /// Absolute byte offset of this box in the file
    pub offset: u64,
    /// Total size of this box including header and payload (0: to the end)
    pub size: u64,
    /// Size of just the box header
    pub header_size: u64,
    /// Absolute offset where payload data starts (None for containers)
    pub payload_offset: Option<u64>,
    /// Size of payload data (None for containers)
    pub payload_size: Option<u64>,
    /// Four-character box type code (e.g. "ftyp", "moov")
    pub typ: String,
    /// Extended type of a `uuid` box, as 32 lowercase hex digits
    pub uuid: Option<String>,
    /// Version field for FullBox types
    pub version: Option<u8>,
    /// Flags field for FullBox types
    pub flags: Option<u32>,
    /// Box classification: "leaf", "full", "container", or "unknown"
    pub kind: String,
    /// Human-readable box type name (e.g. "File Type Box")
    pub full_name: String,
    /// Decoded box content, when decoding was asked for and a decoder exists
    pub decoded: Option<String>,
    /// Structured data, when the decoder produces it
    pub structured_data: Option<StructuredData>,
    /// Child boxes for container types
    pub children: Option<Vec<Box>>,
    /// Byte ranges of the decoded fields within the payload, for decoders
    /// that map them
    pub field_spans: Option<Vec<FieldSpan>>,
}

// ---------- geometry and classification ----------

/// Key a box's decoder is looked up by: its extended type for `uuid`
/// boxes, its fourcc otherwise.
pub open spec fn key_of(h: BoxHeader) -> BoxKey {
    if h.typ.0@ == uuid_tag() && h.uuid is Some {
        BoxKey::Uuid(h.uuid.unwrap())
    } else {
        BoxKey::FourCC(h.typ)
    }
}

fn box_key(h: &BoxHeader) -> (r: BoxKey)
    ensures
        r == key_of(*h),
{
    if h.typ.equals([117u8, 117u8, 105u8, 100u8]) {
        proof {
            let a: [u8; 4] = [117u8, 117u8, 105u8, 100u8];
            assert(a@ =~= uuid_tag());
        }
        match h.uuid {
            Some(u) => BoxKey::Uuid(u),
            None => BoxKey::FourCC(h.typ),
        }
    } else {
        proof {
            let a: [u8; 4] = [117u8, 117u8, 105u8, 100u8];
            assert(a@ =~= uuid_tag());
        }
        BoxKey::FourCC(h.typ)
    }
}

/// Where a box's payload lies: after version and flags for full boxes,
/// after the header for leaves (none when the size runs to the end of the
/// file or the payload is empty), and nowhere for plain containers.
pub open spec fn payload_geometry(b: BoxRef) -> Option<(int, int)> {
    match b.kind {
        NodeKind::FullBox { data_offset, data_len, .. } => Some((data_offset as int, data_len as int)),
        NodeKind::FullContainer { data_offset, data_len, .. } => Some(
            (data_offset as int, data_len as int),
        ),
        NodeKind::Container(_) => None,
        _ => if b.hdr.size == 0 || sat_sub(b.hdr.size as int, b.hdr.header_size as int) == 0 {
            None
        } else {
            Some(
                (
                    b.hdr.start + b.hdr.header_size,
                    sat_sub(b.hdr.size as int, b.hdr.header_size as int),
                ),
            )
        },
    }
}

/// Version and flags of full boxes and full containers.
pub open spec fn version_flags(k: NodeKind) -> (Option<u8>, Option<u32>) {
    match k {
        NodeKind::FullBox { version, flags, .. } => (Some(version), Some(flags)),
        NodeKind::FullContainer { version, flags, .. } => (Some(version), Some(flags)),
        _ => (None, None),
    }
}

/// The classification shown for a node.
pub open spec fn kind_name(k: NodeKind) -> Seq<char> {
    match k {
        NodeKind::FullBox { .. } => "full"@,
        NodeKind::Leaf { .. } => "leaf"@,
        NodeKind::Unknown { .. } => "unknown"@,
        _ => "container"@,
    }
}

/// The payload bytes a decoder reads: as many of them as the file holds.
pub open spec fn payload_bytes(buf: Seq<u8>, off: int, len: int) -> Seq<u8> {
    buf.subrange(off, if off + len < buf.len() { off + len } else { buf.len() as int })
}

/// The decoded text and structured data shown for a decoder's result: the
/// text as is, a byte count, a structured value's summary, or the error.
pub open spec fn outcome_view(
    decoded: Option<String>,
    structured: Option<StructuredData>,
    r: Result<BoxValue, DecodeError>,
) -> bool {
    match r {
        Ok(BoxValue::Text(s)) => opt_view(decoded) == Some(s@) && structured is None,
        Ok(BoxValue::Bytes(b)) => opt_view(decoded) == Some(spec_decimal(b@.len()) + " bytes"@)
            && structured is None,
        Ok(BoxValue::Structured(d)) => opt_view(decoded) == spec_summary(d) && structured == Some(d),
        Err(e) => opt_view(decoded) == Some("[decode error: "@ + e.spec_message() + "]"@)
            && structured is None,
    }
}

/// The decoders a registry holds, and whether it falls back on the
/// built-in decoders; `None` stands for the built-in decoders alone.
pub open spec fn reg_keys<D: BoxDecoder>(reg: Option<&Registry<D>>) -> Option<(Map<BoxKey, (Seq<char>, D)>, bool)> {
    match reg {
        Some(r) => Some((r@, r.spec_builtins())),
        None => None,
    }
}

/// What decoding shows for box `b`: nothing when decoding was not asked
/// for, the payload is empty or absent, or no decoder handles the box;
/// otherwise the decoder's result on the payload bytes, and (for the
/// built-in decoders, `keys` being `None`) its field spans. With `keys`,
/// the decoders are those of a registry holding exactly those decoders,
/// on top of the built-in ones when it says so; a registered decoder's
/// result is what its `decode` returned on the payload.
pub open spec fn decode_view<D: BoxDecoder>(bx: Box, b: BoxRef, buf: Seq<u8>, decode: bool, keys: Option<(Map<BoxKey, (Seq<char>, D)>, bool)>) -> bool {
    decoded_parts(bx.decoded, bx.structured_data, bx.field_spans, b, buf, decode, keys)
}

/// `decode_view` over the three decoded parts of a box.
pub open spec fn decoded_parts<D: BoxDecoder>(
    decoded: Option<String>,
    structured: Option<StructuredData>,
    spans: Option<Vec<FieldSpan>>,
    b: BoxRef,
    buf: Seq<u8>,
    decode: bool,
    keys: Option<(Map<BoxKey, (Seq<char>, D)>, bool)>,
) -> bool {
    let none = decoded is None && structured is None && spans is None;
    if !decode {
        none
    } else {
        match payload_geometry(b) {
            None => none,
            Some((off, len)) => if len == 0 {
                none
            } else if keys is Some && keys.unwrap().0.dom().contains(key_of(b.hdr)) {
                let (v, f) = version_flags(b.kind);
                &&& spans is None
                &&& exists|p: &[u8], r: Result<BoxValue, DecodeError>|
                    #[trigger] call_ensures(D::decode, (&keys.unwrap().0[key_of(b.hdr)].1, p, &b.hdr, v, f), r)
                        && p@ == payload_bytes(buf, off, len) && outcome_view(decoded, structured, r)
            } else if keys is Some && !keys.unwrap().1 {
                none
            } else {
                match decoder_for_key(key_of(b.hdr)) {
                    None => none,
                    Some(k) => {
                        let (v, f) = version_flags(b.kind);
                        &&& spans_ok(k, v, f, len as u64, spans)
                        &&& exists|p: &[u8], r: Result<BoxValue, DecodeError>|
                            #[trigger] decoded_by(k, p, &b.hdr, v, f, r) && p@ == payload_bytes(
                                buf,
                                off,
                                len,
                            ) && outcome_view(decoded, structured, r)
                    },
                }
            },
        }
    }
}

/// The header-level fields of `bx` are those of `b`.
pub open spec fn header_view(bx: Box, b: BoxRef) -> bool {
    let h = b.hdr;
    &&& bx.offset == h.start
    &&& bx.size == h.size
    &&& bx.header_size == h.header_size
    &&& bx.typ@ == h.typ.spec_lossy()
    &&& match h.uuid {
        Some(u) => bx.uuid matches Some(s) && s@ == spec_hex(u@, false),
        None => bx.uuid is None,
    }
    &&& bx.full_name@ == KnownBox::spec_from(h.typ).spec_full_name()@
    &&& bx.kind@ == kind_name(b.kind)
    &&& bx.version == version_flags(b.kind).0
    &&& bx.flags == version_flags(b.kind).1
    &&& match payload_geometry(b) {
        Some((o, l)) => bx.payload_offset == Some(o as u64) && bx.payload_size == Some(l as u64),
        None => bx.payload_offset is None && bx.payload_size is None,
    }
}

/// `bx` shows the parsed box `b` of `buf`, and its children show `b`'s.
pub open spec fn box_view<D: BoxDecoder>(bx: Box, b: BoxRef, buf: Seq<u8>, decode: bool, keys: Option<(Map<BoxKey, (Seq<char>, D)>, bool)>) -> bool
    decreases b, 0int,
{
    &&& header_view(bx, b)
    &&& decode_view(bx, b, buf, decode, keys)
    &&& match b.kind {
        NodeKind::Container(kids) => bx.children matches Some(cs) && cs@.len() == kids@.len()
            && kids_view(cs@, kids@, 0, buf, decode, keys),
        NodeKind::FullContainer { children, .. } => bx.children matches Some(cs) && cs@.len()
            == children@.len() && kids_view(cs@, children@, 0, buf, decode, keys),
        _ => bx.children is None,
    }
}

/// Each of `cs` from index `i` on shows the matching box of `kids`.
pub open spec fn kids_view<D: BoxDecoder>(cs: Seq<Box>, kids: Seq<BoxRef>, i: int, buf: Seq<u8>, decode: bool, keys: Option<(Map<BoxKey, (Seq<char>, D)>, bool)>) -> bool
    decreases kids, kids.len() - i,
    when 0 <= i <= kids.len()
{
    if i >= kids.len() {
        true
    } else {
        box_view(cs[i], kids[i], buf, decode, keys) && kids_view(cs, kids, i + 1, buf, decode, keys)
    }
}

proof fn lemma_kids_view_from_all<D: BoxDecoder>(cs: Seq<Box>, kids: Seq<BoxRef>, i: int, buf: Seq<u8>, decode: bool, keys: Option<(Map<BoxKey, (Seq<char>, D)>, bool)>)
    requires
        0 <= i <= kids.len(),
        cs.len() == kids.len(),
        forall|j: int| i <= j < kids.len() ==> #[trigger] box_view(cs[j], kids[j], buf, decode, keys),
    ensures
        kids_view(cs, kids, i, buf, decode, keys),
    decreases kids.len() - i,
{
    if i < kids.len() {
        assert(box_view(cs[i], kids[i], buf, decode, keys));
        lemma_kids_view_from_all(cs, kids, i + 1, buf, decode, keys);
    }
}

// ---------- building ----------

fn geometry(b: &BoxRef) -> (r: Option<(u64, u64)>)
    requires
        b.hdr.start + b.hdr.header_size <= u64::MAX,
    ensures
        match payload_geometry(*b) {
            Some((o, l)) => r matches Some((x, y)) && x == o && y == l,
            None => r is None,
        },
{
    match &b.kind {
        NodeKind::FullBox { data_offset, data_len, .. } => Some((*data_offset, *data_len)),
        NodeKind::FullContainer { data_offset, data_len, .. } => Some((*data_offset, *data_len)),
        NodeKind::Container(_) => None,
        _ => {
            let h = &b.hdr;
            if h.size == 0 || h.size <= h.header_size {
                None
            } else {
                Some((h.start + h.header_size, h.size - h.header_size))
            }
        },
    }
}

fn vf_of(k: &NodeKind) -> (r: (Option<u8>, Option<u32>))
    ensures
        r == version_flags(*k),
{
    match k {
        NodeKind::FullBox { version, flags, .. } => (Some(*version), Some(*flags)),
        NodeKind::FullContainer { version, flags, .. } => (Some(*version), Some(*flags)),
        _ => (None, None),
    }
}

/// Decodes a payload result into the text and structured value shown.
fn outcome(r: Result<BoxValue, DecodeError>) -> (o: (Option<String>, Option<StructuredData>))
    ensures
        outcome_view(o.0, o.1, r),
{
    match r {
        Ok(BoxValue::Text(s)) => (Some(s), None),
        Ok(BoxValue::Bytes(b)) => {
            let mut t = decimal_string(b.len() as u64);
            crate::util::push_str(&mut t, " bytes");
            (Some(t), None)
        },
        Ok(BoxValue::Structured(d)) => {
            let s = d.summary();
            (s, Some(d))
        },
        Err(e) => {
            let mut t = "[decode error: ".to_owned();
            let m = e.message();
            crate::util::push_str(&mut t, m.as_str());
            crate::util::push_str(&mut t, "]");
            proof {
                reveal_strlit("[decode error: ");
            }
            (Some(t), None)
        },
    }
}

/// Decodes the payload of `b` with the registered decoder: its text, its
/// structured value and its field spans.
fn decode_value<D: BoxDecoder>(buf: &[u8], b: &BoxRef, reg: Option<&Registry<D>>) -> (r: (Option<String>, Option<StructuredData>, Option<
    Vec<FieldSpan>,
>))
    requires
        b.hdr.start + b.hdr.header_size <= u64::MAX,
        payload_geometry(*b) matches Some((off, len)) ==> off <= buf@.len(),
    ensures
        decoded_parts(r.0, r.1, r.2, *b, buf@, true, reg_keys(reg)),
{
    let (off, len) = match geometry(b) {
        Some(g) => g,
        None => return (None, None, None),
    };
    if len == 0 {
        return (None, None, None);
    }
    let key = box_key(&b.hdr);
    let custom = match reg {
        Some(rg) => rg.contains_key(&key),
        None => false,
    };
    if custom {
        let rg = reg.unwrap();
        let (version, flags) = vf_of(&b.kind);
        let o = off as usize;
        let end = if (buf.len() - o) as u64 > len {
            o + len as usize
        } else {
            buf.len()
        };
        let payload_vec = crate::util::copy_range(buf, o, end);
        let payload = payload_vec.as_slice();
        return match rg.decode(&key, payload, &b.hdr, version, flags) {
            None => (None, None, None),
            Some(res) => {
                let ghost rr = res;
                let (decoded, structured) = outcome(res);
                proof {
                    assert(payload@ == payload_bytes(buf@, off as int, len as int));
                    assert(call_ensures(D::decode, (&rg@[key].1, payload, &b.hdr, version, flags), rr));
                }
                (decoded, structured, None)
            },
        };
    }
    if let Some(rg) = reg {
        if !rg.builtins() {
            return (None, None, None);
        }
    }
    let k = match default_decoder(&key) {
        Some(k) => k,
        None => return (None, None, None),
    };
    let (version, flags) = vf_of(&b.kind);
    let o = off as usize;
    let end = if (buf.len() - o) as u64 > len {
        o + len as usize
    } else {
        buf.len()
    };
    let payload_vec = crate::util::copy_range(buf, o, end);
    let payload = payload_vec.as_slice();
    let res = k.decode(payload, &b.hdr, version, flags);
    let ghost rr = res;
    let spans = k.field_spans(version, flags, len);
    let (decoded, structured) = outcome(res);
    proof {
        assert(payload@ == payload_bytes(buf@, off as int, len as int));
        assert(decoded_by(k, payload, &b.hdr, version, flags, rr));
    }
    (decoded, structured, spans)
}

/// Builds the plain-value tree of a parsed box.
#[verifier::loop_isolation(false)]
pub fn build_box<D: BoxDecoder>(buf: &[u8], b: &BoxRef, decode: bool, reg: Option<&Registry<D>>, Ghost(parent_end): Ghost<int>, Ghost(strict): Ghost<
    bool,
>, Ghost(entry): Ghost<bool>) -> (r: Box)
    requires
        box_wf(*b, buf@, parent_end, strict, entry),
    ensures
        box_view(r, *b, buf@, decode, reg_keys(reg)),
    decreases *b,
{
    proof {
        lemma_box_wf_elim(*b, buf@, parent_end, strict, entry);
    }
    let blen = buf.len();
    assert(b.hdr.start + b.hdr.header_size <= buf@.len());
    let h = &b.hdr;
    let uuid = match h.uuid {
        Some(u) => Some(hex_string(u.as_slice())),
        None => None,
    };
    let kb = KnownBox::from_fourcc(h.typ);
    let full_name = kb.full_name().to_owned();
    let (payload_offset, payload_size) = match geometry(b) {
        Some((o, l)) => (Some(o), Some(l)),
        None => (None, None),
    };
    let (version, flags) = vf_of(&b.kind);
    let kind = match &b.kind {
        NodeKind::FullBox { .. } => "full".to_owned(),
        NodeKind::Leaf { .. } => "leaf".to_owned(),
        NodeKind::Unknown { .. } => "unknown".to_owned(),
        _ => "container".to_owned(),
    };
    let children: Option<Vec<Box>> = match &b.kind {
        NodeKind::Container(kids) => {
            proof {
                assert(kids@ == node_children(*b));
                assert forall|i: int| 0 <= i < kids@.len() implies #[trigger] box_wf(
                    kids@[i],
                    buf@,
                    box_end_spec(*h, parent_end),
                    child_strict(*b, strict, entry),
                    child_entry(*b),
                ) by {
                    assert(box_wf(node_children(*b)[i], buf@, box_end_spec(b.hdr, parent_end), child_strict(*b, strict, entry), child_entry(*b)));
                }
            }
            Some(build_kids(buf, kids, decode, reg, Ghost(box_end_spec(*h, parent_end)), Ghost(child_strict(*b, strict, entry)), Ghost(child_entry(*b))))
        },
        NodeKind::FullContainer { children, .. } => {
            proof {
                assert(children@ == node_children(*b));
                assert forall|i: int| 0 <= i < children@.len() implies #[trigger] box_wf(
                    children@[i],
                    buf@,
                    box_end_spec(*h, parent_end),
                    child_strict(*b, strict, entry),
                    child_entry(*b),
                ) by {
                    assert(box_wf(node_children(*b)[i], buf@, box_end_spec(b.hdr, parent_end), child_strict(*b, strict, entry), child_entry(*b)));
                }
            }
            Some(build_kids(buf, children, decode, reg, Ghost(box_end_spec(*h, parent_end)), Ghost(child_strict(*b, strict, entry)), Ghost(child_entry(*b))))
        },
        _ => None,
    };
    let (decoded, structured_data, field_spans) = if decode {
        decode_value(buf, b, reg)
    } else {
        (None, None, None)
    };
    Box {
        offset: h.start,
        size: h.size,
        header_size: h.header_size,
        payload_offset,
        payload_size,
        typ: h.typ.as_str_lossy(),
        uuid,
        version,
        flags,
        kind,
        full_name,
        decoded,
        structured_data,
        children,
        field_spans,
    }
}

fn build_kids<D: BoxDecoder>(buf: &[u8], kids: &Vec<BoxRef>, decode: bool, reg: Option<&Registry<D>>, Ghost(pe): Ghost<int>, Ghost(strict): Ghost<bool>, Ghost(entry): Ghost<bool>) -> (r: Vec<Box>)
    requires
        forall|i: int| 0 <= i < kids@.len() ==> #[trigger] box_wf(kids@[i], buf@, pe, strict, entry),
    ensures
        r@.len() == kids@.len(),
        kids_view(r@, kids@, 0, buf@, decode, reg_keys(reg)),
    decreases kids@,
{
    let mut out: Vec<Box> = Vec::new();
    let mut i: usize = 0;
    while i < kids.len()
        invariant
            i <= kids@.len(),
            out@.len() == i,
            forall|j: int| 0 <= j < kids@.len() ==> #[trigger] box_wf(kids@[j], buf@, pe, strict, entry),
            forall|j: int| 0 <= j < i ==> #[trigger] box_view(out@[j], kids@[j], buf@, decode, reg_keys(reg)),
        decreases kids@.len() - i,
    {
        let bx = build_box(buf, &kids[i], decode, reg, Ghost(pe), Ghost(strict), Ghost(entry));
        let ghost before = out@;
        out.push(bx);
        proof {
            assert forall|j: int| 0 <= j < i + 1 implies #[trigger] box_view(out@[j], kids@[j], buf@, decode, reg_keys(reg)) by {
                if j < i {
                    assert(out@[j] == before[j]);
                }
            }
        }
        i = i + 1;
    }
    proof {
        lemma_kids_view_from_all(out@, kids@, 0, buf@, decode, reg_keys(reg));
    }
    out
}

/// `bs` is the plain-value tree of a strict parse of the whole of `buf`,
/// decoded with the built-in decoders.
pub open spec fn parsed_tree(buf: Seq<u8>, bs: Seq<Box>, decode: bool) -> bool {
    parsed_tree_with::<DecoderKind>(buf, bs, decode, None)
}

/// `bs` is the plain-value tree of a strict parse of the whole of `buf`,
/// decoded with the decoders `keys` stands for (see `decode_view`).
pub open spec fn parsed_tree_with<D: BoxDecoder>(buf: Seq<u8>, bs: Seq<Box>, decode: bool, keys: Option<(Map<BoxKey, (Seq<char>, D)>, bool)>) -> bool {
    exists|refs: Seq<BoxRef>|
        {
            &&& refs.len() == bs.len()
            &&& crate::parser::chain(refs, 0, buf.len() as int, true)
            &&& forall|i: int|
                0 <= i < refs.len() ==> #[trigger] box_wf(refs[i], buf, buf.len() as int, true, false)
            &&& #[trigger] kids_view(bs, refs, 0, buf, decode, keys)
        }
}

/// Parses a whole file held in memory and returns its box tree as plain
/// values; with `decode`, known boxes carry their decoded text, structured
/// data and field spans. Fails exactly when the strict parse does, with
/// its first error.
pub fn get_boxes(buf: &[u8], decode: bool) -> (r: Result<Vec<Box>, ParseError>)
    ensures
        r matches Ok(bs) ==> parsed_tree(buf@, bs@, decode),
        match crate::parser::kids_err(buf@, 0, buf@.len() as int, true) {
            Some(e) => r matches Err(x) && x == e,
            None => r is Ok,
        },
{
    let refs = parse_boxes(buf, 0, buf.len())?;
    let bs = build_kids::<DecoderKind>(buf, &refs, decode, None, Ghost(buf@.len() as int), Ghost(true), Ghost(false));
    Ok(bs)
}

/// Like [`get_boxes`], but decodes with the decoders of `registry`: a box
/// whose key the registry holds shows its decoder's result; other boxes
/// show the built-in decoders' result when the registry extends them
/// ([`default_registry`](crate::registry::default_registry)), and nothing
/// otherwise.
pub fn get_boxes_with_registry<D: BoxDecoder>(buf: &[u8], decode: bool, registry: &Registry<D>) -> (r: Result<
    Vec<Box>,
    ParseError,
>)
    ensures
        r matches Ok(bs) ==> parsed_tree_with(buf@, bs@, decode, Some((registry@, registry.spec_builtins()))),
        match crate::parser::kids_err(buf@, 0, buf@.len() as int, true) {
            Some(e) => r matches Err(x) && x == e,
            None => r is Ok,
        },
{
    let refs = parse_boxes(buf, 0, buf.len())?;
    let bs = build_kids(buf, &refs, decode, Some(registry), Ghost(buf@.len() as int), Ghost(true), Ghost(false));
    Ok(bs)
}

/// Parses a whole file held in memory without giving up on damage: the
/// tree holds every box that could be read (each run of siblings up to the
/// first unreadable header; a box whose interior fails is kept as a leaf),
/// and the issues say what was wrong and where (see `kids_issues`). On a
/// file the strict parse accepts, the tree is the strict one.
pub fn get_boxes_tolerant(buf: &[u8], decode: bool) -> (r: (Vec<Box>, Vec<ParseIssue>))
    ensures
        exists|refs: Seq<BoxRef>|
            {
                &&& refs.len() == r.0@.len()
                &&& crate::parser::chain(refs, 0, buf@.len() as int, false)
                &&& crate::parser::chain_end(refs, 0, buf@.len() as int) == crate::parser::stop_at(
                    buf@,
                    0,
                    buf@.len() as int,
                )
                &&& forall|i: int|
                    0 <= i < refs.len() ==> #[trigger] box_wf(refs[i], buf@, buf@.len() as int, false, false)
                &&& kids_view::<DecoderKind>(r.0@, refs, 0, buf@, decode, None)
            },
        crate::parser::issue_seq(r.1@) == crate::parser::kids_issues(buf@, 0, buf@.len() as int),
        crate::parser::kids_err(buf@, 0, buf@.len() as int, true) is None ==> parsed_tree(buf@, r.0@, decode),
{
    let (refs, issues) = parse_boxes_tolerant(buf, 0, buf.len());
    let bs = build_kids::<DecoderKind>(buf, &refs, decode, None, Ghost(buf@.len() as int), Ghost(false), Ghost(false));
    proof {
        if crate::parser::kids_err(buf@, 0, buf@.len() as int, true) is None {
            assert(kids_view::<DecoderKind>(bs@, refs@, 0, buf@, decode, None));
        }
    }
    (bs, issues)
}

// ---------- hex dumps ----------

/// A hex dump of a byte range.
#[derive(Debug)]
pub struct HexDump {
    /// Starting offset of the dumped data
    pub offset: u64,
    /// Number of bytes dumped
    pub length: u64,
    /// The formatted dump, one line per 16 bytes
    pub hex: String,
}

/// Hex-dumps up to `max_len` bytes of `buf` from `offset`, never past its
/// end.
pub fn hex_range(buf: &[u8], offset: u64, max_len: u64) -> (r: HexDump)
    ensures
        ({
            let avail = sat_sub(buf@.len() as int, offset as int);
            let n = if avail < max_len {
                avail
            } else {
                max_len as int
            };
            &&& r.offset == offset
            &&& r.length == n
            &&& r.hex@ == if n == 0 {
                Seq::empty()
            } else {
                spec_hex_dump(buf@.subrange(offset as int, offset + n), offset as nat)
            }
        }),
{
    let size = buf.len() as u64;
    let available = if size > offset {
        size - offset
    } else {
        0
    };
    let to_read = if available < max_len {
        available
    } else {
        max_len
    };
    if to_read == 0 {
        return HexDump { offset, length: 0, hex: String::new() };
    }
    let a = offset as usize;
    let data = crate::util::copy_range(buf, a, a + to_read as usize);
    let hex = hex_dump(data.as_slice(), offset);
    HexDump { offset, length: to_read, hex }
}

} // verus!
