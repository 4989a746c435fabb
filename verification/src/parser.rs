//! Box-tree parsing over an in-memory buffer.
//!
//! Boxes are parsed recursively: known containers descend into their
//! children, FullBoxes expose their version/flags, `stsd` exposes its sample
//! entries and their codec-configuration children, and everything else is a
//! leaf. A box whose declared size overruns its parent is clamped to the
//! parent.

use vstd::prelude::*;
use crate::boxes::{BoxHeader, BoxRef, FourCC, NodeKind};
use crate::known_boxes::KnownBox;
use crate::util::{be_at, be_value, read_be, read_u16, read_u32, read_u64, push_str, push_decimal, spec_decimal, lemma_be_value_bound, lemma_pow256_values};

verus! {

/// Why a box could not be parsed.
#[derive(Debug, Clone, Copy, PartialEq, Eq, Structural)]
pub enum ParseError {
    /// The buffer ended inside a header or a fixed field.
    Truncated,
    /// A declared box size is smaller than its own header.
    InvalidSize,
}

impl ParseError {
    pub open spec fn spec_message(self) -> &'static str {
        match self {
            ParseError::Truncated => "io: failed to fill whole buffer",
            ParseError::InvalidSize => "invalid box size",
        }
    }

    /// Human-readable description.
    pub fn message(&self) -> (r: &'static str)
        ensures
            r == self.spec_message(),
    {
        match self {
            ParseError::Truncated => "io: failed to fill whole buffer",
            ParseError::InvalidSize => "invalid box size",
        }
    }
}

/// A problem encountered while parsing in tolerant mode.
#[derive(Debug, Clone)]
pub struct ParseIssue {
    /// Offset where the problem was detected.
    pub offset: u64,
    /// Human-readable description.
    pub message: String,
}

// ---------- header ----------

/// The bytes of the fourcc `uuid`.
pub open spec fn uuid_tag() -> Seq<u8> {
    seq![117u8, 117u8, 105u8, 100u8]
}

/// Length of the size/type part of the header at `pos`: 16 with a 64-bit
/// largesize (32-bit size field == 1), else 8.
pub open spec fn header_base(buf: Seq<u8>, pos: int) -> int {
    if be_at(buf, pos, 4) == 1 {
        16
    } else {
        8
    }
}

pub open spec fn header_is_uuid(buf: Seq<u8>, pos: int) -> bool {
    buf.subrange(pos + 4, pos + 8) == uuid_tag()
}

/// Full header length at `pos`, including the extended uuid type.
pub open spec fn header_len_at(buf: Seq<u8>, pos: int) -> int {
    header_base(buf, pos) + if header_is_uuid(buf, pos) {
        16int
    } else {
        0int
    }
}

/// The box size declared at `pos` (32-bit field, or the 64-bit largesize).
pub open spec fn declared_size(buf: Seq<u8>, pos: int) -> nat {
    if be_at(buf, pos, 4) == 1 {
        be_at(buf, pos + 8, 8)
    } else {
        be_at(buf, pos, 4)
    }
}

/// Why reading a header at `pos` fails, if it does.
pub open spec fn header_error(buf: Seq<u8>, pos: int) -> Option<ParseError> {
    if pos + 8 > buf.len() {
        Some(ParseError::Truncated)
    } else if pos + header_len_at(buf, pos) > buf.len() {
        Some(ParseError::Truncated)
    } else if declared_size(buf, pos) != 0 && declared_size(buf, pos) < header_len_at(buf, pos) {
        Some(ParseError::InvalidSize)
    } else {
        None
    }
}

/// `h` is the header read at `pos`.
pub open spec fn header_parsed(h: BoxHeader, buf: Seq<u8>, pos: int) -> bool {
    &&& 0 <= pos
    &&& header_error(buf, pos) is None
    &&& h.start == pos
    &&& h.typ.0@ == buf.subrange(pos + 4, pos + 8)
    &&& h.size == declared_size(buf, pos)
    &&& h.header_size == header_len_at(buf, pos)
    &&& if header_is_uuid(buf, pos) {
        h.uuid matches Some(u) && u@ == buf.subrange(
            pos + header_base(buf, pos),
            pos + header_base(buf, pos) + 16,
        )
    } else {
        h.uuid is None
    }
}

/// Reads a box header at `pos`.
pub fn read_box_header(buf: &[u8], pos: usize) -> (r: Result<BoxHeader, ParseError>)
    ensures
        match r {
            Ok(h) => header_parsed(h, buf@, pos as int),
            Err(e) => header_error(buf@, pos as int) == Some(e),
        },
{
    if pos > buf.len() || buf.len() - pos < 8 {
        return Err(ParseError::Truncated);
    }
    let size32 = read_u32(buf, pos);
    let typ = FourCC([buf[pos + 4], buf[pos + 5], buf[pos + 6], buf[pos + 7]]);
    proof {
        assert(typ.0@ =~= buf@.subrange(pos + 4, pos + 8));
    }
    let mut p = pos + 8;
    let mut size: u64 = size32 as u64;
    if size32 == 1 {
        if buf.len() - p < 8 {
            return Err(ParseError::Truncated);
        }
        size = read_u64(buf, p);
        p = p + 8;
    }
    let is_uuid = typ.equals([117u8, 117u8, 105u8, 100u8]);
    proof {
        assert(seq![117u8, 117u8, 105u8, 100u8] =~= [117u8, 117u8, 105u8, 100u8]@);
    }
    let mut uuid: Option<[u8; 16]> = None;
    if is_uuid {
        if buf.len() - p < 16 {
            return Err(ParseError::Truncated);
        }
        let u = [
            buf[p], buf[p + 1], buf[p + 2], buf[p + 3], buf[p + 4], buf[p + 5], buf[p + 6],
            buf[p + 7], buf[p + 8], buf[p + 9], buf[p + 10], buf[p + 11], buf[p + 12],
            buf[p + 13], buf[p + 14], buf[p + 15],
        ];
        proof {
            assert(u@ =~= buf@.subrange(p as int, p + 16));
        }
        uuid = Some(u);
        p = p + 16;
    }
    let header_size = (p - pos) as u64;
    if size != 0 && size < header_size {
        return Err(ParseError::InvalidSize);
    }
    Ok(BoxHeader { size, typ, uuid, header_size, start: pos as u64 })
}

/// Exclusive end of a box, clamped to its parent; size 0 extends to the
/// parent's end.
pub open spec fn box_end_spec(h: BoxHeader, parent_end: int) -> int {
    if h.size == 0 {
        parent_end
    } else if h.start + h.size <= parent_end {
        h.start + h.size
    } else {
        parent_end
    }
}

/// Exclusive end of a box, clamped to `parent_end`.
pub(crate) fn box_end(h: &BoxHeader, parent_end: usize) -> (r: usize)
    requires
        h.start <= parent_end,
    ensures
        r == box_end_spec(*h, parent_end as int),
{
    if h.size == 0 {
        parent_end
    } else if h.size <= (parent_end as u64 - h.start) {
        (h.start + h.size) as usize
    } else {
        parent_end
    }
}

/// `a - b`, or 0 when `b > a`.
pub open spec fn sat_sub(a: int, b: int) -> int {
    if a >= b {
        a - b
    } else {
        0
    }
}

/// FullBox version and 24-bit flags stored at `pos`.
pub open spec fn vf_at(buf: Seq<u8>, pos: int, version: u8, flags: u32) -> bool {
    &&& pos + 4 <= buf.len()
    &&& version == buf[pos]
    &&& flags == be_at(buf, pos + 1, 3)
}

fn read_version_flags(buf: &[u8], pos: usize) -> (r: Result<(u8, u32), ParseError>)
    ensures
        r is Ok <==> pos + 4 <= buf@.len(),
        r is Err ==> r == Err::<(u8, u32), ParseError>(ParseError::Truncated),
        r matches Ok((v, f)) ==> vf_at(buf@, pos as int, v, f),
{
    if pos > buf.len() || buf.len() - pos < 4 {
        return Err(ParseError::Truncated);
    }
    let version = buf[pos];
    let f = read_be(buf, pos + 1, 3);
    proof {
        lemma_be_value_bound(buf@.subrange(pos + 1, pos + 4));
        lemma_pow256_values();
    }
    Ok((version, f as u32))
}

/// Every byte of the fourcc is printable ASCII.
pub open spec fn printable(cc: FourCC) -> bool {
    forall|i: int| 0 <= i < 4 ==> 0x20 <= #[trigger] cc.0@[i] <= 0x7e
}

fn fourcc_is_printable(cc: &FourCC) -> (r: bool)
    ensures
        r == printable(*cc),
{
    let r = 0x20 <= cc.0[0] && cc.0[0] <= 0x7e && 0x20 <= cc.0[1] && cc.0[1] <= 0x7e && 0x20
        <= cc.0[2] && cc.0[2] <= 0x7e && 0x20 <= cc.0[3] && cc.0[3] <= 0x7e;
    proof {
        if r {
            assert forall|i: int| 0 <= i < 4 implies 0x20 <= #[trigger] cc.0@[i] <= 0x7e by {
                if i == 0 {
                } else if i == 1 {
                } else if i == 2 {
                } else {
                }
            }
        } else {
            assert(!(0x20 <= cc.0@[0] <= 0x7e) || !(0x20 <= cc.0@[1] <= 0x7e) || !(0x20
                <= cc.0@[2] <= 0x7e) || !(0x20 <= cc.0@[3] <= 0x7e));
        }
    }
    r
}

/// A QuickTime-style `meta` (no version/flags): the first 8 bytes after the
/// header already form a plausible child box header.
pub open spec fn meta_is_quicktime(buf: Seq<u8>, content_start: int, box_end: int) -> bool {
    &&& content_start + 8 <= box_end
    &&& be_at(buf, content_start, 4) >= 8
    &&& content_start + be_at(buf, content_start, 4) <= box_end
    &&& forall|i: int|
        0 <= i < 4 ==> 0x20 <= #[trigger] buf[content_start + 4 + i] <= 0x7e
}

fn meta_is_quicktime_style(buf: &[u8], content_start: usize, box_end: usize) -> (r: bool)
    requires
        box_end <= buf@.len(),
    ensures
        r == meta_is_quicktime(buf@, content_start as int, box_end as int),
{
    if content_start > box_end || box_end - content_start < 8 {
        return false;
    }
    let size = read_u32(buf, content_start) as u64;
    let typ = FourCC(
        [
            buf[content_start + 4],
            buf[content_start + 5],
            buf[content_start + 6],
            buf[content_start + 7],
        ],
    );
    let p = fourcc_is_printable(&typ);
    proof {
        let cs = content_start as int;
        assert(typ.0@ =~= buf@.subrange(cs + 4, cs + 8));
        if p {
            assert forall|i: int| 0 <= i < 4 implies 0x20 <= #[trigger] buf@[cs + 4 + i] <= 0x7e by {
                assert(typ.0@[i] == buf@[cs + 4 + i]);
            }
        } else {
            let i = choose|i: int| 0 <= i < 4 && !(0x20 <= #[trigger] typ.0@[i] <= 0x7e);
            assert(typ.0@[i] == buf@[cs + 4 + i]);
        }
    }
    size >= 8 && size <= (box_end - content_start) as u64 && p
}

/// Appending keeps a prefix a prefix.
pub proof fn lemma_prefix_push<T>(a: Seq<T>, b: Seq<T>, x: T)
    requires
        a.is_prefix_of(b),
    ensures
        a.is_prefix_of(b.push(x)),
{
    assert(b.push(x).subrange(0, a.len() as int) =~= b.subrange(0, a.len() as int));
}

/// A prefix of a prefix is a prefix.
pub proof fn lemma_prefix_trans<T>(a: Seq<T>, b: Seq<T>, c: Seq<T>)
    requires
        a.is_prefix_of(b),
        b.is_prefix_of(c),
    ensures
        a.is_prefix_of(c),
{
    assert(c.subrange(0, a.len() as int) =~= c.subrange(0, b.len() as int).subrange(0, a.len() as int));
}

// ---------- tree well-formedness ----------

/// End of a run of sibling boxes starting at `lo`.
pub open spec fn chain_end(kids: Seq<BoxRef>, lo: int, hi: int) -> int {
    if kids.len() == 0 {
        lo
    } else {
        box_end_spec(kids.last().hdr, hi)
    }
}

/// Siblings laid out back to back inside `[lo, hi)`: each starts where the
/// previous one ends. With `complete`, fewer than 8 bytes (not enough for
/// another header) are left after the last one.
#[verifier::opaque]
pub open spec fn chain(kids: Seq<BoxRef>, lo: int, hi: int, complete: bool) -> bool {
    &&& forall|i: int|
        0 <= i < kids.len() ==> lo <= (#[trigger] kids[i]).hdr.start && kids[i].hdr.start + 8 <= hi
    &&& kids.len() > 0 ==> kids[0].hdr.start == lo
    &&& forall|i: int|
        0 < i < kids.len() ==> (#[trigger] kids[i]).hdr.start == box_end_spec(kids[i - 1].hdr, hi)
    &&& complete ==> hi - chain_end(kids, lo, hi) < 8
}

pub proof fn lemma_chain_empty(lo: int, hi: int)
    ensures
        chain(Seq::<BoxRef>::empty(), lo, hi, false),
        chain_end(Seq::<BoxRef>::empty(), lo, hi) == lo,
{
    reveal(chain);
}

pub proof fn lemma_chain_push(kids: Seq<BoxRef>, k: BoxRef, lo: int, hi: int)
    requires
        chain(kids, lo, hi, false),
        k.hdr.start == chain_end(kids, lo, hi),
        lo <= k.hdr.start,
        k.hdr.start + 8 <= hi,
    ensures
        chain(kids.push(k), lo, hi, false),
        chain_end(kids.push(k), lo, hi) == box_end_spec(k.hdr, hi),
{
    reveal(chain);
    let n = kids.push(k);
    assert forall|i: int| 0 < i < n.len() implies (#[trigger] n[i]).hdr.start == box_end_spec(
        n[i - 1].hdr,
        hi,
    ) by {
        if i == kids.len() {
        } else {
            assert(n[i] == kids[i]);
        }
    }
}

pub proof fn lemma_chain_complete(kids: Seq<BoxRef>, lo: int, hi: int)
    requires
        chain(kids, lo, hi, false),
        hi - chain_end(kids, lo, hi) < 8,
    ensures
        chain(kids, lo, hi, true),
{
    reveal(chain);
}

/// The node kind a box's type calls for.
pub open spec fn class_ok(b: BoxRef, buf: Seq<u8>, be: int) -> bool {
    let kb = KnownBox::spec_from(b.hdr.typ);
    let cs = b.hdr.start + b.hdr.header_size;
    if kb is Stsd {
        b.kind is FullContainer
    } else if kb.spec_is_full_container() {
        if kb is Meta && meta_is_quicktime(buf, cs, be) {
            b.kind is Container
        } else {
            b.kind is FullContainer
        }
    } else if kb.spec_is_container() {
        b.kind is Container
    } else if kb.spec_is_full_box() {
        b.kind is FullBox
    } else if b.hdr.typ.0@ == uuid_tag() {
        b.kind is Unknown
    } else {
        b.kind is Leaf
    }
}

/// Whether every box in the run from `pos` to `end`, walked as a strict
/// parse walks it, has a readable header naming a printable fourcc.
pub open spec fn types_printable(buf: Seq<u8>, pos: int, end: int) -> bool
    decreases end - pos,
{
    if pos < 0 || pos > end || end - pos < 8 {
        true
    } else if header_error(buf, pos) is Some {
        false
    } else {
        printable(typ_at(buf, pos)) && types_printable(buf, box_end_at(buf, pos, end), end)
    }
}

/// Whether a sample entry opens onto child boxes: its type has a known
/// fixed-field length, a box header fits after those fields, the boxes from
/// there to the entry's end parse strictly, and each names a printable
/// fourcc.
pub open spec fn entry_opens(buf: Seq<u8>, h: BoxHeader, be: int) -> bool {
    let cs = h.start + h.header_size;
    match sample_fixed_len(buf, h.typ, cs, be) {
        Some(f) => {
            &&& cs + f + 8 <= be
            &&& kids_err(buf, cs + f, be, true) is None
            &&& types_printable(buf, cs + f, be)
        },
        None => false,
    }
}

/// Kind rule: a sample entry is a container of child boxes exactly when it
/// opens onto them, else an opaque leaf; in tolerant mode any box may have degraded to a leaf;
/// otherwise the kind follows the box's type.
pub open spec fn kind_ok(b: BoxRef, buf: Seq<u8>, be: int, strict: bool, entry: bool) -> bool {
    if entry {
        &&& b.kind is Container || b.kind is Leaf
        &&& (b.kind is Container <==> entry_opens(buf, b.hdr, be))
    } else if !strict && b.kind is Leaf {
        true
    } else {
        class_ok(b, buf, be)
    }
}

/// The box's header was read at its start and fits in its parent.
pub open spec fn box_common(b: BoxRef, buf: Seq<u8>, parent_end: int) -> bool {
    &&& parent_end <= buf.len()
    &&& header_parsed(b.hdr, buf, b.hdr.start as int)
    &&& b.hdr.start + 8 <= parent_end
}

/// The child boxes of a node (empty for non-containers).
pub open spec fn node_children(b: BoxRef) -> Seq<BoxRef> {
    match b.kind {
        NodeKind::Container(kids) => kids@,
        NodeKind::FullContainer { children, .. } => children@,
        _ => Seq::empty(),
    }
}

/// Whether the children of `b` were parsed strictly.
pub open spec fn child_strict(b: BoxRef, strict: bool, entry: bool) -> bool {
    match b.kind {
        NodeKind::Container(_) => strict || entry,
        _ => strict,
    }
}

/// Whether the children of `b` are sample entries (children of `stsd`).
pub open spec fn child_entry(b: BoxRef) -> bool {
    match b.kind {
        NodeKind::FullContainer { .. } => KnownBox::spec_from(b.hdr.typ) is Stsd,
        _ => false,
    }
}

/// The payload geometry of a node and the layout of its children, without
/// looking into the children.
pub open spec fn shape_ok(b: BoxRef, buf: Seq<u8>, parent_end: int, strict: bool, entry: bool) -> bool {
    let h = b.hdr;
    let cs = h.start + h.header_size;
    let be = box_end_spec(h, parent_end);
    match b.kind {
        NodeKind::Container(kids) => {
            &&& entry ==> kids@.len() > 0
            &&& entry ==> forall|i: int|
                0 <= i < kids@.len() ==> printable(#[trigger] kids@[i].hdr.typ)
            &&& entry ==> sample_fixed_len(buf, h.typ, cs, be) is Some
            &&& chain(
                kids@,
                if entry {
                    cs + sample_fixed_len(buf, h.typ, cs, be).unwrap()
                } else {
                    cs
                },
                be,
                strict || entry,
            )
        },
        NodeKind::FullContainer { version, flags, data_offset, data_len, children } => {
            &&& vf_at(buf, cs, version, flags)
            &&& data_offset == cs + 4
            &&& data_len == sat_sub(be, cs + 4)
            &&& chain(
                children@,
                if KnownBox::spec_from(h.typ) is Stsd { cs + 8 } else { cs + 4 },
                be,
                strict,
            )
            &&& KnownBox::spec_from(h.typ) is Stsd ==> cs + 8 <= buf.len()
        },
        NodeKind::FullBox { version, flags, data_offset, data_len } => {
            &&& vf_at(buf, cs, version, flags)
            &&& data_offset == cs + 4
            &&& data_len == sat_sub(be, cs + 4)
        },
        NodeKind::Leaf { data_offset, data_len } => {
            &&& data_offset == cs
            &&& data_len == sat_sub(be, cs)
        },
        NodeKind::Unknown { data_offset, data_len } => {
            &&& data_offset == cs
            &&& data_len == sat_sub(be, cs)
        },
    }
}

/// In a tolerant parse outside sample entries, a box is kept as a leaf
/// against its type exactly when its interior could not be read, and its
/// children run up to where a tolerant parse of them stops.
pub open spec fn tolerant_ok(b: BoxRef, buf: Seq<u8>, parent_end: int, strict: bool, entry: bool) -> bool {
    let h = b.hdr;
    let cs = h.start + h.header_size;
    let be = box_end_spec(h, parent_end);
    !strict && !entry ==> {
        &&& (box_err(buf, h.start as int, parent_end, false) is Some <==> !class_ok(b, buf, be))
        &&& match b.kind {
            NodeKind::Container(kids) => chain_end(kids@, cs, be) == stop_at(buf, cs, be),
            NodeKind::FullContainer { children, .. } => {
                let lo = if KnownBox::spec_from(h.typ) is Stsd {
                    cs + 8
                } else {
                    cs + 4
                };
                chain_end(children@, lo, be) == stop_at(buf, lo, be)
            },
            _ => true,
        }
    }
}

/// The parts of well-formedness that concern the node itself.
#[verifier::opaque]
pub open spec fn node_ok(b: BoxRef, buf: Seq<u8>, parent_end: int, strict: bool, entry: bool) -> bool {
    &&& box_common(b, buf, parent_end)
    &&& kind_ok(b, buf, box_end_spec(b.hdr, parent_end), strict, entry)
    &&& shape_ok(b, buf, parent_end, strict, entry)
    &&& tolerant_ok(b, buf, parent_end, strict, entry)
}

/// A parsed box agrees with the bytes: its header was read at its start,
/// its kind follows its type, its payload geometry is derived from its
/// clamped end, and its children are laid out back to back inside it,
/// recursively.
pub open spec fn box_wf(b: BoxRef, buf: Seq<u8>, parent_end: int, strict: bool, entry: bool) -> bool
    decreases b, 0int,
{
    &&& node_ok(b, buf, parent_end, strict, entry)
    &&& match b.kind {
        NodeKind::Container(kids) => kids_wf(
            kids@,
            0,
            buf,
            box_end_spec(b.hdr, parent_end),
            strict || entry,
            false,
        ),
        NodeKind::FullContainer { children, .. } => kids_wf(
            children@,
            0,
            buf,
            box_end_spec(b.hdr, parent_end),
            strict,
            KnownBox::spec_from(b.hdr.typ) is Stsd,
        ),
        _ => true,
    }
}

/// Every box of `s` from index `i` on is well formed inside `parent_end`.
pub open spec fn kids_wf(s: Seq<BoxRef>, i: int, buf: Seq<u8>, parent_end: int, strict: bool, entry: bool) -> bool
    decreases s, s.len() - i,
    when 0 <= i <= s.len()
{
    if i >= s.len() {
        true
    } else {
        box_wf(s[i], buf, parent_end, strict, entry) && kids_wf(s, i + 1, buf, parent_end, strict, entry)
    }
}

pub proof fn lemma_kids_wf_index(s: Seq<BoxRef>, i: int, j: int, buf: Seq<u8>, parent_end: int, strict: bool, entry: bool)
    requires
        0 <= i <= j < s.len(),
        kids_wf(s, i, buf, parent_end, strict, entry),
    ensures
        box_wf(s[j], buf, parent_end, strict, entry),
    decreases j - i,
{
    if i < j {
        lemma_kids_wf_index(s, i + 1, j, buf, parent_end, strict, entry);
    }
}

pub proof fn lemma_kids_wf_from_all(s: Seq<BoxRef>, i: int, buf: Seq<u8>, parent_end: int, strict: bool, entry: bool)
    requires
        0 <= i <= s.len(),
        forall|j: int| 0 <= j < s.len() ==> #[trigger] box_wf(s[j], buf, parent_end, strict, entry),
    ensures
        kids_wf(s, i, buf, parent_end, strict, entry),
    decreases s.len() - i,
{
    if i < s.len() {
        assert(box_wf(s[i], buf, parent_end, strict, entry));
        lemma_kids_wf_from_all(s, i + 1, buf, parent_end, strict, entry);
    }
}

/// Every child of `b` is well formed in `b`'s extent.
pub open spec fn children_wf(b: BoxRef, buf: Seq<u8>, parent_end: int, strict: bool, entry: bool) -> bool {
    forall|i: int|
        0 <= i < node_children(b).len() ==> #[trigger] box_wf(
            node_children(b)[i],
            buf,
            box_end_spec(b.hdr, parent_end),
            child_strict(b, strict, entry),
            child_entry(b),
        )
}

pub proof fn lemma_box_wf_intro(b: BoxRef, buf: Seq<u8>, parent_end: int, strict: bool, entry: bool)
    requires
        box_common(b, buf, parent_end),
        kind_ok(b, buf, box_end_spec(b.hdr, parent_end), strict, entry),
        shape_ok(b, buf, parent_end, strict, entry),
        tolerant_ok(b, buf, parent_end, strict, entry),
        children_wf(b, buf, parent_end, strict, entry),
    ensures
        box_wf(b, buf, parent_end, strict, entry),
{
    reveal(node_ok);
    let be = box_end_spec(b.hdr, parent_end);
    lemma_kids_wf_from_all(
        node_children(b),
        0,
        buf,
        be,
        child_strict(b, strict, entry),
        child_entry(b),
    );
}

pub proof fn lemma_box_wf_elim(b: BoxRef, buf: Seq<u8>, parent_end: int, strict: bool, entry: bool)
    requires
        box_wf(b, buf, parent_end, strict, entry),
    ensures
        box_common(b, buf, parent_end),
        kind_ok(b, buf, box_end_spec(b.hdr, parent_end), strict, entry),
        shape_ok(b, buf, parent_end, strict, entry),
        tolerant_ok(b, buf, parent_end, strict, entry),
        children_wf(b, buf, parent_end, strict, entry),
{
    reveal(node_ok);
    let be = box_end_spec(b.hdr, parent_end);
    assert forall|i: int| 0 <= i < node_children(b).len() implies #[trigger] box_wf(
        node_children(b)[i],
        buf,
        be,
        child_strict(b, strict, entry),
        child_entry(b),
    ) by {
        lemma_kids_wf_index(
            node_children(b),
            0,
            i,
            buf,
            be,
            child_strict(b, strict, entry),
            child_entry(b),
        );
    }
}

// ---------- sample entries ----------

/// Size of the fixed (non-box) fields of a sample entry, from the end of its
/// box header to where child boxes begin; `None` for entry types without a
/// known layout. Audio entries read the QuickTime sound description version
/// from the first two reserved bytes.
pub open spec fn sample_fixed_len(buf: Seq<u8>, typ: FourCC, cs: int, entry_end: int) -> Option<int> {
    let kb = KnownBox::spec_from(typ);
    if kb is Avc1 || kb is Avc2 || kb is Avc3 || kb is Avc4 || kb is Hev1 || kb is Hvc1
        || kb is Vvc1 || kb is Mp4v || kb is Vp08 || kb is Vp09 || kb is Av01 || kb is Dvh1
        || kb is Dvhe || kb is Dav1 || kb is Encv || kb is Apch || kb is Apcn || kb is Apcs
        || kb is Apco || kb is Ap4h || kb is Ap4x {
        Some(78)
    } else if kb is Mp4a || kb is Ac3 || kb is Ec3 || kb is Opus || kb is Samr || kb is Sawb
        || kb is Alac || kb is Flac || kb is Enca || kb is Ipcm || kb is Fpcm {
        if cs + 10 > entry_end {
            None
        } else if be_at(buf, cs + 8, 2) == 1 {
            Some(44)
        } else if be_at(buf, cs + 8, 2) == 2 {
            Some(64)
        } else {
            Some(28)
        }
    } else {
        None
    }
}

fn sample_entry_fixed_len(buf: &[u8], typ: FourCC, content_start: usize, entry_end: usize) -> (r:
    Option<usize>)
    requires
        entry_end <= buf@.len(),
    ensures
        r == (match sample_fixed_len(buf@, typ, content_start as int, entry_end as int) {
            Some(n) => Some(n as usize),
            None => None,
        }),
        r matches Some(n) ==> n <= 78,
{
    match KnownBox::from_fourcc(typ) {
        KnownBox::Avc1 | KnownBox::Avc2 | KnownBox::Avc3 | KnownBox::Avc4 | KnownBox::Hev1
        | KnownBox::Hvc1 | KnownBox::Vvc1 | KnownBox::Mp4v | KnownBox::Vp08 | KnownBox::Vp09
        | KnownBox::Av01 | KnownBox::Dvh1 | KnownBox::Dvhe | KnownBox::Dav1 | KnownBox::Encv
        | KnownBox::Apch | KnownBox::Apcn | KnownBox::Apcs | KnownBox::Apco | KnownBox::Ap4h
        | KnownBox::Ap4x => {
            Some(78)
        },
        KnownBox::Mp4a | KnownBox::Ac3 | KnownBox::Ec3 | KnownBox::Opus | KnownBox::Samr
        | KnownBox::Sawb | KnownBox::Alac | KnownBox::Flac | KnownBox::Enca | KnownBox::Ipcm
        | KnownBox::Fpcm => {
            if content_start > entry_end || entry_end - content_start < 10 {
                return None;
            }
            let v = read_u16(buf, content_start + 8);
            if v == 1 {
                Some(44)
            } else if v == 2 {
                Some(64)
            } else {
                Some(28)
            }
        },
        _ => None,
    }
}

/// The visual sample entry types (ISO/IEC 14496-12 and -15, VP8/VP9, AV1,
/// Dolby Vision, encrypted video and Apple ProRes), spelled as ASCII bytes:
/// avc1 avc2 avc3 avc4 hev1 hvc1 vvc1 mp4v vp08 vp09 av01 dvh1 dvhe dav1
/// encv apch apcn apcs apco ap4h ap4x.
pub open spec fn visual_entry_code(c: Seq<u8>) -> bool {
    c == seq![97u8, 118u8, 99u8, 49u8]
    || c == seq![97u8, 118u8, 99u8, 50u8]
    || c == seq![97u8, 118u8, 99u8, 51u8]
    || c == seq![97u8, 118u8, 99u8, 52u8]
    || c == seq![104u8, 101u8, 118u8, 49u8]
    || c == seq![104u8, 118u8, 99u8, 49u8]
    || c == seq![118u8, 118u8, 99u8, 49u8]
    || c == seq![109u8, 112u8, 52u8, 118u8]
    || c == seq![118u8, 112u8, 48u8, 56u8]
    || c == seq![118u8, 112u8, 48u8, 57u8]
    || c == seq![97u8, 118u8, 48u8, 49u8]
    || c == seq![100u8, 118u8, 104u8, 49u8]
    || c == seq![100u8, 118u8, 104u8, 101u8]
    || c == seq![100u8, 97u8, 118u8, 49u8]
    || c == seq![101u8, 110u8, 99u8, 118u8]
    || c == seq![97u8, 112u8, 99u8, 104u8]
    || c == seq![97u8, 112u8, 99u8, 110u8]
    || c == seq![97u8, 112u8, 99u8, 115u8]
    || c == seq![97u8, 112u8, 99u8, 111u8]
    || c == seq![97u8, 112u8, 52u8, 104u8]
    || c == seq![97u8, 112u8, 52u8, 120u8]
}

proof fn lemma_be_value4(s: Seq<u8>)
    requires
        s.len() == 4,
    ensures
        be_value(s) == s[0] as nat * 0x100_0000 + s[1] as nat * 0x1_0000 + s[2] as nat * 0x100
            + s[3] as nat,
{
    let s3 = s.drop_last();
    let s2 = s3.drop_last();
    let s1 = s2.drop_last();
    let s0 = s1.drop_last();
    assert(s0.len() == 0);
    assert(be_value(s0) == 0);
    assert(s1.last() == s[0] && s2.last() == s[1] && s3.last() == s[2] && s.last() == s[3]);
    assert(be_value(s1) == s[0] as nat);
    assert(be_value(s2) == s[0] as nat * 0x100 + s[1] as nat);
    assert(be_value(s3) == s[0] as nat * 0x1_0000 + s[1] as nat * 0x100 + s[2] as nat);
}

/// Every visual sample entry carries 78 bytes of fixed fields (the 8-byte
/// SampleEntry base and 70 bytes of VisualSampleEntry fields): its child
/// boxes start 78 bytes after its header, whatever the entry holds.
pub proof fn lemma_visual_entry_fixed(buf: Seq<u8>, typ: FourCC, cs: int, entry_end: int)
    requires
        visual_entry_code(typ.0@),
    ensures
        sample_fixed_len(buf, typ, cs, entry_end) == Some(78int),
{
    lemma_be_value4(typ.0@);
    reveal(KnownBox::spec_from);
}

/// The audio sample entry types, spelled as ASCII bytes: enca ipcm fpcm
/// mp4a ac-3 ec-3 opus Opus samr sawb alac fLaC.
pub open spec fn audio_entry_code(c: Seq<u8>) -> bool {
    c == seq![101u8, 110u8, 99u8, 97u8]
    || c == seq![105u8, 112u8, 99u8, 109u8]
    || c == seq![102u8, 112u8, 99u8, 109u8]
    || c == seq![109u8, 112u8, 52u8, 97u8]
    || c == seq![97u8, 99u8, 45u8, 51u8]
    || c == seq![101u8, 99u8, 45u8, 51u8]
    || c == seq![111u8, 112u8, 117u8, 115u8]
    || c == seq![79u8, 112u8, 117u8, 115u8]
    || c == seq![115u8, 97u8, 109u8, 114u8]
    || c == seq![115u8, 97u8, 119u8, 98u8]
    || c == seq![97u8, 108u8, 97u8, 99u8]
    || c == seq![102u8, 76u8, 97u8, 67u8]
}

/// An audio sample entry carries the 8-byte SampleEntry base and 20 bytes
/// of AudioSampleEntry fields, plus 16 more for a QuickTime version 1 sound
/// description; a version 2 description is 56 bytes after the base. The
/// version is the first two reserved bytes; an entry too short to hold
/// them has no known layout.
pub proof fn lemma_audio_entry_fixed(buf: Seq<u8>, typ: FourCC, cs: int, entry_end: int)
    requires
        audio_entry_code(typ.0@),
    ensures
        cs + 10 > entry_end ==> sample_fixed_len(buf, typ, cs, entry_end) is None,
        cs + 10 <= entry_end ==> sample_fixed_len(buf, typ, cs, entry_end) == Some(
            if be_at(buf, cs + 8, 2) == 1 {
                8 + 20 + 16int
            } else if be_at(buf, cs + 8, 2) == 2 {
                8 + 56int
            } else {
                8 + 20int
            },
        ),
{
    lemma_be_value4(typ.0@);
    reveal(KnownBox::spec_from);
}

/// A visual sample entry whose bytes after its 78 bytes of fixed fields
/// hold a run of readable boxes with printable types is parsed as a
/// container of those boxes: its first child is the box read right after
/// the fixed fields.
pub proof fn lemma_visual_entry_children(b: BoxRef, buf: Seq<u8>, parent_end: int, strict: bool)
    requires
        box_wf(b, buf, parent_end, strict, true),
        visual_entry_code(b.hdr.typ.0@),
        b.hdr.start + b.hdr.header_size + 78 + 8 <= box_end_spec(b.hdr, parent_end),
        kids_err(buf, b.hdr.start + b.hdr.header_size + 78, box_end_spec(b.hdr, parent_end), true) is None,
        types_printable(buf, b.hdr.start + b.hdr.header_size + 78, box_end_spec(b.hdr, parent_end)),
    ensures
        b.kind is Container,
        node_children(b).len() > 0,
        node_children(b)[0].hdr.start == b.hdr.start + b.hdr.header_size + 78,
        node_children(b)[0].hdr.typ.0@ == buf.subrange(
            b.hdr.start + b.hdr.header_size + 82,
            b.hdr.start + b.hdr.header_size + 86,
        ),
{
    let cs = b.hdr.start + b.hdr.header_size;
    let be = box_end_spec(b.hdr, parent_end);
    lemma_box_wf_elim(b, buf, parent_end, strict, true);
    lemma_visual_entry_fixed(buf, b.hdr.typ, cs, be);
    assert(entry_opens(buf, b.hdr, be));
    reveal(chain);
    let k = node_children(b)[0];
    assert(box_wf(k, buf, be, child_strict(b, strict, true), child_entry(b)));
    lemma_box_wf_elim(k, buf, be, child_strict(b, strict, true), child_entry(b));
}

fn all_printable(kids: &Vec<BoxRef>) -> (r: bool)
    ensures
        r == forall|i: int| 0 <= i < kids@.len() ==> printable(#[trigger] kids@[i].hdr.typ),
{
    let mut i: usize = 0;
    while i < kids.len()
        invariant
            i <= kids@.len(),
            forall|j: int| 0 <= j < i ==> printable(#[trigger] kids@[j].hdr.typ),
        decreases kids@.len() - i,
    {
        if !fourcc_is_printable(&kids[i].hdr.typ) {
            return false;
        }
        i = i + 1;
    }
    true
}

/// Parses the child boxes of a sample entry, falling back to a leaf if the
/// entry type is unknown or its contents don't look like boxes.
/// Over a complete run of parsed siblings from position `j` on, every
/// sibling has a printable type exactly when the run read from the bytes
/// does.
proof fn lemma_chain_types(kids: Seq<BoxRef>, buf: Seq<u8>, lo: int, hi: int, j: int)
    requires
        chain(kids, lo, hi, true),
        0 <= j <= kids.len(),
        forall|i: int| 0 <= i < kids.len() ==> header_parsed(#[trigger] kids[i].hdr, buf, kids[i].hdr.start as int),
    ensures
        (forall|i: int| j <= i < kids.len() ==> printable(#[trigger] kids[i].hdr.typ)) == types_printable(
            buf,
            if j < kids.len() {
                kids[j].hdr.start as int
            } else {
                chain_end(kids, lo, hi)
            },
            hi,
        ),
    decreases kids.len() - j,
{
    reveal(chain);
    if j < kids.len() {
        lemma_chain_types(kids, buf, lo, hi, j + 1);
        let k = kids[j];
        let pos = k.hdr.start as int;
        assert(header_parsed(k.hdr, buf, pos));
        lemma_header_at(k.hdr, buf, pos, hi);
        if j + 1 < kids.len() {
            assert(kids[j + 1].hdr.start == box_end_spec(kids[j].hdr, hi));
        }
        if forall|i: int| j <= i < kids.len() ==> printable(#[trigger] kids[i].hdr.typ) {
            assert forall|i: int| j + 1 <= i < kids.len() implies printable(#[trigger] kids[i].hdr.typ) by {}
        }
        if printable(k.hdr.typ) && (forall|i: int| j + 1 <= i < kids.len() ==> printable(#[trigger] kids[i].hdr.typ)) {
            assert forall|i: int| j <= i < kids.len() implies printable(#[trigger] kids[i].hdr.typ) by {
                if i == j {
                } else {
                }
            }
        }
    }
}

fn parse_sample_entry(buf: &[u8], h: &BoxHeader, parent_end: usize) -> (r: NodeKind)
    requires
        header_parsed(*h, buf@, h.start as int),
        h.start + 8 <= parent_end <= buf@.len(),
    ensures
        box_wf(BoxRef { hdr: *h, kind: r }, buf@, parent_end as int, true, true),
        box_wf(BoxRef { hdr: *h, kind: r }, buf@, parent_end as int, false, true),
    decreases box_end_spec(*h, parent_end as int) - h.start, 0int,
{
    let blen = buf.len();
    proof {
        assert(blen == buf@.len());
    }
    let entry_end = box_end(h, parent_end);
    let content_start = (h.start + h.header_size) as usize;
    let leaf_len = if entry_end >= content_start {
        entry_end - content_start
    } else {
        0
    };
    let fixed = sample_entry_fixed_len(buf, h.typ, content_start, entry_end);
    match fixed {
        None => {
            let r = NodeKind::Leaf { data_offset: content_start as u64, data_len: leaf_len as u64 };
            proof {
                lemma_box_wf_intro(BoxRef { hdr: *h, kind: r }, buf@, parent_end as int, true, true);
                lemma_box_wf_intro(BoxRef { hdr: *h, kind: r }, buf@, parent_end as int, false, true);
            }
            r
        },
        Some(f) => {
            if content_start > entry_end || entry_end - content_start < f + 8 {
                let r = NodeKind::Leaf { data_offset: content_start as u64, data_len: leaf_len as u64 };
                proof {
                    lemma_box_wf_intro(BoxRef { hdr: *h, kind: r }, buf@, parent_end as int, true, true);
                    lemma_box_wf_intro(BoxRef { hdr: *h, kind: r }, buf@, parent_end as int, false, true);
                }
                return r;
            }
            let child_start = content_start + f;
            let mut scratch: Vec<ParseIssue> = Vec::new();
            let r = match parse_children_impl(buf, child_start, entry_end, true, &mut scratch) {
                Ok(kids) => {
                    proof {
                        assert forall|i: int| 0 <= i < kids@.len() implies header_parsed(
                            #[trigger] kids@[i].hdr,
                            buf@,
                            kids@[i].hdr.start as int,
                        ) by {
                            lemma_box_wf_elim(kids@[i], buf@, entry_end as int, true, false);
                        }
                        lemma_chain_types(kids@, buf@, child_start as int, entry_end as int, 0);
                        reveal(chain);
                    }
                    if kids.len() > 0 && all_printable(&kids) {
                        NodeKind::Container(kids)
                    } else {
                        NodeKind::Leaf { data_offset: content_start as u64, data_len: leaf_len as u64 }
                    }
                },
                Err(_) => NodeKind::Leaf {
                    data_offset: content_start as u64,
                    data_len: leaf_len as u64,
                },
            };
            proof {
                lemma_box_wf_intro(BoxRef { hdr: *h, kind: r }, buf@, parent_end as int, true, true);
                lemma_box_wf_intro(BoxRef { hdr: *h, kind: r }, buf@, parent_end as int, false, true);
            }
            r
        },
    }
}

// ---------- when a strict parse fails ----------

/// The fourcc of the header at `pos`.
pub open spec fn typ_at(buf: Seq<u8>, pos: int) -> FourCC {
    choose|c: FourCC| c.0@ == buf.subrange(pos + 4, pos + 8)
}

/// Exclusive end of the box whose header is at `pos`, clamped to `end`.
pub open spec fn box_end_at(buf: Seq<u8>, pos: int, end: int) -> int {
    if declared_size(buf, pos) == 0 {
        end
    } else if pos + declared_size(buf, pos) <= end {
        pos + declared_size(buf, pos)
    } else {
        end
    }
}

/// What a parsed header says is what the bytes at its start say.
pub proof fn lemma_header_at(h: BoxHeader, buf: Seq<u8>, pos: int, end: int)
    requires
        header_parsed(h, buf, pos),
    ensures
        h.typ == typ_at(buf, pos),
        h.header_size == header_len_at(buf, pos),
        box_end_spec(h, end) == box_end_at(buf, pos, end),
{
    let c = typ_at(buf, pos);
    assert(h.typ.0@ == buf.subrange(pos + 4, pos + 8));
    assert(c.0@ == buf.subrange(pos + 4, pos + 8));
    assert(c.0 =~= h.typ.0) by {
        assert forall|i: int| 0 <= i < 4 implies c.0[i] == h.typ.0[i] by {
            assert(c.0@[i] == h.typ.0@[i]);
        }
    }
}

/// The first error of a strict parse of the sample entries of an `stsd`
/// from `pos` on: an unreadable entry header (sample entries themselves
/// never fail).
pub open spec fn entries_err(buf: Seq<u8>, pos: int, end: int) -> Option<ParseError>
    decreases end - pos,
{
    if pos < 0 || pos > end || end - pos < 8 {
        None
    } else {
        match header_error(buf, pos) {
            Some(e) => Some(e),
            None => entries_err(buf, box_end_at(buf, pos, end), end),
        }
    }
}

/// The first error of parsing the `stsd` whose header is at `pos`: its
/// version, flags or entry count do not fit in the buffer, or (strict) an
/// entry header is unreadable.
pub open spec fn stsd_err(buf: Seq<u8>, pos: int, end: int, strict: bool) -> Option<ParseError> {
    let cs = pos + header_len_at(buf, pos);
    if cs + 4 > buf.len() || cs + 8 > buf.len() {
        Some(ParseError::Truncated)
    } else if strict {
        entries_err(buf, cs + 8, box_end_at(buf, pos, end))
    } else {
        None
    }
}

/// The first error of a parse of the boxes in `[pos, end)`: only a strict
/// parse fails, at the first box whose header or interior cannot be read.
pub open spec fn kids_err(buf: Seq<u8>, pos: int, end: int, strict: bool) -> Option<ParseError>
    decreases end - pos, 2int,
{
    if !strict || pos < 0 || pos > end || end - pos < 8 {
        None
    } else {
        match header_error(buf, pos) {
            Some(e) => Some(e),
            None => match box_err(buf, pos, end, strict) {
                Some(e) => Some(e),
                None => kids_err(buf, box_end_at(buf, pos, end), end, strict),
            },
        }
    }
}

/// The first error of parsing the interior of the box whose (readable)
/// header is at `pos`: full boxes and full containers need their version
/// and flags, `stsd` its entry count, and containers their children.
pub open spec fn box_err(buf: Seq<u8>, pos: int, end: int, strict: bool) -> Option<ParseError>
    decreases box_end_at(buf, pos, end) - pos, 1int,
{
    if pos < 0 || pos > end || header_error(buf, pos) is Some {
        None
    } else {
        let cs = pos + header_len_at(buf, pos);
        let be = box_end_at(buf, pos, end);
        let kb = KnownBox::spec_from(typ_at(buf, pos));
        if kb is Stsd {
            stsd_err(buf, pos, end, strict)
        } else if kb.spec_is_full_container() {
            if kb is Meta && meta_is_quicktime(buf, cs, be) {
                kids_err(buf, cs, be, strict)
            } else if cs + 4 > buf.len() {
                Some(ParseError::Truncated)
            } else if cs + 4 <= be {
                kids_err(buf, cs + 4, be, strict)
            } else {
                None
            }
        } else if kb.spec_is_container() {
            if cs <= be {
                kids_err(buf, cs, be, strict)
            } else {
                None
            }
        } else if kb.spec_is_full_box() {
            if cs + 4 > buf.len() {
                Some(ParseError::Truncated)
            } else {
                None
            }
        } else {
            None
        }
    }
}

// ---------- what the tolerant parse reports ----------

/// The issues as (offset, message) pairs.
pub open spec fn issue_seq(s: Seq<ParseIssue>) -> Seq<(int, Seq<char>)> {
    Seq::new(s.len(), |i: int| (s[i].offset as int, s[i].message@))
}

/// Where a tolerant parse of the boxes in `[pos, end)` stops: at the first
/// unreadable header, or where fewer than 8 bytes are left.
pub open spec fn stop_at(buf: Seq<u8>, pos: int, end: int) -> int
    decreases end - pos,
{
    if pos < 0 || pos > end || end - pos < 8 || header_error(buf, pos) is Some {
        pos
    } else {
        stop_at(buf, box_end_at(buf, pos, end), end)
    }
}

/// The issues a tolerant parse of the boxes in `[pos, end)` reports, in
/// order: for each box an overrun of its container, then the issues inside
/// it, then a failure to read its interior (the box is then kept as a
/// leaf); an unreadable header ends the list.
pub open spec fn kids_issues(buf: Seq<u8>, pos: int, end: int) -> Seq<(int, Seq<char>)>
    decreases end - pos, 2int,
{
    if pos < 0 || pos > end || end - pos < 8 {
        Seq::empty()
    } else {
        match header_error(buf, pos) {
            Some(e) => seq![(pos, header_issue(e, (end - pos) as nat))],
            None => {
                let size = declared_size(buf, pos);
                let over = if size != 0 && size > end - pos {
                    seq![(pos, overrun_issue(typ_at(buf, pos), size, (size - (end - pos)) as nat))]
                } else {
                    Seq::empty()
                };
                let bad = match box_err(buf, pos, end, false) {
                    Some(e) => seq![(pos, contents_issue(typ_at(buf, pos), e))],
                    None => Seq::empty(),
                };
                over + box_issues(buf, pos, end) + bad + kids_issues(buf, box_end_at(buf, pos, end), end)
            },
        }
    }
}

/// The issues reported inside the box whose header is at `pos`: those of
/// its children, or of its sample entries for an `stsd`.
pub open spec fn box_issues(buf: Seq<u8>, pos: int, end: int) -> Seq<(int, Seq<char>)>
    decreases box_end_at(buf, pos, end) - pos, 1int,
{
    if pos < 0 || pos > end || header_error(buf, pos) is Some || box_err(buf, pos, end, false) is Some {
        Seq::empty()
    } else {
        let cs = pos + header_len_at(buf, pos);
        let be = box_end_at(buf, pos, end);
        let kb = KnownBox::spec_from(typ_at(buf, pos));
        if kb is Stsd {
            entry_issues(buf, cs + 8, be)
        } else if kb.spec_is_full_container() {
            if kb is Meta && meta_is_quicktime(buf, cs, be) {
                kids_issues(buf, cs, be)
            } else if cs + 4 <= be {
                kids_issues(buf, cs + 4, be)
            } else {
                Seq::empty()
            }
        } else if kb.spec_is_container() {
            if cs <= be {
                kids_issues(buf, cs, be)
            } else {
                Seq::empty()
            }
        } else {
            Seq::empty()
        }
    }
}

/// The issue reported among the sample entries from `pos` on: the first
/// unreadable entry header, if any.
pub open spec fn entry_issues(buf: Seq<u8>, pos: int, end: int) -> Seq<(int, Seq<char>)>
    decreases end - pos,
{
    if pos < 0 || pos > end || end - pos < 8 {
        Seq::empty()
    } else {
        match header_error(buf, pos) {
            Some(e) => seq![(pos, entry_issue(e))],
            None => entry_issues(buf, box_end_at(buf, pos, end), end),
        }
    }
}

proof fn lemma_issue_push(s: Seq<ParseIssue>, x: ParseIssue)
    ensures
        issue_seq(s.push(x)) == issue_seq(s) + seq![(x.offset as int, x.message@)],
{
    assert(issue_seq(s.push(x)) =~= issue_seq(s) + seq![(x.offset as int, x.message@)]);
}

// ---------- tolerant parse of an undamaged file ----------

/// Where the strict parse succeeds, the tolerant parse stops fewer than
/// 8 bytes before the end.
proof fn lemma_stop_complete(buf: Seq<u8>, pos: int, end: int)
    requires
        0 <= pos,
        kids_err(buf, pos, end, true) is None,
    ensures
        end - stop_at(buf, pos, end) < 8,
    decreases end - pos,
{
    if pos <= end && end - pos >= 8 {
        lemma_stop_complete(buf, box_end_at(buf, pos, end), end);
    }
}

proof fn lemma_entries_stop_complete(buf: Seq<u8>, pos: int, end: int)
    requires
        0 <= pos,
        entries_err(buf, pos, end) is None,
    ensures
        end - stop_at(buf, pos, end) < 8,
    decreases end - pos,
{
    if pos <= end && end - pos >= 8 {
        lemma_entries_stop_complete(buf, box_end_at(buf, pos, end), end);
    }
}

/// Along a run of siblings that the strict parse accepts, no sibling's
/// interior fails.
proof fn lemma_chain_err_at(kids: Seq<BoxRef>, buf: Seq<u8>, lo: int, be: int, i: int)
    requires
        0 <= lo,
        0 <= i < kids.len(),
        chain(kids, lo, be, false),
        forall|j: int| 0 <= j < kids.len() ==> header_parsed(#[trigger] kids[j].hdr, buf, kids[j].hdr.start as int),
        kids_err(buf, lo, be, true) is None,
    ensures
        kids_err(buf, kids[i].hdr.start as int, be, true) is None,
        box_err(buf, kids[i].hdr.start as int, be, true) is None,
    decreases i,
{
    reveal(chain);
    if i > 0 {
        lemma_chain_err_at(kids, buf, lo, be, i - 1);
        let h = kids[i - 1].hdr;
        assert(header_parsed(kids[i - 1].hdr, buf, h.start as int));
        lemma_header_at(h, buf, h.start as int, be);
    }
    let h = kids[i].hdr;
    assert(header_parsed(kids[i].hdr, buf, h.start as int));
}

/// An interior that fails in a tolerant parse fails in a strict one.
proof fn lemma_box_err_strict(buf: Seq<u8>, pos: int, end: int)
    ensures
        box_err(buf, pos, end, false) is Some ==> box_err(buf, pos, end, true) is Some,
{
}

/// A box of a sample entry list is the same in a tolerant and a strict
/// parse.
proof fn lemma_entry_strict(b: BoxRef, buf: Seq<u8>, pe: int)
    requires
        box_wf(b, buf, pe, false, true),
    ensures
        box_wf(b, buf, pe, true, true),
{
    lemma_box_wf_elim(b, buf, pe, false, true);
    assert(b.kind is Container || b.kind is Leaf);
    if b.kind is Container {
        assert(child_strict(b, true, true) == child_strict(b, false, true));
    } else {
        assert(node_children(b).len() == 0);
    }
    lemma_box_wf_intro(b, buf, pe, true, true);
}

/// A box that the tolerant parse read, and whose interior the strict
/// parse accepts, is a box of the strict parse.
proof fn lemma_tolerant_box_strict(b: BoxRef, buf: Seq<u8>, pe: int)
    requires
        box_wf(b, buf, pe, false, false),
        box_err(buf, b.hdr.start as int, pe, true) is None,
    ensures
        box_wf(b, buf, pe, true, false),
    decreases b, 0int,
{
    lemma_box_wf_elim(b, buf, pe, false, false);
    lemma_box_err_strict(buf, b.hdr.start as int, pe);
    let h = b.hdr;
    let pos = h.start as int;
    lemma_header_at(h, buf, pos, pe);
    let cs = pos + h.header_size;
    let be = box_end_spec(h, pe);
    let kb = KnownBox::spec_from(h.typ);
    assert(class_ok(b, buf, be));
    let kids = node_children(b);
    let lo = match b.kind {
        NodeKind::FullContainer { .. } => if kb is Stsd {
            cs + 8
        } else {
            cs + 4
        },
        _ => cs,
    };
    match b.kind {
        NodeKind::Container(k) => {
            assert(k@ == kids);
            assert(kids_err(buf, cs, be, true) is None);
            lemma_stop_complete(buf, cs, be);
            lemma_chain_complete(kids, cs, be);
        },
        NodeKind::FullContainer { children, .. } => {
            assert(children@ == kids);
            if kb is Stsd {
                assert(entries_err(buf, cs + 8, be) is None);
                lemma_entries_stop_complete(buf, cs + 8, be);
            } else {
                assert(kids_err(buf, cs + 4, be, true) is None);
                lemma_stop_complete(buf, cs + 4, be);
            }
            lemma_chain_complete(kids, lo, be);
        },
        _ => {},
    }
    assert forall|i: int| 0 <= i < kids.len() implies #[trigger] box_wf(
        kids[i],
        buf,
        be,
        child_strict(b, true, false),
        child_entry(b),
    ) by {
        assert(box_wf(kids[i], buf, be, child_strict(b, false, false), child_entry(b)));
        if child_entry(b) {
            lemma_entry_strict(kids[i], buf, be);
        } else {
            assert forall|j: int| 0 <= j < kids.len() implies header_parsed(
                #[trigger] kids[j].hdr,
                buf,
                kids[j].hdr.start as int,
            ) by {
                assert(box_wf(kids[j], buf, be, false, false));
                lemma_box_wf_elim(kids[j], buf, be, false, false);
            }
            lemma_chain_err_at(kids, buf, lo, be, i);
            assert(decreases_to!(b => kids[i])) by {
                match b.kind {
                    NodeKind::Container(k) => {
                        assert(decreases_to!(b => b.kind));
                        assert(decreases_to!(b.kind => k));
                        assert(decreases_to!(k => k@));
                        assert(decreases_to!(k@ => k@[i]));
                    },
                    NodeKind::FullContainer { children, .. } => {
                        assert(decreases_to!(b => b.kind));
                        assert(decreases_to!(b.kind => children));
                        assert(decreases_to!(children => children@));
                        assert(decreases_to!(children@ => children@[i]));
                    },
                    _ => {},
                }
            }
            lemma_tolerant_box_strict(kids[i], buf, be);
        }
    }
    lemma_box_wf_intro(b, buf, pe, true, false);
}

/// On a file the strict parse accepts, the tolerant parse gives a strict
/// parse: every run of siblings complete, every box of its type's kind.
pub proof fn lemma_tolerant_is_strict(kids: Seq<BoxRef>, buf: Seq<u8>, start: int, end: int)
    requires
        0 <= start,
        chain(kids, start, end, false),
        chain_end(kids, start, end) == stop_at(buf, start, end),
        forall|i: int| 0 <= i < kids.len() ==> #[trigger] box_wf(kids[i], buf, end, false, false),
        kids_err(buf, start, end, true) is None,
    ensures
        chain(kids, start, end, true),
        forall|i: int| 0 <= i < kids.len() ==> #[trigger] box_wf(kids[i], buf, end, true, false),
{
    lemma_stop_complete(buf, start, end);
    lemma_chain_complete(kids, start, end);
    assert forall|j: int| 0 <= j < kids.len() implies header_parsed(
        #[trigger] kids[j].hdr,
        buf,
        kids[j].hdr.start as int,
    ) by {
        assert(box_wf(kids[j], buf, end, false, false));
        lemma_box_wf_elim(kids[j], buf, end, false, false);
    }
    assert forall|i: int| 0 <= i < kids.len() implies #[trigger] box_wf(kids[i], buf, end, true, false) by {
        lemma_chain_err_at(kids, buf, start, end, i);
        lemma_tolerant_box_strict(kids[i], buf, end);
    }
}

// ---------- recursive descent ----------

/// Text of the issue for an unreadable header with `remaining` bytes left.
pub open spec fn header_issue(e: ParseError, remaining: nat) -> Seq<char> {
    "unreadable box header ("@ + e.spec_message()@ + "); skipping remaining "@ + spec_decimal(remaining)
        + " bytes of container"@
}

/// Text of the issue for a box of type `typ` declaring `size` bytes that
/// overruns its container by `over` bytes.
pub open spec fn overrun_issue(typ: FourCC, size: nat, over: nat) -> Seq<char> {
    "box '"@ + typ.spec_lossy() + "' declares size "@ + spec_decimal(size)
        + " which overruns its container by "@ + spec_decimal(over) + " bytes; clamped"@
}

/// Text of the issue for a box whose interior could not be parsed.
pub open spec fn contents_issue(typ: FourCC, e: ParseError) -> Seq<char> {
    "failed to parse contents of '"@ + typ.spec_lossy() + "': "@ + e.spec_message()@
}

/// Text of the issue for an unreadable sample entry header.
pub open spec fn entry_issue(e: ParseError) -> Seq<char> {
    "unreadable stsd sample entry header ("@ + e.spec_message()@ + ")"@
}

fn issue_text_header(e: ParseError, remaining: usize) -> (r: String)
    ensures
        r@ == header_issue(e, remaining as nat),
{
    let mut s = String::new();
    push_str(&mut s, "unreadable box header (");
    push_str(&mut s, e.message());
    push_str(&mut s, "); skipping remaining ");
    push_decimal(&mut s, remaining as u64);
    push_str(&mut s, " bytes of container");
    assert(s@ =~= header_issue(e, remaining as nat));
    s
}

fn issue_text_overrun(h: &BoxHeader, over: u64) -> (r: String)
    ensures
        r@ == overrun_issue(h.typ, h.size as nat, over as nat),
{
    let mut s = String::new();
    push_str(&mut s, "box '");
    let t = h.typ.as_str_lossy();
    push_str(&mut s, t.as_str());
    push_str(&mut s, "' declares size ");
    push_decimal(&mut s, h.size);
    push_str(&mut s, " which overruns its container by ");
    push_decimal(&mut s, over);
    push_str(&mut s, " bytes; clamped");
    assert(s@ =~= overrun_issue(h.typ, h.size as nat, over as nat));
    s
}

fn issue_text_contents(h: &BoxHeader, e: ParseError) -> (r: String)
    ensures
        r@ == contents_issue(h.typ, e),
{
    let mut s = String::new();
    push_str(&mut s, "failed to parse contents of '");
    let t = h.typ.as_str_lossy();
    push_str(&mut s, t.as_str());
    push_str(&mut s, "': ");
    push_str(&mut s, e.message());
    assert(s@ =~= contents_issue(h.typ, e));
    s
}

fn issue_text_entry(e: ParseError) -> (r: String)
    ensures
        r@ == entry_issue(e),
{
    let mut s = String::new();
    push_str(&mut s, "unreadable stsd sample entry header (");
    push_str(&mut s, e.message());
    push_str(&mut s, ")");
    assert(s@ =~= entry_issue(e));
    s
}

/// `stsd` is a FullBox whose payload is `entry_count` followed by sample
/// entry boxes (avc1, mp4a, ...), each with its own fixed fields and child
/// boxes.
fn parse_stsd(
    buf: &[u8],
    h: &BoxHeader,
    parent_end: usize,
    strict: bool,
    issues: &mut Vec<ParseIssue>,
) -> (r: Result<NodeKind, ParseError>)
    requires
        header_parsed(*h, buf@, h.start as int),
        h.start + 8 <= parent_end <= buf@.len(),
        KnownBox::spec_from(h.typ) is Stsd,
    ensures
        r matches Ok(k) ==> box_wf(BoxRef { hdr: *h, kind: k }, buf@, parent_end as int, strict, false),
        match stsd_err(buf@, h.start as int, parent_end as int, strict) {
            Some(e) => r == Err::<NodeKind, ParseError>(e),
            None => r is Ok,
        },
        old(issues)@.is_prefix_of(final(issues)@),
        strict ==> final(issues)@ == old(issues)@,
        !strict ==> issue_seq(final(issues)@) == issue_seq(old(issues)@) + box_issues(
            buf@,
            h.start as int,
            parent_end as int,
        ),
    decreases box_end_spec(*h, parent_end as int) - h.start, 0int,
{
    let blen = buf.len();
    proof {
        assert(blen == buf@.len());
        lemma_header_at(*h, buf@, h.start as int, parent_end as int);
    }
    let be = box_end(h, parent_end);
    let cs = (h.start + h.header_size) as usize;
    let (version, flags) = read_version_flags(buf, cs)?;
    let data_offset = cs + 4;
    let data_len = if be >= data_offset {
        be - data_offset
    } else {
        0
    };
    if buf.len() - data_offset < 4 {
        return Err(ParseError::Truncated);
    }
    let mut children: Vec<BoxRef> = Vec::new();
    let mut pos = data_offset + 4;
    let mut stop = false;
    proof {
        lemma_chain_empty(cs + 8, be as int);
    }
    while !stop && pos <= be && be - pos >= 8
        invariant
            h.start + 8 <= parent_end <= buf@.len(),
            be == box_end_spec(*h, parent_end as int),
            cs + 8 <= buf@.len(),
            cs + 8 <= pos,
            cs == h.start + h.header_size,
            pos == chain_end(children@, cs + 8, be as int),
            chain(children@, cs + 8, be as int, false),
            forall|i: int|
                0 <= i < children@.len() ==> #[trigger] box_wf(children@[i], buf@, be as int, strict, true),
            old(issues)@.is_prefix_of(issues@),
            strict ==> issues@ == old(issues)@,
            strict ==> !stop,
            strict ==> stsd_err(buf@, h.start as int, parent_end as int, strict) == entries_err(buf@, pos as int, be as int),
            !strict ==> stop_at(buf@, cs + 8, be as int) == (if stop {
                pos as int
            } else {
                stop_at(buf@, pos as int, be as int)
            }),
            !strict ==> issue_seq(old(issues)@) + entry_issues(buf@, cs + 8, be as int) == issue_seq(issues@) + (if stop {
                Seq::<(int, Seq<char>)>::empty()
            } else {
                entry_issues(buf@, pos as int, be as int)
            }),
        decreases be - pos, if stop { 0int } else { 1int },
    {
        let eh = match read_box_header(buf, pos) {
            Ok(eh) => eh,
            Err(e) => {
                if strict {
                    return Err(e);
                }
                let msg = issue_text_entry(e);
                proof {
                    lemma_prefix_push(old(issues)@, issues@, ParseIssue { offset: pos as u64, message: msg });
                    lemma_issue_push(issues@, ParseIssue { offset: pos as u64, message: msg });
                    assert(issue_seq(old(issues)@) + entry_issues(buf@, cs + 8, be as int) =~= issue_seq(
                        issues@.push(ParseIssue { offset: pos as u64, message: msg }),
                    ));
                }
                issues.push(ParseIssue { offset: pos as u64, message: msg });
                stop = true;
                continue;
            },
        };
        let kind = parse_sample_entry(buf, &eh, be);
        let entry_end = box_end(&eh, be);
        proof {
            lemma_header_at(eh, buf@, pos as int, be as int);
            lemma_chain_push(children@, BoxRef { hdr: eh, kind }, cs + 8, be as int);
        }
        children.push(BoxRef { hdr: eh, kind });
        pos = entry_end;
    }
    let r = NodeKind::FullContainer {
        version,
        flags,
        data_offset: data_offset as u64,
        data_len: data_len as u64,
        children,
    };
    proof {
        if strict {
            lemma_chain_complete(children@, cs + 8, be as int);
        }
        if !strict {
            assert(issue_seq(issues@) =~= issue_seq(old(issues)@) + box_issues(
                buf@,
                h.start as int,
                parent_end as int,
            ));
        }
        lemma_box_wf_intro(BoxRef { hdr: *h, kind: r }, buf@, parent_end as int, strict, false);
    }
    Ok(r)
}

/// Decides what kind of node a box is and parses its interior accordingly.
fn classify_box(
    buf: &[u8],
    h: &BoxHeader,
    parent_end: usize,
    strict: bool,
    issues: &mut Vec<ParseIssue>,
) -> (r: Result<NodeKind, ParseError>)
    requires
        header_parsed(*h, buf@, h.start as int),
        h.start + 8 <= parent_end <= buf@.len(),
    ensures
        r matches Ok(k) ==> box_wf(BoxRef { hdr: *h, kind: k }, buf@, parent_end as int, strict, false),
        match box_err(buf@, h.start as int, parent_end as int, strict) {
            Some(e) => r == Err::<NodeKind, ParseError>(e),
            None => r is Ok,
        },
        old(issues)@.is_prefix_of(final(issues)@),
        strict ==> final(issues)@ == old(issues)@,
        !strict ==> issue_seq(final(issues)@) == issue_seq(old(issues)@) + box_issues(
            buf@,
            h.start as int,
            parent_end as int,
        ),
    decreases box_end_spec(*h, parent_end as int) - h.start, 1int,
{
    let blen = buf.len();
    proof {
        assert(blen == buf@.len());
        lemma_header_at(*h, buf@, h.start as int, parent_end as int);
    }
    let kb = KnownBox::from_fourcc(h.typ);
    let be = box_end(h, parent_end);
    let cs = (h.start + h.header_size) as usize;

    if let KnownBox::Stsd = kb {
        return parse_stsd(buf, h, parent_end, strict, issues);
    }
    let r: NodeKind = if kb.is_full_container() {
        let is_meta = if let KnownBox::Meta = kb {
            true
        } else {
            false
        };
        if is_meta && meta_is_quicktime_style(buf, cs, be) {
            let kids = parse_children_impl(buf, cs, be, strict, issues)?;
            NodeKind::Container(kids)
        } else {
            let (version, flags) = read_version_flags(buf, cs)?;
            let data_offset = cs + 4;
            let data_len = if be >= data_offset {
                be - data_offset
            } else {
                0
            };
            let children = if data_offset <= be {
                parse_children_impl(buf, data_offset, be, strict, issues)?
            } else {
                proof {
                    lemma_chain_empty(data_offset as int, be as int);
                    lemma_chain_complete(Seq::empty(), data_offset as int, be as int);
                }
                Vec::new()
            };
            NodeKind::FullContainer {
                version,
                flags,
                data_offset: data_offset as u64,
                data_len: data_len as u64,
                children,
            }
        }
    } else if kb.is_container() {
        let kids = if cs <= be {
            parse_children_impl(buf, cs, be, strict, issues)?
        } else {
            proof {
                lemma_chain_empty(cs as int, be as int);
                lemma_chain_complete(Seq::empty(), cs as int, be as int);
            }
            Vec::new()
        };
        NodeKind::Container(kids)
    } else if kb.is_full_box() {
        let (version, flags) = read_version_flags(buf, cs)?;
        let data_offset = cs + 4;
        let data_len = if be >= data_offset {
            be - data_offset
        } else {
            0
        };
        NodeKind::FullBox {
            version,
            flags,
            data_offset: data_offset as u64,
            data_len: data_len as u64,
        }
    } else {
        let data_len = if be >= cs {
            be - cs
        } else {
            0
        };
        if h.typ.equals([117u8, 117u8, 105u8, 100u8]) {
            NodeKind::Unknown { data_offset: cs as u64, data_len: data_len as u64 }
        } else {
            NodeKind::Leaf { data_offset: cs as u64, data_len: data_len as u64 }
        }
    };
    proof {
        assert(seq![117u8, 117u8, 105u8, 100u8] =~= [117u8, 117u8, 105u8, 100u8]@);
        lemma_box_wf_intro(BoxRef { hdr: *h, kind: r }, buf@, parent_end as int, strict, false);
    }
    Ok(r)
}

/// Shared strict/tolerant implementation: strict mode propagates the first
/// error, tolerant mode records it in `issues` and recovers.
#[verifier::rlimit(40)]
fn parse_children_impl(
    buf: &[u8],
    start: usize,
    end: usize,
    strict: bool,
    issues: &mut Vec<ParseIssue>,
) -> (r: Result<Vec<BoxRef>, ParseError>)
    requires
        start <= end <= buf@.len(),
    ensures
        r matches Ok(kids) ==> chain(kids@, start as int, end as int, strict),
        r matches Ok(kids) ==> forall|i: int|
            0 <= i < kids@.len() ==> #[trigger] box_wf(kids@[i], buf@, end as int, strict, false),
        !strict ==> r is Ok,
        match kids_err(buf@, start as int, end as int, strict) {
            Some(e) => r == Err::<Vec<BoxRef>, ParseError>(e),
            None => r is Ok,
        },
        old(issues)@.is_prefix_of(final(issues)@),
        strict ==> final(issues)@ == old(issues)@,
        !strict ==> issue_seq(final(issues)@) == issue_seq(old(issues)@) + kids_issues(buf@, start as int, end as int),
        !strict ==> (r matches Ok(kids) && chain_end(kids@, start as int, end as int) == stop_at(
            buf@,
            start as int,
            end as int,
        )),
    decreases end - start, 2int,
{
    let blen = buf.len();
    proof {
        assert(blen == buf@.len());
    }
    let mut kids: Vec<BoxRef> = Vec::new();
    let mut pos = start;
    let mut stop = false;
    proof {
        lemma_chain_empty(start as int, end as int);
    }
    while !stop && end - pos >= 8
        invariant
            start <= pos <= end <= buf@.len(),
            blen == buf@.len(),
            pos == chain_end(kids@, start as int, end as int),
            chain(kids@, start as int, end as int, false),
            forall|i: int|
                0 <= i < kids@.len() ==> #[trigger] box_wf(kids@[i], buf@, end as int, strict, false),
            old(issues)@.is_prefix_of(issues@),
            strict ==> issues@ == old(issues)@,
            strict ==> !stop,
            kids_err(buf@, start as int, end as int, strict) == kids_err(buf@, pos as int, end as int, strict),
            !strict ==> issue_seq(old(issues)@) + kids_issues(buf@, start as int, end as int) == issue_seq(issues@)
                + (if stop {
                Seq::<(int, Seq<char>)>::empty()
            } else {
                kids_issues(buf@, pos as int, end as int)
            }),
            !strict ==> stop_at(buf@, start as int, end as int) == (if stop {
                pos as int
            } else {
                stop_at(buf@, pos as int, end as int)
            }),
        decreases end - pos, if stop { 0int } else { 1int },
    {
        let ghost p0 = pos;
        let ghost i0 = issue_seq(issues@);
        let h = match read_box_header(buf, pos) {
            Ok(h) => h,
            Err(e) => {
                if strict {
                    return Err(e);
                }
                let msg = issue_text_header(e, end - pos);
                proof {
                    lemma_prefix_push(old(issues)@, issues@, ParseIssue { offset: pos as u64, message: msg });
                    lemma_issue_push(issues@, ParseIssue { offset: pos as u64, message: msg });
                    assert(issue_seq(old(issues)@) + kids_issues(buf@, start as int, end as int) =~= issue_seq(
                        issues@.push(ParseIssue { offset: pos as u64, message: msg }),
                    ));
                }
                issues.push(ParseIssue { offset: pos as u64, message: msg });
                stop = true;
                continue;
            },
        };
        if !strict && h.size != 0 && h.size > (end - pos) as u64 {
            let msg = issue_text_overrun(&h, h.size - (end - pos) as u64);
            proof {
                lemma_prefix_push(old(issues)@, issues@, ParseIssue { offset: pos as u64, message: msg });
                lemma_issue_push(issues@, ParseIssue { offset: pos as u64, message: msg });
            }
            issues.push(ParseIssue { offset: pos as u64, message: msg });
        }
        let be = box_end(&h, end);
        proof {
            lemma_header_at(h, buf@, pos as int, end as int);
        }
        let ghost before = issues@;
        let res = classify_box(buf, &h, end, strict, issues);
        proof {
            lemma_prefix_trans(old(issues)@, before, issues@);
        }
        let kind = match res {
            Ok(k) => k,
            Err(e) => {
                if strict {
                    return Err(e);
                }
                let msg = issue_text_contents(&h, e);
                proof {
                    lemma_prefix_push(old(issues)@, issues@, ParseIssue { offset: pos as u64, message: msg });
                    lemma_issue_push(issues@, ParseIssue { offset: pos as u64, message: msg });
                }
                issues.push(ParseIssue { offset: pos as u64, message: msg });
                let cs = (h.start + h.header_size) as usize;
                let leaf = NodeKind::Leaf {
                    data_offset: cs as u64,
                    data_len: if be >= cs {
                        (be - cs) as u64
                    } else {
                        0
                    },
                };
                proof {
                    lemma_box_wf_intro(BoxRef { hdr: h, kind: leaf }, buf@, end as int, strict, false);
                }
                leaf
            },
        };
        proof {
            lemma_chain_push(kids@, BoxRef { hdr: h, kind }, start as int, end as int);
            if !strict {
                let size = declared_size(buf@, p0 as int);
                let over = if size != 0 && size > end - p0 {
                    seq![(p0 as int, overrun_issue(typ_at(buf@, p0 as int), size, (size - (end - p0)) as nat))]
                } else {
                    Seq::empty()
                };
                let bad = match box_err(buf@, p0 as int, end as int, false) {
                    Some(e) => seq![(p0 as int, contents_issue(typ_at(buf@, p0 as int), e))],
                    None => Seq::empty(),
                };
                assert(kids_issues(buf@, p0 as int, end as int) == over + box_issues(buf@, p0 as int, end as int)
                    + bad + kids_issues(buf@, be as int, end as int));
                assert(issue_seq(issues@) == i0 + over + box_issues(buf@, p0 as int, end as int) + bad);
                assert(issue_seq(issues@) + kids_issues(buf@, be as int, end as int) =~= i0 + kids_issues(
                    buf@,
                    p0 as int,
                    end as int,
                ));
            }
        }
        kids.push(BoxRef { hdr: h, kind });
        pos = be;
    }
    proof {
        if strict {
            lemma_chain_complete(kids@, start as int, end as int);
        }
    }
    Ok(kids)
}

/// Parses sibling boxes in `[start, parent_end)`; the first malformed box
/// aborts the parse with an error.
pub fn parse_children(buf: &[u8], start: usize, parent_end: usize) -> (r: Result<Vec<BoxRef>, ParseError>)
    requires
        start <= parent_end <= buf@.len(),
    ensures
        match kids_err(buf@, start as int, parent_end as int, true) {
            Some(e) => r == Err::<Vec<BoxRef>, ParseError>(e),
            None => r is Ok,
        },
        r matches Ok(kids) ==> chain(kids@, start as int, parent_end as int, true),
        r matches Ok(kids) ==> forall|i: int|
            0 <= i < kids@.len() ==> #[trigger] box_wf(kids@[i], buf@, parent_end as int, true, false),
{
    let mut scratch: Vec<ParseIssue> = Vec::new();
    parse_children_impl(buf, start, parent_end, true, &mut scratch)
}

/// Parses all boxes in `[start, end)`: a whole file is `(0, buf.len())`.
pub fn parse_boxes(buf: &[u8], start: usize, end: usize) -> (r: Result<Vec<BoxRef>, ParseError>)
    requires
        start <= end <= buf@.len(),
    ensures
        match kids_err(buf@, start as int, end as int, true) {
            Some(e) => r == Err::<Vec<BoxRef>, ParseError>(e),
            None => r is Ok,
        },
        r matches Ok(kids) ==> chain(kids@, start as int, end as int, true),
        r matches Ok(kids) ==> forall|i: int|
            0 <= i < kids@.len() ==> #[trigger] box_wf(kids@[i], buf@, end as int, true, false),
{
    parse_children(buf, start, end)
}

/// Like [`parse_boxes`], but recovers from malformed boxes: the tree parsed
/// so far is returned with the issues found. An unreadable child header
/// abandons the rest of that container; a box whose interior fails to parse
/// is kept as an opaque leaf; overrunning sizes are clamped and reported.
pub fn parse_boxes_tolerant(buf: &[u8], start: usize, end: usize) -> (r: (Vec<BoxRef>, Vec<ParseIssue>))
    requires
        start <= end <= buf@.len(),
    ensures
        chain(r.0@, start as int, end as int, false),
        chain_end(r.0@, start as int, end as int) == stop_at(buf@, start as int, end as int),
        forall|i: int| 0 <= i < r.0@.len() ==> #[trigger] box_wf(r.0@[i], buf@, end as int, false, false),
        issue_seq(r.1@) == kids_issues(buf@, start as int, end as int),
        kids_err(buf@, start as int, end as int, true) is None ==> chain(r.0@, start as int, end as int, true)
            && forall|i: int| 0 <= i < r.0@.len() ==> #[trigger] box_wf(r.0@[i], buf@, end as int, true, false),
{
    let mut issues: Vec<ParseIssue> = Vec::new();
    proof {
        assert(issue_seq(issues@) =~= Seq::empty());
    }
    let res = parse_children_impl(buf, start, end, false, &mut issues);
    match res {
        Ok(kids) => {
            proof {
                if kids_err(buf@, start as int, end as int, true) is None {
                    lemma_tolerant_is_strict(kids@, buf@, start as int, end as int);
                }
            }
            (kids, issues)
        },
        Err(_) => (Vec::new(), issues),
    }
}

} // verus!
