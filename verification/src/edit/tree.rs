//! The edit tree: a mutable representation of an MP4 file where unmodified
//! payloads are references into the source buffer (extents) rather than
//! copies. Serializing an unmodified tree reproduces the source byte for
//! byte; mutations replace nodes with in-memory bytes and every enclosing
//! box size is recomputed during layout.

use vstd::prelude::*;
use crate::boxes::{BoxHeader, BoxRef, FourCC, NodeKind};
use crate::parser::{
    box_end, box_end_spec, box_wf, chain, child_entry, child_strict, header_base, header_is_uuid,
    header_len_at, header_parsed, lemma_box_wf_elim, node_children, sat_sub, shape_ok, uuid_tag,
    vf_at,
};
use crate::util::{
    lemma_be_bytes_len,
    be_at, be_bytes, be_value, copy_range, lemma_be_bytes_value, lemma_be_value_bound,
    lemma_pow256_values, push_be, push_bytes, read_u32, read_u64,
};
use super::EditError;

verus! {

/// How the original box header was written, preserved on round-trip.
#[derive(Debug, Clone, Copy, PartialEq, Eq, Structural)]
pub enum HeaderForm {
    /// 32-bit size.
    Compact,
    /// 32-bit size 1 followed by a 64-bit size.
    Large,
    /// 32-bit size 0: the box extends to the end of its parent.
    ToEof,
}

/// A byte range in the source buffer.
#[derive(Debug, Clone, Copy, PartialEq, Eq, Structural)]
pub struct Extent {
    pub offset: u64,
    pub len: u64,
}

/// Payload of an edit node.
#[derive(Debug)]
pub enum Payload {
    /// Unmodified bytes of the source (everything after the box header,
    /// including version/flags for FullBox leaves).
    Extent(Extent),
    /// Replaced payload bytes (everything after the box header).
    Bytes(Vec<u8>),
    /// A container of child boxes.
    Container {
        /// Version and flags of FullBox containers (`meta`, `stsd`, ...).
        version_flags: Option<(u8, u32)>,
        /// Non-box bytes before the first child (stsd's entry count, a
        /// sample entry's fixed fields, ...).
        prefix: Vec<u8>,
        children: Vec<EditNode>,
        /// Trailing non-box bytes after the last child.
        suffix: Vec<u8>,
    },
}

/// One box of the edit tree.
#[derive(Debug)]
pub struct EditNode {
    pub typ: FourCC,
    pub uuid: Option<[u8; 16]>,
    pub header_form: HeaderForm,
    pub payload: Payload,
}

/// The whole file: top-level boxes plus any trailing bytes after the last
/// box (shorter than a box header).
#[derive(Debug)]
pub struct EditTree {
    pub roots: Vec<EditNode>,
    pub trailing: Vec<u8>,
}

/// Where a source extent lands in the output.
#[derive(Debug, Clone, Copy, PartialEq, Eq, Structural)]
pub struct ExtentMapping {
    pub old_offset: u64,
    pub len: u64,
    pub new_offset: u64,
}

// ---------- sizes ----------

/// Length of the extended type, if any.
pub open spec fn uuid_len(n: EditNode) -> nat {
    if n.uuid is Some {
        16
    } else {
        0
    }
}

/// Header length of a node whose payload is `p` bytes long. A compact
/// header is upgraded to a 64-bit size when the total would not fit in 32
/// bits.
pub open spec fn spec_header_len(n: EditNode, p: nat) -> nat {
    match n.header_form {
        HeaderForm::Large => 16 + uuid_len(n),
        HeaderForm::Compact => if 8 + uuid_len(n) + p > u32::MAX {
            16 + uuid_len(n)
        } else {
            8 + uuid_len(n)
        },
        HeaderForm::ToEof => 8 + uuid_len(n),
    }
}

/// Length of a node's payload: everything after its header.
pub open spec fn spec_payload_len(n: EditNode) -> nat
    decreases n, 1int,
{
    match n.payload {
        Payload::Extent(e) => e.len as nat,
        Payload::Bytes(b) => b@.len(),
        Payload::Container { version_flags, prefix, children, suffix } => (if version_flags is Some {
            4nat
        } else {
            0nat
        }) + prefix@.len() + kids_size(children@, children@.len() as int) + suffix@.len(),
    }
}

/// Total serialized size of a node.
pub open spec fn spec_node_size(n: EditNode) -> nat
    decreases n, 2int,
{
    spec_header_len(n, spec_payload_len(n)) + spec_payload_len(n)
}

/// Total size of the first `i` nodes of `s`.
pub open spec fn kids_size(s: Seq<EditNode>, i: int) -> nat
    decreases s, i,
    when 0 <= i <= s.len()
{
    if i <= 0 {
        0
    } else {
        kids_size(s, i - 1) + spec_node_size(s[i - 1])
    }
}

pub proof fn lemma_kids_size_mono(s: Seq<EditNode>, i: int, j: int)
    requires
        0 <= i <= j <= s.len(),
    ensures
        kids_size(s, i) <= kids_size(s, j),
    decreases j - i,
{
    if i < j {
        lemma_kids_size_mono(s, i, j - 1);
    }
}

/// Length of the header of `node` when its payload is `p` bytes long.
fn header_len(node: &EditNode, p: u64) -> (r: u64)
    requires
        p + 8 + uuid_len(*node) <= u64::MAX,
    ensures
        r == spec_header_len(*node, p as nat),
{
    let u: u64 = if node.uuid.is_some() {
        16
    } else {
        0
    };
    match node.header_form {
        HeaderForm::Large => 16 + u,
        HeaderForm::Compact => if 8 + u + p > 0xffff_ffffu64 {
            16 + u
        } else {
            8 + u
        },
        HeaderForm::ToEof => 8 + u,
    }
}

/// Length of a node's payload: everything after its header.
pub fn payload_len(node: &EditNode) -> (r: u64)
    requires
        spec_payload_len(*node) <= u64::MAX,
    ensures
        r == spec_payload_len(*node),
    decreases *node, 1int,
{
    match &node.payload {
        Payload::Extent(e) => e.len,
        Payload::Bytes(b) => b.len() as u64,
        Payload::Container { version_flags, prefix, children, suffix } => {
            let ghost total_kids = kids_size(children@, children@.len() as int);
            let mut total: u64 = if version_flags.is_some() {
                4
            } else {
                0
            };
            total = total + prefix.len() as u64;
            let mut i: usize = 0;
            while i < children.len()
                invariant
                    i <= children@.len(),
                    total_kids == kids_size(children@, children@.len() as int),
                    total + total_kids - kids_size(children@, i as int) + suffix@.len()
                        == spec_payload_len(*node),
                    spec_payload_len(*node) <= u64::MAX,
                    node.payload matches Payload::Container { children: c, suffix: sf, .. } && c
                        == children && sf == suffix,
                decreases children@.len() - i,
            {
                proof {
                    lemma_kids_size_mono(children@, i + 1, children@.len() as int);
                }
                let c = node_size(&children[i]);
                total = total + c;
                i = i + 1;
            }
            total + suffix.len() as u64
        },
    }
}

/// Total serialized size of a node (header and payload).
pub fn node_size(node: &EditNode) -> (r: u64)
    requires
        spec_node_size(*node) <= u64::MAX,
    ensures
        r == spec_node_size(*node),
    decreases *node, 2int,
{
    let p = payload_len(node);
    header_len(node, p) + p
}

// ---------- serialization ----------

/// The header bytes of a node whose payload is `p` bytes long.
pub open spec fn header_bytes(n: EditNode, p: nat) -> Seq<u8> {
    let hlen = spec_header_len(n, p);
    let total = hlen + p;
    let base = if n.header_form is ToEof {
        be_bytes(0, 4) + n.typ.0@
    } else if hlen - uuid_len(n) == 16 {
        be_bytes(1, 4) + n.typ.0@ + be_bytes(total, 8)
    } else {
        be_bytes(total, 4) + n.typ.0@
    };
    match n.uuid {
        Some(u) => base + u@,
        None => base,
    }
}

/// The version byte and 24-bit flags of a FullBox.
pub open spec fn vf_bytes(vf: Option<(u8, u32)>) -> Seq<u8> {
    match vf {
        Some((v, f)) => seq![v] + be_bytes(f as nat, 3),
        None => Seq::empty(),
    }
}

/// The serialized bytes of a node; extents are read from `src`.
pub open spec fn node_bytes(src: Seq<u8>, n: EditNode) -> Seq<u8>
    decreases n, 1int,
{
    header_bytes(n, spec_payload_len(n)) + match n.payload {
        Payload::Extent(e) => src.subrange(e.offset as int, e.offset + e.len),
        Payload::Bytes(b) => b@,
        Payload::Container { version_flags, prefix, children, suffix } => vf_bytes(version_flags)
            + prefix@ + kids_bytes(src, children@, children@.len() as int) + suffix@,
    }
}

/// The serialized bytes of the first `i` nodes of `s`.
pub open spec fn kids_bytes(src: Seq<u8>, s: Seq<EditNode>, i: int) -> Seq<u8>
    decreases s, i,
    when 0 <= i <= s.len()
{
    if i <= 0 {
        Seq::empty()
    } else {
        kids_bytes(src, s, i - 1) + node_bytes(src, s[i - 1])
    }
}

/// Every extent of the node lies inside a source of `len` bytes.
pub open spec fn node_extents_ok(n: EditNode, len: nat) -> bool
    decreases n, 1int,
{
    match n.payload {
        Payload::Extent(e) => e.offset + e.len <= len,
        Payload::Bytes(_) => true,
        Payload::Container { children, .. } => kids_extents_ok(
            children@,
            children@.len() as int,
            len,
        ),
    }
}

/// Every extent of the first `i` nodes lies inside the source.
pub open spec fn kids_extents_ok(s: Seq<EditNode>, i: int, len: nat) -> bool
    decreases s, i,
    when 0 <= i <= s.len()
{
    if i <= 0 {
        true
    } else {
        kids_extents_ok(s, i - 1, len) && node_extents_ok(s[i - 1], len)
    }
}

pub proof fn lemma_kids_extents_mono(s: Seq<EditNode>, i: int, j: int, len: nat)
    requires
        0 <= i < j <= s.len(),
        kids_extents_ok(s, j, len),
    ensures
        kids_extents_ok(s, i, len),
        node_extents_ok(s[i], len),
    decreases j - i,
{
    if i + 1 < j {
        lemma_kids_extents_mono(s, i, j - 1, len);
    }
}

/// The serialized bytes of a whole tree.
pub open spec fn tree_bytes(src: Seq<u8>, t: EditTree) -> Seq<u8> {
    kids_bytes(src, t.roots@, t.roots@.len() as int) + t.trailing@
}

/// Every root's size fits in 64 bits.
pub open spec fn tree_fits(t: EditTree) -> bool {
    forall|i: int| 0 <= i < t.roots@.len() ==> spec_node_size(#[trigger] t.roots@[i]) <= u64::MAX
}

fn write_header(node: &EditNode, p: u64, out: &mut Vec<u8>)
    requires
        spec_header_len(*node, p as nat) + p <= u64::MAX,
    ensures
        final(out)@ == old(out)@ + header_bytes(*node, p as nat),
{
    let hlen = header_len(node, p);
    let total = hlen + p;
    let u: u64 = if node.uuid.is_some() {
        16
    } else {
        0
    };
    let ghost start = out@;
    if let HeaderForm::ToEof = node.header_form {
        push_be(out, 0, 4);
        push_bytes(out, &node.typ.0);
    } else if hlen - u == 16 {
        push_be(out, 1, 4);
        push_bytes(out, &node.typ.0);
        push_be(out, total, 8);
    } else {
        push_be(out, total, 4);
        push_bytes(out, &node.typ.0);
    }
    let ghost mid = out@;
    if let Some(uu) = &node.uuid {
        push_bytes(out, uu);
    }
    proof {
        assert(out@ =~= start + header_bytes(*node, p as nat));
    }
}

/// Appends the source bytes of an extent.
fn copy_extent(src: &[u8], e: &Extent, out: &mut Vec<u8>) -> (r: Result<(), EditError>)
    ensures
        r is Ok <==> e.offset + e.len <= src@.len(),
        r is Ok ==> final(out)@ == old(out)@ + src@.subrange(e.offset as int, e.offset + e.len),
        r is Err ==> r == Err::<(), EditError>(EditError::ExtentOutOfRange),
{
    let n = src.len() as u64;
    if e.offset > n || e.len > n - e.offset {
        return Err(EditError::ExtentOutOfRange);
    }
    let start = e.offset as usize;
    let end = (e.offset + e.len) as usize;
    let ghost before = out@;
    let mut i: usize = start;
    while i < end
        invariant
            start <= i <= end <= src@.len(),
            start == e.offset,
            end == e.offset + e.len,
            out@ == before + src@.subrange(start as int, i as int),
        decreases end - i,
    {
        out.push(src[i]);
        proof {
            assert(out@ =~= before + src@.subrange(start as int, i + 1));
        }
        i = i + 1;
    }
    Ok(())
}

fn write_node(src: &[u8], node: &EditNode, out: &mut Vec<u8>) -> (r: Result<(), EditError>)
    requires
        spec_node_size(*node) <= u64::MAX,
    ensures
        r is Ok <==> node_extents_ok(*node, src@.len()),
        r is Ok ==> final(out)@ == old(out)@ + node_bytes(src@, *node),
    decreases *node, 1int,
{
    let ghost start = out@;
    let p = payload_len(node);
    write_header(node, p, out);
    let ghost after_header = out@;
    match &node.payload {
        Payload::Extent(e) => {
            copy_extent(src, e, out)?;
            proof {
                assert(out@ =~= start + node_bytes(src@, *node));
            }
        },
        Payload::Bytes(b) => {
            push_bytes(out, b.as_slice());
            proof {
                assert(out@ =~= start + node_bytes(src@, *node));
            }
        },
        Payload::Container { version_flags, prefix, children, suffix } => {
            if let Some((v, f)) = version_flags {
                out.push(*v);
                push_be(out, *f as u64, 3);
            }
            proof {
                assert(out@ =~= after_header + vf_bytes(*version_flags));
            }
            push_bytes(out, prefix.as_slice());
            let ghost before_kids = out@;
            let mut i: usize = 0;
            while i < children.len()
                invariant
                    i <= children@.len(),
                    out@ == before_kids + kids_bytes(src@, children@, i as int),
                    kids_extents_ok(children@, i as int, src@.len()),
                    spec_node_size(*node) <= u64::MAX,
                    node.payload matches Payload::Container { children: c, .. } && c == children,
                    spec_payload_len(*node) <= spec_node_size(*node),
                    kids_size(children@, children@.len() as int) <= spec_payload_len(*node),
                decreases children@.len() - i,
            {
                proof {
                    lemma_kids_size_mono(children@, i + 1, children@.len() as int);
                }
                let res = write_node(src, &children[i], out);
                if res.is_err() {
                    proof {
                        if kids_extents_ok(children@, children@.len() as int, src@.len()) {
                            lemma_kids_extents_mono(children@, i as int, children@.len() as int, src@.len());
                        }
                    }
                    return res;
                }
                proof {
                    assert(out@ =~= before_kids + kids_bytes(src@, children@, i + 1));
                }
                i = i + 1;
            }
            push_bytes(out, suffix.as_slice());
            proof {
                assert(out@ =~= start + node_bytes(src@, *node));
            }
        },
    }
    Ok(())
}

/// Serializes the tree, copying unmodified extents from `src`. Fails when
/// an extent lies outside `src`.
pub fn write_tree(src: &[u8], tree: &EditTree) -> (r: Result<Vec<u8>, EditError>)
    requires
        tree_fits(*tree),
    ensures
        r is Ok <==> kids_extents_ok(tree.roots@, tree.roots@.len() as int, src@.len()),
        r matches Ok(v) ==> v@ == tree_bytes(src@, *tree),
        r is Err ==> r == Err::<Vec<u8>, EditError>(EditError::ExtentOutOfRange),
{
    let mut out: Vec<u8> = Vec::new();
    let mut i: usize = 0;
    while i < tree.roots.len()
        invariant
            i <= tree.roots@.len(),
            out@ == kids_bytes(src@, tree.roots@, i as int),
            kids_extents_ok(tree.roots@, i as int, src@.len()),
            tree_fits(*tree),
        decreases tree.roots@.len() - i,
    {
        let res = write_node(src, &tree.roots[i], &mut out);
        if res.is_err() {
            proof {
                if kids_extents_ok(tree.roots@, tree.roots@.len() as int, src@.len()) {
                    lemma_kids_extents_mono(tree.roots@, i as int, tree.roots@.len() as int, src@.len());
                }
            }
            return Err(EditError::ExtentOutOfRange);
        }
        proof {
            assert(out@ =~= kids_bytes(src@, tree.roots@, i + 1));
        }
        i = i + 1;
    }
    push_bytes(&mut out, tree.trailing.as_slice());
    Ok(out)
}

// ---------- nodes from raw bytes ----------

/// The 32-bit size field of a raw box.
pub open spec fn raw_size32(b: Seq<u8>) -> nat {
    be_at(b, 0, 4)
}

/// The size a raw box declares: the 64-bit size when the 32-bit field is
/// 1, the whole input when it is 0, else the 32-bit field.
pub open spec fn raw_declared(b: Seq<u8>) -> nat {
    if raw_size32(b) == 1 {
        be_at(b, 8, 8)
    } else if raw_size32(b) == 0 {
        b.len()
    } else {
        raw_size32(b)
    }
}

/// Length of a raw box's size and type fields.
pub open spec fn raw_base(b: Seq<u8>) -> int {
    if raw_size32(b) == 1 {
        16
    } else {
        8
    }
}

/// Whether a raw box has the `uuid` type.
pub open spec fn raw_is_uuid(b: Seq<u8>) -> bool {
    b.subrange(4, 8) == uuid_tag()
}

/// Length of a raw box's whole header.
pub open spec fn raw_header_len(b: Seq<u8>) -> int {
    raw_base(b) + if raw_is_uuid(b) {
        16int
    } else {
        0int
    }
}

/// Why a raw box is refused, if it is.
pub open spec fn raw_error(b: Seq<u8>) -> Option<EditError> {
    if b.len() < 8 {
        Some(EditError::RawTooShort)
    } else if raw_size32(b) == 1 && b.len() < 16 {
        Some(EditError::RawLargeTooShort)
    } else if raw_declared(b) != b.len() {
        Some(EditError::RawSizeMismatch { declared: raw_declared(b) as u64, actual: b.len() as u64 })
    } else if raw_is_uuid(b) && b.len() < raw_header_len(b) {
        Some(EditError::RawUuidTooShort)
    } else {
        None
    }
}

/// `n` is the node made from the raw box `b`: its type, extended type and
/// header form, and the bytes after the header as its payload. A size of
/// 0 is re-emitted as a real size.
pub open spec fn raw_node(n: EditNode, b: Seq<u8>) -> bool {
    &&& n.typ.0@ == b.subrange(4, 8)
    &&& n.header_form == if raw_size32(b) == 1 {
        HeaderForm::Large
    } else {
        HeaderForm::Compact
    }
    &&& if raw_is_uuid(b) {
        n.uuid matches Some(u) && u@ == b.subrange(raw_base(b), raw_base(b) + 16)
    } else {
        n.uuid is None
    }
    &&& n.payload matches Payload::Bytes(p) && p@ == b.subrange(raw_header_len(b), b.len() as int)
}

impl EditNode {
    /// Creates a node from a complete raw box (header and payload), e.g.
    /// for inserted boxes. The interior is kept opaque.
    pub fn from_raw(bytes: &[u8]) -> (r: Result<EditNode, EditError>)
        ensures
            match r {
                Ok(n) => raw_error(bytes@) is None && raw_node(n, bytes@),
                Err(e) => raw_error(bytes@) == Some(e),
            },
    {
        let len = bytes.len();
        if len < 8 {
            return Err(EditError::RawTooShort);
        }
        let size32 = read_u32(bytes, 0);
        let typ = FourCC([bytes[4], bytes[5], bytes[6], bytes[7]]);
        proof {
            assert(typ.0@ =~= bytes@.subrange(4, 8));
        }
        let mut header_len: usize = 8;
        let declared: u64;
        let form: HeaderForm;
        if size32 == 1 {
            if len < 16 {
                return Err(EditError::RawLargeTooShort);
            }
            declared = read_u64(bytes, 8);
            header_len = 16;
            form = HeaderForm::Large;
        } else if size32 == 0 {
            declared = len as u64;
            form = HeaderForm::Compact;
        } else {
            declared = size32 as u64;
            form = HeaderForm::Compact;
        }
        if declared != len as u64 {
            return Err(EditError::RawSizeMismatch { declared, actual: len as u64 });
        }
        let mut uuid: Option<[u8; 16]> = None;
        let is_uuid = typ.equals([117u8, 117u8, 105u8, 100u8]);
        proof {
            assert(seq![117u8, 117u8, 105u8, 100u8] =~= [117u8, 117u8, 105u8, 100u8]@);
        }
        if is_uuid {
            if len - header_len < 16 {
                return Err(EditError::RawUuidTooShort);
            }
            let p = header_len;
            let u = [
                bytes[p], bytes[p + 1], bytes[p + 2], bytes[p + 3], bytes[p + 4], bytes[p + 5],
                bytes[p + 6], bytes[p + 7], bytes[p + 8], bytes[p + 9], bytes[p + 10],
                bytes[p + 11], bytes[p + 12], bytes[p + 13], bytes[p + 14], bytes[p + 15],
            ];
            proof {
                assert(u@ =~= bytes@.subrange(p as int, p + 16));
            }
            uuid = Some(u);
            header_len = header_len + 16;
        }
        let payload = copy_range(bytes, header_len, len);
        Ok(EditNode { typ, uuid, header_form: form, payload: Payload::Bytes(payload) })
    }

    /// The children of this node, if it is a container.
    pub fn children(&self) -> (r: Option<&Vec<EditNode>>)
        ensures
            match self.payload {
                Payload::Container { children, .. } => r == Some(&children),
                _ => r is None,
            },
    {
        match &self.payload {
            Payload::Container { children, .. } => Some(children),
            _ => None,
        }
    }

    /// The children of this node, for modification, if it is a container.
    pub fn children_mut(&mut self) -> (r: Option<&mut Vec<EditNode>>)
        ensures
            match old(self).payload {
                Payload::Container { version_flags, prefix, children, suffix } => r matches Some(c)
                    && *c == children && final(self).typ == old(self).typ && final(self).uuid == old(
                    self,
                ).uuid && final(self).header_form == old(self).header_form && final(self).payload
                    == (Payload::Container { version_flags, prefix, children: *final(c), suffix }),
                _ => r is None && *final(self) == *old(self),
            },
    {
        match &mut self.payload {
            Payload::Container { children, .. } => Some(children),
            _ => None,
        }
    }
}

/// A raw box whose 32-bit size is not 0 serializes back to itself.
pub proof fn lemma_from_raw_roundtrip(n: EditNode, b: Seq<u8>, src: Seq<u8>)
    requires
        raw_error(b) is None,
        raw_node(n, b),
        raw_size32(b) != 0,
    ensures
        node_bytes(src, n) == b,
        spec_node_size(n) == b.len(),
{
    let s4 = b.subrange(0, 4);
    let s8 = b.subrange(8, 16);
    lemma_be_bytes_value(s4);
    lemma_be_value_bound(s4);
    lemma_pow256_values();
    let hl = raw_header_len(b);
    let p = (b.len() - hl) as nat;
    let tail = b.subrange(raw_base(b), hl);
    if raw_is_uuid(b) {
        assert(n.uuid matches Some(u) && u@ == tail);
    } else {
        assert(tail =~= Seq::<u8>::empty());
    }
    assert(spec_payload_len(n) == p);
    if raw_size32(b) == 1 {
        lemma_be_bytes_value(s8);
        assert(header_bytes(n, p) =~= s4 + b.subrange(4, 8) + s8 + tail);
        assert(b =~= s4 + b.subrange(4, 8) + s8 + tail + b.subrange(hl, b.len() as int));
    } else {
        assert(header_bytes(n, p) =~= s4 + b.subrange(4, 8) + tail);
        assert(b =~= s4 + b.subrange(4, 8) + tail + b.subrange(hl, b.len() as int));
    }
}

// ---------- checked sizes ----------

/// Total size of a node, or `None` when some size along the way does not
/// fit in 64 bits.
pub fn checked_node_size(node: &EditNode) -> (r: Option<u64>)
    ensures
        match r {
            Some(v) => v == spec_node_size(*node),
            None => spec_node_size(*node) > u64::MAX,
        },
    decreases *node, 2int,
{
    let p = match checked_payload_len(node) {
        Some(p) => p,
        None => return None,
    };
    let u: u64 = if node.uuid.is_some() {
        16
    } else {
        0
    };
    if p > u64::MAX - 8 - u {
        return None;
    }
    let h = header_len(node, p);
    if h > u64::MAX - p {
        return None;
    }
    Some(h + p)
}

fn checked_payload_len(node: &EditNode) -> (r: Option<u64>)
    ensures
        match r {
            Some(v) => v == spec_payload_len(*node),
            None => spec_payload_len(*node) > u64::MAX,
        },
    decreases *node, 1int,
{
    match &node.payload {
        Payload::Extent(e) => Some(e.len),
        Payload::Bytes(b) => Some(b.len() as u64),
        Payload::Container { version_flags, prefix, children, suffix } => {
            let mut total: u64 = if version_flags.is_some() {
                4
            } else {
                0
            };
            if prefix.len() as u64 > u64::MAX - total {
                return None;
            }
            total = total + prefix.len() as u64;
            let mut i: usize = 0;
            while i < children.len()
                invariant
                    i <= children@.len(),
                    total + kids_size(children@, children@.len() as int) - kids_size(children@, i as int)
                        + suffix@.len() == spec_payload_len(*node),
                    node.payload matches Payload::Container { children: c, suffix: sf, .. } && c
                        == children && sf == suffix,
                decreases children@.len() - i,
            {
                proof {
                    lemma_kids_size_mono(children@, i + 1, children@.len() as int);
                }
                let c = match checked_node_size(&children[i]) {
                    Some(c) => c,
                    None => return None,
                };
                if c > u64::MAX - total {
                    return None;
                }
                total = total + c;
                i = i + 1;
            }
            if suffix.len() as u64 > u64::MAX - total {
                return None;
            }
            Some(total + suffix.len() as u64)
        },
    }
}

/// Whether every root's size fits in 64 bits.
pub fn tree_sizes_fit(tree: &EditTree) -> (r: bool)
    ensures
        r == tree_fits(*tree),
{
    let mut i: usize = 0;
    while i < tree.roots.len()
        invariant
            i <= tree.roots@.len(),
            forall|j: int| 0 <= j < i ==> spec_node_size(#[trigger] tree.roots@[j]) <= u64::MAX,
        decreases tree.roots@.len() - i,
    {
        if checked_node_size(&tree.roots[i]).is_none() {
            return false;
        }
        i = i + 1;
    }
    true
}

// ---------- layout ----------

/// Where the extents of a node written at `pos` land, in order.
pub open spec fn node_map(n: EditNode, pos: int) -> Seq<ExtentMapping>
    decreases n, 1int,
{
    let hp = pos + spec_header_len(n, spec_payload_len(n));
    match n.payload {
        Payload::Extent(e) => seq![ExtentMapping { old_offset: e.offset, len: e.len, new_offset: hp as u64 }],
        Payload::Bytes(_) => Seq::empty(),
        Payload::Container { version_flags, prefix, children, .. } => kids_map(
            children@,
            children@.len() as int,
            hp + (if version_flags is Some {
                4int
            } else {
                0int
            }) + prefix@.len(),
        ),
    }
}

/// Where the extents of the first `i` nodes of `s`, written from `pos`
/// on, land.
pub open spec fn kids_map(s: Seq<EditNode>, i: int, pos: int) -> Seq<ExtentMapping>
    decreases s, i,
    when 0 <= i <= s.len()
{
    if i <= 0 {
        Seq::empty()
    } else {
        kids_map(s, i - 1, pos) + node_map(s[i - 1], pos + kids_size(s, i - 1))
    }
}

fn layout_node(node: &EditNode, pos: &mut u64, map: &mut Vec<ExtentMapping>)
    requires
        *old(pos) + spec_node_size(*node) <= u64::MAX,
    ensures
        *final(pos) == *old(pos) + spec_node_size(*node),
        final(map)@ == old(map)@ + node_map(*node, *old(pos) as int),
    decreases *node, 1int,
{
    let ghost start = *pos;
    let ghost map0 = map@;
    let p = payload_len(node);
    *pos = *pos + header_len(node, p);
    match &node.payload {
        Payload::Extent(e) => {
            map.push(ExtentMapping { old_offset: e.offset, len: e.len, new_offset: *pos });
            *pos = *pos + e.len;
            proof {
                assert(map@ =~= map0 + node_map(*node, start as int));
            }
        },
        Payload::Bytes(b) => {
            *pos = *pos + b.len() as u64;
            proof {
                assert(map@ =~= map0 + node_map(*node, start as int));
            }
        },
        Payload::Container { version_flags, prefix, children, suffix } => {
            if version_flags.is_some() {
                *pos = *pos + 4;
            }
            *pos = *pos + prefix.len() as u64;
            let ghost kids_start = *pos;
            let mut i: usize = 0;
            proof {
                assert(map@ =~= map0 + kids_map(children@, 0, kids_start as int));
            }
            while i < children.len()
                invariant
                    i <= children@.len(),
                    *pos == kids_start + kids_size(children@, i as int),
                    map@ == map0 + kids_map(children@, i as int, kids_start as int),
                    kids_start + kids_size(children@, children@.len() as int) + suffix@.len() == start
                        + spec_node_size(*node),
                    start + spec_node_size(*node) <= u64::MAX,
                    node.payload matches Payload::Container { children: c, suffix: sf, .. } && c
                        == children && sf == suffix,
                decreases children@.len() - i,
            {
                proof {
                    lemma_kids_size_mono(children@, i + 1, children@.len() as int);
                }
                layout_node(&children[i], pos, map);
                proof {
                    assert(map@ =~= map0 + kids_map(children@, i + 1, kids_start as int));
                }
                i = i + 1;
            }
            *pos = *pos + suffix.len() as u64;
        },
    }
}

/// The mappings land inside `[lo, hi)` in file order, their output ranges
/// back to back or apart but never overlapping.
pub open spec fn map_ordered(m: Seq<ExtentMapping>, lo: int, hi: int) -> bool {
    &&& forall|i: int| 0 <= i < m.len() ==> lo <= (#[trigger] m[i]).new_offset && m[i].new_offset + m[i].len <= hi
    &&& forall|i: int, j: int| 0 <= i < j < m.len() ==> #[trigger] m[i].new_offset + m[i].len <= #[trigger] m[j].new_offset
}

proof fn lemma_ordered_concat(a: Seq<ExtentMapping>, b: Seq<ExtentMapping>, lo: int, mid: int, hi: int)
    requires
        lo <= mid <= hi,
        map_ordered(a, lo, mid),
        map_ordered(b, mid, hi),
    ensures
        map_ordered(a + b, lo, hi),
{
    let c = a + b;
    assert forall|i: int| 0 <= i < c.len() implies lo <= (#[trigger] c[i]).new_offset && c[i].new_offset
        + c[i].len <= hi by {
        if i < a.len() {
            assert(c[i] == a[i]);
        } else {
            assert(c[i] == b[i - a.len()]);
        }
    }
    assert forall|i: int, j: int| 0 <= i < j < c.len() implies #[trigger] c[i].new_offset + c[i].len
        <= #[trigger] c[j].new_offset by {
        if j < a.len() {
            assert(c[i] == a[i] && c[j] == a[j]);
        } else if i >= a.len() {
            assert(c[i] == b[i - a.len()] && c[j] == b[j - a.len()]);
        } else {
            assert(c[i] == a[i] && c[j] == b[j - a.len()]);
        }
    }
}

/// A node written at `pos` puts its extents inside its own span, in
/// order and without overlap.
pub proof fn lemma_node_map_ordered(n: EditNode, pos: int)
    requires
        0 <= pos,
        pos + spec_node_size(n) <= u64::MAX,
    ensures
        map_ordered(node_map(n, pos), pos, pos + spec_node_size(n)),
    decreases n, 1int,
{
    let hp = pos + spec_header_len(n, spec_payload_len(n));
    match n.payload {
        Payload::Container { version_flags, prefix, children, suffix } => {
            let kp = hp + (if version_flags is Some {
                4int
            } else {
                0int
            }) + prefix@.len();
            lemma_kids_map_ordered(children@, children@.len() as int, kp);
        },
        _ => {},
    }
}

/// The first `i` nodes written from `pos` on put their extents inside
/// their span, in order and without overlap.
pub proof fn lemma_kids_map_ordered(s: Seq<EditNode>, i: int, pos: int)
    requires
        0 <= i <= s.len(),
        0 <= pos,
        pos + kids_size(s, i) <= u64::MAX,
    ensures
        map_ordered(kids_map(s, i, pos), pos, pos + kids_size(s, i)),
    decreases s, i,
{
    if i > 0 {
        lemma_kids_map_ordered(s, i - 1, pos);
        lemma_node_map_ordered(s[i - 1], pos + kids_size(s, i - 1));
        lemma_ordered_concat(
            kids_map(s, i - 1, pos),
            node_map(s[i - 1], pos + kids_size(s, i - 1)),
            pos,
            pos + kids_size(s, i - 1),
            pos + kids_size(s, i),
        );
    }
}

/// The layout of a tree whose size fits in 64 bits lists its extents in
/// file order, with output ranges that do not overlap.
pub proof fn lemma_layout_ordered(t: EditTree)
    requires
        roots_size(t) <= u64::MAX,
    ensures
        map_ordered(kids_map(t.roots@, t.roots@.len() as int, 0), 0, roots_size(t) as int),
{
    lemma_kids_map_ordered(t.roots@, t.roots@.len() as int, 0);
}

proof fn lemma_header_bytes_len(n: EditNode, p: nat)
    ensures
        header_bytes(n, p).len() == spec_header_len(n, p),
{
    lemma_be_bytes_len(0, 4);
    lemma_be_bytes_len(1, 4);
    lemma_be_bytes_len((spec_header_len(n, p) + p) as nat, 8);
    lemma_be_bytes_len((spec_header_len(n, p) + p) as nat, 4);
    match n.uuid {
        Some(u) => {
            assert(u@.len() == 16);
        },
        None => {},
    }
}

proof fn lemma_vf_bytes_len(vf: Option<(u8, u32)>)
    ensures
        vf_bytes(vf).len() == if vf is Some {
            4int
        } else {
            0int
        },
{
    match vf {
        Some((v, f)) => lemma_be_bytes_len(f as nat, 3),
        None => {},
    }
}

/// Every extent mapped by `m` (relative to `base`) finds its source bytes
/// at its output offset in `out`.
pub open spec fn map_placed(m: Seq<ExtentMapping>, out: Seq<u8>, base: int, src: Seq<u8>) -> bool {
    forall|i: int|
        0 <= i < m.len() ==> out.subrange(
            (#[trigger] m[i]).new_offset - base,
            m[i].new_offset - base + m[i].len,
        ) == src.subrange(m[i].old_offset as int, m[i].old_offset + m[i].len)
}

/// A node written at `pos` is `spec_node_size` bytes long and holds each
/// of its source extents at the output offset its layout gives.
pub proof fn lemma_node_placed(src: Seq<u8>, n: EditNode, pos: int)
    requires
        0 <= pos,
        pos + spec_node_size(n) <= u64::MAX,
        node_extents_ok(n, src.len()),
    ensures
        node_bytes(src, n).len() == spec_node_size(n),
        map_placed(node_map(n, pos), node_bytes(src, n), pos, src),
    decreases n, 1int,
{
    let pl = spec_payload_len(n);
    let hl = spec_header_len(n, pl);
    let hb = header_bytes(n, pl);
    lemma_header_bytes_len(n, pl);
    let out = node_bytes(src, n);
    match n.payload {
        Payload::Extent(e) => {
            let body = src.subrange(e.offset as int, e.offset + e.len);
            assert(out == hb + body);
            let m = node_map(n, pos);
            assert(m[0].new_offset == pos + hl);
            assert(out.subrange(hl as int, hl + e.len) =~= body);
        },
        Payload::Bytes(b) => {},
        Payload::Container { version_flags, prefix, children, suffix } => {
            lemma_vf_bytes_len(version_flags);
            let off = hl + vf_bytes(version_flags).len() + prefix@.len();
            let kp = pos + off;
            lemma_kids_placed(src, children@, children@.len() as int, kp);
            let kb = kids_bytes(src, children@, children@.len() as int);
            assert(out == hb + vf_bytes(version_flags) + prefix@ + kb + suffix@);
            let m = node_map(n, pos);
            assert forall|i: int| 0 <= i < m.len() implies out.subrange(
                (#[trigger] m[i]).new_offset - pos,
                m[i].new_offset - pos + m[i].len,
            ) == src.subrange(m[i].old_offset as int, m[i].old_offset + m[i].len) by {
                lemma_kids_map_ordered(children@, children@.len() as int, kp);
                let a = m[i].new_offset - kp;
                assert(kb.subrange(a, a + m[i].len) == src.subrange(
                    m[i].old_offset as int,
                    m[i].old_offset + m[i].len,
                ));
                assert(out.subrange(m[i].new_offset - pos, m[i].new_offset - pos + m[i].len) =~= kb.subrange(
                    a,
                    a + m[i].len,
                ));
            }
        },
    }
}

/// The first `i` nodes written from `pos` on are `kids_size` bytes long
/// and hold each source extent at the output offset their layout gives.
pub proof fn lemma_kids_placed(src: Seq<u8>, s: Seq<EditNode>, i: int, pos: int)
    requires
        0 <= i <= s.len(),
        0 <= pos,
        pos + kids_size(s, i) <= u64::MAX,
        kids_extents_ok(s, i, src.len()),
    ensures
        kids_bytes(src, s, i).len() == kids_size(s, i),
        map_placed(kids_map(s, i, pos), kids_bytes(src, s, i), pos, src),
    decreases s, i,
{
    if i > 0 {
        let p0 = pos + kids_size(s, i - 1);
        lemma_kids_placed(src, s, i - 1, pos);
        lemma_node_placed(src, s[i - 1], p0);
        lemma_kids_map_ordered(s, i - 1, pos);
        lemma_node_map_ordered(s[i - 1], p0);
        let a = kids_bytes(src, s, i - 1);
        let b = node_bytes(src, s[i - 1]);
        let ma = kids_map(s, i - 1, pos);
        let mb = node_map(s[i - 1], p0);
        let m = kids_map(s, i, pos);
        assert(m == ma + mb);
        assert forall|j: int| 0 <= j < m.len() implies (a + b).subrange(
            (#[trigger] m[j]).new_offset - pos,
            m[j].new_offset - pos + m[j].len,
        ) == src.subrange(m[j].old_offset as int, m[j].old_offset + m[j].len) by {
            if j < ma.len() {
                assert(m[j] == ma[j]);
                assert((a + b).subrange(m[j].new_offset - pos, m[j].new_offset - pos + m[j].len) =~= a.subrange(
                    m[j].new_offset - pos,
                    m[j].new_offset - pos + m[j].len,
                ));
            } else {
                let k = j - ma.len();
                assert(m[j] == mb[k]);
                assert((a + b).subrange(m[j].new_offset - pos, m[j].new_offset - pos + m[j].len) =~= b.subrange(
                    m[j].new_offset - p0,
                    m[j].new_offset - p0 + m[j].len,
                ));
            }
        }
    }
}

/// What `write_tree` writes is as long as the roots and the trailing
/// bytes together, and holds every source extent at the output offset
/// that `layout` gives it.
pub proof fn lemma_write_places_extents(src: Seq<u8>, t: EditTree)
    requires
        roots_size(t) <= u64::MAX,
        kids_extents_ok(t.roots@, t.roots@.len() as int, src.len()),
    ensures
        tree_bytes(src, t).len() == roots_size(t) + t.trailing@.len(),
        map_placed(kids_map(t.roots@, t.roots@.len() as int, 0), tree_bytes(src, t), 0, src),
{
    let n = t.roots@.len() as int;
    lemma_kids_placed(src, t.roots@, n, 0);
    lemma_kids_map_ordered(t.roots@, n, 0);
    let kb = kids_bytes(src, t.roots@, n);
    let m = kids_map(t.roots@, n, 0);
    assert forall|i: int| 0 <= i < m.len() implies tree_bytes(src, t).subrange(
        (#[trigger] m[i]).new_offset - 0,
        m[i].new_offset - 0 + m[i].len,
    ) == src.subrange(m[i].old_offset as int, m[i].old_offset + m[i].len) by {
        assert(tree_bytes(src, t).subrange(m[i].new_offset as int, m[i].new_offset + m[i].len) =~= kb.subrange(
            m[i].new_offset as int,
            m[i].new_offset + m[i].len,
        ));
    }
}

/// `b` is `a` again: the same type, header and payload, byte for byte,
/// with the same children.
pub open spec fn node_same(a: EditNode, b: EditNode) -> bool
    decreases a, 1int,
{
    &&& a.typ == b.typ
    &&& a.uuid == b.uuid
    &&& a.header_form == b.header_form
    &&& match a.payload {
        Payload::Extent(e) => b.payload == Payload::Extent(e),
        Payload::Bytes(x) => b.payload matches Payload::Bytes(y) && y@ == x@,
        Payload::Container { version_flags, prefix, children, suffix } => b.payload matches Payload::Container {
            version_flags: v2,
            prefix: p2,
            children: c2,
            suffix: s2,
        } && v2 == version_flags && p2@ == prefix@ && s2@ == suffix@ && c2@.len() == children@.len()
            && kids_same(children@, c2@, children@.len() as int),
    }
}

/// The first `i` nodes of `bs` are those of `os` again.
pub open spec fn kids_same(os: Seq<EditNode>, bs: Seq<EditNode>, i: int) -> bool
    decreases os, i,
    when 0 <= i <= os.len()
{
    if i <= 0 {
        true
    } else {
        kids_same(os, bs, i - 1) && i <= bs.len() && node_same(os[i - 1], bs[i - 1])
    }
}

/// The same node has the same size and the same bytes.
pub proof fn lemma_node_same_bytes(src: Seq<u8>, a: EditNode, b: EditNode)
    requires
        node_same(a, b),
    ensures
        spec_payload_len(a) == spec_payload_len(b),
        spec_node_size(a) == spec_node_size(b),
        node_bytes(src, a) == node_bytes(src, b),
    decreases a, 1int,
{
    match a.payload {
        Payload::Container { children, .. } => {
            let c2 = b.payload->children;
            lemma_kids_same_bytes(src, children@, c2@, children@.len() as int);
        },
        _ => {},
    }
}

/// The same children have the same size and the same bytes.
pub proof fn lemma_kids_same_bytes(src: Seq<u8>, os: Seq<EditNode>, bs: Seq<EditNode>, i: int)
    requires
        0 <= i <= os.len(),
        kids_same(os, bs, i),
    ensures
        kids_size(os, i) == kids_size(bs, i),
        kids_bytes(src, os, i) == kids_bytes(src, bs, i),
    decreases os, i,
{
    if i > 0 {
        lemma_kids_same_bytes(src, os, bs, i - 1);
        lemma_node_same_bytes(src, os[i - 1], bs[i - 1]);
    }
}

/// Every node is itself again.
pub proof fn lemma_node_same_refl(a: EditNode)
    ensures
        node_same(a, a),
    decreases a, 1int,
{
    match a.payload {
        Payload::Container { children, .. } => lemma_kids_same_refl(children@, children@.len() as int),
        _ => {},
    }
}

pub proof fn lemma_kids_same_refl(os: Seq<EditNode>, i: int)
    requires
        0 <= i <= os.len(),
    ensures
        kids_same(os, os, i),
    decreases os, i,
{
    if i > 0 {
        lemma_kids_same_refl(os, i - 1);
        lemma_node_same_refl(os[i - 1]);
    }
}

/// Total size of the roots of a tree, not counting trailing bytes.
pub open spec fn roots_size(t: EditTree) -> nat {
    kids_size(t.roots@, t.roots@.len() as int)
}

/// The extent map of the tree: every source extent paired with the offset
/// it occupies in the output.
pub fn layout(tree: &EditTree) -> (r: Vec<ExtentMapping>)
    requires
        roots_size(*tree) <= u64::MAX,
    ensures
        r@ == kids_map(tree.roots@, tree.roots@.len() as int, 0),
{
    let mut map: Vec<ExtentMapping> = Vec::new();
    let mut pos: u64 = 0;
    let mut i: usize = 0;
    while i < tree.roots.len()
        invariant
            i <= tree.roots@.len(),
            pos == kids_size(tree.roots@, i as int),
            map@ == kids_map(tree.roots@, i as int, 0),
            roots_size(*tree) <= u64::MAX,
        decreases tree.roots@.len() - i,
    {
        proof {
            lemma_kids_size_mono(tree.roots@, i + 1, tree.roots@.len() as int);
        }
        layout_node(&tree.roots[i], &mut pos, &mut map);
        proof {
            assert(map@ =~= kids_map(tree.roots@, i + 1, 0));
        }
        i = i + 1;
    }
    map
}

/// Total size of the roots, or `None` when it does not fit in 64 bits.
pub fn checked_roots_size(tree: &EditTree) -> (r: Option<u64>)
    ensures
        match r {
            Some(v) => v == roots_size(*tree),
            None => roots_size(*tree) > u64::MAX,
        },
{
    let mut total: u64 = 0;
    let mut i: usize = 0;
    while i < tree.roots.len()
        invariant
            i <= tree.roots@.len(),
            total == kids_size(tree.roots@, i as int),
        decreases tree.roots@.len() - i,
    {
        proof {
            lemma_kids_size_mono(tree.roots@, i + 1, tree.roots@.len() as int);
        }
        let c = match checked_node_size(&tree.roots[i]) {
            Some(c) => c,
            None => return None,
        };
        if c > u64::MAX - total {
            return None;
        }
        total = total + c;
        i = i + 1;
    }
    Some(total)
}

// ---------- building ----------

/// The header form a parsed header was written in.
pub open spec fn form_of(h: BoxHeader) -> HeaderForm {
    if h.size == 0 {
        HeaderForm::ToEof
    } else if h.header_size - (if h.uuid is Some {
        16int
    } else {
        0int
    }) == 16 {
        HeaderForm::Large
    } else {
        HeaderForm::Compact
    }
}

/// Start of the first box of `kids`, or `be` when there is none.
pub open spec fn first_start(kids: Seq<BoxRef>, be: int) -> int {
    if kids.len() > 0 {
        kids[0].hdr.start as int
    } else {
        be
    }
}

/// End of the last box of `kids` (clamped to `be`), or `be` when there is
/// none.
pub open spec fn last_end(kids: Seq<BoxRef>, be: int) -> int {
    if kids.len() > 0 {
        box_end_spec(kids.last().hdr, be)
    } else {
        be
    }
}

/// `n` is the edit node built from the parsed box `b` found inside
/// `[.., parent_end)`: same type, uuid and header form; leaves become
/// extents over everything after the header; containers keep their
/// version/flags and the bytes before the first and after the last child.
pub open spec fn node_built(n: EditNode, b: BoxRef, src: Seq<u8>, parent_end: int) -> bool
    decreases b, 0int,
{
    let h = b.hdr;
    let be = box_end_spec(h, parent_end);
    let cs = h.start + h.header_size;
    &&& n.typ == h.typ
    &&& n.uuid == h.uuid
    &&& n.header_form == form_of(h)
    &&& match b.kind {
        NodeKind::Container(kids) => n.payload matches Payload::Container {
            version_flags,
            prefix,
            children,
            suffix,
        } && version_flags is None && prefix@ == src.subrange(cs, first_start(kids@, be))
            && suffix@ == src.subrange(last_end(kids@, be), be) && children@.len() == kids@.len()
            && kids_built(children@, kids@, kids@.len() as int, src, be),
        NodeKind::FullContainer { version, flags, data_offset, children: kids, .. } => n.payload matches Payload::Container {
            version_flags,
            prefix,
            children,
            suffix,
        } && version_flags == Some((version, flags)) && prefix@ == src.subrange(
            data_offset as int,
            first_start(kids@, be),
        ) && suffix@ == src.subrange(last_end(kids@, be), be) && children@.len() == kids@.len()
            && kids_built(children@, kids@, kids@.len() as int, src, be),
        _ => n.payload == Payload::Extent(Extent { offset: cs as u64, len: sat_sub(be, cs) as u64 }),
    }
}

/// The first `i` nodes of `ns` were built from the first `i` boxes of `bs`.
pub open spec fn kids_built(ns: Seq<EditNode>, bs: Seq<BoxRef>, i: int, src: Seq<u8>, be: int) -> bool
    decreases bs, i,
    when 0 <= i <= bs.len()
{
    if i <= 0 {
        true
    } else {
        kids_built(ns, bs, i - 1, src, be) && i <= ns.len() && node_built(ns[i - 1], bs[i - 1], src, be)
    }
}

/// A box can be turned into an edit node: no container's children start
/// before the container's own payload.
pub open spec fn node_buildable(b: BoxRef, parent_end: int) -> bool
    decreases b, 0int,
{
    let be = box_end_spec(b.hdr, parent_end);
    match b.kind {
        NodeKind::Container(kids) => b.hdr.start + b.hdr.header_size <= first_start(kids@, be)
            && kids_buildable(kids@, kids@.len() as int, be),
        NodeKind::FullContainer { data_offset, children: kids, .. } => data_offset <= first_start(
            kids@,
            be,
        ) && kids_buildable(kids@, kids@.len() as int, be),
        _ => true,
    }
}

/// The first `i` boxes of `bs` can be turned into edit nodes.
pub open spec fn kids_buildable(bs: Seq<BoxRef>, i: int, be: int) -> bool
    decreases bs, i,
    when 0 <= i <= bs.len()
{
    if i <= 0 {
        true
    } else {
        kids_buildable(bs, i - 1, be) && node_buildable(bs[i - 1], be)
    }
}

pub proof fn lemma_kids_buildable_mono(bs: Seq<BoxRef>, i: int, j: int, be: int)
    requires
        0 <= i < j <= bs.len(),
        kids_buildable(bs, j, be),
    ensures
        kids_buildable(bs, i, be),
        node_buildable(bs[i], be),
    decreases j - i,
{
    if i + 1 < j {
        lemma_kids_buildable_mono(bs, i, j - 1, be);
    }
}

/// End of the last top-level box, or 0 when there is none.
pub open spec fn roots_end(bs: Seq<BoxRef>, len: int) -> int {
    if bs.len() > 0 {
        box_end_spec(bs.last().hdr, len)
    } else {
        0
    }
}

/// `t` is the edit tree built from the top-level boxes `bs` of `src`.
pub open spec fn tree_built(t: EditTree, bs: Seq<BoxRef>, src: Seq<u8>) -> bool {
    &&& t.roots@.len() == bs.len()
    &&& kids_built(t.roots@, bs, bs.len() as int, src, src.len() as int)
    &&& t.trailing@ == src.subrange(roots_end(bs, src.len() as int), src.len() as int)
}

fn header_form_of(h: &BoxHeader) -> (r: HeaderForm)
    requires
        h.uuid is Some ==> h.header_size >= 16,
    ensures
        r == form_of(*h),
{
    if h.size == 0 {
        HeaderForm::ToEof
    } else {
        let u: u64 = if h.uuid.is_some() {
            16
        } else {
            0
        };
        if h.header_size - u == 16 {
            HeaderForm::Large
        } else {
            HeaderForm::Compact
        }
    }
}

fn container_payload(
    src: &[u8],
    version_flags: Option<(u8, u32)>,
    start: usize,
    be: usize,
    kids: &Vec<BoxRef>,
    Ghost(strict): Ghost<bool>,
    Ghost(entry): Ghost<bool>,
) -> (r: Result<Payload, EditError>)
    requires
        start <= src@.len(),
        be <= src@.len(),
        forall|i: int| 0 <= i < kids@.len() ==> #[trigger] box_wf(kids@[i], src@, be as int, strict, entry),
        kids@.len() > 0 ==> box_end_spec(kids@.last().hdr, be as int) <= be,
    ensures
        r is Ok <==> start <= first_start(kids@, be as int) && kids_buildable(kids@, kids@.len() as int, be as int),
        r matches Ok(p) ==> p matches Payload::Container { version_flags: vf, prefix, children, suffix }
            && vf == version_flags && prefix@ == src@.subrange(start as int, first_start(kids@, be as int))
            && suffix@ == src@.subrange(last_end(kids@, be as int), be as int)
            && children@.len() == kids@.len()
            && kids_built(children@, kids@, kids@.len() as int, src@, be as int),
        r is Err ==> r == Err::<Payload, EditError>(EditError::BadLayout),
    decreases kids@,
{
    let first = if kids.len() > 0 {
        proof {
            lemma_box_wf_elim(kids@[0], src@, be as int, strict, entry);
        }
        kids[0].hdr.start as usize
    } else {
        be
    };
    if start > first {
        return Err(EditError::BadLayout);
    }
    let prefix = copy_range(src, start, first);
    let mut children: Vec<EditNode> = Vec::new();
    let mut i: usize = 0;
    while i < kids.len()
        invariant
            i <= kids@.len(),
            be <= src@.len(),
            forall|j: int| 0 <= j < kids@.len() ==> #[trigger] box_wf(kids@[j], src@, be as int, strict, entry),
            children@.len() == i,
            kids_built(children@, kids@, i as int, src@, be as int),
            kids_buildable(kids@, i as int, be as int),
        decreases kids@.len() - i,
    {
        proof {
            assert(box_wf(kids@[i as int], src@, be as int, strict, entry));
        }
        let res = build_node(src, &kids[i], be, Ghost(strict), Ghost(entry));
        match res {
            Ok(n) => {
                let ghost old_children = children@;
                children.push(n);
                proof {
                    assert(children@[i as int] == n);
                    assert forall|j: int| 0 <= j < i implies children@[j] == old_children[j] by {}
                    lemma_kids_built_ext(old_children, children@, kids@, i as int, src@, be as int);
                }
            },
            Err(e) => {
                proof {
                    if kids_buildable(kids@, kids@.len() as int, be as int) {
                        lemma_kids_buildable_mono(kids@, i as int, kids@.len() as int, be as int);
                    }
                }
                return Err(e);
            },
        }
        i = i + 1;
    }
    let last = if kids.len() > 0 {
        proof {
            lemma_box_wf_elim(kids@.last(), src@, be as int, strict, entry);
        }
        box_end(&kids[kids.len() - 1].hdr, be)
    } else {
        be
    };
    let suffix = copy_range(src, last, be);
    Ok(Payload::Container { version_flags, prefix, children, suffix })
}

/// `kids_built` only looks at the first `i` nodes.
pub proof fn lemma_kids_built_ext(a: Seq<EditNode>, b: Seq<EditNode>, bs: Seq<BoxRef>, i: int, src: Seq<u8>, be: int)
    requires
        0 <= i <= bs.len(),
        i <= a.len(),
        i <= b.len(),
        forall|j: int| 0 <= j < i ==> a[j] == b[j],
        kids_built(a, bs, i, src, be),
    ensures
        kids_built(b, bs, i, src, be),
    decreases i,
{
    if i > 0 {
        lemma_kids_built_ext(a, b, bs, i - 1, src, be);
    }
}

#[verifier::rlimit(40)]
fn build_node(
    src: &[u8],
    b: &BoxRef,
    parent_end: usize,
    Ghost(strict): Ghost<bool>,
    Ghost(entry): Ghost<bool>,
) -> (r: Result<EditNode, EditError>)
    requires
        parent_end <= src@.len(),
        box_wf(*b, src@, parent_end as int, strict, entry),
    ensures
        r is Ok <==> node_buildable(*b, parent_end as int),
        r matches Ok(n) ==> node_built(n, *b, src@, parent_end as int),
        r is Err ==> r == Err::<EditNode, EditError>(EditError::BadLayout),
    decreases *b,
{
    let blen = src.len();
    proof {
        assert(blen == src@.len());
        lemma_box_wf_elim(*b, src@, parent_end as int, strict, entry);
        assert(header_parsed(b.hdr, src@, b.hdr.start as int));
        assert(crate::parser::header_error(src@, b.hdr.start as int) is None);
        assert(b.hdr.start + b.hdr.header_size <= src@.len());
    }
    let h = &b.hdr;
    let be = box_end(h, parent_end);
    let cs = (h.start + h.header_size) as usize;
    let form = header_form_of(h);
    let ghost cst = child_strict(*b, strict, entry);
    let ghost cen = child_entry(*b);
    let payload = match &b.kind {
        NodeKind::Container(kids) => {
            proof {
                assert(kids@ == crate::parser::node_children(*b));
            }
            container_payload(src, None, cs, be, kids, Ghost(cst), Ghost(cen))?
        },
        NodeKind::FullContainer { version, flags, data_offset, children, .. } => {
            proof {
                assert(children@ == crate::parser::node_children(*b));
            }
            container_payload(
                src,
                Some((*version, *flags)),
                *data_offset as usize,
                be,
                children,
                Ghost(cst),
                Ghost(cen),
            )?
        },
        _ => {
            let len: u64 = if be >= cs {
                (be - cs) as u64
            } else {
                0
            };
            Payload::Extent(Extent { offset: cs as u64, len })
        },
    };
    Ok(EditNode { typ: h.typ, uuid: h.uuid, header_form: form, payload })
}

/// Builds an edit tree from the parsed top-level boxes of `src`: every
/// leaf becomes an extent of `src`, containers keep the non-box bytes
/// around their children, and the bytes after the last box are kept as
/// trailing bytes.
pub fn build_tree(src: &[u8], boxes: &[BoxRef]) -> (r: Result<EditTree, EditError>)
    requires
        (forall|i: int| 0 <= i < boxes@.len() ==> #[trigger] box_wf(boxes@[i], src@, src@.len() as int, true, false))
        || (forall|i: int| 0 <= i < boxes@.len() ==> #[trigger] box_wf(boxes@[i], src@, src@.len() as int, false, false)),
    ensures
        r is Ok <==> kids_buildable(boxes@, boxes@.len() as int, src@.len() as int),
        r matches Ok(t) ==> tree_built(t, boxes@, src@),
        r is Err ==> r == Err::<EditTree, EditError>(EditError::BadLayout),
{
    let ghost strict: bool = forall|i: int| 0 <= i < boxes@.len() ==> #[trigger] box_wf(boxes@[i], src@, src@.len() as int, true, false);
    let len = src.len();
    let mut roots: Vec<EditNode> = Vec::new();
    let mut i: usize = 0;
    while i < boxes.len()
        invariant
            i <= boxes@.len(),
            len == src@.len(),
            forall|j: int| 0 <= j < boxes@.len() ==> #[trigger] box_wf(boxes@[j], src@, len as int, strict, false),
            roots@.len() == i,
            kids_built(roots@, boxes@, i as int, src@, len as int),
            kids_buildable(boxes@, i as int, len as int),
        decreases boxes@.len() - i,
    {
        proof {
            assert(box_wf(boxes@[i as int], src@, len as int, strict, false));
        }
        let res = build_node(src, &boxes[i], len, Ghost(strict), Ghost(false));
        match res {
            Ok(n) => {
                let ghost old_roots = roots@;
                roots.push(n);
                proof {
                    assert forall|j: int| 0 <= j < i implies roots@[j] == old_roots[j] by {}
                    lemma_kids_built_ext(old_roots, roots@, boxes@, i as int, src@, len as int);
                }
            },
            Err(e) => {
                proof {
                    if kids_buildable(boxes@, boxes@.len() as int, len as int) {
                        lemma_kids_buildable_mono(boxes@, i as int, boxes@.len() as int, len as int);
                    }
                }
                return Err(e);
            },
        }
        i = i + 1;
    }
    let last = if boxes.len() > 0 {
        proof {
            lemma_box_wf_elim(boxes@.last(), src@, len as int, strict, false);
        }
        box_end(&boxes[boxes.len() - 1].hdr, len)
    } else {
        0
    };
    let trailing = copy_range(src, last, len);
    Ok(EditTree { roots, trailing })
}

// ---------- unedited round trip ----------

/// A parsed box that an edit node reproduces byte for byte: its declared
/// size was not clamped to its parent, a size of 0 was written in a
/// 32-bit field, its header fits inside it, and the same holds of its
/// children; FullBox containers hold at least their version and flags.
pub open spec fn box_exact(b: BoxRef, src: Seq<u8>, parent_end: int) -> bool
    decreases b, 0int,
{
    let h = b.hdr;
    let be = box_end_spec(h, parent_end);
    &&& (h.size != 0 ==> h.start + h.size <= parent_end)
    &&& (h.size == 0 ==> be_at(src, h.start as int, 4) == 0)
    &&& h.start + h.header_size <= be
    &&& match b.kind {
        NodeKind::Container(kids) => kids_exact(kids@, kids@.len() as int, src, be),
        NodeKind::FullContainer { data_offset, children, .. } => data_offset <= first_start(
            children@,
            be,
        ) && kids_exact(children@, children@.len() as int, src, be),
        _ => true,
    }
}

/// The first `i` boxes of `bs` are reproduced exactly.
pub open spec fn kids_exact(bs: Seq<BoxRef>, i: int, src: Seq<u8>, be: int) -> bool
    decreases bs, i,
    when 0 <= i <= bs.len()
{
    if i <= 0 {
        true
    } else {
        kids_exact(bs, i - 1, src, be) && box_exact(bs[i - 1], src, be)
    }
}

pub proof fn lemma_kids_exact_mono(bs: Seq<BoxRef>, i: int, j: int, src: Seq<u8>, be: int)
    requires
        0 <= i < j <= bs.len(),
        kids_exact(bs, j, src, be),
    ensures
        kids_exact(bs, i, src, be),
        box_exact(bs[i], src, be),
    decreases j - i,
{
    if i + 1 < j {
        lemma_kids_exact_mono(bs, i, j - 1, src, be);
    }
}

/// End of the run of the first `i` siblings starting at `lo`.
pub open spec fn run_end(bs: Seq<BoxRef>, i: int, lo: int, be: int) -> int {
    if i <= 0 {
        lo
    } else {
        box_end_spec(bs[i - 1].hdr, be)
    }
}

proof fn lemma_header_roundtrip(n: EditNode, b: BoxRef, src: Seq<u8>, parent_end: int)
    requires
        header_parsed(b.hdr, src, b.hdr.start as int),
        b.hdr.start + 8 <= parent_end <= src.len(),
        b.hdr.size != 0 ==> b.hdr.start + b.hdr.size <= parent_end,
        b.hdr.size == 0 ==> be_at(src, b.hdr.start as int, 4) == 0,
        b.hdr.start + b.hdr.header_size <= box_end_spec(b.hdr, parent_end),
        n.typ == b.hdr.typ,
        n.uuid == b.hdr.uuid,
        n.header_form == form_of(b.hdr),
    ensures
        ({
            let p = (box_end_spec(b.hdr, parent_end) - b.hdr.start - b.hdr.header_size) as nat;
            &&& spec_header_len(n, p) == b.hdr.header_size
            &&& header_bytes(n, p) == src.subrange(
                b.hdr.start as int,
                b.hdr.start + b.hdr.header_size,
            )
        }),
{
    let h = b.hdr;
    let st = h.start as int;
    let be = box_end_spec(h, parent_end);
    let p = (be - st - h.header_size) as nat;
    let s4 = src.subrange(st, st + 4);
    let s8 = src.subrange(st + 8, st + 16);
    lemma_be_bytes_value(s4);
    lemma_be_bytes_value(s8);
    lemma_be_value_bound(s4);
    lemma_pow256_values();
    assert(be_at(src, st, 4) == be_value(s4));
    let base = header_base(src, st);
    let tail = src.subrange(st + base, st + h.header_size);
    if header_is_uuid(src, st) {
        assert(n.uuid matches Some(u) && u@ == tail);
    } else {
        assert(tail =~= Seq::<u8>::empty());
    }
    if h.size == 0 {
        assert(header_bytes(n, p) =~= s4 + src.subrange(st + 4, st + 8) + tail);
    } else if be_at(src, st, 4) == 1 {
        assert(be_at(src, st + 8, 8) == be_value(s8));
        assert(header_bytes(n, p) =~= s4 + src.subrange(st + 4, st + 8) + s8 + tail);
    } else {
        assert(header_bytes(n, p) =~= s4 + src.subrange(st + 4, st + 8) + tail);
    }
    assert(src.subrange(st, st + h.header_size) =~= s4 + src.subrange(st + 4, st + 8) + src.subrange(
        st + 8,
        st + h.header_size,
    ));
    if be_at(src, st, 4) == 1 {
        assert(src.subrange(st + 8, st + h.header_size) =~= s8 + tail);
    }
}

/// Splitting a range of a sequence at ordered cut points.
pub proof fn lemma_split3(src: Seq<u8>, a: int, b: int, c: int, d: int)
    requires
        0 <= a <= b <= c <= d <= src.len(),
    ensures
        src.subrange(a, d) == src.subrange(a, b) + src.subrange(b, c) + src.subrange(c, d),
{
    assert(src.subrange(a, d) =~= src.subrange(a, b) + src.subrange(b, c) + src.subrange(c, d));
}

proof fn lemma_chain_facts(kids: Seq<BoxRef>, lo: int, hi: int, c: bool)
    requires
        chain(kids, lo, hi, c),
    ensures
        kids.len() > 0 ==> kids[0].hdr.start == lo,
        forall|j: int| 0 < j < kids.len() ==> (#[trigger] kids[j]).hdr.start == box_end_spec(kids[j - 1].hdr, hi),
        forall|j: int| 0 <= j < kids.len() ==> lo <= (#[trigger] kids[j]).hdr.start && kids[j].hdr.start + 8 <= hi,
{
    reveal(chain);
}

/// The geometric part of well-formedness.
proof fn lemma_wf_geom(b: BoxRef, src: Seq<u8>, parent_end: int, strict: bool, entry: bool)
    requires
        box_wf(b, src, parent_end, strict, entry),
    ensures
        parent_end <= src.len(),
        header_parsed(b.hdr, src, b.hdr.start as int),
        b.hdr.start + 8 <= parent_end,
        b.hdr.start <= box_end_spec(b.hdr, parent_end) <= parent_end,
        shape_ok(b, src, parent_end, strict, entry),
        forall|i: int|
            0 <= i < node_children(b).len() ==> #[trigger] box_wf(
                node_children(b)[i],
                src,
                box_end_spec(b.hdr, parent_end),
                child_strict(b, strict, entry),
                child_entry(b),
            ),
{
    lemma_box_wf_elim(b, src, parent_end, strict, entry);
}

/// The bytes and size of a container node whose parts are the given
/// ranges of `src`.
proof fn lemma_container_bytes(
    n: EditNode,
    src: Seq<u8>,
    st: int,
    cs: int,
    ps: int,
    lo: int,
    le: int,
    be: int,
)
    requires
        0 <= st <= cs <= ps <= lo <= le <= be <= src.len(),
        n.payload matches Payload::Container { version_flags, prefix, children, suffix } && vf_bytes(
            version_flags,
        ) == src.subrange(cs, ps) && ps - cs == (if version_flags is Some {
            4int
        } else {
            0int
        }) && prefix@ == src.subrange(ps, lo) && suffix@ == src.subrange(le, be) && kids_bytes(
            src,
            children@,
            children@.len() as int,
        ) == src.subrange(lo, le) && kids_size(children@, children@.len() as int) == le - lo
            && kids_extents_ok(children@, children@.len() as int, src.len()),
        header_bytes(n, (be - cs) as nat) == src.subrange(st, cs),
        spec_header_len(n, (be - cs) as nat) == cs - st,
    ensures
        node_bytes(src, n) == src.subrange(st, be),
        spec_node_size(n) == be - st,
        node_extents_ok(n, src.len()),
{
    assert(spec_payload_len(n) == be - cs);
    lemma_split3(src, ps, lo, le, be);
    lemma_split3(src, st, cs, ps, be);
    assert(node_bytes(src, n) =~= src.subrange(st, cs) + src.subrange(cs, ps) + src.subrange(ps, lo)
        + src.subrange(lo, le) + src.subrange(le, be));
}

/// An exactly reproduced box: its edit node serializes to the box's own
/// bytes and has the box's size, and the box can be built.
#[verifier::rlimit(100)]
#[verifier::spinoff_prover]
pub proof fn lemma_node_roundtrip(
    n: EditNode,
    b: BoxRef,
    src: Seq<u8>,
    parent_end: int,
    strict: bool,
    entry: bool,
)
    requires
        src.len() <= u64::MAX,
        box_wf(b, src, parent_end, strict, entry),
        box_exact(b, src, parent_end),
        node_built(n, b, src, parent_end),
    ensures
        node_bytes(src, n) == src.subrange(b.hdr.start as int, box_end_spec(b.hdr, parent_end)),
        spec_node_size(n) == box_end_spec(b.hdr, parent_end) - b.hdr.start,
        node_extents_ok(n, src.len()),
        node_buildable(b, parent_end),
        b.hdr.start <= box_end_spec(b.hdr, parent_end) <= parent_end <= src.len(),
    decreases b, 0int,
{
    lemma_wf_geom(b, src, parent_end, strict, entry);
    let h = b.hdr;
    let st = h.start as int;
    let be = box_end_spec(h, parent_end);
    let cs = st + h.header_size;
    lemma_header_roundtrip(n, b, src, parent_end);
    let cst = child_strict(b, strict, entry);
    let cen = child_entry(b);
    match b.kind {
        NodeKind::Container(kids) => {
            assert(kids@ == node_children(b));
            let lo = first_start(kids@, be);
            let ghost clo = if entry {
                cs + crate::parser::sample_fixed_len(src, h.typ, cs, be).unwrap()
            } else {
                cs
            };
            lemma_chain_facts(kids@, clo, be, strict || entry);
            match n.payload {
                Payload::Container { version_flags, prefix, children, suffix } => {
                    lemma_kids_roundtrip(children@, kids@, kids@.len() as int, src, be, lo, cst, cen);
                    let le = last_end(kids@, be);
                    assert(run_end(kids@, kids@.len() as int, lo, be) == le);
                    assert(vf_bytes(version_flags) =~= src.subrange(cs, cs));
                    lemma_container_bytes(n, src, st, cs, cs, lo, le, be);
                },
                _ => {},
            }
        },
        NodeKind::FullContainer { version, flags, data_offset, children: kids, .. } => {
            assert(kids@ == node_children(b));
            assert(vf_at(src, cs, version, flags));
            let lo = first_start(kids@, be);
            let ghost clo = if crate::known_boxes::KnownBox::spec_from(h.typ) is Stsd {
                cs + 8
            } else {
                cs + 4
            };
            lemma_chain_facts(kids@, clo, be, strict);
            match n.payload {
                Payload::Container { version_flags, prefix, children, suffix } => {
                    lemma_kids_roundtrip(children@, kids@, kids@.len() as int, src, be, lo, cst, cen);
                    let le = last_end(kids@, be);
                    assert(run_end(kids@, kids@.len() as int, lo, be) == le);
                    let s3 = src.subrange(cs + 1, cs + 4);
                    lemma_be_bytes_value(s3);
                    assert(vf_bytes(version_flags) =~= src.subrange(cs, cs + 4));
                    lemma_container_bytes(n, src, st, cs, cs + 4, lo, le, be);
                },
                _ => {},
            }
        },
        _ => {
            assert(spec_payload_len(n) == be - cs);
            assert(node_bytes(src, n) =~= src.subrange(st, cs) + src.subrange(cs, be));
            lemma_split3(src, st, cs, be, be);
        },
    }
}

/// A run of exactly reproduced siblings starting at `lo`: their edit nodes
/// serialize to the run's bytes.
#[verifier::rlimit(100)]
#[verifier::spinoff_prover]
pub proof fn lemma_kids_roundtrip(
    ns: Seq<EditNode>,
    bs: Seq<BoxRef>,
    i: int,
    src: Seq<u8>,
    be: int,
    lo: int,
    strict: bool,
    entry: bool,
)
    requires
        src.len() <= u64::MAX,
        0 <= i <= bs.len(),
        0 <= lo <= be <= src.len(),
        bs.len() > 0 ==> bs[0].hdr.start == lo,
        forall|j: int| 0 < j < bs.len() ==> (#[trigger] bs[j]).hdr.start == box_end_spec(bs[j - 1].hdr, be),
        forall|j: int| 0 <= j < bs.len() ==> #[trigger] box_wf(bs[j], src, be, strict, entry),
        kids_exact(bs, bs.len() as int, src, be),
        kids_built(ns, bs, i, src, be),
    ensures
        kids_bytes(src, ns, i) == src.subrange(lo, run_end(bs, i, lo, be)),
        kids_size(ns, i) == run_end(bs, i, lo, be) - lo,
        kids_extents_ok(ns, i, src.len()),
        kids_buildable(bs, i, be),
        lo <= run_end(bs, i, lo, be) <= be,
    decreases bs, i,
{
    if i > 0 {
        lemma_kids_roundtrip(ns, bs, i - 1, src, be, lo, strict, entry);
        lemma_kids_exact_mono(bs, i - 1, bs.len() as int, src, be);
        assert(box_wf(bs[i - 1], src, be, strict, entry));
        lemma_node_roundtrip(ns[i - 1], bs[i - 1], src, be, strict, entry);
        let a = run_end(bs, i - 1, lo, be);
        let e = run_end(bs, i, lo, be);
        assert(bs[i - 1].hdr.start == a);
        assert(i <= ns.len());
        assert(kids_bytes(src, ns, i) == kids_bytes(src, ns, i - 1) + node_bytes(src, ns[i - 1]));
        assert(src.subrange(lo, e) =~= src.subrange(lo, a) + src.subrange(a, e));
    } else {
        assert(src.subrange(lo, lo) =~= Seq::<u8>::empty());
    }
}

/// Re-serializing an unedited tree reproduces the source byte for byte:
/// when the top-level boxes of `src` were parsed back to back from offset
/// 0 and none of them, at any depth, had its size clamped, the tree built
/// from them can be built, fits, reads only inside `src`, and writes `src`
/// again.
pub proof fn lemma_unedited_roundtrip(src: Seq<u8>, boxes: Seq<BoxRef>, t: EditTree, strict: bool)
    requires
        src.len() <= usize::MAX,
        chain(boxes, 0, src.len() as int, false),
        forall|i: int| 0 <= i < boxes.len() ==> #[trigger] box_wf(boxes[i], src, src.len() as int, strict, false),
        kids_exact(boxes, boxes.len() as int, src, src.len() as int),
        tree_built(t, boxes, src),
    ensures
        kids_buildable(boxes, boxes.len() as int, src.len() as int),
        tree_fits(t),
        kids_extents_ok(t.roots@, t.roots@.len() as int, src.len()),
        tree_bytes(src, t) == src,
{
    reveal(chain);
    let len = src.len() as int;
    lemma_kids_roundtrip(t.roots@, boxes, boxes.len() as int, src, len, 0, strict, false);
    assert forall|i: int| 0 <= i < t.roots@.len() implies spec_node_size(#[trigger] t.roots@[i]) <= u64::MAX by {
        lemma_kids_exact_mono(boxes, i, boxes.len() as int, src, len);
        lemma_kids_built_index(t.roots@, boxes, i, boxes.len() as int, src, len);
        lemma_node_roundtrip(t.roots@[i], boxes[i], src, len, strict, false);
        lemma_box_wf_elim(boxes[i], src, len, strict, false);
    }
    assert(tree_bytes(src, t) =~= src);
}

/// Every extent lands where it was.
pub open spec fn map_identity(m: Seq<ExtentMapping>) -> bool {
    forall|i: int| 0 <= i < m.len() ==> (#[trigger] m[i]).new_offset == m[i].old_offset
}

/// Laid out from its own start, an exactly reproduced box keeps every
/// extent in place.
#[verifier::rlimit(100)]
#[verifier::spinoff_prover]
pub proof fn lemma_node_map_identity(
    n: EditNode,
    b: BoxRef,
    src: Seq<u8>,
    parent_end: int,
    strict: bool,
    entry: bool,
)
    requires
        src.len() <= u64::MAX,
        box_wf(b, src, parent_end, strict, entry),
        box_exact(b, src, parent_end),
        node_built(n, b, src, parent_end),
    ensures
        map_identity(node_map(n, b.hdr.start as int)),
    decreases b, 0int,
{
    lemma_wf_geom(b, src, parent_end, strict, entry);
    lemma_node_roundtrip(n, b, src, parent_end, strict, entry);
    let h = b.hdr;
    let st = h.start as int;
    let be = box_end_spec(h, parent_end);
    let cs = st + h.header_size;
    lemma_header_roundtrip(n, b, src, parent_end);
    let cst = child_strict(b, strict, entry);
    let cen = child_entry(b);
    assert(spec_payload_len(n) == be - cs);
    match b.kind {
        NodeKind::Container(kids) => {
            assert(kids@ == node_children(b));
            let lo = first_start(kids@, be);
            let ghost clo = if entry {
                cs + crate::parser::sample_fixed_len(src, h.typ, cs, be).unwrap()
            } else {
                cs
            };
            lemma_chain_facts(kids@, clo, be, strict || entry);
            match n.payload {
                Payload::Container { version_flags, prefix, children, suffix } => {
                    lemma_kids_map_identity(children@, kids@, kids@.len() as int, src, be, lo, cst, cen);
                },
                _ => {},
            }
        },
        NodeKind::FullContainer { version, flags, data_offset, children: kids, .. } => {
            assert(kids@ == node_children(b));
            let lo = first_start(kids@, be);
            let ghost clo = if crate::known_boxes::KnownBox::spec_from(h.typ) is Stsd {
                cs + 8
            } else {
                cs + 4
            };
            lemma_chain_facts(kids@, clo, be, strict);
            match n.payload {
                Payload::Container { version_flags, prefix, children, suffix } => {
                    lemma_kids_map_identity(children@, kids@, kids@.len() as int, src, be, lo, cst, cen);
                },
                _ => {},
            }
        },
        _ => {},
    }
}

pub proof fn lemma_kids_map_identity(
    ns: Seq<EditNode>,
    bs: Seq<BoxRef>,
    i: int,
    src: Seq<u8>,
    be: int,
    lo: int,
    strict: bool,
    entry: bool,
)
    requires
        src.len() <= u64::MAX,
        0 <= i <= bs.len(),
        0 <= lo <= be <= src.len(),
        bs.len() > 0 ==> bs[0].hdr.start == lo,
        forall|j: int| 0 < j < bs.len() ==> (#[trigger] bs[j]).hdr.start == box_end_spec(bs[j - 1].hdr, be),
        forall|j: int| 0 <= j < bs.len() ==> #[trigger] box_wf(bs[j], src, be, strict, entry),
        kids_exact(bs, bs.len() as int, src, be),
        kids_built(ns, bs, i, src, be),
    ensures
        map_identity(kids_map(ns, i, lo)),
    decreases bs, i,
{
    if i > 0 {
        lemma_kids_map_identity(ns, bs, i - 1, src, be, lo, strict, entry);
        lemma_kids_roundtrip(ns, bs, i - 1, src, be, lo, strict, entry);
        lemma_kids_exact_mono(bs, i - 1, bs.len() as int, src, be);
        assert(box_wf(bs[i - 1], src, be, strict, entry));
        lemma_node_map_identity(ns[i - 1], bs[i - 1], src, be, strict, entry);
        assert(bs[i - 1].hdr.start == run_end(bs, i - 1, lo, be));
        assert(lo + kids_size(ns, i - 1) == bs[i - 1].hdr.start);
        let a = kids_map(ns, i - 1, lo);
        let c = node_map(ns[i - 1], lo + kids_size(ns, i - 1));
        assert forall|t: int| 0 <= t < kids_map(ns, i, lo).len() implies (#[trigger] kids_map(ns, i, lo)[t]).new_offset
            == kids_map(ns, i, lo)[t].old_offset by {
            if t < a.len() {
                assert(kids_map(ns, i, lo)[t] == a[t]);
            } else {
                assert(kids_map(ns, i, lo)[t] == c[t - a.len()]);
            }
        }
    }
}

/// Laid out unedited, an exactly reproduced file keeps every extent in
/// place, so no chunk offset needs fixing.
pub proof fn lemma_unedited_layout(src: Seq<u8>, boxes: Seq<BoxRef>, t: EditTree, strict: bool)
    requires
        src.len() <= usize::MAX,
        chain(boxes, 0, src.len() as int, false),
        forall|i: int| 0 <= i < boxes.len() ==> #[trigger] box_wf(boxes[i], src, src.len() as int, strict, false),
        kids_exact(boxes, boxes.len() as int, src, src.len() as int),
        tree_built(t, boxes, src),
    ensures
        roots_size(t) <= src.len(),
        map_identity(kids_map(t.roots@, t.roots@.len() as int, 0)),
{
    reveal(chain);
    let len = src.len() as int;
    lemma_kids_roundtrip(t.roots@, boxes, boxes.len() as int, src, len, 0, strict, false);
    lemma_kids_map_identity(t.roots@, boxes, boxes.len() as int, src, len, 0, strict, false);
}

/// A box reproduced exactly can be turned into an edit node.
pub proof fn lemma_exact_buildable(b: BoxRef, src: Seq<u8>, parent_end: int, strict: bool, entry: bool)
    requires
        box_wf(b, src, parent_end, strict, entry),
        box_exact(b, src, parent_end),
    ensures
        node_buildable(b, parent_end),
    decreases b, 0int,
{
    lemma_wf_geom(b, src, parent_end, strict, entry);
    reveal(chain);
    let be = box_end_spec(b.hdr, parent_end);
    match b.kind {
        NodeKind::Container(kids) => {
            assert(kids@ == node_children(b));
            lemma_kids_exact_buildable(kids@, kids@.len() as int, src, be, child_strict(b, strict, entry), child_entry(b));
        },
        NodeKind::FullContainer { children, .. } => {
            assert(children@ == node_children(b));
            lemma_kids_exact_buildable(
                children@,
                children@.len() as int,
                src,
                be,
                child_strict(b, strict, entry),
                child_entry(b),
            );
        },
        _ => {},
    }
}

/// Boxes reproduced exactly can be turned into edit nodes.
pub proof fn lemma_kids_exact_buildable(bs: Seq<BoxRef>, i: int, src: Seq<u8>, be: int, strict: bool, entry: bool)
    requires
        0 <= i <= bs.len(),
        forall|j: int| 0 <= j < bs.len() ==> #[trigger] box_wf(bs[j], src, be, strict, entry),
        kids_exact(bs, i, src, be),
    ensures
        kids_buildable(bs, i, be),
    decreases bs, i,
{
    if i > 0 {
        lemma_kids_exact_buildable(bs, i - 1, src, be, strict, entry);
        assert(box_wf(bs[i - 1], src, be, strict, entry));
        lemma_exact_buildable(bs[i - 1], src, be, strict, entry);
    }
}

pub proof fn lemma_kids_built_index(ns: Seq<EditNode>, bs: Seq<BoxRef>, i: int, j: int, src: Seq<u8>, be: int)
    requires
        0 <= i < j <= bs.len(),
        kids_built(ns, bs, j, src, be),
    ensures
        node_built(ns[i], bs[i], src, be),
    decreases j - i,
{
    if i + 1 < j {
        lemma_kids_built_index(ns, bs, i, j - 1, src, be);
    }
}

} // verus!
