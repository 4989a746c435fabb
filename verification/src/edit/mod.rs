//! Non-destructive box editing.
//!
//! Editing works on a tree where unmodified boxes are references into the
//! source buffer, so serialization copies untouched bytes verbatim and
//! re-serializing an unedited tree reproduces the source byte for byte. Box
//! sizes are recomputed bottom-up during layout, so every ancestor of an
//! edited box is correct by construction.

pub mod tree;
pub mod fixup;
pub mod fields;
pub mod tags;
pub mod path;

use vstd::prelude::*;
use vstd::string::StringSliceAdditionalSpecFns;
use crate::boxes::{BoxRef, FourCC};
use crate::util::{push_decimal, push_str, spec_decimal};
use crate::parser::{box_wf, chain, kids_err, parse_boxes, ParseError};
use self::tree::{
    build_tree, checked_roots_size, kids_buildable, lemma_kids_exact_buildable, kids_exact, kids_extents_ok, kids_map, layout, lemma_unedited_layout,
    lemma_unedited_roundtrip, map_identity, raw_error, raw_node, roots_size, tree_built, tree_bytes, tree_fits,
    tree_sizes_fit,
    write_tree, EditNode,
    EditTree, ExtentMapping, Payload,
};
use self::fixup::{fix_chunk_offsets, kids_counts, kids_fixable, map_fits, tree_fixed};
use self::path::{
    apply_at, at_path, lemma_path_error_same, parse_path, path_error, segs_view, spec_parse_path, PathOp,
};
use self::tags::{
    find_child, find_first, node_kids, put_kids, same_shell, set_tag_in_moov, spec_tag_atom, spec_tag_fourcc,
    spec_text_fourcc, tag_fourcc, tag_path_ok, tag_set, take_kids, text_fourcc,
};

verus! {

/// A file kind whose internal offsets the fixup pass does not cover.
#[derive(Debug, Clone, Copy, PartialEq, Eq, Structural)]
pub enum Unsupported {
    /// Fragmented MP4 (`moof`).
    Fragmented,
    /// Indexed segments (`sidx`).
    Indexed,
    /// HEIF item locations (`iloc`).
    ItemLocations,
}

/// Why an edit could not be carried out.
#[derive(Debug, Clone, PartialEq, Eq)]
pub enum EditError {
    /// A raw box is shorter than a box header.
    RawTooShort,
    /// A raw box with a 64-bit size is shorter than 16 bytes.
    RawLargeTooShort,
    /// A raw box declares a size other than its length.
    RawSizeMismatch { declared: u64, actual: u64 },
    /// A raw `uuid` box is too short for its extended type.
    RawUuidTooShort,
    /// A source extent lies outside the source buffer.
    ExtentOutOfRange,
    /// A container's children start before its own payload does.
    BadLayout,
    /// More chunk-offset entries than a counter can hold.
    TooManyEntries,
    /// A field does not fit in the box's payload.
    FieldDoesNotFit,
    /// A field value is not valid for its kind.
    BadValue,
    /// A tag is neither a known name nor a four-character code.
    UnknownTag,
    /// A box that must hold children does not.
    NotContainer,
    /// An empty box path.
    EmptyPath,
    /// A path segment that is not a fourcc with an optional `[index]`.
    BadSegment,
    /// No box at a path.
    NotFound,
    /// A box on a path has no children.
    NoChildren,
    /// A field was to be set on a container.
    ContainerField,
    /// A field was to be set on a box with an empty payload.
    EmptyPayload,
    /// No such field in the box (at its version).
    UnknownField { field: String, box_type: FourCC, version: u8 },
    /// The source could not be parsed.
    Parse(ParseError),
    /// A tag was to be set in a file without `moov`.
    NoMoov,
    /// The file holds offsets that editing would corrupt.
    Unsupported(Unsupported),
    /// A size does not fit in 64 bits.
    TooLarge,
}

impl Unsupported {
    /// The kind of file, as named in messages.
    pub open spec fn spec_name(self) -> &'static str {
        match self {
            Unsupported::Fragmented => "fragmented MP4 (moof)",
            Unsupported::Indexed => "indexed segments (sidx)",
            Unsupported::ItemLocations => "HEIF item locations (iloc)",
        }
    }

    /// The kind of file, as named in messages.
    pub fn name(&self) -> (r: &'static str)
        ensures
            r == self.spec_name(),
    {
        match self {
            Unsupported::Fragmented => "fragmented MP4 (moof)",
            Unsupported::Indexed => "indexed segments (sidx)",
            Unsupported::ItemLocations => "HEIF item locations (iloc)",
        }
    }
}

impl EditError {
    /// Human-readable description of the error.
    pub open spec fn spec_message(self) -> Seq<char> {
        match self {
            EditError::RawTooShort => "raw box shorter than a box header"@,
            EditError::RawLargeTooShort => "largesize box shorter than 16 bytes"@,
            EditError::RawUuidTooShort => "uuid box too short"@,
            EditError::ExtentOutOfRange => "a source extent lies outside the source"@,
            EditError::BadLayout => "a container's children start before its payload"@,
            EditError::TooManyEntries => "too many chunk-offset entries to count"@,
            EditError::FieldDoesNotFit => "the field does not fit in the box's payload"@,
            EditError::BadValue => "the value is not valid for the field"@,
            EditError::UnknownTag => "tag is not a known name or 4-character code"@,
            EditError::NotContainer => "the box is not a container"@,
            EditError::EmptyPath => "empty box path"@,
            EditError::BadSegment => "bad box path segment"@,
            EditError::NotFound => "box not found"@,
            EditError::NoChildren => "a box on the path has no children"@,
            EditError::ContainerField => "the box is a container; fields can be set on leaf boxes only"@,
            EditError::EmptyPayload => "the box has an empty payload"@,
            EditError::NoMoov => "no moov box: cannot set tags"@,
            EditError::TooLarge => "a size does not fit in 64 bits"@,
            EditError::RawSizeMismatch { declared, actual } => "raw box declares size "@ + spec_decimal(
                declared as nat,
            ) + " but "@ + spec_decimal(actual as nat) + " bytes were provided"@,
            EditError::UnknownField { field, box_type, version } => "no known field '"@ + field@ + "' in '"@
                + box_type.spec_lossy() + "' (version "@ + spec_decimal(version as nat) + ")"@,
            EditError::Parse(e) => e.spec_message()@,
            EditError::Unsupported(k) => "editing is not supported for "@ + k.spec_name()@
                + " yet: byte offsets inside these structures are not fixed up, and editing would corrupt the file"@,
        }
    }

    /// Human-readable description of the error.
    pub fn message(&self) -> (r: String)
        ensures
            r@ == self.spec_message(),
    {
        let mut s = String::new();
        match self {
            EditError::RawTooShort => push_str(&mut s, "raw box shorter than a box header"),
            EditError::RawLargeTooShort => push_str(&mut s, "largesize box shorter than 16 bytes"),
            EditError::RawUuidTooShort => push_str(&mut s, "uuid box too short"),
            EditError::ExtentOutOfRange => push_str(&mut s, "a source extent lies outside the source"),
            EditError::BadLayout => push_str(&mut s, "a container's children start before its payload"),
            EditError::TooManyEntries => push_str(&mut s, "too many chunk-offset entries to count"),
            EditError::FieldDoesNotFit => push_str(&mut s, "the field does not fit in the box's payload"),
            EditError::BadValue => push_str(&mut s, "the value is not valid for the field"),
            EditError::UnknownTag => push_str(&mut s, "tag is not a known name or 4-character code"),
            EditError::NotContainer => push_str(&mut s, "the box is not a container"),
            EditError::EmptyPath => push_str(&mut s, "empty box path"),
            EditError::BadSegment => push_str(&mut s, "bad box path segment"),
            EditError::NotFound => push_str(&mut s, "box not found"),
            EditError::NoChildren => push_str(&mut s, "a box on the path has no children"),
            EditError::ContainerField => push_str(&mut s, "the box is a container; fields can be set on leaf boxes only"),
            EditError::EmptyPayload => push_str(&mut s, "the box has an empty payload"),
            EditError::NoMoov => push_str(&mut s, "no moov box: cannot set tags"),
            EditError::TooLarge => push_str(&mut s, "a size does not fit in 64 bits"),
            EditError::RawSizeMismatch { declared, actual } => {
                push_str(&mut s, "raw box declares size ");
                push_decimal(&mut s, *declared);
                push_str(&mut s, " but ");
                push_decimal(&mut s, *actual);
                push_str(&mut s, " bytes were provided");
            },
            EditError::UnknownField { field, box_type, version } => {
                push_str(&mut s, "no known field '");
                push_str(&mut s, field.as_str());
                push_str(&mut s, "' in '");
                let t = box_type.as_str_lossy();
                push_str(&mut s, t.as_str());
                push_str(&mut s, "' (version ");
                push_decimal(&mut s, *version as u64);
                push_str(&mut s, ")");
            },
            EditError::Parse(e) => push_str(&mut s, e.message()),
            EditError::Unsupported(k) => {
                push_str(&mut s, "editing is not supported for ");
                push_str(&mut s, k.name());
                push_str(
                    &mut s,
                    " yet: byte offsets inside these structures are not fixed up, and editing would corrupt the file",
                );
            },
        }
        assert(s@ =~= self.spec_message());
        s
    }
}

// ---------- removing every box of a type ----------

/// No box of type `cc` at any depth of the node.
pub open spec fn node_clean(n: EditNode, cc: Seq<u8>) -> bool
    decreases n, 1int,
{
    &&& n.typ.0@ != cc
    &&& match n.payload {
        Payload::Container { children, .. } => kids_clean(children@, children@.len() as int, cc),
        _ => true,
    }
}

/// No box of type `cc` at any depth of the first `i` nodes.
pub open spec fn kids_clean(s: Seq<EditNode>, i: int, cc: Seq<u8>) -> bool
    decreases s, i,
    when 0 <= i <= s.len()
{
    if i <= 0 {
        true
    } else {
        kids_clean(s, i - 1, cc) && node_clean(s[i - 1], cc)
    }
}

pub proof fn lemma_kids_clean_ext(a: Seq<EditNode>, b: Seq<EditNode>, i: int, cc: Seq<u8>)
    requires
        0 <= i <= a.len(),
        i <= b.len(),
        forall|j: int| 0 <= j < i ==> a[j] == b[j],
        kids_clean(a, i, cc),
    ensures
        kids_clean(b, i, cc),
    decreases i,
{
    if i > 0 {
        lemma_kids_clean_ext(a, b, i - 1, cc);
    }
}

/// `n` is `o` (not itself of type `cc`) with every box of type `cc`
/// removed from its children, at any depth; everything else is kept.
pub open spec fn node_removed(o: EditNode, n: EditNode, cc: Seq<u8>) -> bool
    decreases o, 1int,
{
    &&& o.typ.0@ != cc
    &&& match o.payload {
        Payload::Container { children, .. } => same_shell(o, n) && match n.payload {
            Payload::Container { children: k, .. } => kids_removed(children@, children@.len() as int, k@, cc),
            _ => false,
        },
        _ => n == o,
    }
}

/// `ns` is the first `i` nodes of `os` with those of type `cc` dropped, in
/// order, and the others filtered by `node_removed`.
pub open spec fn kids_removed(os: Seq<EditNode>, i: int, ns: Seq<EditNode>, cc: Seq<u8>) -> bool
    decreases os, i,
    when 0 <= i <= os.len()
{
    if i <= 0 {
        ns.len() == 0
    } else if os[i - 1].typ.0@ == cc {
        kids_removed(os, i - 1, ns, cc)
    } else {
        &&& ns.len() > 0
        &&& kids_removed(os, i - 1, ns.drop_last(), cc)
        &&& node_removed(os[i - 1], ns.last(), cc)
    }
}

/// Deletes every box of type `cc` anywhere among `nodes`, keeping the
/// order and the contents of all other boxes: afterwards none is left at
/// any depth.
#[verifier::loop_isolation(false)]
pub fn remove_all(nodes: &mut Vec<EditNode>, cc: &FourCC)
    ensures
        kids_removed(old(nodes)@, old(nodes)@.len() as int, final(nodes)@, cc.0@),
        kids_clean(final(nodes)@, final(nodes)@.len() as int, cc.0@),
    decreases old(nodes)@,
{
    let ghost old_nodes = nodes@;
    let mut rest: Vec<EditNode> = Vec::new();
    std::mem::swap(&mut rest, nodes);
    let mut out: Vec<EditNode> = Vec::new();
    let n = rest.len();
    let mut i: usize = 0;
    while rest.len() > 0
        invariant
            n == old_nodes.len(),
            rest@.len() + i == n,
            forall|j: int| 0 <= j < rest@.len() ==> rest@[j] == old_nodes[i + j],
            kids_clean(out@, out@.len() as int, cc.0@),
            kids_removed(old_nodes, i as int, out@, cc.0@),
        decreases rest@.len(),
    {
        let mut node = rest.remove(0);
        assert(node == old_nodes[i as int]);
        i = i + 1;
        if node.typ.same(cc) {
            continue;
        }
        let ghost n0 = node;
        match take_kids(&mut node) {
            Some(mut k) => {
                proof {
                    assert(node_kids(n0) == Some(k@));
                    assert(n0.payload matches Payload::Container { children, .. } && children@ == k@);
                    assert(decreases_to!(old_nodes => old_nodes[i - 1]));
                    assert(decreases_to!(old_nodes => k@));
                }
                remove_all(&mut k, cc);
                put_kids(&mut node, k);
            },
            None => {},
        }
        proof {
            let ghost nn = node;
            assert(nn.typ.0@ != cc.0@);
            match nn.payload {
                Payload::Container { children, .. } => {
                    assert(node_kids(nn) == Some(children@));
                },
                _ => {},
            }
            assert(node_clean(nn, cc.0@));
            assert(node_removed(n0, nn, cc.0@));
        }
        let ghost before = out@;
        out.push(node);
        proof {
            assert(out@.drop_last() =~= before);
            assert(kids_removed(old_nodes, i as int, out@, cc.0@));
            assert forall|j: int| 0 <= j < before.len() implies before[j] == out@[j] by {}
            lemma_kids_clean_ext(before, out@, before.len() as int, cc.0@);
        }
    }
    *nodes = out;
}

// ---------- refusing unsupported files ----------

/// The first unsupported box kind in a depth-first walk of the node.
pub open spec fn node_unsupported(n: EditNode) -> Option<Unsupported>
    decreases n, 1int,
{
    if n.typ.0@ == seq![109u8, 111u8, 111u8, 102u8] {
        Some(Unsupported::Fragmented)
    } else if n.typ.0@ == seq![115u8, 105u8, 100u8, 120u8] {
        Some(Unsupported::Indexed)
    } else if n.typ.0@ == seq![105u8, 108u8, 111u8, 99u8] {
        Some(Unsupported::ItemLocations)
    } else {
        match n.payload {
            Payload::Container { children, .. } => kids_unsupported(children@, 0),
            _ => None,
        }
    }
}

/// The first unsupported box kind among the nodes from `i` on.
pub open spec fn kids_unsupported(s: Seq<EditNode>, i: int) -> Option<Unsupported>
    decreases s, s.len() - i,
    when 0 <= i <= s.len()
{
    if i >= s.len() {
        None
    } else {
        match node_unsupported(s[i]) {
            Some(k) => Some(k),
            None => kids_unsupported(s, i + 1),
        }
    }
}

fn scan_node(n: &EditNode) -> (r: Option<Unsupported>)
    ensures
        r == node_unsupported(*n),
    decreases *n, 1int,
{
    proof {
        assert([109u8, 111u8, 111u8, 102u8]@ =~= seq![109u8, 111u8, 111u8, 102u8]);
        assert([115u8, 105u8, 100u8, 120u8]@ =~= seq![115u8, 105u8, 100u8, 120u8]);
        assert([105u8, 108u8, 111u8, 99u8]@ =~= seq![105u8, 108u8, 111u8, 99u8]);
    }
    if n.typ.equals([109u8, 111u8, 111u8, 102u8]) {
        return Some(Unsupported::Fragmented);
    }
    if n.typ.equals([115u8, 105u8, 100u8, 120u8]) {
        return Some(Unsupported::Indexed);
    }
    if n.typ.equals([105u8, 108u8, 111u8, 99u8]) {
        return Some(Unsupported::ItemLocations);
    }
    match &n.payload {
        Payload::Container { children, .. } => scan_kids(children, 0),
        _ => None,
    }
}

fn scan_kids(s: &Vec<EditNode>, i: usize) -> (r: Option<Unsupported>)
    requires
        i <= s@.len(),
    ensures
        r == kids_unsupported(s@, i as int),
    decreases s@, s@.len() - i,
{
    if i >= s.len() {
        return None;
    }
    match scan_node(&s[i]) {
        Some(k) => Some(k),
        None => scan_kids(s, i + 1),
    }
}

/// Refuses file kinds whose internal offsets the fixup pass does not
/// cover: the first `moof`, `sidx` or `iloc` found anywhere.
pub fn guard_unsupported(tree: &EditTree) -> (r: Result<(), EditError>)
    ensures
        match kids_unsupported(tree.roots@, 0) {
            Some(k) => r == Err::<(), EditError>(EditError::Unsupported(k)),
            None => r is Ok,
        },
{
    match scan_kids(&tree.roots, 0) {
        Some(k) => Err(EditError::Unsupported(k)),
        None => Ok(()),
    }
}

// ---------- commands ----------

/// A single edit. Paths are slash-delimited fourcc segments with optional
/// indices for repeated boxes: `"moov/trak[1]/mdia/mdhd"`; an omitted index
/// means the first match.
#[derive(Debug)]
pub enum Command {
    /// Delete the box at `path`.
    Remove { path: String },
    /// Delete every box with this fourcc, anywhere in the tree.
    RemoveAll { fourcc: String },
    /// Insert a complete raw box (header and payload) as a child of
    /// `parent`: before the child at `position`, or at the end.
    Insert { parent: String, bytes: Vec<u8>, position: Option<usize> },
    /// Replace the box at `path` with a complete raw box.
    Replace { path: String, bytes: Vec<u8> },
    /// Set a named field of a known box (`mvhd`, `tkhd`, `mdhd`) in place;
    /// all other bytes of the box are kept.
    SetField { path: String, field: String, value: String },
    /// Set an iTunes metadata tag, creating `moov/udta/meta/ilst` as needed.
    /// `tag` is a friendly name (`"title"`, `"artist"`, ...) or a raw fourcc.
    SetTag { tag: String, value: String },
    /// Move the top-level `moov` in front of the first top-level `mdat`, for
    /// progressive playback; nothing moves when it is already in front.
    Faststart,
}

/// Statistics of a completed edit.
#[derive(Debug, Clone, Copy, PartialEq, Eq, Structural)]
pub struct EditStats {
    pub bytes_written: u64,
    pub chunk_offsets_adjusted: usize,
    /// Chunk offsets pointing at data that no longer exists (left
    /// unchanged).
    pub chunk_offsets_unmapped: usize,
}

impl Default for EditStats {
    fn default() -> (r: EditStats)
        ensures
            r.bytes_written == 0 && r.chunk_offsets_adjusted == 0 && r.chunk_offsets_unmapped == 0,
    {
        EditStats { bytes_written: 0, chunk_offsets_adjusted: 0, chunk_offsets_unmapped: 0 }
    }
}

/// The fourcc `moov`.
pub open spec fn moov_cc() -> Seq<u8> {
    seq![109u8, 111u8, 111u8, 118u8]
}

pub open spec fn mdat_cc() -> Seq<u8> {
    seq![109u8, 100u8, 97u8, 116u8]
}

/// The top-level boxes with the first `moov` moved in front of the first
/// `mdat` when it comes after it.
pub open spec fn faststart_roots(roots: Seq<EditNode>) -> Seq<EditNode> {
    match (find_first(roots, moov_cc(), 0), find_first(roots, mdat_cc(), 0)) {
        (Some(m), Some(d)) => if d < m {
            roots.subrange(0, d) + seq![roots[m]] + roots.subrange(d, m) + roots.subrange(m + 1, roots.len() as int)
        } else {
            roots
        },
        _ => roots,
    }
}

/// Why an edit at a path fails, if it does.
#[verifier::opaque]
pub open spec fn path_cmd_error(roots: Seq<EditNode>, path: Seq<char>, op: PathOp, src: Seq<u8>) -> Option<EditError> {
    match spec_parse_path(vstd::utf8::encode_utf8(path)) {
        Err(e) => Some(e),
        Ok(segs) => path_error(roots, segs, 0, op, src),
    }
}

/// `new` is `roots` with the edit made at the path.
#[verifier::opaque]
pub open spec fn path_cmd_done(roots: Seq<EditNode>, new: Seq<EditNode>, path: Seq<char>, op: PathOp, src: Seq<u8>) -> bool {
    at_path(roots, new, spec_parse_path(vstd::utf8::encode_utf8(path)).unwrap(), 0, op, src)
}

/// Why setting a tag fails, if it does.
#[verifier::opaque]
pub open spec fn tag_cmd_error(roots: Seq<EditNode>, tag: Seq<char>, value: Seq<char>) -> Option<EditError> {
    match spec_tag_fourcc(vstd::utf8::encode_utf8(tag)) {
        None => Some(EditError::UnknownTag),
        Some(cc) => match find_first(roots, moov_cc(), 0) {
            None => Some(EditError::NoMoov),
            Some(i) => if vstd::utf8::encode_utf8(value).len() + 24 > u64::MAX {
                Some(EditError::TooLarge)
            } else if !tag_path_ok(roots[i]) {
                Some(EditError::NotContainer)
            } else {
                raw_error(spec_tag_atom(cc, vstd::utf8::encode_utf8(value)))
            },
        },
    }
}

/// `new` is `roots` with the tag set in the first `moov`.
#[verifier::opaque]
pub open spec fn tag_cmd_done(roots: Seq<EditNode>, new: Seq<EditNode>, tag: Seq<char>, value: Seq<char>) -> bool {
    let i = find_first(roots, moov_cc(), 0).unwrap();
    &&& new.len() == roots.len()
    &&& forall|j: int| 0 <= j < roots.len() && j != i ==> new[j] == roots[j]
    &&& tag_set(
        roots[i],
        new[i],
        spec_tag_fourcc(vstd::utf8::encode_utf8(tag)).unwrap(),
        vstd::utf8::encode_utf8(value),
    )
}

/// Why a command fails on `tree`, if it does.
pub open spec fn command_error(tree: EditTree, cmd: Command, src: Seq<u8>) -> Option<EditError> {
    let roots = tree.roots@;
    match cmd {
        Command::Remove { path } => path_cmd_error(roots, path@, PathOp::Remove, src),
        Command::RemoveAll { fourcc } => if spec_text_fourcc(vstd::utf8::encode_utf8(fourcc@)) is None {
            Some(EditError::BadSegment)
        } else {
            None
        },
        Command::Insert { parent, bytes, position } => if raw_error(bytes@) is Some {
            raw_error(bytes@)
        } else {
            path_cmd_error(roots, parent@, PathOp::Insert(arbitrary(), position), src)
        },
        Command::Replace { path, bytes } => if raw_error(bytes@) is Some {
            raw_error(bytes@)
        } else {
            path_cmd_error(roots, path@, PathOp::Replace(arbitrary()), src)
        },
        Command::SetField { path, field, value } => path_cmd_error(
            roots,
            path@,
            PathOp::SetField(field, value),
            src,
        ),
        Command::SetTag { tag, value } => tag_cmd_error(roots, tag@, value@),
        Command::Faststart => if find_first(roots, moov_cc(), 0) is None {
            Some(EditError::NoMoov)
        } else {
            None
        },
    }
}

/// `new` is `old` after the command.
pub open spec fn command_done(old: EditTree, new: EditTree, cmd: Command, src: Seq<u8>) -> bool {
    let roots = old.roots@;
    &&& new.trailing == old.trailing
    &&& match cmd {
        Command::Remove { path } => path_cmd_done(roots, new.roots@, path@, PathOp::Remove, src),
        Command::RemoveAll { fourcc } => kids_removed(
            roots,
            roots.len() as int,
            new.roots@,
            spec_text_fourcc(vstd::utf8::encode_utf8(fourcc@)).unwrap(),
        ),
        Command::Insert { parent, bytes, position } => exists|n: EditNode|
            #[trigger] raw_node(n, bytes@) && path_cmd_done(
                roots,
                new.roots@,
                parent@,
                PathOp::Insert(n, position),
                src,
            ),
        Command::Replace { path, bytes } => exists|n: EditNode|
            #[trigger] raw_node(n, bytes@) && path_cmd_done(roots, new.roots@, path@, PathOp::Replace(n), src),
        Command::SetField { path, field, value } => path_cmd_done(
            roots,
            new.roots@,
            path@,
            PathOp::SetField(field, value),
            src,
        ),
        Command::SetTag { tag, value } => tag_cmd_done(roots, new.roots@, tag@, value@),
        Command::Faststart => new.roots@ == faststart_roots(roots),
    }
}

fn do_path(src: &[u8], tree: &mut EditTree, path: &String, op: PathOp) -> (r: Result<(), EditError>)
    ensures
        final(tree).trailing == old(tree).trailing,
        match r {
            Ok(()) => path_cmd_error(old(tree).roots@, path@, op, src@) is None && path_cmd_done(
                old(tree).roots@,
                final(tree).roots@,
                path@,
                op,
                src@,
            ),
            Err(e) => path_cmd_error(old(tree).roots@, path@, op, src@) == Some(e),
        },
{
    proof {
        reveal(path_cmd_error);
        reveal(path_cmd_done);
    }
    let segs = parse_path(path.as_str())?;
    proof {
        assert(segs_view(segs@) =~= spec_parse_path(vstd::utf8::encode_utf8(path@)).unwrap());
    }
    apply_at(&mut tree.roots, &segs, 0, op, src)
}

fn do_set_tag(tree: &mut EditTree, tag: &String, value: &String) -> (r: Result<(), EditError>)
    ensures
        final(tree).trailing == old(tree).trailing,
        match r {
            Ok(()) => tag_cmd_error(old(tree).roots@, tag@, value@) is None && tag_cmd_done(
                old(tree).roots@,
                final(tree).roots@,
                tag@,
                value@,
            ),
            Err(e) => tag_cmd_error(old(tree).roots@, tag@, value@) == Some(e),
        },
{
    proof {
        reveal(tag_cmd_error);
        reveal(tag_cmd_done);
    }
    let cc = tag_fourcc(tag.as_str())?;
    let moov_t = [109u8, 111u8, 111u8, 118u8];
    proof {
        assert(moov_t@ =~= moov_cc());
        self::tags::lemma_find_first(tree.roots@, moov_cc(), 0);
    }
    let rlen = tree.roots.len();
    proof {
        assert(rlen == tree.roots@.len());
    }
    let i = match find_child(&tree.roots, moov_t) {
        Some(i) => i,
        None => return Err(EditError::NoMoov),
    };
    let vb = value.as_str().as_bytes();
    if vb.len() as u64 > u64::MAX - 24 {
        return Err(EditError::TooLarge);
    }
    let ghost roots0 = tree.roots@;
    let mut moov = tree.roots.remove(i);
    let res = set_tag_in_moov(&mut moov, &cc, value.as_str());
    tree.roots.insert(i, moov);
    proof {
        assert(tree.roots@ =~= roots0.update(i as int, moov));
    }
    res
}

/// Makes one command's edit on the tree.
#[verifier::rlimit(60)]
pub fn apply_command(src: &[u8], tree: &mut EditTree, cmd: &Command) -> (r: Result<(), EditError>)
    ensures
        match r {
            Ok(()) => command_error(*old(tree), *cmd, src@) is None && command_done(
                *old(tree),
                *final(tree),
                *cmd,
                src@,
            ),
            Err(e) => command_error(*old(tree), *cmd, src@) == Some(e),
        },
{
    match cmd {
        Command::Remove { path } => do_path(src, tree, path, PathOp::Remove),
        Command::RemoveAll { fourcc } => {
            let cc = match text_fourcc(fourcc.as_str().as_bytes()) {
                Some(a) => a,
                None => return Err(EditError::BadSegment),
            };
            remove_all(&mut tree.roots, &FourCC(cc));
            Ok(())
        },
        Command::Insert { parent, bytes, position } => {
            let node = EditNode::from_raw(bytes.as_slice())?;
            let ghost nn = node;
            let res = do_path(src, tree, parent, PathOp::Insert(node, *position));
            proof {
                assert(path_cmd_error(old(tree).roots@, parent@, PathOp::Insert(nn, *position), src@)
                    == path_cmd_error(old(tree).roots@, parent@, PathOp::Insert(arbitrary(), *position), src@)) by {
                    reveal(path_cmd_error);
                    match spec_parse_path(vstd::utf8::encode_utf8(parent@)) {
                        Ok(segs) => lemma_path_error_same(old(tree).roots@, segs, 0, PathOp::Insert(nn, *position), PathOp::Insert(arbitrary(), *position), src@),
                        Err(_) => {},
                    }
                }
                if res is Ok {
                    assert(raw_node(nn, bytes@));
                }
            }
            res
        },
        Command::Replace { path, bytes } => {
            let node = EditNode::from_raw(bytes.as_slice())?;
            let ghost nn = node;
            let res = do_path(src, tree, path, PathOp::Replace(node));
            proof {
                assert(path_cmd_error(old(tree).roots@, path@, PathOp::Replace(nn), src@)
                    == path_cmd_error(old(tree).roots@, path@, PathOp::Replace(arbitrary()), src@)) by {
                    reveal(path_cmd_error);
                    match spec_parse_path(vstd::utf8::encode_utf8(path@)) {
                        Ok(segs) => lemma_path_error_same(old(tree).roots@, segs, 0, PathOp::Replace(nn), PathOp::Replace(arbitrary()), src@),
                        Err(_) => {},
                    }
                }
                if res is Ok {
                    assert(raw_node(nn, bytes@));
                }
            }
            res
        },
        Command::SetField { path, field, value } => do_path(
            src,
            tree,
            path,
            PathOp::SetField(field.clone(), value.clone()),
        ),
        Command::SetTag { tag, value } => do_set_tag(tree, tag, value),
        Command::Faststart => do_faststart(tree),
    }
}

/// Moves the first top-level `moov` in front of the first top-level `mdat`.
fn do_faststart(tree: &mut EditTree) -> (r: Result<(), EditError>)
    ensures
        match r {
            Ok(()) => command_error(*old(tree), Command::Faststart, arbitrary()) is None && command_done(
                *old(tree),
                *final(tree),
                Command::Faststart,
                arbitrary(),
            ),
            Err(e) => command_error(*old(tree), Command::Faststart, arbitrary()) == Some(e),
        },
{
    let ghost roots = tree.roots@;
    let nroots = tree.roots.len();
    let mc: [u8; 4] = [109u8, 111u8, 111u8, 118u8];
    let dc: [u8; 4] = [109u8, 100u8, 97u8, 116u8];
    proof {
        assert(mc@ =~= moov_cc());
        assert(dc@ =~= mdat_cc());
    }
    let m = match find_child(&tree.roots, mc) {
        Some(m) => m,
        None => {
            return Err(EditError::NoMoov);
        },
    };
    let d = match find_child(&tree.roots, dc) {
        Some(d) => d,
        None => {
            return Ok(());
        },
    };
    proof {
        self::tags::lemma_find_first(roots, moov_cc(), 0);
        self::tags::lemma_find_first(roots, mdat_cc(), 0);
    }
    if d < m {
        let node = tree.roots.remove(m);
        tree.roots.insert(d, node);
        proof {
            assert(tree.roots@ =~= roots.subrange(0, d as int) + seq![roots[m as int]] + roots.subrange(d as int, m as int)
                + roots.subrange(m + 1, roots.len() as int));
        }
    }
    proof {
        assert(find_first(roots, moov_cc(), 0) == Some(m as int));
        assert(find_first(roots, mdat_cc(), 0) == Some(d as int));
        assert(tree.roots@ == faststart_roots(roots));
    }
    Ok(())
}

// ---------- the editor ----------

/// Every strict parse of `src` is reproduced exactly: no box, at any
/// depth, had its size clamped to its parent (see `box_exact`).
pub open spec fn source_exact(src: Seq<u8>) -> bool {
    forall|bs: Seq<BoxRef>|
        #[trigger] chain(bs, 0, src.len() as int, true) && (forall|i: int|
            0 <= i < bs.len() ==> box_wf(bs[i], src, src.len() as int, true, false)) ==> kids_exact(
            bs,
            bs.len() as int,
            src,
            src.len() as int,
        )
}

proof fn lemma_chain_weaken(kids: Seq<BoxRef>, lo: int, hi: int)
    requires
        chain(kids, lo, hi, true),
    ensures
        chain(kids, lo, hi, false),
{
    reveal(chain);
}

fn map_moved(map: &Vec<ExtentMapping>) -> (r: bool)
    ensures
        r == !map_identity(map@),
{
    let mut i: usize = 0;
    while i < map.len()
        invariant
            i <= map@.len(),
            forall|j: int| 0 <= j < i ==> (#[trigger] map@[j]).new_offset == map@[j].old_offset,
        decreases map@.len() - i,
    {
        if map[i].new_offset != map[i].old_offset {
            return true;
        }
        i = i + 1;
    }
    false
}

fn map_fits_check(map: &Vec<ExtentMapping>) -> (r: bool)
    ensures
        r == map_fits(map@),
{
    let mut i: usize = 0;
    while i < map.len()
        invariant
            i <= map@.len(),
            forall|j: int| 0 <= j < i ==> (#[trigger] map@[j]).new_offset + map@[j].len <= u64::MAX,
        decreases map@.len() - i,
    {
        if map[i].new_offset > u64::MAX - map[i].len {
            return false;
        }
        i = i + 1;
    }
    true
}

/// Each command took the tree before it to the tree after it, for the
/// first `n` commands.
pub open spec fn steps_ok(ts: Seq<EditTree>, cmds: Seq<Command>, src: Seq<u8>, n: int) -> bool {
    forall|i: int|
        #![trigger cmds[i]]
        0 <= i < n ==> command_error(ts[i], cmds[i], src) is None && command_done(ts[i], ts[i + 1], cmds[i], src)
}

/// One run of the editor on `src`: `refs` is the strict parse of the source,
/// `ts` the trees before and after each command, starting from the tree
/// built from `refs`; `t` is the last tree with its chunk offsets remapped
/// when any data moved, and `out` its bytes.
pub open spec fn edit_trace(
    src: Seq<u8>,
    cmds: Seq<Command>,
    refs: Seq<BoxRef>,
    ts: Seq<EditTree>,
    t: EditTree,
    out: Seq<u8>,
    st: EditStats,
) -> bool {
    let last = ts[cmds.len() as int];
    let map = kids_map(last.roots@, last.roots@.len() as int, 0);
    &&& chain(refs, 0, src.len() as int, true)
    &&& forall|i: int| 0 <= i < refs.len() ==> #[trigger] box_wf(refs[i], src, src.len() as int, true, false)
    &&& ts.len() == cmds.len() + 1
    &&& tree_built(ts[0], refs, src)
    &&& cmds.len() > 0 ==> kids_unsupported(ts[0].roots@, 0) is None
    &&& steps_ok(ts, cmds, src, cmds.len() as int)
    &&& if map_identity(map) {
        &&& t == last
        &&& st.chunk_offsets_adjusted == 0
        &&& st.chunk_offsets_unmapped == 0
    } else {
        &&& tree_fixed(last, t, src, map)
        &&& st.chunk_offsets_adjusted == kids_counts(last.roots@, last.roots@.len() as int, src, map).0
        &&& st.chunk_offsets_unmapped == kids_counts(last.roots@, last.roots@.len() as int, src, map).1
    }
    &&& out == tree_bytes(src, t)
    &&& st.bytes_written == out.len()
}

/// Writing `t` out over `src` fails with `e`: a size that does not fit in
/// 64 bits, or an extent outside the source.
pub open spec fn write_fails(t: EditTree, src: Seq<u8>, e: EditError) -> bool {
    if !tree_fits(t) {
        e == EditError::TooLarge
    } else {
        !kids_extents_ok(t.roots@, t.roots@.len() as int, src.len()) && e == EditError::ExtentOutOfRange
    }
}

/// After every command succeeded on `last`, laying it out, remapping the
/// chunk offsets (giving `t`) and writing fail with `e`. Where the remap
/// itself fails, `e` is the error of the first table that could not be
/// remapped: one outside the source, or one whose entries overflow a
/// counter.
pub open spec fn finish_fails(last: EditTree, t: EditTree, src: Seq<u8>, e: EditError) -> bool {
    let map = kids_map(last.roots@, last.roots@.len() as int, 0);
    let counts = kids_counts(last.roots@, last.roots@.len() as int, src, map);
    if roots_size(last) > u64::MAX {
        e == EditError::TooLarge
    } else if map_identity(map) {
        t == last && write_fails(t, src, e)
    } else if !map_fits(map) {
        e == EditError::TooLarge
    } else if !(kids_fixable(last.roots@, last.roots@.len() as int, src.len()) && counts.0 <= usize::MAX
        && counts.1 <= usize::MAX) {
        e == EditError::ExtentOutOfRange || e == EditError::TooManyEntries
    } else {
        tree_fixed(last, t, src, map) && write_fails(t, src, e)
    }
}

/// One run of the editor on `src` that ends in `e` after the strict parse
/// `refs` succeeded: the tree could not be built from `refs`; or a
/// command list met an unsupported box; or `ts` holds the trees up to the
/// command that failed with `e`; or all commands succeeded and the rest
/// (see `finish_fails`) failed.
pub open spec fn edit_failure(
    src: Seq<u8>,
    cmds: Seq<Command>,
    refs: Seq<BoxRef>,
    ts: Seq<EditTree>,
    t: EditTree,
    e: EditError,
) -> bool {
    &&& chain(refs, 0, src.len() as int, true)
    &&& forall|i: int| 0 <= i < refs.len() ==> #[trigger] box_wf(refs[i], src, src.len() as int, true, false)
    &&& if !kids_buildable(refs, refs.len() as int, src.len() as int) {
        e == EditError::BadLayout
    } else {
        &&& ts.len() > 0
        &&& tree_built(ts[0], refs, src)
        &&& if cmds.len() > 0 && kids_unsupported(ts[0].roots@, 0) is Some {
            e matches EditError::Unsupported(k) && kids_unsupported(ts[0].roots@, 0) == Some(k)
        } else if ts.len() <= cmds.len() {
            &&& steps_ok(ts, cmds, src, ts.len() - 1)
            &&& command_error(ts[ts.len() - 1], cmds[ts.len() - 1], src) == Some(e)
        } else {
            &&& ts.len() == cmds.len() + 1
            &&& steps_ok(ts, cmds, src, cmds.len() as int)
            &&& finish_fails(ts[cmds.len() as int], t, src, e)
        }
    }
}

/// Applies a batch of commands to an MP4 source and produces the edited
/// file.
#[derive(Debug)]
pub struct Editor {
    commands: Vec<Command>,
}

impl Editor {
    /// The commands added so far, in order.
    pub closed spec fn spec_commands(self) -> Seq<Command> {
        self.commands@
    }

    pub fn new() -> (r: Editor)
        ensures
            r.spec_commands().len() == 0,
    {
        Editor { commands: Vec::new() }
    }

    pub fn add_command(&mut self, cmd: Command) -> (r: &mut Editor)
        ensures
            r.spec_commands() == old(self).spec_commands().push(cmd),
            *final(self) == *final(r),
    {
        self.commands.push(cmd);
        self
    }

    /// Adds a [`Command::Remove`].
    pub fn remove(&mut self, path: &str) -> (r: &mut Editor)
        ensures
            r.spec_commands().len() == old(self).spec_commands().len() + 1,
            r.spec_commands().last() matches Command::Remove { path: p } && p@ == path@,
            forall|i: int| 0 <= i < old(self).spec_commands().len() ==> r.spec_commands()[i] == old(self).spec_commands()[i],
            *final(self) == *final(r),
    {
        self.add_command(Command::Remove { path: path.to_owned() })
    }

    /// Adds a [`Command::RemoveAll`].
    pub fn remove_all(&mut self, fourcc: &str) -> (r: &mut Editor)
        ensures
            r.spec_commands().len() == old(self).spec_commands().len() + 1,
            r.spec_commands().last() matches Command::RemoveAll { fourcc: f } && f@ == fourcc@,
            forall|i: int| 0 <= i < old(self).spec_commands().len() ==> r.spec_commands()[i] == old(self).spec_commands()[i],
            *final(self) == *final(r),
    {
        self.add_command(Command::RemoveAll { fourcc: fourcc.to_owned() })
    }

    /// Adds a [`Command::SetField`].
    pub fn set_field(&mut self, path: &str, field: &str, value: &str) -> (r: &mut Editor)
        ensures
            r.spec_commands().len() == old(self).spec_commands().len() + 1,
            r.spec_commands().last() matches Command::SetField { path: p, field: f, value: v } && p@
                == path@ && f@ == field@ && v@ == value@,
            forall|i: int| 0 <= i < old(self).spec_commands().len() ==> r.spec_commands()[i] == old(self).spec_commands()[i],
            *final(self) == *final(r),
    {
        self.add_command(
            Command::SetField { path: path.to_owned(), field: field.to_owned(), value: value.to_owned() },
        )
    }

    /// Adds a [`Command::Faststart`].
    pub fn faststart(&mut self) -> (r: &mut Editor)
        ensures
            r.spec_commands() == old(self).spec_commands().push(Command::Faststart),
            *final(self) == *final(r),
    {
        self.add_command(Command::Faststart)
    }

    /// Adds a [`Command::SetTag`], refusing unknown tag names at once.
    pub fn set_tag(&mut self, tag: &str, value: &str) -> (r: Result<&mut Editor, EditError>)
        ensures
            match r {
                Ok(e) => spec_tag_fourcc(tag.spec_bytes()) is Some && e.spec_commands().len()
                    == old(self).spec_commands().len() + 1 && (e.spec_commands().last() matches Command::SetTag {
                    tag: t,
                    value: v,
                } && t@ == tag@ && v@ == value@) && (forall|i: int|
                    0 <= i < old(self).spec_commands().len() ==> e.spec_commands()[i] == old(
                        self,
                    ).spec_commands()[i]) && *final(self) == *final(e),
                Err(err) => spec_tag_fourcc(tag.spec_bytes()) is None && err == EditError::UnknownTag
                    && *final(self) == *old(self),
            },
    {
        tag_fourcc(tag)?;
        Ok(self.add_command(Command::SetTag { tag: tag.to_owned(), value: value.to_owned() }))
    }

    /// Parses `src`, applies all commands in order, lays the tree out,
    /// remaps chunk offsets when any data moved, and returns the edited
    /// file with statistics. With no commands, a source whose boxes were
    /// not clamped comes back unchanged, and such a source that parses
    /// strictly is always accepted. A source that does not parse
    /// strictly fails with its first parse error; any other failure is one
    /// of the steps above failing (see `edit_failure`).
    pub fn process(&self, src: &[u8]) -> (r: Result<(Vec<u8>, EditStats), EditError>)
        ensures
            match kids_err(src@, 0, src@.len() as int, true) {
                Some(pe) => r == Err::<(Vec<u8>, EditStats), EditError>(EditError::Parse(pe)),
                None => r matches Err(e) ==> exists|refs: Seq<BoxRef>, ts: Seq<EditTree>, t: EditTree|
                    #[trigger] edit_failure(src@, self.spec_commands(), refs, ts, t, e),
            },
            r matches Ok((out, st)) ==> st.bytes_written == out@.len(),
            r matches Ok((out, st)) ==> exists|refs: Seq<BoxRef>, ts: Seq<EditTree>, t: EditTree|
                #[trigger] edit_trace(src@, self.spec_commands(), refs, ts, t, out@, st),
            self.spec_commands().len() == 0 && source_exact(src@) && kids_err(src@, 0, src@.len() as int, true)
                is None ==> r is Ok,
            self.spec_commands().len() == 0 && source_exact(src@) ==> (r matches Ok((out, st))
                ==> out@ == src@ && st.chunk_offsets_adjusted == 0 && st.chunk_offsets_unmapped == 0),
    {
        let len = src.len();
        let boxes = match parse_boxes(src, 0, len) {
            Ok(b) => b,
            Err(e) => return Err(EditError::Parse(e)),
        };
        let ghost cmds = self.spec_commands();
        let ghost dummy: EditTree = arbitrary();
        let mut tree = match build_tree(src, boxes.as_slice()) {
            Ok(t) => t,
            Err(e) => {
                proof {
                    assert(edit_failure(src@, cmds, boxes@, seq![], dummy, e));
                    if self.commands@.len() == 0 && source_exact(src@) {
                        assert(chain(boxes@, 0, src@.len() as int, true));
                        assert(kids_exact(boxes@, boxes@.len() as int, src@, src@.len() as int));
                        lemma_kids_exact_buildable(boxes@, boxes@.len() as int, src@, src@.len() as int, true, false);
                    }
                }
                return Err(e);
            },
        };
        let ghost t0 = tree;
        proof {
            if self.commands@.len() == 0 && source_exact(src@) {
                assert(chain(boxes@, 0, src@.len() as int, true));
                assert(kids_exact(boxes@, boxes@.len() as int, src@, src@.len() as int));
                lemma_chain_weaken(boxes@, 0, src@.len() as int);
                lemma_unedited_roundtrip(src@, boxes@, tree, true);
                lemma_unedited_layout(src@, boxes@, tree, true);
            }
        }
        let ghost mut ts: Seq<EditTree> = seq![tree];
        if self.commands.len() > 0 {
            match guard_unsupported(&tree) {
                Ok(()) => {},
                Err(e) => {
                    proof {
                        assert(edit_failure(src@, cmds, boxes@, ts, dummy, e));
                    }
                    return Err(e);
                },
            }
            let mut i: usize = 0;
            while i < self.commands.len()
                invariant
                    i <= self.commands@.len(),
                    ts.len() == i + 1,
                    ts[0] == t0,
                    ts[i as int] == tree,
                    steps_ok(ts, self.commands@, src@, i as int),
                    cmds == self.commands@,
                    cmds == self.spec_commands(),
                    kids_err(src@, 0, src@.len() as int, true) is None,
                    chain(boxes@, 0, src@.len() as int, true),
                    forall|k: int| 0 <= k < boxes@.len() ==> #[trigger] box_wf(boxes@[k], src@, src@.len() as int, true, false),
                    kids_buildable(boxes@, boxes@.len() as int, src@.len() as int),
                    tree_built(t0, boxes@, src@),
                    kids_unsupported(t0.roots@, 0) is None,
                decreases self.commands@.len() - i,
            {
                let ghost before = tree;
                match apply_command(src, &mut tree, &self.commands[i]) {
                    Ok(()) => {},
                    Err(e) => {
                        proof {
                            assert(ts[ts.len() - 1] == before);
                            assert(edit_failure(src@, cmds, boxes@, ts, dummy, e));
                        }
                        return Err(e);
                    },
                }
                proof {
                    let old_ts = ts;
                    ts = ts.push(tree);
                    assert forall|j: int|
                        #![trigger self.commands@[j]]
                        0 <= j < i + 1 implies command_error(ts[j], self.commands@[j], src@) is None
                            && command_done(ts[j], ts[j + 1], self.commands@[j], src@) by {
                        if j < i {
                            assert(ts[j] == old_ts[j]);
                            assert(ts[j + 1] == old_ts[j + 1]);
                        }
                    }
                }
                i = i + 1;
            }
        }
        let ghost last = tree;
        proof {
            assert(ts[cmds.len() as int] == last);
        }
        if checked_roots_size(&tree).is_none() {
            proof {
                assert(edit_failure(src@, cmds, boxes@, ts, dummy, EditError::TooLarge));
            }
            return Err(EditError::TooLarge);
        }
        let map = layout(&tree);
        let mut stats = EditStats::default();
        if map_moved(&map) {
            if !map_fits_check(&map) {
                proof {
                    assert(edit_failure(src@, cmds, boxes@, ts, dummy, EditError::TooLarge));
                }
                return Err(EditError::TooLarge);
            }
            let fs = match fix_chunk_offsets(src, &mut tree, map.as_slice()) {
                Ok(fs) => fs,
                Err(e) => {
                    proof {
                        assert(edit_failure(src@, cmds, boxes@, ts, dummy, e));
                    }
                    return Err(e);
                },
            };
            stats.chunk_offsets_adjusted = fs.entries_adjusted;
            stats.chunk_offsets_unmapped = fs.entries_unmapped;
        }
        if !tree_sizes_fit(&tree) {
            proof {
                assert(edit_failure(src@, cmds, boxes@, ts, tree, EditError::TooLarge));
            }
            return Err(EditError::TooLarge);
        }
        let out = match write_tree(src, &tree) {
            Ok(o) => o,
            Err(e) => {
                proof {
                    assert(edit_failure(src@, cmds, boxes@, ts, tree, e));
                }
                return Err(e);
            },
        };
        stats.bytes_written = out.len() as u64;
        proof {
            assert(edit_trace(src@, self.spec_commands(), boxes@, ts, tree, out@, stats));
            assert(exists|refs: Seq<BoxRef>, ts: Seq<EditTree>, t: EditTree|
                #[trigger] edit_trace(src@, self.spec_commands(), refs, ts, t, out@, stats));
        }
        let r: Result<(Vec<u8>, EditStats), EditError> = Ok((out, stats));
        assert(r matches Ok((o, s)) && o@ == out@ && s == stats);
        r
    }
}

} // verus!
