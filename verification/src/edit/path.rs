//! Box paths (`"moov/trak[1]/mdia/mdhd"`) and the edits made at the box a
//! path names.

use vstd::prelude::*;
use vstd::string::StringSliceAdditionalSpecFns;
use crate::util::{copy_range, parse_unsigned, spec_parse_unsigned};
use super::tree::{EditNode, Extent, Payload};
use super::tags::{node_kids, put_kids, same_shell, spec_text_fourcc, take_kids, text_fourcc};
use super::fields::{encode_field, field_spec, patch_error, patch_field, spec_field_spec, FieldKind};
use super::EditError;

verus! {

// ---------- parsing ----------

/// Index of the first byte `b` at or after `i`, or the length.
pub open spec fn find_byte(s: Seq<u8>, b: u8, i: int) -> int
    decreases s.len() - i,
    when 0 <= i <= s.len()
{
    if i >= s.len() {
        s.len() as int
    } else if s[i] == b {
        i
    } else {
        find_byte(s, b, i + 1)
    }
}

/// Index of the last byte `b` before `i`, or -1.
pub open spec fn rfind_byte(s: Seq<u8>, b: u8, i: int) -> int
    decreases i,
    when 0 <= i <= s.len()
{
    if i <= 0 {
        -1
    } else if s[i - 1] == b {
        i - 1
    } else {
        rfind_byte(s, b, i - 1)
    }
}

/// One path segment: `"trak[1]"` is (`trak`, 1), `"trak"` is (`trak`, 0).
/// A segment whose last ']' comes before its first '[' is refused.
pub open spec fn spec_parse_segment(seg: Seq<u8>) -> Option<(Seq<u8>, nat)> {
    let open = find_byte(seg, 91, 0);
    if open < seg.len() {
        let close = rfind_byte(seg, 93, seg.len() as int);
        if close < open + 1 {
            None
        } else {
            match (
                spec_parse_unsigned(seg.subrange(open + 1, close), usize::MAX as nat),
                spec_text_fourcc(seg.subrange(0, open)),
            ) {
                (Some(n), Some(cc)) => Some((cc, n)),
                _ => None,
            }
        }
    } else {
        match spec_text_fourcc(seg) {
            Some(cc) => Some((cc, 0)),
            None => None,
        }
    }
}

fn find_byte_exec(s: &[u8], b: u8, from: usize) -> (r: usize)
    requires
        from <= s@.len(),
    ensures
        r == find_byte(s@, b, from as int),
{
    let mut i: usize = from;
    while i < s.len() && s[i] != b
        invariant
            from <= i <= s@.len(),
            find_byte(s@, b, from as int) == find_byte(s@, b, i as int),
        decreases s@.len() - i,
    {
        i = i + 1;
    }
    i
}

fn rfind_byte_exec(s: &[u8], b: u8) -> (r: Option<usize>)
    ensures
        match r {
            Some(i) => i == rfind_byte(s@, b, s@.len() as int),
            None => rfind_byte(s@, b, s@.len() as int) == -1,
        },
{
    let mut i: usize = s.len();
    while i > 0 && s[i - 1] != b
        invariant
            i <= s@.len(),
            rfind_byte(s@, b, s@.len() as int) == rfind_byte(s@, b, i as int),
        decreases i,
    {
        i = i - 1;
    }
    if i == 0 {
        None
    } else {
        Some(i - 1)
    }
}

fn parse_segment(seg: &[u8]) -> (r: Result<([u8; 4], usize), EditError>)
    ensures
        match spec_parse_segment(seg@) {
            Some((cc, n)) => r matches Ok((a, m)) && a@ == cc && m == n,
            None => r == Err::<([u8; 4], usize), EditError>(EditError::BadSegment),
        },
{
    let open = find_byte_exec(seg, 91, 0);
    if open < seg.len() {
        let close = match rfind_byte_exec(seg, 93) {
            Some(c) => c,
            None => return Err(EditError::BadSegment),
        };
        if close < open + 1 {
            return Err(EditError::BadSegment);
        }
        proof {
            lemma_rfind_byte_bound(seg@, 93, seg@.len() as int);
        }
        let idx_bytes = copy_range(seg, open + 1, close);
        let idx = match parse_unsigned(idx_bytes.as_slice(), usize::MAX as u64) {
            Some(v) => v as usize,
            None => return Err(EditError::BadSegment),
        };
        let name = copy_range(seg, 0, open);
        match text_fourcc(name.as_slice()) {
            Some(a) => Ok((a, idx)),
            None => Err(EditError::BadSegment),
        }
    } else {
        match text_fourcc(seg) {
            Some(a) => Ok((a, 0)),
            None => Err(EditError::BadSegment),
        }
    }
}

/// The segments of a path from byte `i` on, split at '/'.
pub open spec fn path_from(s: Seq<u8>, i: int) -> Option<Seq<(Seq<u8>, nat)>>
    decreases s.len() - i,
    when 0 <= i <= s.len()
{
    let j = find_byte(s, 47, i);
    proof {
        lemma_find_byte_bound(s, 47, i);
    }
    match spec_parse_segment(s.subrange(i, j)) {
        None => None,
        Some(x) => if j >= s.len() {
            Some(seq![x])
        } else {
            match path_from(s, j + 1) {
                Some(r) => Some(seq![x] + r),
                None => None,
            }
        },
    }
}

/// The segments of a path, or why it is refused.
pub open spec fn spec_parse_path(s: Seq<u8>) -> Result<Seq<(Seq<u8>, nat)>, EditError> {
    if s.len() == 0 {
        Err(EditError::EmptyPath)
    } else {
        match path_from(s, 0) {
            Some(r) => Ok(r),
            None => Err(EditError::BadSegment),
        }
    }
}

pub proof fn lemma_rfind_byte_bound(s: Seq<u8>, b: u8, i: int)
    requires
        0 <= i <= s.len(),
    ensures
        -1 <= rfind_byte(s, b, i) < i,
    decreases i,
{
    if i > 0 {
        lemma_rfind_byte_bound(s, b, i - 1);
    }
}

pub proof fn lemma_find_byte_bound(s: Seq<u8>, b: u8, i: int)
    requires
        0 <= i <= s.len(),
    ensures
        i <= find_byte(s, b, i) <= s.len(),
        find_byte(s, b, i) < s.len() ==> s[find_byte(s, b, i)] == b,
    decreases s.len() - i,
{
    if i < s.len() {
        lemma_find_byte_bound(s, b, i + 1);
    }
}

fn path_from_exec(s: &[u8], i: usize) -> (r: Result<Vec<([u8; 4], usize)>, EditError>)
    requires
        i <= s@.len(),
    ensures
        match path_from(s@, i as int) {
            Some(segs) => r matches Ok(v) && v@.len() == segs.len() && forall|k: int|
                0 <= k < segs.len() ==> (#[trigger] v@[k]).0@ == segs[k].0 && v@[k].1 == segs[k].1,
            None => r == Err::<Vec<([u8; 4], usize)>, EditError>(EditError::BadSegment),
        },
    decreases s@.len() - i,
{
    let j = find_byte_exec(s, 47, i);
    proof {
        lemma_find_byte_bound(s@, 47, i as int);
    }
    let seg = copy_range(s, i, j);
    let x = parse_segment(seg.as_slice())?;
    if j >= s.len() {
        let mut v: Vec<([u8; 4], usize)> = Vec::new();
        v.push(x);
        Ok(v)
    } else {
        let tail = path_from_exec(s, j + 1)?;
        let ghost segs = path_from(s@, i as int).unwrap();
        let ghost tsegs = path_from(s@, j + 1).unwrap();
        proof {
            assert(segs == seq![spec_parse_segment(seg@).unwrap()] + tsegs);
        }
        let mut v: Vec<([u8; 4], usize)> = Vec::new();
        v.push(x);
        let mut t: usize = 0;
        while t < tail.len()
            invariant
                t <= tail@.len(),
                v@.len() == 1 + t,
                v@[0] == x,
                forall|q: int| 0 <= q < t ==> v@[q + 1] == tail@[q],
            decreases tail@.len() - t,
        {
            v.push(tail[t]);
            t = t + 1;
        }
        proof {
            assert forall|k: int| 0 <= k < segs.len() implies (#[trigger] v@[k]).0@ == segs[k].0 && v@[k].1
                == segs[k].1 by {
                if k > 0 {
                    assert(v@[k] == tail@[k - 1]);
                    assert(segs[k] == tsegs[k - 1]);
                }
            }
        }
        Ok(v)
    }
}

/// Splits a path into its parsed segments.
pub fn parse_path(path: &str) -> (r: Result<Vec<([u8; 4], usize)>, EditError>)
    ensures
        match spec_parse_path(path.spec_bytes()) {
            Ok(segs) => r matches Ok(v) && v@.len() == segs.len() && forall|k: int|
                0 <= k < segs.len() ==> (#[trigger] v@[k]).0@ == segs[k].0 && v@[k].1 == segs[k].1,
            Err(e) => r == Err::<Vec<([u8; 4], usize)>, EditError>(e),
        },
{
    let b = path.as_bytes();
    if b.len() == 0 {
        return Err(EditError::EmptyPath);
    }
    path_from_exec(b, 0)
}

// ---------- edits at a path ----------

/// Index of the `n`-th node (from 0) of `s`, from `i` on, of type `cc`.
pub open spec fn nth_index(s: Seq<EditNode>, cc: Seq<u8>, n: nat, i: int) -> Option<int>
    decreases s.len() - i,
    when 0 <= i <= s.len()
{
    if i >= s.len() {
        None
    } else if s[i].typ.0@ == cc {
        if n == 0 {
            Some(i)
        } else {
            nth_index(s, cc, (n - 1) as nat, i + 1)
        }
    } else {
        nth_index(s, cc, n, i + 1)
    }
}

pub proof fn lemma_nth_index(s: Seq<EditNode>, cc: Seq<u8>, n: nat, i: int)
    requires
        0 <= i <= s.len(),
    ensures
        nth_index(s, cc, n, i) matches Some(j) ==> i <= j < s.len() && s[j].typ.0@ == cc,
    decreases s.len() - i,
{
    if i < s.len() {
        if s[i].typ.0@ == cc && n > 0 {
            lemma_nth_index(s, cc, (n - 1) as nat, i + 1);
        } else if s[i].typ.0@ != cc {
            lemma_nth_index(s, cc, n, i + 1);
        }
    }
}

fn find_nth(nodes: &Vec<EditNode>, cc: [u8; 4], nth: usize) -> (r: Option<usize>)
    ensures
        match nth_index(nodes@, cc@, nth as nat, 0) {
            Some(j) => r == Some(j as usize),
            None => r is None,
        },
{
    let len = nodes.len();
    proof {
        assert(len == nodes@.len());
        lemma_nth_index(nodes@, cc@, nth as nat, 0);
    }
    let mut left: usize = nth;
    let mut i: usize = 0;
    while i < nodes.len()
        invariant
            i <= nodes@.len(),
            len == nodes@.len(),
            nth_index(nodes@, cc@, nth as nat, 0) == nth_index(nodes@, cc@, left as nat, i as int),
        decreases nodes@.len() - i,
    {
        if nodes[i].typ.equals(cc) {
            if left == 0 {
                return Some(i);
            }
            left = left - 1;
        }
        i = i + 1;
    }
    None
}

/// An edit made at the box a path names.
pub enum PathOp {
    /// Delete the box.
    Remove,
    /// Replace the box with this node.
    Replace(EditNode),
    /// Insert this node among the box's children: before the child at the
    /// position, or at the end when there is none or it is past the end.
    Insert(EditNode, Option<usize>),
    /// Set the named field of the box to the value.
    SetField(String, String),
}

/// The payload bytes of a leaf node, read from `src` for an extent.
pub open spec fn leaf_bytes(n: EditNode, src: Seq<u8>) -> Option<Seq<u8>> {
    match n.payload {
        Payload::Bytes(b) => Some(b@),
        Payload::Extent(e) => if e.offset + e.len <= src.len() {
            Some(src.subrange(e.offset as int, e.offset + e.len))
        } else {
            None
        },
        _ => None,
    }
}

/// Why a field cannot be set on a node, if it cannot.
pub open spec fn set_error(n: EditNode, src: Seq<u8>, name: String, value: Seq<u8>) -> Option<EditError> {
    let field = vstd::utf8::encode_utf8(name@);
    if n.payload is Container {
        Some(EditError::ContainerField)
    } else if leaf_bytes(n, src) is None {
        Some(EditError::ExtentOutOfRange)
    } else {
        let p = leaf_bytes(n, src).unwrap();
        if p.len() == 0 {
            Some(EditError::EmptyPayload)
        } else {
            match spec_field_spec(n.typ.0@, p[0], field) {
                None => Some(EditError::UnknownField { field: name, box_type: n.typ, version: p[0] }),
                Some((off, kind)) => patch_error(p.len(), off as nat, kind, value),
            }
        }
    }
}

/// `n` is `o` with the field set: its payload becomes in-memory bytes in
/// which only the field's bytes changed.
pub open spec fn field_set(o: EditNode, n: EditNode, src: Seq<u8>, field: Seq<u8>, value: Seq<u8>) -> bool {
    let p = leaf_bytes(o, src).unwrap();
    let (off, kind) = spec_field_spec(o.typ.0@, p[0], field).unwrap();
    &&& n.typ == o.typ
    &&& n.uuid == o.uuid
    &&& n.header_form == o.header_form
    &&& n.payload matches Payload::Bytes(b) && b@.len() == p.len() && b@.subrange(
        off as int,
        off + kind.spec_width(),
    ) == encode_field(kind, value).unwrap() && forall|k: int|
        0 <= k < p.len() && !(off <= k < off + kind.spec_width()) ==> b@[k] == p[k]
}

/// Sets a named field of a leaf box; the other bytes of its payload are
/// kept.
pub fn set_field_on_node(src: &[u8], node: &mut EditNode, field: &String, value: &str) -> (r: Result<
    (),
    EditError,
>)
    ensures
        match r {
            Ok(()) => set_error(*old(node), src@, *field, value.spec_bytes()) is None
                && field_set(*old(node), *final(node), src@, vstd::utf8::encode_utf8(field@), value.spec_bytes()),
            Err(e) => set_error(*old(node), src@, *field, value.spec_bytes()) == Some(e),
        },
{
    let blen = src.len();
    proof {
        assert(blen == src@.len());
    }
    let mut payload: Vec<u8> = match &node.payload {
        Payload::Bytes(b) => copy_range(b.as_slice(), 0, b.len()),
        Payload::Extent(e) => {
            if e.offset > blen as u64 || e.len > blen as u64 - e.offset {
                return Err(EditError::ExtentOutOfRange);
            }
            copy_range(src, e.offset as usize, (e.offset + e.len) as usize)
        },
        Payload::Container { .. } => return Err(EditError::ContainerField),
    };
    proof {
        assert(payload@ =~= leaf_bytes(*node, src@).unwrap());
    }
    if payload.len() == 0 {
        return Err(EditError::EmptyPayload);
    }
    let version = payload[0];
    let (offset, kind) = match field_spec(&node.typ.0, version, field.as_str()) {
        Some(x) => x,
        None => return Err(EditError::UnknownField { field: field.clone(), box_type: node.typ, version }),
    };
    patch_field(&mut payload, offset, kind, value)?;
    node.payload = Payload::Bytes(payload);
    Ok(())
}

/// Where `Insert` puts a node among `len` children.
pub open spec fn insert_pos(pos: Option<usize>, len: int) -> int {
    match pos {
        Some(p) => if p < len {
            p as int
        } else {
            len
        },
        None => len,
    }
}

/// Why the edit cannot be made at child `idx`, if it cannot.
pub open spec fn op_error(old: Seq<EditNode>, idx: int, op: PathOp, src: Seq<u8>) -> Option<EditError> {
    match op {
        PathOp::Insert(_, _) => if node_kids(old[idx]) is None {
            Some(EditError::NotContainer)
        } else {
            None
        },
        PathOp::SetField(f, v) => set_error(old[idx], src, f, vstd::utf8::encode_utf8(v@)),
        _ => None,
    }
}

/// `new` is `old` with the edit made at child `idx`.
pub open spec fn op_applied(old: Seq<EditNode>, new: Seq<EditNode>, idx: int, op: PathOp, src: Seq<u8>) -> bool {
    match op {
        PathOp::Remove => new == old.remove(idx),
        PathOp::Replace(n) => new == old.update(idx, n),
        PathOp::Insert(n, pos) => {
            let k = node_kids(old[idx]).unwrap();
            &&& new.len() == old.len()
            &&& forall|j: int| 0 <= j < old.len() && j != idx ==> new[j] == old[j]
            &&& same_shell(old[idx], new[idx])
            &&& node_kids(new[idx]) == Some(k.insert(insert_pos(pos, k.len() as int), n))
        },
        PathOp::SetField(f, v) => {
            &&& new.len() == old.len()
            &&& forall|j: int| 0 <= j < old.len() && j != idx ==> new[j] == old[j]
            &&& field_set(old[idx], new[idx], src, vstd::utf8::encode_utf8(f@), vstd::utf8::encode_utf8(v@))
        },
    }
}

/// The parsed segments as fourcc bytes and indices.
pub open spec fn segs_view(v: Seq<([u8; 4], usize)>) -> Seq<(Seq<u8>, nat)> {
    Seq::new(v.len(), |k: int| (v[k].0@, v[k].1 as nat))
}

/// Why the edit at the path `segs[d..]` under `old` cannot be made, if it
/// cannot: a segment names no box, a box on the way has no children, or
/// the edit itself fails.
pub open spec fn path_error(old: Seq<EditNode>, segs: Seq<(Seq<u8>, nat)>, d: int, op: PathOp, src: Seq<u8>) -> Option<EditError>
    decreases segs.len() - d,
{
    if d < 0 || d >= segs.len() {
        None
    } else {
        match nth_index(old, segs[d].0, segs[d].1, 0) {
            None => Some(EditError::NotFound),
            Some(idx) => if d == segs.len() - 1 {
                op_error(old, idx, op, src)
            } else {
                match node_kids(old[idx]) {
                    None => Some(EditError::NoChildren),
                    Some(k) => path_error(k, segs, d + 1, op, src),
                }
            },
        }
    }
}

/// `new` is `old` with the edit made at the box the path `segs[d..]`
/// names; the boxes on the way keep their shells and other children.
pub open spec fn at_path(old: Seq<EditNode>, new: Seq<EditNode>, segs: Seq<(Seq<u8>, nat)>, d: int, op: PathOp, src: Seq<u8>) -> bool
    decreases segs.len() - d,
{
    if d < 0 || d >= segs.len() {
        false
    } else {
        let idx = nth_index(old, segs[d].0, segs[d].1, 0).unwrap();
        if d == segs.len() - 1 {
            op_applied(old, new, idx, op, src)
        } else {
            &&& new.len() == old.len()
            &&& forall|j: int| 0 <= j < old.len() && j != idx ==> new[j] == old[j]
            &&& same_shell(old[idx], new[idx])
            &&& at_path(node_kids(old[idx]).unwrap(), node_kids(new[idx]).unwrap(), segs, d + 1, op, src)
        }
    }
}

/// Makes the edit at the box the path `segs[d..]` names under `nodes`.
pub fn apply_at(
    nodes: &mut Vec<EditNode>,
    segs: &Vec<([u8; 4], usize)>,
    d: usize,
    op: PathOp,
    src: &[u8],
) -> (r: Result<(), EditError>)
    requires
        d < segs@.len(),
    ensures
        match r {
            Ok(()) => path_error(old(nodes)@, segs_view(segs@), d as int, op, src@) is None && at_path(
                old(nodes)@,
                final(nodes)@,
                segs_view(segs@),
                d as int,
                op,
                src@,
            ),
            Err(e) => path_error(old(nodes)@, segs_view(segs@), d as int, op, src@) == Some(e),
        },
    decreases segs@.len() - d,
{
    let ghost sv = segs_view(segs@);
    let (cc, nth) = segs[d];
    let nlen = nodes.len();
    proof {
        assert(nlen == nodes@.len());
        assert(sv[d as int].0 == cc@ && sv[d as int].1 == nth as nat);
        lemma_nth_index(nodes@, cc@, nth as nat, 0);
    }
    let idx = match find_nth(nodes, cc, nth) {
        Some(i) => i,
        None => return Err(EditError::NotFound),
    };
    let ghost old_nodes = nodes@;
    if d == segs.len() - 1 {
        match op {
            PathOp::Remove => {
                nodes.remove(idx);
                proof {
                    assert(nodes@ =~= old_nodes.remove(idx as int));
                }
                Ok(())
            },
            PathOp::Replace(n) => {
                nodes.set(idx, n);
                proof {
                    assert(nodes@ =~= old_nodes.update(idx as int, n));
                }
                Ok(())
            },
            PathOp::Insert(n, pos) => {
                let mut t = nodes.remove(idx);
                let ghost t0 = t;
                let mut k = match take_kids(&mut t) {
                    Some(k) => k,
                    None => {
                        nodes.insert(idx, t);
                        return Err(EditError::NotContainer);
                    },
                };
                let ghost k0 = k@;
                let at = match pos {
                    Some(p) => if p < k.len() {
                        p
                    } else {
                        k.len()
                    },
                    None => k.len(),
                };
                k.insert(at, n);
                put_kids(&mut t, k);
                nodes.insert(idx, t);
                proof {
                    assert(nodes@ =~= old_nodes.update(idx as int, t));
                }
                Ok(())
            },
            PathOp::SetField(f, v) => {
                let mut t = nodes.remove(idx);
                let res = set_field_on_node(src, &mut t, &f, v.as_str());
                nodes.insert(idx, t);
                proof {
                    assert(nodes@ =~= old_nodes.update(idx as int, t));
                }
                res
            },
        }
    } else {
        let mut t = nodes.remove(idx);
        let ghost t0 = t;
        let mut k = match take_kids(&mut t) {
            Some(k) => k,
            None => {
                nodes.insert(idx, t);
                return Err(EditError::NoChildren);
            },
        };
        let ghost k0 = k@;
        let ghost t1 = t;
        let res = apply_at(&mut k, segs, d + 1, op, src);
        put_kids(&mut t, k);
        nodes.insert(idx, t);
        proof {
            assert(nodes@ =~= old_nodes.update(idx as int, t));
            assert(t0 == old_nodes[idx as int]);
            assert(node_kids(t0) == Some(k0));
            assert(same_shell(t0, t1));
            assert(same_shell(t1, t));
            assert(same_shell(t0, t));
            assert(node_kids(t) == Some(k@));
        }
        res
    }
}

/// Whether a path edit fails does not depend on the node it inserts or
/// puts in place.
pub open spec fn same_failure(op1: PathOp, op2: PathOp) -> bool {
    match (op1, op2) {
        (PathOp::Insert(_, p1), PathOp::Insert(_, p2)) => p1 == p2,
        (PathOp::Replace(_), PathOp::Replace(_)) => true,
        _ => false,
    }
}

pub proof fn lemma_path_error_same(old: Seq<EditNode>, segs: Seq<(Seq<u8>, nat)>, d: int, op1: PathOp, op2: PathOp, src: Seq<u8>)
    requires
        same_failure(op1, op2),
    ensures
        path_error(old, segs, d, op1, src) == path_error(old, segs, d, op2, src),
    decreases segs.len() - d,
{
    if 0 <= d < segs.len() {
        match nth_index(old, segs[d].0, segs[d].1, 0) {
            Some(idx) => {
                if d != segs.len() - 1 {
                    match node_kids(old[idx]) {
                        Some(k) => lemma_path_error_same(k, segs, d + 1, op1, op2, src),
                        None => {},
                    }
                }
            },
            None => {},
        }
    }
}

} // verus!
