//! Builders for iTunes metadata boxes and the find-or-create logic for the
//! `moov/udta/meta/ilst` chain.

use vstd::prelude::*;
use vstd::string::StringSliceAdditionalSpecFns;
use crate::boxes::FourCC;
use crate::util::{be_bytes, bytes_eq, lemma_be_bytes_len, push_be, push_bytes};
use super::tree::{EditNode, HeaderForm, Payload, raw_error, raw_node, raw_size32, node_same, kids_same, lemma_node_same_refl, lemma_node_same_bytes, spec_node_size};
use super::EditError;

verus! {

// ---------- fourcc text ----------

/// The bytes of a fourcc written as text from position `i` on: ASCII
/// characters stand for themselves and '©' (two bytes in UTF-8) for the
/// single byte 0xA9 iTunes uses; any other character is refused.
pub open spec fn text_fourcc_from(b: Seq<u8>, i: int) -> Option<Seq<u8>>
    decreases b.len() - i,
    when 0 <= i <= b.len()
{
    if i >= b.len() {
        Some(Seq::empty())
    } else if b[i] < 128 {
        match text_fourcc_from(b, i + 1) {
            Some(r) => Some(seq![b[i]] + r),
            None => None,
        }
    } else if b[i] == 0xC2 && i + 1 < b.len() && b[i + 1] == 0xA9 {
        match text_fourcc_from(b, i + 2) {
            Some(r) => Some(seq![0xA9u8] + r),
            None => None,
        }
    } else {
        None
    }
}

/// The fourcc a text names, if it maps to exactly four bytes.
pub open spec fn spec_text_fourcc(b: Seq<u8>) -> Option<Seq<u8>> {
    match text_fourcc_from(b, 0) {
        Some(r) => if r.len() == 4 {
            Some(r)
        } else {
            None
        },
        None => None,
    }
}

/// Converts a fourcc written as text (where '©' stands for 0xA9) into its
/// four bytes.
pub fn text_fourcc(s: &[u8]) -> (r: Option<[u8; 4]>)
    ensures
        match spec_text_fourcc(s@) {
            Some(b) => r matches Some(a) && a@ == b,
            None => r is None,
        },
{
    let mut out: Vec<u8> = Vec::new();
    let mut i: usize = 0;
    while i < s.len()
        invariant
            i <= s@.len(),
            match text_fourcc_from(s@, i as int) {
                Some(r) => text_fourcc_from(s@, 0) == Some(out@ + r),
                None => text_fourcc_from(s@, 0) is None,
            },
        decreases s@.len() - i,
    {
        if s[i] < 128 {
            proof {
                match text_fourcc_from(s@, i + 1) {
                    Some(r) => {
                        assert(out@ + (seq![s@[i as int]] + r) =~= out@.push(s@[i as int]) + r);
                    },
                    None => {},
                }
            }
            out.push(s[i]);
            i = i + 1;
        } else if s[i] == 0xC2 && i + 1 < s.len() && s[i + 1] == 0xA9 {
            proof {
                match text_fourcc_from(s@, i + 2) {
                    Some(r) => {
                        assert(out@ + (seq![0xA9u8] + r) =~= out@.push(0xA9u8) + r);
                    },
                    None => {},
                }
            }
            out.push(0xA9);
            i = i + 2;
        } else {
            return None;
        }
    }
    proof {
        assert(out@ + Seq::<u8>::empty() =~= out@);
    }
    if out.len() != 4 {
        return None;
    }
    let a = [out[0], out[1], out[2], out[3]];
    proof {
        assert(a@ =~= out@);
    }
    Some(a)
}

// ---------- tag names ----------

/// The fourcc of a friendly tag name.
pub open spec fn named_tag(name: Seq<u8>) -> Option<Seq<u8>> {
    if name == seq![116u8, 105u8, 116u8, 108u8, 101u8] {
        Some(seq![169u8, 110u8, 97u8, 109u8])
    } else if name == seq![97u8, 114u8, 116u8, 105u8, 115u8, 116u8] {
        Some(seq![169u8, 65u8, 82u8, 84u8])
    } else if name == seq![97u8, 108u8, 98u8, 117u8, 109u8] {
        Some(seq![169u8, 97u8, 108u8, 98u8])
    } else if name == seq![121u8, 101u8, 97u8, 114u8] {
        Some(seq![169u8, 100u8, 97u8, 121u8])
    } else if name == seq![103u8, 101u8, 110u8, 114u8, 101u8] {
        Some(seq![169u8, 103u8, 101u8, 110u8])
    } else if name == seq![99u8, 111u8, 109u8, 109u8, 101u8, 110u8, 116u8] {
        Some(seq![169u8, 99u8, 109u8, 116u8])
    } else if name == seq![100u8, 101u8, 115u8, 99u8, 114u8, 105u8, 112u8, 116u8, 105u8, 111u8, 110u8] {
        Some(seq![100u8, 101u8, 115u8, 99u8])
    } else if name == seq![99u8, 111u8, 112u8, 121u8, 114u8, 105u8, 103u8, 104u8, 116u8] {
        Some(seq![99u8, 112u8, 114u8, 116u8])
    } else if name == seq![97u8, 108u8, 98u8, 117u8, 109u8, 95u8, 97u8, 114u8, 116u8, 105u8, 115u8, 116u8] {
        Some(seq![97u8, 65u8, 82u8, 84u8])
    } else if name == seq![101u8, 110u8, 99u8, 111u8, 100u8, 101u8, 114u8] {
        Some(seq![169u8, 116u8, 111u8, 111u8])
    } else if name == seq![99u8, 111u8, 109u8, 112u8, 111u8, 115u8, 101u8, 114u8] {
        Some(seq![169u8, 119u8, 114u8, 116u8])
    } else if name == seq![108u8, 121u8, 114u8, 105u8, 99u8, 115u8] {
        Some(seq![169u8, 108u8, 121u8, 114u8])
    } else if name == seq![103u8, 114u8, 111u8, 117u8, 112u8, 105u8, 110u8, 103u8] {
        Some(seq![169u8, 103u8, 114u8, 112u8])
    } else {
        None
    }
}

/// The iTunes atom fourcc of a tag: a friendly name (`title`, `artist`,
/// ...) or a raw fourcc (where '©' stands for 0xA9).
pub open spec fn spec_tag_fourcc(name: Seq<u8>) -> Option<Seq<u8>> {
    match named_tag(name) {
        Some(cc) => Some(cc),
        None => spec_text_fourcc(name),
    }
}

/// The characters of an ASCII byte string.
pub open spec fn ascii_chars(s: Seq<u8>) -> Seq<char> {
    s.map_values(|b: u8| b as char)
}

/// Every friendly name `set_tag` accepts maps to the atom that the tag
/// reader names back with that same friendly name.
pub proof fn lemma_tag_name_roundtrip(name: Seq<u8>)
    requires
        named_tag(name) is Some,
    ensures
        spec_tag_fourcc(name) matches Some(c) && crate::itunes::tag_name(c) == ascii_chars(name),
{
    reveal_strlit("title");
    reveal_strlit("artist");
    reveal_strlit("album");
    reveal_strlit("year");
    reveal_strlit("genre");
    reveal_strlit("comment");
    reveal_strlit("description");
    reveal_strlit("copyright");
    reveal_strlit("album_artist");
    reveal_strlit("encoder");
    reveal_strlit("composer");
    reveal_strlit("lyrics");
    reveal_strlit("grouping");
    let c = named_tag(name).unwrap();
    assert(crate::itunes::tag_name(c) =~= ascii_chars(name));
}

/// Maps a friendly tag name to its iTunes atom fourcc; raw four-character
/// names (including `©xxx`) pass through.
pub fn tag_fourcc(name: &str) -> (r: Result<[u8; 4], EditError>)
    ensures
        match spec_tag_fourcc(name.spec_bytes()) {
            Some(cc) => r matches Ok(a) && a@ == cc,
            None => r == Err::<[u8; 4], EditError>(EditError::UnknownTag),
        },
{
    let b = name.as_bytes();
    proof {
        assert([116u8, 105u8, 116u8, 108u8, 101u8]@ =~= seq![116u8, 105u8, 116u8, 108u8, 101u8]);
    }
    if bytes_eq(b, &[116u8, 105u8, 116u8, 108u8, 101u8]) {
        let a = [169u8, 110u8, 97u8, 109u8];
        proof {
            assert(a@ =~= seq![169u8, 110u8, 97u8, 109u8]);
        }
        return Ok(a);
    }
    proof {
        assert([97u8, 114u8, 116u8, 105u8, 115u8, 116u8]@ =~= seq![97u8, 114u8, 116u8, 105u8, 115u8, 116u8]);
    }
    if bytes_eq(b, &[97u8, 114u8, 116u8, 105u8, 115u8, 116u8]) {
        let a = [169u8, 65u8, 82u8, 84u8];
        proof {
            assert(a@ =~= seq![169u8, 65u8, 82u8, 84u8]);
        }
        return Ok(a);
    }
    proof {
        assert([97u8, 108u8, 98u8, 117u8, 109u8]@ =~= seq![97u8, 108u8, 98u8, 117u8, 109u8]);
    }
    if bytes_eq(b, &[97u8, 108u8, 98u8, 117u8, 109u8]) {
        let a = [169u8, 97u8, 108u8, 98u8];
        proof {
            assert(a@ =~= seq![169u8, 97u8, 108u8, 98u8]);
        }
        return Ok(a);
    }
    proof {
        assert([121u8, 101u8, 97u8, 114u8]@ =~= seq![121u8, 101u8, 97u8, 114u8]);
    }
    if bytes_eq(b, &[121u8, 101u8, 97u8, 114u8]) {
        let a = [169u8, 100u8, 97u8, 121u8];
        proof {
            assert(a@ =~= seq![169u8, 100u8, 97u8, 121u8]);
        }
        return Ok(a);
    }
    proof {
        assert([103u8, 101u8, 110u8, 114u8, 101u8]@ =~= seq![103u8, 101u8, 110u8, 114u8, 101u8]);
    }
    if bytes_eq(b, &[103u8, 101u8, 110u8, 114u8, 101u8]) {
        let a = [169u8, 103u8, 101u8, 110u8];
        proof {
            assert(a@ =~= seq![169u8, 103u8, 101u8, 110u8]);
        }
        return Ok(a);
    }
    proof {
        assert([99u8, 111u8, 109u8, 109u8, 101u8, 110u8, 116u8]@ =~= seq![99u8, 111u8, 109u8, 109u8, 101u8, 110u8, 116u8]);
    }
    if bytes_eq(b, &[99u8, 111u8, 109u8, 109u8, 101u8, 110u8, 116u8]) {
        let a = [169u8, 99u8, 109u8, 116u8];
        proof {
            assert(a@ =~= seq![169u8, 99u8, 109u8, 116u8]);
        }
        return Ok(a);
    }
    proof {
        assert([100u8, 101u8, 115u8, 99u8, 114u8, 105u8, 112u8, 116u8, 105u8, 111u8, 110u8]@ =~= seq![100u8, 101u8, 115u8, 99u8, 114u8, 105u8, 112u8, 116u8, 105u8, 111u8, 110u8]);
    }
    if bytes_eq(b, &[100u8, 101u8, 115u8, 99u8, 114u8, 105u8, 112u8, 116u8, 105u8, 111u8, 110u8]) {
        let a = [100u8, 101u8, 115u8, 99u8];
        proof {
            assert(a@ =~= seq![100u8, 101u8, 115u8, 99u8]);
        }
        return Ok(a);
    }
    proof {
        assert([99u8, 111u8, 112u8, 121u8, 114u8, 105u8, 103u8, 104u8, 116u8]@ =~= seq![99u8, 111u8, 112u8, 121u8, 114u8, 105u8, 103u8, 104u8, 116u8]);
    }
    if bytes_eq(b, &[99u8, 111u8, 112u8, 121u8, 114u8, 105u8, 103u8, 104u8, 116u8]) {
        let a = [99u8, 112u8, 114u8, 116u8];
        proof {
            assert(a@ =~= seq![99u8, 112u8, 114u8, 116u8]);
        }
        return Ok(a);
    }
    proof {
        assert([97u8, 108u8, 98u8, 117u8, 109u8, 95u8, 97u8, 114u8, 116u8, 105u8, 115u8, 116u8]@ =~= seq![97u8, 108u8, 98u8, 117u8, 109u8, 95u8, 97u8, 114u8, 116u8, 105u8, 115u8, 116u8]);
    }
    if bytes_eq(b, &[97u8, 108u8, 98u8, 117u8, 109u8, 95u8, 97u8, 114u8, 116u8, 105u8, 115u8, 116u8]) {
        let a = [97u8, 65u8, 82u8, 84u8];
        proof {
            assert(a@ =~= seq![97u8, 65u8, 82u8, 84u8]);
        }
        return Ok(a);
    }
    proof {
        assert([101u8, 110u8, 99u8, 111u8, 100u8, 101u8, 114u8]@ =~= seq![101u8, 110u8, 99u8, 111u8, 100u8, 101u8, 114u8]);
    }
    if bytes_eq(b, &[101u8, 110u8, 99u8, 111u8, 100u8, 101u8, 114u8]) {
        let a = [169u8, 116u8, 111u8, 111u8];
        proof {
            assert(a@ =~= seq![169u8, 116u8, 111u8, 111u8]);
        }
        return Ok(a);
    }
    proof {
        assert([99u8, 111u8, 109u8, 112u8, 111u8, 115u8, 101u8, 114u8]@ =~= seq![99u8, 111u8, 109u8, 112u8, 111u8, 115u8, 101u8, 114u8]);
    }
    if bytes_eq(b, &[99u8, 111u8, 109u8, 112u8, 111u8, 115u8, 101u8, 114u8]) {
        let a = [169u8, 119u8, 114u8, 116u8];
        proof {
            assert(a@ =~= seq![169u8, 119u8, 114u8, 116u8]);
        }
        return Ok(a);
    }
    proof {
        assert([108u8, 121u8, 114u8, 105u8, 99u8, 115u8]@ =~= seq![108u8, 121u8, 114u8, 105u8, 99u8, 115u8]);
    }
    if bytes_eq(b, &[108u8, 121u8, 114u8, 105u8, 99u8, 115u8]) {
        let a = [169u8, 108u8, 121u8, 114u8];
        proof {
            assert(a@ =~= seq![169u8, 108u8, 121u8, 114u8]);
        }
        return Ok(a);
    }
    proof {
        assert([103u8, 114u8, 111u8, 117u8, 112u8, 105u8, 110u8, 103u8]@ =~= seq![103u8, 114u8, 111u8, 117u8, 112u8, 105u8, 110u8, 103u8]);
    }
    if bytes_eq(b, &[103u8, 114u8, 111u8, 117u8, 112u8, 105u8, 110u8, 103u8]) {
        let a = [169u8, 103u8, 114u8, 112u8];
        proof {
            assert(a@ =~= seq![169u8, 103u8, 114u8, 112u8]);
        }
        return Ok(a);
    }
    match text_fourcc(b) {
        Some(a) => Ok(a),
        None => Err(EditError::UnknownTag),
    }
}

// ---------- atoms ----------

/// A plain box: 32-bit size, type, payload.
pub open spec fn box_bytes(typ: Seq<u8>, payload: Seq<u8>) -> Seq<u8> {
    be_bytes(8 + payload.len(), 4) + typ + payload
}

fn plain_box(typ: &[u8; 4], payload: &[u8]) -> (r: Vec<u8>)
    requires
        payload@.len() + 8 <= u64::MAX,
    ensures
        r@ == box_bytes(typ@, payload@),
{
    let mut v: Vec<u8> = Vec::new();
    let n: u64 = 8 + payload.len() as u64;
    push_be(&mut v, n, 4);
    push_bytes(&mut v, typ);
    push_bytes(&mut v, payload);
    proof {
        assert(v@ =~= box_bytes(typ@, payload@));
    }
    v
}

/// The `data` atom payload of a UTF-8 text value: type indicator 1,
/// locale 0, the text.
pub open spec fn text_data(value: Seq<u8>) -> Seq<u8> {
    be_bytes(1, 4) + be_bytes(0, 4) + value
}

/// A raw tag atom: `<tag>` holding a `data` atom with a UTF-8 value.
pub open spec fn spec_tag_atom(fourcc: Seq<u8>, value: Seq<u8>) -> Seq<u8> {
    box_bytes(fourcc, box_bytes(seq![100u8, 97u8, 116u8, 97u8], text_data(value)))
}

/// Raw tag atom: `<tag>` containing a `data` atom with a UTF-8 value.
pub fn build_tag_atom(fourcc: &[u8; 4], value: &str) -> (r: Vec<u8>)
    requires
        value.spec_bytes().len() + 24 <= u64::MAX,
    ensures
        r@ == spec_tag_atom(fourcc@, value.spec_bytes()),
{
    let mut data_payload: Vec<u8> = Vec::new();
    push_be(&mut data_payload, 1, 4);
    push_be(&mut data_payload, 0, 4);
    push_bytes(&mut data_payload, value.as_bytes());
    proof {
        assert(data_payload@ =~= text_data(value.spec_bytes()));
        lemma_be_bytes_len(1, 4);
        lemma_be_bytes_len(0, 4);
        lemma_be_bytes_len(8 + data_payload@.len(), 4);
    }
    let data = plain_box(&[100u8, 97u8, 116u8, 97u8], data_payload.as_slice());
    proof {
        assert([100u8, 97u8, 116u8, 97u8]@ =~= seq![100u8, 97u8, 116u8, 97u8]);
        assert(data@.len() == 4 + 4 + data_payload@.len());
    }
    plain_box(fourcc, data.as_slice())
}

/// The payload of the `hdlr` marking an ISO `meta` as iTunes metadata:
/// version/flags, pre_defined, `mdir`, 12 reserved bytes, an empty name.
pub open spec fn mdir_hdlr_payload() -> Seq<u8> {
    seq![0u8, 0, 0, 0, 0, 0, 0, 0, 109, 100, 105, 114, 0, 0, 0, 0, 0, 0, 0, 0, 0, 0, 0, 0, 0]
}

fn build_mdir_hdlr() -> (r: Vec<u8>)
    ensures
        r@ == box_bytes(seq![104u8, 100u8, 108u8, 114u8], mdir_hdlr_payload()),
{
    let p = [0u8, 0, 0, 0, 0, 0, 0, 0, 109, 100, 105, 114, 0, 0, 0, 0, 0, 0, 0, 0, 0, 0, 0, 0, 0];
    proof {
        assert(p@ =~= mdir_hdlr_payload());
        assert([104u8, 100u8, 108u8, 114u8]@ =~= seq![104u8, 100u8, 108u8, 114u8]);
    }
    plain_box(&[104u8, 100u8, 108u8, 114u8], &p)
}

// ---------- setting a tag ----------

/// Index of the first node of `s`, from `i` on, whose type is `cc`.
pub open spec fn find_first(s: Seq<EditNode>, cc: Seq<u8>, i: int) -> Option<int>
    decreases s.len() - i,
    when 0 <= i <= s.len()
{
    if i >= s.len() {
        None
    } else if s[i].typ.0@ == cc {
        Some(i)
    } else {
        find_first(s, cc, i + 1)
    }
}

pub proof fn lemma_find_first(s: Seq<EditNode>, cc: Seq<u8>, i: int)
    requires
        0 <= i <= s.len(),
    ensures
        find_first(s, cc, i) matches Some(j) ==> i <= j < s.len() && s[j].typ.0@ == cc && forall|t: int|
            i <= t < j ==> s[t].typ.0@ != cc,
        find_first(s, cc, i) is None ==> forall|t: int| i <= t < s.len() ==> s[t].typ.0@ != cc,
    decreases s.len() - i,
{
    if i < s.len() {
        lemma_find_first(s, cc, i + 1);
    }
}

/// Index of the first child of type `cc`, searching from 0.
pub(crate) fn find_child(kids: &Vec<EditNode>, cc: [u8; 4]) -> (r: Option<usize>)
    ensures
        match find_first(kids@, cc@, 0) {
            Some(j) => r == Some(j as usize),
            None => r is None,
        },
{
    let mut i: usize = 0;
    while i < kids.len()
        invariant
            i <= kids@.len(),
            find_first(kids@, cc@, 0) == find_first(kids@, cc@, i as int),
        decreases kids@.len() - i,
    {
        if kids[i].typ.equals(cc) {
            return Some(i);
        }
        i = i + 1;
    }
    None
}

/// The children of a container node.
pub open spec fn node_kids(n: EditNode) -> Option<Seq<EditNode>> {
    match n.payload {
        Payload::Container { children, .. } => Some(children@),
        _ => None,
    }
}

/// `b` is `a` with possibly different children.
pub open spec fn same_shell(a: EditNode, b: EditNode) -> bool {
    &&& a.typ == b.typ
    &&& a.uuid == b.uuid
    &&& a.header_form == b.header_form
    &&& a.payload matches Payload::Container { version_flags: v1, prefix: p1, suffix: s1, .. }
    &&& b.payload matches Payload::Container { version_flags: v2, prefix: p2, suffix: s2, .. }
    &&& v1 == v2 && p1 == p2 && s1 == s2
}

/// `n` is a new container of type `cc` with the given version/flags and no
/// bytes besides its children.
pub open spec fn fresh_shell(n: EditNode, cc: Seq<u8>, vf: Option<(u8, u32)>) -> bool {
    &&& n.typ.0@ == cc
    &&& n.uuid is None
    &&& n.header_form == HeaderForm::Compact
    &&& n.payload matches Payload::Container { version_flags, prefix, suffix, .. }
    &&& version_flags == vf && prefix@.len() == 0 && suffix@.len() == 0
}

/// Where the child of type `cc` is after the find-or-append step.
pub open spec fn slot_of(kids: Seq<EditNode>, cc: Seq<u8>) -> int {
    match find_first(kids, cc, 0) {
        Some(i) => i,
        None => kids.len() as int,
    }
}

/// `newk` is `oldk` with the first child of type `cc` (or, when there was
/// none, a new container appended at the end) replaced by a node that
/// keeps that child's shell.
pub open spec fn level_set(oldk: Seq<EditNode>, newk: Seq<EditNode>, cc: Seq<u8>, vf: Option<(u8, u32)>) -> bool {
    let i = slot_of(oldk, cc);
    &&& newk.len() == if find_first(oldk, cc, 0) is Some {
        oldk.len()
    } else {
        oldk.len() + 1
    }
    &&& forall|j: int| 0 <= j < oldk.len() && j != i ==> newk[j] == oldk[j]
    &&& if find_first(oldk, cc, 0) is Some {
        same_shell(oldk[i], newk[i])
    } else {
        fresh_shell(newk[i], cc, vf)
    }
}

/// The children the find-or-append step starts from: those of the found
/// child, or none for a new one.
pub open spec fn base_kids(oldk: Seq<EditNode>, cc: Seq<u8>) -> Seq<EditNode> {
    match find_first(oldk, cc, 0) {
        Some(i) => match node_kids(oldk[i]) {
            Some(k) => k,
            None => Seq::empty(),
        },
        None => Seq::empty(),
    }
}

/// The found child of type `cc`, if any, is a container.
pub open spec fn level_ok(oldk: Seq<EditNode>, cc: Seq<u8>) -> bool {
    match find_first(oldk, cc, 0) {
        Some(i) => node_kids(oldk[i]) is Some,
        None => true,
    }
}

pub open spec fn udta_cc() -> Seq<u8> {
    seq![117u8, 100u8, 116u8, 97u8]
}

pub open spec fn meta_cc() -> Seq<u8> {
    seq![109u8, 101u8, 116u8, 97u8]
}

pub open spec fn ilst_cc() -> Seq<u8> {
    seq![105u8, 108u8, 115u8, 116u8]
}

/// `set_tag_in_moov` succeeds: `moov`, and each of its existing `udta`,
/// `meta` and `ilst` on the way, is a container.
pub open spec fn tag_path_ok(moov: EditNode) -> bool {
    match node_kids(moov) {
        Some(mk) => {
            let uk = base_kids(mk, udta_cc());
            let metak = base_kids(uk, meta_cc());
            level_ok(mk, udta_cc()) && level_ok(uk, meta_cc()) && level_ok(metak, ilst_cc())
        },
        None => false,
    }
}

/// `new` is `old` with the tag atom set: the `udta`, `meta` and `ilst`
/// on the way are found (the first of each) or appended, a new `meta`
/// starts with an iTunes `hdlr`, and in `ilst` the first atom of the tag's
/// type is replaced by the new atom, or the atom appended.
pub open spec fn tag_set(old: EditNode, new: EditNode, cc: Seq<u8>, value: Seq<u8>) -> bool {
    let mk = node_kids(old).unwrap();
    let nk = node_kids(new).unwrap();
    let iu = slot_of(mk, udta_cc());
    let uk = base_kids(mk, udta_cc());
    let nuk = node_kids(nk[iu]).unwrap();
    let im = slot_of(uk, meta_cc());
    let meta_found = find_first(uk, meta_cc(), 0) is Some;
    let metak = base_kids(uk, meta_cc());
    let nmk = node_kids(nuk[im]).unwrap();
    let metak0 = if meta_found {
        metak
    } else {
        nmk.take(1)
    };
    let il = slot_of(metak0, ilst_cc());
    let ik = base_kids(metak0, ilst_cc());
    let nik = node_kids(nmk[il]).unwrap();
    &&& same_shell(old, new)
    &&& node_kids(new) is Some
    &&& level_set(mk, nk, udta_cc(), None)
    &&& node_kids(nk[iu]) is Some
    &&& level_set(uk, nuk, meta_cc(), Some((0u8, 0u32)))
    &&& node_kids(nuk[im]) is Some
    &&& (!meta_found ==> nmk.len() >= 1 && raw_node(
        nmk[0],
        box_bytes(seq![104u8, 100u8, 108u8, 114u8], mdir_hdlr_payload()),
    ))
    &&& level_set(metak0, nmk, ilst_cc(), None)
    &&& node_kids(nmk[il]) is Some
    &&& atom_set(ik, nik, cc, spec_tag_atom(cc, value))
}

// ---------- setting a tag twice ----------

proof fn lemma_find_first_is(s: Seq<EditNode>, cc: Seq<u8>, i: int, k: int)
    requires
        0 <= k <= i < s.len(),
        s[i].typ.0@ == cc,
        forall|j: int| k <= j < i ==> s[j].typ.0@ != cc,
    ensures
        find_first(s, cc, k) == Some(i),
    decreases i - k,
{
    if k < i {
        lemma_find_first_is(s, cc, i, k + 1);
    }
}

/// After the find-or-append step, the first child of type `cc` is the one
/// the step set.
proof fn lemma_level_found(oldk: Seq<EditNode>, newk: Seq<EditNode>, cc: Seq<u8>, vf: Option<(u8, u32)>)
    requires
        level_set(oldk, newk, cc, vf),
    ensures
        find_first(newk, cc, 0) == Some(slot_of(oldk, cc)),
{
    lemma_find_first(oldk, cc, 0);
    let i = slot_of(oldk, cc);
    assert forall|j: int| 0 <= j < i implies newk[j].typ.0@ != cc by {
        assert(newk[j] == oldk[j]);
    }
    lemma_find_first_is(newk, cc, i, 0);
}

proof fn lemma_atom_type(cc: Seq<u8>, value: Seq<u8>)
    requires
        cc.len() == 4,
    ensures
        spec_tag_atom(cc, value).subrange(4, 8) == cc,
{
    let payload = box_bytes(seq![100u8, 97u8, 116u8, 97u8], text_data(value));
    lemma_be_bytes_len((8 + payload.len()) as nat, 4);
    assert(spec_tag_atom(cc, value).subrange(4, 8) =~= cc);
}

/// The number of children of `moov` and of the first `udta`, `meta` and
/// `ilst` on the way to the tags.
pub open spec fn tag_shape(moov: EditNode) -> (int, int, int, int) {
    let mk = node_kids(moov).unwrap();
    let uk = base_kids(mk, udta_cc());
    let metak = base_kids(uk, meta_cc());
    let ik = base_kids(metak, ilst_cc());
    (mk.len() as int, uk.len() as int, metak.len() as int, ik.len() as int)
}

/// Two nodes made from the same raw box are the same node.
proof fn lemma_raw_same(a: EditNode, b: EditNode, bytes: Seq<u8>)
    requires
        raw_node(a, bytes),
        raw_node(b, bytes),
    ensures
        node_same(a, b),
{
    assert(a.typ.0 =~= b.typ.0);
    match (a.uuid, b.uuid) {
        (Some(u), Some(v)) => {
            assert(u =~= v);
        },
        _ => {},
    }
}

/// Children that differ only at `slot`, where they are the same node,
/// are the same children.
proof fn lemma_level_same(oldk: Seq<EditNode>, newk: Seq<EditNode>, slot: int, i: int)
    requires
        newk.len() == oldk.len(),
        0 <= slot < oldk.len(),
        0 <= i <= oldk.len(),
        forall|j: int| 0 <= j < oldk.len() && j != slot ==> newk[j] == oldk[j],
        node_same(oldk[slot], newk[slot]),
    ensures
        kids_same(oldk, newk, i),
    decreases i,
{
    if i > 0 {
        lemma_level_same(oldk, newk, slot, i - 1);
        if i - 1 != slot {
            assert(newk[i - 1] == oldk[i - 1]);
            lemma_node_same_refl(oldk[i - 1]);
        }
    }
}

/// A container with the same shell and the same children is the same node.
proof fn lemma_shell_same(a: EditNode, b: EditNode)
    requires
        same_shell(a, b),
        node_kids(a) is Some,
        node_kids(b) is Some,
        node_kids(b).unwrap().len() == node_kids(a).unwrap().len(),
        kids_same(node_kids(a).unwrap(), node_kids(b).unwrap(), node_kids(a).unwrap().len() as int),
    ensures
        node_same(a, b),
{
}

/// Setting the same tag a second time replaces the atom the first setting
/// made by the same atom: no `udta`, `meta`, `ilst` or tag atom is added,
/// and the `moov` is the same node again.
pub proof fn lemma_tag_set_twice(m0: EditNode, m1: EditNode, m2: EditNode, cc: Seq<u8>, value: Seq<u8>)
    requires
        cc.len() == 4,
        tag_set(m0, m1, cc, value),
        tag_set(m1, m2, cc, value),
    ensures
        tag_shape(m2) == tag_shape(m1),
        node_same(m1, m2),
        spec_node_size(m2) == spec_node_size(m1),
{
    // first setting
    let mk0 = node_kids(m0).unwrap();
    let mk1 = node_kids(m1).unwrap();
    let iu = slot_of(mk0, udta_cc());
    let uk0 = base_kids(mk0, udta_cc());
    let nuk1 = node_kids(mk1[iu]).unwrap();
    let im = slot_of(uk0, meta_cc());
    let meta_found0 = find_first(uk0, meta_cc(), 0) is Some;
    let nmk1 = node_kids(nuk1[im]).unwrap();
    let metak00 = if meta_found0 {
        base_kids(uk0, meta_cc())
    } else {
        nmk1.take(1)
    };
    let il = slot_of(metak00, ilst_cc());
    let ik0 = base_kids(metak00, ilst_cc());
    let nik1 = node_kids(nmk1[il]).unwrap();
    lemma_level_found(mk0, mk1, udta_cc(), None);
    lemma_level_found(uk0, nuk1, meta_cc(), Some((0u8, 0u32)));
    lemma_level_found(metak00, nmk1, ilst_cc(), None);
    assert(base_kids(mk1, udta_cc()) == nuk1);
    assert(base_kids(nuk1, meta_cc()) == nmk1);
    assert(base_kids(nmk1, ilst_cc()) == nik1);
    // the atom of the first setting is in place
    lemma_atom_type(cc, value);
    let t = match find_first(ik0, cc, 0) {
        Some(t) => t,
        None => ik0.len() as int,
    };
    lemma_find_first(ik0, cc, 0);
    assert(atom_set(ik0, nik1, cc, spec_tag_atom(cc, value)));
    assert forall|j: int| 0 <= j < t implies nik1[j] == ik0[j] by {
        if find_first(ik0, cc, 0) is Some {
            assert(j != t && j < ik0.len());
        }
    }
    assert(raw_node(nik1[t], spec_tag_atom(cc, value)));
    assert(nik1[t].typ.0@ == cc);
    lemma_find_first_some(nik1, cc, t, 0);
    // second setting
    let mk2 = node_kids(m2).unwrap();
    let nuk2 = node_kids(mk2[iu]).unwrap();
    assert(find_first(nuk1, meta_cc(), 0) is Some);
    let nmk2 = node_kids(nuk2[im]).unwrap();
    let nik2 = node_kids(nmk2[il]).unwrap();
    lemma_level_found(mk1, mk2, udta_cc(), None);
    lemma_level_found(nuk1, nuk2, meta_cc(), Some((0u8, 0u32)));
    lemma_level_found(nmk1, nmk2, ilst_cc(), None);
    assert(base_kids(mk2, udta_cc()) == nuk2);
    assert(base_kids(nuk2, meta_cc()) == nmk2);
    assert(base_kids(nmk2, ilst_cc()) == nik2);
    assert(nik2.len() == nik1.len());
    // the second setting made the same tree again
    let atom = spec_tag_atom(cc, value);
    assert forall|j: int| 0 <= j < t implies nik1[j].typ.0@ != cc by {
        assert(nik1[j] == ik0[j]);
    }
    lemma_find_first_is(nik1, cc, t, 0);
    assert(atom_set(nik1, nik2, cc, atom));
    assert(raw_node(nik2[t], atom));
    lemma_raw_same(nik1[t], nik2[t], atom);
    lemma_level_same(nik1, nik2, t, nik1.len() as int);
    lemma_shell_same(nmk1[il], nmk2[il]);
    lemma_find_first(nmk1, ilst_cc(), 0);
    lemma_find_first(mk1, udta_cc(), 0);
    lemma_find_first(nuk1, meta_cc(), 0);
    lemma_level_same(nmk1, nmk2, il, nmk1.len() as int);
    lemma_shell_same(nuk1[im], nuk2[im]);
    lemma_level_same(nuk1, nuk2, im, nuk1.len() as int);
    lemma_shell_same(mk1[iu], mk2[iu]);
    lemma_level_same(mk1, mk2, iu, mk1.len() as int);
    lemma_shell_same(m1, m2);
    lemma_node_same_bytes(Seq::empty(), m1, m2);
}

proof fn lemma_find_first_some(s: Seq<EditNode>, cc: Seq<u8>, i: int, k: int)
    requires
        0 <= k <= i < s.len(),
        s[i].typ.0@ == cc,
    ensures
        find_first(s, cc, k) is Some,
    decreases i - k,
{
    if k < i && s[k].typ.0@ != cc {
        lemma_find_first_some(s, cc, i, k + 1);
    }
}

/// The ilst step: `newk` is `ik` with the first atom of type `cc` replaced
/// by the node made from the raw atom `bytes`, or that node appended.
pub open spec fn atom_set(ik: Seq<EditNode>, newk: Seq<EditNode>, cc: Seq<u8>, bytes: Seq<u8>) -> bool {
    match find_first(ik, cc, 0) {
        Some(t) => newk.len() == ik.len() && (forall|j: int| 0 <= j < ik.len() && j != t ==> newk[j] == ik[j])
            && raw_node(newk[t], bytes),
        None => newk.len() == ik.len() + 1 && (forall|j: int| 0 <= j < ik.len() ==> newk[j] == ik[j])
            && raw_node(newk[ik.len() as int], bytes),
    }
}

pub(crate) fn take_kids(n: &mut EditNode) -> (r: Option<Vec<EditNode>>)
    ensures
        match node_kids(*old(n)) {
            Some(k) => r matches Some(v) && v@ == k && same_shell(*old(n), *final(n)) && node_kids(
                *final(n),
            ) == Some(Seq::<EditNode>::empty()),
            None => r is None && *final(n) == *old(n),
        },
{
    match &mut n.payload {
        Payload::Container { children, .. } => {
            let mut k: Vec<EditNode> = Vec::new();
            std::mem::swap(&mut k, children);
            Some(k)
        },
        _ => None,
    }
}

pub(crate) fn put_kids(n: &mut EditNode, kids: Vec<EditNode>)
    requires
        node_kids(*old(n)) is Some,
    ensures
        same_shell(*old(n), *final(n)),
        node_kids(*final(n)) == Some(kids@),
{
    match &mut n.payload {
        Payload::Container { children, .. } => {
            *children = kids;
        },
        _ => {},
    }
}

pub(crate) fn empty_container(typ: [u8; 4], version_flags: Option<(u8, u32)>) -> (r: EditNode)
    ensures
        fresh_shell(r, typ@, version_flags),
        node_kids(r) == Some(Seq::<EditNode>::empty()),
{
    EditNode {
        typ: FourCC(typ),
        uuid: None,
        header_form: HeaderForm::Compact,
        payload: Payload::Container {
            version_flags,
            prefix: Vec::new(),
            children: Vec::new(),
            suffix: Vec::new(),
        },
    }
}

fn set_in_ilst(ilst: &mut EditNode, cc: [u8; 4], bytes: &[u8]) -> (r: Result<(), EditError>)
    ensures
        r is Ok <==> node_kids(*old(ilst)) is Some && raw_error(bytes@) is None,
        r is Ok ==> same_shell(*old(ilst), *final(ilst)) && atom_set(
            node_kids(*old(ilst)).unwrap(),
            node_kids(*final(ilst)).unwrap(),
            cc@,
            bytes@,
        ) && node_kids(*final(ilst)) is Some,
        r matches Err(e) ==> if node_kids(*old(ilst)) is None {
            e == EditError::NotContainer
        } else {
            raw_error(bytes@) == Some(e)
        },
{
    if ilst.children().is_none() {
        return Err(EditError::NotContainer);
    }
    let atom = EditNode::from_raw(bytes)?;
    let mut k = match take_kids(ilst) {
        Some(k) => k,
        None => return Err(EditError::NotContainer),
    };
    let ghost k0 = k@;
    let klen = k.len();
    proof {
        assert(klen == k@.len());
        lemma_find_first(k@, cc@, 0);
    }
    match find_child(&k, cc) {
        Some(t) => {
            k.set(t, atom);
        },
        None => {
            k.push(atom);
        },
    }
    put_kids(ilst, k);
    Ok(())
}

fn set_in_meta(meta: &mut EditNode, cc: [u8; 4], bytes: &[u8]) -> (r: Result<(), EditError>)
    ensures
        r is Ok <==> node_kids(*old(meta)) is Some && level_ok(node_kids(*old(meta)).unwrap(), ilst_cc())
            && raw_error(bytes@) is None,
        r is Ok ==> ({
            let mk = node_kids(*old(meta)).unwrap();
            let nk = node_kids(*final(meta)).unwrap();
            let il = slot_of(mk, ilst_cc());
            &&& same_shell(*old(meta), *final(meta))
            &&& node_kids(*final(meta)) is Some
            &&& level_set(mk, nk, ilst_cc(), None)
            &&& node_kids(nk[il]) is Some
            &&& atom_set(base_kids(mk, ilst_cc()), node_kids(nk[il]).unwrap(), cc@, bytes@)
        }),
        r matches Err(e) ==> if node_kids(*old(meta)) is Some && level_ok(
            node_kids(*old(meta)).unwrap(),
            ilst_cc(),
        ) {
            raw_error(bytes@) == Some(e)
        } else {
            e == EditError::NotContainer
        },
{
    let mut k = match take_kids(meta) {
        Some(k) => k,
        None => return Err(EditError::NotContainer),
    };
    let ghost mk = k@;
    let ilst_t = [105u8, 108u8, 115u8, 116u8];
    proof {
        assert(ilst_t@ =~= ilst_cc());
        lemma_find_first(mk, ilst_cc(), 0);
    }
    let il = match find_child(&k, ilst_t) {
        Some(i) => i,
        None => {
            k.push(empty_container(ilst_t, None));
            k.len() - 1
        },
    };
    let ghost k1 = k@;
    let mut ilst = k.remove(il);
    let ghost before = ilst;
    let res = set_in_ilst(&mut ilst, cc, bytes);
    k.insert(il, ilst);
    proof {
        assert(k@ =~= k1.update(il as int, ilst));
    }
    put_kids(meta, k);
    res
}

/// The type of a node made from a plain box is the box's type.
proof fn lemma_raw_box_typ(n: EditNode, t: Seq<u8>, p: Seq<u8>)
    requires
        t.len() == 4,
        raw_node(n, box_bytes(t, p)),
    ensures
        n.typ.0@ == t,
{
    lemma_be_bytes_len(8 + p.len(), 4);
    assert(box_bytes(t, p).subrange(4, 8) =~= t);
}

#[verifier::spinoff_prover]
fn set_in_udta(udta: &mut EditNode, cc: [u8; 4], bytes: &[u8], hdlr: EditNode) -> (r: Result<
    (),
    EditError,
>)
    requires
        raw_node(hdlr, box_bytes(seq![104u8, 100u8, 108u8, 114u8], mdir_hdlr_payload())),
    ensures
        r is Ok <==> node_kids(*old(udta)) is Some && level_ok(node_kids(*old(udta)).unwrap(), meta_cc())
            && level_ok(base_kids(node_kids(*old(udta)).unwrap(), meta_cc()), ilst_cc()) && raw_error(
            bytes@,
        ) is None,
        r is Ok ==> ({
            let uk = node_kids(*old(udta)).unwrap();
            let nuk = node_kids(*final(udta)).unwrap();
            let im = slot_of(uk, meta_cc());
            let meta_found = find_first(uk, meta_cc(), 0) is Some;
            let nmk = node_kids(nuk[im]).unwrap();
            let metak0 = if meta_found {
                base_kids(uk, meta_cc())
            } else {
                nmk.take(1)
            };
            let il = slot_of(metak0, ilst_cc());
            &&& same_shell(*old(udta), *final(udta))
            &&& node_kids(*final(udta)) is Some
            &&& level_set(uk, nuk, meta_cc(), Some((0u8, 0u32)))
            &&& node_kids(nuk[im]) is Some
            &&& (!meta_found ==> nmk.len() >= 1 && raw_node(
                nmk[0],
                box_bytes(seq![104u8, 100u8, 108u8, 114u8], mdir_hdlr_payload()),
            ))
            &&& level_set(metak0, nmk, ilst_cc(), None)
            &&& node_kids(nmk[il]) is Some
            &&& atom_set(base_kids(metak0, ilst_cc()), node_kids(nmk[il]).unwrap(), cc@, bytes@)
        }),
        r matches Err(e) ==> if node_kids(*old(udta)) is Some && level_ok(
            node_kids(*old(udta)).unwrap(),
            meta_cc(),
        ) && level_ok(base_kids(node_kids(*old(udta)).unwrap(), meta_cc()), ilst_cc()) {
            raw_error(bytes@) == Some(e)
        } else {
            e == EditError::NotContainer
        },
{
    let mut k = match take_kids(udta) {
        Some(k) => k,
        None => return Err(EditError::NotContainer),
    };
    let ghost uk = k@;
    let meta_t = [109u8, 101u8, 116u8, 97u8];
    proof {
        assert(meta_t@ =~= meta_cc());
        lemma_find_first(uk, meta_cc(), 0);
    }
    let im = match find_child(&k, meta_t) {
        Some(i) => i,
        None => {
            let mut meta = empty_container(meta_t, Some((0, 0)));
            let mut mk: Vec<EditNode> = Vec::new();
            mk.push(hdlr);
            put_kids(&mut meta, mk);
            proof {
                lemma_raw_box_typ(hdlr, seq![104u8, 100u8, 108u8, 114u8], mdir_hdlr_payload());
                assert(hdlr.typ.0@ != ilst_cc());
                assert(node_kids(meta).unwrap() =~= seq![hdlr]);
                assert(find_first(node_kids(meta).unwrap(), ilst_cc(), 1) is None);
                assert(find_first(node_kids(meta).unwrap(), ilst_cc(), 0) is None);
                assert(node_kids(meta).unwrap().take(1) =~= node_kids(meta).unwrap());
                assert(find_first(node_kids(meta).unwrap(), ilst_cc(), 0) is None ==> base_kids(node_kids(meta).unwrap(), ilst_cc()) == Seq::<EditNode>::empty());
            }
            k.push(meta);
            k.len() - 1
        },
    };
    let ghost k1 = k@;
    let mut meta = k.remove(im);
    let ghost meta0 = meta;
    let res = set_in_meta(&mut meta, cc, bytes);
    k.insert(im, meta);
    proof {
        assert(k@ =~= k1.update(im as int, meta));
        let nuk = k@;
        let found = find_first(uk, meta_cc(), 0) is Some;
        if found {
            assert(k1 =~= uk);
            assert(meta0 == uk[im as int]);
            assert(node_kids(meta0) == node_kids(uk[im as int]));
        } else {
            assert(k1 =~= uk.push(meta0));
            assert(base_kids(uk, meta_cc()) =~= Seq::<EditNode>::empty());
            lemma_raw_box_typ(hdlr, seq![104u8, 100u8, 108u8, 114u8], mdir_hdlr_payload());
            assert(node_kids(meta0).unwrap() =~= seq![hdlr]);
            assert(find_first(node_kids(meta0).unwrap(), ilst_cc(), 1) is None);
            assert(find_first(node_kids(meta0).unwrap(), ilst_cc(), 0) is None);
            if res is Ok {
                let nmk = node_kids(meta).unwrap();
                assert(nmk[0] == hdlr);
                assert(nmk.take(1) =~= seq![hdlr]);
            }
        }
    }
    put_kids(udta, k);
    res
}

/// Finds or creates `udta/meta/ilst` under the `moov` node and sets the tag
/// atom in it (replacing the first atom of the tag's type, or appending).
pub fn set_tag_in_moov(moov: &mut EditNode, fourcc: &[u8; 4], value: &str) -> (r: Result<
    (),
    EditError,
>)
    requires
        value.spec_bytes().len() + 24 <= u64::MAX,
    ensures
        r is Ok <==> tag_path_ok(*old(moov)) && raw_error(spec_tag_atom(fourcc@, value.spec_bytes()))
            is None,
        r is Ok ==> tag_set(*old(moov), *final(moov), fourcc@, value.spec_bytes()),
        r matches Err(e) ==> if tag_path_ok(*old(moov)) {
            raw_error(spec_tag_atom(fourcc@, value.spec_bytes())) == Some(e)
        } else {
            e == EditError::NotContainer
        },
{
    let atom_bytes = build_tag_atom(fourcc, value);
    let hdlr_bytes = build_mdir_hdlr();
    proof {
        let hb = box_bytes(seq![104u8, 100u8, 108u8, 114u8], mdir_hdlr_payload());
        crate::util::lemma_be_bytes_len(33, 4);
        crate::util::lemma_be_bytes_value(hb.subrange(0, 4));
        assert(hb.subrange(0, 4) =~= be_bytes(33, 4));
        reveal_with_fuel(be_bytes, 5);
        assert(be_bytes(33, 4) =~= seq![0u8, 0u8, 0u8, 33u8]);
        reveal_with_fuel(crate::util::be_value, 5);
        assert(crate::util::be_value(seq![0u8, 0u8, 0u8, 33u8]) == 33);
        assert(hb.subrange(4, 8) =~= seq![104u8, 100u8, 108u8, 114u8]);
        assert(hb.len() == 33);
    }
    let hdlr = match EditNode::from_raw(hdlr_bytes.as_slice()) {
        Ok(h) => h,
        Err(e) => return Err(e),
    };
    let mut k = match take_kids(moov) {
        Some(k) => k,
        None => return Err(EditError::NotContainer),
    };
    let ghost mk = k@;
    let udta_t = [117u8, 100u8, 116u8, 97u8];
    proof {
        assert(udta_t@ =~= udta_cc());
        lemma_find_first(mk, udta_cc(), 0);
    }
    let klen = k.len();
    proof {
        assert(klen == k@.len());
    }
    let iu = match find_child(&k, udta_t) {
        Some(i) => i,
        None => {
            k.push(empty_container(udta_t, None));
            k.len() - 1
        },
    };
    let ghost k1 = k@;
    let mut udta = k.remove(iu);
    let ghost udta0 = udta;
    let res = set_in_udta(&mut udta, *fourcc, atom_bytes.as_slice(), hdlr);
    k.insert(iu, udta);
    proof {
        assert(k@ =~= k1.update(iu as int, udta));
        let found = find_first(mk, udta_cc(), 0) is Some;
        if found {
            assert(k1 =~= mk);
            assert(udta0 == mk[iu as int]);
        } else {
            assert(k1 =~= mk.push(udta0));
            assert(base_kids(mk, udta_cc()) =~= Seq::<EditNode>::empty());
            assert(node_kids(udta0).unwrap() =~= Seq::<EditNode>::empty());
        }
    }
    put_kids(moov, k);
    res
}

} // verus!
