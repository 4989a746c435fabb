//! Chunk-offset fixup: after layout, every `stco`/`co64` entry is remapped
//! through the extent map, the exact record of where each source byte range
//! lands in the output. Offsets into data that didn't move are unchanged,
//! offsets into moved data shift by exactly that extent's delta.

use vstd::prelude::*;
use crate::util::{be_at, be_bytes, copy_range, read_be, write_be, lemma_be_value_bound, lemma_pow256_values};
use super::tree::{
    EditNode, EditTree, Extent, ExtentMapping, Payload, spec_node_size, spec_payload_len, kids_size,
    spec_header_len, map_identity, node_same, kids_same, lemma_node_same_refl,
};
use super::EditError;

verus! {

/// Counts of the chunk-offset entries looked at by a fixup pass.
#[derive(Debug, Clone, Copy, PartialEq, Eq, Structural)]
pub struct FixupStats {
    /// Entries rewritten to a new value.
    pub entries_adjusted: usize,
    /// Entries pointing at bytes that no longer exist in the output (e.g.
    /// data inside a removed box), or whose new value does not fit a
    /// 32-bit `stco` entry; left unchanged.
    pub entries_unmapped: usize,
}

impl Default for FixupStats {
    fn default() -> (r: FixupStats)
        ensures
            r.entries_adjusted == 0 && r.entries_unmapped == 0,
    {
        FixupStats { entries_adjusted: 0, entries_unmapped: 0 }
    }
}

// ---------- offset remapping ----------

/// Index of the mapping, among the first `i`, with the greatest source
/// offset not past `old` (the later one on ties), if any.
pub open spec fn pick(map: Seq<ExtentMapping>, old: int, i: int) -> Option<int>
    decreases i,
    when 0 <= i <= map.len()
{
    if i <= 0 {
        None
    } else {
        let prev = pick(map, old, i - 1);
        let m = map[i - 1];
        if m.old_offset <= old && (prev is None || map[prev.unwrap()].old_offset <= m.old_offset) {
            Some(i - 1)
        } else {
            prev
        }
    }
}

/// The output offset of source offset `old`: found through the mapping
/// with the greatest source offset not past `old`, if its extent contains
/// `old`.
pub open spec fn spec_remap(map: Seq<ExtentMapping>, old: int) -> Option<u64> {
    match pick(map, old, map.len() as int) {
        Some(j) => if old < map[j].old_offset + map[j].len {
            Some((map[j].new_offset + (old - map[j].old_offset)) as u64)
        } else {
            None
        },
        None => None,
    }
}

/// Every mapped extent ends inside the 64-bit range of the output.
pub open spec fn map_fits(map: Seq<ExtentMapping>) -> bool {
    forall|i: int| 0 <= i < map.len() ==> (#[trigger] map[i]).new_offset + map[i].len <= u64::MAX
}

/// Maps a source offset to its output offset via the extent that contains
/// it.
pub fn remap_offset(old: u64, map: &[ExtentMapping]) -> (r: Option<u64>)
    requires
        map_fits(map@),
    ensures
        r == spec_remap(map@, old as int),
{
    let mut best: Option<usize> = None;
    let mut i: usize = 0;
    while i < map.len()
        invariant
            i <= map@.len(),
            best matches Some(b) ==> b < i,
            (match best {
                Some(b) => Some(b as int),
                None => None,
            }) == pick(map@, old as int, i as int),
        decreases map@.len() - i,
    {
        let m = map[i];
        let take = m.old_offset <= old && match best {
            None => true,
            Some(b) => map[b].old_offset <= m.old_offset,
        };
        if take {
            best = Some(i);
        }
        i = i + 1;
    }
    proof {
        lemma_pick(map@, old as int, map@.len() as int);
    }
    match best {
        None => None,
        Some(b) => {
            let m = map[b];
            assert(m.new_offset + m.len <= u64::MAX);
            if old - m.old_offset < m.len {
                Some(m.new_offset + (old - m.old_offset))
            } else {
                None
            }
        },
    }
}

/// What `pick` finds.
pub proof fn lemma_pick(map: Seq<ExtentMapping>, old: int, i: int)
    requires
        0 <= i <= map.len(),
    ensures
        pick(map, old, i) matches Some(j) ==> 0 <= j < i && map[j].old_offset <= old && forall|t: int|
            0 <= t < i && map[t].old_offset <= old ==> map[t].old_offset <= map[j].old_offset,
        pick(map, old, i) is None ==> forall|t: int| 0 <= t < i ==> map[t].old_offset > old,
    decreases i,
{
    if i > 0 {
        lemma_pick(map, old, i - 1);
    }
}

/// Extents of the source that neither overlap nor start at the same
/// offset.
pub open spec fn disjoint_extents(map: Seq<ExtentMapping>) -> bool {
    forall|a: int, b: int|
        0 <= a < map.len() && 0 <= b < map.len() && a != b ==> (#[trigger] map[a]).old_offset
            != (#[trigger] map[b]).old_offset && (map[a].old_offset + map[a].len <= map[b].old_offset
            || map[b].old_offset + map[b].len <= map[a].old_offset)
}

/// With disjoint extents, an offset inside an extent moves with it: it
/// lands at the extent's new offset plus its distance from the extent's
/// start.
pub proof fn lemma_remap_inside(map: Seq<ExtentMapping>, k: int, old: int)
    requires
        disjoint_extents(map),
        0 <= k < map.len(),
        map[k].old_offset <= old < map[k].old_offset + map[k].len,
    ensures
        spec_remap(map, old) == Some((map[k].new_offset + (old - map[k].old_offset)) as u64),
{
    lemma_pick(map, old, map.len() as int);
    let j = pick(map, old, map.len() as int).unwrap();
    if j != k {
        assert(map[k].old_offset <= map[j].old_offset);
        assert(map[k].old_offset != map[j].old_offset);
    }
}

// ---------- chunk-offset tables ----------

/// Width of one entry: 8 bytes in `co64`, 4 in `stco`.
pub open spec fn slot_width(co64: bool) -> int {
    if co64 {
        8
    } else {
        4
    }
}

/// Offset of entry `i` in the payload (after version, flags and count).
pub open spec fn slot_at(co64: bool, i: int) -> int {
    if co64 {
        8 + 8 * i
    } else {
        8 + 4 * i
    }
}

/// Number of entries looked at: the declared count, cut short where the
/// payload ends.
pub open spec fn slot_count(p: Seq<u8>, co64: bool) -> int {
    if p.len() < 8 {
        0
    } else {
        let fit = if co64 {
            (p.len() - 8) / 8
        } else {
            (p.len() - 8) / 4
        };
        if be_at(p, 4, 4) < fit {
            be_at(p, 4, 4) as int
        } else {
            fit
        }
    }
}

/// The value stored in entry `i`.
pub open spec fn slot_value(p: Seq<u8>, co64: bool, i: int) -> nat {
    be_at(p, slot_at(co64, i), slot_width(co64))
}

/// What happens to an entry.
pub enum SlotFate {
    /// Its value is kept as is.
    Kept,
    /// It is rewritten to this value.
    Adjusted(u64),
    /// Its offset points at no extent, or its new value does not fit.
    Unmapped,
}

pub open spec fn slot_fate(p: Seq<u8>, map: Seq<ExtentMapping>, co64: bool, i: int) -> SlotFate {
    let old = slot_value(p, co64, i);
    match spec_remap(map, old as int) {
        None => SlotFate::Unmapped,
        Some(new) => if new == old {
            SlotFate::Kept
        } else if co64 || new <= u32::MAX {
            SlotFate::Adjusted(new)
        } else {
            SlotFate::Unmapped
        },
    }
}

/// Number of the first `i` entries that are adjusted.
pub open spec fn count_adjusted(p: Seq<u8>, map: Seq<ExtentMapping>, co64: bool, i: int) -> nat
    decreases i,
{
    if i <= 0 {
        0
    } else {
        count_adjusted(p, map, co64, i - 1) + if slot_fate(p, map, co64, i - 1) is Adjusted {
            1nat
        } else {
            0nat
        }
    }
}

/// Number of the first `i` entries that are unmapped.
pub open spec fn count_unmapped(p: Seq<u8>, map: Seq<ExtentMapping>, co64: bool, i: int) -> nat
    decreases i,
{
    if i <= 0 {
        0
    } else {
        count_unmapped(p, map, co64, i - 1) + if slot_fate(p, map, co64, i - 1) is Unmapped {
            1nat
        } else {
            0nat
        }
    }
}

pub proof fn lemma_counts_mono(p: Seq<u8>, map: Seq<ExtentMapping>, co64: bool, i: int, j: int)
    requires
        0 <= i <= j,
    ensures
        count_adjusted(p, map, co64, i) <= count_adjusted(p, map, co64, j),
        count_unmapped(p, map, co64, i) <= count_unmapped(p, map, co64, j),
    decreases j - i,
{
    if i < j {
        lemma_counts_mono(p, map, co64, i, j - 1);
    }
}

/// `out` is the payload `p` with every adjusted entry rewritten and every
/// other byte kept.
pub open spec fn patched(p: Seq<u8>, out: Seq<u8>, map: Seq<ExtentMapping>, co64: bool) -> bool {
    let n = slot_count(p, co64);
    &&& out.len() == p.len()
    &&& forall|i: int|
        0 <= i < n ==> #[trigger] out.subrange(slot_at(co64, i), slot_at(co64, i) + slot_width(co64))
            == match slot_fate(p, map, co64, i) {
            SlotFate::Adjusted(new) => be_bytes(new as nat, slot_width(co64) as nat),
            _ => p.subrange(slot_at(co64, i), slot_at(co64, i) + slot_width(co64)),
        }
    &&& forall|k: int| 0 <= k < p.len() && (k < 8 || k >= slot_at(co64, n)) ==> out[k] == p[k]
}

/// Remaps the entries of a `stco` (4-byte) or `co64` (8-byte) payload:
/// version(1) flags(3) entry_count(4), then the entries. Returns the
/// patched payload, or `None` when nothing changed.
pub fn remap_entries(
    payload: Vec<u8>,
    is_co64: bool,
    map: &[ExtentMapping],
    stats: &mut FixupStats,
) -> (r: Option<Vec<u8>>)
    requires
        map_fits(map@),
        old(stats).entries_adjusted + count_adjusted(payload@, map@, is_co64, slot_count(payload@, is_co64)) <= usize::MAX,
        old(stats).entries_unmapped + count_unmapped(payload@, map@, is_co64, slot_count(payload@, is_co64)) <= usize::MAX,
    ensures
        final(stats).entries_adjusted == old(stats).entries_adjusted + count_adjusted(
            payload@,
            map@,
            is_co64,
            slot_count(payload@, is_co64),
        ),
        final(stats).entries_unmapped == old(stats).entries_unmapped + count_unmapped(
            payload@,
            map@,
            is_co64,
            slot_count(payload@, is_co64),
        ),
        r is Some <==> count_adjusted(payload@, map@, is_co64, slot_count(payload@, is_co64)) > 0,
        r matches Some(out) ==> patched(payload@, out@, map@, is_co64),
{
    let ghost p = payload@;
    let len = payload.len();
    if len < 8 {
        return None;
    }
    let entry_count = read_be(payload.as_slice(), 4, 4);
    let width: u64 = if is_co64 {
        8
    } else {
        4
    };
    let mut out = payload;
    let mut changed = false;
    let mut i: u64 = 0;
    let ghost n = slot_count(p, is_co64);
    proof {
        lemma_be_value_bound(p.subrange(4, 8));
        lemma_pow256_values();
    }
    while i < entry_count
        invariant
            len == p.len(),
            8 <= len,
            entry_count == be_at(p, 4, 4),
            entry_count <= u32::MAX,
            width == slot_width(is_co64),
            n == slot_count(p, is_co64),
            i <= n,
            map_fits(map@),
            out@.len() == p.len(),
            forall|j: int|
                0 <= j < i ==> #[trigger] out@.subrange(slot_at(is_co64, j), slot_at(is_co64, j) + slot_width(is_co64))
                    == match slot_fate(p, map@, is_co64, j) {
                    SlotFate::Adjusted(new) => be_bytes(new as nat, slot_width(is_co64) as nat),
                    _ => p.subrange(slot_at(is_co64, j), slot_at(is_co64, j) + slot_width(is_co64)),
                },
            forall|k: int| 0 <= k < p.len() && (k < 8 || k >= slot_at(is_co64, i as int)) ==> out@[k] == p[k],
            stats.entries_adjusted == old(stats).entries_adjusted + count_adjusted(p, map@, is_co64, i as int),
            stats.entries_unmapped == old(stats).entries_unmapped + count_unmapped(p, map@, is_co64, i as int),
            old(stats).entries_adjusted + count_adjusted(p, map@, is_co64, n) <= usize::MAX,
            old(stats).entries_unmapped + count_unmapped(p, map@, is_co64, n) <= usize::MAX,
            changed == (count_adjusted(p, map@, is_co64, i as int) > 0),
        ensures
            i == n,
            out@.len() == p.len(),
            forall|j: int|
                0 <= j < i ==> #[trigger] out@.subrange(slot_at(is_co64, j), slot_at(is_co64, j) + slot_width(is_co64))
                    == match slot_fate(p, map@, is_co64, j) {
                    SlotFate::Adjusted(new) => be_bytes(new as nat, slot_width(is_co64) as nat),
                    _ => p.subrange(slot_at(is_co64, j), slot_at(is_co64, j) + slot_width(is_co64)),
                },
            forall|k: int| 0 <= k < p.len() && (k < 8 || k >= slot_at(is_co64, i as int)) ==> out@[k] == p[k],
            stats.entries_adjusted == old(stats).entries_adjusted + count_adjusted(p, map@, is_co64, i as int),
            stats.entries_unmapped == old(stats).entries_unmapped + count_unmapped(p, map@, is_co64, i as int),
            changed == (count_adjusted(p, map@, is_co64, i as int) > 0),
        decreases entry_count - i,
    {
        let at = if is_co64 {
            8 + 8 * i
        } else {
            8 + 4 * i
        };
        if at + width > len as u64 {
            break;
        }
        let at = at as usize;
        let w = width as usize;
        proof {
            assert(out@.subrange(at as int, at + w) =~= p.subrange(at as int, at + w));
        }
        let old_v = read_be(out.as_slice(), at, w);
        assert(old_v == slot_value(p, is_co64, i as int));
        let ghost before = out@;
        proof {
            lemma_counts_mono(p, map@, is_co64, i + 1, n);
        }
        match remap_offset(old_v, map) {
            None => {
                stats.entries_unmapped = stats.entries_unmapped + 1;
            },
            Some(new) => {
                if new != old_v {
                    if is_co64 {
                        write_be(&mut out, at, new, 8);
                        stats.entries_adjusted = stats.entries_adjusted + 1;
                        changed = true;
                    } else if new <= 0xffff_ffffu64 {
                        write_be(&mut out, at, new, 4);
                        stats.entries_adjusted = stats.entries_adjusted + 1;
                        changed = true;
                    } else {
                        stats.entries_unmapped = stats.entries_unmapped + 1;
                    }
                }
            },
        }
        proof {
            assert forall|j: int| 0 <= j < i + 1 implies #[trigger] out@.subrange(
                slot_at(is_co64, j),
                slot_at(is_co64, j) + slot_width(is_co64),
            ) == match slot_fate(p, map@, is_co64, j) {
                SlotFate::Adjusted(new) => be_bytes(new as nat, slot_width(is_co64) as nat),
                _ => p.subrange(slot_at(is_co64, j), slot_at(is_co64, j) + slot_width(is_co64)),
            } by {
                if j < i {
                    assert(out@.subrange(slot_at(is_co64, j), slot_at(is_co64, j) + slot_width(is_co64))
                        =~= before.subrange(slot_at(is_co64, j), slot_at(is_co64, j) + slot_width(is_co64)));
                } else {
                    if !(slot_fate(p, map@, is_co64, j) is Adjusted) {
                        assert(out@.subrange(slot_at(is_co64, j), slot_at(is_co64, j) + slot_width(is_co64))
                            =~= before.subrange(slot_at(is_co64, j), slot_at(is_co64, j) + slot_width(is_co64)));
                    }
                }
            }
        }
        i = i + 1;
    }
    if changed {
        Some(out)
    } else {
        None
    }
}

pub proof fn lemma_counts_bound(p: Seq<u8>, map: Seq<ExtentMapping>, co64: bool, i: int)
    requires
        0 <= i,
    ensures
        count_adjusted(p, map, co64, i) <= i,
        count_unmapped(p, map, co64, i) <= i,
    decreases i,
{
    if i > 0 {
        lemma_counts_bound(p, map, co64, i - 1);
    }
}

// ---------- the tree pass ----------

/// `Some(co64)` for a chunk-offset table (`stco`, or `co64` when true).
pub open spec fn chunk_kind(n: EditNode) -> Option<bool> {
    if n.typ.0@ == seq![115u8, 116u8, 99u8, 111u8] {
        Some(false)
    } else if n.typ.0@ == seq![99u8, 111u8, 54u8, 52u8] {
        Some(true)
    } else {
        None
    }
}

/// `n` is `o` after the fixup pass: a chunk-offset table held as an
/// extent becomes the patched bytes when some entry changed, containers
/// are fixed child by child, everything else is kept.
pub open spec fn node_fixed(o: EditNode, n: EditNode, src: Seq<u8>, map: Seq<ExtentMapping>) -> bool
    decreases o, 1int,
{
    &&& n.typ == o.typ
    &&& n.uuid == o.uuid
    &&& n.header_form == o.header_form
    &&& match chunk_kind(o) {
        Some(co64) => match o.payload {
            Payload::Extent(e) => {
                let p = src.subrange(e.offset as int, e.offset + e.len);
                if count_adjusted(p, map, co64, slot_count(p, co64)) > 0 {
                    n.payload matches Payload::Bytes(b) && patched(p, b@, map, co64)
                } else {
                    n.payload == o.payload
                }
            },
            _ => n.payload == o.payload,
        },
        None => match o.payload {
            Payload::Container { version_flags, prefix, children, suffix } => n.payload matches Payload::Container {
                version_flags: v2,
                prefix: p2,
                children: c2,
                suffix: s2,
            } && v2 == version_flags && p2 == prefix && s2 == suffix && c2@.len() == children@.len()
                && kids_fixed(children@, c2@, children@.len() as int, src, map),
            _ => n.payload == o.payload,
        },
    }
}

/// The first `i` nodes of `ns` are the first `i` of `os` after the pass.
pub open spec fn kids_fixed(os: Seq<EditNode>, ns: Seq<EditNode>, i: int, src: Seq<u8>, map: Seq<ExtentMapping>) -> bool
    decreases os, i,
    when 0 <= i <= os.len()
{
    if i <= 0 {
        true
    } else {
        kids_fixed(os, ns, i - 1, src, map) && i <= ns.len() && node_fixed(os[i - 1], ns[i - 1], src, map)
    }
}

/// Every chunk-offset table held as an extent lies inside the source.
pub open spec fn node_fixable(o: EditNode, len: nat) -> bool
    decreases o, 1int,
{
    match chunk_kind(o) {
        Some(_) => match o.payload {
            Payload::Extent(e) => e.offset + e.len <= len,
            _ => true,
        },
        None => match o.payload {
            Payload::Container { children, .. } => kids_fixable(children@, children@.len() as int, len),
            _ => true,
        },
    }
}

pub open spec fn kids_fixable(os: Seq<EditNode>, i: int, len: nat) -> bool
    decreases os, i,
    when 0 <= i <= os.len()
{
    if i <= 0 {
        true
    } else {
        kids_fixable(os, i - 1, len) && node_fixable(os[i - 1], len)
    }
}

/// Entries adjusted and left unmapped by the pass over a node.
pub open spec fn node_counts(o: EditNode, src: Seq<u8>, map: Seq<ExtentMapping>) -> (nat, nat)
    decreases o, 1int,
{
    match chunk_kind(o) {
        Some(co64) => match o.payload {
            Payload::Extent(e) => {
                let p = src.subrange(e.offset as int, e.offset + e.len);
                (
                    count_adjusted(p, map, co64, slot_count(p, co64)),
                    count_unmapped(p, map, co64, slot_count(p, co64)),
                )
            },
            _ => (0, 0),
        },
        None => match o.payload {
            Payload::Container { children, .. } => kids_counts(children@, children@.len() as int, src, map),
            _ => (0, 0),
        },
    }
}

pub open spec fn kids_counts(os: Seq<EditNode>, i: int, src: Seq<u8>, map: Seq<ExtentMapping>) -> (nat, nat)
    decreases os, i,
    when 0 <= i <= os.len()
{
    if i <= 0 {
        (0, 0)
    } else {
        let a = kids_counts(os, i - 1, src, map);
        let b = node_counts(os[i - 1], src, map);
        ((a.0 + b.0) as nat, (a.1 + b.1) as nat)
    }
}

pub proof fn lemma_kids_fix_mono(os: Seq<EditNode>, i: int, j: int, src: Seq<u8>, map: Seq<ExtentMapping>, len: nat)
    requires
        0 <= i < j <= os.len(),
    ensures
        kids_fixable(os, j, len) ==> kids_fixable(os, i, len) && node_fixable(os[i], len),
        kids_counts(os, i, src, map).0 + node_counts(os[i], src, map).0 <= kids_counts(os, j, src, map).0,
        kids_counts(os, i, src, map).1 + node_counts(os[i], src, map).1 <= kids_counts(os, j, src, map).1,
    decreases j - i,
{
    if i + 1 < j {
        lemma_kids_fix_mono(os, i, j - 1, src, map, len);
    }
}

/// The pass keeps every node's size: patched tables are exactly as long as
/// the extents they replace, so the layout computed before the pass stays
/// valid after it.
pub proof fn lemma_fixed_size(o: EditNode, n: EditNode, src: Seq<u8>, map: Seq<ExtentMapping>)
    requires
        node_fixed(o, n, src, map),
        node_fixable(o, src.len()),
    ensures
        spec_payload_len(n) == spec_payload_len(o),
        spec_node_size(n) == spec_node_size(o),
    decreases o, 1int,
{
    match chunk_kind(o) {
        Some(co64) => {},
        None => match o.payload {
            Payload::Container { version_flags, prefix, children, suffix } => match n.payload {
                Payload::Container { children: c2, .. } => {
                    lemma_kids_fixed_size(children@, c2@, children@.len() as int, src, map);
                },
                _ => {},
            },
            _ => {},
        },
    }
}

pub proof fn lemma_kids_fixed_size(os: Seq<EditNode>, ns: Seq<EditNode>, i: int, src: Seq<u8>, map: Seq<ExtentMapping>)
    requires
        0 <= i <= os.len(),
        kids_fixed(os, ns, i, src, map),
        kids_fixable(os, i, src.len()),
    ensures
        kids_size(ns, i) == kids_size(os, i),
    decreases os, i,
{
    if i > 0 {
        lemma_kids_fixed_size(os, ns, i - 1, src, map);
        lemma_fixed_size(os[i - 1], ns[i - 1], src, map);
    }
}

fn chunk_kind_of(n: &EditNode) -> (r: Option<bool>)
    ensures
        r == chunk_kind(*n),
{
    if n.typ.equals([115u8, 116u8, 99u8, 111u8]) {
        proof {
            assert(seq![115u8, 116u8, 99u8, 111u8] =~= [115u8, 116u8, 99u8, 111u8]@);
        }
        Some(false)
    } else if n.typ.equals([99u8, 111u8, 54u8, 52u8]) {
        proof {
            assert(seq![115u8, 116u8, 99u8, 111u8] =~= [115u8, 116u8, 99u8, 111u8]@);
            assert(seq![99u8, 111u8, 54u8, 52u8] =~= [99u8, 111u8, 54u8, 52u8]@);
        }
        Some(true)
    } else {
        proof {
            assert(seq![115u8, 116u8, 99u8, 111u8] =~= [115u8, 116u8, 99u8, 111u8]@);
            assert(seq![99u8, 111u8, 54u8, 52u8] =~= [99u8, 111u8, 54u8, 52u8]@);
        }
        None
    }
}

#[verifier::loop_isolation(false)]
fn fix_node(src: &[u8], node: EditNode, map: &[ExtentMapping], stats: &mut FixupStats) -> (r: Result<
    EditNode,
    EditError,
>)
    requires
        map_fits(map@),
    ensures
        r is Ok <==> node_fixable(node, src@.len()) && old(stats).entries_adjusted + node_counts(
            node,
            src@,
            map@,
        ).0 <= usize::MAX && old(stats).entries_unmapped + node_counts(node, src@, map@).1
            <= usize::MAX,
        r matches Ok(n) ==> node_fixed(node, n, src@, map@) && final(stats).entries_adjusted == old(
            stats,
        ).entries_adjusted + node_counts(node, src@, map@).0 && final(stats).entries_unmapped == old(
            stats,
        ).entries_unmapped + node_counts(node, src@, map@).1,
        r matches Err(e) ==> e == EditError::ExtentOutOfRange || e == EditError::TooManyEntries,
    decreases node,
{
    let blen = src.len();
    proof {
        assert(blen == src@.len());
    }
    match chunk_kind_of(&node) {
        Some(co64) => {
            match &node.payload {
                Payload::Extent(e) => {
                    if e.offset > blen as u64 || e.len > blen as u64 - e.offset {
                        return Err(EditError::ExtentOutOfRange);
                    }
                    let bytes = copy_range(src, e.offset as usize, (e.offset + e.len) as usize);
                    let ghost p = bytes@;
                    let plen = bytes.len();
                    proof {
                        assert(plen == p.len());
                        lemma_counts_bound(p, map@, co64, slot_count(p, co64));
                    }
                    let mut local = FixupStats::default();
                    let res = remap_entries(bytes, co64, map, &mut local);
                    if local.entries_adjusted > usize::MAX - stats.entries_adjusted
                        || local.entries_unmapped > usize::MAX - stats.entries_unmapped {
                        return Err(EditError::TooManyEntries);
                    }
                    stats.entries_adjusted = stats.entries_adjusted + local.entries_adjusted;
                    stats.entries_unmapped = stats.entries_unmapped + local.entries_unmapped;
                    match res {
                        Some(patched_bytes) => Ok(
                            EditNode {
                                typ: node.typ,
                                uuid: node.uuid,
                                header_form: node.header_form,
                                payload: Payload::Bytes(patched_bytes),
                            },
                        ),
                        None => Ok(node),
                    }
                },
                _ => Ok(node),
            }
        },
        None => {
            let ghost node0 = node;
            let EditNode { typ, uuid, header_form, payload } = node;
            match payload {
                Payload::Container { version_flags, prefix, children, suffix } => {
                    let ghost old_kids = children@;
                    let ghost kids_vec = children;
                    proof {
                        assert(node_counts(node0, src@, map@) == kids_counts(old_kids, old_kids.len() as int, src@, map@));
                        assert(node_fixable(node0, src@.len()) == kids_fixable(old_kids, old_kids.len() as int, src@.len()));
                    }
                    let mut rest = children;
                    let mut fixed: Vec<EditNode> = Vec::new();
                    let mut i: usize = 0;
                    let n = rest.len();
                    let ghost st0 = *stats;
                    while rest.len() > 0
                        invariant
                            n == old_kids.len(),
                            rest@.len() + i == n,
                            i <= n,
                            forall|j: int| 0 <= j < rest@.len() ==> rest@[j] == old_kids[i + j],
                            fixed@.len() == i,
                            kids_fixed(old_kids, fixed@, i as int, src@, map@),
                            kids_fixable(old_kids, i as int, src@.len()),
                            stats.entries_adjusted == st0.entries_adjusted + kids_counts(old_kids, i as int, src@, map@).0,
                            stats.entries_unmapped == st0.entries_unmapped + kids_counts(old_kids, i as int, src@, map@).1,
                            map_fits(map@),
                            blen == src@.len(),
                            node0.payload matches Payload::Container { children: cv, .. } && cv == kids_vec,
                            kids_vec@ == old_kids,
                            node_counts(node0, src@, map@) == kids_counts(old_kids, old_kids.len() as int, src@, map@),
                            node_fixable(node0, src@.len()) == kids_fixable(old_kids, old_kids.len() as int, src@.len()),
                        decreases rest@.len(),
                    {
                        let c = rest.remove(0);
                        assert(c == old_kids[i as int]);
                        proof {
                            assert(node0.payload matches Payload::Container { children: cv, .. } && cv == kids_vec);
                            assert(decreases_to!(node0 => node0.payload));
                            assert(decreases_to!(node0.payload => kids_vec));
                            assert(decreases_to!(kids_vec => kids_vec@));
                            assert(decreases_to!(kids_vec@ => kids_vec@[i as int]));
                            assert(decreases_to!(node0 => old_kids[i as int]));
                            assert(decreases_to!(node0 => c));
                        }
                        let res = fix_node(src, c, map, stats);
                        match res {
                            Ok(fc) => {
                                let ghost before = fixed@;
                                fixed.push(fc);
                                proof {
                                    assert forall|j: int| 0 <= j < i implies fixed@[j] == before[j] by {}
                                    lemma_kids_fixed_ext(old_kids, before, fixed@, i as int, src@, map@);
                                }
                            },
                            Err(e) => {
                                proof {
                                    lemma_kids_fix_mono(old_kids, i as int, n as int, src@, map@, src@.len());
                                }
                                return Err(e);
                            },
                        }
                        i = i + 1;
                    }
                    Ok(
                        EditNode {
                            typ,
                            uuid,
                            header_form,
                            payload: Payload::Container { version_flags, prefix, children: fixed, suffix },
                        },
                    )
                },
                other => Ok(EditNode { typ, uuid, header_form, payload: other }),
            }
        },
    }
}

pub proof fn lemma_kids_fixed_ext(os: Seq<EditNode>, a: Seq<EditNode>, b: Seq<EditNode>, i: int, src: Seq<u8>, map: Seq<ExtentMapping>)
    requires
        0 <= i <= os.len(),
        i <= a.len(),
        i <= b.len(),
        forall|j: int| 0 <= j < i ==> a[j] == b[j],
        kids_fixed(os, a, i, src, map),
    ensures
        kids_fixed(os, b, i, src, map),
    decreases i,
{
    if i > 0 {
        lemma_kids_fixed_ext(os, a, b, i - 1, src, map);
    }
}

/// `n` is the tree `o` after the fixup pass.
pub open spec fn tree_fixed(o: EditTree, n: EditTree, src: Seq<u8>, map: Seq<ExtentMapping>) -> bool {
    &&& n.roots@.len() == o.roots@.len()
    &&& kids_fixed(o.roots@, n.roots@, o.roots@.len() as int, src, map)
    &&& n.trailing == o.trailing
}

/// Remaps every `stco`/`co64` entry of the tree through the extent map.
/// Tables whose entries change are turned from extents into in-memory
/// bytes of the same length, so the layout stays valid. Fails when a table
/// lies outside `src` or the counts overflow.
#[verifier::loop_isolation(false)]
pub fn fix_chunk_offsets(src: &[u8], tree: &mut EditTree, map: &[ExtentMapping]) -> (r: Result<
    FixupStats,
    EditError,
>)
    requires
        map_fits(map@),
    ensures
        r is Ok <==> kids_fixable(old(tree).roots@, old(tree).roots@.len() as int, src@.len())
            && kids_counts(old(tree).roots@, old(tree).roots@.len() as int, src@, map@).0 <= usize::MAX
            && kids_counts(old(tree).roots@, old(tree).roots@.len() as int, src@, map@).1 <= usize::MAX,
        r matches Ok(st) ==> tree_fixed(*old(tree), *final(tree), src@, map@) && st.entries_adjusted
            == kids_counts(old(tree).roots@, old(tree).roots@.len() as int, src@, map@).0
            && st.entries_unmapped == kids_counts(old(tree).roots@, old(tree).roots@.len() as int, src@, map@).1,
        r matches Err(e) ==> e == EditError::ExtentOutOfRange || e == EditError::TooManyEntries,
{
    let ghost old_roots = tree.roots@;
    let mut rest: Vec<EditNode> = Vec::new();
    std::mem::swap(&mut rest, &mut tree.roots);
    let mut stats = FixupStats::default();
    let mut fixed: Vec<EditNode> = Vec::new();
    let mut i: usize = 0;
    let n = rest.len();
    while rest.len() > 0
        invariant
            n == old_roots.len(),
            rest@.len() + i == n,
            forall|j: int| 0 <= j < rest@.len() ==> rest@[j] == old_roots[i + j],
            fixed@.len() == i,
            kids_fixed(old_roots, fixed@, i as int, src@, map@),
            kids_fixable(old_roots, i as int, src@.len()),
            stats.entries_adjusted == kids_counts(old_roots, i as int, src@, map@).0,
            stats.entries_unmapped == kids_counts(old_roots, i as int, src@, map@).1,
        decreases rest@.len(),
    {
        let c = rest.remove(0);
        assert(c == old_roots[i as int]);
        let res = fix_node(src, c, map, &mut stats);
        match res {
            Ok(fc) => {
                let ghost before = fixed@;
                fixed.push(fc);
                proof {
                    assert forall|j: int| 0 <= j < i implies fixed@[j] == before[j] by {}
                    lemma_kids_fixed_ext(old_roots, before, fixed@, i as int, src@, map@);
                }
            },
            Err(e) => {
                proof {
                    lemma_kids_fix_mono(old_roots, i as int, n as int, src@, map@, src@.len());
                }
                return Err(e);
            },
        }
        i = i + 1;
    }
    tree.roots = fixed;
    Ok(stats)
}

// ---------- when nothing moved ----------

proof fn lemma_slot_in_range(p: Seq<u8>, co64: bool, i: int)
    requires
        0 <= i < slot_count(p, co64),
    ensures
        0 <= slot_at(co64, i),
        slot_at(co64, i) + slot_width(co64) <= p.len(),
{
    let len = p.len() as int;
    if co64 {
        let fit = (len - 8) / 8;
        assert(8 + 8 * i + 8 <= len) by (nonlinear_arith)
            requires
                0 <= i < fit,
                fit == (len - 8) / 8,
                len >= 8,
        ;
    } else {
        let fit = (len - 8) / 4;
        assert(8 + 4 * i + 4 <= len) by (nonlinear_arith)
            requires
                0 <= i < fit,
                fit == (len - 4 - 4) / 4,
                len >= 8,
        ;
    }
}

proof fn lemma_identity_no_adjusted(p: Seq<u8>, map: Seq<ExtentMapping>, co64: bool, i: int)
    requires
        map_identity(map),
        0 <= i <= slot_count(p, co64),
    ensures
        count_adjusted(p, map, co64, i) == 0,
    decreases i,
{
    if i > 0 {
        lemma_identity_no_adjusted(p, map, co64, i - 1);
        lemma_slot_in_range(p, co64, i - 1);
        let w = slot_width(co64);
        let at = slot_at(co64, i - 1);
        lemma_be_value_bound(p.subrange(at, at + w));
        lemma_pow256_values();
        let old = slot_value(p, co64, i - 1);
        assert(old <= u64::MAX);
        match pick(map, old as int, map.len() as int) {
            Some(j) => {
                lemma_pick_range(map, old as int, map.len() as int);
                assert(map[j].new_offset == map[j].old_offset);
            },
            None => {},
        }
    }
}

proof fn lemma_pick_range(map: Seq<ExtentMapping>, old: int, i: int)
    requires
        0 <= i <= map.len(),
    ensures
        pick(map, old, i) matches Some(j) ==> 0 <= j < i && map[j].old_offset <= old,
    decreases i,
{
    if i > 0 {
        lemma_pick_range(map, old, i - 1);
    }
}

/// With nothing moved, the fixup pass rewrites no entry and leaves the
/// node as it was.
pub proof fn lemma_identity_node_kept(o: EditNode, n: EditNode, src: Seq<u8>, map: Seq<ExtentMapping>)
    requires
        map_identity(map),
    ensures
        node_counts(o, src, map).0 == 0,
        node_fixed(o, n, src, map) ==> node_same(o, n),
    decreases o, 1int,
{
    match chunk_kind(o) {
        Some(co64) => {
            match o.payload {
                Payload::Extent(e) => {
                    let p = src.subrange(e.offset as int, e.offset + e.len);
                    lemma_identity_no_adjusted(p, map, co64, slot_count(p, co64));
                },
                _ => {},
            }
            if node_fixed(o, n, src, map) {
                assert(n.payload == o.payload);
                lemma_node_same_refl(o);
            }
        },
        None => match o.payload {
            Payload::Container { children, .. } => {
                lemma_identity_kids_kept(children@, children@.len() as int, src, map);
                if node_fixed(o, n, src, map) {
                    let c2 = n.payload->children;
                    lemma_identity_kids_same(children@, c2@, children@.len() as int, src, map);
                }
            },
            _ => {
                if node_fixed(o, n, src, map) {
                    lemma_node_same_refl(o);
                }
            },
        },
    }
}

/// With nothing moved, the fixup pass adjusts no entry among the first `i`
/// nodes.
pub proof fn lemma_identity_kids_kept(os: Seq<EditNode>, i: int, src: Seq<u8>, map: Seq<ExtentMapping>)
    requires
        map_identity(map),
        0 <= i <= os.len(),
    ensures
        kids_counts(os, i, src, map).0 == 0,
    decreases os, i,
{
    if i > 0 {
        lemma_identity_kids_kept(os, i - 1, src, map);
        lemma_identity_node_kept(os[i - 1], os[i - 1], src, map);
    }
}

/// With nothing moved, the fixed nodes are the nodes again.
pub proof fn lemma_identity_kids_same(os: Seq<EditNode>, ns: Seq<EditNode>, i: int, src: Seq<u8>, map: Seq<
    ExtentMapping,
>)
    requires
        map_identity(map),
        0 <= i <= os.len(),
        kids_fixed(os, ns, i, src, map),
    ensures
        kids_same(os, ns, i),
    decreases os, i,
{
    if i > 0 {
        lemma_identity_kids_same(os, ns, i - 1, src, map);
        lemma_identity_node_kept(os[i - 1], ns[i - 1], src, map);
    }
}

/// With nothing moved (every mapping keeps its offset), the fixup pass
/// adjusts no entry and gives the tree back unchanged.
pub proof fn lemma_identity_fixup(o: EditTree, n: EditTree, src: Seq<u8>, map: Seq<ExtentMapping>)
    requires
        map_identity(map),
        tree_fixed(o, n, src, map),
    ensures
        kids_counts(o.roots@, o.roots@.len() as int, src, map).0 == 0,
        n.roots@.len() == o.roots@.len(),
        kids_same(o.roots@, n.roots@, o.roots@.len() as int),
        n.trailing == o.trailing,
{
    lemma_identity_kids_kept(o.roots@, o.roots@.len() as int, src, map);
    lemma_identity_kids_same(o.roots@, n.roots@, o.roots@.len() as int, src, map);
}

} // verus!
