//! Reading iTunes metadata: the `data` atoms of the tags under
//! `moov/udta/meta/ilst`, with the friendly names that
//! [`crate::edit::Editor::set_tag`] accepts.

use vstd::prelude::*;
use crate::api::{get_boxes, Box};
use crate::boxes::lossy_char;
use crate::info::{child_at, find_child, first_box, first_with};
use crate::parser::ParseError;
use crate::util::{be_at, push_char, push_decimal, read_be, spec_decimal, spec_utf8_lossy, utf8_lossy};

verus! {

/// The bytes of a fourcc written as four characters (`0xA9` for `©`).
pub open spec fn cc(a: u8, b: char, c: char, d: char) -> Seq<u8> {
    seq![a, b as u8, c as u8, d as u8]
}

/// The friendly name of a tag atom: the names `set_tag` accepts, `track`
/// for `trkn`, else the fourcc itself with `0xA9` shown as `©`.
pub open spec fn tag_name(f: Seq<u8>) -> Seq<char> {
    if f == cc(0xA9, 'n', 'a', 'm') {
        "title"@
    } else if f == cc(0xA9, 'A', 'R', 'T') {
        "artist"@
    } else if f == cc(0xA9, 'a', 'l', 'b') {
        "album"@
    } else if f == cc(0xA9, 'd', 'a', 'y') {
        "year"@
    } else if f == cc(0xA9, 'g', 'e', 'n') {
        "genre"@
    } else if f == cc(0xA9, 'c', 'm', 't') {
        "comment"@
    } else if f == cc(0x64, 'e', 's', 'c') {
        "description"@
    } else if f == cc(0x63, 'p', 'r', 't') {
        "copyright"@
    } else if f == cc(0x61, 'A', 'R', 'T') {
        "album_artist"@
    } else if f == cc(0xA9, 't', 'o', 'o') {
        "encoder"@
    } else if f == cc(0xA9, 'w', 'r', 't') {
        "composer"@
    } else if f == cc(0xA9, 'l', 'y', 'r') {
        "lyrics"@
    } else if f == cc(0xA9, 'g', 'r', 'p') {
        "grouping"@
    } else if f == cc(0x74, 'r', 'k', 'n') {
        "track"@
    } else {
        Seq::new(4, |i: int| if f[i] == 0xA9 { '©' } else { lossy_char(f[i]) })
    }
}

/// The fourcc of a box, read from the bytes at its start.
pub open spec fn fourcc_at(buf: Seq<u8>, b: Box) -> Seq<u8> {
    buf.subrange(b.offset + 4, b.offset + 8)
}

/// Whether the tag holds a number pair (track or disk number).
pub open spec fn is_pair_tag(f: Seq<u8>) -> bool {
    f == cc(0x74, 'r', 'k', 'n') || f == cc(0x64, 'i', 's', 'k')
}

/// The value of a tag atom `b` whose payload starts with a `data` atom:
/// its UTF-8 text (type 1), or `n/m` for a track or disk number (type 0);
/// `None` for anything else or when the atom does not fit.
pub open spec fn tag_value(buf: Seq<u8>, b: Box) -> Option<Seq<char>> {
    match (b.payload_offset, b.payload_size) {
        (Some(p), Some(n)) => if b.offset + 8 > buf.len() || p + n > buf.len() || n < 16 || buf.subrange(
            p + 4,
            p + 8,
        ) != cc(0x64, 'a', 't', 'a') {
            None
        } else {
            let sz = be_at(buf, p as int, 4);
            let end = if sz < n { p + sz } else { p + n };
            let ty = be_at(buf, p + 8, 4);
            if end < p + 16 {
                None
            } else if ty == 1 {
                Some(spec_utf8_lossy(buf.subrange(p + 16, end as int)))
            } else if ty == 0 && is_pair_tag(fourcc_at(buf, b)) && end >= p + 22 {
                Some(spec_decimal(be_at(buf, p + 18, 2)) + "/"@ + spec_decimal(be_at(buf, p + 20, 2)))
            } else {
                None
            }
        },
        _ => None,
    }
}

/// The named values of the tags among `kids` from index `i` on.
pub open spec fn tags_from(buf: Seq<u8>, kids: Seq<Box>, i: int) -> Seq<(Seq<char>, Seq<char>)>
    decreases kids.len() - i,
{
    if i < 0 || i >= kids.len() {
        Seq::empty()
    } else {
        match tag_value(buf, kids[i]) {
            Some(v) => seq![(tag_name(fourcc_at(buf, kids[i])), v)] + tags_from(buf, kids, i + 1),
            None => tags_from(buf, kids, i + 1),
        }
    }
}

/// The `ilst` box under the first `moov`'s `udta/meta`.
pub open spec fn ilst_of(bs: Seq<Box>) -> Option<Box> {
    match first_with(bs, "moov"@, 0) {
        Some(moov) => match child_at(moov, "udta"@) {
            Some(udta) => match child_at(udta, "meta"@) {
                Some(meta) => child_at(meta, "ilst"@),
                None => None,
            },
            None => None,
        },
        None => None,
    }
}

/// The tags of a parsed file, in `ilst` order.
pub open spec fn spec_itunes_tags(buf: Seq<u8>, bs: Seq<Box>) -> Seq<(Seq<char>, Seq<char>)> {
    match ilst_of(bs) {
        Some(ilst) => match ilst.children {
            Some(k) => tags_from(buf, k@, 0),
            None => Seq::empty(),
        },
        None => Seq::empty(),
    }
}

/// A list of name/value pairs as plain values.
pub open spec fn pairs_view(v: Seq<(String, String)>) -> Seq<(Seq<char>, Seq<char>)> {
    v.map_values(|p: (String, String)| (p.0@, p.1@))
}

fn tag_name_of(f: &[u8; 4]) -> (r: String)
    ensures
        r@ == tag_name(f@),
{
    let a = f[0];
    let b = f[1];
    let c = f[2];
    let d = f[3];
    proof {
        assert(f@ =~= seq![a, b, c, d]);
    }
    let named: Option<&str> = if a == 0xA9 && b == 0x6E && c == 0x61 && d == 0x6D {
        Some("title")
    } else if a == 0xA9 && b == 0x41 && c == 0x52 && d == 0x54 {
        Some("artist")
    } else if a == 0xA9 && b == 0x61 && c == 0x6C && d == 0x62 {
        Some("album")
    } else if a == 0xA9 && b == 0x64 && c == 0x61 && d == 0x79 {
        Some("year")
    } else if a == 0xA9 && b == 0x67 && c == 0x65 && d == 0x6E {
        Some("genre")
    } else if a == 0xA9 && b == 0x63 && c == 0x6D && d == 0x74 {
        Some("comment")
    } else if a == 0x64 && b == 0x65 && c == 0x73 && d == 0x63 {
        Some("description")
    } else if a == 0x63 && b == 0x70 && c == 0x72 && d == 0x74 {
        Some("copyright")
    } else if a == 0x61 && b == 0x41 && c == 0x52 && d == 0x54 {
        Some("album_artist")
    } else if a == 0xA9 && b == 0x74 && c == 0x6F && d == 0x6F {
        Some("encoder")
    } else if a == 0xA9 && b == 0x77 && c == 0x72 && d == 0x74 {
        Some("composer")
    } else if a == 0xA9 && b == 0x6C && c == 0x79 && d == 0x72 {
        Some("lyrics")
    } else if a == 0xA9 && b == 0x67 && c == 0x72 && d == 0x70 {
        Some("grouping")
    } else if a == 0x74 && b == 0x72 && c == 0x6B && d == 0x6E {
        Some("track")
    } else {
        None
    };
    match named {
        Some(n) => n.to_owned(),
        None => {
            let mut s = String::new();
            let mut i: usize = 0;
            while i < 4
                invariant
                    i <= 4,
                    s@ == Seq::new(i as nat, |k: int| if f@[k] == 0xA9 { '©' } else { lossy_char(f@[k]) }),
                decreases 4 - i,
            {
                let x = f[i];
                let ch = if x == 0xA9 {
                    '©'
                } else if 32 <= x && x <= 126 {
                    x as char
                } else {
                    '.'
                };
                push_char(&mut s, ch);
                i = i + 1;
                assert(s@ =~= Seq::new(i as nat, |k: int| if f@[k] == 0xA9 { '©' } else { lossy_char(f@[k]) }));
            }
            s
        },
    }
}

/// The value of one tag atom, as [`tag_value`] describes it.
fn tag_value_of(buf: &[u8], b: &Box) -> (r: Option<String>)
    ensures
        match tag_value(buf@, *b) {
            Some(v) => r matches Some(x) && x@ == v,
            None => r is None,
        },
{
    let blen = buf.len();
    let (p, n) = match (b.payload_offset, b.payload_size) {
        (Some(p), Some(n)) => (p, n),
        _ => return None,
    };
    if b.offset > blen as u64 || 8 > blen as u64 - b.offset || p > blen as u64 || n > blen as u64 - p || n < 16 {
        return None;
    }
    let pu = p as usize;
    if !(buf[pu + 4] == 0x64 && buf[pu + 5] == 0x61 && buf[pu + 6] == 0x74 && buf[pu + 7] == 0x61) {
        proof {
            assert(buf@.subrange(p + 4, p + 8)[0] == buf@[pu + 4]);
            assert(buf@.subrange(p + 4, p + 8)[1] == buf@[pu + 5]);
            assert(buf@.subrange(p + 4, p + 8)[2] == buf@[pu + 6]);
            assert(buf@.subrange(p + 4, p + 8)[3] == buf@[pu + 7]);
        }
        return None;
    }
    assert(buf@.subrange(p + 4, p + 8) =~= cc(0x64, 'a', 't', 'a'));
    let sz = read_be(buf, pu, 4);
    let end = if sz < n { p + sz } else { p + n };
    let ty = read_be(buf, pu + 8, 4);
    if end < p + 16 {
        return None;
    }
    if ty == 1 {
        let v = crate::util::copy_range(buf, pu + 16, end as usize);
        return Some(utf8_lossy(v.as_slice()));
    }
    let o = b.offset as usize;
    let f: [u8; 4] = [buf[o + 4], buf[o + 5], buf[o + 6], buf[o + 7]];
    proof {
        assert(f@ =~= fourcc_at(buf@, *b));
    }
    let pair = (f[0] == 0x74 && f[1] == 0x72 && f[2] == 0x6B && f[3] == 0x6E) || (f[0] == 0x64 && f[1]
        == 0x69 && f[2] == 0x73 && f[3] == 0x6B);
    proof {
        if pair {
            assert(is_pair_tag(f@));
        } else {
            assert(f@ != cc(0x74, 'r', 'k', 'n') ==> exists|k: int| 0 <= k < 4 && f@[k] != cc(0x74, 'r', 'k', 'n')[k]);
            if f@ == cc(0x74, 'r', 'k', 'n') {
                assert(f@[0] == 0x74 && f@[1] == 0x72 && f@[2] == 0x6B && f@[3] == 0x6E);
            }
            if f@ == cc(0x64, 'i', 's', 'k') {
                assert(f@[0] == 0x64 && f@[1] == 0x69 && f@[2] == 0x73 && f@[3] == 0x6B);
            }
        }
    }
    if ty == 0 && pair && end - p >= 22 {
        let num = read_be(buf, pu + 18, 2);
        let total = read_be(buf, pu + 20, 2);
        let mut s = String::new();
        push_decimal(&mut s, num);
        push_char(&mut s, '/');
        push_decimal(&mut s, total);
        proof {
            assert(s@ =~= spec_decimal(num as nat) + "/"@ + spec_decimal(total as nat)) by {
                reveal_strlit("/");
            }
        }
        return Some(s);
    }
    None
}

/// The tags of a parsed file (`boxes` is the tree of `buf`): for each atom
/// under `moov/udta/meta/ilst` that holds a text or number-pair `data`
/// atom, its friendly name and value, in order.
pub fn itunes_tags(buf: &[u8], boxes: &Vec<Box>) -> (r: Vec<(String, String)>)
    ensures
        pairs_view(r@) == spec_itunes_tags(buf@, boxes@),
{
    let mut out: Vec<(String, String)> = Vec::new();
    let ilst = match first_box(boxes, "moov") {
        Some(m) => match find_child(m, "udta") {
            Some(u) => match find_child(u, "meta") {
                Some(me) => find_child(me, "ilst"),
                None => None,
            },
            None => None,
        },
        None => None,
    };
    let kids = match ilst {
        Some(il) => match &il.children {
            Some(k) => k,
            None => {
                return out;
            },
        },
        None => {
            return out;
        },
    };
    let ghost all = tags_from(buf@, kids@, 0);
    let blen = buf.len();
    let mut j: usize = 0;
    while j < kids.len()
        invariant
            j <= kids@.len(),
            blen == buf@.len(),
            all == tags_from(buf@, kids@, 0),
            all == pairs_view(out@) + tags_from(buf@, kids@, j as int),
        decreases kids@.len() - j,
    {
        let ghost before = pairs_view(out@);
        match tag_value_of(buf, &kids[j]) {
            Some(v) => {
                assert(kids@[j as int].offset + 8 <= buf@.len());
                let o = kids[j].offset as usize;
                let f: [u8; 4] = [buf[o + 4], buf[o + 5], buf[o + 6], buf[o + 7]];
                proof {
                    assert(f@ =~= fourcc_at(buf@, kids@[j as int]));
                }
                let name = tag_name_of(&f);
                out.push((name, v));
                assert(pairs_view(out@) =~= before.push((tag_name(fourcc_at(buf@, kids@[j as int])), v@)));
            },
            None => {},
        }
        j = j + 1;
    }
    assert(tags_from(buf@, kids@, j as int) =~= Seq::<(Seq<char>, Seq<char>)>::empty());
    out
}

/// Parses `buf` and reads its iTunes tags; fails as [`get_boxes`] does.
pub fn get_itunes_tags(buf: &[u8]) -> (r: Result<Vec<(String, String)>, ParseError>)
    ensures
        match crate::parser::kids_err(buf@, 0, buf@.len() as int, true) {
            Some(e) => r matches Err(x) && x == e,
            None => r is Ok,
        },
        r matches Ok(v) ==> exists|bs: Seq<Box>|
            {
                &&& crate::api::parsed_tree(buf@, bs, false)
                &&& #[trigger] pairs_view(v@) == spec_itunes_tags(buf@, bs)
            },
{
    let boxes = get_boxes(buf, false)?;
    let tags = itunes_tags(buf, &boxes);
    proof {
        assert(crate::api::parsed_tree(buf@, boxes@, false));
    }
    Ok(tags)
}

} // verus!
