//! System-specific `pssh` payload decoding (Widevine and PlayReady).

use vstd::prelude::*;
use crate::registry::codec_config::pow128;
use crate::util::{
    base64_decode_chars, decimal_string, hex_string, push_decimal, push_hex, push_str, read_u32,
    spec_base64, spec_decimal, spec_hex, utf8_exact,
};
use crate::text::{
    attr_value, attr_value_chars, element_text, element_text_chars, find_chars, find_from,
    lemma_find_from, replace_all, replace_chars, strip_bom, strip_bom_chars, string_of, sub_chars,
    trim, trim_chars, utf16_from, utf16le_decode,
};
use crate::registry::codecs::opt_name_is;
use crate::registry::data::PsshData;
use crate::registry::decoders::at;

verus! {

/// Decoded Widevine pssh payload (the `WidevinePsshData` protobuf).
#[derive(Debug, Clone)]
pub struct WidevinePsshData {
    /// Legacy v0 algorithm field: "UNENCRYPTED" or "AESCTR".
    pub algorithm: Option<String>,
    /// Key IDs, 32-char lowercase hex each.
    pub key_ids: Vec<String>,
    pub provider: Option<String>,
    /// Content ID bytes as lowercase hex.
    pub content_id: Option<String>,
    /// Content ID as text, when the bytes are printable ASCII.
    pub content_id_text: Option<String>,
    pub policy: Option<String>,
    pub crypto_period_index: Option<u32>,
    /// Protection scheme 4CC: "cenc", "cbcs", "cens", or "cbc1".
    pub protection_scheme: Option<String>,
}

/// Decoded PlayReady pssh payload (PlayReady Object + WRMHEADER).
#[derive(Debug, Clone)]
pub struct PlayReadyPsshData {
    pub record_count: u16,
    /// WRMHEADER version attribute, e.g. "4.2.0.0".
    pub wrm_header_version: Option<String>,
    /// Key IDs in CENC byte order, 32-char lowercase hex each.
    pub key_ids: Vec<String>,
    pub la_url: Option<String>,
    /// The WRMHEADER XML.
    pub xml: Option<String>,
}

/// The text of a byte string's view, as a spec value.
pub open spec fn opt_view(o: Option<String>) -> Option<Seq<char>> {
    match o {
        Some(s) => Some(s@),
        None => None,
    }
}

/// The texts of a list of strings.
pub open spec fn strings_view(v: Seq<String>) -> Seq<Seq<char>> {
    v.map_values(|s: String| s@)
}

/// What a Widevine payload decodes to, field by field.
pub struct WvView {
    pub algorithm: Option<Seq<char>>,
    pub key_ids: Seq<Seq<char>>,
    pub provider: Option<Seq<char>>,
    pub content_id: Option<Seq<char>>,
    pub content_id_text: Option<Seq<char>>,
    pub policy: Option<Seq<char>>,
    pub crypto_period_index: Option<u32>,
    pub protection_scheme: Option<Seq<char>>,
}

impl View for WidevinePsshData {
    type V = WvView;

    open spec fn view(&self) -> WvView {
        WvView {
            algorithm: opt_view(self.algorithm),
            key_ids: strings_view(self.key_ids@),
            provider: opt_view(self.provider),
            content_id: opt_view(self.content_id),
            content_id_text: opt_view(self.content_id_text),
            policy: opt_view(self.policy),
            crypto_period_index: self.crypto_period_index,
            protection_scheme: opt_view(self.protection_scheme),
        }
    }
}

// ---------- protobuf wire format ----------

/// A base-128 varint at `pos`: up to ten bytes, seven value bits each,
/// least significant first, the high bit set on all but the last; the
/// value is taken modulo 2^64. `i` bytes have been read into `acc`.
pub open spec fn spec_varint(p: Seq<u8>, pos: int, i: nat, acc: nat) -> Option<(nat, int)>
    decreases 10 - i,
{
    if i >= 10 || pos < 0 || pos >= p.len() {
        None
    } else {
        let b = p[pos];
        let acc2 = acc + (b % 128) as nat * pow128(i);
        if b < 128 {
            Some((acc2 % 0x1_0000_0000_0000_0000, pos + 1))
        } else {
            spec_varint(p, pos + 1, i + 1, acc2)
        }
    }
}

/// The varint at `pos` and the position after it.
pub open spec fn varint(p: Seq<u8>, pos: int) -> Option<(nat, int)> {
    spec_varint(p, pos, 0, 0)
}

/// A length-delimited field at `pos`: the range of its bytes.
pub open spec fn pb_bytes(p: Seq<u8>, pos: int) -> Option<(int, int)> {
    match varint(p, pos) {
        None => None,
        Some((len, q)) => if q + len > p.len() {
            None
        } else {
            Some((q, q + len))
        },
    }
}

/// Position after skipping a field of wire type `wire` at `pos`.
pub open spec fn pb_skip(p: Seq<u8>, pos: int, wire: nat) -> Option<int> {
    let q = if wire == 0 {
        match varint(p, pos) {
            Some((_, q)) => Some(q),
            None => None,
        }
    } else if wire == 1 {
        Some(pos + 8)
    } else if wire == 2 {
        match pb_bytes(p, pos) {
            Some((_, e)) => Some(e),
            None => None,
        }
    } else if wire == 5 {
        Some(pos + 4)
    } else {
        None
    };
    match q {
        Some(q) => if q <= p.len() {
            Some(q)
        } else {
            None
        },
        None => None,
    }
}

proof fn lemma_pow128_small(i: nat)
    requires
        i <= 10,
    ensures
        pow128(i) <= pow128(10),
        pow128(10) == 0x40_0000_0000_0000_0000,
        i < 10 ==> pow128(i + 1) == 128 * pow128(i),
    decreases i,
{
    reveal_with_fuel(pow128, 11);
    if i > 0 {
        lemma_pow128_small((i - 1) as nat);
    }
}

fn read_varint(p: &[u8], pos: &mut usize) -> (r: Option<u64>)
    requires
        *old(pos) <= p@.len(),
    ensures
        match varint(p@, *old(pos) as int) {
            Some((v, next)) => r matches Some(x) && x == v && *final(pos) == next,
            None => r is None,
        },
        r is Some ==> *old(pos) < *final(pos) <= p@.len(),
{
    let ghost p0 = *pos;
    let mut acc: u128 = 0;
    let mut mult: u128 = 1;
    let mut i: usize = 0;
    loop
        invariant
            i <= 10,
            p0 == *old(pos),
            *pos == p0 + i,
            *pos <= p@.len(),
            mult == pow128(i as nat),
            acc < pow128(i as nat),
            varint(p@, p0 as int) == spec_varint(p@, *pos as int, i as nat, acc as nat),
        decreases 10 - i,
    {
        if i >= 10 || *pos >= p.len() {
            return None;
        }
        let b = p[*pos];
        proof {
            lemma_pow128_small(i as nat);
            let x = (b % 128) as int;
            assert(acc + x * mult < 128 * pow128(i as nat)) by (nonlinear_arith)
                requires
                    acc < pow128(i as nat),
                    mult == pow128(i as nat),
                    0 <= x < 128,
            ;
        }
        acc = acc + (b % 128) as u128 * mult;
        *pos = *pos + 1;
        if b < 128 {
            return Some((acc % 0x1_0000_0000_0000_0000) as u64);
        }
        mult = mult * 128;
        i = i + 1;
    }
}

fn read_bytes(p: &[u8], pos: &mut usize) -> (r: Option<(usize, usize)>)
    requires
        *old(pos) <= p@.len(),
    ensures
        match pb_bytes(p@, *old(pos) as int) {
            Some((s, e)) => r matches Some((a, b)) && a == s && b == e && *final(pos) == e,
            None => r is None,
        },
        r matches Some((s, e)) ==> s <= e <= p@.len() && *old(pos) < *final(pos),
{
    let len = match read_varint(p, pos) {
        Some(l) => l,
        None => return None,
    };
    let start = *pos;
    let room = p.len() - start;
    if len > room as u64 {
        return None;
    }
    assert(room as u64 == room as nat);
    assert(len as usize == len as nat);
    let end = start + len as usize;
    assert(pb_bytes(p@, *old(pos) as int) == Some((start as int, end as int)));
    *pos = end;
    Some((start, end))
}

fn skip_field(p: &[u8], pos: &mut usize, wire: u64) -> (r: bool)
    requires
        *old(pos) <= p@.len(),
    ensures
        match pb_skip(p@, *old(pos) as int, wire as nat) {
            Some(q) => r && *final(pos) == q,
            None => !r,
        },
        r ==> *old(pos) <= *final(pos) <= p@.len(),
{
    if wire == 0 {
        read_varint(p, pos).is_some()
    } else if wire == 1 {
        if p.len() - *pos < 8 {
            false
        } else {
            *pos = *pos + 8;
            true
        }
    } else if wire == 2 {
        read_bytes(p, pos).is_some()
    } else if wire == 5 {
        if p.len() - *pos < 4 {
            false
        } else {
            *pos = *pos + 4;
            true
        }
    } else {
        false
    }
}

// ---------- Widevine ----------

pub open spec fn algorithm_name(v: nat) -> Seq<char> {
    if v == 0 {
        "UNENCRYPTED"@
    } else if v == 1 {
        "AESCTR"@
    } else {
        spec_decimal(v)
    }
}

/// Non-empty printable ASCII, spaces allowed.
pub open spec fn printable_text(s: Seq<u8>) -> bool {
    s.len() > 0 && forall|i: int| 0 <= i < s.len() ==> 0x20 <= #[trigger] s[i] <= 0x7E
}

/// Printable ASCII without spaces.
pub open spec fn all_graphic(s: Seq<u8>) -> bool {
    forall|i: int| 0 <= i < s.len() ==> 0x21 <= #[trigger] s[i] <= 0x7E
}

/// The four big-endian bytes of a 32-bit value.
pub open spec fn be4(v: nat) -> Seq<u8> {
    seq![(v / 0x100_0000) as u8, (v / 0x1_0000 % 256) as u8, (v / 256 % 256) as u8, (v % 256) as u8]
}

/// UTF-8 text of `s`, when valid.
pub open spec fn utf8_text(s: Seq<u8>) -> Option<Seq<char>> {
    if vstd::utf8::valid_utf8(s) {
        Some(vstd::utf8::decode_utf8(s))
    } else {
        None
    }
}

/// One Widevine field whose key (field number and wire type) ended at
/// `q`: the updated fields, the position after it, and whether the field
/// is one the schema defines. `None` when it does not decode.
#[verifier::opaque]
pub open spec fn wv_field(p: Seq<u8>, q: int, field: nat, wire: nat, st: WvView) -> Option<(WvView, int, bool)> {
    if field == 1 && wire == 0 {
        match varint(p, q) {
            None => None,
            Some((v, q2)) => Some((WvView { algorithm: Some(algorithm_name(v)), ..st }, q2, true)),
        }
    } else if field == 2 && wire == 2 {
        match pb_bytes(p, q) {
            None => None,
            Some((s, e)) => Some(
                (WvView { key_ids: st.key_ids.push(spec_hex(p.subrange(s, e), false)), ..st }, e, true),
            ),
        }
    } else if (field == 3 || field == 6) && wire == 2 {
        match pb_bytes(p, q) {
            None => None,
            Some((s, e)) => match utf8_text(p.subrange(s, e)) {
                None => None,
                Some(t) => if field == 3 {
                    Some((WvView { provider: Some(t), ..st }, e, true))
                } else {
                    Some((WvView { policy: Some(t), ..st }, e, true))
                },
            },
        }
    } else if field == 4 && wire == 2 {
        match pb_bytes(p, q) {
            None => None,
            Some((s, e)) => {
                let id = p.subrange(s, e);
                let st2 = WvView { content_id: Some(spec_hex(id, false)), ..st };
                if printable_text(id) {
                    match utf8_text(id) {
                        None => None,
                        Some(t) => Some((WvView { content_id_text: Some(t), ..st2 }, e, true)),
                    }
                } else {
                    Some((st2, e, true))
                }
            },
        }
    } else if field == 7 && wire == 0 {
        match varint(p, q) {
            None => None,
            Some((v, q2)) => if v > u32::MAX {
                None
            } else {
                Some((WvView { crypto_period_index: Some(v as u32), ..st }, q2, true))
            },
        }
    } else if field == 9 && wire == 0 {
        match varint(p, q) {
            None => None,
            Some((v, q2)) => if v > u32::MAX {
                None
            } else if all_graphic(be4(v)) {
                match utf8_text(be4(v)) {
                    None => None,
                    Some(t) => Some((WvView { protection_scheme: Some(t), ..st }, q2, true)),
                }
            } else {
                Some((WvView { protection_scheme: Some(spec_hex(be4(v), false)), ..st }, q2, true))
            },
        }
    } else {
        match pb_skip(p, q, wire) {
            None => None,
            Some(q2) => Some((st, q2, false)),
        }
    }
}

/// The fields from `pos` on, decoded into `st`; `rec` is whether a known
/// field was seen so far. `None` when any field fails to decode.
pub open spec fn wv_fields(p: Seq<u8>, pos: int, st: WvView, rec: bool) -> Option<(WvView, bool)>
    decreases p.len() - pos,
{
    if pos >= p.len() || pos < 0 {
        Some((st, rec))
    } else {
        match varint(p, pos) {
            None => None,
            Some((key, q)) => match wv_field(p, q, key / 8, key % 8, st) {
                None => None,
                Some((st2, q2, r)) => if q2 <= pos || q2 > p.len() {
                    None
                } else {
                    wv_fields(p, q2, st2, rec || r)
                },
            },
        }
    }
}

pub open spec fn empty_wv() -> WvView {
    WvView {
        algorithm: None,
        key_ids: Seq::empty(),
        provider: None,
        content_id: None,
        content_id_text: None,
        policy: None,
        crypto_period_index: None,
        protection_scheme: None,
    }
}

/// What a Widevine payload decodes to: `None` when it is empty, when a
/// field fails to decode, or when no field of the schema occurs.
pub open spec fn spec_widevine(p: Seq<u8>) -> Option<WvView> {
    if p.len() == 0 {
        None
    } else {
        match wv_fields(p, 0, empty_wv(), false) {
            Some((st, true)) => Some(st),
            _ => None,
        }
    }
}

fn owned_text(p: &[u8], s: usize, e: usize) -> (r: Option<String>)
    requires
        s <= e <= p@.len(),
    ensures
        opt_view(r) == utf8_text(p@.subrange(s as int, e as int)),
{
    let b = crate::util::copy_range(p, s, e);
    utf8_exact(b.as_slice())
}

fn hex_range(p: &[u8], s: usize, e: usize) -> (r: String)
    requires
        s <= e <= p@.len(),
    ensures
        r@ == spec_hex(p@.subrange(s as int, e as int), false),
{
    let b = crate::util::copy_range(p, s, e);
    hex_string(b.as_slice())
}

fn is_printable_text(p: &[u8], s: usize, e: usize) -> (r: bool)
    requires
        s <= e <= p@.len(),
    ensures
        r == printable_text(p@.subrange(s as int, e as int)),
{
    if s == e {
        return false;
    }
    let mut i = s;
    while i < e
        invariant
            s <= i <= e <= p@.len(),
            forall|j: int| s <= j < i ==> 0x20 <= #[trigger] p@[j] <= 0x7E,
        decreases e - i,
    {
        if p[i] < 0x20 || p[i] > 0x7E {
            assert(!(0x20 <= p@.subrange(s as int, e as int)[i - s] <= 0x7E));
            return false;
        }
        i = i + 1;
    }
    true
}

fn push_key_id(out: &mut WidevinePsshData, k: String)
    ensures
        final(out)@ == (WvView { key_ids: old(out)@.key_ids.push(k@), ..old(out)@ }),
{
    out.key_ids.push(k);
    proof {
        assert(strings_view(final(out).key_ids@) =~= strings_view(old(out).key_ids@).push(k@));
    }
}

/// Decodes one field whose key ended at `*pos` into `out`; `Some(known)`
/// on success, where `known` says whether the schema defines the field.
fn decode_field(p: &[u8], pos: &mut usize, field: u64, wire: u64, out: &mut WidevinePsshData) -> (r:
    Option<bool>)
    requires
        *old(pos) <= p@.len(),
    ensures
        match wv_field(p@, *old(pos) as int, field as nat, wire as nat, old(out)@) {
            Some((st2, q2, known)) => r == Some(known) && final(out)@ == st2 && *final(pos) == q2,
            None => r is None,
        },
        r is Some ==> *old(pos) <= *final(pos) <= p@.len(),
{
    reveal(wv_field);
    if field == 1 && wire == 0 {
        let v = match read_varint(p, pos) {
            Some(v) => v,
            None => return None,
        };
        let name = if v == 0 {
            "UNENCRYPTED".to_owned()
        } else if v == 1 {
            "AESCTR".to_owned()
        } else {
            decimal_string(v)
        };
        out.algorithm = Some(name);
    } else if field == 2 && wire == 2 {
        let (s, e) = match read_bytes(p, pos) {
            Some(x) => x,
            None => return None,
        };
        push_key_id(out, hex_range(p, s, e));
    } else if (field == 3 || field == 6) && wire == 2 {
        let (s, e) = match read_bytes(p, pos) {
            Some(x) => x,
            None => return None,
        };
        let t = match owned_text(p, s, e) {
            Some(t) => t,
            None => return None,
        };
        if field == 3 {
            out.provider = Some(t);
        } else {
            out.policy = Some(t);
        }
    } else if field == 4 && wire == 2 {
        let (s, e) = match read_bytes(p, pos) {
            Some(x) => x,
            None => return None,
        };
        out.content_id = Some(hex_range(p, s, e));
        if is_printable_text(p, s, e) {
            let t = match owned_text(p, s, e) {
                Some(t) => t,
                None => return None,
            };
            out.content_id_text = Some(t);
        }
    } else if field == 7 && wire == 0 {
        let v = match read_varint(p, pos) {
            Some(v) => v,
            None => return None,
        };
        if v > 0xFFFF_FFFF {
            return None;
        }
        out.crypto_period_index = Some(v as u32);
    } else if field == 9 && wire == 0 {
        let v = match read_varint(p, pos) {
            Some(v) => v,
            None => return None,
        };
        if v > 0xFFFF_FFFF {
            return None;
        }
        let fc: [u8; 4] = [
            (v / 0x100_0000) as u8,
            (v / 0x1_0000 % 256) as u8,
            (v / 256 % 256) as u8,
            (v % 256) as u8,
        ];
        proof {
            assert(fc@ =~= be4(v as nat));
        }
        let fcs = fc.as_slice();
        let graphic = 0x21 <= fc[0] && fc[0] <= 0x7E && 0x21 <= fc[1] && fc[1] <= 0x7E && 0x21
            <= fc[2] && fc[2] <= 0x7E && 0x21 <= fc[3] && fc[3] <= 0x7E;
        proof {
            if graphic {
                assert(all_graphic(fc@));
            } else {
                assert(!all_graphic(fc@)) by {
                    if all_graphic(fc@) {
                        assert(0x21 <= fc@[0] <= 0x7E);
                        assert(0x21 <= fc@[1] <= 0x7E);
                        assert(0x21 <= fc@[2] <= 0x7E);
                        assert(0x21 <= fc@[3] <= 0x7E);
                    }
                }
            }
        }
        if graphic {
            let t = match utf8_exact(fcs) {
                Some(t) => t,
                None => return None,
            };
            out.protection_scheme = Some(t);
        } else {
            out.protection_scheme = Some(hex_string(fcs));
        }
    } else {
        if !skip_field(p, pos, wire) {
            return None;
        }
    }
    if field == 1 && wire == 0 || field == 2 && wire == 2 || (field == 3 || field == 6) && wire == 2
        || field == 4 && wire == 2 || field == 7 && wire == 0 || field == 9 && wire == 0 {
        Some(true)
    } else {
        Some(false)
    }
}

/// Parses a bare Widevine pssh payload (the `WidevinePsshData` protobuf).
/// Returns `None` for anything that does not decode cleanly, so it can
/// double as a "is this Widevine data?" probe.
pub fn parse_widevine_pssh_data(data: &[u8]) -> (r: Option<WidevinePsshData>)
    ensures
        match spec_widevine(data@) {
            Some(st) => r matches Some(w) && w@ == st,
            None => r is None,
        },
{
    let p = data;
    let n = p.len();
    if n == 0 {
        return None;
    }
    let mut out = WidevinePsshData {
        algorithm: None,
        key_ids: Vec::new(),
        provider: None,
        content_id: None,
        content_id_text: None,
        policy: None,
        crypto_period_index: None,
        protection_scheme: None,
    };
    proof {
        assert(out@.key_ids =~= Seq::<Seq<char>>::empty());
        assert(out@ == empty_wv());
    }
    let mut rec = false;
    let mut pos: usize = 0;
    while pos < n
        invariant
            n == p@.len(),
            p@ == data@,
            pos <= n,
            wv_fields(p@, 0, empty_wv(), false) == wv_fields(p@, pos as int, out@, rec),
        decreases n - pos,
    {
        let ghost st = out@;
        let ghost p0 = pos as int;
        let key = match read_varint(p, &mut pos) {
            Some(k) => k,
            None => {
                assert(wv_fields(p@, p0, st, rec) is None);
                return None;
            },
        };
        let ghost q = pos as int;
        assert(varint(p@, p0) == Some((key as nat, q)));
        let known = match decode_field(p, &mut pos, key / 8, key % 8, &mut out) {
            Some(k) => k,
            None => {
                assert(wv_field(p@, q, key as nat / 8, key as nat % 8, st) is None);
                assert(wv_fields(p@, p0, st, rec) is None);
                return None;
            },
        };
        rec = rec || known;
    }
    if rec {
        Some(out)
    } else {
        None
    }
}

// ---------- system IDs ----------

/// The Widevine DRM system ID.
pub const WIDEVINE_SYSTEM_ID: [u8; 16] = [
    0xED, 0xEF, 0x8B, 0xA9, 0x79, 0xD6, 0x4A, 0xCE, 0xA3, 0xC8, 0x27, 0xDC, 0xD5, 0x1D, 0x21, 0xED,
];

/// The PlayReady DRM system ID.
pub const PLAYREADY_SYSTEM_ID: [u8; 16] = [
    0x9A, 0x04, 0xF0, 0x79, 0x98, 0x40, 0x42, 0x86, 0xAB, 0x92, 0xE6, 0x5B, 0xE0, 0x88, 0x5F, 0x95,
];

pub open spec fn widevine_id() -> Seq<u8> {
    seq![0xEDu8, 0xEF, 0x8B, 0xA9, 0x79, 0xD6, 0x4A, 0xCE, 0xA3, 0xC8, 0x27, 0xDC, 0xD5, 0x1D, 0x21, 0xED]
}

pub open spec fn playready_id() -> Seq<u8> {
    seq![0x9Au8, 0x04, 0xF0, 0x79, 0x98, 0x40, 0x42, 0x86, 0xAB, 0x92, 0xE6, 0x5B, 0xE0, 0x88, 0x5F, 0x95]
}

pub open spec fn fairplay_id() -> Seq<u8> {
    seq![0x94u8, 0xCE, 0x86, 0xFB, 0x07, 0xFF, 0x4F, 0x43, 0xAD, 0xB8, 0x93, 0xD2, 0xFA, 0x96, 0x8C, 0xA2]
}

pub open spec fn clearkey_id() -> Seq<u8> {
    seq![0x10u8, 0x77, 0xEF, 0xEC, 0xC0, 0xB2, 0x4D, 0x02, 0xAC, 0xE3, 0x3C, 0x1E, 0x52, 0xE2, 0xFB, 0x4B]
}

pub open spec fn marlin_id() -> Seq<u8> {
    seq![0x5Eu8, 0x62, 0x9A, 0xF5, 0x38, 0xDA, 0x40, 0x63, 0x89, 0x77, 0x97, 0xFF, 0xBD, 0x99, 0x02, 0xD4]
}

/// Name of a well-known DRM system ID (the ISO 23001-7 SystemID registry).
pub open spec fn spec_drm_system_name(id: Seq<u8>) -> Option<&'static str> {
    if id == widevine_id() {
        Some("Widevine")
    } else if id == playready_id() {
        Some("PlayReady")
    } else if id == fairplay_id() {
        Some("FairPlay")
    } else if id == clearkey_id() {
        Some("Common PSSH (ClearKey)")
    } else if id == marlin_id() {
        Some("Marlin")
    } else {
        None
    }
}

fn ids_equal(a: &[u8], b: &[u8; 16], spec_b: Ghost<Seq<u8>>) -> (r: bool)
    requires
        b@ == spec_b@,
        spec_b@.len() == 16,
    ensures
        r == (a@ == spec_b@),
{
    crate::util::bytes_eq(a, b.as_slice())
}

/// Names a well-known DRM system ID.
pub fn drm_system_name(id: &[u8; 16]) -> (r: Option<&'static str>)
    ensures
        r == spec_drm_system_name(id@),
{
    let wv: [u8; 16] = WIDEVINE_SYSTEM_ID;
    let pr: [u8; 16] = PLAYREADY_SYSTEM_ID;
    let fp: [u8; 16] = [
        0x94, 0xCE, 0x86, 0xFB, 0x07, 0xFF, 0x4F, 0x43, 0xAD, 0xB8, 0x93, 0xD2, 0xFA, 0x96, 0x8C, 0xA2,
    ];
    let ck: [u8; 16] = [
        0x10, 0x77, 0xEF, 0xEC, 0xC0, 0xB2, 0x4D, 0x02, 0xAC, 0xE3, 0x3C, 0x1E, 0x52, 0xE2, 0xFB, 0x4B,
    ];
    let ml: [u8; 16] = [
        0x5E, 0x62, 0x9A, 0xF5, 0x38, 0xDA, 0x40, 0x63, 0x89, 0x77, 0x97, 0xFF, 0xBD, 0x99, 0x02, 0xD4,
    ];
    proof {
        assert(wv@ =~= widevine_id());
        assert(pr@ =~= playready_id());
        assert(fp@ =~= fairplay_id());
        assert(ck@ =~= clearkey_id());
        assert(ml@ =~= marlin_id());
    }
    let a = id.as_slice();
    if ids_equal(a, &wv, Ghost(widevine_id())) {
        Some("Widevine")
    } else if ids_equal(a, &pr, Ghost(playready_id())) {
        Some("PlayReady")
    } else if ids_equal(a, &fp, Ghost(fairplay_id())) {
        Some("FairPlay")
    } else if ids_equal(a, &ck, Ghost(clearkey_id())) {
        Some("Common PSSH (ClearKey)")
    } else if ids_equal(a, &ml, Ghost(marlin_id())) {
        Some("Marlin")
    } else {
        None
    }
}

/// Distinct registered DRM system IDs get distinct names: a name that the
/// registry gives identifies the system ID it was given for.
pub proof fn lemma_drm_names_distinct(a: Seq<u8>, b: Seq<u8>)
    requires
        spec_drm_system_name(a) is Some,
        spec_drm_system_name(a) == spec_drm_system_name(b),
    ensures
        a == b,
{
    reveal_strlit("Widevine");
    reveal_strlit("PlayReady");
    reveal_strlit("FairPlay");
    reveal_strlit("Common PSSH (ClearKey)");
    reveal_strlit("Marlin");
    assert("Widevine"@.len() != "PlayReady"@.len());
    assert("Widevine"@[0] != "FairPlay"@[0]);
    assert("Widevine"@.len() != "Marlin"@.len());
    assert("PlayReady"@.len() != "FairPlay"@.len());
    assert("PlayReady"@.len() != "Marlin"@.len());
    assert("FairPlay"@.len() != "Marlin"@.len());
    assert("Common PSSH (ClearKey)"@.len() != "Widevine"@.len());
    assert("Common PSSH (ClearKey)"@.len() != "PlayReady"@.len());
    assert("Common PSSH (ClearKey)"@.len() != "FairPlay"@.len());
    assert("Common PSSH (ClearKey)"@.len() != "Marlin"@.len());
}

/// Each registered DRM system is named for its own SystemID: the name
/// given to an ID is one of the registry's names, and the ID's UUID is the
/// one registered under that name.
pub proof fn lemma_drm_name_uuid(id: Seq<u8>)
    ensures
        spec_drm_system_name(id) matches Some(n) ==> {
            (n@ == "Widevine"@ && spec_uuid(id) == "edef8ba9-79d6-4ace-a3c8-27dcd51d21ed"@)
            || (n@ == "PlayReady"@ && spec_uuid(id) == "9a04f079-9840-4286-ab92-e65be0885f95"@)
            || (n@ == "FairPlay"@ && spec_uuid(id) == "94ce86fb-07ff-4f43-adb8-93d2fa968ca2"@)
            || (n@ == "Common PSSH (ClearKey)"@ && spec_uuid(id) == "1077efec-c0b2-4d02-ace3-3c1e52e2fb4b"@)
            || (n@ == "Marlin"@ && spec_uuid(id) == "5e629af5-38da-4063-8977-97ffbd9902d4"@)
        },
{
    lemma_uuid_widevine();
    lemma_uuid_playready();
    lemma_uuid_fairplay();
    lemma_uuid_clearkey();
    lemma_uuid_marlin();
}

proof fn lemma_uuid_widevine()
    ensures
        spec_uuid(widevine_id()) == "edef8ba9-79d6-4ace-a3c8-27dcd51d21ed"@,
{
    reveal_with_fuel(spec_hex, 7);
    reveal_strlit("edef8ba9-79d6-4ace-a3c8-27dcd51d21ed");
    assert(spec_uuid(widevine_id()) =~= "edef8ba9-79d6-4ace-a3c8-27dcd51d21ed"@);
}

proof fn lemma_uuid_playready()
    ensures
        spec_uuid(playready_id()) == "9a04f079-9840-4286-ab92-e65be0885f95"@,
{
    reveal_with_fuel(spec_hex, 7);
    reveal_strlit("9a04f079-9840-4286-ab92-e65be0885f95");
    assert(spec_uuid(playready_id()) =~= "9a04f079-9840-4286-ab92-e65be0885f95"@);
}

proof fn lemma_uuid_fairplay()
    ensures
        spec_uuid(fairplay_id()) == "94ce86fb-07ff-4f43-adb8-93d2fa968ca2"@,
{
    reveal_with_fuel(spec_hex, 7);
    reveal_strlit("94ce86fb-07ff-4f43-adb8-93d2fa968ca2");
    assert(spec_uuid(fairplay_id()) =~= "94ce86fb-07ff-4f43-adb8-93d2fa968ca2"@);
}

proof fn lemma_uuid_clearkey()
    ensures
        spec_uuid(clearkey_id()) == "1077efec-c0b2-4d02-ace3-3c1e52e2fb4b"@,
{
    reveal_with_fuel(spec_hex, 7);
    reveal_strlit("1077efec-c0b2-4d02-ace3-3c1e52e2fb4b");
    assert(spec_uuid(clearkey_id()) =~= "1077efec-c0b2-4d02-ace3-3c1e52e2fb4b"@);
}

proof fn lemma_uuid_marlin()
    ensures
        spec_uuid(marlin_id()) == "5e629af5-38da-4063-8977-97ffbd9902d4"@,
{
    reveal_with_fuel(spec_hex, 7);
    reveal_strlit("5e629af5-38da-4063-8977-97ffbd9902d4");
    assert(spec_uuid(marlin_id()) =~= "5e629af5-38da-4063-8977-97ffbd9902d4"@);
}

/// A 16-byte ID as a hyphenated lowercase UUID.
pub open spec fn spec_uuid(id: Seq<u8>) -> Seq<char> {
    spec_hex(id.subrange(0, 4), false) + seq!['-'] + spec_hex(id.subrange(4, 6), false) + seq!['-']
        + spec_hex(id.subrange(6, 8), false) + seq!['-'] + spec_hex(id.subrange(8, 10), false)
        + seq!['-'] + spec_hex(id.subrange(10, 16), false)
}

/// Formats a 16-byte ID as a hyphenated lowercase UUID.
pub fn uuid_string(id: &[u8; 16]) -> (r: String)
    ensures
        r@ == spec_uuid(id@),
{
    let a = id.as_slice();
    let mut s = String::new();
    let p0 = crate::util::copy_range(a, 0, 4);
    let p1 = crate::util::copy_range(a, 4, 6);
    let p2 = crate::util::copy_range(a, 6, 8);
    let p3 = crate::util::copy_range(a, 8, 10);
    let p4 = crate::util::copy_range(a, 10, 16);
    push_hex(&mut s, p0.as_slice(), false);
    crate::util::push_char(&mut s, '-');
    push_hex(&mut s, p1.as_slice(), false);
    crate::util::push_char(&mut s, '-');
    push_hex(&mut s, p2.as_slice(), false);
    crate::util::push_char(&mut s, '-');
    push_hex(&mut s, p3.as_slice(), false);
    crate::util::push_char(&mut s, '-');
    push_hex(&mut s, p4.as_slice(), false);
    proof {
        assert(s@ =~= spec_uuid(id@));
    }
    s
}

// ---------- PlayReady ----------

/// What a PlayReady payload decodes to, field by field.
pub struct PrView {
    pub record_count: u16,
    pub wrm_header_version: Option<Seq<char>>,
    pub key_ids: Seq<Seq<char>>,
    pub la_url: Option<Seq<char>>,
    pub xml: Option<Seq<char>>,
}

impl View for PlayReadyPsshData {
    type V = PrView;

    open spec fn view(&self) -> PrView {
        PrView {
            record_count: self.record_count,
            wrm_header_version: opt_view(self.wrm_header_version),
            key_ids: strings_view(self.key_ids@),
            la_url: opt_view(self.la_url),
            xml: opt_view(self.xml),
        }
    }
}

/// Little-endian 16-bit value at `pos`.
pub open spec fn le16(d: Seq<u8>, pos: int) -> nat {
    (d[pos] + d[pos + 1] * 256) as nat
}

/// Little-endian 32-bit value at `pos`.
pub open spec fn le32(d: Seq<u8>, pos: int) -> nat {
    (d[pos] + d[pos + 1] * 256 + d[pos + 2] * 65536 + d[pos + 3] * 16777216) as nat
}

/// The text of UTF-16LE bytes, leading byte-order marks removed; `None`
/// for an odd length or an unpaired surrogate.
pub open spec fn utf16_text(b: Seq<u8>) -> Option<Seq<char>> {
    if b.len() % 2 != 0 {
        None
    } else {
        match utf16_from(b, 0, Seq::empty()) {
            Some(t) => Some(strip_bom(t)),
            None => None,
        }
    }
}

/// The remaining `k` records of a PlayReady Object from `pos`, within its
/// first `total` bytes: the text of the first rights-management header
/// (type 1) that decodes, `xml` if one was already found; `None` when a
/// record runs past `total`.
pub open spec fn pr_records(d: Seq<u8>, total: int, pos: int, k: nat, xml: Option<Seq<char>>) -> Option<
    Option<Seq<char>>,
>
    decreases k,
{
    if k == 0 {
        Some(xml)
    } else if pos + 4 > total {
        None
    } else {
        let ty = le16(d, pos);
        let rl = le16(d, pos + 2);
        let p2 = pos + 4;
        if p2 + rl > total {
            None
        } else {
            let xml2 = if ty == 1 && xml is None {
                utf16_text(d.subrange(p2, p2 + rl))
            } else {
                xml
            };
            pr_records(d, total, p2 + rl, (k - 1) as nat, xml2)
        }
    }
}

pub open spec fn pat_wrmheader() -> Seq<char> {
    seq!['<', 'W', 'R', 'M', 'H', 'E', 'A', 'D', 'E', 'R']
}

pub open spec fn pat_gt() -> Seq<char> {
    seq!['>']
}

pub open spec fn pat_version() -> Seq<char> {
    seq!['v', 'e', 'r', 's', 'i', 'o', 'n', '=', '"']
}

pub open spec fn pat_kid() -> Seq<char> {
    seq!['<', 'K', 'I', 'D']
}

pub open spec fn pat_kid_close() -> Seq<char> {
    seq!['<', '/', 'K', 'I', 'D', '>']
}

pub open spec fn pat_value() -> Seq<char> {
    seq!['V', 'A', 'L', 'U', 'E', '=', '"']
}

pub open spec fn pat_la_url() -> Seq<char> {
    seq!['<', 'L', 'A', '_', 'U', 'R', 'L', '>']
}

pub open spec fn pat_la_url_close() -> Seq<char> {
    seq!['<', '/', 'L', 'A', '_', 'U', 'R', 'L', '>']
}

/// The WRMHEADER's `version` attribute.
pub open spec fn wrm_version(x: Seq<char>) -> Option<Seq<char>> {
    match find_from(x, pat_wrmheader(), 0) {
        None => None,
        Some(i) => match find_from(x, pat_gt(), i) {
            None => None,
            Some(te) => attr_value(x.subrange(i, te), pat_version()),
        },
    }
}

/// The five predefined XML entities replaced by their characters, `&amp;`
/// last.
pub open spec fn xml_unescape(s: Seq<char>) -> Seq<char> {
    replace_all(
        replace_all(
            replace_all(
                replace_all(
                    replace_all(s, seq!['&', 'l', 't', ';'], seq!['<']),
                    seq!['&', 'g', 't', ';'],
                    seq!['>'],
                ),
                seq!['&', 'q', 'u', 'o', 't', ';'],
                seq!['"'],
            ),
            seq!['&', 'a', 'p', 'o', 's', ';'],
            seq!['\''],
        ),
        seq!['&', 'a', 'm', 'p', ';'],
        seq!['&'],
    )
}

/// A GUID's first three fields byte-reversed: Microsoft's little-endian
/// layout to the big-endian order CENC uses.
pub open spec fn guid_le_to_be(b: Seq<u8>) -> Seq<u8> {
    seq![b[3], b[2], b[1], b[0], b[5], b[4], b[7], b[6]] + b.subrange(8, 16)
}

/// The CENC hex KID of a PlayReady base64 KID.
pub open spec fn kid_hex(v: Seq<char>) -> Option<Seq<char>> {
    match spec_base64(trim(v)) {
        Some(b) => if b.len() == 16 {
            Some(spec_hex(guid_le_to_be(b), false))
        } else {
            None
        },
        None => None,
    }
}

/// ASCII whitespace as `u8::is_ascii_whitespace` defines it.
pub open spec fn ascii_ws(c: char) -> bool {
    c == ' ' || c == '\t' || c == '\n' || c == '\u{c}' || c == '\r'
}

/// The KID of a `<KID` tag whose name ends at `after`: the element text
/// (`<KID>b64</KID>`, WRMHEADER 4.0) or the `VALUE` attribute (4.1+).
pub open spec fn kid_at(x: Seq<char>, after: int) -> Option<Seq<char>> {
    if 0 <= after < x.len() && x[after] == '>' {
        match find_from(x, pat_kid_close(), after + 1) {
            Some(e) => kid_hex(x.subrange(after + 1, e)),
            None => None,
        }
    } else if 0 <= after < x.len() && ascii_ws(x[after]) {
        match find_from(x, pat_gt(), after) {
            Some(e) => match attr_value(x.subrange(after, e), pat_value()) {
                Some(v) => kid_hex(v),
                None => None,
            },
            None => None,
        }
    } else {
        None
    }
}

/// The KIDs of the `<KID` tags from `search` on, appended to `acc`.
pub open spec fn kids_from(x: Seq<char>, search: int, acc: Seq<Seq<char>>) -> Seq<Seq<char>>
    decreases x.len() + 1 - search,
{
    if search < 0 {
        acc
    } else {
        match find_from(x, pat_kid(), search) {
            None => acc,
            Some(f) => {
                let after = f + 4;
                let acc2 = match kid_at(x, after) {
                    Some(k) => acc.push(k),
                    None => acc,
                };
                if after <= search || after > x.len() {
                    acc2
                } else {
                    kids_from(x, after, acc2)
                }
            },
        }
    }
}

/// `s` with consecutive repeats removed (`Vec::dedup`).
pub open spec fn dedup(s: Seq<Seq<char>>) -> Seq<Seq<char>>
    decreases s.len(),
{
    if s.len() <= 1 {
        s
    } else if s.last() == s[s.len() - 2] {
        dedup(s.drop_last())
    } else {
        dedup(s.drop_last()).push(s.last())
    }
}

proof fn lemma_dedup_last(s: Seq<Seq<char>>)
    requires
        s.len() > 0,
    ensures
        dedup(s).len() > 0,
        dedup(s).last() == s.last(),
    decreases s.len(),
{
    if s.len() > 1 && s.last() == s[s.len() - 2] {
        lemma_dedup_last(s.drop_last());
    }
}

/// What a PlayReady Object decodes to: `None` when it is shorter than its
/// header, its total length is out of range, a record runs past it, or no
/// rights-management header decodes.
pub open spec fn spec_playready(d: Seq<u8>) -> Option<PrView> {
    if d.len() < 10 {
        None
    } else {
        let total = le32(d, 0);
        if total < 10 || total > d.len() {
            None
        } else {
            let count = le16(d, 4);
            match pr_records(d, total as int, 6, count, None) {
                Some(Some(x)) => Some(
                    PrView {
                        record_count: count as u16,
                        wrm_header_version: wrm_version(x),
                        key_ids: dedup(kids_from(x, 0, Seq::empty())),
                        la_url: match element_text(x, pat_la_url(), pat_la_url_close()) {
                            Some(t) => Some(xml_unescape(t)),
                            None => None,
                        },
                        xml: Some(x),
                    },
                ),
                _ => None,
            }
        }
    }
}

fn utf16_text_exec(d: &[u8], a: usize, b: usize) -> (r: Option<Vec<char>>)
    requires
        a <= b <= d@.len(),
    ensures
        match utf16_text(d@.subrange(a as int, b as int)) {
            Some(t) => r matches Some(x) && x@ == t,
            None => r is None,
        },
{
    if (b - a) % 2 != 0 {
        return None;
    }
    let bytes = crate::util::copy_range(d, a, b);
    match utf16le_decode(bytes.as_slice()) {
        Some(t) => Some(strip_bom_chars(t.as_slice())),
        None => None,
    }
}

fn le16_at(d: &[u8], pos: usize) -> (r: u16)
    requires
        pos + 2 <= d@.len(),
    ensures
        r == le16(d@, pos as int),
{
    d[pos] as u16 + d[pos + 1] as u16 * 256
}

fn kid_hex_exec(v: &[char]) -> (r: Option<String>)
    ensures
        match kid_hex(v@) {
            Some(k) => r matches Some(x) && x@ == k,
            None => r is None,
        },
{
    let t = trim_chars(v);
    let b = match base64_decode_chars(t.as_slice()) {
        Some(b) => b,
        None => return None,
    };
    if b.len() != 16 {
        return None;
    }
    let g: [u8; 16] = [
        b[3], b[2], b[1], b[0], b[5], b[4], b[7], b[6], b[8], b[9], b[10], b[11], b[12], b[13], b[14],
        b[15],
    ];
    proof {
        assert(g@ =~= guid_le_to_be(b@));
    }
    Some(hex_string(g.as_slice()))
}

fn kid_at_exec(x: &[char], after: usize) -> (r: Option<String>)
    requires
        after <= x@.len(),
    ensures
        match kid_at(x@, after as int) {
            Some(k) => r matches Some(s) && s@ == k,
            None => r is None,
        },
{
    if after < x.len() && x[after] == '>' {
        let close: [char; 6] = ['<', '/', 'K', 'I', 'D', '>'];
        proof {
            assert(close@ =~= pat_kid_close());
            lemma_find_from(x@, pat_kid_close(), after + 1);
        }
        match find_chars(x, close.as_slice(), after + 1) {
            Some(e) => {
                let v = sub_chars(x, after + 1, e);
                kid_hex_exec(v.as_slice())
            },
            None => None,
        }
    } else if after < x.len() && (x[after] == ' ' || x[after] == '\t' || x[after] == '\n' || x[after]
        == '\u{c}' || x[after] == '\r') {
        let gt: [char; 1] = ['>'];
        let val: [char; 7] = ['V', 'A', 'L', 'U', 'E', '=', '"'];
        proof {
            assert(gt@ =~= pat_gt());
            assert(val@ =~= pat_value());
            lemma_find_from(x@, pat_gt(), after as int);
        }
        match find_chars(x, gt.as_slice(), after) {
            Some(e) => {
                let tag = sub_chars(x, after, e);
                match attr_value_chars(tag.as_slice(), val.as_slice()) {
                    Some(v) => kid_hex_exec(v.as_slice()),
                    None => None,
                }
            },
            None => None,
        }
    } else {
        None
    }
}

fn extract_kids(x: &[char]) -> (r: Vec<String>)
    ensures
        strings_view(r@) == kids_from(x@, 0, Seq::empty()),
{
    let pat: [char; 4] = ['<', 'K', 'I', 'D'];
    proof {
        assert(pat@ =~= pat_kid());
    }
    let mut out: Vec<String> = Vec::new();
    let mut search: usize = 0;
    let xl = x.len();
    proof {
        assert(strings_view(out@) =~= Seq::<Seq<char>>::empty());
    }
    loop
        invariant
            search <= x@.len(),
            xl == x@.len(),
            pat@ == pat_kid(),
            kids_from(x@, 0, Seq::empty()) == kids_from(x@, search as int, strings_view(out@)),
        decreases x@.len() + 1 - search,
    {
        proof {
            lemma_find_from(x@, pat_kid(), search as int);
        }
        let f = match find_chars(x, pat.as_slice(), search) {
            Some(f) => f,
            None => return out,
        };
        let after = f + 4;
        let ghost before = strings_view(out@);
        match kid_at_exec(x, after) {
            Some(k) => {
                out.push(k);
                proof {
                    assert(strings_view(out@) =~= before.push(out@.last()@));
                }
            },
            None => {},
        }
        search = after;
    }
}

fn dedup_strings(v: Vec<String>) -> (r: Vec<String>)
    ensures
        strings_view(r@) == dedup(strings_view(v@)),
{
    let mut out: Vec<String> = Vec::new();
    let mut i: usize = 0;
    proof {
        assert(strings_view(v@).subrange(0, 0) =~= Seq::<Seq<char>>::empty());
        assert(strings_view(out@) =~= dedup(strings_view(v@).subrange(0, 0)));
    }
    while i < v.len()
        invariant
            i <= v@.len(),
            strings_view(out@) == dedup(strings_view(v@).subrange(0, i as int)),
        decreases v@.len() - i,
    {
        let ghost sv = strings_view(v@);
        proof {
            assert(strings_view(v@).subrange(0, i + 1).drop_last() =~= sv.subrange(0, i as int));
            if i > 0 {
                lemma_dedup_last(sv.subrange(0, i as int));
            }
        }
        let ghost before = strings_view(out@);
        if i == 0 || v[i] != v[i - 1] {
            out.push(v[i].clone());
            proof {
                assert(strings_view(out@) =~= before.push(v@[i as int]@));
            }
        }
        proof {
            assert(sv.subrange(0, i + 1).last() == sv[i as int]);
            if i > 0 {
                assert(sv.subrange(0, i + 1)[i - 1] == sv[i - 1]);
            }
        }
        i = i + 1;
    }
    proof {
        assert(strings_view(v@).subrange(0, v@.len() as int) =~= strings_view(v@));
    }
    out
}

fn xml_unescape_exec(s: &[char]) -> (r: Vec<char>)
    ensures
        r@ == xml_unescape(s@),
{
    let lt: [char; 4] = ['&', 'l', 't', ';'];
    let gt: [char; 4] = ['&', 'g', 't', ';'];
    let quot: [char; 6] = ['&', 'q', 'u', 'o', 't', ';'];
    let apos: [char; 6] = ['&', 'a', 'p', 'o', 's', ';'];
    let amp: [char; 5] = ['&', 'a', 'm', 'p', ';'];
    let c_lt: [char; 1] = ['<'];
    let c_gt: [char; 1] = ['>'];
    let c_quot: [char; 1] = ['"'];
    let c_apos: [char; 1] = ['\''];
    let c_amp: [char; 1] = ['&'];
    proof {
        assert(lt@ =~= seq!['&', 'l', 't', ';']);
        assert(gt@ =~= seq!['&', 'g', 't', ';']);
        assert(quot@ =~= seq!['&', 'q', 'u', 'o', 't', ';']);
        assert(apos@ =~= seq!['&', 'a', 'p', 'o', 's', ';']);
        assert(amp@ =~= seq!['&', 'a', 'm', 'p', ';']);
        assert(c_lt@ =~= seq!['<']);
        assert(c_gt@ =~= seq!['>']);
        assert(c_quot@ =~= seq!['"']);
        assert(c_apos@ =~= seq!['\'']);
        assert(c_amp@ =~= seq!['&']);
    }
    let a = replace_chars(s, lt.as_slice(), c_lt.as_slice());
    let b = replace_chars(a.as_slice(), gt.as_slice(), c_gt.as_slice());
    let c = replace_chars(b.as_slice(), quot.as_slice(), c_quot.as_slice());
    let d = replace_chars(c.as_slice(), apos.as_slice(), c_apos.as_slice());
    replace_chars(d.as_slice(), amp.as_slice(), c_amp.as_slice())
}

fn wrm_version_exec(x: &[char]) -> (r: Option<String>)
    ensures
        opt_view(r) == wrm_version(x@),
{
    let wrm: [char; 10] = ['<', 'W', 'R', 'M', 'H', 'E', 'A', 'D', 'E', 'R'];
    let gt: [char; 1] = ['>'];
    let ver: [char; 9] = ['v', 'e', 'r', 's', 'i', 'o', 'n', '=', '"'];
    proof {
        assert(wrm@ =~= pat_wrmheader());
        assert(gt@ =~= pat_gt());
        assert(ver@ =~= pat_version());
        lemma_find_from(x@, pat_wrmheader(), 0);
    }
    let i = match find_chars(x, wrm.as_slice(), 0) {
        Some(i) => i,
        None => return None,
    };
    proof {
        lemma_find_from(x@, pat_gt(), i as int);
    }
    let te = match find_chars(x, gt.as_slice(), i) {
        Some(te) => te,
        None => return None,
    };
    let tag = sub_chars(x, i, te);
    match attr_value_chars(tag.as_slice(), ver.as_slice()) {
        Some(v) => Some(string_of(v.as_slice())),
        None => None,
    }
}

fn la_url_exec(x: &[char]) -> (r: Option<String>)
    ensures
        opt_view(r) == match element_text(x@, pat_la_url(), pat_la_url_close()) {
            Some(t) => Some(xml_unescape(t)),
            None => None,
        },
{
    let open: [char; 8] = ['<', 'L', 'A', '_', 'U', 'R', 'L', '>'];
    let close: [char; 9] = ['<', '/', 'L', 'A', '_', 'U', 'R', 'L', '>'];
    proof {
        assert(open@ =~= pat_la_url());
        assert(close@ =~= pat_la_url_close());
    }
    match element_text_chars(x, open.as_slice(), close.as_slice()) {
        Some(t) => {
            let u = xml_unescape_exec(t.as_slice());
            Some(string_of(u.as_slice()))
        },
        None => None,
    }
}

/// Parses a bare PlayReady pssh payload (a PlayReady Object). Returns
/// `None` for anything that does not carry a readable WRMHEADER record.
pub fn parse_playready_pssh_data(data: &[u8]) -> (r: Option<PlayReadyPsshData>)
    ensures
        match spec_playready(data@) {
            Some(v) => r matches Some(x) && x@ == v,
            None => r is None,
        },
{
    let d = data;
    let n = d.len();
    if n < 10 {
        return None;
    }
    let total64: u64 = d[0] as u64 + d[1] as u64 * 256 + d[2] as u64 * 65536 + d[3] as u64 * 16777216;
    if total64 < 10 || total64 > n as u64 {
        return None;
    }
    let total = total64 as usize;
    let count = le16_at(d, 4);
    let mut pos: usize = 6;
    let mut xml: Option<Vec<char>> = None;
    let mut k: u16 = 0;
    while k < count
        invariant
            n == d@.len(),
            n == data@.len(),
            d@ == data@,
            n >= 10,
            total == le32(d@, 0),
            10 <= total <= n,
            count == le16(d@, 4),
            pos <= total,
            k <= count,
            pr_records(d@, total as int, 6, count as nat, None) == pr_records(
                d@,
                total as int,
                pos as int,
                (count - k) as nat,
                match xml {
                    Some(x) => Some(x@),
                    None => None,
                },
            ),
        decreases count - k,
    {
        if total - pos < 4 {
            return None;
        }
        let ty = le16_at(d, pos);
        let rl = le16_at(d, pos + 2) as usize;
        let p2 = pos + 4;
        if total - p2 < rl {
            return None;
        }
        if ty == 1 && xml.is_none() {
            xml = utf16_text_exec(d, p2, p2 + rl);
        }
        pos = p2 + rl;
        k = k + 1;
    }
    let x = match xml {
        Some(x) => x,
        None => return None,
    };
    let xs = x.as_slice();
    let version = wrm_version_exec(xs);
    let kids = dedup_strings(extract_kids(xs));
    let la_url = la_url_exec(xs);
    Some(
        PlayReadyPsshData {
            record_count: count,
            wrm_header_version: version,
            key_ids: kids,
            la_url,
            xml: Some(string_of(xs)),
        },
    )
}

// ---------- pssh boxes ----------

/// Number of KIDs a version-1 pssh body lists.
pub open spec fn kid_count(version: u8, b: Seq<u8>) -> nat {
    if version >= 1 {
        at(b, 16, 4)
    } else {
        0
    }
}

/// Position after the KID list (after the system ID in version 0).
pub open spec fn kids_end(version: u8, b: Seq<u8>) -> int {
    if version >= 1 {
        (20 + 16 * at(b, 16, 4)) as int
    } else {
        16
    }
}

/// Why a pssh body (after version and flags) does not parse, if it does not.
pub open spec fn pssh_error(version: u8, b: Seq<u8>) -> Option<Seq<char>> {
    if b.len() < 16 {
        Some("pssh body truncated ("@ + spec_decimal(b.len()) + " bytes)"@)
    } else if version >= 1 && b.len() < 20 {
        Some("pssh KID count truncated"@)
    } else if version >= 1 && kids_end(version, b) > b.len() {
        Some("pssh KID list truncated"@)
    } else if kids_end(version, b) + 4 > b.len() {
        Some("pssh data size truncated"@)
    } else {
        None
    }
}

/// The system-specific data: as many of the declared bytes as the body
/// holds.
pub open spec fn pssh_data(version: u8, b: Seq<u8>) -> Seq<u8> {
    let p = kids_end(version, b) + 4;
    let ds = at(b, kids_end(version, b), 4);
    b.subrange(p, if ds < b.len() - p { p + ds } else { b.len() as int })
}

/// `d` is what the pssh body `b` with the given version and flags decodes to.
pub open spec fn pssh_is(d: PsshData, version: u8, flags: u32, b: Seq<u8>) -> bool {
    let id = b.subrange(0, 16);
    let data = pssh_data(version, b);
    &&& d.version == version
    &&& d.flags == flags
    &&& d.system_id@ == spec_uuid(id)
    &&& opt_name_is(d.system_name, spec_drm_system_name(id))
    &&& strings_view(d.key_ids@) == Seq::new(
        kid_count(version, b),
        |i: int| spec_hex(b.subrange(20 + 16 * i, 36 + 16 * i), false),
    )
    &&& d.data_size == at(b, kids_end(version, b), 4)
    &&& match d.widevine {
        Some(w) => id == widevine_id() && spec_widevine(data) == Some(w@),
        None => id != widevine_id() || spec_widevine(data) is None,
    }
    &&& match d.playready {
        Some(x) => id == playready_id() && spec_playready(data) == Some(x@),
        None => id != playready_id() || spec_playready(data) is None,
    }
}

fn system_id_of(b: &[u8]) -> (r: [u8; 16])
    requires
        b@.len() >= 16,
    ensures
        r@ == b@.subrange(0, 16),
{
    let r: [u8; 16] = [
        b[0], b[1], b[2], b[3], b[4], b[5], b[6], b[7], b[8], b[9], b[10], b[11], b[12], b[13], b[14],
        b[15],
    ];
    proof {
        assert(r@ =~= b@.subrange(0, 16));
    }
    r
}

/// Parses the body of a `pssh` box: everything after the FullBox version
/// and flags. Decodes the system-specific data when the system is Widevine
/// or PlayReady; other systems still yield the generic fields.
pub fn parse_pssh_body(version: u8, flags: u32, body: &[u8]) -> (r: Result<PsshData, String>)
    ensures
        match pssh_error(version, body@) {
            Some(e) => r matches Err(m) && m@ == e,
            None => r matches Ok(d) && pssh_is(d, version, flags, body@),
        },
{
    let b = body;
    let n = b.len();
    if n < 16 {
        let mut m = String::new();
        push_str(&mut m, "pssh body truncated (");
        push_decimal(&mut m, n as u64);
        push_str(&mut m, " bytes)");
        proof {
            assert(m@ =~= pssh_error(version, b@).unwrap());
        }
        return Err(m);
    }
    let id = system_id_of(b);
    let mut pos: usize = 16;
    let mut key_ids: Vec<String> = Vec::new();
    let mut count: usize = 0;
    if version >= 1 {
        if n < 20 {
            return Err("pssh KID count truncated".to_owned());
        }
        let c = read_u32(b, 16) as u64;
        if c > ((n - 20) / 16) as u64 {
            return Err("pssh KID list truncated".to_owned());
        }
        count = c as usize;
        pos = 20;
        let mut i: usize = 0;
        while i < count
            invariant
                n == b@.len(),
                count == at(b@, 16, 4),
                20 + 16 * count <= n,
                i <= count,
                pos == 20 + 16 * i,
                strings_view(key_ids@) == Seq::new(
                    i as nat,
                    |j: int| spec_hex(b@.subrange(20 + 16 * j, 36 + 16 * j), false),
                ),
            decreases count - i,
        {
            let k = crate::util::copy_range(b, pos, pos + 16);
            let ghost before = strings_view(key_ids@);
            let h = hex_string(k.as_slice());
            key_ids.push(h);
            proof {
                assert(strings_view(key_ids@) =~= before.push(h@));
                assert(h@ == spec_hex(b@.subrange(20 + 16 * i, 36 + 16 * i), false));
                assert(strings_view(key_ids@) =~= Seq::new(
                    (i + 1) as nat,
                    |j: int| spec_hex(b@.subrange(20 + 16 * j, 36 + 16 * j), false),
                ));
            }
            pos = pos + 16;
            i = i + 1;
        }
    }
    proof {
        assert(pos == kids_end(version, b@));
        assert(strings_view(key_ids@) == Seq::new(
            kid_count(version, b@),
            |j: int| spec_hex(b@.subrange(20 + 16 * j, 36 + 16 * j), false),
        ));
    }
    if n - pos < 4 {
        return Err("pssh data size truncated".to_owned());
    }
    let data_size = read_u32(b, pos);
    let p = pos + 4;
    let end = if (data_size as u64) < (n - p) as u64 {
        p + data_size as usize
    } else {
        n
    };
    let data = crate::util::copy_range(b, p, end);
    let wv: [u8; 16] = WIDEVINE_SYSTEM_ID;
    let pr: [u8; 16] = PLAYREADY_SYSTEM_ID;
    proof {
        assert(wv@ =~= widevine_id());
        assert(pr@ =~= playready_id());
        assert(data@ == pssh_data(version, b@));
    }
    let widevine = if ids_equal(id.as_slice(), &wv, Ghost(widevine_id())) {
        match parse_widevine_pssh_data(data.as_slice()) {
            Some(w) => Some(Box::new(w)),
            None => None,
        }
    } else {
        None
    };
    let playready = if ids_equal(id.as_slice(), &pr, Ghost(playready_id())) {
        match parse_playready_pssh_data(data.as_slice()) {
            Some(x) => Some(Box::new(x)),
            None => None,
        }
    } else {
        None
    };
    let system_name = match drm_system_name(&id) {
        Some(x) => Some(x.to_owned()),
        None => None,
    };
    Ok(
        PsshData {
            version,
            flags,
            system_id: uuid_string(&id),
            system_name,
            key_ids,
            data_size,
            widevine,
            playready,
        },
    )
}

/// The bytes `pssh` of a box type.
pub open spec fn is_pssh_tag(d: Seq<u8>, pos: int) -> bool {
    d.subrange(pos + 4, pos + 8) == seq![0x70u8, 0x73, 0x73, 0x68]
}

/// The size of the box at `pos`: its declared size, or the rest of the
/// data when that is 0.
pub open spec fn pssh_box_size(d: Seq<u8>, pos: int) -> int {
    if at(d, pos, 4) == 0 {
        d.len() - pos
    } else {
        at(d, pos, 4) as int
    }
}

/// The pssh boxes from `pos` on: each one's version, flags and body range;
/// or the message of the first that does not parse.
pub open spec fn pssh_frames(d: Seq<u8>, pos: int) -> Result<Seq<(u8, u32, int, int)>, Seq<char>>
    decreases d.len() - pos,
{
    if pos < 0 || d.len() - pos < 8 {
        Ok(Seq::empty())
    } else if !is_pssh_tag(d, pos) {
        Err("not a pssh box at offset "@ + spec_decimal(pos as nat))
    } else {
        let size = pssh_box_size(d, pos);
        if size < 12 || pos + size > d.len() {
            Err(
                "invalid pssh box size "@ + spec_decimal(at(d, pos, 4)) + " at offset "@ + spec_decimal(
                    pos as nat,
                ),
            )
        } else {
            let v = d[pos + 8];
            let f = at(d, pos + 9, 3) as u32;
            match pssh_error(v, d.subrange(pos + 12, pos + size)) {
                Some(e) => Err(e),
                None => match pssh_frames(d, pos + size) {
                    Err(e) => Err(e),
                    Ok(rest) => Ok(seq![(v, f, pos + 12, pos + size)] + rest),
                },
            }
        }
    }
}

/// `done` followed by the frames of `r`, or `r`'s error.
pub open spec fn after_frames(done: Seq<(u8, u32, int, int)>, r: Result<Seq<(u8, u32, int, int)>, Seq<char>>) -> Result<
    Seq<(u8, u32, int, int)>,
    Seq<char>,
> {
    match r {
        Err(e) => Err(e),
        Ok(rest) => Ok(done + rest),
    }
}

// ---------- concatenated pssh boxes ----------

/// The frames `fr` moved `k` bytes further into the data.
pub open spec fn shift_frames(fr: Seq<(u8, u32, int, int)>, k: int) -> Seq<(u8, u32, int, int)> {
    Seq::new(fr.len(), |i: int| (fr[i].0, fr[i].1, fr[i].2 + k, fr[i].3 + k))
}

/// The frames run from `pos` to the very end of `d` (no short tail), and
/// every box declares its size (none runs "to the end").
pub open spec fn frames_cover(d: Seq<u8>, pos: int, fr: Seq<(u8, u32, int, int)>) -> bool {
    &&& (fr.len() == 0 ==> pos == d.len())
    &&& (fr.len() > 0 ==> fr.last().3 == d.len())
    &&& forall|i: int| 0 <= i < fr.len() ==> at(d, #[trigger] fr[i].2 - 12, 4) != 0
}

proof fn lemma_frames_tail(b: Seq<u8>, a_len: int, q: int)
    requires
        0 <= q <= b.len(),
        0 <= a_len,
    ensures
        forall|a: Seq<u8>| #![trigger pssh_frames(a + b, a_len + q)]
            a.len() == a_len && pssh_frames(b, q) is Ok ==> pssh_frames(a + b, a_len + q) == Ok::<
                Seq<(u8, u32, int, int)>,
                Seq<char>,
            >(shift_frames(pssh_frames(b, q)->Ok_0, a_len)),
    decreases b.len() - q,
{
    assert forall|a: Seq<u8>| #![trigger pssh_frames(a + b, a_len + q)]
        a.len() == a_len && pssh_frames(b, q) is Ok implies pssh_frames(a + b, a_len + q) == Ok::<
            Seq<(u8, u32, int, int)>,
            Seq<char>,
        >(shift_frames(pssh_frames(b, q)->Ok_0, a_len)) by {
        let d = a + b;
        let p = a_len + q;
        if b.len() - q < 8 {
            assert(shift_frames(Seq::<(u8, u32, int, int)>::empty(), a_len) =~= Seq::empty());
        } else {
            assert(d.subrange(p + 4, p + 8) =~= b.subrange(q + 4, q + 8));
            assert(d.subrange(p, p + 4) =~= b.subrange(q, q + 4));
            let size = pssh_box_size(b, q);
            assert(pssh_box_size(d, p) == size);
            if size >= 12 && q + size <= b.len() {
                assert(d[p + 8] == b[q + 8]);
                assert(d.subrange(p + 9, p + 12) =~= b.subrange(q + 9, q + 12));
                assert(d.subrange(p + 12, p + size) =~= b.subrange(q + 12, q + size));
                let v = b[q + 8];
                if pssh_error(v, b.subrange(q + 12, q + size)) is None {
                    lemma_frames_tail(b, a_len, q + size);
                    assert(pssh_frames(d, p + size) == pssh_frames(a + b, a_len + (q + size)));
                    let rest = pssh_frames(b, q + size)->Ok_0;
                    let f = at(b, q + 9, 3) as u32;
                    assert(shift_frames(seq![(v, f, q + 12, q + size)] + rest, a_len) =~= seq![
                        (v, f, p + 12, p + size),
                    ] + shift_frames(rest, a_len));
                }
            }
        }
    }
}

proof fn lemma_frames_head(a: Seq<u8>, b: Seq<u8>, pos: int)
    requires
        0 <= pos <= a.len(),
        pssh_frames(a, pos) is Ok,
        frames_cover(a, pos, pssh_frames(a, pos)->Ok_0),
        pssh_frames(b, 0) is Ok,
    ensures
        pssh_frames(a + b, pos) == Ok::<Seq<(u8, u32, int, int)>, Seq<char>>(
            pssh_frames(a, pos)->Ok_0 + shift_frames(pssh_frames(b, 0)->Ok_0, a.len() as int),
        ),
    decreases a.len() - pos,
{
    let d = a + b;
    let fa = pssh_frames(a, pos)->Ok_0;
    let fb = shift_frames(pssh_frames(b, 0)->Ok_0, a.len() as int);
    if pos == a.len() {
        lemma_frames_tail(b, a.len() as int, 0);
        assert(pssh_frames(a + b, a.len() as int + 0) == Ok::<Seq<(u8, u32, int, int)>, Seq<char>>(fb));
        assert(fa =~= Seq::empty());
        assert(fa + fb =~= fb);
    } else {
        assert(a.len() - pos >= 8);
        assert(d.subrange(pos + 4, pos + 8) =~= a.subrange(pos + 4, pos + 8));
        assert(d.subrange(pos, pos + 4) =~= a.subrange(pos, pos + 4));
        let size = pssh_box_size(a, pos);
        let v = a[pos + 8];
        let f = at(a, pos + 9, 3) as u32;
        let rest = pssh_frames(a, pos + size)->Ok_0;
        assert(fa == seq![(v, f, pos + 12, pos + size)] + rest);
        assert(fa[0].2 - 12 == pos);
        assert(at(a, pos, 4) != 0);
        assert(pssh_box_size(d, pos) == size);
        assert(d[pos + 8] == v);
        assert(d.subrange(pos + 9, pos + 12) =~= a.subrange(pos + 9, pos + 12));
        assert(d.subrange(pos + 12, pos + size) =~= a.subrange(pos + 12, pos + size));
        assert forall|i: int| 0 <= i < rest.len() implies at(a, #[trigger] rest[i].2 - 12, 4) != 0 by {
            assert(rest[i] == fa[i + 1]);
        }
        if rest.len() > 0 {
            assert(rest.last() == fa.last());
        }
        lemma_frames_head(a, b, pos + size);
        assert(fa + fb =~= seq![(v, f, pos + 12, pos + size)] + (rest + fb));
    }
}

/// Parsing concatenated pssh boxes gives the frames of each part in turn
/// (those of the second part moved by the length of the first), when the
/// first part is whole boxes that each declare their size.
/// Each frame's body is the same bytes in the concatenation as in its
/// part, so `parse_pssh_boxes` describes the same boxes.
pub proof fn lemma_pssh_concat(a: Seq<u8>, b: Seq<u8>)
    requires
        pssh_frames(a, 0) is Ok,
        frames_cover(a, 0, pssh_frames(a, 0)->Ok_0),
        pssh_frames(b, 0) is Ok,
    ensures
        pssh_frames(a + b, 0) == Ok::<Seq<(u8, u32, int, int)>, Seq<char>>(
            pssh_frames(a, 0)->Ok_0 + shift_frames(pssh_frames(b, 0)->Ok_0, a.len() as int),
        ),
        forall|i: int|
            0 <= i < pssh_frames(a, 0)->Ok_0.len() ==> (a + b).subrange(
                #[trigger] pssh_frames(a, 0)->Ok_0[i].2,
                pssh_frames(a, 0)->Ok_0[i].3,
            ) == a.subrange(pssh_frames(a, 0)->Ok_0[i].2, pssh_frames(a, 0)->Ok_0[i].3),
        forall|k: int|
            0 <= k < pssh_frames(b, 0)->Ok_0.len() ==> (a + b).subrange(
                #[trigger] pssh_frames(b, 0)->Ok_0[k].2 + a.len(),
                pssh_frames(b, 0)->Ok_0[k].3 + a.len(),
            ) == b.subrange(pssh_frames(b, 0)->Ok_0[k].2, pssh_frames(b, 0)->Ok_0[k].3),
{
    lemma_frames_head(a, b, 0);
    lemma_frames_within(a, 0);
    lemma_frames_within(b, 0);
    let fa = pssh_frames(a, 0)->Ok_0;
    let fb = pssh_frames(b, 0)->Ok_0;
    assert forall|i: int| 0 <= i < fa.len() implies (a + b).subrange(#[trigger] fa[i].2, fa[i].3) == a.subrange(
        fa[i].2,
        fa[i].3,
    ) by {
        assert((a + b).subrange(fa[i].2, fa[i].3) =~= a.subrange(fa[i].2, fa[i].3));
    }
    assert forall|k: int| 0 <= k < fb.len() implies (a + b).subrange(
        #[trigger] fb[k].2 + a.len(),
        fb[k].3 + a.len(),
    ) == b.subrange(fb[k].2, fb[k].3) by {
        assert((a + b).subrange(fb[k].2 + a.len(), fb[k].3 + a.len()) =~= b.subrange(fb[k].2, fb[k].3));
    }
}

/// Every frame lies inside the data, its body after its 12-byte head.
proof fn lemma_frames_within(d: Seq<u8>, pos: int)
    requires
        0 <= pos,
        pssh_frames(d, pos) is Ok,
    ensures
        forall|i: int|
            0 <= i < pssh_frames(d, pos)->Ok_0.len() ==> pos + 12 <= (#[trigger] pssh_frames(d, pos)->Ok_0[i]).2
                <= pssh_frames(d, pos)->Ok_0[i].3 <= d.len(),
    decreases d.len() - pos,
{
    if d.len() - pos >= 8 {
        let size = pssh_box_size(d, pos);
        lemma_frames_within(d, pos + size);
        let fr = pssh_frames(d, pos)->Ok_0;
        let rest = pssh_frames(d, pos + size)->Ok_0;
        assert forall|i: int| 0 <= i < fr.len() implies pos + 12 <= (#[trigger] fr[i]).2 <= fr[i].3 <= d.len() by {
            if i > 0 {
                assert(fr[i] == rest[i - 1]);
            }
        }
    }
}

/// Parses one or more concatenated raw `pssh` boxes, the form DASH
/// `cenc:pssh` manifest elements carry. Fails on anything that is not a
/// well-formed pssh box, so it can serve as a format probe.
pub fn parse_pssh_boxes(data: &[u8]) -> (r: Result<Vec<PsshData>, String>)
    ensures
        match pssh_frames(data@, 0) {
            Err(e) => r matches Err(m) && m@ == e,
            Ok(fr) => if fr.len() == 0 {
                r matches Err(m) && m@ == "no pssh box found"@
            } else {
                r matches Ok(out) && out@.len() == fr.len() && forall|i: int|
                    0 <= i < fr.len() ==> pssh_is(
                        #[trigger] out@[i],
                        fr[i].0,
                        fr[i].1,
                        data@.subrange(fr[i].2, fr[i].3),
                    )
            },
        },
{
    let d = data;
    let n = d.len();
    let mut out: Vec<PsshData> = Vec::new();
    let mut pos: usize = 0;
    let ghost mut done: Seq<(u8, u32, int, int)> = Seq::empty();
    proof {
        assert(after_frames(done, pssh_frames(d@, 0)) =~= pssh_frames(d@, 0)) by {
            match pssh_frames(d@, 0) {
                Ok(rest) => {
                    assert(done + rest =~= rest);
                },
                Err(_) => {},
            }
        }
    }
    while n - pos >= 8
        invariant
            n == d@.len(),
            d@ == data@,
            pos <= n,
            pssh_frames(d@, 0) == after_frames(done, pssh_frames(d@, pos as int)),
            out@.len() == done.len(),
            forall|i: int|
                0 <= i < done.len() ==> pssh_is(
                    #[trigger] out@[i],
                    done[i].0,
                    done[i].1,
                    d@.subrange(done[i].2, done[i].3),
                ),
        decreases n - pos,
    {
        if !(d[pos + 4] == 0x70u8 && d[pos + 5] == 0x73u8 && d[pos + 6] == 0x73u8 && d[pos + 7]
            == 0x68u8) {
            proof {
                assert(!is_pssh_tag(d@, pos as int)) by {
                    if is_pssh_tag(d@, pos as int) {
                        assert(d@.subrange(pos + 4, pos + 8)[0] == d@[pos + 4]);
                        assert(d@.subrange(pos + 4, pos + 8)[1] == d@[pos + 5]);
                        assert(d@.subrange(pos + 4, pos + 8)[2] == d@[pos + 6]);
                        assert(d@.subrange(pos + 4, pos + 8)[3] == d@[pos + 7]);
                    }
                }
            }
            let mut m = String::new();
            push_str(&mut m, "not a pssh box at offset ");
            push_decimal(&mut m, pos as u64);
            return Err(m);
        }
        proof {
            assert(d@.subrange(pos + 4, pos + 8) =~= seq![0x70u8, 0x73, 0x73, 0x68]);
        }
        let declared = read_u32(d, pos);
        let size: usize = if declared == 0 {
            n - pos
        } else {
            declared as usize
        };
        if size < 12 || size > n - pos {
            let mut m = String::new();
            push_str(&mut m, "invalid pssh box size ");
            push_decimal(&mut m, declared as u64);
            push_str(&mut m, " at offset ");
            push_decimal(&mut m, pos as u64);
            return Err(m);
        }
        let version = d[pos + 8];
        let flags: u32 = d[pos + 9] as u32 * 65536 + d[pos + 10] as u32 * 256 + d[pos + 11] as u32;
        proof {
            crate::util::lemma_pow256_values();
            assert(at(d@, pos + 9, 3) == flags) by {
                reveal_with_fuel(crate::util::be_value, 4);
            }
        }
        let body = crate::util::copy_range(d, pos + 12, pos + size);
        let parsed = match parse_pssh_body(version, flags, body.as_slice()) {
            Ok(x) => x,
            Err(e) => return Err(e),
        };
        out.push(parsed);
        proof {
            let fr = (version, flags, pos + 12, pos + size);
            let old_done = done;
            done = done.push(fr);
            assert forall|i: int| 0 <= i < done.len() implies pssh_is(
                #[trigger] out@[i],
                done[i].0,
                done[i].1,
                d@.subrange(done[i].2, done[i].3),
            ) by {
                if i < old_done.len() {
                    assert(done[i] == old_done[i]);
                }
            }
            match pssh_frames(d@, pos + size) {
                Ok(rest) => {
                    assert(old_done + (seq![fr] + rest) =~= done + rest);
                },
                Err(_) => {},
            }
        }
        pos = pos + size;
    }
    if out.len() == 0 {
        return Err("no pssh box found".to_owned());
    }
    proof {
        assert(done + Seq::<(u8, u32, int, int)>::empty() =~= done);
    }
    Ok(out)
}

/// Wraps a bare Widevine payload (protobuf without box framing, as found in
/// packager logs) in a pssh record with the Widevine system ID. Returns
/// `None` when the bytes do not decode as Widevine.
pub fn pssh_from_raw_widevine(data: &[u8]) -> (r: Option<PsshData>)
    ensures
        match spec_widevine(data@) {
            None => r is None,
            Some(st) => r matches Some(d) && {
                &&& d.version == 0
                &&& d.flags == 0
                &&& d.system_id@ == spec_uuid(widevine_id())
                &&& opt_name_is(d.system_name, Some("Widevine"))
                &&& d.key_ids@.len() == 0
                &&& d.data_size == data@.len() as u32
                &&& d.widevine matches Some(w) && w@ == st
                &&& d.playready is None
            },
        },
{
    let w = match parse_widevine_pssh_data(data) {
        Some(w) => w,
        None => return None,
    };
    let wv: [u8; 16] = WIDEVINE_SYSTEM_ID;
    proof {
        assert(wv@ =~= widevine_id());
    }
    Some(
        PsshData {
            version: 0,
            flags: 0,
            system_id: uuid_string(&wv),
            system_name: Some("Widevine".to_owned()),
            key_ids: Vec::new(),
            data_size: data.len() as u32,
            widevine: Some(Box::new(w)),
            playready: None,
        },
    )
}

} // verus!
