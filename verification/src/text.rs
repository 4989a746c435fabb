//! Character-level text utilities: substring search, replacement,
//! whitespace trimming, minimal XML lookups, UTF-16LE decoding and base64.

use vstd::prelude::*;

verus! {

// ---------- search ----------

/// `pat` occurs in `s` at index `i`.
pub open spec fn occurs_at(s: Seq<char>, pat: Seq<char>, i: int) -> bool {
    0 <= i && i + pat.len() <= s.len() && s.subrange(i, i + pat.len()) == pat
}

/// Index of the first occurrence of `pat` in `s` at or after `i`.
pub open spec fn find_from(s: Seq<char>, pat: Seq<char>, i: int) -> Option<int>
    decreases s.len() + 1 - i,
{
    if i < 0 || i + pat.len() > s.len() {
        None
    } else if occurs_at(s, pat, i) {
        Some(i)
    } else {
        find_from(s, pat, i + 1)
    }
}

pub proof fn lemma_find_from(s: Seq<char>, pat: Seq<char>, i: int)
    requires
        0 <= i,
    ensures
        find_from(s, pat, i) matches Some(f) ==> i <= f && f + pat.len() <= s.len() && occurs_at(
            s,
            pat,
            f,
        ),
    decreases s.len() + 1 - i,
{
    if i + pat.len() <= s.len() && !occurs_at(s, pat, i) {
        lemma_find_from(s, pat, i + 1);
    }
}

fn occurs(s: &[char], pat: &[char], i: usize) -> (r: bool)
    requires
        i + pat@.len() <= s@.len(),
    ensures
        r == occurs_at(s@, pat@, i as int),
{
    let n = s.len();
    let mut j: usize = 0;
    while j < pat.len()
        invariant
            j <= pat@.len(),
            n == s@.len(),
            i + pat@.len() <= s@.len(),
            forall|k: int| 0 <= k < j ==> s@[i + k] == pat@[k],
        decreases pat@.len() - j,
    {
        if s[i + j] != pat[j] {
            assert(s@.subrange(i as int, i + pat@.len())[j as int] != pat@[j as int]);
            return false;
        }
        j = j + 1;
    }
    assert(s@.subrange(i as int, i + pat@.len()) =~= pat@);
    true
}

/// Finds the first occurrence of `pat` in `s` at or after `from`.
pub fn find_chars(s: &[char], pat: &[char], from: usize) -> (r: Option<usize>)
    ensures
        match find_from(s@, pat@, from as int) {
            Some(f) => r matches Some(x) && x == f,
            None => r is None,
        },
{
    let n = s.len();
    let mut i = from;
    while i <= s.len() && pat.len() <= s.len() - i
        invariant
            from <= i,
            n == s@.len(),
            find_from(s@, pat@, from as int) == find_from(s@, pat@, i as int),
        decreases s@.len() + 1 - i,
    {
        if occurs(s, pat, i) {
            return Some(i);
        }
        proof {
            if pat@.len() == 0 {
                assert(s@.subrange(i as int, i as int) =~= pat@);
            }
        }
        i = i + 1;
    }
    None
}

/// Copies `s[a..b]`.
pub fn sub_chars(s: &[char], a: usize, b: usize) -> (r: Vec<char>)
    requires
        a <= b <= s@.len(),
    ensures
        r@ == s@.subrange(a as int, b as int),
{
    let mut out: Vec<char> = Vec::new();
    let mut i = a;
    while i < b
        invariant
            a <= i <= b <= s@.len(),
            out@ == s@.subrange(a as int, i as int),
        decreases b - i,
    {
        out.push(s[i]);
        proof {
            assert(out@ =~= s@.subrange(a as int, i + 1));
        }
        i = i + 1;
    }
    out
}

/// A string holding the given characters.
pub fn string_of(s: &[char]) -> (r: String)
    ensures
        r@ == s@,
{
    let mut out = String::new();
    let mut i: usize = 0;
    while i < s.len()
        invariant
            i <= s@.len(),
            out@ == s@.subrange(0, i as int),
        decreases s@.len() - i,
    {
        crate::util::push_char(&mut out, s[i]);
        proof {
            assert(out@ =~= s@.subrange(0, i + 1));
        }
        i = i + 1;
    }
    proof {
        assert(s@.subrange(0, s@.len() as int) =~= s@);
    }
    out
}

// ---------- replacement ----------

/// `s` with each non-overlapping occurrence of `from`, scanning left to
/// right, replaced by `to` (`str::replace`).
pub open spec fn replace_all(s: Seq<char>, from: Seq<char>, to: Seq<char>) -> Seq<char>
    decreases s.len(),
{
    if s.len() == 0 {
        Seq::empty()
    } else if from.len() > 0 && occurs_at(s, from, 0) {
        to + replace_all(s.subrange(from.len() as int, s.len() as int), from, to)
    } else {
        seq![s[0]] + replace_all(s.drop_first(), from, to)
    }
}

/// Replaces every occurrence of `from` in `s` by `to`.
pub fn replace_chars(s: &[char], from: &[char], to: &[char]) -> (r: Vec<char>)
    ensures
        r@ == replace_all(s@, from@, to@),
{
    let mut out: Vec<char> = Vec::new();
    let mut i: usize = 0;
    proof {
        assert(s@.subrange(0, s@.len() as int) =~= s@);
        assert(out@ + s@ =~= s@);
    }
    while i < s.len()
        invariant
            i <= s@.len(),
            out@ + replace_all(s@.subrange(i as int, s@.len() as int), from@, to@) == replace_all(
                s@,
                from@,
                to@,
            ),
        decreases s@.len() - i,
    {
        let ghost rest = s@.subrange(i as int, s@.len() as int);
        if from.len() > 0 && from.len() <= s.len() - i && occurs(s, from, i) {
            proof {
                assert(rest.subrange(0, from@.len() as int) =~= s@.subrange(i as int, i + from@.len()));
                assert(rest.subrange(from@.len() as int, rest.len() as int) =~= s@.subrange(
                    i + from@.len(),
                    s@.len() as int,
                ));
            }
            let mut k: usize = 0;
            let ghost before = out@;
            while k < to.len()
                invariant
                    k <= to@.len(),
                    out@ == before + to@.subrange(0, k as int),
                decreases to@.len() - k,
            {
                out.push(to[k]);
                proof {
                    assert(out@ =~= before + to@.subrange(0, k + 1));
                }
                k = k + 1;
            }
            proof {
                assert(to@.subrange(0, to@.len() as int) =~= to@);
                assert(out@ + replace_all(s@.subrange(i + from@.len(), s@.len() as int), from@, to@)
                    =~= before + replace_all(rest, from@, to@));
            }
            i = i + from.len();
        } else {
            proof {
                if from@.len() > 0 && occurs_at(rest, from@, 0) {
                    assert(rest.subrange(0, from@.len() as int) =~= s@.subrange(
                        i as int,
                        i + from@.len(),
                    ));
                }
                assert(rest.drop_first() =~= s@.subrange(i + 1, s@.len() as int));
            }
            let ghost before = out@;
            out.push(s[i]);
            proof {
                assert(out@ + replace_all(s@.subrange(i + 1, s@.len() as int), from@, to@) =~= before
                    + replace_all(rest, from@, to@));
            }
            i = i + 1;
        }
    }
    proof {
        assert(s@.subrange(s@.len() as int, s@.len() as int) =~= Seq::<char>::empty());
        assert(out@ =~= replace_all(s@, from@, to@));
    }
    out
}

// ---------- trimming ----------

/// Unicode White_Space, as `char::is_whitespace` defines it.
pub open spec fn is_space(c: char) -> bool {
    ('\u{9}' <= c <= '\u{d}') || c == ' ' || c == '\u{85}' || c == '\u{a0}' || c == '\u{1680}' || (
    '\u{2000}' <= c <= '\u{200a}') || c == '\u{2028}' || c == '\u{2029}' || c == '\u{202f}' || c
        == '\u{205f}' || c == '\u{3000}'
}

fn is_space_exec(c: char) -> (r: bool)
    ensures
        r == is_space(c),
{
    ('\u{9}' <= c && c <= '\u{d}') || c == ' ' || c == '\u{85}' || c == '\u{a0}' || c == '\u{1680}'
        || ('\u{2000}' <= c && c <= '\u{200a}') || c == '\u{2028}' || c == '\u{2029}' || c
        == '\u{202f}' || c == '\u{205f}' || c == '\u{3000}'
}

/// Number of leading whitespace characters of `s` from `i` on.
pub open spec fn lead_space(s: Seq<char>, i: int) -> int
    decreases s.len() - i,
{
    if i < 0 || i >= s.len() || !is_space(s[i]) {
        i
    } else {
        lead_space(s, i + 1)
    }
}

/// Index after the last non-whitespace character of `s` before `e`, but
/// not below `lo`.
pub open spec fn trail_space(s: Seq<char>, lo: int, e: int) -> int
    decreases e - lo,
{
    if e <= lo || e > s.len() || !is_space(s[e - 1]) {
        e
    } else {
        trail_space(s, lo, e - 1)
    }
}

/// `s` without leading and trailing whitespace (`str::trim`).
pub open spec fn trim(s: Seq<char>) -> Seq<char> {
    let a = lead_space(s, 0);
    s.subrange(a, trail_space(s, a, s.len() as int))
}

proof fn lemma_lead_space(s: Seq<char>, i: int)
    requires
        0 <= i <= s.len(),
    ensures
        i <= lead_space(s, i) <= s.len(),
    decreases s.len() - i,
{
    if i < s.len() && is_space(s[i]) {
        lemma_lead_space(s, i + 1);
    }
}

proof fn lemma_trail_space(s: Seq<char>, lo: int, e: int)
    requires
        0 <= lo <= e <= s.len(),
    ensures
        lo <= trail_space(s, lo, e) <= e,
    decreases e - lo,
{
    if e > lo && is_space(s[e - 1]) {
        lemma_trail_space(s, lo, e - 1);
    }
}

/// Trims whitespace from both ends.
pub fn trim_chars(s: &[char]) -> (r: Vec<char>)
    ensures
        r@ == trim(s@),
{
    let mut a: usize = 0;
    while a < s.len() && is_space_exec(s[a])
        invariant
            a <= s@.len(),
            lead_space(s@, 0) == lead_space(s@, a as int),
        decreases s@.len() - a,
    {
        a = a + 1;
    }
    let mut e: usize = s.len();
    while e > a && is_space_exec(s[e - 1])
        invariant
            a <= e <= s@.len(),
            trail_space(s@, a as int, s@.len() as int) == trail_space(s@, a as int, e as int),
        decreases e,
    {
        e = e - 1;
    }
    sub_chars(s, a, e)
}

// ---------- XML lookups ----------

/// Value of the attribute whose `name="` prefix is `needle` in the tag text
/// `t`: the characters up to the next `"`.
pub open spec fn attr_value(t: Seq<char>, needle: Seq<char>) -> Option<Seq<char>> {
    match find_from(t, needle, 0) {
        None => None,
        Some(f) => {
            let st = f + needle.len();
            match find_from(t, seq!['"'], st) {
                None => None,
                Some(e) => Some(t.subrange(st, e)),
            }
        },
    }
}

/// Finds an attribute value in a tag's text.
pub fn attr_value_chars(t: &[char], needle: &[char]) -> (r: Option<Vec<char>>)
    ensures
        match attr_value(t@, needle@) {
            Some(v) => r matches Some(x) && x@ == v,
            None => r is None,
        },
{
    proof {
        lemma_find_from(t@, needle@, 0);
    }
    let tl = t.len();
    let f = match find_chars(t, needle, 0) {
        Some(f) => f,
        None => return None,
    };
    let st = f + needle.len();
    let q: [char; 1] = ['"'];
    proof {
        assert(q@ =~= seq!['"']);
        lemma_find_from(t@, seq!['"'], st as int);
    }
    let e = match find_chars(t, q.as_slice(), st) {
        Some(e) => e,
        None => return None,
    };
    Some(sub_chars(t, st, e))
}

/// Text between the first `open` and the next `close` after it.
pub open spec fn element_text(s: Seq<char>, open: Seq<char>, close: Seq<char>) -> Option<Seq<char>> {
    match find_from(s, open, 0) {
        None => None,
        Some(f) => {
            let st = f + open.len();
            match find_from(s, close, st) {
                None => None,
                Some(e) => Some(s.subrange(st, e)),
            }
        },
    }
}

/// Finds the text of the first element delimited by `open` and `close`.
pub fn element_text_chars(s: &[char], open: &[char], close: &[char]) -> (r: Option<Vec<char>>)
    ensures
        match element_text(s@, open@, close@) {
            Some(v) => r matches Some(x) && x@ == v,
            None => r is None,
        },
{
    proof {
        lemma_find_from(s@, open@, 0);
    }
    let sl = s.len();
    let f = match find_chars(s, open, 0) {
        Some(f) => f,
        None => return None,
    };
    let st = f + open.len();
    proof {
        lemma_find_from(s@, close@, st as int);
    }
    let e = match find_chars(s, close, st) {
        Some(e) => e,
        None => return None,
    };
    Some(sub_chars(s, st, e))
}

// ---------- UTF-16 ----------

/// The UTF-16 code unit at unit index `i` of little-endian bytes.
pub open spec fn unit_le(b: Seq<u8>, i: int) -> int {
    b[2 * i] + b[2 * i + 1] * 256
}

/// Decodes UTF-16LE units from index `i` on, appending to `acc`; `None`
/// on an unpaired surrogate.
pub open spec fn utf16_from(b: Seq<u8>, i: int, acc: Seq<char>) -> Option<Seq<char>>
    decreases b.len() - 2 * i,
{
    if i < 0 || 2 * i + 1 >= b.len() {
        Some(acc)
    } else {
        let u = unit_le(b, i);
        if u < 0xD800 || u > 0xDFFF {
            utf16_from(b, i + 1, acc.push(u as char))
        } else if u <= 0xDBFF && 2 * i + 3 < b.len() && 0xDC00 <= unit_le(b, i + 1) <= 0xDFFF {
            utf16_from(
                b,
                i + 2,
                acc.push((0x10000 + (u - 0xD800) * 1024 + (unit_le(b, i + 1) - 0xDC00)) as char),
            )
        } else {
            None
        }
    }
}

/// std's `char::from_u32`. Claimed, as its documentation says: a `char`
/// exactly for the Unicode scalar values, with that value.
#[verifier::external_body]
fn char_from_u32(v: u32) -> (r: Option<char>)
    ensures
        r is Some <==> (v <= 0xD7FF || (0xE000 <= v <= 0x10FFFF)),
        r matches Some(c) ==> c == v as char,
{
    char::from_u32(v)
}

/// Decodes little-endian UTF-16 of even length.
pub fn utf16le_decode(b: &[u8]) -> (r: Option<Vec<char>>)
    requires
        b@.len() % 2 == 0,
    ensures
        match utf16_from(b@, 0, Seq::empty()) {
            Some(s) => r matches Some(x) && x@ == s,
            None => r is None,
        },
{
    let mut out: Vec<char> = Vec::new();
    let mut i: usize = 0;
    let n = b.len();
    while i < n / 2
        invariant
            n == b@.len(),
            n % 2 == 0,
            i <= n / 2,
            utf16_from(b@, 0, Seq::empty()) == utf16_from(b@, i as int, out@),
        decreases n / 2 - i,
    {
        let u: u32 = b[2 * i] as u32 + b[2 * i + 1] as u32 * 256;
        if u < 0xD800 || u > 0xDFFF {
            let c = match char_from_u32(u) {
                Some(c) => c,
                None => return None,
            };
            out.push(c);
            i = i + 1;
        } else if u <= 0xDBFF && i + 1 < n / 2 {
            let w: u32 = b[2 * i + 2] as u32 + b[2 * i + 3] as u32 * 256;
            if 0xDC00 <= w && w <= 0xDFFF {
                let v = 0x10000 + (u - 0xD800) * 1024 + (w - 0xDC00);
                let c = match char_from_u32(v) {
                    Some(c) => c,
                    None => return None,
                };
                out.push(c);
                i = i + 2;
            } else {
                return None;
            }
        } else {
            return None;
        }
    }
    Some(out)
}

/// `s` without its leading byte-order marks.
pub open spec fn strip_bom(s: Seq<char>) -> Seq<char>
    decreases s.len(),
{
    if s.len() > 0 && s[0] == '\u{feff}' {
        strip_bom(s.drop_first())
    } else {
        s
    }
}

/// Removes leading byte-order marks.
pub fn strip_bom_chars(s: &[char]) -> (r: Vec<char>)
    ensures
        r@ == strip_bom(s@),
{
    let mut a: usize = 0;
    proof {
        assert(s@.subrange(0, s@.len() as int) =~= s@);
    }
    while a < s.len() && s[a] == '\u{feff}'
        invariant
            a <= s@.len(),
            strip_bom(s@) == strip_bom(s@.subrange(a as int, s@.len() as int)),
        decreases s@.len() - a,
    {
        proof {
            assert(s@.subrange(a as int, s@.len() as int).drop_first() =~= s@.subrange(
                a + 1,
                s@.len() as int,
            ));
        }
        a = a + 1;
    }
    sub_chars(s, a, s.len())
}

} // verus!
