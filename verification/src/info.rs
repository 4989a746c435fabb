//! Lookups in the one-line `key=value` summaries that box decoders produce
//! (`timescale=600 duration=1200`, `major=isom minor=512 compatible=[..]`).

use vstd::prelude::*;
use vstd::string::StrSliceExecFns;
use crate::text::{find_from, find_chars, lemma_find_from, is_space, lead_space, sub_chars, string_of};
use crate::drm::{opt_view, strings_view};
use crate::api::Box;
use crate::registry::data::StructuredData;
use crate::boxes::lossy_char;
use crate::edit::EditError;
use crate::edit::path::{parse_path, spec_parse_path};
use vstd::string::StringSliceAdditionalSpecFns;

verus! {

/// The characters of `s`, in order.
pub fn chars_of(s: &str) -> (r: Vec<char>)
    ensures
        r@ == s@,
{
    let n = s.unicode_len();
    let mut out: Vec<char> = Vec::new();
    let mut i: usize = 0;
    while i < n
        invariant
            n == s@.len(),
            i <= n,
            out@ == s@.subrange(0, i as int),
        decreases n - i,
    {
        out.push(s.get_char(i));
        i = i + 1;
        assert(out@ =~= s@.subrange(0, i as int));
    }
    assert(out@ =~= s@);
    out
}

/// An ASCII decimal digit.
pub open spec fn is_digit(c: char) -> bool {
    '0' <= c <= '9'
}

/// First index at or after `i` that does not hold a digit.
pub open spec fn digit_run(s: Seq<char>, i: int) -> int
    decreases s.len() - i,
{
    if i < 0 || i >= s.len() || !is_digit(s[i]) {
        i
    } else {
        digit_run(s, i + 1)
    }
}

/// First index at or after `i` that holds whitespace.
pub open spec fn token_run(s: Seq<char>, i: int) -> int
    decreases s.len() - i,
{
    if i < 0 || i >= s.len() || is_space(s[i]) {
        i
    } else {
        token_run(s, i + 1)
    }
}

/// Value of a run of decimal digits.
pub open spec fn digits_of(s: Seq<char>) -> nat
    decreases s.len(),
{
    if s.len() == 0 {
        0
    } else {
        digits_of(s.drop_last()) * 10 + ((s.last() as nat) - 48) as nat
    }
}

/// What follows the first occurrence of `key` in `s`.
pub open spec fn after_key(s: Seq<char>, key: Seq<char>) -> Option<Seq<char>> {
    match find_from(s, key, 0) {
        Some(i) => Some(s.subrange(i + key.len(), s.len() as int)),
        None => None,
    }
}

/// The number written right after `key`, if digits follow it and their
/// value fits in a `u64`.
pub open spec fn spec_u64_field(s: Seq<char>, key: Seq<char>) -> Option<u64> {
    match after_key(s, key) {
        None => None,
        Some(rest) => {
            let d = rest.subrange(0, digit_run(rest, 0));
            if d.len() == 0 || digits_of(d) > u64::MAX {
                None
            } else {
                Some(digits_of(d) as u64)
            }
        },
    }
}

/// First index at or after `i` that does not hold `c`.
pub open spec fn lead_char(s: Seq<char>, i: int, c: char) -> int
    decreases s.len() - i,
{
    if i < 0 || i >= s.len() || s[i] != c {
        i
    } else {
        lead_char(s, i + 1, c)
    }
}

/// Index after the last character before `e` that is not `c`, but not
/// below `lo`.
pub open spec fn trail_char(s: Seq<char>, lo: int, e: int, c: char) -> int
    decreases e - lo,
{
    if e <= lo || e > s.len() || s[e - 1] != c {
        e
    } else {
        trail_char(s, lo, e - 1, c)
    }
}

/// `s` without the double quotes at either end (`trim_matches('"')`).
pub open spec fn trim_quotes(s: Seq<char>) -> Seq<char> {
    let a = lead_char(s, 0, '"');
    s.subrange(a, trail_char(s, a, s.len() as int, '"'))
}

/// The whitespace-delimited token after `key`, without surrounding quotes.
pub open spec fn spec_string_field(s: Seq<char>, key: Seq<char>) -> Option<Seq<char>> {
    match after_key(s, key) {
        None => None,
        Some(rest) => {
            let a = lead_space(rest, 0);
            let e = token_run(rest, a);
            if e == a {
                None
            } else {
                Some(trim_quotes(rest.subrange(a, e)))
            }
        },
    }
}

/// A list item kept by `parse_compatible_brands`: trimmed of whitespace
/// and quotes, and dropped when nothing is left.
pub open spec fn kept(p: Seq<char>) -> Seq<Seq<char>> {
    let t = trim_quotes(crate::text::trim(p));
    if t.len() > 0 {
        seq![t]
    } else {
        Seq::empty()
    }
}

/// The comma-separated items of `s` from index `i` on, where `cur` holds
/// the characters of the item in progress.
pub open spec fn items_from(s: Seq<char>, i: int, cur: Seq<char>) -> Seq<Seq<char>>
    decreases s.len() - i,
{
    if i < 0 || i >= s.len() {
        kept(cur)
    } else if s[i] == ',' {
        kept(cur) + items_from(s, i + 1, Seq::empty())
    } else {
        items_from(s, i + 1, cur.push(s[i]))
    }
}

/// The brands listed between `compatible=[` and the next `]`.
pub open spec fn spec_compatible_brands(s: Seq<char>) -> Option<Seq<Seq<char>>> {
    match after_key(s, "compatible=["@) {
        None => None,
        Some(rest) => match find_from(rest, seq![']'], 0) {
            None => None,
            Some(end) => {
                let inside = rest.subrange(0, end);
                if crate::text::trim(inside).len() == 0 {
                    Some(Seq::empty())
                } else {
                    Some(items_from(inside, 0, Seq::empty()))
                }
            },
        },
    }
}

/// Index just after the first occurrence of `key` in `s`.
fn after_key_index(s: &[char], key: &[char]) -> (r: Option<usize>)
    ensures
        match find_from(s@, key@, 0) {
            Some(i) => r matches Some(x) && x == i + key@.len() && x <= s@.len(),
            None => r is None,
        },
{
    proof {
        lemma_find_from(s@, key@, 0);
    }
    let n = s.len();
    match find_chars(s, key, 0) {
        Some(i) => {
            assert(i + key@.len() <= n);
            Some(i + key.len())
        },
        None => None,
    }
}

/// The number written right after `key` in `s`, as `u64`.
pub fn parse_u64_field(s: &str, key: &str) -> (r: Option<u64>)
    ensures
        r == spec_u64_field(s@, key@),
{
    let cs = chars_of(s);
    let ks = chars_of(key);
    let start = match after_key_index(&cs, &ks) {
        Some(x) => x,
        None => return None,
    };
    let ghost rest = cs@.subrange(start as int, cs@.len() as int);
    let n = cs.len();
    let mut j = start;
    let mut acc: u64 = 0;
    let mut big = false;
    while j < n && '0' <= cs[j] && cs[j] <= '9'
        invariant
            n == cs@.len(),
            start <= j <= n,
            rest == cs@.subrange(start as int, n as int),
            digit_run(rest, 0) == digit_run(rest, j - start),
            forall|k: int| start <= k < j ==> is_digit(#[trigger] cs@[k]),
            big <==> digits_of(cs@.subrange(start as int, j as int)) > u64::MAX,
            !big ==> acc == digits_of(cs@.subrange(start as int, j as int)),
        decreases n - j,
    {
        let d = (cs[j] as u32 - 48) as u64;
        let ghost old_sub = cs@.subrange(start as int, j as int);
        j = j + 1;
        assert(cs@.subrange(start as int, j as int).drop_last() =~= old_sub);
        if !big {
            if acc > (u64::MAX - d) / 10 {
                big = true;
            } else {
                acc = acc * 10 + d;
            }
        }
    }
    proof {
        let e = digit_run(rest, 0);
        assert(e == j - start);
        assert(rest.subrange(0, e) =~= cs@.subrange(start as int, j as int));
    }
    if j == start || big {
        None
    } else {
        Some(acc)
    }
}

/// The number written right after `key` in `s`, when it fits in a `u32`.
pub fn parse_u32_field(s: &str, key: &str) -> (r: Option<u32>)
    ensures
        r == (match spec_u64_field(s@, key@) {
            Some(v) => if v <= u32::MAX {
                Some(v as u32)
            } else {
                None
            },
            None => None,
        }),
{
    match parse_u64_field(s, key) {
        Some(v) => if v <= 0xffff_ffff {
            Some(v as u32)
        } else {
            None
        },
        None => None,
    }
}

fn is_space_char(c: char) -> (r: bool)
    ensures
        r == is_space(c),
{
    ('\u{9}' <= c && c <= '\u{d}') || c == ' ' || c == '\u{85}' || c == '\u{a0}' || c == '\u{1680}'
        || ('\u{2000}' <= c && c <= '\u{200a}') || c == '\u{2028}' || c == '\u{2029}' || c
        == '\u{202f}' || c == '\u{205f}' || c == '\u{3000}'
}

proof fn lemma_lead_char(s: Seq<char>, i: int, c: char)
    requires
        0 <= i <= s.len(),
    ensures
        i <= lead_char(s, i, c) <= s.len(),
    decreases s.len() - i,
{
    if i < s.len() && s[i] == c {
        lemma_lead_char(s, i + 1, c);
    }
}

proof fn lemma_trail_char(s: Seq<char>, lo: int, e: int, c: char)
    requires
        0 <= lo <= e <= s.len(),
    ensures
        lo <= trail_char(s, lo, e, c) <= e,
    decreases e - lo,
{
    if e > lo && s[e - 1] == c {
        lemma_trail_char(s, lo, e - 1, c);
    }
}

/// `s` without double quotes at either end.
fn trim_quotes_chars(s: &[char]) -> (r: Vec<char>)
    ensures
        r@ == trim_quotes(s@),
{
    let mut a: usize = 0;
    while a < s.len() && s[a] == '"'
        invariant
            a <= s@.len(),
            lead_char(s@, 0, '"') == lead_char(s@, a as int, '"'),
        decreases s@.len() - a,
    {
        a = a + 1;
    }
    let mut e: usize = s.len();
    while e > a && s[e - 1] == '"'
        invariant
            a <= e <= s@.len(),
            trail_char(s@, a as int, s@.len() as int, '"') == trail_char(s@, a as int, e as int, '"'),
        decreases e,
    {
        e = e - 1;
    }
    sub_chars(s, a, e)
}

/// The whitespace-delimited token written after `key` in `s`, without the
/// double quotes around it.
pub fn parse_string_field(s: &str, key: &str) -> (r: Option<String>)
    ensures
        match spec_string_field(s@, key@) {
            Some(t) => r matches Some(x) && x@ == t,
            None => r is None,
        },
{
    let cs = chars_of(s);
    let ks = chars_of(key);
    let start = match after_key_index(&cs, &ks) {
        Some(x) => x,
        None => return None,
    };
    let ghost rest = cs@.subrange(start as int, cs@.len() as int);
    let n = cs.len();
    let mut a = start;
    while a < n && is_space_char(cs[a])
        invariant
            n == cs@.len(),
            start <= a <= n,
            rest == cs@.subrange(start as int, n as int),
            lead_space(rest, 0) == lead_space(rest, a - start),
        decreases n - a,
    {
        a = a + 1;
    }
    let mut e = a;
    while e < n && !is_space_char(cs[e])
        invariant
            n == cs@.len(),
            start <= a <= e <= n,
            rest == cs@.subrange(start as int, n as int),
            token_run(rest, a - start) == token_run(rest, e - start),
        decreases n - e,
    {
        e = e + 1;
    }
    if e == a {
        return None;
    }
    let token = sub_chars(&cs, a, e);
    assert(token@ =~= rest.subrange(a - start, e - start));
    let t = trim_quotes_chars(&token);
    Some(string_of(&t))
}

/// The item in progress, trimmed, appended to `out` when not empty.
fn keep_item(cur: &[char], out: &mut Vec<String>)
    ensures
        strings_view(final(out)@) == strings_view(old(out)@) + kept(cur@),
{
    let t = crate::text::trim_chars(cur);
    let q = trim_quotes_chars(&t);
    if q.len() > 0 {
        let ghost before = out@;
        out.push(string_of(&q));
        assert(strings_view(out@) =~= strings_view(before) + kept(cur@));
    } else {
        assert(strings_view(out@) =~= strings_view(out@) + kept(cur@));
    }
}

/// The brands listed in `compatible=[..]`, in order.
pub fn parse_compatible_brands(s: &str) -> (r: Option<Vec<String>>)
    ensures
        match spec_compatible_brands(s@) {
            Some(v) => r matches Some(x) && strings_view(x@) == v,
            None => r is None,
        },
{
    let cs = chars_of(s);
    let key = chars_of("compatible=[");
    let start = match after_key_index(&cs, &key) {
        Some(x) => x,
        None => return None,
    };
    let rest = sub_chars(&cs, start, cs.len());
    let close: [char; 1] = [']'];
    assert(close@ =~= seq![']']);
    let end = match find_chars(&rest, &close, 0) {
        Some(x) => x,
        None => return None,
    };
    proof {
        lemma_find_from(rest@, close@, 0);
    }
    let inside = sub_chars(&rest, 0, end);
    let tr = crate::text::trim_chars(&inside);
    if tr.len() == 0 {
        return Some(Vec::new());
    }
    let mut out: Vec<String> = Vec::new();
    let mut cur: Vec<char> = Vec::new();
    let n = inside.len();
    let mut i: usize = 0;
    while i < n
        invariant
            n == inside@.len(),
            i <= n,
            items_from(inside@, 0, Seq::empty()) == strings_view(out@) + items_from(
                inside@,
                i as int,
                cur@,
            ),
        decreases n - i,
    {
        let c = inside[i];
        if c == ',' {
            let ghost before = strings_view(out@);
            keep_item(&cur, &mut out);
            assert(items_from(inside@, i as int, cur@) == kept(cur@) + items_from(inside@, i + 1, Seq::empty()));
            assert(before + (kept(cur@) + items_from(inside@, i + 1, Seq::empty())) =~= strings_view(out@) + items_from(inside@, i + 1, Seq::empty()));
            cur = Vec::new();
            assert(cur@ =~= Seq::<char>::empty());
        } else {
            let ghost old_cur = cur@;
            cur.push(c);
            assert(items_from(inside@, i as int, old_cur) == items_from(inside@, i + 1, cur@));
        }
        i = i + 1;
    }
    let ghost before = strings_view(out@);
    keep_item(&cur, &mut out);
    proof {
        assert(items_from(inside@, n as int, cur@) == kept(cur@));
        assert(before + kept(cur@) == strings_view(out@));
    }
    Some(out)
}

// ---------- media summary ----------

/// Per-track summary fields gathered from a `trak` box.
#[derive(Debug, Clone)]
pub struct TrackInfo {
    /// 1-based position of the track among its `moov`'s tracks
    pub index: usize,
    /// "video", "audio" or "other"
    pub track_type: Option<String>,
    /// Codec fourcc of the first sample entry, e.g. "avc1"
    pub codec: Option<String>,
    pub width: Option<u32>,
    pub height: Option<u32>,
    pub timescale: Option<u32>,
    pub duration_ticks: Option<u64>,
    pub language: Option<String>,
}

/// File-level summary fields gathered from `ftyp` and `moov`.
#[derive(Debug, Clone)]
pub struct MediaInfo {
    pub major_brand: Option<String>,
    pub minor_version: Option<u32>,
    pub compatible_brands: Vec<String>,
    pub movie_timescale: Option<u32>,
    pub movie_duration_ticks: Option<u64>,
    pub tracks: Vec<TrackInfo>,
}

/// A [`TrackInfo`] as plain values.
pub struct TrackView {
    pub index: usize,
    pub track_type: Option<Seq<char>>,
    pub codec: Option<Seq<char>>,
    pub width: Option<u32>,
    pub height: Option<u32>,
    pub timescale: Option<u32>,
    pub duration_ticks: Option<u64>,
    pub language: Option<Seq<char>>,
}

/// A [`MediaInfo`] as plain values.
pub struct MediaView {
    pub major_brand: Option<Seq<char>>,
    pub minor_version: Option<u32>,
    pub compatible_brands: Seq<Seq<char>>,
    pub movie_timescale: Option<u32>,
    pub movie_duration_ticks: Option<u64>,
    pub tracks: Seq<TrackView>,
}

impl View for TrackInfo {
    type V = TrackView;

    open spec fn view(&self) -> TrackView {
        TrackView {
            index: self.index,
            track_type: opt_view(self.track_type),
            codec: opt_view(self.codec),
            width: self.width,
            height: self.height,
            timescale: self.timescale,
            duration_ticks: self.duration_ticks,
            language: opt_view(self.language),
        }
    }
}

pub open spec fn track_views(v: Seq<TrackInfo>) -> Seq<TrackView> {
    v.map_values(|t: TrackInfo| t@)
}

impl View for MediaInfo {
    type V = MediaView;

    open spec fn view(&self) -> MediaView {
        MediaView {
            major_brand: opt_view(self.major_brand),
            minor_version: self.minor_version,
            compatible_brands: strings_view(self.compatible_brands@),
            movie_timescale: self.movie_timescale,
            movie_duration_ticks: self.movie_duration_ticks,
            tracks: track_views(self.tracks@),
        }
    }
}

/// The first box of type `typ` in `s` from index `i` on.
pub open spec fn first_with(s: Seq<Box>, typ: Seq<char>, i: int) -> Option<Box>
    decreases s.len() - i,
{
    if i < 0 || i >= s.len() {
        None
    } else if s[i].typ@ == typ {
        Some(s[i])
    } else {
        first_with(s, typ, i + 1)
    }
}

/// The first child of `b` of type `typ`.
pub open spec fn child_at(b: Box, typ: Seq<char>) -> Option<Box> {
    match b.children {
        Some(k) => first_with(k@, typ, 0),
        None => None,
    }
}

/// `v` when it fits in a `u32`.
pub open spec fn as_u32(v: Option<u64>) -> Option<u32> {
    match v {
        Some(x) => if x <= u32::MAX {
            Some(x as u32)
        } else {
            None
        },
        None => None,
    }
}

/// The decoded text of `b`, when there is a box and it has one.
pub open spec fn text_of(b: Option<Box>) -> Option<Seq<char>> {
    match b {
        Some(x) => opt_view(x.decoded),
        None => None,
    }
}

/// The `u32` number after `key` in the decoded text of `b`.
pub open spec fn text_u32(b: Option<Box>, key: Seq<char>) -> Option<u32> {
    match text_of(b) {
        Some(t) => as_u32(spec_u64_field(t, key)),
        None => None,
    }
}

/// The track type a handler type stands for.
pub open spec fn handler_kind(h: Seq<char>) -> Seq<char> {
    if h == "vide"@ {
        "video"@
    } else if h == "soun"@ {
        "audio"@
    } else {
        "other"@
    }
}

/// The track type a codec fourcc stands for.
pub open spec fn codec_kind(c: Seq<char>) -> Seq<char> {
    if c == "avc1"@ || c == "hvc1"@ || c == "hev1"@ || c == "vp09"@ || c == "av01"@ {
        "video"@
    } else if c == "mp4a"@ || c == "ac-3"@ || c == "ec-3"@ || c == "Opus"@ {
        "audio"@
    } else {
        "other"@
    }
}

/// Timescale, duration and language from an `mdhd` box: from its structured
/// data when it has them, else from its decoded text.
pub open spec fn mdhd_fields(m: Option<Box>) -> (Option<u32>, Option<u64>, Option<Seq<char>>) {
    match m {
        None => (None, None, None),
        Some(b) => match b.structured_data {
            Some(StructuredData::MediaHeader(d)) => (Some(d.timescale), Some(d.duration), Some(d.language@)),
            _ => match b.decoded {
                Some(t) => (
                    as_u32(spec_u64_field(t@, "timescale="@)),
                    spec_u64_field(t@, "duration="@),
                    spec_string_field(t@, "language="@),
                ),
                None => (None, None, None),
            },
        },
    }
}

/// The track type from an `hdlr` box: from its structured data when it has
/// them, else from the `handler=` field of its decoded text.
pub open spec fn hdlr_track_type(h: Option<Box>) -> Option<Seq<char>> {
    match h {
        None => None,
        Some(b) => match b.structured_data {
            Some(StructuredData::HandlerReference(d)) => Some(handler_kind(d.handler_type@)),
            _ => match b.decoded {
                Some(t) => match spec_string_field(t@, "handler="@) {
                    Some(x) => Some(handler_kind(x)),
                    None => None,
                },
                None => None,
            },
        },
    }
}

/// The decoded text of `mdia/minf/stbl/stsd`.
pub open spec fn stsd_text(mdia: Box) -> Option<Seq<char>> {
    match child_at(mdia, "minf"@) {
        Some(minf) => match child_at(minf, "stbl"@) {
            Some(stbl) => text_of(child_at(stbl, "stsd"@)),
            None => None,
        },
        None => None,
    }
}

/// `new` when it holds a value, else `old`.
pub open spec fn or_keep<T>(old: Option<T>, new: Option<T>) -> Option<T> {
    match new {
        Some(x) => Some(x),
        None => old,
    }
}

/// What a `trak` box says of its track, as the `index`-th track.
pub open spec fn spec_track(trak: Box, index: usize) -> TrackView {
    let tkhd = child_at(trak, "tkhd"@);
    let tw = text_u32(tkhd, "width="@);
    let th = text_u32(tkhd, "height="@);
    match child_at(trak, "mdia"@) {
        None => TrackView {
            index,
            track_type: None,
            codec: None,
            width: tw,
            height: th,
            timescale: None,
            duration_ticks: None,
            language: None,
        },
        Some(mdia) => {
            let m = mdhd_fields(child_at(mdia, "mdhd"@));
            let tt = hdlr_track_type(child_at(mdia, "hdlr"@));
            match stsd_text(mdia) {
                None => TrackView {
                    index,
                    track_type: tt,
                    codec: None,
                    width: tw,
                    height: th,
                    timescale: m.0,
                    duration_ticks: m.1,
                    language: m.2,
                },
                Some(d) => {
                    let codec = spec_string_field(d, "codec="@);
                    TrackView {
                        index,
                        track_type: match codec {
                            Some(c) => if tt is None {
                                Some(codec_kind(c))
                            } else {
                                tt
                            },
                            None => tt,
                        },
                        codec,
                        width: or_keep(tw, as_u32(spec_u64_field(d, "width="@))),
                        height: or_keep(th, as_u32(spec_u64_field(d, "height="@))),
                        timescale: m.0,
                        duration_ticks: m.1,
                        language: m.2,
                    }
                },
            }
        },
    }
}

/// The `trak` boxes among `s` from index `i` on.
pub open spec fn traks_among(s: Seq<Box>, i: int) -> Seq<Box>
    decreases s.len() - i,
{
    if i < 0 || i >= s.len() {
        Seq::empty()
    } else if s[i].typ@ == "trak"@ {
        seq![s[i]] + traks_among(s, i + 1)
    } else {
        traks_among(s, i + 1)
    }
}

/// The summaries of `traks`, numbered from 1.
pub open spec fn numbered_tracks(traks: Seq<Box>) -> Seq<TrackView> {
    Seq::new(traks.len(), |i: int| spec_track(traks[i], (i + 1) as usize))
}

/// `info` after reading an `ftyp` box.
pub open spec fn after_ftyp(info: MediaView, b: Box) -> MediaView {
    match b.decoded {
        None => info,
        Some(d) => MediaView {
            major_brand: or_keep(info.major_brand, spec_string_field(d@, "major="@)),
            minor_version: or_keep(info.minor_version, as_u32(spec_u64_field(d@, "minor="@))),
            compatible_brands: match spec_compatible_brands(d@) {
                Some(c) => c,
                None => info.compatible_brands,
            },
            ..info
        },
    }
}

/// `info` after reading a `moov` box: its `mvhd` timing and its tracks.
pub open spec fn after_moov(info: MediaView, b: Box) -> MediaView {
    match b.children {
        None => info,
        Some(kids) => {
            let mv = text_of(child_at(b, "mvhd"@));
            MediaView {
                movie_timescale: match mv {
                    Some(t) => or_keep(info.movie_timescale, as_u32(spec_u64_field(t, "timescale="@))),
                    None => info.movie_timescale,
                },
                movie_duration_ticks: match mv {
                    Some(t) => or_keep(info.movie_duration_ticks, spec_u64_field(t, "duration="@)),
                    None => info.movie_duration_ticks,
                },
                tracks: info.tracks + numbered_tracks(traks_among(kids@, 0)),
                ..info
            }
        },
    }
}

/// The summary with nothing read yet.
pub open spec fn empty_media() -> MediaView {
    MediaView {
        major_brand: None,
        minor_version: None,
        compatible_brands: Seq::empty(),
        movie_timescale: None,
        movie_duration_ticks: None,
        tracks: Seq::empty(),
    }
}

/// The summary of the first `n` top-level boxes.
pub open spec fn media_upto(boxes: Seq<Box>, n: int) -> MediaView
    decreases n,
{
    if n <= 0 || n > boxes.len() {
        empty_media()
    } else {
        let info = media_upto(boxes, n - 1);
        let b = boxes[n - 1];
        if b.typ@ == "ftyp"@ {
            after_ftyp(info, b)
        } else if b.typ@ == "moov"@ {
            after_moov(info, b)
        } else {
            info
        }
    }
}

/// The box behind an optional reference.
pub open spec fn deref_box(b: Option<&Box>) -> Option<Box> {
    match b {
        Some(x) => Some(*x),
        None => None,
    }
}

/// Whether `a` spells `b`.
pub(crate) fn same_text(a: &str, b: &str) -> (r: bool)
    ensures
        r == (a@ == b@),
{
    let n = a.unicode_len();
    if n != b.unicode_len() {
        return false;
    }
    let mut i: usize = 0;
    while i < n
        invariant
            n == a@.len(),
            n == b@.len(),
            i <= n,
            forall|k: int| 0 <= k < i ==> a@[k] == b@[k],
        decreases n - i,
    {
        if a.get_char(i) != b.get_char(i) {
            return false;
        }
        i = i + 1;
    }
    assert(a@ =~= b@);
    true
}

/// The first box of type `typ` in `boxes`.
pub fn first_box<'a>(boxes: &'a Vec<Box>, typ: &str) -> (r: Option<&'a Box>)
    ensures
        deref_box(r) == first_with(boxes@, typ@, 0),
{
    let mut i: usize = 0;
    while i < boxes.len()
        invariant
            i <= boxes@.len(),
            first_with(boxes@, typ@, 0) == first_with(boxes@, typ@, i as int),
        decreases boxes@.len() - i,
    {
        if same_text(boxes[i].typ.as_str(), typ) {
            return Some(&boxes[i]);
        }
        i = i + 1;
    }
    None
}

/// The first child of `parent` of type `typ`.
pub fn find_child<'a>(parent: &'a Box, typ: &str) -> (r: Option<&'a Box>)
    ensures
        deref_box(r) == child_at(*parent, typ@),
{
    match &parent.children {
        None => None,
        Some(kids) => first_box(kids, typ),
    }
}

/// The `u32` number after `key` in the decoded text of `b`.
fn text_u32_of(b: Option<&Box>, key: &str) -> (r: Option<u32>)
    ensures
        r == text_u32(deref_box(b), key@),
{
    match b {
        Some(x) => match &x.decoded {
            Some(t) => parse_u32_field(t.as_str(), key),
            None => None,
        },
        None => None,
    }
}

/// The track type a handler type stands for.
fn handler_kind_of(h: &str) -> (r: String)
    ensures
        r@ == handler_kind(h@),
{
    if same_text(h, "vide") {
        "video".to_owned()
    } else if same_text(h, "soun") {
        "audio".to_owned()
    } else {
        "other".to_owned()
    }
}

/// The track type a codec fourcc stands for.
fn codec_kind_of(c: &str) -> (r: String)
    ensures
        r@ == codec_kind(c@),
{
    if same_text(c, "avc1") || same_text(c, "hvc1") || same_text(c, "hev1") || same_text(c, "vp09")
        || same_text(c, "av01") {
        "video".to_owned()
    } else if same_text(c, "mp4a") || same_text(c, "ac-3") || same_text(c, "ec-3") || same_text(
        c,
        "Opus",
    ) {
        "audio".to_owned()
    } else {
        "other".to_owned()
    }
}

fn mdhd_of(m: Option<&Box>) -> (r: (Option<u32>, Option<u64>, Option<String>))
    ensures
        (r.0, r.1, opt_view(r.2)) == mdhd_fields(deref_box(m)),
{
    match m {
        None => (None, None, None),
        Some(b) => match &b.structured_data {
            Some(StructuredData::MediaHeader(d)) => (Some(d.timescale), Some(d.duration), Some(d.language.clone())),
            _ => match &b.decoded {
                Some(t) => (
                    parse_u32_field(t.as_str(), "timescale="),
                    parse_u64_field(t.as_str(), "duration="),
                    parse_string_field(t.as_str(), "language="),
                ),
                None => (None, None, None),
            },
        },
    }
}

fn hdlr_of(h: Option<&Box>) -> (r: Option<String>)
    ensures
        opt_view(r) == hdlr_track_type(deref_box(h)),
{
    match h {
        None => None,
        Some(b) => match &b.structured_data {
            Some(StructuredData::HandlerReference(d)) => Some(handler_kind_of(d.handler_type.as_str())),
            _ => match &b.decoded {
                Some(t) => match parse_string_field(t.as_str(), "handler=") {
                    Some(x) => Some(handler_kind_of(x.as_str())),
                    None => None,
                },
                None => None,
            },
        },
    }
}

fn stsd_of(mdia: &Box) -> (r: Option<&String>)
    ensures
        match stsd_text(*mdia) {
            Some(t) => r matches Some(x) && x@ == t,
            None => r is None,
        },
{
    match find_child(mdia, "minf") {
        Some(minf) => match find_child(minf, "stbl") {
            Some(stbl) => match find_child(stbl, "stsd") {
                Some(stsd) => match &stsd.decoded {
                    Some(t) => Some(t),
                    None => None,
                },
                None => None,
            },
            None => None,
        },
        None => None,
    }
}

/// What a `trak` box says of its track, as the `index`-th track: its
/// dimensions from `tkhd` (overridden by the sample description), timing
/// and language from `mdhd`, type from `hdlr` (else from the codec), and
/// the codec of the first sample entry.
pub fn track_info(trak: &Box, index: usize) -> (r: TrackInfo)
    ensures
        r@ == spec_track(*trak, index),
{
    let tkhd = find_child(trak, "tkhd");
    let tw = text_u32_of(tkhd, "width=");
    let th = text_u32_of(tkhd, "height=");
    let mdia = match find_child(trak, "mdia") {
        Some(m) => m,
        None => {
            return TrackInfo {
                index,
                track_type: None,
                codec: None,
                width: tw,
                height: th,
                timescale: None,
                duration_ticks: None,
                language: None,
            };
        },
    };
    let (timescale, duration_ticks, language) = mdhd_of(find_child(mdia, "mdhd"));
    let tt = hdlr_of(find_child(mdia, "hdlr"));
    match stsd_of(mdia) {
        None => TrackInfo {
            index,
            track_type: tt,
            codec: None,
            width: tw,
            height: th,
            timescale,
            duration_ticks,
            language,
        },
        Some(d) => {
            let codec = parse_string_field(d.as_str(), "codec=");
            let track_type = match &codec {
                Some(c) => if tt.is_none() {
                    Some(codec_kind_of(c.as_str()))
                } else {
                    tt
                },
                None => tt,
            };
            let width = match parse_u32_field(d.as_str(), "width=") {
                Some(w) => Some(w),
                None => tw,
            };
            let height = match parse_u32_field(d.as_str(), "height=") {
                Some(h) => Some(h),
                None => th,
            };
            TrackInfo { index, track_type, codec, width, height, timescale, duration_ticks, language }
        },
    }
}

/// Adds the summary of a `trak` box, as the `index`-th track, to `info`.
pub fn parse_trak(trak: &Box, index: usize, info: &mut MediaInfo)
    ensures
        final(info)@ == (MediaView { tracks: old(info)@.tracks.push(spec_track(*trak, index)), ..old(info)@ }),
{
    let t = track_info(trak, index);
    let ghost before = info.tracks@;
    info.tracks.push(t);
    assert(track_views(info.tracks@) =~= track_views(before).push(spec_track(*trak, index)));
}

/// Reads the brands of an `ftyp` box from its decoded text into `info`.
pub fn parse_ftyp(b: &Box, info: &mut MediaInfo)
    ensures
        final(info)@ == after_ftyp(old(info)@, *b),
{
    let decoded = match &b.decoded {
        Some(s) => s,
        None => return,
    };
    if let Some(major) = parse_string_field(decoded.as_str(), "major=") {
        info.major_brand = Some(major);
    }
    if let Some(minor) = parse_u32_field(decoded.as_str(), "minor=") {
        info.minor_version = Some(minor);
    }
    if let Some(compat) = parse_compatible_brands(decoded.as_str()) {
        info.compatible_brands = compat;
    }
}

/// Reads the movie timing (`mvhd`) and the tracks (`trak`, numbered from 1)
/// of a `moov` box into `info`.
pub fn parse_moov(b: &Box, info: &mut MediaInfo)
    ensures
        final(info)@ == after_moov(old(info)@, *b),
{
    let children = match &b.children {
        Some(c) => c,
        None => return,
    };
    if let Some(mvhd) = find_child(b, "mvhd") {
        if let Some(decoded) = &mvhd.decoded {
            if let Some(ts) = parse_u32_field(decoded.as_str(), "timescale=") {
                info.movie_timescale = Some(ts);
            }
            if let Some(dur) = parse_u64_field(decoded.as_str(), "duration=") {
                info.movie_duration_ticks = Some(dur);
            }
        }
    }
    let ghost base = info.tracks@;
    let ghost mid = info@;
    let mut i: usize = 0;
    let mut k: usize = 0;
    while i < children.len()
        invariant
            i <= children@.len(),
            info@ == (MediaView { tracks: info@.tracks, ..mid }),
            track_views(base) == mid.tracks,
            k <= i,
            b.children == Some(*children),
            info.tracks@.len() == base.len() + k,
            traks_among(children@, 0).len() == k + traks_among(children@, i as int).len(),
            forall|j: int| 0 <= j < k ==> traks_among(children@, 0)[j] == #[trigger] (traks_among(children@, 0).subrange(0, k as int))[j],
            track_views(info.tracks@) == track_views(base) + numbered_tracks(traks_among(children@, 0).subrange(0, k as int)),
            traks_among(children@, 0) == traks_among(children@, 0).subrange(0, k as int) + traks_among(children@, i as int),
        decreases children@.len() - i,
    {
        let ghost done = traks_among(children@, 0).subrange(0, k as int);
        if same_text(children[i].typ.as_str(), "trak") {
            let ghost before = info.tracks@;
            let t = track_info(&children[i], k + 1);
            info.tracks.push(t);
            k = k + 1;
            proof {
                let all = traks_among(children@, 0);
                assert(traks_among(children@, i as int) == seq![children@[i as int]] + traks_among(children@, i + 1));
                assert(all.subrange(0, k as int) =~= done.push(children@[i as int]));
                assert(all =~= all.subrange(0, k as int) + traks_among(children@, i + 1));
                assert(numbered_tracks(all.subrange(0, k as int)) =~= numbered_tracks(done).push(spec_track(children@[i as int], k as usize)));
                assert(track_views(info.tracks@) =~= track_views(before).push(spec_track(children@[i as int], k as usize)));
            }
        } else {
            assert(traks_among(children@, i as int) == traks_among(children@, i + 1));
        }
        i = i + 1;
    }
    proof {
        let all = traks_among(children@, 0);
        assert(traks_among(children@, i as int) =~= Seq::<Box>::empty());
        assert(all.subrange(0, k as int) =~= all);
    }
}

/// The summary of a parsed file: brands from `ftyp`, movie timing and
/// tracks from each `moov`, in file order.
pub fn media_info(boxes: &Vec<Box>) -> (r: MediaInfo)
    ensures
        r@ == media_upto(boxes@, boxes@.len() as int),
{
    let mut info = MediaInfo {
        major_brand: None,
        minor_version: None,
        compatible_brands: Vec::new(),
        movie_timescale: None,
        movie_duration_ticks: None,
        tracks: Vec::new(),
    };
    assert(info@.compatible_brands =~= Seq::<Seq<char>>::empty());
    assert(info@.tracks =~= Seq::<TrackView>::empty());
    let mut i: usize = 0;
    while i < boxes.len()
        invariant
            i <= boxes@.len(),
            info@ == media_upto(boxes@, i as int),
        decreases boxes@.len() - i,
    {
        let b = &boxes[i];
        if same_text(b.typ.as_str(), "ftyp") {
            parse_ftyp(b, &mut info);
        } else if same_text(b.typ.as_str(), "moov") {
            parse_moov(b, &mut info);
        }
        i = i + 1;
    }
    info
}

// ---------- sample table statistics ----------

/// Entry counts of a track's sample tables.
#[derive(Debug, Clone, Copy, PartialEq, Eq, Structural)]
pub struct TableStats {
    pub stts_entries: u32,
    pub stsc_entries: u32,
    /// Entries of `stco` or `co64`
    pub stco_entries: u32,
    /// Entries of `stss`
    pub keyframe_count: u32,
}

pub open spec fn no_stats() -> TableStats {
    TableStats { stts_entries: 0, stsc_entries: 0, stco_entries: 0, keyframe_count: 0 }
}

/// `st` after looking at one `stbl` child: a decoded table sets its count.
pub open spec fn stats_step(st: TableStats, b: Box) -> TableStats {
    match b.structured_data {
        Some(StructuredData::DecodingTimeToSample(d)) => TableStats { stts_entries: d.entry_count, ..st },
        Some(StructuredData::SampleToChunk(d)) => TableStats { stsc_entries: d.entry_count, ..st },
        Some(StructuredData::ChunkOffset(d)) => TableStats { stco_entries: d.entry_count, ..st },
        Some(StructuredData::ChunkOffset64(d)) => TableStats { stco_entries: d.entry_count, ..st },
        Some(StructuredData::SyncSample(d)) => TableStats { keyframe_count: d.entry_count, ..st },
        _ => st,
    }
}

/// The counts read from the first `n` children of an `stbl`.
pub open spec fn stats_upto(kids: Seq<Box>, n: int) -> TableStats
    decreases n,
{
    if n <= 0 || n > kids.len() {
        no_stats()
    } else {
        stats_step(stats_upto(kids, n - 1), kids[n - 1])
    }
}

/// The counts of a `trak`'s `mdia/minf/stbl` tables.
pub open spec fn trak_stats(trak: Box) -> TableStats {
    match child_at(trak, "mdia"@) {
        Some(mdia) => match child_at(mdia, "minf"@) {
            Some(minf) => match child_at(minf, "stbl"@) {
                Some(stbl) => match stbl.children {
                    Some(c) => stats_upto(c@, c@.len() as int),
                    None => no_stats(),
                },
                None => no_stats(),
            },
            None => no_stats(),
        },
        None => no_stats(),
    }
}

/// The counts of every track of the `moov` boxes among the first `n`
/// top-level boxes, in file order.
pub open spec fn stats_of(boxes: Seq<Box>, n: int) -> Seq<TableStats>
    decreases n,
{
    if n <= 0 || n > boxes.len() {
        Seq::empty()
    } else {
        let b = boxes[n - 1];
        let more = if b.typ@ == "moov"@ && b.children is Some {
            let t = traks_among(b.children.unwrap()@, 0);
            Seq::new(t.len(), |i: int| trak_stats(t[i]))
        } else {
            Seq::empty()
        };
        stats_of(boxes, n - 1) + more
    }
}

fn trak_table_stats(trak: &Box) -> (r: TableStats)
    ensures
        r == trak_stats(*trak),
{
    let mut st = TableStats { stts_entries: 0, stsc_entries: 0, stco_entries: 0, keyframe_count: 0 };
    let stbl = match find_child(trak, "mdia") {
        Some(mdia) => match find_child(mdia, "minf") {
            Some(minf) => match find_child(minf, "stbl") {
                Some(stbl) => stbl,
                None => return st,
            },
            None => return st,
        },
        None => return st,
    };
    let kids = match &stbl.children {
        Some(c) => c,
        None => return st,
    };
    let mut i: usize = 0;
    while i < kids.len()
        invariant
            i <= kids@.len(),
            st == stats_upto(kids@, i as int),
        decreases kids@.len() - i,
    {
        match &kids[i].structured_data {
            Some(StructuredData::DecodingTimeToSample(d)) => {
                st.stts_entries = d.entry_count;
            },
            Some(StructuredData::SampleToChunk(d)) => {
                st.stsc_entries = d.entry_count;
            },
            Some(StructuredData::ChunkOffset(d)) => {
                st.stco_entries = d.entry_count;
            },
            Some(StructuredData::ChunkOffset64(d)) => {
                st.stco_entries = d.entry_count;
            },
            Some(StructuredData::SyncSample(d)) => {
                st.keyframe_count = d.entry_count;
            },
            _ => {},
        }
        i = i + 1;
    }
    st
}

/// Sample table entry counts per track, for every `trak` of every `moov`,
/// in file order (the order in which `track_samples` lists the tracks).
pub fn table_stats(boxes: &Vec<Box>) -> (r: Vec<TableStats>)
    ensures
        r@ == stats_of(boxes@, boxes@.len() as int),
{
    let mut out: Vec<TableStats> = Vec::new();
    let mut i: usize = 0;
    while i < boxes.len()
        invariant
            i <= boxes@.len(),
            out@ == stats_of(boxes@, i as int),
        decreases boxes@.len() - i,
    {
        let b = &boxes[i];
        let ghost before = out@;
        if same_text(b.typ.as_str(), "moov") {
            match &b.children {
                Some(kids) => {
                    let ghost all = traks_among(kids@, 0);
                    let mut j: usize = 0;
                    let mut k: usize = 0;
                    while j < kids.len()
                        invariant
                            j <= kids@.len(),
                            k <= j,
                            all == traks_among(kids@, 0),
                            all.len() == k + traks_among(kids@, j as int).len(),
                            all == all.subrange(0, k as int) + traks_among(kids@, j as int),
                            out@ == before + Seq::new(k as nat, |m: int| trak_stats(all[m])),
                        decreases kids@.len() - j,
                    {
                        if same_text(kids[j].typ.as_str(), "trak") {
                            let t = trak_table_stats(&kids[j]);
                            let ghost prev = out@;
                            out.push(t);
                            proof {
                                assert(traks_among(kids@, j as int) == seq![kids@[j as int]] + traks_among(kids@, j + 1));
                                assert(all[k as int] == kids@[j as int]);
                                assert(all.subrange(0, k + 1) =~= all.subrange(0, k as int).push(kids@[j as int]));
                                assert(all =~= all.subrange(0, k + 1) + traks_among(kids@, j + 1));
                                assert(out@ =~= before + Seq::new((k + 1) as nat, |m: int| trak_stats(all[m])));
                            }
                            k = k + 1;
                        } else {
                            assert(traks_among(kids@, j as int) == traks_among(kids@, j + 1));
                        }
                        j = j + 1;
                    }
                    proof {
                        assert(traks_among(kids@, j as int) =~= Seq::<Box>::empty());
                        assert(k == all.len());
                    }
                },
                None => {
                    assert(out@ =~= before + Seq::<TableStats>::empty());
                },
            }
        } else {
            assert(out@ =~= before + Seq::<TableStats>::empty());
        }
        i = i + 1;
    }
    out
}

// ---------- box paths ----------

/// How a fourcc's bytes show in a box's type.
pub open spec fn shown_type(cc: Seq<u8>) -> Seq<char> {
    Seq::new(4, |i: int| lossy_char(cc[i]))
}

/// The `n`-th (from 0) box among `s` from index `i` on whose type is `typ`.
pub open spec fn nth_with(s: Seq<Box>, typ: Seq<char>, n: nat, i: int) -> Option<Box>
    decreases s.len() - i,
{
    if i < 0 || i >= s.len() {
        None
    } else if s[i].typ@ == typ {
        if n == 0 {
            Some(s[i])
        } else {
            nth_with(s, typ, (n - 1) as nat, i + 1)
        }
    } else {
        nth_with(s, typ, n, i + 1)
    }
}

/// The box that the segments `segs[d..]` name among `s`: each segment picks
/// the `n`-th box of its type, and every box on the way holds children.
pub open spec fn box_at(s: Seq<Box>, segs: Seq<(Seq<u8>, nat)>, d: int) -> Option<Box>
    decreases segs.len() - d,
{
    if d < 0 || d >= segs.len() {
        None
    } else {
        match nth_with(s, shown_type(segs[d].0), segs[d].1, 0) {
            None => None,
            Some(b) => if d == segs.len() - 1 {
                Some(b)
            } else {
                match b.children {
                    Some(k) => box_at(k@, segs, d + 1),
                    None => None,
                }
            },
        }
    }
}

fn nth_box<'a>(s: &'a Vec<Box>, cc: &[u8; 4], n: usize) -> (r: Option<&'a Box>)
    ensures
        deref_box(r) == nth_with(s@, shown_type(cc@), n as nat, 0),
{
    let mut t = String::new();
    let mut k: usize = 0;
    while k < 4
        invariant
            k <= 4,
            t@ == Seq::new(k as nat, |i: int| lossy_char(cc@[i])),
        decreases 4 - k,
    {
        let x = cc[k];
        let ch = if 32 <= x && x <= 126 {
            x as char
        } else {
            '.'
        };
        crate::util::push_char(&mut t, ch);
        k = k + 1;
        assert(t@ =~= Seq::new(k as nat, |i: int| lossy_char(cc@[i])));
    }
    let mut left = n;
    let mut i: usize = 0;
    while i < s.len()
        invariant
            i <= s@.len(),
            t@ == shown_type(cc@),
            nth_with(s@, shown_type(cc@), n as nat, 0) == nth_with(s@, shown_type(cc@), left as nat, i as int),
        decreases s@.len() - i,
    {
        if same_text(s[i].typ.as_str(), t.as_str()) {
            if left == 0 {
                return Some(&s[i]);
            }
            left = left - 1;
        }
        i = i + 1;
    }
    None
}

/// The box a path such as `moov/trak[1]/mdia` names in a parsed tree: each
/// segment is a fourcc with an optional 0-based index among the boxes of
/// that type. A path that does not parse gives its error.
pub fn find_box<'a>(boxes: &'a Vec<Box>, path: &str) -> (r: Result<Option<&'a Box>, EditError>)
    ensures
        match spec_parse_path(path.spec_bytes()) {
            Ok(segs) => r matches Ok(x) && deref_box(x) == box_at(boxes@, segs, 0),
            Err(e) => r == Err::<Option<&Box>, EditError>(e),
        },
{
    let segs = parse_path(path)?;
    let ghost ss = match spec_parse_path(path.spec_bytes()) {
        Ok(x) => x,
        Err(_) => Seq::empty(),
    };
    let mut level: &Vec<Box> = boxes;
    let mut d: usize = 0;
    if segs.len() == 0 {
        return Ok(None);
    }
    while d < segs.len()
        invariant
            spec_parse_path(path.spec_bytes()) == Ok::<Seq<(Seq<u8>, nat)>, EditError>(ss),
            segs@.len() == ss.len(),
            forall|k: int| 0 <= k < ss.len() ==> (#[trigger] segs@[k]).0@ == ss[k].0 && segs@[k].1 == ss[k].1,
            d < segs@.len(),
            box_at(boxes@, ss, 0) == box_at(level@, ss, d as int),
        decreases segs@.len() - d,
    {
        let (cc, n) = segs[d];
        assert(cc@ == ss[d as int].0);
        let b = match nth_box(level, &cc, n) {
            Some(b) => b,
            None => return Ok(None),
        };
        if d == segs.len() - 1 {
            return Ok(Some(b));
        }
        match &b.children {
            Some(k) => {
                level = k;
            },
            None => return Ok(None),
        }
        d = d + 1;
    }
    Ok(None)
}

} // verus!
