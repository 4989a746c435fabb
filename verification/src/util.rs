//! Byte-level readers and text builders shared by the parser, the decoders
//! and the editor.

use vstd::prelude::*;
use vstd::string::{StrSliceExecFns, StringSliceAdditionalSpecFns};

verus! {

// ---------- big-endian integers ----------

/// Big-endian value of a byte sequence.
pub open spec fn be_value(s: Seq<u8>) -> nat
    decreases s.len(),
{
    if s.len() == 0 {
        0
    } else {
        be_value(s.drop_last()) * 256 + s.last() as nat
    }
}

/// 256 to the power `n`.
pub open spec fn pow256(n: nat) -> nat
    decreases n,
{
    if n == 0 {
        1
    } else {
        256 * pow256((n - 1) as nat)
    }
}

/// Big-endian field of `n` bytes starting at `pos`.
pub open spec fn be_at(s: Seq<u8>, pos: int, n: int) -> nat {
    be_value(s.subrange(pos, pos + n))
}

pub proof fn lemma_be_value_bound(s: Seq<u8>)
    ensures
        be_value(s) < pow256(s.len()),
    decreases s.len(),
{
    if s.len() > 0 {
        lemma_be_value_bound(s.drop_last());
    }
}

pub proof fn lemma_pow256_values()
    ensures
        pow256(1) == 0x100,
        pow256(2) == 0x1_0000,
        pow256(3) == 0x100_0000,
        pow256(4) == 0x1_0000_0000,
        pow256(8) == 0x1_0000_0000_0000_0000,
{
    reveal_with_fuel(pow256, 9);
}

pub proof fn lemma_pow256_mono(a: nat, b: nat)
    requires
        a <= b,
    ensures
        pow256(a) <= pow256(b),
    decreases b,
{
    if a < b {
        lemma_pow256_mono(a, (b - 1) as nat);
    }
}

/// Reads an `n`-byte big-endian unsigned integer at `pos`.
pub fn read_be(buf: &[u8], pos: usize, n: usize) -> (r: u64)
    requires
        n <= 8,
        pos + n <= buf@.len(),
    ensures
        r == be_at(buf@, pos as int, n as int),
{
    let mut acc: u64 = 0;
    let mut i: usize = 0;
    proof {
        assert(buf@.subrange(pos as int, pos as int) =~= Seq::<u8>::empty());
    }
    while i < n
        invariant
            i <= n,
            n <= 8,
            pos + n <= buf.len(),
            acc == be_at(buf@, pos as int, i as int),
            acc < pow256(i as nat),
        decreases n - i,
    {
        proof {
            lemma_pow256_mono((i + 1) as nat, 8);
            lemma_pow256_values();
            assert(buf@.subrange(pos as int, pos + i + 1).drop_last() =~= buf@.subrange(
                pos as int,
                pos + i,
            ));
        }
        acc = acc * 256 + buf[pos + i] as u64;
        i = i + 1;
    }
    acc
}

pub fn read_u8(buf: &[u8], pos: usize) -> (r: u8)
    requires
        pos < buf@.len(),
    ensures
        r == buf@[pos as int],
{
    buf[pos]
}

pub fn read_u16(buf: &[u8], pos: usize) -> (r: u16)
    requires
        pos + 2 <= buf@.len(),
    ensures
        r == be_at(buf@, pos as int, 2),
{
    let v = read_be(buf, pos, 2);
    proof {
        lemma_be_value_bound(buf@.subrange(pos as int, pos + 2));
        lemma_pow256_values();
    }
    v as u16
}

pub fn read_u32(buf: &[u8], pos: usize) -> (r: u32)
    requires
        pos + 4 <= buf@.len(),
    ensures
        r == be_at(buf@, pos as int, 4),
{
    let v = read_be(buf, pos, 4);
    proof {
        lemma_be_value_bound(buf@.subrange(pos as int, pos + 4));
        lemma_pow256_values();
    }
    v as u32
}

pub fn read_u64(buf: &[u8], pos: usize) -> (r: u64)
    requires
        pos + 8 <= buf@.len(),
    ensures
        r == be_at(buf@, pos as int, 8),
{
    read_be(buf, pos, 8)
}

/// The `n`-byte big-endian encoding of `v` (only the low `n` bytes of `v`
/// are kept).
pub open spec fn be_bytes(v: nat, n: nat) -> Seq<u8>
    decreases n,
{
    if n == 0 {
        Seq::empty()
    } else {
        be_bytes(v / 256, (n - 1) as nat).push((v % 256) as u8)
    }
}

pub proof fn lemma_be_bytes_len(v: nat, n: nat)
    ensures
        be_bytes(v, n).len() == n,
    decreases n,
{
    if n > 0 {
        lemma_be_bytes_len(v / 256, (n - 1) as nat);
    }
}

/// Encoding the big-endian value of a byte sequence gives the sequence back.
pub proof fn lemma_be_bytes_value(s: Seq<u8>)
    ensures
        be_bytes(be_value(s), s.len()) == s,
    decreases s.len(),
{
    if s.len() > 0 {
        let d = s.drop_last();
        lemma_be_bytes_value(d);
        let v = be_value(s);
        let a = be_value(d);
        let b = s.last() as nat;
        assert(v == a * 256 + b);
        assert(v / 256 == a && v % 256 == b) by (nonlinear_arith)
            requires
                v == a * 256 + b,
                b < 256,
        ;
        assert(s =~= d.push(s.last()));
    }
}

/// Reading back the `n`-byte big-endian encoding of a value below `256^n`
/// gives the value.
pub proof fn lemma_be_value_bytes(v: nat, n: nat)
    requires
        v < pow256(n),
    ensures
        be_value(be_bytes(v, n)) == v,
    decreases n,
{
    if n > 0 {
        let q = v / 256;
        assert(q < pow256((n - 1) as nat)) by (nonlinear_arith)
            requires
                v < 256 * pow256((n - 1) as nat),
                q == v / 256,
        ;
        lemma_be_value_bytes(q, (n - 1) as nat);
        let s = be_bytes(v, n);
        assert(s.drop_last() =~= be_bytes(q, (n - 1) as nat));
        assert(s.last() == (v % 256) as u8);
    }
}

/// Appends the `n`-byte big-endian encoding of `v`.
pub fn push_be(out: &mut Vec<u8>, v: u64, n: usize)
    ensures
        final(out)@ == old(out)@ + be_bytes(v as nat, n as nat),
    decreases n,
{
    if n > 0 {
        push_be(out, v / 256, n - 1);
        out.push((v % 256) as u8);
        proof {
            assert(final(out)@ =~= old(out)@ + be_bytes(v as nat, n as nat));
        }
    } else {
        proof {
            assert(final(out)@ =~= old(out)@ + be_bytes(v as nat, n as nat));
        }
    }
}

/// Overwrites `buf[at..at + n]` with the `n`-byte big-endian encoding of
/// `v`; every other byte is kept.
pub fn write_be(buf: &mut Vec<u8>, at: usize, v: u64, n: usize)
    requires
        at + n <= old(buf)@.len(),
    ensures
        final(buf)@.len() == old(buf)@.len(),
        final(buf)@.subrange(at as int, at + n) == be_bytes(v as nat, n as nat),
        forall|k: int|
            0 <= k < old(buf)@.len() && !(at <= k < at + n) ==> final(buf)@[k] == old(buf)@[k],
    decreases n,
{
    let blen = buf.len();
    proof {
        assert(blen == buf@.len());
    }
    if n > 0 {
        buf.set(at + n - 1, (v % 256) as u8);
        write_be(buf, at, v / 256, n - 1);
        proof {
            assert(final(buf)@.subrange(at as int, at + n) =~= final(buf)@.subrange(
                at as int,
                at + n - 1,
            ).push(final(buf)@[at + n - 1]));
        }
    } else {
        proof {
            assert(final(buf)@.subrange(at as int, at as int) =~= Seq::<u8>::empty());
        }
    }
}

/// Appends a byte slice.
pub fn push_bytes(out: &mut Vec<u8>, bytes: &[u8])
    ensures
        final(out)@ == old(out)@ + bytes@,
{
    let ghost start = out@;
    let mut i: usize = 0;
    while i < bytes.len()
        invariant
            i <= bytes@.len(),
            out@ == start + bytes@.subrange(0, i as int),
        decreases bytes@.len() - i,
    {
        out.push(bytes[i]);
        proof {
            assert(out@ =~= start + bytes@.subrange(0, i + 1));
        }
        i = i + 1;
    }
    proof {
        assert(bytes@.subrange(0, bytes@.len() as int) =~= bytes@);
    }
}

/// A copy of `bytes[start..end]`.
pub fn copy_range(bytes: &[u8], start: usize, end: usize) -> (r: Vec<u8>)
    requires
        start <= end <= bytes@.len(),
    ensures
        r@ == bytes@.subrange(start as int, end as int),
{
    let mut out: Vec<u8> = Vec::new();
    let mut i: usize = start;
    while i < end
        invariant
            start <= i <= end <= bytes@.len(),
            out@ == bytes@.subrange(start as int, i as int),
        decreases end - i,
    {
        out.push(bytes[i]);
        proof {
            assert(out@ =~= bytes@.subrange(start as int, i + 1));
        }
        i = i + 1;
    }
    out
}

/// Byte-wise equality of two slices.
pub fn bytes_eq(a: &[u8], b: &[u8]) -> (r: bool)
    ensures
        r == (a@ == b@),
{
    if a.len() != b.len() {
        return false;
    }
    let mut i: usize = 0;
    while i < a.len()
        invariant
            i <= a@.len(),
            a@.len() == b@.len(),
            forall|j: int| 0 <= j < i ==> a@[j] == b@[j],
        decreases a@.len() - i,
    {
        if a[i] != b[i] {
            return false;
        }
        i = i + 1;
    }
    proof {
        assert(a@ =~= b@);
    }
    true
}

// ---------- decimal text ----------

/// Whether every byte is an ASCII digit.
pub open spec fn all_digits(s: Seq<u8>) -> bool {
    forall|i: int| 0 <= i < s.len() ==> 48 <= #[trigger] s[i] <= 57
}

/// Value of a run of ASCII digits.
pub open spec fn digits_value(s: Seq<u8>) -> nat
    decreases s.len(),
{
    if s.len() == 0 {
        0
    } else {
        digits_value(s.drop_last()) * 10 + (s.last() - 48) as nat
    }
}

/// The magnitude part of an integer literal: the text after an optional
/// sign.
pub open spec fn unsigned_body(s: Seq<u8>) -> Seq<u8> {
    if s.len() > 0 && s[0] == 43 {
        s.subrange(1, s.len() as int)
    } else {
        s
    }
}

/// An unsigned integer as Rust's `FromStr` for unsigned types reads it:
/// an optional '+', then at least one ASCII digit, at most `max`.
pub open spec fn spec_parse_unsigned(s: Seq<u8>, max: nat) -> Option<nat> {
    let body = unsigned_body(s);
    if body.len() > 0 && all_digits(body) && digits_value(body) <= max {
        Some(digits_value(body))
    } else {
        None
    }
}

pub proof fn lemma_digits_value_mono(s: Seq<u8>, i: int)
    requires
        0 <= i <= s.len(),
        all_digits(s),
    ensures
        digits_value(s.subrange(0, i)) <= digits_value(s),
    decreases s.len() - i,
{
    if i < s.len() {
        let t = s.subrange(0, i + 1);
        assert(t.drop_last() =~= s.subrange(0, i));
        lemma_digits_value_mono(s, i + 1);
    } else {
        assert(s.subrange(0, i) =~= s);
    }
}

/// Parses an unsigned decimal integer no greater than `max`.
pub fn parse_unsigned(s: &[u8], max: u64) -> (r: Option<u64>)
    ensures
        match spec_parse_unsigned(s@, max as nat) {
            Some(v) => r == Some(v as u64),
            None => r is None,
        },
{
    let start: usize = if s.len() > 0 && s[0] == 43 {
        1
    } else {
        0
    };
    let ghost body = unsigned_body(s@);
    proof {
        assert(body =~= s@.subrange(start as int, s@.len() as int));
    }
    if start >= s.len() {
        return None;
    }
    let mut acc: u64 = 0;
    let mut i: usize = start;
    while i < s.len()
        invariant
            start <= i <= s@.len(),
            body == s@.subrange(start as int, s@.len() as int),
            body == unsigned_body(s@),
            all_digits(s@.subrange(start as int, i as int)),
            acc == digits_value(s@.subrange(start as int, i as int)),
            acc <= max,
        decreases s@.len() - i,
    {
        let c = s[i];
        proof {
            assert(s@.subrange(start as int, i + 1).drop_last() =~= s@.subrange(start as int, i as int));
        }
        if c < 48 || c > 57 {
            proof {
                let k = i - start;
                assert(body[k] == c);
                assert(!(48 <= body[k] <= 57));
                assert(!all_digits(body));
            }
            return None;
        }
        let d = (c - 48) as u64;
        if acc > max / 10 || (acc == max / 10 && d > max % 10) {
            proof {
                assert(all_digits(s@.subrange(start as int, i + 1)));
                assert(digits_value(s@.subrange(start as int, i + 1)) == acc * 10 + d);
                assert(acc * 10 + d > max) by (nonlinear_arith)
                    requires
                        acc > max / 10 || (acc == max / 10 && d > max % 10),
                ;
                if all_digits(body) {
                    assert(s@.subrange(start as int, i + 1) =~= body.subrange(0, i + 1 - start));
                    lemma_digits_value_mono(body, i + 1 - start);
                }
            }
            return None;
        }
        proof {
            assert(acc * 10 + d <= max) by (nonlinear_arith)
                requires
                    !(acc > max / 10 || (acc == max / 10 && d > max % 10)),
                    d <= 9,
            ;
        }
        acc = acc * 10 + d;
        proof {
            assert(all_digits(s@.subrange(start as int, i + 1)));
        }
        i = i + 1;
    }
    Some(acc)
}

// ---------- text from bytes ----------

/// The text `String::from_utf8_lossy` makes of `bytes`.
pub uninterp spec fn spec_utf8_lossy(bytes: Seq<u8>) -> Seq<char>;

/// std's `String::from_utf8_lossy`: decodes UTF-8, replacing each invalid
/// sequence with U+FFFD. Claimed: the result is a function of the bytes,
/// and valid UTF-8 is decoded as is.
#[verifier::external_body]
pub fn utf8_lossy(bytes: &[u8]) -> (r: String)
    ensures
        r@ == spec_utf8_lossy(bytes@),
        vstd::utf8::valid_utf8(bytes@) ==> r@ == vstd::utf8::decode_utf8(bytes@),
{
    String::from_utf8_lossy(bytes).into_owned()
}

/// std's `str::from_utf8`: the text of `bytes` when they are valid UTF-8.
/// Claimed: it succeeds exactly on valid UTF-8 and decodes it.
#[verifier::external_body]
pub fn utf8_exact(bytes: &[u8]) -> (r: Option<String>)
    ensures
        r is Some <==> vstd::utf8::valid_utf8(bytes@),
        r matches Some(s) ==> s@ == vstd::utf8::decode_utf8(bytes@),
{
    match std::str::from_utf8(bytes) {
        Ok(s) => Some(s.to_string()),
        Err(_) => None,
    }
}

/// The text `{:?}` makes of a string.
pub uninterp spec fn spec_debug_str(s: Seq<char>) -> Seq<char>;

/// Printable ASCII other than quotes and backslashes, which `{:?}` keeps
/// as is.
pub open spec fn debug_plain(s: Seq<char>) -> bool {
    forall|i: int| 0 <= i < s.len() ==> ' ' <= #[trigger] s[i] <= '~' && s[i] != '"' && s[i] != '\\'
        && s[i] != '\''
}

/// std's `Debug` rendering of a string (`format!("{:?}", s)`): quoted,
/// with special characters escaped. Claimed: the result is a function of
/// the text, and printable ASCII without quotes or backslashes is only
/// quoted.
#[verifier::external_body]
pub fn debug_str(s: &str) -> (r: String)
    ensures
        r@ == spec_debug_str(s@),
        debug_plain(s@) ==> r@ == seq!['"'] + s@ + seq!['"'],
{
    format!("{:?}", s)
}

// ---------- text building ----------

/// Appends one character to a string (std's `String::push`).
#[verifier::external_body]
pub fn push_char(s: &mut String, c: char)
    ensures
        final(s)@ == old(s)@.push(c),
{
    s.push(c);
}

/// Appends a string slice.
pub fn push_str(s: &mut String, t: &str)
    ensures
        final(s)@ == old(s)@ + t@,
{
    s.append(t);
}

/// ASCII digit for a value below 10.
pub open spec fn digit_char(d: nat) -> char {
    ((d + 48) as u8) as char
}

/// Decimal rendering of a natural number, without leading zeros.
pub open spec fn spec_decimal(n: nat) -> Seq<char>
    decreases n,
{
    if n < 10 {
        seq![digit_char(n)]
    } else {
        spec_decimal(n / 10).push(digit_char(n % 10))
    }
}

/// Decimal rendering of an integer, with a leading '-' when negative.
pub open spec fn spec_signed_decimal(v: int) -> Seq<char> {
    if v < 0 {
        seq!['-'] + spec_decimal((-v) as nat)
    } else {
        spec_decimal(v as nat)
    }
}

fn digit(d: u64) -> (c: char)
    requires
        d < 10,
    ensures
        c == digit_char(d as nat),
{
    ((d as u8) + 48) as char
}

/// Appends the decimal rendering of `n`.
pub fn push_decimal(s: &mut String, n: u64)
    ensures
        final(s)@ == old(s)@ + spec_decimal(n as nat),
    decreases n,
{
    if n >= 10 {
        push_decimal(s, n / 10);
    }
    let c = digit(n % 10);
    push_char(s, c);
    proof {
        if n < 10 {
            assert(spec_decimal(n as nat) =~= seq![digit_char(n as nat)]);
        }
    }
}

/// Appends the decimal rendering of a signed value.
pub fn push_signed(s: &mut String, v: i64)
    ensures
        final(s)@ == old(s)@ + spec_signed_decimal(v as int),
{
    if v < 0 {
        push_char(s, '-');
        let m: u64 = if v == i64::MIN {
            0x8000_0000_0000_0000u64
        } else {
            (-v) as u64
        };
        push_decimal(s, m);
        proof {
            assert(final(s)@ =~= old(s)@ + (seq!['-'] + spec_decimal((-v) as nat)));
        }
    } else {
        push_decimal(s, v as u64);
    }
}

/// Returns the decimal rendering of `n` as a new string.
pub fn decimal_string(n: u64) -> (r: String)
    ensures
        r@ == spec_decimal(n as nat),
{
    let mut s = String::new();
    push_decimal(&mut s, n);
    proof {
        assert(s@ =~= spec_decimal(n as nat));
    }
    s
}

/// Hex digit for a value below 16.
pub open spec fn hex_digit(d: nat, upper: bool) -> char {
    if d < 10 {
        digit_char(d)
    } else if upper {
        ((d + 55) as u8) as char
    } else {
        ((d + 87) as u8) as char
    }
}

/// Two hex digits of a byte.
pub open spec fn spec_hex_byte(b: u8, upper: bool) -> Seq<char> {
    seq![hex_digit(b as nat / 16, upper), hex_digit(b as nat % 16, upper)]
}

/// Hex digits of a byte sequence, two per byte.
pub open spec fn spec_hex(s: Seq<u8>, upper: bool) -> Seq<char>
    decreases s.len(),
{
    if s.len() == 0 {
        Seq::empty()
    } else {
        spec_hex(s.drop_last(), upper) + spec_hex_byte(s.last(), upper)
    }
}

fn hex_char(d: u8, upper: bool) -> (c: char)
    requires
        d < 16,
    ensures
        c == hex_digit(d as nat, upper),
{
    if d < 10 {
        (d + 48) as char
    } else if upper {
        (d + 55) as char
    } else {
        (d + 87) as char
    }
}

/// Appends two hex digits for `b`.
pub fn push_hex_byte(s: &mut String, b: u8, upper: bool)
    ensures
        final(s)@ == old(s)@ + spec_hex_byte(b, upper),
{
    push_char(s, hex_char(b / 16, upper));
    push_char(s, hex_char(b % 16, upper));
    proof {
        assert(final(s)@ =~= old(s)@ + spec_hex_byte(b, upper));
    }
}

/// Appends the hex digits of every byte of `bytes`.
pub fn push_hex(s: &mut String, bytes: &[u8], upper: bool)
    ensures
        final(s)@ == old(s)@ + spec_hex(bytes@, upper),
{
    let ghost start = s@;
    let mut i: usize = 0;
    proof {
        assert(bytes@.subrange(0, 0) =~= Seq::<u8>::empty());
        assert(s@ =~= start + spec_hex(bytes@.subrange(0, 0), upper));
    }
    while i < bytes.len()
        invariant
            i <= bytes@.len(),
            s@ == start + spec_hex(bytes@.subrange(0, i as int), upper),
        decreases bytes@.len() - i,
    {
        push_hex_byte(s, bytes[i], upper);
        proof {
            assert(bytes@.subrange(0, i + 1).drop_last() =~= bytes@.subrange(0, i as int));
            assert(s@ =~= start + spec_hex(bytes@.subrange(0, i + 1), upper));
        }
        i = i + 1;
    }
    proof {
        assert(bytes@.subrange(0, bytes@.len() as int) =~= bytes@);
    }
}

/// Lowercase hex rendering of a byte slice, e.g. `[0xbe, 0xef]` -> `"beef"`.
pub fn hex_string(bytes: &[u8]) -> (r: String)
    ensures
        r@ == spec_hex(bytes@, false),
{
    let mut s = String::new();
    push_hex(&mut s, bytes, false);
    proof {
        assert(s@ =~= spec_hex(bytes@, false));
    }
    s
}

// ---------- base64 ----------

/// The 6-bit value of a base64 character, standard (`+/`) or URL-safe
/// (`-_`) alphabet.
pub open spec fn b64_value(c: char) -> Option<nat> {
    if 'A' <= c <= 'Z' {
        Some((c as nat - 65) as nat)
    } else if 'a' <= c <= 'z' {
        Some((c as nat - 71) as nat)
    } else if '0' <= c <= '9' {
        Some((c as nat + 4) as nat)
    } else if c == '+' || c == '-' {
        Some(62)
    } else if c == '/' || c == '_' {
        Some(63)
    } else {
        None
    }
}

/// Number of trailing `=` characters.
pub open spec fn trailing_pad(s: Seq<char>) -> nat
    decreases s.len(),
{
    if s.len() > 0 && s.last() == '=' {
        1 + trailing_pad(s.drop_last())
    } else {
        0
    }
}

/// Every character is in the base64 alphabet.
pub open spec fn b64_chars(s: Seq<char>) -> bool {
    forall|i: int| 0 <= i < s.len() ==> (#[trigger] b64_value(s[i])) is Some
}

/// Value of the base64 character at `i`.
pub open spec fn b64_at(s: Seq<char>, i: int) -> nat {
    match b64_value(s[i]) {
        Some(v) => v,
        None => 0,
    }
}

/// The bytes of the `n` characters (2, 3 or 4) of the group at `a`.
pub open spec fn b64_group(s: Seq<char>, a: int, n: int) -> Seq<u8> {
    let b0 = (b64_at(s, a) * 4 + b64_at(s, a + 1) / 16) as u8;
    let b1 = (b64_at(s, a + 1) % 16 * 16 + b64_at(s, a + 2) / 4) as u8;
    let b2 = (b64_at(s, a + 2) % 4 * 64 + b64_at(s, a + 3)) as u8;
    if n == 2 {
        seq![b0]
    } else if n == 3 {
        seq![b0, b1]
    } else {
        seq![b0, b1, b2]
    }
}

/// The bytes of the first `k` full groups.
pub open spec fn b64_groups(s: Seq<char>, k: nat) -> Seq<u8>
    decreases k,
{
    if k == 0 {
        Seq::empty()
    } else {
        b64_groups(s, (k - 1) as nat) + b64_group(s, 4 * (k - 1), 4)
    }
}

/// What base64 text decodes to. Padding is optional, but at most two `=`
/// may end the text, and only when its length is a multiple of four; a
/// `=` elsewhere, a character outside both alphabets, or a lone final
/// character rejects it.
pub open spec fn spec_base64(s: Seq<char>) -> Option<Seq<u8>> {
    let k = trailing_pad(s);
    let body = s.subrange(0, s.len() - k);
    if k > 2 || (k > 0 && s.len() % 4 != 0) || body.len() % 4 == 1 || !b64_chars(body) {
        None
    } else {
        let g = body.len() / 4;
        let rem = body.len() % 4;
        Some(
            b64_groups(body, g as nat) + if rem == 0 {
                Seq::empty()
            } else {
                b64_group(body, 4 * g as int, rem as int)
            },
        )
    }
}

fn b64_value_exec(c: char) -> (r: Option<u8>)
    ensures
        match b64_value(c) {
            Some(v) => r matches Some(x) && x == v,
            None => r is None,
        },
{
    if 'A' <= c && c <= 'Z' {
        Some((c as u32 - 65) as u8)
    } else if 'a' <= c && c <= 'z' {
        Some((c as u32 - 71) as u8)
    } else if '0' <= c && c <= '9' {
        Some((c as u32 + 4) as u8)
    } else if c == '+' || c == '-' {
        Some(62)
    } else if c == '/' || c == '_' {
        Some(63)
    } else {
        None
    }
}

fn pad_len(s: &[char]) -> (k: usize)
    ensures
        k == trailing_pad(s@),
        k <= s@.len(),
{
    let n = s.len();
    let mut k: usize = 0;
    proof {
        assert(s@.subrange(0, n as int) =~= s@);
    }
    while k < n && s[n - 1 - k] == '='
        invariant
            k <= n,
            n == s@.len(),
            trailing_pad(s@) == k + trailing_pad(s@.subrange(0, n - k)),
        decreases n - k,
    {
        proof {
            assert(s@.subrange(0, n - k).drop_last() =~= s@.subrange(0, n - k - 1));
        }
        k = k + 1;
    }
    k
}

fn b64_values(s: &[char], m: usize) -> (r: Option<Vec<u8>>)
    requires
        m <= s@.len(),
    ensures
        r is Some <==> b64_chars(s@.subrange(0, m as int)),
        r matches Some(v) ==> v@.len() == m && forall|j: int|
            0 <= j < m ==> (#[trigger] b64_value(s@[j])) == Some(v@[j] as nat),
{
    let ghost body = s@.subrange(0, m as int);
    let mut vals: Vec<u8> = Vec::new();
    let mut i: usize = 0;
    while i < m
        invariant
            i <= m <= s@.len(),
            body == s@.subrange(0, m as int),
            vals@.len() == i,
            forall|j: int| 0 <= j < i ==> (#[trigger] b64_value(s@[j])) == Some(vals@[j] as nat),
        decreases m - i,
    {
        match b64_value_exec(s[i]) {
            Some(v) => vals.push(v),
            None => {
                assert(b64_value(body[i as int]) is None);
                return None;
            },
        }
        i = i + 1;
    }
    assert(b64_chars(body)) by {
        assert forall|j: int| 0 <= j < body.len() implies (#[trigger] b64_value(body[j])) is Some by {
            assert(b64_value(s@[j]) == Some(vals@[j] as nat));
        }
    }
    Some(vals)
}

fn b64_assemble(vals: &Vec<u8>, body: Ghost<Seq<char>>) -> (out: Vec<u8>)
    requires
        vals@.len() == body@.len(),
        forall|j: int| 0 <= j < body@.len() ==> (#[trigger] b64_value(body@[j])) == Some(
            vals@[j] as nat,
        ),
        body@.len() % 4 != 1,
    ensures
        out@ == b64_groups(body@, (body@.len() / 4) as nat) + if body@.len() % 4 == 0 {
            Seq::empty()
        } else {
            b64_group(body@, 4 * (body@.len() / 4) as int, (body@.len() % 4) as int)
        },
{
    let m = vals.len();
    let g = m / 4;
    let mut out: Vec<u8> = Vec::new();
    let mut q: usize = 0;
    while q < g
        invariant
            q <= g,
            g == m / 4,
            m == vals@.len(),
            vals@.len() == body@.len(),
            forall|j: int| 0 <= j < body@.len() ==> (#[trigger] b64_value(body@[j])) == Some(
                vals@[j] as nat,
            ),
            out@ == b64_groups(body@, q as nat),
        decreases g - q,
    {
        let a = 4 * q;
        let v0 = vals[a] as u32;
        let v1 = vals[a + 1] as u32;
        let v2 = vals[a + 2] as u32;
        let v3 = vals[a + 3] as u32;
        proof {
            assert(b64_value(body@[a as int]) == Some(vals@[a as int] as nat));
            assert(b64_value(body@[a + 1]) == Some(vals@[a + 1] as nat));
            assert(b64_value(body@[a + 2]) == Some(vals@[a + 2] as nat));
            assert(b64_value(body@[a + 3]) == Some(vals@[a + 3] as nat));
        }
        out.push((v0 * 4 + v1 / 16) as u8);
        out.push((v1 % 16 * 16 + v2 / 4) as u8);
        out.push((v2 % 4 * 64 + v3) as u8);
        proof {
            assert(out@ =~= b64_groups(body@, (q + 1) as nat));
        }
        q = q + 1;
    }
    let rem = m % 4;
    let ghost full = out@;
    if rem > 0 {
        let a = 4 * g;
        let v0 = vals[a] as u32;
        let v1 = vals[a + 1] as u32;
        proof {
            assert(b64_value(body@[a as int]) == Some(vals@[a as int] as nat));
            assert(b64_value(body@[a + 1]) == Some(vals@[a + 1] as nat));
        }
        out.push((v0 * 4 + v1 / 16) as u8);
        if rem == 3 {
            let v2 = vals[a + 2] as u32;
            proof {
                assert(b64_value(body@[a + 2]) == Some(vals@[a + 2] as nat));
            }
            out.push((v1 % 16 * 16 + v2 / 4) as u8);
        }
        proof {
            assert(out@ =~= full + b64_group(body@, 4 * g as int, rem as int));
        }
    } else {
        proof {
            assert(out@ =~= full + Seq::<u8>::empty());
        }
    }
    out
}

/// Decodes base64 characters (see `spec_base64`).
pub fn base64_decode_chars(s: &[char]) -> (r: Option<Vec<u8>>)
    ensures
        match spec_base64(s@) {
            Some(b) => r matches Some(x) && x@ == b,
            None => r is None,
        },
{
    let n = s.len();
    let k = pad_len(s);
    let m = n - k;
    if k > 2 || (k > 0 && n % 4 != 0) || m % 4 == 1 {
        return None;
    }
    let vals = match b64_values(s, m) {
        Some(v) => v,
        None => return None,
    };
    let ghost body = s@.subrange(0, m as int);
    Some(b64_assemble(&vals, Ghost(body)))
}

/// The characters of `bytes` read one per byte (Latin-1); for ASCII text
/// this is the text itself.
pub open spec fn latin1(bytes: Seq<u8>) -> Seq<char> {
    bytes.map_values(|b: u8| b as char)
}

/// Decodes base64 text, standard or URL-safe, padded or not (see
/// `spec_base64`). Non-ASCII text is rejected: its bytes are outside both
/// alphabets.
pub fn base64_decode(s: &str) -> (r: Option<Vec<u8>>)
    ensures
        match spec_base64(latin1(s.spec_bytes())) {
            Some(b) => r matches Some(x) && x@ == b,
            None => r is None,
        },
{
    let b = s.as_bytes();
    let mut cs: Vec<char> = Vec::new();
    let mut i: usize = 0;
    while i < b.len()
        invariant
            i <= b@.len(),
            b@ == s.spec_bytes(),
            cs@ == latin1(b@.subrange(0, i as int)),
        decreases b@.len() - i,
    {
        cs.push(b[i] as char);
        proof {
            assert(cs@ =~= latin1(b@.subrange(0, i + 1)));
        }
        i = i + 1;
    }
    proof {
        assert(b@.subrange(0, b@.len() as int) =~= b@);
    }
    base64_decode_chars(cs.as_slice())
}

// ---------- hex dump ----------

/// Lowercase hex digits of `v`, without leading zeros.
pub open spec fn hex_digits(v: nat) -> Seq<char>
    decreases v,
{
    if v < 16 {
        seq![hex_digit(v, false)]
    } else {
        hex_digits(v / 16).push(hex_digit(v % 16, false))
    }
}

/// `s` left-padded with `c` to at least `w` characters.
pub open spec fn pad_left(s: Seq<char>, w: nat, c: char) -> Seq<char> {
    if s.len() >= w {
        s
    } else {
        Seq::new((w - s.len()) as nat, |i: int| c) + s
    }
}

fn push_hex_digits(s: &mut String, v: u64)
    ensures
        final(s)@ == old(s)@ + hex_digits(v as nat),
    decreases v,
{
    if v >= 16 {
        push_hex_digits(s, v / 16);
    }
    push_char(s, hex_char((v % 16) as u8, false));
    proof {
        if v < 16 {
            assert(hex_digits(v as nat) =~= seq![hex_digit(v as nat, false)]);
        }
    }
}

fn hex_min8(v: u64) -> (r: String)
    ensures
        r@ == pad_left(hex_digits(v as nat), 8, '0'),
{
    let mut d = String::new();
    push_hex_digits(&mut d, v);
    let n = d.as_str().unicode_len();
    let mut out = String::new();
    if n < 8 {
        let mut k: usize = 0;
        while k < 8 - n
            invariant
                k <= 8 - n,
                n < 8,
                out@ == Seq::new(k as nat, |i: int| '0'),
            decreases 8 - n - k,
        {
            push_char(&mut out, '0');
            proof {
                assert(out@ =~= Seq::new((k + 1) as nat, |i: int| '0'));
            }
            k = k + 1;
        }
    }
    push_str(&mut out, d.as_str());
    proof {
        assert(out@ =~= pad_left(hex_digits(v as nat), 8, '0'));
    }
    out
}

/// The character shown for a byte in the ASCII column.
pub open spec fn dump_char(b: u8) -> char {
    if 32 <= b <= 126 {
        b as char
    } else {
        '.'
    }
}

/// One line of a hex dump: the offset, the bytes in hex padded to 48
/// columns, and the bytes as ASCII.
pub open spec fn dump_line(chunk: Seq<u8>, offs: nat) -> Seq<char> {
    let hexs = Seq::new(chunk.len(), |i: int| spec_hex_byte(chunk[i], false) + seq![' ']).flatten();
    pad_left(hex_digits(offs), 8, '0') + "  "@ + hexs + Seq::new((48 - hexs.len()) as nat, |i: int| ' ')
        + "  |"@ + Seq::new(chunk.len(), |i: int| dump_char(chunk[i])) + "|\n"@
}

/// The first `k` lines of a dump of `bytes` starting at `start`.
pub open spec fn dump_lines(bytes: Seq<u8>, start: nat, k: nat) -> Seq<char>
    decreases k,
{
    if k == 0 {
        Seq::empty()
    } else {
        let i = (k - 1) as int;
        let end = if 16 * i + 16 < bytes.len() {
            16 * i + 16
        } else {
            bytes.len() as int
        };
        dump_lines(bytes, start, (k - 1) as nat) + dump_line(bytes.subrange(16 * i, end), (start + 16 * i) as nat)
    }
}

/// A hex dump: one line per 16 bytes.
pub open spec fn spec_hex_dump(bytes: Seq<u8>, start: nat) -> Seq<char> {
    dump_lines(bytes, start, ((bytes.len() + 15) / 16) as nat)
}

fn dump_line_exec(bytes: &[u8], a: usize, e: usize, offs: u64) -> (r: String)
    requires
        a <= e <= bytes@.len(),
        e - a <= 16,
    ensures
        r@ == dump_line(bytes@.subrange(a as int, e as int), offs as nat),
{
    let ghost chunk = bytes@.subrange(a as int, e as int);
    let mut out = hex_min8(offs);
    push_str(&mut out, "  ");
    let ghost head = out@;
    let ghost hx = Seq::new(chunk.len(), |i: int| spec_hex_byte(chunk[i], false) + seq![' ']);
    let mut i = a;
    while i < e
        invariant
            a <= i <= e <= bytes@.len(),
            chunk == bytes@.subrange(a as int, e as int),
            hx == Seq::new(chunk.len(), |i: int| spec_hex_byte(chunk[i], false) + seq![' ']),
            out@ == head + hx.subrange(0, i - a).flatten(),
            hx.subrange(0, i - a).flatten().len() == 3 * (i - a),
        decreases e - i,
    {
        push_hex_byte(&mut out, bytes[i], false);
        push_char(&mut out, ' ');
        proof {
            let k = i - a;
            assert(hx.subrange(0, k + 1) =~= hx.subrange(0, k).push(hx[k]));
            hx.subrange(0, k).lemma_flatten_push(hx[k]);
            assert(out@ =~= head + hx.subrange(0, k + 1).flatten());
        }
        i = i + 1;
    }
    proof {
        assert(hx.subrange(0, (e - a) as int) =~= hx);
    }
    let mut pad = 3 * (e - a);
    while pad < 48
        invariant
            3 * (e - a) <= pad <= 48,
            out@ == head + hx.flatten() + Seq::new((pad - 3 * (e - a)) as nat, |i: int| ' '),
        decreases 48 - pad,
    {
        push_char(&mut out, ' ');
        proof {
            assert(out@ =~= head + hx.flatten() + Seq::new((pad + 1 - 3 * (e - a)) as nat, |i: int| ' '));
        }
        pad = pad + 1;
    }
    push_str(&mut out, "  |");
    let ghost mid = out@;
    let mut j = a;
    while j < e
        invariant
            a <= j <= e <= bytes@.len(),
            chunk == bytes@.subrange(a as int, e as int),
            out@ == mid + Seq::new((j - a) as nat, |i: int| dump_char(chunk[i])),
        decreases e - j,
    {
        let b = bytes[j];
        let c = if 32 <= b && b <= 126 {
            b as char
        } else {
            '.'
        };
        push_char(&mut out, c);
        proof {
            assert(out@ =~= mid + Seq::new((j + 1 - a) as nat, |i: int| dump_char(chunk[i])));
        }
        j = j + 1;
    }
    push_str(&mut out, "|\n");
    proof {
        assert(out@ =~= dump_line(chunk, offs as nat));
    }
    out
}

/// A classic hex dump of `bytes`, addressed from `start_offset`: per 16
/// bytes, an offset of at least 8 lowercase hex digits, the bytes in hex,
/// and the printable ones as ASCII.
pub fn hex_dump(bytes: &[u8], start_offset: u64) -> (r: String)
    requires
        start_offset + bytes@.len() <= u64::MAX,
    ensures
        r@ == spec_hex_dump(bytes@, start_offset as nat),
{
    let n = bytes.len();
    let lines = (n / 16) + if n % 16 == 0 {
        0
    } else {
        1
    };
    proof {
        assert(lines == (n + 15) / 16) by (nonlinear_arith)
            requires
                lines == n / 16 + if n % 16 == 0 {
                    0int
                } else {
                    1int
                },
        ;
    }
    let mut out = String::new();
    let mut k: usize = 0;
    while k < lines
        invariant
            k <= lines,
            lines == (n + 15) / 16,
            n == bytes@.len(),
            start_offset + n <= u64::MAX,
            out@ == dump_lines(bytes@, start_offset as nat, k as nat),
        decreases lines - k,
    {
        proof {
            assert(16 * k < n) by (nonlinear_arith)
                requires
                    k < lines,
                    lines == (n + 15) / 16,
            ;
        }
        let a = 16 * k;
        let e = if n - a > 16 {
            a + 16
        } else {
            n
        };
        let line = dump_line_exec(bytes, a, e, start_offset + a as u64);
        push_str(&mut out, line.as_str());
        proof {
            assert(out@ =~= dump_lines(bytes@, start_offset as nat, (k + 1) as nat));
        }
        k = k + 1;
    }
    out
}

} // verus!
