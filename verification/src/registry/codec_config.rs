//! MPEG codec-configuration parsing shared across decoders:
//! AudioSpecificConfig (ISO 14496-3) and MPEG-4 descriptor lengths.

use vstd::prelude::*;
use super::data::AudioSpecificConfig;

verus! {

// ---------- descriptor lengths ----------

/// An MPEG-4 expandable descriptor length read at `pos`: up to four bytes,
/// seven value bits each, most significant first, with the high bit set on
/// every byte but the last. Yields the length and the position after it, or
/// `None` when the buffer ends first. `i` bytes have been read so far, into
/// `acc`.
pub open spec fn spec_descriptor_length(buf: Seq<u8>, pos: int, i: nat, acc: nat) -> Option<(nat, int)>
    decreases 4 - i,
{
    if i >= 4 {
        Some((acc, pos))
    } else if pos < 0 || pos >= buf.len() {
        None
    } else {
        let b = buf[pos];
        let acc2 = acc * 128 + (b % 128) as nat;
        if b < 128 {
            Some((acc2, pos + 1))
        } else {
            spec_descriptor_length(buf, pos + 1, i + 1, acc2)
        }
    }
}

/// Reads an expandable descriptor length at `*pos`, advancing `*pos` past
/// the bytes read.
pub fn read_descriptor_length(buf: &[u8], pos: &mut usize) -> (r: Option<u32>)
    ensures
        match spec_descriptor_length(buf@, *old(pos) as int, 0, 0) {
            Some((len, next)) => r == Some(len as u32) && *final(pos) == next && len < 0x1000_0000,
            None => r is None,
        },
        r is Some ==> *final(pos) <= buf@.len(),
        r is None ==> *final(pos) == if *old(pos) >= buf@.len() {
            *old(pos) as int
        } else {
            buf@.len() as int
        },
{
    let ghost p0 = *pos;
    let mut length: u32 = 0;
    let mut i: usize = 0;
    while i < 4
        invariant
            i <= 4,
            p0 == *old(pos),
            i > 0 ==> *pos <= buf@.len(),
            i == 0 ==> *pos == p0,
            i > 0 ==> p0 < buf@.len(),
            length < pow128(i as nat),
            spec_descriptor_length(buf@, p0 as int, 0, 0) == spec_descriptor_length(
                buf@,
                *pos as int,
                i as nat,
                length as nat,
            ),
        decreases 4 - i,
    {
        if *pos >= buf.len() {
            return None;
        }
        let b = buf[*pos];
        let ghost pp = *pos as int;
        let ghost prev = length as nat;
        *pos = *pos + 1;
        proof {
            lemma_pow128_step(i as nat);
        }
        length = length * 128 + (b % 128) as u32;
        assert(spec_descriptor_length(buf@, pp, i as nat, prev) == if b < 128 {
            Some((length as nat, pp + 1))
        } else {
            spec_descriptor_length(buf@, pp + 1, (i + 1) as nat, length as nat)
        });
        if b < 128 {
            proof {
                lemma_pow128_step(3);
                lemma_pow128_mono((i + 1) as nat, 4);
            }
            return Some(length);
        }
        i = i + 1;
    }
    proof {
        lemma_pow128_step(3);
    }
    Some(length)
}

pub open spec fn pow128(n: nat) -> nat
    decreases n,
{
    if n == 0 {
        1
    } else {
        128 * pow128((n - 1) as nat)
    }
}

proof fn lemma_pow128_step(n: nat)
    requires
        n <= 3,
    ensures
        pow128(n + 1) == 128 * pow128(n),
        pow128(n + 1) <= 0x1000_0000,
{
    reveal_with_fuel(pow128, 5);
}

proof fn lemma_pow128_mono(a: nat, b: nat)
    requires
        a <= b,
    ensures
        pow128(a) <= pow128(b),
    decreases b,
{
    if a < b {
        lemma_pow128_mono(a, (b - 1) as nat);
    }
}

// ---------- bit reading ----------

/// Bit `k` of a byte sequence, most significant bit of each byte first.
pub open spec fn bit_at(buf: Seq<u8>, k: int) -> nat {
    ((buf[k / 8] >> ((7 - k % 8) as u8)) & 1u8) as nat
}

/// The `n` bits starting at bit `start`, as an unsigned number.
pub open spec fn bits_value(buf: Seq<u8>, start: int, n: nat) -> nat
    decreases n,
{
    if n == 0 {
        0
    } else {
        bits_value(buf, start, (n - 1) as nat) * 2 + bit_at(buf, start + n - 1)
    }
}

pub open spec fn pow2(n: nat) -> nat
    decreases n,
{
    if n == 0 {
        1
    } else {
        2 * pow2((n - 1) as nat)
    }
}

proof fn lemma_bits_bound(buf: Seq<u8>, start: int, n: nat)
    requires
        0 <= start,
        start + n <= buf.len() * 8,
    ensures
        bits_value(buf, start, n) < pow2(n),
    decreases n,
{
    if n > 0 {
        lemma_bits_bound(buf, start, (n - 1) as nat);
        let k = start + n - 1;
        let b = buf[k / 8];
        let sh = (7 - k % 8) as u8;
        assert((b >> sh) & 1u8 <= 1u8) by (bit_vector);
    }
}

proof fn lemma_pow2_le(n: nat)
    requires
        n <= 32,
    ensures
        pow2(n) <= 0x1_0000_0000,
    decreases n,
{
    lemma_pow2_mono(n, 32);
    reveal_with_fuel(pow2, 33);
}

proof fn lemma_pow2_mono(a: nat, b: nat)
    requires
        a <= b,
    ensures
        pow2(a) <= pow2(b),
    decreases b,
{
    if a < b {
        lemma_pow2_mono(a, (b - 1) as nat);
    }
}

/// Result of reading `n` bits at bit position `pos`: the value, or `None`
/// when the buffer has fewer bits left, together with the position after
/// the read (the end of the buffer on failure).
pub open spec fn spec_read_bits(buf: Seq<u8>, pos: int, n: nat) -> (Option<nat>, int) {
    if pos + n <= buf.len() * 8 {
        (Some(bits_value(buf, pos, n)), pos + n)
    } else {
        (None, (buf.len() * 8) as int)
    }
}

/// MSB-first bit reader over a byte slice. The read position is bit
/// `byte * 8 + bit` of the buffer.
pub struct BitReader<'a> {
    pub buf: &'a [u8],
    pub byte: usize,
    pub bit: usize,
}

impl<'a> BitReader<'a> {
    /// The position is inside the buffer or at its end.
    pub open spec fn wf(&self) -> bool {
        &&& self.bit < 8
        &&& self.byte <= self.buf@.len()
        &&& self.byte == self.buf@.len() ==> self.bit == 0
    }

    /// The read position, in bits.
    pub open spec fn pos(&self) -> int {
        self.byte * 8 + self.bit
    }

    pub fn new(buf: &'a [u8]) -> (r: BitReader<'a>)
        ensures
            r.wf(),
            r.buf@ == buf@,
            r.pos() == 0,
    {
        BitReader { buf, byte: 0, bit: 0 }
    }

    /// Reads `n <= 32` bits; on running out, returns `None` and leaves the
    /// reader at the end of the buffer.
    pub fn read(&mut self, n: usize) -> (r: Option<u32>)
        requires
            n <= 32,
            old(self).wf(),
        ensures
            final(self).wf(),
            final(self).buf@ == old(self).buf@,
            (match r {
                Some(v) => Some(v as nat),
                None => None,
            }, final(self).pos()) == spec_read_bits(old(self).buf@, old(self).pos(), n as nat),
    {
        let ghost start = self.pos();
        let mut v: u32 = 0;
        let mut i: usize = 0;
        while i < n
            invariant
                i <= n <= 32,
                self.wf(),
                start + i == self.pos(),
                start == old(self).pos(),
                self.buf@ == old(self).buf@,
                0 <= start,
                v == bits_value(self.buf@, start, i as nat),
            decreases n - i,
        {
            if self.byte >= self.buf.len() {
                return None;
            }
            let byte = self.buf[self.byte];
            let sh = (7 - self.bit) as u8;
            let b = (byte >> sh) & 1u8;
            proof {
                lemma_pos_split(self.byte as int, self.bit as int);
                assert((byte >> sh) & 1u8 <= 1u8) by (bit_vector);
                lemma_bits_bound(self.buf@, start, i as nat);
                lemma_pow2_le((i + 1) as nat);
                assert(pow2((i + 1) as nat) == 2 * pow2(i as nat));
            }
            v = v * 2 + b as u32;
            if self.bit == 7 {
                self.byte = self.byte + 1;
                self.bit = 0;
            } else {
                self.bit = self.bit + 1;
            }
            i = i + 1;
        }
        Some(v)
    }
}

proof fn lemma_pos_split(byte: int, bit: int)
    requires
        0 <= bit < 8,
        0 <= byte,
    ensures
        (byte * 8 + bit) / 8 == byte,
        (byte * 8 + bit) % 8 == bit,
{
    assert((byte * 8 + bit) / 8 == byte) by (nonlinear_arith)
        requires
            0 <= bit < 8,
            0 <= byte,
    ;
    assert((byte * 8 + bit) % 8 == bit) by (nonlinear_arith)
        requires
            0 <= bit < 8,
            0 <= byte,
    ;
}

// ---------- AudioSpecificConfig ----------

pub open spec fn spec_aac_sample_rate(index: nat) -> Option<nat> {
    if index == 0 { Some(96000) }
    else if index == 1 { Some(88200) }
    else if index == 2 { Some(64000) }
    else if index == 3 { Some(48000) }
    else if index == 4 { Some(44100) }
    else if index == 5 { Some(32000) }
    else if index == 6 { Some(24000) }
    else if index == 7 { Some(22050) }
    else if index == 8 { Some(16000) }
    else if index == 9 { Some(12000) }
    else if index == 10 { Some(11025) }
    else if index == 11 { Some(8000) }
    else if index == 12 { Some(7350) }
    else { None }
}

/// Sampling frequency for a samplingFrequencyIndex.
pub fn aac_sample_rate(index: u32) -> (r: Option<u32>)
    ensures
        match spec_aac_sample_rate(index as nat) {
            Some(v) => r == Some(v as u32),
            None => r is None,
        },
{
    match index {
        0 => Some(96000),
        1 => Some(88200),
        2 => Some(64000),
        3 => Some(48000),
        4 => Some(44100),
        5 => Some(32000),
        6 => Some(24000),
        7 => Some(22050),
        8 => Some(16000),
        9 => Some(12000),
        10 => Some(11025),
        11 => Some(8000),
        12 => Some(7350),
        _ => None,
    }
}

pub open spec fn spec_audio_object_type_name(aot: u8) -> &'static str {
    match aot {
        1 => "AAC Main",
        2 => "AAC-LC",
        3 => "AAC SSR",
        4 => "AAC LTP",
        5 => "SBR",
        6 => "AAC Scalable",
        23 => "AAC-LD",
        29 => "PS",
        39 => "AAC-ELD",
        42 => "xHE-AAC (USAC)",
        _ => "MPEG-4 Audio",
    }
}

/// Name of an MPEG-4 audio object type.
pub fn audio_object_type_name(aot: u8) -> (r: &'static str)
    ensures
        r == spec_audio_object_type_name(aot),
{
    match aot {
        1 => "AAC Main",
        2 => "AAC-LC",
        3 => "AAC SSR",
        4 => "AAC LTP",
        5 => "SBR",
        6 => "AAC Scalable",
        23 => "AAC-LD",
        29 => "PS",
        39 => "AAC-ELD",
        42 => "xHE-AAC (USAC)",
        _ => "MPEG-4 Audio",
    }
}

/// audioObjectType read at bit `pos`: 5 bits, with 31 escaping to
/// 32 + 6 more bits.
pub open spec fn spec_read_aot(buf: Seq<u8>, pos: int) -> (Option<nat>, int) {
    let (a, p1) = spec_read_bits(buf, pos, 5);
    match a {
        None => (None, p1),
        Some(a) => if a == 31 {
            let (b, p2) = spec_read_bits(buf, p1, 6);
            match b {
                None => (None, p2),
                Some(b) => (Some(32 + b), p2),
            }
        } else {
            (Some(a), p1)
        },
    }
}

/// Sampling frequency read at bit `pos`: a 4-bit index, with 15 escaping
/// to an explicit 24-bit rate.
pub open spec fn spec_read_rate(buf: Seq<u8>, pos: int) -> (Option<nat>, int) {
    let (i, p1) = spec_read_bits(buf, pos, 4);
    match i {
        None => (None, p1),
        Some(i) => if i == 15 {
            spec_read_bits(buf, p1, 24)
        } else {
            (spec_aac_sample_rate(i), p1)
        },
    }
}

/// Object types whose GASpecificConfig may be followed by an explicit
/// backward-compatible SBR sync extension.
pub open spec fn is_ga_type(a: nat) -> bool {
    (1 <= a <= 4) || a == 6 || a == 7 || a == 17 || (19 <= a <= 23)
}

/// The GASpecificConfig at bit `pos`: whether it has no extension flag
/// (`None` when the bits run out), and the position after it.
pub open spec fn spec_ga(buf: Seq<u8>, pos: int) -> (Option<bool>, int) {
    let (fl, p1) = spec_read_bits(buf, pos, 1);
    if fl is None {
        (None, p1)
    } else {
        let (dep, p2) = spec_read_bits(buf, p1, 1);
        match dep {
            None => (None, p2),
            Some(d) => {
                let (delay, p3) = if d == 1 {
                    spec_read_bits(buf, p2, 14)
                } else {
                    (Some(0nat), p2)
                };
                if delay is None {
                    (None, p3)
                } else {
                    let (ext, p4) = spec_read_bits(buf, p3, 1);
                    match ext {
                        None => (None, p4),
                        Some(e) => (Some(e == 0), p4),
                    }
                }
            },
        }
    }
}

/// The explicit SBR (and PS) sync extensions after a GASpecificConfig at
/// bit `pos`: (SBR found, extension rate, PS found).
pub open spec fn spec_sync_ext(buf: Seq<u8>, pos: int) -> (bool, Option<nat>, bool) {
    let (sync, p1) = spec_read_bits(buf, pos, 11);
    if sync != Some(0x2B7nat) {
        (false, None, false)
    } else {
        let (a, p2) = spec_read_aot(buf, p1);
        if a != Some(5nat) {
            (false, None, false)
        } else {
            let (f, p3) = spec_read_bits(buf, p2, 1);
            if f != Some(1nat) {
                (false, None, false)
            } else {
                let (ext, p4) = spec_read_rate(buf, p3);
                let (sync2, p5) = spec_read_bits(buf, p4, 11);
                let ps = sync2 == Some(0x548nat) && spec_read_bits(buf, p5, 1).0 == Some(1nat);
                (true, ext, ps)
            }
        }
    }
}

/// The leading fields of an AudioSpecificConfig: (object type, sample
/// rate, extension rate, channel configuration, SBR, PS), or `None` when
/// the object type, rate or channels are missing.
pub open spec fn spec_asc(buf: Seq<u8>) -> Option<(nat, nat, Option<nat>, nat, bool, bool)> {
    let (aot0, p1) = spec_read_aot(buf, 0);
    let (rate, p2) = spec_read_rate(buf, p1);
    let (ch, p3) = spec_read_bits(buf, p2, 4);
    if aot0 is None || rate is None || ch is None {
        None
    } else {
        let a = aot0.unwrap();
        if a == 5 || a == 29 {
            let (ext, p4) = spec_read_rate(buf, p3);
            let (aot1, _) = spec_read_aot(buf, p4);
            if ext is None || aot1 is None {
                None
            } else {
                Some((aot1.unwrap(), rate.unwrap(), ext, ch.unwrap(), true, a == 29))
            }
        } else if is_ga_type(a) {
            let (ga, q) = spec_ga(buf, p3);
            if ga == Some(true) {
                let (sbr, ext, ps) = spec_sync_ext(buf, q);
                Some((a, rate.unwrap(), ext, ch.unwrap(), sbr, ps))
            } else {
                Some((a, rate.unwrap(), None, ch.unwrap(), false, false))
            }
        } else {
            Some((a, rate.unwrap(), None, ch.unwrap(), false, false))
        }
    }
}

/// The profile name: HE-AAC v2 with PS, HE-AAC with SBR, else the object
/// type's name.
pub open spec fn spec_profile(aot: nat, sbr: bool, ps: bool) -> Seq<char> {
    if ps {
        "HE-AAC v2"@
    } else if sbr {
        "HE-AAC"@
    } else {
        spec_audio_object_type_name(aot as u8)@
    }
}

fn read_aot(r: &mut BitReader) -> (a: Option<u32>)
    requires
        old(r).wf(),
    ensures
        final(r).wf(),
        final(r).buf@ == old(r).buf@,
        (match a {
            Some(v) => Some(v as nat),
            None => None,
        }, final(r).pos()) == spec_read_aot(old(r).buf@, old(r).pos()),
        a matches Some(v) ==> v < 96,
{
    let a = r.read(5);
    match a {
        None => None,
        Some(v) => {
            proof {
                lemma_bits_bound(old(r).buf@, old(r).pos(), 5);
                reveal_with_fuel(pow2, 6);
            }
            if v == 31 {
                match r.read(6) {
                    None => None,
                    Some(b) => {
                        proof {
                            lemma_bits_bound(old(r).buf@, old(r).pos() + 5, 6);
                            reveal_with_fuel(pow2, 7);
                        }
                        Some(32 + b)
                    },
                }
            } else {
                Some(v)
            }
        },
    }
}

fn read_rate(r: &mut BitReader) -> (x: Option<u32>)
    requires
        old(r).wf(),
    ensures
        final(r).wf(),
        final(r).buf@ == old(r).buf@,
        (match x {
            Some(v) => Some(v as nat),
            None => None,
        }, final(r).pos()) == spec_read_rate(old(r).buf@, old(r).pos()),
{
    match r.read(4) {
        None => None,
        Some(i) => if i == 15 {
            r.read(24)
        } else {
            aac_sample_rate(i)
        },
    }
}

/// `r` is what an AudioSpecificConfig in `buf` parses to.
pub open spec fn asc_is(r: Option<AudioSpecificConfig>, buf: Seq<u8>) -> bool {
    match spec_asc(buf) {
        None => r is None,
        Some(t) => r matches Some(c) && c.audio_object_type == t.0 && c.sample_rate == t.1
            && (match c.extension_sample_rate {
            Some(v) => Some(v as nat),
            None => None,
        }) == t.2 && c.channel_configuration == t.3 && c.sbr == t.4 && c.ps == t.5
            && c.profile@ == spec_profile(t.0, t.4, t.5),
    }
}

/// Skips a GASpecificConfig; `Some(true)` when it has no extension flag.
fn read_ga(r: &mut BitReader) -> (g: Option<bool>)
    requires
        old(r).wf(),
    ensures
        final(r).wf(),
        final(r).buf@ == old(r).buf@,
        (g, final(r).pos()) == spec_ga(old(r).buf@, old(r).pos()),
{
    if r.read(1).is_none() {
        return None;
    }
    let d = match r.read(1) {
        None => return None,
        Some(d) => d,
    };
    if d == 1 {
        if r.read(14).is_none() {
            return None;
        }
    }
    match r.read(1) {
        None => None,
        Some(e) => Some(e == 0),
    }
}

/// Reads the backward-compatible SBR sync extension, and the PS one after
/// it: (SBR found, extension rate, PS found).
fn read_sync_ext(r: &mut BitReader) -> (t: (bool, Option<u32>, bool))
    requires
        old(r).wf(),
    ensures
        (t.0, match t.1 {
            Some(v) => Some(v as nat),
            None => None,
        }, t.2) == spec_sync_ext(old(r).buf@, old(r).pos()),
{
    if r.read(11) != Some(0x2B7u32) {
        return (false, None, false);
    }
    if read_aot(r) != Some(5u32) {
        return (false, None, false);
    }
    if r.read(1) != Some(1u32) {
        return (false, None, false);
    }
    let ext = read_rate(r);
    let mut ps = false;
    if r.read(11) == Some(0x548u32) {
        if r.read(1) == Some(1u32) {
            ps = true;
        }
    }
    (true, ext, ps)
}

/// Parses the leading fields of an AudioSpecificConfig: object type,
/// sampling frequency, channel configuration, and explicit (hierarchical
/// or backward-compatible) SBR/PS signaling.
pub fn parse_audio_specific_config(buf: &[u8]) -> (r: Option<AudioSpecificConfig>)
    ensures
        asc_is(r, buf@),
{
    let mut r = BitReader::new(buf);
    let aot0 = match read_aot(&mut r) {
        Some(a) => a,
        None => return None,
    };
    let sample_rate = match read_rate(&mut r) {
        Some(x) => x,
        None => return None,
    };
    let ghost p2 = r.pos();
    let ch = match r.read(4) {
        Some(c) => c,
        None => return None,
    };
    proof {
        lemma_bits_bound(buf@, p2, 4);
        reveal_with_fuel(pow2, 5);
    }
    let mut aot = aot0;
    let mut sbr = false;
    let mut ps = false;
    let mut ext: Option<u32> = None;
    if aot0 == 5 || aot0 == 29 {
        sbr = true;
        ps = aot0 == 29;
        ext = match read_rate(&mut r) {
            Some(x) => Some(x),
            None => return None,
        };
        aot = match read_aot(&mut r) {
            Some(a) => a,
            None => return None,
        };
    } else if (1 <= aot0 && aot0 <= 4) || aot0 == 6 || aot0 == 7 || aot0 == 17 || (19 <= aot0 && aot0
        <= 23) {
        if read_ga(&mut r) == Some(true) {
            let (s, e, p) = read_sync_ext(&mut r);
            sbr = s;
            ext = e;
            ps = p;
        }
    }
    let mut profile = String::new();
    if ps {
        crate::util::push_str(&mut profile, "HE-AAC v2");
    } else if sbr {
        crate::util::push_str(&mut profile, "HE-AAC");
    } else {
        crate::util::push_str(&mut profile, audio_object_type_name(aot as u8));
    }
    proof {
        assert(profile@ =~= spec_profile(aot as nat, sbr, ps));
    }
    Some(
        AudioSpecificConfig {
            audio_object_type: aot as u8,
            profile,
            sample_rate,
            extension_sample_rate: ext,
            channel_configuration: ch as u8,
            sbr,
            ps,
        },
    )
}

} // verus!
