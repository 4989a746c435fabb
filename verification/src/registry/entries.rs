//! Decoders for the sample description box `stsd` (its sample entries)
//! and the compact sample size box `stz2`.

use vstd::prelude::*;
use crate::boxes::{lossy_char, BoxHeader, FourCC};
use crate::util::{push_decimal, push_str, spec_decimal};
use super::data::{BoxValue, DecodeError, SampleEntry, StsdData, StructuredData, StszData};
use super::decoders::{at, read_at};

verus! {

// ---------- stsd ----------

/// The four bytes at `pos` as a big-endian code.
pub open spec fn code_at(p: Seq<u8>, pos: int) -> nat {
    at(p, pos, 4)
}

/// Codecs whose sample entries have the visual layout.
pub open spec fn is_visual_code(x: nat) -> bool {
    x == 0x61766331 || x == 0x61766332 || x == 0x61766333 || x == 0x61766334 || x == 0x68657631 || x
        == 0x68766331 || x == 0x76766331 || x == 0x6D703476 || x == 0x76703038 || x == 0x76703039 || x
        == 0x61763031 || x == 0x64766831 || x == 0x64766865 || x == 0x64617631 || x == 0x656E6376 || x
        == 0x61706368 || x == 0x6170636E || x == 0x61706373 || x == 0x6170636F || x == 0x61703468 || x
        == 0x61703478
}

/// Codecs whose sample entries have the audio layout.
pub open spec fn is_audio_code(x: nat) -> bool {
    x == 0x6D703461 || x == 0x61632D33 || x == 0x65632D33 || x == 0x4F707573 || x == 0x6F707573 || x
        == 0x73616D72 || x == 0x73617762 || x == 0x616C6163 || x == 0x664C6143 || x == 0x656E6361 || x
        == 0x6970636D || x == 0x6670636D
}

fn is_visual_exec(x: u32) -> (r: bool)
    ensures
        r == is_visual_code(x as nat),
{
    x == 0x61766331 || x == 0x61766332 || x == 0x61766333 || x == 0x61766334 || x == 0x68657631 || x
        == 0x68766331 || x == 0x76766331 || x == 0x6D703476 || x == 0x76703038 || x == 0x76703039 || x
        == 0x61763031 || x == 0x64766831 || x == 0x64766865 || x == 0x64617631 || x == 0x656E6376 || x
        == 0x61706368 || x == 0x6170636E || x == 0x61706373 || x == 0x6170636F || x == 0x61703468 || x
        == 0x61703478
}

fn is_audio_exec(x: u32) -> (r: bool)
    ensures
        r == is_audio_code(x as nat),
{
    x == 0x6D703461 || x == 0x61632D33 || x == 0x65632D33 || x == 0x4F707573 || x == 0x6F707573 || x
        == 0x73616D72 || x == 0x73617762 || x == 0x616C6163 || x == 0x664C6143 || x == 0x656E6361 || x
        == 0x6970636D || x == 0x6670636D
}

/// Positions of the sample entries from `pos` on, `k` at most: an entry is
/// read while its size and type fit; reading stops after an entry whose
/// size is below 8. `None` when an entry's header and data reference index
/// run past the end.
pub open spec fn stsd_positions(p: Seq<u8>, pos: int, k: nat) -> Option<Seq<int>>
    decreases k,
{
    if k == 0 || pos + 8 > p.len() {
        Some(Seq::empty())
    } else if pos + 16 > p.len() {
        None
    } else {
        let size = at(p, pos, 4);
        if size >= 8 {
            match stsd_positions(p, pos + size, (k - 1) as nat) {
                None => None,
                Some(rest) => Some(seq![pos] + rest),
            }
        } else {
            Some(seq![pos])
        }
    }
}

/// Where the sample entry at `pos` ends: after its declared size when that
/// is at least a header and fits, else at the end of the payload.
pub open spec fn entry_end(p: Seq<u8>, pos: int) -> int {
    let size = at(p, pos, 4);
    if size >= 8 && pos + size <= p.len() {
        pos + size
    } else {
        p.len() as int
    }
}

/// `e` is the sample entry at `pos`; the visual and audio fields are read
/// only when they lie within the entry.
pub open spec fn entry_is(e: SampleEntry, p: Seq<u8>, pos: int) -> bool {
    let c = code_at(p, pos + 4);
    let fits = pos + 36 <= entry_end(p, pos);
    &&& e.size == at(p, pos, 4)
    &&& e.codec@ == Seq::new(4, |i: int| lossy_char(p[pos + 4 + i]))
    &&& e.data_reference_index == at(p, pos + 14, 2)
    &&& if is_visual_code(c) && fits {
        e.width == Some(at(p, pos + 32, 2) as u16) && e.height == Some(at(p, pos + 34, 2) as u16)
    } else {
        e.width is None && e.height is None
    }
    &&& if !is_visual_code(c) && is_audio_code(c) && fits {
        &&& e.channel_count == Some(at(p, pos + 24, 2) as u16)
        &&& e.sample_size == Some(at(p, pos + 26, 2) as u16)
        &&& e.sample_rate == Some((at(p, pos + 32, 4) / 65536) as u32)
    } else {
        e.channel_count is None && e.sample_size is None && e.sample_rate is None
    }
}

/// `done` followed by the positions of `r`, or `None`.
pub open spec fn after_positions(done: Seq<int>, r: Option<Seq<int>>) -> Option<Seq<int>> {
    match r {
        None => None,
        Some(rest) => Some(done + rest),
    }
}

fn read_entry(p: &[u8], pos: usize) -> (e: SampleEntry)
    requires
        pos + 16 <= p@.len(),
    ensures
        entry_is(e, p@, pos as int),
{
    let n = p.len();
    let size = read_at(p, pos, 4) as u32;
    let end: usize = if size >= 8 && size as usize <= n - pos {
        pos + size as usize
    } else {
        n
    };
    let fits = 36 <= end - pos;
    let cc = FourCC([p[pos + 4], p[pos + 5], p[pos + 6], p[pos + 7]]);
    let codec = cc.as_str_lossy();
    proof {
        assert(codec@ =~= Seq::new(4, |i: int| lossy_char(p@[pos + 4 + i])));
    }
    let code = read_at(p, pos + 4, 4) as u32;
    let dri = read_at(p, pos + 14, 2) as u16;
    let mut e = SampleEntry {
        size,
        codec,
        data_reference_index: dri,
        width: None,
        height: None,
        channel_count: None,
        sample_size: None,
        sample_rate: None,
    };
    if is_visual_exec(code) && fits {
        e.width = Some(read_at(p, pos + 32, 2) as u16);
        e.height = Some(read_at(p, pos + 34, 2) as u16);
    } else if is_audio_exec(code) && fits {
        e.channel_count = Some(read_at(p, pos + 24, 2) as u16);
        e.sample_size = Some(read_at(p, pos + 26, 2) as u16);
        e.sample_rate = Some((read_at(p, pos + 32, 4) / 65536) as u32);
    }
    e
}

/// stsd: the entry count and, for each sample entry that fits, its size,
/// codec, data reference index, and the frame size (visual codecs) or
/// channel count, sample size and rate (audio codecs) when those fields lie
/// within the entry.
pub struct StsdDecoder;

impl StsdDecoder {
    pub fn decode(&self, payload: &[u8], hdr: &BoxHeader, version: Option<u8>, flags: Option<u32>) -> (r:
        Result<BoxValue, DecodeError>)
        ensures
            ({
                let p = payload@;
                if p.len() < 4 {
                    r matches Err(DecodeError::Truncated)
                } else {
                    match stsd_positions(p, 4, at(p, 0, 4)) {
                        None => r matches Err(DecodeError::Truncated),
                        Some(ps) => r matches Ok(
                            BoxValue::Structured(StructuredData::SampleDescription(d)),
                        ) && d.version == (match version {
                            Some(x) => x,
                            None => 0,
                        }) && d.flags == (match flags {
                            Some(x) => x,
                            None => 0,
                        }) && d.entry_count == at(p, 0, 4) && d.entries@.len() == ps.len() && forall|
                            i: int,
                        |
                            0 <= i < ps.len() ==> entry_is(#[trigger] d.entries@[i], p, ps[i]),
                    }
                }
            }),
    {
        let p = payload;
        let n = p.len();
        if n < 4 {
            return Err(DecodeError::Truncated);
        }
        let count = read_at(p, 0, 4) as u32;
        let mut entries: Vec<SampleEntry> = Vec::new();
        let mut pos: u64 = 4;
        let mut k: u32 = 0;
        let ghost mut done: Seq<int> = Seq::empty();
        proof {
            match stsd_positions(p@, 4, count as nat) {
                Some(rest) => {
                    assert(done + rest =~= rest);
                },
                None => {},
            }
        }
        while k < count && (n as u64) - pos >= 8
            invariant
                n == p@.len(),
                p@ == payload@,
                count == at(p@, 0, 4),
                k <= count,
                pos <= n,
                stsd_positions(p@, 4, count as nat) == after_positions(
                    done,
                    stsd_positions(p@, pos as int, (count - k) as nat),
                ),
                entries@.len() == done.len(),
                forall|i: int| 0 <= i < done.len() ==> entry_is(#[trigger] entries@[i], p@, done[i]),
            decreases count - k,
        {
            let at_pos = pos as usize;
            if n - at_pos < 16 {
                return Err(DecodeError::Truncated);
            }
            let e = read_entry(p, at_pos);
            let size = read_at(p, at_pos, 4);
            entries.push(e);
            proof {
                let old_done = done;
                done = done.push(pos as int);
                assert forall|i: int| 0 <= i < done.len() implies entry_is(
                    #[trigger] entries@[i],
                    p@,
                    done[i],
                ) by {
                    if i < old_done.len() {
                        assert(done[i] == old_done[i]);
                    }
                }
                if size >= 8 {
                    match stsd_positions(p@, pos + size, (count - k - 1) as nat) {
                        Some(rest) => {
                            assert(old_done + (seq![pos as int] + rest) =~= done + rest);
                        },
                        None => {},
                    }
                } else {
                    assert(old_done + seq![pos as int] =~= done + Seq::<int>::empty());
                }
            }
            if size < 8 {
                k = count;
                proof {
                    assert(stsd_positions(p@, pos as int, 0) == Some(Seq::<int>::empty()));
                }
            } else {
            k = k + 1;
            if size > (n - at_pos) as u64 {
                proof {
                    assert(stsd_positions(p@, pos + size, (count - k) as nat) == Some(
                        Seq::<int>::empty(),
                    ));
                    assert(stsd_positions(p@, n as int, (count - k) as nat) == Some(
                        Seq::<int>::empty(),
                    ));
                }
                pos = n as u64;
            } else {
                pos = pos + size;
            }
            }
        }
        proof {
            if k < count {
                assert(stsd_positions(p@, pos as int, (count - k) as nat) == Some(Seq::<int>::empty()));
            }
            assert(done + Seq::<int>::empty() =~= done);
        }
        Ok(
            BoxValue::Structured(
                StructuredData::SampleDescription(
                    StsdData {
                        version: match version {
                            Some(x) => x,
                            None => 0,
                        },
                        flags: match flags {
                            Some(x) => x,
                            None => 0,
                        },
                        entry_count: count,
                        entries,
                    },
                ),
            ),
        )
    }
}

// ---------- stz2 ----------

/// The size of sample `i` in a compact table of `fs`-bit fields starting
/// at byte 8.
pub open spec fn stz2_size(p: Seq<u8>, fs: u8, i: int) -> nat {
    if fs == 4 {
        if i % 2 == 0 {
            (p[8 + i / 2] / 16) as nat
        } else {
            (p[8 + i / 2] % 16) as nat
        }
    } else if fs == 8 {
        p[8 + i] as nat
    } else {
        at(p, 8 + 2 * i, 2)
    }
}

/// Bytes the table of `count` `fs`-bit fields takes.
pub open spec fn stz2_table_len(fs: u8, count: nat) -> int {
    if fs == 4 {
        ((count + 1) / 2) as int
    } else if fs == 8 {
        count as int
    } else {
        (2 * count) as int
    }
}

pub open spec fn stz2_invalid_text(fs: u8) -> Seq<char> {
    "stz2: invalid field_size "@ + spec_decimal(fs as nat)
}

/// stz2: compact sample sizes of 4, 8 or 16 bits, returned in the shape of
/// stsz with a per-sample table.
pub struct Stz2Decoder;

impl Stz2Decoder {
    pub fn decode(&self, payload: &[u8], hdr: &BoxHeader, version: Option<u8>, flags: Option<u32>) -> (r:
        Result<BoxValue, DecodeError>)
        ensures
            ({
                let p = payload@;
                if p.len() < 8 {
                    r matches Err(DecodeError::Truncated)
                } else {
                    let fs = p[3];
                    let count = at(p, 4, 4);
                    if fs != 4 && fs != 8 && fs != 16 {
                        r matches Err(DecodeError::Invalid(m)) && m@ == stz2_invalid_text(fs)
                    } else if 8 + stz2_table_len(fs, count) > p.len() {
                        r matches Err(DecodeError::Truncated)
                    } else {
                        r matches Ok(BoxValue::Structured(StructuredData::SampleSize(d)))
                            && d.version == (match version {
                            Some(x) => x,
                            None => 0,
                        }) && d.flags == (match flags {
                            Some(x) => x,
                            None => 0,
                        }) && d.sample_size == 0 && d.sample_count == count && d.sample_sizes@
                            == Seq::new(count, |i: int| stz2_size(p, fs, i) as u32)
                    }
                }
            }),
    {
        let p = payload;
        let n = p.len();
        if n < 8 {
            return Err(DecodeError::Truncated);
        }
        let fs = p[3];
        let count = read_at(p, 4, 4) as u32;
        if fs != 4 && fs != 8 && fs != 16 {
            let mut m = String::new();
            push_str(&mut m, "stz2: invalid field_size ");
            push_decimal(&mut m, fs as u64);
            return Err(DecodeError::Invalid(m));
        }
        let c = count as u64;
        let need: u64 = if fs == 4 {
            (c + 1) / 2
        } else if fs == 8 {
            c
        } else {
            2 * c
        };
        if need > (n - 8) as u64 {
            return Err(DecodeError::Truncated);
        }
        let mut sizes: Vec<u32> = Vec::new();
        let mut i: u32 = 0;
        while i < count
            invariant
                n == p@.len(),
                fs == p@[3],
                fs == 4 || fs == 8 || fs == 16,
                count == at(p@, 4, 4),
                8 + stz2_table_len(fs, count as nat) <= n,
                i <= count,
                sizes@ == Seq::new(i as nat, |j: int| stz2_size(p@, fs, j) as u32),
            decreases count - i,
        {
            let iu = i as usize;
            let v: u32 = if fs == 4 {
                let b = p[8 + iu / 2];
                if iu % 2 == 0 {
                    (b / 16) as u32
                } else {
                    (b % 16) as u32
                }
            } else if fs == 8 {
                p[8 + iu] as u32
            } else {
                read_at(p, 8 + 2 * iu, 2) as u32
            };
            sizes.push(v);
            proof {
                assert(sizes@ =~= Seq::new((i + 1) as nat, |j: int| stz2_size(p@, fs, j) as u32));
            }
            i = i + 1;
        }
        Ok(
            BoxValue::Structured(
                StructuredData::SampleSize(
                    StszData {
                        version: match version {
                            Some(x) => x,
                            None => 0,
                        },
                        flags: match flags {
                            Some(x) => x,
                            None => 0,
                        },
                        sample_size: 0,
                        sample_count: count,
                        sample_sizes: sizes,
                    },
                ),
            ),
        )
    }
}

} // verus!
