//! Core box types: fourcc codes, box headers and the parsed box tree.

use vstd::prelude::*;
use crate::util::{be_value, push_char, read_u32};
use vstd::string::StringSliceAdditionalSpecFns;

verus! {

/// A four-character box type code.
#[derive(Debug, Clone, Copy, PartialEq, Eq, Hash)]
pub struct FourCC(pub [u8; 4]);

/// The character shown for a byte in lossy fourcc rendering: printable
/// ASCII as itself, anything else as '.'.
pub open spec fn lossy_char(b: u8) -> char {
    if 32 <= b && b <= 126 {
        b as char
    } else {
        '.'
    }
}

impl FourCC {
    /// The fourcc as a big-endian 32-bit code.
    pub open spec fn spec_code(self) -> nat {
        be_value(self.0@)
    }

    /// The fourcc as a big-endian 32-bit code.
    pub fn code(&self) -> (r: u32)
        ensures
            r == self.spec_code(),
    {
        let b = self.0.as_slice();
        proof {
            assert(b@.subrange(0, 4) =~= self.0@);
        }
        read_u32(b, 0)
    }

    /// Whether the fourcc spells `bytes`.
    pub open spec fn is(self, bytes: Seq<u8>) -> bool {
        self.0@ == bytes
    }

    /// Byte-wise equality of two fourccs.
    pub fn same(&self, other: &FourCC) -> (r: bool)
        ensures
            r == (self.0@ == other.0@),
    {
        let r = self.0[0] == other.0[0] && self.0[1] == other.0[1] && self.0[2] == other.0[2]
            && self.0[3] == other.0[3];
        proof {
            if r {
                assert(self.0@ =~= other.0@);
            }
        }
        r
    }

    /// Whether the fourcc spells the four given bytes.
    pub fn equals(&self, b: [u8; 4]) -> (r: bool)
        ensures
            r == (self.0@ == b@),
    {
        self.same(&FourCC(b))
    }

    /// The lossy text rendering: printable ASCII kept, other bytes as '.'.
    pub open spec fn spec_lossy(self) -> Seq<char> {
        Seq::new(4, |i: int| lossy_char(self.0@[i]))
    }

    /// Renders the fourcc as text, replacing non-printable bytes with '.'.
    pub fn as_str_lossy(&self) -> (r: String)
        ensures
            r@ == self.spec_lossy(),
    {
        let mut s = String::new();
        let mut i: usize = 0;
        while i < 4
            invariant
                i <= 4,
                s@ == self.spec_lossy().subrange(0, i as int),
            decreases 4 - i,
        {
            let c = self.0[i];
            let ch = if 32 <= c && c <= 126 {
                c as char
            } else {
                '.'
            };
            push_char(&mut s, ch);
            proof {
                assert(s@ =~= self.spec_lossy().subrange(0, i + 1));
            }
            i = i + 1;
        }
        proof {
            assert(s@ =~= self.spec_lossy());
        }
        s
    }

    /// Parses a fourcc from a string whose UTF-8 encoding is exactly four
    /// bytes.
    pub fn parse(s: &str) -> (r: Result<FourCC, ()>)
        ensures
            r is Ok <==> s.spec_bytes().len() == 4,
            r matches Ok(cc) ==> cc.0@ == s.spec_bytes(),
    {
        let b = s.as_bytes();
        if b.len() == 4 {
            let cc = FourCC([b[0], b[1], b[2], b[3]]);
            proof {
                assert(cc.0@ =~= s.spec_bytes());
            }
            Ok(cc)
        } else {
            Err(())
        }
    }
}

impl core::str::FromStr for FourCC {
    type Err = ();

    fn from_str(s: &str) -> (r: Result<FourCC, ()>)
        ensures
            r is Ok <==> s.spec_bytes().len() == 4,
            r matches Ok(cc) ==> cc.0@ == s.spec_bytes(),
    {
        FourCC::parse(s)
    }
}

/// A parsed box header.
#[derive(Debug, Clone, Copy)]
pub struct BoxHeader {
    /// Total size including header, or 0 = extends to the end of the parent.
    pub size: u64,
    /// 4CC, or `uuid` for extended types.
    pub typ: FourCC,
    pub uuid: Option<[u8; 16]>,
    /// 8, 16, 24 or 32.
    pub header_size: u64,
    /// Offset of the header start.
    pub start: u64,
}

impl BoxHeader {
    /// Returns the range `[start, start + size)` covered by this box.
    pub fn byte_range(&self) -> (r: (u64, u64))
        requires
            self.start + self.size <= u64::MAX,
        ensures
            r.0 == self.start,
            r.1 == self.start + self.size,
    {
        (self.start, self.start + self.size)
    }
}

/// How a box's interior was parsed.
#[derive(Debug)]
pub enum NodeKind {
    Container(Vec<BoxRef>),
    /// A FullBox that also contains child boxes (e.g. `meta`, `iref`,
    /// `stsd`). `data_offset`/`data_len` cover the payload after
    /// version/flags, which may include non-box fields (e.g. stsd's
    /// entry_count) before the children.
    FullContainer { version: u8, flags: u32, data_offset: u64, data_len: u64, children: Vec<BoxRef> },
    FullBox { version: u8, flags: u32, data_offset: u64, data_len: u64 },
    Leaf { data_offset: u64, data_len: u64 },
    Unknown { data_offset: u64, data_len: u64 },
}

/// A box in the parsed tree: its header and interior.
#[derive(Debug)]
pub struct BoxRef {
    pub hdr: BoxHeader,
    pub kind: NodeKind,
}

/// Key under which a decoder is found: a fourcc or an extended uuid type.
#[derive(Debug, Clone, PartialEq, Eq, Hash)]
pub enum BoxKey {
    FourCC(FourCC),
    Uuid([u8; 16]),
}

} // verus!
