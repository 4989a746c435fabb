//! Decoders chosen by the caller: the `BoxDecoder` trait and a registry
//! that maps box keys to them.

use vstd::prelude::*;
use crate::boxes::{BoxHeader, BoxKey};
use crate::registry::data::{BoxValue, DecodeError};
use crate::registry::dispatch::{decode_box, decoded_by, decoder_for_key, DecoderKind};
use crate::boxes::FourCC;
use crate::util::{be_value, lemma_be_bytes_value, lemma_be_value_bound, lemma_pow256_values, pow256, read_be};
use std::collections::HashMap;

verus! {

broadcast use vstd::std_specs::hash::group_hash_axioms;

/// Interprets the payload of one kind of box (identified by a [`BoxKey`])
/// and returns its value. `payload` is the box's payload as far as the
/// file holds it; full boxes pass their version and flags.
pub trait BoxDecoder {
    fn decode(&self, payload: &[u8], hdr: &BoxHeader, version: Option<u8>, flags: Option<u32>) -> Result<
        BoxValue,
        DecodeError,
    >;
}

impl BoxDecoder for DecoderKind {
    fn decode(&self, payload: &[u8], hdr: &BoxHeader, version: Option<u8>, flags: Option<u32>) -> (r: Result<
        BoxValue,
        DecodeError,
    >)
        ensures
            decoded_by(*self, payload, hdr, version, flags, r),
    {
        DecoderKind::decode(self, payload, hdr, version, flags)
    }
}

/// The integer a fourcc is stored under: its big-endian value.
pub open spec fn fourcc_code(c: FourCC) -> u32 {
    be_value(c.0@) as u32
}

/// The integer a uuid is stored under: its big-endian value.
pub open spec fn uuid_code(u: [u8; 16]) -> u128 {
    be_value(u@) as u128
}

proof fn lemma_pow256_mono(a: nat, b: nat)
    requires
        a <= b,
    ensures
        pow256(a) <= pow256(b),
    decreases b,
{
    if a < b {
        lemma_pow256_mono(a, (b - 1) as nat);
    }
}

/// Different fourccs are stored under different integers.
proof fn lemma_fourcc_injective(a: FourCC, b: FourCC)
    ensures
        fourcc_code(a) == fourcc_code(b) ==> a == b,
{
    reveal_with_fuel(pow256, 5);
    lemma_be_value_bound(a.0@);
    lemma_be_value_bound(b.0@);
    if fourcc_code(a) == fourcc_code(b) {
        lemma_be_bytes_value(a.0@);
        lemma_be_bytes_value(b.0@);
        assert(a.0 =~= b.0);
    }
}

/// Different uuids are stored under different integers.
proof fn lemma_uuid_injective(a: [u8; 16], b: [u8; 16])
    ensures
        uuid_code(a) == uuid_code(b) ==> a == b,
{
    reveal_with_fuel(pow256, 17);
    lemma_be_value_bound(a@);
    lemma_be_value_bound(b@);
    if uuid_code(a) == uuid_code(b) {
        lemma_be_bytes_value(a@);
        lemma_be_bytes_value(b@);
        assert(a =~= b);
    }
}

fn fourcc_u32(c: &FourCC) -> (r: u32)
    ensures
        r == fourcc_code(*c),
{
    let v = read_be(&c.0, 0, 4);
    proof {
        assert(c.0@.subrange(0, 4) =~= c.0@);
        lemma_be_value_bound(c.0@);
        lemma_pow256_values();
    }
    v as u32
}

fn uuid_u128(u: &[u8; 16]) -> (r: u128)
    ensures
        r == uuid_code(*u),
{
    let mut acc: u128 = 0;
    let mut i: usize = 0;
    proof {
        reveal_with_fuel(pow256, 17);
        assert(u@.subrange(0, 0) =~= Seq::<u8>::empty());
    }
    while i < 16
        invariant
            i <= 16,
            acc == be_value(u@.subrange(0, i as int)),
            acc < pow256(i as nat),
            pow256(16) == 0x1_0000_0000_0000_0000_0000_0000_0000_0000,
        decreases 16 - i,
    {
        proof {
            lemma_pow256_mono((i + 1) as nat, 16);
            assert(u@.subrange(0, i + 1).drop_last() =~= u@.subrange(0, i as int));
        }
        acc = acc * 256 + u[i] as u128;
        i = i + 1;
    }
    proof {
        assert(u@.subrange(0, 16) =~= u@);
    }
    acc
}

/// Decoders keyed by `BoxKey` (fourcc or uuid), each with a name for
/// debugging, optionally on top of the built-in decoders. Built fluently
/// with [`Registry::with_decoder`]; registering a key again replaces its
/// decoder.
pub struct Registry<D: BoxDecoder> {
    by_fourcc: HashMap<u32, (String, D)>,
    by_uuid: HashMap<u128, (String, D)>,
    builtins: bool,
}

impl<D: BoxDecoder> View for Registry<D> {
    type V = Map<BoxKey, (Seq<char>, D)>;

    closed spec fn view(&self) -> Map<BoxKey, (Seq<char>, D)> {
        Map::new(
            |k: BoxKey|
                match k {
                    BoxKey::FourCC(c) => self.by_fourcc@.contains_key(fourcc_code(c)),
                    BoxKey::Uuid(u) => self.by_uuid@.contains_key(uuid_code(u)),
                },
            |k: BoxKey|
                match k {
                    BoxKey::FourCC(c) => (self.by_fourcc@[fourcc_code(c)].0@, self.by_fourcc@[fourcc_code(c)].1),
                    BoxKey::Uuid(u) => (self.by_uuid@[uuid_code(u)].0@, self.by_uuid@[uuid_code(u)].1),
                },
        )
    }
}

impl<D: BoxDecoder> Registry<D> {
    /// Whether the built-in decoders handle the keys no registered decoder
    /// handles.
    pub closed spec fn spec_builtins(&self) -> bool {
        self.builtins
    }

    /// An empty registry.
    pub fn new() -> (r: Self)
        ensures
            r@ == Map::<BoxKey, (Seq<char>, D)>::empty(),
            !r.spec_builtins(),
    {
        let r = Registry { by_fourcc: HashMap::new(), by_uuid: HashMap::new(), builtins: false };
        proof {
            assert(r@ =~= Map::<BoxKey, (Seq<char>, D)>::empty());
        }
        r
    }

    /// The registry of the built-in decoders, to be extended with
    /// [`Registry::with_decoder`].
    pub fn with_builtins() -> (r: Self)
        ensures
            r@ == Map::<BoxKey, (Seq<char>, D)>::empty(),
            r.spec_builtins(),
    {
        let r = Registry { by_fourcc: HashMap::new(), by_uuid: HashMap::new(), builtins: true };
        proof {
            assert(r@ =~= Map::<BoxKey, (Seq<char>, D)>::empty());
        }
        r
    }

    /// Whether the built-in decoders are used.
    pub fn builtins(&self) -> (r: bool)
        ensures
            r == self.spec_builtins(),
    {
        self.builtins
    }

    /// Whether a decoder is registered for `key`.
    pub fn contains_key(&self, key: &BoxKey) -> (r: bool)
        ensures
            r == self@.dom().contains(*key),
    {
        match key {
            BoxKey::FourCC(c) => {
                let code = fourcc_u32(c);
                self.by_fourcc.contains_key(&code)
            },
            BoxKey::Uuid(u) => {
                let code = uuid_u128(u);
                self.by_uuid.contains_key(&code)
            },
        }
    }

    /// This registry with `dec` registered for `key` under `name`,
    /// replacing any decoder registered for `key` before.
    pub fn with_decoder(self, key: BoxKey, name: &str, dec: D) -> (r: Self)
        ensures
            r@ == self@.insert(key, (name@, dec)),
            r.spec_builtins() == self.spec_builtins(),
    {
        let ghost old_view = self@;
        let Registry { mut by_fourcc, mut by_uuid, builtins } = self;
        match &key {
            BoxKey::FourCC(c) => {
                let code = fourcc_u32(c);
                by_fourcc.insert(code, (name.to_owned(), dec));
            },
            BoxKey::Uuid(u) => {
                let code = uuid_u128(u);
                by_uuid.insert(code, (name.to_owned(), dec));
            },
        }
        let r = Registry { by_fourcc, by_uuid, builtins };
        proof {
            assert forall|k: BoxKey| #[trigger] r@.dom().contains(k) == old_view.insert(key, (name@, dec)).dom().contains(k)
                && (r@.dom().contains(k) ==> r@[k] == old_view.insert(key, (name@, dec))[k]) by {
                match (k, key) {
                    (BoxKey::FourCC(a), BoxKey::FourCC(b)) => lemma_fourcc_injective(a, b),
                    (BoxKey::Uuid(a), BoxKey::Uuid(b)) => lemma_uuid_injective(a, b),
                    _ => {},
                }
            }
            assert(r@ =~= old_view.insert(key, (name@, dec)));
        }
        r
    }

    /// Decodes a payload with the decoder registered for `key`, else (with
    /// the built-ins) the built-in one; `None` when there is none.
    pub fn decode(&self, key: &BoxKey, payload: &[u8], hdr: &BoxHeader, version: Option<u8>, flags: Option<
        u32,
    >) -> (r: Option<Result<BoxValue, DecodeError>>)
        ensures
            r is None <==> !self@.dom().contains(*key) && !(self.spec_builtins() && decoder_for_key(*key) is Some),
            self@.dom().contains(*key) ==> (r matches Some(x) && call_ensures(
                D::decode,
                (&self@[*key].1, payload, hdr, version, flags),
                x,
            )),
            !self@.dom().contains(*key) && self.spec_builtins() ==> match decoder_for_key(*key) {
                None => r is None,
                Some(k) => r matches Some(x) && decoded_by(k, payload, hdr, version, flags, x),
            },
    {
        let found = match key {
            BoxKey::FourCC(c) => {
                let code = fourcc_u32(c);
                self.by_fourcc.get(&code)
            },
            BoxKey::Uuid(u) => {
                let code = uuid_u128(u);
                self.by_uuid.get(&code)
            },
        };
        match found {
            Some(e) => {
                let res = D::decode(&e.1, payload, hdr, version, flags);
                Some(res)
            },
            None => {
                if self.builtins {
                    decode_box(key, payload, hdr, version, flags)
                } else {
                    None
                }
            },
        }
    }
}

/// The registry of the built-in decoders, ready to be extended with
/// [`Registry::with_decoder`].
pub fn default_registry<D: BoxDecoder>() -> (r: Registry<D>)
    ensures
        r@ == Map::<BoxKey, (Seq<char>, D)>::empty(),
        r.spec_builtins(),
{
    Registry::with_builtins()
}

} // verus!
