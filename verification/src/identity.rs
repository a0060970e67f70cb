//! Content identity: blake3 addresses over canonical bytes, each domain
//! separated by its own key-derivation context.
use vstd::prelude::*;

use crate::digest::{derive_key, derived_key};
use crate::hex::{hex_text, parse_hex, parse_hex_text, to_hex};

verus! {

/// The hash domains content identity is derived under.
#[derive(Clone, Copy, Debug, PartialEq, Eq, Structural)]
pub enum HashDomain {
    CoreSchema,
    TrueName,
    FamilyClosure,
}

pub const CORE_CONTEXT: &'static str = "schema 2026-07-10 core structural lineage address";

pub const TRUE_NAME_CONTEXT: &'static str = "schema 2026-07-10 true-name human view identity";

pub const FAMILY_CONTEXT: &'static str = "schema 2026-06-12 family-closure content identity";

pub open spec fn domain_context(domain: HashDomain) -> Seq<char> {
    match domain {
        HashDomain::CoreSchema => CORE_CONTEXT@,
        HashDomain::TrueName => TRUE_NAME_CONTEXT@,
        HashDomain::FamilyClosure => FAMILY_CONTEXT@,
    }
}

impl HashDomain {
    /// The key-derivation context of the domain.
    pub fn context(self) -> (r: &'static str)
        ensures
            r@ == domain_context(self),
    {
        match self {
            HashDomain::CoreSchema => CORE_CONTEXT,
            HashDomain::TrueName => TRUE_NAME_CONTEXT,
            HashDomain::FamilyClosure => FAMILY_CONTEXT,
        }
    }
}

/// A 32-byte content address over canonical bytes.
#[derive(Clone, Copy, Debug, Eq, Hash, PartialOrd, Ord)]
pub struct ContentHash([u8; 32]);

impl PartialEq for ContentHash {
    fn eq(&self, other: &Self) -> (r: bool) {
        let mut k: usize = 0;
        while k < 32
            invariant
                k <= 32,
                self.0@.len() == 32,
                other.0@.len() == 32,
                forall|j: int| 0 <= j < k ==> #[trigger] self.0@[j] == other.0@[j],
            decreases 32 - k,
        {
            if self.0[k] != other.0[k] {
                return false;
            }
            k = k + 1;
        }
        proof {
            assert(self.0 =~= other.0);
        }
        true
    }
}

impl vstd::std_specs::cmp::PartialEqSpecImpl for ContentHash {
    open spec fn obeys_eq_spec() -> bool {
        true
    }

    open spec fn eq_spec(&self, other: &Self) -> bool {
        *self == *other
    }
}

impl View for ContentHash {
    type V = Seq<u8>;

    closed spec fn view(&self) -> Seq<u8> {
        self.0@
    }
}

impl ContentHash {
    /// An address is thirty-two bytes.
    pub proof fn lemma_len(&self)
        ensures
            self@.len() == 32,
    {
    }

    /// The address of the bytes under the domain.
    pub fn derive(domain: HashDomain, bytes: &[u8]) -> (r: Self)
        ensures
            r@ == derived_key(domain_context(domain), bytes@),
    {
        ContentHash(derive_key(domain.context(), bytes))
    }

    /// The core lineage address of a core schema's canonical bytes.
    pub fn core_address(bytes: &[u8]) -> (r: Self)
        ensures
            r@ == derived_key(CORE_CONTEXT@, bytes@),
    {
        Self::derive(HashDomain::CoreSchema, bytes)
    }

    /// The true/name address of a schema's canonical bytes.
    pub fn true_name_address(bytes: &[u8]) -> (r: Self)
        ensures
            r@ == derived_key(TRUE_NAME_CONTEXT@, bytes@),
    {
        Self::derive(HashDomain::TrueName, bytes)
    }

    /// The family address of a family closure's canonical bytes.
    pub fn family_address(bytes: &[u8]) -> (r: Self)
        ensures
            r@ == derived_key(FAMILY_CONTEXT@, bytes@),
    {
        Self::derive(HashDomain::FamilyClosure, bytes)
    }

    pub fn as_bytes(&self) -> (r: &[u8; 32])
        ensures
            r@ == self@,
    {
        &self.0
    }

    /// The 64-character lowercase-hex text of the address.
    pub fn to_hex(&self) -> (r: String)
        ensures
            r@ == hex_text(self@),
    {
        to_hex(self.0.as_slice())
    }

    /// Read a 64-digit hexadecimal address back; any other length or a
    /// non-hex character gives `None`.
    pub fn from_hex(hex: &str) -> (r: Option<Self>)
        ensures
            match parse_hex(hex@, 32) {
                Some(b) => r is Some && r.unwrap()@ == b,
                None => r is None,
            },
    {
        let bytes = match parse_hex_text(hex, 32) {
            Some(bytes) => bytes,
            None => { return None; },
        };
        let mut digest = [0u8; 32];
        let mut k: usize = 0;
        while k < 32
            invariant
                k <= 32,
                bytes@.len() == 32,
                forall|j: int| 0 <= j < k ==> digest@[j] == bytes@[j],
            decreases 32 - k,
        {
            digest.set(k, bytes[k]);
            k = k + 1;
        }
        proof {
            assert(digest@ =~= bytes@);
        }
        Some(ContentHash(digest))
    }
}

/// An address survives its hexadecimal text: reading the text back gives
/// the same address.
pub proof fn lemma_hash_hex_roundtrip(h: ContentHash)
    ensures
        parse_hex(hex_text(h@), 32) == Some(h@),
{
    h.lemma_len();
    crate::hex::lemma_hex_roundtrip(h@);
}

/// Two addresses with the same bytes are the same address.
pub proof fn lemma_hash_identity(a: ContentHash, b: ContentHash)
    ensures
        (a == b) <==> (a@ == b@),
{
    if a@ == b@ {
        assert(a.0 =~= b.0);
    }
}

} // verus!
