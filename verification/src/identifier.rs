//! Minted nominal identifiers and their name table: every declaration is
//! addressed by a 128-bit identifier minted from its kind and fully
//! qualified name, and the table maps identifiers to current names.
use vstd::prelude::*;

use crate::digest::{derive_key, derived_key};
use crate::error::SchemaError;
use crate::hex::{hex_text, parse_hex, parse_hex_text, to_hex};
use crate::lookup::{first_match, lemma_first_match_at, lemma_first_match_none};
use crate::name::Name;

verus! {

/// The declaration kind a nominal identifier addresses.
#[derive(Clone, Copy, Debug, PartialEq, Eq, Structural, Hash, PartialOrd, Ord)]
pub enum DeclarationKind {
    Type,
    Field,
    Variant,
    Generic,
}

/// The per-kind tag folded into a minted identifier.
pub open spec fn kind_tag(kind: DeclarationKind) -> u8 {
    match kind {
        DeclarationKind::Type => 0,
        DeclarationKind::Field => 1,
        DeclarationKind::Variant => 2,
        DeclarationKind::Generic => 3,
    }
}

impl DeclarationKind {
    /// The stable tag this kind folds into a minted identifier.
    pub fn mint_tag(self) -> (r: u8)
        ensures
            r == kind_tag(self),
    {
        match self {
            DeclarationKind::Type => 0,
            DeclarationKind::Field => 1,
            DeclarationKind::Variant => 2,
            DeclarationKind::Generic => 3,
        }
    }
}

/// The context under which nominal identifiers are minted.
pub const MINT_CONTEXT: &'static str = "schema 2026-07-10 provisional nominal identifier";

/// The minted digest of a declaration: the first sixteen bytes of the key
/// derived from its kind tag followed by its fully qualified name's bytes.
pub open spec fn minted_digest(kind: DeclarationKind, name: Seq<char>) -> Seq<u8> {
    derived_key(MINT_CONTEXT@, seq![kind_tag(kind)] + vstd::utf8::encode_utf8(name)).take(16)
}

/// The minted digest of a member declaration (a field, variant or type
/// parameter): the first sixteen bytes of the key derived from its kind
/// tag, its owner's kind tag and digest, and its local name's bytes.
pub open spec fn member_digest(kind: DeclarationKind, owner: NominalIdentifier, name: Seq<char>) -> Seq<u8> {
    derived_key(
        MINT_CONTEXT@,
        seq![kind_tag(kind), kind_tag(owner.spec_kind())] + owner.spec_digest() + vstd::utf8::encode_utf8(name),
    ).take(16)
}

/// A minted 128-bit nominal identifier for one declaration.
#[derive(Clone, Copy, Debug, Eq, Hash, PartialOrd, Ord)]
pub struct NominalIdentifier {
    kind: DeclarationKind,
    digest: [u8; 16],
}

/// The order identifiers are kept in: by kind, then by digest bytes.
pub open spec fn kind_rank(kind: DeclarationKind) -> int {
    kind_tag(kind) as int
}

/// Lexicographic order on byte sequences of equal length.
pub open spec fn bytes_less(a: Seq<u8>, b: Seq<u8>) -> bool {
    exists|k: int|
        0 <= k < a.len() && k < b.len() && a[k] < b[k] && forall|j: int| 0 <= j < k ==> #[trigger] a[j] == b[j]
}

impl NominalIdentifier {
    pub closed spec fn spec_kind(&self) -> DeclarationKind {
        self.kind
    }

    pub closed spec fn spec_digest(&self) -> Seq<u8> {
        self.digest@
    }

    /// A digest is sixteen bytes.
    pub proof fn lemma_digest_len(&self)
        ensures
            self.spec_digest().len() == 16,
    {
    }

    /// Two identifiers are the same exactly when kind and digest agree.
    pub proof fn lemma_identity(a: Self, b: Self)
        ensures
            (a == b) <==> (a.spec_kind() == b.spec_kind() && a.spec_digest() == b.spec_digest()),
    {
        if a.spec_kind() == b.spec_kind() && a.spec_digest() == b.spec_digest() {
            assert(a.digest =~= b.digest);
        }
    }

    /// Mint the identifier of a declaration from its kind and fully
    /// qualified name at introduction.
    pub fn mint(kind: DeclarationKind, fully_qualified_name: &str) -> (r: Self)
        ensures
            r.spec_kind() == kind,
            r.spec_digest() == minted_digest(kind, fully_qualified_name@),
    {
        let bytes = fully_qualified_name.as_bytes();
        let mut material: Vec<u8> = Vec::new();
        material.push(kind.mint_tag());
        let mut i: usize = 0;
        while i < bytes.len()
            invariant
                i <= bytes@.len(),
                material@ == seq![kind_tag(kind)] + bytes@.take(i as int),
            decreases bytes@.len() - i,
        {
            material.push(bytes[i]);
            proof {
                assert(material@ =~= seq![kind_tag(kind)] + bytes@.take(i + 1));
            }
            i = i + 1;
        }
        proof {
            assert(bytes@.take(i as int) =~= bytes@);
        }
        let hash = derive_key(MINT_CONTEXT, material.as_slice());
        let mut digest = [0u8; 16];
        let mut k: usize = 0;
        while k < 16
            invariant
                k <= 16,
                hash@.len() == 32,
                forall|j: int| 0 <= j < k ==> digest@[j] == hash@[j],
            decreases 16 - k,
        {
            digest.set(k, hash[k]);
            k = k + 1;
        }
        proof {
            assert(digest@ =~= hash@.take(16));
        }
        NominalIdentifier { kind, digest }
    }

    /// Mint the identifier of a member declaration from its kind, its
    /// owner's identifier and its local name, so the member keeps its
    /// identifier when its owner is renamed.
    pub fn mint_member(kind: DeclarationKind, owner: &NominalIdentifier, local_name: &str) -> (r: Self)
        ensures
            r.spec_kind() == kind,
            r.spec_digest() == member_digest(kind, *owner, local_name@),
    {
        let bytes = local_name.as_bytes();
        let mut material: Vec<u8> = Vec::new();
        material.push(kind.mint_tag());
        material.push(owner.kind.mint_tag());
        let mut k: usize = 0;
        while k < 16
            invariant
                k <= 16,
                material@ == seq![kind_tag(kind), kind_tag(owner.spec_kind())] + owner.digest@.take(k as int),
            decreases 16 - k,
        {
            material.push(owner.digest[k]);
            proof {
                assert(material@ =~= seq![kind_tag(kind), kind_tag(owner.spec_kind())] + owner.digest@.take(k + 1));
            }
            k = k + 1;
        }
        let ghost head = material@;
        let mut i: usize = 0;
        while i < bytes.len()
            invariant
                i <= bytes@.len(),
                material@ == head + bytes@.take(i as int),
            decreases bytes@.len() - i,
        {
            material.push(bytes[i]);
            proof {
                assert(material@ =~= head + bytes@.take(i + 1));
            }
            i = i + 1;
        }
        proof {
            assert(bytes@.take(i as int) =~= bytes@);
            assert(owner.digest@.take(16) =~= owner.spec_digest());
            assert(material@ =~= seq![kind_tag(kind), kind_tag(owner.spec_kind())] + owner.spec_digest()
                + vstd::utf8::encode_utf8(local_name@));
        }
        let hash = derive_key(MINT_CONTEXT, material.as_slice());
        let mut digest = [0u8; 16];
        let mut k: usize = 0;
        while k < 16
            invariant
                k <= 16,
                hash@.len() == 32,
                forall|j: int| 0 <= j < k ==> digest@[j] == hash@[j],
            decreases 16 - k,
        {
            digest.set(k, hash[k]);
            k = k + 1;
        }
        proof {
            assert(digest@ =~= hash@.take(16));
        }
        NominalIdentifier { kind, digest }
    }

    pub fn kind(&self) -> (r: DeclarationKind)
        ensures
            r == self.spec_kind(),
    {
        self.kind
    }

    /// The sixteen digest bytes.
    pub fn digest(&self) -> (r: [u8; 16])
        ensures
            r@ == self.spec_digest(),
    {
        self.digest
    }

    /// The 32-character lowercase-hex text of the digest.
    pub fn to_hex(&self) -> (r: String)
        ensures
            r@ == hex_text(self.spec_digest()),
    {
        to_hex(self.digest.as_slice())
    }

    /// Read a 32-digit hexadecimal digest back into sixteen bytes; any
    /// other length or a non-hex character gives `None`.
    pub fn digest_from_hex(hex: &str) -> (r: Option<[u8; 16]>)
        ensures
            match parse_hex(hex@, 16) {
                Some(b) => r is Some && r.unwrap()@ == b,
                None => r is None,
            },
    {
        let bytes = match parse_hex_text(hex, 16) {
            Some(bytes) => bytes,
            None => { return None; },
        };
        let mut digest = [0u8; 16];
        let mut k: usize = 0;
        while k < 16
            invariant
                k <= 16,
                bytes@.len() == 16,
                forall|j: int| 0 <= j < k ==> digest@[j] == bytes@[j],
            decreases 16 - k,
        {
            digest.set(k, bytes[k]);
            k = k + 1;
        }
        proof {
            assert(digest@ =~= bytes@);
        }
        Some(digest)
    }

    /// The identifier with the given kind and digest.
    pub fn from_parts(kind: DeclarationKind, digest: [u8; 16]) -> (r: Self)
        ensures
            r.spec_kind() == kind,
            r.spec_digest() == digest@,
    {
        NominalIdentifier { kind, digest }
    }
}

impl PartialEq for NominalIdentifier {
    fn eq(&self, other: &Self) -> (r: bool) {
        if self.kind != other.kind {
            return false;
        }
        let mut k: usize = 0;
        while k < 16
            invariant
                k <= 16,
                self.digest@.len() == 16,
                other.digest@.len() == 16,
                forall|j: int| 0 <= j < k ==> #[trigger] self.digest@[j] == other.digest@[j],
            decreases 16 - k,
        {
            if self.digest[k] != other.digest[k] {
                return false;
            }
            k = k + 1;
        }
        proof {
            assert(self.digest =~= other.digest);
        }
        true
    }
}

impl vstd::std_specs::cmp::PartialEqSpecImpl for NominalIdentifier {
    open spec fn obeys_eq_spec() -> bool {
        true
    }

    open spec fn eq_spec(&self, other: &Self) -> bool {
        *self == *other
    }
}

/// Whether `a` orders strictly before `b`: by kind, then by digest.
pub open spec fn identifier_less(a: NominalIdentifier, b: NominalIdentifier) -> bool {
    kind_rank(a.spec_kind()) < kind_rank(b.spec_kind()) || (a.spec_kind() == b.spec_kind()
        && bytes_less(a.spec_digest(), b.spec_digest()))
}

fn identifier_precedes(a: &NominalIdentifier, b: &NominalIdentifier) -> (r: bool)
    ensures
        r == identifier_less(*a, *b),
{
    let ka = a.kind.mint_tag();
    let kb = b.kind.mint_tag();
    if ka < kb {
        return true;
    }
    if ka > kb {
        return false;
    }
    proof {
        assert(a.kind == b.kind) by {
            assert(kind_tag(a.kind) == kind_tag(b.kind));
        }
    }
    let mut k: usize = 0;
    while k < 16
        invariant
            k <= 16,
            a.digest@.len() == 16,
            b.digest@.len() == 16,
            a.kind == b.kind,
            forall|j: int| 0 <= j < k ==> #[trigger] a.digest@[j] == b.digest@[j],
        decreases 16 - k,
    {
        if a.digest[k] < b.digest[k] {
            proof {
                assert(a.digest@[k as int] < b.digest@[k as int]);
                assert(bytes_less(a.digest@, b.digest@));
            }
            return true;
        }
        if a.digest[k] > b.digest[k] {
            proof {
                if bytes_less(a.digest@, b.digest@) {
                    let m = choose|m: int|
                        0 <= m < a.digest@.len() && m < b.digest@.len() && a.digest@[m] < b.digest@[m]
                            && forall|j: int| 0 <= j < m ==> #[trigger] a.digest@[j] == b.digest@[j];
                    if m < k {
                        assert(a.digest@[m] == b.digest@[m]);
                    } else if m > k {
                        assert(a.digest@[k as int] == b.digest@[k as int]);
                    }
                    assert(false);
                }
            }
            return false;
        }
        k = k + 1;
    }
    proof {
        if bytes_less(a.digest@, b.digest@) {
            let m = choose|m: int|
                0 <= m < a.digest@.len() && m < b.digest@.len() && a.digest@[m] < b.digest@[m]
                    && forall|j: int| 0 <= j < m ==> #[trigger] a.digest@[j] == b.digest@[j];
            assert(a.digest@[m] == b.digest@[m]);
            assert(false);
        }
    }
    false
}

/// The order on identifiers is transitive.
pub proof fn lemma_less_transitive(a: NominalIdentifier, b: NominalIdentifier, c: NominalIdentifier)
    requires
        identifier_less(a, b),
        identifier_less(b, c),
    ensures
        identifier_less(a, c),
{
    a.lemma_digest_len();
    b.lemma_digest_len();
    c.lemma_digest_len();
    if a.spec_kind() == b.spec_kind() && b.spec_kind() == c.spec_kind() {
        let x = a.spec_digest();
        let y = b.spec_digest();
        let z = c.spec_digest();
        let k1 = choose|k: int|
            0 <= k < x.len() && k < y.len() && x[k] < y[k] && forall|j: int| 0 <= j < k ==> #[trigger] x[j] == y[j];
        let k2 = choose|k: int|
            0 <= k < y.len() && k < z.len() && y[k] < z[k] && forall|j: int| 0 <= j < k ==> #[trigger] y[j] == z[j];
        if k1 < k2 {
            assert(x[k1] < z[k1]);
            assert forall|j: int| 0 <= j < k1 implies #[trigger] x[j] == z[j] by {
                assert(x[j] == y[j]);
                assert(y[j] == z[j]);
            }
        } else if k2 < k1 {
            assert(x[k2] < z[k2]);
            assert forall|j: int| 0 <= j < k2 implies #[trigger] x[j] == z[j] by {
                assert(x[j] == y[j]);
                assert(y[j] == z[j]);
            }
        } else {
            assert(x[k1] < z[k1]);
            assert forall|j: int| 0 <= j < k1 implies #[trigger] x[j] == z[j] by {
                assert(x[j] == y[j]);
                assert(y[j] == z[j]);
            }
        }
        assert(bytes_less(x, z));
    }
}

// ---------------------------------------------------------------- the table
/// One row of a name table: an identifier and the declaration's current name.
#[derive(Debug)]
pub struct NameEntry {
    identifier: NominalIdentifier,
    name: Name,
}

impl View for NameEntry {
    type V = (NominalIdentifier, Seq<char>);

    closed spec fn view(&self) -> (NominalIdentifier, Seq<char>) {
        (self.identifier, self.name@)
    }
}

impl Clone for NameEntry {
    fn clone(&self) -> (r: Self)
        ensures
            r@ == self@,
    {
        NameEntry { identifier: self.identifier, name: self.name.clone() }
    }
}

impl NameEntry {
    pub fn new(identifier: NominalIdentifier, name: Name) -> (r: Self)
        ensures
            r@ == (identifier, name@),
    {
        NameEntry { identifier, name }
    }

    pub fn identifier(&self) -> (r: NominalIdentifier)
        ensures
            r == self@.0,
    {
        self.identifier
    }

    pub fn name(&self) -> (r: &Name)
        ensures
            r@ == self@.1,
    {
        &self.name
    }
}

pub open spec fn entries_view(es: Seq<NameEntry>) -> Seq<(NominalIdentifier, Seq<char>)> {
    es.map_values(|e: NameEntry| e@)
}

/// Whether the entries are in identifier order (equal identifiers allowed
/// to sit side by side).
pub open spec fn sorted(es: Seq<(NominalIdentifier, Seq<char>)>) -> bool {
    forall|i: int, j: int| 0 <= i < j < es.len() ==> !identifier_less(#[trigger] es[j].0, #[trigger] es[i].0)
}

/// The predicate "carries identifier `id`".
pub open spec fn holds_identifier(id: NominalIdentifier) -> spec_fn((NominalIdentifier, Seq<char>)) -> bool {
    |e: (NominalIdentifier, Seq<char>)| e.0 == id
}

/// The predicate "is another identifier of the same kind as `id`, holding
/// the name `n`".
pub open spec fn held_elsewhere(id: NominalIdentifier, n: Seq<char>) -> spec_fn((NominalIdentifier, Seq<char>)) -> bool {
    |e: (NominalIdentifier, Seq<char>)| e.0 != id && e.0.spec_kind() == id.spec_kind() && e.1 == n
}

/// The predicate "carries a name `n` of kind `kind`".
pub open spec fn names_kind(kind: DeclarationKind, n: Seq<char>) -> spec_fn((NominalIdentifier, Seq<char>)) -> bool {
    |e: (NominalIdentifier, Seq<char>)| e.0.spec_kind() == kind && e.1 == n
}

/// A mapping from identifiers to current names, held in identifier order.
#[derive(Debug)]
pub struct NameTable {
    entries: Vec<NameEntry>,
}

impl View for NameTable {
    type V = Seq<(NominalIdentifier, Seq<char>)>;

    closed spec fn view(&self) -> Seq<(NominalIdentifier, Seq<char>)> {
        entries_view(self.entries@)
    }
}

/// The identifier bound to a name of the given kind in a table, if any.
pub open spec fn identifier_of_spec(t: Seq<(NominalIdentifier, Seq<char>)>, kind: DeclarationKind, n: Seq<char>) -> Option<NominalIdentifier> {
    match first_match(t, names_kind(kind, n)) {
        Some(k) => Some(t[k].0),
        None => None,
    }
}

/// The identifier a declaration carries against a prior table: the one
/// already bound to its kind and name, or a freshly minted one.
pub open spec fn associated(t: Seq<(NominalIdentifier, Seq<char>)>, kind: DeclarationKind, n: Seq<char>, name_bytes: Seq<u8>) -> (NominalIdentifier, bool) {
    match identifier_of_spec(t, kind, n) {
        Some(id) => (id, true),
        None => (arbitrary(), false),
    }
}

impl NameTable {
    pub fn empty() -> (r: Self)
        ensures
            r@.len() == 0,
    {
        NameTable { entries: Vec::new() }
    }

    pub fn entries(&self) -> (r: &[NameEntry])
        ensures
            entries_view(r@) == self@,
    {
        self.entries.as_slice()
    }

    /// The current name of an identifier: the first entry holding it.
    pub fn name_of(&self, identifier: &NominalIdentifier) -> (r: Option<&Name>)
        ensures
            match first_match(self@, holds_identifier(*identifier)) {
                Some(k) => r is Some && r.unwrap()@ == self@[k].1,
                None => r is None,
            },
    {
        let ghost p = holds_identifier(*identifier);
        let ghost v = self@;
        let mut i: usize = 0;
        while i < self.entries.len()
            invariant
                i <= self.entries@.len(),
                v == entries_view(self.entries@),
                p == holds_identifier(*identifier),
                forall|k: int| 0 <= k < i ==> !#[trigger] p(v[k]),
            decreases self.entries@.len() - i,
        {
            if self.entries[i].identifier == *identifier {
                proof {
                    lemma_first_match_at(v, p, i as int);
                }
                return Some(&self.entries[i].name);
            }
            i = i + 1;
        }
        proof {
            lemma_first_match_none(v, p);
        }
        None
    }

    /// The identifier currently bound to a name of the given kind.
    pub fn identifier_of(&self, kind: DeclarationKind, name: &Name) -> (r: Option<NominalIdentifier>)
        ensures
            r == identifier_of_spec(self@, kind, name@),
    {
        let ghost p = names_kind(kind, name@);
        let ghost v = self@;
        let mut i: usize = 0;
        while i < self.entries.len()
            invariant
                i <= self.entries@.len(),
                v == entries_view(self.entries@),
                p == names_kind(kind, name@),
                forall|k: int| 0 <= k < i ==> !#[trigger] p(v[k]),
            decreases self.entries@.len() - i,
        {
            let entry = &self.entries[i];
            if entry.identifier.kind == kind && entry.name == *name {
                proof {
                    lemma_first_match_at(v, p, i as int);
                }
                return Some(entry.identifier);
            }
            i = i + 1;
        }
        proof {
            lemma_first_match_none(v, p);
        }
        None
    }

    /// The identifier a declaration should carry: the one already bound to
    /// its kind and name, or a fresh one minted from them.
    pub fn associate(&self, kind: DeclarationKind, fully_qualified_name: &Name) -> (r: NominalIdentifier)
        ensures
            identifier_of_spec(self@, kind, fully_qualified_name@) matches Some(id) ==> r == id,
            identifier_of_spec(self@, kind, fully_qualified_name@) is None ==> r.spec_kind() == kind
                && r.spec_digest() == minted_digest(kind, fully_qualified_name@),
    {
        match self.identifier_of(kind, fully_qualified_name) {
            Some(identifier) => identifier,
            None => NominalIdentifier::mint(kind, fully_qualified_name.as_str()),
        }
    }

    /// A table holding the given rows, in identifier order.
    pub(crate) fn from_entries(entries: Vec<NameEntry>) -> (r: Self)
        ensures
            sorted(r@),
            r@.to_multiset() == entries_view(entries@).to_multiset(),
            r@.len() == entries@.len(),
    {
        let entries = sorted_entries(entries);
        proof {
            assert(entries_view(entries@).len() == entries@.len());
        }
        NameTable { entries }
    }

    /// Build a table for a set of declarations against a prior table: each
    /// declaration keeps the identifier bound to its kind and name, or mints
    /// one; the entries are then held in identifier order, ties keeping
    /// their declaration order.
    pub fn build(prior: &NameTable, declarations: Vec<(DeclarationKind, Name)>) -> (r: Self)
        ensures
            sorted(r@),
            r@.len() == declarations@.len(),
            r@.to_multiset() == associated_entries(prior, declarations@).to_multiset(),
    {
        let mut entries: Vec<NameEntry> = Vec::new();
        let mut i: usize = 0;
        let mut rest = declarations;
        let ghost all = rest@;
        while i < rest.len()
            invariant
                i <= rest@.len(),
                rest@ == all,
                entries_view(entries@) == associated_entries(prior, all.take(i as int)),
            decreases rest@.len() - i,
        {
            let identifier = prior.associate(rest[i].0, &rest[i].1);
            entries.push(NameEntry { identifier, name: rest[i].1.clone() });
            proof {
                let kind = all[i as int].0;
                let name = all[i as int].1;
                if identifier_of_spec(prior@, kind, name@) is None {
                    let chosen = associated_identifier(prior@, kind, name);
                    assert(chosen.spec_kind() == kind && chosen.spec_digest() == minted_digest(kind, name@));
                    NominalIdentifier::lemma_identity(chosen, identifier);
                }
                assert(all.take(i + 1).drop_last() =~= all.take(i as int));
                assert(entries_view(entries@) =~= associated_entries(prior, all.take(i + 1)));
            }
            i = i + 1;
        }
        proof {
            assert(all.take(i as int) =~= all);
        }
        proof {
            lemma_associated_len(prior, all);
        }
        let entries = sorted_entries(entries);
        NameTable { entries }
    }

    /// Rename a declaration through the table: the first entry holding the
    /// identifier keeps it and takes the new name. An absent identifier is
    /// a typed error.
    /// The first entry of another identifier of the same kind that holds
    /// the name, if any.
    fn conflict_holder(&self, identifier: &NominalIdentifier, name: &Name) -> (r: Option<NominalIdentifier>)
        ensures
            match first_match(self@, held_elsewhere(*identifier, name@)) {
                Some(k) => r == Some(self@[k].0),
                None => r is None,
            },
    {
        let ghost p = held_elsewhere(*identifier, name@);
        let ghost v = self@;
        let mut i: usize = 0;
        while i < self.entries.len()
            invariant
                i <= self.entries@.len(),
                v == entries_view(self.entries@),
                v == self@,
                p == held_elsewhere(*identifier, name@),
                forall|k: int| 0 <= k < i ==> !#[trigger] p(v[k]),
            decreases self.entries@.len() - i,
        {
            let entry = &self.entries[i];
            if entry.identifier != *identifier && entry.identifier.kind() == identifier.kind() && entry.name == *name {
                proof {
                    assert(p(v[i as int]));
                    lemma_first_match_at(v, p, i as int);
                }
                return Some(entry.identifier);
            }
            proof {
                assert(!p(v[i as int]));
            }
            i = i + 1;
        }
        proof {
            lemma_first_match_none(v, p);
        }
        None
    }

    /// Rename a declaration through the table: the entry holding the
    /// identifier keeps it and takes the new name. An absent identifier is
    /// a typed error, and so is a name another identifier of the same kind
    /// already holds; either way the table is unchanged.
    pub fn rename(&mut self, identifier: &NominalIdentifier, new_name: Name) -> (r: Result<(), SchemaError>)
        ensures
            match first_match(old(self)@, holds_identifier(*identifier)) {
                None => r matches Err(SchemaError::NameTableIdentifierAbsent { identifier: text })
                    && text@ == hex_text(identifier.spec_digest()) && final(self)@ == old(self)@,
                Some(k) => match first_match(old(self)@, held_elsewhere(*identifier, new_name@)) {
                    Some(h) => final(self)@ == old(self)@ && (r matches Err(
                        SchemaError::NameTableNameConflict { kind, name, holder, requested },
                    ) && kind == identifier.spec_kind() && name@ == new_name@ && holder@ == hex_text(
                        old(self)@[h].0.spec_digest(),
                    ) && requested@ == hex_text(identifier.spec_digest())),
                    None => r is Ok && final(self)@ == old(self)@.update(k, (*identifier, new_name@)),
                },
            },
    {
        let ghost p = holds_identifier(*identifier);
        let ghost v = self@;
        let mut i: usize = 0;
        while i < self.entries.len()
            invariant
                i <= self.entries@.len(),
                v == entries_view(self.entries@),
                v == old(self)@,
                p == holds_identifier(*identifier),
                forall|k: int| 0 <= k < i ==> !#[trigger] p(v[k]),
            decreases self.entries@.len() - i,
        {
            if self.entries[i].identifier == *identifier {
                proof {
                    lemma_first_match_at(v, p, i as int);
                }
                if let Some(holder) = self.conflict_holder(identifier, &new_name) {
                    return Err(
                        SchemaError::NameTableNameConflict {
                            kind: identifier.kind(),
                            name: new_name.as_str().to_owned(),
                            holder: holder.to_hex(),
                            requested: identifier.to_hex(),
                        },
                    );
                }
                let entry = NameEntry { identifier: *identifier, name: new_name };
                self.entries.set(i, entry);
                proof {
                    assert(self@ =~= v.update(i as int, (*identifier, new_name@)));
                }
                return Ok(());
            }
            i = i + 1;
        }
        proof {
            lemma_first_match_none(v, p);
        }
        Err(SchemaError::NameTableIdentifierAbsent { identifier: identifier.to_hex() })
    }
}

/// The entries a build produces before ordering: each declaration with the
/// identifier it associates to against the prior table.
pub open spec fn associated_entries(prior: &NameTable, ds: Seq<(DeclarationKind, Name)>) -> Seq<(NominalIdentifier, Seq<char>)>
    decreases ds.len(),
{
    if ds.len() == 0 {
        Seq::empty()
    } else {
        associated_entries(prior, ds.drop_last()).push(
            (associated_identifier(prior@, ds.last().0, ds.last().1), ds.last().1@),
        )
    }
}

proof fn lemma_associated_len(prior: &NameTable, ds: Seq<(DeclarationKind, Name)>)
    ensures
        associated_entries(prior, ds).len() == ds.len(),
    decreases ds.len(),
{
    if ds.len() > 0 {
        lemma_associated_len(prior, ds.drop_last());
    }
}

/// The identifier a declaration associates to: the one the prior table
/// binds to its kind and name, else the one minted from them.
pub open spec fn associated_identifier(t: Seq<(NominalIdentifier, Seq<char>)>, kind: DeclarationKind, name: Name) -> NominalIdentifier {
    match identifier_of_spec(t, kind, name@) {
        Some(id) => id,
        None => choose|id: NominalIdentifier|
            id.spec_kind() == kind && id.spec_digest() == minted_digest(kind, name@),
    }
}

/// The entries in identifier order: each step moves the first of the
/// smallest remaining entries to the end of the output.
fn sorted_entries(entries: Vec<NameEntry>) -> (r: Vec<NameEntry>)
    ensures
        sorted(entries_view(r@)),
        entries_view(r@).to_multiset() == entries_view(entries@).to_multiset(),
        r@.len() == entries@.len(),
{
    broadcast use vstd::seq_lib::group_to_multiset_ensures;
    broadcast use vstd::multiset::group_multiset_axioms;
    let ghost given = entries_view(entries@);
    let mut rest = entries;
    let mut out: Vec<NameEntry> = Vec::new();
    while rest.len() > 0
        invariant
            sorted(entries_view(out@)),
            forall|a: int, b: int|
                0 <= a < out@.len() && 0 <= b < rest@.len() ==> !identifier_less(
                    #[trigger] entries_view(rest@)[b].0,
                    #[trigger] entries_view(out@)[a].0,
                ),
            entries_view(out@).to_multiset().add(entries_view(rest@).to_multiset()) == given.to_multiset(),
            out@.len() + rest@.len() == given.len(),
        decreases rest@.len(),
    {
        let mut m: usize = 0;
        let mut k: usize = 1;
        while k < rest.len()
            invariant
                0 <= m < k <= rest@.len(),
                forall|t: int| 0 <= t < k ==> !identifier_less(
                    #[trigger] entries_view(rest@)[t].0,
                    entries_view(rest@)[m as int].0,
                ),
            decreases rest@.len() - k,
        {
            if identifier_precedes(&rest[k].identifier, &rest[m].identifier) {
                proof {
                    assert forall|t: int| 0 <= t < k + 1 implies !identifier_less(
                        #[trigger] entries_view(rest@)[t].0,
                        entries_view(rest@)[k as int].0,
                    ) by {
                        if t < k && identifier_less(entries_view(rest@)[t].0, entries_view(rest@)[k as int].0) {
                            lemma_less_transitive(
                                entries_view(rest@)[t].0,
                                entries_view(rest@)[k as int].0,
                                entries_view(rest@)[m as int].0,
                            );
                        }
                        if t == k {
                            lemma_less_irreflexive(entries_view(rest@)[k as int].0);
                        }
                    }
                }
                m = k;
            }
            k = k + 1;
        }
        let ghost rest_before = entries_view(rest@);
        let ghost out_before = entries_view(out@);
        let chosen = rest.remove(m);
        proof {
            assert(entries_view(rest@) =~= rest_before.remove(m as int));
        }
        out.push(chosen);
        proof {
            assert(entries_view(out@) =~= out_before.push(chosen@));
            assert(chosen@ == rest_before[m as int]);
            assert(rest_before.contains(chosen@)) by {
                assert(rest_before[m as int] == chosen@);
            }
            vstd::seq_lib::to_multiset_contains(rest_before, chosen@);
            vstd::seq_lib::to_multiset_build(out_before, chosen@);
            vstd::seq_lib::to_multiset_remove(rest_before, m as int);
            assert(entries_view(out@).to_multiset().add(entries_view(rest@).to_multiset())
                =~= out_before.to_multiset().add(rest_before.to_multiset()));
            assert forall|a: int, b: int|
                0 <= a < out@.len() && 0 <= b < rest@.len() implies !identifier_less(
                    #[trigger] entries_view(rest@)[b].0,
                    #[trigger] entries_view(out@)[a].0,
                ) by {
                let b0 = if b < m { b } else { b + 1 };
                assert(entries_view(rest@)[b] == rest_before[b0]);
                if a < out_before.len() {
                    assert(entries_view(out@)[a] == out_before[a]);
                }
            }
            assert forall|i: int, j: int| 0 <= i < j < entries_view(out@).len() implies !identifier_less(
                #[trigger] entries_view(out@)[j].0,
                #[trigger] entries_view(out@)[i].0,
            ) by {
                if j < out_before.len() {
                    assert(entries_view(out@)[j] == out_before[j]);
                    assert(entries_view(out@)[i] == out_before[i]);
                } else {
                    assert(entries_view(out@)[i] == out_before[i]);
                    assert(entries_view(out@)[j] == rest_before[m as int]);
                }
            }
        }
    }
    proof {
        assert(entries_view(rest@) =~= Seq::<(NominalIdentifier, Seq<char>)>::empty());
        assert(entries_view(rest@).to_multiset() =~= vstd::multiset::Multiset::<(NominalIdentifier, Seq<char>)>::empty());
        assert(entries_view(out@).to_multiset().add(entries_view(rest@).to_multiset()) =~= entries_view(
            out@,
        ).to_multiset());
    }
    out
}

/// No identifier orders before itself.
pub proof fn lemma_less_irreflexive(a: NominalIdentifier)
    ensures
        !identifier_less(a, a),
{
    if bytes_less(a.spec_digest(), a.spec_digest()) {
        let m = choose|m: int|
            0 <= m < a.spec_digest().len() && m < a.spec_digest().len() && a.spec_digest()[m]
                < a.spec_digest()[m] && forall|j: int| 0 <= j < m ==> #[trigger] a.spec_digest()[j]
                == a.spec_digest()[j];
        assert(false);
    }
}


/// Minting is a function of kind and name: two identifiers minted from the
/// same kind and fully qualified name are the same identifier.
pub proof fn lemma_mint_deterministic(a: NominalIdentifier, b: NominalIdentifier, kind: DeclarationKind, name: Seq<char>)
    requires
        a.spec_kind() == kind && a.spec_digest() == minted_digest(kind, name),
        b.spec_kind() == kind && b.spec_digest() == minted_digest(kind, name),
    ensures
        a == b,
{
    NominalIdentifier::lemma_identity(a, b);
}

/// A digest read back from its hexadecimal text is the digest.
pub proof fn lemma_digest_hex_roundtrip(id: NominalIdentifier)
    ensures
        parse_hex(hex_text(id.spec_digest()), 16) == Some(id.spec_digest()),
{
    id.lemma_digest_len();
    crate::hex::lemma_hex_roundtrip(id.spec_digest());
}

/// Renaming through the table keeps every identifier in place, keeps the
/// table in identifier order, and the renamed identifier then resolves to
/// the new name.
pub proof fn lemma_rename_keeps_identifiers(t: Seq<(NominalIdentifier, Seq<char>)>, id: NominalIdentifier, name: Seq<char>)
    requires
        first_match(t, holds_identifier(id)) is Some,
    ensures
        ({
            let k = first_match(t, holds_identifier(id)).unwrap();
            let u = t.update(k, (id, name));
            &&& u.len() == t.len()
            &&& forall|i: int| 0 <= i < t.len() ==> (#[trigger] u[i]).0 == t[i].0
            &&& sorted(t) ==> sorted(u)
            &&& first_match(u, holds_identifier(id)) == Some(k)
            &&& u[k].1 == name
        }),
{
    crate::lookup::lemma_first_match(t, holds_identifier(id));
    let k = first_match(t, holds_identifier(id)).unwrap();
    let u = t.update(k, (id, name));
    assert forall|i: int| 0 <= i < t.len() implies (#[trigger] u[i]).0 == t[i].0 by {}
    if sorted(t) {
        assert forall|i: int, j: int| 0 <= i < j < u.len() implies !identifier_less(
            #[trigger] u[j].0,
            #[trigger] u[i].0,
        ) by {
            assert(u[j].0 == t[j].0);
            assert(u[i].0 == t[i].0);
        }
    }
    assert forall|j: int| 0 <= j < k implies !#[trigger] holds_identifier(id)(u[j]) by {
        assert(u[j] == t[j]);
    }
    lemma_first_match_at(u, holds_identifier(id), k);
}

/// Two different identifiers are ordered one way or the other.
proof fn lemma_less_total(a: NominalIdentifier, b: NominalIdentifier)
    requires
        a != b,
    ensures
        identifier_less(a, b) || identifier_less(b, a),
{
    a.lemma_digest_len();
    b.lemma_digest_len();
    NominalIdentifier::lemma_identity(a, b);
    if a.spec_kind() == b.spec_kind() {
        let x = a.spec_digest();
        let y = b.spec_digest();
        assert(x != y);
        if forall|j: int| 0 <= j < 16 ==> #[trigger] x[j] == y[j] {
            assert(x =~= y);
        }
        let m = choose|m: int| 0 <= m < 16 && #[trigger] x[m] != y[m];
        lemma_first_difference(x, y, m);
    } else {
        assert(kind_rank(a.spec_kind()) != kind_rank(b.spec_kind()));
    }
}

/// Where two byte sequences of equal length differ somewhere, one is less.
proof fn lemma_first_difference(x: Seq<u8>, y: Seq<u8>, m: int)
    requires
        x.len() == y.len(),
        0 <= m < x.len(),
        x[m] != y[m],
    ensures
        bytes_less(x, y) || bytes_less(y, x),
    decreases m,
{
    if forall|j: int| 0 <= j < m ==> #[trigger] x[j] == y[j] {
        if x[m] < y[m] {
            assert(bytes_less(x, y));
        } else {
            assert(bytes_less(y, x));
        }
    } else {
        let k = choose|k: int| 0 <= k < m && #[trigger] x[k] != y[k];
        lemma_first_difference(x, y, k);
    }
}

/// Entries whose identifiers agree agree altogether.
pub open spec fn identifiers_determine_entries(es: Seq<(NominalIdentifier, Seq<char>)>) -> bool {
    forall|i: int, j: int| 0 <= i < es.len() && 0 <= j < es.len() && (#[trigger] es[i]).0 == (#[trigger] es[j]).0 ==> es[i] == es[j]
}

/// Two sequences in identifier order with the same entries are the same,
/// wherever identifiers determine entries.
proof fn lemma_sorted_unique(r1: Seq<(NominalIdentifier, Seq<char>)>, r2: Seq<(NominalIdentifier, Seq<char>)>)
    requires
        sorted(r1),
        sorted(r2),
        r1.to_multiset() == r2.to_multiset(),
        identifiers_determine_entries(r1),
    ensures
        r1 == r2,
    decreases r1.len(),
{
    broadcast use vstd::seq_lib::group_to_multiset_ensures;
    broadcast use vstd::multiset::group_multiset_axioms;
    vstd::seq_lib::to_multiset_len(r1);
    vstd::seq_lib::to_multiset_len(r2);
    if r1.len() == 0 {
        assert(r1 =~= r2);
    } else {
        let n = r1.len() - 1;
        let a = r1[n];
        let b = r2[n];
        vstd::seq_lib::to_multiset_contains(r2, b);
        vstd::seq_lib::to_multiset_contains(r1, a);
        assert(r2.contains(b));
        assert(r1.to_multiset().contains(b));
        assert(r1.contains(b));
        assert(r2.to_multiset().contains(a));
        assert(r2.contains(a));
        let i = choose|i: int| 0 <= i < r1.len() && r1[i] == b;
        let j = choose|j: int| 0 <= j < r2.len() && r2[j] == a;
        if a.0 != b.0 {
            lemma_less_total(a.0, b.0);
            if identifier_less(a.0, b.0) {
                assert(i != n);
                assert(!identifier_less(r1[n].0, r1[i].0));
                assert(identifier_less(r1[n].0, r1[i].0));
            } else {
                assert(j != n);
                assert(!identifier_less(r2[n].0, r2[j].0));
            }
        }
        assert(r1[i].0 == r1[n].0);
        assert(a == b);
        let s1 = r1.drop_last();
        let s2 = r2.drop_last();
        assert(r1 =~= s1.push(a));
        assert(r2 =~= s2.push(a));
        assert(s1.to_multiset() =~= r1.to_multiset().remove(a));
        assert(s2.to_multiset() =~= r2.to_multiset().remove(a));
        assert forall|x: int, y: int| 0 <= x < y < s1.len() implies !identifier_less(#[trigger] s1[y].0, #[trigger] s1[x].0) by {
            assert(s1[x] == r1[x] && s1[y] == r1[y]);
        }
        assert forall|x: int, y: int| 0 <= x < y < s2.len() implies !identifier_less(#[trigger] s2[y].0, #[trigger] s2[x].0) by {
            assert(s2[x] == r2[x] && s2[y] == r2[y]);
        }
        assert forall|x: int, y: int| 0 <= x < s1.len() && 0 <= y < s1.len() && (#[trigger] s1[x]).0 == (#[trigger] s1[y]).0 implies s1[x] == s1[y] by {
            assert(s1[x] == r1[x] && s1[y] == r1[y]);
        }
        lemma_sorted_unique(s1, s2);
    }
}

/// A map over two sequences with the same elements gives two sequences
/// with the same elements.
pub(crate) proof fn lemma_map_keeps_multiset<A, B>(a: Seq<A>, b: Seq<A>, f: spec_fn(A) -> B)
    requires
        a.to_multiset() == b.to_multiset(),
    ensures
        a.map_values(f).to_multiset() == b.map_values(f).to_multiset(),
    decreases a.len(),
{
    broadcast use vstd::seq_lib::group_to_multiset_ensures;
    broadcast use vstd::multiset::group_multiset_axioms;
    vstd::seq_lib::to_multiset_len(a);
    vstd::seq_lib::to_multiset_len(b);
    if a.len() == 0 {
        assert(a.map_values(f) =~= Seq::<B>::empty());
        assert(b.map_values(f) =~= Seq::<B>::empty());
    } else {
        let x = a.last();
        let a1 = a.drop_last();
        assert(a =~= a1.push(x));
        vstd::seq_lib::to_multiset_contains(a, x);
        assert(a.contains(x)) by {
            assert(a[a.len() - 1] == x);
        }
        vstd::seq_lib::to_multiset_contains(b, x);
        let i = choose|i: int| 0 <= i < b.len() && b[i] == x;
        let b1 = b.remove(i);
        vstd::seq_lib::to_multiset_remove(b, i);
        assert(a1.to_multiset() =~= a.to_multiset().remove(x));
        lemma_map_keeps_multiset(a1, b1, f);
        assert(a.map_values(f) =~= a1.map_values(f).push(f(x)));
        vstd::seq_lib::to_multiset_remove(b.map_values(f), i);
        assert(b.map_values(f).remove(i) =~= b1.map_values(f));
        assert(b.map_values(f)[i] == f(x));
        vstd::seq_lib::to_multiset_contains(b.map_values(f), f(x));
    }
}

/// The entries a build holds are each declaration paired with the
/// identifier `associate` gives it, in declaration order.
pub proof fn lemma_associated_map(prior: &NameTable, ds: Seq<(DeclarationKind, Name)>)
    ensures
        associated_entries(prior, ds) == ds.map_values(
            |d: (DeclarationKind, Name)| (associated_identifier(prior@, d.0, d.1), d.1@),
        ),
    decreases ds.len(),
{
    if ds.len() > 0 {
        lemma_associated_map(prior, ds.drop_last());
        assert(ds.map_values(|d: (DeclarationKind, Name)| (associated_identifier(prior@, d.0, d.1), d.1@))
            =~= ds.drop_last().map_values(
            |d: (DeclarationKind, Name)| (associated_identifier(prior@, d.0, d.1), d.1@),
        ).push((associated_identifier(prior@, ds.last().0, ds.last().1), ds.last().1@)));
    } else {
        assert(ds.map_values(|d: (DeclarationKind, Name)| (associated_identifier(prior@, d.0, d.1), d.1@))
            =~= Seq::<(NominalIdentifier, Seq<char>)>::empty());
    }
}

/// Building a table does not depend on the order of the declarations: two
/// tables built against one prior table from the same declarations in any
/// two orders, each in identifier order and holding the associated entries,
/// are the same table, wherever no two different names come to share an
/// identifier.
pub proof fn lemma_build_order_independent(
    prior: &NameTable,
    d1: Seq<(DeclarationKind, Name)>,
    d2: Seq<(DeclarationKind, Name)>,
    t1: Seq<(NominalIdentifier, Seq<char>)>,
    t2: Seq<(NominalIdentifier, Seq<char>)>,
)
    requires
        d1.to_multiset() == d2.to_multiset(),
        sorted(t1),
        sorted(t2),
        t1.to_multiset() == associated_entries(prior, d1).to_multiset(),
        t2.to_multiset() == associated_entries(prior, d2).to_multiset(),
        identifiers_determine_entries(associated_entries(prior, d1)),
    ensures
        t1 == t2,
{
    broadcast use vstd::seq_lib::group_to_multiset_ensures;
    lemma_associated_map(prior, d1);
    lemma_associated_map(prior, d2);
    lemma_map_keeps_multiset(
        d1,
        d2,
        |d: (DeclarationKind, Name)| (associated_identifier(prior@, d.0, d.1), d.1@),
    );
    let e = associated_entries(prior, d1);
    assert forall|i: int, j: int| 0 <= i < t1.len() && 0 <= j < t1.len() && (#[trigger] t1[i]).0 == (#[trigger] t1[j]).0 implies t1[i] == t1[j] by {
        vstd::seq_lib::to_multiset_contains(t1, t1[i]);
        vstd::seq_lib::to_multiset_contains(t1, t1[j]);
        assert(t1.contains(t1[i]));
        assert(t1.contains(t1[j]));
        vstd::seq_lib::to_multiset_contains(e, t1[i]);
        vstd::seq_lib::to_multiset_contains(e, t1[j]);
        let x = choose|x: int| 0 <= x < e.len() && e[x] == t1[i];
        let y = choose|y: int| 0 <= y < e.len() && e[y] == t1[j];
        assert(e[x].0 == e[y].0);
    }
    lemma_sorted_unique(t1, t2);
}


/// Members of owners with different digests are minted from different
/// material: the owner's digest is part of what is hashed, so equal member
/// names under different owners do not share their minted input.
pub proof fn lemma_member_material_separates_owners(
    kind: DeclarationKind,
    a: NominalIdentifier,
    b: NominalIdentifier,
    name: Seq<char>,
)
    requires
        a.spec_digest() != b.spec_digest(),
    ensures
        exists|ma: Seq<u8>, mb: Seq<u8>|
            ma != mb && member_digest(kind, a, name) == #[trigger] derived_key(MINT_CONTEXT@, ma).take(16)
                && member_digest(kind, b, name) == #[trigger] derived_key(MINT_CONTEXT@, mb).take(16),
{
    let ma = seq![kind_tag(kind), kind_tag(a.spec_kind())] + a.spec_digest() + vstd::utf8::encode_utf8(name);
    let mb = seq![kind_tag(kind), kind_tag(b.spec_kind())] + b.spec_digest() + vstd::utf8::encode_utf8(name);
    a.lemma_digest_len();
    b.lemma_digest_len();
    assert(ma.subrange(2, 18) =~= a.spec_digest());
    assert(mb.subrange(2, 18) =~= b.spec_digest());
    assert(ma != mb);
    assert(member_digest(kind, a, name) == derived_key(MINT_CONTEXT@, ma).take(16));
    assert(member_digest(kind, b, name) == derived_key(MINT_CONTEXT@, mb).take(16));
}
} // verus!
