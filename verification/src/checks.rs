//! The checks a lowered schema passes before it is trusted: family records
//! resolve, product components are well named, impl blocks target declared
//! types without duplicate entries, and the impl manifest is present on the
//! Rust side.
use vstd::prelude::*;

use crate::error::SchemaError;
use crate::impls::{
    FactView, ImplBlock, ImplCompositionKey, ImplFact, ImplRefView, ImplReference, KeyView,
    MethodSignature, ReferencedImpl, SignatureView, composition_key_of, entries_view,
    entry_methods, entry_trait, facts_view, label_of, signature_text, signatures_view,
};
use crate::lookup::{first_match, lemma_first_match_at, lemma_first_match_none};
use crate::name::Name;
use crate::schema::{
    Declaration, FamilyDeclaration, ProductDefect, TypeDeclaration, component_defect,
    first_defect, reports_defect,
};
use crate::true_schema::TrueSchema;

verus! {

// ---------------------------------------------------------------- the manifest
/// Entries tagged with the type they target.
pub open spec fn tagged(target: Seq<char>, es: Seq<ImplRefView>) -> Seq<(Seq<char>, ImplRefView)> {
    es.map_values(|e: ImplRefView| (target, e))
}

/// The fused catalogs of the namespace, in declaration order.
pub open spec fn declaration_refs(ds: Seq<Declaration>) -> Seq<(Seq<char>, ImplRefView)>
    decreases ds.len(),
{
    if ds.len() == 0 {
        Seq::empty()
    } else {
        declaration_refs(ds.drop_last()) + tagged(ds.last().spec_name()@, ds.last().spec_impls()@)
    }
}

/// The standalone impl blocks' catalogs, in block order.
pub open spec fn block_refs(bs: Seq<ImplBlock>) -> Seq<(Seq<char>, ImplRefView)>
    decreases bs.len(),
{
    if bs.len() == 0 {
        Seq::empty()
    } else {
        block_refs(bs.drop_last()) + tagged(bs.last().spec_target()@, bs.last().spec_catalog()@)
    }
}

pub open spec fn refs_view<'a>(rs: Seq<ReferencedImpl<'a>>) -> Seq<(Seq<char>, ImplRefView)> {
    rs.map_values(|r: ReferencedImpl<'a>| r@)
}

impl TrueSchema {
    /// Every referenced impl entry of the schema with the type it targets:
    /// the fused catalogs first, then the standalone blocks.
    pub open spec fn spec_referenced(&self) -> Seq<(Seq<char>, ImplRefView)> {
        declaration_refs(self.spec_namespace()) + block_refs(self.spec_impl_blocks())
    }

    /// The schema-wide impl manifest.
    pub fn referenced_impls(&self) -> (r: Vec<ReferencedImpl<'_>>)
        ensures
            refs_view(r@) == self.spec_referenced(),
    {
        let mut references: Vec<ReferencedImpl<'_>> = Vec::new();
        let namespace = self.namespace();
        let mut i: usize = 0;
        while i < namespace.len()
            invariant
                i <= namespace@.len(),
                namespace@ == self.spec_namespace(),
                refs_view(references@) == declaration_refs(namespace@.take(i as int)),
            decreases namespace@.len() - i,
        {
            let declaration = &namespace[i];
            let entries = declaration.impls().entries();
            proof {
                declaration.spec_impls().lemma_view();
            }
            let ghost before = references@;
            let mut j: usize = 0;
            while j < entries.len()
                invariant
                    j <= entries@.len(),
                    entries@ == declaration.spec_impls().spec_entries(),
                    refs_view(references@) == refs_view(before) + tagged(
                        declaration.spec_name()@,
                        entries_view(entries@.take(j as int)),
                    ),
                decreases entries@.len() - j,
            {
                let ghost prev = references@;
                let item = ReferencedImpl::new(declaration.name(), &entries[j]);
                references.push(item);
                proof {
                    assert(references@ == prev.push(item));
                    assert(refs_view(references@) =~= refs_view(prev).push(item@));
                    assert(tagged(declaration.spec_name()@, entries_view(entries@.take(j as int)).push(entries@[j as int]@))
                        =~= tagged(declaration.spec_name()@, entries_view(entries@.take(j as int))).push((declaration.spec_name()@, entries@[j as int]@)));
                    assert(entries_view(entries@.take(j + 1)) =~= entries_view(entries@.take(j as int)).push(
                        entries@[j as int]@,
                    ));
                    assert(refs_view(references@) =~= refs_view(before) + tagged(
                        declaration.spec_name()@,
                        entries_view(entries@.take(j + 1)),
                    ));
                }
                j = j + 1;
            }
            proof {
                assert(entries@.take(entries@.len() as int) =~= entries@);
                let t = namespace@.take(i + 1);
                assert(t.drop_last() =~= namespace@.take(i as int));
                assert(refs_view(references@) =~= declaration_refs(t));
            }
            i = i + 1;
        }
        proof {
            assert(namespace@.take(namespace@.len() as int) =~= namespace@);
        }
        let ghost after_namespace = references@;
        let blocks = self.impl_blocks();
        let mut b: usize = 0;
        while b < blocks.len()
            invariant
                b <= blocks@.len(),
                blocks@ == self.spec_impl_blocks(),
                refs_view(after_namespace) == declaration_refs(self.spec_namespace()),
                refs_view(references@) == refs_view(after_namespace) + block_refs(
                    blocks@.take(b as int),
                ),
            decreases blocks@.len() - b,
        {
            let block = &blocks[b];
            let entries = block.catalog().entries();
            proof {
                block.spec_catalog().lemma_view();
            }
            let ghost before = references@;
            let mut j: usize = 0;
            while j < entries.len()
                invariant
                    j <= entries@.len(),
                    entries@ == block.spec_catalog().spec_entries(),
                    refs_view(references@) == refs_view(before) + tagged(
                        block.spec_target()@,
                        entries_view(entries@.take(j as int)),
                    ),
                decreases entries@.len() - j,
            {
                let ghost prev = references@;
                let item = ReferencedImpl::new(block.target(), &entries[j]);
                references.push(item);
                proof {
                    assert(references@ == prev.push(item));
                    assert(refs_view(references@) =~= refs_view(prev).push(item@));
                    assert(tagged(block.spec_target()@, entries_view(entries@.take(j as int)).push(entries@[j as int]@))
                        =~= tagged(block.spec_target()@, entries_view(entries@.take(j as int))).push((block.spec_target()@, entries@[j as int]@)));
                    assert(entries_view(entries@.take(j + 1)) =~= entries_view(entries@.take(j as int)).push(
                        entries@[j as int]@,
                    ));
                    assert(refs_view(references@) =~= refs_view(before) + tagged(
                        block.spec_target()@,
                        entries_view(entries@.take(j + 1)),
                    ));
                }
                j = j + 1;
            }
            proof {
                assert(entries@.take(entries@.len() as int) =~= entries@);
                let t = blocks@.take(b + 1);
                assert(t.drop_last() =~= blocks@.take(b as int));
                assert(refs_view(references@) =~= refs_view(after_namespace) + block_refs(t));
            }
            b = b + 1;
        }
        proof {
            assert(blocks@.take(blocks@.len() as int) =~= blocks@);
        }
        references
    }
}

// ---------------------------------------------------------------- families
impl TrueSchema {
    /// Whether a family's record names a namespace type, a root enum, or a
    /// declared import.
    pub open spec fn spec_record_resolves(&self, record: Seq<char>) -> bool {
        self.spec_type_named(record) is Some || self.spec_root_enum_named(record) is Some || exists|
            k: int,
        |
            0 <= k < self.spec_imports().len() && #[trigger] self.spec_imports()[k].local_name@
                == record
    }

    /// The first family whose record resolves to nothing.
    pub open spec fn spec_first_dead_family(&self) -> Option<int> {
        first_match(
            self.spec_families(),
            |f: FamilyDeclaration| !self.spec_record_resolves(f.record@),
        )
    }

    fn family_record_resolves(&self, record: &Name) -> (r: bool)
        ensures
            r == self.spec_record_resolves(record@),
    {
        if self.type_named(record.as_str()).is_some() {
            return true;
        }
        if self.root_enum_named(record.as_str()).is_some() {
            return true;
        }
        let imports = self.imports();
        let mut i: usize = 0;
        while i < imports.len()
            invariant
                i <= imports@.len(),
                imports@ == self.spec_imports(),
                forall|k: int| 0 <= k < i ==> #[trigger] imports@[k].local_name@ != record@,
            decreases imports@.len() - i,
        {
            if imports[i].local_name == *record {
                return true;
            }
            i = i + 1;
        }
        false
    }

    /// Confirm every family's record type resolves; the first that does not
    /// is reported.
    pub fn families_verified(self) -> (r: Result<Self, SchemaError>)
        ensures
            self.spec_first_dead_family() is None ==> r == Ok::<Self, SchemaError>(self),
            self.spec_first_dead_family() matches Some(k) ==> r matches Err(
                SchemaError::FamilyRecordNotFound { family, record },
            ) && family@ == self.spec_families()[k].name@ && record@
                == self.spec_families()[k].record@,
    {
        let ghost p = |f: FamilyDeclaration| !self.spec_record_resolves(f.record@);
        let families = self.families();
        let mut i: usize = 0;
        while i < families.len()
            invariant
                i <= families@.len(),
                families@ == self.spec_families(),
                p == (|f: FamilyDeclaration| !self.spec_record_resolves(f.record@)),
                forall|k: int| 0 <= k < i ==> !#[trigger] p(families@[k]),
            decreases families@.len() - i,
        {
            let family = &families[i];
            if !self.family_record_resolves(&family.record) {
                proof {
                    lemma_first_match_at(families@, p, i as int);
                }
                return Err(
                    SchemaError::FamilyRecordNotFound {
                        family: family.name.as_str().to_owned(),
                        record: family.record.as_str().to_owned(),
                    },
                );
            }
            i = i + 1;
        }
        proof {
            lemma_first_match_none(families@, p);
        }
        Ok(self)
    }
}

// ---------------------------------------------------------------- products
/// The product defect of a declaration, when it is a struct.
pub open spec fn declaration_defect(d: Declaration) -> Option<ProductDefect> {
    match d.spec_value() {
        TypeDeclaration::Struct(s) => match first_defect(s.fields@) {
            Some(i) => component_defect(s.fields@, i),
            None => None,
        },
        _ => None,
    }
}

impl TrueSchema {
    /// The first namespace struct whose product components are defective.
    pub open spec fn spec_first_defective_product(&self) -> Option<int> {
        first_match(self.spec_namespace(), |d: Declaration| declaration_defect(d) is Some)
    }

    /// Confirm every namespace struct's product components; the first
    /// defect, in declaration then field order, is reported.
    pub fn product_components_verified(self) -> (r: Result<Self, SchemaError>)
        ensures
            self.spec_first_defective_product() is None ==> r == Ok::<Self, SchemaError>(self),
            self.spec_first_defective_product() matches Some(k) ==> r is Err && reports_defect(
                r->Err_0,
                declaration_defect(self.spec_namespace()[k]).unwrap(),
            ),
    {
        let ghost p = |d: Declaration| declaration_defect(d) is Some;
        let namespace = self.namespace();
        let mut i: usize = 0;
        while i < namespace.len()
            invariant
                i <= namespace@.len(),
                namespace@ == self.spec_namespace(),
                p == (|d: Declaration| declaration_defect(d) is Some),
                forall|k: int| 0 <= k < i ==> !#[trigger] p(namespace@[k]),
            decreases namespace@.len() - i,
        {
            if let TypeDeclaration::Struct(declaration) = namespace[i].value() {
                proof {
                    assert(namespace@[i as int].spec_value() == TypeDeclaration::Struct(*declaration));
                }
                match declaration.fields.product_components_verified() {
                    Err(error) => {
                        proof {
                            crate::lookup::lemma_first_match(
                                Seq::new(declaration.fields@.len(), |i: int| i),
                                |i: int| component_defect(declaration.fields@, i) is Some,
                            );
                            assert(p(namespace@[i as int]));
                            lemma_first_match_at(namespace@, p, i as int);
                        }
                        return Err(error);
                    },
                    Ok(()) => {},
                }
            }
            proof {
                assert(!p(namespace@[i as int]));
            }
            i = i + 1;
        }
        proof {
            lemma_first_match_none(namespace@, p);
        }
        Ok(self)
    }
}

// ---------------------------------------------------------------- impl blocks
/// Whether the `i`-th manifest entry repeats the target and composition
/// key of an earlier one.
pub open spec fn duplicates_earlier(refs: Seq<(Seq<char>, ImplRefView)>, i: int) -> bool {
    exists|j: int|
        0 <= j < i && #[trigger] refs[j].0 == refs[i].0 && composition_key_of(refs[j].1)
            == composition_key_of(refs[i].1)
}

/// The first manifest entry that duplicates an earlier one on its target.
pub open spec fn first_duplicate(refs: Seq<(Seq<char>, ImplRefView)>) -> Option<int> {
    first_match(Seq::new(refs.len(), |i: int| i), |i: int| duplicates_earlier(refs, i))
}

/// Whether a block's target is declared in the namespace.
impl TrueSchema {
    pub open spec fn spec_first_unresolved_block(&self) -> Option<int> {
        first_match(
            self.spec_impl_blocks(),
            |b: ImplBlock| self.spec_type_named(b.spec_target()@) is None,
        )
    }

    /// Walk the manifest; the first entry whose target already carries the
    /// same composition key is a duplicate.
    fn impl_entries_distinct(&self) -> (r: Result<(), SchemaError>)
        ensures
            first_duplicate(self.spec_referenced()) is None ==> r is Ok,
            first_duplicate(self.spec_referenced()) matches Some(i) ==> r matches Err(
                SchemaError::DuplicateImplEntry { target, entry },
            ) && target@ == self.spec_referenced()[i].0 && entry@ == label_of(
                self.spec_referenced()[i].1,
            ),
    {
        let references = self.referenced_impls();
        let ghost refs = self.spec_referenced();
        let ghost idx = Seq::new(refs.len(), |i: int| i);
        let ghost p = |i: int| duplicates_earlier(refs, i);
        let mut seen: Vec<(String, ImplCompositionKey)> = Vec::new();
        let mut i: usize = 0;
        while i < references.len()
            invariant
                i <= references@.len(),
                refs == refs_view(references@),
                refs == self.spec_referenced(),
                idx == Seq::new(refs.len(), |i: int| i),
                p == (|i: int| duplicates_earlier(refs, i)),
                seen@.len() == i,
                forall|k: int| 0 <= k < i ==> (#[trigger] seen@[k]).0@ == refs[k].0 && seen@[k].1@
                    == composition_key_of(refs[k].1),
                forall|k: int| 0 <= k < i ==> !#[trigger] p(idx[k]),
            decreases references@.len() - i,
        {
            let reference = &references[i];
            let target = reference.target().as_str().to_owned();
            let key = reference.entry().composition_key();
            proof {
                assert(refs[i as int] == reference@);
            }
            let mut j: usize = 0;
            let mut duplicate = false;
            while j < seen.len()
                invariant
                    j <= seen@.len(),
                    seen@.len() == i,
                    i < refs.len(),
                    target@ == refs[i as int].0,
                    key@ == composition_key_of(refs[i as int].1),
                    forall|k: int| 0 <= k < i ==> (#[trigger] seen@[k]).0@ == refs[k].0 && seen@[k].1@
                        == composition_key_of(refs[k].1),
                    !duplicate ==> forall|k: int|
                        0 <= k < j ==> !(#[trigger] refs[k].0 == refs[i as int].0 && composition_key_of(
                            refs[k].1,
                        ) == composition_key_of(refs[i as int].1)),
                    duplicate ==> duplicates_earlier(refs, i as int),
                decreases seen@.len() - j,
            {
                let entry = &seen[j];
                if crate::text::str_equal(entry.0.as_str(), target.as_str()) && entry.1 == key {
                    duplicate = true;
                    proof {
                        assert(refs[j as int].0 == refs[i as int].0);
                    }
                }
                j = j + 1;
            }
            if duplicate {
                proof {
                    assert(idx[i as int] == i);
                    lemma_first_match_at(idx, p, i as int);
                }
                return Err(
                    SchemaError::DuplicateImplEntry { target, entry: reference.entry().label() },
                );
            }
            proof {
                assert(idx[i as int] == i);
                assert(!p(idx[i as int]));
            }
            seen.push((target, key));
            i = i + 1;
        }
        proof {
            lemma_first_match_none(idx, p);
        }
        Ok(())
    }

    /// Confirm every standalone impl block targets a declared type and no
    /// target carries a duplicate entry.
    pub fn impls_verified(self) -> (r: Result<Self, SchemaError>)
        ensures
            self.spec_first_unresolved_block() matches Some(k) ==> r matches Err(
                SchemaError::UnresolvedImplTarget { name },
            ) && name@ == self.spec_impl_blocks()[k].spec_target()@,
            self.spec_first_unresolved_block() is None ==> (first_duplicate(self.spec_referenced())
                matches Some(i) ==> r matches Err(SchemaError::DuplicateImplEntry { target, entry })
                && target@ == self.spec_referenced()[i].0 && entry@ == label_of(
                self.spec_referenced()[i].1,
            )),
            self.spec_first_unresolved_block() is None && first_duplicate(self.spec_referenced())
                is None ==> r == Ok::<Self, SchemaError>(self),
    {
        let ghost p = |b: ImplBlock| self.spec_type_named(b.spec_target()@) is None;
        let blocks = self.impl_blocks();
        let mut i: usize = 0;
        while i < blocks.len()
            invariant
                i <= blocks@.len(),
                blocks@ == self.spec_impl_blocks(),
                p == (|b: ImplBlock| self.spec_type_named(b.spec_target()@) is None),
                forall|k: int| 0 <= k < i ==> !#[trigger] p(blocks@[k]),
            decreases blocks@.len() - i,
        {
            if self.type_named(blocks[i].target().as_str()).is_none() {
                proof {
                    lemma_first_match_at(blocks@, p, i as int);
                }
                return Err(
                    SchemaError::UnresolvedImplTarget { name: blocks[i].target().as_str().to_owned() },
                );
            }
            i = i + 1;
        }
        proof {
            lemma_first_match_none(blocks@, p);
        }
        match self.impl_entries_distinct() {
            Err(error) => Err(error),
            Ok(()) => Ok(self),
        }
    }
}

// ---------------------------------------------------------------- the surface
/// A reference with no matching fact on the Rust side.
pub struct ImplMiss {
    pub target: Seq<char>,
    pub is_trait: bool,
    pub signature: Seq<char>,
}

pub open spec fn trait_present(facts: Seq<FactView>, target: Seq<char>, trait_name: Seq<char>) -> bool {
    exists|k: int| 0 <= k < facts.len() && #[trigger] facts[k] == FactView::Trait(target, trait_name)
}

pub open spec fn method_present(facts: Seq<FactView>, target: Seq<char>, signature: SignatureView) -> bool {
    exists|k: int| 0 <= k < facts.len() && #[trigger] facts[k] == FactView::Method(target, signature)
}

/// The first method of the list with no matching fact.
pub open spec fn methods_miss(facts: Seq<FactView>, target: Seq<char>, ms: Seq<SignatureView>) -> Option<ImplMiss>
    decreases ms.len(),
{
    if ms.len() == 0 {
        None
    } else {
        match methods_miss(facts, target, ms.drop_last()) {
            Some(m) => Some(m),
            None => if !method_present(facts, target, ms.last()) {
                Some(ImplMiss { target, is_trait: false, signature: signature_text(ms.last()) })
            } else {
                None
            },
        }
    }
}

/// What is missing for one manifest entry: its trait first, then its
/// methods in order.
pub open spec fn entry_miss(facts: Seq<FactView>, r: (Seq<char>, ImplRefView)) -> Option<ImplMiss> {
    match entry_trait(r.1) {
        Some(t) if !trait_present(facts, r.0, t) => Some(ImplMiss { target: r.0, is_trait: true, signature: t }),
        _ => methods_miss(facts, r.0, entry_methods(r.1)),
    }
}

/// The first miss over the manifest, in manifest order.
pub open spec fn manifest_miss(facts: Seq<FactView>, refs: Seq<(Seq<char>, ImplRefView)>) -> Option<ImplMiss>
    decreases refs.len(),
{
    if refs.len() == 0 {
        None
    } else {
        match manifest_miss(facts, refs.drop_last()) {
            Some(m) => Some(m),
            None => entry_miss(facts, refs.last()),
        }
    }
}

/// Whether an error reports the given miss.
pub open spec fn reports_miss(e: SchemaError, m: ImplMiss) -> bool {
    e matches SchemaError::UnverifiedImplReference { target, kind, signature } && target@ == m.target
        && signature@ == m.signature && (if m.is_trait {
        kind@ == seq!['t', 'r', 'a', 'i', 't', ' ', 'i', 'm', 'p', 'l']
    } else {
        kind@ == seq!['m', 'e', 't', 'h', 'o', 'd', ' ', 's', 'i', 'g', 'n', 'a', 't', 'u', 'r', 'e']
    })
}

/// The impls and methods a real crate exposes.
#[derive(Debug)]
pub struct RustSurface {
    facts: Vec<ImplFact>,
}

impl RustSurface {
    pub closed spec fn spec_facts(&self) -> Seq<FactView> {
        facts_view(self.facts@)
    }

    pub fn new(facts: Vec<ImplFact>) -> (r: Self)
        ensures
            r.spec_facts() == facts_view(facts@),
    {
        RustSurface { facts }
    }

    /// Verify every impl reference of the schema against this surface: a
    /// trait entry needs its trait fact, every referenced method its method
    /// fact. The first reference with no fact is reported.
    pub fn verify_catalog(&self, schema: &TrueSchema) -> (r: Result<(), SchemaError>)
        ensures
            manifest_miss(self.spec_facts(), schema.spec_referenced()) is None ==> r is Ok,
            manifest_miss(self.spec_facts(), schema.spec_referenced()) matches Some(m) ==> r is Err
                && reports_miss(r->Err_0, m),
    {
        let references = schema.referenced_impls();
        let mut i: usize = 0;
        while i < references.len()
            invariant
                i <= references@.len(),
                refs_view(references@) == schema.spec_referenced(),
                manifest_miss(self.spec_facts(), refs_view(references@).take(i as int)) is None,
            decreases references@.len() - i,
        {
            let outcome = self.verify_reference(&references[i]);
            proof {
                let t = refs_view(references@).take(i + 1);
                assert(t.drop_last() =~= refs_view(references@).take(i as int));
                assert(t.last() == references@[i as int]@);
            }
            if outcome.is_err() {
                proof {
                    lemma_miss_prefix(self.spec_facts(), refs_view(references@), i as int + 1);
                }
                return outcome;
            }
            i = i + 1;
        }
        proof {
            assert(refs_view(references@).take(i as int) =~= refs_view(references@));
        }
        Ok(())
    }

    fn verify_reference(&self, reference: &ReferencedImpl<'_>) -> (r: Result<(), SchemaError>)
        ensures
            entry_miss(self.spec_facts(), reference@) is None ==> r is Ok,
            entry_miss(self.spec_facts(), reference@) matches Some(m) ==> r is Err && reports_miss(
                r->Err_0,
                m,
            ),
    {
        let target = reference.target();
        if let Some(trait_name) = reference.entry().trait_name() {
            let outcome = self.verify_trait(target, trait_name);
            if outcome.is_err() {
                return outcome;
            }
        }
        let methods = reference.entry().methods();
        let mut i: usize = 0;
        while i < methods.len()
            invariant
                i <= methods@.len(),
                signatures_view(methods@) == entry_methods(reference@.1),
                target@ == reference@.0,
                entry_trait(reference@.1) matches Some(t) ==> trait_present(
                    self.spec_facts(),
                    reference@.0,
                    t,
                ),
                methods_miss(self.spec_facts(), target@, signatures_view(methods@).take(i as int))
                    is None,
            decreases methods@.len() - i,
        {
            let outcome = self.verify_method(target, &methods[i]);
            proof {
                let t = signatures_view(methods@).take(i + 1);
                assert(t.drop_last() =~= signatures_view(methods@).take(i as int));
                assert(t.last() == methods@[i as int]@);
            }
            if outcome.is_err() {
                proof {
                    lemma_methods_miss_prefix(
                        self.spec_facts(),
                        target@,
                        signatures_view(methods@),
                        i as int + 1,
                    );
                }
                return outcome;
            }
            i = i + 1;
        }
        proof {
            assert(signatures_view(methods@).take(i as int) =~= signatures_view(methods@));
        }
        Ok(())
    }

    fn verify_trait(&self, target: &Name, trait_name: &Name) -> (r: Result<(), SchemaError>)
        ensures
            trait_present(self.spec_facts(), target@, trait_name@) ==> r is Ok,
            !trait_present(self.spec_facts(), target@, trait_name@) ==> r is Err && reports_miss(
                r->Err_0,
                ImplMiss { target: target@, is_trait: true, signature: trait_name@ },
            ),
    {
        proof {
            reveal_strlit("trait impl");
        }
        let mut i: usize = 0;
        while i < self.facts.len()
            invariant
                i <= self.facts@.len(),
                forall|k: int| 0 <= k < i ==> facts_view(self.facts@)[k] != FactView::Trait(
                    target@,
                    trait_name@,
                ),
            decreases self.facts@.len() - i,
        {
            if let ImplFact::Trait { type_ident, trait_name: present } = &self.facts[i] {
                if *type_ident == *target && *present == *trait_name {
                    proof {
                        assert(facts_view(self.facts@)[i as int] == FactView::Trait(target@, trait_name@));
                    }
                    return Ok(());
                }
            }
            proof {
                assert(facts_view(self.facts@)[i as int] == self.facts@[i as int]@);
            }
            i = i + 1;
        }
        proof {
            reveal_strlit("trait impl");
            assert("trait impl"@ =~= seq!['t', 'r', 'a', 'i', 't', ' ', 'i', 'm', 'p', 'l']);
        }
        let e = SchemaError::UnverifiedImplReference {
            target: target.as_str().to_owned(),
            kind: "trait impl",
            signature: trait_name.as_str().to_owned(),
        };
        proof {
            assert(!trait_present(self.spec_facts(), target@, trait_name@));
            assert(reports_miss(e, ImplMiss { target: target@, is_trait: true, signature: trait_name@ }));
        }
        Err(e)
    }

    fn verify_method(&self, target: &Name, signature: &MethodSignature) -> (r: Result<(), SchemaError>)
        ensures
            method_present(self.spec_facts(), target@, signature@) ==> r is Ok,
            !method_present(self.spec_facts(), target@, signature@) ==> r is Err && reports_miss(
                r->Err_0,
                ImplMiss { target: target@, is_trait: false, signature: signature_text(signature@) },
            ),
    {
        proof {
            reveal_strlit("method signature");
        }
        let mut i: usize = 0;
        while i < self.facts.len()
            invariant
                i <= self.facts@.len(),
                forall|k: int| 0 <= k < i ==> facts_view(self.facts@)[k] != FactView::Method(
                    target@,
                    signature@,
                ),
            decreases self.facts@.len() - i,
        {
            if let ImplFact::Method { type_ident, signature: present } = &self.facts[i] {
                if *type_ident == *target && *present == *signature {
                    proof {
                        assert(facts_view(self.facts@)[i as int] == FactView::Method(target@, signature@));
                    }
                    return Ok(());
                }
            }
            proof {
                assert(facts_view(self.facts@)[i as int] == self.facts@[i as int]@);
            }
            i = i + 1;
        }
        proof {
            reveal_strlit("method signature");
            assert("method signature"@ =~= seq!['m', 'e', 't', 'h', 'o', 'd', ' ', 's', 'i', 'g', 'n', 'a', 't', 'u', 'r', 'e']);
        }
        let e = SchemaError::UnverifiedImplReference {
            target: target.as_str().to_owned(),
            kind: "method signature",
            signature: signature.render(),
        };
        proof {
            assert(!method_present(self.spec_facts(), target@, signature@));
        }
        Err(e)
    }
}

/// A miss in a prefix is the miss of the whole manifest.
proof fn lemma_miss_prefix(facts: Seq<FactView>, refs: Seq<(Seq<char>, ImplRefView)>, n: int)
    requires
        0 <= n <= refs.len(),
        manifest_miss(facts, refs.take(n)) is Some,
    ensures
        manifest_miss(facts, refs) == manifest_miss(facts, refs.take(n)),
    decreases refs.len() - n,
{
    if n < refs.len() {
        let t = refs.take(n + 1);
        assert(t.drop_last() =~= refs.take(n));
        lemma_miss_prefix(facts, refs, n + 1);
    } else {
        assert(refs.take(n) =~= refs);
    }
}

proof fn lemma_methods_miss_prefix(facts: Seq<FactView>, target: Seq<char>, ms: Seq<SignatureView>, n: int)
    requires
        0 <= n <= ms.len(),
        methods_miss(facts, target, ms.take(n)) is Some,
    ensures
        methods_miss(facts, target, ms) == methods_miss(facts, target, ms.take(n)),
    decreases ms.len() - n,
{
    if n < ms.len() {
        let t = ms.take(n + 1);
        assert(t.drop_last() =~= ms.take(n));
        lemma_methods_miss_prefix(facts, target, ms, n + 1);
    } else {
        assert(ms.take(n) =~= ms);
    }
}

/// Whether every fact of the first list is also a fact of the second.
pub open spec fn facts_within(f1: Seq<FactView>, f2: Seq<FactView>) -> bool {
    forall|k: int| 0 <= k < f1.len() ==> f2.contains(#[trigger] f1[k])
}

proof fn lemma_methods_miss_grows(f1: Seq<FactView>, f2: Seq<FactView>, target: Seq<char>, ms: Seq<SignatureView>)
    requires
        facts_within(f1, f2),
        methods_miss(f1, target, ms) is None,
    ensures
        methods_miss(f2, target, ms) is None,
    decreases ms.len(),
{
    if ms.len() > 0 {
        lemma_methods_miss_grows(f1, f2, target, ms.drop_last());
        let k = choose|k: int| 0 <= k < f1.len() && #[trigger] f1[k] == FactView::Method(target, ms.last());
        assert(f2.contains(f1[k]));
        let j = choose|j: int| 0 <= j < f2.len() && f2[j] == f1[k];
        assert(f2[j] == FactView::Method(target, ms.last()));
    }
}

proof fn lemma_manifest_miss_grows(f1: Seq<FactView>, f2: Seq<FactView>, refs: Seq<(Seq<char>, ImplRefView)>)
    requires
        facts_within(f1, f2),
        manifest_miss(f1, refs) is None,
    ensures
        manifest_miss(f2, refs) is None,
    decreases refs.len(),
{
    if refs.len() > 0 {
        lemma_manifest_miss_grows(f1, f2, refs.drop_last());
        let r = refs.last();
        if let Some(t) = entry_trait(r.1) {
            let k = choose|k: int| 0 <= k < f1.len() && #[trigger] f1[k] == FactView::Trait(r.0, t);
            assert(f2.contains(f1[k]));
            let j = choose|j: int| 0 <= j < f2.len() && f2[j] == f1[k];
            assert(f2[j] == FactView::Trait(r.0, t));
        }
        lemma_methods_miss_grows(f1, f2, r.0, entry_methods(r.1));
    }
}

/// A surface with more facts verifies every catalog a surface with fewer
/// facts verifies: adding facts never turns a verified catalog into an
/// unverified one.
pub proof fn lemma_more_facts_keep_catalogs_verified(fewer: RustSurface, more: RustSurface, schema: TrueSchema)
    requires
        facts_within(fewer.spec_facts(), more.spec_facts()),
        manifest_miss(fewer.spec_facts(), schema.spec_referenced()) is None,
    ensures
        manifest_miss(more.spec_facts(), schema.spec_referenced()) is None,
{
    lemma_manifest_miss_grows(fewer.spec_facts(), more.spec_facts(), schema.spec_referenced());
}


/// A family's record check fails only on a record that names nothing:
/// the first family reported has a record that is no namespace type, no
/// root enum and no import's local name, and where every record is one of
/// these no family is reported.
pub proof fn lemma_families_fail_only_on_unknown_records(s: TrueSchema)
    ensures
        s.spec_first_dead_family() matches Some(k) ==> ({
            let record = s.spec_families()[k].record@;
            &&& s.spec_type_named(record) is None
            &&& s.spec_root_enum_named(record) is None
            &&& forall|j: int| 0 <= j < s.spec_imports().len() ==> (#[trigger] s.spec_imports()[j]).local_name@ != record
        }),
        (forall|k: int| 0 <= k < s.spec_families().len() ==> ({
            let record = (#[trigger] s.spec_families()[k]).record@;
            ||| s.spec_type_named(record) is Some
            ||| s.spec_root_enum_named(record) is Some
            ||| exists|j: int| 0 <= j < s.spec_imports().len() && s.spec_imports()[j].local_name@ == record
        })) ==> s.spec_first_dead_family() is None,
        (exists|k: int| 0 <= k < s.spec_families().len() && ({
            let record = (#[trigger] s.spec_families()[k]).record@;
            &&& s.spec_type_named(record) is None
            &&& s.spec_root_enum_named(record) is None
            &&& forall|j: int| 0 <= j < s.spec_imports().len() ==> s.spec_imports()[j].local_name@ != record
        })) ==> s.spec_first_dead_family() is Some,
{
    let p = |f: FamilyDeclaration| !s.spec_record_resolves(f.record@);
    crate::lookup::lemma_first_match(s.spec_families(), p);
    if exists|k: int| 0 <= k < s.spec_families().len() && ({
        let record = (#[trigger] s.spec_families()[k]).record@;
        &&& s.spec_type_named(record) is None
        &&& s.spec_root_enum_named(record) is None
        &&& forall|j: int| 0 <= j < s.spec_imports().len() ==> s.spec_imports()[j].local_name@ != record
    }) {
        let k = choose|k: int| 0 <= k < s.spec_families().len() && ({
            let record = (#[trigger] s.spec_families()[k]).record@;
            &&& s.spec_type_named(record) is None
            &&& s.spec_root_enum_named(record) is None
            &&& forall|j: int| 0 <= j < s.spec_imports().len() ==> s.spec_imports()[j].local_name@ != record
        });
        assert(p(s.spec_families()[k]));
    }
    if let Some(k) = s.spec_first_dead_family() {
        assert(p(s.spec_families()[k]));
        let record = s.spec_families()[k].record@;
        assert forall|j: int| 0 <= j < s.spec_imports().len() implies (#[trigger] s.spec_imports()[j]).local_name@ != record by {
            if s.spec_imports()[j].local_name@ == record {
                assert(s.spec_record_resolves(record));
            }
        }
    }
    if forall|k: int| 0 <= k < s.spec_families().len() ==> ({
        let record = (#[trigger] s.spec_families()[k]).record@;
        ||| s.spec_type_named(record) is Some
        ||| s.spec_root_enum_named(record) is Some
        ||| exists|j: int| 0 <= j < s.spec_imports().len() && s.spec_imports()[j].local_name@ == record
    }) {
        if let Some(k) = s.spec_first_dead_family() {
            let record = s.spec_families()[k].record@;
            assert(p(s.spec_families()[k]));
            if !(s.spec_type_named(record) is Some) && !(s.spec_root_enum_named(record) is Some) {
                let j = choose|j: int| 0 <= j < s.spec_imports().len() && s.spec_imports()[j].local_name@ == record;
                assert(s.spec_imports()[j].local_name@ == record);
            }
        }
    }
}

proof fn lemma_missing_method_misses(facts: Seq<FactView>, target: Seq<char>, ms: Seq<SignatureView>, j: int)
    requires
        0 <= j < ms.len(),
        !method_present(facts, target, ms[j]),
    ensures
        methods_miss(facts, target, ms) is Some,
    decreases ms.len(),
{
    if j < ms.len() - 1 {
        assert(ms.drop_last()[j] == ms[j]);
        lemma_missing_method_misses(facts, target, ms.drop_last(), j);
    }
}

proof fn lemma_entry_miss_misses(facts: Seq<FactView>, refs: Seq<(Seq<char>, ImplRefView)>, i: int)
    requires
        0 <= i < refs.len(),
        entry_miss(facts, refs[i]) is Some,
    ensures
        manifest_miss(facts, refs) is Some,
    decreases refs.len(),
{
    if i < refs.len() - 1 {
        assert(refs.drop_last()[i] == refs[i]);
        lemma_entry_miss_misses(facts, refs.drop_last(), i);
    }
}

/// A catalog is verified only if the surface holds every method each entry
/// lists: a trait impl entry listing a method the facts lack, an inherent
/// method the facts lack, or a trait the facts lack, each leaves a miss to
/// report, so `verify_catalog` fails.
pub proof fn lemma_every_listed_method_is_checked(facts: Seq<FactView>, refs: Seq<(Seq<char>, ImplRefView)>, i: int)
    requires
        0 <= i < refs.len(),
    ensures
        (refs[i].1 matches ImplRefView::TraitImpl(t, ms) && exists|j: int|
            0 <= j < ms.len() && !method_present(facts, refs[i].0, #[trigger] ms[j])) ==> manifest_miss(facts, refs) is Some,
        (refs[i].1 matches ImplRefView::InherentMethod(m) && !method_present(facts, refs[i].0, m))
            ==> manifest_miss(facts, refs) is Some,
        (refs[i].1 matches ImplRefView::Marker(t) && !trait_present(facts, refs[i].0, t))
            ==> manifest_miss(facts, refs) is Some,
        (refs[i].1 matches ImplRefView::TraitImpl(t, _) && !trait_present(facts, refs[i].0, t))
            ==> manifest_miss(facts, refs) is Some,
{
    let r = refs[i];
    match r.1 {
        ImplRefView::TraitImpl(t, ms) => {
            if exists|j: int| 0 <= j < ms.len() && !method_present(facts, r.0, #[trigger] ms[j]) {
                let j = choose|j: int| 0 <= j < ms.len() && !method_present(facts, r.0, #[trigger] ms[j]);
                lemma_missing_method_misses(facts, r.0, ms, j);
                lemma_entry_miss_misses(facts, refs, i);
            }
            if !trait_present(facts, r.0, t) {
                lemma_entry_miss_misses(facts, refs, i);
            }
        },
        ImplRefView::InherentMethod(m) => {
            if !method_present(facts, r.0, m) {
                lemma_missing_method_misses(facts, r.0, seq![m], 0);
                lemma_entry_miss_misses(facts, refs, i);
            }
        },
        ImplRefView::Marker(t) => {
            if !trait_present(facts, r.0, t) {
                lemma_entry_miss_misses(facts, refs, i);
            }
        },
    }
}

proof fn lemma_methods_present(facts: Seq<FactView>, target: Seq<char>, ms: Seq<SignatureView>)
    requires
        forall|j: int| 0 <= j < ms.len() ==> method_present(facts, target, #[trigger] ms[j]),
    ensures
        methods_miss(facts, target, ms) is None,
    decreases ms.len(),
{
    if ms.len() > 0 {
        assert forall|j: int| 0 <= j < ms.drop_last().len() implies method_present(facts, target, #[trigger] ms.drop_last()[j]) by {
            assert(ms.drop_last()[j] == ms[j]);
        }
        lemma_methods_present(facts, target, ms.drop_last());
        assert(method_present(facts, target, ms[ms.len() - 1]));
    }
}

/// Whether the facts hold an entry's trait, if it has one, and every
/// method it lists.
pub open spec fn entry_backed(facts: Seq<FactView>, r: (Seq<char>, ImplRefView)) -> bool {
    &&& match r.1 {
        ImplRefView::Marker(t) => trait_present(facts, r.0, t),
        ImplRefView::TraitImpl(t, _) => trait_present(facts, r.0, t),
        ImplRefView::InherentMethod(_) => true,
    }
    &&& match r.1 {
        ImplRefView::Marker(_) => true,
        ImplRefView::TraitImpl(_, ms) => forall|j: int| 0 <= j < ms.len() ==> method_present(facts, r.0, #[trigger] ms[j]),
        ImplRefView::InherentMethod(m) => method_present(facts, r.0, m),
    }
}

/// A catalog whose every entry the facts back is verified: nothing is
/// missed.
pub proof fn lemma_backed_catalog_verifies(facts: Seq<FactView>, refs: Seq<(Seq<char>, ImplRefView)>)
    requires
        forall|i: int| 0 <= i < refs.len() ==> entry_backed(facts, #[trigger] refs[i]),
    ensures
        manifest_miss(facts, refs) is None,
    decreases refs.len(),
{
    if refs.len() > 0 {
        assert forall|i: int| 0 <= i < refs.drop_last().len() implies entry_backed(facts, #[trigger] refs.drop_last()[i]) by {
            assert(refs.drop_last()[i] == refs[i]);
        }
        lemma_backed_catalog_verifies(facts, refs.drop_last());
        let r = refs.last();
        assert(entry_backed(facts, refs[refs.len() - 1]));
        match r.1 {
            ImplRefView::Marker(t) => {
                assert(seq![] =~= Seq::<SignatureView>::empty());
            },
            ImplRefView::TraitImpl(t, ms) => {
                lemma_methods_present(facts, r.0, ms);
            },
            ImplRefView::InherentMethod(m) => {
                assert forall|j: int| 0 <= j < seq![m].len() implies method_present(facts, r.0, #[trigger] seq![m][j]) by {}
                lemma_methods_present(facts, r.0, seq![m]);
            },
        }
    }
}
} // verus!
