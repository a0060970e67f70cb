//! Decomposition: splitting a named schema into its name-free substrate and
//! the name table that projects it back. Every declared name is associated
//! against a prior table (keeping the identifier a rename left behind) or
//! minted; members mint from their owner's identifier and their local name.
use vstd::prelude::*;

use crate::identifier::{
    DeclarationKind, NameEntry, NameTable, NominalIdentifier, entries_view, holds_identifier,
    identifier_of_spec, member_digest, minted_digest,
};
use crate::lookup::first_match;
use crate::name::{Name, local_part_of};
use crate::reference::{
    ApplicationHead, ImportedHead, TypeReference, frame_variants_view, head_view, imported_view,
    lemma_frame_variants_view, lemma_references_view, references_view,
};
use crate::impls::ImplBlock;
use crate::schema::{
    Declaration, EnumDeclaration, EnumVariant, EnumView, FamilyDeclaration, FieldDeclaration,
    RelationDeclaration, RelationValue, ResolvedImport, StreamDeclaration, StreamRelation,
    StructDeclaration, TypeDeclaration, VariantView, field_spelled, fields_view, variant_spelled,
    variants_view,
};
use crate::error::SchemaError;
use crate::identifier::identifiers_determine_entries;
use crate::substrate::{
    CoreSchema, project_all, project_schema, resolved_projector, declaration_projector,
    stream_projector, family_projector, relation_projector, block_projector,
    CoreRelationDeclaration, CoreRelationValue, project_paths, project_relation_declaration,
    CoreApplicationHead, CoreDeclaration, CoreEnum, CoreFamily, CoreField, CoreImplBlock,
    CoreNewtype, CoreReference, CoreResolvedImport, CoreRoot, CoreRootApplication, CoreStream,
    CoreStreamRelation, CoreStruct, CoreType, CoreVariant, project_block, project_declaration,
    project_enum, project_family, project_field, project_fields, project_head, project_reference,
    project_references, project_relation, project_resolved, project_root, project_stream,
    project_type, project_variant, project_variants, projected_member, projected_name,
};
use crate::true_schema::{Root, TrueSchema, resolved_spelled};
use crate::views::{
    DeclarationView, FamilyView, ResolvedView, RootView, StreamView, TypeDeclView, block_view,
    copy_catalog, declaration_view, family_view, resolved_view, root_view, stream_view, type_view,
};

verus! {

pub type Rows = Seq<(NominalIdentifier, Seq<char>)>;

/// The kinds whose names project by their local part.
pub open spec fn is_member_kind(k: DeclarationKind) -> bool {
    k == DeclarationKind::Variant || k == DeclarationKind::Generic
}

/// A table names a harvested row: the row's identifier projects to the
/// row's name, and a member's name is its own local part.
pub open spec fn names_row(t: Rows, row: (NominalIdentifier, Seq<char>)) -> bool {
    &&& projected_name(t, row.0) == Ok::<Seq<char>, NominalIdentifier>(row.1)
    &&& is_member_kind(row.0.spec_kind()) ==> local_part_of(row.1) == row.1
}

/// A table keeps a field whose name is derived: where it holds the field's
/// identifier at all, it holds it under the field's name.
pub open spec fn keeps_derived(t: Rows, q: (NominalIdentifier, Seq<char>)) -> bool {
    match first_match(t, holds_identifier(q.0)) {
        Some(k) => t[k].1 == q.1,
        None => true,
    }
}

/// A table fits what a decomposition harvested.
pub open spec fn fits(t: Rows, rows: Rows, derived: Rows) -> bool {
    &&& forall|k: int| 0 <= k < rows.len() ==> names_row(t, #[trigger] rows[k])
    &&& forall|k: int| 0 <= k < derived.len() ==> keeps_derived(t, #[trigger] derived[k])
}

/// The identifier a top-level name associates to against a prior table.
pub open spec fn agrees_with_prior(prior: Rows, row: (NominalIdentifier, Seq<char>)) -> bool {
    match identifier_of_spec(prior, DeclarationKind::Type, row.1) {
        Some(id) => row.0 == id,
        None => row.0.spec_kind() == DeclarationKind::Type && row.0.spec_digest() == minted_digest(
            DeclarationKind::Type,
            row.1,
        ),
    }
}

pub open spec fn prefix_of<T>(a: Seq<T>, b: Seq<T>) -> bool {
    a.len() <= b.len() && forall|j: int| 0 <= j < a.len() ==> #[trigger] b[j] == a[j]
}

/// What a decomposition has gathered so far: the rows the table will hold,
/// and the fields whose names are derived and carry no row.
struct Harvest<'a> {
    prior: &'a NameTable,
    rows: Vec<NameEntry>,
    derived: Vec<NameEntry>,
}

impl<'a> Harvest<'a> {
    pub closed spec fn spec_rows(&self) -> Rows {
        entries_view(self.rows@)
    }

    pub closed spec fn spec_derived(&self) -> Rows {
        entries_view(self.derived@)
    }

    pub closed spec fn spec_prior(&self) -> Rows {
        self.prior@
    }

    /// Every top-level row agrees with the prior table.
    pub open spec fn wf(&self) -> bool {
        &&& forall|k: int|
            0 <= k < self.spec_rows().len() && (#[trigger] self.spec_rows()[k]).0.spec_kind()
                == DeclarationKind::Type ==> agrees_with_prior(self.spec_prior(), self.spec_rows()[k])
        &&& forall|k: int|
            0 <= k < self.spec_derived().len() ==> (#[trigger] self.spec_derived()[k]).0.spec_kind()
                == DeclarationKind::Field
    }

    pub open spec fn fit(&self, t: Rows) -> bool {
        fits(t, self.spec_rows(), self.spec_derived())
    }

    /// This harvest extends `old`.
    pub open spec fn grew(&self, old: &Harvest) -> bool {
        &&& self.spec_prior() == old.spec_prior()
        &&& prefix_of(old.spec_rows(), self.spec_rows())
        &&& prefix_of(old.spec_derived(), self.spec_derived())
        &&& self.wf()
    }
}

/// A table that fits a grown harvest fits the harvest it grew from.
proof fn lemma_fit_shrinks(h1: &Harvest, h2: &Harvest)
    requires
        h2.grew(h1),
    ensures
        forall|t: Rows| #[trigger] h2.fit(t) ==> h1.fit(t),
{
    assert forall|t: Rows| #[trigger] h2.fit(t) implies h1.fit(t) by {
        assert forall|k: int| 0 <= k < h1.spec_rows().len() implies names_row(t, #[trigger] h1.spec_rows()[k]) by {
            assert(h2.spec_rows()[k] == h1.spec_rows()[k]);
        }
        assert forall|k: int| 0 <= k < h1.spec_derived().len() implies keeps_derived(t, #[trigger] h1.spec_derived()[k]) by {
            assert(h2.spec_derived()[k] == h1.spec_derived()[k]);
        }
    }
}

fn has_row(rows: &Vec<NameEntry>, id: &NominalIdentifier, name: &Name) -> (r: bool)
    ensures
        r ==> entries_view(rows@).contains((*id, name@)),
{
    let mut i: usize = 0;
    while i < rows.len()
        invariant
            i <= rows@.len(),
        decreases rows@.len() - i,
    {
        if rows[i].identifier() == *id && rows[i].name() == name {
            proof {
                assert(entries_view(rows@)[i as int] == (*id, name@));
            }
            return true;
        }
        i = i + 1;
    }
    false
}

/// Hold a row, unless an equal row is held already.
fn add_row(h: &mut Harvest, id: NominalIdentifier, name: &Name)
    requires
        old(h).wf(),
        id.spec_kind() == DeclarationKind::Type ==> agrees_with_prior(old(h).spec_prior(), (id, name@)),
    ensures
        final(h).grew(&*old(h)),
        final(h).spec_rows().contains((id, name@)),
{
    if has_row(&h.rows, &id, name) {
        proof {
            assert(h.grew(&*old(h)));
        }
        return;
    }
    let ghost before = h.spec_rows();
    h.rows.push(NameEntry::new(id, name.clone()));
    proof {
        assert(h.spec_rows() =~= before.push((id, name@)));
        assert(h.spec_rows()[before.len() as int] == (id, name@));
    }
}

/// A table that fits a harvest names each of its rows.
proof fn lemma_names_held(h: &Harvest, t: Rows, row: (NominalIdentifier, Seq<char>))
    requires
        h.fit(t),
        h.spec_rows().contains(row),
    ensures
        names_row(t, row),
{
    let k = choose|k: int| 0 <= k < h.spec_rows().len() && h.spec_rows()[k] == row;
    assert(names_row(t, h.spec_rows()[k]));
}

/// Associate a top-level name against the prior table and hold its row.
fn declare(h: &mut Harvest, name: &Name) -> (id: NominalIdentifier)
    requires
        old(h).wf(),
    ensures
        final(h).grew(&*old(h)),
        agrees_with_prior(old(h).spec_prior(), (id, name@)),
        forall|t: Rows| #[trigger] final(h).fit(t) ==> projected_name(t, id) == Ok::<
            Seq<char>,
            NominalIdentifier,
        >(name@),
{
    let id = h.prior.associate(DeclarationKind::Type, name);
    proof {
        assert(h.spec_prior() == h.prior@);
    }
    add_row(h, id, name);
    proof {
        assert forall|t: Rows| #[trigger] h.fit(t) implies projected_name(t, id) == Ok::<
            Seq<char>,
            NominalIdentifier,
        >(name@) by {
            lemma_names_held(h, t, (id, name@));
        }
    }
    id
}

/// Mint a member's identifier from its owner and hold its row.
fn declare_member(h: &mut Harvest, kind: DeclarationKind, owner: &NominalIdentifier, name: &Name) -> (id: NominalIdentifier)
    requires
        old(h).wf(),
        kind != DeclarationKind::Type,
    ensures
        final(h).grew(&*old(h)),
        id.spec_kind() == kind && id.spec_digest() == member_digest(kind, *owner, name@),
        forall|t: Rows| #[trigger] final(h).fit(t) ==> projected_name(t, id) == Ok::<
            Seq<char>,
            NominalIdentifier,
        >(name@) && (is_member_kind(kind) ==> projected_member(t, id) == Ok::<
            Seq<char>,
            NominalIdentifier,
        >(name@)),
{
    let id = NominalIdentifier::mint_member(kind, owner, name.as_str());
    add_row(h, id, name);
    proof {
        assert forall|t: Rows| #[trigger] h.fit(t) implies projected_name(t, id) == Ok::<
            Seq<char>,
            NominalIdentifier,
        >(name@) && (is_member_kind(kind) ==> projected_member(t, id) == Ok::<
            Seq<char>,
            NominalIdentifier,
        >(name@)) by {
            lemma_names_held(h, t, (id, name@));
        }
    }
    id
}

/// Growth composes.
proof fn lemma_grew_trans(h1: &Harvest, h2: &Harvest, h3: &Harvest)
    requires
        h2.grew(h1),
        h3.grew(h2),
    ensures
        h3.grew(h1),
{
    assert forall|j: int| 0 <= j < h1.spec_rows().len() implies #[trigger] h3.spec_rows()[j] == h1.spec_rows()[j] by {
        assert(h2.spec_rows()[j] == h1.spec_rows()[j]);
    }
    assert forall|j: int| 0 <= j < h1.spec_derived().len() implies #[trigger] h3.spec_derived()[j] == h1.spec_derived()[j] by {
        assert(h2.spec_derived()[j] == h1.spec_derived()[j]);
    }
}

proof fn lemma_grew_refl(h: &Harvest)
    requires
        h.wf(),
    ensures
        h.grew(h),
{
}

/// The members of an owner, one row each.
fn decompose_members(h: &mut Harvest, kind: DeclarationKind, owner: &NominalIdentifier, names: &[Name]) -> (r: Vec<NominalIdentifier>)
    requires
        old(h).wf(),
        is_member_kind(kind),
    ensures
        final(h).grew(&*old(h)),
        forall|t: Rows| #[trigger] final(h).fit(t) ==> crate::substrate::projected_members(t, r@)
            == Ok::<Seq<Seq<char>>, NominalIdentifier>(crate::schema::names_view(names@)),
{
    let mut out: Vec<NominalIdentifier> = Vec::new();
    let mut i: usize = 0;
    proof {
        lemma_grew_refl(h);
        assert forall|t: Rows| #[trigger] h.fit(t) implies crate::substrate::projected_members(t, out@)
            == Ok::<Seq<Seq<char>>, NominalIdentifier>(crate::schema::names_view(names@.take(0))) by {
            assert(crate::schema::names_view(names@.take(0)) =~= Seq::<Seq<char>>::empty());
        }
    }
    while i < names.len()
        invariant
            i <= names@.len(),
            out@.len() == i,
            h.grew(&*old(h)),
            is_member_kind(kind),
            forall|t: Rows| #[trigger] h.fit(t) ==> crate::substrate::projected_members(t, out@)
                == Ok::<Seq<Seq<char>>, NominalIdentifier>(crate::schema::names_view(names@.take(i as int))),
        decreases names@.len() - i,
    {
        let ghost prev = *h;
        let ghost before = out@;
        let id = declare_member(h, kind, owner, &names[i]);
        out.push(id);
        proof {
            lemma_fit_shrinks(&prev, h);
            lemma_grew_trans(&*old(h), &prev, h);
            assert forall|t: Rows| #[trigger] h.fit(t) implies crate::substrate::projected_members(t, out@)
                == Ok::<Seq<Seq<char>>, NominalIdentifier>(crate::schema::names_view(names@.take(i + 1))) by {
                assert(prev.fit(t));
                assert(out@.drop_last() =~= before);
                assert(crate::schema::names_view(names@.take(i + 1)) =~= crate::schema::names_view(
                    names@.take(i as int),
                ).push(names@[i as int]@));
            }
        }
        i = i + 1;
    }
    proof {
        assert(names@.take(i as int) =~= names@);
    }
    out
}

/// The name-free form of a reference.
fn decompose_reference(h: &mut Harvest, r: &TypeReference) -> (c: CoreReference)
    requires
        old(h).wf(),
    ensures
        final(h).grew(&*old(h)),
        forall|t: Rows| #[trigger] final(h).fit(t) ==> project_reference(t, c) == Ok::<
            crate::reference::TypeRefView,
            NominalIdentifier,
        >(r@),
    decreases r,
{
    let ghost h0 = *h;
    proof {
        lemma_grew_refl(h);
    }
    match r {
        TypeReference::String => CoreReference::String,
        TypeReference::Integer => CoreReference::Integer,
        TypeReference::Boolean => CoreReference::Boolean,
        TypeReference::Path => CoreReference::Path,
        TypeReference::Bytes => CoreReference::Bytes,
        TypeReference::FixedBytes(width) => CoreReference::FixedBytes(*width),
        TypeReference::Plain(name) => {
            let id = declare(h, name);
            CoreReference::Plain(id)
        },
        TypeReference::Vector(inner) => {
            let c = decompose_reference(h, inner);
            CoreReference::Vector(Box::new(c))
        },
        TypeReference::Optional(inner) => {
            let c = decompose_reference(h, inner);
            CoreReference::Optional(Box::new(c))
        },
        TypeReference::ScopeOf(inner) => {
            let c = decompose_reference(h, inner);
            CoreReference::ScopeOf(Box::new(c))
        },
        TypeReference::MapOf(key, value) => {
            let k = decompose_reference(h, key);
            let ghost h1 = *h;
            let v = decompose_reference(h, value);
            proof {
                lemma_fit_shrinks(&h1, h);
                lemma_grew_trans(&h0, &h1, h);
            }
            CoreReference::MapOf(Box::new(k), Box::new(v))
        },
        TypeReference::Application { head, arguments } => {
            let ch = decompose_head(h, head);
            let ghost h1 = *h;
            let mut out: Vec<CoreReference> = Vec::new();
            let mut i: usize = 0;
            proof {
                lemma_references_view(arguments@);
                lemma_grew_refl(h);
                assert forall|t: Rows| #[trigger] h.fit(t) implies project_references(t, out@) == Ok::<
                    Seq<crate::reference::TypeRefView>,
                    NominalIdentifier,
                >(references_view(arguments@.take(0))) by {
                    assert(arguments@.take(0) =~= Seq::<TypeReference>::empty());
                }
            }
            while i < arguments.len()
                invariant
                    i <= arguments@.len(),
                    out@.len() == i,
                    h.grew(&h1),
                    h1.grew(&h0),
                    *r == (TypeReference::Application { head: *head, arguments: *arguments }),
                    forall|t: Rows| #[trigger] h.fit(t) ==> project_references(t, out@) == Ok::<
                        Seq<crate::reference::TypeRefView>,
                        NominalIdentifier,
                    >(references_view(arguments@.take(i as int))),
                decreases arguments@.len() - i,
            {
                proof {
                    vstd::std_specs::vec::axiom_vec_index_decreases(*arguments, i as int);
                    assert(decreases_to!(*r => r->arguments));
                }
                let ghost prev = *h;
                let ghost before = out@;
                let c = decompose_reference(h, &arguments[i]);
                out.push(c);
                proof {
                    lemma_fit_shrinks(&prev, h);
                    lemma_grew_trans(&h1, &prev, h);
                    assert forall|t: Rows| #[trigger] h.fit(t) implies project_references(t, out@) == Ok::<
                        Seq<crate::reference::TypeRefView>,
                        NominalIdentifier,
                    >(references_view(arguments@.take(i + 1))) by {
                        assert(prev.fit(t));
                        assert(out@.drop_last() =~= before);
                        assert(out@[out@.len() - 1] == c);
                        let a = arguments@.take(i + 1);
                        assert(a.drop_last() =~= arguments@.take(i as int));
                        assert(a.last() == arguments@[i as int]);
                    }
                }
                i = i + 1;
            }
            proof {
                assert(arguments@.take(i as int) =~= arguments@);
                lemma_fit_shrinks(&h1, h);
                lemma_grew_trans(&h0, &h1, h);
            }
            CoreReference::Application { head: ch, arguments: out }
        },
    }
}

/// The name-free form of an application head; an imported head carries
/// its frame across.
fn decompose_head(h: &mut Harvest, head: &ApplicationHead) -> (c: CoreApplicationHead)
    requires
        old(h).wf(),
    ensures
        final(h).grew(&*old(h)),
        forall|t: Rows| #[trigger] final(h).fit(t) ==> project_head(t, c) == Ok::<
            crate::reference::HeadView,
            NominalIdentifier,
        >(head@),
    decreases head,
{
    match head {
        ApplicationHead::Local(name) => {
            let id = declare(h, name);
            CoreApplicationHead::Local(id)
        },
        ApplicationHead::Imported(import) => {
            let ghost h0 = *h;
            let id = declare(h, &import.local_name);
            let ghost h1 = *h;
            let parameters = decompose_members(h, DeclarationKind::Generic, &id, import.parameters.as_slice());
            let ghost h2 = *h;
            proof {
                lemma_fit_shrinks(&h1, &h2);
                lemma_fit_shrinks(&h0, &h1);
                lemma_grew_trans(&h0, &h1, &h2);
                lemma_grew_refl(h);
            }
            let mut variants: Vec<CoreVariant> = Vec::new();
            let mut i: usize = 0;
            proof {
                assert forall|t: Rows| #[trigger] h.fit(t) implies project_variants(t, variants@) == Ok::<
                    Seq<VariantView>,
                    NominalIdentifier,
                >(variants_view(import.variants@.take(0))) by {
                    assert(import.variants@.take(0) =~= Seq::<EnumVariant>::empty());
                    assert(variants_view(Seq::<EnumVariant>::empty()) =~= Seq::<VariantView>::empty());
                }
            }
            while i < import.variants.len()
                invariant
                    i <= import.variants@.len(),
                    variants@.len() == i,
                    h.grew(&h2),
                    *head == ApplicationHead::Imported(*import),
                    forall|t: Rows| #[trigger] h.fit(t) ==> project_variants(t, variants@) == Ok::<
                        Seq<VariantView>,
                        NominalIdentifier,
                    >(variants_view(import.variants@.take(i as int))),
                decreases import.variants@.len() - i,
            {
                proof {
                    vstd::std_specs::vec::axiom_vec_index_decreases(import.variants, i as int);
                    assert(decreases_to!(*head => head->Imported_0));
                    assert(decreases_to!(head->Imported_0 => head->Imported_0.variants));
                }
                let ghost prev = *h;
                let ghost before = variants@;
                let v = decompose_variant(h, &id, &import.variants[i]);
                variants.push(v);
                proof {
                    lemma_fit_shrinks(&prev, h);
                    lemma_grew_trans(&h2, &prev, h);
                    assert forall|t: Rows| #[trigger] h.fit(t) implies project_variants(t, variants@) == Ok::<
                        Seq<VariantView>,
                        NominalIdentifier,
                    >(variants_view(import.variants@.take(i + 1))) by {
                        assert(prev.fit(t));
                        assert(variants@.drop_last() =~= before);
                        assert(variants@[variants@.len() - 1] == v);
                        assert(variants_view(import.variants@.take(i + 1)) =~= variants_view(
                            import.variants@.take(i as int),
                        ).push(import.variants@[i as int]@));
                    }
                }
                i = i + 1;
            }
            let parameter_count: Option<u64> = match import.parameter_count {
                Some(count) => Some(count as u64),
                None => None,
            };
            let c = CoreResolvedImport {
                identifier: id,
                source: import.source.clone(),
                parameter_count,
                parameters,
                variants,
            };
            proof {
                assert(import.variants@.take(i as int) =~= import.variants@);
                lemma_frame_variants_view(import.variants@);
                lemma_fit_shrinks(&h2, h);
                lemma_grew_trans(&h0, &h2, h);
                assert forall|t: Rows| #[trigger] h.fit(t) implies project_head(t, CoreApplicationHead::Imported(c)) == Ok::<
                    crate::reference::HeadView,
                    NominalIdentifier,
                >(head@) by {
                    assert(h2.fit(t));
                    assert(h1.fit(t));
                    assert(project_resolved(t, c) == Ok::<crate::views::ResolvedView, NominalIdentifier>(imported_view(*import)));
                }
            }
            CoreApplicationHead::Imported(c)
        },
    }
}

/// The name-free form of a variant under its owner.
fn decompose_variant(h: &mut Harvest, owner: &NominalIdentifier, v: &EnumVariant) -> (c: CoreVariant)
    requires
        old(h).wf(),
    ensures
        final(h).grew(&*old(h)),
        forall|t: Rows| #[trigger] final(h).fit(t) ==> project_variant(t, c) == Ok::<VariantView, NominalIdentifier>(v@),
    decreases v,
{
    let ghost h0 = *h;
    let id = declare_member(h, DeclarationKind::Variant, owner, &v.name);
    let ghost h1 = *h;
    let payload = match &v.payload {
        Some(p) => {
            proof {
                assert(decreases_to!(*v => v.payload));
            }
            Some(decompose_reference(h, p))
        },
        None => None,
    };
    let ghost h2 = *h;
    proof {
        lemma_grew_refl(h);
    }
    let stream_relation = match &v.stream_relation {
        Some(StreamRelation::Opens(name)) => Some(CoreStreamRelation::Opens(declare(h, name))),
        Some(StreamRelation::Belongs(name)) => Some(CoreStreamRelation::Belongs(declare(h, name))),
        None => None,
    };
    proof {
        lemma_grew_refl(&h1);
        lemma_grew_refl(&h2);
        lemma_fit_shrinks(&h0, &h1);
        lemma_fit_shrinks(&h1, &h2);
        lemma_fit_shrinks(&h2, h);
        lemma_grew_trans(&h0, &h1, &h2);
        lemma_grew_trans(&h0, &h2, h);
    }
    CoreVariant { identifier: id, payload, stream_relation }
}

/// The variants of an owner.
fn decompose_variants(h: &mut Harvest, owner: &NominalIdentifier, vs: &[EnumVariant]) -> (r: Vec<CoreVariant>)
    requires
        old(h).wf(),
    ensures
        final(h).grew(&*old(h)),
        forall|t: Rows| #[trigger] final(h).fit(t) ==> project_variants(t, r@) == Ok::<
            Seq<VariantView>,
            NominalIdentifier,
        >(variants_view(vs@)),
{
    let mut out: Vec<CoreVariant> = Vec::new();
    let mut i: usize = 0;
    proof {
        lemma_grew_refl(h);
        assert forall|t: Rows| #[trigger] h.fit(t) implies project_variants(t, out@) == Ok::<
            Seq<VariantView>,
            NominalIdentifier,
        >(variants_view(vs@.take(0))) by {
            assert(variants_view(vs@.take(0)) =~= Seq::<VariantView>::empty());
        }
    }
    while i < vs.len()
        invariant
            i <= vs@.len(),
            out@.len() == i,
            h.grew(&*old(h)),
            forall|t: Rows| #[trigger] h.fit(t) ==> project_variants(t, out@) == Ok::<
                Seq<VariantView>,
                NominalIdentifier,
            >(variants_view(vs@.take(i as int))),
        decreases vs@.len() - i,
    {
        let ghost prev = *h;
        let ghost before = out@;
        let v = decompose_variant(h, owner, &vs[i]);
        out.push(v);
        proof {
            lemma_fit_shrinks(&prev, h);
            lemma_grew_trans(&*old(h), &prev, h);
            assert forall|t: Rows| #[trigger] h.fit(t) implies project_variants(t, out@) == Ok::<
                Seq<VariantView>,
                NominalIdentifier,
            >(variants_view(vs@.take(i + 1))) by {
                assert(prev.fit(t));
                assert(out@.drop_last() =~= before);
                assert(out@[out@.len() - 1] == v);
                assert(variants_view(vs@.take(i + 1)) =~= variants_view(vs@.take(i as int)).push(vs@[i as int]@));
            }
        }
        i = i + 1;
    }
    proof {
        assert(vs@.take(i as int) =~= vs@);
    }
    out
}

/// The name-free form of an enum.
fn decompose_enum(h: &mut Harvest, e: &EnumDeclaration) -> (c: CoreEnum)
    requires
        old(h).wf(),
    ensures
        final(h).grew(&*old(h)),
        forall|t: Rows| #[trigger] final(h).fit(t) ==> project_enum(t, c) == Ok::<EnumView, NominalIdentifier>(e@),
{
    let ghost h0 = *h;
    let id = declare(h, &e.name);
    let ghost h1 = *h;
    let variants = decompose_variants(h, &id, e.variants.as_slice());
    proof {
        lemma_fit_shrinks(&h1, h);
        lemma_grew_trans(&h0, &h1, h);
    }
    CoreEnum { identifier: id, variants }
}

/// Hold a field whose name is its derived name: it carries no row.
fn add_derived(h: &mut Harvest, id: NominalIdentifier, name: &Name)
    requires
        old(h).wf(),
        id.spec_kind() == DeclarationKind::Field,
    ensures
        final(h).grew(&*old(h)),
        final(h).spec_derived().contains((id, name@)),
{
    let ghost before = h.spec_derived();
    h.derived.push(NameEntry::new(id, name.clone()));
    proof {
        assert(h.spec_derived() =~= before.push((id, name@)));
        assert(h.spec_derived()[before.len() as int] == (id, name@));
    }
}

/// The name-free form of a field under its owner. A field named as its
/// type derives carries no row; any other field's name is held.
fn decompose_field(h: &mut Harvest, owner: &NominalIdentifier, f: &FieldDeclaration) -> (c: CoreField)
    requires
        old(h).wf(),
    ensures
        final(h).grew(&*old(h)),
        forall|t: Rows| #[trigger] final(h).fit(t) ==> project_field(t, c) == Ok::<
            (Seq<char>, crate::reference::TypeRefView),
            NominalIdentifier,
        >(f@),
{
    let ghost h0 = *h;
    let derived = f.reference.derived_field_name();
    let id = if f.name == derived {
        let id = NominalIdentifier::mint_member(DeclarationKind::Field, owner, f.name.as_str());
        add_derived(h, id, &f.name);
        proof {
            assert forall|t: Rows| #[trigger] h.fit(t) implies keeps_derived(t, (id, f.name@)) by {
                let k = choose|k: int| 0 <= k < h.spec_derived().len() && h.spec_derived()[k] == (id, f.name@);
                assert(keeps_derived(t, h.spec_derived()[k]));
            }
        }
        id
    } else {
        declare_member(h, DeclarationKind::Field, owner, &f.name)
    };
    let ghost h1 = *h;
    let reference = decompose_reference(h, &f.reference);
    proof {
        lemma_fit_shrinks(&h1, h);
        lemma_grew_trans(&h0, &h1, h);
        assert forall|t: Rows| #[trigger] h.fit(t) implies project_field(t, CoreField { identifier: id, reference })
            == Ok::<(Seq<char>, crate::reference::TypeRefView), NominalIdentifier>(f@) by {
            assert(h1.fit(t));
            if f.name@ == derived@ {
                assert(keeps_derived(t, (id, f.name@)));
            } else {
                crate::lookup::lemma_first_match(t, holds_identifier(id));
            }
        }
    }
    CoreField { identifier: id, reference }
}

/// The name-free form of a struct.
fn decompose_struct(h: &mut Harvest, d: &StructDeclaration) -> (c: CoreStruct)
    requires
        old(h).wf(),
    ensures
        final(h).grew(&*old(h)),
        forall|t: Rows| #[trigger] final(h).fit(t) ==> project_type(t, CoreType::Struct(c)) == Ok::<
            TypeDeclView,
            NominalIdentifier,
        >(type_view(TypeDeclaration::Struct(*d))),
{
    let ghost h0 = *h;
    let id = declare(h, &d.name);
    let ghost h1 = *h;
    let fields = d.fields.entries();
    proof {
        d.fields.lemma_view();
        lemma_grew_refl(h);
    }
    let mut out: Vec<CoreField> = Vec::new();
    let mut i: usize = 0;
    proof {
        assert forall|t: Rows| #[trigger] h.fit(t) implies project_fields(t, out@) == Ok::<
            Seq<(Seq<char>, crate::reference::TypeRefView)>,
            NominalIdentifier,
        >(fields_view(fields@.take(0))) by {
            assert(fields_view(fields@.take(0)) =~= Seq::<(Seq<char>, crate::reference::TypeRefView)>::empty());
        }
    }
    while i < fields.len()
        invariant
            i <= fields@.len(),
            out@.len() == i,
            h.grew(&h1),
            forall|t: Rows| #[trigger] h.fit(t) ==> project_fields(t, out@) == Ok::<
                Seq<(Seq<char>, crate::reference::TypeRefView)>,
                NominalIdentifier,
            >(fields_view(fields@.take(i as int))),
        decreases fields@.len() - i,
    {
        let ghost prev = *h;
        let ghost before = out@;
        let c = decompose_field(h, &id, &fields[i]);
        out.push(c);
        proof {
            lemma_fit_shrinks(&prev, h);
            lemma_grew_trans(&h1, &prev, h);
            assert forall|t: Rows| #[trigger] h.fit(t) implies project_fields(t, out@) == Ok::<
                Seq<(Seq<char>, crate::reference::TypeRefView)>,
                NominalIdentifier,
            >(fields_view(fields@.take(i + 1))) by {
                assert(prev.fit(t));
                assert(out@.drop_last() =~= before);
                assert(out@[out@.len() - 1] == c);
                assert(fields_view(fields@.take(i + 1)) =~= fields_view(fields@.take(i as int)).push(fields@[i as int]@));
            }
        }
        i = i + 1;
    }
    proof {
        assert(fields@.take(i as int) =~= fields@);
        lemma_fit_shrinks(&h1, h);
        lemma_grew_trans(&h0, &h1, h);
    }
    CoreStruct { identifier: id, fields: out }
}

/// The name-free form of a declaration's body.
fn decompose_type(h: &mut Harvest, v: &TypeDeclaration) -> (c: CoreType)
    requires
        old(h).wf(),
    ensures
        final(h).grew(&*old(h)),
        forall|t: Rows| #[trigger] final(h).fit(t) ==> project_type(t, c) == Ok::<TypeDeclView, NominalIdentifier>(type_view(*v)),
{
    match v {
        TypeDeclaration::Struct(d) => CoreType::Struct(decompose_struct(h, d)),
        TypeDeclaration::Enum(e) => CoreType::Enum(decompose_enum(h, e)),
        TypeDeclaration::Newtype(n) => {
            let ghost h0 = *h;
            let id = declare(h, &n.name);
            let ghost h1 = *h;
            let reference = decompose_reference(h, &n.reference);
            proof {
                lemma_fit_shrinks(&h1, h);
                lemma_grew_trans(&h0, &h1, h);
            }
            CoreType::Newtype(CoreNewtype { identifier: id, reference })
        },
    }
}

/// The name-free form of a namespace declaration: its type parameters are
/// members of the declaration.
fn decompose_declaration(h: &mut Harvest, d: &Declaration) -> (c: CoreDeclaration)
    requires
        old(h).wf(),
    ensures
        final(h).grew(&*old(h)),
        forall|t: Rows| #[trigger] final(h).fit(t) ==> project_declaration(t, c) == Ok::<
            DeclarationView,
            NominalIdentifier,
        >(declaration_view(*d)),
{
    let ghost h0 = *h;
    let owner = declare(h, d.name());
    let ghost h1 = *h;
    let parameters = decompose_members(h, DeclarationKind::Generic, &owner, d.parameters());
    let ghost h2 = *h;
    let value = decompose_type(h, d.value());
    let impls = copy_catalog(d.impls());
    let visibility = d.visibility();
    proof {
        lemma_fit_shrinks(&h1, &h2);
        lemma_fit_shrinks(&h2, h);
        lemma_grew_trans(&h0, &h1, &h2);
        lemma_grew_trans(&h0, &h2, h);
        assert forall|t: Rows| #[trigger] h.fit(t) implies project_declaration(
            t,
            CoreDeclaration { visibility, parameters, value, impls },
        ) == Ok::<DeclarationView, NominalIdentifier>(declaration_view(*d)) by {
            assert(h2.fit(t));
            match d.spec_value() {
                TypeDeclaration::Struct(x) => {},
                TypeDeclaration::Enum(x) => {},
                TypeDeclaration::Newtype(x) => {},
            }
        }
    }
    CoreDeclaration { visibility, parameters, value, impls }
}

/// The name-free form of a root position.
fn decompose_root(h: &mut Harvest, r: &Root) -> (c: CoreRoot)
    requires
        old(h).wf(),
    ensures
        final(h).grew(&*old(h)),
        forall|t: Rows| #[trigger] final(h).fit(t) ==> project_root(t, c) == Ok::<RootView, NominalIdentifier>(root_view(*r)),
{
    match r {
        Root::Enum(e) => CoreRoot::Enum(decompose_enum(h, e)),
        Root::Application(a) => {
            let ghost h0 = *h;
            let id = declare(h, a.name());
            let ghost h1 = *h;
            let head = decompose_head(h, a.head());
            let ghost h2 = *h;
            let arguments = decompose_references(h, a.arguments());
            proof {
                lemma_fit_shrinks(&h1, &h2);
                lemma_fit_shrinks(&h2, h);
                lemma_grew_trans(&h0, &h1, &h2);
                lemma_grew_trans(&h0, &h2, h);
            }
            CoreRoot::Application(Box::new(CoreRootApplication { identifier: id, head, arguments }))
        },
    }
}

/// The name-free forms of several references.
fn decompose_references(h: &mut Harvest, rs: &[TypeReference]) -> (r: Vec<CoreReference>)
    requires
        old(h).wf(),
    ensures
        final(h).grew(&*old(h)),
        forall|t: Rows| #[trigger] final(h).fit(t) ==> project_references(t, r@) == Ok::<
            Seq<crate::reference::TypeRefView>,
            NominalIdentifier,
        >(references_view(rs@)),
{
    let mut out: Vec<CoreReference> = Vec::new();
    let mut i: usize = 0;
    proof {
        lemma_grew_refl(h);
        assert forall|t: Rows| #[trigger] h.fit(t) implies project_references(t, out@) == Ok::<
            Seq<crate::reference::TypeRefView>,
            NominalIdentifier,
        >(references_view(rs@.take(0))) by {
            assert(rs@.take(0) =~= Seq::<TypeReference>::empty());
        }
    }
    while i < rs.len()
        invariant
            i <= rs@.len(),
            out@.len() == i,
            h.grew(&*old(h)),
            forall|t: Rows| #[trigger] h.fit(t) ==> project_references(t, out@) == Ok::<
                Seq<crate::reference::TypeRefView>,
                NominalIdentifier,
            >(references_view(rs@.take(i as int))),
        decreases rs@.len() - i,
    {
        let ghost prev = *h;
        let ghost before = out@;
        let c = decompose_reference(h, &rs[i]);
        out.push(c);
        proof {
            lemma_fit_shrinks(&prev, h);
            lemma_grew_trans(&*old(h), &prev, h);
            assert forall|t: Rows| #[trigger] h.fit(t) implies project_references(t, out@) == Ok::<
                Seq<crate::reference::TypeRefView>,
                NominalIdentifier,
            >(references_view(rs@.take(i + 1))) by {
                assert(prev.fit(t));
                assert(out@.drop_last() =~= before);
                assert(out@[out@.len() - 1] == c);
                let a = rs@.take(i + 1);
                assert(a.drop_last() =~= rs@.take(i as int));
                assert(a.last() == rs@[i as int]);
            }
        }
        i = i + 1;
    }
    proof {
        assert(rs@.take(i as int) =~= rs@);
    }
    out
}

/// The name-free form of a resolved import: its frame's binders and
/// variants are members of the import.
fn decompose_resolved(h: &mut Harvest, i: &ResolvedImport) -> (c: CoreResolvedImport)
    requires
        old(h).wf(),
    ensures
        final(h).grew(&*old(h)),
        forall|t: Rows| #[trigger] final(h).fit(t) ==> project_resolved(t, c) == Ok::<ResolvedView, NominalIdentifier>(resolved_view(*i)),
{
    let ghost h0 = *h;
    let id = declare(h, i.local_name());
    let ghost h1 = *h;
    let parameters = decompose_members(h, DeclarationKind::Generic, &id, i.parameters());
    let ghost h2 = *h;
    let variants = decompose_variants(h, &id, i.variants());
    let parameter_count: Option<u64> = match i.parameter_count() {
        Some(count) => Some(count as u64),
        None => None,
    };
    proof {
        lemma_fit_shrinks(&h1, &h2);
        lemma_fit_shrinks(&h2, h);
        lemma_fit_shrinks(&h0, &h1);
        lemma_grew_trans(&h0, &h1, &h2);
        lemma_grew_trans(&h0, &h2, h);
    }
    CoreResolvedImport { identifier: id, source: i.source().clone(), parameter_count, parameters, variants }
}

/// The name-free form of a stream.
fn decompose_stream(h: &mut Harvest, x: &StreamDeclaration) -> (c: CoreStream)
    requires
        old(h).wf(),
    ensures
        final(h).grew(&*old(h)),
        forall|t: Rows| #[trigger] final(h).fit(t) ==> project_stream(t, c) == Ok::<StreamView, NominalIdentifier>(stream_view(*x)),
{
    let ghost h0 = *h;
    let id = declare(h, &x.name);
    let ghost h1 = *h;
    let token = decompose_reference(h, &x.token);
    let ghost h2 = *h;
    let opened = decompose_reference(h, &x.opened);
    let ghost h3 = *h;
    let event = decompose_reference(h, &x.event);
    let ghost h4 = *h;
    let close = decompose_reference(h, &x.close);
    proof {
        lemma_fit_shrinks(&h1, &h2);
        lemma_fit_shrinks(&h2, &h3);
        lemma_fit_shrinks(&h3, &h4);
        lemma_fit_shrinks(&h4, h);
        lemma_grew_trans(&h0, &h1, &h2);
        lemma_grew_trans(&h0, &h2, &h3);
        lemma_grew_trans(&h0, &h3, &h4);
        lemma_grew_trans(&h0, &h4, h);
    }
    CoreStream { identifier: id, token, opened, event, close }
}

/// The name-free form of a family.
fn decompose_family(h: &mut Harvest, f: &FamilyDeclaration) -> (c: CoreFamily)
    requires
        old(h).wf(),
    ensures
        final(h).grew(&*old(h)),
        forall|t: Rows| #[trigger] final(h).fit(t) ==> project_family(t, c) == Ok::<FamilyView, NominalIdentifier>(family_view(*f)),
{
    let ghost h0 = *h;
    let id = declare(h, &f.name);
    let ghost h1 = *h;
    let record = declare(h, &f.record);
    proof {
        lemma_fit_shrinks(&h1, h);
        lemma_grew_trans(&h0, &h1, h);
    }
    CoreFamily { identifier: id, record, table: f.table.clone(), key: f.key }
}

/// The name-free form of an impl block.
fn decompose_block(h: &mut Harvest, b: &ImplBlock) -> (c: CoreImplBlock)
    requires
        old(h).wf(),
    ensures
        final(h).grew(&*old(h)),
        forall|t: Rows| #[trigger] final(h).fit(t) ==> project_block(t, c) == Ok::<
            (Seq<char>, Seq<crate::impls::ImplRefView>),
            NominalIdentifier,
        >(block_view(*b)),
{
    let target = declare(h, b.target());
    CoreImplBlock { target, catalog: copy_catalog(b.catalog()) }
}

// ---------------------------------------------------------------- relation paths
/// Where a relation path's walk stands: at the top, inside an enum or a
/// struct, or past anything it can name further.
pub enum Cursor {
    Top,
    Enum(EnumDeclaration),
    Struct(StructDeclaration),
    Lost,
}

/// Where a reference leads a relation walk: a plain name of a struct or
/// enum into that declaration, through newtypes to what they wrap (at most
/// `fuel` of them); anything else ends the walk.
pub open spec fn follow_reference(s: TrueSchema, r: TypeReference, fuel: nat) -> Cursor
    decreases fuel,
{
    match r {
        TypeReference::Plain(n) => match s.spec_type_named(n@) {
            Some(TypeDeclaration::Struct(d)) => Cursor::Struct(d),
            Some(TypeDeclaration::Enum(e)) => Cursor::Enum(e),
            Some(TypeDeclaration::Newtype(x)) => if fuel == 0 {
                Cursor::Lost
            } else {
                follow_reference(s, x.reference, (fuel - 1) as nat)
            },
            None => Cursor::Lost,
        },
        _ => Cursor::Lost,
    }
}

/// A chain of newtypes longer than the namespace comes back to itself; the
/// walk gives up on it there.
pub open spec fn cursor_of_reference(s: TrueSchema, r: TypeReference) -> Cursor {
    follow_reference(s, r, s.spec_namespace().len())
}

pub open spec fn cursor_of_type(s: TrueSchema, t: TypeDeclaration) -> Cursor {
    match t {
        TypeDeclaration::Struct(d) => Cursor::Struct(d),
        TypeDeclaration::Enum(e) => Cursor::Enum(e),
        TypeDeclaration::Newtype(x) => cursor_of_reference(s, x.reference),
    }
}

pub open spec fn has_variant(e: EnumDeclaration, name: Seq<char>) -> bool {
    first_match(e.variants@, variant_spelled(name)) is Some
}

pub open spec fn enum_with_variant(name: Seq<char>) -> spec_fn(Declaration) -> bool {
    |d: Declaration| d.spec_value() matches TypeDeclaration::Enum(e) && has_variant(e, name)
}

/// The enum a first segment names a variant of: the input root's, the
/// output root's, then each namespace enum's, in that order.
pub open spec fn enum_scope(s: TrueSchema, name: Seq<char>) -> Option<EnumDeclaration> {
    if s.spec_input() matches Root::Enum(e) && has_variant(e, name) {
        Some(s.spec_input()->Enum_0)
    } else if s.spec_output() matches Root::Enum(e) && has_variant(e, name) {
        Some(s.spec_output()->Enum_0)
    } else {
        match first_match(s.spec_namespace(), enum_with_variant(name)) {
            Some(k) => Some(s.spec_namespace()[k].spec_value()->Enum_0),
            None => None,
        }
    }
}

/// Where a variant segment leads: into its payload's declaration.
pub open spec fn variant_next(s: TrueSchema, e: EnumDeclaration, name: Seq<char>) -> Option<Cursor> {
    match first_match(e.variants@, variant_spelled(name)) {
        Some(k) => Some(
            match e.variants@[k].payload {
                Some(p) => cursor_of_reference(s, p),
                None => Cursor::Lost,
            },
        ),
        None => None,
    }
}

/// One segment of a relation path: what it names from where the walk
/// stands, and where the walk goes on; `None` when it names nothing.
pub open spec fn segment_next(s: TrueSchema, c: Cursor, name: Seq<char>) -> Option<Cursor> {
    match c {
        Cursor::Top => match s.spec_type_named(name) {
            Some(t) => Some(cursor_of_type(s, t)),
            None => match enum_scope(s, name) {
                Some(e) => variant_next(s, e, name),
                None => if first_match(s.spec_resolved_imports(), resolved_spelled(name)) is Some {
                    Some(Cursor::Lost)
                } else {
                    None
                },
            },
        },
        Cursor::Enum(e) => variant_next(s, e, name),
        Cursor::Struct(d) => match first_match(d.fields.spec_entries(), field_spelled(name)) {
            Some(k) => Some(cursor_of_reference(s, d.fields.spec_entries()[k].reference)),
            None => None,
        },
        Cursor::Lost => None,
    }
}

/// A relation path walked from the top: where it ends, or its first
/// segment that names nothing.
pub open spec fn walk_path(s: TrueSchema, path: Seq<Name>) -> Result<Cursor, Seq<char>>
    decreases path.len(),
{
    if path.len() == 0 {
        Ok(Cursor::Top)
    } else {
        match walk_path(s, path.drop_last()) {
            Err(x) => Err(x),
            Ok(c) => match segment_next(s, c, path.last()@) {
                Some(next) => Ok(next),
                None => Err(path.last()@),
            },
        }
    }
}

/// The first segment, over relation values in order, that names nothing.
pub open spec fn values_failure(s: TrueSchema, vs: Seq<RelationValue>) -> Option<Seq<char>>
    decreases vs.len(),
{
    if vs.len() == 0 {
        None
    } else {
        match values_failure(s, vs.drop_last()) {
            Some(x) => Some(x),
            None => match walk_path(s, vs.last().spec_path()) {
                Err(x) => Some(x),
                Ok(_) => None,
            },
        }
    }
}

/// The first segment, over the schema's relations in order, that names
/// nothing.
pub open spec fn relations_failure(s: TrueSchema, rs: Seq<RelationDeclaration>) -> Option<Seq<char>>
    decreases rs.len(),
{
    if rs.len() == 0 {
        None
    } else {
        match relations_failure(s, rs.drop_last()) {
            Some(x) => Some(x),
            None => values_failure(s, rs.last()->Equivalence_0@),
        }
    }
}

enum RelationCursor<'t> {
    Top,
    Enum(&'t EnumDeclaration),
    Struct(&'t StructDeclaration),
    Lost,
}

spec fn cursor_view(c: RelationCursor) -> Cursor {
    match c {
        RelationCursor::Top => Cursor::Top,
        RelationCursor::Enum(e) => Cursor::Enum(*e),
        RelationCursor::Struct(d) => Cursor::Struct(*d),
        RelationCursor::Lost => Cursor::Lost,
    }
}

fn follow_exec<'t>(s: &'t TrueSchema, r: &TypeReference, fuel: usize) -> (c: RelationCursor<'t>)
    ensures
        cursor_view(c) == follow_reference(*s, *r, fuel as nat),
    decreases fuel,
{
    match r {
        TypeReference::Plain(n) => match s.type_named(n.as_str()) {
            Some(TypeDeclaration::Struct(d)) => RelationCursor::Struct(d),
            Some(TypeDeclaration::Enum(e)) => RelationCursor::Enum(e),
            Some(TypeDeclaration::Newtype(x)) => if fuel == 0 {
                RelationCursor::Lost
            } else {
                follow_exec(s, &x.reference, fuel - 1)
            },
            None => RelationCursor::Lost,
        },
        _ => RelationCursor::Lost,
    }
}

fn cursor_of_reference_exec<'t>(s: &'t TrueSchema, r: &TypeReference) -> (c: RelationCursor<'t>)
    ensures
        cursor_view(c) == cursor_of_reference(*s, *r),
{
    follow_exec(s, r, s.namespace().len())
}

/// A variant segment inside an enum: the variant's identifier under the
/// enum, and where its payload leads.
fn variant_segment<'t>(h: &mut Harvest, s: &'t TrueSchema, e: &'t EnumDeclaration, name: &Name) -> (r: Option<(NominalIdentifier, RelationCursor<'t>)>)
    requires
        old(h).wf(),
    ensures
        final(h).grew(&*old(h)),
        r is None <==> variant_next(*s, *e, name@) is None,
        r matches Some((id, c)) ==> Some(cursor_view(c)) == variant_next(*s, *e, name@) && forall|t: Rows|
            #[trigger] final(h).fit(t) ==> projected_name(t, id) == Ok::<Seq<char>, NominalIdentifier>(name@),
{
    proof {
        lemma_grew_refl(h);
    }
    match e.variant_named(name.as_str()) {
        Some(variant) => {
            proof {
                crate::lookup::lemma_first_match(e.variants@, variant_spelled(name@));
            }
            let ghost h0 = *h;
            let owner = declare(h, &e.name);
            let ghost h1 = *h;
            let id = declare_member(h, DeclarationKind::Variant, &owner, &variant.name);
            proof {
                lemma_grew_trans(&h0, &h1, h);
            }
            let next = match &variant.payload {
                Some(p) => cursor_of_reference_exec(s, p),
                None => RelationCursor::Lost,
            };
            Some((id, next))
        },
        None => None,
    }
}

/// One segment of a relation path, walked from where the cursor stands.
fn resolve_segment<'t>(h: &mut Harvest, s: &'t TrueSchema, cursor: RelationCursor<'t>, name: &Name) -> (r: Option<(NominalIdentifier, RelationCursor<'t>)>)
    requires
        old(h).wf(),
    ensures
        final(h).grew(&*old(h)),
        r is None <==> segment_next(*s, cursor_view(cursor), name@) is None,
        r matches Some((id, c)) ==> Some(cursor_view(c)) == segment_next(*s, cursor_view(cursor), name@)
            && forall|t: Rows| #[trigger] final(h).fit(t) ==> projected_name(t, id) == Ok::<
            Seq<char>,
            NominalIdentifier,
        >(name@),
{
    proof {
        lemma_grew_refl(h);
    }
    match cursor {
        RelationCursor::Top => {
            if let Some(t) = s.type_named(name.as_str()) {
                proof {
                    crate::lookup::lemma_first_match(
                        s.spec_namespace(),
                        crate::true_schema::declaration_spelled(name@),
                    );
                }
                let id = declare(h, name);
                let next = match t {
                    TypeDeclaration::Struct(d) => RelationCursor::Struct(d),
                    TypeDeclaration::Enum(e) => RelationCursor::Enum(e),
                    TypeDeclaration::Newtype(x) => cursor_of_reference_exec(s, &x.reference),
                };
                return Some((id, next));
            }
            if let Some(e) = s.input().as_enum() {
                if e.variant_named(name.as_str()).is_some() {
                    return variant_segment(h, s, e, name);
                }
            }
            if let Some(e) = s.output().as_enum() {
                if e.variant_named(name.as_str()).is_some() {
                    return variant_segment(h, s, e, name);
                }
            }
            let ghost top_missed = s.spec_type_named(name@) is None && !(s.spec_input() matches Root::Enum(e)
                && has_variant(e, name@)) && !(s.spec_output() matches Root::Enum(e) && has_variant(e, name@));
            assert(top_missed);
            let namespace = s.namespace();
            let mut i: usize = 0;
            while i < namespace.len()
                invariant
                    i <= namespace@.len(),
                    namespace@ == s.spec_namespace(),
                    *h == *old(h),
                    h.wf(),
                    top_missed,
                    top_missed == (s.spec_type_named(name@) is None && !(s.spec_input() matches Root::Enum(e)
                        && has_variant(e, name@)) && !(s.spec_output() matches Root::Enum(e) && has_variant(e, name@))),
                    cursor is Top,
                    forall|k: int| 0 <= k < i ==> !#[trigger] enum_with_variant(name@)(namespace@[k]),
                decreases namespace@.len() - i,
            {
                if let TypeDeclaration::Enum(e) = namespace[i].value() {
                    if e.variant_named(name.as_str()).is_some() {
                        proof {
                            assert(enum_with_variant(name@)(namespace@[i as int]));
                            crate::lookup::lemma_first_match_at(namespace@, enum_with_variant(name@), i as int);
                        }
                        return variant_segment(h, s, e, name);
                    }
                }
                i = i + 1;
            }
            proof {
                crate::lookup::lemma_first_match_none(namespace@, enum_with_variant(name@));
            }
            let imports = s.resolved_imports();
            let mut j: usize = 0;
            while j < imports.len()
                invariant
                    j <= imports@.len(),
                    imports@ == s.spec_resolved_imports(),
                    *h == *old(h),
                    h.wf(),
                    top_missed,
                    top_missed == (s.spec_type_named(name@) is None && !(s.spec_input() matches Root::Enum(e)
                        && has_variant(e, name@)) && !(s.spec_output() matches Root::Enum(e) && has_variant(e, name@))),
                    cursor is Top,
                    first_match(s.spec_namespace(), enum_with_variant(name@)) is None,
                    forall|k: int| 0 <= k < j ==> !#[trigger] resolved_spelled(name@)(imports@[k]),
                decreases imports@.len() - j,
            {
                if imports[j].local_name() == name {
                    proof {
                        crate::lookup::lemma_first_match_at(imports@, resolved_spelled(name@), j as int);
                    }
                    let id = declare(h, name);
                    return Some((id, RelationCursor::Lost));
                }
                j = j + 1;
            }
            proof {
                crate::lookup::lemma_first_match_none(imports@, resolved_spelled(name@));
            }
            None
        },
        RelationCursor::Enum(e) => variant_segment(h, s, e, name),
        RelationCursor::Struct(d) => match d.fields.field_named(name.as_str()) {
            Some(field) => {
                proof {
                    crate::lookup::lemma_first_match(d.fields.spec_entries(), field_spelled(name@));
                }
                let ghost h0 = *h;
                let owner = declare(h, &d.name);
                let ghost h1 = *h;
                let id = declare_member(h, DeclarationKind::Field, &owner, &field.name);
                proof {
                    lemma_grew_trans(&h0, &h1, h);
                }
                Some((id, cursor_of_reference_exec(s, &field.reference)))
            },
            None => None,
        },
        RelationCursor::Lost => None,
    }
}

/// The error that reports a segment naming nothing.
pub open spec fn reports_segment(e: SchemaError, segment: Seq<char>) -> bool {
    e matches SchemaError::RelationSegmentUnresolved { segment: x } && x@ == segment
}

proof fn lemma_values_failure_prefix(s: TrueSchema, vs: Seq<RelationValue>, k: int)
    requires
        0 <= k <= vs.len(),
        values_failure(s, vs.take(k)) is Some,
    ensures
        values_failure(s, vs) == values_failure(s, vs.take(k)),
    decreases vs.len(),
{
    if k == vs.len() {
        assert(vs.take(k) =~= vs);
    } else {
        assert(vs.drop_last().take(k) =~= vs.take(k));
        lemma_values_failure_prefix(s, vs.drop_last(), k);
    }
}

proof fn lemma_relations_failure_prefix(s: TrueSchema, rs: Seq<RelationDeclaration>, k: int)
    requires
        0 <= k <= rs.len(),
        relations_failure(s, rs.take(k)) is Some,
    ensures
        relations_failure(s, rs) == relations_failure(s, rs.take(k)),
    decreases rs.len(),
{
    if k == rs.len() {
        assert(rs.take(k) =~= rs);
    } else {
        assert(rs.drop_last().take(k) =~= rs.take(k));
        lemma_relations_failure_prefix(s, rs.drop_last(), k);
    }
}

/// A relation path by the identifiers of what its segments name.
fn decompose_value(h: &mut Harvest, s: &TrueSchema, v: &RelationValue) -> (r: Result<CoreRelationValue, SchemaError>)
    requires
        old(h).wf(),
    ensures
        final(h).grew(&*old(h)),
        r is Err <==> walk_path(*s, v.spec_path()) is Err,
        r matches Err(e) ==> reports_segment(e, walk_path(*s, v.spec_path())->Err_0),
        r matches Ok(c) ==> forall|t: Rows| #[trigger] final(h).fit(t) ==> crate::substrate::projected_names(t, c.segments@)
            == Ok::<Seq<Seq<char>>, NominalIdentifier>(crate::schema::names_view(v.spec_path())),
{
    let path = v.path();
    let mut cursor = RelationCursor::Top;
    let mut segments: Vec<NominalIdentifier> = Vec::new();
    let mut i: usize = 0;
    proof {
        lemma_grew_refl(h);
        assert(path@.take(0) =~= Seq::<Name>::empty());
        assert forall|t: Rows| #[trigger] h.fit(t) implies crate::substrate::projected_names(t, segments@)
            == Ok::<Seq<Seq<char>>, NominalIdentifier>(crate::schema::names_view(path@.take(0))) by {
            assert(crate::schema::names_view(path@.take(0)) =~= Seq::<Seq<char>>::empty());
        }
    }
    while i < path.len()
        invariant
            i <= path@.len(),
            path@ == v.spec_path(),
            segments@.len() == i,
            h.grew(&*old(h)),
            walk_path(*s, path@.take(i as int)) == Ok::<Cursor, Seq<char>>(cursor_view(cursor)),
            forall|t: Rows| #[trigger] h.fit(t) ==> crate::substrate::projected_names(t, segments@)
                == Ok::<Seq<Seq<char>>, NominalIdentifier>(crate::schema::names_view(path@.take(i as int))),
        decreases path@.len() - i,
    {
        let ghost prev = *h;
        let ghost before = segments@;
        proof {
            let a = path@.take(i + 1);
            assert(a.drop_last() =~= path@.take(i as int));
            assert(a.last() == path@[i as int]);
        }
        match resolve_segment(h, s, cursor, &path[i]) {
            Some((id, next)) => {
                segments.push(id);
                cursor = next;
                proof {
                    lemma_fit_shrinks(&prev, h);
                    lemma_grew_trans(&*old(h), &prev, h);
                    assert forall|t: Rows| #[trigger] h.fit(t) implies crate::substrate::projected_names(t, segments@)
                        == Ok::<Seq<Seq<char>>, NominalIdentifier>(crate::schema::names_view(path@.take(i + 1))) by {
                        assert(prev.fit(t));
                        assert(segments@.drop_last() =~= before);
                        assert(segments@[segments@.len() - 1] == id);
                        assert(crate::schema::names_view(path@.take(i + 1)) =~= crate::schema::names_view(
                            path@.take(i as int),
                        ).push(path@[i as int]@));
                    }
                }
            },
            None => {
                proof {
                    lemma_grew_trans(&*old(h), &prev, h);
                    lemma_walk_failure_prefix(*s, path@, i + 1);
                }
                return Err(SchemaError::RelationSegmentUnresolved { segment: path[i].as_str().to_owned() });
            },
        }
        i = i + 1;
    }
    proof {
        assert(path@.take(i as int) =~= path@);
    }
    Ok(CoreRelationValue { segments })
}

proof fn lemma_walk_failure_prefix(s: TrueSchema, path: Seq<Name>, k: int)
    requires
        0 <= k <= path.len(),
        walk_path(s, path.take(k)) is Err,
    ensures
        walk_path(s, path) == walk_path(s, path.take(k)),
    decreases path.len(),
{
    if k == path.len() {
        assert(path.take(k) =~= path);
    } else {
        assert(path.drop_last().take(k) =~= path.take(k));
        lemma_walk_failure_prefix(s, path.drop_last(), k);
    }
}

/// A relation by its values' identifier paths.
fn decompose_relation(h: &mut Harvest, s: &TrueSchema, r: &RelationDeclaration) -> (out: Result<CoreRelationDeclaration, SchemaError>)
    requires
        old(h).wf(),
    ensures
        final(h).grew(&*old(h)),
        out is Err <==> values_failure(*s, r->Equivalence_0@) is Some,
        out matches Err(e) ==> reports_segment(e, values_failure(*s, r->Equivalence_0@)->Some_0),
        out matches Ok(c) ==> forall|t: Rows| #[trigger] final(h).fit(t) ==> project_relation_declaration(t, c)
            == Ok::<Seq<Seq<Seq<char>>>, NominalIdentifier>(crate::views::relation_view(*r)),
{
    let values = r.values();
    let ghost vs = values@;
    let mut out: Vec<CoreRelationValue> = Vec::new();
    let mut i: usize = 0;
    proof {
        lemma_grew_refl(h);
        assert(vs.take(0) =~= Seq::<RelationValue>::empty());
        assert forall|t: Rows| #[trigger] h.fit(t) implies project_paths(t, out@) == Ok::<
            Seq<Seq<Seq<char>>>,
            NominalIdentifier,
        >(vs.take(0).map_values(|v: RelationValue| crate::schema::names_view(v.spec_path()))) by {
            assert(vs.take(0).map_values(|v: RelationValue| crate::schema::names_view(v.spec_path())) =~= Seq::<
                Seq<Seq<char>>,
            >::empty());
        }
    }
    while i < values.len()
        invariant
            i <= vs.len(),
            vs == values@,
            vs == r->Equivalence_0@,
            out@.len() == i,
            h.grew(&*old(h)),
            values_failure(*s, vs.take(i as int)) is None,
            forall|t: Rows| #[trigger] h.fit(t) ==> project_paths(t, out@) == Ok::<
                Seq<Seq<Seq<char>>>,
                NominalIdentifier,
            >(vs.take(i as int).map_values(|v: RelationValue| crate::schema::names_view(v.spec_path()))),
        decreases vs.len() - i,
    {
        let ghost prev = *h;
        let ghost before = out@;
        proof {
            let a = vs.take(i + 1);
            assert(a.drop_last() =~= vs.take(i as int));
            assert(a.last() == vs[i as int]);
        }
        match decompose_value(h, s, &values[i]) {
            Ok(c) => {
                out.push(c);
                proof {
                    lemma_fit_shrinks(&prev, h);
                    lemma_grew_trans(&*old(h), &prev, h);
                    assert forall|t: Rows| #[trigger] h.fit(t) implies project_paths(t, out@) == Ok::<
                        Seq<Seq<Seq<char>>>,
                        NominalIdentifier,
                    >(vs.take(i + 1).map_values(|v: RelationValue| crate::schema::names_view(v.spec_path()))) by {
                        assert(prev.fit(t));
                        assert(out@.drop_last() =~= before);
                        assert(out@[out@.len() - 1] == c);
                        assert(vs.take(i + 1).map_values(|v: RelationValue| crate::schema::names_view(v.spec_path()))
                            =~= vs.take(i as int).map_values(|v: RelationValue| crate::schema::names_view(v.spec_path()))
                            .push(crate::schema::names_view(vs[i as int].spec_path())));
                    }
                }
            },
            Err(e) => {
                proof {
                    lemma_grew_trans(&*old(h), &prev, h);
                    lemma_values_failure_prefix(*s, vs, i + 1);
                }
                return Err(e);
            },
        }
        i = i + 1;
    }
    proof {
        assert(vs.take(i as int) =~= vs);
    }
    Ok(CoreRelationDeclaration::Equivalence(out))
}

// ---------------------------------------------------------------- the whole schema
/// Every row of the table agrees, for a top-level name, with the prior
/// table.
pub open spec fn agrees_throughout(prior: Rows, t: Rows) -> bool {
    forall|k: int| 0 <= k < t.len() && (#[trigger] t[k]).0.spec_kind() == DeclarationKind::Type ==> agrees_with_prior(prior, t[k])
}

/// Every member row's name is its own local part.
pub open spec fn members_local(t: Rows) -> bool {
    forall|k: int| 0 <= k < t.len() && is_member_kind((#[trigger] t[k]).0.spec_kind()) ==> local_part_of(t[k].1) == t[k].1
}

/// What a decomposition projects back to: the schema's view, without the
/// generic definitions, which the substrate does not carry.
pub open spec fn decomposed_view(s: TrueSchema) -> crate::views::SchemaView {
    let v = crate::views::schema_view(s);
    crate::views::SchemaView {
        identity: v.identity,
        imports: v.imports,
        resolved_imports: v.resolved_imports,
        generics: Seq::empty(),
        input: v.input,
        output: v.output,
        namespace: v.namespace,
        streams: v.streams,
        families: v.families,
        relations: v.relations,
        impl_blocks: v.impl_blocks,
    }
}

proof fn lemma_push_step<A, B>(t: Rows, xs: Seq<A>, x: A, f: spec_fn(A) -> crate::substrate::Projected<B>, acc: Seq<B>, b: B)
    requires
        project_all(t, xs, f) == Ok::<Seq<B>, NominalIdentifier>(acc),
        f(x) == Ok::<B, NominalIdentifier>(b),
    ensures
        project_all(t, xs.push(x), f) == Ok::<Seq<B>, NominalIdentifier>(acc.push(b)),
{
    assert(xs.push(x).drop_last() =~= xs);
}

/// Whether another harvested entry shares the derived field's identifier.
fn shares_identifier(rows: &Vec<NameEntry>, derived: &Vec<NameEntry>, i: usize) -> (r: bool)
    requires
        i < derived@.len(),
    ensures
        r == ((exists|k: int| 0 <= k < rows@.len() && (#[trigger] entries_view(rows@)[k]).0 == entries_view(derived@)[i as int].0)
            || (exists|j: int| 0 <= j < derived@.len() && j != i && (#[trigger] entries_view(derived@)[j]).0 == entries_view(derived@)[i as int].0)),
{
    let id = derived[i].identifier();
    let mut k: usize = 0;
    while k < rows.len()
        invariant
            k <= rows@.len(),
            id == entries_view(derived@)[i as int].0,
            forall|m: int| 0 <= m < k ==> (#[trigger] entries_view(rows@)[m]).0 != id,
        decreases rows@.len() - k,
    {
        if rows[k].identifier() == id {
            proof {
                assert(entries_view(rows@)[k as int].0 == id);
            }
            return true;
        }
        k = k + 1;
    }
    let mut j: usize = 0;
    while j < derived.len()
        invariant
            j <= derived@.len(),
            i < derived@.len(),
            id == entries_view(derived@)[i as int].0,
            forall|m: int| 0 <= m < rows@.len() ==> (#[trigger] entries_view(rows@)[m]).0 != id,
            forall|m: int| 0 <= m < j && m != i ==> (#[trigger] entries_view(derived@)[m]).0 != id,
        decreases derived@.len() - j,
    {
        if j != i && derived[j].identifier() == id {
            proof {
                assert(entries_view(derived@)[j as int].0 == id);
            }
            return true;
        }
        j = j + 1;
    }
    false
}

/// Every resolved import of the schema, in order.
fn decompose_resolved_all(h: &mut Harvest, items: &[ResolvedImport]) -> (r: Vec<CoreResolvedImport>)
    requires
        old(h).wf(),
    ensures
        final(h).grew(&*old(h)),
        forall|t: Rows| #[trigger] final(h).fit(t) ==> project_all(t, r@, resolved_projector(t)) == Ok::<
            Seq<ResolvedView>,
            NominalIdentifier,
        >(items@.map_values(|x: ResolvedImport| resolved_view(x))),
{
    let mut out: Vec<CoreResolvedImport> = Vec::new();
    let mut i: usize = 0;
    proof {
        lemma_grew_refl(h);
        assert forall|t: Rows| #[trigger] h.fit(t) implies project_all(t, out@, resolved_projector(t)) == Ok::<
            Seq<ResolvedView>,
            NominalIdentifier,
        >(items@.take(0).map_values(|x: ResolvedImport| resolved_view(x))) by {
            assert(items@.take(0).map_values(|x: ResolvedImport| resolved_view(x)) =~= Seq::<ResolvedView>::empty());
        }
    }
    while i < items.len()
        invariant
            i <= items@.len(),
            out@.len() == i,
            h.grew(&*old(h)),
            forall|t: Rows| #[trigger] h.fit(t) ==> project_all(t, out@, resolved_projector(t)) == Ok::<
                Seq<ResolvedView>,
                NominalIdentifier,
            >(items@.take(i as int).map_values(|x: ResolvedImport| resolved_view(x))),
        decreases items@.len() - i,
    {
        let ghost prev = *h;
        let ghost before = out@;
        let c = decompose_resolved(h, &items[i]);
        out.push(c);
        proof {
            lemma_fit_shrinks(&prev, h);
            lemma_grew_trans(&*old(h), &prev, h);
            assert forall|t: Rows| #[trigger] h.fit(t) implies project_all(t, out@, resolved_projector(t)) == Ok::<
                Seq<ResolvedView>,
                NominalIdentifier,
            >(items@.take(i + 1).map_values(|x: ResolvedImport| resolved_view(x))) by {
                assert(prev.fit(t));
                assert(out@ =~= before.push(c));
                lemma_push_step(t, before, c, resolved_projector(t), items@.take(i as int).map_values(|x: ResolvedImport| resolved_view(x)), resolved_view(items@[i as int]));
                assert(items@.take(i + 1).map_values(|x: ResolvedImport| resolved_view(x)) =~= items@.take(i as int).map_values(|x: ResolvedImport| resolved_view(x)).push(resolved_view(items@[i as int])));
            }
        }
        i = i + 1;
    }
    proof {
        assert(items@.take(i as int) =~= items@);
    }
    out
}

/// Every namespace declaration of the schema, in order.
fn decompose_namespace(h: &mut Harvest, items: &[Declaration]) -> (r: Vec<CoreDeclaration>)
    requires
        old(h).wf(),
    ensures
        final(h).grew(&*old(h)),
        forall|t: Rows| #[trigger] final(h).fit(t) ==> project_all(t, r@, declaration_projector(t)) == Ok::<
            Seq<DeclarationView>,
            NominalIdentifier,
        >(items@.map_values(|x: Declaration| declaration_view(x))),
{
    let mut out: Vec<CoreDeclaration> = Vec::new();
    let mut i: usize = 0;
    proof {
        lemma_grew_refl(h);
        assert forall|t: Rows| #[trigger] h.fit(t) implies project_all(t, out@, declaration_projector(t)) == Ok::<
            Seq<DeclarationView>,
            NominalIdentifier,
        >(items@.take(0).map_values(|x: Declaration| declaration_view(x))) by {
            assert(items@.take(0).map_values(|x: Declaration| declaration_view(x)) =~= Seq::<DeclarationView>::empty());
        }
    }
    while i < items.len()
        invariant
            i <= items@.len(),
            out@.len() == i,
            h.grew(&*old(h)),
            forall|t: Rows| #[trigger] h.fit(t) ==> project_all(t, out@, declaration_projector(t)) == Ok::<
                Seq<DeclarationView>,
                NominalIdentifier,
            >(items@.take(i as int).map_values(|x: Declaration| declaration_view(x))),
        decreases items@.len() - i,
    {
        let ghost prev = *h;
        let ghost before = out@;
        let c = decompose_declaration(h, &items[i]);
        out.push(c);
        proof {
            lemma_fit_shrinks(&prev, h);
            lemma_grew_trans(&*old(h), &prev, h);
            assert forall|t: Rows| #[trigger] h.fit(t) implies project_all(t, out@, declaration_projector(t)) == Ok::<
                Seq<DeclarationView>,
                NominalIdentifier,
            >(items@.take(i + 1).map_values(|x: Declaration| declaration_view(x))) by {
                assert(prev.fit(t));
                assert(out@ =~= before.push(c));
                lemma_push_step(t, before, c, declaration_projector(t), items@.take(i as int).map_values(|x: Declaration| declaration_view(x)), declaration_view(items@[i as int]));
                assert(items@.take(i + 1).map_values(|x: Declaration| declaration_view(x)) =~= items@.take(i as int).map_values(|x: Declaration| declaration_view(x)).push(declaration_view(items@[i as int])));
            }
        }
        i = i + 1;
    }
    proof {
        assert(items@.take(i as int) =~= items@);
    }
    out
}

/// Every stream of the schema, in order.
fn decompose_streams(h: &mut Harvest, items: &[StreamDeclaration]) -> (r: Vec<CoreStream>)
    requires
        old(h).wf(),
    ensures
        final(h).grew(&*old(h)),
        forall|t: Rows| #[trigger] final(h).fit(t) ==> project_all(t, r@, stream_projector(t)) == Ok::<
            Seq<StreamView>,
            NominalIdentifier,
        >(items@.map_values(|x: StreamDeclaration| stream_view(x))),
{
    let mut out: Vec<CoreStream> = Vec::new();
    let mut i: usize = 0;
    proof {
        lemma_grew_refl(h);
        assert forall|t: Rows| #[trigger] h.fit(t) implies project_all(t, out@, stream_projector(t)) == Ok::<
            Seq<StreamView>,
            NominalIdentifier,
        >(items@.take(0).map_values(|x: StreamDeclaration| stream_view(x))) by {
            assert(items@.take(0).map_values(|x: StreamDeclaration| stream_view(x)) =~= Seq::<StreamView>::empty());
        }
    }
    while i < items.len()
        invariant
            i <= items@.len(),
            out@.len() == i,
            h.grew(&*old(h)),
            forall|t: Rows| #[trigger] h.fit(t) ==> project_all(t, out@, stream_projector(t)) == Ok::<
                Seq<StreamView>,
                NominalIdentifier,
            >(items@.take(i as int).map_values(|x: StreamDeclaration| stream_view(x))),
        decreases items@.len() - i,
    {
        let ghost prev = *h;
        let ghost before = out@;
        let c = decompose_stream(h, &items[i]);
        out.push(c);
        proof {
            lemma_fit_shrinks(&prev, h);
            lemma_grew_trans(&*old(h), &prev, h);
            assert forall|t: Rows| #[trigger] h.fit(t) implies project_all(t, out@, stream_projector(t)) == Ok::<
                Seq<StreamView>,
                NominalIdentifier,
            >(items@.take(i + 1).map_values(|x: StreamDeclaration| stream_view(x))) by {
                assert(prev.fit(t));
                assert(out@ =~= before.push(c));
                lemma_push_step(t, before, c, stream_projector(t), items@.take(i as int).map_values(|x: StreamDeclaration| stream_view(x)), stream_view(items@[i as int]));
                assert(items@.take(i + 1).map_values(|x: StreamDeclaration| stream_view(x)) =~= items@.take(i as int).map_values(|x: StreamDeclaration| stream_view(x)).push(stream_view(items@[i as int])));
            }
        }
        i = i + 1;
    }
    proof {
        assert(items@.take(i as int) =~= items@);
    }
    out
}

/// Every family of the schema, in order.
fn decompose_families(h: &mut Harvest, items: &[FamilyDeclaration]) -> (r: Vec<CoreFamily>)
    requires
        old(h).wf(),
    ensures
        final(h).grew(&*old(h)),
        forall|t: Rows| #[trigger] final(h).fit(t) ==> project_all(t, r@, family_projector(t)) == Ok::<
            Seq<FamilyView>,
            NominalIdentifier,
        >(items@.map_values(|x: FamilyDeclaration| family_view(x))),
{
    let mut out: Vec<CoreFamily> = Vec::new();
    let mut i: usize = 0;
    proof {
        lemma_grew_refl(h);
        assert forall|t: Rows| #[trigger] h.fit(t) implies project_all(t, out@, family_projector(t)) == Ok::<
            Seq<FamilyView>,
            NominalIdentifier,
        >(items@.take(0).map_values(|x: FamilyDeclaration| family_view(x))) by {
            assert(items@.take(0).map_values(|x: FamilyDeclaration| family_view(x)) =~= Seq::<FamilyView>::empty());
        }
    }
    while i < items.len()
        invariant
            i <= items@.len(),
            out@.len() == i,
            h.grew(&*old(h)),
            forall|t: Rows| #[trigger] h.fit(t) ==> project_all(t, out@, family_projector(t)) == Ok::<
                Seq<FamilyView>,
                NominalIdentifier,
            >(items@.take(i as int).map_values(|x: FamilyDeclaration| family_view(x))),
        decreases items@.len() - i,
    {
        let ghost prev = *h;
        let ghost before = out@;
        let c = decompose_family(h, &items[i]);
        out.push(c);
        proof {
            lemma_fit_shrinks(&prev, h);
            lemma_grew_trans(&*old(h), &prev, h);
            assert forall|t: Rows| #[trigger] h.fit(t) implies project_all(t, out@, family_projector(t)) == Ok::<
                Seq<FamilyView>,
                NominalIdentifier,
            >(items@.take(i + 1).map_values(|x: FamilyDeclaration| family_view(x))) by {
                assert(prev.fit(t));
                assert(out@ =~= before.push(c));
                lemma_push_step(t, before, c, family_projector(t), items@.take(i as int).map_values(|x: FamilyDeclaration| family_view(x)), family_view(items@[i as int]));
                assert(items@.take(i + 1).map_values(|x: FamilyDeclaration| family_view(x)) =~= items@.take(i as int).map_values(|x: FamilyDeclaration| family_view(x)).push(family_view(items@[i as int])));
            }
        }
        i = i + 1;
    }
    proof {
        assert(items@.take(i as int) =~= items@);
    }
    out
}

/// Every impl block of the schema, in order.
fn decompose_blocks(h: &mut Harvest, items: &[ImplBlock]) -> (r: Vec<CoreImplBlock>)
    requires
        old(h).wf(),
    ensures
        final(h).grew(&*old(h)),
        forall|t: Rows| #[trigger] final(h).fit(t) ==> project_all(t, r@, block_projector(t)) == Ok::<
            Seq<(Seq<char>, Seq<crate::impls::ImplRefView>)>,
            NominalIdentifier,
        >(items@.map_values(|x: ImplBlock| block_view(x))),
{
    let mut out: Vec<CoreImplBlock> = Vec::new();
    let mut i: usize = 0;
    proof {
        lemma_grew_refl(h);
        assert forall|t: Rows| #[trigger] h.fit(t) implies project_all(t, out@, block_projector(t)) == Ok::<
            Seq<(Seq<char>, Seq<crate::impls::ImplRefView>)>,
            NominalIdentifier,
        >(items@.take(0).map_values(|x: ImplBlock| block_view(x))) by {
            assert(items@.take(0).map_values(|x: ImplBlock| block_view(x)) =~= Seq::<(Seq<char>, Seq<crate::impls::ImplRefView>)>::empty());
        }
    }
    while i < items.len()
        invariant
            i <= items@.len(),
            out@.len() == i,
            h.grew(&*old(h)),
            forall|t: Rows| #[trigger] h.fit(t) ==> project_all(t, out@, block_projector(t)) == Ok::<
                Seq<(Seq<char>, Seq<crate::impls::ImplRefView>)>,
                NominalIdentifier,
            >(items@.take(i as int).map_values(|x: ImplBlock| block_view(x))),
        decreases items@.len() - i,
    {
        let ghost prev = *h;
        let ghost before = out@;
        let c = decompose_block(h, &items[i]);
        out.push(c);
        proof {
            lemma_fit_shrinks(&prev, h);
            lemma_grew_trans(&*old(h), &prev, h);
            assert forall|t: Rows| #[trigger] h.fit(t) implies project_all(t, out@, block_projector(t)) == Ok::<
                Seq<(Seq<char>, Seq<crate::impls::ImplRefView>)>,
                NominalIdentifier,
            >(items@.take(i + 1).map_values(|x: ImplBlock| block_view(x))) by {
                assert(prev.fit(t));
                assert(out@ =~= before.push(c));
                lemma_push_step(t, before, c, block_projector(t), items@.take(i as int).map_values(|x: ImplBlock| block_view(x)), block_view(items@[i as int]));
                assert(items@.take(i + 1).map_values(|x: ImplBlock| block_view(x)) =~= items@.take(i as int).map_values(|x: ImplBlock| block_view(x)).push(block_view(items@[i as int])));
            }
        }
        i = i + 1;
    }
    proof {
        assert(items@.take(i as int) =~= items@);
    }
    out
}

/// Every relation of the schema, in order; the first segment that names
/// nothing fails the whole.
fn decompose_relations(h: &mut Harvest, s: &TrueSchema) -> (r: Result<Vec<CoreRelationDeclaration>, SchemaError>)
    requires
        old(h).wf(),
    ensures
        final(h).grew(&*old(h)),
        r is Err <==> relations_failure(*s, s.spec_relations()) is Some,
        r matches Err(e) ==> reports_segment(e, relations_failure(*s, s.spec_relations())->Some_0),
        r matches Ok(out) ==> forall|t: Rows| #[trigger] final(h).fit(t) ==> project_all(t, out@, relation_projector(t)) == Ok::<
            Seq<Seq<Seq<Seq<char>>>>,
            NominalIdentifier,
        >(s.spec_relations().map_values(|x: RelationDeclaration| crate::views::relation_view(x))),
{
    let items = s.relations();
    let mut out: Vec<CoreRelationDeclaration> = Vec::new();
    let mut i: usize = 0;
    proof {
        lemma_grew_refl(h);
        assert(items@.take(0) =~= Seq::<RelationDeclaration>::empty());
        assert forall|t: Rows| #[trigger] h.fit(t) implies project_all(t, out@, relation_projector(t)) == Ok::<
            Seq<Seq<Seq<Seq<char>>>>,
            NominalIdentifier,
        >(items@.take(0).map_values(|x: RelationDeclaration| crate::views::relation_view(x))) by {
            assert(items@.take(0).map_values(|x: RelationDeclaration| crate::views::relation_view(x)) =~= Seq::<Seq<Seq<Seq<char>>>>::empty());
        }
    }
    while i < items.len()
        invariant
            i <= items@.len(),
            items@ == s.spec_relations(),
            out@.len() == i,
            h.grew(&*old(h)),
            relations_failure(*s, items@.take(i as int)) is None,
            forall|t: Rows| #[trigger] h.fit(t) ==> project_all(t, out@, relation_projector(t)) == Ok::<
                Seq<Seq<Seq<Seq<char>>>>,
                NominalIdentifier,
            >(items@.take(i as int).map_values(|x: RelationDeclaration| crate::views::relation_view(x))),
        decreases items@.len() - i,
    {
        let ghost prev = *h;
        let ghost before = out@;
        proof {
            let a = items@.take(i + 1);
            assert(a.drop_last() =~= items@.take(i as int));
            assert(a.last() == items@[i as int]);
        }
        match decompose_relation(h, s, &items[i]) {
            Ok(c) => {
                out.push(c);
                proof {
                    lemma_fit_shrinks(&prev, h);
                    lemma_grew_trans(&*old(h), &prev, h);
                    assert forall|t: Rows| #[trigger] h.fit(t) implies project_all(t, out@, relation_projector(t)) == Ok::<
                        Seq<Seq<Seq<Seq<char>>>>,
                        NominalIdentifier,
                    >(items@.take(i + 1).map_values(|x: RelationDeclaration| crate::views::relation_view(x))) by {
                        assert(prev.fit(t));
                        assert(out@ =~= before.push(c));
                        lemma_push_step(t, before, c, relation_projector(t), items@.take(i as int).map_values(|x: RelationDeclaration| crate::views::relation_view(x)), crate::views::relation_view(items@[i as int]));
                        assert(items@.take(i + 1).map_values(|x: RelationDeclaration| crate::views::relation_view(x)) =~= items@.take(i as int).map_values(|x: RelationDeclaration| crate::views::relation_view(x)).push(crate::views::relation_view(items@[i as int])));
                    }
                }
            },
            Err(e) => {
                proof {
                    lemma_grew_trans(&*old(h), &prev, h);
                    lemma_relations_failure_prefix(*s, items@, i + 1);
                }
                return Err(e);
            },
        }
        i = i + 1;
    }
    proof {
        assert(items@.take(i as int) =~= items@);
    }
    Ok(out)
}

/// The derived fields whose identifier some other harvested entry also
/// carries: those are held as rows after all.
fn colliding_derived(h: &Harvest) -> (extra: Vec<NameEntry>)
    ensures
        forall|m: int| 0 <= m < extra@.len() ==> h.spec_derived().contains(#[trigger] entries_view(extra@)[m]),
        forall|j: int| 0 <= j < h.spec_derived().len() && ((exists|k: int| 0 <= k < h.spec_rows().len() && (#[trigger] h.spec_rows()[k]).0 == h.spec_derived()[j].0)
            || (exists|m: int| 0 <= m < h.spec_derived().len() && m != j && (#[trigger] h.spec_derived()[m]).0 == h.spec_derived()[j].0))
            ==> entries_view(extra@).contains(#[trigger] h.spec_derived()[j]),
{
    let ghost r0 = h.spec_rows();
    let ghost d0 = h.spec_derived();
    let mut extra: Vec<NameEntry> = Vec::new();
    let mut i: usize = 0;
    while i < h.derived.len()
        invariant
            i <= d0.len(),
            r0 == entries_view(h.rows@),
            d0 == entries_view(h.derived@),
            forall|m: int| 0 <= m < extra@.len() ==> d0.contains(#[trigger] entries_view(extra@)[m]),
            forall|j: int| 0 <= j < i && ((exists|k: int| 0 <= k < r0.len() && (#[trigger] r0[k]).0 == d0[j].0)
                || (exists|m: int| 0 <= m < d0.len() && m != j && (#[trigger] d0[m]).0 == d0[j].0)) ==> entries_view(extra@).contains(#[trigger] d0[j]),
        decreases d0.len() - i,
    {
        let ghost before = entries_view(extra@);
        if shares_identifier(&h.rows, &h.derived, i) {
            extra.push(NameEntry::new(h.derived[i].identifier(), h.derived[i].name().clone()));
            proof {
                assert(entries_view(extra@) =~= before.push(d0[i as int]));
                assert(entries_view(extra@)[before.len() as int] == d0[i as int]);
                assert forall|m: int| 0 <= m < extra@.len() implies d0.contains(#[trigger] entries_view(extra@)[m]) by {
                    if m < before.len() {
                        assert(entries_view(extra@)[m] == before[m]);
                    } else {
                        assert(d0[i as int] == entries_view(extra@)[m]);
                    }
                }
                assert forall|j: int| 0 <= j < i + 1 && ((exists|k: int| 0 <= k < r0.len() && (#[trigger] r0[k]).0 == d0[j].0)
                    || (exists|m: int| 0 <= m < d0.len() && m != j && (#[trigger] d0[m]).0 == d0[j].0)) implies entries_view(extra@).contains(#[trigger] d0[j]) by {
                    if j < i {
                        let x = choose|x: int| 0 <= x < before.len() && before[x] == d0[j];
                        assert(entries_view(extra@)[x] == before[x]);
                    } else {
                        assert(entries_view(extra@)[before.len() as int] == d0[j]);
                    }
                }
            }
        }
        i = i + 1;
    }
    extra
}

/// A table holding every harvested row, and each derived field whose
/// identifier another entry also carries, fits the harvest wherever it
/// gives each identifier one name and each member's name is its local part.
proof fn lemma_table_fits(h: &Harvest, ex: Rows, t: Rows)
    requires
        h.wf(),
        t.to_multiset() == (h.spec_rows() + ex).to_multiset(),
        forall|m: int| 0 <= m < ex.len() ==> h.spec_derived().contains(#[trigger] ex[m]),
        forall|j: int| 0 <= j < h.spec_derived().len() && ((exists|k: int| 0 <= k < h.spec_rows().len() && (#[trigger] h.spec_rows()[k]).0 == h.spec_derived()[j].0)
            || (exists|m: int| 0 <= m < h.spec_derived().len() && m != j && (#[trigger] h.spec_derived()[m]).0 == h.spec_derived()[j].0))
            ==> ex.contains(#[trigger] h.spec_derived()[j]),
    ensures
        agrees_throughout(h.spec_prior(), t),
        identifiers_determine_entries(t) && members_local(t) ==> h.fit(t),
{
    let r0 = h.spec_rows();
    let d0 = h.spec_derived();
    let all_rows = r0 + ex;
    assert forall|x: (NominalIdentifier, Seq<char>)| all_rows.contains(x) implies #[trigger] t.contains(x) by {
        vstd::seq_lib::to_multiset_contains(all_rows, x);
        vstd::seq_lib::to_multiset_contains(t, x);
    }
    assert forall|x: (NominalIdentifier, Seq<char>)| #[trigger] t.contains(x) implies all_rows.contains(x) by {
        vstd::seq_lib::to_multiset_contains(all_rows, x);
        vstd::seq_lib::to_multiset_contains(t, x);
    }
    assert forall|k: int| 0 <= k < t.len() && (#[trigger] t[k]).0.spec_kind() == DeclarationKind::Type implies agrees_with_prior(h.spec_prior(), t[k]) by {
        assert(t.contains(t[k]));
        assert(all_rows.contains(t[k]));
        let j = choose|j: int| 0 <= j < all_rows.len() && all_rows[j] == t[k];
        if j < r0.len() {
            assert(r0[j] == all_rows[j]);
        } else {
            assert(ex[j - r0.len()] == all_rows[j]);
            assert(d0.contains(ex[j - r0.len()]));
            let q = choose|q: int| 0 <= q < d0.len() && d0[q] == ex[j - r0.len()];
            assert(d0[q].0.spec_kind() == DeclarationKind::Field);
        }
    }
    if identifiers_determine_entries(t) && members_local(t) {
        assert forall|k: int| 0 <= k < r0.len() implies names_row(t, #[trigger] r0[k]) by {
            let x = r0[k];
            assert(all_rows[k] == x);
            assert(all_rows.contains(x));
            assert(t.contains(x));
            let j = choose|j: int| 0 <= j < t.len() && t[j] == x;
            crate::lookup::lemma_first_match(t, holds_identifier(x.0));
            assert(holds_identifier(x.0)(t[j]));
            let m = first_match(t, holds_identifier(x.0)).unwrap();
            assert(t[m] == t[j]);
        }
        assert forall|k: int| 0 <= k < d0.len() implies keeps_derived(t, #[trigger] d0[k]) by {
            let q = d0[k];
            crate::lookup::lemma_first_match(t, holds_identifier(q.0));
            if let Some(m) = first_match(t, holds_identifier(q.0)) {
                assert(t.contains(t[m]));
                assert(all_rows.contains(t[m]));
                let j = choose|j: int| 0 <= j < all_rows.len() && all_rows[j] == t[m];
                if j < r0.len() {
                    assert(r0[j] == all_rows[j]);
                    assert(r0[j].0 == q.0);
                } else {
                    assert(ex[j - r0.len()] == all_rows[j]);
                    assert(d0.contains(ex[j - r0.len()]));
                    let w = choose|w: int| 0 <= w < d0.len() && d0[w] == ex[j - r0.len()];
                    if w != k {
                        assert(d0[w].0 == q.0);
                    }
                }
                if t[m] != q {
                    assert(ex.contains(q));
                    let y = choose|y: int| 0 <= y < ex.len() && ex[y] == q;
                    assert(all_rows[r0.len() + y] == q);
                    assert(all_rows.contains(q));
                    assert(t.contains(q));
                    let z = choose|z: int| 0 <= z < t.len() && t[z] == q;
                    assert(t[m] == t[z]);
                }
            }
        }
    }
}

impl TrueSchema {
    /// Split the schema into its name-free substrate and the name table
    /// that projects it back. Each top-level name keeps the identifier the
    /// prior table binds to it, or mints one; members (fields, variants,
    /// type parameters) mint from their owner's identifier and their name.
    /// A field named as its type derives carries no row. Only a relation
    /// path can fail: the first segment, over relations in order, that
    /// names nothing is reported.
    ///
    /// Projecting the substrate through the table gives the schema back
    /// (without its generic definitions), wherever the table gives each
    /// identifier one name and every member's name is its own local part.
    pub fn decompose(&self, prior: &NameTable) -> (r: Result<(CoreSchema, NameTable), SchemaError>)
        ensures
            r is Err <==> relations_failure(*self, self.spec_relations()) is Some,
            r matches Err(e) ==> reports_segment(e, relations_failure(*self, self.spec_relations())->Some_0),
            r matches Ok((core, names)) ==> agrees_throughout(prior@, names@),
            r matches Ok((core, names)) ==> (identifiers_determine_entries(names@) && members_local(names@)
                ==> project_schema(names@, core, self.spec_identity()) == Ok::<
                crate::views::SchemaView,
                NominalIdentifier,
            >(decomposed_view(*self))),
    {
        let mut harvest = Harvest { prior, rows: Vec::new(), derived: Vec::new() };
        let h = &mut harvest;
        let ghost h0 = *h;
        proof {
            assert(h0.spec_rows() =~= Seq::<(NominalIdentifier, Seq<char>)>::empty());
            assert(h0.spec_derived() =~= Seq::<(NominalIdentifier, Seq<char>)>::empty());
        }
        let resolved_imports = decompose_resolved_all(h, self.resolved_imports());
        let ghost h1 = *h;
        let input = decompose_root(h, self.input());
        let ghost h2 = *h;
        let output = decompose_root(h, self.output());
        let ghost h3 = *h;
        let namespace = decompose_namespace(h, self.namespace());
        let ghost h4 = *h;
        let streams = decompose_streams(h, self.streams());
        let ghost h5 = *h;
        let families = decompose_families(h, self.families());
        let ghost h6 = *h;
        let relations = match decompose_relations(h, self) {
            Ok(relations) => relations,
            Err(e) => { return Err(e); },
        };
        let ghost h7 = *h;
        let impl_blocks = decompose_blocks(h, self.impl_blocks());
        let ghost h8 = *h;
        let extra = colliding_derived(h);
        let Harvest { rows, .. } = harvest;
        let mut rows = rows;
        let ghost r0 = entries_view(rows@);
        let mut k: usize = 0;
        while k < extra.len()
            invariant
                k <= extra@.len(),
                entries_view(rows@) == r0 + entries_view(extra@).take(k as int),
            decreases extra@.len() - k,
        {
            let ghost before = entries_view(rows@);
            rows.push(NameEntry::new(extra[k].identifier(), extra[k].name().clone()));
            proof {
                assert(entries_view(rows@) =~= before.push(entries_view(extra@)[k as int]));
                assert(r0 + entries_view(extra@).take(k + 1) =~= (r0 + entries_view(extra@).take(k as int)).push(
                    entries_view(extra@)[k as int],
                ));
            }
            k = k + 1;
        }
        proof {
            assert(entries_view(extra@).take(k as int) =~= entries_view(extra@));
        }
        let names = NameTable::from_entries(rows);
        let core = CoreSchema {
            imports: crate::substrate::copy_imports(self.imports()),
            resolved_imports,
            input,
            output,
            namespace,
            streams,
            families,
            relations,
            impl_blocks,
        };
        proof {
            let t = names@;
            assert(h8.spec_rows() == r0);
            lemma_table_fits(&h8, entries_view(extra@), t);
            assert(h8.spec_prior() == prior@);
            if identifiers_determine_entries(t) && members_local(t) {
                lemma_grew_trans(&h0, &h1, &h2);
                lemma_grew_trans(&h0, &h2, &h3);
                lemma_grew_trans(&h0, &h3, &h4);
                lemma_grew_trans(&h0, &h4, &h5);
                lemma_grew_trans(&h0, &h5, &h6);
                lemma_grew_trans(&h0, &h6, &h7);
                lemma_grew_trans(&h6, &h7, &h8);
                lemma_grew_trans(&h5, &h6, &h8);
                lemma_grew_trans(&h4, &h5, &h8);
                lemma_grew_trans(&h3, &h4, &h8);
                lemma_grew_trans(&h2, &h3, &h8);
                lemma_grew_trans(&h1, &h2, &h8);
                lemma_fit_shrinks(&h1, &h8);
                lemma_fit_shrinks(&h2, &h8);
                lemma_fit_shrinks(&h3, &h8);
                lemma_fit_shrinks(&h4, &h8);
                lemma_fit_shrinks(&h5, &h8);
                lemma_fit_shrinks(&h6, &h8);
                lemma_fit_shrinks(&h7, &h8);
                let v = crate::views::schema_view(*self);
                assert(self.spec_resolved_imports().map_values(|x: ResolvedImport| resolved_view(x)) =~= v.resolved_imports);
                assert(self.spec_namespace().map_values(|x: Declaration| declaration_view(x)) =~= v.namespace);
                assert(self.spec_streams().map_values(|x: StreamDeclaration| stream_view(x)) =~= v.streams);
                assert(self.spec_families().map_values(|x: FamilyDeclaration| family_view(x)) =~= v.families);
                assert(self.spec_relations().map_values(|x: RelationDeclaration| crate::views::relation_view(x)) =~= v.relations);
                assert(self.spec_impl_blocks().map_values(|x: ImplBlock| block_view(x)) =~= v.impl_blocks);
                assert(core.imports@.map_values(|i: crate::schema::ImportDeclaration| (i.local_name@, i.source@)) =~= v.imports);
            }
        }
        Ok((core, names))
    }
}

} // verus!
