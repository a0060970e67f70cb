//! The schema model: roots, declarations and their bodies, fields, variants,
//! streams, families, relations, and the imports resolved across crates.
use vstd::prelude::*;

use crate::impls::ImplCatalog;
use crate::lookup::{first_match, lemma_first_match_at, lemma_first_match_none};
use crate::name::{Name, TableName, local_part_of};
use crate::reference::{
    ApplicationHead, HeadView, ImportSource, TypeRefView, TypeReference, copy_reference,
    copy_references, lemma_references_view, reference_view, references_view,
};

verus! {

// ---------------------------------------------------------------- names
/// The spellings of a list of names.
pub open spec fn names_view(names: Seq<Name>) -> Seq<Seq<char>> {
    names.map_values(|n: Name| n@)
}

/// A copy of a list of names, name for name.
pub fn copy_names(names: &[Name]) -> (r: Vec<Name>)
    ensures
        r@ == names@,
{
    let mut out: Vec<Name> = Vec::new();
    let mut i: usize = 0;
    while i < names.len()
        invariant
            i <= names@.len(),
            out@ == names@.take(i as int),
        decreases names@.len() - i,
    {
        out.push(names[i].clone());
        proof {
            assert(out@ =~= names@.take(i + 1));
        }
        i = i + 1;
    }
    assert(out@ =~= names@);
    out
}

// ---------------------------------------------------------------- streams
/// How a variant relates to a declared stream.
#[derive(Debug, Eq)]
pub enum StreamRelation {
    Opens(Name),
    Belongs(Name),
}

pub enum StreamRelationView {
    Opens(Seq<char>),
    Belongs(Seq<char>),
}

impl View for StreamRelation {
    type V = StreamRelationView;

    open spec fn view(&self) -> StreamRelationView {
        match self {
            StreamRelation::Opens(n) => StreamRelationView::Opens(n@),
            StreamRelation::Belongs(n) => StreamRelationView::Belongs(n@),
        }
    }
}

impl Clone for StreamRelation {
    fn clone(&self) -> (r: Self)
        ensures
            r == *self,
    {
        match self {
            StreamRelation::Opens(n) => StreamRelation::Opens(n.clone()),
            StreamRelation::Belongs(n) => StreamRelation::Belongs(n.clone()),
        }
    }
}

impl PartialEq for StreamRelation {
    fn eq(&self, other: &Self) -> (r: bool) {
        match (self, other) {
            (StreamRelation::Opens(a), StreamRelation::Opens(b)) => *a == *b,
            (StreamRelation::Belongs(a), StreamRelation::Belongs(b)) => *a == *b,
            _ => false,
        }
    }
}

impl vstd::std_specs::cmp::PartialEqSpecImpl for StreamRelation {
    open spec fn obeys_eq_spec() -> bool {
        true
    }

    open spec fn eq_spec(&self, other: &Self) -> bool {
        self@ == other@
    }
}

impl StreamRelation {
    pub open spec fn spec_stream_name(&self) -> Name {
        match self {
            StreamRelation::Opens(n) => *n,
            StreamRelation::Belongs(n) => *n,
        }
    }

    /// The stream this relation names.
    pub fn stream_name(&self) -> (r: &Name)
        ensures
            *r == self.spec_stream_name(),
    {
        match self {
            StreamRelation::Opens(name) => name,
            StreamRelation::Belongs(name) => name,
        }
    }

    /// The keyword the relation is written with.
    pub fn keyword_text(&self) -> (r: &'static str)
        ensures
            self is Opens ==> r@ == seq!['o', 'p', 'e', 'n', 's'],
            self is Belongs ==> r@ == seq!['b', 'e', 'l', 'o', 'n', 'g', 's'],
    {
        proof {
            reveal_strlit("opens");
            reveal_strlit("belongs");
        }
        match self {
            StreamRelation::Opens(_) => "opens",
            StreamRelation::Belongs(_) => "belongs",
        }
    }
}

/// A declared stream: its token, opened, event, and close types.
#[derive(Debug)]
pub struct StreamDeclaration {
    pub name: Name,
    pub token: TypeReference,
    pub opened: TypeReference,
    pub event: TypeReference,
    pub close: TypeReference,
}

impl StreamDeclaration {
    pub fn new(
        name: Name,
        token: TypeReference,
        opened: TypeReference,
        event: TypeReference,
        close: TypeReference,
    ) -> (r: Self)
        ensures
            r.name == name,
            r.token == token,
            r.opened == opened,
            r.event == event,
            r.close == close,
    {
        StreamDeclaration { name, token, opened, event, close }
    }
}

// ---------------------------------------------------------------- variants
pub struct VariantView {
    pub name: Seq<char>,
    pub payload: Option<TypeRefView>,
    pub stream_relation: Option<StreamRelationView>,
}

pub open spec fn payload_view(p: Option<TypeReference>) -> Option<TypeRefView> {
    match p {
        Some(r) => Some(r@),
        None => None,
    }
}

pub open spec fn relation_view(s: Option<StreamRelation>) -> Option<StreamRelationView> {
    match s {
        Some(r) => Some(r@),
        None => None,
    }
}

/// An enum variant: its name, optional payload, and optional stream relation.
#[derive(Debug)]
pub struct EnumVariant {
    pub name: Name,
    pub payload: Option<TypeReference>,
    pub stream_relation: Option<StreamRelation>,
}

impl View for EnumVariant {
    type V = VariantView;

    open spec fn view(&self) -> VariantView {
        VariantView {
            name: self.name@,
            payload: payload_view(self.payload),
            stream_relation: relation_view(self.stream_relation),
        }
    }
}

pub open spec fn variants_view(vs: Seq<EnumVariant>) -> Seq<VariantView> {
    vs.map_values(|v: EnumVariant| v@)
}

fn copy_payload(p: &Option<TypeReference>) -> (r: Option<TypeReference>)
    ensures
        payload_view(r) == payload_view(*p),
{
    match p {
        Some(reference) => Some(copy_reference(reference)),
        None => None,
    }
}

fn copy_relation(s: &Option<StreamRelation>) -> (r: Option<StreamRelation>)
    ensures
        r == *s,
{
    match s {
        Some(relation) => Some(relation.clone()),
        None => None,
    }
}

impl Clone for EnumVariant {
    fn clone(&self) -> (r: Self)
        ensures
            r@ == self@,
    {
        EnumVariant {
            name: self.name.clone(),
            payload: copy_payload(&self.payload),
            stream_relation: copy_relation(&self.stream_relation),
        }
    }
}

/// A copy of a list of variants, view for view.
pub fn copy_variants(vs: &[EnumVariant]) -> (r: Vec<EnumVariant>)
    ensures
        variants_view(r@) == variants_view(vs@),
{
    let mut out: Vec<EnumVariant> = Vec::new();
    let mut i: usize = 0;
    while i < vs.len()
        invariant
            i <= vs@.len(),
            out@.len() == i,
            forall|k: int| 0 <= k < i ==> (#[trigger] out@[k])@ == vs@[k]@,
        decreases vs@.len() - i,
    {
        out.push(vs[i].clone());
        i = i + 1;
    }
    assert(variants_view(out@) =~= variants_view(vs@));
    out
}

/// The spelling of a variant payload's type when it is a declared name
/// whose local part is the variant's own local part.
pub open spec fn same_named_payload(v: VariantView) -> Option<Seq<char>> {
    match v.payload {
        Some(TypeRefView::Plain(n)) => if local_part_of(n) == local_part_of(v.name) {
            Some(local_part_of(n))
        } else {
            None
        },
        _ => None,
    }
}

impl EnumVariant {
    pub fn new(name: Name, payload: Option<TypeReference>) -> (r: Self)
        ensures
            r.name == name,
            r.payload == payload,
            r.stream_relation is None,
    {
        EnumVariant { name, payload, stream_relation: None }
    }

    /// The variant with the given stream relation attached.
    pub fn with_stream_relation(self, stream_relation: StreamRelation) -> (r: Self)
        ensures
            r.name == self.name,
            r.payload == self.payload,
            r.stream_relation == Some(stream_relation),
    {
        EnumVariant { name: self.name, payload: self.payload, stream_relation: Some(stream_relation) }
    }

    /// The payload type's local part when the payload is a declared name
    /// that repeats the variant's own local part.
    pub fn same_named_direct_payload_type(&self) -> (r: Option<&str>)
        ensures
            r is Some <==> same_named_payload(self@) is Some,
            r matches Some(s) ==> s@ == same_named_payload(self@).unwrap(),
    {
        match &self.payload {
            Some(payload) => match payload.plain_name() {
                Some(payload_name) => {
                    let payload_local = payload_name.local_part();
                    let variant_local = self.name.local_part();
                    if crate::text::str_equal(payload_local, variant_local) {
                        Some(payload_local)
                    } else {
                        None
                    }
                },
                None => None,
            },
            None => None,
        }
    }
}

// ---------------------------------------------------------------- enums
/// An enum declaration: its name and variants.
#[derive(Debug)]
pub struct EnumDeclaration {
    pub name: Name,
    pub variants: Vec<EnumVariant>,
}

pub struct EnumView {
    pub name: Seq<char>,
    pub variants: Seq<VariantView>,
}

impl View for EnumDeclaration {
    type V = EnumView;

    open spec fn view(&self) -> EnumView {
        EnumView { name: self.name@, variants: variants_view(self.variants@) }
    }
}

impl Clone for EnumDeclaration {
    fn clone(&self) -> (r: Self)
        ensures
            r@ == self@,
            r.name == self.name,
    {
        EnumDeclaration { name: self.name.clone(), variants: copy_variants(self.variants.as_slice()) }
    }
}

/// The predicate "is the variant spelled `n`".
pub open spec fn variant_spelled(n: Seq<char>) -> spec_fn(EnumVariant) -> bool {
    |v: EnumVariant| v.name@ == n
}

/// The predicate "is the field spelled `n`".
pub open spec fn field_spelled(n: Seq<char>) -> spec_fn(FieldDeclaration) -> bool {
    |f: FieldDeclaration| f.name@ == n
}

/// Whether a declared type is a struct with a field spelled `n`.
pub open spec fn declares_field(t: TypeDeclaration, n: Seq<char>) -> bool {
    t matches TypeDeclaration::Struct(d) && exists|k: int|
        0 <= k < d.fields.spec_entries().len() && #[trigger] d.fields.spec_entries()[k].name@ == n
}

/// Whether a declared type is an enum with a variant spelled `n`.
pub open spec fn declares_variant(t: TypeDeclaration, n: Seq<char>) -> bool {
    t matches TypeDeclaration::Enum(d) && exists|k: int|
        0 <= k < d.variants@.len() && #[trigger] d.variants@[k].name@ == n
}

impl EnumDeclaration {
    pub fn new(name: Name, variants: Vec<EnumVariant>) -> (r: Self)
        ensures
            r.name == name,
            r.variants == variants,
    {
        EnumDeclaration { name, variants }
    }

    /// Whether some variant carries the given name.
    pub fn has_variant(&self, variant_name: &Name) -> (r: bool)
        ensures
            r == exists|k: int| 0 <= k < self.variants@.len() && #[trigger] self.variants@[k].name@
                == variant_name@,
    {
        let mut i: usize = 0;
        while i < self.variants.len()
            invariant
                i <= self.variants@.len(),
                forall|k: int| 0 <= k < i ==> #[trigger] self.variants@[k].name@ != variant_name@,
            decreases self.variants@.len() - i,
        {
            if self.variants[i].name == *variant_name {
                return true;
            }
            i = i + 1;
        }
        false
    }

    /// The first variant carrying the given name.
    pub fn variant_named(&self, variant_name: &str) -> (r: Option<&EnumVariant>)
        ensures
            first_match(self.variants@, variant_spelled(variant_name@)) matches Some(k) ==> r == Some(
                &self.variants@[k],
            ),
            first_match(self.variants@, variant_spelled(variant_name@)) is None ==> r is None,
    {
        let ghost p = variant_spelled(variant_name@);
        let mut i: usize = 0;
        while i < self.variants.len()
            invariant
                i <= self.variants@.len(),
                p == variant_spelled(variant_name@),
                forall|k: int| 0 <= k < i ==> !#[trigger] p(self.variants@[k]),
            decreases self.variants@.len() - i,
        {
            if crate::text::str_equal(self.variants[i].name.as_str(), variant_name) {
                proof {
                    lemma_first_match_at(self.variants@, p, i as int);
                }
                return Some(&self.variants[i]);
            }
            i = i + 1;
        }
        proof {
            lemma_first_match_none(self.variants@, p);
        }
        None
    }
}

// ---------------------------------------------------------------- structs
/// A struct field: its name and type.
#[derive(Debug)]
pub struct FieldDeclaration {
    pub name: Name,
    pub reference: TypeReference,
}

impl View for FieldDeclaration {
    type V = (Seq<char>, TypeRefView);

    open spec fn view(&self) -> (Seq<char>, TypeRefView) {
        (self.name@, self.reference@)
    }
}

impl Clone for FieldDeclaration {
    fn clone(&self) -> (r: Self)
        ensures
            r@ == self@,
    {
        FieldDeclaration { name: self.name.clone(), reference: copy_reference(&self.reference) }
    }
}

pub open spec fn fields_view(fs: Seq<FieldDeclaration>) -> Seq<(Seq<char>, TypeRefView)> {
    fs.map_values(|f: FieldDeclaration| f@)
}

/// The ordered field-name to type-reference map of a struct.
#[derive(Debug)]
pub struct StructFieldMap {
    entries: Vec<FieldDeclaration>,
}

impl View for StructFieldMap {
    type V = Seq<(Seq<char>, TypeRefView)>;

    closed spec fn view(&self) -> Seq<(Seq<char>, TypeRefView)> {
        fields_view(self.entries@)
    }
}

impl Clone for StructFieldMap {
    fn clone(&self) -> (r: Self)
        ensures
            r@ == self@,
    {
        let mut out: Vec<FieldDeclaration> = Vec::new();
        let mut i: usize = 0;
        while i < self.entries.len()
            invariant
                i <= self.entries@.len(),
                out@.len() == i,
                forall|k: int| 0 <= k < i ==> (#[trigger] out@[k])@ == self.entries@[k]@,
            decreases self.entries@.len() - i,
        {
            out.push(self.entries[i].clone());
            i = i + 1;
        }
        let r = StructFieldMap { entries: out };
        assert(r@ =~= self@);
        r
    }
}

impl StructFieldMap {
    pub closed spec fn spec_entries(&self) -> Seq<FieldDeclaration> {
        self.entries@
    }

    /// The view spelled out over the parts.
    pub proof fn lemma_view(&self)
        ensures
            self@ == fields_view(self.spec_entries()),
            self@.len() == self.spec_entries().len(),
    {
    }

    pub fn new(entries: Vec<FieldDeclaration>) -> (r: Self)
        ensures
            r.spec_entries() == entries@,
            r@ == fields_view(entries@),
    {
        StructFieldMap { entries }
    }

    /// The fields, moved out in order.
    pub fn into_entries(self) -> (r: Vec<FieldDeclaration>)
        ensures
            r@ == self.spec_entries(),
    {
        self.entries
    }

    pub fn entries(&self) -> (r: &[FieldDeclaration])
        ensures
            r@ == self.spec_entries(),
    {
        self.entries.as_slice()
    }

    /// The fields in order, as an iterator.
    pub fn iter(&self) -> (r: std::slice::Iter<'_, FieldDeclaration>)
        ensures
            vstd::std_specs::slice::into_iter_elts(r) == self.spec_entries(),
    {
        let r = self.entries.as_slice().iter();
        proof {
            broadcast use vstd::std_specs::slice::axiom_spec_slice_iter;
            assert(vstd::std_specs::iter::IteratorSpec::remaining(&r).unref() =~= self.spec_entries());
        }
        r
    }

    pub fn len(&self) -> (r: usize)
        ensures
            r == self.spec_entries().len(),
    {
        self.entries.len()
    }

    pub fn is_empty(&self) -> (r: bool)
        ensures
            r == (self.spec_entries().len() == 0),
    {
        self.entries.len() == 0
    }

    pub fn first(&self) -> (r: Option<&FieldDeclaration>)
        ensures
            self.spec_entries().len() == 0 ==> r is None,
            self.spec_entries().len() > 0 ==> r == Some(&self.spec_entries()[0]),
    {
        if self.entries.len() == 0 {
            None
        } else {
            Some(&self.entries[0])
        }
    }

    /// Whether some field carries the given name.
    pub fn has_field(&self, field_name: &Name) -> (r: bool)
        ensures
            r == exists|k: int| 0 <= k < self.spec_entries().len() && #[trigger] self.spec_entries()[k].name@
                == field_name@,
    {
        let mut i: usize = 0;
        while i < self.entries.len()
            invariant
                i <= self.entries@.len(),
                forall|k: int| 0 <= k < i ==> #[trigger] self.entries@[k].name@ != field_name@,
            decreases self.entries@.len() - i,
        {
            if self.entries[i].name == *field_name {
                return true;
            }
            i = i + 1;
        }
        false
    }

    /// The first field carrying the given name.
    pub fn field_named(&self, field_name: &str) -> (r: Option<&FieldDeclaration>)
        ensures
            first_match(self.spec_entries(), field_spelled(field_name@)) matches Some(k) ==> r == Some(
                &self.spec_entries()[k],
            ),
            first_match(self.spec_entries(), field_spelled(field_name@)) is None ==> r is None,
    {
        let ghost p = field_spelled(field_name@);
        let mut i: usize = 0;
        while i < self.entries.len()
            invariant
                i <= self.entries@.len(),
                p == field_spelled(field_name@),
                forall|k: int| 0 <= k < i ==> !#[trigger] p(self.entries@[k]),
            decreases self.entries@.len() - i,
        {
            if crate::text::str_equal(self.entries[i].name.as_str(), field_name) {
                proof {
                    lemma_first_match_at(self.entries@, p, i as int);
                }
                return Some(&self.entries[i]);
            }
            i = i + 1;
        }
        proof {
            lemma_first_match_none(self.entries@, p);
        }
        None
    }
}

// ---------------------------------------------------------------- product components
/// How many fields carry the given type.
pub open spec fn count_reference(fs: Seq<(Seq<char>, TypeRefView)>, t: TypeRefView) -> nat
    decreases fs.len(),
{
    if fs.len() == 0 {
        0
    } else {
        count_reference(fs.drop_last(), t) + if fs.last().1 == t {
            1nat
        } else {
            0nat
        }
    }
}

/// How many fields carry the given name and type.
pub open spec fn count_identity(fs: Seq<(Seq<char>, TypeRefView)>, name: Seq<char>, t: TypeRefView) -> nat
    decreases fs.len(),
{
    if fs.len() == 0 {
        0
    } else {
        count_identity(fs.drop_last(), name, t) + if fs.last().1 == t && fs.last().0 == name {
            1nat
        } else {
            0nat
        }
    }
}

/// What is wrong with one component of a product, as the lowering reports it.
pub enum ProductDefect {
    /// A component whose type occurs once carries a name other than the
    /// one its type derives.
    ExplicitOnUnique { field: Seq<char>, type_text: Seq<char> },
    /// A repeated type carries the derived name, so the components are
    /// not told apart.
    DuplicateImplicit { type_text: Seq<char> },
    /// Two components share both name and type.
    DuplicateIdentity { field: Seq<char>, type_text: Seq<char> },
}

/// The defect of the `i`-th component, if any: a type that occurs once
/// must carry its derived name; a repeated type must carry explicit names,
/// and no name may repeat for one type.
pub open spec fn component_defect(fs: Seq<(Seq<char>, TypeRefView)>, i: int) -> Option<ProductDefect> {
    let f = fs[i];
    let occurrences = count_reference(fs, f.1);
    let derived = crate::reference::derived_name(f.1);
    if occurrences == 1 && f.0 != derived {
        Some(
            ProductDefect::ExplicitOnUnique {
                field: f.0,
                type_text: crate::reference::structural_text(f.1),
            },
        )
    } else if occurrences > 1 && f.0 == derived {
        Some(ProductDefect::DuplicateImplicit { type_text: crate::reference::structural_text(f.1) })
    } else if occurrences > 1 && count_identity(fs, f.0, f.1) > 1 {
        Some(
            ProductDefect::DuplicateIdentity {
                field: f.0,
                type_text: crate::reference::structural_text(f.1),
            },
        )
    } else {
        None
    }
}

/// The first defective component of a product, in field order.
pub open spec fn first_defect(fs: Seq<(Seq<char>, TypeRefView)>) -> Option<int> {
    first_match(Seq::new(fs.len(), |i: int| i), |i: int| component_defect(fs, i) is Some)
}

/// Whether an error reports the given product defect.
pub open spec fn reports_defect(e: crate::error::SchemaError, d: ProductDefect) -> bool {
    match d {
        ProductDefect::ExplicitOnUnique { field, type_text } => e matches crate::error::SchemaError::ExplicitFieldOnUniqueProductComponent { field: f, type_ident: t } && f@
            == field && t@ == type_text,
        ProductDefect::DuplicateImplicit { type_text } => e matches crate::error::SchemaError::DuplicateImplicitProductComponent { type_ident: t } && t@ == type_text,
        ProductDefect::DuplicateIdentity { field, type_text } => e matches crate::error::SchemaError::DuplicateExplicitProductComponentIdentity { field: f, type_ident: t } && f@
            == field && t@ == type_text,
    }
}

impl StructFieldMap {
    /// How many fields carry a type equal to the given one.
    pub fn reference_count(&self, reference: &TypeReference) -> (r: usize)
        ensures
            r == count_reference(self@, reference@),
    {
        let mut count: usize = 0;
        let mut i: usize = 0;
        while i < self.entries.len()
            invariant
                i <= self.entries@.len(),
                count <= i,
                count == count_reference(fields_view(self.entries@).take(i as int), reference@),
            decreases self.entries@.len() - i,
        {
            proof {
                let v = fields_view(self.entries@);
                assert(v.take(i + 1).drop_last() =~= v.take(i as int));
                assert(v.take(i + 1).last() == self.entries@[i as int]@);
            }
            if crate::reference::references_equal(&self.entries[i].reference, reference) {
                count = count + 1;
            }
            i = i + 1;
        }
        proof {
            assert(fields_view(self.entries@).take(i as int) =~= fields_view(self.entries@));
        }
        count
    }

    fn identity_count(&self, name: &Name, reference: &TypeReference) -> (r: usize)
        ensures
            r == count_identity(self@, name@, reference@),
    {
        let mut count: usize = 0;
        let mut i: usize = 0;
        while i < self.entries.len()
            invariant
                i <= self.entries@.len(),
                count <= i,
                count == count_identity(fields_view(self.entries@).take(i as int), name@, reference@),
            decreases self.entries@.len() - i,
        {
            proof {
                let v = fields_view(self.entries@);
                assert(v.take(i + 1).drop_last() =~= v.take(i as int));
                assert(v.take(i + 1).last() == self.entries@[i as int]@);
            }
            if crate::reference::references_equal(&self.entries[i].reference, reference)
                && self.entries[i].name == *name {
                count = count + 1;
            }
            i = i + 1;
        }
        proof {
            assert(fields_view(self.entries@).take(i as int) =~= fields_view(self.entries@));
        }
        count
    }

    /// Check the product's components: each type that occurs once carries
    /// its derived name; repeated types carry explicit, distinct names.
    /// The first defective component, in field order, is reported.
    pub fn product_components_verified(&self) -> (r: Result<(), crate::error::SchemaError>)
        ensures
            r is Ok <==> first_defect(self@) is None,
            r is Err ==> reports_defect(
                r->Err_0,
                component_defect(self@, first_defect(self@).unwrap()).unwrap(),
            ),
    {
        let ghost fs = self@;
        let ghost idx = Seq::new(fs.len(), |i: int| i);
        let ghost p = |i: int| component_defect(fs, i) is Some;
        let mut i: usize = 0;
        while i < self.entries.len()
            invariant
                i <= self.entries@.len(),
                fs == self@,
                fs.len() == self.entries@.len(),
                idx == Seq::new(fs.len(), |i: int| i),
                p == (|i: int| component_defect(fs, i) is Some),
                forall|k: int| 0 <= k < i ==> !#[trigger] p(idx[k]),
            decreases self.entries@.len() - i,
        {
            let field = &self.entries[i];
            proof {
                assert(fs[i as int] == field@);
            }
            let occurrences = self.reference_count(&field.reference);
            let derived = field.reference.derived_field_name();
            if occurrences == 1 && !(field.name == derived) {
                proof {
                    assert(idx[i as int] == i);
                    lemma_first_match_at(idx, p, i as int);
                }
                return Err(
                    crate::error::SchemaError::ExplicitFieldOnUniqueProductComponent {
                        field: field.name.as_str().to_owned(),
                        type_ident: field.reference.structural_text(),
                    },
                );
            }
            if occurrences > 1 && field.name == derived {
                proof {
                    assert(idx[i as int] == i);
                    lemma_first_match_at(idx, p, i as int);
                }
                return Err(
                    crate::error::SchemaError::DuplicateImplicitProductComponent {
                        type_ident: field.reference.structural_text(),
                    },
                );
            }
            if occurrences > 1 && self.identity_count(&field.name, &field.reference) > 1 {
                proof {
                    assert(idx[i as int] == i);
                    lemma_first_match_at(idx, p, i as int);
                }
                return Err(
                    crate::error::SchemaError::DuplicateExplicitProductComponentIdentity {
                        field: field.name.as_str().to_owned(),
                        type_ident: field.reference.structural_text(),
                    },
                );
            }
            proof {
                assert(idx[i as int] == i);
                assert(!p(idx[i as int]));
            }
            i = i + 1;
        }
        proof {
            lemma_first_match_none(idx, p);
        }
        Ok(())
    }
}

/// A struct declaration: its name and its field map.
#[derive(Debug)]
pub struct StructDeclaration {
    pub name: Name,
    pub fields: StructFieldMap,
}

impl StructDeclaration {
    pub fn new(name: Name, fields: Vec<FieldDeclaration>) -> (r: Self)
        ensures
            r.name == name,
            r.fields.spec_entries() == fields@,
    {
        StructDeclaration { name, fields: StructFieldMap::new(fields) }
    }
}

/// A newtype declaration: a name for another reference.
#[derive(Debug)]
pub struct NewtypeDeclaration {
    pub name: Name,
    pub reference: TypeReference,
}

impl NewtypeDeclaration {
    pub fn new(name: Name, reference: TypeReference) -> (r: Self)
        ensures
            r.name == name,
            r.reference == reference,
    {
        NewtypeDeclaration { name, reference }
    }
}

/// A declared type's body.
#[derive(Debug)]
pub enum TypeDeclaration {
    Struct(StructDeclaration),
    Enum(EnumDeclaration),
    Newtype(NewtypeDeclaration),
}

impl TypeDeclaration {
    pub open spec fn spec_name(&self) -> Name {
        match self {
            TypeDeclaration::Struct(d) => d.name,
            TypeDeclaration::Enum(d) => d.name,
            TypeDeclaration::Newtype(d) => d.name,
        }
    }

    pub fn name(&self) -> (r: &Name)
        ensures
            *r == self.spec_name(),
    {
        match self {
            TypeDeclaration::Struct(declaration) => &declaration.name,
            TypeDeclaration::Newtype(declaration) => &declaration.name,
            TypeDeclaration::Enum(declaration) => &declaration.name,
        }
    }

    /// Whether this is a struct with a field of the given name.
    pub fn has_field_named(&self, field_name: &Name) -> (r: bool)
        ensures
            r == declares_field(*self, field_name@),
    {
        match self {
            TypeDeclaration::Struct(declaration) => declaration.fields.has_field(field_name),
            _ => false,
        }
    }

    /// Whether this is an enum with a variant of the given name.
    pub fn has_variant_named(&self, variant_name: &Name) -> (r: bool)
        ensures
            r == declares_variant(*self, variant_name@),
    {
        match self {
            TypeDeclaration::Enum(declaration) => declaration.has_variant(variant_name),
            _ => false,
        }
    }
}

/// Whether a declaration is visible outside its schema.
#[derive(Clone, Copy, Debug, PartialEq, Eq, Structural)]
pub enum Visibility {
    Public,
    Private,
}

/// A namespace declaration: visibility, name, type parameters, body, and
/// the impl catalog that references its Rust-side impls.
#[derive(Debug)]
pub struct Declaration {
    visibility: Visibility,
    parameters: Vec<Name>,
    value: TypeDeclaration,
    impls: ImplCatalog,
}

impl Declaration {
    pub closed spec fn spec_visibility(&self) -> Visibility {
        self.visibility
    }

    /// A declaration's name is its body's name.
    pub open spec fn spec_name(&self) -> Name {
        self.spec_value().spec_name()
    }

    pub closed spec fn spec_parameters(&self) -> Seq<Name> {
        self.parameters@
    }

    pub closed spec fn spec_value(&self) -> TypeDeclaration {
        self.value
    }

    pub closed spec fn spec_impls(&self) -> ImplCatalog {
        self.impls
    }

    pub fn public(value: TypeDeclaration) -> (r: Self)
        ensures
            r.spec_visibility() == Visibility::Public,
            r.spec_name() == value.spec_name(),
            r.spec_parameters().len() == 0,
            r.spec_value() == value,
            r.spec_impls()@.len() == 0,
    {
        Self::new(Visibility::Public, value)
    }

    pub fn private(value: TypeDeclaration) -> (r: Self)
        ensures
            r.spec_visibility() == Visibility::Private,
            r.spec_name() == value.spec_name(),
            r.spec_parameters().len() == 0,
            r.spec_value() == value,
            r.spec_impls()@.len() == 0,
    {
        Self::new(Visibility::Private, value)
    }

    fn new(visibility: Visibility, value: TypeDeclaration) -> (r: Self)
        ensures
            r.spec_visibility() == visibility,
            r.spec_name() == value.spec_name(),
            r.spec_parameters().len() == 0,
            r.spec_value() == value,
            r.spec_impls()@.len() == 0,
    {
        Declaration { visibility, parameters: Vec::new(), value, impls: ImplCatalog::empty() }
    }

    /// This declaration with the given type parameters.
    pub fn with_parameters(self, parameters: Vec<Name>) -> (r: Self)
        ensures
            r.spec_visibility() == self.spec_visibility(),
            r.spec_name() == self.spec_name(),
            r.spec_parameters() == parameters@,
            r.spec_value() == self.spec_value(),
            r.spec_impls() == self.spec_impls(),
    {
        Declaration {
            visibility: self.visibility,
            parameters,
            value: self.value,
            impls: self.impls,
        }
    }

    /// This declaration with the given impl catalog.
    pub fn with_impls(self, impls: ImplCatalog) -> (r: Self)
        ensures
            r.spec_visibility() == self.spec_visibility(),
            r.spec_name() == self.spec_name(),
            r.spec_parameters() == self.spec_parameters(),
            r.spec_value() == self.spec_value(),
            r.spec_impls() == impls,
    {
        Declaration {
            visibility: self.visibility,
            parameters: self.parameters,
            value: self.value,
            impls,
        }
    }

    /// A copy of this declaration, section by section.
    pub fn copy(&self) -> (r: Self)
        ensures
            r.spec_visibility() == self.spec_visibility(),
            r.spec_name() == self.spec_name(),
            r.spec_parameters() == self.spec_parameters(),
            crate::views::type_view(r.spec_value()) == crate::views::type_view(self.spec_value()),
            r.spec_impls()@ == self.spec_impls()@,
    {
        Declaration {
            visibility: self.visibility,
            parameters: copy_names(self.parameters.as_slice()),
            value: crate::views::copy_type_declaration(&self.value),
            impls: crate::views::copy_catalog(&self.impls),
        }
    }

    /// The declaration's body, moved out.
    pub fn into_value(self) -> (r: TypeDeclaration)
        ensures
            r == self.spec_value(),
    {
        self.value
    }

    pub fn impls(&self) -> (r: &ImplCatalog)
        ensures
            *r == self.spec_impls(),
    {
        &self.impls
    }

    pub fn name(&self) -> (r: &Name)
        ensures
            *r == self.spec_name(),
    {
        self.value.name()
    }

    pub fn parameters(&self) -> (r: &[Name])
        ensures
            r@ == self.spec_parameters(),
    {
        self.parameters.as_slice()
    }

    pub fn visibility(&self) -> (r: Visibility)
        ensures
            r == self.spec_visibility(),
    {
        self.visibility
    }

    pub fn is_private(&self) -> (r: bool)
        ensures
            r == (self.spec_visibility() == Visibility::Private),
    {
        self.visibility == Visibility::Private
    }

    pub fn value(&self) -> (r: &TypeDeclaration)
        ensures
            *r == self.spec_value(),
    {
        &self.value
    }
}

// ---------------------------------------------------------------- generics
/// A parameterized enum frame: binders and the variants over them.
#[derive(Debug)]
pub struct GenericFrame {
    parameters: Vec<Name>,
    variants: Vec<EnumVariant>,
}

impl GenericFrame {
    pub closed spec fn spec_parameters(&self) -> Seq<Name> {
        self.parameters@
    }

    pub closed spec fn spec_variants(&self) -> Seq<EnumVariant> {
        self.variants@
    }

    pub fn new(parameters: Vec<Name>, variants: Vec<EnumVariant>) -> (r: Self)
        ensures
            r.spec_parameters() == parameters@,
            r.spec_variants() == variants@,
    {
        GenericFrame { parameters, variants }
    }

    pub fn parameters(&self) -> (r: &[Name])
        ensures
            r@ == self.spec_parameters(),
    {
        self.parameters.as_slice()
    }

    pub fn variants(&self) -> (r: &[EnumVariant])
        ensures
            r@ == self.spec_variants(),
    {
        self.variants.as_slice()
    }
}

/// The built-in body of a generic definition.
#[derive(Debug)]
pub enum GenericBuiltin {
    Vector,
    Optional,
    ScopeOf,
    MapOf,
    FixedBytes,
    Frame(GenericFrame),
}

impl GenericBuiltin {
    pub open spec fn spec_parameter_count(&self) -> nat {
        match self {
            GenericBuiltin::MapOf => 2,
            GenericBuiltin::Frame(frame) => frame.spec_parameters().len(),
            _ => 1,
        }
    }

    /// The number of type parameters the builtin takes.
    pub fn parameter_count(&self) -> (r: usize)
        ensures
            r == self.spec_parameter_count(),
    {
        match self {
            GenericBuiltin::Vector | GenericBuiltin::Optional | GenericBuiltin::ScopeOf
            | GenericBuiltin::FixedBytes => 1,
            GenericBuiltin::MapOf => 2,
            GenericBuiltin::Frame(frame) => frame.parameters().len(),
        }
    }

    /// The binders and variants of a frame builtin.
    pub fn frame_body(&self) -> (r: Option<(&[Name], &[EnumVariant])>)
        ensures
            self is Frame <==> r is Some,
            r matches Some(body) ==> body.0@ == self->Frame_0.spec_parameters() && body.1@
                == self->Frame_0.spec_variants(),
    {
        match self {
            GenericBuiltin::Frame(frame) => Some((frame.parameters(), frame.variants())),
            _ => None,
        }
    }
}

/// A named generic definition.
#[derive(Debug)]
pub struct GenericDefinition {
    name: Name,
    builtin: GenericBuiltin,
}

impl GenericDefinition {
    pub closed spec fn spec_name(&self) -> Name {
        self.name
    }

    pub closed spec fn spec_builtin(&self) -> GenericBuiltin {
        self.builtin
    }

    pub fn new(name: Name, builtin: GenericBuiltin) -> (r: Self)
        ensures
            r.spec_name() == name,
            r.spec_builtin() == builtin,
    {
        GenericDefinition { name, builtin }
    }

    pub fn name(&self) -> (r: &Name)
        ensures
            *r == self.spec_name(),
    {
        &self.name
    }

    pub fn builtin(&self) -> (r: &GenericBuiltin)
        ensures
            *r == self.spec_builtin(),
    {
        &self.builtin
    }

    pub fn parameter_count(&self) -> (r: usize)
        ensures
            r == self.spec_builtin().spec_parameter_count(),
    {
        self.builtin.parameter_count()
    }

    pub fn frame_body(&self) -> (r: Option<(&[Name], &[EnumVariant])>)
        ensures
            self.spec_builtin() is Frame <==> r is Some,
            r matches Some(body) ==> body.0@ == self.spec_builtin()->Frame_0.spec_parameters()
                && body.1@ == self.spec_builtin()->Frame_0.spec_variants(),
    {
        self.builtin.frame_body()
    }
}

// ---------------------------------------------------------------- relations
/// One value of a relation: a path of names.
#[derive(Debug)]
pub struct RelationValue {
    path: Vec<Name>,
}

impl RelationValue {
    pub closed spec fn spec_path(&self) -> Seq<Name> {
        self.path@
    }

    pub fn new(path: Vec<Name>) -> (r: Self)
        ensures
            r.spec_path() == path@,
    {
        RelationValue { path }
    }

    pub fn path(&self) -> (r: &[Name])
        ensures
            r@ == self.spec_path(),
    {
        self.path.as_slice()
    }
}

/// A declared relation between schema paths.
#[derive(Debug)]
pub enum RelationDeclaration {
    Equivalence(Vec<RelationValue>),
}

impl RelationDeclaration {
    pub fn values(&self) -> (r: &[RelationValue])
        ensures
            r@ == self->Equivalence_0@,
    {
        match self {
            RelationDeclaration::Equivalence(values) => values.as_slice(),
        }
    }
}

// ---------------------------------------------------------------- families
/// How a stored record family is keyed.
#[derive(Clone, Copy, Debug, PartialEq, Eq, Structural)]
pub enum FamilyKey {
    Domain,
    Identified,
}

/// A stored record family.
#[derive(Debug)]
pub struct FamilyDeclaration {
    pub name: Name,
    pub record: Name,
    pub table: TableName,
    pub key: FamilyKey,
}

impl FamilyDeclaration {
    pub fn new(name: Name, record: Name, table: TableName, key: FamilyKey) -> (r: Self)
        ensures
            r.name == name,
            r.record == record,
            r.table == table,
            r.key == key,
    {
        FamilyDeclaration { name, record, table, key }
    }
}

// ---------------------------------------------------------------- imports
/// A declared import: the local alias and the source reference.
#[derive(Debug)]
pub struct ImportDeclaration {
    pub local_name: Name,
    pub source: TypeReference,
}

/// An import resolved against a dependency crate's schema: the alias, the
/// source it names, the generic arity carried across, and, for an imported
/// parameterized enum, the frame body (binders and variants).
#[derive(Debug)]
pub struct ResolvedImport {
    local_name: Name,
    source: ImportSource,
    parameter_count: Option<usize>,
    parameters: Vec<Name>,
    variants: Vec<EnumVariant>,
}

impl ResolvedImport {
    pub closed spec fn spec_local_name(&self) -> Name {
        self.local_name
    }

    pub closed spec fn spec_source(&self) -> ImportSource {
        self.source
    }

    pub closed spec fn spec_parameter_count(&self) -> Option<usize> {
        self.parameter_count
    }

    pub closed spec fn spec_parameters(&self) -> Seq<Name> {
        self.parameters@
    }

    pub closed spec fn spec_variants(&self) -> Seq<EnumVariant> {
        self.variants@
    }

    pub fn new(
        local_name: Name,
        source: ImportSource,
        parameter_count: Option<usize>,
        parameters: Vec<Name>,
        variants: Vec<EnumVariant>,
    ) -> (r: Self)
        ensures
            r.spec_local_name() == local_name,
            r.spec_source() == source,
            r.spec_parameter_count() == parameter_count,
            r.spec_parameters() == parameters@,
            r.spec_variants() == variants@,
    {
        ResolvedImport { local_name, source, parameter_count, parameters, variants }
    }

    pub fn local_name(&self) -> (r: &Name)
        ensures
            *r == self.spec_local_name(),
    {
        &self.local_name
    }

    pub fn source(&self) -> (r: &ImportSource)
        ensures
            *r == self.spec_source(),
    {
        &self.source
    }

    pub fn parameter_count(&self) -> (r: Option<usize>)
        ensures
            r == self.spec_parameter_count(),
    {
        self.parameter_count
    }

    pub fn parameters(&self) -> (r: &[Name])
        ensures
            r@ == self.spec_parameters(),
    {
        self.parameters.as_slice()
    }

    pub fn variants(&self) -> (r: &[EnumVariant])
        ensures
            r@ == self.spec_variants(),
    {
        self.variants.as_slice()
    }
}

// ---------------------------------------------------------------- heads
/// A declaration's name position: the name and its type-parameter binders.
#[derive(Debug)]
pub struct DeclarationHead {
    name: Name,
    parameters: Vec<Name>,
}

impl DeclarationHead {
    pub closed spec fn spec_name(&self) -> Name {
        self.name
    }

    pub closed spec fn spec_parameters(&self) -> Seq<Name> {
        self.parameters@
    }

    /// An ordinary head: a name with no parameters.
    pub fn plain(name: Name) -> (r: Self)
        ensures
            r.spec_name() == name,
            r.spec_parameters().len() == 0,
    {
        DeclarationHead { name, parameters: Vec::new() }
    }

    pub fn name(&self) -> (r: &Name)
        ensures
            *r == self.spec_name(),
    {
        &self.name
    }

    pub fn parameters(&self) -> (r: &[Name])
        ensures
            r@ == self.spec_parameters(),
    {
        self.parameters.as_slice()
    }

    pub fn into_parts(self) -> (r: (Name, Vec<Name>))
        ensures
            r.0 == self.spec_name(),
            r.1@ == self.spec_parameters(),
    {
        (self.name, self.parameters)
    }
}

} // verus!
