//! Type references: the types that stand at reference positions — struct
//! fields, variant payloads, import sources, method signatures.
use vstd::prelude::*;

use crate::name::{Name, field_name_of};
use crate::schema::{EnumVariant, VariantView, copy_names, names_view, relation_view, variants_view};
use crate::views::ResolvedView;
use crate::text::push_char;

verus! {

// ---------------------------------------------------------------- imports
/// Where an imported type comes from: `crate:module:Type`.
#[derive(Debug, Eq, PartialEq)]
pub struct ImportSource {
    pub crate_name: Name,
    pub module: Name,
    pub type_ident: Name,
}

impl Clone for ImportSource {
    fn clone(&self) -> (r: Self)
        ensures
            r == *self,
    {
        ImportSource {
            crate_name: self.crate_name.clone(),
            module: self.module.clone(),
            type_ident: self.type_ident.clone(),
        }
    }
}

impl ImportSource {
    pub open spec fn view_parts(&self) -> (Seq<char>, Seq<char>, Seq<char>) {
        (self.crate_name@, self.module@, self.type_ident@)
    }

    pub fn new(crate_name: Name, module: Name, type_ident: Name) -> (r: Self)
        ensures
            r.crate_name == crate_name,
            r.module == module,
            r.type_ident == type_ident,
    {
        ImportSource { crate_name, module, type_ident }
    }

    fn same_as(&self, other: &Self) -> (r: bool)
        ensures
            r == (self.view_parts() == other.view_parts()),
    {
        self.crate_name == other.crate_name && self.module == other.module && self.type_ident
            == other.type_ident
    }
}

/// An application head that names an imported parameterized type: the local
/// alias, the source it resolves to, the generic arity carried across the
/// crate boundary, and the imported frame body (its binders and variants),
/// which an application of the head expands.
#[derive(Debug)]
pub struct ImportedHead {
    pub local_name: Name,
    pub source: ImportSource,
    pub parameter_count: Option<usize>,
    pub parameters: Vec<Name>,
    pub variants: Vec<EnumVariant>,
}

// ---------------------------------------------------------------- views
/// The mathematical form of an application head.
pub enum HeadView {
    Local(Seq<char>),
    Imported(ResolvedView),
}

/// The mathematical form of a type reference: names by their spelling.
pub enum TypeRefView {
    String,
    Integer,
    Boolean,
    Path,
    Bytes,
    FixedBytes(u64),
    Plain(Seq<char>),
    Vector(Box<TypeRefView>),
    MapOf(Box<TypeRefView>, Box<TypeRefView>),
    Optional(Box<TypeRefView>),
    ScopeOf(Box<TypeRefView>),
    Application { head: HeadView, arguments: Seq<TypeRefView> },
}

/// The head of a generic application `(Foo A B …)`: a locally declared
/// parameterized type, or a cross-crate imported one.
#[derive(Debug)]
pub enum ApplicationHead {
    Local(Name),
    Imported(ImportedHead),
}

impl View for ApplicationHead {
    type V = HeadView;

    open spec fn view(&self) -> HeadView {
        head_view(*self)
    }
}

impl Clone for ApplicationHead {
    fn clone(&self) -> (r: Self)
        ensures
            r@ == self@,
    {
        copy_head(self)
    }
}

impl PartialEq for ApplicationHead {
    fn eq(&self, other: &Self) -> (r: bool) {
        heads_equal(self, other)
    }
}

impl vstd::std_specs::cmp::PartialEqSpecImpl for ApplicationHead {
    open spec fn obeys_eq_spec() -> bool {
        true
    }

    open spec fn eq_spec(&self, other: &Self) -> bool {
        self@ == other@
    }
}

impl ApplicationHead {
    /// The head's local name — the name written at the application site,
    /// whether or not it has been resolved to an import.
    pub fn name(&self) -> (r: &Name)
        ensures
            *r == self.spec_name(),
            head_spelling(self@) == r@,
    {
        match self {
            ApplicationHead::Local(name) => name,
            ApplicationHead::Imported(import) => &import.local_name,
        }
    }

    pub open spec fn spec_name(&self) -> Name {
        match self {
            ApplicationHead::Local(name) => *name,
            ApplicationHead::Imported(import) => import.local_name,
        }
    }
}

/// A type at a reference position.
///
/// `String`, `Integer`, `Boolean`, `Path` and `Bytes` are reserved scalar
/// leaves. `Plain` is a declared-name leaf. `Vector`, `MapOf`, `Optional`, and
/// `ScopeOf` carry inner references. `Application` is the broad generic
/// application `(Foo A B …)`.
#[derive(Debug)]
pub enum TypeReference {
    String,
    Integer,
    Boolean,
    Path,
    Bytes,
    FixedBytes(u64),
    Plain(Name),
    Vector(Box<TypeReference>),
    MapOf(Box<TypeReference>, Box<TypeReference>),
    Optional(Box<TypeReference>),
    ScopeOf(Box<TypeReference>),
    Application { head: ApplicationHead, arguments: Vec<TypeReference> },
}

pub open spec fn reference_view(r: TypeReference) -> TypeRefView
    decreases r, 1nat,
{
    match r {
        TypeReference::String => TypeRefView::String,
        TypeReference::Integer => TypeRefView::Integer,
        TypeReference::Boolean => TypeRefView::Boolean,
        TypeReference::Path => TypeRefView::Path,
        TypeReference::Bytes => TypeRefView::Bytes,
        TypeReference::FixedBytes(width) => TypeRefView::FixedBytes(width),
        TypeReference::Plain(name) => TypeRefView::Plain(name@),
        TypeReference::Vector(inner) => TypeRefView::Vector(Box::new(reference_view(*inner))),
        TypeReference::MapOf(key, value) => TypeRefView::MapOf(
            Box::new(reference_view(*key)),
            Box::new(reference_view(*value)),
        ),
        TypeReference::Optional(inner) => TypeRefView::Optional(Box::new(reference_view(*inner))),
        TypeReference::ScopeOf(inner) => TypeRefView::ScopeOf(Box::new(reference_view(*inner))),
        TypeReference::Application { head, arguments } => TypeRefView::Application {
            head: head_view(head),
            arguments: references_view(arguments@),
        },
    }
}

/// The mathematical form of an application head: a local head by its
/// spelling; an imported one by its alias, source, arity and frame.
pub open spec fn head_view(h: ApplicationHead) -> HeadView
    decreases h, 3nat,
{
    match h {
        ApplicationHead::Local(name) => HeadView::Local(name@),
        ApplicationHead::Imported(import) => HeadView::Imported(imported_view(import)),
    }
}

pub open spec fn imported_view(i: ImportedHead) -> ResolvedView
    decreases i, 2nat,
{
    ResolvedView {
        local_name: i.local_name@,
        source: i.source.view_parts(),
        parameter_count: i.parameter_count,
        parameters: names_view(i.parameters@),
        variants: frame_variants_view(i.variants@),
    }
}

/// The views of an imported frame's variants.
pub open spec fn frame_variants_view(vs: Seq<EnumVariant>) -> Seq<VariantView>
    decreases vs, 1nat,
{
    if vs.len() == 0 {
        Seq::empty()
    } else {
        frame_variants_view(vs.drop_last()).push(frame_variant_view(vs.last()))
    }
}

pub open spec fn frame_variant_view(v: EnumVariant) -> VariantView
    decreases v, 0nat,
{
    VariantView {
        name: v.name@,
        payload: match v.payload {
            Some(r) => Some(reference_view(r)),
            None => None,
        },
        stream_relation: relation_view(v.stream_relation),
    }
}

/// A local head's view is its spelling.
pub proof fn lemma_local_head_view(n: Name)
    ensures
        head_view(ApplicationHead::Local(n)) == HeadView::Local(n@),
{
}

/// The frame's view is the view of each variant, in order.
pub proof fn lemma_frame_variants_view(vs: Seq<EnumVariant>)
    ensures
        frame_variants_view(vs) == variants_view(vs),
    decreases vs.len(),
{
    if vs.len() > 0 {
        lemma_frame_variants_view(vs.drop_last());
        assert(frame_variant_view(vs.last()) == vs.last()@);
        assert(variants_view(vs) =~= variants_view(vs.drop_last()).push(vs.last()@));
    } else {
        assert(variants_view(vs) =~= Seq::<VariantView>::empty());
    }
}

pub open spec fn references_view(rs: Seq<TypeReference>) -> Seq<TypeRefView>
    decreases rs, 0nat,
{
    if rs.len() == 0 {
        Seq::empty()
    } else {
        references_view(rs.drop_last()).push(reference_view(rs.last()))
    }
}

/// The view of a reference list is the view of each reference, in order.
pub proof fn lemma_references_view(rs: Seq<TypeReference>)
    ensures
        references_view(rs).len() == rs.len(),
        forall|i: int| 0 <= i < rs.len() ==> #[trigger] references_view(rs)[i] == reference_view(rs[i]),
    decreases rs.len(),
{
    if rs.len() > 0 {
        lemma_references_view(rs.drop_last());
        assert forall|i: int| 0 <= i < rs.len() implies #[trigger] references_view(rs)[i]
            == reference_view(rs[i]) by {
            if i < rs.len() - 1 {
                assert(rs.drop_last()[i] == rs[i]);
            }
        }
    }
}

impl View for TypeReference {
    type V = TypeRefView;

    open spec fn view(&self) -> TypeRefView {
        reference_view(*self)
    }
}

impl Clone for TypeReference {
    fn clone(&self) -> (r: Self)
        ensures
            r@ == self@,
    {
        copy_reference(self)
    }
}

/// A copy of a reference.
pub fn copy_reference(r: &TypeReference) -> (out: TypeReference)
    ensures
        out@ == r@,
    decreases r,
{
    match r {
        TypeReference::String => TypeReference::String,
        TypeReference::Integer => TypeReference::Integer,
        TypeReference::Boolean => TypeReference::Boolean,
        TypeReference::Path => TypeReference::Path,
        TypeReference::Bytes => TypeReference::Bytes,
        TypeReference::FixedBytes(width) => TypeReference::FixedBytes(*width),
        TypeReference::Plain(name) => TypeReference::Plain(name.clone()),
        TypeReference::Vector(inner) => TypeReference::Vector(Box::new(copy_reference(inner))),
        TypeReference::MapOf(key, value) => TypeReference::MapOf(
            Box::new(copy_reference(key)),
            Box::new(copy_reference(value)),
        ),
        TypeReference::Optional(inner) => TypeReference::Optional(Box::new(copy_reference(inner))),
        TypeReference::ScopeOf(inner) => TypeReference::ScopeOf(Box::new(copy_reference(inner))),
        TypeReference::Application { head, arguments } => {
            let mut copied: Vec<TypeReference> = Vec::new();
            let mut i: usize = 0;
            while i < arguments.len()
                invariant
                    i <= arguments@.len(),
                    copied@.len() == i,
                    forall|k: int| 0 <= k < i ==> reference_view(#[trigger] copied@[k])
                        == reference_view(arguments@[k]),
                    *r == (TypeReference::Application { head: *head, arguments: *arguments }),
                decreases arguments@.len() - i,
            {
                proof {
                    vstd::std_specs::vec::axiom_vec_index_decreases(*arguments, i as int);
                    assert(decreases_to!(*r => r->arguments));
                }
                let c = copy_reference(&arguments[i]);
                copied.push(c);
                i = i + 1;
            }
            proof {
                lemma_references_view(copied@);
                lemma_references_view(arguments@);
                assert(references_view(copied@) =~= references_view(arguments@));
            }
            TypeReference::Application { head: copy_head(head), arguments: copied }
        },
    }
}

/// A copy of an application head, an imported head's frame included.
pub fn copy_head(h: &ApplicationHead) -> (out: ApplicationHead)
    ensures
        out@ == h@,
    decreases h,
{
    match h {
        ApplicationHead::Local(name) => ApplicationHead::Local(name.clone()),
        ApplicationHead::Imported(import) => {
            let mut variants: Vec<EnumVariant> = Vec::new();
            let mut i: usize = 0;
            while i < import.variants.len()
                invariant
                    i <= import.variants@.len(),
                    variants@.len() == i,
                    *h == ApplicationHead::Imported(*import),
                    forall|k: int| 0 <= k < i ==> (#[trigger] variants@[k])@ == import.variants@[k]@,
                decreases import.variants@.len() - i,
            {
                let v = &import.variants[i];
                proof {
                    vstd::std_specs::vec::axiom_vec_index_decreases(import.variants, i as int);
                    assert(decreases_to!(*h => h->Imported_0));
                    assert(decreases_to!(h->Imported_0 => h->Imported_0.variants));
                }
                let payload = match &v.payload {
                    Some(p) => Some(copy_reference(p)),
                    None => None,
                };
                let stream_relation = match &v.stream_relation {
                    Some(relation) => Some(relation.clone()),
                    None => None,
                };
                variants.push(EnumVariant { name: v.name.clone(), payload, stream_relation });
                i = i + 1;
            }
            proof {
                assert(variants_view(variants@) =~= variants_view(import.variants@));
                lemma_frame_variants_view(variants@);
                lemma_frame_variants_view(import.variants@);
            }
            ApplicationHead::Imported(
                ImportedHead {
                    local_name: import.local_name.clone(),
                    source: import.source.clone(),
                    parameter_count: import.parameter_count,
                    parameters: copy_names(import.parameters.as_slice()),
                    variants,
                },
            )
        },
    }
}

/// A copy of a vector of references.
pub fn copy_references(rs: &[TypeReference]) -> (out: Vec<TypeReference>)
    ensures
        references_view(out@) == references_view(rs@),
{
    let mut copied: Vec<TypeReference> = Vec::new();
    let mut i: usize = 0;
    while i < rs.len()
        invariant
            i <= rs@.len(),
            copied@.len() == i,
            forall|k: int| 0 <= k < i ==> reference_view(#[trigger] copied@[k]) == reference_view(
                rs@[k],
            ),
        decreases rs@.len() - i,
    {
        copied.push(copy_reference(&rs[i]));
        i = i + 1;
    }
    proof {
        lemma_references_view(copied@);
        lemma_references_view(rs@);
        assert(references_view(copied@) =~= references_view(rs@));
    }
    copied
}

/// Whether two references are the same type (names compared by spelling).
pub fn references_equal(a: &TypeReference, b: &TypeReference) -> (r: bool)
    ensures
        r == (a@ == b@),
    decreases a,
{
    match (a, b) {
        (TypeReference::String, TypeReference::String) => true,
        (TypeReference::Integer, TypeReference::Integer) => true,
        (TypeReference::Boolean, TypeReference::Boolean) => true,
        (TypeReference::Path, TypeReference::Path) => true,
        (TypeReference::Bytes, TypeReference::Bytes) => true,
        (TypeReference::FixedBytes(x), TypeReference::FixedBytes(y)) => *x == *y,
        (TypeReference::Plain(x), TypeReference::Plain(y)) => *x == *y,
        (TypeReference::Vector(x), TypeReference::Vector(y)) => {
            let r = references_equal(x, y);
            proof {
                if reference_view(**x) != reference_view(**y) {
                    assert(a@ != b@) by {
                        if a@ == b@ {
                            assert(TypeRefView::Vector(Box::new(reference_view(**x)))->Vector_0
                                == TypeRefView::Vector(Box::new(reference_view(**y)))->Vector_0);
                        }
                    }
                }
            }
            r
        },
        (TypeReference::Optional(x), TypeReference::Optional(y)) => {
            let r = references_equal(x, y);
            proof {
                if reference_view(**x) != reference_view(**y) {
                    assert(a@ != b@) by {
                        if a@ == b@ {
                            assert(TypeRefView::Optional(Box::new(reference_view(**x)))->Optional_0
                                == TypeRefView::Optional(Box::new(reference_view(**y)))->Optional_0);
                        }
                    }
                }
            }
            r
        },
        (TypeReference::ScopeOf(x), TypeReference::ScopeOf(y)) => {
            let r = references_equal(x, y);
            proof {
                if reference_view(**x) != reference_view(**y) {
                    assert(a@ != b@) by {
                        if a@ == b@ {
                            assert(TypeRefView::ScopeOf(Box::new(reference_view(**x)))->ScopeOf_0
                                == TypeRefView::ScopeOf(Box::new(reference_view(**y)))->ScopeOf_0);
                        }
                    }
                }
            }
            r
        },
        (TypeReference::MapOf(k1, v1), TypeReference::MapOf(k2, v2)) => {
            let rk = references_equal(k1, k2);
            if !rk {
                proof {
                    assert(a@ != b@) by {
                        if a@ == b@ {
                            assert(reference_view(**k1) == reference_view(**k2));
                        }
                    }
                }
                return false;
            }
            let rv = references_equal(v1, v2);
            proof {
                if !rv {
                    assert(a@ != b@) by {
                        if a@ == b@ {
                            assert(reference_view(**v1) == reference_view(**v2));
                        }
                    }
                }
            }
            rv
        },
        (
            TypeReference::Application { head: h1, arguments: a1 },
            TypeReference::Application { head: h2, arguments: a2 },
        ) => {
            if !heads_equal(h1, h2) {
                return false;
            }
            if a1.len() != a2.len() {
                proof {
                    lemma_references_view(a1@);
                    lemma_references_view(a2@);
                }
                return false;
            }
            let mut i: usize = 0;
            proof {
                lemma_references_view(a1@);
                lemma_references_view(a2@);
            }
            while i < a1.len()
                invariant
                    a1@.len() == a2@.len(),
                    i <= a1@.len(),
                    forall|k: int| 0 <= k < i ==> reference_view(#[trigger] a1@[k]) == reference_view(
                        a2@[k],
                    ),
                    *a == (TypeReference::Application { head: *h1, arguments: *a1 }),
                    *b == (TypeReference::Application { head: *h2, arguments: *a2 }),
                    references_view(a1@).len() == a1@.len(),
                    forall|k: int| 0 <= k < a1@.len() ==> #[trigger] references_view(a1@)[k]
                        == reference_view(a1@[k]),
                    references_view(a2@).len() == a2@.len(),
                    forall|k: int| 0 <= k < a2@.len() ==> #[trigger] references_view(a2@)[k]
                        == reference_view(a2@[k]),
                decreases a1@.len() - i,
            {
                proof {
                    vstd::std_specs::vec::axiom_vec_index_decreases(*a1, i as int);
                    assert(decreases_to!(*a => a->arguments));
                }
                if !references_equal(&a1[i], &a2[i]) {
                    proof {
                        assert(references_view(a1@)[i as int] != references_view(a2@)[i as int]);
                    }
                    return false;
                }
                i = i + 1;
            }
            proof {
                assert(references_view(a1@) =~= references_view(a2@));
            }
            true
        },
        _ => false,
    }
}

/// Whether two lists of names are spelled alike.
fn names_equal(a: &[Name], b: &[Name]) -> (r: bool)
    ensures
        r == (names_view(a@) == names_view(b@)),
{
    if a.len() != b.len() {
        proof {
            assert(names_view(a@).len() == a@.len());
            assert(names_view(b@).len() == b@.len());
        }
        return false;
    }
    let mut i: usize = 0;
    while i < a.len()
        invariant
            a@.len() == b@.len(),
            i <= a@.len(),
            forall|k: int| 0 <= k < i ==> (#[trigger] a@[k])@ == b@[k]@,
        decreases a@.len() - i,
    {
        if !(a[i] == b[i]) {
            proof {
                assert(names_view(a@)[i as int] != names_view(b@)[i as int]);
            }
            return false;
        }
        i = i + 1;
    }
    assert(names_view(a@) =~= names_view(b@));
    true
}

/// Whether two application heads are the same head: names by spelling,
/// an imported head's frame variant by variant.
pub fn heads_equal(a: &ApplicationHead, b: &ApplicationHead) -> (r: bool)
    ensures
        r == (a@ == b@),
    decreases a,
{
    match (a, b) {
        (ApplicationHead::Local(x), ApplicationHead::Local(y)) => *x == *y,
        (ApplicationHead::Imported(x), ApplicationHead::Imported(y)) => {
            if !(x.local_name == y.local_name && x.source.same_as(&y.source) && x.parameter_count
                == y.parameter_count && names_equal(x.parameters.as_slice(), y.parameters.as_slice())) {
                proof {
                    if a@ == b@ {
                        assert(imported_view(*x) == imported_view(*y));
                        assert(imported_view(*x).parameters == imported_view(*y).parameters);
                    }
                }
                return false;
            }
            proof {
                lemma_frame_variants_view(x.variants@);
                lemma_frame_variants_view(y.variants@);
            }
            if x.variants.len() != y.variants.len() {
                proof {
                    if a@ == b@ {
                        assert(imported_view(*x).variants == imported_view(*y).variants);
                        assert(variants_view(x.variants@).len() == variants_view(y.variants@).len());
                    }
                }
                return false;
            }
            let mut i: usize = 0;
            while i < x.variants.len()
                invariant
                    x.variants@.len() == y.variants@.len(),
                    i <= x.variants@.len(),
                    *a == ApplicationHead::Imported(*x),
                    *b == ApplicationHead::Imported(*y),
                    frame_variants_view(x.variants@) == variants_view(x.variants@),
                    frame_variants_view(y.variants@) == variants_view(y.variants@),
                    a@ != b@ ==> imported_view(*x) != imported_view(*y) || true,
                    forall|k: int| 0 <= k < i ==> (#[trigger] x.variants@[k])@ == y.variants@[k]@,
                decreases x.variants@.len() - i,
            {
                let v = &x.variants[i];
                let w = &y.variants[i];
                proof {
                    vstd::std_specs::vec::axiom_vec_index_decreases(x.variants, i as int);
                    assert(decreases_to!(*a => a->Imported_0));
                    assert(decreases_to!(a->Imported_0 => a->Imported_0.variants));
                }
                let same_payload = match (&v.payload, &w.payload) {
                    (None, None) => true,
                    (Some(p), Some(q)) => references_equal(p, q),
                    _ => false,
                };
                let same_relation = match (&v.stream_relation, &w.stream_relation) {
                    (None, None) => true,
                    (Some(p), Some(q)) => *p == *q,
                    _ => false,
                };
                if !(v.name == w.name && same_payload && same_relation) {
                    proof {
                        if a@ == b@ {
                            assert(imported_view(*x).variants == imported_view(*y).variants);
                            assert(variants_view(x.variants@)[i as int] == variants_view(y.variants@)[i as int]);
                            assert(v@ == w@);
                            assert(v@.payload == w@.payload);
                            assert(v@.stream_relation == w@.stream_relation);
                        }
                    }
                    return false;
                }
                i = i + 1;
            }
            proof {
                assert(variants_view(x.variants@) =~= variants_view(y.variants@));
            }
            true
        },
        _ => false,
    }
}

impl PartialEq for TypeReference {
    fn eq(&self, other: &Self) -> (r: bool) {
        references_equal(self, other)
    }
}

impl vstd::std_specs::cmp::PartialEqSpecImpl for TypeReference {
    open spec fn obeys_eq_spec() -> bool {
        true
    }

    open spec fn eq_spec(&self, other: &Self) -> bool {
        self@ == other@
    }
}

// ---------------------------------------------------------------- names
pub open spec fn spelled_string() -> Seq<char> {
    seq!['S', 't', 'r', 'i', 'n', 'g']
}

pub open spec fn spelled_integer() -> Seq<char> {
    seq!['I', 'n', 't', 'e', 'g', 'e', 'r']
}

pub open spec fn spelled_boolean() -> Seq<char> {
    seq!['B', 'o', 'o', 'l', 'e', 'a', 'n']
}

pub open spec fn spelled_path() -> Seq<char> {
    seq!['P', 'a', 't', 'h']
}

pub open spec fn spelled_bytes() -> Seq<char> {
    seq!['B', 'y', 't', 'e', 's']
}

/// The reserved scalar leaf a name spells, if any.
pub open spec fn scalar_of(name: Seq<char>) -> Option<TypeRefView> {
    if name == spelled_string() {
        Some(TypeRefView::String)
    } else if name == spelled_integer() {
        Some(TypeRefView::Integer)
    } else if name == spelled_boolean() {
        Some(TypeRefView::Boolean)
    } else if name == spelled_path() {
        Some(TypeRefView::Path)
    } else if name == spelled_bytes() {
        Some(TypeRefView::Bytes)
    } else {
        None
    }
}

/// The spelling of a scalar leaf, if the reference is one.
pub open spec fn scalar_spelling(r: TypeRefView) -> Option<Seq<char>> {
    match r {
        TypeRefView::String => Some(spelled_string()),
        TypeRefView::Integer => Some(spelled_integer()),
        TypeRefView::Boolean => Some(spelled_boolean()),
        TypeRefView::Path => Some(spelled_path()),
        TypeRefView::Bytes => Some(spelled_bytes()),
        _ => None,
    }
}

/// Reserved built-in reference heads and their canonical arities.
#[derive(Clone, Copy, Debug, Eq, PartialEq)]
pub enum ReferenceHead {
    Vector,
    Optional,
    ScopeOf,
    MapOf,
    Bytes,
}

pub open spec fn classify_head(head: Seq<char>) -> Option<ReferenceHead> {
    if head == seq!['V', 'e', 'c', 't', 'o', 'r'] {
        Some(ReferenceHead::Vector)
    } else if head == seq!['O', 'p', 't', 'i', 'o', 'n', 'a', 'l'] {
        Some(ReferenceHead::Optional)
    } else if head == seq!['S', 'c', 'o', 'p', 'e', 'O', 'f'] {
        Some(ReferenceHead::ScopeOf)
    } else if head == seq!['M', 'a', 'p'] {
        Some(ReferenceHead::MapOf)
    } else if head == spelled_bytes() {
        Some(ReferenceHead::Bytes)
    } else {
        None
    }
}

impl ReferenceHead {
    /// The reserved head a spelling names, if any.
    pub fn classify(head: &str) -> (r: Option<Self>)
        ensures
            r == classify_head(head@),
    {
        proof {
            reveal_strlit("Vector");
            reveal_strlit("Optional");
            reveal_strlit("ScopeOf");
            reveal_strlit("Map");
            reveal_strlit("Bytes");
            assert("Vector"@ =~= seq!['V', 'e', 'c', 't', 'o', 'r']);
            assert("Optional"@ =~= seq!['O', 'p', 't', 'i', 'o', 'n', 'a', 'l']);
            assert("ScopeOf"@ =~= seq!['S', 'c', 'o', 'p', 'e', 'O', 'f']);
            assert("Map"@ =~= seq!['M', 'a', 'p']);
            assert("Bytes"@ =~= spelled_bytes());
        }
        if crate::text::str_equal(head, "Vector") {
            Some(ReferenceHead::Vector)
        } else if crate::text::str_equal(head, "Optional") {
            Some(ReferenceHead::Optional)
        } else if crate::text::str_equal(head, "ScopeOf") {
            Some(ReferenceHead::ScopeOf)
        } else if crate::text::str_equal(head, "Map") {
            Some(ReferenceHead::MapOf)
        } else if crate::text::str_equal(head, "Bytes") {
            Some(ReferenceHead::Bytes)
        } else {
            None
        }
    }

    /// The root-object count of the reference block: head plus arguments.
    pub fn node_arity(self) -> (r: usize)
        ensures
            r == (if self == ReferenceHead::MapOf {
                3usize
            } else {
                2usize
            }),
    {
        match self {
            ReferenceHead::Vector | ReferenceHead::Optional | ReferenceHead::ScopeOf
            | ReferenceHead::Bytes => 2,
            ReferenceHead::MapOf => 3,
        }
    }
}

// ---------------------------------------------------------------- derived names
pub open spec fn derived_args(args: Seq<TypeRefView>) -> Seq<char>
    decreases args,
{
    if args.len() == 0 {
        Seq::empty()
    } else {
        derived_args(args.drop_last()) + seq!['_'] + derived_name(args.last())
    }
}

/// The field name a reference derives when a struct component of that type is
/// not explicitly named.
pub open spec fn derived_name(r: TypeRefView) -> Seq<char>
    decreases r,
{
    match r {
        TypeRefView::String => seq!['s', 't', 'r', 'i', 'n', 'g'],
        TypeRefView::Integer => seq!['i', 'n', 't', 'e', 'g', 'e', 'r'],
        TypeRefView::Boolean => seq!['b', 'o', 'o', 'l', 'e', 'a', 'n'],
        TypeRefView::Path => seq!['p', 'a', 't', 'h'],
        TypeRefView::Bytes => seq!['b', 'y', 't', 'e', 's'],
        TypeRefView::FixedBytes(_) => seq!['b', 'y', 't', 'e', 's'],
        TypeRefView::Plain(name) => field_name_of(name),
        TypeRefView::Vector(inner) => derived_name(*inner) + seq!['_', 'v', 'e', 'c', 't', 'o', 'r'],
        TypeRefView::Optional(inner) => seq!['o', 'p', 't', 'i', 'o', 'n', 'a', 'l', '_']
            + derived_name(*inner),
        TypeRefView::ScopeOf(inner) => derived_name(*inner) + seq!['_', 's', 'c', 'o', 'p', 'e'],
        TypeRefView::MapOf(key, value) => derived_name(*value) + seq!['_', 'b', 'y', '_']
            + derived_name(*key),
        TypeRefView::Application { head, arguments } => field_name_of(
            match head {
                HeadView::Local(n) => n,
                HeadView::Imported(v) => v.local_name,
            },
        ) + derived_args(arguments),
    }
}

impl TypeReference {
    /// A reference from a schema name: reserved scalar names become scalar
    /// leaves; every other name is a declared-name leaf.
    pub fn new(name: &str) -> (r: Self)
        ensures
            scalar_of(name@) is Some ==> r@ == scalar_of(name@).unwrap(),
            scalar_of(name@) is None ==> r@ == TypeRefView::Plain(name@),
    {
        Self::from_name(Name::new(name))
    }

    pub fn from_name(name: Name) -> (r: Self)
        ensures
            scalar_of(name@) is Some ==> r@ == scalar_of(name@).unwrap(),
            scalar_of(name@) is None ==> r == TypeReference::Plain(name),
    {
        proof {
            reveal_strlit("String");
            reveal_strlit("Integer");
            reveal_strlit("Boolean");
            reveal_strlit("Path");
            reveal_strlit("Bytes");
            assert("String"@ =~= spelled_string());
            assert("Integer"@ =~= spelled_integer());
            assert("Boolean"@ =~= spelled_boolean());
            assert("Path"@ =~= spelled_path());
            assert("Bytes"@ =~= spelled_bytes());
        }
        let text = name.as_str();
        if crate::text::str_equal(text, "String") {
            TypeReference::String
        } else if crate::text::str_equal(text, "Integer") {
            TypeReference::Integer
        } else if crate::text::str_equal(text, "Boolean") {
            TypeReference::Boolean
        } else if crate::text::str_equal(text, "Path") {
            TypeReference::Path
        } else if crate::text::str_equal(text, "Bytes") {
            TypeReference::Bytes
        } else {
            TypeReference::Plain(name)
        }
    }

    /// Whether the name is one of the reserved scalar spellings.
    pub fn is_reserved_scalar_name(name: &Name) -> (r: bool)
        ensures
            r == (scalar_of(name@) is Some),
    {
        let reference = Self::from_name(name.clone());
        match reference {
            TypeReference::Plain(_) => false,
            _ => true,
        }
    }

    /// The spelling of a scalar leaf; `None` for any other reference.
    pub fn scalar_name(&self) -> (r: Option<&'static str>)
        ensures
            r is Some <==> scalar_spelling(self@) is Some,
            r matches Some(s) ==> s@ == scalar_spelling(self@).unwrap(),
    {
        proof {
            reveal_strlit("String");
            reveal_strlit("Integer");
            reveal_strlit("Boolean");
            reveal_strlit("Path");
            reveal_strlit("Bytes");
            assert("String"@ =~= spelled_string());
            assert("Integer"@ =~= spelled_integer());
            assert("Boolean"@ =~= spelled_boolean());
            assert("Path"@ =~= spelled_path());
            assert("Bytes"@ =~= spelled_bytes());
        }
        match self {
            TypeReference::String => Some("String"),
            TypeReference::Integer => Some("Integer"),
            TypeReference::Boolean => Some("Boolean"),
            TypeReference::Path => Some("Path"),
            TypeReference::Bytes => Some("Bytes"),
            _ => None,
        }
    }

    /// The declared name when this reference is a declared-name leaf.
    pub fn plain_name(&self) -> (r: Option<&Name>)
        ensures
            self is Plain <==> r is Some,
            r matches Some(n) ==> self matches TypeReference::Plain(m) && *n == m,
    {
        match self {
            TypeReference::Plain(name) => Some(name),
            _ => None,
        }
    }

    /// Whether this reference is a declared-name leaf.
    pub fn is_plain(&self) -> (r: bool)
        ensures
            r == (self is Plain),
    {
        match self {
            TypeReference::Plain(_) => true,
            _ => false,
        }
    }

    /// The field name a struct component of this type derives when it is not
    /// explicitly named.
    pub fn derived_field_name(&self) -> (r: Name)
        ensures
            r@ == derived_name(self@),
        decreases self,
    {
        let mut out = String::new();
        append_derived(&mut out, self);
        assert(out@ =~= derived_name(self@));
        Name::from_string(out)
    }
}

fn append_literal(out: &mut String, text: &str)
    ensures
        final(out)@ == old(out)@ + text@,
{
    out.append(text);
}

fn append_derived(out: &mut String, r: &TypeReference)
    ensures
        final(out)@ == old(out)@ + derived_name(r@),
    decreases r,
{
    proof {
        reveal_strlit("string");
        reveal_strlit("integer");
        reveal_strlit("boolean");
        reveal_strlit("path");
        reveal_strlit("bytes");
        reveal_strlit("_vector");
        reveal_strlit("optional_");
        reveal_strlit("_scope");
        reveal_strlit("_by_");
    }
    match r {
        TypeReference::String => append_literal(out, "string"),
        TypeReference::Integer => append_literal(out, "integer"),
        TypeReference::Boolean => append_literal(out, "boolean"),
        TypeReference::Path => append_literal(out, "path"),
        TypeReference::Bytes | TypeReference::FixedBytes(_) => append_literal(out, "bytes"),
        TypeReference::Plain(name) => {
            let f = name.field_name();
            out.append(f.as_str());
        },
        TypeReference::Vector(inner) => {
            append_derived(out, inner);
            append_literal(out, "_vector");
        },
        TypeReference::Optional(inner) => {
            append_literal(out, "optional_");
            append_derived(out, inner);
        },
        TypeReference::ScopeOf(inner) => {
            append_derived(out, inner);
            append_literal(out, "_scope");
        },
        TypeReference::MapOf(key, value) => {
            append_derived(out, value);
            append_literal(out, "_by_");
            append_derived(out, key);
        },
        TypeReference::Application { head, arguments } => {
            let f = head.name().field_name();
            out.append(f.as_str());
            let ghost start = out@;
            let mut i: usize = 0;
            while i < arguments.len()
                invariant
                    i <= arguments@.len(),
                    out@ == start + derived_args(references_view(arguments@.take(i as int))),
                    *r == (TypeReference::Application { head: *head, arguments: *arguments }),
                decreases arguments@.len() - i,
            {
                proof {
                    vstd::std_specs::vec::axiom_vec_index_decreases(*arguments, i as int);
                    assert(decreases_to!(*r => r->arguments));
                }
                push_char(out, '_');
                append_derived(out, &arguments[i]);
                proof {
                    let t = arguments@.take(i + 1);
                    assert(t.drop_last() =~= arguments@.take(i as int));
                    assert(references_view(t) == references_view(t.drop_last()).push(
                        reference_view(t.last()),
                    ));
                    assert(references_view(t).drop_last() =~= references_view(arguments@.take(i as int)));
                }
                i = i + 1;
            }
            proof {
                assert(arguments@.take(arguments@.len() as int) =~= arguments@);
            }
        },
    }
    assert(final(out)@ =~= old(out)@ + derived_name(r@));
}


// ---------------------------------------------------------------- text forms
pub open spec fn head_spelling(h: HeadView) -> Seq<char> {
    match h {
        HeadView::Local(n) => n,
        HeadView::Imported(v) => v.local_name,
    }
}

/// Whether a reference standing as the single argument of a dotted
/// invocation must be grouped in parentheses.
pub open spec fn needs_group(r: TypeRefView) -> bool {
    match r {
        TypeRefView::MapOf(_, _) => true,
        TypeRefView::Application { arguments, .. } => arguments.len() != 1,
        _ => false,
    }
}

pub open spec fn unary_text(head: Seq<char>, inner: TypeRefView, inner_text: Seq<char>) -> Seq<char> {
    if needs_group(inner) {
        head + seq!['.', '('] + inner_text + seq![')']
    } else {
        head + seq!['.'] + inner_text
    }
}

/// The source-facing dotted text of a reference: a leaf is its name,
/// a unary invocation is `Head.Argument`, and several arguments are grouped
/// `Head.(A B)`. Names are written by their spelling.
pub open spec fn structural_text(r: TypeRefView) -> Seq<char>
    decreases r,
{
    match r {
        TypeRefView::String => spelled_string(),
        TypeRefView::Integer => spelled_integer(),
        TypeRefView::Boolean => spelled_boolean(),
        TypeRefView::Path => spelled_path(),
        TypeRefView::Bytes => spelled_bytes(),
        TypeRefView::FixedBytes(width) => spelled_bytes() + seq!['.'] + crate::text::decimal(
            width as nat,
        ),
        TypeRefView::Plain(name) => name,
        TypeRefView::Vector(inner) => unary_text(
            seq!['V', 'e', 'c', 't', 'o', 'r'],
            *inner,
            structural_text(*inner),
        ),
        TypeRefView::Optional(inner) => unary_text(
            seq!['O', 'p', 't', 'i', 'o', 'n', 'a', 'l'],
            *inner,
            structural_text(*inner),
        ),
        TypeRefView::ScopeOf(inner) => unary_text(
            seq!['S', 'c', 'o', 'p', 'e', 'O', 'f'],
            *inner,
            structural_text(*inner),
        ),
        TypeRefView::MapOf(key, value) => seq!['M', 'a', 'p', '.', '('] + structural_text(*key)
            + seq![' '] + structural_text(*value) + seq![')'],
        TypeRefView::Application { head, arguments } => if arguments.len() == 1 && !needs_group(
            arguments[0],
        ) {
            head_spelling(head) + seq!['.'] + structural_texts(arguments)
        } else {
            head_spelling(head) + seq!['.', '('] + structural_texts(arguments) + seq![')']
        },
    }
}

/// The dotted texts of several references, separated by single spaces.
pub open spec fn structural_texts(args: Seq<TypeRefView>) -> Seq<char>
    decreases args,
{
    if args.len() == 0 {
        Seq::empty()
    } else if args.len() == 1 {
        structural_text(args[0])
    } else {
        structural_texts(args.drop_last()) + seq![' '] + structural_text(args.last())
    }
}

/// The canonical machine text of a reference: every non-scalar form is a
/// parenthesized variant record, `(Plain Name)`, `(Vector T)`, `(Map K V)`,
/// `(Application (Head (A B)))`. Names are written by their spelling.
pub open spec fn canonical_text(r: TypeRefView) -> Seq<char>
    decreases r,
{
    match r {
        TypeRefView::String => spelled_string(),
        TypeRefView::Integer => spelled_integer(),
        TypeRefView::Boolean => spelled_boolean(),
        TypeRefView::Path => spelled_path(),
        TypeRefView::Bytes => spelled_bytes(),
        TypeRefView::FixedBytes(width) => seq!['(', 'F', 'i', 'x', 'e', 'd', 'B', 'y', 't', 'e', 's', ' ']
            + crate::text::decimal(width as nat) + seq![')'],
        TypeRefView::Plain(name) => seq!['(', 'P', 'l', 'a', 'i', 'n', ' '] + name + seq![')'],
        TypeRefView::Vector(inner) => seq!['(', 'V', 'e', 'c', 't', 'o', 'r', ' '] + canonical_text(*inner)
            + seq![')'],
        TypeRefView::Optional(inner) => seq!['(', 'O', 'p', 't', 'i', 'o', 'n', 'a', 'l', ' ']
            + canonical_text(*inner) + seq![')'],
        TypeRefView::ScopeOf(inner) => seq!['(', 'S', 'c', 'o', 'p', 'e', 'O', 'f', ' ']
            + canonical_text(*inner) + seq![')'],
        TypeRefView::MapOf(key, value) => seq!['(', 'M', 'a', 'p', ' '] + canonical_text(*key) + seq![' ']
            + canonical_text(*value) + seq![')'],
        TypeRefView::Application { head, arguments } => seq![
            '(',
            'A',
            'p',
            'p',
            'l',
            'i',
            'c',
            'a',
            't',
            'i',
            'o',
            'n',
            ' ',
            '(',
        ] + head_spelling(head) + seq![' ', '('] + canonical_texts(arguments) + seq![')', ')', ')'],
    }
}

pub open spec fn canonical_texts(args: Seq<TypeRefView>) -> Seq<char>
    decreases args,
{
    if args.len() == 0 {
        Seq::empty()
    } else if args.len() == 1 {
        canonical_text(args[0])
    } else {
        canonical_texts(args.drop_last()) + seq![' '] + canonical_text(args.last())
    }
}


/// One more argument's view extends the views of the arguments before it.
proof fn lemma_take_step(args: Seq<TypeReference>, i: int)
    requires
        0 <= i < args.len(),
    ensures
        references_view(args.take(i + 1)).len() == i + 1,
        references_view(args.take(i + 1)).drop_last() == references_view(args.take(i)),
        references_view(args.take(i + 1)).last() == reference_view(args[i]),
        i == 0 ==> references_view(args.take(i)) == Seq::<TypeRefView>::empty(),
        i == 0 ==> references_view(args.take(i + 1))[0] == reference_view(args[i]),
{
    let t = args.take(i + 1);
    assert(t.drop_last() =~= args.take(i));
    lemma_references_view(t);
    lemma_references_view(args.take(i));
    assert(references_view(t).drop_last() =~= references_view(args.take(i)));
}

fn needs_group_exec(r: &TypeReference) -> (b: bool)
    ensures
        b == needs_group(r@),
{
    proof {
        if r is Application {
            lemma_references_view(r->arguments@);
        }
    }
    match r {
        TypeReference::MapOf(_, _) => true,
        TypeReference::Application { arguments, .. } => arguments.len() != 1,
        _ => false,
    }
}

fn append_structural(out: &mut String, r: &TypeReference)
    ensures
        final(out)@ == old(out)@ + structural_text(r@),
    decreases r, 1nat,
{
    proof {
        reveal_strlit("String");
        reveal_strlit("Integer");
        reveal_strlit("Boolean");
        reveal_strlit("Path");
        reveal_strlit("Bytes");
        reveal_strlit("Bytes.");
        reveal_strlit("Vector");
        reveal_strlit("Optional");
        reveal_strlit("ScopeOf");
        reveal_strlit("Map.(");
        reveal_strlit(".(");
        reveal_strlit(".");
        reveal_strlit(")");
        reveal_strlit(" ");
    }
    match r {
        TypeReference::String => append_literal(out, "String"),
        TypeReference::Integer => append_literal(out, "Integer"),
        TypeReference::Boolean => append_literal(out, "Boolean"),
        TypeReference::Path => append_literal(out, "Path"),
        TypeReference::Bytes => append_literal(out, "Bytes"),
        TypeReference::FixedBytes(width) => {
            append_literal(out, "Bytes.");
            let digits = crate::text::u64_to_decimal(*width);
            out.append(digits.as_str());
        },
        TypeReference::Plain(name) => out.append(name.as_str()),
        TypeReference::Vector(inner) => append_unary(out, "Vector", inner),
        TypeReference::Optional(inner) => append_unary(out, "Optional", inner),
        TypeReference::ScopeOf(inner) => append_unary(out, "ScopeOf", inner),
        TypeReference::MapOf(key, value) => {
            append_literal(out, "Map.(");
            append_structural(out, key);
            append_literal(out, " ");
            append_structural(out, value);
            append_literal(out, ")");
        },
        TypeReference::Application { head, arguments } => {
            proof {
                lemma_references_view(arguments@);
            }
            out.append(head.name().as_str());
            let grouped = !(arguments.len() == 1 && !needs_group_exec(&arguments[0]));
            if grouped {
                append_literal(out, ".(");
            } else {
                append_literal(out, ".");
            }
            let ghost before = out@;
            append_structural_list(out, r);
            if grouped {
                append_literal(out, ")");
            }
        },
    }
    assert(final(out)@ =~= old(out)@ + structural_text(r@));
}

fn append_unary(out: &mut String, head: &str, inner: &TypeReference)
    ensures
        final(out)@ == old(out)@ + unary_text(head@, inner@, structural_text(inner@)),
    decreases inner, 2nat,
{
    proof {
        reveal_strlit(".(");
        reveal_strlit(".");
        reveal_strlit(")");
    }
    out.append(head);
    if needs_group_exec(inner) {
        append_literal(out, ".(");
        append_structural(out, inner);
        append_literal(out, ")");
    } else {
        append_literal(out, ".");
        append_structural(out, inner);
    }
    assert(final(out)@ =~= old(out)@ + unary_text(head@, inner@, structural_text(inner@)));
}

/// Appends the space-separated dotted texts of an application's arguments.
fn append_structural_list(out: &mut String, r: &TypeReference)
    requires
        r is Application,
    ensures
        final(out)@ == old(out)@ + structural_texts(references_view(r->arguments@)),
    decreases r, 0nat,
{
    proof {
        reveal_strlit(" ");
    }
    let arguments = match r {
        TypeReference::Application { arguments, .. } => arguments,
        _ => { return; },
    };
    let ghost start = out@;
    let mut i: usize = 0;
    while i < arguments.len()
        invariant
            i <= arguments@.len(),
            *arguments == r->arguments,
            r is Application,
            out@ == start + structural_texts(references_view(arguments@.take(i as int))),
        decreases arguments@.len() - i,
    {
        proof {
            vstd::std_specs::vec::axiom_vec_index_decreases(*arguments, i as int);
            assert(decreases_to!(*r => r->arguments));
        }
        if i > 0 {
            append_literal(out, " ");
        }
        append_structural(out, &arguments[i]);
        proof {
            lemma_take_step(arguments@, i as int);
            reveal_strlit(" ");
            let v = references_view(arguments@.take(i + 1));
            let w = references_view(arguments@.take(i as int));
            if i == 0 {
                assert(structural_texts(v) == structural_text(v[0]));
                assert(out@ =~= start + structural_texts(v));
            } else {
                assert(structural_texts(v) == structural_texts(v.drop_last()) + seq![' ']
                    + structural_text(v.last()));
                assert(out@ =~= start + structural_texts(v));
            }
        }
        i = i + 1;
    }
    proof {
        assert(arguments@.take(arguments@.len() as int) =~= arguments@);
    }
}

impl TypeReference {
    /// The source-facing dotted text of this reference.
    pub fn structural_text(&self) -> (r: String)
        ensures
            r@ == structural_text(self@),
    {
        let mut out = String::new();
        append_structural(&mut out, self);
        assert(out@ =~= structural_text(self@));
        out
    }

    /// The canonical machine text of this reference.
    pub fn to_nota(&self) -> (r: String)
        ensures
            r@ == canonical_text(self@),
    {
        let mut out = String::new();
        append_canonical(&mut out, self);
        assert(out@ =~= canonical_text(self@));
        out
    }
}

fn append_canonical(out: &mut String, r: &TypeReference)
    ensures
        final(out)@ == old(out)@ + canonical_text(r@),
    decreases r,
{
    proof {
        reveal_strlit("String");
        reveal_strlit("Integer");
        reveal_strlit("Boolean");
        reveal_strlit("Path");
        reveal_strlit("Bytes");
        reveal_strlit("(FixedBytes ");
        reveal_strlit("(Plain ");
        reveal_strlit("(Vector ");
        reveal_strlit("(Optional ");
        reveal_strlit("(ScopeOf ");
        reveal_strlit("(Map ");
        reveal_strlit("(Application (");
        reveal_strlit(" (");
        reveal_strlit(")))");
        reveal_strlit(")");
        reveal_strlit(" ");
    }
    match r {
        TypeReference::String => append_literal(out, "String"),
        TypeReference::Integer => append_literal(out, "Integer"),
        TypeReference::Boolean => append_literal(out, "Boolean"),
        TypeReference::Path => append_literal(out, "Path"),
        TypeReference::Bytes => append_literal(out, "Bytes"),
        TypeReference::FixedBytes(width) => {
            append_literal(out, "(FixedBytes ");
            let digits = crate::text::u64_to_decimal(*width);
            out.append(digits.as_str());
            append_literal(out, ")");
        },
        TypeReference::Plain(name) => {
            append_literal(out, "(Plain ");
            out.append(name.as_str());
            append_literal(out, ")");
        },
        TypeReference::Vector(inner) => {
            append_literal(out, "(Vector ");
            append_canonical(out, inner);
            append_literal(out, ")");
        },
        TypeReference::Optional(inner) => {
            append_literal(out, "(Optional ");
            append_canonical(out, inner);
            append_literal(out, ")");
        },
        TypeReference::ScopeOf(inner) => {
            append_literal(out, "(ScopeOf ");
            append_canonical(out, inner);
            append_literal(out, ")");
        },
        TypeReference::MapOf(key, value) => {
            append_literal(out, "(Map ");
            append_canonical(out, key);
            append_literal(out, " ");
            append_canonical(out, value);
            append_literal(out, ")");
        },
        TypeReference::Application { head, arguments } => {
            append_literal(out, "(Application (");
            out.append(head.name().as_str());
            append_literal(out, " (");
            let ghost start = out@;
            let mut i: usize = 0;
            while i < arguments.len()
                invariant
                    i <= arguments@.len(),
                    *r == (TypeReference::Application { head: *head, arguments: *arguments }),
                    out@ == start + canonical_texts(references_view(arguments@.take(i as int))),
                decreases arguments@.len() - i,
            {
                proof {
                    vstd::std_specs::vec::axiom_vec_index_decreases(*arguments, i as int);
                    assert(decreases_to!(*r => r->arguments));
                }
                if i > 0 {
                    append_literal(out, " ");
                }
                append_canonical(out, &arguments[i]);
                proof {
                    lemma_take_step(arguments@, i as int);
                    reveal_strlit(" ");
                    let v = references_view(arguments@.take(i + 1));
                    if i == 0 {
                        assert(canonical_texts(v) == canonical_text(v[0]));
                        assert(out@ =~= start + canonical_texts(v));
                    } else {
                        assert(canonical_texts(v) == canonical_texts(v.drop_last()) + seq![' ']
                            + canonical_text(v.last()));
                        assert(out@ =~= start + canonical_texts(v));
                    }
                }
                i = i + 1;
            }
            proof {
                assert(arguments@.take(arguments@.len() as int) =~= arguments@);
            }
            append_literal(out, ")))");
        },
    }
    assert(final(out)@ =~= old(out)@ + canonical_text(r@));
}


/// A reference and its vector, optional and scope wrappers derive four
/// different field names, each apart from the inner reference's: a struct
/// holding a component and its wrapped forms side by side never derives
/// one name twice.
pub proof fn lemma_wrappers_derive_distinct_names(t: TypeRefView)
    ensures
        ({
            let plain = derived_name(t);
            let vector = derived_name(TypeRefView::Vector(Box::new(t)));
            let optional = derived_name(TypeRefView::Optional(Box::new(t)));
            let scope = derived_name(TypeRefView::ScopeOf(Box::new(t)));
            &&& vector != plain && optional != plain && scope != plain
            &&& vector != optional && vector != scope && optional != scope
            &&& scope == plain + seq!['_', 's', 'c', 'o', 'p', 'e']
            &&& vector == plain + seq!['_', 'v', 'e', 'c', 't', 'o', 'r']
            &&& optional == seq!['o', 'p', 't', 'i', 'o', 'n', 'a', 'l', '_'] + plain
        }),
{
    let plain = derived_name(t);
    let vector = derived_name(TypeRefView::Vector(Box::new(t)));
    let optional = derived_name(TypeRefView::Optional(Box::new(t)));
    let scope = derived_name(TypeRefView::ScopeOf(Box::new(t)));
    assert(vector.len() == plain.len() + 7);
    assert(optional.len() == plain.len() + 9);
    assert(scope.len() == plain.len() + 6);
    if vector == scope {
        assert(vector.len() == scope.len());
    }
}
} // verus!
