//! The source form of a schema: what an author writes, before names are
//! resolved against their scope and inline declarations are lifted out.
use vstd::prelude::*;

use crate::name::{Name, TableName};
use crate::reference::{
    ApplicationHead, HeadView, TypeRefView, TypeReference, derived_name, head_spelling,
    lemma_references_view, reference_view, references_view, scalar_of, scalar_spelling,
    structural_text,
};
use crate::schema::{FamilyKey, StreamRelation, StreamRelationView};

verus! {

// ---------------------------------------------------------------- references
/// A reference as written in source: a name, a fixed byte width, a builtin
/// wrapper, or a generic application. Scalar names are still names here.
#[derive(Debug)]
pub enum SourceReference {
    Plain(Name),
    FixedBytes(u64),
    Vector(Box<SourceReference>),
    Optional(Box<SourceReference>),
    ScopeOf(Box<SourceReference>),
    MapOf(Box<SourceReference>, Box<SourceReference>),
    Application { head: Name, arguments: Vec<SourceReference> },
}

/// The mathematical form of a source reference: names by their spelling.
pub enum SourceRefView {
    Plain(Seq<char>),
    FixedBytes(u64),
    Vector(Box<SourceRefView>),
    Optional(Box<SourceRefView>),
    ScopeOf(Box<SourceRefView>),
    MapOf(Box<SourceRefView>, Box<SourceRefView>),
    Application { head: Seq<char>, arguments: Seq<SourceRefView> },
}

pub open spec fn source_view(r: SourceReference) -> SourceRefView
    decreases r, 1nat,
{
    match r {
        SourceReference::Plain(name) => SourceRefView::Plain(name@),
        SourceReference::FixedBytes(width) => SourceRefView::FixedBytes(width),
        SourceReference::Vector(inner) => SourceRefView::Vector(Box::new(source_view(*inner))),
        SourceReference::Optional(inner) => SourceRefView::Optional(Box::new(source_view(*inner))),
        SourceReference::ScopeOf(inner) => SourceRefView::ScopeOf(Box::new(source_view(*inner))),
        SourceReference::MapOf(key, value) => SourceRefView::MapOf(
            Box::new(source_view(*key)),
            Box::new(source_view(*value)),
        ),
        SourceReference::Application { head, arguments } => SourceRefView::Application {
            head: head@,
            arguments: source_views(arguments@),
        },
    }
}

pub open spec fn source_views(rs: Seq<SourceReference>) -> Seq<SourceRefView>
    decreases rs, 0nat,
{
    if rs.len() == 0 {
        Seq::empty()
    } else {
        source_views(rs.drop_last()).push(source_view(rs.last()))
    }
}

/// The view of a source reference list is the view of each, in order.
pub proof fn lemma_source_views(rs: Seq<SourceReference>)
    ensures
        source_views(rs).len() == rs.len(),
        forall|i: int| 0 <= i < rs.len() ==> #[trigger] source_views(rs)[i] == source_view(rs[i]),
    decreases rs.len(),
{
    if rs.len() > 0 {
        lemma_source_views(rs.drop_last());
        assert forall|i: int| 0 <= i < rs.len() implies #[trigger] source_views(rs)[i]
            == source_view(rs[i]) by {
            if i < rs.len() - 1 {
                assert(rs.drop_last()[i] == rs[i]);
            }
        }
    }
}

impl View for SourceReference {
    type V = SourceRefView;

    open spec fn view(&self) -> SourceRefView {
        source_view(*self)
    }
}

/// The reference a name stands for when nothing in scope renames it: a
/// reserved scalar spelling is its scalar, any other name a declared name.
pub open spec fn type_of_name(n: Seq<char>) -> TypeRefView {
    match scalar_of(n) {
        Some(t) => t,
        None => TypeRefView::Plain(n),
    }
}

/// The reference a source reference stands for read without a scope.
pub open spec fn source_type(r: SourceRefView) -> TypeRefView
    decreases r, 1nat,
{
    match r {
        SourceRefView::Plain(name) => type_of_name(name),
        SourceRefView::FixedBytes(width) => TypeRefView::FixedBytes(width),
        SourceRefView::Vector(inner) => TypeRefView::Vector(Box::new(source_type(*inner))),
        SourceRefView::Optional(inner) => TypeRefView::Optional(Box::new(source_type(*inner))),
        SourceRefView::ScopeOf(inner) => TypeRefView::ScopeOf(Box::new(source_type(*inner))),
        SourceRefView::MapOf(key, value) => TypeRefView::MapOf(
            Box::new(source_type(*key)),
            Box::new(source_type(*value)),
        ),
        SourceRefView::Application { head, arguments } => TypeRefView::Application {
            head: HeadView::Local(head),
            arguments: source_types(arguments),
        },
    }
}

pub open spec fn source_types(rs: Seq<SourceRefView>) -> Seq<TypeRefView>
    decreases rs, 0nat,
{
    if rs.len() == 0 {
        Seq::empty()
    } else {
        source_types(rs.drop_last()).push(source_type(rs.last()))
    }
}

/// The source form of a reference: scalars by their spelling, an
/// application by its head's local name.
pub open spec fn source_of_type(t: TypeRefView) -> SourceRefView
    decreases t, 1nat,
{
    match t {
        TypeRefView::Plain(name) => SourceRefView::Plain(name),
        TypeRefView::FixedBytes(width) => SourceRefView::FixedBytes(width),
        TypeRefView::Vector(inner) => SourceRefView::Vector(Box::new(source_of_type(*inner))),
        TypeRefView::Optional(inner) => SourceRefView::Optional(Box::new(source_of_type(*inner))),
        TypeRefView::ScopeOf(inner) => SourceRefView::ScopeOf(Box::new(source_of_type(*inner))),
        TypeRefView::MapOf(key, value) => SourceRefView::MapOf(
            Box::new(source_of_type(*key)),
            Box::new(source_of_type(*value)),
        ),
        TypeRefView::Application { head, arguments } => SourceRefView::Application {
            head: head_spelling(head),
            arguments: sources_of_types(arguments),
        },
        _ => SourceRefView::Plain(scalar_spelling(t).unwrap()),
    }
}

pub open spec fn sources_of_types(ts: Seq<TypeRefView>) -> Seq<SourceRefView>
    decreases ts, 0nat,
{
    if ts.len() == 0 {
        Seq::empty()
    } else {
        sources_of_types(ts.drop_last()).push(source_of_type(ts.last()))
    }
}

/// Whether a reference survives the trip through its source form: no
/// declared name spells a scalar, and every application head is local.
pub open spec fn reads_back(t: TypeRefView) -> bool
    decreases t, 1nat,
{
    match t {
        TypeRefView::Plain(name) => scalar_of(name) is None,
        TypeRefView::Vector(inner) => reads_back(*inner),
        TypeRefView::Optional(inner) => reads_back(*inner),
        TypeRefView::ScopeOf(inner) => reads_back(*inner),
        TypeRefView::MapOf(key, value) => reads_back(*key) && reads_back(*value),
        TypeRefView::Application { head, arguments } => head is Local && all_read_back(arguments),
        _ => true,
    }
}

pub open spec fn all_read_back(ts: Seq<TypeRefView>) -> bool
    decreases ts, 0nat,
{
    ts.len() == 0 || (all_read_back(ts.drop_last()) && reads_back(ts.last()))
}

/// A reference written in source form and read back without a scope is the
/// reference it was, wherever no declared name spells a scalar and every
/// application head is local.
pub proof fn lemma_source_form_reads_back(t: TypeRefView)
    requires
        reads_back(t),
    ensures
        source_type(source_of_type(t)) == t,
    decreases t, 1nat,
{
    match t {
        TypeRefView::Vector(inner) => lemma_source_form_reads_back(*inner),
        TypeRefView::Optional(inner) => lemma_source_form_reads_back(*inner),
        TypeRefView::ScopeOf(inner) => lemma_source_form_reads_back(*inner),
        TypeRefView::MapOf(key, value) => {
            lemma_source_form_reads_back(*key);
            lemma_source_form_reads_back(*value);
        },
        TypeRefView::Application { head, arguments } => {
            lemma_source_forms_read_back(arguments);
        },
        _ => {},
    }
}

proof fn lemma_source_forms_read_back(ts: Seq<TypeRefView>)
    requires
        all_read_back(ts),
    ensures
        source_types(sources_of_types(ts)) == ts,
    decreases ts, 0nat,
{
    if ts.len() > 0 {
        lemma_source_forms_read_back(ts.drop_last());
        lemma_source_form_reads_back(ts.last());
        let s = sources_of_types(ts);
        assert(s.drop_last() == sources_of_types(ts.drop_last()));
        assert(ts.drop_last().push(ts.last()) =~= ts);
    }
}

proof fn lemma_source_take_step(args: Seq<SourceReference>, i: int)
    requires
        0 <= i < args.len(),
    ensures
        source_views(args.take(i + 1)) == source_views(args.take(i)).push(source_view(args[i])),
{
    assert(args.take(i + 1).drop_last() =~= args.take(i));
}

proof fn lemma_types_step(rs: Seq<SourceRefView>, i: int)
    requires
        0 <= i < rs.len(),
    ensures
        source_types(rs.take(i + 1)) == source_types(rs.take(i)).push(source_type(rs[i])),
{
    assert(rs.take(i + 1).drop_last() =~= rs.take(i));
}

proof fn lemma_sources_step(ts: Seq<TypeRefView>, i: int)
    requires
        0 <= i < ts.len(),
    ensures
        sources_of_types(ts.take(i + 1)) == sources_of_types(ts.take(i)).push(source_of_type(ts[i])),
{
    assert(ts.take(i + 1).drop_last() =~= ts.take(i));
}

/// Copies a source reference.
pub fn copy_source(r: &SourceReference) -> (out: SourceReference)
    ensures
        out@ == r@,
    decreases r,
{
    match r {
        SourceReference::Plain(name) => SourceReference::Plain(name.clone()),
        SourceReference::FixedBytes(width) => SourceReference::FixedBytes(*width),
        SourceReference::Vector(inner) => SourceReference::Vector(Box::new(copy_source(inner))),
        SourceReference::Optional(inner) => SourceReference::Optional(Box::new(copy_source(inner))),
        SourceReference::ScopeOf(inner) => SourceReference::ScopeOf(Box::new(copy_source(inner))),
        SourceReference::MapOf(key, value) => SourceReference::MapOf(
            Box::new(copy_source(key)),
            Box::new(copy_source(value)),
        ),
        SourceReference::Application { head, arguments } => {
            let mut copied: Vec<SourceReference> = Vec::new();
            let mut i: usize = 0;
            while i < arguments.len()
                invariant
                    i <= arguments@.len(),
                    r matches SourceReference::Application { arguments: a, .. } && a == *arguments,
                    source_views(copied@) == source_views(arguments@.take(i as int)),
                decreases arguments@.len() - i,
            {
                proof {
                    vstd::std_specs::vec::axiom_vec_index_decreases(*arguments, i as int);
                    assert(decreases_to!(*r => *arguments));
                }
                let c = copy_source(&arguments[i]);
                let ghost before = copied@;
                copied.push(c);
                proof {
                    assert(copied@.drop_last() =~= before);
                    lemma_source_take_step(arguments@, i as int);
                }
                i = i + 1;
            }
            proof {
                assert(arguments@.take(i as int) =~= arguments@);
            }
            SourceReference::Application { head: head.clone(), arguments: copied }
        },
    }
}

impl Clone for SourceReference {
    fn clone(&self) -> (r: Self)
        ensures
            r@ == self@,
    {
        copy_source(self)
    }
}

impl SourceReference {
    /// The source form of a lowered reference: scalars become their
    /// spelling, an application keeps its head's local name.
    pub fn from_type_reference(reference: &TypeReference) -> (r: Self)
        ensures
            r@ == source_of_type(reference@),
        decreases reference,
    {
        proof {
            reveal_strlit("String");
            reveal_strlit("Integer");
            reveal_strlit("Boolean");
            reveal_strlit("Path");
            reveal_strlit("Bytes");
            assert("String"@ =~= crate::reference::spelled_string());
            assert("Integer"@ =~= crate::reference::spelled_integer());
            assert("Boolean"@ =~= crate::reference::spelled_boolean());
            assert("Path"@ =~= crate::reference::spelled_path());
            assert("Bytes"@ =~= crate::reference::spelled_bytes());
        }
        match reference {
            TypeReference::String => SourceReference::Plain(Name::new("String")),
            TypeReference::Integer => SourceReference::Plain(Name::new("Integer")),
            TypeReference::Boolean => SourceReference::Plain(Name::new("Boolean")),
            TypeReference::Path => SourceReference::Plain(Name::new("Path")),
            TypeReference::Bytes => SourceReference::Plain(Name::new("Bytes")),
            TypeReference::FixedBytes(width) => SourceReference::FixedBytes(*width),
            TypeReference::Plain(name) => SourceReference::Plain(name.clone()),
            TypeReference::Vector(inner) => SourceReference::Vector(
                Box::new(Self::from_type_reference(inner)),
            ),
            TypeReference::MapOf(key, value) => SourceReference::MapOf(
                Box::new(Self::from_type_reference(key)),
                Box::new(Self::from_type_reference(value)),
            ),
            TypeReference::Optional(inner) => SourceReference::Optional(
                Box::new(Self::from_type_reference(inner)),
            ),
            TypeReference::ScopeOf(inner) => SourceReference::ScopeOf(
                Box::new(Self::from_type_reference(inner)),
            ),
            TypeReference::Application { head, arguments } => {
                proof {
                    lemma_references_view(arguments@);
                }
                let mut converted: Vec<SourceReference> = Vec::new();
                let mut i: usize = 0;
                while i < arguments.len()
                    invariant
                        i <= arguments@.len(),
                        reference matches TypeReference::Application { arguments: a, .. } && a
                            == *arguments,
                        references_view(arguments@).len() == arguments@.len(),
                        forall|k: int|
                            0 <= k < arguments@.len() ==> #[trigger] references_view(arguments@)[k]
                                == reference_view(arguments@[k]),
                        source_views(converted@) == sources_of_types(
                            references_view(arguments@).take(i as int),
                        ),
                    decreases arguments@.len() - i,
                {
                    proof {
                        vstd::std_specs::vec::axiom_vec_index_decreases(*arguments, i as int);
                        assert(decreases_to!(*reference => *arguments));
                    }
                    let c = Self::from_type_reference(&arguments[i]);
                    let ghost before = converted@;
                    converted.push(c);
                    proof {
                        assert(converted@.drop_last() =~= before);
                        lemma_sources_step(references_view(arguments@), i as int);
                    }
                    i = i + 1;
                }
                proof {
                    assert(references_view(arguments@).take(i as int) =~= references_view(
                        arguments@,
                    ));
                }
                SourceReference::Application { head: head.name().clone(), arguments: converted }
            },
        }
    }

    /// The lowered reference this source reference stands for, read without
    /// a scope: scalar spellings become scalars, every application a local
    /// application.
    pub fn to_type_reference(&self) -> (r: TypeReference)
        ensures
            r@ == source_type(self@),
        decreases self,
    {
        match self {
            SourceReference::Plain(name) => TypeReference::from_name(name.clone()),
            SourceReference::FixedBytes(width) => TypeReference::FixedBytes(*width),
            SourceReference::Vector(inner) => TypeReference::Vector(Box::new(inner.to_type_reference())),
            SourceReference::Optional(inner) => TypeReference::Optional(
                Box::new(inner.to_type_reference()),
            ),
            SourceReference::ScopeOf(inner) => TypeReference::ScopeOf(
                Box::new(inner.to_type_reference()),
            ),
            SourceReference::MapOf(key, value) => TypeReference::MapOf(
                Box::new(key.to_type_reference()),
                Box::new(value.to_type_reference()),
            ),
            SourceReference::Application { head, arguments } => {
                proof {
                    lemma_source_views(arguments@);
                }
                let mut lowered: Vec<TypeReference> = Vec::new();
                let mut i: usize = 0;
                while i < arguments.len()
                    invariant
                        i <= arguments@.len(),
                        self matches SourceReference::Application { arguments: a, .. } && a
                            == *arguments,
                        source_views(arguments@).len() == arguments@.len(),
                        forall|k: int|
                            0 <= k < arguments@.len() ==> #[trigger] source_views(arguments@)[k]
                                == source_view(arguments@[k]),
                        references_view(lowered@) == source_types(
                            source_views(arguments@).take(i as int),
                        ),
                    decreases arguments@.len() - i,
                {
                    proof {
                        vstd::std_specs::vec::axiom_vec_index_decreases(*arguments, i as int);
                        assert(decreases_to!(*self => *arguments));
                    }
                    let t = arguments[i].to_type_reference();
                    let ghost before = lowered@;
                    lowered.push(t);
                    proof {
                        assert(lowered@.drop_last() =~= before);
                        lemma_types_step(source_views(arguments@), i as int);
                    }
                    i = i + 1;
                }
                let local = head.clone();
                proof {
                    assert(source_views(arguments@).take(i as int) =~= source_views(arguments@));
                    crate::reference::lemma_local_head_view(local);
                }
                TypeReference::Application {
                    head: ApplicationHead::Local(local),
                    arguments: lowered,
                }
            },
        }
    }

    /// The name when this reference is a bare name.
    pub fn plain_name(&self) -> (r: Option<&Name>)
        ensures
            self is Plain <==> r is Some,
            r matches Some(n) ==> self matches SourceReference::Plain(m) && *n == m,
    {
        match self {
            SourceReference::Plain(name) => Some(name),
            _ => None,
        }
    }

    /// The dotted source text of this reference.
    pub fn to_schema_text(&self) -> (r: String)
        ensures
            r@ == structural_text(source_type(self@)),
    {
        self.to_type_reference().structural_text()
    }

    /// The dotted source text of this reference, as every rendering of a
    /// reference token writes it.
    pub fn rendered_schema_text(&self) -> (r: String)
        ensures
            r@ == structural_text(source_type(self@)),
    {
        self.to_schema_text()
    }

    /// The field name a struct component of this type derives.
    pub fn derived_field_name(&self) -> (r: Name)
        ensures
            r@ == derived_name(source_type(self@)),
    {
        self.to_type_reference().derived_field_name()
    }
}

// ---------------------------------------------------------------- identifier case
/// Whether a name is led by an ASCII uppercase letter: a type name.
pub open spec fn is_type_case(n: Seq<char>) -> bool {
    n.len() > 0 && crate::text::is_upper(n[0])
}

/// Whether a name is led by an ASCII lowercase letter: a namespace, method
/// or parameter name.
pub open spec fn is_lower_case(n: Seq<char>) -> bool {
    n.len() > 0 && crate::text::is_lower(n[0])
}

pub fn name_is_type_case(name: &Name) -> (r: bool)
    ensures
        r == is_type_case(name@),
{
    let text = name.as_str();
    if text.unicode_len() == 0 {
        false
    } else {
        crate::text::char_is_upper(text.get_char(0))
    }
}

pub fn name_is_lower_case(name: &Name) -> (r: bool)
    ensures
        r == is_lower_case(name@),
{
    let text = name.as_str();
    if text.unicode_len() == 0 {
        false
    } else {
        crate::text::char_is_lower(text.get_char(0))
    }
}

// ---------------------------------------------------------------- stream relations
/// The keyword relating a variant to a stream.
#[derive(Clone, Copy, Debug, PartialEq, Eq, Structural)]
pub enum StreamRelationKeyword {
    Opens,
    Belongs,
}

impl StreamRelationKeyword {
    /// The keyword of a stream relation.
    pub fn of_relation(relation: &StreamRelation) -> (r: Self)
        ensures
            relation is Opens ==> r == StreamRelationKeyword::Opens,
            relation is Belongs ==> r == StreamRelationKeyword::Belongs,
    {
        match relation {
            StreamRelation::Opens(_) => StreamRelationKeyword::Opens,
            StreamRelation::Belongs(_) => StreamRelationKeyword::Belongs,
        }
    }

    /// The relation this keyword makes with the named stream.
    pub fn into_stream_relation(self, stream_name: Name) -> (r: StreamRelation)
        ensures
            r@ == keyword_relation(self, stream_name@),
    {
        match self {
            StreamRelationKeyword::Opens => StreamRelation::Opens(stream_name),
            StreamRelationKeyword::Belongs => StreamRelation::Belongs(stream_name),
        }
    }
}

pub open spec fn keyword_relation(k: StreamRelationKeyword, stream: Seq<char>) -> StreamRelationView {
    match k {
        StreamRelationKeyword::Opens => StreamRelationView::Opens(stream),
        StreamRelationKeyword::Belongs => StreamRelationView::Belongs(stream),
    }
}

// ---------------------------------------------------------------- streams and families
/// A stream declaration's body: its token, opened, event and close types.
#[derive(Debug)]
pub struct SourceStreamBody {
    pub token: SourceReference,
    pub opened: SourceReference,
    pub event: SourceReference,
    pub close: SourceReference,
}

impl SourceStreamBody {
    pub fn new(
        token: SourceReference,
        opened: SourceReference,
        event: SourceReference,
        close: SourceReference,
    ) -> (r: Self)
        ensures
            r.token@ == token@,
            r.opened@ == opened@,
            r.event@ == event@,
            r.close@ == close@,
    {
        SourceStreamBody { token, opened, event, close }
    }

    pub fn token(&self) -> (r: &SourceReference)
        ensures
            r@ == self.token@,
    {
        &self.token
    }

    pub fn opened(&self) -> (r: &SourceReference)
        ensures
            r@ == self.opened@,
    {
        &self.opened
    }

    pub fn event(&self) -> (r: &SourceReference)
        ensures
            r@ == self.event@,
    {
        &self.event
    }

    pub fn close(&self) -> (r: &SourceReference)
        ensures
            r@ == self.close@,
    {
        &self.close
    }
}

/// A family declaration's body: the record it stores, its table, and how
/// it is keyed.
#[derive(Debug)]
pub struct SourceFamilyBody {
    pub record: Name,
    pub table: TableName,
    pub key: FamilyKey,
}

impl SourceFamilyBody {
    pub fn new(record: Name, table: TableName, key: FamilyKey) -> (r: Self)
        ensures
            r.record == record,
            r.table == table,
            r.key == key,
    {
        SourceFamilyBody { record, table, key }
    }

    pub fn record(&self) -> (r: &Name)
        ensures
            *r == self.record,
    {
        &self.record
    }

    pub fn table(&self) -> (r: &TableName)
        ensures
            *r == self.table,
    {
        &self.table
    }

    pub fn key(&self) -> (r: FamilyKey)
        ensures
            r == self.key,
    {
        self.key
    }
}

// ---------------------------------------------------------------- variants
/// A variant or stream name as written in source.
#[derive(Debug)]
pub struct SourceVariantName(pub Name);

impl SourceVariantName {
    pub fn new(name: Name) -> (r: Self)
        ensures
            r.0 == name,
    {
        SourceVariantName(name)
    }

    pub fn name(&self) -> (r: &Name)
        ensures
            *r == self.0,
    {
        &self.0
    }
}

/// A variant's payload: a reference, or a declaration written inline.
#[derive(Debug)]
pub enum SourceVariantPayload {
    Reference(SourceReference),
    Declaration(SourceDeclarationValue),
}

/// Whether a lowered variant is written self-tagged: no stream relation and
/// a payload that is a bare reference to the variant's own name.
pub open spec fn projects_self_tagged(name: Seq<char>, payload: Option<SourceVariantPayload>, no_relation: bool) -> bool {
    no_relation && match payload {
        Some(SourceVariantPayload::Reference(SourceReference::Plain(p))) => p@ == name,
        _ => false,
    }
}

/// A variant as written: a bare name, a self-tagged name whose payload is
/// the type of the same name, a name with a payload, or a name with a
/// payload and a relation to a stream.
#[derive(Debug)]
pub enum SourceVariantSignature {
    Unit(SourceVariantName),
    SelfTagged(SourceVariantName),
    Data(SourceVariantName, SourceVariantPayload),
    Streaming(SourceVariantName, SourceVariantPayload, StreamRelationKeyword, SourceVariantName),
}

impl SourceVariantSignature {
    pub open spec fn spec_name(&self) -> Name {
        match self {
            SourceVariantSignature::Unit(n) => n.0,
            SourceVariantSignature::SelfTagged(n) => n.0,
            SourceVariantSignature::Data(n, _) => n.0,
            SourceVariantSignature::Streaming(n, _, _, _) => n.0,
        }
    }

    pub open spec fn spec_payload(&self) -> Option<SourceVariantPayload> {
        match self {
            SourceVariantSignature::Data(_, p) => Some(*p),
            SourceVariantSignature::Streaming(_, p, _, _) => Some(*p),
            _ => None,
        }
    }

    pub open spec fn spec_stream_relation(&self) -> Option<StreamRelationView> {
        match self {
            SourceVariantSignature::Streaming(_, _, keyword, stream) => Some(
                keyword_relation(*keyword, stream.0@),
            ),
            _ => None,
        }
    }

    pub fn from_name(name: Name) -> (r: Self)
        ensures
            r == SourceVariantSignature::Unit(SourceVariantName(name)),
    {
        SourceVariantSignature::Unit(SourceVariantName::new(name))
    }

    pub fn from_payload(name: Name, payload: SourceVariantPayload) -> (r: Self)
        ensures
            r == SourceVariantSignature::Data(SourceVariantName(name), payload),
    {
        SourceVariantSignature::Data(SourceVariantName::new(name), payload)
    }

    pub fn from_self_tagged(name: Name) -> (r: Self)
        ensures
            r == SourceVariantSignature::SelfTagged(SourceVariantName(name)),
    {
        SourceVariantSignature::SelfTagged(SourceVariantName::new(name))
    }

    /// The source form of a lowered variant: a payload naming the variant
    /// itself, with no stream relation, is self-tagged; a payload with a
    /// relation is streaming; a lone payload is data; no payload is a unit.
    pub fn from_projected(
        name: Name,
        payload: Option<SourceVariantPayload>,
        stream_relation: Option<&StreamRelation>,
    ) -> (r: Self)
        ensures
            projects_self_tagged(name@, payload, stream_relation is None) ==> r
                == SourceVariantSignature::SelfTagged(SourceVariantName(name)),
            !projects_self_tagged(name@, payload, stream_relation is None) && payload is Some
                && stream_relation is Some ==> (r matches SourceVariantSignature::Streaming(n, p, k, s)
                && n.0 == name && p == payload.unwrap() && keyword_relation(k, s.0@)
                == stream_relation.unwrap()@),
            !projects_self_tagged(name@, payload, stream_relation is None) && payload is Some
                && stream_relation is None ==> r == SourceVariantSignature::Data(
                SourceVariantName(name),
                payload.unwrap(),
            ),
            payload is None ==> r == SourceVariantSignature::Unit(SourceVariantName(name)),
    {
        let self_tagged = match (&payload, stream_relation) {
            (Some(SourceVariantPayload::Reference(SourceReference::Plain(p))), None) => *p == name,
            _ => false,
        };
        if self_tagged {
            return Self::from_self_tagged(name);
        }
        match payload {
            Some(payload) => match stream_relation {
                Some(relation) => {
                    let keyword = StreamRelationKeyword::of_relation(relation);
                    let stream = relation.stream_name().clone();
                    SourceVariantSignature::Streaming(
                        SourceVariantName::new(name),
                        payload,
                        keyword,
                        SourceVariantName::new(stream),
                    )
                },
                None => Self::from_payload(name, payload),
            },
            None => Self::from_name(name),
        }
    }

    pub fn name(&self) -> (r: &Name)
        ensures
            *r == self.spec_name(),
    {
        match self {
            SourceVariantSignature::Unit(n) => n.name(),
            SourceVariantSignature::SelfTagged(n) => n.name(),
            SourceVariantSignature::Data(n, _) => n.name(),
            SourceVariantSignature::Streaming(n, _, _, _) => n.name(),
        }
    }

    /// The payload reference, when the payload is a reference.
    pub fn payload(&self) -> (r: Option<&SourceReference>)
        ensures
            match self.spec_payload() {
                Some(SourceVariantPayload::Reference(p)) => r == Some(&p),
                _ => r is None,
            },
    {
        match self.payload_source() {
            Some(SourceVariantPayload::Reference(reference)) => Some(reference),
            _ => None,
        }
    }

    /// The payload as written, reference or inline declaration.
    pub fn payload_source(&self) -> (r: Option<&SourceVariantPayload>)
        ensures
            match self.spec_payload() {
                Some(p) => r == Some(&p),
                None => r is None,
            },
    {
        match self {
            SourceVariantSignature::Data(_, p) => Some(p),
            SourceVariantSignature::Streaming(_, p, _, _) => Some(p),
            _ => None,
        }
    }

    /// The variant's relation to a stream.
    pub fn stream_relation(&self) -> (r: Option<StreamRelation>)
        ensures
            match self.spec_stream_relation() {
                Some(v) => r is Some && r.unwrap()@ == v,
                None => r is None,
            },
    {
        match self {
            SourceVariantSignature::Streaming(_, _, keyword, stream) => Some(
                keyword.into_stream_relation(stream.name().clone()),
            ),
            _ => None,
        }
    }
}

/// An enum body as written: its variants in order.
#[derive(Debug)]
pub struct SourceEnumBody {
    pub variants: Vec<SourceVariantSignature>,
}

impl SourceEnumBody {
    pub fn new(variants: Vec<SourceVariantSignature>) -> (r: Self)
        ensures
            r.variants == variants,
    {
        SourceEnumBody { variants }
    }

    pub fn variants(&self) -> (r: &[SourceVariantSignature])
        ensures
            r@ == self.variants@,
    {
        self.variants.as_slice()
    }
}

// ---------------------------------------------------------------- fields
/// Whether a field's name was written by the author or derived from its type.
#[derive(Clone, Copy, Debug, PartialEq, Eq, Structural)]
pub enum SourceFieldIdentity {
    Implicit,
    Explicit,
}

/// A field's value as written: derived from its name, a reference, or an
/// inline declaration.
#[derive(Debug)]
pub enum SourceFieldValue {
    Derived,
    Reference(SourceReference),
    Declaration(SourceDeclarationValue),
}

/// The type name a field is written as alone: a bare name whose derived
/// field name is the field's name.
pub open spec fn derived_source_name(s: SourceRefView, field: Seq<char>) -> Option<Seq<char>> {
    match s {
        SourceRefView::Plain(p) => if crate::name::field_name_of(p) == field {
            Some(p)
        } else {
            None
        },
        _ => None,
    }
}

/// A struct field as written.
#[derive(Debug)]
pub struct SourceField {
    pub name: Name,
    pub value: SourceFieldValue,
    pub identity: SourceFieldIdentity,
}

impl SourceField {
    /// A field named by a type name, whose type is that name.
    pub fn derived(name: Name) -> (r: Self)
        ensures
            r == (SourceField {
                name,
                value: SourceFieldValue::Derived,
                identity: SourceFieldIdentity::Implicit,
            }),
    {
        SourceField { name, value: SourceFieldValue::Derived, identity: SourceFieldIdentity::Implicit }
    }

    /// A field with an explicit name and a reference.
    pub fn from_reference(name: Name, reference: SourceReference) -> (r: Self)
        ensures
            r == (SourceField {
                name,
                value: SourceFieldValue::Reference(reference),
                identity: SourceFieldIdentity::Explicit,
            }),
    {
        SourceField {
            name,
            value: SourceFieldValue::Reference(reference),
            identity: SourceFieldIdentity::Explicit,
        }
    }

    /// The source form of a lowered field: a field whose name is the
    /// derived name of its plain type is written as that type alone.
    pub fn from_type_reference(name: Name, reference: &TypeReference) -> (r: Self)
        ensures
            derived_source_name(source_of_type(reference@), name@) matches Some(p) ==> r.value
                is Derived && r.identity == SourceFieldIdentity::Implicit && r.name@ == p,
            derived_source_name(source_of_type(reference@), name@) is None ==> r.name == name
                && r.identity == SourceFieldIdentity::Explicit,
            derived_source_name(source_of_type(reference@), name@) is None ==> (r.value matches SourceFieldValue::Reference(v)
                && v@ == source_of_type(reference@)),
    {
        let source = SourceReference::from_type_reference(reference);
        let derived = match &source {
            SourceReference::Plain(reference_name) => {
                let field = Name::from_string(reference_name.field_name());
                if field == name {
                    Some(reference_name.clone())
                } else {
                    None
                }
            },
            _ => None,
        };
        match derived {
            Some(reference_name) => Self::derived(reference_name),
            None => Self::from_reference(name, source),
        }
    }

    pub fn name(&self) -> (r: &Name)
        ensures
            *r == self.name,
    {
        &self.name
    }

    pub fn value(&self) -> (r: &SourceFieldValue)
        ensures
            *r == self.value,
    {
        &self.value
    }
}

/// A struct body as written: its fields in order.
#[derive(Debug)]
pub struct SourceStructBody {
    pub fields: Vec<SourceField>,
}

impl SourceStructBody {
    pub fn new(fields: Vec<SourceField>) -> (r: Self)
        ensures
            r.fields == fields,
    {
        SourceStructBody { fields }
    }

    pub fn fields(&self) -> (r: &[SourceField])
        ensures
            r@ == self.fields@,
    {
        self.fields.as_slice()
    }
}

// ---------------------------------------------------------------- declarations
/// A declaration's value as written.
#[derive(Debug)]
pub enum SourceDeclarationValue {
    Reference(SourceReference),
    Text(String),
    Struct(SourceStructBody),
    Enum(SourceEnumBody),
    Stream(SourceStreamBody),
    Family(SourceFamilyBody),
}

impl SourceDeclarationValue {
    /// Whether the value declares a type: streams and families do not.
    pub fn is_type_declaration(&self) -> (r: bool)
        ensures
            r == !(self is Stream || self is Family),
    {
        match self {
            SourceDeclarationValue::Stream(_) | SourceDeclarationValue::Family(_) => false,
            _ => true,
        }
    }
}

/// A named declaration as written on its own.
#[derive(Debug)]
pub struct SourceDeclaration {
    pub name: Name,
    pub value: Option<SourceDeclarationValue>,
}

impl SourceDeclaration {
    pub fn new(name: Name, value: Option<SourceDeclarationValue>) -> (r: Self)
        ensures
            r.name == name,
            r.value == value,
    {
        SourceDeclaration { name, value }
    }

    pub fn name(&self) -> (r: &Name)
        ensures
            *r == self.name,
    {
        &self.name
    }

    pub fn value(&self) -> (r: Option<&SourceDeclarationValue>)
        ensures
            match self.value {
                Some(v) => r == Some(&v),
                None => r is None,
            },
    {
        match &self.value {
            Some(v) => Some(v),
            None => None,
        }
    }
}

/// Several declarations written one after another.
#[derive(Debug)]
pub struct SourceDeclarations {
    pub declarations: Vec<SourceDeclaration>,
}

impl SourceDeclarations {
    pub fn new(declarations: Vec<SourceDeclaration>) -> (r: Self)
        ensures
            r.declarations == declarations,
    {
        SourceDeclarations { declarations }
    }

    pub fn declarations(&self) -> (r: &[SourceDeclaration])
        ensures
            r@ == self.declarations@,
    {
        self.declarations.as_slice()
    }
}

// ---------------------------------------------------------------- impl catalogs
/// A method parameter as written.
#[derive(Debug)]
pub struct SourceMethodParameter {
    pub name: Name,
    pub reference: SourceReference,
}

impl SourceMethodParameter {
    pub fn name(&self) -> (r: &Name)
        ensures
            *r == self.name,
    {
        &self.name
    }

    pub fn reference(&self) -> (r: &SourceReference)
        ensures
            r@ == self.reference@,
    {
        &self.reference
    }
}

/// A method signature as written: name, parameters, return reference.
#[derive(Debug)]
pub struct SourceMethodSignature {
    pub name: Name,
    pub parameters: Vec<SourceMethodParameter>,
    pub return_reference: SourceReference,
}

impl SourceMethodSignature {
    pub fn name(&self) -> (r: &Name)
        ensures
            *r == self.name,
    {
        &self.name
    }

    pub fn parameters(&self) -> (r: &[SourceMethodParameter])
        ensures
            r@ == self.parameters@,
    {
        self.parameters.as_slice()
    }

    pub fn return_reference(&self) -> (r: &SourceReference)
        ensures
            r@ == self.return_reference@,
    {
        &self.return_reference
    }
}

/// One entry of an impl catalog as written.
#[derive(Debug)]
pub enum SourceImplEntry {
    Marker(Name),
    TraitImpl(Name, Vec<SourceMethodSignature>),
    InherentMethod(SourceMethodSignature),
}

/// A trailing impl catalog as written.
#[derive(Debug)]
pub struct SourceImplCatalog {
    pub entries: Vec<SourceImplEntry>,
}

impl SourceImplCatalog {
    pub fn empty() -> (r: Self)
        ensures
            r.entries@.len() == 0,
    {
        SourceImplCatalog { entries: Vec::new() }
    }

    pub fn entries(&self) -> (r: &[SourceImplEntry])
        ensures
            r@ == self.entries@,
    {
        self.entries.as_slice()
    }

    pub fn is_empty(&self) -> (r: bool)
        ensures
            r == (self.entries@.len() == 0),
    {
        self.entries.len() == 0
    }
}

// ---------------------------------------------------------------- relations
/// One value of a relation: a path of names.
#[derive(Debug)]
pub struct SourceRelationValue {
    pub path: Vec<Name>,
}

impl SourceRelationValue {
    pub fn path(&self) -> (r: &[Name])
        ensures
            r@ == self.path@,
    {
        self.path.as_slice()
    }
}

/// An equivalence relation: the values it holds equal.
#[derive(Debug)]
pub struct SourceEquivalenceRelation {
    pub values: Vec<SourceRelationValue>,
}

impl SourceEquivalenceRelation {
    pub fn values(&self) -> (r: &[SourceRelationValue])
        ensures
            r@ == self.values@,
    {
        self.values.as_slice()
    }
}

/// A relation as written.
#[derive(Debug)]
pub enum SourceRelation {
    Equivalence(SourceEquivalenceRelation),
}

/// The trailing relations root.
#[derive(Debug)]
pub struct SourceRelations {
    pub entries: Vec<SourceRelation>,
}

impl SourceRelations {
    pub fn empty() -> (r: Self)
        ensures
            r.entries@.len() == 0,
    {
        SourceRelations { entries: Vec::new() }
    }

    pub fn entries(&self) -> (r: &[SourceRelation])
        ensures
            r@ == self.entries@,
    {
        self.entries.as_slice()
    }

    pub fn is_empty(&self) -> (r: bool)
        ensures
            r == (self.entries@.len() == 0),
    {
        self.entries.len() == 0
    }
}

// ---------------------------------------------------------------- imports and generics
/// One import as written: the local name and the source it comes from.
#[derive(Debug)]
pub struct SourceImport {
    pub local_name: Name,
    pub source: SourceReference,
}

impl SourceImport {
    pub fn local_name(&self) -> (r: &Name)
        ensures
            *r == self.local_name,
    {
        &self.local_name
    }

    pub fn source(&self) -> (r: &SourceReference)
        ensures
            r@ == self.source@,
    {
        &self.source
    }
}

/// The leading imports root.
#[derive(Debug)]
pub struct SourceImports {
    pub entries: Vec<SourceImport>,
}

impl SourceImports {
    pub fn empty() -> (r: Self)
        ensures
            r.entries@.len() == 0,
    {
        SourceImports { entries: Vec::new() }
    }

    pub fn entries(&self) -> (r: &[SourceImport])
        ensures
            r@ == self.entries@,
    {
        self.entries.as_slice()
    }
}

/// The builtin a generic definition names, or the frame it declares.
#[derive(Debug)]
pub enum SourceGenericBuiltin {
    Vector,
    Optional,
    ScopeOf,
    MapOf,
    FixedBytes,
    Frame { parameters: Vec<Name>, body: SourceEnumBody },
}

impl SourceGenericBuiltin {
    pub open spec fn spec_parameter_count(&self) -> nat {
        match self {
            SourceGenericBuiltin::MapOf => 2,
            SourceGenericBuiltin::Frame { parameters, .. } => parameters@.len(),
            _ => 1,
        }
    }

    /// How many arguments an application of this builtin takes.
    pub fn parameter_count(&self) -> (r: usize)
        ensures
            r == self.spec_parameter_count(),
    {
        match self {
            SourceGenericBuiltin::MapOf => 2,
            SourceGenericBuiltin::Frame { parameters, .. } => parameters.len(),
            _ => 1,
        }
    }
}

/// A generic definition as written: its name and builtin.
#[derive(Debug)]
pub struct SourceGenericDefinition {
    pub name: Name,
    pub builtin: SourceGenericBuiltin,
}

impl SourceGenericDefinition {
    pub fn name(&self) -> (r: &Name)
        ensures
            *r == self.name,
    {
        &self.name
    }
}

/// The generics root.
#[derive(Debug)]
pub struct SourceGenerics {
    pub entries: Vec<SourceGenericDefinition>,
}

impl SourceGenerics {
    pub fn entries(&self) -> (r: &[SourceGenericDefinition])
        ensures
            r@ == self.entries@,
    {
        self.entries.as_slice()
    }
}

// ---------------------------------------------------------------- roots
/// A root's body: an enum, or an application of a frame.
#[derive(Debug)]
pub enum SourceRootBody {
    Enum(SourceEnumBody),
    Application(SourceReference),
}

impl SourceRootBody {
    pub fn as_enum(&self) -> (r: Option<&SourceEnumBody>)
        ensures
            match self {
                SourceRootBody::Enum(body) => r == Some(body),
                _ => r is None,
            },
    {
        match self {
            SourceRootBody::Enum(body) => Some(body),
            SourceRootBody::Application(_) => None,
        }
    }

    pub fn as_application(&self) -> (r: Option<&SourceReference>)
        ensures
            match self {
                SourceRootBody::Application(reference) => r == Some(reference),
                _ => r is None,
            },
    {
        match self {
            SourceRootBody::Application(reference) => Some(reference),
            SourceRootBody::Enum(_) => None,
        }
    }
}

/// An input or output root: its position name and body.
#[derive(Debug)]
pub struct SourceRootEnum {
    pub name: Name,
    pub body: SourceRootBody,
}

impl SourceRootEnum {
    pub fn name(&self) -> (r: &Name)
        ensures
            *r == self.name,
    {
        &self.name
    }

    pub fn body(&self) -> (r: &SourceRootBody)
        ensures
            *r == self.body,
    {
        &self.body
    }
}

// ---------------------------------------------------------------- namespaces
/// What a namespace entry holds: a declaration, a nested namespace, or only
/// an impl catalog for a type declared elsewhere.
#[derive(Debug)]
pub enum SourceNamespaceEntryValue {
    Declaration(SourceDeclarationValue),
    Namespace(SourceNamespace),
    ImplsOnly,
}

/// One namespace entry: its name, type parameters, value and impl catalog.
#[derive(Debug)]
pub struct SourceNamespaceEntry {
    pub name: Name,
    pub parameters: Vec<Name>,
    pub value: SourceNamespaceEntryValue,
    pub impls: SourceImplCatalog,
}

impl SourceNamespaceEntry {
    pub fn impls(&self) -> (r: &SourceImplCatalog)
        ensures
            *r == self.impls,
    {
        &self.impls
    }

    pub fn name(&self) -> (r: &Name)
        ensures
            *r == self.name,
    {
        &self.name
    }

    pub fn parameters(&self) -> (r: &[Name])
        ensures
            r@ == self.parameters@,
    {
        self.parameters.as_slice()
    }

    pub fn value(&self) -> (r: Option<&SourceDeclarationValue>)
        ensures
            match self.value {
                SourceNamespaceEntryValue::Declaration(v) => r == Some(&v),
                _ => r is None,
            },
    {
        match &self.value {
            SourceNamespaceEntryValue::Declaration(v) => Some(v),
            _ => None,
        }
    }

    pub fn namespace(&self) -> (r: Option<&SourceNamespace>)
        ensures
            match self.value {
                SourceNamespaceEntryValue::Namespace(n) => r == Some(&n),
                _ => r is None,
            },
    {
        match &self.value {
            SourceNamespaceEntryValue::Namespace(n) => Some(n),
            _ => None,
        }
    }
}

/// A namespace root or a nested namespace.
#[derive(Debug)]
pub struct SourceNamespace {
    pub entries: Vec<SourceNamespaceEntry>,
}

impl SourceNamespace {
    pub fn entries(&self) -> (r: &[SourceNamespaceEntry])
        ensures
            r@ == self.entries@,
    {
        self.entries.as_slice()
    }
}

// ---------------------------------------------------------------- the whole source
/// A whole schema as written: imports, generics, the two roots, the
/// namespace, and relations.
#[derive(Debug)]
pub struct SchemaSource {
    pub imports: SourceImports,
    pub generics: SourceGenerics,
    pub input: SourceRootEnum,
    pub output: SourceRootEnum,
    pub namespace: SourceNamespace,
    pub relations: SourceRelations,
}

impl SchemaSource {
    pub fn imports(&self) -> (r: &SourceImports)
        ensures
            *r == self.imports,
    {
        &self.imports
    }

    pub fn generics(&self) -> (r: &SourceGenerics)
        ensures
            *r == self.generics,
    {
        &self.generics
    }

    pub fn input(&self) -> (r: &SourceRootEnum)
        ensures
            *r == self.input,
    {
        &self.input
    }

    pub fn output(&self) -> (r: &SourceRootEnum)
        ensures
            *r == self.output,
    {
        &self.output
    }

    pub fn namespace(&self) -> (r: &SourceNamespace)
        ensures
            *r == self.namespace,
    {
        &self.namespace
    }

    pub fn relations(&self) -> (r: &SourceRelations)
        ensures
            *r == self.relations,
    {
        &self.relations
    }
}

/// A schema source kept as a stored artifact.
#[derive(Debug)]
pub struct SchemaSourceArtifact(pub SchemaSource);

impl SchemaSourceArtifact {
    pub fn new(source: SchemaSource) -> (r: Self)
        ensures
            r.0 == source,
    {
        SchemaSourceArtifact(source)
    }

    pub fn source(&self) -> (r: &SchemaSource)
        ensures
            *r == self.0,
    {
        &self.0
    }

    pub fn into_source(self) -> (r: SchemaSource)
        ensures
            r == self.0,
    {
        self.0
    }
}

} // verus!
