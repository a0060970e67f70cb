//! The lowered schema: its roots, namespace, streams, families, relations,
//! impl blocks and imports, with the lookups every consumer goes through.
use vstd::prelude::*;

use crate::impls::ImplBlock;
use crate::lookup::{first_match, lemma_first_match, lemma_first_match_at, lemma_first_match_none};
use crate::name::{Name, SchemaIdentity, SymbolPath};
use crate::reference::{
    ApplicationHead, HeadView, TypeRefView, TypeReference, copy_reference, copy_references,
    head_spelling, lemma_references_view, reference_view, references_view,
};
use crate::schema::{
    Declaration, EnumDeclaration, EnumVariant, EnumView, FamilyDeclaration, GenericDefinition,
    ImportDeclaration, RelationDeclaration, ResolvedImport, StreamDeclaration, TypeDeclaration,
    VariantView, copy_names, names_view, payload_view, variants_view,
};

verus! {

// ---------------------------------------------------------------- helpers
/// An optional borrow agrees with an optional value.
pub open spec fn borrow_matches<T>(r: Option<&T>, s: Option<T>) -> bool {
    match (r, s) {
        (Some(a), Some(b)) => *a == b,
        (None, None) => true,
        _ => false,
    }
}

/// A borrowed frame body agrees with a frame body.
pub open spec fn frame_matches(
    r: Option<(&[Name], &[EnumVariant])>,
    s: Option<(Seq<Name>, Seq<EnumVariant>)>,
) -> bool {
    match (r, s) {
        (Some(a), Some(b)) => a.0@ == b.0 && a.1@ == b.1,
        (None, None) => true,
        _ => false,
    }
}

/// The predicate "is the generic definition spelled `n`".
pub open spec fn generic_spelled(n: Seq<char>) -> spec_fn(GenericDefinition) -> bool {
    |g: GenericDefinition| g.spec_name()@ == n
}

/// The predicate "is the declaration spelled `n`".
pub open spec fn declaration_spelled(n: Seq<char>) -> spec_fn(Declaration) -> bool {
    |d: Declaration| d.spec_name()@ == n
}

/// The predicate "is the resolved import aliased `n`".
pub open spec fn resolved_spelled(n: Seq<char>) -> spec_fn(ResolvedImport) -> bool {
    |i: ResolvedImport| i.spec_local_name()@ == n
}

// ---------------------------------------------------------------- applications
/// The predicate "is spelled `n`".
pub open spec fn spells(n: Seq<char>) -> spec_fn(Seq<char>) -> bool {
    |p: Seq<char>| p == n
}

/// The reference a frame binder payload becomes at an application site:
/// a declared name that is one of the binders becomes the argument in the
/// binder's position; every other payload is kept.
pub open spec fn substituted(
    parameters: Seq<Seq<char>>,
    arguments: Seq<TypeRefView>,
    payload: TypeRefView,
) -> TypeRefView {
    match payload {
        TypeRefView::Plain(n) => match first_match(parameters, spells(n)) {
            Some(k) => arguments[k],
            None => payload,
        },
        _ => payload,
    }
}

/// Whether a payload that names a binder names one with an argument in its
/// position.
pub open spec fn payload_bound(parameters: Seq<Seq<char>>, arguments_len: int, payload: Option<TypeRefView>) -> bool {
    payload matches Some(TypeRefView::Plain(n)) ==> match first_match(parameters, spells(n)) {
        Some(k) => k < arguments_len,
        None => true,
    }
}

/// Whether every binder a frame's payloads name has an argument in its
/// position.
pub open spec fn binders_bound(parameters: Seq<Seq<char>>, arguments_len: int, variants: Seq<EnumVariant>) -> bool {
    forall|i: int| 0 <= i < variants.len() ==> payload_bound(parameters, arguments_len, (#[trigger] variants[i])@.payload)
}

/// A frame variant at an application site: same name and stream relation,
/// payload substituted.
pub open spec fn expanded_variant(
    parameters: Seq<Seq<char>>,
    arguments: Seq<TypeRefView>,
    v: VariantView,
) -> VariantView {
    VariantView {
        name: v.name,
        payload: match v.payload {
            Some(p) => Some(substituted(parameters, arguments, p)),
            None => None,
        },
        stream_relation: v.stream_relation,
    }
}

/// A root in the application form `(Head Arg …)` at an Input/Output
/// position, identified by the position name.
#[derive(Debug)]
pub struct RootApplication {
    name: Name,
    head: ApplicationHead,
    arguments: Vec<TypeReference>,
}

impl RootApplication {
    pub closed spec fn spec_name(&self) -> Name {
        self.name
    }

    pub closed spec fn spec_head(&self) -> ApplicationHead {
        self.head
    }

    pub closed spec fn spec_arguments(&self) -> Seq<TypeReference> {
        self.arguments@
    }

    /// The application reference this root denotes.
    pub open spec fn spec_reference(&self) -> TypeRefView {
        TypeRefView::Application {
            head: self.spec_head()@,
            arguments: references_view(self.spec_arguments()),
        }
    }

    pub fn new(name: Name, head: ApplicationHead, arguments: Vec<TypeReference>) -> (r: Self)
        ensures
            r.spec_name() == name,
            r.spec_head() == head,
            r.spec_arguments() == arguments@,
    {
        RootApplication { name, head, arguments }
    }

    pub fn name(&self) -> (r: &Name)
        ensures
            *r == self.spec_name(),
    {
        &self.name
    }

    pub fn head(&self) -> (r: &ApplicationHead)
        ensures
            *r == self.spec_head(),
    {
        &self.head
    }

    pub fn arguments(&self) -> (r: &[TypeReference])
        ensures
            r@ == self.spec_arguments(),
    {
        self.arguments.as_slice()
    }

    /// The field-position application reference this root projects to.
    pub fn to_reference(&self) -> (r: TypeReference)
        ensures
            r@ == self.spec_reference(),
    {
        TypeReference::Application { head: self.head.clone(), arguments: copy_references(self.arguments.as_slice()) }
    }

    /// Monomorphize a frame at this application: each variant keeps its
    /// name and stream relation; a payload naming a binder becomes the
    /// argument in that binder's position.
    pub fn expand_with(&self, frame_parameters: &[Name], frame_variants: &[EnumVariant]) -> (r: Vec<EnumVariant>)
        requires
            binders_bound(names_view(frame_parameters@), self.spec_arguments().len() as int, frame_variants@),
        ensures
            r@.len() == frame_variants@.len(),
            forall|i: int| 0 <= i < r@.len() ==> (#[trigger] r@[i])@ == expanded_variant(
                names_view(frame_parameters@),
                references_view(self.spec_arguments()),
                frame_variants@[i]@,
            ),
    {
        let mut out: Vec<EnumVariant> = Vec::new();
        let mut i: usize = 0;
        while i < frame_variants.len()
            invariant
                i <= frame_variants@.len(),
                binders_bound(names_view(frame_parameters@), self.arguments@.len() as int, frame_variants@),
                out@.len() == i,
                forall|k: int| 0 <= k < i ==> (#[trigger] out@[k])@ == expanded_variant(
                    names_view(frame_parameters@),
                    references_view(self.arguments@),
                    frame_variants@[k]@,
                ),
            decreases frame_variants@.len() - i,
        {
            let variant = &frame_variants[i];
            let payload = match &variant.payload {
                Some(payload) => Some(self.substitute_binder(frame_parameters, payload)),
                None => None,
            };
            let stream_relation = match &variant.stream_relation {
                Some(relation) => Some(relation.clone()),
                None => None,
            };
            out.push(EnumVariant { name: variant.name.clone(), payload, stream_relation });
            i = i + 1;
        }
        out
    }

    /// The argument bound to a binder payload, or the payload itself.
    fn substitute_binder(&self, frame_parameters: &[Name], payload: &TypeReference) -> (r: TypeReference)
        requires
            payload_bound(names_view(frame_parameters@), self.spec_arguments().len() as int, Some(payload@)),
        ensures
            r@ == substituted(names_view(frame_parameters@), references_view(self.spec_arguments()), payload@),
    {
        match payload {
            TypeReference::Plain(name) => {
                let ghost ps = names_view(frame_parameters@);
                let ghost p = spells(name@);
                let mut k: usize = 0;
                while k < frame_parameters.len()
                    invariant
                        k <= frame_parameters@.len(),
                        payload_bound(ps, self.arguments@.len() as int, Some(payload@)),
                        *payload == TypeReference::Plain(*name),
                        ps == names_view(frame_parameters@),
                        p == spells(name@),
                        forall|j: int| 0 <= j < k ==> !#[trigger] p(ps[j]),
                    decreases frame_parameters@.len() - k,
                {
                    if frame_parameters[k] == *name {
                        proof {
                            lemma_first_match_at(ps, p, k as int);
                            lemma_references_view(self.arguments@);
                        }
                        return copy_reference(&self.arguments[k]);
                    }
                    k = k + 1;
                }
                proof {
                    lemma_first_match_none(ps, p);
                }
                copy_reference(payload)
            },
            _ => copy_reference(payload),
        }
    }
}

// ---------------------------------------------------------------- roots
/// A root Input/Output position: an enum body or an application.
#[derive(Debug)]
pub enum Root {
    Enum(EnumDeclaration),
    Application(Box<RootApplication>),
}

impl Root {
    pub open spec fn spec_name(&self) -> Name {
        match self {
            Root::Enum(d) => d.name,
            Root::Application(a) => a.spec_name(),
        }
    }

    /// An application root.
    pub fn application(application: RootApplication) -> (r: Self)
        ensures
            r == Root::Application(Box::new(application)),
    {
        Root::Application(Box::new(application))
    }

    /// The root's identity name.
    pub fn name(&self) -> (r: &Name)
        ensures
            *r == self.spec_name(),
    {
        match self {
            Root::Enum(declaration) => &declaration.name,
            Root::Application(application) => application.name(),
        }
    }

    pub fn as_enum(&self) -> (r: Option<&EnumDeclaration>)
        ensures
            self is Enum <==> r is Some,
            r matches Some(d) ==> *d == self->Enum_0,
    {
        match self {
            Root::Enum(declaration) => Some(declaration),
            Root::Application(_) => None,
        }
    }

    pub fn as_application(&self) -> (r: Option<&RootApplication>)
        ensures
            self is Application <==> r is Some,
            r matches Some(a) ==> *a == *self->Application_0,
    {
        match self {
            Root::Application(application) => Some(&**application),
            Root::Enum(_) => None,
        }
    }
}

/// A declared type found by name: a namespace declaration or a root enum.
#[derive(Debug)]
pub enum SchemaDeclaredType<'schema> {
    Namespace(&'schema TypeDeclaration),
    Root(&'schema EnumDeclaration),
}

/// Where a symbol path points inside a schema.
#[derive(Debug)]
pub enum SymbolPathPosition<'path> {
    Type { type_ident: &'path Name },
    RootVariant { root_name: &'path Name, variant_name: &'path Name },
    Field { type_ident: &'path Name, field_name: &'path Name },
    EnumVariant { enum_name: &'path Name, variant_name: &'path Name },
}

pub enum PositionView {
    Type(Seq<char>),
    RootVariant(Seq<char>, Seq<char>),
    Field(Seq<char>, Seq<char>),
    EnumVariant(Seq<char>, Seq<char>),
}

impl<'path> View for SymbolPathPosition<'path> {
    type V = PositionView;

    open spec fn view(&self) -> PositionView {
        match self {
            SymbolPathPosition::Type { type_ident } => PositionView::Type(type_ident@),
            SymbolPathPosition::RootVariant { root_name, variant_name } => PositionView::RootVariant(
                root_name@,
                variant_name@,
            ),
            SymbolPathPosition::Field { type_ident, field_name } => PositionView::Field(
                type_ident@,
                field_name@,
            ),
            SymbolPathPosition::EnumVariant { enum_name, variant_name } => PositionView::EnumVariant(
                enum_name@,
                variant_name@,
            ),
        }
    }
}

// ---------------------------------------------------------------- the schema
/// A lowered schema.
#[derive(Debug)]
pub struct TrueSchema {
    identity: SchemaIdentity,
    imports: Vec<ImportDeclaration>,
    resolved_imports: Vec<ResolvedImport>,
    generics: Vec<GenericDefinition>,
    input: Root,
    output: Root,
    namespace: Vec<Declaration>,
    streams: Vec<StreamDeclaration>,
    families: Vec<FamilyDeclaration>,
    relations: Vec<RelationDeclaration>,
    impl_blocks: Vec<ImplBlock>,
}

impl TrueSchema {
    pub closed spec fn spec_identity(&self) -> SchemaIdentity {
        self.identity
    }

    pub closed spec fn spec_imports(&self) -> Seq<ImportDeclaration> {
        self.imports@
    }

    pub closed spec fn spec_resolved_imports(&self) -> Seq<ResolvedImport> {
        self.resolved_imports@
    }

    pub closed spec fn spec_generics(&self) -> Seq<GenericDefinition> {
        self.generics@
    }

    pub closed spec fn spec_input(&self) -> Root {
        self.input
    }

    pub closed spec fn spec_output(&self) -> Root {
        self.output
    }

    pub closed spec fn spec_namespace(&self) -> Seq<Declaration> {
        self.namespace@
    }

    pub closed spec fn spec_streams(&self) -> Seq<StreamDeclaration> {
        self.streams@
    }

    pub closed spec fn spec_families(&self) -> Seq<FamilyDeclaration> {
        self.families@
    }

    pub closed spec fn spec_relations(&self) -> Seq<RelationDeclaration> {
        self.relations@
    }

    pub closed spec fn spec_impl_blocks(&self) -> Seq<ImplBlock> {
        self.impl_blocks@
    }

    /// A schema from its sections, with no standalone impl blocks.
    pub fn new(
        identity: SchemaIdentity,
        imports: Vec<ImportDeclaration>,
        resolved_imports: Vec<ResolvedImport>,
        generics: Vec<GenericDefinition>,
        input: Root,
        output: Root,
        namespace: Vec<Declaration>,
        streams: Vec<StreamDeclaration>,
        families: Vec<FamilyDeclaration>,
        relations: Vec<RelationDeclaration>,
    ) -> (r: Self)
        ensures
            r.spec_identity() == identity,
            r.spec_imports() == imports@,
            r.spec_resolved_imports() == resolved_imports@,
            r.spec_generics() == generics@,
            r.spec_input() == input,
            r.spec_output() == output,
            r.spec_namespace() == namespace@,
            r.spec_streams() == streams@,
            r.spec_families() == families@,
            r.spec_relations() == relations@,
            r.spec_impl_blocks().len() == 0,
    {
        TrueSchema {
            identity,
            imports,
            resolved_imports,
            generics,
            input,
            output,
            namespace,
            streams,
            families,
            relations,
            impl_blocks: Vec::new(),
        }
    }

    /// This schema with the given standalone impl blocks.
    pub fn with_impl_blocks(self, impl_blocks: Vec<ImplBlock>) -> (r: Self)
        ensures
            r.spec_identity() == self.spec_identity(),
            r.spec_imports() == self.spec_imports(),
            r.spec_resolved_imports() == self.spec_resolved_imports(),
            r.spec_generics() == self.spec_generics(),
            r.spec_input() == self.spec_input(),
            r.spec_output() == self.spec_output(),
            r.spec_namespace() == self.spec_namespace(),
            r.spec_streams() == self.spec_streams(),
            r.spec_families() == self.spec_families(),
            r.spec_relations() == self.spec_relations(),
            r.spec_impl_blocks() == impl_blocks@,
    {
        TrueSchema { impl_blocks, ..self }
    }

    /// This schema under another identity, every section unchanged.
    pub fn with_identity(self, identity: SchemaIdentity) -> (r: Self)
        ensures
            r.spec_identity() == identity,
            r.spec_imports() == self.spec_imports(),
            r.spec_resolved_imports() == self.spec_resolved_imports(),
            r.spec_generics() == self.spec_generics(),
            r.spec_input() == self.spec_input(),
            r.spec_output() == self.spec_output(),
            r.spec_namespace() == self.spec_namespace(),
            r.spec_streams() == self.spec_streams(),
            r.spec_families() == self.spec_families(),
            r.spec_relations() == self.spec_relations(),
            r.spec_impl_blocks() == self.spec_impl_blocks(),
    {
        TrueSchema { identity, ..self }
    }

    /// This schema with another namespace, every other section unchanged.
    pub fn with_namespace(self, namespace: Vec<Declaration>) -> (r: Self)
        ensures
            r.spec_identity() == self.spec_identity(),
            r.spec_imports() == self.spec_imports(),
            r.spec_resolved_imports() == self.spec_resolved_imports(),
            r.spec_generics() == self.spec_generics(),
            r.spec_input() == self.spec_input(),
            r.spec_output() == self.spec_output(),
            r.spec_namespace() == namespace@,
            r.spec_streams() == self.spec_streams(),
            r.spec_families() == self.spec_families(),
            r.spec_relations() == self.spec_relations(),
            r.spec_impl_blocks() == self.spec_impl_blocks(),
    {
        TrueSchema { namespace, ..self }
    }

    /// This schema with other relations, every other section unchanged.
    pub fn with_relations(self, relations: Vec<RelationDeclaration>) -> (r: Self)
        ensures
            r.spec_identity() == self.spec_identity(),
            r.spec_imports() == self.spec_imports(),
            r.spec_resolved_imports() == self.spec_resolved_imports(),
            r.spec_generics() == self.spec_generics(),
            r.spec_input() == self.spec_input(),
            r.spec_output() == self.spec_output(),
            r.spec_namespace() == self.spec_namespace(),
            r.spec_streams() == self.spec_streams(),
            r.spec_families() == self.spec_families(),
            r.spec_relations() == relations@,
            r.spec_impl_blocks() == self.spec_impl_blocks(),
    {
        TrueSchema { relations, ..self }
    }

    /// The namespace, moved out of the schema with the other sections.
    pub fn into_namespace(self) -> (r: (Vec<Declaration>, Self))
        ensures
            r.0@ == self.spec_namespace(),
            r.1.spec_identity() == self.spec_identity(),
            r.1.spec_imports() == self.spec_imports(),
            r.1.spec_resolved_imports() == self.spec_resolved_imports(),
            r.1.spec_generics() == self.spec_generics(),
            r.1.spec_input() == self.spec_input(),
            r.1.spec_output() == self.spec_output(),
            r.1.spec_namespace().len() == 0,
            r.1.spec_streams() == self.spec_streams(),
            r.1.spec_families() == self.spec_families(),
            r.1.spec_relations() == self.spec_relations(),
            r.1.spec_impl_blocks() == self.spec_impl_blocks(),
    {
        let TrueSchema {
            identity,
            imports,
            resolved_imports,
            generics,
            input,
            output,
            namespace,
            streams,
            families,
            relations,
            impl_blocks,
        } = self;
        (
            namespace,
            TrueSchema {
                identity,
                imports,
                resolved_imports,
                generics,
                input,
                output,
                namespace: Vec::new(),
                streams,
                families,
                relations,
                impl_blocks,
            },
        )
    }

    pub fn identity(&self) -> (r: &SchemaIdentity)
        ensures
            *r == self.spec_identity(),
    {
        &self.identity
    }

    pub fn imports(&self) -> (r: &[ImportDeclaration])
        ensures
            r@ == self.spec_imports(),
    {
        self.imports.as_slice()
    }

    pub fn resolved_imports(&self) -> (r: &[ResolvedImport])
        ensures
            r@ == self.spec_resolved_imports(),
    {
        self.resolved_imports.as_slice()
    }

    pub fn generics(&self) -> (r: &[GenericDefinition])
        ensures
            r@ == self.spec_generics(),
    {
        self.generics.as_slice()
    }

    pub fn input(&self) -> (r: &Root)
        ensures
            *r == self.spec_input(),
    {
        &self.input
    }

    pub fn output(&self) -> (r: &Root)
        ensures
            *r == self.spec_output(),
    {
        &self.output
    }

    pub fn input_and_output(&self) -> (r: [&Root; 2])
        ensures
            *r[0] == self.spec_input(),
            *r[1] == self.spec_output(),
    {
        [&self.input, &self.output]
    }

    pub fn namespace(&self) -> (r: &[Declaration])
        ensures
            r@ == self.spec_namespace(),
    {
        self.namespace.as_slice()
    }

    pub fn impl_blocks(&self) -> (r: &[ImplBlock])
        ensures
            r@ == self.spec_impl_blocks(),
    {
        self.impl_blocks.as_slice()
    }

    pub fn streams(&self) -> (r: &[StreamDeclaration])
        ensures
            r@ == self.spec_streams(),
    {
        self.streams.as_slice()
    }

    pub fn families(&self) -> (r: &[FamilyDeclaration])
        ensures
            r@ == self.spec_families(),
    {
        self.families.as_slice()
    }

    pub fn relations(&self) -> (r: &[RelationDeclaration])
        ensures
            r@ == self.spec_relations(),
    {
        self.relations.as_slice()
    }

    // ------------------------------------------------------------ lookups
    /// The first generic definition carrying the name.
    pub open spec fn spec_generic_named(&self, name: Seq<char>) -> Option<GenericDefinition> {
        match first_match(self.spec_generics(), generic_spelled(name)) {
            Some(k) => Some(self.spec_generics()[k]),
            None => None,
        }
    }

    /// The first namespace declaration carrying the name.
    pub open spec fn spec_declaration_named(&self, name: Seq<char>) -> Option<Declaration> {
        match first_match(self.spec_namespace(), declaration_spelled(name)) {
            Some(k) => Some(self.spec_namespace()[k]),
            None => None,
        }
    }

    /// The body of the first namespace declaration carrying the name.
    pub open spec fn spec_type_named(&self, name: Seq<char>) -> Option<TypeDeclaration> {
        match self.spec_declaration_named(name) {
            Some(d) => Some(d.spec_value()),
            None => None,
        }
    }

    /// The root carrying the position name: the input is asked first.
    pub open spec fn spec_root_named(&self, name: Seq<char>) -> Option<Root> {
        if self.spec_input().spec_name()@ == name {
            Some(self.spec_input())
        } else if self.spec_output().spec_name()@ == name {
            Some(self.spec_output())
        } else {
            None
        }
    }

    /// The enum body of the root carrying the position name.
    pub open spec fn spec_root_enum_named(&self, name: Seq<char>) -> Option<EnumDeclaration> {
        match self.spec_root_named(name) {
            Some(Root::Enum(d)) => Some(d),
            _ => None,
        }
    }

    /// The first resolved import whose local alias is the name.
    pub open spec fn spec_import_named(&self, name: Seq<char>) -> Option<ResolvedImport> {
        match first_match(self.spec_resolved_imports(), resolved_spelled(name)) {
            Some(k) => Some(self.spec_resolved_imports()[k]),
            None => None,
        }
    }

    pub fn generic_named(&self, name: &str) -> (r: Option<&GenericDefinition>)
        ensures
            borrow_matches(r, self.spec_generic_named(name@)),
    {
        let ghost p = generic_spelled(name@);
        let mut i: usize = 0;
        while i < self.generics.len()
            invariant
                i <= self.generics@.len(),
                p == generic_spelled(name@),
                forall|k: int| 0 <= k < i ==> !#[trigger] p(self.generics@[k]),
            decreases self.generics@.len() - i,
        {
            if crate::text::str_equal(self.generics[i].name().as_str(), name) {
                proof {
                    lemma_first_match_at(self.generics@, p, i as int);
                }
                return Some(&self.generics[i]);
            }
            i = i + 1;
        }
        proof {
            lemma_first_match_none(self.generics@, p);
        }
        None
    }

    pub(crate) fn namespace_declaration_named(&self, name: &str) -> (r: Option<&Declaration>)
        ensures
            borrow_matches(r, self.spec_declaration_named(name@)),
    {
        let ghost p = declaration_spelled(name@);
        let mut i: usize = 0;
        while i < self.namespace.len()
            invariant
                i <= self.namespace@.len(),
                p == declaration_spelled(name@),
                forall|k: int| 0 <= k < i ==> !#[trigger] p(self.namespace@[k]),
            decreases self.namespace@.len() - i,
        {
            if crate::text::str_equal(self.namespace[i].name().as_str(), name) {
                proof {
                    lemma_first_match_at(self.namespace@, p, i as int);
                }
                return Some(&self.namespace[i]);
            }
            i = i + 1;
        }
        proof {
            lemma_first_match_none(self.namespace@, p);
        }
        None
    }

    /// The first resolved import whose local alias is the name.
    pub fn resolved_import_named(&self, name: &Name) -> (r: Option<&ResolvedImport>)
        ensures
            borrow_matches(r, self.spec_import_named(name@)),
    {
        let ghost p = resolved_spelled(name@);
        let mut i: usize = 0;
        while i < self.resolved_imports.len()
            invariant
                i <= self.resolved_imports@.len(),
                p == resolved_spelled(name@),
                forall|k: int| 0 <= k < i ==> !#[trigger] p(self.resolved_imports@[k]),
            decreases self.resolved_imports@.len() - i,
        {
            if *self.resolved_imports[i].local_name() == *name {
                proof {
                    lemma_first_match_at(self.resolved_imports@, p, i as int);
                }
                return Some(&self.resolved_imports[i]);
            }
            i = i + 1;
        }
        proof {
            lemma_first_match_none(self.resolved_imports@, p);
        }
        None
    }

    /// The body of the first namespace declaration carrying the name.
    pub fn type_named(&self, name: &str) -> (r: Option<&TypeDeclaration>)
        ensures
            borrow_matches(r, self.spec_type_named(name@)),
    {
        match self.namespace_declaration_named(name) {
            Some(declaration) => Some(declaration.value()),
            None => None,
        }
    }

    /// The root carrying the position name.
    pub fn root_named(&self, name: &str) -> (r: Option<&Root>)
        ensures
            borrow_matches(r, self.spec_root_named(name@)),
    {
        if crate::text::str_equal(self.input.name().as_str(), name) {
            Some(&self.input)
        } else if crate::text::str_equal(self.output.name().as_str(), name) {
            Some(&self.output)
        } else {
            None
        }
    }

    /// The enum body of the root carrying the position name; `None` for an
    /// application root.
    pub fn root_enum_named(&self, name: &str) -> (r: Option<&EnumDeclaration>)
        ensures
            borrow_matches(r, self.spec_root_enum_named(name@)),
    {
        match self.root_named(name) {
            Some(root) => root.as_enum(),
            None => None,
        }
    }

    /// A namespace type by name, else a root enum by name.
    pub fn declared_type_named(&self, name: &str) -> (r: Option<SchemaDeclaredType<'_>>)
        ensures
            self.spec_type_named(name@) is Some ==> (r matches Some(SchemaDeclaredType::Namespace(t))
                && *t == self.spec_type_named(name@).unwrap()),
            self.spec_type_named(name@) is None && self.spec_root_enum_named(name@) is Some ==> (
            r matches Some(SchemaDeclaredType::Root(e)) && *e == self.spec_root_enum_named(
                name@,
            ).unwrap()),
            self.spec_type_named(name@) is None && self.spec_root_enum_named(name@) is None
                ==> r is None,
    {
        match self.type_named(name) {
            Some(declaration) => Some(SchemaDeclaredType::Namespace(declaration)),
            None => match self.root_enum_named(name) {
                Some(root) => Some(SchemaDeclaredType::Root(root)),
                None => None,
            },
        }
    }

    /// The declared generic arity of a named namespace type: the number of
    /// type parameters its declaration introduced; `None` for a name that is
    /// not a namespace declaration (a root enum, an import, a generic
    /// definition only, or an unknown name).
    pub open spec fn spec_declared_parameter_count(&self, name: Seq<char>) -> Option<nat> {
        match self.spec_declaration_named(name) {
            Some(d) => Some(d.spec_parameters().len()),
            None => None,
        }
    }

    pub fn declared_parameter_count(&self, name: &str) -> (r: Option<usize>)
        ensures
            r is Some <==> self.spec_declared_parameter_count(name@) is Some,
            r matches Some(n) ==> n == self.spec_declared_parameter_count(name@).unwrap(),
    {
        match self.namespace_declaration_named(name) {
            Some(declaration) => Some(declaration.parameters().len()),
            None => None,
        }
    }

    /// The binders and variants of a named parameterized enum: a generic
    /// frame first, else a namespace enum declaration with its parameters.
    pub open spec fn spec_declared_frame_body(&self, name: Seq<char>) -> Option<(Seq<Name>, Seq<EnumVariant>)> {
        match self.spec_generic_named(name) {
            Some(g) if g.spec_builtin() is Frame => Some(
                (
                    g.spec_builtin()->Frame_0.spec_parameters(),
                    g.spec_builtin()->Frame_0.spec_variants(),
                ),
            ),
            _ => match self.spec_declaration_named(name) {
                Some(d) => match d.spec_value() {
                    TypeDeclaration::Enum(body) => Some((d.spec_parameters(), body.variants@)),
                    _ => None,
                },
                None => None,
            },
        }
    }

    pub fn declared_frame_body(&self, name: &str) -> (r: Option<(&[Name], &[EnumVariant])>)
        ensures
            frame_matches(r, self.spec_declared_frame_body(name@)),
    {
        if let Some(definition) = self.generic_named(name) {
            if let Some(frame) = definition.frame_body() {
                return Some(frame);
            }
        }
        let declaration = match self.namespace_declaration_named(name) {
            Some(declaration) => declaration,
            None => { return None; },
        };
        match declaration.value() {
            TypeDeclaration::Enum(body) => Some((declaration.parameters(), body.variants.as_slice())),
            _ => None,
        }
    }

    /// The frame body carried on the resolved import with the alias, when
    /// that import carries variants.
    pub open spec fn spec_imported_frame_body(&self, name: Seq<char>) -> Option<(Seq<Name>, Seq<EnumVariant>)> {
        match self.spec_import_named(name) {
            Some(i) if i.spec_variants().len() > 0 => Some((i.spec_parameters(), i.spec_variants())),
            _ => None,
        }
    }

    fn imported_frame_body(&self, name: &Name) -> (r: Option<(&[Name], &[EnumVariant])>)
        ensures
            frame_matches(r, self.spec_imported_frame_body(name@)),
    {
        match self.resolved_import_named(name) {
            Some(import) => if import.variants().len() > 0 {
                Some((import.parameters(), import.variants()))
            } else {
                None
            },
            None => None,
        }
    }

    /// The frame an application head names: a local head resolves against
    /// the namespace first, then the resolved imports by alias; an imported
    /// head always carries its own frame.
    pub open spec fn spec_frame_for_head(&self, head: ApplicationHead) -> Option<(Seq<Name>, Seq<EnumVariant>)> {
        match head {
            ApplicationHead::Local(n) => match self.spec_declared_frame_body(n@) {
                Some(f) => Some(f),
                None => self.spec_imported_frame_body(n@),
            },
            ApplicationHead::Imported(i) => Some((i.parameters@, i.variants@)),
        }
    }

    fn frame_body_for_head<'a>(&'a self, head: &'a ApplicationHead) -> (r: Option<(&'a [Name], &'a [EnumVariant])>)
        ensures
            frame_matches(r, self.spec_frame_for_head(*head)),
    {
        match head {
            ApplicationHead::Local(name) => match self.declared_frame_body(name.as_str()) {
                Some(frame) => Some(frame),
                None => self.imported_frame_body(name),
            },
            ApplicationHead::Imported(import) => Some((import.parameters.as_slice(), import.variants.as_slice())),
        }
    }

    /// A payload that reproduces a sibling application root, re-aimed at
    /// that root by name; any other payload is kept.
    pub open spec fn spec_reaimed(&self, payload: TypeRefView) -> TypeRefView {
        if payload is Application && self.spec_input() is Application
            && self.spec_input()->Application_0.spec_reference() == payload {
            TypeRefView::Plain(self.spec_input()->Application_0.spec_name()@)
        } else if payload is Application && self.spec_output() is Application
            && self.spec_output()->Application_0.spec_reference() == payload {
            TypeRefView::Plain(self.spec_output()->Application_0.spec_name()@)
        } else {
            payload
        }
    }

    fn reaim_sibling_application(&self, payload: &TypeReference) -> (r: TypeReference)
        ensures
            r@ == self.spec_reaimed(payload@),
    {
        match payload {
            TypeReference::Application { .. } => {
                if let Root::Application(sibling) = &self.input {
                    let candidate = sibling.to_reference();
                    if crate::reference::references_equal(&candidate, payload) {
                        return TypeReference::Plain(sibling.name().clone());
                    }
                }
                if let Root::Application(sibling) = &self.output {
                    let candidate = sibling.to_reference();
                    if crate::reference::references_equal(&candidate, payload) {
                        return TypeReference::Plain(sibling.name().clone());
                    }
                }
                copy_reference(payload)
            },
            _ => copy_reference(payload),
        }
    }

    /// The variants an application root denotes: the frame expanded by
    /// binder substitution, each nested sibling application re-aimed.
    pub open spec fn spec_expanded_variant(
        &self,
        application: RootApplication,
        parameters: Seq<Name>,
        v: VariantView,
    ) -> VariantView {
        let e = expanded_variant(
            names_view(parameters),
            references_view(application.spec_arguments()),
            v,
        );
        VariantView {
            name: e.name,
            payload: match e.payload {
                Some(p) => Some(self.spec_reaimed(p)),
                None => None,
            },
            stream_relation: e.stream_relation,
        }
    }

    /// Monomorphize an application root into the concrete enum it denotes,
    /// named by the root's position. `None` when the head names no frame.
    pub fn expand_application_root(&self, application: &RootApplication) -> (r: Option<EnumDeclaration>)
        requires
            self.spec_frame_for_head(application.spec_head()) matches Some(f) ==> binders_bound(
                names_view(f.0),
                application.spec_arguments().len() as int,
                f.1,
            ),
        ensures
            r is Some <==> self.spec_frame_for_head(application.spec_head()) is Some,
            application.spec_head() is Imported ==> r is Some,
            r matches Some(d) ==> d.name == application.spec_name() && d.variants@.len()
                == self.spec_frame_for_head(application.spec_head()).unwrap().1.len()
                && forall|i: int|
                0 <= i < d.variants@.len() ==> (#[trigger] d.variants@[i])@
                    == self.spec_expanded_variant(
                    *application,
                    self.spec_frame_for_head(application.spec_head()).unwrap().0,
                    self.spec_frame_for_head(application.spec_head()).unwrap().1[i]@,
                ),
    {
        let (parameters, variants) = match self.frame_body_for_head(application.head()) {
            Some(frame) => frame,
            None => { return None; },
        };
        let expanded = application.expand_with(parameters, variants);
        let mut out: Vec<EnumVariant> = Vec::new();
        let mut i: usize = 0;
        while i < expanded.len()
            invariant
                i <= expanded@.len(),
                expanded@.len() == variants@.len(),
                out@.len() == i,
                forall|k: int| 0 <= k < expanded@.len() ==> (#[trigger] expanded@[k])@ == expanded_variant(
                    names_view(parameters@),
                    references_view(application.spec_arguments()),
                    variants@[k]@,
                ),
                forall|k: int| 0 <= k < i ==> (#[trigger] out@[k])@ == self.spec_expanded_variant(
                    *application,
                    parameters@,
                    variants@[k]@,
                ),
            decreases expanded@.len() - i,
        {
            let variant = &expanded[i];
            let payload = match &variant.payload {
                Some(payload) => Some(self.reaim_sibling_application(payload)),
                None => None,
            };
            let stream_relation = match &variant.stream_relation {
                Some(relation) => Some(relation.clone()),
                None => None,
            };
            out.push(EnumVariant { name: variant.name.clone(), payload, stream_relation });
            i = i + 1;
        }
        Some(EnumDeclaration::new(application.name().clone(), out))
    }
}

} // verus!
