//! The mathematical form of a whole schema, section by section, and copies
//! of each section that preserve it.
use vstd::prelude::*;

use crate::impls::{ImplBlock, ImplCatalog, ImplRefView, ImplReference, entries_view};
use crate::name::{Name, SchemaIdentity, TableName};
use crate::reference::{TypeRefView, copy_reference, copy_references, references_view};
use crate::schema::{
    Declaration, EnumView, FamilyDeclaration, FamilyKey, GenericBuiltin, GenericDefinition,
    GenericFrame, ImportDeclaration, NewtypeDeclaration, RelationDeclaration, RelationValue,
    ResolvedImport, StreamDeclaration, StructDeclaration, TypeDeclaration, VariantView, Visibility,
    copy_names, copy_variants, fields_view, names_view, variants_view,
};
use crate::true_schema::{Root, RootApplication, TrueSchema};

verus! {

pub enum BuiltinView {
    Vector,
    Optional,
    ScopeOf,
    MapOf,
    FixedBytes,
    Frame(Seq<Seq<char>>, Seq<VariantView>),
}

pub enum TypeDeclView {
    Struct(Seq<char>, Seq<(Seq<char>, TypeRefView)>),
    Enum(EnumView),
    Newtype(Seq<char>, TypeRefView),
}

pub struct DeclarationView {
    pub visibility: Visibility,
    pub name: Seq<char>,
    pub parameters: Seq<Seq<char>>,
    pub value: TypeDeclView,
    pub impls: Seq<ImplRefView>,
}

pub enum RootView {
    Enum(EnumView),
    Application(Seq<char>, TypeRefView),
}

pub struct ResolvedView {
    pub local_name: Seq<char>,
    pub source: (Seq<char>, Seq<char>, Seq<char>),
    pub parameter_count: Option<usize>,
    pub parameters: Seq<Seq<char>>,
    pub variants: Seq<VariantView>,
}

pub struct StreamView {
    pub name: Seq<char>,
    pub token: TypeRefView,
    pub opened: TypeRefView,
    pub event: TypeRefView,
    pub close: TypeRefView,
}

pub struct FamilyView {
    pub name: Seq<char>,
    pub record: Seq<char>,
    pub table: Seq<char>,
    pub key: FamilyKey,
}

/// A whole schema by the spelling of its names and the views of its types.
pub struct SchemaView {
    pub identity: (Seq<char>, Seq<char>),
    pub imports: Seq<(Seq<char>, TypeRefView)>,
    pub resolved_imports: Seq<ResolvedView>,
    pub generics: Seq<(Seq<char>, BuiltinView)>,
    pub input: RootView,
    pub output: RootView,
    pub namespace: Seq<DeclarationView>,
    pub streams: Seq<StreamView>,
    pub families: Seq<FamilyView>,
    pub relations: Seq<Seq<Seq<Seq<char>>>>,
    pub impl_blocks: Seq<(Seq<char>, Seq<ImplRefView>)>,
}

pub open spec fn identity_view(i: SchemaIdentity) -> (Seq<char>, Seq<char>) {
    (i.spec_component()@, i.spec_version())
}

pub open spec fn builtin_view(b: GenericBuiltin) -> BuiltinView {
    match b {
        GenericBuiltin::Vector => BuiltinView::Vector,
        GenericBuiltin::Optional => BuiltinView::Optional,
        GenericBuiltin::ScopeOf => BuiltinView::ScopeOf,
        GenericBuiltin::MapOf => BuiltinView::MapOf,
        GenericBuiltin::FixedBytes => BuiltinView::FixedBytes,
        GenericBuiltin::Frame(f) => BuiltinView::Frame(
            names_view(f.spec_parameters()),
            variants_view(f.spec_variants()),
        ),
    }
}

pub open spec fn type_view(t: TypeDeclaration) -> TypeDeclView {
    match t {
        TypeDeclaration::Struct(s) => TypeDeclView::Struct(s.name@, s.fields@),
        TypeDeclaration::Enum(e) => TypeDeclView::Enum(e@),
        TypeDeclaration::Newtype(n) => TypeDeclView::Newtype(n.name@, n.reference@),
    }
}

pub open spec fn declaration_view(d: Declaration) -> DeclarationView {
    DeclarationView {
        visibility: d.spec_visibility(),
        name: d.spec_name()@,
        parameters: names_view(d.spec_parameters()),
        value: type_view(d.spec_value()),
        impls: d.spec_impls()@,
    }
}

pub open spec fn root_view(r: Root) -> RootView {
    match r {
        Root::Enum(e) => RootView::Enum(e@),
        Root::Application(a) => RootView::Application(a.spec_name()@, a.spec_reference()),
    }
}

pub open spec fn resolved_view(i: ResolvedImport) -> ResolvedView {
    ResolvedView {
        local_name: i.spec_local_name()@,
        source: i.spec_source().view_parts(),
        parameter_count: i.spec_parameter_count(),
        parameters: names_view(i.spec_parameters()),
        variants: variants_view(i.spec_variants()),
    }
}

pub open spec fn stream_view(s: StreamDeclaration) -> StreamView {
    StreamView { name: s.name@, token: s.token@, opened: s.opened@, event: s.event@, close: s.close@ }
}

pub open spec fn family_view(f: FamilyDeclaration) -> FamilyView {
    FamilyView { name: f.name@, record: f.record@, table: f.table@, key: f.key }
}

pub open spec fn relation_view(r: RelationDeclaration) -> Seq<Seq<Seq<char>>> {
    match r {
        RelationDeclaration::Equivalence(values) => values@.map_values(
            |v: RelationValue| names_view(v.spec_path()),
        ),
    }
}

pub open spec fn block_view(b: ImplBlock) -> (Seq<char>, Seq<ImplRefView>) {
    (b.spec_target()@, b.spec_catalog()@)
}

pub open spec fn schema_view(s: TrueSchema) -> SchemaView {
    SchemaView {
        identity: identity_view(s.spec_identity()),
        imports: s.spec_imports().map_values(|i: ImportDeclaration| (i.local_name@, i.source@)),
        resolved_imports: s.spec_resolved_imports().map_values(|i: ResolvedImport| resolved_view(i)),
        generics: s.spec_generics().map_values(
            |g: GenericDefinition| (g.spec_name()@, builtin_view(g.spec_builtin())),
        ),
        input: root_view(s.spec_input()),
        output: root_view(s.spec_output()),
        namespace: s.spec_namespace().map_values(|d: Declaration| declaration_view(d)),
        streams: s.spec_streams().map_values(|x: StreamDeclaration| stream_view(x)),
        families: s.spec_families().map_values(|f: FamilyDeclaration| family_view(f)),
        relations: s.spec_relations().map_values(|r: RelationDeclaration| relation_view(r)),
        impl_blocks: s.spec_impl_blocks().map_values(|b: ImplBlock| block_view(b)),
    }
}

// ---------------------------------------------------------------- copies
pub fn copy_type_declaration(t: &TypeDeclaration) -> (r: TypeDeclaration)
    ensures
        type_view(r) == type_view(*t),
        r.spec_name() == t.spec_name(),
{
    match t {
        TypeDeclaration::Struct(s) => TypeDeclaration::Struct(
            StructDeclaration { name: s.name.clone(), fields: s.fields.clone() },
        ),
        TypeDeclaration::Enum(e) => TypeDeclaration::Enum(e.clone()),
        TypeDeclaration::Newtype(n) => TypeDeclaration::Newtype(
            NewtypeDeclaration::new(n.name.clone(), copy_reference(&n.reference)),
        ),
    }
}

pub fn copy_catalog(c: &ImplCatalog) -> (r: ImplCatalog)
    ensures
        r@ == c@,
{
    let entries = c.entries();
    proof {
        c.lemma_view();
    }
    let mut out: Vec<ImplReference> = Vec::new();
    let mut i: usize = 0;
    while i < entries.len()
        invariant
            i <= entries@.len(),
            entries@ == c.spec_entries(),
            out@.len() == i,
            forall|k: int| 0 <= k < i ==> (#[trigger] out@[k])@ == entries@[k]@,
        decreases entries@.len() - i,
    {
        out.push(entries[i].clone());
        i = i + 1;
    }
    let r = ImplCatalog::new(out);
    assert(r@ =~= c@);
    r
}

pub fn copy_declaration(d: &Declaration) -> (r: Declaration)
    ensures
        declaration_view(r) == declaration_view(*d),
{
    let r = d.copy();
    proof {
        assert(names_view(r.spec_parameters()) =~= names_view(d.spec_parameters()));
    }
    r
}

fn copy_builtin(b: &GenericBuiltin) -> (r: GenericBuiltin)
    ensures
        builtin_view(r) == builtin_view(*b),
{
    match b {
        GenericBuiltin::Vector => GenericBuiltin::Vector,
        GenericBuiltin::Optional => GenericBuiltin::Optional,
        GenericBuiltin::ScopeOf => GenericBuiltin::ScopeOf,
        GenericBuiltin::MapOf => GenericBuiltin::MapOf,
        GenericBuiltin::FixedBytes => GenericBuiltin::FixedBytes,
        GenericBuiltin::Frame(frame) => GenericBuiltin::Frame(
            GenericFrame::new(copy_names(frame.parameters()), copy_variants(frame.variants())),
        ),
    }
}

pub fn copy_root(root: &Root) -> (r: Root)
    ensures
        root_view(r) == root_view(*root),
{
    match root {
        Root::Enum(e) => Root::Enum(e.clone()),
        Root::Application(a) => {
            let arguments = copy_references(a.arguments());
            let r = Root::application(
                RootApplication::new(a.name().clone(), a.head().clone(), arguments),
            );
            r
        },
    }
}

fn copy_resolved(i: &ResolvedImport) -> (r: ResolvedImport)
    ensures
        resolved_view(r) == resolved_view(*i),
{
    ResolvedImport::new(
        i.local_name().clone(),
        i.source().clone(),
        i.parameter_count(),
        copy_names(i.parameters()),
        copy_variants(i.variants()),
    )
}

pub fn copy_stream(s: &StreamDeclaration) -> (r: StreamDeclaration)
    ensures
        stream_view(r) == stream_view(*s),
{
    StreamDeclaration::new(
        s.name.clone(),
        copy_reference(&s.token),
        copy_reference(&s.opened),
        copy_reference(&s.event),
        copy_reference(&s.close),
    )
}

fn copy_relation(r: &RelationDeclaration) -> (out: RelationDeclaration)
    ensures
        relation_view(out) == relation_view(*r),
{
    let values = r.values();
    let mut copied: Vec<RelationValue> = Vec::new();
    let mut i: usize = 0;
    while i < values.len()
        invariant
            i <= values@.len(),
            values@ == r->Equivalence_0@,
            copied@.len() == i,
            forall|k: int| 0 <= k < i ==> names_view((#[trigger] copied@[k]).spec_path()) == names_view(
                values@[k].spec_path(),
            ),
        decreases values@.len() - i,
    {
        copied.push(RelationValue::new(copy_names(values[i].path())));
        i = i + 1;
    }
    let out = RelationDeclaration::Equivalence(copied);
    assert(relation_view(out) =~= relation_view(*r));
    out
}

impl TrueSchema {
    /// A copy of the whole schema, section by section.
    pub fn copy(&self) -> (r: TrueSchema)
        ensures
            schema_view(r) == schema_view(*self),
    {
        let imports = self.imports();
        let mut imports_out: Vec<ImportDeclaration> = Vec::new();
        let mut i: usize = 0;
        while i < imports.len()
            invariant
                i <= imports@.len(),
                imports_out@.len() == i,
                forall|k: int| 0 <= k < i ==> (#[trigger] imports_out@[k]).local_name@
                    == imports@[k].local_name@ && imports_out@[k].source@ == imports@[k].source@,
            decreases imports@.len() - i,
        {
            imports_out.push(
                ImportDeclaration {
                    local_name: imports[i].local_name.clone(),
                    source: copy_reference(&imports[i].source),
                },
            );
            i = i + 1;
        }
        let resolved = self.resolved_imports();
        let mut resolved_out: Vec<ResolvedImport> = Vec::new();
        let mut i: usize = 0;
        while i < resolved.len()
            invariant
                i <= resolved@.len(),
                resolved_out@.len() == i,
                forall|k: int| 0 <= k < i ==> resolved_view(#[trigger] resolved_out@[k]) == resolved_view(
                    resolved@[k],
                ),
            decreases resolved@.len() - i,
        {
            resolved_out.push(copy_resolved(&resolved[i]));
            i = i + 1;
        }
        let generics = self.generics();
        let mut generics_out: Vec<GenericDefinition> = Vec::new();
        let mut i: usize = 0;
        while i < generics.len()
            invariant
                i <= generics@.len(),
                generics_out@.len() == i,
                forall|k: int| 0 <= k < i ==> (#[trigger] generics_out@[k]).spec_name()@
                    == generics@[k].spec_name()@ && builtin_view(generics_out@[k].spec_builtin())
                    == builtin_view(generics@[k].spec_builtin()),
            decreases generics@.len() - i,
        {
            generics_out.push(
                GenericDefinition::new(generics[i].name().clone(), copy_builtin(generics[i].builtin())),
            );
            i = i + 1;
        }
        let namespace = self.namespace();
        let mut namespace_out: Vec<Declaration> = Vec::new();
        let mut i: usize = 0;
        while i < namespace.len()
            invariant
                i <= namespace@.len(),
                namespace_out@.len() == i,
                forall|k: int| 0 <= k < i ==> declaration_view(#[trigger] namespace_out@[k])
                    == declaration_view(namespace@[k]),
            decreases namespace@.len() - i,
        {
            namespace_out.push(copy_declaration(&namespace[i]));
            i = i + 1;
        }
        let streams = self.streams();
        let mut streams_out: Vec<StreamDeclaration> = Vec::new();
        let mut i: usize = 0;
        while i < streams.len()
            invariant
                i <= streams@.len(),
                streams_out@.len() == i,
                forall|k: int| 0 <= k < i ==> stream_view(#[trigger] streams_out@[k]) == stream_view(
                    streams@[k],
                ),
            decreases streams@.len() - i,
        {
            streams_out.push(copy_stream(&streams[i]));
            i = i + 1;
        }
        let families = self.families();
        let mut families_out: Vec<FamilyDeclaration> = Vec::new();
        let mut i: usize = 0;
        while i < families.len()
            invariant
                i <= families@.len(),
                families_out@.len() == i,
                forall|k: int| 0 <= k < i ==> family_view(#[trigger] families_out@[k]) == family_view(
                    families@[k],
                ),
            decreases families@.len() - i,
        {
            let family = &families[i];
            families_out.push(
                FamilyDeclaration::new(
                    family.name.clone(),
                    family.record.clone(),
                    family.table.clone(),
                    family.key,
                ),
            );
            i = i + 1;
        }
        let relations = self.relations();
        let mut relations_out: Vec<RelationDeclaration> = Vec::new();
        let mut i: usize = 0;
        while i < relations.len()
            invariant
                i <= relations@.len(),
                relations_out@.len() == i,
                forall|k: int| 0 <= k < i ==> relation_view(#[trigger] relations_out@[k]) == relation_view(
                    relations@[k],
                ),
            decreases relations@.len() - i,
        {
            relations_out.push(copy_relation(&relations[i]));
            i = i + 1;
        }
        let blocks = self.impl_blocks();
        let mut blocks_out: Vec<ImplBlock> = Vec::new();
        let mut i: usize = 0;
        while i < blocks.len()
            invariant
                i <= blocks@.len(),
                blocks_out@.len() == i,
                forall|k: int| 0 <= k < i ==> block_view(#[trigger] blocks_out@[k]) == block_view(
                    blocks@[k],
                ),
            decreases blocks@.len() - i,
        {
            blocks_out.push(ImplBlock::new(blocks[i].target().clone(), copy_catalog(blocks[i].catalog())));
            i = i + 1;
        }
        let r = TrueSchema::new(
            self.identity().clone(),
            imports_out,
            resolved_out,
            generics_out,
            copy_root(self.input()),
            copy_root(self.output()),
            namespace_out,
            streams_out,
            families_out,
            relations_out,
        ).with_impl_blocks(blocks_out);
        proof {
            let a = schema_view(r);
            let b = schema_view(*self);
            assert(a.imports =~= b.imports);
            assert(a.resolved_imports =~= b.resolved_imports);
            assert(a.generics =~= b.generics);
            assert(a.namespace =~= b.namespace);
            assert(a.streams =~= b.streams);
            assert(a.families =~= b.families);
            assert(a.relations =~= b.relations);
            assert(a.impl_blocks =~= b.impl_blocks);
        }
        r
    }
}

} // verus!
