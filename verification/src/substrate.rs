//! The name-free substrate of a schema: every declaration is addressed by
//! its minted identifier, and the human names live apart in a name table.
//! Projecting the substrate through a table gives back the named schema, so
//! a rename in the table moves every use of a declaration at once.
use vstd::prelude::*;

use crate::error::SchemaError;
use crate::hex::hex_text;
use crate::identifier::{NameTable, NominalIdentifier, holds_identifier};
use crate::impls::{ImplBlock, ImplCatalog, ImplRefView};
use crate::lookup::first_match;
use crate::name::{Name, SchemaIdentity, TableName, local_part_of};
use crate::reference::{
    ApplicationHead, HeadView, ImportSource, ImportedHead, TypeRefView, TypeReference,
    copy_reference, derived_name, references_view,
};
use crate::schema::{
    Declaration, EnumDeclaration, fields_view, EnumVariant, EnumView, FamilyDeclaration, FamilyKey,
    FieldDeclaration, ImportDeclaration, NewtypeDeclaration, RelationDeclaration, RelationValue,
    ResolvedImport, StreamDeclaration, StreamRelation, StreamRelationView, StructDeclaration,
    TypeDeclaration, VariantView, Visibility, names_view,
};
use crate::true_schema::{Root, RootApplication, TrueSchema};
use crate::views::{
    DeclarationView, FamilyView, ResolvedView, RootView, SchemaView, StreamView, TypeDeclView,
    block_view, copy_catalog, declaration_view, family_view, identity_view, relation_view,
    resolved_view, root_view, schema_view, stream_view, type_view,
};

verus! {

// ---------------------------------------------------------------- the substrate
/// A type at a reference position, with declared names replaced by their
/// identifiers.
#[derive(Debug)]
pub enum CoreReference {
    String,
    Integer,
    Boolean,
    Path,
    Bytes,
    FixedBytes(u64),
    Plain(NominalIdentifier),
    Vector(Box<CoreReference>),
    MapOf(Box<CoreReference>, Box<CoreReference>),
    Optional(Box<CoreReference>),
    ScopeOf(Box<CoreReference>),
    Application { head: CoreApplicationHead, arguments: Vec<CoreReference> },
}

/// A generic application's head: a local declaration, or an imported one
/// carrying its resolution.
#[derive(Debug)]
pub enum CoreApplicationHead {
    Local(NominalIdentifier),
    Imported(CoreResolvedImport),
}

/// A resolved import: its identifier, where it comes from, and its frame.
#[derive(Debug)]
pub struct CoreResolvedImport {
    pub identifier: NominalIdentifier,
    pub source: ImportSource,
    pub parameter_count: Option<u64>,
    pub parameters: Vec<NominalIdentifier>,
    pub variants: Vec<CoreVariant>,
}

/// A variant's relation to a stream, the stream by identifier.
#[derive(Debug)]
pub enum CoreStreamRelation {
    Opens(NominalIdentifier),
    Belongs(NominalIdentifier),
}

#[derive(Debug)]
pub struct CoreVariant {
    pub identifier: NominalIdentifier,
    pub payload: Option<CoreReference>,
    pub stream_relation: Option<CoreStreamRelation>,
}

#[derive(Debug)]
pub struct CoreEnum {
    pub identifier: NominalIdentifier,
    pub variants: Vec<CoreVariant>,
}

#[derive(Debug)]
pub struct CoreField {
    pub identifier: NominalIdentifier,
    pub reference: CoreReference,
}

#[derive(Debug)]
pub struct CoreStruct {
    pub identifier: NominalIdentifier,
    pub fields: Vec<CoreField>,
}

#[derive(Debug)]
pub struct CoreNewtype {
    pub identifier: NominalIdentifier,
    pub reference: CoreReference,
}

#[derive(Debug)]
pub enum CoreType {
    Struct(CoreStruct),
    Enum(CoreEnum),
    Newtype(CoreNewtype),
}

#[derive(Debug)]
pub struct CoreDeclaration {
    pub visibility: Visibility,
    pub parameters: Vec<NominalIdentifier>,
    pub value: CoreType,
    pub impls: ImplCatalog,
}

#[derive(Debug)]
pub struct CoreRootApplication {
    pub identifier: NominalIdentifier,
    pub head: CoreApplicationHead,
    pub arguments: Vec<CoreReference>,
}

#[derive(Debug)]
pub enum CoreRoot {
    Enum(CoreEnum),
    Application(Box<CoreRootApplication>),
}

#[derive(Debug)]
pub struct CoreStream {
    pub identifier: NominalIdentifier,
    pub token: CoreReference,
    pub opened: CoreReference,
    pub event: CoreReference,
    pub close: CoreReference,
}

#[derive(Debug)]
pub struct CoreFamily {
    pub identifier: NominalIdentifier,
    pub record: NominalIdentifier,
    pub table: TableName,
    pub key: FamilyKey,
}

#[derive(Debug)]
pub struct CoreImplBlock {
    pub target: NominalIdentifier,
    pub catalog: ImplCatalog,
}

#[derive(Debug)]
pub struct CoreRelationValue {
    pub segments: Vec<NominalIdentifier>,
}

#[derive(Debug)]
pub enum CoreRelationDeclaration {
    Equivalence(Vec<CoreRelationValue>),
}

/// A whole schema's substrate; the identity rides beside it.
#[derive(Debug)]
pub struct CoreSchema {
    pub imports: Vec<ImportDeclaration>,
    pub resolved_imports: Vec<CoreResolvedImport>,
    pub input: CoreRoot,
    pub output: CoreRoot,
    pub namespace: Vec<CoreDeclaration>,
    pub streams: Vec<CoreStream>,
    pub families: Vec<CoreFamily>,
    pub relations: Vec<CoreRelationDeclaration>,
    pub impl_blocks: Vec<CoreImplBlock>,
}

// ---------------------------------------------------------------- projection, specified
/// Projection fails at the first identifier the table does not name.
pub type Projected<T> = Result<T, NominalIdentifier>;

/// The current name of an identifier in a table.
pub open spec fn projected_name(t: Seq<(NominalIdentifier, Seq<char>)>, id: NominalIdentifier) -> Projected<Seq<char>> {
    match first_match(t, holds_identifier(id)) {
        Some(k) => Ok(t[k].1),
        None => Err(id),
    }
}

/// A member's name: the local part of the name its identifier projects to.
pub open spec fn projected_member(t: Seq<(NominalIdentifier, Seq<char>)>, id: NominalIdentifier) -> Projected<Seq<char>> {
    match projected_name(t, id) {
        Ok(n) => Ok(local_part_of(n)),
        Err(e) => Err(e),
    }
}

pub open spec fn projected_members(t: Seq<(NominalIdentifier, Seq<char>)>, ids: Seq<NominalIdentifier>) -> Projected<Seq<Seq<char>>>
    decreases ids.len(),
{
    if ids.len() == 0 {
        Ok(Seq::empty())
    } else {
        match projected_members(t, ids.drop_last()) {
            Err(e) => Err(e),
            Ok(acc) => match projected_member(t, ids.last()) {
                Err(e) => Err(e),
                Ok(n) => Ok(acc.push(n)),
            },
        }
    }
}

pub open spec fn projected_names(t: Seq<(NominalIdentifier, Seq<char>)>, ids: Seq<NominalIdentifier>) -> Projected<Seq<Seq<char>>>
    decreases ids.len(),
{
    if ids.len() == 0 {
        Ok(Seq::empty())
    } else {
        match projected_names(t, ids.drop_last()) {
            Err(e) => Err(e),
            Ok(acc) => match projected_name(t, ids.last()) {
                Err(e) => Err(e),
                Ok(n) => Ok(acc.push(n)),
            },
        }
    }
}

pub open spec fn project_reference(t: Seq<(NominalIdentifier, Seq<char>)>, r: CoreReference) -> Projected<TypeRefView>
    decreases r, 1nat,
{
    match r {
        CoreReference::String => Ok(TypeRefView::String),
        CoreReference::Integer => Ok(TypeRefView::Integer),
        CoreReference::Boolean => Ok(TypeRefView::Boolean),
        CoreReference::Path => Ok(TypeRefView::Path),
        CoreReference::Bytes => Ok(TypeRefView::Bytes),
        CoreReference::FixedBytes(w) => Ok(TypeRefView::FixedBytes(w)),
        CoreReference::Plain(id) => match projected_name(t, id) {
            Ok(n) => Ok(TypeRefView::Plain(n)),
            Err(e) => Err(e),
        },
        CoreReference::Vector(inner) => match project_reference(t, *inner) {
            Ok(v) => Ok(TypeRefView::Vector(Box::new(v))),
            Err(e) => Err(e),
        },
        CoreReference::Optional(inner) => match project_reference(t, *inner) {
            Ok(v) => Ok(TypeRefView::Optional(Box::new(v))),
            Err(e) => Err(e),
        },
        CoreReference::ScopeOf(inner) => match project_reference(t, *inner) {
            Ok(v) => Ok(TypeRefView::ScopeOf(Box::new(v))),
            Err(e) => Err(e),
        },
        CoreReference::MapOf(key, value) => match project_reference(t, *key) {
            Err(e) => Err(e),
            Ok(k) => match project_reference(t, *value) {
                Err(e) => Err(e),
                Ok(v) => Ok(TypeRefView::MapOf(Box::new(k), Box::new(v))),
            },
        },
        CoreReference::Application { head, arguments } => match project_head(t, head) {
            Err(e) => Err(e),
            Ok(h) => match project_references(t, arguments@) {
                Err(e) => Err(e),
                Ok(args) => Ok(TypeRefView::Application { head: h, arguments: args }),
            },
        },
    }
}

pub open spec fn project_references(t: Seq<(NominalIdentifier, Seq<char>)>, rs: Seq<CoreReference>) -> Projected<Seq<TypeRefView>>
    decreases rs, 0nat,
{
    if rs.len() == 0 {
        Ok(Seq::empty())
    } else {
        match project_references(t, rs.drop_last()) {
            Err(e) => Err(e),
            Ok(acc) => match project_reference(t, rs[rs.len() - 1]) {
                Err(e) => Err(e),
                Ok(v) => Ok(acc.push(v)),
            },
        }
    }
}

/// An application head: a local head by its declaration's name; an
/// imported one by its alias, source and arity, once its whole resolution
/// projects.
pub open spec fn project_head(t: Seq<(NominalIdentifier, Seq<char>)>, h: CoreApplicationHead) -> Projected<HeadView>
    decreases h, 0nat,
{
    match h {
        CoreApplicationHead::Local(id) => match projected_name(t, id) {
            Ok(n) => Ok(HeadView::Local(n)),
            Err(e) => Err(e),
        },
        CoreApplicationHead::Imported(import) => match project_resolved(t, import) {
            Ok(v) => Ok(HeadView::Imported(v)),
            Err(e) => Err(e),
        },
    }
}

pub open spec fn project_relation(t: Seq<(NominalIdentifier, Seq<char>)>, r: Option<CoreStreamRelation>) -> Projected<Option<StreamRelationView>> {
    match r {
        None => Ok(None),
        Some(CoreStreamRelation::Opens(id)) => match projected_name(t, id) {
            Ok(n) => Ok(Some(StreamRelationView::Opens(n))),
            Err(e) => Err(e),
        },
        Some(CoreStreamRelation::Belongs(id)) => match projected_name(t, id) {
            Ok(n) => Ok(Some(StreamRelationView::Belongs(n))),
            Err(e) => Err(e),
        },
    }
}

pub open spec fn project_variant(t: Seq<(NominalIdentifier, Seq<char>)>, v: CoreVariant) -> Projected<VariantView>
    decreases v, 0nat,
{
    match projected_member(t, v.identifier) {
        Err(e) => Err(e),
        Ok(name) => match match v.payload {
            Some(p) => match project_reference(t, p) {
                Ok(x) => Ok(Some(x)),
                Err(e) => Err(e),
            },
            None => Ok(None),
        } {
            Err(e) => Err(e),
            Ok(payload) => match project_relation(t, v.stream_relation) {
                Err(e) => Err(e),
                Ok(relation) => Ok(VariantView { name, payload, stream_relation: relation }),
            },
        },
    }
}

pub open spec fn project_variants(t: Seq<(NominalIdentifier, Seq<char>)>, vs: Seq<CoreVariant>) -> Projected<Seq<VariantView>>
    decreases vs, 0nat,
{
    if vs.len() == 0 {
        Ok(Seq::empty())
    } else {
        match project_variants(t, vs.drop_last()) {
            Err(e) => Err(e),
            Ok(acc) => match project_variant(t, vs[vs.len() - 1]) {
                Err(e) => Err(e),
                Ok(v) => Ok(acc.push(v)),
            },
        }
    }
}

pub open spec fn project_enum(t: Seq<(NominalIdentifier, Seq<char>)>, e: CoreEnum) -> Projected<EnumView> {
    match projected_name(t, e.identifier) {
        Err(x) => Err(x),
        Ok(name) => match project_variants(t, e.variants@) {
            Err(x) => Err(x),
            Ok(variants) => Ok(EnumView { name, variants }),
        },
    }
}

/// A field's name: the name its identifier holds in the table, or, with no
/// row, the name its projected type derives.
pub open spec fn project_field(t: Seq<(NominalIdentifier, Seq<char>)>, f: CoreField) -> Projected<(Seq<char>, TypeRefView)> {
    match project_reference(t, f.reference) {
        Err(e) => Err(e),
        Ok(r) => match first_match(t, holds_identifier(f.identifier)) {
            Some(k) => Ok((t[k].1, r)),
            None => Ok((derived_name(r), r)),
        },
    }
}

pub open spec fn field_projector(t: Seq<(NominalIdentifier, Seq<char>)>) -> spec_fn(CoreField) -> Projected<(Seq<char>, TypeRefView)> {
    |f: CoreField| project_field(t, f)
}

pub open spec fn project_fields(t: Seq<(NominalIdentifier, Seq<char>)>, fs: Seq<CoreField>) -> Projected<Seq<(Seq<char>, TypeRefView)>> {
    project_all(t, fs, field_projector(t))
}

pub open spec fn project_type(t: Seq<(NominalIdentifier, Seq<char>)>, v: CoreType) -> Projected<TypeDeclView> {
    match v {
        CoreType::Struct(s) => match projected_name(t, s.identifier) {
            Err(e) => Err(e),
            Ok(name) => match project_fields(t, s.fields@) {
                Err(e) => Err(e),
                Ok(fields) => Ok(TypeDeclView::Struct(name, fields)),
            },
        },
        CoreType::Enum(e) => match project_enum(t, e) {
            Err(x) => Err(x),
            Ok(view) => Ok(TypeDeclView::Enum(view)),
        },
        CoreType::Newtype(n) => match projected_name(t, n.identifier) {
            Err(e) => Err(e),
            Ok(name) => match project_reference(t, n.reference) {
                Err(e) => Err(e),
                Ok(r) => Ok(TypeDeclView::Newtype(name, r)),
            },
        },
    }
}

pub open spec fn type_name_of(v: TypeDeclView) -> Seq<char> {
    match v {
        TypeDeclView::Struct(n, _) => n,
        TypeDeclView::Enum(e) => e.name,
        TypeDeclView::Newtype(n, _) => n,
    }
}

pub open spec fn project_declaration(t: Seq<(NominalIdentifier, Seq<char>)>, d: CoreDeclaration) -> Projected<DeclarationView> {
    match project_type(t, d.value) {
        Err(e) => Err(e),
        Ok(value) => match projected_members(t, d.parameters@) {
            Err(e) => Err(e),
            Ok(parameters) => Ok(
                DeclarationView {
                    visibility: d.visibility,
                    name: type_name_of(value),
                    parameters,
                    value,
                    impls: d.impls@,
                },
            ),
        },
    }
}

pub open spec fn project_root(t: Seq<(NominalIdentifier, Seq<char>)>, r: CoreRoot) -> Projected<RootView> {
    match r {
        CoreRoot::Enum(e) => match project_enum(t, e) {
            Err(x) => Err(x),
            Ok(v) => Ok(RootView::Enum(v)),
        },
        CoreRoot::Application(a) => match projected_name(t, a.identifier) {
            Err(e) => Err(e),
            Ok(name) => match project_head(t, a.head) {
                Err(e) => Err(e),
                Ok(h) => match project_references(t, a.arguments@) {
                    Err(e) => Err(e),
                    Ok(args) => Ok(RootView::Application(name, TypeRefView::Application { head: h, arguments: args })),
                },
            },
        },
    }
}

pub open spec fn project_resolved(t: Seq<(NominalIdentifier, Seq<char>)>, i: CoreResolvedImport) -> Projected<ResolvedView>
    decreases i, 0nat,
{
    match projected_name(t, i.identifier) {
        Err(e) => Err(e),
        Ok(local_name) => match projected_members(t, i.parameters@) {
            Err(e) => Err(e),
            Ok(parameters) => match project_variants(t, i.variants@) {
                Err(e) => Err(e),
                Ok(variants) => Ok(
                    ResolvedView {
                        local_name,
                        source: i.source.view_parts(),
                        parameter_count: match i.parameter_count {
                            Some(c) => Some(c as usize),
                            None => None,
                        },
                        parameters,
                        variants,
                    },
                ),
            },
        },
    }
}

pub open spec fn project_stream(t: Seq<(NominalIdentifier, Seq<char>)>, s: CoreStream) -> Projected<StreamView> {
    match projected_name(t, s.identifier) {
        Err(e) => Err(e),
        Ok(name) => match project_reference(t, s.token) {
            Err(e) => Err(e),
            Ok(token) => match project_reference(t, s.opened) {
                Err(e) => Err(e),
                Ok(opened) => match project_reference(t, s.event) {
                    Err(e) => Err(e),
                    Ok(event) => match project_reference(t, s.close) {
                        Err(e) => Err(e),
                        Ok(close) => Ok(StreamView { name, token, opened, event, close }),
                    },
                },
            },
        },
    }
}

pub open spec fn project_family(t: Seq<(NominalIdentifier, Seq<char>)>, f: CoreFamily) -> Projected<FamilyView> {
    match projected_name(t, f.identifier) {
        Err(e) => Err(e),
        Ok(name) => match projected_name(t, f.record) {
            Err(e) => Err(e),
            Ok(record) => Ok(FamilyView { name, record, table: f.table@, key: f.key }),
        },
    }
}

pub open spec fn project_block(t: Seq<(NominalIdentifier, Seq<char>)>, b: CoreImplBlock) -> Projected<(Seq<char>, Seq<ImplRefView>)> {
    match projected_name(t, b.target) {
        Err(e) => Err(e),
        Ok(target) => Ok((target, b.catalog@)),
    }
}

pub open spec fn project_relation_declaration(t: Seq<(NominalIdentifier, Seq<char>)>, r: CoreRelationDeclaration) -> Projected<Seq<Seq<Seq<char>>>> {
    match r {
        CoreRelationDeclaration::Equivalence(values) => project_paths(t, values@),
    }
}

pub open spec fn path_projector(t: Seq<(NominalIdentifier, Seq<char>)>) -> spec_fn(CoreRelationValue) -> Projected<Seq<Seq<char>>> {
    |v: CoreRelationValue| projected_names(t, v.segments@)
}

pub open spec fn project_paths(t: Seq<(NominalIdentifier, Seq<char>)>, vs: Seq<CoreRelationValue>) -> Projected<Seq<Seq<Seq<char>>>> {
    project_all(t, vs, path_projector(t))
}

pub open spec fn resolved_projector(t: Seq<(NominalIdentifier, Seq<char>)>) -> spec_fn(CoreResolvedImport) -> Projected<ResolvedView> {
    |i: CoreResolvedImport| project_resolved(t, i)
}

pub open spec fn declaration_projector(t: Seq<(NominalIdentifier, Seq<char>)>) -> spec_fn(CoreDeclaration) -> Projected<DeclarationView> {
    |d: CoreDeclaration| project_declaration(t, d)
}

pub open spec fn stream_projector(t: Seq<(NominalIdentifier, Seq<char>)>) -> spec_fn(CoreStream) -> Projected<StreamView> {
    |s: CoreStream| project_stream(t, s)
}

pub open spec fn family_projector(t: Seq<(NominalIdentifier, Seq<char>)>) -> spec_fn(CoreFamily) -> Projected<FamilyView> {
    |f: CoreFamily| project_family(t, f)
}

pub open spec fn relation_projector(t: Seq<(NominalIdentifier, Seq<char>)>) -> spec_fn(CoreRelationDeclaration) -> Projected<Seq<Seq<Seq<char>>>> {
    |r: CoreRelationDeclaration| project_relation_declaration(t, r)
}

pub open spec fn block_projector(t: Seq<(NominalIdentifier, Seq<char>)>) -> spec_fn(CoreImplBlock) -> Projected<(Seq<char>, Seq<ImplRefView>)> {
    |b: CoreImplBlock| project_block(t, b)
}

/// A whole substrate through a table: the named schema, section by section
/// and in order, or the first identifier the table does not name. Imports
/// carry no identifiers and come through as they are; the projection holds
/// no generic definitions.
pub open spec fn project_schema(t: Seq<(NominalIdentifier, Seq<char>)>, c: CoreSchema, identity: SchemaIdentity) -> Projected<SchemaView> {
    match project_all(t, c.resolved_imports@, resolved_projector(t)) {
        Err(e) => Err(e),
        Ok(resolved_imports) => match project_root(t, c.input) {
            Err(e) => Err(e),
            Ok(input) => match project_root(t, c.output) {
                Err(e) => Err(e),
                Ok(output) => match project_all(t, c.namespace@, declaration_projector(t)) {
                    Err(e) => Err(e),
                    Ok(namespace) => match project_all(t, c.streams@, stream_projector(t)) {
                        Err(e) => Err(e),
                        Ok(streams) => match project_all(t, c.families@, family_projector(t)) {
                            Err(e) => Err(e),
                            Ok(families) => match project_all(t, c.relations@, relation_projector(t)) {
                                Err(e) => Err(e),
                                Ok(relations) => match project_all(t, c.impl_blocks@, block_projector(t)) {
                                    Err(e) => Err(e),
                                    Ok(impl_blocks) => Ok(
                                        SchemaView {
                                            identity: identity_view(identity),
                                            imports: c.imports@.map_values(
                                                |i: ImportDeclaration| (i.local_name@, i.source@),
                                            ),
                                            resolved_imports,
                                            generics: Seq::empty(),
                                            input,
                                            output,
                                            namespace,
                                            streams,
                                            families,
                                            relations,
                                            impl_blocks,
                                        },
                                    ),
                                },
                            },
                        },
                    },
                },
            },
        },
    }
}

/// Projection over a sequence, in order, failing at the first failure.
pub open spec fn project_all<A, B>(t: Seq<(NominalIdentifier, Seq<char>)>, xs: Seq<A>, f: spec_fn(A) -> Projected<B>) -> Projected<Seq<B>>
    decreases xs.len(),
{
    if xs.len() == 0 {
        Ok(Seq::empty())
    } else {
        match project_all(t, xs.drop_last(), f) {
            Err(e) => Err(e),
            Ok(acc) => match f(xs.last()) {
                Err(e) => Err(e),
                Ok(b) => Ok(acc.push(b)),
            },
        }
    }
}

proof fn lemma_project_all_step<A, B>(t: Seq<(NominalIdentifier, Seq<char>)>, xs: Seq<A>, f: spec_fn(A) -> Projected<B>, i: int)
    requires
        0 <= i < xs.len(),
    ensures
        project_all(t, xs.take(i + 1), f) == match project_all(t, xs.take(i), f) {
            Err(e) => Err(e),
            Ok(acc) => match f(xs[i]) {
                Err(e) => Err(e),
                Ok(b) => Ok(acc.push(b)),
            },
        },
{
    assert(xs.take(i + 1).drop_last() =~= xs.take(i));
    assert(xs.take(i + 1).last() == xs[i]);
}

proof fn lemma_project_all_failure<A, B>(t: Seq<(NominalIdentifier, Seq<char>)>, xs: Seq<A>, f: spec_fn(A) -> Projected<B>, k: int)
    requires
        0 <= k <= xs.len(),
        project_all(t, xs.take(k), f) is Err,
    ensures
        project_all(t, xs, f) == project_all(t, xs.take(k), f),
    decreases xs.len(),
{
    if k == xs.len() {
        assert(xs.take(k) =~= xs);
    } else {
        assert(xs.drop_last().take(k) =~= xs.take(k));
        lemma_project_all_failure(t, xs.drop_last(), f, k);
    }
}

// ---------------------------------------------------------------- projection, executed
/// The error that reports an identifier the table does not name.
pub open spec fn reports_absent(e: SchemaError, id: NominalIdentifier) -> bool {
    e matches SchemaError::CoreProjectionNameAbsent { identifier } && identifier@ == hex_text(id.spec_digest())
}

pub open spec fn name_matches(r: Result<Name, SchemaError>, o: Projected<Seq<char>>) -> bool {
    match o {
        Ok(n) => r is Ok && r->Ok_0@ == n,
        Err(id) => r is Err && reports_absent(r->Err_0, id),
    }
}

pub open spec fn reference_matches(r: Result<TypeReference, SchemaError>, o: Projected<TypeRefView>) -> bool {
    match o {
        Ok(v) => r is Ok && r->Ok_0@ == v,
        Err(id) => r is Err && reports_absent(r->Err_0, id),
    }
}

pub open spec fn references_match(r: Result<Vec<TypeReference>, SchemaError>, o: Projected<Seq<TypeRefView>>) -> bool {
    match o {
        Ok(v) => r is Ok && references_view(r->Ok_0@) == v,
        Err(id) => r is Err && reports_absent(r->Err_0, id),
    }
}

pub open spec fn head_matches(r: Result<ApplicationHead, SchemaError>, o: Projected<HeadView>) -> bool {
    match o {
        Ok(v) => r is Ok && r->Ok_0@ == v,
        Err(id) => r is Err && reports_absent(r->Err_0, id),
    }
}

pub open spec fn resolved_matches(r: Result<ResolvedImport, SchemaError>, o: Projected<ResolvedView>) -> bool {
    match o {
        Ok(v) => r is Ok && resolved_view(r->Ok_0) == v,
        Err(id) => r is Err && reports_absent(r->Err_0, id),
    }
}

pub open spec fn variants_match(r: Result<Vec<EnumVariant>, SchemaError>, o: Projected<Seq<VariantView>>) -> bool {
    match o {
        Ok(v) => r is Ok && crate::schema::variants_view(r->Ok_0@) == v,
        Err(id) => r is Err && reports_absent(r->Err_0, id),
    }
}

fn projected_name_exec(names: &NameTable, id: &NominalIdentifier) -> (r: Result<Name, SchemaError>)
    ensures
        name_matches(r, projected_name(names@, *id)),
{
    match names.name_of(id) {
        Some(name) => Ok(name.clone()),
        None => Err(SchemaError::CoreProjectionNameAbsent { identifier: id.to_hex() }),
    }
}

fn projected_member_exec(names: &NameTable, id: &NominalIdentifier) -> (r: Result<Name, SchemaError>)
    ensures
        name_matches(r, projected_member(names@, *id)),
{
    match projected_name_exec(names, id) {
        Ok(name) => Ok(Name::new(name.local_part())),
        Err(e) => Err(e),
    }
}

proof fn lemma_names_step(t: Seq<(NominalIdentifier, Seq<char>)>, ids: Seq<NominalIdentifier>, i: int)
    requires
        0 <= i < ids.len(),
    ensures
        projected_members(t, ids.take(i + 1)) == match projected_members(t, ids.take(i)) {
            Err(e) => Err(e),
            Ok(acc) => match projected_member(t, ids[i]) {
                Err(e) => Err(e),
                Ok(n) => Ok(acc.push(n)),
            },
        },
        projected_names(t, ids.take(i + 1)) == match projected_names(t, ids.take(i)) {
            Err(e) => Err(e),
            Ok(acc) => match projected_name(t, ids[i]) {
                Err(e) => Err(e),
                Ok(n) => Ok(acc.push(n)),
            },
        },
{
    assert(ids.take(i + 1).drop_last() =~= ids.take(i));
    assert(ids.take(i + 1).last() == ids[i]);
}

proof fn lemma_names_failure(t: Seq<(NominalIdentifier, Seq<char>)>, ids: Seq<NominalIdentifier>, k: int, members: bool)
    requires
        0 <= k <= ids.len(),
        members ==> projected_members(t, ids.take(k)) is Err,
        !members ==> projected_names(t, ids.take(k)) is Err,
    ensures
        members ==> projected_members(t, ids) == projected_members(t, ids.take(k)),
        !members ==> projected_names(t, ids) == projected_names(t, ids.take(k)),
    decreases ids.len(),
{
    if k == ids.len() {
        assert(ids.take(k) =~= ids);
    } else {
        assert(ids.drop_last().take(k) =~= ids.take(k));
        lemma_names_failure(t, ids.drop_last(), k, members);
    }
}

/// The names of several identifiers, whole or by local part.
fn projected_names_exec(names: &NameTable, ids: &Vec<NominalIdentifier>, members: bool) -> (r: Result<Vec<Name>, SchemaError>)
    ensures
        members ==> match projected_members(names@, ids@) {
            Ok(v) => r is Ok && names_view(r->Ok_0@) == v,
            Err(id) => r is Err && reports_absent(r->Err_0, id),
        },
        !members ==> match projected_names(names@, ids@) {
            Ok(v) => r is Ok && names_view(r->Ok_0@) == v,
            Err(id) => r is Err && reports_absent(r->Err_0, id),
        },
{
    let mut out: Vec<Name> = Vec::new();
    proof {
        assert(ids@.take(0) =~= Seq::<NominalIdentifier>::empty());
        assert(names_view(out@) =~= Seq::<Seq<char>>::empty());
    }
    let mut i: usize = 0;
    while i < ids.len()
        invariant
            i <= ids@.len(),
            members ==> projected_members(names@, ids@.take(i as int)) == Ok::<Seq<Seq<char>>, NominalIdentifier>(
                names_view(out@),
            ),
            !members ==> projected_names(names@, ids@.take(i as int)) == Ok::<Seq<Seq<char>>, NominalIdentifier>(
                names_view(out@),
            ),
        decreases ids@.len() - i,
    {
        proof {
            lemma_names_step(names@, ids@, i as int);
        }
        let step = if members {
            projected_member_exec(names, &ids[i])
        } else {
            projected_name_exec(names, &ids[i])
        };
        match step {
            Ok(n) => {
                let ghost before = out@;
                out.push(n);
                assert(names_view(out@) =~= names_view(before).push(n@));
            },
            Err(e) => {
                proof {
                    lemma_names_failure(names@, ids@, i + 1, members);
                }
                return Err(e);
            },
        }
        i = i + 1;
    }
    proof {
        assert(ids@.take(i as int) =~= ids@);
    }
    Ok(out)
}

proof fn lemma_references_step(t: Seq<(NominalIdentifier, Seq<char>)>, rs: Seq<CoreReference>, i: int)
    requires
        0 <= i < rs.len(),
    ensures
        project_references(t, rs.take(i + 1)) == match project_references(t, rs.take(i)) {
            Err(e) => Err(e),
            Ok(acc) => match project_reference(t, rs[i]) {
                Err(e) => Err(e),
                Ok(v) => Ok(acc.push(v)),
            },
        },
{
    assert(rs.take(i + 1).drop_last() =~= rs.take(i));
    assert(rs.take(i + 1)[i] == rs[i]);
}

proof fn lemma_references_failure(t: Seq<(NominalIdentifier, Seq<char>)>, rs: Seq<CoreReference>, k: int)
    requires
        0 <= k <= rs.len(),
        project_references(t, rs.take(k)) is Err,
    ensures
        project_references(t, rs) == project_references(t, rs.take(k)),
    decreases rs.len(),
{
    if k == rs.len() {
        assert(rs.take(k) =~= rs);
    } else {
        assert(rs.drop_last().take(k) =~= rs.take(k));
        lemma_references_failure(t, rs.drop_last(), k);
    }
}

proof fn lemma_variants_step(t: Seq<(NominalIdentifier, Seq<char>)>, vs: Seq<CoreVariant>, i: int)
    requires
        0 <= i < vs.len(),
    ensures
        project_variants(t, vs.take(i + 1)) == match project_variants(t, vs.take(i)) {
            Err(e) => Err(e),
            Ok(acc) => match project_variant(t, vs[i]) {
                Err(e) => Err(e),
                Ok(v) => Ok(acc.push(v)),
            },
        },
{
    assert(vs.take(i + 1).drop_last() =~= vs.take(i));
    assert(vs.take(i + 1)[i] == vs[i]);
}

proof fn lemma_variants_failure(t: Seq<(NominalIdentifier, Seq<char>)>, vs: Seq<CoreVariant>, k: int)
    requires
        0 <= k <= vs.len(),
        project_variants(t, vs.take(k)) is Err,
    ensures
        project_variants(t, vs) == project_variants(t, vs.take(k)),
    decreases vs.len(),
{
    if k == vs.len() {
        assert(vs.take(k) =~= vs);
    } else {
        assert(vs.drop_last().take(k) =~= vs.take(k));
        lemma_variants_failure(t, vs.drop_last(), k);
    }
}

fn project_reference_exec(names: &NameTable, r: &CoreReference) -> (out: Result<TypeReference, SchemaError>)
    ensures
        reference_matches(out, project_reference(names@, *r)),
    decreases r, 1nat,
{
    match r {
        CoreReference::String => Ok(TypeReference::String),
        CoreReference::Integer => Ok(TypeReference::Integer),
        CoreReference::Boolean => Ok(TypeReference::Boolean),
        CoreReference::Path => Ok(TypeReference::Path),
        CoreReference::Bytes => Ok(TypeReference::Bytes),
        CoreReference::FixedBytes(w) => Ok(TypeReference::FixedBytes(*w)),
        CoreReference::Plain(id) => match projected_name_exec(names, id) {
            Ok(n) => Ok(TypeReference::Plain(n)),
            Err(e) => Err(e),
        },
        CoreReference::Vector(inner) => match project_reference_exec(names, inner) {
            Ok(v) => Ok(TypeReference::Vector(Box::new(v))),
            Err(e) => Err(e),
        },
        CoreReference::Optional(inner) => match project_reference_exec(names, inner) {
            Ok(v) => Ok(TypeReference::Optional(Box::new(v))),
            Err(e) => Err(e),
        },
        CoreReference::ScopeOf(inner) => match project_reference_exec(names, inner) {
            Ok(v) => Ok(TypeReference::ScopeOf(Box::new(v))),
            Err(e) => Err(e),
        },
        CoreReference::MapOf(key, value) => {
            let k = match project_reference_exec(names, key) {
                Ok(k) => k,
                Err(e) => { return Err(e); },
            };
            match project_reference_exec(names, value) {
                Ok(v) => Ok(TypeReference::MapOf(Box::new(k), Box::new(v))),
                Err(e) => Err(e),
            }
        },
        CoreReference::Application { head, arguments } => {
            let h = match project_head_exec(names, head) {
                Ok(h) => h,
                Err(e) => { return Err(e); },
            };
            proof {
                assert(decreases_to!(*r => *arguments));
            }
            match project_references_exec(names, arguments) {
                Ok(args) => Ok(TypeReference::Application { head: h, arguments: args }),
                Err(e) => Err(e),
            }
        },
    }
}

fn project_references_exec(names: &NameTable, rs: &Vec<CoreReference>) -> (out: Result<Vec<TypeReference>, SchemaError>)
    ensures
        references_match(out, project_references(names@, rs@)),
    decreases rs, 0nat,
{
    let mut acc: Vec<TypeReference> = Vec::new();
    proof {
        assert(rs@.take(0) =~= Seq::<CoreReference>::empty());
        assert(references_view(acc@) =~= Seq::<TypeRefView>::empty());
    }
    let mut i: usize = 0;
    while i < rs.len()
        invariant
            i <= rs@.len(),
            project_references(names@, rs@.take(i as int)) == Ok::<Seq<TypeRefView>, NominalIdentifier>(
                references_view(acc@),
            ),
        decreases rs@.len() - i,
    {
        proof {
            vstd::std_specs::vec::axiom_vec_index_decreases(*rs, i as int);
            lemma_references_step(names@, rs@, i as int);
        }
        match project_reference_exec(names, &rs[i]) {
            Ok(v) => {
                let ghost before = acc@;
                acc.push(v);
                proof {
                    crate::reference::lemma_references_view(acc@);
                    crate::reference::lemma_references_view(before);
                    assert(references_view(acc@) =~= references_view(before).push(v@));
                }
            },
            Err(e) => {
                proof {
                    lemma_references_failure(names@, rs@, i + 1);
                }
                return Err(e);
            },
        }
        i = i + 1;
    }
    proof {
        assert(rs@.take(i as int) =~= rs@);
    }
    Ok(acc)
}

fn project_head_exec(names: &NameTable, h: &CoreApplicationHead) -> (out: Result<ApplicationHead, SchemaError>)
    ensures
        head_matches(out, project_head(names@, *h)),
    decreases h, 0nat,
{
    match h {
        CoreApplicationHead::Local(id) => match projected_name_exec(names, id) {
            Ok(n) => Ok(ApplicationHead::Local(n)),
            Err(e) => Err(e),
        },
        CoreApplicationHead::Imported(import) => match project_resolved_exec(names, import) {
            Ok(resolved) => {
                let variants = crate::schema::copy_variants(resolved.variants());
                proof {
                    crate::reference::lemma_frame_variants_view(variants@);
                }
                Ok(
                    ApplicationHead::Imported(
                        ImportedHead {
                            local_name: resolved.local_name().clone(),
                            source: resolved.source().clone(),
                            parameter_count: resolved.parameter_count(),
                            parameters: crate::schema::copy_names(resolved.parameters()),
                            variants,
                        },
                    ),
                )
            },
            Err(e) => Err(e),
        },
    }
}

fn project_resolved_exec(names: &NameTable, i: &CoreResolvedImport) -> (out: Result<ResolvedImport, SchemaError>)
    ensures
        resolved_matches(out, project_resolved(names@, *i)),
    decreases i, 0nat,
{
    let local_name = match projected_name_exec(names, &i.identifier) {
        Ok(n) => n,
        Err(e) => { return Err(e); },
    };
    let parameters = match projected_names_exec(names, &i.parameters, true) {
        Ok(ps) => ps,
        Err(e) => { return Err(e); },
    };
    let variants = match project_variants_exec(names, &i.variants) {
        Ok(vs) => vs,
        Err(e) => { return Err(e); },
    };
    let parameter_count = match i.parameter_count {
        Some(c) => Some(c as usize),
        None => None,
    };
    Ok(ResolvedImport::new(local_name, i.source.clone(), parameter_count, parameters, variants))
}

fn project_variants_exec(names: &NameTable, vs: &Vec<CoreVariant>) -> (out: Result<Vec<EnumVariant>, SchemaError>)
    ensures
        variants_match(out, project_variants(names@, vs@)),
    decreases vs, 0nat,
{
    let mut acc: Vec<EnumVariant> = Vec::new();
    proof {
        assert(vs@.take(0) =~= Seq::<CoreVariant>::empty());
        assert(crate::schema::variants_view(acc@) =~= Seq::<VariantView>::empty());
    }
    let mut i: usize = 0;
    while i < vs.len()
        invariant
            i <= vs@.len(),
            project_variants(names@, vs@.take(i as int)) == Ok::<Seq<VariantView>, NominalIdentifier>(
                crate::schema::variants_view(acc@),
            ),
        decreases vs@.len() - i,
    {
        proof {
            vstd::std_specs::vec::axiom_vec_index_decreases(*vs, i as int);
            lemma_variants_step(names@, vs@, i as int);
        }
        match project_variant_exec(names, &vs[i]) {
            Ok(v) => {
                let ghost before = acc@;
                acc.push(v);
                assert(crate::schema::variants_view(acc@) =~= crate::schema::variants_view(before).push(v@));
            },
            Err(e) => {
                proof {
                    lemma_variants_failure(names@, vs@, i + 1);
                }
                return Err(e);
            },
        }
        i = i + 1;
    }
    proof {
        assert(vs@.take(i as int) =~= vs@);
    }
    Ok(acc)
}

fn project_variant_exec(names: &NameTable, v: &CoreVariant) -> (out: Result<EnumVariant, SchemaError>)
    ensures
        match project_variant(names@, *v) {
            Ok(x) => out is Ok && out->Ok_0@ == x,
            Err(id) => out is Err && reports_absent(out->Err_0, id),
        },
    decreases v, 0nat,
{
    let name = match projected_member_exec(names, &v.identifier) {
        Ok(n) => n,
        Err(e) => { return Err(e); },
    };
    let payload = match &v.payload {
        Some(p) => match project_reference_exec(names, p) {
            Ok(x) => Some(x),
            Err(e) => { return Err(e); },
        },
        None => None,
    };
    let stream_relation = match &v.stream_relation {
        None => None,
        Some(CoreStreamRelation::Opens(id)) => match projected_name_exec(names, id) {
            Ok(n) => Some(StreamRelation::Opens(n)),
            Err(e) => { return Err(e); },
        },
        Some(CoreStreamRelation::Belongs(id)) => match projected_name_exec(names, id) {
            Ok(n) => Some(StreamRelation::Belongs(n)),
            Err(e) => { return Err(e); },
        },
    };
    Ok(EnumVariant { name, payload, stream_relation })
}


/// The "absent row, derived name" rule: a field's name is its stored row,
/// else the name its projected type derives.
fn project_field_exec(names: &NameTable, f: &CoreField) -> (out: Result<FieldDeclaration, SchemaError>)
    ensures
        match project_field(names@, *f) {
            Ok(v) => out is Ok && out->Ok_0@ == v,
            Err(id) => out is Err && reports_absent(out->Err_0, id),
        },
{
    let reference = match project_reference_exec(names, &f.reference) {
        Ok(r) => r,
        Err(e) => { return Err(e); },
    };
    let name = match names.name_of(&f.identifier) {
        Some(stored) => stored.clone(),
        None => reference.derived_field_name(),
    };
    Ok(FieldDeclaration { name, reference })
}

fn project_path_exec(names: &NameTable, v: &CoreRelationValue) -> (out: Result<RelationValue, SchemaError>)
    ensures
        match projected_names(names@, v.segments@) {
            Ok(p) => out is Ok && names_view(out->Ok_0.spec_path()) == p,
            Err(id) => out is Err && reports_absent(out->Err_0, id),
        },
{
    match projected_names_exec(names, &v.segments, false) {
        Ok(path) => Ok(RelationValue::new(path)),
        Err(e) => Err(e),
    }
}

fn project_enum_exec(names: &NameTable, e: &CoreEnum) -> (out: Result<EnumDeclaration, SchemaError>)
    ensures
        match project_enum(names@, *e) {
            Ok(v) => out is Ok && out->Ok_0@ == v,
            Err(id) => out is Err && reports_absent(out->Err_0, id),
        },
{
    let name = match projected_name_exec(names, &e.identifier) {
        Ok(n) => n,
        Err(x) => { return Err(x); },
    };
    match project_variants_exec(names, &e.variants) {
        Ok(variants) => Ok(EnumDeclaration::new(name, variants)),
        Err(x) => Err(x),
    }
}

fn project_type_exec(names: &NameTable, v: &CoreType) -> (out: Result<TypeDeclaration, SchemaError>)
    ensures
        match project_type(names@, *v) {
            Ok(x) => out is Ok && type_view(out->Ok_0) == x,
            Err(id) => out is Err && reports_absent(out->Err_0, id),
        },
{
    match v {
        CoreType::Struct(s) => {
            let name = match projected_name_exec(names, &s.identifier) {
                Ok(n) => n,
                Err(e) => { return Err(e); },
            };
            match project_fields_exec(names, &s.fields) {
                Ok(fields) => {
                    let d = StructDeclaration::new(name, fields);
                    proof {
                        d.fields.lemma_view();
                    }
                    Ok(TypeDeclaration::Struct(d))
                },
                Err(e) => Err(e),
            }
        },
        CoreType::Enum(e) => match project_enum_exec(names, e) {
            Ok(d) => Ok(TypeDeclaration::Enum(d)),
            Err(x) => Err(x),
        },
        CoreType::Newtype(n) => {
            let name = match projected_name_exec(names, &n.identifier) {
                Ok(x) => x,
                Err(e) => { return Err(e); },
            };
            match project_reference_exec(names, &n.reference) {
                Ok(r) => Ok(TypeDeclaration::Newtype(NewtypeDeclaration::new(name, r))),
                Err(e) => Err(e),
            }
        },
    }
}

fn project_declaration_exec(names: &NameTable, d: &CoreDeclaration) -> (out: Result<Declaration, SchemaError>)
    ensures
        match project_declaration(names@, *d) {
            Ok(v) => out is Ok && declaration_view(out->Ok_0) == v,
            Err(id) => out is Err && reports_absent(out->Err_0, id),
        },
{
    let value = match project_type_exec(names, &d.value) {
        Ok(v) => v,
        Err(e) => { return Err(e); },
    };
    let declaration = match d.visibility {
        Visibility::Public => Declaration::public(value),
        Visibility::Private => Declaration::private(value),
    };
    match projected_names_exec(names, &d.parameters, true) {
        Ok(parameters) => Ok(declaration.with_parameters(parameters).with_impls(copy_catalog(&d.impls))),
        Err(e) => Err(e),
    }
}

fn project_root_exec(names: &NameTable, r: &CoreRoot) -> (out: Result<Root, SchemaError>)
    ensures
        match project_root(names@, *r) {
            Ok(v) => out is Ok && root_view(out->Ok_0) == v,
            Err(id) => out is Err && reports_absent(out->Err_0, id),
        },
{
    match r {
        CoreRoot::Enum(e) => match project_enum_exec(names, e) {
            Ok(d) => Ok(Root::Enum(d)),
            Err(x) => Err(x),
        },
        CoreRoot::Application(a) => {
            let name = match projected_name_exec(names, &a.identifier) {
                Ok(n) => n,
                Err(e) => { return Err(e); },
            };
            let head = match project_head_exec(names, &a.head) {
                Ok(h) => h,
                Err(e) => { return Err(e); },
            };
            match project_references_exec(names, &a.arguments) {
                Ok(arguments) => Ok(Root::application(RootApplication::new(name, head, arguments))),
                Err(e) => Err(e),
            }
        },
    }
}

fn project_stream_exec(names: &NameTable, s: &CoreStream) -> (out: Result<StreamDeclaration, SchemaError>)
    ensures
        match project_stream(names@, *s) {
            Ok(v) => out is Ok && stream_view(out->Ok_0) == v,
            Err(id) => out is Err && reports_absent(out->Err_0, id),
        },
{
    let name = match projected_name_exec(names, &s.identifier) {
        Ok(n) => n,
        Err(e) => { return Err(e); },
    };
    let token = match project_reference_exec(names, &s.token) {
        Ok(r) => r,
        Err(e) => { return Err(e); },
    };
    let opened = match project_reference_exec(names, &s.opened) {
        Ok(r) => r,
        Err(e) => { return Err(e); },
    };
    let event = match project_reference_exec(names, &s.event) {
        Ok(r) => r,
        Err(e) => { return Err(e); },
    };
    match project_reference_exec(names, &s.close) {
        Ok(close) => Ok(StreamDeclaration::new(name, token, opened, event, close)),
        Err(e) => Err(e),
    }
}

fn project_family_exec(names: &NameTable, f: &CoreFamily) -> (out: Result<FamilyDeclaration, SchemaError>)
    ensures
        match project_family(names@, *f) {
            Ok(v) => out is Ok && family_view(out->Ok_0) == v,
            Err(id) => out is Err && reports_absent(out->Err_0, id),
        },
{
    let name = match projected_name_exec(names, &f.identifier) {
        Ok(n) => n,
        Err(e) => { return Err(e); },
    };
    match projected_name_exec(names, &f.record) {
        Ok(record) => Ok(FamilyDeclaration::new(name, record, f.table.clone(), f.key)),
        Err(e) => Err(e),
    }
}

fn project_block_exec(names: &NameTable, b: &CoreImplBlock) -> (out: Result<ImplBlock, SchemaError>)
    ensures
        match project_block(names@, *b) {
            Ok(v) => out is Ok && block_view(out->Ok_0) == v,
            Err(id) => out is Err && reports_absent(out->Err_0, id),
        },
{
    match projected_name_exec(names, &b.target) {
        Ok(target) => Ok(ImplBlock::new(target, copy_catalog(&b.catalog))),
        Err(e) => Err(e),
    }
}

fn project_relation_exec(names: &NameTable, r: &CoreRelationDeclaration) -> (out: Result<RelationDeclaration, SchemaError>)
    ensures
        match project_relation_declaration(names@, *r) {
            Ok(v) => out is Ok && relation_view(out->Ok_0) == v,
            Err(id) => out is Err && reports_absent(out->Err_0, id),
        },
{
    match r {
        CoreRelationDeclaration::Equivalence(values) => match project_paths_exec(names, values) {
            Ok(paths) => Ok(RelationDeclaration::Equivalence(paths)),
            Err(e) => Err(e),
        },
    }
}

fn project_fields_exec(names: &NameTable, xs: &Vec<CoreField>) -> (out: Result<Vec<FieldDeclaration>, SchemaError>)
    ensures
        match project_all(names@, xs@, field_projector(names@)) {
            Ok(v) => out is Ok && fields_view(out->Ok_0@) == v,
            Err(id) => out is Err && reports_absent(out->Err_0, id),
        },
{
    let mut acc: Vec<FieldDeclaration> = Vec::new();
    proof {
        assert(xs@.take(0) =~= Seq::<CoreField>::empty());
        assert(fields_view(acc@) =~= Seq::<(Seq<char>, TypeRefView)>::empty());
    }
    let mut i: usize = 0;
    while i < xs.len()
        invariant
            i <= xs@.len(),
            project_all(names@, xs@.take(i as int), field_projector(names@)) == Ok::<Seq<(Seq<char>, TypeRefView)>, NominalIdentifier>(fields_view(acc@)),
        decreases xs@.len() - i,
    {
        proof {
            lemma_project_all_step(names@, xs@, field_projector(names@), i as int);
        }
        match project_field_exec(names, &xs[i]) {
            Ok(y) => {
                let ghost before = acc@;
                acc.push(y);
                assert(fields_view(acc@) =~= fields_view(before).push(y@));
            },
            Err(e) => {
                proof {
                    lemma_project_all_failure(names@, xs@, field_projector(names@), i + 1);
                }
                return Err(e);
            },
        }
        i = i + 1;
    }
    proof {
        assert(xs@.take(i as int) =~= xs@);
    }
    Ok(acc)
}

fn project_paths_exec(names: &NameTable, xs: &Vec<CoreRelationValue>) -> (out: Result<Vec<RelationValue>, SchemaError>)
    ensures
        match project_all(names@, xs@, path_projector(names@)) {
            Ok(v) => out is Ok && out->Ok_0@.map_values(|r: RelationValue| names_view(r.spec_path())) == v,
            Err(id) => out is Err && reports_absent(out->Err_0, id),
        },
{
    let mut acc: Vec<RelationValue> = Vec::new();
    proof {
        assert(xs@.take(0) =~= Seq::<CoreRelationValue>::empty());
        assert(acc@.map_values(|r: RelationValue| names_view(r.spec_path())) =~= Seq::<Seq<Seq<char>>>::empty());
    }
    let mut i: usize = 0;
    while i < xs.len()
        invariant
            i <= xs@.len(),
            project_all(names@, xs@.take(i as int), path_projector(names@)) == Ok::<Seq<Seq<Seq<char>>>, NominalIdentifier>(acc@.map_values(|r: RelationValue| names_view(r.spec_path()))),
        decreases xs@.len() - i,
    {
        proof {
            lemma_project_all_step(names@, xs@, path_projector(names@), i as int);
        }
        match project_path_exec(names, &xs[i]) {
            Ok(y) => {
                let ghost before = acc@;
                acc.push(y);
                assert(acc@.map_values(|r: RelationValue| names_view(r.spec_path())) =~= before.map_values(|r: RelationValue| names_view(r.spec_path())).push(names_view(y.spec_path())));
            },
            Err(e) => {
                proof {
                    lemma_project_all_failure(names@, xs@, path_projector(names@), i + 1);
                }
                return Err(e);
            },
        }
        i = i + 1;
    }
    proof {
        assert(xs@.take(i as int) =~= xs@);
    }
    Ok(acc)
}

fn project_resolved_all_exec(names: &NameTable, xs: &Vec<CoreResolvedImport>) -> (out: Result<Vec<ResolvedImport>, SchemaError>)
    ensures
        match project_all(names@, xs@, resolved_projector(names@)) {
            Ok(v) => out is Ok && out->Ok_0@.map_values(|r: ResolvedImport| resolved_view(r)) == v,
            Err(id) => out is Err && reports_absent(out->Err_0, id),
        },
{
    let mut acc: Vec<ResolvedImport> = Vec::new();
    proof {
        assert(xs@.take(0) =~= Seq::<CoreResolvedImport>::empty());
        assert(acc@.map_values(|r: ResolvedImport| resolved_view(r)) =~= Seq::<ResolvedView>::empty());
    }
    let mut i: usize = 0;
    while i < xs.len()
        invariant
            i <= xs@.len(),
            project_all(names@, xs@.take(i as int), resolved_projector(names@)) == Ok::<Seq<ResolvedView>, NominalIdentifier>(acc@.map_values(|r: ResolvedImport| resolved_view(r))),
        decreases xs@.len() - i,
    {
        proof {
            lemma_project_all_step(names@, xs@, resolved_projector(names@), i as int);
        }
        match project_resolved_exec(names, &xs[i]) {
            Ok(y) => {
                let ghost before = acc@;
                acc.push(y);
                assert(acc@.map_values(|r: ResolvedImport| resolved_view(r)) =~= before.map_values(|r: ResolvedImport| resolved_view(r)).push(resolved_view(y)));
            },
            Err(e) => {
                proof {
                    lemma_project_all_failure(names@, xs@, resolved_projector(names@), i + 1);
                }
                return Err(e);
            },
        }
        i = i + 1;
    }
    proof {
        assert(xs@.take(i as int) =~= xs@);
    }
    Ok(acc)
}

fn project_declarations_exec(names: &NameTable, xs: &Vec<CoreDeclaration>) -> (out: Result<Vec<Declaration>, SchemaError>)
    ensures
        match project_all(names@, xs@, declaration_projector(names@)) {
            Ok(v) => out is Ok && out->Ok_0@.map_values(|d: Declaration| declaration_view(d)) == v,
            Err(id) => out is Err && reports_absent(out->Err_0, id),
        },
{
    let mut acc: Vec<Declaration> = Vec::new();
    proof {
        assert(xs@.take(0) =~= Seq::<CoreDeclaration>::empty());
        assert(acc@.map_values(|d: Declaration| declaration_view(d)) =~= Seq::<DeclarationView>::empty());
    }
    let mut i: usize = 0;
    while i < xs.len()
        invariant
            i <= xs@.len(),
            project_all(names@, xs@.take(i as int), declaration_projector(names@)) == Ok::<Seq<DeclarationView>, NominalIdentifier>(acc@.map_values(|d: Declaration| declaration_view(d))),
        decreases xs@.len() - i,
    {
        proof {
            lemma_project_all_step(names@, xs@, declaration_projector(names@), i as int);
        }
        match project_declaration_exec(names, &xs[i]) {
            Ok(y) => {
                let ghost before = acc@;
                acc.push(y);
                assert(acc@.map_values(|d: Declaration| declaration_view(d)) =~= before.map_values(|d: Declaration| declaration_view(d)).push(declaration_view(y)));
            },
            Err(e) => {
                proof {
                    lemma_project_all_failure(names@, xs@, declaration_projector(names@), i + 1);
                }
                return Err(e);
            },
        }
        i = i + 1;
    }
    proof {
        assert(xs@.take(i as int) =~= xs@);
    }
    Ok(acc)
}

fn project_streams_exec(names: &NameTable, xs: &Vec<CoreStream>) -> (out: Result<Vec<StreamDeclaration>, SchemaError>)
    ensures
        match project_all(names@, xs@, stream_projector(names@)) {
            Ok(v) => out is Ok && out->Ok_0@.map_values(|x: StreamDeclaration| stream_view(x)) == v,
            Err(id) => out is Err && reports_absent(out->Err_0, id),
        },
{
    let mut acc: Vec<StreamDeclaration> = Vec::new();
    proof {
        assert(xs@.take(0) =~= Seq::<CoreStream>::empty());
        assert(acc@.map_values(|x: StreamDeclaration| stream_view(x)) =~= Seq::<StreamView>::empty());
    }
    let mut i: usize = 0;
    while i < xs.len()
        invariant
            i <= xs@.len(),
            project_all(names@, xs@.take(i as int), stream_projector(names@)) == Ok::<Seq<StreamView>, NominalIdentifier>(acc@.map_values(|x: StreamDeclaration| stream_view(x))),
        decreases xs@.len() - i,
    {
        proof {
            lemma_project_all_step(names@, xs@, stream_projector(names@), i as int);
        }
        match project_stream_exec(names, &xs[i]) {
            Ok(y) => {
                let ghost before = acc@;
                acc.push(y);
                assert(acc@.map_values(|x: StreamDeclaration| stream_view(x)) =~= before.map_values(|x: StreamDeclaration| stream_view(x)).push(stream_view(y)));
            },
            Err(e) => {
                proof {
                    lemma_project_all_failure(names@, xs@, stream_projector(names@), i + 1);
                }
                return Err(e);
            },
        }
        i = i + 1;
    }
    proof {
        assert(xs@.take(i as int) =~= xs@);
    }
    Ok(acc)
}

fn project_families_exec(names: &NameTable, xs: &Vec<CoreFamily>) -> (out: Result<Vec<FamilyDeclaration>, SchemaError>)
    ensures
        match project_all(names@, xs@, family_projector(names@)) {
            Ok(v) => out is Ok && out->Ok_0@.map_values(|f: FamilyDeclaration| family_view(f)) == v,
            Err(id) => out is Err && reports_absent(out->Err_0, id),
        },
{
    let mut acc: Vec<FamilyDeclaration> = Vec::new();
    proof {
        assert(xs@.take(0) =~= Seq::<CoreFamily>::empty());
        assert(acc@.map_values(|f: FamilyDeclaration| family_view(f)) =~= Seq::<FamilyView>::empty());
    }
    let mut i: usize = 0;
    while i < xs.len()
        invariant
            i <= xs@.len(),
            project_all(names@, xs@.take(i as int), family_projector(names@)) == Ok::<Seq<FamilyView>, NominalIdentifier>(acc@.map_values(|f: FamilyDeclaration| family_view(f))),
        decreases xs@.len() - i,
    {
        proof {
            lemma_project_all_step(names@, xs@, family_projector(names@), i as int);
        }
        match project_family_exec(names, &xs[i]) {
            Ok(y) => {
                let ghost before = acc@;
                acc.push(y);
                assert(acc@.map_values(|f: FamilyDeclaration| family_view(f)) =~= before.map_values(|f: FamilyDeclaration| family_view(f)).push(family_view(y)));
            },
            Err(e) => {
                proof {
                    lemma_project_all_failure(names@, xs@, family_projector(names@), i + 1);
                }
                return Err(e);
            },
        }
        i = i + 1;
    }
    proof {
        assert(xs@.take(i as int) =~= xs@);
    }
    Ok(acc)
}

fn project_relations_exec(names: &NameTable, xs: &Vec<CoreRelationDeclaration>) -> (out: Result<Vec<RelationDeclaration>, SchemaError>)
    ensures
        match project_all(names@, xs@, relation_projector(names@)) {
            Ok(v) => out is Ok && out->Ok_0@.map_values(|r: RelationDeclaration| relation_view(r)) == v,
            Err(id) => out is Err && reports_absent(out->Err_0, id),
        },
{
    let mut acc: Vec<RelationDeclaration> = Vec::new();
    proof {
        assert(xs@.take(0) =~= Seq::<CoreRelationDeclaration>::empty());
        assert(acc@.map_values(|r: RelationDeclaration| relation_view(r)) =~= Seq::<Seq<Seq<Seq<char>>>>::empty());
    }
    let mut i: usize = 0;
    while i < xs.len()
        invariant
            i <= xs@.len(),
            project_all(names@, xs@.take(i as int), relation_projector(names@)) == Ok::<Seq<Seq<Seq<Seq<char>>>>, NominalIdentifier>(acc@.map_values(|r: RelationDeclaration| relation_view(r))),
        decreases xs@.len() - i,
    {
        proof {
            lemma_project_all_step(names@, xs@, relation_projector(names@), i as int);
        }
        match project_relation_exec(names, &xs[i]) {
            Ok(y) => {
                let ghost before = acc@;
                acc.push(y);
                assert(acc@.map_values(|r: RelationDeclaration| relation_view(r)) =~= before.map_values(|r: RelationDeclaration| relation_view(r)).push(relation_view(y)));
            },
            Err(e) => {
                proof {
                    lemma_project_all_failure(names@, xs@, relation_projector(names@), i + 1);
                }
                return Err(e);
            },
        }
        i = i + 1;
    }
    proof {
        assert(xs@.take(i as int) =~= xs@);
    }
    Ok(acc)
}

fn project_blocks_exec(names: &NameTable, xs: &Vec<CoreImplBlock>) -> (out: Result<Vec<ImplBlock>, SchemaError>)
    ensures
        match project_all(names@, xs@, block_projector(names@)) {
            Ok(v) => out is Ok && out->Ok_0@.map_values(|b: ImplBlock| block_view(b)) == v,
            Err(id) => out is Err && reports_absent(out->Err_0, id),
        },
{
    let mut acc: Vec<ImplBlock> = Vec::new();
    proof {
        assert(xs@.take(0) =~= Seq::<CoreImplBlock>::empty());
        assert(acc@.map_values(|b: ImplBlock| block_view(b)) =~= Seq::<(Seq<char>, Seq<ImplRefView>)>::empty());
    }
    let mut i: usize = 0;
    while i < xs.len()
        invariant
            i <= xs@.len(),
            project_all(names@, xs@.take(i as int), block_projector(names@)) == Ok::<Seq<(Seq<char>, Seq<ImplRefView>)>, NominalIdentifier>(acc@.map_values(|b: ImplBlock| block_view(b))),
        decreases xs@.len() - i,
    {
        proof {
            lemma_project_all_step(names@, xs@, block_projector(names@), i as int);
        }
        match project_block_exec(names, &xs[i]) {
            Ok(y) => {
                let ghost before = acc@;
                acc.push(y);
                assert(acc@.map_values(|b: ImplBlock| block_view(b)) =~= before.map_values(|b: ImplBlock| block_view(b)).push(block_view(y)));
            },
            Err(e) => {
                proof {
                    lemma_project_all_failure(names@, xs@, block_projector(names@), i + 1);
                }
                return Err(e);
            },
        }
        i = i + 1;
    }
    proof {
        assert(xs@.take(i as int) =~= xs@);
    }
    Ok(acc)
}


/// The identifier a declared type carries.
pub open spec fn core_type_identifier(v: CoreType) -> NominalIdentifier {
    match v {
        CoreType::Struct(s) => s.identifier,
        CoreType::Enum(e) => e.identifier,
        CoreType::Newtype(n) => n.identifier,
    }
}

impl CoreDeclaration {
    /// The declaration's identifier: the one its value carries.
    pub fn identifier(&self) -> (r: NominalIdentifier)
        ensures
            r == core_type_identifier(self.value),
    {
        match &self.value {
            CoreType::Struct(s) => s.identifier,
            CoreType::Enum(e) => e.identifier,
            CoreType::Newtype(n) => n.identifier,
        }
    }
}

pub(crate) fn copy_imports(imports: &[ImportDeclaration]) -> (out: Vec<ImportDeclaration>)
    ensures
        out@.map_values(|i: ImportDeclaration| (i.local_name@, i.source@)) == imports@.map_values(
            |i: ImportDeclaration| (i.local_name@, i.source@),
        ),
{
    let mut out: Vec<ImportDeclaration> = Vec::new();
    let mut i: usize = 0;
    while i < imports.len()
        invariant
            i <= imports@.len(),
            out@.len() == i,
            forall|k: int| 0 <= k < i ==> (#[trigger] out@[k]).local_name@ == imports@[k].local_name@
                && out@[k].source@ == imports@[k].source@,
        decreases imports@.len() - i,
    {
        out.push(
            ImportDeclaration {
                local_name: imports[i].local_name.clone(),
                source: copy_reference(&imports[i].source),
            },
        );
        i = i + 1;
    }
    assert(out@.map_values(|i: ImportDeclaration| (i.local_name@, i.source@)) =~= imports@.map_values(
        |i: ImportDeclaration| (i.local_name@, i.source@),
    ));
    out
}

impl CoreSchema {
    /// The named schema this substrate stands for under a name table: every
    /// identifier the substrate carries is looked up, and the first one the
    /// table does not name is the error.
    pub fn project(&self, names: &NameTable, identity: SchemaIdentity) -> (r: Result<TrueSchema, SchemaError>)
        ensures
            match project_schema(names@, *self, identity) {
                Ok(v) => r is Ok && schema_view(r->Ok_0) == v,
                Err(id) => r is Err && reports_absent(r->Err_0, id),
            },
    {
        let resolved_imports = match project_resolved_all_exec(names, &self.resolved_imports) {
            Ok(x) => x,
            Err(e) => { return Err(e); },
        };
        let input = match project_root_exec(names, &self.input) {
            Ok(x) => x,
            Err(e) => { return Err(e); },
        };
        let output = match project_root_exec(names, &self.output) {
            Ok(x) => x,
            Err(e) => { return Err(e); },
        };
        let namespace = match project_declarations_exec(names, &self.namespace) {
            Ok(x) => x,
            Err(e) => { return Err(e); },
        };
        let streams = match project_streams_exec(names, &self.streams) {
            Ok(x) => x,
            Err(e) => { return Err(e); },
        };
        let families = match project_families_exec(names, &self.families) {
            Ok(x) => x,
            Err(e) => { return Err(e); },
        };
        let relations = match project_relations_exec(names, &self.relations) {
            Ok(x) => x,
            Err(e) => { return Err(e); },
        };
        let impl_blocks = match project_blocks_exec(names, &self.impl_blocks) {
            Ok(x) => x,
            Err(e) => { return Err(e); },
        };
        let schema = TrueSchema::new(
            identity,
            copy_imports(self.imports.as_slice()),
            resolved_imports,
            Vec::new(),
            input,
            output,
            namespace,
            streams,
            families,
            relations,
        ).with_impl_blocks(impl_blocks);
        proof {
            let v = schema_view(schema);
            assert(v.generics =~= Seq::<(Seq<char>, crate::views::BuiltinView)>::empty());
        }
        Ok(schema)
    }

    /// The substrate's declarations, in order.
    pub fn namespace(&self) -> (r: &[CoreDeclaration])
        ensures
            r@ == self.namespace@,
    {
        self.namespace.as_slice()
    }
}


// ---------------------------------------------------------------- laws
/// Two tables name every identifier alike.
pub open spec fn names_alike(t1: Seq<(NominalIdentifier, Seq<char>)>, t2: Seq<(NominalIdentifier, Seq<char>)>) -> bool {
    forall|id: NominalIdentifier| #[trigger] projected_name(t1, id) == projected_name(t2, id)
}

proof fn lemma_names_alike_seq(t1: Seq<(NominalIdentifier, Seq<char>)>, t2: Seq<(NominalIdentifier, Seq<char>)>, ids: Seq<NominalIdentifier>)
    requires
        names_alike(t1, t2),
    ensures
        projected_names(t1, ids) == projected_names(t2, ids),
        projected_members(t1, ids) == projected_members(t2, ids),
    decreases ids.len(),
{
    if ids.len() > 0 {
        lemma_names_alike_seq(t1, t2, ids.drop_last());
        assert(projected_name(t1, ids.last()) == projected_name(t2, ids.last()));
    }
}

proof fn lemma_project_all_alike<A, B>(
    t1: Seq<(NominalIdentifier, Seq<char>)>,
    t2: Seq<(NominalIdentifier, Seq<char>)>,
    xs: Seq<A>,
    f: spec_fn(A) -> Projected<B>,
    g: spec_fn(A) -> Projected<B>,
)
    requires
        forall|i: int| 0 <= i < xs.len() ==> f(#[trigger] xs[i]) == g(xs[i]),
    ensures
        project_all(t1, xs, f) == project_all(t2, xs, g),
    decreases xs.len(),
{
    if xs.len() > 0 {
        let init = xs.drop_last();
        assert forall|i: int| 0 <= i < init.len() implies f(#[trigger] init[i]) == g(init[i]) by {
            assert(init[i] == xs[i]);
        }
        lemma_project_all_alike(t1, t2, init, f, g);
        assert(f(xs[xs.len() - 1]) == g(xs[xs.len() - 1]));
    }
}

proof fn lemma_reference_alike(t1: Seq<(NominalIdentifier, Seq<char>)>, t2: Seq<(NominalIdentifier, Seq<char>)>, r: CoreReference)
    requires
        names_alike(t1, t2),
    ensures
        project_reference(t1, r) == project_reference(t2, r),
    decreases r, 1nat,
{
    match r {
        CoreReference::Plain(id) => {
            assert(projected_name(t1, id) == projected_name(t2, id));
        },
        CoreReference::Vector(inner) => lemma_reference_alike(t1, t2, *inner),
        CoreReference::Optional(inner) => lemma_reference_alike(t1, t2, *inner),
        CoreReference::ScopeOf(inner) => lemma_reference_alike(t1, t2, *inner),
        CoreReference::MapOf(key, value) => {
            lemma_reference_alike(t1, t2, *key);
            lemma_reference_alike(t1, t2, *value);
        },
        CoreReference::Application { head, arguments } => {
            lemma_head_alike(t1, t2, head);
            lemma_references_alike(t1, t2, arguments@);
        },
        _ => {},
    }
}

proof fn lemma_references_alike(t1: Seq<(NominalIdentifier, Seq<char>)>, t2: Seq<(NominalIdentifier, Seq<char>)>, rs: Seq<CoreReference>)
    requires
        names_alike(t1, t2),
    ensures
        project_references(t1, rs) == project_references(t2, rs),
    decreases rs, 0nat,
{
    if rs.len() > 0 {
        lemma_references_alike(t1, t2, rs.drop_last());
        lemma_reference_alike(t1, t2, rs[rs.len() - 1]);
    }
}

proof fn lemma_head_alike(t1: Seq<(NominalIdentifier, Seq<char>)>, t2: Seq<(NominalIdentifier, Seq<char>)>, h: CoreApplicationHead)
    requires
        names_alike(t1, t2),
    ensures
        project_head(t1, h) == project_head(t2, h),
    decreases h, 0nat,
{
    match h {
        CoreApplicationHead::Local(id) => {
            assert(projected_name(t1, id) == projected_name(t2, id));
        },
        CoreApplicationHead::Imported(import) => lemma_resolved_alike(t1, t2, import),
    }
}

proof fn lemma_resolved_alike(t1: Seq<(NominalIdentifier, Seq<char>)>, t2: Seq<(NominalIdentifier, Seq<char>)>, i: CoreResolvedImport)
    requires
        names_alike(t1, t2),
    ensures
        project_resolved(t1, i) == project_resolved(t2, i),
    decreases i, 0nat,
{
    assert(projected_name(t1, i.identifier) == projected_name(t2, i.identifier));
    lemma_names_alike_seq(t1, t2, i.parameters@);
    lemma_variants_alike(t1, t2, i.variants@);
}

proof fn lemma_variants_alike(t1: Seq<(NominalIdentifier, Seq<char>)>, t2: Seq<(NominalIdentifier, Seq<char>)>, vs: Seq<CoreVariant>)
    requires
        names_alike(t1, t2),
    ensures
        project_variants(t1, vs) == project_variants(t2, vs),
    decreases vs, 0nat,
{
    if vs.len() > 0 {
        lemma_variants_alike(t1, t2, vs.drop_last());
        lemma_variant_alike(t1, t2, vs[vs.len() - 1]);
    }
}

proof fn lemma_variant_alike(t1: Seq<(NominalIdentifier, Seq<char>)>, t2: Seq<(NominalIdentifier, Seq<char>)>, v: CoreVariant)
    requires
        names_alike(t1, t2),
    ensures
        project_variant(t1, v) == project_variant(t2, v),
    decreases v, 0nat,
{
    assert(projected_name(t1, v.identifier) == projected_name(t2, v.identifier));
    if let Some(p) = v.payload {
        lemma_reference_alike(t1, t2, p);
    }
    match v.stream_relation {
        Some(CoreStreamRelation::Opens(id)) => {
            assert(projected_name(t1, id) == projected_name(t2, id));
        },
        Some(CoreStreamRelation::Belongs(id)) => {
            assert(projected_name(t1, id) == projected_name(t2, id));
        },
        None => {},
    }
}

proof fn lemma_enum_alike(t1: Seq<(NominalIdentifier, Seq<char>)>, t2: Seq<(NominalIdentifier, Seq<char>)>, e: CoreEnum)
    requires
        names_alike(t1, t2),
    ensures
        project_enum(t1, e) == project_enum(t2, e),
{
    assert(projected_name(t1, e.identifier) == projected_name(t2, e.identifier));
    lemma_variants_alike(t1, t2, e.variants@);
}

proof fn lemma_type_alike(t1: Seq<(NominalIdentifier, Seq<char>)>, t2: Seq<(NominalIdentifier, Seq<char>)>, v: CoreType)
    requires
        names_alike(t1, t2),
    ensures
        project_type(t1, v) == project_type(t2, v),
{
    match v {
        CoreType::Struct(s) => {
            assert(projected_name(t1, s.identifier) == projected_name(t2, s.identifier));
            assert forall|i: int| 0 <= i < s.fields@.len() implies field_projector(t1)(#[trigger] s.fields@[i])
                == field_projector(t2)(s.fields@[i]) by {
                let f = s.fields@[i];
                lemma_reference_alike(t1, t2, f.reference);
                assert(projected_name(t1, f.identifier) == projected_name(t2, f.identifier));
            }
            lemma_project_all_alike(t1, t2, s.fields@, field_projector(t1), field_projector(t2));
        },
        CoreType::Enum(e) => lemma_enum_alike(t1, t2, e),
        CoreType::Newtype(n) => {
            assert(projected_name(t1, n.identifier) == projected_name(t2, n.identifier));
            lemma_reference_alike(t1, t2, n.reference);
        },
    }
}

proof fn lemma_root_alike(t1: Seq<(NominalIdentifier, Seq<char>)>, t2: Seq<(NominalIdentifier, Seq<char>)>, r: CoreRoot)
    requires
        names_alike(t1, t2),
    ensures
        project_root(t1, r) == project_root(t2, r),
{
    match r {
        CoreRoot::Enum(e) => lemma_enum_alike(t1, t2, e),
        CoreRoot::Application(a) => {
            assert(projected_name(t1, a.identifier) == projected_name(t2, a.identifier));
            lemma_head_alike(t1, t2, a.head);
            lemma_references_alike(t1, t2, a.arguments@);
        },
    }
}

/// Projection reads a table only through the names it gives identifiers:
/// two tables that name every identifier alike project every substrate to
/// the same schema, or fail at the same identifier.
pub proof fn lemma_projection_reads_names_only(
    t1: Seq<(NominalIdentifier, Seq<char>)>,
    t2: Seq<(NominalIdentifier, Seq<char>)>,
    c: CoreSchema,
    identity: SchemaIdentity,
)
    requires
        names_alike(t1, t2),
    ensures
        project_schema(t1, c, identity) == project_schema(t2, c, identity),
{
    assert forall|i: int| 0 <= i < c.resolved_imports@.len() implies resolved_projector(t1)(
        #[trigger] c.resolved_imports@[i],
    ) == resolved_projector(t2)(c.resolved_imports@[i]) by {
        lemma_resolved_alike(t1, t2, c.resolved_imports@[i]);
    }
    lemma_project_all_alike(t1, t2, c.resolved_imports@, resolved_projector(t1), resolved_projector(t2));
    lemma_root_alike(t1, t2, c.input);
    lemma_root_alike(t1, t2, c.output);
    assert forall|i: int| 0 <= i < c.namespace@.len() implies declaration_projector(t1)(
        #[trigger] c.namespace@[i],
    ) == declaration_projector(t2)(c.namespace@[i]) by {
        lemma_type_alike(t1, t2, c.namespace@[i].value);
        lemma_names_alike_seq(t1, t2, c.namespace@[i].parameters@);
    }
    lemma_project_all_alike(t1, t2, c.namespace@, declaration_projector(t1), declaration_projector(t2));
    assert forall|i: int| 0 <= i < c.streams@.len() implies stream_projector(t1)(#[trigger] c.streams@[i])
        == stream_projector(t2)(c.streams@[i]) by {
        let s = c.streams@[i];
        assert(projected_name(t1, s.identifier) == projected_name(t2, s.identifier));
        lemma_reference_alike(t1, t2, s.token);
        lemma_reference_alike(t1, t2, s.opened);
        lemma_reference_alike(t1, t2, s.event);
        lemma_reference_alike(t1, t2, s.close);
    }
    lemma_project_all_alike(t1, t2, c.streams@, stream_projector(t1), stream_projector(t2));
    assert forall|i: int| 0 <= i < c.families@.len() implies family_projector(t1)(#[trigger] c.families@[i])
        == family_projector(t2)(c.families@[i]) by {
        let f = c.families@[i];
        assert(projected_name(t1, f.identifier) == projected_name(t2, f.identifier));
        assert(projected_name(t1, f.record) == projected_name(t2, f.record));
    }
    lemma_project_all_alike(t1, t2, c.families@, family_projector(t1), family_projector(t2));
    assert forall|i: int| 0 <= i < c.relations@.len() implies relation_projector(t1)(
        #[trigger] c.relations@[i],
    ) == relation_projector(t2)(c.relations@[i]) by {
        match c.relations@[i] {
            CoreRelationDeclaration::Equivalence(values) => {
                assert forall|j: int| 0 <= j < values@.len() implies path_projector(t1)(#[trigger] values@[j])
                    == path_projector(t2)(values@[j]) by {
                    lemma_names_alike_seq(t1, t2, values@[j].segments@);
                }
                lemma_project_all_alike(t1, t2, values@, path_projector(t1), path_projector(t2));
            },
        }
    }
    lemma_project_all_alike(t1, t2, c.relations@, relation_projector(t1), relation_projector(t2));
    assert forall|i: int| 0 <= i < c.impl_blocks@.len() implies block_projector(t1)(#[trigger] c.impl_blocks@[i])
        == block_projector(t2)(c.impl_blocks@[i]) by {
        assert(projected_name(t1, c.impl_blocks@[i].target) == projected_name(t2, c.impl_blocks@[i].target));
    }
    lemma_project_all_alike(t1, t2, c.impl_blocks@, block_projector(t1), block_projector(t2));
}

/// A rename through the table names the renamed identifier anew and leaves
/// every other identifier's name as it was, so a projection after the
/// rename differs only where the renamed declaration is used.
pub proof fn lemma_rename_moves_one_name(
    t: Seq<(NominalIdentifier, Seq<char>)>,
    id: NominalIdentifier,
    name: Seq<char>,
    other: NominalIdentifier,
)
    requires
        first_match(t, holds_identifier(id)) is Some,
    ensures
        ({
            let u = t.update(first_match(t, holds_identifier(id)).unwrap(), (id, name));
            &&& projected_name(u, id) == Ok::<Seq<char>, NominalIdentifier>(name)
            &&& other != id ==> projected_name(u, other) == projected_name(t, other)
        }),
{
    crate::identifier::lemma_rename_keeps_identifiers(t, id, name);
    crate::lookup::lemma_first_match(t, holds_identifier(id));
    let k = first_match(t, holds_identifier(id)).unwrap();
    let u = t.update(k, (id, name));
    if other != id {
        let p = holds_identifier(other);
        crate::lookup::lemma_first_match(t, p);
        crate::lookup::lemma_first_match(u, p);
        assert forall|j: int| 0 <= j < t.len() implies p(#[trigger] u[j]) == p(t[j]) by {
            assert(u[j].0 == t[j].0);
        }
        match first_match(t, p) {
            Some(m) => {
                assert(p(t[m]));
                assert(m != k);
                assert(u[m] == t[m]);
                crate::lookup::lemma_first_match_at(u, p, m);
            },
            None => {
                crate::lookup::lemma_first_match_none(u, p);
            },
        }
    }
}


/// A failed projection step blames an identifier the table does not name.
pub open spec fn blames_absent<T>(t: Seq<(NominalIdentifier, Seq<char>)>, o: Projected<T>) -> bool {
    o matches Err(id) ==> projected_name(t, id) is Err
}

proof fn lemma_names_blame(t: Seq<(NominalIdentifier, Seq<char>)>, ids: Seq<NominalIdentifier>)
    ensures
        blames_absent(t, projected_names(t, ids)),
        blames_absent(t, projected_members(t, ids)),
    decreases ids.len(),
{
    if ids.len() > 0 {
        lemma_names_blame(t, ids.drop_last());
    }
}

proof fn lemma_all_blame<A, B>(t: Seq<(NominalIdentifier, Seq<char>)>, xs: Seq<A>, f: spec_fn(A) -> Projected<B>)
    requires
        forall|i: int| 0 <= i < xs.len() ==> blames_absent(t, f(#[trigger] xs[i])),
    ensures
        blames_absent(t, project_all(t, xs, f)),
    decreases xs.len(),
{
    if xs.len() > 0 {
        let init = xs.drop_last();
        assert forall|i: int| 0 <= i < init.len() implies blames_absent(t, f(#[trigger] init[i])) by {
            assert(init[i] == xs[i]);
        }
        lemma_all_blame(t, init, f);
        assert(blames_absent(t, f(xs[xs.len() - 1])));
    }
}

proof fn lemma_reference_blame(t: Seq<(NominalIdentifier, Seq<char>)>, r: CoreReference)
    ensures
        blames_absent(t, project_reference(t, r)),
    decreases r, 1nat,
{
    match r {
        CoreReference::Vector(inner) => lemma_reference_blame(t, *inner),
        CoreReference::Optional(inner) => lemma_reference_blame(t, *inner),
        CoreReference::ScopeOf(inner) => lemma_reference_blame(t, *inner),
        CoreReference::MapOf(key, value) => {
            lemma_reference_blame(t, *key);
            lemma_reference_blame(t, *value);
        },
        CoreReference::Application { head, arguments } => {
            lemma_head_blame(t, head);
            lemma_references_blame(t, arguments@);
        },
        _ => {},
    }
}

proof fn lemma_references_blame(t: Seq<(NominalIdentifier, Seq<char>)>, rs: Seq<CoreReference>)
    ensures
        blames_absent(t, project_references(t, rs)),
    decreases rs, 0nat,
{
    if rs.len() > 0 {
        lemma_references_blame(t, rs.drop_last());
        lemma_reference_blame(t, rs[rs.len() - 1]);
    }
}

proof fn lemma_head_blame(t: Seq<(NominalIdentifier, Seq<char>)>, h: CoreApplicationHead)
    ensures
        blames_absent(t, project_head(t, h)),
    decreases h, 0nat,
{
    if let CoreApplicationHead::Imported(import) = h {
        lemma_resolved_blame(t, import);
    }
}

proof fn lemma_resolved_blame(t: Seq<(NominalIdentifier, Seq<char>)>, i: CoreResolvedImport)
    ensures
        blames_absent(t, project_resolved(t, i)),
    decreases i, 0nat,
{
    lemma_names_blame(t, i.parameters@);
    lemma_variants_blame(t, i.variants@);
}

proof fn lemma_variants_blame(t: Seq<(NominalIdentifier, Seq<char>)>, vs: Seq<CoreVariant>)
    ensures
        blames_absent(t, project_variants(t, vs)),
    decreases vs, 0nat,
{
    if vs.len() > 0 {
        lemma_variants_blame(t, vs.drop_last());
        lemma_variant_blame(t, vs[vs.len() - 1]);
    }
}

proof fn lemma_variant_blame(t: Seq<(NominalIdentifier, Seq<char>)>, v: CoreVariant)
    ensures
        blames_absent(t, project_variant(t, v)),
    decreases v, 0nat,
{
    if let Some(p) = v.payload {
        lemma_reference_blame(t, p);
    }
}

proof fn lemma_enum_blame(t: Seq<(NominalIdentifier, Seq<char>)>, e: CoreEnum)
    ensures
        blames_absent(t, project_enum(t, e)),
{
    lemma_variants_blame(t, e.variants@);
}

proof fn lemma_type_blame(t: Seq<(NominalIdentifier, Seq<char>)>, v: CoreType)
    ensures
        blames_absent(t, project_type(t, v)),
{
    match v {
        CoreType::Struct(s) => {
            assert forall|i: int| 0 <= i < s.fields@.len() implies blames_absent(t, field_projector(t)(#[trigger] s.fields@[i])) by {
                lemma_reference_blame(t, s.fields@[i].reference);
            }
            lemma_all_blame(t, s.fields@, field_projector(t));
        },
        CoreType::Enum(e) => lemma_enum_blame(t, e),
        CoreType::Newtype(n) => lemma_reference_blame(t, n.reference),
    }
}

proof fn lemma_root_blame(t: Seq<(NominalIdentifier, Seq<char>)>, r: CoreRoot)
    ensures
        blames_absent(t, project_root(t, r)),
{
    match r {
        CoreRoot::Enum(e) => lemma_enum_blame(t, e),
        CoreRoot::Application(a) => {
            lemma_head_blame(t, a.head);
            lemma_references_blame(t, a.arguments@);
        },
    }
}

/// A projection fails only on a miss: the identifier a failed projection
/// reports is one the table does not name.
pub proof fn lemma_projection_blames_an_absent_identifier(
    t: Seq<(NominalIdentifier, Seq<char>)>,
    c: CoreSchema,
    identity: SchemaIdentity,
)
    ensures
        project_schema(t, c, identity) matches Err(id) ==> projected_name(t, id) is Err,
{
    assert forall|i: int| 0 <= i < c.resolved_imports@.len() implies blames_absent(
        t,
        resolved_projector(t)(#[trigger] c.resolved_imports@[i]),
    ) by {
        lemma_resolved_blame(t, c.resolved_imports@[i]);
    }
    lemma_all_blame(t, c.resolved_imports@, resolved_projector(t));
    lemma_root_blame(t, c.input);
    lemma_root_blame(t, c.output);
    assert forall|i: int| 0 <= i < c.namespace@.len() implies blames_absent(
        t,
        declaration_projector(t)(#[trigger] c.namespace@[i]),
    ) by {
        lemma_type_blame(t, c.namespace@[i].value);
        lemma_names_blame(t, c.namespace@[i].parameters@);
    }
    lemma_all_blame(t, c.namespace@, declaration_projector(t));
    assert forall|i: int| 0 <= i < c.streams@.len() implies blames_absent(t, stream_projector(t)(#[trigger] c.streams@[i])) by {
        let s = c.streams@[i];
        lemma_reference_blame(t, s.token);
        lemma_reference_blame(t, s.opened);
        lemma_reference_blame(t, s.event);
        lemma_reference_blame(t, s.close);
    }
    lemma_all_blame(t, c.streams@, stream_projector(t));
    lemma_all_blame(t, c.families@, family_projector(t));
    assert forall|i: int| 0 <= i < c.relations@.len() implies blames_absent(
        t,
        relation_projector(t)(#[trigger] c.relations@[i]),
    ) by {
        match c.relations@[i] {
            CoreRelationDeclaration::Equivalence(values) => {
                assert forall|j: int| 0 <= j < values@.len() implies blames_absent(t, path_projector(t)(#[trigger] values@[j])) by {
                    lemma_names_blame(t, values@[j].segments@);
                }
                lemma_all_blame(t, values@, path_projector(t));
            },
        }
    }
    lemma_all_blame(t, c.relations@, relation_projector(t));
    lemma_all_blame(t, c.impl_blocks@, block_projector(t));
}

} // verus!
