//! Lowering a schema source into a true schema: names resolve against their
//! scope, inline declarations are lifted beside the declaration that holds
//! them, and the lowered schema must then pass every schema check.
use vstd::prelude::*;

use crate::impls::{
    ImplBlock, ImplCatalog, ImplRefView, ImplReference, MethodParameter, MethodSignature, SignatureView,
    signatures_view,
};
use crate::name::{Name, field_name_of};
use crate::reference::{TypeRefView, derived_name, scalar_of, structural_text};
use crate::reference::TypeReference;
use crate::resolve::{
    GenericShape, NameScope, ScopeView, generics_view, namespace_view, resolve_in, resolve_name_in,
    scope_has, shape_of,
};
use crate::name::SchemaIdentity;
use crate::true_schema::{Root, RootApplication, TrueSchema};
use crate::error::SchemaError;
use crate::schema::{
    Declaration, EnumDeclaration, EnumVariant, EnumView, FamilyDeclaration, FamilyKey, FieldDeclaration,
    GenericBuiltin, GenericDefinition, GenericFrame, NewtypeDeclaration, RelationDeclaration,
    ImportDeclaration, RelationValue, ResolvedImport, StreamDeclaration,
    StructDeclaration, TypeDeclaration, VariantView, Visibility, fields_view, names_view,
};
use crate::source::{
    SourceDeclarationValue, SourceEnumBody, SourceField, SourceFieldIdentity, SourceFieldValue,
    SourceImplCatalog, SourceImplEntry, SourceMethodParameter, SourceMethodSignature, SourceNamespaceEntry,
    SchemaSource, SourceGenericBuiltin, SourceImports, SourceGenericDefinition, SourceNamespaceEntryValue,
    SourceRefView, SourceRelation, SourceRootBody, SourceRootEnum, SourceStreamBody, SourceStructBody, SourceVariantPayload,
    SourceVariantSignature, is_type_case, source_type,
};
use crate::views::{
    DeclarationView, FamilyView, StreamView, TypeDeclView, block_view, declaration_view, family_view,
    builtin_view, relation_view, root_view, schema_view, stream_view, type_view,
};

verus! {

// ---------------------------------------------------------------- failures
/// Why a source does not lower.
pub enum LowerFailure {
    /// A declaration form that cannot stand where it was written.
    Syntax(Seq<char>),
    /// A reserved scalar name declared at the namespace position.
    ReservedScalar(Seq<char>),
    /// Two declarations, or two streams, of one name.
    DuplicateDeclaration(Seq<char>),
    DuplicateFamilyName(Seq<char>),
    DuplicateFamilyTable(Seq<char>),
    /// A root application that does not resolve to an application.
    RootApplication(Seq<char>),
}

pub open spec fn text_declaration_text() -> Seq<char> {
    seq!['t', 'e', 'x', 't', ' ', 'd', 'e', 'c', 'l', 'a', 'r', 'a', 't', 'i', 'o', 'n']
}

pub open spec fn inline_field_text(name: Seq<char>) -> Seq<char> {
    seq![
        'i', 'n', 'l', 'i', 'n', 'e', ' ', 'd', 'e', 'c', 'l', 'a', 'r', 'a', 't', 'i', 'o', 'n',
        ' ', 'f', 'i', 'e', 'l', 'd', ' ',
    ] + name
}

// ---------------------------------------------------------------- groups
/// The declarations one source declaration lowers to: public and private
/// helpers lifted out of it, and the declaration itself with its type
/// parameters and impl catalog.
pub struct GroupView {
    pub public: Seq<TypeDeclView>,
    pub private: Seq<TypeDeclView>,
    pub primary: Option<TypeDeclView>,
    pub parameters: Seq<Seq<char>>,
    pub impls: Seq<ImplRefView>,
}

pub open spec fn empty_group() -> GroupView {
    GroupView {
        public: Seq::empty(),
        private: Seq::empty(),
        primary: None,
        parameters: Seq::empty(),
        impls: Seq::empty(),
    }
}

pub open spec fn group_of(public: Seq<TypeDeclView>, private: Seq<TypeDeclView>, primary: TypeDeclView) -> GroupView {
    GroupView { public, private, primary: Some(primary), parameters: Seq::empty(), impls: Seq::empty() }
}

pub open spec fn type_decl_name(t: TypeDeclView) -> Seq<char> {
    match t {
        TypeDeclView::Struct(n, _) => n,
        TypeDeclView::Enum(e) => e.name,
        TypeDeclView::Newtype(n, _) => n,
    }
}

pub open spec fn bare_declaration(visibility: Visibility, t: TypeDeclView) -> DeclarationView {
    DeclarationView {
        visibility,
        name: type_decl_name(t),
        parameters: Seq::empty(),
        value: t,
        impls: Seq::empty(),
    }
}

pub open spec fn bare_declarations(visibility: Visibility, ts: Seq<TypeDeclView>) -> Seq<DeclarationView> {
    ts.map_values(|t: TypeDeclView| bare_declaration(visibility, t))
}

/// A group as namespace declarations: public helpers, private helpers, then
/// the declaration itself, public, with its parameters and catalog.
pub open spec fn group_declarations(g: GroupView) -> Seq<DeclarationView> {
    let helpers = bare_declarations(Visibility::Public, g.public) + bare_declarations(Visibility::Private, g.private);
    match g.primary {
        Some(p) => helpers.push(
            DeclarationView {
                visibility: Visibility::Public,
                name: type_decl_name(p),
                parameters: g.parameters,
                value: p,
                impls: g.impls,
            },
        ),
        None => helpers,
    }
}

/// A group as bare type declarations: public, private, then the primary.
pub open spec fn group_types(g: GroupView) -> Seq<TypeDeclView> {
    match g.primary {
        Some(p) => (g.public + g.private).push(p),
        None => g.public + g.private,
    }
}

/// Where the declarations lifted out of a field go.
#[derive(Clone, Copy, Debug, PartialEq, Eq, Structural)]
pub enum InlineVisibility {
    PublicSourceScope,
    PrivateHelper,
}

/// A group lifted out of a field: its primary joins the public helpers or
/// the private ones.
pub open spec fn field_helpers(g: GroupView, vis: InlineVisibility) -> (Seq<TypeDeclView>, Seq<TypeDeclView>) {
    match (vis, g.primary) {
        (InlineVisibility::PublicSourceScope, Some(p)) => (g.public.push(p), g.private),
        (InlineVisibility::PrivateHelper, Some(p)) => (g.public, g.private.push(p)),
        _ => (g.public, g.private),
    }
}

pub open spec fn one_helper(vis: InlineVisibility, t: TypeDeclView) -> (Seq<TypeDeclView>, Seq<TypeDeclView>) {
    match vis {
        InlineVisibility::PublicSourceScope => (seq![t], Seq::empty()),
        InlineVisibility::PrivateHelper => (Seq::empty(), seq![t]),
    }
}

pub open spec fn qualified(n: Seq<char>, ns: Option<Seq<char>>) -> Seq<char> {
    match ns {
        Some(s) => if crate::name::has_colon(n) {
            n
        } else {
            s + seq![':'] + n
        },
        None => n,
    }
}

// ---------------------------------------------------------------- variants and enums
/// The lowered variant: a self-tagged variant, or one whose payload is an
/// inline declaration, carries the type of its own name; a reference payload
/// is resolved; a unit variant carries its name's type only where declared
/// names are taken as payloads and the scope declares its name.
pub open spec fn lower_variant(sc: ScopeView, payloads: bool, ns: Option<Seq<char>>, v: SourceVariantSignature) -> VariantView {
    let name = v.spec_name()@;
    let payload = match v {
        SourceVariantSignature::SelfTagged(_) => Some(resolve_name_in(sc, ns, name)),
        SourceVariantSignature::Data(_, SourceVariantPayload::Reference(r)) => Some(resolve_in(sc, ns, r@)),
        SourceVariantSignature::Streaming(_, SourceVariantPayload::Reference(r), _, _) => Some(
            resolve_in(sc, ns, r@),
        ),
        SourceVariantSignature::Unit(_) => if payloads && scope_has(sc, name) {
            Some(resolve_name_in(sc, ns, name))
        } else {
            None
        },
        _ => Some(resolve_name_in(sc, ns, name)),
    };
    VariantView { name, payload, stream_relation: v.spec_stream_relation() }
}

pub open spec fn lower_enum(sc: ScopeView, payloads: bool, ns: Option<Seq<char>>, name: Seq<char>, vs: Seq<SourceVariantSignature>) -> EnumView {
    EnumView { name, variants: vs.map_values(|v: SourceVariantSignature| lower_variant(sc, payloads, ns, v)) }
}

// ---------------------------------------------------------------- declarations
/// The lowered field: its public and private helpers and the field itself.
pub type LoweredField = (Seq<TypeDeclView>, Seq<TypeDeclView>, (Seq<char>, TypeRefView));

pub open spec fn lower_field(sc: ScopeView, ns: Option<Seq<char>>, vis: InlineVisibility, f: SourceField) -> Result<LoweredField, LowerFailure>
    decreases f,
{
    let name = f.name@;
    let own = (field_name_of(name), resolve_name_in(sc, ns, name));
    match f.value {
        SourceFieldValue::Derived => Ok((Seq::empty(), Seq::empty(), own)),
        SourceFieldValue::Reference(r) => if is_type_case(name) {
            let helpers = one_helper(vis, TypeDeclView::Newtype(qualified(name, ns), resolve_in(sc, ns, r@)));
            Ok((helpers.0, helpers.1, own))
        } else {
            let t = resolve_in(sc, ns, r@);
            let field = match f.identity {
                SourceFieldIdentity::Implicit => derived_name(t),
                SourceFieldIdentity::Explicit => field_name_of(name),
            };
            Ok((Seq::empty(), Seq::empty(), (field, t)))
        },
        SourceFieldValue::Declaration(v) => if is_type_case(name) {
            match lower_declaration(sc, ns, qualified(name, ns), v) {
                Ok(g) => {
                    let helpers = field_helpers(g, vis);
                    Ok((helpers.0, helpers.1, own))
                },
                Err(e) => Err(e),
            }
        } else {
            Err(LowerFailure::Syntax(inline_field_text(name)))
        },
    }
}

pub open spec fn lower_fields(sc: ScopeView, ns: Option<Seq<char>>, vis: InlineVisibility, fs: Seq<SourceField>) -> Result<(Seq<TypeDeclView>, Seq<TypeDeclView>, Seq<(Seq<char>, TypeRefView)>), LowerFailure>
    decreases fs,
{
    if fs.len() == 0 {
        Ok((Seq::empty(), Seq::empty(), Seq::empty()))
    } else {
        match lower_fields(sc, ns, vis, fs.drop_last()) {
            Err(e) => Err(e),
            Ok(acc) => match lower_field(sc, ns, vis, fs[fs.len() - 1]) {
                Err(e) => Err(e),
                Ok(f) => Ok((acc.0 + f.0, acc.1 + f.1, acc.2.push(f.2))),
            },
        }
    }
}

/// A declaration's value lowered under the given name.
pub open spec fn lower_declaration(sc: ScopeView, ns: Option<Seq<char>>, name: Seq<char>, v: SourceDeclarationValue) -> Result<GroupView, LowerFailure>
    decreases v,
{
    match v {
        SourceDeclarationValue::Reference(r) => Ok(
            group_of(Seq::empty(), Seq::empty(), TypeDeclView::Newtype(name, resolve_in(sc, ns, r@))),
        ),
        SourceDeclarationValue::Text(_) => Err(LowerFailure::Syntax(text_declaration_text())),
        SourceDeclarationValue::Struct(body) => lower_struct(sc, ns, name, body, InlineVisibility::PrivateHelper),
        SourceDeclarationValue::Enum(body) => match variants_private(sc, ns, body.variants@) {
            Ok(private) => Ok(
                group_of(
                    Seq::empty(),
                    private,
                    TypeDeclView::Enum(lower_enum(sc, false, ns, name, body.variants@)),
                ),
            ),
            Err(e) => Err(e),
        },
        _ => Ok(empty_group()),
    }
}

/// A struct body lowered under the given name: one field makes a newtype of
/// its type, any other number a struct.
pub open spec fn lower_struct(sc: ScopeView, ns: Option<Seq<char>>, name: Seq<char>, body: SourceStructBody, vis: InlineVisibility) -> Result<GroupView, LowerFailure>
    decreases body,
{
    match lower_fields(sc, ns, vis, body.fields@) {
        Err(e) => Err(e),
        Ok(lowered) => {
            let fields = lowered.2;
            let primary = if fields.len() == 1 {
                TypeDeclView::Newtype(name, fields[0].1)
            } else {
                TypeDeclView::Struct(name, fields)
            };
            Ok(group_of(lowered.0, lowered.1, primary))
        },
    }
}

/// The declarations lifted out of an enum's variants as private helpers.
pub open spec fn variants_private(sc: ScopeView, ns: Option<Seq<char>>, vs: Seq<SourceVariantSignature>) -> Result<Seq<TypeDeclView>, LowerFailure>
    decreases vs,
{
    if vs.len() == 0 {
        Ok(Seq::empty())
    } else {
        match variants_private(sc, ns, vs.drop_last()) {
            Err(e) => Err(e),
            Ok(acc) => match variant_private(sc, ns, vs[vs.len() - 1]) {
                Err(e) => Err(e),
                Ok(ts) => Ok(acc + ts),
            },
        }
    }
}

pub open spec fn variant_private(sc: ScopeView, ns: Option<Seq<char>>, v: SourceVariantSignature) -> Result<Seq<TypeDeclView>, LowerFailure>
    decreases v,
{
    match v {
        SourceVariantSignature::Data(n, SourceVariantPayload::Declaration(d)) => match lower_declaration(
            sc,
            ns,
            qualified(n.0@, ns),
            d,
        ) {
            Ok(g) => Ok(group_types(g)),
            Err(e) => Err(e),
        },
        SourceVariantSignature::Streaming(n, SourceVariantPayload::Declaration(d), _, _) => match lower_declaration(
            sc,
            ns,
            qualified(n.0@, ns),
            d,
        ) {
            Ok(g) => Ok(group_types(g)),
            Err(e) => Err(e),
        },
        _ => Ok(Seq::empty()),
    }
}

/// The group a variant's inline declaration lowers to when the variant
/// stands in a public position: an inline struct keeps its own inline
/// helpers public.
pub open spec fn variant_public(sc: ScopeView, ns: Option<Seq<char>>, v: SourceVariantSignature) -> Result<GroupView, LowerFailure>
    decreases v,
{
    match v {
        SourceVariantSignature::Data(n, SourceVariantPayload::Declaration(d)) => variant_public_declaration(
            sc,
            ns,
            qualified(n.0@, ns),
            d,
        ),
        SourceVariantSignature::Streaming(n, SourceVariantPayload::Declaration(d), _, _) => variant_public_declaration(
            sc,
            ns,
            qualified(n.0@, ns),
            d,
        ),
        _ => Ok(empty_group()),
    }
}

pub open spec fn variant_public_declaration(sc: ScopeView, ns: Option<Seq<char>>, name: Seq<char>, d: SourceDeclarationValue) -> Result<GroupView, LowerFailure>
    decreases d,
{
    match d {
        SourceDeclarationValue::Struct(body) => lower_struct(sc, ns, name, body, InlineVisibility::PublicSourceScope),
        _ => lower_declaration(sc, ns, name, d),
    }
}

/// The declarations lifted out of an enum's variants as public helpers.
pub open spec fn variants_public(sc: ScopeView, ns: Option<Seq<char>>, vs: Seq<SourceVariantSignature>) -> Result<Seq<TypeDeclView>, LowerFailure>
    decreases vs,
{
    if vs.len() == 0 {
        Ok(Seq::empty())
    } else {
        match variants_public(sc, ns, vs.drop_last()) {
            Err(e) => Err(e),
            Ok(acc) => match variant_public(sc, ns, vs[vs.len() - 1]) {
                Err(e) => Err(e),
                Ok(g) => Ok(acc + group_types(g)),
            },
        }
    }
}

/// An enum declared at a namespace position: its inline declarations are
/// lifted as public helpers.
pub open spec fn lower_public_enum(sc: ScopeView, ns: Option<Seq<char>>, name: Seq<char>, body: SourceEnumBody) -> Result<GroupView, LowerFailure> {
    match variants_public(sc, ns, body.variants@) {
        Ok(public) => Ok(
            group_of(public, Seq::empty(), TypeDeclView::Enum(lower_enum(sc, false, ns, name, body.variants@))),
        ),
        Err(e) => Err(e),
    }
}

// ---------------------------------------------------------------- impl catalogs
pub open spec fn lower_parameter(sc: ScopeView, ns: Option<Seq<char>>, p: SourceMethodParameter) -> (Seq<char>, TypeRefView) {
    (p.name@, resolve_in(sc, ns, p.reference@))
}

pub open spec fn lower_signature(sc: ScopeView, ns: Option<Seq<char>>, m: SourceMethodSignature) -> SignatureView {
    SignatureView {
        name: m.name@,
        parameters: m.parameters@.map_values(|p: SourceMethodParameter| lower_parameter(sc, ns, p)),
        return_reference: resolve_in(sc, ns, m.return_reference@),
    }
}

pub open spec fn lower_impl_entry(sc: ScopeView, ns: Option<Seq<char>>, e: SourceImplEntry) -> ImplRefView {
    match e {
        SourceImplEntry::Marker(t) => ImplRefView::Marker(t@),
        SourceImplEntry::TraitImpl(t, ms) => ImplRefView::TraitImpl(
            t@,
            ms@.map_values(|m: SourceMethodSignature| lower_signature(sc, ns, m)),
        ),
        SourceImplEntry::InherentMethod(m) => ImplRefView::InherentMethod(lower_signature(sc, ns, m)),
    }
}

pub open spec fn lower_impls(sc: ScopeView, ns: Option<Seq<char>>, es: Seq<SourceImplEntry>) -> Seq<ImplRefView> {
    es.map_values(|e: SourceImplEntry| lower_impl_entry(sc, ns, e))
}

// ---------------------------------------------------------------- namespaces
/// Whether some declaration already carries the name.
pub open spec fn declares_name(ds: Seq<DeclarationView>, n: Seq<char>) -> bool {
    exists|i: int| 0 <= i < ds.len() && (#[trigger] ds[i]).name == n
}

/// Declarations pushed one by one; a name pushed twice is refused.
pub open spec fn push_declarations(acc: Seq<DeclarationView>, ds: Seq<DeclarationView>) -> Result<Seq<DeclarationView>, LowerFailure>
    decreases ds.len(),
{
    if ds.len() == 0 {
        Ok(acc)
    } else {
        match push_declarations(acc, ds.drop_last()) {
            Err(e) => Err(e),
            Ok(a) => if declares_name(a, ds.last().name) {
                Err(LowerFailure::DuplicateDeclaration(ds.last().name))
            } else {
                Ok(a.push(ds.last()))
            },
        }
    }
}

/// A namespace entry's group, with its head's parameters and its catalog.
pub open spec fn entry_group(sc: ScopeView, ns: Option<Seq<char>>, e: SourceNamespaceEntry) -> Result<GroupView, LowerFailure> {
    match e.value {
        SourceNamespaceEntryValue::Declaration(v) => {
            let name = qualified(e.name@, ns);
            let lowered = match v {
                SourceDeclarationValue::Enum(body) => lower_public_enum(sc, ns, name, body),
                _ => lower_declaration(sc, ns, name, v),
            };
            match lowered {
                Ok(g) => Ok(
                    GroupView {
                        public: g.public,
                        private: g.private,
                        primary: g.primary,
                        parameters: names_view(e.parameters@),
                        impls: lower_impls(sc, ns, e.impls.entries@),
                    },
                ),
                Err(f) => Err(f),
            }
        },
        _ => Ok(empty_group()),
    }
}

/// The namespace lowered so far: its declarations and standalone impl blocks.
pub struct NamespaceState {
    pub declarations: Seq<DeclarationView>,
    pub blocks: Seq<(Seq<char>, Seq<ImplRefView>)>,
}

pub open spec fn lower_entry(sc: ScopeView, ns: Option<Seq<char>>, st: NamespaceState, e: SourceNamespaceEntry) -> Result<NamespaceState, LowerFailure>
    decreases e,
{
    match e.value {
        SourceNamespaceEntryValue::Namespace(nested) => lower_entries(
            sc,
            Some(qualified(e.name@, ns)),
            st,
            nested.entries@,
        ),
        _ => if scalar_of(e.name@) is Some {
            Err(LowerFailure::ReservedScalar(e.name@))
        } else {
            let blocks = if e.value is ImplsOnly && e.impls.entries@.len() > 0 {
                st.blocks.push((qualified(e.name@, ns), lower_impls(sc, ns, e.impls.entries@)))
            } else {
                st.blocks
            };
            match entry_group(sc, ns, e) {
                Err(f) => Err(f),
                Ok(g) => match push_declarations(st.declarations, group_declarations(g)) {
                    Err(f) => Err(f),
                    Ok(ds) => Ok(NamespaceState { declarations: ds, blocks }),
                },
            }
        },
    }
}

pub open spec fn lower_entries(sc: ScopeView, ns: Option<Seq<char>>, st: NamespaceState, es: Seq<SourceNamespaceEntry>) -> Result<NamespaceState, LowerFailure>
    decreases es,
{
    if es.len() == 0 {
        Ok(st)
    } else {
        match lower_entries(sc, ns, st, es.drop_last()) {
            Err(f) => Err(f),
            Ok(s1) => lower_entry(sc, ns, s1, es[es.len() - 1]),
        }
    }
}

// ---------------------------------------------------------------- streams and families
pub open spec fn stream_of(name: Seq<char>, body: crate::source::SourceStreamBody) -> StreamView {
    StreamView {
        name,
        token: source_type(body.token@),
        opened: source_type(body.opened@),
        event: source_type(body.event@),
        close: source_type(body.close@),
    }
}

pub open spec fn streams_named(acc: Seq<StreamView>) -> spec_fn(StreamView) -> bool {
    |s: StreamView| exists|i: int| 0 <= i < acc.len() && (#[trigger] acc[i]).name == s.name
}

/// An entry's streams added to those before it; a stream named like an
/// earlier one is refused.
pub open spec fn add_streams(acc: Seq<StreamView>, batch: Seq<StreamView>) -> Result<Seq<StreamView>, LowerFailure> {
    match crate::lookup::first_match(batch, streams_named(acc)) {
        Some(k) => Err(LowerFailure::DuplicateDeclaration(batch[k].name)),
        None => Ok(acc + batch),
    }
}

pub open spec fn entry_streams(ns: Option<Seq<char>>, e: SourceNamespaceEntry) -> Result<Seq<StreamView>, LowerFailure>
    decreases e,
{
    match e.value {
        SourceNamespaceEntryValue::Declaration(SourceDeclarationValue::Stream(body)) => Ok(
            seq![stream_of(qualified(e.name@, ns), body)],
        ),
        SourceNamespaceEntryValue::Namespace(nested) => namespace_streams(
            Some(qualified(e.name@, ns)),
            nested.entries@,
        ),
        _ => Ok(Seq::empty()),
    }
}

pub open spec fn namespace_streams(ns: Option<Seq<char>>, es: Seq<SourceNamespaceEntry>) -> Result<Seq<StreamView>, LowerFailure>
    decreases es,
{
    if es.len() == 0 {
        Ok(Seq::empty())
    } else {
        match namespace_streams(ns, es.drop_last()) {
            Err(f) => Err(f),
            Ok(acc) => match entry_streams(ns, es[es.len() - 1]) {
                Err(f) => Err(f),
                Ok(batch) => add_streams(acc, batch),
            },
        }
    }
}

pub open spec fn family_of(name: Seq<char>, body: crate::source::SourceFamilyBody) -> FamilyView {
    FamilyView { name, record: body.record@, table: body.table@, key: body.key }
}

pub open spec fn family_clashes(acc: Seq<FamilyView>) -> spec_fn(FamilyView) -> bool {
    |f: FamilyView| exists|i: int| 0 <= i < acc.len() && ((#[trigger] acc[i]).name == f.name || acc[i].table == f.table)
}

pub open spec fn name_taken(acc: Seq<FamilyView>, f: FamilyView) -> bool {
    exists|i: int| 0 <= i < acc.len() && (#[trigger] acc[i]).name == f.name
}

/// An entry's families added to those before it; a family named like an
/// earlier one, or stored in an earlier one's table, is refused.
pub open spec fn add_families(acc: Seq<FamilyView>, batch: Seq<FamilyView>) -> Result<Seq<FamilyView>, LowerFailure> {
    match crate::lookup::first_match(batch, family_clashes(acc)) {
        Some(k) => if name_taken(acc, batch[k]) {
            Err(LowerFailure::DuplicateFamilyName(batch[k].name))
        } else {
            Err(LowerFailure::DuplicateFamilyTable(batch[k].table))
        },
        None => Ok(acc + batch),
    }
}

pub open spec fn entry_families(ns: Option<Seq<char>>, e: SourceNamespaceEntry) -> Result<Seq<FamilyView>, LowerFailure>
    decreases e,
{
    match e.value {
        SourceNamespaceEntryValue::Declaration(SourceDeclarationValue::Family(body)) => Ok(
            seq![family_of(qualified(e.name@, ns), body)],
        ),
        SourceNamespaceEntryValue::Namespace(nested) => namespace_families(
            Some(qualified(e.name@, ns)),
            nested.entries@,
        ),
        _ => Ok(Seq::empty()),
    }
}

pub open spec fn namespace_families(ns: Option<Seq<char>>, es: Seq<SourceNamespaceEntry>) -> Result<Seq<FamilyView>, LowerFailure>
    decreases es,
{
    if es.len() == 0 {
        Ok(Seq::empty())
    } else {
        match namespace_families(ns, es.drop_last()) {
            Err(f) => Err(f),
            Ok(acc) => match entry_families(ns, es[es.len() - 1]) {
                Err(f) => Err(f),
                Ok(batch) => add_families(acc, batch),
            },
        }
    }
}

/// The names of the types a namespace declares, qualified, in order.
pub open spec fn entry_type_names(ns: Option<Seq<char>>, e: SourceNamespaceEntry) -> Seq<Seq<char>>
    decreases e,
{
    match e.value {
        SourceNamespaceEntryValue::Declaration(v) => if v is Stream || v is Family {
            Seq::empty()
        } else {
            seq![qualified(e.name@, ns)]
        },
        SourceNamespaceEntryValue::Namespace(nested) => namespace_type_names(
            Some(qualified(e.name@, ns)),
            nested.entries@,
        ),
        SourceNamespaceEntryValue::ImplsOnly => Seq::empty(),
    }
}

pub open spec fn namespace_type_names(ns: Option<Seq<char>>, es: Seq<SourceNamespaceEntry>) -> Seq<Seq<char>>
    decreases es,
{
    if es.len() == 0 {
        Seq::empty()
    } else {
        namespace_type_names(ns, es.drop_last()) + entry_type_names(ns, es[es.len() - 1])
    }
}

// ---------------------------------------------------------------- roots
/// The name of a variant whose payload is an inline declaration.
pub open spec fn variant_inline_name(v: SourceVariantSignature) -> Seq<Seq<char>> {
    match v.spec_payload() {
        Some(SourceVariantPayload::Declaration(_)) => seq![v.spec_name()@],
        _ => Seq::empty(),
    }
}

pub open spec fn variants_inline_names(vs: Seq<SourceVariantSignature>) -> Seq<Seq<char>>
    decreases vs.len(),
{
    if vs.len() == 0 {
        Seq::empty()
    } else {
        variants_inline_names(vs.drop_last()) + variant_inline_name(vs.last())
    }
}

/// The type-named fields of a struct that declare a type inline.
pub open spec fn field_inline_name(f: SourceField) -> Seq<Seq<char>> {
    if is_type_case(f.name@) && !(f.value is Derived) {
        seq![f.name@]
    } else {
        Seq::empty()
    }
}

pub open spec fn fields_inline_names(fs: Seq<SourceField>) -> Seq<Seq<char>>
    decreases fs.len(),
{
    if fs.len() == 0 {
        Seq::empty()
    } else {
        fields_inline_names(fs.drop_last()) + field_inline_name(fs.last())
    }
}

pub open spec fn variant_field_names(v: SourceVariantSignature) -> Seq<Seq<char>> {
    match v.spec_payload() {
        Some(SourceVariantPayload::Declaration(SourceDeclarationValue::Struct(body))) => fields_inline_names(
            body.fields@,
        ),
        _ => Seq::empty(),
    }
}

pub open spec fn variants_field_names(vs: Seq<SourceVariantSignature>) -> Seq<Seq<char>>
    decreases vs.len(),
{
    if vs.len() == 0 {
        Seq::empty()
    } else {
        variants_field_names(vs.drop_last()) + variant_field_names(vs.last())
    }
}

pub open spec fn root_inline_names(body: crate::source::SourceRootBody) -> Seq<Seq<char>> {
    match body {
        crate::source::SourceRootBody::Enum(b) => variants_inline_names(b.variants@),
        _ => Seq::empty(),
    }
}

pub open spec fn root_field_names(body: crate::source::SourceRootBody) -> Seq<Seq<char>> {
    match body {
        crate::source::SourceRootBody::Enum(b) => variants_field_names(b.variants@),
        _ => Seq::empty(),
    }
}

/// The declarations a root's variants lift into the namespace.
pub open spec fn variants_public_declarations(sc: ScopeView, vs: Seq<SourceVariantSignature>) -> Result<Seq<DeclarationView>, LowerFailure>
    decreases vs.len(),
{
    if vs.len() == 0 {
        Ok(Seq::empty())
    } else {
        match variants_public_declarations(sc, vs.drop_last()) {
            Err(f) => Err(f),
            Ok(acc) => match variant_public(sc, None, vs.last()) {
                Err(f) => Err(f),
                Ok(g) => Ok(acc + group_declarations(g)),
            },
        }
    }
}

pub open spec fn root_public_declarations(sc: ScopeView, body: crate::source::SourceRootBody) -> Result<Seq<DeclarationView>, LowerFailure> {
    match body {
        crate::source::SourceRootBody::Enum(b) => variants_public_declarations(sc, b.variants@),
        _ => Ok(Seq::empty()),
    }
}

/// A root lowered: an enum resolves its variants against the lowered
/// namespace; an application must resolve to an application.
pub open spec fn lower_root(sc: ScopeView, root_scope: ScopeView, name: Seq<char>, body: crate::source::SourceRootBody) -> Result<crate::views::RootView, LowerFailure> {
    match body {
        crate::source::SourceRootBody::Enum(b) => Ok(
            crate::views::RootView::Enum(lower_enum(root_scope, true, None, name, b.variants@)),
        ),
        crate::source::SourceRootBody::Application(r) => match resolve_in(sc, None, r@) {
            TypeRefView::Application { head, arguments } => Ok(
                crate::views::RootView::Application(name, TypeRefView::Application { head, arguments }),
            ),
            _ => Err(LowerFailure::RootApplication(structural_text(source_type(r@)))),
        },
    }
}

// ---------------------------------------------------------------- generics
pub open spec fn frame_word() -> Seq<char> {
    seq!['F', 'r', 'a', 'm', 'e']
}

pub open spec fn lower_generic(sc: ScopeView, g: crate::source::SourceGenericDefinition) -> (Seq<char>, crate::views::BuiltinView) {
    (g.name@, match g.builtin {
        crate::source::SourceGenericBuiltin::Vector => crate::views::BuiltinView::Vector,
        crate::source::SourceGenericBuiltin::Optional => crate::views::BuiltinView::Optional,
        crate::source::SourceGenericBuiltin::ScopeOf => crate::views::BuiltinView::ScopeOf,
        crate::source::SourceGenericBuiltin::MapOf => crate::views::BuiltinView::MapOf,
        crate::source::SourceGenericBuiltin::FixedBytes => crate::views::BuiltinView::FixedBytes,
        crate::source::SourceGenericBuiltin::Frame { parameters, body } => crate::views::BuiltinView::Frame(
            names_view(parameters@),
            lower_enum(sc, false, None, frame_word(), body.variants@).variants,
        ),
    })
}

// ---------------------------------------------------------------- the whole source
/// The scope a source's references resolve in: every type its namespace
/// declares, the inline declarations of its roots, and its generics.
pub open spec fn type_scope(src: crate::source::SchemaSource) -> ScopeView {
    ScopeView {
        names: namespace_type_names(None, src.namespace.entries@) + root_inline_names(src.input.body)
            + root_inline_names(src.output.body) + root_field_names(src.input.body) + root_field_names(
            src.output.body,
        ),
        generics: src.generics.entries@.map_values(
            |g: crate::source::SourceGenericDefinition| (g.name@, crate::resolve::shape_of(g.builtin)),
        ),
    }
}

/// Everything a source lowers to before the schema checks.
pub struct LoweredView {
    pub generics: Seq<(Seq<char>, crate::views::BuiltinView)>,
    pub namespace: Seq<DeclarationView>,
    pub impl_blocks: Seq<(Seq<char>, Seq<ImplRefView>)>,
    pub streams: Seq<StreamView>,
    pub families: Seq<FamilyView>,
    pub input: crate::views::RootView,
    pub output: crate::views::RootView,
    pub relations: Seq<Seq<Seq<Seq<char>>>>,
}

pub open spec fn relation_source_view(r: crate::source::SourceRelation) -> Seq<Seq<Seq<char>>> {
    match r {
        crate::source::SourceRelation::Equivalence(e) => e.values@.map_values(
            |v: crate::source::SourceRelationValue| names_view(v.path@),
        ),
    }
}

pub open spec fn lower_source(src: crate::source::SchemaSource) -> Result<LoweredView, LowerFailure> {
    let sc = type_scope(src);
    let es = src.namespace.entries@;
    match lower_entries(sc, None, NamespaceState { declarations: Seq::empty(), blocks: Seq::empty() }, es) {
        Err(f) => Err(f),
        Ok(st) => match root_public_declarations(sc, src.input.body) {
            Err(f) => Err(f),
            Ok(inputs) => match push_declarations(st.declarations, inputs) {
                Err(f) => Err(f),
                Ok(d1) => match root_public_declarations(sc, src.output.body) {
                    Err(f) => Err(f),
                    Ok(outputs) => match push_declarations(d1, outputs) {
                        Err(f) => Err(f),
                        Ok(d2) => match namespace_streams(None, es) {
                            Err(f) => Err(f),
                            Ok(streams) => match namespace_families(None, es) {
                                Err(f) => Err(f),
                                Ok(families) => {
                                    let root_scope = ScopeView {
                                        names: d2.map_values(|d: DeclarationView| d.name),
                                        generics: sc.generics,
                                    };
                                    match lower_root(sc, root_scope, src.input.name@, src.input.body) {
                                        Err(f) => Err(f),
                                        Ok(input) => match lower_root(
                                            sc,
                                            root_scope,
                                            src.output.name@,
                                            src.output.body,
                                        ) {
                                            Err(f) => Err(f),
                                            Ok(output) => Ok(
                                                LoweredView {
                                                    generics: src.generics.entries@.map_values(
                                                        |g: crate::source::SourceGenericDefinition| lower_generic(sc, g),
                                                    ),
                                                    namespace: d2,
                                                    impl_blocks: st.blocks,
                                                    streams,
                                                    families,
                                                    input,
                                                    output,
                                                    relations: src.relations.entries@.map_values(
                                                        |r: crate::source::SourceRelation| relation_source_view(r),
                                                    ),
                                                },
                                            ),
                                        },
                                    }
                                },
                            },
                        },
                    },
                },
            },
        },
    }
}

/// The error that reports a lowering failure.
pub open spec fn reports_lower(e: crate::error::SchemaError, f: LowerFailure) -> bool {
    match f {
        LowerFailure::Syntax(t) => e matches crate::error::SchemaError::ExpectedSyntaxDeclaration { found } && found@ == t,
        LowerFailure::ReservedScalar(n) => e matches crate::error::SchemaError::ReservedScalarTypeName { name } && name@ == n,
        LowerFailure::DuplicateDeclaration(n) => e matches crate::error::SchemaError::DuplicateSourceDeclaration { name } && name@ == n,
        LowerFailure::DuplicateFamilyName(n) => e matches crate::error::SchemaError::DuplicateFamilyName { name } && name@ == n,
        LowerFailure::DuplicateFamilyTable(t) => e matches crate::error::SchemaError::DuplicateFamilyTable { table } && table@ == t,
        LowerFailure::RootApplication(t) => e matches crate::error::SchemaError::ExpectedRootApplication { position, found }
            && position@ == seq!['r', 'o', 'o', 't'] && found@ == t,
    }
}

// ================================================================ execution
pub open spec fn type_views(ts: Seq<TypeDeclaration>) -> Seq<TypeDeclView> {
    ts.map_values(|t: TypeDeclaration| type_view(t))
}

pub open spec fn option_type_view(t: Option<TypeDeclaration>) -> Option<TypeDeclView> {
    match t {
        Some(t) => Some(type_view(t)),
        None => None,
    }
}

/// The declarations one source declaration lowers to.
pub struct DeclarationGroup {
    pub public: Vec<TypeDeclaration>,
    pub private: Vec<TypeDeclaration>,
    pub primary: Option<TypeDeclaration>,
    pub parameters: Vec<Name>,
    pub impls: ImplCatalog,
}

impl View for DeclarationGroup {
    type V = GroupView;

    open spec fn view(&self) -> GroupView {
        GroupView {
            public: type_views(self.public@),
            private: type_views(self.private@),
            primary: option_type_view(self.primary),
            parameters: names_view(self.parameters@),
            impls: self.impls@,
        }
    }
}

proof fn lemma_type_views_push(ts: Seq<TypeDeclaration>, t: TypeDeclaration)
    ensures
        type_views(ts.push(t)) == type_views(ts).push(type_view(t)),
{
    assert(type_views(ts.push(t)) =~= type_views(ts).push(type_view(t)));
}

proof fn lemma_type_views_append(a: Seq<TypeDeclaration>, b: Seq<TypeDeclaration>)
    ensures
        type_views(a + b) == type_views(a) + type_views(b),
{
    assert(type_views(a + b) =~= type_views(a) + type_views(b));
}

fn append_types(acc: &mut Vec<TypeDeclaration>, more: Vec<TypeDeclaration>)
    ensures
        type_views(final(acc)@) == type_views(old(acc)@) + type_views(more@),
{
    let ghost start = acc@;
    let ghost added = more@;
    let mut more = more;
    acc.append(&mut more);
    proof {
        lemma_type_views_append(start, added);
    }
}

// ---------------------------------------------------------------- variants and enums
fn lower_variant_exec(scope: &NameScope, payloads: bool, ns: Option<&Name>, v: &SourceVariantSignature) -> (r: EnumVariant)
    ensures
        r@ == lower_variant(scope@, payloads, namespace_view(ns), *v),
{
    let name = v.name().clone();
    let payload = match v {
        SourceVariantSignature::SelfTagged(_) => Some(scope.resolve_name(ns, &name)),
        SourceVariantSignature::Data(_, SourceVariantPayload::Reference(r)) => Some(
            scope.resolve_reference(ns, r),
        ),
        SourceVariantSignature::Streaming(_, SourceVariantPayload::Reference(r), _, _) => Some(
            scope.resolve_reference(ns, r),
        ),
        SourceVariantSignature::Unit(_) => if payloads && scope.has_name(&name) {
            Some(scope.resolve_name(ns, &name))
        } else {
            None
        },
        _ => Some(scope.resolve_name(ns, &name)),
    };
    let variant = EnumVariant::new(name, payload);
    match v.stream_relation() {
        Some(relation) => variant.with_stream_relation(relation),
        None => variant,
    }
}

fn lower_enum_exec(scope: &NameScope, payloads: bool, ns: Option<&Name>, name: Name, vs: &Vec<SourceVariantSignature>) -> (r: EnumDeclaration)
    ensures
        r@ == lower_enum(scope@, payloads, namespace_view(ns), name@, vs@),
{
    let mut variants: Vec<EnumVariant> = Vec::new();
    let mut i: usize = 0;
    while i < vs.len()
        invariant
            i <= vs@.len(),
            variants@.len() == i,
            forall|k: int| 0 <= k < i ==> (#[trigger] variants@[k])@ == lower_variant(
                scope@,
                payloads,
                namespace_view(ns),
                vs@[k],
            ),
        decreases vs@.len() - i,
    {
        variants.push(lower_variant_exec(scope, payloads, ns, &vs[i]));
        i = i + 1;
    }
    let r = EnumDeclaration::new(name, variants);
    assert(r@.variants =~= lower_enum(scope@, payloads, namespace_view(ns), name@, vs@).variants);
    r
}

// ---------------------------------------------------------------- groups, executed
pub open spec fn group_matches(r: Result<DeclarationGroup, SchemaError>, o: Result<GroupView, LowerFailure>) -> bool {
    match o {
        Ok(g) => r is Ok && r->Ok_0@ == g,
        Err(f) => r is Err && reports_lower(r->Err_0, f),
    }
}

pub open spec fn types_match(r: Result<Vec<TypeDeclaration>, SchemaError>, o: Result<Seq<TypeDeclView>, LowerFailure>) -> bool {
    match o {
        Ok(ts) => r is Ok && type_views(r->Ok_0@) == ts,
        Err(f) => r is Err && reports_lower(r->Err_0, f),
    }
}

pub open spec fn field_matches(
    r: Result<(Vec<TypeDeclaration>, Vec<TypeDeclaration>, FieldDeclaration), SchemaError>,
    o: Result<LoweredField, LowerFailure>,
) -> bool {
    match o {
        Ok(l) => r is Ok && type_views(r->Ok_0.0@) == l.0 && type_views(r->Ok_0.1@) == l.1 && r->Ok_0.2@ == l.2,
        Err(f) => r is Err && reports_lower(r->Err_0, f),
    }
}

fn empty_group_exec() -> (r: DeclarationGroup)
    ensures
        r@ == empty_group(),
{
    let r = DeclarationGroup {
        public: Vec::new(),
        private: Vec::new(),
        primary: None,
        parameters: Vec::new(),
        impls: ImplCatalog::empty(),
    };
    assert(r@.public =~= Seq::<TypeDeclView>::empty());
    assert(r@.private =~= Seq::<TypeDeclView>::empty());
    assert(r@.parameters =~= Seq::<Seq<char>>::empty());
    assert(r@.impls =~= Seq::<ImplRefView>::empty());
    r
}

fn group_of_exec(public: Vec<TypeDeclaration>, private: Vec<TypeDeclaration>, primary: TypeDeclaration) -> (r: DeclarationGroup)
    ensures
        r@ == group_of(type_views(public@), type_views(private@), type_view(primary)),
{
    let r = DeclarationGroup {
        public,
        private,
        primary: Some(primary),
        parameters: Vec::new(),
        impls: ImplCatalog::empty(),
    };
    assert(r@.parameters =~= Seq::<Seq<char>>::empty());
    assert(r@.impls =~= Seq::<ImplRefView>::empty());
    r
}

fn group_types_exec(g: DeclarationGroup) -> (r: Vec<TypeDeclaration>)
    ensures
        type_views(r@) == group_types(g@),
{
    let DeclarationGroup { public, private, primary, parameters, impls } = g;
    let mut out = public;
    append_types(&mut out, private);
    match primary {
        Some(p) => {
            let ghost before = out@;
            out.push(p);
            proof {
                lemma_type_views_push(before, p);
            }
        },
        None => {},
    }
    out
}

fn field_helpers_exec(g: DeclarationGroup, vis: InlineVisibility) -> (r: (Vec<TypeDeclaration>, Vec<TypeDeclaration>))
    ensures
        (type_views(r.0@), type_views(r.1@)) == field_helpers(g@, vis),
{
    let DeclarationGroup { public, private, primary, parameters, impls } = g;
    let mut public = public;
    let mut private = private;
    match primary {
        Some(p) => match vis {
            InlineVisibility::PublicSourceScope => {
                let ghost before = public@;
                public.push(p);
                proof {
                    lemma_type_views_push(before, p);
                }
            },
            InlineVisibility::PrivateHelper => {
                let ghost before = private@;
                private.push(p);
                proof {
                    lemma_type_views_push(before, p);
                }
            },
        },
        None => {},
    }
    (public, private)
}

fn one_helper_exec(vis: InlineVisibility, t: TypeDeclaration) -> (r: (Vec<TypeDeclaration>, Vec<TypeDeclaration>))
    ensures
        (type_views(r.0@), type_views(r.1@)) == one_helper(vis, type_view(t)),
{
    let mut one: Vec<TypeDeclaration> = Vec::new();
    one.push(t);
    let none: Vec<TypeDeclaration> = Vec::new();
    assert(type_views(one@) =~= seq![type_view(t)]);
    assert(type_views(none@) =~= Seq::<TypeDeclView>::empty());
    match vis {
        InlineVisibility::PublicSourceScope => (one, none),
        InlineVisibility::PrivateHelper => (none, one),
    }
}

fn no_types() -> (r: Vec<TypeDeclaration>)
    ensures
        type_views(r@) == Seq::<TypeDeclView>::empty(),
        r@.len() == 0,
{
    let r: Vec<TypeDeclaration> = Vec::new();
    assert(type_views(r@) =~= Seq::<TypeDeclView>::empty());
    r
}

fn inline_field_message(name: &Name) -> (r: String)
    ensures
        r@ == inline_field_text(name@),
{
    proof {
        reveal_strlit("inline declaration field ");
    }
    let mut out = String::new();
    out.append("inline declaration field ");
    out.append(name.as_str());
    assert(out@ =~= inline_field_text(name@));
    out
}

fn lower_field_exec(scope: &NameScope, ns: Option<&Name>, vis: InlineVisibility, f: &SourceField) -> (r: Result<
    (Vec<TypeDeclaration>, Vec<TypeDeclaration>, FieldDeclaration),
    SchemaError,
>)
    ensures
        field_matches(r, lower_field(scope@, namespace_view(ns), vis, *f)),
    decreases f, 0nat,
{
    let own_name = Name::from_string(f.name.field_name());
    match &f.value {
        SourceFieldValue::Derived => Ok(
            (no_types(), no_types(), FieldDeclaration { name: own_name, reference: scope.resolve_name(ns, &f.name) }),
        ),
        SourceFieldValue::Reference(reference) => {
            if crate::source::name_is_type_case(&f.name) {
                let helper = TypeDeclaration::Newtype(
                    NewtypeDeclaration::new(f.name.qualified_under(ns), scope.resolve_reference(ns, reference)),
                );
                let helpers = one_helper_exec(vis, helper);
                Ok(
                    (
                        helpers.0,
                        helpers.1,
                        FieldDeclaration { name: own_name, reference: scope.resolve_name(ns, &f.name) },
                    ),
                )
            } else {
                let t = scope.resolve_reference(ns, reference);
                let name = match f.identity {
                    SourceFieldIdentity::Implicit => t.derived_field_name(),
                    SourceFieldIdentity::Explicit => own_name,
                };
                Ok((no_types(), no_types(), FieldDeclaration { name, reference: t }))
            }
        },
        SourceFieldValue::Declaration(value) => {
            if crate::source::name_is_type_case(&f.name) {
                match lower_declaration_exec(scope, ns, f.name.qualified_under(ns), value) {
                    Ok(g) => {
                        let helpers = field_helpers_exec(g, vis);
                        Ok(
                            (
                                helpers.0,
                                helpers.1,
                                FieldDeclaration { name: own_name, reference: scope.resolve_name(ns, &f.name) },
                            ),
                        )
                    },
                    Err(e) => Err(e),
                }
            } else {
                Err(SchemaError::ExpectedSyntaxDeclaration { found: inline_field_message(&f.name) })
            }
        },
    }
}

proof fn lemma_fields_step(sc: ScopeView, ns: Option<Seq<char>>, vis: InlineVisibility, fs: Seq<SourceField>, i: int)
    requires
        0 <= i < fs.len(),
    ensures
        lower_fields(sc, ns, vis, fs.take(i + 1)) == match lower_fields(sc, ns, vis, fs.take(i)) {
            Err(e) => Err(e),
            Ok(acc) => match lower_field(sc, ns, vis, fs[i]) {
                Err(e) => Err(e),
                Ok(f) => Ok((acc.0 + f.0, acc.1 + f.1, acc.2.push(f.2))),
            },
        },
{
    assert(fs.take(i + 1).drop_last() =~= fs.take(i));
    assert(fs.take(i + 1)[i] == fs[i]);
}

proof fn lemma_fields_failure(sc: ScopeView, ns: Option<Seq<char>>, vis: InlineVisibility, fs: Seq<SourceField>, k: int)
    requires
        0 <= k <= fs.len(),
        lower_fields(sc, ns, vis, fs.take(k)) is Err,
    ensures
        lower_fields(sc, ns, vis, fs) == lower_fields(sc, ns, vis, fs.take(k)),
    decreases fs.len(),
{
    if k == fs.len() {
        assert(fs.take(k) =~= fs);
    } else {
        assert(fs.drop_last().take(k) =~= fs.take(k));
        lemma_fields_failure(sc, ns, vis, fs.drop_last(), k);
    }
}

fn lower_struct_exec(scope: &NameScope, ns: Option<&Name>, name: Name, body: &SourceStructBody, vis: InlineVisibility) -> (r: Result<DeclarationGroup, SchemaError>)
    ensures
        group_matches(r, lower_struct(scope@, namespace_view(ns), name@, *body, vis)),
    decreases body, 0nat,
{
    let ghost nsv = namespace_view(ns);
    let fields_in = &body.fields;
    let mut public: Vec<TypeDeclaration> = Vec::new();
    let mut private: Vec<TypeDeclaration> = Vec::new();
    let mut fields: Vec<FieldDeclaration> = Vec::new();
    proof {
        assert(fields_in@.take(0) =~= Seq::<SourceField>::empty());
        assert(type_views(public@) =~= Seq::<TypeDeclView>::empty());
        assert(type_views(private@) =~= Seq::<TypeDeclView>::empty());
        assert(fields_view(fields@) =~= Seq::<(Seq<char>, TypeRefView)>::empty());
    }
    let mut i: usize = 0;
    while i < fields_in.len()
        invariant
            i <= fields_in@.len(),
            *fields_in == body.fields,
            nsv == namespace_view(ns),
            lower_fields(scope@, nsv, vis, fields_in@.take(i as int)) == Ok::<
                (Seq<TypeDeclView>, Seq<TypeDeclView>, Seq<(Seq<char>, TypeRefView)>),
                LowerFailure,
            >((type_views(public@), type_views(private@), fields_view(fields@))),
        decreases fields_in@.len() - i,
    {
        proof {
            vstd::std_specs::vec::axiom_vec_index_decreases(body.fields, i as int);
            assert(decreases_to!(*body => body.fields));
        }
        let lowered = lower_field_exec(scope, ns, vis, &fields_in[i]);
        proof {
            lemma_fields_step(scope@, nsv, vis, fields_in@, i as int);
        }
        match lowered {
            Ok((p, q, field)) => {
                let ghost (p0, q0, f0) = (public@, private@, fields@);
                append_types(&mut public, p);
                append_types(&mut private, q);
                fields.push(field);
                proof {
                    assert(fields_view(fields@) =~= fields_view(f0).push(field@));
                }
            },
            Err(e) => {
                proof {
                    lemma_fields_failure(scope@, nsv, vis, fields_in@, i + 1);
                }
                return Err(e);
            },
        }
        i = i + 1;
    }
    proof {
        assert(fields_in@.take(i as int) =~= fields_in@);
    }
    let primary = if fields.len() == 1 {
        let field = fields.remove(0);
        TypeDeclaration::Newtype(NewtypeDeclaration::new(name, field.reference))
    } else {
        let ghost fs = fields@;
        let declaration = StructDeclaration::new(name, fields);
        proof {
            declaration.fields.lemma_view();
        }
        TypeDeclaration::Struct(declaration)
    };
    Ok(group_of_exec(public, private, primary))
}

proof fn lemma_types_list_failure(
    sc: ScopeView,
    ns: Option<Seq<char>>,
    vs: Seq<SourceVariantSignature>,
    k: int,
    public: bool,
)
    requires
        0 <= k <= vs.len(),
        public ==> variants_public(sc, ns, vs.take(k)) is Err,
        !public ==> variants_private(sc, ns, vs.take(k)) is Err,
    ensures
        public ==> variants_public(sc, ns, vs) == variants_public(sc, ns, vs.take(k)),
        !public ==> variants_private(sc, ns, vs) == variants_private(sc, ns, vs.take(k)),
    decreases vs.len(),
{
    if k == vs.len() {
        assert(vs.take(k) =~= vs);
    } else {
        assert(vs.drop_last().take(k) =~= vs.take(k));
        lemma_types_list_failure(sc, ns, vs.drop_last(), k, public);
    }
}

fn lower_declaration_exec(scope: &NameScope, ns: Option<&Name>, name: Name, v: &SourceDeclarationValue) -> (r: Result<DeclarationGroup, SchemaError>)
    ensures
        group_matches(r, lower_declaration(scope@, namespace_view(ns), name@, *v)),
    decreases v, 1nat,
{
    proof {
        reveal_strlit("text declaration");
    }
    match v {
        SourceDeclarationValue::Reference(reference) => {
            let t = TypeDeclaration::Newtype(NewtypeDeclaration::new(name, scope.resolve_reference(ns, reference)));
            let none: Vec<TypeDeclaration> = Vec::new();
            let none2: Vec<TypeDeclaration> = Vec::new();
            assert(type_views(none@) =~= Seq::<TypeDeclView>::empty());
            assert(type_views(none2@) =~= Seq::<TypeDeclView>::empty());
            Ok(group_of_exec(none, none2, t))
        },
        SourceDeclarationValue::Text(_) => {
            let found = "text declaration".to_owned();
            assert(found@ =~= text_declaration_text());
            Err(SchemaError::ExpectedSyntaxDeclaration { found })
        },
        SourceDeclarationValue::Struct(body) => lower_struct_exec(scope, ns, name, body, InlineVisibility::PrivateHelper),
        SourceDeclarationValue::Enum(body) => {
            let private = variants_types_exec(scope, ns, v, false);
            match private {
                Ok(private) => {
                    let none: Vec<TypeDeclaration> = Vec::new();
                    assert(type_views(none@) =~= Seq::<TypeDeclView>::empty());
                    let e = lower_enum_exec(scope, false, ns, name, &body.variants);
                    Ok(group_of_exec(none, private, TypeDeclaration::Enum(e)))
                },
                Err(e) => Err(e),
            }
        },
        _ => Ok(empty_group_exec()),
    }
}

/// The helpers lifted out of an enum value's variants: privately, as an
/// enum nested in a declaration lifts them, or publicly, as an enum at a
/// namespace position does.
fn variants_types_exec(scope: &NameScope, ns: Option<&Name>, v: &SourceDeclarationValue, public: bool) -> (r: Result<Vec<TypeDeclaration>, SchemaError>)
    requires
        v is Enum,
    ensures
        public ==> types_match(r, variants_public(scope@, namespace_view(ns), v->Enum_0.variants@)),
        !public ==> types_match(r, variants_private(scope@, namespace_view(ns), v->Enum_0.variants@)),
    decreases v, 0nat,
{
    let body = match v {
        SourceDeclarationValue::Enum(body) => body,
        _ => { return Err(SchemaError::EmptyTypeReference); },
    };
    let ghost nsv = namespace_view(ns);
    let vs = &body.variants;
    let mut out: Vec<TypeDeclaration> = Vec::new();
    proof {
        assert(vs@.take(0) =~= Seq::<SourceVariantSignature>::empty());
        assert(type_views(out@) =~= Seq::<TypeDeclView>::empty());
    }
    let mut i: usize = 0;
    while i < vs.len()
        invariant
            i <= vs@.len(),
            v is Enum,
            *vs == v->Enum_0.variants,
            nsv == namespace_view(ns),
            public ==> variants_public(scope@, nsv, vs@.take(i as int)) == Ok::<Seq<TypeDeclView>, LowerFailure>(
                type_views(out@),
            ),
            !public ==> variants_private(scope@, nsv, vs@.take(i as int)) == Ok::<Seq<TypeDeclView>, LowerFailure>(
                type_views(out@),
            ),
        decreases vs@.len() - i,
    {
        proof {
            vstd::std_specs::vec::axiom_vec_index_decreases(*vs, i as int);
            assert(decreases_to!(*v => v->Enum_0.variants));
            let t = vs@.take(i + 1);
            assert(t.drop_last() =~= vs@.take(i as int));
            assert(t[t.len() - 1] == vs@[i as int]);
        }
        let step = if public {
            match variant_public_exec(scope, ns, &vs[i]) {
                Ok(g) => Ok(group_types_exec(g)),
                Err(e) => Err(e),
            }
        } else {
            variant_private_exec(scope, ns, &vs[i])
        };
        match step {
            Ok(more) => {
                append_types(&mut out, more);
            },
            Err(e) => {
                proof {
                    lemma_types_list_failure(scope@, nsv, vs@, i + 1, public);
                }
                return Err(e);
            },
        }
        i = i + 1;
    }
    proof {
        assert(vs@.take(i as int) =~= vs@);
    }
    Ok(out)
}

fn variant_private_exec(scope: &NameScope, ns: Option<&Name>, v: &SourceVariantSignature) -> (r: Result<Vec<TypeDeclaration>, SchemaError>)
    ensures
        types_match(r, variant_private(scope@, namespace_view(ns), *v)),
    decreases v, 0nat,
{
    let declaration = match v {
        SourceVariantSignature::Data(_, SourceVariantPayload::Declaration(d)) => d,
        SourceVariantSignature::Streaming(_, SourceVariantPayload::Declaration(d), _, _) => d,
        _ => {
            let none: Vec<TypeDeclaration> = Vec::new();
            assert(type_views(none@) =~= Seq::<TypeDeclView>::empty());
            return Ok(none);
        },
    };
    match lower_declaration_exec(scope, ns, v.name().qualified_under(ns), declaration) {
        Ok(g) => Ok(group_types_exec(g)),
        Err(e) => Err(e),
    }
}

fn variant_public_exec(scope: &NameScope, ns: Option<&Name>, v: &SourceVariantSignature) -> (r: Result<DeclarationGroup, SchemaError>)
    ensures
        group_matches(r, variant_public(scope@, namespace_view(ns), *v)),
    decreases v, 0nat,
{
    let declaration = match v {
        SourceVariantSignature::Data(_, SourceVariantPayload::Declaration(d)) => d,
        SourceVariantSignature::Streaming(_, SourceVariantPayload::Declaration(d), _, _) => d,
        _ => {
            return Ok(empty_group_exec());
        },
    };
    let name = v.name().qualified_under(ns);
    match declaration {
        SourceDeclarationValue::Struct(body) => lower_struct_exec(
            scope,
            ns,
            name,
            body,
            InlineVisibility::PublicSourceScope,
        ),
        _ => lower_declaration_exec(scope, ns, name, declaration),
    }
}

// ---------------------------------------------------------------- impl catalogs, executed
fn lower_signature_exec(scope: &NameScope, ns: Option<&Name>, m: &SourceMethodSignature) -> (r: MethodSignature)
    ensures
        r@ == lower_signature(scope@, namespace_view(ns), *m),
{
    let mut parameters: Vec<MethodParameter> = Vec::new();
    let mut i: usize = 0;
    while i < m.parameters.len()
        invariant
            i <= m.parameters@.len(),
            parameters@.len() == i,
            forall|k: int| 0 <= k < i ==> (#[trigger] parameters@[k])@ == lower_parameter(
                scope@,
                namespace_view(ns),
                m.parameters@[k],
            ),
        decreases m.parameters@.len() - i,
    {
        let p = &m.parameters[i];
        parameters.push(MethodParameter::new(p.name.clone(), scope.resolve_reference(ns, &p.reference)));
        i = i + 1;
    }
    let r = MethodSignature::new(m.name.clone(), parameters, scope.resolve_reference(ns, &m.return_reference));
    assert(r@.parameters =~= lower_signature(scope@, namespace_view(ns), *m).parameters);
    r
}

fn lower_signatures_exec(scope: &NameScope, ns: Option<&Name>, ms: &Vec<SourceMethodSignature>) -> (r: Vec<MethodSignature>)
    ensures
        signatures_view(r@) == ms@.map_values(|m: SourceMethodSignature| lower_signature(scope@, namespace_view(ns), m)),
{
    let mut out: Vec<MethodSignature> = Vec::new();
    let mut i: usize = 0;
    while i < ms.len()
        invariant
            i <= ms@.len(),
            out@.len() == i,
            forall|k: int| 0 <= k < i ==> (#[trigger] out@[k])@ == lower_signature(scope@, namespace_view(ns), ms@[k]),
        decreases ms@.len() - i,
    {
        out.push(lower_signature_exec(scope, ns, &ms[i]));
        i = i + 1;
    }
    assert(signatures_view(out@) =~= ms@.map_values(
        |m: SourceMethodSignature| lower_signature(scope@, namespace_view(ns), m),
    ));
    out
}

fn lower_impls_exec(scope: &NameScope, ns: Option<&Name>, catalog: &SourceImplCatalog) -> (r: ImplCatalog)
    ensures
        r@ == lower_impls(scope@, namespace_view(ns), catalog.entries@),
{
    let mut out: Vec<ImplReference> = Vec::new();
    let mut i: usize = 0;
    while i < catalog.entries.len()
        invariant
            i <= catalog.entries@.len(),
            out@.len() == i,
            forall|k: int| 0 <= k < i ==> (#[trigger] out@[k])@ == lower_impl_entry(
                scope@,
                namespace_view(ns),
                catalog.entries@[k],
            ),
        decreases catalog.entries@.len() - i,
    {
        let entry = match &catalog.entries[i] {
            SourceImplEntry::Marker(t) => ImplReference::Marker(t.clone()),
            SourceImplEntry::TraitImpl(t, ms) => ImplReference::TraitImpl(t.clone(), lower_signatures_exec(scope, ns, ms)),
            SourceImplEntry::InherentMethod(m) => ImplReference::InherentMethod(lower_signature_exec(scope, ns, m)),
        };
        out.push(entry);
        i = i + 1;
    }
    let r = ImplCatalog::new(out);
    assert(r@ =~= lower_impls(scope@, namespace_view(ns), catalog.entries@));
    r
}

// ---------------------------------------------------------------- namespaces, executed
pub open spec fn decl_views(ds: Seq<Declaration>) -> Seq<DeclarationView> {
    ds.map_values(|d: Declaration| declaration_view(d))
}

proof fn lemma_type_decl_name(t: TypeDeclaration)
    ensures
        type_decl_name(type_view(t)) == t.spec_name()@,
{
}

fn lower_public_enum_exec(scope: &NameScope, ns: Option<&Name>, name: Name, v: &SourceDeclarationValue) -> (r: Result<DeclarationGroup, SchemaError>)
    requires
        v is Enum,
    ensures
        group_matches(r, lower_public_enum(scope@, namespace_view(ns), name@, v->Enum_0)),
{
    match variants_types_exec(scope, ns, v, true) {
        Ok(public) => {
            let body = match v {
                SourceDeclarationValue::Enum(body) => body,
                _ => { return Err(SchemaError::EmptyTypeReference); },
            };
            let e = lower_enum_exec(scope, false, ns, name, &body.variants);
            Ok(group_of_exec(public, no_types(), TypeDeclaration::Enum(e)))
        },
        Err(e) => Err(e),
    }
}

fn entry_group_exec(scope: &NameScope, ns: Option<&Name>, e: &SourceNamespaceEntry) -> (r: Result<DeclarationGroup, SchemaError>)
    ensures
        group_matches(r, entry_group(scope@, namespace_view(ns), *e)),
{
    match &e.value {
        SourceNamespaceEntryValue::Declaration(v) => {
            let name = e.name.qualified_under(ns);
            let lowered = match v {
                SourceDeclarationValue::Enum(_) => lower_public_enum_exec(scope, ns, name, v),
                _ => lower_declaration_exec(scope, ns, name, v),
            };
            match lowered {
                Ok(g) => {
                    let DeclarationGroup { public, private, primary, parameters, impls } = g;
                    let parameters = crate::schema::copy_names(e.parameters.as_slice());
                    let impls = lower_impls_exec(scope, ns, &e.impls);
                    Ok(DeclarationGroup { public, private, primary, parameters, impls })
                },
                Err(f) => Err(f),
            }
        },
        _ => Ok(empty_group_exec()),
    }
}

/// Declarations of the given visibility for each type, in order.
fn bare_declarations_exec(out: &mut Vec<Declaration>, ts: &Vec<TypeDeclaration>, visibility: Visibility)
    ensures
        decl_views(final(out)@) == decl_views(old(out)@) + bare_declarations(visibility, type_views(ts@)),
{
    let ghost start = decl_views(out@);
    let mut i: usize = 0;
    while i < ts.len()
        invariant
            i <= ts@.len(),
            decl_views(out@) == start + bare_declarations(visibility, type_views(ts@.take(i as int))),
        decreases ts@.len() - i,
    {
        let t = crate::views::copy_type_declaration(&ts[i]);
        proof {
            lemma_type_decl_name(t);
        }
        let d = match visibility {
            Visibility::Public => Declaration::public(t),
            Visibility::Private => Declaration::private(t),
        };
        let ghost before = out@;
        out.push(d);
        proof {
            assert(ts@.take(i + 1) =~= ts@.take(i as int).push(ts@[i as int]));
            assert(declaration_view(d).parameters =~= Seq::<Seq<char>>::empty());
            assert(declaration_view(d).impls =~= Seq::<ImplRefView>::empty());
            assert(declaration_view(d) == bare_declaration(visibility, type_view(ts@[i as int])));
            let pre = type_views(ts@.take(i as int));
            assert(type_views(ts@.take(i + 1)) =~= pre.push(type_view(ts@[i as int])));
            assert(bare_declarations(visibility, pre.push(type_view(ts@[i as int]))) =~= bare_declarations(
                visibility,
                pre,
            ).push(bare_declaration(visibility, type_view(ts@[i as int]))));
            assert(decl_views(out@) =~= decl_views(before).push(declaration_view(d)));
            assert(decl_views(out@) =~= start + bare_declarations(visibility, type_views(ts@.take(i + 1))));
        }
        i = i + 1;
    }
    proof {
        assert(ts@.take(i as int) =~= ts@);
    }
}

/// The declarations a group stands for in the namespace.
fn group_declarations_exec(g: DeclarationGroup) -> (r: Vec<Declaration>)
    ensures
        decl_views(r@) == group_declarations(g@),
{
    let ghost gv = g@;
    let DeclarationGroup { public, private, primary, parameters, impls } = g;
    let mut out: Vec<Declaration> = Vec::new();
    assert(decl_views(out@) =~= Seq::<DeclarationView>::empty());
    bare_declarations_exec(&mut out, &public, Visibility::Public);
    bare_declarations_exec(&mut out, &private, Visibility::Private);
    match primary {
        Some(p) => {
            proof {
                lemma_type_decl_name(p);
            }
            let ghost before = out@;
            out.push(Declaration::public(p).with_parameters(parameters).with_impls(impls));
            assert(decl_views(out@) =~= decl_views(before).push(declaration_view(out@.last())));
        },
        None => {},
    }
    assert(decl_views(out@) =~= group_declarations(gv));
    out
}

fn declares_name_exec(ds: &Vec<Declaration>, name: &Name) -> (r: bool)
    ensures
        r == declares_name(decl_views(ds@), name@),
{
    let mut i: usize = 0;
    while i < ds.len()
        invariant
            i <= ds@.len(),
            forall|k: int| 0 <= k < i ==> ds@[k].spec_name()@ != name@,
        decreases ds@.len() - i,
    {
        if *ds[i].name() == *name {
            proof {
                assert(decl_views(ds@)[i as int].name == name@);
            }
            return true;
        }
        i = i + 1;
    }
    proof {
        if declares_name(decl_views(ds@), name@) {
            let k = choose|k: int| 0 <= k < decl_views(ds@).len() && (#[trigger] decl_views(ds@)[k]).name == name@;
            assert(ds@[k].spec_name()@ == name@);
        }
    }
    false
}

proof fn lemma_push_step(acc: Seq<DeclarationView>, ds: Seq<DeclarationView>, i: int)
    requires
        0 <= i < ds.len(),
    ensures
        push_declarations(acc, ds.take(i + 1)) == match push_declarations(acc, ds.take(i)) {
            Err(e) => Err(e),
            Ok(a) => if declares_name(a, ds[i].name) {
                Err(LowerFailure::DuplicateDeclaration(ds[i].name))
            } else {
                Ok(a.push(ds[i]))
            },
        },
{
    assert(ds.take(i + 1).drop_last() =~= ds.take(i));
    assert(ds.take(i + 1).last() == ds[i]);
}

proof fn lemma_push_failure(acc: Seq<DeclarationView>, ds: Seq<DeclarationView>, k: int)
    requires
        0 <= k <= ds.len(),
        push_declarations(acc, ds.take(k)) is Err,
    ensures
        push_declarations(acc, ds) == push_declarations(acc, ds.take(k)),
    decreases ds.len(),
{
    if k == ds.len() {
        assert(ds.take(k) =~= ds);
    } else {
        assert(ds.drop_last().take(k) =~= ds.take(k));
        lemma_push_failure(acc, ds.drop_last(), k);
    }
}

/// Pushes declarations one by one, refusing a name already declared.
fn push_declarations_exec(acc: &mut Vec<Declaration>, ds: &Vec<Declaration>) -> (r: Result<(), SchemaError>)
    ensures
        match push_declarations(decl_views(old(acc)@), decl_views(ds@)) {
            Ok(a) => r is Ok && decl_views(final(acc)@) == a,
            Err(f) => r is Err && reports_lower(r->Err_0, f),
        },
{
    let ghost start = decl_views(acc@);
    let ghost all = decl_views(ds@);
    proof {
        assert(all.take(0) =~= Seq::<DeclarationView>::empty());
    }
    let mut i: usize = 0;
    while i < ds.len()
        invariant
            i <= ds@.len(),
            all == decl_views(ds@),
            start == decl_views(old(acc)@),
            push_declarations(start, all.take(i as int)) == Ok::<Seq<DeclarationView>, LowerFailure>(
                decl_views(acc@),
            ),
        decreases ds@.len() - i,
    {
        let d = crate::views::copy_declaration(&ds[i]);
        proof {
            lemma_push_step(start, all, i as int);
            assert(all[i as int] == declaration_view(ds@[i as int]));
            assert(d.spec_name()@ == all[i as int].name);
        }
        if declares_name_exec(acc, d.name()) {
            proof {
                lemma_push_failure(start, all, i + 1);
            }
            let name = d.name().as_str().to_owned();
            assert(name@ == all[i as int].name);
            assert(push_declarations(start, all) == Err::<Seq<DeclarationView>, LowerFailure>(
                LowerFailure::DuplicateDeclaration(all[i as int].name),
            ));
            return Err(SchemaError::DuplicateSourceDeclaration { name });
        }
        let ghost before = acc@;
        acc.push(d);
        proof {
            assert(decl_views(acc@) =~= decl_views(before).push(declaration_view(d)));
        }
        i = i + 1;
    }
    proof {
        assert(all.take(i as int) =~= all);
    }
    Ok(())
}

pub open spec fn blocks_view(bs: Seq<ImplBlock>) -> Seq<(Seq<char>, Seq<ImplRefView>)> {
    bs.map_values(|b: ImplBlock| block_view(b))
}

pub open spec fn state_of(ds: Seq<Declaration>, bs: Seq<ImplBlock>) -> NamespaceState {
    NamespaceState { declarations: decl_views(ds), blocks: blocks_view(bs) }
}

proof fn lemma_entries_step(sc: ScopeView, ns: Option<Seq<char>>, st: NamespaceState, es: Seq<SourceNamespaceEntry>, i: int)
    requires
        0 <= i < es.len(),
    ensures
        lower_entries(sc, ns, st, es.take(i + 1)) == match lower_entries(sc, ns, st, es.take(i)) {
            Err(f) => Err(f),
            Ok(s1) => lower_entry(sc, ns, s1, es[i]),
        },
{
    assert(es.take(i + 1).drop_last() =~= es.take(i));
    assert(es.take(i + 1)[i] == es[i]);
}

proof fn lemma_entries_failure(sc: ScopeView, ns: Option<Seq<char>>, st: NamespaceState, es: Seq<SourceNamespaceEntry>, k: int)
    requires
        0 <= k <= es.len(),
        lower_entries(sc, ns, st, es.take(k)) is Err,
    ensures
        lower_entries(sc, ns, st, es) == lower_entries(sc, ns, st, es.take(k)),
    decreases es.len(),
{
    if k == es.len() {
        assert(es.take(k) =~= es);
    } else {
        assert(es.drop_last().take(k) =~= es.take(k));
        lemma_entries_failure(sc, ns, st, es.drop_last(), k);
    }
}

fn lower_entries_exec(
    scope: &NameScope,
    ns: Option<&Name>,
    decls: &mut Vec<Declaration>,
    blocks: &mut Vec<ImplBlock>,
    entries: &Vec<SourceNamespaceEntry>,
) -> (r: Result<(), SchemaError>)
    ensures
        match lower_entries(scope@, namespace_view(ns), state_of(old(decls)@, old(blocks)@), entries@) {
            Ok(st) => r is Ok && state_of(final(decls)@, final(blocks)@) == st,
            Err(f) => r is Err && reports_lower(r->Err_0, f),
        },
    decreases entries, 0nat,
{
    let ghost start = state_of(decls@, blocks@);
    let ghost nsv = namespace_view(ns);
    proof {
        assert(entries@.take(0) =~= Seq::<SourceNamespaceEntry>::empty());
    }
    let mut i: usize = 0;
    while i < entries.len()
        invariant
            i <= entries@.len(),
            nsv == namespace_view(ns),
            start == state_of(old(decls)@, old(blocks)@),
            lower_entries(scope@, nsv, start, entries@.take(i as int)) == Ok::<NamespaceState, LowerFailure>(
                state_of(decls@, blocks@),
            ),
        decreases entries@.len() - i,
    {
        proof {
            vstd::std_specs::vec::axiom_vec_index_decreases(*entries, i as int);
            lemma_entries_step(scope@, nsv, start, entries@, i as int);
        }
        match lower_entry_exec(scope, ns, decls, blocks, &entries[i]) {
            Ok(()) => {},
            Err(e) => {
                proof {
                    lemma_entries_failure(scope@, nsv, start, entries@, i + 1);
                }
                return Err(e);
            },
        }
        i = i + 1;
    }
    proof {
        assert(entries@.take(i as int) =~= entries@);
    }
    Ok(())
}

fn lower_entry_exec(
    scope: &NameScope,
    ns: Option<&Name>,
    decls: &mut Vec<Declaration>,
    blocks: &mut Vec<ImplBlock>,
    e: &SourceNamespaceEntry,
) -> (r: Result<(), SchemaError>)
    ensures
        match lower_entry(scope@, namespace_view(ns), state_of(old(decls)@, old(blocks)@), *e) {
            Ok(st) => r is Ok && state_of(final(decls)@, final(blocks)@) == st,
            Err(f) => r is Err && reports_lower(r->Err_0, f),
        },
    decreases e, 0nat,
{
    match &e.value {
        SourceNamespaceEntryValue::Namespace(nested) => {
            let nested_name = e.name.qualified_under(ns);
            proof {
                assert(decreases_to!(*e => nested.entries));
            }
            lower_entries_exec(scope, Some(&nested_name), decls, blocks, &nested.entries)
        },
        _ => {
            if crate::reference::TypeReference::is_reserved_scalar_name(&e.name) {
                return Err(SchemaError::ReservedScalarTypeName { name: e.name.as_str().to_owned() });
            }
            let ghost blocks_before = blocks@;
            let impls_only = match &e.value {
                SourceNamespaceEntryValue::ImplsOnly => true,
                _ => false,
            };
            if impls_only && !e.impls.is_empty() {
                let block = ImplBlock::new(e.name.qualified_under(ns), lower_impls_exec(scope, ns, &e.impls));
                blocks.push(block);
                proof {
                    assert(blocks_view(blocks@) =~= blocks_view(blocks_before).push(block_view(block)));
                }
            }
            let group = match entry_group_exec(scope, ns, e) {
                Ok(g) => g,
                Err(f) => { return Err(f); },
            };
            let ds = group_declarations_exec(group);
            push_declarations_exec(decls, &ds)
        },
    }
}

// ---------------------------------------------------------------- streams and families, executed
pub open spec fn stream_views(ss: Seq<StreamDeclaration>) -> Seq<StreamView> {
    ss.map_values(|x: StreamDeclaration| stream_view(x))
}

pub open spec fn family_views(fs: Seq<FamilyDeclaration>) -> Seq<FamilyView> {
    fs.map_values(|f: FamilyDeclaration| family_view(f))
}

pub open spec fn streams_match(r: Result<Vec<StreamDeclaration>, SchemaError>, o: Result<Seq<StreamView>, LowerFailure>) -> bool {
    match o {
        Ok(ss) => r is Ok && stream_views(r->Ok_0@) == ss,
        Err(f) => r is Err && reports_lower(r->Err_0, f),
    }
}

pub open spec fn families_match(r: Result<Vec<FamilyDeclaration>, SchemaError>, o: Result<Seq<FamilyView>, LowerFailure>) -> bool {
    match o {
        Ok(fs) => r is Ok && family_views(r->Ok_0@) == fs,
        Err(f) => r is Err && reports_lower(r->Err_0, f),
    }
}

fn stream_named_in(acc: &Vec<StreamDeclaration>, name: &Name) -> (r: bool)
    ensures
        r == exists|i: int| 0 <= i < acc@.len() && (#[trigger] stream_views(acc@)[i]).name == name@,
{
    let mut i: usize = 0;
    while i < acc.len()
        invariant
            i <= acc@.len(),
            forall|k: int| 0 <= k < i ==> acc@[k].name@ != name@,
        decreases acc@.len() - i,
    {
        if acc[i].name == *name {
            assert(stream_views(acc@)[i as int].name == name@);
            return true;
        }
        i = i + 1;
    }
    proof {
        assert forall|k: int| 0 <= k < acc@.len() implies (#[trigger] stream_views(acc@)[k]).name != name@ by {
            assert(stream_views(acc@)[k] == stream_view(acc@[k]));
        }
    }
    false
}

fn add_streams_exec(acc: &mut Vec<StreamDeclaration>, batch: Vec<StreamDeclaration>) -> (r: Result<(), SchemaError>)
    ensures
        match add_streams(stream_views(old(acc)@), stream_views(batch@)) {
            Ok(ss) => r is Ok && stream_views(final(acc)@) == ss,
            Err(f) => r is Err && reports_lower(r->Err_0, f),
        },
{
    let ghost a = stream_views(acc@);
    let ghost b = stream_views(batch@);
    let ghost p = streams_named(a);
    let mut k: usize = 0;
    while k < batch.len()
        invariant
            k <= batch@.len(),
            a == stream_views(acc@),
            b == stream_views(batch@),
            p == streams_named(a),
            forall|j: int| 0 <= j < k ==> !#[trigger] p(b[j]),
        decreases batch@.len() - k,
    {
        if stream_named_in(acc, &batch[k].name) {
            proof {
                assert(b[k as int] == stream_view(batch@[k as int]));
                assert(p(b[k as int]));
                crate::lookup::lemma_first_match_at(b, p, k as int);
            }
            return Err(SchemaError::DuplicateSourceDeclaration { name: batch[k].name.as_str().to_owned() });
        }
        proof {
            assert(b[k as int] == stream_view(batch@[k as int]));
        }
        k = k + 1;
    }
    proof {
        crate::lookup::lemma_first_match_none(b, p);
    }
    let ghost before = acc@;
    let mut batch = batch;
    let ghost added = batch@;
    acc.append(&mut batch);
    assert(stream_views(acc@) =~= stream_views(before) + stream_views(added));
    Ok(())
}

fn family_clash_in(acc: &Vec<FamilyDeclaration>, f: &FamilyDeclaration) -> (r: Option<bool>)
    ensures
        r is Some <==> family_clashes(family_views(acc@))(family_view(*f)),
        r == Some(true) ==> name_taken(family_views(acc@), family_view(*f)),
        r == Some(false) ==> !name_taken(family_views(acc@), family_view(*f)),
{
    let ghost a = family_views(acc@);
    let mut name_clash = false;
    let mut table_clash = false;
    let mut i: usize = 0;
    while i < acc.len()
        invariant
            i <= acc@.len(),
            a == family_views(acc@),
            name_clash <==> exists|k: int| 0 <= k < i && (#[trigger] a[k]).name == family_view(*f).name,
            table_clash <==> exists|k: int| 0 <= k < i && (#[trigger] a[k]).table == family_view(*f).table,
        decreases acc@.len() - i,
    {
        proof {
            assert(a[i as int] == family_view(acc@[i as int]));
        }
        if acc[i].name == f.name {
            name_clash = true;
        }
        if acc[i].table == f.table {
            table_clash = true;
        }
        i = i + 1;
    }
    if name_clash {
        Some(true)
    } else if table_clash {
        Some(false)
    } else {
        None
    }
}

fn add_families_exec(acc: &mut Vec<FamilyDeclaration>, batch: Vec<FamilyDeclaration>) -> (r: Result<(), SchemaError>)
    ensures
        match add_families(family_views(old(acc)@), family_views(batch@)) {
            Ok(fs) => r is Ok && family_views(final(acc)@) == fs,
            Err(f) => r is Err && reports_lower(r->Err_0, f),
        },
{
    let ghost a = family_views(acc@);
    let ghost b = family_views(batch@);
    let ghost p = family_clashes(a);
    let mut k: usize = 0;
    while k < batch.len()
        invariant
            k <= batch@.len(),
            a == family_views(acc@),
            b == family_views(batch@),
            p == family_clashes(a),
            forall|j: int| 0 <= j < k ==> !#[trigger] p(b[j]),
        decreases batch@.len() - k,
    {
        proof {
            assert(b[k as int] == family_view(batch@[k as int]));
        }
        match family_clash_in(acc, &batch[k]) {
            Some(by_name) => {
                proof {
                    crate::lookup::lemma_first_match_at(b, p, k as int);
                }
                if by_name {
                    return Err(SchemaError::DuplicateFamilyName { name: batch[k].name.as_str().to_owned() });
                } else {
                    return Err(SchemaError::DuplicateFamilyTable { table: batch[k].table.as_str().to_owned() });
                }
            },
            None => {},
        }
        k = k + 1;
    }
    proof {
        crate::lookup::lemma_first_match_none(b, p);
    }
    let ghost before = acc@;
    let mut batch = batch;
    let ghost added = batch@;
    acc.append(&mut batch);
    assert(family_views(acc@) =~= family_views(before) + family_views(added));
    Ok(())
}

fn stream_of_exec(name: Name, body: &SourceStreamBody) -> (r: StreamDeclaration)
    ensures
        stream_view(r) == stream_of(name@, *body),
{
    StreamDeclaration::new(
        name,
        body.token.to_type_reference(),
        body.opened.to_type_reference(),
        body.event.to_type_reference(),
        body.close.to_type_reference(),
    )
}

proof fn lemma_streams_step(ns: Option<Seq<char>>, es: Seq<SourceNamespaceEntry>, i: int)
    requires
        0 <= i < es.len(),
    ensures
        namespace_streams(ns, es.take(i + 1)) == match namespace_streams(ns, es.take(i)) {
            Err(f) => Err(f),
            Ok(acc) => match entry_streams(ns, es[i]) {
                Err(f) => Err(f),
                Ok(batch) => add_streams(acc, batch),
            },
        },
        namespace_families(ns, es.take(i + 1)) == match namespace_families(ns, es.take(i)) {
            Err(f) => Err(f),
            Ok(acc) => match entry_families(ns, es[i]) {
                Err(f) => Err(f),
                Ok(batch) => add_families(acc, batch),
            },
        },
        namespace_type_names(ns, es.take(i + 1)) == namespace_type_names(ns, es.take(i)) + entry_type_names(
            ns,
            es[i],
        ),
{
    assert(es.take(i + 1).drop_last() =~= es.take(i));
    assert(es.take(i + 1)[i] == es[i]);
}

proof fn lemma_streams_failure(ns: Option<Seq<char>>, es: Seq<SourceNamespaceEntry>, k: int, families: bool)
    requires
        0 <= k <= es.len(),
        !families ==> namespace_streams(ns, es.take(k)) is Err,
        families ==> namespace_families(ns, es.take(k)) is Err,
    ensures
        !families ==> namespace_streams(ns, es) == namespace_streams(ns, es.take(k)),
        families ==> namespace_families(ns, es) == namespace_families(ns, es.take(k)),
    decreases es.len(),
{
    if k == es.len() {
        assert(es.take(k) =~= es);
    } else {
        assert(es.drop_last().take(k) =~= es.take(k));
        lemma_streams_failure(ns, es.drop_last(), k, families);
    }
}

fn namespace_streams_exec(ns: Option<&Name>, entries: &Vec<SourceNamespaceEntry>) -> (r: Result<Vec<StreamDeclaration>, SchemaError>)
    ensures
        streams_match(r, namespace_streams(namespace_view(ns), entries@)),
    decreases entries, 0nat,
{
    let ghost nsv = namespace_view(ns);
    let mut acc: Vec<StreamDeclaration> = Vec::new();
    proof {
        assert(entries@.take(0) =~= Seq::<SourceNamespaceEntry>::empty());
        assert(stream_views(acc@) =~= Seq::<StreamView>::empty());
    }
    let mut i: usize = 0;
    while i < entries.len()
        invariant
            i <= entries@.len(),
            nsv == namespace_view(ns),
            namespace_streams(nsv, entries@.take(i as int)) == Ok::<Seq<StreamView>, LowerFailure>(
                stream_views(acc@),
            ),
        decreases entries@.len() - i,
    {
        proof {
            vstd::std_specs::vec::axiom_vec_index_decreases(*entries, i as int);
            lemma_streams_step(nsv, entries@, i as int);
        }
        let batch = match entry_streams_exec(ns, &entries[i]) {
            Ok(batch) => batch,
            Err(e) => {
                proof {
                    lemma_streams_failure(nsv, entries@, i + 1, false);
                }
                return Err(e);
            },
        };
        match add_streams_exec(&mut acc, batch) {
            Ok(()) => {},
            Err(e) => {
                proof {
                    lemma_streams_failure(nsv, entries@, i + 1, false);
                }
                return Err(e);
            },
        }
        i = i + 1;
    }
    proof {
        assert(entries@.take(i as int) =~= entries@);
    }
    Ok(acc)
}

fn entry_streams_exec(ns: Option<&Name>, e: &SourceNamespaceEntry) -> (r: Result<Vec<StreamDeclaration>, SchemaError>)
    ensures
        streams_match(r, entry_streams(namespace_view(ns), *e)),
    decreases e, 0nat,
{
    match &e.value {
        SourceNamespaceEntryValue::Declaration(SourceDeclarationValue::Stream(body)) => {
            let mut out: Vec<StreamDeclaration> = Vec::new();
            out.push(stream_of_exec(e.name.qualified_under(ns), body));
            assert(stream_views(out@) =~= seq![stream_of(qualified(e.name@, namespace_view(ns)), *body)]);
            Ok(out)
        },
        SourceNamespaceEntryValue::Namespace(nested) => {
            let nested_name = e.name.qualified_under(ns);
            proof {
                assert(decreases_to!(*e => nested.entries));
            }
            namespace_streams_exec(Some(&nested_name), &nested.entries)
        },
        _ => {
            let out: Vec<StreamDeclaration> = Vec::new();
            assert(stream_views(out@) =~= Seq::<StreamView>::empty());
            Ok(out)
        },
    }
}

fn namespace_families_exec(ns: Option<&Name>, entries: &Vec<SourceNamespaceEntry>) -> (r: Result<Vec<FamilyDeclaration>, SchemaError>)
    ensures
        families_match(r, namespace_families(namespace_view(ns), entries@)),
    decreases entries, 0nat,
{
    let ghost nsv = namespace_view(ns);
    let mut acc: Vec<FamilyDeclaration> = Vec::new();
    proof {
        assert(entries@.take(0) =~= Seq::<SourceNamespaceEntry>::empty());
        assert(family_views(acc@) =~= Seq::<FamilyView>::empty());
    }
    let mut i: usize = 0;
    while i < entries.len()
        invariant
            i <= entries@.len(),
            nsv == namespace_view(ns),
            namespace_families(nsv, entries@.take(i as int)) == Ok::<Seq<FamilyView>, LowerFailure>(
                family_views(acc@),
            ),
        decreases entries@.len() - i,
    {
        proof {
            vstd::std_specs::vec::axiom_vec_index_decreases(*entries, i as int);
            lemma_streams_step(nsv, entries@, i as int);
        }
        let batch = match entry_families_exec(ns, &entries[i]) {
            Ok(batch) => batch,
            Err(e) => {
                proof {
                    lemma_streams_failure(nsv, entries@, i + 1, true);
                }
                return Err(e);
            },
        };
        match add_families_exec(&mut acc, batch) {
            Ok(()) => {},
            Err(e) => {
                proof {
                    lemma_streams_failure(nsv, entries@, i + 1, true);
                }
                return Err(e);
            },
        }
        i = i + 1;
    }
    proof {
        assert(entries@.take(i as int) =~= entries@);
    }
    Ok(acc)
}

fn entry_families_exec(ns: Option<&Name>, e: &SourceNamespaceEntry) -> (r: Result<Vec<FamilyDeclaration>, SchemaError>)
    ensures
        families_match(r, entry_families(namespace_view(ns), *e)),
    decreases e, 0nat,
{
    match &e.value {
        SourceNamespaceEntryValue::Declaration(SourceDeclarationValue::Family(body)) => {
            let mut out: Vec<FamilyDeclaration> = Vec::new();
            out.push(
                FamilyDeclaration::new(e.name.qualified_under(ns), body.record.clone(), body.table.clone(), body.key),
            );
            assert(family_views(out@) =~= seq![family_of(qualified(e.name@, namespace_view(ns)), *body)]);
            Ok(out)
        },
        SourceNamespaceEntryValue::Namespace(nested) => {
            let nested_name = e.name.qualified_under(ns);
            proof {
                assert(decreases_to!(*e => nested.entries));
            }
            namespace_families_exec(Some(&nested_name), &nested.entries)
        },
        _ => {
            let out: Vec<FamilyDeclaration> = Vec::new();
            assert(family_views(out@) =~= Seq::<FamilyView>::empty());
            Ok(out)
        },
    }
}

fn namespace_type_names_exec(ns: Option<&Name>, entries: &Vec<SourceNamespaceEntry>, out: &mut Vec<Name>)
    ensures
        names_view(final(out)@) == names_view(old(out)@) + namespace_type_names(namespace_view(ns), entries@),
    decreases entries, 0nat,
{
    let ghost nsv = namespace_view(ns);
    let ghost start = names_view(out@);
    proof {
        assert(entries@.take(0) =~= Seq::<SourceNamespaceEntry>::empty());
        assert(start + Seq::<Seq<char>>::empty() =~= start);
    }
    let mut i: usize = 0;
    while i < entries.len()
        invariant
            i <= entries@.len(),
            nsv == namespace_view(ns),
            start == names_view(old(out)@),
            names_view(out@) == start + namespace_type_names(nsv, entries@.take(i as int)),
        decreases entries@.len() - i,
    {
        proof {
            vstd::std_specs::vec::axiom_vec_index_decreases(*entries, i as int);
            lemma_streams_step(nsv, entries@, i as int);
        }
        let ghost before = names_view(out@);
        entry_type_names_exec(ns, &entries[i], out);
        proof {
            assert(names_view(out@) =~= start + namespace_type_names(nsv, entries@.take(i + 1)));
        }
        i = i + 1;
    }
    proof {
        assert(entries@.take(i as int) =~= entries@);
    }
}

fn entry_type_names_exec(ns: Option<&Name>, e: &SourceNamespaceEntry, out: &mut Vec<Name>)
    ensures
        names_view(final(out)@) == names_view(old(out)@) + entry_type_names(namespace_view(ns), *e),
    decreases e, 0nat,
{
    let ghost before = out@;
    match &e.value {
        SourceNamespaceEntryValue::Declaration(v) => {
            if v.is_type_declaration() {
                out.push(e.name.qualified_under(ns));
                assert(names_view(out@) =~= names_view(before) + entry_type_names(namespace_view(ns), *e));
            } else {
                assert(names_view(out@) =~= names_view(before) + entry_type_names(namespace_view(ns), *e));
            }
        },
        SourceNamespaceEntryValue::Namespace(nested) => {
            let nested_name = e.name.qualified_under(ns);
            proof {
                assert(decreases_to!(*e => nested.entries));
            }
            namespace_type_names_exec(Some(&nested_name), &nested.entries, out);
        },
        SourceNamespaceEntryValue::ImplsOnly => {
            assert(names_view(out@) =~= names_view(before) + entry_type_names(namespace_view(ns), *e));
        },
    }
}

// ---------------------------------------------------------------- roots, executed
fn variants_inline_names_exec(vs: &Vec<SourceVariantSignature>, out: &mut Vec<Name>)
    ensures
        names_view(final(out)@) == names_view(old(out)@) + variants_inline_names(vs@),
{
    let ghost start = names_view(out@);
    proof {
        assert(vs@.take(0) =~= Seq::<SourceVariantSignature>::empty());
        assert(start + Seq::<Seq<char>>::empty() =~= start);
    }
    let mut i: usize = 0;
    while i < vs.len()
        invariant
            i <= vs@.len(),
            start == names_view(old(out)@),
            names_view(out@) == start + variants_inline_names(vs@.take(i as int)),
        decreases vs@.len() - i,
    {
        let v = &vs[i];
        let ghost before = names_view(out@);
        let ghost raw = out@;
        match v.payload_source() {
            Some(SourceVariantPayload::Declaration(_)) => {
                out.push(v.name().clone());
                assert(names_view(out@) =~= names_view(raw).push(v.spec_name()@));
            },
            _ => {},
        }
        proof {
            assert(names_view(out@) =~= names_view(raw) + variant_inline_name(vs@[i as int]));
            let t = vs@.take(i + 1);
            assert(t.drop_last() =~= vs@.take(i as int));
            assert(t.last() == vs@[i as int]);
            assert(names_view(out@) =~= start + variants_inline_names(t));
        }
        i = i + 1;
    }
    proof {
        assert(vs@.take(i as int) =~= vs@);
    }
}

fn fields_inline_names_exec(fs: &Vec<SourceField>, out: &mut Vec<Name>)
    ensures
        names_view(final(out)@) == names_view(old(out)@) + fields_inline_names(fs@),
{
    let ghost start = names_view(out@);
    proof {
        assert(fs@.take(0) =~= Seq::<SourceField>::empty());
        assert(start + Seq::<Seq<char>>::empty() =~= start);
    }
    let mut i: usize = 0;
    while i < fs.len()
        invariant
            i <= fs@.len(),
            start == names_view(old(out)@),
            names_view(out@) == start + fields_inline_names(fs@.take(i as int)),
        decreases fs@.len() - i,
    {
        let f = &fs[i];
        let derived = match &f.value {
            SourceFieldValue::Derived => true,
            _ => false,
        };
        let ghost raw = out@;
        if crate::source::name_is_type_case(&f.name) && !derived {
            out.push(f.name.clone());
            assert(names_view(out@) =~= names_view(raw).push(f.name@));
        }
        proof {
            assert(names_view(out@) =~= names_view(raw) + field_inline_name(fs@[i as int]));
            let t = fs@.take(i + 1);
            assert(t.drop_last() =~= fs@.take(i as int));
            assert(t.last() == fs@[i as int]);
            assert(names_view(out@) =~= start + fields_inline_names(t));
        }
        i = i + 1;
    }
    proof {
        assert(fs@.take(i as int) =~= fs@);
    }
}

fn variants_field_names_exec(vs: &Vec<SourceVariantSignature>, out: &mut Vec<Name>)
    ensures
        names_view(final(out)@) == names_view(old(out)@) + variants_field_names(vs@),
{
    let ghost start = names_view(out@);
    proof {
        assert(vs@.take(0) =~= Seq::<SourceVariantSignature>::empty());
        assert(start + Seq::<Seq<char>>::empty() =~= start);
    }
    let mut i: usize = 0;
    while i < vs.len()
        invariant
            i <= vs@.len(),
            start == names_view(old(out)@),
            names_view(out@) == start + variants_field_names(vs@.take(i as int)),
        decreases vs@.len() - i,
    {
        let v = &vs[i];
        let ghost before = names_view(out@);
        match v.payload_source() {
            Some(SourceVariantPayload::Declaration(SourceDeclarationValue::Struct(body))) => {
                fields_inline_names_exec(&body.fields, out);
            },
            _ => {},
        }
        proof {
            let t = vs@.take(i + 1);
            assert(t.drop_last() =~= vs@.take(i as int));
            assert(t.last() == vs@[i as int]);
            assert(names_view(out@) =~= start + variants_field_names(t));
        }
        i = i + 1;
    }
    proof {
        assert(vs@.take(i as int) =~= vs@);
    }
}

fn root_names_exec(body: &SourceRootBody, out: &mut Vec<Name>, fields: bool)
    ensures
        !fields ==> names_view(final(out)@) == names_view(old(out)@) + root_inline_names(*body),
        fields ==> names_view(final(out)@) == names_view(old(out)@) + root_field_names(*body),
{
    match body {
        SourceRootBody::Enum(b) => {
            if fields {
                variants_field_names_exec(&b.variants, out);
            } else {
                variants_inline_names_exec(&b.variants, out);
            }
        },
        SourceRootBody::Application(_) => {
            assert(names_view(out@) =~= names_view(out@) + Seq::<Seq<char>>::empty());
        },
    }
}

proof fn lemma_public_declarations_failure(sc: ScopeView, vs: Seq<SourceVariantSignature>, k: int)
    requires
        0 <= k <= vs.len(),
        variants_public_declarations(sc, vs.take(k)) is Err,
    ensures
        variants_public_declarations(sc, vs) == variants_public_declarations(sc, vs.take(k)),
    decreases vs.len(),
{
    if k == vs.len() {
        assert(vs.take(k) =~= vs);
    } else {
        assert(vs.drop_last().take(k) =~= vs.take(k));
        lemma_public_declarations_failure(sc, vs.drop_last(), k);
    }
}

/// The declarations a root's variants lift into the namespace.
fn root_public_declarations_exec(scope: &NameScope, body: &SourceRootBody) -> (r: Result<Vec<Declaration>, SchemaError>)
    ensures
        match root_public_declarations(scope@, *body) {
            Ok(ds) => r is Ok && decl_views(r->Ok_0@) == ds,
            Err(f) => r is Err && reports_lower(r->Err_0, f),
        },
{
    let mut out: Vec<Declaration> = Vec::new();
    assert(decl_views(out@) =~= Seq::<DeclarationView>::empty());
    let vs = match body {
        SourceRootBody::Enum(b) => &b.variants,
        SourceRootBody::Application(_) => {
            return Ok(out);
        },
    };
    proof {
        assert(vs@.take(0) =~= Seq::<SourceVariantSignature>::empty());
    }
    let mut i: usize = 0;
    while i < vs.len()
        invariant
            i <= vs@.len(),
            body matches SourceRootBody::Enum(b) && b.variants == *vs,
            variants_public_declarations(scope@, vs@.take(i as int)) == Ok::<Seq<DeclarationView>, LowerFailure>(
                decl_views(out@),
            ),
        decreases vs@.len() - i,
    {
        proof {
            let t = vs@.take(i + 1);
            assert(t.drop_last() =~= vs@.take(i as int));
            assert(t.last() == vs@[i as int]);
        }
        match variant_public_exec(scope, None, &vs[i]) {
            Ok(g) => {
                let ds = group_declarations_exec(g);
                let ghost before = out@;
                let mut ds = ds;
                let ghost added = ds@;
                out.append(&mut ds);
                assert(decl_views(out@) =~= decl_views(before) + decl_views(added));
            },
            Err(e) => {
                proof {
                    lemma_public_declarations_failure(scope@, vs@, i + 1);
                }
                return Err(e);
            },
        }
        i = i + 1;
    }
    proof {
        assert(vs@.take(i as int) =~= vs@);
    }
    Ok(out)
}

pub open spec fn root_matches(r: Result<Root, SchemaError>, o: Result<crate::views::RootView, LowerFailure>) -> bool {
    match o {
        Ok(v) => r is Ok && root_view(r->Ok_0) == v,
        Err(f) => r is Err && reports_lower(r->Err_0, f),
    }
}

fn lower_root_exec(scope: &NameScope, root_scope: &NameScope, root: &SourceRootEnum) -> (r: Result<Root, SchemaError>)
    ensures
        root_matches(r, lower_root(scope@, root_scope@, root.name@, root.body)),
{
    proof {
        reveal_strlit("root");
    }
    match &root.body {
        SourceRootBody::Enum(b) => Ok(
            Root::Enum(lower_enum_exec(root_scope, true, None, root.name.clone(), &b.variants)),
        ),
        SourceRootBody::Application(reference) => match scope.resolve_reference(None, reference) {
            TypeReference::Application { head, arguments } => Ok(
                Root::application(RootApplication::new(root.name.clone(), head, arguments)),
            ),
            _ => {
                let found = reference.to_schema_text();
                let position = "root";
                assert(position@ =~= seq!['r', 'o', 'o', 't']);
                Err(SchemaError::ExpectedRootApplication { position, found })
            },
        },
    }
}

// ---------------------------------------------------------------- generics, relations, scope
fn lower_generics_exec(scope: &NameScope, gs: &Vec<SourceGenericDefinition>) -> (r: Vec<GenericDefinition>)
    ensures
        r@.map_values(|g: GenericDefinition| (g.spec_name()@, builtin_view(g.spec_builtin()))) == gs@.map_values(
            |g: SourceGenericDefinition| lower_generic(scope@, g),
        ),
{
    proof {
        reveal_strlit("Frame");
    }
    let mut out: Vec<GenericDefinition> = Vec::new();
    let mut i: usize = 0;
    while i < gs.len()
        invariant
            i <= gs@.len(),
            out@.len() == i,
            forall|k: int| 0 <= k < i ==> ((#[trigger] out@[k]).spec_name()@, builtin_view(out@[k].spec_builtin()))
                == lower_generic(scope@, gs@[k]),
        decreases gs@.len() - i,
    {
        let g = &gs[i];
        let builtin = match &g.builtin {
            SourceGenericBuiltin::Vector => GenericBuiltin::Vector,
            SourceGenericBuiltin::Optional => GenericBuiltin::Optional,
            SourceGenericBuiltin::ScopeOf => GenericBuiltin::ScopeOf,
            SourceGenericBuiltin::MapOf => GenericBuiltin::MapOf,
            SourceGenericBuiltin::FixedBytes => GenericBuiltin::FixedBytes,
            SourceGenericBuiltin::Frame { parameters, body } => {
                let frame_name = Name::new("Frame");
                proof {
                    reveal_strlit("Frame");
                }
                assert("Frame"@ =~= frame_word());
                assert(frame_name@ =~= frame_word());
                let e = lower_enum_exec(scope, false, None, frame_name, &body.variants);
                let parameters = crate::schema::copy_names(parameters.as_slice());
                GenericBuiltin::Frame(GenericFrame::new(parameters, e.variants))
            },
        };
        let d = GenericDefinition::new(g.name.clone(), builtin);
        out.push(d);
        proof {
            assert(builtin_view(d.spec_builtin()) == lower_generic(scope@, gs@[i as int]).1);
        }
        i = i + 1;
    }
    assert(out@.map_values(|g: GenericDefinition| (g.spec_name()@, builtin_view(g.spec_builtin())))
        =~= gs@.map_values(|g: SourceGenericDefinition| lower_generic(scope@, g)));
    out
}

fn lower_relations_exec(rs: &Vec<SourceRelation>) -> (r: Vec<RelationDeclaration>)
    ensures
        r@.map_values(|x: RelationDeclaration| relation_view(x)) == rs@.map_values(
            |x: SourceRelation| relation_source_view(x),
        ),
{
    let mut out: Vec<RelationDeclaration> = Vec::new();
    let mut i: usize = 0;
    while i < rs.len()
        invariant
            i <= rs@.len(),
            out@.len() == i,
            forall|k: int| 0 <= k < i ==> relation_view(#[trigger] out@[k]) == relation_source_view(rs@[k]),
        decreases rs@.len() - i,
    {
        let values = match &rs[i] {
            SourceRelation::Equivalence(e) => &e.values,
        };
        let mut lowered: Vec<RelationValue> = Vec::new();
        let mut j: usize = 0;
        while j < values.len()
            invariant
                j <= values@.len(),
                lowered@.len() == j,
                forall|k: int| 0 <= k < j ==> names_view((#[trigger] lowered@[k]).spec_path()) == names_view(
                    values@[k].path@,
                ),
            decreases values@.len() - j,
        {
            lowered.push(RelationValue::new(crate::schema::copy_names(values[j].path.as_slice())));
            j = j + 1;
        }
        let d = RelationDeclaration::Equivalence(lowered);
        proof {
            assert(relation_view(d) =~= relation_source_view(rs@[i as int]));
        }
        out.push(d);
        i = i + 1;
    }
    assert(out@.map_values(|x: RelationDeclaration| relation_view(x)) =~= rs@.map_values(
        |x: SourceRelation| relation_source_view(x),
    ));
    out
}

fn copy_shapes(gs: &Vec<(Name, GenericShape)>) -> (r: Vec<(Name, GenericShape)>)
    ensures
        generics_view(r@) == generics_view(gs@),
{
    let mut out: Vec<(Name, GenericShape)> = Vec::new();
    let mut i: usize = 0;
    while i < gs.len()
        invariant
            i <= gs@.len(),
            out@.len() == i,
            forall|k: int| 0 <= k < i ==> (#[trigger] out@[k]).0@ == gs@[k].0@ && out@[k].1 == gs@[k].1,
        decreases gs@.len() - i,
    {
        out.push((gs[i].0.clone(), gs[i].1));
        i = i + 1;
    }
    assert(generics_view(out@) =~= generics_view(gs@));
    out
}

/// The scope a source's references resolve in.
fn type_scope_exec(src: &SchemaSource) -> (r: NameScope)
    ensures
        r@ == type_scope(*src),
{
    let mut names: Vec<Name> = Vec::new();
    assert(names_view(names@) =~= Seq::<Seq<char>>::empty());
    namespace_type_names_exec(None, &src.namespace.entries, &mut names);
    root_names_exec(&src.input.body, &mut names, false);
    root_names_exec(&src.output.body, &mut names, false);
    root_names_exec(&src.input.body, &mut names, true);
    root_names_exec(&src.output.body, &mut names, true);
    let mut generics: Vec<(Name, GenericShape)> = Vec::new();
    let gs = &src.generics.entries;
    let mut i: usize = 0;
    while i < gs.len()
        invariant
            i <= gs@.len(),
            generics@.len() == i,
            forall|k: int| 0 <= k < i ==> (#[trigger] generics@[k]).0@ == gs@[k].name@ && generics@[k].1
                == shape_of(gs@[k].builtin),
        decreases gs@.len() - i,
    {
        generics.push((gs[i].name.clone(), GenericShape::of_builtin(&gs[i].builtin)));
        i = i + 1;
    }
    let r = NameScope::new(names, generics);
    assert(r@.names =~= type_scope(*src).names);
    assert(r@.generics =~= type_scope(*src).generics);
    r
}

fn declaration_names(ds: &Vec<Declaration>) -> (r: Vec<Name>)
    ensures
        names_view(r@) == decl_views(ds@).map_values(|d: DeclarationView| d.name),
{
    let mut out: Vec<Name> = Vec::new();
    let mut i: usize = 0;
    while i < ds.len()
        invariant
            i <= ds@.len(),
            out@.len() == i,
            forall|k: int| 0 <= k < i ==> (#[trigger] out@[k])@ == ds@[k].spec_name()@,
        decreases ds@.len() - i,
    {
        out.push(ds[i].name().clone());
        i = i + 1;
    }
    assert(names_view(out@) =~= decl_views(ds@).map_values(|d: DeclarationView| d.name));
    out
}

// ---------------------------------------------------------------- the whole source, executed
/// A schema holds what a source lowered to, under the given identity and
/// imports.
pub open spec fn lowered_into(
    t: TrueSchema,
    identity: SchemaIdentity,
    imports: Seq<ImportDeclaration>,
    resolved_imports: Seq<ResolvedImport>,
    l: LoweredView,
) -> bool {
    &&& t.spec_identity() == identity
    &&& t.spec_imports() == imports
    &&& t.spec_resolved_imports() == resolved_imports
    &&& schema_view(t).generics == l.generics
    &&& schema_view(t).namespace == l.namespace
    &&& schema_view(t).impl_blocks == l.impl_blocks
    &&& schema_view(t).streams == l.streams
    &&& schema_view(t).families == l.families
    &&& schema_view(t).input == l.input
    &&& schema_view(t).output == l.output
    &&& schema_view(t).relations == l.relations
}

/// What the schema checks give for a schema, in the order they run:
/// families resolve, product components are named, arities match, impl
/// targets resolve without duplicate entries.
pub open spec fn checked(t: TrueSchema, r: Result<TrueSchema, SchemaError>) -> bool {
    match t.spec_first_dead_family() {
        Some(k) => r matches Err(SchemaError::FamilyRecordNotFound { family, record }) && family@
            == t.spec_families()[k].name@ && record@ == t.spec_families()[k].record@,
        None => match t.spec_first_defective_product() {
            Some(k) => r is Err && crate::schema::reports_defect(
                r->Err_0,
                crate::checks::declaration_defect(t.spec_namespace()[k]).unwrap(),
            ),
            None => match t.spec_arity_defect() {
                Some(d) => r is Err && crate::arity::reports_arity(r->Err_0, d),
                None => match t.spec_first_unresolved_block() {
                    Some(k) => r matches Err(SchemaError::UnresolvedImplTarget { name }) && name@
                        == t.spec_impl_blocks()[k].spec_target()@,
                    None => match crate::checks::first_duplicate(t.spec_referenced()) {
                        Some(i) => r matches Err(SchemaError::DuplicateImplEntry { target, entry })
                            && target@ == t.spec_referenced()[i].0 && entry@ == crate::impls::label_of(
                            t.spec_referenced()[i].1,
                        ),
                        None => r == Ok::<TrueSchema, SchemaError>(t),
                    },
                },
            },
        },
    }
}

fn checks_exec(t: TrueSchema) -> (r: Result<TrueSchema, SchemaError>)
    ensures
        checked(t, r),
{
    let t = match t.families_verified() {
        Ok(t) => t,
        Err(e) => { return Err(e); },
    };
    let t = match t.product_components_verified() {
        Ok(t) => t,
        Err(e) => { return Err(e); },
    };
    let t = match t.arities_verified() {
        Ok(t) => t,
        Err(e) => { return Err(e); },
    };
    t.impls_verified()
}

impl SourceImports {
    /// The import declarations: each local name with its source read as a
    /// reference.
    pub fn to_schema_imports(&self) -> (r: Vec<ImportDeclaration>)
        ensures
            r@.len() == self.entries@.len(),
            forall|k: int| 0 <= k < r@.len() ==> (#[trigger] r@[k]).local_name == self.entries@[k].local_name
                && r@[k].source@ == source_type(self.entries@[k].source@),
    {
        let mut out: Vec<ImportDeclaration> = Vec::new();
        let mut i: usize = 0;
        while i < self.entries.len()
            invariant
                i <= self.entries@.len(),
                out@.len() == i,
                forall|k: int| 0 <= k < i ==> (#[trigger] out@[k]).local_name == self.entries@[k].local_name
                    && out@[k].source@ == source_type(self.entries@[k].source@),
            decreases self.entries@.len() - i,
        {
            let entry = &self.entries[i];
            out.push(ImportDeclaration {
                local_name: entry.local_name.clone(),
                source: entry.source.to_type_reference(),
            });
            i = i + 1;
        }
        out
    }
}

impl SchemaSource {
    /// The streams the namespace declares, in order, qualified by their
    /// namespaces; two streams of one name are refused.
    pub fn stream_declarations(&self) -> (r: Result<Vec<StreamDeclaration>, SchemaError>)
        ensures
            streams_match(r, namespace_streams(None, self.namespace.entries@)),
    {
        namespace_streams_exec(None, &self.namespace.entries)
    }

    /// The families the namespace declares, in order, qualified by their
    /// namespaces; two families of one name, or of one table, are refused.
    pub fn family_declarations(&self) -> (r: Result<Vec<FamilyDeclaration>, SchemaError>)
        ensures
            families_match(r, namespace_families(None, self.namespace.entries@)),
    {
        namespace_families_exec(None, &self.namespace.entries)
    }

    /// Lower this source, whose imports are given already read and
    /// resolved, into a true schema: every name resolves in its scope, inline
    /// declarations are lifted, and the result must pass the schema checks.
    pub fn to_true_schema(
        &self,
        identity: SchemaIdentity,
        imports: Vec<ImportDeclaration>,
        resolved_imports: Vec<ResolvedImport>,
    ) -> (r: Result<TrueSchema, SchemaError>)
        ensures
            lower_source(*self) matches Err(f) ==> r is Err && reports_lower(r->Err_0, f),
            lower_source(*self) matches Ok(l) ==> exists|t: TrueSchema|
                lowered_into(t, identity, imports@, resolved_imports@, l) && #[trigger] checked(t, r),
    {
        let scope = type_scope_exec(self);
        let ghost sc = scope@;
        let ghost es = self.namespace.entries@;
        let generics = lower_generics_exec(&scope, &self.generics.entries);
        let mut declarations: Vec<Declaration> = Vec::new();
        let mut blocks: Vec<ImplBlock> = Vec::new();
        proof {
            assert(decl_views(declarations@) =~= Seq::<DeclarationView>::empty());
            assert(blocks_view(blocks@) =~= Seq::<(Seq<char>, Seq<ImplRefView>)>::empty());
            assert(state_of(declarations@, blocks@) == NamespaceState {
                declarations: Seq::empty(),
                blocks: Seq::empty(),
            });
        }
        match lower_entries_exec(&scope, None, &mut declarations, &mut blocks, &self.namespace.entries) {
            Ok(()) => {},
            Err(e) => { return Err(e); },
        }
        let inputs = match root_public_declarations_exec(&scope, &self.input.body) {
            Ok(ds) => ds,
            Err(e) => { return Err(e); },
        };
        match push_declarations_exec(&mut declarations, &inputs) {
            Ok(()) => {},
            Err(e) => { return Err(e); },
        }
        let outputs = match root_public_declarations_exec(&scope, &self.output.body) {
            Ok(ds) => ds,
            Err(e) => { return Err(e); },
        };
        match push_declarations_exec(&mut declarations, &outputs) {
            Ok(()) => {},
            Err(e) => { return Err(e); },
        }
        let streams = match namespace_streams_exec(None, &self.namespace.entries) {
            Ok(s) => s,
            Err(e) => { return Err(e); },
        };
        let families = match namespace_families_exec(None, &self.namespace.entries) {
            Ok(f) => f,
            Err(e) => { return Err(e); },
        };
        let root_scope = NameScope::new(declaration_names(&declarations), copy_shapes(&scope.generics));
        let input = match lower_root_exec(&scope, &root_scope, &self.input) {
            Ok(root) => root,
            Err(e) => { return Err(e); },
        };
        let output = match lower_root_exec(&scope, &root_scope, &self.output) {
            Ok(root) => root,
            Err(e) => { return Err(e); },
        };
        let relations = lower_relations_exec(&self.relations.entries);
        let ghost imports_view = imports@;
        let ghost resolved_view = resolved_imports@;
        let schema = TrueSchema::new(
            identity,
            imports,
            resolved_imports,
            generics,
            input,
            output,
            declarations,
            streams,
            families,
            relations,
        ).with_impl_blocks(blocks);
        proof {
            let l = lower_source(*self)->Ok_0;
            assert(schema_view(schema).generics =~= l.generics);
            assert(schema_view(schema).namespace =~= l.namespace);
            assert(schema_view(schema).impl_blocks =~= l.impl_blocks);
            assert(schema_view(schema).streams =~= l.streams);
            assert(schema_view(schema).families =~= l.families);
            assert(schema_view(schema).relations =~= l.relations);
            assert(lowered_into(schema, identity, imports_view, resolved_view, l));
        }
        let ghost witness = schema;
        let r = checks_exec(schema);
        proof {
            assert(checked(witness, r));
        }
        r
    }
}

impl SourceRootBody {
    /// The names of the variants that declare their payload inline.
    pub fn inline_declaration_names(&self) -> (r: Vec<Name>)
        ensures
            names_view(r@) == root_inline_names(*self),
    {
        let mut out: Vec<Name> = Vec::new();
        assert(names_view(out@) =~= Seq::<Seq<char>>::empty());
        root_names_exec(self, &mut out, false);
        assert(names_view(out@) =~= root_inline_names(*self));
        out
    }

    /// The type-named fields that inline struct payloads declare.
    pub fn public_inline_field_declaration_names(&self) -> (r: Vec<Name>)
        ensures
            names_view(r@) == root_field_names(*self),
    {
        let mut out: Vec<Name> = Vec::new();
        assert(names_view(out@) =~= Seq::<Seq<char>>::empty());
        root_names_exec(self, &mut out, true);
        assert(names_view(out@) =~= root_field_names(*self));
        out
    }
}


/// In a root enum, a unit variant spelled as a type the root's scope
/// declares carries that type as its payload; a unit variant of a name the
/// scope does not declare, and every unit variant of a namespace enum,
/// stays a unit variant. Each variant keeps its name and its place.
pub proof fn lemma_root_unit_variants_carry_declared_types(
    sc: ScopeView,
    root_scope: ScopeView,
    name: Seq<char>,
    body: crate::source::SourceEnumBody,
    ns: Option<Seq<char>>,
    k: int,
)
    requires
        0 <= k < body.variants@.len(),
        body.variants@[k] is Unit,
    ensures
        lower_root(sc, root_scope, name, crate::source::SourceRootBody::Enum(body)) matches Ok(
            crate::views::RootView::Enum(e),
        ) && e.variants.len() == body.variants@.len() && e.variants[k].name == body.variants@[k].spec_name()@
            && e.variants[k].payload == (if scope_has(root_scope, body.variants@[k].spec_name()@) {
            Some(resolve_name_in(root_scope, None, body.variants@[k].spec_name()@))
        } else {
            None
        }),
        lower_enum(sc, false, ns, name, body.variants@).variants[k].payload is None,
{
}
} // verus!
