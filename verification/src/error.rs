//! The one typed error of schema lowering, checking, and editing.
use vstd::prelude::*;

verus! {

/// Everything that can go wrong lowering, checking, or editing a schema.
#[derive(Clone, Debug)]
pub enum SchemaError {
    Nota(String),
    NotaDecode(String),
    StructuralMacroParse(String),
    ArchiveEncode,
    ArchiveDecode,
    ExpectedRootObjectCount {
        expected: &'static str,
        found: usize,
    },
    ExpectedDelimiter { expected: &'static str },
    RetiredStructFieldSyntax { found: String },
    RedundantExplicitFieldRole { found: String, type_ident: String },
    ExplicitFieldOnUniqueProductComponent { field: String, type_ident: String },
    DuplicateImplicitProductComponent { type_ident: String },
    DuplicateExplicitProductComponentIdentity { field: String, type_ident: String },
    OptionalVariantPayload {
        enum_name: String,
        variant_name: String,
    },
    SameNamedVariantPayload {
        enum_name: String,
        variant_name: String,
        payload_type: String,
    },
    Io { path: String, reason: String },
    MalformedSchemaPath { path: String },
    ExpectedSymbol { found: String },
    ExpectedEnumVariant,
    MalformedSchemaNode { found: String },
    UnsupportedMacroNodeStructure {
        position: String,
        expected: Vec<String>,
        found: String,
    },
    EmptyTypeReference,
    UnknownTypeReferenceForm { head: String, argument_count: usize },
    ReservedScalarTypeName { name: String },
    MalformedImportSource { found: String },
    MalformedImportTarget { target: String },
    UnresolvedImportCrate { crate_name: String },
    ImportedTypeNotFound {
        crate_name: String,
        module: String,
        type_ident: String,
    },
    ExpectedRawDeclarationName { found: String },
    RawDeclarationNameMismatch { key: String, declared: String },
    ExpectedRawFieldPairCount { declaration: String, found: usize },
    ExpectedSyntaxDeclaration { found: String },
    ExpectedSyntaxReference { found: String },
    ExpectedTypeReferenceLeaf { found: String },
    ExpectedSyntaxReferenceArity {
        form: &'static str,
        expected: &'static str,
        found: usize,
    },
    ExpectedSyntaxEnumVariant { found: String },
    UngroupedVariantPayloadApplication { variant: String, head: String },
    DuplicateSourceDeclaration { name: String },
    DuplicateDeclaration {
        name: String,
        first_site: &'static str,
        second_site: &'static str,
    },
    SchemaEditTargetNotFound { type_ident: String },
    SchemaEditExpectedStruct { type_ident: String },
    SchemaEditExpectedEnum { type_ident: String },
    SchemaEditDuplicateField {
        type_ident: String,
        field_name: String,
    },
    SchemaEditDuplicateVariant {
        type_ident: String,
        variant_name: String,
    },
    SchemaEditFieldNotFound {
        type_ident: String,
        field_name: String,
    },
    SchemaEditIdentityMismatch { expected: String, found: String },
    DuplicateTypeParameter {
        declaration: String,
        parameter: String,
    },
    ExpectedTypeParameterName { declaration: String, found: String },
    GenericArityMismatch {
        head: String,
        expected: usize,
        found: usize,
    },
    /// A root Input/Output position did not decode to an enum body or dotted
    /// application form (`Head.(Arg …)`). A bare declared-name root, built-in
    /// collection, or any other non-application body is not legal.
    ExpectedRootApplication {
        position: &'static str,
        found: String,
    },
    UnverifiedImplReference {
        target: String,
        kind: &'static str,
        signature: String,
    },
    /// An impls-block entry `TypeName.[ … ]` names a target type that is not
    /// declared anywhere in the schema. An impl block must attach its catalog
    /// to a type declared in the types (or generics) block; an unresolved
    /// target is not an accepted free-standing impl over an arbitrary name.
    UnresolvedImplTarget { name: String },
    /// A target type carries the same impl entry twice — the same trait
    /// marker repeated, or the same method signature repeated — across one or
    /// more impls-block entries. Distinct entries for one target compose; an
    /// identical entry is a true duplicate and a typed error.
    DuplicateImplEntry { target: String, entry: String },
    /// A trait atom inside an impl catalog is not a PascalCase
    /// type-name. Trait references obey the same naming gate as every other
    /// type reference: a lowercase or otherwise non-type-name atom in a trait
    /// position is a typed error, not a silently-accepted trait.
    NonTypeNameTrait { found: String },
    /// A rename through the `NameTable` named an identifier the table does not
    /// hold. Renaming preserves an existing identifier, so the identifier must
    /// already be bound before it can be renamed.
    NameTableIdentifierAbsent { identifier: String },
    /// A rename through the `NameTable` tried to assign a name already held by a
    /// different identifier of the same kind. The table's identifier-to-name
    /// mapping is injective per kind, so a collision is a typed error rather
    /// than a silent double-binding of one name.
    NameTableNameConflict {
        kind: crate::identifier::DeclarationKind,
        name: String,
        holder: String,
        requested: String,
    },
    /// A `CoreSchema` projection met an identifier the `NameTable` does not
    /// hold. The substrate carries only identifiers, so every one of them must
    /// resolve through the table to produce the human-facing view; a miss means
    /// the substrate and the table have diverged.
    CoreProjectionNameAbsent { identifier: String },
    /// A source atom read as a local declaration or reference name was not a
    /// well-formed local name: the `Name` namespace machinery (`local_part`,
    /// `qualified_under`) assumes a source-derived local name carries no `:`
    /// namespace separator and no empty segment, and this atom violated that.
    MalformedLocalName { name: String },
    /// A declared family names a record type that resolves to nothing.
    FamilyRecordNotFound { family: String, record: String },
    DuplicateFamilyName { name: String },
    DuplicateFamilyTable { table: String },
    /// A family closure was requested for a name that is no family root.
    FamilyRootNotFound { name: String },
    /// A family closure reached a type name that resolves to nothing.
    FamilyReferenceNotFound { family: String, name: String },
    /// A map-shaped schema node held an odd number of objects.
    ExpectedEvenMapEntries { found: usize },
    /// A relation path segment names no declaration in the loaded whole.
    RelationSegmentUnresolved { segment: String },
}

} // verus!
