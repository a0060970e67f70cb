//! Source references, name resolution, and lowering a schema source.

use schema_language::error::SchemaError;
use schema_language::name::{Name, SchemaIdentity, TableName};
use schema_language::reference::{ApplicationHead, TypeReference};
use schema_language::resolve::{GenericShape, NameScope};
use schema_language::schema::{FamilyKey, StreamRelation, TypeDeclaration};
use schema_language::source::{
    SchemaSource, SourceDeclarationValue, SourceEnumBody, SourceFamilyBody, SourceField,
    SourceFieldIdentity, SourceFieldValue, SourceGenericBuiltin, SourceGenericDefinition,
    SourceGenerics, SourceImplCatalog, SourceImport, SourceImports, SourceNamespace,
    SourceNamespaceEntry, SourceNamespaceEntryValue, SourceReference, SourceRelations,
    SourceRootBody, SourceRootEnum, SourceStreamBody, SourceStructBody, SourceVariantPayload,
    SourceVariantSignature,
};
use schema_language::text::parse_u64_text;
use schema_language::true_schema::{Root, TrueSchema};

fn name(text: &str) -> Name {
    Name::new(text)
}

fn plain(text: &str) -> SourceReference {
    SourceReference::Plain(name(text))
}

fn entry(entry_name: &str, value: SourceNamespaceEntryValue) -> SourceNamespaceEntry {
    SourceNamespaceEntry {
        name: name(entry_name),
        parameters: Vec::new(),
        value,
        impls: SourceImplCatalog::empty(),
    }
}

fn declaration(entry_name: &str, value: SourceDeclarationValue) -> SourceNamespaceEntry {
    entry(entry_name, SourceNamespaceEntryValue::Declaration(value))
}

fn struct_of(fields: Vec<SourceField>) -> SourceDeclarationValue {
    SourceDeclarationValue::Struct(SourceStructBody::new(fields))
}

fn enum_of(variants: Vec<SourceVariantSignature>) -> SourceDeclarationValue {
    SourceDeclarationValue::Enum(SourceEnumBody::new(variants))
}

fn root(root_name: &str, variants: Vec<SourceVariantSignature>) -> SourceRootEnum {
    SourceRootEnum { name: name(root_name), body: SourceRootBody::Enum(SourceEnumBody::new(variants)) }
}

fn source_with(
    generics: Vec<SourceGenericDefinition>,
    input: SourceRootEnum,
    output: SourceRootEnum,
    entries: Vec<SourceNamespaceEntry>,
) -> SchemaSource {
    SchemaSource {
        imports: SourceImports::empty(),
        generics: SourceGenerics { entries: generics },
        input,
        output,
        namespace: SourceNamespace { entries },
        relations: SourceRelations::empty(),
    }
}

fn demo_entries() -> Vec<SourceNamespaceEntry> {
    vec![
        declaration(
            "Topic",
            enum_of(vec![
                SourceVariantSignature::from_name(name("News")),
                SourceVariantSignature::from_name(name("Sport")),
            ]),
        ),
        declaration(
            "Message",
            struct_of(vec![SourceField::derived(name("Topic")), SourceField::derived(name("String"))]),
        ),
    ]
}

fn demo_source() -> SchemaSource {
    source_with(
        Vec::new(),
        root(
            "Input",
            vec![SourceVariantSignature::from_payload(
                name("Submit"),
                SourceVariantPayload::Reference(plain("Message")),
            )],
        ),
        root("Output", vec![SourceVariantSignature::from_name(name("Done"))]),
        demo_entries(),
    )
}

fn lower(source: &SchemaSource) -> Result<TrueSchema, SchemaError> {
    source.to_true_schema(SchemaIdentity::new("demo:lib", "0.1.0"), Vec::new(), Vec::new())
}

fn declared_names(schema: &TrueSchema) -> Vec<String> {
    schema.namespace().iter().map(|d| d.name().as_str().to_owned()).collect()
}

// ---------------------------------------------------------------- references

#[test]
fn source_references_read_scalars_and_applications() {
    assert_eq!(plain("String").to_type_reference(), TypeReference::String);
    assert_eq!(plain("Topic").to_type_reference(), TypeReference::new("Topic"));
    let map = SourceReference::MapOf(Box::new(plain("String")), Box::new(plain("Topic")));
    assert_eq!(map.to_schema_text(), "Map.(String Topic)");
    assert_eq!(map.derived_field_name().as_str(), "topic_by_string");
    let app = SourceReference::Application { head: name("Pair"), arguments: vec![plain("Integer"), plain("Boolean")] };
    assert_eq!(
        app.to_type_reference(),
        TypeReference::Application {
            head: ApplicationHead::Local(name("Pair")),
            arguments: vec![TypeReference::Integer, TypeReference::Boolean],
        }
    );
    assert_eq!(app.rendered_schema_text(), "Pair.(Integer Boolean)");
    assert_eq!(SourceReference::FixedBytes(16).to_schema_text(), "Bytes.16");
    assert_eq!(plain("Topic").plain_name().map(|n| n.as_str()), Some("Topic"));
    assert!(map.plain_name().is_none());
}

#[test]
fn lowered_references_read_back_as_source() {
    let lowered = TypeReference::Vector(Box::new(TypeReference::Optional(Box::new(TypeReference::Bytes))));
    let source = SourceReference::from_type_reference(&lowered);
    assert_eq!(source.to_schema_text(), "Vector.Optional.Bytes");
    assert_eq!(source.to_type_reference(), lowered);
    let derived = SourceField::from_type_reference(name("topic"), &TypeReference::new("Topic"));
    assert!(matches!(derived.value(), SourceFieldValue::Derived));
    assert_eq!(derived.name().as_str(), "Topic");
    let explicit = SourceField::from_type_reference(name("author"), &TypeReference::String);
    assert_eq!(explicit.identity, SourceFieldIdentity::Explicit);
    assert_eq!(explicit.name().as_str(), "author");
}

#[test]
fn projected_variants_choose_their_written_form() {
    let self_tagged = SourceVariantSignature::from_projected(
        name("Topic"),
        Some(SourceVariantPayload::Reference(plain("Topic"))),
        None,
    );
    assert!(matches!(self_tagged, SourceVariantSignature::SelfTagged(_)));
    let relation = StreamRelation::Opens(name("Feed"));
    let streaming = SourceVariantSignature::from_projected(
        name("Open"),
        Some(SourceVariantPayload::Reference(plain("Topic"))),
        Some(&relation),
    );
    assert!(matches!(streaming, SourceVariantSignature::Streaming(..)));
    assert_eq!(streaming.stream_relation().map(|r| r.stream_name().as_str().to_owned()), Some("Feed".to_owned()));
    assert_eq!(streaming.payload().map(|p| p.to_schema_text()), Some("Topic".to_owned()));
    let unit = SourceVariantSignature::from_projected(name("Done"), None, Some(&relation));
    assert!(matches!(unit, SourceVariantSignature::Unit(_)));
    assert!(unit.stream_relation().is_none());
}

#[test]
fn unsigned_numbers_parse_like_the_standard_library() {
    assert_eq!(parse_u64_text("32"), Some(32));
    assert_eq!(parse_u64_text("+7"), Some(7));
    assert_eq!(parse_u64_text("18446744073709551615"), Some(u64::MAX));
    assert_eq!(parse_u64_text("18446744073709551616"), None);
    assert_eq!(parse_u64_text(""), None);
    assert_eq!(parse_u64_text("+"), None);
    assert_eq!(parse_u64_text("-1"), None);
    assert_eq!(parse_u64_text("3x"), None);
}

// ---------------------------------------------------------------- resolution

#[test]
fn names_resolve_to_their_deepest_declared_scope() {
    let scope = NameScope::new(vec![name("net:Header"), name("net:wire:Header"), name("Header")], Vec::new());
    let inner = name("net:wire:deep");
    assert_eq!(scope.visible_name(Some(&inner), &name("Header")).as_str(), "net:wire:Header");
    let outer = name("net:other");
    assert_eq!(scope.visible_name(Some(&outer), &name("Header")).as_str(), "net:Header");
    assert_eq!(scope.visible_name(None, &name("Header")).as_str(), "Header");
    assert_eq!(scope.visible_name(Some(&inner), &name("x:Header")).as_str(), "x:Header");
    assert_eq!(scope.resolve_name(Some(&inner), &name("String")), TypeReference::String);
}

#[test]
fn builtin_generics_resolve_to_their_own_forms() {
    let scope = NameScope::new(
        Vec::new(),
        vec![
            (name("List"), GenericShape::Vector),
            (name("Fixed"), GenericShape::FixedBytes),
            (name("Work"), GenericShape::Frame(2)),
        ],
    );
    let list = SourceReference::Application { head: name("List"), arguments: vec![plain("String")] };
    assert_eq!(scope.resolve_reference(None, &list), TypeReference::Vector(Box::new(TypeReference::String)));
    let fixed = SourceReference::Application { head: name("Fixed"), arguments: vec![plain("32")] };
    assert_eq!(scope.resolve_reference(None, &fixed), TypeReference::FixedBytes(32));
    let not_a_width = SourceReference::Application { head: name("Fixed"), arguments: vec![plain("Wide")] };
    assert!(matches!(scope.resolve_reference(None, &not_a_width), TypeReference::Application { .. }));
    let wrong_arity = SourceReference::Application { head: name("List"), arguments: Vec::new() };
    assert!(matches!(scope.resolve_reference(None, &wrong_arity), TypeReference::Application { .. }));
    let frame = SourceReference::Application { head: name("Work"), arguments: vec![plain("A"), plain("B")] };
    assert!(matches!(scope.resolve_reference(None, &frame), TypeReference::Application { .. }));
}

// ---------------------------------------------------------------- lowering

#[test]
fn a_source_lowers_to_a_checked_schema() {
    let schema = lower(&demo_source()).expect("lowered");
    assert_eq!(declared_names(&schema), vec!["Topic", "Message"]);
    match schema.type_named("Message").expect("struct") {
        TypeDeclaration::Struct(body) => {
            let fields: Vec<(String, TypeReference)> = body
                .fields
                .entries()
                .iter()
                .map(|f| (f.name.as_str().to_owned(), f.reference.clone()))
                .collect();
            assert_eq!(
                fields,
                vec![("topic".to_owned(), TypeReference::new("Topic")), ("string".to_owned(), TypeReference::String)]
            );
        }
        other => panic!("expected a struct, got {other:?}"),
    }
    let input = schema.root_enum_named("Input").expect("input root");
    assert_eq!(input.variants[0].payload, Some(TypeReference::new("Message")));
    let output = schema.root_enum_named("Output").expect("output root");
    assert_eq!(output.variants[0].payload, None);
    assert_eq!(schema.identity().component().as_str(), "demo:lib");
}

#[test]
fn nested_namespaces_qualify_and_resolve_their_names() {
    let net = SourceNamespace {
        entries: vec![
            declaration("Frame", struct_of(vec![SourceField::derived(name("Header"))])),
            declaration("Header", struct_of(vec![SourceField::derived(name("Integer"))])),
        ],
    };
    let source = source_with(
        Vec::new(),
        root("Input", vec![SourceVariantSignature::from_name(name("Ping"))]),
        root("Output", vec![SourceVariantSignature::from_name(name("Pong"))]),
        vec![entry("net", SourceNamespaceEntryValue::Namespace(net))],
    );
    let schema = lower(&source).expect("lowered");
    assert_eq!(declared_names(&schema), vec!["net:Frame", "net:Header"]);
    match schema.type_named("net:Frame").expect("frame") {
        TypeDeclaration::Newtype(newtype) => assert_eq!(newtype.reference, TypeReference::new("net:Header")),
        other => panic!("expected a newtype, got {other:?}"),
    }
    match schema.type_named("net:Header").expect("header") {
        TypeDeclaration::Newtype(newtype) => assert_eq!(newtype.reference, TypeReference::Integer),
        other => panic!("expected a newtype, got {other:?}"),
    }
}

#[test]
fn inline_payload_declarations_take_their_variant_name() {
    let source = source_with(
        Vec::new(),
        root(
            "Input",
            vec![SourceVariantSignature::from_payload(
                name("Create"),
                SourceVariantPayload::Declaration(struct_of(vec![
                    SourceField::derived(name("Topic")),
                    SourceField::derived(name("Integer")),
                ])),
            )],
        ),
        root("Output", vec![SourceVariantSignature::from_name(name("Done"))]),
        demo_entries(),
    );
    match lower(&source) {
        Err(SchemaError::SameNamedVariantPayload { enum_name, variant_name, payload_type }) => {
            assert_eq!(enum_name, "Input");
            assert_eq!(variant_name, "Create");
            assert_eq!(payload_type, "Create");
        }
        other => panic!("expected SameNamedVariantPayload, got {other:?}"),
    }
    let body = SourceRootBody::Enum(SourceEnumBody::new(vec![SourceVariantSignature::from_payload(
        name("Create"),
        SourceVariantPayload::Declaration(struct_of(vec![SourceField::from_reference(
            name("Inner"),
            plain("Topic"),
        )])),
    )]));
    let names: Vec<String> = body.inline_declaration_names().iter().map(|n| n.as_str().to_owned()).collect();
    assert_eq!(names, vec!["Create"]);
    let fields: Vec<String> =
        body.public_inline_field_declaration_names().iter().map(|n| n.as_str().to_owned()).collect();
    assert_eq!(fields, vec!["Inner"]);
}

#[test]
fn streams_and_families_are_collected_from_the_namespace() {
    let mut entries = demo_entries();
    entries.push(declaration(
        "Feed",
        SourceDeclarationValue::Stream(SourceStreamBody::new(
            plain("Topic"),
            plain("Boolean"),
            plain("Message"),
            plain("Integer"),
        )),
    ));
    entries.push(declaration(
        "messages",
        SourceDeclarationValue::Family(SourceFamilyBody::new(
            name("Message"),
            TableName::new("message_table"),
            FamilyKey::Domain,
        )),
    ));
    let source = source_with(
        Vec::new(),
        root("Input", vec![SourceVariantSignature::from_name(name("Ping"))]),
        root("Output", vec![SourceVariantSignature::from_name(name("Pong"))]),
        entries,
    );
    let streams = source.stream_declarations().expect("streams");
    assert_eq!(streams.len(), 1);
    assert_eq!(streams[0].name.as_str(), "Feed");
    assert_eq!(streams[0].opened, TypeReference::Boolean);
    let families = source.family_declarations().expect("families");
    assert_eq!(families[0].record.as_str(), "Message");
    let schema = lower(&source).expect("lowered");
    assert_eq!(schema.streams().len(), 1);
    assert_eq!(schema.families().len(), 1);
    assert_eq!(declared_names(&schema), vec!["Topic", "Message"]);
}

#[test]
fn builtin_applications_lower_in_fields() {
    let generics = vec![SourceGenericDefinition { name: name("List"), builtin: SourceGenericBuiltin::Vector }];
    let entries = vec![declaration(
        "Batch",
        struct_of(vec![
            SourceField {
                name: name("strings"),
                value: SourceFieldValue::Reference(SourceReference::Application {
                    head: name("List"),
                    arguments: vec![plain("String")],
                }),
                identity: SourceFieldIdentity::Implicit,
            },
            SourceField::derived(name("Integer")),
        ]),
    )];
    let source = source_with(
        generics,
        root("Input", vec![SourceVariantSignature::from_name(name("Ping"))]),
        root("Output", vec![SourceVariantSignature::from_name(name("Pong"))]),
        entries,
    );
    let schema = lower(&source).expect("lowered");
    match schema.type_named("Batch").expect("batch") {
        TypeDeclaration::Struct(body) => {
            let items = body.fields.field_named("string_vector").expect("derived field");
            assert_eq!(items.reference, TypeReference::Vector(Box::new(TypeReference::String)));
        }
        other => panic!("expected a struct, got {other:?}"),
    }
    assert_eq!(schema.generics().len(), 1);
}

#[test]
fn duplicate_and_reserved_declarations_are_refused() {
    let mut entries = demo_entries();
    entries.push(declaration("Topic", struct_of(vec![SourceField::derived(name("Integer"))])));
    let source = source_with(
        Vec::new(),
        root("Input", vec![SourceVariantSignature::from_name(name("Ping"))]),
        root("Output", vec![SourceVariantSignature::from_name(name("Pong"))]),
        entries,
    );
    match lower(&source) {
        Err(SchemaError::DuplicateSourceDeclaration { name }) => assert_eq!(name, "Topic"),
        other => panic!("expected DuplicateSourceDeclaration, got {other:?}"),
    }
    let reserved = source_with(
        Vec::new(),
        root("Input", vec![SourceVariantSignature::from_name(name("Ping"))]),
        root("Output", vec![SourceVariantSignature::from_name(name("Pong"))]),
        vec![declaration("String", struct_of(vec![SourceField::derived(name("Integer"))]))],
    );
    match lower(&reserved) {
        Err(SchemaError::ReservedScalarTypeName { name }) => assert_eq!(name, "String"),
        other => panic!("expected ReservedScalarTypeName, got {other:?}"),
    }
}

#[test]
fn misplaced_declarations_are_refused() {
    let text = source_with(
        Vec::new(),
        root("Input", vec![SourceVariantSignature::from_name(name("Ping"))]),
        root("Output", vec![SourceVariantSignature::from_name(name("Pong"))]),
        vec![declaration("Note", SourceDeclarationValue::Text("words".to_owned()))],
    );
    match lower(&text) {
        Err(SchemaError::ExpectedSyntaxDeclaration { found }) => assert_eq!(found, "text declaration"),
        other => panic!("expected ExpectedSyntaxDeclaration, got {other:?}"),
    }
    let inline_lowercase = source_with(
        Vec::new(),
        root("Input", vec![SourceVariantSignature::from_name(name("Ping"))]),
        root("Output", vec![SourceVariantSignature::from_name(name("Pong"))]),
        vec![declaration(
            "Holder",
            struct_of(vec![SourceField {
                name: name("inner"),
                value: SourceFieldValue::Declaration(struct_of(vec![SourceField::derived(name("Integer"))])),
                identity: SourceFieldIdentity::Explicit,
            }]),
        )],
    );
    match lower(&inline_lowercase) {
        Err(SchemaError::ExpectedSyntaxDeclaration { found }) => assert_eq!(found, "inline declaration field inner"),
        other => panic!("expected ExpectedSyntaxDeclaration, got {other:?}"),
    }
}

#[test]
fn a_root_application_must_stay_an_application() {
    let generics = vec![SourceGenericDefinition { name: name("List"), builtin: SourceGenericBuiltin::Vector }];
    let source = source_with(
        generics,
        SourceRootEnum {
            name: name("Input"),
            body: SourceRootBody::Application(SourceReference::Application {
                head: name("List"),
                arguments: vec![plain("String")],
            }),
        },
        root("Output", vec![SourceVariantSignature::from_name(name("Pong"))]),
        Vec::new(),
    );
    match lower(&source) {
        Err(SchemaError::ExpectedRootApplication { position, found }) => {
            assert_eq!(position, "root");
            assert_eq!(found, "List.String");
        }
        other => panic!("expected ExpectedRootApplication, got {other:?}"),
    }
}

#[test]
fn duplicate_streams_and_family_tables_are_refused() {
    let stream = || {
        SourceDeclarationValue::Stream(SourceStreamBody::new(
            plain("Topic"),
            plain("Boolean"),
            plain("Topic"),
            plain("Integer"),
        ))
    };
    let nested = SourceNamespace { entries: vec![declaration("Feed", stream())] };
    let mut entries = demo_entries();
    entries.push(declaration("Feed", stream()));
    entries.push(entry("net", SourceNamespaceEntryValue::Namespace(nested)));
    let streams_ok = source_with(
        Vec::new(),
        root("Input", vec![SourceVariantSignature::from_name(name("Ping"))]),
        root("Output", vec![SourceVariantSignature::from_name(name("Pong"))]),
        entries,
    );
    let names: Vec<String> =
        streams_ok.stream_declarations().expect("streams").iter().map(|s| s.name.as_str().to_owned()).collect();
    assert_eq!(names, vec!["Feed", "net:Feed"]);

    let mut twice = demo_entries();
    twice.push(declaration("Feed", stream()));
    twice.push(declaration("Feed", stream()));
    let twice = source_with(
        Vec::new(),
        root("Input", vec![SourceVariantSignature::from_name(name("Ping"))]),
        root("Output", vec![SourceVariantSignature::from_name(name("Pong"))]),
        twice,
    );
    match twice.stream_declarations() {
        Err(SchemaError::DuplicateSourceDeclaration { name }) => assert_eq!(name, "Feed"),
        other => panic!("expected a duplicate stream, got {other:?}"),
    }

    let family = |record: &str, table: &str| {
        SourceDeclarationValue::Family(SourceFamilyBody::new(name(record), TableName::new(table), FamilyKey::Domain))
    };
    let mut tables = demo_entries();
    tables.push(declaration("first", family("Message", "shared")));
    tables.push(declaration("second", family("Topic", "shared")));
    let tables = source_with(
        Vec::new(),
        root("Input", vec![SourceVariantSignature::from_name(name("Ping"))]),
        root("Output", vec![SourceVariantSignature::from_name(name("Pong"))]),
        tables,
    );
    match lower(&tables) {
        Err(SchemaError::DuplicateFamilyTable { table }) => assert_eq!(table, "shared"),
        other => panic!("expected DuplicateFamilyTable, got {other:?}"),
    }
    let mut names_twice = demo_entries();
    names_twice.push(declaration("first", family("Message", "one")));
    names_twice.push(declaration("first", family("Topic", "two")));
    let names_twice = source_with(
        Vec::new(),
        root("Input", vec![SourceVariantSignature::from_name(name("Ping"))]),
        root("Output", vec![SourceVariantSignature::from_name(name("Pong"))]),
        names_twice,
    );
    match names_twice.family_declarations() {
        Err(SchemaError::DuplicateFamilyName { name }) => assert_eq!(name, "first"),
        other => panic!("expected DuplicateFamilyName, got {other:?}"),
    }
}

#[test]
fn lowered_schemas_still_pass_the_schema_checks() {
    let mut entries = demo_entries();
    entries.push(declaration(
        "ghosts",
        SourceDeclarationValue::Family(SourceFamilyBody::new(
            name("Ghost"),
            TableName::new("ghost_table"),
            FamilyKey::Identified,
        )),
    ));
    let source = source_with(
        Vec::new(),
        root("Input", vec![SourceVariantSignature::from_name(name("Ping"))]),
        root("Output", vec![SourceVariantSignature::from_name(name("Pong"))]),
        entries,
    );
    match lower(&source) {
        Err(SchemaError::FamilyRecordNotFound { family, record }) => {
            assert_eq!(family, "ghosts");
            assert_eq!(record, "Ghost");
        }
        other => panic!("expected FamilyRecordNotFound, got {other:?}"),
    }
    let explicit_unique = source_with(
        Vec::new(),
        root("Input", vec![SourceVariantSignature::from_name(name("Ping"))]),
        root("Output", vec![SourceVariantSignature::from_name(name("Pong"))]),
        vec![declaration(
            "Pair",
            struct_of(vec![
                SourceField::from_reference(name("label"), plain("String")),
                SourceField::derived(name("Integer")),
            ]),
        )],
    );
    assert!(matches!(
        lower(&explicit_unique),
        Err(SchemaError::ExplicitFieldOnUniqueProductComponent { .. })
    ));
}

#[test]
fn imports_read_their_sources_as_references() {
    let imports = SourceImports {
        entries: vec![SourceImport { local_name: name("Remote"), source: plain("dep:mod:Remote") }],
    };
    let declarations = imports.to_schema_imports();
    assert_eq!(declarations.len(), 1);
    assert_eq!(declarations[0].local_name.as_str(), "Remote");
    assert_eq!(declarations[0].source, TypeReference::new("dep:mod:Remote"));
    let root_enum = Root::Enum(schema_language::schema::EnumDeclaration::new(name("Input"), Vec::new()));
    assert_eq!(root_enum.name().as_str(), "Input");
}
