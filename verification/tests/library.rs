//! Names, schema packages, identifiers, content hashes, upgrades, and
//! family closures.

use schema_language::error::SchemaError;
use schema_language::hex::{parse_hex_text, to_hex};
use schema_language::identifier::{DeclarationKind, NameTable, NominalIdentifier};
use schema_language::identity::{ContentHash, HashDomain};
use schema_language::module::{join_path, SchemaModuleSource, SchemaPackage};
use schema_language::name::{Name, SchemaIdentity, SymbolPath};
use schema_language::reference::TypeReference;
use schema_language::schema::{
    Declaration, EnumDeclaration, EnumVariant, FieldDeclaration, RelationDeclaration, RelationValue,
    StructDeclaration, TypeDeclaration,
};
use schema_language::true_schema::{Root, TrueSchema};
use schema_language::upgrade::{DefaultValue, FieldMigration, SchemaEdit, UpgradeObject};

fn name(text: &str) -> Name {
    Name::new(text)
}

fn field(field_name: &str, reference: TypeReference) -> FieldDeclaration {
    FieldDeclaration { name: name(field_name), reference }
}

fn variant(variant_name: &str, payload: Option<TypeReference>) -> EnumVariant {
    EnumVariant::new(name(variant_name), payload)
}

fn schema_of(namespace: Vec<Declaration>) -> TrueSchema {
    TrueSchema::new(
        SchemaIdentity::new("demo:lib", "0.1.0"),
        Vec::new(),
        Vec::new(),
        Vec::new(),
        Root::Enum(EnumDeclaration::new(
            name("Input"),
            vec![variant("Submit", Some(TypeReference::new("Message")))],
        )),
        Root::Enum(EnumDeclaration::new(name("Output"), vec![variant("Done", None)])),
        namespace,
        Vec::new(),
        Vec::new(),
        Vec::new(),
    )
}

fn message() -> Declaration {
    Declaration::public(TypeDeclaration::Struct(StructDeclaration::new(
        name("Message"),
        vec![field("topic", TypeReference::new("Topic")), field("string", TypeReference::String)],
    )))
}

fn topic() -> Declaration {
    Declaration::public(TypeDeclaration::Enum(EnumDeclaration::new(
        name("Topic"),
        vec![variant("News", None), variant("Sport", None)],
    )))
}

fn demo() -> TrueSchema {
    schema_of(vec![message(), topic()])
}

fn field_names(schema: &TrueSchema, type_ident: &str) -> Vec<String> {
    let declaration = schema.type_named(type_ident).expect("declared type");
    match declaration {
        TypeDeclaration::Struct(body) => {
            body.fields.entries().iter().map(|f| f.name.as_str().to_owned()).collect()
        }
        other => panic!("expected a struct, got {other:?}"),
    }
}

// ---------------------------------------------------------------- names

#[test]
fn names_split_into_namespace_and_local_part() {
    let qualified = name("net:wire:FrameHeader");
    assert_eq!(qualified.namespace_segments(), vec!["net", "wire", "FrameHeader"]);
    assert_eq!(qualified.local_part(), "FrameHeader");
    assert!(qualified.has_namespace());
    assert_eq!(qualified.field_name(), "frame_header");
    let bare = name("Topic");
    assert!(!bare.has_namespace());
    assert_eq!(bare.local_part(), "Topic");
    assert_eq!(name("dash-case").field_name(), "dash_case");
}

#[test]
fn unqualified_names_gain_a_namespace() {
    let package = name("pkg");
    assert_eq!(name("Topic").qualified_under(Some(&package)).as_str(), "pkg:Topic");
    assert_eq!(name("other:Topic").qualified_under(Some(&package)).as_str(), "other:Topic");
    assert_eq!(name("Topic").qualified_under(None).as_str(), "Topic");
    let once = name("Topic").qualified_under(Some(&package));
    assert_eq!(once.local_part(), "Topic");
    assert_eq!(once.qualified_under(Some(&package)).as_str(), once.as_str());
}

#[test]
fn symbol_paths_know_their_component() {
    let identity = SchemaIdentity::new("demo:lib", "0.1.0");
    let path = SymbolPath::field_path(&identity, &name("Message"), &name("topic"));
    assert_eq!(path.component().map(|c| c.as_str()), Some("demo:lib"));
    let local: Vec<&str> = path.local_segments().iter().map(|n| n.as_str()).collect();
    assert_eq!(local, vec!["Message", "topic"]);
    assert!(path.belongs_to(&identity));
    assert!(!path.belongs_to(&SchemaIdentity::new("other:lib", "0.1.0")));
    assert!(SymbolPath::new(Vec::new()).component().is_none());
}

// ---------------------------------------------------------------- packages

#[test]
fn packages_place_schema_files_under_the_schema_directory() {
    let package = SchemaPackage::new("/work/app", "app", "0.2.0");
    assert_eq!(package.schema_directory(), "/work/app/schema");
    assert_eq!(package.lib_schema_path(), "/work/app/schema/lib.schema");
    assert_eq!(package.module_schema_path(&name("net:wire")), "/work/app/schema/net/wire.schema");
    let identity = package.module_identity(&name("net"));
    assert_eq!(identity.component().as_str(), "app:net");
    assert_eq!(identity.version(), "0.2.0");
}

#[test]
fn package_paths_join_as_paths_do() {
    let trailing = SchemaPackage::new("/work/app/", "app", "0.2.0");
    assert_eq!(trailing.schema_directory(), "/work/app/schema");
    assert_eq!(trailing.lib_schema_path(), "/work/app/schema/lib.schema");
    let bare = SchemaPackage::new("", "app", "0.2.0");
    assert_eq!(bare.schema_directory(), "schema");
    let package = SchemaPackage::new("/work/app", "app", "0.2.0");
    assert_eq!(package.module_schema_path(&name(":abs")), "/abs.schema");
    assert_eq!(join_path("/tmp", "file"), "/tmp/file");
    assert_eq!(join_path("/tmp/", "file"), "/tmp/file");
    assert_eq!(join_path("/tmp", "/etc"), "/etc");
    assert_eq!(join_path("", "file"), "file");
}

#[test]
fn schema_paths_read_back_as_module_names() {
    let package = SchemaPackage::new("/work/app", "app", "0.2.0");
    let read = |path: &str| package.module_name_from_schema_path(path).ok().map(|n| n.as_str().to_owned());
    assert_eq!(read("/work/app/schema/net/wire.schema"), Some("net:wire".to_owned()));
    assert_eq!(read("/work/app/schema/lib.schema"), Some("lib".to_owned()));
    assert_eq!(read("/work/app/schema/./lib.schema"), Some("lib".to_owned()));
    assert_eq!(read("/work/app/schema/net//wire.schema"), Some("net:wire".to_owned()));
    let module = name("net:wire");
    assert_eq!(read(&package.module_schema_path(&module)), Some("net:wire".to_owned()));
}

#[test]
fn malformed_schema_paths_are_refused() {
    let package = SchemaPackage::new("/work/app", "app", "0.2.0");
    for path in [
        "/other/net.schema",
        "/work/app/schema",
        "/work/app/schemas/lib.schema",
        "/work/app/schema/../lib.schema",
        "/work/app/schema/net/wire.txt",
        "/work/app/schema/",
    ] {
        match package.module_name_from_schema_path(path) {
            Err(SchemaError::MalformedSchemaPath { path: reported }) => assert_eq!(reported, path),
            other => panic!("expected MalformedSchemaPath for {path}, got {other:?}"),
        }
    }
}

#[test]
fn module_sources_keep_what_was_read() {
    let identity = SchemaIdentity::new("app:lib", "0.2.0");
    let source = SchemaModuleSource::new(identity, "/work/app/schema/lib.schema".to_owned(), "{}".to_owned());
    assert_eq!(source.identity().component().as_str(), "app:lib");
    assert_eq!(source.path(), "/work/app/schema/lib.schema");
    assert_eq!(source.source(), "{}");
}

// ---------------------------------------------------------------- hex

#[test]
fn hex_text_round_trips() {
    let bytes = [0x00u8, 0x0f, 0xa0, 0xff];
    assert_eq!(to_hex(&bytes), "000fa0ff");
    assert_eq!(parse_hex_text("000fa0ff", 4), Some(bytes.to_vec()));
    assert_eq!(parse_hex_text("000FA0FF", 4), Some(bytes.to_vec()));
    assert_eq!(parse_hex_text("000fa0f", 4), None);
    assert_eq!(parse_hex_text("000fa0fg", 4), None);
}

// ---------------------------------------------------------------- identifiers

#[test]
fn minted_identifiers_depend_on_kind_and_name() {
    let first = NominalIdentifier::mint(DeclarationKind::Type, "demo:lib:Message");
    let again = NominalIdentifier::mint(DeclarationKind::Type, "demo:lib:Message");
    assert_eq!(first, again);
    assert_eq!(first.kind(), DeclarationKind::Type);
    let as_field = NominalIdentifier::mint(DeclarationKind::Field, "demo:lib:Message");
    assert_ne!(first, as_field);
    let other = NominalIdentifier::mint(DeclarationKind::Type, "demo:lib:Topic");
    assert_ne!(first, other);
    let hex = first.to_hex();
    assert_eq!(hex.len(), 32);
    assert!(hex.chars().all(|c| c.is_ascii_hexdigit() && !c.is_ascii_uppercase()));
    let digest = NominalIdentifier::digest_from_hex(&hex).expect("hex digest");
    assert_eq!(NominalIdentifier::from_parts(DeclarationKind::Type, digest), first);
    assert!(NominalIdentifier::digest_from_hex("abc").is_none());
    assert_eq!(DeclarationKind::Type.mint_tag(), 0);
    assert_eq!(DeclarationKind::Generic.mint_tag(), 3);
}

#[test]
fn built_tables_keep_identifiers_across_renames() {
    let declarations = vec![
        (DeclarationKind::Type, name("demo:lib:Message")),
        (DeclarationKind::Field, name("demo:lib:Message:topic")),
        (DeclarationKind::Type, name("demo:lib:Topic")),
    ];
    let table = NameTable::build(&NameTable::empty(), declarations);
    assert_eq!(table.entries().len(), 3);
    let ids: Vec<NominalIdentifier> = table.entries().iter().map(|e| e.identifier()).collect();
    assert!(ids.windows(2).all(|w| w[0] <= w[1]));
    let message = table
        .identifier_of(DeclarationKind::Type, &name("demo:lib:Message"))
        .expect("bound name");
    assert_eq!(message, NominalIdentifier::mint(DeclarationKind::Type, "demo:lib:Message"));
    assert_eq!(table.name_of(&message).map(|n| n.as_str()), Some("demo:lib:Message"));

    let mut renamed = NameTable::build(&table, vec![(DeclarationKind::Type, name("demo:lib:Message"))]);
    assert_eq!(renamed.entries()[0].identifier(), message);
    assert!(renamed.rename(&message, name("demo:lib:Envelope")).is_ok());
    assert_eq!(renamed.name_of(&message).map(|n| n.as_str()), Some("demo:lib:Envelope"));
    assert_eq!(renamed.associate(DeclarationKind::Type, &name("demo:lib:Envelope")), message);

    let absent = NominalIdentifier::mint(DeclarationKind::Variant, "demo:lib:Nothing");
    match renamed.rename(&absent, name("demo:lib:Other")) {
        Err(SchemaError::NameTableIdentifierAbsent { identifier }) => assert_eq!(identifier, absent.to_hex()),
        other => panic!("expected NameTableIdentifierAbsent, got {other:?}"),
    }
    assert_eq!(renamed.entries().len(), 1);
}

#[test]
fn renames_refuse_a_name_another_identifier_holds() {
    let declarations = vec![
        (DeclarationKind::Type, name("demo:lib:Message")),
        (DeclarationKind::Type, name("demo:lib:Topic")),
        (DeclarationKind::Field, name("demo:lib:Message:topic")),
    ];
    let mut table = NameTable::build(&NameTable::empty(), declarations);
    let message = table.identifier_of(DeclarationKind::Type, &name("demo:lib:Message")).expect("message");
    let topic = table.identifier_of(DeclarationKind::Type, &name("demo:lib:Topic")).expect("topic");
    let rows = |t: &NameTable| -> Vec<(NominalIdentifier, String)> {
        t.entries().iter().map(|e| (e.identifier(), e.name().as_str().to_owned())).collect()
    };
    let before = rows(&table);
    match table.rename(&message, name("demo:lib:Topic")) {
        Err(SchemaError::NameTableNameConflict { kind, name: taken, holder, requested }) => {
            assert_eq!(kind, DeclarationKind::Type);
            assert_eq!(taken, "demo:lib:Topic");
            assert_eq!(holder, topic.to_hex());
            assert_eq!(requested, message.to_hex());
        }
        other => panic!("expected NameTableNameConflict, got {other:?}"),
    }
    assert_eq!(rows(&table), before);
    // A name held by an identifier of another kind is free to take.
    assert!(table.rename(&message, name("demo:lib:Message:topic")).is_ok());
    assert_eq!(table.name_of(&message).map(|n| n.as_str()), Some("demo:lib:Message:topic"));
}

// ---------------------------------------------------------------- content hashes

#[test]
fn content_hashes_are_separated_by_domain() {
    let bytes = b"schema bytes";
    let core = ContentHash::core_address(bytes);
    assert_eq!(core, ContentHash::derive(HashDomain::CoreSchema, bytes));
    assert_eq!(core, ContentHash::core_address(bytes));
    assert_ne!(core, ContentHash::true_name_address(bytes));
    assert_ne!(core, ContentHash::family_address(bytes));
    assert_ne!(core, ContentHash::core_address(b"other bytes"));
    let hex = core.to_hex();
    assert_eq!(hex.len(), 64);
    assert_eq!(ContentHash::from_hex(&hex), Some(core));
    assert_eq!(ContentHash::from_hex(&hex[..63]), None);
    assert_ne!(HashDomain::CoreSchema.context(), HashDomain::TrueName.context());
    assert_ne!(HashDomain::TrueName.context(), HashDomain::FamilyClosure.context());
}

// ---------------------------------------------------------------- upgrades

#[test]
fn an_added_field_is_appended_with_its_default() {
    let edit = SchemaEdit::add_field("Message", "count", TypeReference::Integer, DefaultValue::Integer(0));
    let (schema, receipt) = edit.apply_to(demo()).expect("field added");
    assert_eq!(field_names(&schema, "Message"), vec!["topic", "string", "count"]);
    assert_eq!(receipt.schema_identity.component().as_str(), "demo:lib");
    let spec = receipt.migration_spec.expect("migration");
    assert_eq!(spec.target_type.as_str(), "Message");
    assert_eq!(spec.field_name.as_str(), "count");
    assert!(spec.previous_type.is_none());
    assert_eq!(spec.next_type, TypeReference::Integer);
    assert_eq!(spec.migration, FieldMigration::SetDefault(DefaultValue::Integer(0)));
}

#[test]
fn a_changed_field_type_reports_the_previous_type() {
    let edit = SchemaEdit::change_field_type(
        "Message",
        "string",
        TypeReference::Vector(Box::new(TypeReference::String)),
        FieldMigration::WrapSingleton,
    );
    let (schema, receipt) = edit.apply_to(demo()).expect("field changed");
    assert_eq!(field_names(&schema, "Message"), vec!["topic", "string"]);
    let spec = receipt.migration_spec.expect("migration");
    assert_eq!(spec.previous_type, Some(TypeReference::String));
    assert_eq!(spec.next_type, TypeReference::Vector(Box::new(TypeReference::String)));
    assert_eq!(spec.migration, FieldMigration::WrapSingleton);
}

#[test]
fn an_added_variant_needs_no_migration() {
    let edit = SchemaEdit::add_variant("Topic", "Weather", None);
    let (schema, receipt) = edit.apply_to(demo()).expect("variant added");
    assert!(receipt.migration_spec.is_none());
    match schema.type_named("Topic").expect("enum") {
        TypeDeclaration::Enum(body) => {
            let names: Vec<&str> = body.variants.iter().map(|v| v.name.as_str()).collect();
            assert_eq!(names, vec!["News", "Sport", "Weather"]);
        }
        other => panic!("expected an enum, got {other:?}"),
    }
}

#[test]
fn refused_edits_name_their_reason() {
    let cases: Vec<(SchemaEdit, &str)> = vec![
        (SchemaEdit::add_field("Nowhere", "x", TypeReference::Integer, DefaultValue::Unit), "target"),
        (SchemaEdit::add_field("Topic", "x", TypeReference::Integer, DefaultValue::Unit), "struct"),
        (SchemaEdit::add_field("Message", "topic", TypeReference::Integer, DefaultValue::Unit), "field"),
        (SchemaEdit::add_variant("Message", "X", None), "enum"),
        (SchemaEdit::add_variant("Topic", "News", None), "variant"),
        (
            SchemaEdit::change_field_type("Message", "missing", TypeReference::Integer, FieldMigration::WrapSingleton),
            "missing",
        ),
    ];
    for (edit, expected) in cases {
        let outcome = edit.apply_to(demo());
        match (expected, outcome) {
            ("target", Err(SchemaError::SchemaEditTargetNotFound { type_ident })) => assert_eq!(type_ident, "Nowhere"),
            ("struct", Err(SchemaError::SchemaEditExpectedStruct { type_ident })) => assert_eq!(type_ident, "Topic"),
            ("field", Err(SchemaError::SchemaEditDuplicateField { type_ident, field_name })) => {
                assert_eq!(type_ident, "Message");
                assert_eq!(field_name, "topic");
            }
            ("enum", Err(SchemaError::SchemaEditExpectedEnum { type_ident })) => assert_eq!(type_ident, "Message"),
            ("variant", Err(SchemaError::SchemaEditDuplicateVariant { type_ident, variant_name })) => {
                assert_eq!(type_ident, "Topic");
                assert_eq!(variant_name, "News");
            }
            ("missing", Err(SchemaError::SchemaEditFieldNotFound { type_ident, field_name })) => {
                assert_eq!(type_ident, "Message");
                assert_eq!(field_name, "missing");
            }
            (expected, other) => panic!("expected a {expected} refusal, got {other:?}"),
        }
    }
}

#[test]
fn upgrades_apply_in_order_and_restamp_the_identity() {
    let previous = SchemaIdentity::new("demo:lib", "0.1.0");
    let next = SchemaIdentity::new("demo:lib", "0.2.0");
    let upgrade = UpgradeObject::new(
        previous,
        next,
        vec![
            SchemaEdit::add_variant("Topic", "Weather", None),
            SchemaEdit::add_field("Message", "count", TypeReference::Integer, DefaultValue::Integer(1)),
        ],
    );
    let (schema, receipt) = upgrade.apply(&demo()).expect("upgrade applies");
    assert_eq!(schema.identity().version(), "0.2.0");
    assert_eq!(field_names(&schema, "Message"), vec!["topic", "string", "count"]);
    assert_eq!(receipt.edit_receipts().len(), 2);
    assert_eq!(receipt.previous_identity().version(), "0.1.0");
    assert_eq!(receipt.next_identity().version(), "0.2.0");
    assert!(receipt.edit_receipts()[0].migration_spec.is_none());
    assert!(receipt.edit_receipts()[1].migration_spec.is_some());
}

#[test]
fn an_upgrade_for_another_identity_is_refused() {
    let upgrade = UpgradeObject::new(
        SchemaIdentity::new("demo:lib", "0.0.9"),
        SchemaIdentity::new("demo:lib", "0.2.0"),
        Vec::new(),
    );
    match upgrade.apply(&demo()) {
        Err(SchemaError::SchemaEditIdentityMismatch { expected, found }) => {
            assert_eq!(expected, "demo:lib@0.0.9");
            assert_eq!(found, "demo:lib@0.1.0");
        }
        other => panic!("expected SchemaEditIdentityMismatch, got {other:?}"),
    }
}

#[test]
fn a_failing_edit_stops_the_upgrade() {
    let upgrade = UpgradeObject::new(
        SchemaIdentity::new("demo:lib", "0.1.0"),
        SchemaIdentity::new("demo:lib", "0.2.0"),
        vec![
            SchemaEdit::add_variant("Topic", "Weather", None),
            SchemaEdit::add_variant("Topic", "Weather", None),
        ],
    );
    assert!(matches!(
        upgrade.apply(&demo()),
        Err(SchemaError::SchemaEditDuplicateVariant { .. })
    ));
    let empty = UpgradeObject::new(
        SchemaIdentity::new("demo:lib", "0.1.0"),
        SchemaIdentity::new("demo:lib", "0.1.1"),
        Vec::new(),
    );
    let (schema, receipt) = empty.apply(&demo()).expect("empty upgrade");
    assert_eq!(schema.identity().version(), "0.1.1");
    assert!(receipt.edit_receipts().is_empty());
}

// ---------------------------------------------------------------- family closures

fn member_names(closure: &schema_language::closure::FamilyClosure) -> Vec<String> {
    closure.declarations().iter().map(|d| d.name().as_str().to_owned()).collect()
}

#[test]
fn family_closures_gather_reachable_declarations_in_name_order() {
    let schema = schema_of(vec![topic(), message()]);
    let closure = schema.family_closure("Message").expect("closure");
    assert_eq!(closure.root().as_str(), "Message");
    assert!(closure.root_application().is_none());
    assert_eq!(member_names(&closure), vec!["Message", "Topic"]);
    assert!(closure.imports().is_empty());
    assert!(closure.streams().is_empty());

    let from_root = schema.family_closure("Input").expect("root closure");
    assert_eq!(member_names(&from_root), vec!["Input", "Message", "Topic"]);

    let leaf = schema.family_closure("Topic").expect("leaf closure");
    assert_eq!(member_names(&leaf), vec!["Topic"]);
}

#[test]
fn family_closures_ignore_relations_and_identity() {
    let plain = schema_of(vec![message(), topic()]);
    let related = TrueSchema::new(
        SchemaIdentity::new("other:crate", "9.9.9"),
        Vec::new(),
        Vec::new(),
        Vec::new(),
        Root::Enum(EnumDeclaration::new(
            name("Input"),
            vec![variant("Submit", Some(TypeReference::new("Message")))],
        )),
        Root::Enum(EnumDeclaration::new(name("Output"), vec![variant("Done", None)])),
        vec![message(), topic()],
        Vec::new(),
        Vec::new(),
        vec![RelationDeclaration::Equivalence(vec![RelationValue::new(vec![name("Message"), name("topic")])])],
    );
    for family in ["Message", "Topic", "Input", "Output"] {
        let a = plain.family_closure(family).expect("closure");
        let b = related.family_closure(family).expect("closure");
        assert_eq!(member_names(&a), member_names(&b));
        assert_eq!(a.root().as_str(), b.root().as_str());
        assert_eq!(a.imports().len(), b.imports().len());
        assert_eq!(a.streams().len(), b.streams().len());
    }
}

#[test]
fn family_closures_refuse_unknown_roots_and_references() {
    let broken = Declaration::public(TypeDeclaration::Struct(StructDeclaration::new(
        name("Broken"),
        vec![field("ghost", TypeReference::new("Ghost"))],
    )));
    let schema = schema_of(vec![message(), topic(), broken]);
    match schema.family_closure("Nothing") {
        Err(SchemaError::FamilyRootNotFound { name }) => assert_eq!(name, "Nothing"),
        other => panic!("expected FamilyRootNotFound, got {other:?}"),
    }
    match schema.family_closure("Broken") {
        Err(SchemaError::FamilyReferenceNotFound { family, name }) => {
            assert_eq!(family, "Broken");
            assert_eq!(name, "Ghost");
        }
        other => panic!("expected FamilyReferenceNotFound, got {other:?}"),
    }
    // A missing name that the family never reaches does not stop its closure.
    let closure = schema.family_closure("Message").expect("closure");
    assert_eq!(member_names(&closure), vec!["Message", "Topic"]);
}

#[test]
fn built_tables_do_not_depend_on_declaration_order() {
    let forward = vec![
        (DeclarationKind::Type, name("demo:lib:Message")),
        (DeclarationKind::Field, name("demo:lib:Message:topic")),
        (DeclarationKind::Type, name("demo:lib:Topic")),
        (DeclarationKind::Variant, name("demo:lib:Topic:News")),
    ];
    let mut backward: Vec<(DeclarationKind, Name)> =
        forward.iter().map(|(kind, text)| (*kind, name(text.as_str()))).collect();
    backward.reverse();
    let first = NameTable::build(&NameTable::empty(), forward);
    let second = NameTable::build(&NameTable::empty(), backward);
    let entries = |table: &NameTable| -> Vec<(NominalIdentifier, String)> {
        table.entries().iter().map(|e| (e.identifier(), e.name().as_str().to_owned())).collect()
    };
    assert_eq!(entries(&first), entries(&second));
    assert_eq!(first.entries().len(), 4);
}

#[test]
fn family_closures_hold_every_name_their_members_mention() {
    let boxed = Declaration::public(TypeDeclaration::Struct(StructDeclaration::new(
        name("Boxed"),
        vec![field("item", TypeReference::new("Item")), field("topic", TypeReference::new("Topic"))],
    )))
    .with_parameters(vec![name("Item")]);
    let schema = schema_of(vec![boxed, message(), topic()]);
    let closure = schema.family_closure("Boxed").expect("closure");
    assert_eq!(member_names(&closure), vec!["Boxed", "Topic"]);
    let parameters: Vec<&str> = closure.declarations()[0].parameters().iter().map(|p| p.as_str()).collect();
    assert_eq!(parameters, vec!["Item"]);
    let from_input = schema.family_closure("Input").expect("root closure");
    for declaration in from_input.declarations() {
        if let TypeDeclaration::Struct(body) = declaration.value() {
            for f in body.fields.entries() {
                if let TypeReference::Plain(n) = &f.reference {
                    assert!(member_names(&from_input).contains(&n.as_str().to_owned()));
                }
            }
        }
    }
}

#[test]
fn symbol_paths_render_their_segments_joined_by_slashes() {
    let path = SymbolPath::new(vec![name("demo:lib"), name("Message"), name("topic")]);
    assert_eq!(path.to_text(), "demo:lib/Message/topic");
    assert_eq!(SymbolPath::new(Vec::new()).to_text(), "");
    assert_eq!(SymbolPath::new(vec![name("solo")]).to_text(), "solo");
}
