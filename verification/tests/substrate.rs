//! Projecting a name-free substrate back into a named schema.

use schema_language::error::SchemaError;
use schema_language::identifier::{DeclarationKind, NameTable, NominalIdentifier};
use schema_language::impls::ImplCatalog;
use schema_language::name::{Name, SchemaIdentity, TableName};
use schema_language::reference::TypeReference;
use schema_language::schema::{FamilyKey, TypeDeclaration, Visibility};
use schema_language::substrate::{
    CoreDeclaration, CoreEnum, CoreFamily, CoreField, CoreImplBlock, CoreReference,
    CoreRelationDeclaration, CoreRelationValue, CoreRoot, CoreSchema, CoreStream, CoreStruct,
    CoreType, CoreVariant,
};
use schema_language::true_schema::{Root, TrueSchema};

const NAMES: [(DeclarationKind, &str); 9] = [
    (DeclarationKind::Type, "Input"),
    (DeclarationKind::Variant, "Input:Query"),
    (DeclarationKind::Type, "Output"),
    (DeclarationKind::Variant, "Output:Answer"),
    (DeclarationKind::Type, "Record"),
    (DeclarationKind::Field, "label"),
    (DeclarationKind::Type, "Score"),
    (DeclarationKind::Generic, "Record:Item"),
    (DeclarationKind::Type, "Ledger"),
];

fn table() -> NameTable {
    let declarations = NAMES.iter().map(|(kind, text)| (*kind, Name::new(text))).collect();
    NameTable::build(&NameTable::empty(), declarations)
}

fn id(names: &NameTable, kind: DeclarationKind, text: &str) -> NominalIdentifier {
    names.identifier_of(kind, &Name::new(text)).expect("declared name")
}

fn variant(identifier: NominalIdentifier) -> CoreVariant {
    CoreVariant { identifier, payload: None, stream_relation: None }
}

fn root(names: &NameTable, enum_name: &str, variant_name: &str) -> CoreRoot {
    CoreRoot::Enum(CoreEnum {
        identifier: id(names, DeclarationKind::Type, enum_name),
        variants: vec![variant(id(names, DeclarationKind::Variant, variant_name))],
    })
}

fn substrate(names: &NameTable) -> CoreSchema {
    let record = id(names, DeclarationKind::Type, "Record");
    let score = id(names, DeclarationKind::Type, "Score");
    let stored_field = id(names, DeclarationKind::Field, "label");
    let derived_field = NominalIdentifier::mint(DeclarationKind::Field, "Record:score");
    CoreSchema {
        imports: Vec::new(),
        resolved_imports: Vec::new(),
        input: root(names, "Input", "Input:Query"),
        output: root(names, "Output", "Output:Answer"),
        namespace: vec![
            CoreDeclaration {
                visibility: Visibility::Public,
                parameters: vec![id(names, DeclarationKind::Generic, "Record:Item")],
                value: CoreType::Struct(CoreStruct {
                    identifier: record,
                    fields: vec![
                        CoreField { identifier: stored_field, reference: CoreReference::String },
                        CoreField { identifier: derived_field, reference: CoreReference::Plain(score) },
                    ],
                }),
                impls: ImplCatalog::empty(),
            },
        ],
        streams: vec![CoreStream {
            identifier: score,
            token: CoreReference::Integer,
            opened: CoreReference::Vector(Box::new(CoreReference::Plain(record))),
            event: CoreReference::Boolean,
            close: CoreReference::Path,
        }],
        families: vec![CoreFamily {
            identifier: id(names, DeclarationKind::Type, "Ledger"),
            record,
            table: TableName::new("ledger"),
            key: FamilyKey::Identified,
        }],
        relations: vec![CoreRelationDeclaration::Equivalence(vec![CoreRelationValue {
            segments: vec![record, score],
        }])],
        impl_blocks: vec![CoreImplBlock { target: record, catalog: ImplCatalog::empty() }],
    }
}

fn projected(names: &NameTable) -> TrueSchema {
    substrate(names)
        .project(names, SchemaIdentity::new("ledger", "0.1.0"))
        .expect("every identifier is named")
}

fn root_enum_names(root: &Root) -> (String, Vec<String>) {
    let declaration = root.as_enum().expect("enum root");
    (
        declaration.name.as_str().to_string(),
        declaration.variants.iter().map(|v| v.name.as_str().to_string()).collect(),
    )
}

fn struct_field_names(schema: &TrueSchema) -> Vec<String> {
    match schema.namespace()[0].value() {
        TypeDeclaration::Struct(s) => s.fields.iter().map(|f| f.name.as_str().to_string()).collect(),
        _ => panic!("struct expected"),
    }
}

#[test]
fn projection_gives_back_every_name() {
    let names = table();
    let schema = projected(&names);
    assert_eq!(schema.identity().component().as_str(), "ledger");
    assert_eq!(root_enum_names(schema.input()), ("Input".to_string(), vec!["Query".to_string()]));
    assert_eq!(root_enum_names(schema.output()), ("Output".to_string(), vec!["Answer".to_string()]));
    let declaration = &schema.namespace()[0];
    assert_eq!(declaration.name().as_str(), "Record");
    assert_eq!(declaration.visibility(), Visibility::Public);
    let parameters: Vec<&str> = declaration.parameters().iter().map(|p| p.as_str()).collect();
    assert_eq!(parameters, vec!["Item"]);
    assert!(schema.generics().is_empty());
    assert!(schema.imports().is_empty());
}

#[test]
fn field_name_is_stored_row_else_derived() {
    let names = table();
    let schema = projected(&names);
    assert_eq!(struct_field_names(&schema), vec!["label".to_string(), "score".to_string()]);
    match schema.namespace()[0].value() {
        TypeDeclaration::Struct(s) => {
            assert!(matches!(s.fields.entries()[0].reference, TypeReference::String));
            match &s.fields.entries()[1].reference {
                TypeReference::Plain(n) => assert_eq!(n.as_str(), "Score"),
                other => panic!("plain reference expected, got {other:?}"),
            }
        }
        _ => panic!("struct expected"),
    }
}

#[test]
fn streams_families_relations_and_blocks_project() {
    let names = table();
    let schema = projected(&names);
    let stream = &schema.streams()[0];
    assert_eq!(stream.name.as_str(), "Score");
    match &stream.opened {
        TypeReference::Vector(inner) => match inner.as_ref() {
            TypeReference::Plain(n) => assert_eq!(n.as_str(), "Record"),
            other => panic!("plain expected, got {other:?}"),
        },
        other => panic!("vector expected, got {other:?}"),
    }
    let family = &schema.families()[0];
    assert_eq!(family.name.as_str(), "Ledger");
    assert_eq!(family.record.as_str(), "Record");
    assert_eq!(family.table.as_str(), "ledger");
    let path: Vec<&str> = schema.relations()[0].values()[0].path().iter().map(|n| n.as_str()).collect();
    assert_eq!(path, vec!["Record", "Score"]);
    assert_eq!(schema.impl_blocks()[0].target().as_str(), "Record");
}

#[test]
fn rename_moves_every_use_of_a_declaration() {
    let mut names = table();
    let core = substrate(&names);
    let score = id(&names, DeclarationKind::Type, "Score");
    names.rename(&score, Name::new("Rating")).expect("named identifier");
    let schema = core.project(&names, SchemaIdentity::new("ledger", "0.1.0")).expect("every identifier is named");
    assert_eq!(struct_field_names(&schema), vec!["label".to_string(), "rating".to_string()]);
    assert_eq!(schema.streams()[0].name.as_str(), "Rating");
    let path: Vec<&str> = schema.relations()[0].values()[0].path().iter().map(|n| n.as_str()).collect();
    assert_eq!(path, vec!["Record", "Rating"]);
}

#[test]
fn missing_identifier_is_reported_by_hex() {
    let names = table();
    let mut core = substrate(&names);
    let stranger = NominalIdentifier::mint(DeclarationKind::Type, "Stranger");
    core.families[0].record = stranger;
    let result = core.project(&names, SchemaIdentity::new("ledger", "0.1.0"));
    match result {
        Err(SchemaError::CoreProjectionNameAbsent { identifier }) => {
            assert_eq!(identifier, stranger.to_hex());
            assert_eq!(identifier.len(), 32);
        }
        other => panic!("absent-name error expected, got {other:?}"),
    }
}

#[test]
fn first_missing_identifier_wins() {
    let names = table();
    let mut core = substrate(&names);
    let early = NominalIdentifier::mint(DeclarationKind::Variant, "Input:Gone");
    let late = NominalIdentifier::mint(DeclarationKind::Type, "Gone");
    core.input = CoreRoot::Enum(CoreEnum {
        identifier: id(&names, DeclarationKind::Type, "Input"),
        variants: vec![variant(early)],
    });
    core.impl_blocks[0].target = late;
    match core.project(&names, SchemaIdentity::new("ledger", "0.1.0")) {
        Err(SchemaError::CoreProjectionNameAbsent { identifier }) => assert_eq!(identifier, early.to_hex()),
        other => panic!("absent-name error expected, got {other:?}"),
    }
}

#[test]
fn declaration_identifier_is_its_values() {
    let names = table();
    let core = substrate(&names);
    let record = id(&names, DeclarationKind::Type, "Record");
    assert_eq!(core.namespace().len(), 1);
    assert_eq!(core.namespace()[0].identifier(), record);
}

fn related_schema(names: &NameTable) -> TrueSchema {
    let mut core = substrate(names);
    let record = id(names, DeclarationKind::Type, "Record");
    let label = id(names, DeclarationKind::Field, "label");
    core.relations = vec![CoreRelationDeclaration::Equivalence(vec![CoreRelationValue { segments: vec![record, label] }])];
    core.project(names, SchemaIdentity::new("ledger", "0.1.0")).expect("every identifier is named")
}

#[test]
fn decomposition_projects_back_to_the_schema() {
    let schema = related_schema(&table());
    let (core, names) = schema.decompose(&NameTable::empty()).expect("every relation segment resolves");
    let back = core.project(&names, schema.identity().clone()).expect("every identifier is named");
    assert_eq!(root_enum_names(back.input()), root_enum_names(schema.input()));
    assert_eq!(root_enum_names(back.output()), root_enum_names(schema.output()));
    assert_eq!(struct_field_names(&back), struct_field_names(&schema));
    let parameters: Vec<&str> = back.namespace()[0].parameters().iter().map(|p| p.as_str()).collect();
    assert_eq!(parameters, vec!["Item"]);
    assert_eq!(back.streams()[0].name.as_str(), "Score");
    assert_eq!(back.families()[0].record.as_str(), "Record");
    let path: Vec<&str> = back.relations()[0].values()[0].path().iter().map(|n| n.as_str()).collect();
    assert_eq!(path, vec!["Record", "label"]);
    assert_eq!(back.impl_blocks()[0].target().as_str(), "Record");
    // A field named as its type derives carries no row.
    assert!(names.entries().iter().all(|e| e.name().as_str() != "score"));
    assert!(names.entries().iter().any(|e| e.name().as_str() == "label"));
}

#[test]
fn decomposition_keeps_the_prior_identifiers() {
    let prior = table();
    let schema = related_schema(&prior);
    let (_, names) = schema.decompose(&prior).expect("every relation segment resolves");
    let record = id(&prior, DeclarationKind::Type, "Record");
    assert_eq!(names.identifier_of(DeclarationKind::Type, &Name::new("Record")), Some(record));
    let fresh = schema.decompose(&NameTable::empty()).expect("resolves").1;
    assert_eq!(
        fresh.identifier_of(DeclarationKind::Type, &Name::new("Record")),
        Some(NominalIdentifier::mint(DeclarationKind::Type, "Record"))
    );
}

#[test]
fn renames_leave_the_substrate_identifiers_in_place() {
    let schema = related_schema(&table());
    let (core, mut names) = schema.decompose(&NameTable::empty()).expect("resolves");
    let score = names.identifier_of(DeclarationKind::Type, &Name::new("Score")).expect("stream row");
    names.rename(&score, Name::new("Rating")).expect("named identifier");
    let renamed = core.project(&names, schema.identity().clone()).expect("every identifier is named");
    assert_eq!(renamed.streams()[0].name.as_str(), "Rating");
    assert_eq!(struct_field_names(&renamed), vec!["label".to_string(), "rating".to_string()]);
    // Decomposing the renamed schema against the renamed table keeps the identifier.
    let (_, again) = renamed.decompose(&names).expect("resolves");
    assert_eq!(again.identifier_of(DeclarationKind::Type, &Name::new("Rating")), Some(score));
}

#[test]
fn decomposition_refuses_a_relation_segment_naming_nothing() {
    let schema = projected(&table());
    match schema.decompose(&NameTable::empty()) {
        Err(SchemaError::RelationSegmentUnresolved { segment }) => assert_eq!(segment, "Score"),
        other => panic!("expected RelationSegmentUnresolved, got {:?}", other.map(|_| ())),
    }
}
