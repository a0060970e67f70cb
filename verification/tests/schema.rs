//! The schema model: lookups, symbol paths, and the checks a lowered
//! schema passes.

use schema_language::error::SchemaError;
use schema_language::impls::{
    ImplBlock, ImplCatalog, ImplCompositionKey, ImplFact, ImplReference, MethodParameter,
    MethodSignature,
};
use schema_language::checks::RustSurface;
use schema_language::name::{Name, SchemaIdentity, SymbolPath, TableName};
use schema_language::reference::{ApplicationHead, ImportSource, ImportedHead, TypeReference};
use schema_language::schema::{
    Declaration, EnumDeclaration, EnumVariant, FamilyDeclaration, FamilyKey, FieldDeclaration,
    GenericBuiltin, GenericDefinition, GenericFrame, ImportDeclaration, RelationDeclaration,
    RelationValue, StreamDeclaration, StreamRelation, StructDeclaration, StructFieldMap,
    TypeDeclaration, Visibility,
};
use schema_language::true_schema::{Root, RootApplication, SchemaDeclaredType, SymbolPathPosition, TrueSchema};

fn name(text: &str) -> Name {
    Name::new(text)
}

fn field(field_name: &str, reference: TypeReference) -> FieldDeclaration {
    FieldDeclaration { name: name(field_name), reference }
}

fn variant(variant_name: &str, payload: Option<TypeReference>) -> EnumVariant {
    EnumVariant::new(name(variant_name), payload)
}

fn identity() -> SchemaIdentity {
    SchemaIdentity::new("demo:lib", "0.1.0")
}

fn roots() -> (Root, Root) {
    (
        Root::Enum(EnumDeclaration::new(
            name("Input"),
            vec![variant("Submit", Some(TypeReference::new("Message"))), variant("Ping", None)],
        )),
        Root::Enum(EnumDeclaration::new(
            name("Output"),
            vec![variant("Accepted", Some(TypeReference::new("Receipt")))],
        )),
    )
}

fn namespace() -> Vec<Declaration> {
    vec![
        Declaration::public(TypeDeclaration::Struct(StructDeclaration::new(
            name("Message"),
            vec![field("topic", TypeReference::new("Topic")), field("string", TypeReference::String)],
        ))),
        Declaration::public(TypeDeclaration::Enum(EnumDeclaration::new(
            name("Topic"),
            vec![variant("News", None), variant("Sport", None)],
        ))),
        Declaration::private(TypeDeclaration::Struct(StructDeclaration::new(
            name("Receipt"),
            vec![field("integer", TypeReference::Integer)],
        ))),
    ]
}

fn schema() -> TrueSchema {
    let (input, output) = roots();
    TrueSchema::new(
        identity(),
        Vec::new(),
        Vec::new(),
        Vec::new(),
        input,
        output,
        namespace(),
        Vec::new(),
        Vec::new(),
        Vec::new(),
    )
}

fn schema_with(namespace: Vec<Declaration>, input: Root, output: Root) -> TrueSchema {
    TrueSchema::new(
        identity(),
        Vec::new(),
        Vec::new(),
        Vec::new(),
        input,
        output,
        namespace,
        Vec::new(),
        Vec::new(),
        Vec::new(),
    )
}

#[test]
fn lookups_find_the_first_declaration_by_name() {
    let schema = schema();
    assert_eq!(schema.type_named("Topic").map(|t| t.name().as_str()), Some("Topic"));
    assert!(schema.type_named("Missing").is_none());
    assert_eq!(schema.root_named("Output").map(|r| r.name().as_str()), Some("Output"));
    assert_eq!(schema.root_enum_named("Input").map(|e| e.variants.len()), Some(2));
    assert!(matches!(schema.declared_type_named("Receipt"), Some(SchemaDeclaredType::Namespace(_))));
    assert!(matches!(schema.declared_type_named("Input"), Some(SchemaDeclaredType::Root(_))));
    assert!(schema.declared_type_named("Nothing").is_none());
    assert_eq!(schema.declared_parameter_count("Message"), Some(0));
    assert_eq!(schema.declared_parameter_count("Nothing"), None);
    assert!(schema.namespace()[2].is_private());
    assert_eq!(schema.namespace()[0].visibility(), Visibility::Public);
}

#[test]
fn symbol_paths_name_component_then_local_segments() {
    let schema = schema();
    let path = schema.type_path("Message").expect("declared type");
    let segments: Vec<&str> = path.segments().iter().map(|n| n.as_str()).collect();
    assert_eq!(segments, vec!["demo:lib", "Message"]);
    let field_path = schema.field_path("Message", "string").expect("declared field");
    let segments: Vec<&str> = field_path.segments().iter().map(|n| n.as_str()).collect();
    assert_eq!(segments, vec!["demo:lib", "Message", "string"]);
    assert!(schema.field_path("Topic", "string").is_none());
    assert!(schema.root_variant_path("Input", "Ping").is_some());
    assert!(schema.root_variant_path("Input", "Pong").is_none());
    assert!(schema.enum_variant_path("Topic", "Sport").is_some());
    assert!(schema.enum_variant_path("Message", "Sport").is_none());
}

#[test]
fn symbol_path_positions_are_asked_in_order() {
    let schema = schema();
    let component = name("demo:lib");
    let at = |segments: &[&str]| {
        let mut all = vec![component.clone()];
        all.extend(segments.iter().map(|s| name(s)));
        SymbolPath::new(all)
    };
    let type_path = at(&["Topic"]);
    assert!(matches!(schema.symbol_path_position(&type_path), Some(SymbolPathPosition::Type { .. })));
    let root_path = at(&["Input", "Ping"]);
    assert!(matches!(
        schema.symbol_path_position(&root_path),
        Some(SymbolPathPosition::RootVariant { .. })
    ));
    let field_path = at(&["Message", "topic"]);
    assert!(matches!(schema.symbol_path_position(&field_path), Some(SymbolPathPosition::Field { .. })));
    let variant_path = at(&["Topic", "News"]);
    assert!(matches!(
        schema.symbol_path_position(&variant_path),
        Some(SymbolPathPosition::EnumVariant { .. })
    ));
    let foreign = SymbolPath::new(vec![name("other:lib"), name("Topic")]);
    assert!(schema.symbol_path_position(&foreign).is_none());
    let too_long = at(&["Message", "topic", "extra"]);
    assert!(schema.symbol_path_position(&too_long).is_none());
}

#[test]
fn built_paths_lead_back_to_their_positions() {
    let schema = schema();
    let type_path = schema.type_path("Message").expect("declared type");
    match schema.symbol_path_position(&type_path) {
        Some(SymbolPathPosition::Type { type_ident }) => assert_eq!(type_ident.as_str(), "Message"),
        other => panic!("expected a type position, got {other:?}"),
    }
    let field_path = schema.field_path("Message", "topic").expect("declared field");
    match schema.symbol_path_position(&field_path) {
        Some(SymbolPathPosition::Field { type_ident, field_name }) => {
            assert_eq!(type_ident.as_str(), "Message");
            assert_eq!(field_name.as_str(), "topic");
        }
        other => panic!("expected a field position, got {other:?}"),
    }
    let variant_path = schema.enum_variant_path("Topic", "Sport").expect("declared variant");
    assert!(matches!(schema.symbol_path_position(&variant_path), Some(SymbolPathPosition::EnumVariant { .. })));
    let root_path = schema.root_variant_path("Input", "Ping").expect("root variant");
    assert!(matches!(schema.symbol_path_position(&root_path), Some(SymbolPathPosition::RootVariant { .. })));
}

#[test]
fn unique_components_must_carry_their_derived_name() {
    let explicit = StructFieldMap::new(vec![field("label", TypeReference::String)]);
    match explicit.product_components_verified() {
        Err(SchemaError::ExplicitFieldOnUniqueProductComponent { field, type_ident }) => {
            assert_eq!(field, "label");
            assert_eq!(type_ident, "String");
        }
        other => panic!("expected ExplicitFieldOnUniqueProductComponent, got {other:?}"),
    }
    let derived = StructFieldMap::new(vec![
        field("topic", TypeReference::new("Topic")),
        field("topic_vector", TypeReference::Vector(Box::new(TypeReference::new("Topic")))),
    ]);
    assert!(derived.product_components_verified().is_ok());
}

#[test]
fn repeated_components_must_be_told_apart() {
    let implicit = StructFieldMap::new(vec![
        field("string", TypeReference::String),
        field("other", TypeReference::String),
    ]);
    match implicit.product_components_verified() {
        Err(SchemaError::DuplicateImplicitProductComponent { type_ident }) => assert_eq!(type_ident, "String"),
        other => panic!("expected DuplicateImplicitProductComponent, got {other:?}"),
    }
    let repeated = StructFieldMap::new(vec![
        field("first", TypeReference::String),
        field("first", TypeReference::String),
    ]);
    match repeated.product_components_verified() {
        Err(SchemaError::DuplicateExplicitProductComponentIdentity { field, type_ident }) => {
            assert_eq!(field, "first");
            assert_eq!(type_ident, "String");
        }
        other => panic!("expected DuplicateExplicitProductComponentIdentity, got {other:?}"),
    }
    let distinct = StructFieldMap::new(vec![
        field("from", TypeReference::String),
        field("to", TypeReference::String),
    ]);
    assert!(distinct.product_components_verified().is_ok());
    assert_eq!(distinct.reference_count(&TypeReference::String), 2);
}

#[test]
fn schema_products_are_checked_declaration_by_declaration() {
    assert!(schema().product_components_verified().is_ok());
    let mut declarations = namespace();
    declarations.push(Declaration::public(TypeDeclaration::Struct(StructDeclaration::new(
        name("Bad"),
        vec![field("label", TypeReference::Boolean)],
    ))));
    let (input, output) = roots();
    let bad = schema_with(declarations, input, output);
    assert!(matches!(
        bad.product_components_verified(),
        Err(SchemaError::ExplicitFieldOnUniqueProductComponent { .. })
    ));
}

fn frame_generic() -> GenericDefinition {
    GenericDefinition::new(
        name("Work"),
        GenericBuiltin::Frame(GenericFrame::new(
            vec![name("Event"), name("Done")],
            vec![variant("Arrived", Some(TypeReference::new("Event"))), variant("Finished", Some(TypeReference::new("Done")))],
        )),
    )
}

fn application(head: &str, arguments: Vec<TypeReference>) -> TypeReference {
    TypeReference::Application { head: ApplicationHead::Local(name(head)), arguments }
}

#[test]
fn application_arity_must_match_the_declared_head() {
    let (input, output) = roots();
    let mut declarations = namespace();
    declarations.push(Declaration::public(TypeDeclaration::Struct(StructDeclaration::new(
        name("Holder"),
        vec![field("work_topic", application("Work", vec![TypeReference::new("Topic")]))],
    ))));
    let wrong = TrueSchema::new(
        identity(),
        Vec::new(),
        Vec::new(),
        vec![frame_generic()],
        input,
        output,
        declarations,
        Vec::new(),
        Vec::new(),
        Vec::new(),
    );
    match wrong.arities_verified() {
        Err(SchemaError::GenericArityMismatch { head, expected, found }) => {
            assert_eq!(head, "Work");
            assert_eq!(expected, 2);
            assert_eq!(found, 1);
        }
        other => panic!("expected GenericArityMismatch, got {other:?}"),
    }
    assert!(schema().arities_verified().is_ok());
}

#[test]
fn variant_payloads_may_not_be_optional_or_same_named() {
    let optional_root = Root::Enum(EnumDeclaration::new(
        name("Input"),
        vec![variant("Maybe", Some(TypeReference::Optional(Box::new(TypeReference::String))))],
    ));
    let (_, output) = roots();
    match schema_with(namespace(), optional_root, output).arities_verified() {
        Err(SchemaError::OptionalVariantPayload { enum_name, variant_name }) => {
            assert_eq!(enum_name, "Input");
            assert_eq!(variant_name, "Maybe");
        }
        other => panic!("expected OptionalVariantPayload, got {other:?}"),
    }
    let (input, output) = roots();
    let mut declarations = namespace();
    declarations.push(Declaration::public(TypeDeclaration::Enum(EnumDeclaration::new(
        name("Wrapper"),
        vec![variant("Topic", Some(TypeReference::new("Topic")))],
    ))));
    match schema_with(declarations, input, output).arities_verified() {
        Err(SchemaError::SameNamedVariantPayload { enum_name, variant_name, payload_type }) => {
            assert_eq!(enum_name, "Wrapper");
            assert_eq!(variant_name, "Topic");
            assert_eq!(payload_type, "Topic");
        }
        other => panic!("expected SameNamedVariantPayload, got {other:?}"),
    }
}

#[test]
fn family_records_must_resolve() {
    let (input, output) = roots();
    let families = vec![FamilyDeclaration::new(
        name("messages"),
        name("Message"),
        TableName::new("message_table"),
        FamilyKey::Domain,
    )];
    let good = TrueSchema::new(identity(), Vec::new(), Vec::new(), Vec::new(), input, output, namespace(), Vec::new(), families, Vec::new());
    assert!(good.families_verified().is_ok());
    let (input, output) = roots();
    let families = vec![FamilyDeclaration::new(
        name("ghosts"),
        name("Ghost"),
        TableName::new("ghost_table"),
        FamilyKey::Identified,
    )];
    let bad = TrueSchema::new(identity(), Vec::new(), Vec::new(), Vec::new(), input, output, namespace(), Vec::new(), families, Vec::new());
    match bad.families_verified() {
        Err(SchemaError::FamilyRecordNotFound { family, record }) => {
            assert_eq!(family, "ghosts");
            assert_eq!(record, "Ghost");
        }
        other => panic!("expected FamilyRecordNotFound, got {other:?}"),
    }
}

fn signature(method: &str, parameters: Vec<(&str, TypeReference)>, ret: TypeReference) -> MethodSignature {
    MethodSignature::new(
        name(method),
        parameters.into_iter().map(|(n, r)| MethodParameter::new(name(n), r)).collect(),
        ret,
    )
}

#[test]
fn signatures_render_name_parameters_and_return() {
    let send = signature("send", vec![("message", TypeReference::new("Message"))], TypeReference::Boolean);
    assert_eq!(send.render(), "send { message.(Plain Message) } Boolean");
    let bare = signature("reset", vec![], TypeReference::Vector(Box::new(TypeReference::Integer)));
    assert_eq!(bare.render(), "reset {  } (Vector Integer)");
    let entry = ImplReference::InherentMethod(send.clone());
    assert_eq!(entry.label(), "send { message.(Plain Message) } Boolean");
    assert!(matches!(entry.composition_key(), ImplCompositionKey::Method(_)));
    let marker = ImplReference::Marker(name("Clone"));
    assert_eq!(marker.label(), "Clone");
    assert_eq!(marker.composition_key(), ImplCompositionKey::Trait("Clone".to_owned()));
    assert!(marker.methods().is_empty());
    assert_eq!(entry.methods().len(), 1);
    assert!(entry.trait_name().is_none());
}

fn schema_with_impls(blocks: Vec<ImplBlock>) -> TrueSchema {
    let mut declarations = namespace();
    let message = declarations.remove(0);
    declarations.insert(
        0,
        message.with_impls(ImplCatalog::new(vec![ImplReference::Marker(name("Clone"))])),
    );
    let (input, output) = roots();
    schema_with(declarations, input, output).with_impl_blocks(blocks)
}

#[test]
fn impl_blocks_must_target_declared_types_without_duplicates() {
    let good = schema_with_impls(vec![ImplBlock::new(
        name("Topic"),
        ImplCatalog::new(vec![ImplReference::Marker(name("Debug"))]),
    )]);
    let manifest: Vec<(String, String)> = good
        .referenced_impls()
        .iter()
        .map(|r| (r.target().as_str().to_owned(), r.entry().label()))
        .collect();
    assert_eq!(
        manifest,
        vec![("Message".to_owned(), "Clone".to_owned()), ("Topic".to_owned(), "Debug".to_owned())]
    );
    assert!(good.impls_verified().is_ok());

    let unresolved = schema_with_impls(vec![ImplBlock::new(name("Nowhere"), ImplCatalog::empty())]);
    match unresolved.impls_verified() {
        Err(SchemaError::UnresolvedImplTarget { name }) => assert_eq!(name, "Nowhere"),
        other => panic!("expected UnresolvedImplTarget, got {other:?}"),
    }

    let duplicate = schema_with_impls(vec![ImplBlock::new(
        name("Message"),
        ImplCatalog::new(vec![ImplReference::TraitImpl(name("Clone"), Vec::new())]),
    )]);
    match duplicate.impls_verified() {
        Err(SchemaError::DuplicateImplEntry { target, entry }) => {
            assert_eq!(target, "Message");
            assert_eq!(entry, "Clone");
        }
        other => panic!("expected DuplicateImplEntry, got {other:?}"),
    }
}

#[test]
fn the_rust_surface_must_hold_every_referenced_impl() {
    let send = signature("send", vec![("message", TypeReference::new("Message"))], TypeReference::Boolean);
    let schema = schema_with_impls(vec![ImplBlock::new(
        name("Topic"),
        ImplCatalog::new(vec![ImplReference::InherentMethod(send.clone())]),
    )]);
    let full = RustSurface::new(vec![
        ImplFact::trait_impl(name("Message"), name("Clone")),
        ImplFact::method(name("Topic"), send.clone()),
    ]);
    assert!(full.verify_catalog(&schema).is_ok());

    let missing_trait = RustSurface::new(vec![ImplFact::method(name("Topic"), send.clone())]);
    match missing_trait.verify_catalog(&schema) {
        Err(SchemaError::UnverifiedImplReference { target, kind, signature }) => {
            assert_eq!(target, "Message");
            assert_eq!(kind, "trait impl");
            assert_eq!(signature, "Clone");
        }
        other => panic!("expected a missing trait, got {other:?}"),
    }

    let other_send = signature("send", vec![("message", TypeReference::String)], TypeReference::Boolean);
    let wrong_method = RustSurface::new(vec![
        ImplFact::trait_impl(name("Message"), name("Clone")),
        ImplFact::method(name("Topic"), other_send),
    ]);
    match wrong_method.verify_catalog(&schema) {
        Err(SchemaError::UnverifiedImplReference { target, kind, signature }) => {
            assert_eq!(target, "Topic");
            assert_eq!(kind, "method signature");
            assert_eq!(signature, "send { message.(Plain Message) } Boolean");
        }
        other => panic!("expected a missing method, got {other:?}"),
    }
}

#[test]
fn more_facts_keep_a_verified_catalog_verified() {
    let send = signature("send", vec![("message", TypeReference::new("Message"))], TypeReference::Boolean);
    let other_send = signature("send", vec![("message", TypeReference::String)], TypeReference::Boolean);
    let schema = schema_with_impls(vec![ImplBlock::new(
        name("Topic"),
        ImplCatalog::new(vec![ImplReference::InherentMethod(send.clone())]),
    )]);
    let fewer = RustSurface::new(vec![
        ImplFact::trait_impl(name("Message"), name("Clone")),
        ImplFact::method(name("Topic"), send.clone()),
    ]);
    let more = RustSurface::new(vec![
        ImplFact::method(name("Topic"), other_send),
        ImplFact::trait_impl(name("Topic"), name("Debug")),
        ImplFact::method(name("Topic"), send),
        ImplFact::trait_impl(name("Message"), name("Clone")),
    ]);
    assert!(fewer.verify_catalog(&schema).is_ok());
    assert!(more.verify_catalog(&schema).is_ok());
}

#[test]
fn application_roots_expand_their_frame_by_binder() {
    let (input, _) = roots();
    let work = RootApplication::new(
        name("Output"),
        ApplicationHead::Local(name("Work")),
        vec![TypeReference::new("Message"), TypeReference::Integer],
    );
    let schema = TrueSchema::new(
        identity(),
        Vec::new(),
        Vec::new(),
        vec![frame_generic()],
        input,
        Root::application(work),
        namespace(),
        Vec::new(),
        Vec::new(),
        Vec::new(),
    );
    let application = schema.output().as_application().expect("application root");
    let expanded = schema.expand_application_root(application).expect("frame head");
    assert_eq!(expanded.name.as_str(), "Output");
    assert_eq!(expanded.variants.len(), 2);
    assert_eq!(expanded.variants[0].name.as_str(), "Arrived");
    assert_eq!(expanded.variants[0].payload, Some(TypeReference::new("Message")));
    assert_eq!(expanded.variants[1].payload, Some(TypeReference::Integer));
    let (parameters, variants) = schema.declared_frame_body("Work").expect("frame");
    assert_eq!(parameters.len(), 2);
    assert_eq!(variants.len(), 2);
    assert_eq!(schema.declared_parameter_count("Work"), None);
    let unknown = RootApplication::new(name("Input"), ApplicationHead::Local(name("Nothing")), Vec::new());
    assert!(schema.expand_application_root(&unknown).is_none());
}

#[test]
fn imported_heads_expand_the_frame_they_carry() {
    let (input, _) = roots();
    let head = ApplicationHead::Imported(ImportedHead {
        local_name: name("Work"),
        source: ImportSource::new(name("dep"), name("lib"), name("Work")),
        parameter_count: Some(2),
        parameters: vec![name("Event"), name("Done")],
        variants: vec![
            variant("Arrived", Some(TypeReference::new("Event"))),
            variant("Finished", Some(TypeReference::new("Done"))),
        ],
    });
    let work = RootApplication::new(name("Output"), head, vec![TypeReference::new("Message"), TypeReference::Integer]);
    let schema = TrueSchema::new(
        identity(),
        Vec::new(),
        Vec::new(),
        Vec::new(),
        input,
        Root::application(work),
        namespace(),
        Vec::new(),
        Vec::new(),
        Vec::new(),
    );
    let application = schema.output().as_application().expect("application root");
    let expanded = schema.expand_application_root(application).expect("imported frame");
    assert_eq!(expanded.name.as_str(), "Output");
    assert_eq!(expanded.variants.len(), 2);
    assert_eq!(expanded.variants[0].payload, Some(TypeReference::new("Message")));
    assert_eq!(expanded.variants[1].payload, Some(TypeReference::Integer));
}

#[test]
fn sibling_applications_are_reaimed_at_the_sibling_root() {
    let input_application = RootApplication::new(
        name("Input"),
        ApplicationHead::Local(name("Loop")),
        vec![TypeReference::Integer],
    );
    let output_application = RootApplication::new(
        name("Output"),
        ApplicationHead::Local(name("Loop")),
        vec![application("Loop", vec![TypeReference::Integer])],
    );
    let frame = GenericDefinition::new(
        name("Loop"),
        GenericBuiltin::Frame(GenericFrame::new(
            vec![name("Step")],
            vec![variant("Continue", Some(TypeReference::new("Step")))],
        )),
    );
    let schema = TrueSchema::new(
        identity(),
        Vec::new(),
        Vec::new(),
        vec![frame],
        Root::application(input_application),
        Root::application(output_application),
        Vec::new(),
        Vec::new(),
        Vec::new(),
        Vec::new(),
    );
    let output = schema.output().as_application().expect("application root");
    let expanded = schema.expand_application_root(output).expect("frame head");
    assert_eq!(expanded.variants[0].payload, Some(TypeReference::new("Input")));
}

#[test]
fn references_print_in_dotted_and_canonical_text() {
    let map = TypeReference::MapOf(Box::new(TypeReference::String), Box::new(TypeReference::new("Topic")));
    assert_eq!(map.structural_text(), "Map.(String Topic)");
    assert_eq!(map.to_nota(), "(Map String (Plain Topic))");
    let vector = TypeReference::Vector(Box::new(map));
    assert_eq!(vector.structural_text(), "Vector.(Map.(String Topic))");
    let fixed = TypeReference::FixedBytes(32);
    assert_eq!(fixed.structural_text(), "Bytes.32");
    assert_eq!(fixed.to_nota(), "(FixedBytes 32)");
    let app = application("Pair", vec![TypeReference::Integer, TypeReference::Boolean]);
    assert_eq!(app.structural_text(), "Pair.(Integer Boolean)");
    assert_eq!(app.to_nota(), "(Application (Pair (Integer Boolean)))");
    assert_eq!(app.derived_field_name().as_str(), "pair_integer_boolean");
    let optional = TypeReference::Optional(Box::new(TypeReference::new("MessageBody")));
    assert_eq!(optional.derived_field_name().as_str(), "optional_message_body");
}

#[test]
fn relations_and_streams_keep_their_parts() {
    let relation = RelationDeclaration::Equivalence(vec![RelationValue::new(vec![name("Message"), name("topic")])]);
    assert_eq!(relation.values().len(), 1);
    assert_eq!(relation.values()[0].path().len(), 2);
    let stream = StreamDeclaration::new(
        name("Feed"),
        TypeReference::new("Topic"),
        TypeReference::Boolean,
        TypeReference::new("Message"),
        TypeReference::Integer,
    );
    assert_eq!(stream.name.as_str(), "Feed");
    let opens = StreamRelation::Opens(name("Feed"));
    assert_eq!(opens.stream_name().as_str(), "Feed");
    assert_eq!(opens.keyword_text(), "opens");
    let import = ImportDeclaration { local_name: name("Remote"), source: TypeReference::new("dep:mod:Remote") };
    assert_eq!(import.local_name.as_str(), "Remote");
}

#[test]
fn markers_and_trait_impls_of_one_trait_compose_alike() {
    let send = signature("send", vec![("message", TypeReference::new("Message"))], TypeReference::Boolean);
    let marker = ImplReference::Marker(name("Display"));
    let listed = ImplReference::TraitImpl(name("Display"), vec![send.clone()]);
    assert_eq!(marker.composition_key(), listed.composition_key());
    assert_eq!(marker.composition_key(), ImplCompositionKey::Trait("Display".to_owned()));
    let inherent = ImplReference::InherentMethod(send.clone());
    assert_eq!(inherent.composition_key(), ImplCompositionKey::Method(send.render()));
    assert_ne!(inherent.composition_key(), marker.composition_key());
}
