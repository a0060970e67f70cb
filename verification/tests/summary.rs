//! Source positions, module summaries, environment modules, and nodes.

use schema_language::error::SchemaError;
use schema_language::module::SchemaModuleSource;
use schema_language::name::{Name, SchemaIdentity};
use schema_language::node::{SchemaNode, SchemaNodeData, SchemaNodePair, SchemaNodeValue};
use schema_language::source::{
    SchemaSource, SchemaSourceArtifact, SourceDeclarationValue, SourceEnumBody, SourceField,
    SourceGenerics, SourceImplCatalog, SourceImports, SourceNamespace, SourceNamespaceEntry,
    SourceNamespaceEntryValue, SourceRelations, SourceRootBody, SourceRootEnum, SourceStructBody,
    SourceVariantSignature,
};
use schema_language::summary::{
    SchemaEnvironmentManifest, SchemaEnvironmentModule, SchemaEnvironmentResult, SchemaNodeType,
    SchemaRootBlockKind, SchemaRootBlockSummary, SchemaRootObject, SchemaSourcePosition,
    SchemaSourceRange, SchemaSourceSummary,
};

fn position(byte: usize, line: usize, column: usize) -> SchemaSourcePosition {
    SchemaSourcePosition { byte, line, column }
}

fn span(start: usize, end: usize) -> SchemaSourceRange {
    SchemaSourceRange::new(position(start, 1, start + 1), position(end, 1, end + 1))
}

fn object(is_brace: bool, start: usize, end: usize) -> SchemaRootObject {
    SchemaRootObject { is_brace, span: span(start, end) }
}

#[test]
fn document_start_is_byte_zero_line_one_column_one() {
    let start = SchemaSourcePosition::new_document_start();
    assert_eq!((start.byte(), start.line(), start.column()), (0, 1, 1));
}

#[test]
fn end_position_counts_bytes_lines_and_columns() {
    let end = SchemaSourcePosition::from_source_text("ab\ncd");
    assert_eq!((end.byte(), end.line(), end.column()), (5, 2, 3));
    let empty = SchemaSourcePosition::from_source_text("");
    assert_eq!(empty, SchemaSourcePosition::new_document_start());
    let trailing = SchemaSourcePosition::from_source_text("x\n");
    assert_eq!((trailing.byte(), trailing.line(), trailing.column()), (2, 2, 1));
}

#[test]
fn multibyte_characters_move_one_column_and_several_bytes() {
    let end = SchemaSourcePosition::from_source_text("é€😀");
    assert_eq!((end.byte(), end.line(), end.column()), (9, 1, 4));
}

#[test]
fn source_range_spans_the_whole_text() {
    let range = SchemaSourceRange::from_source_text("(A)\n(B)");
    assert_eq!(*range.start(), SchemaSourcePosition::new_document_start());
    assert_eq!(*range.end(), position(7, 2, 4));
}

#[test]
fn root_blocks_with_a_leading_import_block() {
    let roots = [object(true, 0, 4), object(false, 5, 9), object(false, 10, 14), object(false, 15, 20)];
    let blocks = SchemaRootBlockSummary::from_document(&roots);
    let kinds: Vec<SchemaRootBlockKind> = blocks.iter().map(|b| b.kind()).collect();
    assert_eq!(
        kinds,
        vec![
            SchemaRootBlockKind::Imports,
            SchemaRootBlockKind::Input,
            SchemaRootBlockKind::Output,
            SchemaRootBlockKind::Namespace,
        ]
    );
    assert_eq!(*blocks[1].range(), span(5, 9));
    assert_eq!(blocks[0].node_type(), SchemaNodeType::Imports);
    assert_eq!(blocks[1].node_type(), SchemaNodeType::InputRoot);
}

#[test]
fn root_blocks_without_imports_start_at_input() {
    let roots = [
        object(false, 0, 3),
        object(false, 4, 7),
        object(true, 8, 11),
        object(false, 12, 15),
        object(false, 16, 19),
    ];
    let blocks = SchemaRootBlockSummary::from_document(&roots);
    let kinds: Vec<SchemaRootBlockKind> = blocks.iter().map(|b| b.kind()).collect();
    assert_eq!(
        kinds,
        vec![
            SchemaRootBlockKind::Input,
            SchemaRootBlockKind::Output,
            SchemaRootBlockKind::Namespace,
            SchemaRootBlockKind::Relations,
        ]
    );
    assert_eq!(*blocks[3].range(), span(12, 15));
    assert_eq!(blocks[3].node_type(), SchemaNodeType::Relations);
}

#[test]
fn root_blocks_of_an_empty_document_are_empty() {
    assert!(SchemaRootBlockSummary::from_document(&[]).is_empty());
}

#[test]
fn node_types_follow_block_kinds() {
    assert_eq!(SchemaNodeType::from_root_block_kind(SchemaRootBlockKind::Output), SchemaNodeType::OutputRoot);
    assert_eq!(SchemaNodeType::from_root_block_kind(SchemaRootBlockKind::Namespace), SchemaNodeType::Namespace);
}

#[test]
fn module_summary_labels_the_file_then_each_block() {
    let text = "{}\n(A)\n(B)";
    let roots = [object(true, 0, 2), object(false, 3, 6), object(false, 7, 10)];
    let summary = SchemaSourceSummary::from_module_source("demo/lib.schema", text, &roots);
    assert_eq!(summary.path(), "demo/lib.schema");
    assert_eq!(*summary.file_range().end(), position(10, 3, 4));
    assert_eq!(summary.root_blocks().len(), 3);
    let labels: Vec<SchemaNodeType> = summary.node_type_labels().iter().map(|l| l.node_type()).collect();
    assert_eq!(
        labels,
        vec![SchemaNodeType::Module, SchemaNodeType::Imports, SchemaNodeType::InputRoot, SchemaNodeType::OutputRoot]
    );
    assert_eq!(*summary.node_type_labels()[0].range(), *summary.file_range());
    assert_eq!(*summary.node_type_labels()[2].range(), span(3, 6));
}

fn root(root_name: &str, variant: &str) -> SourceRootEnum {
    SourceRootEnum {
        name: Name::new(root_name),
        body: SourceRootBody::Enum(SourceEnumBody::new(vec![SourceVariantSignature::from_name(Name::new(variant))])),
    }
}

fn small_source(entries: Vec<SourceNamespaceEntry>) -> SchemaSource {
    SchemaSource {
        imports: SourceImports::empty(),
        generics: SourceGenerics { entries: Vec::new() },
        input: root("Input", "Ping"),
        output: root("Output", "Pong"),
        namespace: SourceNamespace { entries },
        relations: SourceRelations::empty(),
    }
}

fn reserved_entry() -> SourceNamespaceEntry {
    SourceNamespaceEntry {
        name: Name::new("String"),
        parameters: Vec::new(),
        value: SourceNamespaceEntryValue::Declaration(SourceDeclarationValue::Struct(SourceStructBody::new(vec![
            SourceField::derived(Name::new("Integer")),
        ]))),
        impls: SourceImplCatalog::empty(),
    }
}

fn module_source() -> SchemaModuleSource {
    SchemaModuleSource::new(
        SchemaIdentity::new("demo:lib", "0.1.0"),
        "demo/lib.schema".to_string(),
        "(Input Ping)\n(Output Pong)".to_string(),
    )
}

#[test]
fn environment_module_lowers_and_summarises() {
    let roots = [object(false, 0, 12), object(false, 13, 26)];
    let module = SchemaEnvironmentModule::from_parsed(
        module_source(),
        SchemaSourceArtifact::new(small_source(Vec::new())),
        &roots,
        Vec::new(),
        Vec::new(),
    )
    .expect("the module lowers");
    assert_eq!(module.true_schema().identity().component().as_str(), "demo:lib");
    assert_eq!(module.summary().path(), "demo/lib.schema");
    assert_eq!(module.summary().root_blocks().len(), 2);
    assert_eq!(module.source().path(), "demo/lib.schema");
    let output = module.true_schema().output().as_enum().expect("enum root");
    assert_eq!(output.variants[0].name.as_str(), "Pong");
    assert_eq!(module.artifact().source().output.name.as_str(), "Output");
    let result = SchemaEnvironmentResult::new(vec![module]);
    assert_eq!(result.modules().len(), 1);
}

#[test]
fn environment_module_reports_a_lowering_error() {
    let roots = [object(false, 0, 12), object(false, 13, 26)];
    let result = SchemaEnvironmentModule::from_parsed(
        module_source(),
        SchemaSourceArtifact::new(small_source(vec![reserved_entry()])),
        &roots,
        Vec::new(),
        Vec::new(),
    );
    match result {
        Err(SchemaError::ReservedScalarTypeName { name }) => assert_eq!(name, "String"),
        other => panic!("expected ReservedScalarTypeName, got {other:?}"),
    }
}

#[test]
fn manifest_keeps_module_order() {
    let manifest = SchemaEnvironmentManifest::new(vec![Name::new("lib"), Name::new("extra")]);
    let names: Vec<&str> = manifest.module_names().iter().map(|n| n.as_str()).collect();
    assert_eq!(names, vec!["lib", "extra"]);
}

#[test]
fn nodes_hold_their_tag_and_data() {
    let pair = SchemaNodePair::new(Name::new("limit"), SchemaNodeValue::Text("10".to_string()));
    assert_eq!(pair.key().as_str(), "limit");
    assert!(matches!(pair.value(), SchemaNodeValue::Text(t) if t == "10"));
    let node = SchemaNode::new(Name::new("Default"), SchemaNodeData::MapOf(vec![pair]));
    assert_eq!(node.tag().as_str(), "Default");
    match node.data() {
        SchemaNodeData::MapOf(pairs) => assert_eq!(pairs.len(), 1),
        other => panic!("map expected, got {other:?}"),
    }
    let nested = SchemaNodeValue::Node(Box::new(SchemaNode::new(Name::new("Unit"), SchemaNodeData::Unit)));
    assert!(matches!(nested, SchemaNodeValue::Node(_)));
}
