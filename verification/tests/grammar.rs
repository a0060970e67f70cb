//! Decode and round-trip the reference grammar through its NOTA text.

use schema_language::{BuiltinArity, BuiltinHead, ReferenceForm, ReferenceGrammar};

const CANONICAL: &str = "(ReferenceGrammar (Builtin Vector 1) (Builtin Optional 1) \
                         (Builtin ScopeOf 1) (Builtin Map 2) (Builtin Bytes Atom) \
                         DeclaredMacro Application)";

fn builtin(head: &str, arity: BuiltinArity) -> ReferenceForm {
    ReferenceForm::Builtin(BuiltinHead::try_from(head).expect("PascalCase head"), arity)
}

#[test]
fn decodes_canonical_grammar_in_declared_order() {
    let grammar = ReferenceGrammar::from_structural_nota(CANONICAL).expect("canonical decodes");

    assert_eq!(
        grammar.forms(),
        &[
            builtin("Vector", BuiltinArity::count(1)),
            builtin("Optional", BuiltinArity::count(1)),
            builtin("ScopeOf", BuiltinArity::count(1)),
            builtin("Map", BuiltinArity::count(2)),
            builtin("Bytes", BuiltinArity::Atom),
            ReferenceForm::DeclaredMacro,
            ReferenceForm::Application,
        ]
    );
}

#[test]
fn builtin_form_exposes_its_head() {
    let grammar = ReferenceGrammar::from_structural_nota(CANONICAL).expect("canonical decodes");
    let heads: Vec<&str> = grammar
        .forms()
        .iter()
        .filter_map(ReferenceForm::builtin_head)
        .map(BuiltinHead::as_str)
        .collect();
    assert_eq!(heads, ["Vector", "Optional", "ScopeOf", "Map", "Bytes"]);
}

#[test]
fn atom_arity_is_distinct_from_a_count() {
    let bytes = builtin("Bytes", BuiltinArity::Atom);
    let ReferenceForm::Builtin(_, arity) = &bytes else {
        panic!("Bytes is a Builtin form");
    };
    assert_eq!(*arity, BuiltinArity::Atom);
    assert_eq!(arity.block_object_count(), 2);
    // A single type argument also occupies one trailing slot, but it is a
    // different value than the Atom marker.
    assert_ne!(BuiltinArity::count(1), BuiltinArity::Atom);
    assert_eq!(BuiltinArity::count(1).block_object_count(), 2);
    assert_eq!(BuiltinArity::count(2).block_object_count(), 3);
}

#[test]
fn canonical_grammar_round_trips_through_nota() {
    let grammar = ReferenceGrammar::from_structural_nota(CANONICAL).expect("canonical decodes");
    let reencoded = grammar.to_structural_nota();
    let redecoded =
        ReferenceGrammar::from_structural_nota(&reencoded).expect("re-encoded grammar decodes");
    assert_eq!(redecoded, grammar);
    assert_eq!(reencoded, CANONICAL);
}

#[test]
fn snake_case_of_builtin_heads() {
    let head = BuiltinHead::try_from("ScopeOf").expect("PascalCase head");
    assert_eq!(head.to_snake_case(), "scope_of");
    assert_eq!(BuiltinHead::try_from("Vector").unwrap().to_snake_case(), "vector");
    assert_eq!(BuiltinHead::try_from("ABc").unwrap().to_snake_case(), "a_bc");
}

#[test]
fn non_pascal_heads_are_rejected() {
    assert!(BuiltinHead::try_from("vector").is_err());
    assert!(BuiltinHead::try_from("").is_err());
    assert!(BuiltinHead::try_from("Vec-tor").is_err());
}

#[test]
fn malformed_grammar_text_is_a_decode_error() {
    assert!(ReferenceGrammar::from_structural_nota("(ReferenceGrammar (Builtin vector 1))").is_err());
    assert!(ReferenceGrammar::from_structural_nota("(Grammar Application)").is_err());
    assert!(ReferenceGrammar::from_structural_nota("(ReferenceGrammar (Builtin Map x))").is_err());
    assert!(ReferenceGrammar::from_structural_nota("(ReferenceGrammar Application").is_err());
    let empty = ReferenceGrammar::from_structural_nota("(ReferenceGrammar)").unwrap();
    assert!(empty.forms().is_empty());
    assert_eq!(empty.to_structural_nota(), "(ReferenceGrammar)");
}

#[test]
fn arities_read_back_from_their_text() {
    assert_eq!(BuiltinArity::Atom.to_structural_nota(), "Atom");
    assert_eq!(BuiltinArity::count(3).to_structural_nota(), "3");
    assert_eq!(BuiltinArity::from_structural_nota("Atom"), Some(BuiltinArity::Atom));
    assert_eq!(BuiltinArity::from_structural_nota("12"), Some(BuiltinArity::count(12)));
    assert_eq!(BuiltinArity::from_structural_nota(&BuiltinArity::count(7).to_structural_nota()), Some(BuiltinArity::count(7)));
    assert_eq!(BuiltinArity::from_structural_nota("Many"), None);
    assert_eq!(BuiltinArity::from_structural_nota(""), None);
}
