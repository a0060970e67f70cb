//! The build-time schema language: typed schema values, their verified
//! lowering checks, edits, identities, and the reference-resolution grammar.
use vstd::prelude::*;

pub mod arity;
pub mod checks;
pub mod closure;
pub mod decompose;
pub mod digest;
pub mod error;
pub mod grammar;
pub mod grammar_error;
pub mod grammar_text;
pub mod hex;
pub mod identifier;
pub mod identity;
pub mod impls;
pub mod lookup;
pub mod lowering;
pub mod module;
pub mod order;
pub mod name;
pub mod node;
pub mod paths;
pub mod reference;
pub mod resolve;
pub mod schema;
pub mod source;
pub mod substrate;
pub mod summary;
pub mod text;
pub mod true_schema;
pub mod upgrade;
pub mod validate;
pub mod views;

pub use grammar::{ArgumentCount, BuiltinArity, BuiltinHead, ReferenceForm, ReferenceGrammar};
pub use error::SchemaError;
pub use grammar_error::Error;
pub use name::{Name, SchemaIdentity, SymbolPath, TableName};
pub use validate::ValidatedReferenceGrammar;

verus! {
} // verus!
