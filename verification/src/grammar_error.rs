//! The one typed error for decoding, validating, or generating from a
//! [`crate::ReferenceGrammar`].
use vstd::prelude::*;

use crate::grammar::BuiltinHead;

verus! {

/// Everything that can go wrong decoding, validating, or generating from a
/// [`crate::ReferenceGrammar`].
#[derive(Debug, Clone)]
pub enum Error {
    /// The NOTA text did not decode into a `ReferenceGrammar` value.
    Decode(String),
    /// The grammar carries more than one application catch-all; precedence is
    /// then ambiguous because two tails could both claim a block.
    DuplicateApplication { count: usize },
    /// The application catch-all is present but is not the final form, so the
    /// forms after it are unreachable.
    ApplicationNotLast { position: usize, total: usize },
    /// Two `Builtin` forms claim the same head, so the second arm is dead.
    DuplicateBuiltinHead(BuiltinHead),
    /// The grammar has no application catch-all.
    MissingApplication,
    /// More than one declared-macro marker; the registry stage is one rung.
    DuplicateDeclaredMacro { count: usize },
    /// A `Builtin` form follows a fallback marker.
    BuiltinAfterMarker { position: usize },
}

} // verus!
