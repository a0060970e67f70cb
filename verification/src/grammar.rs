//! `ReferenceGrammar` — the parenthesis-reference dispatch precedence as data.
//!
//! The whole grammar is one NOTA value:
//!
//! ```text
//! (ReferenceGrammar (Builtin Vector 1) (Builtin Optional 1) (Builtin ScopeOf 1)
//!                    (Builtin Map 2) (Builtin Bytes Atom) DeclaredMacro Application)
//! ```
//!
//! It is an ordered list of [`ReferenceForm`]s; the order is the dispatch
//! precedence, tried top to bottom.
use vstd::prelude::*;

use crate::grammar_error::Error;
use crate::text::{char_is_upper, char_to_lower, is_alnum, is_upper, lower, push_char};

verus! {

/// A built-in head is PascalCase: a leading ASCII uppercase letter followed by
/// ASCII letters and digits.
pub open spec fn is_pascal_head(s: Seq<char>) -> bool {
    &&& s.len() > 0
    &&& is_upper(s[0])
    &&& forall|i: int| 0 <= i < s.len() ==> is_alnum(#[trigger] s[i])
}

/// A reserved built-in head, e.g. `Vector`, `Map`, `Bytes`. Always PascalCase.
#[derive(Clone, Debug, Eq, PartialEq, PartialOrd, Ord)]
pub struct BuiltinHead(String);

impl View for BuiltinHead {
    type V = Seq<char>;

    closed spec fn view(&self) -> Seq<char> {
        self.0@
    }
}

/// The snake_case rendering of one character at `index` of a PascalCase word.
pub open spec fn snake_piece(s: Seq<char>, index: int) -> Seq<char> {
    if is_upper(s[index]) {
        if index != 0 {
            seq!['_', lower(s[index])]
        } else {
            seq![lower(s[index])]
        }
    } else {
        seq![s[index]]
    }
}

/// The snake_case rendering of the first `n` characters.
pub open spec fn snake_prefix(s: Seq<char>, n: int) -> Seq<char>
    decreases n,
{
    if n <= 0 {
        Seq::empty()
    } else {
        snake_prefix(s, n - 1) + snake_piece(s, n - 1)
    }
}

/// The snake_case rendering of a PascalCase word: every uppercase letter is
/// lowered and, except at the start, preceded by an underscore.
pub open spec fn snake_case(s: Seq<char>) -> Seq<char> {
    snake_prefix(s, s.len() as int)
}

impl BuiltinHead {
    /// Decode a head from its atom text; the text must be PascalCase.
    pub fn try_from(text: &str) -> (result: Result<Self, Error>)
        ensures
            result is Ok <==> is_pascal_head(text@),
            result matches Ok(head) ==> head@ == text@,
            result matches Err(e) ==> e is Decode,
    {
        if is_pascal_text(text) {
            Ok(BuiltinHead(text.to_owned()))
        } else {
            let mut message = "built-in head is not a PascalCase atom: ".to_owned();
            message.append(text);
            Err(Error::Decode(message))
        }
    }

    /// A head from text already known to be PascalCase.
    pub(crate) fn from_checked(text: String) -> (r: Self)
        requires
            is_pascal_head(text@),
        ensures
            r@ == text@,
    {
        BuiltinHead(text)
    }

    /// An owned copy of this head.
    pub(crate) fn duplicate(&self) -> (r: Self)
        ensures
            r@ == self@,
    {
        BuiltinHead(self.0.clone())
    }

    /// Whether two heads are spelled the same.
    pub(crate) fn same_as(&self, other: &Self) -> (r: bool)
        ensures
            r == (self@ == other@),
    {
        self.0 == other.0
    }

    /// The head spelling.
    pub fn as_str(&self) -> (r: &str)
        ensures
            r@ == self@,
    {
        self.0.as_str()
    }

    /// The head spelling as an owned `String` (its display form).
    pub fn to_text(&self) -> (r: String)
        ensures
            r@ == self@,
    {
        self.0.clone()
    }

    /// The head's PascalCase spelling rendered in snake_case, e.g.
    /// `ScopeOf` -> `scope_of`. Used to name the per-built-in construction
    /// method (`resolve_<snake>`) the generated dispatch calls.
    pub fn to_snake_case(&self) -> (r: String)
        ensures
            r@ == snake_case(self@),
    {
        let text = self.0.as_str();
        let n = text.unicode_len();
        let mut snake = String::new();
        let mut index: usize = 0;
        while index < n
            invariant
                n == self@.len(),
                text@ == self@,
                index <= n,
                snake@ == snake_prefix(self@, index as int),
            decreases n - index,
        {
            let character = text.get_char(index);
            if char_is_upper(character) {
                if index != 0 {
                    push_char(&mut snake, '_');
                }
                push_char(&mut snake, char_to_lower(character));
            } else {
                push_char(&mut snake, character);
            }
            proof {
                assert(snake@ =~= snake_prefix(self@, index as int) + snake_piece(
                    self@,
                    index as int,
                ));
            }
            index = index + 1;
        }
        snake
    }
}

/// Whether `text` is a PascalCase head.
pub fn is_pascal_text(text: &str) -> (r: bool)
    ensures
        r == is_pascal_head(text@),
{
    let n = text.unicode_len();
    if n == 0 {
        return false;
    }
    if !char_is_upper(text.get_char(0)) {
        return false;
    }
    let mut i: usize = 0;
    while i < n
        invariant
            n == text@.len(),
            i <= n,
            forall|k: int| 0 <= k < i ==> is_alnum(#[trigger] text@[k]),
        decreases n - i,
    {
        let c = text.get_char(i);
        if !(('A' <= c && c <= 'Z') || ('a' <= c && c <= 'z') || ('0' <= c && c <= '9')) {
            return false;
        }
        i = i + 1;
    }
    true
}

/// A fixed count of type arguments a built-in head takes.
#[derive(Clone, Copy, Debug, Eq, PartialEq)]
pub struct ArgumentCount(usize);

impl ArgumentCount {
    pub closed spec fn spec_value(&self) -> usize {
        self.0
    }

    /// The argument count value.
    pub fn value(&self) -> (r: usize)
        ensures
            r == self.spec_value(),
    {
        self.0
    }

    /// The total objects inside the matched parenthesis: head plus arguments.
    pub fn as_block_object_count(&self) -> (r: usize)
        requires
            self.spec_value() < usize::MAX,
        ensures
            r == self.spec_value() + 1,
    {
        self.0 + 1
    }
}

/// What a built-in head takes after it: a fixed argument count, or the literal
/// `Atom` marker for heads (like `Bytes`) that take a leaf atom.
#[derive(Clone, Copy, Debug, Eq, PartialEq)]
pub enum BuiltinArity {
    /// `Atom` — the head consumes one bare atom leaf, not a typed argument.
    Atom,
    /// A fixed count of type arguments (the `1` in `(Builtin Vector 1)`).
    Count(ArgumentCount),
}

/// The number of root objects a matched block holds for an arity: the head
/// plus its arguments, with `Atom` occupying one slot.
pub open spec fn spec_block_object_count(arity: BuiltinArity) -> int {
    match arity {
        BuiltinArity::Atom => 2,
        BuiltinArity::Count(count) => count.spec_value() + 1,
    }
}

/// The arity of `arguments` type arguments.
pub closed spec fn count_arity(arguments: usize) -> BuiltinArity {
    BuiltinArity::Count(ArgumentCount(arguments))
}

/// A count arity carries exactly its count, and every count arity is the
/// arity of its own value.
pub proof fn lemma_count_arity(arguments: usize, arity: BuiltinArity)
    ensures
        count_arity(arguments) matches BuiltinArity::Count(c) && c.spec_value() == arguments,
        arity matches BuiltinArity::Count(c) ==> count_arity(c.spec_value()) == arity,
{
}

impl BuiltinArity {
    /// A fixed count of type arguments.
    pub fn count(arguments: usize) -> (r: Self)
        ensures
            r == count_arity(arguments),
            r matches BuiltinArity::Count(c) && c.spec_value() == arguments,
    {
        BuiltinArity::Count(ArgumentCount(arguments))
    }

    /// The total root-object count the matched parenthesis block holds: the
    /// head plus its arguments. `Atom` and a single type argument both occupy
    /// one trailing slot, so both are arity 2.
    pub fn block_object_count(&self) -> (r: usize)
        requires
            self matches BuiltinArity::Count(c) ==> c.spec_value() < usize::MAX,
        ensures
            r == spec_block_object_count(*self),
    {
        match self {
            BuiltinArity::Atom => 2,
            BuiltinArity::Count(count) => count.as_block_object_count(),
        }
    }
}

/// The mathematical form of one grammar rung: heads by their spelling.
#[verifier::ext_equal]
pub enum FormView {
    Builtin(Seq<char>, BuiltinArity),
    DeclaredMacro,
    Application,
}

/// One rung of the precedence ladder.
///
/// - `Builtin` — a reserved head with a fixed arity, matched first and by name.
/// - `DeclaredMacro` — the marker meaning "consult the macro registry here".
/// - `Application` — the generic `(Foo A B…)` catch-all; must be unique and last.
#[derive(Clone, Debug, Eq, PartialEq)]
pub enum ReferenceForm {
    Builtin(BuiltinHead, BuiltinArity),
    DeclaredMacro,
    Application,
}

impl View for ReferenceForm {
    type V = FormView;

    open spec fn view(&self) -> FormView {
        match self {
            ReferenceForm::Builtin(head, arity) => FormView::Builtin(head@, *arity),
            ReferenceForm::DeclaredMacro => FormView::DeclaredMacro,
            ReferenceForm::Application => FormView::Application,
        }
    }
}

impl ReferenceForm {
    /// The built-in head this form claims, if it is a `Builtin` form.
    pub fn builtin_head(&self) -> (r: Option<&BuiltinHead>)
        ensures
            self is Builtin <==> r is Some,
            r matches Some(head) ==> self matches ReferenceForm::Builtin(h, _) && *head == h,
    {
        match self {
            ReferenceForm::Builtin(head, _) => Some(head),
            ReferenceForm::DeclaredMacro | ReferenceForm::Application => None,
        }
    }
}

/// The dispatch precedence, top to bottom.
#[derive(Clone, Debug, Eq, PartialEq)]
pub enum ReferenceGrammar {
    Forms(Vec<ReferenceForm>),
}

pub open spec fn forms_view(forms: Seq<ReferenceForm>) -> Seq<FormView> {
    forms.map_values(|f: ReferenceForm| f@)
}

impl View for ReferenceGrammar {
    type V = Seq<FormView>;

    open spec fn view(&self) -> Seq<FormView> {
        forms_view(self.spec_forms())
    }
}

impl ReferenceGrammar {
    pub open spec fn spec_forms(&self) -> Seq<ReferenceForm> {
        match self {
            ReferenceGrammar::Forms(forms) => forms@,
        }
    }

    /// The forms in declared precedence order.
    pub fn forms(&self) -> (r: &[ReferenceForm])
        ensures
            r@ == self.spec_forms(),
    {
        match self {
            ReferenceGrammar::Forms(forms) => forms.as_slice(),
        }
    }
}

} // verus!
