//! The NOTA text form of a [`ReferenceGrammar`]:
//! `(ReferenceGrammar <form> …)` with forms `(Builtin <Head> <arity>)`,
//! `DeclaredMacro` and `Application`, an arity being `Atom` or a decimal count.
use vstd::prelude::*;

use crate::grammar::{
    BuiltinArity, BuiltinHead, FormView, ReferenceForm, ReferenceGrammar, count_arity,
    forms_view, is_pascal_head, lemma_count_arity,
};
use crate::grammar_error::Error;
use crate::text::{
    all_digits, chars_to_string, decimal, is_alnum, is_digit, lemma_parse_decimal_roundtrip,
    parse_decimal, parse_decimal_text, push_char, str_equal, text_chars, usize_to_decimal,
};

verus! {

// ---------------------------------------------------------------- tokens
pub open spec fn is_space(c: char) -> bool {
    c == ' ' || c == '\t' || c == '\n' || c == '\r'
}

pub open spec fn is_atom_char(c: char) -> bool {
    !is_space(c) && c != '(' && c != ')'
}

pub enum TokenView {
    Open,
    Close,
    Atom(Seq<char>),
}

/// The length of the run of atom characters that starts `s`.
pub open spec fn atom_run(s: Seq<char>) -> nat
    decreases s.len(),
{
    if s.len() == 0 || !is_atom_char(s[0]) {
        0
    } else {
        1 + atom_run(s.drop_first())
    }
}

/// The atom run at the front of a text is a prefix of atom characters that
/// stops at the first other character.
pub proof fn lemma_atom_run_bounds(s: Seq<char>)
    ensures
        atom_run(s) <= s.len(),
        s.len() > 0 && is_atom_char(s[0]) ==> atom_run(s) >= 1,
        forall|k: int| 0 <= k < atom_run(s) ==> is_atom_char(#[trigger] s[k]),
        atom_run(s) < s.len() ==> !is_atom_char(s[atom_run(s) as int]),
    decreases s.len(),
{
    if s.len() > 0 && is_atom_char(s[0]) {
        lemma_atom_run_bounds(s.drop_first());
        assert forall|k: int| 0 <= k < atom_run(s) implies is_atom_char(#[trigger] s[k]) by {
            if k > 0 {
                assert(s[k] == s.drop_first()[k - 1]);
            }
        }
        if atom_run(s) < s.len() {
            assert(s[atom_run(s) as int] == s.drop_first()[atom_run(s.drop_first()) as int]);
        }
    }
}

/// The token sequence of a text: parentheses, and maximal runs of atom
/// characters; whitespace separates.
pub open spec fn tokenize(s: Seq<char>) -> Seq<TokenView>
    decreases s.len(),
{
    if s.len() == 0 {
        Seq::empty()
    } else if is_space(s[0]) {
        tokenize(s.drop_first())
    } else if s[0] == '(' {
        seq![TokenView::Open] + tokenize(s.drop_first())
    } else if s[0] == ')' {
        seq![TokenView::Close] + tokenize(s.drop_first())
    } else {
        let n = atom_run(s);
        proof {
            lemma_atom_run_bounds(s);
        }
        seq![TokenView::Atom(s.take(n as int))] + tokenize(s.skip(n as int))
    }
}

// ---------------------------------------------------------------- keywords
pub open spec fn kw_reference_grammar() -> Seq<char> {
    seq!['R', 'e', 'f', 'e', 'r', 'e', 'n', 'c', 'e', 'G', 'r', 'a', 'm', 'm', 'a', 'r']
}

pub open spec fn kw_builtin() -> Seq<char> {
    seq!['B', 'u', 'i', 'l', 't', 'i', 'n']
}

pub open spec fn kw_declared_macro() -> Seq<char> {
    seq!['D', 'e', 'c', 'l', 'a', 'r', 'e', 'd', 'M', 'a', 'c', 'r', 'o']
}

pub open spec fn kw_application() -> Seq<char> {
    seq!['A', 'p', 'p', 'l', 'i', 'c', 'a', 't', 'i', 'o', 'n']
}

pub open spec fn kw_atom() -> Seq<char> {
    seq!['A', 't', 'o', 'm']
}

// ---------------------------------------------------------------- parsing
/// An arity atom: `Atom`, or a decimal count that fits a `usize`.
pub open spec fn parse_arity(a: Seq<char>) -> Option<BuiltinArity> {
    if a == kw_atom() {
        Some(BuiltinArity::Atom)
    } else {
        match parse_decimal(a) {
            Some(n) => Some(count_arity(n)),
            None => None,
        }
    }
}

pub open spec fn is_atom_token(t: TokenView, text: Seq<char>) -> bool {
    t matches TokenView::Atom(a) && a == text
}

pub open spec fn atom_text(t: TokenView) -> Seq<char> {
    match t {
        TokenView::Atom(a) => a,
        _ => Seq::empty(),
    }
}

/// Whether the tokens start with a well-formed `(Builtin <Head> <arity>)`.
pub open spec fn starts_with_builtin(ts: Seq<TokenView>) -> bool {
    &&& ts.len() >= 5
    &&& ts[0] is Open
    &&& is_atom_token(ts[1], kw_builtin())
    &&& ts[2] is Atom
    &&& is_pascal_head(atom_text(ts[2]))
    &&& ts[3] is Atom
    &&& parse_arity(atom_text(ts[3])) is Some
    &&& ts[4] is Close
}

/// The forms a token sequence spells, if it spells a sequence of forms.
pub open spec fn parse_forms(ts: Seq<TokenView>) -> Option<Seq<FormView>>
    decreases ts.len(),
{
    if ts.len() == 0 {
        Some(Seq::empty())
    } else if is_atom_token(ts[0], kw_declared_macro()) {
        match parse_forms(ts.skip(1)) {
            Some(rest) => Some(seq![FormView::DeclaredMacro] + rest),
            None => None,
        }
    } else if is_atom_token(ts[0], kw_application()) {
        match parse_forms(ts.skip(1)) {
            Some(rest) => Some(seq![FormView::Application] + rest),
            None => None,
        }
    } else if starts_with_builtin(ts) {
        match parse_forms(ts.skip(5)) {
            Some(rest) => Some(
                seq![FormView::Builtin(atom_text(ts[2]), parse_arity(atom_text(ts[3])).unwrap())]
                    + rest,
            ),
            None => None,
        }
    } else {
        None
    }
}

/// The grammar a token sequence spells: `( ReferenceGrammar <forms> )`.
pub open spec fn parse_grammar(ts: Seq<TokenView>) -> Option<Seq<FormView>> {
    if ts.len() >= 3 && ts[0] is Open && is_atom_token(ts[1], kw_reference_grammar())
        && ts[ts.len() - 1] is Close {
        parse_forms(ts.subrange(2, ts.len() - 1))
    } else {
        None
    }
}

/// The grammar a text spells, if any.
pub open spec fn decode_grammar(text: Seq<char>) -> Option<Seq<FormView>> {
    parse_grammar(tokenize(text))
}

// ---------------------------------------------------------------- encoding
pub open spec fn arity_text(arity: BuiltinArity) -> Seq<char> {
    match arity {
        BuiltinArity::Atom => kw_atom(),
        BuiltinArity::Count(c) => decimal(c.spec_value() as nat),
    }
}

pub open spec fn form_text(f: FormView) -> Seq<char> {
    match f {
        FormView::Builtin(head, arity) => seq!['('] + kw_builtin() + seq![' '] + head + seq![' ']
            + arity_text(arity) + seq![')'],
        FormView::DeclaredMacro => kw_declared_macro(),
        FormView::Application => kw_application(),
    }
}

/// Each form preceded by one space.
pub open spec fn forms_text(fs: Seq<FormView>) -> Seq<char>
    decreases fs.len(),
{
    if fs.len() == 0 {
        Seq::empty()
    } else {
        seq![' '] + form_text(fs[0]) + forms_text(fs.drop_first())
    }
}

/// The canonical text of a grammar.
pub open spec fn encode_grammar(fs: Seq<FormView>) -> Seq<char> {
    seq!['('] + kw_reference_grammar() + forms_text(fs) + seq![')']
}

/// Every built-in head in the forms is PascalCase.
pub open spec fn heads_pascal(fs: Seq<FormView>) -> bool {
    forall|i: int|
        0 <= i < fs.len() ==> (#[trigger] fs[i] matches FormView::Builtin(h, _) ==> is_pascal_head(
            h,
        ))
}

// ---------------------------------------------------------------- proofs
pub open spec fn boundary_ok(a: Seq<char>, b: Seq<char>) -> bool {
    a.len() == 0 || b.len() == 0 || !is_atom_char(a.last()) || !is_atom_char(b[0])
}

proof fn lemma_atom_run_concat(a: Seq<char>, b: Seq<char>)
    requires
        atom_run(a) < a.len() || b.len() == 0 || !is_atom_char(b[0]),
    ensures
        atom_run(a + b) == atom_run(a),
    decreases a.len(),
{
    if a.len() == 0 {
        assert(a + b =~= b);
    } else if is_atom_char(a[0]) {
        assert((a + b).drop_first() =~= a.drop_first() + b);
        lemma_atom_run_concat(a.drop_first(), b);
    }
}

proof fn lemma_tokenize_concat(a: Seq<char>, b: Seq<char>)
    requires
        boundary_ok(a, b),
    ensures
        tokenize(a + b) == tokenize(a) + tokenize(b),
    decreases a.len(),
{
    if a.len() == 0 {
        assert(a + b =~= b);
        assert(tokenize(a) =~= Seq::<TokenView>::empty());
        assert(tokenize(a + b) =~= tokenize(a) + tokenize(b));
    } else {
        let ab = a + b;
        assert(ab[0] == a[0]);
        if is_space(a[0]) || a[0] == '(' || a[0] == ')' {
            assert(ab.drop_first() =~= a.drop_first() + b);
            if a.drop_first().len() > 0 {
                assert(a.drop_first().last() == a.last());
            }
            lemma_tokenize_concat(a.drop_first(), b);
            assert(tokenize(a + b) =~= tokenize(a) + tokenize(b));
        } else {
            lemma_atom_run_bounds(a);
            let n = atom_run(a);
            if n == a.len() {
                assert(a[a.len() - 1] == a.last());
            }
            lemma_atom_run_concat(a, b);
            assert(ab.take(n as int) =~= a.take(n as int));
            assert(ab.skip(n as int) =~= a.skip(n as int) + b);
            if a.skip(n as int).len() > 0 {
                assert(a.skip(n as int).last() == a.last());
            }
            lemma_tokenize_concat(a.skip(n as int), b);
            assert(tokenize(a + b) =~= tokenize(a) + tokenize(b));
        }
    }
}

pub open spec fn all_atom_chars(w: Seq<char>) -> bool {
    forall|i: int| 0 <= i < w.len() ==> is_atom_char(#[trigger] w[i])
}

proof fn lemma_atom_run_all(w: Seq<char>)
    requires
        all_atom_chars(w),
    ensures
        atom_run(w) == w.len(),
    decreases w.len(),
{
    if w.len() > 0 {
        assert(all_atom_chars(w.drop_first())) by {
            assert forall|i: int| 0 <= i < w.drop_first().len() implies is_atom_char(
                #[trigger] w.drop_first()[i],
            ) by {
                assert(w.drop_first()[i] == w[i + 1]);
            }
        }
        lemma_atom_run_all(w.drop_first());
    }
}

proof fn lemma_tokenize_atom(w: Seq<char>)
    requires
        w.len() > 0,
        all_atom_chars(w),
    ensures
        tokenize(w) == seq![TokenView::Atom(w)],
{
    lemma_atom_run_all(w);
    assert(w.take(w.len() as int) =~= w);
    assert(w.skip(w.len() as int) =~= Seq::<char>::empty());
    assert(tokenize(Seq::<char>::empty()) =~= Seq::<TokenView>::empty());
    assert(tokenize(w) =~= seq![TokenView::Atom(w)]);
}

proof fn lemma_tokenize_single(c: char)
    requires
        !is_atom_char(c),
    ensures
        is_space(c) ==> tokenize(seq![c]) == Seq::<TokenView>::empty(),
        c == '(' ==> tokenize(seq![c]) == seq![TokenView::Open],
        c == ')' ==> tokenize(seq![c]) == seq![TokenView::Close],
{
    assert(seq![c].drop_first() =~= Seq::<char>::empty());
    assert(tokenize(Seq::<char>::empty()) =~= Seq::<TokenView>::empty());
    assert(seq![TokenView::Open] + Seq::<TokenView>::empty() =~= seq![TokenView::Open]);
    assert(seq![TokenView::Close] + Seq::<TokenView>::empty() =~= seq![TokenView::Close]);
}

pub open spec fn form_tokens(f: FormView) -> Seq<TokenView> {
    match f {
        FormView::Builtin(head, arity) => seq![
            TokenView::Open,
            TokenView::Atom(kw_builtin()),
            TokenView::Atom(head),
            TokenView::Atom(arity_text(arity)),
            TokenView::Close,
        ],
        FormView::DeclaredMacro => seq![TokenView::Atom(kw_declared_macro())],
        FormView::Application => seq![TokenView::Atom(kw_application())],
    }
}

pub open spec fn forms_tokens(fs: Seq<FormView>) -> Seq<TokenView>
    decreases fs.len(),
{
    if fs.len() == 0 {
        Seq::empty()
    } else {
        form_tokens(fs[0]) + forms_tokens(fs.drop_first())
    }
}

proof fn lemma_arity_text(arity: BuiltinArity)
    ensures
        arity_text(arity).len() > 0,
        all_atom_chars(arity_text(arity)),
        parse_arity(arity_text(arity)) == Some(arity),
{
    match arity {
        BuiltinArity::Atom => {
        },
        BuiltinArity::Count(c) => {
            lemma_parse_decimal_roundtrip(c.spec_value());
            lemma_count_arity(c.spec_value(), arity);
            let t = arity_text(arity);
            assert(all_digits(t));
            assert(t != kw_atom()) by {
                if t == kw_atom() {
                    assert(is_digit(t[0]));
                }
            }
            assert forall|i: int| 0 <= i < t.len() implies is_atom_char(#[trigger] t[i]) by {
                assert(is_digit(t[i]));
            }
        },
    }
}

proof fn lemma_pascal_atom(h: Seq<char>)
    requires
        is_pascal_head(h),
    ensures
        all_atom_chars(h),
        h.len() > 0,
{
    assert forall|i: int| 0 <= i < h.len() implies is_atom_char(#[trigger] h[i]) by {
        assert(is_alnum(h[i]));
    }
}

#[verifier::rlimit(40)]
proof fn lemma_builtin_form_tokens(head: Seq<char>, arity: BuiltinArity)
    requires
        is_pascal_head(head),
    ensures
        tokenize(form_text(FormView::Builtin(head, arity))) == form_tokens(
            FormView::Builtin(head, arity),
        ),
{
    lemma_pascal_atom(head);
    lemma_arity_text(arity);
    let p1 = seq!['('];
    let p2 = kw_builtin();
    let p3 = seq![' '];
    let p4 = head;
    let p5 = seq![' '];
    let p6 = arity_text(arity);
    let p7 = seq![')'];
    lemma_tokenize_single('(');
    lemma_tokenize_single(' ');
    lemma_tokenize_single(')');
    assert(all_atom_chars(p2));
    lemma_tokenize_atom(p2);
    lemma_tokenize_atom(p4);
    lemma_tokenize_atom(p6);
    let q2 = p1 + p2;
    assert(q2.last() == p2.last());
    lemma_tokenize_concat(p1, p2);
    let q3 = q2 + p3;
    lemma_tokenize_concat(q2, p3);
    assert(q3.last() == ' ');
    let q4 = q3 + p4;
    lemma_tokenize_concat(q3, p4);
    assert(q4.last() == p4.last());
    let q5 = q4 + p5;
    lemma_tokenize_concat(q4, p5);
    assert(q5.last() == ' ');
    let q6 = q5 + p6;
    lemma_tokenize_concat(q5, p6);
    let q7 = q6 + p7;
    lemma_tokenize_concat(q6, p7);
    assert(form_text(FormView::Builtin(head, arity)) == q7);
    assert(tokenize(q7) =~= form_tokens(FormView::Builtin(head, arity)));
}

proof fn lemma_form_tokens(f: FormView)
    requires
        f matches FormView::Builtin(h, _) ==> is_pascal_head(h),
    ensures
        tokenize(form_text(f)) == form_tokens(f),
        form_text(f).len() > 0,
{
    match f {
        FormView::Builtin(head, arity) => {
            lemma_builtin_form_tokens(head, arity);
        },
        FormView::DeclaredMacro => {
            assert(all_atom_chars(kw_declared_macro()));
            lemma_tokenize_atom(kw_declared_macro());
        },
        FormView::Application => {
            assert(all_atom_chars(kw_application()));
            lemma_tokenize_atom(kw_application());
        },
    }
}

proof fn lemma_forms_tokens(fs: Seq<FormView>)
    requires
        heads_pascal(fs),
    ensures
        tokenize(forms_text(fs)) == forms_tokens(fs),
        fs.len() > 0 ==> forms_text(fs)[0] == ' ',
        fs.len() == 0 ==> forms_text(fs).len() == 0,
    decreases fs.len(),
{
    if fs.len() > 0 {
        let rest = fs.drop_first();
        assert(heads_pascal(rest)) by {
            assert forall|i: int| 0 <= i < rest.len() implies (#[trigger] rest[i] matches FormView::Builtin(
                h,
                _,
            ) ==> is_pascal_head(h)) by {
                assert(rest[i] == fs[i + 1]);
            }
        }
        assert(fs[0] matches FormView::Builtin(h, _) ==> is_pascal_head(h));
        lemma_form_tokens(fs[0]);
        lemma_forms_tokens(rest);
        let space = seq![' '];
        let ft = form_text(fs[0]);
        let rt = forms_text(rest);
        lemma_tokenize_single(' ');
        lemma_tokenize_concat(space, ft);
        lemma_tokenize_concat(space + ft, rt);
        assert(forms_text(fs) == space + ft + rt);
        assert(tokenize(forms_text(fs)) =~= forms_tokens(fs));
    }
}

proof fn lemma_parse_forms_tokens(fs: Seq<FormView>)
    requires
        heads_pascal(fs),
    ensures
        parse_forms(forms_tokens(fs)) == Some(fs),
    decreases fs.len(),
{
    if fs.len() == 0 {
        assert(forms_tokens(fs) =~= Seq::<TokenView>::empty());
    } else {
        let rest = fs.drop_first();
        assert(heads_pascal(rest)) by {
            assert forall|i: int| 0 <= i < rest.len() implies (#[trigger] rest[i] matches FormView::Builtin(
                h,
                _,
            ) ==> is_pascal_head(h)) by {
                assert(rest[i] == fs[i + 1]);
            }
        }
        lemma_parse_forms_tokens(rest);
        let ts = forms_tokens(fs);
        let ft = form_tokens(fs[0]);
        assert(ts == ft + forms_tokens(rest));
        assert(ts.skip(ft.len() as int) =~= forms_tokens(rest));
        match fs[0] {
            FormView::Builtin(head, arity) => {
                assert(is_pascal_head(head));
                lemma_arity_text(arity);
                assert(ts[0] is Open);
                assert(!is_atom_token(ts[0], kw_declared_macro()));
                assert(!is_atom_token(ts[0], kw_application()));
                assert(starts_with_builtin(ts));
            },
            FormView::DeclaredMacro => {
                assert(is_atom_token(ts[0], kw_declared_macro()));
            },
            FormView::Application => {
                assert(kw_application() != kw_declared_macro());
                assert(is_atom_token(ts[0], kw_application()));
            },
        }
        assert(seq![fs[0]] + rest =~= fs);
    }
}

/// Decoding the canonical text of a grammar whose heads are PascalCase gives
/// back that grammar.
pub proof fn lemma_grammar_text_roundtrip(fs: Seq<FormView>)
    requires
        heads_pascal(fs),
    ensures
        decode_grammar(encode_grammar(fs)) == Some(fs),
{
    lemma_forms_tokens(fs);
    lemma_parse_forms_tokens(fs);
    let p1 = seq!['('];
    let p2 = kw_reference_grammar();
    let p3 = forms_text(fs);
    let p4 = seq![')'];
    lemma_tokenize_single('(');
    lemma_tokenize_single(')');
    assert(all_atom_chars(p2));
    lemma_tokenize_atom(p2);
    lemma_tokenize_concat(p1, p2);
    lemma_tokenize_concat(p1 + p2, p3);
    lemma_tokenize_concat(p1 + p2 + p3, p4);
    let ts = tokenize(encode_grammar(fs));
    assert(ts =~= seq![TokenView::Open, TokenView::Atom(p2)] + forms_tokens(fs) + seq![
        TokenView::Close,
    ]);
    assert(ts.subrange(2, ts.len() - 1) =~= forms_tokens(fs));
}

/// Every decoded grammar has PascalCase heads, so re-encoding and decoding it
/// again is stable.
pub proof fn lemma_decoded_heads_pascal(ts: Seq<TokenView>)
    ensures
        parse_forms(ts) matches Some(fs) ==> heads_pascal(fs),
    decreases ts.len(),
{
    if ts.len() > 0 {
        if is_atom_token(ts[0], kw_declared_macro()) || is_atom_token(ts[0], kw_application()) {
            lemma_decoded_heads_pascal(ts.skip(1));
            if let Some(fs) = parse_forms(ts) {
                let rest = parse_forms(ts.skip(1)).unwrap();
                assert forall|i: int| 0 <= i < fs.len() implies (#[trigger] fs[i] matches FormView::Builtin(
                    h,
                    _,
                ) ==> is_pascal_head(h)) by {
                    if i > 0 {
                        assert(fs[i] == rest[i - 1]);
                    }
                }
            }
        } else if starts_with_builtin(ts) {
            lemma_decoded_heads_pascal(ts.skip(5));
            if let Some(fs) = parse_forms(ts) {
                let rest = parse_forms(ts.skip(5)).unwrap();
                assert forall|i: int| 0 <= i < fs.len() implies (#[trigger] fs[i] matches FormView::Builtin(
                    h,
                    _,
                ) ==> is_pascal_head(h)) by {
                    if i > 0 {
                        assert(fs[i] == rest[i - 1]);
                    }
                }
            }
        }
    }
}

// ---------------------------------------------------------------- exec
enum Token {
    Open,
    Close,
    Atom(String),
}

spec fn token_view(t: Token) -> TokenView {
    match t {
        Token::Open => TokenView::Open,
        Token::Close => TokenView::Close,
        Token::Atom(text) => TokenView::Atom(text@),
    }
}

spec fn tokens_view(ts: Seq<Token>) -> Seq<TokenView> {
    ts.map_values(|t: Token| token_view(t))
}

proof fn lemma_atom_run_step(s: Seq<char>, j: int)
    requires
        0 <= j <= s.len(),
    ensures
        j < s.len() && is_atom_char(s[j]) ==> atom_run(s.skip(j)) == 1 + atom_run(s.skip(j + 1)),
        !(j < s.len() && is_atom_char(s[j])) ==> atom_run(s.skip(j)) == 0,
{
    if j < s.len() {
        assert(s.skip(j).drop_first() =~= s.skip(j + 1));
        assert(s.skip(j)[0] == s[j]);
    }
}

fn is_space_char(c: char) -> (r: bool)
    ensures
        r == is_space(c),
{
    c == ' ' || c == '\t' || c == '\n' || c == '\r'
}

fn tokenize_text(text: &str) -> (r: Vec<Token>)
    ensures
        tokens_view(r@) == tokenize(text@),
{
    let chars = text_chars(text);
    let n = chars.len();
    let mut tokens: Vec<Token> = Vec::new();
    let mut i: usize = 0;
    assert(text@.skip(0) =~= text@);
    assert(tokens_view(tokens@) =~= Seq::<TokenView>::empty());
    assert(tokens_view(tokens@) + tokenize(text@.skip(0)) =~= tokenize(text@));
    while i < n
        invariant
            n == chars@.len(),
            chars@ == text@,
            i <= n,
            tokens_view(tokens@) + tokenize(text@.skip(i as int)) == tokenize(text@),
        decreases n - i,
    {
        let c = chars[i];
        let ghost rest = text@.skip(i as int);
        proof {
            assert(rest[0] == c);
            assert(rest.drop_first() =~= text@.skip(i + 1));
        }
        if is_space_char(c) {
            i = i + 1;
        } else if c == '(' {
            let ghost before = tokens_view(tokens@);
            tokens.push(Token::Open);
            proof {
                assert(tokens_view(tokens@) =~= before.push(TokenView::Open));
                assert(tokens_view(tokens@) + tokenize(text@.skip(i + 1)) =~= before + tokenize(
                    rest,
                ));
            }
            i = i + 1;
        } else if c == ')' {
            let ghost before = tokens_view(tokens@);
            tokens.push(Token::Close);
            proof {
                assert(tokens_view(tokens@) =~= before.push(TokenView::Close));
                assert(tokens_view(tokens@) + tokenize(text@.skip(i + 1)) =~= before + tokenize(
                    rest,
                ));
            }
            i = i + 1;
        } else {
            let mut j: usize = i;
            proof {
                lemma_atom_run_step(text@, i as int);
            }
            while j < n && !is_space_char(chars[j]) && chars[j] != '(' && chars[j] != ')'
                invariant
                    n == chars@.len(),
                    chars@ == text@,
                    i <= j <= n,
                    atom_run(rest) == (j - i) + atom_run(text@.skip(j as int)),
                decreases n - j,
            {
                proof {
                    lemma_atom_run_step(text@, j as int);
                }
                j = j + 1;
            }
            proof {
                lemma_atom_run_step(text@, j as int);
                assert(atom_run(rest) == j - i);
                lemma_atom_run_bounds(rest);
                assert(rest.take((j - i) as int) =~= text@.subrange(i as int, j as int));
                assert(rest.skip((j - i) as int) =~= text@.skip(j as int));
            }
            let atom = chars_to_string(&chars.as_slice()[i..j]);
            let ghost before = tokens_view(tokens@);
            tokens.push(Token::Atom(atom));
            proof {
                assert(atom@ =~= text@.subrange(i as int, j as int));
                assert(tokens_view(tokens@) =~= before.push(TokenView::Atom(atom@)));
                assert(tokens_view(tokens@) + tokenize(text@.skip(j as int)) =~= before + tokenize(
                    rest,
                ));
            }
            i = j;
        }
    }
    assert(text@.skip(n as int) =~= Seq::<char>::empty());
    assert(tokens_view(tokens@) + tokenize(text@.skip(n as int)) =~= tokens_view(tokens@));
    tokens
}

spec fn prepend(prefix: Seq<FormView>, rest: Option<Seq<FormView>>) -> Option<Seq<FormView>> {
    match rest {
        Some(r) => Some(prefix + r),
        None => None,
    }
}

fn atom_is(token: &Token, keyword: &str) -> (r: bool)
    ensures
        r == is_atom_token(token_view(*token), keyword@),
{
    match token {
        Token::Atom(text) => str_equal(text.as_str(), keyword),
        _ => false,
    }
}

/// Printing an arity and reading it back gives the arity.
pub proof fn lemma_arity_roundtrip(arity: BuiltinArity)
    ensures
        parse_arity(arity_text(arity)) == Some(arity),
{
    lemma_arity_text(arity);
}

impl BuiltinArity {
    /// The arity's text: `Atom`, or the count in decimal.
    pub fn to_structural_nota(&self) -> (r: String)
        ensures
            r@ == arity_text(*self),
    {
        proof {
            reveal_strlit("Atom");
            assert("Atom"@ =~= kw_atom());
        }
        match self {
            BuiltinArity::Atom => "Atom".to_owned(),
            BuiltinArity::Count(count) => usize_to_decimal(count.value()),
        }
    }

    /// Reads an arity from its text; `None` for anything but `Atom` or a
    /// decimal count that fits a `usize`.
    pub fn from_structural_nota(text: &str) -> (r: Option<BuiltinArity>)
        ensures
            r == parse_arity(text@),
    {
        parse_arity_text(text)
    }
}

fn parse_arity_text(text: &str) -> (r: Option<BuiltinArity>)
    ensures
        r == parse_arity(text@),
{
    proof {
        reveal_strlit("Atom");
        assert("Atom"@ =~= kw_atom());
    }
    if str_equal(text, "Atom") {
        Some(BuiltinArity::Atom)
    } else {
        match parse_decimal_text(text) {
            Some(n) => Some(BuiltinArity::count(n)),
            None => None,
        }
    }
}

fn parse_forms_exec(tokens: &Vec<Token>, start: usize, end: usize) -> (r: Option<
    Vec<ReferenceForm>,
>)
    requires
        start <= end <= tokens@.len(),
    ensures
        r matches Some(fs) ==> parse_forms(tokens_view(tokens@).subrange(start as int, end as int))
            == Some(forms_view(fs@)),
        r is None ==> parse_forms(tokens_view(tokens@).subrange(start as int, end as int)) is None,
{
    proof {
        reveal_strlit("DeclaredMacro");
        reveal_strlit("Application");
        reveal_strlit("Builtin");
        assert("DeclaredMacro"@ =~= kw_declared_macro());
        assert("Application"@ =~= kw_application());
        assert("Builtin"@ =~= kw_builtin());
    }
    let ghost tv = tokens_view(tokens@);
    let mut forms: Vec<ReferenceForm> = Vec::new();
    let mut i: usize = start;
    while i < end
        invariant
            start <= i <= end <= tokens@.len(),
            tv == tokens_view(tokens@),
            parse_forms(tv.subrange(start as int, end as int)) == prepend(
                forms_view(forms@),
                parse_forms(tv.subrange(i as int, end as int)),
            ),
        decreases end - i,
    {
        let ghost ts = tv.subrange(i as int, end as int);
        let ghost before = forms_view(forms@);
        proof {
            reveal_strlit("DeclaredMacro");
            reveal_strlit("Application");
            reveal_strlit("Builtin");
            assert("DeclaredMacro"@ =~= kw_declared_macro());
            assert("Application"@ =~= kw_application());
            assert("Builtin"@ =~= kw_builtin());
            assert(ts[0] == token_view(tokens@[i as int]));
            assert(ts.skip(1) =~= tv.subrange(i + 1, end as int));
        }
        if atom_is(&tokens[i], "DeclaredMacro") {
            forms.push(ReferenceForm::DeclaredMacro);
            proof {
                assert(forms_view(forms@) =~= before + seq![FormView::DeclaredMacro]);
                assert(before + seq![FormView::DeclaredMacro] + Seq::<FormView>::empty() =~= before + seq![FormView::DeclaredMacro]);
                if let Some(r) = parse_forms(tv.subrange(i + 1, end as int)) {
                    assert(before + (seq![FormView::DeclaredMacro] + r) =~= forms_view(forms@) + r);
                }
            }
            i = i + 1;
        } else if atom_is(&tokens[i], "Application") {
            forms.push(ReferenceForm::Application);
            proof {
                assert(forms_view(forms@) =~= before + seq![FormView::Application]);
                assert(kw_application() != kw_declared_macro());
                if let Some(r) = parse_forms(tv.subrange(i + 1, end as int)) {
                    assert(before + (seq![FormView::Application] + r) =~= forms_view(forms@) + r);
                }
            }
            i = i + 1;
        } else if end - i >= 5 {
            proof {
                assert(ts[1] == token_view(tokens@[i + 1]));
                assert(ts[2] == token_view(tokens@[i + 2]));
                assert(ts[3] == token_view(tokens@[i + 3]));
                assert(ts[4] == token_view(tokens@[i + 4]));
                assert(ts.skip(5) =~= tv.subrange(i + 5, end as int));
            }
            let open_ok = match &tokens[i] {
                Token::Open => true,
                _ => false,
            };
            let close_ok = match &tokens[i + 4] {
                Token::Close => true,
                _ => false,
            };
            if !open_ok || !close_ok || !atom_is(&tokens[i + 1], "Builtin") {
                return None;
            }
            let head = match &tokens[i + 2] {
                Token::Atom(text) => text,
                _ => {
                    return None;
                },
            };
            let arity_text = match &tokens[i + 3] {
                Token::Atom(text) => text,
                _ => {
                    return None;
                },
            };
            if !crate::grammar::is_pascal_text(head.as_str()) {
                return None;
            }
            let arity = match parse_arity_text(arity_text.as_str()) {
                Some(arity) => arity,
                None => {
                    return None;
                },
            };
            let head = BuiltinHead::from_checked(head.clone());
            let ghost form = FormView::Builtin(head@, arity);
            forms.push(ReferenceForm::Builtin(head, arity));
            proof {
                assert(ts.len() >= 5);
                assert(ts[0] is Open);
                assert(is_atom_token(ts[1], kw_builtin()));
                assert(ts[2] is Atom);
                assert(is_pascal_head(atom_text(ts[2])));
                assert(ts[3] is Atom);
                assert(parse_arity(atom_text(ts[3])) is Some);
                assert(ts[4] is Close);
                assert(starts_with_builtin(ts));
                assert(forms_view(forms@) =~= before + seq![form]);
                if let Some(r) = parse_forms(tv.subrange(i + 5, end as int)) {
                    assert(before + (seq![form] + r) =~= forms_view(forms@) + r);
                }
            }
            i = i + 5;
        } else {
            proof {
                assert(!starts_with_builtin(ts));
            }
            return None;
        }
    }
    proof {
        assert(tv.subrange(end as int, end as int) =~= Seq::<TokenView>::empty());
        assert(forms_view(forms@) + Seq::<FormView>::empty() =~= forms_view(forms@));
    }
    Some(forms)
}

proof fn lemma_forms_text_concat(a: Seq<FormView>, b: Seq<FormView>)
    ensures
        forms_text(a + b) == forms_text(a) + forms_text(b),
    decreases a.len(),
{
    if a.len() == 0 {
        assert(a + b =~= b);
        assert(forms_text(a) =~= Seq::<char>::empty());
        assert(forms_text(a + b) =~= forms_text(a) + forms_text(b));
    } else {
        assert((a + b).drop_first() =~= a.drop_first() + b);
        assert((a + b)[0] == a[0]);
        lemma_forms_text_concat(a.drop_first(), b);
        assert(forms_text(a + b) =~= forms_text(a) + forms_text(b));
    }
}

fn append_form_text(out: &mut String, form: &ReferenceForm)
    ensures
        final(out)@ == old(out)@ + form_text(form@),
{
    proof {
        reveal_strlit("DeclaredMacro");
        reveal_strlit("Application");
        reveal_strlit("Builtin");
        reveal_strlit("Atom");
        assert("DeclaredMacro"@ =~= kw_declared_macro());
        assert("Application"@ =~= kw_application());
        assert("Builtin"@ =~= kw_builtin());
        assert("Atom"@ =~= kw_atom());
    }
    match form {
        ReferenceForm::Builtin(head, arity) => {
            push_char(out, '(');
            out.append("Builtin");
            push_char(out, ' ');
            out.append(head.as_str());
            push_char(out, ' ');
            let arity_word = arity.to_structural_nota();
            out.append(arity_word.as_str());
            push_char(out, ')');
        },
        ReferenceForm::DeclaredMacro => {
            out.append("DeclaredMacro");
        },
        ReferenceForm::Application => {
            out.append("Application");
        },
    }
    assert(final(out)@ =~= old(out)@ + form_text(form@));
}

impl ReferenceGrammar {
    /// Decode a grammar from its NOTA text `(ReferenceGrammar <form> …)`.
    pub fn from_structural_nota(text: &str) -> (result: Result<ReferenceGrammar, Error>)
        ensures
            result is Ok <==> decode_grammar(text@) is Some,
            result matches Ok(g) ==> decode_grammar(text@) == Some(g@) && heads_pascal(g@),
            result matches Err(e) ==> e is Decode,
    {
        proof {
            reveal_strlit("ReferenceGrammar");
            assert("ReferenceGrammar"@ =~= kw_reference_grammar());
        }
        let tokens = tokenize_text(text);
        let ghost tv = tokens_view(tokens@);
        let n = tokens.len();
        if n >= 3 {
            proof {
                assert(tv[0] == token_view(tokens@[0]));
                assert(tv[1] == token_view(tokens@[1]));
                assert(tv[tv.len() - 1] == token_view(tokens@[n - 1]));
            }
            let open_ok = match &tokens[0] {
                Token::Open => true,
                _ => false,
            };
            let close_ok = match &tokens[n - 1] {
                Token::Close => true,
                _ => false,
            };
            if open_ok && close_ok && atom_is(&tokens[1], "ReferenceGrammar") {
                match parse_forms_exec(&tokens, 2, n - 1) {
                    Some(forms) => {
                        let grammar = ReferenceGrammar::Forms(forms);
                        proof {
                            assert(grammar@ == forms_view(forms@));
                            lemma_decoded_heads_pascal(tv.subrange(2, n - 1));
                        }
                        return Ok(grammar);
                    },
                    None => {},
                }
            }
        }
        Err(Error::Decode("could not decode reference grammar from NOTA".to_owned()))
    }

    /// The canonical NOTA text of this grammar: `(ReferenceGrammar` followed
    /// by each form preceded by one space, then `)`.
    pub fn to_structural_nota(&self) -> (r: String)
        ensures
            r@ == encode_grammar(self@),
    {
        proof {
            reveal_strlit("ReferenceGrammar");
            assert("ReferenceGrammar"@ =~= kw_reference_grammar());
        }
        let forms = self.forms();
        let mut out = String::new();
        push_char(&mut out, '(');
        out.append("ReferenceGrammar");
        let ghost fs = self@;
        let mut i: usize = 0;
        while i < forms.len()
            invariant
                i <= forms@.len(),
                fs == forms_view(forms@),
                out@ == seq!['('] + kw_reference_grammar() + forms_text(fs.take(i as int)),
            decreases forms@.len() - i,
        {
            let ghost before = out@;
            push_char(&mut out, ' ');
            append_form_text(&mut out, &forms[i]);
            proof {
                let one = seq![fs[i as int]];
                lemma_forms_text_concat(fs.take(i as int), one);
                assert(fs.take(i + 1) =~= fs.take(i as int) + one);
                assert(one.drop_first() =~= Seq::<FormView>::empty());
                assert(forms_text(Seq::<FormView>::empty()) =~= Seq::<char>::empty());
                assert(forms_text(one) =~= seq![' '] + form_text(fs[i as int]));
                assert(forms@[i as int]@ == fs[i as int]);
                assert(out@ =~= seq!['('] + kw_reference_grammar() + forms_text(fs.take(i + 1)));
            }
            i = i + 1;
        }
        push_char(&mut out, ')');
        assert(fs.take(forms@.len() as int) =~= fs);
        assert(out@ =~= encode_grammar(fs));
        out
    }
}

} // verus!
