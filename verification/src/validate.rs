//! `ValidatedReferenceGrammar` — a [`ReferenceGrammar`] that carries the
//! invariant the generator relies on: the shape
//! `Builtin* DeclaredMacro? Application` with no built-in head declared twice.
use vstd::prelude::*;

use crate::grammar::{BuiltinHead, FormView, ReferenceForm, ReferenceGrammar, forms_view};
use crate::grammar_error::Error;

verus! {

/// The mathematical form of a grammar error.
pub enum ErrorView {
    Decode(Seq<char>),
    DuplicateApplication { count: int },
    ApplicationNotLast { position: int, total: int },
    DuplicateBuiltinHead(Seq<char>),
    MissingApplication,
    DuplicateDeclaredMacro { count: int },
    BuiltinAfterMarker { position: int },
}

impl View for Error {
    type V = ErrorView;

    open spec fn view(&self) -> ErrorView {
        match self {
            Error::Decode(message) => ErrorView::Decode(message@),
            Error::DuplicateApplication { count } => ErrorView::DuplicateApplication {
                count: *count as int,
            },
            Error::ApplicationNotLast { position, total } => ErrorView::ApplicationNotLast {
                position: *position as int,
                total: *total as int,
            },
            Error::DuplicateBuiltinHead(head) => ErrorView::DuplicateBuiltinHead(head@),
            Error::MissingApplication => ErrorView::MissingApplication,
            Error::DuplicateDeclaredMacro { count } => ErrorView::DuplicateDeclaredMacro {
                count: *count as int,
            },
            Error::BuiltinAfterMarker { position } => ErrorView::BuiltinAfterMarker {
                position: *position as int,
            },
        }
    }
}

pub open spec fn head_of(f: FormView) -> Seq<char> {
    match f {
        FormView::Builtin(head, _) => head,
        _ => Seq::empty(),
    }
}

/// The first index at or after `i` that is not a built-in form (`s.len()` if none).
pub open spec fn first_marker_from(s: Seq<FormView>, i: int) -> int
    decreases s.len() - i,
{
    if i >= s.len() || i < 0 {
        s.len() as int
    } else if !(s[i] is Builtin) {
        i
    } else {
        first_marker_from(s, i + 1)
    }
}

/// The first index at or after `i` that is a built-in form (`s.len()` if none).
pub open spec fn first_builtin_from(s: Seq<FormView>, i: int) -> int
    decreases s.len() - i,
{
    if i >= s.len() || i < 0 {
        s.len() as int
    } else if s[i] is Builtin {
        i
    } else {
        first_builtin_from(s, i + 1)
    }
}

/// Whether the built-in at `j` repeats the head of an earlier built-in.
pub open spec fn repeats_earlier_head(s: Seq<FormView>, j: int) -> bool {
    &&& s[j] is Builtin
    &&& exists|i: int| 0 <= i < j && s[i] is Builtin && #[trigger] head_of(s[i]) == head_of(s[j])
}

/// The first index at or after `j` whose built-in head repeats an earlier one.
pub open spec fn first_repeat_from(s: Seq<FormView>, j: int) -> int
    decreases s.len() - j,
{
    if j >= s.len() || j < 0 {
        s.len() as int
    } else if repeats_earlier_head(s, j) {
        j
    } else {
        first_repeat_from(s, j + 1)
    }
}

/// The first application catch-all at or after `i` (`s.len()` if none).
pub open spec fn first_application_from(s: Seq<FormView>, i: int) -> int
    decreases s.len() - i,
{
    if i >= s.len() || i < 0 {
        s.len() as int
    } else if s[i] is Application {
        i
    } else {
        first_application_from(s, i + 1)
    }
}

/// The number of declared-macro markers among the first `n` forms.
pub open spec fn declared_count(s: Seq<FormView>, n: int) -> int
    decreases n,
{
    if n <= 0 {
        0
    } else {
        declared_count(s, n - 1) + if s[n - 1] is DeclaredMacro {
            1int
        } else {
            0int
        }
    }
}

/// The number of application catch-alls among the first `n` forms.
pub open spec fn application_count(s: Seq<FormView>, n: int) -> int
    decreases n,
{
    if n <= 0 {
        0
    } else {
        application_count(s, n - 1) + if s[n - 1] is Application {
            1int
        } else {
            0int
        }
    }
}

/// The outcome of validating a grammar, check by check in the order the
/// validator applies them.
pub open spec fn validation(s: Seq<FormView>) -> Result<(), ErrorView> {
    let total = s.len() as int;
    let marker = first_marker_from(s, 0);
    let late_builtin = first_builtin_from(s, marker + 1);
    let repeat = first_repeat_from(s, 0);
    let declared = declared_count(s, total);
    let applications = application_count(s, total);
    let application = first_application_from(s, 0);
    if marker < total && late_builtin < total {
        Err(ErrorView::BuiltinAfterMarker { position: late_builtin })
    } else if repeat < total {
        Err(ErrorView::DuplicateBuiltinHead(head_of(s[repeat])))
    } else if declared > 1 {
        Err(ErrorView::DuplicateDeclaredMacro { count: declared })
    } else if applications == 0 {
        Err(ErrorView::MissingApplication)
    } else if applications == 1 && application != total - 1 {
        Err(ErrorView::ApplicationNotLast { position: application, total })
    } else if applications > 1 {
        Err(ErrorView::DuplicateApplication { count: applications })
    } else {
        Ok(())
    }
}

/// The shape a sound grammar has: `Builtin* DeclaredMacro? Application`, with
/// every built-in head distinct.
pub open spec fn grammar_shape(s: Seq<FormView>) -> bool {
    &&& s.len() >= 1
    &&& s[s.len() - 1] is Application
    &&& forall|i: int|
        0 <= i < s.len() - 1 ==> (#[trigger] s[i] is Builtin || (s[i] is DeclaredMacro && i
            == s.len() - 2))
    &&& forall|i: int, j: int|
        0 <= i < j < s.len() && s[i] is Builtin && s[j] is Builtin ==> head_of(#[trigger] s[i])
            != head_of(#[trigger] s[j])
}

proof fn lemma_first_marker(s: Seq<FormView>, i: int)
    requires
        0 <= i <= s.len(),
    ensures
        i <= first_marker_from(s, i) <= s.len(),
        forall|k: int| i <= k < first_marker_from(s, i) ==> #[trigger] s[k] is Builtin,
        first_marker_from(s, i) < s.len() ==> !(s[first_marker_from(s, i)] is Builtin),
    decreases s.len() - i,
{
    if i < s.len() && s[i] is Builtin {
        lemma_first_marker(s, i + 1);
    }
}

proof fn lemma_first_builtin(s: Seq<FormView>, i: int)
    requires
        0 <= i <= s.len(),
    ensures
        i <= first_builtin_from(s, i) <= s.len(),
        forall|k: int| i <= k < first_builtin_from(s, i) ==> !(#[trigger] s[k] is Builtin),
        first_builtin_from(s, i) < s.len() ==> s[first_builtin_from(s, i)] is Builtin,
    decreases s.len() - i,
{
    if i < s.len() && !(s[i] is Builtin) {
        lemma_first_builtin(s, i + 1);
    }
}

proof fn lemma_first_repeat(s: Seq<FormView>, j: int)
    requires
        0 <= j <= s.len(),
    ensures
        j <= first_repeat_from(s, j) <= s.len(),
        forall|k: int| j <= k < first_repeat_from(s, j) ==> !repeats_earlier_head(s, k),
        first_repeat_from(s, j) < s.len() ==> repeats_earlier_head(s, first_repeat_from(s, j)),
    decreases s.len() - j,
{
    if j < s.len() && !repeats_earlier_head(s, j) {
        lemma_first_repeat(s, j + 1);
    }
}

proof fn lemma_first_application(s: Seq<FormView>, i: int)
    requires
        0 <= i <= s.len(),
    ensures
        i <= first_application_from(s, i) <= s.len(),
        forall|k: int| i <= k < first_application_from(s, i) ==> !(#[trigger] s[k] is Application),
        first_application_from(s, i) < s.len() ==> s[first_application_from(s, i)] is Application,
    decreases s.len() - i,
{
    if i < s.len() && !(s[i] is Application) {
        lemma_first_application(s, i + 1);
    }
}

/// Counting declared markers: the count is at least the number of marked
/// positions named, and zero when there are none.
proof fn lemma_declared_count(s: Seq<FormView>, n: int)
    requires
        0 <= n <= s.len(),
    ensures
        0 <= declared_count(s, n) <= n,
        (forall|k: int| 0 <= k < n ==> !(#[trigger] s[k] is DeclaredMacro)) ==> declared_count(s, n)
            == 0,
        forall|a: int, b: int|
            0 <= a < b < n && s[a] is DeclaredMacro && s[b] is DeclaredMacro ==> declared_count(
                s,
                n,
            ) >= 2,
        forall|a: int| 0 <= a < n && #[trigger] s[a] is DeclaredMacro ==> declared_count(s, n) >= 1,
    decreases n,
{
    if n > 0 {
        lemma_declared_count(s, n - 1);
    }
}

/// With markers possible only just before the last position, the count is at
/// most one.
proof fn lemma_declared_count_at_most_one(s: Seq<FormView>, n: int)
    requires
        0 <= n <= s.len(),
        forall|k: int| 0 <= k < n && k != n - 2 ==> !(#[trigger] s[k] is DeclaredMacro),
    ensures
        declared_count(s, n) <= 1,
{
    if n >= 2 {
        lemma_declared_count(s, n - 2);
        assert(declared_count(s, n - 2) == 0);
        assert(declared_count(s, n) == declared_count(s, n - 1));
    } else {
        lemma_declared_count(s, n);
    }
}

/// Counting application catch-alls, in the same way.
proof fn lemma_application_count(s: Seq<FormView>, n: int)
    requires
        0 <= n <= s.len(),
    ensures
        0 <= application_count(s, n) <= n,
        (forall|k: int| 0 <= k < n ==> !(#[trigger] s[k] is Application)) ==> application_count(
            s,
            n,
        ) == 0,
        forall|a: int, b: int|
            0 <= a < b < n && s[a] is Application && s[b] is Application ==> application_count(
                s,
                n,
            ) >= 2,
        forall|a: int| 0 <= a < n && #[trigger] s[a] is Application ==> application_count(s, n) >= 1,
        (forall|k: int| 0 <= k < n - 1 ==> !(#[trigger] s[k] is Application)) && n > 0 && s[n
            - 1] is Application ==> application_count(s, n) == 1,
    decreases n,
{
    if n > 0 {
        lemma_application_count(s, n - 1);
    }
}

/// Validation accepts exactly the grammars of the shape
/// `Builtin* DeclaredMacro? Application` whose built-in heads are distinct.
pub proof fn lemma_validation_accepts_exactly_the_sound_shape(s: Seq<FormView>)
    ensures
        validation(s) is Ok <==> grammar_shape(s),
{
    let total = s.len() as int;
    lemma_first_marker(s, 0);
    let marker = first_marker_from(s, 0);
    if marker < total {
        lemma_first_builtin(s, marker + 1);
    }
    lemma_first_repeat(s, 0);
    lemma_declared_count(s, total);
    lemma_application_count(s, total);
    lemma_first_application(s, 0);
    if grammar_shape(s) {
        // no built-in after the first marker
        if marker < total {
            let late = first_builtin_from(s, marker + 1);
            if late < total {
                assert(!(s[marker] is Builtin));
                assert(s[late] is Builtin);
                assert(late < total - 1);
                assert(marker == total - 2);
            }
        }
        // no repeated head
        let repeat = first_repeat_from(s, 0);
        if repeat < total {
            assert(repeats_earlier_head(s, repeat));
            let i = choose|i: int|
                0 <= i < repeat && s[i] is Builtin && #[trigger] head_of(s[i]) == head_of(
                    s[repeat],
                );
            assert(head_of(s[i]) != head_of(s[repeat]));
        }
        assert forall|k: int| 0 <= k < total && k != total - 2 implies !(
        #[trigger] s[k] is DeclaredMacro) by {
            if k < total - 1 {
                assert(s[k] is Builtin || (s[k] is DeclaredMacro && k == total - 2));
            }
        }
        assert forall|k: int| 0 <= k < total - 1 implies !(#[trigger] s[k] is Application) by {
            assert(s[k] is Builtin || (s[k] is DeclaredMacro && k == total - 2));
        }
        assert(first_application_from(s, 0) == total - 1);
        lemma_declared_count_at_most_one(s, total);
    }
    if validation(s) is Ok {
        let application = first_application_from(s, 0);
        assert(application_count(s, total) == 1);
        assert(application == total - 1);
        assert(total >= 1);
        assert forall|i: int| 0 <= i < total - 1 implies (#[trigger] s[i] is Builtin || (
        s[i] is DeclaredMacro && i == total - 2)) by {
            if !(s[i] is Builtin) {
                assert(!(s[i] is Application));
                assert(s[i] is DeclaredMacro);
                assert(marker <= i);
                if i < total - 2 {
                    let next = i + 1;
                    assert(!(s[next] is Application));
                    lemma_first_builtin(s, marker + 1);
                    if marker + 1 <= next {
                        assert(!(s[next] is Builtin));
                    } else {
                        assert(marker == i);
                        assert(!(s[next] is Builtin));
                    }
                    assert(s[next] is DeclaredMacro);
                    assert(declared_count(s, total) >= 2);
                }
            }
        }
        assert forall|i: int, j: int|
            0 <= i < j < s.len() && s[i] is Builtin && s[j] is Builtin implies head_of(
            #[trigger] s[i],
        ) != head_of(#[trigger] s[j]) by {
            if head_of(s[i]) == head_of(s[j]) {
                assert(repeats_earlier_head(s, j));
            }
        }
    }
}

/// A [`ReferenceGrammar`] proven to generate a sound resolver.
#[derive(Debug, Eq, PartialEq)]
pub struct ValidatedReferenceGrammar(ReferenceGrammar);

impl View for ValidatedReferenceGrammar {
    type V = Seq<FormView>;

    closed spec fn view(&self) -> Seq<FormView> {
        self.0@
    }
}

impl ValidatedReferenceGrammar {
    #[verifier::type_invariant]
    closed spec fn sound(self) -> bool {
        validation(self.0@) is Ok
    }

    /// The validated forms in declared precedence order; they have the sound
    /// shape.
    pub fn forms(&self) -> (r: &[ReferenceForm])
        ensures
            forms_view(r@) == self@,
            grammar_shape(self@),
    {
        proof {
            use_type_invariant(self);
            lemma_validation_accepts_exactly_the_sound_shape(self@);
        }
        self.0.forms()
    }

    /// Validate a grammar. The checks run in order: a built-in after a
    /// fallback marker, a repeated built-in head, more than one declared-macro
    /// marker, then the application catch-all (missing, not last, or
    /// repeated). The first failing check is the error.
    pub fn try_from(grammar: ReferenceGrammar) -> (result: Result<Self, Error>)
        ensures
            validation(grammar@) is Ok <==> result is Ok,
            result matches Ok(v) ==> v@ == grammar@,
            result matches Err(e) ==> validation(grammar@) == Err::<(), ErrorView>(e@),
    {
        let forms = grammar.forms();
        let total = forms.len();
        let ghost s = grammar@;
        proof {
            assert(forall|k: int| 0 <= k < total ==> s[k] == (#[trigger] forms@[k])@);
            lemma_first_marker(s, 0);
        }
        // Built-ins must precede every fallback marker.
        let mut marker: usize = 0;
        while marker < total && is_builtin(&forms[marker])
            invariant
                total == forms@.len(),
                s == forms_view(forms@),
                marker <= total,
                first_marker_from(s, 0) == first_marker_from(s, marker as int),
            decreases total - marker,
        {
            marker = marker + 1;
        }
        if marker < total {
            let mut late: usize = marker + 1;
            proof {
                lemma_first_builtin(s, late as int);
            }
            while late < total && !is_builtin(&forms[late])
                invariant
                    total == forms@.len(),
                    s == forms_view(forms@),
                    marker < late <= total,
                    first_builtin_from(s, marker + 1) == first_builtin_from(s, late as int),
                decreases total - late,
            {
                late = late + 1;
            }
            if late < total {
                return Err(Error::BuiltinAfterMarker { position: late });
            }
        }
        proof {
            lemma_first_repeat(s, 0);
        }
        // No built-in head declared twice.
        let mut seen: Vec<&BuiltinHead> = Vec::new();
        let ghost mut seen_at: Seq<int> = Seq::empty();
        let mut j: usize = 0;
        while j < total
            invariant
                total == forms@.len(),
                s == forms_view(forms@),
                s == grammar@,
                j <= total,
                first_repeat_from(s, 0) == first_repeat_from(s, j as int),
                !(first_marker_from(s, 0) < total && first_builtin_from(
                    s,
                    first_marker_from(s, 0) + 1,
                ) < total),
                seen@.len() == seen_at.len(),
                forall|k: int|
                    0 <= k < seen_at.len() ==> 0 <= #[trigger] seen_at[k] < j && s[seen_at[k]] is Builtin
                        && head_of(s[seen_at[k]]) == seen@[k]@,
                forall|i: int|
                    0 <= i < j && #[trigger] s[i] is Builtin ==> exists|k: int|
                        0 <= k < seen_at.len() && #[trigger] seen_at[k] == i,
            decreases total - j,
        {
            match &forms[j] {
                ReferenceForm::Builtin(head, _) => {
                    let mut k: usize = 0;
                    while k < seen.len() && !same_head(seen[k], head)
                        invariant
                            k <= seen@.len(),
                            forall|q: int| 0 <= q < k ==> seen@[q]@ != head@,
                        decreases seen@.len() - k,
                    {
                        k = k + 1;
                    }
                    proof {
                        assert(s[j as int] == forms@[j as int]@);
                    }
                    if k < seen.len() {
                        proof {
                            let i = seen_at[k as int];
                            assert(head_of(s[i]) == head_of(s[j as int]));
                            assert(repeats_earlier_head(s, j as int));
                            assert(first_repeat_from(s, j as int) == j);
                            assert(head_of(s[j as int]) == head@);
                        }
                        let duplicate = head.duplicate();
                        let error = Error::DuplicateBuiltinHead(duplicate);
                        proof {
                            assert(error@ == ErrorView::DuplicateBuiltinHead(head@));
                            assert(validation(s) == Err::<(), ErrorView>(error@));
                        }
                        return Err(error);
                    }
                    proof {
                        assert(!repeats_earlier_head(s, j as int)) by {
                            if repeats_earlier_head(s, j as int) {
                                let i = choose|i: int|
                                    0 <= i < j && s[i] is Builtin && #[trigger] head_of(s[i])
                                        == head_of(s[j as int]);
                                let q = choose|q: int| 0 <= q < seen_at.len() && #[trigger] seen_at[q] == i;
                                assert(seen@[q]@ == head@);
                            }
                        }
                        let old_seen_at = seen_at;
                        seen_at = seen_at.push(j as int);
                        assert(seen_at[seen_at.len() - 1] == j as int);
                        assert forall|i: int| 0 <= i < j + 1 && #[trigger] s[i] is Builtin implies exists|k: int|
                            0 <= k < seen_at.len() && #[trigger] seen_at[k] == i by {
                            if i < j {
                                let k = choose|k: int| 0 <= k < old_seen_at.len() && #[trigger] old_seen_at[k] == i;
                                assert(seen_at[k] == i);
                            } else {
                                assert(seen_at[seen_at.len() - 1] == i);
                            }
                        }
                    }
                    seen.push(head);
                },
                _ => {
                    proof {
                        assert(!repeats_earlier_head(s, j as int));
                    }
                },
            }
            j = j + 1;
        }
        // The registry stage is consulted at most once.
        let mut declared: usize = 0;
        let mut applications: usize = 0;
        let mut application: usize = total;
        let mut i: usize = 0;
        while i < total
            invariant
                total == forms@.len(),
                s == forms_view(forms@),
                i <= total,
                declared == declared_count(s, i as int),
                applications == application_count(s, i as int),
                applications == 0 ==> application == total,
                application == total ==> applications == 0,
                applications > 0 ==> application < i && first_application_from(s, 0) == application,
                applications == 0 ==> first_application_from(s, 0) == first_application_from(
                    s,
                    i as int,
                ),
                declared <= i,
                applications <= i,
                !(first_marker_from(s, 0) < total && first_builtin_from(
                    s,
                    first_marker_from(s, 0) + 1,
                ) < total),
                first_repeat_from(s, 0) == total,
            decreases total - i,
        {
            match &forms[i] {
                ReferenceForm::DeclaredMacro => {
                    declared = declared + 1;
                },
                ReferenceForm::Application => {
                    if applications == 0 {
                        application = i;
                    }
                    applications = applications + 1;
                },
                _ => {},
            }
            i = i + 1;
        }
        if declared > 1 {
            return Err(Error::DuplicateDeclaredMacro { count: declared });
        }
        if applications == 0 {
            return Err(Error::MissingApplication);
        }
        if applications == 1 && application != total - 1 {
            return Err(Error::ApplicationNotLast { position: application, total });
        }
        if applications > 1 {
            return Err(Error::DuplicateApplication { count: applications });
        }
        Ok(ValidatedReferenceGrammar(grammar))
    }
}

fn same_head(a: &BuiltinHead, b: &BuiltinHead) -> (r: bool)
    ensures
        r == (a@ == b@),
{
    a.same_as(b)
}

fn is_builtin(form: &ReferenceForm) -> (r: bool)
    ensures
        r == (form@ is Builtin),
{
    match form {
        ReferenceForm::Builtin(..) => true,
        _ => false,
    }
}

} // verus!
