//! First-match lookup over sequences: the model behind every "find the
//! declaration named …" query of the schema.
use vstd::prelude::*;

verus! {

/// The index of the first element satisfying `p`, if any.
pub open spec fn first_match<T>(s: Seq<T>, p: spec_fn(T) -> bool) -> Option<int>
    decreases s.len(),
{
    if s.len() == 0 {
        None
    } else {
        match first_match(s.drop_last(), p) {
            Some(k) => Some(k),
            None => if p(s.last()) {
                Some(s.len() - 1)
            } else {
                None
            },
        }
    }
}

/// Whether some element satisfies `p`.
pub open spec fn any_match<T>(s: Seq<T>, p: spec_fn(T) -> bool) -> bool {
    exists|k: int| 0 <= k < s.len() && #[trigger] p(s[k])
}

/// The first match is in range, satisfies the predicate, and nothing before
/// it does; no match means nothing does.
pub proof fn lemma_first_match<T>(s: Seq<T>, p: spec_fn(T) -> bool)
    ensures
        first_match(s, p) matches Some(k) ==> 0 <= k < s.len() && p(s[k]) && forall|j: int|
            0 <= j < k ==> !#[trigger] p(s[j]),
        first_match(s, p) is None ==> forall|j: int| 0 <= j < s.len() ==> !#[trigger] p(s[j]),
        first_match(s, p) is Some <==> any_match(s, p),
    decreases s.len(),
{
    if s.len() > 0 {
        let t = s.drop_last();
        lemma_first_match(t, p);
        assert forall|j: int| 0 <= j < t.len() implies t[j] == s[j] by {}
        if first_match(t, p) is None && !p(s.last()) {
            assert forall|j: int| 0 <= j < s.len() implies !#[trigger] p(s[j]) by {
                if j < t.len() {
                    assert(t[j] == s[j]);
                }
            }
        }
        if first_match(t, p) is Some {
            let k = first_match(t, p)->0;
            assert(t[k] == s[k]);
        }
    }
}

/// The first element satisfying `p` is at `k`.
pub proof fn lemma_first_match_at<T>(s: Seq<T>, p: spec_fn(T) -> bool, k: int)
    requires
        0 <= k < s.len(),
        p(s[k]),
        forall|j: int| 0 <= j < k ==> !#[trigger] p(s[j]),
    ensures
        first_match(s, p) == Some(k),
{
    lemma_first_match(s, p);
    if first_match(s, p) is None {
        assert(!p(s[k]));
    } else {
        let m = first_match(s, p)->0;
        if m < k {
            assert(!p(s[m]));
        }
        if m > k {
            assert(!p(s[k]));
        }
    }
}

/// No element satisfies `p`.
pub proof fn lemma_first_match_none<T>(s: Seq<T>, p: spec_fn(T) -> bool)
    requires
        forall|j: int| 0 <= j < s.len() ==> !#[trigger] p(s[j]),
    ensures
        first_match(s, p) is None,
        !any_match(s, p),
{
    lemma_first_match(s, p);
    if first_match(s, p) is Some {
        let m = first_match(s, p)->0;
        assert(p(s[m]));
    }
}

} // verus!
