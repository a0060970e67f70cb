//! Lexicographic order on names, and sorting keyed entries by it.
use vstd::prelude::*;

verus! {

/// `a` orders strictly before `b`: at the first difference `a` has the
/// smaller character, or `a` is a proper prefix of `b`.
pub open spec fn text_less(a: Seq<char>, b: Seq<char>) -> bool {
    (exists|k: int|
        0 <= k < a.len() && k < b.len() && a[k] < b[k] && forall|j: int| 0 <= j < k ==> #[trigger] a[j] == b[j])
        || (a.len() < b.len() && b.take(a.len() as int) == a)
}

/// No text orders before itself.
pub proof fn lemma_text_less_irreflexive(a: Seq<char>)
    ensures
        !text_less(a, a),
{
    if exists|k: int|
        0 <= k < a.len() && k < a.len() && a[k] < a[k] && forall|j: int| 0 <= j < k ==> #[trigger] a[j] == a[j] {
        let k = choose|k: int|
            0 <= k < a.len() && k < a.len() && a[k] < a[k] && forall|j: int| 0 <= j < k ==> #[trigger] a[j] == a[j];
        assert(false);
    }
}

/// The order on texts is transitive.
pub proof fn lemma_text_less_transitive(a: Seq<char>, b: Seq<char>, c: Seq<char>)
    requires
        text_less(a, b),
        text_less(b, c),
    ensures
        text_less(a, c),
{
    let d1 = exists|k: int|
        0 <= k < a.len() && k < b.len() && a[k] < b[k] && forall|j: int| 0 <= j < k ==> #[trigger] a[j] == b[j];
    let d2 = exists|k: int|
        0 <= k < b.len() && k < c.len() && b[k] < c[k] && forall|j: int| 0 <= j < k ==> #[trigger] b[j] == c[j];
    if d1 {
        let k1 = choose|k: int|
            0 <= k < a.len() && k < b.len() && a[k] < b[k] && forall|j: int| 0 <= j < k ==> #[trigger] a[j] == b[j];
        if d2 {
            let k2 = choose|k: int|
                0 <= k < b.len() && k < c.len() && b[k] < c[k] && forall|j: int| 0 <= j < k ==> #[trigger] b[j] == c[j];
            let k = if k1 <= k2 { k1 } else { k2 };
            assert forall|j: int| 0 <= j < k implies #[trigger] a[j] == c[j] by {
                assert(a[j] == b[j]);
                assert(b[j] == c[j]);
            }
            if k1 < k2 {
                assert(b[k1] == c[k1]);
            } else if k2 < k1 {
                assert(a[k2] == b[k2]);
            }
            assert(0 <= k < a.len() && k < c.len() && a[k] < c[k]);
        } else {
            assert(c.take(b.len() as int) == b);
            assert(c[k1] == b[k1]);
            assert forall|j: int| 0 <= j < k1 implies #[trigger] a[j] == c[j] by {
                assert(a[j] == b[j]);
                assert(c[j] == b[j]);
            }
            assert(0 <= k1 < a.len() && k1 < c.len() && a[k1] < c[k1]);
        }
    } else {
        assert(b.take(a.len() as int) == a);
        if d2 {
            let k2 = choose|k: int|
                0 <= k < b.len() && k < c.len() && b[k] < c[k] && forall|j: int| 0 <= j < k ==> #[trigger] b[j] == c[j];
            if k2 < a.len() {
                assert(a[k2] == b[k2]);
                assert forall|j: int| 0 <= j < k2 implies #[trigger] a[j] == c[j] by {
                    assert(a[j] == b[j]);
                    assert(b[j] == c[j]);
                }
                assert(0 <= k2 < a.len() && k2 < c.len() && a[k2] < c[k2]);
            } else {
                assert forall|j: int| 0 <= j < a.len() implies c[j] == a[j] by {
                    assert(a[j] == b[j]);
                    assert(b[j] == c[j]);
                }
                assert(c.take(a.len() as int) =~= a);
            }
        } else {
            assert(c.take(b.len() as int) == b);
            assert forall|j: int| 0 <= j < a.len() implies c[j] == a[j] by {
                assert(a[j] == b[j]);
                assert(c[j] == b[j]);
            }
            assert(c.take(a.len() as int) =~= a);
        }
    }
}

/// Whether `a` orders strictly before `b`.
pub fn text_precedes(a: &str, b: &str) -> (r: bool)
    ensures
        r == text_less(a@, b@),
{
    let x = crate::text::text_chars(a);
    let y = crate::text::text_chars(b);
    let mut k: usize = 0;
    while k < x.len() && k < y.len()
        invariant
            k <= x@.len(),
            k <= y@.len(),
            x@ == a@,
            y@ == b@,
            forall|j: int| 0 <= j < k ==> #[trigger] x@[j] == y@[j],
        decreases x@.len() - k,
    {
        if x[k] != y[k] {
            let r = x[k] < y[k];
            proof {
                if r {
                    assert(x@[k as int] < y@[k as int]);
                } else {
                    if exists|m: int|
                        0 <= m < x@.len() && m < y@.len() && x@[m] < y@[m] && forall|j: int|
                            0 <= j < m ==> #[trigger] x@[j] == y@[j] {
                        let m = choose|m: int|
                            0 <= m < x@.len() && m < y@.len() && x@[m] < y@[m] && forall|j: int|
                                0 <= j < m ==> #[trigger] x@[j] == y@[j];
                        if m < k {
                            assert(x@[m] == y@[m]);
                        } else if m > k {
                            assert(x@[k as int] == y@[k as int]);
                        }
                    }
                    if x@.len() < y@.len() && y@.take(x@.len() as int) == x@ {
                        assert(y@.take(x@.len() as int)[k as int] == x@[k as int]);
                    }
                }
            }
            return r;
        }
        k = k + 1;
    }
    let r = x.len() < y.len();
    proof {
        if exists|m: int|
            0 <= m < x@.len() && m < y@.len() && x@[m] < y@[m] && forall|j: int| 0 <= j < m ==> #[trigger] x@[j] == y@[j] {
            let m = choose|m: int|
                0 <= m < x@.len() && m < y@.len() && x@[m] < y@[m] && forall|j: int|
                    0 <= j < m ==> #[trigger] x@[j] == y@[j];
            assert(x@[m] == y@[m]);
        }
        if r {
            assert(y@.take(x@.len() as int) =~= x@);
        }
    }
    r
}

pub open spec fn keys_of<T>(v: Seq<(String, T)>) -> Seq<Seq<char>> {
    v.map_values(|e: (String, T)| e.0@)
}

/// Whether the keys are in order.
pub open spec fn keys_sorted(ks: Seq<Seq<char>>) -> bool {
    forall|i: int, j: int| 0 <= i < j < ks.len() ==> !text_less(#[trigger] ks[j], #[trigger] ks[i])
}

/// The entries ordered by key: each step moves the first of the smallest
/// remaining keys to the end of the output.
pub fn sort_by_key<T>(entries: Vec<(String, T)>) -> (r: Vec<(String, T)>)
    ensures
        keys_sorted(keys_of(r@)),
        r@.to_multiset() == entries@.to_multiset(),
        r@.len() == entries@.len(),
{
    broadcast use vstd::seq_lib::group_to_multiset_ensures;
    broadcast use vstd::multiset::group_multiset_axioms;
    let ghost given = entries@;
    let mut rest = entries;
    let mut out: Vec<(String, T)> = Vec::new();
    while rest.len() > 0
        invariant
            keys_sorted(keys_of(out@)),
            forall|a: int, b: int|
                0 <= a < out@.len() && 0 <= b < rest@.len() ==> !text_less(
                    #[trigger] rest@[b].0@,
                    #[trigger] out@[a].0@,
                ),
            out@.to_multiset().add(rest@.to_multiset()) == given.to_multiset(),
            out@.len() + rest@.len() == given.len(),
        decreases rest@.len(),
    {
        let mut m: usize = 0;
        let mut k: usize = 1;
        while k < rest.len()
            invariant
                0 <= m < k <= rest@.len(),
                forall|t: int| 0 <= t < k ==> !text_less(#[trigger] rest@[t].0@, rest@[m as int].0@),
            decreases rest@.len() - k,
        {
            if text_precedes(rest[k].0.as_str(), rest[m].0.as_str()) {
                proof {
                    assert forall|t: int| 0 <= t < k + 1 implies !text_less(
                        #[trigger] rest@[t].0@,
                        rest@[k as int].0@,
                    ) by {
                        if t < k && text_less(rest@[t].0@, rest@[k as int].0@) {
                            lemma_text_less_transitive(rest@[t].0@, rest@[k as int].0@, rest@[m as int].0@);
                        }
                        if t == k {
                            lemma_text_less_irreflexive(rest@[k as int].0@);
                        }
                    }
                }
                m = k;
            }
            k = k + 1;
        }
        let ghost rest_before = rest@;
        let ghost out_before = out@;
        let chosen = rest.remove(m);
        out.push(chosen);
        proof {
            assert(rest_before.contains(chosen)) by {
                assert(rest_before[m as int] == chosen);
            }
            vstd::seq_lib::to_multiset_contains(rest_before, chosen);
            vstd::seq_lib::to_multiset_build(out_before, chosen);
            vstd::seq_lib::to_multiset_remove(rest_before, m as int);
            assert(out@.to_multiset().add(rest@.to_multiset()) =~= out_before.to_multiset().add(
                rest_before.to_multiset(),
            ));
            assert forall|a: int, b: int| 0 <= a < out@.len() && 0 <= b < rest@.len() implies !text_less(
                #[trigger] rest@[b].0@,
                #[trigger] out@[a].0@,
            ) by {
                let b0 = if b < m { b } else { b + 1 };
                assert(rest@[b] == rest_before[b0]);
                if a < out_before.len() {
                    assert(out@[a] == out_before[a]);
                }
            }
            assert forall|i: int, j: int| 0 <= i < j < keys_of(out@).len() implies !text_less(
                #[trigger] keys_of(out@)[j],
                #[trigger] keys_of(out@)[i],
            ) by {
                if j < out_before.len() {
                    assert(keys_of(out@)[j] == keys_of(out_before)[j]);
                    assert(keys_of(out@)[i] == keys_of(out_before)[i]);
                } else {
                    assert(out@[i] == out_before[i]);
                    assert(out@[j] == rest_before[m as int]);
                }
            }
        }
    }
    proof {
        assert(rest@ =~= Seq::<(String, T)>::empty());
        assert(rest@.to_multiset() =~= vstd::multiset::Multiset::<(String, T)>::empty());
        assert(out@.to_multiset().add(rest@.to_multiset()) =~= out@.to_multiset());
    }
    out
}

} // verus!
