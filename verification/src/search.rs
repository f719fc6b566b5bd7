//! The first position in a sequence whose element has a property.

use vstd::prelude::*;

verus! {

/// The first index whose element satisfies `f`.
pub open spec fn first_index<T>(s: Seq<T>, f: spec_fn(T) -> bool) -> Option<int>
    decreases s.len(),
{
    if s.len() == 0 {
        None
    } else {
        match first_index(s.drop_last(), f) {
            Some(i) => Some(i),
            None => if f(s.last()) {
                Some(s.len() - 1)
            } else {
                None
            },
        }
    }
}

pub proof fn lemma_first_index<T>(s: Seq<T>, f: spec_fn(T) -> bool)
    ensures
        match first_index(s, f) {
            Some(i) => 0 <= i < s.len() && f(s[i]) && forall|j: int|
                0 <= j < i ==> !f(#[trigger] s[j]),
            None => forall|j: int| 0 <= j < s.len() ==> !f(#[trigger] s[j]),
        },
    decreases s.len(),
{
    if s.len() > 0 {
        lemma_first_index(s.drop_last(), f);
        match first_index(s.drop_last(), f) {
            Some(i) => {
                assert forall|j: int| 0 <= j < i implies !f(#[trigger] s[j]) by {
                    assert(s[j] == s.drop_last()[j]);
                }
            },
            None => {
                assert forall|j: int| 0 <= j < s.len() - 1 implies !f(#[trigger] s[j]) by {
                    assert(s[j] == s.drop_last()[j]);
                }
            },
        }
    }
}

/// `first_index` is the index `i` when `s[i]` is the first element with `f`.
pub proof fn lemma_first_index_at<T>(s: Seq<T>, f: spec_fn(T) -> bool, i: int)
    requires
        0 <= i < s.len(),
        f(s[i]),
        forall|j: int| 0 <= j < i ==> !f(#[trigger] s[j]),
    ensures
        first_index(s, f) == Some(i),
{
    lemma_first_index(s, f);
    match first_index(s, f) {
        Some(k) => {
            if k < i {
                assert(!f(s[k]));
            } else if k > i {
                assert(!f(s[i]));
            }
        },
        None => {
            assert(!f(s[i]));
        },
    }
}

/// `first_index` is `None` when no element has `f`.
pub proof fn lemma_first_index_none<T>(s: Seq<T>, f: spec_fn(T) -> bool)
    requires
        forall|j: int| 0 <= j < s.len() ==> !f(#[trigger] s[j]),
    ensures
        first_index(s, f).is_none(),
{
    lemma_first_index(s, f);
    if first_index(s, f).is_some() {
        let k = first_index(s, f).unwrap();
        assert(!f(s[k]));
    }
}

/// Changing an element into one with the same answer to `f` keeps the
/// first index.
pub proof fn lemma_first_index_update<T>(s: Seq<T>, f: spec_fn(T) -> bool, i: int, x: T)
    requires
        0 <= i < s.len(),
        f(s[i]) == f(x),
    ensures
        first_index(s.update(i, x), f) == first_index(s, f),
{
    lemma_first_index(s, f);
    let t = s.update(i, x);
    match first_index(s, f) {
        Some(k) => {
            assert forall|j: int| 0 <= j < k implies !f(#[trigger] t[j]) by {
                if j == i {
                    assert(!f(s[i]));
                } else {
                    assert(t[j] == s[j]);
                }
            }
            if k == i {
                assert(f(t[k]));
            } else {
                assert(t[k] == s[k]);
            }
            lemma_first_index_at(t, f, k);
        },
        None => {
            assert forall|j: int| 0 <= j < t.len() implies !f(#[trigger] t[j]) by {
                if j == i {
                    assert(!f(s[i]));
                } else {
                    assert(t[j] == s[j]);
                }
            }
            lemma_first_index_none(t, f);
        },
    }
}

/// Appending keeps an existing first index, and otherwise finds the new
/// element when it has `f`.
pub proof fn lemma_first_index_push<T>(s: Seq<T>, f: spec_fn(T) -> bool, x: T)
    ensures
        first_index(s.push(x), f) == (match first_index(s, f) {
            Some(i) => Some(i),
            None => if f(x) {
                Some(s.len() as int)
            } else {
                None
            },
        }),
{
    assert(s.push(x).drop_last() == s);
}

} // verus!
