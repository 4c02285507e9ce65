//! Searching a sequence for a value.

use vstd::prelude::*;

verus! {

/// The first position at or after `from` where `s` holds `a`, if there is one.
pub open spec fn index_from<A>(s: Seq<A>, a: A, from: int) -> Option<int>
    decreases s.len() - from,
{
    if from < 0 || from >= s.len() {
        None
    } else if s[from] == a {
        Some(from)
    } else {
        index_from(s, a, from + 1)
    }
}

/// The first position where `s` holds `a`, if there is one.
pub open spec fn first_index<A>(s: Seq<A>, a: A) -> Option<int> {
    index_from(s, a, 0)
}

/// `index_from` finds the first occurrence at or after `from`, and finds
/// nothing only where there is none.
pub proof fn lemma_index_from<A>(s: Seq<A>, a: A, from: int)
    requires
        0 <= from <= s.len(),
    ensures
        match index_from(s, a, from) {
            Some(k) => from <= k < s.len() && s[k] == a && forall|j: int|
                from <= j < k ==> s[j] != a,
            None => forall|j: int| from <= j < s.len() ==> s[j] != a,
        },
    decreases s.len() - from,
{
    if from < s.len() && s[from] != a {
        lemma_index_from(s, a, from + 1);
    }
}

/// `first_index` finds the first occurrence, and finds nothing exactly where
/// `s` does not contain `a`.
pub proof fn lemma_first_index<A>(s: Seq<A>, a: A)
    ensures
        first_index(s, a) is Some <==> s.contains(a),
        first_index(s, a) matches Some(k) ==> 0 <= k < s.len() && s[k] == a && forall|j: int|
            0 <= j < k ==> s[j] != a,
{
    lemma_index_from(s, a, 0);
    if first_index(s, a) is Some {
        assert(s[first_index(s, a)->0] == a);
    }
}

/// A position that holds `a`, with no `a` before it, is the first index of
/// `a`.
pub proof fn lemma_first_index_is<A>(s: Seq<A>, a: A, k: int)
    requires
        0 <= k < s.len(),
        s[k] == a,
        forall|j: int| 0 <= j < k ==> s[j] != a,
    ensures
        first_index(s, a) == Some(k),
{
    lemma_index_from(s, a, 0);
}

/// A sequence with one more value at its end contains what it contained
/// before, and that value.
pub proof fn lemma_push_contains<A>(s: Seq<A>, x: A, a: A)
    ensures
        s.push(x).contains(a) <==> (s.contains(a) || a == x),
{
    if s.push(x).contains(a) {
        let i = choose|i: int| 0 <= i < s.push(x).len() && s.push(x)[i] == a;
        if i < s.len() {
            assert(s[i] == a);
        }
    }
    if s.contains(a) {
        let i = choose|i: int| 0 <= i < s.len() && s[i] == a;
        assert(s.push(x)[i] == a);
    }
    if a == x {
        assert(s.push(x)[s.len() as int] == a);
    }
}

/// A value that a duplicate-free sequence does not contain can join it.
pub proof fn lemma_push_no_duplicates<A>(s: Seq<A>, x: A)
    requires
        s.no_duplicates(),
        !s.contains(x),
    ensures
        s.push(x).no_duplicates(),
{
    assert forall|i: int, j: int|
        0 <= i < s.push(x).len() && 0 <= j < s.push(x).len() && i != j implies s.push(x)[i]
        != s.push(x)[j] by {
        if i < s.len() {
            assert(s.contains(s[i]));
        }
        if j < s.len() {
            assert(s.contains(s[j]));
        }
    }
}

/// The last value of a duplicate-free sequence does not occur before it.
pub proof fn lemma_drop_last_no_duplicates<A>(s: Seq<A>)
    requires
        s.no_duplicates(),
        s.len() > 0,
    ensures
        s.drop_last().no_duplicates(),
        !s.drop_last().contains(s.last()),
{
    if s.drop_last().contains(s.last()) {
        let i = choose|i: int| 0 <= i < s.drop_last().len() && s.drop_last()[i] == s.last();
        assert(s[i] == s[s.len() - 1]);
    }
}

/// Two sequences joined contain what either contains.
pub proof fn lemma_concat_contains<A>(a: Seq<A>, b: Seq<A>, x: A)
    ensures
        (a + b).contains(x) <==> (a.contains(x) || b.contains(x)),
{
    if (a + b).contains(x) {
        let i = choose|i: int| 0 <= i < (a + b).len() && (a + b)[i] == x;
        if i < a.len() {
            assert(a[i] == x);
        } else {
            assert(b[i - a.len()] == x);
        }
    }
    if a.contains(x) {
        let i = choose|i: int| 0 <= i < a.len() && a[i] == x;
        assert((a + b)[i] == x);
    }
    if b.contains(x) {
        let i = choose|i: int| 0 <= i < b.len() && b[i] == x;
        assert((a + b)[i + a.len()] == x);
    }
}

/// Two duplicate-free sequences that share no value join to a duplicate-free
/// sequence.
pub proof fn lemma_concat_no_duplicates<A>(a: Seq<A>, b: Seq<A>)
    requires
        a.no_duplicates(),
        b.no_duplicates(),
        forall|x: A| !(a.contains(x) && b.contains(x)),
    ensures
        (a + b).no_duplicates(),
{
    assert forall|i: int, j: int|
        0 <= i < (a + b).len() && 0 <= j < (a + b).len() && i != j implies (a + b)[i] != (a
        + b)[j] by {
        if i < a.len() && j >= a.len() {
            assert(a.contains(a[i]));
            assert(b.contains(b[j - a.len()]));
        }
        if j < a.len() && i >= a.len() {
            assert(a.contains(a[j]));
            assert(b.contains(b[i - a.len()]));
        }
    }
}

} // verus!
