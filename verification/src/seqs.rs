//! Positions in sequences.

use vstd::prelude::*;

verus! {

/// Whether `i` is the first position of `s` whose element satisfies `p`.
pub open spec fn is_first<T>(s: Seq<T>, p: spec_fn(T) -> bool, i: int) -> bool {
    &&& 0 <= i < s.len()
    &&& p(s[i])
    &&& forall|j: int| 0 <= j < i ==> !p(#[trigger] s[j])
}

/// Whether some element of `s` satisfies `p`.
pub open spec fn has<T>(s: Seq<T>, p: spec_fn(T) -> bool) -> bool {
    exists|i: int| 0 <= i < s.len() && p(#[trigger] s[i])
}

/// The first position of `s` whose element satisfies `p`, if there is one.
pub open spec fn find_first<T>(s: Seq<T>, p: spec_fn(T) -> bool) -> Option<int> {
    if has(s, p) {
        Some(choose|i: int| is_first(s, p, i))
    } else {
        None
    }
}

/// The property of being equal to `x`.
pub open spec fn equals<T>(x: T) -> spec_fn(T) -> bool {
    |y: T| y == x
}

/// The first position of `s` that holds `x`, if there is one.
pub open spec fn position<T>(s: Seq<T>, x: T) -> Option<int> {
    find_first(s, equals(x))
}

/// Whether `i` is the last position of `s` that holds `x`.
pub open spec fn is_last<T>(s: Seq<T>, x: T, i: int) -> bool {
    &&& 0 <= i < s.len()
    &&& s[i] == x
    &&& forall|j: int| i < j < s.len() ==> #[trigger] s[j] != x
}

/// The last position of `s` that holds `x`, where `s` contains `x`.
pub open spec fn last_position<T>(s: Seq<T>, x: T) -> int {
    choose|i: int| is_last(s, x, i)
}

/// `s` without its first occurrence of `x`.
pub open spec fn remove_first<T>(s: Seq<T>, x: T) -> Seq<T> {
    match position(s, x) {
        Some(i) => s.remove(i),
        None => s,
    }
}

/// A first position is the one that `find_first` gives.
pub proof fn lemma_find_first<T>(s: Seq<T>, p: spec_fn(T) -> bool, i: int)
    requires
        is_first(s, p, i),
    ensures
        find_first(s, p) == Some(i),
{
    assert(has(s, p));
    let k = choose|k: int| is_first(s, p, k);
    assert(is_first(s, p, k));
    if k < i {
        assert(!p(s[k]));
    }
    if i < k {
        assert(!p(s[i]));
    }
}

/// What `find_first` gives is a first position; it gives none only where no
/// element satisfies `p`.
pub proof fn lemma_find_first_is_first<T>(s: Seq<T>, p: spec_fn(T) -> bool)
    ensures
        match find_first(s, p) {
            Some(i) => is_first(s, p, i),
            None => forall|j: int| 0 <= j < s.len() ==> !p(#[trigger] s[j]),
        },
{
    if has(s, p) {
        let w = choose|i: int| 0 <= i < s.len() && p(#[trigger] s[i]);
        lemma_first_exists(s, p, w);
    }
}

/// Below a position whose element satisfies `p` there is a first such.
proof fn lemma_first_exists<T>(s: Seq<T>, p: spec_fn(T) -> bool, w: int)
    requires
        0 <= w < s.len(),
        p(s[w]),
    ensures
        exists|i: int| is_first(s, p, i),
    decreases w,
{
    if exists|j: int| 0 <= j < w && p(#[trigger] s[j]) {
        let j = choose|j: int| 0 <= j < w && p(#[trigger] s[j]);
        lemma_first_exists(s, p, j);
    } else {
        assert(is_first(s, p, w));
    }
}

/// A last position is the one that `last_position` gives.
pub proof fn lemma_last_position<T>(s: Seq<T>, x: T, i: int)
    requires
        is_last(s, x, i),
    ensures
        last_position(s, x) == i,
{
    let k = choose|k: int| is_last(s, x, k);
    assert(is_last(s, x, k));
    if k < i {
        assert(s[i] != x);
    }
    if i < k {
        assert(s[k] != x);
    }
}

/// Where `s` contains `x`, what `last_position` gives is a last position.
pub proof fn lemma_last_position_is_last<T>(s: Seq<T>, x: T)
    requires
        s.contains(x),
    ensures
        is_last(s, x, last_position(s, x)),
    decreases s.len(),
{
    if s.last() == x {
        assert(is_last(s, x, s.len() - 1));
    } else {
        let w = choose|i: int| 0 <= i < s.len() && s[i] == x;
        let t = s.drop_last();
        assert(t[w] == x);
        lemma_last_position_is_last(t, x);
        let k = last_position(t, x);
        assert forall|j: int| k < j < s.len() implies #[trigger] s[j] != x by {
            if j < t.len() {
                assert(t[j] != x);
            }
        }
        assert(is_last(s, x, k));
    }
}

/// In a sequence without duplicates, the last position of an element is the
/// position at which it stands.
pub proof fn lemma_last_position_unique<T>(s: Seq<T>, i: int)
    requires
        s.no_duplicates(),
        0 <= i < s.len(),
    ensures
        last_position(s, s[i]) == i,
{
    lemma_last_position(s, s[i], i);
}

/// Taking an element out of a sequence without duplicates leaves a
/// sequence without duplicates that holds what the sequence held but for
/// that element.
pub proof fn lemma_remove_unique<T>(s: Seq<T>, i: int)
    requires
        s.no_duplicates(),
        0 <= i < s.len(),
    ensures
        s.remove(i).len() == s.len() - 1,
        s.remove(i).no_duplicates(),
        !s.remove(i).contains(s[i]),
        forall|x: T| x != s[i] && s.contains(x) ==> #[trigger] s.remove(i).contains(x),
        forall|j: int|
            0 <= j < s.len() - 1 ==> #[trigger] s.remove(i)[j] == s[if j < i {
                j
            } else {
                j + 1
            }],
{
    let t = s.remove(i);
    assert forall|j: int| 0 <= j < s.len() - 1 implies #[trigger] t[j] == s[if j < i {
        j
    } else {
        j + 1
    }] by {}
    assert forall|a: int, b: int| 0 <= a < t.len() && 0 <= b < t.len() && a != b implies t[a]
        != t[b] by {
        let sa = if a < i { a } else { a + 1 };
        let sb = if b < i { b } else { b + 1 };
        assert(s[sa] != s[sb]);
    }
    if t.contains(s[i]) {
        let j = choose|j: int| 0 <= j < t.len() && t[j] == s[i];
        let sj = if j < i { j } else { j + 1 };
        assert(s[sj] != s[i]);
    }
    assert forall|x: T| x != s[i] && s.contains(x) implies #[trigger] t.contains(x) by {
        let j = choose|j: int| 0 <= j < s.len() && s[j] == x;
        if j < i {
            assert(t[j] == x);
        } else {
            assert(t[j - 1] == x);
        }
    }
}

} // verus!
