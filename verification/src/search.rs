//! First-occurrence search of a pattern inside a sequence, with the lemmas
//! that relate searching to appending more data at the end.  Both the event
//! parser (scanning for the record prefix and terminator) and the prompt
//! template substitution are specified in terms of `find_first`.

use vstd::prelude::*;

verus! {

/// `pat` occurs in `s` starting at index `i`.
pub open spec fn matches_at<T>(s: Seq<T>, pat: Seq<T>, i: int) -> bool {
    0 <= i && i + pat.len() <= s.len() && s.subrange(i, i + pat.len()) == pat
}

/// Index of the leftmost occurrence of `pat` in `s`, if any.
pub open spec fn find_first<T>(s: Seq<T>, pat: Seq<T>) -> Option<int>
    decreases s.len(),
{
    if pat.len() == 0 {
        Some(0)
    } else if s.len() < pat.len() {
        None
    } else if s.subrange(0, pat.len() as int) == pat {
        Some(0)
    } else {
        match find_first(s.skip(1), pat) {
            None => None,
            Some(i) => Some(i + 1),
        }
    }
}

/// What `find_first` returns is an occurrence, and the leftmost one; when it
/// returns nothing, there is no occurrence at all.
pub proof fn lemma_find_first_props<T>(s: Seq<T>, pat: Seq<T>)
    ensures
        match find_first(s, pat) {
            Some(i) => matches_at(s, pat, i) && (forall|j: int| 0 <= j < i ==> !matches_at(s, pat, j)),
            None => forall|j: int| !matches_at(s, pat, j),
        },
    decreases s.len(),
{
    if pat.len() == 0 {
        assert(s.subrange(0, 0) =~= pat);
        assert(matches_at(s, pat, 0));
    } else if s.len() < pat.len() {
        assert forall|j: int| !matches_at(s, pat, j) by {}
    } else if s.subrange(0, pat.len() as int) == pat {
        assert(matches_at(s, pat, 0));
    } else {
        lemma_find_first_props(s.skip(1), pat);
        match find_first(s.skip(1), pat) {
            None => {
                assert forall|j: int| !matches_at(s, pat, j) by {
                    if 1 <= j && j + pat.len() <= s.len() {
                        assert(s.skip(1).subrange(j - 1, j - 1 + pat.len()) =~= s.subrange(
                            j,
                            j + pat.len(),
                        ));
                        assert(!matches_at(s.skip(1), pat, j - 1));
                    }
                }
            },
            Some(i) => {
                assert(matches_at(s.skip(1), pat, i));
                assert(s.skip(1).subrange(i, i + pat.len()) =~= s.subrange(i + 1, i + 1 + pat.len()));
                assert(matches_at(s, pat, i + 1));
                assert forall|j: int| 0 <= j < i + 1 implies !matches_at(s, pat, j) by {
                    if 1 <= j && j + pat.len() <= s.len() {
                        assert(s.skip(1).subrange(j - 1, j - 1 + pat.len()) =~= s.subrange(
                            j,
                            j + pat.len(),
                        ));
                        assert(!matches_at(s.skip(1), pat, j - 1));
                    }
                }
            },
        }
    }
}

/// If an occurrence exists, `find_first` finds one (at that index or earlier).
pub proof fn lemma_find_first_complete<T>(s: Seq<T>, pat: Seq<T>, i: int)
    requires
        matches_at(s, pat, i),
    ensures
        match find_first(s, pat) {
            Some(k) => 0 <= k <= i,
            None => false,
        },
{
    lemma_find_first_props(s, pat);
    match find_first(s, pat) {
        Some(k) => {
            if k > i {
                assert(!matches_at(s, pat, i));
            }
        },
        None => {
            assert(!matches_at(s, pat, i));
        },
    }
}

/// An occurrence in a suffix is an occurrence in the whole, shifted.
pub proof fn lemma_matches_at_skip<T>(s: Seq<T>, pat: Seq<T>, from: int, i: int)
    requires
        0 <= from <= i,
        from <= s.len(),
    ensures
        matches_at(s.skip(from), pat, i - from) == matches_at(s, pat, i),
{
    if i + pat.len() <= s.len() {
        assert(s.skip(from).subrange(i - from, i - from + pat.len()) =~= s.subrange(
            i,
            i + pat.len(),
        ));
    }
}

/// An occurrence survives appending more data at the end.
pub proof fn lemma_matches_at_append<T>(s: Seq<T>, ext: Seq<T>, pat: Seq<T>, i: int)
    requires
        matches_at(s, pat, i),
    ensures
        matches_at(s + ext, pat, i),
{
    assert((s + ext).subrange(i, i + pat.len()) =~= s.subrange(i, i + pat.len()));
}

/// A successful search is unaffected by appending more data at the end: the
/// leftmost occurrence stays the leftmost occurrence.
pub proof fn lemma_find_first_append<T>(s: Seq<T>, ext: Seq<T>, pat: Seq<T>)
    requires
        find_first(s, pat) is Some,
    ensures
        find_first(s + ext, pat) == find_first(s, pat),
{
    lemma_find_first_props(s, pat);
    let i = find_first(s, pat).unwrap();
    lemma_matches_at_append(s, ext, pat, i);
    lemma_find_first_complete(s + ext, pat, i);
    lemma_find_first_props(s + ext, pat);
    let k = find_first(s + ext, pat).unwrap();
    if k < i {
        // An earlier occurrence in s + ext would lie entirely inside s,
        // contradicting that i is leftmost in s.
        assert((s + ext).subrange(k, k + pat.len()) =~= s.subrange(k, k + pat.len()));
        assert(matches_at(s, pat, k));
    }
}

} // verus!
