//! Searching byte strings for a pattern, and telling where one stands.

use vstd::prelude::*;

verus! {

/// `pat` stands in `s` at index `i`.
pub open spec fn occurs_at(s: Seq<u8>, pat: Seq<u8>, i: int) -> bool {
    &&& 0 <= i
    &&& i + pat.len() <= s.len()
    &&& s.subrange(i, i + pat.len()) == pat
}

/// `pat` stands somewhere in `s`.
pub open spec fn occurs_in(s: Seq<u8>, pat: Seq<u8>) -> bool {
    exists|i: int| occurs_at(s, pat, i)
}

/// `i` is the least index at which `pat` stands in `s`.
pub open spec fn is_first_occurrence(s: Seq<u8>, pat: Seq<u8>, i: int) -> bool {
    &&& occurs_at(s, pat, i)
    &&& forall|j: int| occurs_at(s, pat, j) ==> i <= j
}

/// `i` is the greatest index at which `pat` stands in `s`.
pub open spec fn is_last_occurrence(s: Seq<u8>, pat: Seq<u8>, i: int) -> bool {
    &&& occurs_at(s, pat, i)
    &&& forall|j: int| occurs_at(s, pat, j) ==> j <= i
}

/// The least index at which `pat` stands in `s`, if it stands there at all.
pub open spec fn first_occurrence(s: Seq<u8>, pat: Seq<u8>) -> Option<int> {
    if occurs_in(s, pat) {
        Some(choose|i: int| is_first_occurrence(s, pat, i))
    } else {
        None
    }
}

/// The greatest index at which `pat` stands in `s`, if it stands there at all.
pub open spec fn last_occurrence(s: Seq<u8>, pat: Seq<u8>) -> Option<int> {
    if occurs_in(s, pat) {
        Some(choose|i: int| is_last_occurrence(s, pat, i))
    } else {
        None
    }
}

/// `s` begins with `pat`.
pub open spec fn has_prefix(s: Seq<u8>, pat: Seq<u8>) -> bool {
    occurs_at(s, pat, 0)
}

/// `s` ends with `pat`.
pub open spec fn has_suffix(s: Seq<u8>, pat: Seq<u8>) -> bool {
    occurs_at(s, pat, s.len() - pat.len())
}

/// An index found by a search, as a mathematical integer.
pub open spec fn position(found: Option<usize>) -> Option<int> {
    match found {
        Some(i) => Some(i as int),
        None => None,
    }
}

/// A least occurrence is the first occurrence.
pub proof fn lemma_first_occurrence(s: Seq<u8>, pat: Seq<u8>, i: int)
    requires
        is_first_occurrence(s, pat, i),
    ensures
        first_occurrence(s, pat) == Some(i),
{
    let c = choose|k: int| is_first_occurrence(s, pat, k);
    assert(occurs_at(s, pat, c));
    assert(occurs_at(s, pat, i));
}

/// A greatest occurrence is the last occurrence.
pub proof fn lemma_last_occurrence(s: Seq<u8>, pat: Seq<u8>, i: int)
    requires
        is_last_occurrence(s, pat, i),
    ensures
        last_occurrence(s, pat) == Some(i),
{
    let c = choose|k: int| is_last_occurrence(s, pat, k);
    assert(occurs_at(s, pat, c));
    assert(occurs_at(s, pat, i));
}

/// Whatever `first_occurrence` names is a least occurrence, and it names one
/// whenever the pattern occurs.
pub proof fn lemma_first_occurrence_found(s: Seq<u8>, pat: Seq<u8>)
    ensures
        match first_occurrence(s, pat) {
            Some(i) => is_first_occurrence(s, pat, i),
            None => forall|j: int| !occurs_at(s, pat, j),
        },
{
    if occurs_in(s, pat) {
        let w = choose|i: int| occurs_at(s, pat, i);
        lemma_least_occurrence(s, pat, w);
    }
}

/// Whatever `last_occurrence` names is a greatest occurrence, and it names one
/// whenever the pattern occurs.
pub proof fn lemma_last_occurrence_found(s: Seq<u8>, pat: Seq<u8>)
    ensures
        match last_occurrence(s, pat) {
            Some(i) => is_last_occurrence(s, pat, i),
            None => forall|j: int| !occurs_at(s, pat, j),
        },
{
    if occurs_in(s, pat) {
        let w = choose|i: int| occurs_at(s, pat, i);
        lemma_greatest_occurrence(s, pat, w);
    }
}

/// Below any occurrence there is a least one.
proof fn lemma_least_occurrence(s: Seq<u8>, pat: Seq<u8>, w: int)
    requires
        occurs_at(s, pat, w),
    ensures
        exists|i: int| is_first_occurrence(s, pat, i),
    decreases w,
{
    if exists|j: int| occurs_at(s, pat, j) && j < w {
        let j = choose|j: int| occurs_at(s, pat, j) && j < w;
        lemma_least_occurrence(s, pat, j);
    } else {
        assert(is_first_occurrence(s, pat, w));
    }
}

/// Above any occurrence there is a greatest one.
proof fn lemma_greatest_occurrence(s: Seq<u8>, pat: Seq<u8>, w: int)
    requires
        occurs_at(s, pat, w),
    ensures
        exists|i: int| is_last_occurrence(s, pat, i),
    decreases s.len() - w,
{
    if exists|j: int| occurs_at(s, pat, j) && j > w {
        let j = choose|j: int| occurs_at(s, pat, j) && j > w;
        lemma_greatest_occurrence(s, pat, j);
    } else {
        assert(is_last_occurrence(s, pat, w));
    }
}

/// Whether `pat` stands in `s` at index `i`.
pub fn matches_at(s: &[u8], pat: &[u8], i: usize) -> (r: bool)
    ensures
        r == occurs_at(s@, pat@, i as int),
{
    let n: usize = s.len();
    let m: usize = pat.len();
    if i > n || m > n - i {
        return false;
    }
    let mut k: usize = 0;
    while k < m
        invariant
            n == s@.len(),
            m == pat@.len(),
            i + m <= n,
            k <= m,
            forall|j: int| 0 <= j < k ==> s@[i + j] == pat@[j],
        decreases m - k,
    {
        if s[i + k] != pat[k] {
            proof {
                assert(s@.subrange(i as int, i + m)[k as int] == s@[i + k]);
            }
            return false;
        }
        k = k + 1;
    }
    proof {
        assert(s@.subrange(i as int, i + m) =~= pat@);
    }
    true
}

/// Whether `s` begins with `pat`.
pub fn starts_with(s: &[u8], pat: &[u8]) -> (r: bool)
    ensures
        r == has_prefix(s@, pat@),
{
    matches_at(s, pat, 0)
}

/// Whether `s` ends with `pat`.
pub fn ends_with(s: &[u8], pat: &[u8]) -> (r: bool)
    ensures
        r == has_suffix(s@, pat@),
{
    if pat.len() > s.len() {
        return false;
    }
    matches_at(s, pat, s.len() - pat.len())
}

/// The first index at which `pat` stands in `s`.
pub fn find(s: &[u8], pat: &[u8]) -> (r: Option<usize>)
    ensures
        position(r) == first_occurrence(s@, pat@),
{
    let n: usize = s.len();
    let m: usize = pat.len();
    if m > n {
        return None;
    }
    let last: usize = n - m;
    let mut i: usize = 0;
    loop
        invariant
            n == s@.len(),
            m == pat@.len(),
            last == n - m,
            i <= last,
            forall|j: int| j < i ==> !occurs_at(s@, pat@, j),
        decreases last - i,
    {
        if matches_at(s, pat, i) {
            proof {
                lemma_first_occurrence(s@, pat@, i as int);
            }
            return Some(i);
        }
        if i == last {
            return None;
        }
        i = i + 1;
    }
}

/// The last index at which `pat` stands in `s`.
pub fn rfind(s: &[u8], pat: &[u8]) -> (r: Option<usize>)
    ensures
        position(r) == last_occurrence(s@, pat@),
{
    let n: usize = s.len();
    let m: usize = pat.len();
    if m > n {
        return None;
    }
    let mut i: usize = n - m;
    loop
        invariant
            n == s@.len(),
            m == pat@.len(),
            i <= n - m,
            forall|j: int| j > i ==> !occurs_at(s@, pat@, j),
        decreases i,
    {
        if matches_at(s, pat, i) {
            proof {
                lemma_last_occurrence(s@, pat@, i as int);
            }
            return Some(i);
        }
        if i == 0 {
            return None;
        }
        i = i - 1;
    }
}

/// Whether `pat` stands somewhere in `s`.
pub fn contains(s: &[u8], pat: &[u8]) -> (r: bool)
    ensures
        r == occurs_in(s@, pat@),
{
    find(s, pat).is_some()
}

} // verus!
