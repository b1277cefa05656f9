//! Byte strings as sequences of lines.
//!
//! A line ends at a newline byte or at the end of the text; the newline is not
//! part of the line. A newline that ends the text opens no further line.

use vstd::prelude::*;

verus! {

/// The newline byte.
pub const NL: u8 = 0x0A;

/// The number of bytes of `s` that stand before the first `b`; all of them
/// where `s` holds no `b`.
pub open spec fn offset_of(s: Seq<u8>, b: u8) -> int
    decreases s.len(),
{
    if s.len() == 0 || s[0] == b {
        0
    } else {
        1 + offset_of(s.skip(1), b)
    }
}

/// The first line of `s`, without its newline.
pub open spec fn first_line(s: Seq<u8>) -> Seq<u8> {
    s.take(offset_of(s, NL))
}

/// What follows the first line of `s` and its newline.
pub open spec fn after_first_line(s: Seq<u8>) -> Seq<u8> {
    if offset_of(s, NL) < s.len() {
        s.skip(offset_of(s, NL) + 1)
    } else {
        Seq::empty()
    }
}

/// The lines of `s`, in order.
pub open spec fn lines(s: Seq<u8>) -> Seq<Seq<u8>>
    decreases s.len(),
    via lines_terminates
{
    if s.len() == 0 {
        Seq::empty()
    } else {
        seq![first_line(s)] + lines(after_first_line(s))
    }
}

#[via_fn]
proof fn lines_terminates(s: Seq<u8>) {
    lemma_offset_of(s, NL);
}

/// The given lines, each followed by a newline.
pub open spec fn unlines(ls: Seq<Seq<u8>>) -> Seq<u8>
    decreases ls.len(),
{
    if ls.len() == 0 {
        Seq::empty()
    } else {
        ls[0] + seq![NL] + unlines(ls.drop_first())
    }
}

/// `s` without its first `n` lines.
pub open spec fn skip_lines(s: Seq<u8>, n: nat) -> Seq<u8>
    decreases n,
{
    if n == 0 {
        s
    } else {
        skip_lines(after_first_line(s), (n - 1) as nat)
    }
}

/// `p` is where a line of `s` begins: the start of the text, or just behind a
/// newline.
pub open spec fn is_line_start(s: Seq<u8>, p: int) -> bool {
    0 <= p <= s.len() && (p == 0 || s[p - 1] == NL)
}

/// `s` is empty or ends with a newline.
pub open spec fn ends_lines(s: Seq<u8>) -> bool {
    s.len() == 0 || s.last() == NL
}

/// `offset_of` stays inside `s`, passes no `b`, and stops on one.
pub proof fn lemma_offset_of(s: Seq<u8>, b: u8)
    ensures
        0 <= offset_of(s, b) <= s.len(),
        forall|j: int| 0 <= j < offset_of(s, b) ==> s[j] != b,
        offset_of(s, b) < s.len() ==> s[offset_of(s, b)] == b,
    decreases s.len(),
{
    if s.len() == 0 || s[0] == b {
    } else {
        lemma_offset_of(s.skip(1), b);
        assert forall|j: int| 0 <= j < offset_of(s, b) implies s[j] != b by {
            if j > 0 {
                assert(s.skip(1)[j - 1] == s[j]);
            }
        }
    }
}

/// The index of the first `b`, or the length where there is none, is what
/// `offset_of` returns.
pub proof fn lemma_offset_of_is(s: Seq<u8>, b: u8, k: int)
    requires
        0 <= k <= s.len(),
        forall|j: int| 0 <= j < k ==> s[j] != b,
        k < s.len() ==> s[k] == b,
    ensures
        offset_of(s, b) == k,
    decreases s.len(),
{
    if s.len() == 0 || s[0] == b {
    } else {
        assert forall|j: int| 0 <= j < k - 1 implies s.skip(1)[j] != b by {
            assert(s.skip(1)[j] == s[j + 1]);
        }
        lemma_offset_of_is(s.skip(1), b, k - 1);
    }
}

/// What follows the first line is shorter than the text.
pub proof fn lemma_after_first_line_shorter(s: Seq<u8>)
    requires
        s.len() > 0,
    ensures
        after_first_line(s).len() < s.len(),
{
    lemma_offset_of(s, NL);
}

/// A text with at most one newline, at its end, is a single line.
pub proof fn lemma_lines_single(s: Seq<u8>)
    requires
        s.len() > 0,
        forall|j: int| 0 <= j < s.len() - 1 ==> s[j] != NL,
    ensures
        lines(s) == seq![first_line(s)],
{
    lemma_offset_of(s, NL);
    assert(after_first_line(s).len() == 0);
    assert(lines(after_first_line(s)) =~= Seq::<Seq<u8>>::empty());
    assert(seq![first_line(s)] + Seq::<Seq<u8>>::empty() =~= seq![first_line(s)]);
}

/// Behind a text that ends its last line, the lines of what follows are added
/// to its own.
pub proof fn lemma_lines_concat(a: Seq<u8>, b: Seq<u8>)
    requires
        ends_lines(a),
    ensures
        lines(a + b) == lines(a) + lines(b),
    decreases a.len(),
{
    if a.len() == 0 {
        assert(a + b =~= b);
        assert(lines(a) + lines(b) =~= lines(b));
    } else {
        lemma_offset_of(a, NL);
        let k = offset_of(a, NL);
        assert(k < a.len()) by {
            if k >= a.len() {
                assert(a[a.len() - 1] != NL);
            }
        }
        lemma_offset_of_is(a + b, NL, k);
        assert(first_line(a + b) =~= first_line(a));
        let rest = a.skip(k + 1);
        assert(after_first_line(a + b) =~= rest + b);
        assert(ends_lines(rest)) by {
            if rest.len() > 0 {
                assert(rest.last() == a.last());
            }
        }
        lemma_lines_concat(rest, b);
        assert(lines(a + b) =~= lines(a) + lines(b));
    }
}

/// Writing out the lines of a text that ends its last line gives the text.
pub proof fn lemma_unlines_lines(a: Seq<u8>)
    requires
        ends_lines(a),
    ensures
        unlines(lines(a)) == a,
    decreases a.len(),
{
    if a.len() > 0 {
        lemma_offset_of(a, NL);
        let k = offset_of(a, NL);
        assert(k < a.len()) by {
            if k >= a.len() {
                assert(a[a.len() - 1] != NL);
            }
        }
        let rest = a.skip(k + 1);
        assert(ends_lines(rest)) by {
            if rest.len() > 0 {
                assert(rest.last() == a.last());
            }
        }
        lemma_unlines_lines(rest);
        assert(lines(a).drop_first() =~= lines(rest));
        assert(lines(a)[0] == a.take(k));
        assert(a.take(k) + seq![NL] + rest =~= a);
    }
}

/// Before a text that is not empty, a prefix without a newline adds no line:
/// it only lengthens the first.
pub proof fn lemma_lines_prepend(g: Seq<u8>, t: Seq<u8>)
    requires
        forall|j: int| 0 <= j < g.len() ==> g[j] != NL,
        t.len() > 0,
    ensures
        lines(g + t).len() == lines(t).len(),
        lines(g + t)[0] == g + lines(t)[0],
        lines(g + t).drop_first() == lines(t).drop_first(),
{
    lemma_offset_of(t, NL);
    let k = offset_of(t, NL);
    assert forall|j: int| 0 <= j < g.len() + k implies (g + t)[j] != NL by {
        if j >= g.len() {
            assert((g + t)[j] == t[j - g.len()]);
        }
    }
    lemma_offset_of_is(g + t, NL, g.len() + k);
    assert(first_line(g + t) =~= g + first_line(t));
    assert(after_first_line(g + t) =~= after_first_line(t));
    assert(lines(g + t).drop_first() =~= lines(after_first_line(t)));
    assert(lines(t).drop_first() =~= lines(after_first_line(t)));
}

/// No line holds a newline.
pub proof fn lemma_lines_hold_no_newline(s: Seq<u8>, i: int)
    requires
        0 <= i < lines(s).len(),
    ensures
        forall|j: int| 0 <= j < lines(s)[i].len() ==> lines(s)[i][j] != NL,
    decreases s.len(),
{
    lemma_offset_of(s, NL);
    if i == 0 {
    } else {
        assert(lines(s)[i] == lines(after_first_line(s))[i - 1]);
        lemma_lines_hold_no_newline(after_first_line(s), i - 1);
    }
}

/// Skipping lines leaves the lines that were not skipped.
pub proof fn lemma_lines_of_skip_lines(s: Seq<u8>, n: nat)
    requires
        n <= lines(s).len(),
    ensures
        lines(skip_lines(s, n)) == lines(s).skip(n as int),
    decreases n,
{
    if n == 0 {
        assert(lines(s).skip(0) =~= lines(s));
    } else {
        lemma_offset_of(s, NL);
        lemma_lines_of_skip_lines(after_first_line(s), (n - 1) as nat);
        assert(lines(s).skip(n as int) =~= lines(after_first_line(s)).skip(n - 1));
    }
}

/// Skipping lines leaves a suffix of the text that begins where a line does,
/// or nothing.
pub proof fn lemma_skip_lines_is_suffix(s: Seq<u8>, n: nat) -> (p: int)
    requires
        n <= lines(s).len(),
    ensures
        skip_lines(s, n) == s.skip(p),
        is_line_start(s, p) || (p == s.len() && n == lines(s).len()),
    decreases n,
{
    if n == 0 {
        assert(s.skip(0) =~= s);
        0
    } else {
        lemma_offset_of(s, NL);
        let k = offset_of(s, NL);
        let q = lemma_skip_lines_is_suffix(after_first_line(s), (n - 1) as nat);
        if k < s.len() {
            assert(after_first_line(s).skip(q) =~= s.skip(k + 1 + q));
            if q > 0 {
                assert(after_first_line(s)[q - 1] == s[k + q]);
            }
            k + 1 + q
        } else {
            assert(after_first_line(s).len() == 0);
            assert(lines(after_first_line(s)).len() == 0);
            assert(skip_lines(s, n) =~= s.skip(s.len() as int));
            s.len() as int
        }
    }
}

/// Behind a text that ends its last line, skipping that text's lines leaves
/// what follows it.
pub proof fn lemma_skip_lines_concat(a: Seq<u8>, b: Seq<u8>)
    requires
        ends_lines(a),
    ensures
        skip_lines(a + b, lines(a).len()) == b,
    decreases a.len(),
{
    if a.len() == 0 {
        assert(a + b =~= b);
    } else {
        lemma_offset_of(a, NL);
        let k = offset_of(a, NL);
        assert(k < a.len()) by {
            if k >= a.len() {
                assert(a[a.len() - 1] != NL);
            }
        }
        lemma_offset_of_is(a + b, NL, k);
        let rest = a.skip(k + 1);
        assert(after_first_line(a + b) =~= rest + b);
        assert(ends_lines(rest)) by {
            if rest.len() > 0 {
                assert(rest.last() == a.last());
            }
        }
        lemma_skip_lines_concat(rest, b);
        assert(lines(a).len() == 1 + lines(rest).len());
    }
}

/// Skipping every line leaves nothing.
pub proof fn lemma_skip_all_lines(s: Seq<u8>)
    ensures
        skip_lines(s, lines(s).len()) == Seq::<u8>::empty(),
    decreases s.len(),
{
    if s.len() == 0 {
        assert(s =~= Seq::<u8>::empty());
    } else {
        lemma_offset_of(s, NL);
        lemma_skip_all_lines(after_first_line(s));
    }
}

/// The index of the first `b` at or behind `start`, or the length of `s`.
pub fn offset_from(s: &[u8], start: usize, b: u8) -> (end: usize)
    requires
        start <= s@.len(),
    ensures
        start <= end <= s@.len(),
        end == start + offset_of(s@.skip(start as int), b),
{
    let n: usize = s.len();
    let mut i: usize = start;
    while i < n && s[i] != b
        invariant
            n == s@.len(),
            start <= i <= n,
            forall|j: int| start <= j < i ==> s@[j] != b,
        decreases n - i,
    {
        i = i + 1;
    }
    proof {
        let t = s@.skip(start as int);
        assert forall|j: int| 0 <= j < i - start implies t[j] != b by {
            assert(t[j] == s@[start + j]);
        }
        lemma_offset_of_is(t, b, i - start);
    }
    i
}

/// Where the line that begins at `start` ends: the index of its newline, or
/// the length of `s`.
pub fn line_end(s: &[u8], start: usize) -> (end: usize)
    requires
        start <= s@.len(),
    ensures
        start <= end <= s@.len(),
        end == start + offset_of(s@.skip(start as int), NL),
        s@.subrange(start as int, end as int) == first_line(s@.skip(start as int)),
{
    let end = offset_from(s, start, NL);
    proof {
        assert(s@.subrange(start as int, end as int) =~= first_line(s@.skip(start as int)));
    }
    end
}

/// Where the line behind the one that ends at `end` begins.
pub fn next_line_start(s: &[u8], start: usize, end: usize) -> (next: usize)
    requires
        start <= s@.len(),
        end == start + offset_of(s@.skip(start as int), NL),
    ensures
        end <= next <= s@.len(),
        start < s@.len() ==> start < next,
        s@.skip(next as int) == after_first_line(s@.skip(start as int)),
{
    proof {
        lemma_offset_of(s@.skip(start as int), NL);
    }
    if end < s.len() {
        proof {
            assert(s@.skip(end + 1) =~= after_first_line(s@.skip(start as int)));
        }
        end + 1
    } else {
        proof {
            assert(s@.skip(end as int) =~= after_first_line(s@.skip(start as int)));
        }
        end
    }
}

} // verus!
