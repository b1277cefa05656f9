//! The last lines of a text.

use crate::lines::{
    is_line_start, lemma_lines_concat, lemma_lines_of_skip_lines, lemma_lines_single,
    lemma_skip_all_lines, lemma_skip_lines_concat, lemma_skip_lines_is_suffix, lines, skip_lines, NL,
};
use vstd::prelude::*;

verus! {

/// The last `n` lines of `s`, as they stand in `s`; all of `s` where it has no
/// more than `n` lines.
pub open spec fn tail(s: Seq<u8>, n: nat) -> Seq<u8> {
    let k = lines(s).len();
    if n >= k {
        s
    } else {
        skip_lines(s, (k - n) as nat)
    }
}

/// A text of no more than `n` lines is its own tail. The tail of a longer one
/// is the suffix `s.skip(p)` that holds exactly its last `n` lines, and, for a
/// positive `n`, begins where a line of `s` begins.
pub proof fn lemma_tail_is_last_lines(s: Seq<u8>, n: nat) -> (p: int)
    ensures
        0 <= p <= s.len(),
        tail(s, n) == s.skip(p),
        n >= lines(s).len() ==> p == 0 && tail(s, n) == s,
        n < lines(s).len() ==> lines(tail(s, n)) == lines(s).skip(lines(s).len() - n),
        n < lines(s).len() ==> lines(tail(s, n)).len() == n,
        n > 0 ==> is_line_start(s, p),
{
    let k = lines(s).len();
    if n >= k {
        assert(s.skip(0) =~= s);
        0
    } else {
        let j = (k - n) as nat;
        lemma_lines_of_skip_lines(s, j);
        lemma_skip_lines_is_suffix(s, j)
    }
}

/// A tail of `n` lines has at most `n` lines.
pub proof fn lemma_tail_bounded(s: Seq<u8>, n: nat)
    ensures
        lines(tail(s, n)).len() <= n,
        tail(s, n).len() <= s.len(),
        tail(s, n).len() == s.len() ==> tail(s, n) == s && lines(s).len() <= n,
{
    let p = lemma_tail_is_last_lines(s, n);
    if p == 0 {
        assert(s.skip(0) =~= s);
    }
}

/// The suffix of `log` that holds its last `count` lines, found by walking
/// back from the end over one newline for each line.
pub fn tail_lines(log: &[u8], count: usize) -> (r: &[u8])
    ensures
        r@ == tail(log@, count as nat),
{
    let n: usize = log.len();
    let mut pos: usize = n;
    let mut taken: usize = 0;
    while taken < count && pos > 0
        invariant
            n == log@.len(),
            pos <= n,
            taken <= count,
            is_line_start(log@, pos as int) || (pos == n && taken == 0),
            lines(log@.skip(pos as int)).len() == taken,
        decreases count - taken,
    {
        let mut q: usize = pos - 1;
        while q > 0 && log[q - 1] != NL
            invariant
                n == log@.len(),
                q <= pos - 1,
                pos <= n,
                forall|j: int| q <= j < pos - 1 ==> log@[j] != NL,
            decreases q,
        {
            q = q - 1;
        }
        proof {
            let seg = log@.subrange(q as int, pos as int);
            let rest = log@.skip(pos as int);
            assert forall|j: int| 0 <= j < seg.len() - 1 implies seg[j] != NL by {
                assert(seg[j] == log@[q + j]);
            }
            lemma_lines_single(seg);
            assert(log@.skip(q as int) =~= seg + rest);
            if pos == n {
                assert(rest.len() == 0);
                assert(seg + rest =~= seg);
                assert(lines(rest).len() == 0);
            } else {
                assert(seg.last() == log@[pos - 1]);
                lemma_lines_concat(seg, rest);
            }
        }
        pos = q;
        taken = taken + 1;
    }
    proof {
        let a = log@.take(pos as int);
        let b = log@.skip(pos as int);
        assert(a + b =~= log@);
        if pos == 0 {
            assert(b =~= log@);
        } else if is_line_start(log@, pos as int) {
            assert(a.last() == log@[pos - 1]);
            lemma_lines_concat(a, b);
            lemma_skip_lines_concat(a, b);
            assert(lines(a).len() > 0);
        } else {
            lemma_skip_all_lines(log@);
            assert(b =~= Seq::<u8>::empty());
            assert(lines(log@).len() > 0);
        }
    }
    vstd::slice::slice_subrange(log, pos, n)
}

} // verus!
