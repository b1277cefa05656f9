//! Choosing the part of a normalised log that shows the failure.

use crate::encoding::{
    lemma_ascii_byte_is_utf8, lemma_first_line_is_utf8, lemma_utf8_cut_before_ascii,
    lemma_utf8_cut_behind_ascii,
};
use crate::lines::{
    after_first_line, first_line, lemma_lines_concat, lemma_lines_prepend, lemma_lines_single,
    lemma_offset_of, lemma_skip_all_lines, line_end, lines, next_line_start, NL,
};
use crate::markers::{
    bytes, lemma_failed_marker, lemma_failures_marker, lemma_shutdown_marker, EXCERPT_LINES,
    FAILED, FAILURES, GROUP, LLVM_GROUP, LLVM_LINES, SHUTDOWN,
};
use crate::tail::{lemma_tail_bounded, lemma_tail_is_last_lines, tail, tail_lines};
use crate::text::{
    find, first_occurrence, has_prefix, lemma_first_occurrence_found, occurs_at, occurs_in,
    starts_with,
};
use vstd::prelude::*;
use vstd::slice::{slice_subrange, slice_to_vec};
use vstd::utf8::{valid_utf8, valid_utf8_concat};

verus! {

/// The group line of a text: its first line, where the text begins with the
/// marker of a group.
pub open spec fn group_of(s: Seq<u8>) -> Option<Seq<u8>> {
    if has_prefix(s, bytes(GROUP)) {
        Some(first_line(s))
    } else {
        None
    }
}

/// Whether the text is the output of an LLVM build: whether it has a group
/// line and that line begins as an LLVM build's does.
pub open spec fn is_llvm_build(s: Seq<u8>) -> bool {
    match group_of(s) {
        Some(g) => has_prefix(g, bytes(LLVM_GROUP)),
        None => false,
    }
}

/// The excerpt of an LLVM build: the group line, then the text from the first
/// failed step on, or, where no step is named, a newline and the last 50 lines
/// of what follows the group line.
pub open spec fn llvm_excerpt(s: Seq<u8>) -> Seq<u8> {
    match first_occurrence(s, bytes(FAILED)) {
        Some(i) => first_line(s) + s.skip(i),
        None => first_line(s) + seq![NL] + tail(after_first_line(s), LLVM_LINES as nat),
    }
}

/// The excerpt of a text that no marker bounds: its last 500 lines, behind the
/// group line where lines were dropped and the text has a group line.
pub open spec fn tail_excerpt(s: Seq<u8>) -> Seq<u8> {
    let t = tail(s, EXCERPT_LINES as nat);
    if t.len() != s.len() {
        match group_of(s) {
            Some(g) => g + t,
            None => t,
        }
    } else {
        s
    }
}

/// The excerpt of a normalised log. The first rule that applies decides: the
/// text from a summary of failures on; the text from a shutdown signal on; the
/// excerpt of an LLVM build; the bounded tail.
pub open spec fn excerpt(s: Seq<u8>) -> Seq<u8> {
    match first_occurrence(s, bytes(FAILURES)) {
        Some(i) => s.skip(i),
        None => match first_occurrence(s, bytes(SHUTDOWN)) {
            Some(i) => s.skip(i),
            None => if is_llvm_build(s) {
                llvm_excerpt(s)
            } else {
                tail_excerpt(s)
            },
        },
    }
}

/// A summary of failures decides the excerpt whatever else the log holds: the
/// excerpt is the log from the first such summary on.
pub proof fn lemma_failures_decide(s: Seq<u8>) -> (i: int)
    requires
        occurs_in(s, bytes(FAILURES)),
    ensures
        first_occurrence(s, bytes(FAILURES)) == Some(i),
        occurs_at(s, bytes(FAILURES), i),
        excerpt(s) == s.skip(i),
{
    lemma_first_occurrence_found(s, bytes(FAILURES));
    first_occurrence(s, bytes(FAILURES)).unwrap()
}

/// Without a summary of failures, a shutdown signal decides the excerpt: the
/// excerpt is the log from the first such signal on.
pub proof fn lemma_shutdown_decides(s: Seq<u8>) -> (i: int)
    requires
        !occurs_in(s, bytes(FAILURES)),
        occurs_in(s, bytes(SHUTDOWN)),
    ensures
        first_occurrence(s, bytes(SHUTDOWN)) == Some(i),
        occurs_at(s, bytes(SHUTDOWN), i),
        excerpt(s) == s.skip(i),
{
    lemma_first_occurrence_found(s, bytes(SHUTDOWN));
    first_occurrence(s, bytes(SHUTDOWN)).unwrap()
}

/// Where no marker bounds the excerpt, it has at most 500 lines.
pub proof fn lemma_tail_excerpt_bounded(s: Seq<u8>)
    ensures
        lines(tail_excerpt(s)).len() <= EXCERPT_LINES,
{
    let n = EXCERPT_LINES as nat;
    let t = tail(s, n);
    lemma_tail_bounded(s, n);
    if t.len() != s.len() {
        if group_of(s) is Some {
            let g = first_line(s);
            lemma_offset_of(s, NL);
            if t.len() > 0 {
                lemma_lines_prepend(g, t);
            } else {
                assert(g + t =~= g);
                if g.len() > 0 {
                    lemma_lines_single(g);
                }
            }
        }
    }
}

/// The excerpt of an LLVM build that names no failed step has at most 51
/// lines: the group line and 50 more.
pub proof fn lemma_llvm_excerpt_bounded(s: Seq<u8>)
    requires
        !occurs_in(s, bytes(FAILED)),
    ensures
        lines(llvm_excerpt(s)).len() <= LLVM_LINES + 1,
{
    let g = first_line(s) + seq![NL];
    let t = tail(after_first_line(s), LLVM_LINES as nat);
    lemma_offset_of(s, NL);
    lemma_tail_bounded(after_first_line(s), LLVM_LINES as nat);
    lemma_lines_single(g);
    lemma_lines_concat(g, t);
    assert(g + t =~= first_line(s) + seq![NL] + t);
}

/// The excerpt of a valid UTF-8 text is valid UTF-8.
pub proof fn lemma_excerpt_is_utf8(s: Seq<u8>)
    requires
        valid_utf8(s),
    ensures
        valid_utf8(excerpt(s)),
{
    lemma_first_occurrence_found(s, bytes(FAILURES));
    lemma_first_occurrence_found(s, bytes(SHUTDOWN));
    lemma_first_occurrence_found(s, bytes(FAILED));
    lemma_failures_marker();
    lemma_shutdown_marker();
    lemma_failed_marker();
    lemma_first_line_is_utf8(s);
    if let Some(i) = first_occurrence(s, bytes(FAILURES)) {
        assert(s.subrange(i, i + 11)[0] == s[i]);
        lemma_utf8_cut_before_ascii(s, i);
    } else if let Some(i) = first_occurrence(s, bytes(SHUTDOWN)) {
        assert(s.subrange(i, i + 52)[0] == s[i]);
        lemma_utf8_cut_before_ascii(s, i);
    } else if is_llvm_build(s) {
        if let Some(i) = first_occurrence(s, bytes(FAILED)) {
            assert(s.subrange(i, i + 9)[0] == s[i]);
            lemma_utf8_cut_before_ascii(s, i);
            valid_utf8_concat(first_line(s), s.skip(i));
        } else {
            let nl = seq![NL];
            lemma_ascii_byte_is_utf8(NL);
            lemma_tail_is_utf8(after_first_line(s), LLVM_LINES as nat);
            valid_utf8_concat(first_line(s), nl);
            valid_utf8_concat(first_line(s) + nl, tail(after_first_line(s), LLVM_LINES as nat));
        }
    } else {
        lemma_tail_is_utf8(s, EXCERPT_LINES as nat);
        valid_utf8_concat(first_line(s), tail(s, EXCERPT_LINES as nat));
    }
}

/// The tail of a valid UTF-8 text is valid UTF-8.
pub proof fn lemma_tail_is_utf8(s: Seq<u8>, n: nat)
    requires
        valid_utf8(s),
    ensures
        valid_utf8(tail(s, n)),
{
    let p = lemma_tail_is_last_lines(s, n);
    if n == 0 {
        lemma_skip_all_lines(s);
    } else if p > 0 {
        lemma_utf8_cut_behind_ascii(s, p - 1);
    } else {
        assert(s.skip(0) =~= s);
    }
}

/// The group line of `log`, if it has one.
pub fn group_line(log: &[u8]) -> (r: Option<&[u8]>)
    ensures
        match r {
            Some(g) => group_of(log@) == Some(g@),
            None => group_of(log@) is None,
        },
{
    if starts_with(log, GROUP.as_bytes()) {
        let end = line_end(log, 0);
        proof {
            assert(log@.skip(0) =~= log@);
        }
        Some(slice_subrange(log, 0, end))
    } else {
        None
    }
}

/// The suffix of `log` that begins at `pos`.
fn suffix(log: &[u8], pos: usize) -> (r: &[u8])
    requires
        pos <= log@.len(),
    ensures
        r@ == log@.skip(pos as int),
{
    let r = slice_subrange(log, pos, log.len());
    proof {
        assert(r@ =~= log@.skip(pos as int));
    }
    r
}

/// Chooses the excerpt of a normalised log.
pub fn short_log(log: &[u8]) -> (r: Vec<u8>)
    ensures
        r@ == excerpt(log@),
{
    let group = group_line(log);
    proof {
        lemma_first_occurrence_found(log@, bytes(FAILURES));
        lemma_first_occurrence_found(log@, bytes(SHUTDOWN));
        lemma_first_occurrence_found(log@, bytes(FAILED));
    }
    if let Some(pos) = find(log, FAILURES.as_bytes()) {
        return slice_to_vec(suffix(log, pos));
    }
    if let Some(pos) = find(log, SHUTDOWN.as_bytes()) {
        return slice_to_vec(suffix(log, pos));
    }
    let llvm = match group {
        Some(g) => starts_with(g, LLVM_GROUP.as_bytes()),
        None => false,
    };
    if llvm {
        let g = group.unwrap();
        let mut short = slice_to_vec(g);
        if let Some(pos) = find(log, FAILED.as_bytes()) {
            append(&mut short, suffix(log, pos));
            short
        } else {
            short.push(NL);
            proof {
                assert(log@.skip(0) =~= log@);
                lemma_offset_of(log@, NL);
            }
            let next = next_line_start(log, 0, g.len());
            append(&mut short, tail_lines(suffix(log, next), LLVM_LINES));
            short
        }
    } else {
        let short = tail_lines(log, EXCERPT_LINES);
        if short.len() != log.len() {
            match group {
                Some(g) => {
                    let mut out = slice_to_vec(g);
                    append(&mut out, short);
                    out
                },
                None => slice_to_vec(short),
            }
        } else {
            slice_to_vec(log)
        }
    }
}

/// Appends the bytes of `s` to `out`.
pub fn append(out: &mut Vec<u8>, s: &[u8])
    ensures
        final(out)@ == old(out)@ + s@,
{
    let ghost before = out@;
    out.extend_from_slice(s);
    proof {
        assert(out@ =~= before + s@);
    }
}

} // verus!
