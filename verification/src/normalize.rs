//! Cleaning a raw job log: timestamps, control sequences, the clean-up
//! section, and every group of output but the last.

use crate::encoding::{
    is_utf8, lemma_ascii_byte_is_utf8, lemma_first_line_is_utf8, lemma_utf8_cut_behind_ascii,
    EncodingError,
};
use crate::lines::{
    after_first_line, first_line, lemma_offset_of, line_end, lines, next_line_start, offset_from,
    offset_of, unlines, NL,
};
use crate::markers::{bytes, lemma_cleanup_marker, lemma_group_line_marker, CLEANUP, GROUP_LINE};
use crate::strip_ansi::{lemma_strip_keeps_utf8, lemma_strip_len, strip, stripped, AnsiMode};
use crate::text::{last_occurrence, lemma_last_occurrence_found, occurs_at, occurs_in, rfind};
use vstd::prelude::*;
use vstd::slice::slice_subrange;
use vstd::utf8::{valid_utf8, valid_utf8_concat};

verus! {

/// The space byte, which ends the first token of a line.
pub const SPACE: u8 = 0x20;

/// Whether `token` is a timestamp: a date and a time with an offset from UTC,
/// as jiff's parser of Temporal datetime strings reads them.
pub uninterp spec fn is_timestamp(token: Seq<u8>) -> bool;

/// Calls jiff's `DateTimeParser::parse_timestamp`, the function behind
/// `str::parse::<Timestamp>`, on `token`. The contract only names the answer:
/// whether that parser accepts the token. Parsing reads nothing but the token.
#[verifier::external_body]
fn parses_as_timestamp(token: &[u8]) -> (r: bool)
    ensures
        r == is_timestamp(token@),
{
    jiff::fmt::temporal::DateTimeParser::new().parse_timestamp(token).is_ok()
}

/// A line once it is known whether its first token is a timestamp: where the
/// line holds a space and the token before the first one is a timestamp, what
/// follows that space; else the line.
pub open spec fn line_body(line: Seq<u8>, head_is_timestamp: bool) -> Seq<u8> {
    let k = offset_of(line, SPACE);
    if k < line.len() && head_is_timestamp {
        line.skip(k + 1)
    } else {
        line
    }
}

/// The first token of a line: what stands before its first space.
pub open spec fn line_head(line: Seq<u8>) -> Seq<u8> {
    line.take(offset_of(line, SPACE))
}

/// A line without its leading timestamp, if it has one.
pub open spec fn without_timestamp(line: Seq<u8>) -> Seq<u8> {
    line_body(line, is_timestamp(line_head(line)))
}

/// The text with the leading timestamp of each line removed, and each line
/// ended by a newline.
pub open spec fn retimed(s: Seq<u8>) -> Seq<u8> {
    unlines(lines(s).map_values(|l: Seq<u8>| without_timestamp(l)))
}

/// The text up to the newline that opens its last clean-up marker.
pub open spec fn before_cleanup(s: Seq<u8>) -> Seq<u8> {
    match last_occurrence(s, bytes(CLEANUP)) {
        Some(i) => s.take(i + 1),
        None => s,
    }
}

/// The text from its last group line on.
pub open spec fn final_group(s: Seq<u8>) -> Seq<u8> {
    match last_occurrence(s, bytes(GROUP_LINE)) {
        Some(i) => s.skip(i + 1),
        None => s,
    }
}

/// The text as it stands after timestamps and control sequences are removed.
pub open spec fn cleaned(s: Seq<u8>) -> Seq<u8> {
    stripped(retimed(s))
}

/// Whether the log can be normalised: whether it is valid UTF-8 once
/// timestamps and control sequences are removed.
pub open spec fn encodable(s: Seq<u8>) -> bool {
    valid_utf8(cleaned(s))
}

/// The normalised log.
pub open spec fn normalized(s: Seq<u8>) -> Seq<u8> {
    final_group(before_cleanup(cleaned(s)))
}

/// `retimed` works line by line, from the front.
pub proof fn lemma_retimed_unfold(s: Seq<u8>)
    requires
        s.len() > 0,
    ensures
        retimed(s) == without_timestamp(first_line(s)) + seq![NL] + retimed(after_first_line(s)),
{
    let f = |l: Seq<u8>| without_timestamp(l);
    let rest = lines(after_first_line(s));
    assert(lines(s) == seq![first_line(s)] + rest);
    assert(lines(s).map_values(f).drop_first() =~= rest.map_values(f));
}

/// Removing a timestamp makes no line longer.
pub proof fn lemma_without_timestamp_len(line: Seq<u8>)
    ensures
        without_timestamp(line).len() <= line.len(),
{
    lemma_offset_of(line, SPACE);
}

/// Removing timestamps adds at most one byte: the newline that ends the last
/// line.
pub proof fn lemma_retimed_len(s: Seq<u8>)
    ensures
        retimed(s).len() <= s.len() + 1,
    decreases s.len(),
{
    if s.len() == 0 {
        assert(lines(s).map_values(|l: Seq<u8>| without_timestamp(l)) =~= Seq::<Seq<u8>>::empty());
    } else {
        lemma_retimed_unfold(s);
        lemma_offset_of(s, NL);
        lemma_without_timestamp_len(first_line(s));
        lemma_retimed_len(after_first_line(s));
        if after_first_line(s).len() == 0 {
            assert(lines(after_first_line(s)).map_values(|l: Seq<u8>| without_timestamp(l))
                =~= Seq::<Seq<u8>>::empty());
        }
    }
}

/// Removing timestamps cuts no character in two: what is left of a valid
/// UTF-8 text is valid UTF-8.
pub proof fn lemma_retimed_keeps_utf8(s: Seq<u8>)
    requires
        valid_utf8(s),
    ensures
        valid_utf8(retimed(s)),
    decreases s.len(),
{
    if s.len() == 0 {
        assert(lines(s).map_values(|l: Seq<u8>| without_timestamp(l)) =~= Seq::<Seq<u8>>::empty());
    } else {
        lemma_retimed_unfold(s);
        lemma_offset_of(s, NL);
        lemma_first_line_is_utf8(s);
        let line = first_line(s);
        lemma_offset_of(line, SPACE);
        let k = offset_of(line, SPACE);
        if k < line.len() {
            lemma_utf8_cut_behind_ascii(line, k);
        }
        lemma_ascii_byte_is_utf8(NL);
        lemma_retimed_keeps_utf8(after_first_line(s));
        valid_utf8_concat(without_timestamp(line), seq![NL]);
        valid_utf8_concat(without_timestamp(line) + seq![NL], retimed(after_first_line(s)));
    }
}

/// A log that is valid UTF-8 can be normalised.
pub proof fn lemma_text_is_encodable(s: Seq<u8>)
    requires
        valid_utf8(s),
    ensures
        encodable(s),
{
    lemma_retimed_keeps_utf8(s);
    lemma_strip_keeps_utf8(AnsiMode::Text, retimed(s));
}

/// What is kept from the last group line on holds no line that opens a group
/// behind its first.
pub proof fn lemma_final_group_holds_no_group_line(s: Seq<u8>)
    ensures
        !occurs_in(final_group(s), bytes(GROUP_LINE)),
{
    let pat = bytes(GROUP_LINE);
    lemma_last_occurrence_found(s, pat);
    lemma_group_line_marker();
    match last_occurrence(s, pat) {
        Some(i) => {
            let kept = s.skip(i + 1);
            assert forall|j: int| !occurs_at(kept, pat, j) by {
                if occurs_at(kept, pat, j) {
                    assert(s.subrange(i + 1 + j, i + 1 + j + pat.len()) =~= kept.subrange(
                        j,
                        j + pat.len(),
                    ));
                    assert(occurs_at(s, pat, i + 1 + j));
                }
            }
        },
        None => {},
    }
}

/// Keeping the last group is stable: done twice, it keeps what it kept once.
pub proof fn lemma_final_group_stable(s: Seq<u8>)
    ensures
        final_group(final_group(s)) == final_group(s),
{
    lemma_final_group_holds_no_group_line(s);
}

/// Normalising is idempotent on every log whose normalised form the first
/// three steps leave as it is: no line of it begins with a timestamp, it holds
/// no control sequence and no clean-up marker. The fourth step never undoes
/// itself. On such a log the first two steps alone change nothing either, so
/// that the normalised form of a log that can be normalised can be normalised
/// again.
pub proof fn lemma_normalize_idempotent(s: Seq<u8>)
    requires
        before_cleanup(cleaned(normalized(s))) == normalized(s),
    ensures
        normalized(normalized(s)) == normalized(s),
        cleaned(normalized(s)) == normalized(s),
        encodable(s) ==> encodable(normalized(s)),
{
    let y = normalized(s);
    let w = cleaned(y);
    lemma_final_group_stable(before_cleanup(cleaned(s)));
    lemma_retimed_len(y);
    lemma_strip_len(AnsiMode::Text, retimed(y));
    lemma_last_occurrence_found(w, bytes(CLEANUP));
    lemma_cleanup_marker();
    assert(w == y) by {
        match last_occurrence(w, bytes(CLEANUP)) {
            Some(i) => {
                assert(occurs_at(w, bytes(CLEANUP), i));
                assert(w.take(i + 1).len() == i + 1);
            },
            None => {},
        }
    }
    if encodable(s) {
        lemma_normalized_is_utf8(s);
    }
}

/// The normalised form of a log that can be normalised is valid UTF-8.
pub proof fn lemma_normalized_is_utf8(s: Seq<u8>)
    requires
        encodable(s),
    ensures
        valid_utf8(normalized(s)),
{
    let z = cleaned(s);
    lemma_last_occurrence_found(z, bytes(CLEANUP));
    lemma_cleanup_marker();
    match last_occurrence(z, bytes(CLEANUP)) {
        Some(i) => {
            assert(z.subrange(i, i + 19)[0] == z[i]);
            lemma_utf8_cut_behind_ascii(z, i);
        },
        None => {},
    }
    let a = before_cleanup(z);
    lemma_last_occurrence_found(a, bytes(GROUP_LINE));
    lemma_group_line_marker();
    match last_occurrence(a, bytes(GROUP_LINE)) {
        Some(i) => {
            assert(a.subrange(i, i + 9)[0] == a[i]);
            lemma_utf8_cut_behind_ascii(a, i);
        },
        None => {},
    }
}

/// Given a line and whether its first token is a timestamp, returns the line
/// without that token and the space behind it, or the line as it is.
pub fn drop_head(line: &[u8], head_is_timestamp: bool) -> (r: &[u8])
    ensures
        r@ == line_body(line@, head_is_timestamp),
{
    let k = offset_from(line, 0, SPACE);
    proof {
        assert(line@.skip(0) =~= line@);
    }
    if k < line.len() && head_is_timestamp {
        proof {
            assert(line@.subrange(k + 1, line@.len() as int) =~= line@.skip(k + 1));
        }
        slice_subrange(line, k + 1, line.len())
    } else {
        line
    }
}

/// Removes the leading timestamp of a line, if it has one.
pub fn strip_timestamp(line: &[u8]) -> (r: &[u8])
    ensures
        r@ == without_timestamp(line@),
{
    let k = offset_from(line, 0, SPACE);
    proof {
        assert(line@.skip(0) =~= line@);
    }
    if k < line.len() {
        let head = slice_subrange(line, 0, k);
        proof {
            assert(head@ =~= line_head(line@));
        }
        let found = parses_as_timestamp(head);
        drop_head(line, found)
    } else {
        line
    }
}

/// Removes the leading timestamp of each line, and ends each line with a
/// newline.
pub fn strip_timestamps(log: &[u8]) -> (r: Vec<u8>)
    ensures
        r@ == retimed(log@),
{
    let n: usize = log.len();
    let mut out: Vec<u8> = Vec::new();
    let mut start: usize = 0;
    proof {
        assert(log@.skip(0) =~= log@);
        assert(out@ + retimed(log@) =~= retimed(log@));
    }
    while start < n
        invariant
            n == log@.len(),
            start <= n,
            out@ + retimed(log@.skip(start as int)) == retimed(log@),
        decreases n - start,
    {
        let end = line_end(log, start);
        let line = slice_subrange(log, start, end);
        let body = strip_timestamp(line);
        let next = next_line_start(log, start, end);
        let ghost before = out@;
        out.extend_from_slice(body);
        out.push(NL);
        proof {
            let rest = log@.skip(start as int);
            lemma_retimed_unfold(rest);
            assert(out@ =~= before + body@ + seq![NL]);
            assert(out@ + retimed(log@.skip(next as int)) =~= before + (body@ + seq![NL] + retimed(
                log@.skip(next as int),
            )));
        }
        start = next;
    }
    proof {
        assert(log@.skip(n as int) =~= Seq::<u8>::empty());
        assert(lines(Seq::<u8>::empty()).map_values(|l: Seq<u8>| without_timestamp(l)) =~= Seq::<
            Seq<u8>,
        >::empty());
        assert(out@ + Seq::<u8>::empty() =~= out@);
    }
    out
}

/// Cuts the text behind the newline that opens its last clean-up marker.
pub fn drop_cleanup(s: &[u8]) -> (r: &[u8])
    ensures
        r@ == before_cleanup(s@),
{
    let n: usize = s.len();
    match rfind(s, CLEANUP.as_bytes()) {
        Some(i) => {
            proof {
                lemma_cleanup_marker();
                lemma_last_occurrence_found(s@, bytes(CLEANUP));
                assert(last_occurrence(s@, bytes(CLEANUP)) == Some(i as int));
                assert(occurs_at(s@, bytes(CLEANUP), i as int));
                assert(s@.subrange(0, i + 1) =~= s@.take(i + 1));
            }
            slice_subrange(s, 0, i + 1)
        },
        None => s,
    }
}

/// Keeps the text from its last group line on.
pub fn keep_last_group(s: &[u8]) -> (r: &[u8])
    ensures
        r@ == final_group(s@),
{
    let n: usize = s.len();
    match rfind(s, GROUP_LINE.as_bytes()) {
        Some(i) => {
            proof {
                lemma_group_line_marker();
                lemma_last_occurrence_found(s@, bytes(GROUP_LINE));
                assert(last_occurrence(s@, bytes(GROUP_LINE)) == Some(i as int));
                assert(occurs_at(s@, bytes(GROUP_LINE), i as int));
                assert(s@.subrange(i + 1, s@.len() as int) =~= s@.skip(i + 1));
            }
            slice_subrange(s, i + 1, n)
        },
        None => s,
    }
}

/// Normalises a raw log: removes the leading timestamp of each line, then the
/// control sequences, then the clean-up section, then everything before the
/// last group of output. Fails where the log is not valid UTF-8 once the
/// control sequences are gone.
pub fn trim_log(log: &[u8]) -> (r: Result<Vec<u8>, EncodingError>)
    ensures
        match r {
            Ok(v) => encodable(log@) && v@ == normalized(log@) && valid_utf8(v@),
            Err(_) => !encodable(log@),
        },
        valid_utf8(log@) ==> r is Ok,
{
    proof {
        if valid_utf8(log@) {
            lemma_text_is_encodable(log@);
        }
    }
    let timed = strip_timestamps(log);
    let plain = strip(timed.as_slice());
    if !is_utf8(plain.as_slice()) {
        return Err(EncodingError);
    }
    let kept = keep_last_group(drop_cleanup(plain.as_slice()));
    proof {
        lemma_normalized_is_utf8(log@);
    }
    Ok(vstd::slice::slice_to_vec(kept))
}

} // verus!
