//! Picking the one line of an excerpt that best names the error.

use crate::lines::{first_line, line_end, lines, next_line_start};
use crate::markers::{
    bytes, ASSERTION_FAILED, COLON, DYLD, ERROR, ERROR_CODE, ERROR_IN_REVISION, ERROR_UPPER,
    EXIT_CODE_1, EXPLICIT_PANIC, FATAL, PANICKED_AT, RERUN, RUNNER_ERROR, RUSTC_SIGNAL, THREAD,
    TYPE_ERROR,
};
use crate::text::{contains, ends_with, has_prefix, has_suffix, occurs_in, starts_with};
use vstd::prelude::*;
use vstd::slice::slice_subrange;

verus! {

/// How many bytes at the front of `s` encode one white-space character in
/// UTF-8; 0 where `s` begins with none. The white-space characters are those
/// of Unicode: U+0009 to U+000D, U+0020, U+0085, U+00A0, U+1680, U+2000 to
/// U+200A, U+2028, U+2029, U+202F, U+205F and U+3000.
pub open spec fn space_width(s: Seq<u8>) -> nat {
    if s.len() >= 1 && (0x09 <= s[0] <= 0x0D || s[0] == 0x20) {
        1
    } else if s.len() >= 2 && s[0] == 0xC2 && (s[1] == 0x85 || s[1] == 0xA0) {
        2
    } else if s.len() >= 3 && s[0] == 0xE1 && s[1] == 0x9A && s[2] == 0x80 {
        3
    } else if s.len() >= 3 && s[0] == 0xE2 && s[1] == 0x80 && (0x80 <= s[2] <= 0x8A || s[2] == 0xA8
        || s[2] == 0xA9 || s[2] == 0xAF) {
        3
    } else if s.len() >= 3 && s[0] == 0xE2 && s[1] == 0x81 && s[2] == 0x9F {
        3
    } else if s.len() >= 3 && s[0] == 0xE3 && s[1] == 0x80 && s[2] == 0x80 {
        3
    } else {
        0
    }
}

/// `s` is empty or holds white space only.
pub open spec fn blank(s: Seq<u8>) -> bool
    decreases s.len(),
{
    s.len() == 0 || (space_width(s) > 0 && blank(s.skip(space_width(s) as int)))
}

/// The line is a strong signal: it begins as an error does, and is neither the
/// line that only says that a step failed nor a hint to run a test again.
pub open spec fn is_strong(line: Seq<u8>) -> bool {
    &&& line != bytes(EXIT_CODE_1)
    &&& (has_prefix(line, bytes(ERROR)) || has_prefix(line, bytes(ERROR_CODE)) || has_prefix(
        line,
        bytes(RUSTC_SIGNAL),
    ) || has_prefix(line, bytes(RUNNER_ERROR)) || has_prefix(line, bytes(TYPE_ERROR))
        || has_prefix(line, bytes(DYLD)))
    &&& !has_prefix(line, bytes(RERUN))
}

/// The line is a weak signal that stands for itself.
pub open spec fn is_weak(line: Seq<u8>) -> bool {
    ||| has_prefix(line, bytes(ERROR_UPPER))
    ||| has_prefix(line, bytes(ERROR_IN_REVISION))
    ||| has_prefix(line, bytes(FATAL))
}

/// The line is the header of a panic message, whose next line holds the
/// message.
pub open spec fn is_panic_header(line: Seq<u8>) -> bool {
    &&& has_prefix(line, bytes(THREAD))
    &&& occurs_in(line, bytes(PANICKED_AT))
    &&& has_suffix(line, bytes(COLON))
}

/// The line, standing behind the header of a panic message, adds nothing to it.
pub open spec fn says_nothing(line: Seq<u8>) -> bool {
    ||| blank(line)
    ||| line == bytes(EXPLICIT_PANIC)
    ||| line == bytes(ASSERTION_FAILED)
}

/// The first strong signal among the lines.
pub open spec fn strong_signal(ls: Seq<Seq<u8>>) -> Option<Seq<u8>>
    decreases ls.len(),
{
    if ls.len() == 0 {
        None
    } else if is_strong(ls[0]) {
        Some(ls[0])
    } else {
        strong_signal(ls.drop_first())
    }
}

/// What the first weak signal or panic header among the lines gives: the weak
/// signal itself; for a panic header the line behind it, or the header where
/// that line says nothing; nothing for a panic header that is the last line.
pub open spec fn weak_signal(ls: Seq<Seq<u8>>) -> Option<Seq<u8>>
    decreases ls.len(),
{
    if ls.len() == 0 {
        None
    } else if is_weak(ls[0]) {
        Some(ls[0])
    } else if is_panic_header(ls[0]) {
        if ls.len() == 1 {
            None
        } else if says_nothing(ls[1]) {
            Some(ls[0])
        } else {
            Some(ls[1])
        }
    } else {
        weak_signal(ls.drop_first())
    }
}

/// The error line of a text: its first strong signal, or, where it has none,
/// what its weak signals give.
pub open spec fn error_line_of(s: Seq<u8>) -> Option<Seq<u8>> {
    match strong_signal(lines(s)) {
        Some(line) => Some(line),
        None => weak_signal(lines(s)),
    }
}

/// Where some line is a strong signal, `strong_signal` returns the first one.
pub proof fn lemma_strong_signal_found(ls: Seq<Seq<u8>>, i: int) -> (j: int)
    requires
        0 <= i < ls.len(),
        is_strong(ls[i]),
    ensures
        0 <= j <= i,
        strong_signal(ls) == Some(ls[j]),
        is_strong(ls[j]),
        forall|k: int| 0 <= k < j ==> !is_strong(ls[k]),
    decreases ls.len(),
{
    if is_strong(ls[0]) {
        0
    } else {
        let rest = ls.drop_first();
        assert(rest[i - 1] == ls[i]);
        let j = lemma_strong_signal_found(rest, i - 1);
        assert(rest[j] == ls[j + 1]);
        assert forall|k: int| 0 <= k < j + 1 implies !is_strong(ls[k]) by {
            if k > 0 {
                assert(rest[k - 1] == ls[k]);
            }
        }
        j + 1
    }
}

/// A strong signal wins over every weak one: where some line of the text is a
/// strong signal, the error line is the first such line, whatever panic
/// headers and weak signals the text holds besides.
pub proof fn lemma_strong_signal_wins(s: Seq<u8>, i: int) -> (j: int)
    requires
        0 <= i < lines(s).len(),
        is_strong(lines(s)[i]),
    ensures
        0 <= j <= i,
        error_line_of(s) == Some(lines(s)[j]),
        is_strong(lines(s)[j]),
        forall|k: int| 0 <= k < j ==> !is_strong(lines(s)[k]),
{
    lemma_strong_signal_found(lines(s), i)
}

/// Where no line is a strong signal, `strong_signal` returns nothing.
pub proof fn lemma_no_strong_signal(ls: Seq<Seq<u8>>)
    requires
        forall|k: int| 0 <= k < ls.len() ==> !is_strong(ls[k]),
    ensures
        strong_signal(ls) is None,
    decreases ls.len(),
{
    if ls.len() > 0 {
        let rest = ls.drop_first();
        assert forall|k: int| 0 <= k < rest.len() implies !is_strong(rest[k]) by {
            assert(rest[k] == ls[k + 1]);
        }
        lemma_no_strong_signal(rest);
    }
}

/// Where no line is a strong signal, a weak signal or a panic header, the
/// text has no error line.
pub proof fn lemma_no_signal(s: Seq<u8>)
    requires
        forall|k: int|
            0 <= k < lines(s).len() ==> !is_strong(#[trigger] lines(s)[k]) && !is_weak(lines(s)[k])
                && !is_panic_header(lines(s)[k]),
    ensures
        error_line_of(s) is None,
{
    lemma_no_strong_signal(lines(s));
    lemma_no_weak_signal(lines(s));
}

/// Where no line is a weak signal or a panic header, `weak_signal` returns
/// nothing.
pub proof fn lemma_no_weak_signal(ls: Seq<Seq<u8>>)
    requires
        forall|k: int| 0 <= k < ls.len() ==> !is_weak(#[trigger] ls[k]) && !is_panic_header(ls[k]),
    ensures
        weak_signal(ls) is None,
    decreases ls.len(),
{
    if ls.len() > 0 {
        let rest = ls.drop_first();
        assert forall|k: int| 0 <= k < rest.len() implies !is_weak(#[trigger] rest[k])
            && !is_panic_header(rest[k]) by {
            assert(rest[k] == ls[k + 1]);
        }
        assert(!is_weak(ls[0]) && !is_panic_header(ls[0]));
        lemma_no_weak_signal(rest);
    }
}

/// The error line of a valid UTF-8 text is valid UTF-8.
pub proof fn lemma_error_line_is_utf8(s: Seq<u8>)
    requires
        vstd::utf8::valid_utf8(s),
        error_line_of(s) is Some,
    ensures
        vstd::utf8::valid_utf8(error_line_of(s).unwrap()),
{
    let j = lemma_error_line_is_a_line(s);
    crate::encoding::lemma_line_is_utf8(s, j);
}

/// The error line is one of the lines of the text.
pub proof fn lemma_error_line_is_a_line(s: Seq<u8>) -> (j: int)
    requires
        error_line_of(s) is Some,
    ensures
        0 <= j < lines(s).len(),
        error_line_of(s) == Some(lines(s)[j]),
{
    let ls = lines(s);
    if strong_signal(ls) is Some {
        lemma_strong_signal_is_a_line(ls)
    } else {
        lemma_weak_signal_is_a_line(ls)
    }
}

proof fn lemma_strong_signal_is_a_line(ls: Seq<Seq<u8>>) -> (j: int)
    requires
        strong_signal(ls) is Some,
    ensures
        0 <= j < ls.len(),
        strong_signal(ls) == Some(ls[j]),
    decreases ls.len(),
{
    if is_strong(ls[0]) {
        0
    } else {
        let j = lemma_strong_signal_is_a_line(ls.drop_first());
        assert(ls.drop_first()[j] == ls[j + 1]);
        j + 1
    }
}

proof fn lemma_weak_signal_is_a_line(ls: Seq<Seq<u8>>) -> (j: int)
    requires
        weak_signal(ls) is Some,
    ensures
        0 <= j < ls.len(),
        weak_signal(ls) == Some(ls[j]),
    decreases ls.len(),
{
    if is_weak(ls[0]) {
        0
    } else if is_panic_header(ls[0]) {
        if says_nothing(ls[1]) {
            0
        } else {
            1
        }
    } else {
        let j = lemma_weak_signal_is_a_line(ls.drop_first());
        assert(ls.drop_first()[j] == ls[j + 1]);
        j + 1
    }
}

/// How many bytes at the front of `s`, from `i` on, encode one white-space
/// character.
fn space_width_at(s: &[u8], i: usize) -> (w: usize)
    requires
        i <= s@.len(),
    ensures
        w == space_width(s@.skip(i as int)),
        i + w <= s@.len(),
{
    let n: usize = s.len();
    let left: usize = n - i;
    proof {
        let t = s@.skip(i as int);
        assert(t.len() == left);
        if left >= 1 {
            assert(t[0] == s@[i as int]);
        }
        if left >= 2 {
            assert(t[1] == s@[i + 1]);
        }
        if left >= 3 {
            assert(t[2] == s@[i + 2]);
        }
    }
    if left >= 1 && ((0x09 <= s[i] && s[i] <= 0x0D) || s[i] == 0x20) {
        1
    } else if left >= 2 && s[i] == 0xC2 && (s[i + 1] == 0x85 || s[i + 1] == 0xA0) {
        2
    } else if left >= 3 && s[i] == 0xE1 && s[i + 1] == 0x9A && s[i + 2] == 0x80 {
        3
    } else if left >= 3 && s[i] == 0xE2 && s[i + 1] == 0x80 && ((0x80 <= s[i + 2] && s[i + 2]
        <= 0x8A) || s[i + 2] == 0xA8 || s[i + 2] == 0xA9 || s[i + 2] == 0xAF) {
        3
    } else if left >= 3 && s[i] == 0xE2 && s[i + 1] == 0x81 && s[i + 2] == 0x9F {
        3
    } else if left >= 3 && s[i] == 0xE3 && s[i + 1] == 0x80 && s[i + 2] == 0x80 {
        3
    } else {
        0
    }
}

/// Whether `s` is empty or holds white space only.
pub fn is_blank(s: &[u8]) -> (r: bool)
    ensures
        r == blank(s@),
{
    let n: usize = s.len();
    let mut i: usize = 0;
    proof {
        assert(s@.skip(0) =~= s@);
    }
    while i < n
        invariant
            n == s@.len(),
            i <= n,
            blank(s@.skip(i as int)) == blank(s@),
        decreases n - i,
    {
        let w = space_width_at(s, i);
        if w == 0 {
            return false;
        }
        proof {
            assert(s@.skip(i as int).skip(w as int) =~= s@.skip(i + w));
        }
        i = i + w;
    }
    true
}

/// Whether two byte strings are equal.
pub fn same_bytes(a: &[u8], b: &[u8]) -> (r: bool)
    ensures
        r == (a@ == b@),
{
    if a.len() != b.len() {
        return false;
    }
    let r = starts_with(a, b);
    proof {
        assert(a@.subrange(0, b@.len() as int) =~= a@);
    }
    r
}

/// Whether the line is a strong signal.
pub fn strong(line: &[u8]) -> (r: bool)
    ensures
        r == is_strong(line@),
{
    if same_bytes(line, EXIT_CODE_1.as_bytes()) {
        return false;
    }
    (starts_with(line, ERROR.as_bytes()) || starts_with(line, ERROR_CODE.as_bytes())
        || starts_with(line, RUSTC_SIGNAL.as_bytes()) || starts_with(
        line,
        RUNNER_ERROR.as_bytes(),
    ) || starts_with(line, TYPE_ERROR.as_bytes()) || starts_with(line, DYLD.as_bytes()))
        && !starts_with(line, RERUN.as_bytes())
}

/// Whether the line is a weak signal that stands for itself.
pub fn weak(line: &[u8]) -> (r: bool)
    ensures
        r == is_weak(line@),
{
    starts_with(line, ERROR_UPPER.as_bytes()) || starts_with(line, ERROR_IN_REVISION.as_bytes())
        || starts_with(line, FATAL.as_bytes())
}

/// Whether the line is the header of a panic message.
pub fn panic_header(line: &[u8]) -> (r: bool)
    ensures
        r == is_panic_header(line@),
{
    starts_with(line, THREAD.as_bytes()) && contains(line, PANICKED_AT.as_bytes()) && ends_with(
        line,
        COLON.as_bytes(),
    )
}

/// Whether the line, standing behind the header of a panic message, adds
/// nothing to it.
pub fn uninformative(line: &[u8]) -> (r: bool)
    ensures
        r == says_nothing(line@),
{
    is_blank(line) || same_bytes(line, EXPLICIT_PANIC.as_bytes()) || same_bytes(
        line,
        ASSERTION_FAILED.as_bytes(),
    )
}

/// The first strong signal among the lines of `log`.
pub fn first_strong_line(log: &[u8]) -> (r: Option<&[u8]>)
    ensures
        match r {
            Some(line) => strong_signal(lines(log@)) == Some(line@),
            None => strong_signal(lines(log@)) is None,
        },
{
    let n: usize = log.len();
    let mut start: usize = 0;
    proof {
        assert(log@.skip(0) =~= log@);
    }
    while start < n
        invariant
            n == log@.len(),
            start <= n,
            strong_signal(lines(log@.skip(start as int))) == strong_signal(lines(log@)),
        decreases n - start,
    {
        let end = line_end(log, start);
        let line = slice_subrange(log, start, end);
        let next = next_line_start(log, start, end);
        proof {
            let ls = lines(log@.skip(start as int));
            assert(ls[0] == first_line(log@.skip(start as int)));
            assert(ls.drop_first() =~= lines(log@.skip(next as int)));
        }
        if strong(line) {
            return Some(line);
        }
        start = next;
    }
    None
}

/// What the weak signals among the lines of `log` give.
pub fn first_weak_line(log: &[u8]) -> (r: Option<&[u8]>)
    ensures
        match r {
            Some(line) => weak_signal(lines(log@)) == Some(line@),
            None => weak_signal(lines(log@)) is None,
        },
{
    let n: usize = log.len();
    let mut start: usize = 0;
    proof {
        assert(log@.skip(0) =~= log@);
    }
    while start < n
        invariant
            n == log@.len(),
            start <= n,
            weak_signal(lines(log@.skip(start as int))) == weak_signal(lines(log@)),
        decreases n - start,
    {
        let end = line_end(log, start);
        let line = slice_subrange(log, start, end);
        let next = next_line_start(log, start, end);
        proof {
            let ls = lines(log@.skip(start as int));
            assert(ls[0] == first_line(log@.skip(start as int)));
            assert(ls.drop_first() =~= lines(log@.skip(next as int)));
        }
        if weak(line) {
            return Some(line);
        }
        if panic_header(line) {
            if next >= n {
                return None;
            }
            let following_end = line_end(log, next);
            let following = slice_subrange(log, next, following_end);
            proof {
                let ls = lines(log@.skip(start as int));
                let rest = lines(log@.skip(next as int));
                assert(rest[0] == first_line(log@.skip(next as int)));
                assert(ls[1] == rest[0]);
            }
            if uninformative(following) {
                return Some(line);
            }
            return Some(following);
        }
        start = next;
    }
    None
}

/// Picks the error line of `log`: the first strong signal, or, where there is
/// none, what the weak signals give.
pub fn error_line(log: &[u8]) -> (r: Option<&[u8]>)
    ensures
        match r {
            Some(line) => error_line_of(log@) == Some(line@),
            None => error_line_of(log@) is None,
        },
{
    match first_strong_line(log) {
        Some(line) => Some(line),
        None => first_weak_line(log),
    }
}

} // verus!
