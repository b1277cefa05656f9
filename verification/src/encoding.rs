//! Valid UTF-8, and where a valid text can be cut.

use crate::lines::{after_first_line, first_line, lemma_offset_of, lines, offset_of, NL};
use vstd::prelude::*;
use vstd::utf8::valid_utf8;

verus! {

/// The stripped log is not valid UTF-8.
#[derive(Clone, Copy, PartialEq, Eq, Structural, Debug)]
pub struct EncodingError;

/// Calls `core::str::from_utf8` and says whether it accepted `text`, which it
/// does exactly when `text` is valid UTF-8.
#[verifier::external_body]
pub(crate) fn is_utf8(text: &[u8]) -> (r: bool)
    ensures
        r == valid_utf8(text@),
{
    core::str::from_utf8(text).is_ok()
}

/// A single ASCII byte is valid UTF-8.
pub proof fn lemma_ascii_byte_is_utf8(b: u8)
    requires
        b < 0x80,
    ensures
        valid_utf8(seq![b]),
{
    let one = seq![b];
    assert(vstd::utf8::pop_first_scalar(one) =~= Seq::<u8>::empty());
    reveal_with_fuel(vstd::utf8::valid_utf8, 2);
}

/// A valid UTF-8 text can be cut behind any of its ASCII bytes: both parts
/// are valid UTF-8.
pub proof fn lemma_utf8_cut_behind_ascii(s: Seq<u8>, i: int)
    requires
        valid_utf8(s),
        0 <= i < s.len(),
        s[i] < 0x80,
    ensures
        valid_utf8(s.take(i + 1)),
        valid_utf8(s.skip(i + 1)),
{
    vstd::utf8::is_char_boundary_iff_not_is_continuation_byte(s, i);
    vstd::utf8::valid_utf8_split(s, i);
    let head = s.subrange(0, i);
    let t = s.subrange(i, s.len() as int);
    assert(t[0] == s[i]);
    assert(vstd::utf8::pop_first_scalar(t) =~= s.skip(i + 1));
    let one = seq![s[i]];
    lemma_ascii_byte_is_utf8(s[i]);
    vstd::utf8::valid_utf8_concat(head, one);
    assert(head + one =~= s.take(i + 1));
}

/// A valid UTF-8 text can be cut before any of its ASCII bytes: both parts
/// are valid UTF-8.
pub proof fn lemma_utf8_cut_before_ascii(s: Seq<u8>, i: int)
    requires
        valid_utf8(s),
        0 <= i < s.len(),
        s[i] < 0x80,
    ensures
        valid_utf8(s.take(i)),
        valid_utf8(s.skip(i)),
{
    vstd::utf8::is_char_boundary_iff_not_is_continuation_byte(s, i);
    vstd::utf8::valid_utf8_split(s, i);
    assert(s.subrange(0, i) =~= s.take(i));
    assert(s.subrange(i, s.len() as int) =~= s.skip(i));
}

/// The first line of a valid UTF-8 text, and what follows it, are valid
/// UTF-8.
pub proof fn lemma_first_line_is_utf8(s: Seq<u8>)
    requires
        valid_utf8(s),
    ensures
        valid_utf8(first_line(s)),
        valid_utf8(after_first_line(s)),
{
    lemma_offset_of(s, NL);
    let k = offset_of(s, NL);
    if k < s.len() {
        lemma_utf8_cut_before_ascii(s, k);
        lemma_utf8_cut_behind_ascii(s, k);
    } else {
        assert(s.take(k) =~= s);
    }
}

/// Each line of a valid UTF-8 text is valid UTF-8.
pub proof fn lemma_line_is_utf8(s: Seq<u8>, i: int)
    requires
        valid_utf8(s),
        0 <= i < lines(s).len(),
    ensures
        valid_utf8(lines(s)[i]),
    decreases s.len(),
{
    lemma_first_line_is_utf8(s);
    lemma_offset_of(s, NL);
    if i > 0 {
        assert(lines(s)[i] == lines(after_first_line(s))[i - 1]);
        lemma_line_is_utf8(after_first_line(s), i - 1);
    }
}

} // verus!
