//! A byte-level scanner that tells terminal control sequences from text.

use vstd::prelude::*;
use vstd::utf8::{
    length_of_first_scalar, pop_first_scalar, valid_first_scalar, valid_utf8, valid_utf8_concat,
};

verus! {

/// The bell byte, one of the two terminators of an operating system command.
pub const BEL: u8 = 0x07;

/// The escape byte, which introduces every control sequence.
pub const ESC: u8 = 0x1B;

/// The byte that, after `ESC`, opens a parameterised control sequence.
pub const CSI: u8 = 0x5B;

/// The byte that, after `ESC`, opens an operating system command.
pub const OSC: u8 = 0x5D;

/// The byte that, after `ESC`, closes an operating system command.
pub const BACKSLASH: u8 = 0x5C;

/// Where the scanner stands after the bytes it has seen so far.
#[derive(Clone, Copy, PartialEq, Eq, Structural, Debug)]
pub enum AnsiMode {
    Text,
    Escape,
    Osc,
    /// An `ESC` inside an operating system command. Followed by a backslash it
    /// ends the command; followed by anything else it was part of the command.
    OscEscape,
    OscTerminator,
    Parameter,
    Intermidiate,
    Final,
}

/// Bytes `0x20..=0x2f`, which continue a control sequence.
pub open spec fn is_intermediate_byte(b: u8) -> bool {
    0x20 <= b <= 0x2f
}

/// Bytes `0x30..=0x3f`, the parameters of a control sequence.
pub open spec fn is_parameter_byte(b: u8) -> bool {
    0x30 <= b <= 0x3f
}

/// Bytes `0x40..=0x7e`, which end a control sequence.
pub open spec fn is_final_byte(b: u8) -> bool {
    0x40 <= b <= 0x7e
}

impl AnsiMode {
    /// The transition table: the mode after byte `b` has been read in mode
    /// `self`. Every pair that no row names falls back to `Text`.
    pub open spec fn step(self, b: u8) -> AnsiMode {
        match self {
            AnsiMode::Text => if b == ESC {
                AnsiMode::Escape
            } else {
                AnsiMode::Text
            },
            AnsiMode::Escape => if b == CSI {
                AnsiMode::Parameter
            } else if b == OSC {
                AnsiMode::Osc
            } else if is_intermediate_byte(b) {
                AnsiMode::Intermidiate
            } else if is_final_byte(b) {
                AnsiMode::Final
            } else {
                AnsiMode::Text
            },
            AnsiMode::Parameter => if is_parameter_byte(b) {
                AnsiMode::Parameter
            } else if is_intermediate_byte(b) {
                AnsiMode::Intermidiate
            } else if is_final_byte(b) {
                AnsiMode::Final
            } else {
                AnsiMode::Text
            },
            AnsiMode::Intermidiate => if is_intermediate_byte(b) {
                AnsiMode::Intermidiate
            } else if is_final_byte(b) {
                AnsiMode::Final
            } else {
                AnsiMode::Text
            },
            AnsiMode::Osc => if b == ESC {
                AnsiMode::OscEscape
            } else if b == BEL {
                AnsiMode::OscTerminator
            } else {
                AnsiMode::Osc
            },
            AnsiMode::OscEscape => if b == BACKSLASH {
                AnsiMode::OscTerminator
            } else if b == ESC {
                AnsiMode::OscEscape
            } else if b == BEL {
                AnsiMode::OscTerminator
            } else {
                AnsiMode::Osc
            },
            AnsiMode::Final | AnsiMode::OscTerminator => if b == ESC {
                AnsiMode::Escape
            } else {
                AnsiMode::Text
            },
        }
    }

    /// Whether a byte read into this mode is text, to be kept.
    pub open spec fn text(self) -> bool {
        self == AnsiMode::Text
    }

    /// Reads `b`, moves to the mode that follows, and returns it.
    pub fn update(&mut self, b: u8) -> (r: Self)
        ensures
            *final(self) == old(self).step(b),
            r == old(self).step(b),
    {
        *self = self.next(b);
        *self
    }

    /// The mode that follows `self` once `b` has been read.
    pub fn next(self, b: u8) -> (r: Self)
        ensures
            r == self.step(b),
    {
        match (self, b) {
            (Self::Text, ESC) => Self::Escape,
            (Self::Escape, CSI) => Self::Parameter,
            (Self::Escape, OSC) => Self::Osc,
            (Self::Escape, 0x20..=0x2f) => Self::Intermidiate,
            (Self::Escape, 0x40..=0x7e) => Self::Final,
            (Self::Parameter, 0x30..=0x3f) => Self::Parameter,
            (Self::Parameter, 0x20..=0x2f) => Self::Intermidiate,
            (Self::Parameter, 0x40..=0x7e) => Self::Final,
            (Self::Intermidiate, 0x20..=0x2f) => Self::Intermidiate,
            (Self::Intermidiate, 0x40..=0x7e) => Self::Final,
            (Self::Osc, ESC) => Self::OscEscape,
            (Self::OscEscape, BACKSLASH) => Self::OscTerminator,
            (Self::OscEscape, ESC) => Self::OscEscape,
            (Self::Osc | Self::OscEscape, BEL) => Self::OscTerminator,
            (Self::Osc | Self::OscEscape, _) => Self::Osc,
            (Self::Final | Self::OscTerminator, ESC) => Self::Escape,
            _ => Self::Text,
        }
    }

    /// Whether the mode is `Text`.
    pub fn is_text(self) -> (r: bool)
        ensures
            r == self.text(),
    {
        self == Self::Text
    }
}

/// What is left of `s` when the scanner starts in `mode` and keeps each byte
/// that it reads into `Text`.
pub open spec fn stripped_from(mode: AnsiMode, s: Seq<u8>) -> Seq<u8>
    decreases s.len(),
{
    if s.len() == 0 {
        Seq::empty()
    } else {
        let after = mode.step(s[0]);
        if after.text() {
            seq![s[0]] + stripped_from(after, s.skip(1))
        } else {
            stripped_from(after, s.skip(1))
        }
    }
}

/// `s` without its control sequences.
pub open spec fn stripped(s: Seq<u8>) -> Seq<u8> {
    stripped_from(AnsiMode::Text, s)
}

/// The mode of a scanner that started in `mode` and has read `s`.
pub open spec fn mode_after(mode: AnsiMode, s: Seq<u8>) -> AnsiMode
    decreases s.len(),
{
    if s.len() == 0 {
        mode
    } else {
        mode_after(mode.step(s[0]), s.skip(1))
    }
}

/// A text without an escape byte holds no control sequence: stripping returns
/// it unchanged, and leaves the scanner in `Text`.
pub proof fn lemma_strip_plain(s: Seq<u8>)
    requires
        forall|i: int| 0 <= i < s.len() ==> s[i] != ESC,
    ensures
        stripped(s) == s,
        mode_after(AnsiMode::Text, s) == AnsiMode::Text,
    decreases s.len(),
{
    if s.len() > 0 {
        let rest = s.skip(1);
        assert forall|i: int| 0 <= i < rest.len() implies rest[i] != ESC by {
            assert(rest[i] == s[i + 1]);
        }
        lemma_strip_plain(rest);
        assert(seq![s[0]] + rest =~= s);
    }
}

/// Stripping a text in two parts: the second part is read in the mode that the
/// first part left.
pub proof fn lemma_strip_concat(mode: AnsiMode, a: Seq<u8>, b: Seq<u8>)
    ensures
        stripped_from(mode, a + b) == stripped_from(mode, a) + stripped_from(
            mode_after(mode, a),
            b,
        ),
        mode_after(mode, a + b) == mode_after(mode_after(mode, a), b),
    decreases a.len(),
{
    if a.len() == 0 {
        assert(a + b =~= b);
        assert(stripped_from(mode, a) + stripped_from(mode, b) =~= stripped_from(mode, b));
    } else {
        let after = mode.step(a[0]);
        assert((a + b).skip(1) =~= a.skip(1) + b);
        assert((a + b)[0] == a[0]);
        lemma_strip_concat(after, a.skip(1), b);
        let tail = stripped_from(mode_after(after, a.skip(1)), b);
        if after.text() {
            assert(seq![a[0]] + (stripped_from(after, a.skip(1)) + tail) =~= (seq![a[0]]
                + stripped_from(after, a.skip(1))) + tail);
        }
    }
}

/// Whatever is stripped, no byte is added: the result is no longer than the text.
pub proof fn lemma_strip_len(mode: AnsiMode, s: Seq<u8>)
    ensures
        stripped_from(mode, s).len() <= s.len(),
    decreases s.len(),
{
    if s.len() > 0 {
        lemma_strip_len(mode.step(s[0]), s.skip(1));
    }
}

/// A byte that is not ASCII leaves the scanner inside an operating system
/// command if it is in one, and is read as text, and kept, everywhere else.
pub proof fn lemma_step_beyond_ascii(mode: AnsiMode, b: u8)
    requires
        b >= 0x80,
    ensures
        mode == AnsiMode::Osc || mode == AnsiMode::OscEscape ==> mode.step(b) == AnsiMode::Osc,
        mode != AnsiMode::Osc && mode != AnsiMode::OscEscape ==> mode.step(b) == AnsiMode::Text,
{
}

/// A run of bytes that are not ASCII is kept whole or dropped whole: dropped
/// inside an operating system command, kept everywhere else.
pub proof fn lemma_strip_beyond_ascii(mode: AnsiMode, s: Seq<u8>)
    requires
        forall|i: int| 0 <= i < s.len() ==> s[i] >= 0x80,
    ensures
        mode == AnsiMode::Osc || mode == AnsiMode::OscEscape ==> stripped_from(mode, s)
            == Seq::<u8>::empty(),
        mode != AnsiMode::Osc && mode != AnsiMode::OscEscape ==> stripped_from(mode, s) == s,
    decreases s.len(),
{
    if s.len() > 0 {
        let rest = s.skip(1);
        assert forall|i: int| 0 <= i < rest.len() implies rest[i] >= 0x80 by {
            assert(rest[i] == s[i + 1]);
        }
        lemma_step_beyond_ascii(mode, s[0]);
        lemma_strip_beyond_ascii(mode.step(s[0]), rest);
        assert(seq![s[0]] + rest =~= s);
    } else {
        assert(s =~= Seq::<u8>::empty());
    }
}

/// Stripping never cuts a character in two: what is left of a valid UTF-8
/// text, in whatever mode the scanner starts, is valid UTF-8.
pub proof fn lemma_strip_keeps_utf8(mode: AnsiMode, s: Seq<u8>)
    requires
        valid_utf8(s),
    ensures
        valid_utf8(stripped_from(mode, s)),
    decreases s.len(),
{
    if s.len() > 0 {
        let n = length_of_first_scalar(s);
        let first = s.subrange(0, n);
        let rest = pop_first_scalar(s);
        assert(valid_first_scalar(s));
        assert(1 <= n <= 4 && n <= s.len());
        assert(s =~= first + rest);
        assert(valid_utf8(first)) by {
            assert(pop_first_scalar(first) =~= Seq::<u8>::empty());
            assert(valid_first_scalar(first));
            reveal_with_fuel(vstd::utf8::valid_utf8, 2);
        }
        lemma_strip_concat(mode, first, rest);
        lemma_strip_keeps_utf8(mode_after(mode, first), rest);
        let kept = stripped_from(mode, first);
        assert(kept == first || kept == Seq::<u8>::empty()) by {
            if n == 1 {
                reveal_with_fuel(stripped_from, 2);
                assert(first.skip(1) =~= Seq::<u8>::empty());
                assert(seq![first[0]] + Seq::<u8>::empty() =~= first);
            } else {
                lemma_strip_beyond_ascii(mode, first);
            }
        }
        valid_utf8_concat(kept, stripped_from(mode_after(mode, first), rest));
    }
}

/// Removes the control sequences from `s`: a byte is kept exactly when the
/// scanner, having read it, is in `Text`.
pub fn strip(s: &[u8]) -> (r: Vec<u8>)
    ensures
        r@ == stripped(s@),
{
    let n: usize = s.len();
    let mut out: Vec<u8> = Vec::new();
    let mut mode = AnsiMode::Text;
    let mut i: usize = 0;
    proof {
        assert(s@.skip(0) =~= s@);
        assert(out@ + stripped(s@) =~= stripped(s@));
    }
    while i < n
        invariant
            n == s@.len(),
            i <= n,
            out@ + stripped_from(mode, s@.skip(i as int)) == stripped(s@),
        decreases n - i,
    {
        let b: u8 = s[i];
        let ghost before = out@;
        let ghost rest = s@.skip(i as int);
        proof {
            assert(rest[0] == b);
            assert(rest.skip(1) =~= s@.skip(i + 1));
        }
        if mode.update(b).is_text() {
            out.push(b);
            proof {
                assert(before.push(b) + stripped_from(mode, s@.skip(i + 1)) =~= before + (seq![b]
                    + stripped_from(mode, s@.skip(i + 1))));
            }
        }
        i = i + 1;
    }
    proof {
        assert(out@ + Seq::<u8>::empty() =~= out@);
    }
    out
}

} // verus!
