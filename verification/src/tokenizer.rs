//! The scanner: a read-only byte buffer and a cursor into it.

use vstd::prelude::*;
use crate::classes::{
    is_alpha_byte, is_digit_byte, is_escape_byte, is_hex_digit_byte, is_ident_byte,
    is_ident_start_byte, is_whitespace_byte, peek, run_end, ByteClass, EOF_SENTINEL,
};

verus! {

/// A byte buffer together with the offset of the next unread byte.
///
/// The cursor never passes the end of the buffer, and no operation moves it
/// backwards.
pub struct Tokenizer<'a> {
    input: &'a [u8],
    pos: usize,
}

/// Whether `needle` occurs in `s` at index `i`.
pub open spec fn occurs_at(s: Seq<u8>, i: int, needle: Seq<u8>) -> bool {
    &&& 0 <= i
    &&& i + needle.len() <= s.len()
    &&& s.subrange(i, i + needle.len()) == needle
}

impl<'a> Tokenizer<'a> {
    /// The cursor lies within the buffer or at its end.
    #[verifier::type_invariant]
    pub open spec fn wf(&self) -> bool {
        0 <= self.cursor() <= self.source().len()
    }

    /// The whole input.
    pub closed spec fn source(&self) -> Seq<u8> {
        self.input@
    }

    /// The offset of the next unread byte.
    pub closed spec fn cursor(&self) -> int {
        self.pos as int
    }

    /// The byte under the cursor, or the sentinel at the end of the input.
    pub open spec fn current(&self) -> u8 {
        peek(self.source(), self.cursor())
    }

    /// A scanner at the start of `input`.
    pub fn new(input: &'a [u8]) -> (t: Self)
        ensures
            t.source() == input@,
            t.cursor() == 0,
    {
        Tokenizer { input, pos: 0 }
    }

    /// The offset of the next unread byte.
    pub fn position(&self) -> (p: usize)
        ensures
            p == self.cursor(),
            p <= self.source().len(),
    {
        proof {
            use_type_invariant(self);
        }
        self.pos
    }

    /// The number of bytes in the input.
    pub fn len(&self) -> (n: usize)
        ensures
            n == self.source().len(),
    {
        self.input.len()
    }

    /// The byte `offset` places after the cursor, or [`EOF_SENTINEL`] where
    /// the input ends before it.
    pub fn byte_at(&self, offset: usize) -> (b: u8)
        ensures
            b == peek(self.source(), self.cursor() + offset),
    {
        proof {
            use_type_invariant(self);
        }
        if offset < self.input.len() - self.pos {
            self.input[self.pos + offset]
        } else {
            EOF_SENTINEL
        }
    }

    /// Whether the input holds a byte `n` places after the cursor.
    pub fn has_at_least(&self, n: usize) -> (r: bool)
        ensures
            r == (self.cursor() + n < self.source().len()),
    {
        proof {
            use_type_invariant(self);
        }
        n < self.input.len() - self.pos
    }

    /// Whether the unread input begins with `needle`.
    pub fn starts_with(&self, needle: &[u8]) -> (r: bool)
        ensures
            r == occurs_at(self.source(), self.cursor(), needle@),
    {
        proof {
            use_type_invariant(self);
        }
        if needle.len() > self.input.len() - self.pos {
            return false;
        }
        let ghost window = self.input@.subrange(self.pos as int, self.pos + needle@.len());
        let mut i: usize = 0;
        while i < needle.len()
            invariant
                self.pos + needle@.len() <= self.input@.len() <= usize::MAX,
                window == self.input@.subrange(self.pos as int, self.pos + needle@.len()),
                i <= needle@.len(),
                forall|j: int| 0 <= j < i ==> window[j] == needle@[j],
            decreases needle@.len() - i,
        {
            if self.input[self.pos + i] != needle[i] {
                assert(window[i as int] != needle@[i as int]);
                return false;
            }
            i = i + 1;
        }
        assert(window =~= needle@);
        true
    }

    /// Whether no unread byte remains.
    pub fn is_eof(&self) -> (r: bool)
        ensures
            r == (self.cursor() == self.source().len()),
    {
        proof {
            use_type_invariant(self);
        }
        !self.has_at_least(0)
    }

    /// Whether the current byte is a space, a tab, a vertical tab or a form feed.
    pub fn is_whitespace(&self) -> (r: bool)
        ensures
            r == is_whitespace_byte(self.current()),
    {
        let b = self.byte_at(0);
        b == ' ' as u8 || b == '\t' as u8 || b == 0x0B || b == 0x0C
    }

    /// Whether the current byte is a newline, a carriage return, a tab, a
    /// backslash, NUL or DEL.
    pub fn is_escape_char(&self) -> (r: bool)
        ensures
            r == is_escape_byte(self.current()),
    {
        Self::is_escape(self.byte_at(0))
    }

    /// Whether `c` is a newline, a carriage return, a tab, a backslash, NUL or DEL.
    pub fn is_escape(c: u8) -> (r: bool)
        ensures
            r == is_escape_byte(c),
    {
        c == '\n' as u8 || c == '\r' as u8 || c == '\t' as u8 || c == '\\' as u8 || c == 0x00 || c
            == 0x7F
    }

    /// Whether `c` is a decimal digit.
    pub fn is_digit(c: u8) -> (r: bool)
        ensures
            r == is_digit_byte(c),
    {
        c >= '0' as u8 && c <= '9' as u8
    }

    /// Whether `c` is a hexadecimal digit.
    pub fn is_hex_digit(c: u8) -> (r: bool)
        ensures
            r == is_hex_digit_byte(c),
    {
        if (c >= 'a' as u8 && c <= 'f' as u8) || (c >= 'A' as u8 && c <= 'F' as u8) {
            true
        } else {
            Self::is_digit(c)
        }
    }

    /// Whether the current byte is an ASCII letter.
    pub fn is_alpha(&self) -> (r: bool)
        ensures
            r == is_alpha_byte(self.current()),
    {
        let b = self.byte_at(0);
        (b >= 'a' as u8 && b <= 'z' as u8) || (b >= 'A' as u8 && b <= 'Z' as u8)
    }

    /// Whether the current byte may start an identifier.
    pub fn is_valid_ident_start(&self) -> (r: bool)
        ensures
            r == is_ident_start_byte(self.current()),
    {
        self.is_alpha() || self.byte_at(0) == '_' as u8
    }

    /// Whether the current byte may continue an identifier.
    pub fn is_valid_ident(&self) -> (r: bool)
        ensures
            r == is_ident_byte(self.current()),
    {
        self.is_alpha() || Self::is_digit(self.byte_at(0)) || self.is_valid_ident_start()
    }

    /// Moves the cursor `n` bytes forward.
    pub(crate) fn advance(&mut self, n: usize)
        requires
            old(self).cursor() + n <= old(self).source().len(),
        ensures
            final(self).source() == old(self).source(),
            final(self).cursor() == old(self).cursor() + n,
    {
        proof {
            use_type_invariant(&*self);
        }
        let len = self.input.len();
        self.pos = self.pos + n;
    }

    /// Moves the cursor past the maximal run of bytes of `class` that starts
    /// under it.
    pub(crate) fn skip_run(&mut self, class: ByteClass)
        ensures
            final(self).source() == old(self).source(),
            final(self).cursor() == run_end(old(self).source(), old(self).cursor(), class),
            old(self).cursor() <= final(self).cursor() <= final(self).source().len(),
    {
        proof {
            use_type_invariant(&*self);
        }
        while !self.is_eof() && class.contains(self.byte_at(0))
            invariant
                self.wf(),
                self.source() == old(self).source(),
                old(self).cursor() <= self.cursor(),
                run_end(self.source(), self.cursor(), class) == run_end(
                    old(self).source(),
                    old(self).cursor(),
                    class,
                ),
            decreases self.source().len() - self.cursor(),
        {
            self.advance(1);
        }
    }

    /// A copy of the input bytes from offset `start` up to `end`.
    pub(crate) fn copy_range(&self, start: usize, end: usize) -> (out: Vec<u8>)
        requires
            start <= end <= self.source().len(),
        ensures
            out@ == self.source().subrange(start as int, end as int),
    {
        let mut out: Vec<u8> = Vec::new();
        let mut i: usize = start;
        while i < end
            invariant
                start <= i <= end <= self.input@.len(),
                out@ == self.input@.subrange(start as int, i as int),
            decreases end - i,
        {
            out.push(self.input[i]);
            i = i + 1;
        }
        out
    }
}

} // verus!
