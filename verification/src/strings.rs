//! Quoted string literals.

use vstd::prelude::*;
use crate::classes::{peek, EOF_SENTINEL};
use crate::token::{Scan, TokenType, TokenValue, ValueView};
use crate::tokenizer::Tokenizer;

verus! {

/// Where the scan of a string body stops that has come to index `i`: at the
/// first byte from `i` on that is the delimiter or the sentinel byte and is not
/// the second byte of an escape pair, or at the end of the input.
///
/// A backslash and the byte after it form an escape pair, whatever that byte
/// is. A newline is a byte of the body like any other.
pub open spec fn string_stop(s: Seq<u8>, i: int, delim: u8) -> int
    decreases s.len() + 1 - i,
{
    if !(0 <= i < s.len()) {
        s.len() as int
    } else if s[i] == '\\' as u8 {
        string_stop(s, i + 2, delim)
    } else if s[i] == delim || s[i] == EOF_SENTINEL {
        i
    } else {
        string_stop(s, i + 1, delim)
    }
}

/// The token that the string grammar reads at `i`, where the opening
/// delimiter stands. The byte at `i` is the delimiter, whichever it is.
///
/// Only the byte that opened the string closes it. A closed string carries
/// the bytes between its delimiters, escape pairs untouched; an unclosed one
/// carries nothing and ends where the scan stopped. At the end of the input no
/// string starts, and the unclosed token is empty.
pub open spec fn scan_string(s: Seq<u8>, i: int) -> Scan {
    let delim = peek(s, i);
    let stop = string_stop(s, i + 1, delim);
    if !(0 <= i < s.len()) {
        Scan { kind: TokenType::UnclosedStringLiteral, value: ValueView::Absent, end: i }
    } else if stop < s.len() && s[stop] == delim {
        Scan {
            kind: TokenType::StringLiteral,
            value: ValueView::Str(s.subrange(i + 1, stop)),
            end: stop + 1,
        }
    } else {
        Scan { kind: TokenType::UnclosedStringLiteral, value: ValueView::Absent, end: stop }
    }
}

/// The scan of a string body never leaves the input and never goes back.
pub proof fn lemma_string_stop(s: Seq<u8>, i: int, delim: u8)
    requires
        0 <= i,
    ensures
        string_stop(s, i, delim) <= s.len(),
        i <= s.len() ==> i <= string_stop(s, i, delim),
    decreases s.len() + 1 - i,
{
    if i < s.len() {
        if s[i] == '\\' as u8 {
            lemma_string_stop(s, i + 2, delim);
        } else if s[i] == delim || s[i] == EOF_SENTINEL {
        } else {
            lemma_string_stop(s, i + 1, delim);
        }
    }
}

/// A string token ends within the input and after its opening delimiter.
pub proof fn lemma_scan_string(s: Seq<u8>, i: int)
    requires
        0 <= i < s.len(),
    ensures
        i < scan_string(s, i).end <= s.len(),
{
    lemma_string_stop(s, i + 1, peek(s, i));
}

impl<'a> Tokenizer<'a> {
    /// Reads the string literal whose opening delimiter is under the cursor.
    ///
    /// The scan ends at the closing delimiter, which is consumed, or where
    /// lookahead reports the sentinel byte: at the end of the input, and also
    /// at a byte of the input that has the sentinel's value, which is left
    /// unread.
    pub fn read_string(&mut self) -> (res: (TokenType, TokenValue))
        ensures
            final(self).source() == old(self).source(),
            final(self).cursor() == scan_string(old(self).source(), old(self).cursor()).end,
            res.0 == scan_string(old(self).source(), old(self).cursor()).kind,
            res.1@ == scan_string(old(self).source(), old(self).cursor()).value,
            old(self).cursor() <= final(self).cursor() <= old(self).source().len(),
            old(self).cursor() < old(self).source().len() ==> old(self).cursor() < final(
                self
            ).cursor(),
    {
        if self.is_eof() {
            return (TokenType::UnclosedStringLiteral, TokenValue::Absent);
        }
        let start_char = self.byte_at(0);
        let start = self.position();
        self.advance(1);
        loop
            invariant
                self.wf(),
                self.source() == old(self).source(),
                start == old(self).cursor(),
                start_char == peek(self.source(), start as int),
                start < self.cursor(),
                string_stop(self.source(), self.cursor(), start_char) == string_stop(
                    self.source(),
                    start + 1,
                    start_char,
                ),
            decreases self.source().len() - self.cursor(),
        {
            let b = self.byte_at(0);
            if self.is_eof() {
                return (TokenType::UnclosedStringLiteral, TokenValue::Absent);
            } else if b == '\\' as u8 {
                if self.has_at_least(1) {
                    self.advance(2);
                } else {
                    assert(string_stop(self.source(), self.cursor() + 2, start_char)
                        == self.source().len());
                    self.advance(1);
                }
            } else if b == start_char {
                let stop = self.position();
                let body = self.copy_range(start + 1, stop);
                self.advance(1);
                return (TokenType::StringLiteral, TokenValue::Str(body));
            } else if b == EOF_SENTINEL {
                return (TokenType::UnclosedStringLiteral, TokenValue::Absent);
            } else {
                self.advance(1);
            }
        }
    }
}

} // verus!
