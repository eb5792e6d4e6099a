//! The byte classes of the source alphabet, as predicates on single bytes,
//! and maximal runs of bytes of one class.

use vstd::prelude::*;

verus! {

/// The byte that lookahead reports where the input holds no byte.
pub const EOF_SENTINEL: u8 = 0x03;

/// The byte of `s` at index `i`, or [`EOF_SENTINEL`] where `i` is out of range.
pub open spec fn peek(s: Seq<u8>, i: int) -> u8 {
    if 0 <= i < s.len() {
        s[i]
    } else {
        EOF_SENTINEL
    }
}

/// Space, horizontal tab, vertical tab and form feed.
pub open spec fn is_whitespace_byte(b: u8) -> bool {
    b == ' ' as u8 || b == '\t' as u8 || b == 0x0B || b == 0x0C
}

/// Newline, carriage return, tab, backslash, NUL and DEL. Outside strings and
/// comments these bytes are skipped like whitespace.
pub open spec fn is_escape_byte(b: u8) -> bool {
    b == '\n' as u8 || b == '\r' as u8 || b == '\t' as u8 || b == '\\' as u8 || b == 0x00 || b
        == 0x7F
}

/// `0` to `9`.
pub open spec fn is_digit_byte(b: u8) -> bool {
    '0' as u8 <= b <= '9' as u8
}

/// `0` to `9`, `a` to `f` and `A` to `F`.
pub open spec fn is_hex_digit_byte(b: u8) -> bool {
    is_digit_byte(b) || 'a' as u8 <= b <= 'f' as u8 || 'A' as u8 <= b <= 'F' as u8
}

/// `a` to `z` and `A` to `Z`.
pub open spec fn is_alpha_byte(b: u8) -> bool {
    'a' as u8 <= b <= 'z' as u8 || 'A' as u8 <= b <= 'Z' as u8
}

/// A letter or an underscore.
pub open spec fn is_ident_start_byte(b: u8) -> bool {
    is_alpha_byte(b) || b == '_' as u8
}

/// A letter, an underscore or a digit.
pub open spec fn is_ident_byte(b: u8) -> bool {
    is_ident_start_byte(b) || is_digit_byte(b)
}

/// `"` or `'`.
pub open spec fn is_quote_byte(b: u8) -> bool {
    b == '"' as u8 || b == '\'' as u8
}

/// `e` or `E`.
pub open spec fn is_exponent_byte(b: u8) -> bool {
    b == 'e' as u8 || b == 'E' as u8
}

/// `+` or `-`.
pub open spec fn is_sign_byte(b: u8) -> bool {
    b == '+' as u8 || b == '-' as u8
}

/// The classes of bytes that the scanners consume in maximal runs.
#[derive(Clone, Copy, Debug, PartialEq, Eq, Structural)]
pub enum ByteClass {
    /// Decimal digits.
    Digit,
    /// Hexadecimal digits.
    HexDigit,
    /// Bytes that continue an identifier.
    Ident,
    /// Every byte but the newline.
    LineBody,
}

impl ByteClass {
    /// Whether `b` belongs to the class.
    pub open spec fn holds(self, b: u8) -> bool {
        match self {
            ByteClass::Digit => is_digit_byte(b),
            ByteClass::HexDigit => is_hex_digit_byte(b),
            ByteClass::Ident => is_ident_byte(b),
            ByteClass::LineBody => b != '\n' as u8,
        }
    }

    /// Whether `b` belongs to the class.
    pub fn contains(self, b: u8) -> (r: bool)
        ensures
            r == self.holds(b),
    {
        match self {
            ByteClass::Digit => b >= '0' as u8 && b <= '9' as u8,
            ByteClass::HexDigit => (b >= '0' as u8 && b <= '9' as u8) || (b >= 'a' as u8 && b
                <= 'f' as u8) || (b >= 'A' as u8 && b <= 'F' as u8),
            ByteClass::Ident => (b >= 'a' as u8 && b <= 'z' as u8) || (b >= 'A' as u8 && b
                <= 'Z' as u8) || b == '_' as u8 || (b >= '0' as u8 && b <= '9' as u8),
            ByteClass::LineBody => b != '\n' as u8,
        }
    }
}

/// The end of the maximal run of bytes of `class` that starts at index `i`:
/// the first index from `i` on that holds no byte of the class, or the length
/// of `s` where every byte from `i` on belongs to it.
pub open spec fn run_end(s: Seq<u8>, i: int, class: ByteClass) -> int
    decreases s.len() - i,
{
    if 0 <= i < s.len() && class.holds(s[i]) {
        run_end(s, i + 1, class)
    } else {
        i
    }
}

/// A run ends between its start and the end of the input, holds only bytes of
/// its class, and stops at the end of the input or before a byte outside it.
pub proof fn lemma_run_end(s: Seq<u8>, i: int, class: ByteClass)
    requires
        0 <= i <= s.len(),
    ensures
        i <= run_end(s, i, class) <= s.len(),
        forall|j: int| i <= j < run_end(s, i, class) ==> class.holds(#[trigger] s[j]),
        run_end(s, i, class) < s.len() ==> !class.holds(s[run_end(s, i, class)]),
    decreases s.len() - i,
{
    if i < s.len() && class.holds(s[i]) {
        lemma_run_end(s, i + 1, class);
    }
}

} // verus!
