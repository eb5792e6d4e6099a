//! Numeric literals: how far a literal extends in the input, and the value
//! that its text denotes.

use vstd::prelude::*;
use vstd::arithmetic::div_mod::{lemma_add_mod_noop, lemma_mul_mod_noop_left};
use crate::classes::{
    is_digit_byte, is_exponent_byte, is_sign_byte, peek, run_end, ByteClass,
};
use crate::token::{Scan, TokenType, TokenValue, ValueView};
use crate::tokenizer::Tokenizer;

verus! {

/// Whether `s` holds `0x` or `0X` at index `i`.
pub open spec fn hex_prefix_at(s: Seq<u8>, i: int) -> bool {
    peek(s, i) == '0' as u8 && (peek(s, i + 1) == 'x' as u8 || peek(s, i + 1) == 'X' as u8)
}

/// Where the integer digits that start at `i`, and the fraction that may
/// follow them (one `.` and its digits), end.
pub open spec fn fraction_end(s: Seq<u8>, i: int) -> int {
    let a = run_end(s, i, ByteClass::Digit);
    if peek(s, a) == '.' as u8 {
        run_end(s, a + 1, ByteClass::Digit)
    } else {
        a
    }
}

/// The number of digits in the integer part and the fraction that start at `i`.
pub open spec fn mantissa_digits(s: Seq<u8>, i: int) -> int {
    let a = run_end(s, i, ByteClass::Digit);
    if peek(s, a) == '.' as u8 {
        fraction_end(s, i) - i - 1
    } else {
        a - i
    }
}

/// Where the digits of an exponent start whose marker stands at `i`: after
/// the marker and the sign that may follow it.
pub open spec fn exponent_digits_start(s: Seq<u8>, i: int) -> int {
    if is_sign_byte(peek(s, i + 1)) {
        i + 2
    } else {
        i + 1
    }
}

/// Where the decimal literal that starts at `i` ends: after its digits, an
/// optional fraction, and an optional exponent (marker, optional sign, digits).
/// Nothing requires a digit after the `.` or after the exponent marker.
pub open spec fn decimal_end(s: Seq<u8>, i: int) -> int {
    let b = fraction_end(s, i);
    if is_exponent_byte(peek(s, b)) {
        run_end(s, exponent_digits_start(s, b), ByteClass::Digit)
    } else {
        b
    }
}

/// Where the numeric literal that starts at `i` ends. After a hexadecimal
/// prefix only hexadecimal digits belong to the literal.
pub open spec fn number_end(s: Seq<u8>, i: int) -> int {
    if hex_prefix_at(s, i) {
        run_end(s, i + 2, ByteClass::HexDigit)
    } else {
        decimal_end(s, i)
    }
}

/// The value of one hexadecimal digit; a byte that is none counts as zero.
pub open spec fn hex_digit_value(b: u8) -> nat {
    if is_digit_byte(b) {
        (b - '0' as u8) as nat
    } else if 'A' as u8 <= b <= 'F' as u8 {
        (b - 'A' as u8 + 10) as nat
    } else if 'a' as u8 <= b <= 'f' as u8 {
        (b - 'a' as u8 + 10) as nat
    } else {
        0
    }
}

/// The number that `digits` spell in radix 16, most significant digit first.
pub open spec fn hex_value(digits: Seq<u8>) -> nat
    decreases digits.len(),
{
    if digits.len() == 0 {
        0
    } else {
        hex_value(digits.drop_last()) * 16 + hex_digit_value(digits.last())
    }
}

/// The low 64 bits of `n`, read as a two's complement signed integer.
pub open spec fn low_bits_as_i64(n: nat) -> int {
    let m = n as int % 0x1_0000_0000_0000_0000;
    if m < 0x8000_0000_0000_0000 {
        m
    } else {
        m - 0x1_0000_0000_0000_0000
    }
}

/// The value of one decimal digit; a byte that is none counts as zero.
pub open spec fn digit_value(b: u8) -> nat {
    if is_digit_byte(b) {
        (b - '0' as u8) as nat
    } else {
        0
    }
}

/// The number that `digits` spell in radix 10, most significant digit first.
pub open spec fn decimal_value(digits: Seq<u8>) -> nat
    decreases digits.len(),
{
    if digits.len() == 0 {
        0
    } else {
        decimal_value(digits.drop_last()) * 10 + digit_value(digits.last())
    }
}

/// Whether every byte of `s` is a decimal digit.
pub open spec fn all_digits(s: Seq<u8>) -> bool {
    forall|i: int| 0 <= i < s.len() ==> is_digit_byte(#[trigger] s[i])
}

/// The digits of `text`: all of it but a leading sign.
pub open spec fn unsigned_part(text: Seq<u8>) -> Seq<u8> {
    if is_sign_byte(peek(text, 0)) {
        text.subrange(1, text.len() as int)
    } else {
        text
    }
}

/// The signed 64-bit integer that `text` denotes in base 10: an optional
/// sign and at least one digit, with a value in the range of `i64`.
pub open spec fn decimal_int(text: Seq<u8>) -> Option<int> {
    let digits = unsigned_part(text);
    let n = if peek(text, 0) == '-' as u8 {
        -(decimal_value(digits) as int)
    } else {
        decimal_value(digits) as int
    };
    if digits.len() > 0 && all_digits(digits) && i64::MIN <= n <= i64::MAX {
        Some(n)
    } else {
        None
    }
}

/// The integer that `text` denotes. After a hexadecimal prefix the digits are
/// accumulated in radix 16 and only the low 64 bits are kept, so that no
/// literal is too large; otherwise the text is read in base 10.
pub open spec fn int_literal(text: Seq<u8>) -> Option<int> {
    if hex_prefix_at(text, 0) {
        Some(low_bits_as_i64(hex_value(text.subrange(2, text.len() as int))))
    } else {
        decimal_int(text)
    }
}

/// Whether `text` is a well-formed decimal floating literal: an optional
/// sign; digits with an optional `.` among, before or after them, at least one
/// digit in all; and optionally an exponent, which is `e` or `E`, an optional
/// sign and at least one digit.
pub open spec fn is_float_literal(text: Seq<u8>) -> bool {
    let m: int = if is_sign_byte(peek(text, 0)) {
        1
    } else {
        0
    };
    let b = fraction_end(text, m);
    let c = exponent_digits_start(text, b);
    &&& mantissa_digits(text, m) >= 1
    &&& b == text.len() || (is_exponent_byte(peek(text, b)) && c < run_end(
        text,
        c,
        ByteClass::Digit,
    ) && run_end(text, c, ByteClass::Digit) == text.len())
}

/// The kind and the value of the numeric literal `text`: an integer where
/// the text denotes one, else a float where the text is a well-formed floating
/// literal, else no number at all.
pub open spec fn classify_number(text: Seq<u8>) -> (TokenType, ValueView) {
    if int_literal(text) is Some {
        (TokenType::Int, ValueView::Int(int_literal(text)->0))
    } else if is_float_literal(text) {
        (TokenType::Float, ValueView::Float(text))
    } else {
        (TokenType::Unidentified, ValueView::Absent)
    }
}

/// Whether a numeric literal starts at `i`: a digit, or a `.` before a digit.
pub open spec fn number_starts_at(s: Seq<u8>, i: int) -> bool {
    is_digit_byte(peek(s, i)) || (peek(s, i) == '.' as u8 && is_digit_byte(peek(s, i + 1)))
}

/// The token that the number grammar reads at `i`.
pub open spec fn scan_number(s: Seq<u8>, i: int) -> Scan {
    let end = number_end(s, i);
    let class = classify_number(s.subrange(i, end));
    Scan { kind: class.0, value: class.1, end }
}

/// A numeric literal ends within the input, and after its start where one
/// starts there.
pub proof fn lemma_number_end(s: Seq<u8>, i: int)
    requires
        0 <= i <= s.len(),
    ensures
        i <= number_end(s, i) <= s.len(),
        number_starts_at(s, i) ==> i < number_end(s, i),
{
    if hex_prefix_at(s, i) {
        crate::classes::lemma_run_end(s, i + 2, ByteClass::HexDigit);
    } else {
        crate::classes::lemma_run_end(s, i, ByteClass::Digit);
        let a = run_end(s, i, ByteClass::Digit);
        if peek(s, a) == '.' as u8 {
            crate::classes::lemma_run_end(s, a + 1, ByteClass::Digit);
        }
        let b = fraction_end(s, i);
        if is_exponent_byte(peek(s, b)) {
            crate::classes::lemma_run_end(s, exponent_digits_start(s, b), ByteClass::Digit);
        }
    }
}

/// The value of a prefix of a digit string is at most the value of the whole.
proof fn lemma_decimal_value_grows(s: Seq<u8>, k: int)
    requires
        0 <= k <= s.len(),
    ensures
        decimal_value(s.subrange(0, k)) <= decimal_value(s),
    decreases s.len(),
{
    if k < s.len() {
        lemma_decimal_value_grows(s.drop_last(), k);
        assert(s.drop_last().subrange(0, k) =~= s.subrange(0, k));
    } else {
        assert(s.subrange(0, k) =~= s);
    }
}

/// The value of the hexadecimal digit `b`.
fn hex_digit(b: u8) -> (d: u64)
    ensures
        d == hex_digit_value(b),
        d < 16,
{
    if b >= '0' as u8 && b <= '9' as u8 {
        (b - '0' as u8) as u64
    } else if b >= 'A' as u8 && b <= 'F' as u8 {
        (b - 'A' as u8 + 10) as u64
    } else if b >= 'a' as u8 && b <= 'f' as u8 {
        (b - 'a' as u8 + 10) as u64
    } else {
        0
    }
}

/// The low 64 bits of the number that the bytes of `text` from offset 2 on
/// spell in radix 16, as a signed integer.
fn hex_to_int(text: &[u8]) -> (n: i64)
    requires
        text@.len() >= 2,
    ensures
        n == low_bits_as_i64(hex_value(text@.subrange(2, text@.len() as int))),
{
    let mut acc: u64 = 0;
    let mut i: usize = 2;
    assert(text@.subrange(2, 2) =~= Seq::<u8>::empty());
    while i < text.len()
        invariant
            2 <= i <= text@.len(),
            acc as int == hex_value(text@.subrange(2, i as int)) as int % 0x1_0000_0000_0000_0000,
        decreases text@.len() - i,
    {
        let d = hex_digit(text[i]);
        proof {
            let h = hex_value(text@.subrange(2, i as int)) as int;
            let m = 0x1_0000_0000_0000_0000int;
            assert(text@.subrange(2, i + 1).drop_last() =~= text@.subrange(2, i as int));
            assert(hex_value(text@.subrange(2, i + 1)) == h * 16 + d);
            lemma_mul_mod_noop_left(h, 16, m);
            lemma_add_mod_noop(h * 16, d as int, m);
        }
        acc = acc.wrapping_mul(16).wrapping_add(d);
        i = i + 1;
    }
    assert(text@.subrange(2, i as int) =~= text@.subrange(2, text@.len() as int));
    if acc <= 0x7FFF_FFFF_FFFF_FFFF {
        acc as i64
    } else {
        ((acc - 0x8000_0000_0000_0000) as i64) + i64::MIN
    }
}

/// The integer that `text` denotes in base 10, if it denotes one.
fn decimal_to_int(text: &[u8]) -> (r: Option<i64>)
    ensures
        r is Some <==> decimal_int(text@) is Some,
        r is Some ==> r->0 == decimal_int(text@)->0,
{
    let len = text.len();
    let negative = len > 0 && text[0] == '-' as u8;
    let start: usize = if len > 0 && (text[0] == '-' as u8 || text[0] == '+' as u8) {
        1
    } else {
        0
    };
    let ghost digits = unsigned_part(text@);
    assert(digits == text@.subrange(start as int, len as int));
    if start == len {
        return None;
    }
    let limit: u64 = if negative {
        0x8000_0000_0000_0000
    } else {
        0x7FFF_FFFF_FFFF_FFFF
    };
    let mut acc: u64 = 0;
    let mut i: usize = start;
    assert(digits.subrange(0, 0) =~= Seq::<u8>::empty());
    while i < len
        invariant
            start <= i <= len == text@.len(),
            digits == text@.subrange(start as int, len as int),
            digits == unsigned_part(text@),
            negative == (peek(text@, 0) == '-' as u8),
            acc == decimal_value(digits.subrange(0, i - start)),
            acc <= limit,
            limit == (if negative { 0x8000_0000_0000_0000u64 } else { 0x7FFF_FFFF_FFFF_FFFFu64 }),
            forall|j: int| 0 <= j < i - start ==> is_digit_byte(#[trigger] digits[j]),
        decreases len - i,
    {
        let b = text[i];
        if !(b >= '0' as u8 && b <= '9' as u8) {
            assert(!is_digit_byte(digits[i - start]));
            return None;
        }
        let d = (b - '0' as u8) as u64;
        proof {
            assert(digits.subrange(0, i + 1 - start).drop_last() =~= digits.subrange(
                0,
                i - start,
            ));
            assert(decimal_value(digits.subrange(0, i + 1 - start)) == acc * 10 + d);
        }
        if acc > (limit - d) / 10 {
            proof {
                lemma_decimal_value_grows(digits, i + 1 - start);
            }
            return None;
        }
        acc = acc * 10 + d;
        i = i + 1;
    }
    assert(digits.subrange(0, i - start) =~= digits);
    if negative {
        if acc == 0x8000_0000_0000_0000 {
            Some(i64::MIN)
        } else {
            Some(-(acc as i64))
        }
    } else {
        Some(acc as i64)
    }
}

impl<'a> Tokenizer<'a> {
    /// Reads the numeric literal under the cursor and classifies it.
    ///
    /// The literal is consumed greedily and without validation; a text that
    /// denotes no number comes back as `Unidentified`.
    pub fn read_digit(&mut self) -> (res: (TokenType, TokenValue))
        ensures
            final(self).source() == old(self).source(),
            final(self).cursor() == scan_number(old(self).source(), old(self).cursor()).end,
            res.0 == scan_number(old(self).source(), old(self).cursor()).kind,
            res.1@ == scan_number(old(self).source(), old(self).cursor()).value,
            old(self).cursor() <= final(self).cursor() <= old(self).source().len(),
            number_starts_at(old(self).source(), old(self).cursor()) ==> old(self).cursor()
                < final(self).cursor(),
    {
        let start = self.position();
        proof {
            lemma_number_end(self.source(), self.cursor());
        }
        if self.byte_at(0) == '0' as u8 && (self.byte_at(1) == 'x' as u8 || self.byte_at(1)
            == 'X' as u8) {
            self.advance(2);
            self.skip_run(ByteClass::HexDigit);
        } else {
            self.skip_run(ByteClass::Digit);
            if self.byte_at(0) == '.' as u8 {
                self.advance(1);
                self.skip_run(ByteClass::Digit);
            }
            let marker = self.byte_at(0);
            if marker == 'e' as u8 || marker == 'E' as u8 {
                self.advance(1);
                let sign = self.byte_at(0);
                if sign == '-' as u8 || sign == '+' as u8 {
                    self.advance(1);
                }
                self.skip_run(ByteClass::Digit);
            }
        }
        let end = self.position();
        let text = self.copy_range(start, end);
        Self::string_to_number(text.as_slice())
    }

    /// Classifies the text of a numeric literal: an integer first, a float
    /// where it is no integer, `Unidentified` where it is neither.
    pub fn string_to_number(text: &[u8]) -> (res: (TokenType, TokenValue))
        ensures
            res.0 == classify_number(text@).0,
            res.1@ == classify_number(text@).1,
    {
        if let Some(n) = Self::string_to_int(text) {
            (TokenType::Int, n)
        } else if let Some(t) = Self::string_to_float(text) {
            (TokenType::Float, t)
        } else {
            (TokenType::Unidentified, TokenValue::Absent)
        }
    }

    /// The integer value of `text`, where it has one.
    ///
    /// A text with the prefix `0x` or `0X` always has one: the digits after
    /// the prefix are accumulated in radix 16 with wrapping 64-bit arithmetic.
    /// Any other text is read as a base-10 signed 64-bit integer.
    pub fn string_to_int(text: &[u8]) -> (r: Option<TokenValue>)
        ensures
            r is Some <==> int_literal(text@) is Some,
            r is Some ==> r->0@ == ValueView::Int(int_literal(text@)->0),
    {
        if text.len() >= 2 && text[0] == '0' as u8 && (text[1] == 'x' as u8 || text[1]
            == 'X' as u8) {
            Some(TokenValue::Int(hex_to_int(text)))
        } else {
            match decimal_to_int(text) {
                Some(n) => Some(TokenValue::Int(n)),
                None => None,
            }
        }
    }

    /// The float value of `text`, where `text` is a well-formed decimal
    /// floating literal. The value is the text itself: the library holds no
    /// floating-point number, and a caller converts the text.
    pub fn string_to_float(text: &[u8]) -> (r: Option<TokenValue>)
        ensures
            r is Some <==> is_float_literal(text@),
            r is Some ==> r->0@ == ValueView::Float(text@),
    {
        let mut t = Tokenizer::new(text);
        let first = t.byte_at(0);
        if first == '-' as u8 || first == '+' as u8 {
            t.advance(1);
        }
        let m = t.position();
        t.skip_run(ByteClass::Digit);
        let a = t.position();
        let mut digits = a - m;
        if t.byte_at(0) == '.' as u8 {
            t.advance(1);
            t.skip_run(ByteClass::Digit);
            digits = t.position() - m - 1;
        }
        if digits == 0 {
            return None;
        }
        if !t.is_eof() {
            let marker = t.byte_at(0);
            if !(marker == 'e' as u8 || marker == 'E' as u8) {
                return None;
            }
            t.advance(1);
            let sign = t.byte_at(0);
            if sign == '-' as u8 || sign == '+' as u8 {
                t.advance(1);
            }
            let c = t.position();
            t.skip_run(ByteClass::Digit);
            if t.position() == c || !t.is_eof() {
                return None;
            }
        }
        let copy = t.copy_range(0, t.len());
        assert(copy@ =~= text@);
        Some(TokenValue::Float(copy))
    }
}

} // verus!
