//! Token kinds, token values and the keyword table.

use vstd::prelude::*;
use vstd::string::*;

verus! {

/// The closed set of token kinds.
#[derive(Clone, Copy, Debug, PartialEq, Eq, Structural)]
pub enum TokenType {
    And,
    Goto,
    Function,
    End,
    False,
    For,
    Else,
    ElseIf,
    Do,
    Break,
    Local,
    If,
    In,
    Nil,
    Not,
    Repeat,
    Or,
    Then,
    True,
    While,
    Until,
    Return,
    GreaterOrEqual,
    /// `..`, and also `==` (see the dispatch rules of the lexer).
    Concat,
    /// `...`
    Dots,
    /// Reserved for an equality operator; the lexer never produces it.
    Equal,
    LessOrEqual,
    NotEqual,
    /// `<<`
    ShiftLeft,
    /// `>>`
    ShiftRight,
    DoubleColon,
    Float,
    Int,
    Identifier,
    LeftParenthesis,
    RightParenthesis,
    LeftSquareBracket,
    RightSquareBracket,
    LeftCurlyBracket,
    RightCurlyBracket,
    Add,
    Minus,
    Mul,
    Div,
    Mod,
    Pow,
    Len,
    Assign,
    Less,
    Greater,
    /// `&`
    BAnd,
    /// `|`
    BOr,
    /// `~`
    BXor,
    /// `:`
    Colon,
    /// `,`
    Comma,
    /// `;`
    Semicolon,
    /// `.`
    Attr,
    SingleComment,
    MultiLineComment,
    /// A block comment that was still open when the input ended.
    UnterminatedComment,
    StringLiteral,
    UnclosedStringLiteral,
    Eof,
    Whitespace,
    Unidentified,
}

/// The reserved word spelled by `text`, if `text` is exactly one of the
/// twenty-two reserved words. Matching is on the whole text, never on a prefix.
pub open spec fn keyword_kind(text: Seq<u8>) -> Option<TokenType> {
    if text == seq!['a' as u8, 'n' as u8, 'd' as u8] {
        Some(TokenType::And)
    } else if text == seq!['g' as u8, 'o' as u8, 't' as u8, 'o' as u8] {
        Some(TokenType::Goto)
    } else if text == seq![
        'f' as u8, 'u' as u8, 'n' as u8, 'c' as u8, 't' as u8, 'i' as u8, 'o' as u8, 'n' as u8,
    ] {
        Some(TokenType::Function)
    } else if text == seq!['e' as u8, 'n' as u8, 'd' as u8] {
        Some(TokenType::End)
    } else if text == seq!['f' as u8, 'a' as u8, 'l' as u8, 's' as u8, 'e' as u8] {
        Some(TokenType::False)
    } else if text == seq!['f' as u8, 'o' as u8, 'r' as u8] {
        Some(TokenType::For)
    } else if text == seq!['e' as u8, 'l' as u8, 's' as u8, 'e' as u8] {
        Some(TokenType::Else)
    } else if text == seq!['e' as u8, 'l' as u8, 's' as u8, 'e' as u8, 'i' as u8, 'f' as u8] {
        Some(TokenType::ElseIf)
    } else if text == seq!['d' as u8, 'o' as u8] {
        Some(TokenType::Do)
    } else if text == seq!['b' as u8, 'r' as u8, 'e' as u8, 'a' as u8, 'k' as u8] {
        Some(TokenType::Break)
    } else if text == seq!['l' as u8, 'o' as u8, 'c' as u8, 'a' as u8, 'l' as u8] {
        Some(TokenType::Local)
    } else if text == seq!['i' as u8, 'f' as u8] {
        Some(TokenType::If)
    } else if text == seq!['i' as u8, 'n' as u8] {
        Some(TokenType::In)
    } else if text == seq!['n' as u8, 'i' as u8, 'l' as u8] {
        Some(TokenType::Nil)
    } else if text == seq!['n' as u8, 'o' as u8, 't' as u8] {
        Some(TokenType::Not)
    } else if text == seq!['r' as u8, 'e' as u8, 'p' as u8, 'e' as u8, 'a' as u8, 't' as u8] {
        Some(TokenType::Repeat)
    } else if text == seq!['o' as u8, 'r' as u8] {
        Some(TokenType::Or)
    } else if text == seq!['t' as u8, 'h' as u8, 'e' as u8, 'n' as u8] {
        Some(TokenType::Then)
    } else if text == seq!['t' as u8, 'r' as u8, 'u' as u8, 'e' as u8] {
        Some(TokenType::True)
    } else if text == seq!['w' as u8, 'h' as u8, 'i' as u8, 'l' as u8, 'e' as u8] {
        Some(TokenType::While)
    } else if text == seq!['u' as u8, 'n' as u8, 't' as u8, 'i' as u8, 'l' as u8] {
        Some(TokenType::Until)
    } else if text == seq!['r' as u8, 'e' as u8, 't' as u8, 'u' as u8, 'r' as u8, 'n' as u8] {
        Some(TokenType::Return)
    } else {
        None
    }
}

/// Whether two byte strings hold the same bytes.
pub fn bytes_equal(a: &[u8], b: &[u8]) -> (same: bool)
    ensures
        same == (a@ == b@),
{
    if a.len() != b.len() {
        return false;
    }
    let mut i: usize = 0;
    while i < a.len()
        invariant
            a@.len() == b@.len(),
            i <= a@.len(),
            a@.subrange(0, i as int) == b@.subrange(0, i as int),
        decreases a@.len() - i,
    {
        if a[i] != b[i] {
            return false;
        }
        i = i + 1;
        assert(a@.subrange(0, i as int) == a@.subrange(0, i - 1).push(a@[i - 1]));
        assert(b@.subrange(0, i as int) == b@.subrange(0, i - 1).push(b@[i - 1]));
    }
    assert(a@ == a@.subrange(0, i as int));
    assert(b@ == b@.subrange(0, i as int));
    true
}

impl TokenType {
    /// Looks `word` up in the keyword table.
    pub fn convert_to_token_type(word: &str) -> (kind: Option<TokenType>)
        ensures
            kind == keyword_kind(word.spec_bytes()),
    {
        TokenType::keyword_from_bytes(word.as_bytes())
    }

    /// Looks the bytes of a word up in the keyword table.
    pub fn keyword_from_bytes(word: &[u8]) -> (kind: Option<TokenType>)
        ensures
            kind == keyword_kind(word@),
    {
        if bytes_equal(word, ['a' as u8, 'n' as u8, 'd' as u8].as_slice()) {
            Some(TokenType::And)
        } else if bytes_equal(word, ['g' as u8, 'o' as u8, 't' as u8, 'o' as u8].as_slice()) {
            Some(TokenType::Goto)
        } else if bytes_equal(
            word,
            [
                'f' as u8, 'u' as u8, 'n' as u8, 'c' as u8, 't' as u8, 'i' as u8, 'o' as u8,
                'n' as u8,
            ].as_slice(),
        ) {
            Some(TokenType::Function)
        } else if bytes_equal(word, ['e' as u8, 'n' as u8, 'd' as u8].as_slice()) {
            Some(TokenType::End)
        } else if bytes_equal(
            word,
            ['f' as u8, 'a' as u8, 'l' as u8, 's' as u8, 'e' as u8].as_slice(),
        ) {
            Some(TokenType::False)
        } else if bytes_equal(word, ['f' as u8, 'o' as u8, 'r' as u8].as_slice()) {
            Some(TokenType::For)
        } else if bytes_equal(word, ['e' as u8, 'l' as u8, 's' as u8, 'e' as u8].as_slice()) {
            Some(TokenType::Else)
        } else if bytes_equal(
            word,
            ['e' as u8, 'l' as u8, 's' as u8, 'e' as u8, 'i' as u8, 'f' as u8].as_slice(),
        ) {
            Some(TokenType::ElseIf)
        } else if bytes_equal(word, ['d' as u8, 'o' as u8].as_slice()) {
            Some(TokenType::Do)
        } else if bytes_equal(
            word,
            ['b' as u8, 'r' as u8, 'e' as u8, 'a' as u8, 'k' as u8].as_slice(),
        ) {
            Some(TokenType::Break)
        } else if bytes_equal(
            word,
            ['l' as u8, 'o' as u8, 'c' as u8, 'a' as u8, 'l' as u8].as_slice(),
        ) {
            Some(TokenType::Local)
        } else if bytes_equal(word, ['i' as u8, 'f' as u8].as_slice()) {
            Some(TokenType::If)
        } else if bytes_equal(word, ['i' as u8, 'n' as u8].as_slice()) {
            Some(TokenType::In)
        } else if bytes_equal(word, ['n' as u8, 'i' as u8, 'l' as u8].as_slice()) {
            Some(TokenType::Nil)
        } else if bytes_equal(word, ['n' as u8, 'o' as u8, 't' as u8].as_slice()) {
            Some(TokenType::Not)
        } else if bytes_equal(
            word,
            ['r' as u8, 'e' as u8, 'p' as u8, 'e' as u8, 'a' as u8, 't' as u8].as_slice(),
        ) {
            Some(TokenType::Repeat)
        } else if bytes_equal(word, ['o' as u8, 'r' as u8].as_slice()) {
            Some(TokenType::Or)
        } else if bytes_equal(word, ['t' as u8, 'h' as u8, 'e' as u8, 'n' as u8].as_slice()) {
            Some(TokenType::Then)
        } else if bytes_equal(word, ['t' as u8, 'r' as u8, 'u' as u8, 'e' as u8].as_slice()) {
            Some(TokenType::True)
        } else if bytes_equal(
            word,
            ['w' as u8, 'h' as u8, 'i' as u8, 'l' as u8, 'e' as u8].as_slice(),
        ) {
            Some(TokenType::While)
        } else if bytes_equal(
            word,
            ['u' as u8, 'n' as u8, 't' as u8, 'i' as u8, 'l' as u8].as_slice(),
        ) {
            Some(TokenType::Until)
        } else if bytes_equal(
            word,
            ['r' as u8, 'e' as u8, 't' as u8, 'u' as u8, 'r' as u8, 'n' as u8].as_slice(),
        ) {
            Some(TokenType::Return)
        } else {
            None
        }
    }
}

/// The decoded value that a token carries.
#[derive(Debug, PartialEq, Eq)]
pub enum TokenValue {
    /// The token carries no value.
    Absent,
    /// The value of an integer literal.
    Int(i64),
    /// The text of a well-formed decimal floating literal.
    Float(Vec<u8>),
    /// The bytes of an identifier, a string body or a comment body.
    Str(Vec<u8>),
}

/// The mathematical value of a [`TokenValue`].
pub enum ValueView {
    Absent,
    Int(int),
    Float(Seq<u8>),
    Str(Seq<u8>),
}

impl View for TokenValue {
    type V = ValueView;

    open spec fn view(&self) -> ValueView {
        match self {
            TokenValue::Absent => ValueView::Absent,
            TokenValue::Int(n) => ValueView::Int(*n as int),
            TokenValue::Float(text) => ValueView::Float(text@),
            TokenValue::Str(text) => ValueView::Str(text@),
        }
    }
}

impl Clone for TokenValue {
    fn clone(&self) -> (copy: Self)
        ensures
            copy@ == self@,
    {
        match self {
            TokenValue::Absent => TokenValue::Absent,
            TokenValue::Int(n) => TokenValue::Int(*n),
            TokenValue::Float(text) => TokenValue::Float(text.clone()),
            TokenValue::Str(text) => TokenValue::Str(text.clone()),
        }
    }
}

/// A token together with the span of input bytes `start..end` it was read from.
#[derive(Debug, PartialEq, Eq)]
pub struct Token {
    pub kind: TokenType,
    pub value: TokenValue,
    pub start: usize,
    pub end: usize,
}

/// The mathematical value of a [`Token`].
pub struct TokenView {
    pub kind: TokenType,
    pub value: ValueView,
    pub start: int,
    pub end: int,
}

impl Clone for Token {
    fn clone(&self) -> (copy: Self)
        ensures
            copy@ == self@,
    {
        Token { kind: self.kind, value: self.value.clone(), start: self.start, end: self.end }
    }
}

/// What the grammar reads at one offset of the input: the kind and the value
/// of the token that starts there, and the offset at which the token ends.
pub struct Scan {
    pub kind: TokenType,
    pub value: ValueView,
    pub end: int,
}

impl View for Token {
    type V = TokenView;

    open spec fn view(&self) -> TokenView {
        TokenView {
            kind: self.kind,
            value: self.value@,
            start: self.start as int,
            end: self.end as int,
        }
    }
}

} // verus!
