//! The lexer: which token starts at an offset of the input, and the sequence
//! of tokens that a whole input denotes.

use vstd::prelude::*;
use crate::classes::{
    is_digit_byte, is_escape_byte, is_ident_start_byte, is_quote_byte, is_whitespace_byte,
    lemma_run_end, peek, run_end, ByteClass,
};
use crate::laws::{
    lemma_eof_exactly_at_end, lemma_round_trip, lemma_spans_cover_input, span_total, spanned_text,
    spans_adjacent,
};
use crate::comment::{lemma_scan_comment, scan_block_comment, scan_line_comment};
use crate::number::{lemma_number_end, scan_number};
use crate::strings::{lemma_scan_string, scan_string};
use crate::token::{keyword_kind, Scan, Token, TokenType, TokenValue, TokenView, ValueView};
use crate::tokenizer::Tokenizer;

verus! {

/// A token of `kind` that carries no value and ends at `end`.
pub open spec fn plain(kind: TokenType, end: int) -> Scan {
    Scan { kind, value: ValueView::Absent, end }
}

/// The kind of the punctuation mark or operator that the single byte `b` is.
pub open spec fn punctuation_kind(b: u8) -> Option<TokenType> {
    if b == ';' as u8 {
        Some(TokenType::Semicolon)
    } else if b == ',' as u8 {
        Some(TokenType::Comma)
    } else if b == '&' as u8 {
        Some(TokenType::BAnd)
    } else if b == '|' as u8 {
        Some(TokenType::BOr)
    } else if b == '(' as u8 {
        Some(TokenType::LeftParenthesis)
    } else if b == ')' as u8 {
        Some(TokenType::RightParenthesis)
    } else if b == ']' as u8 {
        Some(TokenType::RightSquareBracket)
    } else if b == '{' as u8 {
        Some(TokenType::LeftCurlyBracket)
    } else if b == '}' as u8 {
        Some(TokenType::RightCurlyBracket)
    } else if b == '+' as u8 {
        Some(TokenType::Add)
    } else if b == '*' as u8 {
        Some(TokenType::Mul)
    } else if b == '/' as u8 {
        Some(TokenType::Div)
    } else if b == '%' as u8 {
        Some(TokenType::Mod)
    } else if b == '^' as u8 {
        Some(TokenType::Pow)
    } else if b == '#' as u8 {
        Some(TokenType::Len)
    } else {
        None
    }
}

/// The word that starts at `i`: its first byte and the maximal run of
/// identifier bytes after it. A word that is spelled exactly like a reserved
/// word is that keyword; any other word is an identifier and carries its text.
pub open spec fn scan_word(s: Seq<u8>, i: int) -> Scan {
    let end = run_end(s, i + 1, ByteClass::Ident);
    let text = s.subrange(i, end);
    match keyword_kind(text) {
        Some(kind) => plain(kind, end),
        None => Scan { kind: TokenType::Identifier, value: ValueView::Str(text), end },
    }
}

/// The token at `i` where the byte there starts no number, string, comment
/// or multi-byte operator: a punctuation mark, a word, or an unidentified byte.
/// An unidentified byte is consumed; at the end of the input there is none,
/// and the token is empty.
pub open spec fn scan_other(s: Seq<u8>, i: int) -> Scan {
    let b = peek(s, i);
    if punctuation_kind(b) is Some {
        plain(punctuation_kind(b)->0, i + 1)
    } else if is_ident_start_byte(b) {
        scan_word(s, i)
    } else if i < s.len() {
        plain(TokenType::Unidentified, i + 1)
    } else {
        plain(TokenType::Unidentified, i)
    }
}

/// The token that starts at offset `i` of `s`.
///
/// The rules are tried in this order: whitespace; a number; a byte of the
/// escape class, which counts as whitespace; a string; the operators of more
/// than one byte, longest first, and the comments; at last the rules of
/// [`scan_other`]. At the end of the input the token is `Eof`.
///
/// The two bytes `==` are a `Concat` token.
///
/// The definition is opaque, to keep proofs that only pass tokens on from
/// unfolding it; `reveal(scan_token)` makes it known.
#[verifier::opaque]
pub open spec fn scan_token(s: Seq<u8>, i: int) -> Scan {
    let b0 = peek(s, i);
    let b1 = peek(s, i + 1);
    let b2 = peek(s, i + 2);
    let b3 = peek(s, i + 3);
    if !(0 <= i < s.len()) {
        plain(TokenType::Eof, i)
    } else if is_whitespace_byte(b0) {
        plain(TokenType::Whitespace, i + 1)
    } else if is_digit_byte(b0) {
        scan_number(s, i)
    } else if is_escape_byte(b0) {
        plain(TokenType::Whitespace, i + 1)
    } else if is_quote_byte(b0) {
        scan_string(s, i)
    } else if b0 == '>' as u8 {
        if b1 == '=' as u8 {
            plain(TokenType::GreaterOrEqual, i + 2)
        } else if b1 == '>' as u8 {
            plain(TokenType::ShiftRight, i + 2)
        } else {
            plain(TokenType::Greater, i + 1)
        }
    } else if b0 == '.' as u8 {
        if b1 == '.' as u8 && b2 == '.' as u8 {
            plain(TokenType::Dots, i + 3)
        } else if b1 == '.' as u8 {
            plain(TokenType::Concat, i + 2)
        } else if is_digit_byte(b1) {
            scan_number(s, i)
        } else {
            plain(TokenType::Attr, i + 1)
        }
    } else if b0 == '=' as u8 {
        if b1 == '=' as u8 {
            plain(TokenType::Concat, i + 2)
        } else {
            plain(TokenType::Assign, i + 1)
        }
    } else if b0 == '<' as u8 {
        if b1 == '=' as u8 {
            plain(TokenType::LessOrEqual, i + 2)
        } else if b1 == '<' as u8 {
            plain(TokenType::ShiftLeft, i + 2)
        } else {
            plain(TokenType::Less, i + 1)
        }
    } else if b0 == '~' as u8 {
        if b1 == '=' as u8 {
            plain(TokenType::NotEqual, i + 2)
        } else {
            plain(TokenType::BXor, i + 1)
        }
    } else if b0 == ':' as u8 {
        if b1 == ':' as u8 {
            plain(TokenType::DoubleColon, i + 2)
        } else {
            plain(TokenType::Colon, i + 1)
        }
    } else if b0 == '[' as u8 {
        if b1 == '[' as u8 {
            scan_block_comment(s, i + 2)
        } else {
            plain(TokenType::LeftSquareBracket, i + 1)
        }
    } else if b0 == '-' as u8 {
        if b1 == '-' as u8 && b2 == '[' as u8 && b3 == '[' as u8 {
            scan_block_comment(s, i + 4)
        } else if b1 == '-' as u8 {
            scan_line_comment(s, i + 2)
        } else {
            plain(TokenType::Minus, i + 1)
        }
    } else {
        scan_other(s, i)
    }
}

/// The token that starts at offset `i` of `s`, with its span.
pub open spec fn token_at(s: Seq<u8>, i: int) -> TokenView {
    let scan = scan_token(s, i);
    TokenView { kind: scan.kind, value: scan.value, start: i, end: scan.end }
}

/// Forward progress: a token that starts before the end of the input is not
/// empty, ends within the input, and is no `Eof`.
pub proof fn lemma_scan_token(s: Seq<u8>, i: int)
    requires
        0 <= i < s.len(),
    ensures
        i < scan_token(s, i).end <= s.len(),
        scan_token(s, i).kind != TokenType::Eof,
{
    reveal(scan_token);
    lemma_number_end(s, i);
    lemma_scan_string(s, i);
    lemma_run_end(s, i + 1, ByteClass::Ident);
    if i + 2 <= s.len() {
        lemma_scan_comment(s, i + 2);
    }
    if i + 4 <= s.len() {
        lemma_scan_comment(s, i + 4);
    }
}

/// At the end of the input the token is an empty `Eof`.
pub proof fn lemma_scan_at_end(s: Seq<u8>, i: int)
    requires
        i >= s.len(),
    ensures
        scan_token(s, i) == plain(TokenType::Eof, i),
{
    reveal(scan_token);
}

/// The tokens of `s` from offset `i` on: the token that starts at `i`, then
/// the tokens from its end on, up to and including the `Eof` token at the end
/// of the input.
pub open spec fn tokens_from(s: Seq<u8>, i: int) -> Seq<TokenView>
    decreases s.len() - i,
{
    if 0 <= i < s.len() {
        proof {
            lemma_scan_token(s, i);
        }
        seq![token_at(s, i)] + tokens_from(s, token_at(s, i).end)
    } else {
        seq![token_at(s, i)]
    }
}

/// The token sequence that the input `s` denotes.
pub open spec fn lex(s: Seq<u8>) -> Seq<TokenView> {
    tokens_from(s, 0)
}

/// The mathematical values of a sequence of tokens.
pub open spec fn token_views(tokens: Seq<Token>) -> Seq<TokenView> {
    tokens.map_values(|t: Token| t@)
}

impl<'a> Tokenizer<'a> {
    /// Consumes `n` bytes as one token of `kind` that carries no value.
    fn emit(&mut self, n: usize, kind: TokenType) -> (res: (TokenType, TokenValue))
        requires
            old(self).cursor() + n <= old(self).source().len(),
        ensures
            final(self).source() == old(self).source(),
            final(self).cursor() == old(self).cursor() + n,
            res.0 == kind,
            res.1@ == ValueView::Absent,
    {
        self.advance(n);
        (kind, TokenValue::Absent)
    }

    /// The kind of the punctuation mark or operator that the single byte `b` is.
    fn punctuation(b: u8) -> (kind: Option<TokenType>)
        ensures
            kind == punctuation_kind(b),
    {
        if b == ';' as u8 {
            Some(TokenType::Semicolon)
        } else if b == ',' as u8 {
            Some(TokenType::Comma)
        } else if b == '&' as u8 {
            Some(TokenType::BAnd)
        } else if b == '|' as u8 {
            Some(TokenType::BOr)
        } else if b == '(' as u8 {
            Some(TokenType::LeftParenthesis)
        } else if b == ')' as u8 {
            Some(TokenType::RightParenthesis)
        } else if b == ']' as u8 {
            Some(TokenType::RightSquareBracket)
        } else if b == '{' as u8 {
            Some(TokenType::LeftCurlyBracket)
        } else if b == '}' as u8 {
            Some(TokenType::RightCurlyBracket)
        } else if b == '+' as u8 {
            Some(TokenType::Add)
        } else if b == '*' as u8 {
            Some(TokenType::Mul)
        } else if b == '/' as u8 {
            Some(TokenType::Div)
        } else if b == '%' as u8 {
            Some(TokenType::Mod)
        } else if b == '^' as u8 {
            Some(TokenType::Pow)
        } else if b == '#' as u8 {
            Some(TokenType::Len)
        } else {
            None
        }
    }

    /// Reads a punctuation mark, a word or an unidentified byte.
    ///
    /// An unidentified byte is consumed, so that the cursor moves on every
    /// token read before the end of the input.
    pub fn read_other_tokens(&mut self) -> (res: (TokenType, TokenValue))
        ensures
            final(self).source() == old(self).source(),
            final(self).cursor() == scan_other(old(self).source(), old(self).cursor()).end,
            res.0 == scan_other(old(self).source(), old(self).cursor()).kind,
            res.1@ == scan_other(old(self).source(), old(self).cursor()).value,
            old(self).cursor() <= final(self).cursor() <= old(self).source().len(),
            old(self).cursor() < old(self).source().len() ==> old(self).cursor() < final(
                self
            ).cursor(),
    {
        proof {
            use_type_invariant(&*self);
        }
        if let Some(kind) = Self::punctuation(self.byte_at(0)) {
            self.emit(1, kind)
        } else if self.is_valid_ident_start() {
            let start = self.position();
            self.advance(1);
            self.skip_run(ByteClass::Ident);
            let word = self.copy_range(start, self.position());
            if let Some(kind) = TokenType::keyword_from_bytes(word.as_slice()) {
                (kind, TokenValue::Absent)
            } else {
                (TokenType::Identifier, TokenValue::Str(word))
            }
        } else if self.is_eof() {
            (TokenType::Unidentified, TokenValue::Absent)
        } else {
            self.emit(1, TokenType::Unidentified)
        }
    }

    /// Reads the next token; see [`next_token`].
    pub fn next(&mut self) -> (tok: Token)
        ensures
            final(self).source() == old(self).source(),
            tok@ == token_at(old(self).source(), old(self).cursor()),
            final(self).cursor() == tok.end,
            old(self).cursor() <= final(self).cursor() <= old(self).source().len(),
            old(self).cursor() < old(self).source().len() ==> tok.kind != TokenType::Eof
                && old(self).cursor() < final(self).cursor(),
            old(self).cursor() == old(self).source().len() ==> tok.kind == TokenType::Eof,
    {
        next_token(self)
    }
}

/// Reads the token under the cursor and moves the cursor to its end.
///
/// At the end of the input the token is `Eof` and the cursor stays. Before
/// the end the cursor moves forward by at least one byte, whatever the input:
/// a byte that starts no token is consumed as `Unidentified`.
pub fn next_token<'a>(tokenizer: &mut Tokenizer<'a>) -> (tok: Token)
    ensures
        final(tokenizer).source() == old(tokenizer).source(),
        tok@ == token_at(old(tokenizer).source(), old(tokenizer).cursor()),
        final(tokenizer).cursor() == tok.end,
        old(tokenizer).cursor() <= final(tokenizer).cursor() <= old(tokenizer).source().len(),
        old(tokenizer).cursor() < old(tokenizer).source().len() ==> old(tokenizer).cursor()
            < final(tokenizer).cursor() && tok.kind != TokenType::Eof,
        old(tokenizer).cursor() == old(tokenizer).source().len() ==> tok.kind
            == TokenType::Eof,
{
    let start = tokenizer.position();
    proof {
        reveal(scan_token);
        if tokenizer.cursor() < tokenizer.source().len() {
            lemma_scan_token(tokenizer.source(), tokenizer.cursor());
        }
    }
    let b0 = tokenizer.byte_at(0);
    let b1 = tokenizer.byte_at(1);
    let res: (TokenType, TokenValue) = if tokenizer.is_eof() {
        (TokenType::Eof, TokenValue::Absent)
    } else if tokenizer.is_whitespace() {
        tokenizer.emit(1, TokenType::Whitespace)
    } else if Tokenizer::is_digit(b0) {
        tokenizer.read_digit()
    } else if tokenizer.is_escape_char() {
        tokenizer.emit(1, TokenType::Whitespace)
    } else if b0 == '"' as u8 || b0 == '\'' as u8 {
        tokenizer.read_string()
    } else if b0 == '>' as u8 {
        if b1 == '=' as u8 {
            tokenizer.emit(2, TokenType::GreaterOrEqual)
        } else if b1 == '>' as u8 {
            tokenizer.emit(2, TokenType::ShiftRight)
        } else {
            tokenizer.emit(1, TokenType::Greater)
        }
    } else if b0 == '.' as u8 {
        if b1 == '.' as u8 && tokenizer.byte_at(2) == '.' as u8 {
            tokenizer.emit(3, TokenType::Dots)
        } else if b1 == '.' as u8 {
            tokenizer.emit(2, TokenType::Concat)
        } else if Tokenizer::is_digit(b1) {
            tokenizer.read_digit()
        } else {
            tokenizer.emit(1, TokenType::Attr)
        }
    } else if b0 == '=' as u8 {
        if b1 == '=' as u8 {
            tokenizer.emit(2, TokenType::Concat)
        } else {
            tokenizer.emit(1, TokenType::Assign)
        }
    } else if b0 == '<' as u8 {
        if b1 == '=' as u8 {
            tokenizer.emit(2, TokenType::LessOrEqual)
        } else if b1 == '<' as u8 {
            tokenizer.emit(2, TokenType::ShiftLeft)
        } else {
            tokenizer.emit(1, TokenType::Less)
        }
    } else if b0 == '~' as u8 {
        if b1 == '=' as u8 {
            tokenizer.emit(2, TokenType::NotEqual)
        } else {
            tokenizer.emit(1, TokenType::BXor)
        }
    } else if b0 == ':' as u8 {
        if b1 == ':' as u8 {
            tokenizer.emit(2, TokenType::DoubleColon)
        } else {
            tokenizer.emit(1, TokenType::Colon)
        }
    } else if b0 == '[' as u8 {
        if b1 == '[' as u8 {
            tokenizer.advance(2);
            tokenizer.read_multi_line_comment()
        } else {
            tokenizer.emit(1, TokenType::LeftSquareBracket)
        }
    } else if b0 == '-' as u8 {
        if b1 == '-' as u8 && tokenizer.byte_at(2) == '[' as u8 && tokenizer.byte_at(3)
            == '[' as u8 {
            tokenizer.advance(4);
            tokenizer.read_multi_line_comment()
        } else if b1 == '-' as u8 {
            tokenizer.advance(2);
            tokenizer.read_single_line_comment()
        } else {
            tokenizer.emit(1, TokenType::Minus)
        }
    } else {
        tokenizer.read_other_tokens()
    };
    Token { kind: res.0, value: res.1, start, end: tokenizer.position() }
}

/// Lexes the whole of `input`: the tokens in their order, the last of them `Eof`.
///
/// `Eof` is the last token and occurs nowhere else. The spans of the tokens
/// before it cut the input into adjacent pieces, none of them empty, so that
/// their lengths add up to the length of the input and the bytes under them,
/// joined in order, are the input.
pub fn tokenize(input: &[u8]) -> (tokens: Vec<Token>)
    ensures
        token_views(tokens@) == lex(input@),
        tokens@.len() >= 1,
        tokens@.last().kind == TokenType::Eof,
        forall|k: int|
            0 <= k < tokens@.len() - 1 ==> (#[trigger] tokens@[k]).kind != TokenType::Eof,
        spans_adjacent(token_views(tokens@)),
        span_total(token_views(tokens@).drop_last()) == input@.len(),
        spanned_text(input@, token_views(tokens@)) == input@,
{
    let mut tokenizer = Tokenizer::new(input);
    let mut tokens: Vec<Token> = Vec::new();
    assert(token_views(tokens@) + tokens_from(input@, 0) =~= lex(input@));
    loop
        invariant_except_break
            tokenizer.wf(),
            tokenizer.source() == input@,
            lex(input@) == token_views(tokens@) + tokens_from(input@, tokenizer.cursor()),
        ensures
            token_views(tokens@) == lex(input@),
        decreases input@.len() - tokenizer.cursor(),
    {
        let ghost before = tokens@;
        let ghost at = tokenizer.cursor();
        let tok = tokenizer.next();
        let done = tok.kind == TokenType::Eof;
        tokens.push(tok);
        proof {
            assert(token_views(tokens@) =~= token_views(before).push(tok@));
            if at < input@.len() {
                assert(token_views(tokens@) + tokens_from(input@, tokenizer.cursor())
                    =~= token_views(before) + tokens_from(input@, at));
            } else {
                assert(token_views(tokens@) =~= token_views(before) + tokens_from(input@, at));
            }
        }
        if done {
            break ;
        }
    }
    proof {
        lemma_eof_exactly_at_end(input@);
        lemma_spans_cover_input(input@);
        lemma_round_trip(input@);
        let views = token_views(tokens@);
        assert(views.len() == tokens@.len());
        assert(views.last() == tokens@.last()@);
        assert forall|k: int| 0 <= k < tokens@.len() - 1 implies (#[trigger] tokens@[k]).kind
            != TokenType::Eof by {
            assert(views[k] == tokens@[k]@);
        }
    }
    tokens
}

} // verus!
