//! What holds of the token sequence of every input.

use vstd::prelude::*;
use crate::lexer::{lemma_scan_at_end, lemma_scan_token, lex, token_at, tokens_from};
use crate::token::{TokenType, TokenView};

verus! {

/// The sum of the lengths of the spans of `tokens`.
pub open spec fn span_total(tokens: Seq<TokenView>) -> int
    decreases tokens.len(),
{
    if tokens.len() == 0 {
        0
    } else {
        (tokens.first().end - tokens.first().start) + span_total(tokens.drop_first())
    }
}

/// The bytes of `s` under the spans of `tokens`, one span after the other in
/// the order of the tokens.
pub open spec fn spanned_text(s: Seq<u8>, tokens: Seq<TokenView>) -> Seq<u8>
    decreases tokens.len(),
{
    if tokens.len() == 0 {
        Seq::empty()
    } else {
        s.subrange(tokens.first().start, tokens.first().end) + spanned_text(
            s,
            tokens.drop_first(),
        )
    }
}

/// The kinds of `tokens`, in their order.
pub open spec fn kinds(tokens: Seq<TokenView>) -> Seq<TokenType> {
    tokens.map_values(|t: TokenView| t.kind)
}

/// Whether every token of `tokens` but the last has a span that is not empty
/// and ends where the span of the next token starts.
pub open spec fn spans_adjacent(tokens: Seq<TokenView>) -> bool {
    forall|j: int, k: int|
        0 <= j && k == j + 1 && k < tokens.len() ==> (#[trigger] tokens[j]).start < tokens[j].end
            == (#[trigger] tokens[k]).start
}

/// The tokens from an offset on start at that offset, follow one another
/// without gap or overlap, and end with the only `Eof`, which is empty and
/// stands at the end of the input.
pub proof fn lemma_tokens_from(s: Seq<u8>, i: int)
    requires
        0 <= i <= s.len(),
    ensures
        tokens_from(s, i).len() >= 1,
        tokens_from(s, i).first().start == i,
        tokens_from(s, i).last().kind == TokenType::Eof,
        tokens_from(s, i).last().start == s.len(),
        tokens_from(s, i).last().end == s.len(),
        forall|k: int|
            0 <= k < tokens_from(s, i).len() - 1 ==> (#[trigger] tokens_from(s, i)[k]).kind
                != TokenType::Eof,
        spans_adjacent(tokens_from(s, i)),
        span_total(tokens_from(s, i)) == s.len() - i,
        span_total(tokens_from(s, i).drop_last()) == s.len() - i,
        spanned_text(s, tokens_from(s, i)) == s.subrange(i, s.len() as int),
        spanned_text(s, tokens_from(s, i).drop_last()) == s.subrange(i, s.len() as int),
    decreases s.len() - i,
{
    let ts = tokens_from(s, i);
    let t = token_at(s, i);
    if i < s.len() {
        lemma_scan_token(s, i);
        let rest = tokens_from(s, t.end);
        lemma_tokens_from(s, t.end);
        assert(ts == seq![t] + rest);
        assert(ts.drop_first() =~= rest);
        assert(ts.drop_last() =~= seq![t] + rest.drop_last());
        assert(ts.drop_last().drop_first() =~= rest.drop_last());
        assert forall|k: int| 0 <= k < ts.len() - 1 implies (#[trigger] ts[k]).kind
            != TokenType::Eof by {
            if k > 0 {
                assert(ts[k] == rest[k - 1]);
            }
        }
        assert forall|j: int, k: int| 0 <= j && k == j + 1 && k < ts.len() implies (
        #[trigger] ts[j]).start < ts[j].end == (#[trigger] ts[k]).start by {
            assert(ts[k] == rest[k - 1]);
            if j > 0 {
                assert(ts[j] == rest[j - 1]);
            }
        }
        assert(s.subrange(i, t.end) + s.subrange(t.end, s.len() as int) =~= s.subrange(
            i,
            s.len() as int,
        ));
    } else {
        lemma_scan_at_end(s, i);
        assert(ts == seq![t]);
        assert(ts.drop_first() =~= Seq::<TokenView>::empty());
        assert(ts.drop_last() =~= Seq::<TokenView>::empty());
        assert(span_total(Seq::<TokenView>::empty()) == 0);
        assert(spanned_text(s, Seq::<TokenView>::empty()) == Seq::<u8>::empty());
        assert(s.subrange(i, s.len() as int) =~= Seq::<u8>::empty());
    }
}

/// The token sequence of every input ends with `Eof`, and `Eof` occurs
/// nowhere else in it.
pub proof fn lemma_eof_exactly_at_end(s: Seq<u8>)
    ensures
        lex(s).len() >= 1,
        lex(s).last().kind == TokenType::Eof,
        forall|k: int| 0 <= k < lex(s).len() - 1 ==> (#[trigger] lex(s)[k]).kind != TokenType::Eof,
{
    lemma_tokens_from(s, 0);
}

/// Forward progress: the spans of the tokens before `Eof` start at offset 0,
/// are not empty, follow one another without gap or overlap, and their lengths
/// add up to the length of the input. No byte is skipped or counted twice.
pub proof fn lemma_spans_cover_input(s: Seq<u8>)
    ensures
        lex(s).first().start == 0,
        spans_adjacent(lex(s)),
        lex(s).last().start == s.len(),
        span_total(lex(s).drop_last()) == s.len(),
{
    lemma_tokens_from(s, 0);
}

/// Round trip: the bytes under the spans of the tokens, joined in the order
/// of the tokens, are the input.
pub proof fn lemma_round_trip(s: Seq<u8>)
    ensures
        spanned_text(s, lex(s)) == s,
        spanned_text(s, lex(s).drop_last()) == s,
{
    lemma_tokens_from(s, 0);
    assert(s.subrange(0, s.len() as int) =~= s);
}

/// Idempotence: lexing the text that the spans of the tokens rebuild gives
/// tokens of the same kinds, in the same order, as lexing the input.
pub proof fn lemma_relex_same_kinds(s: Seq<u8>)
    ensures
        kinds(lex(spanned_text(s, lex(s)))) == kinds(lex(s)),
{
    lemma_round_trip(s);
}

} // verus!
