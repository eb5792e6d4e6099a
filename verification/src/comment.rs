//! Line comments and block comments.

use vstd::prelude::*;
use crate::classes::{is_escape_byte, lemma_run_end, peek, run_end, ByteClass, EOF_SENTINEL};
use crate::token::{Scan, TokenType, TokenValue, ValueView};
use crate::tokenizer::Tokenizer;

verus! {

/// The line comment whose body starts at `i`, after the opener `--`.
///
/// The body runs up to the next newline or, where there is none, to the end
/// of the input. The newline is consumed and is no part of the value.
pub open spec fn scan_line_comment(s: Seq<u8>, i: int) -> Scan {
    let stop = run_end(s, i, ByteClass::LineBody);
    Scan {
        kind: TokenType::SingleComment,
        value: ValueView::Str(s.subrange(i, stop)),
        end: if stop < s.len() {
            stop + 1
        } else {
            stop
        },
    }
}

/// Whether the closing delimiter `]]` stands at index `i`.
pub open spec fn closes_block_at(s: Seq<u8>, i: int) -> bool {
    peek(s, i) == ']' as u8 && peek(s, i + 1) == ']' as u8
}

/// Where the scan of a block comment stops that has come to index `i`: at
/// the first index from `i` on where the closing delimiter stands, or at the
/// end of the input where it stands nowhere. Every other byte is a byte of the
/// body, the byte `0x03` too.
pub open spec fn block_stop(s: Seq<u8>, i: int) -> int
    decreases s.len() - i,
{
    if !(0 <= i < s.len()) {
        s.len() as int
    } else if closes_block_at(s, i) {
        i
    } else {
        block_stop(s, i + 1)
    }
}

/// The text of a block comment with the body `body`: the bytes of the body
/// in their order, without those of the escape class.
pub open spec fn comment_text(body: Seq<u8>) -> Seq<u8> {
    body.filter(|b: u8| !is_escape_byte(b))
}

/// The block comment whose body starts at `i`, after the opener `[[` or
/// `--[[`.
///
/// Only the two bytes `]]` close it, and the first `]]` does. A comment that
/// is still open where the input ends is told apart from a closed one by its
/// kind; both carry the text of their body.
pub open spec fn scan_block_comment(s: Seq<u8>, i: int) -> Scan {
    let stop = block_stop(s, i);
    let text = ValueView::Str(comment_text(s.subrange(i, stop)));
    if closes_block_at(s, stop) {
        Scan { kind: TokenType::MultiLineComment, value: text, end: stop + 2 }
    } else {
        Scan { kind: TokenType::UnterminatedComment, value: text, end: stop }
    }
}

/// The scan of a block comment never leaves the input and never goes back;
/// it passes no closing delimiter, and it stops at one or at the end of the
/// input.
pub proof fn lemma_block_stop(s: Seq<u8>, i: int)
    requires
        0 <= i <= s.len(),
    ensures
        i <= block_stop(s, i) <= s.len(),
        forall|j: int| i <= j < block_stop(s, i) ==> !#[trigger] closes_block_at(s, j),
        block_stop(s, i) < s.len() ==> closes_block_at(s, block_stop(s, i)),
    decreases s.len() - i,
{
    if i < s.len() && !closes_block_at(s, i) {
        lemma_block_stop(s, i + 1);
    }
}

/// A block comment is closed exactly when `]]` stands somewhere from the
/// start of its body on. It then ends behind the first `]]`, and its text is
/// the body before that `]]` without the bytes of the escape class.
pub proof fn lemma_block_comment_closed(s: Seq<u8>, i: int, k: int)
    requires
        0 <= i <= k,
        closes_block_at(s, k),
        forall|j: int| i <= j < k ==> !#[trigger] closes_block_at(s, j),
    ensures
        scan_block_comment(s, i).kind == TokenType::MultiLineComment,
        scan_block_comment(s, i).end == k + 2,
        scan_block_comment(s, i).value == ValueView::Str(comment_text(s.subrange(i, k))),
{
    lemma_block_stop(s, i);
    let stop = block_stop(s, i);
    if stop < k {
        assert(closes_block_at(s, stop));
    } else if stop > k {
        assert(!closes_block_at(s, k));
    }
}

/// A block comment is unterminated exactly when `]]` stands nowhere from the
/// start of its body on. It then ends where the input ends, and its text is
/// the rest of the input without the bytes of the escape class.
pub proof fn lemma_block_comment_open(s: Seq<u8>, i: int)
    requires
        0 <= i <= s.len(),
    ensures
        scan_block_comment(s, i).kind == TokenType::UnterminatedComment <==> forall|j: int|
            i <= j ==> !#[trigger] closes_block_at(s, j),
        scan_block_comment(s, i).kind == TokenType::UnterminatedComment ==> scan_block_comment(
            s,
            i,
        ).end == s.len() && scan_block_comment(s, i).value == ValueView::Str(
            comment_text(s.subrange(i, s.len() as int)),
        ),
        scan_block_comment(s, i).kind == TokenType::MultiLineComment || scan_block_comment(
            s,
            i,
        ).kind == TokenType::UnterminatedComment,
{
    lemma_block_stop(s, i);
    let stop = block_stop(s, i);
    if !closes_block_at(s, stop) {
        assert(stop == s.len());
        assert forall|j: int| i <= j implies !#[trigger] closes_block_at(s, j) by {
            if j >= s.len() {
                assert(peek(s, j) == EOF_SENTINEL);
            }
        }
    }
}

/// A comment ends within the input, at or after the start of its body.
pub proof fn lemma_scan_comment(s: Seq<u8>, i: int)
    requires
        0 <= i <= s.len(),
    ensures
        i <= scan_line_comment(s, i).end <= s.len(),
        i <= scan_block_comment(s, i).end <= s.len(),
{
    lemma_run_end(s, i, ByteClass::LineBody);
    lemma_block_stop(s, i);
}

/// The text of a body that grows by one byte: the byte is appended unless it
/// belongs to the escape class.
proof fn lemma_comment_text_push(body: Seq<u8>, b: u8)
    ensures
        comment_text(body.push(b)) == if is_escape_byte(b) {
            comment_text(body)
        } else {
            comment_text(body).push(b)
        },
{
    reveal(Seq::filter);
    assert(body.push(b).drop_last() =~= body);
}

impl<'a> Tokenizer<'a> {
    /// Reads the body of a line comment; the cursor stands after the opener.
    pub fn read_single_line_comment(&mut self) -> (res: (TokenType, TokenValue))
        ensures
            final(self).source() == old(self).source(),
            final(self).cursor() == scan_line_comment(
                old(self).source(),
                old(self).cursor(),
            ).end,
            res.0 == TokenType::SingleComment,
            res.1@ == scan_line_comment(old(self).source(), old(self).cursor()).value,
            old(self).cursor() <= final(self).cursor() <= old(self).source().len(),
    {
        let start = self.position();
        self.skip_run(ByteClass::LineBody);
        let stop = self.position();
        let comment = self.copy_range(start, stop);
        proof {
            lemma_run_end(self.source(), start as int, ByteClass::LineBody);
        }
        if !self.is_eof() {
            self.advance(1);
        }
        (TokenType::SingleComment, TokenValue::Str(comment))
    }

    /// Reads the body of a block comment; the cursor stands after the opener.
    ///
    /// The scan ends behind the first closing delimiter `]]`, or at the end of
    /// the input where there is none; the comment is then unterminated. A byte
    /// of the input with the sentinel's value is a byte of the body.
    pub fn read_multi_line_comment(&mut self) -> (res: (TokenType, TokenValue))
        ensures
            final(self).source() == old(self).source(),
            final(self).cursor() == scan_block_comment(
                old(self).source(),
                old(self).cursor(),
            ).end,
            res.0 == scan_block_comment(old(self).source(), old(self).cursor()).kind,
            res.1@ == scan_block_comment(old(self).source(), old(self).cursor()).value,
            old(self).cursor() <= final(self).cursor() <= old(self).source().len(),
    {
        let mut comment: Vec<u8> = Vec::new();
        let ghost start = self.cursor();
        proof {
            use_type_invariant(&*self);
            assert(self.source().subrange(start, start) =~= Seq::<u8>::empty());
            reveal(Seq::filter);
        }
        loop
            invariant
                self.wf(),
                self.source() == old(self).source(),
                start == old(self).cursor(),
                0 <= start <= self.cursor(),
                block_stop(self.source(), self.cursor()) == block_stop(self.source(), start),
                comment@ == comment_text(self.source().subrange(start, self.cursor())),
            decreases self.source().len() - self.cursor(),
        {
            if self.is_eof() {
                return (TokenType::UnterminatedComment, TokenValue::Str(comment));
            }
            let b = self.byte_at(0);
            proof {
                let body = self.source().subrange(start, self.cursor());
                lemma_comment_text_push(body, b);
                assert(body.push(b) =~= self.source().subrange(start, self.cursor() + 1));
            }
            if Self::is_escape(b) {
                self.advance(1);
            } else if b == ']' as u8 && self.byte_at(1) == ']' as u8 {
                self.advance(2);
                return (TokenType::MultiLineComment, TokenValue::Str(comment));
            } else {
                comment.push(b);
                self.advance(1);
            }
        }
    }
}

} // verus!
