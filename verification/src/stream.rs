//! The tokens of a text as a sequence: what repeated calls of the lexer
//! give, from the first token to the end of the input.

use vstd::prelude::*;
use crate::grammar::{line_at, tok};
use crate::lexer::{lemma_run_end, lemma_scan_advances, next_lexeme, scan, CharClass, Lexeme};
use crate::tokens::{TokenModel, TokenType};

verus! {

/// The token that the lexer gives on call `n` (counted from 0) on the
/// text `s`, with its line and the cursor's position behind it.
pub open spec fn lexeme_at(s: Seq<char>, n: nat) -> Lexeme
    decreases n,
{
    if n == 0 {
        next_lexeme(s, 0, 1)
    } else {
        let before = lexeme_at(s, (n - 1) as nat);
        next_lexeme(s, before.end, before.line)
    }
}

/// The tokens of `s`: one for each call of the lexer, as many calls as
/// `s` has characters and one more. The cursor is then at the end of the
/// text, and every later call gives the end-of-input token.
#[verifier::opaque]
pub open spec fn tokens(s: Seq<char>) -> Seq<Lexeme> {
    Seq::new(s.len() + 1, |n: int| lexeme_at(s, n as nat))
}

/// The token that the lexer gives from `i` is no line break and ends
/// between `i` and the end of the text, behind `i` where `i` is within the
/// text. Its line is `line` and one more for each line break passed.
pub proof fn lemma_next_lexeme(s: Seq<char>, i: int, line: int)
    requires
        0 <= i <= s.len(),
    ensures
        next_lexeme(s, i, line).token.kind != TokenType::NewLine,
        i <= next_lexeme(s, i, line).end <= s.len(),
        i < s.len() ==> i < next_lexeme(s, i, line).end,
        line <= next_lexeme(s, i, line).line <= line + (next_lexeme(s, i, line).end - i),
        i == s.len() ==> next_lexeme(s, i, line) == (Lexeme {
            token: TokenModel { kind: TokenType::EOF, literal: Seq::empty() },
            end: i,
            line,
        }),
    decreases s.len() - i,
{
    lemma_scan_advances(s, i);
    lemma_run_end(CharClass::Blank, s, i);
    let sc = scan(s, i);
    if sc.token.kind == TokenType::NewLine && i < sc.end {
        lemma_next_lexeme(s, sc.end, line + 1);
    }
}

/// After call `n` the cursor is behind at least `n + 1` characters, or at
/// the end of the text; the line count is at least 1 and at most one more
/// than the cursor's position.
pub proof fn lemma_lexeme_at(s: Seq<char>, n: nat)
    ensures
        lexeme_at(s, n).end <= s.len(),
        n + 1 <= lexeme_at(s, n).end || lexeme_at(s, n).end == s.len(),
        1 <= lexeme_at(s, n).line <= lexeme_at(s, n).end + 1,
        lexeme_at(s, n).token.kind != TokenType::NewLine,
    decreases n,
{
    if n == 0 {
        lemma_next_lexeme(s, 0, 1);
    } else {
        lemma_lexeme_at(s, (n - 1) as nat);
        let before = lexeme_at(s, (n - 1) as nat);
        lemma_next_lexeme(s, before.end, before.line);
    }
}

/// From call `s.len()` on the lexer gives the end-of-input token, with
/// the cursor at the end of the text and the line count unchanged.
pub proof fn lemma_past_end(s: Seq<char>, n: nat)
    requires
        n >= s.len(),
    ensures
        lexeme_at(s, n) == (Lexeme {
            token: TokenModel { kind: TokenType::EOF, literal: Seq::empty() },
            end: s.len() as int,
            line: lexeme_at(s, s.len()).line,
        }),
    decreases n,
{
    if n == 0 {
        lemma_next_lexeme(s, 0, 1);
    } else {
        lemma_lexeme_at(s, (n - 1) as nat);
        let before = lexeme_at(s, (n - 1) as nat);
        lemma_next_lexeme(s, before.end, before.line);
        if n > s.len() {
            lemma_past_end(s, (n - 1) as nat);
        }
    }
}

/// The sequence of tokens holds at every position what the lexer gives on
/// the call of that number, also behind its last token.
pub proof fn lemma_tokens(s: Seq<char>, n: nat)
    ensures
        tok(tokens(s), n as int) == lexeme_at(s, n).token,
        line_at(tokens(s), n as int) == lexeme_at(s, n).line,
{
    reveal(tokens);
    if n > s.len() {
        lemma_past_end(s, n);
        lemma_past_end(s, s.len());
    }
}

} // verus!
