//! What holds of the lexer on every text of a kind: texts of symbols, blank
//! texts, words, and the operators of two characters.

use vstd::prelude::*;
use crate::lexer::{
    blank, char_at, digit, lemma_run_end, letter, next_lexeme, run_end, scan, symbol_kind,
    token_at, word_kind, CharClass, Scan,
};
use crate::stream::{lemma_lexeme_at, lemma_next_lexeme, lexeme_at};
use crate::tokens::{TokenModel, TokenType};

verus! {

/// The end-of-input token.
pub open spec fn end_of_input() -> TokenModel {
    TokenModel { kind: TokenType::EOF, literal: Seq::empty() }
}

/// Whether `c` is one of the characters of which the operators and
/// delimiters are made.
pub open spec fn symbol_char(c: char) -> bool {
    c == '=' || c == '!' || c == '+' || c == '-' || c == '*' || c == '/' || c == '<' || c == '>'
        || c == ',' || c == ';' || c == '(' || c == ')' || c == '{' || c == '}'
}

/// Whether `s` holds symbol characters only.
pub open spec fn only_symbols(s: Seq<char>) -> bool {
    forall|j: int| 0 <= j < s.len() ==> symbol_char(#[trigger] s[j])
}

/// The kind of the operator or delimiter that `text` spells.
pub open spec fn symbol_of(text: Seq<char>) -> TokenType {
    if text == "=="@ {
        TokenType::Eq
    } else if text == "!="@ {
        TokenType::NotEq
    } else if text.len() == 1 {
        symbol_kind(text[0])
    } else {
        TokenType::Illegal
    }
}

/// Whether `kind` is that of an operator or a delimiter.
pub open spec fn is_symbol(kind: TokenType) -> bool {
    kind != TokenType::Illegal && kind != TokenType::EOF && kind != TokenType::Ident && kind
        != TokenType::Int && kind != TokenType::NewLine && !is_keyword(kind)
}

/// Whether `kind` is that of a keyword.
pub open spec fn is_keyword(kind: TokenType) -> bool {
    kind == TokenType::Function || kind == TokenType::Let || kind == TokenType::True || kind
        == TokenType::False || kind == TokenType::If || kind == TokenType::Else || kind
        == TokenType::Return
}

/// In a text of symbols the token read from a position within the text is
/// the operator or delimiter that stands there, two characters long where
/// `==` or `!=` stands there, and its text is what the cursor passed. At
/// the end of the text the token is the end of the input.
pub proof fn lemma_symbol_token(s: Seq<char>, i: int, line: int)
    requires
        only_symbols(s),
        0 <= i <= s.len(),
    ensures
        ({
            let lx = next_lexeme(s, i, line);
            &&& lx.line == line
            &&& i < s.len() ==> {
                &&& i < lx.end <= s.len()
                &&& lx.token.literal == s.subrange(i, lx.end)
                &&& lx.token.kind == symbol_of(lx.token.literal)
                &&& is_symbol(lx.token.kind)
                &&& lx.end == i + 2 <==> i + 1 < s.len() && (s[i] == '=' || s[i] == '!') && s[i
                    + 1] == '='
                &&& lx.end != i + 2 ==> lx.end == i + 1
            }
            &&& i == s.len() ==> lx.token == end_of_input() && lx.end == i
        }),
{
    reveal_strlit("==");
    reveal_strlit("!=");
    lemma_next_lexeme(s, i, line);
    if i < s.len() {
        let c = s[i];
        assert(symbol_char(c));
        assert(run_end(CharClass::Blank, s, i) == i);
        let sc = token_at(s, i);
        assert(scan(s, i) == sc);
        if i + 1 < s.len() {
            assert(symbol_char(s[i + 1]));
        }
        assert(sc.token.literal =~= s.subrange(i, sc.end));
        if sc.end == i + 2 {
            assert(sc.token.literal =~= "=="@ || sc.token.literal =~= "!="@);
        } else {
            assert(sc.token.literal =~= seq![c]);
            assert(sc.token.literal[0] == c);
            assert(!(sc.token.literal =~= "=="@));
            assert(!(sc.token.literal =~= "!="@));
        }
    }
}

/// The texts of the first `n` tokens of `s`, one behind the other.
pub open spec fn spelling(s: Seq<char>, n: nat) -> Seq<char>
    decreases n,
{
    if n == 0 {
        Seq::empty()
    } else {
        spelling(s, (n - 1) as nat) + lexeme_at(s, (n - 1) as nat).token.literal
    }
}

/// Lexing a text of symbols gives that text again: every token is an
/// operator or a delimiter until the cursor is at the end of the text, the
/// tokens up to any call spell what the cursor has passed, and from the
/// end of the text on every token is the end of the input.
pub proof fn lemma_symbols_lex_to_themselves(s: Seq<char>, n: nat)
    requires
        only_symbols(s),
    ensures
        spelling(s, n + 1) == s.take(lexeme_at(s, n).end),
        lexeme_at(s, n).line == 1,
        is_symbol(lexeme_at(s, n).token.kind) || lexeme_at(s, n).token == end_of_input(),
        lexeme_at(s, n).token == end_of_input() ==> spelling(s, n) == s && forall|m: nat|
            m >= n ==> (#[trigger] lexeme_at(s, m)).token == end_of_input(),
    decreases n,
{
    let start = if n == 0 {
        0
    } else {
        lexeme_at(s, (n - 1) as nat).end
    };
    if n > 0 {
        lemma_symbols_lex_to_themselves(s, (n - 1) as nat);
        lemma_lexeme_at(s, (n - 1) as nat);
    }
    lemma_symbol_token(s, start, 1);
    let lx = lexeme_at(s, n);
    assert(spelling(s, n) == s.take(start)) by {
        if n == 0 {
            assert(spelling(s, 0) =~= s.take(0));
        }
    }
    assert(s.take(start) + s.subrange(start, lx.end) =~= s.take(lx.end));
    if start == s.len() {
        assert(s.take(start) =~= s);
        assert(lx.token.literal =~= Seq::<char>::empty());
        assert(s + lx.token.literal =~= s);
    }
    if lx.token == end_of_input() {
        assert(start == s.len());
        assert forall|m: nat| m >= n implies (#[trigger] lexeme_at(s, m)).token
            == end_of_input() by {
            lemma_stays_at_end(s, n, m);
        }
    }
}

/// Once the cursor is at the end of the text, every later call gives the
/// end of the input, with the cursor and the line count unchanged.
pub proof fn lemma_stays_at_end(s: Seq<char>, n: nat, m: nat)
    requires
        m >= n,
        n == 0 && s.len() == 0 || n > 0 && lexeme_at(s, (n - 1) as nat).end == s.len(),
    ensures
        lexeme_at(s, m).token == end_of_input(),
        lexeme_at(s, m).end == s.len(),
        lexeme_at(s, m).line == lexeme_at(s, n).line,
    decreases m - n,
{
    if m > n {
        lemma_stays_at_end(s, n, (m - 1) as nat);
        lemma_next_lexeme(s, s.len() as int, lexeme_at(s, (m - 1) as nat).line);
    } else if n == 0 {
        lemma_next_lexeme(s, 0, 1);
    } else {
        lemma_next_lexeme(s, s.len() as int, lexeme_at(s, (n - 1) as nat).line);
    }
}

/// Whether `s` holds nothing but spaces, tabs and line breaks: `\n`, or
/// `\r` with `\n` behind it.
pub open spec fn only_blank(s: Seq<char>) -> bool {
    forall|j: int|
        0 <= j < s.len() ==> {
            let c = #[trigger] s[j];
            blank(c) || c == '\n' || (c == '\r' && j + 1 < s.len() && s[j + 1] == '\n')
        }
}

/// From any position of a blank text the lexer gives the end of the
/// input and stands at the end of the text.
pub proof fn lemma_blank_tail(s: Seq<char>, i: int, line: int)
    requires
        only_blank(s),
        0 <= i <= s.len(),
    ensures
        next_lexeme(s, i, line).token == end_of_input(),
        next_lexeme(s, i, line).end == s.len(),
    decreases s.len() - i,
{
    lemma_run_end(CharClass::Blank, s, i);
    let p = run_end(CharClass::Blank, s, i);
    let sc = scan(s, i);
    if p < s.len() {
        let c = s[p];
        assert(c == '\n' || (c == '\r' && s[p + 1] == '\n'));
        assert(sc.token.kind == TokenType::NewLine);
        assert(i < sc.end <= s.len());
        lemma_blank_tail(s, sc.end, line + 1);
    }
}

/// The tokens of a blank text are the end of the input and nothing else:
/// every call of the lexer gives it, the first one too.
pub proof fn lemma_blank_text(s: Seq<char>, n: nat)
    requires
        only_blank(s),
    ensures
        lexeme_at(s, n).token == end_of_input(),
        lexeme_at(s, n).end == s.len(),
    decreases n,
{
    if n == 0 {
        lemma_blank_tail(s, 0, 1);
    } else {
        lemma_blank_text(s, (n - 1) as nat);
        let before = lexeme_at(s, (n - 1) as nat);
        lemma_blank_tail(s, before.end, before.line);
    }
}

/// The keyword table: each of the seven keywords has its kind, and every
/// other word is an identifier.
pub proof fn lemma_keyword_table(w: Seq<char>)
    ensures
        w == "fn"@ <==> word_kind(w) == TokenType::Function,
        w == "let"@ <==> word_kind(w) == TokenType::Let,
        w == "true"@ <==> word_kind(w) == TokenType::True,
        w == "false"@ <==> word_kind(w) == TokenType::False,
        w == "if"@ <==> word_kind(w) == TokenType::If,
        w == "else"@ <==> word_kind(w) == TokenType::Else,
        w == "return"@ <==> word_kind(w) == TokenType::Return,
        is_keyword(word_kind(w)) || word_kind(w) == TokenType::Ident,
        "Let"@ != "let"@,
{
    reveal_strlit("fn");
    reveal_strlit("let");
    reveal_strlit("true");
    reveal_strlit("false");
    reveal_strlit("if");
    reveal_strlit("else");
    reveal_strlit("return");
    reveal_strlit("Let");
    assert("fn"@ =~= seq!['f', 'n']);
    assert("let"@ =~= seq!['l', 'e', 't']);
    assert("true"@ =~= seq!['t', 'r', 'u', 'e']);
    assert("false"@ =~= seq!['f', 'a', 'l', 's', 'e']);
    assert("if"@ =~= seq!['i', 'f']);
    assert("else"@ =~= seq!['e', 'l', 's', 'e']);
    assert("return"@ =~= seq!['r', 'e', 't', 'u', 'r', 'n']);
    assert("Let"@[0] != "let"@[0]);
    assert(seq!['f', 'n'][0] != seq!['i', 'f'][0]);
    assert(seq!['t', 'r', 'u', 'e'][0] != seq!['e', 'l', 's', 'e'][0]);
}

/// Where a letter stands, the token is a word: the maximal run of letters
/// from there, as the keyword that it spells or else as an identifier.
pub proof fn lemma_word_token(s: Seq<char>, p: int)
    requires
        0 <= p < s.len(),
        letter(s[p]),
    ensures
        ({
            let t = token_at(s, p);
            &&& p < t.end <= s.len()
            &&& t.token.literal == s.subrange(p, t.end)
            &&& t.token.kind == word_kind(t.token.literal)
            &&& forall|j: int| p <= j < t.end ==> letter(#[trigger] s[j])
            &&& !letter(char_at(s, t.end))
        }),
{
    lemma_run_end(CharClass::Letter, s, p);
    assert(run_end(CharClass::Letter, s, p) == run_end(CharClass::Letter, s, p + 1));
    lemma_run_end(CharClass::Letter, s, p + 1);
}

/// Where a digit stands, the token is a number: the maximal run of digits
/// from there.
pub proof fn lemma_number_token(s: Seq<char>, p: int)
    requires
        0 <= p < s.len(),
        digit(s[p]),
    ensures
        ({
            let t = token_at(s, p);
            &&& p < t.end <= s.len()
            &&& t.token == (TokenModel { kind: TokenType::Int, literal: s.subrange(p, t.end) })
            &&& forall|j: int| p <= j < t.end ==> digit(#[trigger] s[j])
            &&& !digit(char_at(s, t.end))
        }),
{
    lemma_run_end(CharClass::Digit, s, p);
    assert(run_end(CharClass::Digit, s, p) == run_end(CharClass::Digit, s, p + 1));
    lemma_run_end(CharClass::Digit, s, p + 1);
}

/// `=` and `!` take a `=` that follows at once into their token: `==` and
/// `!=` are one token each, never two. Before anything else, and at the end
/// of the text, `=` and `!` are tokens by themselves.
pub proof fn lemma_maximal_munch(s: Seq<char>, p: int)
    requires
        0 <= p < s.len(),
        s[p] == '=' || s[p] == '!',
    ensures
        char_at(s, p + 1) == '=' ==> token_at(s, p) == (Scan {
            token: TokenModel {
                kind: if s[p] == '=' {
                    TokenType::Eq
                } else {
                    TokenType::NotEq
                },
                literal: s.subrange(p, p + 2),
            },
            end: p + 2,
        }),
        char_at(s, p + 1) != '=' ==> token_at(s, p) == (Scan {
            token: TokenModel {
                kind: if s[p] == '=' {
                    TokenType::Assign
                } else {
                    TokenType::Bang
                },
                literal: s.subrange(p, p + 1),
            },
            end: p + 1,
        }),
{
    if char_at(s, p + 1) == '=' {
        assert(s.subrange(p, p + 2) =~= seq![s[p], '=']);
    } else {
        assert(s.subrange(p, p + 1) =~= seq![s[p]]);
    }
}

} // verus!
