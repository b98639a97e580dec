//! The lexer: from source characters to tokens, one token per call.

use vstd::prelude::*;
use vstd::std_specs::iter::IteratorSpec;
use crate::text::{push_char, string_of};
use crate::tokens::{Token, TokenModel, TokenType};

verus! {

/// The three kinds of character of which the lexer reads maximal runs.
#[derive(Debug, Clone, Copy, PartialEq, Eq, Structural)]
pub enum CharClass {
    /// Space and tab.
    Blank,
    /// `A` to `Z`, `a` to `z` and `_`.
    Letter,
    /// `0` to `9`.
    Digit,
}

/// Whether `c` can stand in an identifier.
pub open spec fn letter(c: char) -> bool {
    ('a' <= c && c <= 'z') || ('A' <= c && c <= 'Z') || c == '_'
}

/// Whether `c` is a decimal digit.
pub open spec fn digit(c: char) -> bool {
    '0' <= c && c <= '9'
}

/// Whether `c` is a space or a tab.
pub open spec fn blank(c: char) -> bool {
    c == ' ' || c == '\t'
}

/// Whether `c` belongs to `class`.
pub open spec fn in_class(class: CharClass, c: char) -> bool {
    match class {
        CharClass::Blank => blank(c),
        CharClass::Letter => letter(c),
        CharClass::Digit => digit(c),
    }
}

/// The character under a cursor at `i`: that of the text, and NUL past its end.
pub open spec fn char_at(s: Seq<char>, i: int) -> char {
    if 0 <= i < s.len() {
        s[i]
    } else {
        '\0'
    }
}

/// Where the maximal run of `class` characters that starts at `i` ends: the
/// first position from `i` on that holds no such character.
pub open spec fn run_end(class: CharClass, s: Seq<char>, i: int) -> int
    decreases s.len() - i,
{
    if 0 <= i < s.len() && in_class(class, s[i]) {
        run_end(class, s, i + 1)
    } else {
        i
    }
}

/// The kind of a word: that of the keyword it spells, else an identifier.
pub open spec fn word_kind(w: Seq<char>) -> TokenType {
    if w == seq!['f', 'n'] {
        TokenType::Function
    } else if w == seq!['l', 'e', 't'] {
        TokenType::Let
    } else if w == seq!['t', 'r', 'u', 'e'] {
        TokenType::True
    } else if w == seq!['f', 'a', 'l', 's', 'e'] {
        TokenType::False
    } else if w == seq!['i', 'f'] {
        TokenType::If
    } else if w == seq!['e', 'l', 's', 'e'] {
        TokenType::Else
    } else if w == seq!['r', 'e', 't', 'u', 'r', 'n'] {
        TokenType::Return
    } else {
        TokenType::Ident
    }
}

/// The kind of the token that the single character `c` makes.
pub open spec fn symbol_kind(c: char) -> TokenType {
    if c == '=' {
        TokenType::Assign
    } else if c == '+' {
        TokenType::Plus
    } else if c == '-' {
        TokenType::Minus
    } else if c == '!' {
        TokenType::Bang
    } else if c == '*' {
        TokenType::Asterisk
    } else if c == '/' {
        TokenType::Slash
    } else if c == '<' {
        TokenType::Lt
    } else if c == '>' {
        TokenType::Gt
    } else if c == ',' {
        TokenType::Comma
    } else if c == ';' {
        TokenType::Semicolon
    } else if c == '(' {
        TokenType::LParen
    } else if c == ')' {
        TokenType::RParen
    } else if c == '{' {
        TokenType::LBrace
    } else if c == '}' {
        TokenType::RBrace
    } else if c == '\n' {
        TokenType::NewLine
    } else {
        TokenType::Illegal
    }
}

/// A token and the position of the cursor behind it.
pub struct Scan {
    pub token: TokenModel,
    pub end: int,
}

/// The token that starts at `p`, where no blank stands, line breaks included.
pub open spec fn token_at(s: Seq<char>, p: int) -> Scan {
    let c = char_at(s, p);
    let next = char_at(s, p + 1);
    if letter(c) {
        let e = run_end(CharClass::Letter, s, p);
        let w = s.subrange(p, e);
        Scan { token: TokenModel { kind: word_kind(w), literal: w }, end: e }
    } else if digit(c) {
        let e = run_end(CharClass::Digit, s, p);
        Scan { token: TokenModel { kind: TokenType::Int, literal: s.subrange(p, e) }, end: e }
    } else if c == '=' && next == '=' {
        Scan { token: TokenModel { kind: TokenType::Eq, literal: seq!['=', '='] }, end: p + 2 }
    } else if c == '!' && next == '=' {
        Scan { token: TokenModel { kind: TokenType::NotEq, literal: seq!['!', '='] }, end: p + 2 }
    } else if c == '\r' && next == '\n' {
        Scan {
            token: TokenModel { kind: TokenType::NewLine, literal: seq!['\r', '\n'] },
            end: p + 2,
        }
    } else if c == '\0' {
        Scan {
            token: TokenModel { kind: TokenType::EOF, literal: Seq::empty() },
            end: if p < s.len() { p + 1 } else { p },
        }
    } else {
        Scan { token: TokenModel { kind: symbol_kind(c), literal: seq![c] }, end: p + 1 }
    }
}

/// The token that starts at or after `i`, behind any blanks, line breaks
/// included.
pub open spec fn scan(s: Seq<char>, i: int) -> Scan {
    token_at(s, run_end(CharClass::Blank, s, i))
}

/// A token that is no line break, the position behind it, and the number of
/// the line on which it stands.
pub struct Lexeme {
    pub token: TokenModel,
    pub end: int,
    pub line: int,
}

/// The first token at or after `i` that is no line break, where `i` is on
/// line `line`: each line break on the way adds one to the line.
pub open spec fn next_lexeme(s: Seq<char>, i: int, line: int) -> Lexeme
    decreases s.len() - i,
{
    let sc = scan(s, i);
    if sc.token.kind == TokenType::NewLine && i < sc.end {
        next_lexeme(s, sc.end, line + 1)
    } else {
        Lexeme { token: sc.token, end: sc.end, line }
    }
}

/// A run ends between its start and the end of the text (or where it starts,
/// if that is elsewhere), holds only characters of its class, and what
/// follows it is none of them.
pub proof fn lemma_run_end(class: CharClass, s: Seq<char>, i: int)
    ensures
        i <= run_end(class, s, i),
        0 <= i <= s.len() ==> run_end(class, s, i) <= s.len(),
        forall|j: int| i <= j < run_end(class, s, i) ==> 0 <= j < s.len() && in_class(class, #[trigger] s[j]),
        !in_class(class, char_at(s, run_end(class, s, i))) || !(0 <= i <= s.len()),
    decreases s.len() - i,
{
    if 0 <= i < s.len() && in_class(class, s[i]) {
        lemma_run_end(class, s, i + 1);
    }
}

/// A token ends behind the place where its scan began, but at the end of
/// the text, and never behind the end.
pub proof fn lemma_scan_advances(s: Seq<char>, i: int)
    requires
        0 <= i <= s.len(),
    ensures
        i <= scan(s, i).end <= s.len(),
        i < s.len() ==> i < scan(s, i).end,
{
    let p = run_end(CharClass::Blank, s, i);
    lemma_run_end(CharClass::Blank, s, i);
    lemma_run_end(CharClass::Letter, s, p);
    lemma_run_end(CharClass::Digit, s, p);
    if p < s.len() {
        let c = s[p];
        if letter(c) {
            assert(run_end(CharClass::Letter, s, p) == run_end(CharClass::Letter, s, p + 1));
            lemma_run_end(CharClass::Letter, s, p + 1);
        } else if digit(c) {
            assert(run_end(CharClass::Digit, s, p) == run_end(CharClass::Digit, s, p + 1));
            lemma_run_end(CharClass::Digit, s, p + 1);
        }
    }
}

/// Why a lexer could not be made.
#[derive(Debug, Clone, Copy, PartialEq, Eq, Structural)]
pub enum LexerError {
    /// The text holds no character.
    EmptyInput,
}

impl LexerError {
    /// The error in words.
    pub fn message(&self) -> (text: String)
        ensures
            text@ == "no character found at position 0 of the given text"@,
    {
        "no character found at position 0 of the given text".to_owned()
    }
}

/// A cursor over a text.
pub struct Lexer {
    /// The text, character by character.
    input: Vec<char>,
    /// Where the cursor stands: at a character of the text or at its end.
    position: usize,
    /// The position behind the cursor.
    read_position: usize,
    /// The character under the cursor, NUL at the end of the text.
    pub ch: char,
    /// The number of the line on which the cursor stands, counted from 1.
    line: usize,
}

/// What a lexer is, as plain values.
pub struct LexerModel {
    pub input: Seq<char>,
    pub position: int,
    pub line: int,
}

impl View for Lexer {
    type V = LexerModel;

    closed spec fn view(&self) -> LexerModel {
        LexerModel { input: self.input@, position: self.position as int, line: self.line as int }
    }
}

/// Whether `c` can stand in an identifier.
pub fn is_letter(c: char) -> (b: bool)
    ensures
        b == letter(c),
{
    ('a' <= c && c <= 'z') || ('A' <= c && c <= 'Z') || c == '_'
}

/// Whether `c` is a decimal digit.
pub fn is_digit(c: char) -> (b: bool)
    ensures
        b == digit(c),
{
    '0' <= c && c <= '9'
}

/// Whether `c` belongs to `class`.
pub fn is_in_class(class: CharClass, c: char) -> (b: bool)
    ensures
        b == in_class(class, c),
{
    match class {
        CharClass::Blank => c == ' ' || c == '\t',
        CharClass::Letter => is_letter(c),
        CharClass::Digit => is_digit(c),
    }
}

/// Whether `word` spells `text`.
fn spells(word: &Vec<char>, text: &str) -> (b: bool)
    ensures
        b == (word@ == text@),
{
    let mut rest = text.chars();
    let mut i: usize = 0;
    loop
        invariant
            rest.obeys_prophetic_iter_laws(),
            rest.decrease() is Some,
            i <= word.len(),
            word@.take(i as int) + rest.remaining() == text@,
        decreases rest.decrease()->0,
    {
        let ghost ahead = rest.remaining();
        match rest.next() {
            Some(c) => {
                assert(text@[i as int] == c) by {
                    assert((word@.take(i as int) + ahead)[i as int] == ahead[0]);
                }
                if i >= word.len() || word[i] != c {
                    return false;
                }
                i += 1;
                assert(word@.take(i as int) + rest.remaining() =~= text@);
            },
            None => {
                assert(word@.take(i as int) + ahead =~= word@.take(i as int));
                assert(word@.take(word.len() as int) =~= word@);
                return i == word.len();
            },
        }
    }
}

/// The kind of a word: that of the keyword it spells, else an identifier.
pub fn keyword_or_ident(word: &Vec<char>) -> (kind: TokenType)
    ensures
        kind == word_kind(word@),
{
    proof {
        reveal_strlit("fn");
        reveal_strlit("let");
        reveal_strlit("true");
        reveal_strlit("false");
        reveal_strlit("if");
        reveal_strlit("else");
        reveal_strlit("return");
        assert("fn"@ =~= seq!['f', 'n']);
        assert("let"@ =~= seq!['l', 'e', 't']);
        assert("true"@ =~= seq!['t', 'r', 'u', 'e']);
        assert("false"@ =~= seq!['f', 'a', 'l', 's', 'e']);
        assert("if"@ =~= seq!['i', 'f']);
        assert("else"@ =~= seq!['e', 'l', 's', 'e']);
        assert("return"@ =~= seq!['r', 'e', 't', 'u', 'r', 'n']);
    }
    if spells(word, "fn") {
        TokenType::Function
    } else if spells(word, "let") {
        TokenType::Let
    } else if spells(word, "true") {
        TokenType::True
    } else if spells(word, "false") {
        TokenType::False
    } else if spells(word, "if") {
        TokenType::If
    } else if spells(word, "else") {
        TokenType::Else
    } else if spells(word, "return") {
        TokenType::Return
    } else {
        TokenType::Ident
    }
}

impl Lexer {
    /// What holds of every lexer: the cursor is within the text or at its
    /// end, `ch` is the character under it, and the line count is in step.
    pub closed spec fn wf(&self) -> bool {
        &&& self.input.len() < usize::MAX
        &&& self.position <= self.input.len()
        &&& self.read_position == self.position + 1
        &&& self.ch == char_at(self.input@, self.position as int)
        &&& 1 <= self.line <= self.position + 1
    }

    /// The character under the cursor: the value of the field `ch`.
    pub closed spec fn current(&self) -> char {
        self.ch
    }

    /// The position from which the next character is read.
    pub closed spec fn reading(&self) -> int {
        self.read_position as int
    }

    /// What the invariant says: the cursor stands within the text or at
    /// its end; the character under it is that of the text, and NUL at the
    /// end; the next character is read from the position behind it; and the
    /// line count is at least 1 and counts no more line breaks than there
    /// are characters before the cursor.
    pub proof fn lemma_cursor(&self)
        requires
            self.wf(),
        ensures
            0 <= self@.position <= self@.input.len() < usize::MAX,
            self.current() == char_at(self@.input, self@.position),
            self.reading() == self@.position + 1,
            1 <= self@.line <= self@.position + 1,
    {
    }

    /// A lexer at the first character of `text`, on line 1. An empty text
    /// has no first character and gives the error.
    pub fn new(text: &str) -> (made: Result<Lexer, LexerError>)
        requires
            text@.len() < usize::MAX,
        ensures
            made is Err <==> text@.len() == 0,
            made is Ok ==> made->Ok_0.wf() && made->Ok_0@ == (LexerModel {
                input: text@,
                position: 0,
                line: 1,
            }),
    {
        let mut input: Vec<char> = Vec::new();
        let mut rest = text.chars();
        loop
            invariant
                rest.obeys_prophetic_iter_laws(),
                rest.decrease() is Some,
                input@ + rest.remaining() == text@,
            ensures
                input@ == text@,
            decreases rest.decrease()->0,
        {
            match rest.next() {
                Some(c) => {
                    input.push(c);
                    assert(input@ + rest.remaining() =~= text@);
                },
                None => {
                    assert(input@ + rest.remaining() =~= input@);
                    break;
                },
            }
        }
        if input.len() == 0 {
            return Err(LexerError::EmptyInput);
        }
        let first = input[0];
        Ok(Lexer { input, position: 0, read_position: 1, ch: first, line: 1 })
    }

    /// The number of the line on which the cursor stands, counted from 1.
    pub fn line(&self) -> (line: usize)
        ensures
            line == self@.line,
    {
        self.line
    }

    /// Moves the cursor one character on; at the end of the text it stays.
    pub fn read_char(&mut self)
        requires
            old(self).wf(),
        ensures
            final(self).wf(),
            final(self)@.input == old(self)@.input,
            final(self)@.line == old(self)@.line,
            final(self)@.position == if old(self)@.position < old(self)@.input.len() {
                old(self)@.position + 1
            } else {
                old(self)@.position
            },
    {
        if self.position < self.input.len() {
            self.ch = if self.read_position < self.input.len() {
                self.input[self.read_position]
            } else {
                '\0'
            };
            self.position = self.read_position;
            self.read_position += 1;
        }
    }

    /// The character behind the cursor, if the text has one there. The
    /// cursor stays.
    pub fn peek_char(&self) -> (next: Option<char>)
        requires
            self.wf(),
        ensures
            next == if self@.position + 1 < self@.input.len() {
                Some(self@.input[self@.position + 1])
            } else {
                None
            },
    {
        if self.read_position < self.input.len() {
            Some(self.input[self.read_position])
        } else {
            None
        }
    }

    /// Moves the cursor over spaces and tabs.
    fn skip_whitespace(&mut self)
        requires
            old(self).wf(),
        ensures
            final(self).wf(),
            final(self)@.input == old(self)@.input,
            final(self)@.line == old(self)@.line,
            final(self)@.position == run_end(
                CharClass::Blank,
                old(self)@.input,
                old(self)@.position,
            ),
    {
        while self.ch == ' ' || self.ch == '\t'
            invariant
                self.wf(),
                self.input@ == old(self).input@,
                self.line == old(self).line,
                run_end(CharClass::Blank, self.input@, self.position as int) == run_end(
                    CharClass::Blank,
                    self.input@,
                    old(self).position as int,
                ),
            decreases self.input.len() - self.position,
        {
            self.read_char();
        }
    }

    /// Reads the maximal run of `class` characters from the cursor on into
    /// a vector, and leaves the cursor behind the run.
    fn read_run(&mut self, class: CharClass) -> (run: Vec<char>)
        requires
            old(self).wf(),
        ensures
            final(self).wf(),
            final(self)@.input == old(self)@.input,
            final(self)@.line == old(self)@.line,
            final(self)@.position == run_end(class, old(self)@.input, old(self)@.position),
            run@ == old(self)@.input.subrange(old(self)@.position, final(self)@.position),
    {
        let mut run: Vec<char> = Vec::new();
        while is_in_class(class, self.ch)
            invariant
                self.wf(),
                self.input@ == old(self).input@,
                self.line == old(self).line,
                old(self).position <= self.position,
                run@ == self.input@.subrange(old(self).position as int, self.position as int),
                run_end(class, self.input@, self.position as int) == run_end(
                    class,
                    self.input@,
                    old(self).position as int,
                ),
            decreases self.input.len() - self.position,
        {
            run.push(self.ch);
            let ghost before = self.position as int;
            self.read_char();
            assert(self.input@.subrange(old(self).position as int, self.position as int)
                == self.input@.subrange(old(self).position as int, before).push(
                self.input@[before],
            ));
        }
        run
    }

    /// Reads a word from the cursor on: the maximal run of letters, as a
    /// keyword where it spells one and as an identifier where not.
    fn read_identifier(&mut self) -> (token: Token)
        requires
            old(self).wf(),
        ensures
            final(self).wf(),
            final(self)@.input == old(self)@.input,
            final(self)@.line == old(self)@.line,
            final(self)@.position == run_end(
                CharClass::Letter,
                old(self)@.input,
                old(self)@.position,
            ),
            token@.literal == old(self)@.input.subrange(
                old(self)@.position,
                final(self)@.position,
            ),
            token@.kind == word_kind(token@.literal),
    {
        let letters = self.read_run(CharClass::Letter);
        Token { kind: keyword_or_ident(&letters), literal: string_of(&letters) }
    }

    /// Reads a number from the cursor on: the maximal run of digits, which
    /// is empty where the cursor is at no digit.
    pub fn read_number(&mut self) -> (token: Token)
        requires
            old(self).wf(),
        ensures
            final(self).wf(),
            final(self)@.input == old(self)@.input,
            final(self)@.line == old(self)@.line,
            final(self)@.position == run_end(
                CharClass::Digit,
                old(self)@.input,
                old(self)@.position,
            ),
            token@ == (TokenModel {
                kind: TokenType::Int,
                literal: old(self)@.input.subrange(old(self)@.position, final(self)@.position),
            }),
    {
        let digits = self.read_run(CharClass::Digit);
        Token { kind: TokenType::Int, literal: string_of(&digits) }
    }

    /// The token of the one character under the cursor.
    fn symbol(&self, kind: TokenType) -> (token: Token)
        ensures
            token@ == (TokenModel { kind, literal: seq![self.ch] }),
    {
        let mut literal = String::new();
        push_char(&mut literal, self.ch);
        assert(Seq::<char>::empty().push(self.ch) == seq![self.ch]);
        Token { kind, literal }
    }

    /// The token of the character under the cursor and the one behind it,
    /// where that one is `second`; else the token of the first alone.
    fn one_or_two(&mut self, second: char, two: TokenType, text: &str, one: TokenType) -> (token:
        Token)
        requires
            old(self).wf(),
            second != '\0',
            text@ == seq![old(self).ch, second],
        ensures
            final(self).wf(),
            final(self)@.input == old(self)@.input,
            final(self)@.line == old(self)@.line,
            char_at(old(self)@.input, old(self)@.position + 1) == second ==> token@ == (TokenModel {
                kind: two,
                literal: text@,
            }) && final(self)@.position == old(self)@.position + 1,
            char_at(old(self)@.input, old(self)@.position + 1) != second ==> token@ == (TokenModel {
                kind: one,
                literal: seq![old(self).ch],
            }) && final(self)@.position == old(self)@.position,
    {
        let follows = match self.peek_char() {
            Some(next) => next == second,
            None => false,
        };
        if follows {
            self.read_char();
            Token::new(two, text)
        } else {
            self.symbol(one)
        }
    }

    /// The next token, line breaks included: skips blanks, reads the token
    /// that starts under the cursor, and leaves the cursor behind it.
    pub fn scan_token(&mut self) -> (token: Token)
        requires
            old(self).wf(),
        ensures
            final(self).wf(),
            final(self)@.input == old(self)@.input,
            final(self)@.line == old(self)@.line,
            token@ == scan(old(self)@.input, old(self)@.position).token,
            final(self)@.position == scan(old(self)@.input, old(self)@.position).end,
    {
        self.skip_whitespace();
        if is_letter(self.ch) {
            return self.read_identifier();
        }
        if is_digit(self.ch) {
            return self.read_number();
        }
        proof {
            reveal_strlit("==");
            reveal_strlit("!=");
            reveal_strlit("\r\n");
            reveal_strlit("");
            assert("=="@ =~= seq!['=', '=']);
            assert("!="@ =~= seq!['!', '=']);
            assert("\r\n"@ =~= seq!['\r', '\n']);
            assert(""@ =~= Seq::<char>::empty());
        }
        let token = match self.ch {
            '=' => self.one_or_two('=', TokenType::Eq, "==", TokenType::Assign),
            '!' => self.one_or_two('=', TokenType::NotEq, "!=", TokenType::Bang),
            '\r' => self.one_or_two('\n', TokenType::NewLine, "\r\n", TokenType::Illegal),
            ';' => self.symbol(TokenType::Semicolon),
            ',' => self.symbol(TokenType::Comma),
            '(' => self.symbol(TokenType::LParen),
            ')' => self.symbol(TokenType::RParen),
            '{' => self.symbol(TokenType::LBrace),
            '}' => self.symbol(TokenType::RBrace),
            '+' => self.symbol(TokenType::Plus),
            '-' => self.symbol(TokenType::Minus),
            '<' => self.symbol(TokenType::Lt),
            '>' => self.symbol(TokenType::Gt),
            '/' => self.symbol(TokenType::Slash),
            '*' => self.symbol(TokenType::Asterisk),
            '\0' => Token::new(TokenType::EOF, ""),
            '\n' => self.symbol(TokenType::NewLine),
            _ => self.symbol(TokenType::Illegal),
        };
        self.read_char();
        token
    }

    /// The next token that is no line break. Blanks are passed over; each
    /// line break passed over adds one to the line count. At the end of the
    /// text the token is the end-of-input token, on every call.
    pub fn next_token(&mut self) -> (token: Token)
        requires
            old(self).wf(),
        ensures
            final(self).wf(),
            final(self)@.input == old(self)@.input,
            token@ == next_lexeme(old(self)@.input, old(self)@.position, old(self)@.line).token,
            final(self)@.position == next_lexeme(
                old(self)@.input,
                old(self)@.position,
                old(self)@.line,
            ).end,
            final(self)@.line == next_lexeme(
                old(self)@.input,
                old(self)@.position,
                old(self)@.line,
            ).line,
    {
        loop
            invariant
                self.wf(),
                self.input@ == old(self).input@,
                next_lexeme(self.input@, self.position as int, self.line as int) == next_lexeme(
                    old(self).input@,
                    old(self).position as int,
                    old(self).line as int,
                ),
            decreases self.input.len() - self.position,
        {
            proof {
                lemma_scan_advances(self.input@, self.position as int);
                lemma_run_end(CharClass::Blank, self.input@, self.position as int);
            }
            let token = self.scan_token();
            if token.kind != TokenType::NewLine {
                return token;
            }
            self.line += 1;
        }
    }
}

} // verus!
