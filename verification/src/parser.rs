//! The parser: reads tokens from its lexer, two at a time, and builds the
//! statements of a program, recording a diagnostic where it cannot.

use vstd::prelude::*;
use vstd::string::StringExecFns;
use crate::ast::{
    expressions_view, statements_view, ExprModel, Expression, ExpressionStatement, Identifier,
    IfStatement, LetStatement, Program, ReturnStatement, Statement, StmtModel,
};
use crate::grammar;
use crate::grammar::{
    expected_message, kind_at, no_prefix_message, precedence, remaining, tok, DiagModel, LOWEST,
    PREFIX,
};
use crate::lexer::{Lexeme, Lexer, LexerError};
use crate::stream::{lemma_tokens, lexeme_at, tokens};
use crate::text::{decimal, decimal_string};
use crate::tokens::{Token, TokenType};

verus! {

/// A recorded syntax error.
#[derive(Debug, Clone, PartialEq)]
pub struct ParserError {
    /// What was expected and what was found.
    pub message: String,
    /// The number of the line on which the parser stood, counted from 1.
    pub line_num: usize,
    /// The column; not tracked, always 0.
    pub char_offset: usize,
}

impl View for ParserError {
    type V = DiagModel;

    open spec fn view(&self) -> DiagModel {
        DiagModel {
            message: self.message@,
            line: self.line_num as int,
            column: self.char_offset as int,
        }
    }
}

impl ParserError {
    /// A diagnostic with a copy of `message`.
    pub fn new(message: &str, line_num: usize, char_offset: usize) -> (error: ParserError)
        ensures
            error@ == (DiagModel {
                message: message@,
                line: line_num as int,
                column: char_offset as int,
            }),
    {
        ParserError { message: message.to_owned(), line_num, char_offset }
    }
}

/// The plain values of a list of diagnostics, one for one.
pub open spec fn diagnostics(list: Seq<ParserError>) -> Seq<DiagModel> {
    list.map_values(|e: ParserError| e@)
}

/// The text of the diagnostic for `found` where `what` was expected.
pub fn expected_text(what: &str, found: &Token) -> (text: String)
    ensures
        text@ == expected_message(what@, found@),
{
    let mut text = String::from_str("expected ");
    text.append(what);
    text.append(", found ");
    if found.kind == TokenType::EOF {
        text.append("end of input");
        assert(text@ =~= expected_message(what@, found@));
    } else {
        text.append("`");
        text.append(found.literal.as_str());
        text.append("`");
        assert(text@ =~= expected_message(what@, found@));
    }
    text
}

/// The text of the diagnostic for `found` where an expression must start.
pub fn no_prefix_text(found: &Token) -> (text: String)
    ensures
        text@ == no_prefix_message(found@),
{
    let mut text = String::from_str("no prefix parse function for `");
    text.append(found.literal.as_str());
    text.append("`");
    text
}

/// The lines of a report, one for each of the first `n` diagnostics: the
/// line number and the message.
pub open spec fn report_lines(errors: Seq<DiagModel>, n: nat) -> Seq<char>
    decreases n,
{
    if n == 0 || n > errors.len() {
        Seq::empty()
    } else {
        report_lines(errors, (n - 1) as nat) + "line "@ + decimal(errors[n - 1].line as nat)
            + "; "@ + errors[n - 1].message + "\n"@
    }
}

/// The report of the diagnostics: nothing where there is none, else a
/// heading with their number and their lines in order.
pub open spec fn report_text(errors: Seq<DiagModel>) -> Seq<char> {
    if errors.len() == 0 {
        Seq::empty()
    } else {
        "\nFound "@ + decimal(errors.len()) + " error"@ + (if errors.len() <= 1 {
            ""@
        } else {
            "s"@
        }) + " while parsing:\n"@ + report_lines(errors, errors.len())
    }
}

/// The binding power of a token in infix position.
pub fn binding_power(kind: TokenType) -> (power: u8)
    ensures
        power == precedence(kind),
{
    match kind {
        TokenType::Eq | TokenType::NotEq => 1,
        TokenType::Lt | TokenType::Gt => 2,
        TokenType::Plus | TokenType::Minus => 3,
        TokenType::Asterisk | TokenType::Slash => 4,
        TokenType::LParen => 6,
        _ => 0,
    }
}

/// A parser over a text.
pub struct Parser {
    lexer: Lexer,
    /// The token at which the parser stands.
    current_token: Token,
    /// The token behind it.
    peek_token: Token,
    /// The line of the token at which the parser stands.
    current_line: usize,
    /// The line of the token behind it.
    peek_line: usize,
    /// The diagnostics recorded so far, in the order in which they came.
    pub errors: Vec<ParserError>,
    /// How many tokens the parser has left behind.
    index: Ghost<nat>,
}

/// What a parser is, as plain values: the tokens of its text, the
/// position at which it stands, and the diagnostics recorded so far.
pub struct ParserModel {
    pub tokens: Seq<Lexeme>,
    pub index: int,
    pub errors: Seq<DiagModel>,
}

impl View for Parser {
    type V = ParserModel;

    closed spec fn view(&self) -> ParserModel {
        ParserModel {
            tokens: tokens(self.lexer@.input),
            index: self.index@ as int,
            errors: diagnostics(self.errors@),
        }
    }
}

impl Parser {
    /// What holds of every parser: its two tokens are those at its
    /// position and behind it, with their lines, and its lexer stands
    /// behind them.
    #[verifier::opaque]
    pub closed spec fn wf(&self) -> bool {
        let s = self.lexer@.input;
        let here = lexeme_at(s, self.index@);
        let next = lexeme_at(s, self.index@ + 1);
        &&& self.lexer.wf()
        &&& self.lexer@.position == next.end
        &&& self.lexer@.line == next.line
        &&& self.current_token@ == here.token
        &&& self.current_line == here.line
        &&& self.peek_token@ == next.token
        &&& self.peek_line == next.line
    }

    /// A parser at the first token of `text`, with no diagnostics. An
    /// empty text gives the error.
    pub fn new(text: &str) -> (made: Result<Parser, LexerError>)
        requires
            text@.len() < usize::MAX,
        ensures
            made is Err <==> text@.len() == 0,
            made is Ok ==> made->Ok_0.wf() && made->Ok_0@ == (ParserModel {
                tokens: tokens(text@),
                index: 0,
                errors: Seq::empty(),
            }),
    {
        let mut lexer = match Lexer::new(text) {
            Ok(lexer) => lexer,
            Err(e) => {
                return Err(e);
            },
        };
        let current_token = lexer.next_token();
        let current_line = lexer.line();
        let peek_token = lexer.next_token();
        let peek_line = lexer.line();
        reveal(Parser::wf);
        let parser = Parser {
            lexer,
            current_token,
            peek_token,
            current_line,
            peek_line,
            errors: Vec::new(),
            index: Ghost(0),
        };
        assert(parser@.errors =~= Seq::empty());
        Ok(parser)
    }

    /// The report of the diagnostics recorded so far, for the caller to
    /// print: nothing where there is none, else a heading with their number
    /// and one line for each, in the order in which they came. The parser
    /// stays as it is.
    pub fn report_errors(&self) -> (report: String)
        ensures
            report@ == report_text(self@.errors),
    {
        let mut report = String::new();
        let count = self.errors.len();
        if count == 0 {
            return report;
        }
        let ghost errors = self@.errors;
        report.append("\nFound ");
        report.append(decimal_string(count).as_str());
        report.append(" error");
        report.append(if count <= 1 { "" } else { "s" });
        report.append(" while parsing:\n");
        let ghost heading = report@;
        assert(heading + report_lines(errors, 0) =~= heading);
        let mut i: usize = 0;
        while i < count
            invariant
                i <= count,
                count == self.errors.len(),
                errors == self@.errors,
                report@ == heading + report_lines(errors, i as nat),
            decreases count - i,
        {
            let error = &self.errors[i];
            report.append("line ");
            report.append(decimal_string(error.line_num).as_str());
            report.append("; ");
            report.append(error.message.as_str());
            report.append("\n");
            i += 1;
            assert(report@ =~= heading + report_lines(errors, i as nat));
        }
        report
    }

    /// Moves one token on: the token behind the parser becomes the one at
    /// which it stands, and the lexer gives the next.
    fn next_token(&mut self)
        requires
            old(self).wf(),
        ensures
            final(self).wf(),
            final(self)@.tokens == old(self)@.tokens,
            final(self)@.errors == old(self)@.errors,
            final(self)@.index == old(self)@.index + 1,
    {
        reveal(Parser::wf);
        let mut next = self.lexer.next_token();
        core::mem::swap(&mut self.peek_token, &mut next);
        self.current_token = next;
        self.current_line = self.peek_line;
        self.peek_line = self.lexer.line();
        self.index = Ghost((self.index@ + 1) as nat);
    }

    /// The kind of the token at which the parser stands.
    fn current_kind(&self) -> (kind: TokenType)
        requires
            self.wf(),
        ensures
            kind == kind_at(self@.tokens, self@.index),
    {
        reveal(Parser::wf);
        proof {
            lemma_tokens(self.lexer@.input, self.index@);
        }
        self.current_token.kind
    }

    /// The kind of the token behind the parser.
    fn peek_kind(&self) -> (kind: TokenType)
        requires
            self.wf(),
        ensures
            kind == kind_at(self@.tokens, self@.index + 1),
    {
        reveal(Parser::wf);
        proof {
            lemma_tokens(self.lexer@.input, self.index@ + 1);
        }
        self.peek_token.kind
    }

    /// Whether the token at which the parser stands is of kind `t`.
    fn current_token_is_of_type(&self, t: TokenType) -> (b: bool)
        requires
            self.wf(),
        ensures
            b == (kind_at(self@.tokens, self@.index) == t),
    {
        self.current_kind() == t
    }

    /// Whether the token behind the parser is of kind `t`.
    fn next_token_is_of_type(&self, t: TokenType) -> (b: bool)
        requires
            self.wf(),
        ensures
            b == (kind_at(self@.tokens, self@.index + 1) == t),
    {
        self.peek_kind() == t
    }

    /// A copy of the token at which the parser stands.
    fn current(&self) -> (token: Token)
        requires
            self.wf(),
        ensures
            token@ == tok(self@.tokens, self@.index),
    {
        reveal(Parser::wf);
        proof {
            lemma_tokens(self.lexer@.input, self.index@);
        }
        self.current_token.duplicate()
    }

    /// Records a diagnostic with the line of the token at which the parser
    /// stands.
    fn record(&mut self, message: String)
        requires
            old(self).wf(),
        ensures
            final(self).wf(),
            final(self)@.tokens == old(self)@.tokens,
            final(self)@.index == old(self)@.index,
            final(self)@.errors == old(self)@.errors.push(
                grammar::diagnostic_at(old(self)@.tokens, old(self)@.index, message@),
            ),
    {
        reveal(Parser::wf);
        proof {
            lemma_tokens(self.lexer@.input, self.index@);
        }
        let error = ParserError { message, line_num: self.current_line, char_offset: 0 };
        self.errors.push(error);
        assert(diagnostics(self.errors@) =~= diagnostics(old(self).errors@).push(error@));
    }

    /// Records that the token behind the parser is not `what`.
    fn record_unexpected(&mut self, what: &str)
        requires
            old(self).wf(),
        ensures
            final(self).wf(),
            final(self)@.tokens == old(self)@.tokens,
            final(self)@.index == old(self)@.index,
            final(self)@.errors == old(self)@.errors.push(
                grammar::unexpected_next(old(self)@.tokens, old(self)@.index, what@),
            ),
    {
        reveal(Parser::wf);
        proof {
            lemma_tokens(self.lexer@.input, self.index@ + 1);
        }
        let message = expected_text(what, &self.peek_token);
        self.record(message);
    }

    /// Reads the expression that starts at the token at which the parser
    /// stands, with threshold `power`: a prefix expression, extended by each
    /// operator behind it that binds more tightly than `power`, with its
    /// right side or its arguments. Leaves the parser at the last token of
    /// the expression.
    fn parse_expression(&mut self, power: u8) -> (read: Option<Expression>)
        requires
            old(self).wf(),
        ensures
            final(self).wf(),
            final(self)@.tokens == old(self)@.tokens,
            final(self)@.index >= old(self)@.index,
            ({
                let r = grammar::parse_expression(
                    old(self)@.tokens,
                    old(self)@.index,
                    power as nat,
                );
                &&& final(self)@.index == r.at
                &&& final(self)@.errors == old(self)@.errors + r.errors
                &&& match read {
                    Some(e) => r.value == Some(e@),
                    None => r.value is None,
                }
            }),
        decreases remaining(old(self)@.tokens, old(self)@.index), 2int,
    {
        let ghost toks = self@.tokens;
        let ghost start = self@.index;
        let ghost before = self@.errors;
        let ghost whole = grammar::parse_expression(toks, start, power as nat);
        let ghost first = grammar::parse_prefix(toks, start);
        let mut left = match self.parse_prefix() {
            Some(e) => e,
            None => {
                return None;
            },
        };
        proof {
            let rest = grammar::parse_infix(toks, self@.index, power as nat, left@);
            assert(before + (first.errors + rest.errors) =~= (before + first.errors)
                + rest.errors);
        }
        loop
            invariant
                self.wf(),
                self@.tokens == toks,
                self@.index >= start,
                toks == old(self)@.tokens,
                start == old(self)@.index,
                before == old(self)@.errors,
                whole == grammar::parse_expression(toks, start, power as nat),
                ({
                    let rest = grammar::parse_infix(toks, self@.index, power as nat, left@);
                    &&& whole.value == rest.value
                    &&& whole.at == rest.at
                    &&& before + whole.errors == self@.errors + rest.errors
                }),
            decreases remaining(toks, self@.index),
        {
            let ghost k = self@.index;
            let ghost so_far = self@.errors;
            let operator = self.peek_kind();
            if power >= binding_power(operator) {
                assert(so_far + Seq::<DiagModel>::empty() =~= so_far);
                return Some(left);
            }
            self.next_token();
            if operator == TokenType::LParen {
                let ghost step = grammar::parse_arguments(toks, k + 1);
                match self.parse_arguments() {
                    Some(arguments) => {
                        left = Expression::Call { callee: Box::new(left), arguments };
                        proof {
                            let rest = grammar::parse_infix(
                                toks,
                                self@.index,
                                power as nat,
                                left@,
                            );
                            assert(so_far + (step.errors + rest.errors) =~= (so_far
                                + step.errors) + rest.errors);
                        }
                    },
                    None => {
                        return None;
                    },
                }
            } else {
                self.next_token();
                let ghost step = grammar::parse_expression(toks, k + 2, precedence(operator));
                match self.parse_expression(binding_power(operator)) {
                    Some(right) => {
                        left = Expression::Infix {
                            operator,
                            left: Box::new(left),
                            right: Box::new(right),
                        };
                        proof {
                            let rest = grammar::parse_infix(
                                toks,
                                self@.index,
                                power as nat,
                                left@,
                            );
                            assert(so_far + (step.errors + rest.errors) =~= (so_far
                                + step.errors) + rest.errors);
                        }
                    },
                    None => {
                        return None;
                    },
                }
            }
        }
    }

    /// Reads the prefix expression that starts at the token at which the
    /// parser stands; records a diagnostic and gives the empty expression
    /// where none starts there.
    fn parse_prefix(&mut self) -> (read: Option<Expression>)
        requires
            old(self).wf(),
        ensures
            final(self).wf(),
            final(self)@.tokens == old(self)@.tokens,
            final(self)@.index >= old(self)@.index,
            ({
                let r = grammar::parse_prefix(old(self)@.tokens, old(self)@.index);
                &&& final(self)@.index == r.at
                &&& final(self)@.errors == old(self)@.errors + r.errors
                &&& match read {
                    Some(e) => r.value == Some(e@),
                    None => r.value is None,
                }
            }),
        decreases remaining(old(self)@.tokens, old(self)@.index), 1int,
    {
        let token = self.current();
        let ghost before = self@.errors;
        match token.kind {
            TokenType::Ident => {
                assert(before + Seq::<DiagModel>::empty() =~= before);
                Some(Expression::Identifier(token.literal))
            },
            TokenType::Int => {
                assert(before + Seq::<DiagModel>::empty() =~= before);
                Some(Expression::Integer(token.literal))
            },
            TokenType::True => {
                assert(before + Seq::<DiagModel>::empty() =~= before);
                Some(Expression::Boolean(true))
            },
            TokenType::False => {
                assert(before + Seq::<DiagModel>::empty() =~= before);
                Some(Expression::Boolean(false))
            },
            TokenType::Bang | TokenType::Minus => {
                self.next_token();
                match self.parse_expression(PREFIX) {
                    Some(operand) => Some(
                        Expression::Prefix { operator: token.kind, operand: Box::new(operand) },
                    ),
                    None => None,
                }
            },
            TokenType::LParen => {
                self.next_token();
                match self.parse_expression(LOWEST) {
                    Some(inner) => {
                        if self.next_token_is_of_type(TokenType::RParen) {
                            self.next_token();
                            Some(inner)
                        } else {
                            self.record_unexpected("`)`");
                            let ghost r = grammar::parse_expression(
                                old(self)@.tokens,
                                old(self)@.index + 1,
                                LOWEST as nat,
                            );
                            assert(self@.errors =~= before + r.errors.push(
                                grammar::unexpected_next(old(self)@.tokens, r.at, "`)`"@),
                            ));
                            None
                        }
                    },
                    None => None,
                }
            },
            _ => {
                let message = no_prefix_text(&token);
                self.record(message);
                assert(self@.errors =~= before + seq![
                    grammar::diagnostic_at(
                        old(self)@.tokens,
                        old(self)@.index,
                        no_prefix_message(token@),
                    ),
                ]);
                Some(Expression::Empty)
            },
        }
    }

    /// Reads the arguments of a call from the `(` at which the parser
    /// stands up to the `)` that ends them.
    fn parse_arguments(&mut self) -> (read: Option<Vec<Expression>>)
        requires
            old(self).wf(),
        ensures
            final(self).wf(),
            final(self)@.tokens == old(self)@.tokens,
            final(self)@.index >= old(self)@.index,
            ({
                let r = grammar::parse_arguments(old(self)@.tokens, old(self)@.index);
                &&& final(self)@.index == r.at
                &&& final(self)@.errors == old(self)@.errors + r.errors
                &&& match read {
                    Some(list) => r.value == Some(expressions_view(list@)),
                    None => r.value is None,
                }
            }),
        decreases remaining(old(self)@.tokens, old(self)@.index), 3int,
    {
        let ghost toks = self@.tokens;
        let ghost start = self@.index;
        let ghost before = self@.errors;
        let ghost whole = grammar::parse_arguments(toks, start);
        let mut list: Vec<Expression> = Vec::new();
        assert(expressions_view(list@) =~= Seq::empty());
        if self.next_token_is_of_type(TokenType::RParen) {
            self.next_token();
            assert(before + Seq::<DiagModel>::empty() =~= before);
            return Some(list);
        }
        self.next_token();
        let ghost first = grammar::parse_expression(toks, start + 1, LOWEST as nat);
        match self.parse_expression(LOWEST) {
            Some(e) => {
                list.push(e);
                assert(expressions_view(list@) =~= seq![e@]);
            },
            None => {
                return None;
            },
        }
        proof {
            let rest = grammar::more_arguments(toks, self@.index);
            assert(before + (first.errors + rest.errors) =~= (before + first.errors)
                + rest.errors);
        }
        loop
            invariant
                self.wf(),
                self@.tokens == toks,
                self@.index > start,
                toks == old(self)@.tokens,
                start == old(self)@.index,
                before == old(self)@.errors,
                whole == grammar::parse_arguments(toks, start),
                ({
                    let rest = grammar::more_arguments(toks, self@.index);
                    &&& whole.value == match rest.value {
                        Some(others) => Some(expressions_view(list@) + others),
                        None => None,
                    }
                    &&& whole.at == rest.at
                    &&& before + whole.errors == self@.errors + rest.errors
                }),
            decreases remaining(toks, self@.index),
        {
            let ghost k = self@.index;
            let ghost so_far = self@.errors;
            let ghost had = expressions_view(list@);
            let kind = self.peek_kind();
            if kind == TokenType::Comma {
                self.next_token();
                self.next_token();
                let ghost step = grammar::parse_expression(toks, k + 2, LOWEST as nat);
                match self.parse_expression(LOWEST) {
                    Some(e) => {
                        list.push(e);
                        proof {
                            let rest = grammar::more_arguments(toks, self@.index);
                            assert(expressions_view(list@) =~= had.push(e@));
                            assert(so_far + (step.errors + rest.errors) =~= (so_far
                                + step.errors) + rest.errors);
                            if rest.value is Some {
                                assert(had + (seq![e@] + rest.value->0) =~= had.push(e@)
                                    + rest.value->0);
                            }
                        }
                    },
                    None => {
                        return None;
                    },
                }
            } else if kind == TokenType::RParen {
                self.next_token();
                assert(so_far + Seq::<DiagModel>::empty() =~= so_far);
                assert(had + Seq::<ExprModel>::empty() =~= had);
                return Some(list);
            } else {
                self.record_unexpected("`)`");
                assert(so_far + seq![grammar::unexpected_next(toks, k, "`)`"@)] =~= so_far.push(
                    grammar::unexpected_next(toks, k, "`)`"@),
                ));
                return None;
            }
        }
    }

    /// Whether the parser stands at the end of a statement.
    fn at_boundary(&self) -> (b: bool)
        requires
            self.wf(),
        ensures
            b == grammar::at_boundary(self@.tokens, self@.index),
    {
        reveal(Parser::wf);
        proof {
            lemma_tokens(self.lexer@.input, self.index@);
            lemma_tokens(self.lexer@.input, self.index@ + 1);
        }
        let next = self.peek_token.kind;
        self.current_token.kind == TokenType::Semicolon || next == TokenType::EOF || next
            == TokenType::RBrace || next == TokenType::Let || next == TokenType::Return || next
            == TokenType::If || self.peek_line != self.current_line
    }

    /// Moves on to the end of the statement in which the parser stands.
    fn synchronize(&mut self)
        requires
            old(self).wf(),
        ensures
            final(self).wf(),
            final(self)@.tokens == old(self)@.tokens,
            final(self)@.errors == old(self)@.errors,
            final(self)@.index == grammar::recover(old(self)@.tokens, old(self)@.index),
            final(self)@.index >= old(self)@.index,
    {
        while !self.at_boundary()
            invariant
                self.wf(),
                self@.tokens == old(self)@.tokens,
                self@.errors == old(self)@.errors,
                self@.index >= old(self)@.index,
                grammar::recover(self@.tokens, self@.index) == grammar::recover(
                    old(self)@.tokens,
                    old(self)@.index,
                ),
            decreases remaining(self@.tokens, self@.index),
        {
            self.next_token();
        }
    }

    /// Reads the `;` that ends a `let` or a `return` behind its value, and
    /// records a diagnostic where another token stands there.
    fn end_of_statement(&mut self) -> (found: bool)
        requires
            old(self).wf(),
        ensures
            final(self).wf(),
            final(self)@.tokens == old(self)@.tokens,
            found == (kind_at(old(self)@.tokens, old(self)@.index + 1) == TokenType::Semicolon),
            found ==> final(self)@.index == old(self)@.index + 1 && final(self)@.errors == old(
                self,
            )@.errors,
            !found ==> final(self)@.index == old(self)@.index && final(self)@.errors == old(
                self,
            )@.errors.push(
                grammar::unexpected_next(old(self)@.tokens, old(self)@.index, "`;`"@),
            ),
    {
        if self.next_token_is_of_type(TokenType::Semicolon) {
            self.next_token();
            true
        } else {
            self.record_unexpected("`;`");
            false
        }
    }

    /// Reads the `let` statement at whose `let` the parser stands, up to
    /// its `;`. Where it cannot, it records why and gives `None`.
    fn parse_let_statement(&mut self) -> (read: Option<Statement>)
        requires
            old(self).wf(),
        ensures
            final(self).wf(),
            final(self)@.tokens == old(self)@.tokens,
            final(self)@.index >= old(self)@.index,
            ({
                let r = grammar::parse_let(old(self)@.tokens, old(self)@.index);
                &&& final(self)@.index == r.at
                &&& final(self)@.errors == old(self)@.errors + r.errors
                &&& match read {
                    Some(s) => r.value == Some(s@),
                    None => r.value is None,
                }
            }),
    {
        let ghost toks = self@.tokens;
        let ghost k = self@.index;
        let ghost before = self@.errors;
        if !self.next_token_is_of_type(TokenType::Ident) {
            self.record_unexpected("identifier");
            assert(before + seq![grammar::unexpected_next(toks, k, "identifier"@)]
                =~= before.push(grammar::unexpected_next(toks, k, "identifier"@)));
            return None;
        }
        self.next_token();
        let token = self.current();
        let identifier = Identifier { name: token.literal.clone() };
        if !self.next_token_is_of_type(TokenType::Assign) {
            self.record_unexpected("`=` operator");
            assert(before + seq![grammar::unexpected_next(toks, k + 1, "`=` operator"@)]
                =~= before.push(grammar::unexpected_next(toks, k + 1, "`=` operator"@)));
            return None;
        }
        self.next_token();
        self.next_token();
        let ghost value_read = grammar::parse_expression(toks, k + 3, LOWEST as nat);
        match self.parse_expression(LOWEST) {
            Some(value) => {
                if self.end_of_statement() {
                    Some(Statement::Assignment(LetStatement { token, identifier, value }))
                } else {
                    assert(self@.errors =~= before + value_read.errors.push(
                        grammar::unexpected_next(toks, value_read.at, "`;`"@),
                    ));
                    None
                }
            },
            None => None,
        }
    }

    /// Reads the `return` statement at whose `return` the parser stands,
    /// up to its `;`. Where it cannot, it records why and gives `None`.
    fn parse_return_statement(&mut self) -> (read: Option<Statement>)
        requires
            old(self).wf(),
        ensures
            final(self).wf(),
            final(self)@.tokens == old(self)@.tokens,
            final(self)@.index >= old(self)@.index,
            ({
                let r = grammar::parse_return(old(self)@.tokens, old(self)@.index);
                &&& final(self)@.index == r.at
                &&& final(self)@.errors == old(self)@.errors + r.errors
                &&& match read {
                    Some(s) => r.value == Some(s@),
                    None => r.value is None,
                }
            }),
    {
        let ghost toks = self@.tokens;
        let ghost k = self@.index;
        let ghost before = self@.errors;
        let token = self.current();
        if self.next_token_is_of_type(TokenType::Semicolon) {
            self.next_token();
            assert(before + Seq::<DiagModel>::empty() =~= before);
            return Some(Statement::Return(ReturnStatement { token, value: Expression::Empty }));
        }
        self.next_token();
        let ghost value_read = grammar::parse_expression(toks, k + 1, LOWEST as nat);
        match self.parse_expression(LOWEST) {
            Some(value) => {
                if self.end_of_statement() {
                    Some(Statement::Return(ReturnStatement { token, value }))
                } else {
                    assert(self@.errors =~= before + value_read.errors.push(
                        grammar::unexpected_next(toks, value_read.at, "`;`"@),
                    ));
                    None
                }
            },
            None => None,
        }
    }

    /// Reads the expression at whose first token the parser stands as a
    /// statement, with the `;` behind it if there is one.
    fn parse_expression_statement(&mut self) -> (read: Option<Statement>)
        requires
            old(self).wf(),
        ensures
            final(self).wf(),
            final(self)@.tokens == old(self)@.tokens,
            final(self)@.index >= old(self)@.index,
            ({
                let r = grammar::parse_expression_statement(old(self)@.tokens, old(self)@.index);
                &&& final(self)@.index == r.at
                &&& final(self)@.errors == old(self)@.errors + r.errors
                &&& match read {
                    Some(s) => r.value == Some(s@),
                    None => r.value is None,
                }
            }),
    {
        let token = self.current();
        match self.parse_expression(LOWEST) {
            Some(expression) => {
                if self.next_token_is_of_type(TokenType::Semicolon) {
                    self.next_token();
                }
                Some(Statement::SingleExpression(ExpressionStatement { token, expression }))
            },
            None => None,
        }
    }

    /// Reads the statement at whose first token the parser stands, by
    /// that token: `let`, `return`, `if`, or an expression.
    fn parse_statement(&mut self) -> (read: Option<Statement>)
        requires
            old(self).wf(),
        ensures
            final(self).wf(),
            final(self)@.tokens == old(self)@.tokens,
            final(self)@.index >= old(self)@.index,
            ({
                let r = grammar::parse_statement(old(self)@.tokens, old(self)@.index);
                &&& final(self)@.index == r.at
                &&& final(self)@.errors == old(self)@.errors + r.errors
                &&& match read {
                    Some(s) => r.value == Some(s@),
                    None => r.value is None,
                }
            }),
        decreases remaining(old(self)@.tokens, old(self)@.index), 1int,
    {
        match self.current_kind() {
            TokenType::Let => self.parse_let_statement(),
            TokenType::Return => self.parse_return_statement(),
            TokenType::If => self.parse_if_statement(),
            _ => self.parse_expression_statement(),
        }
    }

    /// Reads the statement at whose first token the parser stands and
    /// adds it to `list`; where it cannot be read, moves on to the end of
    /// the statement instead.
    fn statement_into(&mut self, list: &mut Vec<Statement>)
        requires
            old(self).wf(),
        ensures
            final(self).wf(),
            final(self)@.tokens == old(self)@.tokens,
            final(self)@.index >= old(self)@.index,
            ({
                let r = grammar::parse_statement(old(self)@.tokens, old(self)@.index);
                &&& final(self)@.index == grammar::resume(old(self)@.tokens, r)
                &&& final(self)@.errors == old(self)@.errors + r.errors
                &&& statements_view(final(list)@) == statements_view(old(list)@)
                    + grammar::statements_of(r)
            }),
        decreases remaining(old(self)@.tokens, old(self)@.index), 2int,
    {
        let ghost had = statements_view(list@);
        match self.parse_statement() {
            Some(s) => {
                list.push(s);
                assert(statements_view(list@) =~= had + seq![s@]);
            },
            None => {
                self.synchronize();
                assert(had + Seq::<StmtModel>::empty() =~= had);
            },
        }
    }

    /// Reads the `if` statement at whose `if` the parser stands, up to
    /// the `}` of its last block. Where it cannot, it records why and gives
    /// `None`.
    fn parse_if_statement(&mut self) -> (read: Option<Statement>)
        requires
            old(self).wf(),
        ensures
            final(self).wf(),
            final(self)@.tokens == old(self)@.tokens,
            final(self)@.index >= old(self)@.index,
            ({
                let r = grammar::parse_if(old(self)@.tokens, old(self)@.index);
                &&& final(self)@.index == r.at
                &&& final(self)@.errors == old(self)@.errors + r.errors
                &&& match read {
                    Some(s) => r.value == Some(s@),
                    None => r.value is None,
                }
            }),
        decreases remaining(old(self)@.tokens, old(self)@.index), 0int,
    {
        let ghost toks = self@.tokens;
        let ghost k = self@.index;
        let ghost before = self@.errors;
        let token = self.current();
        if !self.next_token_is_of_type(TokenType::LParen) {
            self.record_unexpected("`(`");
            assert(before + seq![grammar::unexpected_next(toks, k, "`(`"@)] =~= before.push(
                grammar::unexpected_next(toks, k, "`(`"@),
            ));
            return None;
        }
        self.next_token();
        self.next_token();
        let ghost head = grammar::parse_expression(toks, k + 2, LOWEST as nat);
        let condition = match self.parse_expression(LOWEST) {
            Some(e) => e,
            None => {
                return None;
            },
        };
        if !self.next_token_is_of_type(TokenType::RParen) {
            self.record_unexpected("`)`");
            assert(self@.errors =~= before + head.errors.push(
                grammar::unexpected_next(toks, head.at, "`)`"@),
            ));
            return None;
        }
        self.next_token();
        if !self.next_token_is_of_type(TokenType::LBrace) {
            self.record_unexpected("`{`");
            assert(self@.errors =~= before + head.errors.push(
                grammar::unexpected_next(toks, head.at + 1, "`{`"@),
            ));
            return None;
        }
        self.next_token();
        self.next_token();
        let ghost first = grammar::parse_block(toks, head.at + 3);
        let consequence = match self.parse_block() {
            Some(list) => list,
            None => {
                assert(self@.errors =~= before + (head.errors + first.errors));
                return None;
            },
        };
        assert(self@.errors =~= before + (head.errors + first.errors));
        if !self.next_token_is_of_type(TokenType::Else) {
            return Some(
                Statement::Conditional(
                    IfStatement { token, condition, consequence, alternative: None },
                ),
            );
        }
        self.next_token();
        if !self.next_token_is_of_type(TokenType::LBrace) {
            self.record_unexpected("`{`");
            assert(self@.errors =~= before + (head.errors + first.errors).push(
                grammar::unexpected_next(toks, first.at + 1, "`{`"@),
            ));
            return None;
        }
        self.next_token();
        self.next_token();
        let ghost second = grammar::parse_block(toks, first.at + 3);
        let alternative = self.parse_block();
        assert(self@.errors =~= before + (head.errors + first.errors + second.errors));
        match alternative {
            Some(list) => Some(
                Statement::Conditional(
                    IfStatement { token, condition, consequence, alternative: Some(list) },
                ),
            ),
            None => None,
        }
    }

    /// Reads the statements of a block, from the token behind its `{`, at
    /// which the parser stands, up to its `}`. Where the input ends before
    /// the `}`, it records that and gives `None`.
    fn parse_block(&mut self) -> (read: Option<Vec<Statement>>)
        requires
            old(self).wf(),
        ensures
            final(self).wf(),
            final(self)@.tokens == old(self)@.tokens,
            final(self)@.index >= old(self)@.index,
            ({
                let r = grammar::parse_block(old(self)@.tokens, old(self)@.index);
                &&& final(self)@.index == r.at
                &&& final(self)@.errors == old(self)@.errors + r.errors
                &&& match read {
                    Some(list) => r.value == Some(statements_view(list@)),
                    None => r.value is None,
                }
            }),
        decreases remaining(old(self)@.tokens, old(self)@.index), 3int,
    {
        let ghost toks = self@.tokens;
        let ghost start = self@.index;
        let ghost before = self@.errors;
        let ghost whole = grammar::parse_block(toks, start);
        let mut list: Vec<Statement> = Vec::new();
        assert(statements_view(list@) =~= Seq::empty());
        assert(before + whole.errors == self@.errors + whole.errors);
        assert forall|others: Seq<StmtModel>|
            #[trigger] (statements_view(list@) + others) == others by {
            assert(statements_view(list@) + others =~= others);
        }
        loop
            invariant
                self.wf(),
                self@.tokens == toks,
                self@.index >= start,
                toks == old(self)@.tokens,
                start == old(self)@.index,
                before == old(self)@.errors,
                whole == grammar::parse_block(toks, start),
                ({
                    let rest = grammar::parse_block(toks, self@.index);
                    &&& whole.value == match rest.value {
                        Some(others) => Some(statements_view(list@) + others),
                        None => None,
                    }
                    &&& whole.at == rest.at
                    &&& before + whole.errors == self@.errors + rest.errors
                }),
            decreases remaining(toks, self@.index),
        {
            let ghost k = self@.index;
            let ghost so_far = self@.errors;
            let ghost had = statements_view(list@);
            let kind = self.current_kind();
            if kind == TokenType::RBrace {
                assert(so_far + Seq::<DiagModel>::empty() =~= so_far);
                assert(had + Seq::<StmtModel>::empty() =~= had);
                return Some(list);
            } else if kind == TokenType::EOF {
                let token = self.current();
                let message = expected_text("`}`", &token);
                self.record(message);
                assert(self@.errors =~= so_far + seq![
                    grammar::diagnostic_at(toks, k, expected_message("`}`"@, tok(toks, k))),
                ]);
                return None;
            } else if kind == TokenType::NewLine {
                self.next_token();
            } else {
                let ghost step = grammar::parse_statement(toks, k);
                self.statement_into(&mut list);
                self.next_token();
                let ghost rest = grammar::parse_block(toks, self@.index);
                assert(so_far + (step.errors + rest.errors) =~= (so_far + step.errors)
                    + rest.errors);
                assert forall|others: Seq<StmtModel>|
                    had + (grammar::statements_of(step) + others) == #[trigger] (had
                        + grammar::statements_of(step) + others) by {
                    assert(had + (grammar::statements_of(step) + others) =~= had
                        + grammar::statements_of(step) + others);
                }
            }
        }
    }

    /// Reads the program: statement after statement, until the token
    /// behind the parser is the end of the input. A statement that cannot
    /// be read leaves its diagnostics in `errors` and no statement; reading
    /// goes on behind the end of that statement.
    pub fn parse_program(&mut self) -> (program: Program)
        requires
            old(self).wf(),
        ensures
            final(self).wf(),
            final(self)@.tokens == old(self)@.tokens,
            ({
                let r = grammar::parse_program(old(self)@.tokens, old(self)@.index);
                &&& program@ == r.statements
                &&& final(self)@.index == r.at
                &&& final(self)@.errors == old(self)@.errors + r.errors
            }),
    {
        let ghost toks = self@.tokens;
        let ghost start = self@.index;
        let ghost before = self@.errors;
        let ghost whole = grammar::parse_program(toks, start);
        let mut list: Vec<Statement> = Vec::new();
        assert(statements_view(list@) =~= Seq::empty());
        assert(statements_view(list@) + whole.statements =~= whole.statements);
        while !self.next_token_is_of_type(TokenType::EOF)
            invariant
                self.wf(),
                self@.tokens == toks,
                self@.index >= start,
                whole == grammar::parse_program(toks, start),
                ({
                    let rest = grammar::parse_program(toks, self@.index);
                    &&& whole.statements == statements_view(list@) + rest.statements
                    &&& whole.at == rest.at
                    &&& before + whole.errors == self@.errors + rest.errors
                }),
            decreases remaining(toks, self@.index),
        {
            let ghost k = self@.index;
            let ghost so_far = self@.errors;
            let ghost had = statements_view(list@);
            if self.current_token_is_of_type(TokenType::NewLine) {
                self.next_token();
            } else {
                let ghost step = grammar::parse_statement(toks, k);
                self.statement_into(&mut list);
                self.next_token();
                let ghost rest = grammar::parse_program(toks, self@.index);
                assert(so_far + (step.errors + rest.errors) =~= (so_far + step.errors)
                    + rest.errors);
                assert(had + (grammar::statements_of(step) + rest.statements) =~= had
                    + grammar::statements_of(step) + rest.statements);
            }
        }
        assert(statements_view(list@) + Seq::<StmtModel>::empty()
            =~= statements_view(list@));
        assert(self@.errors + Seq::<DiagModel>::empty() =~= self@.errors);
        Program { statements: list }
    }
}

} // verus!
