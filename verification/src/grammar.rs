//! The grammar, as functions on a sequence of tokens: what the parser
//! reads from each position, and which diagnostics it records on the way.

use vstd::prelude::*;
use crate::ast::{ExprModel, StmtModel};
use crate::lexer::Lexeme;
use crate::tokens::{TokenModel, TokenType};

verus! {

/// A recorded syntax error, as plain values: its text, the number of the
/// line on which the parser stood, and the column, which is not tracked
/// and always 0.
pub struct DiagModel {
    pub message: Seq<char>,
    pub line: int,
    pub column: int,
}

/// The diagnostic with the text `message` for a parser that stands at `k`.
pub open spec fn diagnostic_at(toks: Seq<Lexeme>, k: int, message: Seq<char>) -> DiagModel {
    DiagModel { message, line: line_at(toks, k), column: 0 }
}

/// What was read from a position: the value, or `None` where reading
/// failed; the position at which the parser then stands; and the
/// diagnostics recorded on the way, in the order in which they came.
pub struct Parsed<T> {
    pub value: Option<T>,
    pub at: int,
    pub errors: Seq<DiagModel>,
}

/// The token at position `k`. Behind the last token every position holds
/// the end-of-input token.
pub open spec fn tok(toks: Seq<Lexeme>, k: int) -> TokenModel {
    if 0 <= k < toks.len() {
        toks[k].token
    } else {
        TokenModel { kind: TokenType::EOF, literal: Seq::empty() }
    }
}

/// The kind of the token at position `k`.
pub open spec fn kind_at(toks: Seq<Lexeme>, k: int) -> TokenType {
    tok(toks, k).kind
}

/// The line of the token at position `k`; behind the last token, the line
/// of the last.
pub open spec fn line_at(toks: Seq<Lexeme>, k: int) -> int {
    if 0 <= k < toks.len() {
        toks[k].line
    } else if toks.len() > 0 {
        toks.last().line
    } else {
        1
    }
}

/// How many tokens stand at `k` and behind it.
pub open spec fn remaining(toks: Seq<Lexeme>, k: int) -> nat {
    if k < toks.len() {
        (toks.len() - k) as nat
    } else {
        0
    }
}

/// The binding power below every operator's.
pub const LOWEST: u8 = 0;

/// The binding power of the prefix operators `-` and `!`.
pub const PREFIX: u8 = 5;

/// The binding power of a token in infix position: equality, then
/// comparison, then sum, then product, then call; 0 for a token that is no
/// infix operator.
pub open spec fn precedence(kind: TokenType) -> nat {
    match kind {
        TokenType::Eq | TokenType::NotEq => 1,
        TokenType::Lt | TokenType::Gt => 2,
        TokenType::Plus | TokenType::Minus => 3,
        TokenType::Asterisk | TokenType::Slash => 4,
        TokenType::LParen => 6,
        _ => 0,
    }
}

/// How a diagnostic names the token it found.
pub open spec fn found_text(found: TokenModel) -> Seq<char> {
    if found.kind == TokenType::EOF {
        "end of input"@
    } else {
        "`"@ + found.literal + "`"@
    }
}

/// The text of the diagnostic for a token that is not the expected one.
pub open spec fn expected_message(what: Seq<char>, found: TokenModel) -> Seq<char> {
    "expected "@ + what + ", found "@ + found_text(found)
}

/// The text of the diagnostic for a token with which no expression starts.
pub open spec fn no_prefix_message(found: TokenModel) -> Seq<char> {
    "no prefix parse function for `"@ + found.literal + "`"@
}

/// The diagnostic of a parser that stands at `k` and finds at `k + 1`
/// another token than `what`.
pub open spec fn unexpected_next(toks: Seq<Lexeme>, k: int, what: Seq<char>) -> DiagModel {
    diagnostic_at(toks, k, expected_message(what, tok(toks, k + 1)))
}

/// A failure at `at` with the diagnostics `errors`.
pub open spec fn failed<T>(at: int, errors: Seq<DiagModel>) -> Parsed<T> {
    Parsed { value: None, at, errors }
}

/// The expression that starts at `k`, read with threshold `power`: a
/// prefix expression, extended to the right by each operator that binds
/// more tightly than `power`. The parser then stands at the last token of
/// the expression.
pub open spec fn parse_expression(toks: Seq<Lexeme>, k: int, power: nat) -> Parsed<ExprModel>
    decreases remaining(toks, k), 2int,
{
    let first = parse_prefix(toks, k);
    match first.value {
        Some(left) if first.at >= k => {
            let whole = parse_infix(toks, first.at, power, left);
            Parsed { value: whole.value, at: whole.at, errors: first.errors + whole.errors }
        },
        _ => first,
    }
}

/// The prefix expression that starts at `k`: a name, a number, `true` or
/// `false`, `-` or `!` with its operand, or an expression in brackets. Any
/// other token gives a diagnostic and the empty expression.
pub open spec fn parse_prefix(toks: Seq<Lexeme>, k: int) -> Parsed<ExprModel>
    decreases remaining(toks, k), 1int,
{
    let t = tok(toks, k);
    match t.kind {
        TokenType::Ident => Parsed {
            value: Some(ExprModel::Identifier(t.literal)),
            at: k,
            errors: Seq::empty(),
        },
        TokenType::Int => Parsed {
            value: Some(ExprModel::Integer(t.literal)),
            at: k,
            errors: Seq::empty(),
        },
        TokenType::True => Parsed {
            value: Some(ExprModel::Boolean(true)),
            at: k,
            errors: Seq::empty(),
        },
        TokenType::False => Parsed {
            value: Some(ExprModel::Boolean(false)),
            at: k,
            errors: Seq::empty(),
        },
        TokenType::Bang | TokenType::Minus => {
            let operand = parse_expression(toks, k + 1, PREFIX as nat);
            match operand.value {
                Some(e) => Parsed {
                    value: Some(ExprModel::Prefix { operator: t.kind, operand: Box::new(e) }),
                    at: operand.at,
                    errors: operand.errors,
                },
                None => operand,
            }
        },
        TokenType::LParen => {
            let inner = parse_expression(toks, k + 1, LOWEST as nat);
            if inner.value is None {
                inner
            } else if kind_at(toks, inner.at + 1) == TokenType::RParen {
                Parsed { value: inner.value, at: inner.at + 1, errors: inner.errors }
            } else {
                failed(inner.at, inner.errors.push(unexpected_next(toks, inner.at, "`)`"@)))
            }
        },
        _ => Parsed {
            value: Some(ExprModel::Empty),
            at: k,
            errors: seq![diagnostic_at(toks, k, no_prefix_message(t))],
        },
    }
}

/// What follows the expression `left`, whose last token stands at `k`:
/// `left` itself where the next token binds no more tightly than `power`,
/// else `left` with that operator and its right side, or with the
/// arguments of a call, extended in the same way.
pub open spec fn parse_infix(toks: Seq<Lexeme>, k: int, power: nat, left: ExprModel) -> Parsed<
    ExprModel,
>
    decreases remaining(toks, k), 0int,
{
    let operator = kind_at(toks, k + 1);
    if power >= precedence(operator) {
        Parsed { value: Some(left), at: k, errors: Seq::empty() }
    } else if operator == TokenType::LParen {
        let arguments = parse_arguments(toks, k + 1);
        match arguments.value {
            Some(list) if arguments.at > k => {
                let call = ExprModel::Call { callee: Box::new(left), arguments: list };
                let whole = parse_infix(toks, arguments.at, power, call);
                Parsed { value: whole.value, at: whole.at, errors: arguments.errors + whole.errors }
            },
            _ => failed(arguments.at, arguments.errors),
        }
    } else {
        let right = parse_expression(toks, k + 2, precedence(operator));
        match right.value {
            Some(e) if right.at > k => {
                let both = ExprModel::Infix { operator, left: Box::new(left), right: Box::new(e) };
                let whole = parse_infix(toks, right.at, power, both);
                Parsed { value: whole.value, at: whole.at, errors: right.errors + whole.errors }
            },
            _ => failed(right.at, right.errors),
        }
    }
}

/// The arguments of a call whose `(` stands at `k`: none before a `)`
/// that follows at once, else expressions with a comma between each two
/// and a `)` behind the last, at which the parser then stands.
pub open spec fn parse_arguments(toks: Seq<Lexeme>, k: int) -> Parsed<Seq<ExprModel>>
    decreases remaining(toks, k), 3int,
{
    if kind_at(toks, k + 1) == TokenType::RParen {
        Parsed { value: Some(Seq::empty()), at: k + 1, errors: Seq::empty() }
    } else {
        let first = parse_expression(toks, k + 1, LOWEST as nat);
        match first.value {
            Some(e) if first.at > k => {
                let rest = more_arguments(toks, first.at);
                Parsed {
                    value: match rest.value {
                        Some(list) => Some(seq![e] + list),
                        None => None,
                    },
                    at: rest.at,
                    errors: first.errors + rest.errors,
                }
            },
            _ => failed(first.at, first.errors),
        }
    }
}

/// The arguments behind one that ends at `k`: none before a `)`, else one
/// behind a comma and those behind it.
pub open spec fn more_arguments(toks: Seq<Lexeme>, k: int) -> Parsed<Seq<ExprModel>>
    decreases remaining(toks, k), 0int,
{
    if kind_at(toks, k + 1) == TokenType::Comma {
        let next = parse_expression(toks, k + 2, LOWEST as nat);
        match next.value {
            Some(e) if next.at > k => {
                let rest = more_arguments(toks, next.at);
                Parsed {
                    value: match rest.value {
                        Some(list) => Some(seq![e] + list),
                        None => None,
                    },
                    at: rest.at,
                    errors: next.errors + rest.errors,
                }
            },
            _ => failed(next.at, next.errors),
        }
    } else if kind_at(toks, k + 1) == TokenType::RParen {
        Parsed { value: Some(Seq::empty()), at: k + 1, errors: Seq::empty() }
    } else {
        failed(k, seq![unexpected_next(toks, k, "`)`"@)])
    }
}

/// Whether a statement starts with a token of this kind and no other.
pub open spec fn starts_statement(kind: TokenType) -> bool {
    kind == TokenType::Let || kind == TokenType::Return || kind == TokenType::If
}

/// Whether a parser that stands at `k` stands at the end of a statement:
/// at a `;`, or before the end of the input, a `}`, a keyword with which a
/// statement starts, or a token on another line.
pub open spec fn at_boundary(toks: Seq<Lexeme>, k: int) -> bool {
    let next = kind_at(toks, k + 1);
    ||| kind_at(toks, k) == TokenType::Semicolon
    ||| next == TokenType::EOF
    ||| next == TokenType::RBrace
    ||| starts_statement(next)
    ||| line_at(toks, k + 1) != line_at(toks, k)
}

/// Where a parser that failed at `k` takes up its work: the first
/// position from `k` on that is the end of a statement.
pub open spec fn recover(toks: Seq<Lexeme>, k: int) -> int
    decreases remaining(toks, k),
{
    if at_boundary(toks, k) {
        k
    } else {
        recover(toks, k + 1)
    }
}

/// Where the parser stands when it is done with a statement: at its last
/// token, or, where reading it failed, at the end of the statement in which
/// it failed.
pub open spec fn resume(toks: Seq<Lexeme>, read: Parsed<StmtModel>) -> int {
    if read.value is Some {
        read.at
    } else {
        recover(toks, read.at)
    }
}

/// The `let` statement whose `let` stands at `k`: a name, `=`, an
/// expression, and the `;` at which the parser then stands.
pub open spec fn parse_let(toks: Seq<Lexeme>, k: int) -> Parsed<StmtModel> {
    if kind_at(toks, k + 1) != TokenType::Ident {
        failed(k, seq![unexpected_next(toks, k, "identifier"@)])
    } else if kind_at(toks, k + 2) != TokenType::Assign {
        failed(k + 1, seq![unexpected_next(toks, k + 1, "`=` operator"@)])
    } else {
        let read = parse_expression(toks, k + 3, LOWEST as nat);
        match read.value {
            None => failed(read.at, read.errors),
            Some(value) => if kind_at(toks, read.at + 1) == TokenType::Semicolon {
                Parsed {
                    value: Some(
                        StmtModel::Let {
                            token: tok(toks, k + 1),
                            name: tok(toks, k + 1).literal,
                            value,
                        },
                    ),
                    at: read.at + 1,
                    errors: read.errors,
                }
            } else {
                failed(read.at, read.errors.push(unexpected_next(toks, read.at, "`;`"@)))
            },
        }
    }
}

/// The `return` statement whose `return` stands at `k`: `;` at once, or
/// an expression and the `;` at which the parser then stands.
pub open spec fn parse_return(toks: Seq<Lexeme>, k: int) -> Parsed<StmtModel> {
    if kind_at(toks, k + 1) == TokenType::Semicolon {
        Parsed {
            value: Some(StmtModel::Return { token: tok(toks, k), value: ExprModel::Empty }),
            at: k + 1,
            errors: Seq::empty(),
        }
    } else {
        let read = parse_expression(toks, k + 1, LOWEST as nat);
        match read.value {
            None => failed(read.at, read.errors),
            Some(value) => if kind_at(toks, read.at + 1) == TokenType::Semicolon {
                Parsed {
                    value: Some(StmtModel::Return { token: tok(toks, k), value }),
                    at: read.at + 1,
                    errors: read.errors,
                }
            } else {
                failed(read.at, read.errors.push(unexpected_next(toks, read.at, "`;`"@)))
            },
        }
    }
}

/// The statement that is the expression which starts at `k`, with the `;`
/// behind it if there is one.
pub open spec fn parse_expression_statement(toks: Seq<Lexeme>, k: int) -> Parsed<StmtModel> {
    let read = parse_expression(toks, k, LOWEST as nat);
    match read.value {
        None => failed(read.at, read.errors),
        Some(expression) => Parsed {
            value: Some(StmtModel::Expression { token: tok(toks, k), expression }),
            at: if kind_at(toks, read.at + 1) == TokenType::Semicolon {
                read.at + 1
            } else {
                read.at
            },
            errors: read.errors,
        },
    }
}

/// The statement that starts at `k`, by its first token: `let`, `return`,
/// `if`, or an expression.
pub open spec fn parse_statement(toks: Seq<Lexeme>, k: int) -> Parsed<StmtModel>
    decreases remaining(toks, k), 1int,
{
    match kind_at(toks, k) {
        TokenType::Let => parse_let(toks, k),
        TokenType::Return => parse_return(toks, k),
        TokenType::If => parse_if(toks, k),
        _ => parse_expression_statement(toks, k),
    }
}

/// The `if` statement whose `if` stands at `k`: a condition in brackets,
/// a block, and, behind `else`, a second block. The parser then stands at
/// the `}` of the last block.
pub open spec fn parse_if(toks: Seq<Lexeme>, k: int) -> Parsed<StmtModel>
    decreases remaining(toks, k), 0int,
{
    if kind_at(toks, k + 1) != TokenType::LParen {
        failed(k, seq![unexpected_next(toks, k, "`(`"@)])
    } else {
        let head = parse_expression(toks, k + 2, LOWEST as nat);
        let p = head.at;
        match head.value {
            Some(condition) if p >= k => if kind_at(toks, p + 1) != TokenType::RParen {
                failed(p, head.errors.push(unexpected_next(toks, p, "`)`"@)))
            } else if kind_at(toks, p + 2) != TokenType::LBrace {
                failed(p + 1, head.errors.push(unexpected_next(toks, p + 1, "`{`"@)))
            } else {
                let first = parse_block(toks, p + 3);
                let q = first.at;
                match first.value {
                    Some(consequence) if q >= k => if kind_at(toks, q + 1) != TokenType::Else {
                        Parsed {
                            value: Some(
                                StmtModel::If {
                                    token: tok(toks, k),
                                    condition,
                                    consequence,
                                    alternative: None,
                                },
                            ),
                            at: q,
                            errors: head.errors + first.errors,
                        }
                    } else if kind_at(toks, q + 2) != TokenType::LBrace {
                        failed(
                            q + 1,
                            (head.errors + first.errors).push(unexpected_next(toks, q + 1, "`{`"@)),
                        )
                    } else {
                        let second = parse_block(toks, q + 3);
                        Parsed {
                            value: match second.value {
                                Some(alternative) => Some(
                                    StmtModel::If {
                                        token: tok(toks, k),
                                        condition,
                                        consequence,
                                        alternative: Some(alternative),
                                    },
                                ),
                                None => None,
                            },
                            at: second.at,
                            errors: head.errors + first.errors + second.errors,
                        }
                    },
                    _ => failed(q, head.errors + first.errors),
                }
            },
            _ => failed(p, head.errors),
        }
    }
}

/// The statements of a block from `k` on, up to the `}` at which the
/// parser then stands. A statement that cannot be read leaves its
/// diagnostics and no statement. The end of the input before the `}` is a
/// failure.
pub open spec fn parse_block(toks: Seq<Lexeme>, k: int) -> Parsed<Seq<StmtModel>>
    decreases remaining(toks, k), 2int,
{
    let kind = kind_at(toks, k);
    if kind == TokenType::RBrace {
        Parsed { value: Some(Seq::empty()), at: k, errors: Seq::empty() }
    } else if kind == TokenType::EOF {
        failed(k, seq![diagnostic_at(toks, k, expected_message("`}`"@, tok(toks, k)))])
    } else if kind == TokenType::NewLine {
        parse_block(toks, k + 1)
    } else {
        let read = parse_statement(toks, k);
        let next = resume(toks, read);
        if next >= k {
            let rest = parse_block(toks, next + 1);
            Parsed {
                value: match rest.value {
                    Some(list) => Some(statements_of(read) + list),
                    None => None,
                },
                at: rest.at,
                errors: read.errors + rest.errors,
            }
        } else {
            failed(next, read.errors)
        }
    }
}

/// The statement that was read, as a list: empty where reading failed.
pub open spec fn statements_of(read: Parsed<StmtModel>) -> Seq<StmtModel> {
    match read.value {
        Some(statement) => seq![statement],
        None => Seq::empty(),
    }
}

/// What a whole text gives: its statements in their order, the
/// diagnostics in theirs, and where the parser stands at the end.
pub struct Outcome {
    pub statements: Seq<StmtModel>,
    pub at: int,
    pub errors: Seq<DiagModel>,
}

/// The program from `k` on: statement after statement, until the token
/// behind the parser is the end of the input. A statement that cannot be
/// read leaves its diagnostics and no statement, and reading goes on behind
/// the end of that statement.
pub open spec fn parse_program(toks: Seq<Lexeme>, k: int) -> Outcome
    decreases remaining(toks, k),
{
    if kind_at(toks, k + 1) == TokenType::EOF {
        Outcome { statements: Seq::empty(), at: k, errors: Seq::empty() }
    } else if kind_at(toks, k) == TokenType::NewLine {
        parse_program(toks, k + 1)
    } else {
        let read = parse_statement(toks, k);
        let next = resume(toks, read);
        if next >= k {
            let rest = parse_program(toks, next + 1);
            Outcome {
                statements: statements_of(read) + rest.statements,
                at: rest.at,
                errors: read.errors + rest.errors,
            }
        } else {
            Outcome { statements: Seq::empty(), at: next, errors: read.errors }
        }
    }
}

} // verus!
