//! The parser never moves back: whatever it reads from a position, it
//! then stands at that position or behind it.

use vstd::prelude::*;
use crate::ast::ExprModel;
use crate::grammar::{
    at_boundary, kind_at, more_arguments, parse_arguments, parse_block, parse_expression,
    parse_if, parse_infix, parse_prefix, parse_program, parse_statement, precedence, recover,
    remaining, resume, LOWEST, PREFIX,
};
use crate::lexer::Lexeme;
use crate::tokens::TokenType;

verus! {

/// A prefix expression ends at or behind its first token.
pub proof fn lemma_prefix_progress(toks: Seq<Lexeme>, k: int)
    ensures
        parse_prefix(toks, k).at >= k,
    decreases remaining(toks, k), 1int,
{
    let kind = kind_at(toks, k);
    if kind == TokenType::Bang || kind == TokenType::Minus {
        lemma_expression_progress(toks, k + 1, PREFIX as nat);
    } else if kind == TokenType::LParen {
        lemma_expression_progress(toks, k + 1, LOWEST as nat);
    }
}

/// An expression ends at or behind its first token.
pub proof fn lemma_expression_progress(toks: Seq<Lexeme>, k: int, power: nat)
    ensures
        parse_expression(toks, k, power).at >= k,
    decreases remaining(toks, k), 2int,
{
    lemma_prefix_progress(toks, k);
    let first = parse_prefix(toks, k);
    if let Some(left) = first.value {
        lemma_infix_progress(toks, first.at, power, left);
    }
}

/// What extends an expression ends at or behind the last token of that
/// expression.
pub proof fn lemma_infix_progress(toks: Seq<Lexeme>, k: int, power: nat, left: ExprModel)
    ensures
        parse_infix(toks, k, power, left).at >= k,
    decreases remaining(toks, k), 0int,
{
    let operator = kind_at(toks, k + 1);
    if power >= precedence(operator) {
    } else if operator == TokenType::LParen {
        lemma_arguments_progress(toks, k + 1);
        let arguments = parse_arguments(toks, k + 1);
        if let Some(list) = arguments.value {
            lemma_infix_progress(
                toks,
                arguments.at,
                power,
                ExprModel::Call { callee: Box::new(left), arguments: list },
            );
        }
    } else {
        lemma_expression_progress(toks, k + 2, precedence(operator));
        let right = parse_expression(toks, k + 2, precedence(operator));
        if let Some(e) = right.value {
            lemma_infix_progress(
                toks,
                right.at,
                power,
                ExprModel::Infix { operator, left: Box::new(left), right: Box::new(e) },
            );
        }
    }
}

/// The arguments of a call end behind its `(`.
pub proof fn lemma_arguments_progress(toks: Seq<Lexeme>, k: int)
    ensures
        parse_arguments(toks, k).at > k,
    decreases remaining(toks, k), 3int,
{
    if kind_at(toks, k + 1) != TokenType::RParen {
        lemma_expression_progress(toks, k + 1, LOWEST as nat);
        let first = parse_expression(toks, k + 1, LOWEST as nat);
        if first.value is Some {
            lemma_more_arguments_progress(toks, first.at);
        }
    }
}

/// The arguments behind an argument end at or behind its last token.
pub proof fn lemma_more_arguments_progress(toks: Seq<Lexeme>, k: int)
    ensures
        more_arguments(toks, k).at >= k,
    decreases remaining(toks, k), 0int,
{
    if kind_at(toks, k + 1) == TokenType::Comma {
        lemma_expression_progress(toks, k + 2, LOWEST as nat);
        let next = parse_expression(toks, k + 2, LOWEST as nat);
        if next.value is Some {
            lemma_more_arguments_progress(toks, next.at);
        }
    }
}

/// The parser takes up its work at or behind the place where it failed,
/// and at the end of a statement.
pub proof fn lemma_recover(toks: Seq<Lexeme>, k: int)
    ensures
        recover(toks, k) >= k,
        at_boundary(toks, recover(toks, k)),
    decreases remaining(toks, k),
{
    if !at_boundary(toks, k) {
        lemma_recover(toks, k + 1);
    }
}

/// A statement ends at or behind its first token, and so does the work
/// that is taken up where it cannot be read.
pub proof fn lemma_statement_progress(toks: Seq<Lexeme>, k: int)
    ensures
        parse_statement(toks, k).at >= k,
        resume(toks, parse_statement(toks, k)) >= k,
    decreases remaining(toks, k), 1int,
{
    let kind = kind_at(toks, k);
    if kind == TokenType::Let {
        lemma_expression_progress(toks, k + 3, LOWEST as nat);
    } else if kind == TokenType::Return {
        lemma_expression_progress(toks, k + 1, LOWEST as nat);
    } else if kind == TokenType::If {
        lemma_if_progress(toks, k);
    } else {
        lemma_expression_progress(toks, k, LOWEST as nat);
    }
    lemma_recover(toks, parse_statement(toks, k).at);
}

/// An `if` statement ends at or behind its `if`.
pub proof fn lemma_if_progress(toks: Seq<Lexeme>, k: int)
    ensures
        parse_if(toks, k).at >= k,
    decreases remaining(toks, k), 0int,
{
    if kind_at(toks, k + 1) == TokenType::LParen {
        lemma_expression_progress(toks, k + 2, LOWEST as nat);
        let head = parse_expression(toks, k + 2, LOWEST as nat);
        let p = head.at;
        if head.value is Some && kind_at(toks, p + 1) == TokenType::RParen && kind_at(toks, p + 2)
            == TokenType::LBrace {
            lemma_block_progress(toks, p + 3);
            let first = parse_block(toks, p + 3);
            let q = first.at;
            if first.value is Some && kind_at(toks, q + 1) == TokenType::Else && kind_at(
                toks,
                q + 2,
            ) == TokenType::LBrace {
                lemma_block_progress(toks, q + 3);
            }
        }
    }
}

/// A block ends at or behind its first token.
pub proof fn lemma_block_progress(toks: Seq<Lexeme>, k: int)
    ensures
        parse_block(toks, k).at >= k,
    decreases remaining(toks, k), 2int,
{
    let kind = kind_at(toks, k);
    if kind == TokenType::RBrace || kind == TokenType::EOF {
    } else if kind == TokenType::NewLine {
        lemma_block_progress(toks, k + 1);
    } else {
        lemma_statement_progress(toks, k);
        lemma_block_progress(toks, resume(toks, parse_statement(toks, k)) + 1);
    }
}

/// A program ends at or behind its first token, and with the end of the
/// input behind the parser.
pub proof fn lemma_program_progress(toks: Seq<Lexeme>, k: int)
    ensures
        parse_program(toks, k).at >= k,
        kind_at(toks, parse_program(toks, k).at + 1) == TokenType::EOF,
    decreases remaining(toks, k),
{
    if kind_at(toks, k + 1) == TokenType::EOF {
    } else if kind_at(toks, k) == TokenType::NewLine {
        lemma_program_progress(toks, k + 1);
    } else {
        lemma_statement_progress(toks, k);
        lemma_program_progress(toks, resume(toks, parse_statement(toks, k)) + 1);
    }
}

} // verus!
