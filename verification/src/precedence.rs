//! How operators group: what the grammar reads from short runs of names
//! and operators, whatever the names and whatever stands around them.

use vstd::prelude::*;
use crate::ast::ExprModel;
use crate::grammar::{
    kind_at, parse_expression, parse_infix, parse_prefix, precedence, tok, Parsed, LOWEST, PREFIX,
};
use crate::lexer::Lexeme;
use crate::tokens::TokenType;

verus! {

/// Whether `kind` is that of an operator that stands between two
/// operands.
pub open spec fn binary(kind: TokenType) -> bool {
    0 < precedence(kind) < PREFIX
}

/// A name between operators that bind no more tightly than `power` is an
/// expression by itself.
pub proof fn lemma_single_name(toks: Seq<Lexeme>, k: int, power: nat)
    requires
        kind_at(toks, k) == TokenType::Ident,
        precedence(kind_at(toks, k + 1)) <= power,
    ensures
        parse_expression(toks, k, power) == (Parsed {
            value: Some(ExprModel::Identifier(tok(toks, k).literal)),
            at: k,
            errors: Seq::empty(),
        }),
{
    let first = parse_prefix(toks, k);
    let whole = parse_infix(toks, first.at, power, first.value->0);
    assert(first.errors + whole.errors =~= Seq::empty());
}

/// A prefix operator binds more tightly than any operator between two
/// operands: `-a * b` is the product of `-a` and `b`.
pub proof fn lemma_prefix_binds_tighter(toks: Seq<Lexeme>, k: int)
    requires
        kind_at(toks, k) == TokenType::Minus || kind_at(toks, k) == TokenType::Bang,
        kind_at(toks, k + 1) == TokenType::Ident,
        binary(kind_at(toks, k + 2)),
        kind_at(toks, k + 3) == TokenType::Ident,
        precedence(kind_at(toks, k + 4)) == 0,
    ensures
        parse_expression(toks, k, LOWEST as nat) == (Parsed {
            value: Some(
                ExprModel::Infix {
                    operator: kind_at(toks, k + 2),
                    left: Box::new(
                        ExprModel::Prefix {
                            operator: kind_at(toks, k),
                            operand: Box::new(ExprModel::Identifier(tok(toks, k + 1).literal)),
                        },
                    ),
                    right: Box::new(ExprModel::Identifier(tok(toks, k + 3).literal)),
                },
            ),
            at: k + 3,
            errors: Seq::empty(),
        }),
{
    let operator = kind_at(toks, k + 2);
    lemma_single_name(toks, k + 1, PREFIX as nat);
    lemma_single_name(toks, k + 3, precedence(operator));
    let negated = ExprModel::Prefix {
        operator: kind_at(toks, k),
        operand: Box::new(ExprModel::Identifier(tok(toks, k + 1).literal)),
    };
    let first = parse_prefix(toks, k);
    assert(first == (Parsed { value: Some(negated), at: k + 1, errors: Seq::empty() }));
    let both = ExprModel::Infix {
        operator,
        left: Box::new(negated),
        right: Box::new(ExprModel::Identifier(tok(toks, k + 3).literal)),
    };
    let last = parse_infix(toks, k + 3, LOWEST as nat, both);
    assert(last == (Parsed { value: Some(both), at: k + 3, errors: Seq::empty() }));
    let whole = parse_infix(toks, k + 1, LOWEST as nat, negated);
    assert(whole.errors =~= Seq::empty());
    assert(first.errors + whole.errors =~= Seq::empty());
}

/// Of two operators the one that binds more tightly takes the operand
/// between them: `a + b * c` is the sum of `a` and `b * c`.
pub proof fn lemma_tighter_takes_the_middle(toks: Seq<Lexeme>, k: int)
    requires
        kind_at(toks, k) == TokenType::Ident,
        binary(kind_at(toks, k + 1)),
        kind_at(toks, k + 2) == TokenType::Ident,
        binary(kind_at(toks, k + 3)),
        precedence(kind_at(toks, k + 1)) < precedence(kind_at(toks, k + 3)),
        kind_at(toks, k + 4) == TokenType::Ident,
        precedence(kind_at(toks, k + 5)) == 0,
    ensures
        parse_expression(toks, k, LOWEST as nat) == (Parsed {
            value: Some(
                ExprModel::Infix {
                    operator: kind_at(toks, k + 1),
                    left: Box::new(ExprModel::Identifier(tok(toks, k).literal)),
                    right: Box::new(
                        ExprModel::Infix {
                            operator: kind_at(toks, k + 3),
                            left: Box::new(ExprModel::Identifier(tok(toks, k + 2).literal)),
                            right: Box::new(ExprModel::Identifier(tok(toks, k + 4).literal)),
                        },
                    ),
                },
            ),
            at: k + 4,
            errors: Seq::empty(),
        }),
{
    let outer = kind_at(toks, k + 1);
    let inner = kind_at(toks, k + 3);
    let a = ExprModel::Identifier(tok(toks, k).literal);
    let b = ExprModel::Identifier(tok(toks, k + 2).literal);
    let c = ExprModel::Identifier(tok(toks, k + 4).literal);
    let product = ExprModel::Infix { operator: inner, left: Box::new(b), right: Box::new(c) };
    let sum = ExprModel::Infix { operator: outer, left: Box::new(a), right: Box::new(product) };
    lemma_single_name(toks, k + 4, precedence(inner));
    // the right side of the outer operator: `b`, extended by the inner one
    let after_product = parse_infix(toks, k + 4, precedence(outer), product);
    assert(after_product == (Parsed { value: Some(product), at: k + 4, errors: Seq::empty() }));
    let right_rest = parse_infix(toks, k + 2, precedence(outer), b);
    assert(right_rest.errors =~= Seq::empty());
    let right = parse_expression(toks, k + 2, precedence(outer));
    assert(right.errors =~= Seq::empty());
    assert(right == (Parsed { value: Some(product), at: k + 4, errors: Seq::empty() }));
    // the whole: `a`, extended by the outer operator and that right side
    let after_sum = parse_infix(toks, k + 4, LOWEST as nat, sum);
    assert(after_sum == (Parsed { value: Some(sum), at: k + 4, errors: Seq::empty() }));
    let rest = parse_infix(toks, k, LOWEST as nat, a);
    assert(rest.errors =~= Seq::empty());
    let first = parse_prefix(toks, k);
    assert(first.errors + rest.errors =~= Seq::empty());
}

/// Operators that bind equally group to the left: `a - b - c` is the
/// difference of `a - b` and `c`.
pub proof fn lemma_equal_groups_left(toks: Seq<Lexeme>, k: int)
    requires
        kind_at(toks, k) == TokenType::Ident,
        binary(kind_at(toks, k + 1)),
        kind_at(toks, k + 2) == TokenType::Ident,
        binary(kind_at(toks, k + 3)),
        precedence(kind_at(toks, k + 1)) >= precedence(kind_at(toks, k + 3)),
        kind_at(toks, k + 4) == TokenType::Ident,
        precedence(kind_at(toks, k + 5)) == 0,
    ensures
        parse_expression(toks, k, LOWEST as nat) == (Parsed {
            value: Some(
                ExprModel::Infix {
                    operator: kind_at(toks, k + 3),
                    left: Box::new(
                        ExprModel::Infix {
                            operator: kind_at(toks, k + 1),
                            left: Box::new(ExprModel::Identifier(tok(toks, k).literal)),
                            right: Box::new(ExprModel::Identifier(tok(toks, k + 2).literal)),
                        },
                    ),
                    right: Box::new(ExprModel::Identifier(tok(toks, k + 4).literal)),
                },
            ),
            at: k + 4,
            errors: Seq::empty(),
        }),
{
    let first_op = kind_at(toks, k + 1);
    let second_op = kind_at(toks, k + 3);
    let a = ExprModel::Identifier(tok(toks, k).literal);
    let b = ExprModel::Identifier(tok(toks, k + 2).literal);
    let c = ExprModel::Identifier(tok(toks, k + 4).literal);
    let left = ExprModel::Infix { operator: first_op, left: Box::new(a), right: Box::new(b) };
    let whole = ExprModel::Infix { operator: second_op, left: Box::new(left), right: Box::new(c) };
    lemma_single_name(toks, k + 2, precedence(first_op));
    lemma_single_name(toks, k + 4, precedence(second_op));
    let last = parse_infix(toks, k + 4, LOWEST as nat, whole);
    assert(last == (Parsed { value: Some(whole), at: k + 4, errors: Seq::empty() }));
    let middle = parse_infix(toks, k + 2, LOWEST as nat, left);
    assert(middle.errors =~= Seq::empty());
    let rest = parse_infix(toks, k, LOWEST as nat, a);
    assert(rest.errors =~= Seq::empty());
    let first = parse_prefix(toks, k);
    assert(first.errors + rest.errors =~= Seq::empty());
}

} // verus!
