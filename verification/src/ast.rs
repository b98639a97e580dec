//! The syntax tree: expressions, statements and programs, each with the
//! plain value that contracts speak of.

use vstd::prelude::*;
use vstd::string::StringExecFns;
use crate::tokens::{kind_text, Token, TokenModel, TokenType};

verus! {

/// What an expression is, as plain values.
pub enum ExprModel {
    Empty,
    Identifier(Seq<char>),
    Integer(Seq<char>),
    Boolean(bool),
    Prefix { operator: TokenType, operand: Box<ExprModel> },
    Infix { operator: TokenType, left: Box<ExprModel>, right: Box<ExprModel> },
    Call { callee: Box<ExprModel>, arguments: Seq<ExprModel> },
}

/// What a statement is, as plain values.
pub enum StmtModel {
    Let { token: TokenModel, name: Seq<char>, value: ExprModel },
    Return { token: TokenModel, value: ExprModel },
    Expression { token: TokenModel, expression: ExprModel },
    If {
        token: TokenModel,
        condition: ExprModel,
        consequence: Seq<StmtModel>,
        alternative: Option<Seq<StmtModel>>,
    },
}

/// Anything that has a value: `5`, `-x`, `2 + 2`, `add(1, 2)`.
#[derive(Debug, PartialEq)]
pub enum Expression {
    /// Stands where no expression could be read, and in a bare `return;`.
    Empty,
    /// A name.
    Identifier(String),
    /// A run of decimal digits, as written.
    Integer(String),
    /// `true` or `false`.
    Boolean(bool),
    /// `-` or `!` before an operand.
    Prefix { operator: TokenType, operand: Box<Expression> },
    /// An operator between two operands.
    Infix { operator: TokenType, left: Box<Expression>, right: Box<Expression> },
    /// A callee and the arguments in its brackets.
    Call { callee: Box<Expression>, arguments: Vec<Expression> },
}

/// The plain values of a list of expressions, one for one.
pub open spec fn expressions_view(list: Seq<Expression>) -> Seq<ExprModel>
    decreases list,
{
    Seq::new(
        list.len(),
        |i: int|
            if 0 <= i < list.len() {
                expression_view(list[i])
            } else {
                ExprModel::Empty
            },
    )
}

/// The plain value of an expression.
pub open spec fn expression_view(e: Expression) -> ExprModel
    decreases e,
{
    match e {
        Expression::Empty => ExprModel::Empty,
        Expression::Identifier(name) => ExprModel::Identifier(name@),
        Expression::Integer(digits) => ExprModel::Integer(digits@),
        Expression::Boolean(b) => ExprModel::Boolean(b),
        Expression::Prefix { operator, operand } => ExprModel::Prefix {
            operator,
            operand: Box::new(expression_view(*operand)),
        },
        Expression::Infix { operator, left, right } => ExprModel::Infix {
            operator,
            left: Box::new(expression_view(*left)),
            right: Box::new(expression_view(*right)),
        },
        Expression::Call { callee, arguments } => ExprModel::Call {
            callee: Box::new(expression_view(*callee)),
            arguments: expressions_view(arguments@),
        },
    }
}

impl View for Expression {
    type V = ExprModel;

    open spec fn view(&self) -> ExprModel {
        expression_view(*self)
    }
}

/// An expression as text, with brackets round each operator and its
/// operands: `((-a) * b)`, `add(1, (2 + 3))`. The empty expression is the
/// empty text.
pub open spec fn expression_text(e: ExprModel) -> Seq<char>
    decreases e, 0nat,
{
    match e {
        ExprModel::Empty => Seq::empty(),
        ExprModel::Identifier(name) => name,
        ExprModel::Integer(digits) => digits,
        ExprModel::Boolean(b) => if b {
            "true"@
        } else {
            "false"@
        },
        ExprModel::Prefix { operator, operand } => "("@ + kind_text(operator) + expression_text(
            *operand,
        ) + ")"@,
        ExprModel::Infix { operator, left, right } => "("@ + expression_text(*left) + " "@
            + kind_text(operator) + " "@ + expression_text(*right) + ")"@,
        ExprModel::Call { callee, arguments } => expression_text(*callee) + "("@ + arguments_text(
            arguments,
            arguments.len(),
        ) + ")"@,
    }
}

/// The first `n` expressions of `list` as text, with `, ` between each
/// two.
pub open spec fn arguments_text(list: Seq<ExprModel>, n: nat) -> Seq<char>
    decreases list, n,
{
    if n == 0 || n > list.len() {
        Seq::empty()
    } else if n == 1 {
        expression_text(list[0])
    } else {
        arguments_text(list, (n - 1) as nat) + ", "@ + expression_text(list[n - 1])
    }
}

/// A copy of each expression of `list`, in the same order.
fn clone_expressions(list: &Vec<Expression>) -> (copy: Vec<Expression>)
    ensures
        expressions_view(copy@) == expressions_view(list@),
    decreases list,
{
    let mut copy: Vec<Expression> = Vec::new();
    let mut i: usize = 0;
    while i < list.len()
        invariant
            i <= list.len(),
            copy.len() == i,
            forall|j: int| 0 <= j < i ==> (#[trigger] copy[j])@ == list[j]@,
        decreases list.len() - i,
    {
        assert(decreases_to!(*list => list[i as int]));
        copy.push(list[i].clone());
        i += 1;
    }
    assert(expressions_view(copy@) =~= expressions_view(list@));
    copy
}

impl Clone for Expression {
    /// A copy with the same value.
    fn clone(&self) -> (copy: Self)
        ensures
            copy@ == self@,
        decreases self,
    {
        match self {
            Expression::Empty => Expression::Empty,
            Expression::Identifier(name) => Expression::Identifier(name.clone()),
            Expression::Integer(digits) => Expression::Integer(digits.clone()),
            Expression::Boolean(b) => Expression::Boolean(*b),
            Expression::Prefix { operator, operand } => Expression::Prefix {
                operator: *operator,
                operand: Box::new((**operand).clone()),
            },
            Expression::Infix { operator, left, right } => Expression::Infix {
                operator: *operator,
                left: Box::new((**left).clone()),
                right: Box::new((**right).clone()),
            },
            Expression::Call { callee, arguments } => Expression::Call {
                callee: Box::new((**callee).clone()),
                arguments: clone_expressions(arguments),
            },
        }
    }
}

impl Expression {
    /// The expression as text, with brackets round each operator and its
    /// operands.
    pub fn literal(&self) -> (text: String)
        ensures
            text@ == expression_text(self@),
        decreases self,
    {
        match self {
            Expression::Empty => String::new(),
            Expression::Identifier(name) => name.clone(),
            Expression::Integer(digits) => digits.clone(),
            Expression::Boolean(b) => if *b {
                "true".to_owned()
            } else {
                "false".to_owned()
            },
            Expression::Prefix { operator, operand } => {
                let mut text = String::from_str("(");
                text.append(operator.as_str());
                text.append(operand.literal().as_str());
                text.append(")");
                text
            },
            Expression::Infix { operator, left, right } => {
                let mut text = String::from_str("(");
                text.append(left.literal().as_str());
                text.append(" ");
                text.append(operator.as_str());
                text.append(" ");
                text.append(right.literal().as_str());
                text.append(")");
                text
            },
            Expression::Call { callee, arguments } => {
                let mut text = callee.literal();
                text.append("(");
                let ghost head = text@;
                let ghost list = expressions_view(arguments@);
                assert(head + arguments_text(list, 0) =~= head);
                let mut i: usize = 0;
                while i < arguments.len()
                    invariant
                        i <= arguments.len(),
                        list == expressions_view(arguments@),
                        text@ == head + arguments_text(list, i as nat),
                        decreases_to!(*self => *arguments),
                    decreases arguments.len() - i,
                {
                    assert(decreases_to!(*arguments => arguments[i as int]));
                    assert(decreases_to!(*self => arguments[i as int]));
                    if i > 0 {
                        text.append(", ");
                    }
                    text.append(arguments[i].literal().as_str());
                    i += 1;
                    assert(text@ =~= head + arguments_text(list, i as nat));
                }
                text.append(")");
                text
            },
        }
    }
}

/// The name that a `let` binds.
#[derive(Debug, Clone, PartialEq)]
pub struct Identifier {
    pub name: String,
}

/// `let <name> = <expression>;`
#[derive(Debug, Clone, PartialEq)]
pub struct LetStatement {
    /// The token of the name.
    pub token: Token,
    pub identifier: Identifier,
    pub value: Expression,
}

/// `return <expression>;` or `return;`
#[derive(Debug, Clone, PartialEq)]
pub struct ReturnStatement {
    /// The `return` token.
    pub token: Token,
    pub value: Expression,
}

/// An expression that stands as a statement: `x + 10;`
#[derive(Debug, Clone, PartialEq)]
pub struct ExpressionStatement {
    /// The first token of the expression.
    pub token: Token,
    pub expression: Expression,
}

/// `if (<condition>) { .. }` with or without `else { .. }`
#[derive(Debug, Clone, PartialEq)]
pub struct IfStatement {
    /// The `if` token.
    pub token: Token,
    pub condition: Expression,
    pub consequence: Vec<Statement>,
    pub alternative: Option<Vec<Statement>>,
}

/// One node of the tree at statement level.
#[derive(Debug, PartialEq)]
pub enum Statement {
    Assignment(LetStatement),
    Return(ReturnStatement),
    SingleExpression(ExpressionStatement),
    Conditional(IfStatement),
}

/// The plain values of a list of statements, one for one.
pub open spec fn statements_view(list: Seq<Statement>) -> Seq<StmtModel>
    decreases list,
{
    Seq::new(
        list.len(),
        |i: int|
            if 0 <= i < list.len() {
                statement_view(list[i])
            } else {
                StmtModel::Return { token: arbitrary(), value: ExprModel::Empty }
            },
    )
}

/// The plain value of a statement.
pub open spec fn statement_view(s: Statement) -> StmtModel
    decreases s,
{
    match s {
        Statement::Assignment(s) => StmtModel::Let {
            token: s.token@,
            name: s.identifier.name@,
            value: s.value@,
        },
        Statement::Return(s) => StmtModel::Return { token: s.token@, value: s.value@ },
        Statement::SingleExpression(s) => StmtModel::Expression {
            token: s.token@,
            expression: s.expression@,
        },
        Statement::Conditional(s) => StmtModel::If {
            token: s.token@,
            condition: s.condition@,
            consequence: statements_view(s.consequence@),
            alternative: match s.alternative {
                Some(list) => Some(statements_view(list@)),
                None => None,
            },
        },
    }
}

impl View for Statement {
    type V = StmtModel;

    open spec fn view(&self) -> StmtModel {
        statement_view(*self)
    }
}

/// The token that a statement keeps: of a `let` that of the name, of a
/// `return` and an `if` the keyword, of an expression its first token.
pub open spec fn statement_token(s: StmtModel) -> TokenModel {
    match s {
        StmtModel::Let { token, .. } => token,
        StmtModel::Return { token, .. } => token,
        StmtModel::Expression { token, .. } => token,
        StmtModel::If { token, .. } => token,
    }
}

/// A statement as text, on one line.
pub open spec fn statement_text(s: StmtModel) -> Seq<char>
    decreases s, 0nat,
{
    match s {
        StmtModel::Let { name, value, .. } => "let "@ + name + " = "@ + expression_text(value)
            + ";"@,
        StmtModel::Return { value, .. } => "return "@ + expression_text(value) + ";"@,
        StmtModel::Expression { expression, .. } => expression_text(expression) + ";"@,
        StmtModel::If { condition, consequence, alternative, .. } => "if "@ + expression_text(
            condition,
        ) + " { "@ + block_text(consequence, consequence.len()) + "}"@ + match alternative {
            Some(list) => " else { "@ + block_text(list, list.len()) + "}"@,
            None => Seq::empty(),
        },
    }
}

/// The first `n` statements of `list` as text, with a space behind each.
pub open spec fn block_text(list: Seq<StmtModel>, n: nat) -> Seq<char>
    decreases list, n,
{
    if n == 0 || n > list.len() {
        Seq::empty()
    } else {
        block_text(list, (n - 1) as nat) + statement_text(list[n - 1]) + " "@
    }
}

/// Adds the statements of `list` to `text`, with a space behind each.
fn append_block(text: &mut String, list: &Vec<Statement>)
    ensures
        final(text)@ == old(text)@ + block_text(statements_view(list@), list.len() as nat),
    decreases list,
{
    let ghost head = text@;
    let ghost models = statements_view(list@);
    assert(head + block_text(models, 0) =~= head);
    let mut i: usize = 0;
    while i < list.len()
        invariant
            i <= list.len(),
            models == statements_view(list@),
            text@ == head + block_text(models, i as nat),
        decreases list.len() - i,
    {
        assert(decreases_to!(*list => list[i as int]));
        text.append(list[i].to_string().as_str());
        text.append(" ");
        i += 1;
        assert(text@ =~= head + block_text(models, i as nat));
    }
}

/// A copy of each statement of `list`, in the same order.
fn clone_statements(list: &Vec<Statement>) -> (copy: Vec<Statement>)
    ensures
        statements_view(copy@) == statements_view(list@),
    decreases list,
{
    let mut copy: Vec<Statement> = Vec::new();
    let mut i: usize = 0;
    while i < list.len()
        invariant
            i <= list.len(),
            copy.len() == i,
            forall|j: int| 0 <= j < i ==> (#[trigger] copy[j])@ == list[j]@,
        decreases list.len() - i,
    {
        assert(decreases_to!(*list => list[i as int]));
        copy.push(list[i].clone());
        i += 1;
    }
    assert(statements_view(copy@) =~= statements_view(list@));
    copy
}

impl Clone for Statement {
    /// A copy with the same value.
    fn clone(&self) -> (copy: Self)
        ensures
            copy@ == self@,
        decreases self,
    {
        match self {
            Statement::Assignment(s) => Statement::Assignment(
                LetStatement {
                    token: s.token.duplicate(),
                    identifier: Identifier { name: s.identifier.name.clone() },
                    value: s.value.clone(),
                },
            ),
            Statement::Return(s) => Statement::Return(
                ReturnStatement { token: s.token.duplicate(), value: s.value.clone() },
            ),
            Statement::SingleExpression(s) => Statement::SingleExpression(
                ExpressionStatement {
                    token: s.token.duplicate(),
                    expression: s.expression.clone(),
                },
            ),
            Statement::Conditional(s) => Statement::Conditional(
                IfStatement {
                    token: s.token.duplicate(),
                    condition: s.condition.clone(),
                    consequence: clone_statements(&s.consequence),
                    alternative: match &s.alternative {
                        Some(list) => Some(clone_statements(list)),
                        None => None,
                    },
                },
            ),
        }
    }
}

impl Statement {
    /// The text of the token that the statement keeps.
    pub fn token_literal(&self) -> (text: String)
        ensures
            text@ == statement_token(self@).literal,
    {
        match self {
            Statement::Assignment(s) => s.token.literal.clone(),
            Statement::Return(s) => s.token.literal.clone(),
            Statement::SingleExpression(s) => s.token.literal.clone(),
            Statement::Conditional(s) => s.token.literal.clone(),
        }
    }

    /// The statement as text, on one line.
    pub fn to_string(&self) -> (text: String)
        ensures
            text@ == statement_text(self@),
        decreases self,
    {
        match self {
            Statement::Assignment(s) => {
                let mut text = String::from_str("let ");
                text.append(s.identifier.name.as_str());
                text.append(" = ");
                text.append(s.value.literal().as_str());
                text.append(";");
                text
            },
            Statement::Return(s) => {
                let mut text = String::from_str("return ");
                text.append(s.value.literal().as_str());
                text.append(";");
                text
            },
            Statement::SingleExpression(s) => {
                let mut text = s.expression.literal();
                text.append(";");
                text
            },
            Statement::Conditional(s) => {
                let mut text = String::from_str("if ");
                text.append(s.condition.literal().as_str());
                text.append(" { ");
                append_block(&mut text, &s.consequence);
                text.append("}");
                match &s.alternative {
                    Some(list) => {
                        text.append(" else { ");
                        append_block(&mut text, list);
                        text.append("}");
                    },
                    None => {
                        assert(text@ + Seq::<char>::empty() =~= text@);
                    },
                }
                assert(text@ =~= statement_text(self@));
                text
            },
        }
    }
}

/// The statements of a source text, in the order in which they stand.
pub struct Program {
    pub statements: Vec<Statement>,
}

impl View for Program {
    type V = Seq<StmtModel>;

    open spec fn view(&self) -> Seq<StmtModel> {
        statements_view(self.statements@)
    }
}

impl Program {
    /// A program without statements.
    pub fn new() -> (program: Program)
        ensures
            program@ == Seq::<StmtModel>::empty(),
    {
        let program = Program { statements: Vec::new() };
        assert(program@ =~= Seq::<StmtModel>::empty());
        program
    }

    /// The text of the token that the first statement keeps; the empty
    /// text for a program without statements.
    pub fn token_literal(&self) -> (text: String)
        ensures
            text@ == if self@.len() == 0 {
                Seq::<char>::empty()
            } else {
                statement_token(self@[0]).literal
            },
    {
        if self.statements.len() == 0 {
            String::new()
        } else {
            self.statements[0].token_literal()
        }
    }
}

} // verus!
