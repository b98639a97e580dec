use vvlang::ast::{Expression, Statement};
use vvlang::parser::{binding_power, expected_text, no_prefix_text, Parser};
use vvlang::tokens::{Token, TokenType};

fn parse(input: &str) -> (Vec<Statement>, Vec<(String, usize)>) {
    let mut parser = Parser::new(input).unwrap();
    let program = parser.parse_program();
    let errors = parser.errors.iter().map(|e| (e.message.clone(), e.line_num)).collect();
    (program.statements, errors)
}

fn expression(input: &str) -> Expression {
    let (mut statements, errors) = parse(input);
    assert_eq!(errors, vec![]);
    assert_eq!(statements.len(), 1);
    match statements.remove(0) {
        Statement::SingleExpression(s) => s.expression,
        other => panic!("not an expression statement: {other:?}"),
    }
}

fn name(text: &str) -> Expression {
    Expression::Identifier(text.to_string())
}

fn number(text: &str) -> Expression {
    Expression::Integer(text.to_string())
}

fn infix(operator: TokenType, left: Expression, right: Expression) -> Expression {
    Expression::Infix { operator, left: Box::new(left), right: Box::new(right) }
}

fn prefix(operator: TokenType, operand: Expression) -> Expression {
    Expression::Prefix { operator, operand: Box::new(operand) }
}

fn check_let_statements(input: &str, expected_names: Vec<&str>, expected_count: usize) {
    let mut parser = Parser::new(input).unwrap();
    let program = parser.parse_program();
    assert_eq!(program.statements.len(), expected_count);
    assert_eq!(expected_names.len(), expected_count);
    for (statement, expected_name) in std::iter::zip(program.statements.iter(), expected_names) {
        assert!(matches!(statement, Statement::Assignment(_)));
        match statement {
            Statement::Assignment(let_statement) => {
                assert_eq!(let_statement.identifier.name, expected_name);
            }
            _ => {}
        }
    }
}

fn check_return_statements(input: &str, expected_count: usize) {
    let mut parser = Parser::new(input).unwrap();
    let program = parser.parse_program();
    assert_eq!(program.statements.len(), expected_count);
    for i in 0..expected_count {
        let current_statement = program.statements.get(i).unwrap();
        assert!(matches!(current_statement, Statement::Return(_)));
        match current_statement {
            Statement::Return(rs) => {
                assert_eq!(rs.token.kind, TokenType::Return);
            }
            _ => {}
        }
    }
}

#[test]
fn test_let_statements_single() {
    check_let_statements("let x = 5;", vec!["x"], 1);
}

#[test]
fn test_let_statements_two_on_a_line() {
    check_let_statements("let x = 5; let y = 10;", vec!["x", "y"], 2);
}

#[test]
fn test_let_statements_one_per_line() {
    check_let_statements(
        "
let x = 5;
let y = 10;
let foobar = 838383;
",
        vec!["x", "y", "foobar"],
        3,
    );
}

#[test]
fn test_return_statements_single() {
    check_return_statements("return 5;", 1);
}

#[test]
fn test_return_statements_multiple() {
    check_return_statements(
        "
return 5;
return 10;
return 993322;
",
        3,
    );
}

#[test]
fn test_parser_new() {
    assert!(Parser::new("x").is_ok());
}

#[test]
fn test_parser_new_error() {
    assert!(Parser::new("").is_err());
}

#[test]
fn test_let_statement_holds_its_value() {
    let (statements, errors) = parse("let x = 5 + y;");
    assert_eq!(errors, vec![]);
    assert_eq!(statements.len(), 1);
    match &statements[0] {
        Statement::Assignment(s) => {
            assert_eq!(s.identifier.name, "x");
            assert_eq!(s.token.kind, TokenType::Ident);
            assert_eq!(s.token.literal, "x");
            assert_eq!(s.value, infix(TokenType::Plus, number("5"), name("y")));
        }
        other => panic!("not a let: {other:?}"),
    }
}

#[test]
fn test_bare_return_has_the_empty_expression() {
    let (statements, errors) = parse("return;");
    assert_eq!(errors, vec![]);
    assert_eq!(statements.len(), 1);
    match &statements[0] {
        Statement::Return(s) => assert_eq!(s.value, Expression::Empty),
        other => panic!("not a return: {other:?}"),
    }
}

#[test]
fn test_round_trip_program() {
    let input = "let five = 5;\nlet ten = 10;\nlet add = fn(x, y){ x + y; };\nlet result = add(five, ten);\n";
    let (statements, errors) = parse(input);
    let names: Vec<String> = statements
        .iter()
        .filter_map(|s| match s {
            Statement::Assignment(l) => Some(l.identifier.name.clone()),
            _ => None,
        })
        .collect();
    // the grammar has no function literal: the third `let` is reported
    // and left out, the others stand in their order
    assert_eq!(names, vec!["five", "ten", "result"]);
    assert_eq!(
        errors,
        vec![
            ("no prefix parse function for `fn`".to_string(), 3),
            ("expected `;`, found `{`".to_string(), 3),
            ("no prefix parse function for `}`".to_string(), 3),
        ]
    );
    match &statements[3] {
        Statement::Assignment(l) => assert_eq!(
            l.value,
            Expression::Call {
                callee: Box::new(name("add")),
                arguments: vec![name("five"), name("ten")],
            }
        ),
        other => panic!("not a let: {other:?}"),
    }
}

#[test]
fn test_error_recovery_missing_identifier() {
    let (statements, errors) = parse("let = 5;");
    assert_eq!(statements.len(), 0);
    assert_eq!(errors, vec![("expected identifier, found `=`".to_string(), 1)]);
}

#[test]
fn test_error_recovery_goes_on_with_the_next_statement() {
    let (statements, errors) = parse("let = 5; let y = 1;\nlet 3;\nreturn y;");
    assert_eq!(statements.len(), 2);
    assert!(matches!(statements[0], Statement::Assignment(_)));
    assert!(matches!(statements[1], Statement::Return(_)));
    assert_eq!(
        errors,
        vec![
            ("expected identifier, found `=`".to_string(), 1),
            ("expected identifier, found `3`".to_string(), 2),
        ]
    );
}

#[test]
fn test_missing_assign() {
    let (statements, errors) = parse("let x 5;");
    assert_eq!(statements.len(), 0);
    assert_eq!(errors, vec![("expected `=` operator, found `5`".to_string(), 1)]);
}

#[test]
fn test_missing_semicolon_at_end_of_input() {
    let (statements, errors) = parse("let x = 5");
    assert_eq!(statements.len(), 0);
    assert_eq!(errors, vec![("expected `;`, found end of input".to_string(), 1)]);
    let (statements, errors) = parse("return 1 + 2");
    assert_eq!(statements.len(), 0);
    assert_eq!(errors, vec![("expected `;`, found end of input".to_string(), 1)]);
}

#[test]
fn test_no_prefix_parse_function() {
    let (statements, errors) = parse("* 5;");
    assert_eq!(errors, vec![("no prefix parse function for `*`".to_string(), 1)]);
    assert_eq!(statements.len(), 2);
    match &statements[0] {
        Statement::SingleExpression(s) => assert_eq!(s.expression, Expression::Empty),
        other => panic!("not an expression statement: {other:?}"),
    }
}

#[test]
fn test_prefix_binds_tighter_than_product() {
    assert_eq!(
        expression("-a * b"),
        infix(TokenType::Asterisk, prefix(TokenType::Minus, name("a")), name("b"))
    );
}

#[test]
fn test_product_binds_tighter_than_sum() {
    assert_eq!(
        expression("a + b * c"),
        infix(TokenType::Plus, name("a"), infix(TokenType::Asterisk, name("b"), name("c")))
    );
}

#[test]
fn test_precedence_table() {
    assert_eq!(
        expression("a == b < c + d * !e;"),
        infix(
            TokenType::Eq,
            name("a"),
            infix(
                TokenType::Lt,
                name("b"),
                infix(
                    TokenType::Plus,
                    name("c"),
                    infix(TokenType::Asterisk, name("d"), prefix(TokenType::Bang, name("e")))
                )
            )
        )
    );
    assert_eq!(
        expression("a - b - c"),
        infix(TokenType::Minus, infix(TokenType::Minus, name("a"), name("b")), name("c"))
    );
    assert_eq!(
        expression("a * b / c != d > e"),
        infix(
            TokenType::NotEq,
            infix(TokenType::Slash, infix(TokenType::Asterisk, name("a"), name("b")), name("c")),
            infix(TokenType::Gt, name("d"), name("e"))
        )
    );
}

#[test]
fn test_grouping_resets_the_threshold() {
    assert_eq!(
        expression("(a + b) * c"),
        infix(TokenType::Asterisk, infix(TokenType::Plus, name("a"), name("b")), name("c"))
    );
    let (statements, errors) = parse("(a + b;");
    assert_eq!(statements.len(), 0);
    assert_eq!(errors, vec![("expected `)`, found `;`".to_string(), 1)]);
}

#[test]
fn test_literals() {
    assert_eq!(expression("true;"), Expression::Boolean(true));
    assert_eq!(expression("false;"), Expression::Boolean(false));
    assert_eq!(expression("42;"), number("42"));
    assert_eq!(expression("x;"), name("x"));
}

#[test]
fn test_calls() {
    assert_eq!(
        expression("f();"),
        Expression::Call { callee: Box::new(name("f")), arguments: vec![] }
    );
    assert_eq!(
        expression("add(1, 2 * 3, -x) + 1"),
        infix(
            TokenType::Plus,
            Expression::Call {
                callee: Box::new(name("add")),
                arguments: vec![
                    number("1"),
                    infix(TokenType::Asterisk, number("2"), number("3")),
                    prefix(TokenType::Minus, name("x")),
                ],
            },
            number("1")
        )
    );
    let (statements, errors) = parse("f(1, 2;");
    assert_eq!(statements.len(), 0);
    assert_eq!(errors, vec![("expected `)`, found `;`".to_string(), 1)]);
}

#[test]
fn test_if_statement() {
    let (statements, errors) = parse("if (x < y) { return x; } else { let z = y; z; }\n1;");
    assert_eq!(errors, vec![]);
    assert_eq!(statements.len(), 2);
    match &statements[0] {
        Statement::Conditional(s) => {
            assert_eq!(s.token.kind, TokenType::If);
            assert_eq!(s.condition, infix(TokenType::Lt, name("x"), name("y")));
            assert_eq!(s.consequence.len(), 1);
            assert!(matches!(s.consequence[0], Statement::Return(_)));
            let alternative = s.alternative.as_ref().unwrap();
            assert_eq!(alternative.len(), 2);
            assert!(matches!(alternative[0], Statement::Assignment(_)));
            assert!(matches!(alternative[1], Statement::SingleExpression(_)));
        }
        other => panic!("not an if: {other:?}"),
    }
}

#[test]
fn test_if_statement_without_else_and_nested() {
    let (statements, errors) = parse("if (a) {\n  if (b) { c; }\n}\nd;");
    assert_eq!(errors, vec![]);
    assert_eq!(statements.len(), 2);
    match &statements[0] {
        Statement::Conditional(s) => {
            assert!(s.alternative.is_none());
            assert_eq!(s.consequence.len(), 1);
            assert!(matches!(s.consequence[0], Statement::Conditional(_)));
        }
        other => panic!("not an if: {other:?}"),
    }
}

#[test]
fn test_if_statement_diagnostics() {
    assert_eq!(parse("if x) { y; }\n1;").1[0], ("expected `(`, found `x`".to_string(), 1));
    assert_eq!(parse("if x\n1;").1, vec![("expected `(`, found `x`".to_string(), 1)]);
    assert_eq!(parse("if (x { y; }\n1;").1[0], ("expected `)`, found `{`".to_string(), 1));
    assert_eq!(parse("if (x) y; \n1;").1[0], ("expected `{`, found `y`".to_string(), 1));
    assert_eq!(
        parse("if (x) { y;").1,
        vec![("expected `}`, found end of input".to_string(), 1)]
    );
    assert_eq!(
        parse("if (x) { y; } else z;\n1;").1[0],
        ("expected `{`, found `z`".to_string(), 1)
    );
}

#[test]
fn test_diagnostics_carry_the_line() {
    let (_, errors) = parse("let a = 1;\n\nlet = 2;\nlet b = 3;\nlet c 4;\nlet d = 5;");
    assert_eq!(
        errors,
        vec![
            ("expected identifier, found `=`".to_string(), 3),
            ("expected `=` operator, found `4`".to_string(), 5),
        ]
    );
}

#[test]
fn test_last_statement_needs_no_semicolon() {
    let (statements, errors) = parse("a + b");
    assert_eq!(errors, vec![]);
    assert_eq!(statements.len(), 1);
}

#[test]
fn test_parse_program_twice_adds_nothing() {
    let mut parser = Parser::new("let x = 5; let = 1;").unwrap();
    let first = parser.parse_program();
    assert_eq!(first.statements.len(), 1);
    assert_eq!(parser.errors.len(), 1);
    let second = parser.parse_program();
    assert_eq!(second.statements.len(), 0);
    assert_eq!(parser.errors.len(), 1);
}

#[test]
fn test_report_errors_is_empty_without_diagnostics() {
    let mut parser = Parser::new("let x = 5;").unwrap();
    parser.parse_program();
    assert_eq!(parser.report_errors(), "");
}

#[test]
fn test_report_errors_one() {
    let mut parser = Parser::new("let = 5;").unwrap();
    parser.parse_program();
    assert_eq!(
        parser.report_errors(),
        "\nFound 1 error while parsing:\nline 1; expected identifier, found `=`\n"
    );
}

#[test]
fn test_report_errors_many() {
    let mut text = String::from("let = 1;\n");
    for _ in 0..11 {
        text.push_str("let x 2;\n");
    }
    let mut parser = Parser::new(&text).unwrap();
    parser.parse_program();
    let mut expected =
        String::from("\nFound 12 errors while parsing:\nline 1; expected identifier, found `=`\n");
    for line in 2..13 {
        expected.push_str(&format!("line {line}; expected `=` operator, found `2`\n"));
    }
    assert_eq!(parser.report_errors(), expected);
}

#[test]
fn test_report_errors_changes_nothing() {
    let mut parser = Parser::new("let = 5; let y = 2; let z 3;").unwrap();
    let program = parser.parse_program();
    let statements = format!("{:?}", program.statements);
    let errors = parser.errors.clone();
    assert_eq!(errors.len(), 2);
    let first = parser.report_errors();
    assert_eq!(parser.errors, errors);
    for _ in 0..5 {
        assert_eq!(parser.report_errors(), first);
    }
    assert_eq!(parser.errors, errors);
    assert_eq!(format!("{:?}", program.statements), statements);
}

#[test]
fn test_diagnostics_have_column_zero() {
    let mut parser = Parser::new("let = 5;").unwrap();
    parser.parse_program();
    assert_eq!(parser.errors[0].char_offset, 0);
    assert_eq!(parser.errors[0].line_num, 1);
}

#[test]
fn test_parser_error_new() {
    let error = vvlang::parser::ParserError::new("message", 3, 7);
    assert_eq!(error.message, "message");
    assert_eq!(error.line_num, 3);
    assert_eq!(error.char_offset, 7);
}

#[test]
fn test_expression_literal() {
    assert_eq!(expression("-a * b").literal(), "((-a) * b)");
    assert_eq!(expression("a + b * c").literal(), "(a + (b * c))");
    assert_eq!(expression("!true == false").literal(), "((!true) == false)");
    assert_eq!(expression("add(1, 2 * 3, f())").literal(), "add(1, (2 * 3), f())");
    assert_eq!(expression("x;").literal(), "x");
    assert_eq!(expression("12;").literal(), "12");
    assert_eq!(Expression::Empty.literal(), "");
}

#[test]
fn test_statement_to_string() {
    let (statements, errors) = parse(
        "let x = 1 + 2; return x; return; f(x); if (x < 1) { return 1; } if (a) { b; c; } else { d; }",
    );
    assert_eq!(errors, vec![]);
    let texts: Vec<String> = statements.iter().map(|s| s.to_string()).collect();
    assert_eq!(
        texts,
        vec![
            "let x = (1 + 2);",
            "return x;",
            "return ;",
            "f(x);",
            "if (x < 1) { return 1; }",
            "if a { b; c; } else { d; }",
        ]
    );
}

#[test]
fn test_token_literal() {
    let mut parser = Parser::new("let x = 1; return x; y + 1; if (a) { b; }").unwrap();
    let program = parser.parse_program();
    let literals: Vec<String> = program.statements.iter().map(|s| s.token_literal()).collect();
    assert_eq!(literals, vec!["x", "return", "y", "if"]);
    assert_eq!(program.token_literal(), "x");
    assert_eq!(vvlang::ast::Program::new().token_literal(), "");
    assert_eq!(vvlang::ast::Program::new().statements.len(), 0);
}

#[test]
fn test_binding_power() {
    assert_eq!(binding_power(TokenType::Eq), 1);
    assert_eq!(binding_power(TokenType::NotEq), 1);
    assert_eq!(binding_power(TokenType::Lt), 2);
    assert_eq!(binding_power(TokenType::Gt), 2);
    assert_eq!(binding_power(TokenType::Plus), 3);
    assert_eq!(binding_power(TokenType::Minus), 3);
    assert_eq!(binding_power(TokenType::Asterisk), 4);
    assert_eq!(binding_power(TokenType::Slash), 4);
    assert_eq!(binding_power(TokenType::LParen), 6);
    assert_eq!(binding_power(TokenType::Semicolon), 0);
    assert_eq!(binding_power(TokenType::EOF), 0);
    assert_eq!(vvlang::grammar::LOWEST, 0);
    assert_eq!(vvlang::grammar::PREFIX, 5);
}

#[test]
fn test_message_texts() {
    assert_eq!(
        expected_text("`;`", &Token::new(TokenType::Ident, "x")),
        "expected `;`, found `x`"
    );
    assert_eq!(
        expected_text("identifier", &Token::new(TokenType::EOF, "")),
        "expected identifier, found end of input"
    );
    assert_eq!(
        no_prefix_text(&Token::new(TokenType::Plus, "+")),
        "no prefix parse function for `+`"
    );
}

#[test]
fn test_reading_stops_before_the_last_token() {
    let (statements, errors) = parse("x");
    assert_eq!(statements.len(), 0);
    assert_eq!(errors, vec![]);
    let (statements, errors) = parse("let a = 1; b");
    assert_eq!(statements.len(), 1);
    assert_eq!(errors, vec![]);
}

#[test]
fn test_clone_keeps_the_tree() {
    let (statements, _) = parse("let x = f(1, -y) * 2; if (a) { return b; } else { c; }");
    assert_eq!(statements.len(), 2);
    for statement in statements.iter() {
        assert_eq!(&statement.clone(), statement);
    }
    let e = expression("f(a + b, !c)(d);");
    assert_eq!(e.clone(), e);
}
