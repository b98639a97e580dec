use vvlang::text::{decimal_string, string_of};
use vvlang::tokens::TokenType;

#[test]
fn test_decimal_string() {
    assert_eq!(decimal_string(0), "0");
    assert_eq!(decimal_string(7), "7");
    assert_eq!(decimal_string(10), "10");
    assert_eq!(decimal_string(1234567890), "1234567890");
    assert_eq!(decimal_string(usize::MAX), usize::MAX.to_string());
}

#[test]
fn test_string_of() {
    assert_eq!(string_of(&vec!['a', 'é', '_', '1']), "aé_1");
    assert_eq!(string_of(&Vec::new()), "");
}

#[test]
fn test_token_type_to_string() {
    let expected = [
        (TokenType::Illegal, "Illegal"),
        (TokenType::EOF, "EOF"),
        (TokenType::Ident, "IDENT"),
        (TokenType::Int, "int"),
        (TokenType::Assign, "="),
        (TokenType::Eq, "=="),
        (TokenType::NotEq, "!="),
        (TokenType::Plus, "+"),
        (TokenType::Minus, "-"),
        (TokenType::Bang, "!"),
        (TokenType::Asterisk, "*"),
        (TokenType::Slash, "/"),
        (TokenType::Lt, "<"),
        (TokenType::Gt, ">"),
        (TokenType::Comma, ","),
        (TokenType::Semicolon, ";"),
        (TokenType::LParen, "("),
        (TokenType::RParen, ")"),
        (TokenType::LBrace, "{"),
        (TokenType::RBrace, "}"),
        (TokenType::Function, "fn"),
        (TokenType::Let, "let"),
        (TokenType::True, "true"),
        (TokenType::False, "false"),
        (TokenType::If, "if"),
        (TokenType::Else, "else"),
        (TokenType::Return, "return"),
        (TokenType::NewLine, "\n"),
    ];
    for (kind, text) in expected {
        assert_eq!(kind.to_string(), text);
        assert_eq!(kind.as_str(), text);
    }
}
