use vvlang::lexer::{is_letter, keyword_or_ident, Lexer, LexerError};
use vvlang::tokens::{Token, TokenType};

fn lex(input: &str, count: usize) -> Vec<Token> {
    let mut lexer = Lexer::new(input).unwrap();
    let mut tokens = Vec::new();
    for _ in 0..count {
        tokens.push(lexer.next_token());
    }
    tokens
}

fn kinds(input: &str, count: usize) -> Vec<TokenType> {
    lex(input, count).iter().map(|t| t.kind).collect()
}

const SAMPLE: &str = "
let five = 5;
let ten = 10;
let add = fn(x, y){
    x + y;
};
let result = add(five, ten);
";

fn sample_tokens() -> Vec<Token> {
    vec![
        Token::new(TokenType::Let, "let"),
        Token::new(TokenType::Ident, "five"),
        Token::new(TokenType::Assign, "="),
        Token::new(TokenType::Int, "5"),
        Token::new(TokenType::Semicolon, ";"),
        Token::new(TokenType::Let, "let"),
        Token::new(TokenType::Ident, "ten"),
        Token::new(TokenType::Assign, "="),
        Token::new(TokenType::Int, "10"),
        Token::new(TokenType::Semicolon, ";"),
        Token::new(TokenType::Let, "let"),
        Token::new(TokenType::Ident, "add"),
        Token::new(TokenType::Assign, "="),
        Token::new(TokenType::Function, "fn"),
        Token::new(TokenType::LParen, "("),
        Token::new(TokenType::Ident, "x"),
        Token::new(TokenType::Comma, ","),
        Token::new(TokenType::Ident, "y"),
        Token::new(TokenType::RParen, ")"),
        Token::new(TokenType::LBrace, "{"),
        Token::new(TokenType::Ident, "x"),
        Token::new(TokenType::Plus, "+"),
        Token::new(TokenType::Ident, "y"),
        Token::new(TokenType::Semicolon, ";"),
        Token::new(TokenType::RBrace, "}"),
        Token::new(TokenType::Semicolon, ";"),
        Token::new(TokenType::Let, "let"),
        Token::new(TokenType::Ident, "result"),
        Token::new(TokenType::Assign, "="),
        Token::new(TokenType::Ident, "add"),
        Token::new(TokenType::LParen, "("),
        Token::new(TokenType::Ident, "five"),
        Token::new(TokenType::Comma, ","),
        Token::new(TokenType::Ident, "ten"),
        Token::new(TokenType::RParen, ")"),
        Token::new(TokenType::Semicolon, ";"),
    ]
}

#[test]
fn test_new() {
    let input = "let a = 5;";
    assert!(Lexer::new(input).is_ok());
}

#[test]
fn test_new_error() {
    let input = "";
    assert!(Lexer::new(input).is_err());
}

#[test]
fn test_new_error_says_why() {
    match Lexer::new("") {
        Err(e) => {
            assert_eq!(e, LexerError::EmptyInput);
            assert_eq!(e.message(), "no character found at position 0 of the given text");
        }
        Ok(_) => panic!("an empty text gave a lexer"),
    }
}

#[test]
fn test_new_starts_at_first_character() {
    let lexer = Lexer::new("xy").unwrap();
    assert_eq!(lexer.ch, 'x');
    assert_eq!(lexer.line(), 1);
}

#[test]
fn test_next_token_plus() {
    assert_eq!(lex("+", 1), vec![Token::new(TokenType::Plus, "+")]);
}

#[test]
fn test_next_token_operators_and_parenthesis() {
    let expected = vec![
        Token::new(TokenType::Assign, "="),
        Token::new(TokenType::Plus, "+"),
        Token::new(TokenType::LParen, "("),
        Token::new(TokenType::RParen, ")"),
        Token::new(TokenType::LBrace, "{"),
        Token::new(TokenType::RBrace, "}"),
        Token::new(TokenType::Comma, ","),
        Token::new(TokenType::Semicolon, ";"),
        Token::new(TokenType::EOF, ""),
    ];
    assert_eq!(lex("=+(){},;", 9), expected);
}

#[test]
fn test_next_token_sample_usage() {
    let mut expected = sample_tokens();
    expected.push(Token::new(TokenType::EOF, ""));
    assert_eq!(lex(SAMPLE, expected.len()), expected);
}

#[test]
fn test_next_token_advanced_usage() {
    let input = format!(
        "{}{}",
        SAMPLE,
        "!-/*5
5 < 10 > 5;

if (5 < 10) {
    return true;
}
else {
    return false;
}

10 == 10;
10 != 9;
"
    );
    let mut expected = sample_tokens();
    expected.extend(vec![
        Token::new(TokenType::Bang, "!"),
        Token::new(TokenType::Minus, "-"),
        Token::new(TokenType::Slash, "/"),
        Token::new(TokenType::Asterisk, "*"),
        Token::new(TokenType::Int, "5"),
        Token::new(TokenType::Int, "5"),
        Token::new(TokenType::Lt, "<"),
        Token::new(TokenType::Int, "10"),
        Token::new(TokenType::Gt, ">"),
        Token::new(TokenType::Int, "5"),
        Token::new(TokenType::Semicolon, ";"),
        Token::new(TokenType::If, "if"),
        Token::new(TokenType::LParen, "("),
        Token::new(TokenType::Int, "5"),
        Token::new(TokenType::Lt, "<"),
        Token::new(TokenType::Int, "10"),
        Token::new(TokenType::RParen, ")"),
        Token::new(TokenType::LBrace, "{"),
        Token::new(TokenType::Return, "return"),
        Token::new(TokenType::True, "true"),
        Token::new(TokenType::Semicolon, ";"),
        Token::new(TokenType::RBrace, "}"),
        Token::new(TokenType::Else, "else"),
        Token::new(TokenType::LBrace, "{"),
        Token::new(TokenType::Return, "return"),
        Token::new(TokenType::False, "false"),
        Token::new(TokenType::Semicolon, ";"),
        Token::new(TokenType::RBrace, "}"),
        Token::new(TokenType::Int, "10"),
        Token::new(TokenType::Eq, "=="),
        Token::new(TokenType::Int, "10"),
        Token::new(TokenType::Semicolon, ";"),
        Token::new(TokenType::Int, "10"),
        Token::new(TokenType::NotEq, "!="),
        Token::new(TokenType::Int, "9"),
        Token::new(TokenType::Semicolon, ";"),
        Token::new(TokenType::EOF, ""),
    ]);
    assert_eq!(lex(&input, expected.len()), expected);
}

#[test]
fn test_round_trip_lexes_in_source_order() {
    let input = "let five = 5;\nlet ten = 10;\nlet add = fn(x, y){ x + y; };\nlet result = add(five, ten);\n";
    let mut expected = sample_tokens();
    expected.push(Token::new(TokenType::EOF, ""));
    assert_eq!(lex(input, expected.len()), expected);
}

#[test]
fn test_symbols_then_end_of_input_forever() {
    let tokens = lex("=!+-*/<>,;(){}==!=", 20);
    let expected = vec![
        TokenType::Assign,
        TokenType::Bang,
        TokenType::Plus,
        TokenType::Minus,
        TokenType::Asterisk,
        TokenType::Slash,
        TokenType::Lt,
        TokenType::Gt,
        TokenType::Comma,
        TokenType::Semicolon,
        TokenType::LParen,
        TokenType::RParen,
        TokenType::LBrace,
        TokenType::RBrace,
        TokenType::Eq,
        TokenType::NotEq,
        TokenType::EOF,
        TokenType::EOF,
        TokenType::EOF,
        TokenType::EOF,
    ];
    assert_eq!(tokens.iter().map(|t| t.kind).collect::<Vec<_>>(), expected);
    let text: String = tokens.iter().map(|t| t.literal.clone()).collect();
    assert_eq!(text, "=!+-*/<>,;(){}==!=");
    assert_eq!(tokens[16], Token::new(TokenType::EOF, ""));
}

#[test]
fn test_blank_text_is_one_end_of_input() {
    for input in [" ", "\t", "\n", "\r\n", " \t \n\n \r\n  \t", "\n\n\n"] {
        assert_eq!(lex(input, 1), vec![Token::new(TokenType::EOF, "")]);
        assert_eq!(kinds(input, 3), vec![TokenType::EOF; 3]);
    }
}

#[test]
fn test_keywords_are_exact() {
    let words = [
        ("fn", TokenType::Function),
        ("let", TokenType::Let),
        ("true", TokenType::True),
        ("false", TokenType::False),
        ("if", TokenType::If),
        ("else", TokenType::Else),
        ("return", TokenType::Return),
    ];
    for (word, kind) in words {
        assert_eq!(lex(word, 2), vec![Token::new(kind, word), Token::new(TokenType::EOF, "")]);
    }
    for word in ["Let", "LET", "lets", "le", "f", "iff", "returns", "True", "fnn", "_", "x_y", "z", "Z"] {
        assert_eq!(
            lex(word, 2),
            vec![Token::new(TokenType::Ident, word), Token::new(TokenType::EOF, "")]
        );
    }
}

#[test]
fn test_keyword_or_ident() {
    assert_eq!(keyword_or_ident(&"let".chars().collect()), TokenType::Let);
    assert_eq!(keyword_or_ident(&"Let".chars().collect()), TokenType::Ident);
    assert_eq!(keyword_or_ident(&"return".chars().collect()), TokenType::Return);
    assert_eq!(keyword_or_ident(&Vec::new()), TokenType::Ident);
}

#[test]
fn test_is_letter() {
    for c in ['a', 'm', 'z', 'A', 'M', 'Z', '_'] {
        assert!(is_letter(c));
    }
    for c in ['0', '9', ' ', '-', '\0', 'é', '{', '@', '['] {
        assert!(!is_letter(c));
    }
}

#[test]
fn test_digits_end_a_word_and_letters_end_a_number() {
    assert_eq!(
        lex("ab12cd", 4),
        vec![
            Token::new(TokenType::Ident, "ab"),
            Token::new(TokenType::Int, "12"),
            Token::new(TokenType::Ident, "cd"),
            Token::new(TokenType::EOF, ""),
        ]
    );
}

#[test]
fn test_two_character_operators_are_maximal() {
    assert_eq!(kinds("==", 2), vec![TokenType::Eq, TokenType::EOF]);
    assert_eq!(kinds("!=", 2), vec![TokenType::NotEq, TokenType::EOF]);
    assert_eq!(kinds("=", 2), vec![TokenType::Assign, TokenType::EOF]);
    assert_eq!(kinds("!", 2), vec![TokenType::Bang, TokenType::EOF]);
    assert_eq!(kinds("===", 3), vec![TokenType::Eq, TokenType::Assign, TokenType::EOF]);
    assert_eq!(kinds("!==", 3), vec![TokenType::NotEq, TokenType::Assign, TokenType::EOF]);
    assert_eq!(kinds("= =", 3), vec![TokenType::Assign, TokenType::Assign, TokenType::EOF]);
    assert_eq!(kinds("=!", 3), vec![TokenType::Assign, TokenType::Bang, TokenType::EOF]);
    assert_eq!(lex("a==b", 3)[1], Token::new(TokenType::Eq, "=="));
    assert_eq!(lex("a!=b", 3)[1], Token::new(TokenType::NotEq, "!="));
}

#[test]
fn test_illegal_characters() {
    assert_eq!(
        lex("a @ b", 4),
        vec![
            Token::new(TokenType::Ident, "a"),
            Token::new(TokenType::Illegal, "@"),
            Token::new(TokenType::Ident, "b"),
            Token::new(TokenType::EOF, ""),
        ]
    );
    assert_eq!(lex("\rx", 2)[0], Token::new(TokenType::Illegal, "\r"));
    assert_eq!(lex("é", 2), vec![Token::new(TokenType::Illegal, "é"), Token::new(TokenType::EOF, "")]);
}

#[test]
fn test_line_breaks_are_counted() {
    let mut lexer = Lexer::new("a\nb\r\n\n  c").unwrap();
    assert_eq!(lexer.line(), 1);
    assert_eq!(lexer.next_token(), Token::new(TokenType::Ident, "a"));
    assert_eq!(lexer.line(), 1);
    assert_eq!(lexer.next_token(), Token::new(TokenType::Ident, "b"));
    assert_eq!(lexer.line(), 2);
    assert_eq!(lexer.next_token(), Token::new(TokenType::Ident, "c"));
    assert_eq!(lexer.line(), 4);
    assert_eq!(lexer.next_token(), Token::new(TokenType::EOF, ""));
    assert_eq!(lexer.line(), 4);
}

#[test]
fn test_scan_token_hands_out_line_breaks() {
    let mut lexer = Lexer::new("a\n\r\nb").unwrap();
    assert_eq!(lexer.scan_token(), Token::new(TokenType::Ident, "a"));
    assert_eq!(lexer.scan_token(), Token::new(TokenType::NewLine, "\n"));
    assert_eq!(lexer.scan_token(), Token::new(TokenType::NewLine, "\r\n"));
    assert_eq!(lexer.scan_token(), Token::new(TokenType::Ident, "b"));
    assert_eq!(lexer.scan_token(), Token::new(TokenType::EOF, ""));
}

#[test]
fn test_read_char_and_peek_char() {
    let mut lexer = Lexer::new("ab").unwrap();
    assert_eq!(lexer.ch, 'a');
    assert_eq!(lexer.peek_char(), Some('b'));
    lexer.read_char();
    assert_eq!(lexer.ch, 'b');
    assert_eq!(lexer.peek_char(), None);
    lexer.read_char();
    assert_eq!(lexer.ch, '\0');
    assert_eq!(lexer.peek_char(), None);
    lexer.read_char();
    assert_eq!(lexer.ch, '\0');
}

#[test]
fn test_read_number() {
    let mut lexer = Lexer::new("1234x").unwrap();
    assert_eq!(lexer.read_number(), Token::new(TokenType::Int, "1234"));
    assert_eq!(lexer.ch, 'x');
    assert_eq!(lexer.read_number(), Token::new(TokenType::Int, ""));
    assert_eq!(lexer.ch, 'x');
}

#[test]
fn test_token_new_and_duplicate() {
    let token = Token::new(TokenType::Ident, "name");
    assert_eq!(token.kind, TokenType::Ident);
    assert_eq!(token.literal, "name");
    assert_eq!(token.duplicate(), token);
}
