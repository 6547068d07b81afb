use minilex::{Lexer, Token, TokenType};

fn tokens_of(src: &str) -> Vec<Token> {
    let mut lexer = Lexer::new(src.to_string());
    let mut out = Vec::new();
    loop {
        let token = lexer.next_token();
        let done = token.token_type == TokenType::EOF;
        out.push(token);
        if done {
            break;
        }
    }
    out
}

fn tok(token_type: TokenType, literal: &str) -> Token {
    Token { token_type, literal: literal.to_string() }
}

#[test]
fn test_next_token() {
    let input = "let five = 5;
    let ten = 10;

    let add = fn(x, y) {
        x + y;
    };

    let result = add(five, ten);
    !-/*5;
    5 < 10 > 5;

    if (5 < 10) {
        return true;
    } else {
        return false;
    }

    10 == 10;
    10 != 9;
    "
    .to_string();
    let tests = vec![
        Token { token_type: TokenType::Let, literal: "let".to_string() },
        Token { token_type: TokenType::Ident, literal: "five".to_string() },
        Token { token_type: TokenType::Assign, literal: "=".to_string() },
        Token { token_type: TokenType::Int, literal: "5".to_string() },
        Token { token_type: TokenType::Semicolon, literal: ";".to_string() },
        Token { token_type: TokenType::Let, literal: "let".to_string() },
        Token { token_type: TokenType::Ident, literal: "ten".to_string() },
        Token { token_type: TokenType::Assign, literal: "=".to_string() },
        Token { token_type: TokenType::Int, literal: "10".to_string() },
        Token { token_type: TokenType::Semicolon, literal: ";".to_string() },
        Token { token_type: TokenType::Let, literal: "let".to_string() },
        Token { token_type: TokenType::Ident, literal: "add".to_string() },
        Token { token_type: TokenType::Assign, literal: "=".to_string() },
        Token { token_type: TokenType::Function, literal: "fn".to_string() },
        Token { token_type: TokenType::LParen, literal: "(".to_string() },
        Token { token_type: TokenType::Ident, literal: "x".to_string() },
        Token { token_type: TokenType::Comma, literal: ",".to_string() },
        Token { token_type: TokenType::Ident, literal: "y".to_string() },
        Token { token_type: TokenType::RParen, literal: ")".to_string() },
        Token { token_type: TokenType::LBrace, literal: "{".to_string() },
        Token { token_type: TokenType::Ident, literal: "x".to_string() },
        Token { token_type: TokenType::Plus, literal: "+".to_string() },
        Token { token_type: TokenType::Ident, literal: "y".to_string() },
        Token { token_type: TokenType::Semicolon, literal: ";".to_string() },
        Token { token_type: TokenType::RBrace, literal: "}".to_string() },
        Token { token_type: TokenType::Semicolon, literal: ";".to_string() },
        Token { token_type: TokenType::Let, literal: "let".to_string() },
        Token { token_type: TokenType::Ident, literal: "result".to_string() },
        Token { token_type: TokenType::Assign, literal: "=".to_string() },
        Token { token_type: TokenType::Ident, literal: "add".to_string() },
        Token { token_type: TokenType::LParen, literal: "(".to_string() },
        Token { token_type: TokenType::Ident, literal: "five".to_string() },
        Token { token_type: TokenType::Comma, literal: ",".to_string() },
        Token { token_type: TokenType::Ident, literal: "ten".to_string() },
        Token { token_type: TokenType::RParen, literal: ")".to_string() },
        Token { token_type: TokenType::Semicolon, literal: ";".to_string() },
        Token { token_type: TokenType::Bang, literal: "!".to_string() },
        Token { token_type: TokenType::Minus, literal: "-".to_string() },
        Token { token_type: TokenType::Slash, literal: "/".to_string() },
        Token { token_type: TokenType::Star, literal: "*".to_string() },
        Token { token_type: TokenType::Int, literal: "5".to_string() },
        Token { token_type: TokenType::Semicolon, literal: ";".to_string() },
        Token { token_type: TokenType::Int, literal: "5".to_string() },
        Token { token_type: TokenType::LT, literal: "<".to_string() },
        Token { token_type: TokenType::Int, literal: "10".to_string() },
        Token { token_type: TokenType::GT, literal: ">".to_string() },
        Token { token_type: TokenType::Int, literal: "5".to_string() },
        Token { token_type: TokenType::Semicolon, literal: ";".to_string() },
        Token { token_type: TokenType::If, literal: "if".to_string() },
        Token { token_type: TokenType::LParen, literal: "(".to_string() },
        Token { token_type: TokenType::Int, literal: "5".to_string() },
        Token { token_type: TokenType::LT, literal: "<".to_string() },
        Token { token_type: TokenType::Int, literal: "10".to_string() },
        Token { token_type: TokenType::RParen, literal: ")".to_string() },
        Token { token_type: TokenType::LBrace, literal: "{".to_string() },
        Token { token_type: TokenType::Return, literal: "return".to_string() },
        Token { token_type: TokenType::True, literal: "true".to_string() },
        Token { token_type: TokenType::Semicolon, literal: ";".to_string() },
        Token { token_type: TokenType::RBrace, literal: "}".to_string() },
        Token { token_type: TokenType::Else, literal: "else".to_string() },
        Token { token_type: TokenType::LBrace, literal: "{".to_string() },
        Token { token_type: TokenType::Return, literal: "return".to_string() },
        Token { token_type: TokenType::False, literal: "false".to_string() },
        Token { token_type: TokenType::Semicolon, literal: ";".to_string() },
        Token { token_type: TokenType::RBrace, literal: "}".to_string() },
        Token { token_type: TokenType::Int, literal: "10".to_string() },
        Token { token_type: TokenType::EQ, literal: "==".to_string() },
        Token { token_type: TokenType::Int, literal: "10".to_string() },
        Token { token_type: TokenType::Semicolon, literal: ";".to_string() },
        Token { token_type: TokenType::Int, literal: "10".to_string() },
        Token { token_type: TokenType::NotEQ, literal: "!=".to_string() },
        Token { token_type: TokenType::Int, literal: "9".to_string() },
        Token { token_type: TokenType::Semicolon, literal: ";".to_string() },
        Token { token_type: TokenType::EOF, literal: String::new() },
    ];

    let mut lexer = Lexer::new(input);

    for (i, t) in tests.iter().enumerate() {
        let token = lexer.next_token();
        assert_eq!(*t, token, "failed at index {}", i);
    }
}

#[test]
fn operator_disambiguation_double_equal() {
    let got = tokens_of("==");
    assert_eq!(got, vec![tok(TokenType::EQ, "=="), tok(TokenType::EOF, "")]);
}

#[test]
fn operator_disambiguation_not_equal() {
    let got = tokens_of("!=");
    assert_eq!(got, vec![tok(TokenType::NotEQ, "!="), tok(TokenType::EOF, "")]);
}

#[test]
fn operator_disambiguation_lone_assign() {
    let got = tokens_of("=");
    assert_eq!(got, vec![tok(TokenType::Assign, "="), tok(TokenType::EOF, "")]);
}

#[test]
fn operator_disambiguation_lone_bang() {
    let got = tokens_of("!");
    assert_eq!(got, vec![tok(TokenType::Bang, "!"), tok(TokenType::EOF, "")]);
}

#[test]
fn keywords_each_get_their_kind() {
    assert_eq!(tokens_of("fn")[0], tok(TokenType::Function, "fn"));
    assert_eq!(tokens_of("let")[0], tok(TokenType::Let, "let"));
    assert_eq!(tokens_of("true")[0], tok(TokenType::True, "true"));
    assert_eq!(tokens_of("false")[0], tok(TokenType::False, "false"));
    assert_eq!(tokens_of("if")[0], tok(TokenType::If, "if"));
    assert_eq!(tokens_of("else")[0], tok(TokenType::Else, "else"));
    assert_eq!(tokens_of("return")[0], tok(TokenType::Return, "return"));
}

#[test]
fn non_keywords_are_identifiers() {
    assert_eq!(tokens_of("Let")[0], tok(TokenType::Ident, "Let"));
    assert_eq!(tokens_of("fnx")[0], tok(TokenType::Ident, "fnx"));
    assert_eq!(tokens_of("retur")[0], tok(TokenType::Ident, "retur"));
    assert_eq!(tokens_of("_foo_bar")[0], tok(TokenType::Ident, "_foo_bar"));
}

#[test]
fn digit_run_stops_at_first_letter() {
    let got = tokens_of("12ab");
    assert_eq!(
        got,
        vec![
            tok(TokenType::Int, "12"),
            tok(TokenType::Ident, "ab"),
            tok(TokenType::EOF, ""),
        ]
    );
}

#[test]
fn whitespace_is_transparent() {
    assert_eq!(tokens_of("  x\n\t= 5"), tokens_of("x=5"));
    let got = tokens_of("x=5");
    assert_eq!(
        got,
        vec![
            tok(TokenType::Ident, "x"),
            tok(TokenType::Assign, "="),
            tok(TokenType::Int, "5"),
            tok(TokenType::EOF, ""),
        ]
    );
}

#[test]
fn end_to_end_let_statement() {
    let got = tokens_of("let five = 5;");
    assert_eq!(
        got,
        vec![
            tok(TokenType::Let, "let"),
            tok(TokenType::Ident, "five"),
            tok(TokenType::Assign, "="),
            tok(TokenType::Int, "5"),
            tok(TokenType::Semicolon, ";"),
            tok(TokenType::EOF, ""),
        ]
    );
}

#[test]
fn end_to_end_two_char_operators() {
    let got = tokens_of("10 == 10; 10 != 9;");
    assert_eq!(
        got,
        vec![
            tok(TokenType::Int, "10"),
            tok(TokenType::EQ, "=="),
            tok(TokenType::Int, "10"),
            tok(TokenType::Semicolon, ";"),
            tok(TokenType::Int, "10"),
            tok(TokenType::NotEQ, "!="),
            tok(TokenType::Int, "9"),
            tok(TokenType::Semicolon, ";"),
            tok(TokenType::EOF, ""),
        ]
    );
}

#[test]
fn illegal_byte_is_a_token_not_an_error() {
    let got = tokens_of("@");
    assert_eq!(got, vec![tok(TokenType::Illegal, "@"), tok(TokenType::EOF, "")]);
}

#[test]
fn scanning_continues_past_illegal_bytes() {
    let got = tokens_of("a @ b");
    assert_eq!(
        got,
        vec![
            tok(TokenType::Ident, "a"),
            tok(TokenType::Illegal, "@"),
            tok(TokenType::Ident, "b"),
            tok(TokenType::EOF, ""),
        ]
    );
}

#[test]
fn empty_input_is_end_of_input_at_once() {
    let mut lexer = Lexer::new(String::new());
    for _ in 0..4 {
        assert_eq!(lexer.next_token(), tok(TokenType::EOF, ""));
    }
}

#[test]
fn end_of_input_repeats_forever() {
    let mut lexer = Lexer::new("x".to_string());
    assert_eq!(lexer.next_token(), tok(TokenType::Ident, "x"));
    for _ in 0..8 {
        assert_eq!(lexer.next_token(), tok(TokenType::EOF, ""));
    }
}

#[test]
fn nul_byte_ends_the_input() {
    let mut lexer = Lexer::new("a\0b".to_string());
    assert_eq!(lexer.next_token(), tok(TokenType::Ident, "a"));
    assert_eq!(lexer.next_token(), tok(TokenType::EOF, ""));
    assert_eq!(lexer.next_token(), tok(TokenType::EOF, ""));
}

#[test]
fn non_ascii_bytes_come_back_as_illegal_tokens() {
    // U+00E9 is the two bytes 0xC3 0xA9 in UTF-8; each is one Illegal token
    // whose text holds the character with that byte's code.
    let got = tokens_of("\u{e9}");
    assert_eq!(
        got,
        vec![
            tok(TokenType::Illegal, "\u{c3}"),
            tok(TokenType::Illegal, "\u{a9}"),
            tok(TokenType::EOF, ""),
        ]
    );
}

#[test]
fn trailing_whitespace_only_yields_end_of_input() {
    let got = tokens_of(" \t\r\n");
    assert_eq!(got, vec![tok(TokenType::EOF, "")]);
}
