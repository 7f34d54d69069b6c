use kisumu::lexer::{Config, Lexer};
use kisumu::token::{Precedence, Token, TokenType};

#[test]
fn test_lexer_edge_cases() {
    struct Test {
        name: &'static str,
        input: &'static str,
        expected: Vec<Token>,
    }

    let tests = vec![
        Test {
            name: "Empty input",
            input: "",
            expected: vec![
                Token { token_type: TokenType::Eof, literal: "".to_string() },
            ],
        },
        Test {
            name: "Unterminated string",
            input: "\"unclosed string",
            expected: vec![
                Token { token_type: TokenType::Illegal, literal: "unterminated string".to_string() },
                Token { token_type: TokenType::Eof, literal: "".to_string() },
            ],
        },
        Test {
            name: "Unterminated multiline comment",
            input: "/* unclosed comment",
            expected: vec![
                Token { token_type: TokenType::Eof, literal: "".to_string() },
            ],
        },
        Test {
            name: "Numbers with decimal points",
            input: "42.5 3.14159 .5 5.",
            expected: vec![
                Token { token_type: TokenType::Float, literal: "42.5".to_string() },
                Token { token_type: TokenType::Float, literal: "3.14159".to_string() },
                Token { token_type: TokenType::Float, literal: ".5".to_string() },
                Token { token_type: TokenType::Float, literal: "5.".to_string() },
                Token { token_type: TokenType::Eof, literal: "".to_string() },
            ],
        },
        Test {
            name: "Complex nested expressions",
            input: "((x + y) * (z - 1)) / 2",
            expected: vec![
                Token { token_type: TokenType::LeftParenthesis, literal: "(".to_string() },
                Token { token_type: TokenType::LeftParenthesis, literal: "(".to_string() },
                Token { token_type: TokenType::Identifier, literal: "x".to_string() },
                Token { token_type: TokenType::Plus, literal: "+".to_string() },
                Token { token_type: TokenType::Identifier, literal: "y".to_string() },
                Token { token_type: TokenType::RightParenthesis, literal: ")".to_string() },
                Token { token_type: TokenType::Asterisk, literal: "*".to_string() },
                Token { token_type: TokenType::LeftParenthesis, literal: "(".to_string() },
                Token { token_type: TokenType::Identifier, literal: "z".to_string() },
                Token { token_type: TokenType::Minus, literal: "-".to_string() },
                Token { token_type: TokenType::Int, literal: "1".to_string() },
                Token { token_type: TokenType::RightParenthesis, literal: ")".to_string() },
                Token { token_type: TokenType::RightParenthesis, literal: ")".to_string() },
                Token { token_type: TokenType::Slash, literal: "/".to_string() },
                Token { token_type: TokenType::Int, literal: "2".to_string() },
                Token { token_type: TokenType::Eof, literal: "".to_string() },
            ],
        },
        Test {
            name: "Mixed comments and code",
            input: "// Line comment\n\t\t\tx = 1; /* Multi\n\t\t\tline comment */ y = 2;\n\t\t\t// Another comment",
            expected: vec![
                Token { token_type: TokenType::Identifier, literal: "x".to_string() },
                Token { token_type: TokenType::Assign, literal: "=".to_string() },
                Token { token_type: TokenType::Int, literal: "1".to_string() },
                Token { token_type: TokenType::Semicolon, literal: ";".to_string() },
                Token { token_type: TokenType::Identifier, literal: "y".to_string() },
                Token { token_type: TokenType::Assign, literal: "=".to_string() },
                Token { token_type: TokenType::Int, literal: "2".to_string() },
                Token { token_type: TokenType::Semicolon, literal: ";".to_string() },
                Token { token_type: TokenType::Eof, literal: "".to_string() },
            ],
        },
        Test {
            name: "Special characters and operators",
            input: "!= == < <= > >= && ||",
            expected: vec![
                Token { token_type: TokenType::NotEqual, literal: "!=".to_string() },
                Token { token_type: TokenType::Equal, literal: "==".to_string() },
                Token { token_type: TokenType::LessThan, literal: "<".to_string() },
                Token { token_type: TokenType::LessEqual, literal: "<=".to_string() },
                Token { token_type: TokenType::GreaterThan, literal: ">".to_string() },
                Token { token_type: TokenType::GreaterEqual, literal: ">=".to_string() },
                Token { token_type: TokenType::And, literal: "&&".to_string() },
                Token { token_type: TokenType::Or, literal: "||".to_string() },
                Token { token_type: TokenType::Eof, literal: "".to_string() },
            ],
        },
    ];

    for t in tests {
        let mut l = Lexer::new(t.input, Config::default());
        for (i, expected_tok) in t.expected.iter().enumerate() {
            let got = l.next_token();
            assert_eq!(
                got, *expected_tok,
                "test '{}' - token[{}] wrong. expected={:?}, got={:?}",
                t.name, i, expected_tok, got
            );
        }
    }
}

#[test]
fn test_lexer_configuration() {
    struct Test {
        name: &'static str,
        input: &'static str,
        config: Config,
        expected: Vec<Token>,
    }

    let tests = vec![
        Test {
            name: "Disabled comments",
            input: "x = 1; // comment \n y = 2;",
            config: Config {
                allow_comments: false,
                string_delimiters: vec!['"'],
            },
            expected: vec![
                Token { token_type: TokenType::Identifier, literal: "x".to_string() },
                Token { token_type: TokenType::Assign, literal: "=".to_string() },
                Token { token_type: TokenType::Int, literal: "1".to_string() },
                Token { token_type: TokenType::Semicolon, literal: ";".to_string() },
                Token { token_type: TokenType::Slash, literal: "/".to_string() },
                Token { token_type: TokenType::Slash, literal: "/".to_string() },
                Token { token_type: TokenType::Identifier, literal: "comment".to_string() },
                Token { token_type: TokenType::Identifier, literal: "y".to_string() },
                Token { token_type: TokenType::Assign, literal: "=".to_string() },
                Token { token_type: TokenType::Int, literal: "2".to_string() },
                Token { token_type: TokenType::Semicolon, literal: ";".to_string() },
                Token { token_type: TokenType::Eof, literal: "".to_string() },
            ],
        },
        Test {
            name: "Custom string delimiters",
            input: "'single' \"double\"",
            config: Config {
                allow_comments: true,
                string_delimiters: vec!['\'', '"'],
            },
            expected: vec![
                Token { token_type: TokenType::String, literal: "single".to_string() },
                Token { token_type: TokenType::String, literal: "double".to_string() },
                Token { token_type: TokenType::Eof, literal: "".to_string() },
            ],
        },
    ];

    for t in tests {
        let mut l = Lexer::new(t.input, t.config);
        for (i, expected_tok) in t.expected.iter().enumerate() {
            let got = l.next_token();
            assert_eq!(
                got, *expected_tok,
                "test '{}' - token[{}] wrong. expected={:?}, got={:?}",
                t.name, i, expected_tok, got
            );
        }
    }
}

fn tokens_of(input: &str, config: Config) -> Vec<Token> {
    let mut l = Lexer::new(input, config);
    let mut out = Vec::new();
    loop {
        let t = l.next_token();
        let end = t.token_type == TokenType::Eof;
        out.push(t);
        if end {
            break;
        }
    }
    out
}

fn tok(token_type: TokenType, literal: &str) -> Token {
    Token { token_type, literal: literal.to_string() }
}

#[test]
fn test_lexer_keywords_and_literals() {
    let got = tokens_of(
        "const f = func(x) { return x; } if else while for break continue int true false",
        Config::default(),
    );
    let want = vec![
        tok(TokenType::Const, "const"),
        tok(TokenType::Identifier, "f"),
        tok(TokenType::Assign, "="),
        tok(TokenType::Function, "func"),
        tok(TokenType::LeftParenthesis, "("),
        tok(TokenType::Identifier, "x"),
        tok(TokenType::RightParenthesis, ")"),
        tok(TokenType::LeftBrace, "{"),
        tok(TokenType::Return, "return"),
        tok(TokenType::Identifier, "x"),
        tok(TokenType::Semicolon, ";"),
        tok(TokenType::RightBrace, "}"),
        tok(TokenType::If, "if"),
        tok(TokenType::Else, "else"),
        tok(TokenType::While, "while"),
        tok(TokenType::For, "for"),
        tok(TokenType::Break, "break"),
        tok(TokenType::Continue, "continue"),
        tok(TokenType::Type, "int"),
        tok(TokenType::True, "true"),
        tok(TokenType::False, "false"),
        tok(TokenType::Eof, ""),
    ];
    assert_eq!(got, want);
}

#[test]
fn test_lexer_numbers_in_bases() {
    let got = tokens_of("0x2A 0b101 0XfF 0B1 7", Config::default());
    let want = vec![
        tok(TokenType::Int, "0x2A"),
        tok(TokenType::Int, "0b101"),
        tok(TokenType::Int, "0XfF"),
        tok(TokenType::Int, "0B1"),
        tok(TokenType::Int, "7"),
        tok(TokenType::Eof, ""),
    ];
    assert_eq!(got, want);
}

#[test]
fn test_lexer_unicode_letters_make_identifiers() {
    // A letter outside ASCII is a letter of an identifier.
    let got = tokens_of("ñandú = 1", Config::default());
    assert_eq!(got[0], tok(TokenType::Identifier, "ñandú"));
    assert_eq!(got[1], tok(TokenType::Assign, "="));
    assert_eq!(got[2], tok(TokenType::Int, "1"));
}

#[test]
fn test_lexer_eof_repeats_after_the_end() {
    let mut l = Lexer::new("x", Config::default());
    assert_eq!(l.next_token(), tok(TokenType::Identifier, "x"));
    for _ in 0..5 {
        assert_eq!(l.next_token(), tok(TokenType::Eof, ""));
    }
}

#[test]
fn test_lexer_undeclared_delimiter_is_illegal() {
    let config = Config { allow_comments: true, string_delimiters: vec!['"'] };
    let got = tokens_of("'a'", config);
    assert_eq!(got[0], tok(TokenType::Illegal, "'"));
}

#[test]
fn test_lexer_single_ampersand_and_bar_are_illegal() {
    let got = tokens_of("& |", Config::default());
    assert_eq!(got[0], tok(TokenType::Illegal, "&"));
    assert_eq!(got[1], tok(TokenType::Illegal, "|"));
    assert_eq!(got[2], tok(TokenType::Eof, ""));
}

#[test]
fn test_lexer_reports_unterminated_comment_position() {
    let mut l = Lexer::new("x /* open", Config::default());
    assert_eq!(l.next_token(), tok(TokenType::Identifier, "x"));
    assert_eq!(l.next_token(), tok(TokenType::Eof, ""));
    assert_eq!(l.unterminated_comments().len(), 1);
}

#[test]
fn test_lexer_counts_lines() {
    let mut l = Lexer::new("a\nb", Config::default());
    l.next_token();
    l.next_token();
    assert_eq!(l.line, 2);
}

#[test]
fn test_lexer_line_and_column_getters() {
    let mut l = Lexer::new("\nab\ncd", Config::default());
    assert_eq!((l.line(), l.column()), (2, 0));
    assert_eq!((l.line, l.column), (2, 0));
    assert_eq!(l.next_token(), tok(TokenType::Identifier, "ab"));
    assert_eq!(l.line(), l.line);
    assert_eq!(l.next_token(), tok(TokenType::Identifier, "cd"));
    assert_eq!(l.next_token(), tok(TokenType::Eof, ""));
    let line = l.line();
    assert_eq!(l.next_token(), tok(TokenType::Eof, ""));
    assert_eq!(l.line(), line);
}

#[test]
fn test_precedence_order() {
    assert!(Precedence::Lowest < Precedence::Equals);
    assert!(Precedence::Equals < Precedence::LessGreater);
    assert!(Precedence::LessGreater < Precedence::Sum);
    assert!(Precedence::Sum < Precedence::Product);
    assert!(Precedence::Product < Precedence::Prefix);
    assert!(Precedence::Prefix < Precedence::Call);
    assert_eq!(TokenType::Asterisk.precedence().max(TokenType::Plus.precedence()), Precedence::Product);
}
