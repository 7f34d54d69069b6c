use kisumu::ast::{Expression, Statement};
use kisumu::lexer::{Config, Lexer};
use kisumu::parser::{parse_int_literal, Parser};

fn check_parser_errors(parser: &Parser) {
    let errors = parser.errors();
    if errors.is_empty() {
        return;
    }

    panic!("parser has {} errors:\n{}", errors.len(), errors.join("\n"));
}

#[test]
fn test_parse_int_node() {
    let input = "42";
    let mut l = Lexer::new(input, Config::default());
    let mut p = Parser::new(&mut l);
    let program = p.parse_program();

    check_parser_errors(&p);

    assert_eq!(program.statements.len(), 1);
    let stmt = &program.statements[0];

    match stmt {
        Statement::Expression { expression, .. } => match expression {
            Expression::Int { value, .. } => {
                assert_eq!(*value, 42);
            }
            other => panic!("expected Int expression, got {:?}", other),
        },
        other => panic!("expected Expression statement, got {:?}", other),
    }
}

#[test]
fn test_integer_literal_expression() {
    struct Test {
        input: &'static str,
        expected: i64,
    }

    let tests = vec![
        Test {
            input: "5;",
            expected: 5,
        },
        Test {
            input: "10;",
            expected: 10,
        },
        Test {
            input: "0;",
            expected: 0,
        },
        Test {
            input: "123456789;",
            expected: 123456789,
        },
        Test {
            input: "0x2A;",
            expected: 42,
        },
        Test {
            input: "0b101010;",
            expected: 42,
        },
    ];

    for t in tests {
        let mut l = Lexer::new(t.input, Config::default());
        let mut p = Parser::new(&mut l);
        let program = p.parse_program();

        check_parser_errors(&p);

        assert_eq!(program.statements.len(), 1);
        let stmt = &program.statements[0];

        match stmt {
            Statement::Expression { expression, .. } => match expression {
                Expression::Int { value, .. } => {
                    assert_eq!(*value, t.expected);
                }
                other => panic!("expected Int expression, got {:?}", other),
            },
            other => panic!("expected Expression statement, got {:?}", other),
        }
    }
}

#[test]
fn test_parsing_prefix_expressions() {
    struct Test {
        input: &'static str,
        operator: &'static str,
        value: i64,
    }

    let tests = vec![
        Test {
            input: "-15;",
            operator: "-",
            value: 15,
        },
        Test {
            input: "-0x2A;",
            operator: "-",
            value: 42,
        },
        Test {
            input: "-0b1010;",
            operator: "-",
            value: 10,
        },
    ];

    for t in tests {
        let mut l = Lexer::new(t.input, Config::default());
        let mut p = Parser::new(&mut l);
        let program = p.parse_program();

        check_parser_errors(&p);

        assert_eq!(program.statements.len(), 1);
        let stmt = &program.statements[0];

        match stmt {
            Statement::Expression { expression, .. } => match expression {
                Expression::Prefix {
                    operator, right, ..
                } => {
                    assert_eq!(operator, t.operator);
                    match &**right {
                        Expression::Int { value, .. } => {
                            assert_eq!(*value, t.value);
                        }
                        other => panic!("expected right to be Int, got {:?}", other),
                    }
                }
                other => panic!("expected Prefix expression, got {:?}", other),
            },
            other => panic!("expected Expression statement, got {:?}", other),
        }
    }
}

fn parse_text(input: &str) -> (String, Vec<String>) {
    let mut l = Lexer::new(input, Config::default());
    let mut p = Parser::new(&mut l);
    let program = p.parse_program();
    let errors = p.errors().clone();
    (program.to_string(), errors)
}

#[test]
fn test_parser_operator_precedence_printing() {
    let cases = vec![
        ("1 + 2 * 3;", "(1 + (2 * 3))"),
        ("-a * b;", "((-a) * b)"),
        ("!true == false;", "((!true) == false)"),
        ("a + b - c;", "((a + b) - c)"),
        ("(a + b) * c;", "((a + b) * c)"),
        ("add(1, 2 * 3);", "add(1, (2 * 3))"),
        ("a < b == c > d;", "((a < b) == (c > d))"),
    ];
    for (input, want) in cases {
        let (text, errors) = parse_text(input);
        assert!(errors.is_empty(), "errors for {}: {:?}", input, errors);
        assert_eq!(text, want, "input {}", input);
    }
}

#[test]
fn test_parser_statement_printing() {
    let cases = vec![
        ("const x = 5;", "const x = 5;"),
        ("return x;", "return x;"),
        ("if (x < y) { x } else { y }", "if ((x < y)) x else y"),
        ("while (x) { break; }", "while (x) break;"),
        ("const f = func(a, b) { a + b; };", "const f = func(a, b) (a + b);"),
    ];
    for (input, want) in cases {
        let (text, errors) = parse_text(input);
        assert!(errors.is_empty(), "errors for {}: {:?}", input, errors);
        assert_eq!(text, want, "input {}", input);
    }
}

#[test]
fn test_parser_reports_missing_identifier() {
    let (_, errors) = parse_text("const = 5;");
    assert!(!errors.is_empty());
    assert_eq!(errors[0], "expected next token to be Identifier, got Assign instead");
}

#[test]
fn test_parser_reports_integer_out_of_range() {
    let (_, errors) = parse_text("99999999999999999999;");
    assert!(errors.contains(&"could not parse \"99999999999999999999\" as integer".to_string()));
}

#[test]
fn test_parse_int_literal_bases() {
    assert_eq!(parse_int_literal(&"0x2A".to_string()), Some(42));
    assert_eq!(parse_int_literal(&"0b101010".to_string()), Some(42));
    assert_eq!(parse_int_literal(&"123".to_string()), Some(123));
    assert_eq!(parse_int_literal(&"9223372036854775807".to_string()), Some(i64::MAX));
    assert_eq!(parse_int_literal(&"9223372036854775808".to_string()), None);
    assert_eq!(parse_int_literal(&"0x".to_string()), None);
}

#[test]
fn test_parser_errors_accumulate_across_calls() {
    let mut l = Lexer::new("const = 5; const = 6;", Config::default());
    let mut p = Parser::new(&mut l);
    let first = p.parse_program();
    let e1 = p.errors().clone();
    assert!(!e1.is_empty());
    let second = p.parse_program();
    assert!(second.statements.is_empty());
    assert_eq!(p.errors(), &e1);
    let _ = first;
}
