use kisumu::interpreter::{Environment, Interpreter, Object};
use kisumu::lexer::{Config, Lexer};
use kisumu::parser::{parse_int_literal, Parser};

fn test_eval(input: &str) -> Object {
    let mut l = Lexer::new(input, Config::default());
    let mut p = Parser::new(&mut l);
    let program = p.parse_program();
    let errors = p.errors();
    if !errors.is_empty() {
        panic!("Parser errors: {}", errors.join("\n"));
    }
    let mut interpreter = Interpreter::new();
    interpreter.eval(&program)
}

fn test_integer_object(obj: &Object, expected: i64) {
    match obj {
        Object::Integer(value) => assert_eq!(*value, expected),
        other => panic!("expected Integer, got {:?}", other),
    }
}

fn test_boolean_object(obj: &Object, expected: bool) {
    match obj {
        Object::Boolean(value) => assert_eq!(*value, expected),
        other => panic!("expected Boolean, got {:?}", other),
    }
}

fn test_null_object(obj: &Object) {
    match obj {
        Object::Null => {}
        other => panic!("expected Null, got {:?}", other),
    }
}

#[test]
fn test_integer_evaluation() {
    let tests = vec![
        ("5", 5),
        ("10", 10),
        ("-5", -5),
        ("-10", -10),
        ("0", 0),
        ("123456789", 123456789),
        ("0x2A", 42),
        ("0b101010", 42),
        ("-0x2A", -42),
        ("-0b1010", -10),
    ];

    for (input, expected) in tests {
        let evaluated = test_eval(input);
        test_integer_object(&evaluated, expected);
    }
}

#[test]
fn test_integer_infix_expressions() {
    let tests = vec![
        ("5 + 5 + 5 + 5 - 10", 10),
        ("2 * 2 * 2 * 2 * 2", 32),
        ("-50 + 100 + -50", 0),
        ("5 * 2 + 10", 20),
        ("5 + 2 * 10", 25),
        ("20 + 2 * -10", 0),
        ("50 / 2 * 2 + 10", 60),
        ("2 * (5 + 10)", 30),
        ("3 * 3 * 3 + 10", 37),
        ("3 * (3 * 3) + 10", 37),
        ("(5 + 10 * 2 + 15 / 3) * 2 + -10", 50),
    ];

    for (input, expected) in tests {
        let evaluated = test_eval(input);
        test_integer_object(&evaluated, expected);
    }
}

#[test]
fn test_integer_comparison_expressions() {
    let tests = vec![
        ("5 < 5", false),
        ("5 == 5", true),
        ("5 != 5", false),
        ("5 > 5", false),
        ("5 < 6", true),
        ("5 > 4", true),
        ("5 == 6", false),
        ("5 != 6", true),
        ("(5 > 4) == true", true),
        ("(5 < 4) == false", true),
        ("(5 == 5) == true", true),
        ("(5 != 5) == false", true),
        ("(5 < 5) == false", true),
    ];

    for (input, expected) in tests {
        let evaluated = test_eval(input);
        test_boolean_object(&evaluated, expected);
    }
}

#[test]
fn test_integer_prefix_expressions() {
    let tests = vec![
        ("-5", -5),
        ("-10", -10),
        ("--5", 5),
        ("---5", -5),
        ("-0x2A", -42),
        ("-0b1010", -10),
    ];

    for (input, expected) in tests {
        let evaluated = test_eval(input);
        test_integer_object(&evaluated, expected);
    }
}

#[test]
fn test_integer_error_handling() {
    let tests = vec![
        ("5 + true", "type mismatch: INTEGER + BOOLEAN"),
        ("5 + true; 5", "type mismatch: INTEGER + BOOLEAN"),
        ("-true", "unknown operator: -BOOLEAN"),
        ("true + false", "unknown operator: BOOLEAN + BOOLEAN"),
        ("5; true + false; 5", "unknown operator: BOOLEAN + BOOLEAN"),
    ];

    for (input, expected) in tests {
        let evaluated = test_eval(input);
        match evaluated {
            Object::Error(msg) => assert_eq!(msg, expected),
            other => panic!("expected Error, got {:?}", other),
        }
    }
}

#[test]
fn test_integer_variable_assignments() {
    let tests = vec![
        ("const a = 5; a", 5),
        ("const a = 5 * 5; a", 25),
        ("const a = 5; const b = a; b", 5),
        ("const a = 5; const b = a; const c = a + b + 5; c", 15),
        ("const a = 0x2A; a", 42),
        ("const a = 0b1010; a", 10),
        ("const a = -0x2A; a", -42),
    ];

    for (input, expected) in tests {
        let evaluated = test_eval(input);
        test_integer_object(&evaluated, expected);
    }
}

#[test]
fn test_if_expressions() {
    let tests = vec![
        ("if (true) { 10 }", Some(10)),
        ("if (false) { 10 }", None),
        ("if (1) { 10 }", Some(10)),
        ("if (1 < 2) { 10 }", Some(10)),
        ("if (1 > 2) { 10 } else { 20 }", Some(20)),
        ("if (1 < 2) { 10 } else { 20 }", Some(10)),
    ];

    for (input, expected) in tests {
        let evaluated = test_eval(input);
        if let Some(val) = expected {
            test_integer_object(&evaluated, val);
        } else {
            test_null_object(&evaluated);
        }
    }
}

#[test]
fn test_while_loops() {
    let tests = vec![
        ("const x = 0; while (false) { const x = 1; } x", 0),
        ("while (false) { const x = 1; } 5", 5),
    ];

    for (input, expected) in tests {
        let evaluated = test_eval(input);
        test_integer_object(&evaluated, expected);
    }
}

// This is a stub
#[test]
fn test_for_loops() {
    let tests = vec![(
        "const x = 0; for (const i = 0; i < 5; const i = i + 1) { const x = x + i; } 5;",
        5,
    )];

    for (input, expected) in tests {
        let evaluated = test_eval(input);
        test_integer_object(&evaluated, expected);
    }
}

//This is a stub!!!
#[test]
fn test_break_and_continue() {
    let tests = vec![
        ("const x = 0; while (true) { break; } x", 0),
        ("while (true) { break; } 5", 5),
    ];

    for (input, expected) in tests {
        let evaluated = test_eval(input);
        test_integer_object(&evaluated, expected);
    }
}

#[test]
fn test_block_statements() {
    let tests = vec![
        ("const x = 10; { const y = 20; y } x", 10),
        ("const x = 10; { const y = 20; const z = x + y; z } x", 10),
    ];

    for (input, expected) in tests {
        let evaluated = test_eval(input);
        test_integer_object(&evaluated, expected);
    }
}

#[test]
fn test_nested_control_structures() {
    let tests = vec![
        (
            "const x = 0; if (true) { if (true) { const x = 10; } } x",
            0,
        ),
        ("if (true) { if (true) { 10; } }", 10),
    ];

    for (input, expected) in tests {
        let evaluated = test_eval(input);
        test_integer_object(&evaluated, expected);
    }
}

#[test]
fn test_function_literals() {
    let input = "const fn = func(x) { x + 2; }; fn";
    let evaluated = test_eval(input);
    match evaluated {
        Object::Function {
            parameters, body, ..
        } => {
            assert_eq!(parameters.len(), 1);
            assert_eq!(parameters[0].value, "x");
            assert_eq!(body.to_string(), "(x + 2)");
        }
        other => panic!("expected Function object, got {:?}", other),
    }
}

#[test]
fn test_function_application() {
    let tests = vec![
        ("const identity = func(x) { x; }; identity(5);", 5),
        ("const double = func(x) { x * 2; }; double(5);", 10),
        ("const add = func(x, y) { x + y; }; add(5, 5);", 10),
        (
            "const add = func(x, y) { x + y; }; add(5 + 5, add(5, 5));",
            20,
        ),
        ("const fn = func(x) { x; }; fn(5);", 5),
    ];

    for (input, expected) in tests {
        let evaluated = test_eval(input);
        test_integer_object(&evaluated, expected);
    }
}

#[test]
fn test_closures() {
    let input = "
    const newAdder = func(x) {
        return func(y) { x + y; };
    };
    const addTwo = newAdder(2);
    addTwo(2);
    ";
    let evaluated = test_eval(input);
    test_integer_object(&evaluated, 4);
}

#[test]
fn test_recursive_functions() {
    let input = "
    const countDown = func(x) {
        if (x > 0) {
            return countDown(x - 1);
        } else {
            return x;
        }
    };
    countDown(1);
    ";
    let evaluated = test_eval(input);
    test_integer_object(&evaluated, 0);
}

#[test]
fn test_return_statements() {
    let tests = vec![
        ("return 10;", 10),
        ("return 10; 9;", 10),
        ("return 2 * 5; 9;", 10),
        ("9; return 2 * 5; 9;", 10),
        ("if (10 > 1) { if (10 > 1) { return 10; } return 1; }", 10),
    ];

    for (input, expected) in tests {
        let evaluated = test_eval(input);
        test_integer_object(&evaluated, expected);
    }
}

#[test]
fn test_function_scope() {
    let input = "
    const x = 10;
    const add = func(y) {
        x + y;
    };
    add(5);
    ";
    let evaluated = test_eval(input);
    test_integer_object(&evaluated, 15);
}

#[test]
fn test_function_error_handling() {
    let tests = vec![
        ("5(5);", "not a function: INTEGER"),
        (
            "const add = func(x, y) { x + y; }; add(5);",
            "wrong number of arguments. got=1, want=2",
        ),
        (
            "const add = func(x, y) { x + y; }; add(5, 5, 5);",
            "wrong number of arguments. got=3, want=2",
        ),
    ];

    for (input, expected) in tests {
        let evaluated = test_eval(input);
        match evaluated {
            Object::Error(msg) => assert_eq!(msg, expected),
            other => panic!("expected Error, got {:?}", other),
        }
    }
}

fn eval_with(interpreter: &mut Interpreter, input: &str) -> Object {
    let mut l = Lexer::new(input, Config::default());
    let mut p = Parser::new(&mut l);
    let program = p.parse_program();
    assert!(p.errors().is_empty(), "parser errors: {:?}", p.errors());
    interpreter.eval(&program)
}

fn expect_error(input: &str, expected: &str) {
    match test_eval(input) {
        Object::Error(msg) => assert_eq!(msg, expected, "input {}", input),
        other => panic!("expected Error for {}, got {:?}", input, other),
    }
}

#[test]
fn test_division_and_its_errors() {
    test_integer_object(&test_eval("7 / 2"), 3);
    test_integer_object(&test_eval("-7 / 2"), -3);
    test_integer_object(&test_eval("7 / -2"), -3);
    test_integer_object(&test_eval("-7 / -2"), 3);
    expect_error("1 / 0", "division by zero");
    expect_error("const z = 0; 5 / z", "division by zero");
}

#[test]
fn test_integer_arithmetic_wraps() {
    test_integer_object(&test_eval("9223372036854775807 + 1"), i64::MIN);
    test_integer_object(&test_eval("-9223372036854775807 - 2"), i64::MAX);
    test_integer_object(&test_eval("4611686018427387904 * 2"), i64::MIN);
    test_integer_object(&test_eval("(-9223372036854775807 - 1) / -1"), i64::MIN);
    test_integer_object(&test_eval("-(-9223372036854775807 - 1)"), i64::MIN);
}

#[test]
fn test_evaluation_errors() {
    expect_error("foo", "identifier not found: foo");
    expect_error("\"a\" - \"b\"", "unknown operator: STRING - STRING");
    expect_error("1 < true", "type mismatch: INTEGER < BOOLEAN");
    expect_error("-\"a\"", "unknown operator: -STRING");
    expect_error("true(1)", "not a function: BOOLEAN");
    expect_error("const f = func() { 1 }; f(1, 2)", "wrong number of arguments. got=2, want=0");
    expect_error("1 + foo(2)", "identifier not found: foo");
    expect_error("const f = func(x) { x }; f(1, bar)", "identifier not found: bar");
}

#[test]
fn test_strings() {
    match test_eval("\"foo\" + \"bar\"") {
        Object::String(s) => assert_eq!(s, "foobar"),
        other => panic!("expected String, got {:?}", other),
    }
    test_boolean_object(&test_eval("\"a\" == \"a\""), true);
    test_boolean_object(&test_eval("\"a\" != \"a\""), false);
}

#[test]
fn test_bang_and_mixed_equality() {
    test_boolean_object(&test_eval("!true"), false);
    test_boolean_object(&test_eval("!!true"), true);
    test_boolean_object(&test_eval("!5"), false);
    test_boolean_object(&test_eval("1 == true"), false);
    test_boolean_object(&test_eval("1 != true"), true);
    test_boolean_object(&test_eval("true == true"), true);
    test_boolean_object(&test_eval("const f = func(x) { x }; f == f"), true);
}

fn expect_float(input: &str, expected: f64) {
    match test_eval(input) {
        Object::Float(bits) => assert_eq!(bits, expected.to_bits(), "input {}", input),
        other => panic!("expected Float for {}, got {:?}", input, other),
    }
}

#[test]
fn test_floats() {
    expect_float("1.5", 1.5);
    expect_float("-2.25", -2.25);
    expect_float(".5", 0.5);
    expect_float("5.", 5.0);
    expect_float("1.5 + 2.5", 4.0);
    expect_float("0.1 + 0.2", 0.1 + 0.2);
    expect_float("1.0 - 2.5", -1.5);
    expect_float("3.0 * 0.5", 1.5);
    expect_float("1.0 / 3.0", 1.0 / 3.0);
    expect_float("--1.5", 1.5);
    test_boolean_object(&test_eval("1.5 < 2.5"), true);
    test_boolean_object(&test_eval("1.5 > 2.5"), false);
    test_boolean_object(&test_eval("0.1 + 0.2 == 0.3"), false);
    test_boolean_object(&test_eval("0.5 == .5"), true);
    test_boolean_object(&test_eval("0.5 != 0.25"), true);
    expect_error("1.5 / 0.0", "division by zero");
    expect_error("1.5 / -0.0", "division by zero");
    expect_error("1.5 + 2", "type mismatch: FLOAT + INTEGER");
    test_boolean_object(&test_eval("1.5 == 1"), false);
    assert_eq!(test_eval("1.5").inspect().parse::<f64>().unwrap(), 1.5);
    assert_eq!(test_eval("0.1 + 0.2").inspect().parse::<f64>().unwrap(), 0.1 + 0.2);
}

#[test]
fn test_step_limit() {
    let mut interpreter = Interpreter::with_step_limit(1000);
    match eval_with(&mut interpreter, "while (true) { 1; }") {
        Object::Error(msg) => assert_eq!(msg, "evaluation step limit reached"),
        other => panic!("expected Error, got {:?}", other),
    }
    let mut small = Interpreter::with_step_limit(1);
    match eval_with(&mut small, "1 + 2") {
        Object::Error(msg) => assert_eq!(msg, "evaluation step limit reached"),
        other => panic!("expected Error, got {:?}", other),
    }
}

#[test]
fn test_bindings_persist_between_programs() {
    let mut interpreter = Interpreter::new();
    eval_with(&mut interpreter, "const a = 40;");
    test_integer_object(&eval_with(&mut interpreter, "a + 2"), 42);
    eval_with(&mut interpreter, "{ const a = 1; }");
    test_integer_object(&eval_with(&mut interpreter, "a"), 40);
}

#[test]
fn test_loops_values() {
    test_integer_object(&test_eval("const i = 0; for (; i < 3; const i = i + 1) { i; } i"), 3);
    test_null_object(&test_eval("while (false) { 1; }"));
    match test_eval("{ while (true) { break; } 5 }") {
        Object::Break => {}
        other => panic!("expected Break, got {:?}", other),
    }
}

#[test]
fn test_inspect() {
    assert_eq!(test_eval("-42").inspect(), "-42");
    assert_eq!(test_eval("-9223372036854775807 - 1").inspect(), "-9223372036854775808");
    assert_eq!(test_eval("true").inspect(), "true");
    assert_eq!(test_eval("if (false) { 1 }").inspect(), "null");
    assert_eq!(test_eval("\"hi\"").inspect(), "hi");
    assert_eq!(test_eval("foo").inspect(), "ERROR: identifier not found: foo");
    assert_eq!(test_eval("func(x, y) { x + y; }").inspect(), "func(x, y) (x + y)");
    assert_eq!(Object::Break.inspect(), "break");
    assert_eq!(Object::Continue.inspect(), "continue");
    assert_eq!(Object::Null.object_type(), "NULL");
    assert_eq!(Object::Integer(3).object_type(), "INTEGER");
    assert!(Object::Error("x".to_string()).is_error());
    assert!(!Object::Null.is_error());
}

fn int_of(o: Option<Object>) -> Option<i64> {
    match o {
        Some(Object::Integer(v)) => Some(v),
        Some(other) => panic!("expected Integer, got {:?}", other),
        None => None,
    }
}

#[test]
fn test_environment_chain() {
    let mut global = Environment::new();
    global.set("x".to_string(), Object::Integer(1));
    global.set("y".to_string(), Object::Integer(2));
    let frames = vec![global];
    let mut inner = Environment::new_enclosed(0);
    inner.set("x".to_string(), Object::Integer(10));
    assert_eq!(int_of(inner.get("x", &frames)), Some(10));
    assert_eq!(int_of(inner.get("y", &frames)), Some(2));
    assert!(inner.get("z", &frames).is_none());
    inner.set("x".to_string(), Object::Integer(11));
    assert_eq!(int_of(inner.get("x", &frames)), Some(11));
    assert_eq!(int_of(frames[0].get("x", &frames)), Some(1));
}

#[test]
fn test_printed_integers_read_back() {
    for v in [0i64, 7, 10, 99, 100, -1, -42, 123456789, i64::MAX, i64::MIN] {
        let text = Object::Integer(v).inspect();
        assert_eq!(parse_int_literal(&text), Some(v), "text {}", text);
    }
}

#[test]
fn test_calls_keep_the_callers_bindings() {
    test_integer_object(&test_eval("const x = 1; const f = func() { const x = 2; x }; f(); x"), 1);
    test_integer_object(&test_eval("const x = 1; const f = func(x) { x }; f(5) + x"), 6);
    test_integer_object(&test_eval("const x = 1; if (true) { const x = 3; } x"), 1);
}

#[test]
fn test_closures_outlive_their_block() {
    let input = "
    const make = func() { const hidden = 41; { const inner = 1; func() { hidden + inner } } };
    const g = make();
    g()
    ";
    test_integer_object(&test_eval(input), 42);
}

#[test]
fn test_functions_compare_by_environment_contents() {
    test_boolean_object(&test_eval("func(){ func(){1} }() == func(){ func(){1} }()"), true);
    test_boolean_object(&test_eval("func(){ func(){1} }() != func(){ func(){1} }()"), false);
    test_boolean_object(
        &test_eval("const mk = func(x) { func() { x } }; mk(1) == mk(1)"),
        true,
    );
    test_boolean_object(
        &test_eval("const mk = func(x) { func() { x } }; mk(1) == mk(2)"),
        false,
    );
    test_boolean_object(&test_eval("func(x) { x } == func(y) { y }"), false);
    test_boolean_object(&test_eval("func(x) { x } == func(x) { x }"), true);
}

#[test]
fn test_float_comparisons_follow_ieee() {
    test_boolean_object(&test_eval("-0.0 == 0.0"), true);
    test_boolean_object(&test_eval("-0.0 < 0.0"), false);
    test_boolean_object(&test_eval("0.0 > -0.0"), false);
    test_boolean_object(&test_eval("-1.5 < -0.5"), true);
    test_boolean_object(&test_eval("-0.5 < -1.5"), false);
    test_boolean_object(&test_eval("-0.5 < 1.5"), true);
    test_boolean_object(&test_eval("2.5 > -3.5"), true);
    let inf = "1000000000000000000000000000000000000000000000000000000000000000000000000000000000000000000000000000000000000000000000000000000000000000000000000000000000000000000000000000000000000000000000000000000000000000000000000000000000000000000000000000000000000000000000000000000000000000000000000000000000000000000000.0";
    test_boolean_object(&test_eval(&format!("{} > 1.0", inf)), true);
    test_boolean_object(&test_eval(&format!("-{} < -1.0", inf)), true);
    let nan = format!("const inf = {}; const nan = inf - inf;", inf);
    test_boolean_object(&test_eval(&format!("{} nan == nan", nan)), false);
    test_boolean_object(&test_eval(&format!("{} nan != nan", nan)), true);
    test_boolean_object(&test_eval(&format!("{} nan < 1.0", nan)), false);
    test_boolean_object(&test_eval(&format!("{} nan > 1.0", nan)), false);
    test_boolean_object(&test_eval(&format!("{} 1.0 < nan", nan)), false);
}
