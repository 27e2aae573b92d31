use fhe_dsl::{compile_dsl, execute, CompileError, Op, ParseError, PlainBackend, ToyBackend};

fn name(text: &str) -> String {
    text.to_string()
}

#[test]
fn a_program_gives_inputs_and_statements() {
    let (ops, inputs) = compile_dsl("input x = 5;\ninput y = 3;\nlet a = x * y + 3;\n").unwrap();
    assert_eq!(
        ops,
        vec![
            Op::Input(name("x")),
            Op::Input(name("y")),
            Op::Mul(name("x"), name("y")),
            Op::Const(3),
            Op::Add(name("t_0"), name("const_0")),
            Op::Output(name("a")),
        ]
    );
    assert_eq!(inputs.len(), 2);
    assert_eq!(inputs.get("x").copied(), Some(5));
    assert_eq!(inputs.get("y").copied(), Some(3));
    let outputs = execute(ops, inputs, &ToyBackend::new()).unwrap();
    assert_eq!(outputs.get("a").copied(), Some(18));
}

#[test]
fn statements_of_a_program_share_the_label_counters() {
    let (ops, inputs) = compile_dsl("let a = x + 1\nlet b = y * 2 + 7").unwrap();
    assert_eq!(
        ops,
        vec![
            Op::Input(name("x")),
            Op::Const(1),
            Op::Add(name("x"), name("const_0")),
            Op::Output(name("a")),
            Op::Input(name("y")),
            Op::Const(2),
            Op::Mul(name("y"), name("const_1")),
            Op::Const(7),
            Op::Add(name("t_1"), name("const_2")),
            Op::Output(name("b")),
        ]
    );
    assert!(inputs.is_empty());
}

#[test]
fn lines_are_trimmed_and_other_lines_are_passed_over() {
    let source = "\r\n   input x = 4 ;;  \r\n# a remark\n\n\tlet z = x * x;;\r\ninput novalue\nlet\nprint z\n";
    let (ops, inputs) = compile_dsl(source).unwrap();
    assert_eq!(
        ops,
        vec![
            Op::Input(name("x")),
            Op::Mul(name("x"), name("x")),
            Op::Output(name("z")),
        ]
    );
    assert_eq!(inputs.len(), 1);
    assert_eq!(inputs.get("x").copied(), Some(4));
    let outputs = execute(ops, inputs, &PlainBackend::new()).unwrap();
    assert_eq!(outputs.get("z").copied(), Some(16));
}

#[test]
fn input_values_are_signed_decimal_integers() {
    let source = "input a = -7\ninput b = +8\ninput c = 0012\ninput d = -9223372036854775808\ninput e = 9223372036854775807\ninput  spaced name  =  3";
    let (ops, inputs) = compile_dsl(source).unwrap();
    assert!(ops.is_empty());
    assert_eq!(inputs.len(), 6);
    assert_eq!(inputs.get("a").copied(), Some(-7));
    assert_eq!(inputs.get("b").copied(), Some(8));
    assert_eq!(inputs.get("c").copied(), Some(12));
    assert_eq!(inputs.get("d").copied(), Some(i64::MIN));
    assert_eq!(inputs.get("e").copied(), Some(i64::MAX));
    assert_eq!(inputs.get("spaced name").copied(), Some(3));
}

#[test]
fn a_later_input_line_replaces_an_earlier_one() {
    let (_ops, inputs) = compile_dsl("input x = 1\ninput x = 2").unwrap();
    assert_eq!(inputs.len(), 1);
    assert_eq!(inputs.get("x").copied(), Some(2));
}

#[test]
fn the_value_of_an_input_splits_at_the_first_equals_sign() {
    match compile_dsl("input x = 1 = 2") {
        Err(CompileError::InputValue(text)) => assert_eq!(text, "1 = 2"),
        other => panic!("unexpected result {:?}", other.map(|(ops, _)| ops)),
    }
}

fn input_value_error(source: &str) -> String {
    match compile_dsl(source) {
        Err(CompileError::InputValue(text)) => text,
        Err(other) => panic!("unexpected error {:?}", other),
        Ok(_) => panic!("the program compiled"),
    }
}

#[test]
fn an_input_value_that_is_no_integer_is_an_error() {
    assert_eq!(input_value_error("input x = abc"), "abc");
    assert_eq!(input_value_error("input x ="), "");
    assert_eq!(input_value_error("input x = -"), "-");
    assert_eq!(input_value_error("input x = +"), "+");
    assert_eq!(input_value_error("input x = 1 2;"), "1 2");
    assert_eq!(input_value_error("input x = 12a"), "12a");
    assert_eq!(input_value_error("input x = --1"), "--1");
    assert_eq!(
        input_value_error("input x = 9223372036854775808"),
        "9223372036854775808"
    );
    assert_eq!(
        input_value_error("input x = -9223372036854775809"),
        "-9223372036854775809"
    );
    assert_eq!(
        input_value_error("input x = 99999999999999999999999999"),
        "99999999999999999999999999"
    );
    assert_eq!(input_value_error("let a = 1\ninput x = y\nlet b = )"), "y");
}

#[test]
fn a_line_that_is_no_statement_is_an_error() {
    match compile_dsl("let a = 1\nlet b = )\ninput x = y") {
        Err(CompileError::Statement(ParseError::UnexpectedToken(found))) => {
            assert_eq!(found, ")")
        }
        other => panic!("unexpected result {:?}", other.map(|(ops, _)| ops)),
    }
    match compile_dsl("let  = 1") {
        Err(CompileError::Statement(ParseError::ExpectedIdentifier)) => (),
        other => panic!("unexpected result {:?}", other.map(|(ops, _)| ops)),
    }
    match compile_dsl("let x = 1 +;") {
        Err(CompileError::Statement(ParseError::UnexpectedEOF)) => (),
        other => panic!("unexpected result {:?}", other.map(|(ops, _)| ops)),
    }
}

#[test]
fn an_empty_text_is_an_empty_program() {
    let (ops, inputs) = compile_dsl("").unwrap();
    assert!(ops.is_empty());
    assert!(inputs.is_empty());
    let (ops, inputs) = compile_dsl("\n\n  \n").unwrap();
    assert!(ops.is_empty());
    assert!(inputs.is_empty());
}
