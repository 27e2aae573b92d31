use fhe_dsl::{
    compile_ast, execute, parse_dsl, ExecError, Inputs, LoweringContext, Op, PlainBackend,
    ToyBackend,
};

#[test]
fn test_input_output() {
    let mut inputs = Inputs::new();
    inputs.insert("x".to_string(), 42);

    let ops = vec![Op::Input("x".to_string()), Op::Output("x".to_string())];

    let result = execute(ops, inputs, &ToyBackend::new()).unwrap();
    assert_eq!(result.get("x").copied(), Some(42));
}

#[test]
fn lib_test_addition() {
    let mut inputs = Inputs::new();
    inputs.insert("a".to_string(), 5);
    inputs.insert("b".to_string(), 3);

    let ops = vec![
        Op::Input("a".to_string()),
        Op::Input("b".to_string()),
        Op::Add("a".to_string(), "b".to_string()),
        Op::Output("t_0".to_string()),
    ];

    let result = execute(ops, inputs, &ToyBackend::new()).unwrap();
    assert_eq!(result.get("t_0").copied(), Some(8));
}

#[test]
fn lib_test_multiplication() {
    let mut inputs = Inputs::new();
    inputs.insert("a".to_string(), 4);
    inputs.insert("b".to_string(), 6);

    let ops = vec![
        Op::Input("a".to_string()),
        Op::Input("b".to_string()),
        Op::Mul("a".to_string(), "b".to_string()),
        Op::Output("t_0".to_string()),
    ];

    let result = execute(ops, inputs, &ToyBackend::new()).unwrap();
    assert_eq!(result.get("t_0").copied(), Some(24));
}

#[test]
fn test_constants() {
    let inputs = Inputs::new();

    let ops = vec![Op::Const(10), Op::Output("const_0".to_string())];

    let result = execute(ops, inputs, &ToyBackend::new()).unwrap();
    assert_eq!(result.get("const_0").copied(), Some(10));
}

#[test]
fn lib_test_complex_expression() {
    let mut inputs = Inputs::new();
    inputs.insert("x".to_string(), 5);

    let ops = vec![
        Op::Input("x".to_string()),
        Op::Const(3),
        Op::Mul("x".to_string(), "const_0".to_string()),
        Op::Const(2),
        Op::Add("t_0".to_string(), "const_1".to_string()),
        Op::Output("t_1".to_string()),
    ];

    let result = execute(ops, inputs, &ToyBackend::new()).unwrap();
    assert_eq!(result.get("t_1").copied(), Some(17));
}

#[test]
fn test_actual_program() {
    let mut inputs = Inputs::new();
    inputs.insert("x".to_string(), 5);
    inputs.insert("y".to_string(), 3);

    let ops = vec![
        Op::Input("x".to_string()),
        Op::Input("y".to_string()),
        Op::Mul("x".to_string(), "y".to_string()),
        Op::Const(3),
        Op::Add("t_0".to_string(), "const_0".to_string()),
        Op::Output("t_1".to_string()),
    ];

    let result = execute(ops, inputs, &ToyBackend::new()).unwrap();
    assert_eq!(result.get("t_1").copied(), Some(18));
}

fn inputs_of(pairs: &[(&str, i64)]) -> Inputs {
    let mut inputs = Inputs::new();
    for (name, value) in pairs {
        inputs.insert(name.to_string(), *value);
    }
    inputs
}

fn error_of(source: &str, pairs: &[(&str, i64)]) -> ExecError {
    let ops = compile_ast(parse_dsl(source).unwrap());
    match execute(ops, inputs_of(pairs), &PlainBackend::new()) {
        Ok(_) => panic!("the run succeeded"),
        Err(e) => e,
    }
}

#[test]
fn lowered_statement_runs_on_the_plain_backend() {
    let ops = compile_ast(parse_dsl("let z = x * y + 3").unwrap());
    let outputs = execute(ops, inputs_of(&[("x", 2), ("y", 3)]), &PlainBackend::new()).unwrap();
    assert_eq!(outputs.get("z").copied(), Some(9));
    assert_eq!(outputs.len(), 1);
}

#[test]
fn lowered_statement_runs_on_the_toy_backend() {
    let ops = compile_ast(parse_dsl("let z = x * y + 3").unwrap());
    let outputs = execute(ops, inputs_of(&[("x", 2), ("y", 3)]), &ToyBackend::new()).unwrap();
    assert_eq!(outputs.get("z").copied(), Some(9));
}

#[test]
fn a_missing_input_is_reported_by_name() {
    assert_eq!(
        error_of("let z = x + y", &[("x", 1)]),
        ExecError::MissingInput("y".to_string())
    );
    assert_eq!(
        error_of("let z = x + y", &[]),
        ExecError::MissingInput("x".to_string())
    );
}

#[test]
fn an_unbound_operand_is_reported_by_name() {
    let ops = vec![
        Op::Input("a".to_string()),
        Op::Add("a".to_string(), "b".to_string()),
    ];
    assert_eq!(
        execute(ops, inputs_of(&[("a", 1)]), &PlainBackend::new()).err(),
        Some(ExecError::UndefinedOperand("b".to_string()))
    );
    let ops = vec![Op::Mul("p".to_string(), "q".to_string())];
    assert_eq!(
        execute(ops, inputs_of(&[]), &PlainBackend::new()).err(),
        Some(ExecError::UndefinedOperand("p".to_string()))
    );
    let ops = vec![Op::Const(1), Op::Add("const_0".to_string(), "t_0".to_string())];
    assert_eq!(
        execute(ops, inputs_of(&[]), &PlainBackend::new()).err(),
        Some(ExecError::UndefinedOperand("t_0".to_string()))
    );
}

#[test]
fn an_unbound_output_is_reported_by_name() {
    let ops = vec![Op::Output("z".to_string())];
    assert_eq!(
        execute(ops, inputs_of(&[("z", 1)]), &PlainBackend::new()).err(),
        Some(ExecError::MissingOutput("z".to_string()))
    );
    let ops = vec![
        Op::Const(7),
        Op::Output("a".to_string()),
        Op::Output("b".to_string()),
    ];
    assert_eq!(
        execute(ops, inputs_of(&[]), &PlainBackend::new()).err(),
        Some(ExecError::MissingOutput("b".to_string()))
    );
}

#[test]
fn an_output_reads_its_own_name_before_the_value_before_it() {
    let ops = vec![
        Op::Input("a".to_string()),
        Op::Input("b".to_string()),
        Op::Output("a".to_string()),
        Op::Output("b".to_string()),
    ];
    let outputs = execute(ops, inputs_of(&[("a", 1), ("b", 2)]), &PlainBackend::new()).unwrap();
    assert_eq!(outputs.get("a").copied(), Some(1));
    assert_eq!(outputs.get("b").copied(), Some(2));
}

#[test]
fn the_run_stops_at_the_first_error() {
    let ops = vec![
        Op::Input("a".to_string()),
        Op::Add("a".to_string(), "nope".to_string()),
        Op::Input("missing".to_string()),
    ];
    assert_eq!(
        execute(ops, inputs_of(&[("a", 1)]), &PlainBackend::new()).err(),
        Some(ExecError::UndefinedOperand("nope".to_string()))
    );
}

#[test]
fn an_empty_program_reports_nothing() {
    let outputs = execute(Vec::new(), inputs_of(&[("a", 1)]), &PlainBackend::new()).unwrap();
    assert!(outputs.is_empty());
}

#[test]
fn a_program_of_two_statements_reports_both() {
    let mut ctx = LoweringContext::new();
    ctx.lower(parse_dsl("let a = x + 1").unwrap());
    ctx.lower(parse_dsl("let b = y * 2 + x").unwrap());
    let outputs = execute(
        ctx.finish(),
        inputs_of(&[("x", 10), ("y", 4)]),
        &PlainBackend::new(),
    )
    .unwrap();
    assert_eq!(outputs.get("a").copied(), Some(11));
    assert_eq!(outputs.get("b").copied(), Some(18));
    assert_eq!(outputs.len(), 2);
}

#[test]
fn the_plain_backend_wraps_around() {
    let ops = compile_ast(parse_dsl("let z = x + 1").unwrap());
    let outputs = execute(ops, inputs_of(&[("x", i64::MAX)]), &PlainBackend::new()).unwrap();
    assert_eq!(outputs.get("z").copied(), Some(i64::MIN));
}

#[test]
fn the_toy_backend_is_exact_within_its_range() {
    for _ in 0..50 {
        let ops = compile_ast(parse_dsl("let z = a * b * c + d * 2 + 1").unwrap());
        let outputs = execute(
            ops,
            inputs_of(&[("a", 3), ("b", 5), ("c", 7), ("d", 11)]),
            &ToyBackend::new(),
        )
        .unwrap();
        assert_eq!(outputs.get("z").copied(), Some(128));
        assert_eq!(outputs.len(), 1);
    }
}

#[test]
fn a_program_runs_alike_on_both_backends() {
    let mut ctx = LoweringContext::new();
    ctx.lower(parse_dsl("let p = (x + 1) * (y + 2)").unwrap());
    ctx.lower(parse_dsl("let q = x * x + y").unwrap());
    let plain = execute(
        ctx.finish(),
        inputs_of(&[("x", 9), ("y", 4)]),
        &PlainBackend::new(),
    )
    .unwrap();
    let mut ctx = LoweringContext::new();
    ctx.lower(parse_dsl("let p = (x + 1) * (y + 2)").unwrap());
    ctx.lower(parse_dsl("let q = x * x + y").unwrap());
    let toy = execute(
        ctx.finish(),
        inputs_of(&[("x", 9), ("y", 4)]),
        &ToyBackend::new(),
    )
    .unwrap();
    assert_eq!(plain.get("p").copied(), Some(60));
    assert_eq!(plain.get("q").copied(), Some(85));
    assert_eq!(toy.get("p").copied(), Some(60));
    assert_eq!(toy.get("q").copied(), Some(85));
}

#[test]
fn a_variable_spelt_like_a_label_shares_its_name() {
    let ops = compile_ast(parse_dsl("let z = t_0 + a * b").unwrap());
    assert_eq!(
        ops,
        vec![
            Op::Input("t_0".to_string()),
            Op::Input("a".to_string()),
            Op::Input("b".to_string()),
            Op::Mul("a".to_string(), "b".to_string()),
            Op::Add("t_0".to_string(), "t_0".to_string()),
            Op::Output("z".to_string()),
        ]
    );
    let outputs = execute(
        ops,
        inputs_of(&[("t_0", 1), ("a", 2), ("b", 3)]),
        &PlainBackend::new(),
    )
    .unwrap();
    assert_eq!(outputs.get("z").copied(), Some(12));
}

#[test]
fn a_target_that_is_a_variable_names_the_input() {
    let ops = compile_ast(parse_dsl("let x = x + 1").unwrap());
    let outputs = execute(ops, inputs_of(&[("x", 5)]), &PlainBackend::new()).unwrap();
    assert_eq!(outputs.get("x").copied(), Some(5));
}
