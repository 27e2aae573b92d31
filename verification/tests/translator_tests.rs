use fhe_dsl::{compile_ast, parse_dsl, Expr, LoweringContext, Op, Statement};

#[test]
fn test_simple_variable() {
    let stmt = Statement {
        var: "y".to_string(),
        expr: Expr::Var("x".to_string()),
    };
    let ops = compile_ast(stmt);

    assert_eq!(
        ops,
        vec![Op::Input("x".to_string()), Op::Output("y".to_string()),]
    );
}

#[test]
fn test_constant() {
    let stmt = Statement {
        var: "y".to_string(),
        expr: Expr::Const(42),
    };
    let ops = compile_ast(stmt);
    assert_eq!(ops, vec![Op::Const(42), Op::Output("y".to_string()),]);
}

#[test]
fn translator_test_multiplication() {
    let stmt = Statement {
        var: "z".to_string(),
        expr: Expr::Mul(
            Box::new(Expr::Var("x".to_string())),
            Box::new(Expr::Var("y".to_string())),
        ),
    };
    let ops = compile_ast(stmt);

    assert_eq!(
        ops,
        vec![
            Op::Input("x".to_string()),
            Op::Input("y".to_string()),
            Op::Mul("x".to_string(), "y".to_string()),
            Op::Output("z".to_string()),
        ]
    );
}

#[test]
fn translator_test_addition() {
    let stmt = Statement {
        var: "z".to_string(),
        expr: Expr::Add(
            Box::new(Expr::Var("x".to_string())),
            Box::new(Expr::Var("y".to_string())),
        ),
    };
    let ops = compile_ast(stmt);
    assert_eq!(
        ops,
        vec![
            Op::Input("x".to_string()),
            Op::Input("y".to_string()),
            Op::Add("x".to_string(), "y".to_string()),
            Op::Output("z".to_string()),
        ]
    );
}

fn name(text: &str) -> String {
    text.to_string()
}

#[test]
fn operands_are_lowered_left_to_right_in_post_order() {
    let ops = compile_ast(parse_dsl("let result = x * y + 5").unwrap());
    assert_eq!(
        ops,
        vec![
            Op::Input(name("x")),
            Op::Input(name("y")),
            Op::Mul(name("x"), name("y")),
            Op::Const(5),
            Op::Add(name("t_0"), name("const_0")),
            Op::Output(name("result")),
        ]
    );
}

#[test]
fn a_variable_is_read_once_in_a_statement() {
    let ops = compile_ast(parse_dsl("let z = x * x + x").unwrap());
    assert_eq!(
        ops,
        vec![
            Op::Input(name("x")),
            Op::Mul(name("x"), name("x")),
            Op::Add(name("t_0"), name("x")),
            Op::Output(name("z")),
        ]
    );
}

#[test]
fn labels_count_constants_and_temporaries_apart() {
    let ops = compile_ast(parse_dsl("let z = (1 + 2) * (3 + a) * 4").unwrap());
    assert_eq!(
        ops,
        vec![
            Op::Const(1),
            Op::Const(2),
            Op::Add(name("const_0"), name("const_1")),
            Op::Const(3),
            Op::Input(name("a")),
            Op::Add(name("const_2"), name("a")),
            Op::Mul(name("t_0"), name("t_1")),
            Op::Const(4),
            Op::Mul(name("t_2"), name("const_3")),
            Op::Output(name("z")),
        ]
    );
}

#[test]
fn labels_are_not_reused_across_statements() {
    let mut ctx = LoweringContext::new();
    ctx.lower(parse_dsl("let a = x + 1").unwrap());
    ctx.lower(parse_dsl("let b = a * 2").unwrap());
    let ops = ctx.finish();
    assert_eq!(
        ops,
        vec![
            Op::Input(name("x")),
            Op::Const(1),
            Op::Add(name("x"), name("const_0")),
            Op::Output(name("a")),
            Op::Input(name("a")),
            Op::Const(2),
            Op::Mul(name("a"), name("const_1")),
            Op::Output(name("b")),
        ]
    );
}

#[test]
fn lowering_twice_differs_in_label_numbers_only() {
    let mut ctx = LoweringContext::new();
    ctx.lower(parse_dsl("let z = x * 2 + 3").unwrap());
    ctx.lower(parse_dsl("let z = x * 2 + 3").unwrap());
    let ops = ctx.finish();
    assert_eq!(
        ops,
        vec![
            Op::Input(name("x")),
            Op::Const(2),
            Op::Mul(name("x"), name("const_0")),
            Op::Const(3),
            Op::Add(name("t_0"), name("const_1")),
            Op::Output(name("z")),
            Op::Input(name("x")),
            Op::Const(2),
            Op::Mul(name("x"), name("const_2")),
            Op::Const(3),
            Op::Add(name("t_2"), name("const_3")),
            Op::Output(name("z")),
        ]
    );
}

#[test]
fn label_numbers_are_decimal() {
    let mut ctx = LoweringContext::new();
    for _ in 0..11 {
        ctx.lower(parse_dsl("let z = 1 + 1").unwrap());
    }
    let ops = ctx.finish();
    assert_eq!(ops.len(), 44);
    assert_eq!(ops[42], Op::Add(name("const_20"), name("const_21")));
    assert_eq!(ops[38], Op::Add(name("const_18"), name("const_19")));
    assert_eq!(ops[22], Op::Add(name("const_10"), name("const_11")));
}
