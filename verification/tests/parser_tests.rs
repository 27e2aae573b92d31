use fhe_dsl::{parse_dsl, Expr, ParseError};

#[test]
fn test_simple_assignment() {
    let result = parse_dsl("let x = 42");
    assert!(result.is_ok());
    let stmt = result.unwrap();
    assert_eq!(stmt.var, "x");
    match stmt.expr {
        Expr::Const(n) => assert_eq!(n, 42),
        _ => panic!("Expected Const expression"),
    }
}

#[test]
fn parser_test_addition() {
    let result = parse_dsl("let x = a + b");
    assert!(result.is_ok());
    let stmt = result.unwrap();
    assert_eq!(stmt.var, "x");
    match stmt.expr {
        Expr::Add(a, b) => {
            match *a {
                Expr::Var(ref name) => assert_eq!(name, "a"),
                _ => panic!("Expected Var expression"),
            }
            match *b {
                Expr::Var(ref name) => assert_eq!(name, "b"),
                _ => panic!("Expected Var expression"),
            }
        }
        _ => panic!("Expected Add expression"),
    }
}

#[test]
fn parser_test_multiplication() {
    let result = parse_dsl("let x = a * b");
    assert!(result.is_ok());
    let stmt = result.unwrap();
    match stmt.expr {
        Expr::Mul(_, _) => (),
        _ => panic!("Expected Mul expression"),
    }
}

#[test]
fn parser_test_complex_expression() {
    let result = parse_dsl("let result = x * y + 5");
    assert!(result.is_ok());
    let stmt = result.unwrap();
    match stmt.expr {
        Expr::Add(_, b) => match *b {
            Expr::Const(n) => assert_eq!(n, 5),
            _ => panic!("Expected Const expression"),
        },
        _ => panic!("Expected Add expression"),
    }
}

#[test]
fn test_parentheses() {
    let result = parse_dsl("let x = (a + b) * c");
    assert!(result.is_ok());
}

#[test]
fn test_error_handling() {
    assert!(parse_dsl("x = 42").is_err()); // Missing 'let'
    assert!(parse_dsl("let x 42").is_err()); // Missing '='
    assert!(parse_dsl("let = 42").is_err()); // Missing variable name
    assert!(parse_dsl("let x = ").is_err()); // Missing expression
    assert!(parse_dsl("let x = )").is_err()); // Invalid expression
}

/// Renders an expression with every operator application in parentheses.
fn show(expr: &Expr) -> String {
    match expr {
        Expr::Var(name) => name.clone(),
        Expr::Const(value) => format!("{}", value),
        Expr::Add(a, b) => format!("({} + {})", show(a), show(b)),
        Expr::Mul(a, b) => format!("({} * {})", show(a), show(b)),
    }
}

fn parse_shape(source: &str) -> String {
    let stmt = parse_dsl(source).unwrap();
    format!("{} = {}", stmt.var, show(&stmt.expr))
}

#[test]
fn multiplication_binds_tighter_than_addition() {
    assert_eq!(parse_shape("let x = a + b * c"), "x = (a + (b * c))");
    assert_eq!(parse_shape("let x = a * b + c"), "x = ((a * b) + c)");
}

#[test]
fn parentheses_override_precedence() {
    assert_eq!(parse_shape("let x = (a + b) * c"), "x = ((a + b) * c)");
    assert_eq!(parse_shape("let x = ((a))"), "x = a");
}

#[test]
fn operators_associate_to_the_left() {
    assert_eq!(parse_shape("let x = a + b + c"), "x = ((a + b) + c)");
    assert_eq!(parse_shape("let x = a * b * c"), "x = ((a * b) * c)");
    assert_eq!(parse_shape("let x = a + (b + c)"), "x = (a + (b + c))");
}

#[test]
fn white_space_is_insignificant() {
    assert_eq!(parse_shape("  let\tx=a+b*c  "), "x = (a + (b * c))");
    assert_eq!(parse_shape("let x\n=\n( a )\u{a0}*\u{3000}2"), "x = (a * 2)");
    assert_eq!(parse_shape("let x=1"), "x = 1");
}

#[test]
fn trailing_semicolon_is_optional() {
    assert_eq!(parse_shape("let x = 1;"), "x = 1");
    assert_eq!(parse_shape("let x = 1 ;"), "x = 1");
    assert_eq!(parse_shape("let x = 1"), "x = 1");
}

#[test]
fn identifiers_hold_letters_digits_and_underscores() {
    assert_eq!(parse_shape("let _r2 = a_1 + B9"), "_r2 = (a_1 + B9)");
    assert_eq!(parse_shape("let letter = let1"), "letter = let1");
}

#[test]
fn integers_are_decimal_and_fit_in_i64() {
    assert_eq!(parse_shape("let x = 007"), "x = 7");
    assert_eq!(parse_shape("let x = 0"), "x = 0");
    assert_eq!(
        parse_shape("let x = 9223372036854775807"),
        "x = 9223372036854775807"
    );
    match parse_dsl("let x = 9223372036854775808") {
        Err(ParseError::InvalidNumber(text)) => assert_eq!(text, "9223372036854775808"),
        other => panic!("unexpected result {:?}", other),
    }
    match parse_dsl("let x = 1 + 99999999999999999999999 * 2") {
        Err(ParseError::InvalidNumber(text)) => assert_eq!(text, "99999999999999999999999"),
        other => panic!("unexpected result {:?}", other),
    }
}

#[test]
fn each_violation_has_its_error() {
    assert!(matches!(parse_dsl("x = 42"), Err(ParseError::ExpectedLet)));
    assert!(matches!(parse_dsl("letx = 42"), Err(ParseError::ExpectedLet)));
    assert!(matches!(parse_dsl(""), Err(ParseError::ExpectedIdentifier)));
    assert!(matches!(parse_dsl("42"), Err(ParseError::ExpectedIdentifier)));
    assert!(matches!(parse_dsl("let = 42"), Err(ParseError::ExpectedIdentifier)));
    assert!(matches!(parse_dsl("let 9x = 42"), Err(ParseError::ExpectedIdentifier)));
    assert!(matches!(parse_dsl("let x 42"), Err(ParseError::ExpectedEquals)));
    assert!(matches!(parse_dsl("let x"), Err(ParseError::ExpectedEquals)));
    assert!(matches!(parse_dsl("let x = "), Err(ParseError::UnexpectedEOF)));
    assert!(matches!(parse_dsl("let x = a +"), Err(ParseError::UnexpectedEOF)));
    assert!(matches!(parse_dsl("let x = a * ("), Err(ParseError::UnexpectedEOF)));
    match parse_dsl("let x = )") {
        Err(ParseError::UnexpectedToken(found)) => assert_eq!(found, ")"),
        other => panic!("unexpected result {:?}", other),
    }
    match parse_dsl("let x = a + -1") {
        Err(ParseError::UnexpectedToken(found)) => assert_eq!(found, "-"),
        other => panic!("unexpected result {:?}", other),
    }
    match parse_dsl("let x = \u{e9}") {
        Err(ParseError::UnexpectedToken(found)) => assert_eq!(found, "\u{e9}"),
        other => panic!("unexpected result {:?}", other),
    }
}

fn unexpected_token(source: &str) -> String {
    match parse_dsl(source) {
        Err(ParseError::UnexpectedToken(found)) => found,
        other => panic!("unexpected result {:?}", other),
    }
}

#[test]
fn a_parenthesis_that_is_not_closed_is_an_error() {
    assert!(matches!(parse_dsl("let x = (a + b"), Err(ParseError::UnexpectedEOF)));
    assert!(matches!(parse_dsl("let x = (a + b  "), Err(ParseError::UnexpectedEOF)));
    assert!(matches!(parse_dsl("let x = ((a)"), Err(ParseError::UnexpectedEOF)));
    assert_eq!(unexpected_token("let x = (a + b ]"), "]");
    assert_eq!(unexpected_token("let x = (a + b c)"), "c");
    assert_eq!(unexpected_token("let x = (a + b;"), ";");
    assert_eq!(unexpected_token("let x = (1 2)"), "2");
}

#[test]
fn text_behind_a_statement_is_an_error() {
    assert_eq!(unexpected_token("let x = a b"), "b");
    assert_eq!(unexpected_token("let x = a - b"), "-");
    assert_eq!(unexpected_token("let x = 1; let y = 2"), "l");
    assert_eq!(unexpected_token("let x = 1 )"), ")");
    assert_eq!(unexpected_token("let x = 1;;"), ";");
    assert_eq!(unexpected_token("let x = 1abc"), "a");
    assert_eq!(unexpected_token("let x = a \u{e9}"), "\u{e9}");
    assert_eq!(unexpected_token("let x = a ; 7"), "7");
}

#[test]
fn white_space_behind_a_statement_is_allowed() {
    assert_eq!(parse_shape("let x = a  "), "x = a");
    assert_eq!(parse_shape("let x = a ;\n\t "), "x = a");
    assert_eq!(parse_shape("let x = a;\u{3000}"), "x = a");
}

/// Writes an expression as a primary: a sum or a product in parentheses.
fn write_primary(expr: &Expr) -> String {
    match expr {
        Expr::Var(name) => name.clone(),
        Expr::Const(value) => format!("{}", value),
        _ => format!("({})", write_sum(expr)),
    }
}

/// Writes an expression as a term: the factors of a product side by side.
fn write_product(expr: &Expr) -> String {
    match expr {
        Expr::Mul(a, b) => format!("{}*{}", write_product(a), write_primary(b)),
        _ => write_primary(expr),
    }
}

/// Writes an expression with the parentheses that it needs and no others.
fn write_sum(expr: &Expr) -> String {
    match expr {
        Expr::Add(a, b) => format!("{}+{}", write_sum(a), write_product(b)),
        _ => write_product(expr),
    }
}

fn var(name: &str) -> Box<Expr> {
    Box::new(Expr::Var(name.to_string()))
}

fn add(a: Box<Expr>, b: Box<Expr>) -> Box<Expr> {
    Box::new(Expr::Add(a, b))
}

fn mul(a: Box<Expr>, b: Box<Expr>) -> Box<Expr> {
    Box::new(Expr::Mul(a, b))
}

#[test]
fn writing_uses_the_parentheses_that_are_needed() {
    assert_eq!(write_sum(&add(var("a"), mul(var("b"), var("c")))), "a+b*c");
    assert_eq!(write_sum(&mul(add(var("a"), var("b")), var("c"))), "(a+b)*c");
    assert_eq!(write_sum(&add(add(var("a"), var("b")), var("c"))), "a+b+c");
    assert_eq!(write_sum(&add(var("a"), add(var("b"), var("c")))), "a+(b+c)");
    assert_eq!(write_sum(&mul(mul(var("a"), var("b")), var("c"))), "a*b*c");
    assert_eq!(write_sum(&mul(var("a"), mul(var("b"), var("c")))), "a*(b*c)");
}

#[test]
fn a_written_statement_reads_back() {
    let exprs = vec![
        var("x"),
        Box::new(Expr::Const(0)),
        Box::new(Expr::Const(i64::MAX)),
        add(var("a"), mul(var("b"), var("c"))),
        mul(add(var("a"), var("b")), var("c")),
        add(var("a"), add(var("b"), var("c"))),
        add(add(var("a"), var("b")), var("c")),
        mul(var("a"), mul(var("b"), var("c"))),
        mul(mul(var("a"), var("b")), var("c")),
        mul(
            add(var("a_1"), Box::new(Expr::Const(12))),
            mul(var("_"), add(var("b"), mul(var("Z9"), var("k")))),
        ),
        add(
            mul(Box::new(Expr::Const(7)), add(var("q"), var("r"))),
            add(mul(var("q"), Box::new(Expr::Const(7))), var("s")),
        ),
    ];
    for expr in exprs {
        let text = format!("let out={}", write_sum(&expr));
        let stmt = parse_dsl(&text).unwrap();
        assert_eq!(stmt.var, "out");
        assert_eq!(show(&stmt.expr), show(&expr));
        assert_eq!(write_sum(&stmt.expr), write_sum(&expr));
    }
}
