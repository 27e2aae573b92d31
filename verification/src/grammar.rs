//! The grammar of statements, as functions from a text and a position to
//! what is read there.
//!
//! ```text
//! statement  := "let" identifier "=" expr [";"]
//! expr       := term ("+" term)*
//! term       := primary ("*" primary)*
//! primary    := integer | identifier | "(" expr ")"
//! ```
//!
//! White space may stand between any two tokens.  Both operators associate
//! to the left.  A text is a statement only as a whole: reading stops at the
//! first violation, and anything but white space behind a complete statement
//! is a violation too.

use crate::ast::{ExprView, StatementView};
use crate::text::{decimal_value, is_digit, is_ident_part, is_ident_start, is_space};
use vstd::prelude::*;

verus! {

/// The mathematical form of a [`crate::parser::ParseError`].
pub enum ParseErrorView {
    UnexpectedToken(Seq<char>),
    UnexpectedEOF,
    InvalidNumber(Seq<char>),
    ExpectedEquals,
    ExpectedIdentifier,
    ExpectedLet,
}

/// What is read at a position: the value and the position behind it, or the
/// violation found.
pub type Parsed<T> = Result<(T, int), ParseErrorView>;

/// The number of white-space characters in a row from position `i` on.
pub open spec fn space_run(s: Seq<char>, i: int) -> nat
    decreases s.len() - i,
{
    if 0 <= i < s.len() && is_space(s[i]) {
        1 + space_run(s, i + 1)
    } else {
        0
    }
}

/// The first position from `i` on that holds no white space.
pub open spec fn skip_spaces(s: Seq<char>, i: int) -> int {
    i + space_run(s, i)
}

/// The number of digits in a row from position `i` on.
pub open spec fn digit_run(s: Seq<char>, i: int) -> nat
    decreases s.len() - i,
{
    if 0 <= i < s.len() && is_digit(s[i]) {
        1 + digit_run(s, i + 1)
    } else {
        0
    }
}

/// The number of identifier characters in a row from position `i` on.
pub open spec fn ident_run(s: Seq<char>, i: int) -> nat
    decreases s.len() - i,
{
    if 0 <= i < s.len() && is_ident_part(s[i]) {
        1 + ident_run(s, i + 1)
    } else {
        0
    }
}

/// The keyword that opens a statement.
pub open spec fn let_keyword() -> Seq<char> {
    seq!['l', 'e', 't']
}

/// The integer written at position `i`: the longest run of digits there,
/// read in base ten. A run that is empty or denotes more than `i64::MAX` is
/// an invalid number.
pub open spec fn number_at(s: Seq<char>, i: int) -> Parsed<i64> {
    let end = i + digit_run(s, i);
    let digits = s.subrange(i, end);
    if digits.len() > 0 && decimal_value(digits) <= i64::MAX {
        Ok((decimal_value(digits) as i64, end))
    } else {
        Err(ParseErrorView::InvalidNumber(digits))
    }
}

/// The identifier written at position `i`: a letter or underscore and the
/// longest run of letters, digits and underscores behind it.
pub open spec fn identifier_at(s: Seq<char>, i: int) -> Parsed<Seq<char>> {
    if 0 <= i < s.len() && is_ident_start(s[i]) {
        let end = i + 1 + ident_run(s, i + 1);
        Ok((s.subrange(i, end), end))
    } else {
        Err(ParseErrorView::ExpectedIdentifier)
    }
}

/// `term` joined to the sum read before it, if any.
pub open spec fn join_sum(acc: Option<ExprView>, term: ExprView) -> ExprView {
    match acc {
        None => term,
        Some(left) => ExprView::Add(Box::new(left), Box::new(term)),
    }
}

/// `factor` joined to the product read before it, if any.
pub open spec fn join_product(acc: Option<ExprView>, factor: ExprView) -> ExprView {
    match acc {
        None => factor,
        Some(left) => ExprView::Mul(Box::new(left), Box::new(factor)),
    }
}

/// The primary at position `i`, behind any white space: an integer, an
/// identifier, or an expression in parentheses.  Where the parenthesis is
/// not closed, the violation is the end of the text, or the character that
/// stands where the closing parenthesis should.
pub open spec fn primary_at(s: Seq<char>, i: int) -> Parsed<ExprView>
    decreases s.len() - i, 0int,
{
    let j = skip_spaces(s, i);
    if !(0 <= j < s.len()) {
        Err(ParseErrorView::UnexpectedEOF)
    } else if is_digit(s[j]) {
        match number_at(s, j) {
            Ok((value, end)) => Ok((ExprView::Const(value), end)),
            Err(e) => Err(e),
        }
    } else if is_ident_start(s[j]) {
        match identifier_at(s, j) {
            Ok((name, end)) => Ok((ExprView::Var(name), end)),
            Err(e) => Err(e),
        }
    } else if s[j] == '(' {
        match sum_from(s, None, j + 1) {
            Ok((inner, end)) => {
                let k = skip_spaces(s, end);
                if !(0 <= k < s.len()) {
                    Err(ParseErrorView::UnexpectedEOF)
                } else if s[k] == ')' {
                    Ok((inner, k + 1))
                } else {
                    Err(ParseErrorView::UnexpectedToken(seq![s[k]]))
                }
            },
            Err(e) => Err(e),
        }
    } else {
        Err(ParseErrorView::UnexpectedToken(seq![s[j]]))
    }
}

/// What follows a product: if a `*` stands behind `end`, the factors behind
/// it joined to `product`, else `product` itself.  `from` is where the last
/// factor of `product` began.
///
/// A factor ends behind where it begins, so the test `from <= k` always
/// holds; it is there to make the definition well-founded.
pub open spec fn product_rest(s: Seq<char>, product: ExprView, end: int, from: int) -> Parsed<
    ExprView,
>
    decreases s.len() - from, 1int,
{
    let k = skip_spaces(s, end);
    if from <= k < s.len() && s[k] == '*' {
        product_from(s, Some(product), k + 1)
    } else {
        Ok((product, k))
    }
}

/// A product from position `i` on: a primary, joined to the product `acc`
/// read before it, and every `*` and primary that follow.
pub open spec fn product_from(s: Seq<char>, acc: Option<ExprView>, i: int) -> Parsed<ExprView>
    decreases s.len() - i, 2int,
{
    match primary_at(s, i) {
        Ok((factor, end)) => product_rest(s, join_product(acc, factor), end, i),
        Err(e) => Err(e),
    }
}

/// The term at position `i`: primaries joined by `*`, from left to right.
pub open spec fn term_at(s: Seq<char>, i: int) -> Parsed<ExprView>
    decreases s.len() - i, 3int,
{
    product_from(s, None, i)
}

/// What follows a sum: if a `+` stands behind `end`, the terms behind it
/// joined to `sum`, else `sum` itself.  `from` is where the last term of
/// `sum` began.
///
/// A term ends behind where it begins, so the test `from <= k` always holds;
/// it is there to make the definition well-founded.
pub open spec fn sum_rest(s: Seq<char>, sum: ExprView, end: int, from: int) -> Parsed<ExprView>
    decreases s.len() - from, 4int,
{
    let k = skip_spaces(s, end);
    if from <= k < s.len() && s[k] == '+' {
        sum_from(s, Some(sum), k + 1)
    } else {
        Ok((sum, k))
    }
}

/// A sum from position `i` on: a term, joined to the sum `acc` read before
/// it, and every `+` and term that follow.
pub open spec fn sum_from(s: Seq<char>, acc: Option<ExprView>, i: int) -> Parsed<ExprView>
    decreases s.len() - i, 5int,
{
    match term_at(s, i) {
        Ok((term, end)) => sum_rest(s, join_sum(acc, term), end, i),
        Err(e) => Err(e),
    }
}

/// A run of white space, of digits or of identifier characters ends within
/// the text.
pub proof fn lemma_runs_end_within(s: Seq<char>, i: int)
    requires
        0 <= i <= s.len(),
    ensures
        i + space_run(s, i) <= s.len(),
        i + digit_run(s, i) <= s.len(),
        i + ident_run(s, i) <= s.len(),
    decreases s.len() - i,
{
    if i < s.len() {
        lemma_runs_end_within(s, i + 1);
    }
}

/// A primary ends behind where it begins, and within the text.
pub proof fn lemma_primary_advances(s: Seq<char>, i: int)
    requires
        0 <= i,
    ensures
        primary_at(s, i) matches Ok((_, end)) ==> i < end <= s.len(),
    decreases s.len() - i, 0int,
{
    if i <= s.len() {
        lemma_runs_end_within(s, i);
        let j = skip_spaces(s, i);
        if j < s.len() {
            lemma_runs_end_within(s, j);
            lemma_runs_end_within(s, j + 1);
            if !is_digit(s[j]) && !is_ident_start(s[j]) && s[j] == '(' {
                lemma_sum_advances(s, None, j + 1);
                match sum_from(s, None, j + 1) {
                    Ok((_, end)) => {
                        lemma_runs_end_within(s, end);
                    },
                    Err(_) => {},
                }
            }
        }
    }
}

/// What follows a product ends no earlier than the product, and within the
/// text.
pub proof fn lemma_product_rest_advances(s: Seq<char>, product: ExprView, end: int, from: int)
    requires
        0 <= from <= end <= s.len(),
    ensures
        product_rest(s, product, end, from) matches Ok((_, k)) ==> end <= k <= s.len(),
    decreases s.len() - from, 1int,
{
    lemma_runs_end_within(s, end);
    let k = skip_spaces(s, end);
    if k < s.len() && s[k] == '*' {
        lemma_product_advances(s, Some(product), k + 1);
    }
}

/// A product ends behind where it begins, and within the text.
pub proof fn lemma_product_advances(s: Seq<char>, acc: Option<ExprView>, i: int)
    requires
        0 <= i,
    ensures
        product_from(s, acc, i) matches Ok((_, end)) ==> i < end <= s.len(),
    decreases s.len() - i, 2int,
{
    lemma_primary_advances(s, i);
    match primary_at(s, i) {
        Ok((factor, end)) => {
            lemma_product_rest_advances(s, join_product(acc, factor), end, i);
        },
        Err(_) => {},
    }
}

/// What follows a sum ends no earlier than the sum, and within the text.
pub proof fn lemma_sum_rest_advances(s: Seq<char>, sum: ExprView, end: int, from: int)
    requires
        0 <= from <= end <= s.len(),
    ensures
        sum_rest(s, sum, end, from) matches Ok((_, k)) ==> end <= k <= s.len(),
    decreases s.len() - from, 4int,
{
    lemma_runs_end_within(s, end);
    let k = skip_spaces(s, end);
    if k < s.len() && s[k] == '+' {
        lemma_sum_advances(s, Some(sum), k + 1);
    }
}

/// A sum ends behind where it begins, and within the text.
pub proof fn lemma_sum_advances(s: Seq<char>, acc: Option<ExprView>, i: int)
    requires
        0 <= i,
    ensures
        sum_from(s, acc, i) matches Ok((_, end)) ==> i < end <= s.len(),
    decreases s.len() - i, 5int,
{
    lemma_product_advances(s, None, i);
    match term_at(s, i) {
        Ok((term, end)) => {
            lemma_sum_rest_advances(s, join_sum(acc, term), end, i);
        },
        Err(_) => {},
    }
}

/// The expression at position `i`: terms joined by `+`, from left to right.
pub open spec fn expr_at(s: Seq<char>, i: int) -> Parsed<ExprView> {
    sum_from(s, None, i)
}

/// The statement that `s` is: the keyword, the target, the equals sign, the
/// expression and, if it is there, the semicolon, with nothing but white
/// space behind them.  The first character behind them that is no white
/// space is an unexpected token.
pub open spec fn statement_at(s: Seq<char>) -> Parsed<StatementView> {
    match identifier_at(s, skip_spaces(s, 0)) {
        Err(e) => Err(e),
        Ok((keyword, after_keyword)) => if keyword != let_keyword() {
            Err(ParseErrorView::ExpectedLet)
        } else {
            match identifier_at(s, skip_spaces(s, after_keyword)) {
                Err(e) => Err(e),
                Ok((var, after_var)) => {
                    let eq = skip_spaces(s, after_var);
                    if 0 <= eq < s.len() && s[eq] == '=' {
                        match expr_at(s, eq + 1) {
                            Err(e) => Err(e),
                            Ok((expr, after_expr)) => {
                                let semi = skip_spaces(s, after_expr);
                                let end = if 0 <= semi < s.len() && s[semi] == ';' {
                                    semi + 1
                                } else {
                                    semi
                                };
                                let rest = skip_spaces(s, end);
                                if 0 <= rest < s.len() {
                                    Err(ParseErrorView::UnexpectedToken(seq![s[rest]]))
                                } else {
                                    Ok((StatementView { var, expr }, rest))
                                }
                            },
                        }
                    } else {
                        Err(ParseErrorView::ExpectedEquals)
                    }
                },
            }
        },
    }
}

/// What parsing `s` yields: the statement that `s` is, or the first
/// violation of the grammar.
pub open spec fn parsed(s: Seq<char>) -> Result<StatementView, ParseErrorView> {
    match statement_at(s) {
        Ok((statement, _)) => Ok(statement),
        Err(e) => Err(e),
    }
}

} // verus!
