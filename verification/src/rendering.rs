//! Writing statements down.
//!
//! An expression is written with the parentheses that precedence and
//! association to the left ask for, and with no others: a product that is an
//! operand of a product stands in parentheses on the right only, and so does
//! a sum that is an operand of a sum; a sum that is an operand of a product
//! stands in parentheses on either side.  Parsing what was written reads the
//! statement back, so the parser binds `*` tighter than `+` and both to the
//! left.

use crate::ast::{ExprView, StatementView};
use crate::grammar::{
    digit_run, expr_at, ident_run, identifier_at, let_keyword, parsed, primary_at, product_from,
    product_rest, skip_spaces, space_run, sum_from, sum_rest, term_at, ParseErrorView,
};
use crate::text::{decimal, is_digit, is_ident_part, is_ident_start, lemma_decimal_round_trip};
use vstd::prelude::*;

verus! {

/// Whether `name` is an identifier: a letter or underscore and letters,
/// digits and underscores behind it.
pub open spec fn is_identifier(name: Seq<char>) -> bool {
    &&& name.len() > 0
    &&& is_ident_start(name[0])
    &&& forall|i: int| 0 < i < name.len() ==> is_ident_part(#[trigger] name[i])
}

/// Whether `e` can be written down: its variables are identifiers and its
/// constants are not negative.
pub open spec fn writable(e: ExprView) -> bool
    decreases e,
{
    match e {
        ExprView::Var(name) => is_identifier(name),
        ExprView::Const(value) => value >= 0,
        ExprView::Add(l, r) | ExprView::Mul(l, r) => writable(*l) && writable(*r),
    }
}

/// The text of `e` as a primary: a sum or a product stands in parentheses.
pub open spec fn written_primary(e: ExprView) -> Seq<char>
    decreases e, 0nat,
{
    match e {
        ExprView::Var(name) => name,
        ExprView::Const(value) => decimal(value as nat),
        ExprView::Add(l, r) => seq!['('] + (written_sum(*l) + seq!['+'] + written_product(*r))
            + seq![')'],
        ExprView::Mul(l, r) => seq!['('] + (written_product(*l) + seq!['*'] + written_primary(
            *r,
        )) + seq![')'],
    }
}

/// The text of `e` as a term: the factors of a product stand side by side.
pub open spec fn written_product(e: ExprView) -> Seq<char>
    decreases e, 1nat,
{
    match e {
        ExprView::Mul(l, r) => written_product(*l) + seq!['*'] + written_primary(*r),
        _ => written_primary(e),
    }
}

/// The text of `e` as an expression: the terms of a sum stand side by side.
pub open spec fn written_sum(e: ExprView) -> Seq<char>
    decreases e, 2nat,
{
    match e {
        ExprView::Add(l, r) => written_sum(*l) + seq!['+'] + written_product(*r),
        _ => written_product(e),
    }
}

/// The text of a statement.
pub open spec fn written_statement(statement: StatementView) -> Seq<char> {
    seq!['l', 'e', 't', ' '] + statement.var + seq!['='] + written_sum(statement.expr)
}

/// `e` with `head` as a further factor in front of its factors.
pub open spec fn product_behind(head: ExprView, e: ExprView) -> ExprView
    decreases e,
{
    match e {
        ExprView::Mul(l, r) => ExprView::Mul(Box::new(product_behind(head, *l)), r),
        _ => ExprView::Mul(Box::new(head), Box::new(e)),
    }
}

/// `e` with `head` as a further term in front of its terms.
pub open spec fn sum_behind(head: ExprView, e: ExprView) -> ExprView
    decreases e,
{
    match e {
        ExprView::Add(l, r) => ExprView::Add(Box::new(sum_behind(head, *l)), r),
        _ => ExprView::Add(Box::new(head), Box::new(e)),
    }
}

/// The product `e`, behind the product `acc` read before it, if any.
pub open spec fn joined_product(acc: Option<ExprView>, e: ExprView) -> ExprView {
    match acc {
        None => e,
        Some(head) => product_behind(head, e),
    }
}

/// The sum `e`, behind the sum `acc` read before it, if any.
pub open spec fn joined_sum(acc: Option<ExprView>, e: ExprView) -> ExprView {
    match acc {
        None => e,
        Some(head) => sum_behind(head, e),
    }
}

/// Whether `s` holds the text `t` from position `i` on.
pub open spec fn holds(s: Seq<char>, i: int, t: Seq<char>) -> bool {
    &&& 0 <= i
    &&& i + t.len() <= s.len()
    &&& forall|k: int| 0 <= k < t.len() ==> s[i + k] == #[trigger] t[k]
}

/// Whether a primary may end at position `j` of `s`: the text ends there, or
/// an operator or a closing parenthesis stands there.
pub open spec fn stops(s: Seq<char>, j: int) -> bool {
    j == s.len() || (0 <= j < s.len() && (s[j] == ')' || s[j] == '+' || s[j] == '*'))
}

/// Whether a term may end at position `j` of `s`: the text ends there, or a
/// `+` or a closing parenthesis stands there.
pub open spec fn stops_term(s: Seq<char>, j: int) -> bool {
    j == s.len() || (0 <= j < s.len() && (s[j] == ')' || s[j] == '+'))
}

/// Whether an expression may end at position `j` of `s`: the text ends
/// there, or a closing parenthesis stands there.
pub open spec fn closes(s: Seq<char>, j: int) -> bool {
    j == s.len() || (0 <= j < s.len() && s[j] == ')')
}

/// Where a text of two parts stands, the parts stand one behind the other.
proof fn lemma_holds_both(s: Seq<char>, i: int, a: Seq<char>, b: Seq<char>)
    requires
        holds(s, i, a + b),
    ensures
        holds(s, i, a),
        holds(s, i + a.len(), b),
{
    let t = a + b;
    assert forall|k: int| 0 <= k < a.len() implies s[i + k] == #[trigger] a[k] by {
        assert(t[k] == a[k]);
    }
    assert forall|k: int| 0 <= k < b.len() implies s[i + a.len() + k] == #[trigger] b[k] by {
        assert(t[a.len() + k] == b[k]);
        assert(s[i + (a.len() + k)] == t[a.len() + k]);
    }
}

/// Where a text of two parts with a character between them stands, the
/// parts and the character stand one behind the other.
proof fn lemma_holds_around(s: Seq<char>, i: int, a: Seq<char>, c: char, b: Seq<char>)
    requires
        holds(s, i, a + seq![c] + b),
    ensures
        holds(s, i, a),
        s[i + a.len()] == c,
        holds(s, i + a.len() + 1, b),
{
    lemma_holds_both(s, i, a + seq![c], b);
    lemma_holds_both(s, i, a, seq![c]);
    assert(s[i + a.len() + 0] == seq![c][0]);
}

/// A run of identifier characters that is followed by another character, or
/// by the end of the text, is as long as it looks.
proof fn lemma_ident_run_is(s: Seq<char>, i: int, n: nat)
    requires
        0 <= i,
        i + n <= s.len(),
        forall|k: int| i <= k < i + n ==> is_ident_part(#[trigger] s[k]),
        i + n == s.len() || !is_ident_part(s[i + n]),
    ensures
        ident_run(s, i) == n,
    decreases n,
{
    if n > 0 {
        assert(is_ident_part(s[i]));
        lemma_ident_run_is(s, i + 1, (n - 1) as nat);
    }
}

/// A run of digits that is followed by another character, or by the end of
/// the text, is as long as it looks.
proof fn lemma_digit_run_is(s: Seq<char>, i: int, n: nat)
    requires
        0 <= i,
        i + n <= s.len(),
        forall|k: int| i <= k < i + n ==> is_digit(#[trigger] s[k]),
        i + n == s.len() || !is_digit(s[i + n]),
    ensures
        digit_run(s, i) == n,
    decreases n,
{
    if n > 0 {
        assert(is_digit(s[i]));
        lemma_digit_run_is(s, i + 1, (n - 1) as nat);
    }
}

/// Parsing reads a written variable or constant back as a primary.
proof fn lemma_leaf_reads_back(s: Seq<char>, i: int, e: ExprView)
    requires
        e is Var || e is Const,
        writable(e),
        holds(s, i, written_primary(e)),
        stops(s, i + written_primary(e).len()),
    ensures
        primary_at(s, i) == Ok::<(ExprView, int), ParseErrorView>(
            (e, i + written_primary(e).len()),
        ),
{
    let text = written_primary(e);
    let end = i + text.len();
    match e {
        ExprView::Var(name) => {
            assert(s[i + 0] == name[0]);
            assert(space_run(s, i) == 0);
            assert(skip_spaces(s, i) == i);
            assert forall|k: int| i + 1 <= k < end implies is_ident_part(#[trigger] s[k]) by {
                assert(s[i + (k - i)] == name[k - i]);
            }
            lemma_ident_run_is(s, i + 1, (name.len() - 1) as nat);
            assert(s.subrange(i, end) =~= name);
        },
        ExprView::Const(value) => {
            lemma_decimal_round_trip(value as nat);
            assert(s[i + 0] == text[0]);
            assert(is_digit(text[0]));
            assert(space_run(s, i) == 0);
            assert(skip_spaces(s, i) == i);
            assert forall|k: int| i <= k < end implies is_digit(#[trigger] s[k]) by {
                assert(s[i + (k - i)] == text[k - i]);
            }
            lemma_digit_run_is(s, i, text.len());
            assert(s.subrange(i, end) =~= text);
        },
        _ => {},
    }
}

/// Parsing reads an expression in parentheses as a primary.
proof fn lemma_parenthesized(s: Seq<char>, i: int, e: ExprView, end: int)
    requires
        0 <= i < s.len(),
        s[i] == '(',
        sum_from(s, None, i + 1) == Ok::<(ExprView, int), ParseErrorView>((e, end)),
        0 <= end < s.len(),
        s[end] == ')',
    ensures
        primary_at(s, i) == Ok::<(ExprView, int), ParseErrorView>((e, end + 1)),
{
    assert(space_run(s, i) == 0);
    assert(skip_spaces(s, i) == i);
    assert(space_run(s, end) == 0);
    assert(skip_spaces(s, end) == end);
}

/// No factor follows a product that ends where a term may end.
proof fn lemma_product_ends(s: Seq<char>, e: ExprView, end: int, from: int)
    requires
        0 <= from <= end,
        stops_term(s, end),
    ensures
        product_rest(s, e, end, from) == Ok::<(ExprView, int), ParseErrorView>((e, end)),
{
    assert(space_run(s, end) == 0);
    assert(skip_spaces(s, end) == end);
}

/// No term follows a sum that ends where an expression may end.
proof fn lemma_sum_ends(s: Seq<char>, e: ExprView, end: int, from: int)
    requires
        0 <= from <= end,
        closes(s, end),
    ensures
        sum_rest(s, e, end, from) == Ok::<(ExprView, int), ParseErrorView>((e, end)),
{
    assert(space_run(s, end) == 0);
    assert(skip_spaces(s, end) == end);
}

/// Behind a `*`, the next primary is joined to the product read so far.
proof fn lemma_product_goes_on(
    s: Seq<char>,
    product: ExprView,
    at: int,
    from: int,
    factor: ExprView,
    end: int,
)
    requires
        0 <= from <= at < s.len(),
        s[at] == '*',
        primary_at(s, at + 1) == Ok::<(ExprView, int), ParseErrorView>((factor, end)),
        at < end,
    ensures
        product_rest(s, product, at, from) == product_rest(
            s,
            ExprView::Mul(Box::new(product), Box::new(factor)),
            end,
            from,
        ),
{
    assert(space_run(s, at) == 0);
    assert(skip_spaces(s, at) == at);
    assert(product_rest(s, product, at, from) == product_from(s, Some(product), at + 1));
    let joined = ExprView::Mul(Box::new(product), Box::new(factor));
    assert(product_from(s, Some(product), at + 1) == product_rest(s, joined, end, at + 1));
}

/// Behind a `+`, the next term is joined to the sum read so far.
proof fn lemma_sum_goes_on(
    s: Seq<char>,
    sum: ExprView,
    at: int,
    from: int,
    term: ExprView,
    end: int,
)
    requires
        0 <= from <= at < s.len(),
        s[at] == '+',
        term_at(s, at + 1) == Ok::<(ExprView, int), ParseErrorView>((term, end)),
        at < end,
    ensures
        sum_rest(s, sum, at, from) == sum_rest(
            s,
            ExprView::Add(Box::new(sum), Box::new(term)),
            end,
            from,
        ),
{
    assert(space_run(s, at) == 0);
    assert(skip_spaces(s, at) == at);
    assert(sum_rest(s, sum, at, from) == sum_from(s, Some(sum), at + 1));
    let joined = ExprView::Add(Box::new(sum), Box::new(term));
    assert(sum_from(s, Some(sum), at + 1) == sum_rest(s, joined, end, at + 1));
}

/// The text of a writable expression is not empty.
proof fn lemma_written_is_not_empty(e: ExprView)
    requires
        writable(e),
    ensures
        written_primary(e).len() > 0,
        written_product(e).len() > 0,
        written_sum(e).len() > 0,
    decreases e,
{
    match e {
        ExprView::Const(value) => {
            lemma_decimal_round_trip(value as nat);
        },
        ExprView::Add(l, r) | ExprView::Mul(l, r) => {
            lemma_written_is_not_empty(*l);
            lemma_written_is_not_empty(*r);
        },
        _ => {},
    }
}

/// Parsing reads a written primary back.
pub proof fn lemma_primary_reads_back(s: Seq<char>, i: int, e: ExprView)
    requires
        writable(e),
        holds(s, i, written_primary(e)),
        stops(s, i + written_primary(e).len()),
    ensures
        primary_at(s, i) == Ok::<(ExprView, int), ParseErrorView>(
            (e, i + written_primary(e).len()),
        ),
    decreases e, 0nat,
{
    let end = i + written_primary(e).len();
    match e {
        ExprView::Var(_) | ExprView::Const(_) => {
            lemma_leaf_reads_back(s, i, e);
        },
        ExprView::Add(l, r) => {
            let left = written_sum(*l);
            let right = written_product(*r);
            let body = left + seq!['+'] + right;
            lemma_written_is_not_empty(*l);
            lemma_written_is_not_empty(*r);
            lemma_holds_both(s, i, seq!['('] + body, seq![')']);
            lemma_holds_both(s, i, seq!['('], body);
            assert(s[i + 0] == seq!['('][0]);
            assert(s[(i + 1 + body.len()) + 0] == seq![')'][0]);
            lemma_holds_around(s, i + 1, left, '+', right);
            let at = i + 1 + left.len();
            assert(s[at] == '+' && s[end - 1] == ')');
            assert(stops_term(s, at));
            assert(stops(s, end - 1) && stops_term(s, end - 1) && closes(s, end - 1));
            lemma_sum_reads_on(s, i + 1, *l, None);
            lemma_product_reads_on(s, at + 1, *r, None);
            lemma_product_ends(s, *r, end - 1, at + 1);
            lemma_sum_goes_on(s, *l, at, i + 1, *r, end - 1);
            lemma_sum_ends(s, e, end - 1, i + 1);
            lemma_parenthesized(s, i, e, end - 1);
        },
        ExprView::Mul(l, r) => {
            let left = written_product(*l);
            let right = written_primary(*r);
            let body = left + seq!['*'] + right;
            lemma_written_is_not_empty(*l);
            lemma_written_is_not_empty(*r);
            lemma_holds_both(s, i, seq!['('] + body, seq![')']);
            lemma_holds_both(s, i, seq!['('], body);
            assert(s[i + 0] == seq!['('][0]);
            assert(s[(i + 1 + body.len()) + 0] == seq![')'][0]);
            lemma_holds_around(s, i + 1, left, '*', right);
            let at = i + 1 + left.len();
            assert(s[at] == '*' && s[end - 1] == ')');
            assert(stops(s, at));
            assert(stops(s, end - 1) && stops_term(s, end - 1) && closes(s, end - 1));
            lemma_product_reads_on(s, i + 1, *l, None);
            lemma_primary_reads_back(s, at + 1, *r);
            lemma_product_goes_on(s, *l, at, i + 1, *r, end - 1);
            lemma_product_ends(s, e, end - 1, i + 1);
            assert(term_at(s, i + 1) == Ok::<(ExprView, int), ParseErrorView>((e, end - 1)));
            lemma_sum_ends(s, e, end - 1, i + 1);
            lemma_parenthesized(s, i, e, end - 1);
        },
    }
}

/// Parsing reads the factors of a written product, joins them to the
/// product read before them, and goes on behind them.
pub proof fn lemma_product_reads_on(s: Seq<char>, i: int, e: ExprView, acc: Option<ExprView>)
    requires
        writable(e),
        holds(s, i, written_product(e)),
        stops(s, i + written_product(e).len()),
    ensures
        product_from(s, acc, i) == product_rest(
            s,
            joined_product(acc, e),
            i + written_product(e).len(),
            i,
        ),
    decreases e, 1nat,
{
    let end = i + written_product(e).len();
    match e {
        ExprView::Mul(l, r) => {
            let left = written_product(*l);
            let right = written_primary(*r);
            lemma_written_is_not_empty(*l);
            lemma_written_is_not_empty(*r);
            lemma_holds_around(s, i, left, '*', right);
            let at = i + left.len();
            assert(s[at] == '*');
            assert(stops(s, at));
            lemma_product_reads_on(s, i, *l, acc);
            lemma_primary_reads_back(s, at + 1, *r);
            lemma_product_goes_on(s, joined_product(acc, *l), at, i, *r, end);
        },
        _ => {
            lemma_primary_reads_back(s, i, e);
        },
    }
}

/// Parsing reads the terms of a written sum, joins them to the sum read
/// before them, and goes on behind them.
pub proof fn lemma_sum_reads_on(s: Seq<char>, i: int, e: ExprView, acc: Option<ExprView>)
    requires
        writable(e),
        holds(s, i, written_sum(e)),
        stops_term(s, i + written_sum(e).len()),
    ensures
        sum_from(s, acc, i) == sum_rest(s, joined_sum(acc, e), i + written_sum(e).len(), i),
    decreases e, 2nat,
{
    let end = i + written_sum(e).len();
    match e {
        ExprView::Add(l, r) => {
            let left = written_sum(*l);
            let right = written_product(*r);
            lemma_written_is_not_empty(*l);
            lemma_written_is_not_empty(*r);
            lemma_holds_around(s, i, left, '+', right);
            let at = i + left.len();
            assert(s[at] == '+');
            assert(stops_term(s, at));
            assert(stops(s, end));
            lemma_sum_reads_on(s, i, *l, acc);
            lemma_product_reads_on(s, at + 1, *r, None);
            lemma_product_ends(s, *r, end, at + 1);
            lemma_sum_goes_on(s, joined_sum(acc, *l), at, i, *r, end);
        },
        _ => {
            lemma_written_is_not_empty(e);
            assert(stops(s, end));
            lemma_product_reads_on(s, i, e, None);
            lemma_product_ends(s, e, end, i);
        },
    }
}

/// Parsing reads a written expression back.
pub proof fn lemma_expr_reads_back(s: Seq<char>, i: int, e: ExprView)
    requires
        writable(e),
        holds(s, i, written_sum(e)),
        closes(s, i + written_sum(e).len()),
    ensures
        expr_at(s, i) == Ok::<(ExprView, int), ParseErrorView>((e, i + written_sum(e).len())),
{
    lemma_written_is_not_empty(e);
    lemma_sum_reads_on(s, i, e, None);
    lemma_sum_ends(s, e, i + written_sum(e).len(), i);
}

/// Parsing reads a written statement back: every statement whose target is
/// an identifier and whose expression can be written down is what parsing
/// its text yields.
pub proof fn lemma_statement_reads_back(statement: StatementView)
    requires
        is_identifier(statement.var),
        writable(statement.expr),
    ensures
        parsed(written_statement(statement)) == Ok::<StatementView, ParseErrorView>(statement),
{
    let s = written_statement(statement);
    let var = statement.var;
    let text = written_sum(statement.expr);
    let n = var.len() as int;
    assert(s.len() == 5 + n + text.len());
    assert(s[0] == 'l' && s[1] == 'e' && s[2] == 't' && s[3] == ' ');
    assert forall|k: int| 0 <= k < n implies s[4 + k] == #[trigger] var[k] by {}
    assert(s[4 + n] == '=');
    assert forall|k: int| 0 <= k < text.len() implies s[5 + n + k] == #[trigger] text[k] by {}

    // The keyword.
    assert(space_run(s, 0) == 0);
    assert(skip_spaces(s, 0) == 0);
    lemma_ident_run_is(s, 1, 2);
    assert(s.subrange(0, 3) =~= let_keyword());
    assert(identifier_at(s, 0) == Ok::<(Seq<char>, int), ParseErrorView>((let_keyword(), 3)));

    // The target.
    assert(s[4 + 0int] == var[0]);
    assert(space_run(s, 4) == 0);
    assert(space_run(s, 3) == 1);
    assert(skip_spaces(s, 3) == 4);
    assert forall|k: int| 5 <= k < 4 + n implies is_ident_part(#[trigger] s[k]) by {
        assert(s[4 + (k - 4)] == var[k - 4]);
    }
    lemma_ident_run_is(s, 5, (n - 1) as nat);
    assert(s.subrange(4, 4 + n) =~= var);
    assert(identifier_at(s, 4) == Ok::<(Seq<char>, int), ParseErrorView>((var, 4 + n)));

    // The equals sign and the expression.
    assert(space_run(s, 4 + n) == 0);
    assert(skip_spaces(s, 4 + n) == 4 + n);
    assert(holds(s, 5 + n, text));
    lemma_expr_reads_back(s, 5 + n, statement.expr);
    assert(space_run(s, s.len() as int) == 0);
    assert(skip_spaces(s, s.len() as int) == s.len());
}

} // verus!
