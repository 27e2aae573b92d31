//! The masking backend within its range.
//!
//! A value of the masking backend is a plain integer plus a multiple of the
//! modulus.  As long as no value of a run leaves the `i64` range, a value
//! stays equal, modulo the modulus, to the integer that it stands for; so a
//! statement whose value lies between zero and the modulus is reported
//! exactly.  The bound below says how large the values of a run can become.

use crate::ast::{ExprView, StatementView};
use crate::backend::{mask, Backend, ToyBackend};
use crate::evaluation::exact_value_of;
use crate::executor::{trace_fits, ExecErrorView, Machine, Scope};
use crate::labels::is_label;
use crate::scheme::{MASK_LIMIT, MODULUS};
use crate::tracking::{kept_by, lemma_lowered_statement_keeps};
use crate::translator::lowered_statement;
use vstd::arithmetic::div_mod::{
    lemma_add_mod_noop, lemma_mod_multiples_vanish, lemma_mul_mod_noop, lemma_small_mod,
};
use vstd::prelude::*;

verus! {

/// Whether no input and no constant of `e` is negative.
pub open spec fn nonnegative(e: ExprView, inputs: Map<Seq<char>, i64>) -> bool
    decreases e,
{
    match e {
        ExprView::Var(name) => inputs[name] >= 0,
        ExprView::Const(value) => value >= 0,
        ExprView::Add(l, r) | ExprView::Mul(l, r) => nonnegative(*l, inputs) && nonnegative(
            *r,
            inputs,
        ),
    }
}

/// How large the value for `e` can become: an input or a constant under the
/// largest mask, and the sum or the product of what the operands can become.
pub open spec fn masked_bound(e: ExprView, inputs: Map<Seq<char>, i64>) -> int
    decreases e,
{
    match e {
        ExprView::Var(name) => inputs[name] + (MASK_LIMIT - 1) * MODULUS,
        ExprView::Const(value) => value + (MASK_LIMIT - 1) * MODULUS,
        ExprView::Add(l, r) => masked_bound(*l, inputs) + masked_bound(*r, inputs),
        ExprView::Mul(l, r) => masked_bound(*l, inputs) * masked_bound(*r, inputs),
    }
}

/// Whether `e` lies within the range of the masking backend: nothing in it
/// is negative, and no value for it can leave the `i64` range.
pub open spec fn within_range(e: ExprView, inputs: Map<Seq<char>, i64>) -> bool {
    nonnegative(e, inputs) && masked_bound(e, inputs) <= i64::MAX
}

/// Whether the value `v` stands for `e`: where `e` lies within the range,
/// `v` lies between zero and the bound and equals the value of `e` modulo
/// the modulus.
pub open spec fn stands_for(v: i64, e: ExprView, inputs: Map<Seq<char>, i64>) -> bool {
    within_range(e, inputs) ==> {
        &&& 0 <= v <= masked_bound(e, inputs)
        &&& (v as int) % (MODULUS as int) == exact_value_of(e, inputs) % (MODULUS as int)
    }
}

/// Where nothing is negative, the value is not negative and the bound is
/// positive.
pub proof fn lemma_bound_is_positive(e: ExprView, inputs: Map<Seq<char>, i64>)
    requires
        nonnegative(e, inputs),
    ensures
        masked_bound(e, inputs) >= 1,
        exact_value_of(e, inputs) >= 0,
    decreases e,
{
    match e {
        ExprView::Add(l, r) => {
            lemma_bound_is_positive(*l, inputs);
            lemma_bound_is_positive(*r, inputs);
        },
        ExprView::Mul(l, r) => {
            lemma_bound_is_positive(*l, inputs);
            lemma_bound_is_positive(*r, inputs);
            let a = masked_bound(*l, inputs);
            let b = masked_bound(*r, inputs);
            let x = exact_value_of(*l, inputs);
            let y = exact_value_of(*r, inputs);
            assert(a * b >= 1) by (nonlinear_arith)
                requires
                    a >= 1,
                    b >= 1,
            ;
            assert(x * y >= 0) by (nonlinear_arith)
                requires
                    x >= 0,
                    y >= 0,
            ;
        },
        _ => {},
    }
}

/// What encodes a plain integer within the range stands for it.
proof fn lemma_encoding_stands(plain: i64, v: i64, r: i64)
    requires
        0 <= plain,
        plain + (MASK_LIMIT - 1) * MODULUS <= i64::MAX,
        1 <= r < MASK_LIMIT,
        v == plain.wrapping_add(mask(r)),
    ensures
        0 <= v <= plain + (MASK_LIMIT - 1) * MODULUS,
        (v as int) % (MODULUS as int) == (plain as int) % (MODULUS as int),
{
    assert(v == plain + r * MODULUS);
    lemma_mod_multiples_vanish(r as int, plain as int, MODULUS as int);
}

/// The sum of values that stand for two expressions stands for the sum of
/// the expressions.
proof fn lemma_sum_stands(
    a: i64,
    b: i64,
    l: ExprView,
    r: ExprView,
    inputs: Map<Seq<char>, i64>,
)
    requires
        stands_for(a, l, inputs),
        stands_for(b, r, inputs),
    ensures
        stands_for(a.wrapping_add(b), ExprView::Add(Box::new(l), Box::new(r)), inputs),
{
    let e = ExprView::Add(Box::new(l), Box::new(r));
    if within_range(e, inputs) {
        lemma_bound_is_positive(l, inputs);
        lemma_bound_is_positive(r, inputs);
        let x = exact_value_of(l, inputs);
        let y = exact_value_of(r, inputs);
        let m = MODULUS as int;
        lemma_add_mod_noop(a as int, b as int, m);
        lemma_add_mod_noop(x, y, m);
    }
}

/// The product of values that stand for two expressions stands for the
/// product of the expressions.
proof fn lemma_product_stands(
    a: i64,
    b: i64,
    l: ExprView,
    r: ExprView,
    inputs: Map<Seq<char>, i64>,
)
    requires
        stands_for(a, l, inputs),
        stands_for(b, r, inputs),
    ensures
        stands_for(a.wrapping_mul(b), ExprView::Mul(Box::new(l), Box::new(r)), inputs),
{
    let e = ExprView::Mul(Box::new(l), Box::new(r));
    if within_range(e, inputs) {
        lemma_bound_is_positive(l, inputs);
        lemma_bound_is_positive(r, inputs);
        let x = exact_value_of(l, inputs);
        let y = exact_value_of(r, inputs);
        let bound_l = masked_bound(l, inputs);
        let bound_r = masked_bound(r, inputs);
        let m = MODULUS as int;
        assert(bound_l <= bound_l * bound_r && bound_r <= bound_l * bound_r) by (nonlinear_arith)
            requires
                bound_l >= 1,
                bound_r >= 1,
        ;
        assert(0 <= a * b <= bound_l * bound_r) by (nonlinear_arith)
            requires
                0 <= a <= bound_l,
                0 <= b <= bound_r,
        ;
        assert(a.wrapping_mul(b) == a * b);
        lemma_mul_mod_noop(a as int, b as int, m);
        lemma_mul_mod_noop(x, y, m);
    }
}

/// The masking backend keeps, between values and expressions, the relation
/// of standing for.
pub proof fn lemma_masking_is_kept(backend: &ToyBackend, inputs: Map<Seq<char>, i64>)
    ensures
        kept_by(backend, inputs, |v: i64, e: ExprView| stands_for(v, e, inputs)),
{
    let good = |v: i64, e: ExprView| stands_for(v, e, inputs);
    assert forall|x: Seq<char>, v: i64|
        inputs.contains_key(x) && backend.encodes(inputs[x], v) implies #[trigger] good(
        v,
        ExprView::Var(x),
    ) by {
        if within_range(ExprView::Var(x), inputs) {
            let r = choose|r: i64|
                1 <= r < MASK_LIMIT && v == inputs[x].wrapping_add(#[trigger] mask(r));
            lemma_encoding_stands(inputs[x], v, r);
        }
    }
    assert forall|c: i64, v: i64| backend.encodes(c, v) implies #[trigger] good(
        v,
        ExprView::Const(c),
    ) by {
        if within_range(ExprView::Const(c), inputs) {
            let r = choose|r: i64| 1 <= r < MASK_LIMIT && v == c.wrapping_add(#[trigger] mask(r));
            lemma_encoding_stands(c, v, r);
        }
    }
    assert forall|l: ExprView, r: ExprView, a: i64, b: i64| good(a, l) && good(b, r) implies #[trigger] good(
        backend.sum(a, b),
        ExprView::Add(Box::new(l), Box::new(r)),
    ) by {
        lemma_sum_stands(a, b, l, r, inputs);
    }
    assert forall|l: ExprView, r: ExprView, a: i64, b: i64| good(a, l) && good(b, r) implies #[trigger] good(
        backend.product(a, b),
        ExprView::Mul(Box::new(l), Box::new(r)),
    ) by {
        lemma_product_stands(a, b, l, r, inputs);
    }
}

/// What a run of a lowered statement reports on the masking backend.
///
/// The statement lies within the range of the backend and its value is
/// smaller than the modulus.  No variable of the statement is one of the
/// reserved names, and the caller gave every one of them.  The target is
/// none of the reserved names, none of the statement's variables and not
/// bound where the run starts.  Whatever masks the backend draws, the run
/// succeeds and reports, under the target, the value of the statement's
/// expression.
pub proof fn lemma_masked_statement_value(
    backend: &ToyBackend,
    start: Machine<i64>,
    statement: StatementView,
    inputs: Map<Seq<char>, i64>,
    fresh: Seq<i64>,
)
    requires
        within_range(statement.expr, inputs),
        exact_value_of(statement.expr, inputs) < MODULUS,
        start.env.dom() == start.scope.bound,
        forall|x: Seq<char>| statement.expr.vars().contains(x) ==> !#[trigger] is_label(x),
        statement.expr.vars().subset_of(inputs.dom()),
        !is_label(statement.var),
        !statement.expr.vars().contains(statement.var),
        !start.scope.bound.contains(statement.var),
        trace_fits(
            backend,
            lowered_statement(statement, start.scope.consts, start.scope.temps),
            inputs,
            fresh,
        ),
    ensures
        ({
            let ops = lowered_statement(statement, start.scope.consts, start.scope.temps);
            &&& start.run(backend, ops, inputs, fresh) matches Ok(after)
            &&& after.env.dom() == after.scope.bound
            &&& start.scope.run(ops, inputs.dom()) == Ok::<Scope, ExecErrorView>(after.scope)
            &&& after.outputs == start.outputs.insert(
                statement.var,
                exact_value_of(statement.expr, inputs) as i64,
            )
        }),
{
    let good = |v: i64, e: ExprView| stands_for(v, e, inputs);
    lemma_masking_is_kept(backend, inputs);
    let value = lemma_lowered_statement_keeps(backend, start, statement, inputs, fresh, good);
    assert(stands_for(value, statement.expr, inputs));
    lemma_bound_is_positive(statement.expr, inputs);
    lemma_small_mod(exact_value_of(statement.expr, inputs) as nat, MODULUS as nat);
}

/// What a successful run of a one-statement program has reported on the
/// masking backend: the value of the statement's expression under the
/// statement's target, and nothing else.
///
/// The last hypothesis is what a successful [`crate::executor::execute`]
/// promises of its outputs.
pub proof fn lemma_masked_statement_result(
    backend: &ToyBackend,
    statement: StatementView,
    inputs: Map<Seq<char>, i64>,
    outputs: Map<Seq<char>, i64>,
)
    requires
        within_range(statement.expr, inputs),
        exact_value_of(statement.expr, inputs) < MODULUS,
        forall|x: Seq<char>| statement.expr.vars().contains(x) ==> !#[trigger] is_label(x),
        statement.expr.vars().subset_of(inputs.dom()),
        !is_label(statement.var),
        !statement.expr.vars().contains(statement.var),
        exists|fresh: Seq<i64>|
            {
                &&& trace_fits(backend, lowered_statement(statement, 0, 0), inputs, fresh)
                &&& (#[trigger] Machine::<i64>::initial().run(
                    backend,
                    lowered_statement(statement, 0, 0),
                    inputs,
                    fresh,
                )) matches Ok(machine)
                &&& machine.outputs == outputs
            },
    ensures
        outputs == Map::<Seq<char>, i64>::empty().insert(
            statement.var,
            exact_value_of(statement.expr, inputs) as i64,
        ),
{
    let ops = lowered_statement(statement, 0, 0);
    let fresh = choose|fresh: Seq<i64>|
        {
            &&& trace_fits(backend, ops, inputs, fresh)
            &&& (#[trigger] Machine::<i64>::initial().run(backend, ops, inputs, fresh)) matches Ok(
                machine,
            )
            &&& machine.outputs == outputs
        };
    let start = Machine::<i64>::initial();
    assert(start.env.dom() =~= start.scope.bound);
    lemma_masked_statement_value(backend, start, statement, inputs, fresh);
}

} // verus!
