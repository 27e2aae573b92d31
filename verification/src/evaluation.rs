//! What a lowered statement computes.
//!
//! On a backend that computes exactly, a run of a lowered statement reports
//! under the statement's target the value of the statement's expression.

use crate::agreement::{all_inputs_given, lemma_scope_run_counts};
use crate::ast::{ExprView, StatementView};
use crate::backend::{Backend, PlainBackend};
use crate::executor::{trace_fits, ExecErrorView, Machine, Scope};
use crate::ir::{count_ariths, count_consts, lemma_counts_concat};
use crate::labels::is_label;
use crate::numbering::generated_labels;
use crate::tracking::{
    kept_by, lemma_generated_are_labels, lemma_lowered_statement_keeps, lemma_machine_run_concat,
    lemma_trace_splits,
};
use crate::translator::{lowered_program, lowered_statement};
use vstd::prelude::*;

verus! {

/// Whether the backend computes exactly in 64-bit wrapping arithmetic:
/// decoding gives back what was encoded, and decoding a sum or a product
/// gives the wrapping sum or product of what its operands decode to.
pub open spec fn computes_exactly<B: Backend>(backend: &B) -> bool {
    &&& forall|plain: i64, value: B::Value| #[trigger]
        backend.encodes(plain, value) ==> backend.decoded(value) == plain
    &&& forall|a: B::Value, b: B::Value|
        backend.decoded(#[trigger] backend.sum(a, b)) == backend.decoded(a).wrapping_add(
            backend.decoded(b),
        )
    &&& forall|a: B::Value, b: B::Value|
        backend.decoded(#[trigger] backend.product(a, b)) == backend.decoded(a).wrapping_mul(
            backend.decoded(b),
        )
}

/// The plain backend computes exactly.
pub proof fn plain_backend_computes_exactly(backend: &PlainBackend)
    ensures
        computes_exactly(backend),
{
}

/// The value of `e` in 64-bit wrapping arithmetic, with the variables read
/// from `inputs`.
pub open spec fn value_of(e: ExprView, inputs: Map<Seq<char>, i64>) -> i64
    decreases e,
{
    match e {
        ExprView::Var(name) => inputs[name],
        ExprView::Const(value) => value,
        ExprView::Add(l, r) => value_of(*l, inputs).wrapping_add(value_of(*r, inputs)),
        ExprView::Mul(l, r) => value_of(*l, inputs).wrapping_mul(value_of(*r, inputs)),
    }
}

/// The value of `e` over the integers.
pub open spec fn exact_value_of(e: ExprView, inputs: Map<Seq<char>, i64>) -> int
    decreases e,
{
    match e {
        ExprView::Var(name) => inputs[name] as int,
        ExprView::Const(value) => value as int,
        ExprView::Add(l, r) => exact_value_of(*l, inputs) + exact_value_of(*r, inputs),
        ExprView::Mul(l, r) => exact_value_of(*l, inputs) * exact_value_of(*r, inputs),
    }
}

/// Whether the value over the integers of `e`, and of every expression
/// within it, is an `i64`.
pub open spec fn fits(e: ExprView, inputs: Map<Seq<char>, i64>) -> bool
    decreases e,
{
    &&& i64::MIN <= exact_value_of(e, inputs) <= i64::MAX
    &&& match e {
        ExprView::Add(l, r) | ExprView::Mul(l, r) => fits(*l, inputs) && fits(*r, inputs),
        _ => true,
    }
}

/// Where nothing overflows, wrapping arithmetic is arithmetic over the
/// integers.
pub proof fn lemma_value_is_exact(e: ExprView, inputs: Map<Seq<char>, i64>)
    requires
        fits(e, inputs),
    ensures
        value_of(e, inputs) == exact_value_of(e, inputs),
    decreases e,
{
    match e {
        ExprView::Add(l, r) | ExprView::Mul(l, r) => {
            lemma_value_is_exact(*l, inputs);
            lemma_value_is_exact(*r, inputs);
        },
        _ => {},
    }
}

/// A backend that computes exactly keeps, between values and expressions,
/// the relation of decoding to the value of the expression.
pub proof fn lemma_exact_is_kept<B: Backend>(backend: &B, inputs: Map<Seq<char>, i64>)
    requires
        computes_exactly(backend),
    ensures
        kept_by(backend, inputs, |v: B::Value, e: ExprView| backend.decoded(v) == value_of(e, inputs)),
{
}

/// What a run of a lowered statement reports, on a backend that computes
/// exactly.
///
/// No variable of the statement is one of the reserved names, and the caller
/// gave every one of them.  The target is none of the reserved names, none
/// of the statement's variables and not bound where the run starts.  The run
/// succeeds and reports, under the target, the value of the statement's
/// expression.
pub proof fn lemma_lowered_statement_value<B: Backend>(
    backend: &B,
    start: Machine<B::Value>,
    statement: StatementView,
    inputs: Map<Seq<char>, i64>,
    fresh: Seq<B::Value>,
)
    requires
        computes_exactly(backend),
        start.env.dom() == start.scope.bound,
        forall|x: Seq<char>| statement.expr.vars().contains(x) ==> !#[trigger] is_label(x),
        statement.expr.vars().subset_of(inputs.dom()),
        !is_label(statement.var),
        !statement.expr.vars().contains(statement.var),
        !start.scope.bound.contains(statement.var),
        trace_fits(
            backend,
            lowered_statement(statement, start.scope.consts, start.scope.temps),
            inputs,
            fresh,
        ),
    ensures
        ({
            let ops = lowered_statement(statement, start.scope.consts, start.scope.temps);
            &&& start.run(backend, ops, inputs, fresh) matches Ok(after)
            &&& after.env.dom() == after.scope.bound
            &&& start.scope.run(ops, inputs.dom()) == Ok::<Scope, ExecErrorView>(after.scope)
            &&& after.scope.bound == start.scope.bound.union(statement.expr.vars()).union(
                generated_labels(statement.expr, start.scope.consts, start.scope.temps),
            )
            &&& after.outputs == start.outputs.insert(
                statement.var,
                value_of(statement.expr, inputs),
            )
        }),
{
    let good = |v: B::Value, e: ExprView| backend.decoded(v) == value_of(e, inputs);
    lemma_exact_is_kept(backend, inputs);
    let value = lemma_lowered_statement_keeps(backend, start, statement, inputs, fresh, good);
}

/// What a run of a one-statement program reports, on a backend that
/// computes exactly: the value of the statement's expression under the
/// statement's target, and nothing else.
///
/// The last hypothesis is what a successful [`crate::executor::execute`]
/// promises of its outputs.
pub proof fn lemma_statement_result<B: Backend>(
    backend: &B,
    statement: StatementView,
    inputs: Map<Seq<char>, i64>,
    outputs: Map<Seq<char>, i64>,
)
    requires
        computes_exactly(backend),
        forall|x: Seq<char>| statement.expr.vars().contains(x) ==> !#[trigger] is_label(x),
        statement.expr.vars().subset_of(inputs.dom()),
        !is_label(statement.var),
        !statement.expr.vars().contains(statement.var),
        exists|fresh: Seq<B::Value>|
            {
                &&& trace_fits(backend, lowered_statement(statement, 0, 0), inputs, fresh)
                &&& (#[trigger] Machine::<B::Value>::initial().run(
                    backend,
                    lowered_statement(statement, 0, 0),
                    inputs,
                    fresh,
                )) matches Ok(machine)
                &&& machine.outputs == outputs
            },
    ensures
        outputs == Map::<Seq<char>, i64>::empty().insert(
            statement.var,
            value_of(statement.expr, inputs),
        ),
{
    let ops = lowered_statement(statement, 0, 0);
    let fresh = choose|fresh: Seq<B::Value>|
        {
            &&& trace_fits(backend, ops, inputs, fresh)
            &&& (#[trigger] Machine::<B::Value>::initial().run(backend, ops, inputs, fresh)) matches Ok(
                machine,
            )
            &&& machine.outputs == outputs
        };
    let start = Machine::<B::Value>::initial();
    lemma_lowered_statement_value(backend, start, statement, inputs, fresh);
}

/// What a program reports: for each target the value of the expression of
/// the last statement with that target.
pub open spec fn reported(stmts: Seq<StatementView>, inputs: Map<Seq<char>, i64>) -> Map<
    Seq<char>,
    i64,
>
    decreases stmts.len(),
{
    if stmts.len() == 0 {
        Map::empty()
    } else {
        reported(stmts.drop_last(), inputs).insert(
            stmts.last().var,
            value_of(stmts.last().expr, inputs),
        )
    }
}

/// Whether the names of a program are kept apart: no variable and no target
/// is one of the reserved names, and no target is a variable of its own
/// statement or of a statement before it.
pub open spec fn names_apart(stmts: Seq<StatementView>) -> bool {
    &&& forall|k: int, x: Seq<char>|
        0 <= k < stmts.len() && (#[trigger] stmts[k]).expr.vars().contains(x) ==> !#[trigger] is_label(
            x,
        )
    &&& forall|k: int| 0 <= k < stmts.len() ==> !is_label((#[trigger] stmts[k]).var)
    &&& forall|j: int, k: int|
        0 <= j <= k < stmts.len() ==> !(#[trigger] stmts[j]).expr.vars().contains(
            (#[trigger] stmts[k]).var,
        )
}

/// What a run of a lowered program reports, on a backend that computes
/// exactly: where the names of the program are kept apart and the caller
/// gave every variable, the run succeeds and reports for each target the
/// value of its expression.
pub proof fn lemma_lowered_program_value<B: Backend>(
    backend: &B,
    stmts: Seq<StatementView>,
    inputs: Map<Seq<char>, i64>,
    fresh: Seq<B::Value>,
)
    requires
        computes_exactly(backend),
        names_apart(stmts),
        all_inputs_given(stmts, inputs.dom()),
        trace_fits(backend, lowered_program(stmts), inputs, fresh),
    ensures
        ({
            let ops = lowered_program(stmts);
            &&& Machine::<B::Value>::initial().run(backend, ops, inputs, fresh) matches Ok(after)
            &&& after.outputs == reported(stmts, inputs)
            &&& after.env.dom() == after.scope.bound
            &&& after.scope.consts == count_consts(ops)
            &&& after.scope.temps == count_ariths(ops)
            &&& forall|n: Seq<char>| #[trigger]
                after.scope.bound.contains(n) ==> is_label(n) || exists|j: int|
                    0 <= j < stmts.len() && (#[trigger] stmts[j]).expr.vars().contains(n)
        }),
    decreases stmts.len(),
{
    let start = Machine::<B::Value>::initial();
    if stmts.len() > 0 {
        let front = stmts.drop_last();
        let statement = stmts.last();
        let before = lowered_program(front);
        let last = lowered_statement(statement, count_consts(before), count_ariths(before));
        lemma_trace_splits(backend, before, last, inputs, fresh);
        let fresh_before = fresh.take(before.len() as int);
        let fresh_last = fresh.skip(before.len() as int);
        lemma_lowered_program_value(backend, front, inputs, fresh_before);
        let middle = start.run(backend, before, inputs, fresh_before)->Ok_0;
        lemma_machine_run_concat(start, backend, before, last, inputs, fresh_before, fresh_last);
        lemma_lowered_statement_value(backend, middle, statement, inputs, fresh_last);
        let after = middle.run(backend, last, inputs, fresh_last)->Ok_0;
        lemma_counts_concat(before, last);
        lemma_scope_run_counts(middle.scope, last, inputs.dom());
        assert forall|n: Seq<char>| #[trigger] after.scope.bound.contains(n) implies is_label(n)
            || exists|j: int|
            0 <= j < stmts.len() && (#[trigger] stmts[j]).expr.vars().contains(n) by {
            if middle.scope.bound.contains(n) {
            } else if statement.expr.vars().contains(n) {
            } else {
                lemma_generated_are_labels(
                    statement.expr,
                    middle.scope.consts,
                    middle.scope.temps,
                    n,
                );
            }
        }
    }
}

/// What a successful run of a lowered program has reported, on a backend
/// that computes exactly.
///
/// The last hypothesis is what a successful [`crate::executor::execute`]
/// promises of its outputs.
pub proof fn lemma_program_result<B: Backend>(
    backend: &B,
    stmts: Seq<StatementView>,
    inputs: Map<Seq<char>, i64>,
    outputs: Map<Seq<char>, i64>,
)
    requires
        computes_exactly(backend),
        names_apart(stmts),
        all_inputs_given(stmts, inputs.dom()),
        exists|fresh: Seq<B::Value>|
            {
                &&& trace_fits(backend, lowered_program(stmts), inputs, fresh)
                &&& (#[trigger] Machine::<B::Value>::initial().run(
                    backend,
                    lowered_program(stmts),
                    inputs,
                    fresh,
                )) matches Ok(machine)
                &&& machine.outputs == outputs
            },
    ensures
        outputs == reported(stmts, inputs),
{
    let ops = lowered_program(stmts);
    let fresh = choose|fresh: Seq<B::Value>|
        {
            &&& trace_fits(backend, ops, inputs, fresh)
            &&& (#[trigger] Machine::<B::Value>::initial().run(backend, ops, inputs, fresh)) matches Ok(
                machine,
            )
            &&& machine.outputs == outputs
        };
    lemma_lowered_program_value(backend, stmts, inputs, fresh);
}

} // verus!
