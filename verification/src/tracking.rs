//! How a run of lowered instructions keeps track of values.
//!
//! The lemmas here follow a run of a lowered expression instruction by
//! instruction.  They are stated for any relation between backend values and
//! expressions that encoding establishes and that adding and multiplying
//! keep, so that they serve every backend.

use crate::agreement::{
    lemma_lowered_expr_nonempty, lemma_lowered_expr_runs, lemma_lowered_seen,
    lemma_scope_run_concat, lemma_scope_run_one,
};
use crate::ast::{ExprView, StatementView};
use crate::backend::Backend;
use crate::executor::{
    fresh_fits, lemma_run_follows_scope, trace_fits, ExecErrorView, Machine, Scope,
};
use crate::ir::OpView;
use crate::labels::{const_label, is_label};
use crate::numbering::{
    generated_labels, lemma_generated_labels, lemma_labels_apart_within,
};
use crate::translator::{lowered_expr, lowered_statement};
use vstd::prelude::*;

verus! {

/// Whether the backend keeps the relation `good` between values and
/// expressions: what encodes an input or a constant is good for it, and the
/// sum or product of values that are good for two expressions is good for
/// the sum or product of the expressions.
pub open spec fn kept_by<B: Backend>(
    backend: &B,
    inputs: Map<Seq<char>, i64>,
    good: spec_fn(B::Value, ExprView) -> bool,
) -> bool {
    &&& forall|x: Seq<char>, v: B::Value|
        inputs.contains_key(x) && backend.encodes(inputs[x], v) ==> #[trigger] good(
            v,
            ExprView::Var(x),
        )
    &&& forall|c: i64, v: B::Value|
        backend.encodes(c, v) ==> #[trigger] good(v, ExprView::Const(c))
    &&& forall|l: ExprView, r: ExprView, a: B::Value, b: B::Value|
        good(a, l) && good(b, r) ==> #[trigger] good(
            backend.sum(a, b),
            ExprView::Add(Box::new(l), Box::new(r)),
        )
    &&& forall|l: ExprView, r: ExprView, a: B::Value, b: B::Value|
        good(a, l) && good(b, r) ==> #[trigger] good(
            backend.product(a, b),
            ExprView::Mul(Box::new(l), Box::new(r)),
        )
}

/// Running two lists one behind the other is running the second from where
/// the first ends, each on its part of the values handed out.
pub proof fn lemma_machine_run_concat<B: Backend>(
    start: Machine<B::Value>,
    backend: &B,
    a: Seq<OpView>,
    b: Seq<OpView>,
    inputs: Map<Seq<char>, i64>,
    fresh_a: Seq<B::Value>,
    fresh_b: Seq<B::Value>,
)
    requires
        fresh_a.len() == a.len(),
        fresh_b.len() == b.len(),
    ensures
        start.run(backend, a + b, inputs, fresh_a + fresh_b) == match start.run(
            backend,
            a,
            inputs,
            fresh_a,
        ) {
            Ok(middle) => middle.run(backend, b, inputs, fresh_b),
            Err(e) => Err(e),
        },
    decreases b.len(),
{
    if b.len() > 0 {
        assert((a + b).drop_last() =~= a + b.drop_last());
        assert((fresh_a + fresh_b).drop_last() =~= fresh_a + fresh_b.drop_last());
        lemma_machine_run_concat(
            start,
            backend,
            a,
            b.drop_last(),
            inputs,
            fresh_a,
            fresh_b.drop_last(),
        );
    }
}

/// Running a list of one instruction is one step.
pub proof fn lemma_machine_run_one<B: Backend>(
    start: Machine<B::Value>,
    backend: &B,
    op: OpView,
    inputs: Map<Seq<char>, i64>,
    fresh: Seq<B::Value>,
)
    requires
        fresh.len() == 1,
    ensures
        start.run(backend, seq![op], inputs, fresh) == start.step(backend, op, inputs, fresh[0]),
{
    let ops = seq![op];
    assert(start.run(backend, ops.drop_last(), inputs, fresh.drop_last()) == Ok::<
        Machine<B::Value>,
        ExecErrorView,
    >(start));
}

/// The values handed out during a run of two lists are those handed out
/// during the first and those handed out during the second.
pub proof fn lemma_trace_splits<B: Backend>(
    backend: &B,
    a: Seq<OpView>,
    b: Seq<OpView>,
    inputs: Map<Seq<char>, i64>,
    fresh: Seq<B::Value>,
)
    requires
        trace_fits(backend, a + b, inputs, fresh),
    ensures
        trace_fits(backend, a, inputs, fresh.take(a.len() as int)),
        trace_fits(backend, b, inputs, fresh.skip(a.len() as int)),
        fresh == fresh.take(a.len() as int) + fresh.skip(a.len() as int),
{
    let fa = fresh.take(a.len() as int);
    let fb = fresh.skip(a.len() as int);
    assert forall|i: int| 0 <= i < a.len() implies fresh_fits(
        backend,
        #[trigger] a[i],
        inputs,
        fa[i],
    ) by {
        assert((a + b)[i] == a[i]);
    }
    assert forall|i: int| 0 <= i < b.len() implies fresh_fits(
        backend,
        #[trigger] b[i],
        inputs,
        fb[i],
    ) by {
        assert((a + b)[a.len() + i] == b[i]);
    }
}

/// A run keeps the environment to the names that its scope holds as bound.
pub proof fn lemma_run_keeps_domain<B: Backend>(
    start: Machine<B::Value>,
    backend: &B,
    ops: Seq<OpView>,
    inputs: Map<Seq<char>, i64>,
    fresh: Seq<B::Value>,
)
    requires
        start.env.dom() == start.scope.bound,
    ensures
        start.run(backend, ops, inputs, fresh) matches Ok(after) ==> after.env.dom()
            == after.scope.bound,
    decreases ops.len(),
{
    if ops.len() > 0 {
        lemma_run_keeps_domain(start, backend, ops.drop_last(), inputs, fresh.drop_last());
    }
}

/// Every label that lowering makes is one of the reserved names.
pub proof fn lemma_generated_are_labels(e: ExprView, consts: nat, temps: nat, name: Seq<char>)
    requires
        generated_labels(e, consts, temps).contains(name),
    ensures
        is_label(name),
{
    lemma_generated_labels(e, consts, temps, name);
}

/// The name under which the value of a constant or of an operator is found
/// is one of the labels made for it.
pub proof fn lemma_name_is_generated(e: ExprView, seen: Set<Seq<char>>, consts: nat, temps: nat)
    requires
        !(e is Var),
    ensures
        generated_labels(e, consts, temps).contains(lowered_expr(e, seen, consts, temps).name),
{
}

/// What a run of a lowered expression does to the environment.
///
/// `good` is a relation between values and expressions that the backend
/// keeps.  The run starts in a state whose counters are those that the
/// expression was lowered at, and in which the variables read so far in the
/// statement hold good values.  No variable is one of the reserved names,
/// and the caller gave every variable of the expression.  The run succeeds;
/// behind it the name of the expression holds a good value for the
/// expression, the variables read so far hold good values, and every other
/// name holds what it held before, but for the variables read anew and the
/// labels made.
pub proof fn lemma_lowered_expr_keeps<B: Backend>(
    backend: &B,
    start: Machine<B::Value>,
    e: ExprView,
    seen: Set<Seq<char>>,
    inputs: Map<Seq<char>, i64>,
    fresh: Seq<B::Value>,
    good: spec_fn(B::Value, ExprView) -> bool,
)
    requires
        kept_by(backend, inputs, good),
        start.env.dom() == start.scope.bound,
        seen.subset_of(start.scope.bound),
        forall|x: Seq<char>| #[trigger] seen.contains(x) ==> good(start.env[x], ExprView::Var(x)),
        forall|x: Seq<char>| seen.contains(x) || e.vars().contains(x) ==> !#[trigger] is_label(x),
        e.vars().subset_of(inputs.dom()),
        trace_fits(
            backend,
            lowered_expr(e, seen, start.scope.consts, start.scope.temps).ops,
            inputs,
            fresh,
        ),
    ensures
        ({
            let out = lowered_expr(e, seen, start.scope.consts, start.scope.temps);
            &&& start.run(backend, out.ops, inputs, fresh) matches Ok(after)
            &&& after.env.dom() == after.scope.bound
            &&& start.scope.run(out.ops, inputs.dom()) == Ok::<Scope, ExecErrorView>(after.scope)
            &&& after.outputs == start.outputs
            &&& good(after.env[out.name], e)
            &&& forall|x: Seq<char>| #[trigger]
                out.seen.contains(x) ==> good(after.env[x], ExprView::Var(x))
            &&& forall|n: Seq<char>|
                start.scope.bound.contains(n) && !e.vars().difference(seen).contains(n)
                    && !generated_labels(e, start.scope.consts, start.scope.temps).contains(n)
                    ==> #[trigger] after.env[n] == start.env[n]
        }),
    decreases e,
{
    let consts = start.scope.consts;
    let temps = start.scope.temps;
    let out = lowered_expr(e, seen, consts, temps);
    lemma_lowered_expr_runs(start.scope, e, seen, inputs.dom());
    lemma_run_follows_scope(start, backend, out.ops, inputs, fresh);
    lemma_run_keeps_domain(start, backend, out.ops, inputs, fresh);
    match e {
        ExprView::Var(name) => {
            if !seen.contains(name) {
                lemma_machine_run_one(start, backend, OpView::Input(name), inputs, fresh);
            }
        },
        ExprView::Const(value) => {
            lemma_machine_run_one(start, backend, OpView::Const(value), inputs, fresh);
            assert(is_label(const_label(consts)));
        },
        ExprView::Add(l, r) | ExprView::Mul(l, r) => {
            let left = lowered_expr(*l, seen, consts, temps);
            let mid_consts = consts + l.consts();
            let mid_temps = temps + l.ariths();
            let right = lowered_expr(*r, left.seen, mid_consts, mid_temps);
            let op = out.ops.last();
            let tail = right.ops + seq![op];
            assert(out.ops =~= left.ops + tail);
            lemma_trace_splits(backend, left.ops, tail, inputs, fresh);
            let fresh_left = fresh.take(left.ops.len() as int);
            let fresh_tail = fresh.skip(left.ops.len() as int);
            lemma_trace_splits(backend, right.ops, seq![op], inputs, fresh_tail);
            let fresh_right = fresh_tail.take(right.ops.len() as int);
            let fresh_op = fresh_tail.skip(right.ops.len() as int);

            // The left operand.
            lemma_lowered_seen(*l, seen, consts, temps);
            lemma_lowered_expr_keeps(backend, start, *l, seen, inputs, fresh_left, good);
            lemma_lowered_expr_runs(start.scope, *l, seen, inputs.dom());
            let middle = start.run(backend, left.ops, inputs, fresh_left)->Ok_0;
            lemma_machine_run_concat(start, backend, left.ops, tail, inputs, fresh_left, fresh_tail);

            // The right operand.
            lemma_lowered_seen(*r, left.seen, mid_consts, mid_temps);
            lemma_lowered_expr_keeps(backend, middle, *r, left.seen, inputs, fresh_right, good);
            lemma_lowered_expr_runs(middle.scope, *r, left.seen, inputs.dom());
            let last = middle.run(backend, right.ops, inputs, fresh_right)->Ok_0;
            lemma_machine_run_concat(
                middle,
                backend,
                right.ops,
                seq![op],
                inputs,
                fresh_right,
                fresh_op,
            );

            // The operator.
            lemma_machine_run_one(last, backend, op, inputs, fresh_op);
            let after = last.step(backend, op, inputs, fresh_op[0])->Ok_0;
            lemma_labels_apart_within(e, consts, temps);

            // The left operand still holds its value behind the right one.
            assert(good(last.env[left.name], *l)) by {
                if *l is Var {
                    assert(right.seen.contains(left.name));
                } else {
                    lemma_name_is_generated(*l, seen, consts, temps);
                    lemma_generated_are_labels(*l, consts, temps, left.name);
                }
            }

            assert forall|x: Seq<char>| #[trigger] out.seen.contains(x) implies good(
                after.env[x],
                ExprView::Var(x),
            ) by {
                assert(!is_label(x));
            }
        },
    }
}

/// What a run of a lowered statement reports.
///
/// `good` is a relation between values and expressions that the backend
/// keeps.  No variable of the statement is one of the reserved names, and
/// the caller gave every one of them.  The target is none of the reserved
/// names, none of the statement's variables and not bound where the run
/// starts.  The run succeeds and reports, under the target, what a good
/// value for the statement's expression decodes to.
pub proof fn lemma_lowered_statement_keeps<B: Backend>(
    backend: &B,
    start: Machine<B::Value>,
    statement: StatementView,
    inputs: Map<Seq<char>, i64>,
    fresh: Seq<B::Value>,
    good: spec_fn(B::Value, ExprView) -> bool,
) -> (value: B::Value)
    requires
        kept_by(backend, inputs, good),
        start.env.dom() == start.scope.bound,
        forall|x: Seq<char>| statement.expr.vars().contains(x) ==> !#[trigger] is_label(x),
        statement.expr.vars().subset_of(inputs.dom()),
        !is_label(statement.var),
        !statement.expr.vars().contains(statement.var),
        !start.scope.bound.contains(statement.var),
        trace_fits(
            backend,
            lowered_statement(statement, start.scope.consts, start.scope.temps),
            inputs,
            fresh,
        ),
    ensures
        good(value, statement.expr),
        ({
            let ops = lowered_statement(statement, start.scope.consts, start.scope.temps);
            &&& start.run(backend, ops, inputs, fresh) matches Ok(after)
            &&& after.env.dom() == after.scope.bound
            &&& start.scope.run(ops, inputs.dom()) == Ok::<Scope, ExecErrorView>(after.scope)
            &&& after.scope.bound == start.scope.bound.union(statement.expr.vars()).union(
                generated_labels(statement.expr, start.scope.consts, start.scope.temps),
            )
            &&& after.outputs == start.outputs.insert(statement.var, backend.decoded(value))
        }),
{
    let consts = start.scope.consts;
    let temps = start.scope.temps;
    let out = lowered_expr(statement.expr, Set::empty(), consts, temps);
    let op = OpView::Output(statement.var);
    let ops = lowered_statement(statement, consts, temps);
    assert(ops =~= out.ops + seq![op]);
    lemma_trace_splits(backend, out.ops, seq![op], inputs, fresh);
    let fresh_expr = fresh.take(out.ops.len() as int);
    let fresh_op = fresh.skip(out.ops.len() as int);
    lemma_lowered_expr_keeps(
        backend,
        start,
        statement.expr,
        Set::empty(),
        inputs,
        fresh_expr,
        good,
    );
    lemma_lowered_expr_runs(start.scope, statement.expr, Set::empty(), inputs.dom());
    lemma_lowered_expr_nonempty(statement.expr, consts, temps);
    let middle = start.run(backend, out.ops, inputs, fresh_expr)->Ok_0;
    lemma_machine_run_concat(start, backend, out.ops, seq![op], inputs, fresh_expr, fresh_op);
    lemma_machine_run_one(middle, backend, op, inputs, fresh_op);
    lemma_scope_run_concat(start.scope, out.ops, seq![op], inputs.dom());
    lemma_scope_run_one(middle.scope, op, inputs.dom());
    assert(!middle.scope.bound.contains(statement.var)) by {
        if generated_labels(statement.expr, consts, temps).contains(statement.var) {
            lemma_generated_are_labels(statement.expr, consts, temps, statement.var);
        }
    }
    middle.env[out.name]
}

} // verus!
