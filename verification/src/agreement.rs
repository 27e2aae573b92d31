//! Lowered programs are well-formed input for the interpreter.
//!
//! Every name that a lowered instruction refers to has been bound by an
//! earlier instruction of the same program, so a run of a lowered program can
//! stop for one reason only: a variable of the program that the caller gave no
//! value for.

use crate::ast::{ExprView, StatementView};
use crate::executor::{ExecErrorView, Scope};
use crate::ir::{count_ariths, count_consts, OpView};
use crate::numbering::generated_labels;
use crate::translator::{lowered_expr, lowered_program, lowered_statement};
use vstd::prelude::*;

verus! {

/// Running two lists one behind the other is running the second from where
/// the first ends.
pub proof fn lemma_scope_run_concat(
    start: Scope,
    a: Seq<OpView>,
    b: Seq<OpView>,
    inputs: Set<Seq<char>>,
)
    ensures
        start.run(a + b, inputs) == match start.run(a, inputs) {
            Ok(middle) => middle.run(b, inputs),
            Err(e) => Err(e),
        },
    decreases b.len(),
{
    if b.len() > 0 {
        assert((a + b).drop_last() =~= a + b.drop_last());
        lemma_scope_run_concat(start, a, b.drop_last(), inputs);
    }
}

/// Running a list of one instruction is one step.
pub proof fn lemma_scope_run_one(start: Scope, op: OpView, inputs: Set<Seq<char>>)
    ensures
        start.run(seq![op], inputs) == start.step(op, inputs),
{
    let ops = seq![op];
    assert(start.run(ops.drop_last(), inputs) == Ok::<Scope, ExecErrorView>(start));
}

/// A run binds names and never unbinds one, and its counters count the
/// constants and the arithmetic instructions that it has executed.
pub proof fn lemma_scope_run_counts(start: Scope, ops: Seq<OpView>, inputs: Set<Seq<char>>)
    ensures
        start.run(ops, inputs) matches Ok(after) ==> {
            &&& after.consts == start.consts + count_consts(ops)
            &&& after.temps == start.temps + count_ariths(ops)
            &&& start.bound.subset_of(after.bound)
        },
    decreases ops.len(),
{
    if ops.len() > 0 {
        lemma_scope_run_counts(start, ops.drop_last(), inputs);
    }
}

/// The variables read so far in a statement are those read before the
/// expression and those of the expression.
pub proof fn lemma_lowered_seen(e: ExprView, seen: Set<Seq<char>>, consts: nat, temps: nat)
    ensures
        lowered_expr(e, seen, consts, temps).seen == seen.union(e.vars()),
    decreases e,
{
    match e {
        ExprView::Var(name) => {},
        ExprView::Const(_) => {},
        ExprView::Add(l, r) | ExprView::Mul(l, r) => {
            let left = lowered_expr(*l, seen, consts, temps);
            lemma_lowered_seen(*l, seen, consts, temps);
            lemma_lowered_seen(*r, left.seen, consts + l.consts(), temps + l.ariths());
        },
    }
}

/// What a run of a lowered expression does to the scope.
///
/// The run starts in a scope whose counters are those that the expression
/// was lowered at and in which the variables read so far in the statement
/// are bound.  Where the caller gave every variable that the expression
/// reads anew, the run succeeds: it uses up one counter for each constant
/// and each operator, and the name of the expression is bound behind it,
/// by the last instruction if there is one.  Otherwise it stops at a
/// variable that the caller did not give.
pub proof fn lemma_lowered_expr_runs(
    start: Scope,
    e: ExprView,
    seen: Set<Seq<char>>,
    inputs: Set<Seq<char>>,
)
    requires
        seen.subset_of(start.bound),
    ensures
        ({
            let out = lowered_expr(e, seen, start.consts, start.temps);
            match start.run(out.ops, inputs) {
                Ok(after) => {
                    &&& e.vars().difference(seen).subset_of(inputs)
                    &&& after.consts == start.consts + e.consts()
                    &&& after.temps == start.temps + e.ariths()
                    &&& after.bound == start.bound.union(e.vars()).union(
                        generated_labels(e, start.consts, start.temps),
                    )
                    &&& start.bound.subset_of(after.bound)
                    &&& out.seen.subset_of(after.bound)
                    &&& after.bound.contains(out.name)
                    &&& out.ops.len() > 0 ==> after.last == Some(out.name)
                    &&& out.ops.len() == 0 ==> after == start
                },
                Err(error) => {
                    &&& error matches ExecErrorView::MissingInput(v)
                    &&& e.vars().contains(v)
                    &&& !seen.contains(v)
                    &&& !inputs.contains(v)
                },
            }
        }),
    decreases e,
{
    let out = lowered_expr(e, seen, start.consts, start.temps);
    match e {
        ExprView::Var(name) => {
            if !seen.contains(name) {
                lemma_scope_run_one(start, OpView::Input(name), inputs);
            }
        },
        ExprView::Const(value) => {
            lemma_scope_run_one(start, OpView::Const(value), inputs);
        },
        ExprView::Add(l, r) | ExprView::Mul(l, r) => {
            let left = lowered_expr(*l, seen, start.consts, start.temps);
            let right = lowered_expr(
                *r,
                left.seen,
                start.consts + l.consts(),
                start.temps + l.ariths(),
            );
            let op = out.ops.last();
            assert(out.ops =~= left.ops + (right.ops + seq![op]));
            lemma_lowered_expr_runs(start, *l, seen, inputs);
            lemma_lowered_seen(*l, seen, start.consts, start.temps);
            lemma_scope_run_concat(start, left.ops, right.ops + seq![op], inputs);
            match start.run(left.ops, inputs) {
                Ok(middle) => {
                    lemma_lowered_expr_runs(middle, *r, left.seen, inputs);
                    lemma_scope_run_concat(middle, right.ops, seq![op], inputs);
                    match middle.run(right.ops, inputs) {
                        Ok(last) => {
                            lemma_scope_run_one(last, op, inputs);
                            lemma_lowered_seen(
                                *r,
                                left.seen,
                                start.consts + l.consts(),
                                start.temps + l.ariths(),
                            );
                        },
                        Err(_) => {},
                    }
                },
                Err(_) => {},
            }
        },
    }
}

/// A lowered expression that reads no variable from earlier in its statement
/// holds at least one instruction.
pub proof fn lemma_lowered_expr_nonempty(e: ExprView, consts: nat, temps: nat)
    ensures
        lowered_expr(e, Set::empty(), consts, temps).ops.len() > 0,
{
}

/// A run of a lowered statement succeeds exactly when the caller gave every
/// variable of the statement; otherwise it stops with `MissingInput` for one
/// of the variables not given.
pub proof fn lemma_lowered_statement_runs(
    start: Scope,
    statement: StatementView,
    inputs: Set<Seq<char>>,
)
    ensures
        match start.run(lowered_statement(statement, start.consts, start.temps), inputs) {
            Ok(after) => {
                &&& statement.expr.vars().subset_of(inputs)
                &&& after.consts == start.consts + statement.expr.consts()
                &&& after.temps == start.temps + statement.expr.ariths()
                &&& start.bound.subset_of(after.bound)
            },
            Err(error) => {
                &&& error matches ExecErrorView::MissingInput(v)
                &&& statement.expr.vars().contains(v)
                &&& !inputs.contains(v)
            },
        },
{
    let out = lowered_expr(statement.expr, Set::empty(), start.consts, start.temps);
    let op = OpView::Output(statement.var);
    assert(lowered_statement(statement, start.consts, start.temps) =~= out.ops + seq![op]);
    lemma_lowered_expr_runs(start, statement.expr, Set::empty(), inputs);
    lemma_lowered_expr_nonempty(statement.expr, start.consts, start.temps);
    lemma_scope_run_concat(start, out.ops, seq![op], inputs);
    match start.run(out.ops, inputs) {
        Ok(middle) => {
            lemma_scope_run_one(middle, op, inputs);
        },
        Err(_) => {},
    }
}

/// Whether the caller gave every variable of every statement.
pub open spec fn all_inputs_given(stmts: Seq<StatementView>, inputs: Set<Seq<char>>) -> bool {
    forall|k: int| 0 <= k < stmts.len() ==> (#[trigger] stmts[k]).expr.vars().subset_of(inputs)
}

/// A run of a lowered program succeeds exactly when the caller gave every
/// variable of the program; otherwise it stops with `MissingInput` for a
/// variable not given.  No lowered program refers to an operand or an output
/// that is not bound.
pub proof fn lemma_lowered_program_runs(stmts: Seq<StatementView>, inputs: Set<Seq<char>>)
    ensures
        match Scope::initial().run(lowered_program(stmts), inputs) {
            Ok(after) => all_inputs_given(stmts, inputs),
            Err(error) => {
                &&& !all_inputs_given(stmts, inputs)
                &&& error matches ExecErrorView::MissingInput(v)
                &&& !inputs.contains(v)
                &&& exists|k: int| 0 <= k < stmts.len() && (#[trigger] stmts[k]).expr.vars().contains(v)
            },
        },
    decreases stmts.len(),
{
    if stmts.len() > 0 {
        let front = stmts.drop_last();
        let before = lowered_program(front);
        let last = lowered_statement(stmts.last(), count_consts(before), count_ariths(before));
        lemma_lowered_program_runs(front, inputs);
        lemma_scope_run_concat(Scope::initial(), before, last, inputs);
        lemma_scope_run_counts(Scope::initial(), before, inputs);
        match Scope::initial().run(before, inputs) {
            Ok(middle) => {
                lemma_lowered_statement_runs(middle, stmts.last(), inputs);
                match middle.run(last, inputs) {
                    Ok(_) => {
                        assert forall|k: int| 0 <= k < stmts.len() implies (
                        #[trigger] stmts[k]).expr.vars().subset_of(inputs) by {
                            if k < front.len() {
                                assert(stmts[k] == front[k]);
                            }
                        }
                    },
                    Err(_) => {},
                }
            },
            Err(_) => {},
        }
    }
}

} // verus!
