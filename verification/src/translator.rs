//! Lowering of statements to instruction lists.
//!
//! An expression is lowered in post-order: the left operand, the right
//! operand, and last the instruction that combines them.  A variable is read
//! by an `Input` the first time it occurs in a statement and is referenced by
//! its own name.  Constants and arithmetic results are referenced by labels
//! numbered through the whole program, so the lists of several statements can
//! follow one another without two values sharing a label.
//!
//! The `Output` of a statement carries the statement's target and stands
//! directly behind the last instruction of the expression, which is the one
//! that binds the value of the expression.  That is how the target comes to
//! name the value: the interpreter reads an `Output` with an unbound name as
//! another name for what the instruction before it has bound.

use crate::ast::{Expr, ExprView, Statement, StatementView};
use crate::ir::{
    count_ariths, count_consts, lemma_counts_bounded, lemma_counts_concat, lemma_counts_push,
    program_view, Op, OpView,
};
use crate::labels::{const_label, make_const_label, make_temp_label, temp_label};
use vstd::hash_set::StringHashSet;
use vstd::prelude::*;

verus! {

/// What lowering one expression yields: the instructions, the name under
/// which the value of the expression is found after them, and the variables
/// read so far in the statement.
pub struct Emitted {
    pub ops: Seq<OpView>,
    pub name: Seq<char>,
    pub seen: Set<Seq<char>>,
}

/// The lowering of `e` in a statement that has already read the variables
/// `seen`, in a program that already holds `consts` constants and `temps`
/// arithmetic instructions.
pub open spec fn lowered_expr(e: ExprView, seen: Set<Seq<char>>, consts: nat, temps: nat) -> Emitted
    decreases e,
{
    match e {
        ExprView::Var(name) => Emitted {
            ops: if seen.contains(name) {
                Seq::empty()
            } else {
                seq![OpView::Input(name)]
            },
            name: name,
            seen: seen.insert(name),
        },
        ExprView::Const(value) => Emitted {
            ops: seq![OpView::Const(value)],
            name: const_label(consts),
            seen: seen,
        },
        ExprView::Add(l, r) => {
            let left = lowered_expr(*l, seen, consts, temps);
            let right = lowered_expr(*r, left.seen, consts + l.consts(), temps + l.ariths());
            Emitted {
                ops: left.ops + right.ops + seq![OpView::Add(left.name, right.name)],
                name: temp_label(temps + l.ariths() + r.ariths()),
                seen: right.seen,
            }
        },
        ExprView::Mul(l, r) => {
            let left = lowered_expr(*l, seen, consts, temps);
            let right = lowered_expr(*r, left.seen, consts + l.consts(), temps + l.ariths());
            Emitted {
                ops: left.ops + right.ops + seq![OpView::Mul(left.name, right.name)],
                name: temp_label(temps + l.ariths() + r.ariths()),
                seen: right.seen,
            }
        },
    }
}

/// The lowering of a statement: its expression, with no variable read yet,
/// followed by the `Output` of its target.
pub open spec fn lowered_statement(s: StatementView, consts: nat, temps: nat) -> Seq<OpView> {
    lowered_expr(s.expr, Set::empty(), consts, temps).ops.push(OpView::Output(s.var))
}

/// The lowering of a program: each statement lowered behind the ones before.
pub open spec fn lowered_program(stmts: Seq<StatementView>) -> Seq<OpView>
    decreases stmts.len(),
{
    if stmts.len() == 0 {
        Seq::empty()
    } else {
        let before = lowered_program(stmts.drop_last());
        before + lowered_statement(stmts.last(), count_consts(before), count_ariths(before))
    }
}

/// The lowering of an expression loads each of its constants once and holds
/// one arithmetic instruction for each of its operators.
pub proof fn lemma_lowered_counts(e: ExprView, seen: Set<Seq<char>>, consts: nat, temps: nat)
    ensures
        count_consts(lowered_expr(e, seen, consts, temps).ops) == e.consts(),
        count_ariths(lowered_expr(e, seen, consts, temps).ops) == e.ariths(),
    decreases e,
{
    let out = lowered_expr(e, seen, consts, temps);
    match e {
        ExprView::Var(name) => {
            if !seen.contains(name) {
                lemma_counts_push(Seq::empty(), OpView::Input(name));
            }
        },
        ExprView::Const(value) => {
            lemma_counts_push(Seq::empty(), OpView::Const(value));
        },
        ExprView::Add(l, r) => {
            let left = lowered_expr(*l, seen, consts, temps);
            let right = lowered_expr(*r, left.seen, consts + l.consts(), temps + l.ariths());
            lemma_lowered_counts(*l, seen, consts, temps);
            lemma_lowered_counts(*r, left.seen, consts + l.consts(), temps + l.ariths());
            lemma_counts_concat(left.ops, right.ops);
            lemma_counts_push(left.ops + right.ops, out.ops.last());
            assert(out.ops =~= (left.ops + right.ops).push(out.ops.last()));
        },
        ExprView::Mul(l, r) => {
            let left = lowered_expr(*l, seen, consts, temps);
            let right = lowered_expr(*r, left.seen, consts + l.consts(), temps + l.ariths());
            lemma_lowered_counts(*l, seen, consts, temps);
            lemma_lowered_counts(*r, left.seen, consts + l.consts(), temps + l.ariths());
            lemma_counts_concat(left.ops, right.ops);
            lemma_counts_push(left.ops + right.ops, out.ops.last());
            assert(out.ops =~= (left.ops + right.ops).push(out.ops.last()));
        },
    }
}

/// The state of lowering one program: the instructions emitted so far and
/// the counters from which the next labels are made.
pub struct LoweringContext {
    ops: Vec<Op>,
    const_id: usize,
    temp_id: usize,
}

impl LoweringContext {
    /// The instructions emitted so far.
    pub closed spec fn program(&self) -> Seq<OpView> {
        program_view(self.ops@)
    }

    /// The counters agree with the instructions emitted so far.
    pub closed spec fn well_formed(&self) -> bool {
        &&& self.const_id == count_consts(self.program())
        &&& self.temp_id == count_ariths(self.program())
    }

    /// A context that has emitted nothing.
    pub fn new() -> (ctx: Self)
        ensures
            ctx.well_formed(),
            ctx.program() == Seq::<OpView>::empty(),
    {
        LoweringContext { ops: Vec::new(), const_id: 0, temp_id: 0 }
    }

    /// Appends `op`.  The length is read back to learn that it fits in a
    /// `usize`: the counters never pass it, so they do not overflow.
    fn emit(&mut self, op: Op)
        ensures
            final(self).program() == old(self).program().push(op@),
            final(self).const_id == old(self).const_id,
            final(self).temp_id == old(self).temp_id,
            final(self).program().len() <= usize::MAX,
    {
        self.ops.push(op);
        let _len: usize = self.ops.len();
    }

    /// Lowers `expr` behind what the context holds and returns the name under
    /// which its value is found.
    fn compile_expr(&mut self, expr: Expr, seen: &mut StringHashSet) -> (name: String)
        requires
            old(self).well_formed(),
        ensures
            final(self).well_formed(),
            ({
                let out = lowered_expr(
                    expr@,
                    old(seen)@,
                    count_consts(old(self).program()),
                    count_ariths(old(self).program()),
                );
                &&& final(self).program() == old(self).program() + out.ops
                &&& name@ == out.name
                &&& final(seen)@ == out.seen
            }),
        decreases expr,
    {
        let ghost before = self.program();
        let ghost consts = count_consts(before);
        let ghost temps = count_ariths(before);
        let ghost seen0 = seen@;
        proof {
            lemma_lowered_counts(expr@, seen0, consts, temps);
            lemma_counts_concat(before, lowered_expr(expr@, seen0, consts, temps).ops);
        }
        match expr {
            Expr::Var(v) => {
                if !seen.contains(v.as_str()) {
                    self.emit(Op::Input(v.clone()));
                    seen.insert(v.clone());
                    assert(self.program() =~= before + seq![OpView::Input(v@)]);
                }
                v
            },
            Expr::Const(c) => {
                let name = make_const_label(self.const_id);
                self.emit(Op::Const(c));
                proof {
                    lemma_counts_bounded(self.program());
                    assert(self.program() =~= before + seq![OpView::Const(c)]);
                }
                self.const_id += 1;
                name
            },
            Expr::Mul(a, b) => {
                let ghost left = lowered_expr(a@, seen0, consts, temps);
                let ghost right = lowered_expr(
                    b@,
                    left.seen,
                    consts + a@.consts(),
                    temps + a@.ariths(),
                );
                proof {
                    lemma_lowered_counts(a@, seen0, consts, temps);
                    lemma_counts_concat(before, left.ops);
                    lemma_lowered_counts(b@, left.seen, consts + a@.consts(), temps + a@.ariths());
                    lemma_counts_concat(before + left.ops, right.ops);
                }
                let a_name = self.compile_expr(*a, seen);
                let b_name = self.compile_expr(*b, seen);
                let name = make_temp_label(self.temp_id);
                let ghost op = OpView::Mul(a_name@, b_name@);
                self.emit(Op::Mul(a_name, b_name));
                proof {
                    lemma_counts_bounded(self.program());
                    assert(self.program() =~= before + (left.ops + right.ops + seq![op]));
                }
                self.temp_id += 1;
                name
            },
            Expr::Add(a, b) => {
                let ghost left = lowered_expr(a@, seen0, consts, temps);
                let ghost right = lowered_expr(
                    b@,
                    left.seen,
                    consts + a@.consts(),
                    temps + a@.ariths(),
                );
                proof {
                    lemma_lowered_counts(a@, seen0, consts, temps);
                    lemma_counts_concat(before, left.ops);
                    lemma_lowered_counts(b@, left.seen, consts + a@.consts(), temps + a@.ariths());
                    lemma_counts_concat(before + left.ops, right.ops);
                }
                let a_name = self.compile_expr(*a, seen);
                let b_name = self.compile_expr(*b, seen);
                let name = make_temp_label(self.temp_id);
                let ghost op = OpView::Add(a_name@, b_name@);
                self.emit(Op::Add(a_name, b_name));
                proof {
                    lemma_counts_bounded(self.program());
                    assert(self.program() =~= before + (left.ops + right.ops + seq![op]));
                }
                self.temp_id += 1;
                name
            },
        }
    }

    /// Lowers one statement behind the statements lowered before it.
    ///
    /// Variables keep their own names and targets are not renamed, so the
    /// instructions compute the statement only where its names keep clear of
    /// one another.  A variable or target spelt like a label (`const_<n>`,
    /// `t_<n>`) shares its name with an intermediate value: the lowering of
    /// `let z = t_0 + a * b` adds the product to itself.  A target that is
    /// also a variable of its statement names the input, not the result.
    /// The statements for which the value is right are those of
    /// [`crate::evaluation::names_apart`].
    pub fn lower(&mut self, ast: Statement)
        requires
            old(self).well_formed(),
        ensures
            final(self).well_formed(),
            final(self).program() == old(self).program() + lowered_statement(
                ast@,
                count_consts(old(self).program()),
                count_ariths(old(self).program()),
            ),
    {
        let ghost before = self.program();
        let ghost out = lowered_expr(
            ast@.expr,
            Set::empty(),
            count_consts(before),
            count_ariths(before),
        );
        let mut seen = StringHashSet::new();
        let _root = self.compile_expr(ast.expr, &mut seen);
        self.emit(Op::Output(ast.var));
        proof {
            lemma_counts_push(before + out.ops, OpView::Output(ast@.var));
        }
    }

    /// Hands out the instructions emitted so far.
    pub fn finish(self) -> (ops: Vec<Op>)
        ensures
            program_view(ops@) == self.program(),
    {
        self.ops
    }
}

/// Lowers one statement as a program of its own, with labels counted from
/// zero.
///
/// Variables keep their own names and the target is not renamed.  A variable
/// or target spelt like a label (`const_<n>`, `t_<n>`) shares its name with
/// an intermediate value, and a target that is also a variable of the
/// statement names the input: a run of such instructions reports another
/// value than that of the statement's expression.  See
/// [`LoweringContext::lower`].
pub fn compile_ast(ast: Statement) -> (ops: Vec<Op>)
    ensures
        program_view(ops@) == lowered_statement(ast@, 0, 0),
{
    let mut ctx = LoweringContext::new();
    ctx.lower(ast);
    ctx.finish()
}

} // verus!
