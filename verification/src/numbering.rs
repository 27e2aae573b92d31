//! How lowering numbers its labels.
//!
//! Lowering draws the labels of an expression from two ranges of counters:
//! one for its constants and one for its arithmetic results, each as long as
//! the expression has nodes of that kind.  Statements lowered one behind the
//! other draw from ranges that follow one another, so no label is made
//! twice; a statement lowered at other counters yields the same instructions
//! with the numbers in its labels shifted.

use crate::ast::{ExprView, StatementView};
use crate::ir::{count_ariths, count_consts, lemma_counts_concat, lemma_counts_push, OpView};
use crate::labels::{const_label, lemma_labels_distinct, temp_label};
use crate::translator::{lemma_lowered_counts, lowered_expr, lowered_statement};
use vstd::prelude::*;

verus! {

/// The labels that lowering `e` makes: one for each constant and one for
/// each operator of `e`.
pub open spec fn generated_labels(e: ExprView, consts: nat, temps: nat) -> Set<Seq<char>>
    decreases e,
{
    match e {
        ExprView::Var(_) => Set::empty(),
        ExprView::Const(_) => set![lowered_expr(e, Set::empty(), consts, temps).name],
        ExprView::Add(l, r) | ExprView::Mul(l, r) => generated_labels(*l, consts, temps).union(
            generated_labels(*r, consts + l.consts(), temps + l.ariths()),
        ).insert(lowered_expr(e, Set::empty(), consts, temps).name),
    }
}

/// Whether `name` is the label of a constant numbered from `low` up to, but
/// not reaching, `high`.
pub open spec fn const_label_within(name: Seq<char>, low: nat, high: nat) -> bool {
    exists|k: nat| low <= k < high && name == #[trigger] const_label(k)
}

/// Whether `name` is the label of an arithmetic result numbered from `low`
/// up to, but not reaching, `high`.
pub open spec fn temp_label_within(name: Seq<char>, low: nat, high: nat) -> bool {
    exists|k: nat| low <= k < high && name == #[trigger] temp_label(k)
}

/// The labels of an expression are those of the counters that it uses up:
/// as many constants and as many arithmetic results as it has nodes of each
/// kind, counted on from where lowering starts.
pub proof fn lemma_generated_labels(e: ExprView, consts: nat, temps: nat, name: Seq<char>)
    ensures
        generated_labels(e, consts, temps).contains(name) <==> const_label_within(
            name,
            consts,
            consts + e.consts(),
        ) || temp_label_within(name, temps, temps + e.ariths()),
    decreases e,
{
    match e {
        ExprView::Var(_) => {},
        ExprView::Const(_) => {
            assert(const_label_within(const_label(consts), consts, consts + 1));
        },
        ExprView::Add(l, r) | ExprView::Mul(l, r) => {
            let mid_consts = consts + l.consts();
            let mid_temps = temps + l.ariths();
            let root = temps + l.ariths() + r.ariths();
            lemma_generated_labels(*l, consts, temps, name);
            lemma_generated_labels(*r, mid_consts, mid_temps, name);
            assert(lowered_expr(e, Set::empty(), consts, temps).name == temp_label(root));
            if generated_labels(e, consts, temps).contains(name) {
                if name == temp_label(root) {
                    assert(temp_label_within(name, temps, temps + e.ariths()));
                } else if generated_labels(*l, consts, temps).contains(name) {
                    if const_label_within(name, consts, mid_consts) {
                        let k = choose|k: nat|
                            consts <= k < mid_consts && name == #[trigger] const_label(k);
                        assert(const_label_within(name, consts, consts + e.consts()));
                    } else {
                        let k = choose|k: nat|
                            temps <= k < mid_temps && name == #[trigger] temp_label(k);
                        assert(temp_label_within(name, temps, temps + e.ariths()));
                    }
                } else {
                    if const_label_within(name, mid_consts, mid_consts + r.consts()) {
                        let k = choose|k: nat|
                            mid_consts <= k < mid_consts + r.consts() && name
                                == #[trigger] const_label(k);
                        assert(const_label_within(name, consts, consts + e.consts()));
                    } else {
                        let k = choose|k: nat|
                            mid_temps <= k < mid_temps + r.ariths() && name
                                == #[trigger] temp_label(k);
                        assert(temp_label_within(name, temps, temps + e.ariths()));
                    }
                }
            }
            if const_label_within(name, consts, consts + e.consts()) {
                let k = choose|k: nat|
                    consts <= k < consts + e.consts() && name == #[trigger] const_label(k);
                if k < mid_consts {
                    assert(const_label_within(name, consts, mid_consts));
                } else {
                    assert(const_label_within(name, mid_consts, mid_consts + r.consts()));
                }
            }
            if temp_label_within(name, temps, temps + e.ariths()) {
                let k = choose|k: nat|
                    temps <= k < temps + e.ariths() && name == #[trigger] temp_label(k);
                if k < mid_temps {
                    assert(temp_label_within(name, temps, mid_temps));
                } else if k < root {
                    assert(temp_label_within(name, mid_temps, mid_temps + r.ariths()));
                }
            }
        },
    }
}

/// Labels drawn from ranges of counters that do not overlap are different.
pub proof fn lemma_ranges_apart(
    name: Seq<char>,
    consts: nat,
    mid_consts: nat,
    end_consts: nat,
    temps: nat,
    mid_temps: nat,
    end_temps: nat,
)
    requires
        consts <= mid_consts <= end_consts,
        temps <= mid_temps <= end_temps,
        const_label_within(name, consts, mid_consts) || temp_label_within(name, temps, mid_temps),
    ensures
        !const_label_within(name, mid_consts, end_consts),
        !temp_label_within(name, mid_temps, end_temps),
{
    if const_label_within(name, consts, mid_consts) {
        let k = choose|k: nat| consts <= k < mid_consts && name == #[trigger] const_label(k);
        assert forall|j: nat| mid_consts <= j < end_consts implies name != #[trigger] const_label(
            j,
        ) by {
            lemma_labels_distinct(k, j);
        }
        assert forall|j: nat| mid_temps <= j < end_temps implies name != #[trigger] temp_label(
            j,
        ) by {
            lemma_labels_distinct(k, j);
        }
    } else {
        let k = choose|k: nat| temps <= k < mid_temps && name == #[trigger] temp_label(k);
        assert forall|j: nat| mid_consts <= j < end_consts implies name != #[trigger] const_label(
            j,
        ) by {
            lemma_labels_distinct(j, k);
        }
        assert forall|j: nat| mid_temps <= j < end_temps implies name != #[trigger] temp_label(
            j,
        ) by {
            lemma_labels_distinct(k, j);
        }
    }
}

/// Two statements lowered one behind the other share no label: whatever the
/// program holds before them, no label made for the first is made again for
/// the second.
pub proof fn lemma_labels_not_reused(
    before: Seq<OpView>,
    first: StatementView,
    second: StatementView,
)
    ensures
        ({
            let first_ops = lowered_statement(first, count_consts(before), count_ariths(before));
            let between = before + first_ops;
            generated_labels(first.expr, count_consts(before), count_ariths(before)).disjoint(
                generated_labels(second.expr, count_consts(between), count_ariths(between)),
            )
        }),
{
    let consts = count_consts(before);
    let temps = count_ariths(before);
    let first_ops = lowered_statement(first, consts, temps);
    let between = before + first_ops;
    let mid_consts = count_consts(between);
    let mid_temps = count_ariths(between);
    let expr_ops = lowered_expr(first.expr, Set::empty(), consts, temps).ops;
    lemma_lowered_counts(first.expr, Set::empty(), consts, temps);
    lemma_counts_push(expr_ops, OpView::Output(first.var));
    lemma_counts_concat(before, first_ops);
    assert(mid_consts == consts + first.expr.consts());
    assert(mid_temps == temps + first.expr.ariths());
    let a = generated_labels(first.expr, consts, temps);
    let b = generated_labels(second.expr, mid_consts, mid_temps);
    assert forall|name: Seq<char>| a.contains(name) implies !b.contains(name) by {
        lemma_generated_labels(first.expr, consts, temps, name);
        lemma_generated_labels(second.expr, mid_consts, mid_temps, name);
        lemma_ranges_apart(
            name,
            consts,
            mid_consts,
            mid_consts + second.expr.consts(),
            temps,
            mid_temps,
            mid_temps + second.expr.ariths(),
        );
    }
}

/// Within one expression no label is made twice either: the two operands of
/// an operator share no label, and the label of the operator's result is
/// made for neither of them.
pub proof fn lemma_labels_apart_within(e: ExprView, consts: nat, temps: nat)
    requires
        e is Add || e is Mul,
    ensures
        ({
            let (l, r) = match e {
                ExprView::Add(l, r) => (*l, *r),
                ExprView::Mul(l, r) => (*l, *r),
                _ => arbitrary(),
            };
            let left = generated_labels(l, consts, temps);
            let right = generated_labels(r, consts + l.consts(), temps + l.ariths());
            let root = lowered_expr(e, Set::empty(), consts, temps).name;
            &&& left.disjoint(right)
            &&& !left.contains(root)
            &&& !right.contains(root)
        }),
{
    let (l, r) = match e {
        ExprView::Add(l, r) => (*l, *r),
        ExprView::Mul(l, r) => (*l, *r),
        _ => arbitrary(),
    };
    let mid_consts = consts + l.consts();
    let mid_temps = temps + l.ariths();
    let end_consts = mid_consts + r.consts();
    let end_temps = mid_temps + r.ariths();
    let left = generated_labels(l, consts, temps);
    let right = generated_labels(r, mid_consts, mid_temps);
    let root = lowered_expr(e, Set::empty(), consts, temps).name;
    assert(root == temp_label(end_temps));
    assert forall|name: Seq<char>| left.contains(name) implies !right.contains(name) by {
        lemma_generated_labels(l, consts, temps, name);
        lemma_generated_labels(r, mid_consts, mid_temps, name);
        lemma_ranges_apart(name, consts, mid_consts, end_consts, temps, mid_temps, end_temps);
    }
    lemma_generated_labels(l, consts, temps, root);
    lemma_generated_labels(r, mid_consts, mid_temps, root);
    assert(temp_label_within(root, end_temps, end_temps + 1));
    if left.contains(root) {
        lemma_ranges_apart(root, consts, mid_consts, end_consts, temps, mid_temps, end_temps + 1);
        assert(temp_label_within(root, mid_temps, end_temps + 1));
    }
    if right.contains(root) {
        lemma_ranges_apart(
            root,
            mid_consts,
            end_consts,
            end_consts,
            mid_temps,
            end_temps,
            end_temps + 1,
        );
    }
}

/// Whether two names are the same up to the number in a label: the same
/// name, or labels of the same kind that lie equally far behind the counters
/// `(consts_a, temps_a)` and `(consts_b, temps_b)`.
pub open spec fn same_name(
    a: Seq<char>,
    b: Seq<char>,
    consts_a: nat,
    temps_a: nat,
    consts_b: nat,
    temps_b: nat,
) -> bool {
    ||| a == b
    ||| exists|k: nat| a == #[trigger] const_label(consts_a + k) && b == const_label(consts_b + k)
    ||| exists|k: nat| a == #[trigger] temp_label(temps_a + k) && b == temp_label(temps_b + k)
}

/// Whether two instructions are the same up to the numbers in the labels of
/// their operands.
pub open spec fn same_op(
    a: OpView,
    b: OpView,
    consts_a: nat,
    temps_a: nat,
    consts_b: nat,
    temps_b: nat,
) -> bool {
    match (a, b) {
        (OpView::Input(x), OpView::Input(y)) => x == y,
        (OpView::Const(x), OpView::Const(y)) => x == y,
        (OpView::Add(x1, x2), OpView::Add(y1, y2)) => same_name(
            x1,
            y1,
            consts_a,
            temps_a,
            consts_b,
            temps_b,
        ) && same_name(x2, y2, consts_a, temps_a, consts_b, temps_b),
        (OpView::Mul(x1, x2), OpView::Mul(y1, y2)) => same_name(
            x1,
            y1,
            consts_a,
            temps_a,
            consts_b,
            temps_b,
        ) && same_name(x2, y2, consts_a, temps_a, consts_b, temps_b),
        (OpView::Output(x), OpView::Output(y)) => x == y,
        _ => false,
    }
}

/// Whether two instruction lists are the same up to label numbering: equally
/// long, with the same instructions in the same order but for the numbers in
/// the labels of their operands.
pub open spec fn same_shape(
    a: Seq<OpView>,
    b: Seq<OpView>,
    consts_a: nat,
    temps_a: nat,
    consts_b: nat,
    temps_b: nat,
) -> bool {
    &&& a.len() == b.len()
    &&& forall|i: int|
        0 <= i < a.len() ==> same_op(#[trigger] a[i], b[i], consts_a, temps_a, consts_b, temps_b)
}

/// A name that is the same behind later counters is the same behind earlier
/// ones.
proof fn lemma_same_name_shift(
    a: Seq<char>,
    b: Seq<char>,
    consts_a: nat,
    temps_a: nat,
    consts_b: nat,
    temps_b: nat,
    by_consts: nat,
    by_temps: nat,
)
    requires
        same_name(
            a,
            b,
            consts_a + by_consts,
            temps_a + by_temps,
            consts_b + by_consts,
            temps_b + by_temps,
        ),
    ensures
        same_name(a, b, consts_a, temps_a, consts_b, temps_b),
{
    if a == b {
    } else if exists|k: nat|
        a == #[trigger] const_label(consts_a + by_consts + k) && b == const_label(
            consts_b + by_consts + k,
        ) {
        let k = choose|k: nat|
            a == #[trigger] const_label(consts_a + by_consts + k) && b == const_label(
                consts_b + by_consts + k,
            );
        assert(a == const_label(consts_a + (by_consts + k)) && b == const_label(
            consts_b + (by_consts + k),
        ));
    } else {
        let k = choose|k: nat|
            a == #[trigger] temp_label(temps_a + by_temps + k) && b == temp_label(
                temps_b + by_temps + k,
            );
        assert(a == temp_label(temps_a + (by_temps + k)) && b == temp_label(
            temps_b + (by_temps + k),
        ));
    }
}

/// An expression lowered at two pairs of counters yields the same
/// instructions up to label numbering, under names that are the same up to
/// label numbering.
pub proof fn lemma_expr_lowers_alike(
    e: ExprView,
    seen: Set<Seq<char>>,
    consts_a: nat,
    temps_a: nat,
    consts_b: nat,
    temps_b: nat,
)
    ensures
        ({
            let a = lowered_expr(e, seen, consts_a, temps_a);
            let b = lowered_expr(e, seen, consts_b, temps_b);
            &&& same_shape(a.ops, b.ops, consts_a, temps_a, consts_b, temps_b)
            &&& same_name(a.name, b.name, consts_a, temps_a, consts_b, temps_b)
            &&& a.seen == b.seen
        }),
    decreases e,
{
    let a = lowered_expr(e, seen, consts_a, temps_a);
    let b = lowered_expr(e, seen, consts_b, temps_b);
    match e {
        ExprView::Var(name) => {
            // A variable is lowered without a label: both lowerings are the same.
            assert(a.name == name && b.name == name);
            assert(a.ops == b.ops);
            assert forall|i: int| 0 <= i < a.ops.len() implies same_op(
                #[trigger] a.ops[i],
                b.ops[i],
                consts_a,
                temps_a,
                consts_b,
                temps_b,
            ) by {
                assert(a.ops[i] == OpView::Input(name));
            }
        },
        ExprView::Const(value) => {
            assert(a.name == const_label(consts_a + 0) && b.name == const_label(consts_b + 0));
            assert forall|i: int| 0 <= i < a.ops.len() implies same_op(
                #[trigger] a.ops[i],
                b.ops[i],
                consts_a,
                temps_a,
                consts_b,
                temps_b,
            ) by {
                assert(a.ops[i] == OpView::Const(value) && b.ops[i] == OpView::Const(value));
            }
        },
        ExprView::Add(l, r) | ExprView::Mul(l, r) => {
            let la = lowered_expr(*l, seen, consts_a, temps_a);
            let lb = lowered_expr(*l, seen, consts_b, temps_b);
            lemma_expr_lowers_alike(*l, seen, consts_a, temps_a, consts_b, temps_b);
            let ra = lowered_expr(*r, la.seen, consts_a + l.consts(), temps_a + l.ariths());
            let rb = lowered_expr(*r, lb.seen, consts_b + l.consts(), temps_b + l.ariths());
            lemma_expr_lowers_alike(
                *r,
                la.seen,
                consts_a + l.consts(),
                temps_a + l.ariths(),
                consts_b + l.consts(),
                temps_b + l.ariths(),
            );
            lemma_same_name_shift(
                ra.name,
                rb.name,
                consts_a,
                temps_a,
                consts_b,
                temps_b,
                l.consts(),
                l.ariths(),
            );
            let span = l.ariths() + r.ariths();
            assert(a.name == temp_label(temps_a + span) && b.name == temp_label(temps_b + span));
            assert forall|i: int| 0 <= i < a.ops.len() implies same_op(
                #[trigger] a.ops[i],
                b.ops[i],
                consts_a,
                temps_a,
                consts_b,
                temps_b,
            ) by {
                if i < la.ops.len() {
                    assert(a.ops[i] == la.ops[i] && b.ops[i] == lb.ops[i]);
                } else if i < la.ops.len() + ra.ops.len() {
                    let j = i - la.ops.len();
                    assert(a.ops[i] == ra.ops[j] && b.ops[i] == rb.ops[j]);
                    lemma_same_op_shift(
                        ra.ops[j],
                        rb.ops[j],
                        consts_a,
                        temps_a,
                        consts_b,
                        temps_b,
                        l.consts(),
                        l.ariths(),
                    );
                }
            }
        },
    }
}

/// An instruction that is the same behind later counters is the same behind
/// earlier ones.
proof fn lemma_same_op_shift(
    a: OpView,
    b: OpView,
    consts_a: nat,
    temps_a: nat,
    consts_b: nat,
    temps_b: nat,
    by_consts: nat,
    by_temps: nat,
)
    requires
        same_op(
            a,
            b,
            consts_a + by_consts,
            temps_a + by_temps,
            consts_b + by_consts,
            temps_b + by_temps,
        ),
    ensures
        same_op(a, b, consts_a, temps_a, consts_b, temps_b),
{
    match (a, b) {
        (OpView::Add(x1, x2), OpView::Add(y1, y2)) => {
            lemma_same_name_shift(
                x1,
                y1,
                consts_a,
                temps_a,
                consts_b,
                temps_b,
                by_consts,
                by_temps,
            );
            lemma_same_name_shift(
                x2,
                y2,
                consts_a,
                temps_a,
                consts_b,
                temps_b,
                by_consts,
                by_temps,
            );
        },
        (OpView::Mul(x1, x2), OpView::Mul(y1, y2)) => {
            lemma_same_name_shift(
                x1,
                y1,
                consts_a,
                temps_a,
                consts_b,
                temps_b,
                by_consts,
                by_temps,
            );
            lemma_same_name_shift(
                x2,
                y2,
                consts_a,
                temps_a,
                consts_b,
                temps_b,
                by_consts,
                by_temps,
            );
        },
        _ => {},
    }
}

/// Lowering the same statement twice, wherever in a program, yields
/// instruction lists that are the same up to label numbering.
pub proof fn lemma_lowering_repeats(
    statement: StatementView,
    consts_a: nat,
    temps_a: nat,
    consts_b: nat,
    temps_b: nat,
)
    ensures
        same_shape(
            lowered_statement(statement, consts_a, temps_a),
            lowered_statement(statement, consts_b, temps_b),
            consts_a,
            temps_a,
            consts_b,
            temps_b,
        ),
{
    lemma_expr_lowers_alike(statement.expr, Set::empty(), consts_a, temps_a, consts_b, temps_b);
    let a = lowered_statement(statement, consts_a, temps_a);
    let b = lowered_statement(statement, consts_b, temps_b);
    let ea = lowered_expr(statement.expr, Set::empty(), consts_a, temps_a).ops;
    let eb = lowered_expr(statement.expr, Set::empty(), consts_b, temps_b).ops;
    assert forall|i: int| 0 <= i < a.len() implies same_op(
        #[trigger] a[i],
        b[i],
        consts_a,
        temps_a,
        consts_b,
        temps_b,
    ) by {
        if i < ea.len() {
            assert(a[i] == ea[i] && b[i] == eb[i]);
        }
    }
}

} // verus!
