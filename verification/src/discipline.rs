//! The single-assignment discipline of the environment.
//!
//! A run binds names and never unbinds one.  As long as no program input
//! bears one of the reserved names, every label is bound once only: the
//! instruction that defines a label finds it unbound.

use crate::executor::Scope;
use crate::ir::OpView;
use crate::labels::{const_label, is_label, lemma_labels_distinct, temp_label};
use crate::numbering::{const_label_within, temp_label_within};
use vstd::prelude::*;

verus! {

/// Whether some instruction of `ops` reads the program input `name`.
pub open spec fn reads_input(ops: Seq<OpView>, name: Seq<char>) -> bool {
    exists|i: int| 0 <= i < ops.len() && #[trigger] ops[i] == OpView::Input(name)
}

/// Whether no instruction of `ops` reads a program input that bears one of
/// the reserved names.
pub open spec fn inputs_are_no_labels(ops: Seq<OpView>) -> bool {
    forall|name: Seq<char>| #[trigger] reads_input(ops, name) ==> !is_label(name)
}

/// The names bound behind a run are the inputs that it has read and the
/// labels of the constants and arithmetic results that it has counted.
pub proof fn lemma_bound_names(ops: Seq<OpView>, inputs: Set<Seq<char>>, name: Seq<char>)
    ensures
        Scope::initial().run(ops, inputs) matches Ok(after) ==> (after.bound.contains(name)
            <==> reads_input(ops, name) || const_label_within(name, 0, after.consts)
            || temp_label_within(name, 0, after.temps)),
    decreases ops.len(),
{
    if ops.len() > 0 {
        let front = ops.drop_last();
        let op = ops.last();
        lemma_bound_names(front, inputs, name);
        match Scope::initial().run(front, inputs) {
            Ok(middle) => {
                match middle.step(op, inputs) {
                    Ok(after) => {
                        if reads_input(ops, name) && !reads_input(front, name) {
                            let i = choose|i: int|
                                0 <= i < ops.len() && #[trigger] ops[i] == OpView::Input(name);
                            if i < front.len() {
                                assert(front[i] == OpView::Input(name));
                            }
                        }
                    },
                    Err(_) => {},
                }
            },
            Err(_) => {},
        }
    }
}

/// Every label is bound once only: where no program input bears one of the
/// reserved names, the instruction at position `at` finds the label that it
/// defines unbound.
pub proof fn lemma_labels_bound_once(ops: Seq<OpView>, inputs: Set<Seq<char>>, at: int)
    requires
        0 <= at < ops.len(),
        inputs_are_no_labels(ops),
    ensures
        Scope::initial().run(ops.take(at), inputs) matches Ok(before) ==> match ops[at] {
            OpView::Const(_) => !before.bound.contains(const_label(before.consts)),
            OpView::Add(_, _) | OpView::Mul(_, _) => !before.bound.contains(
                temp_label(before.temps),
            ),
            _ => true,
        },
{
    let front = ops.take(at);
    match Scope::initial().run(front, inputs) {
        Ok(before) => {
            let made = match ops[at] {
                OpView::Const(_) => const_label(before.consts),
                _ => temp_label(before.temps),
            };
            lemma_bound_names(front, inputs, made);
            if reads_input(front, made) {
                assert(reads_input(ops, made));
            }
            if const_label_within(made, 0, before.consts) {
                let k = choose|k: nat| 0 <= k < before.consts && made == #[trigger] const_label(k);
                lemma_labels_distinct(k, before.consts);
                lemma_labels_distinct(k, before.temps);
            }
            if temp_label_within(made, 0, before.temps) {
                let k = choose|k: nat| 0 <= k < before.temps && made == #[trigger] temp_label(k);
                lemma_labels_distinct(k, before.temps);
                lemma_labels_distinct(before.consts, k);
            }
        },
        Err(_) => {},
    }
}

} // verus!
