//! The flat instruction list that lowering produces and the interpreter runs.
//!
//! Instructions are executed strictly in order.  `Const`, `Add` and `Mul`
//! do not carry the name of their result: the `n`-th `Const` of a program
//! defines `const_<n>` and the `n`-th arithmetic instruction defines `t_<n>`,
//! both counted from zero over the whole program.

use vstd::prelude::*;

verus! {

/// One instruction.
#[derive(Debug, PartialEq)]
pub enum Op {
    /// Reads the named program input and defines that name.
    Input(String),
    /// Loads a constant and defines the next constant label.
    Const(i64),
    /// Adds two named values and defines the next temporary label.
    Add(String, String),
    /// Multiplies two named values and defines the next temporary label.
    Mul(String, String),
    /// Reports a value under the given name.
    Output(String),
}

/// The mathematical form of an [`Op`], with names as character sequences.
pub enum OpView {
    Input(Seq<char>),
    Const(i64),
    Add(Seq<char>, Seq<char>),
    Mul(Seq<char>, Seq<char>),
    Output(Seq<char>),
}

impl View for Op {
    type V = OpView;

    open spec fn view(&self) -> OpView {
        match self {
            Op::Input(name) => OpView::Input(name@),
            Op::Const(value) => OpView::Const(*value),
            Op::Add(lhs, rhs) => OpView::Add(lhs@, rhs@),
            Op::Mul(lhs, rhs) => OpView::Mul(lhs@, rhs@),
            Op::Output(name) => OpView::Output(name@),
        }
    }
}

/// The mathematical form of an instruction list.
pub open spec fn program_view(ops: Seq<Op>) -> Seq<OpView> {
    ops.map_values(|op: Op| op@)
}

impl OpView {
    /// Whether the instruction loads a constant.
    pub open spec fn is_const(self) -> bool {
        self is Const
    }

    /// Whether the instruction is an addition or a multiplication.
    pub open spec fn is_arith(self) -> bool {
        self is Add || self is Mul
    }
}

/// How many constants `ops` loads.
pub open spec fn count_consts(ops: Seq<OpView>) -> nat
    decreases ops.len(),
{
    if ops.len() == 0 {
        0
    } else {
        count_consts(ops.drop_last()) + if ops.last().is_const() {
            1nat
        } else {
            0nat
        }
    }
}

/// How many additions and multiplications `ops` holds.
pub open spec fn count_ariths(ops: Seq<OpView>) -> nat
    decreases ops.len(),
{
    if ops.len() == 0 {
        0
    } else {
        count_ariths(ops.drop_last()) + if ops.last().is_arith() {
            1nat
        } else {
            0nat
        }
    }
}

/// Counting one more instruction.
pub proof fn lemma_counts_push(ops: Seq<OpView>, op: OpView)
    ensures
        count_consts(ops.push(op)) == count_consts(ops) + if op.is_const() {
            1nat
        } else {
            0nat
        },
        count_ariths(ops.push(op)) == count_ariths(ops) + if op.is_arith() {
            1nat
        } else {
            0nat
        },
{
    assert(ops.push(op).drop_last() =~= ops);
}

/// Counting distributes over concatenation.
pub proof fn lemma_counts_concat(a: Seq<OpView>, b: Seq<OpView>)
    ensures
        count_consts(a + b) == count_consts(a) + count_consts(b),
        count_ariths(a + b) == count_ariths(a) + count_ariths(b),
    decreases b.len(),
{
    if b.len() > 0 {
        assert((a + b).drop_last() == a + b.drop_last());
        lemma_counts_concat(a, b.drop_last());
    }
}

/// Counts never exceed the length.
pub proof fn lemma_counts_bounded(ops: Seq<OpView>)
    ensures
        count_consts(ops) + count_ariths(ops) <= ops.len(),
    decreases ops.len(),
{
    if ops.len() > 0 {
        lemma_counts_bounded(ops.drop_last());
    }
}

} // verus!
