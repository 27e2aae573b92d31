//! The names that lowering and the interpreter give to intermediate values.
//!
//! The `n`-th constant of a program is called `const_<n>` and the result of
//! its `n`-th arithmetic instruction `t_<n>`, with `<n>` in decimal and
//! counted from zero.

use crate::text::{decimal, lemma_decimal_injective, push_decimal};
use vstd::prelude::*;

verus! {

pub open spec fn const_prefix() -> Seq<char> {
    seq!['c', 'o', 'n', 's', 't', '_']
}

pub open spec fn temp_prefix() -> Seq<char> {
    seq!['t', '_']
}

/// The name of constant number `n`.
pub open spec fn const_label(n: nat) -> Seq<char> {
    const_prefix() + decimal(n)
}

/// The name of the result of arithmetic instruction number `n`.
pub open spec fn temp_label(n: nat) -> Seq<char> {
    temp_prefix() + decimal(n)
}

/// Whether `name` is one of the names reserved for intermediate values.
pub open spec fn is_label(name: Seq<char>) -> bool {
    (exists|n: nat| name == #[trigger] const_label(n)) || (exists|n: nat|
        name == #[trigger] temp_label(n))
}

/// Different counters give different names, and no constant shares a name
/// with a temporary.
pub proof fn lemma_labels_distinct(a: nat, b: nat)
    ensures
        const_label(a) == const_label(b) ==> a == b,
        temp_label(a) == temp_label(b) ==> a == b,
        const_label(a) != temp_label(b),
{
    if const_label(a) == const_label(b) {
        assert(decimal(a) =~= const_label(a).subrange(6, const_label(a).len() as int));
        assert(decimal(b) =~= const_label(b).subrange(6, const_label(b).len() as int));
        lemma_decimal_injective(a, b);
    }
    if temp_label(a) == temp_label(b) {
        assert(decimal(a) =~= temp_label(a).subrange(2, temp_label(a).len() as int));
        assert(decimal(b) =~= temp_label(b).subrange(2, temp_label(b).len() as int));
        lemma_decimal_injective(a, b);
    }
    assert(const_label(a)[0] == 'c');
}

/// Builds the name of constant number `n`.
pub fn make_const_label(n: usize) -> (name: String)
    ensures
        name@ == const_label(n as nat),
{
    let mut name = String::new();
    name.push('c');
    name.push('o');
    name.push('n');
    name.push('s');
    name.push('t');
    name.push('_');
    push_decimal(&mut name, n);
    name
}

/// Builds the name of the result of arithmetic instruction number `n`.
pub fn make_temp_label(n: usize) -> (name: String)
    ensures
        name@ == temp_label(n as nat),
{
    let mut name = String::new();
    name.push('t');
    name.push('_');
    push_decimal(&mut name, n);
    name
}

} // verus!
