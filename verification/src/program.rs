//! Programs of several lines.
//!
//! A program text is read line by line, each line without the white space
//! around it:
//!
//! - `input <name> = <integer>;` gives the program input `<name>` a value;
//! - `let <name> = <expr>;` is a statement, lowered behind the statements of
//!   the lines before it;
//! - any other line is passed over, and so is an `input` line without `=`.
//!
//! The semicolons are optional.

use crate::executor::Inputs;
use crate::grammar::{parsed, space_run, ParseErrorView};
use crate::ir::{count_ariths, count_consts, program_view, Op, OpView};
use crate::parser::{parse_dsl, ParseError};
use crate::text::{
    all_digits, char_is_digit, char_is_space, decimal_value, is_digit, is_space,
    lemma_decimal_value_grows, lemma_decimal_value_step, slice_to_string,
};
use crate::translator::{lowered_statement, LoweringContext};
use vstd::prelude::*;

verus! {

/// Why a program text cannot be compiled.
#[derive(Debug)]
pub enum CompileError {
    /// A `let` line is no statement.
    Statement(ParseError),
    /// The value of an `input` line, held here, is no `i64`.
    InputValue(String),
}

/// The mathematical form of a [`CompileError`].
pub enum CompileErrorView {
    Statement(ParseErrorView),
    InputValue(Seq<char>),
}

impl View for CompileError {
    type V = CompileErrorView;

    open spec fn view(&self) -> CompileErrorView {
        match self {
            CompileError::Statement(e) => CompileErrorView::Statement(e@),
            CompileError::InputValue(text) => CompileErrorView::InputValue(text@),
        }
    }
}

/// `s` without the white space that it begins with.
pub open spec fn trim_start(s: Seq<char>) -> Seq<char> {
    s.skip(space_run(s, 0) as int)
}

/// `s` without the white space that it ends with.
pub open spec fn trim_end(s: Seq<char>) -> Seq<char>
    decreases s.len(),
{
    if s.len() > 0 && is_space(s.last()) {
        trim_end(s.drop_last())
    } else {
        s
    }
}

/// `s` without the white space around it.
pub open spec fn trimmed(s: Seq<char>) -> Seq<char> {
    trim_end(trim_start(s))
}

/// `s` without the semicolons that it ends with.
pub open spec fn without_semicolons(s: Seq<char>) -> Seq<char>
    decreases s.len(),
{
    if s.len() > 0 && s.last() == ';' {
        without_semicolons(s.drop_last())
    } else {
        s
    }
}

/// The number of characters from position `i` up to the next `c`, or up to
/// the end of `s` where no `c` follows.
pub open spec fn distance_to(s: Seq<char>, c: char, i: int) -> nat
    decreases s.len() - i,
{
    if 0 <= i < s.len() && s[i] != c {
        1 + distance_to(s, c, i + 1)
    } else {
        0
    }
}

/// Whether `text` begins with a sign.
pub open spec fn is_signed(text: Seq<char>) -> bool {
    text.len() > 0 && (text[0] == '-' || text[0] == '+')
}

/// The integer that `text` denotes: an optional sign and one or more decimal
/// digits, with a value in the range of `i64`.
pub open spec fn signed_decimal(text: Seq<char>) -> Option<i64> {
    let digits = if is_signed(text) {
        text.skip(1)
    } else {
        text
    };
    let value = if is_signed(text) && text[0] == '-' {
        -decimal_value(digits)
    } else {
        decimal_value(digits) as int
    };
    if digits.len() > 0 && all_digits(digits) && i64::MIN <= value <= i64::MAX {
        Some(value as i64)
    } else {
        None
    }
}

/// What an `input` line begins with.
pub open spec fn input_prefix() -> Seq<char> {
    seq!['i', 'n', 'p', 'u', 't', ' ']
}

/// What a statement line begins with.
pub open spec fn let_prefix() -> Seq<char> {
    seq!['l', 'e', 't', ' ']
}

/// What has been compiled of a program: the instructions of its statements
/// and the values of its inputs.
pub struct Compiled {
    pub ops: Seq<OpView>,
    pub inputs: Map<Seq<char>, i64>,
}

/// `acc` with one more line, given without the white space around it.
pub open spec fn with_line(acc: Compiled, line: Seq<char>) -> Result<Compiled, CompileErrorView> {
    if input_prefix().is_prefix_of(line) {
        let rest = line.skip(input_prefix().len() as int);
        let split = distance_to(rest, '=', 0);
        if split < rest.len() {
            let name = trimmed(rest.take(split as int));
            let text = trimmed(without_semicolons(rest.skip(split as int + 1)));
            match signed_decimal(text) {
                Some(value) => Ok(Compiled { inputs: acc.inputs.insert(name, value), ..acc }),
                None => Err(CompileErrorView::InputValue(text)),
            }
        } else {
            Ok(acc)
        }
    } else if let_prefix().is_prefix_of(line) {
        match parsed(without_semicolons(line)) {
            Ok(statement) => Ok(
                Compiled {
                    ops: acc.ops + lowered_statement(
                        statement,
                        count_consts(acc.ops),
                        count_ariths(acc.ops),
                    ),
                    ..acc
                },
            ),
            Err(e) => Err(CompileErrorView::Statement(e)),
        }
    } else {
        Ok(acc)
    }
}

/// `acc` with the lines of `s` from position `i` on, where a line begins.
pub open spec fn compiled_from(s: Seq<char>, i: int, acc: Compiled) -> Result<
    Compiled,
    CompileErrorView,
>
    decreases s.len() - i,
{
    if 0 <= i < s.len() {
        let end = i + distance_to(s, '\n', i);
        match with_line(acc, trimmed(s.subrange(i, end))) {
            Ok(next) => if end < s.len() {
                compiled_from(s, end + 1, next)
            } else {
                Ok(next)
            },
            Err(e) => Err(e),
        }
    } else {
        Ok(acc)
    }
}

/// What compiling the program text `s` yields: the instructions and inputs of
/// all its lines, or the error of the first line that has one.
pub open spec fn compiled(s: Seq<char>) -> Result<Compiled, CompileErrorView> {
    compiled_from(s, 0, Compiled { ops: Seq::empty(), inputs: Map::empty() })
}

/// The position of the next `c` from `i` on, or the length of `v` where no
/// `c` follows.
fn find_from(v: &Vec<char>, c: char, i: usize) -> (end: usize)
    requires
        i <= v.len(),
    ensures
        i <= end <= v.len(),
        end == i + distance_to(v@, c, i as int),
{
    let mut end: usize = i;
    while end < v.len() && v[end] != c
        invariant
            i <= end <= v.len(),
            end + distance_to(v@, c, end as int) == i + distance_to(v@, c, i as int),
        decreases v.len() - end,
    {
        end += 1;
    }
    end
}

/// A copy of `v[from..to]`.
fn sub_vec(v: &Vec<char>, from: usize, to: usize) -> (part: Vec<char>)
    requires
        from <= to <= v.len(),
    ensures
        part@ == v@.subrange(from as int, to as int),
{
    let mut part: Vec<char> = Vec::new();
    let mut i: usize = from;
    while i < to
        invariant
            from <= i <= to <= v.len(),
            part@ == v@.subrange(from as int, i as int),
        decreases to - i,
    {
        part.push(v[i]);
        assert(v@.subrange(from as int, i as int).push(v@[i as int]) =~= v@.subrange(
            from as int,
            i + 1,
        ));
        i += 1;
    }
    part
}

/// A copy of `v` without the white space around it.
fn trim(v: &Vec<char>) -> (part: Vec<char>)
    ensures
        part@ == trimmed(v@),
{
    let mut from: usize = 0;
    while from < v.len() && char_is_space(v[from])
        invariant
            from <= v.len(),
            from + space_run(v@, from as int) == space_run(v@, 0),
        decreases v.len() - from,
    {
        from += 1;
    }
    let mut to: usize = v.len();
    while to > from && char_is_space(v[to - 1])
        invariant
            from <= to <= v.len(),
            trim_end(v@.subrange(from as int, to as int)) == trimmed(v@),
        decreases to,
    {
        proof {
            assert(v@.subrange(from as int, to as int).drop_last() =~= v@.subrange(
                from as int,
                to - 1,
            ));
        }
        to -= 1;
    }
    sub_vec(v, from, to)
}

/// A copy of `v` without the semicolons that it ends with.
fn strip_semicolons(v: &Vec<char>) -> (part: Vec<char>)
    ensures
        part@ == without_semicolons(v@),
{
    let mut to: usize = v.len();
    proof {
        assert(v@.subrange(0, to as int) =~= v@);
    }
    while to > 0 && v[to - 1] == ';'
        invariant
            to <= v.len(),
            without_semicolons(v@.subrange(0, to as int)) == without_semicolons(v@),
        decreases to,
    {
        proof {
            assert(v@.subrange(0, to as int).drop_last() =~= v@.subrange(0, to - 1));
        }
        to -= 1;
    }
    sub_vec(v, 0, to)
}

/// Whether `v` begins with `prefix`.
fn has_prefix(v: &Vec<char>, prefix: &Vec<char>) -> (b: bool)
    ensures
        b == prefix@.is_prefix_of(v@),
{
    if prefix.len() > v.len() {
        return false;
    }
    let mut i: usize = 0;
    while i < prefix.len()
        invariant
            i <= prefix.len() <= v.len(),
            forall|j: int| 0 <= j < i ==> prefix@[j] == v@[j],
        decreases prefix.len() - i,
    {
        if prefix[i] != v[i] {
            return false;
        }
        i += 1;
    }
    true
}

/// Reads `text` as a signed decimal integer.
fn parse_i64(text: &Vec<char>) -> (value: Option<i64>)
    ensures
        value == signed_decimal(text@),
{
    let n: usize = text.len();
    let negative: bool = n > 0 && text[0] == '-';
    let start: usize = if n > 0 && (text[0] == '-' || text[0] == '+') {
        1
    } else {
        0
    };
    let ghost digits = text@.skip(start as int);
    if start == n {
        return None;
    }
    let mut magnitude: u64 = 0;
    let mut k: usize = start;
    while k < n
        invariant
            start <= k <= n,
            n == text.len(),
            digits == text@.skip(start as int),
            digits == if is_signed(text@) {
                text@.skip(1)
            } else {
                text@
            },
            digits.len() == n - start,
            start == if is_signed(text@) {
                1int
            } else {
                0int
            },
            forall|j: int| 0 <= j < k - start ==> is_digit(#[trigger] digits[j]),
            magnitude == decimal_value(digits.take(k - start)),
            magnitude <= 0x8000_0000_0000_0000,
        ensures
            k == n,
        decreases n - k,
    {
        let c: char = text[k];
        assert(c == digits[k - start]);
        if !char_is_digit(c) {
            return None;
        }
        let d: u64 = (c as u32 - '0' as u32) as u64;
        proof {
            lemma_decimal_value_step(digits, k - start);
            lemma_decimal_value_grows(digits, k + 1 - start);
        }
        let next: Option<u64> = match magnitude.checked_mul(10) {
            Some(tens) => tens.checked_add(d),
            None => None,
        };
        match next {
            Some(m) => {
                if m > 0x8000_0000_0000_0000 {
                    return None;
                }
                magnitude = m;
            },
            None => {
                return None;
            },
        }
        k += 1;
    }
    proof {
        assert(digits.take(n - start) =~= digits);
    }
    if negative {
        if magnitude == 0x8000_0000_0000_0000 {
            Some(i64::MIN)
        } else {
            Some(-(magnitude as i64))
        }
    } else if magnitude > 0x7fff_ffff_ffff_ffff {
        None
    } else {
        Some(magnitude as i64)
    }
}

/// Compiles a program text to the instructions of its statements and the
/// values of its inputs.
///
/// The labels of the instructions are numbered through the whole program.
/// Compiling stops at the first line that has an error.
///
/// Names are taken as they stand.  A variable, target or input spelt like a
/// label (`const_<n>`, `t_<n>`) shares its name with an intermediate value of
/// the program, and a target that is also a variable of its statement names
/// the input; a run then reports another value than that of the statement's
/// expression.  Nothing here rejects such names.
pub fn compile_dsl(src: &str) -> (result: Result<(Vec<Op>, Inputs), CompileError>)
    ensures
        match result {
            Ok((ops, inputs)) => compiled(src@) == Ok::<Compiled, CompileErrorView>(
                Compiled { ops: program_view(ops@), inputs: inputs@ },
            ),
            Err(e) => compiled(src@) == Err::<Compiled, CompileErrorView>(e@),
        },
{
    let chars = crate::text::to_chars(src);
    let input_word: Vec<char> = vec!['i', 'n', 'p', 'u', 't', ' '];
    let let_word: Vec<char> = vec!['l', 'e', 't', ' '];
    let mut ctx = LoweringContext::new();
    let mut inputs = Inputs::new();
    let mut i: usize = 0;
    while i < chars.len()
        invariant
            i <= chars.len(),
            chars@ == src@,
            input_word@ == input_prefix(),
            let_word@ == let_prefix(),
            ctx.well_formed(),
            compiled(src@) == compiled_from(
                chars@,
                i as int,
                Compiled { ops: ctx.program(), inputs: inputs@ },
            ),
        decreases chars.len() - i,
    {
        let ghost acc = Compiled { ops: ctx.program(), inputs: inputs@ };
        let end: usize = find_from(&chars, '\n', i);
        let raw = sub_vec(&chars, i, end);
        let line = trim(&raw);
        if has_prefix(&line, &input_word) {
            let rest = sub_vec(&line, input_word.len(), line.len());
            let split: usize = find_from(&rest, '=', 0);
            if split < rest.len() {
                let name = trim(&sub_vec(&rest, 0, split));
                let text = trim(&strip_semicolons(&sub_vec(&rest, split + 1, rest.len())));
                match parse_i64(&text) {
                    Some(value) => {
                        inputs.insert(slice_to_string(&name, 0, name.len()), value);
                        assert(name@.subrange(0, name@.len() as int) =~= name@);
                    },
                    None => {
                        assert(text@.subrange(0, text@.len() as int) =~= text@);
                        return Err(
                            CompileError::InputValue(slice_to_string(&text, 0, text.len())),
                        );
                    },
                }
            }
        } else if has_prefix(&line, &let_word) {
            let expression = strip_semicolons(&line);
            let source = slice_to_string(&expression, 0, expression.len());
            assert(source@ =~= expression@);
            match parse_dsl(source.as_str()) {
                Ok(ast) => {
                    ctx.lower(ast);
                },
                Err(e) => {
                    return Err(CompileError::Statement(e));
                },
            }
        }
        proof {
            assert(with_line(acc, line@) == Ok::<Compiled, CompileErrorView>(
                Compiled { ops: ctx.program(), inputs: inputs@ },
            ));
        }
        if end < chars.len() {
            i = end + 1;
        } else {
            i = end;
        }
    }
    Ok((ctx.finish(), inputs))
}

} // verus!
