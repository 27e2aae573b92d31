//! Character classes, decimal numerals and conversions between strings and
//! character vectors.

use vstd::prelude::*;

verus! {

broadcast use vstd::string::group_string_axioms;

/// `String::push` appends one character at the end of the string and leaves
/// the characters before it as they were.
pub assume_specification[ String::push ](s: &mut String, c: char)
    ensures
        final(s)@ == old(s)@.push(c),
;

/// Whether `c` is white space: a character with the Unicode property
/// `White_Space`.
pub open spec fn is_space(c: char) -> bool {
    ||| '\u{9}' <= c <= '\u{d}'
    ||| c == ' '
    ||| c == '\u{85}'
    ||| c == '\u{a0}'
    ||| c == '\u{1680}'
    ||| '\u{2000}' <= c <= '\u{200a}'
    ||| c == '\u{2028}'
    ||| c == '\u{2029}'
    ||| c == '\u{202f}'
    ||| c == '\u{205f}'
    ||| c == '\u{3000}'
}

/// Whether `c` is one of the ten decimal digits.
pub open spec fn is_digit(c: char) -> bool {
    '0' <= c <= '9'
}

/// Whether `c` is an unaccented Latin letter.
pub open spec fn is_letter(c: char) -> bool {
    ('a' <= c <= 'z') || ('A' <= c <= 'Z')
}

/// Whether an identifier may begin with `c`.
pub open spec fn is_ident_start(c: char) -> bool {
    is_letter(c) || c == '_'
}

/// Whether an identifier may continue with `c`.
pub open spec fn is_ident_part(c: char) -> bool {
    is_letter(c) || is_digit(c) || c == '_'
}

/// Whether `c` is white space.
pub fn char_is_space(c: char) -> (b: bool)
    ensures
        b == is_space(c),
{
    (c >= '\u{9}' && c <= '\u{d}') || c == ' ' || c == '\u{85}' || c == '\u{a0}' || c
        == '\u{1680}' || (c >= '\u{2000}' && c <= '\u{200a}') || c == '\u{2028}' || c
        == '\u{2029}' || c == '\u{202f}' || c == '\u{205f}' || c == '\u{3000}'
}

/// Whether `c` is a decimal digit.
pub fn char_is_digit(c: char) -> (b: bool)
    ensures
        b == is_digit(c),
{
    c >= '0' && c <= '9'
}

/// Whether an identifier may begin with `c`.
pub fn char_is_ident_start(c: char) -> (b: bool)
    ensures
        b == is_ident_start(c),
{
    (c >= 'a' && c <= 'z') || (c >= 'A' && c <= 'Z') || c == '_'
}

/// Whether an identifier may continue with `c`.
pub fn char_is_ident_part(c: char) -> (b: bool)
    ensures
        b == is_ident_part(c),
{
    char_is_ident_start(c) || char_is_digit(c)
}

/// The number that the digit `c` stands for.
pub open spec fn digit_value(c: char) -> nat
    recommends
        is_digit(c),
{
    (c as int - '0' as int) as nat
}

/// The digit that stands for `d`.
pub open spec fn digit_char(d: nat) -> char
    recommends
        d < 10,
{
    ('0' as int + d) as char
}

/// The number that a sequence of digits denotes in base ten; zero for the
/// empty sequence.
pub open spec fn decimal_value(digits: Seq<char>) -> nat
    decreases digits.len(),
{
    if digits.len() == 0 {
        0
    } else {
        decimal_value(digits.drop_last()) * 10 + digit_value(digits.last())
    }
}

/// The shortest decimal numeral of `n`.
pub open spec fn decimal(n: nat) -> Seq<char>
    decreases n,
{
    if n < 10 {
        seq![digit_char(n)]
    } else {
        decimal(n / 10).push(digit_char(n % 10))
    }
}

/// Whether every element of `s` is a digit.
pub open spec fn all_digits(s: Seq<char>) -> bool {
    forall|i: int| 0 <= i < s.len() ==> is_digit(#[trigger] s[i])
}

/// A numeral is a non-empty run of digits that denotes its number.
pub proof fn lemma_decimal_round_trip(n: nat)
    ensures
        decimal(n).len() >= 1,
        all_digits(decimal(n)),
        decimal_value(decimal(n)) == n,
    decreases n,
{
    if n < 10 {
        let s = decimal(n);
        assert(decimal_value(s.drop_last()) == 0);
    } else {
        lemma_decimal_round_trip(n / 10);
        let s = decimal(n);
        assert(s.drop_last() =~= decimal(n / 10));
    }
}

/// Different numbers have different numerals.
pub proof fn lemma_decimal_injective(a: nat, b: nat)
    requires
        decimal(a) == decimal(b),
    ensures
        a == b,
{
    lemma_decimal_round_trip(a);
    lemma_decimal_round_trip(b);
}

/// Reading one more digit multiplies the value by ten and adds the digit.
pub proof fn lemma_decimal_value_step(digits: Seq<char>, n: int)
    requires
        0 <= n < digits.len(),
    ensures
        decimal_value(digits.take(n + 1)) == decimal_value(digits.take(n)) * 10 + digit_value(
            digits[n],
        ),
{
    let longer = digits.take(n + 1);
    assert(longer.drop_last() =~= digits.take(n));
}

/// The value of a longer run of digits is no smaller than that of a part it
/// begins with.
pub proof fn lemma_decimal_value_grows(digits: Seq<char>, n: int)
    requires
        0 <= n <= digits.len(),
    ensures
        decimal_value(digits.take(n)) <= decimal_value(digits),
    decreases digits.len(),
{
    if n == digits.len() {
        assert(digits.take(n) =~= digits);
    } else {
        lemma_decimal_value_grows(digits.drop_last(), n);
        assert(digits.drop_last().take(n) =~= digits.take(n));
    }
}

/// The characters of `s`, in order.
pub fn to_chars(s: &str) -> (v: Vec<char>)
    ensures
        v@ == s@,
{
    let mut v: Vec<char> = Vec::new();
    for c in it: s.chars()
        invariant
            v@ == it.seq().take(it.index() as int),
            it.seq() == s@,
    {
        v.push(c);
    }
    v
}

/// The string that holds `c` and nothing else.
pub fn char_to_string(c: char) -> (s: String)
    ensures
        s@ == seq![c],
{
    let mut s = String::new();
    s.push(c);
    assert(s@ =~= seq![c]);
    s
}

/// The string made of `chars[from..to]`.
pub fn slice_to_string(chars: &Vec<char>, from: usize, to: usize) -> (s: String)
    requires
        from <= to <= chars.len(),
    ensures
        s@ == chars@.subrange(from as int, to as int),
{
    let mut s = String::new();
    let mut i: usize = from;
    while i < to
        invariant
            from <= i <= to <= chars.len(),
            s@ == chars@.subrange(from as int, i as int),
        decreases to - i,
    {
        s.push(chars[i]);
        assert(chars@.subrange(from as int, i as int).push(chars@[i as int])
            =~= chars@.subrange(from as int, i + 1));
        i += 1;
    }
    s
}

/// Appends the decimal numeral of `n` to `s`.
pub fn push_decimal(s: &mut String, n: usize)
    ensures
        final(s)@ == old(s)@ + decimal(n as nat),
    decreases n,
{
    if n >= 10 {
        push_decimal(s, n / 10);
    }
    let d: u8 = (n % 10) as u8;
    s.push((48u8 + d) as char);
    proof {
        let c = digit_char((n % 10) as nat);
        if n < 10 {
            assert(old(s)@.push(c) =~= old(s)@ + decimal(n as nat));
        } else {
            assert((old(s)@ + decimal((n / 10) as nat)).push(c) =~= old(s)@ + decimal(n as nat));
        }
    }
}

} // verus!
