//! A recursive-descent parser for statements, working on a character cursor.

use crate::ast::{Expr, ExprView, Statement, StatementView};
use crate::grammar::{
    digit_run, expr_at, ident_run, identifier_at, let_keyword, number_at, parsed, primary_at,
    product_rest, skip_spaces, statement_at, sum_rest, term_at, ParseErrorView,
};
use crate::text::{
    char_is_digit, char_is_ident_part, char_is_ident_start, char_is_space, char_to_string,
    decimal_value,
    is_digit, lemma_decimal_value_grows, slice_to_string, to_chars,
};
use vstd::prelude::*;

verus! {

/// Why a text is not a statement.
#[derive(Debug)]
pub enum ParseError {
    /// The character found where a primary should begin, where a closing
    /// parenthesis should stand, or behind the complete statement.
    UnexpectedToken(String),
    /// The text ends where a primary should begin or where a closing
    /// parenthesis should stand.
    UnexpectedEOF,
    /// A run of digits that denotes no `i64`.
    InvalidNumber(String),
    /// No `=` behind the target of the statement.
    ExpectedEquals,
    /// No identifier where the keyword or the target should stand.
    ExpectedIdentifier,
    /// The statement begins with an identifier other than `let`.
    ExpectedLet,
}

impl View for ParseError {
    type V = ParseErrorView;

    open spec fn view(&self) -> ParseErrorView {
        match self {
            ParseError::UnexpectedToken(found) => ParseErrorView::UnexpectedToken(found@),
            ParseError::UnexpectedEOF => ParseErrorView::UnexpectedEOF,
            ParseError::InvalidNumber(text) => ParseErrorView::InvalidNumber(text@),
            ParseError::ExpectedEquals => ParseErrorView::ExpectedEquals,
            ParseError::ExpectedIdentifier => ParseErrorView::ExpectedIdentifier,
            ParseError::ExpectedLet => ParseErrorView::ExpectedLet,
        }
    }
}

/// A cursor into the characters of the text being parsed.
struct Parser {
    chars: Vec<char>,
    pos: usize,
}

impl Parser {
    spec fn text(&self) -> Seq<char> {
        self.chars@
    }

    spec fn at(&self) -> int {
        self.pos as int
    }

    spec fn well_formed(&self) -> bool {
        self.pos <= self.chars.len()
    }

    /// Whether `self` is the cursor `before` moved forward.
    spec fn follows(&self, before: &Parser) -> bool {
        &&& self.well_formed()
        &&& self.text() == before.text()
        &&& before.at() <= self.at()
    }

    fn new(input: &str) -> (parser: Self)
        ensures
            parser.well_formed(),
            parser.text() == input@,
            parser.at() == 0,
    {
        Parser { chars: to_chars(input), pos: 0 }
    }

    /// The character under the cursor, if the text has not ended.
    fn current(&self) -> (c: Option<char>)
        requires
            self.well_formed(),
        ensures
            c == if self.at() < self.text().len() {
                Some(self.text()[self.at()])
            } else {
                None::<char>
            },
    {
        if self.pos < self.chars.len() {
            Some(self.chars[self.pos])
        } else {
            None
        }
    }

    /// Moves the cursor one character forward, unless the text has ended,
    /// and returns the character then under it.
    fn next_char(&mut self) -> (c: Option<char>)
        requires
            old(self).well_formed(),
        ensures
            final(self).follows(old(self)),
            final(self).at() == if old(self).at() < old(self).text().len() {
                old(self).at() + 1
            } else {
                old(self).at()
            },
            c == if final(self).at() < final(self).text().len() {
                Some(final(self).text()[final(self).at()])
            } else {
                None::<char>
            },
    {
        if self.pos < self.chars.len() {
            self.pos += 1;
        }
        self.current()
    }

    fn skip_whitespace(&mut self)
        requires
            old(self).well_formed(),
        ensures
            final(self).follows(old(self)),
            final(self).at() == skip_spaces(old(self).text(), old(self).at()),
    {
        while self.pos < self.chars.len() && char_is_space(self.chars[self.pos])
            invariant
                self.follows(old(self)),
                skip_spaces(self.text(), self.at()) == skip_spaces(old(self).text(), old(self).at()),
            decreases self.chars.len() - self.pos,
        {
            self.pos += 1;
        }
    }

    fn parse_number(&mut self) -> (result: Result<i64, ParseError>)
        requires
            old(self).well_formed(),
        ensures
            final(self).follows(old(self)),
            match result {
                Ok(value) => number_at(old(self).text(), old(self).at()) == Ok::<
                    (i64, int),
                    ParseErrorView,
                >((value, final(self).at())),
                Err(e) => number_at(old(self).text(), old(self).at()) == Err::<
                    (i64, int),
                    ParseErrorView,
                >(e@),
            },
    {
        let start: usize = self.pos;
        while self.pos < self.chars.len() && char_is_digit(self.chars[self.pos])
            invariant
                self.follows(old(self)),
                start == old(self).at(),
                forall|j: int| start <= j < self.at() ==> is_digit(#[trigger] self.text()[j]),
                self.at() + digit_run(self.text(), self.at()) == start + digit_run(
                    self.text(),
                    start as int,
                ),
            decreases self.chars.len() - self.pos,
        {
            self.pos += 1;
        }
        let end: usize = self.pos;
        let ghost digits = self.text().subrange(start as int, end as int);
        if end == start {
            return Err(ParseError::InvalidNumber(slice_to_string(&self.chars, start, end)));
        }
        let mut value: i64 = 0;
        let mut k: usize = start;
        while k < end
            invariant
                self.follows(old(self)),
                start == old(self).at(),
                end == self.at(),
                end == start + digit_run(self.text(), start as int),
                start <= k <= end <= self.chars.len(),
                digits == self.text().subrange(start as int, end as int),
                forall|j: int| start <= j < end ==> is_digit(#[trigger] self.text()[j]),
                value == decimal_value(digits.take(k - start)),
            decreases end - k,
        {
            let c: char = self.chars[k];
            let d: i64 = (c as u32 - '0' as u32) as i64;
            proof {
                let longer = digits.take(k + 1 - start);
                assert(longer.drop_last() =~= digits.take(k - start));
                lemma_decimal_value_grows(digits, k + 1 - start);
            }
            let next: Option<i64> = match value.checked_mul(10) {
                Some(tens) => tens.checked_add(d),
                None => None,
            };
            match next {
                Some(v) => {
                    value = v;
                },
                None => {
                    return Err(ParseError::InvalidNumber(slice_to_string(&self.chars, start, end)));
                },
            }
            k += 1;
        }
        proof {
            assert(digits.take(end - start) =~= digits);
        }
        Ok(value)
    }

    fn parse_identifier(&mut self) -> (result: Result<String, ParseError>)
        requires
            old(self).well_formed(),
        ensures
            final(self).follows(old(self)),
            match result {
                Ok(name) => identifier_at(old(self).text(), old(self).at()) == Ok::<
                    (Seq<char>, int),
                    ParseErrorView,
                >((name@, final(self).at())),
                Err(e) => identifier_at(old(self).text(), old(self).at()) == Err::<
                    (Seq<char>, int),
                    ParseErrorView,
                >(e@),
            },
    {
        let start: usize = self.pos;
        if let Some(c) = self.current() {
            if !char_is_ident_start(c) {
                return Err(ParseError::ExpectedIdentifier);
            }
            self.next_char();
        }
        while self.pos < self.chars.len() && char_is_ident_part(self.chars[self.pos])
            invariant
                self.follows(old(self)),
                start == old(self).at(),
                self.at() > start ==> self.at() + ident_run(self.text(), self.at()) == start + 1
                    + ident_run(self.text(), start + 1),
                self.at() == start ==> start == self.text().len(),
            decreases self.chars.len() - self.pos,
        {
            self.pos += 1;
        }
        if self.pos == start {
            Err(ParseError::ExpectedIdentifier)
        } else {
            Ok(slice_to_string(&self.chars, start, self.pos))
        }
    }

    fn parse_primary(&mut self) -> (result: Result<Expr, ParseError>)
        requires
            old(self).well_formed(),
        ensures
            final(self).follows(old(self)),
            match result {
                Ok(expr) => primary_at(old(self).text(), old(self).at()) == Ok::<
                    (ExprView, int),
                    ParseErrorView,
                >((expr@, final(self).at())),
                Err(e) => primary_at(old(self).text(), old(self).at()) == Err::<
                    (ExprView, int),
                    ParseErrorView,
                >(e@),
            },
        decreases old(self).text().len() - old(self).at(), 0int,
    {
        self.skip_whitespace();
        match self.current() {
            Some(c) => {
                if char_is_digit(c) {
                    let num = self.parse_number()?;
                    Ok(Expr::Const(num))
                } else if char_is_ident_start(c) {
                    let ident = self.parse_identifier()?;
                    Ok(Expr::Var(ident))
                } else if c == '(' {
                    self.next_char();
                    let expr = self.parse_expr()?;
                    self.skip_whitespace();
                    match self.current() {
                        Some(')') => {
                            self.next_char();
                            Ok(expr)
                        },
                        Some(found) => Err(ParseError::UnexpectedToken(char_to_string(found))),
                        None => Err(ParseError::UnexpectedEOF),
                    }
                } else {
                    Err(ParseError::UnexpectedToken(char_to_string(c)))
                }
            },
            None => Err(ParseError::UnexpectedEOF),
        }
    }

    fn parse_term(&mut self) -> (result: Result<Expr, ParseError>)
        requires
            old(self).well_formed(),
        ensures
            final(self).follows(old(self)),
            match result {
                Ok(expr) => term_at(old(self).text(), old(self).at()) == Ok::<
                    (ExprView, int),
                    ParseErrorView,
                >((expr@, final(self).at())),
                Err(e) => term_at(old(self).text(), old(self).at()) == Err::<
                    (ExprView, int),
                    ParseErrorView,
                >(e@),
            },
        decreases old(self).text().len() - old(self).at(), 3int,
    {
        let ghost s = self.text();
        let ghost goal = term_at(s, self.at());
        let ghost mut from = self.at();
        let mut left = self.parse_primary()?;
        loop
            invariant
                self.follows(old(self)),
                s == self.text(),
                old(self).at() <= from <= self.at(),
                goal == term_at(s, old(self).at()),
                goal == product_rest(s, left@, self.at(), from),
            decreases s.len() - from,
        {
            self.skip_whitespace();
            match self.current() {
                Some('*') => {
                    self.next_char();
                    proof {
                        from = self.at();
                    }
                    let right = self.parse_primary()?;
                    left = Expr::Mul(Box::new(left), Box::new(right));
                },
                _ => {
                    return Ok(left);
                },
            }
        }
    }

    fn parse_expr(&mut self) -> (result: Result<Expr, ParseError>)
        requires
            old(self).well_formed(),
        ensures
            final(self).follows(old(self)),
            match result {
                Ok(expr) => expr_at(old(self).text(), old(self).at()) == Ok::<
                    (ExprView, int),
                    ParseErrorView,
                >((expr@, final(self).at())),
                Err(e) => expr_at(old(self).text(), old(self).at()) == Err::<
                    (ExprView, int),
                    ParseErrorView,
                >(e@),
            },
        decreases old(self).text().len() - old(self).at(), 5int,
    {
        let ghost s = self.text();
        let ghost goal = expr_at(s, self.at());
        let ghost mut from = self.at();
        let mut left = self.parse_term()?;
        loop
            invariant
                self.follows(old(self)),
                s == self.text(),
                old(self).at() <= from <= self.at(),
                goal == expr_at(s, old(self).at()),
                goal == sum_rest(s, left@, self.at(), from),
            decreases s.len() - from,
        {
            self.skip_whitespace();
            match self.current() {
                Some('+') => {
                    self.next_char();
                    proof {
                        from = self.at();
                    }
                    let right = self.parse_term()?;
                    left = Expr::Add(Box::new(left), Box::new(right));
                },
                _ => {
                    return Ok(left);
                },
            }
        }
    }

    /// Whether `chars[from..to]` is the keyword `let`.
    fn is_let(&self, from: usize, to: usize) -> (b: bool)
        requires
            from <= to <= self.chars.len(),
        ensures
            b == (self.text().subrange(from as int, to as int) == let_keyword()),
    {
        let ghost word = self.text().subrange(from as int, to as int);
        if to - from != 3 {
            assert(word.len() != let_keyword().len());
            return false;
        }
        let b = self.chars[from] == 'l' && self.chars[from + 1] == 'e' && self.chars[from + 2]
            == 't';
        proof {
            if b {
                assert(word =~= let_keyword());
            }
        }
        b
    }

    fn parse_statement(&mut self) -> (result: Result<Statement, ParseError>)
        requires
            old(self).well_formed(),
            old(self).at() == 0,
        ensures
            final(self).follows(old(self)),
            match result {
                Ok(statement) => statement_at(old(self).text()) == Ok::<
                    (StatementView, int),
                    ParseErrorView,
                >((statement@, final(self).at())),
                Err(e) => statement_at(old(self).text()) == Err::<
                    (StatementView, int),
                    ParseErrorView,
                >(e@),
            },
    {
        self.skip_whitespace();

        let keyword_start: usize = self.pos;
        let _keyword = self.parse_identifier()?;
        if !self.is_let(keyword_start, self.pos) {
            return Err(ParseError::ExpectedLet);
        }
        self.skip_whitespace();

        let var = self.parse_identifier()?;

        self.skip_whitespace();

        match self.current() {
            Some('=') => {
                self.next_char();
            },
            _ => {
                return Err(ParseError::ExpectedEquals);
            },
        }

        let expr = self.parse_expr()?;

        self.skip_whitespace();
        if self.current() == Some(';') {
            self.next_char();
        }

        self.skip_whitespace();
        match self.current() {
            Some(found) => Err(ParseError::UnexpectedToken(char_to_string(found))),
            None => Ok(Statement { var, expr }),
        }
    }
}

/// Parses one statement.
///
/// Returns the statement that `input` is, as the grammar reads it, or the
/// first violation of the grammar.  The whole of `input` has to be the
/// statement: what stands behind it, other than white space, is an
/// unexpected token.
pub fn parse_dsl(input: &str) -> (result: Result<Statement, ParseError>)
    ensures
        match result {
            Ok(statement) => parsed(input@) == Ok::<StatementView, ParseErrorView>(statement@),
            Err(e) => parsed(input@) == Err::<StatementView, ParseErrorView>(e@),
        },
{
    let mut parser = Parser::new(input);
    parser.parse_statement()
}

} // verus!
