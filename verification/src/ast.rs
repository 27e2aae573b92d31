//! The syntax tree of a statement.

use vstd::prelude::*;

verus! {

/// An arithmetic expression. Every node owns its children.
#[derive(Debug)]
pub enum Expr {
    /// A variable, by name.
    Var(String),
    /// An integer constant.
    Const(i64),
    /// The sum of two expressions.
    Add(Box<Expr>, Box<Expr>),
    /// The product of two expressions.
    Mul(Box<Expr>, Box<Expr>),
}

/// The statement `let <var> = <expr>;`.
#[derive(Debug)]
pub struct Statement {
    pub var: String,
    pub expr: Expr,
}

/// The mathematical form of an [`Expr`], with names as character sequences.
pub enum ExprView {
    Var(Seq<char>),
    Const(i64),
    Add(Box<ExprView>, Box<ExprView>),
    Mul(Box<ExprView>, Box<ExprView>),
}

/// The mathematical form of a [`Statement`].
pub struct StatementView {
    pub var: Seq<char>,
    pub expr: ExprView,
}

impl Expr {
    /// The mathematical form of the expression.
    pub open spec fn as_view(self) -> ExprView
        decreases self,
    {
        match self {
            Expr::Var(name) => ExprView::Var(name@),
            Expr::Const(value) => ExprView::Const(value),
            Expr::Add(left, right) => ExprView::Add(
                Box::new((*left).as_view()),
                Box::new((*right).as_view()),
            ),
            Expr::Mul(left, right) => ExprView::Mul(
                Box::new((*left).as_view()),
                Box::new((*right).as_view()),
            ),
        }
    }
}

impl View for Expr {
    type V = ExprView;

    open spec fn view(&self) -> ExprView {
        self.as_view()
    }
}

impl View for Statement {
    type V = StatementView;

    open spec fn view(&self) -> StatementView {
        StatementView { var: self.var@, expr: self.expr@ }
    }
}

impl ExprView {
    /// How many constants the expression holds.
    pub open spec fn consts(self) -> nat
        decreases self,
    {
        match self {
            ExprView::Var(_) => 0,
            ExprView::Const(_) => 1,
            ExprView::Add(left, right) => left.consts() + right.consts(),
            ExprView::Mul(left, right) => left.consts() + right.consts(),
        }
    }

    /// How many additions and multiplications the expression holds.
    pub open spec fn ariths(self) -> nat
        decreases self,
    {
        match self {
            ExprView::Var(_) => 0,
            ExprView::Const(_) => 0,
            ExprView::Add(left, right) => left.ariths() + right.ariths() + 1,
            ExprView::Mul(left, right) => left.ariths() + right.ariths() + 1,
        }
    }

    /// The names of the variables that occur in the expression.
    pub open spec fn vars(self) -> Set<Seq<char>>
        decreases self,
    {
        match self {
            ExprView::Var(name) => set![name],
            ExprView::Const(_) => Set::empty(),
            ExprView::Add(left, right) => left.vars().union(right.vars()),
            ExprView::Mul(left, right) => left.vars().union(right.vars()),
        }
    }
}

} // verus!
