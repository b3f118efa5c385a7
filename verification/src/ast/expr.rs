//! Expressions.

use vstd::prelude::*;
use crate::number::{Decimal, DecimalView};

verus! {

/// An operator that stands between two operands.
#[derive(Copy, Clone, Debug, PartialEq, Eq, Structural)]
pub enum BinaryOperator {
    LogicAnd,
    LogicOr,
    Plus,
    Minus,
    Star,
    Slash,
    Equal,
    NotEqual,
    LessEqual,
    GreaterEqual,
    Less,
    Greater,
}

/// An operator that stands before its operand.
#[derive(Copy, Clone, Debug, PartialEq, Eq, Structural)]
pub enum UnaryOperator {
    LogicNot,
}

/// A literal value as the source wrote it.
#[derive(Debug, PartialEq)]
pub enum Literal {
    Char(char),
    String(String),
    Integer(i64),
    Real(Decimal),
    Boolean(bool),
}

/// A [`Literal`] with its text as plain sequences of characters.
pub enum LiteralView {
    Char(char),
    String(Seq<char>),
    Integer(i64),
    Real(DecimalView),
    Boolean(bool),
}

impl View for Literal {
    type V = LiteralView;

    open spec fn view(&self) -> LiteralView {
        match self {
            Literal::Char(c) => LiteralView::Char(*c),
            Literal::String(s) => LiteralView::String(s@),
            Literal::Integer(i) => LiteralView::Integer(*i),
            Literal::Real(d) => LiteralView::Real(d@),
            Literal::Boolean(b) => LiteralView::Boolean(*b),
        }
    }
}

/// An expression. Every node owns its children.
#[derive(Debug, PartialEq)]
#[allow(inconsistent_fields)]
pub enum Expr {
    Binary { left: Box<Expr>, operator: BinaryOperator, right: Box<Expr> },
    Unary { operator: UnaryOperator, right: Box<Expr> },
    FunctionCall { function: Box<Expr>, args: Vec<Expr> },
    ArrayIndex { array: Box<Expr>, indexes: Vec<Expr> },
    Identifier { handle: usize },
    Literal(Literal),
}

/// The tree that an [`Expr`] stands for, with sequences in place of vectors.
#[allow(inconsistent_fields)]
pub enum ExprView {
    Binary { left: Box<ExprView>, operator: BinaryOperator, right: Box<ExprView> },
    Unary { operator: UnaryOperator, right: Box<ExprView> },
    FunctionCall { function: Box<ExprView>, args: Seq<ExprView> },
    ArrayIndex { array: Box<ExprView>, indexes: Seq<ExprView> },
    Identifier { handle: nat },
    Literal(LiteralView),
}

/// The tree that `e` stands for.
pub open spec fn expr_view(e: Expr) -> ExprView
    decreases e,
{
    match e {
        Expr::Binary { left, operator, right } => ExprView::Binary {
            left: Box::new(expr_view(*left)),
            operator,
            right: Box::new(expr_view(*right)),
        },
        Expr::Unary { operator, right } => ExprView::Unary {
            operator,
            right: Box::new(expr_view(*right)),
        },
        Expr::FunctionCall { function, args } => ExprView::FunctionCall {
            function: Box::new(expr_view(*function)),
            args: Seq::new(
                args@.len(),
                |i: int|
                    if 0 <= i < args@.len() {
                        expr_view(args@[i])
                    } else {
                        arbitrary()
                    },
            ),
        },
        Expr::ArrayIndex { array, indexes } => ExprView::ArrayIndex {
            array: Box::new(expr_view(*array)),
            indexes: Seq::new(
                indexes@.len(),
                |i: int|
                    if 0 <= i < indexes@.len() {
                        expr_view(indexes@[i])
                    } else {
                        arbitrary()
                    },
            ),
        },
        Expr::Identifier { handle } => ExprView::Identifier { handle: handle as nat },
        Expr::Literal(l) => ExprView::Literal(l@),
    }
}

impl View for Expr {
    type V = ExprView;

    open spec fn view(&self) -> ExprView {
        expr_view(*self)
    }
}

/// The trees that a run of expressions stands for, in order.
pub open spec fn expr_views(exprs: Seq<Expr>) -> Seq<ExprView> {
    exprs.map_values(|e: Expr| e@)
}

/// The view of a call holds the views of its arguments, and the view of an
/// index expression the views of its indexes.
pub proof fn lemma_view_of_lists(e: Expr)
    ensures
        e matches Expr::FunctionCall { function, args } ==> e@ == (ExprView::FunctionCall {
            function: Box::new(function@),
            args: expr_views(args@),
        }),
        e matches Expr::ArrayIndex { array, indexes } ==> e@ == (ExprView::ArrayIndex {
            array: Box::new(array@),
            indexes: expr_views(indexes@),
        }),
{
    match e {
        Expr::FunctionCall { function, args } => {
            assert(e@->FunctionCall_args =~= expr_views(args@));
        },
        Expr::ArrayIndex { array, indexes } => {
            assert(e@->ArrayIndex_indexes =~= expr_views(indexes@));
        },
        _ => {},
    }
}

impl ExprView {
    /// Whether every identifier in the tree has a handle below `bound`.
    pub open spec fn handles_below(self, bound: int) -> bool
        decreases self,
    {
        match self {
            ExprView::Binary { left, operator, right } => left.handles_below(bound)
                && right.handles_below(bound),
            ExprView::Unary { operator, right } => right.handles_below(bound),
            ExprView::FunctionCall { function, args } => function.handles_below(bound) && (
            forall|i: int| 0 <= i < args.len() ==> (#[trigger] args[i]).handles_below(bound)),
            ExprView::ArrayIndex { array, indexes } => array.handles_below(bound) && (forall|
                i: int,
            |
                0 <= i < indexes.len() ==> (#[trigger] indexes[i]).handles_below(bound)),
            ExprView::Identifier { handle } => handle < bound,
            ExprView::Literal(_) => true,
        }
    }
}

/// Whether every identifier in each of the trees has a handle below `bound`.
pub open spec fn exprs_below(exprs: Seq<ExprView>, bound: int) -> bool {
    forall|i: int| 0 <= i < exprs.len() ==> (#[trigger] exprs[i]).handles_below(bound)
}

/// Handles that lie below a bound lie below every larger one.
pub proof fn lemma_handles_below_grows(e: ExprView, bound: int, larger: int)
    requires
        e.handles_below(bound),
        bound <= larger,
    ensures
        e.handles_below(larger),
    decreases e,
{
    match e {
        ExprView::Binary { left, operator, right } => {
            lemma_handles_below_grows(*left, bound, larger);
            lemma_handles_below_grows(*right, bound, larger);
        },
        ExprView::Unary { operator, right } => {
            lemma_handles_below_grows(*right, bound, larger);
        },
        ExprView::FunctionCall { function, args } => {
            lemma_handles_below_grows(*function, bound, larger);
            assert forall|i: int| 0 <= i < args.len() implies (#[trigger] args[i]).handles_below(
                larger,
            ) by {
                lemma_handles_below_grows(args[i], bound, larger);
            }
        },
        ExprView::ArrayIndex { array, indexes } => {
            lemma_handles_below_grows(*array, bound, larger);
            assert forall|i: int| 0 <= i < indexes.len() implies (
            #[trigger] indexes[i]).handles_below(larger) by {
                lemma_handles_below_grows(indexes[i], bound, larger);
            }
        },
        ExprView::Identifier { handle } => {},
        ExprView::Literal(_) => {},
    }
}

/// The same for a run of trees.
pub proof fn lemma_exprs_below_grows(exprs: Seq<ExprView>, bound: int, larger: int)
    requires
        exprs_below(exprs, bound),
        bound <= larger,
    ensures
        exprs_below(exprs, larger),
{
    assert forall|i: int| 0 <= i < exprs.len() implies (#[trigger] exprs[i]).handles_below(
        larger,
    ) by {
        lemma_handles_below_grows(exprs[i], bound, larger);
    }
}

} // verus!
