//! Statements, blocks and types.

use vstd::prelude::*;
use crate::ast::expr::{
    Expr, ExprView, Literal, LiteralView, expr_views, exprs_below, lemma_exprs_below_grows,
    lemma_handles_below_grows,
};

verus! {

/// One of the built-in types.
#[derive(Copy, Clone, Debug, PartialEq, Eq, Structural)]
pub enum PrimitiveType {
    Integer,
    Real,
    String,
    Char,
    Boolean,
}

/// The type of a variable, a parameter or a function's result.
#[derive(Copy, Clone, Debug, PartialEq, Eq, Structural)]
pub enum Type {
    Primitive(PrimitiveType),
}

/// A parameter of a procedure or function.
#[derive(Debug, PartialEq)]
pub struct Parameter {
    pub name: Expr,
    pub type_: Type,
}

/// The model of a [`Parameter`].
pub struct ParameterView {
    pub name: ExprView,
    pub type_: Type,
}

impl View for Parameter {
    type V = ParameterView;

    open spec fn view(&self) -> ParameterView {
        ParameterView { name: self.name@, type_: self.type_ }
    }
}

/// The models of a run of parameters, in order.
pub open spec fn parameter_views(params: Seq<Parameter>) -> Seq<ParameterView> {
    params.map_values(|p: Parameter| p@)
}

/// Statements in the order in which they run.
#[derive(Debug, PartialEq)]
pub struct Block {
    pub contents: Vec<Stmt>,
}

/// A statement. Every node owns its expressions and blocks.
#[derive(Debug, PartialEq)]
#[allow(inconsistent_fields)]
pub enum Stmt {
    ProcedureDecl { name: Expr, params: Vec<Parameter>, body: Block },
    FunctionDecl { name: Expr, params: Vec<Parameter>, return_type: Type, body: Block },
    VariableDecl { name: Expr, type_: Type },
    ConstantDecl { name: Expr, value: Literal },
    If { condition: Expr, then_branch: Block, else_branch: Option<Block> },
    ForLoop { target: Expr, start: Expr, end: Expr, step: Option<Expr>, body: Block },
    RepeatUntil { condition: Expr, body: Block },
    While { condition: Expr, body: Block },
    Return(Expr),
    Input(Vec<Expr>),
    Output(Vec<Expr>),
    Assignment { target: Expr, value: Expr },
}

/// The model of a [`Block`].
pub struct BlockView {
    pub contents: Seq<StmtView>,
}

/// The model of a [`Stmt`], with sequences in place of vectors.
#[allow(inconsistent_fields)]
pub enum StmtView {
    ProcedureDecl { name: ExprView, params: Seq<ParameterView>, body: BlockView },
    FunctionDecl { name: ExprView, params: Seq<ParameterView>, return_type: Type, body: BlockView },
    VariableDecl { name: ExprView, type_: Type },
    ConstantDecl { name: ExprView, value: LiteralView },
    If { condition: ExprView, then_branch: BlockView, else_branch: Option<BlockView> },
    ForLoop {
        target: ExprView,
        start: ExprView,
        end: ExprView,
        step: Option<ExprView>,
        body: BlockView,
    },
    RepeatUntil { condition: ExprView, body: BlockView },
    While { condition: ExprView, body: BlockView },
    Return(ExprView),
    Input(Seq<ExprView>),
    Output(Seq<ExprView>),
    Assignment { target: ExprView, value: ExprView },
}

/// The model of the statement `s`.
pub open spec fn stmt_view(s: Stmt) -> StmtView
    decreases s,
{
    match s {
        Stmt::ProcedureDecl { name, params, body } => StmtView::ProcedureDecl {
            name: name@,
            params: parameter_views(params@),
            body: block_view(body),
        },
        Stmt::FunctionDecl { name, params, return_type, body } => StmtView::FunctionDecl {
            name: name@,
            params: parameter_views(params@),
            return_type,
            body: block_view(body),
        },
        Stmt::VariableDecl { name, type_ } => StmtView::VariableDecl { name: name@, type_ },
        Stmt::ConstantDecl { name, value } => StmtView::ConstantDecl { name: name@, value: value@ },
        Stmt::If { condition, then_branch, else_branch } => StmtView::If {
            condition: condition@,
            then_branch: block_view(then_branch),
            else_branch: match else_branch {
                Some(b) => Some(block_view(b)),
                None => None,
            },
        },
        Stmt::ForLoop { target, start, end, step, body } => StmtView::ForLoop {
            target: target@,
            start: start@,
            end: end@,
            step: match step {
                Some(e) => Some(e@),
                None => None,
            },
            body: block_view(body),
        },
        Stmt::RepeatUntil { condition, body } => StmtView::RepeatUntil {
            condition: condition@,
            body: block_view(body),
        },
        Stmt::While { condition, body } => StmtView::While {
            condition: condition@,
            body: block_view(body),
        },
        Stmt::Return(e) => StmtView::Return(e@),
        Stmt::Input(items) => StmtView::Input(expr_views(items@)),
        Stmt::Output(items) => StmtView::Output(expr_views(items@)),
        Stmt::Assignment { target, value } => StmtView::Assignment {
            target: target@,
            value: value@,
        },
    }
}

/// The model of the block `b`.
pub open spec fn block_view(b: Block) -> BlockView
    decreases b,
{
    BlockView {
        contents: Seq::new(
            b.contents@.len(),
            |i: int|
                if 0 <= i < b.contents@.len() {
                    stmt_view(b.contents@[i])
                } else {
                    arbitrary()
                },
        ),
    }
}

impl View for Stmt {
    type V = StmtView;

    open spec fn view(&self) -> StmtView {
        stmt_view(*self)
    }
}

impl View for Block {
    type V = BlockView;

    open spec fn view(&self) -> BlockView {
        block_view(*self)
    }
}

/// The models of a run of statements, in order.
pub open spec fn stmt_views(stmts: Seq<Stmt>) -> Seq<StmtView> {
    stmts.map_values(|s: Stmt| s@)
}

/// The model of a block holds the models of its statements.
pub proof fn lemma_view_of_block(b: Block)
    ensures
        b@.contents == stmt_views(b.contents@),
{
    assert(b@.contents =~= stmt_views(b.contents@));
}

/// Whether the name of each parameter has a handle below `bound`.
pub open spec fn parameters_below(params: Seq<ParameterView>, bound: int) -> bool {
    forall|i: int| 0 <= i < params.len() ==> (#[trigger] params[i]).name.handles_below(bound)
}

impl StmtView {
    /// Whether every identifier in the statement has a handle below `bound`.
    pub open spec fn handles_below(self, bound: int) -> bool
        decreases self,
    {
        match self {
            StmtView::ProcedureDecl { name, params, body } => name.handles_below(bound)
                && parameters_below(params, bound) && body.handles_below(bound),
            StmtView::FunctionDecl { name, params, return_type, body } => name.handles_below(
                bound,
            ) && parameters_below(params, bound) && body.handles_below(bound),
            StmtView::VariableDecl { name, type_ } => name.handles_below(bound),
            StmtView::ConstantDecl { name, value } => name.handles_below(bound),
            StmtView::If { condition, then_branch, else_branch } => condition.handles_below(bound)
                && then_branch.handles_below(bound) && (match else_branch {
                Some(b) => b.handles_below(bound),
                None => true,
            }),
            StmtView::ForLoop { target, start, end, step, body } => target.handles_below(bound)
                && start.handles_below(bound) && end.handles_below(bound) && (match step {
                Some(e) => e.handles_below(bound),
                None => true,
            }) && body.handles_below(bound),
            StmtView::RepeatUntil { condition, body } => condition.handles_below(bound)
                && body.handles_below(bound),
            StmtView::While { condition, body } => condition.handles_below(bound)
                && body.handles_below(bound),
            StmtView::Return(e) => e.handles_below(bound),
            StmtView::Input(items) => exprs_below(items, bound),
            StmtView::Output(items) => exprs_below(items, bound),
            StmtView::Assignment { target, value } => target.handles_below(bound)
                && value.handles_below(bound),
        }
    }

    /// Handles that lie below a bound lie below every larger one.
    pub proof fn lemma_handles_below_grows(self, bound: int, larger: int)
        requires
            self.handles_below(bound),
            bound <= larger,
        ensures
            self.handles_below(larger),
        decreases self,
    {
        match self {
            StmtView::ProcedureDecl { name, params, body } => {
                lemma_handles_below_grows(name, bound, larger);
                lemma_parameters_below_grows(params, bound, larger);
                body.lemma_handles_below_grows(bound, larger);
            },
            StmtView::FunctionDecl { name, params, return_type, body } => {
                lemma_handles_below_grows(name, bound, larger);
                lemma_parameters_below_grows(params, bound, larger);
                body.lemma_handles_below_grows(bound, larger);
            },
            StmtView::VariableDecl { name, type_ } => {
                lemma_handles_below_grows(name, bound, larger);
            },
            StmtView::ConstantDecl { name, value } => {
                lemma_handles_below_grows(name, bound, larger);
            },
            StmtView::If { condition, then_branch, else_branch } => {
                lemma_handles_below_grows(condition, bound, larger);
                then_branch.lemma_handles_below_grows(bound, larger);
                match else_branch {
                    Some(b) => {
                        b.lemma_handles_below_grows(bound, larger);
                    },
                    None => {},
                }
            },
            StmtView::ForLoop { target, start, end, step, body } => {
                lemma_handles_below_grows(target, bound, larger);
                lemma_handles_below_grows(start, bound, larger);
                lemma_handles_below_grows(end, bound, larger);
                match step {
                    Some(e) => {
                        lemma_handles_below_grows(e, bound, larger);
                    },
                    None => {},
                }
                body.lemma_handles_below_grows(bound, larger);
            },
            StmtView::RepeatUntil { condition, body } => {
                lemma_handles_below_grows(condition, bound, larger);
                body.lemma_handles_below_grows(bound, larger);
            },
            StmtView::While { condition, body } => {
                lemma_handles_below_grows(condition, bound, larger);
                body.lemma_handles_below_grows(bound, larger);
            },
            StmtView::Return(e) => {
                lemma_handles_below_grows(e, bound, larger);
            },
            StmtView::Input(items) => {
                lemma_exprs_below_grows(items, bound, larger);
            },
            StmtView::Output(items) => {
                lemma_exprs_below_grows(items, bound, larger);
            },
            StmtView::Assignment { target, value } => {
                lemma_handles_below_grows(target, bound, larger);
                lemma_handles_below_grows(value, bound, larger);
            },
        }
    }
}

impl BlockView {
    /// Whether every identifier in the block has a handle below `bound`.
    pub open spec fn handles_below(self, bound: int) -> bool
        decreases self,
    {
        forall|i: int|
            0 <= i < self.contents.len() ==> (#[trigger] self.contents[i]).handles_below(bound)
    }

    /// Handles that lie below a bound lie below every larger one.
    pub proof fn lemma_handles_below_grows(self, bound: int, larger: int)
        requires
            self.handles_below(bound),
            bound <= larger,
        ensures
            self.handles_below(larger),
        decreases self,
    {
        assert forall|i: int| 0 <= i < self.contents.len() implies (
        #[trigger] self.contents[i]).handles_below(larger) by {
            self.contents[i].lemma_handles_below_grows(bound, larger);
        }
    }
}

/// The same for the names of parameters.
pub proof fn lemma_parameters_below_grows(params: Seq<ParameterView>, bound: int, larger: int)
    requires
        parameters_below(params, bound),
        bound <= larger,
    ensures
        parameters_below(params, larger),
{
    assert forall|i: int| 0 <= i < params.len() implies (#[trigger] params[i]).name.handles_below(
        larger,
    ) by {
        lemma_handles_below_grows(params[i].name, bound, larger);
    }
}

} // verus!
