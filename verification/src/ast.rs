//! The abstract syntax tree that the parser builds.

pub mod expr;
pub mod stmt;

pub use expr::{BinaryOperator, Expr, ExprView, Literal, LiteralView, UnaryOperator};
pub use stmt::{
    Block, BlockView, Parameter, ParameterView, PrimitiveType, Stmt, StmtView, Type,
};
