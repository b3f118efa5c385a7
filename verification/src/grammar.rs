//! The grammar, written as functions on a sequence of tokens.
//!
//! Each function takes the tokens, the position of the cursor and the names
//! interned so far, and gives what the parser must answer from there: the tree
//! or the error, where the cursor then stands, and the names then interned.
//!
//! The functions call one another as the grammar's rules do. Each has a
//! measure of two parts that falls with every such call: the number of tokens
//! from the cursor on, and a rank that orders the rules which call one another
//! without a token between them, the caller above the called.
//!
//! Some functions are opaque, so that a proof that only passes their answers
//! on does not unfold them; a proof about what they answer reveals them.

use vstd::prelude::*;
use crate::ast::expr::{BinaryOperator, ExprView, LiteralView, UnaryOperator};
use crate::ast::stmt::{BlockView, ParameterView, PrimitiveType, StmtView, Type};
use crate::scanner::{TokenTypeView, TokenView};

verus! {

/// Why a parse failed.
pub enum ParserErrorView {
    /// The token that the grammar could not accept.
    UnexpectedToken(TokenView),
    /// The tokens ran out where the grammar wanted more.
    UnexpectedEOF,
}

/// What one parsing step answers.
///
/// After a failure `pos` is the position of the token that was refused, or
/// the number of tokens where they ran out.
pub struct Parsed<T> {
    pub result: Result<T, ParserErrorView>,
    pub pos: int,
    pub names: Seq<Seq<char>>,
}

impl<T> Parsed<T> {
    /// The step succeeded and left the cursor further on than `from`, within
    /// the tokens.
    ///
    /// Every step of the grammar ends within the tokens and not before where
    /// it began, and a step that has to consume a token to succeed ends
    /// further on (the lemmas of [`crate::sessions`] prove it). So wherever
    /// the grammar asks this of a step, it holds exactly if the step
    /// succeeded. The grammar asks it in this form because that shows at once
    /// that its functions terminate.
    pub open spec fn advanced(self, toks: Seq<TokenView>, from: int) -> bool {
        self.result is Ok && from < self.pos <= toks.len()
    }

    /// The tree of a successful step.
    pub open spec fn value(self) -> T {
        self.result->Ok_0
    }
}

/// A successful step.
pub open spec fn success<T>(value: T, pos: int, names: Seq<Seq<char>>) -> Parsed<T> {
    Parsed { result: Ok(value), pos, names }
}

/// The error for the token at `pos`: that token is refused, or there is none.
pub open spec fn refusal(toks: Seq<TokenView>, pos: int) -> ParserErrorView {
    if 0 <= pos < toks.len() {
        ParserErrorView::UnexpectedToken(toks[pos])
    } else {
        ParserErrorView::UnexpectedEOF
    }
}

/// The failure at `pos`, with the error for the token there.
pub open spec fn failure<T>(toks: Seq<TokenView>, pos: int, names: Seq<Seq<char>>) -> Parsed<T> {
    Parsed { result: Err(refusal(toks, pos)), pos, names }
}

/// The failure of `p`, handed on by a step that gives another kind of tree.
pub open spec fn rethrow<A, B>(p: Parsed<A>) -> Parsed<B> {
    Parsed {
        result: Err(
            match p.result {
                Err(e) => e,
                Ok(_) => ParserErrorView::UnexpectedEOF,
            },
        ),
        pos: p.pos,
        names: p.names,
    }
}

/// The kind of the token at `pos`, if there is one.
pub open spec fn kind_at(toks: Seq<TokenView>, pos: int) -> Option<TokenTypeView> {
    if 0 <= pos < toks.len() {
        Some(toks[pos].type_)
    } else {
        None
    }
}

/// The step `p`, and then one token of the given kind.
pub open spec fn followed_by<T>(p: Parsed<T>, toks: Seq<TokenView>, kind: TokenTypeView) -> Parsed<
    T,
> {
    if p.result is Err {
        p
    } else if kind_at(toks, p.pos) == Some(kind) {
        Parsed { result: p.result, pos: p.pos + 1, names: p.names }
    } else {
        failure(toks, p.pos, p.names)
    }
}

// ---------------------------------------------------------------------------
// Names
// ---------------------------------------------------------------------------

/// The handle of `spelling`: its place among the names if it is one of them,
/// and the next free handle if it is not.
pub open spec fn handle_of(names: Seq<Seq<char>>, spelling: Seq<char>) -> nat {
    if names.contains(spelling) {
        names.index_of(spelling) as nat
    } else {
        names.len()
    }
}

/// The names once `spelling` has been seen: a new spelling goes to the end.
pub open spec fn interned(names: Seq<Seq<char>>, spelling: Seq<char>) -> Seq<Seq<char>> {
    if names.contains(spelling) {
        names
    } else {
        names.push(spelling)
    }
}

// ---------------------------------------------------------------------------
// Expressions
// ---------------------------------------------------------------------------

/// The levels of binary operators, from the loosest to the tightest.
pub enum Level {
    LogicOr,
    LogicAnd,
    Comparison,
    Term,
    Factor,
}

impl Level {
    /// The place of the level in the order of precedence.
    pub open spec fn rank(self) -> nat {
        match self {
            Level::LogicOr => 4,
            Level::LogicAnd => 3,
            Level::Comparison => 2,
            Level::Term => 1,
            Level::Factor => 0,
        }
    }
}

/// The operator of `level` that a token of kind `kind` stands for, if any.
pub open spec fn operator_at(level: Level, kind: Option<TokenTypeView>) -> Option<BinaryOperator> {
    match level {
        Level::LogicOr => match kind {
            Some(TokenTypeView::Or) => Some(BinaryOperator::LogicOr),
            _ => None,
        },
        Level::LogicAnd => match kind {
            Some(TokenTypeView::And) => Some(BinaryOperator::LogicAnd),
            _ => None,
        },
        Level::Comparison => match kind {
            Some(TokenTypeView::Equal) => Some(BinaryOperator::Equal),
            Some(TokenTypeView::NotEqual) => Some(BinaryOperator::NotEqual),
            Some(TokenTypeView::Less) => Some(BinaryOperator::Less),
            Some(TokenTypeView::LessEqual) => Some(BinaryOperator::LessEqual),
            Some(TokenTypeView::Greater) => Some(BinaryOperator::Greater),
            Some(TokenTypeView::GreaterEqual) => Some(BinaryOperator::GreaterEqual),
            _ => None,
        },
        Level::Term => match kind {
            Some(TokenTypeView::Plus) => Some(BinaryOperator::Plus),
            Some(TokenTypeView::Minus) => Some(BinaryOperator::Minus),
            _ => None,
        },
        Level::Factor => match kind {
            Some(TokenTypeView::Star) => Some(BinaryOperator::Star),
            Some(TokenTypeView::Slash) => Some(BinaryOperator::Slash),
            _ => None,
        },
    }
}

/// `expression → logic-or`
#[verifier::opaque]
pub open spec fn expression(toks: Seq<TokenView>, pos: int, names: Seq<Seq<char>>) -> Parsed<
    ExprView,
>
    decreases toks.len() - pos, 19nat,
{
    binary(Level::LogicOr, toks, pos, names)
}

/// `level → operand ( operator operand )*`, the operators being those of
/// `level`; they associate to the left.
pub open spec fn binary(
    level: Level,
    toks: Seq<TokenView>,
    pos: int,
    names: Seq<Seq<char>>,
) -> Parsed<ExprView>
    decreases toks.len() - pos, 3 * level.rank() + 6,
{
    let left = operand(level, toks, pos, names);
    if left.advanced(toks, pos) {
        binary_rest(level, toks, left.pos, left.names, left.value())
    } else {
        left
    }
}

/// What stands on either side of an operator of `level`: an expression of the
/// next tighter level.
pub open spec fn operand(
    level: Level,
    toks: Seq<TokenView>,
    pos: int,
    names: Seq<Seq<char>>,
) -> Parsed<ExprView>
    decreases toks.len() - pos, 3 * level.rank() + 5,
{
    match level {
        Level::LogicOr => binary(Level::LogicAnd, toks, pos, names),
        Level::LogicAnd => logic_not(toks, pos, names),
        Level::Comparison => binary(Level::Term, toks, pos, names),
        Level::Term => binary(Level::Factor, toks, pos, names),
        Level::Factor => call(toks, pos, names),
    }
}

/// `( operator operand )*` behind the operand `left`.
pub open spec fn binary_rest(
    level: Level,
    toks: Seq<TokenView>,
    pos: int,
    names: Seq<Seq<char>>,
    left: ExprView,
) -> Parsed<ExprView>
    decreases toks.len() - pos, 0nat,
{
    match operator_at(level, kind_at(toks, pos)) {
        Some(operator) => {
            let right = operand(level, toks, pos + 1, names);
            if right.advanced(toks, pos) {
                binary_rest(
                    level,
                    toks,
                    right.pos,
                    right.names,
                    ExprView::Binary {
                        left: Box::new(left),
                        operator,
                        right: Box::new(right.value()),
                    },
                )
            } else {
                right
            }
        },
        None => success(left, pos, names),
    }
}

/// `logic-not → NOT logic-not | comparison`
pub open spec fn logic_not(toks: Seq<TokenView>, pos: int, names: Seq<Seq<char>>) -> Parsed<
    ExprView,
>
    decreases toks.len() - pos, 13nat,
{
    if kind_at(toks, pos) == Some(TokenTypeView::Not) {
        let right = logic_not(toks, pos + 1, names);
        if right.advanced(toks, pos) {
            success(
                ExprView::Unary {
                    operator: UnaryOperator::LogicNot,
                    right: Box::new(right.value()),
                },
                right.pos,
                right.names,
            )
        } else {
            right
        }
    } else {
        binary(Level::Comparison, toks, pos, names)
    }
}

/// `call → primary ( '(' args ')' | '[' indexes ']' )*`
pub open spec fn call(toks: Seq<TokenView>, pos: int, names: Seq<Seq<char>>) -> Parsed<ExprView>
    decreases toks.len() - pos, 4nat,
{
    let base = primary(toks, pos, names);
    if base.advanced(toks, pos) {
        suffixes(toks, base.pos, base.names, base.value())
    } else {
        base
    }
}

/// `( '(' args ')' | '[' indexes ']' )*` behind the expression `left`.
pub open spec fn suffixes(
    toks: Seq<TokenView>,
    pos: int,
    names: Seq<Seq<char>>,
    left: ExprView,
) -> Parsed<ExprView>
    decreases toks.len() - pos, 0nat,
{
    match kind_at(toks, pos) {
        Some(TokenTypeView::LParen) => {
            let args = list(toks, pos + 1, names, TokenTypeView::RParen);
            if args.advanced(toks, pos) {
                suffixes(
                    toks,
                    args.pos,
                    args.names,
                    ExprView::FunctionCall { function: Box::new(left), args: args.value() },
                )
            } else {
                rethrow(args)
            }
        },
        Some(TokenTypeView::LBracket) => {
            let indexes = list(toks, pos + 1, names, TokenTypeView::RBracket);
            if indexes.advanced(toks, pos) {
                suffixes(
                    toks,
                    indexes.pos,
                    indexes.names,
                    ExprView::ArrayIndex { array: Box::new(left), indexes: indexes.value() },
                )
            } else {
                rethrow(indexes)
            }
        },
        _ => success(left, pos, names),
    }
}

/// `close | expression ( ',' expression )* close`: the list behind an opening
/// delimiter, up to and with the closing one.
pub open spec fn list(
    toks: Seq<TokenView>,
    pos: int,
    names: Seq<Seq<char>>,
    close: TokenTypeView,
) -> Parsed<Seq<ExprView>>
    decreases toks.len() - pos, 21nat,
{
    if kind_at(toks, pos) == Some(close) {
        success(Seq::empty(), pos + 1, names)
    } else {
        elements(toks, pos, names, close, Seq::empty())
    }
}

/// `expression ( ',' expression )* close` behind the elements `before`.
pub open spec fn elements(
    toks: Seq<TokenView>,
    pos: int,
    names: Seq<Seq<char>>,
    close: TokenTypeView,
    before: Seq<ExprView>,
) -> Parsed<Seq<ExprView>>
    decreases toks.len() - pos, 20nat,
{
    let item = expression(toks, pos, names);
    if item.advanced(toks, pos) {
        if kind_at(toks, item.pos) == Some(close) {
            success(before.push(item.value()), item.pos + 1, item.names)
        } else if kind_at(toks, item.pos) == Some(TokenTypeView::Comma) {
            elements(toks, item.pos + 1, item.names, close, before.push(item.value()))
        } else {
            failure(toks, item.pos, item.names)
        }
    } else {
        rethrow(item)
    }
}

/// `primary → identifier | char | string | integer | real | boolean
///          | '(' expression ')'`
///
/// An identifier stands in the tree as the handle of its spelling.
pub open spec fn primary(toks: Seq<TokenView>, pos: int, names: Seq<Seq<char>>) -> Parsed<ExprView>
    decreases toks.len() - pos, 3nat,
{
    match kind_at(toks, pos) {
        Some(TokenTypeView::Identifier(spelling)) => success(
            ExprView::Identifier { handle: handle_of(names, spelling) },
            pos + 1,
            interned(names, spelling),
        ),
        Some(TokenTypeView::CharLiteral(c)) => success(
            ExprView::Literal(LiteralView::Char(c)),
            pos + 1,
            names,
        ),
        Some(TokenTypeView::StringLiteral(s)) => success(
            ExprView::Literal(LiteralView::String(s)),
            pos + 1,
            names,
        ),
        Some(TokenTypeView::IntegerLiteral(i)) => success(
            ExprView::Literal(LiteralView::Integer(i)),
            pos + 1,
            names,
        ),
        Some(TokenTypeView::RealLiteral(r)) => success(
            ExprView::Literal(LiteralView::Real(r)),
            pos + 1,
            names,
        ),
        Some(TokenTypeView::BooleanLiteral(b)) => success(
            ExprView::Literal(LiteralView::Boolean(b)),
            pos + 1,
            names,
        ),
        Some(TokenTypeView::LParen) => followed_by(
            expression(toks, pos + 1, names),
            toks,
            TokenTypeView::RParen,
        ),
        _ => failure(toks, pos, names),
    }
}

/// A name: one identifier token, which stands in the tree as the handle of
/// its spelling.
#[verifier::opaque]
pub open spec fn identifier(toks: Seq<TokenView>, pos: int, names: Seq<Seq<char>>) -> Parsed<
    ExprView,
> {
    match kind_at(toks, pos) {
        Some(TokenTypeView::Identifier(spelling)) => success(
            ExprView::Identifier { handle: handle_of(names, spelling) },
            pos + 1,
            interned(names, spelling),
        ),
        _ => failure(toks, pos, names),
    }
}

/// A bare literal: one token that is a character, a string, an integer, a
/// real number or a boolean.
#[verifier::opaque]
pub open spec fn literal(toks: Seq<TokenView>, pos: int, names: Seq<Seq<char>>) -> Parsed<
    LiteralView,
> {
    match kind_at(toks, pos) {
        Some(TokenTypeView::CharLiteral(c)) => success(LiteralView::Char(c), pos + 1, names),
        Some(TokenTypeView::StringLiteral(s)) => success(LiteralView::String(s), pos + 1, names),
        Some(TokenTypeView::IntegerLiteral(i)) => success(LiteralView::Integer(i), pos + 1, names),
        Some(TokenTypeView::RealLiteral(r)) => success(LiteralView::Real(r), pos + 1, names),
        Some(TokenTypeView::BooleanLiteral(b)) => success(LiteralView::Boolean(b), pos + 1, names),
        _ => failure(toks, pos, names),
    }
}

/// `assignable → name ( '(' args ')' | '[' indexes ']' )*`
#[verifier::opaque]
pub open spec fn assignable(toks: Seq<TokenView>, pos: int, names: Seq<Seq<char>>) -> Parsed<
    ExprView,
> {
    let base = identifier(toks, pos, names);
    if base.advanced(toks, pos) {
        suffixes(toks, base.pos, base.names, base.value())
    } else {
        base
    }
}

// ---------------------------------------------------------------------------
// Statements
// ---------------------------------------------------------------------------

/// `type → INTEGER | REAL | STRING | CHAR | BOOLEAN`
#[verifier::opaque]
pub open spec fn declared_type(toks: Seq<TokenView>, pos: int, names: Seq<Seq<char>>) -> Parsed<
    Type,
> {
    match kind_at(toks, pos) {
        Some(TokenTypeView::Integer) => success(
            Type::Primitive(PrimitiveType::Integer),
            pos + 1,
            names,
        ),
        Some(TokenTypeView::Real) => success(Type::Primitive(PrimitiveType::Real), pos + 1, names),
        Some(TokenTypeView::String) => success(
            Type::Primitive(PrimitiveType::String),
            pos + 1,
            names,
        ),
        Some(TokenTypeView::Char) => success(Type::Primitive(PrimitiveType::Char), pos + 1, names),
        Some(TokenTypeView::Boolean) => success(
            Type::Primitive(PrimitiveType::Boolean),
            pos + 1,
            names,
        ),
        _ => failure(toks, pos, names),
    }
}

/// `parameter → name ':' type`
pub open spec fn parameter(toks: Seq<TokenView>, pos: int, names: Seq<Seq<char>>) -> Parsed<
    ParameterView,
> {
    let name = followed_by(identifier(toks, pos, names), toks, TokenTypeView::Colon);
    if name.advanced(toks, pos) {
        let type_ = declared_type(toks, name.pos, name.names);
        if type_.advanced(toks, pos) {
            success(
                ParameterView { name: name.value(), type_: type_.value() },
                type_.pos,
                type_.names,
            )
        } else {
            rethrow(type_)
        }
    } else {
        rethrow(name)
    }
}

/// `'(' ( parameter ( ',' parameter )* )? ')'`
#[verifier::opaque]
pub open spec fn parameter_list(toks: Seq<TokenView>, pos: int, names: Seq<Seq<char>>) -> Parsed<
    Seq<ParameterView>,
> {
    if kind_at(toks, pos) != Some(TokenTypeView::LParen) {
        failure(toks, pos, names)
    } else if kind_at(toks, pos + 1) == Some(TokenTypeView::RParen) {
        success(Seq::empty(), pos + 2, names)
    } else {
        parameters(toks, pos + 1, names, Seq::empty())
    }
}

/// `parameter ( ',' parameter )* ')'` behind the parameters `before`.
pub open spec fn parameters(
    toks: Seq<TokenView>,
    pos: int,
    names: Seq<Seq<char>>,
    before: Seq<ParameterView>,
) -> Parsed<Seq<ParameterView>>
    decreases toks.len() - pos,
{
    let item = parameter(toks, pos, names);
    if item.advanced(toks, pos) {
        if kind_at(toks, item.pos) == Some(TokenTypeView::RParen) {
            success(before.push(item.value()), item.pos + 1, item.names)
        } else if kind_at(toks, item.pos) == Some(TokenTypeView::Comma) {
            parameters(toks, item.pos + 1, item.names, before.push(item.value()))
        } else {
            failure(toks, item.pos, item.names)
        }
    } else {
        rethrow(item)
    }
}

/// `expression ( ',' expression )*` behind the expressions `before`: the
/// operands of `INPUT` and `OUTPUT`. The list ends before the first token
/// behind an expression that is no comma.
pub open spec fn items(
    toks: Seq<TokenView>,
    pos: int,
    names: Seq<Seq<char>>,
    before: Seq<ExprView>,
) -> Parsed<Seq<ExprView>>
    decreases toks.len() - pos,
{
    let item = expression(toks, pos, names);
    if item.advanced(toks, pos) {
        if kind_at(toks, item.pos) == Some(TokenTypeView::Comma) {
            items(toks, item.pos + 1, item.names, before.push(item.value()))
        } else {
            success(before.push(item.value()), item.pos, item.names)
        }
    } else {
        rethrow(item)
    }
}

/// `( STEP expression )?`
pub open spec fn optional_step(toks: Seq<TokenView>, pos: int, names: Seq<Seq<char>>) -> Parsed<
    Option<ExprView>,
> {
    if kind_at(toks, pos) == Some(TokenTypeView::Step) {
        let step = expression(toks, pos + 1, names);
        if step.advanced(toks, pos) {
            success(Some(step.value()), step.pos, step.names)
        } else {
            rethrow(step)
        }
    } else {
        success(None, pos, names)
    }
}

/// One statement. The token at `pos` selects the form; a token that opens
/// none of the forms below leaves the statement to be an assignment.
///
/// ```text
/// PROCEDURE name '(' params? ')' block ENDPROCEDURE
/// FUNCTION  name '(' params? ')' RETURNS type block ENDFUNCTION
/// IF expression THEN block ( ELSE block )? ENDIF
/// RETURN expression
/// FOR assignable '<-' expression TO expression ( STEP expression )? block NEXT
/// REPEAT block UNTIL expression
/// WHILE expression DO block ENDWHILE
/// DECLARE name ':' type
/// CONSTANT name '<-' literal
/// INPUT  expression ( ',' expression )*
/// OUTPUT expression ( ',' expression )*
/// assignable '<-' expression
/// ```
pub open spec fn statement(toks: Seq<TokenView>, pos: int, names: Seq<Seq<char>>) -> Parsed<
    StmtView,
>
    decreases toks.len() - pos, 1nat,
{
    match kind_at(toks, pos) {
        None => failure(toks, pos, names),
        Some(TokenTypeView::Procedure) => procedure(toks, pos, names),
        Some(TokenTypeView::Function) => function(toks, pos, names),
        Some(TokenTypeView::If) => conditional(toks, pos, names),
        Some(TokenTypeView::Return) => return_value(toks, pos, names),
        Some(TokenTypeView::For) => for_loop(toks, pos, names),
        Some(TokenTypeView::Repeat) => repeat_until(toks, pos, names),
        Some(TokenTypeView::While) => while_loop(toks, pos, names),
        Some(TokenTypeView::Declare) => declaration(toks, pos, names),
        Some(TokenTypeView::Constant) => constant(toks, pos, names),
        Some(TokenTypeView::Input) => input(toks, pos, names),
        Some(TokenTypeView::Output) => output(toks, pos, names),
        Some(_) => assignment(toks, pos, names),
    }
}

/// `RETURN expression`, the cursor standing on `RETURN`.
#[verifier::opaque]
pub open spec fn return_value(toks: Seq<TokenView>, pos: int, names: Seq<Seq<char>>) -> Parsed<
    StmtView,
> {
    let value = expression(toks, pos + 1, names);
    if value.advanced(toks, pos) {
        success(StmtView::Return(value.value()), value.pos, value.names)
    } else {
        rethrow(value)
    }
}

/// `INPUT expression ( ',' expression )*`, the cursor standing on `INPUT`.
#[verifier::opaque]
pub open spec fn input(toks: Seq<TokenView>, pos: int, names: Seq<Seq<char>>) -> Parsed<StmtView> {
    let operands = items(toks, pos + 1, names, Seq::empty());
    if operands.advanced(toks, pos) {
        success(StmtView::Input(operands.value()), operands.pos, operands.names)
    } else {
        rethrow(operands)
    }
}

/// `OUTPUT expression ( ',' expression )*`, the cursor standing on `OUTPUT`.
#[verifier::opaque]
pub open spec fn output(toks: Seq<TokenView>, pos: int, names: Seq<Seq<char>>) -> Parsed<
    StmtView,
> {
    let operands = items(toks, pos + 1, names, Seq::empty());
    if operands.advanced(toks, pos) {
        success(StmtView::Output(operands.value()), operands.pos, operands.names)
    } else {
        rethrow(operands)
    }
}

/// `PROCEDURE name '(' params? ')' block ENDPROCEDURE`, the cursor standing
/// on `PROCEDURE`.
pub open spec fn procedure(toks: Seq<TokenView>, pos: int, names: Seq<Seq<char>>) -> Parsed<
    StmtView,
>
    decreases toks.len() - pos, 0nat,
{
    let name = identifier(toks, pos + 1, names);
    if name.advanced(toks, pos) {
        let params = parameter_list(toks, name.pos, name.names);
        if params.advanced(toks, pos) {
            let body = followed_by(
                block(toks, params.pos, params.names),
                toks,
                TokenTypeView::EndProcedure,
            );
            if body.advanced(toks, pos) {
                success(
                    StmtView::ProcedureDecl {
                        name: name.value(),
                        params: params.value(),
                        body: body.value(),
                    },
                    body.pos,
                    body.names,
                )
            } else {
                rethrow(body)
            }
        } else {
            rethrow(params)
        }
    } else {
        rethrow(name)
    }
}

/// `FUNCTION name '(' params? ')' RETURNS type block ENDFUNCTION`, the cursor
/// standing on `FUNCTION`.
pub open spec fn function(toks: Seq<TokenView>, pos: int, names: Seq<Seq<char>>) -> Parsed<
    StmtView,
>
    decreases toks.len() - pos, 0nat,
{
    let name = identifier(toks, pos + 1, names);
    if name.advanced(toks, pos) {
        let params = followed_by(
            parameter_list(toks, name.pos, name.names),
            toks,
            TokenTypeView::Returns,
        );
        if params.advanced(toks, pos) {
            let return_type = declared_type(toks, params.pos, params.names);
            if return_type.advanced(toks, pos) {
                let body = followed_by(
                    block(toks, return_type.pos, return_type.names),
                    toks,
                    TokenTypeView::EndFunction,
                );
                if body.advanced(toks, pos) {
                    success(
                        StmtView::FunctionDecl {
                            name: name.value(),
                            params: params.value(),
                            return_type: return_type.value(),
                            body: body.value(),
                        },
                        body.pos,
                        body.names,
                    )
                } else {
                    rethrow(body)
                }
            } else {
                rethrow(return_type)
            }
        } else {
            rethrow(params)
        }
    } else {
        rethrow(name)
    }
}

/// `IF expression THEN block ( ELSE block )? ENDIF`, the cursor standing on
/// `IF`.
pub open spec fn conditional(toks: Seq<TokenView>, pos: int, names: Seq<Seq<char>>) -> Parsed<
    StmtView,
>
    decreases toks.len() - pos, 0nat,
{
    let condition = followed_by(expression(toks, pos + 1, names), toks, TokenTypeView::Then);
    if condition.advanced(toks, pos) {
        let then_branch = block(toks, condition.pos, condition.names);
        if then_branch.advanced(toks, pos) {
            if kind_at(toks, then_branch.pos) == Some(TokenTypeView::Else) {
                let else_branch = followed_by(
                    block(toks, then_branch.pos + 1, then_branch.names),
                    toks,
                    TokenTypeView::EndIf,
                );
                if else_branch.advanced(toks, pos) {
                    success(
                        StmtView::If {
                            condition: condition.value(),
                            then_branch: then_branch.value(),
                            else_branch: Some(else_branch.value()),
                        },
                        else_branch.pos,
                        else_branch.names,
                    )
                } else {
                    rethrow(else_branch)
                }
            } else {
                let closed = followed_by(then_branch, toks, TokenTypeView::EndIf);
                if closed.advanced(toks, pos) {
                    success(
                        StmtView::If {
                            condition: condition.value(),
                            then_branch: then_branch.value(),
                            else_branch: None,
                        },
                        closed.pos,
                        closed.names,
                    )
                } else {
                    rethrow(closed)
                }
            }
        } else {
            rethrow(then_branch)
        }
    } else {
        rethrow(condition)
    }
}

/// `FOR assignable '<-' expression TO expression ( STEP expression )? block
/// NEXT`, the cursor standing on `FOR`.
pub open spec fn for_loop(toks: Seq<TokenView>, pos: int, names: Seq<Seq<char>>) -> Parsed<
    StmtView,
>
    decreases toks.len() - pos, 0nat,
{
    let target = followed_by(assignable(toks, pos + 1, names), toks, TokenTypeView::LArrow);
    if target.advanced(toks, pos) {
        let start = followed_by(
            expression(toks, target.pos, target.names),
            toks,
            TokenTypeView::To,
        );
        if start.advanced(toks, pos) {
            let end = expression(toks, start.pos, start.names);
            if end.advanced(toks, pos) {
                let step = optional_step(toks, end.pos, end.names);
                if step.advanced(toks, pos) {
                    let body = followed_by(
                        block(toks, step.pos, step.names),
                        toks,
                        TokenTypeView::Next,
                    );
                    if body.advanced(toks, pos) {
                        success(
                            StmtView::ForLoop {
                                target: target.value(),
                                start: start.value(),
                                end: end.value(),
                                step: step.value(),
                                body: body.value(),
                            },
                            body.pos,
                            body.names,
                        )
                    } else {
                        rethrow(body)
                    }
                } else {
                    rethrow(step)
                }
            } else {
                rethrow(end)
            }
        } else {
            rethrow(start)
        }
    } else {
        rethrow(target)
    }
}

/// `REPEAT block UNTIL expression`, the cursor standing on `REPEAT`.
pub open spec fn repeat_until(toks: Seq<TokenView>, pos: int, names: Seq<Seq<char>>) -> Parsed<
    StmtView,
>
    decreases toks.len() - pos, 0nat,
{
    if pos < toks.len() {
        let body = followed_by(block(toks, pos + 1, names), toks, TokenTypeView::Until);
        if body.advanced(toks, pos) {
            let condition = expression(toks, body.pos, body.names);
            if condition.advanced(toks, pos) {
                success(
                    StmtView::RepeatUntil { condition: condition.value(), body: body.value() },
                    condition.pos,
                    condition.names,
                )
            } else {
                rethrow(condition)
            }
        } else {
            rethrow(body)
        }
    } else {
        failure(toks, pos, names)
    }
}

/// `WHILE expression DO block ENDWHILE`, the cursor standing on `WHILE`.
pub open spec fn while_loop(toks: Seq<TokenView>, pos: int, names: Seq<Seq<char>>) -> Parsed<
    StmtView,
>
    decreases toks.len() - pos, 0nat,
{
    let condition = followed_by(expression(toks, pos + 1, names), toks, TokenTypeView::Do);
    if condition.advanced(toks, pos) {
        let body = followed_by(
            block(toks, condition.pos, condition.names),
            toks,
            TokenTypeView::EndWhile,
        );
        if body.advanced(toks, pos) {
            success(
                StmtView::While { condition: condition.value(), body: body.value() },
                body.pos,
                body.names,
            )
        } else {
            rethrow(body)
        }
    } else {
        rethrow(condition)
    }
}

/// `DECLARE name ':' type`, the cursor standing on `DECLARE`.
#[verifier::opaque]
pub open spec fn declaration(toks: Seq<TokenView>, pos: int, names: Seq<Seq<char>>) -> Parsed<
    StmtView,
> {
    let name = followed_by(identifier(toks, pos + 1, names), toks, TokenTypeView::Colon);
    if name.advanced(toks, pos) {
        let type_ = declared_type(toks, name.pos, name.names);
        if type_.advanced(toks, pos) {
            success(
                StmtView::VariableDecl { name: name.value(), type_: type_.value() },
                type_.pos,
                type_.names,
            )
        } else {
            rethrow(type_)
        }
    } else {
        rethrow(name)
    }
}

/// `CONSTANT name '<-' literal`, the cursor standing on `CONSTANT`. The value
/// is a bare literal: an expression in its place is refused at its first
/// token.
#[verifier::opaque]
pub open spec fn constant(toks: Seq<TokenView>, pos: int, names: Seq<Seq<char>>) -> Parsed<
    StmtView,
> {
    let name = followed_by(identifier(toks, pos + 1, names), toks, TokenTypeView::LArrow);
    if name.advanced(toks, pos) {
        let value = literal(toks, name.pos, name.names);
        if value.advanced(toks, pos) {
            success(
                StmtView::ConstantDecl { name: name.value(), value: value.value() },
                value.pos,
                value.names,
            )
        } else {
            rethrow(value)
        }
    } else {
        rethrow(name)
    }
}

/// `assignable '<-' expression`
#[verifier::opaque]
pub open spec fn assignment(toks: Seq<TokenView>, pos: int, names: Seq<Seq<char>>) -> Parsed<
    StmtView,
> {
    let target = followed_by(assignable(toks, pos, names), toks, TokenTypeView::LArrow);
    if target.advanced(toks, pos) {
        let value = expression(toks, target.pos, target.names);
        if value.advanced(toks, pos) {
            success(
                StmtView::Assignment { target: target.value(), value: value.value() },
                value.pos,
                value.names,
            )
        } else {
            rethrow(value)
        }
    } else {
        rethrow(target)
    }
}

/// `statement*`: statements up to the first that fails. A block never fails;
/// it ends with the cursor where the failed statement began, and with the
/// names that the failed statement left.
pub open spec fn block(toks: Seq<TokenView>, pos: int, names: Seq<Seq<char>>) -> Parsed<BlockView>
    decreases toks.len() - pos, 3nat,
{
    block_from(toks, pos, names, Seq::empty())
}

/// `statement*` behind the statements `before`.
pub open spec fn block_from(
    toks: Seq<TokenView>,
    pos: int,
    names: Seq<Seq<char>>,
    before: Seq<StmtView>,
) -> Parsed<BlockView>
    decreases toks.len() - pos, 2nat,
{
    let first = statement(toks, pos, names);
    if first.advanced(toks, pos) {
        block_from(toks, first.pos, first.names, before.push(first.value()))
    } else {
        success(BlockView { contents: before }, pos, first.names)
    }
}

} // verus!
