//! The parser: from tokens to trees, by recursive descent.

use vstd::prelude::*;
use crate::ast::expr::{
    BinaryOperator, Expr, ExprView, Literal, UnaryOperator, expr_views, lemma_view_of_lists,
};
use crate::ast::stmt::{
    Block, BlockView, Parameter, ParameterView, PrimitiveType, Stmt, StmtView, Type,
    lemma_view_of_block,
    parameter_views, stmt_views,
};
use crate::grammar::{
    Level, Parsed, ParserErrorView, assignable, assignment, binary, binary_rest, block,
    block_from, call, conditional, constant, declaration, declared_type, elements, expression,
    for_loop, function, handle_of, identifier, input, interned, items, kind_at, list,
    literal, logic_not, operand, operator_at, optional_step, output, parameter, parameter_list,
    parameters, primary, procedure, refusal, repeat_until, return_value, statement, suffixes,
    while_loop,
};
use crate::scanner::{Token, TokenType, TokenTypeView, TokenView, token_views};

verus! {

/// Why a parse failed.
#[derive(Debug, PartialEq)]
pub enum ParserError {
    /// The token that the grammar could not accept.
    UnexpectedToken(Token),
    /// The tokens ran out where the grammar wanted more.
    UnexpectedEOF,
}

impl View for ParserError {
    type V = ParserErrorView;

    open spec fn view(&self) -> ParserErrorView {
        match self {
            ParserError::UnexpectedToken(t) => ParserErrorView::UnexpectedToken(t@),
            ParserError::UnexpectedEOF => ParserErrorView::UnexpectedEOF,
        }
    }
}

/// The answer of a parsing function as the grammar states it: the tree goes
/// by its view, the error by its.
pub open spec fn viewed<T: View>(r: Result<T, ParserError>) -> Result<T::V, ParserErrorView> {
    match r {
        Ok(v) => Ok(v@),
        Err(e) => Err(e@),
    }
}

/// The same for a list of expressions.
pub open spec fn viewed_exprs(r: Result<Vec<Expr>, ParserError>) -> Result<
    Seq<ExprView>,
    ParserErrorView,
> {
    match r {
        Ok(v) => Ok(expr_views(v@)),
        Err(e) => Err(e@),
    }
}

/// The same for a list of parameters.
pub open spec fn viewed_parameters(r: Result<Vec<Parameter>, ParserError>) -> Result<
    Seq<ParameterView>,
    ParserErrorView,
> {
    match r {
        Ok(v) => Ok(parameter_views(v@)),
        Err(e) => Err(e@),
    }
}

/// The same for a type, which is its own view.
pub open spec fn viewed_type(r: Result<Type, ParserError>) -> Result<Type, ParserErrorView> {
    match r {
        Ok(v) => Ok(v),
        Err(e) => Err(e@),
    }
}

/// The kind of a token, if there is one, by its view.
pub open spec fn kind_view(t: Option<TokenType>) -> Option<TokenTypeView> {
    match t {
        Some(t) => Some(t@),
        None => None,
    }
}

/// All the tokens of a source, with a cursor that moves forward over them and
/// can step back.
pub struct TokenBuffer {
    items: Vec<Token>,
    current: usize,
}

impl TokenBuffer {
    /// The tokens, which never change.
    pub closed spec fn tokens(&self) -> Seq<TokenView> {
        token_views(self.items@)
    }

    /// The position of the cursor: how many tokens lie before it.
    pub closed spec fn cursor(&self) -> int {
        self.current as int
    }

    /// The cursor stands on a token or just behind the last.
    #[verifier::type_invariant]
    pub closed spec fn wf(&self) -> bool {
        self.current <= self.items.len()
    }

    /// How many tokens lie at and behind the cursor.
    pub open spec fn remaining(&self) -> int {
        self.tokens().len() - self.cursor()
    }

    /// The cursor never leaves the tokens.
    pub proof fn lemma_cursor_in_bounds(&self)
        requires
            self.wf(),
        ensures
            0 <= self.cursor() <= self.tokens().len(),
    {
    }

    /// A buffer over `tokens`, the cursor on the first.
    pub fn from_iter(tokens: Vec<Token>) -> (buffer: Self)
        ensures
            buffer.wf(),
            buffer.tokens() == token_views(tokens@),
            buffer.cursor() == 0,
    {
        TokenBuffer { items: tokens, current: 0 }
    }

    /// The position of the cursor.
    pub fn position(&self) -> (pos: usize)
        ensures
            self.wf(),
            pos == self.cursor(),
            pos <= self.tokens().len(),
    {
        proof {
            use_type_invariant(self);
        }
        self.current
    }

    /// The token under the cursor.
    pub fn current_token(&self) -> (t: Option<&Token>)
        ensures
            self.wf(),
            match t {
                Some(t) => 0 <= self.cursor() < self.tokens().len() && t@
                    == self.tokens()[self.cursor()],
                None => self.cursor() == self.tokens().len(),
            },
    {
        proof {
            use_type_invariant(self);
        }
        if self.current < self.items.len() {
            Some(&self.items[self.current])
        } else {
            None
        }
    }

    /// The kind of the token under the cursor.
    pub fn peek(&self) -> (t: Option<TokenType>)
        ensures
            self.wf(),
            kind_view(t) == kind_at(self.tokens(), self.cursor()),
    {
        match self.current_token() {
            Some(t) => Some(t.type_.clone()),
            None => None,
        }
    }

    /// The kind of the token under the cursor; the cursor moves behind it.
    pub fn next(&mut self) -> (t: Option<TokenType>)
        ensures
            final(self).wf(),
            final(self).tokens() == old(self).tokens(),
            kind_view(t) == kind_at(old(self).tokens(), old(self).cursor()),
            final(self).cursor() == old(self).cursor() + (if t is Some {
                1int
            } else {
                0int
            }),
    {
        let res = self.peek();
        if res.is_some() {
            self.current += 1;
        }
        res
    }

    /// The error for the token under the cursor: that token is refused, or
    /// the tokens have run out.
    pub fn unexpected_token(&self) -> (e: ParserError)
        ensures
            e@ == refusal(self.tokens(), self.cursor()),
    {
        match self.current_token() {
            Some(t) => ParserError::UnexpectedToken(t.clone()),
            None => ParserError::UnexpectedEOF,
        }
    }

    /// Steps over the token under the cursor if it is of kind `type_`, and
    /// fails without moving if it is not.
    pub fn consume(&mut self, type_: &TokenType) -> (r: Result<(), ParserError>)
        ensures
            final(self).wf(),
            final(self).tokens() == old(self).tokens(),
            r is Ok <==> kind_at(old(self).tokens(), old(self).cursor()) == Some(type_@),
            r is Ok ==> final(self).cursor() == old(self).cursor() + 1,
            r matches Err(e) ==> final(self).cursor() == old(self).cursor() && e@ == refusal(
                old(self).tokens(),
                old(self).cursor(),
            ),
    {
        let next_token = match self.peek() {
            Some(t) => t,
            None => return Err(ParserError::UnexpectedEOF),
        };
        if next_token == *type_ {
            self.next();
            Ok(())
        } else {
            Err(self.unexpected_token())
        }
    }

    /// Steps over the token under the cursor if it is of kind `other`, and
    /// gives its kind; else the cursor stays.
    pub fn next_if_equal(&mut self, other: &TokenType) -> (t: Option<TokenType>)
        ensures
            final(self).wf(),
            final(self).tokens() == old(self).tokens(),
            t is Some <==> kind_at(old(self).tokens(), old(self).cursor()) == Some(other@),
            t matches Some(kind) ==> kind@ == other@,
            final(self).cursor() == old(self).cursor() + (if t is Some {
                1int
            } else {
                0int
            }),
    {
        match self.peek() {
            Some(t) => {
                if t == *other {
                    self.next()
                } else {
                    None
                }
            },
            None => None,
        }
    }

    /// Moves the cursor to `position`, or behind the last token where
    /// `position` lies further on.
    pub fn rewind(&mut self, position: usize)
        ensures
            final(self).wf(),
            final(self).tokens() == old(self).tokens(),
            final(self).cursor() == (if position <= old(self).tokens().len() {
                position as int
            } else {
                old(self).tokens().len() as int
            }),
    {
        if position <= self.items.len() {
            self.current = position;
        } else {
            self.current = self.items.len();
        }
    }

    /// Moves the cursor back by one token, unless it stands on the first.
    pub fn backtrack(&mut self)
        ensures
            final(self).wf(),
            final(self).tokens() == old(self).tokens(),
            final(self).cursor() == (if old(self).cursor() > 0 {
                old(self).cursor() - 1
            } else {
                0
            }),
    {
        proof {
            use_type_invariant(&*self);
        }
        if self.current > 0 {
            self.current -= 1;
        }
    }
}

/// The spellings of a run of names, in order.
pub open spec fn spellings(names: Seq<String>) -> Seq<Seq<char>> {
    names.map_values(|s: String| s@)
}

/// Appends a spelling that is not yet among the names.
fn push_name(names: &mut Vec<String>, ident: String)
    requires
        spellings(old(names)@).no_duplicates(),
        !spellings(old(names)@).contains(ident@),
    ensures
        spellings(final(names)@) == spellings(old(names)@).push(ident@),
        spellings(final(names)@).no_duplicates(),
{
    let ghost before = spellings(names@);
    names.push(ident);
    assert(spellings(names@) =~= before.push(ident@));
    assert forall|i: int, j: int|
        0 <= i < before.len() + 1 && 0 <= j < before.len() + 1 && i != j implies before.push(
        ident@,
    )[i] != before.push(ident@)[j] by {
        if i < before.len() && j < before.len() {
        } else if i < before.len() {
            assert(before.contains(before[i]));
        } else {
            assert(before.contains(before[j]));
        }
    }
}

/// One parsing session: the grammar's functions, and the names seen so far.
///
/// A name's handle is its place in the order in which the spellings were
/// first seen: 0, 1, 2 and so on.
pub struct Parser {
    names: Vec<String>,
}

impl View for Parser {
    type V = Seq<Seq<char>>;

    /// The spellings seen so far; each stands at its handle.
    closed spec fn view(&self) -> Seq<Seq<char>> {
        spellings(self.names@)
    }
}

impl Parser {
    /// No spelling stands at two handles.
    pub open spec fn wf(&self) -> bool {
        self@.no_duplicates()
    }

    /// A session that has seen no name.
    pub fn new() -> (parser: Self)
        ensures
            parser.wf(),
            parser@ == Seq::<Seq<char>>::empty(),
    {
        let parser = Parser { names: Vec::new() };
        assert(parser@ =~= Seq::<Seq<char>>::empty());
        parser
    }

    /// The handle of `ident`: the one it got when it was first seen, or the
    /// next free one, which it keeps from now on.
    pub fn get_ident_handle(&mut self, ident: String) -> (handle: usize)
        requires
            old(self).wf(),
        ensures
            final(self).wf(),
            handle == handle_of(old(self)@, ident@),
            final(self)@ == interned(old(self)@, ident@),
    {
        let mut i: usize = 0;
        while i < self.names.len()
            invariant
                i <= self.names.len(),
                *self == *old(self),
                self@.no_duplicates(),
                forall|j: int| 0 <= j < i ==> self@[j] != ident@,
            decreases self.names.len() - i,
        {
            if self.names[i] == ident {
                assert(self@[i as int] == ident@);
                assert(self@.contains(ident@));
                return i;
            }
            i = i + 1;
        }
        assert(!self@.contains(ident@));
        push_name(&mut self.names, ident);
        i
    }

    /// `primary → identifier | char | string | integer | real | boolean
    ///          | '(' expression ')'`
    pub fn parse_primary(&mut self, tokens: &mut TokenBuffer) -> (r: Result<Expr, ParserError>)
        requires
            old(self).wf(),
        ensures
            final(tokens).wf(),
            final(self).wf(),
            final(tokens).tokens() == old(tokens).tokens(),
            (Parsed { result: viewed(r), pos: final(tokens).cursor(), names: final(self)@ })
                == primary(old(tokens).tokens(), old(tokens).cursor(), old(self)@),
            r is Ok ==> final(tokens).cursor() > old(tokens).cursor(),
        decreases old(tokens).remaining(), 3nat,
    {
        proof {
            reveal(expression);
        }
        let next_token = match tokens.next() {
            Some(t) => t,
            None => return Err(ParserError::UnexpectedEOF),
        };
        let expr = match next_token {
            TokenType::Identifier(ident) => Expr::Identifier {
                handle: self.get_ident_handle(ident),
            },
            TokenType::CharLiteral(c) => Expr::Literal(Literal::Char(c)),
            TokenType::StringLiteral(s) => Expr::Literal(Literal::String(s)),
            TokenType::IntegerLiteral(i) => Expr::Literal(Literal::Integer(i)),
            TokenType::RealLiteral(r) => Expr::Literal(Literal::Real(r)),
            TokenType::BooleanLiteral(b) => Expr::Literal(Literal::Boolean(b)),
            TokenType::LParen => {
                let inner = self.parse_expression(tokens)?;
                tokens.consume(&TokenType::RParen)?;
                inner
            },
            _ => {
                tokens.backtrack();
                return Err(tokens.unexpected_token());
            },
        };
        Ok(expr)
    }

    /// `expression → logic-or`
    pub fn parse_expression(&mut self, tokens: &mut TokenBuffer) -> (r: Result<Expr, ParserError>)
        requires
            old(self).wf(),
        ensures
            final(tokens).wf(),
            final(self).wf(),
            final(tokens).tokens() == old(tokens).tokens(),
            (Parsed { result: viewed(r), pos: final(tokens).cursor(), names: final(self)@ })
                == expression(old(tokens).tokens(), old(tokens).cursor(), old(self)@),
            r is Ok ==> final(tokens).cursor() > old(tokens).cursor(),
        decreases old(tokens).remaining(), 19nat,
    {
        proof {
            reveal(expression);
        }
        self.parse_logic_or(tokens)
    }

    /// `logic-or → logic-and ( OR logic-and )*`
    pub fn parse_logic_or(&mut self, tokens: &mut TokenBuffer) -> (r: Result<Expr, ParserError>)
        requires
            old(self).wf(),
        ensures
            final(tokens).wf(),
            final(self).wf(),
            final(tokens).tokens() == old(tokens).tokens(),
            (Parsed { result: viewed(r), pos: final(tokens).cursor(), names: final(self)@ })
                == binary(Level::LogicOr, old(tokens).tokens(), old(tokens).cursor(), old(self)@),
            r is Ok ==> final(tokens).cursor() > old(tokens).cursor(),
        decreases old(tokens).remaining(), 18nat,
    {
        let ghost toks = tokens.tokens();
        let ghost start = tokens.cursor();
        let ghost names = self@;
        proof {
            assert(operand(Level::LogicOr, toks, start, names) == binary(
                Level::LogicAnd,
                toks,
                start,
                names,
            ));
        }
        let mut left = self.parse_logic_and(tokens)?;
        loop
            invariant
                self.wf(),
                tokens.tokens() == toks,
                start < tokens.cursor() <= toks.len(),
                start == old(tokens).cursor(),
                toks == old(tokens).tokens(),
                names == old(self)@,
                binary(Level::LogicOr, toks, start, names) == binary_rest(
                    Level::LogicOr,
                    toks,
                    tokens.cursor(),
                    self@,
                    left@,
                ),
            ensures
                self.wf(),
                tokens.tokens() == toks,
                start < tokens.cursor(),
                binary(Level::LogicOr, toks, start, names) == (Parsed {
                    result: Ok(left@),
                    pos: tokens.cursor(),
                    names: self@,
                }),
            decreases toks.len() - tokens.cursor(),
        {
            let operator = match tokens.peek() {
                Some(TokenType::Or) => BinaryOperator::LogicOr,
                _ => break ,
            };
            let ghost here = tokens.cursor();
            let ghost seen = self@;
            tokens.next();
            proof {
                assert(operator_at(Level::LogicOr, kind_at(toks, here)) == Some(operator));
                assert(operand(Level::LogicOr, toks, here + 1, seen) == binary(
                    Level::LogicAnd,
                    toks,
                    here + 1,
                    seen,
                ));
            }
            let right = self.parse_logic_and(tokens)?;
            left = Expr::Binary { left: Box::new(left), operator, right: Box::new(right) };
        }
        Ok(left)
    }

    /// `logic-and → logic-not ( AND logic-not )*`
    pub fn parse_logic_and(&mut self, tokens: &mut TokenBuffer) -> (r: Result<Expr, ParserError>)
        requires
            old(self).wf(),
        ensures
            final(tokens).wf(),
            final(self).wf(),
            final(tokens).tokens() == old(tokens).tokens(),
            (Parsed { result: viewed(r), pos: final(tokens).cursor(), names: final(self)@ })
                == binary(Level::LogicAnd, old(tokens).tokens(), old(tokens).cursor(), old(self)@),
            r is Ok ==> final(tokens).cursor() > old(tokens).cursor(),
        decreases old(tokens).remaining(), 15nat,
    {
        let ghost toks = tokens.tokens();
        let ghost start = tokens.cursor();
        let ghost names = self@;
        proof {
            assert(operand(Level::LogicAnd, toks, start, names) == logic_not(toks, start, names));
        }
        let mut left = self.parse_logic_not(tokens)?;
        loop
            invariant
                self.wf(),
                tokens.tokens() == toks,
                start < tokens.cursor() <= toks.len(),
                start == old(tokens).cursor(),
                toks == old(tokens).tokens(),
                names == old(self)@,
                binary(Level::LogicAnd, toks, start, names) == binary_rest(
                    Level::LogicAnd,
                    toks,
                    tokens.cursor(),
                    self@,
                    left@,
                ),
            ensures
                self.wf(),
                tokens.tokens() == toks,
                start < tokens.cursor(),
                binary(Level::LogicAnd, toks, start, names) == (Parsed {
                    result: Ok(left@),
                    pos: tokens.cursor(),
                    names: self@,
                }),
            decreases toks.len() - tokens.cursor(),
        {
            let operator = match tokens.peek() {
                Some(TokenType::And) => BinaryOperator::LogicAnd,
                _ => break ,
            };
            let ghost here = tokens.cursor();
            let ghost seen = self@;
            tokens.next();
            proof {
                assert(operator_at(Level::LogicAnd, kind_at(toks, here)) == Some(operator));
                assert(operand(Level::LogicAnd, toks, here + 1, seen) == logic_not(
                    toks,
                    here + 1,
                    seen,
                ));
            }
            let right = self.parse_logic_not(tokens)?;
            left = Expr::Binary { left: Box::new(left), operator, right: Box::new(right) };
        }
        Ok(left)
    }

    /// `logic-not → NOT logic-not | comparison`
    pub fn parse_logic_not(&mut self, tokens: &mut TokenBuffer) -> (r: Result<Expr, ParserError>)
        requires
            old(self).wf(),
        ensures
            final(tokens).wf(),
            final(self).wf(),
            final(tokens).tokens() == old(tokens).tokens(),
            (Parsed { result: viewed(r), pos: final(tokens).cursor(), names: final(self)@ })
                == logic_not(old(tokens).tokens(), old(tokens).cursor(), old(self)@),
            r is Ok ==> final(tokens).cursor() > old(tokens).cursor(),
        decreases old(tokens).remaining(), 13nat,
    {
        if tokens.consume(&TokenType::Not).is_ok() {
            let right = self.parse_logic_not(tokens)?;
            Ok(Expr::Unary { operator: UnaryOperator::LogicNot, right: Box::new(right) })
        } else {
            self.parse_comparison(tokens)
        }
    }

    /// `comparison → term ( ( '=' | '<>' | '<' | '<=' | '>' | '>=' ) term )*`
    pub fn parse_comparison(&mut self, tokens: &mut TokenBuffer) -> (r: Result<Expr, ParserError>)
        requires
            old(self).wf(),
        ensures
            final(tokens).wf(),
            final(self).wf(),
            final(tokens).tokens() == old(tokens).tokens(),
            (Parsed { result: viewed(r), pos: final(tokens).cursor(), names: final(self)@ })
                == binary(
                Level::Comparison,
                old(tokens).tokens(),
                old(tokens).cursor(),
                old(self)@,
            ),
            r is Ok ==> final(tokens).cursor() > old(tokens).cursor(),
        decreases old(tokens).remaining(), 12nat,
    {
        let ghost toks = tokens.tokens();
        let ghost start = tokens.cursor();
        let ghost names = self@;
        proof {
            assert(operand(Level::Comparison, toks, start, names) == binary(
                Level::Term,
                toks,
                start,
                names,
            ));
        }
        let mut left = self.parse_term(tokens)?;
        loop
            invariant
                self.wf(),
                tokens.tokens() == toks,
                start < tokens.cursor() <= toks.len(),
                start == old(tokens).cursor(),
                toks == old(tokens).tokens(),
                names == old(self)@,
                binary(Level::Comparison, toks, start, names) == binary_rest(
                    Level::Comparison,
                    toks,
                    tokens.cursor(),
                    self@,
                    left@,
                ),
            ensures
                self.wf(),
                tokens.tokens() == toks,
                start < tokens.cursor(),
                binary(Level::Comparison, toks, start, names) == (Parsed {
                    result: Ok(left@),
                    pos: tokens.cursor(),
                    names: self@,
                }),
            decreases toks.len() - tokens.cursor(),
        {
            let operator = match tokens.peek() {
                Some(TokenType::Equal) => BinaryOperator::Equal,
                Some(TokenType::NotEqual) => BinaryOperator::NotEqual,
                Some(TokenType::Less) => BinaryOperator::Less,
                Some(TokenType::LessEqual) => BinaryOperator::LessEqual,
                Some(TokenType::Greater) => BinaryOperator::Greater,
                Some(TokenType::GreaterEqual) => BinaryOperator::GreaterEqual,
                _ => break ,
            };
            let ghost here = tokens.cursor();
            let ghost seen = self@;
            tokens.next();
            proof {
                assert(operator_at(Level::Comparison, kind_at(toks, here)) == Some(operator));
                assert(operand(Level::Comparison, toks, here + 1, seen) == binary(
                    Level::Term,
                    toks,
                    here + 1,
                    seen,
                ));
            }
            let right = self.parse_term(tokens)?;
            left = Expr::Binary { left: Box::new(left), operator, right: Box::new(right) };
        }
        Ok(left)
    }

    /// `term → factor ( ( '+' | '-' ) factor )*`
    pub fn parse_term(&mut self, tokens: &mut TokenBuffer) -> (r: Result<Expr, ParserError>)
        requires
            old(self).wf(),
        ensures
            final(tokens).wf(),
            final(self).wf(),
            final(tokens).tokens() == old(tokens).tokens(),
            (Parsed { result: viewed(r), pos: final(tokens).cursor(), names: final(self)@ })
                == binary(Level::Term, old(tokens).tokens(), old(tokens).cursor(), old(self)@),
            r is Ok ==> final(tokens).cursor() > old(tokens).cursor(),
        decreases old(tokens).remaining(), 9nat,
    {
        let ghost toks = tokens.tokens();
        let ghost start = tokens.cursor();
        let ghost names = self@;
        proof {
            assert(operand(Level::Term, toks, start, names) == binary(
                Level::Factor,
                toks,
                start,
                names,
            ));
        }
        let mut left = self.parse_factor(tokens)?;
        loop
            invariant
                self.wf(),
                tokens.tokens() == toks,
                start < tokens.cursor() <= toks.len(),
                start == old(tokens).cursor(),
                toks == old(tokens).tokens(),
                names == old(self)@,
                binary(Level::Term, toks, start, names) == binary_rest(
                    Level::Term,
                    toks,
                    tokens.cursor(),
                    self@,
                    left@,
                ),
            ensures
                self.wf(),
                tokens.tokens() == toks,
                start < tokens.cursor(),
                binary(Level::Term, toks, start, names) == (Parsed {
                    result: Ok(left@),
                    pos: tokens.cursor(),
                    names: self@,
                }),
            decreases toks.len() - tokens.cursor(),
        {
            let operator = match tokens.peek() {
                Some(TokenType::Plus) => BinaryOperator::Plus,
                Some(TokenType::Minus) => BinaryOperator::Minus,
                _ => break ,
            };
            let ghost here = tokens.cursor();
            let ghost seen = self@;
            tokens.next();
            proof {
                assert(operator_at(Level::Term, kind_at(toks, here)) == Some(operator));
                assert(operand(Level::Term, toks, here + 1, seen) == binary(
                    Level::Factor,
                    toks,
                    here + 1,
                    seen,
                ));
            }
            let right = self.parse_factor(tokens)?;
            left = Expr::Binary { left: Box::new(left), operator, right: Box::new(right) };
        }
        Ok(left)
    }

    /// `factor → call ( ( '*' | '/' ) call )*`
    pub fn parse_factor(&mut self, tokens: &mut TokenBuffer) -> (r: Result<Expr, ParserError>)
        requires
            old(self).wf(),
        ensures
            final(tokens).wf(),
            final(self).wf(),
            final(tokens).tokens() == old(tokens).tokens(),
            (Parsed { result: viewed(r), pos: final(tokens).cursor(), names: final(self)@ })
                == binary(Level::Factor, old(tokens).tokens(), old(tokens).cursor(), old(self)@),
            r is Ok ==> final(tokens).cursor() > old(tokens).cursor(),
        decreases old(tokens).remaining(), 6nat,
    {
        let ghost toks = tokens.tokens();
        let ghost start = tokens.cursor();
        let ghost names = self@;
        proof {
            assert(operand(Level::Factor, toks, start, names) == call(toks, start, names));
        }
        let mut left = self.parse_call(tokens)?;
        loop
            invariant
                self.wf(),
                tokens.tokens() == toks,
                start < tokens.cursor() <= toks.len(),
                start == old(tokens).cursor(),
                toks == old(tokens).tokens(),
                names == old(self)@,
                binary(Level::Factor, toks, start, names) == binary_rest(
                    Level::Factor,
                    toks,
                    tokens.cursor(),
                    self@,
                    left@,
                ),
            ensures
                self.wf(),
                tokens.tokens() == toks,
                start < tokens.cursor(),
                binary(Level::Factor, toks, start, names) == (Parsed {
                    result: Ok(left@),
                    pos: tokens.cursor(),
                    names: self@,
                }),
            decreases toks.len() - tokens.cursor(),
        {
            let operator = match tokens.peek() {
                Some(TokenType::Star) => BinaryOperator::Star,
                Some(TokenType::Slash) => BinaryOperator::Slash,
                _ => break ,
            };
            let ghost here = tokens.cursor();
            let ghost seen = self@;
            tokens.next();
            proof {
                assert(operator_at(Level::Factor, kind_at(toks, here)) == Some(operator));
                assert(operand(Level::Factor, toks, here + 1, seen) == call(toks, here + 1, seen));
            }
            let right = match self.parse_call(tokens) {
                Ok(e) => e,
                Err(e) => return Err(e),
            };
            left = Expr::Binary { left: Box::new(left), operator, right: Box::new(right) };
        }
        Ok(left)
    }

    /// `call → primary ( '(' args ')' | '[' indexes ']' )*`
    pub fn parse_call(&mut self, tokens: &mut TokenBuffer) -> (r: Result<Expr, ParserError>)
        requires
            old(self).wf(),
        ensures
            final(tokens).wf(),
            final(self).wf(),
            final(tokens).tokens() == old(tokens).tokens(),
            (Parsed { result: viewed(r), pos: final(tokens).cursor(), names: final(self)@ })
                == call(old(tokens).tokens(), old(tokens).cursor(), old(self)@),
            r is Ok ==> final(tokens).cursor() > old(tokens).cursor(),
        decreases old(tokens).remaining(), 4nat,
    {
        let left = self.parse_primary(tokens)?;
        self.parse_suffixes(tokens, left)
    }

    /// `( '(' args ')' | '[' indexes ']' )*` behind the expression `base`:
    /// each call or index takes what stands before it as its function or
    /// array.
    pub fn parse_suffixes(&mut self, tokens: &mut TokenBuffer, base: Expr) -> (r: Result<
        Expr,
        ParserError,
    >)
        requires
            old(self).wf(),
        ensures
            final(tokens).wf(),
            final(self).wf(),
            final(tokens).tokens() == old(tokens).tokens(),
            (Parsed { result: viewed(r), pos: final(tokens).cursor(), names: final(self)@ })
                == suffixes(old(tokens).tokens(), old(tokens).cursor(), old(self)@, base@),
            r is Ok ==> final(tokens).cursor() >= old(tokens).cursor(),
        decreases old(tokens).remaining(), 1nat,
    {
        let ghost toks = tokens.tokens();
        let ghost start = tokens.cursor();
        let ghost names = self@;
        proof {
            use_type_invariant(&*tokens);
        }
        let ghost first = base@;
        let mut left = base;
        loop
            invariant
                self.wf(),
                tokens.tokens() == toks,
                start <= tokens.cursor() <= toks.len(),
                start == old(tokens).cursor(),
                toks == old(tokens).tokens(),
                names == old(self)@,
                first == base@,
                suffixes(toks, start, names, first) == suffixes(
                    toks,
                    tokens.cursor(),
                    self@,
                    left@,
                ),
            ensures
                self.wf(),
                tokens.tokens() == toks,
                start <= tokens.cursor(),
                suffixes(toks, start, names, first) == (Parsed {
                    result: Ok(left@),
                    pos: tokens.cursor(),
                    names: self@,
                }),
            decreases toks.len() - tokens.cursor(),
        {
            let ghost here = tokens.cursor();
            let ghost seen = self@;
            let ghost before = left@;
            match tokens.next() {
                Some(TokenType::LParen) => {
                    assert(kind_at(toks, here) == Some(TokenTypeView::LParen));
                    let right = self.parse_list(tokens, &TokenType::RParen)?;
                    let call = Expr::FunctionCall { function: Box::new(left), args: right };
                    proof {
                        lemma_view_of_lists(call);
                    }
                    left = call;
                },
                Some(TokenType::LBracket) => {
                    assert(kind_at(toks, here) == Some(TokenTypeView::LBracket));
                    let right = self.parse_list(tokens, &TokenType::RBracket)?;
                    let index = Expr::ArrayIndex { array: Box::new(left), indexes: right };
                    proof {
                        lemma_view_of_lists(index);
                    }
                    left = index;
                },
                Some(_) => {
                    tokens.backtrack();
                    break ;
                },
                None => {
                    break ;
                },
            }
        }
        Ok(left)
    }

    /// `close | expression ( ',' expression )* close`: a list of arguments or
    /// indexes behind its opening delimiter. An empty list is in order; a
    /// comma with no expression behind it is not.
    pub fn parse_list(&mut self, tokens: &mut TokenBuffer, close: &TokenType) -> (r: Result<
        Vec<Expr>,
        ParserError,
    >)
        requires
            old(self).wf(),
        ensures
            final(tokens).wf(),
            final(self).wf(),
            final(tokens).tokens() == old(tokens).tokens(),
            (Parsed { result: viewed_exprs(r), pos: final(tokens).cursor(), names: final(self)@ })
                == list(old(tokens).tokens(), old(tokens).cursor(), old(self)@, close@),
            r is Ok ==> final(tokens).cursor() > old(tokens).cursor(),
        decreases old(tokens).remaining(), 21nat,
    {
        let ghost toks = tokens.tokens();
        let ghost start = tokens.cursor();
        let ghost names = self@;
        proof {
            reveal(expression);
        }
        if tokens.next_if_equal(close).is_some() {
            let empty: Vec<Expr> = Vec::new();
            assert(expr_views(empty@) =~= Seq::<ExprView>::empty());
            return Ok(empty);
        }
        let mut right: Vec<Expr> = Vec::new();
        assert(expr_views(right@) =~= Seq::<ExprView>::empty());
        loop
            invariant
                self.wf(),
                tokens.tokens() == toks,
                start <= tokens.cursor() <= toks.len(),
                start == old(tokens).cursor(),
                toks == old(tokens).tokens(),
                names == old(self)@,
                list(toks, start, names, close@) == elements(
                    toks,
                    tokens.cursor(),
                    self@,
                    close@,
                    expr_views(right@),
                ),
                right@.len() == 0 ==> tokens.cursor() == start,
            decreases toks.len() - tokens.cursor(),
        {
            proof {
                reveal(expression);
            }
            let ghost before = expr_views(right@);
            let item = self.parse_expression(tokens)?;
            right.push(item);
            assert(expr_views(right@) =~= before.push(item@));
            match tokens.next() {
                Some(kind) => {
                    if kind == *close {
                        return Ok(right);
                    } else if kind == TokenType::Comma {
                    } else {
                        tokens.backtrack();
                        return Err(tokens.unexpected_token());
                    }
                },
                None => {
                    return Err(ParserError::UnexpectedEOF);
                },
            }
        }
    }

    /// A name: one identifier token. Any other token is refused.
    pub fn parse_identifier(&mut self, tokens: &mut TokenBuffer) -> (r: Result<Expr, ParserError>)
        requires
            old(self).wf(),
        ensures
            final(tokens).wf(),
            final(self).wf(),
            final(tokens).tokens() == old(tokens).tokens(),
            (Parsed { result: viewed(r), pos: final(tokens).cursor(), names: final(self)@ })
                == identifier(old(tokens).tokens(), old(tokens).cursor(), old(self)@),
            r is Ok ==> final(tokens).cursor() > old(tokens).cursor(),
    {
        proof {
            reveal(identifier);
        }
        match tokens.next() {
            Some(TokenType::Identifier(ident)) => Ok(
                Expr::Identifier { handle: self.get_ident_handle(ident) },
            ),
            Some(_) => {
                tokens.backtrack();
                Err(tokens.unexpected_token())
            },
            None => Err(ParserError::UnexpectedEOF),
        }
    }

    /// A bare literal: one token that is a character, a string, an integer,
    /// a real number or a boolean. Any other token is refused.
    pub fn parse_literal(&mut self, tokens: &mut TokenBuffer) -> (r: Result<Literal, ParserError>)
        ensures
            final(tokens).wf(),
            *final(self) == *old(self),
            final(tokens).tokens() == old(tokens).tokens(),
            (Parsed { result: viewed(r), pos: final(tokens).cursor(), names: final(self)@ })
                == literal(old(tokens).tokens(), old(tokens).cursor(), old(self)@),
            r is Ok ==> final(tokens).cursor() > old(tokens).cursor(),
    {
        proof {
            reveal(literal);
        }
        match tokens.next() {
            Some(TokenType::CharLiteral(c)) => Ok(Literal::Char(c)),
            Some(TokenType::StringLiteral(s)) => Ok(Literal::String(s)),
            Some(TokenType::IntegerLiteral(i)) => Ok(Literal::Integer(i)),
            Some(TokenType::RealLiteral(r)) => Ok(Literal::Real(r)),
            Some(TokenType::BooleanLiteral(b)) => Ok(Literal::Boolean(b)),
            Some(_) => {
                tokens.backtrack();
                Err(tokens.unexpected_token())
            },
            None => Err(ParserError::UnexpectedEOF),
        }
    }

    /// `assignable → name ( '(' args ')' | '[' indexes ']' )*`
    pub fn parse_assignable(&mut self, tokens: &mut TokenBuffer) -> (r: Result<Expr, ParserError>)
        requires
            old(self).wf(),
        ensures
            final(tokens).wf(),
            final(self).wf(),
            final(tokens).tokens() == old(tokens).tokens(),
            (Parsed { result: viewed(r), pos: final(tokens).cursor(), names: final(self)@ })
                == assignable(old(tokens).tokens(), old(tokens).cursor(), old(self)@),
            r is Ok ==> final(tokens).cursor() > old(tokens).cursor(),
    {
        proof {
            reveal(assignable);
        }
        let base = self.parse_identifier(tokens)?;
        self.parse_suffixes(tokens, base)
    }

    /// `type → INTEGER | REAL | STRING | CHAR | BOOLEAN`
    pub fn parse_type(&mut self, tokens: &mut TokenBuffer) -> (r: Result<Type, ParserError>)
        ensures
            final(tokens).wf(),
            *final(self) == *old(self),
            final(tokens).tokens() == old(tokens).tokens(),
            (Parsed { result: viewed_type(r), pos: final(tokens).cursor(), names: final(self)@ })
                == declared_type(old(tokens).tokens(), old(tokens).cursor(), old(self)@),
            r is Ok ==> final(tokens).cursor() > old(tokens).cursor(),
    {
        proof {
            reveal(declared_type);
        }
        match tokens.next() {
            Some(TokenType::Integer) => Ok(Type::Primitive(PrimitiveType::Integer)),
            Some(TokenType::Real) => Ok(Type::Primitive(PrimitiveType::Real)),
            Some(TokenType::String) => Ok(Type::Primitive(PrimitiveType::String)),
            Some(TokenType::Char) => Ok(Type::Primitive(PrimitiveType::Char)),
            Some(TokenType::Boolean) => Ok(Type::Primitive(PrimitiveType::Boolean)),
            Some(_) => {
                tokens.backtrack();
                Err(tokens.unexpected_token())
            },
            None => Err(ParserError::UnexpectedEOF),
        }
    }

    /// `parameter → name ':' type`
    pub fn parse_parameter(&mut self, tokens: &mut TokenBuffer) -> (r: Result<
        Parameter,
        ParserError,
    >)
        requires
            old(self).wf(),
        ensures
            final(tokens).wf(),
            final(self).wf(),
            final(tokens).tokens() == old(tokens).tokens(),
            (Parsed { result: viewed(r), pos: final(tokens).cursor(), names: final(self)@ })
                == parameter(old(tokens).tokens(), old(tokens).cursor(), old(self)@),
            r is Ok ==> final(tokens).cursor() > old(tokens).cursor(),
    {
        let name = self.parse_identifier(tokens)?;
        tokens.consume(&TokenType::Colon)?;
        let type_ = self.parse_type(tokens)?;
        Ok(Parameter { name, type_ })
    }

    /// `'(' ( parameter ( ',' parameter )* )? ')'`
    pub fn parse_parameter_list(&mut self, tokens: &mut TokenBuffer) -> (r: Result<
        Vec<Parameter>,
        ParserError,
    >)
        requires
            old(self).wf(),
        ensures
            final(tokens).wf(),
            final(self).wf(),
            final(tokens).tokens() == old(tokens).tokens(),
            (Parsed {
                result: viewed_parameters(r),
                pos: final(tokens).cursor(),
                names: final(self)@,
            }) == parameter_list(old(tokens).tokens(), old(tokens).cursor(), old(self)@),
            r is Ok ==> final(tokens).cursor() > old(tokens).cursor(),
    {
        let ghost toks = tokens.tokens();
        let ghost start = tokens.cursor();
        let ghost names = self@;
        proof {
            reveal(parameter_list);
        }
        tokens.consume(&TokenType::LParen)?;
        if tokens.next_if_equal(&TokenType::RParen).is_some() {
            let empty: Vec<Parameter> = Vec::new();
            assert(parameter_views(empty@) =~= Seq::<ParameterView>::empty());
            return Ok(empty);
        }
        let mut params: Vec<Parameter> = Vec::new();
        assert(parameter_views(params@) =~= Seq::<ParameterView>::empty());
        loop
            invariant
                self.wf(),
                tokens.tokens() == toks,
                start < tokens.cursor() <= toks.len(),
                start == old(tokens).cursor(),
                toks == old(tokens).tokens(),
                names == old(self)@,
                parameter_list(toks, start, names) == parameters(
                    toks,
                    tokens.cursor(),
                    self@,
                    parameter_views(params@),
                ),
            decreases toks.len() - tokens.cursor(),
        {
            let ghost before = parameter_views(params@);
            let item = self.parse_parameter(tokens)?;
            params.push(item);
            assert(parameter_views(params@) =~= before.push(item@));
            match tokens.next() {
                Some(TokenType::RParen) => {
                    return Ok(params);
                },
                Some(TokenType::Comma) => {},
                Some(_) => {
                    tokens.backtrack();
                    return Err(tokens.unexpected_token());
                },
                None => {
                    return Err(ParserError::UnexpectedEOF);
                },
            }
        }
    }

    /// `expression ( ',' expression )*`: the operands of `INPUT` and
    /// `OUTPUT`. The list ends before the first token behind an expression
    /// that is no comma, or where the tokens end.
    pub fn parse_comma_separated(&mut self, tokens: &mut TokenBuffer) -> (r: Result<
        Vec<Expr>,
        ParserError,
    >)
        requires
            old(self).wf(),
        ensures
            final(tokens).wf(),
            final(self).wf(),
            final(tokens).tokens() == old(tokens).tokens(),
            (Parsed { result: viewed_exprs(r), pos: final(tokens).cursor(), names: final(self)@ })
                == items(old(tokens).tokens(), old(tokens).cursor(), old(self)@, Seq::empty()),
            r is Ok ==> final(tokens).cursor() > old(tokens).cursor(),
    {
        let ghost toks = tokens.tokens();
        let ghost start = tokens.cursor();
        let ghost names = self@;
        proof {
            use_type_invariant(&*tokens);
        }
        let mut right: Vec<Expr> = Vec::new();
        assert(expr_views(right@) =~= Seq::<ExprView>::empty());
        loop
            invariant
                self.wf(),
                tokens.tokens() == toks,
                start <= tokens.cursor() <= toks.len(),
                start == old(tokens).cursor(),
                toks == old(tokens).tokens(),
                names == old(self)@,
                items(toks, start, names, Seq::empty()) == items(
                    toks,
                    tokens.cursor(),
                    self@,
                    expr_views(right@),
                ),
            decreases toks.len() - tokens.cursor(),
        {
            let ghost before = expr_views(right@);
            let item = self.parse_expression(tokens)?;
            right.push(item);
            assert(expr_views(right@) =~= before.push(item@));
            match tokens.peek() {
                Some(TokenType::Comma) => {
                    tokens.next();
                },
                _ => {
                    return Ok(right);
                },
            }
        }
    }

    /// One statement. The first token selects the form; a token that opens
    /// none of the forms leaves the statement to be an assignment.
    pub fn parse_stmt(&mut self, tokens: &mut TokenBuffer) -> (r: Result<Stmt, ParserError>)
        requires
            old(self).wf(),
        ensures
            final(tokens).wf(),
            final(self).wf(),
            final(tokens).tokens() == old(tokens).tokens(),
            (Parsed { result: viewed(r), pos: final(tokens).cursor(), names: final(self)@ })
                == statement(old(tokens).tokens(), old(tokens).cursor(), old(self)@),
            r is Ok ==> final(tokens).cursor() > old(tokens).cursor(),
        decreases old(tokens).remaining(), 1nat,
    {
        let next_token = match tokens.next() {
            Some(t) => t,
            None => return Err(ParserError::UnexpectedEOF),
        };
        match next_token {
            TokenType::Procedure => self.parse_procedure(tokens),
            TokenType::Function => self.parse_function(tokens),
            TokenType::If => self.parse_if(tokens),
            TokenType::Return => self.parse_return(tokens),
            TokenType::For => self.parse_for(tokens),
            TokenType::Repeat => self.parse_repeat(tokens),
            TokenType::While => self.parse_while(tokens),
            TokenType::Declare => self.parse_declare(tokens),
            TokenType::Constant => self.parse_constant(tokens),
            TokenType::Input => self.parse_input(tokens),
            TokenType::Output => self.parse_output(tokens),
            _ => {
                tokens.backtrack();
                self.parse_assignment(tokens)
            },
        }
    }

    /// `PROCEDURE name '(' params? ')' block ENDPROCEDURE`, the cursor standing
    /// behind `PROCEDURE`.
    fn parse_procedure(&mut self, tokens: &mut TokenBuffer) -> (r: Result<Stmt, ParserError>)
        requires
            old(self).wf(),
            kind_at(old(tokens).tokens(), old(tokens).cursor() - 1) == Some(
                TokenTypeView::Procedure,
            ),
        ensures
            final(tokens).wf(),
            final(self).wf(),
            final(tokens).tokens() == old(tokens).tokens(),
            (Parsed { result: viewed(r), pos: final(tokens).cursor(), names: final(self)@ })
                == procedure(old(tokens).tokens(), old(tokens).cursor() - 1, old(self)@),
            r is Ok ==> final(tokens).cursor() >= old(tokens).cursor(),
        decreases old(tokens).remaining(), 4nat,
    {
        let name = self.parse_identifier(tokens)?;
        let params = self.parse_parameter_list(tokens)?;
        let body = self.parse_block(tokens);
        tokens.consume(&TokenType::EndProcedure)?;
        Ok(Stmt::ProcedureDecl { name, params, body })
    }

    /// `FUNCTION name '(' params? ')' RETURNS type block ENDFUNCTION`, the
    /// cursor standing behind `FUNCTION`.
    fn parse_function(&mut self, tokens: &mut TokenBuffer) -> (r: Result<Stmt, ParserError>)
        requires
            old(self).wf(),
            kind_at(old(tokens).tokens(), old(tokens).cursor() - 1) == Some(
                TokenTypeView::Function,
            ),
        ensures
            final(tokens).wf(),
            final(self).wf(),
            final(tokens).tokens() == old(tokens).tokens(),
            (Parsed { result: viewed(r), pos: final(tokens).cursor(), names: final(self)@ })
                == function(old(tokens).tokens(), old(tokens).cursor() - 1, old(self)@),
            r is Ok ==> final(tokens).cursor() >= old(tokens).cursor(),
        decreases old(tokens).remaining(), 4nat,
    {
        let name = self.parse_identifier(tokens)?;
        let params = self.parse_parameter_list(tokens)?;
        tokens.consume(&TokenType::Returns)?;
        let return_type = self.parse_type(tokens)?;
        let body = self.parse_block(tokens);
        tokens.consume(&TokenType::EndFunction)?;
        Ok(Stmt::FunctionDecl { name, params, return_type, body })
    }

    /// `IF expression THEN block ( ELSE block )? ENDIF`, the cursor standing
    /// behind `IF`. Where no `ELSE` follows the first block, the statement has
    /// no second.
    fn parse_if(&mut self, tokens: &mut TokenBuffer) -> (r: Result<Stmt, ParserError>)
        requires
            old(self).wf(),
            kind_at(old(tokens).tokens(), old(tokens).cursor() - 1) == Some(TokenTypeView::If),
        ensures
            final(tokens).wf(),
            final(self).wf(),
            final(tokens).tokens() == old(tokens).tokens(),
            (Parsed { result: viewed(r), pos: final(tokens).cursor(), names: final(self)@ })
                == conditional(old(tokens).tokens(), old(tokens).cursor() - 1, old(self)@),
            r is Ok ==> final(tokens).cursor() >= old(tokens).cursor(),
        decreases old(tokens).remaining(), 4nat,
    {
        let condition = self.parse_expression(tokens)?;
        tokens.consume(&TokenType::Then)?;
        let then_branch = self.parse_block(tokens);
        let else_branch = match tokens.consume(&TokenType::Else) {
            Ok(_) => Some(self.parse_block(tokens)),
            Err(_) => None,
        };
        tokens.consume(&TokenType::EndIf)?;
        Ok(Stmt::If { condition, then_branch, else_branch })
    }

    /// `RETURN expression`, the cursor standing behind `RETURN`.
    fn parse_return(&mut self, tokens: &mut TokenBuffer) -> (r: Result<Stmt, ParserError>)
        requires
            old(self).wf(),
            kind_at(old(tokens).tokens(), old(tokens).cursor() - 1) == Some(TokenTypeView::Return),
        ensures
            final(tokens).wf(),
            final(self).wf(),
            final(tokens).tokens() == old(tokens).tokens(),
            (Parsed { result: viewed(r), pos: final(tokens).cursor(), names: final(self)@ })
                == return_value(old(tokens).tokens(), old(tokens).cursor() - 1, old(self)@),
            r is Ok ==> final(tokens).cursor() >= old(tokens).cursor(),
        decreases old(tokens).remaining(), 4nat,
    {
        proof {
            reveal(return_value);
        }
        Ok(Stmt::Return(self.parse_expression(tokens)?))
    }

    /// `FOR assignable '<-' expression TO expression ( STEP expression )? block
    /// NEXT`, the cursor standing behind `FOR`. Where no `STEP` follows the end
    /// value, the loop has no step.
    fn parse_for(&mut self, tokens: &mut TokenBuffer) -> (r: Result<Stmt, ParserError>)
        requires
            old(self).wf(),
            kind_at(old(tokens).tokens(), old(tokens).cursor() - 1) == Some(TokenTypeView::For),
        ensures
            final(tokens).wf(),
            final(self).wf(),
            final(tokens).tokens() == old(tokens).tokens(),
            (Parsed { result: viewed(r), pos: final(tokens).cursor(), names: final(self)@ })
                == for_loop(old(tokens).tokens(), old(tokens).cursor() - 1, old(self)@),
            r is Ok ==> final(tokens).cursor() >= old(tokens).cursor(),
        decreases old(tokens).remaining(), 4nat,
    {
        let target = self.parse_assignable(tokens)?;
        tokens.consume(&TokenType::LArrow)?;
        let start = self.parse_expression(tokens)?;
        tokens.consume(&TokenType::To)?;
        let end = self.parse_expression(tokens)?;
        let step = match tokens.consume(&TokenType::Step) {
            Ok(_) => Some(self.parse_expression(tokens)?),
            Err(_) => None,
        };
        let body = self.parse_block(tokens);
        tokens.consume(&TokenType::Next)?;
        Ok(Stmt::ForLoop { target, start, end, step, body })
    }

    /// `REPEAT block UNTIL expression`, the cursor standing behind `REPEAT`.
    fn parse_repeat(&mut self, tokens: &mut TokenBuffer) -> (r: Result<Stmt, ParserError>)
        requires
            old(self).wf(),
            kind_at(old(tokens).tokens(), old(tokens).cursor() - 1) == Some(TokenTypeView::Repeat),
        ensures
            final(tokens).wf(),
            final(self).wf(),
            final(tokens).tokens() == old(tokens).tokens(),
            (Parsed { result: viewed(r), pos: final(tokens).cursor(), names: final(self)@ })
                == repeat_until(old(tokens).tokens(), old(tokens).cursor() - 1, old(self)@),
            r is Ok ==> final(tokens).cursor() >= old(tokens).cursor(),
        decreases old(tokens).remaining(), 4nat,
    {
        let body = self.parse_block(tokens);
        tokens.consume(&TokenType::Until)?;
        let condition = self.parse_expression(tokens)?;
        Ok(Stmt::RepeatUntil { condition, body })
    }

    /// `WHILE expression DO block ENDWHILE`, the cursor standing behind
    /// `WHILE`.
    fn parse_while(&mut self, tokens: &mut TokenBuffer) -> (r: Result<Stmt, ParserError>)
        requires
            old(self).wf(),
            kind_at(old(tokens).tokens(), old(tokens).cursor() - 1) == Some(TokenTypeView::While),
        ensures
            final(tokens).wf(),
            final(self).wf(),
            final(tokens).tokens() == old(tokens).tokens(),
            (Parsed { result: viewed(r), pos: final(tokens).cursor(), names: final(self)@ })
                == while_loop(old(tokens).tokens(), old(tokens).cursor() - 1, old(self)@),
            r is Ok ==> final(tokens).cursor() >= old(tokens).cursor(),
        decreases old(tokens).remaining(), 4nat,
    {
        let condition = self.parse_expression(tokens)?;
        tokens.consume(&TokenType::Do)?;
        let body = self.parse_block(tokens);
        tokens.consume(&TokenType::EndWhile)?;
        Ok(Stmt::While { condition, body })
    }

    /// `DECLARE name ':' type`, the cursor standing behind `DECLARE`.
    fn parse_declare(&mut self, tokens: &mut TokenBuffer) -> (r: Result<Stmt, ParserError>)
        requires
            old(self).wf(),
            kind_at(old(tokens).tokens(), old(tokens).cursor() - 1) == Some(TokenTypeView::Declare),
        ensures
            final(tokens).wf(),
            final(self).wf(),
            final(tokens).tokens() == old(tokens).tokens(),
            (Parsed { result: viewed(r), pos: final(tokens).cursor(), names: final(self)@ })
                == declaration(old(tokens).tokens(), old(tokens).cursor() - 1, old(self)@),
            r is Ok ==> final(tokens).cursor() >= old(tokens).cursor(),
        decreases old(tokens).remaining(), 4nat,
    {
        proof {
            reveal(declaration);
        }
        let name = self.parse_identifier(tokens)?;
        tokens.consume(&TokenType::Colon)?;
        let type_ = self.parse_type(tokens)?;
        Ok(Stmt::VariableDecl { name, type_ })
    }

    /// `CONSTANT name '<-' literal`, the cursor standing behind `CONSTANT`. The
    /// value is a bare literal: an expression in its place is refused at its
    /// first token.
    fn parse_constant(&mut self, tokens: &mut TokenBuffer) -> (r: Result<Stmt, ParserError>)
        requires
            old(self).wf(),
            kind_at(old(tokens).tokens(), old(tokens).cursor() - 1) == Some(
                TokenTypeView::Constant,
            ),
        ensures
            final(tokens).wf(),
            final(self).wf(),
            final(tokens).tokens() == old(tokens).tokens(),
            (Parsed { result: viewed(r), pos: final(tokens).cursor(), names: final(self)@ })
                == constant(old(tokens).tokens(), old(tokens).cursor() - 1, old(self)@),
            r is Ok ==> final(tokens).cursor() >= old(tokens).cursor(),
        decreases old(tokens).remaining(), 4nat,
    {
        proof {
            reveal(constant);
        }
        let name = self.parse_identifier(tokens)?;
        tokens.consume(&TokenType::LArrow)?;
        let value = self.parse_literal(tokens)?;
        Ok(Stmt::ConstantDecl { name, value })
    }

    /// `INPUT expression ( ',' expression )*`, the cursor standing behind
    /// `INPUT`.
    fn parse_input(&mut self, tokens: &mut TokenBuffer) -> (r: Result<Stmt, ParserError>)
        requires
            old(self).wf(),
            kind_at(old(tokens).tokens(), old(tokens).cursor() - 1) == Some(TokenTypeView::Input),
        ensures
            final(tokens).wf(),
            final(self).wf(),
            final(tokens).tokens() == old(tokens).tokens(),
            (Parsed { result: viewed(r), pos: final(tokens).cursor(), names: final(self)@ })
                == input(old(tokens).tokens(), old(tokens).cursor() - 1, old(self)@),
            r is Ok ==> final(tokens).cursor() >= old(tokens).cursor(),
        decreases old(tokens).remaining(), 4nat,
    {
        proof {
            reveal(input);
        }
        Ok(Stmt::Input(self.parse_comma_separated(tokens)?))
    }

    /// `OUTPUT expression ( ',' expression )*`, the cursor standing behind
    /// `OUTPUT`.
    fn parse_output(&mut self, tokens: &mut TokenBuffer) -> (r: Result<Stmt, ParserError>)
        requires
            old(self).wf(),
            kind_at(old(tokens).tokens(), old(tokens).cursor() - 1) == Some(TokenTypeView::Output),
        ensures
            final(tokens).wf(),
            final(self).wf(),
            final(tokens).tokens() == old(tokens).tokens(),
            (Parsed { result: viewed(r), pos: final(tokens).cursor(), names: final(self)@ })
                == output(old(tokens).tokens(), old(tokens).cursor() - 1, old(self)@),
            r is Ok ==> final(tokens).cursor() >= old(tokens).cursor(),
        decreases old(tokens).remaining(), 4nat,
    {
        proof {
            reveal(output);
        }
        Ok(Stmt::Output(self.parse_comma_separated(tokens)?))
    }

    /// `assignable '<-' expression`
    fn parse_assignment(&mut self, tokens: &mut TokenBuffer) -> (r: Result<Stmt, ParserError>)
        requires
            old(self).wf(),
        ensures
            final(tokens).wf(),
            final(self).wf(),
            final(tokens).tokens() == old(tokens).tokens(),
            (Parsed { result: viewed(r), pos: final(tokens).cursor(), names: final(self)@ })
                == assignment(old(tokens).tokens(), old(tokens).cursor(), old(self)@),
            r is Ok ==> final(tokens).cursor() > old(tokens).cursor(),
    {
        proof {
            reveal(assignment);
        }
        let target = self.parse_assignable(tokens)?;
        tokens.consume(&TokenType::LArrow)?;
        let value = self.parse_expression(tokens)?;
        Ok(Stmt::Assignment { target, value })
    }

    /// `statement*`: statements up to the first that fails. The cursor ends
    /// where the failed statement began, so that what closes the block is the
    /// next token.
    pub fn parse_block(&mut self, tokens: &mut TokenBuffer) -> (b: Block)
        requires
            old(self).wf(),
        ensures
            final(tokens).wf(),
            final(self).wf(),
            final(tokens).tokens() == old(tokens).tokens(),
            (Parsed {
                result: Ok::<_, ParserErrorView>(b@),
                pos: final(tokens).cursor(),
                names: final(self)@,
            }) == block(old(tokens).tokens(), old(tokens).cursor(), old(self)@),
            final(tokens).cursor() >= old(tokens).cursor(),
        decreases old(tokens).remaining(), 3nat,
    {
        let ghost toks = tokens.tokens();
        let ghost start = tokens.cursor();
        let ghost names = self@;
        proof {
            use_type_invariant(&*tokens);
        }
        let mut contents: Vec<Stmt> = Vec::new();
        assert(stmt_views(contents@) =~= Seq::<StmtView>::empty());
        loop
            invariant_except_break
                block(toks, start, names) == block_from(
                    toks,
                    tokens.cursor(),
                    self@,
                    stmt_views(contents@),
                ),
            invariant
                self.wf(),
                tokens.tokens() == toks,
                start <= tokens.cursor() <= toks.len(),
                start == old(tokens).cursor(),
                toks == old(tokens).tokens(),
                names == old(self)@,
            ensures
                self.wf(),
                tokens.tokens() == toks,
                start <= tokens.cursor() <= toks.len(),
                block(toks, start, names).result is Ok,
                block(toks, start, names).value().contents == stmt_views(contents@),
                block(toks, start, names).pos == tokens.cursor(),
                block(toks, start, names).names == self@,
            decreases toks.len() - tokens.cursor(),
        {
            let ghost before = stmt_views(contents@);
            let ghost here = tokens.cursor();
            let ghost seen = self@;
            let saved = tokens.position();
            match self.parse_stmt(tokens) {
                Ok(stmt) => {
                    contents.push(stmt);
                    assert(stmt_views(contents@) =~= before.push(stmt@));
                    assert(block_from(toks, here, seen, before) == block_from(
                        toks,
                        tokens.cursor(),
                        self@,
                        before.push(stmt@),
                    ));
                },
                Err(_) => {
                    tokens.rewind(saved);
                    assert(block_from(toks, here, seen, before) == (Parsed {
                        result: Ok::<_, ParserErrorView>(BlockView { contents: before }),
                        pos: here,
                        names: self@,
                    }));
                    break ;
                },
            }
        }
        let b = Block { contents };
        proof {
            lemma_view_of_block(b);
        }
        b
    }
}

/// Parses one expression from the start of `tokens`, in a session of its own.
pub fn parse_expression(tokens: Vec<Token>) -> (r: Result<Expr, ParserError>)
    ensures
        viewed(r) == expression(token_views(tokens@), 0, Seq::empty()).result,
{
    let mut buf = TokenBuffer::from_iter(tokens);
    let mut parser = Parser::new();
    parser.parse_expression(&mut buf)
}

/// Parses one statement from the start of `tokens`, in a session of its own.
pub fn parse_statement(tokens: Vec<Token>) -> (r: Result<Stmt, ParserError>)
    ensures
        viewed(r) == statement(token_views(tokens@), 0, Seq::empty()).result,
{
    let mut buf = TokenBuffer::from_iter(tokens);
    let mut parser = Parser::new();
    parser.parse_stmt(&mut buf)
}

/// Parses statements from the start of `tokens` up to the first that fails,
/// in a session of its own.
pub fn parse_block(tokens: Vec<Token>) -> (b: Block)
    ensures
        Ok::<_, ParserErrorView>(b@) == block(token_views(tokens@), 0, Seq::empty()).result,
{
    let mut buf = TokenBuffer::from_iter(tokens);
    let mut parser = Parser::new();
    parser.parse_block(&mut buf)
}

} // verus!
