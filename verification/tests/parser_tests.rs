use pseudocode::ast::{
    BinaryOperator, Block, Expr, Literal, Parameter, PrimitiveType, Stmt, Type, UnaryOperator,
};
use pseudocode::number::Decimal;
use pseudocode::parser::{
    parse_block, parse_expression, parse_statement, Parser, ParserError, TokenBuffer,
};
use pseudocode::scanner::{scan, Token, TokenType};

fn tokens(source: &str) -> Vec<Token> {
    let (tokens, errors) = scan(source);
    assert!(errors.is_empty(), "lexical errors in {:?}: {:?}", source, errors);
    tokens
}

fn expr(source: &str) -> Result<Expr, ParserError> {
    parse_expression(tokens(source))
}

fn stmt(source: &str) -> Result<Stmt, ParserError> {
    parse_statement(tokens(source))
}

fn id(handle: usize) -> Expr {
    Expr::Identifier { handle }
}

fn num(value: i64) -> Expr {
    Expr::Literal(Literal::Integer(value))
}

fn binary(left: Expr, operator: BinaryOperator, right: Expr) -> Expr {
    Expr::Binary { left: Box::new(left), operator, right: Box::new(right) }
}

fn not(right: Expr) -> Expr {
    Expr::Unary { operator: UnaryOperator::LogicNot, right: Box::new(right) }
}

fn call(function: Expr, args: Vec<Expr>) -> Expr {
    Expr::FunctionCall { function: Box::new(function), args }
}

fn index(array: Expr, indexes: Vec<Expr>) -> Expr {
    Expr::ArrayIndex { array: Box::new(array), indexes }
}

fn block(contents: Vec<Stmt>) -> Block {
    Block { contents }
}

fn assign(target: Expr, value: Expr) -> Stmt {
    Stmt::Assignment { target, value }
}

fn unexpected_lexeme(error: ParserError) -> String {
    match error {
        ParserError::UnexpectedToken(token) => token.lexeme,
        ParserError::UnexpectedEOF => panic!("the tokens ran out"),
    }
}

#[test]
fn multiplication_binds_tighter_than_addition() {
    assert_eq!(
        expr("1 + 2 * 3").unwrap(),
        binary(num(1), BinaryOperator::Plus, binary(num(2), BinaryOperator::Star, num(3)))
    );
    assert_eq!(
        expr("1 * 2 + 3").unwrap(),
        binary(binary(num(1), BinaryOperator::Star, num(2)), BinaryOperator::Plus, num(3))
    );
}

#[test]
fn not_takes_a_comparison_and_binds_tighter_than_and() {
    assert_eq!(
        expr("NOT a = b").unwrap(),
        not(binary(id(0), BinaryOperator::Equal, id(1)))
    );
    assert_eq!(
        expr("NOT a + 1 < b").unwrap(),
        not(binary(
            binary(id(0), BinaryOperator::Plus, num(1)),
            BinaryOperator::Less,
            id(1)
        ))
    );
    assert_eq!(
        expr("NOT a AND b").unwrap(),
        binary(not(id(0)), BinaryOperator::LogicAnd, id(1))
    );
}

#[test]
fn not_applies_to_a_whole_comparison_chain_operand() {
    assert_eq!(expr("NOT NOT a").unwrap(), not(not(id(0))));
    assert_eq!(
        expr("a OR NOT b").unwrap(),
        binary(id(0), BinaryOperator::LogicOr, not(id(1)))
    );
}

#[test]
fn binary_operators_associate_to_the_left() {
    assert_eq!(
        expr("1 - 2 + 3").unwrap(),
        binary(binary(num(1), BinaryOperator::Minus, num(2)), BinaryOperator::Plus, num(3))
    );
    assert_eq!(
        expr("8 / 4 / 2").unwrap(),
        binary(binary(num(8), BinaryOperator::Slash, num(4)), BinaryOperator::Slash, num(2))
    );
    assert_eq!(
        expr("a OR b OR c").unwrap(),
        binary(binary(id(0), BinaryOperator::LogicOr, id(1)), BinaryOperator::LogicOr, id(2))
    );
    assert_eq!(
        expr("a < b = c").unwrap(),
        binary(binary(id(0), BinaryOperator::Less, id(1)), BinaryOperator::Equal, id(2))
    );
}

#[test]
fn every_binary_operator() {
    let cases = [
        ("a OR b", BinaryOperator::LogicOr),
        ("a AND b", BinaryOperator::LogicAnd),
        ("a = b", BinaryOperator::Equal),
        ("a <> b", BinaryOperator::NotEqual),
        ("a < b", BinaryOperator::Less),
        ("a <= b", BinaryOperator::LessEqual),
        ("a > b", BinaryOperator::Greater),
        ("a >= b", BinaryOperator::GreaterEqual),
        ("a + b", BinaryOperator::Plus),
        ("a - b", BinaryOperator::Minus),
        ("a * b", BinaryOperator::Star),
        ("a / b", BinaryOperator::Slash),
    ];
    for (source, operator) in cases {
        assert_eq!(expr(source).unwrap(), binary(id(0), operator, id(1)));
    }
}

#[test]
fn precedence_levels_nest() {
    // a OR b AND c = d + e * f
    assert_eq!(
        expr("a OR b AND c = d + e * f").unwrap(),
        binary(
            id(0),
            BinaryOperator::LogicOr,
            binary(
                id(1),
                BinaryOperator::LogicAnd,
                binary(
                    id(2),
                    BinaryOperator::Equal,
                    binary(
                        id(3),
                        BinaryOperator::Plus,
                        binary(id(4), BinaryOperator::Star, id(5))
                    )
                )
            )
        )
    );
}

#[test]
fn parentheses_group() {
    assert_eq!(
        expr("(1 + 2) * 3").unwrap(),
        binary(binary(num(1), BinaryOperator::Plus, num(2)), BinaryOperator::Star, num(3))
    );
    assert_eq!(expr("((x))").unwrap(), id(0));
    assert_eq!(
        expr("NOT (a AND b)").unwrap(),
        not(binary(id(0), BinaryOperator::LogicAnd, id(1)))
    );
}

#[test]
fn literals() {
    assert_eq!(expr("'c'").unwrap(), Expr::Literal(Literal::Char('c')));
    assert_eq!(expr("\"hi\"").unwrap(), Expr::Literal(Literal::String("hi".to_string())));
    assert_eq!(expr("42").unwrap(), num(42));
    assert_eq!(expr("-42").unwrap(), num(-42));
    assert_eq!(expr("TRUE").unwrap(), Expr::Literal(Literal::Boolean(true)));
    assert_eq!(expr("FALSE").unwrap(), Expr::Literal(Literal::Boolean(false)));
    assert_eq!(
        expr("2.5").unwrap(),
        Expr::Literal(Literal::Real(Decimal {
            negative: false,
            whole: "2".to_string(),
            fraction: "5".to_string(),
        }))
    );
}

#[test]
fn calls_and_indexes_chain_from_left_to_right() {
    assert_eq!(expr("f()").unwrap(), call(id(0), vec![]));
    assert_eq!(expr("f(1)").unwrap(), call(id(0), vec![num(1)]));
    assert_eq!(expr("f(1, x, 2 + 3)").unwrap(), call(
        id(0),
        vec![num(1), id(1), binary(num(2), BinaryOperator::Plus, num(3))]
    ));
    assert_eq!(expr("a[1, 2]").unwrap(), index(id(0), vec![num(1), num(2)]));
    assert_eq!(expr("a[]").unwrap(), index(id(0), vec![]));
    assert_eq!(
        expr("a[i](x)[j]").unwrap(),
        index(call(index(id(0), vec![id(1)]), vec![id(2)]), vec![id(3)])
    );
    assert_eq!(
        expr("f(g(x))").unwrap(),
        call(id(0), vec![call(id(1), vec![id(2)])])
    );
    assert_eq!(
        expr("f(x) * 2").unwrap(),
        binary(call(id(0), vec![id(1)]), BinaryOperator::Star, num(2))
    );
}

#[test]
fn trailing_comma_in_a_list_is_an_error() {
    assert_eq!(unexpected_lexeme(expr("f(1, )").unwrap_err()), ")");
    assert_eq!(unexpected_lexeme(expr("a[1, ]").unwrap_err()), "]");
    assert_eq!(unexpected_lexeme(expr("f(, 1)").unwrap_err()), ",");
}

#[test]
fn a_list_wants_its_closing_delimiter() {
    assert_eq!(expr("f(1").unwrap_err(), ParserError::UnexpectedEOF);
    assert_eq!(expr("f(").unwrap_err(), ParserError::UnexpectedEOF);
    assert_eq!(expr("f(1,").unwrap_err(), ParserError::UnexpectedEOF);
    assert_eq!(unexpected_lexeme(expr("f(1 2)").unwrap_err()), "2");
    assert_eq!(unexpected_lexeme(expr("f(1]").unwrap_err()), "]");
    assert_eq!(unexpected_lexeme(expr("a[1)").unwrap_err()), ")");
}

#[test]
fn expression_errors() {
    assert_eq!(expr("").unwrap_err(), ParserError::UnexpectedEOF);
    assert_eq!(expr("1 +").unwrap_err(), ParserError::UnexpectedEOF);
    assert_eq!(expr("NOT").unwrap_err(), ParserError::UnexpectedEOF);
    assert_eq!(expr("(1 + 2").unwrap_err(), ParserError::UnexpectedEOF);
    assert_eq!(unexpected_lexeme(expr("1 + *").unwrap_err()), "*");
    assert_eq!(unexpected_lexeme(expr(")").unwrap_err()), ")");
    assert_eq!(unexpected_lexeme(expr("(1 + 2]").unwrap_err()), "]");
    assert_eq!(unexpected_lexeme(expr("IF").unwrap_err()), "IF");
    assert_eq!(unexpected_lexeme(expr("1 + THEN").unwrap_err()), "THEN");
}

#[test]
fn unexpected_token_carries_the_offending_token() {
    let all = tokens("1 +\n  *");
    let offending = all[2].clone();
    assert_eq!(parse_expression(all).unwrap_err(), ParserError::UnexpectedToken(offending.clone()));
    assert_eq!(offending.type_, TokenType::Star);
    assert_eq!((offending.location.line, offending.location.column), (2, 3));
}

#[test]
fn an_expression_ends_before_what_cannot_go_on() {
    assert_eq!(expr("1 2").unwrap(), num(1));
    assert_eq!(expr("x THEN").unwrap(), id(0));
    assert_eq!(expr("3 -5").unwrap(), num(3));
}

#[test]
fn handles_follow_first_occurrence() {
    assert_eq!(
        expr("a + b * a + c + b").unwrap(),
        binary(
            binary(
                binary(
                    id(0),
                    BinaryOperator::Plus,
                    binary(id(1), BinaryOperator::Star, id(0))
                ),
                BinaryOperator::Plus,
                id(2)
            ),
            BinaryOperator::Plus,
            id(1)
        )
    );
}

#[test]
fn interner_gives_one_handle_per_spelling() {
    let mut parser = Parser::new();
    let a = parser.get_ident_handle("alpha".to_string());
    let b = parser.get_ident_handle("beta".to_string());
    let a_again = parser.get_ident_handle("alpha".to_string());
    let c = parser.get_ident_handle("Alpha".to_string());
    let b_again = parser.get_ident_handle("beta".to_string());
    assert_eq!((a, b, c), (0, 1, 2));
    assert_eq!(a_again, a);
    assert_eq!(b_again, b);
}

#[test]
fn handles_are_shared_across_a_session() {
    let mut buffer = TokenBuffer::from_iter(tokens("x <- y\ny <- x + z"));
    let mut parser = Parser::new();
    assert_eq!(parser.parse_stmt(&mut buffer).unwrap(), assign(id(0), id(1)));
    assert_eq!(
        parser.parse_stmt(&mut buffer).unwrap(),
        assign(id(1), binary(id(0), BinaryOperator::Plus, id(2)))
    );
    assert_eq!(buffer.position(), 8);
}

#[test]
fn if_without_else() {
    let mut buffer = TokenBuffer::from_iter(tokens("IF x THEN y <- 1 ENDIF"));
    let mut parser = Parser::new();
    let parsed = parser.parse_stmt(&mut buffer).unwrap();
    assert_eq!(
        parsed,
        Stmt::If {
            condition: id(0),
            then_branch: block(vec![assign(id(1), num(1))]),
            else_branch: None,
        }
    );
    assert_eq!(buffer.position(), 7);
    assert!(buffer.current_token().is_none());
}

#[test]
fn if_with_else() {
    assert_eq!(
        stmt("IF x > 0 THEN y <- 1 z <- 2 ELSE y <- 2 ENDIF").unwrap(),
        Stmt::If {
            condition: binary(id(0), BinaryOperator::Greater, num(0)),
            then_branch: block(vec![assign(id(1), num(1)), assign(id(2), num(2))]),
            else_branch: Some(block(vec![assign(id(1), num(2))])),
        }
    );
    assert_eq!(
        stmt("IF x THEN ELSE ENDIF").unwrap(),
        Stmt::If {
            condition: id(0),
            then_branch: block(vec![]),
            else_branch: Some(block(vec![])),
        }
    );
}

#[test]
fn if_errors() {
    assert_eq!(stmt("IF x THEN y <- 1").unwrap_err(), ParserError::UnexpectedEOF);
    assert_eq!(stmt("IF x").unwrap_err(), ParserError::UnexpectedEOF);
    assert_eq!(unexpected_lexeme(stmt("IF x y <- 1 ENDIF").unwrap_err()), "y");
    assert_eq!(unexpected_lexeme(stmt("IF x THEN y <- 1 NEXT").unwrap_err()), "NEXT");
    assert_eq!(unexpected_lexeme(stmt("IF x THEN y <- 1 ELSE NEXT").unwrap_err()), "NEXT");
}

#[test]
fn a_failed_statement_in_a_block_leaves_the_cursor_before_it() {
    // `y <-` cannot be completed, so the block ends before `y` and ENDIF is
    // not the next token.
    assert_eq!(unexpected_lexeme(stmt("IF x THEN y <- ENDIF").unwrap_err()), "y");
    assert_eq!(unexpected_lexeme(stmt("WHILE x DO a <- 1 b <- ENDWHILE").unwrap_err()), "b");
}

#[test]
fn constant_wants_a_bare_literal() {
    assert!(matches!(
        stmt("CONSTANT x <- foo()"),
        Err(ParserError::UnexpectedToken(_))
    ));
    assert_eq!(unexpected_lexeme(stmt("CONSTANT x <- foo()").unwrap_err()), "foo");
    assert_eq!(unexpected_lexeme(stmt("CONSTANT x <- foo").unwrap_err()), "foo");
    assert_eq!(unexpected_lexeme(stmt("CONSTANT x <- (1)").unwrap_err()), "(");
    assert_eq!(unexpected_lexeme(stmt("CONSTANT x <- NOT TRUE").unwrap_err()), "NOT");
    assert_eq!(stmt("CONSTANT x <-").unwrap_err(), ParserError::UnexpectedEOF);
    assert_eq!(unexpected_lexeme(stmt("CONSTANT 1 <- 1").unwrap_err()), "1");
    assert_eq!(unexpected_lexeme(stmt("CONSTANT x = 1").unwrap_err()), "=");
}

#[test]
fn constant_declaration() {
    assert_eq!(
        stmt("CONSTANT x <- 5").unwrap(),
        Stmt::ConstantDecl { name: id(0), value: Literal::Integer(5) }
    );
    assert_eq!(
        stmt("CONSTANT greeting <- \"hi\"").unwrap(),
        Stmt::ConstantDecl { name: id(0), value: Literal::String("hi".to_string()) }
    );
    assert_eq!(
        stmt("CONSTANT x <- 5 + 1").unwrap(),
        Stmt::ConstantDecl { name: id(0), value: Literal::Integer(5) }
    );
}

#[test]
fn variable_declaration() {
    let cases = [
        ("INTEGER", PrimitiveType::Integer),
        ("REAL", PrimitiveType::Real),
        ("STRING", PrimitiveType::String),
        ("CHAR", PrimitiveType::Char),
        ("BOOLEAN", PrimitiveType::Boolean),
    ];
    for (word, primitive) in cases {
        let source = format!("DECLARE x : {}", word);
        assert_eq!(
            stmt(&source).unwrap(),
            Stmt::VariableDecl { name: id(0), type_: Type::Primitive(primitive) }
        );
    }
}

#[test]
fn declaration_errors() {
    assert_eq!(unexpected_lexeme(stmt("DECLARE x : ARRAY").unwrap_err()), "ARRAY");
    assert_eq!(unexpected_lexeme(stmt("DECLARE x : y").unwrap_err()), "y");
    assert_eq!(stmt("DECLARE x :").unwrap_err(), ParserError::UnexpectedEOF);
    assert_eq!(stmt("DECLARE x").unwrap_err(), ParserError::UnexpectedEOF);
    assert_eq!(stmt("DECLARE").unwrap_err(), ParserError::UnexpectedEOF);
    assert_eq!(unexpected_lexeme(stmt("DECLARE 5 : INTEGER").unwrap_err()), "5");
    assert_eq!(unexpected_lexeme(stmt("DECLARE (x) : INTEGER").unwrap_err()), "(");
    assert_eq!(unexpected_lexeme(stmt("DECLARE IF : INTEGER").unwrap_err()), "IF");
    assert_eq!(unexpected_lexeme(stmt("DECLARE 5").unwrap_err()), "5");
}

#[test]
fn return_statement() {
    assert_eq!(
        stmt("RETURN x + 1").unwrap(),
        Stmt::Return(binary(id(0), BinaryOperator::Plus, num(1)))
    );
    assert_eq!(stmt("RETURN").unwrap_err(), ParserError::UnexpectedEOF);
}

#[test]
fn for_loop() {
    assert_eq!(
        stmt("FOR i <- 1 TO 10 OUTPUT i NEXT").unwrap(),
        Stmt::ForLoop {
            target: id(0),
            start: num(1),
            end: num(10),
            step: None,
            body: block(vec![Stmt::Output(vec![id(0)])]),
        }
    );
    assert_eq!(
        stmt("FOR a[0] <- n TO 0 STEP -1 NEXT").unwrap(),
        Stmt::ForLoop {
            target: index(id(0), vec![num(0)]),
            start: id(1),
            end: num(0),
            step: Some(num(-1)),
            body: block(vec![]),
        }
    );
}

#[test]
fn for_loop_errors() {
    assert_eq!(stmt("FOR i <- 1 TO 10").unwrap_err(), ParserError::UnexpectedEOF);
    assert_eq!(unexpected_lexeme(stmt("FOR i <- 1 10 NEXT").unwrap_err()), "10");
    assert_eq!(unexpected_lexeme(stmt("FOR i = 1 TO 10 NEXT").unwrap_err()), "=");
    assert_eq!(unexpected_lexeme(stmt("FOR i <- 1 TO 10 STEP NEXT").unwrap_err()), "NEXT");
    assert_eq!(unexpected_lexeme(stmt("FOR i <- 1 TO 10 ENDIF").unwrap_err()), "ENDIF");
    assert_eq!(unexpected_lexeme(stmt("FOR 1 <- 1 TO 10 NEXT").unwrap_err()), "1");
}

#[test]
fn repeat_until() {
    assert_eq!(
        stmt("REPEAT x <- x + 1 UNTIL x >= 10").unwrap(),
        Stmt::RepeatUntil {
            condition: binary(id(0), BinaryOperator::GreaterEqual, num(10)),
            body: block(vec![assign(id(0), binary(id(0), BinaryOperator::Plus, num(1)))]),
        }
    );
    assert_eq!(stmt("REPEAT x <- 1").unwrap_err(), ParserError::UnexpectedEOF);
    assert_eq!(stmt("REPEAT x <- 1 UNTIL").unwrap_err(), ParserError::UnexpectedEOF);
    assert_eq!(unexpected_lexeme(stmt("REPEAT x <- 1 NEXT").unwrap_err()), "NEXT");
}

#[test]
fn while_loop() {
    assert_eq!(
        stmt("WHILE NOT done DO INPUT x ENDWHILE").unwrap(),
        Stmt::While {
            condition: not(id(0)),
            body: block(vec![Stmt::Input(vec![id(1)])]),
        }
    );
    assert_eq!(unexpected_lexeme(stmt("WHILE x INPUT y ENDWHILE").unwrap_err()), "INPUT");
    assert_eq!(stmt("WHILE x DO").unwrap_err(), ParserError::UnexpectedEOF);
}

#[test]
fn input_and_output_lists() {
    assert_eq!(stmt("INPUT x").unwrap(), Stmt::Input(vec![id(0)]));
    assert_eq!(stmt("INPUT x, y, x").unwrap(), Stmt::Input(vec![id(0), id(1), id(0)]));
    assert_eq!(
        stmt("OUTPUT \"n = \", n + 1").unwrap(),
        Stmt::Output(vec![
            Expr::Literal(Literal::String("n = ".to_string())),
            binary(id(0), BinaryOperator::Plus, num(1)),
        ])
    );
    assert_eq!(stmt("OUTPUT x ENDIF").unwrap(), Stmt::Output(vec![id(0)]));
    assert_eq!(stmt("OUTPUT").unwrap_err(), ParserError::UnexpectedEOF);
    assert_eq!(stmt("OUTPUT x,").unwrap_err(), ParserError::UnexpectedEOF);
    assert_eq!(unexpected_lexeme(stmt("OUTPUT x, ENDIF").unwrap_err()), "ENDIF");
    assert_eq!(unexpected_lexeme(stmt("INPUT , x").unwrap_err()), ",");
}

#[test]
fn assignment() {
    assert_eq!(stmt("x <- 1").unwrap(), assign(id(0), num(1)));
    assert_eq!(
        stmt("a[i, j] <- f(x) + 1").unwrap(),
        assign(
            index(id(0), vec![id(1), id(2)]),
            binary(call(id(3), vec![id(4)]), BinaryOperator::Plus, num(1))
        )
    );
    assert_eq!(stmt("x <-").unwrap_err(), ParserError::UnexpectedEOF);
    assert_eq!(stmt("x").unwrap_err(), ParserError::UnexpectedEOF);
    assert_eq!(unexpected_lexeme(stmt("x = 1").unwrap_err()), "=");
    assert_eq!(unexpected_lexeme(stmt("x + 1 <- 2").unwrap_err()), "+");
}

#[test]
fn an_assignment_starts_with_a_name() {
    assert_eq!(unexpected_lexeme(stmt("5 <- 3").unwrap_err()), "5");
    assert_eq!(unexpected_lexeme(stmt("\"s\"[0] <- 3").unwrap_err()), "\"s\"");
    assert_eq!(unexpected_lexeme(stmt("(x) <- 3").unwrap_err()), "(");
    assert_eq!(unexpected_lexeme(stmt("+ <- 3").unwrap_err()), "+");
}

#[test]
fn keywords_without_a_grammar_are_refused() {
    for word in ["CASE", "CALL", "OPENFILE", "READFILE", "WRITEFILE", "CLOSEFILE", "OTHERWISE",
        "ENDCASE", "THEN", "ENDIF", "NEXT", "TO", "OF", "ARRAY"]
    {
        let source = format!("{} x", word);
        assert_eq!(unexpected_lexeme(stmt(&source).unwrap_err()), word);
    }
    assert_eq!(stmt("").unwrap_err(), ParserError::UnexpectedEOF);
}

#[test]
fn procedure_declaration() {
    assert_eq!(
        stmt("PROCEDURE greet(name: STRING, times: INTEGER) OUTPUT name ENDPROCEDURE").unwrap(),
        Stmt::ProcedureDecl {
            name: id(0),
            params: vec![
                Parameter { name: id(1), type_: Type::Primitive(PrimitiveType::String) },
                Parameter { name: id(2), type_: Type::Primitive(PrimitiveType::Integer) },
            ],
            body: block(vec![Stmt::Output(vec![id(1)])]),
        }
    );
    assert_eq!(
        stmt("PROCEDURE p() ENDPROCEDURE").unwrap(),
        Stmt::ProcedureDecl { name: id(0), params: vec![], body: block(vec![]) }
    );
}

#[test]
fn procedure_errors() {
    assert_eq!(unexpected_lexeme(stmt("PROCEDURE p ENDPROCEDURE").unwrap_err()), "ENDPROCEDURE");
    assert_eq!(unexpected_lexeme(stmt("PROCEDURE p(a: INTEGER,) ENDPROCEDURE").unwrap_err()), ")");
    assert_eq!(unexpected_lexeme(stmt("PROCEDURE p(a) ENDPROCEDURE").unwrap_err()), ")");
    assert_eq!(
        unexpected_lexeme(stmt("PROCEDURE p(a: INTEGER b: REAL) ENDPROCEDURE").unwrap_err()),
        "b"
    );
    assert_eq!(stmt("PROCEDURE p(a: INTEGER").unwrap_err(), ParserError::UnexpectedEOF);
    assert_eq!(stmt("PROCEDURE p()").unwrap_err(), ParserError::UnexpectedEOF);
    assert_eq!(unexpected_lexeme(stmt("PROCEDURE p() ENDFUNCTION").unwrap_err()), "ENDFUNCTION");
    assert_eq!(stmt("PROCEDURE").unwrap_err(), ParserError::UnexpectedEOF);
}

#[test]
fn function_declaration() {
    assert_eq!(
        stmt("FUNCTION double(x: REAL) RETURNS REAL RETURN x * 2.0 ENDFUNCTION").unwrap(),
        Stmt::FunctionDecl {
            name: id(0),
            params: vec![Parameter { name: id(1), type_: Type::Primitive(PrimitiveType::Real) }],
            return_type: Type::Primitive(PrimitiveType::Real),
            body: block(vec![Stmt::Return(binary(
                id(1),
                BinaryOperator::Star,
                Expr::Literal(Literal::Real(Decimal {
                    negative: false,
                    whole: "2".to_string(),
                    fraction: "0".to_string(),
                }))
            ))]),
        }
    );
    assert_eq!(
        stmt("FUNCTION one() RETURNS INTEGER RETURN 1 ENDFUNCTION").unwrap(),
        Stmt::FunctionDecl {
            name: id(0),
            params: vec![],
            return_type: Type::Primitive(PrimitiveType::Integer),
            body: block(vec![Stmt::Return(num(1))]),
        }
    );
}

#[test]
fn function_errors() {
    assert_eq!(
        unexpected_lexeme(stmt("FUNCTION f() RETURN 1 ENDFUNCTION").unwrap_err()),
        "RETURN"
    );
    assert_eq!(
        unexpected_lexeme(stmt("FUNCTION f() RETURNS ARRAY ENDFUNCTION").unwrap_err()),
        "ARRAY"
    );
    assert_eq!(
        unexpected_lexeme(stmt("FUNCTION f() RETURNS INTEGER ENDPROCEDURE").unwrap_err()),
        "ENDPROCEDURE"
    );
    assert_eq!(stmt("FUNCTION f() RETURNS").unwrap_err(), ParserError::UnexpectedEOF);
}

#[test]
fn nested_blocks() {
    assert_eq!(
        stmt("WHILE a DO IF b THEN REPEAT c <- 1 UNTIL d ENDIF ENDWHILE").unwrap(),
        Stmt::While {
            condition: id(0),
            body: block(vec![Stmt::If {
                condition: id(1),
                then_branch: block(vec![Stmt::RepeatUntil {
                    condition: id(3),
                    body: block(vec![assign(id(2), num(1))]),
                }]),
                else_branch: None,
            }]),
        }
    );
}

#[test]
fn block_stops_at_the_first_failure() {
    assert_eq!(parse_block(tokens("")), block(vec![]));
    assert_eq!(
        parse_block(tokens("x <- 1\nOUTPUT x\ny <- x")),
        block(vec![
            assign(id(0), num(1)),
            Stmt::Output(vec![id(0)]),
            assign(id(1), id(0)),
        ])
    );
    assert_eq!(
        parse_block(tokens("x <- 1 ENDIF y <- 2")),
        block(vec![assign(id(0), num(1))])
    );
    assert_eq!(parse_block(tokens("ENDIF")), block(vec![]));
}

#[test]
fn block_restores_the_cursor_before_the_failed_statement() {
    let mut buffer = TokenBuffer::from_iter(tokens("x <- 1 y <- NEXT"));
    let mut parser = Parser::new();
    assert_eq!(parser.parse_block(&mut buffer), block(vec![assign(id(0), num(1))]));
    assert_eq!(buffer.position(), 3);
    assert_eq!(buffer.current_token().unwrap().lexeme, "y");
}

#[test]
fn token_buffer_cursor() {
    let mut buffer = TokenBuffer::from_iter(tokens("a + b"));
    assert_eq!(buffer.position(), 0);
    buffer.backtrack();
    assert_eq!(buffer.position(), 0);
    assert_eq!(buffer.peek(), Some(TokenType::Identifier("a".to_string())));
    assert_eq!(buffer.position(), 0);
    assert_eq!(buffer.next(), Some(TokenType::Identifier("a".to_string())));
    assert_eq!(buffer.position(), 1);
    assert_eq!(buffer.next_if_equal(&TokenType::Minus), None);
    assert_eq!(buffer.position(), 1);
    assert_eq!(buffer.next_if_equal(&TokenType::Plus), Some(TokenType::Plus));
    assert_eq!(buffer.position(), 2);
    buffer.backtrack();
    assert_eq!(buffer.position(), 1);
    assert!(buffer.consume(&TokenType::Plus).is_ok());
    assert_eq!(unexpected_lexeme(buffer.consume(&TokenType::Plus).unwrap_err()), "b");
    assert_eq!(buffer.position(), 2);
    assert_eq!(unexpected_lexeme(buffer.unexpected_token()), "b");
    assert_eq!(buffer.next(), Some(TokenType::Identifier("b".to_string())));
    assert_eq!(buffer.next(), None);
    assert_eq!(buffer.peek(), None);
    assert_eq!(buffer.position(), 3);
    assert_eq!(buffer.consume(&TokenType::Plus).unwrap_err(), ParserError::UnexpectedEOF);
    assert_eq!(buffer.unexpected_token(), ParserError::UnexpectedEOF);
    assert!(buffer.current_token().is_none());
    buffer.rewind(1);
    assert_eq!(buffer.position(), 1);
    buffer.rewind(99);
    assert_eq!(buffer.position(), 3);
}

#[test]
fn expression_leaves_the_cursor_behind_it() {
    let mut buffer = TokenBuffer::from_iter(tokens("f(x) + 1 THEN"));
    let mut parser = Parser::new();
    assert!(parser.parse_expression(&mut buffer).is_ok());
    assert_eq!(buffer.position(), 6);
    let mut buffer = TokenBuffer::from_iter(tokens("x"));
    let mut parser = Parser::new();
    assert_eq!(parser.parse_call(&mut buffer).unwrap(), id(0));
    assert_eq!(buffer.position(), 1);
}
