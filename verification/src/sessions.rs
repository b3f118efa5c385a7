//! What holds of every parsing session: names keep their handles, every
//! step moves the cursor forward within the tokens, and the handles in a tree
//! are those of names that the session has seen.

use vstd::prelude::*;
use crate::ast::expr::{
    ExprView, exprs_below, lemma_exprs_below_grows, lemma_handles_below_grows,
};
use crate::ast::stmt::{
    BlockView, ParameterView, StmtView, Type, lemma_parameters_below_grows, parameters_below,
};
use crate::grammar::{
    Level, Parsed, assignable, assignment, binary, binary_rest, block, block_from, call,
    conditional, constant, declaration, declared_type, elements, expression, followed_by,
    for_loop, function, handle_of, identifier, input, interned, items, kind_at, list, literal,
    logic_not, operand, operator_at, optional_step, output, parameter, parameter_list,
    parameters, primary, procedure, refusal, repeat_until, return_value, statement, suffixes,
    while_loop,
};
use crate::scanner::{TokenTypeView, TokenView};

verus! {

// ---------------------------------------------------------------------------
// Names and handles
// ---------------------------------------------------------------------------

/// Seeing a spelling keeps every name at its handle, puts no spelling at two
/// handles, and leaves the spelling at the handle that it was given.
pub proof fn lemma_interned(names: Seq<Seq<char>>, spelling: Seq<char>)
    requires
        names.no_duplicates(),
    ensures
        names.is_prefix_of(interned(names, spelling)),
        interned(names, spelling).no_duplicates(),
        handle_of(names, spelling) < interned(names, spelling).len(),
        interned(names, spelling)[handle_of(names, spelling) as int] == spelling,
        interned(names, spelling).len() <= names.len() + 1,
{
    let after = interned(names, spelling);
    if names.contains(spelling) {
        assert(names.subrange(0, names.len() as int) =~= names);
    } else {
        assert(after.subrange(0, names.len() as int) =~= names);
        assert forall|i: int, j: int|
            0 <= i < after.len() && 0 <= j < after.len() && i != j implies after[i] != after[j] by {
            if i < names.len() {
                assert(names.contains(names[i]));
            }
            if j < names.len() {
                assert(names.contains(names[j]));
            }
        }
    }
}

/// A name keeps its handle for as long as the session lasts: whatever is
/// seen later, the spelling is found at the handle that it was first given.
pub proof fn lemma_handle_is_kept(
    names: Seq<Seq<char>>,
    spelling: Seq<char>,
    later: Seq<Seq<char>>,
)
    requires
        names.no_duplicates(),
        later.no_duplicates(),
        interned(names, spelling).is_prefix_of(later),
    ensures
        handle_of(later, spelling) == handle_of(names, spelling),
{
    lemma_interned(names, spelling);
    let after = interned(names, spelling);
    let handle = handle_of(names, spelling) as int;
    assert(later.subrange(0, after.len() as int)[handle] == later[handle]);
    assert(later[handle] == spelling);
    assert(later.contains(spelling));
}

/// Two occurrences of a name in one session get the same handle exactly if
/// they are spelled alike: a spelling seen again gets the handle that it was
/// given, and no other spelling ever gets that handle.
pub proof fn lemma_one_handle_per_spelling(
    names: Seq<Seq<char>>,
    first: Seq<char>,
    later: Seq<Seq<char>>,
    second: Seq<char>,
)
    requires
        names.no_duplicates(),
        later.no_duplicates(),
        interned(names, first).is_prefix_of(later),
    ensures
        handle_of(later, second) == handle_of(names, first) <==> second == first,
{
    lemma_interned(names, first);
    lemma_handle_is_kept(names, first, later);
    let after = interned(names, first);
    let handle = handle_of(names, first) as int;
    assert(later.subrange(0, after.len() as int)[handle] == later[handle]);
    assert(later[handle] == first);
    if second != first {
        if later.contains(second) {
            assert(later[later.index_of(second)] == second);
        }
    }
}

/// What begins a run of names that begins a third run begins that one too.
pub proof fn lemma_prefix_of_prefix(a: Seq<Seq<char>>, b: Seq<Seq<char>>, c: Seq<Seq<char>>)
    requires
        a.is_prefix_of(b),
        b.is_prefix_of(c),
    ensures
        a.is_prefix_of(c),
        a.len() <= c.len(),
{
    assert forall|i: int| 0 <= i < a.len() implies a[i] == c.subrange(0, a.len() as int)[i] by {
        assert(a[i] == b.subrange(0, a.len() as int)[i]);
        assert(b[i] == c.subrange(0, b.len() as int)[i]);
    }
    assert(a =~= c.subrange(0, a.len() as int));
}

// ---------------------------------------------------------------------------
// Steps
// ---------------------------------------------------------------------------

/// What holds of a step from `pos` with the names `names`, whether it
/// succeeds or fails: the cursor has not moved back and stands within the
/// tokens; an error is the one for the token under the cursor; the names
/// that were there are still there, each at its handle; and no spelling
/// stands at two handles.
pub open spec fn steady<T>(
    r: Parsed<T>,
    toks: Seq<TokenView>,
    pos: int,
    names: Seq<Seq<char>>,
) -> bool {
    &&& pos <= r.pos <= toks.len()
    &&& (r.result matches Err(e) ==> e == refusal(toks, r.pos))
    &&& names.is_prefix_of(r.names)
    &&& r.names.no_duplicates()
}

/// A steady step that, where it succeeds, has consumed a token and gives an
/// expression whose handles are those of names of the session.
pub open spec fn sound_expr(
    r: Parsed<ExprView>,
    toks: Seq<TokenView>,
    pos: int,
    names: Seq<Seq<char>>,
) -> bool {
    &&& steady(r, toks, pos, names)
    &&& r.result is Ok ==> pos < r.pos && r.value().handles_below(r.names.len() as int)
}

/// The same for a step that gives a list of expressions.
pub open spec fn sound_exprs(
    r: Parsed<Seq<ExprView>>,
    toks: Seq<TokenView>,
    pos: int,
    names: Seq<Seq<char>>,
) -> bool {
    &&& steady(r, toks, pos, names)
    &&& r.result is Ok ==> pos < r.pos && exprs_below(r.value(), r.names.len() as int)
}

/// The same for a step that gives a statement.
pub open spec fn sound_stmt(
    r: Parsed<StmtView>,
    toks: Seq<TokenView>,
    pos: int,
    names: Seq<Seq<char>>,
) -> bool {
    &&& steady(r, toks, pos, names)
    &&& r.result is Ok ==> pos < r.pos && r.value().handles_below(r.names.len() as int)
}

/// A steady step stays steady when a token is wanted behind it, and seen
/// from a position further back.
pub proof fn lemma_followed_by<T>(
    p: Parsed<T>,
    toks: Seq<TokenView>,
    kind: TokenTypeView,
    from: int,
    pos: int,
    names: Seq<Seq<char>>,
)
    requires
        steady(p, toks, pos, names),
        from <= pos,
    ensures
        steady(followed_by(p, toks, kind), toks, from, names),
        followed_by(p, toks, kind).result is Ok ==> p.result is Ok && followed_by(
            p,
            toks,
            kind,
        ).value() == p.value() && followed_by(p, toks, kind).pos == p.pos + 1,
        followed_by(p, toks, kind).names == p.names,
{
}

// ---------------------------------------------------------------------------
// Expressions
// ---------------------------------------------------------------------------

/// Every expression step is sound.
pub proof fn lemma_expression(toks: Seq<TokenView>, pos: int, names: Seq<Seq<char>>)
    requires
        0 <= pos <= toks.len(),
        names.no_duplicates(),
    ensures
        sound_expr(expression(toks, pos, names), toks, pos, names),
    decreases toks.len() - pos, 19nat,
{
    reveal(expression);
    lemma_binary(Level::LogicOr, toks, pos, names);
}

/// Every chain of binary operators is sound.
pub proof fn lemma_binary(level: Level, toks: Seq<TokenView>, pos: int, names: Seq<Seq<char>>)
    requires
        0 <= pos <= toks.len(),
        names.no_duplicates(),
    ensures
        sound_expr(binary(level, toks, pos, names), toks, pos, names),
    decreases toks.len() - pos, 3 * level.rank() + 6,
{
    lemma_operand(level, toks, pos, names);
    let left = operand(level, toks, pos, names);
    if left.advanced(toks, pos) {
        lemma_binary_rest(level, toks, left.pos, left.names, left.value());
        let r = binary_rest(level, toks, left.pos, left.names, left.value());
        lemma_prefix_of_prefix(names, left.names, r.names);
    }
}

/// Every operand of a binary operator is sound.
pub proof fn lemma_operand(level: Level, toks: Seq<TokenView>, pos: int, names: Seq<Seq<char>>)
    requires
        0 <= pos <= toks.len(),
        names.no_duplicates(),
    ensures
        sound_expr(operand(level, toks, pos, names), toks, pos, names),
    decreases toks.len() - pos, 3 * level.rank() + 5,
{
    match level {
        Level::LogicOr => lemma_binary(Level::LogicAnd, toks, pos, names),
        Level::LogicAnd => lemma_logic_not(toks, pos, names),
        Level::Comparison => lemma_binary(Level::Term, toks, pos, names),
        Level::Term => lemma_binary(Level::Factor, toks, pos, names),
        Level::Factor => lemma_call(toks, pos, names),
    }
}

/// The rest of a chain of binary operators is steady and, behind a left
/// operand with handles of the session, gives an expression with such.
pub proof fn lemma_binary_rest(
    level: Level,
    toks: Seq<TokenView>,
    pos: int,
    names: Seq<Seq<char>>,
    left: ExprView,
)
    requires
        0 <= pos <= toks.len(),
        names.no_duplicates(),
        left.handles_below(names.len() as int),
    ensures
        steady(binary_rest(level, toks, pos, names, left), toks, pos, names),
        binary_rest(level, toks, pos, names, left).result is Ok ==> binary_rest(
            level,
            toks,
            pos,
            names,
            left,
        ).value().handles_below(binary_rest(level, toks, pos, names, left).names.len() as int),
    decreases toks.len() - pos, 0nat,
{
    match operator_at(level, kind_at(toks, pos)) {
        Some(operator) => {
            lemma_operand(level, toks, pos + 1, names);
            let right = operand(level, toks, pos + 1, names);
            if right.advanced(toks, pos) {
                let joined = ExprView::Binary {
                    left: Box::new(left),
                    operator,
                    right: Box::new(right.value()),
                };
                lemma_handles_below_grows(left, names.len() as int, right.names.len() as int);
                lemma_binary_rest(level, toks, right.pos, right.names, joined);
                let r = binary_rest(level, toks, right.pos, right.names, joined);
                lemma_prefix_of_prefix(names, right.names, r.names);
            }
        },
        None => {
            assert(names.subrange(0, names.len() as int) =~= names);
        },
    }
}

/// Every negation is sound.
pub proof fn lemma_logic_not(toks: Seq<TokenView>, pos: int, names: Seq<Seq<char>>)
    requires
        0 <= pos <= toks.len(),
        names.no_duplicates(),
    ensures
        sound_expr(logic_not(toks, pos, names), toks, pos, names),
    decreases toks.len() - pos, 13nat,
{
    if kind_at(toks, pos) == Some(TokenTypeView::Not) {
        lemma_logic_not(toks, pos + 1, names);
    } else {
        lemma_binary(Level::Comparison, toks, pos, names);
    }
}

/// Every chain of calls and indexes is sound.
pub proof fn lemma_call(toks: Seq<TokenView>, pos: int, names: Seq<Seq<char>>)
    requires
        0 <= pos <= toks.len(),
        names.no_duplicates(),
    ensures
        sound_expr(call(toks, pos, names), toks, pos, names),
    decreases toks.len() - pos, 4nat,
{
    lemma_primary(toks, pos, names);
    let base = primary(toks, pos, names);
    if base.advanced(toks, pos) {
        lemma_suffixes(toks, base.pos, base.names, base.value());
        let r = suffixes(toks, base.pos, base.names, base.value());
        lemma_prefix_of_prefix(names, base.names, r.names);
    }
}

/// The calls and indexes behind an expression are steady and, behind an
/// expression with handles of the session, give an expression with such.
pub proof fn lemma_suffixes(toks: Seq<TokenView>, pos: int, names: Seq<Seq<char>>, left: ExprView)
    requires
        0 <= pos <= toks.len(),
        names.no_duplicates(),
        left.handles_below(names.len() as int),
    ensures
        steady(suffixes(toks, pos, names, left), toks, pos, names),
        suffixes(toks, pos, names, left).result is Ok ==> suffixes(
            toks,
            pos,
            names,
            left,
        ).value().handles_below(suffixes(toks, pos, names, left).names.len() as int),
    decreases toks.len() - pos, 0nat,
{
    match kind_at(toks, pos) {
        Some(TokenTypeView::LParen) => {
            lemma_list(toks, pos + 1, names, TokenTypeView::RParen);
            let args = list(toks, pos + 1, names, TokenTypeView::RParen);
            if args.advanced(toks, pos) {
                let joined = ExprView::FunctionCall {
                    function: Box::new(left),
                    args: args.value(),
                };
                lemma_handles_below_grows(left, names.len() as int, args.names.len() as int);
                lemma_suffixes(toks, args.pos, args.names, joined);
                let r = suffixes(toks, args.pos, args.names, joined);
                lemma_prefix_of_prefix(names, args.names, r.names);
            }
        },
        Some(TokenTypeView::LBracket) => {
            lemma_list(toks, pos + 1, names, TokenTypeView::RBracket);
            let indexes = list(toks, pos + 1, names, TokenTypeView::RBracket);
            if indexes.advanced(toks, pos) {
                let joined = ExprView::ArrayIndex {
                    array: Box::new(left),
                    indexes: indexes.value(),
                };
                lemma_handles_below_grows(left, names.len() as int, indexes.names.len() as int);
                lemma_suffixes(toks, indexes.pos, indexes.names, joined);
                let r = suffixes(toks, indexes.pos, indexes.names, joined);
                lemma_prefix_of_prefix(names, indexes.names, r.names);
            }
        },
        _ => {
            assert(names.subrange(0, names.len() as int) =~= names);
        },
    }
}

/// Every list of arguments or indexes is sound.
pub proof fn lemma_list(toks: Seq<TokenView>, pos: int, names: Seq<Seq<char>>, close: TokenTypeView)
    requires
        0 <= pos <= toks.len(),
        names.no_duplicates(),
    ensures
        sound_exprs(list(toks, pos, names, close), toks, pos, names),
    decreases toks.len() - pos, 21nat,
{
    if kind_at(toks, pos) == Some(close) {
        assert(names.subrange(0, names.len() as int) =~= names);
    } else {
        lemma_elements(toks, pos, names, close, Seq::empty());
    }
}

/// The elements of a list behind elements with handles of the session are
/// sound.
pub proof fn lemma_elements(
    toks: Seq<TokenView>,
    pos: int,
    names: Seq<Seq<char>>,
    close: TokenTypeView,
    before: Seq<ExprView>,
)
    requires
        0 <= pos <= toks.len(),
        names.no_duplicates(),
        exprs_below(before, names.len() as int),
    ensures
        sound_exprs(elements(toks, pos, names, close, before), toks, pos, names),
    decreases toks.len() - pos, 20nat,
{
    reveal(expression);
    lemma_expression(toks, pos, names);
    let item = expression(toks, pos, names);
    if item.advanced(toks, pos) {
        lemma_exprs_below_grows(before, names.len() as int, item.names.len() as int);
        let all = before.push(item.value());
        assert(exprs_below(all, item.names.len() as int)) by {
            assert forall|i: int| 0 <= i < all.len() implies (#[trigger] all[i]).handles_below(
                item.names.len() as int,
            ) by {
                if i < before.len() {
                    assert(all[i] == before[i]);
                }
            }
        }
        if kind_at(toks, item.pos) == Some(close) {
        } else if kind_at(toks, item.pos) == Some(TokenTypeView::Comma) {
            lemma_elements(toks, item.pos + 1, item.names, close, all);
            let r = elements(toks, item.pos + 1, item.names, close, all);
            lemma_prefix_of_prefix(names, item.names, r.names);
        }
    }
}

/// Every primary expression is sound.
pub proof fn lemma_primary(toks: Seq<TokenView>, pos: int, names: Seq<Seq<char>>)
    requires
        0 <= pos <= toks.len(),
        names.no_duplicates(),
    ensures
        sound_expr(primary(toks, pos, names), toks, pos, names),
    decreases toks.len() - pos, 3nat,
{
    reveal(expression);
    assert(names.subrange(0, names.len() as int) =~= names);
    match kind_at(toks, pos) {
        Some(TokenTypeView::Identifier(spelling)) => {
            lemma_interned(names, spelling);
        },
        Some(TokenTypeView::LParen) => {
            lemma_expression(toks, pos + 1, names);
            lemma_followed_by(
                expression(toks, pos + 1, names),
                toks,
                TokenTypeView::RParen,
                pos,
                pos + 1,
                names,
            );
        },
        _ => {},
    }
}

/// Every name is sound.
pub proof fn lemma_identifier(toks: Seq<TokenView>, pos: int, names: Seq<Seq<char>>)
    requires
        0 <= pos <= toks.len(),
        names.no_duplicates(),
    ensures
        sound_expr(identifier(toks, pos, names), toks, pos, names),
{
    reveal(identifier);
    assert(names.subrange(0, names.len() as int) =~= names);
    match kind_at(toks, pos) {
        Some(TokenTypeView::Identifier(spelling)) => {
            lemma_interned(names, spelling);
        },
        _ => {},
    }
}

/// A bare literal is steady, leaves the names as they are and, where it
/// succeeds, has consumed a token.
pub proof fn lemma_literal(toks: Seq<TokenView>, pos: int, names: Seq<Seq<char>>)
    requires
        0 <= pos <= toks.len(),
        names.no_duplicates(),
    ensures
        steady(literal(toks, pos, names), toks, pos, names),
        literal(toks, pos, names).names == names,
        literal(toks, pos, names).result is Ok ==> pos < literal(toks, pos, names).pos,
{
    reveal(literal);
    assert(names.subrange(0, names.len() as int) =~= names);
}

/// Every target of an assignment is sound.
pub proof fn lemma_assignable(toks: Seq<TokenView>, pos: int, names: Seq<Seq<char>>)
    requires
        0 <= pos <= toks.len(),
        names.no_duplicates(),
    ensures
        sound_expr(assignable(toks, pos, names), toks, pos, names),
{
    reveal(assignable);
    lemma_identifier(toks, pos, names);
    let base = identifier(toks, pos, names);
    if base.advanced(toks, pos) {
        lemma_suffixes(toks, base.pos, base.names, base.value());
        let r = suffixes(toks, base.pos, base.names, base.value());
        lemma_prefix_of_prefix(names, base.names, r.names);
    }
}

// ---------------------------------------------------------------------------
// Statements
// ---------------------------------------------------------------------------

/// A step that follows a steady step and is steady from where that one ended
/// is steady from where that one began, and has at least as many names.
pub proof fn lemma_then<A, B>(
    first: Parsed<A>,
    second: Parsed<B>,
    toks: Seq<TokenView>,
    pos: int,
    names: Seq<Seq<char>>,
)
    requires
        steady(first, toks, pos, names),
        steady(second, toks, first.pos, first.names),
    ensures
        steady(second, toks, pos, names),
        names.len() <= first.names.len() <= second.names.len(),
{
    lemma_prefix_of_prefix(names, first.names, second.names);
}

/// A type is steady, leaves the names as they are and, where it succeeds,
/// has consumed a token.
pub proof fn lemma_declared_type(toks: Seq<TokenView>, pos: int, names: Seq<Seq<char>>)
    requires
        0 <= pos <= toks.len(),
        names.no_duplicates(),
    ensures
        steady(declared_type(toks, pos, names), toks, pos, names),
        declared_type(toks, pos, names).names == names,
        declared_type(toks, pos, names).result is Ok ==> pos < declared_type(
            toks,
            pos,
            names,
        ).pos,
{
    reveal(declared_type);
    assert(names.subrange(0, names.len() as int) =~= names);
}

/// A parameter is steady and, where it succeeds, has consumed a token and
/// has a name with a handle of the session.
pub proof fn lemma_parameter(toks: Seq<TokenView>, pos: int, names: Seq<Seq<char>>)
    requires
        0 <= pos <= toks.len(),
        names.no_duplicates(),
    ensures
        steady(parameter(toks, pos, names), toks, pos, names),
        parameter(toks, pos, names).result is Ok ==> pos < parameter(toks, pos, names).pos
            && parameter(toks, pos, names).value().name.handles_below(
            parameter(toks, pos, names).names.len() as int,
        ),
{
    lemma_identifier(toks, pos, names);
    lemma_followed_by(identifier(toks, pos, names), toks, TokenTypeView::Colon, pos, pos, names);
    let name = followed_by(identifier(toks, pos, names), toks, TokenTypeView::Colon);
    if name.advanced(toks, pos) {
        lemma_declared_type(toks, name.pos, name.names);
        lemma_then(name, declared_type(toks, name.pos, name.names), toks, pos, names);
    }
}

/// A parameter list is steady and, where it succeeds, has consumed a token
/// and holds names with handles of the session.
pub proof fn lemma_parameter_list(toks: Seq<TokenView>, pos: int, names: Seq<Seq<char>>)
    requires
        0 <= pos <= toks.len(),
        names.no_duplicates(),
    ensures
        steady(parameter_list(toks, pos, names), toks, pos, names),
        parameter_list(toks, pos, names).result is Ok ==> pos < parameter_list(
            toks,
            pos,
            names,
        ).pos && parameters_below(
            parameter_list(toks, pos, names).value(),
            parameter_list(toks, pos, names).names.len() as int,
        ),
{
    reveal(parameter_list);
    assert(names.subrange(0, names.len() as int) =~= names);
    if kind_at(toks, pos) != Some(TokenTypeView::LParen) {
    } else if kind_at(toks, pos + 1) == Some(TokenTypeView::RParen) {
    } else {
        lemma_parameters(toks, pos + 1, names, Seq::empty());
    }
}

/// The parameters behind parameters whose names have handles of the session
/// are steady and, where they succeed, have consumed a token and hold such
/// names.
pub proof fn lemma_parameters(
    toks: Seq<TokenView>,
    pos: int,
    names: Seq<Seq<char>>,
    before: Seq<ParameterView>,
)
    requires
        0 <= pos <= toks.len(),
        names.no_duplicates(),
        parameters_below(before, names.len() as int),
    ensures
        steady(parameters(toks, pos, names, before), toks, pos, names),
        parameters(toks, pos, names, before).result is Ok ==> pos < parameters(
            toks,
            pos,
            names,
            before,
        ).pos && parameters_below(
            parameters(toks, pos, names, before).value(),
            parameters(toks, pos, names, before).names.len() as int,
        ),
    decreases toks.len() - pos,
{
    lemma_parameter(toks, pos, names);
    let item = parameter(toks, pos, names);
    if item.advanced(toks, pos) {
        lemma_parameters_below_grows(before, names.len() as int, item.names.len() as int);
        let all = before.push(item.value());
        assert(parameters_below(all, item.names.len() as int)) by {
            assert forall|i: int| 0 <= i < all.len() implies (
            #[trigger] all[i]).name.handles_below(item.names.len() as int) by {
                if i < before.len() {
                    assert(all[i] == before[i]);
                }
            }
        }
        if kind_at(toks, item.pos) == Some(TokenTypeView::RParen) {
        } else if kind_at(toks, item.pos) == Some(TokenTypeView::Comma) {
            lemma_parameters(toks, item.pos + 1, item.names, all);
            let r = parameters(toks, item.pos + 1, item.names, all);
            lemma_prefix_of_prefix(names, item.names, r.names);
        }
    }
}

/// The operands of `INPUT` and `OUTPUT` behind operands with handles of the
/// session are sound.
pub proof fn lemma_items(
    toks: Seq<TokenView>,
    pos: int,
    names: Seq<Seq<char>>,
    before: Seq<ExprView>,
)
    requires
        0 <= pos <= toks.len(),
        names.no_duplicates(),
        exprs_below(before, names.len() as int),
    ensures
        sound_exprs(items(toks, pos, names, before), toks, pos, names),
    decreases toks.len() - pos,
{
    lemma_expression(toks, pos, names);
    let item = expression(toks, pos, names);
    if item.advanced(toks, pos) {
        lemma_exprs_below_grows(before, names.len() as int, item.names.len() as int);
        let all = before.push(item.value());
        assert(exprs_below(all, item.names.len() as int)) by {
            assert forall|i: int| 0 <= i < all.len() implies (#[trigger] all[i]).handles_below(
                item.names.len() as int,
            ) by {
                if i < before.len() {
                    assert(all[i] == before[i]);
                }
            }
        }
        if kind_at(toks, item.pos) == Some(TokenTypeView::Comma) {
            lemma_items(toks, item.pos + 1, item.names, all);
            let r = items(toks, item.pos + 1, item.names, all);
            lemma_prefix_of_prefix(names, item.names, r.names);
        }
    }
}

/// The step of a `FOR` loop is steady and, where there is one, has handles
/// of the session.
pub proof fn lemma_optional_step(toks: Seq<TokenView>, pos: int, names: Seq<Seq<char>>)
    requires
        0 <= pos <= toks.len(),
        names.no_duplicates(),
    ensures
        steady(optional_step(toks, pos, names), toks, pos, names),
        optional_step(toks, pos, names).result matches Ok(Some(step)) ==> step.handles_below(
            optional_step(toks, pos, names).names.len() as int,
        ),
{
    assert(names.subrange(0, names.len() as int) =~= names);
    if kind_at(toks, pos) == Some(TokenTypeView::Step) {
        lemma_expression(toks, pos + 1, names);
    }
}

/// Every statement is sound: one that succeeds has consumed a token, stands
/// within the tokens and holds handles of names of the session; one that
/// fails carries the error for the token under the cursor.
pub proof fn lemma_statement(toks: Seq<TokenView>, pos: int, names: Seq<Seq<char>>)
    requires
        0 <= pos <= toks.len(),
        names.no_duplicates(),
    ensures
        sound_stmt(statement(toks, pos, names), toks, pos, names),
    decreases toks.len() - pos, 1nat,
{
    assert(names.subrange(0, names.len() as int) =~= names);
    match kind_at(toks, pos) {
        None => {},
        Some(TokenTypeView::Procedure) => lemma_procedure(toks, pos, names),
        Some(TokenTypeView::Function) => lemma_function(toks, pos, names),
        Some(TokenTypeView::If) => lemma_conditional(toks, pos, names),
        Some(TokenTypeView::Return) => lemma_return_value(toks, pos, names),
        Some(TokenTypeView::For) => lemma_for_loop(toks, pos, names),
        Some(TokenTypeView::Repeat) => lemma_repeat_until(toks, pos, names),
        Some(TokenTypeView::While) => lemma_while_loop(toks, pos, names),
        Some(TokenTypeView::Declare) => lemma_declaration(toks, pos, names),
        Some(TokenTypeView::Constant) => lemma_constant(toks, pos, names),
        Some(TokenTypeView::Input) => lemma_input(toks, pos, names),
        Some(TokenTypeView::Output) => lemma_output(toks, pos, names),
        Some(_) => lemma_assignment(toks, pos, names),
    }
}

/// Every procedure is sound.
pub proof fn lemma_procedure(toks: Seq<TokenView>, pos: int, names: Seq<Seq<char>>)
    requires
        0 <= pos < toks.len(),
        names.no_duplicates(),
    ensures
        sound_stmt(procedure(toks, pos, names), toks, pos, names),
    decreases toks.len() - pos, 0nat,
{
    lemma_identifier(toks, pos + 1, names);
    let name = identifier(toks, pos + 1, names);
    if name.advanced(toks, pos) {
        lemma_parameter_list(toks, name.pos, name.names);
        let params = parameter_list(toks, name.pos, name.names);
        lemma_then(name, params, toks, pos + 1, names);
        if params.advanced(toks, pos) {
            lemma_block(toks, params.pos, params.names);
            let inner = block(toks, params.pos, params.names);
            lemma_followed_by(
                inner,
                toks,
                TokenTypeView::EndProcedure,
                params.pos,
                params.pos,
                params.names,
            );
            let body = followed_by(inner, toks, TokenTypeView::EndProcedure);
            lemma_then(params, body, toks, pos + 1, names);
            if body.advanced(toks, pos) {
                lemma_handles_below_grows(
                    name.value(),
                    name.names.len() as int,
                    body.names.len() as int,
                );
                lemma_parameters_below_grows(
                    params.value(),
                    params.names.len() as int,
                    body.names.len() as int,
                );
            }
        }
    }
}

/// Every function is sound.
pub proof fn lemma_function(toks: Seq<TokenView>, pos: int, names: Seq<Seq<char>>)
    requires
        0 <= pos < toks.len(),
        names.no_duplicates(),
    ensures
        sound_stmt(function(toks, pos, names), toks, pos, names),
    decreases toks.len() - pos, 0nat,
{
    lemma_identifier(toks, pos + 1, names);
    let name = identifier(toks, pos + 1, names);
    if name.advanced(toks, pos) {
        lemma_parameter_list(toks, name.pos, name.names);
        let list = parameter_list(toks, name.pos, name.names);
        lemma_followed_by(list, toks, TokenTypeView::Returns, name.pos, name.pos, name.names);
        let params = followed_by(list, toks, TokenTypeView::Returns);
        lemma_then(name, params, toks, pos + 1, names);
        if params.advanced(toks, pos) {
            lemma_declared_type(toks, params.pos, params.names);
            let return_type = declared_type(toks, params.pos, params.names);
            lemma_then(params, return_type, toks, pos + 1, names);
            if return_type.advanced(toks, pos) {
                lemma_block(toks, return_type.pos, return_type.names);
                let inner = block(toks, return_type.pos, return_type.names);
                lemma_followed_by(
                    inner,
                    toks,
                    TokenTypeView::EndFunction,
                    return_type.pos,
                    return_type.pos,
                    return_type.names,
                );
                let body = followed_by(inner, toks, TokenTypeView::EndFunction);
                lemma_then(return_type, body, toks, pos + 1, names);
                if body.advanced(toks, pos) {
                    lemma_handles_below_grows(
                        name.value(),
                        name.names.len() as int,
                        body.names.len() as int,
                    );
                    lemma_parameters_below_grows(
                        params.value(),
                        params.names.len() as int,
                        body.names.len() as int,
                    );
                }
            }
        }
    }
}

/// Every `IF` statement is sound.
pub proof fn lemma_conditional(toks: Seq<TokenView>, pos: int, names: Seq<Seq<char>>)
    requires
        0 <= pos < toks.len(),
        names.no_duplicates(),
    ensures
        sound_stmt(conditional(toks, pos, names), toks, pos, names),
    decreases toks.len() - pos, 0nat,
{
    lemma_expression(toks, pos + 1, names);
    lemma_followed_by(
        expression(toks, pos + 1, names),
        toks,
        TokenTypeView::Then,
        pos + 1,
        pos + 1,
        names,
    );
    let condition = followed_by(expression(toks, pos + 1, names), toks, TokenTypeView::Then);
    if condition.advanced(toks, pos) {
        lemma_block(toks, condition.pos, condition.names);
        let then_branch = block(toks, condition.pos, condition.names);
        lemma_then(condition, then_branch, toks, pos + 1, names);
        if then_branch.advanced(toks, pos) {
            if kind_at(toks, then_branch.pos) == Some(TokenTypeView::Else) {
                lemma_block(toks, then_branch.pos + 1, then_branch.names);
                let inner = block(toks, then_branch.pos + 1, then_branch.names);
                lemma_followed_by(
                    inner,
                    toks,
                    TokenTypeView::EndIf,
                    then_branch.pos,
                    then_branch.pos + 1,
                    then_branch.names,
                );
                let else_branch = followed_by(inner, toks, TokenTypeView::EndIf);
                lemma_then(then_branch, else_branch, toks, pos + 1, names);
                if else_branch.advanced(toks, pos) {
                    lemma_handles_below_grows(
                        condition.value(),
                        condition.names.len() as int,
                        else_branch.names.len() as int,
                    );
                    then_branch.value().lemma_handles_below_grows(
                        then_branch.names.len() as int,
                        else_branch.names.len() as int,
                    );
                }
            } else {
                lemma_followed_by(
                    then_branch,
                    toks,
                    TokenTypeView::EndIf,
                    condition.pos,
                    condition.pos,
                    condition.names,
                );
                let closed = followed_by(then_branch, toks, TokenTypeView::EndIf);
                lemma_then(condition, closed, toks, pos + 1, names);
                if closed.advanced(toks, pos) {
                    lemma_handles_below_grows(
                        condition.value(),
                        condition.names.len() as int,
                        closed.names.len() as int,
                    );
                }
            }
        }
    }
}

/// Every `RETURN` statement is sound.
pub proof fn lemma_return_value(toks: Seq<TokenView>, pos: int, names: Seq<Seq<char>>)
    requires
        0 <= pos < toks.len(),
        names.no_duplicates(),
    ensures
        sound_stmt(return_value(toks, pos, names), toks, pos, names),
{
    reveal(return_value);
    lemma_expression(toks, pos + 1, names);
}

/// Every `FOR` loop is sound.
pub proof fn lemma_for_loop(toks: Seq<TokenView>, pos: int, names: Seq<Seq<char>>)
    requires
        0 <= pos < toks.len(),
        names.no_duplicates(),
    ensures
        sound_stmt(for_loop(toks, pos, names), toks, pos, names),
    decreases toks.len() - pos, 0nat,
{
    lemma_assignable(toks, pos + 1, names);
    lemma_followed_by(
        assignable(toks, pos + 1, names),
        toks,
        TokenTypeView::LArrow,
        pos + 1,
        pos + 1,
        names,
    );
    let target = followed_by(assignable(toks, pos + 1, names), toks, TokenTypeView::LArrow);
    if target.advanced(toks, pos) {
        lemma_expression(toks, target.pos, target.names);
        lemma_followed_by(
            expression(toks, target.pos, target.names),
            toks,
            TokenTypeView::To,
            target.pos,
            target.pos,
            target.names,
        );
        let start = followed_by(
            expression(toks, target.pos, target.names),
            toks,
            TokenTypeView::To,
        );
        lemma_then(target, start, toks, pos + 1, names);
        if start.advanced(toks, pos) {
            lemma_expression(toks, start.pos, start.names);
            let end = expression(toks, start.pos, start.names);
            lemma_then(start, end, toks, pos + 1, names);
            if end.advanced(toks, pos) {
                lemma_optional_step(toks, end.pos, end.names);
                let step = optional_step(toks, end.pos, end.names);
                lemma_then(end, step, toks, pos + 1, names);
                if step.advanced(toks, pos) {
                    lemma_block(toks, step.pos, step.names);
                    let inner = block(toks, step.pos, step.names);
                    lemma_followed_by(
                        inner,
                        toks,
                        TokenTypeView::Next,
                        step.pos,
                        step.pos,
                        step.names,
                    );
                    let body = followed_by(inner, toks, TokenTypeView::Next);
                    lemma_then(step, body, toks, pos + 1, names);
                    if body.advanced(toks, pos) {
                        let bound = body.names.len() as int;
                        lemma_handles_below_grows(
                            target.value(),
                            target.names.len() as int,
                            bound,
                        );
                        lemma_handles_below_grows(start.value(), start.names.len() as int, bound);
                        lemma_handles_below_grows(end.value(), end.names.len() as int, bound);
                        match step.value() {
                            Some(e) => {
                                lemma_handles_below_grows(e, step.names.len() as int, bound);
                            },
                            None => {},
                        }
                    }
                }
            }
        }
    }
}

/// Every `REPEAT` loop is sound.
pub proof fn lemma_repeat_until(toks: Seq<TokenView>, pos: int, names: Seq<Seq<char>>)
    requires
        0 <= pos < toks.len(),
        names.no_duplicates(),
    ensures
        sound_stmt(repeat_until(toks, pos, names), toks, pos, names),
    decreases toks.len() - pos, 0nat,
{
    lemma_block(toks, pos + 1, names);
    let inner = block(toks, pos + 1, names);
    lemma_followed_by(inner, toks, TokenTypeView::Until, pos + 1, pos + 1, names);
    let body = followed_by(inner, toks, TokenTypeView::Until);
    if body.advanced(toks, pos) {
        lemma_expression(toks, body.pos, body.names);
        let condition = expression(toks, body.pos, body.names);
        lemma_then(body, condition, toks, pos + 1, names);
        if condition.advanced(toks, pos) {
            body.value().lemma_handles_below_grows(
                body.names.len() as int,
                condition.names.len() as int,
            );
        }
    }
}

/// Every `WHILE` loop is sound.
pub proof fn lemma_while_loop(toks: Seq<TokenView>, pos: int, names: Seq<Seq<char>>)
    requires
        0 <= pos < toks.len(),
        names.no_duplicates(),
    ensures
        sound_stmt(while_loop(toks, pos, names), toks, pos, names),
    decreases toks.len() - pos, 0nat,
{
    lemma_expression(toks, pos + 1, names);
    lemma_followed_by(
        expression(toks, pos + 1, names),
        toks,
        TokenTypeView::Do,
        pos + 1,
        pos + 1,
        names,
    );
    let condition = followed_by(expression(toks, pos + 1, names), toks, TokenTypeView::Do);
    if condition.advanced(toks, pos) {
        lemma_block(toks, condition.pos, condition.names);
        let inner = block(toks, condition.pos, condition.names);
        lemma_followed_by(
            inner,
            toks,
            TokenTypeView::EndWhile,
            condition.pos,
            condition.pos,
            condition.names,
        );
        let body = followed_by(inner, toks, TokenTypeView::EndWhile);
        lemma_then(condition, body, toks, pos + 1, names);
        if body.advanced(toks, pos) {
            lemma_handles_below_grows(
                condition.value(),
                condition.names.len() as int,
                body.names.len() as int,
            );
        }
    }
}

/// Every declaration of a variable is sound.
pub proof fn lemma_declaration(toks: Seq<TokenView>, pos: int, names: Seq<Seq<char>>)
    requires
        0 <= pos < toks.len(),
        names.no_duplicates(),
    ensures
        sound_stmt(declaration(toks, pos, names), toks, pos, names),
{
    reveal(declaration);
    lemma_identifier(toks, pos + 1, names);
    lemma_followed_by(
        identifier(toks, pos + 1, names),
        toks,
        TokenTypeView::Colon,
        pos + 1,
        pos + 1,
        names,
    );
    let name = followed_by(identifier(toks, pos + 1, names), toks, TokenTypeView::Colon);
    if name.advanced(toks, pos) {
        lemma_declared_type(toks, name.pos, name.names);
        lemma_then(name, declared_type(toks, name.pos, name.names), toks, pos + 1, names);
    }
}

/// Every declaration of a constant is sound.
pub proof fn lemma_constant(toks: Seq<TokenView>, pos: int, names: Seq<Seq<char>>)
    requires
        0 <= pos < toks.len(),
        names.no_duplicates(),
    ensures
        sound_stmt(constant(toks, pos, names), toks, pos, names),
{
    reveal(constant);
    lemma_identifier(toks, pos + 1, names);
    lemma_followed_by(
        identifier(toks, pos + 1, names),
        toks,
        TokenTypeView::LArrow,
        pos + 1,
        pos + 1,
        names,
    );
    let name = followed_by(identifier(toks, pos + 1, names), toks, TokenTypeView::LArrow);
    if name.advanced(toks, pos) {
        lemma_literal(toks, name.pos, name.names);
        lemma_then(name, literal(toks, name.pos, name.names), toks, pos + 1, names);
    }
}

/// Every `INPUT` statement is sound.
pub proof fn lemma_input(toks: Seq<TokenView>, pos: int, names: Seq<Seq<char>>)
    requires
        0 <= pos < toks.len(),
        names.no_duplicates(),
    ensures
        sound_stmt(input(toks, pos, names), toks, pos, names),
{
    reveal(input);
    lemma_items(toks, pos + 1, names, Seq::empty());
}

/// Every `OUTPUT` statement is sound.
pub proof fn lemma_output(toks: Seq<TokenView>, pos: int, names: Seq<Seq<char>>)
    requires
        0 <= pos < toks.len(),
        names.no_duplicates(),
    ensures
        sound_stmt(output(toks, pos, names), toks, pos, names),
{
    reveal(output);
    lemma_items(toks, pos + 1, names, Seq::empty());
}

/// Every assignment is sound.
pub proof fn lemma_assignment(toks: Seq<TokenView>, pos: int, names: Seq<Seq<char>>)
    requires
        0 <= pos <= toks.len(),
        names.no_duplicates(),
    ensures
        sound_stmt(assignment(toks, pos, names), toks, pos, names),
{
    reveal(assignment);
    lemma_assignable(toks, pos, names);
    lemma_followed_by(assignable(toks, pos, names), toks, TokenTypeView::LArrow, pos, pos, names);
    let target = followed_by(assignable(toks, pos, names), toks, TokenTypeView::LArrow);
    if target.advanced(toks, pos) {
        lemma_expression(toks, target.pos, target.names);
        let value = expression(toks, target.pos, target.names);
        lemma_then(target, value, toks, pos, names);
        if value.advanced(toks, pos) {
            lemma_handles_below_grows(
                target.value(),
                target.names.len() as int,
                value.names.len() as int,
            );
        }
    }
}

/// A block never fails. It is steady, and its statements hold handles of
/// names of the session.
pub proof fn lemma_block(toks: Seq<TokenView>, pos: int, names: Seq<Seq<char>>)
    requires
        0 <= pos <= toks.len(),
        names.no_duplicates(),
    ensures
        steady(block(toks, pos, names), toks, pos, names),
        block(toks, pos, names).result is Ok,
        block(toks, pos, names).value().handles_below(block(toks, pos, names).names.len() as int),
    decreases toks.len() - pos, 3nat,
{
    lemma_block_from(toks, pos, names, Seq::empty());
}

/// The same for the statements of a block behind statements that hold
/// handles of the session.
pub proof fn lemma_block_from(
    toks: Seq<TokenView>,
    pos: int,
    names: Seq<Seq<char>>,
    before: Seq<StmtView>,
)
    requires
        0 <= pos <= toks.len(),
        names.no_duplicates(),
        (BlockView { contents: before }).handles_below(names.len() as int),
    ensures
        steady(block_from(toks, pos, names, before), toks, pos, names),
        block_from(toks, pos, names, before).result is Ok,
        block_from(toks, pos, names, before).value().handles_below(
            block_from(toks, pos, names, before).names.len() as int,
        ),
    decreases toks.len() - pos, 2nat,
{
    lemma_statement(toks, pos, names);
    let first = statement(toks, pos, names);
    (BlockView { contents: before }).lemma_handles_below_grows(
        names.len() as int,
        first.names.len() as int,
    );
    if first.advanced(toks, pos) {
        let all = before.push(first.value());
        assert((BlockView { contents: all }).handles_below(first.names.len() as int)) by {
            assert forall|i: int| 0 <= i < all.len() implies (#[trigger] all[i]).handles_below(
                first.names.len() as int,
            ) by {
                if i < before.len() {
                    assert(all[i] == before[i]);
                    assert((BlockView { contents: before }).contents[i] == before[i]);
                }
            }
        }
        lemma_block_from(toks, first.pos, first.names, all);
        let r = block_from(toks, first.pos, first.names, all);
        lemma_prefix_of_prefix(names, first.names, r.names);
    }
}

} // verus!
