//! What the scanner must answer, written as functions on the source text.

use vstd::prelude::*;
use crate::chars::{CharClass, is_alphabetic, is_digit, is_whitespace, lemma_run_end, run_end};
use crate::number::{DecimalView, all_digits, integer_value, is_integer_lexeme, saturate};
use crate::scanner::{Location, ScannerError, TokenTypeView, TokenView};

verus! {

// ---------------------------------------------------------------------------
// Places
// ---------------------------------------------------------------------------

/// The line of the character at `pos`: one more than the number of line
/// feeds before it.
pub open spec fn line_at(src: Seq<char>, pos: int) -> int
    decreases pos,
{
    if pos <= 0 {
        1
    } else if src[pos - 1] == '\n' {
        line_at(src, pos - 1) + 1
    } else {
        line_at(src, pos - 1)
    }
}

/// The column of the character at `pos`: one more than the number of
/// characters between it and the last line feed before it.
pub open spec fn column_at(src: Seq<char>, pos: int) -> int
    decreases pos,
{
    if pos <= 0 {
        1
    } else if src[pos - 1] == '\n' {
        1
    } else {
        column_at(src, pos - 1) + 1
    }
}

/// The place of the character at `pos`.
pub open spec fn location_at(src: Seq<char>, pos: int) -> Location {
    Location { line: line_at(src, pos) as u32, column: column_at(src, pos) as u32 }
}

/// Lines and columns count from 1 and never run ahead of the position.
pub proof fn lemma_location_bounds(src: Seq<char>, pos: int)
    requires
        0 <= pos,
    ensures
        1 <= line_at(src, pos) <= pos + 1,
        1 <= column_at(src, pos) <= pos + 1,
    decreases pos,
{
    if pos > 0 {
        lemma_location_bounds(src, pos - 1);
    }
}

// ---------------------------------------------------------------------------
// One lexeme
// ---------------------------------------------------------------------------

/// What the scanner makes of the text from some position on: where the
/// lexeme ends, and its kind or the error.
pub struct Lexed {
    pub end: int,
    pub result: Result<TokenTypeView, ScannerError>,
}

/// Whether the character at `pos` is `c`.
pub open spec fn is_at(src: Seq<char>, pos: int, c: char) -> bool {
    0 <= pos < src.len() && src[pos] == c
}

/// Whether a digit stands at `pos`.
pub open spec fn digit_at(src: Seq<char>, pos: int) -> bool {
    0 <= pos < src.len() && is_digit(src[pos])
}

/// The kind of a run of letters: that of the reserved word it spells, in
/// upper case, or else an identifier of that spelling.
pub open spec fn word_kind(word: Seq<char>) -> TokenTypeView {
    if word == "PROCEDURE"@ {
        TokenTypeView::Procedure
    } else if word == "ENDPROCEDURE"@ {
        TokenTypeView::EndProcedure
    } else if word == "FUNCTION"@ {
        TokenTypeView::Function
    } else if word == "RETURNS"@ {
        TokenTypeView::Returns
    } else if word == "ENDFUNCTION"@ {
        TokenTypeView::EndFunction
    } else if word == "RETURN"@ {
        TokenTypeView::Return
    } else if word == "IF"@ {
        TokenTypeView::If
    } else if word == "THEN"@ {
        TokenTypeView::Then
    } else if word == "ELSE"@ {
        TokenTypeView::Else
    } else if word == "ENDIF"@ {
        TokenTypeView::EndIf
    } else if word == "CASE"@ {
        TokenTypeView::Case
    } else if word == "OTHERWISE"@ {
        TokenTypeView::Otherwise
    } else if word == "ENDCASE"@ {
        TokenTypeView::EndCase
    } else if word == "FOR"@ {
        TokenTypeView::For
    } else if word == "TO"@ {
        TokenTypeView::To
    } else if word == "STEP"@ {
        TokenTypeView::Step
    } else if word == "NEXT"@ {
        TokenTypeView::Next
    } else if word == "REPEAT"@ {
        TokenTypeView::Repeat
    } else if word == "UNTIL"@ {
        TokenTypeView::Until
    } else if word == "WHILE"@ {
        TokenTypeView::While
    } else if word == "DO"@ {
        TokenTypeView::Do
    } else if word == "ENDWHILE"@ {
        TokenTypeView::EndWhile
    } else if word == "DECLARE"@ {
        TokenTypeView::Declare
    } else if word == "CONSTANT"@ {
        TokenTypeView::Constant
    } else if word == "INPUT"@ {
        TokenTypeView::Input
    } else if word == "OUTPUT"@ {
        TokenTypeView::Output
    } else if word == "CALL"@ {
        TokenTypeView::Call
    } else if word == "OPENFILE"@ {
        TokenTypeView::OpenFile
    } else if word == "READFILE"@ {
        TokenTypeView::ReadFile
    } else if word == "WRITEFILE"@ {
        TokenTypeView::WriteFile
    } else if word == "CLOSEFILE"@ {
        TokenTypeView::CloseFile
    } else if word == "READ"@ {
        TokenTypeView::Read
    } else if word == "WRITE"@ {
        TokenTypeView::Write
    } else if word == "INTEGER"@ {
        TokenTypeView::Integer
    } else if word == "REAL"@ {
        TokenTypeView::Real
    } else if word == "CHAR"@ {
        TokenTypeView::Char
    } else if word == "STRING"@ {
        TokenTypeView::String
    } else if word == "BOOLEAN"@ {
        TokenTypeView::Boolean
    } else if word == "ARRAY"@ {
        TokenTypeView::Array
    } else if word == "OF"@ {
        TokenTypeView::Of
    } else if word == "TRUE"@ {
        TokenTypeView::BooleanLiteral(true)
    } else if word == "FALSE"@ {
        TokenTypeView::BooleanLiteral(false)
    } else if word == "AND"@ {
        TokenTypeView::And
    } else if word == "OR"@ {
        TokenTypeView::Or
    } else if word == "NOT"@ {
        TokenTypeView::Not
    } else {
        TokenTypeView::Identifier(word)
    }
}

/// Whether a number begins at `start`: with a digit, or with a minus sign
/// that a digit follows.
pub open spec fn number_begins(src: Seq<char>, start: int) -> bool {
    digit_at(src, start) || (is_at(src, start, '-') && digit_at(src, start + 1))
}

/// A number whose lexeme starts at `start`, with a digit or with a minus sign
/// and a digit; `pos` is behind its first character.
///
/// Digits alone make an integer, which a value beyond 64 bits saturates.
/// Digits, a point and digits make a real number. A point with no digit behind
/// it is an error that takes the point with it.
pub open spec fn number_from(src: Seq<char>, start: int, pos: int) -> Lexed {
    let whole_end = run_end(src, CharClass::Digit, pos);
    if is_at(src, whole_end, '.') {
        if digit_at(src, whole_end + 1) {
            let end = run_end(src, CharClass::Digit, whole_end + 1);
            Lexed {
                end,
                result: Ok(
                    TokenTypeView::RealLiteral(
                        DecimalView {
                            negative: src[start] == '-',
                            whole: src.subrange(
                                if src[start] == '-' {
                                    start + 1
                                } else {
                                    start
                                },
                                whole_end,
                            ),
                            fraction: src.subrange(whole_end + 1, end),
                        },
                    ),
                ),
            }
        } else {
            Lexed {
                end: whole_end + 1,
                result: Err(ScannerError::InvalidRealLiteral(location_at(src, whole_end + 1))),
            }
        }
    } else {
        Lexed {
            end: whole_end,
            result: Ok(
                TokenTypeView::IntegerLiteral(
                    saturate(integer_value(src.subrange(start, whole_end))),
                ),
            ),
        }
    }
}

/// A character literal; `pos` is behind its opening quote. Exactly one
/// character, whichever it is, and then the closing quote make the literal.
/// Anything else is an error that takes what was read with it.
pub open spec fn char_from(src: Seq<char>, pos: int) -> Lexed {
    if pos >= src.len() {
        Lexed { end: pos, result: Err(ScannerError::InvalidCharLiteral(location_at(src, pos))) }
    } else if is_at(src, pos + 1, '\'') {
        Lexed { end: pos + 2, result: Ok(TokenTypeView::CharLiteral(src[pos])) }
    } else {
        Lexed {
            end: pos + 1,
            result: Err(ScannerError::InvalidCharLiteral(location_at(src, pos + 1))),
        }
    }
}

/// A string literal; `pos` is behind its opening quote. It runs to the next
/// double quote on the line, and holds what stands between the quotes as it
/// is. Where the line or the text ends first, the string is unterminated.
pub open spec fn string_from(src: Seq<char>, pos: int) -> Lexed {
    let body_end = run_end(src, CharClass::StringBody, pos);
    if is_at(src, body_end, '"') {
        Lexed {
            end: body_end + 1,
            result: Ok(TokenTypeView::StringLiteral(src.subrange(pos, body_end))),
        }
    } else {
        Lexed {
            end: body_end,
            result: Err(ScannerError::UnterminatedString(location_at(src, body_end))),
        }
    }
}

/// A lexeme of one character.
pub open spec fn single(pos: int, kind: TokenTypeView) -> Lexed {
    Lexed { end: pos + 1, result: Ok(kind) }
}

/// A lexeme of two characters.
pub open spec fn double(pos: int, kind: TokenTypeView) -> Lexed {
    Lexed { end: pos + 2, result: Ok(kind) }
}

/// What the scanner makes of the text from `pos` on, where `pos` lies within
/// the text.
pub open spec fn lex_at(src: Seq<char>, pos: int) -> Lexed {
    let c = src[pos];
    if c == '(' {
        single(pos, TokenTypeView::LParen)
    } else if c == ')' {
        single(pos, TokenTypeView::RParen)
    } else if c == '[' {
        single(pos, TokenTypeView::LBracket)
    } else if c == ']' {
        single(pos, TokenTypeView::RBracket)
    } else if c == '+' {
        single(pos, TokenTypeView::Plus)
    } else if c == '-' {
        if digit_at(src, pos + 1) {
            number_from(src, pos, pos + 1)
        } else {
            single(pos, TokenTypeView::Minus)
        }
    } else if c == '*' {
        single(pos, TokenTypeView::Star)
    } else if c == '/' {
        if is_at(src, pos + 1, '/') {
            Lexed {
                end: run_end(src, CharClass::LineBody, pos + 2),
                result: Ok(TokenTypeView::Comment),
            }
        } else {
            single(pos, TokenTypeView::Slash)
        }
    } else if c == '^' {
        single(pos, TokenTypeView::Caret)
    } else if c == '=' {
        single(pos, TokenTypeView::Equal)
    } else if c == '>' {
        if is_at(src, pos + 1, '=') {
            double(pos, TokenTypeView::GreaterEqual)
        } else {
            single(pos, TokenTypeView::Greater)
        }
    } else if c == '<' {
        if is_at(src, pos + 1, '=') {
            double(pos, TokenTypeView::LessEqual)
        } else if is_at(src, pos + 1, '>') {
            double(pos, TokenTypeView::NotEqual)
        } else if is_at(src, pos + 1, '-') {
            double(pos, TokenTypeView::LArrow)
        } else {
            single(pos, TokenTypeView::Less)
        }
    } else if c == ',' {
        single(pos, TokenTypeView::Comma)
    } else if c == ':' {
        single(pos, TokenTypeView::Colon)
    } else if c == '\'' {
        char_from(src, pos + 1)
    } else if c == '"' {
        string_from(src, pos + 1)
    } else if is_alphabetic(c) {
        let end = run_end(src, CharClass::Alphabetic, pos + 1);
        Lexed { end, result: Ok(word_kind(src.subrange(pos, end))) }
    } else if is_digit(c) {
        number_from(src, pos, pos + 1)
    } else if is_whitespace(c) {
        Lexed {
            end: run_end(src, CharClass::Whitespace, pos + 1),
            result: Ok(TokenTypeView::Whitespace),
        }
    } else {
        Lexed {
            end: pos + 1,
            result: Err(ScannerError::UnexpectedCharacter(c, location_at(src, pos + 1))),
        }
    }
}

/// The scanner consumes at least one character at a time and never reads
/// past the end of the text.
pub proof fn lemma_lex_advances(src: Seq<char>, pos: int)
    requires
        0 <= pos < src.len(),
    ensures
        pos < lex_at(src, pos).end <= src.len(),
{
    lemma_run_end(src, CharClass::Digit, pos + 1);
    if pos + 2 <= src.len() {
        lemma_run_end(src, CharClass::LineBody, pos + 2);
    }
    lemma_run_end(src, CharClass::StringBody, pos + 1);
    lemma_run_end(src, CharClass::Alphabetic, pos + 1);
    lemma_run_end(src, CharClass::Whitespace, pos + 1);
    let whole_end = run_end(src, CharClass::Digit, pos + 1);
    if whole_end + 1 <= src.len() {
        lemma_run_end(src, CharClass::Digit, whole_end + 1);
    }
}

/// The token or the error that the scanner gives for the text from `pos` on.
/// A token holds the text that was consumed for it and the place of its first
/// character.
pub open spec fn item_at(src: Seq<char>, pos: int) -> Result<TokenView, ScannerError> {
    let lexed = lex_at(src, pos);
    match lexed.result {
        Ok(type_) => Ok(
            TokenView {
                type_,
                lexeme: src.subrange(pos, lexed.end),
                location: location_at(src, pos),
            },
        ),
        Err(e) => Err(e),
    }
}

// ---------------------------------------------------------------------------
// The whole text
// ---------------------------------------------------------------------------

/// Every token and every error of the text from `pos` on, in order, with
/// whitespace and comments among them.
pub open spec fn lex_all(src: Seq<char>, pos: int) -> Seq<Result<TokenView, ScannerError>>
    decreases src.len() - pos,
{
    if 0 <= pos < src.len() {
        proof {
            lemma_lex_advances(src, pos);
        }
        seq![item_at(src, pos)] + lex_all(src, lex_at(src, pos).end)
    } else {
        Seq::empty()
    }
}

/// Whether the item is a token that means something to the parser: neither
/// an error nor whitespace nor a comment.
pub open spec fn is_relevant(item: Result<TokenView, ScannerError>) -> bool {
    item matches Ok(token) && !token.type_.is_irrelevant()
}

/// The tokens among `items` that the parser gets to see, in order.
pub open spec fn relevant_tokens(items: Seq<Result<TokenView, ScannerError>>) -> Seq<TokenView> {
    items.filter(|item: Result<TokenView, ScannerError>| is_relevant(item)).map_values(
        |item: Result<TokenView, ScannerError>| item->Ok_0,
    )
}

/// The errors among `items`, in order.
pub open spec fn lexical_errors(items: Seq<Result<TokenView, ScannerError>>) -> Seq<
    ScannerError,
> {
    items.filter(|item: Result<TokenView, ScannerError>| item is Err).map_values(
        |item: Result<TokenView, ScannerError>| item->Err_0,
    )
}

/// Where the first item at or behind `pos` starts that is not whitespace or a
/// comment; the end of the text where there is none.
pub open spec fn skip_irrelevant(src: Seq<char>, pos: int) -> int
    decreases src.len() - pos,
{
    if 0 <= pos < src.len() && (lex_at(src, pos).result matches Ok(kind) && kind.is_irrelevant()) {
        proof {
            lemma_lex_advances(src, pos);
        }
        skip_irrelevant(src, lex_at(src, pos).end)
    } else {
        pos
    }
}

/// Of a single item, the relevant tokens are the item's token if it is
/// relevant and none if it is not; the errors are the item's error if it is
/// one.
pub proof fn lemma_single_item(item: Result<TokenView, ScannerError>)
    ensures
        relevant_tokens(seq![item]) == (if is_relevant(item) {
            seq![item->Ok_0]
        } else {
            Seq::empty()
        }),
        lexical_errors(seq![item]) == (if item is Err {
            seq![item->Err_0]
        } else {
            Seq::empty()
        }),
{
    reveal_with_fuel(Seq::filter, 2);
    let one = seq![item];
    assert(one.drop_last() =~= Seq::empty());
    assert(one.last() == item);
    assert(relevant_tokens(one) =~= (if is_relevant(item) {
        seq![item->Ok_0]
    } else {
        Seq::empty()
    }));
    assert(lexical_errors(one) =~= (if item is Err {
        seq![item->Err_0]
    } else {
        Seq::empty()
    }));
}

/// The relevant tokens and the errors of two runs of items, one behind the
/// other, are those of the first and then those of the second.
pub proof fn lemma_items_concat(
    a: Seq<Result<TokenView, ScannerError>>,
    b: Seq<Result<TokenView, ScannerError>>,
)
    ensures
        relevant_tokens(a + b) == relevant_tokens(a) + relevant_tokens(b),
        lexical_errors(a + b) == lexical_errors(a) + lexical_errors(b),
{
    let relevant = |item: Result<TokenView, ScannerError>| is_relevant(item);
    let failed = |item: Result<TokenView, ScannerError>| item is Err;
    Seq::filter_distributes_over_add(a, b, relevant);
    Seq::filter_distributes_over_add(a, b, failed);
    assert(relevant_tokens(a + b) =~= relevant_tokens(a) + relevant_tokens(b));
    assert(lexical_errors(a + b) =~= lexical_errors(a) + lexical_errors(b));
}

/// The items from `pos` on are the item at `pos` and then the items from its
/// end on; so are the relevant tokens and the errors among them.
pub proof fn lemma_lex_all_step(src: Seq<char>, pos: int)
    requires
        0 <= pos < src.len(),
    ensures
        lex_all(src, pos) == seq![item_at(src, pos)] + lex_all(src, lex_at(src, pos).end),
        relevant_tokens(lex_all(src, pos)) == (if is_relevant(item_at(src, pos)) {
            seq![item_at(src, pos)->Ok_0]
        } else {
            Seq::empty()
        }) + relevant_tokens(lex_all(src, lex_at(src, pos).end)),
        lexical_errors(lex_all(src, pos)) == (if item_at(src, pos) is Err {
            seq![item_at(src, pos)->Err_0]
        } else {
            Seq::empty()
        }) + lexical_errors(lex_all(src, lex_at(src, pos).end)),
{
    lemma_single_item(item_at(src, pos));
    lemma_items_concat(seq![item_at(src, pos)], lex_all(src, lex_at(src, pos).end));
}

/// Skipping whitespace and comments loses no relevant token and no error.
pub proof fn lemma_skip_irrelevant(src: Seq<char>, pos: int)
    requires
        0 <= pos <= src.len(),
    ensures
        pos <= skip_irrelevant(src, pos) <= src.len(),
        relevant_tokens(lex_all(src, pos)) == relevant_tokens(
            lex_all(src, skip_irrelevant(src, pos)),
        ),
        lexical_errors(lex_all(src, pos)) == lexical_errors(
            lex_all(src, skip_irrelevant(src, pos)),
        ),
        skip_irrelevant(src, pos) < src.len() ==> !(lex_at(
            src,
            skip_irrelevant(src, pos),
        ).result matches Ok(kind) && kind.is_irrelevant()),
    decreases src.len() - pos,
{
    if pos < src.len() && (lex_at(src, pos).result matches Ok(kind) && kind.is_irrelevant()) {
        lemma_lex_advances(src, pos);
        lemma_lex_all_step(src, pos);
        lemma_skip_irrelevant(src, lex_at(src, pos).end);
        let rest = relevant_tokens(lex_all(src, lex_at(src, pos).end));
        assert(Seq::<TokenView>::empty() + rest =~= rest);
        let errors = lexical_errors(lex_all(src, lex_at(src, pos).end));
        assert(Seq::<ScannerError>::empty() + errors =~= errors);
    }
}

// ---------------------------------------------------------------------------
// What holds of every text
// ---------------------------------------------------------------------------

/// The first character of a number and the digits that follow it make the
/// lexeme of an integer.
pub proof fn lemma_number_lexeme(src: Seq<char>, start: int)
    requires
        number_begins(src, start),
    ensures
        is_integer_lexeme(src.subrange(start, run_end(src, CharClass::Digit, start + 1))),
{
    lemma_run_end(src, CharClass::Digit, start + 1);
    let whole_end = run_end(src, CharClass::Digit, start + 1);
    let lexeme = src.subrange(start, whole_end);
    assert(lexeme[0] == src[start]);
    if src[start] == '-' {
        assert forall|i: int| 0 <= i < lexeme.skip(1).len() implies is_digit(
            #[trigger] lexeme.skip(1)[i],
        ) by {
            assert(lexeme.skip(1)[i] == src[start + 1 + i]);
            assert(CharClass::Digit.contains(src[start + 1 + i]));
        }
    } else {
        assert forall|i: int| 0 <= i < lexeme.len() implies is_digit(#[trigger] lexeme[i]) by {
            assert(lexeme[i] == src[start + i]);
            if i > 0 {
                assert(CharClass::Digit.contains(src[start + i]));
            }
        }
    }
}

/// An integer token has the lexeme of an integer, and holds the number that
/// its lexeme denotes: that number itself where it fits into 64 bits, and
/// else the bound of the 64-bit range on its side.
pub proof fn lemma_integer_literal_value(src: Seq<char>, pos: int)
    requires
        0 <= pos < src.len(),
        lex_at(src, pos).result matches Ok(TokenTypeView::IntegerLiteral(_)),
    ensures
        ({
            let token = item_at(src, pos)->Ok_0;
            let value = token.type_->IntegerLiteral_0;
            &&& item_at(src, pos) is Ok
            &&& is_integer_lexeme(token.lexeme)
            &&& value == saturate(integer_value(token.lexeme))
            &&& i64::MIN <= integer_value(token.lexeme) <= i64::MAX ==> value == integer_value(
                token.lexeme,
            )
        }),
{
    if number_begins(src, pos) {
        lemma_number_lexeme(src, pos);
    }
}

/// A real token holds its lexeme split at the point: its digits are those of
/// the lexeme, on either side of the point, and it is negative where the
/// lexeme begins with a minus sign. So it denotes the number that the lexeme
/// denotes.
pub proof fn lemma_real_literal_value(src: Seq<char>, pos: int)
    requires
        0 <= pos < src.len(),
        lex_at(src, pos).result matches Ok(TokenTypeView::RealLiteral(_)),
    ensures
        ({
            let token = item_at(src, pos)->Ok_0;
            let value = token.type_->RealLiteral_0;
            &&& item_at(src, pos) is Ok
            &&& value.wf()
            &&& value.text() == token.lexeme
        }),
{
    let c = src[pos];
    lemma_run_end(src, CharClass::Digit, pos + 1);
    let whole_end = run_end(src, CharClass::Digit, pos + 1);
    if c == '-' || is_digit(c) {
        lemma_run_end(src, CharClass::Digit, whole_end + 1);
        let end = run_end(src, CharClass::Digit, whole_end + 1);
        let token = item_at(src, pos)->Ok_0;
        let value = token.type_->RealLiteral_0;
        assert forall|i: int| 0 <= i < value.whole.len() implies is_digit(
            #[trigger] value.whole[i],
        ) by {
            if c == '-' {
                assert(CharClass::Digit.contains(src[pos + 1 + i]));
            } else if i > 0 {
                assert(CharClass::Digit.contains(src[pos + i]));
            }
        }
        assert forall|i: int| 0 <= i < value.fraction.len() implies is_digit(
            #[trigger] value.fraction[i],
        ) by {
            assert(CharClass::Digit.contains(src[whole_end + 1 + i]));
        }
        assert(value.text() =~= token.lexeme);
    }
}

/// The lexemes of a run of tokens, in order.
pub open spec fn lexemes(items: Seq<Result<TokenView, ScannerError>>) -> Seq<Seq<char>> {
    items.map_values(|item: Result<TokenView, ScannerError>| item->Ok_0.lexeme)
}

/// Whether the text from `pos` on scans without an error.
pub open spec fn scans_cleanly(src: Seq<char>, pos: int) -> bool {
    forall|i: int| 0 <= i < lex_all(src, pos).len() ==> (#[trigger] lex_all(src, pos)[i]) is Ok
}

/// A text scans without an error exactly if the scan of it collects none.
pub proof fn lemma_scans_cleanly(src: Seq<char>, pos: int)
    requires
        0 <= pos <= src.len(),
    ensures
        scans_cleanly(src, pos) <==> lexical_errors(lex_all(src, pos)).len() == 0,
    decreases src.len() - pos,
{
    if pos < src.len() {
        lemma_lex_advances(src, pos);
        lemma_lex_all_step(src, pos);
        let end = lex_at(src, pos).end;
        lemma_scans_cleanly(src, end);
        let all = lex_all(src, pos);
        let rest = lex_all(src, end);
        assert(all[0] == item_at(src, pos));
        if scans_cleanly(src, pos) {
            assert forall|i: int| 0 <= i < rest.len() implies (#[trigger] rest[i]) is Ok by {
                assert(all[i + 1] == rest[i]);
            }
        }
        if lexical_errors(all).len() == 0 {
            assert forall|i: int| 0 <= i < all.len() implies (#[trigger] all[i]) is Ok by {
                if i > 0 {
                    assert(all[i] == rest[i - 1]);
                }
            }
        }
    } else {
        assert(lexical_errors(lex_all(src, pos)) =~= Seq::empty()) by {
            reveal(Seq::filter);
        }
    }
}

/// Where the text from `pos` on scans without an error, the lexemes of all
/// its tokens, whitespace and comments among them, make up that text when
/// they are written one behind the other.
pub proof fn lemma_lexemes_rebuild(src: Seq<char>, pos: int)
    requires
        0 <= pos <= src.len(),
        scans_cleanly(src, pos),
    ensures
        lexemes(lex_all(src, pos)).flatten() == src.subrange(pos, src.len() as int),
    decreases src.len() - pos,
{
    let all = lex_all(src, pos);
    if pos < src.len() {
        lemma_lex_advances(src, pos);
        let end = lex_at(src, pos).end;
        let rest = lex_all(src, end);
        assert(all[0] == item_at(src, pos));
        assert forall|i: int| 0 <= i < rest.len() implies (#[trigger] rest[i]) is Ok by {
            assert(all[i + 1] == rest[i]);
        }
        lemma_lexemes_rebuild(src, end);
        assert(lexemes(all).first() == src.subrange(pos, end));
        assert(lexemes(all).drop_first() =~= lexemes(rest));
        assert(src.subrange(pos, end) + src.subrange(end, src.len() as int) =~= src.subrange(
            pos,
            src.len() as int,
        ));
    } else {
        assert(lexemes(all) =~= Seq::empty());
        assert(src.subrange(pos, src.len() as int) =~= Seq::empty());
    }
}

/// A text that scans without an error is rebuilt from the lexemes of all its
/// tokens, in order.
pub proof fn lemma_round_trip(src: Seq<char>)
    requires
        lexical_errors(lex_all(src, 0)).len() == 0,
    ensures
        lexemes(lex_all(src, 0)).flatten() == src,
{
    lemma_scans_cleanly(src, 0);
    lemma_lexemes_rebuild(src, 0);
    assert(src.subrange(0, src.len() as int) =~= src);
}

} // verus!
