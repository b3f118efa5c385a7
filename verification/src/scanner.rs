//! The scanner: from source text to tokens.

use vstd::prelude::*;
use crate::chars::{CharClass, lemma_run_end, run_end};
use crate::lexis::{
    Lexed, char_from, column_at, item_at, lemma_lex_advances, lemma_lex_all_step,
    lemma_location_bounds, lemma_number_lexeme, lemma_skip_irrelevant, lex_all, lex_at,
    lexical_errors, line_at, location_at, number_begins, number_from, relevant_tokens,
    skip_irrelevant, string_from, word_kind,
};
use crate::number::{Decimal, DecimalView, integer_from_digits};
use crate::text::{chars_of, spells, text_of};

verus! {

/// What kind of token a lexeme is and, for names and literals, what it holds.
#[derive(Debug)]
pub enum TokenType {
    // Reserved words
    Procedure, EndProcedure,
    Function, Returns, EndFunction, Return,
    If, Then, Else, EndIf,
    Case, Otherwise, EndCase,
    For, To, Step, Next,
    Repeat, Until,
    While, Do, EndWhile,
    Declare, Constant,
    Input, Output, Call,
    OpenFile, ReadFile, WriteFile, CloseFile,
    Read, Write,
    Integer, Real, Char, String, Boolean,
    Array, Of,
    And, Or, Not,
    // Symbols
    LParen, RParen, LBracket, RBracket,
    Plus, Minus, Star, Slash, Caret,
    Equal, NotEqual, LessEqual, GreaterEqual, Less, Greater,
    Comma, Colon, LArrow,
    // Names and literals
    Identifier(String),
    CharLiteral(char),
    StringLiteral(String),
    IntegerLiteral(i64),
    RealLiteral(Decimal),
    BooleanLiteral(bool),
    // Markers that the filtering stream drops
    Whitespace, Comment,
}

/// A [`TokenType`] with its text as plain sequences of characters.
pub enum TokenTypeView {
    // Reserved words
    Procedure, EndProcedure,
    Function, Returns, EndFunction, Return,
    If, Then, Else, EndIf,
    Case, Otherwise, EndCase,
    For, To, Step, Next,
    Repeat, Until,
    While, Do, EndWhile,
    Declare, Constant,
    Input, Output, Call,
    OpenFile, ReadFile, WriteFile, CloseFile,
    Read, Write,
    Integer, Real, Char, String, Boolean,
    Array, Of,
    And, Or, Not,
    // Symbols
    LParen, RParen, LBracket, RBracket,
    Plus, Minus, Star, Slash, Caret,
    Equal, NotEqual, LessEqual, GreaterEqual, Less, Greater,
    Comma, Colon, LArrow,
    // Names and literals
    Identifier(Seq<char>),
    CharLiteral(char),
    StringLiteral(Seq<char>),
    IntegerLiteral(i64),
    RealLiteral(DecimalView),
    BooleanLiteral(bool),
    // Markers that the filtering stream drops
    Whitespace, Comment,
}

impl View for TokenType {
    type V = TokenTypeView;

    open spec fn view(&self) -> TokenTypeView {
        match self {
            TokenType::Procedure => TokenTypeView::Procedure,
            TokenType::EndProcedure => TokenTypeView::EndProcedure,
            TokenType::Function => TokenTypeView::Function,
            TokenType::Returns => TokenTypeView::Returns,
            TokenType::EndFunction => TokenTypeView::EndFunction,
            TokenType::Return => TokenTypeView::Return,
            TokenType::If => TokenTypeView::If,
            TokenType::Then => TokenTypeView::Then,
            TokenType::Else => TokenTypeView::Else,
            TokenType::EndIf => TokenTypeView::EndIf,
            TokenType::Case => TokenTypeView::Case,
            TokenType::Otherwise => TokenTypeView::Otherwise,
            TokenType::EndCase => TokenTypeView::EndCase,
            TokenType::For => TokenTypeView::For,
            TokenType::To => TokenTypeView::To,
            TokenType::Step => TokenTypeView::Step,
            TokenType::Next => TokenTypeView::Next,
            TokenType::Repeat => TokenTypeView::Repeat,
            TokenType::Until => TokenTypeView::Until,
            TokenType::While => TokenTypeView::While,
            TokenType::Do => TokenTypeView::Do,
            TokenType::EndWhile => TokenTypeView::EndWhile,
            TokenType::Declare => TokenTypeView::Declare,
            TokenType::Constant => TokenTypeView::Constant,
            TokenType::Input => TokenTypeView::Input,
            TokenType::Output => TokenTypeView::Output,
            TokenType::Call => TokenTypeView::Call,
            TokenType::OpenFile => TokenTypeView::OpenFile,
            TokenType::ReadFile => TokenTypeView::ReadFile,
            TokenType::WriteFile => TokenTypeView::WriteFile,
            TokenType::CloseFile => TokenTypeView::CloseFile,
            TokenType::Read => TokenTypeView::Read,
            TokenType::Write => TokenTypeView::Write,
            TokenType::Integer => TokenTypeView::Integer,
            TokenType::Real => TokenTypeView::Real,
            TokenType::Char => TokenTypeView::Char,
            TokenType::String => TokenTypeView::String,
            TokenType::Boolean => TokenTypeView::Boolean,
            TokenType::Array => TokenTypeView::Array,
            TokenType::Of => TokenTypeView::Of,
            TokenType::And => TokenTypeView::And,
            TokenType::Or => TokenTypeView::Or,
            TokenType::Not => TokenTypeView::Not,
            TokenType::LParen => TokenTypeView::LParen,
            TokenType::RParen => TokenTypeView::RParen,
            TokenType::LBracket => TokenTypeView::LBracket,
            TokenType::RBracket => TokenTypeView::RBracket,
            TokenType::Plus => TokenTypeView::Plus,
            TokenType::Minus => TokenTypeView::Minus,
            TokenType::Star => TokenTypeView::Star,
            TokenType::Slash => TokenTypeView::Slash,
            TokenType::Caret => TokenTypeView::Caret,
            TokenType::Equal => TokenTypeView::Equal,
            TokenType::NotEqual => TokenTypeView::NotEqual,
            TokenType::LessEqual => TokenTypeView::LessEqual,
            TokenType::GreaterEqual => TokenTypeView::GreaterEqual,
            TokenType::Less => TokenTypeView::Less,
            TokenType::Greater => TokenTypeView::Greater,
            TokenType::Comma => TokenTypeView::Comma,
            TokenType::Colon => TokenTypeView::Colon,
            TokenType::LArrow => TokenTypeView::LArrow,
            TokenType::Whitespace => TokenTypeView::Whitespace,
            TokenType::Comment => TokenTypeView::Comment,
            TokenType::Identifier(s) => TokenTypeView::Identifier(s@),
            TokenType::CharLiteral(c) => TokenTypeView::CharLiteral(*c),
            TokenType::StringLiteral(s) => TokenTypeView::StringLiteral(s@),
            TokenType::IntegerLiteral(i) => TokenTypeView::IntegerLiteral(*i),
            TokenType::RealLiteral(d) => TokenTypeView::RealLiteral(d@),
            TokenType::BooleanLiteral(b) => TokenTypeView::BooleanLiteral(*b),
        }
    }
}

impl TokenTypeView {
    /// Whether the token is whitespace or a comment, which carry no meaning
    /// for the parser.
    pub open spec fn is_irrelevant(self) -> bool {
        self is Whitespace || self is Comment
    }
}

impl Clone for TokenType {
    fn clone(&self) -> (r: Self)
        ensures
            r == *self,
    {
        match self {
            TokenType::Procedure => TokenType::Procedure,
            TokenType::EndProcedure => TokenType::EndProcedure,
            TokenType::Function => TokenType::Function,
            TokenType::Returns => TokenType::Returns,
            TokenType::EndFunction => TokenType::EndFunction,
            TokenType::Return => TokenType::Return,
            TokenType::If => TokenType::If,
            TokenType::Then => TokenType::Then,
            TokenType::Else => TokenType::Else,
            TokenType::EndIf => TokenType::EndIf,
            TokenType::Case => TokenType::Case,
            TokenType::Otherwise => TokenType::Otherwise,
            TokenType::EndCase => TokenType::EndCase,
            TokenType::For => TokenType::For,
            TokenType::To => TokenType::To,
            TokenType::Step => TokenType::Step,
            TokenType::Next => TokenType::Next,
            TokenType::Repeat => TokenType::Repeat,
            TokenType::Until => TokenType::Until,
            TokenType::While => TokenType::While,
            TokenType::Do => TokenType::Do,
            TokenType::EndWhile => TokenType::EndWhile,
            TokenType::Declare => TokenType::Declare,
            TokenType::Constant => TokenType::Constant,
            TokenType::Input => TokenType::Input,
            TokenType::Output => TokenType::Output,
            TokenType::Call => TokenType::Call,
            TokenType::OpenFile => TokenType::OpenFile,
            TokenType::ReadFile => TokenType::ReadFile,
            TokenType::WriteFile => TokenType::WriteFile,
            TokenType::CloseFile => TokenType::CloseFile,
            TokenType::Read => TokenType::Read,
            TokenType::Write => TokenType::Write,
            TokenType::Integer => TokenType::Integer,
            TokenType::Real => TokenType::Real,
            TokenType::Char => TokenType::Char,
            TokenType::String => TokenType::String,
            TokenType::Boolean => TokenType::Boolean,
            TokenType::Array => TokenType::Array,
            TokenType::Of => TokenType::Of,
            TokenType::And => TokenType::And,
            TokenType::Or => TokenType::Or,
            TokenType::Not => TokenType::Not,
            TokenType::LParen => TokenType::LParen,
            TokenType::RParen => TokenType::RParen,
            TokenType::LBracket => TokenType::LBracket,
            TokenType::RBracket => TokenType::RBracket,
            TokenType::Plus => TokenType::Plus,
            TokenType::Minus => TokenType::Minus,
            TokenType::Star => TokenType::Star,
            TokenType::Slash => TokenType::Slash,
            TokenType::Caret => TokenType::Caret,
            TokenType::Equal => TokenType::Equal,
            TokenType::NotEqual => TokenType::NotEqual,
            TokenType::LessEqual => TokenType::LessEqual,
            TokenType::GreaterEqual => TokenType::GreaterEqual,
            TokenType::Less => TokenType::Less,
            TokenType::Greater => TokenType::Greater,
            TokenType::Comma => TokenType::Comma,
            TokenType::Colon => TokenType::Colon,
            TokenType::LArrow => TokenType::LArrow,
            TokenType::Whitespace => TokenType::Whitespace,
            TokenType::Comment => TokenType::Comment,
            TokenType::Identifier(s) => TokenType::Identifier(s.clone()),
            TokenType::CharLiteral(c) => TokenType::CharLiteral(*c),
            TokenType::StringLiteral(s) => TokenType::StringLiteral(s.clone()),
            TokenType::IntegerLiteral(i) => TokenType::IntegerLiteral(*i),
            TokenType::RealLiteral(d) => TokenType::RealLiteral(d.clone()),
            TokenType::BooleanLiteral(b) => TokenType::BooleanLiteral(*b),
        }
    }
}

impl PartialEq for TokenType {
    /// Two token types are equal when they are the same kind and hold the
    /// same text or value.
    fn eq(&self, other: &Self) -> (r: bool) {
        match (self, other) {
            (TokenType::Procedure, TokenType::Procedure) => true,
            (TokenType::EndProcedure, TokenType::EndProcedure) => true,
            (TokenType::Function, TokenType::Function) => true,
            (TokenType::Returns, TokenType::Returns) => true,
            (TokenType::EndFunction, TokenType::EndFunction) => true,
            (TokenType::Return, TokenType::Return) => true,
            (TokenType::If, TokenType::If) => true,
            (TokenType::Then, TokenType::Then) => true,
            (TokenType::Else, TokenType::Else) => true,
            (TokenType::EndIf, TokenType::EndIf) => true,
            (TokenType::Case, TokenType::Case) => true,
            (TokenType::Otherwise, TokenType::Otherwise) => true,
            (TokenType::EndCase, TokenType::EndCase) => true,
            (TokenType::For, TokenType::For) => true,
            (TokenType::To, TokenType::To) => true,
            (TokenType::Step, TokenType::Step) => true,
            (TokenType::Next, TokenType::Next) => true,
            (TokenType::Repeat, TokenType::Repeat) => true,
            (TokenType::Until, TokenType::Until) => true,
            (TokenType::While, TokenType::While) => true,
            (TokenType::Do, TokenType::Do) => true,
            (TokenType::EndWhile, TokenType::EndWhile) => true,
            (TokenType::Declare, TokenType::Declare) => true,
            (TokenType::Constant, TokenType::Constant) => true,
            (TokenType::Input, TokenType::Input) => true,
            (TokenType::Output, TokenType::Output) => true,
            (TokenType::Call, TokenType::Call) => true,
            (TokenType::OpenFile, TokenType::OpenFile) => true,
            (TokenType::ReadFile, TokenType::ReadFile) => true,
            (TokenType::WriteFile, TokenType::WriteFile) => true,
            (TokenType::CloseFile, TokenType::CloseFile) => true,
            (TokenType::Read, TokenType::Read) => true,
            (TokenType::Write, TokenType::Write) => true,
            (TokenType::Integer, TokenType::Integer) => true,
            (TokenType::Real, TokenType::Real) => true,
            (TokenType::Char, TokenType::Char) => true,
            (TokenType::String, TokenType::String) => true,
            (TokenType::Boolean, TokenType::Boolean) => true,
            (TokenType::Array, TokenType::Array) => true,
            (TokenType::Of, TokenType::Of) => true,
            (TokenType::And, TokenType::And) => true,
            (TokenType::Or, TokenType::Or) => true,
            (TokenType::Not, TokenType::Not) => true,
            (TokenType::LParen, TokenType::LParen) => true,
            (TokenType::RParen, TokenType::RParen) => true,
            (TokenType::LBracket, TokenType::LBracket) => true,
            (TokenType::RBracket, TokenType::RBracket) => true,
            (TokenType::Plus, TokenType::Plus) => true,
            (TokenType::Minus, TokenType::Minus) => true,
            (TokenType::Star, TokenType::Star) => true,
            (TokenType::Slash, TokenType::Slash) => true,
            (TokenType::Caret, TokenType::Caret) => true,
            (TokenType::Equal, TokenType::Equal) => true,
            (TokenType::NotEqual, TokenType::NotEqual) => true,
            (TokenType::LessEqual, TokenType::LessEqual) => true,
            (TokenType::GreaterEqual, TokenType::GreaterEqual) => true,
            (TokenType::Less, TokenType::Less) => true,
            (TokenType::Greater, TokenType::Greater) => true,
            (TokenType::Comma, TokenType::Comma) => true,
            (TokenType::Colon, TokenType::Colon) => true,
            (TokenType::LArrow, TokenType::LArrow) => true,
            (TokenType::Whitespace, TokenType::Whitespace) => true,
            (TokenType::Comment, TokenType::Comment) => true,
            (TokenType::Identifier(a), TokenType::Identifier(b)) => *a == *b,
            (TokenType::CharLiteral(a), TokenType::CharLiteral(b)) => *a == *b,
            (TokenType::StringLiteral(a), TokenType::StringLiteral(b)) => *a == *b,
            (TokenType::IntegerLiteral(a), TokenType::IntegerLiteral(b)) => *a == *b,
            (TokenType::RealLiteral(a), TokenType::RealLiteral(b)) => *a == *b,
            (TokenType::BooleanLiteral(a), TokenType::BooleanLiteral(b)) => *a == *b,
            _ => false,
        }
    }
}

impl vstd::std_specs::cmp::PartialEqSpecImpl for TokenType {
    open spec fn obeys_eq_spec() -> bool {
        true
    }

    open spec fn eq_spec(&self, other: &Self) -> bool {
        self@ == other@
    }
}

/// A place in the source text. Lines and columns count from 1.
#[derive(Copy, Clone, Debug, PartialEq, Eq, Structural)]
pub struct Location {
    pub line: u32,
    pub column: u32,
}

impl Location {
    /// The place of the first character of a text.
    pub fn new() -> (location: Self)
        ensures
            location == (Location { line: 1, column: 1 }),
    {
        Self { line: 1, column: 1 }
    }

    /// Steps over one character that is not a line feed.
    pub fn increment_column(&mut self)
        requires
            old(self).column < u32::MAX,
        ensures
            *final(self) == (Location {
                line: old(self).line,
                column: (old(self).column + 1) as u32,
            }),
    {
        self.column += 1;
    }

    /// Steps over a line feed, to the start of the next line.
    pub fn increment_line(&mut self)
        requires
            old(self).line < u32::MAX,
        ensures
            *final(self) == (Location { line: (old(self).line + 1) as u32, column: 1 }),
    {
        self.line += 1;
        self.column = 1;
    }
}

/// What the scanner could not turn into a token. The location is where the
/// scanner stood when it gave up: just behind the last character it consumed.
#[derive(Copy, Clone, Debug, PartialEq, Eq)]
pub enum ScannerError {
    InvalidCharLiteral(Location),
    UnterminatedString(Location),
    InvalidRealLiteral(Location),
    UnexpectedCharacter(char, Location),
}

/// A lexeme of the source with its kind and the place of its first character.
#[derive(Debug, PartialEq)]
pub struct Token {
    pub type_: TokenType,
    pub lexeme: String,
    pub location: Location,
}

/// A [`Token`] with its text as plain sequences of characters.
pub struct TokenView {
    pub type_: TokenTypeView,
    pub lexeme: Seq<char>,
    pub location: Location,
}

impl View for Token {
    type V = TokenView;

    open spec fn view(&self) -> TokenView {
        TokenView { type_: self.type_@, lexeme: self.lexeme@, location: self.location }
    }
}

impl Clone for Token {
    fn clone(&self) -> (r: Self)
        ensures
            r == *self,
    {
        Token {
            type_: self.type_.clone(),
            lexeme: self.lexeme.clone(),
            location: self.location,
        }
    }
}

/// The views of a run of tokens, in order.
pub open spec fn token_views(tokens: Seq<Token>) -> Seq<TokenView> {
    tokens.map_values(|t: Token| t@)
}

/// The kind or the error of a lexeme, the kind by its view.
pub open spec fn kind_result(r: Result<TokenType, ScannerError>) -> Result<
    TokenTypeView,
    ScannerError,
> {
    match r {
        Ok(kind) => Ok(kind@),
        Err(e) => Err(e),
    }
}

/// A token or an error, the token by its view.
pub open spec fn item_view(item: Result<Token, ScannerError>) -> Result<TokenView, ScannerError> {
    match item {
        Ok(token) => Ok(token@),
        Err(e) => Err(e),
    }
}

/// Reads a source text lexeme by lexeme, keeping track of the place.
pub struct Scanner {
    source: Vec<char>,
    position: usize,
    lexeme_start: usize,
    cur_lexeme: String,
    cur_location: Location,
}

impl Scanner {
    /// The text that is read.
    pub closed spec fn source(&self) -> Seq<char> {
        self.source@
    }

    /// How many characters have been consumed.
    pub closed spec fn position(&self) -> int {
        self.position as int
    }

    /// Where the lexeme that is being read began.
    pub closed spec fn lexeme_start(&self) -> int {
        self.lexeme_start as int
    }

    /// The scanner stands within its text, holds the text of the lexeme that
    /// it is reading, and knows the place of the next character. The text is
    /// short enough for lines and columns to be counted in 32 bits.
    pub closed spec fn wf(&self) -> bool {
        &&& self.source.len() < u32::MAX
        &&& self.lexeme_start <= self.position <= self.source.len()
        &&& self.cur_lexeme@ == self.source@.subrange(
            self.lexeme_start as int,
            self.position as int,
        )
        &&& self.cur_location.line == line_at(self.source@, self.position as int)
        &&& self.cur_location.column == column_at(self.source@, self.position as int)
    }

    /// The scanner never leaves its text.
    pub proof fn lemma_position_in_bounds(&self)
        requires
            self.wf(),
        ensures
            0 <= self.lexeme_start() <= self.position() <= self.source().len(),
            self.source().len() < u32::MAX,
    {
    }

    /// A scanner at the start of `source`.
    pub fn from_source(source: &str) -> (scanner: Self)
        requires
            source@.len() < u32::MAX,
        ensures
            scanner.wf(),
            scanner.source() == source@,
            scanner.position() == 0,
            scanner.lexeme_start() == 0,
    {
        let scanner = Self {
            source: chars_of(source),
            position: 0,
            lexeme_start: 0,
            cur_lexeme: String::new(),
            cur_location: Location::new(),
        };
        assert(scanner.cur_lexeme@ =~= scanner.source@.subrange(0, 0));
        scanner
    }

    /// Whether a character follows and belongs to `class`.
    pub fn check_next(&self, class: CharClass) -> (r: bool)
        requires
            self.wf(),
        ensures
            r == (self.position() < self.source().len() && class.contains(
                self.source()[self.position()],
            )),
    {
        if self.position < self.source.len() {
            class.accepts(self.source[self.position])
        } else {
            false
        }
    }

    /// Consumes the next character, if there is one: it joins the lexeme, and
    /// the place moves on, to the next line behind a line feed.
    pub fn advance(&mut self) -> (next: Option<char>)
        requires
            old(self).wf(),
        ensures
            final(self).wf(),
            final(self).source() == old(self).source(),
            final(self).lexeme_start() == old(self).lexeme_start(),
            match next {
                Some(c) => old(self).position() < old(self).source().len()
                    && c == old(self).source()[old(self).position()]
                    && final(self).position() == old(self).position() + 1,
                None => old(self).position() == old(self).source().len() && final(self).position()
                    == old(self).position(),
            },
    {
        if self.position < self.source.len() {
            let c = self.source[self.position];
            proof {
                lemma_location_bounds(self.source@, self.position as int);
                assert(self.source@.subrange(
                    self.lexeme_start as int,
                    self.position as int,
                ).push(c) =~= self.source@.subrange(
                    self.lexeme_start as int,
                    self.position as int + 1,
                ));
            }
            self.cur_lexeme.push(c);
            if c == '\n' {
                self.cur_location.increment_line();
            } else {
                self.cur_location.increment_column();
            }
            self.position = self.position + 1;
            Some(c)
        } else {
            None
        }
    }

    /// Consumes the next character if it is `target`.
    pub fn advance_if_match(&mut self, target: char) -> (r: bool)
        requires
            old(self).wf(),
        ensures
            final(self).wf(),
            final(self).source() == old(self).source(),
            final(self).lexeme_start() == old(self).lexeme_start(),
            r == (old(self).position() < old(self).source().len()
                && old(self).source()[old(self).position()] == target),
            final(self).position() == old(self).position() + (if r {
                1int
            } else {
                0int
            }),
    {
        let result = self.check_next(CharClass::Exactly(target));
        if result {
            self.advance();
        }
        result
    }

    /// Consumes characters as long as they belong to `class`.
    pub fn advance_while(&mut self, class: CharClass)
        requires
            old(self).wf(),
        ensures
            final(self).wf(),
            final(self).source() == old(self).source(),
            final(self).lexeme_start() == old(self).lexeme_start(),
            final(self).position() == run_end(old(self).source(), class, old(self).position()),
    {
        while self.check_next(class)
            invariant
                self.wf(),
                self.source() == old(self).source(),
                self.lexeme_start() == old(self).lexeme_start(),
                old(self).position() <= self.position(),
                run_end(self.source(), class, self.position()) == run_end(
                    old(self).source(),
                    class,
                    old(self).position(),
                ),
            decreases self.source().len() - self.position(),
        {
            self.advance();
        }
    }

    /// The token of kind `type_` for the lexeme that has been read.
    fn create_token(&self, type_: TokenType, location: Location) -> (token: Token)
        requires
            self.wf(),
        ensures
            token@ == (TokenView {
                type_: type_@,
                lexeme: self.source().subrange(self.lexeme_start(), self.position()),
                location,
            }),
    {
        Token { type_, lexeme: self.cur_lexeme.clone(), location }
    }

    /// The rest of a line comment, behind its two slashes.
    fn comment(&mut self) -> (kind: TokenType)
        requires
            old(self).wf(),
        ensures
            final(self).wf(),
            final(self).source() == old(self).source(),
            final(self).lexeme_start() == old(self).lexeme_start(),
            final(self).position() == run_end(
                old(self).source(),
                CharClass::LineBody,
                old(self).position(),
            ),
            kind@ == TokenTypeView::Comment,
    {
        self.advance_while(CharClass::LineBody);
        TokenType::Comment
    }

    /// A character literal, behind its opening quote.
    fn char(&mut self) -> (r: Result<TokenType, ScannerError>)
        requires
            old(self).wf(),
        ensures
            final(self).wf(),
            final(self).source() == old(self).source(),
            final(self).lexeme_start() == old(self).lexeme_start(),
            (Lexed { end: final(self).position(), result: kind_result(r) }) == char_from(
                old(self).source(),
                old(self).position(),
            ),
    {
        let c = match self.advance() {
            Some(c) => c,
            None => return Err(ScannerError::InvalidCharLiteral(self.cur_location)),
        };
        if !self.advance_if_match('\'') {
            return Err(ScannerError::InvalidCharLiteral(self.cur_location));
        }
        Ok(TokenType::CharLiteral(c))
    }

    /// A string literal, behind its opening quote.
    fn string(&mut self) -> (r: Result<TokenType, ScannerError>)
        requires
            old(self).wf(),
            old(self).position() == old(self).lexeme_start() + 1,
        ensures
            final(self).wf(),
            final(self).source() == old(self).source(),
            final(self).lexeme_start() == old(self).lexeme_start(),
            (Lexed { end: final(self).position(), result: kind_result(r) }) == string_from(
                old(self).source(),
                old(self).position(),
            ),
    {
        proof {
            lemma_run_end(self.source@, CharClass::StringBody, self.position as int);
        }
        self.advance_while(CharClass::StringBody);
        if !self.advance_if_match('"') {
            return Err(ScannerError::UnterminatedString(self.cur_location));
        }
        let content = text_of(&self.source, self.lexeme_start + 1, self.position - 1);
        Ok(TokenType::StringLiteral(content))
    }

    /// A reserved word or an identifier, behind its first letter.
    fn identifier(&mut self) -> (kind: TokenType)
        requires
            old(self).wf(),
        ensures
            final(self).wf(),
            final(self).source() == old(self).source(),
            final(self).lexeme_start() == old(self).lexeme_start(),
            final(self).position() == run_end(
                old(self).source(),
                CharClass::Alphabetic,
                old(self).position(),
            ),
            kind@ == word_kind(
                old(self).source().subrange(old(self).lexeme_start(), final(self).position()),
            ),
    {
        self.advance_while(CharClass::Alphabetic);
        let start = self.lexeme_start;
        let end = self.position;
        if spells(&self.source, start, end, "PROCEDURE") {
            TokenType::Procedure
        } else if spells(&self.source, start, end, "ENDPROCEDURE") {
            TokenType::EndProcedure
        } else if spells(&self.source, start, end, "FUNCTION") {
            TokenType::Function
        } else if spells(&self.source, start, end, "RETURNS") {
            TokenType::Returns
        } else if spells(&self.source, start, end, "ENDFUNCTION") {
            TokenType::EndFunction
        } else if spells(&self.source, start, end, "RETURN") {
            TokenType::Return
        } else if spells(&self.source, start, end, "IF") {
            TokenType::If
        } else if spells(&self.source, start, end, "THEN") {
            TokenType::Then
        } else if spells(&self.source, start, end, "ELSE") {
            TokenType::Else
        } else if spells(&self.source, start, end, "ENDIF") {
            TokenType::EndIf
        } else if spells(&self.source, start, end, "CASE") {
            TokenType::Case
        } else if spells(&self.source, start, end, "OTHERWISE") {
            TokenType::Otherwise
        } else if spells(&self.source, start, end, "ENDCASE") {
            TokenType::EndCase
        } else if spells(&self.source, start, end, "FOR") {
            TokenType::For
        } else if spells(&self.source, start, end, "TO") {
            TokenType::To
        } else if spells(&self.source, start, end, "STEP") {
            TokenType::Step
        } else if spells(&self.source, start, end, "NEXT") {
            TokenType::Next
        } else if spells(&self.source, start, end, "REPEAT") {
            TokenType::Repeat
        } else if spells(&self.source, start, end, "UNTIL") {
            TokenType::Until
        } else if spells(&self.source, start, end, "WHILE") {
            TokenType::While
        } else if spells(&self.source, start, end, "DO") {
            TokenType::Do
        } else if spells(&self.source, start, end, "ENDWHILE") {
            TokenType::EndWhile
        } else if spells(&self.source, start, end, "DECLARE") {
            TokenType::Declare
        } else if spells(&self.source, start, end, "CONSTANT") {
            TokenType::Constant
        } else if spells(&self.source, start, end, "INPUT") {
            TokenType::Input
        } else if spells(&self.source, start, end, "OUTPUT") {
            TokenType::Output
        } else if spells(&self.source, start, end, "CALL") {
            TokenType::Call
        } else if spells(&self.source, start, end, "OPENFILE") {
            TokenType::OpenFile
        } else if spells(&self.source, start, end, "READFILE") {
            TokenType::ReadFile
        } else if spells(&self.source, start, end, "WRITEFILE") {
            TokenType::WriteFile
        } else if spells(&self.source, start, end, "CLOSEFILE") {
            TokenType::CloseFile
        } else if spells(&self.source, start, end, "READ") {
            TokenType::Read
        } else if spells(&self.source, start, end, "WRITE") {
            TokenType::Write
        } else if spells(&self.source, start, end, "INTEGER") {
            TokenType::Integer
        } else if spells(&self.source, start, end, "REAL") {
            TokenType::Real
        } else if spells(&self.source, start, end, "CHAR") {
            TokenType::Char
        } else if spells(&self.source, start, end, "STRING") {
            TokenType::String
        } else if spells(&self.source, start, end, "BOOLEAN") {
            TokenType::Boolean
        } else if spells(&self.source, start, end, "ARRAY") {
            TokenType::Array
        } else if spells(&self.source, start, end, "OF") {
            TokenType::Of
        } else if spells(&self.source, start, end, "TRUE") {
            TokenType::BooleanLiteral(true)
        } else if spells(&self.source, start, end, "FALSE") {
            TokenType::BooleanLiteral(false)
        } else if spells(&self.source, start, end, "AND") {
            TokenType::And
        } else if spells(&self.source, start, end, "OR") {
            TokenType::Or
        } else if spells(&self.source, start, end, "NOT") {
            TokenType::Not
        } else {
            TokenType::Identifier(text_of(&self.source, start, end))
        }
    }

    /// A number, behind its first character: a digit, or a minus sign that a
    /// digit follows.
    fn number(&mut self) -> (r: Result<TokenType, ScannerError>)
        requires
            old(self).wf(),
            old(self).position() == old(self).lexeme_start() + 1,
            number_begins(old(self).source(), old(self).lexeme_start()),
        ensures
            final(self).wf(),
            final(self).source() == old(self).source(),
            final(self).lexeme_start() == old(self).lexeme_start(),
            (Lexed { end: final(self).position(), result: kind_result(r) }) == number_from(
                old(self).source(),
                old(self).lexeme_start(),
                old(self).position(),
            ),
    {
        let ghost src = self.source@;
        let ghost first = self.position as int;
        let start = self.lexeme_start;
        proof {
            lemma_run_end(src, CharClass::Digit, first);
        }
        self.advance_while(CharClass::Digit);
        let whole_end = self.position;
        if self.advance_if_match('.') {
            if !self.check_next(CharClass::Digit) {
                return Err(ScannerError::InvalidRealLiteral(self.cur_location));
            }
            proof {
                lemma_run_end(src, CharClass::Digit, whole_end as int + 1);
            }
            self.advance_while(CharClass::Digit);
            let negative = self.source[start] == '-';
            let whole_start: usize = if negative {
                start + 1
            } else {
                start
            };
            Ok(
                TokenType::RealLiteral(
                    Decimal {
                        negative,
                        whole: text_of(&self.source, whole_start, whole_end),
                        fraction: text_of(&self.source, whole_end + 1, self.position),
                    },
                ),
            )
        } else {
            proof {
                lemma_number_lexeme(src, start as int);
            }
            Ok(TokenType::IntegerLiteral(integer_from_digits(&self.source, start, whole_end)))
        }
    }

    /// A run of whitespace, behind its first character.
    fn whitespace(&mut self) -> (kind: TokenType)
        requires
            old(self).wf(),
        ensures
            final(self).wf(),
            final(self).source() == old(self).source(),
            final(self).lexeme_start() == old(self).lexeme_start(),
            final(self).position() == run_end(
                old(self).source(),
                CharClass::Whitespace,
                old(self).position(),
            ),
            kind@ == TokenTypeView::Whitespace,
    {
        self.advance_while(CharClass::Whitespace);
        TokenType::Whitespace
    }

    /// Reads the next lexeme: its token, or the error that it is. At the end
    /// of the text there is none.
    pub fn scan_next(&mut self) -> (r: Option<Result<Token, ScannerError>>)
        requires
            old(self).wf(),
        ensures
            final(self).wf(),
            final(self).source() == old(self).source(),
            match r {
                Some(item) => old(self).position() < old(self).source().len() && item_view(item)
                    == item_at(old(self).source(), old(self).position()) && final(self).position()
                    == lex_at(old(self).source(), old(self).position()).end,
                None => old(self).position() == old(self).source().len() && final(self).position()
                    == old(self).position(),
            },
            r is Some ==> old(self).position() < final(self).position() <= old(self).source().len(),
    {
        proof {
            if self.position < self.source.len() {
                lemma_lex_advances(self.source@, self.position as int);
            }
        }
        let location = self.cur_location;
        self.cur_lexeme = String::new();
        self.lexeme_start = self.position;
        proof {
            lemma_location_bounds(self.source@, self.position as int);
            assert(self.cur_lexeme@ =~= self.source@.subrange(
                self.position as int,
                self.position as int,
            ));
        }
        let next_char = match self.advance() {
            Some(c) => c,
            None => return None,
        };
        let result = if next_char == '(' {
            Ok(TokenType::LParen)
        } else if next_char == ')' {
            Ok(TokenType::RParen)
        } else if next_char == '[' {
            Ok(TokenType::LBracket)
        } else if next_char == ']' {
            Ok(TokenType::RBracket)
        } else if next_char == '+' {
            Ok(TokenType::Plus)
        } else if next_char == '-' {
            if self.check_next(CharClass::Digit) {
                self.number()
            } else {
                Ok(TokenType::Minus)
            }
        } else if next_char == '*' {
            Ok(TokenType::Star)
        } else if next_char == '/' {
            if self.advance_if_match('/') {
                Ok(self.comment())
            } else {
                Ok(TokenType::Slash)
            }
        } else if next_char == '^' {
            Ok(TokenType::Caret)
        } else if next_char == '=' {
            Ok(TokenType::Equal)
        } else if next_char == '>' {
            if self.advance_if_match('=') {
                Ok(TokenType::GreaterEqual)
            } else {
                Ok(TokenType::Greater)
            }
        } else if next_char == '<' {
            if self.advance_if_match('=') {
                Ok(TokenType::LessEqual)
            } else if self.advance_if_match('>') {
                Ok(TokenType::NotEqual)
            } else if self.advance_if_match('-') {
                Ok(TokenType::LArrow)
            } else {
                Ok(TokenType::Less)
            }
        } else if next_char == ',' {
            Ok(TokenType::Comma)
        } else if next_char == ':' {
            Ok(TokenType::Colon)
        } else if next_char == '\'' {
            self.char()
        } else if next_char == '"' {
            self.string()
        } else if CharClass::Alphabetic.accepts(next_char) {
            Ok(self.identifier())
        } else if CharClass::Digit.accepts(next_char) {
            self.number()
        } else if CharClass::Whitespace.accepts(next_char) {
            Ok(self.whitespace())
        } else {
            Err(ScannerError::UnexpectedCharacter(next_char, self.cur_location))
        };
        match result {
            Ok(type_) => Some(Ok(self.create_token(type_, location))),
            Err(e) => Some(Err(e)),
        }
    }
}

/// Whether `item` is a token of whitespace or a comment.
fn is_marker(item: &Option<Result<Token, ScannerError>>) -> (r: bool)
    ensures
        r == (*item matches Some(Ok(token)) && token@.type_.is_irrelevant()),
{
    match item {
        Some(Ok(token)) => match token.type_ {
            TokenType::Whitespace => true,
            TokenType::Comment => true,
            _ => false,
        },
        _ => false,
    }
}

/// The tokens and errors of a source text, one at a time. A filtering stream
/// leaves out whitespace and comments; it never leaves out an error.
pub struct TokenStream {
    scanner: Scanner,
    ignore_irrelevant: bool,
}

impl TokenStream {
    /// The text that is read.
    pub closed spec fn source(&self) -> Seq<char> {
        self.scanner.source()
    }

    /// How many characters have been consumed.
    pub closed spec fn position(&self) -> int {
        self.scanner.position()
    }

    /// Whether the stream leaves out whitespace and comments.
    pub closed spec fn filtering(&self) -> bool {
        self.ignore_irrelevant
    }

    /// The scanner of the stream is in order.
    pub closed spec fn wf(&self) -> bool {
        self.scanner.wf()
    }

    /// Where the item starts that `next` will give: at the position, or for
    /// a filtering stream behind the whitespace and comments that stand
    /// there.
    pub open spec fn next_start(&self) -> int {
        if self.filtering() {
            skip_irrelevant(self.source(), self.position())
        } else {
            self.position()
        }
    }

    /// The next token or error; none at the end of the text.
    pub fn next(&mut self) -> (r: Option<Result<Token, ScannerError>>)
        requires
            old(self).wf(),
        ensures
            final(self).wf(),
            final(self).source() == old(self).source(),
            final(self).filtering() == old(self).filtering(),
            old(self).position() <= old(self).next_start() <= old(self).source().len(),
            match r {
                Some(item) => old(self).next_start() < old(self).source().len()
                    && item_view(item) == item_at(old(self).source(), old(self).next_start())
                    && final(self).position() == lex_at(
                    old(self).source(),
                    old(self).next_start(),
                ).end,
                None => old(self).next_start() == old(self).source().len()
                    && final(self).position() == old(self).source().len(),
            },
    {
        let ghost src = self.scanner.source();
        let ghost mut from = self.scanner.position();
        proof {
            self.scanner.lemma_position_in_bounds();
        }
        let mut token = self.scanner.scan_next();
        if self.ignore_irrelevant {
            while is_marker(&token)
                invariant
                    self.scanner.wf(),
                    self.scanner.source() == src,
                    src == old(self).source(),
                    self.ignore_irrelevant == old(self).ignore_irrelevant,
                    old(self).position() <= from <= src.len(),
                    skip_irrelevant(src, from) == skip_irrelevant(src, old(self).position()),
                    match token {
                        Some(item) => from < src.len() && item_view(item) == item_at(src, from)
                            && self.scanner.position() == lex_at(src, from).end,
                        None => from == src.len() && self.scanner.position() == src.len(),
                    },
                decreases src.len() - from,
            {
                proof {
                    lemma_lex_advances(src, from);
                    from = lex_at(src, from).end;
                }
                token = self.scanner.scan_next();
            }
        }
        token
    }
}

/// The tokens and errors of `source`, without whitespace and comments.
pub fn iter_tokens(source: &str) -> (stream: TokenStream)
    requires
        source@.len() < u32::MAX,
    ensures
        stream.wf(),
        stream.source() == source@,
        stream.position() == 0,
        stream.filtering(),
{
    TokenStream { scanner: Scanner::from_source(source), ignore_irrelevant: true }
}

/// Scans all of `source`: every token but whitespace and comments, and every
/// error, each in the order of the text. An error does not stop the scan.
pub fn scan(source: &str) -> (r: (Vec<Token>, Vec<ScannerError>))
    requires
        source@.len() < u32::MAX,
    ensures
        token_views(r.0@) == relevant_tokens(lex_all(source@, 0)),
        r.1@ == lexical_errors(lex_all(source@, 0)),
{
    let ghost src = source@;
    let mut tokens: Vec<Token> = Vec::new();
    let mut errors: Vec<ScannerError> = Vec::new();
    let mut stream = iter_tokens(source);
    assert(token_views(tokens@) =~= Seq::<TokenView>::empty());
    assert(Seq::<TokenView>::empty() + relevant_tokens(lex_all(src, 0)) =~= relevant_tokens(
        lex_all(src, 0),
    ));
    assert(Seq::<ScannerError>::empty() + lexical_errors(lex_all(src, 0)) =~= lexical_errors(
        lex_all(src, 0),
    ));
    loop
        invariant_except_break
            token_views(tokens@) + relevant_tokens(lex_all(src, stream.position()))
                == relevant_tokens(lex_all(src, 0)),
            errors@ + lexical_errors(lex_all(src, stream.position())) == lexical_errors(
                lex_all(src, 0),
            ),
        invariant
            stream.wf(),
            stream.source() == src,
            stream.filtering(),
            0 <= stream.position() <= src.len(),
        ensures
            token_views(tokens@) == relevant_tokens(lex_all(src, 0)),
            errors@ == lexical_errors(lex_all(src, 0)),
        decreases src.len() - stream.position(),
    {
        let ghost before = stream.position();
        let ghost start = skip_irrelevant(src, before);
        let ghost seen = token_views(tokens@);
        let ghost failed = errors@;
        proof {
            lemma_skip_irrelevant(src, before);
        }
        match stream.next() {
            Some(Ok(token)) => {
                proof {
                    lemma_lex_advances(src, start);
                    lemma_lex_all_step(src, start);
                }
                tokens.push(token);
                assert(token_views(tokens@) =~= seen.push(token@));
                assert(seen.push(token@) + relevant_tokens(lex_all(src, stream.position()))
                    =~= seen + (seq![token@] + relevant_tokens(
                    lex_all(src, stream.position()),
                )));
                assert(Seq::<ScannerError>::empty() + lexical_errors(
                    lex_all(src, stream.position()),
                ) =~= lexical_errors(lex_all(src, stream.position())));
            },
            Some(Err(error)) => {
                proof {
                    lemma_lex_advances(src, start);
                    lemma_lex_all_step(src, start);
                }
                errors.push(error);
                assert(failed.push(error) + lexical_errors(lex_all(src, stream.position()))
                    =~= failed + (seq![error] + lexical_errors(lex_all(src, stream.position()))));
                assert(Seq::<TokenView>::empty() + relevant_tokens(
                    lex_all(src, stream.position()),
                ) =~= relevant_tokens(lex_all(src, stream.position())));
            },
            None => {
                assert(relevant_tokens(lex_all(src, start)) =~= Seq::<TokenView>::empty()) by {
                    reveal(Seq::filter);
                }
                assert(lexical_errors(lex_all(src, start)) =~= Seq::<ScannerError>::empty()) by {
                    reveal(Seq::filter);
                }
                assert(seen + Seq::<TokenView>::empty() =~= seen);
                assert(failed + Seq::<ScannerError>::empty() =~= failed);
                break ;
            },
        }
    }
    (tokens, errors)
}

} // verus!
