//! Tokenizing the source language: keywords, identifiers, decimal integers,
//! double-quoted strings, punctuation, and one- or two-character operators.

use vstd::prelude::*;
use crate::numerals::{all_digits, digits_val, is_digit};
use crate::text::chars_to_string;

verus! {

/// One token of source text.
#[derive(Debug, PartialEq, Eq)]
pub enum Token {
    Identifier(String),
    String(String),
    Number(i32),
    SEMICOLON,
    COMMA,
    EOF,
    ADD,
    SUB,
    NOT,
    NE,
    EQ,
    EE,
    GT,
    GTE,
    LT,
    LTE,
    LPAREN,
    RPAREN,
    LBRACE,
    RBRACE,
    LET,
    FN,
    USE,
    RETURN,
    HALT,
    IF,
    ELIF,
    ELSE,
    WHILE,
    FOR,
}

/// The mathematical value of a token: identifier and string text as
/// character sequences.
pub enum TokenModel {
    Identifier(Seq<char>),
    StringLit(Seq<char>),
    Number(i32),
    SEMICOLON,
    COMMA,
    EOF,
    ADD,
    SUB,
    NOT,
    NE,
    EQ,
    EE,
    GT,
    GTE,
    LT,
    LTE,
    LPAREN,
    RPAREN,
    LBRACE,
    RBRACE,
    LET,
    FN,
    USE,
    RETURN,
    HALT,
    IF,
    ELIF,
    ELSE,
    WHILE,
    FOR,
}

impl View for Token {
    type V = TokenModel;

    open spec fn view(&self) -> TokenModel {
        match self {
            Token::Identifier(s) => TokenModel::Identifier(s@),
            Token::String(s) => TokenModel::StringLit(s@),
            Token::Number(v) => TokenModel::Number(*v),
            Token::SEMICOLON => TokenModel::SEMICOLON,
            Token::COMMA => TokenModel::COMMA,
            Token::EOF => TokenModel::EOF,
            Token::ADD => TokenModel::ADD,
            Token::SUB => TokenModel::SUB,
            Token::NOT => TokenModel::NOT,
            Token::NE => TokenModel::NE,
            Token::EQ => TokenModel::EQ,
            Token::EE => TokenModel::EE,
            Token::GT => TokenModel::GT,
            Token::GTE => TokenModel::GTE,
            Token::LT => TokenModel::LT,
            Token::LTE => TokenModel::LTE,
            Token::LPAREN => TokenModel::LPAREN,
            Token::RPAREN => TokenModel::RPAREN,
            Token::LBRACE => TokenModel::LBRACE,
            Token::RBRACE => TokenModel::RBRACE,
            Token::LET => TokenModel::LET,
            Token::FN => TokenModel::FN,
            Token::USE => TokenModel::USE,
            Token::RETURN => TokenModel::RETURN,
            Token::HALT => TokenModel::HALT,
            Token::IF => TokenModel::IF,
            Token::ELIF => TokenModel::ELIF,
            Token::ELSE => TokenModel::ELSE,
            Token::WHILE => TokenModel::WHILE,
            Token::FOR => TokenModel::FOR,
        }
    }
}

impl Clone for Token {
    /// A copy with the same value.
    fn clone(&self) -> (r: Token)
        ensures
            r@ == self@,
    {
        match self {
            Token::Identifier(s) => Token::Identifier(s.clone()),
            Token::String(s) => Token::String(s.clone()),
            Token::Number(v) => Token::Number(*v),
            Token::SEMICOLON => Token::SEMICOLON,
            Token::COMMA => Token::COMMA,
            Token::EOF => Token::EOF,
            Token::ADD => Token::ADD,
            Token::SUB => Token::SUB,
            Token::NOT => Token::NOT,
            Token::NE => Token::NE,
            Token::EQ => Token::EQ,
            Token::EE => Token::EE,
            Token::GT => Token::GT,
            Token::GTE => Token::GTE,
            Token::LT => Token::LT,
            Token::LTE => Token::LTE,
            Token::LPAREN => Token::LPAREN,
            Token::RPAREN => Token::RPAREN,
            Token::LBRACE => Token::LBRACE,
            Token::RBRACE => Token::RBRACE,
            Token::LET => Token::LET,
            Token::FN => Token::FN,
            Token::USE => Token::USE,
            Token::RETURN => Token::RETURN,
            Token::HALT => Token::HALT,
            Token::IF => Token::IF,
            Token::ELIF => Token::ELIF,
            Token::ELSE => Token::ELSE,
            Token::WHILE => Token::WHILE,
            Token::FOR => Token::FOR,
        }
    }
}

/// The values of a sequence of tokens.
pub open spec fn toks_view(v: Seq<Token>) -> Seq<TokenModel> {
    Seq::new(v.len(), |i: int| v[i]@)
}

/// A fatal condition raised while tokenizing source text.
#[derive(Clone, Copy, Debug, PartialEq, Eq, Structural)]
pub enum LexError {
    /// A character that begins no token.
    UnexpectedChar,
    /// A decimal number beyond the integer range.
    NumberTooLarge,
}

/// Whether a character is blank space between tokens.
pub open spec fn is_blank(c: char) -> bool {
    c == ' ' || c == '\t' || c == '\n' || c == '\r' || c == '\x0c'
}

/// Whether a character may begin an identifier.
pub open spec fn is_ident_start(c: char) -> bool {
    ('a' <= c && c <= 'z') || ('A' <= c && c <= 'Z') || c == '_'
}

/// Whether a character may continue an identifier.
pub open spec fn is_ident_char(c: char) -> bool {
    is_ident_start(c) || is_digit(c)
}

/// The position of the first character at or after `pos` that is not blank.
pub open spec fn skip_blanks(s: Seq<char>, pos: int) -> int
    decreases s.len() - pos,
{
    if 0 <= pos < s.len() && is_blank(s[pos]) {
        skip_blanks(s, pos + 1)
    } else {
        pos
    }
}

/// The position just past the run of digits starting at `pos`.
pub open spec fn digit_run_end(s: Seq<char>, pos: int) -> int
    decreases s.len() - pos,
{
    if 0 <= pos < s.len() && is_digit(s[pos]) {
        digit_run_end(s, pos + 1)
    } else {
        pos
    }
}

/// The position just past the run of identifier characters starting at `pos`.
pub open spec fn ident_run_end(s: Seq<char>, pos: int) -> int
    decreases s.len() - pos,
{
    if 0 <= pos < s.len() && is_ident_char(s[pos]) {
        ident_run_end(s, pos + 1)
    } else {
        pos
    }
}

/// The position of the closing quote at or after `pos`, or the end of the
/// text when the string never closes.
pub open spec fn string_run_end(s: Seq<char>, pos: int) -> int
    decreases s.len() - pos,
{
    if 0 <= pos < s.len() && s[pos] != '"' {
        string_run_end(s, pos + 1)
    } else {
        pos
    }
}

/// Skipping blanks never steps backwards nor past the end of the text.
pub proof fn lemma_skip_blanks_bounds(s: Seq<char>, pos: int)
    requires
        0 <= pos,
    ensures
        pos <= skip_blanks(s, pos),
        pos <= s.len() ==> skip_blanks(s, pos) <= s.len(),
        pos > s.len() ==> skip_blanks(s, pos) == pos,
    decreases s.len() - pos,
{
    if 0 <= pos < s.len() && is_blank(s[pos]) {
        lemma_skip_blanks_bounds(s, pos + 1);
    }
}

/// A digit run stays within the text.
pub proof fn lemma_digit_run_bounds(s: Seq<char>, pos: int)
    requires
        0 <= pos <= s.len(),
    ensures
        pos <= digit_run_end(s, pos) <= s.len(),
    decreases s.len() - pos,
{
    if pos < s.len() && is_digit(s[pos]) {
        lemma_digit_run_bounds(s, pos + 1);
    }
}

/// An identifier run stays within the text.
pub proof fn lemma_ident_run_bounds(s: Seq<char>, pos: int)
    requires
        0 <= pos <= s.len(),
    ensures
        pos <= ident_run_end(s, pos) <= s.len(),
    decreases s.len() - pos,
{
    if pos < s.len() && is_ident_char(s[pos]) {
        lemma_ident_run_bounds(s, pos + 1);
    }
}

/// A string body stays within the text.
pub proof fn lemma_string_run_bounds(s: Seq<char>, pos: int)
    requires
        0 <= pos <= s.len(),
    ensures
        pos <= string_run_end(s, pos) <= s.len(),
    decreases s.len() - pos,
{
    if pos < s.len() && s[pos] != '"' {
        lemma_string_run_bounds(s, pos + 1);
    }
}

/// The token an identifier word stands for: a keyword when it matches one
/// exactly, an identifier otherwise.
pub open spec fn keyword_or_identifier(w: Seq<char>) -> TokenModel {
    if w == "let"@ {
        TokenModel::LET
    } else if w == "use"@ {
        TokenModel::USE
    } else if w == "fn"@ {
        TokenModel::FN
    } else if w == "return"@ {
        TokenModel::RETURN
    } else if w == "halt"@ {
        TokenModel::HALT
    } else if w == "if"@ {
        TokenModel::IF
    } else if w == "elif"@ {
        TokenModel::ELIF
    } else if w == "else"@ {
        TokenModel::ELSE
    } else if w == "while"@ {
        TokenModel::WHILE
    } else if w == "for"@ {
        TokenModel::FOR
    } else {
        TokenModel::Identifier(w)
    }
}

/// The token that begins at or after `pos`, with the position just past it.
pub open spec fn token_model_at(s: Seq<char>, pos: int) -> Result<(TokenModel, int), LexError> {
    let p = skip_blanks(s, pos);
    if p >= s.len() || s[p] == '\0' {
        Ok((TokenModel::EOF, p + 1))
    } else if s[p] == ',' {
        Ok((TokenModel::COMMA, p + 1))
    } else if s[p] == '+' {
        Ok((TokenModel::ADD, p + 1))
    } else if s[p] == '-' {
        Ok((TokenModel::SUB, p + 1))
    } else if s[p] == '=' {
        if p + 1 < s.len() && s[p + 1] == '=' {
            Ok((TokenModel::EE, p + 2))
        } else {
            Ok((TokenModel::EQ, p + 1))
        }
    } else if s[p] == '!' {
        if p + 1 < s.len() && s[p + 1] == '=' {
            Ok((TokenModel::NE, p + 2))
        } else {
            Ok((TokenModel::NOT, p + 1))
        }
    } else if s[p] == '>' {
        if p + 1 < s.len() && s[p + 1] == '=' {
            Ok((TokenModel::GTE, p + 2))
        } else {
            Ok((TokenModel::GT, p + 1))
        }
    } else if s[p] == '<' {
        if p + 1 < s.len() && s[p + 1] == '=' {
            Ok((TokenModel::LTE, p + 2))
        } else {
            Ok((TokenModel::LT, p + 1))
        }
    } else if s[p] == '(' {
        Ok((TokenModel::LPAREN, p + 1))
    } else if s[p] == ')' {
        Ok((TokenModel::RPAREN, p + 1))
    } else if s[p] == '{' {
        Ok((TokenModel::LBRACE, p + 1))
    } else if s[p] == '}' {
        Ok((TokenModel::RBRACE, p + 1))
    } else if s[p] == ';' {
        Ok((TokenModel::SEMICOLON, p + 1))
    } else if s[p] == '"' {
        let e = string_run_end(s, p + 1);
        Ok((TokenModel::StringLit(s.subrange(p + 1, e)), e + 1))
    } else if is_digit(s[p]) {
        let end = digit_run_end(s, p);
        if digits_val(s.subrange(p, end)) <= i32::MAX {
            Ok((TokenModel::Number(digits_val(s.subrange(p, end)) as i32), end))
        } else {
            Err(LexError::NumberTooLarge)
        }
    } else if is_ident_start(s[p]) {
        let end = ident_run_end(s, p);
        Ok((keyword_or_identifier(s.subrange(p, end)), end))
    } else {
        Err(LexError::UnexpectedChar)
    }
}

/// The tokens of the text from `pos` on, ending with the end-of-input
/// token, or the first fatal condition.
pub open spec fn lex_model(s: Seq<char>, pos: int) -> Result<Seq<TokenModel>, LexError>
    decreases s.len() + 2 - pos,
{
    match token_model_at(s, pos) {
        Err(e) => Err(e),
        Ok((tm, p)) => {
            if tm is EOF {
                Ok(seq![TokenModel::EOF])
            } else if pos < p <= s.len() + 1 {
                match lex_model(s, p) {
                    Err(e) => Err(e),
                    Ok(rest) => Ok(seq![tm] + rest),
                }
            } else {
                // Never the case: every token other than end-of-input makes
                // progress and ends at most one step past the text.
                Ok(seq![tm])
            }
        },
    }
}

/// The cursor state of a lexer.
pub struct LexerModel {
    pub program: Seq<char>,
    pub position: int,
    pub read_position: int,
    pub ch: char,
}

pub struct Lexer {
    program: Vec<char>,
    position: usize,
    read_position: usize,
    ch: char,
}

impl View for Lexer {
    type V = LexerModel;

    closed spec fn view(&self) -> LexerModel {
        LexerModel {
            program: self.program@,
            position: self.position as int,
            read_position: self.read_position as int,
            ch: self.ch,
        }
    }
}

/// The cursor sits one step behind the read position and mirrors the
/// character under it, with NUL standing for the end of the text.
pub open spec fn primed(m: LexerModel) -> bool {
    &&& m.read_position == m.position + 1
    &&& 0 <= m.position
    &&& m.ch == if m.position < m.program.len() {
        m.program[m.position]
    } else {
        '\0'
    }
}

/// The text is short enough that the cursor arithmetic stays in machine range.
pub open spec fn fits(m: LexerModel) -> bool {
    m.program.len() + 4 <= usize::MAX
}

impl Lexer {
    /// A lexer at the start of the given text, before the first character is
    /// read in.
    pub fn new(program: Vec<char>) -> (r: Lexer)
        ensures
            r@ == (LexerModel { program: program@, position: 0, read_position: 0, ch: '\0' }),
    {
        let position: usize = 0;
        let read_position: usize = 0;
        let ch = '\0';
        Lexer { program, position, read_position, ch }
    }

    /// Steps the cursor one character forward.
    fn eat_char(&mut self)
        requires
            old(self)@.read_position < usize::MAX,
        ensures
            final(self)@ == (LexerModel {
                program: old(self)@.program,
                position: old(self)@.read_position,
                read_position: old(self)@.read_position + 1,
                ch: if old(self)@.read_position < old(self)@.program.len() {
                    old(self)@.program[old(self)@.read_position]
                } else {
                    '\0'
                },
            }),
    {
        if self.read_position >= self.program.len() {
            self.ch = '\0';
        } else {
            self.ch = self.program[self.read_position];
        }
        self.position = self.read_position;
        self.read_position = self.read_position + 1;
    }

    /// Steps the cursor past blank space.
    fn eat_whitespace(&mut self)
        requires
            primed(old(self)@),
            fits(old(self)@),
        ensures
            final(self)@.program == old(self)@.program,
            primed(final(self)@),
            final(self)@.position == skip_blanks(old(self)@.program, old(self)@.position),
    {
        while self.position < self.program.len() && is_blank_exec(self.ch)
            invariant
                primed(self@),
                fits(self@),
                self@.program == old(self)@.program,
                skip_blanks(self@.program, old(self)@.position) == skip_blanks(
                    self@.program,
                    self@.position,
                ),
            decreases self@.program.len() - self@.position,
        {
            self.eat_char();
        }
    }

    /// Reads a one-character operator, or its two-character form when the
    /// following character matches.
    fn lex_multichar(&mut self, single: Token, double: (char, Token)) -> (r: Token)
        requires
            primed(old(self)@),
            fits(old(self)@),
            0 <= old(self)@.position < old(self)@.program.len(),
        ensures
            final(self)@.program == old(self)@.program,
            primed(final(self)@),
            if old(self)@.position + 1 < old(self)@.program.len() && old(self)@.program[old(
                self,
            )@.position + 1] == double.0 {
                r == double.1 && final(self)@.position == old(self)@.position + 1
            } else {
                r == single && final(self)@.position == old(self)@.position
            },
    {
        if self.read_position >= self.program.len() || self.program[self.read_position]
            != double.0 {
            return single;
        }
        self.eat_char();
        double.1
    }

    /// Reads the number token whose first digit is under the cursor.
    fn lex_number(&mut self) -> (r: Result<Token, LexError>)
        requires
            primed(old(self)@),
            fits(old(self)@),
            0 <= old(self)@.position < old(self)@.program.len(),
            is_digit(old(self)@.program[old(self)@.position]),
        ensures
            final(self)@.program == old(self)@.program,
            primed(final(self)@),
            final(self)@.position == digit_run_end(old(self)@.program, old(self)@.position),
            ({
                let run = old(self)@.program.subrange(
                    old(self)@.position,
                    digit_run_end(old(self)@.program, old(self)@.position),
                );
                if digits_val(run) <= i32::MAX {
                    r == Ok::<Token, LexError>(Token::Number(digits_val(run) as i32))
                } else {
                    r == Err::<Token, LexError>(LexError::NumberTooLarge)
                }
            }),
    {
        let start = self.position;
        while self.position < self.program.len() && self.ch >= '0' && self.ch <= '9'
            invariant
                primed(self@),
                fits(self@),
                self@.program == old(self)@.program,
                start == old(self)@.position,
                start <= self@.position <= self@.program.len(),
                digit_run_end(self@.program, old(self)@.position) == digit_run_end(
                    self@.program,
                    self@.position,
                ),
                forall|j: int|
                    start <= j < self@.position ==> is_digit(#[trigger] self@.program[j]),
            decreases self@.program.len() - self@.position,
        {
            self.eat_char();
        }
        let end = self.position;
        proof {
            let run = self@.program.subrange(start as int, end as int);
            assert forall|i: int| 0 <= i < run.len() implies is_digit(#[trigger] run[i]) by {
                assert(run[i] == self@.program[start + i]);
            }
            assert(all_digits(run));
        }
        match crate::numerals::parse_i32_digits(&self.program, start, end) {
            Some(v) => Ok(Token::Number(v)),
            None => Err(LexError::NumberTooLarge),
        }
    }

    /// Reads the identifier or keyword whose first character is under the
    /// cursor.
    fn lex_identifier(&mut self) -> (r: Token)
        requires
            primed(old(self)@),
            fits(old(self)@),
            0 <= old(self)@.position < old(self)@.program.len(),
            is_ident_start(old(self)@.program[old(self)@.position]),
        ensures
            final(self)@.program == old(self)@.program,
            primed(final(self)@),
            final(self)@.position == ident_run_end(old(self)@.program, old(self)@.position),
            r@ == keyword_or_identifier(
                old(self)@.program.subrange(
                    old(self)@.position,
                    ident_run_end(old(self)@.program, old(self)@.position),
                ),
            ),
    {
        let start = self.position;
        while self.position < self.program.len() && is_ident_char_exec(self.ch)
            invariant
                primed(self@),
                fits(self@),
                self@.program == old(self)@.program,
                start == old(self)@.position,
                start <= self@.position <= self@.program.len(),
                ident_run_end(self@.program, old(self)@.position) == ident_run_end(
                    self@.program,
                    self@.position,
                ),
            decreases self@.program.len() - self@.position,
        {
            self.eat_char();
        }
        let end = self.position;
        if word_eq_str(&self.program, start, end, "let") {
            Token::LET
        } else if word_eq_str(&self.program, start, end, "use") {
            Token::USE
        } else if word_eq_str(&self.program, start, end, "fn") {
            Token::FN
        } else if word_eq_str(&self.program, start, end, "return") {
            Token::RETURN
        } else if word_eq_str(&self.program, start, end, "halt") {
            Token::HALT
        } else if word_eq_str(&self.program, start, end, "if") {
            Token::IF
        } else if word_eq_str(&self.program, start, end, "elif") {
            Token::ELIF
        } else if word_eq_str(&self.program, start, end, "else") {
            Token::ELSE
        } else if word_eq_str(&self.program, start, end, "while") {
            Token::WHILE
        } else if word_eq_str(&self.program, start, end, "for") {
            Token::FOR
        } else {
            Token::Identifier(chars_to_string(&self.program, start, end))
        }
    }

    /// Reads the string literal whose opening quote is under the cursor. The
    /// cursor is left on the closing quote, or at the end of an unterminated
    /// string.
    fn lex_string(&mut self) -> (r: Token)
        requires
            primed(old(self)@),
            fits(old(self)@),
            0 <= old(self)@.position < old(self)@.program.len(),
            old(self)@.program[old(self)@.position] == '"',
        ensures
            final(self)@.program == old(self)@.program,
            primed(final(self)@),
            final(self)@.position == string_run_end(old(self)@.program, old(self)@.position + 1),
            r@ == TokenModel::StringLit(
                old(self)@.program.subrange(
                    old(self)@.position + 1,
                    string_run_end(old(self)@.program, old(self)@.position + 1),
                ),
            ),
    {
        self.eat_char();
        let start = self.position;
        while self.ch != '"' && self.position < self.program.len()
            invariant
                primed(self@),
                fits(self@),
                self@.program == old(self)@.program,
                start == old(self)@.position + 1,
                start <= self@.position <= self@.program.len(),
                string_run_end(self@.program, start as int) == string_run_end(
                    self@.program,
                    self@.position,
                ),
            decreases self@.program.len() - self@.position,
        {
            self.eat_char();
        }
        let end = self.position;
        Token::String(chars_to_string(&self.program, start, end))
    }

    /// Reads the next token, as `token_model_at` describes.
    fn lex_token(&mut self) -> (r: Result<Token, LexError>)
        requires
            primed(old(self)@),
            fits(old(self)@),
            old(self)@.position <= old(self)@.program.len() + 1,
        ensures
            final(self)@.program == old(self)@.program,
            primed(final(self)@),
            match token_model_at(old(self)@.program, old(self)@.position) {
                Ok((tm, p)) => {
                    &&& r matches Ok(t) && t@ == tm
                    &&& final(self)@.position == p
                    &&& p <= old(self)@.program.len() + 2
                },
                Err(e) => r == Err::<Token, LexError>(e),
            },
    {
        proof {
            lemma_skip_blanks_bounds(old(self)@.program, old(self)@.position);
            let p = skip_blanks(old(self)@.program, old(self)@.position);
            if 0 <= p <= old(self)@.program.len() {
                lemma_digit_run_bounds(old(self)@.program, p);
                lemma_ident_run_bounds(old(self)@.program, p);
                if p + 1 <= old(self)@.program.len() {
                    lemma_string_run_bounds(old(self)@.program, p + 1);
                }
            }
        }
        self.eat_whitespace();
        if self.position >= self.program.len() || self.ch == '\0' {
            self.eat_char();
            Ok(Token::EOF)
        } else if self.ch == ',' {
            self.eat_char();
            Ok(Token::COMMA)
        } else if self.ch == '+' {
            self.eat_char();
            Ok(Token::ADD)
        } else if self.ch == '-' {
            self.eat_char();
            Ok(Token::SUB)
        } else if self.ch == '=' {
            let t = self.lex_multichar(Token::EQ, ('=', Token::EE));
            self.eat_char();
            Ok(t)
        } else if self.ch == '!' {
            let t = self.lex_multichar(Token::NOT, ('=', Token::NE));
            self.eat_char();
            Ok(t)
        } else if self.ch == '>' {
            let t = self.lex_multichar(Token::GT, ('=', Token::GTE));
            self.eat_char();
            Ok(t)
        } else if self.ch == '<' {
            let t = self.lex_multichar(Token::LT, ('=', Token::LTE));
            self.eat_char();
            Ok(t)
        } else if self.ch == '(' {
            self.eat_char();
            Ok(Token::LPAREN)
        } else if self.ch == ')' {
            self.eat_char();
            Ok(Token::RPAREN)
        } else if self.ch == '{' {
            self.eat_char();
            Ok(Token::LBRACE)
        } else if self.ch == '}' {
            self.eat_char();
            Ok(Token::RBRACE)
        } else if self.ch == ';' {
            self.eat_char();
            Ok(Token::SEMICOLON)
        } else if self.ch == '"' {
            let t = self.lex_string();
            self.eat_char();
            Ok(t)
        } else if self.ch >= '0' && self.ch <= '9' {
            self.lex_number()
        } else if is_ident_start_exec(self.ch) {
            Ok(self.lex_identifier())
        } else {
            Err(LexError::UnexpectedChar)
        }
    }

    /// Tokenizes the whole text, as `lex_model` describes: the tokens end
    /// with the end-of-input token, or the first fatal condition is reported.
    pub fn lex(&mut self) -> (r: Result<Vec<Token>, LexError>)
        requires
            old(self)@.position == 0,
            old(self)@.read_position == 0,
            old(self)@.ch == '\0',
            fits(old(self)@),
        ensures
            final(self)@.program == old(self)@.program,
            match lex_model(old(self)@.program, 0) {
                Ok(ms) => r matches Ok(ts) && toks_view(ts@) == ms,
                Err(e) => r == Err::<Vec<Token>, LexError>(e),
            },
    {
        let mut tokens: Vec<Token> = Vec::new();
        self.eat_char();
        loop
            invariant
                primed(self@),
                fits(self@),
                self@.program == old(self)@.program,
                self@.position <= self@.program.len() + 1,
                match lex_model(self@.program, self@.position) {
                    Ok(rest) => lex_model(self@.program, 0) == Ok::<Seq<TokenModel>, LexError>(
                        toks_view(tokens@) + rest,
                    ),
                    Err(e) => lex_model(self@.program, 0) == Err::<Seq<TokenModel>, LexError>(e),
                },
            decreases self@.program.len() + 1 - self@.position,
        {
            let ghost pre_pos = self@.position;
            let ghost pre_tokens = tokens@;
            let token = match self.lex_token() {
                Ok(t) => t,
                Err(e) => {
                    return Err(e);
                },
            };
            let is_eof = match &token {
                Token::EOF => true,
                _ => false,
            };
            tokens.push(token);
            proof {
                assert(toks_view(tokens@) =~= toks_view(pre_tokens).push(tokens@.last()@));
            }
            if is_eof {
                proof {
                    assert(lex_model(self@.program, pre_pos) == Ok::<Seq<TokenModel>, LexError>(
                        seq![TokenModel::EOF],
                    ));
                    assert(toks_view(pre_tokens) + seq![TokenModel::EOF] =~= toks_view(tokens@));
                }
                return Ok(tokens);
            }
            proof {
                let (tm, p) = token_model_at(self@.program, pre_pos)->Ok_0;
                assert(!(tm is EOF));
                lemma_skip_blanks_bounds(self@.program, pre_pos);
                let sp = skip_blanks(self@.program, pre_pos);
                if 0 <= sp <= self@.program.len() {
                    lemma_digit_run_bounds(self@.program, sp);
                    lemma_ident_run_bounds(self@.program, sp);
                    if sp < self@.program.len() && is_digit(self@.program[sp]) {
                        assert(digit_run_end(self@.program, sp) == digit_run_end(
                            self@.program,
                            sp + 1,
                        ));
                        lemma_digit_run_bounds(self@.program, sp + 1);
                    }
                    if sp < self@.program.len() && is_ident_start(self@.program[sp]) {
                        assert(ident_run_end(self@.program, sp) == ident_run_end(
                            self@.program,
                            sp + 1,
                        ));
                        lemma_ident_run_bounds(self@.program, sp + 1);
                    }
                    if sp + 1 <= self@.program.len() {
                        lemma_string_run_bounds(self@.program, sp + 1);
                    }
                }
                assert(pre_pos < p <= self@.program.len() + 1);
                match lex_model(self@.program, p) {
                    Ok(rest) => {
                        assert(lex_model(self@.program, pre_pos) == Ok::<Seq<TokenModel>, LexError>(
                            seq![tm] + rest,
                        ));
                        assert(toks_view(pre_tokens) + (seq![tm] + rest) =~= toks_view(tokens@)
                            + rest);
                    },
                    Err(_) => {},
                }
            }
        }
    }
}

/// Whether a character is blank space, decided at run time.
fn is_blank_exec(c: char) -> (r: bool)
    ensures
        r == is_blank(c),
{
    c == ' ' || c == '\t' || c == '\n' || c == '\r' || c == '\x0c'
}

/// Whether a character may begin an identifier, decided at run time.
fn is_ident_start_exec(c: char) -> (r: bool)
    ensures
        r == is_ident_start(c),
{
    (c >= 'a' && c <= 'z') || (c >= 'A' && c <= 'Z') || c == '_'
}

/// Whether a character may continue an identifier, decided at run time.
fn is_ident_char_exec(c: char) -> (r: bool)
    ensures
        r == is_ident_char(c),
{
    is_ident_start_exec(c) || (c >= '0' && c <= '9')
}

/// Whether the given range of the text spells the given word exactly.
fn word_eq_str(s: &Vec<char>, start: usize, end: usize, w: &str) -> (r: bool)
    requires
        start <= end <= s@.len(),
    ensures
        r == (s@.subrange(start as int, end as int) == w@),
{
    let ghost sub = s@.subrange(start as int, end as int);
    let w_len = w.unicode_len();
    if end - start != w_len {
        proof {
            assert(sub.len() != w@.len());
        }
        return false;
    }
    let mut i: usize = 0;
    while i < w_len
        invariant
            start <= end <= s@.len(),
            end - start == w_len == w@.len(),
            i <= w_len,
            sub == s@.subrange(start as int, end as int),
            forall|j: int| 0 <= j < i ==> sub[j] == w@[j],
        decreases w_len - i,
    {
        let c = s[start + i];
        let k = w.get_char(i);
        if c != k {
            proof {
                assert(sub[i as int] == s@[start + i]);
            }
            return false;
        }
        proof {
            assert(sub[i as int] == s@[start + i]);
        }
        i = i + 1;
    }
    proof {
        assert(sub =~= w@);
    }
    true
}

} // verus!
