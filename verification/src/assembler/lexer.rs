//! Tokenizing assembly text: mnemonics (case-insensitive), labels, decimal
//! numbers, newlines, and an end-of-input marker.

use vstd::prelude::*;
use crate::numerals::{all_digits, digits_val, is_digit};
use crate::text::chars_to_string;

verus! {

/// One token of assembly text.
#[derive(Debug, PartialEq, Eq)]
pub enum Token {
    Label(String),
    Number(u16),
    NEWLINE,
    EOF,
    HLT,
    ADD,
    SUB,
    LDA,
    STA,
    BRA,
    BRZ,
    BLT,
    BGT,
    INP,
    OUT,
    OTC,
    DAT,
    CALL,
    RET,
}

/// The mathematical value of a token: label text as a character sequence.
pub enum TokenModel {
    Label(Seq<char>),
    Number(u16),
    NEWLINE,
    EOF,
    HLT,
    ADD,
    SUB,
    LDA,
    STA,
    BRA,
    BRZ,
    BLT,
    BGT,
    INP,
    OUT,
    OTC,
    DAT,
    CALL,
    RET,
}

impl View for Token {
    type V = TokenModel;

    open spec fn view(&self) -> TokenModel {
        match self {
            Token::Label(s) => TokenModel::Label(s@),
            Token::Number(v) => TokenModel::Number(*v),
            Token::NEWLINE => TokenModel::NEWLINE,
            Token::EOF => TokenModel::EOF,
            Token::HLT => TokenModel::HLT,
            Token::ADD => TokenModel::ADD,
            Token::SUB => TokenModel::SUB,
            Token::LDA => TokenModel::LDA,
            Token::STA => TokenModel::STA,
            Token::BRA => TokenModel::BRA,
            Token::BRZ => TokenModel::BRZ,
            Token::BLT => TokenModel::BLT,
            Token::BGT => TokenModel::BGT,
            Token::INP => TokenModel::INP,
            Token::OUT => TokenModel::OUT,
            Token::OTC => TokenModel::OTC,
            Token::DAT => TokenModel::DAT,
            Token::CALL => TokenModel::CALL,
            Token::RET => TokenModel::RET,
        }
    }
}

impl Clone for Token {
    /// A copy with the same value.
    fn clone(&self) -> (r: Token)
        ensures
            r@ == self@,
    {
        match self {
            Token::Label(s) => Token::Label(s.clone()),
            Token::Number(v) => Token::Number(*v),
            Token::NEWLINE => Token::NEWLINE,
            Token::EOF => Token::EOF,
            Token::HLT => Token::HLT,
            Token::ADD => Token::ADD,
            Token::SUB => Token::SUB,
            Token::LDA => Token::LDA,
            Token::STA => Token::STA,
            Token::BRA => Token::BRA,
            Token::BRZ => Token::BRZ,
            Token::BLT => Token::BLT,
            Token::BGT => Token::BGT,
            Token::INP => Token::INP,
            Token::OUT => Token::OUT,
            Token::OTC => Token::OTC,
            Token::DAT => Token::DAT,
            Token::CALL => Token::CALL,
            Token::RET => Token::RET,
        }
    }
}

/// The values of a sequence of tokens.
pub open spec fn toks_view(v: Seq<Token>) -> Seq<TokenModel> {
    Seq::new(v.len(), |i: int| v[i]@)
}

/// A fatal condition raised while tokenizing.
#[derive(Clone, Copy, Debug, PartialEq, Eq, Structural)]
pub enum LexError {
    /// A character that begins no token.
    UnexpectedChar,
    /// A decimal number that does not fit in sixteen bits.
    NumberTooLarge,
}

/// Whether a character is blank space that separates tokens; the newline is
/// a token of its own and does not count.
pub open spec fn is_separator(c: char) -> bool {
    c == ' ' || c == '\t' || c == '\r' || c == '\x0c'
}

/// Whether a character may begin a label: a letter or an underscore.
/// Digits always begin a number instead.
pub open spec fn is_label_char(c: char) -> bool {
    ('a' <= c && c <= 'z') || ('A' <= c && c <= 'Z') || c == '_'
}

/// Whether a character may continue a label. The compiler synthesizes
/// labels that carry digits after the first character, so the assembler
/// accepts them there.
pub open spec fn is_label_tail(c: char) -> bool {
    is_label_char(c) || is_digit(c)
}

/// The position of the first character at or after `pos` that is not
/// blank space between tokens.
pub open spec fn skip_separators(s: Seq<char>, pos: int) -> int
    decreases s.len() - pos,
{
    if 0 <= pos < s.len() && is_separator(s[pos]) {
        skip_separators(s, pos + 1)
    } else {
        pos
    }
}

/// The position just past the run of digits starting at `pos`.
pub open spec fn digit_run_end(s: Seq<char>, pos: int) -> int
    decreases s.len() - pos,
{
    if 0 <= pos < s.len() && is_digit(s[pos]) {
        digit_run_end(s, pos + 1)
    } else {
        pos
    }
}

/// The position just past the run of label characters starting at `pos`.
pub open spec fn label_run_end(s: Seq<char>, pos: int) -> int
    decreases s.len() - pos,
{
    if 0 <= pos < s.len() && is_label_tail(s[pos]) {
        label_run_end(s, pos + 1)
    } else {
        pos
    }
}

/// Skipping separators never steps backwards nor past the end of the text.
pub proof fn lemma_skip_separators_bounds(s: Seq<char>, pos: int)
    requires
        0 <= pos,
    ensures
        pos <= skip_separators(s, pos),
        pos <= s.len() ==> skip_separators(s, pos) <= s.len(),
        pos > s.len() ==> skip_separators(s, pos) == pos,
    decreases s.len() - pos,
{
    if 0 <= pos < s.len() && is_separator(s[pos]) {
        lemma_skip_separators_bounds(s, pos + 1);
    }
}

/// A digit run ends at or before the end of the text and never starts early.
pub proof fn lemma_digit_run_bounds(s: Seq<char>, pos: int)
    requires
        0 <= pos <= s.len(),
    ensures
        pos <= digit_run_end(s, pos) <= s.len(),
    decreases s.len() - pos,
{
    if pos < s.len() && is_digit(s[pos]) {
        lemma_digit_run_bounds(s, pos + 1);
    }
}

/// A label run ends at or before the end of the text and never starts early.
pub proof fn lemma_label_run_bounds(s: Seq<char>, pos: int)
    requires
        0 <= pos <= s.len(),
    ensures
        pos <= label_run_end(s, pos) <= s.len(),
    decreases s.len() - pos,
{
    if pos < s.len() && is_label_tail(s[pos]) {
        lemma_label_run_bounds(s, pos + 1);
    }
}

/// The lower-case form of an upper-case letter; other characters unchanged.
pub open spec fn lower(c: char) -> char {
    if c == 'A' {
        'a'
    } else if c == 'B' {
        'b'
    } else if c == 'C' {
        'c'
    } else if c == 'D' {
        'd'
    } else if c == 'E' {
        'e'
    } else if c == 'F' {
        'f'
    } else if c == 'G' {
        'g'
    } else if c == 'H' {
        'h'
    } else if c == 'I' {
        'i'
    } else if c == 'J' {
        'j'
    } else if c == 'K' {
        'k'
    } else if c == 'L' {
        'l'
    } else if c == 'M' {
        'm'
    } else if c == 'N' {
        'n'
    } else if c == 'O' {
        'o'
    } else if c == 'P' {
        'p'
    } else if c == 'Q' {
        'q'
    } else if c == 'R' {
        'r'
    } else if c == 'S' {
        's'
    } else if c == 'T' {
        't'
    } else if c == 'U' {
        'u'
    } else if c == 'V' {
        'v'
    } else if c == 'W' {
        'w'
    } else if c == 'X' {
        'x'
    } else if c == 'Y' {
        'y'
    } else if c == 'Z' {
        'z'
    } else {
        c
    }
}

/// A word folded to lower case, character by character.
pub open spec fn lower_word(w: Seq<char>) -> Seq<char> {
    Seq::new(w.len(), |i: int| lower(w[i]))
}

/// The token a word of label characters stands for: a mnemonic when the word
/// matches one regardless of case, a label otherwise. The label keeps the
/// word's original case.
pub open spec fn keyword_or_label(w: Seq<char>) -> TokenModel {
    let l = lower_word(w);
    if l == "hlt"@ {
        TokenModel::HLT
    } else if l == "add"@ {
        TokenModel::ADD
    } else if l == "sub"@ {
        TokenModel::SUB
    } else if l == "lda"@ {
        TokenModel::LDA
    } else if l == "sta"@ {
        TokenModel::STA
    } else if l == "bra"@ {
        TokenModel::BRA
    } else if l == "brz"@ {
        TokenModel::BRZ
    } else if l == "bgt"@ {
        TokenModel::BGT
    } else if l == "blt"@ {
        TokenModel::BLT
    } else if l == "inp"@ {
        TokenModel::INP
    } else if l == "out"@ {
        TokenModel::OUT
    } else if l == "otc"@ {
        TokenModel::OTC
    } else if l == "dat"@ {
        TokenModel::DAT
    } else if l == "call"@ {
        TokenModel::CALL
    } else if l == "ret"@ {
        TokenModel::RET
    } else {
        TokenModel::Label(w)
    }
}

/// The token that begins at or after `pos`, with the position just past it.
/// A position at or past the end of the text, or a NUL character, yields the
/// end-of-input token.
pub open spec fn token_model_at(s: Seq<char>, pos: int) -> Result<(TokenModel, int), LexError> {
    let p = skip_separators(s, pos);
    if p >= s.len() || s[p] == '\0' {
        Ok((TokenModel::EOF, p + 1))
    } else if s[p] == '\n' {
        Ok((TokenModel::NEWLINE, p + 1))
    } else if is_digit(s[p]) {
        let end = digit_run_end(s, p);
        if digits_val(s.subrange(p, end)) <= u16::MAX {
            Ok((TokenModel::Number(digits_val(s.subrange(p, end)) as u16), end))
        } else {
            Err(LexError::NumberTooLarge)
        }
    } else if is_label_char(s[p]) {
        let end = label_run_end(s, p);
        Ok((keyword_or_label(s.subrange(p, end)), end))
    } else {
        Err(LexError::UnexpectedChar)
    }
}

/// The tokens of the text from `pos` on: tokens up to and including the
/// end-of-input token, or the first fatal condition.
pub open spec fn lex_model(s: Seq<char>, pos: int) -> Result<Seq<TokenModel>, LexError>
    decreases s.len() - pos,
{
    match token_model_at(s, pos) {
        Err(e) => Err(e),
        Ok((tm, p)) => {
            if tm is EOF {
                Ok(seq![TokenModel::EOF])
            } else if pos < p <= s.len() {
                match lex_model(s, p) {
                    Err(e) => Err(e),
                    Ok(rest) => Ok(seq![tm] + rest),
                }
            } else {
                // Never the case: every token other than end-of-input ends
                // at or before the end of the text and makes progress.
                Ok(seq![tm])
            }
        },
    }
}

/// The cursor state of a lexer.
pub struct LexerModel {
    pub input: Seq<char>,
    pub position: int,
    pub read_position: int,
    pub ch: char,
}

pub struct Lexer {
    input: Vec<char>,
    position: usize,
    read_position: usize,
    ch: char,
}

impl View for Lexer {
    type V = LexerModel;

    closed spec fn view(&self) -> LexerModel {
        LexerModel {
            input: self.input@,
            position: self.position as int,
            read_position: self.read_position as int,
            ch: self.ch,
        }
    }
}

/// The cursor sits one step behind the read position and mirrors the
/// character under it, with NUL standing for the end of the text.
pub open spec fn primed(m: LexerModel) -> bool {
    &&& m.read_position == m.position + 1
    &&& 0 <= m.position
    &&& m.ch == if m.position < m.input.len() {
        m.input[m.position]
    } else {
        '\0'
    }
}

/// The input is short enough that the cursor arithmetic stays in machine range.
pub open spec fn fits(m: LexerModel) -> bool {
    m.input.len() + 4 <= usize::MAX
}

impl Lexer {
    /// A lexer at the start of the given text, before the first character is
    /// read in.
    pub fn new(input: Vec<char>) -> (r: Lexer)
        ensures
            r@ == (LexerModel { input: input@, position: 0, read_position: 0, ch: '\0' }),
    {
        let position: usize = 0;
        let read_position: usize = 0;
        let ch: char = '\0';
        Lexer { input, position, read_position, ch }
    }

    /// Steps the cursor one character forward.
    pub fn read_char(&mut self)
        requires
            old(self)@.read_position < usize::MAX,
        ensures
            final(self)@ == (LexerModel {
                input: old(self)@.input,
                position: old(self)@.read_position,
                read_position: old(self)@.read_position + 1,
                ch: if old(self)@.read_position < old(self)@.input.len() {
                    old(self)@.input[old(self)@.read_position]
                } else {
                    '\0'
                },
            }),
    {
        if self.read_position >= self.input.len() {
            self.ch = '\0';
        } else {
            self.ch = self.input[self.read_position];
        }
        self.position = self.read_position;
        self.read_position = self.read_position + 1;
    }

    /// Steps the cursor past blank space between tokens.
    pub fn eat_whitespace(&mut self)
        requires
            primed(old(self)@),
            fits(old(self)@),
        ensures
            final(self)@.input == old(self)@.input,
            primed(final(self)@),
            final(self)@.position == skip_separators(old(self)@.input, old(self)@.position),
    {
        while self.position < self.input.len() && is_separator_exec(self.ch)
            invariant
                primed(self@),
                fits(self@),
                self@.input == old(self)@.input,
                skip_separators(self@.input, old(self)@.position) == skip_separators(
                    self@.input,
                    self@.position,
                ),
            decreases self@.input.len() - self@.position,
        {
            self.read_char();
        }
    }

    /// Reads the number token whose first digit is under the cursor.
    pub fn read_number(&mut self) -> (r: Result<Token, LexError>)
        requires
            primed(old(self)@),
            fits(old(self)@),
            0 <= old(self)@.position < old(self)@.input.len(),
            is_digit(old(self)@.input[old(self)@.position]),
        ensures
            final(self)@.input == old(self)@.input,
            primed(final(self)@),
            final(self)@.position == digit_run_end(old(self)@.input, old(self)@.position),
            ({
                let run = old(self)@.input.subrange(
                    old(self)@.position,
                    digit_run_end(old(self)@.input, old(self)@.position),
                );
                if digits_val(run) <= u16::MAX {
                    r == Ok::<Token, LexError>(Token::Number(digits_val(run) as u16))
                } else {
                    r == Err::<Token, LexError>(LexError::NumberTooLarge)
                }
            }),
    {
        let start = self.position;
        while self.position < self.input.len() && self.ch >= '0' && self.ch <= '9'
            invariant
                primed(self@),
                fits(self@),
                self@.input == old(self)@.input,
                start == old(self)@.position,
                start <= self@.position <= self@.input.len(),
                digit_run_end(self@.input, old(self)@.position) == digit_run_end(
                    self@.input,
                    self@.position,
                ),
                forall|j: int| start <= j < self@.position ==> is_digit(#[trigger] self@.input[j]),
            decreases self@.input.len() - self@.position,
        {
            self.read_char();
        }
        let end = self.position;
        proof {
            let run = self@.input.subrange(start as int, end as int);
            assert forall|i: int| 0 <= i < run.len() implies is_digit(#[trigger] run[i]) by {
                assert(run[i] == self@.input[start + i]);
            }
            assert(all_digits(run));
        }
        match crate::numerals::parse_u16_digits(&self.input, start, end) {
            Some(v) => Ok(Token::Number(v)),
            None => Err(LexError::NumberTooLarge),
        }
    }

    /// Reads the label or mnemonic whose first character is under the cursor.
    pub fn read_identifier(&mut self) -> (r: Token)
        requires
            primed(old(self)@),
            fits(old(self)@),
            0 <= old(self)@.position < old(self)@.input.len(),
            is_label_char(old(self)@.input[old(self)@.position]),
        ensures
            final(self)@.input == old(self)@.input,
            primed(final(self)@),
            final(self)@.position == label_run_end(old(self)@.input, old(self)@.position),
            r@ == keyword_or_label(
                old(self)@.input.subrange(
                    old(self)@.position,
                    label_run_end(old(self)@.input, old(self)@.position),
                ),
            ),
    {
        let start = self.position;
        while self.position < self.input.len() && is_label_tail_exec(self.ch)
            invariant
                primed(self@),
                fits(self@),
                self@.input == old(self)@.input,
                start == old(self)@.position,
                start <= self@.position <= self@.input.len(),
                label_run_end(self@.input, old(self)@.position) == label_run_end(
                    self@.input,
                    self@.position,
                ),
            decreases self@.input.len() - self@.position,
        {
            self.read_char();
        }
        let end = self.position;
        let ghost w = self@.input.subrange(start as int, end as int);
        if word_matches_kw(&self.input, start, end, "hlt") {
            Token::HLT
        } else if word_matches_kw(&self.input, start, end, "add") {
            Token::ADD
        } else if word_matches_kw(&self.input, start, end, "sub") {
            Token::SUB
        } else if word_matches_kw(&self.input, start, end, "lda") {
            Token::LDA
        } else if word_matches_kw(&self.input, start, end, "sta") {
            Token::STA
        } else if word_matches_kw(&self.input, start, end, "bra") {
            Token::BRA
        } else if word_matches_kw(&self.input, start, end, "brz") {
            Token::BRZ
        } else if word_matches_kw(&self.input, start, end, "bgt") {
            Token::BGT
        } else if word_matches_kw(&self.input, start, end, "blt") {
            Token::BLT
        } else if word_matches_kw(&self.input, start, end, "inp") {
            Token::INP
        } else if word_matches_kw(&self.input, start, end, "out") {
            Token::OUT
        } else if word_matches_kw(&self.input, start, end, "otc") {
            Token::OTC
        } else if word_matches_kw(&self.input, start, end, "dat") {
            Token::DAT
        } else if word_matches_kw(&self.input, start, end, "call") {
            Token::CALL
        } else if word_matches_kw(&self.input, start, end, "ret") {
            Token::RET
        } else {
            Token::Label(chars_to_string(&self.input, start, end))
        }
    }

    /// Reads the next token, as `token_model_at` describes.
    pub fn next_token(&mut self) -> (r: Result<Token, LexError>)
        requires
            primed(old(self)@),
            fits(old(self)@),
            old(self)@.position <= old(self)@.input.len() + 1,
        ensures
            final(self)@.input == old(self)@.input,
            primed(final(self)@),
            match token_model_at(old(self)@.input, old(self)@.position) {
                Ok((tm, p)) => {
                    &&& r matches Ok(t) && t@ == tm
                    &&& final(self)@.position == p
                    &&& p <= old(self)@.input.len() + 2
                },
                Err(e) => r == Err::<Token, LexError>(e),
            },
    {
        proof {
            lemma_skip_separators_bounds(old(self)@.input, old(self)@.position);
            let p = skip_separators(old(self)@.input, old(self)@.position);
            if 0 <= p <= old(self)@.input.len() {
                lemma_digit_run_bounds(old(self)@.input, p);
                lemma_label_run_bounds(old(self)@.input, p);
            }
        }
        self.eat_whitespace();
        if self.position >= self.input.len() || self.ch == '\0' {
            self.read_char();
            Ok(Token::EOF)
        } else if self.ch == '\n' {
            self.read_char();
            Ok(Token::NEWLINE)
        } else if self.ch >= '0' && self.ch <= '9' {
            self.read_number()
        } else if is_label_char_exec(self.ch) {
            Ok(self.read_identifier())
        } else {
            Err(LexError::UnexpectedChar)
        }
    }

    /// Tokenizes the whole text, as `lex_model` describes: the tokens end
    /// with the end-of-input token, or the first fatal condition is reported.
    pub fn lex(&mut self) -> (r: Result<Vec<Token>, LexError>)
        requires
            old(self)@.position == 0,
            old(self)@.read_position == 0,
            old(self)@.ch == '\0',
            fits(old(self)@),
        ensures
            final(self)@.input == old(self)@.input,
            match lex_model(old(self)@.input, 0) {
                Ok(ms) => r matches Ok(ts) && toks_view(ts@) == ms,
                Err(e) => r == Err::<Vec<Token>, LexError>(e),
            },
    {
        let mut tokens: Vec<Token> = Vec::new();
        self.read_char();
        loop
            invariant
                primed(self@),
                fits(self@),
                self@.input == old(self)@.input,
                self@.position <= self@.input.len() + 1,
                match lex_model(self@.input, self@.position) {
                    Ok(rest) => lex_model(self@.input, 0) == Ok::<Seq<TokenModel>, LexError>(
                        toks_view(tokens@) + rest,
                    ),
                    Err(e) => lex_model(self@.input, 0) == Err::<Seq<TokenModel>, LexError>(e),
                },
            decreases self@.input.len() + 1 - self@.position,
        {
            proof {
                assert(toks_view(tokens@) + lex_model(self@.input, self@.position)->Ok_0
                    == lex_model(self@.input, 0)->Ok_0 || lex_model(self@.input, 0) is Err);
            }
            let ghost pre_pos = self@.position;
            let ghost pre_tokens = tokens@;
            let token = match self.next_token() {
                Ok(t) => t,
                Err(e) => {
                    return Err(e);
                },
            };
            let is_eof = match &token {
                Token::EOF => true,
                _ => false,
            };
            tokens.push(token);
            proof {
                assert(toks_view(tokens@) =~= toks_view(pre_tokens).push(tokens@.last()@));
            }
            if is_eof {
                proof {
                    assert(lex_model(self@.input, pre_pos) == Ok::<Seq<TokenModel>, LexError>(
                        seq![TokenModel::EOF],
                    ));
                    assert(toks_view(pre_tokens) + seq![TokenModel::EOF] =~= toks_view(tokens@));
                }
                return Ok(tokens);
            }
            proof {
                let (tm, p) = token_model_at(self@.input, pre_pos)->Ok_0;
                assert(!(tm is EOF));
                lemma_skip_separators_bounds(self@.input, pre_pos);
                let sp = skip_separators(self@.input, pre_pos);
                if 0 <= sp <= self@.input.len() {
                    lemma_digit_run_bounds(self@.input, sp);
                    lemma_label_run_bounds(self@.input, sp);
                    if sp < self@.input.len() && is_digit(self@.input[sp]) {
                        assert(digit_run_end(self@.input, sp) == digit_run_end(self@.input, sp + 1));
                        lemma_digit_run_bounds(self@.input, sp + 1);
                    }
                    if sp < self@.input.len() && is_label_char(self@.input[sp]) {
                        assert(label_run_end(self@.input, sp) == label_run_end(self@.input, sp + 1));
                        lemma_label_run_bounds(self@.input, sp + 1);
                    }
                }
                assert(pre_pos < p <= self@.input.len());
                match lex_model(self@.input, p) {
                    Ok(rest) => {
                        assert(lex_model(self@.input, pre_pos) == Ok::<Seq<TokenModel>, LexError>(
                            seq![tm] + rest,
                        ));
                        assert(toks_view(pre_tokens) + (seq![tm] + rest) =~= toks_view(tokens@)
                            + rest);
                    },
                    Err(_) => {},
                }
            }
        }
    }
}

/// Whether a character separates tokens, decided at run time.
fn is_separator_exec(c: char) -> (r: bool)
    ensures
        r == is_separator(c),
{
    c == ' ' || c == '\t' || c == '\r' || c == '\x0c'
}

/// Whether a character may begin a label, decided at run time.
fn is_label_char_exec(c: char) -> (r: bool)
    ensures
        r == is_label_char(c),
{
    (c >= 'a' && c <= 'z') || (c >= 'A' && c <= 'Z') || c == '_'
}

/// Whether a character may continue a label, decided at run time.
fn is_label_tail_exec(c: char) -> (r: bool)
    ensures
        r == is_label_tail(c),
{
    is_label_char_exec(c) || (c >= '0' && c <= '9')
}

/// The lower-case form of a character, decided at run time.
fn lower_exec(c: char) -> (r: char)
    ensures
        r == lower(c),
{
    match c {
        'A' => 'a',
        'B' => 'b',
        'C' => 'c',
        'D' => 'd',
        'E' => 'e',
        'F' => 'f',
        'G' => 'g',
        'H' => 'h',
        'I' => 'i',
        'J' => 'j',
        'K' => 'k',
        'L' => 'l',
        'M' => 'm',
        'N' => 'n',
        'O' => 'o',
        'P' => 'p',
        'Q' => 'q',
        'R' => 'r',
        'S' => 's',
        'T' => 't',
        'U' => 'u',
        'V' => 'v',
        'W' => 'w',
        'X' => 'x',
        'Y' => 'y',
        'Z' => 'z',
        _ => c,
    }
}

/// Whether the given range of the text, folded to lower case, spells the
/// given word.
fn word_matches_kw(s: &Vec<char>, start: usize, end: usize, kw: &str) -> (r: bool)
    requires
        start <= end <= s@.len(),
    ensures
        r == (lower_word(s@.subrange(start as int, end as int)) == kw@),
{
    let ghost w = lower_word(s@.subrange(start as int, end as int));
    let kw_len = kw.unicode_len();
    if end - start != kw_len {
        proof {
            assert(w.len() != kw@.len());
        }
        return false;
    }
    let mut i: usize = 0;
    while i < kw_len
        invariant
            start <= end <= s@.len(),
            end - start == kw_len == kw@.len(),
            i <= kw_len,
            w == lower_word(s@.subrange(start as int, end as int)),
            forall|j: int| 0 <= j < i ==> w[j] == kw@[j],
        decreases kw_len - i,
    {
        let c = lower_exec(s[start + i]);
        let k = kw.get_char(i);
        if c != k {
            proof {
                assert(w[i as int] == lower(s@.subrange(start as int, end as int)[i as int]));
                assert(w[i as int] != kw@[i as int]);
            }
            return false;
        }
        proof {
            assert(w[i as int] == lower(s@.subrange(start as int, end as int)[i as int]));
        }
        i = i + 1;
    }
    proof {
        assert(w =~= kw@);
    }
    true
}

} // verus!
