//! Parsing assembly tokens into an instruction list and a symbol table.
//! A bare label binds to the index of the next instruction; a mnemonic begins
//! an instruction and may take one operand; each instruction ends with a
//! newline or the end of the input.

use vstd::prelude::*;
use crate::assembler::lexer::{toks_view, Token, TokenModel};

verus! {

/// One parsed instruction; operands are the number and label tokens they
/// were written as.
#[derive(Debug, PartialEq, Eq)]
pub enum Instruction {
    HLT,
    ADD(Token),
    SUB(Token),
    LDA(Token),
    STA(Token),
    BRA(Token),
    BRZ(Token),
    BGT(Token),
    BLT(Token),
    INP,
    OUT,
    OTC,
    DAT(Token),
    CALL(Token),
    RET,
}

/// The mathematical value of an instruction.
pub enum InstructionModel {
    HLT,
    ADD(TokenModel),
    SUB(TokenModel),
    LDA(TokenModel),
    STA(TokenModel),
    BRA(TokenModel),
    BRZ(TokenModel),
    BGT(TokenModel),
    BLT(TokenModel),
    INP,
    OUT,
    OTC,
    DAT(TokenModel),
    CALL(TokenModel),
    RET,
}

impl View for Instruction {
    type V = InstructionModel;

    open spec fn view(&self) -> InstructionModel {
        match self {
            Instruction::HLT => InstructionModel::HLT,
            Instruction::ADD(t) => InstructionModel::ADD(t@),
            Instruction::SUB(t) => InstructionModel::SUB(t@),
            Instruction::LDA(t) => InstructionModel::LDA(t@),
            Instruction::STA(t) => InstructionModel::STA(t@),
            Instruction::BRA(t) => InstructionModel::BRA(t@),
            Instruction::BRZ(t) => InstructionModel::BRZ(t@),
            Instruction::BGT(t) => InstructionModel::BGT(t@),
            Instruction::BLT(t) => InstructionModel::BLT(t@),
            Instruction::INP => InstructionModel::INP,
            Instruction::OUT => InstructionModel::OUT,
            Instruction::OTC => InstructionModel::OTC,
            Instruction::DAT(t) => InstructionModel::DAT(t@),
            Instruction::CALL(t) => InstructionModel::CALL(t@),
            Instruction::RET => InstructionModel::RET,
        }
    }
}

/// The values of a sequence of instructions.
pub open spec fn instrs_view(v: Seq<Instruction>) -> Seq<InstructionModel> {
    Seq::new(v.len(), |i: int| v[i]@)
}

/// A fatal condition raised while parsing assembly.
#[derive(Clone, Copy, Debug, PartialEq, Eq, Structural)]
pub enum AsmParseError {
    /// A token other than a newline or the end of input follows an instruction.
    ExpectedNewline,
    /// A token that begins no instruction stands where a mnemonic belongs.
    UnexpectedToken,
    /// A token that is neither a number nor a label stands as an operand.
    BadOperand,
    /// A label binds to an instruction index beyond sixteen bits.
    TooManyInstructions,
}

/// The map a list of name-to-index bindings builds up; a later binding of
/// the same name wins.
pub open spec fn entries_map(s: Seq<(String, u16)>) -> Map<Seq<char>, u16>
    decreases s.len(),
{
    if s.len() == 0 {
        Map::empty()
    } else {
        entries_map(s.drop_last()).insert(s.last().0@, s.last().1)
    }
}

/// Bindings from label names to instruction indices.
#[derive(Clone, Debug, PartialEq, Eq)]
pub struct SymbolTable {
    entries: Vec<(String, u16)>,
}

impl View for SymbolTable {
    type V = Map<Seq<char>, u16>;

    closed spec fn view(&self) -> Map<Seq<char>, u16> {
        entries_map(self.entries@)
    }
}

/// Bindings whose names all differ from `k` never bind `k`.
proof fn lemma_entries_map_no_match(s: Seq<(String, u16)>, k: Seq<char>, i: int)
    requires
        0 <= i <= s.len(),
        forall|j: int| i <= j < s.len() ==> (#[trigger] s[j]).0@ != k,
    ensures
        entries_map(s).contains_key(k) == entries_map(s.take(i)).contains_key(k),
        entries_map(s).contains_key(k) ==> entries_map(s)[k] == entries_map(s.take(i))[k],
    decreases s.len() - i,
{
    if i == s.len() {
        assert(s.take(i) =~= s);
    } else {
        let shorter = s.drop_last();
        assert(s.last().0@ != k);
        assert(shorter.take(i) =~= s.take(i));
        lemma_entries_map_no_match(shorter, k, i);
    }
}

impl SymbolTable {
    /// An empty table.
    pub fn new() -> (r: SymbolTable)
        ensures
            r@ == Map::<Seq<char>, u16>::empty(),
    {
        SymbolTable { entries: Vec::new() }
    }

    /// Binds a name to an instruction index; a later binding of the same
    /// name replaces an earlier one.
    pub fn insert(&mut self, name: String, index: u16)
        ensures
            final(self)@ == old(self)@.insert(name@, index),
    {
        let ghost pre = self.entries@;
        self.entries.push((name, index));
        proof {
            assert(self.entries@.drop_last() =~= pre);
        }
    }

    /// The index a name is bound to, if any.
    pub fn get(&self, name: &String) -> (r: Option<u16>)
        ensures
            match r {
                Some(v) => self@.contains_key(name@) && self@[name@] == v,
                None => !self@.contains_key(name@),
            },
    {
        let mut i: usize = self.entries.len();
        while i > 0
            invariant
                i <= self.entries@.len(),
                forall|j: int|
                    i <= j < self.entries@.len() ==> (#[trigger] self.entries@[j]).0@ != name@,
            decreases i,
        {
            if self.entries[i - 1].0 == *name {
                proof {
                    let pre = self.entries@.take(i as int);
                    lemma_entries_map_no_match(self.entries@, name@, i as int);
                    assert(pre.drop_last() =~= self.entries@.take(i - 1));
                    assert(pre.last() == self.entries@[i - 1]);
                }
                return Some(self.entries[i - 1].1);
            }
            i = i - 1;
        }
        proof {
            lemma_entries_map_no_match(self.entries@, name@, 0);
            assert(self.entries@.take(0) =~= Seq::<(String, u16)>::empty());
        }
        None
    }
}

/// The operand of the mnemonic at `pos`: the following token when it is a
/// number or a label, the default of zero when the instruction ends there,
/// and a fault otherwise.
pub open spec fn operand_model_at(toks: Seq<TokenModel>, pos: int) -> Result<
    (TokenModel, int),
    AsmParseError,
> {
    let nxt = if pos + 1 < toks.len() {
        toks[pos + 1]
    } else {
        TokenModel::EOF
    };
    match nxt {
        TokenModel::Label(_) => Ok((nxt, pos + 1)),
        TokenModel::Number(_) => Ok((nxt, pos + 1)),
        TokenModel::NEWLINE => Ok((TokenModel::Number(0), pos)),
        TokenModel::EOF => Ok((TokenModel::Number(0), pos)),
        _ => Err(AsmParseError::BadOperand),
    }
}

/// The instruction whose mnemonic stands at `pos`, with the position of its
/// last token.
pub open spec fn instr_model_at(toks: Seq<TokenModel>, pos: int) -> Result<
    (InstructionModel, int),
    AsmParseError,
> {
    match toks[pos] {
        TokenModel::HLT => Ok((InstructionModel::HLT, pos)),
        TokenModel::INP => Ok((InstructionModel::INP, pos)),
        TokenModel::OUT => Ok((InstructionModel::OUT, pos)),
        TokenModel::OTC => Ok((InstructionModel::OTC, pos)),
        TokenModel::RET => Ok((InstructionModel::RET, pos)),
        TokenModel::ADD => match operand_model_at(toks, pos) {
            Ok((t, q)) => Ok((InstructionModel::ADD(t), q)),
            Err(e) => Err(e),
        },
        TokenModel::SUB => match operand_model_at(toks, pos) {
            Ok((t, q)) => Ok((InstructionModel::SUB(t), q)),
            Err(e) => Err(e),
        },
        TokenModel::LDA => match operand_model_at(toks, pos) {
            Ok((t, q)) => Ok((InstructionModel::LDA(t), q)),
            Err(e) => Err(e),
        },
        TokenModel::STA => match operand_model_at(toks, pos) {
            Ok((t, q)) => Ok((InstructionModel::STA(t), q)),
            Err(e) => Err(e),
        },
        TokenModel::BRA => match operand_model_at(toks, pos) {
            Ok((t, q)) => Ok((InstructionModel::BRA(t), q)),
            Err(e) => Err(e),
        },
        TokenModel::BRZ => match operand_model_at(toks, pos) {
            Ok((t, q)) => Ok((InstructionModel::BRZ(t), q)),
            Err(e) => Err(e),
        },
        TokenModel::BGT => match operand_model_at(toks, pos) {
            Ok((t, q)) => Ok((InstructionModel::BGT(t), q)),
            Err(e) => Err(e),
        },
        TokenModel::BLT => match operand_model_at(toks, pos) {
            Ok((t, q)) => Ok((InstructionModel::BLT(t), q)),
            Err(e) => Err(e),
        },
        TokenModel::DAT => match operand_model_at(toks, pos) {
            Ok((t, q)) => Ok((InstructionModel::DAT(t), q)),
            Err(e) => Err(e),
        },
        TokenModel::CALL => match operand_model_at(toks, pos) {
            Ok((t, q)) => Ok((InstructionModel::CALL(t), q)),
            Err(e) => Err(e),
        },
        _ => Err(AsmParseError::UnexpectedToken),
    }
}

/// Parsing from `pos` on, with the instructions and bindings gathered so
/// far: a bare label binds the next instruction's index, newlines and the
/// end of input pass, and a mnemonic begins an instruction that a newline
/// or the end of input must close.
pub open spec fn parse_model(
    toks: Seq<TokenModel>,
    pos: int,
    instr_no: int,
    prog: Seq<InstructionModel>,
    table: Map<Seq<char>, u16>,
) -> Result<(Seq<InstructionModel>, Map<Seq<char>, u16>), AsmParseError>
    decreases toks.len() - pos,
{
    if pos >= toks.len() || toks[pos] is EOF {
        Ok((prog, table))
    } else {
        match toks[pos] {
            TokenModel::Label(name) => {
                if instr_no > u16::MAX {
                    Err(AsmParseError::TooManyInstructions)
                } else {
                    parse_model(toks, pos + 1, instr_no, prog, table.insert(name, instr_no as u16))
                }
            },
            TokenModel::NEWLINE => parse_model(toks, pos + 1, instr_no, prog, table),
            _ => match instr_model_at(toks, pos) {
                Err(e) => Err(e),
                Ok((instr, q)) => {
                    if q + 1 >= toks.len() {
                        // Unreachable when the tokens end with the
                        // end-of-input marker.
                        Err(AsmParseError::ExpectedNewline)
                    } else if toks[q + 1] is EOF {
                        Ok((prog.push(instr), table))
                    } else if toks[q + 1] is NEWLINE {
                        parse_model(toks, q + 2, instr_no + 1, prog.push(instr), table)
                    } else {
                        Err(AsmParseError::ExpectedNewline)
                    }
                },
            },
        }
    }
}

/// The cursor state of a parser.
pub struct ParserModel {
    pub tokens: Seq<TokenModel>,
    pub position: int,
    pub instruction_number: int,
    pub tok: TokenModel,
}

pub struct Parser {
    tokens: Vec<Token>,
    position: usize,
    instruction_number: usize,
    tok: Token,
}

impl View for Parser {
    type V = ParserModel;

    closed spec fn view(&self) -> ParserModel {
        ParserModel {
            tokens: toks_view(self.tokens@),
            position: self.position as int,
            instruction_number: self.instruction_number as int,
            tok: self.tok@,
        }
    }
}

/// The cursor sits on a valid position, mirrors the token under it, and the
/// tokens end with the end-of-input marker.
pub open spec fn parser_wf(m: ParserModel) -> bool {
    &&& m.tokens.len() > 0
    &&& m.tokens.last() is EOF
    &&& 0 <= m.position < m.tokens.len()
    &&& m.tok == m.tokens[m.position]
}

impl Parser {
    /// A parser at the first of the given tokens, which must not be empty.
    pub fn new(tokens: Vec<Token>) -> (r: Parser)
        requires
            tokens@.len() > 0,
        ensures
            r@.tokens == toks_view(tokens@),
            r@.position == 0,
            r@.instruction_number == 0,
            r@.tok == toks_view(tokens@)[0],
    {
        let tok = tokens[0].clone();
        Parser { tokens, position: 0, instruction_number: 0, tok }
    }

    /// The token after the one under the cursor; the end-of-input marker
    /// when there is none.
    pub fn peek(&self) -> (r: Token)
        ensures
            r@ == if self@.position + 1 < self@.tokens.len() {
                self@.tokens[self@.position + 1]
            } else {
                TokenModel::EOF
            },
    {
        let n = self.tokens.len();
        if n > 0 && self.position < n - 1 {
            return self.tokens[self.position + 1].clone();
        }
        Token::EOF
    }

    /// Steps the cursor to the next token.
    pub fn eat_token(&mut self)
        requires
            old(self)@.position + 1 < old(self)@.tokens.len(),
        ensures
            final(self)@.tokens == old(self)@.tokens,
            final(self)@.position == old(self)@.position + 1,
            final(self)@.instruction_number == old(self)@.instruction_number,
            final(self)@.tok == old(self)@.tokens[old(self)@.position + 1],
    {
        let n = self.tokens.len();
        assert(self.position + 1 < n);
        self.position = self.position + 1;
        self.tok = self.tokens[self.position].clone();
    }

    /// Parses the instruction whose mnemonic is under the cursor, as
    /// `instr_model_at` describes, leaving the cursor on its last token.
    #[verifier::rlimit(50)]
    fn parse_instruction(&mut self) -> (r: Result<Instruction, AsmParseError>)
        requires
            parser_wf(old(self)@),
        ensures
            final(self)@.tokens == old(self)@.tokens,
            final(self)@.instruction_number == old(self)@.instruction_number,
            match instr_model_at(old(self)@.tokens, old(self)@.position) {
                Ok((im, q)) => {
                    &&& r matches Ok(i) && i@ == im
                    &&& final(self)@.position == q
                    &&& parser_wf(final(self)@)
                },
                Err(e) => r == Err::<Instruction, AsmParseError>(e) && final(self)@ == old(self)@,
            },
    {
        match &self.tok {
            Token::HLT => Ok(Instruction::HLT),
            Token::INP => Ok(Instruction::INP),
            Token::OUT => Ok(Instruction::OUT),
            Token::OTC => Ok(Instruction::OTC),
            Token::RET => Ok(Instruction::RET),
            Token::ADD => match self.parse_operand() {
                Ok(t) => Ok(Instruction::ADD(t)),
                Err(e) => Err(e),
            },
            Token::SUB => match self.parse_operand() {
                Ok(t) => Ok(Instruction::SUB(t)),
                Err(e) => Err(e),
            },
            Token::LDA => match self.parse_operand() {
                Ok(t) => Ok(Instruction::LDA(t)),
                Err(e) => Err(e),
            },
            Token::STA => match self.parse_operand() {
                Ok(t) => Ok(Instruction::STA(t)),
                Err(e) => Err(e),
            },
            Token::BRA => match self.parse_operand() {
                Ok(t) => Ok(Instruction::BRA(t)),
                Err(e) => Err(e),
            },
            Token::BRZ => match self.parse_operand() {
                Ok(t) => Ok(Instruction::BRZ(t)),
                Err(e) => Err(e),
            },
            Token::BGT => match self.parse_operand() {
                Ok(t) => Ok(Instruction::BGT(t)),
                Err(e) => Err(e),
            },
            Token::BLT => match self.parse_operand() {
                Ok(t) => Ok(Instruction::BLT(t)),
                Err(e) => Err(e),
            },
            Token::DAT => match self.parse_operand() {
                Ok(t) => Ok(Instruction::DAT(t)),
                Err(e) => Err(e),
            },
            Token::CALL => match self.parse_operand() {
                Ok(t) => Ok(Instruction::CALL(t)),
                Err(e) => Err(e),
            },
            _ => Err(AsmParseError::UnexpectedToken),
        }
    }

    /// Parses the operand of the mnemonic under the cursor, as
    /// `operand_model_at` describes.
    fn parse_operand(&mut self) -> (r: Result<Token, AsmParseError>)
        requires
            parser_wf(old(self)@),
        ensures
            final(self)@.tokens == old(self)@.tokens,
            final(self)@.instruction_number == old(self)@.instruction_number,
            match operand_model_at(old(self)@.tokens, old(self)@.position) {
                Ok((t, q)) => {
                    &&& r matches Ok(tk) && tk@ == t
                    &&& final(self)@.position == q
                    &&& parser_wf(final(self)@)
                },
                Err(e) => r == Err::<Token, AsmParseError>(e) && final(self)@ == old(self)@,
            },
    {
        let next = self.peek();
        match next {
            Token::Label(_) => {
                self.eat_token();
                Ok(self.tok.clone())
            },
            Token::Number(_) => {
                self.eat_token();
                Ok(self.tok.clone())
            },
            Token::NEWLINE => Ok(Token::Number(0)),
            Token::EOF => Ok(Token::Number(0)),
            _ => Err(AsmParseError::BadOperand),
        }
    }

    /// Parses the whole token stream, as `parse_model` describes, yielding
    /// the instruction list and the symbol table.
    pub fn parse(&mut self) -> (r: Result<(Vec<Instruction>, SymbolTable), AsmParseError>)
        requires
            parser_wf(old(self)@),
            old(self)@.position == 0,
            old(self)@.instruction_number == 0,
        ensures
            match parse_model(
                old(self)@.tokens,
                0,
                0,
                Seq::<InstructionModel>::empty(),
                Map::<Seq<char>, u16>::empty(),
            ) {
                Ok((prog, table)) => {
                    &&& r matches Ok((p, t)) && instrs_view(p@) == prog && t@ == table
                },
                Err(e) => r matches Err(e2) && e2 == e,
            },
    {
        let ghost toks = self@.tokens;
        let mut symbol_table = SymbolTable::new();
        let mut program: Vec<Instruction> = Vec::new();
        proof {
            assert(instrs_view(program@) =~= Seq::<InstructionModel>::empty());
        }

        loop
            invariant
                parser_wf(self@),
                toks == old(self)@.tokens,
                self@.tokens == toks,
                self@.instruction_number <= self@.position,
                parse_model(toks, 0, 0, Seq::<InstructionModel>::empty(), Map::<Seq<char>, u16>::empty())
                    == parse_model(
                    toks,
                    self@.position,
                    self@.instruction_number,
                    instrs_view(program@),
                    symbol_table@,
                ),
            decreases toks.len() - self@.position,
        {
            let is_eof = match &self.tok {
                Token::EOF => true,
                _ => false,
            };
            if is_eof {
                return Ok((program, symbol_table));
            }
            let ghost pre_pos = self@.position;
            let ghost pre_no = self@.instruction_number;
            let ghost pre_prog = instrs_view(program@);
            let ghost pre_table = symbol_table@;
            match &self.tok {
                Token::Label(name_ref) => {
                    let name = name_ref.clone();
                    if self.instruction_number > 65535 {
                        return Err(AsmParseError::TooManyInstructions);
                    }
                    symbol_table.insert(name, self.instruction_number as u16);
                    self.eat_token();
                },
                Token::NEWLINE => {
                    self.eat_token();
                },
                _ => {
                    let instr = match self.parse_instruction() {
                        Ok(i) => i,
                        Err(e) => {
                            return Err(e);
                        },
                    };
                    let ghost pre_push = program@;
                    program.push(instr);
                    proof {
                        assert(instrs_view(program@) =~= instrs_view(pre_push).push(
                            program@.last()@,
                        ));
                    }
                    let n = self.tokens.len();
                    proof {
                        assert(pre_pos <= self@.position);
                        assert(self@.instruction_number < n);
                    }
                    self.instruction_number = self.instruction_number + 1;
                    self.eat_token();
                    let after_newline = match &self.tok {
                        Token::NEWLINE => false,
                        Token::EOF => true,
                        _ => {
                            return Err(AsmParseError::ExpectedNewline);
                        },
                    };
                    if after_newline {
                        return Ok((program, symbol_table));
                    }
                    self.eat_token();
                },
            }
        }
    }
}

} // verus!
