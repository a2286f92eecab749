//! Emitting byte code: every instruction becomes exactly three bytes, an
//! opcode and a big-endian sixteen-bit operand. A label operand resolves to
//! three times the instruction index it is bound to.

use vstd::prelude::*;
use crate::assembler::lexer::{lex_model, Token, TokenModel};
use crate::assembler::parser::{
    instrs_view, parse_model, Instruction, InstructionModel, SymbolTable,
};
use crate::machine::machine::m16;

verus! {

/// A fatal condition raised while emitting byte code.
#[derive(Clone, Copy, Debug, PartialEq, Eq, Structural)]
pub enum AssembleError {
    /// A label operand is not bound in the symbol table.
    UndefinedLabel,
    /// A label resolves to a byte offset beyond sixteen bits.
    AddressOverflow,
    /// An operand is neither a number nor a label.
    BadOperandToken,
}

/// The opcode byte of an instruction.
pub open spec fn opcode_of(i: InstructionModel) -> u8 {
    match i {
        InstructionModel::HLT => 0,
        InstructionModel::ADD(_) => 1,
        InstructionModel::SUB(_) => 2,
        InstructionModel::LDA(_) => 3,
        InstructionModel::STA(_) => 4,
        InstructionModel::BRA(_) => 5,
        InstructionModel::BRZ(_) => 6,
        InstructionModel::BGT(_) => 7,
        InstructionModel::BLT(_) => 11,
        InstructionModel::INP => 8,
        InstructionModel::OUT => 9,
        InstructionModel::OTC => 10,
        InstructionModel::DAT(_) => 12,
        InstructionModel::CALL(_) => 13,
        InstructionModel::RET => 14,
    }
}

/// The operand token of an instruction, if its mnemonic takes one.
pub open spec fn operand_token_of(i: InstructionModel) -> Option<TokenModel> {
    match i {
        InstructionModel::HLT => None,
        InstructionModel::INP => None,
        InstructionModel::OUT => None,
        InstructionModel::OTC => None,
        InstructionModel::RET => None,
        InstructionModel::ADD(t) => Some(t),
        InstructionModel::SUB(t) => Some(t),
        InstructionModel::LDA(t) => Some(t),
        InstructionModel::STA(t) => Some(t),
        InstructionModel::BRA(t) => Some(t),
        InstructionModel::BRZ(t) => Some(t),
        InstructionModel::BGT(t) => Some(t),
        InstructionModel::BLT(t) => Some(t),
        InstructionModel::DAT(t) => Some(t),
        InstructionModel::CALL(t) => Some(t),
    }
}

/// The sixteen-bit value an operand token resolves to: a number stands for
/// itself, a label for three times the instruction index it is bound to.
pub open spec fn resolve_operand(t: TokenModel, table: Map<Seq<char>, u16>) -> Result<
    u16,
    AssembleError,
> {
    match t {
        TokenModel::Number(v) => Ok(v),
        TokenModel::Label(name) => {
            if table.contains_key(name) {
                if 3 * (table[name] as int) <= u16::MAX {
                    Ok((3 * table[name]) as u16)
                } else {
                    Err(AssembleError::AddressOverflow)
                }
            } else {
                Err(AssembleError::UndefinedLabel)
            }
        },
        _ => Err(AssembleError::BadOperandToken),
    }
}

/// The three bytes of one instruction: opcode, operand high byte, operand
/// low byte. An instruction without an operand carries zero.
pub open spec fn instr_bytes(i: InstructionModel, table: Map<Seq<char>, u16>) -> Result<
    Seq<u8>,
    AssembleError,
> {
    match operand_token_of(i) {
        None => Ok(seq![opcode_of(i), 0u8, 0u8]),
        Some(t) => match resolve_operand(t, table) {
            Err(e) => Err(e),
            Ok(v) => Ok(seq![opcode_of(i), (v / 256) as u8, (v % 256) as u8]),
        },
    }
}

/// The byte image of a program: the three bytes of each instruction in
/// order, or the first fault.
pub open spec fn assemble_model(prog: Seq<InstructionModel>, table: Map<Seq<char>, u16>) -> Result<
    Seq<u8>,
    AssembleError,
>
    decreases prog.len(),
{
    if prog.len() == 0 {
        Ok(Seq::empty())
    } else {
        match instr_bytes(prog[0], table) {
            Err(e) => Err(e),
            Ok(b) => match assemble_model(prog.skip(1), table) {
                Err(e) => Err(e),
                Ok(rest) => Ok(b + rest),
            },
        }
    }
}

/// A successful assembly emits exactly three bytes per instruction, every
/// instruction's operand resolves, and the bytes of the instruction at index
/// `i` stand at offset `3 * i`.
pub proof fn lemma_assemble_parts(prog: Seq<InstructionModel>, table: Map<Seq<char>, u16>)
    requires
        assemble_model(prog, table) is Ok,
    ensures
        assemble_model(prog, table)->Ok_0.len() == 3 * prog.len(),
        forall|i: int| 0 <= i < prog.len() ==> instr_bytes(#[trigger] prog[i], table) is Ok,
        forall|i: int|
            0 <= i < prog.len() ==> assemble_model(prog, table)->Ok_0.subrange(3 * i, 3 * i + 3)
                == instr_bytes(#[trigger] prog[i], table)->Ok_0,
    decreases prog.len(),
{
    if prog.len() > 0 {
        let rest = prog.skip(1);
        lemma_assemble_parts(rest, table);
        let b0 = instr_bytes(prog[0], table)->Ok_0;
        let tail = assemble_model(rest, table)->Ok_0;
        let out = assemble_model(prog, table)->Ok_0;
        assert(b0.len() == 3);
        assert(out == b0 + tail);
        assert forall|i: int| 0 <= i < prog.len() implies instr_bytes(
            #[trigger] prog[i],
            table,
        ) is Ok by {
            if i > 0 {
                assert(rest[i - 1] == prog[i]);
            }
        }
        assert forall|i: int| 0 <= i < prog.len() implies out.subrange(3 * i, 3 * i + 3)
            == instr_bytes(#[trigger] prog[i], table)->Ok_0 by {
            if i == 0 {
                assert(out.subrange(0, 3) =~= b0);
            } else {
                assert(rest[i - 1] == prog[i]);
                assert(out.subrange(3 * i, 3 * i + 3) =~= tail.subrange(
                    3 * (i - 1),
                    3 * (i - 1) + 3,
                ));
            }
        }
    }
}

/// Law: in an assembled program, every call target is bound in the symbol
/// table.
pub proof fn lemma_call_targets_defined(
    prog: Seq<InstructionModel>,
    table: Map<Seq<char>, u16>,
    i: int,
    name: Seq<char>,
)
    requires
        assemble_model(prog, table) is Ok,
        0 <= i < prog.len(),
        prog[i] == InstructionModel::CALL(TokenModel::Label(name)),
    ensures
        table.contains_key(name),
{
    lemma_assemble_parts(prog, table);
    assert(instr_bytes(prog[i], table) is Ok);
}

/// Law: a load through a label addresses the data cell bound to it. When
/// instruction `i` is a load through label `name`, the label is bound to
/// index `k`, and the instruction at `k` is a data cell with payload `v`,
/// then the emitted operand bytes of the load hold the byte offset `3 * k`,
/// and the sixteen-bit value stored at that offset is `v`.
pub proof fn lemma_label_load_reads_payload(
    prog: Seq<InstructionModel>,
    table: Map<Seq<char>, u16>,
    i: int,
    name: Seq<char>,
    k: u16,
    v: u16,
)
    requires
        assemble_model(prog, table) is Ok,
        0 <= i < prog.len(),
        prog[i] == InstructionModel::LDA(TokenModel::Label(name)),
        table.contains_key(name),
        table[name] == k,
        k < prog.len(),
        prog[k as int] == InstructionModel::DAT(TokenModel::Number(v)),
    ensures
        ({
            let out = assemble_model(prog, table)->Ok_0;
            &&& out[3 * i] == 3u8
            &&& (out[3 * i + 1] as int) * 256 + (out[3 * i + 2] as int) == 3 * (k as int)
            &&& m16(out, 3 * (k as int)) == v
        }),
{
    lemma_assemble_parts(prog, table);
    let out = assemble_model(prog, table)->Ok_0;
    let lb = instr_bytes(prog[i], table)->Ok_0;
    assert(out.subrange(3 * i, 3 * i + 3) == lb);
    assert(out[3 * i] == lb[0]);
    assert(out[3 * i + 1] == lb[1]);
    assert(out[3 * i + 2] == lb[2]);
    let addr = (3 * table[name]) as u16;
    assert(lb[1] == (addr / 256) as u8 && lb[2] == (addr % 256) as u8);
    let db = instr_bytes(prog[k as int], table)->Ok_0;
    assert(out.subrange(3 * (k as int), 3 * (k as int) + 3) == db);
    assert(out[3 * (k as int) + 1] == db[1]);
    assert(out[3 * (k as int) + 2] == db[2]);
    assert(db[1] == (v / 256) as u8 && db[2] == (v % 256) as u8);
}

/// Whether a token is an instruction mnemonic.
pub open spec fn is_mnemonic(t: TokenModel) -> bool {
    match t {
        TokenModel::HLT => true,
        TokenModel::ADD => true,
        TokenModel::SUB => true,
        TokenModel::LDA => true,
        TokenModel::STA => true,
        TokenModel::BRA => true,
        TokenModel::BRZ => true,
        TokenModel::BGT => true,
        TokenModel::BLT => true,
        TokenModel::INP => true,
        TokenModel::OUT => true,
        TokenModel::OTC => true,
        TokenModel::DAT => true,
        TokenModel::CALL => true,
        TokenModel::RET => true,
        _ => false,
    }
}

/// The number of mnemonic tokens before the first end-of-input marker: one
/// per instruction-bearing statement, since labels, numbers, and newlines
/// are never mnemonics.
pub open spec fn mnemonic_count(toks: Seq<TokenModel>, pos: int) -> int
    decreases toks.len() - pos,
{
    if pos >= toks.len() || toks[pos] is EOF {
        0
    } else if is_mnemonic(toks[pos]) {
        1 + mnemonic_count(toks, pos + 1)
    } else {
        mnemonic_count(toks, pos + 1)
    }
}

/// A successful parse yields exactly one instruction per mnemonic token.
pub proof fn lemma_parse_counts_mnemonics(
    toks: Seq<TokenModel>,
    pos: int,
    instr_no: int,
    prog: Seq<InstructionModel>,
    table: Map<Seq<char>, u16>,
)
    requires
        parse_model(toks, pos, instr_no, prog, table) is Ok,
    ensures
        parse_model(toks, pos, instr_no, prog, table)->Ok_0.0.len() == prog.len()
            + mnemonic_count(toks, pos),
    decreases toks.len() - pos,
{
    if pos >= toks.len() || toks[pos] is EOF {
    } else {
        match toks[pos] {
            TokenModel::Label(name) => {
                lemma_parse_counts_mnemonics(
                    toks,
                    pos + 1,
                    instr_no,
                    prog,
                    table.insert(name, instr_no as u16),
                );
            },
            TokenModel::NEWLINE => {
                lemma_parse_counts_mnemonics(toks, pos + 1, instr_no, prog, table);
            },
            _ => {
                let (instr, q) = crate::assembler::parser::instr_model_at(toks, pos)->Ok_0;
                assert(is_mnemonic(toks[pos]));
                if toks[q + 1] is NEWLINE {
                    lemma_parse_counts_mnemonics(
                        toks,
                        q + 2,
                        instr_no + 1,
                        prog.push(instr),
                        table,
                    );
                    if q == pos + 1 {
                        assert(!is_mnemonic(toks[pos + 1]));
                        assert(mnemonic_count(toks, pos + 1) == mnemonic_count(toks, pos + 2));
                    }
                    assert(!is_mnemonic(toks[q + 1]));
                    assert(mnemonic_count(toks, q + 1) == mnemonic_count(toks, q + 2));
                } else {
                    // The instruction is the last statement: the end-of-input
                    // marker follows it.
                    assert(toks[q + 1] is EOF);
                    if q == pos + 1 {
                        assert(!is_mnemonic(toks[pos + 1]));
                        assert(mnemonic_count(toks, pos + 1) == mnemonic_count(toks, pos + 2));
                    }
                    assert(mnemonic_count(toks, q + 1) == 0);
                }
            },
        }
    }
}

/// Law: for an assembly text that tokenizes, parses, and assembles, the
/// byte image holds exactly three bytes for each instruction-bearing
/// statement of the text, and its length is a multiple of three.
pub proof fn lemma_round_trip_length(
    text: Seq<char>,
    toks: Seq<TokenModel>,
    prog: Seq<InstructionModel>,
    table: Map<Seq<char>, u16>,
    out: Seq<u8>,
)
    requires
        lex_model(text, 0) == Ok::<Seq<TokenModel>, crate::assembler::lexer::LexError>(toks),
        parse_model(toks, 0, 0, Seq::<InstructionModel>::empty(), Map::<Seq<char>, u16>::empty())
            == Ok::<(Seq<InstructionModel>, Map<Seq<char>, u16>), crate::assembler::parser::AsmParseError>((prog, table)),
        assemble_model(prog, table) == Ok::<Seq<u8>, AssembleError>(out),
    ensures
        out.len() == 3 * mnemonic_count(toks, 0),
        out.len() % 3 == 0,
{
    lemma_parse_counts_mnemonics(
        toks,
        0,
        0,
        Seq::<InstructionModel>::empty(),
        Map::<Seq<char>, u16>::empty(),
    );
    lemma_assemble_parts(prog, table);
}

/// The state of the emitter: the parsed program and its symbol table.
pub struct CompilerModel {
    pub program: Seq<InstructionModel>,
    pub table: Map<Seq<char>, u16>,
}

pub struct Compiler {
    program: Vec<Instruction>,
    symbol_table: SymbolTable,
}

impl View for Compiler {
    type V = CompilerModel;

    closed spec fn view(&self) -> CompilerModel {
        CompilerModel { program: instrs_view(self.program@), table: self.symbol_table@ }
    }
}

impl Compiler {
    /// An emitter over the given program and symbol table.
    pub fn new(program: Vec<Instruction>, symbol_table: SymbolTable) -> (r: Compiler)
        ensures
            r@.program == instrs_view(program@),
            r@.table == symbol_table@,
    {
        Compiler { program, symbol_table }
    }

    /// Emits the byte image of the program, as `assemble_model` describes:
    /// three bytes per instruction, or the first unresolvable operand's
    /// fault.
    pub fn compile(&mut self) -> (r: Result<Vec<u8>, AssembleError>)
        ensures
            final(self)@ == old(self)@,
            match assemble_model(old(self)@.program, old(self)@.table) {
                Ok(bytes) => r matches Ok(out) && out@ == bytes && out@.len() == 3 * old(
                    self,
                )@.program.len(),
                Err(e) => r == Err::<Vec<u8>, AssembleError>(e),
            },
    {
        let ghost prog = self@.program;
        let ghost table = self@.table;
        let mut out: Vec<u8> = Vec::new();
        let mut i: usize = 0;
        proof {
            assert(prog.skip(0) =~= prog);
        }
        while i < self.program.len()
            invariant
                i <= self.program@.len(),
                self@.program == prog,
                self@.table == table,
                self@ == old(self)@,
                prog.len() == self.program@.len(),
                out@.len() == 3 * i,
                match assemble_model(prog.skip(i as int), table) {
                    Ok(rest) => assemble_model(prog, table) == Ok::<Seq<u8>, AssembleError>(
                        out@ + rest,
                    ),
                    Err(e) => assemble_model(prog, table) == Err::<Seq<u8>, AssembleError>(e),
                },
            decreases self.program@.len() - i,
        {
            let ghost pre_out = out@;
            let bin = match self.compile_instruction(&self.program[i]) {
                Ok(b) => b,
                Err(e) => {
                    proof {
                        assert(prog.skip(i as int)[0] == prog[i as int]);
                    }
                    return Err(e);
                },
            };
            proof {
                assert(prog.skip(i as int)[0] == prog[i as int]);
                assert(prog.skip(i as int).skip(1) =~= prog.skip(i + 1));
            }
            let b0 = bin.0;
            let b1 = bin.1;
            let b2 = bin.2;
            out.push(b0);
            out.push(b1);
            out.push(b2);
            proof {
                assert(out@ =~= pre_out + seq![b0, b1, b2]);
                match assemble_model(prog.skip(i + 1), table) {
                    Ok(rest) => {
                        assert(pre_out + (seq![b0, b1, b2] + rest) =~= out@ + rest);
                    },
                    Err(_) => {},
                }
            }
            i = i + 1;
        }
        proof {
            assert(prog.skip(prog.len() as int) =~= Seq::<InstructionModel>::empty());
            assert(out@ + Seq::<u8>::empty() =~= out@);
        }
        Ok(out)
    }

    /// Emits the three bytes of one instruction, as `instr_bytes` describes.
    fn compile_instruction(&self, instruction: &Instruction) -> (r: Result<
        (u8, u8, u8),
        AssembleError,
    >)
        ensures
            match instr_bytes(instruction@, self@.table) {
                Ok(b) => r matches Ok(t) && b == seq![t.0, t.1, t.2],
                Err(e) => r == Err::<(u8, u8, u8), AssembleError>(e),
            },
    {
        let (opcode, operand) = match instruction {
            Instruction::HLT => (0u8, None),
            Instruction::ADD(t) => (1u8, Some(t)),
            Instruction::SUB(t) => (2u8, Some(t)),
            Instruction::LDA(t) => (3u8, Some(t)),
            Instruction::STA(t) => (4u8, Some(t)),
            Instruction::BRA(t) => (5u8, Some(t)),
            Instruction::BRZ(t) => (6u8, Some(t)),
            Instruction::BGT(t) => (7u8, Some(t)),
            Instruction::BLT(t) => (11u8, Some(t)),
            Instruction::INP => (8u8, None),
            Instruction::OUT => (9u8, None),
            Instruction::OTC => (10u8, None),
            Instruction::DAT(t) => (12u8, Some(t)),
            Instruction::CALL(t) => (13u8, Some(t)),
            Instruction::RET => (14u8, None),
        };
        let bin_operand: u16 = match operand {
            None => 0,
            Some(t) => match self.compile_operand(t) {
                Ok(v) => v,
                Err(e) => {
                    return Err(e);
                },
            },
        };
        Ok((opcode, (bin_operand / 256) as u8, (bin_operand % 256) as u8))
    }

    /// Resolves one operand token, as `resolve_operand` describes.
    fn compile_operand(&self, operand: &Token) -> (r: Result<u16, AssembleError>)
        ensures
            r == resolve_operand(operand@, self@.table),
    {
        match operand {
            Token::Number(value) => Ok(*value),
            Token::Label(identifier) => match self.symbol_table.get(identifier) {
                Some(address) => {
                    if address <= 21845 {
                        Ok(address * 3)
                    } else {
                        Err(AssembleError::AddressOverflow)
                    }
                },
                None => Err(AssembleError::UndefinedLabel),
            },
            _ => Err(AssembleError::BadOperandToken),
        }
    }
}

} // verus!
