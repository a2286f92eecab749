//! Fetch-decode-execute machinery. Every instruction is three bytes:
//! an opcode and a big-endian sixteen-bit operand. The machine owns a flat
//! byte memory, an accumulator, a program counter, a negative and a carry
//! flag, and a stack of return addresses.

use vstd::prelude::*;
use crate::numerals::{all_digits, digits_val, is_digit};

verus! {

/// The number of bytes of machine memory.
pub const MEMORY_SIZE: usize = 65535;

/// What a single executed instruction asks of the outside world.
#[derive(Clone, Copy, Debug, PartialEq, Eq, Structural)]
pub enum Effect {
    /// Execution continues with no observable effect.
    Proceed,
    /// The machine halted.
    Halt,
    /// The accumulator is to be printed as a decimal number.
    Output(u16),
    /// The accumulator is to be printed as a character.
    OutputChar(u16),
    /// The machine awaits one line of input; feed it with `feed_input`.
    Input,
}

/// A fatal condition raised while executing.
#[derive(Clone, Copy, Debug, PartialEq, Eq, Structural)]
pub enum VmError {
    /// The opcode at the program counter is not part of the instruction set.
    UnknownOpcode,
    /// A return was executed with an empty call stack.
    StackUnderflow,
    /// The program counter points past the end of memory.
    PcOutOfRange,
    /// An operand addresses a cell whose payload lies past the end of memory.
    OperandOutOfRange,
    /// An input line is neither a sixteen-bit decimal number nor one character.
    InputNotNumeric,
}

/// One item of the output trace an emulation produces.
#[derive(Clone, Copy, Debug, PartialEq, Eq, Structural)]
pub enum OutputEvent {
    /// A value printed as a decimal number.
    Num(u16),
    /// A value printed as a character.
    Chr(u16),
}

/// How a bounded emulation ended.
#[derive(Clone, Copy, Debug, PartialEq, Eq, Structural)]
pub enum RunStatus {
    /// The halt instruction was reached.
    Halted,
    /// The cycle budget ran out first.
    OutOfCycles,
    /// An input instruction ran with no input lines left.
    NeedsInput,
    /// Execution raised a fatal condition.
    Failed(VmError),
}

/// The mathematical state of the machine.
#[verifier::ext_equal]
pub struct MachineModel {
    pub memory: Seq<u8>,
    pub stack: Seq<u16>,
    pub pc: u16,
    pub acc: u16,
    pub hlt: bool,
    pub n: bool,
    pub c: bool,
}

pub struct Machine {
    pub memory: Vec<u8>,
    stack: Vec<u16>,
    pc: u16,
    acc: u16,
    hlt: bool,
    n: bool,
    c: bool,
}

impl View for Machine {
    type V = MachineModel;

    closed spec fn view(&self) -> MachineModel {
        MachineModel {
            memory: self.memory@,
            stack: self.stack@,
            pc: self.pc,
            acc: self.acc,
            hlt: self.hlt,
            n: self.n,
            c: self.c,
        }
    }
}

/// The sixteen-bit big-endian value stored in the two bytes following offset `a`.
pub open spec fn m16(mem: Seq<u8>, a: int) -> u16 {
    ((mem[a + 1] as int) * 256 + (mem[a + 2] as int)) as u16
}

/// The machine state as it leaves `Machine::new`.
pub open spec fn initial_model() -> MachineModel {
    MachineModel {
        memory: Seq::new(MEMORY_SIZE as nat, |i: int| 0u8),
        stack: Seq::empty(),
        pc: 0,
        acc: 0,
        hlt: false,
        n: false,
        c: false,
    }
}

/// The effect of one fetch-decode-execute cycle on the machine state.
pub open spec fn step_model(m: MachineModel) -> (MachineModel, Result<Effect, VmError>) {
    if m.pc as int + 3 > m.memory.len() {
        (m, Err(VmError::PcOutOfRange))
    } else {
        let opcode = m.memory[m.pc as int];
        let operand = m16(m.memory, m.pc as int);
        let m1 = MachineModel { pc: ((m.pc + 3) % 65536) as u16, ..m };
        if opcode == 0 {  // HLT
            (MachineModel { hlt: true, ..m1 }, Ok(Effect::Halt))
        } else if opcode == 1 {  // ADD
            if operand as int + 3 > m.memory.len() {
                (m1, Err(VmError::OperandOutOfRange))
            } else {
                let v = m16(m.memory, operand as int);
                (
                    MachineModel {
                        acc: ((m.acc as int + v as int) % 65536) as u16,
                        c: m.acc as int + v as int > 65535,
                        n: false,
                        ..m1
                    },
                    Ok(Effect::Proceed),
                )
            }
        } else if opcode == 2 {  // SUB
            if operand as int + 3 > m.memory.len() {
                (m1, Err(VmError::OperandOutOfRange))
            } else {
                let v = m16(m.memory, operand as int);
                (
                    MachineModel {
                        acc: ((m.acc as int - v as int) % 65536) as u16,
                        n: v > m.acc,
                        c: false,
                        ..m1
                    },
                    Ok(Effect::Proceed),
                )
            }
        } else if opcode == 3 {  // LDA
            if operand as int + 3 > m.memory.len() {
                (m1, Err(VmError::OperandOutOfRange))
            } else {
                (
                    MachineModel { acc: m16(m.memory, operand as int), ..m1 },
                    Ok(Effect::Proceed),
                )
            }
        } else if opcode == 4 {  // STA
            if operand as int + 3 > m.memory.len() {
                (m1, Err(VmError::OperandOutOfRange))
            } else {
                let hi = (m.acc as int / 256) as u8;
                let lo = (m.acc as int % 256) as u8;
                (
                    MachineModel {
                        memory: m.memory.update(operand as int + 1, hi).update(
                            operand as int + 2,
                            lo,
                        ),
                        ..m1
                    },
                    Ok(Effect::Proceed),
                )
            }
        } else if opcode == 5 {  // BRA
            (MachineModel { pc: operand, ..m1 }, Ok(Effect::Proceed))
        } else if opcode == 6 {  // BRZ
            (
                MachineModel { pc: if m.acc == 0 { operand } else { m1.pc }, ..m1 },
                Ok(Effect::Proceed),
            )
        } else if opcode == 7 {  // BGT
            (
                MachineModel { pc: if m.acc > 0 && !m.n { operand } else { m1.pc }, ..m1 },
                Ok(Effect::Proceed),
            )
        } else if opcode == 11 {  // BLT
            (
                MachineModel { pc: if m.n { operand } else { m1.pc }, ..m1 },
                Ok(Effect::Proceed),
            )
        } else if opcode == 8 {  // INP
            (m1, Ok(Effect::Input))
        } else if opcode == 9 {  // OUT
            (m1, Ok(Effect::Output(m.acc)))
        } else if opcode == 10 {  // OTC
            (m1, Ok(Effect::OutputChar(m.acc)))
        } else if opcode == 12 {  // DAT
            (m1, Ok(Effect::Proceed))
        } else if opcode == 13 {  // CALL
            (
                MachineModel { stack: m.stack.push(m1.pc), pc: operand, ..m1 },
                Ok(Effect::Proceed),
            )
        } else if opcode == 14 {  // RET
            if m.stack.len() == 0 {
                (m1, Err(VmError::StackUnderflow))
            } else {
                (
                    MachineModel { stack: m.stack.drop_last(), pc: m.stack.last(), ..m1 },
                    Ok(Effect::Proceed),
                )
            }
        } else {
            (m1, Err(VmError::UnknownOpcode))
        }
    }
}

/// What a bounded emulation from a given state produces: the final state,
/// the trace of outputs, and how the run ended.
#[verifier::ext_equal]
pub struct RunOutcome {
    pub m: MachineModel,
    pub outputs: Seq<OutputEvent>,
    pub status: RunStatus,
}

/// Runs the machine until it halts, fails, exhausts the given input lines,
/// or spends the given number of cycles.
pub open spec fn run_model(m: MachineModel, inputs: Seq<u16>, fuel: nat) -> RunOutcome
    decreases fuel,
{
    if m.hlt {
        RunOutcome { m, outputs: Seq::empty(), status: RunStatus::Halted }
    } else if fuel == 0 {
        RunOutcome { m, outputs: Seq::empty(), status: RunStatus::OutOfCycles }
    } else {
        let (m1, r) = step_model(m);
        match r {
            Err(e) => RunOutcome { m: m1, outputs: Seq::empty(), status: RunStatus::Failed(e) },
            Ok(Effect::Input) => {
                if inputs.len() == 0 {
                    RunOutcome { m: m1, outputs: Seq::empty(), status: RunStatus::NeedsInput }
                } else {
                    run_model(
                        MachineModel { acc: inputs[0], ..m1 },
                        inputs.skip(1),
                        (fuel - 1) as nat,
                    )
                }
            },
            Ok(Effect::Output(v)) => {
                let rest = run_model(m1, inputs, (fuel - 1) as nat);
                RunOutcome {
                    m: rest.m,
                    outputs: seq![OutputEvent::Num(v)] + rest.outputs,
                    status: rest.status,
                }
            },
            Ok(Effect::OutputChar(v)) => {
                let rest = run_model(m1, inputs, (fuel - 1) as nat);
                RunOutcome {
                    m: rest.m,
                    outputs: seq![OutputEvent::Chr(v)] + rest.outputs,
                    status: rest.status,
                }
            },
            Ok(Effect::Halt) | Ok(Effect::Proceed) => run_model(m1, inputs, (fuel - 1) as nat),
        }
    }
}

impl Machine {
    /// A machine with zeroed memory, cleared registers and flags, and an
    /// empty call stack.
    pub fn new() -> (r: Machine)
        ensures
            r@ =~= initial_model(),
    {
        let memory: Vec<u8> = vec![0u8; MEMORY_SIZE];
        let r = Machine {
            memory,
            stack: Vec::new(),
            pc: 0,
            acc: 0,
            hlt: false,
            c: false,
            n: false,
        };
        proof {
            assert(forall|i: int|
                0 <= i < MEMORY_SIZE ==> r.memory@[i] == initial_model().memory[i]);
        }
        r
    }

    /// Copies a program image into the bottom of memory.
    pub fn load(&mut self, program: Vec<u8>)
        requires
            program@.len() <= old(self)@.memory.len(),
        ensures
            final(self)@ =~= (MachineModel {
                memory: program@ + old(self)@.memory.skip(program@.len() as int),
                ..old(self)@
            }),
    {
        let mut position: usize = 0;
        while position < program.len()
            invariant
                position <= program@.len() <= self.memory@.len(),
                self@ =~= (MachineModel {
                    memory: old(self)@.memory.take(position as int).add(
                        program@.subrange(0, position as int),
                    ).skip(position as int).add(old(self)@.memory.skip(position as int)).take(
                        old(self)@.memory.len() as int,
                    ),
                    ..old(self)@
                }),
                self.memory@.len() == old(self)@.memory.len(),
                forall|i: int| 0 <= i < position ==> self.memory@[i] == program@[i],
                forall|i: int|
                    position <= i < self.memory@.len() ==> self.memory@[i]
                        == old(self)@.memory[i],
            decreases program@.len() - position,
        {
            let byte = program[position];
            self.memory[position] = byte;
            position = position + 1;
        }
        proof {
            assert(self@.memory =~= program@ + old(self)@.memory.skip(program@.len() as int));
        }
    }

    /// The program counter.
    pub fn pc(&self) -> (r: u16)
        ensures
            r == self@.pc,
    {
        self.pc
    }

    /// The accumulator.
    pub fn acc(&self) -> (r: u16)
        ensures
            r == self@.acc,
    {
        self.acc
    }

    /// The negative flag.
    pub fn negative_flag(&self) -> (r: bool)
        ensures
            r == self@.n,
    {
        self.n
    }

    /// The carry flag.
    pub fn carry_flag(&self) -> (r: bool)
        ensures
            r == self@.c,
    {
        self.c
    }

    /// Whether the machine has halted.
    pub fn halted(&self) -> (r: bool)
        ensures
            r == self@.hlt,
    {
        self.hlt
    }

    /// The sixteen-bit value whose two payload bytes follow byte offset `addr`.
    pub fn read_cell(&self, addr: u16) -> (r: u16)
        requires
            addr as int + 3 <= self@.memory.len(),
        ensures
            r == m16(self@.memory, addr as int),
    {
        let hi = self.memory[addr as usize + 1];
        let lo = self.memory[addr as usize + 2];
        (hi as u16) * 256 + (lo as u16)
    }

    fn address_operand(&self, operand: u16) -> (r: u16)
        requires
            operand as int + 3 <= self@.memory.len(),
        ensures
            r == m16(self@.memory, operand as int),
    {
        let hi = self.memory[operand as usize + 1];
        let lo = self.memory[operand as usize + 2];
        (hi as u16) * 256 + (lo as u16)
    }

    /// Performs one fetch-decode-execute cycle, as `step_model` describes.
    pub fn clock_cycle(&mut self) -> (r: Result<Effect, VmError>)
        ensures
            (final(self)@, r) == step_model(old(self)@),
    {
        if self.pc as usize + 3 > self.memory.len() {
            return Err(VmError::PcOutOfRange);
        }
        let opcode: u8 = self.memory[self.pc as usize];
        let operand_hi = self.memory[self.pc as usize + 1];
        let operand_lo = self.memory[self.pc as usize + 2];
        let operand: u16 = (operand_hi as u16) * 256 + (operand_lo as u16);
        assert(operand == m16(self@.memory, self.pc as int));
        self.pc = u16::wrapping_add(self.pc, 3);

        match opcode {
            0 => {
                self.hlt = true;
                assert(self@ =~= step_model(old(self)@).0);
                Ok(Effect::Halt)
            },
            1 => {
                if operand as usize + 3 > self.memory.len() {
                    assert(self@ =~= step_model(old(self)@).0);
                    return Err(VmError::OperandOutOfRange);
                }
                let v = self.address_operand(operand);
                self.c = (self.acc as u32) + (v as u32) > 65535;
                self.n = false;
                self.acc = u16::wrapping_add(self.acc, v);
                assert(self@ =~= step_model(old(self)@).0);
                Ok(Effect::Proceed)
            },
            2 => {
                if operand as usize + 3 > self.memory.len() {
                    assert(self@ =~= step_model(old(self)@).0);
                    return Err(VmError::OperandOutOfRange);
                }
                let v = self.address_operand(operand);
                self.n = v > self.acc;
                self.c = false;
                self.acc = u16::wrapping_sub(self.acc, v);
                assert(self@ =~= step_model(old(self)@).0);
                Ok(Effect::Proceed)
            },
            3 => {
                if operand as usize + 3 > self.memory.len() {
                    assert(self@ =~= step_model(old(self)@).0);
                    return Err(VmError::OperandOutOfRange);
                }
                self.acc = self.address_operand(operand);
                assert(self@ =~= step_model(old(self)@).0);
                Ok(Effect::Proceed)
            },
            4 => {
                if operand as usize + 3 > self.memory.len() {
                    assert(self@ =~= step_model(old(self)@).0);
                    return Err(VmError::OperandOutOfRange);
                }
                let hi = (self.acc / 256) as u8;
                let lo = (self.acc % 256) as u8;
                self.memory[operand as usize + 1] = hi;
                self.memory[operand as usize + 2] = lo;
                assert(self@ =~= step_model(old(self)@).0);
                Ok(Effect::Proceed)
            },
            5 => {
                self.pc = operand;
                assert(self@ =~= step_model(old(self)@).0);
                Ok(Effect::Proceed)
            },
            6 => {
                if self.acc == 0 {
                    self.pc = operand;
                }
                assert(self@ =~= step_model(old(self)@).0);
                Ok(Effect::Proceed)
            },
            7 => {
                if self.acc > 0 && !self.n {
                    self.pc = operand;
                }
                assert(self@ =~= step_model(old(self)@).0);
                Ok(Effect::Proceed)
            },
            11 => {
                if self.n {
                    self.pc = operand;
                }
                assert(self@ =~= step_model(old(self)@).0);
                Ok(Effect::Proceed)
            },
            8 => {
                assert(self@ =~= step_model(old(self)@).0);
                Ok(Effect::Input)
            },
            9 => {
                assert(self@ =~= step_model(old(self)@).0);
                Ok(Effect::Output(self.acc))
            },
            10 => {
                assert(self@ =~= step_model(old(self)@).0);
                Ok(Effect::OutputChar(self.acc))
            },
            12 => {
                assert(self@ =~= step_model(old(self)@).0);
                Ok(Effect::Proceed)
            },
            13 => {
                self.stack.push(self.pc);
                self.pc = operand;
                assert(self@ =~= step_model(old(self)@).0);
                Ok(Effect::Proceed)
            },
            14 => {
                match self.stack.pop() {
                    Some(addr) => {
                        self.pc = addr;
                        assert(self@ =~= step_model(old(self)@).0);
                        Ok(Effect::Proceed)
                    },
                    None => {
                        assert(self@ =~= step_model(old(self)@).0);
                        Err(VmError::StackUnderflow)
                    },
                }
            },
            _ => {
                assert(self@ =~= step_model(old(self)@).0);
                Err(VmError::UnknownOpcode)
            },
        }
    }

    /// Stores one line of input, already decoded, into the accumulator.
    pub fn feed_input(&mut self, value: u16)
        ensures
            final(self)@ =~= (MachineModel { acc: value, ..old(self)@ }),
    {
        self.acc = value;
    }

    /// Runs cycles until the machine halts, fails, needs input that the given
    /// lines no longer provide, or has spent `max_cycles` cycles, exactly as
    /// `run_model` describes.
    pub fn emulate(&mut self, inputs: &Vec<u16>, max_cycles: u64) -> (r: (
        Vec<OutputEvent>,
        RunStatus,
    ))
        ensures
            ({
                let ro = run_model(old(self)@, inputs@, max_cycles as nat);
                final(self)@ == ro.m && r.0@ == ro.outputs && r.1 == ro.status
            }),
    {
        let mut outputs: Vec<OutputEvent> = Vec::new();
        let mut next_input: usize = 0;
        let mut cycles: u64 = 0;
        proof {
            assert(inputs@.skip(0) =~= inputs@);
            assert(Seq::<OutputEvent>::empty() + run_model(self@, inputs@, max_cycles as nat).outputs
                =~= run_model(self@, inputs@, max_cycles as nat).outputs);
        }
        loop
            invariant
                next_input <= inputs@.len(),
                cycles <= max_cycles,
                ({
                    let ro = run_model(old(self)@, inputs@, max_cycles as nat);
                    let rest = run_model(
                        self@,
                        inputs@.skip(next_input as int),
                        (max_cycles - cycles) as nat,
                    );
                    ro.m == rest.m && ro.outputs =~= outputs@ + rest.outputs && ro.status
                        == rest.status
                }),
            decreases max_cycles - cycles,
        {
            if self.hlt {
                assert(run_model(self@, inputs@.skip(next_input as int), (max_cycles
                    - cycles) as nat) =~= (RunOutcome {
                    m: self@,
                    outputs: Seq::empty(),
                    status: RunStatus::Halted,
                }));
                assert(outputs@ + Seq::<OutputEvent>::empty() =~= outputs@);
                return (outputs, RunStatus::Halted);
            }
            if cycles == max_cycles {
                assert(outputs@ + Seq::<OutputEvent>::empty() =~= outputs@);
                return (outputs, RunStatus::OutOfCycles);
            }
            let ghost pre = self@;
            let ghost rem_inputs = inputs@.skip(next_input as int);
            let ghost fuel = (max_cycles - cycles) as nat;
            let step = self.clock_cycle();
            match step {
                Err(e) => {
                    assert(outputs@ + Seq::<OutputEvent>::empty() =~= outputs@);
                    return (outputs, RunStatus::Failed(e));
                },
                Ok(Effect::Input) => {
                    if next_input >= inputs.len() {
                        assert(rem_inputs.len() == 0);
                        assert(outputs@ + Seq::<OutputEvent>::empty() =~= outputs@);
                        return (outputs, RunStatus::NeedsInput);
                    }
                    let v = inputs[next_input];
                    self.feed_input(v);
                    next_input = next_input + 1;
                    proof {
                        assert(rem_inputs[0] == v);
                        assert(rem_inputs.skip(1) =~= inputs@.skip(next_input as int));
                        assert(run_model(pre, rem_inputs, fuel) =~= run_model(
                            self@,
                            inputs@.skip(next_input as int),
                            (fuel - 1) as nat,
                        ));
                    }
                },
                Ok(Effect::Output(v)) => {
                    let ghost old_outputs = outputs@;
                    outputs.push(OutputEvent::Num(v));
                    proof {
                        let rest = run_model(self@, rem_inputs, (fuel - 1) as nat);
                        assert(run_model(pre, rem_inputs, fuel).outputs =~= seq![
                            OutputEvent::Num(v),
                        ] + rest.outputs);
                        assert(old_outputs + run_model(pre, rem_inputs, fuel).outputs =~= outputs@
                            + rest.outputs);
                    }
                },
                Ok(Effect::OutputChar(v)) => {
                    let ghost old_outputs = outputs@;
                    outputs.push(OutputEvent::Chr(v));
                    proof {
                        let rest = run_model(self@, rem_inputs, (fuel - 1) as nat);
                        assert(run_model(pre, rem_inputs, fuel).outputs =~= seq![
                            OutputEvent::Chr(v),
                        ] + rest.outputs);
                        assert(old_outputs + run_model(pre, rem_inputs, fuel).outputs =~= outputs@
                            + rest.outputs);
                    }
                },
                Ok(Effect::Halt) | Ok(Effect::Proceed) => {},
            }
            cycles = cycles + 1;
        }
    }
}

/// Whether a character counts as blank space around an input line.
pub open spec fn is_space_char(c: char) -> bool {
    c == ' ' || c == '\t' || c == '\n' || c == '\r' || c == '\x0c'
}

/// The line with its leading blank space removed.
pub open spec fn trim_start_spec(s: Seq<char>) -> Seq<char>
    decreases s.len(),
{
    if s.len() > 0 && is_space_char(s[0]) {
        trim_start_spec(s.skip(1))
    } else {
        s
    }
}

/// The line with its trailing blank space removed.
pub open spec fn trim_end_spec(s: Seq<char>) -> Seq<char>
    decreases s.len(),
{
    if s.len() > 0 && is_space_char(s.last()) {
        trim_end_spec(s.drop_last())
    } else {
        s
    }
}

/// The line with blank space removed from both ends.
pub open spec fn trimmed(s: Seq<char>) -> Seq<char> {
    trim_end_spec(trim_start_spec(s))
}

/// The accumulator value an input line stands for: its value as a decimal
/// number when the trimmed line is one; otherwise, when the trimmed line is
/// a single character, that character's codepoint, truncated to sixteen bits.
pub open spec fn input_line_value(s: Seq<char>) -> Result<u16, VmError> {
    let t = trimmed(s);
    if t.len() > 0 && all_digits(t) && digits_val(t) <= u16::MAX {
        Ok(digits_val(t) as u16)
    } else if t.len() == 1 {
        Ok(t[0] as u16)
    } else {
        Err(VmError::InputNotNumeric)
    }
}

/// Decodes one line of input, as `input_line_value` describes.
pub fn decode_input_line(line: &Vec<char>) -> (r: Result<u16, VmError>)
    ensures
        r == input_line_value(line@),
{
    let mut start: usize = 0;
    let mut end: usize = line.len();
    proof {
        assert(line@.skip(0) =~= line@);
    }
    while start < end && is_space(line[start])
        invariant
            start <= end <= line@.len(),
            trim_start_spec(line@) == trim_start_spec(line@.skip(start as int)),
            end == line@.len(),
        decreases end - start,
    {
        proof {
            assert(line@.skip(start as int)[0] == line@[start as int]);
            assert(line@.skip(start as int).skip(1) =~= line@.skip(start as int + 1));
        }
        start = start + 1;
    }
    assert(trim_start_spec(line@) =~= line@.skip(start as int));
    let ghost t0 = line@.skip(start as int);
    while end > start && is_space(line[end - 1])
        invariant
            start <= end <= line@.len(),
            trim_start_spec(line@) == t0,
            t0 == line@.skip(start as int),
            trim_end_spec(t0) == trim_end_spec(line@.subrange(start as int, end as int)),
        decreases end - start,
    {
        proof {
            let cur = line@.subrange(start as int, end as int);
            assert(cur.last() == line@[end - 1]);
            assert(cur.drop_last() =~= line@.subrange(start as int, end as int - 1));
        }
        end = end - 1;
    }
    proof {
        let cur = line@.subrange(start as int, end as int);
        assert(t0 =~= line@.subrange(start as int, line@.len() as int));
        assert(trimmed(line@) == trim_end_spec(cur));
        if !(cur.len() > 0 && is_space_char(cur.last())) {
            assert(trim_end_spec(cur) == cur);
        }
        assert(trimmed(line@) =~= line@.subrange(start as int, end as int));
    }
    let ghost t = trimmed(line@);

    // A run of digits is read as a decimal number.
    let mut i: usize = start;
    let mut digits_only = start < end;
    while i < end
        invariant
            start <= i <= end <= line@.len(),
            digits_only ==> start < end,
            t == line@.subrange(start as int, end as int),
            digits_only ==> forall|j: int| start <= j < i ==> is_digit(#[trigger] line@[j]),
            !digits_only ==> !all_digits(t) || t.len() == 0,
        decreases end - i,
    {
        let c = line[i];
        if !(c >= '0' && c <= '9') {
            proof {
                assert(t[i - start] == line@[i as int]);
                assert(!is_digit(t[i - start]));
            }
            digits_only = false;
        }
        i = i + 1;
    }
    if digits_only {
        proof {
            assert(forall|j: int| 0 <= j < t.len() ==> t[j] == line@[start + j]);
            assert(all_digits(t));
        }
        match crate::numerals::parse_u16_digits(line, start, end) {
            Some(v) => {
                return Ok(v);
            },
            None => {
                // The number does not fit; a one-character line still counts
                // as a codepoint, though a single digit never overflows.
                if end - start == 1 {
                    let c = line[start];
                    assert(t[0] == c);
                    return Ok(#[verifier::truncate] (c as u16));
                }
                return Err(VmError::InputNotNumeric);
            },
        }
    } else {
        if end - start == 1 {
            let c = line[start];
            assert(t[0] == c);
            return Ok(#[verifier::truncate] (c as u16));
        }
        return Err(VmError::InputNotNumeric);
    }
}

/// Whether a character counts as blank space, decided at run time.
fn is_space(c: char) -> (r: bool)
    ensures
        r == is_space_char(c),
{
    c == ' ' || c == '\t' || c == '\n' || c == '\r' || c == '\x0c'
}

} // verus!
