use lmc::machine::machine::{
    decode_input_line, Machine, OutputEvent, RunStatus, VmError,
};

#[test]
fn test_clock_cycle() {
    let mut m = Machine::new();
    m.load(vec![1, 0, 3, 0, 0, 3]);
    m.clock_cycle().unwrap();
    assert_eq!(m.pc(), 3);
    assert_eq!(m.acc(), 3);
}

#[test]
fn test_one_label_load_runs() {
    // lda ONE / ONE dat 1, with a halt injected after, leaves 1 in the
    // accumulator.
    let mut m = Machine::new();
    m.load(vec![3, 0, 3, 12, 0, 1, 0, 0, 0]);
    let (outputs, status) = m.emulate(&vec![], 100);
    assert_eq!(status, RunStatus::Halted);
    assert_eq!(outputs, vec![]);
    assert_eq!(m.acc(), 1);
}

#[test]
fn test_flags() {
    // Two additions whose sum exceeds sixteen bits set the carry flag and
    // wrap the accumulator; a subtraction whose operand exceeds the
    // accumulator sets the negative flag.
    let mut m = Machine::new();
    m.load(vec![1, 0, 12, 1, 0, 12, 2, 0, 15, 0, 0, 0, 12, 0x90, 0x00, 12, 0x30, 0x00]);
    m.clock_cycle().unwrap();
    assert_eq!(m.acc(), 0x9000);
    assert!(!m.carry_flag());
    m.clock_cycle().unwrap();
    assert!(m.carry_flag());
    assert!(!m.negative_flag());
    assert_eq!(m.acc(), 0x2000);
    m.clock_cycle().unwrap();
    assert!(m.negative_flag());
    assert!(!m.carry_flag());
    assert_eq!(m.acc(), 0xF000);
}

#[test]
fn test_store_writes_payload_bytes() {
    // lda ONE; sta 9 writes the accumulator into the two bytes after
    // offset 9, where a data cell's payload lives.
    let mut m = Machine::new();
    m.load(vec![3, 0, 6, 4, 0, 9, 12, 1, 2, 12, 0, 0, 0, 0, 0]);
    m.clock_cycle().unwrap();
    assert_eq!(m.acc(), 0x0102);
    m.clock_cycle().unwrap();
    assert_eq!(m.read_cell(9), 0x0102);
}

#[test]
fn test_branches() {
    // brz jumps when the accumulator is zero; bgt does not.
    let mut m = Machine::new();
    m.load(vec![6, 0, 9, 0, 0, 0, 0, 0, 0, 0, 0, 0]);
    m.clock_cycle().unwrap();
    assert_eq!(m.pc(), 9);
    let mut m2 = Machine::new();
    m2.load(vec![7, 0, 9, 0, 0, 0]);
    m2.clock_cycle().unwrap();
    assert_eq!(m2.pc(), 3);
}

#[test]
fn test_call_and_ret() {
    // call pushes the return address; ret pops it.
    let mut m = Machine::new();
    m.load(vec![13, 0, 6, 0, 0, 0, 14, 0, 0]);
    m.clock_cycle().unwrap();
    assert_eq!(m.pc(), 6);
    m.clock_cycle().unwrap();
    assert_eq!(m.pc(), 3);
    let (_, status) = m.emulate(&vec![], 10);
    assert_eq!(status, RunStatus::Halted);
}

#[test]
fn test_vm_error_variants() {
    let mut m = Machine::new();
    m.load(vec![15, 0, 0]);
    assert_eq!(m.clock_cycle(), Err(VmError::UnknownOpcode));

    let mut m2 = Machine::new();
    m2.load(vec![14, 0, 0]);
    assert_eq!(m2.clock_cycle(), Err(VmError::StackUnderflow));

    let mut m3 = Machine::new();
    m3.load(vec![5, 0xFF, 0xFE]);
    m3.clock_cycle().unwrap();
    assert_eq!(m3.clock_cycle(), Err(VmError::PcOutOfRange));

    let mut m4 = Machine::new();
    m4.load(vec![3, 0xFF, 0xFE]);
    assert_eq!(m4.clock_cycle(), Err(VmError::OperandOutOfRange));
}

#[test]
fn test_input_and_output() {
    // inp; out; otc; hlt echoes one input line as a number and a character.
    let mut m = Machine::new();
    m.load(vec![8, 0, 0, 9, 0, 0, 10, 0, 0, 0, 0, 0]);
    let (outputs, status) = m.emulate(&vec![66], 100);
    assert_eq!(status, RunStatus::Halted);
    assert_eq!(outputs, vec![OutputEvent::Num(66), OutputEvent::Chr(66)]);
}

#[test]
fn test_emulate_needs_input_and_fuel() {
    let mut m = Machine::new();
    m.load(vec![8, 0, 0, 0, 0, 0]);
    let (_, status) = m.emulate(&vec![], 100);
    assert_eq!(status, RunStatus::NeedsInput);

    let mut m2 = Machine::new();
    m2.load(vec![5, 0, 0]);
    let (_, status2) = m2.emulate(&vec![], 10);
    assert_eq!(status2, RunStatus::OutOfCycles);
}

#[test]
fn test_decode_input_line() {
    assert_eq!(decode_input_line(&"12".chars().collect()), Ok(12));
    assert_eq!(decode_input_line(&" 7 \n".chars().collect()), Ok(7));
    assert_eq!(decode_input_line(&"a".chars().collect()), Ok(97));
    // A one-character line that is a digit reads as the number, not the
    // character code.
    assert_eq!(decode_input_line(&"5".chars().collect()), Ok(5));
    assert_eq!(decode_input_line(&"abc".chars().collect()), Err(VmError::InputNotNumeric));
    assert_eq!(decode_input_line(&"99999".chars().collect()), Err(VmError::InputNotNumeric));
    assert_eq!(decode_input_line(&"".chars().collect()), Err(VmError::InputNotNumeric));
}
