use lmc::machine::machine::{Machine, RunStatus};

fn compile_source(source: &str) -> String {
    let mut l = lmc::compiler::lexer::Lexer::new(source.chars().collect());
    let tokens = l.lex().unwrap();
    let mut p = lmc::compiler::parser::Parser::new(tokens);
    let ast = p.parse().unwrap();
    let mut c = lmc::compiler::compiler::Compiler::new();
    c.compile(ast).unwrap()
}

fn assemble_text(
    text: &str,
) -> (Vec<u8>, lmc::assembler::parser::SymbolTable) {
    let mut l = lmc::assembler::lexer::Lexer::new(text.chars().collect());
    let tokens = l.lex().unwrap();
    let mut p = lmc::assembler::parser::Parser::new(tokens);
    let (program, symbol_table) = p.parse().unwrap();
    let mut c = lmc::assembler::assembler::Compiler::new(program, symbol_table.clone());
    (c.compile().unwrap(), symbol_table)
}

#[test]
fn test_addition_program_prefix() {
    // Compiling a one-line addition yields the documented program prefix.
    let out = compile_source("let x = 1 + 2;");
    assert_eq!(&out[0..43], "call _main\nhlt\nx dat 0\nlda _1\nADD _2\nsta x\n");
}

#[test]
fn test_assembled_length_is_multiple_of_three() {
    let out = compile_source("fn _main() { let a = 1 + 2; halt; }");
    let (bin, _) = assemble_text(&out);
    assert_eq!(bin.len() % 3, 0);
}

#[test]
fn test_loop_program_counts_to_ten() {
    // The loop body runs inside the entry function; the cell named i holds
    // ten once the machine halts.
    let out = compile_source("fn _main() { let i = 0; while i < 10 { i = i + 1; } }");
    let (bin, table) = assemble_text(&out);
    let mut m = Machine::new();
    m.load(bin);
    let (_, status) = m.emulate(&vec![], 100000);
    assert_eq!(status, RunStatus::Halted);
    let i_index = table.get(&String::from("i")).unwrap();
    assert_eq!(m.read_cell(3 * i_index), 10);
}

#[test]
fn test_function_call_returns_seven() {
    // A function named like a mnemonic (such as add) cannot be assembled,
    // since its label would read as an instruction; the routine is named
    // plus for that reason.
    let out = compile_source(
        "fn plus(a,b) { return a + b; } fn _main() { let r = plus(3,4); halt; }",
    );
    let (bin, table) = assemble_text(&out);
    let mut m = Machine::new();
    m.load(bin);
    let (_, status) = m.emulate(&vec![], 100000);
    assert_eq!(status, RunStatus::Halted);
    let ret_index = table.get(&String::from("_ret")).unwrap();
    assert_eq!(m.read_cell(3 * ret_index), 7);
    let r_index = table.get(&String::from("r")).unwrap();
    assert_eq!(m.read_cell(3 * r_index), 7);
}

#[test]
fn test_for_loop_program() {
    let out = compile_source(
        "fn _main() { let s = 0; for (let j = 0; j < 3; j = j + 1) { s = s + 2; } }",
    );
    let (bin, table) = assemble_text(&out);
    let mut m = Machine::new();
    m.load(bin);
    let (_, status) = m.emulate(&vec![], 100000);
    assert_eq!(status, RunStatus::Halted);
    let s_index = table.get(&String::from("s")).unwrap();
    assert_eq!(m.read_cell(3 * s_index), 6);
}

#[test]
fn test_if_elif_else_program() {
    let out = compile_source(
        "fn _main() { let x = 5; let y = 0; if x == 1 { y = 10; } elif x == 5 { y = 20; } else { y = 30; } }",
    );
    let (bin, table) = assemble_text(&out);
    let mut m = Machine::new();
    m.load(bin);
    let (_, status) = m.emulate(&vec![], 100000);
    assert_eq!(status, RunStatus::Halted);
    let y_index = table.get(&String::from("y")).unwrap();
    assert_eq!(m.read_cell(3 * y_index), 20);
}

#[test]
fn test_output_program() {
    // The built-in library's print routine writes its argument.
    let out = compile_source("use std; fn _main() { print(42); halt; }");
    let (bin, _) = assemble_text(&out);
    let mut m = Machine::new();
    m.load(bin);
    let (outputs, status) = m.emulate(&vec![], 100000);
    assert_eq!(status, RunStatus::Halted);
    assert_eq!(outputs, vec![lmc::machine::machine::OutputEvent::Num(42)]);
}
