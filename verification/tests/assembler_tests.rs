use lmc::assembler::assembler::{AssembleError, Compiler};
use lmc::assembler::lexer::{LexError, Lexer, Token};
use lmc::assembler::parser::{AsmParseError, Instruction, Parser, SymbolTable};

#[test]
fn test_assembler() {
    let mut table = SymbolTable::new();
    table.insert(String::from("ONE"), 1);
    let mut c = Compiler::new(
        vec![
            Instruction::LDA(Token::Label(String::from("ONE"))),
            Instruction::DAT(Token::Number(1)),
        ],
        table,
    );

    let bin = c.compile();
    assert_eq!(bin.unwrap(), vec![3, 0, 3, 12, 0, 1])
}

#[test]
fn test_undefined_label() {
    let mut c = Compiler::new(
        vec![
            Instruction::LDA(Token::Label(String::from("ONE"))),
            Instruction::DAT(Token::Number(1)),
        ],
        SymbolTable::new(),
    );

    assert_eq!(c.compile(), Err(AssembleError::UndefinedLabel));
}

#[test]
fn assembler_test_empty() {
    let mut c = Compiler::new(vec![], SymbolTable::new());
    let bin = c.compile();
    assert_eq!(bin.unwrap(), vec![])
}

#[test]
fn test_address_overflow() {
    let mut table = SymbolTable::new();
    table.insert(String::from("FAR"), 30000);
    let mut c = Compiler::new(vec![Instruction::LDA(Token::Label(String::from("FAR")))], table);
    assert_eq!(c.compile(), Err(AssembleError::AddressOverflow));
}

#[test]
fn test_bad_operand_token() {
    let mut c = Compiler::new(vec![Instruction::ADD(Token::NEWLINE)], SymbolTable::new());
    assert_eq!(c.compile(), Err(AssembleError::BadOperandToken));
}

#[test]
fn test_lex() {
    let mut l = Lexer::new(String::from("main add 0\n\tsta RESULT").chars().collect());
    assert_eq!(
        l.lex().unwrap(),
        vec![
            Token::Label(String::from("main")),
            Token::ADD,
            Token::Number(0),
            Token::NEWLINE,
            Token::STA,
            Token::Label(String::from("RESULT")),
            Token::EOF,
        ]
    )
}

#[test]
fn test_keyword_capitalisation() {
    let mut l = Lexer::new(String::from("ADD sta DaT\n lda lad").chars().collect());
    assert_eq!(
        l.lex().unwrap(),
        vec![
            Token::ADD,
            Token::STA,
            Token::DAT,
            Token::NEWLINE,
            Token::LDA,
            Token::Label(String::from("lad")),
            Token::EOF,
        ]
    )
}

#[test]
fn test_identifier_underscores() {
    let mut l = Lexer::new(String::from("_start st_art start_ _").chars().collect());
    assert_eq!(
        l.lex().unwrap(),
        vec![
            Token::Label(String::from("_start")),
            Token::Label(String::from("st_art")),
            Token::Label(String::from("start_")),
            Token::Label(String::from("_")),
            Token::EOF,
        ]
    )
}

#[test]
fn lexer_test_empty() {
    let mut l = Lexer::new(String::from("").chars().collect());
    assert_eq!(l.lex().unwrap(), vec![Token::EOF])
}

#[test]
fn test_whitespace() {
    let mut l = Lexer::new(String::from("\t\n\t    \t\t \r\n").chars().collect());
    assert_eq!(l.lex().unwrap(), vec![Token::NEWLINE, Token::NEWLINE, Token::EOF])
}

#[test]
fn test_panic() {
    let mut l = Lexer::new(String::from("add #10").chars().collect());
    assert_eq!(l.lex(), Err(LexError::UnexpectedChar));
}

#[test]
fn test_number_too_large() {
    let mut l = Lexer::new(String::from("add 99999").chars().collect());
    assert_eq!(l.lex(), Err(LexError::NumberTooLarge));
}

#[test]
fn test_call_and_ret_mnemonics() {
    let mut l = Lexer::new(String::from("call _main\nret").chars().collect());
    assert_eq!(
        l.lex().unwrap(),
        vec![
            Token::CALL,
            Token::Label(String::from("_main")),
            Token::NEWLINE,
            Token::RET,
            Token::EOF,
        ]
    )
}

#[test]
fn test_parse_instruction() {
    let mut p = Parser::new(vec![Token::ADD, Token::Number(10), Token::EOF]);
    let (prog, sym_table) = p.parse().unwrap();
    assert_eq!(prog, vec![Instruction::ADD(Token::Number(10))]);
    assert_eq!(sym_table, SymbolTable::new());
}

#[test]
fn test_parse_multiline_program() {
    let mut p = Parser::new(vec![
        Token::LDA,
        Token::Label(String::from("ONE")),
        Token::NEWLINE,
        Token::ADD,
        Token::Label(String::from("TWO")),
        Token::NEWLINE,
        Token::STA,
        Token::Label(String::from("RESULT")),
        Token::NEWLINE,
        Token::NEWLINE,
        Token::Label(String::from("ONE")),
        Token::DAT,
        Token::Number(1),
        Token::NEWLINE,
        Token::Label(String::from("TWO")),
        Token::DAT,
        Token::Number(2),
        Token::NEWLINE,
        Token::Label(String::from("RESULT")),
        Token::DAT,
        Token::EOF,
    ]);

    let (prog, sym_table) = p.parse().unwrap();
    assert_eq!(
        prog,
        vec![
            Instruction::LDA(Token::Label(String::from("ONE"))),
            Instruction::ADD(Token::Label(String::from("TWO"))),
            Instruction::STA(Token::Label(String::from("RESULT"))),
            Instruction::DAT(Token::Number(1)),
            Instruction::DAT(Token::Number(2)),
            Instruction::DAT(Token::Number(0)),
        ]
    );

    let mut expected = SymbolTable::new();
    expected.insert(String::from("ONE"), 3);
    expected.insert(String::from("TWO"), 4);
    expected.insert(String::from("RESULT"), 5);
    assert_eq!(sym_table, expected);
}

#[test]
fn test_parse_missing_newline() {
    let mut p = Parser::new(vec![Token::ADD, Token::Number(1), Token::Number(2), Token::EOF]);
    assert_eq!(p.parse().err(), Some(AsmParseError::ExpectedNewline));
}

#[test]
fn test_parse_unexpected_token() {
    let mut p = Parser::new(vec![Token::Number(5), Token::NEWLINE, Token::EOF]);
    assert_eq!(p.parse().err(), Some(AsmParseError::UnexpectedToken));
}

#[test]
fn test_parse_bad_operand() {
    let mut p = Parser::new(vec![Token::ADD, Token::ADD, Token::EOF]);
    assert_eq!(p.parse().err(), Some(AsmParseError::BadOperand));
}

#[test]
fn test_parse_too_many_instructions() {
    let mut tokens = Vec::new();
    for _ in 0..65536 {
        tokens.push(Token::HLT);
        tokens.push(Token::NEWLINE);
    }
    tokens.push(Token::Label(String::from("late")));
    tokens.push(Token::HLT);
    tokens.push(Token::EOF);
    let mut p = Parser::new(tokens);
    assert_eq!(p.parse().err(), Some(AsmParseError::TooManyInstructions));
}

#[test]
fn test_symbol_table_last_binding_wins() {
    let mut table = SymbolTable::new();
    table.insert(String::from("X"), 1);
    table.insert(String::from("X"), 2);
    assert_eq!(table.get(&String::from("X")), Some(2));
    assert_eq!(table.get(&String::from("Y")), None);
}
