use lmc::compiler::compiler::{CompileError, Compiler};
use lmc::compiler::lexer::{LexError, Lexer, Token};
use lmc::compiler::node::Node;
use lmc::compiler::parser::{ParseError, Parser};

#[test]
fn test_lex_number() {
    let mut l = Lexer::new(String::from("10 0 99 2147483647").chars().collect());
    assert_eq!(
        l.lex().unwrap(),
        vec![
            Token::Number(10),
            Token::Number(0),
            Token::Number(99),
            Token::Number(2147483647),
            Token::EOF,
        ]
    )
}

#[test]
fn test_lex_multichar() {
    let mut l = Lexer::new(String::from("= == >= < <= > != ! =").chars().collect());
    assert_eq!(
        l.lex().unwrap(),
        vec![
            Token::EQ,
            Token::EE,
            Token::GTE,
            Token::LT,
            Token::LTE,
            Token::GT,
            Token::NE,
            Token::NOT,
            Token::EQ,
            Token::EOF,
        ]
    )
}

#[test]
fn test_lex_identifier() {
    let mut l = Lexer::new(String::from("x y is_str let use if elif else").chars().collect());
    assert_eq!(
        l.lex().unwrap(),
        vec![
            Token::Identifier(String::from("x")),
            Token::Identifier(String::from("y")),
            Token::Identifier(String::from("is_str")),
            Token::LET,
            Token::USE,
            Token::IF,
            Token::ELIF,
            Token::ELSE,
            Token::EOF,
        ]
    )
}

#[test]
fn test_lex_string() {
    let mut l = Lexer::new(String::from("\"Hello World\"").chars().collect());
    assert_eq!(l.lex().unwrap(), vec![Token::String(String::from("Hello World")), Token::EOF])
}

#[test]
fn test_lex_empty() {
    let mut l = Lexer::new(String::from("").chars().collect());
    assert_eq!(l.lex().unwrap(), vec![Token::EOF])
}

#[test]
fn test_lex_loop_keywords() {
    let mut l = Lexer::new(String::from("while for whilee").chars().collect());
    assert_eq!(
        l.lex().unwrap(),
        vec![Token::WHILE, Token::FOR, Token::Identifier(String::from("whilee")), Token::EOF]
    )
}

#[test]
fn test_lex_unexpected_char() {
    let mut l = Lexer::new(String::from("let # = 1;").chars().collect());
    assert_eq!(l.lex(), Err(LexError::UnexpectedChar));
}

#[test]
fn test_lex_number_too_large() {
    let mut l = Lexer::new(String::from("99999999999999999999").chars().collect());
    assert_eq!(l.lex(), Err(LexError::NumberTooLarge));
}

fn parse_source(source: &str) -> Result<Node, ParseError> {
    let mut l = Lexer::new(source.chars().collect());
    let tokens = l.lex().unwrap();
    let mut p = Parser::new(tokens);
    p.parse()
}

#[test]
fn test_parse_invocation() {
    let mut p = Parser::new(vec![
        Token::Identifier("print".to_string()),
        Token::LPAREN,
        Token::Identifier("x".to_string()),
        Token::RPAREN,
        Token::SEMICOLON,
        Token::Identifier("print".to_string()),
        Token::LPAREN,
        Token::Number(10),
        Token::COMMA,
        Token::Number(3),
        Token::RPAREN,
        Token::SEMICOLON,
        Token::Identifier("print".to_string()),
        Token::LPAREN,
        Token::Identifier("x".to_string()),
        Token::ADD,
        Token::Number(5),
        Token::RPAREN,
        Token::SEMICOLON,
        Token::EOF,
    ]);

    assert_eq!(
        p.parse().unwrap(),
        Node::BLOCK(vec![
            Node::INVOCATION("print".to_string(), vec![Node::IDENTIFIER("x".to_string())]),
            Node::INVOCATION("print".to_string(), vec![Node::NUMBER(10), Node::NUMBER(3)]),
            Node::INVOCATION(
                "print".to_string(),
                vec![Node::INFIX(
                    Box::new(Node::IDENTIFIER("x".to_string())),
                    Token::ADD,
                    Box::new(Node::NUMBER(5)),
                )],
            ),
        ])
    )
}

#[test]
fn test_parse_declaration() {
    let mut p = Parser::new(vec![
        Token::LET,
        Token::Identifier(String::from("x")),
        Token::EQ,
        Token::Number(1),
        Token::SEMICOLON,
        Token::LET,
        Token::Identifier(String::from("y")),
        Token::EQ,
        Token::Identifier(String::from("x")),
        Token::ADD,
        Token::Number(2),
        Token::SEMICOLON,
        Token::EOF,
    ]);

    assert_eq!(
        p.parse().unwrap(),
        Node::BLOCK(vec![
            Node::DECLARATION(String::from("x"), Box::new(Node::NUMBER(1))),
            Node::DECLARATION(
                String::from("y"),
                Box::new(Node::INFIX(
                    Box::new(Node::IDENTIFIER(String::from("x"))),
                    Token::ADD,
                    Box::new(Node::NUMBER(2)),
                )),
            ),
        ])
    )
}

#[test]
fn test_parse_use() {
    let mut p = Parser::new(vec![
        Token::USE,
        Token::Identifier(String::from("std")),
        Token::SEMICOLON,
        Token::EOF,
    ]);

    assert_eq!(p.parse().unwrap(), Node::BLOCK(vec![Node::LIBRARY("std".to_string())]))
}

#[test]
fn test_parse_parenthesis() {
    let mut p = Parser::new(vec![
        Token::Number(3),
        Token::ADD,
        Token::LPAREN,
        Token::Number(2),
        Token::SUB,
        Token::Number(1),
        Token::RPAREN,
        Token::SEMICOLON,
        Token::LET,
        Token::Identifier(String::from("a")),
        Token::EQ,
        Token::LPAREN,
        Token::Number(3),
        Token::ADD,
        Token::LPAREN,
        Token::Number(2),
        Token::SUB,
        Token::Number(1),
        Token::RPAREN,
        Token::RPAREN,
        Token::SEMICOLON,
        Token::EOF,
    ]);

    assert_eq!(
        p.parse().unwrap(),
        Node::BLOCK(vec![
            Node::INFIX(
                Box::new(Node::NUMBER(3)),
                Token::ADD,
                Box::new(Node::INFIX(
                    Box::new(Node::NUMBER(2)),
                    Token::SUB,
                    Box::new(Node::NUMBER(1)),
                )),
            ),
            Node::DECLARATION(
                String::from("a"),
                Box::new(Node::INFIX(
                    Box::new(Node::NUMBER(3)),
                    Token::ADD,
                    Box::new(Node::INFIX(
                        Box::new(Node::NUMBER(2)),
                        Token::SUB,
                        Box::new(Node::NUMBER(1)),
                    )),
                )),
            ),
        ])
    )
}

#[test]
fn test_parse_while_statement() {
    assert_eq!(
        parse_source("while i < 10 { i = i + 1; }").unwrap(),
        Node::BLOCK(vec![Node::WHILE(
            Box::new(Node::INFIX(
                Box::new(Node::IDENTIFIER(String::from("i"))),
                Token::LT,
                Box::new(Node::NUMBER(10)),
            )),
            Box::new(Node::BLOCK(vec![Node::ASSIGNMENT(
                String::from("i"),
                Box::new(Node::INFIX(
                    Box::new(Node::IDENTIFIER(String::from("i"))),
                    Token::ADD,
                    Box::new(Node::NUMBER(1)),
                )),
            )])),
        )])
    );
}

#[test]
fn test_parse_error_variants() {
    assert_eq!(parse_source("let 5;").err(), Some(ParseError::ExpectedToken));
    assert_eq!(parse_source("let x = 1 (;").err(), Some(ParseError::UnsupportedInfix));
    assert_eq!(parse_source(";").err(), Some(ParseError::UnexpectedAtom));
    assert_eq!(parse_source("f(1 2);").err(), Some(ParseError::ExpectedArgDelimiter));
    assert_eq!(parse_source("fn f(1) {}").err(), Some(ParseError::ExpectedParamIdent));
    assert_eq!(parse_source("fn f(a b) {}").err(), Some(ParseError::ExpectedParamDelimiter));
}

#[test]
fn test_compile_declaration() {
    let mut c = Compiler::new();
    assert_eq!(
        c.compile(Node::BLOCK(vec![Node::DECLARATION(
            String::from("x"),
            Box::new(Node::NUMBER(1)),
        )]))
        .unwrap(),
        String::from("call _main\nhlt\nx dat 0\nlda _1\nsta x\n_1 dat 1\n_ret dat 0")
    );
}

#[test]
fn test_compile_infix() {
    let mut c = Compiler::new();
    let out: String = c
        .compile(Node::BLOCK(vec![Node::DECLARATION(
            String::from("x"),
            Box::new(Node::INFIX(
                Box::new(Node::NUMBER(1)),
                Token::ADD,
                Box::new(Node::NUMBER(2)),
            )),
        )]))
        .unwrap();

    assert_eq!(out[0..43], String::from("call _main\nhlt\nx dat 0\nlda _1\nADD _2\nsta x\n"));
}

#[test]
fn test_compile_shared_constant_cell() {
    // The same literal used twice owns a single pool cell.
    let mut c = Compiler::new();
    let out = c
        .compile(Node::BLOCK(vec![
            Node::DECLARATION(String::from("x"), Box::new(Node::NUMBER(7))),
            Node::DECLARATION(String::from("y"), Box::new(Node::NUMBER(7))),
        ]))
        .unwrap();
    assert_eq!(
        out,
        String::from(
            "call _main\nhlt\nx dat 0\nlda _7\nsta x\ny dat 0\nlda _7\nsta y\n_7 dat 7\n_ret dat 0"
        )
    );
}

#[test]
fn test_compile_error_variants() {
    let mut c = Compiler::new();
    assert_eq!(
        c.compile(Node::LIBRARY(String::from("missing"))).err(),
        Some(CompileError::UnknownLibrary)
    );
    let mut c2 = Compiler::new();
    assert_eq!(
        c2.compile(Node::STRING(String::from("text"))).err(),
        Some(CompileError::UnexpectedNode)
    );
    let mut c3 = Compiler::new();
    // A compound right-hand side of an infix cannot be lowered.
    assert_eq!(
        c3.compile(Node::INFIX(
            Box::new(Node::NUMBER(1)),
            Token::ADD,
            Box::new(Node::INFIX(
                Box::new(Node::NUMBER(2)),
                Token::ADD,
                Box::new(Node::NUMBER(3)),
            )),
        ))
        .err(),
        Some(CompileError::NonAtomOperand)
    );
}
