//! Parsing source tokens into a syntax tree: recursive descent for
//! statements and precedence climbing for expressions. Comparisons bind
//! looser than addition and subtraction; a parenthesis opens an atom.

use vstd::prelude::*;
use crate::compiler::lexer::{toks_view, Token, TokenModel};
use crate::compiler::node::{names_view, nodes_view, Node, NodeModel};

verus! {

/// A fatal condition raised while parsing source text.
#[derive(Clone, Copy, Debug, PartialEq, Eq, Structural)]
pub enum ParseError {
    /// The token at hand is not of the kind the grammar asks for here.
    ExpectedToken,
    /// A token that is no infix operator stands between expressions.
    UnsupportedInfix,
    /// A token that begins no atom stands in expression position.
    UnexpectedAtom,
    /// An argument is followed by neither a comma nor a closing parenthesis.
    ExpectedArgDelimiter,
    /// A formal parameter is not an identifier.
    ExpectedParamIdent,
    /// A parameter is followed by neither a comma nor a closing parenthesis.
    ExpectedParamDelimiter,
}

/// The token at a position; positions at or past the end read as the
/// end-of-input token.
pub open spec fn tok_at(toks: Seq<TokenModel>, pos: int) -> TokenModel {
    if 0 <= pos < toks.len() {
        toks[pos]
    } else {
        TokenModel::EOF
    }
}

/// The position after stepping over one token; the cursor never leaves the
/// token list.
pub open spec fn eat_pos(toks: Seq<TokenModel>, pos: int) -> int {
    if pos < toks.len() {
        pos + 1
    } else {
        pos
    }
}

/// A successor position, clamped so that it always makes progress and stays
/// within the tokens. Every parsing routine moves forward, so the clamp
/// never changes a position that a routine actually produced.
pub open spec fn step_to(toks: Seq<TokenModel>, pos: int, p: int) -> int {
    if pos < p <= toks.len() {
        p
    } else {
        pos + 1
    }
}

/// The binding power of a token in expression position: comparisons bind
/// loosest, then addition and subtraction; a parenthesis neither binds nor
/// ends the climb; everything else ends it.
pub open spec fn preference(t: TokenModel) -> int {
    match t {
        TokenModel::EE => 10,
        TokenModel::NE => 10,
        TokenModel::GT => 10,
        TokenModel::LT => 10,
        TokenModel::GTE => 10,
        TokenModel::LTE => 10,
        TokenModel::ADD => 20,
        TokenModel::SUB => 20,
        TokenModel::LPAREN => 0,
        _ => -1,
    }
}

/// Whether a token may stand as an infix operator.
pub open spec fn is_operator(t: TokenModel) -> bool {
    match t {
        TokenModel::ADD => true,
        TokenModel::SUB => true,
        TokenModel::EE => true,
        TokenModel::NE => true,
        TokenModel::LT => true,
        TokenModel::GT => true,
        TokenModel::GTE => true,
        TokenModel::LTE => true,
        _ => false,
    }
}

/// Whether a statement carries no terminating semicolon of its own.
pub open spec fn is_unterminated_form(n: NodeModel) -> bool {
    match n {
        NodeModel::Function(_, _, _) => true,
        NodeModel::If(_, _) => true,
        NodeModel::While(_, _) => true,
        NodeModel::For(_, _, _, _) => true,
        _ => false,
    }
}

/// One infix step: the operator under the cursor applied to the left side
/// and the expression after it.
pub open spec fn infix_model(toks: Seq<TokenModel>, pos: int, lhs: NodeModel) -> Result<
    (NodeModel, int),
    ParseError,
>
    decreases toks.len() - pos, 1int,
{
    let op = tok_at(toks, pos);
    if is_operator(op) {
        match expression_model(toks, eat_pos(toks, pos), preference(op) + 1) {
            Err(e) => Err(e),
            Ok((rhs, p)) => Ok(
                (NodeModel::Infix(Box::new(lhs), op, Box::new(rhs)), p),
            ),
        }
    } else {
        Err(ParseError::UnsupportedInfix)
    }
}

/// The climb: as long as the next token is not the end of input and the
/// token under the cursor binds at least as strongly as the context, fold
/// one infix step into the left side.
pub open spec fn climb_model(toks: Seq<TokenModel>, pos: int, rbp: int, lhs: NodeModel) -> Result<
    (NodeModel, int),
    ParseError,
>
    decreases toks.len() - pos, 2int,
{
    if !(tok_at(toks, pos + 1) is EOF) && preference(tok_at(toks, pos)) >= rbp {
        match infix_model(toks, pos, lhs) {
            Err(e) => Err(e),
            Ok((lhs2, p)) => {
                if toks.len() - pos >= 1 {
                    climb_model(toks, step_to(toks, pos, p), rbp, lhs2)
                } else {
                    Ok((lhs2, p))
                }
            },
        }
    } else {
        Ok((lhs, pos))
    }
}

/// An expression: an atom, the step past its last token, then the climb.
pub open spec fn expression_model(toks: Seq<TokenModel>, pos: int, rbp: int) -> Result<
    (NodeModel, int),
    ParseError,
>
    decreases toks.len() - pos, 3int,
{
    match atom_parse_model(toks, pos) {
        Err(e) => Err(e),
        Ok((lhs, p1)) => {
            if 0 <= pos < toks.len() {
                climb_model(toks, step_to(toks, pos, eat_pos(toks, p1)), rbp, lhs)
            } else {
                // Never the case: no atom stands at or past the end of input.
                Err(ParseError::UnexpectedAtom)
            }
        },
    }
}

/// An atom: a literal, an identifier (a call when a parenthesis follows), or
/// a parenthesized expression whose closing parenthesis stays under the
/// cursor.
pub open spec fn atom_parse_model(toks: Seq<TokenModel>, pos: int) -> Result<
    (NodeModel, int),
    ParseError,
>
    decreases toks.len() - pos, 2int,
{
    match tok_at(toks, pos) {
        TokenModel::Number(v) => Ok((NodeModel::Number(v), pos)),
        TokenModel::StringLit(s) => Ok((NodeModel::StringLit(s), pos)),
        TokenModel::Identifier(id) => {
            if tok_at(toks, pos + 1) is LPAREN {
                invocation_model(toks, pos, id)
            } else {
                Ok((NodeModel::Identifier(id), pos))
            }
        },
        TokenModel::LPAREN => match expression_model(toks, eat_pos(toks, pos), 0) {
            Err(e) => Err(e),
            Ok((n, p)) => {
                if tok_at(toks, p) is RPAREN {
                    Ok((n, p))
                } else {
                    Err(ParseError::ExpectedToken)
                }
            },
        },
        _ => Err(ParseError::UnexpectedAtom),
    }
}

/// A call: the arguments start after the identifier and the opening
/// parenthesis; the closing parenthesis stays under the cursor.
pub open spec fn invocation_model(toks: Seq<TokenModel>, pos: int, id: Seq<char>) -> Result<
    (NodeModel, int),
    ParseError,
>
    decreases toks.len() - pos, 1int,
{
    if 0 <= pos < toks.len() {
        match invocation_args_model(toks, eat_pos(toks, eat_pos(toks, pos))) {
            Err(e) => Err(e),
            Ok((args, p)) => Ok((NodeModel::Invocation(id, args), p)),
        }
    } else {
        // Never the case: a call starts at its identifier, inside the input.
        Err(ParseError::UnexpectedAtom)
    }
}

/// Call arguments: expressions separated by commas, until a closing
/// parenthesis or the end of input.
pub open spec fn invocation_args_model(toks: Seq<TokenModel>, pos: int) -> Result<
    (Seq<NodeModel>, int),
    ParseError,
>
    decreases toks.len() - pos, 4int,
{
    if tok_at(toks, pos) is RPAREN || tok_at(toks, pos) is EOF {
        Ok((Seq::empty(), pos))
    } else {
        match expression_model(toks, pos, 0) {
            Err(e) => Err(e),
            Ok((expr, p1)) => {
                let t = tok_at(toks, p1);
                if !(t is RPAREN) && !(t is COMMA) {
                    Err(ParseError::ExpectedArgDelimiter)
                } else {
                    let p2 = if t is COMMA {
                        eat_pos(toks, p1)
                    } else {
                        p1
                    };
                    match invocation_args_model(toks, step_to(toks, pos, p2)) {
                        Err(e) => Err(e),
                        Ok((rest, p3)) => Ok((seq![expr] + rest, p3)),
                    }
                }
            },
        }
    }
}

/// A library reference: the identifier after the keyword.
pub open spec fn use_model(toks: Seq<TokenModel>, pos: int) -> Result<(NodeModel, int), ParseError> {
    match tok_at(toks, pos + 1) {
        TokenModel::Identifier(id) => Ok(
            (NodeModel::Library(id), eat_pos(toks, eat_pos(toks, pos))),
        ),
        _ => Err(ParseError::ExpectedToken),
    }
}

/// A return statement: an omitted value reads as the literal zero.
pub open spec fn return_model(toks: Seq<TokenModel>, pos: int) -> Result<
    (NodeModel, int),
    ParseError,
>
    decreases toks.len() - pos, 5int,
{
    let p1 = eat_pos(toks, pos);
    if tok_at(toks, p1) is SEMICOLON {
        Ok((NodeModel::Return(Box::new(NodeModel::Number(0))), p1))
    } else {
        match expression_model(toks, p1, 0) {
            Err(e) => Err(e),
            Ok((e, p)) => Ok((NodeModel::Return(Box::new(e)), p)),
        }
    }
}

/// A declaration: an omitted initializer reads as the literal zero.
pub open spec fn declaration_model(toks: Seq<TokenModel>, pos: int) -> Result<
    (NodeModel, int),
    ParseError,
>
    decreases toks.len() - pos, 5int,
{
    if !(0 <= pos < toks.len()) {
        // Never the case: each statement form starts at its keyword.
        Err(ParseError::ExpectedToken)
    } else {
    match tok_at(toks, pos + 1) {
        TokenModel::Identifier(id) => {
            if tok_at(toks, pos + 2) is SEMICOLON {
                Ok(
                    (
                        NodeModel::Declaration(id, Box::new(NodeModel::Number(0))),
                        eat_pos(toks, pos + 1),
                    ),
                )
            } else if tok_at(toks, pos + 2) is EQ {
                match expression_model(toks, step_to(toks, pos, pos + 3), 0) {
                    Err(e) => Err(e),
                    Ok((e, p)) => Ok((NodeModel::Declaration(id, Box::new(e)), p)),
                }
            } else {
                Err(ParseError::ExpectedToken)
            }
        },
        _ => Err(ParseError::ExpectedToken),
    }
    }
}

/// An assignment: the expression after the equals sign.
pub open spec fn assignment_model(toks: Seq<TokenModel>, pos: int, id: Seq<char>) -> Result<
    (NodeModel, int),
    ParseError,
>
    decreases toks.len() - pos, 5int,
{
    if !(0 <= pos < toks.len()) {
        // Never the case: each statement form starts at its keyword.
        Err(ParseError::ExpectedToken)
    } else 
    if tok_at(toks, pos + 1) is EQ {
        match expression_model(toks, step_to(toks, pos, pos + 2), 0) {
            Err(e) => Err(e),
            Ok((e, p)) => Ok((NodeModel::Assignment(id, Box::new(e)), p)),
        }
    } else {
        Err(ParseError::ExpectedToken)
    }
}

/// Formal parameters: identifiers separated by commas, until a closing
/// parenthesis or the end of input.
pub open spec fn params_model(toks: Seq<TokenModel>, pos: int) -> Result<
    (Seq<Seq<char>>, int),
    ParseError,
>
    decreases toks.len() - pos, 4int,
{
    if tok_at(toks, pos) is RPAREN || tok_at(toks, pos) is EOF {
        Ok((Seq::empty(), pos))
    } else {
        match tok_at(toks, pos) {
            TokenModel::Identifier(id) => {
                let p1 = eat_pos(toks, pos);
                let t = tok_at(toks, p1);
                if !(t is COMMA) && !(t is RPAREN) {
                    Err(ParseError::ExpectedParamDelimiter)
                } else {
                    let p2 = if t is COMMA {
                        eat_pos(toks, p1)
                    } else {
                        p1
                    };
                    match params_model(toks, step_to(toks, pos, p2)) {
                        Err(e) => Err(e),
                        Ok((rest, p3)) => Ok((seq![id] + rest, p3)),
                    }
                }
            },
            _ => Err(ParseError::ExpectedParamIdent),
        }
    }
}

/// A function: name, parameter list, and body block. The cursor steps blindly
/// past the body's closing brace.
pub open spec fn function_model(toks: Seq<TokenModel>, pos: int) -> Result<
    (NodeModel, int),
    ParseError,
>
    decreases toks.len() - pos, 5int,
{
    if !(0 <= pos < toks.len()) {
        // Never the case: each statement form starts at its keyword.
        Err(ParseError::ExpectedToken)
    } else {
    match tok_at(toks, pos + 1) {
        TokenModel::Identifier(id) => {
            if tok_at(toks, pos + 2) is LPAREN {
                match params_model(toks, step_to(toks, pos, pos + 3)) {
                    Err(e) => Err(e),
                    Ok((params, p1)) => {
                        if tok_at(toks, p1 + 1) is LBRACE {
                            match block_model(toks, step_to(toks, pos, p1 + 2)) {
                                Err(e) => Err(e),
                                Ok((stmts, p2)) => Ok(
                                    (
                                        NodeModel::Function(
                                            id,
                                            params,
                                            Box::new(NodeModel::Block(stmts)),
                                        ),
                                        eat_pos(toks, p2),
                                    ),
                                ),
                            }
                        } else {
                            Err(ParseError::ExpectedToken)
                        }
                    },
                }
            } else {
                Err(ParseError::ExpectedToken)
            }
        },
        _ => Err(ParseError::ExpectedToken),
    }
    }
}

/// The conditional arms of an if statement: one arm per leading `if` or
/// `elif` keyword.
pub open spec fn if_conds_model(toks: Seq<TokenModel>, pos: int) -> Result<
    (Seq<NodeModel>, int),
    ParseError,
>
    decreases toks.len() - pos, 4int,
{
    if tok_at(toks, pos) is IF || tok_at(toks, pos) is ELIF {
        match expression_model(toks, eat_pos(toks, pos), 0) {
            Err(e) => Err(e),
            Ok((cond, p1)) => {
                if tok_at(toks, p1) is LBRACE {
                    match block_model(toks, step_to(toks, pos, eat_pos(toks, p1))) {
                        Err(e) => Err(e),
                        Ok((stmts, p2)) => {
                            if tok_at(toks, p2) is RBRACE {
                                match if_conds_model(toks, step_to(toks, pos, eat_pos(toks, p2))) {
                                    Err(e) => Err(e),
                                    Ok((rest, p3)) => Ok(
                                        (
                                            seq![
                                                NodeModel::Conditional(
                                                    Box::new(cond),
                                                    Box::new(NodeModel::Block(stmts)),
                                                ),
                                            ] + rest,
                                            p3,
                                        ),
                                    ),
                                }
                            } else {
                                Err(ParseError::ExpectedToken)
                            }
                        },
                    }
                } else {
                    Err(ParseError::ExpectedToken)
                }
            },
        }
    } else {
        Ok((Seq::empty(), pos))
    }
}

/// An if statement: the conditional arms, then an optional else block.
pub open spec fn if_model(toks: Seq<TokenModel>, pos: int) -> Result<(NodeModel, int), ParseError>
    decreases toks.len() - pos, 5int,
{
    if !(0 <= pos < toks.len()) {
        // Never the case: each statement form starts at its keyword.
        Err(ParseError::ExpectedToken)
    } else {
    match if_conds_model(toks, pos) {
        Err(e) => Err(e),
        Ok((conds, p1)) => {
            if tok_at(toks, p1) is ELSE {
                if tok_at(toks, p1 + 1) is LBRACE {
                    match block_model(toks, step_to(toks, pos, p1 + 2)) {
                        Err(e) => Err(e),
                        Ok((stmts, p2)) => {
                            if tok_at(toks, p2) is RBRACE {
                                Ok(
                                    (
                                        NodeModel::If(conds, Box::new(NodeModel::Block(stmts))),
                                        eat_pos(toks, p2),
                                    ),
                                )
                            } else {
                                Err(ParseError::ExpectedToken)
                            }
                        },
                    }
                } else {
                    Err(ParseError::ExpectedToken)
                }
            } else {
                Ok(
                    (
                        NodeModel::If(conds, Box::new(NodeModel::Block(Seq::empty()))),
                        p1,
                    ),
                )
            }
        },
    }
    }
}

/// A while statement: the condition, then the body block.
pub open spec fn while_model(toks: Seq<TokenModel>, pos: int) -> Result<
    (NodeModel, int),
    ParseError,
>
    decreases toks.len() - pos, 5int,
{
    if !(0 <= pos < toks.len()) {
        // Never the case: each statement form starts at its keyword.
        Err(ParseError::ExpectedToken)
    } else {
    match expression_model(toks, eat_pos(toks, pos), 0) {
        Err(e) => Err(e),
        Ok((cond, p1)) => {
            if tok_at(toks, p1) is LBRACE {
                match block_model(toks, step_to(toks, pos, eat_pos(toks, p1))) {
                    Err(e) => Err(e),
                    Ok((stmts, p2)) => {
                        if tok_at(toks, p2) is RBRACE {
                            Ok(
                                (
                                    NodeModel::While(
                                        Box::new(cond),
                                        Box::new(NodeModel::Block(stmts)),
                                    ),
                                    eat_pos(toks, p2),
                                ),
                            )
                        } else {
                            Err(ParseError::ExpectedToken)
                        }
                    },
                }
            } else {
                Err(ParseError::ExpectedToken)
            }
        },
    }
    }
}

/// A for statement: a parenthesized declaration, condition, and step, then
/// the body block.
pub open spec fn for_model(toks: Seq<TokenModel>, pos: int) -> Result<(NodeModel, int), ParseError>
    decreases toks.len() - pos, 5int,
{
    if !(0 <= pos < toks.len()) {
        // Never the case: each statement form starts at its keyword.
        Err(ParseError::ExpectedToken)
    } else 
    if tok_at(toks, eat_pos(toks, pos)) is LPAREN {
        match statement_model(toks, step_to(toks, pos, eat_pos(toks, eat_pos(toks, pos)))) {
            Err(e) => Err(e),
            Ok((decl, p1)) => {
                if tok_at(toks, p1) is SEMICOLON {
                    match expression_model(toks, step_to(toks, pos, eat_pos(toks, p1)), 0) {
                        Err(e) => Err(e),
                        Ok((cond, p2)) => {
                            if tok_at(toks, p2) is SEMICOLON {
                                match statement_model(toks, step_to(toks, pos, eat_pos(toks, p2))) {
                                    Err(e) => Err(e),
                                    Ok((step_stmt, p3)) => {
                                        if tok_at(toks, p3) is RPAREN {
                                            if tok_at(toks, eat_pos(toks, p3)) is LBRACE {
                                                match block_model(
                                                    toks,
                                                    step_to(
                                                        toks,
                                                        pos,
                                                        eat_pos(toks, eat_pos(toks, p3)),
                                                    ),
                                                ) {
                                                    Err(e) => Err(e),
                                                    Ok((stmts, p4)) => {
                                                        if tok_at(toks, p4) is RBRACE {
                                                            Ok(
                                                                (
                                                                    NodeModel::For(
                                                                        Box::new(decl),
                                                                        Box::new(cond),
                                                                        Box::new(step_stmt),
                                                                        Box::new(
                                                                            NodeModel::Block(stmts),
                                                                        ),
                                                                    ),
                                                                    eat_pos(toks, p4),
                                                                ),
                                                            )
                                                        } else {
                                                            Err(ParseError::ExpectedToken)
                                                        }
                                                    },
                                                }
                                            } else {
                                                Err(ParseError::ExpectedToken)
                                            }
                                        } else {
                                            Err(ParseError::ExpectedToken)
                                        }
                                    },
                                }
                            } else {
                                Err(ParseError::ExpectedToken)
                            }
                        },
                    }
                } else {
                    Err(ParseError::ExpectedToken)
                }
            },
        }
    } else {
        Err(ParseError::ExpectedToken)
    }
}

/// One statement, dispatched on its first token; a bare expression is a
/// statement too.
pub open spec fn statement_model(toks: Seq<TokenModel>, pos: int) -> Result<
    (NodeModel, int),
    ParseError,
>
    decreases toks.len() - pos, 6int,
{
    match tok_at(toks, pos) {
        TokenModel::LET => declaration_model(toks, pos),
        TokenModel::USE => use_model(toks, pos),
        TokenModel::FN => function_model(toks, pos),
        TokenModel::RETURN => return_model(toks, pos),
        TokenModel::IF => if_model(toks, pos),
        TokenModel::WHILE => while_model(toks, pos),
        TokenModel::FOR => for_model(toks, pos),
        TokenModel::Identifier(id) => {
            if tok_at(toks, pos + 1) is EQ {
                assignment_model(toks, pos, id)
            } else {
                expression_model(toks, pos, 0)
            }
        },
        TokenModel::HALT => Ok((NodeModel::Halt, eat_pos(toks, pos))),
        _ => expression_model(toks, pos, 0),
    }
}

/// A statement list, up to a closing brace or the end of input. Statements
/// other than function, if, while, and for forms end with a semicolon.
pub open spec fn block_model(toks: Seq<TokenModel>, pos: int) -> Result<
    (Seq<NodeModel>, int),
    ParseError,
>
    decreases toks.len() - pos, 7int,
{
    if tok_at(toks, pos) is EOF || tok_at(toks, pos) is RBRACE {
        Ok((Seq::empty(), pos))
    } else {
        match statement_model(toks, pos) {
            Err(e) => Err(e),
            Ok((stmt, p1)) => {
                if is_unterminated_form(stmt) {
                    match block_model(toks, step_to(toks, pos, p1)) {
                        Err(e) => Err(e),
                        Ok((rest, p2)) => Ok((seq![stmt] + rest, p2)),
                    }
                } else if tok_at(toks, p1) is SEMICOLON {
                    match block_model(toks, step_to(toks, pos, eat_pos(toks, p1))) {
                        Err(e) => Err(e),
                        Ok((rest, p2)) => Ok((seq![stmt] + rest, p2)),
                    }
                } else {
                    Err(ParseError::ExpectedToken)
                }
            },
        }
    }
}

/// A whole program: a statement list up to the end of input.
pub open spec fn program_model(toks: Seq<TokenModel>, pos: int) -> Result<
    (Seq<NodeModel>, int),
    ParseError,
>
    decreases toks.len() - pos, 8int,
{
    if tok_at(toks, pos) is EOF {
        Ok((Seq::empty(), pos))
    } else {
        match statement_model(toks, pos) {
            Err(e) => Err(e),
            Ok((stmt, p1)) => {
                if is_unterminated_form(stmt) {
                    match program_model(toks, step_to(toks, pos, p1)) {
                        Err(e) => Err(e),
                        Ok((rest, p2)) => Ok((seq![stmt] + rest, p2)),
                    }
                } else if tok_at(toks, p1) is SEMICOLON {
                    match program_model(toks, step_to(toks, pos, eat_pos(toks, p1))) {
                        Err(e) => Err(e),
                        Ok((rest, p2)) => Ok((seq![stmt] + rest, p2)),
                    }
                } else {
                    Err(ParseError::ExpectedToken)
                }
            },
        }
    }
}

/// The whole parse: the program's statements in one block.
pub open spec fn parse_result_model(toks: Seq<TokenModel>) -> Result<NodeModel, ParseError> {
    match program_model(toks, 0) {
        Err(e) => Err(e),
        Ok((stmts, _)) => Ok(NodeModel::Block(stmts)),
    }
}

/// The cursor state of a parser.
pub struct HlParserModel {
    pub tokens: Seq<TokenModel>,
    pub position: int,
}

pub struct Parser {
    tokens: Vec<Token>,
    position: usize,
}

impl View for Parser {
    type V = HlParserModel;

    closed spec fn view(&self) -> HlParserModel {
        HlParserModel { tokens: toks_view(self.tokens@), position: self.position as int }
    }
}

/// The cursor sits at or before the end of a token list short enough for
/// the cursor arithmetic.
pub open spec fn parser_wf(m: HlParserModel) -> bool {
    &&& 0 <= m.position <= m.tokens.len()
    &&& m.tokens.len() + 2 <= usize::MAX
}

impl Parser {
    /// A parser at the first of the given tokens, which must not be empty.
    pub fn new(tokens: Vec<Token>) -> (r: Parser)
        requires
            tokens@.len() > 0,
            tokens@.len() + 2 <= usize::MAX,
        ensures
            r@.tokens == toks_view(tokens@),
            r@.position == 0,
            parser_wf(r@),
    {
        Parser { tokens, position: 0 }
    }

    /// The token at the given position, the end-of-input token when there is
    /// none.
    fn peek_at(&self, i: usize) -> (r: Token)
        ensures
            r@ == tok_at(self@.tokens, i as int),
    {
        if i < self.tokens.len() {
            self.tokens[i].clone()
        } else {
            Token::EOF
        }
    }

    /// Steps the cursor over one token.
    fn eat(&mut self)
        requires
            parser_wf(old(self)@),
        ensures
            final(self)@.tokens == old(self)@.tokens,
            final(self)@.position == eat_pos(old(self)@.tokens, old(self)@.position),
            parser_wf(final(self)@),
    {
        if self.position < self.tokens.len() {
            self.position = self.position + 1;
        }
    }

    /// The binding power of a token, as `preference` describes.
    fn get_preference(&self, t: &Token) -> (r: i32)
        ensures
            r as int == preference(t@),
    {
        match t {
            Token::EE => 10,
            Token::NE => 10,
            Token::GT => 10,
            Token::LT => 10,
            Token::GTE => 10,
            Token::LTE => 10,
            Token::ADD => 20,
            Token::SUB => 20,
            Token::LPAREN => 0,
            _ => -1,
        }
    }

    /// Parses the whole token stream into one block, as `parse_result_model`
    /// describes.
    pub fn parse(&mut self) -> (r: Result<Node, ParseError>)
        requires
            parser_wf(old(self)@),
            old(self)@.position == 0,
        ensures
            match parse_result_model(old(self)@.tokens) {
                Ok(nm) => r matches Ok(n) && n@ == nm,
                Err(e) => r == Err::<Node, ParseError>(e),
            },
    {
        match self.parse_program() {
            Ok(statements) => {
                proof {
                    crate::compiler::node::lemma_nodes_view(statements@);
                }
                Ok(Node::BLOCK(statements))
            },
            Err(e) => Err(e),
        }
    }

    /// Parses statements up to the end of input, as `program_model`
    /// describes.
    fn parse_program(&mut self) -> (r: Result<Vec<Node>, ParseError>)
        requires
            parser_wf(old(self)@),
        ensures
            final(self)@.tokens == old(self)@.tokens,
            parser_wf(final(self)@),
            match program_model(old(self)@.tokens, old(self)@.position) {
                Ok((stmts, p)) => {
                    &&& r matches Ok(v) && nodes_view(v@) == stmts
                    &&& final(self)@.position == p
                    &&& old(self)@.position <= p <= old(self)@.tokens.len()
                },
                Err(e) => r == Err::<Vec<Node>, ParseError>(e),
            },
        decreases old(self)@.tokens.len() - old(self)@.position, 8int,
    {
        let cur = self.peek_at(self.position);
        let at_end = match &cur {
            Token::EOF => true,
            _ => false,
        };
        if at_end {
            let empty: Vec<Node> = Vec::new();
            proof {
                assert(nodes_view(empty@) =~= Seq::<NodeModel>::empty());
            }
            return Ok(empty);
        }
        let ghost pos0 = self@.position;
        let statement = match self.parse_statement() {
            Ok(s) => s,
            Err(e) => {
                return Err(e);
            },
        };
        let unterminated = match &statement {
            Node::FUNCTION(_, _, _) => true,
            Node::IF(_, _) => true,
            Node::WHILE(_, _) => true,
            Node::FOR(_, _, _, _) => true,
            _ => false,
        };
        if !unterminated {
            let here = self.peek_at(self.position);
            let semi = match &here {
                Token::SEMICOLON => true,
                _ => false,
            };
            if !semi {
                return Err(ParseError::ExpectedToken);
            }
            self.eat();
        }
        proof {
            assert(step_to(old(self)@.tokens, pos0, self@.position) == self@.position);
        }
        let mut rest = match self.parse_program() {
            Ok(v) => v,
            Err(e) => {
                return Err(e);
            },
        };
        let ghost rest_view = nodes_view(rest@);
        let ghost pre_rest = rest@;
        rest.insert(0, statement);
        proof {
            assert(rest@.subrange(1, rest@.len() as int) =~= pre_rest);
            assert(rest@[0] == statement);
            assert(nodes_view(rest@) =~= seq![statement@] + rest_view);
        }
        Ok(rest)
    }

    /// Parses one statement, as `statement_model` describes.
    #[verifier::rlimit(100)]
    fn parse_statement(&mut self) -> (r: Result<Node, ParseError>)
        requires
            parser_wf(old(self)@),
        ensures
            final(self)@.tokens == old(self)@.tokens,
            parser_wf(final(self)@),
            match statement_model(old(self)@.tokens, old(self)@.position) {
                Ok((nm, p)) => {
                    &&& r matches Ok(n) && n@ == nm
                    &&& final(self)@.position == p
                    &&& old(self)@.position < p <= old(self)@.tokens.len()
                },
                Err(e) => r == Err::<Node, ParseError>(e),
            },
        decreases old(self)@.tokens.len() - old(self)@.position, 6int,
    {
        let cur = self.peek_at(self.position);
        match cur {
            Token::LET => self.parse_declaration(),
            Token::USE => self.parse_use(),
            Token::FN => self.parse_function(),
            Token::RETURN => self.parse_return(),
            Token::IF => self.parse_if(),
            Token::WHILE => self.parse_while(),
            Token::FOR => self.parse_for(),
            Token::Identifier(id) => {
                let nxt = self.peek_at(self.position + 1);
                let is_eq = match &nxt {
                    Token::EQ => true,
                    _ => false,
                };
                if is_eq {
                    self.parse_assignment(id)
                } else {
                    self.parse_expression(0)
                }
            },
            Token::HALT => {
                self.eat();
                Ok(Node::HALT)
            },
            _ => self.parse_expression(0),
        }
    }

    /// Parses an expression, as `expression_model` describes.
    fn parse_expression(&mut self, rbp: i32) -> (r: Result<Node, ParseError>)
        requires
            parser_wf(old(self)@),
        ensures
            final(self)@.tokens == old(self)@.tokens,
            parser_wf(final(self)@),
            match expression_model(old(self)@.tokens, old(self)@.position, rbp as int) {
                Ok((nm, p)) => {
                    &&& r matches Ok(n) && n@ == nm
                    &&& final(self)@.position == p
                    &&& old(self)@.position < p <= old(self)@.tokens.len()
                },
                Err(e) => r == Err::<Node, ParseError>(e),
            },
        decreases old(self)@.tokens.len() - old(self)@.position, 3int,
    {
        let ghost pos0 = self@.position;
        let lhs = match self.parse_atom() {
            Ok(n) => n,
            Err(e) => {
                return Err(e);
            },
        };
        self.eat();
        proof {
            assert(step_to(
                old(self)@.tokens,
                pos0,
                eat_pos(old(self)@.tokens, atom_parse_model(old(self)@.tokens, pos0)->Ok_0.1),
            ) == self@.position);
        }
        self.parse_climb(lhs, rbp)
    }

    /// Folds infix steps into the left side, as `climb_model` describes.
    fn parse_climb(&mut self, lhs: Node, rbp: i32) -> (r: Result<Node, ParseError>)
        requires
            parser_wf(old(self)@),
        ensures
            final(self)@.tokens == old(self)@.tokens,
            parser_wf(final(self)@),
            match climb_model(old(self)@.tokens, old(self)@.position, rbp as int, lhs@) {
                Ok((nm, p)) => {
                    &&& r matches Ok(n) && n@ == nm
                    &&& final(self)@.position == p
                    &&& old(self)@.position <= p <= old(self)@.tokens.len()
                },
                Err(e) => r == Err::<Node, ParseError>(e),
            },
        decreases old(self)@.tokens.len() - old(self)@.position, 2int,
    {
        let nxt = self.peek_at(self.position + 1);
        let next_is_eof = match &nxt {
            Token::EOF => true,
            _ => false,
        };
        let cur = self.peek_at(self.position);
        if !next_is_eof && self.get_preference(&cur) >= rbp {
            let ghost pos0 = self@.position;
            let lhs2 = match self.parse_infix(lhs, cur) {
                Ok(n) => n,
                Err(e) => {
                    return Err(e);
                },
            };
            proof {
                assert(step_to(
                    old(self)@.tokens,
                    pos0,
                    infix_model(old(self)@.tokens, pos0, lhs@)->Ok_0.1,
                ) == self@.position);
            }
            self.parse_climb(lhs2, rbp)
        } else {
            Ok(lhs)
        }
    }

    /// Parses one infix step, as `infix_model` describes; the operator is
    /// the token under the cursor.
    fn parse_infix(&mut self, lhs: Node, op: Token) -> (r: Result<Node, ParseError>)
        requires
            parser_wf(old(self)@),
            op@ == tok_at(old(self)@.tokens, old(self)@.position),
        ensures
            final(self)@.tokens == old(self)@.tokens,
            parser_wf(final(self)@),
            match infix_model(old(self)@.tokens, old(self)@.position, lhs@) {
                Ok((nm, p)) => {
                    &&& r matches Ok(n) && n@ == nm
                    &&& final(self)@.position == p
                    &&& old(self)@.position < p <= old(self)@.tokens.len()
                },
                Err(e) => r == Err::<Node, ParseError>(e),
            },
        decreases old(self)@.tokens.len() - old(self)@.position, 1int,
    {
        let supported = match &op {
            Token::ADD => true,
            Token::SUB => true,
            Token::EE => true,
            Token::NE => true,
            Token::LT => true,
            Token::GT => true,
            Token::GTE => true,
            Token::LTE => true,
            _ => false,
        };
        if !supported {
            return Err(ParseError::UnsupportedInfix);
        }
        let bp = self.get_preference(&op);
        self.eat();
        let rhs = match self.parse_expression(bp + 1) {
            Ok(n) => n,
            Err(e) => {
                return Err(e);
            },
        };
        Ok(Node::INFIX(Box::new(lhs), op, Box::new(rhs)))
    }

    /// Parses an atom, as `atom_parse_model` describes.
    fn parse_atom(&mut self) -> (r: Result<Node, ParseError>)
        requires
            parser_wf(old(self)@),
        ensures
            final(self)@.tokens == old(self)@.tokens,
            parser_wf(final(self)@),
            match atom_parse_model(old(self)@.tokens, old(self)@.position) {
                Ok((nm, p)) => {
                    &&& r matches Ok(n) && n@ == nm
                    &&& final(self)@.position == p
                    &&& old(self)@.position <= p <= old(self)@.tokens.len()
                },
                Err(e) => r == Err::<Node, ParseError>(e),
            },
        decreases old(self)@.tokens.len() - old(self)@.position, 2int,
    {
        let cur = self.peek_at(self.position);
        match cur {
            Token::Number(value) => Ok(Node::NUMBER(value)),
            Token::String(value) => Ok(Node::STRING(value)),
            Token::Identifier(id) => {
                let nxt = self.peek_at(self.position + 1);
                let calls = match &nxt {
                    Token::LPAREN => true,
                    _ => false,
                };
                if calls {
                    self.parse_invocation(id)
                } else {
                    Ok(Node::IDENTIFIER(id))
                }
            },
            Token::LPAREN => {
                self.eat();
                let n = match self.parse_expression(0) {
                    Ok(n) => n,
                    Err(e) => {
                        return Err(e);
                    },
                };
                let closing = self.peek_at(self.position);
                match &closing {
                    Token::RPAREN => Ok(n),
                    _ => Err(ParseError::ExpectedToken),
                }
            },
            _ => Err(ParseError::UnexpectedAtom),
        }
    }

    /// Parses a call's arguments after the identifier, as `invocation_model`
    /// describes.
    fn parse_invocation(&mut self, identifier: String) -> (r: Result<Node, ParseError>)
        requires
            parser_wf(old(self)@),
            tok_at(old(self)@.tokens, old(self)@.position) == TokenModel::Identifier(identifier@),
        ensures
            final(self)@.tokens == old(self)@.tokens,
            parser_wf(final(self)@),
            match invocation_model(old(self)@.tokens, old(self)@.position, identifier@) {
                Ok((nm, p)) => {
                    &&& r matches Ok(n) && n@ == nm
                    &&& final(self)@.position == p
                    &&& old(self)@.position <= p <= old(self)@.tokens.len()
                },
                Err(e) => r == Err::<Node, ParseError>(e),
            },
        decreases old(self)@.tokens.len() - old(self)@.position, 1int,
    {
        self.eat();
        self.eat();
        let args = match self.parse_invocation_args() {
            Ok(v) => v,
            Err(e) => {
                return Err(e);
            },
        };
        proof {
            crate::compiler::node::lemma_nodes_view(args@);
        }
        Ok(Node::INVOCATION(identifier, args))
    }

    /// Parses comma-separated argument expressions, as
    /// `invocation_args_model` describes.
    fn parse_invocation_args(&mut self) -> (r: Result<Vec<Node>, ParseError>)
        requires
            parser_wf(old(self)@),
        ensures
            final(self)@.tokens == old(self)@.tokens,
            parser_wf(final(self)@),
            match invocation_args_model(old(self)@.tokens, old(self)@.position) {
                Ok((args, p)) => {
                    &&& r matches Ok(v) && nodes_view(v@) == args
                    &&& final(self)@.position == p
                    &&& old(self)@.position <= p <= old(self)@.tokens.len()
                },
                Err(e) => r == Err::<Vec<Node>, ParseError>(e),
            },
        decreases old(self)@.tokens.len() - old(self)@.position, 4int,
    {
        let cur = self.peek_at(self.position);
        let at_end = match &cur {
            Token::RPAREN => true,
            Token::EOF => true,
            _ => false,
        };
        if at_end {
            let empty: Vec<Node> = Vec::new();
            proof {
                assert(nodes_view(empty@) =~= Seq::<NodeModel>::empty());
            }
            return Ok(empty);
        }
        let ghost pos0 = self@.position;
        let expr = match self.parse_expression(0) {
            Ok(n) => n,
            Err(e) => {
                return Err(e);
            },
        };
        let here = self.peek_at(self.position);
        let is_comma = match &here {
            Token::COMMA => true,
            _ => false,
        };
        let is_rparen = match &here {
            Token::RPAREN => true,
            _ => false,
        };
        if !is_comma && !is_rparen {
            return Err(ParseError::ExpectedArgDelimiter);
        }
        if is_comma {
            self.eat();
        }
        proof {
            assert(step_to(old(self)@.tokens, pos0, self@.position) == self@.position);
        }
        let mut rest = match self.parse_invocation_args() {
            Ok(v) => v,
            Err(e) => {
                return Err(e);
            },
        };
        let ghost rest_view = nodes_view(rest@);
        let ghost pre_rest = rest@;
        rest.insert(0, expr);
        proof {
            assert(rest@.subrange(1, rest@.len() as int) =~= pre_rest);
            assert(rest@[0] == expr);
            assert(nodes_view(rest@) =~= seq![expr@] + rest_view);
        }
        Ok(rest)
    }

    /// Parses a library reference, as `use_model` describes.
    fn parse_use(&mut self) -> (r: Result<Node, ParseError>)
        requires
            parser_wf(old(self)@),
            tok_at(old(self)@.tokens, old(self)@.position) is USE,
        ensures
            final(self)@.tokens == old(self)@.tokens,
            parser_wf(final(self)@),
            match use_model(old(self)@.tokens, old(self)@.position) {
                Ok((nm, p)) => {
                    &&& r matches Ok(n) && n@ == nm
                    &&& final(self)@.position == p
                    &&& old(self)@.position < p <= old(self)@.tokens.len()
                },
                Err(e) => r == Err::<Node, ParseError>(e),
            },
    {
        let nxt = self.peek_at(self.position + 1);
        match nxt {
            Token::Identifier(id) => {
                self.eat();
                self.eat();
                Ok(Node::LIBRARY(id))
            },
            _ => Err(ParseError::ExpectedToken),
        }
    }

    /// Parses a return statement, as `return_model` describes.
    fn parse_return(&mut self) -> (r: Result<Node, ParseError>)
        requires
            parser_wf(old(self)@),
            tok_at(old(self)@.tokens, old(self)@.position) is RETURN,
        ensures
            final(self)@.tokens == old(self)@.tokens,
            parser_wf(final(self)@),
            match return_model(old(self)@.tokens, old(self)@.position) {
                Ok((nm, p)) => {
                    &&& r matches Ok(n) && n@ == nm
                    &&& final(self)@.position == p
                    &&& old(self)@.position < p <= old(self)@.tokens.len()
                },
                Err(e) => r == Err::<Node, ParseError>(e),
            },
        decreases old(self)@.tokens.len() - old(self)@.position, 5int,
    {
        self.eat();
        let cur = self.peek_at(self.position);
        let semi = match &cur {
            Token::SEMICOLON => true,
            _ => false,
        };
        if semi {
            proof {
                assert(crate::compiler::node::node_view(Node::NUMBER(0)) == NodeModel::Number(0));
            }
            return Ok(Node::RETURN(Box::new(Node::NUMBER(0))));
        }
        let expr = match self.parse_expression(0) {
            Ok(n) => n,
            Err(e) => {
                return Err(e);
            },
        };
        Ok(Node::RETURN(Box::new(expr)))
    }

    /// Parses a declaration, as `declaration_model` describes.
    fn parse_declaration(&mut self) -> (r: Result<Node, ParseError>)
        requires
            parser_wf(old(self)@),
            tok_at(old(self)@.tokens, old(self)@.position) is LET,
        ensures
            final(self)@.tokens == old(self)@.tokens,
            parser_wf(final(self)@),
            match declaration_model(old(self)@.tokens, old(self)@.position) {
                Ok((nm, p)) => {
                    &&& r matches Ok(n) && n@ == nm
                    &&& final(self)@.position == p
                    &&& old(self)@.position < p <= old(self)@.tokens.len()
                },
                Err(e) => r == Err::<Node, ParseError>(e),
            },
        decreases old(self)@.tokens.len() - old(self)@.position, 5int,
    {
        let ghost pos0 = self@.position;
        let nxt = self.peek_at(self.position + 1);
        let id = match nxt {
            Token::Identifier(id) => id,
            _ => {
                return Err(ParseError::ExpectedToken);
            },
        };
        self.eat();
        let after = self.peek_at(self.position + 1);
        let semi = match &after {
            Token::SEMICOLON => true,
            _ => false,
        };
        if semi {
            self.eat();
            proof {
                assert(crate::compiler::node::node_view(Node::NUMBER(0)) == NodeModel::Number(0));
            }
            return Ok(Node::DECLARATION(id, Box::new(Node::NUMBER(0))));
        }
        let is_eq = match &after {
            Token::EQ => true,
            _ => false,
        };
        if !is_eq {
            return Err(ParseError::ExpectedToken);
        }
        self.eat();
        self.eat();
        proof {
            assert(step_to(old(self)@.tokens, pos0, pos0 + 3) == self@.position);
        }
        let expr = match self.parse_expression(0) {
            Ok(n) => n,
            Err(e) => {
                return Err(e);
            },
        };
        Ok(Node::DECLARATION(id, Box::new(expr)))
    }

    /// Parses an assignment, as `assignment_model` describes; the identifier
    /// is the token under the cursor.
    fn parse_assignment(&mut self, identifier: String) -> (r: Result<Node, ParseError>)
        requires
            parser_wf(old(self)@),
            tok_at(old(self)@.tokens, old(self)@.position) == TokenModel::Identifier(identifier@),
        ensures
            final(self)@.tokens == old(self)@.tokens,
            parser_wf(final(self)@),
            match assignment_model(old(self)@.tokens, old(self)@.position, identifier@) {
                Ok((nm, p)) => {
                    &&& r matches Ok(n) && n@ == nm
                    &&& final(self)@.position == p
                    &&& old(self)@.position < p <= old(self)@.tokens.len()
                },
                Err(e) => r == Err::<Node, ParseError>(e),
            },
        decreases old(self)@.tokens.len() - old(self)@.position, 5int,
    {
        let ghost pos0 = self@.position;
        let nxt = self.peek_at(self.position + 1);
        let is_eq = match &nxt {
            Token::EQ => true,
            _ => false,
        };
        if !is_eq {
            return Err(ParseError::ExpectedToken);
        }
        self.eat();
        self.eat();
        proof {
            assert(step_to(old(self)@.tokens, pos0, pos0 + 2) == self@.position);
        }
        let expr = match self.parse_expression(0) {
            Ok(n) => n,
            Err(e) => {
                return Err(e);
            },
        };
        Ok(Node::ASSIGNMENT(identifier, Box::new(expr)))
    }

    /// Parses comma-separated formal parameters, as `params_model` describes.
    fn parse_function_params(&mut self) -> (r: Result<Vec<String>, ParseError>)
        requires
            parser_wf(old(self)@),
        ensures
            final(self)@.tokens == old(self)@.tokens,
            parser_wf(final(self)@),
            match params_model(old(self)@.tokens, old(self)@.position) {
                Ok((params, p)) => {
                    &&& r matches Ok(v) && names_view(v@) == params
                    &&& final(self)@.position == p
                    &&& old(self)@.position <= p <= old(self)@.tokens.len()
                },
                Err(e) => r == Err::<Vec<String>, ParseError>(e),
            },
        decreases old(self)@.tokens.len() - old(self)@.position, 4int,
    {
        let cur = self.peek_at(self.position);
        let at_end = match &cur {
            Token::RPAREN => true,
            Token::EOF => true,
            _ => false,
        };
        if at_end {
            let empty: Vec<String> = Vec::new();
            proof {
                assert(names_view(empty@) =~= Seq::<Seq<char>>::empty());
            }
            return Ok(empty);
        }
        let ghost pos0 = self@.position;
        let id = match cur {
            Token::Identifier(id) => id,
            _ => {
                return Err(ParseError::ExpectedParamIdent);
            },
        };
        self.eat();
        let here = self.peek_at(self.position);
        let is_comma = match &here {
            Token::COMMA => true,
            _ => false,
        };
        let is_rparen = match &here {
            Token::RPAREN => true,
            _ => false,
        };
        if !is_comma && !is_rparen {
            return Err(ParseError::ExpectedParamDelimiter);
        }
        if is_comma {
            self.eat();
        }
        proof {
            assert(step_to(old(self)@.tokens, pos0, self@.position) == self@.position);
        }
        let mut rest = match self.parse_function_params() {
            Ok(v) => v,
            Err(e) => {
                return Err(e);
            },
        };
        let ghost rest_view = names_view(rest@);
        let ghost pre_rest = rest@;
        rest.insert(0, id);
        proof {
            assert(rest@.subrange(1, rest@.len() as int) =~= pre_rest);
            assert(names_view(rest@) =~= seq![rest@[0]@] + rest_view);
        }
        Ok(rest)
    }

    /// Parses a function, as `function_model` describes.
    fn parse_function(&mut self) -> (r: Result<Node, ParseError>)
        requires
            parser_wf(old(self)@),
            tok_at(old(self)@.tokens, old(self)@.position) is FN,
        ensures
            final(self)@.tokens == old(self)@.tokens,
            parser_wf(final(self)@),
            match function_model(old(self)@.tokens, old(self)@.position) {
                Ok((nm, p)) => {
                    &&& r matches Ok(n) && n@ == nm
                    &&& final(self)@.position == p
                    &&& old(self)@.position < p <= old(self)@.tokens.len()
                },
                Err(e) => r == Err::<Node, ParseError>(e),
            },
        decreases old(self)@.tokens.len() - old(self)@.position, 5int,
    {
        let ghost pos0 = self@.position;
        let nxt = self.peek_at(self.position + 1);
        let id = match nxt {
            Token::Identifier(id) => id,
            _ => {
                return Err(ParseError::ExpectedToken);
            },
        };
        self.eat();
        let after = self.peek_at(self.position + 1);
        let is_lparen = match &after {
            Token::LPAREN => true,
            _ => false,
        };
        if !is_lparen {
            return Err(ParseError::ExpectedToken);
        }
        self.eat();
        self.eat();
        proof {
            assert(step_to(old(self)@.tokens, pos0, pos0 + 3) == self@.position);
        }
        let args = match self.parse_function_params() {
            Ok(v) => v,
            Err(e) => {
                return Err(e);
            },
        };
        let ghost p1 = self@.position;
        let brace = self.peek_at(self.position + 1);
        let is_lbrace = match &brace {
            Token::LBRACE => true,
            _ => false,
        };
        if !is_lbrace {
            return Err(ParseError::ExpectedToken);
        }
        self.eat();
        self.eat();
        proof {
            assert(step_to(old(self)@.tokens, pos0, p1 + 2) == self@.position);
        }
        let statements = match self.parse_block() {
            Ok(v) => v,
            Err(e) => {
                return Err(e);
            },
        };
        self.eat();
        proof {
            crate::compiler::node::lemma_nodes_view(statements@);
            assert(crate::compiler::node::node_view(Node::BLOCK(statements)) == NodeModel::Block(
                nodes_view(statements@),
            ));
        }
        Ok(Node::FUNCTION(id, args, Box::new(Node::BLOCK(statements))))
    }

    /// Parses statements up to a closing brace, as `block_model` describes.
    fn parse_block(&mut self) -> (r: Result<Vec<Node>, ParseError>)
        requires
            parser_wf(old(self)@),
        ensures
            final(self)@.tokens == old(self)@.tokens,
            parser_wf(final(self)@),
            match block_model(old(self)@.tokens, old(self)@.position) {
                Ok((stmts, p)) => {
                    &&& r matches Ok(v) && nodes_view(v@) == stmts
                    &&& final(self)@.position == p
                    &&& old(self)@.position <= p <= old(self)@.tokens.len()
                },
                Err(e) => r == Err::<Vec<Node>, ParseError>(e),
            },
        decreases old(self)@.tokens.len() - old(self)@.position, 7int,
    {
        let cur = self.peek_at(self.position);
        let at_end = match &cur {
            Token::EOF => true,
            Token::RBRACE => true,
            _ => false,
        };
        if at_end {
            let empty: Vec<Node> = Vec::new();
            proof {
                assert(nodes_view(empty@) =~= Seq::<NodeModel>::empty());
            }
            return Ok(empty);
        }
        let ghost pos0 = self@.position;
        let statement = match self.parse_statement() {
            Ok(s) => s,
            Err(e) => {
                return Err(e);
            },
        };
        let unterminated = match &statement {
            Node::FUNCTION(_, _, _) => true,
            Node::IF(_, _) => true,
            Node::WHILE(_, _) => true,
            Node::FOR(_, _, _, _) => true,
            _ => false,
        };
        if !unterminated {
            let here = self.peek_at(self.position);
            let semi = match &here {
                Token::SEMICOLON => true,
                _ => false,
            };
            if !semi {
                return Err(ParseError::ExpectedToken);
            }
            self.eat();
        }
        proof {
            assert(step_to(old(self)@.tokens, pos0, self@.position) == self@.position);
        }
        let mut rest = match self.parse_block() {
            Ok(v) => v,
            Err(e) => {
                return Err(e);
            },
        };
        let ghost rest_view = nodes_view(rest@);
        let ghost pre_rest = rest@;
        rest.insert(0, statement);
        proof {
            assert(rest@.subrange(1, rest@.len() as int) =~= pre_rest);
            assert(rest@[0] == statement);
            assert(nodes_view(rest@) =~= seq![statement@] + rest_view);
        }
        Ok(rest)
    }

    /// Parses the conditional arms of an if statement, as `if_conds_model`
    /// describes.
    fn parse_if_conditionals(&mut self) -> (r: Result<Vec<Node>, ParseError>)
        requires
            parser_wf(old(self)@),
        ensures
            final(self)@.tokens == old(self)@.tokens,
            parser_wf(final(self)@),
            match if_conds_model(old(self)@.tokens, old(self)@.position) {
                Ok((conds, p)) => {
                    &&& r matches Ok(v) && nodes_view(v@) == conds
                    &&& final(self)@.position == p
                    &&& old(self)@.position <= p <= old(self)@.tokens.len()
                    &&& (tok_at(old(self)@.tokens, old(self)@.position) is IF || tok_at(
                        old(self)@.tokens,
                        old(self)@.position,
                    ) is ELIF) ==> old(self)@.position < p
                },
                Err(e) => r == Err::<Vec<Node>, ParseError>(e),
            },
        decreases old(self)@.tokens.len() - old(self)@.position, 4int,
    {
        let cur = self.peek_at(self.position);
        let arm = match &cur {
            Token::IF => true,
            Token::ELIF => true,
            _ => false,
        };
        if !arm {
            let empty: Vec<Node> = Vec::new();
            proof {
                assert(nodes_view(empty@) =~= Seq::<NodeModel>::empty());
            }
            return Ok(empty);
        }
        let ghost pos0 = self@.position;
        self.eat();
        let condition = match self.parse_expression(0) {
            Ok(n) => n,
            Err(e) => {
                return Err(e);
            },
        };
        let brace = self.peek_at(self.position);
        let is_lbrace = match &brace {
            Token::LBRACE => true,
            _ => false,
        };
        if !is_lbrace {
            return Err(ParseError::ExpectedToken);
        }
        self.eat();
        proof {
            assert(step_to(old(self)@.tokens, pos0, self@.position) == self@.position);
        }
        let statements = match self.parse_block() {
            Ok(v) => v,
            Err(e) => {
                return Err(e);
            },
        };
        let closing = self.peek_at(self.position);
        let is_rbrace = match &closing {
            Token::RBRACE => true,
            _ => false,
        };
        if !is_rbrace {
            return Err(ParseError::ExpectedToken);
        }
        self.eat();
        proof {
            assert(step_to(old(self)@.tokens, pos0, self@.position) == self@.position);
        }
        let mut rest = match self.parse_if_conditionals() {
            Ok(v) => v,
            Err(e) => {
                return Err(e);
            },
        };
        proof {
            crate::compiler::node::lemma_nodes_view(statements@);
        }
        let ghost rest_view = nodes_view(rest@);
        let ghost pre_rest = rest@;
        proof {
            assert(crate::compiler::node::node_view(Node::BLOCK(statements)) == NodeModel::Block(
                nodes_view(statements@),
            ));
        }
        let conditional = Node::CONDITIONAL(
            Box::new(condition),
            Box::new(Node::BLOCK(statements)),
        );
        proof {
            assert(conditional@ == NodeModel::Conditional(
                Box::new(condition@),
                Box::new(NodeModel::Block(nodes_view(statements@))),
            ));
        }
        rest.insert(0, conditional);
        proof {
            assert(rest@.subrange(1, rest@.len() as int) =~= pre_rest);
            assert(nodes_view(rest@) =~= seq![rest@[0]@] + rest_view);
        }
        Ok(rest)
    }

    /// Parses an if statement, as `if_model` describes.
    fn parse_if(&mut self) -> (r: Result<Node, ParseError>)
        requires
            parser_wf(old(self)@),
            tok_at(old(self)@.tokens, old(self)@.position) is IF,
        ensures
            final(self)@.tokens == old(self)@.tokens,
            parser_wf(final(self)@),
            match if_model(old(self)@.tokens, old(self)@.position) {
                Ok((nm, p)) => {
                    &&& r matches Ok(n) && n@ == nm
                    &&& final(self)@.position == p
                    &&& old(self)@.position < p <= old(self)@.tokens.len()
                },
                Err(e) => r == Err::<Node, ParseError>(e),
            },
        decreases old(self)@.tokens.len() - old(self)@.position, 5int,
    {
        let ghost pos0 = self@.position;
        let conditionals = match self.parse_if_conditionals() {
            Ok(v) => v,
            Err(e) => {
                return Err(e);
            },
        };
        proof {
            crate::compiler::node::lemma_nodes_view(conditionals@);
        }
        let ghost p1 = self@.position;
        let cur = self.peek_at(self.position);
        let has_else = match &cur {
            Token::ELSE => true,
            _ => false,
        };
        if !has_else {
            let empty_else: Vec<Node> = Vec::new();
            proof {
                assert(nodes_view(empty_else@) =~= Seq::<NodeModel>::empty());
                assert(crate::compiler::node::node_view(Node::BLOCK(empty_else)) == NodeModel::Block(
                    nodes_view(empty_else@),
                ));
            }
            return Ok(Node::IF(conditionals, Box::new(Node::BLOCK(empty_else))));
        }
        let brace = self.peek_at(self.position + 1);
        let is_lbrace = match &brace {
            Token::LBRACE => true,
            _ => false,
        };
        if !is_lbrace {
            return Err(ParseError::ExpectedToken);
        }
        self.eat();
        self.eat();
        proof {
            assert(step_to(old(self)@.tokens, pos0, p1 + 2) == self@.position);
        }
        let statements = match self.parse_block() {
            Ok(v) => v,
            Err(e) => {
                return Err(e);
            },
        };
        let closing = self.peek_at(self.position);
        let is_rbrace = match &closing {
            Token::RBRACE => true,
            _ => false,
        };
        if !is_rbrace {
            return Err(ParseError::ExpectedToken);
        }
        self.eat();
        proof {
            crate::compiler::node::lemma_nodes_view(statements@);
            assert(crate::compiler::node::node_view(Node::BLOCK(statements)) == NodeModel::Block(
                nodes_view(statements@),
            ));
        }
        Ok(Node::IF(conditionals, Box::new(Node::BLOCK(statements))))
    }

    /// Parses a while statement, as `while_model` describes.
    fn parse_while(&mut self) -> (r: Result<Node, ParseError>)
        requires
            parser_wf(old(self)@),
            tok_at(old(self)@.tokens, old(self)@.position) is WHILE,
        ensures
            final(self)@.tokens == old(self)@.tokens,
            parser_wf(final(self)@),
            match while_model(old(self)@.tokens, old(self)@.position) {
                Ok((nm, p)) => {
                    &&& r matches Ok(n) && n@ == nm
                    &&& final(self)@.position == p
                    &&& old(self)@.position < p <= old(self)@.tokens.len()
                },
                Err(e) => r == Err::<Node, ParseError>(e),
            },
        decreases old(self)@.tokens.len() - old(self)@.position, 5int,
    {
        let ghost pos0 = self@.position;
        self.eat();
        let condition = match self.parse_expression(0) {
            Ok(n) => n,
            Err(e) => {
                return Err(e);
            },
        };
        let brace = self.peek_at(self.position);
        let is_lbrace = match &brace {
            Token::LBRACE => true,
            _ => false,
        };
        if !is_lbrace {
            return Err(ParseError::ExpectedToken);
        }
        self.eat();
        proof {
            assert(step_to(old(self)@.tokens, pos0, self@.position) == self@.position);
        }
        let statements = match self.parse_block() {
            Ok(v) => v,
            Err(e) => {
                return Err(e);
            },
        };
        let closing = self.peek_at(self.position);
        let is_rbrace = match &closing {
            Token::RBRACE => true,
            _ => false,
        };
        if !is_rbrace {
            return Err(ParseError::ExpectedToken);
        }
        self.eat();
        proof {
            crate::compiler::node::lemma_nodes_view(statements@);
            assert(crate::compiler::node::node_view(Node::BLOCK(statements)) == NodeModel::Block(
                nodes_view(statements@),
            ));
        }
        Ok(Node::WHILE(Box::new(condition), Box::new(Node::BLOCK(statements))))
    }

    /// Parses a for statement, as `for_model` describes.
    #[verifier::rlimit(100)]
    fn parse_for(&mut self) -> (r: Result<Node, ParseError>)
        requires
            parser_wf(old(self)@),
            tok_at(old(self)@.tokens, old(self)@.position) is FOR,
        ensures
            final(self)@.tokens == old(self)@.tokens,
            parser_wf(final(self)@),
            match for_model(old(self)@.tokens, old(self)@.position) {
                Ok((nm, p)) => {
                    &&& r matches Ok(n) && n@ == nm
                    &&& final(self)@.position == p
                    &&& old(self)@.position < p <= old(self)@.tokens.len()
                },
                Err(e) => r == Err::<Node, ParseError>(e),
            },
        decreases old(self)@.tokens.len() - old(self)@.position, 5int,
    {
        let ghost pos0 = self@.position;
        let nxt = self.peek_at(self.position + 1);
        let is_lparen = match &nxt {
            Token::LPAREN => true,
            _ => false,
        };
        if !is_lparen {
            return Err(ParseError::ExpectedToken);
        }
        self.eat();
        self.eat();
        proof {
            assert(step_to(old(self)@.tokens, pos0, self@.position) == self@.position);
        }
        let declaration = match self.parse_statement() {
            Ok(n) => n,
            Err(e) => {
                return Err(e);
            },
        };
        let semi1 = self.peek_at(self.position);
        let is_semi1 = match &semi1 {
            Token::SEMICOLON => true,
            _ => false,
        };
        if !is_semi1 {
            return Err(ParseError::ExpectedToken);
        }
        self.eat();
        proof {
            assert(step_to(old(self)@.tokens, pos0, self@.position) == self@.position);
        }
        let condition = match self.parse_expression(0) {
            Ok(n) => n,
            Err(e) => {
                return Err(e);
            },
        };
        let semi2 = self.peek_at(self.position);
        let is_semi2 = match &semi2 {
            Token::SEMICOLON => true,
            _ => false,
        };
        if !is_semi2 {
            return Err(ParseError::ExpectedToken);
        }
        self.eat();
        proof {
            assert(step_to(old(self)@.tokens, pos0, self@.position) == self@.position);
        }
        let step = match self.parse_statement() {
            Ok(n) => n,
            Err(e) => {
                return Err(e);
            },
        };
        let rparen = self.peek_at(self.position);
        let is_rparen = match &rparen {
            Token::RPAREN => true,
            _ => false,
        };
        if !is_rparen {
            return Err(ParseError::ExpectedToken);
        }
        let brace = self.peek_at(self.position + 1);
        let is_lbrace = match &brace {
            Token::LBRACE => true,
            _ => false,
        };
        if !is_lbrace {
            return Err(ParseError::ExpectedToken);
        }
        self.eat();
        self.eat();
        proof {
            assert(step_to(old(self)@.tokens, pos0, self@.position) == self@.position);
        }
        let statements = match self.parse_block() {
            Ok(v) => v,
            Err(e) => {
                return Err(e);
            },
        };
        let closing = self.peek_at(self.position);
        let is_rbrace = match &closing {
            Token::RBRACE => true,
            _ => false,
        };
        if !is_rbrace {
            return Err(ParseError::ExpectedToken);
        }
        self.eat();
        proof {
            crate::compiler::node::lemma_nodes_view(statements@);
            assert(crate::compiler::node::node_view(Node::BLOCK(statements)) == NodeModel::Block(
                nodes_view(statements@),
            ));
        }
        Ok(
            Node::FOR(
                Box::new(declaration),
                Box::new(condition),
                Box::new(step),
                Box::new(Node::BLOCK(statements)),
            ),
        )
    }
}

} // verus!
