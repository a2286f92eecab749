//! The abstract syntax tree of the source language.

use vstd::prelude::*;
use crate::compiler::lexer::{Token, TokenModel};

verus! {

/// One node of the syntax tree.
#[derive(Debug, PartialEq)]
pub enum Node {
    BLOCK(Vec<Node>),
    /// identifier, expression
    DECLARATION(String, Box<Node>),
    ASSIGNMENT(String, Box<Node>),
    INFIX(Box<Node>, Token, Box<Node>),
    INVOCATION(String, Vec<Node>),
    LIBRARY(String),
    FUNCTION(String, Vec<String>, Box<Node>),
    RETURN(Box<Node>),
    /// list of conditionals, else block
    IF(Vec<Node>, Box<Node>),
    /// condition, consequence
    CONDITIONAL(Box<Node>, Box<Node>),
    /// condition, body
    WHILE(Box<Node>, Box<Node>),
    /// declaration, condition, step, body
    FOR(Box<Node>, Box<Node>, Box<Node>, Box<Node>),
    HALT,
    IDENTIFIER(String),
    NUMBER(i32),
    STRING(String),
}

/// The mathematical value of a node: names and strings as character
/// sequences, children as sequences of values.
pub enum NodeModel {
    Block(Seq<NodeModel>),
    Declaration(Seq<char>, Box<NodeModel>),
    Assignment(Seq<char>, Box<NodeModel>),
    Infix(Box<NodeModel>, TokenModel, Box<NodeModel>),
    Invocation(Seq<char>, Seq<NodeModel>),
    Library(Seq<char>),
    Function(Seq<char>, Seq<Seq<char>>, Box<NodeModel>),
    Return(Box<NodeModel>),
    If(Seq<NodeModel>, Box<NodeModel>),
    Conditional(Box<NodeModel>, Box<NodeModel>),
    While(Box<NodeModel>, Box<NodeModel>),
    For(Box<NodeModel>, Box<NodeModel>, Box<NodeModel>, Box<NodeModel>),
    Halt,
    Identifier(Seq<char>),
    Number(i32),
    StringLit(Seq<char>),
}

/// The values of a sequence of names.
pub open spec fn names_view(v: Seq<String>) -> Seq<Seq<char>> {
    Seq::new(v.len(), |i: int| v[i]@)
}

/// The value of a node.
pub open spec fn node_view(n: Node) -> NodeModel
    decreases n, 1int,
{
    match n {
        Node::BLOCK(stmts) => NodeModel::Block(nodes_view(stmts@)),
        Node::DECLARATION(id, e) => NodeModel::Declaration(id@, Box::new(node_view(*e))),
        Node::ASSIGNMENT(id, e) => NodeModel::Assignment(id@, Box::new(node_view(*e))),
        Node::INFIX(l, op, r) => NodeModel::Infix(
            Box::new(node_view(*l)),
            op@,
            Box::new(node_view(*r)),
        ),
        Node::INVOCATION(id, args) => NodeModel::Invocation(id@, nodes_view(args@)),
        Node::LIBRARY(id) => NodeModel::Library(id@),
        Node::FUNCTION(id, params, body) => NodeModel::Function(
            id@,
            names_view(params@),
            Box::new(node_view(*body)),
        ),
        Node::RETURN(e) => NodeModel::Return(Box::new(node_view(*e))),
        Node::IF(conds, alt) => NodeModel::If(nodes_view(conds@), Box::new(node_view(*alt))),
        Node::CONDITIONAL(c, b) => NodeModel::Conditional(
            Box::new(node_view(*c)),
            Box::new(node_view(*b)),
        ),
        Node::WHILE(c, b) => NodeModel::While(Box::new(node_view(*c)), Box::new(node_view(*b))),
        Node::FOR(d, c, s, b) => NodeModel::For(
            Box::new(node_view(*d)),
            Box::new(node_view(*c)),
            Box::new(node_view(*s)),
            Box::new(node_view(*b)),
        ),
        Node::HALT => NodeModel::Halt,
        Node::IDENTIFIER(id) => NodeModel::Identifier(id@),
        Node::NUMBER(v) => NodeModel::Number(v),
        Node::STRING(s) => NodeModel::StringLit(s@),
    }
}

/// The values of a sequence of nodes.
pub open spec fn nodes_view(v: Seq<Node>) -> Seq<NodeModel>
    decreases v, 0int,
{
    if v.len() == 0 {
        Seq::empty()
    } else {
        seq![node_view(v[0])] + nodes_view(v.subrange(1, v.len() as int))
    }
}

/// The value sequence of a node sequence holds each node's value in place.
pub proof fn lemma_nodes_view(v: Seq<Node>)
    ensures
        nodes_view(v).len() == v.len(),
        forall|i: int| 0 <= i < v.len() ==> nodes_view(v)[i] == node_view(#[trigger] v[i]),
    decreases v.len(),
{
    if v.len() > 0 {
        lemma_nodes_view(v.subrange(1, v.len() as int));
        assert forall|i: int| 0 <= i < v.len() implies nodes_view(v)[i] == node_view(
            #[trigger] v[i],
        ) by {
            if i > 0 {
                assert(v.subrange(1, v.len() as int)[i - 1] == v[i]);
            }
        }
    }
}

impl View for Node {
    type V = NodeModel;

    open spec fn view(&self) -> NodeModel {
        node_view(*self)
    }
}

/// The number of nodes in a tree; the measure that code generation
/// recursion descends along.
pub open spec fn node_size(n: NodeModel) -> nat
    decreases n, 1int,
{
    match n {
        NodeModel::Block(stmts) => 1 + seq_size(stmts),
        NodeModel::Declaration(_, e) => 1 + node_size(*e),
        NodeModel::Assignment(_, e) => 1 + node_size(*e),
        NodeModel::Infix(l, _, r) => 1 + node_size(*l) + node_size(*r),
        NodeModel::Invocation(_, args) => 1 + seq_size(args),
        NodeModel::Library(_) => 1,
        NodeModel::Function(_, _, b) => 1 + node_size(*b),
        NodeModel::Return(e) => 1 + node_size(*e),
        NodeModel::If(conds, alt) => 1 + seq_size(conds) + node_size(*alt),
        NodeModel::Conditional(c, b) => 1 + node_size(*c) + node_size(*b),
        NodeModel::While(c, b) => 1 + node_size(*c) + node_size(*b),
        NodeModel::For(d, c, s, b) => 1 + node_size(*d) + node_size(*c) + node_size(*s)
            + node_size(*b),
        NodeModel::Halt => 1,
        NodeModel::Identifier(_) => 1,
        NodeModel::Number(_) => 1,
        NodeModel::StringLit(_) => 1,
    }
}

/// The total number of nodes in a sequence of trees.
pub open spec fn seq_size(s: Seq<NodeModel>) -> nat
    decreases s, 0int,
{
    if s.len() == 0 {
        0
    } else {
        node_size(s[0]) + seq_size(s.subrange(1, s.len() as int))
    }
}

/// Every tree has at least one node.
pub proof fn lemma_node_size_pos(n: NodeModel)
    ensures
        node_size(n) >= 1,
{
}

/// The integer literals a tree mentions.
pub open spec fn literals_of(n: NodeModel) -> Set<i32>
    decreases n, 1int,
{
    match n {
        NodeModel::Block(stmts) => seq_literals(stmts),
        NodeModel::Declaration(_, e) => literals_of(*e),
        NodeModel::Assignment(_, e) => literals_of(*e),
        NodeModel::Infix(l, _, r) => literals_of(*l).union(literals_of(*r)),
        NodeModel::Invocation(_, args) => seq_literals(args),
        NodeModel::Library(_) => Set::empty(),
        NodeModel::Function(_, _, b) => literals_of(*b),
        NodeModel::Return(e) => literals_of(*e),
        NodeModel::If(conds, alt) => cond_literals(conds).union(literals_of(*alt)),
        NodeModel::Conditional(c, b) => literals_of(*c).union(literals_of(*b)),
        NodeModel::While(c, b) => literals_of(*c).union(literals_of(*b)),
        NodeModel::For(d, c, s, b) => literals_of(*d).union(literals_of(*c)).union(
            literals_of(*s),
        ).union(literals_of(*b)),
        NodeModel::Halt => Set::empty(),
        NodeModel::Identifier(_) => Set::empty(),
        NodeModel::Number(v) => Set::empty().insert(v),
        NodeModel::StringLit(_) => Set::empty(),
    }
}

/// The integer literals a sequence of trees mentions.
pub open spec fn seq_literals(s: Seq<NodeModel>) -> Set<i32>
    decreases s, 0int,
{
    if s.len() == 0 {
        Set::empty()
    } else {
        literals_of(s[0]).union(seq_literals(s.subrange(1, s.len() as int)))
    }
}

/// The integer literals a conditional list mentions. An element that is not
/// a conditional is passed over by the lowering, so its literals do not
/// count.
pub open spec fn cond_literals(s: Seq<NodeModel>) -> Set<i32>
    decreases s, 0int,
{
    if s.len() == 0 {
        Set::empty()
    } else {
        (match s[0] {
            NodeModel::Conditional(_, _) => literals_of(s[0]),
            _ => Set::empty(),
        }).union(cond_literals(s.subrange(1, s.len() as int)))
    }
}

/// Each tree of a sequence counts toward the sequence's size.
pub proof fn lemma_seq_size_bound(s: Seq<NodeModel>, i: int)
    requires
        0 <= i < s.len(),
    ensures
        node_size(s[i]) <= seq_size(s),
    decreases s.len(),
{
    if i > 0 {
        assert(s.subrange(1, s.len() as int)[i - 1] == s[i]);
        lemma_seq_size_bound(s.subrange(1, s.len() as int), i - 1);
    }
}

} // verus!
