//! Lowering the syntax tree to textual assembly. Every expression leaves its
//! result in the accumulator; comparisons lower to a subtraction whose flags
//! a branch then reads; integer literals live in a pool of data cells behind
//! synthetic labels; calls pass arguments through the well-known cells
//! `_p0, _p1, ...` and return through `_ret`.

use vstd::prelude::*;
use crate::compiler::lexer::TokenModel;
use crate::compiler::node::{
    lemma_node_size_pos, lemma_nodes_view, lemma_seq_size_bound, literals_of, names_view,
    cond_literals, node_size, nodes_view, seq_literals, seq_size, Node, NodeModel,
};
use crate::numerals::{dec_digits, dec_int};

verus! {

/// A fatal condition raised while lowering.
#[derive(Clone, Copy, Debug, PartialEq, Eq, Structural)]
pub enum CompileError {
    /// A node that no statement or expression position accepts.
    UnexpectedNode,
    /// The right-hand side of an infix expression is not a literal or a name.
    NonAtomOperand,
    /// A library reference names no built-in library.
    UnknownLibrary,
    /// The synthetic label counter is exhausted.
    TooManyLabels,
}

/// The state lowering threads along: the pool of integer literals in first
/// occurrence order, the names declared so far, and the synthetic label
/// counter.
#[verifier::ext_equal]
pub struct GenState {
    pub constants: Seq<i32>,
    pub declared: Seq<Seq<char>>,
    pub label_index: int,
}

/// The pool label of an integer literal.
pub open spec fn const_label(v: i32) -> Seq<char> {
    "_"@ + dec_int(v as int)
}

/// The well-known cell of a positional argument.
pub open spec fn param_cell(i: int) -> Seq<char> {
    "_p"@ + dec_digits(i as nat)
}

/// The assembly of a declaration: a zeroed data cell, the initializer, and a
/// store into the cell.
pub open spec fn decl_text(id: Seq<char>, e: Seq<char>) -> Seq<char> {
    id + " dat 0\n"@ + e + "\nsta "@ + id + "\n"@
}

/// A name set: adding a name already present changes nothing.
pub open spec fn declared_insert(d: Seq<Seq<char>>, id: Seq<char>) -> Seq<Seq<char>> {
    if d.contains(id) {
        d
    } else {
        d.push(id)
    }
}

/// The pool after noting one literal: a value already pooled is not added
/// again.
pub open spec fn pool_insert(st: GenState, v: i32) -> GenState {
    if st.constants.contains(v) {
        st
    } else {
        GenState { constants: st.constants.push(v), ..st }
    }
}

/// A fresh synthetic label from the counter.
pub open spec fn gen_label_model(st: GenState, prefix: Seq<char>) -> Result<
    (Seq<char>, GenState),
    CompileError,
> {
    if st.label_index >= u64::MAX {
        Err(CompileError::TooManyLabels)
    } else {
        Ok(
            (
                prefix + dec_digits(st.label_index as nat),
                GenState { label_index: st.label_index + 1, ..st },
            ),
        )
    }
}

/// The mnemonic an infix operator lowers to: addition and subtraction keep
/// their own, and every comparison lowers to a subtraction whose flags the
/// enclosing branch reads.
pub open spec fn op_text(op: TokenModel) -> Result<Seq<char>, CompileError> {
    match op {
        TokenModel::ADD => Ok("ADD"@),
        TokenModel::SUB => Ok("SUB"@),
        TokenModel::EE => Ok("SUB"@),
        TokenModel::NE => Ok("SUB"@),
        TokenModel::GT => Ok("SUB"@),
        TokenModel::GTE => Ok("SUB"@),
        TokenModel::LT => Ok("SUB"@),
        TokenModel::LTE => Ok("SUB"@),
        _ => Err(CompileError::UnexpectedNode),
    }
}

/// The branch mnemonics a condition selects, read off its infix operator;
/// a condition with no comparison falls back to branch-if-greater.
pub open spec fn branch_list(cond: NodeModel) -> Seq<Seq<char>> {
    match cond {
        NodeModel::Infix(_, op, _) => match op {
            TokenModel::EE => seq!["brz"@],
            TokenModel::NE => seq!["bgt"@],
            TokenModel::LT => seq!["blt"@],
            TokenModel::GT => seq!["bgt"@],
            TokenModel::LTE => seq!["blt"@, "brz"@],
            TokenModel::GTE => seq!["bgt"@, "brz"@],
            _ => seq!["bgt"@],
        },
        _ => seq!["bgt"@],
    }
}

/// One branch line per selected mnemonic, all aimed at the same target.
pub open spec fn branches_text(bs: Seq<Seq<char>>, target: Seq<char>) -> Seq<char>
    decreases bs.len(),
{
    if bs.len() == 0 {
        Seq::empty()
    } else {
        bs[0] + " "@ + target + "\n"@ + branches_text(bs.subrange(1, bs.len() as int), target)
    }
}

/// The text of the one built-in library.
pub open spec fn std_library_text() -> Seq<char> {
    "print\nlda _p0\nout\nret"@
}

/// An atom in operand position: a literal's pool label or an identifier.
pub open spec fn atom_model(st: GenState, n: NodeModel) -> Result<
    (Seq<char>, GenState),
    CompileError,
> {
    match n {
        NodeModel::Number(v) => Ok((const_label(v), pool_insert(st, v))),
        NodeModel::Identifier(id) => Ok((id, st)),
        _ => Err(CompileError::NonAtomOperand),
    }
}

/// A declaration: the initializer lowered, wrapped in a data cell and a
/// store, with the name noted.
pub open spec fn decl_model(st: GenState, id: Seq<char>, e: NodeModel) -> Result<
    (Seq<char>, GenState),
    CompileError,
>
    decreases node_size(e), 2int,
{
    match compile_node_model(st, e) {
        Err(err) => Err(err),
        Ok((et, st1)) => Ok(
            (
                decl_text(id, et),
                GenState { declared: declared_insert(st1.declared, id), ..st1 },
            ),
        ),
    }
}

/// The lowering of one node, threading the generator state.
pub open spec fn compile_node_model(st: GenState, n: NodeModel) -> Result<
    (Seq<char>, GenState),
    CompileError,
>
    decreases node_size(n), 0int,
{
    match n {
        NodeModel::Block(stmts) => compile_block_model(st, stmts),
        NodeModel::Declaration(id, e) => decl_model(st, id, *e),
        NodeModel::Assignment(id, e) => match compile_node_model(st, *e) {
            Err(err) => Err(err),
            Ok((et, st1)) => Ok((et + "\nsta "@ + id + "\n"@, st1)),
        },
        NodeModel::Infix(l, op, r) => match compile_node_model(st, *l) {
            Err(err) => Err(err),
            Ok((lt, st1)) => match atom_model(st1, *r) {
                Err(err) => Err(err),
                Ok((rt, st2)) => match op_text(op) {
                    Err(err) => Err(err),
                    Ok(ot) => Ok((lt + "\n"@ + ot + " "@ + rt, st2)),
                },
            },
        },
        NodeModel::Invocation(id, args) => match invocation_args_model(st, args, 0) {
            Err(err) => Err(err),
            Ok((at, st1)) => Ok((at + "call "@ + id + "\nlda _ret\n"@, st1)),
        },
        NodeModel::Library(name) => {
            if name == "std"@ {
                Ok((std_library_text() + "\n"@, st))
            } else {
                Err(CompileError::UnknownLibrary)
            }
        },
        NodeModel::Function(id, params, body) => {
            let (pt, st1) = prologue_model(st, params, 0);
            match compile_node_model(st1, *body) {
                Err(err) => Err(err),
                Ok((bt, st2)) => Ok((id + "\n"@ + pt + bt + "ret\n"@, st2)),
            }
        },
        NodeModel::Return(e) => match decl_model(st, "_ret"@, *e) {
            Err(err) => Err(err),
            Ok((dt, st1)) => Ok((dt + "ret\n"@, st1)),
        },
        NodeModel::If(conds, alt) => match gen_label_model(st, "_l"@) {
            Err(err) => Err(err),
            Ok((endif, st1)) => match if_arms_model(st1, conds, endif) {
                Err(err) => Err(err),
                Ok((ct, qt, st2)) => match compile_node_model(st2, *alt) {
                    Err(err) => Err(err),
                    Ok((at, st3)) => Ok(
                        (ct + at + "bra "@ + endif + "\n"@ + qt + endif + "\n"@, st3),
                    ),
                },
            },
        },
        NodeModel::While(cond, body) => match gen_label_model(st, "_l"@) {
            Err(err) => Err(err),
            Ok((beginwhile, st1)) => match gen_label_model(st1, "_l"@) {
                Err(err) => Err(err),
                Ok((consequence, st2)) => match gen_label_model(st2, "_l"@) {
                    Err(err) => Err(err),
                    Ok((endwhile, st3)) => {
                        let bs = branch_list(*cond);
                        match compile_node_model(st3, *cond) {
                            Err(err) => Err(err),
                            Ok((ct, st4)) => match compile_node_model(st4, *body) {
                                Err(err) => Err(err),
                                Ok((bt, st5)) => Ok(
                                    (
                                        beginwhile + "\n"@ + ct + "\n"@ + branches_text(
                                            bs,
                                            consequence,
                                        ) + "bra "@ + endwhile + "\n"@ + consequence + "\n"@ + bt
                                            + "bra "@ + beginwhile + "\n"@ + endwhile + "\n"@,
                                        st5,
                                    ),
                                ),
                            },
                        }
                    },
                },
            },
        },
        NodeModel::For(decl, cond, step, body) => match gen_label_model(st, "_l"@) {
            Err(err) => Err(err),
            Ok((loop_label, st1)) => match gen_label_model(st1, "_l"@) {
                Err(err) => Err(err),
                Ok((conseq_label, st2)) => match gen_label_model(st2, "_l"@) {
                    Err(err) => Err(err),
                    Ok((endloop_label, st3)) => match compile_node_model(st3, *decl) {
                        Err(err) => Err(err),
                        Ok((dt, st4)) => {
                            let bs = branch_list(*cond);
                            match compile_node_model(st4, *cond) {
                                Err(err) => Err(err),
                                Ok((ct, st5)) => match compile_node_model(st5, *body) {
                                    Err(err) => Err(err),
                                    Ok((bt, st6)) => match compile_node_model(st6, *step) {
                                        Err(err) => Err(err),
                                        Ok((it, st7)) => Ok(
                                            (
                                                dt + loop_label + "\n"@ + ct + "\n"@
                                                    + branches_text(bs, conseq_label) + "bra "@
                                                    + endloop_label + "\n"@ + conseq_label + "\n"@
                                                    + bt + it + "bra "@ + loop_label + "\n"@
                                                    + endloop_label + "\n"@,
                                                st7,
                                            ),
                                        ),
                                    },
                                },
                            }
                        },
                    },
                },
            },
        },
        NodeModel::Halt => Ok(("hlt\n"@, st)),
        NodeModel::Number(v) => Ok(("lda "@ + const_label(v), pool_insert(st, v))),
        NodeModel::Identifier(id) => Ok(("lda "@ + id, st)),
        NodeModel::Conditional(_, _) => Err(CompileError::UnexpectedNode),
        NodeModel::StringLit(_) => Err(CompileError::UnexpectedNode),
    }
}

/// The lowering of a statement list: each statement's text in order.
pub open spec fn compile_block_model(st: GenState, stmts: Seq<NodeModel>) -> Result<
    (Seq<char>, GenState),
    CompileError,
>
    decreases seq_size(stmts), 1int,
        via compile_block_model_decreases
{
    if stmts.len() == 0 {
        Ok((Seq::empty(), st))
    } else {
        match compile_node_model(st, stmts[0]) {
            Err(err) => Err(err),
            Ok((t, st1)) => {
                match compile_block_model(st1, stmts.subrange(1, stmts.len() as int)) {
                    Err(err) => Err(err),
                    Ok((rt, st2)) => Ok((t + rt, st2)),
                }
            },
        }
    }
}

#[via_fn]
proof fn compile_block_model_decreases(st: GenState, stmts: Seq<NodeModel>) {
    if stmts.len() > 0 {
        lemma_node_size_pos(stmts[0]);
    }
}

/// The lowering of a call's arguments: each is declared into its positional
/// cell in source order.
pub open spec fn invocation_args_model(st: GenState, args: Seq<NodeModel>, counter: int) -> Result<
    (Seq<char>, GenState),
    CompileError,
>
    decreases seq_size(args), 1int,
        via invocation_args_model_decreases
{
    if args.len() == 0 {
        Ok((Seq::empty(), st))
    } else {
        match compile_node_model(st, args[0]) {
            Err(err) => Err(err),
            Ok((et, st1)) => {
                let cell = param_cell(counter);
                let st2 = GenState { declared: declared_insert(st1.declared, cell), ..st1 };
                match invocation_args_model(st2, args.subrange(1, args.len() as int), counter + 1) {
                    Err(err) => Err(err),
                    Ok((rt, st3)) => Ok((decl_text(cell, et) + rt, st3)),
                }
            },
        }
    }
}

#[via_fn]
proof fn invocation_args_model_decreases(st: GenState, args: Seq<NodeModel>, counter: int) {
    if args.len() > 0 {
        lemma_node_size_pos(args[0]);
    }
}

/// The prologue of a function: each formal parameter declared from its
/// positional cell.
pub open spec fn prologue_model(st: GenState, params: Seq<Seq<char>>, counter: int) -> (
    Seq<char>,
    GenState,
)
    decreases params.len(),
{
    if params.len() == 0 {
        (Seq::empty(), st)
    } else {
        let cell = param_cell(counter);
        let text = decl_text(params[0], "lda "@ + cell);
        let st1 = GenState { declared: declared_insert(st.declared, params[0]), ..st };
        let (rt, st2) = prologue_model(st1, params.subrange(1, params.len() as int), counter + 1);
        (text + rt, st2)
    }
}

/// The lowering of a chain of conditionals: the tests with their branches in
/// one stream, the labelled consequences in another. An element that is not
/// a conditional is passed over, though its label is still drawn.
pub open spec fn if_arms_model(st: GenState, conds: Seq<NodeModel>, endif: Seq<char>) -> Result<
    (Seq<char>, Seq<char>, GenState),
    CompileError,
>
    decreases seq_size(conds), 1int,
        via if_arms_model_decreases
{
    if conds.len() == 0 {
        Ok((Seq::empty(), Seq::empty(), st))
    } else {
        match gen_label_model(st, "_l"@) {
            Err(err) => Err(err),
            Ok((clabel, st1)) => match conds[0] {
                NodeModel::Conditional(c, q) => {
                    let bs = branch_list(*c);
                    match compile_node_model(st1, *c) {
                        Err(err) => Err(err),
                        Ok((ct, st2)) => match compile_node_model(st2, *q) {
                            Err(err) => Err(err),
                            Ok((qt, st3)) => {
                                match if_arms_model(
                                    st3,
                                    conds.subrange(1, conds.len() as int),
                                    endif,
                                ) {
                                    Err(err) => Err(err),
                                    Ok((rc, rq, st4)) => Ok(
                                        (
                                            ct + "\n"@ + branches_text(bs, clabel) + rc,
                                            clabel + "\n"@ + qt + "bra "@ + endif + "\n"@ + rq,
                                            st4,
                                        ),
                                    ),
                                }
                            },
                        },
                    }
                },
                _ => if_arms_model(st1, conds.subrange(1, conds.len() as int), endif),
            },
        }
    }
}

#[via_fn]
proof fn if_arms_model_decreases(st: GenState, conds: Seq<NodeModel>, endif: Seq<char>) {
    if conds.len() > 0 {
        lemma_node_size_pos(conds[0]);
    }
}

/// The pool section: one data cell per pooled literal, in first occurrence
/// order.
pub open spec fn pool_dump(cs: Seq<i32>) -> Seq<char>
    decreases cs.len(),
{
    if cs.len() == 0 {
        Seq::empty()
    } else {
        const_label(cs[0]) + " dat "@ + dec_int(cs[0] as int) + "\n"@ + pool_dump(
            cs.subrange(1, cs.len() as int),
        )
    }
}

/// The lowering of a whole program: a call to the entry point and a halt,
/// the program body, the pool section, and the return cell.
pub open spec fn compile_model(st: GenState, ast: NodeModel) -> Result<Seq<char>, CompileError> {
    match compile_node_model(st, ast) {
        Err(err) => Err(err),
        Ok((body, st1)) => Ok(
            "call _main\nhlt\n"@ + body + pool_dump(st1.constants) + "_ret dat 0"@,
        ),
    }
}


/// How the pool may change across one lowering step: duplicates never enter,
/// nothing leaves, the given literals all enter, and nothing else enters.
pub open spec fn pool_evolves(pre: Seq<i32>, post: Seq<i32>, lits: Set<i32>) -> bool {
    &&& (pre.no_duplicates() ==> post.no_duplicates())
    &&& forall|v: i32| pre.contains(v) ==> post.contains(v)
    &&& forall|v: i32| lits.contains(v) ==> post.contains(v)
    &&& forall|v: i32| post.contains(v) ==> pre.contains(v) || lits.contains(v)
}

/// Pushing a fresh value keeps a sequence duplicate-free.
proof fn lemma_push_unique(s: Seq<i32>, v: i32)
    requires
        s.no_duplicates(),
        !s.contains(v),
    ensures
        s.push(v).no_duplicates(),
{
    let t = s.push(v);
    assert forall|i: int, j: int| 0 <= i < t.len() && 0 <= j < t.len() && i != j implies t[i]
        != t[j] by {
        if i < s.len() && j < s.len() {
            assert(s[i] == t[i] && s[j] == t[j]);
        } else if i < s.len() {
            assert(t[i] == s[i] && t[j] == v);
            assert(s.contains(s[i]));
        } else {
            assert(t[i] == v && t[j] == s[j]);
            assert(s.contains(s[j]));
        }
    }
}

/// Noting one literal evolves the pool by exactly that literal.
proof fn lemma_pool_insert_evolves(st: GenState, v: i32)
    ensures
        pool_evolves(st.constants, pool_insert(st, v).constants, Set::empty().insert(v)),
{
    if !st.constants.contains(v) {
        if st.constants.no_duplicates() {
            lemma_push_unique(st.constants, v);
        }
        assert(st.constants.push(v).contains(v)) by {
            assert(st.constants.push(v).last() == v);
        }
        assert forall|w: i32| st.constants.contains(w) implies st.constants.push(v).contains(
            w,
        ) by {
            let k = choose|k: int| 0 <= k < st.constants.len() && st.constants[k] == w;
            assert(st.constants.push(v)[k] == w);
        }
        assert forall|w: i32| st.constants.push(v).contains(w) implies st.constants.contains(w)
            || w == v by {
            let k = choose|k: int|
                0 <= k < st.constants.push(v).len() && st.constants.push(v)[k] == w;
            if k < st.constants.len() {
                assert(st.constants[k] == w);
            }
        }
    }
}

/// Pool evolutions chain, gathering the literals of both steps.
proof fn lemma_pool_trans(a: Seq<i32>, b: Seq<i32>, c: Seq<i32>, l1: Set<i32>, l2: Set<i32>)
    requires
        pool_evolves(a, b, l1),
        pool_evolves(b, c, l2),
    ensures
        pool_evolves(a, c, l1.union(l2)),
{
}

/// A function prologue never touches the pool.
proof fn lemma_prologue_pool(st: GenState, params: Seq<Seq<char>>, counter: int)
    ensures
        prologue_model(st, params, counter).1.constants == st.constants,
    decreases params.len(),
{
    if params.len() > 0 {
        let st1 = GenState { declared: declared_insert(st.declared, params[0]), ..st };
        lemma_prologue_pool(st1, params.subrange(1, params.len() as int), counter + 1);
    }
}

/// Lowering one node evolves the pool by exactly the node's literals.
proof fn lemma_pool_node(st: GenState, n: NodeModel)
    requires
        compile_node_model(st, n) is Ok,
    ensures
        pool_evolves(st.constants, compile_node_model(st, n)->Ok_0.1.constants, literals_of(n)),
    decreases node_size(n), 0int,
{
    match n {
        NodeModel::Block(stmts) => {
            lemma_pool_block(st, stmts);
        },
        NodeModel::Declaration(id, e) => {
            lemma_pool_decl(st, id, *e);
        },
        NodeModel::Assignment(id, e) => {
            lemma_pool_node(st, *e);
        },
        NodeModel::Infix(l, op, r) => {
            lemma_pool_node(st, *l);
            let st1 = compile_node_model(st, *l)->Ok_0.1;
            match *r {
                NodeModel::Number(v) => {
                    lemma_pool_insert_evolves(st1, v);
                    lemma_pool_trans(
                        st.constants,
                        st1.constants,
                        pool_insert(st1, v).constants,
                        literals_of(*l),
                        Set::empty().insert(v),
                    );
                    assert(literals_of(*r) =~= Set::<i32>::empty().insert(v));
                    assert(literals_of(n) =~= literals_of(*l).union(Set::empty().insert(v)));
                },
                _ => {
                    assert(literals_of(n) =~= literals_of(*l).union(literals_of(*r)));
                },
            }
        },
        NodeModel::Invocation(id, args) => {
            lemma_pool_args(st, args, 0);
        },
        NodeModel::Library(_) => {
        },
        NodeModel::Function(id, params, body) => {
            let st1 = prologue_model(st, params, 0).1;
            lemma_prologue_pool(st, params, 0);
            lemma_pool_node(st1, *body);
        },
        NodeModel::Return(e) => {
            lemma_pool_decl(st, "_ret"@, *e);
        },
        NodeModel::If(conds, alt) => {
            let st1 = gen_label_model(st, "_l"@)->Ok_0.1;
            let endif = gen_label_model(st, "_l"@)->Ok_0.0;
            lemma_pool_if_arms(st1, conds, endif);
            let st2 = if_arms_model(st1, conds, endif)->Ok_0.2;
            lemma_pool_node(st2, *alt);
            lemma_pool_trans(
                st.constants,
                st2.constants,
                compile_node_model(st2, *alt)->Ok_0.1.constants,
                cond_literals(conds),
                literals_of(*alt),
            );
        },
        NodeModel::While(cond, body) => {
            let st3 = gen_label_model(
                gen_label_model(gen_label_model(st, "_l"@)->Ok_0.1, "_l"@)->Ok_0.1,
                "_l"@,
            )->Ok_0.1;
            lemma_pool_node(st3, *cond);
            let st4 = compile_node_model(st3, *cond)->Ok_0.1;
            lemma_pool_node(st4, *body);
            lemma_pool_trans(
                st.constants,
                st4.constants,
                compile_node_model(st4, *body)->Ok_0.1.constants,
                literals_of(*cond),
                literals_of(*body),
            );
            assert(literals_of(n) =~= literals_of(*cond).union(literals_of(*body)));
        },
        NodeModel::For(decl, cond, step, body) => {
            let st3 = gen_label_model(
                gen_label_model(gen_label_model(st, "_l"@)->Ok_0.1, "_l"@)->Ok_0.1,
                "_l"@,
            )->Ok_0.1;
            lemma_pool_node(st3, *decl);
            let st4 = compile_node_model(st3, *decl)->Ok_0.1;
            lemma_pool_node(st4, *cond);
            let st5 = compile_node_model(st4, *cond)->Ok_0.1;
            lemma_pool_node(st5, *body);
            let st6 = compile_node_model(st5, *body)->Ok_0.1;
            lemma_pool_node(st6, *step);
            let st7 = compile_node_model(st6, *step)->Ok_0.1;
            lemma_pool_trans(
                st.constants,
                st4.constants,
                st5.constants,
                literals_of(*decl),
                literals_of(*cond),
            );
            lemma_pool_trans(
                st.constants,
                st5.constants,
                st6.constants,
                literals_of(*decl).union(literals_of(*cond)),
                literals_of(*body),
            );
            lemma_pool_trans(
                st.constants,
                st6.constants,
                st7.constants,
                literals_of(*decl).union(literals_of(*cond)).union(literals_of(*body)),
                literals_of(*step),
            );
            assert(literals_of(n) =~= literals_of(*decl).union(literals_of(*cond)).union(
                literals_of(*body),
            ).union(literals_of(*step)));
        },
        NodeModel::Halt => {
        },
        NodeModel::Number(v) => {
            lemma_pool_insert_evolves(st, v);
            assert(literals_of(n) =~= Set::empty().insert(v));
        },
        NodeModel::Identifier(_) => {
        },
        NodeModel::Conditional(_, _) => {
        },
        NodeModel::StringLit(_) => {
        },
    }
}

/// A declaration evolves the pool by its initializer's literals.
proof fn lemma_pool_decl(st: GenState, id: Seq<char>, e: NodeModel)
    requires
        decl_model(st, id, e) is Ok,
    ensures
        pool_evolves(st.constants, decl_model(st, id, e)->Ok_0.1.constants, literals_of(e)),
    decreases node_size(e), 2int,
{
    lemma_pool_node(st, e);
}

/// A statement list evolves the pool by all its statements' literals.
proof fn lemma_pool_block(st: GenState, stmts: Seq<NodeModel>)
    requires
        compile_block_model(st, stmts) is Ok,
    ensures
        pool_evolves(
            st.constants,
            compile_block_model(st, stmts)->Ok_0.1.constants,
            seq_literals(stmts),
        ),
    decreases seq_size(stmts), 1int,
{
    if stmts.len() == 0 {
    } else {
        lemma_node_size_pos(stmts[0]);
        lemma_pool_node(st, stmts[0]);
        let st1 = compile_node_model(st, stmts[0])->Ok_0.1;
        lemma_pool_block(st1, stmts.subrange(1, stmts.len() as int));
        lemma_pool_trans(
            st.constants,
            st1.constants,
            compile_block_model(st1, stmts.subrange(1, stmts.len() as int))->Ok_0.1.constants,
            literals_of(stmts[0]),
            seq_literals(stmts.subrange(1, stmts.len() as int)),
        );
    }
}

/// A call's arguments evolve the pool by all their literals.
proof fn lemma_pool_args(st: GenState, args: Seq<NodeModel>, counter: int)
    requires
        invocation_args_model(st, args, counter) is Ok,
    ensures
        pool_evolves(
            st.constants,
            invocation_args_model(st, args, counter)->Ok_0.1.constants,
            seq_literals(args),
        ),
    decreases seq_size(args), 1int,
{
    if args.len() == 0 {
    } else {
        lemma_node_size_pos(args[0]);
        lemma_pool_node(st, args[0]);
        let st1 = compile_node_model(st, args[0])->Ok_0.1;
        let cell = param_cell(counter);
        let st2 = GenState { declared: declared_insert(st1.declared, cell), ..st1 };
        lemma_pool_args(st2, args.subrange(1, args.len() as int), counter + 1);
        lemma_pool_trans(
            st.constants,
            st2.constants,
            invocation_args_model(st2, args.subrange(1, args.len() as int), counter
                + 1)->Ok_0.1.constants,
            literals_of(args[0]),
            seq_literals(args.subrange(1, args.len() as int)),
        );
    }
}

/// The arms of an if statement evolve the pool by all their literals.
proof fn lemma_pool_if_arms(st: GenState, conds: Seq<NodeModel>, endif: Seq<char>)
    requires
        if_arms_model(st, conds, endif) is Ok,
    ensures
        pool_evolves(
            st.constants,
            if_arms_model(st, conds, endif)->Ok_0.2.constants,
            cond_literals(conds),
        ),
    decreases seq_size(conds), 1int,
{
    if conds.len() == 0 {
    } else {
        let st1 = gen_label_model(st, "_l"@)->Ok_0.1;
        let rest = conds.subrange(1, conds.len() as int);
        lemma_seq_size_bound(conds, 0);
        lemma_node_size_pos(conds[0]);
        match conds[0] {
            NodeModel::Conditional(c, q) => {
                assert(node_size(conds[0]) == 1 + node_size(*c) + node_size(*q));
                lemma_pool_node(st1, *c);
                let st2 = compile_node_model(st1, *c)->Ok_0.1;
                lemma_pool_node(st2, *q);
                let st3 = compile_node_model(st2, *q)->Ok_0.1;
                lemma_pool_if_arms(st3, rest, endif);
                lemma_pool_trans(
                    st.constants,
                    st2.constants,
                    st3.constants,
                    literals_of(*c),
                    literals_of(*q),
                );
                lemma_pool_trans(
                    st.constants,
                    st3.constants,
                    if_arms_model(st3, rest, endif)->Ok_0.2.constants,
                    literals_of(*c).union(literals_of(*q)),
                    cond_literals(rest),
                );
                assert(literals_of(conds[0]) =~= literals_of(*c).union(literals_of(*q)));
                assert(cond_literals(conds) =~= literals_of(*c).union(literals_of(*q)).union(
                    cond_literals(rest),
                ));
            },
            _ => {
                lemma_pool_if_arms(st1, rest, endif);
                assert(cond_literals(conds) =~= cond_literals(rest));
            },
        }
    }
}

/// Law: each integer literal of a program owns exactly one pool cell. A
/// lowering that starts from an empty pool ends with a pool that holds the
/// program's literals, each exactly once, and nothing else; the pool section
/// then emits exactly one data cell per pool entry.
pub proof fn lemma_constant_pool_exact(ast: NodeModel)
    requires
        compile_node_model(
            GenState { constants: Seq::empty(), declared: Seq::empty(), label_index: 0 },
            ast,
        ) is Ok,
    ensures
        ({
            let st = compile_node_model(
                GenState { constants: Seq::empty(), declared: Seq::empty(), label_index: 0 },
                ast,
            )->Ok_0.1;
            &&& st.constants.no_duplicates()
            &&& forall|v: i32| st.constants.contains(v) <==> literals_of(ast).contains(v)
        }),
{
    let init = GenState { constants: Seq::empty(), declared: Seq::empty(), label_index: 0 };
    lemma_pool_node(init, ast);
    assert(Seq::<i32>::empty().no_duplicates());
    assert(forall|v: i32| !Seq::<i32>::empty().contains(v));
}

/// Law: every lowered program is framed the same way: it begins with a call
/// to the entry point followed by a halt, and it ends with the well-known
/// return cell.
pub proof fn lemma_program_frame(st: GenState, ast: NodeModel)
    requires
        compile_model(st, ast) is Ok,
    ensures
        ({
            let out = compile_model(st, ast)->Ok_0;
            &&& out.len() >= 25
            &&& out.take(15) == "call _main\nhlt\n"@
            &&& out.skip(out.len() - 10) == "_ret dat 0"@
        }),
{
    reveal_strlit("call _main\nhlt\n");
    reveal_strlit("_ret dat 0");
    let out = compile_model(st, ast)->Ok_0;
    let body = compile_node_model(st, ast)->Ok_0.0;
    let pool = pool_dump(compile_node_model(st, ast)->Ok_0.1.constants);
    assert(out == "call _main\nhlt\n"@ + body + pool + "_ret dat 0"@);
    assert(out.take(15) =~= "call _main\nhlt\n"@);
    assert(out.skip(out.len() - 10) =~= "_ret dat 0"@);
}

pub struct Compiler {
    constants: Vec<i32>,
    declared: Vec<String>,
    label_index: u64,
}

impl View for Compiler {
    type V = GenState;

    closed spec fn view(&self) -> GenState {
        GenState {
            constants: self.constants@,
            declared: names_view(self.declared@),
            label_index: self.label_index as int,
        }
    }
}

/// Builds the assembly of a declaration around an already-lowered
/// initializer.
fn declaration_text(identifier: &String, expr_text: &String) -> (r: String)
    ensures
        r@ == decl_text(identifier@, expr_text@),
{
    let mut r = identifier.clone();
    r.append(" dat 0\n");
    r.append(expr_text.as_str());
    r.append("\nsta ");
    r.append(identifier.as_str());
    r.append("\n");
    proof {
        assert(r@ =~= decl_text(identifier@, expr_text@));
    }
    r
}

/// Builds one branch line per mnemonic, all aimed at the same target.
fn emit_branches(branches: &Vec<String>, target: &String) -> (r: String)
    ensures
        r@ == branches_text(names_view(branches@), target@),
{
    let ghost whole = names_view(branches@);
    let mut r = String::new();
    proof {
        assert(whole.subrange(0, whole.len() as int) =~= whole);
        assert(Seq::<char>::empty() + branches_text(whole, target@) =~= branches_text(
            whole,
            target@,
        ));
    }
    let mut i: usize = 0;
    while i < branches.len()
        invariant
            i <= branches@.len(),
            whole == names_view(branches@),
            branches_text(whole, target@) =~= r@ + branches_text(
                whole.subrange(i as int, whole.len() as int),
                target@,
            ),
        decreases branches@.len() - i,
    {
        let ghost pre = r@;
        r.append(branches[i].as_str());
        r.append(" ");
        r.append(target.as_str());
        r.append("\n");
        proof {
            let rest = whole.subrange(i as int, whole.len() as int);
            assert(rest[0] == whole[i as int]);
            assert(rest.subrange(1, rest.len() as int) =~= whole.subrange(
                i + 1,
                whole.len() as int,
            ));
            assert(r@ =~= pre + (whole[i as int] + " "@ + target@ + "\n"@));
        }
        i = i + 1;
    }
    proof {
        assert(whole.subrange(whole.len() as int, whole.len() as int) =~= Seq::<Seq<char>>::empty());
        assert(r@ + Seq::<char>::empty() =~= r@);
    }
    r
}

impl Compiler {
    /// A generator with an empty pool, no declared names, and the label
    /// counter at zero.
    pub fn new() -> (r: Compiler)
        ensures
            r@ == (GenState { constants: Seq::empty(), declared: Seq::empty(), label_index: 0 }),
    {
        let r = Compiler { constants: Vec::new(), declared: Vec::new(), label_index: 0 };
        proof {
            assert(names_view(r.declared@) =~= Seq::<Seq<char>>::empty());
            assert(r@ =~= (GenState {
                constants: Seq::empty(),
                declared: Seq::empty(),
                label_index: 0,
            }));
        }
        r
    }

    /// Notes a declared name; one already noted is not noted again.
    fn note_declared(&mut self, identifier: &String)
        ensures
            final(self)@ =~= (GenState {
                declared: declared_insert(old(self)@.declared, identifier@),
                ..old(self)@
            }),
    {
        let mut found = false;
        let mut i: usize = 0;
        while i < self.declared.len()
            invariant
                i <= self.declared@.len(),
                found ==> names_view(self.declared@).contains(identifier@),
                !found ==> forall|j: int| 0 <= j < i ==> names_view(self.declared@)[j]
                    != identifier@,
            decreases self.declared@.len() - i,
        {
            if self.declared[i] == *identifier {
                proof {
                    assert(names_view(self.declared@)[i as int] == identifier@);
                }
                found = true;
            }
            i = i + 1;
        }
        if !found {
            let ghost pre = self.declared@;
            assert(!names_view(self.declared@).contains(identifier@));
            self.declared.push(identifier.clone());
            proof {
                assert(names_view(self.declared@) =~= names_view(pre).push(identifier@));
            }
        }
    }

    /// The pool label of a literal, noting it in the pool on first sight.
    fn compile_number_literal(&mut self, value: i32) -> (r: String)
        ensures
            r@ == const_label(value),
            final(self)@ =~= pool_insert(old(self)@, value),
    {
        let mut found = false;
        let mut i: usize = 0;
        while i < self.constants.len()
            invariant
                i <= self.constants@.len(),
                found ==> self.constants@.contains(value),
                !found ==> forall|j: int| 0 <= j < i ==> self.constants@[j] != value,
            decreases self.constants@.len() - i,
        {
            if self.constants[i] == value {
                found = true;
            }
            i = i + 1;
        }
        if !found {
            assert(!self.constants@.contains(value));
            self.constants.push(value);
        }
        let mut label = String::from_str("_");
        let digits = crate::numerals::i32_to_string(value);
        label.append(digits.as_str());
        proof {
            assert(label@ =~= const_label(value));
        }
        label
    }

    /// An identifier in operand position stands for its own cell.
    fn compile_identifier_literal(&self, identifier: &String) -> (r: String)
        ensures
            r@ == identifier@,
    {
        identifier.clone()
    }

    /// A fresh synthetic label, as `gen_label_model` describes.
    fn generate_label(&mut self, id: &str) -> (r: Result<String, CompileError>)
        ensures
            match gen_label_model(old(self)@, id@) {
                Ok((t, st)) => r matches Ok(l) && l@ == t && final(self)@ =~= st,
                Err(e) => r == Err::<String, CompileError>(e) && final(self)@ == old(self)@,
            },
    {
        if self.label_index == u64::MAX {
            return Err(CompileError::TooManyLabels);
        }
        let mut label = String::from_str(id);
        let digits = crate::numerals::u64_to_string(self.label_index);
        label.append(digits.as_str());
        self.label_index = self.label_index + 1;
        Ok(label)
    }

    /// An atom in operand position, as `atom_model` describes.
    fn compile_atom(&mut self, atom: &Node) -> (r: Result<String, CompileError>)
        ensures
            match atom_model(old(self)@, atom@) {
                Ok((t, st)) => r matches Ok(s) && s@ == t && final(self)@ =~= st,
                Err(e) => r == Err::<String, CompileError>(e) && final(self)@ == old(self)@,
            },
    {
        match atom {
            Node::NUMBER(value) => Ok(self.compile_number_literal(*value)),
            Node::IDENTIFIER(id) => Ok(self.compile_identifier_literal(id)),
            _ => Err(CompileError::NonAtomOperand),
        }
    }

    /// The branch mnemonics of a condition, as `branch_list` describes.
    fn get_conditional_branch(&self, infix: &Node) -> (r: Vec<String>)
        ensures
            names_view(r@) == branch_list(infix@),
    {
        let r = match infix {
            Node::INFIX(_, op, _) => {
                match op {
                    crate::compiler::lexer::Token::EE => vec![String::from_str("brz")],
                    crate::compiler::lexer::Token::NE => vec![String::from_str("bgt")],
                    crate::compiler::lexer::Token::LT => vec![String::from_str("blt")],
                    crate::compiler::lexer::Token::GT => vec![String::from_str("bgt")],
                    crate::compiler::lexer::Token::LTE => vec![
                        String::from_str("blt"),
                        String::from_str("brz"),
                    ],
                    crate::compiler::lexer::Token::GTE => vec![
                        String::from_str("bgt"),
                        String::from_str("brz"),
                    ],
                    _ => vec![String::from_str("bgt")],
                }
            },
            _ => vec![String::from_str("bgt")],
        };
        proof {
            assert(names_view(r@) =~= branch_list(infix@));
        }
        r
    }

    /// Lowers one node, as `compile_node_model` describes. On a fault the
    /// state may hold what was lowered before the fault was found.
    fn compile_node(&mut self, node: &Node) -> (r: Result<String, CompileError>)
        ensures
            match compile_node_model(old(self)@, node@) {
                Ok((t, st)) => r matches Ok(s) && s@ == t && final(self)@ =~= st,
                Err(e) => r == Err::<String, CompileError>(e),
            },
        decreases node_size(node@), 0int,
    {
        match node {
            Node::BLOCK(statements) => {
                proof {
                    assert(node_size(node@) == 1 + seq_size(nodes_view(statements@)));
                }
                self.compile_block(statements)
            },
            Node::DECLARATION(identifier, expression) => {
                self.compile_declaration(identifier, expression)
            },
            Node::ASSIGNMENT(identifier, expression) => {
                self.compile_assignment(identifier, expression)
            },
            Node::INFIX(lhs, op, rhs) => self.compile_infix(lhs, op, rhs),
            Node::INVOCATION(id, args) => {
                proof {
                    assert(node_size(node@) == 1 + seq_size(nodes_view(args@)));
                }
                self.compile_invocation(id, args)
            },
            Node::LIBRARY(library) => self.compile_library(library),
            Node::FUNCTION(id, args, block) => self.compile_function(id, args, block),
            Node::RETURN(expression) => self.compile_return(expression),
            Node::WHILE(condition, consequence) => self.compile_while(condition, consequence),
            Node::FOR(declaration, condition, increment, consequence) => {
                self.compile_for(declaration, condition, increment, consequence)
            },
            Node::IF(conditionals, alternative) => {
                proof {
                    assert(node_size(node@) == 1 + seq_size(nodes_view(conditionals@))
                        + node_size(alternative@));
                }
                self.compile_if(conditionals, alternative)
            },
            Node::HALT => {
                let r = String::from_str("hlt\n");
                Ok(r)
            },
            Node::NUMBER(value) => {
                let label = self.compile_number_literal(*value);
                let mut r = String::from_str("lda ");
                r.append(label.as_str());
                proof {
                    assert(r@ =~= "lda "@ + const_label(*value));
                }
                Ok(r)
            },
            Node::IDENTIFIER(identifier) => {
                let mut r = String::from_str("lda ");
                r.append(identifier.as_str());
                proof {
                    assert(r@ =~= "lda "@ + identifier@);
                }
                Ok(r)
            },
            Node::CONDITIONAL(_, _) => Err(CompileError::UnexpectedNode),
            Node::STRING(_) => Err(CompileError::UnexpectedNode),
        }
    }

    /// Lowers a statement list, as `compile_block_model` describes.
    fn compile_block(&mut self, statements: &Vec<Node>) -> (r: Result<String, CompileError>)
        ensures
            match compile_block_model(old(self)@, nodes_view(statements@)) {
                Ok((t, st)) => r matches Ok(s) && s@ == t && final(self)@ =~= st,
                Err(e) => r == Err::<String, CompileError>(e),
            },
        decreases seq_size(nodes_view(statements@)), 1int,
    {
        let ghost whole = nodes_view(statements@);
        let ghost st0 = self@;
        proof {
            lemma_nodes_view(statements@);
            assert(whole.subrange(0, whole.len() as int) =~= whole);
        }
        let mut out = String::new();
        let mut i: usize = 0;
        while i < statements.len()
            invariant
                i <= statements@.len(),
                whole == nodes_view(statements@),
                whole.len() == statements@.len(),
                forall|j: int| 0 <= j < whole.len() ==> whole[j] == (#[trigger] statements@[j])@,
                st0 == old(self)@,
                match compile_block_model(self@, whole.subrange(i as int, whole.len() as int)) {
                    Ok((t, st)) => compile_block_model(st0, whole) == Ok::<
                        (Seq<char>, GenState),
                        CompileError,
                    >((out@ + t, st)),
                    Err(e) => compile_block_model(st0, whole) == Err::<
                        (Seq<char>, GenState),
                        CompileError,
                    >(e),
                },
            decreases statements@.len() - i,
        {
            proof {
                lemma_seq_size_bound(whole, i as int);
            }
            let ghost pre_out = out@;
            let text = match self.compile_node(&statements[i]) {
                Ok(t) => t,
                Err(e) => {
                    proof {
                        let rest = whole.subrange(i as int, whole.len() as int);
                        assert(rest[0] == whole[i as int]);
                    }
                    return Err(e);
                },
            };
            out.append(text.as_str());
            proof {
                let rest = whole.subrange(i as int, whole.len() as int);
                assert(rest[0] == whole[i as int]);
                assert(rest.subrange(1, rest.len() as int) =~= whole.subrange(
                    i + 1,
                    whole.len() as int,
                ));
                match compile_block_model(self@, whole.subrange(i + 1, whole.len() as int)) {
                    Ok((t, st)) => {
                        assert(pre_out + (text@ + t) =~= out@ + t);
                    },
                    Err(_) => {},
                }
            }
            i = i + 1;
        }
        proof {
            assert(whole.subrange(whole.len() as int, whole.len() as int) =~= Seq::<
                NodeModel,
            >::empty());
            assert(out@ + Seq::<char>::empty() =~= out@);
        }
        Ok(out)
    }

    /// Lowers a declaration, as `decl_model` describes.
    fn compile_declaration(&mut self, identifier: &String, expression: &Node) -> (r: Result<
        String,
        CompileError,
    >)
        ensures
            match decl_model(old(self)@, identifier@, expression@) {
                Ok((t, st)) => r matches Ok(s) && s@ == t && final(self)@ =~= st,
                Err(e) => r == Err::<String, CompileError>(e),
            },
        decreases node_size(expression@), 2int,
    {
        let expr_text = match self.compile_node(expression) {
            Ok(t) => t,
            Err(e) => {
                return Err(e);
            },
        };
        let text = declaration_text(identifier, &expr_text);
        self.note_declared(identifier);
        Ok(text)
    }

    /// Lowers an assignment: the expression, then a store into the cell.
    fn compile_assignment(&mut self, identifier: &String, expression: &Node) -> (r: Result<
        String,
        CompileError,
    >)
        ensures
            match compile_node_model(old(self)@, NodeModel::Assignment(
                identifier@,
                Box::new(expression@),
            )) {
                Ok((t, st)) => r matches Ok(s) && s@ == t && final(self)@ =~= st,
                Err(e) => r == Err::<String, CompileError>(e),
            },
        decreases node_size(expression@), 2int,
    {
        let mut out = match self.compile_node(expression) {
            Ok(t) => t,
            Err(e) => {
                return Err(e);
            },
        };
        out.append("\nsta ");
        out.append(identifier.as_str());
        out.append("\n");
        proof {
            match compile_node_model(old(self)@, expression@) {
                Ok((et, _)) => {
                    assert(out@ =~= et + "\nsta "@ + identifier@ + "\n"@);
                },
                Err(_) => {},
            }
        }
        Ok(out)
    }

    /// Lowers an infix expression: the left side, then the operator's
    /// mnemonic applied to the atomic right side.
    fn compile_infix(
        &mut self,
        lhs: &Node,
        op: &crate::compiler::lexer::Token,
        rhs: &Node,
    ) -> (r: Result<String, CompileError>)
        ensures
            match compile_node_model(old(self)@, NodeModel::Infix(
                Box::new(lhs@),
                op@,
                Box::new(rhs@),
            )) {
                Ok((t, st)) => r matches Ok(s) && s@ == t && final(self)@ =~= st,
                Err(e) => r == Err::<String, CompileError>(e),
            },
        decreases node_size(lhs@) + node_size(rhs@), 2int,
    {
        proof {
            lemma_node_size_pos(rhs@);
        }
        let mut out = match self.compile_node(lhs) {
            Ok(t) => t,
            Err(e) => {
                return Err(e);
            },
        };
        let rhs_text = match self.compile_atom(rhs) {
            Ok(t) => t,
            Err(e) => {
                return Err(e);
            },
        };
        let op_str: &str = match op {
            crate::compiler::lexer::Token::ADD => "ADD",
            crate::compiler::lexer::Token::SUB => "SUB",
            crate::compiler::lexer::Token::EE => "SUB",
            crate::compiler::lexer::Token::NE => "SUB",
            crate::compiler::lexer::Token::GT => "SUB",
            crate::compiler::lexer::Token::GTE => "SUB",
            crate::compiler::lexer::Token::LT => "SUB",
            crate::compiler::lexer::Token::LTE => "SUB",
            _ => {
                return Err(CompileError::UnexpectedNode);
            },
        };
        out.append("\n");
        out.append(op_str);
        out.append(" ");
        out.append(rhs_text.as_str());
        proof {
            match compile_node_model(old(self)@, lhs@) {
                Ok((lt, st1)) => {
                    match atom_model(st1, rhs@) {
                        Ok((rt, _)) => {
                            assert(out@ =~= lt + "\n"@ + op_text(op@)->Ok_0 + " "@ + rt);
                        },
                        Err(_) => {},
                    }
                },
                Err(_) => {},
            }
        }
        Ok(out)
    }

    /// Lowers a call: each argument declared into its positional cell, the
    /// call itself, then a load of the return cell.
    fn compile_invocation(&mut self, identifier: &String, args: &Vec<Node>) -> (r: Result<
        String,
        CompileError,
    >)
        ensures
            match compile_node_model(old(self)@, NodeModel::Invocation(
                identifier@,
                nodes_view(args@),
            )) {
                Ok((t, st)) => r matches Ok(s) && s@ == t && final(self)@ =~= st,
                Err(e) => r == Err::<String, CompileError>(e),
            },
        decreases seq_size(nodes_view(args@)), 1int,
    {
        let ghost whole = nodes_view(args@);
        let ghost st0 = self@;
        proof {
            lemma_nodes_view(args@);
            assert(whole.subrange(0, whole.len() as int) =~= whole);
        }
        let mut arg_out = String::new();
        let mut arg_counter: usize = 0;
        while arg_counter < args.len()
            invariant
                arg_counter <= args@.len(),
                whole == nodes_view(args@),
                whole.len() == args@.len(),
                forall|j: int| 0 <= j < whole.len() ==> whole[j] == (#[trigger] args@[j])@,
                st0 == old(self)@,
                match invocation_args_model(
                    self@,
                    whole.subrange(arg_counter as int, whole.len() as int),
                    arg_counter as int,
                ) {
                    Ok((t, st)) => invocation_args_model(st0, whole, 0) == Ok::<
                        (Seq<char>, GenState),
                        CompileError,
                    >((arg_out@ + t, st)),
                    Err(e) => invocation_args_model(st0, whole, 0) == Err::<
                        (Seq<char>, GenState),
                        CompileError,
                    >(e),
                },
            decreases args@.len() - arg_counter,
        {
            proof {
                lemma_seq_size_bound(whole, arg_counter as int);
            }
            let ghost pre_out = arg_out@;
            let expr_text = match self.compile_node(&args[arg_counter]) {
                Ok(t) => t,
                Err(e) => {
                    proof {
                        let rest = whole.subrange(arg_counter as int, whole.len() as int);
                        assert(rest[0] == whole[arg_counter as int]);
                    }
                    return Err(e);
                },
            };
            let mut arg_id = String::from_str("_p");
            let digits = crate::numerals::u64_to_string(arg_counter as u64);
            arg_id.append(digits.as_str());
            proof {
                assert(arg_id@ =~= param_cell(arg_counter as int));
            }
            let decl = declaration_text(&arg_id, &expr_text);
            self.note_declared(&arg_id);
            arg_out.append(decl.as_str());
            proof {
                let rest = whole.subrange(arg_counter as int, whole.len() as int);
                assert(rest[0] == whole[arg_counter as int]);
                assert(rest.subrange(1, rest.len() as int) =~= whole.subrange(
                    arg_counter + 1,
                    whole.len() as int,
                ));
                match invocation_args_model(
                    self@,
                    whole.subrange(arg_counter + 1, whole.len() as int),
                    arg_counter + 1,
                ) {
                    Ok((t, st)) => {
                        assert(pre_out + (decl@ + t) =~= arg_out@ + t);
                    },
                    Err(_) => {},
                }
            }
            arg_counter = arg_counter + 1;
        }
        proof {
            assert(whole.subrange(whole.len() as int, whole.len() as int) =~= Seq::<
                NodeModel,
            >::empty());
        }
        arg_out.append("call ");
        arg_out.append(identifier.as_str());
        arg_out.append("\nlda _ret\n");
        proof {
            match invocation_args_model(st0, whole, 0) {
                Ok((t, _)) => {
                    assert(t + Seq::<char>::empty() =~= t);
                    assert(arg_out@ =~= t + "call "@ + identifier@ + "\nlda _ret\n"@);
                },
                Err(_) => {},
            }
        }
        Ok(arg_out)
    }

    /// Lowers a library reference: the built-in library's text is inlined.
    fn compile_library(&mut self, library: &String) -> (r: Result<String, CompileError>)
        ensures
            match compile_node_model(old(self)@, NodeModel::Library(library@)) {
                Ok((t, st)) => r matches Ok(s) && s@ == t && final(self)@ =~= st,
                Err(e) => r == Err::<String, CompileError>(e),
            },
    {
        let std_name = String::from_str("std");
        if *library == std_name {
            let mut text = String::from_str("print\nlda _p0\nout\nret");
            text.append("\n");
            proof {
                assert(text@ =~= std_library_text() + "\n"@);
            }
            Ok(text)
        } else {
            Err(CompileError::UnknownLibrary)
        }
    }

    /// Lowers a function: its label, a prologue copying the positional cells
    /// into the formal parameters, the body, and a return.
    fn compile_function(&mut self, identifier: &String, args: &Vec<String>, block: &Node) -> (r:
        Result<String, CompileError>)
        ensures
            match compile_node_model(old(self)@, NodeModel::Function(
                identifier@,
                names_view(args@),
                Box::new(block@),
            )) {
                Ok((t, st)) => r matches Ok(s) && s@ == t && final(self)@ =~= st,
                Err(e) => r == Err::<String, CompileError>(e),
            },
        decreases node_size(block@), 2int,
    {
        let ghost params = names_view(args@);
        let ghost st0 = self@;
        proof {
            assert(params.subrange(0, params.len() as int) =~= params);
        }
        let mut args_out = String::new();
        let mut arg_counter: usize = 0;
        while arg_counter < args.len()
            invariant
                arg_counter <= args@.len(),
                params == names_view(args@),
                params.len() == args@.len(),
                st0 == old(self)@,
                ({
                    let (t, st) = prologue_model(
                        self@,
                        params.subrange(arg_counter as int, params.len() as int),
                        arg_counter as int,
                    );
                    prologue_model(st0, params, 0) == (args_out@ + t, st)
                }),
            decreases args@.len() - arg_counter,
        {
            let ghost pre_out = args_out@;
            let mut arg_id = String::from_str("_p");
            let digits = crate::numerals::u64_to_string(arg_counter as u64);
            arg_id.append(digits.as_str());
            proof {
                assert(arg_id@ =~= param_cell(arg_counter as int));
            }
            self.note_declared(&args[arg_counter]);
            let mut expr_text = String::from_str("lda ");
            expr_text.append(arg_id.as_str());
            let decl = declaration_text(&args[arg_counter], &expr_text);
            args_out.append(decl.as_str());
            proof {
                let rest = params.subrange(arg_counter as int, params.len() as int);
                assert(rest[0] == params[arg_counter as int]);
                assert(params[arg_counter as int] == args@[arg_counter as int]@);
                assert(rest.subrange(1, rest.len() as int) =~= params.subrange(
                    arg_counter + 1,
                    params.len() as int,
                ));
                assert(expr_text@ =~= "lda "@ + param_cell(arg_counter as int));
                let (t, st) = prologue_model(
                    self@,
                    params.subrange(arg_counter + 1, params.len() as int),
                    arg_counter + 1,
                );
                assert(pre_out + (decl@ + t) =~= args_out@ + t);
            }
            arg_counter = arg_counter + 1;
        }
        proof {
            assert(params.subrange(params.len() as int, params.len() as int) =~= Seq::<
                Seq<char>,
            >::empty());
        }
        let body_text = match self.compile_node(block) {
            Ok(t) => t,
            Err(e) => {
                return Err(e);
            },
        };
        let mut out = identifier.clone();
        out.append("\n");
        out.append(args_out.as_str());
        out.append(body_text.as_str());
        out.append("ret\n");
        proof {
            let (pt, _) = prologue_model(st0, params, 0);
            assert(pt + Seq::<char>::empty() =~= pt);
            match compile_node_model(self@, block@) {
                _ => {},
            }
            assert(out@ =~= identifier@ + "\n"@ + pt + body_text@ + "ret\n"@);
        }
        Ok(out)
    }

    /// Lowers a return: the value declared into the return cell, then a
    /// return.
    fn compile_return(&mut self, expression: &Node) -> (r: Result<String, CompileError>)
        ensures
            match decl_model(old(self)@, "_ret"@, expression@) {
                Ok((dt, st)) => r matches Ok(s) && s@ == dt + "ret\n"@ && final(self)@ =~= st,
                Err(e) => r == Err::<String, CompileError>(e),
            },
        decreases node_size(expression@), 2int,
    {
        let ret_name = String::from_str("_ret");
        let expr_text = match self.compile_node(expression) {
            Ok(t) => t,
            Err(e) => {
                return Err(e);
            },
        };
        let mut out = declaration_text(&ret_name, &expr_text);
        self.note_declared(&ret_name);
        out.append("ret\n");
        proof {
            assert(ret_name@ == "_ret"@);
            assert(out@ =~= decl_text(ret_name@, expr_text@) + "ret\n"@);
        }
        Ok(out)
    }

    /// Lowers a conditional chain, as `compile_node_model` describes for an
    /// `If` node: the tests with their branches, the alternative, and the
    /// labelled consequences sharing one end label.
    #[verifier::rlimit(100)]
    fn compile_if(&mut self, conditionals: &Vec<Node>, alternative: &Node) -> (r: Result<
        String,
        CompileError,
    >)
        ensures
            match compile_node_model(old(self)@, NodeModel::If(
                nodes_view(conditionals@),
                Box::new(alternative@),
            )) {
                Ok((t, st)) => r matches Ok(s) && s@ == t && final(self)@ =~= st,
                Err(e) => r == Err::<String, CompileError>(e),
            },
        decreases seq_size(nodes_view(conditionals@)) + node_size(alternative@), 1int,
    {
        let ghost whole = nodes_view(conditionals@);
        proof {
            lemma_nodes_view(conditionals@);
            lemma_node_size_pos(alternative@);
            assert(whole.subrange(0, whole.len() as int) =~= whole);
        }
        let endif = match self.generate_label("_l") {
            Ok(l) => l,
            Err(e) => {
                return Err(e);
            },
        };
        let ghost st1 = self@;
        let mut compiled_conditions = String::new();
        let mut compiled_consequences = String::new();
        let mut i: usize = 0;
        while i < conditionals.len()
            invariant
                i <= conditionals@.len(),
                whole == nodes_view(conditionals@),
                whole.len() == conditionals@.len(),
                forall|j: int| 0 <= j < whole.len() ==> whole[j] == (#[trigger] conditionals@[j])@,
                seq_size(whole) + node_size(alternative@) == seq_size(nodes_view(conditionals@))
                    + node_size(alternative@),
                gen_label_model(old(self)@, "_l"@) == Ok::<(Seq<char>, GenState), CompileError>(
                    (endif@, st1),
                ),
                match if_arms_model(self@, whole.subrange(i as int, whole.len() as int), endif@) {
                    Ok((rc, rq, st)) => if_arms_model(st1, whole, endif@) == Ok::<
                        (Seq<char>, Seq<char>, GenState),
                        CompileError,
                    >((compiled_conditions@ + rc, compiled_consequences@ + rq, st)),
                    Err(e) => if_arms_model(st1, whole, endif@) == Err::<
                        (Seq<char>, Seq<char>, GenState),
                        CompileError,
                    >(e),
                },
            decreases conditionals@.len() - i,
        {
            proof {
                lemma_seq_size_bound(whole, i as int);
            }
            let ghost pre_conditions = compiled_conditions@;
            let ghost pre_consequences = compiled_consequences@;
            let ghost rest = whole.subrange(i as int, whole.len() as int);
            proof {
                assert(rest[0] == whole[i as int]);
                assert(rest.subrange(1, rest.len() as int) =~= whole.subrange(
                    i + 1,
                    whole.len() as int,
                ));
            }
            let condition_label = match self.generate_label("_l") {
                Ok(l) => l,
                Err(e) => {
                    return Err(e);
                },
            };
            match &conditionals[i] {
                Node::CONDITIONAL(condition_node, consequence) => {
                    proof {
                        lemma_node_size_pos(condition_node@);
                        lemma_node_size_pos(consequence@);
                    }
                    let branches = self.get_conditional_branch(condition_node);
                    let condition_expr = match self.compile_node(condition_node) {
                        Ok(t) => t,
                        Err(e) => {
                            return Err(e);
                        },
                    };
                    let compiled_branches = emit_branches(&branches, &condition_label);
                    let compiled_consequence = match self.compile_node(consequence) {
                        Ok(t) => t,
                        Err(e) => {
                            return Err(e);
                        },
                    };
                    compiled_conditions.append(condition_expr.as_str());
                    compiled_conditions.append("\n");
                    compiled_conditions.append(compiled_branches.as_str());
                    compiled_consequences.append(condition_label.as_str());
                    compiled_consequences.append("\n");
                    compiled_consequences.append(compiled_consequence.as_str());
                    compiled_consequences.append("bra ");
                    compiled_consequences.append(endif.as_str());
                    compiled_consequences.append("\n");
                    proof {
                        match if_arms_model(
                            self@,
                            whole.subrange(i + 1, whole.len() as int),
                            endif@,
                        ) {
                            Ok((rc, rq, st)) => {
                                assert(pre_conditions + (condition_expr@ + "\n"@ + branches_text(
                                    branch_list(condition_node@),
                                    condition_label@,
                                ) + rc) =~= compiled_conditions@ + rc);
                                assert(pre_consequences + (condition_label@ + "\n"@
                                    + compiled_consequence@ + "bra "@ + endif@ + "\n"@ + rq)
                                    =~= compiled_consequences@ + rq);
                            },
                            Err(_) => {},
                        }
                    }
                },
                _ => {
                    proof {
                        match if_arms_model(
                            self@,
                            whole.subrange(i + 1, whole.len() as int),
                            endif@,
                        ) {
                            Ok((rc, rq, st)) => {
                                assert(pre_conditions + rc =~= compiled_conditions@ + rc);
                                assert(pre_consequences + rq =~= compiled_consequences@ + rq);
                            },
                            Err(_) => {},
                        }
                    }
                },
            }
            i = i + 1;
        }
        proof {
            assert(whole.subrange(whole.len() as int, whole.len() as int) =~= Seq::<
                NodeModel,
            >::empty());
            match if_arms_model(st1, whole, endif@) {
                Ok((rc, rq, _)) => {
                    assert(compiled_conditions@ + Seq::<char>::empty() =~= compiled_conditions@);
                    assert(compiled_consequences@ + Seq::<char>::empty()
                        =~= compiled_consequences@);
                },
                Err(_) => {},
            }
        }
        let compiled_alternative = match self.compile_node(alternative) {
            Ok(t) => t,
            Err(e) => {
                return Err(e);
            },
        };
        let mut out = compiled_conditions;
        out.append(compiled_alternative.as_str());
        out.append("bra ");
        out.append(endif.as_str());
        out.append("\n");
        out.append(compiled_consequences.as_str());
        out.append(endif.as_str());
        out.append("\n");
        proof {
            match if_arms_model(st1, whole, endif@) {
                Ok((rc, rq, st2)) => {
                    match compile_node_model(st2, alternative@) {
                        Ok((at, _)) => {
                            assert(out@ =~= rc + at + "bra "@ + endif@ + "\n"@ + rq + endif@
                                + "\n"@);
                        },
                        Err(_) => {},
                    }
                },
                Err(_) => {},
            }
        }
        Ok(out)
    }

    /// Lowers a while loop: the condition at the head label, branches into
    /// the body, a jump out, the body, a jump back, and the end label.
    fn compile_while(&mut self, condition_node: &Node, consequence_node: &Node) -> (r: Result<
        String,
        CompileError,
    >)
        ensures
            match compile_node_model(old(self)@, NodeModel::While(
                Box::new(condition_node@),
                Box::new(consequence_node@),
            )) {
                Ok((t, st)) => r matches Ok(s) && s@ == t && final(self)@ =~= st,
                Err(e) => r == Err::<String, CompileError>(e),
            },
        decreases node_size(condition_node@) + node_size(consequence_node@), 2int,
    {
        proof {
            lemma_node_size_pos(condition_node@);
            lemma_node_size_pos(consequence_node@);
        }
        let beginwhile = match self.generate_label("_l") {
            Ok(l) => l,
            Err(e) => {
                return Err(e);
            },
        };
        let consequence = match self.generate_label("_l") {
            Ok(l) => l,
            Err(e) => {
                return Err(e);
            },
        };
        let endwhile = match self.generate_label("_l") {
            Ok(l) => l,
            Err(e) => {
                return Err(e);
            },
        };
        let branches = self.get_conditional_branch(condition_node);
        let compiled_conditional = match self.compile_node(condition_node) {
            Ok(t) => t,
            Err(e) => {
                return Err(e);
            },
        };
        let compiled_branches = emit_branches(&branches, &consequence);
        let compiled_consequence = match self.compile_node(consequence_node) {
            Ok(t) => t,
            Err(e) => {
                return Err(e);
            },
        };
        let mut out = beginwhile.clone();
        out.append("\n");
        out.append(compiled_conditional.as_str());
        out.append("\n");
        out.append(compiled_branches.as_str());
        out.append("bra ");
        out.append(endwhile.as_str());
        out.append("\n");
        out.append(consequence.as_str());
        out.append("\n");
        out.append(compiled_consequence.as_str());
        out.append("bra ");
        out.append(beginwhile.as_str());
        out.append("\n");
        out.append(endwhile.as_str());
        out.append("\n");
        proof {
            assert(out@ =~= beginwhile@ + "\n"@ + compiled_conditional@ + "\n"@
                + compiled_branches@ + "bra "@ + endwhile@ + "\n"@ + consequence@ + "\n"@
                + compiled_consequence@ + "bra "@ + beginwhile@ + "\n"@ + endwhile@ + "\n"@);
        }
        Ok(out)
    }

    /// Lowers a for loop: the declaration, then the condition at the head
    /// label, branches into the body, a jump out, the body, the step, a jump
    /// back, and the end label.
    #[verifier::rlimit(100)]
    fn compile_for(
        &mut self,
        declaration_node: &Node,
        condition_node: &Node,
        increment_node: &Node,
        consequence_node: &Node,
    ) -> (r: Result<String, CompileError>)
        ensures
            match compile_node_model(old(self)@, NodeModel::For(
                Box::new(declaration_node@),
                Box::new(condition_node@),
                Box::new(increment_node@),
                Box::new(consequence_node@),
            )) {
                Ok((t, st)) => r matches Ok(s) && s@ == t && final(self)@ =~= st,
                Err(e) => r == Err::<String, CompileError>(e),
            },
        decreases node_size(declaration_node@) + node_size(condition_node@) + node_size(
            increment_node@,
        ) + node_size(consequence_node@), 2int,
    {
        proof {
            lemma_node_size_pos(declaration_node@);
            lemma_node_size_pos(condition_node@);
            lemma_node_size_pos(increment_node@);
            lemma_node_size_pos(consequence_node@);
        }
        let loop_label = match self.generate_label("_l") {
            Ok(l) => l,
            Err(e) => {
                return Err(e);
            },
        };
        let conseq_label = match self.generate_label("_l") {
            Ok(l) => l,
            Err(e) => {
                return Err(e);
            },
        };
        let endloop_label = match self.generate_label("_l") {
            Ok(l) => l,
            Err(e) => {
                return Err(e);
            },
        };
        let declaration = match self.compile_node(declaration_node) {
            Ok(t) => t,
            Err(e) => {
                return Err(e);
            },
        };
        let branch_instructions = self.get_conditional_branch(condition_node);
        let condition = match self.compile_node(condition_node) {
            Ok(t) => t,
            Err(e) => {
                return Err(e);
            },
        };
        let branches = emit_branches(&branch_instructions, &conseq_label);
        let consequence = match self.compile_node(consequence_node) {
            Ok(t) => t,
            Err(e) => {
                return Err(e);
            },
        };
        let increment = match self.compile_node(increment_node) {
            Ok(t) => t,
            Err(e) => {
                return Err(e);
            },
        };
        let ghost d0 = declaration@;
        let mut out = declaration;
        out.append(loop_label.as_str());
        out.append("\n");
        out.append(condition.as_str());
        out.append("\n");
        out.append(branches.as_str());
        out.append("bra ");
        out.append(endloop_label.as_str());
        out.append("\n");
        out.append(conseq_label.as_str());
        out.append("\n");
        out.append(consequence.as_str());
        out.append(increment.as_str());
        out.append("bra ");
        out.append(loop_label.as_str());
        out.append("\n");
        out.append(endloop_label.as_str());
        out.append("\n");
        proof {
            assert(out@ =~= d0 + loop_label@ + "\n"@ + condition@ + "\n"@ + branches@ + "bra "@
                + endloop_label@ + "\n"@ + conseq_label@ + "\n"@ + consequence@ + increment@
                + "bra "@ + loop_label@ + "\n"@ + endloop_label@ + "\n"@);
        }
        Ok(out)
    }

    /// Lowers a whole program, as `compile_model` describes: the entry call
    /// and halt, the body, the pool of literal cells in first occurrence
    /// order, and the return cell.
    pub fn compile(&mut self, ast: Node) -> (r: Result<String, CompileError>)
        ensures
            match compile_model(old(self)@, ast@) {
                Ok(t) => r matches Ok(s) && s@ == t && final(self)@
                    =~= compile_node_model(old(self)@, ast@)->Ok_0.1,
                Err(e) => r == Err::<String, CompileError>(e),
            },
    {
        let body = match self.compile_node(&ast) {
            Ok(t) => t,
            Err(e) => {
                return Err(e);
            },
        };
        let mut out = String::from_str("call _main\nhlt\n");
        out.append(body.as_str());
        let ghost pool = self@.constants;
        proof {
            assert(pool.subrange(0, pool.len() as int) =~= pool);
        }
        let ghost before_pool = out@;
        let mut i: usize = 0;
        while i < self.constants.len()
            invariant
                i <= self.constants@.len(),
                pool == self@.constants,
                before_pool + pool_dump(pool) =~= out@ + pool_dump(
                    pool.subrange(i as int, pool.len() as int),
                ),
            decreases self.constants@.len() - i,
        {
            let ghost pre_out = out@;
            let value = self.constants[i];
            let digits = crate::numerals::i32_to_string(value);
            out.append("_");
            out.append(digits.as_str());
            out.append(" dat ");
            out.append(digits.as_str());
            out.append("\n");
            proof {
                let rest = pool.subrange(i as int, pool.len() as int);
                assert(rest[0] == pool[i as int]);
                assert(rest.subrange(1, rest.len() as int) =~= pool.subrange(
                    i + 1,
                    pool.len() as int,
                ));
                assert(out@ =~= pre_out + (const_label(value) + " dat "@ + dec_int(value as int)
                    + "\n"@));
                assert(pre_out + pool_dump(rest) =~= out@ + pool_dump(
                    pool.subrange(i + 1, pool.len() as int),
                ));
            }
            i = i + 1;
        }
        proof {
            assert(pool.subrange(pool.len() as int, pool.len() as int) =~= Seq::<i32>::empty());
            assert(out@ + Seq::<char>::empty() =~= out@);
        }
        out.append("_ret dat 0");
        proof {
            match compile_node_model(old(self)@, ast@) {
                Ok((bt, st1)) => {
                    assert(out@ =~= "call _main\nhlt\n"@ + bt + pool_dump(st1.constants)
                        + "_ret dat 0"@);
                },
                Err(_) => {},
            }
        }
        Ok(out)
    }
}

} // verus!
