//! Which syntax trees have a lowering, and how much room in the counters
//! their lowering needs at most.

use vstd::prelude::*;
use crate::ast::{Node, NodeType, TokenType};
use crate::context::{State, SLOT};
use crate::error::LowerError;
use crate::ir::{FunctionModel, IROp, MAX_CALL_ARGS};
use crate::lower::{
    bind_params, lower_args, lower_expr, lower_function, lower_functions, lower_lval,
    lower_program, lower_stmt, lower_stmts, Lowered, LoweredArgs, LoweredProgram, LoweredStmt,
};

verus! {

/// Whether the node is an expression that has a lowering: a literal, a
/// variable, a call with no more arguments than a call instruction carries,
/// an assignment to a variable, or an arithmetic operation, each over
/// operands that are such expressions.
pub open spec fn valid_expr(node: Node) -> bool
    decreases node, 0nat,
{
    match node.ty {
        NodeType::Num(_) => true,
        NodeType::Ident(_) => true,
        NodeType::Call(_, args) => args.len() <= MAX_CALL_ARGS && valid_exprs(
            args,
            args.len() as nat,
        ),
        NodeType::BinOp(op, lhs, rhs) => if op == TokenType::Equal {
            lhs.ty is Ident && valid_expr(*rhs)
        } else {
            IROp::of_token(op) is Some && valid_expr(*lhs) && valid_expr(*rhs)
        },
        _ => false,
    }
}

/// Whether the first `n` of `nodes` are expressions that have a lowering.
pub open spec fn valid_exprs(nodes: Vec<Node>, n: nat) -> bool
    decreases nodes, n,
{
    n == 0 || n > nodes.len() || (valid_exprs(nodes, (n - 1) as nat) && valid_expr(nodes[n - 1]))
}

/// Whether the node is a statement that has a lowering: an `if`, a
/// `return`, an expression statement or a block, over expressions and
/// statements that have one.
pub open spec fn valid_stmt(node: Node) -> bool
    decreases node, 0nat,
{
    match node.ty {
        NodeType::If(cond, then, els_may) => valid_expr(*cond) && valid_stmt(*then) && (
        match els_may {
            None => true,
            Some(els) => valid_stmt(*els),
        }),
        NodeType::Return(expr) => valid_expr(*expr),
        NodeType::ExprStmt(expr) => valid_expr(*expr),
        NodeType::CompStmt(stmts) => valid_stmts(stmts, stmts.len() as nat),
        _ => false,
    }
}

/// Whether the first `n` of `nodes` are statements that have a lowering.
pub open spec fn valid_stmts(nodes: Vec<Node>, n: nat) -> bool
    decreases nodes, n,
{
    n == 0 || n > nodes.len() || (valid_stmts(nodes, (n - 1) as nat) && valid_stmt(nodes[n - 1]))
}

/// Whether the first `n` of `params` are variables.
pub open spec fn valid_params(params: Seq<Node>, n: nat) -> bool
    decreases n,
{
    n == 0 || n > params.len() || (valid_params(params, (n - 1) as nat) && params[n - 1].ty
        is Ident)
}

/// Whether the node is a function definition that has a lowering: its
/// parameters are variables and its body is a statement that has one.
pub open spec fn valid_function(node: Node) -> bool {
    match node.ty {
        NodeType::Func(_, params, body) => valid_params(params@, params.len() as nat)
            && valid_stmt(*body),
        _ => false,
    }
}

/// Whether the first `n` of `nodes` are function definitions that have a
/// lowering.
pub open spec fn valid_functions(nodes: Seq<Node>, n: nat) -> bool
    decreases n,
{
    n == 0 || n > nodes.len() || (valid_functions(nodes, (n - 1) as nat) && valid_function(
        nodes[n - 1],
    ))
}

/// The number of nodes of a tree.
pub open spec fn size(node: Node) -> nat
    decreases node, 0nat,
{
    match node.ty {
        NodeType::Num(_) => 1,
        NodeType::Ident(_) => 1,
        NodeType::BinOp(_, lhs, rhs) => 1 + size(*lhs) + size(*rhs),
        NodeType::If(cond, then, els_may) => 1 + size(*cond) + size(*then) + match els_may {
            None => 0,
            Some(els) => size(*els),
        },
        NodeType::Return(expr) => 1 + size(*expr),
        NodeType::Call(_, args) => 1 + sizes(args, args.len() as nat),
        NodeType::Func(_, params, body) => 1 + params.len() as nat + size(*body),
        NodeType::CompStmt(stmts) => 1 + sizes(stmts, stmts.len() as nat),
        NodeType::ExprStmt(expr) => 1 + size(*expr),
    }
}

/// The number of nodes of the first `n` trees of `nodes`.
pub open spec fn sizes(nodes: Vec<Node>, n: nat) -> nat
    decreases nodes, n,
{
    if n == 0 || n > nodes.len() {
        0
    } else {
        sizes(nodes, (n - 1) as nat) + size(nodes[n - 1])
    }
}

/// The number of nodes of the first `n` top-level nodes of a program.
pub open spec fn program_size(nodes: Seq<Node>, n: nat) -> nat
    decreases n,
{
    if n == 0 || n > nodes.len() {
        0
    } else {
        program_size(nodes, (n - 1) as nat) + size(nodes[n - 1])
    }
}

/// Whether the counters of `st` have room for the lowering of `n` nodes:
/// a node takes one register, one slot of the frame and two labels at most.
pub open spec fn room(st: State, n: nat) -> bool {
    &&& st.regno + n <= usize::MAX
    &&& st.stacksize + SLOT * n <= usize::MAX
    &&& st.label + 2 * n <= usize::MAX
}

/// Whether the counters have moved from `before` to `after` by no more
/// than the lowering of `n` nodes takes at most.
pub open spec fn grown_by(before: State, after: State, n: nat) -> bool {
    &&& after.regno <= before.regno + n
    &&& after.stacksize <= before.stacksize + SLOT * n
    &&& after.label <= before.label + 2 * n
}

/// The address of a variable is computed where the counters have room for
/// one node.
pub proof fn lemma_lval_succeeds(node: Node, st: State)
    requires
        node.ty is Ident,
        room(st, 1),
    ensures
        lower_lval(node, st) is Ok,
        grown_by(st, lower_lval(node, st)->Ok_0.st, 1),
{
    reveal(lower_lval);
}

/// An expression that has a lowering is lowered where the counters have
/// room for its nodes.
pub proof fn lemma_expr_succeeds(node: Node, st: State)
    requires
        valid_expr(node),
        room(st, size(node)),
    ensures
        lower_expr(node, st) is Ok,
        grown_by(st, lower_expr(node, st)->Ok_0.st, size(node)),
    decreases node, 0nat,
{
    reveal(lower_expr);
    match node.ty {
        NodeType::Ident(_) => {
            lemma_lval_succeeds(node, st);
        },
        NodeType::Call(_, args) => {
            lemma_exprs_succeed(args, args.len() as nat, st);
        },
        NodeType::BinOp(op, lhs, rhs) => {
            if op == TokenType::Equal {
                lemma_expr_succeeds(*rhs, st);
                lemma_lval_succeeds(*lhs, lower_expr(*rhs, st)->Ok_0.st);
                assert(size(*lhs) == 1);
            } else {
                lemma_expr_succeeds(*lhs, st);
                lemma_expr_succeeds(*rhs, lower_expr(*lhs, st)->Ok_0.st);
            }
        },
        _ => {},
    }
}

/// Arguments that have a lowering are lowered where the counters have room
/// for their nodes.
pub proof fn lemma_exprs_succeed(args: Vec<Node>, n: nat, st: State)
    requires
        n <= args.len(),
        valid_exprs(args, n),
        room(st, sizes(args, n)),
    ensures
        lower_args(args, n, st) is Ok,
        grown_by(st, lower_args(args, n, st)->Ok_0.st, sizes(args, n)),
    decreases args, n,
{
    reveal(lower_expr);
    if n > 0 {
        lemma_exprs_succeed(args, (n - 1) as nat, st);
        lemma_expr_succeeds(args[n - 1], lower_args(args, (n - 1) as nat, st)->Ok_0.st);
    }
}

/// A statement that has a lowering is lowered where the counters have room
/// for its nodes.
pub proof fn lemma_stmt_succeeds(node: Node, st: State)
    requires
        valid_stmt(node),
        room(st, size(node)),
    ensures
        lower_stmt(node, st) is Ok,
        grown_by(st, lower_stmt(node, st)->Ok_0.st, size(node)),
    decreases node, 0nat,
{
    reveal(lower_stmt);
    match node.ty {
        NodeType::If(cond, then, els_may) => {
            lemma_expr_succeeds(*cond, st);
            let c = lower_expr(*cond, st)->Ok_0;
            lemma_stmt_succeeds(*then, c.st.take_label());
            let t = lower_stmt(*then, c.st.take_label())->Ok_0;
            match els_may {
                None => {},
                Some(els) => {
                    lemma_stmt_succeeds(*els, t.st.take_label());
                },
            }
        },
        NodeType::Return(expr) => {
            lemma_expr_succeeds(*expr, st);
        },
        NodeType::ExprStmt(expr) => {
            lemma_expr_succeeds(*expr, st);
        },
        NodeType::CompStmt(stmts) => {
            lemma_stmts_succeed(stmts, stmts.len() as nat, st);
        },
        _ => {},
    }
}

/// Statements that have a lowering are lowered where the counters have
/// room for their nodes.
pub proof fn lemma_stmts_succeed(stmts: Vec<Node>, n: nat, st: State)
    requires
        n <= stmts.len(),
        valid_stmts(stmts, n),
        room(st, sizes(stmts, n)),
    ensures
        lower_stmts(stmts, n, st) is Ok,
        grown_by(st, lower_stmts(stmts, n, st)->Ok_0.st, sizes(stmts, n)),
    decreases stmts, n,
{
    reveal(lower_stmt);
    if n > 0 {
        lemma_stmts_succeed(stmts, (n - 1) as nat, st);
        lemma_stmt_succeeds(stmts[n - 1], lower_stmts(stmts, (n - 1) as nat, st)->Ok_0.st);
    }
}

/// Parameters that are variables get their slots where the frame has room
/// for them.
pub proof fn lemma_params_succeed(params: Seq<Node>, n: nat, st: State)
    requires
        n <= params.len(),
        valid_params(params, n),
        st.stacksize + SLOT * n <= usize::MAX,
    ensures
        bind_params(params, n, st) is Ok,
        bind_params(params, n, st)->Ok_0.regno == st.regno,
        bind_params(params, n, st)->Ok_0.label == st.label,
        bind_params(params, n, st)->Ok_0.stacksize == st.stacksize + SLOT * n,
    decreases n,
{
    if n > 0 {
        lemma_params_succeed(params, (n - 1) as nat, st);
    }
}

/// A function definition that has a lowering is lowered where the counters
/// have room for its nodes.
pub proof fn lemma_function_succeeds(node: Node, label: usize)
    requires
        valid_function(node),
        SLOT * size(node) <= usize::MAX,
        label + 2 * size(node) <= usize::MAX,
    ensures
        lower_function(node, label) is Ok,
        lower_function(node, label)->Ok_0.label <= label + 2 * size(node),
{
    let params = node.ty->Func_1;
    let body = node.ty->Func_2;
    let st0 = State::fresh(label);
    lemma_params_succeed(params@, params.len() as nat, st0);
    let st = bind_params(params@, params.len() as nat, st0)->Ok_0;
    lemma_stmt_succeeds(*body, st);
}

/// A program of function definitions that have a lowering is lowered where
/// the counters have room for its nodes.
pub proof fn lemma_functions_succeed(nodes: Seq<Node>, n: nat)
    requires
        n <= nodes.len(),
        valid_functions(nodes, n),
        SLOT * program_size(nodes, n) <= usize::MAX,
    ensures
        lower_functions(nodes, n) is Ok,
        lower_functions(nodes, n)->Ok_0.label <= 2 * program_size(nodes, n),
    decreases n,
{
    if n > 0 {
        lemma_functions_succeed(nodes, (n - 1) as nat);
        lemma_function_succeeds(nodes[n - 1], lower_functions(nodes, (n - 1) as nat)->Ok_0.label);
    }
}

/// An expression fails to lower if it has no lowering, and otherwise only
/// where a counter runs out.
pub proof fn lemma_expr_fails(node: Node, st: State)
    ensures
        !valid_expr(node) ==> lower_expr(node, st) is Err,
        valid_expr(node) && lower_expr(node, st) is Err ==> lower_expr(node, st) == Err::<
            Lowered,
            LowerError,
        >(LowerError::Exhausted),
    decreases node, 0nat,
{
    reveal(lower_expr);
    reveal(lower_lval);
    match node.ty {
        NodeType::Call(_, args) => {
            if args.len() <= MAX_CALL_ARGS {
                lemma_exprs_fail(args, args.len() as nat, st);
            }
        },
        NodeType::BinOp(op, lhs, rhs) => {
            if op == TokenType::Equal {
                lemma_expr_fails(*rhs, st);
            } else {
                lemma_expr_fails(*lhs, st);
                if lower_expr(*lhs, st) is Ok {
                    lemma_expr_fails(*rhs, lower_expr(*lhs, st)->Ok_0.st);
                }
            }
        },
        _ => {},
    }
}

/// The arguments of a call fail to lower if one of them has no lowering,
/// and otherwise only where a counter runs out.
pub proof fn lemma_exprs_fail(args: Vec<Node>, n: nat, st: State)
    requires
        n <= args.len(),
    ensures
        !valid_exprs(args, n) ==> lower_args(args, n, st) is Err,
        valid_exprs(args, n) && lower_args(args, n, st) is Err ==> lower_args(args, n, st)
            == Err::<LoweredArgs, LowerError>(LowerError::Exhausted),
    decreases args, n,
{
    reveal(lower_expr);
    if n > 0 {
        lemma_exprs_fail(args, (n - 1) as nat, st);
        if lower_args(args, (n - 1) as nat, st) is Ok {
            lemma_expr_fails(args[n - 1], lower_args(args, (n - 1) as nat, st)->Ok_0.st);
        }
    }
}

/// A statement fails to lower if it has no lowering, and otherwise only
/// where a counter runs out.
pub proof fn lemma_stmt_fails(node: Node, st: State)
    ensures
        !valid_stmt(node) ==> lower_stmt(node, st) is Err,
        valid_stmt(node) && lower_stmt(node, st) is Err ==> lower_stmt(node, st) == Err::<
            LoweredStmt,
            LowerError,
        >(LowerError::Exhausted),
    decreases node, 0nat,
{
    reveal(lower_stmt);
    match node.ty {
        NodeType::If(cond, then, els_may) => {
            lemma_expr_fails(*cond, st);
            if lower_expr(*cond, st) is Ok {
                let c = lower_expr(*cond, st)->Ok_0;
                lemma_stmt_fails(*then, c.st.take_label());
                if lower_stmt(*then, c.st.take_label()) is Ok {
                    let t = lower_stmt(*then, c.st.take_label())->Ok_0;
                    match els_may {
                        None => {},
                        Some(els) => {
                            lemma_stmt_fails(*els, t.st.take_label());
                        },
                    }
                }
            }
        },
        NodeType::Return(expr) => {
            lemma_expr_fails(*expr, st);
        },
        NodeType::ExprStmt(expr) => {
            lemma_expr_fails(*expr, st);
        },
        NodeType::CompStmt(stmts) => {
            lemma_stmts_fail(stmts, stmts.len() as nat, st);
        },
        _ => {},
    }
}

/// A run of statements fails to lower if one of them has no lowering, and
/// otherwise only where a counter runs out.
pub proof fn lemma_stmts_fail(stmts: Vec<Node>, n: nat, st: State)
    requires
        n <= stmts.len(),
    ensures
        !valid_stmts(stmts, n) ==> lower_stmts(stmts, n, st) is Err,
        valid_stmts(stmts, n) && lower_stmts(stmts, n, st) is Err ==> lower_stmts(stmts, n, st)
            == Err::<LoweredStmt, LowerError>(LowerError::Exhausted),
    decreases stmts, n,
{
    reveal(lower_stmt);
    if n > 0 {
        lemma_stmts_fail(stmts, (n - 1) as nat, st);
        if lower_stmts(stmts, (n - 1) as nat, st) is Ok {
            lemma_stmt_fails(stmts[n - 1], lower_stmts(stmts, (n - 1) as nat, st)->Ok_0.st);
        }
    }
}

/// Binding the parameters fails if one of them is no variable, and
/// otherwise only where the frame cannot grow.
pub proof fn lemma_params_fail(params: Seq<Node>, n: nat, st: State)
    requires
        n <= params.len(),
    ensures
        !valid_params(params, n) ==> bind_params(params, n, st) is Err,
        valid_params(params, n) && bind_params(params, n, st) is Err ==> bind_params(
            params,
            n,
            st,
        ) == Err::<State, LowerError>(LowerError::Exhausted),
    decreases n,
{
    if n > 0 {
        lemma_params_fail(params, (n - 1) as nat, st);
    }
}

/// A program fails to lower if one of its top-level nodes is no function
/// definition that has a lowering, and otherwise only where a counter runs
/// out.
pub proof fn lemma_functions_fail(nodes: Seq<Node>, n: nat)
    requires
        n <= nodes.len(),
    ensures
        !valid_functions(nodes, n) ==> lower_functions(nodes, n) is Err,
        valid_functions(nodes, n) && lower_functions(nodes, n) is Err ==> lower_functions(
            nodes,
            n,
        ) == Err::<LoweredProgram, LowerError>(LowerError::Exhausted),
    decreases n,
{
    if n > 0 {
        lemma_functions_fail(nodes, (n - 1) as nat);
        if lower_functions(nodes, (n - 1) as nat) is Ok {
            let label = lower_functions(nodes, (n - 1) as nat)->Ok_0.label;
            let node = nodes[n - 1];
            if node.ty is Func {
                let params = node.ty->Func_1;
                let body = node.ty->Func_2;
                let st0 = State::fresh(label);
                lemma_params_fail(params@, params.len() as nat, st0);
                if bind_params(params@, params.len() as nat, st0) is Ok {
                    lemma_stmt_fails(*body, bind_params(params@, params.len() as nat, st0)->Ok_0);
                }
            }
        }
    }
}

/// Whether every top-level node of the program is a function definition
/// that has a lowering.
pub open spec fn valid_program(nodes: Seq<Node>) -> bool {
    valid_functions(nodes, nodes.len())
}

/// Whether the counters have room for every node of the program.
pub open spec fn program_fits(nodes: Seq<Node>) -> bool {
    SLOT * program_size(nodes, nodes.len()) <= usize::MAX
}

/// When a program is lowered: always where its top-level nodes are function
/// definitions that have a lowering and the counters have room for its
/// nodes; never where one of them is not or has none; and in between, it
/// fails because a counter runs out.
pub proof fn lemma_program_lowers(nodes: Seq<Node>)
    ensures
        valid_program(nodes) && program_fits(nodes) ==> lower_program(nodes) is Ok,
        !valid_program(nodes) ==> lower_program(nodes) is Err,
        valid_program(nodes) && lower_program(nodes) is Err ==> lower_program(nodes) == Err::<
            Seq<FunctionModel>,
            LowerError,
        >(LowerError::Exhausted),
{
    lemma_functions_fail(nodes, nodes.len());
    if valid_program(nodes) && program_fits(nodes) {
        lemma_functions_succeed(nodes, nodes.len());
    }
}

} // verus!
