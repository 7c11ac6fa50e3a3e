//! What lowering is: for each construct of the syntax tree, the code that
//! it lowers to and how it moves the counters.
//!
//! The lowerings of an lvalue, an expression and a statement are opaque:
//! reveal them to compute with them.

use vstd::prelude::*;
use crate::ast::{Node, NodeType, TokenType};
use crate::context::State;
use crate::error::LowerError;
use crate::ir::{ir1, ir2, FunctionModel, IR, IROp, MAX_CALL_ARGS};

verus! {

/// What lowering an expression yields.
pub struct Lowered {
    /// The instructions emitted, in order.
    pub code: Seq<IR>,
    /// The register that holds the value (or, for an lvalue, the address).
    pub reg: usize,
    /// The state after the expression.
    pub st: State,
}

/// What lowering the arguments of a call yields.
pub struct LoweredArgs {
    /// The instructions emitted, in order.
    pub code: Seq<IR>,
    /// The register of each argument, in order.
    pub regs: Seq<usize>,
    /// The state after the last argument.
    pub st: State,
}

/// What lowering a statement yields.
pub struct LoweredStmt {
    /// The instructions emitted, in order.
    pub code: Seq<IR>,
    /// The state after the statement.
    pub st: State,
}

/// The `i`-th argument register of a call, 0 where the call has fewer.
pub open spec fn arg_or_zero(regs: Seq<usize>, i: int) -> usize {
    if 0 <= i < regs.len() {
        regs[i]
    } else {
        0
    }
}

/// The argument array of a call instruction: the argument registers in
/// order, filled up with zeros.
pub open spec fn arg_array(regs: Seq<usize>) -> [usize; 6] {
    [
        arg_or_zero(regs, 0),
        arg_or_zero(regs, 1),
        arg_or_zero(regs, 2),
        arg_or_zero(regs, 3),
        arg_or_zero(regs, 4),
        arg_or_zero(regs, 5),
    ]
}

/// One `Kill` for each register of `regs`, in order.
pub open spec fn kills(regs: Seq<usize>) -> Seq<IR> {
    Seq::new(regs.len(), |i: int| ir1(IROp::Kill, regs[i]))
}

/// The address of a variable: the frame base moved down by the variable's
/// offset. A name that has no slot yet gets the next one.
#[verifier::opaque]
pub open spec fn lower_lval(node: Node, st: State) -> Result<Lowered, LowerError> {
    match node.ty {
        NodeType::Ident(name) => {
            if !st.vars.contains_key(name@) && !st.has_slot() {
                Err(LowerError::Exhausted)
            } else {
                let bound = if st.vars.contains_key(name@) {
                    st
                } else {
                    st.with_local(name@)
                };
                if !bound.has_reg() {
                    Err(LowerError::Exhausted)
                } else {
                    let r = bound.regno;
                    Ok(
                        Lowered {
                            code: seq![
                                ir2(IROp::Mov, r, 0),
                                ir2(IROp::SubImm, r, bound.vars[name@]),
                            ],
                            reg: r,
                            st: bound.take_reg(),
                        },
                    )
                }
            }
        },
        _ => Err(LowerError::NotAnLvalue),
    }
}

/// The lowering of an expression from state `st`.
#[verifier::opaque]
pub open spec fn lower_expr(node: Node, st: State) -> Result<Lowered, LowerError>
    decreases node, 0nat,
{
    match node.ty {
        NodeType::Num(val) => {
            if !st.has_reg() {
                Err(LowerError::Exhausted)
            } else {
                Ok(
                    Lowered {
                        code: seq![ir2(IROp::Imm, st.regno, val as usize)],
                        reg: st.regno,
                        st: st.take_reg(),
                    },
                )
            }
        },
        NodeType::Ident(_) => {
            match lower_lval(node, st) {
                Err(e) => Err(e),
                Ok(a) => Ok(
                    Lowered {
                        code: a.code.push(ir2(IROp::Load, a.reg, a.reg)),
                        reg: a.reg,
                        st: a.st,
                    },
                ),
            }
        },
        NodeType::Call(name, args) => {
            if args.len() > MAX_CALL_ARGS {
                Err(LowerError::TooManyArguments)
            } else {
                match lower_args(args, args.len() as nat, st) {
                    Err(e) => Err(e),
                    Ok(a) => {
                        if !a.st.has_reg() {
                            Err(LowerError::Exhausted)
                        } else {
                            let r = a.st.regno;
                            let call = IR {
                                op: IROp::Call(name, args.len(), arg_array(a.regs)),
                                lhs: Some(r),
                                rhs: None,
                            };
                            Ok(
                                Lowered {
                                    code: a.code.push(call) + kills(a.regs),
                                    reg: r,
                                    st: a.st.take_reg(),
                                },
                            )
                        }
                    },
                }
            }
        },
        NodeType::BinOp(op, lhs, rhs) => {
            if op == TokenType::Equal {
                match lower_expr(*rhs, st) {
                    Err(e) => Err(e),
                    Ok(v) => match lower_lval(*lhs, v.st) {
                        Err(e) => Err(e),
                        Ok(a) => Ok(
                            Lowered {
                                code: v.code + a.code + seq![
                                    ir2(IROp::Store, a.reg, v.reg),
                                    ir1(IROp::Kill, v.reg),
                                ],
                                reg: a.reg,
                                st: a.st,
                            },
                        ),
                    },
                }
            } else {
                match lower_expr(*lhs, st) {
                    Err(e) => Err(e),
                    Ok(l) => match lower_expr(*rhs, l.st) {
                        Err(e) => Err(e),
                        Ok(r) => match IROp::of_token(op) {
                            None => Err(LowerError::UnknownNode),
                            Some(o) => Ok(
                                Lowered {
                                    code: l.code + r.code + seq![
                                        ir2(o, l.reg, r.reg),
                                        ir1(IROp::Kill, r.reg),
                                    ],
                                    reg: l.reg,
                                    st: r.st,
                                },
                            ),
                        },
                    },
                }
            }
        },
        _ => Err(LowerError::UnknownNode),
    }
}

/// The lowering of the first `n` arguments of a call, left to right.
pub open spec fn lower_args(args: Vec<Node>, n: nat, st: State) -> Result<LoweredArgs, LowerError>
    decreases args, n,
{
    if n == 0 || n > args.len() {
        Ok(LoweredArgs { code: Seq::empty(), regs: Seq::empty(), st: st })
    } else {
        match lower_args(args, (n - 1) as nat, st) {
            Err(e) => Err(e),
            Ok(a) => match lower_expr(args[n - 1], a.st) {
                Err(e) => Err(e),
                Ok(x) => Ok(
                    LoweredArgs { code: a.code + x.code, regs: a.regs.push(x.reg), st: x.st },
                ),
            },
        }
    }
}

/// The lowering of a statement from state `st`.
#[verifier::opaque]
pub open spec fn lower_stmt(node: Node, st: State) -> Result<LoweredStmt, LowerError>
    decreases node, 0nat,
{
    match node.ty {
        NodeType::If(cond, then, els_may) => {
            match lower_expr(*cond, st) {
                Err(e) => Err(e),
                Ok(c) => {
                    if !c.st.has_label() {
                        Err(LowerError::Exhausted)
                    } else {
                        let x = c.st.label;
                        let head = c.code + seq![
                            ir2(IROp::Unless, c.reg, x),
                            ir1(IROp::Kill, c.reg),
                        ];
                        match lower_stmt(*then, c.st.take_label()) {
                            Err(e) => Err(e),
                            Ok(t) => match els_may {
                                None => Ok(
                                    LoweredStmt {
                                        code: head + t.code + seq![ir1(IROp::Label, x)],
                                        st: t.st,
                                    },
                                ),
                                Some(els) => {
                                    if !t.st.has_label() {
                                        Err(LowerError::Exhausted)
                                    } else {
                                        let y = t.st.label;
                                        match lower_stmt(*els, t.st.take_label()) {
                                            Err(e) => Err(e),
                                            Ok(f) => Ok(
                                                LoweredStmt {
                                                    code: head + t.code + seq![
                                                        ir1(IROp::Jmp, y),
                                                        ir1(IROp::Label, x),
                                                    ] + f.code + seq![ir1(IROp::Label, y)],
                                                    st: f.st,
                                                },
                                            ),
                                        }
                                    }
                                },
                            },
                        }
                    }
                },
            }
        },
        NodeType::Return(expr) => {
            match lower_expr(*expr, st) {
                Err(e) => Err(e),
                Ok(v) => Ok(
                    LoweredStmt {
                        code: v.code + seq![ir1(IROp::Return, v.reg), ir1(IROp::Kill, v.reg)],
                        st: v.st,
                    },
                ),
            }
        },
        NodeType::ExprStmt(expr) => {
            match lower_expr(*expr, st) {
                Err(e) => Err(e),
                Ok(v) => Ok(LoweredStmt { code: v.code.push(ir1(IROp::Kill, v.reg)), st: v.st }),
            }
        },
        NodeType::CompStmt(stmts) => lower_stmts(stmts, stmts.len() as nat, st),
        _ => Err(LowerError::UnknownNode),
    }
}

/// The lowering of the first `n` statements of a block, in order.
pub open spec fn lower_stmts(stmts: Vec<Node>, n: nat, st: State) -> Result<
    LoweredStmt,
    LowerError,
>
    decreases stmts, n,
{
    if n == 0 || n > stmts.len() {
        Ok(LoweredStmt { code: Seq::empty(), st: st })
    } else {
        match lower_stmts(stmts, (n - 1) as nat, st) {
            Err(e) => Err(e),
            Ok(a) => match lower_stmt(stmts[n - 1], a.st) {
                Err(e) => Err(e),
                Ok(x) => Ok(LoweredStmt { code: a.code + x.code, st: x.st }),
            },
        }
    }
}

/// The state after the first `n` parameters of a function have their slots.
pub open spec fn bind_params(params: Seq<Node>, n: nat, st: State) -> Result<State, LowerError>
    decreases n,
{
    if n == 0 || n > params.len() {
        Ok(st)
    } else {
        match bind_params(params, (n - 1) as nat, st) {
            Err(e) => Err(e),
            Ok(a) => match params[n - 1].ty {
                NodeType::Ident(name) => {
                    if !a.has_slot() {
                        Err(LowerError::Exhausted)
                    } else {
                        Ok(a.with_param(name@))
                    }
                },
                _ => Err(LowerError::BadParameter),
            },
        }
    }
}

/// The marker that opens the code of a function with `n` parameters: none
/// where there are no parameters.
pub open spec fn save_args(n: usize) -> Seq<IR> {
    if n == 0 {
        Seq::empty()
    } else {
        seq![ir1(IROp::SaveArgs, n)]
    }
}

/// What lowering a function definition yields.
pub struct LoweredFunction {
    pub function: FunctionModel,
    /// The next label that is free after the function.
    pub label: usize,
}

/// The lowering of one top-level node, with `label` the next free label.
pub open spec fn lower_function(node: Node, label: usize) -> Result<LoweredFunction, LowerError> {
    match node.ty {
        NodeType::Func(name, params, body) => {
            match bind_params(params@, params.len() as nat, State::fresh(label)) {
                Err(e) => Err(e),
                Ok(st) => match lower_stmt(*body, st) {
                    Err(e) => Err(e),
                    Ok(b) => Ok(
                        LoweredFunction {
                            function: FunctionModel {
                                name: name@,
                                ir: save_args(params.len()) + b.code,
                                stacksize: b.st.stacksize,
                            },
                            label: b.st.label,
                        },
                    ),
                },
            }
        },
        _ => Err(LowerError::NotAFunction),
    }
}

/// What lowering a run of top-level nodes yields.
pub struct LoweredProgram {
    pub functions: Seq<FunctionModel>,
    /// The next label that is free after the last function.
    pub label: usize,
}

/// The lowering of the first `n` top-level nodes, in order. Labels start at
/// 0 and run on from one function to the next.
pub open spec fn lower_functions(nodes: Seq<Node>, n: nat) -> Result<LoweredProgram, LowerError>
    decreases n,
{
    if n == 0 || n > nodes.len() {
        Ok(LoweredProgram { functions: Seq::empty(), label: 0 })
    } else {
        match lower_functions(nodes, (n - 1) as nat) {
            Err(e) => Err(e),
            Ok(p) => match lower_function(nodes[n - 1], p.label) {
                Err(e) => Err(e),
                Ok(f) => Ok(
                    LoweredProgram { functions: p.functions.push(f.function), label: f.label },
                ),
            },
        }
    }
}

/// The lowering of a whole program.
pub open spec fn lower_program(nodes: Seq<Node>) -> Result<Seq<FunctionModel>, LowerError> {
    match lower_functions(nodes, nodes.len()) {
        Err(e) => Err(e),
        Ok(p) => Ok(p.functions),
    }
}

/// Once the lowering of a prefix of the arguments fails, the lowering of
/// every longer prefix fails in the same way.
pub proof fn lemma_args_error_stays(args: Vec<Node>, k: nat, n: nat, st: State)
    requires
        k <= n <= args.len(),
        lower_args(args, k, st) is Err,
    ensures
        lower_args(args, n, st) == lower_args(args, k, st),
    decreases n,
{
    if k < n {
        lemma_args_error_stays(args, k, (n - 1) as nat, st);
    }
}

/// Once the lowering of a prefix of a block fails, the lowering of every
/// longer prefix fails in the same way.
pub proof fn lemma_stmts_error_stays(stmts: Vec<Node>, k: nat, n: nat, st: State)
    requires
        k <= n <= stmts.len(),
        lower_stmts(stmts, k, st) is Err,
    ensures
        lower_stmts(stmts, n, st) == lower_stmts(stmts, k, st),
    decreases n,
{
    if k < n {
        lemma_stmts_error_stays(stmts, k, (n - 1) as nat, st);
    }
}

/// Once binding a prefix of the parameters fails, binding every longer
/// prefix fails in the same way.
pub proof fn lemma_params_error_stays(params: Seq<Node>, k: nat, n: nat, st: State)
    requires
        k <= n <= params.len(),
        bind_params(params, k, st) is Err,
    ensures
        bind_params(params, n, st) == bind_params(params, k, st),
    decreases n,
{
    if k < n {
        lemma_params_error_stays(params, k, (n - 1) as nat, st);
    }
}

/// Once the lowering of a prefix of the program fails, the lowering of every
/// longer prefix fails in the same way.
pub proof fn lemma_functions_error_stays(nodes: Seq<Node>, k: nat, n: nat)
    requires
        k <= n <= nodes.len(),
        lower_functions(nodes, k) is Err,
    ensures
        lower_functions(nodes, n) == lower_functions(nodes, k),
    decreases n,
{
    if k < n {
        lemma_functions_error_stays(nodes, k, (n - 1) as nat);
    }
}

} // verus!
