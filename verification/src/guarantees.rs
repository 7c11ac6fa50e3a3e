//! What lowering guarantees of the code it produces, proved from the
//! definition of the lowering.

use vstd::prelude::*;
use crate::ast::{Node, NodeType, TokenType};
use crate::context::{State, SLOT};
use crate::invariants::{
    all_well_formed, count_defs, count_labels, created_before, defines, defs_before, if_code,
    if_else_code, jumps_resolved, kills_follow_defs, labels_distinct, labels_ok, labels_once,
    labels_within, lemma_defs_before_grows, lemma_if_else_labels, lemma_if_labels,
    lemma_labels_concat, lemma_regs_concat, lemma_regs_tail, lemma_straight_concat,
    lemma_straight_labels, lemma_well_formed_concat, no_defs, numbered_from, regs_ok, straight,
};
use crate::ir::{ir1, ir2, FunctionModel, IR, IROp, MAX_CALL_ARGS};
use crate::lower::{
    arg_array, bind_params, kills, lower_args, lower_expr, lower_function, lower_functions,
    lower_lval, lower_program, lower_stmt, lower_stmts, save_args, Lowered, LoweredArgs,
    LoweredStmt,
};

verus! {

/// Every variable that has a slot in `before` has the same slot in `after`.
pub open spec fn vars_kept(before: Map<Seq<char>, usize>, after: Map<Seq<char>, usize>) -> bool {
    forall|name: Seq<char>| #[trigger]
        before.contains_key(name) ==> after.contains_key(name) && after[name] == before[name]
}

/// Slots that are kept over two steps are kept over both.
pub proof fn lemma_vars_kept_chain(
    a: Map<Seq<char>, usize>,
    b: Map<Seq<char>, usize>,
    c: Map<Seq<char>, usize>,
)
    requires
        vars_kept(a, b),
        vars_kept(b, c),
    ensures
        vars_kept(a, c),
{
    assert forall|name: Seq<char>| #[trigger] a.contains_key(name) implies c.contains_key(name)
        && c[name] == a[name] by {
        assert(b.contains_key(name));
    }
}

/// What holds of a stretch of lowered code `code` that leads from the state
/// `before` to the state `after`: it creates the registers and defines the
/// labels that the counters have moved over, its instructions have their
/// operands, and the frame has only grown, by whole slots.
pub open spec fn sound(code: Seq<IR>, before: State, after: State) -> bool {
    &&& regs_ok(code, before.regno as int, after.regno as int)
    &&& labels_ok(code, before.label as int, after.label as int)
    &&& all_well_formed(code)
    &&& after.well_formed()
    &&& before.stacksize <= after.stacksize
    &&& vars_kept(before.vars, after.vars)
}

/// What holds of a lowered expression beyond `sound`: its code is straight,
/// and its result is in one of the registers that its code creates.
pub open spec fn expr_sound(v: Lowered, st: State) -> bool {
    &&& sound(v.code, st, v.st)
    &&& straight(v.code)
    &&& v.st.label == st.label
    &&& st.regno <= v.reg < v.st.regno
}

/// What holds of the lowered arguments of a call beyond `sound`: the code
/// is straight, and each argument is in one of the registers that the code
/// creates.
pub open spec fn args_sound(a: LoweredArgs, st: State) -> bool {
    &&& sound(a.code, st, a.st)
    &&& straight(a.code)
    &&& a.st.label == st.label
    &&& forall|k: int| 0 <= k < a.regs.len() ==> st.regno <= #[trigger] a.regs[k] < a.st.regno
}

/// One instruction that creates register `base`.
pub proof fn lemma_regs_single_def(ir: IR, base: int)
    requires
        defines(ir),
        ir.lhs is Some,
        ir.lhs->0 == base,
    ensures
        regs_ok(seq![ir], base, base + 1),
{
    let code = seq![ir];
    assert(code.take(0) =~= Seq::<IR>::empty());
    assert(code.drop_last() =~= Seq::<IR>::empty());
    assert(count_defs(code) == 1) by {
        reveal_with_fuel(count_defs, 2);
    }
}

/// No code at all leads from a state to itself.
pub proof fn lemma_sound_empty(st: State)
    requires
        st.well_formed(),
    ensures
        sound(Seq::<IR>::empty(), st, st),
        straight(Seq::<IR>::empty()),
{
    lemma_straight_labels(Seq::<IR>::empty(), st.label as int);
}

/// Code that leads from `a` to `b`, followed by code that leads from `b`
/// to `c`, leads from `a` to `c`.
pub proof fn lemma_sound_concat(x: Seq<IR>, y: Seq<IR>, a: State, b: State, c: State)
    requires
        sound(x, a, b),
        sound(y, b, c),
    ensures
        sound(x + y, a, c),
{
    lemma_regs_concat(x, y, a.regno as int, b.regno as int, c.regno as int);
    lemma_labels_concat(x, y, a.label as int, b.label as int, c.label as int);
    lemma_well_formed_concat(x, y);
    lemma_vars_kept_chain(a.vars, b.vars, c.vars);
}

/// Lowered code may be followed by straight, well-formed instructions that
/// create no register and kill only registers that the code has created.
pub proof fn lemma_sound_tail(x: Seq<IR>, tail: Seq<IR>, a: State, b: State)
    requires
        sound(x, a, b),
        no_defs(tail),
        straight(tail),
        all_well_formed(tail),
        forall|j: int|
            0 <= j < tail.len() && (#[trigger] tail[j]).op is Kill ==> a.regno <= tail[j].lhs->0
                < b.regno,
    ensures
        sound(x + tail, a, b),
{
    assert forall|j: int| 0 <= j < tail.len() && (#[trigger] tail[j]).op is Kill implies tail[j].lhs
        is Some by {
        assert(tail[j].well_formed());
    }
    lemma_regs_tail(x, tail, a.regno as int, b.regno as int);
    lemma_straight_labels(tail, b.label as int);
    lemma_labels_concat(x, tail, a.label as int, b.label as int, b.label as int);
    lemma_well_formed_concat(x, tail);
}

/// The load of an immediate into a new register.
pub proof fn lemma_num_sound(st: State, imm: usize)
    requires
        st.well_formed(),
        st.has_reg(),
    ensures
        expr_sound(
            Lowered { code: seq![ir2(IROp::Imm, st.regno, imm)], reg: st.regno, st: st.take_reg() },
            st,
        ),
{
    let code = seq![ir2(IROp::Imm, st.regno, imm)];
    lemma_regs_single_def(code[0], st.regno as int);
    lemma_straight_labels(code, st.label as int);
}

/// The address of a variable.
pub proof fn lemma_lval_sound(node: Node, st: State)
    requires
        st.well_formed(),
        lower_lval(node, st) is Ok,
    ensures
        expr_sound(lower_lval(node, st)->Ok_0, st),
{
    reveal(lower_lval);
    let a = lower_lval(node, st)->Ok_0;
    let name = node.ty->Ident_0;
    let bound = if st.vars.contains_key(name@) {
        st
    } else {
        st.with_local(name@)
    };
    let r = bound.regno;
    let mov = seq![ir2(IROp::Mov, r, 0)];
    let sub = seq![ir2(IROp::SubImm, r, bound.vars[name@])];
    assert(a.code == mov + sub);
    lemma_regs_single_def(mov[0], r as int);
    lemma_straight_labels(mov, st.label as int);
    assert(sound(mov, st, a.st));
    lemma_sound_tail(mov, sub, st, a.st);
    lemma_straight_concat(mov, sub);
}

/// The load of a variable through its address.
pub proof fn lemma_load_sound(a: Lowered, st: State)
    requires
        expr_sound(a, st),
    ensures
        expr_sound(
            Lowered { code: a.code.push(ir2(IROp::Load, a.reg, a.reg)), reg: a.reg, st: a.st },
            st,
        ),
{
    let load = seq![ir2(IROp::Load, a.reg, a.reg)];
    assert(a.code.push(ir2(IROp::Load, a.reg, a.reg)) == a.code + load);
    lemma_sound_tail(a.code, load, st, a.st);
    lemma_straight_concat(a.code, load);
}

/// An assignment: the value `v`, then the address `a`, then the store.
pub proof fn lemma_assign_sound(v: Lowered, a: Lowered, st: State)
    requires
        expr_sound(v, st),
        expr_sound(a, v.st),
    ensures
        expr_sound(
            Lowered {
                code: v.code + a.code + seq![
                    ir2(IROp::Store, a.reg, v.reg),
                    ir1(IROp::Kill, v.reg),
                ],
                reg: a.reg,
                st: a.st,
            },
            st,
        ),
{
    let tail = seq![ir2(IROp::Store, a.reg, v.reg), ir1(IROp::Kill, v.reg)];
    lemma_sound_concat(v.code, a.code, st, v.st, a.st);
    lemma_straight_concat(v.code, a.code);
    lemma_sound_tail(v.code + a.code, tail, st, a.st);
    lemma_straight_concat(v.code + a.code, tail);
}

/// An arithmetic operation: the left operand `l`, then the right operand
/// `r`, then the operation, which leaves its result in the left register.
pub proof fn lemma_arith_sound(l: Lowered, r: Lowered, token: TokenType, st: State)
    requires
        expr_sound(l, st),
        expr_sound(r, l.st),
        IROp::of_token(token) is Some,
    ensures
        expr_sound(
            Lowered {
                code: l.code + r.code + seq![
                    ir2(IROp::of_token(token)->0, l.reg, r.reg),
                    ir1(IROp::Kill, r.reg),
                ],
                reg: l.reg,
                st: r.st,
            },
            st,
        ),
{
    let tail = seq![ir2(IROp::of_token(token)->0, l.reg, r.reg), ir1(IROp::Kill, r.reg)];
    lemma_sound_concat(l.code, r.code, st, l.st, r.st);
    lemma_straight_concat(l.code, r.code);
    lemma_sound_tail(l.code + r.code, tail, st, r.st);
    lemma_straight_concat(l.code + r.code, tail);
}

/// A call: the arguments `a`, then the call into a new register, then one
/// `Kill` for each argument register.
pub proof fn lemma_call_sound(name: String, nargs: usize, a: LoweredArgs, st: State)
    requires
        args_sound(a, st),
        a.st.has_reg(),
        nargs <= MAX_CALL_ARGS,
    ensures
        expr_sound(
            Lowered {
                code: a.code.push(
                    IR {
                        op: IROp::Call(name, nargs, arg_array(a.regs)),
                        lhs: Some(a.st.regno),
                        rhs: None,
                    },
                ) + kills(a.regs),
                reg: a.st.regno,
                st: a.st.take_reg(),
            },
            st,
        ),
{
    let call = seq![
        IR { op: IROp::Call(name, nargs, arg_array(a.regs)), lhs: Some(a.st.regno), rhs: None },
    ];
    let after = a.st.take_reg();
    assert(a.code.push(call[0]) == a.code + call);
    lemma_regs_single_def(call[0], a.st.regno as int);
    lemma_straight_labels(call, a.st.label as int);
    assert(sound(call, a.st, after));
    lemma_sound_concat(a.code, call, st, a.st, after);
    lemma_straight_concat(a.code, call);
    lemma_sound_tail(a.code + call, kills(a.regs), st, after);
    lemma_straight_concat(a.code + call, kills(a.regs));
}

/// One more argument: the arguments `a` so far, then the expression `x`.
pub proof fn lemma_args_step_sound(a: LoweredArgs, x: Lowered, st: State)
    requires
        args_sound(a, st),
        expr_sound(x, a.st),
    ensures
        args_sound(
            LoweredArgs { code: a.code + x.code, regs: a.regs.push(x.reg), st: x.st },
            st,
        ),
{
    lemma_sound_concat(a.code, x.code, st, a.st, x.st);
    lemma_straight_concat(a.code, x.code);
}

/// Every lowered expression is sound.
pub proof fn lemma_expr_sound(node: Node, st: State)
    requires
        st.well_formed(),
        lower_expr(node, st) is Ok,
    ensures
        expr_sound(lower_expr(node, st)->Ok_0, st),
    decreases node, 0nat,
{
    reveal(lower_expr);
    match node.ty {
        NodeType::Num(val) => {
            lemma_num_sound(st, val as usize);
        },
        NodeType::Ident(_) => {
            lemma_lval_sound(node, st);
            lemma_load_sound(lower_lval(node, st)->Ok_0, st);
        },
        NodeType::Call(name, args) => {
            lemma_args_sound(args, args.len() as nat, st);
            lemma_call_sound(name, args.len(), lower_args(args, args.len() as nat, st)->Ok_0, st);
        },
        NodeType::BinOp(op, lhs, rhs) => {
            if op == TokenType::Equal {
                lemma_expr_sound(*rhs, st);
                let v = lower_expr(*rhs, st)->Ok_0;
                lemma_lval_sound(*lhs, v.st);
                lemma_assign_sound(v, lower_lval(*lhs, v.st)->Ok_0, st);
            } else {
                lemma_expr_sound(*lhs, st);
                let l = lower_expr(*lhs, st)->Ok_0;
                lemma_expr_sound(*rhs, l.st);
                lemma_arith_sound(l, lower_expr(*rhs, l.st)->Ok_0, op, st);
            }
        },
        _ => {},
    }
}

/// The lowered arguments of a call are sound, and there is one register
/// for each.
pub proof fn lemma_args_sound(args: Vec<Node>, n: nat, st: State)
    requires
        st.well_formed(),
        n <= args.len(),
        lower_args(args, n, st) is Ok,
    ensures
        args_sound(lower_args(args, n, st)->Ok_0, st),
        lower_args(args, n, st)->Ok_0.regs.len() == n,
    decreases args, n,
{
    reveal(lower_expr);
    if n == 0 {
        lemma_sound_empty(st);
    } else {
        lemma_args_sound(args, (n - 1) as nat, st);
        let a = lower_args(args, (n - 1) as nat, st)->Ok_0;
        lemma_expr_sound(args[n - 1], a.st);
        lemma_args_step_sound(a, lower_expr(args[n - 1], a.st)->Ok_0, st);
    }
}

/// A `return`: the value, then the return of its register, then its `Kill`.
pub proof fn lemma_return_sound(v: Lowered, st: State)
    requires
        expr_sound(v, st),
    ensures
        sound(v.code + seq![ir1(IROp::Return, v.reg), ir1(IROp::Kill, v.reg)], st, v.st),
{
    lemma_sound_tail(v.code, seq![ir1(IROp::Return, v.reg), ir1(IROp::Kill, v.reg)], st, v.st);
}

/// An expression statement: the value, then the `Kill` of its register.
pub proof fn lemma_expr_stmt_sound(v: Lowered, st: State)
    requires
        expr_sound(v, st),
    ensures
        sound(v.code.push(ir1(IROp::Kill, v.reg)), st, v.st),
{
    let kill = seq![ir1(IROp::Kill, v.reg)];
    assert(v.code.push(ir1(IROp::Kill, v.reg)) == v.code + kill);
    lemma_sound_tail(v.code, kill, st, v.st);
}

/// An `if` without `else`: the condition `c`, then the "then" branch `t`,
/// lowered from the state in which the label of the `if` is taken.
pub proof fn lemma_if_sound(c: Lowered, t: LoweredStmt, st: State)
    requires
        expr_sound(c, st),
        c.st.has_label(),
        sound(t.code, c.st.take_label(), t.st),
    ensures
        sound(if_code(c.code, c.reg, c.st.label, t.code), st, t.st),
{
    let x = c.st.label;
    let branch = seq![ir2(IROp::Unless, c.reg, x), ir1(IROp::Kill, c.reg)];
    let label = seq![ir1(IROp::Label, x)];
    let code = if_code(c.code, c.reg, x, t.code);
    assert(code == c.code + branch + t.code + label);
    lemma_if_labels(c.code, c.reg, x, t.code, t.st.label as int);
    // The registers.
    lemma_regs_tail(c.code, branch, st.regno as int, c.st.regno as int);
    lemma_regs_concat(
        c.code + branch,
        t.code,
        st.regno as int,
        c.st.regno as int,
        t.st.regno as int,
    );
    lemma_regs_tail(c.code + branch + t.code, label, st.regno as int, t.st.regno as int);
    // The operands.
    lemma_well_formed_concat(c.code, branch);
    lemma_well_formed_concat(c.code + branch, t.code);
    lemma_well_formed_concat(c.code + branch + t.code, label);
    // The variables.
    lemma_vars_kept_chain(st.vars, c.st.vars, t.st.vars);
}

/// An `if` with `else`: the condition `c`, the "then" branch `t`, and the
/// "else" branch `e`, lowered from the state in which the second label of
/// the `if` is taken.
pub proof fn lemma_if_else_sound(c: Lowered, t: LoweredStmt, e: LoweredStmt, st: State)
    requires
        expr_sound(c, st),
        c.st.has_label(),
        sound(t.code, c.st.take_label(), t.st),
        t.st.has_label(),
        sound(e.code, t.st.take_label(), e.st),
    ensures
        sound(if_else_code(c.code, c.reg, c.st.label, t.code, t.st.label, e.code), st, e.st),
{
    let x = c.st.label;
    let y = t.st.label;
    let branch = seq![ir2(IROp::Unless, c.reg, x), ir1(IROp::Kill, c.reg)];
    let middle = seq![ir1(IROp::Jmp, y), ir1(IROp::Label, x)];
    let label = seq![ir1(IROp::Label, y)];
    let code = if_else_code(c.code, c.reg, x, t.code, y, e.code);
    assert(code == c.code + branch + t.code + middle + e.code + label);
    lemma_if_else_labels(c.code, c.reg, x, t.code, y, e.code, e.st.label as int);
    // The registers.
    let r0 = st.regno as int;
    lemma_regs_tail(c.code, branch, r0, c.st.regno as int);
    lemma_regs_concat(c.code + branch, t.code, r0, c.st.regno as int, t.st.regno as int);
    lemma_regs_tail(c.code + branch + t.code, middle, r0, t.st.regno as int);
    lemma_regs_concat(
        c.code + branch + t.code + middle,
        e.code,
        r0,
        t.st.regno as int,
        e.st.regno as int,
    );
    lemma_regs_tail(c.code + branch + t.code + middle + e.code, label, r0, e.st.regno as int);
    // The operands.
    lemma_well_formed_concat(c.code, branch);
    lemma_well_formed_concat(c.code + branch, t.code);
    lemma_well_formed_concat(c.code + branch + t.code, middle);
    lemma_well_formed_concat(c.code + branch + t.code + middle, e.code);
    lemma_well_formed_concat(c.code + branch + t.code + middle + e.code, label);
    // The variables.
    lemma_vars_kept_chain(st.vars, c.st.vars, t.st.vars);
    lemma_vars_kept_chain(st.vars, t.st.vars, e.st.vars);
}

/// Every lowered statement is sound.
pub proof fn lemma_stmt_sound(node: Node, st: State)
    requires
        st.well_formed(),
        lower_stmt(node, st) is Ok,
    ensures
        sound(lower_stmt(node, st)->Ok_0.code, st, lower_stmt(node, st)->Ok_0.st),
    decreases node, 0nat,
{
    reveal(lower_stmt);
    match node.ty {
        NodeType::If(cond, then, els_may) => {
            lemma_expr_sound(*cond, st);
            let c = lower_expr(*cond, st)->Ok_0;
            lemma_stmt_sound(*then, c.st.take_label());
            let t = lower_stmt(*then, c.st.take_label())->Ok_0;
            match els_may {
                None => {
                    lemma_if_sound(c, t, st);
                },
                Some(els) => {
                    lemma_stmt_sound(*els, t.st.take_label());
                    lemma_if_else_sound(c, t, lower_stmt(*els, t.st.take_label())->Ok_0, st);
                },
            }
        },
        NodeType::Return(expr) => {
            lemma_expr_sound(*expr, st);
            lemma_return_sound(lower_expr(*expr, st)->Ok_0, st);
        },
        NodeType::ExprStmt(expr) => {
            lemma_expr_sound(*expr, st);
            lemma_expr_stmt_sound(lower_expr(*expr, st)->Ok_0, st);
        },
        NodeType::CompStmt(stmts) => {
            lemma_stmts_sound(stmts, stmts.len() as nat, st);
        },
        _ => {},
    }
}

/// Every lowered run of statements is sound.
pub proof fn lemma_stmts_sound(stmts: Vec<Node>, n: nat, st: State)
    requires
        st.well_formed(),
        n <= stmts.len(),
        lower_stmts(stmts, n, st) is Ok,
    ensures
        sound(lower_stmts(stmts, n, st)->Ok_0.code, st, lower_stmts(stmts, n, st)->Ok_0.st),
    decreases stmts, n,
{
    reveal(lower_stmt);
    if n == 0 {
        lemma_sound_empty(st);
    } else {
        lemma_stmts_sound(stmts, (n - 1) as nat, st);
        let a = lower_stmts(stmts, (n - 1) as nat, st)->Ok_0;
        lemma_stmt_sound(stmts[n - 1], a.st);
        let x = lower_stmt(stmts[n - 1], a.st)->Ok_0;
        lemma_sound_concat(a.code, x.code, st, a.st, x.st);
    }
}

/// The number of labels that a statement asks for: one for each `if`
/// without `else` in it, two for each `if` with `else`.
pub open spec fn labels_in(node: Node) -> nat
    decreases node, 0nat,
{
    match node.ty {
        NodeType::If(_, then, els_may) => match els_may {
            None => 1 + labels_in(*then),
            Some(els) => 2 + labels_in(*then) + labels_in(*els),
        },
        NodeType::CompStmt(stmts) => labels_in_all(stmts, stmts.len() as nat),
        _ => 0,
    }
}

/// The number of labels that the first `n` statements of a block ask for.
pub open spec fn labels_in_all(stmts: Vec<Node>, n: nat) -> nat
    decreases stmts, n,
{
    if n == 0 || n > stmts.len() {
        0
    } else {
        labels_in_all(stmts, (n - 1) as nat) + labels_in(stmts[n - 1])
    }
}

/// A statement takes exactly the labels that its `if`s ask for, one for
/// each `if` without `else` and two for each `if` with `else`, and its code
/// defines as many.
pub proof fn lemma_stmt_labels(node: Node, st: State)
    requires
        st.well_formed(),
        lower_stmt(node, st) is Ok,
    ensures
        lower_stmt(node, st)->Ok_0.st.label == st.label + labels_in(node),
        count_labels(lower_stmt(node, st)->Ok_0.code) == labels_in(node),
    decreases node, 0nat,
{
    reveal(lower_stmt);
    lemma_stmt_sound(node, st);
    match node.ty {
        NodeType::If(cond, then, els_may) => {
            lemma_expr_sound(*cond, st);
            let c = lower_expr(*cond, st)->Ok_0;
            lemma_stmt_sound(*then, c.st.take_label());
            lemma_stmt_labels(*then, c.st.take_label());
            let t = lower_stmt(*then, c.st.take_label())->Ok_0;
            match els_may {
                None => {},
                Some(els) => {
                    lemma_stmt_labels(*els, t.st.take_label());
                },
            }
        },
        NodeType::Return(expr) => {
            lemma_expr_sound(*expr, st);
        },
        NodeType::ExprStmt(expr) => {
            lemma_expr_sound(*expr, st);
        },
        NodeType::CompStmt(stmts) => {
            lemma_stmts_labels(stmts, stmts.len() as nat, st);
        },
        _ => {},
    }
}

/// A run of statements takes exactly the labels that its `if`s ask for.
pub proof fn lemma_stmts_labels(stmts: Vec<Node>, n: nat, st: State)
    requires
        st.well_formed(),
        n <= stmts.len(),
        lower_stmts(stmts, n, st) is Ok,
    ensures
        lower_stmts(stmts, n, st)->Ok_0.st.label == st.label + labels_in_all(stmts, n),
    decreases stmts, n,
{
    reveal(lower_stmt);
    if n > 0 {
        lemma_stmts_labels(stmts, (n - 1) as nat, st);
        lemma_stmts_sound(stmts, (n - 1) as nat, st);
        let a = lower_stmts(stmts, (n - 1) as nat, st)->Ok_0;
        lemma_stmt_labels(stmts[n - 1], a.st);
    }
}

/// Binding parameters leaves the register and label counters alone and
/// grows the frame by whole slots.
pub proof fn lemma_params_sound(params: Seq<Node>, n: nat, st: State)
    requires
        st.well_formed(),
        n <= params.len(),
        bind_params(params, n, st) is Ok,
    ensures
        bind_params(params, n, st)->Ok_0.well_formed(),
        bind_params(params, n, st)->Ok_0.regno == st.regno,
        bind_params(params, n, st)->Ok_0.label == st.label,
        bind_params(params, n, st)->Ok_0.stacksize == st.stacksize + n * SLOT,
    decreases n,
{
    if n > 0 {
        lemma_params_sound(params, (n - 1) as nat, st);
    }
}

/// What holds of the code of every lowered function.
pub open spec fn function_ok(f: FunctionModel) -> bool {
    &&& numbered_from(f.ir, 1)
    &&& kills_follow_defs(f.ir)
    &&& labels_distinct(f.ir)
    &&& jumps_resolved(f.ir)
    &&& all_well_formed(f.ir)
    &&& f.stacksize % SLOT == 0
}

/// No label is defined twice in the whole program: two `Label`
/// instructions, in one function or in two, name different labels.
pub open spec fn labels_unique(fns: Seq<FunctionModel>) -> bool {
    forall|f: int, i: int, g: int, j: int|
        0 <= f < fns.len() && 0 <= i < fns[f].ir.len() && 0 <= g < fns.len() && 0 <= j
            < fns[g].ir.len() && (f != g || i != j) && (#[trigger] fns[f].ir[i]).op is Label && (
        #[trigger] fns[g].ir[j]).op is Label ==> fns[f].ir[i].lhs != fns[g].ir[j].lhs
}

/// What holds of every lowered program.
pub open spec fn program_ok(fns: Seq<FunctionModel>) -> bool {
    &&& forall|k: int| 0 <= k < fns.len() ==> function_ok(#[trigger] fns[k])
    &&& labels_unique(fns)
}

/// Among the first `j` instructions, there is one that creates the `m`-th
/// register, for every `m` below the number of registers they create.
pub proof fn lemma_nth_def(code: Seq<IR>, j: int, m: int) -> (i: int)
    requires
        0 <= j <= code.len(),
        0 <= m < defs_before(code, j),
    ensures
        0 <= i < j,
        defines(code[i]),
        defs_before(code, i) == m,
    decreases j,
{
    if j == 0 {
        assert(code.take(0) =~= Seq::<IR>::empty());
        0
    } else {
        lemma_defs_before_grows(code, j - 1, j - 1);
        if defines(code[j - 1]) && defs_before(code, j - 1) == m {
            j - 1
        } else {
            lemma_nth_def(code, j - 1, m)
        }
    }
}

/// In code whose registers are numbered in order, every `Kill` names a
/// register that an earlier instruction has created.
pub proof fn lemma_kills_follow_defs(code: Seq<IR>, base: int, end: int)
    requires
        regs_ok(code, base, end),
    ensures
        kills_follow_defs(code),
{
    assert forall|j: int|
        0 <= j < code.len() && (#[trigger] code[j]).op is Kill implies created_before(code, j) by {
        let i = lemma_nth_def(code, j, code[j].lhs->0 - base);
        assert(defines(code[i]) && code[i].lhs == code[j].lhs);
    }
}

/// In code whose registers are numbered from 1 in order, the registers
/// that the instructions create ascend strictly, from 1 on: of two
/// instructions that create a register, the later one creates the larger.
pub proof fn lemma_registers_ascend(code: Seq<IR>, i: int, j: int)
    requires
        numbered_from(code, 1),
        0 <= i < j < code.len(),
        defines(code[i]),
        defines(code[j]),
    ensures
        code[i].lhs is Some,
        code[j].lhs is Some,
        1 <= code[i].lhs->0 < code[j].lhs->0,
        defs_before(code, i) == 0 ==> code[i].lhs->0 == 1,
{
    lemma_defs_before_grows(code, i, i);
    lemma_defs_before_grows(code, i + 1, j);
}

/// Every lowered function is sound: its registers are numbered from 1, its
/// labels are those from `label` up to the next free label, and its frame
/// is a whole number of slots.
pub proof fn lemma_function_sound(node: Node, label: usize)
    requires
        lower_function(node, label) is Ok,
    ensures
        function_ok(lower_function(node, label)->Ok_0.function),
        labels_once(
            lower_function(node, label)->Ok_0.function.ir,
            label as int,
            lower_function(node, label)->Ok_0.label as int,
        ),
{
    let f = lower_function(node, label)->Ok_0;
    let params = node.ty->Func_1;
    let body = node.ty->Func_2;
    let st0 = State::fresh(label);
    lemma_params_sound(params@, params.len() as nat, st0);
    let st = bind_params(params@, params.len() as nat, st0)->Ok_0;
    lemma_stmt_sound(*body, st);
    let b = lower_stmt(*body, st)->Ok_0;
    let head = save_args(params.len());
    assert(sound(head, st, st)) by {
        lemma_sound_empty(st);
        lemma_sound_tail(Seq::<IR>::empty(), head, st, st);
        assert(Seq::<IR>::empty() + head == head);
    }
    lemma_sound_concat(head, b.code, st, st, b.st);
    lemma_kills_follow_defs(f.function.ir, 1, b.st.regno as int);
}

/// Every lowered program is sound, and all its labels lie below the next
/// free label.
pub proof fn lemma_functions_sound(nodes: Seq<Node>, n: nat)
    requires
        n <= nodes.len(),
        lower_functions(nodes, n) is Ok,
    ensures
        lower_functions(nodes, n)->Ok_0.functions.len() == n,
        program_ok(lower_functions(nodes, n)->Ok_0.functions),
        forall|k: int|
            0 <= k < n ==> labels_within(
                (#[trigger] lower_functions(nodes, n)->Ok_0.functions[k]).ir,
                0,
                lower_functions(nodes, n)->Ok_0.label as int,
            ),
    decreases n,
{
    if n > 0 {
        lemma_functions_sound(nodes, (n - 1) as nat);
        let p = lower_functions(nodes, (n - 1) as nat)->Ok_0;
        lemma_function_sound(nodes[n - 1], p.label);
        let f = lower_function(nodes[n - 1], p.label)->Ok_0;
        let fns = p.functions.push(f.function);
        assert forall|k: int| 0 <= k < n implies function_ok(#[trigger] fns[k]) && labels_within(
            fns[k].ir,
            0,
            f.label as int,
        ) by {
            if k < n - 1 {
                assert(fns[k] == p.functions[k]);
            }
        }
        assert forall|a: int, i: int, b: int, j: int|
            0 <= a < fns.len() && 0 <= i < fns[a].ir.len() && 0 <= b < fns.len() && 0 <= j
                < fns[b].ir.len() && (a != b || i != j) && (#[trigger] fns[a].ir[i]).op is Label
                && (#[trigger] fns[b].ir[j]).op is Label implies fns[a].ir[i].lhs
            != fns[b].ir[j].lhs by {
            if a < n - 1 {
                assert(fns[a] == p.functions[a]);
            }
            if b < n - 1 {
                assert(fns[b] == p.functions[b]);
            }
        }
    }
}

/// Every program that lowering accepts comes out sound: in each function
/// the registers are numbered from 1 in the order of their creation, every
/// `Kill` names a register created before it, every jump goes to a label
/// defined further on, every instruction has its operands, and the frame
/// is a whole number of slots; and no label is defined twice in the whole
/// program.
pub proof fn lemma_program_sound(nodes: Seq<Node>)
    requires
        lower_program(nodes) is Ok,
    ensures
        program_ok(lower_program(nodes)->Ok_0),
        lower_program(nodes)->Ok_0.len() == nodes.len(),
{
    lemma_functions_sound(nodes, nodes.len());
}

} // verus!
