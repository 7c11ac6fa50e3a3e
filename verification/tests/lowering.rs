use irgen::ast::{Node, NodeType, TokenType};
use irgen::context::LoweringContext;
use irgen::error::LowerError;
use irgen::ir::{gen_ir, Function, IROp, IR};
use irgen::emit::{gen_args, gen_expr, gen_function, gen_lval, gen_stmt};

fn num(val: i32) -> Node {
    Node::new(NodeType::Num(val))
}

fn ident(name: &str) -> Node {
    Node::new(NodeType::Ident(name.to_string()))
}

fn binop(op: TokenType, lhs: Node, rhs: Node) -> Node {
    Node::new(NodeType::BinOp(op, Box::new(lhs), Box::new(rhs)))
}

fn assign(name: &str, rhs: Node) -> Node {
    binop(TokenType::Equal, ident(name), rhs)
}

fn ret(expr: Node) -> Node {
    Node::new(NodeType::Return(Box::new(expr)))
}

fn expr_stmt(expr: Node) -> Node {
    Node::new(NodeType::ExprStmt(Box::new(expr)))
}

fn block(stmts: Vec<Node>) -> Node {
    Node::new(NodeType::CompStmt(stmts))
}

fn if_else(cond: Node, then: Node, els: Option<Node>) -> Node {
    Node::new(NodeType::If(Box::new(cond), Box::new(then), els.map(Box::new)))
}

fn call(name: &str, args: Vec<Node>) -> Node {
    Node::new(NodeType::Call(name.to_string(), args))
}

fn func(name: &str, params: Vec<Node>, body: Node) -> Node {
    Node::new(NodeType::Func(name.to_string(), params, Box::new(body)))
}

fn ir(op: IROp, lhs: usize, rhs: usize) -> IR {
    IR::new(op, Some(lhs), Some(rhs))
}

fn ir1(op: IROp, lhs: usize) -> IR {
    IR::new(op, Some(lhs), None)
}

fn lower_one(node: Node) -> Function {
    let mut fns = gen_ir(vec![node]).unwrap();
    assert_eq!(fns.len(), 1);
    fns.pop().unwrap()
}

fn lower_body(stmts: Vec<Node>) -> Result<Vec<Function>, LowerError> {
    gen_ir(vec![func("main", vec![], block(stmts))])
}

#[test]
fn return_of_a_sum() {
    let f = lower_one(func(
        "main",
        vec![],
        block(vec![ret(binop(TokenType::Plus, num(1), num(2)))]),
    ));
    assert_eq!(f.name, "main");
    assert_eq!(
        f.ir,
        vec![
            ir(IROp::Imm, 1, 1),
            ir(IROp::Imm, 2, 2),
            ir(IROp::Add, 1, 2),
            ir1(IROp::Kill, 2),
            ir1(IROp::Return, 1),
            ir1(IROp::Kill, 1),
        ]
    );
    assert_eq!(f.stacksize, 0);
}

#[test]
fn assignment_then_return_of_the_variable() {
    let f = lower_one(func(
        "main",
        vec![],
        block(vec![expr_stmt(assign("x", num(3))), ret(ident("x"))]),
    ));
    assert_eq!(
        f.ir,
        vec![
            ir(IROp::Imm, 1, 3),
            ir(IROp::Mov, 2, 0),
            ir(IROp::SubImm, 2, 0),
            ir(IROp::Store, 2, 1),
            ir1(IROp::Kill, 1),
            ir1(IROp::Kill, 2),
            ir(IROp::Mov, 3, 0),
            ir(IROp::SubImm, 3, 0),
            ir(IROp::Load, 3, 3),
            ir1(IROp::Return, 3),
            ir1(IROp::Kill, 3),
        ]
    );
    assert_eq!(f.stacksize, 8);
}

#[test]
fn if_with_else() {
    let f = lower_one(func(
        "main",
        vec![],
        block(vec![if_else(ident("a"), ret(num(1)), Some(ret(num(2))))]),
    ));
    assert_eq!(
        f.ir,
        vec![
            ir(IROp::Mov, 1, 0),
            ir(IROp::SubImm, 1, 0),
            ir(IROp::Load, 1, 1),
            ir(IROp::Unless, 1, 0),
            ir1(IROp::Kill, 1),
            ir(IROp::Imm, 2, 1),
            ir1(IROp::Return, 2),
            ir1(IROp::Kill, 2),
            ir1(IROp::Jmp, 1),
            ir1(IROp::Label, 0),
            ir(IROp::Imm, 3, 2),
            ir1(IROp::Return, 3),
            ir1(IROp::Kill, 3),
            ir1(IROp::Label, 1),
        ]
    );
    assert_eq!(f.stacksize, 8);
}

#[test]
fn if_without_else() {
    let f = lower_one(func(
        "main",
        vec![],
        block(vec![if_else(num(1), ret(num(5)), None), ret(num(6))]),
    ));
    assert_eq!(
        f.ir,
        vec![
            ir(IROp::Imm, 1, 1),
            ir(IROp::Unless, 1, 0),
            ir1(IROp::Kill, 1),
            ir(IROp::Imm, 2, 5),
            ir1(IROp::Return, 2),
            ir1(IROp::Kill, 2),
            ir1(IROp::Label, 0),
            ir(IROp::Imm, 3, 6),
            ir1(IROp::Return, 3),
            ir1(IROp::Kill, 3),
        ]
    );
}

#[test]
fn function_with_two_parameters() {
    let f = lower_one(func(
        "foo",
        vec![ident("a"), ident("b")],
        block(vec![ret(binop(TokenType::Plus, ident("a"), ident("b")))]),
    ));
    assert_eq!(f.name, "foo");
    assert_eq!(
        f.ir,
        vec![
            ir1(IROp::SaveArgs, 2),
            ir(IROp::Mov, 1, 0),
            ir(IROp::SubImm, 1, 8),
            ir(IROp::Load, 1, 1),
            ir(IROp::Mov, 2, 0),
            ir(IROp::SubImm, 2, 16),
            ir(IROp::Load, 2, 2),
            ir(IROp::Add, 1, 2),
            ir1(IROp::Kill, 2),
            ir1(IROp::Return, 1),
            ir1(IROp::Kill, 1),
        ]
    );
    assert_eq!(f.stacksize, 16);
}

#[test]
fn top_level_node_that_is_no_function() {
    let good = func("main", vec![], block(vec![ret(num(0))]));
    assert_eq!(gen_ir(vec![good, ret(num(1))]), Err(LowerError::NotAFunction));
    assert_eq!(gen_ir(vec![num(1)]), Err(LowerError::NotAFunction));
    assert_eq!(gen_ir(vec![block(vec![])]), Err(LowerError::NotAFunction));
}

#[test]
fn empty_program_and_empty_function() {
    assert_eq!(gen_ir(vec![]), Ok(vec![]));
    let f = lower_one(func("main", vec![], block(vec![])));
    assert_eq!(f.ir, vec![]);
    assert_eq!(f.stacksize, 0);
}

#[test]
fn call_kills_its_arguments_and_keeps_its_result() {
    let f = lower_one(func(
        "main",
        vec![],
        block(vec![ret(call("f", vec![num(7), num(9)]))]),
    ));
    assert_eq!(
        f.ir,
        vec![
            ir(IROp::Imm, 1, 7),
            ir(IROp::Imm, 2, 9),
            ir1(IROp::Call("f".to_string(), 2, [1, 2, 0, 0, 0, 0]), 3),
            ir1(IROp::Kill, 1),
            ir1(IROp::Kill, 2),
            ir1(IROp::Return, 3),
            ir1(IROp::Kill, 3),
        ]
    );
}

#[test]
fn call_without_arguments() {
    let f = lower_one(func("main", vec![], block(vec![expr_stmt(call("g", vec![]))])));
    assert_eq!(
        f.ir,
        vec![ir1(IROp::Call("g".to_string(), 0, [0; 6]), 1), ir1(IROp::Kill, 1)]
    );
}

#[test]
fn call_arguments_are_lowered_left_to_right() {
    let inner = call("g", vec![num(1)]);
    let f = lower_one(func(
        "main",
        vec![],
        block(vec![expr_stmt(call("f", vec![inner, ident("x"), num(3)]))]),
    ));
    assert_eq!(
        f.ir,
        vec![
            ir(IROp::Imm, 1, 1),
            ir1(IROp::Call("g".to_string(), 1, [1, 0, 0, 0, 0, 0]), 2),
            ir1(IROp::Kill, 1),
            ir(IROp::Mov, 3, 0),
            ir(IROp::SubImm, 3, 0),
            ir(IROp::Load, 3, 3),
            ir(IROp::Imm, 4, 3),
            ir1(IROp::Call("f".to_string(), 3, [2, 3, 4, 0, 0, 0]), 5),
            ir1(IROp::Kill, 2),
            ir1(IROp::Kill, 3),
            ir1(IROp::Kill, 4),
            ir1(IROp::Kill, 5),
        ]
    );
    assert_eq!(f.stacksize, 8);
}

#[test]
fn call_with_six_arguments_fills_the_array() {
    let args = (1..=6).map(num).collect();
    let f = lower_one(func("main", vec![], block(vec![expr_stmt(call("f", args))])));
    assert_eq!(
        f.ir[6],
        ir1(IROp::Call("f".to_string(), 6, [1, 2, 3, 4, 5, 6]), 7)
    );
    assert_eq!(f.ir.len(), 6 + 1 + 6 + 1);
}

#[test]
fn call_with_seven_arguments_is_refused() {
    let args = (1..=7).map(num).collect();
    assert_eq!(
        lower_body(vec![expr_stmt(call("f", args))]),
        Err(LowerError::TooManyArguments)
    );
}

#[test]
fn each_arithmetic_operator_has_its_opcode() {
    for (token, op) in [
        (TokenType::Plus, IROp::Add),
        (TokenType::Minus, IROp::Sub),
        (TokenType::Mul, IROp::Mul),
        (TokenType::Div, IROp::Div),
    ] {
        let f = lower_one(func(
            "main",
            vec![],
            block(vec![expr_stmt(binop(token, num(8), num(4)))]),
        ));
        assert_eq!(
            f.ir,
            vec![
                ir(IROp::Imm, 1, 8),
                ir(IROp::Imm, 2, 4),
                ir(op, 1, 2),
                ir1(IROp::Kill, 2),
                ir1(IROp::Kill, 1),
            ]
        );
    }
}

#[test]
fn nested_arithmetic_keeps_the_left_register() {
    // (1 + 2) * (3 - 4)
    let f = lower_one(func(
        "main",
        vec![],
        block(vec![ret(binop(
            TokenType::Mul,
            binop(TokenType::Plus, num(1), num(2)),
            binop(TokenType::Minus, num(3), num(4)),
        ))]),
    ));
    assert_eq!(
        f.ir,
        vec![
            ir(IROp::Imm, 1, 1),
            ir(IROp::Imm, 2, 2),
            ir(IROp::Add, 1, 2),
            ir1(IROp::Kill, 2),
            ir(IROp::Imm, 3, 3),
            ir(IROp::Imm, 4, 4),
            ir(IROp::Sub, 3, 4),
            ir1(IROp::Kill, 4),
            ir(IROp::Mul, 1, 3),
            ir1(IROp::Kill, 3),
            ir1(IROp::Return, 1),
            ir1(IROp::Kill, 1),
        ]
    );
}

#[test]
fn assignment_yields_the_address_register() {
    // y = (x = 5): the inner assignment hands on the address of x.
    let mut code = Vec::new();
    let mut ctx = LoweringContext::new(0);
    let r = gen_expr(&mut code, &mut ctx, &assign("y", assign("x", num(5))));
    assert_eq!(r, Ok(3));
    assert_eq!(
        code,
        vec![
            ir(IROp::Imm, 1, 5),
            ir(IROp::Mov, 2, 0),
            ir(IROp::SubImm, 2, 0),
            ir(IROp::Store, 2, 1),
            ir1(IROp::Kill, 1),
            ir(IROp::Mov, 3, 0),
            ir(IROp::SubImm, 3, 8),
            ir(IROp::Store, 3, 2),
            ir1(IROp::Kill, 2),
        ]
    );
    assert_eq!(ctx.stacksize, 16);
    assert_eq!(ctx.regno, 4);
}

#[test]
fn locals_get_their_slots_in_the_order_of_first_use() {
    let f = lower_one(func(
        "main",
        vec![],
        block(vec![
            expr_stmt(assign("a", num(1))),
            expr_stmt(assign("b", num(2))),
            expr_stmt(assign("a", num(3))),
            expr_stmt(assign("c", ident("b"))),
        ]),
    ));
    let offsets: Vec<usize> = f
        .ir
        .iter()
        .filter(|i| i.op == IROp::SubImm)
        .map(|i| i.rhs.unwrap())
        .collect();
    assert_eq!(offsets, vec![0, 8, 0, 8, 16]);
    assert_eq!(f.stacksize, 24);
}

#[test]
fn a_parameter_and_the_first_local_share_an_offset() {
    // Parameters take the stack size after it has grown, locals the stack
    // size before it grows.
    let f = lower_one(func(
        "f",
        vec![ident("a")],
        block(vec![expr_stmt(assign("x", ident("a")))]),
    ));
    assert_eq!(
        f.ir,
        vec![
            ir1(IROp::SaveArgs, 1),
            ir(IROp::Mov, 1, 0),
            ir(IROp::SubImm, 1, 8),
            ir(IROp::Load, 1, 1),
            ir(IROp::Mov, 2, 0),
            ir(IROp::SubImm, 2, 8),
            ir(IROp::Store, 2, 1),
            ir1(IROp::Kill, 1),
            ir1(IROp::Kill, 2),
        ]
    );
    assert_eq!(f.stacksize, 16);
}

#[test]
fn a_repeated_parameter_takes_its_last_slot() {
    let f = lower_one(func(
        "f",
        vec![ident("a"), ident("a")],
        block(vec![ret(ident("a"))]),
    ));
    assert_eq!(f.ir[0], ir1(IROp::SaveArgs, 2));
    assert_eq!(f.ir[2], ir(IROp::SubImm, 1, 16));
    assert_eq!(f.stacksize, 16);
}

#[test]
fn a_negative_literal_wraps_like_a_cast() {
    let f = lower_one(func("main", vec![], block(vec![ret(num(-1))])));
    assert_eq!(f.ir[0], ir(IROp::Imm, 1, usize::MAX));
    let f = lower_one(func("main", vec![], block(vec![ret(num(i32::MAX))])));
    assert_eq!(f.ir[0], ir(IROp::Imm, 1, 2147483647));
}

#[test]
fn nested_blocks_are_lowered_in_order() {
    let f = lower_one(func(
        "main",
        vec![],
        block(vec![
            block(vec![expr_stmt(num(1)), block(vec![expr_stmt(num(2))])]),
            block(vec![]),
            expr_stmt(num(3)),
        ]),
    ));
    assert_eq!(
        f.ir,
        vec![
            ir(IROp::Imm, 1, 1),
            ir1(IROp::Kill, 1),
            ir(IROp::Imm, 2, 2),
            ir1(IROp::Kill, 2),
            ir(IROp::Imm, 3, 3),
            ir1(IROp::Kill, 3),
        ]
    );
}

#[test]
fn registers_start_over_in_each_function_and_labels_run_on() {
    let body = || block(vec![if_else(num(1), ret(num(2)), None)]);
    let fns = gen_ir(vec![func("f", vec![], body()), func("g", vec![], body())]).unwrap();
    assert_eq!(fns.len(), 2);
    assert_eq!(fns[0].name, "f");
    assert_eq!(fns[1].name, "g");
    assert_eq!(fns[0].ir[0], ir(IROp::Imm, 1, 1));
    assert_eq!(fns[1].ir[0], ir(IROp::Imm, 1, 1));
    assert_eq!(fns[0].ir[1], ir(IROp::Unless, 1, 0));
    assert_eq!(fns[1].ir[1], ir(IROp::Unless, 1, 1));
    assert_eq!(fns[0].ir[6], ir1(IROp::Label, 0));
    assert_eq!(fns[1].ir[6], ir1(IROp::Label, 1));
}

#[test]
fn assignment_to_something_else_than_a_variable() {
    assert_eq!(
        lower_body(vec![expr_stmt(binop(TokenType::Equal, num(1), num(2)))]),
        Err(LowerError::NotAnLvalue)
    );
    let mut code = Vec::new();
    let mut ctx = LoweringContext::new(0);
    assert_eq!(
        gen_lval(&mut code, &mut ctx, &call("f", vec![])),
        Err(LowerError::NotAnLvalue)
    );
}

#[test]
fn the_value_of_an_assignment_is_lowered_before_its_target_is_looked_at() {
    // Both sides are faulty; the fault of the right side is the one reported.
    let bad_value = ret(num(1));
    assert_eq!(
        lower_body(vec![expr_stmt(binop(TokenType::Equal, num(1), bad_value))]),
        Err(LowerError::UnknownNode)
    );
}

#[test]
fn nodes_that_have_no_lowering() {
    // A statement where an expression is expected.
    assert_eq!(lower_body(vec![ret(ret(num(1)))]), Err(LowerError::UnknownNode));
    assert_eq!(lower_body(vec![expr_stmt(block(vec![]))]), Err(LowerError::UnknownNode));
    // An expression where a statement is expected.
    assert_eq!(lower_body(vec![num(1)]), Err(LowerError::UnknownNode));
    assert_eq!(lower_body(vec![ident("x")]), Err(LowerError::UnknownNode));
    // A function definition inside a function.
    assert_eq!(
        lower_body(vec![func("inner", vec![], block(vec![]))]),
        Err(LowerError::UnknownNode)
    );
    // A binary operation whose operator is no arithmetic operator.
    assert_eq!(
        lower_body(vec![expr_stmt(binop(TokenType::Comma, num(1), num(2)))]),
        Err(LowerError::UnknownNode)
    );
}

#[test]
fn a_parameter_that_is_no_variable() {
    assert_eq!(
        gen_ir(vec![func("f", vec![ident("a"), num(1)], block(vec![]))]),
        Err(LowerError::BadParameter)
    );
    let mut code = Vec::new();
    let mut ctx = LoweringContext::new(0);
    assert_eq!(
        gen_args(&mut code, &mut ctx, &vec![call("g", vec![])]),
        Err(LowerError::BadParameter)
    );
}

#[test]
fn a_fault_in_a_later_function_fails_the_whole_program() {
    let good = func("f", vec![], block(vec![ret(num(1))]));
    let bad = func("g", vec![], block(vec![num(1)]));
    assert_eq!(gen_ir(vec![good, bad]), Err(LowerError::UnknownNode));
}

#[test]
fn the_register_counter_runs_out() {
    let mut code = Vec::new();
    let mut ctx = LoweringContext::new(0);
    ctx.regno = usize::MAX;
    assert_eq!(gen_expr(&mut code, &mut ctx, &num(1)), Err(LowerError::Exhausted));
    assert_eq!(gen_lval(&mut code, &mut ctx, &ident("x")), Err(LowerError::Exhausted));
    assert_eq!(
        gen_expr(&mut code, &mut ctx, &call("f", vec![])),
        Err(LowerError::Exhausted)
    );
    ctx.regno = usize::MAX - 1;
    assert_eq!(gen_expr(&mut code, &mut ctx, &num(1)), Ok(usize::MAX - 1));
    assert_eq!(ctx.regno, usize::MAX);
}

#[test]
fn the_label_counter_runs_out() {
    let mut code = Vec::new();
    let mut ctx = LoweringContext::new(usize::MAX);
    let stmt = if_else(num(1), ret(num(2)), None);
    assert_eq!(gen_stmt(&mut code, &mut ctx, &stmt), Err(LowerError::Exhausted));
    // One label is left, an `if` with `else` needs two.
    let mut code = Vec::new();
    let mut ctx = LoweringContext::new(usize::MAX - 1);
    let stmt = if_else(num(1), ret(num(2)), Some(ret(num(3))));
    assert_eq!(gen_stmt(&mut code, &mut ctx, &stmt), Err(LowerError::Exhausted));
    let mut code = Vec::new();
    let mut ctx = LoweringContext::new(usize::MAX - 1);
    let stmt = if_else(num(1), ret(num(2)), None);
    assert_eq!(gen_stmt(&mut code, &mut ctx, &stmt), Ok(()));
    assert_eq!(ctx.label, usize::MAX);
    assert_eq!(gen_function(&block(vec![]), 0).err(), Some(LowerError::NotAFunction));
}

#[test]
fn the_frame_cannot_grow_past_the_largest_size() {
    let mut code = Vec::new();
    let mut ctx = LoweringContext::new(0);
    ctx.stacksize = usize::MAX - 7;
    assert_eq!(gen_lval(&mut code, &mut ctx, &ident("x")), Err(LowerError::Exhausted));
    assert_eq!(
        gen_args(&mut code, &mut ctx, &vec![ident("a")]),
        Err(LowerError::Exhausted)
    );
    ctx.stacksize = usize::MAX - 15;
    assert_eq!(gen_lval(&mut code, &mut ctx, &ident("x")), Ok(1));
    assert_eq!(ctx.stacksize, usize::MAX - 7);
}

#[test]
fn gen_stmt_appends_to_the_code_that_is_there() {
    let mut code = vec![IR::new(IROp::Nop, None, None)];
    let mut ctx = LoweringContext::new(4);
    ctx.regno = 10;
    assert_eq!(gen_stmt(&mut code, &mut ctx, &ret(num(2))), Ok(()));
    assert_eq!(
        code,
        vec![
            IR::new(IROp::Nop, None, None),
            ir(IROp::Imm, 10, 2),
            ir1(IROp::Return, 10),
            ir1(IROp::Kill, 10),
        ]
    );
    assert_eq!(ctx.regno, 11);
    assert_eq!(ctx.label, 4);
}

#[test]
fn gen_function_hands_on_the_next_free_label() {
    let node = func(
        "f",
        vec![],
        block(vec![
            if_else(num(1), ret(num(2)), Some(ret(num(3)))),
            if_else(num(4), ret(num(5)), None),
        ]),
    );
    let (f, next) = gen_function(&node, 10).unwrap();
    assert_eq!(next, 13);
    let labels: Vec<usize> = f
        .ir
        .iter()
        .filter(|i| i.op == IROp::Label)
        .map(|i| i.lhs.unwrap())
        .collect();
    assert_eq!(labels, vec![10, 11, 12]);
}

#[test]
fn a_failure_leaves_the_code_that_was_there() {
    let before = vec![IR::new(IROp::Nop, None, None), ir1(IROp::Label, 0)];
    let mut code = before.clone();
    let mut ctx = LoweringContext::new(1);
    // The first statement is lowered, the second has no lowering.
    let stmt = block(vec![ret(num(1)), num(2)]);
    assert_eq!(gen_stmt(&mut code, &mut ctx, &stmt), Err(LowerError::UnknownNode));
    assert!(code.len() >= before.len());
    assert_eq!(code[..before.len()], before[..]);
}
