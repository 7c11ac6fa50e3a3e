use irgen::ast::{Node, NodeType, TokenType};
use irgen::context::LoweringContext;
use irgen::ir::{gen_ir, Function, IROp, IR};
use irgen::emit::gen_stmt;

fn num(val: i32) -> Node {
    Node::new(NodeType::Num(val))
}

fn ident(name: &str) -> Node {
    Node::new(NodeType::Ident(name.to_string()))
}

fn binop(op: TokenType, lhs: Node, rhs: Node) -> Node {
    Node::new(NodeType::BinOp(op, Box::new(lhs), Box::new(rhs)))
}

fn ret(expr: Node) -> Node {
    Node::new(NodeType::Return(Box::new(expr)))
}

fn expr_stmt(expr: Node) -> Node {
    Node::new(NodeType::ExprStmt(Box::new(expr)))
}

fn block(stmts: Vec<Node>) -> Node {
    Node::new(NodeType::CompStmt(stmts))
}

fn if_else(cond: Node, then: Node, els: Option<Node>) -> Node {
    Node::new(NodeType::If(Box::new(cond), Box::new(then), els.map(Box::new)))
}

fn call(name: &str, args: Vec<Node>) -> Node {
    Node::new(NodeType::Call(name.to_string(), args))
}

fn func(name: &str, params: Vec<Node>, body: Node) -> Node {
    Node::new(NodeType::Func(name.to_string(), params, Box::new(body)))
}

/// A program with nested `if`s, calls, assignments and parameters.
fn sample() -> Vec<Function> {
    let fib = func(
        "fib",
        vec![ident("n")],
        block(vec![
            if_else(
                ident("n"),
                block(vec![
                    expr_stmt(binop(
                        TokenType::Equal,
                        ident("a"),
                        call("fib", vec![binop(TokenType::Minus, ident("n"), num(1))]),
                    )),
                    if_else(
                        ident("a"),
                        ret(binop(TokenType::Plus, ident("a"), ident("n"))),
                        None,
                    ),
                ]),
                Some(ret(num(1))),
            ),
            ret(num(0)),
        ]),
    );
    let main = func(
        "main",
        vec![],
        block(vec![
            expr_stmt(binop(TokenType::Equal, ident("x"), num(10))),
            if_else(
                binop(TokenType::Div, ident("x"), num(2)),
                if_else(num(1), expr_stmt(num(2)), Some(expr_stmt(num(3)))),
                Some(if_else(num(4), expr_stmt(num(5)), None)),
            ),
            ret(call(
                "fib",
                vec![ident("x"), call("g", vec![]), binop(TokenType::Mul, num(2), num(3))],
            )),
        ]),
    );
    let id = func("id", vec![ident("a"), ident("b"), ident("c")], block(vec![ret(ident("b"))]));
    gen_ir(vec![fib, main, id]).unwrap()
}

fn creates_a_register(ir: &IR) -> bool {
    matches!(ir.op, IROp::Imm | IROp::Mov | IROp::Call(_, _, _))
}

#[test]
fn registers_are_created_in_ascending_order_from_one() {
    for f in sample() {
        let created: Vec<usize> = f
            .ir
            .iter()
            .filter(|i| creates_a_register(i))
            .map(|i| i.lhs.unwrap())
            .collect();
        let expected: Vec<usize> = (1..=created.len()).collect();
        assert!(!created.is_empty());
        assert_eq!(created, expected);
    }
}

#[test]
fn every_kill_names_a_register_created_before_it() {
    for f in sample() {
        let mut kills = 0;
        for (j, ir) in f.ir.iter().enumerate() {
            if ir.op == IROp::Kill {
                kills += 1;
                assert!(f.ir[..j]
                    .iter()
                    .any(|d| creates_a_register(d) && d.lhs == ir.lhs));
            }
        }
        assert!(kills > 0);
    }
}

#[test]
fn every_register_is_killed_once_at_most() {
    for f in sample() {
        let mut killed: Vec<usize> = f
            .ir
            .iter()
            .filter(|i| i.op == IROp::Kill)
            .map(|i| i.lhs.unwrap())
            .collect();
        let all = killed.len();
        killed.sort();
        killed.dedup();
        assert_eq!(killed.len(), all);
    }
}

fn labels_of(code: &[IR]) -> Vec<usize> {
    code.iter()
        .filter(|i| i.op == IROp::Label)
        .map(|i| i.lhs.unwrap())
        .collect()
}

#[test]
fn an_if_without_else_takes_one_label() {
    let mut code = Vec::new();
    let mut ctx = LoweringContext::new(3);
    let stmt = if_else(ident("c"), expr_stmt(num(1)), None);
    assert_eq!(gen_stmt(&mut code, &mut ctx, &stmt), Ok(()));
    assert_eq!(ctx.label, 4);
    assert_eq!(labels_of(&code), vec![3]);
    assert_eq!(code.iter().filter(|i| i.op == IROp::Jmp).count(), 0);
}

#[test]
fn an_if_with_else_takes_two_labels() {
    let mut code = Vec::new();
    let mut ctx = LoweringContext::new(3);
    let stmt = if_else(ident("c"), expr_stmt(num(1)), Some(expr_stmt(num(2))));
    assert_eq!(gen_stmt(&mut code, &mut ctx, &stmt), Ok(()));
    assert_eq!(ctx.label, 5);
    assert_eq!(labels_of(&code), vec![3, 4]);
    assert_eq!(code.iter().filter(|i| i.op == IROp::Jmp).count(), 1);
}

#[test]
fn nested_ifs_take_the_labels_of_each() {
    // if (1) { if (2) 3; else 4; } else { if (5) 6; }: 2 + 2 + 1 labels.
    let mut code = Vec::new();
    let mut ctx = LoweringContext::new(0);
    let stmt = if_else(
        num(1),
        if_else(num(2), expr_stmt(num(3)), Some(expr_stmt(num(4)))),
        Some(if_else(num(5), expr_stmt(num(6)), None)),
    );
    assert_eq!(gen_stmt(&mut code, &mut ctx, &stmt), Ok(()));
    assert_eq!(ctx.label, 5);
    let mut labels = labels_of(&code);
    assert_eq!(labels, vec![1, 2, 0, 4, 3]);
    labels.sort();
    assert_eq!(labels, vec![0, 1, 2, 3, 4]);
}

#[test]
fn statements_without_if_take_no_label() {
    let mut code = Vec::new();
    let mut ctx = LoweringContext::new(9);
    let stmt = block(vec![
        expr_stmt(call("f", vec![num(1)])),
        ret(binop(TokenType::Plus, ident("x"), num(1))),
    ]);
    assert_eq!(gen_stmt(&mut code, &mut ctx, &stmt), Ok(()));
    assert_eq!(ctx.label, 9);
    assert_eq!(labels_of(&code), Vec::<usize>::new());
}

#[test]
fn the_frame_is_a_whole_number_of_slots() {
    let fns = sample();
    for f in &fns {
        assert_eq!(f.stacksize % 8, 0);
    }
    let sizes: Vec<usize> = fns.iter().map(|f| f.stacksize).collect();
    assert_eq!(sizes, vec![16, 8, 24]);
}

#[test]
fn no_label_is_defined_twice_in_the_program() {
    let fns = sample();
    let mut labels: Vec<usize> = fns.iter().flat_map(|f| labels_of(&f.ir)).collect();
    let all = labels.len();
    assert_eq!(all, 3 + 5);
    labels.sort();
    labels.dedup();
    assert_eq!(labels.len(), all);
    assert_eq!(labels, (0..all).collect::<Vec<usize>>());
}

#[test]
fn every_jump_goes_to_a_label_further_on() {
    for f in sample() {
        for (i, ir) in f.ir.iter().enumerate() {
            let target = match ir.op {
                IROp::Unless => ir.rhs,
                IROp::Jmp => ir.lhs,
                _ => continue,
            };
            assert!(target.is_some());
            assert!(f.ir[i + 1..]
                .iter()
                .any(|l| l.op == IROp::Label && l.lhs == target));
        }
    }
}

#[test]
fn every_lowered_instruction_has_its_operands() {
    for f in sample() {
        assert!(f.is_well_formed());
        for ir in &f.ir {
            assert!(ir.is_well_formed());
            assert!(!ir.to_string().is_empty());
        }
    }
}
