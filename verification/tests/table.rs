use irgen::ast::{Node, NodeType, TokenType};
use irgen::error::LowerError;
use irgen::ir::{get_irinfo, Function, IRInfo, IROp, IRType, IR, MAX_CALL_ARGS};

fn row(op: IROp) -> (String, IRType) {
    let info = get_irinfo(&IR::new(op.clone(), Some(1), Some(2)));
    assert_eq!(info.op, op);
    (info.name.to_string(), info.ty)
}

#[test]
fn the_opcode_table() {
    assert_eq!(row(IROp::Add), ("ADD".to_string(), IRType::RegReg));
    assert_eq!(row(IROp::Sub), ("SUB".to_string(), IRType::RegReg));
    assert_eq!(row(IROp::Mul), ("MUL".to_string(), IRType::RegReg));
    assert_eq!(row(IROp::Div), ("DIV".to_string(), IRType::RegReg));
    assert_eq!(row(IROp::Imm), ("MOV".to_string(), IRType::RegImm));
    assert_eq!(row(IROp::SubImm), ("SUB".to_string(), IRType::RegImm));
    assert_eq!(row(IROp::Mov), ("MOV".to_string(), IRType::RegReg));
    assert_eq!(row(IROp::Label), ("".to_string(), IRType::Label));
    assert_eq!(row(IROp::Jmp), ("".to_string(), IRType::Label));
    assert_eq!(row(IROp::Unless), ("UNLESS".to_string(), IRType::RegLabel));
    assert_eq!(row(IROp::Return), ("RET".to_string(), IRType::Reg));
    assert_eq!(row(IROp::Load), ("LOAD".to_string(), IRType::RegReg));
    assert_eq!(row(IROp::Store), ("STORE".to_string(), IRType::RegReg));
    assert_eq!(row(IROp::Kill), ("KILL".to_string(), IRType::Reg));
    assert_eq!(row(IROp::SaveArgs), ("SAVE_ARGS".to_string(), IRType::Imm));
    assert_eq!(row(IROp::Nop), ("NOP".to_string(), IRType::Noarg));
}

#[test]
fn the_row_of_a_call_carries_the_call() {
    let op = IROp::Call("fib".to_string(), 2, [4, 5, 0, 0, 0, 0]);
    let info = get_irinfo(&IR::new(op.clone(), Some(6), None));
    assert_eq!(info.op, op);
    assert_eq!(info.name, "CALL");
    assert_eq!(info.ty, IRType::Call);
}

#[test]
fn the_row_does_not_depend_on_the_operands() {
    let with = get_irinfo(&IR::new(IROp::Kill, Some(9), Some(9)));
    let without = get_irinfo(&IR::new(IROp::Kill, None, None));
    assert_eq!(with.name, without.name);
    assert_eq!(with.ty, without.ty);
    assert_eq!(with.op, without.op);
}

#[test]
fn constructors_keep_their_arguments() {
    let info = IRInfo::new(IROp::Load, "LOAD", IRType::RegReg);
    assert_eq!(info.op, IROp::Load);
    assert_eq!(info.name, "LOAD");
    assert_eq!(info.ty, IRType::RegReg);

    let ir = IR::new(IROp::Store, Some(3), Some(4));
    assert_eq!(ir.op, IROp::Store);
    assert_eq!(ir.lhs, Some(3));
    assert_eq!(ir.rhs, Some(4));

    let f = Function::new("main".to_string(), vec![ir.clone()], 24);
    assert_eq!(f.name, "main");
    assert_eq!(f.ir, vec![ir]);
    assert_eq!(f.stacksize, 24);

    let node = Node::new(NodeType::Num(5));
    assert_eq!(node.ty, NodeType::Num(5));
}

#[test]
fn cloning_an_opcode_keeps_it() {
    let call = IROp::Call("f".to_string(), 1, [7, 0, 0, 0, 0, 0]);
    assert_eq!(call.clone(), call);
    for op in [
        IROp::Imm,
        IROp::Mov,
        IROp::Add,
        IROp::SubImm,
        IROp::Sub,
        IROp::Mul,
        IROp::Div,
        IROp::Return,
        IROp::Label,
        IROp::Jmp,
        IROp::Unless,
        IROp::Load,
        IROp::Store,
        IROp::Kill,
        IROp::SaveArgs,
        IROp::Nop,
    ] {
        assert_eq!(op.clone(), op);
    }
}

#[test]
fn opcodes_of_operator_tokens() {
    assert_eq!(IROp::from_token(TokenType::Plus), Some(IROp::Add));
    assert_eq!(IROp::from_token(TokenType::Minus), Some(IROp::Sub));
    assert_eq!(IROp::from_token(TokenType::Mul), Some(IROp::Mul));
    assert_eq!(IROp::from_token(TokenType::Div), Some(IROp::Div));
    for token in [
        TokenType::Num,
        TokenType::Ident,
        TokenType::If,
        TokenType::Else,
        TokenType::Return,
        TokenType::Equal,
        TokenType::LeftParen,
        TokenType::RightParen,
        TokenType::LeftBrace,
        TokenType::RightBrace,
        TokenType::Comma,
        TokenType::Semicolon,
    ] {
        assert_eq!(IROp::from_token(token), None);
    }
}

#[test]
fn opcodes_of_nodes() {
    let one = || Box::new(Node::new(NodeType::Num(1)));
    assert_eq!(
        IROp::from_node(&NodeType::BinOp(TokenType::Mul, one(), one())),
        Some(IROp::Mul)
    );
    assert_eq!(
        IROp::from_node(&NodeType::BinOp(TokenType::Equal, one(), one())),
        None
    );
    assert_eq!(IROp::from_node(&NodeType::Num(1)), None);
    assert_eq!(IROp::from_node(&NodeType::Return(one())), None);
}

#[test]
fn messages_of_the_errors() {
    assert_eq!(LowerError::NotAFunction.message(), "parse error.");
    assert_eq!(LowerError::NotAnLvalue.message(), "not an lvalue");
    assert_eq!(LowerError::UnknownNode.message(), "unknown node");
    assert_eq!(LowerError::BadParameter.message(), "bad parameter");
    assert_eq!(LowerError::TooManyArguments.message(), "too many arguments");
    assert_eq!(LowerError::Exhausted.message(), "counter overflow");
}

#[test]
fn a_call_carries_six_arguments_at_most() {
    assert_eq!(MAX_CALL_ARGS, 6);
}
