//! The intermediate code: instructions, their opcodes, and the table that
//! gives each opcode its mnemonic and the shape of its operands.

use vstd::prelude::*;
use crate::ast::{NodeType, TokenType};

pub use crate::emit::gen_ir;

verus! {

/// The most arguments a call instruction can carry.
pub const MAX_CALL_ARGS: usize = 6;

/// The shape of an instruction's operands.
#[derive(Clone, Copy, Debug, PartialEq, Eq, Structural)]
pub enum IRType {
    Noarg,
    Reg,
    Imm,
    Label,
    RegReg,
    RegImm,
    RegLabel,
    Call,
}

/// The opcode of an instruction. Only a call carries data of its own: the
/// callee's name, the number of arguments, and the argument registers.
#[derive(Debug, PartialEq)]
pub enum IROp {
    Imm,
    Mov,
    Add,
    SubImm,
    Sub,
    Mul,
    Div,
    Return,
    Call(String, usize, [usize; 6]),
    Label,
    Jmp,
    Unless,
    Load,
    Store,
    Kill,
    SaveArgs,
    Nop,
}

impl Clone for IROp {
    fn clone(&self) -> (res: Self)
        ensures
            res == *self,
    {
        match self {
            IROp::Imm => IROp::Imm,
            IROp::Mov => IROp::Mov,
            IROp::Add => IROp::Add,
            IROp::SubImm => IROp::SubImm,
            IROp::Sub => IROp::Sub,
            IROp::Mul => IROp::Mul,
            IROp::Div => IROp::Div,
            IROp::Return => IROp::Return,
            IROp::Call(name, nargs, args) => IROp::Call(name.clone(), *nargs, *args),
            IROp::Label => IROp::Label,
            IROp::Jmp => IROp::Jmp,
            IROp::Unless => IROp::Unless,
            IROp::Load => IROp::Load,
            IROp::Store => IROp::Store,
            IROp::Kill => IROp::Kill,
            IROp::SaveArgs => IROp::SaveArgs,
            IROp::Nop => IROp::Nop,
        }
    }
}

impl IROp {
    /// The arithmetic opcode that an operator token stands for, if it
    /// stands for one.
    pub open spec fn of_token(token: TokenType) -> Option<IROp> {
        match token {
            TokenType::Plus => Some(IROp::Add),
            TokenType::Minus => Some(IROp::Sub),
            TokenType::Mul => Some(IROp::Mul),
            TokenType::Div => Some(IROp::Div),
            _ => None,
        }
    }

    /// The arithmetic opcode of a binary operation, if the node is one and
    /// its operator stands for one.
    pub open spec fn of_node(node_type: NodeType) -> Option<IROp> {
        match node_type {
            NodeType::BinOp(op, _, _) => IROp::of_token(op),
            _ => None,
        }
    }

    /// The arithmetic opcode that an operator token stands for: `None` for
    /// every token but `Plus`, `Minus`, `Mul` and `Div`.
    pub fn from_token(token_type: TokenType) -> (op: Option<IROp>)
        ensures
            op == IROp::of_token(token_type),
    {
        match token_type {
            TokenType::Plus => Some(IROp::Add),
            TokenType::Minus => Some(IROp::Sub),
            TokenType::Mul => Some(IROp::Mul),
            TokenType::Div => Some(IROp::Div),
            _ => None,
        }
    }

    /// The arithmetic opcode of a binary operation: `None` for every node
    /// but a binary operation with an arithmetic operator.
    pub fn from_node(node_type: &NodeType) -> (op: Option<IROp>)
        ensures
            op == IROp::of_node(*node_type),
    {
        match node_type {
            NodeType::BinOp(op, _, _) => IROp::from_token(*op),
            _ => None,
        }
    }

    /// The mnemonic of the opcode. `Label` and `Jmp` have none.
    pub open spec fn mnemonic(self) -> Seq<char> {
        match self {
            IROp::Add => "ADD"@,
            IROp::Sub => "SUB"@,
            IROp::Mul => "MUL"@,
            IROp::Div => "DIV"@,
            IROp::Imm => "MOV"@,
            IROp::SubImm => "SUB"@,
            IROp::Mov => "MOV"@,
            IROp::Label => ""@,
            IROp::Jmp => ""@,
            IROp::Unless => "UNLESS"@,
            IROp::Call(_, _, _) => "CALL"@,
            IROp::Return => "RET"@,
            IROp::Load => "LOAD"@,
            IROp::Store => "STORE"@,
            IROp::Kill => "KILL"@,
            IROp::SaveArgs => "SAVE_ARGS"@,
            IROp::Nop => "NOP"@,
        }
    }

    /// The shape of the operands that go with the opcode.
    pub open spec fn shape(self) -> IRType {
        match self {
            IROp::Add | IROp::Sub | IROp::Mul | IROp::Div => IRType::RegReg,
            IROp::Mov | IROp::Load | IROp::Store => IRType::RegReg,
            IROp::Imm | IROp::SubImm => IRType::RegImm,
            IROp::Label | IROp::Jmp => IRType::Label,
            IROp::Unless => IRType::RegLabel,
            IROp::Call(_, _, _) => IRType::Call,
            IROp::Return | IROp::Kill => IRType::Reg,
            IROp::SaveArgs => IRType::Imm,
            IROp::Nop => IRType::Noarg,
        }
    }
}

/// One row of the opcode table: an opcode, its mnemonic, its operand shape.
#[derive(Clone, Debug)]
pub struct IRInfo {
    /// The opcode.
    pub op: IROp,
    /// Its mnemonic.
    pub name: &'static str,
    /// The shape of its operands.
    pub ty: IRType,
}

impl IRInfo {
    /// A row of the opcode table.
    pub fn new(op: IROp, name: &'static str, ty: IRType) -> (info: Self)
        ensures
            info.op == op,
            info.name == name,
            info.ty == ty,
    {
        IRInfo { op: op, name: name, ty: ty }
    }
}

/// One instruction: an opcode and up to two operands. What an operand means
/// (a register, an immediate, a label) follows from the opcode's shape.
#[derive(Debug, Clone, PartialEq)]
pub struct IR {
    /// The opcode.
    pub op: IROp,
    /// The first operand.
    pub lhs: Option<usize>,
    /// The second operand.
    pub rhs: Option<usize>,
}

impl IR {
    /// Whether the instruction has the operands that its opcode asks for: a
    /// first operand unless the opcode takes none, a second one where the
    /// shape has two, and for a call no more arguments than it can carry.
    pub open spec fn well_formed(self) -> bool {
        match self.op.shape() {
            IRType::Noarg => true,
            IRType::Reg | IRType::Imm | IRType::Label => self.lhs is Some,
            IRType::RegReg | IRType::RegImm | IRType::RegLabel => self.lhs is Some && self.rhs
                is Some,
            IRType::Call => self.lhs is Some && self.op->Call_1 <= MAX_CALL_ARGS,
        }
    }

    /// An instruction.
    pub fn new(op: IROp, lhs: Option<usize>, rhs: Option<usize>) -> (ir: Self)
        ensures
            ir.op == op,
            ir.lhs == lhs,
            ir.rhs == rhs,
    {
        IR { op: op, lhs: lhs, rhs: rhs }
    }
}

/// The instruction with opcode `op` and operands `lhs` and `rhs`.
pub open spec fn ir2(op: IROp, lhs: usize, rhs: usize) -> IR {
    IR { op: op, lhs: Some(lhs), rhs: Some(rhs) }
}

/// The instruction with opcode `op` and the single operand `lhs`.
pub open spec fn ir1(op: IROp, lhs: usize) -> IR {
    IR { op: op, lhs: Some(lhs), rhs: None }
}

/// The table row of an instruction's opcode. The lookup depends on the
/// opcode's tag alone; for a call the row carries the call's own data.
pub fn get_irinfo(ir: &IR) -> (info: IRInfo)
    ensures
        info.op == ir.op,
        info.name@ == ir.op.mnemonic(),
        info.ty == ir.op.shape(),
{
    let op = ir.op.clone();
    match &ir.op {
        IROp::Add => IRInfo::new(op, "ADD", IRType::RegReg),
        IROp::Sub => IRInfo::new(op, "SUB", IRType::RegReg),
        IROp::Mul => IRInfo::new(op, "MUL", IRType::RegReg),
        IROp::Div => IRInfo::new(op, "DIV", IRType::RegReg),
        IROp::Imm => IRInfo::new(op, "MOV", IRType::RegImm),
        IROp::SubImm => IRInfo::new(op, "SUB", IRType::RegImm),
        IROp::Mov => IRInfo::new(op, "MOV", IRType::RegReg),
        IROp::Label => IRInfo::new(op, "", IRType::Label),
        IROp::Jmp => IRInfo::new(op, "", IRType::Label),
        IROp::Unless => IRInfo::new(op, "UNLESS", IRType::RegLabel),
        IROp::Call(_, _, _) => IRInfo::new(op, "CALL", IRType::Call),
        IROp::Return => IRInfo::new(op, "RET", IRType::Reg),
        IROp::Load => IRInfo::new(op, "LOAD", IRType::RegReg),
        IROp::Store => IRInfo::new(op, "STORE", IRType::RegReg),
        IROp::Kill => IRInfo::new(op, "KILL", IRType::Reg),
        IROp::SaveArgs => IRInfo::new(op, "SAVE_ARGS", IRType::Imm),
        IROp::Nop => IRInfo::new(op, "NOP", IRType::Noarg),
    }
}

/// The code of one source function and the size of its stack frame.
#[derive(Clone, Debug, PartialEq)]
pub struct Function {
    /// The name of the function.
    pub name: String,
    /// Its instructions, in order.
    pub ir: Vec<IR>,
    /// The size of its stack frame, in bytes.
    pub stacksize: usize,
}

/// The mathematical model of a function: its name as a sequence of
/// characters, its code as a sequence of instructions, its frame size.
pub struct FunctionModel {
    pub name: Seq<char>,
    pub ir: Seq<IR>,
    pub stacksize: usize,
}

impl View for Function {
    type V = FunctionModel;

    open spec fn view(&self) -> FunctionModel {
        FunctionModel { name: self.name@, ir: self.ir@, stacksize: self.stacksize }
    }
}

/// The models of a list of functions, in order.
pub open spec fn models(fns: Seq<Function>) -> Seq<FunctionModel> {
    Seq::new(fns.len(), |i: int| fns[i]@)
}

impl Function {
    /// A function with the given name, code and frame size.
    pub fn new(name: String, ir: Vec<IR>, stacksize: usize) -> (f: Self)
        ensures
            f.name == name,
            f.ir == ir,
            f.stacksize == stacksize,
    {
        Function { name: name, ir: ir, stacksize: stacksize }
    }
}

} // verus!
