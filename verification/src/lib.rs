//! Lowering of the syntax tree of a small C-like language to a linear
//! intermediate code over an unbounded supply of virtual registers.
//!
//! Register 0 always stands for the frame base pointer; every other register
//! is numbered by the order in which the lowering of one function creates it.
//! Labels are numbered through the whole program.
//!
//! - [`ast`]: the syntax tree that is lowered.
//! - [`ir`]: instructions, opcodes, the opcode table, functions.
//! - [`context`]: the counters and the symbol table of one function.
//! - [`lower`]: what each construct lowers to, as spec functions.
//! - [`emit`]: the lowering pass itself; [`gen_ir`] is its entry point.
//! - [`validity`]: which trees have a lowering, and when lowering succeeds.
//! - [`invariants`] and [`guarantees`]: what holds of all lowered code.
//! - [`text`]: the textual rendering of the code.
//! - [`error`]: the ways in which lowering fails.

pub mod ast;
pub mod context;
pub mod emit;
pub mod error;
pub mod guarantees;
pub mod invariants;
pub mod ir;
pub mod lower;
pub mod text;
pub mod validity;

pub use crate::ast::{Node, NodeType, TokenType};
pub use crate::context::LoweringContext;
pub use crate::emit::gen_ir;
pub use crate::error::LowerError;
pub use crate::ir::{get_irinfo, Function, IRInfo, IROp, IRType, IR};
pub use crate::text::dump_text;
