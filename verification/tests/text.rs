use irgen::ir::{get_irinfo, Function, IROp, IRType, IR};
use irgen::text::{decimal_string, dump_text};

fn ir(op: IROp, lhs: usize, rhs: usize) -> IR {
    IR::new(op, Some(lhs), Some(rhs))
}

fn ir1(op: IROp, lhs: usize) -> IR {
    IR::new(op, Some(lhs), None)
}

#[test]
fn decimal_numerals() {
    assert_eq!(decimal_string(0), "0");
    assert_eq!(decimal_string(7), "7");
    assert_eq!(decimal_string(9), "9");
    assert_eq!(decimal_string(10), "10");
    assert_eq!(decimal_string(99), "99");
    assert_eq!(decimal_string(100), "100");
    assert_eq!(decimal_string(1234567890), "1234567890");
    assert_eq!(decimal_string(usize::MAX), usize::MAX.to_string());
}

#[test]
fn text_of_a_label_and_of_a_jump() {
    assert_eq!(ir1(IROp::Label, 3).to_string(), ".L3=>");
    assert_eq!(ir1(IROp::Jmp, 3).to_string(), ".L3=>");
    assert_eq!(ir1(IROp::Label, 0).to_string(), ".L0=>");
}

#[test]
fn text_without_operands() {
    assert_eq!(IR::new(IROp::Nop, None, None).to_string(), "NOP");
    assert_eq!(ir(IROp::Nop, 1, 2).to_string(), "NOP");
}

#[test]
fn text_with_one_immediate() {
    assert_eq!(ir1(IROp::SaveArgs, 2).to_string(), "SAVE_ARGS 2");
}

#[test]
fn text_with_one_register() {
    assert_eq!(ir1(IROp::Return, 1).to_string(), "RET r1");
    assert_eq!(ir1(IROp::Kill, 12).to_string(), "KILL r12");
}

#[test]
fn text_with_two_registers() {
    assert_eq!(ir(IROp::Add, 1, 2).to_string(), "ADD r1, r2");
    assert_eq!(ir(IROp::Sub, 3, 4).to_string(), "SUB r3, r4");
    assert_eq!(ir(IROp::Mul, 5, 6).to_string(), "MUL r5, r6");
    assert_eq!(ir(IROp::Div, 7, 8).to_string(), "DIV r7, r8");
    assert_eq!(ir(IROp::Mov, 1, 0).to_string(), "MOV r1, r0");
    assert_eq!(ir(IROp::Load, 9, 9).to_string(), "LOAD r9, r9");
    assert_eq!(ir(IROp::Store, 10, 11).to_string(), "STORE r10, r11");
}

#[test]
fn text_with_a_register_and_an_immediate() {
    assert_eq!(ir(IROp::Imm, 1, 42).to_string(), "MOV r1, 42");
    assert_eq!(ir(IROp::SubImm, 1, 8).to_string(), "SUB r1, 8");
    assert_eq!(ir(IROp::SubImm, 1, 0).to_string(), "SUB r1, 0");
}

#[test]
fn text_with_a_register_and_a_label() {
    assert_eq!(ir(IROp::Unless, 1, 0).to_string(), "UNLESS r1, .L0");
    assert_eq!(ir(IROp::Unless, 21, 13).to_string(), "UNLESS r21, .L13");
}

#[test]
fn text_of_a_call() {
    let call = ir1(IROp::Call("f".to_string(), 2, [1, 2, 0, 0, 0, 0]), 3);
    assert_eq!(call.to_string(), ", r3 = f(, r1, r2)");
    let call = ir1(IROp::Call("main".to_string(), 0, [0; 6]), 1);
    assert_eq!(call.to_string(), ", r1 = main()");
    let call = ir1(IROp::Call("g".to_string(), 6, [10, 20, 30, 40, 50, 60]), 61);
    assert_eq!(call.to_string(), ", r61 = g(, r10, r20, r30, r40, r50, r60)");
    // Only the first `nargs` entries of the array are arguments.
    let call = ir1(IROp::Call("h".to_string(), 1, [5, 6, 7, 8, 9, 10]), 11);
    assert_eq!(call.to_string(), ", r11 = h(, r5)");
}

#[test]
fn which_instructions_have_their_operands() {
    assert!(IR::new(IROp::Nop, None, None).is_well_formed());
    assert!(ir1(IROp::Kill, 1).is_well_formed());
    assert!(!IR::new(IROp::Kill, None, None).is_well_formed());
    assert!(!IR::new(IROp::Kill, None, Some(1)).is_well_formed());
    assert!(ir1(IROp::Label, 1).is_well_formed());
    assert!(!IR::new(IROp::Jmp, None, None).is_well_formed());
    assert!(ir1(IROp::SaveArgs, 1).is_well_formed());
    assert!(!IR::new(IROp::SaveArgs, None, None).is_well_formed());
    assert!(ir(IROp::Add, 1, 2).is_well_formed());
    assert!(!ir1(IROp::Add, 1).is_well_formed());
    assert!(!IR::new(IROp::Add, None, Some(2)).is_well_formed());
    assert!(ir(IROp::Imm, 1, 2).is_well_formed());
    assert!(!ir1(IROp::SubImm, 1).is_well_formed());
    assert!(ir(IROp::Unless, 1, 2).is_well_formed());
    assert!(!ir1(IROp::Unless, 1).is_well_formed());
    assert!(ir1(IROp::Call("f".to_string(), 6, [0; 6]), 1).is_well_formed());
    assert!(!ir1(IROp::Call("f".to_string(), 7, [0; 6]), 1).is_well_formed());
    assert!(!IR::new(IROp::Call("f".to_string(), 0, [0; 6]), None, None).is_well_formed());
}

#[test]
fn which_functions_have_their_operands() {
    let good = Function::new("f".to_string(), vec![ir1(IROp::Kill, 1)], 0);
    assert!(good.is_well_formed());
    let empty = Function::new("f".to_string(), vec![], 0);
    assert!(empty.is_well_formed());
    let bad = Function::new(
        "f".to_string(),
        vec![ir1(IROp::Kill, 1), IR::new(IROp::Return, None, None)],
        0,
    );
    assert!(!bad.is_well_formed());
}

#[test]
fn listing_of_a_function() {
    let f = Function::new(
        "main".to_string(),
        vec![
            ir(IROp::Imm, 1, 1),
            ir1(IROp::Call("f".to_string(), 1, [1, 0, 0, 0, 0, 0]), 2),
            ir1(IROp::Kill, 1),
            ir1(IROp::Return, 2),
            ir1(IROp::Kill, 2),
        ],
        0,
    );
    assert_eq!(
        f.to_string(),
        "main(): \n  MOV r1, 1\n  , r2 = f(, r1)\n  KILL r1\n  RET r2\n  KILL r2\n"
    );
    assert_eq!(Function::new("e".to_string(), vec![], 0).to_string(), "e(): \n");
}

#[test]
fn listing_of_a_program() {
    let f = Function::new("f".to_string(), vec![ir1(IROp::Label, 0)], 0);
    let g = Function::new(
        "g".to_string(),
        vec![ir(IROp::Unless, 1, 1), IR::new(IROp::Nop, None, None)],
        8,
    );
    assert_eq!(
        dump_text(&vec![f, g]),
        "f(): \n  .L0=>\ng(): \n  UNLESS r1, .L1\n  NOP\n"
    );
    assert_eq!(dump_text(&vec![]), "");
}

/// The row of the opcode table that a text belongs to, read off the text
/// alone: the mnemonic and the shape of the operands.
fn row_of_text(text: &str) -> (String, IRType) {
    if text.starts_with(".L") {
        return (String::new(), IRType::Label);
    }
    if text.starts_with(", r") {
        return ("CALL".to_string(), IRType::Call);
    }
    let mut words = text.splitn(2, ' ');
    let name = words.next().unwrap().to_string();
    let shape = match words.next() {
        None => IRType::Noarg,
        Some(operands) => match operands.split_once(", ") {
            None if operands.starts_with('r') => IRType::Reg,
            None => IRType::Imm,
            Some((_, second)) if second.starts_with(".L") => IRType::RegLabel,
            Some((_, second)) if second.starts_with('r') => IRType::RegReg,
            Some(_) => IRType::RegImm,
        },
    };
    (name, shape)
}

#[test]
fn the_text_tells_the_row_of_the_table() {
    let ops = vec![
        IROp::Imm,
        IROp::Mov,
        IROp::Add,
        IROp::SubImm,
        IROp::Sub,
        IROp::Mul,
        IROp::Div,
        IROp::Return,
        IROp::Call("SUB".to_string(), 3, [1, 2, 3, 0, 0, 0]),
        IROp::Label,
        IROp::Jmp,
        IROp::Unless,
        IROp::Load,
        IROp::Store,
        IROp::Kill,
        IROp::SaveArgs,
        IROp::Nop,
    ];
    for op in &ops {
        for (lhs, rhs) in [(0, 0), (1, 2), (10, 7), (345, 12345)] {
            let instr = ir(op.clone(), lhs, rhs);
            let info = get_irinfo(&instr);
            assert_eq!(
                row_of_text(&instr.to_string()),
                (info.name.to_string(), info.ty)
            );
        }
    }
    // Texts of different rows differ, whatever the operands.
    for a in &ops {
        for b in &ops {
            let (ia, ib) = (ir(a.clone(), 1, 11), ir(b.clone(), 11, 1));
            let (ra, rb) = (get_irinfo(&ia), get_irinfo(&ib));
            if ra.name != rb.name || ra.ty != rb.ty {
                assert_ne!(ia.to_string(), ib.to_string());
            }
        }
    }
}
