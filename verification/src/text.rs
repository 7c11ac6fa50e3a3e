//! The textual rendering of the intermediate code.

use vstd::prelude::*;
use vstd::string::*;
use crate::invariants::all_well_formed;
use crate::ir::{get_irinfo, Function, IR, IROp, IRType, MAX_CALL_ARGS};

verus! {

/// The character of the decimal digit `d`.
pub open spec fn digit_char(d: nat) -> char {
    if d == 0 {
        '0'
    } else if d == 1 {
        '1'
    } else if d == 2 {
        '2'
    } else if d == 3 {
        '3'
    } else if d == 4 {
        '4'
    } else if d == 5 {
        '5'
    } else if d == 6 {
        '6'
    } else if d == 7 {
        '7'
    } else if d == 8 {
        '8'
    } else {
        '9'
    }
}

/// The decimal numeral of `n`, without leading zeros.
pub open spec fn decimal(n: nat) -> Seq<char>
    decreases n,
{
    if n < 10 {
        seq![digit_char(n)]
    } else {
        decimal(n / 10).push(digit_char(n % 10))
    }
}

/// The numeral of one decimal digit.
fn digit_str(d: usize) -> (s: &'static str)
    requires
        d < 10,
    ensures
        s@ == seq![digit_char(d as nat)],
{
    proof {
        reveal_strlit("0");
        reveal_strlit("1");
        reveal_strlit("2");
        reveal_strlit("3");
        reveal_strlit("4");
        reveal_strlit("5");
        reveal_strlit("6");
        reveal_strlit("7");
        reveal_strlit("8");
        reveal_strlit("9");
    }
    let s = if d == 0 {
        "0"
    } else if d == 1 {
        "1"
    } else if d == 2 {
        "2"
    } else if d == 3 {
        "3"
    } else if d == 4 {
        "4"
    } else if d == 5 {
        "5"
    } else if d == 6 {
        "6"
    } else if d == 7 {
        "7"
    } else if d == 8 {
        "8"
    } else {
        "9"
    };
    assert(s@ =~= seq![digit_char(d as nat)]);
    s
}

/// The decimal numeral of `n`, without leading zeros.
pub fn decimal_string(n: usize) -> (s: String)
    ensures
        s@ == decimal(n as nat),
    decreases n,
{
    if n < 10 {
        String::from_str(digit_str(n))
    } else {
        let mut s = decimal_string(n / 10);
        s.append(digit_str(n % 10));
        assert(s@ =~= decimal(n as nat));
        s
    }
}

/// The text of the first `n` argument registers of a call: each is written
/// as `, r` and its number.
pub open spec fn args_text(args: Seq<usize>, n: nat) -> Seq<char>
    decreases n,
{
    if n == 0 || n > args.len() {
        Seq::empty()
    } else {
        args_text(args, (n - 1) as nat) + ", r"@ + decimal(args[n - 1] as nat)
    }
}

impl IR {
    /// The text of the instruction. What it shows of the operands follows
    /// the shape of the opcode; a label and a jump are written alike.
    pub open spec fn text(self) -> Seq<char> {
        let name = self.op.mnemonic();
        let lhs = decimal(self.lhs->0 as nat);
        let rhs = decimal(self.rhs->0 as nat);
        match self.op.shape() {
            IRType::Label => ".L"@ + lhs + "=>"@,
            IRType::Imm => name + " "@ + lhs,
            IRType::Reg => name + " r"@ + lhs,
            IRType::RegReg => name + " r"@ + lhs + ", r"@ + rhs,
            IRType::RegImm => name + " r"@ + lhs + ", "@ + rhs,
            IRType::RegLabel => name + " r"@ + lhs + ", .L"@ + rhs,
            IRType::Call => ", r"@ + lhs + " = "@ + self.op->Call_0@ + "("@ + args_text(
                self.op->Call_2@,
                self.op->Call_1 as nat,
            ) + ")"@,
            IRType::Noarg => name,
        }
    }

    /// Whether the instruction has the operands that its opcode asks for.
    pub fn is_well_formed(&self) -> (b: bool)
        ensures
            b == self.well_formed(),
    {
        match get_irinfo(self).ty {
            IRType::Noarg => true,
            IRType::Reg | IRType::Imm | IRType::Label => self.lhs.is_some(),
            IRType::RegReg | IRType::RegImm | IRType::RegLabel => self.lhs.is_some()
                && self.rhs.is_some(),
            IRType::Call => match &self.op {
                IROp::Call(_, nargs, _) => self.lhs.is_some() && *nargs <= MAX_CALL_ARGS,
                _ => false,
            },
        }
    }

    /// The text of the instruction.
    pub fn to_string(&self) -> (s: String)
        requires
            self.well_formed(),
        ensures
            s@ == self.text(),
    {
        let info = get_irinfo(self);
        match &self.op {
            IROp::Call(name, nargs, args) => {
                let mut s = String::from_str(", r");
                s.append(decimal_string(self.lhs.unwrap()).as_str());
                s.append(" = ");
                s.append(name.as_str());
                s.append("(");
                let ghost head = s@;
                let mut i: usize = 0;
                while i < *nargs
                    invariant
                        i <= *nargs <= MAX_CALL_ARGS,
                        s@ == head + args_text(args@, i as nat),
                    decreases *nargs - i,
                {
                    s.append(", r");
                    s.append(decimal_string(args[i]).as_str());
                    i = i + 1;
                }
                s.append(")");
                s
            },
            _ => {
                match info.ty {
                    IRType::Label => {
                        let mut s = String::from_str(".L");
                        s.append(decimal_string(self.lhs.unwrap()).as_str());
                        s.append("=>");
                        s
                    },
                    IRType::Imm => {
                        let mut s = String::from_str(info.name);
                        s.append(" ");
                        s.append(decimal_string(self.lhs.unwrap()).as_str());
                        s
                    },
                    IRType::Reg => {
                        let mut s = String::from_str(info.name);
                        s.append(" r");
                        s.append(decimal_string(self.lhs.unwrap()).as_str());
                        s
                    },
                    IRType::RegReg => {
                        let mut s = String::from_str(info.name);
                        s.append(" r");
                        s.append(decimal_string(self.lhs.unwrap()).as_str());
                        s.append(", r");
                        s.append(decimal_string(self.rhs.unwrap()).as_str());
                        s
                    },
                    IRType::RegImm => {
                        let mut s = String::from_str(info.name);
                        s.append(" r");
                        s.append(decimal_string(self.lhs.unwrap()).as_str());
                        s.append(", ");
                        s.append(decimal_string(self.rhs.unwrap()).as_str());
                        s
                    },
                    IRType::RegLabel => {
                        let mut s = String::from_str(info.name);
                        s.append(" r");
                        s.append(decimal_string(self.lhs.unwrap()).as_str());
                        s.append(", .L");
                        s.append(decimal_string(self.rhs.unwrap()).as_str());
                        s
                    },
                    // Only a call has the shape of a call, so what is left
                    // here is an opcode without operands.
                    _ => String::from_str(info.name),
                }
            },
        }
    }
}

/// The listing of the first `n` instructions of `code`: each on a line of
/// its own, indented by two spaces.
pub open spec fn code_listing(code: Seq<IR>, n: nat) -> Seq<char>
    decreases n,
{
    if n == 0 || n > code.len() {
        Seq::empty()
    } else {
        code_listing(code, (n - 1) as nat) + "  "@ + code[n - 1].text() + "\n"@
    }
}

impl Function {
    /// Whether every instruction of the function has the operands that its
    /// opcode asks for.
    pub open spec fn well_formed(self) -> bool {
        all_well_formed(self.ir@)
    }

    /// The listing of the function: a line with its name, then its
    /// instructions.
    pub open spec fn listing(self) -> Seq<char> {
        self.name@ + "(): \n"@ + code_listing(self.ir@, self.ir.len() as nat)
    }

    /// Whether every instruction of the function has the operands that its
    /// opcode asks for.
    pub fn is_well_formed(&self) -> (b: bool)
        ensures
            b == self.well_formed(),
    {
        let mut i: usize = 0;
        while i < self.ir.len()
            invariant
                i <= self.ir.len(),
                forall|k: int| 0 <= k < i ==> (#[trigger] self.ir[k]).well_formed(),
            decreases self.ir.len() - i,
        {
            if !self.ir[i].is_well_formed() {
                return false;
            }
            i = i + 1;
        }
        true
    }

    /// The listing of the function.
    pub fn to_string(&self) -> (s: String)
        requires
            self.well_formed(),
        ensures
            s@ == self.listing(),
    {
        let mut s = self.name.clone();
        s.append("(): \n");
        let ghost head = s@;
        let mut i: usize = 0;
        while i < self.ir.len()
            invariant
                i <= self.ir.len(),
                self.well_formed(),
                s@ == head + code_listing(self.ir@, i as nat),
            decreases self.ir.len() - i,
        {
            s.append("  ");
            s.append(self.ir[i].to_string().as_str());
            s.append("\n");
            i = i + 1;
        }
        s
    }
}

/// The listings of the first `n` functions of `fns`, one after the other.
pub open spec fn listings(fns: Seq<Function>, n: nat) -> Seq<char>
    decreases n,
{
    if n == 0 || n > fns.len() {
        Seq::empty()
    } else {
        listings(fns, (n - 1) as nat) + fns[n - 1].listing()
    }
}

/// The listing of a program: the listings of its functions, in order.
pub fn dump_text(fns: &Vec<Function>) -> (s: String)
    requires
        forall|k: int| 0 <= k < fns.len() ==> (#[trigger] fns[k]).well_formed(),
    ensures
        s@ == listings(fns@, fns.len() as nat),
{
    let mut s = String::new();
    let mut i: usize = 0;
    while i < fns.len()
        invariant
            i <= fns.len(),
            forall|k: int| 0 <= k < fns.len() ==> (#[trigger] fns[k]).well_formed(),
            s@ == listings(fns@, i as nat),
        decreases fns.len() - i,
    {
        s.append(fns[i].to_string().as_str());
        i = i + 1;
    }
    s
}

/// Whether the character is a decimal digit.
pub open spec fn is_digit(c: char) -> bool {
    c == '0' || c == '1' || c == '2' || c == '3' || c == '4' || c == '5' || c == '6' || c == '7'
        || c == '8' || c == '9'
}

/// A decimal numeral is not empty and holds digits only.
pub proof fn lemma_decimal_digits(n: nat)
    ensures
        decimal(n).len() >= 1,
        forall|i: int| 0 <= i < decimal(n).len() ==> is_digit(#[trigger] decimal(n)[i]),
    decreases n,
{
    if n >= 10 {
        lemma_decimal_digits(n / 10);
    }
}

/// Where two texts are equal that hold a numeral after the same opening,
/// each followed by something that starts with no digit, the numerals are
/// equally long and what follows them is equal.
pub proof fn lemma_numeral_ends(
    open: Seq<char>,
    n1: nat,
    rest1: Seq<char>,
    n2: nat,
    rest2: Seq<char>,
)
    requires
        open + decimal(n1) + rest1 == open + decimal(n2) + rest2,
        rest1.len() > 0,
        rest2.len() > 0,
        !is_digit(rest1[0]),
        !is_digit(rest2[0]),
    ensures
        decimal(n1) == decimal(n2),
        rest1 == rest2,
{
    let d1 = decimal(n1);
    let d2 = decimal(n2);
    let t1 = open + d1 + rest1;
    let t2 = open + d2 + rest2;
    lemma_decimal_digits(n1);
    lemma_decimal_digits(n2);
    if d1.len() < d2.len() {
        let k = (open.len() + d1.len()) as int;
        assert(t1[k] == rest1[0]);
        assert(t2[k] == d2[d1.len() as int]);
    }
    if d2.len() < d1.len() {
        let k = (open.len() + d2.len()) as int;
        assert(t2[k] == rest2[0]);
        assert(t1[k] == d1[d2.len() as int]);
    }
    assert(t1.len() == t2.len());
    assert forall|i: int| 0 <= i < d1.len() implies d1[i] == d2[i] by {
        assert(t1[open.len() + i] == d1[i]);
        assert(t2[open.len() + i] == d2[i]);
    }
    assert(d1 =~= d2);
    assert forall|i: int| 0 <= i < rest1.len() implies rest1[i] == rest2[i] by {
        assert(t1[open.len() + d1.len() + i] == rest1[i]);
        assert(t2[open.len() + d2.len() + i] == rest2[i]);
    }
    assert(rest1 =~= rest2);
}

/// The first two characters of the text of an instruction with opcode `op`.
pub open spec fn lead(op: IROp) -> (char, char) {
    match op {
        IROp::Add => ('A', 'D'),
        IROp::Sub | IROp::SubImm => ('S', 'U'),
        IROp::Mul => ('M', 'U'),
        IROp::Div => ('D', 'I'),
        IROp::Imm | IROp::Mov => ('M', 'O'),
        IROp::Label | IROp::Jmp => ('.', 'L'),
        IROp::Unless => ('U', 'N'),
        IROp::Call(_, _, _) => (',', ' '),
        IROp::Return => ('R', 'E'),
        IROp::Load => ('L', 'O'),
        IROp::Store => ('S', 'T'),
        IROp::Kill => ('K', 'I'),
        IROp::SaveArgs => ('S', 'A'),
        IROp::Nop => ('N', 'O'),
    }
}

/// What the string literals of the renderings hold.
proof fn lemma_literals()
    ensures
        "ADD"@ == seq!['A', 'D', 'D'],
        "SUB"@ == seq!['S', 'U', 'B'],
        "MUL"@ == seq!['M', 'U', 'L'],
        "DIV"@ == seq!['D', 'I', 'V'],
        "MOV"@ == seq!['M', 'O', 'V'],
        "UNLESS"@ == seq!['U', 'N', 'L', 'E', 'S', 'S'],
        "RET"@ == seq!['R', 'E', 'T'],
        "LOAD"@ == seq!['L', 'O', 'A', 'D'],
        "STORE"@ == seq!['S', 'T', 'O', 'R', 'E'],
        "KILL"@ == seq!['K', 'I', 'L', 'L'],
        "SAVE_ARGS"@ == seq!['S', 'A', 'V', 'E', '_', 'A', 'R', 'G', 'S'],
        "NOP"@ == seq!['N', 'O', 'P'],
        ".L"@ == seq!['.', 'L'],
        ", r"@ == seq![',', ' ', 'r'],
        " r"@ == seq![' ', 'r'],
        ", "@ == seq![',', ' '],
{
    reveal_strlit("ADD");
    reveal_strlit("SUB");
    reveal_strlit("MUL");
    reveal_strlit("DIV");
    reveal_strlit("MOV");
    reveal_strlit("UNLESS");
    reveal_strlit("RET");
    reveal_strlit("LOAD");
    reveal_strlit("STORE");
    reveal_strlit("KILL");
    reveal_strlit("SAVE_ARGS");
    reveal_strlit("NOP");
    reveal_strlit(".L");
    reveal_strlit(", r");
    reveal_strlit(" r");
    reveal_strlit(", ");
    assert("ADD"@ =~= seq!['A', 'D', 'D']);
    assert("SUB"@ =~= seq!['S', 'U', 'B']);
    assert("MUL"@ =~= seq!['M', 'U', 'L']);
    assert("DIV"@ =~= seq!['D', 'I', 'V']);
    assert("MOV"@ =~= seq!['M', 'O', 'V']);
    assert("UNLESS"@ =~= seq!['U', 'N', 'L', 'E', 'S', 'S']);
    assert("RET"@ =~= seq!['R', 'E', 'T']);
    assert("LOAD"@ =~= seq!['L', 'O', 'A', 'D']);
    assert("STORE"@ =~= seq!['S', 'T', 'O', 'R', 'E']);
    assert("KILL"@ =~= seq!['K', 'I', 'L', 'L']);
    assert("SAVE_ARGS"@ =~= seq!['S', 'A', 'V', 'E', '_', 'A', 'R', 'G', 'S']);
    assert("NOP"@ =~= seq!['N', 'O', 'P']);
    assert(".L"@ =~= seq!['.', 'L']);
    assert(", r"@ =~= seq![',', ' ', 'r']);
    assert(" r"@ =~= seq![' ', 'r']);
    assert(", "@ =~= seq![',', ' ']);
}

/// The text of an instruction starts with the two characters of its opcode.
pub proof fn lemma_text_lead(ir: IR)
    ensures
        ir.text().len() >= 2,
        ir.text()[0] == lead(ir.op).0,
        ir.text()[1] == lead(ir.op).1,
{
    lemma_literals();
    let name = ir.op.mnemonic();
    match ir.op.shape() {
        IRType::Label => {
            assert(ir.text()[0] == ".L"@[0]);
            assert(ir.text()[1] == ".L"@[1]);
        },
        IRType::Call => {
            assert(ir.text()[0] == ", r"@[0]);
            assert(ir.text()[1] == ", r"@[1]);
        },
        _ => {
            assert(name.len() >= 3);
            assert(ir.text()[0] == name[0]);
            assert(ir.text()[1] == name[1]);
        },
    }
}

/// Opcodes whose texts start alike have the same mnemonic, and the same
/// shape unless one takes two registers and the other a register and an
/// immediate.
proof fn lemma_lead_tells_mnemonic(a: IROp, b: IROp)
    requires
        lead(a) == lead(b),
    ensures
        a.mnemonic() == b.mnemonic(),
        a.shape() == b.shape() || (a.shape() == IRType::RegReg && b.shape() == IRType::RegImm)
            || (a.shape() == IRType::RegImm && b.shape() == IRType::RegReg),
{
}

/// With the same mnemonic, an instruction on two registers and one on a
/// register and an immediate have different texts: after the first
/// operand, one goes on with `r` and the other with a digit.
proof fn lemma_second_operand_differs(x: IR, y: IR)
    requires
        x.op.shape() == IRType::RegReg,
        y.op.shape() == IRType::RegImm,
        x.op.mnemonic() == y.op.mnemonic(),
    ensures
        x.text() != y.text(),
{
    lemma_literals();
    let open = x.op.mnemonic() + " r"@;
    let rest_x = ", r"@ + decimal(x.rhs->0 as nat);
    let rest_y = ", "@ + decimal(y.rhs->0 as nat);
    assert(x.text() =~= open + decimal(x.lhs->0 as nat) + rest_x);
    assert(y.text() =~= open + decimal(y.lhs->0 as nat) + rest_y);
    if x.text() == y.text() {
        lemma_decimal_digits(y.rhs->0 as nat);
        lemma_numeral_ends(open, x.lhs->0 as nat, rest_x, y.lhs->0 as nat, rest_y);
        assert(rest_x[2] == 'r');
        assert(rest_y[2] == decimal(y.rhs->0 as nat)[0]);
    }
}

/// The text of an instruction tells its row of the opcode table: two
/// instructions with the same text have the same mnemonic and the same
/// shape of operands. (A label and a jump share their row and are written
/// alike; every other opcode has a text of its own.)
pub proof fn lemma_text_tells_row(a: IR, b: IR)
    requires
        a.text() == b.text(),
    ensures
        a.op.mnemonic() == b.op.mnemonic(),
        a.op.shape() == b.op.shape(),
{
    lemma_text_lead(a);
    lemma_text_lead(b);
    lemma_lead_tells_mnemonic(a.op, b.op);
    if a.op.shape() == IRType::RegReg && b.op.shape() == IRType::RegImm {
        lemma_second_operand_differs(a, b);
    }
    if a.op.shape() == IRType::RegImm && b.op.shape() == IRType::RegReg {
        lemma_second_operand_differs(b, a);
    }
}

} // verus!
