//! What holds of every stretch of code that lowering emits: how registers
//! are numbered, which registers a `Kill` may name, which labels are
//! defined and that every jump reaches one.

use vstd::prelude::*;
use crate::ir::{ir1, ir2, IR, IROp};

verus! {

/// Whether `code` starts with `prefix`. Lowering only ever appends to the
/// code that is there, so the code after a step starts with the code before.
pub open spec fn starts_with(code: Seq<IR>, prefix: Seq<IR>) -> bool {
    &&& prefix.len() <= code.len()
    &&& forall|i: int| 0 <= i < prefix.len() ==> #[trigger] code[i] == prefix[i]
}

/// Whether the instruction creates the register that its `lhs` names. These
/// are the loads of an immediate, the copies of the frame base, and the
/// calls; every other instruction works on registers that exist already.
pub open spec fn defines(ir: IR) -> bool {
    ir.op is Imm || ir.op is Mov || ir.op is Call
}

/// The number of instructions of `code` that create a register.
pub open spec fn count_defs(code: Seq<IR>) -> nat
    decreases code.len(),
{
    if code.len() == 0 {
        0
    } else {
        count_defs(code.drop_last()) + if defines(code.last()) {
            1nat
        } else {
            0nat
        }
    }
}

/// The number of registers created before instruction `i` of `code`.
pub open spec fn defs_before(code: Seq<IR>, i: int) -> nat {
    count_defs(code.take(i))
}

/// Registers are numbered in the order of their creation: with `base` the
/// first number, the instruction that creates the `k`-th register of `code`
/// (counting from 0) names register `base + k`.
pub open spec fn numbered_from(code: Seq<IR>, base: int) -> bool {
    forall|i: int|
        0 <= i < code.len() && defines(#[trigger] code[i]) ==> code[i].lhs is Some
            && code[i].lhs->0 == base + defs_before(code, i)
}

/// Every `Kill` names one of the registers numbered from `base` that the
/// code before it has created.
pub open spec fn kills_created(code: Seq<IR>, base: int) -> bool {
    forall|j: int|
        0 <= j < code.len() && (#[trigger] code[j]).op is Kill ==> code[j].lhs is Some && base
            <= code[j].lhs->0 < base + defs_before(code, j)
}

/// The code creates exactly the registers from `base` up to `end`, in
/// order, and kills none but those it has created.
pub open spec fn regs_ok(code: Seq<IR>, base: int, end: int) -> bool {
    &&& numbered_from(code, base)
    &&& kills_created(code, base)
    &&& end == base + count_defs(code)
}

/// Whether some earlier instruction of `code` creates the register that
/// instruction `j` names as `lhs`.
pub open spec fn created_before(code: Seq<IR>, j: int) -> bool {
    exists|i: int| 0 <= i < j && #[trigger] defines(code[i]) && code[i].lhs == code[j].lhs
}

/// Every `Kill` names a register that an earlier instruction has created.
pub open spec fn kills_follow_defs(code: Seq<IR>) -> bool {
    forall|j: int|
        0 <= j < code.len() && (#[trigger] code[j]).op is Kill ==> created_before(code, j)
}

/// Whether the instruction jumps: its target is `rhs` for `Unless` and `lhs`
/// for `Jmp`.
pub open spec fn jump_target(ir: IR) -> Option<Option<usize>> {
    match ir.op {
        IROp::Unless => Some(ir.rhs),
        IROp::Jmp => Some(ir.lhs),
        _ => None,
    }
}

/// Whether instruction `j` of `code` defines the label `target`.
pub open spec fn label_at(code: Seq<IR>, j: int, target: Option<usize>) -> bool {
    0 <= j < code.len() && code[j].op is Label && code[j].lhs is Some && code[j].lhs == target
}

/// Whether some instruction after instruction `i` defines the label `target`.
pub open spec fn defined_after(code: Seq<IR>, i: int, target: Option<usize>) -> bool {
    exists|j: int| i < j && #[trigger] label_at(code, j, target)
}

/// Every jump goes to a label that the code defines further on.
pub open spec fn jumps_resolved(code: Seq<IR>) -> bool {
    forall|i: int|
        0 <= i < code.len() && jump_target(#[trigger] code[i]) is Some ==> defined_after(
            code,
            i,
            jump_target(code[i])->0,
        )
}

/// The number of `Label` instructions of `code`.
pub open spec fn count_labels(code: Seq<IR>) -> nat
    decreases code.len(),
{
    if code.len() == 0 {
        0
    } else {
        count_labels(code.drop_last()) + if code.last().op is Label {
            1nat
        } else {
            0nat
        }
    }
}

/// Every label that `code` defines lies in `lo..hi`.
pub open spec fn labels_within(code: Seq<IR>, lo: int, hi: int) -> bool {
    forall|i: int|
        0 <= i < code.len() && (#[trigger] code[i]).op is Label ==> code[i].lhs is Some && lo
            <= code[i].lhs->0 < hi
}

/// No label is defined twice in `code`.
pub open spec fn labels_distinct(code: Seq<IR>) -> bool {
    forall|i: int, j: int|
        0 <= i < j < code.len() && (#[trigger] code[i]).op is Label && (#[trigger] code[j]).op
            is Label ==> code[i].lhs != code[j].lhs
}

/// The code defines each label of `lo..hi` once and no other.
pub open spec fn labels_once(code: Seq<IR>, lo: int, hi: int) -> bool {
    &&& lo <= hi
    &&& labels_within(code, lo, hi)
    &&& labels_distinct(code)
    &&& count_labels(code) == hi - lo
}

/// The code defines each label of `lo..hi` once and no other, and every
/// jump in it goes to a label that it defines further on.
pub open spec fn labels_ok(code: Seq<IR>, lo: int, hi: int) -> bool {
    &&& labels_once(code, lo, hi)
    &&& jumps_resolved(code)
}

/// Every instruction of `code` has the operands that its opcode asks for.
pub open spec fn all_well_formed(code: Seq<IR>) -> bool {
    forall|i: int| 0 <= i < code.len() ==> (#[trigger] code[i]).well_formed()
}

/// The code neither defines a label nor jumps.
pub open spec fn straight(code: Seq<IR>) -> bool {
    forall|i: int|
        0 <= i < code.len() ==> !((#[trigger] code[i]).op is Label) && jump_target(code[i])
            is None
}

/// The code creates no register.
pub open spec fn no_defs(code: Seq<IR>) -> bool {
    forall|i: int| 0 <= i < code.len() ==> !defines(#[trigger] code[i])
}

/// The registers that two stretches of code create add up.
pub proof fn lemma_count_defs_concat(a: Seq<IR>, b: Seq<IR>)
    ensures
        count_defs(a + b) == count_defs(a) + count_defs(b),
    decreases b.len(),
{
    if b.len() == 0 {
        assert(a + b == a);
    } else {
        assert((a + b).drop_last() == a + b.drop_last());
        lemma_count_defs_concat(a, b.drop_last());
    }
}

/// The labels that two stretches of code define add up.
pub proof fn lemma_count_labels_concat(a: Seq<IR>, b: Seq<IR>)
    ensures
        count_labels(a + b) == count_labels(a) + count_labels(b),
    decreases b.len(),
{
    if b.len() == 0 {
        assert(a + b == a);
    } else {
        assert((a + b).drop_last() == a + b.drop_last());
        lemma_count_labels_concat(a, b.drop_last());
    }
}

/// Code without creating instructions creates no register.
pub proof fn lemma_no_defs_count(code: Seq<IR>)
    requires
        no_defs(code),
    ensures
        count_defs(code) == 0,
    decreases code.len(),
{
    if code.len() > 0 {
        assert(code.last() == code[code.len() - 1]);
        assert forall|i: int| 0 <= i < code.drop_last().len() implies !defines(
            #[trigger] code.drop_last()[i],
        ) by {
            assert(code.drop_last()[i] == code[i]);
        }
        lemma_no_defs_count(code.drop_last());
    }
}

/// Straight code defines no label.
pub proof fn lemma_straight_count(code: Seq<IR>)
    requires
        straight(code),
    ensures
        count_labels(code) == 0,
    decreases code.len(),
{
    if code.len() > 0 {
        assert(code.last() == code[code.len() - 1]);
        assert forall|i: int| 0 <= i < code.drop_last().len() implies !((
        #[trigger] code.drop_last()[i]).op is Label) && jump_target(code.drop_last()[i])
            is None by {
            assert(code.drop_last()[i] == code[i]);
        }
        lemma_straight_count(code.drop_last());
    }
}

/// The count of created registers grows along the code.
pub proof fn lemma_defs_before_grows(code: Seq<IR>, i: int, j: int)
    requires
        0 <= i <= j <= code.len(),
    ensures
        defs_before(code, i) <= defs_before(code, j),
        j < code.len() ==> defs_before(code, j + 1) == defs_before(code, j) + if defines(
            code[j],
        ) {
            1nat
        } else {
            0nat
        },
        defs_before(code, code.len() as int) == count_defs(code),
    decreases j - i,
{
    assert(code.take(code.len() as int) == code);
    if j < code.len() {
        assert(code.take(j + 1).drop_last() == code.take(j));
        assert(code.take(j + 1).last() == code[j]);
    }
    if i < j {
        lemma_defs_before_grows(code, i, j - 1);
        assert(code.take(j).drop_last() == code.take(j - 1));
    }
}

/// The counts before an instruction of a concatenation.
pub proof fn lemma_defs_before_concat(a: Seq<IR>, b: Seq<IR>, i: int)
    requires
        0 <= i <= a.len() + b.len(),
    ensures
        i <= a.len() ==> defs_before(a + b, i) == defs_before(a, i),
        i >= a.len() ==> defs_before(a + b, i) == count_defs(a) + defs_before(b, i - a.len()),
{
    if i <= a.len() {
        assert((a + b).take(i) == a.take(i));
    }
    if i >= a.len() {
        assert((a + b).take(i) == a + b.take(i - a.len()));
        lemma_count_defs_concat(a, b.take(i - a.len()));
        if i == a.len() {
            assert(a.take(i) == a);
        }
    }
}

/// Code that creates the registers `base..mid`, followed by code that
/// creates the registers `mid..end`, creates the registers `base..end`.
pub proof fn lemma_regs_concat(a: Seq<IR>, b: Seq<IR>, base: int, mid: int, end: int)
    requires
        regs_ok(a, base, mid),
        regs_ok(b, mid, end),
    ensures
        regs_ok(a + b, base, end),
{
    let c = a + b;
    lemma_count_defs_concat(a, b);
    assert forall|i: int| 0 <= i < c.len() && defines(#[trigger] c[i]) implies c[i].lhs is Some
        && c[i].lhs->0 == base + defs_before(c, i) by {
        lemma_defs_before_concat(a, b, i);
        if i < a.len() {
            assert(c[i] == a[i]);
        } else {
            assert(c[i] == b[i - a.len()]);
        }
    }
    assert forall|j: int| 0 <= j < c.len() && (#[trigger] c[j]).op is Kill implies c[j].lhs
        is Some && base <= c[j].lhs->0 < base + defs_before(c, j) by {
        lemma_defs_before_concat(a, b, j);
        if j < a.len() {
            assert(c[j] == a[j]);
        } else {
            assert(c[j] == b[j - a.len()]);
        }
    }
}

/// Code that creates the registers `base..end` may be followed by code that
/// creates none and kills only registers of `base..end`.
pub proof fn lemma_regs_tail(code: Seq<IR>, tail: Seq<IR>, base: int, end: int)
    requires
        regs_ok(code, base, end),
        no_defs(tail),
        forall|j: int|
            0 <= j < tail.len() && (#[trigger] tail[j]).op is Kill ==> tail[j].lhs is Some
                && base <= tail[j].lhs->0 < end,
    ensures
        regs_ok(code + tail, base, end),
{
    let c = code + tail;
    lemma_no_defs_count(tail);
    lemma_count_defs_concat(code, tail);
    assert forall|i: int| 0 <= i < c.len() && defines(#[trigger] c[i]) implies c[i].lhs is Some
        && c[i].lhs->0 == base + defs_before(c, i) by {
        lemma_defs_before_concat(code, tail, i);
        if i < code.len() {
            assert(c[i] == code[i]);
        } else {
            assert(c[i] == tail[i - code.len()]);
        }
    }
    assert forall|j: int| 0 <= j < c.len() && (#[trigger] c[j]).op is Kill implies c[j].lhs
        is Some && base <= c[j].lhs->0 < base + defs_before(c, j) by {
        lemma_defs_before_concat(code, tail, j);
        if j < code.len() {
            assert(c[j] == code[j]);
        } else {
            assert(c[j] == tail[j - code.len()]);
            lemma_defs_before_grows(tail, 0, j - code.len());
        }
    }
}

/// Straight code defines no label and has no jump to resolve.
pub proof fn lemma_straight_labels(code: Seq<IR>, lo: int)
    requires
        straight(code),
    ensures
        labels_ok(code, lo, lo),
{
    lemma_straight_count(code);
}

/// A label that `a` defines after instruction `i` is defined there in
/// `a + b` too.
pub proof fn lemma_defined_after_left(a: Seq<IR>, b: Seq<IR>, i: int, target: Option<usize>)
    requires
        defined_after(a, i, target),
    ensures
        defined_after(a + b, i, target),
{
    let j = choose|j: int| i < j && #[trigger] label_at(a, j, target);
    assert((a + b)[j] == a[j]);
    assert(label_at(a + b, j, target));
}

/// A label that `b` defines after instruction `i` is defined after
/// instruction `a.len() + i` of `a + b`.
pub proof fn lemma_defined_after_right(a: Seq<IR>, b: Seq<IR>, i: int, target: Option<usize>)
    requires
        defined_after(b, i, target),
    ensures
        defined_after(a + b, a.len() + i, target),
{
    let j = choose|j: int| i < j && #[trigger] label_at(b, j, target);
    assert((a + b)[a.len() + j] == b[j]);
    assert(label_at(a + b, a.len() + j, target));
}

/// Two stretches of code in which every jump is resolved make one.
pub proof fn lemma_jumps_concat(a: Seq<IR>, b: Seq<IR>)
    requires
        jumps_resolved(a),
        jumps_resolved(b),
    ensures
        jumps_resolved(a + b),
{
    let c = a + b;
    assert forall|i: int|
        0 <= i < c.len() && jump_target(#[trigger] c[i]) is Some implies defined_after(
        c,
        i,
        jump_target(c[i])->0,
    ) by {
        if i < a.len() {
            assert(c[i] == a[i]);
            lemma_defined_after_left(a, b, i, jump_target(a[i])->0);
        } else {
            assert(c[i] == b[i - a.len()]);
            lemma_defined_after_right(a, b, i - a.len(), jump_target(b[i - a.len()])->0);
        }
    }
}

/// Code that defines the labels `lo..mid` and code that defines the labels
/// `mid..hi`, in either order, define the labels `lo..hi`.
pub proof fn lemma_labels_once_concat(a: Seq<IR>, b: Seq<IR>, lo: int, mid: int, hi: int)
    requires
        labels_once(a, lo, mid) && labels_once(b, mid, hi) || labels_once(a, mid, hi)
            && labels_once(b, lo, mid),
    ensures
        labels_once(a + b, lo, hi),
{
    let c = a + b;
    lemma_count_labels_concat(a, b);
    assert forall|i: int| 0 <= i < c.len() && (#[trigger] c[i]).op is Label implies c[i].lhs
        is Some && lo <= c[i].lhs->0 < hi by {
        if i < a.len() {
            assert(c[i] == a[i]);
        } else {
            assert(c[i] == b[i - a.len()]);
        }
    }
    assert forall|i: int, j: int|
        0 <= i < j < c.len() && (#[trigger] c[i]).op is Label && (#[trigger] c[j]).op
            is Label implies c[i].lhs != c[j].lhs by {
        if i < a.len() {
            assert(c[i] == a[i]);
        } else {
            assert(c[i] == b[i - a.len()]);
        }
        if j < a.len() {
            assert(c[j] == a[j]);
        } else {
            assert(c[j] == b[j - a.len()]);
        }
    }
}

/// Two stretches of code with adjoining label ranges make one.
pub proof fn lemma_labels_concat(a: Seq<IR>, b: Seq<IR>, lo: int, mid: int, hi: int)
    requires
        labels_ok(a, lo, mid),
        labels_ok(b, mid, hi),
    ensures
        labels_ok(a + b, lo, hi),
{
    lemma_labels_once_concat(a, b, lo, mid, hi);
    lemma_jumps_concat(a, b);
}

/// The code of an `if` without `else`: the condition's code `c`, the branch
/// on its register `r` to the label `x`, the code `t` of the "then" branch
/// with labels of its own, and the label `x`.
pub open spec fn if_code(c: Seq<IR>, r: usize, x: usize, t: Seq<IR>) -> Seq<IR> {
    c + seq![ir2(IROp::Unless, r, x), ir1(IROp::Kill, r)] + t + seq![ir1(IROp::Label, x)]
}

/// The code of an `if` with `else`: as `if_code`, but the "then" branch
/// ends in a jump to the label `y`, which follows the code `e` of the
/// "else" branch.
pub open spec fn if_else_code(
    c: Seq<IR>,
    r: usize,
    x: usize,
    t: Seq<IR>,
    y: usize,
    e: Seq<IR>,
) -> Seq<IR> {
    c + seq![ir2(IROp::Unless, r, x), ir1(IROp::Kill, r)] + t + seq![
        ir1(IROp::Jmp, y),
        ir1(IROp::Label, x),
    ] + e + seq![ir1(IROp::Label, y)]
}

/// An `if` without `else` defines one label beyond those of its "then"
/// branch, and its branch is resolved.
pub proof fn lemma_if_labels(c: Seq<IR>, r: usize, x: usize, t: Seq<IR>, hi: int)
    requires
        straight(c),
        labels_ok(t, x + 1, hi),
    ensures
        labels_ok(if_code(c, r, x, t), x as int, hi),
{
    let branch = seq![ir2(IROp::Unless, r, x), ir1(IROp::Kill, r)];
    let label = seq![ir1(IROp::Label, x)];
    let head = c + branch;
    let code = if_code(c, r, x, t);
    assert(code == head + t + label);
    // The labels.
    lemma_straight_count(c);
    lemma_count_labels_concat(c, branch);
    assert(count_labels(branch) == 0) by {
        reveal_with_fuel(count_labels, 3);
    }
    assert(labels_once(head, x + 1, x + 1));
    lemma_labels_once_concat(head, t, x + 1, x + 1, hi);
    assert(labels_once(label, x as int, x + 1)) by {
        reveal_with_fuel(count_labels, 2);
    }
    lemma_labels_once_concat(head + t, label, x as int, x + 1, hi);
    // The jumps.
    let last = code.len() - 1;
    assert(label_at(code, last, Some(x)));
    assert forall|i: int|
        0 <= i < code.len() && jump_target(#[trigger] code[i]) is Some implies defined_after(
        code,
        i,
        jump_target(code[i])->0,
    ) by {
        if i < c.len() {
            assert(code[i] == c[i]);
        } else if i < head.len() {
            assert(code[i] == branch[i - c.len()]);
        } else if i < last {
            let k = i - head.len();
            assert(code[i] == t[k]);
            lemma_defined_after_right(head, t, k, jump_target(t[k])->0);
            lemma_defined_after_left(head + t, label, i, jump_target(t[k])->0);
        }
    }
}

/// An `if` with `else` defines two labels beyond those of its branches, and
/// its branch and its jump are resolved.
pub proof fn lemma_if_else_labels(
    c: Seq<IR>,
    r: usize,
    x: usize,
    t: Seq<IR>,
    y: usize,
    e: Seq<IR>,
    hi: int,
)
    requires
        straight(c),
        labels_ok(t, x + 1, y as int),
        labels_ok(e, y + 1, hi),
    ensures
        labels_ok(if_else_code(c, r, x, t, y, e), x as int, hi),
{
    let branch = seq![ir2(IROp::Unless, r, x), ir1(IROp::Kill, r)];
    let middle = seq![ir1(IROp::Jmp, y), ir1(IROp::Label, x)];
    let label = seq![ir1(IROp::Label, y)];
    let head = c + branch;
    let first = head + t + middle;
    let code = if_else_code(c, r, x, t, y, e);
    assert(code == first + e + label);
    // The labels.
    lemma_straight_count(c);
    lemma_count_labels_concat(c, branch);
    assert(count_labels(branch) == 0) by {
        reveal_with_fuel(count_labels, 3);
    }
    assert(labels_once(head, x + 1, x + 1));
    lemma_labels_once_concat(head, t, x + 1, x + 1, y as int);
    assert(labels_once(middle, x as int, x + 1)) by {
        reveal_with_fuel(count_labels, 3);
    }
    lemma_labels_once_concat(head + t, middle, x as int, x + 1, y as int);
    assert(labels_once(label, y as int, y + 1)) by {
        reveal_with_fuel(count_labels, 2);
    }
    lemma_labels_once_concat(e, label, y as int, y + 1, hi);
    lemma_labels_once_concat(first, e + label, x as int, y as int, hi);
    assert(code == first + (e + label));
    // The jumps.
    let at_x = (head.len() + t.len() + 1) as int;
    let last = code.len() - 1;
    assert(code[at_x] == middle[1]);
    assert(label_at(code, at_x, Some(x)));
    assert(label_at(code, last, Some(y)));
    assert forall|i: int|
        0 <= i < code.len() && jump_target(#[trigger] code[i]) is Some implies defined_after(
        code,
        i,
        jump_target(code[i])->0,
    ) by {
        if i < c.len() {
            assert(code[i] == c[i]);
        } else if i < head.len() {
            assert(code[i] == branch[i - c.len()]);
        } else if i < head.len() + t.len() {
            let k = i - head.len();
            assert(code[i] == t[k]);
            lemma_defined_after_right(head, t, k, jump_target(t[k])->0);
            lemma_defined_after_left(head + t, middle + e + label, i, jump_target(t[k])->0);
            assert(code == head + t + (middle + e + label));
        } else if i < first.len() {
            assert(code[i] == middle[i - head.len() - t.len()]);
        } else if i < last {
            let k = i - first.len();
            assert(code[i] == e[k]);
            lemma_defined_after_right(first, e, k, jump_target(e[k])->0);
            lemma_defined_after_left(first + e, label, i, jump_target(e[k])->0);
        }
    }
}

/// Two stretches of well-formed instructions make one.
pub proof fn lemma_well_formed_concat(a: Seq<IR>, b: Seq<IR>)
    requires
        all_well_formed(a),
        all_well_formed(b),
    ensures
        all_well_formed(a + b),
{
    let c = a + b;
    assert forall|i: int| 0 <= i < c.len() implies (#[trigger] c[i]).well_formed() by {
        if i < a.len() {
            assert(c[i] == a[i]);
        } else {
            assert(c[i] == b[i - a.len()]);
        }
    }
}

/// Two stretches of straight code make one.
pub proof fn lemma_straight_concat(a: Seq<IR>, b: Seq<IR>)
    requires
        straight(a),
        straight(b),
    ensures
        straight(a + b),
{
    let c = a + b;
    assert forall|i: int| 0 <= i < c.len() implies !((#[trigger] c[i]).op is Label)
        && jump_target(c[i]) is None by {
        if i < a.len() {
            assert(c[i] == a[i]);
        } else {
            assert(c[i] == b[i - a.len()]);
        }
    }
}

} // verus!
