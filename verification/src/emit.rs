//! The lowering pass: the functions that walk the syntax tree and emit the
//! intermediate code.

use vstd::prelude::*;
use crate::ast::{Node, NodeType, TokenType};
use crate::context::{LoweringContext, SLOT};
use crate::error::LowerError;
use crate::guarantees::{
    function_ok, labels_in, lemma_expr_sound, lemma_function_sound, lemma_params_sound,
    lemma_program_sound, lemma_stmt_labels, lemma_stmt_sound, program_ok,
};
use crate::invariants::{count_labels, labels_once, lemma_count_labels_concat, starts_with};
use crate::ir::{ir1, ir2, models, Function, FunctionModel, IR, IROp, MAX_CALL_ARGS};
use crate::validity::{
    lemma_expr_fails, lemma_expr_succeeds, lemma_function_succeeds, lemma_params_fail,
    lemma_params_succeed, lemma_program_lowers, lemma_stmt_fails, lemma_stmt_succeeds,
    program_fits, room, size, valid_expr, valid_function, valid_params, valid_program,
    valid_stmt,
};
use crate::lower::{
    arg_array, arg_or_zero, bind_params, kills, lemma_args_error_stays,
    lemma_functions_error_stays, lemma_params_error_stays, lemma_stmts_error_stays, lower_args,
    lower_expr, lower_function, lower_functions, lower_lval, lower_program, lower_stmt,
    lower_stmts, save_args,
};

verus! {

/// Emits the code that computes the address of the variable `node` and
/// returns the register that holds it.
pub fn gen_lval(code: &mut Vec<IR>, ctx: &mut LoweringContext, node: &Node) -> (r: Result<
    usize,
    LowerError,
>)
    ensures
        lower_lval(*node, old(ctx)@) matches Ok(a) ==> r == Ok::<usize, LowerError>(a.reg)
            && final(code)@ == old(code)@ + a.code && final(ctx)@ == a.st,
        lower_lval(*node, old(ctx)@) matches Err(e) ==> r == Err::<usize, LowerError>(e),
        starts_with(final(code)@, old(code)@),
        old(ctx)@.well_formed() ==> final(ctx)@.well_formed(),
        node.ty is Ident && room(old(ctx)@, 1) ==> r is Ok,
        !(node.ty is Ident) ==> r == Err::<usize, LowerError>(LowerError::NotAnLvalue),
{
    proof {
        reveal(lower_lval);
    }
    match &node.ty {
        NodeType::Ident(name) => {
            let off = match ctx.lookup(name) {
                Some(off) => off,
                None => ctx.bind_local(name)?,
            };
            let r = ctx.alloc_reg()?;
            code.push(IR::new(IROp::Mov, Some(r), Some(0)));
            code.push(IR::new(IROp::SubImm, Some(r), Some(off)));
            assert(code@ == old(code)@ + seq![ir2(IROp::Mov, r, 0), ir2(IROp::SubImm, r, off)]);
            Ok(r)
        },
        _ => Err(LowerError::NotAnLvalue),
    }
}

/// Emits one `Kill` for each of the first `n` registers of `regs`.
pub fn gen_kills(code: &mut Vec<IR>, regs: &[usize; 6], n: usize)
    requires
        n <= MAX_CALL_ARGS,
    ensures
        final(code)@ == old(code)@ + kills(regs@.take(n as int)),
{
    let ghost all = kills(regs@.take(n as int));
    let mut j: usize = 0;
    assert(code@ == old(code)@ + all.take(0));
    while j < n
        invariant
            j <= n <= MAX_CALL_ARGS,
            all == kills(regs@.take(n as int)),
            code@ == old(code)@ + all.take(j as int),
        decreases n - j,
    {
        let kill = IR::new(IROp::Kill, Some(regs[j]), None);
        assert(kill == all[j as int]);
        code.push(kill);
        assert(all.take(j + 1) == all.take(j as int).push(kill));
        j = j + 1;
    }
    assert(all.take(j as int) == all);
}

/// Emits the code of the arguments of a call, left to right, and returns
/// the argument array of the call instruction.
#[verifier::loop_isolation(false)]
pub fn gen_call_args(code: &mut Vec<IR>, ctx: &mut LoweringContext, args: &Vec<Node>) -> (r:
    Result<[usize; 6], LowerError>)
    requires
        args.len() <= MAX_CALL_ARGS,
    ensures
        lower_args(*args, args.len() as nat, old(ctx)@) matches Ok(a) ==> r matches Ok(regs)
            && regs == arg_array(a.regs) && a.regs.len() == args.len() && final(code)@ == old(
            code,
        )@ + a.code && final(ctx)@ == a.st,
        lower_args(*args, args.len() as nat, old(ctx)@) matches Err(e) ==> r matches Err(err)
            && err == e,
        starts_with(final(code)@, old(code)@),
    decreases args,
{
    let ghost code0 = code@;
    let ghost st0 = ctx@;
    proof {
        reveal(lower_expr);
    }
    let mut args_ir: [usize; 6] = [0;6];
    let mut i: usize = 0;
    assert(code@ == code0 + Seq::<IR>::empty());
    while i < args.len()
        invariant
            i <= args.len() <= MAX_CALL_ARGS,
            lower_args(*args, i as nat, st0) matches Ok(a) && code@ == code0 + a.code && ctx@
                == a.st && a.regs.len() == i && (forall|k: int|
                0 <= k < 6 ==> args_ir@[k] == arg_or_zero(a.regs, k)),
        decreases args.len() - i,
    {
        let ghost done = lower_args(*args, i as nat, st0)->Ok_0;
        let r = match gen_expr(code, ctx, &args[i]) {
            Ok(r) => r,
            Err(e) => {
                proof {
                    lemma_args_error_stays(*args, (i + 1) as nat, args.len() as nat, st0);
                }
                return Err(e);
            },
        };
        let ghost one = lower_expr(args[i as int], done.st)->Ok_0;
        assert(code@ == code0 + (done.code + one.code));
        args_ir[i] = r;
        i = i + 1;
    }
    let ghost a = lower_args(*args, args.len() as nat, st0)->Ok_0;
    assert(args_ir == arg_array(a.regs));
    Ok(args_ir)
}

/// Emits the code that computes the expression `node` and returns the
/// register that holds its value.
pub fn gen_expr(code: &mut Vec<IR>, ctx: &mut LoweringContext, node: &Node) -> (r: Result<
    usize,
    LowerError,
>)
    ensures
        lower_expr(*node, old(ctx)@) matches Ok(v) ==> r == Ok::<usize, LowerError>(v.reg)
            && final(code)@ == old(code)@ + v.code && final(ctx)@ == v.st,
        lower_expr(*node, old(ctx)@) matches Err(e) ==> r == Err::<usize, LowerError>(e),
        starts_with(final(code)@, old(code)@),
        old(ctx)@.well_formed() && r is Ok ==> final(ctx)@.well_formed(),
        valid_expr(*node) && room(old(ctx)@, size(*node)) ==> r is Ok,
        !valid_expr(*node) ==> r is Err,
    decreases node,
{
    let ghost code0 = code@;
    let ghost st0 = ctx@;
    assert(valid_expr(*node) && room(st0, size(*node)) ==> lower_expr(*node, st0) is Ok) by {
        if valid_expr(*node) && room(st0, size(*node)) {
            lemma_expr_succeeds(*node, st0);
        }
    }
    assert(!valid_expr(*node) ==> lower_expr(*node, st0) is Err) by {
        lemma_expr_fails(*node, st0);
    }
    assert(st0.well_formed() && lower_expr(*node, st0) is Ok ==> lower_expr(
        *node,
        st0,
    )->Ok_0.st.well_formed()) by {
        if st0.well_formed() && lower_expr(*node, st0) is Ok {
            lemma_expr_sound(*node, st0);
        }
    }
    proof {
        reveal(lower_expr);
    }
    match &node.ty {
        NodeType::Num(val) => {
            let r = ctx.alloc_reg()?;
            let imm = #[verifier::truncate]
            (*val as usize);
            code.push(IR::new(IROp::Imm, Some(r), Some(imm)));
            assert(code@ == code0 + seq![ir2(IROp::Imm, r, imm)]);
            Ok(r)
        },
        NodeType::Ident(_) => {
            let r = gen_lval(code, ctx, node)?;
            let ghost la = lower_lval(*node, st0)->Ok_0;
            code.push(IR::new(IROp::Load, Some(r), Some(r)));
            assert(code@ == code0 + la.code.push(ir2(IROp::Load, r, r)));
            Ok(r)
        },
        NodeType::Call(name, args) => {
            if args.len() > MAX_CALL_ARGS {
                return Err(LowerError::TooManyArguments);
            }
            let args_ir = gen_call_args(code, ctx, args)?;
            let ghost a = lower_args(*args, args.len() as nat, st0)->Ok_0;
            let r = ctx.alloc_reg()?;
            let call = IR::new(IROp::Call(name.clone(), args.len(), args_ir), Some(r), None);
            code.push(call);
            assert(code@ == code0 + a.code.push(call));
            gen_kills(code, &args_ir, args.len());
            assert(args_ir@.take(args.len() as int) == a.regs);
            assert(code@ == code0 + (a.code.push(call) + kills(a.regs)));
            Ok(r)
        },
        NodeType::BinOp(op, lhs, rhs) => {
            match op {
                TokenType::Equal => {
                    let v = gen_expr(code, ctx, rhs)?;
                    let ghost lv = lower_expr(**rhs, st0)->Ok_0;
                    let a = gen_lval(code, ctx, lhs)?;
                    let ghost la = lower_lval(**lhs, lv.st)->Ok_0;
                    assert(code@ == code0 + (lv.code + la.code));
                    code.push(IR::new(IROp::Store, Some(a), Some(v)));
                    code.push(IR::new(IROp::Kill, Some(v), None));
                    assert(code@ == code0 + (lv.code + la.code + seq![
                        ir2(IROp::Store, a, v),
                        ir1(IROp::Kill, v),
                    ]));
                    Ok(a)
                },
                _ => {
                    let l = gen_expr(code, ctx, lhs)?;
                    let ghost ll = lower_expr(**lhs, st0)->Ok_0;
                    let r = gen_expr(code, ctx, rhs)?;
                    let ghost lr = lower_expr(**rhs, ll.st)->Ok_0;
                    assert(code@ == code0 + (ll.code + lr.code));
                    let o = match IROp::from_token(*op) {
                        Some(o) => o,
                        None => {
                            return Err(LowerError::UnknownNode);
                        },
                    };
                    code.push(IR::new(o, Some(l), Some(r)));
                    code.push(IR::new(IROp::Kill, Some(r), None));
                    assert(code@ == code0 + (ll.code + lr.code + seq![
                        ir2(o, l, r),
                        ir1(IROp::Kill, r),
                    ]));
                    Ok(l)
                },
            }
        },
        _ => Err(LowerError::UnknownNode),
    }
}

/// Emits the code of the statement `node`.
#[verifier::loop_isolation(false)]
pub fn gen_stmt(code: &mut Vec<IR>, ctx: &mut LoweringContext, node: &Node) -> (r: Result<
    (),
    LowerError,
>)
    ensures
        lower_stmt(*node, old(ctx)@) matches Ok(s) ==> r is Ok && final(code)@ == old(code)@
            + s.code && final(ctx)@ == s.st,
        lower_stmt(*node, old(ctx)@) matches Err(e) ==> r == Err::<(), LowerError>(e),
        starts_with(final(code)@, old(code)@),
        old(ctx)@.well_formed() && r is Ok ==> final(ctx)@.well_formed(),
        old(ctx)@.well_formed() && r is Ok ==> final(ctx)@.label == old(ctx)@.label + labels_in(
            *node,
        ) && count_labels(final(code)@) == count_labels(old(code)@) + labels_in(*node),
        valid_stmt(*node) && room(old(ctx)@, size(*node)) ==> r is Ok,
        !valid_stmt(*node) ==> r is Err,
    decreases node,
{
    let ghost code0 = code@;
    let ghost st0 = ctx@;
    assert(valid_stmt(*node) && room(st0, size(*node)) ==> lower_stmt(*node, st0) is Ok) by {
        if valid_stmt(*node) && room(st0, size(*node)) {
            lemma_stmt_succeeds(*node, st0);
        }
    }
    assert(!valid_stmt(*node) ==> lower_stmt(*node, st0) is Err) by {
        lemma_stmt_fails(*node, st0);
    }
    assert(lower_stmt(*node, st0) matches Ok(s) ==> (st0.well_formed() ==> s.st.well_formed()
        && s.st.label == st0.label + labels_in(*node) && count_labels(code0 + s.code)
        == count_labels(code0) + labels_in(*node))) by {
        if st0.well_formed() && lower_stmt(*node, st0) is Ok {
            lemma_stmt_sound(*node, st0);
            lemma_stmt_labels(*node, st0);
            lemma_count_labels_concat(code0, lower_stmt(*node, st0)->Ok_0.code);
        }
    }
    proof {
        reveal(lower_stmt);
    }
    match &node.ty {
        NodeType::If(cond, then, els_may) => {
            let c = gen_expr(code, ctx, cond)?;
            let ghost lc = lower_expr(**cond, st0)->Ok_0;
            let x = ctx.alloc_label()?;
            code.push(IR::new(IROp::Unless, Some(c), Some(x)));
            code.push(IR::new(IROp::Kill, Some(c), None));
            let ghost head = lc.code + seq![ir2(IROp::Unless, c, x), ir1(IROp::Kill, c)];
            assert(code@ == code0 + head);
            gen_stmt(code, ctx, then)?;
            let ghost lt = lower_stmt(**then, lc.st.take_label())->Ok_0;
            assert(code@ == code0 + (head + lt.code));
            match els_may {
                Some(els) => {
                    let y = ctx.alloc_label()?;
                    code.push(IR::new(IROp::Jmp, Some(y), None));
                    code.push(IR::new(IROp::Label, Some(x), None));
                    let ghost mid = head + lt.code + seq![ir1(IROp::Jmp, y), ir1(IROp::Label, x)];
                    assert(code@ == code0 + mid);
                    gen_stmt(code, ctx, els)?;
                    let ghost le = lower_stmt(**els, lt.st.take_label())->Ok_0;
                    assert(code@ == code0 + (mid + le.code));
                    code.push(IR::new(IROp::Label, Some(y), None));
                    assert(code@ == code0 + (mid + le.code + seq![ir1(IROp::Label, y)]));
                    Ok(())
                },
                None => {
                    code.push(IR::new(IROp::Label, Some(x), None));
                    assert(code@ == code0 + (head + lt.code + seq![ir1(IROp::Label, x)]));
                    Ok(())
                },
            }
        },
        NodeType::Return(expr) => {
            let v = gen_expr(code, ctx, expr)?;
            let ghost lv = lower_expr(**expr, st0)->Ok_0;
            code.push(IR::new(IROp::Return, Some(v), None));
            code.push(IR::new(IROp::Kill, Some(v), None));
            assert(code@ == code0 + (lv.code + seq![ir1(IROp::Return, v), ir1(IROp::Kill, v)]));
            Ok(())
        },
        NodeType::ExprStmt(expr) => {
            let v = gen_expr(code, ctx, expr)?;
            let ghost lv = lower_expr(**expr, st0)->Ok_0;
            code.push(IR::new(IROp::Kill, Some(v), None));
            assert(code@ == code0 + lv.code.push(ir1(IROp::Kill, v)));
            Ok(())
        },
        NodeType::CompStmt(stmts) => {
            let mut i: usize = 0;
            assert(code@ == code0 + Seq::<IR>::empty());
            while i < stmts.len()
                invariant
                    i <= stmts.len(),
                    lower_stmts(*stmts, i as nat, st0) matches Ok(a) && code@ == code0 + a.code
                        && ctx@ == a.st,
                decreases stmts.len() - i,
            {
                let ghost done = lower_stmts(*stmts, i as nat, st0)->Ok_0;
                match gen_stmt(code, ctx, &stmts[i]) {
                    Ok(()) => {},
                    Err(e) => {
                        proof {
                            lemma_stmts_error_stays(
                                *stmts,
                                (i + 1) as nat,
                                stmts.len() as nat,
                                st0,
                            );
                        }
                        return Err(e);
                    },
                }
                let ghost one = lower_stmt(stmts[i as int], done.st)->Ok_0;
                assert(code@ == code0 + (done.code + one.code));
                i = i + 1;
            }
            Ok(())
        },
        _ => Err(LowerError::UnknownNode),
    }
}

/// Opens the code of a function: marks how many incoming arguments are to
/// be saved to the frame, and gives each parameter its slot.
#[verifier::loop_isolation(false)]
pub fn gen_args(code: &mut Vec<IR>, ctx: &mut LoweringContext, nodes: &Vec<Node>) -> (r: Result<
    (),
    LowerError,
>)
    ensures
        bind_params(nodes@, nodes.len() as nat, old(ctx)@) matches Ok(st) ==> r is Ok
            && final(code)@ == old(code)@ + save_args(nodes.len()) && final(ctx)@ == st,
        bind_params(nodes@, nodes.len() as nat, old(ctx)@) matches Err(e) ==> r == Err::<
            (),
            LowerError,
        >(e),
        starts_with(final(code)@, old(code)@),
        old(ctx)@.well_formed() && r is Ok ==> final(ctx)@.well_formed(),
        valid_params(nodes@, nodes.len() as nat) && old(ctx)@.stacksize + SLOT * nodes.len()
            <= usize::MAX ==> r is Ok,
        !valid_params(nodes@, nodes.len() as nat) ==> r == Err::<(), LowerError>(
            LowerError::BadParameter,
        ) || r == Err::<(), LowerError>(LowerError::Exhausted),
{
    proof {
        lemma_params_fail(nodes@, nodes.len() as nat, ctx@);
        if ctx@.well_formed() && bind_params(nodes@, nodes.len() as nat, ctx@) is Ok {
            lemma_params_sound(nodes@, nodes.len() as nat, ctx@);
        }
        if valid_params(nodes@, nodes.len() as nat) && ctx@.stacksize + SLOT * nodes.len()
            <= usize::MAX {
            lemma_params_succeed(nodes@, nodes.len() as nat, ctx@);
        }
    }
    if nodes.len() == 0 {
        assert(code@ == old(code)@ + save_args(nodes.len()));
        return Ok(());
    }
    code.push(IR::new(IROp::SaveArgs, Some(nodes.len()), None));
    assert(code@ == old(code)@ + save_args(nodes.len()));
    let mut i: usize = 0;
    while i < nodes.len()
        invariant
            i <= nodes.len(),
            code@ == old(code)@ + save_args(nodes.len()),
            bind_params(nodes@, i as nat, old(ctx)@) matches Ok(st) && ctx@ == st,
        decreases nodes.len() - i,
    {
        match &nodes[i].ty {
            NodeType::Ident(name) => {
                match ctx.bind_param(name) {
                    Ok(_) => {},
                    Err(e) => {
                        proof {
                            lemma_params_error_stays(
                                nodes@,
                                (i + 1) as nat,
                                nodes.len() as nat,
                                old(ctx)@,
                            );
                        }
                        return Err(e);
                    },
                }
            },
            _ => {
                proof {
                    lemma_params_error_stays(
                        nodes@,
                        (i + 1) as nat,
                        nodes.len() as nat,
                        old(ctx)@,
                    );
                }
                return Err(LowerError::BadParameter);
            },
        }
        i = i + 1;
    }
    Ok(())
}

/// Lowers one top-level node, which has to be a function definition, with
/// `label` the next label that is free in the program. Returns the function
/// and the next label that is free after it.
pub fn gen_function(node: &Node, label: usize) -> (r: Result<(Function, usize), LowerError>)
    ensures
        lower_function(*node, label) matches Ok(f) ==> r matches Ok(out) && out.0@ == f.function
            && out.1 == f.label,
        r matches Ok(out) ==> function_ok(out.0@) && labels_once(
            out.0.ir@,
            label as int,
            out.1 as int,
        ),
        lower_function(*node, label) matches Err(e) ==> r matches Err(err) && err == e,
        valid_function(*node) && SLOT * size(*node) <= usize::MAX && label + 2 * size(*node)
            <= usize::MAX ==> r is Ok,
        !(node.ty is Func) ==> (r matches Err(err) && err == LowerError::NotAFunction),
{
    proof {
        if valid_function(*node) && SLOT * size(*node) <= usize::MAX && label + 2 * size(*node)
            <= usize::MAX {
            lemma_function_succeeds(*node, label);
        }
    }
    match &node.ty {
        NodeType::Func(name, args, body) => {
            let mut code: Vec<IR> = Vec::new();
            let mut ctx = LoweringContext::new(label);
            gen_args(&mut code, &mut ctx, args)?;
            gen_stmt(&mut code, &mut ctx, body)?;
            let next = ctx.label;
            let f = Function::new(name.clone(), code, ctx.stacksize);
            proof {
                let m = lower_function(*node, label)->Ok_0;
                assert(f@.ir == m.function.ir);
                lemma_function_sound(*node, label);
            }
            Ok((f, next))
        },
        _ => Err(LowerError::NotAFunction),
    }
}

/// Lowers a program: one function for each top-level node, in order. Fails
/// where a top-level node is no function definition, where a function holds
/// a node that has no lowering, or where a counter runs out.
pub fn gen_ir(nodes: Vec<Node>) -> (r: Result<Vec<Function>, LowerError>)
    ensures
        lower_program(nodes@) matches Ok(fns) ==> r matches Ok(v) && models(v@) == fns,
        lower_program(nodes@) matches Err(e) ==> r matches Err(err) && err == e,
        r matches Ok(v) ==> v.len() == nodes.len() && program_ok(models(v@)),
        valid_program(nodes@) && program_fits(nodes@) ==> r is Ok,
        !valid_program(nodes@) ==> r is Err,
{
    let mut v: Vec<Function> = Vec::new();
    let mut label: usize = 0;
    let mut i: usize = 0;
    assert(models(v@) == Seq::<FunctionModel>::empty());
    while i < nodes.len()
        invariant
            i <= nodes.len(),
            lower_functions(nodes@, i as nat) matches Ok(p) && models(v@) == p.functions && label
                == p.label,
        decreases nodes.len() - i,
    {
        let ghost before = v@;
        match gen_function(&nodes[i], label) {
            Ok((f, next)) => {
                v.push(f);
                label = next;
                assert(models(v@) == models(before).push(f@));
            },
            Err(e) => {
                proof {
                    lemma_functions_error_stays(nodes@, (i + 1) as nat, nodes.len() as nat);
                    lemma_program_lowers(nodes@);
                }
                return Err(e);
            },
        }
        i = i + 1;
    }
    proof {
        lemma_program_sound(nodes@);
        lemma_program_lowers(nodes@);
    }
    Ok(v)
}

} // verus!
