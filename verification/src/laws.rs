//! Laws of the code generator, stated over the compilation model and
//! proved once and for all: the register balance of expression
//! compilation, the safety of live registers, and the link between a
//! declaration and a later reference.

use vstd::prelude::*;

use crate::codegen::{cg_wf, sp_compile_args, sp_compile_block, sp_compile_expr, CgState, DiagView};
use crate::expr::{DeclInitView, ExprView, StmtView, UnaryOp};
use crate::riscv::{free_scratch_count, is_scratch, DataLabelView, InstrView, RState, Reg};
use crate::symtab::{lemma_lookup_push, sp_declared, sp_lookup, VarInitView};

verus! {

/// An expression with no call anywhere inside it.
pub open spec fn call_free(e: ExprView) -> bool
    decreases e,
{
    match e {
        ExprView::Lit(_) => true,
        ExprView::String(_) => true,
        ExprView::Ident(_) => true,
        ExprView::Bin(l, _, r) => call_free(*l) && call_free(*r),
        ExprView::Call(_, _) => false,
        ExprView::Unary(_, operand) => call_free(*operand),
    }
}

/// Diagnostics only accumulate, and a compilation that reported
/// nothing new succeeded: its result register is `a0` (leaving the
/// register table unchanged) or a scratch register that was free and
/// is now the one new used entry.
#[verifier::rlimit(60)]
pub proof fn lemma_compile_expr_balance(e: ExprView, c: CgState)
    requires
        cg_wf(c),
    ensures
        ({
            let o = sp_compile_expr(e, c);
            &&& c.diags.is_prefix_of(o.c.diags)
            &&& (o.c.diags == c.diags ==> {
                &&& o.res is Some
                &&& (o.res->Some_0 == Reg(10) ==> o.c.regs == c.regs)
                &&& (o.res->Some_0 != Reg(10) ==> {
                    let r = o.res->Some_0;
                    &&& is_scratch(r.0 as int)
                    &&& c.regs[r.0 as int] == RState::Free
                    &&& o.c.regs == c.regs.update(r.0 as int, RState::Used)
                })
            })
        }),
    decreases e, 0nat,
{
    let o = sp_compile_expr(e, c);
    crate::codegen::lemma_compile_expr_regs(e, c);
    match e {
        ExprView::Lit(_) => {},
        ExprView::Ident(_) => {},
        ExprView::String(_) => {},
        ExprView::Bin(l, op, r) => {
            lemma_compile_expr_balance(*r, c);
            let right = sp_compile_expr(*r, c);
            crate::codegen::lemma_compile_expr_regs(*r, c);
            lemma_compile_expr_balance(*l, right.c);
            let left = sp_compile_expr(*l, right.c);
            crate::codegen::lemma_compile_expr_regs(*l, right.c);
            if o.c.diags == c.diags {
                assert(right.c.diags == c.diags);
                assert(left.c.diags == c.diags);
                let lr = left.res->Some_0;
                let rr = right.res->Some_0;
                assert(!is_scratch(10));
                assert(c.regs[10] == RState::Free);
                assert(lr != rr || lr == Reg(10));
                match op {
                    crate::expr::BinOp::Greater => {
                        // the value ends in the right operand's register
                        if rr == Reg(10) {
                            if lr == Reg(10) {
                                assert(o.c.regs =~= c.regs);
                            } else {
                                assert(o.c.regs =~= c.regs);
                            }
                        } else {
                            if lr == Reg(10) {
                                assert(o.c.regs =~= c.regs.update(rr.0 as int, RState::Used));
                            } else {
                                assert(o.c.regs =~= c.regs.update(rr.0 as int, RState::Used));
                            }
                        }
                    },
                    _ => {
                        // the value ends in the left operand's register
                        if lr == Reg(10) {
                            if rr == Reg(10) {
                                assert(o.c.regs =~= c.regs);
                            } else {
                                assert(o.c.regs =~= c.regs);
                            }
                        } else {
                            if rr == Reg(10) {
                                assert(o.c.regs =~= c.regs.update(lr.0 as int, RState::Used));
                            } else {
                                assert(c.regs[lr.0 as int] == RState::Free);
                                assert(o.c.regs =~= c.regs.update(lr.0 as int, RState::Used));
                            }
                        }
                    },
                }
            }
        },
        ExprView::Call(name, args) => {
            lemma_compile_args_balance(args, 0, c);
        },
        ExprView::Unary(op, operand) => {
            match op {
                UnaryOp::Addr => {},
                _ => {
                    lemma_compile_expr_balance(*operand, c);
                },
            }
        },
    }
}

/// The same for an argument list: no new diagnostic means every
/// argument compiled, and every temporary was freed again.
pub proof fn lemma_compile_args_balance(args: Seq<ExprView>, idx: int, c: CgState)
    requires
        cg_wf(c),
    ensures
        ({
            let o = sp_compile_args(args, idx, c);
            &&& c.diags.is_prefix_of(o.c.diags)
            &&& (o.c.diags == c.diags ==> o.all_ok && o.c.regs == c.regs)
        }),
    decreases args, args.len() - idx,
{
    let o = sp_compile_args(args, idx, c);
    if idx < 0 || idx >= args.len() {
    } else {
        lemma_compile_expr_balance(args[idx], c);
        crate::codegen::lemma_compile_expr_regs(args[idx], c);
        let a = sp_compile_expr(args[idx], c);
        match a.res {
            Some(r) => {
                let freed = crate::codegen::sp_free(a.c, r);
                crate::codegen::lemma_compile_expr_regs(args[idx], c);
                assert(cg_wf(freed));
                lemma_compile_args_balance(args, idx + 1, freed);
                if o.c.diags == c.diags {
                    assert(a.c.diags == c.diags);
                    assert(freed.diags == c.diags);
                    assert(!is_scratch(10));
                    assert(c.regs[10] == RState::Free);
                    if r == Reg(10) {
                        assert(a.c.regs == c.regs);
                        assert(freed.regs =~= c.regs);
                    } else {
                        assert(c.regs[r.0 as int] == RState::Free);
                        assert(freed.regs =~= c.regs);
                    }
                }
            },
            None => {
                lemma_compile_args_balance(args, idx + 1, a.c);
                if o.c.diags == c.diags {
                    assert(a.c.diags == c.diags);
                    assert(a.res is Some);
                    assert(false);
                }
            },
        }
    }
}

/// A call-free expression never leaves its result in `a0`.
proof fn lemma_call_free_result(e: ExprView, c: CgState)
    requires
        cg_wf(c),
        call_free(e),
    ensures
        ({
            let o = sp_compile_expr(e, c);
            o.res matches Some(r) ==> r != Reg(10)
        }),
    decreases e, 0nat,
{
    match e {
        ExprView::Bin(l, op, r) => {
            lemma_call_free_result(*r, c);
            let right = sp_compile_expr(*r, c);
            crate::codegen::lemma_compile_expr_regs(*r, c);
            lemma_call_free_result(*l, right.c);
        },
        ExprView::Unary(op, operand) => {
            match op {
                UnaryOp::Addr => {},
                _ => {
                    lemma_call_free_result(*operand, c);
                },
            }
        },
        _ => {},
    }
}

/// Register balance: compiling a call-free expression that reports no
/// diagnostic allocates exactly one register, the one holding the
/// result, and the allocator's free count drops by exactly one.
///
/// A call is the one exception: its result lives in the argument
/// register `a0` by convention, so compiling `f()` leaves the free
/// count unchanged.
pub proof fn lemma_register_balance(e: ExprView, c: CgState)
    requires
        cg_wf(c),
        call_free(e),
        sp_compile_expr(e, c).c.diags == c.diags,
    ensures
        ({
            let o = sp_compile_expr(e, c);
            &&& o.res is Some
            &&& is_scratch(o.res->Some_0.0 as int)
            &&& o.c.regs == c.regs.update(o.res->Some_0.0 as int, RState::Used)
            &&& free_scratch_count(o.c.regs) == free_scratch_count(c.regs) - 1
        }),
{
    lemma_compile_expr_balance(e, c);
    lemma_call_free_result(e, c);
    let o = sp_compile_expr(e, c);
    let r = o.res->Some_0;
    assert(o.c.regs == c.regs.update(r.0 as int, RState::Used));
    assert(free_scratch_count(o.c.regs) == free_scratch_count(c.regs) - 1);
}

/// Which scratch register an emitted instruction writes, if any.
pub open spec fn instr_writes(i: InstrView, r: int) -> bool {
    match i {
        InstrView::Li(d, _) => d.0 as int == r,
        InstrView::La(d, _) => d.0 as int == r,
        InstrView::Lw(d, _) => d.0 as int == r,
        InstrView::LwInd(d, _) => d.0 as int == r,
        InstrView::Sw(_, _, _) => false,
        InstrView::Op(_, d, _) => d.0 as int == r,
        InstrView::Neg(d) => d.0 as int == r,
        InstrView::Seqz(d, _) => d.0 as int == r,
        InstrView::Xori(d, _, _) => d.0 as int == r,
        InstrView::MvArg(_, _) => false,
        InstrView::Call(_) => false,
        InstrView::Beqz(_, _) => false,
        InstrView::Jump(_) => false,
        InstrView::Label(_) => false,
    }
}

/// Exhaustion safety: however an expression compiles — including when
/// the allocator runs out — no emitted instruction writes a scratch
/// register that was already in use when compilation began. A live
/// value is never silently corrupted; exhaustion surfaces as a failed
/// compilation instead.
pub proof fn lemma_no_register_corruption(e: ExprView, c: CgState)
    requires
        cg_wf(c),
    ensures
        ({
            let o = sp_compile_expr(e, c);
            forall|j: int, k: int|
                #![trigger o.code[j], c.regs[k]]
                0 <= j < o.code.len() && is_scratch(k) && c.regs[k] == RState::Used
                    ==> !instr_writes(o.code[j], k)
        }),
    decreases e, 0nat,
{
    let o = sp_compile_expr(e, c);
    crate::codegen::lemma_compile_expr_regs(e, c);
    match e {
        ExprView::Lit(_) => {},
        ExprView::Ident(_) => {},
        ExprView::String(_) => {},
        ExprView::Bin(l, op, r) => {
            lemma_no_register_corruption(*r, c);
            let right = sp_compile_expr(*r, c);
            crate::codegen::lemma_compile_expr_regs(*r, c);
            lemma_no_register_corruption(*l, right.c);
            let left = sp_compile_expr(*l, right.c);
            crate::codegen::lemma_compile_expr_regs(*l, right.c);
            assert forall|j: int, k: int|
                #![trigger o.code[j], c.regs[k]]
                0 <= j < o.code.len() && is_scratch(k) && c.regs[k] == RState::Used implies
                !instr_writes(o.code[j], k) by {
                assert(right.c.regs[k] == RState::Used);
                if j < right.code.len() {
                    assert(o.code[j] == right.code[j]);
                } else if j < right.code.len() + left.code.len() {
                    assert(o.code[j] == left.code[j - right.code.len()]);
                }
            }
        },
        ExprView::Call(name, args) => {
            lemma_args_no_register_corruption(args, 0, c);
            let a = sp_compile_args(args, 0, c);
            assert forall|j: int, k: int|
                #![trigger o.code[j], c.regs[k]]
                0 <= j < o.code.len() && is_scratch(k) && c.regs[k] == RState::Used implies
                !instr_writes(o.code[j], k) by {
                if j < a.code.len() {
                    assert(o.code[j] == a.code[j]);
                }
            }
        },
        ExprView::Unary(op, operand) => {
            match op {
                UnaryOp::Addr => {},
                _ => {
                    lemma_no_register_corruption(*operand, c);
                    let inner = sp_compile_expr(*operand, c);
                    crate::codegen::lemma_compile_expr_regs(*operand, c);
                    assert forall|j: int, k: int|
                        #![trigger o.code[j], c.regs[k]]
                        0 <= j < o.code.len() && is_scratch(k) && c.regs[k] == RState::Used implies
                        !instr_writes(o.code[j], k) by {
                        if j < inner.code.len() {
                            assert(o.code[j] == inner.code[j]);
                        }
                    }
                },
            }
        },
    }
}

/// The same for an argument list.
pub proof fn lemma_args_no_register_corruption(args: Seq<ExprView>, idx: int, c: CgState)
    requires
        cg_wf(c),
    ensures
        ({
            let o = sp_compile_args(args, idx, c);
            forall|j: int, k: int|
                #![trigger o.code[j], c.regs[k]]
                0 <= j < o.code.len() && is_scratch(k) && c.regs[k] == RState::Used
                    ==> !instr_writes(o.code[j], k)
        }),
    decreases args, args.len() - idx,
{
    let o = sp_compile_args(args, idx, c);
    if idx < 0 || idx >= args.len() {
    } else {
        lemma_no_register_corruption(args[idx], c);
        crate::codegen::lemma_compile_expr_regs(args[idx], c);
        let a = sp_compile_expr(args[idx], c);
        match a.res {
            Some(r) => {
                let freed = crate::codegen::sp_free(a.c, r);
                lemma_args_no_register_corruption(args, idx + 1, freed);
                let rest = sp_compile_args(args, idx + 1, freed);
                assert forall|j: int, k: int|
                    #![trigger o.code[j], c.regs[k]]
                    0 <= j < o.code.len() && is_scratch(k) && c.regs[k] == RState::Used implies
                    !instr_writes(o.code[j], k) by {
                    assert(a.c.regs[k] == RState::Used);
                    assert(freed.regs[k] == RState::Used);
                    if j < a.code.len() {
                        assert(o.code[j] == a.code[j]);
                    } else if j == a.code.len() {
                        assert(o.code[j] == InstrView::MvArg(idx, r));
                    } else {
                        assert(o.code[j] == rest.code[j - a.code.len() - 1]);
                    }
                }
            },
            None => {
                lemma_args_no_register_corruption(args, idx + 1, a.c);
                let rest = sp_compile_args(args, idx + 1, a.c);
                assert forall|j: int, k: int|
                    #![trigger o.code[j], c.regs[k]]
                    0 <= j < o.code.len() && is_scratch(k) && c.regs[k] == RState::Used implies
                    !instr_writes(o.code[j], k) by {
                    assert(a.c.regs[k] == RState::Used);
                    if j < a.code.len() {
                        assert(o.code[j] == a.code[j]);
                    } else {
                        assert(o.code[j] == rest.code[j - a.code.len()]);
                    }
                }
            },
        }
    }
}

/// The larger of two numbers.
pub open spec fn max2(a: int, b: int) -> int {
    if a > b {
        a
    } else {
        b
    }
}

/// Whether an expression's value occupies a scratch register (a call
/// chain leaves its value in `a0` instead; greater takes its value
/// from the right operand's register, every other operator from the
/// left one).
pub open spec fn holds_scratch(e: ExprView) -> int
    decreases e,
{
    match e {
        ExprView::Call(_, _) => 0,
        ExprView::Unary(op, operand) => if op is Addr {
            1
        } else {
            holds_scratch(*operand)
        },
        ExprView::Bin(l, op, r) => if op is Greater {
            holds_scratch(*r)
        } else {
            holds_scratch(*l)
        },
        _ => 1,
    }
}

/// The register pressure of an expression: how many scratch registers
/// must be simultaneously live to compile it. The right operand of a
/// binary node is compiled first, so the left one is compiled with the
/// right value still held.
pub open spec fn regs_needed(e: ExprView) -> int
    decreases e, 0nat,
{
    match e {
        ExprView::Lit(_) => 1,
        ExprView::String(_) => 1,
        ExprView::Ident(_) => 1,
        ExprView::Bin(l, _, r) => max2(regs_needed(*r), holds_scratch(*r) + regs_needed(*l)),
        ExprView::Call(_, args) => args_needed(args, 0),
        ExprView::Unary(op, operand) => if op is Addr {
            1
        } else {
            regs_needed(*operand)
        },
    }
}

/// The pressure of an argument list from position `idx` on: each
/// argument's value is freed before the next one is compiled.
pub open spec fn args_needed(args: Seq<ExprView>, idx: int) -> int
    decreases args, args.len() - idx,
{
    if idx < 0 || idx >= args.len() {
        0
    } else {
        max2(regs_needed(args[idx]), args_needed(args, idx + 1))
    }
}

/// An expression free of semantic errors against the given variable
/// table: every name is declared and address-of is only applied to a
/// declared variable.
pub open spec fn sem_ok(e: ExprView, vars: Seq<(Seq<char>, VarInitView)>) -> bool
    decreases e, 0nat,
{
    match e {
        ExprView::Lit(_) => true,
        ExprView::String(_) => true,
        ExprView::Ident(name) => sp_lookup(vars, name) is Some,
        ExprView::Bin(l, _, r) => sem_ok(*l, vars) && sem_ok(*r, vars),
        ExprView::Call(_, args) => args_sem_ok(args, 0, vars),
        ExprView::Unary(op, operand) => if op is Addr {
            match *operand {
                ExprView::Ident(name) => sp_lookup(vars, name) is Some,
                _ => false,
            }
        } else {
            sem_ok(*operand, vars)
        },
    }
}

pub open spec fn args_sem_ok(
    args: Seq<ExprView>,
    idx: int,
    vars: Seq<(Seq<char>, VarInitView)>,
) -> bool
    decreases args, args.len() - idx,
{
    if idx < 0 || idx >= args.len() {
        true
    } else {
        sem_ok(args[idx], vars) && args_sem_ok(args, idx + 1, vars)
    }
}

/// An exhaustion diagnostic was appended somewhere after the old ones.
pub open spec fn reports_exhaustion(old_d: Seq<DiagView>, new_d: Seq<DiagView>) -> bool {
    exists|i: int| old_d.len() <= i < new_d.len() && #[trigger] new_d[i] is RegExhausted
}

/// Exhaustion is deterministic: an expression free of semantic errors
/// either fits in the free scratch registers and compiles to a value,
/// or needs more than are free and reports register exhaustion.
pub proof fn lemma_exhaustion(e: ExprView, c: CgState)
    requires
        cg_wf(c),
        sem_ok(e, c.st.vars),
    ensures
        ({
            let o = sp_compile_expr(e, c);
            let f = free_scratch_count(c.regs);
            &&& o.c.st.vars == c.st.vars
            &&& c.diags.is_prefix_of(o.c.diags)
            &&& (regs_needed(e) <= f ==> {
                &&& o.res is Some
                &&& (holds_scratch(e) == 0 ==> o.res->Some_0 == Reg(10) && o.c.regs == c.regs)
                &&& (holds_scratch(e) == 1 ==> {
                    let r = o.res->Some_0;
                    &&& is_scratch(r.0 as int)
                    &&& c.regs[r.0 as int] == RState::Free
                    &&& o.c.regs == c.regs.update(r.0 as int, RState::Used)
                })
            })
            &&& (regs_needed(e) > f ==> reports_exhaustion(c.diags, o.c.diags))
        }),
    decreases e, 0nat,
{
    let o = sp_compile_expr(e, c);
    let f = free_scratch_count(c.regs);
    crate::codegen::lemma_compile_expr_regs(e, c);
    match e {
        ExprView::Lit(_) => {
            if regs_needed(e) > f {
                assert(o.c.diags[c.diags.len() as int] is RegExhausted);
            }
        },
        ExprView::Ident(_) => {
            if regs_needed(e) > f {
                assert(o.c.diags[c.diags.len() as int] is RegExhausted);
            }
        },
        ExprView::String(_) => {
            if regs_needed(e) > f {
                assert(o.c.diags[c.diags.len() as int] is RegExhausted);
            }
        },
        ExprView::Bin(l, op, r) => {
            lemma_exhaustion(*r, c);
            let right = sp_compile_expr(*r, c);
            crate::codegen::lemma_compile_expr_regs(*r, c);
            lemma_exhaustion(*l, right.c);
            let left = sp_compile_expr(*l, right.c);
            crate::codegen::lemma_compile_expr_regs(*l, right.c);
            let p_r = regs_needed(*r);
            let p_l = regs_needed(*l);
            let h_r = holds_scratch(*r);
            let h_l = holds_scratch(*l);
            proof_holds_range(*r);
            proof_holds_range(*l);
            if regs_needed(e) <= f {
                // the right value fits, and the left compiles with it held
                assert(p_r <= f);
                let rr = right.res->Some_0;
                if h_r == 0 {
                    assert(right.c.regs == c.regs);
                } else {
                    assert(free_scratch_count(right.c.regs) == f - 1);
                }
                assert(p_l <= free_scratch_count(right.c.regs));
                let lr = left.res->Some_0;
                assert(!is_scratch(10));
                assert(c.regs[10] == RState::Free);
                match op {
                    crate::expr::BinOp::Greater => {
                        if h_r == 0 {
                            if h_l == 0 {
                                assert(o.c.regs =~= c.regs);
                            } else {
                                assert(o.c.regs =~= c.regs);
                            }
                        } else {
                            if h_l == 0 {
                                assert(o.c.regs =~= c.regs.update(rr.0 as int, RState::Used));
                            } else {
                                assert(lr != rr);
                                assert(o.c.regs =~= c.regs.update(rr.0 as int, RState::Used));
                            }
                        }
                    },
                    _ => {
                        if h_l == 0 {
                            if h_r == 0 {
                                assert(o.c.regs =~= c.regs);
                            } else {
                                assert(o.c.regs =~= c.regs);
                            }
                        } else {
                            if h_r == 0 {
                                assert(o.c.regs =~= c.regs.update(lr.0 as int, RState::Used));
                            } else {
                                assert(lr != rr);
                                assert(c.regs[lr.0 as int] == RState::Free);
                                assert(o.c.regs =~= c.regs.update(lr.0 as int, RState::Used));
                            }
                        }
                    },
                }
            } else {
                // the deeper operand overflows the pool
                if p_r > f {
                    lemma_prefix_keeps_exhaustion(c.diags, right.c.diags, left.c.diags);
                    lemma_prefix_keeps_exhaustion(c.diags, left.c.diags, o.c.diags);
                } else {
                    let rr = right.res->Some_0;
                    if h_r == 0 {
                        assert(right.c.regs == c.regs);
                        assert(p_l > free_scratch_count(right.c.regs));
                    } else {
                        assert(free_scratch_count(right.c.regs) == f - 1);
                        assert(p_l > free_scratch_count(right.c.regs));
                    }
                    lemma_prefix_keeps_exhaustion(right.c.diags, left.c.diags, o.c.diags);
                    assert(reports_exhaustion(right.c.diags, left.c.diags));
                    lemma_exhaustion_window_widens(c.diags, right.c.diags, o.c.diags);
                }
            }
        },
        ExprView::Call(name, args) => {
            lemma_args_exhaustion(args, 0, c);
            let a = sp_compile_args(args, 0, c);
            if regs_needed(e) > f {
                lemma_prefix_keeps_exhaustion(c.diags, a.c.diags, o.c.diags);
            }
        },
        ExprView::Unary(op, operand) => {
            match op {
                UnaryOp::Addr => {
                    if regs_needed(e) > f {
                        assert(o.c.diags[c.diags.len() as int] is RegExhausted);
                    }
                },
                _ => {
                    lemma_exhaustion(*operand, c);
                },
            }
        },
    }
}

/// The value of an expression occupies zero or one scratch register.
proof fn proof_holds_range(e: ExprView)
    ensures
        0 <= holds_scratch(e) <= 1,
    decreases e,
{
    match e {
        ExprView::Unary(op, operand) => {
            if !(op is Addr) {
                proof_holds_range(*operand);
            }
        },
        ExprView::Bin(l, op, r) => {
            proof_holds_range(*l);
            proof_holds_range(*r);
        },
        _ => {},
    }
}

/// An exhaustion report inside a window survives appending more
/// diagnostics.
proof fn lemma_prefix_keeps_exhaustion(
    old_d: Seq<DiagView>,
    mid_d: Seq<DiagView>,
    new_d: Seq<DiagView>,
)
    requires
        reports_exhaustion(old_d, mid_d),
        mid_d.is_prefix_of(new_d),
    ensures
        reports_exhaustion(old_d, new_d),
{
    let i = choose|i: int| old_d.len() <= i < mid_d.len() && #[trigger] mid_d[i] is RegExhausted;
    assert(new_d[i] == mid_d[i]);
}

/// An exhaustion report over a later window is one over a wider
/// window.
proof fn lemma_exhaustion_window_widens(
    old_d: Seq<DiagView>,
    mid_d: Seq<DiagView>,
    new_d: Seq<DiagView>,
)
    requires
        reports_exhaustion(mid_d, new_d),
        old_d.len() <= mid_d.len(),
    ensures
        reports_exhaustion(old_d, new_d),
{
    let i = choose|i: int| mid_d.len() <= i < new_d.len() && #[trigger] new_d[i] is RegExhausted;
    assert(old_d.len() <= i < new_d.len());
}

/// The same for an argument list: every argument either fits and its
/// temporary is freed again, or register exhaustion is reported.
pub proof fn lemma_args_exhaustion(args: Seq<ExprView>, idx: int, c: CgState)
    requires
        cg_wf(c),
        args_sem_ok(args, idx, c.st.vars),
    ensures
        ({
            let o = sp_compile_args(args, idx, c);
            let f = free_scratch_count(c.regs);
            &&& o.c.st.vars == c.st.vars
            &&& c.diags.is_prefix_of(o.c.diags)
            &&& (args_needed(args, idx) <= f ==> o.all_ok && o.c.regs == c.regs)
            &&& (args_needed(args, idx) > f ==> reports_exhaustion(c.diags, o.c.diags))
        }),
    decreases args, args.len() - idx,
{
    let o = sp_compile_args(args, idx, c);
    let f = free_scratch_count(c.regs);
    if idx < 0 || idx >= args.len() {
    } else {
        lemma_exhaustion(args[idx], c);
        crate::codegen::lemma_compile_expr_regs(args[idx], c);
        let a = sp_compile_expr(args[idx], c);
        proof_holds_range(args[idx]);
        match a.res {
            Some(r) => {
                let freed = crate::codegen::sp_free(a.c, r);
                assert(cg_wf(freed));
                lemma_args_exhaustion(args, idx + 1, freed);
                let rest = sp_compile_args(args, idx + 1, freed);
                assert(!is_scratch(10));
                assert(c.regs[10] == RState::Free);
                if regs_needed(args[idx]) <= f {
                    // this argument fits and hands its register back
                    if holds_scratch(args[idx]) == 0 {
                        assert(freed.regs =~= c.regs);
                    } else {
                        assert(freed.regs =~= c.regs);
                    }
                    if args_needed(args, idx) > f {
                        assert(args_needed(args, idx + 1) > f);
                        lemma_exhaustion_window_widens(c.diags, freed.diags, o.c.diags);
                    }
                } else {
                    // impossible: pressure above the pool cannot succeed
                    // without a report, but the report may come from a
                    // nested call argument while this one still yields
                    assert(args_needed(args, idx) > f);
                    lemma_prefix_keeps_exhaustion(c.diags, a.c.diags, o.c.diags);
                }
            },
            None => {
                lemma_args_exhaustion(args, idx + 1, a.c);
                let rest = sp_compile_args(args, idx + 1, a.c);
                if args_needed(args, idx) > f {
                    if regs_needed(args[idx]) > f {
                        lemma_prefix_keeps_exhaustion(c.diags, a.c.diags, o.c.diags);
                    } else {
                        assert(a.res is Some);
                        assert(false);
                    }
                }
            },
        }
    }
}

/// A well-formed declaration `let x = n;` followed by a reference to
/// `x` records `x` in the data section with initial value `n`, and
/// compiles the reference to exactly one load from `x`'s storage
/// label.
pub proof fn lemma_decl_then_reference(x: Seq<char>, n: int, c: CgState)
    requires
        cg_wf(c),
        !sp_declared(c.st, x),
        free_scratch_count(c.regs) > 0,
    ensures
        ({
            let prog = seq![
                StmtView::Decl(x, DeclInitView::Int(n)),
                StmtView::ExprStmt(ExprView::Ident(x)),
            ];
            let o = sp_compile_block(prog, c);
            &&& sp_lookup(o.c.st.vars, x) is Some
            &&& o.c.st.vars[sp_lookup(o.c.st.vars, x)->Some_0] == (x, VarInitView::Int(n))
            &&& o.code.len() == 1
            &&& (o.code[0] matches InstrView::Lw(_, lbl) && lbl == DataLabelView::Var(x))
        }),
{
    let prog = seq![
        StmtView::Decl(x, DeclInitView::Int(n)),
        StmtView::ExprStmt(ExprView::Ident(x)),
    ];
    let o = sp_compile_block(prog, c);
    lemma_two_stmt_block_unfold(prog, c);
    lemma_lookup_push(c.st.vars, x, VarInitView::Int(n));
    let first = crate::codegen::sp_compile_stmt(prog[0], c);
    assert(first.c.st.vars == c.st.vars.push((x, VarInitView::Int(n))));
    assert(sp_lookup(first.c.st.vars, x) == Some(c.st.vars.len() as int));
    assert(first.code == Seq::<InstrView>::empty());
    let tail = prog.subrange(1, 2);
    assert(tail[0] == prog[1]);
    let second = crate::codegen::sp_compile_stmt(tail[0], first.c);
    let rest = sp_compile_block(tail, first.c);
    assert(tail.subrange(1, 2 - 1) =~= Seq::<StmtView>::empty());
    let empty_out = sp_compile_block(Seq::<StmtView>::empty(), second.c);
    assert(empty_out.code == Seq::<InstrView>::empty());
    assert(rest.code == second.code + empty_out.code);
    let eo = sp_compile_expr(ExprView::Ident(x), first.c);
    assert(free_scratch_count(first.c.regs) > 0);
    assert(eo.res is Some);
    assert(eo.code.len() == 1);
    assert(second.code == eo.code);
    assert(o.code =~= first.code + rest.code);
    assert(o.code.len() == 1);
    assert(o.code[0] == eo.code[0]);
    assert(o.c.st.vars == first.c.st.vars);
    assert(o.c.st.vars[c.st.vars.len() as int] == (x, VarInitView::Int(n)));
}

/// One unfolding of a two-statement block.
proof fn lemma_two_stmt_block_unfold(prog: Seq<StmtView>, c: CgState)
    requires
        prog.len() == 2,
    ensures
        ({
            let first = crate::codegen::sp_compile_stmt(prog[0], c);
            let rest = sp_compile_block(prog.subrange(1, 2), first.c);
            sp_compile_block(prog, c).c == rest.c && sp_compile_block(prog, c).code == first.code
                + rest.code
        }),
{
}

} // verus!
