//! The code generator: a single linear walk over the statement list
//! that emits instructions, consulting the symbol table, the register
//! allocator and the label counter.
//!
//! `sp_compile_expr` / `sp_compile_stmt` / `sp_compile_block` are the
//! mathematical model of the walk; the executable `Compiler` methods
//! are proved to produce exactly the model's instructions, state and
//! diagnostics.

use vstd::prelude::*;

use crate::expr::{block_view, expr_view, BinOp, Block, DeclInit, Expr, ExprView, Stmt, StmtView, UnaryOp};
use crate::riscv::{
    is_scratch, regs_wf, simple_mnem, sp_get_reg, sp_next_label, DataLabel, DataLabelView, Instr,
    InstrView, LabelCounter, Mnem, Reg, RegMap, RState,
};
use crate::symtab::{sp_decl, sp_intern, sp_lookup, SymTab, SymTabView, VarInit, VarInitView};

verus! {

/// A diagnostic reported while generating code. Lex and syntax errors
/// are recovered inside the parser; these are the semantic errors of
/// the single code-generation pass.
#[derive(Debug)]
pub enum Diag {
    /// A `let` for a name that is already declared.
    Redeclaration(String),
    /// A reference to or assignment of an undeclared variable.
    VarNotFound(String),
    /// All seven scratch registers are in use.
    RegExhausted,
    /// An argument of the call failed to compile.
    CallFailed(String),
    /// An integer literal outside the 32-bit range (a warning: the
    /// instruction is still emitted).
    ImmOutOfRange(i64),
    /// `&` applied to an integer literal.
    AddrOfImmediate,
    /// `&` applied to a string literal.
    AddrOfString,
    /// `&` applied to anything but a bare variable.
    AddrOfTemporary,
}

/// Mathematical view of `Diag`.
pub enum DiagView {
    Redeclaration(Seq<char>),
    VarNotFound(Seq<char>),
    RegExhausted,
    CallFailed(Seq<char>),
    ImmOutOfRange(int),
    AddrOfImmediate,
    AddrOfString,
    AddrOfTemporary,
}

impl View for Diag {
    type V = DiagView;

    open spec fn view(&self) -> DiagView {
        match self {
            Diag::Redeclaration(s) => DiagView::Redeclaration(s@),
            Diag::VarNotFound(s) => DiagView::VarNotFound(s@),
            Diag::RegExhausted => DiagView::RegExhausted,
            Diag::CallFailed(s) => DiagView::CallFailed(s@),
            Diag::ImmOutOfRange(n) => DiagView::ImmOutOfRange(*n as int),
            Diag::AddrOfImmediate => DiagView::AddrOfImmediate,
            Diag::AddrOfString => DiagView::AddrOfString,
            Diag::AddrOfTemporary => DiagView::AddrOfTemporary,
        }
    }
}

impl DeepView for Diag {
    type V = DiagView;

    open spec fn deep_view(&self) -> DiagView {
        self.view()
    }
}

/// The state the code generator threads through the walk: the symbol
/// table, the register table, the label counter and the diagnostics
/// reported so far.
#[verifier::ext_equal]
pub struct CgState {
    pub st: SymTabView,
    pub regs: Seq<RState>,
    pub labels: nat,
    pub diags: Seq<DiagView>,
}

/// Result of compiling one expression: the new state, the emitted
/// instructions, and the register holding the value (none when the
/// expression failed to compile).
pub struct ExprOut {
    pub c: CgState,
    pub code: Seq<InstrView>,
    pub res: Option<Reg>,
}

/// Result of compiling an argument list.
pub struct ArgsOut {
    pub c: CgState,
    pub code: Seq<InstrView>,
    pub all_ok: bool,
}

/// Result of compiling a statement or block.
pub struct StmtOut {
    pub c: CgState,
    pub code: Seq<InstrView>,
}

/// Well-formedness the walk preserves: a 32-entry register table whose
/// non-scratch registers are free.
pub open spec fn cg_wf(c: CgState) -> bool {
    regs_wf(c.regs)
}

/// A diagnostic is recorded by appending it.
pub open spec fn sp_diag(c: CgState, d: DiagView) -> CgState {
    CgState { st: c.st, regs: c.regs, labels: c.labels, diags: c.diags.push(d) }
}

/// The model of `RegMap::get_reg` lifted to the generator state.
pub open spec fn sp_alloc(c: CgState) -> (Option<u8>, CgState) {
    let (r, regs) = sp_get_reg(c.regs);
    (r, CgState { st: c.st, regs, labels: c.labels, diags: c.diags })
}

/// The model of `RegMap::free_reg` lifted to the generator state.
pub open spec fn sp_free(c: CgState, r: Reg) -> CgState {
    CgState {
        st: c.st,
        regs: c.regs.update(r.0 as int, RState::Free),
        labels: c.labels,
        diags: c.diags,
    }
}

/// The model of `LabelCounter::next` lifted to the generator state.
pub open spec fn sp_label(c: CgState) -> (int, CgState) {
    (
        c.labels as int,
        CgState { st: c.st, regs: c.regs, labels: sp_next_label(c.labels), diags: c.diags },
    )
}

/// An integer literal outside the 32-bit range draws a warning.
pub open spec fn imm_in_range(val: int) -> bool {
    i32::MIN <= val <= u32::MAX
}

/// What compiling one expression emits and returns.
///
/// The right operand of a binary expression is compiled before the
/// left one; both are compiled even if one fails. Equality lowers to
/// `xor` then `seqz`; greater lowers to `sltu` with the operands
/// swapped, leaving its value in the right operand's register. A call
/// copies each argument value into its positional argument register
/// and leaves its result in `a0` by convention.
pub open spec fn sp_compile_expr(e: ExprView, c: CgState) -> ExprOut
    decreases e, 0nat,
{
    match e {
        ExprView::Lit(val) => {
            let (r, c1) = sp_alloc(c);
            match r {
                None => ExprOut { c: sp_diag(c1, DiagView::RegExhausted), code: seq![], res: None },
                Some(reg) => {
                    let c2 = if imm_in_range(val) {
                        c1
                    } else {
                        sp_diag(c1, DiagView::ImmOutOfRange(val))
                    };
                    ExprOut { c: c2, code: seq![InstrView::Li(Reg(reg), val)], res: Some(Reg(reg)) }
                },
            }
        },
        ExprView::Bin(l, op, r) => {
            let right = sp_compile_expr(*r, c);
            let left = sp_compile_expr(*l, right.c);
            let code = right.code + left.code;
            match (left.res, right.res) {
                (Some(lr), Some(rr)) => {
                    match op {
                        BinOp::TestEq => ExprOut {
                            c: sp_free(left.c, rr),
                            code: code + seq![InstrView::Op(Mnem::Xor, lr, rr), InstrView::Seqz(lr, lr)],
                            res: Some(lr),
                        },
                        BinOp::Greater => ExprOut {
                            c: sp_free(left.c, lr),
                            code: code + seq![InstrView::Op(Mnem::Sltu, rr, lr)],
                            res: Some(rr),
                        },
                        _ => {
                            let m = simple_mnem(op)->Some_0;
                            ExprOut {
                                c: sp_free(left.c, rr),
                                code: code + seq![InstrView::Op(m, lr, rr)],
                                res: Some(lr),
                            }
                        },
                    }
                },
                _ => ExprOut { c: left.c, code, res: None },
            }
        },
        ExprView::Ident(name) => {
            match sp_lookup(c.st.vars, name) {
                None => ExprOut {
                    c: sp_diag(c, DiagView::VarNotFound(name)),
                    code: seq![],
                    res: None,
                },
                Some(_) => {
                    let (r, c1) = sp_alloc(c);
                    match r {
                        None => ExprOut {
                            c: sp_diag(c1, DiagView::RegExhausted),
                            code: seq![],
                            res: None,
                        },
                        Some(reg) => ExprOut {
                            c: c1,
                            code: seq![InstrView::Lw(Reg(reg), DataLabelView::Var(name))],
                            res: Some(Reg(reg)),
                        },
                    }
                },
            }
        },
        ExprView::Call(name, args) => {
            let a = sp_compile_args(args, 0, c);
            if a.all_ok {
                ExprOut {
                    c: a.c,
                    code: a.code + seq![InstrView::Call(name)],
                    res: Some(Reg(10)),
                }
            } else {
                ExprOut {
                    c: sp_diag(a.c, DiagView::CallFailed(name)),
                    code: a.code,
                    res: Some(Reg(10)),
                }
            }
        },
        ExprView::String(s) => {
            let (idx, st1) = sp_intern(c.st, s);
            let c1 = CgState { st: st1, regs: c.regs, labels: c.labels, diags: c.diags };
            let (r, c2) = sp_alloc(c1);
            match r {
                None => ExprOut { c: sp_diag(c2, DiagView::RegExhausted), code: seq![], res: None },
                Some(reg) => ExprOut {
                    c: c2,
                    code: seq![InstrView::La(Reg(reg), DataLabelView::Str(idx))],
                    res: Some(Reg(reg)),
                },
            }
        },
        ExprView::Unary(op, operand) => {
            match op {
                UnaryOp::Deref => {
                    let o = sp_compile_expr(*operand, c);
                    match o.res {
                        None => o,
                        Some(r) => ExprOut {
                            c: o.c,
                            code: o.code + seq![InstrView::LwInd(r, r)],
                            res: Some(r),
                        },
                    }
                },
                UnaryOp::BoolNot => {
                    let o = sp_compile_expr(*operand, c);
                    match o.res {
                        None => o,
                        Some(r) => ExprOut {
                            c: o.c,
                            code: o.code + seq![InstrView::Seqz(r, r)],
                            res: Some(r),
                        },
                    }
                },
                UnaryOp::Neg => {
                    let o = sp_compile_expr(*operand, c);
                    match o.res {
                        None => o,
                        Some(r) => ExprOut {
                            c: o.c,
                            code: o.code + seq![InstrView::Neg(r)],
                            res: Some(r),
                        },
                    }
                },
                UnaryOp::Not => {
                    let o = sp_compile_expr(*operand, c);
                    match o.res {
                        None => o,
                        Some(r) => ExprOut {
                            c: o.c,
                            code: o.code + seq![InstrView::Xori(r, r, -1)],
                            res: Some(r),
                        },
                    }
                },
                UnaryOp::Addr => {
                    match *operand {
                        ExprView::Lit(_) => ExprOut {
                            c: sp_diag(c, DiagView::AddrOfImmediate),
                            code: seq![],
                            res: None,
                        },
                        ExprView::String(_) => ExprOut {
                            c: sp_diag(c, DiagView::AddrOfString),
                            code: seq![],
                            res: None,
                        },
                        ExprView::Ident(name) => {
                            let (r, c1) = sp_alloc(c);
                            match r {
                                None => ExprOut {
                                    c: sp_diag(c1, DiagView::RegExhausted),
                                    code: seq![],
                                    res: None,
                                },
                                Some(reg) => {
                                    match sp_lookup(c1.st.vars, name) {
                                        None => ExprOut {
                                            c: sp_diag(c1, DiagView::VarNotFound(name)),
                                            code: seq![],
                                            res: None,
                                        },
                                        Some(_) => ExprOut {
                                            c: c1,
                                            code: seq![
                                                InstrView::La(Reg(reg), DataLabelView::Var(name)),
                                            ],
                                            res: Some(Reg(reg)),
                                        },
                                    }
                                },
                            }
                        },
                        _ => ExprOut {
                            c: sp_diag(c, DiagView::AddrOfTemporary),
                            code: seq![],
                            res: None,
                        },
                    }
                },
            }
        },
    }
}

/// Compiling the argument list of a call from position `idx` on: each
/// argument's value is copied into argument register `a<idx>` and its
/// scratch register is freed at once.
pub open spec fn sp_compile_args(args: Seq<ExprView>, idx: int, c: CgState) -> ArgsOut
    decreases args, args.len() - idx,
{
    if idx < 0 || idx >= args.len() {
        ArgsOut { c, code: seq![], all_ok: true }
    } else {
        let a = sp_compile_expr(args[idx], c);
        match a.res {
            Some(r) => {
                let rest = sp_compile_args(args, idx + 1, sp_free(a.c, r));
                ArgsOut {
                    c: rest.c,
                    code: a.code + seq![InstrView::MvArg(idx, r)] + rest.code,
                    all_ok: rest.all_ok,
                }
            },
            None => {
                let rest = sp_compile_args(args, idx + 1, a.c);
                ArgsOut { c: rest.c, code: a.code + rest.code, all_ok: false }
            },
        }
    }
}

/// What compiling one statement emits.
///
/// A declaration emits no code: the initializer is resolved (interning
/// a string initializer) and recorded for the data section. An
/// assignment stores the computed value through a second scratch
/// register holding the cell address. `if` and `while` lower to
/// branch-if-zero over fresh labels; a condition that failed to compile
/// branches on the zero register, so the statement's shape is kept.
pub open spec fn sp_compile_stmt(s: StmtView, c: CgState) -> StmtOut
    decreases s, 0nat,
{
    match s {
        StmtView::ExprStmt(e) => {
            let o = sp_compile_expr(e, c);
            match o.res {
                Some(r) => StmtOut { c: sp_free(o.c, r), code: o.code },
                None => StmtOut { c: o.c, code: o.code },
            }
        },
        StmtView::Decl(name, init) => {
            let (val, c1) = match init {
                crate::expr::DeclInitView::Str(contents) => {
                    let (idx, st1) = sp_intern(c.st, contents);
                    (
                        VarInitView::StrRef(idx),
                        CgState { st: st1, regs: c.regs, labels: c.labels, diags: c.diags },
                    )
                },
                crate::expr::DeclInitView::Int(v) => (VarInitView::Int(v), c),
            };
            let (ok, st2) = sp_decl(c1.st, name, val);
            let c2 = CgState { st: st2, regs: c1.regs, labels: c1.labels, diags: c1.diags };
            if ok {
                StmtOut { c: c2, code: seq![] }
            } else {
                StmtOut { c: sp_diag(c2, DiagView::Redeclaration(name)), code: seq![] }
            }
        },
        StmtView::Assignment(name, value) => {
            let o = sp_compile_expr(value, c);
            match o.res {
                None => StmtOut { c: o.c, code: o.code },
                Some(result) => {
                    match sp_lookup(o.c.st.vars, name) {
                        None => StmtOut {
                            c: sp_diag(o.c, DiagView::VarNotFound(name)),
                            code: o.code,
                        },
                        Some(_) => {
                            let (ar, c1) = sp_alloc(o.c);
                            match ar {
                                None => StmtOut {
                                    c: sp_diag(c1, DiagView::RegExhausted),
                                    code: o.code,
                                },
                                Some(addr_reg) => StmtOut {
                                    c: sp_free(sp_free(c1, result), Reg(addr_reg)),
                                    code: o.code + seq![
                                        InstrView::Sw(
                                            result,
                                            DataLabelView::Var(name),
                                            Reg(addr_reg),
                                        ),
                                    ],
                                },
                            }
                        },
                    }
                },
            }
        },
        StmtView::If(cond, tb, eb) => {
            let co = sp_compile_expr(cond, c);
            let (false_label, c1) = sp_label(co.c);
            let branch_reg = match co.res {
                Some(r) => r,
                None => Reg(0),
            };
            let c2 = match co.res {
                Some(r) => sp_free(c1, r),
                None => c1,
            };
            let head = co.code + seq![InstrView::Beqz(branch_reg, false_label)];
            let t = sp_compile_block(tb, c2);
            match eb {
                Some(else_stmts) => {
                    let f = sp_compile_block(else_stmts, t.c);
                    let (end_label, c3) = sp_label(f.c);
                    StmtOut {
                        c: c3,
                        code: head + t.code + seq![
                            InstrView::Jump(end_label),
                            InstrView::Label(false_label),
                        ] + f.code + seq![InstrView::Label(end_label)],
                    }
                },
                None => StmtOut {
                    c: t.c,
                    code: head + t.code + seq![InstrView::Label(false_label)],
                },
            }
        },
        StmtView::While(cond, body) => {
            let (loop_label, c1) = sp_label(c);
            let co = sp_compile_expr(cond, c1);
            let (false_label, c2) = sp_label(co.c);
            let branch_reg = match co.res {
                Some(r) => r,
                None => Reg(0),
            };
            let c3 = match co.res {
                Some(r) => sp_free(c2, r),
                None => c2,
            };
            let b = sp_compile_block(body, c3);
            StmtOut {
                c: b.c,
                code: seq![InstrView::Label(loop_label)] + co.code + seq![
                    InstrView::Beqz(branch_reg, false_label),
                ] + b.code + seq![InstrView::Jump(loop_label), InstrView::Label(false_label)],
            }
        },
    }
}

/// Compiling a block compiles its statements in order.
pub open spec fn sp_compile_block(ss: Seq<StmtView>, c: CgState) -> StmtOut
    decreases ss, 0nat,
{
    if ss.len() == 0 {
        StmtOut { c, code: seq![] }
    } else {
        let first = sp_compile_stmt(ss[0], c);
        let rest = sp_compile_block(ss.subrange(1, ss.len() as int), first.c);
        StmtOut { c: rest.c, code: first.code + rest.code }
    }
}

/// The register discipline of expression compilation: well-formedness
/// of the register table is preserved, a register that is in use when
/// compilation starts is never freed or reused, and a successful
/// result lives either in `a0` or in a scratch register that was free
/// at entry and is in use at exit.
pub proof fn lemma_compile_expr_regs(e: ExprView, c: CgState)
    requires
        cg_wf(c),
    ensures
        ({
            let o = sp_compile_expr(e, c);
            &&& cg_wf(o.c)
            &&& forall|i: int|
                0 <= i < 32 && c.regs[i] == RState::Used ==> o.c.regs[i] == RState::Used
            &&& (o.res matches Some(r) ==> r == Reg(10) || (is_scratch(r.0 as int)
                && c.regs[r.0 as int] == RState::Free && o.c.regs[r.0 as int] == RState::Used))
        }),
    decreases e, 0nat,
{
    let o = sp_compile_expr(e, c);
    match e {
        ExprView::Lit(_) => {
            assert forall|i: int| 0 <= i < 32 && c.regs[i] == RState::Used implies o.c.regs[i]
                == RState::Used by {}
        },
        ExprView::Bin(l, op, r) => {
            lemma_compile_expr_regs(*r, c);
            let right = sp_compile_expr(*r, c);
            lemma_compile_expr_regs(*l, right.c);
            let left = sp_compile_expr(*l, right.c);
            assert forall|i: int| 0 <= i < 32 && c.regs[i] == RState::Used implies o.c.regs[i]
                == RState::Used by {
                assert(right.c.regs[i] == RState::Used);
                assert(left.c.regs[i] == RState::Used);
                assert(is_scratch(i));
            }
        },
        ExprView::Ident(_) => {
            assert forall|i: int| 0 <= i < 32 && c.regs[i] == RState::Used implies o.c.regs[i]
                == RState::Used by {}
        },
        ExprView::Call(name, args) => {
            lemma_compile_args_regs(args, 0, c);
            let a = sp_compile_args(args, 0, c);
            assert forall|i: int| 0 <= i < 32 && c.regs[i] == RState::Used implies o.c.regs[i]
                == RState::Used by {
                assert(a.c.regs[i] == RState::Used);
            }
        },
        ExprView::String(s) => {
            assert forall|i: int| 0 <= i < 32 && c.regs[i] == RState::Used implies o.c.regs[i]
                == RState::Used by {}
        },
        ExprView::Unary(op, operand) => {
            match op {
                UnaryOp::Addr => {
                    assert forall|i: int| 0 <= i < 32 && c.regs[i] == RState::Used implies
                        o.c.regs[i] == RState::Used by {}
                },
                _ => {
                    lemma_compile_expr_regs(*operand, c);
                    let inner = sp_compile_expr(*operand, c);
                    assert forall|i: int| 0 <= i < 32 && c.regs[i] == RState::Used implies
                        o.c.regs[i] == RState::Used by {
                        assert(inner.c.regs[i] == RState::Used);
                    }
                },
            }
        },
    }
}

/// The same discipline for an argument list.
pub proof fn lemma_compile_args_regs(args: Seq<ExprView>, idx: int, c: CgState)
    requires
        cg_wf(c),
    ensures
        ({
            let o = sp_compile_args(args, idx, c);
            &&& cg_wf(o.c)
            &&& forall|i: int|
                0 <= i < 32 && c.regs[i] == RState::Used ==> o.c.regs[i] == RState::Used
        }),
    decreases args, args.len() - idx,
{
    let o = sp_compile_args(args, idx, c);
    if idx < 0 || idx >= args.len() {
    } else {
        lemma_compile_expr_regs(args[idx], c);
        let a = sp_compile_expr(args[idx], c);
        match a.res {
            Some(r) => {
                let freed = sp_free(a.c, r);
                assert forall|i: int| 0 <= i < 32 && c.regs[i] == RState::Used implies
                    freed.regs[i] == RState::Used by {
                    assert(a.c.regs[i] == RState::Used);
                    assert(is_scratch(i));
                }
                lemma_compile_args_regs(args, idx + 1, freed);
                let rest = sp_compile_args(args, idx + 1, freed);
                assert forall|i: int| 0 <= i < 32 && c.regs[i] == RState::Used implies o.c.regs[i]
                    == RState::Used by {
                    assert(freed.regs[i] == RState::Used);
                }
            },
            None => {
                lemma_compile_args_regs(args, idx + 1, a.c);
                assert forall|i: int| 0 <= i < 32 && c.regs[i] == RState::Used implies o.c.regs[i]
                    == RState::Used by {
                    assert(a.c.regs[i] == RState::Used);
                }
            },
        }
    }
}

/// The register discipline of statement compilation: well-formedness
/// is preserved and a register in use at entry is never freed.
#[verifier::rlimit(60)]
pub proof fn lemma_compile_stmt_regs(s: StmtView, c: CgState)
    requires
        cg_wf(c),
    ensures
        ({
            let o = sp_compile_stmt(s, c);
            &&& cg_wf(o.c)
            &&& forall|i: int|
                0 <= i < 32 && c.regs[i] == RState::Used ==> o.c.regs[i] == RState::Used
        }),
    decreases s, 0nat,
{
    let o = sp_compile_stmt(s, c);
    match s {
        StmtView::ExprStmt(e) => {
            lemma_compile_expr_regs(e, c);
            let eo = sp_compile_expr(e, c);
            assert forall|i: int| 0 <= i < 32 && c.regs[i] == RState::Used implies o.c.regs[i]
                == RState::Used by {
                assert(eo.c.regs[i] == RState::Used);
                assert(is_scratch(i));
            }
        },
        StmtView::Decl(_, _) => {},
        StmtView::Assignment(name, value) => {
            lemma_compile_expr_regs(value, c);
            let eo = sp_compile_expr(value, c);
            assert forall|i: int| 0 <= i < 32 && c.regs[i] == RState::Used implies o.c.regs[i]
                == RState::Used by {
                assert(eo.c.regs[i] == RState::Used);
                assert(is_scratch(i));
            }
        },
        StmtView::If(cond, tb, eb) => {
            lemma_compile_expr_regs(cond, c);
            let co = sp_compile_expr(cond, c);
            let (false_label, c1) = sp_label(co.c);
            let c2 = match co.res {
                Some(r) => sp_free(c1, r),
                None => c1,
            };
            assert forall|i: int| 0 <= i < 32 && c.regs[i] == RState::Used implies c2.regs[i]
                == RState::Used by {
                assert(co.c.regs[i] == RState::Used);
                assert(is_scratch(i));
            }
            lemma_compile_block_regs(tb, c2);
            let t = sp_compile_block(tb, c2);
            match eb {
                Some(else_stmts) => {
                    lemma_compile_block_regs(else_stmts, t.c);
                    let f = sp_compile_block(else_stmts, t.c);
                    assert forall|i: int| 0 <= i < 32 && c.regs[i] == RState::Used implies
                        o.c.regs[i] == RState::Used by {
                        assert(c2.regs[i] == RState::Used);
                        assert(t.c.regs[i] == RState::Used);
                        assert(f.c.regs[i] == RState::Used);
                    }
                },
                None => {
                    assert forall|i: int| 0 <= i < 32 && c.regs[i] == RState::Used implies
                        o.c.regs[i] == RState::Used by {
                        assert(c2.regs[i] == RState::Used);
                        assert(t.c.regs[i] == RState::Used);
                    }
                },
            }
        },
        StmtView::While(cond, body) => {
            let (loop_label, c1) = sp_label(c);
            lemma_compile_expr_regs(cond, c1);
            let co = sp_compile_expr(cond, c1);
            let (false_label, c2) = sp_label(co.c);
            let c3 = match co.res {
                Some(r) => sp_free(c2, r),
                None => c2,
            };
            assert forall|i: int| 0 <= i < 32 && c.regs[i] == RState::Used implies c3.regs[i]
                == RState::Used by {
                assert(co.c.regs[i] == RState::Used);
                assert(is_scratch(i));
            }
            lemma_compile_block_regs(body, c3);
            let b = sp_compile_block(body, c3);
            assert forall|i: int| 0 <= i < 32 && c.regs[i] == RState::Used implies o.c.regs[i]
                == RState::Used by {
                assert(c3.regs[i] == RState::Used);
                assert(b.c.regs[i] == RState::Used);
            }
        },
    }
}

/// The same discipline for a block.
pub proof fn lemma_compile_block_regs(ss: Seq<StmtView>, c: CgState)
    requires
        cg_wf(c),
    ensures
        ({
            let o = sp_compile_block(ss, c);
            &&& cg_wf(o.c)
            &&& forall|i: int|
                0 <= i < 32 && c.regs[i] == RState::Used ==> o.c.regs[i] == RState::Used
        }),
    decreases ss, 0nat,
{
    if ss.len() == 0 {
    } else {
        lemma_compile_stmt_regs(ss[0], c);
        let first = sp_compile_stmt(ss[0], c);
        lemma_compile_block_regs(ss.subrange(1, ss.len() as int), first.c);
    }
}

/// Append one instruction to an instruction block.
fn emit(b: &mut Vec<Instr>, ins: Instr)
    ensures
        final(b).deep_view() == old(b).deep_view().push(ins@),
{
    let ghost pre = b.deep_view();
    let ghost iv = ins@;
    b.push(ins);
    proof {
        assert(b.deep_view() =~= pre.push(iv));
    }
}

/// Move the contents of `other` to the end of `b`.
fn emit_all(b: &mut Vec<Instr>, other: &mut Vec<Instr>)
    ensures
        final(b).deep_view() == old(b).deep_view() + old(other).deep_view(),
{
    let ghost pre = b.deep_view();
    let ghost add = other.deep_view();
    b.append(other);
    proof {
        assert(b.deep_view() =~= pre + add);
    }
}

/// The compiler for one compilation: the symbol table, the register
/// allocator, the label counter, the diagnostics, and the instruction
/// list that `compile` fills.
pub struct Compiler {
    pub stab: SymTab,
    pub instrs: Vec<Instr>,
    pub regs: RegMap,
    pub label_counter: LabelCounter,
    pub diags: Vec<Diag>,
}

impl View for Compiler {
    type V = CgState;

    open spec fn view(&self) -> CgState {
        CgState {
            st: self.stab@,
            regs: self.regs@,
            labels: self.label_counter.count as nat,
            diags: self.diags.deep_view(),
        }
    }
}

impl Compiler {
    /// The well-formedness every method preserves.
    pub open spec fn wf(&self) -> bool {
        cg_wf(self@)
    }

    /// A fresh compiler: empty tables, all registers free, label
    /// counter at zero.
    pub fn new() -> (r: Compiler)
        ensures
            r@ == (CgState {
                st: SymTabView { vars: Seq::empty(), strings: Seq::empty() },
                regs: Seq::new(32, |i: int| RState::Free),
                labels: 0,
                diags: Seq::empty(),
            }),
            r.instrs.deep_view() == Seq::<InstrView>::empty(),
            r.wf(),
    {
        let r = Compiler {
            stab: SymTab::new(),
            instrs: Vec::new(),
            regs: RegMap::new(),
            label_counter: LabelCounter::new(),
            diags: Vec::new(),
        };
        proof {
            assert(r@ =~= (CgState {
                st: SymTabView { vars: Seq::empty(), strings: Seq::empty() },
                regs: Seq::new(32, |i: int| RState::Free),
                labels: 0,
                diags: Seq::empty(),
            }));
            assert(r.instrs.deep_view() =~= Seq::<InstrView>::empty());
        }
        r
    }

    /// Record a diagnostic.
    fn diag(&mut self, d: Diag)
        ensures
            final(self)@ == sp_diag(old(self)@, d@),
            final(self).instrs == old(self).instrs,
    {
        let ghost dv = d@;
        self.diags.push(d);
        proof {
            assert(self@ =~= sp_diag(old(self)@, dv));
        }
    }

    /// Allocate a scratch register.
    fn grab_reg(&mut self) -> (r: Option<Reg>)
        requires
            old(self)@.regs.len() == 32,
        ensures
            (match r {
                Some(reg) => sp_alloc(old(self)@).0 == Some(reg.0) && is_scratch(reg.0 as int),
                None => sp_alloc(old(self)@).0 is None,
            }),
            final(self)@ == sp_alloc(old(self)@).1,
            final(self).instrs == old(self).instrs,
    {
        let r = self.regs.get_reg();
        proof {
            assert(self@ =~= sp_alloc(old(self)@).1);
        }
        r
    }

    /// Free a register.
    fn free(&mut self, r: Reg)
        requires
            old(self)@.regs.len() == 32,
            r.0 < 32,
        ensures
            final(self)@ == sp_free(old(self)@, r),
            final(self).instrs == old(self).instrs,
    {
        self.regs.free_reg(r);
        proof {
            assert(self@ =~= sp_free(old(self)@, r));
        }
    }

    /// Draw a fresh label number.
    fn next_label(&mut self) -> (r: u64)
        ensures
            r as int == sp_label(old(self)@).0,
            final(self)@ == sp_label(old(self)@).1,
            final(self).instrs == old(self).instrs,
    {
        let r = self.label_counter.next();
        proof {
            assert(self@ =~= sp_label(old(self)@).1);
        }
        r
    }

    /// Compile one expression into `b`, returning the register holding
    /// its value, exactly as the model `sp_compile_expr` prescribes.
    pub fn compile_expr(&mut self, b: &mut Vec<Instr>, e: &Expr) -> (res: Option<Reg>)
        requires
            old(self).wf(),
        ensures
            ({
                let o = sp_compile_expr(expr_view(*e), old(self)@);
                &&& final(self)@ == o.c
                &&& final(b).deep_view() == old(b).deep_view() + o.code
                &&& res == o.res
                &&& final(self).wf()
            }),
        decreases *e,
    {
        let ghost c0 = self@;
        let ghost b0 = b.deep_view();
        proof {
            lemma_compile_expr_regs(expr_view(*e), c0);
        }
        match e {
            Expr::Lit(val) => {
                match self.grab_reg() {
                    None => {
                        self.diag(Diag::RegExhausted);
                        proof {
                            assert(b.deep_view() =~= b0 + sp_compile_expr(expr_view(*e), c0).code);
                        }
                        None
                    },
                    Some(reg) => {
                        if *val > u32::MAX as i64 || *val < i32::MIN as i64 {
                            self.diag(Diag::ImmOutOfRange(*val));
                        }
                        emit(b, Instr::Li(reg, *val));
                        proof {
                            assert(b.deep_view() =~= b0 + sp_compile_expr(expr_view(*e), c0).code);
                        }
                        Some(reg)
                    },
                }
            },
            Expr::Bin(l, op, r) => {
                let right = self.compile_expr(b, &**r);
                let left = self.compile_expr(b, &**l);
                let ghost o = sp_compile_expr(expr_view(*e), c0);
                let lr = match left {
                    Some(x) => x,
                    None => {
                        proof {
                            assert(b.deep_view() =~= b0 + o.code);
                        }
                        return None;
                    },
                };
                let rr = match right {
                    Some(x) => x,
                    None => {
                        proof {
                            assert(b.deep_view() =~= b0 + o.code);
                        }
                        return None;
                    },
                };
                proof {
                    lemma_compile_expr_regs(expr_view(**r), c0);
                    lemma_compile_expr_regs(expr_view(**l), sp_compile_expr(expr_view(**r), c0).c);
                    let right_o = sp_compile_expr(expr_view(**r), c0);
                    let left_o = sp_compile_expr(expr_view(**l), right_o.c);
                    assert(b.deep_view().subrange(b0.len() as int, b.deep_view().len() as int)
                        =~= right_o.code + left_o.code);
                    assert(b.deep_view().subrange(0, b0.len() as int) =~= b0);
                }
                match op {
                    BinOp::TestEq => {
                        emit(b, Instr::Op(Mnem::Xor, lr, rr));
                        emit(b, Instr::Seqz(lr, lr));
                        self.free(rr);
                        proof {
                            assert(b.deep_view() =~= b0 + o.code);
                        }
                        Some(lr)
                    },
                    BinOp::Greater => {
                        emit(b, Instr::Op(Mnem::Sltu, rr, lr));
                        self.free(lr);
                        proof {
                            assert(b.deep_view() =~= b0 + o.code);
                        }
                        Some(rr)
                    },
                    BinOp::Add => self.finish_simple(b, Mnem::Add, lr, rr, Ghost(b0), Ghost(o)),
                    BinOp::Sub => self.finish_simple(b, Mnem::Sub, lr, rr, Ghost(b0), Ghost(o)),
                    BinOp::Mul => self.finish_simple(b, Mnem::Mul, lr, rr, Ghost(b0), Ghost(o)),
                    BinOp::Div => self.finish_simple(b, Mnem::Div, lr, rr, Ghost(b0), Ghost(o)),
                    BinOp::Rem => self.finish_simple(b, Mnem::Rem, lr, rr, Ghost(b0), Ghost(o)),
                    BinOp::Srl => self.finish_simple(b, Mnem::Srl, lr, rr, Ghost(b0), Ghost(o)),
                    BinOp::Sra => self.finish_simple(b, Mnem::Sra, lr, rr, Ghost(b0), Ghost(o)),
                    BinOp::Sll => self.finish_simple(b, Mnem::Sll, lr, rr, Ghost(b0), Ghost(o)),
                    BinOp::And => self.finish_simple(b, Mnem::And, lr, rr, Ghost(b0), Ghost(o)),
                    BinOp::Or => self.finish_simple(b, Mnem::Or, lr, rr, Ghost(b0), Ghost(o)),
                    BinOp::Xor => self.finish_simple(b, Mnem::Xor, lr, rr, Ghost(b0), Ghost(o)),
                    BinOp::Less => self.finish_simple(b, Mnem::Slt, lr, rr, Ghost(b0), Ghost(o)),
                    BinOp::LessUnsigned => self.finish_simple(
                        b,
                        Mnem::Sltu,
                        lr,
                        rr,
                        Ghost(b0),
                        Ghost(o),
                    ),
                }
            },
            Expr::Ident(name) => {
                match self.stab.get_var(name) {
                    None => {
                        self.diag(Diag::VarNotFound(name.clone()));
                        proof {
                            assert(b.deep_view() =~= b0 + sp_compile_expr(expr_view(*e), c0).code);
                        }
                        None
                    },
                    Some(_) => {
                        match self.grab_reg() {
                            None => {
                                self.diag(Diag::RegExhausted);
                                proof {
                                    assert(b.deep_view() =~= b0 + sp_compile_expr(
                                        expr_view(*e),
                                        c0,
                                    ).code);
                                }
                                None
                            },
                            Some(reg) => {
                                emit(b, Instr::Lw(reg, DataLabel::Var(name.clone())));
                                proof {
                                    assert(b.deep_view() =~= b0 + sp_compile_expr(
                                        expr_view(*e),
                                        c0,
                                    ).code);
                                }
                                Some(reg)
                            },
                        }
                    },
                }
            },
            Expr::Call(name, params) => {
                proof {
                    assert(decreases_to!(*e => params@));
                }
                self.compile_call(b, name, params)
            },
            Expr::String(s) => {
                let idx = self.stab.add_string(s.clone());
                proof {
                    assert(self@ =~= (CgState {
                        st: sp_intern(c0.st, s@).1,
                        regs: c0.regs,
                        labels: c0.labels,
                        diags: c0.diags,
                    }));
                }
                match self.grab_reg() {
                    None => {
                        self.diag(Diag::RegExhausted);
                        proof {
                            assert(b.deep_view() =~= b0 + sp_compile_expr(expr_view(*e), c0).code);
                        }
                        None
                    },
                    Some(reg) => {
                        emit(b, Instr::La(reg, DataLabel::Str(idx)));
                        proof {
                            assert(b.deep_view() =~= b0 + sp_compile_expr(expr_view(*e), c0).code);
                        }
                        Some(reg)
                    },
                }
            },
            Expr::Unary(op, operand) => {
                match op {
                    UnaryOp::Deref => {
                        let r = self.compile_expr(b, &**operand);
                        match r {
                            None => None,
                            Some(reg) => {
                                proof {
                                    lemma_compile_expr_regs(expr_view(**operand), c0);
                                }
                                emit(b, Instr::LwInd(reg, reg));
                                proof {
                                    assert(b.deep_view() =~= b0 + sp_compile_expr(
                                        expr_view(*e),
                                        c0,
                                    ).code);
                                }
                                Some(reg)
                            },
                        }
                    },
                    UnaryOp::BoolNot => {
                        let r = self.compile_expr(b, &**operand);
                        match r {
                            None => None,
                            Some(reg) => {
                                emit(b, Instr::Seqz(reg, reg));
                                proof {
                                    assert(b.deep_view() =~= b0 + sp_compile_expr(
                                        expr_view(*e),
                                        c0,
                                    ).code);
                                }
                                Some(reg)
                            },
                        }
                    },
                    UnaryOp::Neg => {
                        let r = self.compile_expr(b, &**operand);
                        match r {
                            None => None,
                            Some(reg) => {
                                emit(b, Instr::Neg(reg));
                                proof {
                                    assert(b.deep_view() =~= b0 + sp_compile_expr(
                                        expr_view(*e),
                                        c0,
                                    ).code);
                                }
                                Some(reg)
                            },
                        }
                    },
                    UnaryOp::Not => {
                        let r = self.compile_expr(b, &**operand);
                        match r {
                            None => None,
                            Some(reg) => {
                                emit(b, Instr::Xori(reg, reg, -1));
                                proof {
                                    assert(b.deep_view() =~= b0 + sp_compile_expr(
                                        expr_view(*e),
                                        c0,
                                    ).code);
                                }
                                Some(reg)
                            },
                        }
                    },
                    UnaryOp::Addr => {
                        match &**operand {
                            Expr::Lit(_) => {
                                self.diag(Diag::AddrOfImmediate);
                                proof {
                                    assert(b.deep_view() =~= b0 + sp_compile_expr(
                                        expr_view(*e),
                                        c0,
                                    ).code);
                                }
                                None
                            },
                            Expr::String(_) => {
                                self.diag(Diag::AddrOfString);
                                proof {
                                    assert(b.deep_view() =~= b0 + sp_compile_expr(
                                        expr_view(*e),
                                        c0,
                                    ).code);
                                }
                                None
                            },
                            Expr::Ident(name) => {
                                match self.grab_reg() {
                                    None => {
                                        self.diag(Diag::RegExhausted);
                                        proof {
                                            assert(b.deep_view() =~= b0 + sp_compile_expr(
                                                expr_view(*e),
                                                c0,
                                            ).code);
                                        }
                                        None
                                    },
                                    Some(reg) => {
                                        match self.stab.get_var(name) {
                                            None => {
                                                self.diag(Diag::VarNotFound(name.clone()));
                                                proof {
                                                    assert(b.deep_view() =~= b0 + sp_compile_expr(
                                                        expr_view(*e),
                                                        c0,
                                                    ).code);
                                                }
                                                None
                                            },
                                            Some(_) => {
                                                emit(
                                                    b,
                                                    Instr::La(reg, DataLabel::Var(name.clone())),
                                                );
                                                proof {
                                                    assert(b.deep_view() =~= b0 + sp_compile_expr(
                                                        expr_view(*e),
                                                        c0,
                                                    ).code);
                                                }
                                                Some(reg)
                                            },
                                        }
                                    },
                                }
                            },
                            _ => {
                                self.diag(Diag::AddrOfTemporary);
                                proof {
                                    assert(b.deep_view() =~= b0 + sp_compile_expr(
                                        expr_view(*e),
                                        c0,
                                    ).code);
                                }
                                None
                            },
                        }
                    },
                }
            },
        }
    }


    /// Compile a call expression: arguments in order into the
    /// positional argument registers, then the call itself; the result
    /// is taken to live in `a0` by convention.
    fn compile_call(&mut self, b: &mut Vec<Instr>, name: &String, params: &Vec<Expr>) -> (res:
        Option<Reg>)
        requires
            old(self).wf(),
        ensures
            ({
                let o = sp_compile_expr(
                    ExprView::Call(name@, crate::expr::exprs_view(params@)),
                    old(self)@,
                );
                &&& final(self)@ == o.c
                &&& final(b).deep_view() == old(b).deep_view() + o.code
                &&& res == o.res
                &&& final(self).wf()
            }),
        decreases params@,
    {
        let ghost c0 = self@;
        let ghost b0 = b.deep_view();
        let ghost av = crate::expr::exprs_view(params@);
        proof {
            crate::expr::lemma_exprs_view_index(params@);
        }
        let mut all_ok = true;
        let n = params.len();
        let mut i: usize = 0;
        while i < n
            invariant
                self.wf(),
                i <= n,
                n == params.len(),
                av == crate::expr::exprs_view(params@),
                av.len() == n,
                forall|j: int| 0 <= j < n ==> av[j] == expr_view(params@[j]),
                ({
                    let full = sp_compile_args(av, 0, c0);
                    let rest = sp_compile_args(av, i as int, self@);
                    &&& full.c == rest.c
                    &&& full.code == b.deep_view().subrange(
                        b0.len() as int,
                        b.deep_view().len() as int,
                    ) + rest.code
                    &&& full.all_ok == (all_ok && rest.all_ok)
                }),
                b.deep_view().len() >= b0.len(),
                b.deep_view().subrange(0, b0.len() as int) == b0,
            decreases n - i,
        {
            let ghost c_iter = self@;
            let ghost b_iter = b.deep_view();
            proof {
                assert(decreases_to!(params@ => params@[i as int]));
            }
            let pr = self.compile_expr(b, &params[i]);
            proof {
                lemma_compile_expr_regs(av[i as int], c_iter);
            }
            match pr {
                Some(r) => {
                    emit(b, Instr::MvArg(i, r));
                    self.free(r);
                },
                None => {
                    all_ok = false;
                },
            }
            proof {
                let full = sp_compile_args(av, 0, c0);
                let rest_post = sp_compile_args(av, i + 1, self@);
                assert(b.deep_view().subrange(b0.len() as int, b.deep_view().len() as int)
                    =~= b_iter.subrange(b0.len() as int, b_iter.len() as int) + (
                b.deep_view().subrange(b_iter.len() as int, b.deep_view().len() as int)));
                assert(full.code =~= b.deep_view().subrange(
                    b0.len() as int,
                    b.deep_view().len() as int,
                ) + rest_post.code);
                assert(b.deep_view().subrange(0, b0.len() as int) =~= b0);
            }
            i = i + 1;
        }
        let ghost o = sp_compile_expr(ExprView::Call(name@, av), c0);
        if all_ok {
            emit(b, Instr::Call(name.clone()));
            proof {
                assert(b.deep_view() =~= b0 + o.code);
            }
        } else {
            self.diag(Diag::CallFailed(name.clone()));
            proof {
                assert(b.deep_view() =~= b0 + o.code);
            }
        }
        Some(Reg(10))
    }

    /// Compile one statement into `b`, exactly as the model
    /// `sp_compile_stmt` prescribes.
    #[verifier::rlimit(100)]
    fn compile_stmt(&mut self, b: &mut Vec<Instr>, s: &Stmt)
        requires
            old(self).wf(),
        ensures
            ({
                let o = sp_compile_stmt(crate::expr::stmt_view(*s), old(self)@);
                &&& final(self)@ == o.c
                &&& final(b).deep_view() == old(b).deep_view() + o.code
                &&& final(self).wf()
            }),
        decreases *s,
    {
        let ghost c0 = self@;
        let ghost b0 = b.deep_view();
        let ghost o = sp_compile_stmt(crate::expr::stmt_view(*s), c0);
        proof {
            lemma_compile_stmt_regs(crate::expr::stmt_view(*s), c0);
        }
        match s {
            Stmt::ExprStmt(e) => {
                let r = self.compile_expr(b, e);
                proof {
                    lemma_compile_expr_regs(expr_view(*e), c0);
                }
                if let Some(reg) = r {
                    self.free(reg);
                }
                proof {
                    assert(b.deep_view() =~= b0 + o.code);
                }
            },
            Stmt::Decl(name, init) => {
                let val = match init {
                    DeclInit::Str(contents) => {
                        let idx = self.stab.add_string(contents.clone());
                        proof {
                            assert(self@ =~= (CgState {
                                st: sp_intern(c0.st, contents@).1,
                                regs: c0.regs,
                                labels: c0.labels,
                                diags: c0.diags,
                            }));
                        }
                        VarInit::StrRef(idx)
                    },
                    DeclInit::Int(v) => VarInit::Int(*v),
                };
                let ghost c1 = self@;
                let ok = self.stab.decl(name.clone(), val);
                proof {
                    assert(self@ =~= (CgState {
                        st: sp_decl(c1.st, name@, val@).1,
                        regs: c1.regs,
                        labels: c1.labels,
                        diags: c1.diags,
                    }));
                }
                if ok.is_none() {
                    self.diag(Diag::Redeclaration(name.clone()));
                }
                proof {
                    assert(b.deep_view() =~= b0 + o.code);
                }
            },
            Stmt::Assignment(name, value) => {
                let r = self.compile_expr(b, value);
                proof {
                    lemma_compile_expr_regs(expr_view(*value), c0);
                }
                let result = match r {
                    Some(x) => x,
                    None => {
                        proof {
                            assert(b.deep_view() =~= b0 + o.code);
                        }
                        return ;
                    },
                };
                match self.stab.get_var(name) {
                    None => {
                        self.diag(Diag::VarNotFound(name.clone()));
                        proof {
                            assert(b.deep_view() =~= b0 + o.code);
                        }
                        return ;
                    },
                    Some(_) => {},
                }
                let addr_reg = match self.grab_reg() {
                    Some(x) => x,
                    None => {
                        self.diag(Diag::RegExhausted);
                        proof {
                            assert(b.deep_view() =~= b0 + o.code);
                        }
                        return ;
                    },
                };
                emit(b, Instr::Sw(result, DataLabel::Var(name.clone()), addr_reg));
                self.free(result);
                self.free(addr_reg);
                proof {
                    assert(b.deep_view() =~= b0 + o.code);
                }
            },
            Stmt::If(cond, tb, eb) => {
                let cond_result = self.compile_expr(b, cond);
                proof {
                    lemma_compile_expr_regs(expr_view(*cond), c0);
                }
                let false_label = self.next_label();
                let branch_reg = match cond_result {
                    Some(r) => r,
                    None => Reg(0),
                };
                emit(b, Instr::Beqz(branch_reg, false_label));
                if let Some(r) = cond_result {
                    self.free(r);
                }
                let mut true_iblock: Vec<Instr> = Vec::new();
                proof {
                    assert(decreases_to!(*s => tb@));
                }
                self.compile_block(&mut true_iblock, tb);
                match eb {
                    Some(fb) => {
                        let mut false_iblock: Vec<Instr> = Vec::new();
                        proof {
                            assert(decreases_to!(*s => fb@));
                        }
                        self.compile_block(&mut false_iblock, fb);
                        emit_all(b, &mut true_iblock);
                        let end_label = self.next_label();
                        emit(b, Instr::Jump(end_label));
                        emit(b, Instr::Label(false_label));
                        emit_all(b, &mut false_iblock);
                        emit(b, Instr::Label(end_label));
                    },
                    None => {
                        emit_all(b, &mut true_iblock);
                        emit(b, Instr::Label(false_label));
                    },
                }
                proof {
                    assert(b.deep_view() =~= b0 + o.code);
                }
            },
            Stmt::While(cond, body) => {
                let loop_label = self.next_label();
                emit(b, Instr::Label(loop_label));
                let ghost c1 = self@;
                let cond_result = self.compile_expr(b, cond);
                proof {
                    lemma_compile_expr_regs(expr_view(*cond), c1);
                }
                let false_label = self.next_label();
                let branch_reg = match cond_result {
                    Some(r) => r,
                    None => Reg(0),
                };
                emit(b, Instr::Beqz(branch_reg, false_label));
                if let Some(r) = cond_result {
                    self.free(r);
                }
                let mut body_iblock: Vec<Instr> = Vec::new();
                proof {
                    assert(decreases_to!(*s => body@));
                }
                self.compile_block(&mut body_iblock, body);
                emit_all(b, &mut body_iblock);
                emit(b, Instr::Jump(loop_label));
                emit(b, Instr::Label(false_label));
                proof {
                    assert(b.deep_view() =~= b0 + o.code);
                }
            },
        }
    }

    /// Compile each statement of a block in order.
    fn compile_block(&mut self, b: &mut Vec<Instr>, stmts: &Block)
        requires
            old(self).wf(),
        ensures
            ({
                let o = sp_compile_block(block_view(stmts@), old(self)@);
                &&& final(self)@ == o.c
                &&& final(b).deep_view() == old(b).deep_view() + o.code
                &&& final(self).wf()
            }),
        decreases stmts@,
    {
        let ghost c0 = self@;
        let ghost b0 = b.deep_view();
        let ghost bv = block_view(stmts@);
        proof {
            crate::expr::lemma_block_view_index(stmts@);
        }
        let n = stmts.len();
        proof {
            assert(bv.subrange(0, n as int) =~= bv);
            assert(b.deep_view().subrange(b0.len() as int, b.deep_view().len() as int)
                =~= Seq::<InstrView>::empty());
            assert(sp_compile_block(bv, c0).code =~= Seq::<InstrView>::empty() + sp_compile_block(
                bv,
                c0,
            ).code);
            assert(b.deep_view().subrange(0, b0.len() as int) =~= b0);
        }
        let mut i: usize = 0;
        while i < n
            invariant
                self.wf(),
                i <= n,
                n == stmts.len(),
                bv == block_view(stmts@),
                bv.len() == n,
                forall|j: int| 0 <= j < n ==> bv[j] == crate::expr::stmt_view(stmts@[j]),
                ({
                    let full = sp_compile_block(bv, c0);
                    let rest = sp_compile_block(bv.subrange(i as int, n as int), self@);
                    &&& full.c == rest.c
                    &&& full.code == b.deep_view().subrange(
                        b0.len() as int,
                        b.deep_view().len() as int,
                    ) + rest.code
                }),
                b.deep_view().len() >= b0.len(),
                b.deep_view().subrange(0, b0.len() as int) == b0,
            decreases n - i,
        {
            let ghost c_iter = self@;
            let ghost b_iter = b.deep_view();
            proof {
                assert(decreases_to!(stmts@ => stmts@[i as int]));
                assert(bv.subrange(i as int, n as int)[0] == bv[i as int]);
                assert(bv.subrange(i as int, n as int).subrange(
                    1,
                    (n - i) as int,
                ) =~= bv.subrange(i + 1, n as int));
            }
            self.compile_stmt(b, &stmts[i]);
            proof {
                let full = sp_compile_block(bv, c0);
                let rest_post = sp_compile_block(bv.subrange(i + 1, n as int), self@);
                assert(b.deep_view().subrange(b0.len() as int, b.deep_view().len() as int)
                    =~= b_iter.subrange(b0.len() as int, b_iter.len() as int) + (
                b.deep_view().subrange(b_iter.len() as int, b.deep_view().len() as int)));
                assert(full.code =~= b.deep_view().subrange(
                    b0.len() as int,
                    b.deep_view().len() as int,
                ) + rest_post.code);
                assert(b.deep_view().subrange(0, b0.len() as int) =~= b0);
            }
            i = i + 1;
        }
        proof {
            assert(bv.subrange(n as int, n as int) =~= Seq::<StmtView>::empty());
            assert(b.deep_view() =~= b0 + sp_compile_block(bv, c0).code);
        }
    }

    /// Compile a whole program: the instruction list is replaced by the
    /// code of the statements, compiled in order against this
    /// compiler's tables.
    pub fn compile(&mut self, stmts: Vec<Stmt>)
        requires
            old(self).wf(),
        ensures
            ({
                let o = sp_compile_block(block_view(stmts@), old(self)@);
                &&& final(self)@ == o.c
                &&& final(self).instrs.deep_view() == o.code
                &&& final(self).wf()
            }),
    {
        let mut b: Vec<Instr> = Vec::new();
        proof {
            assert(b.deep_view() =~= Seq::<InstrView>::empty());
        }
        self.compile_block(&mut b, &stmts);
        proof {
            assert(b.deep_view() =~= sp_compile_block(block_view(stmts@), old(self)@).code);
        }
        self.instrs = b;
    }

    /// Emit the single-mnemonic tail of a binary expression: combine
    /// into the left register, free the right one.
    fn finish_simple(
        &mut self,
        b: &mut Vec<Instr>,
        m: Mnem,
        lr: Reg,
        rr: Reg,
        Ghost(b0): Ghost<Seq<InstrView>>,
        Ghost(o): Ghost<ExprOut>,
    ) -> (res: Option<Reg>)
        requires
            old(self)@.regs.len() == 32,
            rr.0 < 32,
            o.c == sp_free(old(self)@, rr),
            o.res == Some(lr),
            o.code == old(b).deep_view().subrange(b0.len() as int, old(b).deep_view().len() as int)
                + seq![InstrView::Op(m, lr, rr)],
            old(b).deep_view().subrange(0, b0.len() as int) == b0,
            b0.len() <= old(b).deep_view().len(),
        ensures
            final(self)@ == o.c,
            final(b).deep_view() == b0 + o.code,
            res == o.res,
    {
        emit(b, Instr::Op(m, lr, rr));
        self.free(rr);
        proof {
            assert(b.deep_view() =~= b0 + o.code);
        }
        Some(lr)
    }
}

} // verus!
