use compiler::codegen::{Compiler, Diag};
use compiler::expr::{BinOp, Expr};
use compiler::parse::parse;
use compiler::riscv::{Instr, Mnem, RState, Reg};
use compiler::symtab::VarInit;

fn compile_source(src: &str) -> Compiler {
    let ast = parse(src).expect("parse failed");
    let mut c = Compiler::new();
    c.compile(ast);
    c
}

fn free_scratch(c: &Compiler) -> usize {
    [5usize, 6, 7, 28, 29, 30, 31]
        .iter()
        .filter(|&&i| c.regs.map[i] == RState::Free)
        .count()
}

#[test]
fn decl_then_reference_loads_from_label() {
    // `let x = 42;` records the initializer; the reference compiles to
    // one load from x's storage label
    let c = compile_source("let x = 42; x;");
    assert!(c.diags.is_empty());
    assert_eq!(c.stab.vars.len(), 1);
    assert_eq!(c.stab.vars[0].0, "x");
    assert_eq!(c.stab.vars[0].1, VarInit::Int(42));
    assert_eq!(c.instrs.len(), 1);
    assert!(matches!(
        &c.instrs[0],
        Instr::Lw(_, compiler::riscv::DataLabel::Var(n)) if n == "x"
    ));
}

#[test]
fn redeclaration_is_rejected_and_first_kept() {
    let c = compile_source("let x = 1; let x = 2;");
    assert_eq!(c.stab.vars.len(), 1);
    assert_eq!(c.stab.vars[0].1, VarInit::Int(1));
    assert!(c
        .diags
        .iter()
        .any(|d| matches!(d, Diag::Redeclaration(n) if n == "x")));
}

#[test]
fn identical_strings_intern_to_one_label() {
    let c = compile_source("let a = \"hi\"; let b = \"hi\"; let c = \"yo\";");
    assert_eq!(c.stab.strings.len(), 2);
    assert_eq!(c.stab.strings[0], "hi");
    assert_eq!(c.stab.strings[1], "yo");
    assert_eq!(c.stab.vars[0].1, VarInit::StrRef(0));
    assert_eq!(c.stab.vars[1].1, VarInit::StrRef(0));
    assert_eq!(c.stab.vars[2].1, VarInit::StrRef(1));
}

#[test]
fn register_balance_of_expression() {
    // compiling an expression in isolation leaves exactly the result
    // register allocated
    let mut c = Compiler::new();
    let before = free_scratch(&c);
    assert_eq!(before, 7);
    let e = Expr::Bin(
        Box::new(Expr::Lit(1)),
        BinOp::Add,
        Box::new(Expr::Lit(2)),
    );
    let mut b: Vec<Instr> = Vec::new();
    let r = c.compile_expr(&mut b, &e).expect("compile failed");
    assert_eq!(free_scratch(&c), before - 1);
    assert_eq!(c.regs.map[r.0 as usize], RState::Used);
}

#[test]
fn call_result_register_is_a0() {
    // a call leaves its value in a0 by convention; no scratch register
    // stays allocated
    let mut c = Compiler::new();
    let e = Expr::Call(String::from("f"), vec![]);
    let mut b: Vec<Instr> = Vec::new();
    let r = c.compile_expr(&mut b, &e).expect("compile failed");
    assert_eq!(r, Reg(10));
    assert_eq!(free_scratch(&c), 7);
}

#[test]
fn exhaustion_fails_deterministically() {
    // a left-nested chain needs one more live scratch register per
    // level; the eighth cannot be allocated
    let src = "(((((((1 + 2) + 3) + 4) + 5) + 6) + 7) + 8);";
    let c = compile_source(src);
    assert!(c
        .diags
        .iter()
        .any(|d| matches!(d, Diag::RegExhausted)));
}

#[test]
fn seven_live_registers_still_compile() {
    let src = "((((((1 + 2) + 3) + 4) + 5) + 6) + 7);";
    let c = compile_source(src);
    assert!(c.diags.is_empty());
}

#[test]
fn if_else_lowering_shape() {
    // branch-if-zero over the true block, a jump over the else block,
    // exactly two distinct generated labels
    let c = compile_source("let x = 0; if 1 { set x = 2; } else { set x = 3; }");
    assert!(c.diags.is_empty());
    let labels: Vec<u64> = c
        .instrs
        .iter()
        .filter_map(|i| match i {
            Instr::Label(l) => Some(*l),
            _ => None,
        })
        .collect();
    assert_eq!(labels.len(), 2);
    assert_ne!(labels[0], labels[1]);
    let beqz_target = c.instrs.iter().find_map(|i| match i {
        Instr::Beqz(_, l) => Some(*l),
        _ => None,
    });
    let jump_target = c.instrs.iter().find_map(|i| match i {
        Instr::Jump(l) => Some(*l),
        _ => None,
    });
    assert_eq!(beqz_target, Some(labels[0]));
    assert_eq!(jump_target, Some(labels[1]));
    // the branch comes before the jump, the jump before the labels
    let pos = |p: fn(&Instr) -> bool| c.instrs.iter().position(p).unwrap();
    assert!(pos(|i| matches!(i, Instr::Beqz(_, _))) < pos(|i| matches!(i, Instr::Jump(_))));
}

#[test]
fn call_lowering_order() {
    // f(1, 2): load 1, copy into a0, load 2, copy into a1, call f
    let c = compile_source("f(1, 2);");
    assert!(c.diags.is_empty());
    assert_eq!(c.instrs.len(), 5);
    let r1 = match &c.instrs[0] {
        Instr::Li(r, 1) => *r,
        other => panic!("expected li _, 1, got {:?}", other),
    };
    assert!(matches!(&c.instrs[1], Instr::MvArg(0, r) if *r == r1));
    let r2 = match &c.instrs[2] {
        Instr::Li(r, 2) => *r,
        other => panic!("expected li _, 2, got {:?}", other),
    };
    assert!(matches!(&c.instrs[3], Instr::MvArg(1, r) if *r == r2));
    assert!(matches!(&c.instrs[4], Instr::Call(n) if n == "f"));
}

#[test]
fn while_lowering_shape() {
    // loop label, condition, branch-if-zero to the exit label, body,
    // jump back, exit label
    let c = compile_source("let x = 1; while x { set x = 0; }");
    assert!(c.diags.is_empty());
    assert!(matches!(c.instrs[0], Instr::Label(0)));
    assert!(matches!(c.instrs[1], Instr::Lw(_, _)));
    assert!(matches!(c.instrs[2], Instr::Beqz(_, 1)));
    let n = c.instrs.len();
    assert!(matches!(c.instrs[n - 2], Instr::Jump(0)));
    assert!(matches!(c.instrs[n - 1], Instr::Label(1)));
}

#[test]
fn recovery_still_emits_good_statement_code() {
    // one malformed statement does not stop the compilation of the
    // well-formed ones around it
    let c = compile_source("let 5; let x = 0; set x = 2;");
    assert!(c
        .instrs
        .iter()
        .any(|i| matches!(i, Instr::Sw(_, compiler::riscv::DataLabel::Var(n), _) if n == "x")));
}

#[test]
fn undeclared_variable_reference() {
    let c = compile_source("y;");
    assert!(c
        .diags
        .iter()
        .any(|d| matches!(d, Diag::VarNotFound(n) if n == "y")));
    assert!(c.instrs.is_empty());
}

#[test]
fn undeclared_assignment_target() {
    let c = compile_source("set y = 1;");
    assert!(c
        .diags
        .iter()
        .any(|d| matches!(d, Diag::VarNotFound(n) if n == "y")));
}

#[test]
fn failed_argument_reports_call() {
    let c = compile_source("f(y);");
    assert!(c
        .diags
        .iter()
        .any(|d| matches!(d, Diag::VarNotFound(n) if n == "y")));
    assert!(c
        .diags
        .iter()
        .any(|d| matches!(d, Diag::CallFailed(n) if n == "f")));
    // the call instruction itself is not emitted
    assert!(!c.instrs.iter().any(|i| matches!(i, Instr::Call(_))));
}

#[test]
fn immediate_out_of_range_warns_but_emits() {
    let c = compile_source("4294967296;");
    assert!(c
        .diags
        .iter()
        .any(|d| matches!(d, Diag::ImmOutOfRange(4294967296))));
    assert!(matches!(c.instrs[0], Instr::Li(_, 4294967296)));
}

#[test]
fn address_of_immediate_is_an_error() {
    let c = compile_source("&1;");
    assert!(c.diags.iter().any(|d| matches!(d, Diag::AddrOfImmediate)));
}

#[test]
fn address_of_string_is_an_error() {
    let c = compile_source("&\"s\";");
    assert!(c.diags.iter().any(|d| matches!(d, Diag::AddrOfString)));
}

#[test]
fn address_of_temporary_is_an_error() {
    let c = compile_source("&(1 + 2);");
    assert!(c.diags.iter().any(|d| matches!(d, Diag::AddrOfTemporary)));
}

#[test]
fn address_of_variable_loads_its_label() {
    let c = compile_source("let x = 0; &x;");
    assert!(c.diags.is_empty());
    assert!(matches!(
        &c.instrs[0],
        Instr::La(_, compiler::riscv::DataLabel::Var(n)) if n == "x"
    ));
}

#[test]
fn equality_lowers_to_xor_seqz() {
    let c = compile_source("1 == 2;");
    assert!(matches!(c.instrs[2], Instr::Op(Mnem::Xor, _, _)));
    assert!(matches!(c.instrs[3], Instr::Seqz(_, _)));
}

#[test]
fn greater_lowers_to_swapped_sltu() {
    // a > b becomes sltu on the right operand's register with the
    // operands swapped; the right operand was compiled first
    let c = compile_source("1 > 2;");
    // right operand (2) compiled first
    assert!(matches!(c.instrs[0], Instr::Li(_, 2)));
    assert!(matches!(c.instrs[1], Instr::Li(_, 1)));
    match (&c.instrs[0], &c.instrs[1], &c.instrs[2]) {
        (Instr::Li(rr, _), Instr::Li(lr, _), Instr::Op(Mnem::Sltu, a, b)) => {
            assert_eq!(a, rr);
            assert_eq!(b, lr);
        }
        other => panic!("unexpected lowering: {:?}", other),
    }
}

#[test]
fn unary_lowerings() {
    let c = compile_source("let x = 0; *x; -x; ~x; !x;");
    assert!(c.diags.is_empty());
    assert!(matches!(c.instrs[1], Instr::LwInd(_, _)));
    assert!(matches!(c.instrs[3], Instr::Neg(_)));
    assert!(matches!(c.instrs[5], Instr::Xori(_, _, -1)));
    assert!(matches!(c.instrs[7], Instr::Seqz(_, _)));
}

#[test]
fn assignment_stores_through_scratch_register() {
    let c = compile_source("let x = 0; set x = 7;");
    assert!(c.diags.is_empty());
    assert_eq!(c.instrs.len(), 2);
    assert!(matches!(c.instrs[0], Instr::Li(_, 7)));
    match (&c.instrs[0], &c.instrs[1]) {
        (Instr::Li(v, _), Instr::Sw(sv, compiler::riscv::DataLabel::Var(n), addr)) => {
            assert_eq!(sv, v);
            assert_ne!(sv, addr);
            assert_eq!(n, "x");
        }
        other => panic!("unexpected lowering: {:?}", other),
    }
    // both registers are free again afterwards
    assert_eq!(free_scratch(&c), 7);
}

#[test]
fn condition_failure_still_branches_on_zero() {
    // an if whose condition fails to compile is treated as
    // always-false: the branch is emitted on the zero register and the
    // block structure is kept
    let c = compile_source("let x = 0; if y { set x = 1; }");
    assert!(c
        .diags
        .iter()
        .any(|d| matches!(d, Diag::VarNotFound(n) if n == "y")));
    assert!(matches!(c.instrs[0], Instr::Beqz(Reg(0), _)));
    assert!(c.instrs.iter().any(|i| matches!(i, Instr::Sw(_, _, _))));
}
