use compiler::codegen::Compiler;
use compiler::expr::{BinOp, Expr};
use compiler::parse::parse;
use compiler::render::{data_lines, instr_lines, render_instr};
use compiler::riscv::{DataLabel, Instr, Mnem, Reg};
use compiler::tc::{typecheck, TExprKind, Ty};

#[test]
fn render_load_immediate() {
    assert_eq!(render_instr(&Instr::Li(Reg(5), 42)), "li x5, 42");
    assert_eq!(render_instr(&Instr::Li(Reg(28), -7)), "li x28, -7");
}

#[test]
fn render_memory_forms() {
    assert_eq!(
        render_instr(&Instr::Lw(Reg(5), DataLabel::Var(String::from("x")))),
        "lw x5, __var_x"
    );
    assert_eq!(render_instr(&Instr::LwInd(Reg(6), Reg(6))), "lw x6, (x6)");
    assert_eq!(
        render_instr(&Instr::Sw(Reg(5), DataLabel::Var(String::from("x")), Reg(6))),
        "sw x5, __var_x, x6"
    );
    assert_eq!(
        render_instr(&Instr::La(Reg(7), DataLabel::Str(3))),
        "la x7, __str_3"
    );
}

#[test]
fn render_arithmetic_forms() {
    assert_eq!(
        render_instr(&Instr::Op(Mnem::Add, Reg(5), Reg(6))),
        "add x5, x5, x6"
    );
    assert_eq!(
        render_instr(&Instr::Op(Mnem::Sltu, Reg(30), Reg(31))),
        "sltu x30, x30, x31"
    );
    assert_eq!(render_instr(&Instr::Neg(Reg(5))), "sub x5, x0, x5");
    assert_eq!(render_instr(&Instr::Seqz(Reg(5), Reg(5))), "seqz x5, x5");
    assert_eq!(
        render_instr(&Instr::Xori(Reg(5), Reg(5), -1)),
        "xori x5, x5, -1"
    );
}

#[test]
fn render_control_forms() {
    assert_eq!(render_instr(&Instr::Beqz(Reg(5), 0)), "beqz x5, __L_0");
    assert_eq!(render_instr(&Instr::Jump(12)), "j __L_12");
    assert_eq!(render_instr(&Instr::Label(3)), "__L_3:");
    assert_eq!(
        render_instr(&Instr::Call(String::from("putc"))),
        "call putc"
    );
    assert_eq!(render_instr(&Instr::MvArg(0, Reg(5))), "mv a0, x5");
}

#[test]
fn data_section_lines() {
    let ast = parse("let s = \"hi\"; let x = 42; let y = \"hi\";").expect("parse failed");
    let mut c = Compiler::new();
    c.compile(ast);
    let lines = data_lines(&c.stab);
    assert_eq!(
        lines,
        vec![
            "__str_0: .asciz \"hi\" ".to_string(),
            "__var_s:".to_string(),
            "    .word __str_0".to_string(),
            "__var_x:".to_string(),
            "    .word 42".to_string(),
            "__var_y:".to_string(),
            "    .word __str_0".to_string(),
        ]
    );
}

#[test]
fn whole_program_listing() {
    let ast = parse("let x = 1; set x = x + 1;").expect("parse failed");
    let mut c = Compiler::new();
    c.compile(ast);
    let lines = instr_lines(&c.instrs);
    assert_eq!(
        lines,
        vec![
            "li x5, 1".to_string(),
            "lw x6, __var_x".to_string(),
            "add x6, x6, x5".to_string(),
            "sw x6, __var_x, x5".to_string(),
        ]
    );
}

#[test]
fn typecheck_literal() {
    let mut errs = Vec::new();
    let t = typecheck(&Expr::Lit(3), &mut errs).expect("typecheck failed");
    assert_eq!(t.ty, Ty::I32);
    assert!(matches!(t.exp, TExprKind::Lit(3)));
    assert!(errs.is_empty());
}

#[test]
fn typecheck_binary_literals_agree() {
    let e = Expr::Bin(
        Box::new(Expr::Lit(1)),
        BinOp::Add,
        Box::new(Expr::Lit(2)),
    );
    let mut errs = Vec::new();
    let t = typecheck(&e, &mut errs).expect("typecheck failed");
    assert_eq!(t.ty, Ty::I32);
    assert!(errs.is_empty());
}
