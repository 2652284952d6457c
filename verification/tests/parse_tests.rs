use compiler::expr::{BinOp, DeclInit, Expr, Stmt, UnaryOp};
use compiler::lex::ParseDiag;
use compiler::parse::{parse, parse_with_diags};

/// Parse `src`, expect exactly one expression statement, and check
/// that it is `a OP (b OP c)`: right-nested, never `(a OP b) OP c`.
fn assert_right_nested(src: &str, expected: BinOp) {
    let stmts = parse(src).expect("parse failed");
    assert_eq!(stmts.len(), 1);
    match &stmts[0] {
        Stmt::ExprStmt(Expr::Bin(l, op, r)) => {
            assert_eq!(*op, expected);
            assert!(matches!(&**l, Expr::Ident(n) if n == "a"));
            match &**r {
                Expr::Bin(rl, rop, rr) => {
                    assert_eq!(*rop, expected);
                    assert!(matches!(&**rl, Expr::Ident(n) if n == "b"));
                    assert!(matches!(&**rr, Expr::Ident(n) if n == "c"));
                }
                other => panic!("right operand not nested: {:?}", other),
            }
        }
        other => panic!("unexpected statement: {:?}", other),
    }
}

#[test]
fn assoc_add() {
    assert_right_nested("a + b + c;", BinOp::Add);
}

#[test]
fn assoc_sub() {
    assert_right_nested("a - b - c;", BinOp::Sub);
}

#[test]
fn assoc_mul() {
    assert_right_nested("a * b * c;", BinOp::Mul);
}

#[test]
fn assoc_div() {
    assert_right_nested("a / b / c;", BinOp::Div);
}

#[test]
fn assoc_rem() {
    assert_right_nested("a % b % c;", BinOp::Rem);
}

#[test]
fn assoc_srl() {
    assert_right_nested("a >>_ b >>_ c;", BinOp::Srl);
}

#[test]
fn assoc_sra() {
    assert_right_nested("a >> b >> c;", BinOp::Sra);
}

#[test]
fn assoc_sll() {
    assert_right_nested("a << b << c;", BinOp::Sll);
}

#[test]
fn assoc_less() {
    assert_right_nested("a < b < c;", BinOp::Less);
}

#[test]
fn assoc_less_unsigned() {
    assert_right_nested("a <_ b <_ c;", BinOp::LessUnsigned);
}

#[test]
fn assoc_greater() {
    assert_right_nested("a > b > c;", BinOp::Greater);
}

#[test]
fn assoc_test_eq() {
    assert_right_nested("a == b == c;", BinOp::TestEq);
}

#[test]
fn assoc_and() {
    assert_right_nested("a & b & c;", BinOp::And);
}

#[test]
fn assoc_xor() {
    assert_right_nested("a ^ b ^ c;", BinOp::Xor);
}

#[test]
fn assoc_or() {
    assert_right_nested("a | b | c;", BinOp::Or);
}

#[test]
fn precedence_add_mul() {
    // a + b * c must parse as a + (b * c)
    let stmts = parse("a + b * c;").expect("parse failed");
    assert_eq!(stmts.len(), 1);
    match &stmts[0] {
        Stmt::ExprStmt(Expr::Bin(l, BinOp::Add, r)) => {
            assert!(matches!(&**l, Expr::Ident(n) if n == "a"));
            match &**r {
                Expr::Bin(rl, BinOp::Mul, rr) => {
                    assert!(matches!(&**rl, Expr::Ident(n) if n == "b"));
                    assert!(matches!(&**rr, Expr::Ident(n) if n == "c"));
                }
                other => panic!("expected b * c, got {:?}", other),
            }
        }
        other => panic!("unexpected statement: {:?}", other),
    }
}

#[test]
fn precedence_parens_override() {
    // (a + b) * c keeps the sum on the left
    let stmts = parse("(a + b) * c;").expect("parse failed");
    match &stmts[0] {
        Stmt::ExprStmt(Expr::Bin(l, BinOp::Mul, r)) => {
            assert!(matches!(&**l, Expr::Bin(_, BinOp::Add, _)));
            assert!(matches!(&**r, Expr::Ident(n) if n == "c"));
        }
        other => panic!("unexpected statement: {:?}", other),
    }
}

#[test]
fn decl_with_initializer() {
    let stmts = parse("let x = 42;").expect("parse failed");
    assert_eq!(stmts.len(), 1);
    assert!(matches!(
        &stmts[0],
        Stmt::Decl(name, DeclInit::Int(42)) if name == "x"
    ));
}

#[test]
fn decl_without_initializer_defaults_to_zero() {
    let stmts = parse("let x;").expect("parse failed");
    assert!(matches!(
        &stmts[0],
        Stmt::Decl(name, DeclInit::Int(0)) if name == "x"
    ));
}

#[test]
fn decl_with_string_initializer() {
    let stmts = parse("let s = \"hello\";").expect("parse failed");
    assert!(matches!(
        &stmts[0],
        Stmt::Decl(name, DeclInit::Str(text)) if name == "s" && text == "hello"
    ));
}

#[test]
fn decl_negative_initializer() {
    let stmts = parse("let x = -5;").expect("parse failed");
    assert!(matches!(&stmts[0], Stmt::Decl(_, DeclInit::Int(-5))));
}

#[test]
fn decl_rejects_expression_initializer() {
    // expressions are not allowed as initializers; the statement is
    // dropped and parsing recovers past the semicolon
    assert!(parse("let x = 1 + 2;").is_none());
}

#[test]
fn assignment_statement() {
    let stmts = parse("set x = 1 + 2;").expect("parse failed");
    match &stmts[0] {
        Stmt::Assignment(name, Expr::Bin(_, BinOp::Add, _)) => {
            assert_eq!(name, "x");
        }
        other => panic!("unexpected statement: {:?}", other),
    }
}

#[test]
fn if_without_else() {
    let stmts = parse("if x { y; }").expect("parse failed");
    match &stmts[0] {
        Stmt::If(cond, tb, eb) => {
            assert!(matches!(cond, Expr::Ident(n) if n == "x"));
            assert_eq!(tb.len(), 1);
            assert!(eb.is_none());
        }
        other => panic!("unexpected statement: {:?}", other),
    }
}

#[test]
fn if_with_else() {
    let stmts = parse("if x { y; } else { z; }").expect("parse failed");
    match &stmts[0] {
        Stmt::If(_, tb, Some(eb)) => {
            assert_eq!(tb.len(), 1);
            assert_eq!(eb.len(), 1);
        }
        other => panic!("unexpected statement: {:?}", other),
    }
}

#[test]
fn while_statement() {
    let stmts = parse("while x { set x = 0; }").expect("parse failed");
    match &stmts[0] {
        Stmt::While(cond, body) => {
            assert!(matches!(cond, Expr::Ident(n) if n == "x"));
            assert_eq!(body.len(), 1);
        }
        other => panic!("unexpected statement: {:?}", other),
    }
}

#[test]
fn call_with_arguments() {
    let stmts = parse("f(1, x);").expect("parse failed");
    match &stmts[0] {
        Stmt::ExprStmt(Expr::Call(name, args)) => {
            assert_eq!(name, "f");
            assert_eq!(args.len(), 2);
            assert!(matches!(args[0], Expr::Lit(1)));
            assert!(matches!(&args[1], Expr::Ident(n) if n == "x"));
        }
        other => panic!("unexpected statement: {:?}", other),
    }
}

#[test]
fn call_without_arguments() {
    let stmts = parse("f();").expect("parse failed");
    assert!(matches!(
        &stmts[0],
        Stmt::ExprStmt(Expr::Call(name, args)) if name == "f" && args.is_empty()
    ));
}

#[test]
fn unary_operators() {
    let stmts = parse("- ~ ! x;").expect("parse failed");
    match &stmts[0] {
        Stmt::ExprStmt(Expr::Unary(UnaryOp::Neg, inner)) => match &**inner {
            Expr::Unary(UnaryOp::Not, inner2) => {
                assert!(matches!(&**inner2, Expr::Unary(UnaryOp::BoolNot, _)));
            }
            other => panic!("expected ~, got {:?}", other),
        },
        other => panic!("unexpected statement: {:?}", other),
    }
}

#[test]
fn identifiers_may_hold_hyphens() {
    // a-b is one identifier, not a subtraction
    let stmts = parse("a-b;").expect("parse failed");
    assert!(matches!(
        &stmts[0],
        Stmt::ExprStmt(Expr::Ident(n)) if n == "a-b"
    ));
}

#[test]
fn comments_and_whitespace_are_elided() {
    let stmts = parse("// nothing here\nx; // trailing\n").expect("parse failed");
    assert_eq!(stmts.len(), 1);
    assert!(matches!(&stmts[0], Stmt::ExprStmt(Expr::Ident(_))));
}

#[test]
fn recovery_after_malformed_declaration() {
    // the malformed declaration is discarded up to its semicolon and
    // the well-formed statements still come through
    let stmts = parse("let x = 0; let 5; set x = 2;").expect("parse failed");
    assert_eq!(stmts.len(), 2);
    assert!(matches!(&stmts[0], Stmt::Decl(n, DeclInit::Int(0)) if n == "x"));
    assert!(matches!(&stmts[1], Stmt::Assignment(n, _) if n == "x"));
}

#[test]
fn empty_input_gives_no_block() {
    assert!(parse("").is_none());
}

#[test]
fn unrecognized_text_at_decision_point_is_fatal() {
    assert!(parse("@").is_none());
    assert!(parse("let x = 1; @").is_none());
}

#[test]
fn error_token_skipped_when_consumed_blindly() {
    // the declaration initializer is read without inspecting the next
    // token first, so unrecognized text before it is skipped
    let stmts = parse("let x = @7;").expect("parse failed");
    assert!(matches!(&stmts[0], Stmt::Decl(_, DeclInit::Int(7))));
}

#[test]
fn oversized_literal_is_an_error_token() {
    // 2^63 does not fit an i64 literal; the token is unrecognized and
    // parsing the expression statement hits it at a decision point
    assert!(parse("9223372036854775808;").is_none());
}

#[test]
fn most_negative_literal_parses() {
    let stmts = parse("let x = -9223372036854775808;").expect("parse failed");
    assert!(matches!(&stmts[0], Stmt::Decl(_, DeclInit::Int(i64::MIN))));
}

#[test]
fn string_escapes_are_kept_verbatim() {
    let stmts = parse("let s = \"a\\tb\";").expect("parse failed");
    assert!(matches!(
        &stmts[0],
        Stmt::Decl(_, DeclInit::Str(text)) if text == "a\\tb"
    ));
}

#[test]
fn unterminated_string_is_fatal() {
    assert!(parse("let s = \"oops;").is_none());
}

#[test]
fn empty_else_block_fails_the_statement() {
    assert!(parse("if 1 { x; } else { }").is_none());
}

#[test]
fn unclosed_else_block_is_dropped() {
    // the else code is consumed but discarded when its close brace is
    // missing; the statement itself still parses
    let stmts = parse("if 1 { x; } else { y;").expect("parse failed");
    assert!(matches!(&stmts[0], Stmt::If(_, _, None)));
}

#[test]
fn recovery_resumes_before_a_following_declaration() {
    // after a recovered failure, parsing resumes from the first
    // alternative again, so a following declaration is kept
    let stmts = parse("let 5; let x = 1;").expect("parse failed");
    assert_eq!(stmts.len(), 1);
    assert!(matches!(&stmts[0], Stmt::Decl(n, DeclInit::Int(1)) if n == "x"));

    let stmts = parse("let ; let x = 1;").expect("parse failed");
    assert_eq!(stmts.len(), 1);
    assert!(matches!(&stmts[0], Stmt::Decl(n, DeclInit::Int(1)) if n == "x"));
}

#[test]
fn malformed_declaration_reports_and_recovers() {
    let (block, diags) = parse_with_diags("let 5; let x = 1;");
    assert!(block.is_some());
    assert!(diags.contains(&ParseDiag::ExpectedDeclIdent));
}

#[test]
fn skipped_error_token_is_reported() {
    let (block, diags) = parse_with_diags("let x = @7;");
    assert!(block.is_some());
    assert!(diags.contains(&ParseDiag::UnrecognizedToken));
}

#[test]
fn fatal_error_token_is_reported() {
    let (block, diags) = parse_with_diags("@");
    assert!(block.is_none());
    assert!(diags.contains(&ParseDiag::FatalUnrecognizedToken));
}

#[test]
fn assignment_errors_are_reported() {
    let (_, diags) = parse_with_diags("set x 1;");
    assert!(diags.contains(&ParseDiag::ExpectedAssignEquals));
    let (_, diags) = parse_with_diags("set 1 = 2;");
    assert!(diags.contains(&ParseDiag::ExpectedAssignIdent));
    let (_, diags) = parse_with_diags("let x = 0; set x = 1");
    assert!(diags.contains(&ParseDiag::ExpectedAssignSemicolon));
}

#[test]
fn declaration_errors_are_reported() {
    let (_, diags) = parse_with_diags("let x = 1 + 2;");
    assert!(diags.contains(&ParseDiag::ExpectedDeclSemicolon));
    let (_, diags) = parse_with_diags("let x = if;");
    assert!(diags.contains(&ParseDiag::ExpectedDeclValue));
}

#[test]
fn statement_and_brace_errors_are_reported() {
    let (_, diags) = parse_with_diags("x");
    assert!(diags.contains(&ParseDiag::ExpectedExprStmtSemicolon));
    let (_, diags) = parse_with_diags("if 1 x;");
    assert!(diags.contains(&ParseDiag::ExpectedIfOpenBrace));
    let (_, diags) = parse_with_diags("while 1 x;");
    assert!(diags.contains(&ParseDiag::ExpectedWhileOpenBrace));
    let (_, diags) = parse_with_diags("(1;");
    assert!(diags.contains(&ParseDiag::ExpectedCloseParen));
    let (_, diags) = parse_with_diags("f(1 2);");
    assert!(diags.contains(&ParseDiag::ExpectedCallComma));
}

#[test]
fn clean_parse_reports_nothing() {
    let (block, diags) = parse_with_diags("let x = 1; set x = x + 1;");
    assert!(block.is_some());
    assert!(diags.is_empty());
}
