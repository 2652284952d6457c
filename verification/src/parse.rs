//! The parser: a recursive-descent statement grammar over a
//! precedence-climbing expression grammar, with panic-mode recovery to
//! the next semicolon on a malformed statement.
//!
//! Each level parses a tighter level for its left operand and, on
//! seeing one of its own operators, recurses into itself for the right
//! operand, so chains of same-precedence operators associate to the
//! right. `sp_parse` is the model of the whole parse; the executable
//! functions are proved to follow it exactly.

use vstd::prelude::*;

use crate::expr::{Block, DeclInit, DeclInitView, Expr, ExprView, Stmt, StmtView, BinOp, UnaryOp};
use crate::lex::{sp_note, sp_peek, sp_pop, sp_tokens, Lex, LexView, ParseDiag, Tok, TokView};

verus! {

/// Whether two tokens are of the same kind, payloads disregarded.
pub open spec fn same_tag(a: TokView, b: TokView) -> bool {
    match (a, b) {
        (TokView::Lit(_), TokView::Lit(_)) => true,
        (TokView::Ident(_), TokView::Ident(_)) => true,
        (TokView::Plus, TokView::Plus) => true,
        (TokView::Minus, TokView::Minus) => true,
        (TokView::Star, TokView::Star) => true,
        (TokView::Slash, TokView::Slash) => true,
        (TokView::Rem, TokView::Rem) => true,
        (TokView::Bang, TokView::Bang) => true,
        (TokView::Amp, TokView::Amp) => true,
        (TokView::Tilde, TokView::Tilde) => true,
        (TokView::Equals, TokView::Equals) => true,
        (TokView::Semicolon, TokView::Semicolon) => true,
        (TokView::EqEq, TokView::EqEq) => true,
        (TokView::Less, TokView::Less) => true,
        (TokView::LessUnsigned, TokView::LessUnsigned) => true,
        (TokView::Greater, TokView::Greater) => true,
        (TokView::Or, TokView::Or) => true,
        (TokView::Xor, TokView::Xor) => true,
        (TokView::RShift, TokView::RShift) => true,
        (TokView::ARShift, TokView::ARShift) => true,
        (TokView::LShift, TokView::LShift) => true,
        (TokView::Let, TokView::Let) => true,
        (TokView::LParen, TokView::LParen) => true,
        (TokView::RParen, TokView::RParen) => true,
        (TokView::LBracket, TokView::LBracket) => true,
        (TokView::RBracket, TokView::RBracket) => true,
        (TokView::If, TokView::If) => true,
        (TokView::Else, TokView::Else) => true,
        (TokView::While, TokView::While) => true,
        (TokView::Comma, TokView::Comma) => true,
        (TokView::String(_), TokView::String(_)) => true,
        (TokView::SetKw, TokView::SetKw) => true,
        (TokView::Error, TokView::Error) => true,
        _ => false,
    }
}

/// Consume the next token when it is of the expected kind.
pub open spec fn sp_match_tok(lv: LexView, expected: TokView) -> (Option<TokView>, LexView) {
    let (p, lv1) = sp_peek(lv);
    match p {
        None => (None, lv1),
        Some(t) => if same_tag(t, expected) {
            sp_pop(lv1)
        } else {
            (None, lv1)
        },
    }
}

/// Consume the next token when it is of the expected kind; report the
/// given diagnostic when it is not.
pub open spec fn sp_expect(lv: LexView, expected: TokView, d: ParseDiag) -> (
    Option<TokView>,
    LexView,
) {
    let (m, lv1) = sp_match_tok(lv, expected);
    match m {
        Some(t) => (Some(t), lv1),
        None => (None, sp_note(lv1, d)),
    }
}

/// Panic-mode resynchronization: discard tokens up to and including
/// the next semicolon, or to the end of the input.
pub open spec fn sp_sync(lv: LexView) -> LexView
    decreases lv.toks.len(),
{
    let (p, lv1) = sp_pop(lv);
    match p {
        None => lv1,
        Some(TokView::Semicolon) => lv1,
        Some(_) => if lv1.toks.len() < lv.toks.len() {
            sp_sync(lv1)
        } else {
            lv1
        },
    }
}

/// An atom: a variable reference, a literal, or a parenthesized
/// expression. A token that fits none of these is pushed back.
pub open spec fn sp_parse_atom(lv: LexView) -> (Option<ExprView>, LexView)
    decreases lv.toks.len(), 1nat,
{
    let (p, lv1) = sp_pop(lv);
    match p {
        Some(TokView::Ident(i)) => (Some(ExprView::Ident(i)), lv1),
        Some(TokView::Lit(l)) => (Some(ExprView::Lit(l)), lv1),
        Some(TokView::String(s)) => (Some(ExprView::String(s)), lv1),
        Some(TokView::LParen) => {
            let (ret, lv2) = if lv1.toks.len() < lv.toks.len() {
                sp_parse_expr(lv1)
            } else {
                (None, lv1)
            };
            let (p2, lv3) = sp_peek(lv2);
            match p2 {
                Some(TokView::RParen) => {
                    let (q, lv4) = sp_pop(lv3);
                    (ret, lv4)
                },
                _ => (None, sp_note(lv3, ParseDiag::ExpectedCloseParen)),
            }
        },
        Some(other) => (
            None,
            LexView { toks: seq![other] + lv1.toks, fatal: lv1.fatal, diags: lv1.diags },
        ),
        None => (None, lv1),
    }
}

/// The arguments of a call after the first one: a close paren ends the
/// list, a comma precedes each further argument, anything else is a
/// syntax error left to statement-level recovery.
pub open spec fn sp_call_rest(lv: LexView) -> (Option<Seq<ExprView>>, LexView)
    decreases lv.toks.len(), 0nat,
{
    let (p, lv1) = sp_peek(lv);
    match p {
        Some(TokView::RParen) => {
            let (q, lv2) = sp_pop(lv1);
            (Some(seq![]), lv2)
        },
        Some(TokView::Comma) => {
            let (q, lv2) = sp_pop(lv1);
            let (e, lv3) = if lv2.toks.len() < lv.toks.len() {
                sp_parse_expr(lv2)
            } else {
                (None, lv2)
            };
            match e {
                None => (None, lv3),
                Some(x) => {
                    let (rest, lv4) = if lv3.toks.len() < lv.toks.len() {
                        sp_call_rest(lv3)
                    } else {
                        (None, lv3)
                    };
                    match rest {
                        None => (None, lv4),
                        Some(xs) => (Some(seq![x] + xs), lv4),
                    }
                },
            }
        },
        _ => (None, sp_note(lv1, ParseDiag::ExpectedCallComma)),
    }
}

/// A call, or a plain atom: an identifier directly followed by an open
/// paren is a call.
pub open spec fn sp_parse_call(lv: LexView) -> (Option<ExprView>, LexView)
    decreases lv.toks.len(), 2nat,
{
    let (first, lv1) = sp_parse_atom(lv);
    match first {
        None => (None, lv1),
        Some(fe) => {
            let (p, lv2) = sp_peek(lv1);
            match (fe, p) {
                (ExprView::Ident(s), Some(TokView::LParen)) => {
                let (q, lv3) = sp_pop(lv2);
                let (p2, lv4) = sp_peek(lv3);
                if p2 matches Some(TokView::RParen) {
                    let (q2, lv5) = sp_pop(lv4);
                    (Some(ExprView::Call(s, seq![])), lv5)
                } else {
                    let (e0, lv5) = if lv4.toks.len() < lv.toks.len() {
                        sp_parse_expr(lv4)
                    } else {
                        (None, lv4)
                    };
                    match e0 {
                        Some(x0) => {
                            let (rest, lv6) = if lv5.toks.len() < lv.toks.len() {
                                sp_call_rest(lv5)
                            } else {
                                (None, lv5)
                            };
                            match rest {
                                None => (None, lv6),
                                Some(xs) => (Some(ExprView::Call(s, seq![x0] + xs)), lv6),
                            }
                        },
                        None => (None, sp_note(lv5, ParseDiag::ExpectedCallArgument)),
                    }
                }
                },
                (other_fe, _) => (Some(other_fe), lv2),
            }
        },
    }
}

/// A prefix operator chain, right-recursive.
pub open spec fn sp_parse_unary(lv: LexView) -> (Option<ExprView>, LexView)
    decreases lv.toks.len(), 3nat,
{
    let (p, lv1) = sp_peek(lv);
    let op = match p {
        Some(TokView::Amp) => Some(UnaryOp::Addr),
        Some(TokView::Star) => Some(UnaryOp::Deref),
        Some(TokView::Minus) => Some(UnaryOp::Neg),
        Some(TokView::Tilde) => Some(UnaryOp::Not),
        Some(TokView::Bang) => Some(UnaryOp::BoolNot),
        _ => None,
    };
    match op {
        None => sp_parse_call(lv1),
        Some(o) => {
            let (q, lv2) = sp_pop(lv1);
            let (operand, lv3) = if lv2.toks.len() < lv.toks.len() {
                sp_parse_unary(lv2)
            } else {
                (None, lv2)
            };
            match operand {
                None => (None, lv3),
                Some(e) => (Some(ExprView::Unary(o, Box::new(e))), lv3),
            }
        },
    }
}

/// The binary operator a level handles at the token in front, if any.
pub open spec fn level_op(level: nat, p: Option<TokView>) -> Option<BinOp> {
    match p {
        Some(TokView::Star) => if level == 4 {
            Some(BinOp::Mul)
        } else {
            None
        },
        Some(TokView::Slash) => if level == 4 {
            Some(BinOp::Div)
        } else {
            None
        },
        Some(TokView::Rem) => if level == 4 {
            Some(BinOp::Rem)
        } else {
            None
        },
        Some(TokView::Plus) => if level == 5 {
            Some(BinOp::Add)
        } else {
            None
        },
        Some(TokView::Minus) => if level == 5 {
            Some(BinOp::Sub)
        } else {
            None
        },
        Some(TokView::RShift) => if level == 6 {
            Some(BinOp::Srl)
        } else {
            None
        },
        Some(TokView::ARShift) => if level == 6 {
            Some(BinOp::Sra)
        } else {
            None
        },
        Some(TokView::LShift) => if level == 6 {
            Some(BinOp::Sll)
        } else {
            None
        },
        Some(TokView::Less) => if level == 7 {
            Some(BinOp::Less)
        } else {
            None
        },
        Some(TokView::LessUnsigned) => if level == 7 {
            Some(BinOp::LessUnsigned)
        } else {
            None
        },
        Some(TokView::Greater) => if level == 7 {
            Some(BinOp::Greater)
        } else {
            None
        },
        Some(TokView::EqEq) => if level == 8 {
            Some(BinOp::TestEq)
        } else {
            None
        },
        Some(TokView::Amp) => if level == 9 {
            Some(BinOp::And)
        } else {
            None
        },
        Some(TokView::Xor) => if level == 10 {
            Some(BinOp::Xor)
        } else {
            None
        },
        Some(TokView::Or) => if level == 11 {
            Some(BinOp::Or)
        } else {
            None
        },
        _ => None,
    }
}

/// One precedence level: the tighter level for the left operand, then,
/// on one of this level's operators, the same level again for the
/// right operand — which is what makes operator chains right-nested.
pub open spec fn sp_parse_level(level: nat, lv: LexView) -> (Option<ExprView>, LexView)
    decreases lv.toks.len(), level,
{
    let (first, lv1) = if level == 4 {
        sp_parse_unary(lv)
    } else if 5 <= level <= 11 {
        sp_parse_level((level - 1) as nat, lv)
    } else {
        (None, lv)
    };
    match first {
        None => (None, lv1),
        Some(f) => {
            let (p, lv2) = sp_peek(lv1);
            match level_op(level, p) {
                None => (Some(f), lv2),
                Some(o) => {
                    let (q, lv3) = sp_pop(lv2);
                    let (second, lv4) = if lv3.toks.len() < lv.toks.len() {
                        sp_parse_level(level, lv3)
                    } else {
                        (None, lv3)
                    };
                    match second {
                        None => (None, lv4),
                        Some(s2) => (Some(ExprView::Bin(Box::new(f), o, Box::new(s2))), lv4),
                    }
                },
            }
        },
    }
}

/// A full expression: the loosest level, bitwise or.
pub open spec fn sp_parse_expr(lv: LexView) -> (Option<ExprView>, LexView)
    decreases lv.toks.len(), 12nat,
{
    sp_parse_level(11, lv)
}

/// The `;`-terminated tail of a declaration.
pub open spec fn sp_decl_tail(lv: LexView, name: Seq<char>, val: DeclInitView) -> (
    Option<StmtView>,
    LexView,
) {
    let (ms, lv1) = sp_match_tok(lv, TokView::Semicolon);
    match ms {
        Some(_) => (Some(StmtView::Decl(name, val)), lv1),
        None => (None, sp_sync(sp_note(lv1, ParseDiag::ExpectedDeclSemicolon))),
    }
}

/// A declaration: `let` name, an optional literal initializer
/// (defaulting to integer zero; expressions are not allowed here), and
/// a semicolon. A malformed declaration resynchronizes to the next
/// semicolon.
pub open spec fn sp_parse_decl(lv: LexView) -> (Option<StmtView>, LexView) {
    let (m, lv1) = sp_match_tok(lv, TokView::Let);
    match m {
        None => (None, lv1),
        Some(_) => {
            let (mi, lv2) = sp_match_tok(lv1, TokView::Ident(Seq::empty()));
            match mi {
                Some(TokView::Ident(name)) => {
                    let (me, lv3) = sp_match_tok(lv2, TokView::Equals);
                    match me {
                        Some(_) => {
                            let (p, lv4) = sp_pop(lv3);
                            match p {
                                Some(TokView::Lit(v)) => sp_decl_tail(
                                    lv4,
                                    name,
                                    DeclInitView::Int(v),
                                ),
                                Some(TokView::String(s)) => sp_decl_tail(
                                    lv4,
                                    name,
                                    DeclInitView::Str(s),
                                ),
                                _ => (None, sp_sync(sp_note(lv4, ParseDiag::ExpectedDeclValue))),
                            }
                        },
                        None => sp_decl_tail(lv3, name, DeclInitView::Int(0)),
                    }
                },
                _ => (None, sp_sync(sp_note(lv2, ParseDiag::ExpectedDeclIdent))),
            }
        },
    }
}

/// An assignment: `set` name `=` expression `;`.
pub open spec fn sp_parse_assign(lv: LexView) -> (Option<StmtView>, LexView) {
    let (m, lv1) = sp_match_tok(lv, TokView::SetKw);
    match m {
        None => (None, lv1),
        Some(_) => {
            let (mi, lv2) = sp_match_tok(lv1, TokView::Ident(Seq::empty()));
            match mi {
                Some(TokView::Ident(name)) => {
                    let (me, lv3) = sp_match_tok(lv2, TokView::Equals);
                    match me {
                        None => (None, sp_sync(sp_note(lv3, ParseDiag::ExpectedAssignEquals))),
                        Some(_) => {
                            let (e, lv4) = sp_parse_expr(lv3);
                            match e {
                                None => (
                                    None,
                                    sp_sync(sp_note(lv4, ParseDiag::ExpectedAssignExpr)),
                                ),
                                Some(x) => {
                                    let (ms, lv5) = sp_match_tok(lv4, TokView::Semicolon);
                                    match ms {
                                        Some(_) => (Some(StmtView::Assignment(name, x)), lv5),
                                        None => (
                                            None,
                                            sp_sync(
                                                sp_note(lv5, ParseDiag::ExpectedAssignSemicolon),
                                            ),
                                        ),
                                    }
                                },
                            }
                        },
                    }
                },
                _ => (None, sp_sync(sp_note(lv2, ParseDiag::ExpectedAssignIdent))),
            }
        },
    }
}

/// An expression statement: an expression, discarded, and a semicolon.
pub open spec fn sp_parse_expr_stmt(lv: LexView) -> (Option<StmtView>, LexView) {
    let (e, lv1) = sp_parse_expr(lv);
    match e {
        None => (None, lv1),
        Some(x) => {
            let (ms, lv2) = sp_match_tok(lv1, TokView::Semicolon);
            match ms {
                Some(_) => (Some(StmtView::ExprStmt(x)), lv2),
                None => (None, sp_sync(sp_note(lv2, ParseDiag::ExpectedExprStmtSemicolon))),
            }
        },
    }
}

/// The tail of an if statement from the optional `else` on, applied
/// to what the head already parsed.
pub open spec fn sp_if_tail(
    cond: Option<ExprView>,
    ok: bool,
    tb: Option<Seq<StmtView>>,
    lv: LexView,
    orig_len: int,
) -> (Option<StmtView>, LexView)
    decreases orig_len, 0nat,
{
    let (melse, lv7) = sp_match_tok(lv, TokView::Else);
    match melse {
        Some(_) => {
            let (mlb2, lv8) = sp_expect(lv7, TokView::LBracket, ParseDiag::ExpectedElseOpenBrace);
            match mlb2 {
                None => (None, lv8),
                Some(_) => {
                    let (fb, lv9) = if lv8.toks.len() < orig_len {
                        sp_parse_block(lv8)
                    } else {
                        (None, lv8)
                    };
                    let (mrb2, lv10) = sp_expect(
                        lv9,
                        TokView::RBracket,
                        ParseDiag::ExpectedElseCloseBrace,
                    );
                    if mrb2 is Some && fb is None {
                        // an empty else block fails the statement
                        (None, lv10)
                    } else {
                        let else_block = if mrb2 is Some {
                            Some(fb->Some_0)
                        } else {
                            None
                        };
                        if ok && cond is Some && tb is Some {
                            (Some(StmtView::If(cond->Some_0, tb->Some_0, else_block)), lv10)
                        } else {
                            (None, lv10)
                        }
                    }
                },
            }
        },
        None => {
            if ok && cond is Some && tb is Some {
                (Some(StmtView::If(cond->Some_0, tb->Some_0, None)), lv7)
            } else {
                (None, lv7)
            }
        },
    }
}

/// An if statement: condition, mandatory braced block, optional
/// `else` with a braced block. A malformed true block fails the whole
/// statement; a missing close brace after the else quietly drops the
/// else branch and keeps the statement.
pub open spec fn sp_parse_if_stmt(lv: LexView) -> (Option<StmtView>, LexView)
    decreases lv.toks.len(), 1nat,
{
    let (p, lv1) = sp_peek(lv);
    if !(p matches Some(TokView::If)) {
        (None, lv1)
    } else {
        let (q, lv2) = sp_pop(lv1);
        let (cond, lv3) = sp_parse_expr(lv2);
        let (mlb, lv4) = sp_expect(lv3, TokView::LBracket, ParseDiag::ExpectedIfOpenBrace);
        match mlb {
            None => (None, lv4),
            Some(_) => {
                let (tb, lv5) = if lv4.toks.len() < lv.toks.len() {
                    sp_parse_block(lv4)
                } else {
                    (None, lv4)
                };
                let (mrb, lv6) = sp_expect(lv5, TokView::RBracket, ParseDiag::ExpectedIfCloseBrace);
                let ok = mrb is Some;
                sp_if_tail(cond, ok, tb, lv6, lv.toks.len() as int)
            },
        }
    }
}

/// A while statement: condition and a braced body.
pub open spec fn sp_parse_while(lv: LexView) -> (Option<StmtView>, LexView)
    decreases lv.toks.len(), 1nat,
{
    let (p, lv1) = sp_peek(lv);
    if !(p matches Some(TokView::While)) {
        (None, lv1)
    } else {
        let (q, lv2) = sp_pop(lv1);
        let (cond, lv3) = sp_parse_expr(lv2);
        let (mlb, lv4) = sp_expect(lv3, TokView::LBracket, ParseDiag::ExpectedWhileOpenBrace);
        match mlb {
            None => (None, lv4),
            Some(_) => {
                let (tb, lv5) = if lv4.toks.len() < lv.toks.len() {
                    sp_parse_block(lv4)
                } else {
                    (None, lv4)
                };
                let (mrb, lv6) = sp_expect(
                    lv5,
                    TokView::RBracket,
                    ParseDiag::ExpectedWhileCloseBrace,
                );
                match mrb {
                    None => (None, lv6),
                    Some(_) => {
                        if cond is Some && tb is Some {
                            (Some(StmtView::While(cond->Some_0, tb->Some_0)), lv6)
                        } else {
                            (None, lv6)
                        }
                    },
                }
            },
        }
    }
}

/// One round of the statement loop: the alternatives tried in a fixed
/// order, committed by their leading token.
pub open spec fn sp_parse_stmt_round(lv: LexView) -> (Option<StmtView>, LexView)
    decreases lv.toks.len(), 2nat,
{
    let (d, lv1) = sp_parse_decl(lv);
    match d {
        Some(s) => (Some(s), lv1),
        None => {
            let (a, lv2) = sp_parse_assign(lv1);
            match a {
                Some(s) => (Some(s), lv2),
                None => {
                    let (e, lv3) = sp_parse_expr_stmt(lv2);
                    match e {
                        Some(s) => (Some(s), lv3),
                        None => {
                            let (i, lv4) = if lv3.toks.len() <= lv.toks.len() {
                                sp_parse_if_stmt(lv3)
                            } else {
                                (None, lv3)
                            };
                            match i {
                                Some(s) => (Some(s), lv4),
                                None => {
                                    let (w, lv5) = if lv4.toks.len() <= lv.toks.len() {
                                        sp_parse_while(lv4)
                                    } else {
                                        (None, lv4)
                                    };
                                    (w, lv5)
                                },
                            }
                        },
                    }
                },
            }
        },
    }
}

/// The statement list of a block: rounds are taken until one neither
/// produces a statement nor consumes a token. A round that failed but
/// consumed tokens recovered from a malformed statement, and parsing
/// resumes with the next statement from the first alternative again.
pub open spec fn sp_parse_block_list(lv: LexView) -> (Seq<StmtView>, LexView)
    decreases lv.toks.len(), 3nat,
{
    let (s, lv1) = sp_parse_stmt_round(lv);
    match s {
        None => {
            if lv1.toks.len() < lv.toks.len() {
                sp_parse_block_list(lv1)
            } else {
                (seq![], lv1)
            }
        },
        Some(st) => {
            if lv1.toks.len() < lv.toks.len() {
                let (rest, lvr) = sp_parse_block_list(lv1);
                (seq![st] + rest, lvr)
            } else {
                (seq![st], lv1)
            }
        },
    }
}

/// A block: its statement list, or nothing when no statement was
/// produced.
pub open spec fn sp_parse_block(lv: LexView) -> (Option<Seq<StmtView>>, LexView)
    decreases lv.toks.len(), 4nat,
{
    let (stmts, lv1) = sp_parse_block_list(lv);
    if stmts.len() >= 1 {
        (Some(stmts), lv1)
    } else {
        (None, lv1)
    }
}

/// Popping never lengthens the stream, and consumes when it yields.
pub proof fn lemma_pop_le(lv: LexView)
    ensures
        sp_pop(lv).1.toks.len() <= lv.toks.len(),
        sp_pop(lv).0 is Some ==> sp_pop(lv).1.toks.len() < lv.toks.len(),
    decreases lv.toks.len(),
{
    if lv.toks.len() > 0 && lv.toks[0] is Error {
        lemma_pop_le(
            LexView {
                toks: lv.toks.subrange(1, lv.toks.len() as int),
                fatal: lv.fatal,
                diags: lv.diags.push(ParseDiag::UnrecognizedToken),
            },
        );
    }
}

/// Matching never lengthens the stream, and consumes when it yields.
pub proof fn lemma_match_le(lv: LexView, expected: TokView)
    ensures
        sp_match_tok(lv, expected).1.toks.len() <= lv.toks.len(),
        sp_match_tok(lv, expected).0 is Some ==> sp_match_tok(lv, expected).1.toks.len()
            < lv.toks.len(),
{
    let (p, lv1) = sp_peek(lv);
    lemma_pop_le(lv1);
}

/// Expecting never lengthens the stream, and consumes when it yields.
pub proof fn lemma_expect_le(lv: LexView, expected: TokView, d: ParseDiag)
    ensures
        sp_expect(lv, expected, d).1.toks.len() <= lv.toks.len(),
        sp_expect(lv, expected, d).0 is Some ==> sp_expect(lv, expected, d).1.toks.len()
            < lv.toks.len(),
{
    lemma_match_le(lv, expected);
}

/// Resynchronization never lengthens the stream.
pub proof fn lemma_sync_le(lv: LexView)
    ensures
        sp_sync(lv).toks.len() <= lv.toks.len(),
    decreases lv.toks.len(),
{
    let (p, lv1) = sp_pop(lv);
    lemma_pop_le(lv);
    match p {
        None => {},
        Some(TokView::Semicolon) => {},
        Some(_) => {
            if lv1.toks.len() < lv.toks.len() {
                lemma_sync_le(lv1);
            }
        },
    }
}

/// Atoms never lengthen the stream, and consume when they yield.
pub proof fn lemma_atom_le(lv: LexView)
    ensures
        sp_parse_atom(lv).1.toks.len() <= lv.toks.len(),
        sp_parse_atom(lv).0 is Some ==> sp_parse_atom(lv).1.toks.len() < lv.toks.len(),
    decreases lv.toks.len(), 1nat,
{
    let (p, lv1) = sp_pop(lv);
    lemma_pop_le(lv);
    match p {
        Some(TokView::LParen) => {
            if lv1.toks.len() < lv.toks.len() {
                lemma_expr_le(lv1);
            }
            let (ret, lv2) = if lv1.toks.len() < lv.toks.len() {
                sp_parse_expr(lv1)
            } else {
                (None, lv1)
            };
            let (p2, lv3) = sp_peek(lv2);
            lemma_pop_le(lv3);
        },
        _ => {},
    }
}

/// Argument tails never lengthen the stream, and consume when they
/// yield.
pub proof fn lemma_call_rest_le(lv: LexView)
    ensures
        sp_call_rest(lv).1.toks.len() <= lv.toks.len(),
        sp_call_rest(lv).0 is Some ==> sp_call_rest(lv).1.toks.len() < lv.toks.len(),
    decreases lv.toks.len(), 0nat,
{
    let (p, lv1) = sp_peek(lv);
    match p {
        Some(TokView::RParen) => {
            lemma_pop_le(lv1);
        },
        Some(TokView::Comma) => {
            lemma_pop_le(lv1);
            let (q, lv2) = sp_pop(lv1);
            if lv2.toks.len() < lv.toks.len() {
                lemma_expr_le(lv2);
            }
            let (e, lv3) = if lv2.toks.len() < lv.toks.len() {
                sp_parse_expr(lv2)
            } else {
                (None, lv2)
            };
            if lv3.toks.len() < lv.toks.len() {
                lemma_call_rest_le(lv3);
            }
        },
        _ => {},
    }
}

/// Calls never lengthen the stream, and consume when they yield.
pub proof fn lemma_call_le(lv: LexView)
    ensures
        sp_parse_call(lv).1.toks.len() <= lv.toks.len(),
        sp_parse_call(lv).0 is Some ==> sp_parse_call(lv).1.toks.len() < lv.toks.len(),
    decreases lv.toks.len(), 2nat,
{
    lemma_atom_le(lv);
    let (first, lv1) = sp_parse_atom(lv);
    match first {
        None => {},
        Some(fe) => {
            let (p, lv2) = sp_peek(lv1);
            match (fe, p) {
                (ExprView::Ident(s), Some(TokView::LParen)) => {
                    lemma_pop_le(lv2);
                    let (q, lv3) = sp_pop(lv2);
                    let (p2, lv4) = sp_peek(lv3);
                    if p2 matches Some(TokView::RParen) {
                        lemma_pop_le(lv4);
                    } else {
                        if lv4.toks.len() < lv.toks.len() {
                            lemma_expr_le(lv4);
                        }
                        let (e0, lv5) = if lv4.toks.len() < lv.toks.len() {
                            sp_parse_expr(lv4)
                        } else {
                            (None, lv4)
                        };
                        if lv5.toks.len() < lv.toks.len() {
                            lemma_call_rest_le(lv5);
                        }
                    }
                },
                _ => {},
            }
        },
    }
}

/// Unary chains never lengthen the stream, and consume when they
/// yield.
pub proof fn lemma_unary_le(lv: LexView)
    ensures
        sp_parse_unary(lv).1.toks.len() <= lv.toks.len(),
        sp_parse_unary(lv).0 is Some ==> sp_parse_unary(lv).1.toks.len() < lv.toks.len(),
    decreases lv.toks.len(), 3nat,
{
    let (p, lv1) = sp_peek(lv);
    let op = match p {
        Some(TokView::Amp) => Some(UnaryOp::Addr),
        Some(TokView::Star) => Some(UnaryOp::Deref),
        Some(TokView::Minus) => Some(UnaryOp::Neg),
        Some(TokView::Tilde) => Some(UnaryOp::Not),
        Some(TokView::Bang) => Some(UnaryOp::BoolNot),
        _ => None,
    };
    match op {
        None => {
            lemma_call_le(lv1);
        },
        Some(o) => {
            lemma_pop_le(lv1);
            let (q, lv2) = sp_pop(lv1);
            if lv2.toks.len() < lv.toks.len() {
                lemma_unary_le(lv2);
            }
        },
    }
}

/// Precedence levels never lengthen the stream, and consume when they
/// yield.
pub proof fn lemma_level_le(level: nat, lv: LexView)
    ensures
        sp_parse_level(level, lv).1.toks.len() <= lv.toks.len(),
        sp_parse_level(level, lv).0 is Some ==> sp_parse_level(level, lv).1.toks.len()
            < lv.toks.len(),
    decreases lv.toks.len(), level,
{
    if level == 4 {
        lemma_unary_le(lv);
    } else if 5 <= level <= 11 {
        lemma_level_le((level - 1) as nat, lv);
    }
    let (first, lv1) = if level == 4 {
        sp_parse_unary(lv)
    } else if 5 <= level <= 11 {
        sp_parse_level((level - 1) as nat, lv)
    } else {
        (None, lv)
    };
    match first {
        None => {},
        Some(f) => {
            let (p, lv2) = sp_peek(lv1);
            match level_op(level, p) {
                None => {},
                Some(o) => {
                    lemma_pop_le(lv2);
                    let (q, lv3) = sp_pop(lv2);
                    if lv3.toks.len() < lv.toks.len() {
                        lemma_level_le(level, lv3);
                    }
                },
            }
        },
    }
}

/// Expressions never lengthen the stream, and consume when they yield.
pub proof fn lemma_expr_le(lv: LexView)
    ensures
        sp_parse_expr(lv).1.toks.len() <= lv.toks.len(),
        sp_parse_expr(lv).0 is Some ==> sp_parse_expr(lv).1.toks.len() < lv.toks.len(),
    decreases lv.toks.len(), 12nat,
{
    lemma_level_le(11, lv);
}

/// Right associativity, at every binary operator level, once and for
/// all: whenever a level's left operand parses and one of this level's
/// own operators follows it, the level's result carries that operand
/// on the left and, as its right operand, the whole same-level parse
/// of the rest of the stream. A chain `e1 op e2 op e3` therefore
/// nests as `Bin(e1, op, Bin(e2, op, e3))`, never as
/// `Bin(Bin(e1, op, e2), op, e3)` — a defining behavior of the
/// grammar.
pub proof fn lemma_right_associativity(level: nat, lv: LexView)
    requires
        4 <= level <= 11,
    ensures
        ({
            let (first, lv1) = if level == 4 {
                sp_parse_unary(lv)
            } else {
                sp_parse_level((level - 1) as nat, lv)
            };
            first matches Some(f) ==> {
                let (p, lv2) = sp_peek(lv1);
                level_op(level, p) matches Some(o) ==> {
                    let (q, lv3) = sp_pop(lv2);
                    let (second, lv4) = sp_parse_level(level, lv3);
                    sp_parse_level(level, lv) == (
                        match second {
                            Some(s2) => Some(ExprView::Bin(Box::new(f), o, Box::new(s2))),
                            None => None,
                        },
                        lv4,
                    )
                }
            }
        }),
{
    if level == 4 {
        lemma_unary_le(lv);
    } else {
        lemma_level_le((level - 1) as nat, lv);
    }
    let (first, lv1) = if level == 4 {
        sp_parse_unary(lv)
    } else {
        sp_parse_level((level - 1) as nat, lv)
    };
    match first {
        Some(f) => {
            let (p, lv2) = sp_peek(lv1);
            match level_op(level, p) {
                Some(o) => {
                    lemma_pop_le(lv2);
                    assert(sp_pop(lv2).1.toks.len() < lv.toks.len());
                },
                None => {},
            }
        },
        None => {},
    }
}

/// Declarations never lengthen the stream, and consume when they
/// yield.
pub proof fn lemma_decl_le(lv: LexView)
    ensures
        sp_parse_decl(lv).1.toks.len() <= lv.toks.len(),
        sp_parse_decl(lv).0 is Some ==> sp_parse_decl(lv).1.toks.len() < lv.toks.len(),
{
    lemma_match_le(lv, TokView::Let);
    let (m, lv1) = sp_match_tok(lv, TokView::Let);
    match m {
        None => {},
        Some(_) => {
            lemma_match_le(lv1, TokView::Ident(Seq::empty()));
            let (mi, lv2) = sp_match_tok(lv1, TokView::Ident(Seq::empty()));
            match mi {
                Some(TokView::Ident(name)) => {
                    lemma_match_le(lv2, TokView::Equals);
                    let (me, lv3) = sp_match_tok(lv2, TokView::Equals);
                    match me {
                        Some(_) => {
                            lemma_pop_le(lv3);
                            let (p, lv4) = sp_pop(lv3);
                            lemma_match_le(lv4, TokView::Semicolon);
                            lemma_sync_le(
                                sp_note(
                                    sp_match_tok(lv4, TokView::Semicolon).1,
                                    ParseDiag::ExpectedDeclSemicolon,
                                ),
                            );
                            lemma_sync_le(sp_note(lv4, ParseDiag::ExpectedDeclValue));
                        },
                        None => {
                            lemma_match_le(lv3, TokView::Semicolon);
                            lemma_sync_le(
                                sp_note(
                                    sp_match_tok(lv3, TokView::Semicolon).1,
                                    ParseDiag::ExpectedDeclSemicolon,
                                ),
                            );
                        },
                    }
                },
                _ => {
                    lemma_sync_le(sp_note(lv2, ParseDiag::ExpectedDeclIdent));
                },
            }
        },
    }
}

/// Assignments never lengthen the stream, and consume when they
/// yield.
pub proof fn lemma_assign_le(lv: LexView)
    ensures
        sp_parse_assign(lv).1.toks.len() <= lv.toks.len(),
        sp_parse_assign(lv).0 is Some ==> sp_parse_assign(lv).1.toks.len() < lv.toks.len(),
{
    lemma_match_le(lv, TokView::SetKw);
    let (m, lv1) = sp_match_tok(lv, TokView::SetKw);
    match m {
        None => {},
        Some(_) => {
            lemma_match_le(lv1, TokView::Ident(Seq::empty()));
            let (mi, lv2) = sp_match_tok(lv1, TokView::Ident(Seq::empty()));
            match mi {
                Some(TokView::Ident(name)) => {
                    lemma_match_le(lv2, TokView::Equals);
                    let (me, lv3) = sp_match_tok(lv2, TokView::Equals);
                    match me {
                        None => {
                            lemma_sync_le(sp_note(lv3, ParseDiag::ExpectedAssignEquals));
                        },
                        Some(_) => {
                            lemma_expr_le(lv3);
                            let (e, lv4) = sp_parse_expr(lv3);
                            match e {
                                None => {
                                    lemma_sync_le(sp_note(lv4, ParseDiag::ExpectedAssignExpr));
                                },
                                Some(x) => {
                                    lemma_match_le(lv4, TokView::Semicolon);
                                    lemma_sync_le(
                                        sp_note(
                                            sp_match_tok(lv4, TokView::Semicolon).1,
                                            ParseDiag::ExpectedAssignSemicolon,
                                        ),
                                    );
                                },
                            }
                        },
                    }
                },
                _ => {
                    lemma_sync_le(sp_note(lv2, ParseDiag::ExpectedAssignIdent));
                },
            }
        },
    }
}

/// Expression statements never lengthen the stream, and consume when
/// they yield.
pub proof fn lemma_expr_stmt_le(lv: LexView)
    ensures
        sp_parse_expr_stmt(lv).1.toks.len() <= lv.toks.len(),
        sp_parse_expr_stmt(lv).0 is Some ==> sp_parse_expr_stmt(lv).1.toks.len() < lv.toks.len(),
{
    lemma_expr_le(lv);
    let (e, lv1) = sp_parse_expr(lv);
    match e {
        None => {},
        Some(x) => {
            lemma_match_le(lv1, TokView::Semicolon);
            lemma_sync_le(
                sp_note(
                    sp_match_tok(lv1, TokView::Semicolon).1,
                    ParseDiag::ExpectedExprStmtSemicolon,
                ),
            );
        },
    }
}

/// The if tail never lengthens the stream.
pub proof fn lemma_if_tail_le(
    cond: Option<ExprView>,
    ok: bool,
    tb: Option<Seq<StmtView>>,
    lv: LexView,
    orig_len: int,
)
    ensures
        sp_if_tail(cond, ok, tb, lv, orig_len).1.toks.len() <= lv.toks.len(),
    decreases orig_len, 0nat,
{
    lemma_match_le(lv, TokView::Else);
    let (melse, lv7) = sp_match_tok(lv, TokView::Else);
    match melse {
        Some(_) => {
            lemma_expect_le(lv7, TokView::LBracket, ParseDiag::ExpectedElseOpenBrace);
            let (mlb2, lv8) = sp_expect(lv7, TokView::LBracket, ParseDiag::ExpectedElseOpenBrace);
            match mlb2 {
                None => {},
                Some(_) => {
                    if lv8.toks.len() < orig_len {
                        lemma_block_le(lv8);
                    }
                    let (fb, lv9) = if lv8.toks.len() < orig_len {
                        sp_parse_block(lv8)
                    } else {
                        (None, lv8)
                    };
                    lemma_expect_le(lv9, TokView::RBracket, ParseDiag::ExpectedElseCloseBrace);
                },
            }
        },
        None => {},
    }
}

/// If statements never lengthen the stream, and consume when they
/// yield.
pub proof fn lemma_if_le(lv: LexView)
    ensures
        sp_parse_if_stmt(lv).1.toks.len() <= lv.toks.len(),
        sp_parse_if_stmt(lv).0 is Some ==> sp_parse_if_stmt(lv).1.toks.len() < lv.toks.len(),
    decreases lv.toks.len(), 1nat,
{
    let (p, lv1) = sp_peek(lv);
    if !(p matches Some(TokView::If)) {
    } else {
        lemma_pop_le(lv1);
        let (q, lv2) = sp_pop(lv1);
        lemma_expr_le(lv2);
        let (cond, lv3) = sp_parse_expr(lv2);
        lemma_expect_le(lv3, TokView::LBracket, ParseDiag::ExpectedIfOpenBrace);
        let (mlb, lv4) = sp_expect(lv3, TokView::LBracket, ParseDiag::ExpectedIfOpenBrace);
        match mlb {
            None => {},
            Some(_) => {
                if lv4.toks.len() < lv.toks.len() {
                    lemma_block_le(lv4);
                }
                let (tb, lv5) = if lv4.toks.len() < lv.toks.len() {
                    sp_parse_block(lv4)
                } else {
                    (None, lv4)
                };
                lemma_expect_le(lv5, TokView::RBracket, ParseDiag::ExpectedIfCloseBrace);
                let (mrb, lv6) = sp_expect(lv5, TokView::RBracket, ParseDiag::ExpectedIfCloseBrace);
                lemma_if_tail_le(cond, mrb is Some, tb, lv6, lv.toks.len() as int);
            },
        }
    }
}

/// While statements never lengthen the stream, and consume when they
/// yield.
pub proof fn lemma_while_le(lv: LexView)
    ensures
        sp_parse_while(lv).1.toks.len() <= lv.toks.len(),
        sp_parse_while(lv).0 is Some ==> sp_parse_while(lv).1.toks.len() < lv.toks.len(),
    decreases lv.toks.len(), 1nat,
{
    let (p, lv1) = sp_peek(lv);
    if !(p matches Some(TokView::While)) {
    } else {
        lemma_pop_le(lv1);
        let (q, lv2) = sp_pop(lv1);
        lemma_expr_le(lv2);
        let (cond, lv3) = sp_parse_expr(lv2);
        lemma_expect_le(lv3, TokView::LBracket, ParseDiag::ExpectedWhileOpenBrace);
        let (mlb, lv4) = sp_expect(lv3, TokView::LBracket, ParseDiag::ExpectedWhileOpenBrace);
        match mlb {
            None => {},
            Some(_) => {
                if lv4.toks.len() < lv.toks.len() {
                    lemma_block_le(lv4);
                }
                let (tb, lv5) = if lv4.toks.len() < lv.toks.len() {
                    sp_parse_block(lv4)
                } else {
                    (None, lv4)
                };
                lemma_expect_le(lv5, TokView::RBracket, ParseDiag::ExpectedWhileCloseBrace);
            },
        }
    }
}

/// Statement rounds never lengthen the stream, and consume when they
/// yield.
pub proof fn lemma_round_le(lv: LexView)
    ensures
        sp_parse_stmt_round(lv).1.toks.len() <= lv.toks.len(),
        sp_parse_stmt_round(lv).0 is Some ==> sp_parse_stmt_round(lv).1.toks.len() < lv.toks.len(),
    decreases lv.toks.len(), 2nat,
{
    lemma_decl_le(lv);
    let (d, lv1) = sp_parse_decl(lv);
    match d {
        Some(s) => {},
        None => {
            lemma_assign_le(lv1);
            let (a, lv2) = sp_parse_assign(lv1);
            match a {
                Some(s) => {},
                None => {
                    lemma_expr_stmt_le(lv2);
                    let (e, lv3) = sp_parse_expr_stmt(lv2);
                    match e {
                        Some(s) => {},
                        None => {
                            if lv3.toks.len() <= lv.toks.len() {
                                lemma_if_le(lv3);
                            }
                            let (i, lv4) = if lv3.toks.len() <= lv.toks.len() {
                                sp_parse_if_stmt(lv3)
                            } else {
                                (None, lv3)
                            };
                            match i {
                                Some(s) => {},
                                None => {
                                    if lv4.toks.len() <= lv.toks.len() {
                                        lemma_while_le(lv4);
                                    }
                                },
                            }
                        },
                    }
                },
            }
        },
    }
}

/// Statement lists never lengthen the stream.
pub proof fn lemma_block_list_le(lv: LexView)
    ensures
        sp_parse_block_list(lv).1.toks.len() <= lv.toks.len(),
    decreases lv.toks.len(), 3nat,
{
    lemma_round_le(lv);
    let (s, lv1) = sp_parse_stmt_round(lv);
    match s {
        None => {
            if lv1.toks.len() < lv.toks.len() {
                lemma_block_list_le(lv1);
            }
        },
        Some(st) => {
            if lv1.toks.len() < lv.toks.len() {
                lemma_block_list_le(lv1);
            }
        },
    }
}

/// Blocks never lengthen the stream.
pub proof fn lemma_block_le(lv: LexView)
    ensures
        sp_parse_block(lv).1.toks.len() <= lv.toks.len(),
    decreases lv.toks.len(), 4nat,
{
    lemma_block_list_le(lv);
}

/// The whole parse: lex, parse the top-level block, and fail when an
/// unrecognized token was reached at a decision point; the second
/// component is every diagnostic the parse reported.
pub open spec fn sp_parse_full(cs: Seq<char>) -> (Option<Seq<StmtView>>, Seq<ParseDiag>) {
    let lv0 = LexView { toks: sp_tokens(cs), fatal: false, diags: Seq::empty() };
    let (b, lv1) = sp_parse_block(lv0);
    (
        if lv1.fatal {
            None
        } else {
            b
        },
        lv1.diags,
    )
}

/// The block the parse produces, diagnostics dropped.
pub open spec fn sp_parse(cs: Seq<char>) -> Option<Seq<StmtView>> {
    sp_parse_full(cs).0
}


/// Consume the next token when it is of the same kind as `expected`.
#[verifier::rlimit(60)]
fn match_tok(lex: &mut Lex, expected: Tok) -> (r: Option<Tok>)
    ensures
        ({
            let o = sp_match_tok(old(lex)@, expected@);
            r.deep_view() == o.0 && final(lex)@ == o.1
        }),
{
    let p = lex.peek();
    match (p, expected) {
        (Some(Tok::Lit(_)), Tok::Lit(_)) => lex.pop(),
        (Some(Tok::Ident(_)), Tok::Ident(_)) => lex.pop(),
        (Some(Tok::Plus), Tok::Plus) => lex.pop(),
        (Some(Tok::Minus), Tok::Minus) => lex.pop(),
        (Some(Tok::Star), Tok::Star) => lex.pop(),
        (Some(Tok::Slash), Tok::Slash) => lex.pop(),
        (Some(Tok::Rem), Tok::Rem) => lex.pop(),
        (Some(Tok::Bang), Tok::Bang) => lex.pop(),
        (Some(Tok::Amp), Tok::Amp) => lex.pop(),
        (Some(Tok::Tilde), Tok::Tilde) => lex.pop(),
        (Some(Tok::Equals), Tok::Equals) => lex.pop(),
        (Some(Tok::Semicolon), Tok::Semicolon) => lex.pop(),
        (Some(Tok::EqEq), Tok::EqEq) => lex.pop(),
        (Some(Tok::Less), Tok::Less) => lex.pop(),
        (Some(Tok::LessUnsigned), Tok::LessUnsigned) => lex.pop(),
        (Some(Tok::Greater), Tok::Greater) => lex.pop(),
        (Some(Tok::Or), Tok::Or) => lex.pop(),
        (Some(Tok::Xor), Tok::Xor) => lex.pop(),
        (Some(Tok::RShift), Tok::RShift) => lex.pop(),
        (Some(Tok::ARShift), Tok::ARShift) => lex.pop(),
        (Some(Tok::LShift), Tok::LShift) => lex.pop(),
        (Some(Tok::Let), Tok::Let) => lex.pop(),
        (Some(Tok::LParen), Tok::LParen) => lex.pop(),
        (Some(Tok::RParen), Tok::RParen) => lex.pop(),
        (Some(Tok::LBracket), Tok::LBracket) => lex.pop(),
        (Some(Tok::RBracket), Tok::RBracket) => lex.pop(),
        (Some(Tok::If), Tok::If) => lex.pop(),
        (Some(Tok::Else), Tok::Else) => lex.pop(),
        (Some(Tok::While), Tok::While) => lex.pop(),
        (Some(Tok::Comma), Tok::Comma) => lex.pop(),
        (Some(Tok::String(_)), Tok::String(_)) => lex.pop(),
        (Some(Tok::SetKw), Tok::SetKw) => lex.pop(),
        (Some(Tok::Error), Tok::Error) => lex.pop(),
        _ => None,
    }
}

/// Consume the next token when it is of the expected kind; report the
/// given diagnostic when it is not.
fn expect(lex: &mut Lex, expected: Tok, d: ParseDiag) -> (r: Option<Tok>)
    ensures
        ({
            let o = sp_expect(old(lex)@, expected@, d);
            r.deep_view() == o.0 && final(lex)@ == o.1
        }),
{
    let r = match_tok(lex, expected);
    if r.is_none() {
        lex.note(d);
    }
    r
}

/// Discard tokens up to and including the next semicolon.
fn synchronize(lex: &mut Lex)
    ensures
        final(lex)@ == sp_sync(old(lex)@),
{
    loop
        invariant
            sp_sync(lex@) == sp_sync(old(lex)@),
        decreases lex@.toks.len(),
    {
        let ghost lv_i = lex@;
        proof {
            lemma_pop_le(lv_i);
        }
        match lex.pop() {
            None => {
                return ;
            },
            Some(Tok::Semicolon) => {
                return ;
            },
            Some(_) => {},
        }
    }
}

/// An atom: identifier, literal, string, or a parenthesized
/// expression; an unusable token is pushed back.
fn parse_atom(lex: &mut Lex) -> (r: Option<Expr>)
    ensures
        ({
            let o = sp_parse_atom(old(lex)@);
            r.deep_view() == o.0 && final(lex)@ == o.1
        }),
    decreases lex@.toks.len(), 1nat,
{
    let ghost lv0 = lex@;
    proof {
        lemma_pop_le(lv0);
    }
    match lex.pop() {
        Some(Tok::Ident(i)) => Some(Expr::Ident(i)),
        Some(Tok::Lit(l)) => Some(Expr::Lit(l)),
        Some(Tok::String(s)) => Some(Expr::String(s)),
        Some(Tok::LParen) => {
            let ret = parse_expr(lex);
            match lex.peek() {
                Some(Tok::RParen) => {
                    let _rp = lex.pop();
                    ret
                },
                _ => {
                    lex.note(ParseDiag::ExpectedCloseParen);
                    None
                },
            }
        },
        other => {
            if let Some(tok) = other {
                lex.push(tok);
            }
            None
        },
    }
}

/// A call, or a plain atom: an identifier directly followed by `(`
/// commits to a call with comma-separated arguments.
#[verifier::rlimit(100)]
fn parse_call(lex: &mut Lex) -> (r: Option<Expr>)
    ensures
        ({
            let o = sp_parse_call(old(lex)@);
            r.deep_view() == o.0 && final(lex)@ == o.1
        }),
    decreases lex@.toks.len(), 2nat,
{
    let ghost lv0 = lex@;
    proof {
        lemma_atom_le(lv0);
    }
    let first = match parse_atom(lex) {
        Some(e) => e,
        None => {
            return None;
        },
    };
    let p = lex.peek();
    match (first, p) {
        (Expr::Ident(s), Some(Tok::LParen)) => {
            proof {
                lemma_pop_le(lex@);
            }
            let _lp = lex.pop();
            match lex.peek() {
                Some(Tok::RParen) => {
                    let _rp = lex.pop();
                    let params: Vec<Expr> = Vec::new();
                    proof {
                        crate::expr::lemma_exprs_view_index(params@);
                        assert(crate::expr::exprs_view(params@) =~= Seq::<ExprView>::empty());
                    }
                    return Some(Expr::Call(s, params));
                },
                _ => {},
            }
            proof {
                assert(lex@.toks.len() < lv0.toks.len());
                lemma_expr_le(lex@);
            }
            let e0 = match parse_expr(lex) {
                Some(e) => e,
                None => {
                    lex.note(ParseDiag::ExpectedCallArgument);
                    return None;
                },
            };
            let mut params: Vec<Expr> = Vec::new();
            params.push(e0);
            let ghost sv = s@;
            let ghost m = sp_parse_call(lv0);
            proof {
                assert(params.deep_view() =~= seq![e0.deep_view()]);
                let (rest, lvr) = sp_call_rest(lex@);
                match rest {
                    Some(xs) => {
                        assert(seq![e0.deep_view()] + xs =~= params.deep_view() + xs);
                    },
                    None => {},
                }
            }
            loop
                invariant
                    lex@.toks.len() < lv0.toks.len(),
                    sv == s@,
                    lv0 == old(lex)@,
                    m == sp_parse_call(lv0),
                    ({
                        let (rest, lvr) = sp_call_rest(lex@);
                        match rest {
                            Some(xs) => m == (
                                Some(ExprView::Call(sv, params.deep_view() + xs)),
                                lvr,
                            ),
                            None => m == (None::<ExprView>, lvr),
                        }
                    }),
                decreases lex@.toks.len(), 0nat,
            {
                let ghost lv_i = lex@;
                match lex.peek() {
                    Some(Tok::RParen) => {
                        let _rp = lex.pop();
                        proof {
                            assert(params.deep_view() + Seq::<ExprView>::empty()
                                =~= params.deep_view());
                            crate::expr::lemma_exprs_view_index(params@);
                            assert(crate::expr::exprs_view(params@) =~= params.deep_view());
                        }
                        return Some(Expr::Call(s, params));
                    },
                    Some(Tok::Comma) => {},
                    _ => {
                        lex.note(ParseDiag::ExpectedCallComma);
                        return None;
                    },
                }
                proof {
                    lemma_pop_le(lex@);
                }
                let _comma = lex.pop();
                proof {
                    lemma_expr_le(lex@);
                }
                match parse_expr(lex) {
                    Some(e) => {
                        let ghost pre = params.deep_view();
                        params.push(e);
                        proof {
                            assert(params.deep_view() =~= pre.push(e.deep_view()));
                            let (rest, lvr) = sp_call_rest(lex@);
                            match rest {
                                Some(xs) => {
                                    assert(pre + (seq![e.deep_view()] + xs) =~= params.deep_view()
                                        + xs);
                                },
                                None => {},
                            }
                        }
                    },
                    None => {
                        return None;
                    },
                }
            }
        },
        (atom, _) => Some(atom),
    }
}

/// A prefix operator chain: `&` address-of, `*` dereference, `-`
/// negate, `~` bitwise not, `!` boolean not; right-recursive.
fn parse_unary(lex: &mut Lex) -> (r: Option<Expr>)
    ensures
        ({
            let o = sp_parse_unary(old(lex)@);
            r.deep_view() == o.0 && final(lex)@ == o.1
        }),
    decreases lex@.toks.len(), 3nat,
{
    let ghost lv0 = lex@;
    let operator = match lex.peek() {
        Some(Tok::Amp) => UnaryOp::Addr,
        Some(Tok::Star) => UnaryOp::Deref,
        Some(Tok::Minus) => UnaryOp::Neg,
        Some(Tok::Tilde) => UnaryOp::Not,
        Some(Tok::Bang) => UnaryOp::BoolNot,
        _ => {
            return parse_call(lex);
        },
    };
    proof {
        lemma_pop_le(lex@);
    }
    let _op_tok = lex.pop();
    proof {
        assert(lex@.toks.len() < lv0.toks.len());
    }
    let operand = match parse_unary(lex) {
        Some(e) => e,
        None => {
            return None;
        },
    };
    Some(Expr::Unary(operator, Box::new(operand)))
}

/// The multiplicative level: `*` `/` `%`. Same-precedence chains nest to the right.
fn parse_term(lex: &mut Lex) -> (r: Option<Expr>)
    ensures
        ({
            let o = sp_parse_level(4, old(lex)@);
            r.deep_view() == o.0 && final(lex)@ == o.1
        }),
    decreases lex@.toks.len(), 4nat,
{
    let ghost lv0 = lex@;
    proof {
        lemma_unary_le(lv0);
    }
    let first = match parse_unary(lex) {
        Some(e) => e,
        None => {
            return None;
        },
    };
    let op = match lex.peek() {
        Some(Tok::Star) => {
            proof {
                lemma_pop_le(lex@);
            }
            let _op_tok = lex.pop();
            BinOp::Mul
        },
        Some(Tok::Slash) => {
            proof {
                lemma_pop_le(lex@);
            }
            let _op_tok = lex.pop();
            BinOp::Div
        },
        Some(Tok::Rem) => {
            proof {
                lemma_pop_le(lex@);
            }
            let _op_tok = lex.pop();
            BinOp::Rem
        },
        _ => {
            return Some(first);
        },
    };
    proof {
        assert(lex@.toks.len() < lv0.toks.len());
    }
    let second = match parse_term(lex) {
        Some(e) => e,
        None => {
            return None;
        },
    };
    Some(Expr::Bin(Box::new(first), op, Box::new(second)))
}

/// The additive level: `+` `-`. Same-precedence chains nest to the right.
fn parse_sum(lex: &mut Lex) -> (r: Option<Expr>)
    ensures
        ({
            let o = sp_parse_level(5, old(lex)@);
            r.deep_view() == o.0 && final(lex)@ == o.1
        }),
    decreases lex@.toks.len(), 5nat,
{
    let ghost lv0 = lex@;
    proof {
        lemma_level_le(4, lv0);
    }
    let first = match parse_term(lex) {
        Some(e) => e,
        None => {
            return None;
        },
    };
    let op = match lex.peek() {
        Some(Tok::Plus) => {
            proof {
                lemma_pop_le(lex@);
            }
            let _op_tok = lex.pop();
            BinOp::Add
        },
        Some(Tok::Minus) => {
            proof {
                lemma_pop_le(lex@);
            }
            let _op_tok = lex.pop();
            BinOp::Sub
        },
        _ => {
            return Some(first);
        },
    };
    proof {
        assert(lex@.toks.len() < lv0.toks.len());
    }
    let second = match parse_sum(lex) {
        Some(e) => e,
        None => {
            return None;
        },
    };
    Some(Expr::Bin(Box::new(first), op, Box::new(second)))
}

/// The shift level: `>>_` logical right, `>>` arithmetic right, `<<` left. Same-precedence chains nest to the right.
fn parse_shift(lex: &mut Lex) -> (r: Option<Expr>)
    ensures
        ({
            let o = sp_parse_level(6, old(lex)@);
            r.deep_view() == o.0 && final(lex)@ == o.1
        }),
    decreases lex@.toks.len(), 6nat,
{
    let ghost lv0 = lex@;
    proof {
        lemma_level_le(5, lv0);
    }
    let first = match parse_sum(lex) {
        Some(e) => e,
        None => {
            return None;
        },
    };
    let op = match lex.peek() {
        Some(Tok::RShift) => {
            proof {
                lemma_pop_le(lex@);
            }
            let _op_tok = lex.pop();
            BinOp::Srl
        },
        Some(Tok::ARShift) => {
            proof {
                lemma_pop_le(lex@);
            }
            let _op_tok = lex.pop();
            BinOp::Sra
        },
        Some(Tok::LShift) => {
            proof {
                lemma_pop_le(lex@);
            }
            let _op_tok = lex.pop();
            BinOp::Sll
        },
        _ => {
            return Some(first);
        },
    };
    proof {
        assert(lex@.toks.len() < lv0.toks.len());
    }
    let second = match parse_shift(lex) {
        Some(e) => e,
        None => {
            return None;
        },
    };
    Some(Expr::Bin(Box::new(first), op, Box::new(second)))
}

/// The relational level: `<` signed, `<_` unsigned, `>`. Same-precedence chains nest to the right.
fn parse_less(lex: &mut Lex) -> (r: Option<Expr>)
    ensures
        ({
            let o = sp_parse_level(7, old(lex)@);
            r.deep_view() == o.0 && final(lex)@ == o.1
        }),
    decreases lex@.toks.len(), 7nat,
{
    let ghost lv0 = lex@;
    proof {
        lemma_level_le(6, lv0);
    }
    let first = match parse_shift(lex) {
        Some(e) => e,
        None => {
            return None;
        },
    };
    let op = match lex.peek() {
        Some(Tok::Less) => {
            proof {
                lemma_pop_le(lex@);
            }
            let _op_tok = lex.pop();
            BinOp::Less
        },
        Some(Tok::LessUnsigned) => {
            proof {
                lemma_pop_le(lex@);
            }
            let _op_tok = lex.pop();
            BinOp::LessUnsigned
        },
        Some(Tok::Greater) => {
            proof {
                lemma_pop_le(lex@);
            }
            let _op_tok = lex.pop();
            BinOp::Greater
        },
        _ => {
            return Some(first);
        },
    };
    proof {
        assert(lex@.toks.len() < lv0.toks.len());
    }
    let second = match parse_less(lex) {
        Some(e) => e,
        None => {
            return None;
        },
    };
    Some(Expr::Bin(Box::new(first), op, Box::new(second)))
}

/// The equality level: `==`. Same-precedence chains nest to the right.
fn parse_equality(lex: &mut Lex) -> (r: Option<Expr>)
    ensures
        ({
            let o = sp_parse_level(8, old(lex)@);
            r.deep_view() == o.0 && final(lex)@ == o.1
        }),
    decreases lex@.toks.len(), 8nat,
{
    let ghost lv0 = lex@;
    proof {
        lemma_level_le(7, lv0);
    }
    let first = match parse_less(lex) {
        Some(e) => e,
        None => {
            return None;
        },
    };
    let op = match lex.peek() {
        Some(Tok::EqEq) => {
            proof {
                lemma_pop_le(lex@);
            }
            let _op_tok = lex.pop();
            BinOp::TestEq
        },
        _ => {
            return Some(first);
        },
    };
    proof {
        assert(lex@.toks.len() < lv0.toks.len());
    }
    let second = match parse_equality(lex) {
        Some(e) => e,
        None => {
            return None;
        },
    };
    Some(Expr::Bin(Box::new(first), op, Box::new(second)))
}

/// The bitwise-and level: `&`. Same-precedence chains nest to the right.
fn parse_and(lex: &mut Lex) -> (r: Option<Expr>)
    ensures
        ({
            let o = sp_parse_level(9, old(lex)@);
            r.deep_view() == o.0 && final(lex)@ == o.1
        }),
    decreases lex@.toks.len(), 9nat,
{
    let ghost lv0 = lex@;
    proof {
        lemma_level_le(8, lv0);
    }
    let first = match parse_equality(lex) {
        Some(e) => e,
        None => {
            return None;
        },
    };
    let op = match lex.peek() {
        Some(Tok::Amp) => {
            proof {
                lemma_pop_le(lex@);
            }
            let _op_tok = lex.pop();
            BinOp::And
        },
        _ => {
            return Some(first);
        },
    };
    proof {
        assert(lex@.toks.len() < lv0.toks.len());
    }
    let second = match parse_and(lex) {
        Some(e) => e,
        None => {
            return None;
        },
    };
    Some(Expr::Bin(Box::new(first), op, Box::new(second)))
}

/// The bitwise-xor level: `^`. Same-precedence chains nest to the right.
fn parse_xor(lex: &mut Lex) -> (r: Option<Expr>)
    ensures
        ({
            let o = sp_parse_level(10, old(lex)@);
            r.deep_view() == o.0 && final(lex)@ == o.1
        }),
    decreases lex@.toks.len(), 10nat,
{
    let ghost lv0 = lex@;
    proof {
        lemma_level_le(9, lv0);
    }
    let first = match parse_and(lex) {
        Some(e) => e,
        None => {
            return None;
        },
    };
    let op = match lex.peek() {
        Some(Tok::Xor) => {
            proof {
                lemma_pop_le(lex@);
            }
            let _op_tok = lex.pop();
            BinOp::Xor
        },
        _ => {
            return Some(first);
        },
    };
    proof {
        assert(lex@.toks.len() < lv0.toks.len());
    }
    let second = match parse_xor(lex) {
        Some(e) => e,
        None => {
            return None;
        },
    };
    Some(Expr::Bin(Box::new(first), op, Box::new(second)))
}

/// The bitwise-or level, the loosest: `|`. Same-precedence chains nest to the right.
fn parse_or(lex: &mut Lex) -> (r: Option<Expr>)
    ensures
        ({
            let o = sp_parse_level(11, old(lex)@);
            r.deep_view() == o.0 && final(lex)@ == o.1
        }),
    decreases lex@.toks.len(), 11nat,
{
    let ghost lv0 = lex@;
    proof {
        lemma_level_le(10, lv0);
    }
    let first = match parse_xor(lex) {
        Some(e) => e,
        None => {
            return None;
        },
    };
    let op = match lex.peek() {
        Some(Tok::Or) => {
            proof {
                lemma_pop_le(lex@);
            }
            let _op_tok = lex.pop();
            BinOp::Or
        },
        _ => {
            return Some(first);
        },
    };
    proof {
        assert(lex@.toks.len() < lv0.toks.len());
    }
    let second = match parse_or(lex) {
        Some(e) => e,
        None => {
            return None;
        },
    };
    Some(Expr::Bin(Box::new(first), op, Box::new(second)))
}


/// A full expression, parsed from the loosest level down.
fn parse_expr(lex: &mut Lex) -> (r: Option<Expr>)
    ensures
        ({
            let o = sp_parse_expr(old(lex)@);
            r.deep_view() == o.0 && final(lex)@ == o.1
        }),
    decreases lex@.toks.len(), 12nat,
{
    parse_or(lex)
}


/// A declaration: `let` name, an optional literal initializer
/// (integer zero when omitted), and a semicolon; recovery discards to
/// the next semicolon.
#[verifier::rlimit(100)]
fn parse_decl(lex: &mut Lex) -> (r: Option<Stmt>)
    ensures
        ({
            let o = sp_parse_decl(old(lex)@);
            r.deep_view() == o.0 && final(lex)@ == o.1
        }),
{
    if match_tok(lex, Tok::Let).is_none() {
        return None;
    }
    let name = match match_tok(lex, Tok::Ident(String::new())) {
        Some(Tok::Ident(name)) => name,
        _ => {
            lex.note(ParseDiag::ExpectedDeclIdent);
            synchronize(lex);
            return None;
        },
    };
    let val = if match_tok(lex, Tok::Equals).is_some() {
        match lex.pop() {
            Some(Tok::Lit(v)) => DeclInit::Int(v),
            Some(Tok::String(st)) => DeclInit::Str(st),
            _ => {
                lex.note(ParseDiag::ExpectedDeclValue);
                synchronize(lex);
                return None;
            },
        }
    } else {
        DeclInit::Int(0)
    };
    if match_tok(lex, Tok::Semicolon).is_some() {
        Some(Stmt::Decl(name, val))
    } else {
        lex.note(ParseDiag::ExpectedDeclSemicolon);
        synchronize(lex);
        None
    }
}

/// An assignment: `set` name `=` expression `;`.
#[verifier::rlimit(100)]
fn parse_assign(lex: &mut Lex) -> (r: Option<Stmt>)
    ensures
        ({
            let o = sp_parse_assign(old(lex)@);
            r.deep_view() == o.0 && final(lex)@ == o.1
        }),
{
    if match_tok(lex, Tok::SetKw).is_none() {
        return None;
    }
    let name = match match_tok(lex, Tok::Ident(String::new())) {
        Some(Tok::Ident(name)) => name,
        _ => {
            lex.note(ParseDiag::ExpectedAssignIdent);
            synchronize(lex);
            return None;
        },
    };
    if match_tok(lex, Tok::Equals).is_none() {
        lex.note(ParseDiag::ExpectedAssignEquals);
        synchronize(lex);
        return None;
    }
    let val = match parse_expr(lex) {
        Some(e) => e,
        None => {
            lex.note(ParseDiag::ExpectedAssignExpr);
            synchronize(lex);
            return None;
        },
    };
    if match_tok(lex, Tok::Semicolon).is_some() {
        Some(Stmt::Assignment(name, val))
    } else {
        lex.note(ParseDiag::ExpectedAssignSemicolon);
        synchronize(lex);
        None
    }
}

/// An expression statement: the expression's value is discarded.
fn parse_expr_stmt(lex: &mut Lex) -> (r: Option<Stmt>)
    ensures
        ({
            let o = sp_parse_expr_stmt(old(lex)@);
            r.deep_view() == o.0 && final(lex)@ == o.1
        }),
{
    let e = match parse_expr(lex) {
        Some(e) => e,
        None => {
            return None;
        },
    };
    if match_tok(lex, Tok::Semicolon).is_some() {
        Some(Stmt::ExprStmt(e))
    } else {
        lex.note(ParseDiag::ExpectedExprStmtSemicolon);
        synchronize(lex);
        None
    }
}

/// The tail of an if statement from the optional `else` on.
#[verifier::rlimit(100)]
fn parse_if_tail(
    lex: &mut Lex,
    condition: Option<Expr>,
    ok: bool,
    true_block: Option<Block>,
    Ghost(orig_len): Ghost<int>,
) -> (r: Option<Stmt>)
    requires
        old(lex)@.toks.len() <= orig_len,
    ensures
        ({
            let o = sp_if_tail(
                condition.deep_view(),
                ok,
                true_block.deep_view(),
                old(lex)@,
                orig_len,
            );
            r.deep_view() == o.0 && final(lex)@ == o.1
        }),
    decreases orig_len, 1nat,
{
    let ghost lv0 = lex@;
    proof {
        lemma_match_le(lv0, TokView::Else);
    }
    let else_block: Option<Block> = if match_tok(lex, Tok::Else).is_some() {
        proof {
            lemma_expect_le(lex@, TokView::LBracket, ParseDiag::ExpectedElseOpenBrace);
        }
        if expect(lex, Tok::LBracket, ParseDiag::ExpectedElseOpenBrace).is_none() {
            return None;
        }
        proof {
            assert(lex@.toks.len() < orig_len);
        }
        let b = parse_block(lex);
        if expect(lex, Tok::RBracket, ParseDiag::ExpectedElseCloseBrace).is_some() {
            match b {
                Some(bb) => Some(bb),
                None => {
                    // an empty else block fails the statement
                    return None;
                },
            }
        } else {
            None
        }
    } else {
        None
    };
    if ok {
        let c = match condition {
            Some(c) => c,
            None => {
                return None;
            },
        };
        let tb = match true_block {
            Some(t) => t,
            None => {
                return None;
            },
        };
        proof {
            crate::expr::lemma_block_view_index(tb@);
            assert(crate::expr::block_view(tb@) =~= tb.deep_view());
            match &else_block {
                Some(bb) => {
                    crate::expr::lemma_block_view_index(bb@);
                    assert(crate::expr::block_view(bb@) =~= bb.deep_view());
                },
                None => {},
            }
        }
        Some(Stmt::If(c, tb, else_block))
    } else {
        None
    }
}

/// An if statement: condition, mandatory braced true block, optional
/// else block.
#[verifier::rlimit(100)]
#[verifier::spinoff_prover]
fn parse_if_stmt(lex: &mut Lex) -> (r: Option<Stmt>)
    ensures
        ({
            let o = sp_parse_if_stmt(old(lex)@);
            r.deep_view() == o.0 && final(lex)@ == o.1
        }),
    decreases lex@.toks.len(), 2nat,
{
    let ghost lv0 = lex@;
    match lex.peek() {
        Some(Tok::If) => {},
        _ => {
            return None;
        },
    }
    proof {
        lemma_pop_le(lex@);
    }
    let _if_tok = lex.pop();
    proof {
        lemma_expr_le(lex@);
    }
    let condition = parse_expr(lex);
    proof {
        lemma_expect_le(lex@, TokView::LBracket, ParseDiag::ExpectedIfOpenBrace);
    }
    if expect(lex, Tok::LBracket, ParseDiag::ExpectedIfOpenBrace).is_none() {
        return None;
    }
    proof {
        assert(lex@.toks.len() < lv0.toks.len());
        lemma_block_le(lex@);
    }
    let true_block = parse_block(lex);
    proof {
        lemma_expect_le(lex@, TokView::RBracket, ParseDiag::ExpectedIfCloseBrace);
    }
    let ok = expect(lex, Tok::RBracket, ParseDiag::ExpectedIfCloseBrace).is_some();
    parse_if_tail(lex, condition, ok, true_block, Ghost(lv0.toks.len() as int))
}

/// A while statement: condition and a braced body.
#[verifier::rlimit(100)]
fn parse_while(lex: &mut Lex) -> (r: Option<Stmt>)
    ensures
        ({
            let o = sp_parse_while(old(lex)@);
            r.deep_view() == o.0 && final(lex)@ == o.1
        }),
    decreases lex@.toks.len(), 2nat,
{
    let ghost lv0 = lex@;
    match lex.peek() {
        Some(Tok::While) => {},
        _ => {
            return None;
        },
    }
    proof {
        lemma_pop_le(lex@);
    }
    let _while_tok = lex.pop();
    proof {
        lemma_expr_le(lex@);
    }
    let condition = parse_expr(lex);
    proof {
        lemma_expect_le(lex@, TokView::LBracket, ParseDiag::ExpectedWhileOpenBrace);
    }
    if expect(lex, Tok::LBracket, ParseDiag::ExpectedWhileOpenBrace).is_none() {
        return None;
    }
    proof {
        assert(lex@.toks.len() < lv0.toks.len());
    }
    let true_block = parse_block(lex);
    if expect(lex, Tok::RBracket, ParseDiag::ExpectedWhileCloseBrace).is_none() {
        return None;
    }
    let c = match condition {
        Some(c) => c,
        None => {
            return None;
        },
    };
    let tb = match true_block {
        Some(t) => t,
        None => {
            return None;
        },
    };
    proof {
        crate::expr::lemma_block_view_index(tb@);
        assert(crate::expr::block_view(tb@) =~= tb.deep_view());
    }
    Some(Stmt::While(c, tb))
}

/// One round of the statement loop: the alternatives in their fixed
/// priority order.
#[verifier::rlimit(100)]
fn parse_stmt_round(lex: &mut Lex) -> (r: Option<Stmt>)
    ensures
        ({
            let o = sp_parse_stmt_round(old(lex)@);
            r.deep_view() == o.0 && final(lex)@ == o.1
        }),
    decreases lex@.toks.len(), 3nat,
{
    let ghost lv0 = lex@;
    proof {
        lemma_decl_le(lv0);
    }
    if let Some(s) = parse_decl(lex) {
        return Some(s);
    }
    proof {
        lemma_assign_le(lex@);
    }
    if let Some(s) = parse_assign(lex) {
        return Some(s);
    }
    proof {
        lemma_expr_stmt_le(lex@);
    }
    if let Some(s) = parse_expr_stmt(lex) {
        return Some(s);
    }
    proof {
        assert(lex@.toks.len() <= lv0.toks.len());
        lemma_if_le(lex@);
    }
    if let Some(s) = parse_if_stmt(lex) {
        return Some(s);
    }
    proof {
        assert(lex@.toks.len() <= lv0.toks.len());
        lemma_while_le(lex@);
    }
    parse_while(lex)
}

/// A block: statements parsed until no alternative matches; no block
/// at all when zero statements were produced.
fn parse_block(lex: &mut Lex) -> (r: Option<Block>)
    ensures
        ({
            let o = sp_parse_block(old(lex)@);
            r.deep_view() == o.0 && final(lex)@ == o.1
        }),
    decreases lex@.toks.len(), 5nat,
{
    let ghost lv0 = lex@;
    let mut ret: Vec<Stmt> = Vec::new();
    proof {
        assert(ret.deep_view() =~= Seq::<StmtView>::empty());
        assert(Seq::<StmtView>::empty() + sp_parse_block_list(lv0).0 =~= sp_parse_block_list(
            lv0,
        ).0);
    }
    loop
        invariant_except_break
            ({
                let l = sp_parse_block_list(lex@);
                sp_parse_block_list(lv0).0 == ret.deep_view() + l.0 && sp_parse_block_list(lv0).1
                    == l.1
            }),
        invariant
            lv0 == old(lex)@,
            lex@.toks.len() <= lv0.toks.len(),
        ensures
            sp_parse_block_list(lv0).0 == ret.deep_view(),
            sp_parse_block_list(lv0).1 == lex@,
        decreases lex@.toks.len(), 4nat,
    {
        let ghost lv_i = lex@;
        proof {
            lemma_round_le(lv_i);
        }
        let before = lex.tokens.len();
        match parse_stmt_round(lex) {
            Some(s) => {
                let ghost pre = ret.deep_view();
                let ghost sv = s.deep_view();
                ret.push(s);
                proof {
                    assert(ret.deep_view() =~= pre.push(sv));
                    let l_next = sp_parse_block_list(lex@);
                    assert(pre + (seq![sv] + l_next.0) =~= ret.deep_view() + l_next.0);
                }
            },
            None => {
                if lex.tokens.len() == before {
                    proof {
                        assert(ret.deep_view() + Seq::<StmtView>::empty() =~= ret.deep_view());
                    }
                    break ;
                }
                // the round recovered from a malformed statement;
                // resume with the next statement
            },
        }
    }
    if ret.len() >= 1 {
        Some(ret)
    } else {
        None
    }
}

/// Parse a whole source text and hand out every lexical and syntax
/// diagnostic the parse reported. No block comes back only when zero
/// statements were produced, or when an unrecognized piece of text was
/// reached at a parsing decision point — which is fatal for the
/// compilation and visible in the diagnostics as
/// `FatalUnrecognizedToken`.
pub fn parse_with_diags(input: &str) -> (r: (Option<Block>, Vec<ParseDiag>))
    ensures
        r.0.deep_view() == sp_parse_full(input@).0,
        r.1@ == sp_parse_full(input@).1,
{
    let mut lex = Lex::new(input);
    proof {
        assert(lex@ =~= (LexView {
            toks: sp_tokens(input@),
            fatal: false,
            diags: Seq::empty(),
        }));
    }
    let ret = parse_block(&mut lex);
    let block = if lex.fatal {
        None
    } else {
        ret
    };
    (block, lex.diags)
}

/// Parse a whole source text, diagnostics dropped.
pub fn parse(input: &str) -> (r: Option<Block>)
    ensures
        r.deep_view() == sp_parse(input@),
{
    let (block, _diags) = parse_with_diags(input);
    block
}

} // verus!
