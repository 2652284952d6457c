//! The abstract syntax tree produced by the parser and consumed by the
//! code generator, together with its mathematical view: the same tree
//! shape with `Seq<char>` in place of `String` and `Seq` in place of
//! `Vec`, so that contracts can speak about trees by value.

use vstd::prelude::*;

verus! {

/// Binary operators, one per assembly lowering rule.
#[derive(Copy, Clone, Debug, PartialEq, Eq, Structural)]
pub enum BinOp {
    Add,
    Sub,
    Mul,
    Div,
    Rem,
    Srl,
    Sra,
    Sll,
    And,
    Or,
    Xor,
    Less,
    LessUnsigned,
    Greater,
    TestEq,
}

/// Unary (prefix) operators.
#[derive(Copy, Clone, Debug, PartialEq, Eq, Structural)]
pub enum UnaryOp {
    Deref,
    Addr,
    Neg,
    Not,
    BoolNot,
}

/// The initializer of a declaration: an integer constant or a string
/// constant (expressions are not allowed there).
#[derive(Debug)]
pub enum DeclInit {
    Str(String),
    Int(i64),
}

/// An expression tree.
#[derive(Debug)]
pub enum Expr {
    Lit(i64),
    String(String),
    Ident(String),
    Bin(Box<Expr>, BinOp, Box<Expr>),
    Call(String, Vec<Expr>),
    Unary(UnaryOp, Box<Expr>),
}

/// A statement; blocks are ordered statement sequences.
#[derive(Debug)]
pub enum Stmt {
    ExprStmt(Expr),
    Decl(String, DeclInit),
    Assignment(String, Expr),
    If(Expr, Block, Option<Block>),
    While(Expr, Block),
}

pub type Block = Vec<Stmt>;

/// Mathematical view of `DeclInit`.
pub enum DeclInitView {
    Str(Seq<char>),
    Int(int),
}

/// Mathematical view of `Expr`.
pub enum ExprView {
    Lit(int),
    String(Seq<char>),
    Ident(Seq<char>),
    Bin(Box<ExprView>, BinOp, Box<ExprView>),
    Call(Seq<char>, Seq<ExprView>),
    Unary(UnaryOp, Box<ExprView>),
}

/// Mathematical view of `Stmt`.
pub enum StmtView {
    ExprStmt(ExprView),
    Decl(Seq<char>, DeclInitView),
    Assignment(Seq<char>, ExprView),
    If(ExprView, Seq<StmtView>, Option<Seq<StmtView>>),
    While(ExprView, Seq<StmtView>),
}

impl View for DeclInit {
    type V = DeclInitView;

    open spec fn view(&self) -> DeclInitView {
        match self {
            DeclInit::Str(s) => DeclInitView::Str(s@),
            DeclInit::Int(n) => DeclInitView::Int(*n as int),
        }
    }
}

impl DeepView for DeclInit {
    type V = DeclInitView;

    open spec fn deep_view(&self) -> DeclInitView {
        self.view()
    }
}

/// View of an expression, written as a free function so that it can
/// recurse structurally.
pub open spec fn expr_view(e: Expr) -> ExprView
    decreases e,
{
    match e {
        Expr::Lit(n) => ExprView::Lit(n as int),
        Expr::String(s) => ExprView::String(s@),
        Expr::Ident(s) => ExprView::Ident(s@),
        Expr::Bin(l, op, r) => ExprView::Bin(Box::new(expr_view(*l)), op, Box::new(expr_view(*r))),
        Expr::Call(f, args) => ExprView::Call(f@, exprs_view(args@)),
        Expr::Unary(op, e1) => ExprView::Unary(op, Box::new(expr_view(*e1))),
    }
}

/// View of an argument list.
pub open spec fn exprs_view(es: Seq<Expr>) -> Seq<ExprView>
    decreases es,
{
    if es.len() == 0 {
        Seq::empty()
    } else {
        exprs_view(es.subrange(0, es.len() - 1)).push(expr_view(es[es.len() - 1]))
    }
}

impl View for Expr {
    type V = ExprView;

    open spec fn view(&self) -> ExprView {
        expr_view(*self)
    }
}

impl DeepView for Expr {
    type V = ExprView;

    open spec fn deep_view(&self) -> ExprView {
        self.view()
    }
}

/// View of a statement.
pub open spec fn stmt_view(s: Stmt) -> StmtView
    decreases s,
{
    match s {
        Stmt::ExprStmt(e) => StmtView::ExprStmt(expr_view(e)),
        Stmt::Decl(name, init) => StmtView::Decl(name@, init@),
        Stmt::Assignment(name, e) => StmtView::Assignment(name@, expr_view(e)),
        Stmt::If(cond, tb, eb) => StmtView::If(
            expr_view(cond),
            block_view(tb@),
            match eb {
                Some(b) => Some(block_view(b@)),
                None => None,
            },
        ),
        Stmt::While(cond, body) => StmtView::While(expr_view(cond), block_view(body@)),
    }
}

/// View of a whole block.
pub open spec fn block_view(b: Seq<Stmt>) -> Seq<StmtView>
    decreases b,
{
    if b.len() == 0 {
        Seq::empty()
    } else {
        block_view(b.subrange(0, b.len() - 1)).push(stmt_view(b[b.len() - 1]))
    }
}

/// `exprs_view` is the pointwise view of its argument.
pub proof fn lemma_exprs_view_index(es: Seq<Expr>)
    ensures
        exprs_view(es).len() == es.len(),
        forall|i: int| 0 <= i < es.len() ==> exprs_view(es)[i] == expr_view(es[i]),
    decreases es,
{
    if es.len() > 0 {
        let front = es.subrange(0, es.len() - 1);
        lemma_exprs_view_index(front);
        assert forall|i: int| 0 <= i < es.len() implies exprs_view(es)[i] == expr_view(es[i]) by {
            if i < es.len() - 1 {
                assert(front[i] == es[i]);
            }
        }
    }
}

/// `block_view` is the pointwise view of its argument.
pub proof fn lemma_block_view_index(b: Seq<Stmt>)
    ensures
        block_view(b).len() == b.len(),
        forall|i: int| 0 <= i < b.len() ==> block_view(b)[i] == stmt_view(b[i]),
    decreases b,
{
    if b.len() > 0 {
        let front = b.subrange(0, b.len() - 1);
        lemma_block_view_index(front);
        assert forall|i: int| 0 <= i < b.len() implies block_view(b)[i] == stmt_view(b[i]) by {
            if i < b.len() - 1 {
                assert(front[i] == b[i]);
            }
        }
    }
}

impl View for Stmt {
    type V = StmtView;

    open spec fn view(&self) -> StmtView {
        stmt_view(*self)
    }
}

impl DeepView for Stmt {
    type V = StmtView;

    open spec fn deep_view(&self) -> StmtView {
        self.view()
    }
}

} // verus!
