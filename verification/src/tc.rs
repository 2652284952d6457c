//! A small two-type checker over binary expressions: operand types of
//! a binary operator must agree. It is a free-standing pass, not part
//! of the compilation pipeline, and handles integer literals and
//! binary nodes only.

use vstd::prelude::*;

use crate::expr::{expr_view, BinOp, Expr, ExprView};

verus! {

/// A typed expression.
#[derive(Debug)]
pub struct TExpr {
    pub ty: Ty,
    pub exp: TExprKind,
}

/// The shape of a typed expression.
#[derive(Debug)]
pub enum TExprKind {
    Lit(i64),
    Ident(String),
    Bin(Box<TExpr>, BinOp, Box<TExpr>),
}

/// The two numeric types.
#[derive(Copy, Clone, PartialEq, Eq, Structural, Debug)]
pub enum Ty {
    I32,
    U32,
}

/// A type error: the two operand types of a binary operator differ.
#[derive(Copy, Clone, PartialEq, Eq, Structural, Debug)]
pub enum TcError {
    Mismatch(Ty, Ty),
}

/// Mathematical view of `TExpr`.
pub struct TExprView {
    pub ty: Ty,
    pub exp: TExprKindView,
}

/// Mathematical view of `TExprKind`.
pub enum TExprKindView {
    Lit(int),
    Ident(Seq<char>),
    Bin(Box<TExprView>, BinOp, Box<TExprView>),
}

/// View of a typed expression.
pub open spec fn texpr_view(t: TExpr) -> TExprView
    decreases t,
{
    TExprView { ty: t.ty, exp: texpr_kind_view(t.exp) }
}

pub open spec fn texpr_kind_view(k: TExprKind) -> TExprKindView
    decreases k,
{
    match k {
        TExprKind::Lit(n) => TExprKindView::Lit(n as int),
        TExprKind::Ident(s) => TExprKindView::Ident(s@),
        TExprKind::Bin(l, op, r) => TExprKindView::Bin(
            Box::new(texpr_view(*l)),
            op,
            Box::new(texpr_view(*r)),
        ),
    }
}

impl View for TExpr {
    type V = TExprView;

    open spec fn view(&self) -> TExprView {
        texpr_view(*self)
    }
}

impl DeepView for TExpr {
    type V = TExprView;

    open spec fn deep_view(&self) -> TExprView {
        self.view()
    }
}

/// The expressions this pass handles: integer literals and binary
/// nodes over them.
pub open spec fn tc_supported(e: ExprView) -> bool
    decreases e,
{
    match e {
        ExprView::Lit(_) => true,
        ExprView::Bin(l, _, r) => tc_supported(*l) && tc_supported(*r),
        _ => false,
    }
}

/// What the checker returns and which errors it records: a literal is
/// signed; a binary node takes its operands' common type, and a
/// mismatch is recorded and fails the node. Both operands are checked
/// even when one fails.
pub open spec fn sp_typecheck(e: ExprView, errs: Seq<TcError>) -> (Option<TExprView>, Seq<TcError>)
    decreases e,
{
    match e {
        ExprView::Lit(v) => (
            Some(TExprView { ty: Ty::I32, exp: TExprKindView::Lit(v) }),
            errs,
        ),
        ExprView::Bin(l, op, r) => {
            let (lt, errs1) = sp_typecheck(*l, errs);
            let (rt, errs2) = sp_typecheck(*r, errs1);
            match (lt, rt) {
                (Some(ltv), Some(rtv)) => {
                    if ltv.ty == rtv.ty {
                        (
                            Some(
                                TExprView {
                                    ty: ltv.ty,
                                    exp: TExprKindView::Bin(Box::new(ltv), op, Box::new(rtv)),
                                },
                            ),
                            errs2,
                        )
                    } else {
                        (None, errs2.push(TcError::Mismatch(ltv.ty, rtv.ty)))
                    }
                },
                _ => (None, errs2),
            }
        },
        _ => (None, errs),
    }
}

/// Check operand types through an expression of literals and binary
/// operators.
pub fn typecheck(e: &Expr, errs: &mut Vec<TcError>) -> (r: Option<TExpr>)
    requires
        tc_supported(expr_view(*e)),
    ensures
        ({
            let o = sp_typecheck(expr_view(*e), old(errs)@);
            r.deep_view() == o.0 && final(errs)@ == o.1
        }),
    decreases *e,
{
    match e {
        Expr::Lit(val) => Some(TExpr { ty: Ty::I32, exp: TExprKind::Lit(*val) }),
        Expr::Bin(left, op, right) => {
            let lt = typecheck(left, errs);
            let rt = typecheck(right, errs);
            let ltv = match lt {
                Some(t) => t,
                None => {
                    return None;
                },
            };
            let rtv = match rt {
                Some(t) => t,
                None => {
                    return None;
                },
            };
            if ltv.ty == rtv.ty {
                let ty = ltv.ty;
                Some(TExpr { ty, exp: TExprKind::Bin(Box::new(ltv), *op, Box::new(rtv)) })
            } else {
                errs.push(TcError::Mismatch(ltv.ty, rtv.ty));
                None
            }
        },
        _ => None,
    }
}

} // verus!
