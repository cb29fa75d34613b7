//! Expression nodes.  Each node exclusively owns its children; there is
//! no sharing and there are no cycles.

use vstd::prelude::*;
use crate::token::{Token, TokenV};

verus! {

/// An expression.  `Logical` is kept apart from `Binary` because the
/// logical operators evaluate their operands lazily and coerce the
/// outcome to a boolean.
#[derive(Debug)]
pub enum Expr {
    Unary { op: Token, operand: Box<Expr> },
    Binary { op: Token, left: Box<Expr>, right: Box<Expr> },
    Grouping { inner: Box<Expr> },
    Literal { token: Token },
    Variable { name: Token },
    Assign { name: Token, value: Box<Expr> },
    Call { callee: Box<Expr>, paren: Token, arguments: Vec<Expr> },
    Logical { op: Token, left: Box<Expr>, right: Box<Expr> },
}

/// The mathematical view of an expression tree.
#[verifier::ext_equal]
pub enum ExprV {
    Unary { op: TokenV, operand: Box<ExprV> },
    Binary { op: TokenV, left: Box<ExprV>, right: Box<ExprV> },
    Grouping { inner: Box<ExprV> },
    Literal { token: TokenV },
    Variable { name: TokenV },
    Assign { name: TokenV, value: Box<ExprV> },
    Call { callee: Box<ExprV>, paren: TokenV, arguments: Seq<ExprV> },
    Logical { op: TokenV, left: Box<ExprV>, right: Box<ExprV> },
}

impl DeepView for Expr {
    type V = ExprV;

    open spec fn deep_view(&self) -> ExprV
        decreases *self,
    {
        match self {
            Expr::Unary { op, operand } => ExprV::Unary {
                op: op.deep_view(),
                operand: Box::new((**operand).deep_view()),
            },
            Expr::Binary { op, left, right } => ExprV::Binary {
                op: op.deep_view(),
                left: Box::new((**left).deep_view()),
                right: Box::new((**right).deep_view()),
            },
            Expr::Grouping { inner } => ExprV::Grouping {
                inner: Box::new((**inner).deep_view()),
            },
            Expr::Literal { token } => ExprV::Literal { token: token.deep_view() },
            Expr::Variable { name } => ExprV::Variable { name: name.deep_view() },
            Expr::Assign { name, value } => ExprV::Assign {
                name: name.deep_view(),
                value: Box::new((**value).deep_view()),
            },
            Expr::Call { callee, paren, arguments } => ExprV::Call {
                callee: Box::new((**callee).deep_view()),
                paren: paren.deep_view(),
                arguments: exprs_dv(arguments@),
            },
            Expr::Logical { op, left, right } => ExprV::Logical {
                op: op.deep_view(),
                left: Box::new((**left).deep_view()),
                right: Box::new((**right).deep_view()),
            },
        }
    }
}

/// The view of an expression sequence: the view of each element.
pub open spec fn exprs_dv(s: Seq<Expr>) -> Seq<ExprV>
    decreases s,
{
    if s.len() == 0 {
        Seq::empty()
    } else {
        exprs_dv(s.drop_last()).push(s.last().deep_view())
    }
}

/// `exprs_dv` is the element-wise view: it keeps the length and views
/// each element in place.
pub broadcast proof fn lemma_exprs_dv(s: Seq<Expr>)
    ensures
        (#[trigger] exprs_dv(s)).len() == s.len(),
        forall|i: int| 0 <= i < s.len() ==> exprs_dv(s)[i] == s[i].deep_view(),
    decreases s,
{
    if s.len() > 0 {
        lemma_exprs_dv(s.drop_last());
        assert(exprs_dv(s) == exprs_dv(s.drop_last()).push(s.last().deep_view()));
        assert forall|i: int| 0 <= i < s.len() implies exprs_dv(s)[i] == s[i].deep_view() by {
            if i < s.len() - 1 {
                assert(exprs_dv(s)[i] == exprs_dv(s.drop_last())[i]);
                assert(s.drop_last()[i] == s[i]);
            } else {
                assert(exprs_dv(s)[i] == s.last().deep_view());
            }
        }
    }
}

/// Appending an expression appends its view.
pub broadcast proof fn lemma_exprs_dv_push(s: Seq<Expr>, e: Expr)
    ensures
        #[trigger] exprs_dv(s.push(e)) == exprs_dv(s).push(e.deep_view()),
{
    assert(s.push(e).drop_last() =~= s);
    assert(s.push(e).last() == e);
}

/// A structure-for-structure copy of an expression tree.
pub fn clone_expr(e: &Expr) -> (r: Expr)
    ensures
        r.deep_view() == e.deep_view(),
    decreases *e,
{
    match e {
        Expr::Unary { op, operand } => Expr::Unary {
            op: op.clone(),
            operand: Box::new(clone_expr(&**operand)),
        },
        Expr::Binary { op, left, right } => Expr::Binary {
            op: op.clone(),
            left: Box::new(clone_expr(&**left)),
            right: Box::new(clone_expr(&**right)),
        },
        Expr::Grouping { inner } => Expr::Grouping { inner: Box::new(clone_expr(&**inner)) },
        Expr::Literal { token } => Expr::Literal { token: token.clone() },
        Expr::Variable { name } => Expr::Variable { name: name.clone() },
        Expr::Assign { name, value } => Expr::Assign {
            name: name.clone(),
            value: Box::new(clone_expr(&**value)),
        },
        Expr::Call { callee, paren, arguments } => Expr::Call {
            callee: Box::new(clone_expr(&**callee)),
            paren: paren.clone(),
            arguments: clone_exprs(arguments),
        },
        Expr::Logical { op, left, right } => Expr::Logical {
            op: op.clone(),
            left: Box::new(clone_expr(&**left)),
            right: Box::new(clone_expr(&**right)),
        },
    }
}

/// An element-for-element copy of an expression sequence.
pub fn clone_exprs(v: &Vec<Expr>) -> (r: Vec<Expr>)
    ensures
        exprs_dv(r@) == exprs_dv(v@),
    decreases v@,
{
    let mut r: Vec<Expr> = Vec::new();
    let mut i: usize = 0;
    while i < v.len()
        invariant
            i <= v@.len(),
            r@.len() == i,
            forall|j: int| 0 <= j < i ==> #[trigger] r@[j].deep_view() == v@[j].deep_view(),
        decreases v@.len() - i,
    {
        r.push(clone_expr(&v[i]));
        i = i + 1;
    }
    proof {
        lemma_exprs_dv(r@);
        lemma_exprs_dv(v@);
        assert(exprs_dv(r@) =~= exprs_dv(v@));
    }
    r
}

impl Clone for Expr {
    fn clone(&self) -> (r: Expr)
        ensures
            r.deep_view() == self.deep_view(),
    {
        clone_expr(self)
    }
}

} // verus!
