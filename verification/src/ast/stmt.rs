//! Statement nodes.  A statement exclusively owns its nested statements
//! and expressions.

use vstd::prelude::*;
use crate::ast::expr::{clone_expr, Expr, ExprV};
use crate::token::{clone_tokens, tokens_dv, Token, TokenV};

verus! {

/// A statement.  `for` loops have no variant of their own: the parser
/// desugars them into `While` and `Block`.
#[derive(Debug)]
pub enum Stmt {
    Block { stmts: Vec<Stmt> },
    Expression { expr: Expr },
    Class { name: Token, methods: Vec<Stmt> },
    Function { name: Token, params: Vec<Token>, stmts: Vec<Stmt> },
    If { condition: Expr, then_branch: Box<Stmt>, else_branch: Option<Box<Stmt>> },
    Print { expr: Expr },
    Return { keyword: Token, value: Option<Expr> },
    Var { name: Token, initializer: Option<Expr> },
    While { condition: Expr, body: Box<Stmt> },
}

/// The mathematical view of a statement tree.
#[verifier::ext_equal]
pub enum StmtV {
    Block { stmts: Seq<StmtV> },
    Expression { expr: ExprV },
    Class { name: TokenV, methods: Seq<StmtV> },
    Function { name: TokenV, params: Seq<TokenV>, stmts: Seq<StmtV> },
    If { condition: ExprV, then_branch: Box<StmtV>, else_branch: Option<Box<StmtV>> },
    Print { expr: ExprV },
    Return { keyword: TokenV, value: Option<ExprV> },
    Var { name: TokenV, initializer: Option<ExprV> },
    While { condition: ExprV, body: Box<StmtV> },
}

impl DeepView for Stmt {
    type V = StmtV;

    open spec fn deep_view(&self) -> StmtV
        decreases *self,
    {
        match self {
            Stmt::Block { stmts } => StmtV::Block { stmts: stmts_dv(stmts@) },
            Stmt::Expression { expr } => StmtV::Expression { expr: expr.deep_view() },
            Stmt::Class { name, methods } => StmtV::Class {
                name: name.deep_view(),
                methods: stmts_dv(methods@),
            },
            Stmt::Function { name, params, stmts } => StmtV::Function {
                name: name.deep_view(),
                params: tokens_dv(params@),
                stmts: stmts_dv(stmts@),
            },
            Stmt::If { condition, then_branch, else_branch } => StmtV::If {
                condition: condition.deep_view(),
                then_branch: Box::new((**then_branch).deep_view()),
                else_branch: match else_branch {
                    Some(b) => Some(Box::new((**b).deep_view())),
                    None => None,
                },
            },
            Stmt::Print { expr } => StmtV::Print { expr: expr.deep_view() },
            Stmt::Return { keyword, value } => StmtV::Return {
                keyword: keyword.deep_view(),
                value: match value {
                    Some(e) => Some(e.deep_view()),
                    None => None,
                },
            },
            Stmt::Var { name, initializer } => StmtV::Var {
                name: name.deep_view(),
                initializer: match initializer {
                    Some(e) => Some(e.deep_view()),
                    None => None,
                },
            },
            Stmt::While { condition, body } => StmtV::While {
                condition: condition.deep_view(),
                body: Box::new((**body).deep_view()),
            },
        }
    }
}

/// The view of a statement sequence: the view of each element.
pub open spec fn stmts_dv(s: Seq<Stmt>) -> Seq<StmtV>
    decreases s,
{
    if s.len() == 0 {
        Seq::empty()
    } else {
        stmts_dv(s.drop_last()).push(s.last().deep_view())
    }
}

/// `stmts_dv` is the element-wise view: it keeps the length and views
/// each element in place.
pub broadcast proof fn lemma_stmts_dv(s: Seq<Stmt>)
    ensures
        (#[trigger] stmts_dv(s)).len() == s.len(),
        forall|i: int| 0 <= i < s.len() ==> stmts_dv(s)[i] == s[i].deep_view(),
    decreases s,
{
    if s.len() > 0 {
        lemma_stmts_dv(s.drop_last());
        assert(stmts_dv(s) == stmts_dv(s.drop_last()).push(s.last().deep_view()));
        assert forall|i: int| 0 <= i < s.len() implies stmts_dv(s)[i] == s[i].deep_view() by {
            if i < s.len() - 1 {
                assert(stmts_dv(s)[i] == stmts_dv(s.drop_last())[i]);
                assert(s.drop_last()[i] == s[i]);
            } else {
                assert(stmts_dv(s)[i] == s.last().deep_view());
            }
        }
    }
}

/// Appending a statement appends its view.
pub broadcast proof fn lemma_stmts_dv_push(s: Seq<Stmt>, e: Stmt)
    ensures
        #[trigger] stmts_dv(s.push(e)) == stmts_dv(s).push(e.deep_view()),
{
    assert(s.push(e).drop_last() =~= s);
    assert(s.push(e).last() == e);
}

/// A structure-for-structure copy of a statement tree.
pub fn clone_stmt(s: &Stmt) -> (r: Stmt)
    ensures
        r.deep_view() == s.deep_view(),
    decreases *s,
{
    match s {
        Stmt::Block { stmts } => Stmt::Block { stmts: clone_stmts(stmts) },
        Stmt::Expression { expr } => Stmt::Expression { expr: clone_expr(expr) },
        Stmt::Class { name, methods } => Stmt::Class {
            name: name.clone(),
            methods: clone_stmts(methods),
        },
        Stmt::Function { name, params, stmts } => Stmt::Function {
            name: name.clone(),
            params: clone_tokens(params),
            stmts: clone_stmts(stmts),
        },
        Stmt::If { condition, then_branch, else_branch } => Stmt::If {
            condition: clone_expr(condition),
            then_branch: Box::new(clone_stmt(&**then_branch)),
            else_branch: match else_branch {
                Some(b) => Some(Box::new(clone_stmt(&**b))),
                None => None,
            },
        },
        Stmt::Print { expr } => Stmt::Print { expr: clone_expr(expr) },
        Stmt::Return { keyword, value } => Stmt::Return {
            keyword: keyword.clone(),
            value: match value {
                Some(e) => Some(clone_expr(e)),
                None => None,
            },
        },
        Stmt::Var { name, initializer } => Stmt::Var {
            name: name.clone(),
            initializer: match initializer {
                Some(e) => Some(clone_expr(e)),
                None => None,
            },
        },
        Stmt::While { condition, body } => Stmt::While {
            condition: clone_expr(condition),
            body: Box::new(clone_stmt(&**body)),
        },
    }
}

/// An element-for-element copy of a statement sequence.
pub fn clone_stmts(v: &Vec<Stmt>) -> (r: Vec<Stmt>)
    ensures
        stmts_dv(r@) == stmts_dv(v@),
    decreases v@,
{
    let mut r: Vec<Stmt> = Vec::new();
    let mut i: usize = 0;
    while i < v.len()
        invariant
            i <= v@.len(),
            r@.len() == i,
            forall|j: int| 0 <= j < i ==> #[trigger] r@[j].deep_view() == v@[j].deep_view(),
        decreases v@.len() - i,
    {
        r.push(clone_stmt(&v[i]));
        i = i + 1;
    }
    proof {
        lemma_stmts_dv(r@);
        lemma_stmts_dv(v@);
        assert(stmts_dv(r@) =~= stmts_dv(v@));
    }
    r
}

impl Clone for Stmt {
    fn clone(&self) -> (r: Stmt)
        ensures
            r.deep_view() == self.deep_view(),
    {
        clone_stmt(self)
    }
}

} // verus!
