//! User-defined functions: a name, a parameter list, a body, and the
//! scope the function was declared in, captured by arena index so that
//! closures observe later mutations of captured variables.

use vstd::prelude::*;
use crate::ast::stmt::{clone_stmts, stmts_dv, Stmt, StmtV};
use crate::token::{clone_tokens, tokens_dv, Token, TokenV};

verus! {

/// A callable function value.  `closure` is the index of the defining
/// scope in the interpreter's scope arena.
#[derive(Debug)]
pub struct Function {
    pub name: Token,
    pub params: Vec<Token>,
    pub body: Vec<Stmt>,
    pub closure: usize,
}

/// The mathematical view of a function value.
#[verifier::ext_equal]
pub struct FunctionV {
    pub name: TokenV,
    pub params: Seq<TokenV>,
    pub body: Seq<StmtV>,
    pub closure: usize,
}

impl DeepView for Function {
    type V = FunctionV;

    open spec fn deep_view(&self) -> FunctionV {
        FunctionV {
            name: self.name.deep_view(),
            params: tokens_dv(self.params@),
            body: stmts_dv(self.body@),
            closure: self.closure,
        }
    }
}

impl Function {
    pub fn new(name: Token, params: Vec<Token>, body: Vec<Stmt>, scope: usize) -> (f: Function)
        ensures
            f == (Function { name, params, body, closure: scope }),
    {
        Function { name, params, body, closure: scope }
    }

    /// The exact number of arguments a call must supply.
    pub fn arity(&self) -> (n: usize)
        ensures
            n == self.params@.len(),
    {
        self.params.len()
    }
}

impl Clone for Function {
    fn clone(&self) -> (r: Function)
        ensures
            r.deep_view() == self.deep_view(),
    {
        Function {
            name: self.name.clone(),
            params: clone_tokens(&self.params),
            body: clone_stmts(&self.body),
            closure: self.closure,
        }
    }
}

} // verus!
