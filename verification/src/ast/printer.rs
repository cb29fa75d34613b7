//! The debug printer: a pure consumer of the tree that renders each
//! node in a parenthesized prefix form, one line per top-level
//! statement.  The rendering is a function of the tree alone: the spec
//! functions here give the exact text.

use vstd::prelude::*;
use vstd::string::StringExecFns;
use crate::ast::expr::{Expr, ExprV};
use crate::ast::stmt::{Stmt, StmtV};
use crate::text::contains_char;
use crate::token::{Token, TokenType, TokenV};

verus! {

/// The rendering of a literal token: `null`, `true` and `false` as
/// themselves, numbers normalized to always carry a fraction digit,
/// strings quoted.
pub open spec fn p_literal(t: TokenV) -> Seq<char> {
    if t.token_type == TokenType::NULL {
        "null"@
    } else if t.token_type == TokenType::NUMBER {
        if exists|i: int| 0 <= i < t.lexeme.len() && t.lexeme[i] == '.' {
            t.lexeme
        } else {
            t.lexeme + ".0"@
        }
    } else if t.token_type == TokenType::TRUE {
        "true"@
    } else if t.token_type == TokenType::FALSE {
        "false"@
    } else if t.token_type == TokenType::STRING {
        "\""@ + t.lexeme + "\""@
    } else {
        "no such literal"@
    }
}

/// The rendering of an expression.
pub open spec fn p_expr(e: ExprV) -> Seq<char>
    decreases e,
{
    match e {
        ExprV::Unary { op, operand } => "("@ + op.lexeme + " "@ + p_expr(*operand) + ")"@,
        ExprV::Binary { op, left, right } => "("@ + op.lexeme + " "@ + p_expr(*left) + " "@
            + p_expr(*right) + ")"@,
        ExprV::Logical { op, left, right } => "("@ + op.lexeme + " "@ + p_expr(*left) + " "@
            + p_expr(*right) + ")"@,
        ExprV::Grouping { inner } => "(group "@ + p_expr(*inner) + ")"@,
        ExprV::Literal { token } => p_literal(token),
        ExprV::Variable { name } => name.lexeme,
        ExprV::Assign { name, value } => "(= "@ + name.lexeme + " "@ + p_expr(*value) + ")"@,
        ExprV::Call { callee, paren, arguments } => "("@ + p_expr(*callee) + " ("@ + paren.lexeme
            + p_args(arguments) + ")"@,
    }
}

/// The rendering of a call's arguments: one space before each.
pub open spec fn p_args(args: Seq<ExprV>) -> Seq<char>
    decreases args,
{
    if args.len() == 0 {
        Seq::empty()
    } else {
        p_args(args.drop_last()) + " "@ + p_expr(args.last())
    }
}

/// The rendering of a parameter list: one space before each name.
pub open spec fn p_params(params: Seq<TokenV>) -> Seq<char>
    decreases params,
{
    if params.len() == 0 {
        Seq::empty()
    } else {
        p_params(params.drop_last()) + " "@ + params.last().lexeme
    }
}

/// The rendering of a statement.
pub open spec fn p_stmt(s: StmtV) -> Seq<char>
    decreases s,
{
    match s {
        StmtV::Block { stmts } => "(block "@ + p_stmts(stmts) + ")"@,
        StmtV::Class { name, methods } => "(class "@ + name.lexeme + " "@ + p_stmts(methods)
            + ")"@,
        StmtV::Expression { expr } => "(; "@ + p_expr(expr) + ")"@,
        StmtV::Function { name, params, stmts } => "(fun "@ + name.lexeme + " ("@ + p_params(
            params,
        ) + ") "@ + p_stmts(stmts) + ")"@,
        StmtV::If { condition, then_branch, else_branch } => "(if "@ + p_expr(condition) + p_stmt(
            *then_branch,
        ) + (match else_branch {
            Some(b) => p_stmt(*b),
            None => Seq::empty(),
        }) + ")"@,
        StmtV::Print { expr } => "(print "@ + p_expr(expr) + ")"@,
        StmtV::Return { keyword, value } => match value {
            Some(e) => "(return "@ + p_expr(e) + ")"@,
            None => "(return)"@,
        },
        StmtV::Var { name, initializer } => match initializer {
            Some(e) => "(var "@ + name.lexeme + " "@ + p_expr(e) + ")"@,
            None => "(var "@ + name.lexeme + ")"@,
        },
        StmtV::While { condition, body } => "(while "@ + p_expr(condition) + p_stmt(*body) + ")"@,
    }
}

/// The rendering of a statement list: the renderings, run together.
pub open spec fn p_stmts(ss: Seq<StmtV>) -> Seq<char>
    decreases ss,
{
    if ss.len() == 0 {
        Seq::empty()
    } else {
        p_stmts(ss.drop_last()) + p_stmt(ss.last())
    }
}

/// The rendering of a program: one line per top-level statement.
pub open spec fn p_program(ss: Seq<StmtV>) -> Seq<char>
    decreases ss,
{
    if ss.len() == 0 {
        Seq::empty()
    } else {
        p_program(ss.drop_last()) + p_stmt(ss.last()) + "\n"@
    }
}

/// The debug printer.
pub struct AstPrinter;

/// The rendering of one expression, as `p_expr` states it.
pub fn expr_text(e: &Expr) -> (r: String)
    ensures
        r@ == p_expr(e.deep_view()),
    decreases *e,
{
    match e {
        Expr::Unary { op, operand } => {
            let mut s = String::new();
            s.append("(");
            s.append(op.lexeme.as_str());
            s.append(" ");
            let inner = expr_text(&**operand);
            s.append(inner.as_str());
            s.append(")");
            s
        },
        Expr::Binary { op, left, right } => {
            let mut s = String::new();
            s.append("(");
            s.append(op.lexeme.as_str());
            s.append(" ");
            let l = expr_text(&**left);
            s.append(l.as_str());
            s.append(" ");
            let rr = expr_text(&**right);
            s.append(rr.as_str());
            s.append(")");
            s
        },
        Expr::Logical { op, left, right } => {
            let mut s = String::new();
            s.append("(");
            s.append(op.lexeme.as_str());
            s.append(" ");
            let l = expr_text(&**left);
            s.append(l.as_str());
            s.append(" ");
            let rr = expr_text(&**right);
            s.append(rr.as_str());
            s.append(")");
            s
        },
        Expr::Grouping { inner } => {
            let mut s = String::new();
            s.append("(group ");
            let t = expr_text(&**inner);
            s.append(t.as_str());
            s.append(")");
            s
        },
        Expr::Literal { token } => {
            if token.token_type == TokenType::NULL {
                "null".to_owned()
            } else if token.token_type == TokenType::NUMBER {
                if contains_char(token.lexeme.as_str(), '.') {
                    token.lexeme.clone()
                } else {
                    let mut s = token.lexeme.clone();
                    s.append(".0");
                    s
                }
            } else if token.token_type == TokenType::TRUE {
                "true".to_owned()
            } else if token.token_type == TokenType::FALSE {
                "false".to_owned()
            } else if token.token_type == TokenType::STRING {
                let mut s = "\"".to_owned();
                s.append(token.lexeme.as_str());
                s.append("\"");
                s
            } else {
                "no such literal".to_owned()
            }
        },
        Expr::Variable { name } => name.lexeme.clone(),
        Expr::Assign { name, value } => {
            let mut s = String::new();
            s.append("(= ");
            s.append(name.lexeme.as_str());
            s.append(" ");
            let t = expr_text(&**value);
            s.append(t.as_str());
            s.append(")");
            s
        },
        Expr::Call { callee, paren, arguments } => {
            let mut s = String::new();
            s.append("(");
            let c = expr_text(&**callee);
            s.append(c.as_str());
            s.append(" (");
            s.append(paren.lexeme.as_str());
            let t = call_args_text(arguments);
            s.append(t.as_str());
            s.append(")");
            s
        },
    }
}

/// The rendering of a call's arguments, as `p_args` states it.
pub fn call_args_text(args: &Vec<Expr>) -> (r: String)
    ensures
        r@ == p_args(crate::ast::expr::exprs_dv(args@)),
    decreases args@,
{
    let ghost adv = crate::ast::expr::exprs_dv(args@);
    proof {
        crate::ast::expr::lemma_exprs_dv(args@);
        assert(adv.take(0) =~= Seq::<ExprV>::empty());
    }
    let mut out = String::new();
    let mut i: usize = 0;
    while i < args.len()
        invariant
            i <= args@.len(),
            adv == crate::ast::expr::exprs_dv(args@),
            adv.len() == args@.len(),
            forall|j: int| 0 <= j < args@.len() ==> adv[j] == args@[j].deep_view(),
            out@ == p_args(adv.take(i as int)),
        decreases args@.len() - i,
    {
        out.append(" ");
        let t = expr_text(&args[i]);
        out.append(t.as_str());
        i = i + 1;
        proof {
            assert(adv.take(i as int).drop_last() =~= adv.take(i as int - 1));
            assert(adv.take(i as int).last() == adv[i as int - 1]);
        }
    }
    proof {
        assert(adv.take(adv.len() as int) =~= adv);
    }
    out
}

/// The rendering of one statement, as `p_stmt` states it.
pub fn stmt_text(s: &Stmt) -> (r: String)
    ensures
        r@ == p_stmt(s.deep_view()),
    decreases *s,
{
    match s {
        Stmt::Block { stmts } => {
            let mut out = String::new();
            out.append("(block ");
            let t = stmts_text(stmts);
            out.append(t.as_str());
            out.append(")");
            out
        },
        Stmt::Class { name, methods } => {
            let mut out = String::new();
            out.append("(class ");
            out.append(name.lexeme.as_str());
            out.append(" ");
            let t = stmts_text(methods);
            out.append(t.as_str());
            out.append(")");
            out
        },
        Stmt::Expression { expr } => {
            let mut out = String::new();
            out.append("(; ");
            let t = expr_text(expr);
            out.append(t.as_str());
            out.append(")");
            out
        },
        Stmt::Function { name, params, stmts } => {
            let mut out = String::new();
            out.append("(fun ");
            out.append(name.lexeme.as_str());
            out.append(" (");
            let mut i: usize = 0;
            proof {
                assert(crate::token::tokens_dv(params@).take(0) =~= Seq::<TokenV>::empty());
                crate::token::lemma_tokens_dv(params@);
            }
            while i < params.len()
                invariant
                    i <= params@.len(),
                    crate::token::tokens_dv(params@).len() == params@.len(),
                    forall|j: int|
                        0 <= j < params@.len() ==> crate::token::tokens_dv(params@)[j]
                            == params@[j].deep_view(),
                    out@ == "(fun "@ + name.deep_view().lexeme + " ("@ + p_params(
                        crate::token::tokens_dv(params@).take(i as int),
                    ),
                    s.deep_view() == (StmtV::Function {
                        name: name.deep_view(),
                        params: crate::token::tokens_dv(params@),
                        stmts: crate::ast::stmt::stmts_dv(stmts@),
                    }),
                decreases params@.len() - i,
            {
                out.append(" ");
                out.append(params[i].lexeme.as_str());
                i = i + 1;
                proof {
                    let pdv = crate::token::tokens_dv(params@);
                    assert(pdv.take(i as int).drop_last() =~= pdv.take(i as int - 1));
                    assert(pdv.take(i as int).last() == pdv[i as int - 1]);
                }
            }
            proof {
                let pdv = crate::token::tokens_dv(params@);
                assert(pdv.take(pdv.len() as int) =~= pdv);
            }
            out.append(") ");
            let t = stmts_text(stmts);
            out.append(t.as_str());
            out.append(")");
            out
        },
        Stmt::If { condition, then_branch, else_branch } => {
            let mut out = String::new();
            out.append("(if ");
            let c = expr_text(condition);
            out.append(c.as_str());
            let t = stmt_text(&**then_branch);
            out.append(t.as_str());
            match else_branch {
                Some(b) => {
                    let e2 = stmt_text(&**b);
                    out.append(e2.as_str());
                },
                None => {},
            }
            out.append(")");
            out
        },
        Stmt::Print { expr } => {
            let mut out = String::new();
            out.append("(print ");
            let t = expr_text(expr);
            out.append(t.as_str());
            out.append(")");
            out
        },
        Stmt::Return { keyword, value } => match value {
            Some(e) => {
                let mut out = String::new();
                out.append("(return ");
                let t = expr_text(e);
                out.append(t.as_str());
                out.append(")");
                out
            },
            None => "(return)".to_owned(),
        },
        Stmt::Var { name, initializer } => match initializer {
            Some(e) => {
                let mut out = String::new();
                out.append("(var ");
                out.append(name.lexeme.as_str());
                out.append(" ");
                let t = expr_text(e);
                out.append(t.as_str());
                out.append(")");
                out
            },
            None => {
                let mut out = String::new();
                out.append("(var ");
                out.append(name.lexeme.as_str());
                out.append(")");
                out
            },
        },
        Stmt::While { condition, body } => {
            let mut out = String::new();
            out.append("(while ");
            let c = expr_text(condition);
            out.append(c.as_str());
            let b = stmt_text(&**body);
            out.append(b.as_str());
            out.append(")");
            out
        },
    }
}

/// The rendering of a statement list, as `p_stmts` states it.
pub fn stmts_text(ss: &Vec<Stmt>) -> (r: String)
    ensures
        r@ == p_stmts(crate::ast::stmt::stmts_dv(ss@)),
    decreases ss@,
{
    let ghost sdv = crate::ast::stmt::stmts_dv(ss@);
    proof {
        crate::ast::stmt::lemma_stmts_dv(ss@);
        assert(sdv.take(0) =~= Seq::<StmtV>::empty());
    }
    let mut out = String::new();
    let mut i: usize = 0;
    while i < ss.len()
        invariant
            i <= ss@.len(),
            sdv == crate::ast::stmt::stmts_dv(ss@),
            sdv.len() == ss@.len(),
            forall|j: int| 0 <= j < ss@.len() ==> sdv[j] == ss@[j].deep_view(),
            out@ == p_stmts(sdv.take(i as int)),
        decreases ss@.len() - i,
    {
        let t = stmt_text(&ss[i]);
        out.append(t.as_str());
        i = i + 1;
        proof {
            assert(sdv.take(i as int).drop_last() =~= sdv.take(i as int - 1));
            assert(sdv.take(i as int).last() == sdv[i as int - 1]);
        }
    }
    proof {
        assert(sdv.take(sdv.len() as int) =~= sdv);
    }
    out
}

impl AstPrinter {
    /// The rendering of one expression, as `p_expr` states it.
    pub fn print_expr(expr: Expr) -> (r: String)
        ensures
            r@ == p_expr(expr.deep_view()),
    {
        expr_text(&expr)
    }

    /// The rendering of a program: one line per top-level statement,
    /// as `p_program` states it.
    pub fn print_stmt(stmts: Vec<Stmt>) -> (r: String)
        ensures
            r@ == p_program(crate::ast::stmt::stmts_dv(stmts@)),
    {
        let ghost sdv = crate::ast::stmt::stmts_dv(stmts@);
        proof {
            crate::ast::stmt::lemma_stmts_dv(stmts@);
            assert(sdv.take(0) =~= Seq::<StmtV>::empty());
        }
        let mut out = String::new();
        let mut i: usize = 0;
        while i < stmts.len()
            invariant
                i <= stmts@.len(),
                sdv == crate::ast::stmt::stmts_dv(stmts@),
                sdv.len() == stmts@.len(),
                forall|j: int| 0 <= j < stmts@.len() ==> sdv[j] == stmts@[j].deep_view(),
                out@ == p_program(sdv.take(i as int)),
            decreases stmts@.len() - i,
        {
            let t = stmt_text(&stmts[i]);
            out.append(t.as_str());
            out.append("\n");
            i = i + 1;
            proof {
                assert(sdv.take(i as int).drop_last() =~= sdv.take(i as int - 1));
                assert(sdv.take(i as int).last() == sdv[i as int - 1]);
            }
        }
        proof {
            assert(sdv.take(sdv.len() as int) =~= sdv);
        }
        out
    }

    /// A parenthesized prefix form: the name, then each expression
    /// after one space.
    pub fn parenthesize(&mut self, name: Token, exprs: &[Expr]) -> (r: String)
        ensures
            r@ == "("@ + name.lexeme@ + p_args(crate::ast::expr::exprs_dv(exprs@)) + ")"@,
    {
        let ghost adv = crate::ast::expr::exprs_dv(exprs@);
        proof {
            crate::ast::expr::lemma_exprs_dv(exprs@);
            assert(adv.take(0) =~= Seq::<ExprV>::empty());
        }
        let mut out = String::new();
        out.append("(");
        out.append(name.lexeme.as_str());
        let mut i: usize = 0;
        while i < exprs.len()
            invariant
                i <= exprs@.len(),
                adv == crate::ast::expr::exprs_dv(exprs@),
                adv.len() == exprs@.len(),
                forall|j: int| 0 <= j < exprs@.len() ==> adv[j] == exprs@[j].deep_view(),
                out@ == "("@ + name.lexeme@ + p_args(adv.take(i as int)),
            decreases exprs@.len() - i,
        {
            out.append(" ");
            let t = expr_text(&exprs[i]);
            out.append(t.as_str());
            i = i + 1;
            proof {
                assert(adv.take(i as int).drop_last() =~= adv.take(i as int - 1));
                assert(adv.take(i as int).last() == adv[i as int - 1]);
            }
        }
        proof {
            assert(adv.take(adv.len() as int) =~= adv);
        }
        out.append(")");
        out
    }
}

} // verus!
