//! The parser: recursive descent over the token stream with an explicit
//! precedence ladder, producing statements and expressions.  A failing
//! declaration is counted and recorded, and the top-level loop goes on
//! with the next one: the contract is to maximize diagnostics, not to
//! stop at the first.
//!
//! Each parsing function is specified by a spec function over the token
//! views that gives exactly the node built, the position reached, the
//! error counter, and the diagnostics recorded.

use vstd::prelude::*;
use crate::ast::expr::{exprs_dv, lemma_exprs_dv, lemma_exprs_dv_push, Expr, ExprV};
use crate::ast::stmt::{lemma_stmts_dv_push, stmts_dv, Stmt, StmtV};
use crate::error::{lemma_perrs_dv_push, perrs_dv, ParserError, ParserErrorV};
use crate::token::{lemma_tokens_dv, tokens_dv, Token, TokenType, TokenV};

verus! {

/// The token under the cursor, if any.
pub open spec fn peek_v(t: Seq<TokenV>, pos: int) -> Option<TokenV> {
    if 0 <= pos < t.len() {
        Some(t[pos])
    } else {
        None
    }
}

/// Whether the cursor rests on the `EOF` token or past the end.
pub open spec fn is_end_v(t: Seq<TokenV>, pos: int) -> bool {
    match peek_v(t, pos) {
        Some(tk) => tk.token_type == TokenType::EOF,
        None => true,
    }
}

/// The error counter, stepped without wrapping.
pub open spec fn bump(e: u32) -> u32 {
    if e < u32::MAX {
        (e + 1) as u32
    } else {
        e
    }
}

/// A position that certainly moved forward: recursion in the spec
/// parser steps by at least one token.
pub open spec fn adv(pos: int, q: int) -> int {
    if q > pos {
        q
    } else {
        pos + 1
    }
}

/// What parsing an expression yields: the node or the diagnostic, the
/// position reached, and the error counter.
#[verifier::ext_equal]
pub struct ERes {
    pub r: Result<ExprV, ParserErrorV>,
    pub pos: int,
    pub errs: u32,
}

/// What consuming one expected token yields.
#[verifier::ext_equal]
pub struct TRes {
    pub r: Result<TokenV, ParserErrorV>,
    pub pos: int,
    pub errs: u32,
}

/// What parsing a statement yields: the node or the diagnostic, the
/// position reached, the error counter, and the diagnostics recorded on
/// the way.
#[verifier::ext_equal]
pub struct SRes {
    pub r: Result<StmtV, ParserErrorV>,
    pub pos: int,
    pub errs: u32,
    pub diags: Seq<ParserErrorV>,
}

/// What consuming the expected token yields: the token itself on
/// success; otherwise an `UnexpectedToken` diagnostic on the line of
/// the previously consumed token, and a stepped counter.
pub open spec fn sp_consume(
    t: Seq<TokenV>,
    pos: int,
    k: TokenType,
    msg: Seq<char>,
    errs: u32,
) -> TRes
    recommends
        pos >= 1,
{
    if pos < t.len() && t[pos].token_type == k {
        TRes { r: Ok(t[pos]), pos: pos + 1, errs }
    } else {
        TRes {
            r: Err(ParserErrorV::UnexpectedToken { line: t[pos - 1].line, message: msg }),
            pos,
            errs: bump(errs),
        }
    }
}

/// What parsing a block's statement list yields.
#[verifier::ext_equal]
pub struct IRes {
    pub r: Result<Seq<StmtV>, ParserErrorV>,
    pub pos: int,
    pub errs: u32,
    pub diags: Seq<ParserErrorV>,
}

/// What parsing a class's method list yields: failing methods are
/// recorded, never fatal.
#[verifier::ext_equal]
pub struct MRes {
    pub methods: Seq<StmtV>,
    pub pos: int,
    pub errs: u32,
    pub diags: Seq<ParserErrorV>,
}

/// What parsing a parameter list yields.
#[verifier::ext_equal]
pub struct PaRes {
    pub r: Result<Seq<TokenV>, ParserErrorV>,
    pub pos: int,
    pub errs: u32,
}

/// What parsing a whole program yields: the statements that parsed,
/// with every failure recorded.
#[verifier::ext_equal]
pub struct PRes {
    pub stmts: Seq<StmtV>,
    pub pos: int,
    pub errs: u32,
    pub diags: Seq<ParserErrorV>,
}

/// An expression statement: an expression closed by `;`.
#[verifier::opaque]
pub open spec fn sp_expression_statement(t: Seq<TokenV>, pos: int, errs: u32) -> SRes
    decreases t.len() - pos, 130int,
{
    let e = sp_expr(t, pos, errs);
    match e.r {
        Err(er) => SRes { r: Err(er), pos: e.pos, errs: e.errs, diags: Seq::empty() },
        Ok(x) => {
            let c = sp_consume(
                t,
                e.pos,
                TokenType::SEMICOLON,
                "Expect ';' after expression."@,
                e.errs,
            );
            match c.r {
                Err(er) => SRes { r: Err(er), pos: c.pos, errs: c.errs, diags: Seq::empty() },
                Ok(_) => SRes {
                    r: Ok(StmtV::Expression { expr: x }),
                    pos: c.pos,
                    errs: c.errs,
                    diags: Seq::empty(),
                },
            }
        },
    }
}

/// A `print` statement: `print ( expression ) ;`.
#[verifier::opaque]
pub open spec fn sp_print_statement(t: Seq<TokenV>, pos: int, errs: u32) -> SRes
    recommends
        pos >= 1,
    decreases t.len() - pos, 130int,
{
    let c1 = sp_consume(t, pos, TokenType::LEFT_PAREN, "Expect '(' after 'print'."@, errs);
    match c1.r {
        Err(er) => SRes { r: Err(er), pos: c1.pos, errs: c1.errs, diags: Seq::empty() },
        Ok(_) => {
            let e = sp_expr(t, c1.pos, c1.errs);
            match e.r {
                Err(er) => SRes { r: Err(er), pos: e.pos, errs: e.errs, diags: Seq::empty() },
                Ok(x) => {
                    let c2 = sp_consume(
                        t,
                        e.pos,
                        TokenType::RIGHT_PAREN,
                        "Expect ')' after value."@,
                        e.errs,
                    );
                    match c2.r {
                        Err(er) => SRes {
                            r: Err(er),
                            pos: c2.pos,
                            errs: c2.errs,
                            diags: Seq::empty(),
                        },
                        Ok(_) => {
                            let c3 = sp_consume(
                                t,
                                c2.pos,
                                TokenType::SEMICOLON,
                                "Expect ';' after value."@,
                                c2.errs,
                            );
                            match c3.r {
                                Err(er) => SRes {
                                    r: Err(er),
                                    pos: c3.pos,
                                    errs: c3.errs,
                                    diags: Seq::empty(),
                                },
                                Ok(_) => SRes {
                                    r: Ok(StmtV::Print { expr: x }),
                                    pos: c3.pos,
                                    errs: c3.errs,
                                    diags: Seq::empty(),
                                },
                            }
                        },
                    }
                },
            }
        },
    }
}

/// An `if` statement, with an optional `else` branch.
#[verifier::opaque]
pub open spec fn sp_if_statement(t: Seq<TokenV>, pos: int, errs: u32) -> SRes
    recommends
        pos >= 1,
    decreases t.len() - pos, 130int,
{
    let c1 = sp_consume(t, pos, TokenType::LEFT_PAREN, "Expect '(' after 'if'."@, errs);
    match c1.r {
        Err(er) => SRes { r: Err(er), pos: c1.pos, errs: c1.errs, diags: Seq::empty() },
        Ok(_) => {
            let e = sp_expr(t, c1.pos, c1.errs);
            match e.r {
                Err(er) => SRes { r: Err(er), pos: e.pos, errs: e.errs, diags: Seq::empty() },
                Ok(cond) => {
                    let c2 = sp_consume(
                        t,
                        e.pos,
                        TokenType::RIGHT_PAREN,
                        "Expect ')' after if condition."@,
                        e.errs,
                    );
                    match c2.r {
                        Err(er) => SRes {
                            r: Err(er),
                            pos: c2.pos,
                            errs: c2.errs,
                            diags: Seq::empty(),
                        },
                        Ok(_) => {
                            let s1 = sp_statement(t, step_to(pos, c2.pos, t.len() as int), c2.errs);
                            match s1.r {
                                Err(er) => SRes {
                                    r: Err(er),
                                    pos: s1.pos,
                                    errs: s1.errs,
                                    diags: s1.diags,
                                },
                                Ok(thenb) => {
                                    if s1.pos < t.len() && t[s1.pos].token_type == TokenType::ELSE {
                                        let s2 = sp_statement(
                                            t,
                                            step_to(pos, s1.pos + 1, t.len() as int),
                                            s1.errs,
                                        );
                                        match s2.r {
                                            Err(er) => SRes {
                                                r: Err(er),
                                                pos: s2.pos,
                                                errs: s2.errs,
                                                diags: s1.diags + s2.diags,
                                            },
                                            Ok(elseb) => SRes {
                                                r: Ok(
                                                    StmtV::If {
                                                        condition: cond,
                                                        then_branch: Box::new(thenb),
                                                        else_branch: Some(Box::new(elseb)),
                                                    },
                                                ),
                                                pos: s2.pos,
                                                errs: s2.errs,
                                                diags: s1.diags + s2.diags,
                                            },
                                        }
                                    } else {
                                        SRes {
                                            r: Ok(
                                                StmtV::If {
                                                    condition: cond,
                                                    then_branch: Box::new(thenb),
                                                    else_branch: None,
                                                },
                                            ),
                                            pos: s1.pos,
                                            errs: s1.errs,
                                            diags: s1.diags,
                                        }
                                    }
                                },
                            }
                        },
                    }
                },
            }
        },
    }
}

/// A `while` statement.
#[verifier::opaque]
pub open spec fn sp_while_statement(t: Seq<TokenV>, pos: int, errs: u32) -> SRes
    recommends
        pos >= 1,
    decreases t.len() - pos, 130int,
{
    let c1 = sp_consume(t, pos, TokenType::LEFT_PAREN, "Expect '(' after 'while'."@, errs);
    match c1.r {
        Err(er) => SRes { r: Err(er), pos: c1.pos, errs: c1.errs, diags: Seq::empty() },
        Ok(_) => {
            let e = sp_expr(t, c1.pos, c1.errs);
            match e.r {
                Err(er) => SRes { r: Err(er), pos: e.pos, errs: e.errs, diags: Seq::empty() },
                Ok(cond) => {
                    let c2 = sp_consume(
                        t,
                        e.pos,
                        TokenType::RIGHT_PAREN,
                        "Expect ')' after while condition."@,
                        e.errs,
                    );
                    match c2.r {
                        Err(er) => SRes {
                            r: Err(er),
                            pos: c2.pos,
                            errs: c2.errs,
                            diags: Seq::empty(),
                        },
                        Ok(_) => {
                            let s1 = sp_statement(t, step_to(pos, c2.pos, t.len() as int), c2.errs);
                            match s1.r {
                                Err(er) => SRes {
                                    r: Err(er),
                                    pos: s1.pos,
                                    errs: s1.errs,
                                    diags: s1.diags,
                                },
                                Ok(body) => SRes {
                                    r: Ok(StmtV::While { condition: cond, body: Box::new(body) }),
                                    pos: s1.pos,
                                    errs: s1.errs,
                                    diags: s1.diags,
                                },
                            }
                        },
                    }
                },
            }
        },
    }
}

/// A `return` statement, with an optional value.
#[verifier::opaque]
pub open spec fn sp_return_statement(t: Seq<TokenV>, pos: int, errs: u32) -> SRes
    recommends
        pos >= 1,
    decreases t.len() - pos, 130int,
{
    let keyword = t[pos - 1];
    if pos < t.len() && t[pos].token_type == TokenType::SEMICOLON {
        let c = sp_consume(t, pos, TokenType::SEMICOLON, "Expect ';' after return value."@, errs);
        SRes {
            r: Ok(StmtV::Return { keyword, value: None }),
            pos: c.pos,
            errs: c.errs,
            diags: Seq::empty(),
        }
    } else {
        let e = sp_expr(t, pos, errs);
        match e.r {
            Err(er) => SRes { r: Err(er), pos: e.pos, errs: e.errs, diags: Seq::empty() },
            Ok(x) => {
                let c = sp_consume(
                    t,
                    e.pos,
                    TokenType::SEMICOLON,
                    "Expect ';' after return value."@,
                    e.errs,
                );
                match c.r {
                    Err(er) => SRes { r: Err(er), pos: c.pos, errs: c.errs, diags: Seq::empty() },
                    Ok(_) => SRes {
                        r: Ok(StmtV::Return { keyword, value: Some(x) }),
                        pos: c.pos,
                        errs: c.errs,
                        diags: Seq::empty(),
                    },
                }
            },
        }
    }
}

/// A `var` declaration, with an optional initializer.
#[verifier::opaque]
pub open spec fn sp_var_declaration(t: Seq<TokenV>, pos: int, errs: u32) -> SRes
    recommends
        pos >= 1,
    decreases t.len() - pos, 130int,
{
    let n = sp_consume(t, pos, TokenType::IDENTIFIER, "Expect variable name."@, errs);
    match n.r {
        Err(er) => SRes { r: Err(er), pos: n.pos, errs: n.errs, diags: Seq::empty() },
        Ok(name) => {
            if n.pos < t.len() && t[n.pos].token_type == TokenType::EQUAL {
                let e = sp_expr(t, n.pos + 1, n.errs);
                match e.r {
                    Err(er) => SRes { r: Err(er), pos: e.pos, errs: e.errs, diags: Seq::empty() },
                    Ok(x) => {
                        let c = sp_consume(
                            t,
                            e.pos,
                            TokenType::SEMICOLON,
                            "Expect ';' after variable declaration."@,
                            e.errs,
                        );
                        match c.r {
                            Err(er) => SRes {
                                r: Err(er),
                                pos: c.pos,
                                errs: c.errs,
                                diags: Seq::empty(),
                            },
                            Ok(_) => SRes {
                                r: Ok(StmtV::Var { name, initializer: Some(x) }),
                                pos: c.pos,
                                errs: c.errs,
                                diags: Seq::empty(),
                            },
                        }
                    },
                }
            } else {
                let c = sp_consume(
                    t,
                    n.pos,
                    TokenType::SEMICOLON,
                    "Expect ';' after variable declaration."@,
                    n.errs,
                );
                match c.r {
                    Err(er) => SRes { r: Err(er), pos: c.pos, errs: c.errs, diags: Seq::empty() },
                    Ok(_) => SRes {
                        r: Ok(StmtV::Var { name, initializer: None }),
                        pos: c.pos,
                        errs: c.errs,
                        diags: Seq::empty(),
                    },
                }
            }
        },
    }
}

/// A function's comma-separated parameter names, capped at 255.
#[verifier::opaque]
pub open spec fn sp_params(t: Seq<TokenV>, params: Seq<TokenV>, pos: int, errs: u32) -> PaRes
    recommends
        pos >= 1,
    decreases t.len() - pos, 10int,
{
    if params.len() >= 255 {
        let line = if 0 <= pos < t.len() {
            t[pos].line
        } else {
            t[pos - 1].line
        };
        PaRes {
            r: Err(
                ParserErrorV::InvalidExpression {
                    line,
                    message: "Cannot have more than 255 parameters."@,
                },
            ),
            pos,
            errs: bump(errs),
        }
    } else {
        let c = sp_consume(t, pos, TokenType::IDENTIFIER, "Expect parameter name."@, errs);
        match c.r {
            Err(er) => PaRes { r: Err(er), pos: c.pos, errs: c.errs },
            Ok(p) => {
                if c.pos < t.len() && t[c.pos].token_type == TokenType::COMMA {
                    sp_params(t, params.push(p), c.pos + 1, c.errs)
                } else {
                    PaRes { r: Ok(params.push(p)), pos: c.pos, errs: c.errs }
                }
            },
        }
    }
}

/// A function declaration: name, parameter list, and block body.
#[verifier::opaque]
pub open spec fn sp_function_declaration(t: Seq<TokenV>, pos: int, errs: u32) -> SRes
    recommends
        pos >= 1,
    decreases t.len() - pos, 130int,
{
    let n = sp_consume(t, pos, TokenType::IDENTIFIER, "Expect function name."@, errs);
    match n.r {
        Err(er) => SRes { r: Err(er), pos: n.pos, errs: n.errs, diags: Seq::empty() },
        Ok(name) => {
            let c1 = sp_consume(
                t,
                n.pos,
                TokenType::LEFT_PAREN,
                "Expect '(' after function name."@,
                n.errs,
            );
            match c1.r {
                Err(er) => SRes { r: Err(er), pos: c1.pos, errs: c1.errs, diags: Seq::empty() },
                Ok(_) => {
                    let no_params = c1.pos < t.len() && t[c1.pos].token_type
                        == TokenType::RIGHT_PAREN;
                    let pr = if no_params {
                        PaRes { r: Ok(Seq::empty()), pos: c1.pos, errs: c1.errs }
                    } else {
                        sp_params(t, Seq::empty(), step_to(pos, c1.pos, t.len() as int), c1.errs)
                    };
                    match pr.r {
                        Err(er) => SRes {
                            r: Err(er),
                            pos: pr.pos,
                            errs: pr.errs,
                            diags: Seq::empty(),
                        },
                        Ok(params) => {
                            let c2 = sp_consume(
                                t,
                                pr.pos,
                                TokenType::RIGHT_PAREN,
                                "Expect ')' after parameters."@,
                                pr.errs,
                            );
                            match c2.r {
                                Err(er) => SRes {
                                    r: Err(er),
                                    pos: c2.pos,
                                    errs: c2.errs,
                                    diags: Seq::empty(),
                                },
                                Ok(_) => {
                                    let c3 = sp_consume(
                                        t,
                                        c2.pos,
                                        TokenType::LEFT_BRACE,
                                        "Expect '{' before function body."@,
                                        c2.errs,
                                    );
                                    match c3.r {
                                        Err(er) => SRes {
                                            r: Err(er),
                                            pos: c3.pos,
                                            errs: c3.errs,
                                            diags: Seq::empty(),
                                        },
                                        Ok(_) => {
                                            let b = sp_block(
                                                t,
                                                step_to(pos, c3.pos, t.len() as int),
                                                c3.errs,
                                            );
                                            match b.r {
                                                Err(er) => SRes {
                                                    r: Err(er),
                                                    pos: b.pos,
                                                    errs: b.errs,
                                                    diags: b.diags,
                                                },
                                                Ok(stmts) => SRes {
                                                    r: Ok(
                                                        StmtV::Function { name, params, stmts },
                                                    ),
                                                    pos: b.pos,
                                                    errs: b.errs,
                                                    diags: b.diags,
                                                },
                                            }
                                        },
                                    }
                                },
                            }
                        },
                    }
                },
            }
        },
    }
}

/// The declarations of a block, up to the closing brace or the end.
#[verifier::opaque]
pub open spec fn sp_block_items(
    t: Seq<TokenV>,
    acc: Seq<StmtV>,
    dacc: Seq<ParserErrorV>,
    pos: int,
    errs: u32,
) -> IRes
    decreases t.len() - pos, 155int,
{
    if (pos < t.len() && t[pos].token_type == TokenType::RIGHT_BRACE) || is_end_v(t, pos) {
        IRes { r: Ok(acc), pos, errs, diags: dacc }
    } else {
        let d = sp_declaration(t, pos, errs);
        match d.r {
            Err(er) => IRes { r: Err(er), pos: d.pos, errs: d.errs, diags: dacc + d.diags },
            Ok(st) => sp_block_items(
                t,
                acc.push(st),
                dacc + d.diags,
                step_to(pos, d.pos, t.len() as int),
                d.errs,
            ),
        }
    }
}

/// A block body: declarations, then the closing `}`.
#[verifier::opaque]
pub open spec fn sp_block(t: Seq<TokenV>, pos: int, errs: u32) -> IRes
    recommends
        pos >= 1,
    decreases t.len() - pos, 160int,
{
    let it = sp_block_items(t, Seq::empty(), Seq::empty(), pos, errs);
    match it.r {
        Err(er) => IRes { r: Err(er), pos: it.pos, errs: it.errs, diags: it.diags },
        Ok(stmts) => {
            let c = sp_consume(
                t,
                at_least(pos, it.pos),
                TokenType::RIGHT_BRACE,
                "Expect '}' after block."@,
                it.errs,
            );
            match c.r {
                Err(er) => IRes { r: Err(er), pos: c.pos, errs: c.errs, diags: it.diags },
                Ok(_) => IRes { r: Ok(stmts), pos: c.pos, errs: c.errs, diags: it.diags },
            }
        },
    }
}

/// The methods of a class, each attempted in turn: a failing method is
/// counted and recorded, and when it consumed nothing the cursor steps
/// past one token so the scan always moves.
#[verifier::opaque]
pub open spec fn sp_methods(
    t: Seq<TokenV>,
    acc: Seq<StmtV>,
    dacc: Seq<ParserErrorV>,
    pos: int,
    errs: u32,
) -> MRes
    decreases t.len() - pos, 135int,
{
    if pos < t.len() && (t[pos].token_type == TokenType::EOF || t[pos].token_type
        == TokenType::RIGHT_BRACE) {
        MRes { methods: acc, pos, errs, diags: dacc }
    } else if pos >= t.len() {
        MRes { methods: acc, pos, errs, diags: dacc }
    } else {
        let m = sp_function_declaration(t, pos, errs);
        match m.r {
            Ok(st) => sp_methods(
                t,
                acc.push(st),
                dacc + m.diags,
                step_to(pos, m.pos, t.len() as int),
                m.errs,
            ),
            Err(er) => {
                let errs2 = bump(m.errs);
                let dacc2 = dacc + m.diags + seq![er];
                if m.pos > pos {
                    sp_methods(t, acc, dacc2, step_to(pos, m.pos, t.len() as int), errs2)
                } else {
                    sp_methods(t, acc, dacc2, pos + 1, errs2)
                }
            },
        }
    }
}

/// A class declaration: parsed and kept, though it has no run-time
/// meaning.
#[verifier::opaque]
pub open spec fn sp_class_declaration(t: Seq<TokenV>, pos: int, errs: u32) -> SRes
    recommends
        pos >= 1,
    decreases t.len() - pos, 145int,
{
    let n = sp_consume(t, pos, TokenType::IDENTIFIER, "Expect class name."@, errs);
    match n.r {
        Err(er) => SRes { r: Err(er), pos: n.pos, errs: n.errs, diags: Seq::empty() },
        Ok(name) => {
            let m = sp_methods(t, Seq::empty(), Seq::empty(), n.pos, n.errs);
            let c = sp_consume(
                t,
                at_least(pos, m.pos),
                TokenType::RIGHT_BRACE,
                "Expected } after class declaration"@,
                m.errs,
            );
            match c.r {
                Err(er) => SRes { r: Err(er), pos: c.pos, errs: c.errs, diags: m.diags },
                Ok(_) => SRes {
                    r: Ok(StmtV::Class { name, methods: m.methods }),
                    pos: c.pos,
                    errs: c.errs,
                    diags: m.diags,
                },
            }
        },
    }
}

/// A `for` statement, desugared at parse time into `While` and `Block`:
/// no `For` node exists.
#[verifier::opaque]
pub open spec fn sp_for_statement(t: Seq<TokenV>, pos: int, errs: u32) -> SRes
    recommends
        pos >= 1,
    decreases t.len() - pos, 130int,
{
    let c1 = sp_consume(t, pos, TokenType::LEFT_PAREN, "Expect '(' after 'for'."@, errs);
    match c1.r {
        Err(er) => SRes { r: Err(er), pos: c1.pos, errs: c1.errs, diags: Seq::empty() },
        Ok(_) => {
            let semi_init = c1.pos < t.len() && t[c1.pos].token_type == TokenType::SEMICOLON;
            let var_init = c1.pos < t.len() && t[c1.pos].token_type == TokenType::VAR;
            let ir: SRes = if semi_init {
                SRes { r: Ok(StmtV::Block { stmts: Seq::empty() }), pos: c1.pos + 1, errs: c1.errs, diags: Seq::empty() }
            } else if var_init {
                sp_var_declaration(t, step_to(pos, c1.pos + 1, t.len() as int), c1.errs)
            } else {
                sp_expression_statement(t, step_to(pos, c1.pos, t.len() as int), c1.errs)
            };
            if !semi_init && ir.r is Err {
                SRes { r: Err(ir.r->Err_0), pos: ir.pos, errs: ir.errs, diags: ir.diags }
            } else {
                let idg = if semi_init {
                    Seq::<ParserErrorV>::empty()
                } else {
                    ir.diags
                };
                let p_i = ir.pos;
                let has_cond = !(p_i < t.len() && t[p_i].token_type == TokenType::SEMICOLON);
                let ce = sp_expr(t, p_i, ir.errs);
                let cond: Option<ExprV> = if has_cond {
                    match ce.r {
                        Ok(x) => Some(x),
                        Err(_) => None,
                    }
                } else {
                    None
                };
                if has_cond && ce.r is Err {
                    SRes { r: Err(ce.r->Err_0), pos: ce.pos, errs: ce.errs, diags: Seq::empty() }
                } else {
                    let p_c = if has_cond {
                        ce.pos
                    } else {
                        p_i
                    };
                    let e_c = if has_cond {
                        ce.errs
                    } else {
                        ir.errs
                    };
                    let c2 = sp_consume(
                        t,
                        p_c,
                        TokenType::SEMICOLON,
                        "Expect ';' after loop condition."@,
                        e_c,
                    );
                    match c2.r {
                        Err(er) => SRes {
                            r: Err(er),
                            pos: c2.pos,
                            errs: c2.errs,
                            diags: idg,
                        },
                        Ok(_) => {
                            let has_inc = !(c2.pos < t.len() && t[c2.pos].token_type
                                == TokenType::RIGHT_PAREN);
                            let ie = sp_expr(t, c2.pos, c2.errs);
                            let inc: Option<ExprV> = if has_inc {
                                match ie.r {
                                    Ok(x) => Some(x),
                                    Err(_) => None,
                                }
                            } else {
                                None
                            };
                            if has_inc && ie.r is Err {
                                SRes {
                                    r: Err(ie.r->Err_0),
                                    pos: ie.pos,
                                    errs: ie.errs,
                                    diags: idg,
                                }
                            } else {
                                let p_n = if has_inc {
                                    ie.pos
                                } else {
                                    c2.pos
                                };
                                let e_n = if has_inc {
                                    ie.errs
                                } else {
                                    c2.errs
                                };
                                let c3 = sp_consume(
                                    t,
                                    p_n,
                                    TokenType::RIGHT_PAREN,
                                    "Expect ')' after for clauses."@,
                                    e_n,
                                );
                                match c3.r {
                                    Err(er) => SRes {
                                        r: Err(er),
                                        pos: c3.pos,
                                        errs: c3.errs,
                                        diags: idg,
                                    },
                                    Ok(_) => {
                                        let s1 = sp_statement(
                                            t,
                                            step_to(pos, c3.pos, t.len() as int),
                                            c3.errs,
                                        );
                                        match s1.r {
                                            Err(er) => SRes {
                                                r: Err(er),
                                                pos: s1.pos,
                                                errs: s1.errs,
                                                diags: idg + s1.diags,
                                            },
                                            Ok(body0) => {
                                                let body1 = match inc {
                                                    Some(ix) => StmtV::Block {
                                                        stmts: seq![
                                                            body0,
                                                            StmtV::Expression { expr: ix },
                                                        ],
                                                    },
                                                    None => body0,
                                                };
                                                let condition = match cond {
                                                    Some(cx) => cx,
                                                    None => ExprV::Literal {
                                                        token: TokenV {
                                                            token_type: TokenType::TRUE,
                                                            lexeme: "true"@,
                                                            line: t[s1.pos - 1].line,
                                                        },
                                                    },
                                                };
                                                let whole = StmtV::While {
                                                    condition,
                                                    body: Box::new(body1),
                                                };
                                                SRes {
                                                    r: Ok(whole),
                                                    pos: s1.pos,
                                                    errs: s1.errs,
                                                    diags: idg + s1.diags,
                                                }
                                            },
                                        }
                                    },
                                }
                            }
                        },
                    }
                }
            }
        },
    }
}

/// A statement: dispatched on the keyword under the cursor.
#[verifier::opaque]
pub open spec fn sp_statement(t: Seq<TokenV>, pos: int, errs: u32) -> SRes
    decreases t.len() - pos, 140int,
{
    if pos < t.len() && t[pos].token_type == TokenType::PRINT {
        sp_print_statement(t, pos + 1, errs)
    } else if pos < t.len() && t[pos].token_type == TokenType::IF {
        sp_if_statement(t, pos + 1, errs)
    } else if pos < t.len() && t[pos].token_type == TokenType::FOR {
        sp_for_statement(t, pos + 1, errs)
    } else if pos < t.len() && t[pos].token_type == TokenType::WHILE {
        sp_while_statement(t, pos + 1, errs)
    } else if pos < t.len() && t[pos].token_type == TokenType::RETURN {
        sp_return_statement(t, pos + 1, errs)
    } else if pos < t.len() && t[pos].token_type == TokenType::LEFT_BRACE {
        let b = sp_block(t, pos + 1, errs);
        match b.r {
            Err(er) => SRes { r: Err(er), pos: b.pos, errs: b.errs, diags: b.diags },
            Ok(stmts) => SRes {
                r: Ok(StmtV::Block { stmts }),
                pos: b.pos,
                errs: b.errs,
                diags: b.diags,
            },
        }
    } else {
        sp_expression_statement(t, pos, errs)
    }
}

/// A declaration: `var`, `class`, `fn`, or a statement; a failure steps
/// the error counter once more on the way out.
#[verifier::opaque]
pub open spec fn sp_declaration(t: Seq<TokenV>, pos: int, errs: u32) -> SRes
    decreases t.len() - pos, 150int,
{
    let d = if pos < t.len() && t[pos].token_type == TokenType::VAR {
        sp_var_declaration(t, pos + 1, errs)
    } else if pos < t.len() && t[pos].token_type == TokenType::CLASS {
        sp_class_declaration(t, pos + 1, errs)
    } else if pos < t.len() && t[pos].token_type == TokenType::FN {
        sp_function_declaration(t, pos + 1, errs)
    } else {
        sp_statement(t, pos, errs)
    };
    match d.r {
        Ok(_) => d,
        Err(er) => SRes { r: Err(er), pos: d.pos, errs: bump(d.errs), diags: d.diags },
    }
}

/// A whole program: declarations to the end of the stream, every
/// failure counted and recorded.
#[verifier::opaque]
pub open spec fn sp_parse(
    t: Seq<TokenV>,
    acc: Seq<StmtV>,
    dacc: Seq<ParserErrorV>,
    pos: int,
    errs: u32,
) -> PRes
    decreases t.len() - pos, 170int,
{
    if is_end_v(t, pos) {
        PRes { stmts: acc, pos, errs, diags: dacc }
    } else {
        let d = sp_declaration(t, pos, errs);
        match d.r {
            Ok(st) => sp_parse(
                t,
                acc.push(st),
                dacc + d.diags,
                step_to(pos, d.pos, t.len() as int),
                d.errs,
            ),
            Err(er) => sp_parse(
                t,
                acc,
                dacc + d.diags + seq![er],
                step_to(pos, d.pos, t.len() as int),
                bump(d.errs),
            ),
        }
    }
}

/// The parser's working state: the tokens, the cursor, the error
/// counter, and the diagnostics recorded for the caller to render.
pub struct Parser {
    tokens: Vec<Token>,
    current: usize,
    pub error_count: u32,
    pub diagnostics: Vec<ParserError>,
}

impl Parser {
    /// The cursor never leaves the token vector.
    pub closed spec fn wf_p(&self) -> bool {
        self.current <= self.tokens@.len()
    }

    /// The tokens being parsed.
    pub closed spec fn toks_v(&self) -> Seq<TokenV> {
        tokens_dv(self.tokens@)
    }

    /// The cursor.
    pub closed spec fn cur(&self) -> int {
        self.current as int
    }

    /// The error counter.
    pub closed spec fn errs(&self) -> u32 {
        self.error_count
    }

    /// The diagnostics recorded so far.
    pub closed spec fn diags(&self) -> Seq<ParserErrorV> {
        perrs_dv(self.diagnostics@)
    }

    pub fn new(tokens: Vec<Token>) -> (p: Parser)
        ensures
            p.wf_p(),
            p.toks_v() == tokens_dv(tokens@),
            p.cur() == 0,
            p.errs() == 0,
            p.diags() == Seq::<ParserErrorV>::empty(),
    {
        Parser { tokens, current: 0, error_count: 0, diagnostics: Vec::new() }
    }

    /// The token under the cursor, if any.
    fn peek(&self) -> (r: Option<Token>)
        requires
            self.wf_p(),
        ensures
            match r {
                Some(tk) => self.cur() < self.toks_v().len() && tk.deep_view() == self.toks_v()[
                    self.cur()
                ],
                None => self.cur() >= self.toks_v().len(),
            },
    {
        proof {
            lemma_tokens_dv(self.tokens@);
        }
        if self.current < self.tokens.len() {
            Some(self.tokens[self.current].clone())
        } else {
            None
        }
    }

    /// The most recently consumed token, if any.
    fn view_prev(&self) -> (r: Option<Token>)
        requires
            self.wf_p(),
        ensures
            match r {
                Some(tk) => self.cur() >= 1 && tk.deep_view() == self.toks_v()[self.cur() - 1],
                None => self.cur() == 0,
            },
    {
        proof {
            lemma_tokens_dv(self.tokens@);
        }
        if self.current > 0 {
            Some(self.tokens[self.current - 1].clone())
        } else {
            None
        }
    }

    /// Whether the cursor rests at the end of the stream.
    fn is_end(&self) -> (r: bool)
        requires
            self.wf_p(),
        ensures
            r == is_end_v(self.toks_v(), self.cur()),
    {
        proof {
            lemma_tokens_dv(self.tokens@);
        }
        if self.current < self.tokens.len() {
            self.tokens[self.current].token_type == TokenType::EOF
        } else {
            true
        }
    }

    /// Whether the token under the cursor has the expected kind.
    fn check_type(&self, expected_type: TokenType) -> (r: bool)
        requires
            self.wf_p(),
        ensures
            r == (self.cur() < self.toks_v().len() && self.toks_v()[self.cur()].token_type
                == expected_type),
    {
        proof {
            lemma_tokens_dv(self.tokens@);
        }
        if self.current < self.tokens.len() {
            self.tokens[self.current].token_type == expected_type
        } else {
            false
        }
    }

    /// Step over the current token, unless at the end, and hand back
    /// the token just left behind.
    fn advance(&mut self) -> (r: Option<Token>)
        requires
            old(self).wf_p(),
        ensures
            final(self).wf_p(),
            final(self).toks_v() == old(self).toks_v(),
            final(self).errs() == old(self).errs(),
            final(self).diags() == old(self).diags(),
            final(self).cur() == if is_end_v(old(self).toks_v(), old(self).cur()) {
                old(self).cur()
            } else {
                old(self).cur() + 1
            },
            match r {
                Some(tk) => final(self).cur() >= 1 && tk.deep_view() == final(self).toks_v()[
                    final(self).cur() - 1
                ],
                None => final(self).cur() == 0,
            },
    {
        proof {
            lemma_tokens_dv(self.tokens@);
            vstd::std_specs::vec::axiom_spec_len(&self.tokens);
        }
        if !self.is_end() {
            self.current = self.current + 1;
        }
        self.view_prev()
    }

    /// Whether the token under the cursor has the expected kind; when it
    /// does, the cursor steps over it.
    fn match_token(&mut self, token_type: TokenType) -> (r: bool)
        requires
            old(self).wf_p(),
            token_type != TokenType::EOF,
        ensures
            final(self).wf_p(),
            final(self).toks_v() == old(self).toks_v(),
            final(self).errs() == old(self).errs(),
            final(self).diags() == old(self).diags(),
            r == (old(self).cur() < old(self).toks_v().len() && old(self).toks_v()[old(
                self,
            ).cur()].token_type == token_type),
            final(self).cur() == if r {
                old(self).cur() + 1
            } else {
                old(self).cur()
            },
    {
        if self.check_type(token_type) {
            self.advance();
            true
        } else {
            false
        }
    }

    /// Step the error counter, without wrapping.
    fn bump_errors(&mut self)
        ensures
            final(self).wf_p() == old(self).wf_p(),
            final(self).toks_v() == old(self).toks_v(),
            final(self).cur() == old(self).cur(),
            final(self).diags() == old(self).diags(),
            final(self).errs() == bump(old(self).errs()),
    {
        if self.error_count < u32::MAX {
            self.error_count = self.error_count + 1;
        }
    }

    /// Consume the expected token or report `UnexpectedToken` on the
    /// line of the token just consumed.
    fn consume(&mut self, token_type: TokenType, if_error_msg: String) -> (r: Result<
        Token,
        ParserError,
    >)
        requires
            old(self).wf_p(),
            old(self).cur() >= 1,
            token_type != TokenType::EOF,
        ensures
            final(self).wf_p(),
            final(self).toks_v() == old(self).toks_v(),
            final(self).diags() == old(self).diags(),
            ({
                let o = sp_consume(
                    old(self).toks_v(),
                    old(self).cur(),
                    token_type,
                    if_error_msg@,
                    old(self).errs(),
                );
                &&& final(self).cur() == o.pos
                &&& final(self).errs() == o.errs
                &&& match r {
                    Ok(tk) => o.r is Ok && tk.deep_view() == o.r->Ok_0,
                    Err(e) => o.r is Err && e.deep_view() == o.r->Err_0,
                }
            }),
    {
        if self.check_type(token_type) {
            let t = self.advance();
            proof {
                lemma_tokens_dv(self.tokens@);
            }
            match t {
                Some(tk) => Ok(tk),
                None => {
                    proof {
                        assert(false);
                    }
                    Err(ParserError::UnexpectedEndOfFile)
                },
            }
        } else {
            self.bump_errors();
            let prev = self.view_prev();
            let line = match prev {
                Some(tk) => tk.line,
                None => {
                    proof {
                        assert(false);
                    }
                    0
                },
            };
            Err(ParserError::UnexpectedToken { line, message: if_error_msg })
        }
    }
}

/// The larger of the two positions: spec recursion never walks back.
pub open spec fn at_least(pos: int, q: int) -> int {
    if q > pos {
        q
    } else {
        pos
    }
}

/// A strictly advanced position, held inside the stream: where the
/// spec parser continues after a sub-parse that consumed something.
pub open spec fn step_to(pos: int, q: int, len: int) -> int {
    if pos < q && q <= len {
        q
    } else {
        pos + 1
    }
}

/// A position no earlier than `pos`, held inside the stream: where the
/// spec parser continues after a sub-parse.
pub open spec fn hold_at(pos: int, q: int, len: int) -> int {
    if pos <= q && q <= len {
        q
    } else {
        pos
    }
}

/// What parsing a call's argument list yields.
#[verifier::ext_equal]
pub struct ARes {
    pub r: Result<Seq<ExprV>, ParserErrorV>,
    pub pos: int,
    pub errs: u32,
}

/// A primary expression: a literal, a parenthesized group, or a
/// variable reference; anything else is an error that consumes the
/// offending token.
#[verifier::opaque]
pub open spec fn sp_primary(t: Seq<TokenV>, pos: int, errs: u32) -> ERes
    decreases t.len() - pos, 0int,
{
    match peek_v(t, pos) {
        None => ERes { r: Err(ParserErrorV::UnexpectedEndOfFile), pos, errs },
        Some(tk) => {
            if tk.token_type == TokenType::STRING || tk.token_type == TokenType::NUMBER
                || tk.token_type == TokenType::TRUE || tk.token_type == TokenType::FALSE
                || tk.token_type == TokenType::NULL {
                ERes { r: Ok(ExprV::Literal { token: tk }), pos: pos + 1, errs }
            } else if tk.token_type == TokenType::LEFT_PAREN {
                if pos + 1 < t.len() && t[pos + 1].token_type == TokenType::RIGHT_PAREN {
                    ERes {
                        r: Err(
                            ParserErrorV::InvalidExpression {
                                line: tk.line,
                                message: "Expected expression inside parentheses"@,
                            },
                        ),
                        pos: pos + 2,
                        errs: bump(errs),
                    }
                } else {
                    let e = sp_expr(t, pos + 1, errs);
                    let c = sp_consume(
                        t,
                        at_least(pos + 1, e.pos),
                        TokenType::RIGHT_PAREN,
                        "Expected ) after expression"@,
                        e.errs,
                    );
                    if c.r is Err {
                        ERes { r: Err(c.r->Err_0), pos: c.pos, errs: c.errs }
                    } else if e.r is Err {
                        ERes { r: Err(e.r->Err_0), pos: c.pos, errs: c.errs }
                    } else {
                        ERes {
                            r: Ok(ExprV::Grouping { inner: Box::new(e.r->Ok_0) }),
                            pos: c.pos,
                            errs: c.errs,
                        }
                    }
                }
            } else if tk.token_type == TokenType::IDENTIFIER {
                ERes { r: Ok(ExprV::Variable { name: tk }), pos: pos + 1, errs }
            } else {
                let np = if is_end_v(t, pos) {
                    pos
                } else {
                    pos + 1
                };
                ERes {
                    r: Err(ParserErrorV::UnexpectedToken { line: tk.line, message: tk.lexeme }),
                    pos: np,
                    errs: bump(errs),
                }
            }
        },
    }
}

/// A call's comma-separated arguments, capped at 255.
#[verifier::opaque]
pub open spec fn sp_args(t: Seq<TokenV>, args: Seq<ExprV>, pos: int, errs: u32) -> ARes
    recommends
        pos >= 1,
    decreases t.len() - pos, 110int,
{
    if args.len() >= 255 {
        ARes {
            r: Err(
                ParserErrorV::FunctionError { line: t[pos - 1].line, message: "Too many arguments"@ },
            ),
            pos,
            errs: bump(errs),
        }
    } else {
        let e = sp_expr(t, pos, errs);
        match e.r {
            Err(er) => ARes { r: Err(er), pos: e.pos, errs: e.errs },
            Ok(x) => {
                let p2 = hold_at(pos, e.pos, t.len() as int);
                if p2 < t.len() && t[p2].token_type == TokenType::COMMA {
                    sp_args(t, args.push(x), p2 + 1, e.errs)
                } else {
                    ARes { r: Ok(args.push(x)), pos: p2, errs: e.errs }
                }
            },
        }
    }
}

/// The rest of a call once its `(` is consumed: the arguments and the
/// closing parenthesis.
#[verifier::opaque]
pub open spec fn sp_finish_call(t: Seq<TokenV>, callee: ExprV, pos: int, errs: u32) -> ERes
    recommends
        pos >= 1,
    decreases t.len() - pos, 120int,
{
    if pos < t.len() && t[pos].token_type == TokenType::RIGHT_PAREN {
        let c = sp_consume(t, pos, TokenType::RIGHT_PAREN, "Expected ')' after arguments"@, errs);
        ERes {
            r: Ok(
                ExprV::Call {
                    callee: Box::new(callee),
                    paren: c.r->Ok_0,
                    arguments: Seq::empty(),
                },
            ),
            pos: c.pos,
            errs: c.errs,
        }
    } else {
        let a = sp_args(t, Seq::empty(), pos, errs);
        match a.r {
            Err(er) => ERes { r: Err(er), pos: a.pos, errs: a.errs },
            Ok(args) => {
                let c = sp_consume(
                    t,
                    at_least(pos, a.pos),
                    TokenType::RIGHT_PAREN,
                    "Expected ')' after arguments"@,
                    a.errs,
                );
                match c.r {
                    Err(er) => ERes { r: Err(er), pos: c.pos, errs: c.errs },
                    Ok(paren) => ERes {
                        r: Ok(ExprV::Call { callee: Box::new(callee), paren, arguments: args }),
                        pos: c.pos,
                        errs: c.errs,
                    },
                }
            },
        }
    }
}

/// Postfix call chaining: as long as a `(` follows, another call wraps
/// the expression built so far.
#[verifier::opaque]
pub open spec fn sp_call_loop(t: Seq<TokenV>, e: ExprV, pos: int, errs: u32) -> ERes
    decreases t.len() - pos, 5int,
{
    if pos < t.len() && t[pos].token_type == TokenType::LEFT_PAREN {
        let f = sp_finish_call(t, e, pos + 1, errs);
        match f.r {
            Err(er) => ERes { r: Err(er), pos: f.pos, errs: f.errs },
            Ok(x) => sp_call_loop(t, x, step_to(pos, f.pos, t.len() as int), f.errs),
        }
    } else {
        ERes { r: Ok(e), pos, errs }
    }
}

/// A primary expression followed by any chain of calls.
#[verifier::opaque]
pub open spec fn sp_call(t: Seq<TokenV>, pos: int, errs: u32) -> ERes
    decreases t.len() - pos, 10int,
{
    let p = sp_primary(t, pos, errs);
    match p.r {
        Err(er) => ERes { r: Err(er), pos: p.pos, errs: p.errs },
        Ok(x) => sp_call_loop(t, x, hold_at(pos, p.pos, t.len() as int), p.errs),
    }
}

/// A unary expression: `!` and unary `-` nest, then calls.
#[verifier::opaque]
pub open spec fn sp_unary(t: Seq<TokenV>, pos: int, errs: u32) -> ERes
    decreases t.len() - pos, 20int,
{
    if pos < t.len() && (t[pos].token_type == TokenType::BANG || t[pos].token_type
        == TokenType::MINUS) {
        let op = t[pos];
        let r = sp_unary(t, pos + 1, errs);
        match r.r {
            Err(er) => ERes { r: Err(er), pos: r.pos, errs: r.errs },
            Ok(x) => ERes {
                r: Ok(ExprV::Unary { op, operand: Box::new(x) }),
                pos: r.pos,
                errs: r.errs,
            },
        }
    } else {
        sp_call(t, pos, errs)
    }
}

/// One level of the precedence ladder: left-associative chaining.
#[verifier::opaque]
pub open spec fn sp_factor_loop(t: Seq<TokenV>, e: ExprV, pos: int, errs: u32) -> ERes
    decreases t.len() - pos, 25int,
{
    if pos < t.len() && (t[pos].token_type == TokenType::STAR || t[pos].token_type == TokenType::SLASH) {
        let op = t[pos];
        let r = sp_unary(t, pos + 1, errs);
        match r.r {
            Err(er) => ERes { r: Err(er), pos: r.pos, errs: r.errs },
            Ok(x) => sp_factor_loop(
                t,
                ExprV::Binary { op, left: Box::new(e), right: Box::new(x) },
                step_to(pos, r.pos, t.len() as int),
                r.errs,
            ),
        }
    } else {
        ERes { r: Ok(e), pos, errs }
    }
}

/// One level of the precedence ladder.
#[verifier::opaque]
pub open spec fn sp_factor(t: Seq<TokenV>, pos: int, errs: u32) -> ERes
    decreases t.len() - pos, 30int,
{
    let u = sp_unary(t, pos, errs);
    match u.r {
        Err(er) => ERes { r: Err(er), pos: u.pos, errs: u.errs },
        Ok(x) => sp_factor_loop(t, x, hold_at(pos, u.pos, t.len() as int), u.errs),
    }
}

/// One level of the precedence ladder: left-associative chaining.
#[verifier::opaque]
pub open spec fn sp_term_loop(t: Seq<TokenV>, e: ExprV, pos: int, errs: u32) -> ERes
    decreases t.len() - pos, 35int,
{
    if pos < t.len() && (t[pos].token_type == TokenType::PLUS || t[pos].token_type == TokenType::MINUS) {
        let op = t[pos];
        let r = sp_factor(t, pos + 1, errs);
        match r.r {
            Err(er) => ERes { r: Err(er), pos: r.pos, errs: r.errs },
            Ok(x) => sp_term_loop(
                t,
                ExprV::Binary { op, left: Box::new(e), right: Box::new(x) },
                step_to(pos, r.pos, t.len() as int),
                r.errs,
            ),
        }
    } else {
        ERes { r: Ok(e), pos, errs }
    }
}

/// One level of the precedence ladder.
#[verifier::opaque]
pub open spec fn sp_term(t: Seq<TokenV>, pos: int, errs: u32) -> ERes
    decreases t.len() - pos, 40int,
{
    let u = sp_factor(t, pos, errs);
    match u.r {
        Err(er) => ERes { r: Err(er), pos: u.pos, errs: u.errs },
        Ok(x) => sp_term_loop(t, x, hold_at(pos, u.pos, t.len() as int), u.errs),
    }
}

/// One level of the precedence ladder: left-associative chaining.
#[verifier::opaque]
pub open spec fn sp_compare_loop(t: Seq<TokenV>, e: ExprV, pos: int, errs: u32) -> ERes
    decreases t.len() - pos, 45int,
{
    if pos < t.len() && (t[pos].token_type == TokenType::LESS || t[pos].token_type == TokenType::LESS_EQUAL || t[pos].token_type == TokenType::GREATER || t[pos].token_type == TokenType::GREATER_EQUAL) {
        let op = t[pos];
        let r = sp_term(t, pos + 1, errs);
        match r.r {
            Err(er) => ERes { r: Err(er), pos: r.pos, errs: r.errs },
            Ok(x) => sp_compare_loop(
                t,
                ExprV::Binary { op, left: Box::new(e), right: Box::new(x) },
                step_to(pos, r.pos, t.len() as int),
                r.errs,
            ),
        }
    } else {
        ERes { r: Ok(e), pos, errs }
    }
}

/// One level of the precedence ladder.
#[verifier::opaque]
pub open spec fn sp_compare(t: Seq<TokenV>, pos: int, errs: u32) -> ERes
    decreases t.len() - pos, 50int,
{
    let u = sp_term(t, pos, errs);
    match u.r {
        Err(er) => ERes { r: Err(er), pos: u.pos, errs: u.errs },
        Ok(x) => sp_compare_loop(t, x, hold_at(pos, u.pos, t.len() as int), u.errs),
    }
}

/// One level of the precedence ladder: left-associative chaining.
#[verifier::opaque]
pub open spec fn sp_equality_loop(t: Seq<TokenV>, e: ExprV, pos: int, errs: u32) -> ERes
    decreases t.len() - pos, 55int,
{
    if pos < t.len() && (t[pos].token_type == TokenType::BANG_EQUAL || t[pos].token_type == TokenType::EQUAL_EQUAL) {
        let op = t[pos];
        let r = sp_compare(t, pos + 1, errs);
        match r.r {
            Err(er) => ERes { r: Err(er), pos: r.pos, errs: r.errs },
            Ok(x) => sp_equality_loop(
                t,
                ExprV::Binary { op, left: Box::new(e), right: Box::new(x) },
                step_to(pos, r.pos, t.len() as int),
                r.errs,
            ),
        }
    } else {
        ERes { r: Ok(e), pos, errs }
    }
}

/// One level of the precedence ladder.
#[verifier::opaque]
pub open spec fn sp_equality(t: Seq<TokenV>, pos: int, errs: u32) -> ERes
    decreases t.len() - pos, 60int,
{
    let u = sp_compare(t, pos, errs);
    match u.r {
        Err(er) => ERes { r: Err(er), pos: u.pos, errs: u.errs },
        Ok(x) => sp_equality_loop(t, x, hold_at(pos, u.pos, t.len() as int), u.errs),
    }
}

/// One level of the precedence ladder: left-associative chaining.
#[verifier::opaque]
pub open spec fn sp_and_loop(t: Seq<TokenV>, e: ExprV, pos: int, errs: u32) -> ERes
    decreases t.len() - pos, 65int,
{
    if pos < t.len() && (t[pos].token_type == TokenType::AND) {
        let op = t[pos];
        let r = sp_equality(t, pos + 1, errs);
        match r.r {
            Err(er) => ERes { r: Err(er), pos: r.pos, errs: r.errs },
            Ok(x) => sp_and_loop(
                t,
                ExprV::Logical { op, left: Box::new(e), right: Box::new(x) },
                step_to(pos, r.pos, t.len() as int),
                r.errs,
            ),
        }
    } else {
        ERes { r: Ok(e), pos, errs }
    }
}

/// One level of the precedence ladder.
#[verifier::opaque]
pub open spec fn sp_and(t: Seq<TokenV>, pos: int, errs: u32) -> ERes
    decreases t.len() - pos, 70int,
{
    let u = sp_equality(t, pos, errs);
    match u.r {
        Err(er) => ERes { r: Err(er), pos: u.pos, errs: u.errs },
        Ok(x) => sp_and_loop(t, x, hold_at(pos, u.pos, t.len() as int), u.errs),
    }
}

/// One level of the precedence ladder: left-associative chaining.
#[verifier::opaque]
pub open spec fn sp_or_loop(t: Seq<TokenV>, e: ExprV, pos: int, errs: u32) -> ERes
    decreases t.len() - pos, 75int,
{
    if pos < t.len() && (t[pos].token_type == TokenType::OR) {
        let op = t[pos];
        let r = sp_and(t, pos + 1, errs);
        match r.r {
            Err(er) => ERes { r: Err(er), pos: r.pos, errs: r.errs },
            Ok(x) => sp_or_loop(
                t,
                ExprV::Logical { op, left: Box::new(e), right: Box::new(x) },
                step_to(pos, r.pos, t.len() as int),
                r.errs,
            ),
        }
    } else {
        ERes { r: Ok(e), pos, errs }
    }
}

/// One level of the precedence ladder.
#[verifier::opaque]
pub open spec fn sp_or(t: Seq<TokenV>, pos: int, errs: u32) -> ERes
    decreases t.len() - pos, 80int,
{
    let u = sp_and(t, pos, errs);
    match u.r {
        Err(er) => ERes { r: Err(er), pos: u.pos, errs: u.errs },
        Ok(x) => sp_or_loop(t, x, hold_at(pos, u.pos, t.len() as int), u.errs),
    }
}

/// Assignment: right-associative, and only a bare variable reference
/// may stand on the left.
#[verifier::opaque]
pub open spec fn sp_assign(t: Seq<TokenV>, pos: int, errs: u32) -> ERes
    decreases t.len() - pos, 90int,
{
    let e = sp_or(t, pos, errs);
    match e.r {
        Err(er) => ERes { r: Err(er), pos: e.pos, errs: e.errs },
        Ok(x) => {
            let p2 = hold_at(pos, e.pos, t.len() as int);
            if p2 < t.len() && t[p2].token_type == TokenType::EQUAL {
                let eq = t[p2];
                let v = sp_assign(t, p2 + 1, e.errs);
                match v.r {
                    Err(er) => ERes { r: Err(er), pos: v.pos, errs: v.errs },
                    Ok(val) => match x {
                        ExprV::Variable { name } => ERes {
                            r: Ok(ExprV::Assign { name, value: Box::new(val) }),
                            pos: v.pos,
                            errs: v.errs,
                        },
                        _ => ERes {
                            r: Err(
                                ParserErrorV::UnexpectedToken {
                                    line: eq.line,
                                    message: "Expected variable name"@,
                                },
                            ),
                            pos: v.pos,
                            errs: bump(v.errs),
                        },
                    },
                }
            } else {
                ERes { r: Ok(x), pos: p2, errs: e.errs }
            }
        },
    }
}

/// A whole expression: the ladder starts at assignment.
#[verifier::opaque]
pub open spec fn sp_expr(t: Seq<TokenV>, pos: int, errs: u32) -> ERes
    decreases t.len() - pos, 100int,
{
    sp_assign(t, pos, errs)
}


impl Parser {
    /// A primary expression, as `sp_primary` describes it.
    #[verifier::rlimit(100)]
    #[verifier::spinoff_prover]
    fn parse_expr_primary(&mut self) -> (r: Result<Expr, ParserError>)
        requires
            old(self).wf_p(),
        ensures
            final(self).wf_p(),
            final(self).toks_v() == old(self).toks_v(),
            final(self).diags() == old(self).diags(),
            final(self).cur() >= old(self).cur(),
            final(self).cur() <= final(self).toks_v().len(),
            !is_end_v(old(self).toks_v(), old(self).cur()) ==> final(self).cur() > old(
                self,
            ).cur(),
            r is Ok ==> final(self).cur() > old(self).cur(),
            ({
                let o = sp_primary(old(self).toks_v(), old(self).cur(), old(self).errs());
                &&& final(self).cur() == o.pos
                &&& final(self).errs() == o.errs
                &&& match r {
                    Ok(e) => o.r is Ok && e.deep_view() == o.r->Ok_0,
                    Err(e) => o.r is Err && e.deep_view() == o.r->Err_0,
                }
            }),
        decreases self.toks_v().len() - self.cur(), 0int,
    {
        proof {
            reveal(sp_primary);
        }
        proof {
            lemma_tokens_dv(self.tokens@);
        }
        let token = match self.peek() {
            Some(tk) => tk,
            None => {
                return Err(ParserError::UnexpectedEndOfFile);
            },
        };
        match token.token_type {
            TokenType::STRING | TokenType::NUMBER | TokenType::TRUE | TokenType::FALSE
                | TokenType::NULL => {
                self.advance();
                Ok(Expr::Literal { token })
            },
            TokenType::LEFT_PAREN => {
                self.advance();
                if self.check_type(TokenType::RIGHT_PAREN) {
                    self.advance();
                    self.bump_errors();
                    Err(
                        ParserError::InvalidExpression {
                            line: token.line,
                            message: "Expected expression inside parentheses".to_owned(),
                        },
                    )
                } else {
                    let expr = self.parse_expr();
                    let c = self.consume(
                        TokenType::RIGHT_PAREN,
                        "Expected ) after expression".to_owned(),
                    );
                    match c {
                        Ok(_) => {},
                        Err(e) => {
                            return Err(e);
                        },
                    }
                    match expr {
                        Ok(inner) => Ok(Expr::Grouping { inner: Box::new(inner) }),
                        Err(e) => Err(e),
                    }
                }
            },
            TokenType::IDENTIFIER => {
                self.advance();
                Ok(Expr::Variable { name: token })
            },
            _ => {
                self.bump_errors();
                self.advance();
                Err(ParserError::UnexpectedToken { line: token.line, message: token.lexeme })
            },
        }
    }

    /// A whole expression, as `sp_expr` describes it.
    #[verifier::rlimit(100)]
    #[verifier::spinoff_prover]
    pub fn parse_expr(&mut self) -> (r: Result<Expr, ParserError>)
        requires
            old(self).wf_p(),
        ensures
            final(self).wf_p(),
            final(self).toks_v() == old(self).toks_v(),
            final(self).diags() == old(self).diags(),
            final(self).cur() >= old(self).cur(),
            final(self).cur() <= final(self).toks_v().len(),
            !is_end_v(old(self).toks_v(), old(self).cur()) ==> final(self).cur() > old(
                self,
            ).cur(),
            r is Ok ==> final(self).cur() > old(self).cur(),
            ({
                let o = sp_expr(old(self).toks_v(), old(self).cur(), old(self).errs());
                &&& final(self).cur() == o.pos
                &&& final(self).errs() == o.errs
                &&& match r {
                    Ok(e) => o.r is Ok && e.deep_view() == o.r->Ok_0,
                    Err(e) => o.r is Err && e.deep_view() == o.r->Err_0,
                }
            }),
        decreases self.toks_v().len() - self.cur(), 100int,
    {
        proof {
            reveal(sp_expr);
        }
        self.parse_assign()
    }

    /// Assignment, as `sp_assign` describes it.
    #[verifier::rlimit(100)]
    #[verifier::spinoff_prover]
    fn parse_assign(&mut self) -> (r: Result<Expr, ParserError>)
        requires
            old(self).wf_p(),
        ensures
            final(self).wf_p(),
            final(self).toks_v() == old(self).toks_v(),
            final(self).diags() == old(self).diags(),
            final(self).cur() >= old(self).cur(),
            final(self).cur() <= final(self).toks_v().len(),
            !is_end_v(old(self).toks_v(), old(self).cur()) ==> final(self).cur() > old(
                self,
            ).cur(),
            r is Ok ==> final(self).cur() > old(self).cur(),
            ({
                let o = sp_assign(old(self).toks_v(), old(self).cur(), old(self).errs());
                &&& final(self).cur() == o.pos
                &&& final(self).errs() == o.errs
                &&& match r {
                    Ok(e) => o.r is Ok && e.deep_view() == o.r->Ok_0,
                    Err(e) => o.r is Err && e.deep_view() == o.r->Err_0,
                }
            }),
        decreases self.toks_v().len() - self.cur(), 90int,
    {
        proof {
            reveal(sp_assign);
        }
        let expr = match self.parse_or() {
            Ok(e) => e,
            Err(e) => {
                return Err(e);
            },
        };
        if self.check_type(TokenType::EQUAL) {
            let eq = match self.advance() {
                Some(tk) => tk,
                None => {
                    proof {
                        assert(false);
                    }
                    return Err(ParserError::UnexpectedEndOfFile);
                },
            };
            let value = match self.parse_assign() {
                Ok(v) => v,
                Err(e) => {
                    return Err(e);
                },
            };
            match expr {
                Expr::Variable { name } => Ok(Expr::Assign { name, value: Box::new(value) }),
                _ => {
                    self.bump_errors();
                    Err(
                        ParserError::UnexpectedToken {
                            line: eq.line,
                            message: "Expected variable name".to_owned(),
                        },
                    )
                },
            }
        } else {
            Ok(expr)
        }
    }

    /// One level of the precedence ladder, as `sp_factor` describes it.
    #[verifier::rlimit(100)]
    #[verifier::spinoff_prover]
    fn parse_factor(&mut self) -> (r: Result<Expr, ParserError>)
        requires
            old(self).wf_p(),
        ensures
            final(self).wf_p(),
            final(self).toks_v() == old(self).toks_v(),
            final(self).diags() == old(self).diags(),
            final(self).cur() >= old(self).cur(),
            final(self).cur() <= final(self).toks_v().len(),
            !is_end_v(old(self).toks_v(), old(self).cur()) ==> final(self).cur() > old(
                self,
            ).cur(),
            r is Ok ==> final(self).cur() > old(self).cur(),
            ({
                let o = sp_factor(old(self).toks_v(), old(self).cur(), old(self).errs());
                &&& final(self).cur() == o.pos
                &&& final(self).errs() == o.errs
                &&& match r {
                    Ok(e) => o.r is Ok && e.deep_view() == o.r->Ok_0,
                    Err(e) => o.r is Err && e.deep_view() == o.r->Err_0,
                }
            }),
        decreases self.toks_v().len() - self.cur(), 30int,
    {
        proof {
            lemma_tokens_dv(self.tokens@);
            reveal(sp_factor);
            reveal(sp_factor_loop);
        }
        let ghost t = self.toks_v();
        let ghost p0 = self.cur();
        let ghost e0 = self.errs();
        let mut expr = match self.parse_unary() {
            Ok(e) => e,
            Err(e) => {
                return Err(e);
            },
        };
        while self.check_type(TokenType::STAR) || self.check_type(TokenType::SLASH)
            invariant
                self.wf_p(),
                self.toks_v() == t,
                self.diags() == old(self).diags(),
                self.cur() > p0,
                self.cur() <= t.len(),
                t == old(self).toks_v(),
                p0 == old(self).cur(),
                e0 == old(self).errs(),
                !is_end_v(t, p0) ==> self.cur() > p0,
                sp_factor_loop(t, expr.deep_view(), self.cur(), self.errs()) == sp_factor(
                    t,
                    p0,
                    e0,
                ),
            decreases t.len() - self.cur(),
        {
            proof {
                reveal(sp_factor);
                reveal(sp_factor_loop);
            }
            let op = match self.advance() {
                Some(tk) => tk,
                None => {
                    proof {
                        assert(false);
                    }
                    return Err(ParserError::UnexpectedEndOfFile);
                },
            };
            let right = match self.parse_unary() {
                Ok(e) => e,
                Err(e) => {
                    return Err(e);
                },
            };
            expr = Expr::Binary { op, left: Box::new(expr), right: Box::new(right) };
        }
        proof {
            reveal(sp_factor);
            reveal(sp_factor_loop);
        }
        Ok(expr)
    }

    /// One level of the precedence ladder, as `sp_term` describes it.
    #[verifier::rlimit(100)]
    #[verifier::spinoff_prover]
    fn parse_term(&mut self) -> (r: Result<Expr, ParserError>)
        requires
            old(self).wf_p(),
        ensures
            final(self).wf_p(),
            final(self).toks_v() == old(self).toks_v(),
            final(self).diags() == old(self).diags(),
            final(self).cur() >= old(self).cur(),
            final(self).cur() <= final(self).toks_v().len(),
            !is_end_v(old(self).toks_v(), old(self).cur()) ==> final(self).cur() > old(
                self,
            ).cur(),
            r is Ok ==> final(self).cur() > old(self).cur(),
            ({
                let o = sp_term(old(self).toks_v(), old(self).cur(), old(self).errs());
                &&& final(self).cur() == o.pos
                &&& final(self).errs() == o.errs
                &&& match r {
                    Ok(e) => o.r is Ok && e.deep_view() == o.r->Ok_0,
                    Err(e) => o.r is Err && e.deep_view() == o.r->Err_0,
                }
            }),
        decreases self.toks_v().len() - self.cur(), 40int,
    {
        proof {
            lemma_tokens_dv(self.tokens@);
            reveal(sp_term);
            reveal(sp_term_loop);
        }
        let ghost t = self.toks_v();
        let ghost p0 = self.cur();
        let ghost e0 = self.errs();
        let mut expr = match self.parse_factor() {
            Ok(e) => e,
            Err(e) => {
                return Err(e);
            },
        };
        while self.check_type(TokenType::PLUS) || self.check_type(TokenType::MINUS)
            invariant
                self.wf_p(),
                self.toks_v() == t,
                self.diags() == old(self).diags(),
                self.cur() > p0,
                self.cur() <= t.len(),
                t == old(self).toks_v(),
                p0 == old(self).cur(),
                e0 == old(self).errs(),
                !is_end_v(t, p0) ==> self.cur() > p0,
                sp_term_loop(t, expr.deep_view(), self.cur(), self.errs()) == sp_term(
                    t,
                    p0,
                    e0,
                ),
            decreases t.len() - self.cur(),
        {
            proof {
                reveal(sp_term);
                reveal(sp_term_loop);
            }
            let op = match self.advance() {
                Some(tk) => tk,
                None => {
                    proof {
                        assert(false);
                    }
                    return Err(ParserError::UnexpectedEndOfFile);
                },
            };
            let right = match self.parse_factor() {
                Ok(e) => e,
                Err(e) => {
                    return Err(e);
                },
            };
            expr = Expr::Binary { op, left: Box::new(expr), right: Box::new(right) };
        }
        proof {
            reveal(sp_term);
            reveal(sp_term_loop);
        }
        Ok(expr)
    }

    /// One level of the precedence ladder, as `sp_compare` describes it.
    #[verifier::rlimit(100)]
    #[verifier::spinoff_prover]
    fn parse_compare(&mut self) -> (r: Result<Expr, ParserError>)
        requires
            old(self).wf_p(),
        ensures
            final(self).wf_p(),
            final(self).toks_v() == old(self).toks_v(),
            final(self).diags() == old(self).diags(),
            final(self).cur() >= old(self).cur(),
            final(self).cur() <= final(self).toks_v().len(),
            !is_end_v(old(self).toks_v(), old(self).cur()) ==> final(self).cur() > old(
                self,
            ).cur(),
            r is Ok ==> final(self).cur() > old(self).cur(),
            ({
                let o = sp_compare(old(self).toks_v(), old(self).cur(), old(self).errs());
                &&& final(self).cur() == o.pos
                &&& final(self).errs() == o.errs
                &&& match r {
                    Ok(e) => o.r is Ok && e.deep_view() == o.r->Ok_0,
                    Err(e) => o.r is Err && e.deep_view() == o.r->Err_0,
                }
            }),
        decreases self.toks_v().len() - self.cur(), 50int,
    {
        proof {
            lemma_tokens_dv(self.tokens@);
            reveal(sp_compare);
            reveal(sp_compare_loop);
        }
        let ghost t = self.toks_v();
        let ghost p0 = self.cur();
        let ghost e0 = self.errs();
        let mut expr = match self.parse_term() {
            Ok(e) => e,
            Err(e) => {
                return Err(e);
            },
        };
        while self.check_type(TokenType::LESS) || self.check_type(TokenType::LESS_EQUAL) || self.check_type(TokenType::GREATER) || self.check_type(TokenType::GREATER_EQUAL)
            invariant
                self.wf_p(),
                self.toks_v() == t,
                self.diags() == old(self).diags(),
                self.cur() > p0,
                self.cur() <= t.len(),
                t == old(self).toks_v(),
                p0 == old(self).cur(),
                e0 == old(self).errs(),
                !is_end_v(t, p0) ==> self.cur() > p0,
                sp_compare_loop(t, expr.deep_view(), self.cur(), self.errs()) == sp_compare(
                    t,
                    p0,
                    e0,
                ),
            decreases t.len() - self.cur(),
        {
            proof {
                reveal(sp_compare);
                reveal(sp_compare_loop);
            }
            let op = match self.advance() {
                Some(tk) => tk,
                None => {
                    proof {
                        assert(false);
                    }
                    return Err(ParserError::UnexpectedEndOfFile);
                },
            };
            let right = match self.parse_term() {
                Ok(e) => e,
                Err(e) => {
                    return Err(e);
                },
            };
            expr = Expr::Binary { op, left: Box::new(expr), right: Box::new(right) };
        }
        proof {
            reveal(sp_compare);
            reveal(sp_compare_loop);
        }
        Ok(expr)
    }

    /// One level of the precedence ladder, as `sp_equality` describes it.
    #[verifier::rlimit(100)]
    #[verifier::spinoff_prover]
    fn parse_equality(&mut self) -> (r: Result<Expr, ParserError>)
        requires
            old(self).wf_p(),
        ensures
            final(self).wf_p(),
            final(self).toks_v() == old(self).toks_v(),
            final(self).diags() == old(self).diags(),
            final(self).cur() >= old(self).cur(),
            final(self).cur() <= final(self).toks_v().len(),
            !is_end_v(old(self).toks_v(), old(self).cur()) ==> final(self).cur() > old(
                self,
            ).cur(),
            r is Ok ==> final(self).cur() > old(self).cur(),
            ({
                let o = sp_equality(old(self).toks_v(), old(self).cur(), old(self).errs());
                &&& final(self).cur() == o.pos
                &&& final(self).errs() == o.errs
                &&& match r {
                    Ok(e) => o.r is Ok && e.deep_view() == o.r->Ok_0,
                    Err(e) => o.r is Err && e.deep_view() == o.r->Err_0,
                }
            }),
        decreases self.toks_v().len() - self.cur(), 60int,
    {
        proof {
            lemma_tokens_dv(self.tokens@);
            reveal(sp_equality);
            reveal(sp_equality_loop);
        }
        let ghost t = self.toks_v();
        let ghost p0 = self.cur();
        let ghost e0 = self.errs();
        let mut expr = match self.parse_compare() {
            Ok(e) => e,
            Err(e) => {
                return Err(e);
            },
        };
        while self.check_type(TokenType::BANG_EQUAL) || self.check_type(TokenType::EQUAL_EQUAL)
            invariant
                self.wf_p(),
                self.toks_v() == t,
                self.diags() == old(self).diags(),
                self.cur() > p0,
                self.cur() <= t.len(),
                t == old(self).toks_v(),
                p0 == old(self).cur(),
                e0 == old(self).errs(),
                !is_end_v(t, p0) ==> self.cur() > p0,
                sp_equality_loop(t, expr.deep_view(), self.cur(), self.errs()) == sp_equality(
                    t,
                    p0,
                    e0,
                ),
            decreases t.len() - self.cur(),
        {
            proof {
                reveal(sp_equality);
                reveal(sp_equality_loop);
            }
            let op = match self.advance() {
                Some(tk) => tk,
                None => {
                    proof {
                        assert(false);
                    }
                    return Err(ParserError::UnexpectedEndOfFile);
                },
            };
            let right = match self.parse_compare() {
                Ok(e) => e,
                Err(e) => {
                    return Err(e);
                },
            };
            expr = Expr::Binary { op, left: Box::new(expr), right: Box::new(right) };
        }
        proof {
            reveal(sp_equality);
            reveal(sp_equality_loop);
        }
        Ok(expr)
    }

    /// One level of the precedence ladder, as `sp_and` describes it.
    #[verifier::rlimit(100)]
    #[verifier::spinoff_prover]
    fn parse_and(&mut self) -> (r: Result<Expr, ParserError>)
        requires
            old(self).wf_p(),
        ensures
            final(self).wf_p(),
            final(self).toks_v() == old(self).toks_v(),
            final(self).diags() == old(self).diags(),
            final(self).cur() >= old(self).cur(),
            final(self).cur() <= final(self).toks_v().len(),
            !is_end_v(old(self).toks_v(), old(self).cur()) ==> final(self).cur() > old(
                self,
            ).cur(),
            r is Ok ==> final(self).cur() > old(self).cur(),
            ({
                let o = sp_and(old(self).toks_v(), old(self).cur(), old(self).errs());
                &&& final(self).cur() == o.pos
                &&& final(self).errs() == o.errs
                &&& match r {
                    Ok(e) => o.r is Ok && e.deep_view() == o.r->Ok_0,
                    Err(e) => o.r is Err && e.deep_view() == o.r->Err_0,
                }
            }),
        decreases self.toks_v().len() - self.cur(), 70int,
    {
        proof {
            lemma_tokens_dv(self.tokens@);
            reveal(sp_and);
            reveal(sp_and_loop);
        }
        let ghost t = self.toks_v();
        let ghost p0 = self.cur();
        let ghost e0 = self.errs();
        let mut expr = match self.parse_equality() {
            Ok(e) => e,
            Err(e) => {
                return Err(e);
            },
        };
        while self.check_type(TokenType::AND)
            invariant
                self.wf_p(),
                self.toks_v() == t,
                self.diags() == old(self).diags(),
                self.cur() > p0,
                self.cur() <= t.len(),
                t == old(self).toks_v(),
                p0 == old(self).cur(),
                e0 == old(self).errs(),
                !is_end_v(t, p0) ==> self.cur() > p0,
                sp_and_loop(t, expr.deep_view(), self.cur(), self.errs()) == sp_and(
                    t,
                    p0,
                    e0,
                ),
            decreases t.len() - self.cur(),
        {
            proof {
                reveal(sp_and);
                reveal(sp_and_loop);
            }
            let op = match self.advance() {
                Some(tk) => tk,
                None => {
                    proof {
                        assert(false);
                    }
                    return Err(ParserError::UnexpectedEndOfFile);
                },
            };
            let right = match self.parse_equality() {
                Ok(e) => e,
                Err(e) => {
                    return Err(e);
                },
            };
            expr = Expr::Logical { op, left: Box::new(expr), right: Box::new(right) };
        }
        proof {
            reveal(sp_and);
            reveal(sp_and_loop);
        }
        Ok(expr)
    }

    /// One level of the precedence ladder, as `sp_or` describes it.
    #[verifier::rlimit(100)]
    #[verifier::spinoff_prover]
    fn parse_or(&mut self) -> (r: Result<Expr, ParserError>)
        requires
            old(self).wf_p(),
        ensures
            final(self).wf_p(),
            final(self).toks_v() == old(self).toks_v(),
            final(self).diags() == old(self).diags(),
            final(self).cur() >= old(self).cur(),
            final(self).cur() <= final(self).toks_v().len(),
            !is_end_v(old(self).toks_v(), old(self).cur()) ==> final(self).cur() > old(
                self,
            ).cur(),
            r is Ok ==> final(self).cur() > old(self).cur(),
            ({
                let o = sp_or(old(self).toks_v(), old(self).cur(), old(self).errs());
                &&& final(self).cur() == o.pos
                &&& final(self).errs() == o.errs
                &&& match r {
                    Ok(e) => o.r is Ok && e.deep_view() == o.r->Ok_0,
                    Err(e) => o.r is Err && e.deep_view() == o.r->Err_0,
                }
            }),
        decreases self.toks_v().len() - self.cur(), 80int,
    {
        proof {
            lemma_tokens_dv(self.tokens@);
            reveal(sp_or);
            reveal(sp_or_loop);
        }
        let ghost t = self.toks_v();
        let ghost p0 = self.cur();
        let ghost e0 = self.errs();
        let mut expr = match self.parse_and() {
            Ok(e) => e,
            Err(e) => {
                return Err(e);
            },
        };
        while self.check_type(TokenType::OR)
            invariant
                self.wf_p(),
                self.toks_v() == t,
                self.diags() == old(self).diags(),
                self.cur() > p0,
                self.cur() <= t.len(),
                t == old(self).toks_v(),
                p0 == old(self).cur(),
                e0 == old(self).errs(),
                !is_end_v(t, p0) ==> self.cur() > p0,
                sp_or_loop(t, expr.deep_view(), self.cur(), self.errs()) == sp_or(
                    t,
                    p0,
                    e0,
                ),
            decreases t.len() - self.cur(),
        {
            proof {
                reveal(sp_or);
                reveal(sp_or_loop);
            }
            let op = match self.advance() {
                Some(tk) => tk,
                None => {
                    proof {
                        assert(false);
                    }
                    return Err(ParserError::UnexpectedEndOfFile);
                },
            };
            let right = match self.parse_and() {
                Ok(e) => e,
                Err(e) => {
                    return Err(e);
                },
            };
            expr = Expr::Logical { op, left: Box::new(expr), right: Box::new(right) };
        }
        proof {
            reveal(sp_or);
            reveal(sp_or_loop);
        }
        Ok(expr)
    }

    /// A unary expression, as `sp_unary` describes it.
    #[verifier::rlimit(100)]
    #[verifier::spinoff_prover]
    fn parse_unary(&mut self) -> (r: Result<Expr, ParserError>)
        requires
            old(self).wf_p(),
        ensures
            final(self).wf_p(),
            final(self).toks_v() == old(self).toks_v(),
            final(self).diags() == old(self).diags(),
            final(self).cur() >= old(self).cur(),
            final(self).cur() <= final(self).toks_v().len(),
            !is_end_v(old(self).toks_v(), old(self).cur()) ==> final(self).cur() > old(
                self,
            ).cur(),
            r is Ok ==> final(self).cur() > old(self).cur(),
            ({
                let o = sp_unary(old(self).toks_v(), old(self).cur(), old(self).errs());
                &&& final(self).cur() == o.pos
                &&& final(self).errs() == o.errs
                &&& match r {
                    Ok(e) => o.r is Ok && e.deep_view() == o.r->Ok_0,
                    Err(e) => o.r is Err && e.deep_view() == o.r->Err_0,
                }
            }),
        decreases self.toks_v().len() - self.cur(), 20int,
    {
        proof {
            reveal(sp_unary);
        }
        if self.check_type(TokenType::BANG) || self.check_type(TokenType::MINUS) {
            let op = match self.advance() {
                Some(tk) => tk,
                None => {
                    proof {
                        assert(false);
                    }
                    return Err(ParserError::UnexpectedEndOfFile);
                },
            };
            let right = match self.parse_unary() {
                Ok(e) => e,
                Err(e) => {
                    return Err(e);
                },
            };
            Ok(Expr::Unary { op, operand: Box::new(right) })
        } else {
            self.parse_call()
        }
    }

    /// A primary expression with postfix call chaining, as `sp_call`
    /// describes it.
    #[verifier::rlimit(100)]
    #[verifier::spinoff_prover]
    fn parse_call(&mut self) -> (r: Result<Expr, ParserError>)
        requires
            old(self).wf_p(),
        ensures
            final(self).wf_p(),
            final(self).toks_v() == old(self).toks_v(),
            final(self).diags() == old(self).diags(),
            final(self).cur() >= old(self).cur(),
            final(self).cur() <= final(self).toks_v().len(),
            !is_end_v(old(self).toks_v(), old(self).cur()) ==> final(self).cur() > old(
                self,
            ).cur(),
            r is Ok ==> final(self).cur() > old(self).cur(),
            ({
                let o = sp_call(old(self).toks_v(), old(self).cur(), old(self).errs());
                &&& final(self).cur() == o.pos
                &&& final(self).errs() == o.errs
                &&& match r {
                    Ok(e) => o.r is Ok && e.deep_view() == o.r->Ok_0,
                    Err(e) => o.r is Err && e.deep_view() == o.r->Err_0,
                }
            }),
        decreases self.toks_v().len() - self.cur(), 10int,
    {
        proof {
            lemma_tokens_dv(self.tokens@);
            reveal(sp_call);
            reveal(sp_call_loop);
        }
        let ghost t = self.toks_v();
        let ghost p0 = self.cur();
        let ghost e0 = self.errs();
        let mut expr = match self.parse_expr_primary() {
            Ok(e) => e,
            Err(e) => {
                return Err(e);
            },
        };
        while self.check_type(TokenType::LEFT_PAREN)
            invariant
                self.wf_p(),
                self.toks_v() == t,
                self.diags() == old(self).diags(),
                self.cur() > p0,
                self.cur() <= t.len(),
                p0 == old(self).cur(),
                t == old(self).toks_v(),
                !is_end_v(t, p0) ==> self.cur() > p0,
                sp_call_loop(t, expr.deep_view(), self.cur(), self.errs()) == sp_call(t, p0, e0),
                e0 == old(self).errs(),
            decreases t.len() - self.cur(),
        {
            proof {
                reveal(sp_call);
                reveal(sp_call_loop);
            }
            self.advance();
            expr = match self.finish_call(expr) {
                Ok(e) => e,
                Err(e) => {
                    return Err(e);
                },
            };
        }
        proof {
            reveal(sp_call);
            reveal(sp_call_loop);
        }
        Ok(expr)
    }

    /// The rest of a call after its `(`, as `sp_finish_call` describes
    /// it.
    #[verifier::rlimit(100)]
    #[verifier::spinoff_prover]
    fn finish_call(&mut self, expr: Expr) -> (r: Result<Expr, ParserError>)
        requires
            old(self).wf_p(),
            old(self).cur() >= 1,
        ensures
            final(self).wf_p(),
            final(self).toks_v() == old(self).toks_v(),
            final(self).diags() == old(self).diags(),
            final(self).cur() >= old(self).cur(),
            final(self).cur() <= final(self).toks_v().len(),
            ({
                let o = sp_finish_call(
                    old(self).toks_v(),
                    expr.deep_view(),
                    old(self).cur(),
                    old(self).errs(),
                );
                &&& final(self).cur() == o.pos
                &&& final(self).errs() == o.errs
                &&& match r {
                    Ok(e) => o.r is Ok && e.deep_view() == o.r->Ok_0,
                    Err(e) => o.r is Err && e.deep_view() == o.r->Err_0,
                }
            }),
        decreases self.toks_v().len() - self.cur(), 120int,
    {
        proof {
            lemma_tokens_dv(self.tokens@);
            reveal(sp_finish_call);
            reveal(sp_args);
        }
        let ghost t = self.toks_v();
        let ghost p0 = self.cur();
        let ghost e0 = self.errs();
        let ghost xv = expr.deep_view();
        if self.check_type(TokenType::RIGHT_PAREN) {
            let paren = match self.consume(
                TokenType::RIGHT_PAREN,
                "Expected ')' after arguments".to_owned(),
            ) {
                Ok(tk) => tk,
                Err(_) => {
                    proof {
                        assert(false);
                    }
                    return Err(ParserError::UnexpectedEndOfFile);
                },
            };
            let arguments: Vec<Expr> = Vec::new();
            proof {
                assert(exprs_dv(arguments@) =~= Seq::<ExprV>::empty());
            }
            return Ok(Expr::Call { callee: Box::new(expr), paren, arguments });
        }
        let mut arguments: Vec<Expr> = Vec::new();
        let mut go = true;
        proof {
            assert(exprs_dv(arguments@) =~= Seq::<ExprV>::empty());
        }
        while go
            invariant
                self.wf_p(),
                self.toks_v() == t,
                self.diags() == old(self).diags(),
                self.cur() >= p0,
                self.cur() >= 1,
                self.cur() <= t.len(),
                t == old(self).toks_v(),
                p0 == old(self).cur(),
                e0 == old(self).errs(),
                !(p0 < t.len() && t[p0].token_type == TokenType::RIGHT_PAREN),
                go ==> sp_args(t, exprs_dv(arguments@), self.cur(), self.errs()) == sp_args(
                    t,
                    Seq::<ExprV>::empty(),
                    p0,
                    e0,
                ),
                !go ==> sp_args(t, Seq::<ExprV>::empty(), p0, e0) == (ARes {
                    r: Ok(exprs_dv(arguments@)),
                    pos: self.cur(),
                    errs: self.errs(),
                }),
            decreases t.len() - self.cur(), (if go { 1int } else { 0int }),
        {
            proof {
                reveal(sp_finish_call);
                reveal(sp_args);
                lemma_exprs_dv(arguments@);
            }
            if arguments.len() >= 255 {
                self.bump_errors();
                let prev = self.view_prev();
                let line = match prev {
                    Some(tk) => tk.line,
                    None => {
                        proof {
                            assert(false);
                        }
                        0
                    },
                };
                return Err(
                    ParserError::FunctionError { line, message: "Too many arguments".to_owned() },
                );
            }
            let ghost args0 = exprs_dv(arguments@);
            let a = match self.parse_expr() {
                Ok(e) => e,
                Err(e) => {
                    return Err(e);
                },
            };
            proof {
                lemma_exprs_dv_push(arguments@, a);
                lemma_exprs_dv(arguments@);
            }
            arguments.push(a);
            proof {
                lemma_exprs_dv(arguments@);
            }
            if !self.match_token(TokenType::COMMA) {
                go = false;
            }
        }
        proof {
            reveal(sp_finish_call);
            reveal(sp_args);
        }
        let c = match self.consume(
            TokenType::RIGHT_PAREN,
            "Expected ')' after arguments".to_owned(),
        ) {
            Ok(tk) => tk,
            Err(e) => {
                return Err(e);
            },
        };
        Ok(Expr::Call { callee: Box::new(expr), paren: c, arguments })
    }
}


impl Parser {
    /// An expression statement, as `sp_expression_statement` describes
    /// it.
    #[verifier::rlimit(100)]
    #[verifier::spinoff_prover]
    fn expression_statement(&mut self) -> (r: Result<Stmt, ParserError>)
        requires
            old(self).wf_p(),
        ensures
            final(self).wf_p(),
            final(self).toks_v() == old(self).toks_v(),
            final(self).cur() >= old(self).cur(),
            final(self).cur() <= final(self).toks_v().len(),
            !is_end_v(old(self).toks_v(), old(self).cur()) ==> final(self).cur() > old(
                self,
            ).cur(),
            r is Ok ==> final(self).cur() > old(self).cur(),
            ({
                let o = sp_expression_statement(
                    old(self).toks_v(),
                    old(self).cur(),
                    old(self).errs(),
                );
                &&& final(self).cur() == o.pos
                &&& final(self).errs() == o.errs
                &&& final(self).diags() == old(self).diags() + o.diags
                &&& match r {
                    Ok(st) => o.r is Ok && st.deep_view() == o.r->Ok_0,
                    Err(e) => o.r is Err && e.deep_view() == o.r->Err_0,
                }
            }),
        decreases self.toks_v().len() - self.cur(), 130int,
    {
        proof {
            lemma_tokens_dv(self.tokens@);
            reveal(sp_expression_statement);
            assert(old(self).diags() + Seq::<ParserErrorV>::empty() =~= old(self).diags());
        }
        let expr = match self.parse_expr() {
            Ok(e) => e,
            Err(e) => {
                return Err(e);
            },
        };
        match self.consume(TokenType::SEMICOLON, "Expect ';' after expression.".to_owned()) {
            Ok(_) => Ok(Stmt::Expression { expr }),
            Err(e) => Err(e),
        }
    }

    /// A `print` statement, as `sp_print_statement` describes it.
    #[verifier::rlimit(100)]
    #[verifier::spinoff_prover]
    fn print_statement(&mut self) -> (r: Result<Stmt, ParserError>)
        requires
            old(self).wf_p(),
            old(self).cur() >= 1,
        ensures
            final(self).wf_p(),
            final(self).toks_v() == old(self).toks_v(),
            final(self).cur() >= old(self).cur(),
            final(self).cur() <= final(self).toks_v().len(),
            ({
                let o = sp_print_statement(old(self).toks_v(), old(self).cur(), old(self).errs());
                &&& final(self).cur() == o.pos
                &&& final(self).errs() == o.errs
                &&& final(self).diags() == old(self).diags() + o.diags
                &&& match r {
                    Ok(st) => o.r is Ok && st.deep_view() == o.r->Ok_0,
                    Err(e) => o.r is Err && e.deep_view() == o.r->Err_0,
                }
            }),
        decreases self.toks_v().len() - self.cur(), 130int,
    {
        proof {
            lemma_tokens_dv(self.tokens@);
            reveal(sp_print_statement);
            assert(old(self).diags() + Seq::<ParserErrorV>::empty() =~= old(self).diags());
        }
        match self.consume(TokenType::LEFT_PAREN, "Expect '(' after 'print'.".to_owned()) {
            Ok(_) => {},
            Err(e) => {
                return Err(e);
            },
        }
        let expr = match self.parse_expr() {
            Ok(e) => e,
            Err(e) => {
                return Err(e);
            },
        };
        match self.consume(TokenType::RIGHT_PAREN, "Expect ')' after value.".to_owned()) {
            Ok(_) => {},
            Err(e) => {
                return Err(e);
            },
        }
        match self.consume(TokenType::SEMICOLON, "Expect ';' after value.".to_owned()) {
            Ok(_) => {},
            Err(e) => {
                return Err(e);
            },
        }
        Ok(Stmt::Print { expr })
    }

    /// An `if` statement, as `sp_if_statement` describes it.
    #[verifier::rlimit(100)]
    #[verifier::spinoff_prover]
    fn if_statement(&mut self) -> (r: Result<Stmt, ParserError>)
        requires
            old(self).wf_p(),
            old(self).cur() >= 1,
        ensures
            final(self).wf_p(),
            final(self).toks_v() == old(self).toks_v(),
            final(self).cur() >= old(self).cur(),
            final(self).cur() <= final(self).toks_v().len(),
            ({
                let o = sp_if_statement(old(self).toks_v(), old(self).cur(), old(self).errs());
                &&& final(self).cur() == o.pos
                &&& final(self).errs() == o.errs
                &&& final(self).diags() == old(self).diags() + o.diags
                &&& match r {
                    Ok(st) => o.r is Ok && st.deep_view() == o.r->Ok_0,
                    Err(e) => o.r is Err && e.deep_view() == o.r->Err_0,
                }
            }),
        decreases self.toks_v().len() - self.cur(), 130int,
    {
        let ghost t = self.toks_v();
        let ghost d0 = self.diags();
        proof {
            lemma_tokens_dv(self.tokens@);
            reveal(sp_if_statement);
            assert(d0 + Seq::<ParserErrorV>::empty() =~= d0);
        }
        match self.consume(TokenType::LEFT_PAREN, "Expect '(' after 'if'.".to_owned()) {
            Ok(_) => {},
            Err(e) => {
                return Err(e);
            },
        }
        let condition = match self.parse_expr() {
            Ok(e) => e,
            Err(e) => {
                return Err(e);
            },
        };
        match self.consume(TokenType::RIGHT_PAREN, "Expect ')' after if condition.".to_owned()) {
            Ok(_) => {},
            Err(e) => {
                return Err(e);
            },
        }
        let then_s = match self.statement() {
            Ok(st) => st,
            Err(e) => {
                return Err(e);
            },
        };
        let ghost d1 = self.diags();
        let then_branch = Box::new(then_s);
        let mut else_branch: Option<Box<Stmt>> = None;
        if self.match_token(TokenType::ELSE) {
            let else_s = match self.statement() {
                Ok(st) => st,
                Err(e) => {
                    proof {
                        assert(self.diags() =~= d0 + (d1.skip(d0.len() as int) + self.diags().skip(
                            d1.len() as int,
                        )));
                    }
                    return Err(e);
                },
            };
            else_branch = Some(Box::new(else_s));
            proof {
                assert(self.diags() =~= d0 + (d1.skip(d0.len() as int) + self.diags().skip(
                    d1.len() as int,
                )));
            }
        }
        Ok(Stmt::If { condition, then_branch, else_branch })
    }

    /// A `while` statement, as `sp_while_statement` describes it.
    #[verifier::rlimit(100)]
    #[verifier::spinoff_prover]
    fn while_statement(&mut self) -> (r: Result<Stmt, ParserError>)
        requires
            old(self).wf_p(),
            old(self).cur() >= 1,
        ensures
            final(self).wf_p(),
            final(self).toks_v() == old(self).toks_v(),
            final(self).cur() >= old(self).cur(),
            final(self).cur() <= final(self).toks_v().len(),
            ({
                let o = sp_while_statement(old(self).toks_v(), old(self).cur(), old(self).errs());
                &&& final(self).cur() == o.pos
                &&& final(self).errs() == o.errs
                &&& final(self).diags() == old(self).diags() + o.diags
                &&& match r {
                    Ok(st) => o.r is Ok && st.deep_view() == o.r->Ok_0,
                    Err(e) => o.r is Err && e.deep_view() == o.r->Err_0,
                }
            }),
        decreases self.toks_v().len() - self.cur(), 130int,
    {
        proof {
            lemma_tokens_dv(self.tokens@);
            reveal(sp_while_statement);
            assert(old(self).diags() + Seq::<ParserErrorV>::empty() =~= old(self).diags());
        }
        match self.consume(TokenType::LEFT_PAREN, "Expect '(' after 'while'.".to_owned()) {
            Ok(_) => {},
            Err(e) => {
                return Err(e);
            },
        }
        let condition = match self.parse_expr() {
            Ok(e) => e,
            Err(e) => {
                return Err(e);
            },
        };
        match self.consume(
            TokenType::RIGHT_PAREN,
            "Expect ')' after while condition.".to_owned(),
        ) {
            Ok(_) => {},
            Err(e) => {
                return Err(e);
            },
        }
        let body_s = match self.statement() {
            Ok(st) => st,
            Err(e) => {
                return Err(e);
            },
        };
        Ok(Stmt::While { condition, body: Box::new(body_s) })
    }

    /// A `return` statement, as `sp_return_statement` describes it.
    #[verifier::rlimit(100)]
    #[verifier::spinoff_prover]
    fn return_statement(&mut self) -> (r: Result<Stmt, ParserError>)
        requires
            old(self).wf_p(),
            old(self).cur() >= 1,
        ensures
            final(self).wf_p(),
            final(self).toks_v() == old(self).toks_v(),
            final(self).cur() >= old(self).cur(),
            final(self).cur() <= final(self).toks_v().len(),
            ({
                let o = sp_return_statement(old(self).toks_v(), old(self).cur(), old(self).errs());
                &&& final(self).cur() == o.pos
                &&& final(self).errs() == o.errs
                &&& final(self).diags() == old(self).diags() + o.diags
                &&& match r {
                    Ok(st) => o.r is Ok && st.deep_view() == o.r->Ok_0,
                    Err(e) => o.r is Err && e.deep_view() == o.r->Err_0,
                }
            }),
        decreases self.toks_v().len() - self.cur(), 130int,
    {
        proof {
            lemma_tokens_dv(self.tokens@);
            reveal(sp_return_statement);
            assert(old(self).diags() + Seq::<ParserErrorV>::empty() =~= old(self).diags());
        }
        let keyword = match self.view_prev() {
            Some(tk) => tk,
            None => {
                proof {
                    assert(false);
                }
                return Err(ParserError::UnexpectedEndOfFile);
            },
        };
        let value = if !self.check_type(TokenType::SEMICOLON) {
            match self.parse_expr() {
                Ok(e) => Some(e),
                Err(e) => {
                    return Err(e);
                },
            }
        } else {
            None
        };
        match self.consume(TokenType::SEMICOLON, "Expect ';' after return value.".to_owned()) {
            Ok(_) => Ok(Stmt::Return { keyword, value }),
            Err(e) => Err(e),
        }
    }

    /// A `var` declaration, as `sp_var_declaration` describes it.
    #[verifier::rlimit(100)]
    #[verifier::spinoff_prover]
    fn var_declaration(&mut self) -> (r: Result<Stmt, ParserError>)
        requires
            old(self).wf_p(),
            old(self).cur() >= 1,
        ensures
            final(self).wf_p(),
            final(self).toks_v() == old(self).toks_v(),
            final(self).cur() >= old(self).cur(),
            final(self).cur() <= final(self).toks_v().len(),
            ({
                let o = sp_var_declaration(old(self).toks_v(), old(self).cur(), old(self).errs());
                &&& final(self).cur() == o.pos
                &&& final(self).errs() == o.errs
                &&& final(self).diags() == old(self).diags() + o.diags
                &&& match r {
                    Ok(st) => o.r is Ok && st.deep_view() == o.r->Ok_0,
                    Err(e) => o.r is Err && e.deep_view() == o.r->Err_0,
                }
            }),
        decreases self.toks_v().len() - self.cur(), 130int,
    {
        proof {
            lemma_tokens_dv(self.tokens@);
            reveal(sp_var_declaration);
            assert(old(self).diags() + Seq::<ParserErrorV>::empty() =~= old(self).diags());
        }
        let name = match self.consume(TokenType::IDENTIFIER, "Expect variable name.".to_owned()) {
            Ok(tk) => tk,
            Err(e) => {
                return Err(e);
            },
        };
        let mut initializer: Option<Expr> = None;
        if self.match_token(TokenType::EQUAL) {
            match self.parse_expr() {
                Ok(e) => {
                    initializer = Some(e);
                },
                Err(e) => {
                    return Err(e);
                },
            }
        }
        match self.consume(
            TokenType::SEMICOLON,
            "Expect ';' after variable declaration.".to_owned(),
        ) {
            Ok(_) => Ok(Stmt::Var { name, initializer }),
            Err(e) => Err(e),
        }
    }
}


impl Parser {
    /// A block's statement list and closing brace, as `sp_block`
    /// describes it.
    #[verifier::rlimit(100)]
    #[verifier::spinoff_prover]
    fn block(&mut self) -> (r: Result<Vec<Stmt>, ParserError>)
        requires
            old(self).wf_p(),
            old(self).cur() >= 1,
        ensures
            final(self).wf_p(),
            final(self).toks_v() == old(self).toks_v(),
            final(self).cur() >= old(self).cur(),
            final(self).cur() <= final(self).toks_v().len(),
            ({
                let o = sp_block(old(self).toks_v(), old(self).cur(), old(self).errs());
                &&& final(self).cur() == o.pos
                &&& final(self).errs() == o.errs
                &&& final(self).diags() == old(self).diags() + o.diags
                &&& match r {
                    Ok(v) => o.r is Ok && stmts_dv(v@) == o.r->Ok_0,
                    Err(e) => o.r is Err && e.deep_view() == o.r->Err_0,
                }
            }),
        decreases self.toks_v().len() - self.cur(), 160int,
    {
        let ghost t = self.toks_v();
        let ghost p0 = self.cur();
        let ghost e0 = self.errs();
        let ghost d0 = self.diags();
        proof {
            reveal(sp_block);
            reveal(sp_block_items);
            lemma_tokens_dv(self.tokens@);
        }
        let mut statements: Vec<Stmt> = Vec::new();
        proof {
            assert(stmts_dv(statements@) =~= Seq::<StmtV>::empty());
            assert(d0.skip(d0.len() as int) =~= Seq::<ParserErrorV>::empty());
        }
        #[verifier::loop_isolation(false)]
        while !self.check_type(TokenType::RIGHT_BRACE) && !self.is_end()
            invariant
                self.wf_p(),
                self.toks_v() == t,
                self.cur() >= p0,
                self.cur() >= 1,
                self.cur() <= t.len(),
                t == old(self).toks_v(),
                p0 == old(self).cur(),
                e0 == old(self).errs(),
                d0 == old(self).diags(),
                d0.len() <= self.diags().len(),
                self.diags().take(d0.len() as int) == d0,
                sp_block_items(
                    t,
                    stmts_dv(statements@),
                    self.diags().skip(d0.len() as int),
                    self.cur(),
                    self.errs(),
                ) == sp_block_items(t, Seq::<StmtV>::empty(), Seq::<ParserErrorV>::empty(), p0, e0),
            decreases t.len() - self.cur(),
        {
            proof {
                reveal(sp_block);
                reveal(sp_block_items);
            }
            let ghost dpre = self.diags();
            let ghost ctop = self.cur();
            let ghost etop = self.errs();
            let st = match self.declaration() {
                Ok(st) => st,
                Err(e) => {
                    proof {
                        let o = sp_declaration(t, ctop, etop);
                        assert(self.diags().skip(dpre.len() as int) =~= o.diags);
                        assert(self.diags().take(d0.len() as int) =~= d0);
                        assert(self.diags().skip(d0.len() as int) =~= dpre.skip(d0.len() as int)
                            + o.diags);
                        assert(self.diags() =~= d0 + self.diags().skip(d0.len() as int));
                    }
                    return Err(e);
                },
            };
            proof {
                lemma_stmts_dv_push(statements@, st);
            }
            statements.push(st);
            proof {
                let o = sp_declaration(t, ctop, etop);
                assert(self.diags().skip(dpre.len() as int) =~= o.diags);
                assert(self.diags().take(d0.len() as int) =~= d0);
                assert(self.diags().skip(d0.len() as int) =~= dpre.skip(d0.len() as int)
                    + o.diags);
            }
        }
        proof {
            reveal(sp_block);
            reveal(sp_block_items);
            assert(self.diags() =~= d0 + self.diags().skip(d0.len() as int));
        }
        match self.consume(TokenType::RIGHT_BRACE, "Expect '}' after block.".to_owned()) {
            Ok(_) => Ok(statements),
            Err(e) => Err(e),
        }
    }

    /// A function declaration, as `sp_function_declaration` describes
    /// it.
    #[verifier::rlimit(100)]
    #[verifier::spinoff_prover]
    fn function_declaration(&mut self) -> (r: Result<Stmt, ParserError>)
        requires
            old(self).wf_p(),
            old(self).cur() >= 1,
        ensures
            final(self).wf_p(),
            final(self).toks_v() == old(self).toks_v(),
            final(self).cur() >= old(self).cur(),
            final(self).cur() <= final(self).toks_v().len(),
            ({
                let o = sp_function_declaration(
                    old(self).toks_v(),
                    old(self).cur(),
                    old(self).errs(),
                );
                &&& final(self).cur() == o.pos
                &&& final(self).errs() == o.errs
                &&& final(self).diags() == old(self).diags() + o.diags
                &&& match r {
                    Ok(st) => o.r is Ok && st.deep_view() == o.r->Ok_0,
                    Err(e) => o.r is Err && e.deep_view() == o.r->Err_0,
                }
            }),
            r is Ok ==> final(self).cur() > old(self).cur(),
        decreases self.toks_v().len() - self.cur(), 130int,
    {
        let ghost t = self.toks_v();
        let ghost p0 = self.cur();
        let ghost d0 = self.diags();
        proof {
            reveal(sp_function_declaration);
            reveal(sp_params);
            lemma_tokens_dv(self.tokens@);
            assert(d0 + Seq::<ParserErrorV>::empty() =~= d0);
        }
        let name = match self.consume(TokenType::IDENTIFIER, "Expect function name.".to_owned()) {
            Ok(tk) => tk,
            Err(e) => {
                return Err(e);
            },
        };
        match self.consume(TokenType::LEFT_PAREN, "Expect '(' after function name.".to_owned()) {
            Ok(_) => {},
            Err(e) => {
                return Err(e);
            },
        }
        let mut params: Vec<Token> = Vec::new();
        proof {
            assert(tokens_dv(params@) =~= Seq::<TokenV>::empty());
        }
        if !self.check_type(TokenType::RIGHT_PAREN) {
            let ghost pp = self.cur();
            let ghost ee = self.errs();
            let mut go = true;
            #[verifier::loop_isolation(false)]
            while go
                invariant
                    self.wf_p(),
                    self.toks_v() == t,
                    self.cur() >= 1,
                    self.cur() <= t.len(),
                    t == old(self).toks_v(),
                    self.cur() >= p0,
                    self.diags() == d0,
                    d0 == old(self).diags(),
                    go ==> sp_params(t, tokens_dv(params@), self.cur(), self.errs()) == sp_params(
                        t,
                        Seq::<TokenV>::empty(),
                        pp,
                        ee,
                    ),
                    !go ==> sp_params(t, Seq::<TokenV>::empty(), pp, ee) == (PaRes {
                        r: Ok(tokens_dv(params@)),
                        pos: self.cur(),
                        errs: self.errs(),
                    }),
                decreases t.len() - self.cur(), (if go {
                    1int
                } else {
                    0int
                }),
            {
                proof {
                    reveal(sp_params);
                    lemma_tokens_dv(params@);
                }
                if params.len() >= 255 {
                    self.bump_errors();
                    let line = match self.peek() {
                        Some(tk) => tk.line,
                        None => match self.view_prev() {
                            Some(tk) => tk.line,
                            None => {
                                proof {
                                    assert(false);
                                }
                                0
                            },
                        },
                    };
                    return Err(
                        ParserError::InvalidExpression {
                            line,
                            message: "Cannot have more than 255 parameters.".to_owned(),
                        },
                    );
                }
                let param = match self.consume(
                    TokenType::IDENTIFIER,
                    "Expect parameter name.".to_owned(),
                ) {
                    Ok(tk) => tk,
                    Err(e) => {
                        return Err(e);
                    },
                };
                proof {
                    crate::token::lemma_tokens_dv_push(params@, param);
                }
                params.push(param);
                if !self.match_token(TokenType::COMMA) {
                    go = false;
                }
            }
        }
        proof {
            reveal(sp_function_declaration);
            reveal(sp_params);
        }
        match self.consume(TokenType::RIGHT_PAREN, "Expect ')' after parameters.".to_owned()) {
            Ok(_) => {},
            Err(e) => {
                return Err(e);
            },
        }
        match self.consume(TokenType::LEFT_BRACE, "Expect '{' before function body.".to_owned()) {
            Ok(_) => {},
            Err(e) => {
                return Err(e);
            },
        }
        let stmts = match self.block() {
            Ok(v) => v,
            Err(e) => {
                return Err(e);
            },
        };
        Ok(Stmt::Function { name, params, stmts })
    }

    /// A class declaration, as `sp_class_declaration` describes it: a
    /// failing method is counted and recorded, and when it consumed
    /// nothing the cursor steps past one token so the scan always moves.
    #[verifier::rlimit(100)]
    #[verifier::spinoff_prover]
    fn class_declaration(&mut self) -> (r: Result<Stmt, ParserError>)
        requires
            old(self).wf_p(),
            old(self).cur() >= 1,
        ensures
            final(self).wf_p(),
            final(self).toks_v() == old(self).toks_v(),
            final(self).cur() >= old(self).cur(),
            final(self).cur() <= final(self).toks_v().len(),
            ({
                let o = sp_class_declaration(
                    old(self).toks_v(),
                    old(self).cur(),
                    old(self).errs(),
                );
                &&& final(self).cur() == o.pos
                &&& final(self).errs() == o.errs
                &&& final(self).diags() == old(self).diags() + o.diags
                &&& match r {
                    Ok(st) => o.r is Ok && st.deep_view() == o.r->Ok_0,
                    Err(e) => o.r is Err && e.deep_view() == o.r->Err_0,
                }
            }),
        decreases self.toks_v().len() - self.cur(), 145int,
    {
        let ghost t = self.toks_v();
        let ghost p0 = self.cur();
        let ghost d0 = self.diags();
        proof {
            reveal(sp_class_declaration);
            reveal(sp_methods);
            lemma_tokens_dv(self.tokens@);
            assert(d0 + Seq::<ParserErrorV>::empty() =~= d0);
        }
        let name = match self.consume(TokenType::IDENTIFIER, "Expect class name.".to_owned()) {
            Ok(tk) => tk,
            Err(e) => {
                return Err(e);
            },
        };
        let ghost pm = self.cur();
        let ghost em = self.errs();
        let mut methods: Vec<Stmt> = Vec::new();
        let mut go = true;
        proof {
            assert(stmts_dv(methods@) =~= Seq::<StmtV>::empty());
            assert(d0.skip(d0.len() as int) =~= Seq::<ParserErrorV>::empty());
        }
        #[verifier::loop_isolation(false)]
        while go
            invariant
                self.wf_p(),
                self.toks_v() == t,
                self.cur() >= 1,
                self.cur() <= t.len(),
                self.cur() >= p0,
                t == old(self).toks_v(),
                p0 == old(self).cur(),
                d0 == old(self).diags(),
                d0.len() <= self.diags().len(),
                self.diags().take(d0.len() as int) == d0,
                go ==> sp_methods(
                    t,
                    stmts_dv(methods@),
                    self.diags().skip(d0.len() as int),
                    self.cur(),
                    self.errs(),
                ) == sp_methods(t, Seq::<StmtV>::empty(), Seq::<ParserErrorV>::empty(), pm, em),
                !go ==> sp_methods(
                    t,
                    Seq::<StmtV>::empty(),
                    Seq::<ParserErrorV>::empty(),
                    pm,
                    em,
                ) == (MRes {
                    methods: stmts_dv(methods@),
                    pos: self.cur(),
                    errs: self.errs(),
                    diags: self.diags().skip(d0.len() as int),
                }),
            decreases t.len() - self.cur(), (if go {
                1int
            } else {
                0int
            }),
        {
            proof {
                reveal(sp_methods);
                lemma_tokens_dv(self.tokens@);
            }
            if self.check_type(TokenType::EOF) || self.check_type(TokenType::RIGHT_BRACE) {
                go = false;
            } else if self.current >= self.tokens.len() {
                proof {
                    lemma_tokens_dv(self.tokens@);
                }
                go = false;
            } else {
                let before = self.current;
                let ghost dpre = self.diags();
                let ghost ctop = self.cur();
                let ghost etop = self.errs();
                let ghost mdvpre = stmts_dv(methods@);
                match self.function_declaration() {
                    Ok(m) => {
                        proof {
                            lemma_stmts_dv_push(methods@, m);
                        }
                        methods.push(m);
                        proof {
                            reveal(sp_methods);
                            let o = sp_function_declaration(t, ctop, etop);
                            assert(self.diags().skip(dpre.len() as int) =~= o.diags);
                            assert(self.diags().take(d0.len() as int) =~= d0);
                            assert(self.diags().skip(d0.len() as int) =~= dpre.skip(
                                d0.len() as int,
                            ) + o.diags);
                            assert(o.r is Ok && stmts_dv(methods@) == mdvpre.push(o.r->Ok_0));
                            assert(self.cur() == o.pos && o.pos > ctop && o.pos <= t.len());
                            assert(sp_methods(t, mdvpre, dpre.skip(d0.len() as int), ctop, etop)
                                == sp_methods(
                                t,
                                stmts_dv(methods@),
                                self.diags().skip(d0.len() as int),
                                self.cur(),
                                self.errs(),
                            ));
                        }
                    },
                    Err(e) => {
                        self.bump_errors();
                        proof {
                            lemma_perrs_dv_push(self.diagnostics@, e);
                        }
                        let ghost ev = e.deep_view();
                        self.diagnostics.push(e);
                        proof {
                            reveal(sp_methods);
                            let o = sp_function_declaration(t, ctop, etop);
                            assert(self.diags().skip(dpre.len() as int) =~= o.diags + seq![ev]);
                            assert(self.diags().take(d0.len() as int) =~= d0);
                            assert(self.diags().skip(d0.len() as int) =~= dpre.skip(
                                d0.len() as int,
                            ) + o.diags + seq![ev]);
                        }
                        if self.current == before {
                            self.advance();
                            proof {
                                reveal(sp_methods);
                                let o = sp_function_declaration(t, ctop, etop);
                                assert(o.pos == ctop);
                                assert(self.cur() == ctop + 1);
                                assert(sp_methods(t, mdvpre, dpre.skip(d0.len() as int), ctop, etop)
                                    == sp_methods(
                                    t,
                                    stmts_dv(methods@),
                                    self.diags().skip(d0.len() as int),
                                    self.cur(),
                                    self.errs(),
                                ));
                            }
                        } else {
                            proof {
                                reveal(sp_methods);
                                let o = sp_function_declaration(t, ctop, etop);
                                assert(o.pos > ctop && o.pos <= t.len());
                                assert(sp_methods(t, mdvpre, dpre.skip(d0.len() as int), ctop, etop)
                                    == sp_methods(
                                    t,
                                    stmts_dv(methods@),
                                    self.diags().skip(d0.len() as int),
                                    self.cur(),
                                    self.errs(),
                                ));
                            }
                        }
                    },
                }
            }
        }
        proof {
            reveal(sp_class_declaration);
            reveal(sp_methods);
            assert(self.diags() =~= d0 + self.diags().skip(d0.len() as int));
        }
        match self.consume(
            TokenType::RIGHT_BRACE,
            "Expected } after class declaration".to_owned(),
        ) {
            Ok(_) => Ok(Stmt::Class { name, methods }),
            Err(e) => Err(e),
        }
    }
}


impl Parser {
    /// A `for` statement, as `sp_for_statement` describes it: the
    /// header is parsed in full, and the loop desugars into `While`
    /// and `Block`.
    #[verifier::rlimit(100)]
    #[verifier::spinoff_prover]
    fn for_statement(&mut self) -> (r: Result<Stmt, ParserError>)
        requires
            old(self).wf_p(),
            old(self).cur() >= 1,
        ensures
            final(self).wf_p(),
            final(self).toks_v() == old(self).toks_v(),
            final(self).cur() >= old(self).cur(),
            final(self).cur() <= final(self).toks_v().len(),
            ({
                let o = sp_for_statement(old(self).toks_v(), old(self).cur(), old(self).errs());
                &&& final(self).cur() == o.pos
                &&& final(self).errs() == o.errs
                &&& final(self).diags() == old(self).diags() + o.diags
                &&& match r {
                    Ok(st) => o.r is Ok && st.deep_view() == o.r->Ok_0,
                    Err(e) => o.r is Err && e.deep_view() == o.r->Err_0,
                }
            }),
        decreases self.toks_v().len() - self.cur(), 130int,
    {
        let ghost t = self.toks_v();
        let ghost p0 = self.cur();
        let ghost e0 = self.errs();
        let ghost d0 = self.diags();
        proof {
            lemma_tokens_dv(self.tokens@);
            reveal(sp_for_statement);
                        reveal(sp_var_declaration);
                        reveal(sp_expression_statement);
            assert(d0 + Seq::<ParserErrorV>::empty() =~= d0);
        }
        match self.consume(TokenType::LEFT_PAREN, "Expect '(' after 'for'.".to_owned()) {
            Ok(_) => {},
            Err(e) => {
                proof {
                    reveal(sp_for_statement);
                        reveal(sp_var_declaration);
                        reveal(sp_expression_statement);
                }
                return Err(e);
            },
        }
        if self.match_token(TokenType::SEMICOLON) {
        } else if self.match_token(TokenType::VAR) {
            match self.var_declaration() {
                Ok(_) => {},
                Err(e) => {
                    proof {
                        reveal(sp_for_statement);
                        reveal(sp_var_declaration);
                        reveal(sp_expression_statement);
                        assert(self.diags() =~= d0 + sp_for_statement(t, p0, e0).diags);
                    }
                    return Err(e);
                },
            }
        } else {
            match self.expression_statement() {
                Ok(_) => {},
                Err(e) => {
                    proof {
                        reveal(sp_for_statement);
                        reveal(sp_var_declaration);
                        reveal(sp_expression_statement);
                        assert(self.diags() =~= d0 + sp_for_statement(t, p0, e0).diags);
                    }
                    return Err(e);
                },
            }
        }
        let condition: Option<Expr> = if !self.check_type(TokenType::SEMICOLON) {
            match self.parse_expr() {
                Ok(e) => Some(e),
                Err(e) => {
                    proof {
                        reveal(sp_for_statement);
                        reveal(sp_var_declaration);
                        reveal(sp_expression_statement);
                        let o = sp_for_statement(t, p0, e0);
                        assert(o.pos == self.cur());
                        assert(o.errs == self.errs());
                        assert(o.r is Err);
                        assert(self.diags() =~= d0 + o.diags);
                    }
                    return Err(e);
                },
            }
        } else {
            None
        };
        match self.consume(TokenType::SEMICOLON, "Expect ';' after loop condition.".to_owned()) {
            Ok(_) => {},
            Err(e) => {
                proof {
                    reveal(sp_for_statement);
                        reveal(sp_var_declaration);
                        reveal(sp_expression_statement);
                    assert(self.diags() =~= d0 + sp_for_statement(t, p0, e0).diags);
                }
                return Err(e);
            },
        }
        let increment: Option<Expr> = if !self.check_type(TokenType::RIGHT_PAREN) {
            match self.parse_expr() {
                Ok(e) => Some(e),
                Err(e) => {
                    proof {
                        reveal(sp_for_statement);
                        reveal(sp_var_declaration);
                        reveal(sp_expression_statement);
                        assert(self.diags() =~= d0 + sp_for_statement(t, p0, e0).diags);
                    }
                    return Err(e);
                },
            }
        } else {
            None
        };
        match self.consume(TokenType::RIGHT_PAREN, "Expect ')' after for clauses.".to_owned()) {
            Ok(_) => {},
            Err(e) => {
                proof {
                    reveal(sp_for_statement);
                        reveal(sp_var_declaration);
                        reveal(sp_expression_statement);
                    assert(self.diags() =~= d0 + sp_for_statement(t, p0, e0).diags);
                }
                return Err(e);
            },
        }
        let mut body = match self.statement() {
            Ok(st) => st,
            Err(e) => {
                proof {
                    reveal(sp_for_statement);
                        reveal(sp_var_declaration);
                        reveal(sp_expression_statement);
                    assert(self.diags() =~= d0 + sp_for_statement(t, p0, e0).diags);
                }
                return Err(e);
            },
        };
        if let Some(inc) = increment {
            let mut stmts: Vec<Stmt> = Vec::new();
            let ghost bv = body.deep_view();
            proof {
                assert(stmts_dv(stmts@) =~= Seq::<StmtV>::empty());
                lemma_stmts_dv_push(stmts@, body);
            }
            stmts.push(body);
            let inner = Stmt::Expression { expr: inc };
            let ghost iv = inner.deep_view();
            proof {
                lemma_stmts_dv_push(stmts@, inner);
            }
            stmts.push(inner);
            proof {
                assert(stmts_dv(stmts@) =~= seq![bv, iv]);
            }
            body = Stmt::Block { stmts };
            proof {
                assert(body.deep_view() == StmtV::Block { stmts: seq![bv, iv] });
            }
        }
        let prev_line = match self.view_prev() {
            Some(tk) => tk.line,
            None => {
                proof {
                    assert(false);
                }
                0
            },
        };
        let condition2 = match condition {
            Some(c) => c,
            None => Expr::Literal {
                token: Token::new(TokenType::TRUE, "true".to_owned(), prev_line),
            },
        };
        let ghost cdv = condition2.deep_view();
        let ghost bdv = body.deep_view();
        let result = Stmt::While { condition: condition2, body: Box::new(body) };
        proof {
            reveal(sp_for_statement);
                        reveal(sp_var_declaration);
                        reveal(sp_expression_statement);
            assert(self.diags() =~= d0 + sp_for_statement(t, p0, e0).diags);
            let o = sp_for_statement(t, p0, e0);
            if o.r is Ok {
                match o.r->Ok_0 {
                    StmtV::While { condition: sc, body: sb } => {
                        assert(cdv == sc);
                        assert(bdv == *sb);
                        assert(result.deep_view() == o.r->Ok_0);
                    },
                    _ => {},
                }
            }
        }
        Ok(result)
    }

    /// A statement, as `sp_statement` describes it.
    #[verifier::rlimit(100)]
    #[verifier::spinoff_prover]
    fn statement(&mut self) -> (r: Result<Stmt, ParserError>)
        requires
            old(self).wf_p(),
        ensures
            final(self).wf_p(),
            final(self).toks_v() == old(self).toks_v(),
            final(self).cur() >= old(self).cur(),
            final(self).cur() <= final(self).toks_v().len(),
            !is_end_v(old(self).toks_v(), old(self).cur()) ==> final(self).cur() > old(
                self,
            ).cur(),
            r is Ok ==> final(self).cur() > old(self).cur(),
            ({
                let o = sp_statement(old(self).toks_v(), old(self).cur(), old(self).errs());
                &&& final(self).cur() == o.pos
                &&& final(self).errs() == o.errs
                &&& final(self).diags() == old(self).diags() + o.diags
                &&& match r {
                    Ok(st) => o.r is Ok && st.deep_view() == o.r->Ok_0,
                    Err(e) => o.r is Err && e.deep_view() == o.r->Err_0,
                }
            }),
        decreases self.toks_v().len() - self.cur(), 140int,
    {
        proof {
            lemma_tokens_dv(self.tokens@);
            reveal(sp_statement);
        }
        if self.match_token(TokenType::PRINT) {
            self.print_statement()
        } else if self.match_token(TokenType::IF) {
            self.if_statement()
        } else if self.match_token(TokenType::FOR) {
            self.for_statement()
        } else if self.match_token(TokenType::WHILE) {
            self.while_statement()
        } else if self.match_token(TokenType::RETURN) {
            self.return_statement()
        } else if self.match_token(TokenType::LEFT_BRACE) {
            match self.block() {
                Ok(stmts) => Ok(Stmt::Block { stmts }),
                Err(e) => Err(e),
            }
        } else {
            self.expression_statement()
        }
    }

    /// A declaration, as `sp_declaration` describes it: a failure steps
    /// the error counter once more on the way out.
    #[verifier::rlimit(100)]
    #[verifier::spinoff_prover]
    fn declaration(&mut self) -> (r: Result<Stmt, ParserError>)
        requires
            old(self).wf_p(),
        ensures
            final(self).wf_p(),
            final(self).toks_v() == old(self).toks_v(),
            final(self).cur() >= old(self).cur(),
            final(self).cur() <= final(self).toks_v().len(),
            !is_end_v(old(self).toks_v(), old(self).cur()) ==> final(self).cur() > old(
                self,
            ).cur(),
            r is Ok ==> final(self).cur() > old(self).cur(),
            ({
                let o = sp_declaration(old(self).toks_v(), old(self).cur(), old(self).errs());
                &&& final(self).cur() == o.pos
                &&& final(self).errs() == o.errs
                &&& final(self).diags() == old(self).diags() + o.diags
                &&& match r {
                    Ok(st) => o.r is Ok && st.deep_view() == o.r->Ok_0,
                    Err(e) => o.r is Err && e.deep_view() == o.r->Err_0,
                }
            }),
        decreases self.toks_v().len() - self.cur(), 150int,
    {
        proof {
            lemma_tokens_dv(self.tokens@);
            reveal(sp_declaration);
        }
        let stmt = if self.match_token(TokenType::VAR) {
            self.var_declaration()
        } else if self.match_token(TokenType::CLASS) {
            self.class_declaration()
        } else if self.match_token(TokenType::FN) {
            self.function_declaration()
        } else {
            self.statement()
        };
        match stmt {
            Ok(st) => Ok(st),
            Err(e) => {
                self.bump_errors();
                Err(e)
            },
        }
    }

    /// A whole program, as `sp_parse` describes it: every failing
    /// declaration is counted and recorded, and the loop goes on with
    /// the next one.
    #[verifier::rlimit(100)]
    #[verifier::spinoff_prover]
    pub fn parse(&mut self) -> (r: Result<Vec<Stmt>, ParserError>)
        requires
            old(self).wf_p(),
        ensures
            final(self).wf_p(),
            final(self).toks_v() == old(self).toks_v(),
            ({
                let o = sp_parse(
                    old(self).toks_v(),
                    Seq::<StmtV>::empty(),
                    Seq::<ParserErrorV>::empty(),
                    old(self).cur(),
                    old(self).errs(),
                );
                &&& final(self).cur() == o.pos
                &&& final(self).errs() == o.errs
                &&& final(self).diags() == old(self).diags() + o.diags
                &&& match r {
                    Ok(v) => stmts_dv(v@) == o.stmts,
                    Err(_) => false,
                }
            }),
    {
        let ghost t = self.toks_v();
        let ghost p0 = self.cur();
        let ghost e0 = self.errs();
        let ghost d0 = self.diags();
        proof {
            reveal(sp_parse);
            lemma_tokens_dv(self.tokens@);
        }
        let mut stmts: Vec<Stmt> = Vec::new();
        proof {
            assert(stmts_dv(stmts@) =~= Seq::<StmtV>::empty());
            assert(d0.skip(d0.len() as int) =~= Seq::<ParserErrorV>::empty());
        }
        #[verifier::loop_isolation(false)]
        while !self.is_end()
            invariant
                self.wf_p(),
                self.toks_v() == t,
                self.cur() <= t.len(),
                t == old(self).toks_v(),
                p0 == old(self).cur(),
                e0 == old(self).errs(),
                d0 == old(self).diags(),
                d0.len() <= self.diags().len(),
                self.diags().take(d0.len() as int) == d0,
                sp_parse(
                    t,
                    stmts_dv(stmts@),
                    self.diags().skip(d0.len() as int),
                    self.cur(),
                    self.errs(),
                ) == sp_parse(t, Seq::<StmtV>::empty(), Seq::<ParserErrorV>::empty(), p0, e0),
            decreases t.len() - self.cur(),
        {
            proof {
                reveal(sp_parse);
            }
            let ghost dpre = self.diags();
            let ghost ctop = self.cur();
            let ghost etop = self.errs();
            match self.declaration() {
                Ok(st) => {
                    proof {
                        lemma_stmts_dv_push(stmts@, st);
                    }
                    stmts.push(st);
                    proof {
                        let o = sp_declaration(t, ctop, etop);
                        assert(self.diags().skip(dpre.len() as int) =~= o.diags);
                        assert(self.diags().take(d0.len() as int) =~= d0);
                        assert(self.diags().skip(d0.len() as int) =~= dpre.skip(d0.len() as int)
                            + o.diags);
                    }
                },
                Err(e) => {
                    self.bump_errors();
                    let ghost ev = e.deep_view();
                    proof {
                        lemma_perrs_dv_push(self.diagnostics@, e);
                    }
                    self.diagnostics.push(e);
                    proof {
                        let o = sp_declaration(t, ctop, etop);
                        assert(self.diags().skip(dpre.len() as int) =~= o.diags + seq![ev]);
                        assert(self.diags().take(d0.len() as int) =~= d0);
                        assert(self.diags().skip(d0.len() as int) =~= dpre.skip(d0.len() as int)
                            + o.diags + seq![ev]);
                    }
                },
            }
        }
        proof {
            reveal(sp_parse);
            assert(self.diags() =~= d0 + self.diags().skip(d0.len() as int));
        }
        Ok(stmts)
    }
}

} // verus!
