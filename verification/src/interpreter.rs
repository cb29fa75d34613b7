//! The tree-walking interpreter: a scope arena, a current scope, and
//! the values printed so far.  Execution is specified by a spec
//! machine over the deep views, stepped with a fuel budget: one unit
//! per function call and per loop iteration.  A run that exhausts its
//! budget ends in `Spent`, and a caller may simply run again with a
//! larger budget: evaluation is deterministic.

use vstd::prelude::*;
use vstd::string::StringExecFns;
use crate::ast::expr::{exprs_dv, Expr, ExprV};
use crate::ast::stmt::{stmts_dv, Stmt, StmtV};
use crate::error::{RuntimeError, RuntimeErrorV};
use crate::function::{Function, FunctionV};
use crate::numeric::{add_bits, div_bits, le_bits, lt_bits, mul_bits, neg_bits, num_add,
    num_div, num_le, num_lt, num_mul, num_neg, num_parse, num_sub, parse_bits, sub_bits};
use crate::object::{obj_eq, Object, ObjectV};
use crate::scope::{binding_of, Scope, ScopeV};
use crate::token::{tokens_dv, Token, TokenType, TokenV};

verus! {

/// What evaluating an expression yields: a value, a fault (or the
/// `Return` signal), or an exhausted budget.
#[derive(Debug)]
pub enum EvalOutcome {
    Val { value: Object },
    Fault { error: RuntimeError },
    Spent,
}

/// The mathematical view of an evaluation outcome.
#[verifier::ext_equal]
pub enum EvalOutcomeV {
    Val { value: ObjectV },
    Fault { error: RuntimeErrorV },
    Spent,
}

impl DeepView for EvalOutcome {
    type V = EvalOutcomeV;

    open spec fn deep_view(&self) -> EvalOutcomeV {
        match self {
            EvalOutcome::Val { value } => EvalOutcomeV::Val { value: value.deep_view() },
            EvalOutcome::Fault { error } => EvalOutcomeV::Fault { error: error.deep_view() },
            EvalOutcome::Spent => EvalOutcomeV::Spent,
        }
    }
}

/// What executing a statement yields: completion, a fault (or the
/// `Return` signal), or an exhausted budget.
#[derive(Debug)]
pub enum ExecOutcome {
    Done,
    Fault { error: RuntimeError },
    Spent,
}

/// The mathematical view of an execution outcome.
#[verifier::ext_equal]
pub enum ExecOutcomeV {
    Done,
    Fault { error: RuntimeErrorV },
    Spent,
}

impl DeepView for ExecOutcome {
    type V = ExecOutcomeV;

    open spec fn deep_view(&self) -> ExecOutcomeV {
        match self {
            ExecOutcome::Done => ExecOutcomeV::Done,
            ExecOutcome::Fault { error } => ExecOutcomeV::Fault { error: error.deep_view() },
            ExecOutcome::Spent => ExecOutcomeV::Spent,
        }
    }
}

/// The view of the scope arena.
pub open spec fn scopes_dv(s: Seq<Scope>) -> Seq<ScopeV>
    decreases s,
{
    if s.len() == 0 {
        Seq::empty()
    } else {
        scopes_dv(s.drop_last()).push(s.last().deep_view())
    }
}

/// `scopes_dv` is the element-wise view.
pub broadcast proof fn lemma_scopes_dv(s: Seq<Scope>)
    ensures
        (#[trigger] scopes_dv(s)).len() == s.len(),
        forall|i: int| 0 <= i < s.len() ==> scopes_dv(s)[i] == s[i].deep_view(),
    decreases s,
{
    if s.len() > 0 {
        lemma_scopes_dv(s.drop_last());
        assert(scopes_dv(s) == scopes_dv(s.drop_last()).push(s.last().deep_view()));
        assert forall|i: int| 0 <= i < s.len() implies scopes_dv(s)[i] == s[i].deep_view() by {
            if i < s.len() - 1 {
                assert(scopes_dv(s)[i] == scopes_dv(s.drop_last())[i]);
                assert(s.drop_last()[i] == s[i]);
            } else {
                assert(scopes_dv(s)[i] == s.last().deep_view());
            }
        }
    }
}

/// Appending a scope appends its view.
pub broadcast proof fn lemma_scopes_dv_push(s: Seq<Scope>, x: Scope)
    ensures
        #[trigger] scopes_dv(s.push(x)) == scopes_dv(s).push(x.deep_view()),
{
    assert(s.push(x).drop_last() =~= s);
    assert(s.push(x).last() == x);
}

/// Updating a scope updates its view in place.
pub proof fn lemma_scopes_dv_update(s: Seq<Scope>, i: int, x: Scope)
    requires
        0 <= i < s.len(),
    ensures
        scopes_dv(s.update(i, x)) == scopes_dv(s).update(i, x.deep_view()),
{
    lemma_scopes_dv(s);
    lemma_scopes_dv(s.update(i, x));
    assert(scopes_dv(s.update(i, x)) =~= scopes_dv(s).update(i, x.deep_view()));
}

/// The view of the printed values.
pub open spec fn objs_dv(s: Seq<Object>) -> Seq<ObjectV>
    decreases s,
{
    if s.len() == 0 {
        Seq::empty()
    } else {
        objs_dv(s.drop_last()).push(s.last().deep_view())
    }
}

/// Appending a value appends its view.
pub broadcast proof fn lemma_objs_dv_push(s: Seq<Object>, x: Object)
    ensures
        #[trigger] objs_dv(s.push(x)) == objs_dv(s).push(x.deep_view()),
{
    assert(s.push(x).drop_last() =~= s);
    assert(s.push(x).last() == x);
}

/// The interpreter's abstract state: the scope arena, the current
/// scope, and the values printed so far.
#[verifier::ext_equal]
pub struct StV {
    pub scopes: Seq<ScopeV>,
    pub cur: int,
    pub output: Seq<ObjectV>,
}

/// Truthiness: `Null` and `false` are falsy; every other value,
/// including zero and the empty string, is truthy.
pub open spec fn truthy(v: ObjectV) -> bool {
    match v {
        ObjectV::Boolean { value } => value,
        ObjectV::Null => false,
        _ => true,
    }
}

/// The value bound to a name, searched from the given scope through
/// its parents; a parent link that does not point at an earlier arena
/// slot ends the search.
pub open spec fn sv_lookup(scopes: Seq<ScopeV>, i: int, name: Seq<char>) -> Option<ObjectV>
    decreases (if i < 0 {
        0int
    } else {
        i
    }),
{
    if 0 <= i < scopes.len() {
        match binding_of(scopes[i].entries, name) {
            Some(v) => Some(v),
            None => match scopes[i].parent {
                Some(p) => if (p as int) < i {
                    sv_lookup(scopes, p as int, name)
                } else {
                    None
                },
                None => None,
            },
        }
    } else {
        None
    }
}

/// Assignment: the nearest scope in the chain that already binds the
/// name receives the new value; an unbound name changes nothing and
/// reports failure.
pub open spec fn sv_assign(scopes: Seq<ScopeV>, i: int, name: Seq<char>, v: ObjectV) -> Option<
    Seq<ScopeV>,
>
    decreases (if i < 0 {
        0int
    } else {
        i
    }),
{
    if 0 <= i < scopes.len() {
        if binding_of(scopes[i].entries, name) is Some {
            Some(
                scopes.update(
                    i,
                    ScopeV { parent: scopes[i].parent, entries: scopes[i].entries.push((name, v)) },
                ),
            )
        } else {
            match scopes[i].parent {
                Some(p) => if (p as int) < i {
                    sv_assign(scopes, p as int, name, v)
                } else {
                    None
                },
                None => None,
            }
        }
    } else {
        None
    }
}

/// What a literal token evaluates to: numbers through correctly
/// rounded decimal parsing, strings as their lexeme, the keyword
/// literals as themselves; anything else, or an unparsable number, is
/// an `InvalidLiteral` fault.
pub open spec fn literal_value_v(token: TokenV) -> Result<ObjectV, RuntimeErrorV> {
    if token.token_type == TokenType::NUMBER {
        match parse_bits(token.lexeme) {
            Some(b) => Ok(ObjectV::Number { bits: b }),
            None => Err(RuntimeErrorV::InvalidLiteral { token, message: ""@ }),
        }
    } else if token.token_type == TokenType::STRING {
        Ok(ObjectV::Str { text: token.lexeme })
    } else if token.token_type == TokenType::TRUE {
        Ok(ObjectV::Boolean { value: true })
    } else if token.token_type == TokenType::FALSE {
        Ok(ObjectV::Boolean { value: false })
    } else if token.token_type == TokenType::NULL {
        Ok(ObjectV::Null)
    } else {
        Err(RuntimeErrorV::InvalidLiteral { token, message: ""@ })
    }
}

/// What a unary operator does to an evaluated operand: `-` negates a
/// number and rejects everything else; `!` negates truthiness.
pub open spec fn apply_unary_v(op: TokenV, v: ObjectV) -> Result<ObjectV, RuntimeErrorV> {
    if op.token_type == TokenType::MINUS {
        match v {
            ObjectV::Number { bits } => Ok(ObjectV::Number { bits: neg_bits(bits) }),
            _ => Err(
                RuntimeErrorV::InvalidUnaryOperation {
                    token: op,
                    message: "Operator can only be used on numbers"@,
                },
            ),
        }
    } else if op.token_type == TokenType::BANG {
        Ok(ObjectV::Boolean { value: !truthy(v) })
    } else {
        Err(RuntimeErrorV::InvalidUnaryOperation { token: op, message: ""@ })
    }
}

/// What a binary operator does to two evaluated operands: arithmetic
/// and comparison on numbers by IEEE-754, `+` also concatenating two
/// strings, equality structural over all values, and `and`/`or` here
/// coercing both operands' truthiness (the short-circuit forms live in
/// `Logical` nodes, not here).
pub open spec fn apply_binary_v(op: TokenV, l: ObjectV, r: ObjectV) -> Result<
    ObjectV,
    RuntimeErrorV,
> {
    let num_msg = "Operator can only be used on numbers"@;
    if op.token_type == TokenType::AND {
        if !truthy(l) {
            Ok(ObjectV::Boolean { value: false })
        } else {
            Ok(ObjectV::Boolean { value: truthy(r) })
        }
    } else if op.token_type == TokenType::OR {
        if truthy(l) {
            Ok(ObjectV::Boolean { value: true })
        } else {
            Ok(ObjectV::Boolean { value: truthy(r) })
        }
    } else if op.token_type == TokenType::MINUS {
        match (l, r) {
            (ObjectV::Number { bits: a }, ObjectV::Number { bits: b }) => Ok(
                ObjectV::Number { bits: sub_bits(a, b) },
            ),
            _ => Err(RuntimeErrorV::InvalidBinaryOperation { token: op, message: num_msg }),
        }
    } else if op.token_type == TokenType::PLUS {
        match (l, r) {
            (ObjectV::Number { bits: a }, ObjectV::Number { bits: b }) => Ok(
                ObjectV::Number { bits: add_bits(a, b) },
            ),
            (ObjectV::Str { text: a }, ObjectV::Str { text: b }) => Ok(
                ObjectV::Str { text: a + b },
            ),
            _ => Err(
                RuntimeErrorV::InvalidBinaryOperation {
                    token: op,
                    message: "Operator can only be used on numbers or strings"@,
                },
            ),
        }
    } else if op.token_type == TokenType::GREATER {
        match (l, r) {
            (ObjectV::Number { bits: a }, ObjectV::Number { bits: b }) => Ok(
                ObjectV::Boolean { value: lt_bits(b, a) },
            ),
            _ => Err(RuntimeErrorV::InvalidBinaryOperation { token: op, message: num_msg }),
        }
    } else if op.token_type == TokenType::GREATER_EQUAL {
        match (l, r) {
            (ObjectV::Number { bits: a }, ObjectV::Number { bits: b }) => Ok(
                ObjectV::Boolean { value: le_bits(b, a) },
            ),
            _ => Err(RuntimeErrorV::InvalidBinaryOperation { token: op, message: num_msg }),
        }
    } else if op.token_type == TokenType::LESS {
        match (l, r) {
            (ObjectV::Number { bits: a }, ObjectV::Number { bits: b }) => Ok(
                ObjectV::Boolean { value: lt_bits(a, b) },
            ),
            _ => Err(RuntimeErrorV::InvalidBinaryOperation { token: op, message: num_msg }),
        }
    } else if op.token_type == TokenType::LESS_EQUAL {
        match (l, r) {
            (ObjectV::Number { bits: a }, ObjectV::Number { bits: b }) => Ok(
                ObjectV::Boolean { value: le_bits(a, b) },
            ),
            _ => Err(RuntimeErrorV::InvalidBinaryOperation { token: op, message: num_msg }),
        }
    } else if op.token_type == TokenType::SLASH {
        match (l, r) {
            (ObjectV::Number { bits: a }, ObjectV::Number { bits: b }) => Ok(
                ObjectV::Number { bits: div_bits(a, b) },
            ),
            _ => Err(RuntimeErrorV::InvalidBinaryOperation { token: op, message: num_msg }),
        }
    } else if op.token_type == TokenType::STAR {
        match (l, r) {
            (ObjectV::Number { bits: a }, ObjectV::Number { bits: b }) => Ok(
                ObjectV::Number { bits: mul_bits(a, b) },
            ),
            _ => Err(RuntimeErrorV::InvalidBinaryOperation { token: op, message: num_msg }),
        }
    } else if op.token_type == TokenType::EQUAL_EQUAL {
        Ok(ObjectV::Boolean { value: obj_eq(l, r) })
    } else if op.token_type == TokenType::BANG_EQUAL {
        Ok(ObjectV::Boolean { value: !obj_eq(l, r) })
    } else {
        Err(RuntimeErrorV::InvalidBinaryOperation { token: op, message: ""@ })
    }
}

/// What evaluating an argument list yields.
#[verifier::ext_equal]
pub enum ArgsOutV {
    Vals { values: Seq<ObjectV> },
    Fault { error: RuntimeErrorV },
    Spent,
}

/// A state and an evaluation outcome.
#[verifier::ext_equal]
pub struct EvRes {
    pub st: StV,
    pub r: EvalOutcomeV,
}

/// A state and an execution outcome.
#[verifier::ext_equal]
pub struct SxRes {
    pub st: StV,
    pub r: ExecOutcomeV,
}

/// A state and an argument-list outcome.
#[verifier::ext_equal]
pub struct AgRes {
    pub st: StV,
    pub r: ArgsOutV,
}

/// The bindings of a fresh call scope: each parameter name bound to
/// its argument, in order.
pub open spec fn bind_params(params: Seq<TokenV>, args: Seq<ObjectV>) -> Seq<
    (Seq<char>, ObjectV),
>
    decreases params,
{
    if params.len() == 0 || args.len() == 0 {
        Seq::empty()
    } else {
        bind_params(params.drop_last(), args.drop_last()).push(
            (params.last().lexeme, args.last()),
        )
    }
}


/// The size of an expression tree, for termination measures.
pub open spec fn esize(e: ExprV) -> nat
    decreases e,
{
    match e {
        ExprV::Literal { .. } => 1,
        ExprV::Variable { .. } => 1,
        ExprV::Unary { operand, .. } => 1 + esize(*operand),
        ExprV::Binary { left, right, .. } => 1 + esize(*left) + esize(*right),
        ExprV::Logical { left, right, .. } => 1 + esize(*left) + esize(*right),
        ExprV::Grouping { inner } => 1 + esize(*inner),
        ExprV::Assign { value, .. } => 1 + esize(*value),
        ExprV::Call { callee, arguments, .. } => 1 + esize(*callee) + esizes(arguments),
    }
}

/// The size of an expression sequence.
pub open spec fn esizes(s: Seq<ExprV>) -> nat
    decreases s,
{
    if s.len() == 0 {
        0
    } else {
        1 + esize(s[0]) + esizes(s.subrange(1, s.len() as int))
    }
}

/// The size of an optional expression.
pub open spec fn oesize(e: Option<ExprV>) -> nat {
    match e {
        Some(x) => esize(x),
        None => 0,
    }
}

/// The size of a statement tree.
pub open spec fn ssize(s: StmtV) -> nat
    decreases s,
{
    match s {
        StmtV::Block { stmts } => 1 + ssizes(stmts),
        StmtV::Expression { expr } => 1 + esize(expr),
        StmtV::Print { expr } => 1 + esize(expr),
        StmtV::Class { methods, .. } => 1 + ssizes(methods),
        StmtV::Function { stmts, .. } => 1 + ssizes(stmts),
        StmtV::If { condition, then_branch, else_branch } => 1 + esize(condition) + ssize(
            *then_branch,
        ) + (match else_branch {
            Some(b) => ssize(*b),
            None => 0,
        }),
        StmtV::Return { value, .. } => 1 + oesize(value),
        StmtV::Var { initializer, .. } => 1 + oesize(initializer),
        StmtV::While { condition, body } => 1 + esize(condition) + ssize(*body),
    }
}

/// The size of a statement sequence.
pub open spec fn ssizes(s: Seq<StmtV>) -> nat
    decreases s,
{
    if s.len() == 0 {
        0
    } else {
        1 + ssize(s[0]) + ssizes(s.subrange(1, s.len() as int))
    }
}

/// The size of a function value's body.
pub open spec fn fsize(f: FunctionV) -> nat {
    1 + ssizes(f.body)
}

/// Evaluation of one expression, with a fuel budget spent one unit per
/// call: the heart of the machine.  Binary operands evaluate right
/// before left; logical operators are lazy and coerce to booleans.
#[verifier::opaque]
pub open spec fn sv_eval(st: StV, e: ExprV, fuel: nat) -> EvRes
    decreases fuel, esize(e), 1int,
{
    match e {
        ExprV::Literal { token } => match literal_value_v(token) {
            Ok(v) => EvRes { st, r: EvalOutcomeV::Val { value: v } },
            Err(er) => EvRes { st, r: EvalOutcomeV::Fault { error: er } },
        },
        ExprV::Grouping { inner } => sv_eval(st, *inner, fuel),
        ExprV::Unary { op, operand } => {
            let r1 = sv_eval(st, *operand, fuel);
            match r1.r {
                EvalOutcomeV::Val { value } => match apply_unary_v(op, value) {
                    Ok(v) => EvRes { st: r1.st, r: EvalOutcomeV::Val { value: v } },
                    Err(er) => EvRes { st: r1.st, r: EvalOutcomeV::Fault { error: er } },
                },
                _ => r1,
            }
        },
        ExprV::Binary { op, left, right } => {
            let r1 = sv_eval(st, *right, fuel);
            match r1.r {
                EvalOutcomeV::Val { value: rv } => {
                    let r2 = sv_eval(r1.st, *left, fuel);
                    match r2.r {
                        EvalOutcomeV::Val { value: lv } => match apply_binary_v(op, lv, rv) {
                            Ok(v) => EvRes { st: r2.st, r: EvalOutcomeV::Val { value: v } },
                            Err(er) => EvRes {
                                st: r2.st,
                                r: EvalOutcomeV::Fault { error: er },
                            },
                        },
                        _ => r2,
                    }
                },
                _ => r1,
            }
        },
        ExprV::Logical { op, left, right } => {
            let r1 = sv_eval(st, *left, fuel);
            match r1.r {
                EvalOutcomeV::Val { value: lv } => {
                    if op.token_type == TokenType::AND {
                        if !truthy(lv) {
                            EvRes { st: r1.st, r: EvalOutcomeV::Val {
                                value: ObjectV::Boolean { value: false },
                            } }
                        } else {
                            let r2 = sv_eval(r1.st, *right, fuel);
                            match r2.r {
                                EvalOutcomeV::Val { value: rv } => EvRes {
                                    st: r2.st,
                                    r: EvalOutcomeV::Val {
                                        value: ObjectV::Boolean { value: truthy(rv) },
                                    },
                                },
                                _ => r2,
                            }
                        }
                    } else if op.token_type == TokenType::OR {
                        if truthy(lv) {
                            EvRes { st: r1.st, r: EvalOutcomeV::Val {
                                value: ObjectV::Boolean { value: true },
                            } }
                        } else {
                            let r2 = sv_eval(r1.st, *right, fuel);
                            match r2.r {
                                EvalOutcomeV::Val { value: rv } => EvRes {
                                    st: r2.st,
                                    r: EvalOutcomeV::Val {
                                        value: ObjectV::Boolean { value: truthy(rv) },
                                    },
                                },
                                _ => r2,
                            }
                        }
                    } else {
                        EvRes { st: r1.st, r: EvalOutcomeV::Fault {
                            error: RuntimeErrorV::InvalidLogicalOperation {
                                token: op,
                                message: ""@,
                            },
                        } }
                    }
                },
                _ => r1,
            }
        },
        ExprV::Variable { name } => match sv_lookup(st.scopes, st.cur, name.lexeme) {
            Some(v) => EvRes { st, r: EvalOutcomeV::Val { value: v } },
            None => EvRes { st, r: EvalOutcomeV::Fault {
                error: RuntimeErrorV::UndefinedVariable { token: name },
            } },
        },
        ExprV::Assign { name, value } => {
            let r1 = sv_eval(st, *value, fuel);
            match r1.r {
                EvalOutcomeV::Val { value: v } => match sv_assign(
                    r1.st.scopes,
                    r1.st.cur,
                    name.lexeme,
                    v,
                ) {
                    Some(scopes2) => EvRes {
                        st: StV { scopes: scopes2, cur: r1.st.cur, output: r1.st.output },
                        r: EvalOutcomeV::Val { value: v },
                    },
                    None => EvRes { st: r1.st, r: EvalOutcomeV::Fault {
                        error: RuntimeErrorV::UndefinedVariable { token: name },
                    } },
                },
                _ => r1,
            }
        },
        ExprV::Call { callee, paren, arguments } => {
            let r1 = sv_eval(st, *callee, fuel);
            match r1.r {
                EvalOutcomeV::Val { value: cv } => {
                    let r2 = sv_eval_args(r1.st, arguments, Seq::empty(), fuel);
                    match r2.r {
                        ArgsOutV::Vals { values } => match cv {
                            ObjectV::Callable { func } => {
                                if values.len() != func.params.len() {
                                    EvRes { st: r2.st, r: EvalOutcomeV::Fault {
                                        error: RuntimeErrorV::InvalidFunctionCall {
                                            token: paren,
                                            message: "Incorrect number of arguments"@,
                                        },
                                    } }
                                } else if fuel == 0 {
                                    EvRes { st: r2.st, r: EvalOutcomeV::Spent }
                                } else {
                                    sv_call(r2.st, func, values, (fuel - 1) as nat)
                                }
                            },
                            _ => EvRes { st: r2.st, r: EvalOutcomeV::Fault {
                                error: RuntimeErrorV::InvalidFunctionCall {
                                    token: paren,
                                    message: "Can only call functions"@,
                                },
                            } },
                        },
                        ArgsOutV::Fault { error } => EvRes {
                            st: r2.st,
                            r: EvalOutcomeV::Fault { error },
                        },
                        ArgsOutV::Spent => EvRes { st: r2.st, r: EvalOutcomeV::Spent },
                    }
                },
                _ => r1,
            }
        },
    }
}

/// Evaluation of an argument list, left to right, onto the values
/// collected so far.
#[verifier::opaque]
pub open spec fn sv_eval_args(st: StV, args: Seq<ExprV>, acc: Seq<ObjectV>, fuel: nat) -> AgRes
    decreases fuel, esizes(args), 1int,
{
    if args.len() == 0 {
        AgRes { st, r: ArgsOutV::Vals { values: acc } }
    } else {
        let r1 = sv_eval(st, args[0], fuel);
        match r1.r {
            EvalOutcomeV::Val { value } => sv_eval_args(
                r1.st,
                args.subrange(1, args.len() as int),
                acc.push(value),
                fuel,
            ),
            EvalOutcomeV::Fault { error } => AgRes { st: r1.st, r: ArgsOutV::Fault { error } },
            EvalOutcomeV::Spent => AgRes { st: r1.st, r: ArgsOutV::Spent },
        }
    }
}

/// A call: a fresh scope under the function's captured scope binds the
/// parameters, the body runs there, the caller's scope is restored on
/// every outcome, and the `Return` signal is consumed here — a body
/// that falls through yields `Null`.
#[verifier::opaque]
pub open spec fn sv_call(st: StV, f: FunctionV, args: Seq<ObjectV>, fuel: nat) -> EvRes
    decreases fuel, fsize(f), 1int,
{
    let ns = ScopeV { parent: Some(f.closure), entries: bind_params(f.params, args) };
    let st2 = StV { scopes: st.scopes.push(ns), cur: st.scopes.len() as int, output: st.output };
    let r = sv_exec_seq(st2, f.body, fuel);
    let st3 = StV { scopes: r.st.scopes, cur: st.cur, output: r.st.output };
    match r.r {
        ExecOutcomeV::Done => EvRes { st: st3, r: EvalOutcomeV::Val { value: ObjectV::Null } },
        ExecOutcomeV::Fault { error } => match error {
            RuntimeErrorV::Return { value } => EvRes {
                st: st3,
                r: EvalOutcomeV::Val { value },
            },
            _ => EvRes { st: st3, r: EvalOutcomeV::Fault { error } },
        },
        ExecOutcomeV::Spent => EvRes { st: st3, r: EvalOutcomeV::Spent },
    }
}

/// Execution of one statement.
#[verifier::opaque]
pub open spec fn sv_exec(st: StV, s: StmtV, fuel: nat) -> SxRes
    decreases fuel, ssize(s), 1int,
{
    match s {
        StmtV::Expression { expr } => {
            let r = sv_eval(st, expr, fuel);
            match r.r {
                EvalOutcomeV::Val { value } => SxRes { st: r.st, r: ExecOutcomeV::Done },
                EvalOutcomeV::Fault { error } => SxRes {
                    st: r.st,
                    r: ExecOutcomeV::Fault { error },
                },
                EvalOutcomeV::Spent => SxRes { st: r.st, r: ExecOutcomeV::Spent },
            }
        },
        StmtV::Print { expr } => {
            let r = sv_eval(st, expr, fuel);
            match r.r {
                EvalOutcomeV::Val { value } => SxRes {
                    st: StV {
                        scopes: r.st.scopes,
                        cur: r.st.cur,
                        output: r.st.output.push(value),
                    },
                    r: ExecOutcomeV::Done,
                },
                EvalOutcomeV::Fault { error } => SxRes {
                    st: r.st,
                    r: ExecOutcomeV::Fault { error },
                },
                EvalOutcomeV::Spent => SxRes { st: r.st, r: ExecOutcomeV::Spent },
            }
        },
        StmtV::Var { name, initializer } => {
            let r = match initializer {
                Some(e) => sv_eval(st, e, fuel),
                None => EvRes { st, r: EvalOutcomeV::Val { value: ObjectV::Null } },
            };
            match r.r {
                EvalOutcomeV::Val { value } => {
                    if 0 <= r.st.cur < r.st.scopes.len() {
                        let sc = r.st.scopes[r.st.cur];
                        let sc2 = ScopeV {
                            parent: sc.parent,
                            entries: sc.entries.push((name.lexeme, value)),
                        };
                        SxRes {
                            st: StV {
                                scopes: r.st.scopes.update(r.st.cur, sc2),
                                cur: r.st.cur,
                                output: r.st.output,
                            },
                            r: ExecOutcomeV::Done,
                        }
                    } else {
                        SxRes { st: r.st, r: ExecOutcomeV::Done }
                    }
                },
                EvalOutcomeV::Fault { error } => SxRes {
                    st: r.st,
                    r: ExecOutcomeV::Fault { error },
                },
                EvalOutcomeV::Spent => SxRes { st: r.st, r: ExecOutcomeV::Spent },
            }
        },
        StmtV::Function { name, params, stmts } => {
            if 0 <= st.cur < st.scopes.len() {
                let func = FunctionV {
                    name,
                    params,
                    body: stmts,
                    closure: st.cur as usize,
                };
                let sc = st.scopes[st.cur];
                let sc2 = ScopeV {
                    parent: sc.parent,
                    entries: sc.entries.push(
                        (name.lexeme, ObjectV::Callable { func }),
                    ),
                };
                SxRes {
                    st: StV {
                        scopes: st.scopes.update(st.cur, sc2),
                        cur: st.cur,
                        output: st.output,
                    },
                    r: ExecOutcomeV::Done,
                }
            } else {
                SxRes { st, r: ExecOutcomeV::Done }
            }
        },
        StmtV::Block { stmts } => {
            let ns = ScopeV { parent: Some(st.cur as usize), entries: Seq::empty() };
            let st2 = StV {
                scopes: st.scopes.push(ns),
                cur: st.scopes.len() as int,
                output: st.output,
            };
            let r = sv_exec_seq(st2, stmts, fuel);
            SxRes {
                st: StV { scopes: r.st.scopes, cur: st.cur, output: r.st.output },
                r: r.r,
            }
        },
        StmtV::If { condition, then_branch, else_branch } => {
            let r = sv_eval(st, condition, fuel);
            match r.r {
                EvalOutcomeV::Val { value } => {
                    if truthy(value) {
                        sv_exec(r.st, *then_branch, fuel)
                    } else {
                        match else_branch {
                            Some(eb) => sv_exec(r.st, *eb, fuel),
                            None => SxRes { st: r.st, r: ExecOutcomeV::Done },
                        }
                    }
                },
                EvalOutcomeV::Fault { error } => SxRes {
                    st: r.st,
                    r: ExecOutcomeV::Fault { error },
                },
                EvalOutcomeV::Spent => SxRes { st: r.st, r: ExecOutcomeV::Spent },
            }
        },
        StmtV::While { condition, body } => sv_while(st, s, fuel),
        StmtV::Return { keyword, value } => {
            let r = match value {
                Some(e) => sv_eval(st, e, fuel),
                None => EvRes { st, r: EvalOutcomeV::Val { value: ObjectV::Null } },
            };
            match r.r {
                EvalOutcomeV::Val { value: v } => SxRes {
                    st: r.st,
                    r: ExecOutcomeV::Fault { error: RuntimeErrorV::Return { value: v } },
                },
                EvalOutcomeV::Fault { error } => SxRes {
                    st: r.st,
                    r: ExecOutcomeV::Fault { error },
                },
                EvalOutcomeV::Spent => SxRes { st: r.st, r: ExecOutcomeV::Spent },
            }
        },
        StmtV::Class { name, methods } => SxRes {
            st,
            r: ExecOutcomeV::Fault {
                error: RuntimeErrorV::InvalidFunctionCall {
                    token: name,
                    message: "Class declarations are not supported at run time"@,
                },
            },
        },
    }
}

/// A `while` loop: the condition is evaluated fresh before every
/// iteration, and each iteration costs one unit of fuel.
#[verifier::opaque]
pub open spec fn sv_while(st: StV, s: StmtV, fuel: nat) -> SxRes
    decreases fuel, ssize(s), 0int,
{
    match s {
        StmtV::While { condition, body } => {
            let r = sv_eval(st, condition, fuel);
            match r.r {
                EvalOutcomeV::Val { value } => {
                    if !truthy(value) {
                        SxRes { st: r.st, r: ExecOutcomeV::Done }
                    } else {
                        let r2 = sv_exec(r.st, *body, fuel);
                        match r2.r {
                            ExecOutcomeV::Done => {
                                if fuel == 0 {
                                    SxRes { st: r2.st, r: ExecOutcomeV::Spent }
                                } else {
                                    sv_while(r2.st, s, (fuel - 1) as nat)
                                }
                            },
                            _ => r2,
                        }
                    }
                },
                EvalOutcomeV::Fault { error } => SxRes {
                    st: r.st,
                    r: ExecOutcomeV::Fault { error },
                },
                EvalOutcomeV::Spent => SxRes { st: r.st, r: ExecOutcomeV::Spent },
            }
        },
        _ => SxRes { st, r: ExecOutcomeV::Done },
    }
}

/// Execution of a statement list, in order, stopping at the first
/// outcome that is not completion.
#[verifier::opaque]
pub open spec fn sv_exec_seq(st: StV, ss: Seq<StmtV>, fuel: nat) -> SxRes
    decreases fuel, ssizes(ss), 1int,
{
    if ss.len() == 0 {
        SxRes { st, r: ExecOutcomeV::Done }
    } else {
        let r = sv_exec(st, ss[0], fuel);
        match r.r {
            ExecOutcomeV::Done => sv_exec_seq(r.st, ss.subrange(1, ss.len() as int), fuel),
            _ => r,
        }
    }
}

/// The interpreter.  `scopes` is the arena; `scope` the current scope
/// index; `output` the values printed so far, for the caller to render.
pub struct Interpreter {
    pub globals: usize,
    scope: usize,
    scopes: Vec<Scope>,
    pub output: Vec<Object>,
}

impl Interpreter {
    /// The current scope always lies inside the arena.
    pub closed spec fn wf_i(&self) -> bool {
        (self.scope as int) < self.scopes@.len()
    }

    /// The abstract state.
    pub closed spec fn stv(&self) -> StV {
        StV {
            scopes: scopes_dv(self.scopes@),
            cur: self.scope as int,
            output: objs_dv(self.output@),
        }
    }

    pub fn new() -> (r: Interpreter)
        ensures
            r.wf_i(),
            r.stv() == (StV {
                scopes: seq![
                    ScopeV { parent: None, entries: Seq::empty() },
                    ScopeV { parent: None, entries: Seq::empty() },
                ],
                cur: 1int,
                output: Seq::<ObjectV>::empty(),
            }),
    {
        let mut scopes: Vec<Scope> = Vec::new();
        scopes.push(Scope::new());
        scopes.push(Scope::new());
        let r = Interpreter { globals: 0, scope: 1, scopes, output: Vec::new() };
        proof {
            lemma_scopes_dv(r.scopes@);
            assert(scopes_dv(r.scopes@) =~= seq![
                ScopeV { parent: None, entries: Seq::empty() },
                ScopeV { parent: None, entries: Seq::empty() },
            ]);
            assert(objs_dv(r.output@) =~= Seq::<ObjectV>::empty());
        }
        r
    }

    /// Truthiness of a value, as `truthy` states it.
    pub fn check_truthy(&self, object: Object) -> (r: bool)
        ensures
            r == truthy(object.deep_view()),
    {
        match object {
            Object::Boolean { value } => value,
            Object::Null => false,
            _ => true,
        }
    }

    /// Structural equality of two values, as `obj_eq` states it.
    pub fn check_equality(&self, left: &Object, right: &Object) -> (r: bool)
        ensures
            r == obj_eq(left.deep_view(), right.deep_view()),
    {
        left.equals(right)
    }

    /// The value bound to a name, searched from the given scope
    /// outwards, as `sv_lookup` states it; an unbound name is an
    /// `UndefinedVariable` fault.
    pub fn get(&self, scope: usize, name: &Token) -> (r: Result<Object, RuntimeError>)
        ensures
            match r {
                Ok(v) => sv_lookup(self.stv().scopes, scope as int, name.lexeme@) == Some(
                    v.deep_view(),
                ),
                Err(e) => sv_lookup(self.stv().scopes, scope as int, name.lexeme@) is None
                    && e.deep_view() == (RuntimeErrorV::UndefinedVariable {
                    token: name.deep_view(),
                }),
            },
    {
        proof {
            lemma_scopes_dv(self.scopes@);
        }
        let mut i: usize = scope;
        let ghost sv = scopes_dv(self.scopes@);
        if i >= self.scopes.len() {
            return Err(RuntimeError::UndefinedVariable { token: name.clone() });
        }
        loop
            invariant
                i < self.scopes@.len(),
                sv == scopes_dv(self.scopes@),
                sv.len() == self.scopes@.len(),
                forall|j: int| 0 <= j < sv.len() ==> sv[j] == self.scopes@[j].deep_view(),
                sv_lookup(sv, scope as int, name.lexeme@) == sv_lookup(sv, i as int, name.lexeme@),
            decreases i,
        {
            match self.scopes[i].lookup(&name.lexeme) {
                Some(v) => {
                    return Ok(v);
                },
                None => {
                    match self.scopes[i].parent {
                        Some(p) => {
                            if p < i {
                                i = p;
                            } else {
                                return Err(
                                    RuntimeError::UndefinedVariable { token: name.clone() },
                                );
                            }
                        },
                        None => {
                            return Err(RuntimeError::UndefinedVariable { token: name.clone() });
                        },
                    }
                },
            }
        }
    }

    /// Assign to a name, mutating the nearest scope in the chain that
    /// binds it, as `sv_assign` states it; an unbound name changes
    /// nothing and is an `UndefinedVariable` fault.
    pub fn assign(&mut self, scope: usize, name: &Token, value: Object) -> (r: Result<
        (),
        RuntimeError,
    >)
        ensures
            final(self).wf_i() == old(self).wf_i(),
            final(self).stv().cur == old(self).stv().cur,
            final(self).stv().output == old(self).stv().output,
            final(self).stv().scopes.len() == old(self).stv().scopes.len(),
            match r {
                Ok(_) => sv_assign(
                    old(self).stv().scopes,
                    scope as int,
                    name.lexeme@,
                    value.deep_view(),
                ) == Some(final(self).stv().scopes),
                Err(e) => {
                    &&& sv_assign(
                        old(self).stv().scopes,
                        scope as int,
                        name.lexeme@,
                        value.deep_view(),
                    ) is None
                    &&& final(self).stv().scopes == old(self).stv().scopes
                    &&& e.deep_view() == (RuntimeErrorV::UndefinedVariable {
                        token: name.deep_view(),
                    })
                },
            },
    {
        proof {
            lemma_scopes_dv(self.scopes@);
        }
        let ghost sv = scopes_dv(self.scopes@);
        let mut i: usize = scope;
        if i >= self.scopes.len() {
            return Err(RuntimeError::UndefinedVariable { token: name.clone() });
        }
        loop
            invariant
                i < self.scopes@.len(),
                self.scopes@ == old(self).scopes@,
                self.scope == old(self).scope,
                self.output@ == old(self).output@,
                sv == scopes_dv(self.scopes@),
                sv.len() == self.scopes@.len(),
                forall|j: int| 0 <= j < sv.len() ==> sv[j] == self.scopes@[j].deep_view(),
                sv_assign(sv, scope as int, name.lexeme@, value.deep_view()) == sv_assign(
                    sv,
                    i as int,
                    name.lexeme@,
                    value.deep_view(),
                ),
            decreases i,
        {
            let found = match self.scopes[i].lookup(&name.lexeme) {
                Some(_) => true,
                None => false,
            };
            if found {
                let nm = name.lexeme.clone();
                let ghost pre = self.scopes@;
                let sc: &mut Scope = &mut self.scopes[i];
                sc.define(nm, value);
                proof {
                    lemma_scopes_dv_update(pre, i as int, self.scopes@[i as int]);
                    assert(self.scopes@ =~= pre.update(i as int, self.scopes@[i as int]));
                }
                return Ok(());
            }
            match self.scopes[i].parent {
                Some(p) => {
                    if p < i {
                        i = p;
                    } else {
                        return Err(RuntimeError::UndefinedVariable { token: name.clone() });
                    }
                },
                None => {
                    return Err(RuntimeError::UndefinedVariable { token: name.clone() });
                },
            }
        }
    }
}

} // verus!

verus! {

/// What evaluating an argument list yields, executably.
#[derive(Debug)]
pub enum ArgsOutcome {
    Vals { values: Vec<Object> },
    Fault { error: RuntimeError },
    Spent,
}

impl DeepView for ArgsOutcome {
    type V = ArgsOutV;

    open spec fn deep_view(&self) -> ArgsOutV {
        match self {
            ArgsOutcome::Vals { values } => ArgsOutV::Vals { values: objs_dv(values@) },
            ArgsOutcome::Fault { error } => ArgsOutV::Fault { error: error.deep_view() },
            ArgsOutcome::Spent => ArgsOutV::Spent,
        }
    }
}

impl Interpreter {
    /// What a literal token evaluates to, as `literal_value_v` states
    /// it.
    fn literal_value(&self, token: &Token) -> (r: Result<Object, RuntimeError>)
        ensures
            match r {
                Ok(v) => literal_value_v(token.deep_view()) == Ok::<ObjectV, RuntimeErrorV>(
                    v.deep_view(),
                ),
                Err(e) => literal_value_v(token.deep_view()) == Err::<ObjectV, RuntimeErrorV>(
                    e.deep_view(),
                ),
            },
    {
        match token.token_type {
            TokenType::NUMBER => match num_parse(token.lexeme.as_str()) {
                Some(b) => Ok(Object::Number { bits: b }),
                None => Err(
                    RuntimeError::InvalidLiteral { token: token.clone(), message: "".to_owned() },
                ),
            },
            TokenType::STRING => Ok(Object::Str { text: token.lexeme.clone() }),
            TokenType::TRUE => Ok(Object::Boolean { value: true }),
            TokenType::FALSE => Ok(Object::Boolean { value: false }),
            TokenType::NULL => Ok(Object::Null),
            _ => Err(
                RuntimeError::InvalidLiteral { token: token.clone(), message: "".to_owned() },
            ),
        }
    }

    /// What a unary operator does to an evaluated operand, as
    /// `apply_unary_v` states it.
    fn apply_unary(&self, op: &Token, value: Object) -> (r: Result<Object, RuntimeError>)
        ensures
            match r {
                Ok(v) => apply_unary_v(op.deep_view(), value.deep_view()) == Ok::<
                    ObjectV,
                    RuntimeErrorV,
                >(v.deep_view()),
                Err(e) => apply_unary_v(op.deep_view(), value.deep_view()) == Err::<
                    ObjectV,
                    RuntimeErrorV,
                >(e.deep_view()),
            },
    {
        match op.token_type {
            TokenType::MINUS => match value {
                Object::Number { bits } => Ok(Object::Number { bits: num_neg(bits) }),
                _ => Err(
                    RuntimeError::InvalidUnaryOperation {
                        token: op.clone(),
                        message: "Operator can only be used on numbers".to_owned(),
                    },
                ),
            },
            TokenType::BANG => {
                let t = self.check_truthy(value);
                Ok(Object::Boolean { value: !t })
            },
            _ => Err(
                RuntimeError::InvalidUnaryOperation {
                    token: op.clone(),
                    message: "".to_owned(),
                },
            ),
        }
    }

    /// What a binary operator does to two evaluated operands, as
    /// `apply_binary_v` states it.
    #[verifier::rlimit(100)]
    fn apply_binary(&self, op: &Token, left: Object, right: Object) -> (r: Result<
        Object,
        RuntimeError,
    >)
        ensures
            match r {
                Ok(v) => apply_binary_v(op.deep_view(), left.deep_view(), right.deep_view())
                    == Ok::<ObjectV, RuntimeErrorV>(v.deep_view()),
                Err(e) => apply_binary_v(op.deep_view(), left.deep_view(), right.deep_view())
                    == Err::<ObjectV, RuntimeErrorV>(e.deep_view()),
            },
    {
        match op.token_type {
            TokenType::AND => {
                if !self.check_truthy(left) {
                    Ok(Object::Boolean { value: false })
                } else {
                    Ok(Object::Boolean { value: self.check_truthy(right) })
                }
            },
            TokenType::OR => {
                if self.check_truthy(left) {
                    Ok(Object::Boolean { value: true })
                } else {
                    Ok(Object::Boolean { value: self.check_truthy(right) })
                }
            },
            TokenType::MINUS => match (left, right) {
                (Object::Number { bits: a }, Object::Number { bits: b }) => Ok(
                    Object::Number { bits: num_sub(a, b) },
                ),
                _ => Err(
                    RuntimeError::InvalidBinaryOperation {
                        token: op.clone(),
                        message: "Operator can only be used on numbers".to_owned(),
                    },
                ),
            },
            TokenType::PLUS => match (left, right) {
                (Object::Number { bits: a }, Object::Number { bits: b }) => Ok(
                    Object::Number { bits: num_add(a, b) },
                ),
                (Object::Str { text: a }, Object::Str { text: b }) => Ok(
                    Object::Str { text: a.concat(b.as_str()) },
                ),
                _ => Err(
                    RuntimeError::InvalidBinaryOperation {
                        token: op.clone(),
                        message: "Operator can only be used on numbers or strings".to_owned(),
                    },
                ),
            },
            TokenType::GREATER => match (left, right) {
                (Object::Number { bits: a }, Object::Number { bits: b }) => Ok(
                    Object::Boolean { value: num_lt(b, a) },
                ),
                _ => Err(
                    RuntimeError::InvalidBinaryOperation {
                        token: op.clone(),
                        message: "Operator can only be used on numbers".to_owned(),
                    },
                ),
            },
            TokenType::GREATER_EQUAL => match (left, right) {
                (Object::Number { bits: a }, Object::Number { bits: b }) => Ok(
                    Object::Boolean { value: num_le(b, a) },
                ),
                _ => Err(
                    RuntimeError::InvalidBinaryOperation {
                        token: op.clone(),
                        message: "Operator can only be used on numbers".to_owned(),
                    },
                ),
            },
            TokenType::LESS => match (left, right) {
                (Object::Number { bits: a }, Object::Number { bits: b }) => Ok(
                    Object::Boolean { value: num_lt(a, b) },
                ),
                _ => Err(
                    RuntimeError::InvalidBinaryOperation {
                        token: op.clone(),
                        message: "Operator can only be used on numbers".to_owned(),
                    },
                ),
            },
            TokenType::LESS_EQUAL => match (left, right) {
                (Object::Number { bits: a }, Object::Number { bits: b }) => Ok(
                    Object::Boolean { value: num_le(a, b) },
                ),
                _ => Err(
                    RuntimeError::InvalidBinaryOperation {
                        token: op.clone(),
                        message: "Operator can only be used on numbers".to_owned(),
                    },
                ),
            },
            TokenType::SLASH => match (left, right) {
                (Object::Number { bits: a }, Object::Number { bits: b }) => Ok(
                    Object::Number { bits: num_div(a, b) },
                ),
                _ => Err(
                    RuntimeError::InvalidBinaryOperation {
                        token: op.clone(),
                        message: "Operator can only be used on numbers".to_owned(),
                    },
                ),
            },
            TokenType::STAR => match (left, right) {
                (Object::Number { bits: a }, Object::Number { bits: b }) => Ok(
                    Object::Number { bits: num_mul(a, b) },
                ),
                _ => Err(
                    RuntimeError::InvalidBinaryOperation {
                        token: op.clone(),
                        message: "Operator can only be used on numbers".to_owned(),
                    },
                ),
            },
            TokenType::EQUAL_EQUAL => {
                let e = self.check_equality(&left, &right);
                Ok(Object::Boolean { value: e })
            },
            TokenType::BANG_EQUAL => {
                let e = self.check_equality(&left, &right);
                Ok(Object::Boolean { value: !e })
            },
            _ => Err(
                RuntimeError::InvalidBinaryOperation {
                    token: op.clone(),
                    message: "".to_owned(),
                },
            ),
        }
    }

    /// Evaluate one expression, exactly as `sv_eval` describes it.
    #[verifier::rlimit(100)]
    #[verifier::spinoff_prover]
    pub fn evaluate(&mut self, expr: &Expr, fuel: u64) -> (r: EvalOutcome)
        requires
            old(self).wf_i(),
        ensures
            final(self).wf_i(),
            final(self).stv().scopes.len() >= old(self).stv().scopes.len(),
            ({
                let o = sv_eval(old(self).stv(), expr.deep_view(), fuel as nat);
                &&& final(self).stv() == o.st
                &&& r.deep_view() == o.r
            }),
        decreases fuel, esize(expr.deep_view()), 1int,
    {
        proof {
            reveal(sv_eval);
            lemma_scopes_dv(self.scopes@);
        }
        match expr {
            Expr::Literal { token } => match self.literal_value(token) {
                Ok(v) => EvalOutcome::Val { value: v },
                Err(e) => EvalOutcome::Fault { error: e },
            },
            Expr::Grouping { inner } => self.evaluate(&**inner, fuel),
            Expr::Unary { op, operand } => {
                let r1 = self.evaluate(&**operand, fuel);
                match r1 {
                    EvalOutcome::Val { value } => match self.apply_unary(op, value) {
                        Ok(v) => EvalOutcome::Val { value: v },
                        Err(e) => EvalOutcome::Fault { error: e },
                    },
                    other => other,
                }
            },
            Expr::Binary { op, left, right } => {
                let r1 = self.evaluate(&**right, fuel);
                match r1 {
                    EvalOutcome::Val { value: rv } => {
                        let r2 = self.evaluate(&**left, fuel);
                        match r2 {
                            EvalOutcome::Val { value: lv } => match self.apply_binary(
                                op,
                                lv,
                                rv,
                            ) {
                                Ok(v) => EvalOutcome::Val { value: v },
                                Err(e) => EvalOutcome::Fault { error: e },
                            },
                            other => other,
                        }
                    },
                    other => other,
                }
            },
            Expr::Logical { op, left, right } => {
                let r1 = self.evaluate(&**left, fuel);
                match r1 {
                    EvalOutcome::Val { value: lv } => {
                        if op.token_type == TokenType::AND {
                            if !self.check_truthy(lv) {
                                EvalOutcome::Val { value: Object::Boolean { value: false } }
                            } else {
                                let r2 = self.evaluate(&**right, fuel);
                                match r2 {
                                    EvalOutcome::Val { value: rv } => {
                                        let t = self.check_truthy(rv);
                                        EvalOutcome::Val {
                                            value: Object::Boolean { value: t },
                                        }
                                    },
                                    other => other,
                                }
                            }
                        } else if op.token_type == TokenType::OR {
                            if self.check_truthy(lv) {
                                EvalOutcome::Val { value: Object::Boolean { value: true } }
                            } else {
                                let r2 = self.evaluate(&**right, fuel);
                                match r2 {
                                    EvalOutcome::Val { value: rv } => {
                                        let t = self.check_truthy(rv);
                                        EvalOutcome::Val {
                                            value: Object::Boolean { value: t },
                                        }
                                    },
                                    other => other,
                                }
                            }
                        } else {
                            EvalOutcome::Fault {
                                error: RuntimeError::InvalidLogicalOperation {
                                    token: op.clone(),
                                    message: "".to_owned(),
                                },
                            }
                        }
                    },
                    other => other,
                }
            },
            Expr::Variable { name } => {
                let cur = self.scope;
                match self.get(cur, name) {
                    Ok(v) => EvalOutcome::Val { value: v },
                    Err(e) => EvalOutcome::Fault { error: e },
                }
            },
            Expr::Assign { name, value } => {
                let r1 = self.evaluate(&**value, fuel);
                match r1 {
                    EvalOutcome::Val { value: v } => {
                        let cur = self.scope;
                        match self.assign(cur, name, v.clone()) {
                            Ok(_) => EvalOutcome::Val { value: v },
                            Err(e) => EvalOutcome::Fault { error: e },
                        }
                    },
                    other => other,
                }
            },
            Expr::Call { callee, paren, arguments } => {
                let r1 = self.evaluate(&**callee, fuel);
                match r1 {
                    EvalOutcome::Val { value: cv } => {
                        proof {
                            assert(objs_dv(Seq::<Object>::empty()) =~= Seq::<ObjectV>::empty());
                            assert(exprs_dv(arguments@).subrange(
                                0,
                                exprs_dv(arguments@).len() as int,
                            ) =~= exprs_dv(arguments@));
                        }
                        let r2 = self.evaluate_args(arguments, 0, Vec::new(), fuel);
                        match r2 {
                            ArgsOutcome::Vals { values } => match cv {
                                Object::Callable { func } => {
                                    proof {
                                        crate::token::lemma_tokens_dv(func.params@);
                                        lemma_objs_dv_len(values@);
                                    }
                                    if values.len() != func.arity() {
                                        EvalOutcome::Fault {
                                            error: RuntimeError::InvalidFunctionCall {
                                                token: paren.clone(),
                                                message:
                                                    "Incorrect number of arguments".to_owned(),
                                            },
                                        }
                                    } else if fuel == 0 {
                                        EvalOutcome::Spent
                                    } else {
                                        func.call(self, values, fuel - 1)
                                    }
                                },
                                _ => EvalOutcome::Fault {
                                    error: RuntimeError::InvalidFunctionCall {
                                        token: paren.clone(),
                                        message: "Can only call functions".to_owned(),
                                    },
                                },
                            },
                            ArgsOutcome::Fault { error } => EvalOutcome::Fault { error },
                            ArgsOutcome::Spent => EvalOutcome::Spent,
                        }
                    },
                    other => other,
                }
            },
        }
    }

    /// Evaluate the rest of an argument list onto the values collected
    /// so far, exactly as `sv_eval_args` describes it.
    #[verifier::rlimit(100)]
    #[verifier::spinoff_prover]
    fn evaluate_args(&mut self, args: &Vec<Expr>, i: usize, acc: Vec<Object>, fuel: u64) -> (r:
        ArgsOutcome)
        requires
            old(self).wf_i(),
            i <= args@.len(),
        ensures
            final(self).wf_i(),
            final(self).stv().scopes.len() >= old(self).stv().scopes.len(),
            ({
                let o = sv_eval_args(
                    old(self).stv(),
                    exprs_dv(args@).subrange(i as int, exprs_dv(args@).len() as int),
                    objs_dv(acc@),
                    fuel as nat,
                );
                &&& final(self).stv() == o.st
                &&& r.deep_view() == o.r
            }),
        decreases fuel, esizes(
            exprs_dv(args@).subrange(i as int, exprs_dv(args@).len() as int),
        ), 1int,
    {
        proof {
            reveal(sv_eval_args);
            crate::ast::expr::lemma_exprs_dv(args@);
            lemma_scopes_dv(self.scopes@);
        }
        let ghost rem = exprs_dv(args@).subrange(i as int, exprs_dv(args@).len() as int);
        if i == args.len() {
            proof {
                assert(rem.len() == 0);
            }
            ArgsOutcome::Vals { values: acc }
        } else {
            proof {
                assert(rem[0] == exprs_dv(args@)[i as int]);
            }
            let r1 = self.evaluate(&args[i], fuel);
            match r1 {
                EvalOutcome::Val { value } => {
                    let mut acc2 = acc;
                    proof {
                        lemma_objs_dv_push(acc2@, value);
                    }
                    acc2.push(value);
                    proof {
                        assert(exprs_dv(args@).subrange(
                            i as int + 1,
                            exprs_dv(args@).len() as int,
                        ) =~= rem.subrange(1, rem.len() as int));
                    }
                    self.evaluate_args(args, i + 1, acc2, fuel)
                },
                EvalOutcome::Fault { error } => ArgsOutcome::Fault { error },
                EvalOutcome::Spent => ArgsOutcome::Spent,
            }
        }
    }
}

/// A statement's size is below its sequence's size.
pub proof fn lemma_ssizes_elem(s: Seq<StmtV>, i: int)
    requires
        0 <= i < s.len(),
    ensures
        ssize(s[i]) < ssizes(s),
    decreases i,
{
    if i == 0 {
        assert(ssizes(s) == 1 + ssize(s[0]) + ssizes(s.subrange(1, s.len() as int)));
    } else {
        lemma_ssizes_elem(s.subrange(1, s.len() as int), i - 1);
        assert(s.subrange(1, s.len() as int)[i - 1] == s[i]);
        assert(ssizes(s) == 1 + ssize(s[0]) + ssizes(s.subrange(1, s.len() as int)));
    }
}

/// `objs_dv` keeps the length.
pub proof fn lemma_objs_dv_len(s: Seq<Object>)
    ensures
        objs_dv(s).len() == s.len(),
    decreases s,
{
    if s.len() > 0 {
        lemma_objs_dv_len(s.drop_last());
    }
}


impl Function {
    /// Invoke this function: a fresh scope under the captured scope
    /// binds the parameters to the arguments, the body runs there, and
    /// the caller's scope is restored — exactly as `sv_call` describes
    /// it.
    #[verifier::rlimit(100)]
    #[verifier::spinoff_prover]
    pub fn call(&self, interp: &mut Interpreter, args: Vec<Object>, fuel: u64) -> (r: EvalOutcome)
        requires
            old(interp).wf_i(),
            self.params@.len() == args@.len(),
        ensures
            final(interp).wf_i(),
            final(interp).stv().scopes.len() >= old(interp).stv().scopes.len(),
            ({
                let o = sv_call(old(interp).stv(), self.deep_view(), objs_dv(args@), fuel as nat);
                &&& final(interp).stv() == o.st
                &&& r.deep_view() == o.r
            }),
        decreases fuel, fsize(self.deep_view()), 1int,
    {
        proof {
            reveal(sv_call);
            crate::token::lemma_tokens_dv(self.params@);
            lemma_objs_dv_len(args@);
            lemma_scopes_dv(old(interp).scopes@);
        }
        let mut ns = Scope::from(self.closure);
        let n = if self.params.len() < args.len() {
            self.params.len()
        } else {
            args.len()
        };
        let mut i: usize = 0;
        while i < n
            invariant
                i <= n,
                n == (if self.params@.len() < args@.len() {
                    self.params@.len()
                } else {
                    args@.len()
                }),
                ns.deep_view().parent == Some(self.closure),
                ns.deep_view().entries == bind_params(
                    tokens_dv(self.params@).take(i as int),
                    objs_dv(args@).take(i as int),
                ),
                tokens_dv(self.params@).len() == self.params@.len(),
                objs_dv(args@).len() == args@.len(),
                forall|j: int|
                    0 <= j < self.params@.len() ==> tokens_dv(self.params@)[j]
                        == self.params@[j].deep_view(),
            decreases n - i,
        {
            proof {
                lemma_objs_dv(args@);
                let ps = tokens_dv(self.params@).take(i as int + 1);
                let os = objs_dv(args@).take(i as int + 1);
                assert(ps.drop_last() =~= tokens_dv(self.params@).take(i as int));
                assert(os.drop_last() =~= objs_dv(args@).take(i as int));
                assert(ps.last() == tokens_dv(self.params@)[i as int]);
                assert(os.last() == objs_dv(args@)[i as int]);
            }
            ns.define(self.params[i].lexeme.clone(), args[i].clone());
            i = i + 1;
        }
        proof {
            if self.params@.len() == args@.len() {
                assert(tokens_dv(self.params@).take(n as int) =~= tokens_dv(self.params@));
                assert(objs_dv(args@).take(n as int) =~= objs_dv(args@));
            }
        }
        let ghost pre = interp.stv();
        let newidx = interp.push_scope(ns);
        let prev_r = interp.execute_block(&self.body, newidx, fuel);
        match prev_r {
            ExecOutcome::Done => EvalOutcome::Val { value: Object::Null },
            ExecOutcome::Fault { error } => match error {
                RuntimeError::Return { value } => EvalOutcome::Val { value },
                e => EvalOutcome::Fault { error: e },
            },
            ExecOutcome::Spent => EvalOutcome::Spent,
        }
    }
}

/// `objs_dv` is the element-wise view.
pub proof fn lemma_objs_dv(s: Seq<Object>)
    ensures
        objs_dv(s).len() == s.len(),
        forall|i: int| 0 <= i < s.len() ==> objs_dv(s)[i] == s[i].deep_view(),
    decreases s,
{
    if s.len() > 0 {
        lemma_objs_dv(s.drop_last());
        assert(objs_dv(s) == objs_dv(s.drop_last()).push(s.last().deep_view()));
        assert forall|i: int| 0 <= i < s.len() implies objs_dv(s)[i] == s[i].deep_view() by {
            if i < s.len() - 1 {
                assert(objs_dv(s)[i] == objs_dv(s.drop_last())[i]);
                assert(s.drop_last()[i] == s[i]);
            } else {
                assert(objs_dv(s)[i] == s.last().deep_view());
            }
        }
    }
}

impl Interpreter {
    /// Append a scope to the arena and hand back its index.
    fn push_scope(&mut self, s: Scope) -> (idx: usize)
        requires
            old(self).wf_i(),
        ensures
            final(self).wf_i(),
            final(self).stv() == (StV {
                scopes: old(self).stv().scopes.push(s.deep_view()),
                cur: old(self).stv().cur,
                output: old(self).stv().output,
            }),
            idx as int == old(self).stv().scopes.len(),
    {
        proof {
            lemma_scopes_dv(self.scopes@);
            lemma_scopes_dv_push(self.scopes@, s);
            vstd::std_specs::vec::axiom_spec_len(&self.scopes);
        }
        let idx = self.scopes.len();
        self.scopes.push(s);
        idx
    }

    /// Execute the statements in the given scope, restoring the scope
    /// that was current before: the composition `sv_exec_seq` followed
    /// by the restore in `sv_call` and the `Block` arm of `sv_exec`.
    #[verifier::rlimit(100)]
    #[verifier::spinoff_prover]
    pub fn execute_block(&mut self, stmts: &Vec<Stmt>, scope: usize, fuel: u64) -> (r:
        ExecOutcome)
        requires
            old(self).wf_i(),
            (scope as int) < old(self).stv().scopes.len(),
        ensures
            final(self).wf_i(),
            final(self).stv().scopes.len() >= old(self).stv().scopes.len(),
            ({
                let st2 = StV {
                    scopes: old(self).stv().scopes,
                    cur: scope as int,
                    output: old(self).stv().output,
                };
                let o = sv_exec_seq(st2, stmts_dv(stmts@), fuel as nat);
                &&& final(self).stv() == (StV {
                    scopes: o.st.scopes,
                    cur: old(self).stv().cur,
                    output: o.st.output,
                })
                &&& r.deep_view() == o.r
            }),
        decreases fuel, ssizes(stmts_dv(stmts@)), 2int,
    {
        proof {
            lemma_scopes_dv(self.scopes@);
        }
        let previous = self.scope;
        self.scope = scope;
        let ghost st2 = self.stv();
        proof {
            reveal(sv_exec_seq);
            crate::ast::stmt::lemma_stmts_dv(stmts@);
        }
        let mut i: usize = 0;
        let mut out = ExecOutcome::Done;
        let mut stopped = false;
        proof {
            assert(stmts_dv(stmts@).subrange(0, stmts_dv(stmts@).len() as int) =~= stmts_dv(
                stmts@,
            ));
        }
        while !stopped && i < stmts.len()
            invariant
                self.wf_i(),
                i <= stmts@.len(),
                self.stv().scopes.len() >= st2.scopes.len(),
                stmts_dv(stmts@).len() == stmts@.len(),
                forall|j: int|
                    0 <= j < stmts@.len() ==> stmts_dv(stmts@)[j] == stmts@[j].deep_view(),
                !stopped ==> out.deep_view() == ExecOutcomeV::Done,
                !stopped ==> sv_exec_seq(st2, stmts_dv(stmts@), fuel as nat) == sv_exec_seq(
                    self.stv(),
                    stmts_dv(stmts@).subrange(i as int, stmts_dv(stmts@).len() as int),
                    fuel as nat,
                ),
                stopped ==> sv_exec_seq(st2, stmts_dv(stmts@), fuel as nat) == (SxRes {
                    st: self.stv(),
                    r: out.deep_view(),
                }),
            decreases stmts@.len() - i, (if stopped {
                0int
            } else {
                1int
            }),
        {
            proof {
                reveal(sv_exec_seq);
            }
            let ghost rem = stmts_dv(stmts@).subrange(i as int, stmts_dv(stmts@).len() as int);
            proof {
                assert(rem[0] == stmts_dv(stmts@)[i as int]);
                lemma_ssizes_elem(stmts_dv(stmts@), i as int);
            }
            let r = self.execute(&stmts[i], fuel);
            match r {
                ExecOutcome::Done => {
                    proof {
                        assert(stmts_dv(stmts@).subrange(
                            i as int + 1,
                            stmts_dv(stmts@).len() as int,
                        ) =~= rem.subrange(1, rem.len() as int));
                    }
                    i = i + 1;
                },
                other => {
                    out = other;
                    stopped = true;
                },
            }
        }
        proof {
            reveal(sv_exec_seq);
            if !stopped {
                let rem = stmts_dv(stmts@).subrange(i as int, stmts_dv(stmts@).len() as int);
                assert(rem.len() == 0);
            }
        }
        proof {
            lemma_scopes_dv(self.scopes@);
        }
        self.scope = previous;
        out
    }

    /// Execute one statement, exactly as `sv_exec` describes it.
    #[verifier::rlimit(100)]
    #[verifier::spinoff_prover]
    pub fn execute(&mut self, stmt: &Stmt, fuel: u64) -> (r: ExecOutcome)
        requires
            old(self).wf_i(),
        ensures
            final(self).wf_i(),
            final(self).stv().scopes.len() >= old(self).stv().scopes.len(),
            ({
                let o = sv_exec(old(self).stv(), stmt.deep_view(), fuel as nat);
                &&& final(self).stv() == o.st
                &&& r.deep_view() == o.r
            }),
        decreases fuel, ssize(stmt.deep_view()), 1int,
    {
        proof {
            reveal(sv_exec);
            lemma_scopes_dv(self.scopes@);
        }
        match stmt {
            Stmt::Expression { expr } => {
                let r = self.evaluate(expr, fuel);
                match r {
                    EvalOutcome::Val { value } => ExecOutcome::Done,
                    EvalOutcome::Fault { error } => ExecOutcome::Fault { error },
                    EvalOutcome::Spent => ExecOutcome::Spent,
                }
            },
            Stmt::Print { expr } => {
                let r = self.evaluate(expr, fuel);
                match r {
                    EvalOutcome::Val { value } => {
                        proof {
                            lemma_objs_dv_push(self.output@, value);
                        }
                        self.output.push(value);
                        ExecOutcome::Done
                    },
                    EvalOutcome::Fault { error } => ExecOutcome::Fault { error },
                    EvalOutcome::Spent => ExecOutcome::Spent,
                }
            },
            Stmt::Var { name, initializer } => {
                let r = match initializer {
                    Some(e) => self.evaluate(e, fuel),
                    None => EvalOutcome::Val { value: Object::Null },
                };
                match r {
                    EvalOutcome::Val { value } => {
                        let cur = self.scope;
                        let ghost pre = self.scopes@;
                        proof {
                            lemma_scopes_dv(self.scopes@);
                        }
                        let nm = name.lexeme.clone();
                        let sc: &mut Scope = &mut self.scopes[cur];
                        sc.define(nm, value);
                        proof {
                            lemma_scopes_dv_update(pre, cur as int, self.scopes@[cur as int]);
                            assert(self.scopes@ =~= pre.update(
                                cur as int,
                                self.scopes@.index(cur as int),
                            ));
                        }
                        ExecOutcome::Done
                    },
                    EvalOutcome::Fault { error } => ExecOutcome::Fault { error },
                    EvalOutcome::Spent => ExecOutcome::Spent,
                }
            },
            Stmt::Function { name, params, stmts } => {
                let cur = self.scope;
                let func = Function::new(
                    name.clone(),
                    crate::token::clone_tokens(params),
                    crate::ast::stmt::clone_stmts(stmts),
                    cur,
                );
                let ghost pre = self.scopes@;
                proof {
                    lemma_scopes_dv(self.scopes@);
                }
                let nm = name.lexeme.clone();
                let value = Object::Callable { func };
                let sc: &mut Scope = &mut self.scopes[cur];
                sc.define(nm, value);
                proof {
                    lemma_scopes_dv_update(pre, cur as int, self.scopes@[cur as int]);
                    assert(self.scopes@ =~= pre.update(cur as int, self.scopes@[cur as int]));
                }
                ExecOutcome::Done
            },
            Stmt::Block { stmts } => {
                let cur = self.scope;
                let ns = Scope::from(cur);
                let newidx = self.push_scope(ns);
                self.execute_block(stmts, newidx, fuel)
            },
            Stmt::If { condition, then_branch, else_branch } => {
                let r = self.evaluate(condition, fuel);
                match r {
                    EvalOutcome::Val { value } => {
                        if self.check_truthy(value) {
                            self.execute(&**then_branch, fuel)
                        } else {
                            match else_branch {
                                Some(eb) => self.execute(&**eb, fuel),
                                None => ExecOutcome::Done,
                            }
                        }
                    },
                    EvalOutcome::Fault { error } => ExecOutcome::Fault { error },
                    EvalOutcome::Spent => ExecOutcome::Spent,
                }
            },
            Stmt::While { condition, body } => {
                proof {
                    reveal(sv_while);
                }
                let ghost sdv = stmt.deep_view();
                let mut fuel_now = fuel;
                loop
                    invariant
                        self.wf_i(),
                        fuel_now <= fuel,
                        stmt.deep_view() == sdv,
                        sdv == stmt.deep_view(),
                        sdv is While,
                        sdv->While_condition == condition.deep_view(),
                        sdv->While_body == Box::new(body.deep_view()),
                        self.stv().scopes.len() >= old(self).stv().scopes.len(),
                        sv_while(old(self).stv(), sdv, fuel as nat) == sv_while(
                            self.stv(),
                            sdv,
                            fuel_now as nat,
                        ),
                    decreases fuel_now,
                {
                    proof {
                        reveal(sv_exec);
                        reveal(sv_while);
                        lemma_scopes_dv(self.scopes@);
                    }
                    let rc = self.evaluate(condition, fuel_now);
                    match rc {
                        EvalOutcome::Val { value } => {
                            if !self.check_truthy(value) {
                                return ExecOutcome::Done;
                            }
                            let rb = self.execute(&**body, fuel_now);
                            match rb {
                                ExecOutcome::Done => {
                                    if fuel_now == 0 {
                                        return ExecOutcome::Spent;
                                    }
                                    fuel_now = fuel_now - 1;
                                },
                                other => {
                                    return other;
                                },
                            }
                        },
                        EvalOutcome::Fault { error } => {
                            return ExecOutcome::Fault { error };
                        },
                        EvalOutcome::Spent => {
                            return ExecOutcome::Spent;
                        },
                    }
                }
            },
            Stmt::Return { keyword, value } => {
                let r = match value {
                    Some(e) => self.evaluate(e, fuel),
                    None => EvalOutcome::Val { value: Object::Null },
                };
                match r {
                    EvalOutcome::Val { value: v } => ExecOutcome::Fault {
                        error: RuntimeError::Return { value: v },
                    },
                    EvalOutcome::Fault { error } => ExecOutcome::Fault { error },
                    EvalOutcome::Spent => ExecOutcome::Spent,
                }
            },
            Stmt::Class { name, methods } => ExecOutcome::Fault {
                error: RuntimeError::InvalidFunctionCall {
                    token: name.clone(),
                    message: "Class declarations are not supported at run time".to_owned(),
                },
            },
        }
    }

    /// Run a program: each top-level statement in order in the current
    /// scope, stopping at the first fault — exactly as `sv_exec_seq`
    /// describes it.
    #[verifier::rlimit(100)]
    #[verifier::spinoff_prover]
    pub fn interpret(&mut self, stmts: &Vec<Stmt>, fuel: u64) -> (r: ExecOutcome)
        requires
            old(self).wf_i(),
        ensures
            final(self).wf_i(),
            ({
                let o = sv_exec_seq(old(self).stv(), stmts_dv(stmts@), fuel as nat);
                &&& final(self).stv() == o.st
                &&& r.deep_view() == o.r
            }),
    {
        let ghost st0 = self.stv();
        proof {
            reveal(sv_exec_seq);
            crate::ast::stmt::lemma_stmts_dv(stmts@);
            lemma_scopes_dv(self.scopes@);
        }
        let mut i: usize = 0;
        proof {
            assert(stmts_dv(stmts@).subrange(0, stmts_dv(stmts@).len() as int) =~= stmts_dv(
                stmts@,
            ));
        }
        while i < stmts.len()
            invariant
                self.wf_i(),
                i <= stmts@.len(),
                stmts_dv(stmts@).len() == stmts@.len(),
                forall|j: int|
                    0 <= j < stmts@.len() ==> stmts_dv(stmts@)[j] == stmts@[j].deep_view(),
                sv_exec_seq(st0, stmts_dv(stmts@), fuel as nat) == sv_exec_seq(
                    self.stv(),
                    stmts_dv(stmts@).subrange(i as int, stmts_dv(stmts@).len() as int),
                    fuel as nat,
                ),
                st0 == old(self).stv(),
            decreases stmts@.len() - i,
        {
            proof {
                reveal(sv_exec_seq);
            }
            let ghost rem = stmts_dv(stmts@).subrange(i as int, stmts_dv(stmts@).len() as int);
            proof {
                assert(rem[0] == stmts_dv(stmts@)[i as int]);
            }
            let r = self.execute(&stmts[i], fuel);
            match r {
                ExecOutcome::Done => {
                    proof {
                        assert(stmts_dv(stmts@).subrange(
                            i as int + 1,
                            stmts_dv(stmts@).len() as int,
                        ) =~= rem.subrange(1, rem.len() as int));
                    }
                    i = i + 1;
                },
                other => {
                    return other;
                },
            }
        }
        proof {
            reveal(sv_exec_seq);
            let rem = stmts_dv(stmts@).subrange(i as int, stmts_dv(stmts@).len() as int);
            assert(rem.len() == 0);
        }
        ExecOutcome::Done
    }
}

} // verus!
