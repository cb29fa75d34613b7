//! The general laws of the pipeline, each proved against the spec
//! functions that the executable code is verified to implement.

use vstd::prelude::*;
use crate::ast::expr::ExprV;
use crate::ast::printer::{p_expr, p_literal};
use crate::ast::stmt::StmtV;
use crate::interpreter::{sv_assign, sv_eval, sv_exec, sv_lookup, truthy, EvRes,
    EvalOutcomeV, StV};
use crate::lexer::{find_from, line_at, newlines, num_end, scan, step, tok, ScanOut};
use crate::object::ObjectV;
use crate::scope::{binding_of, ScopeV};
use crate::text::is_digit;
use crate::token::{TokenType, TokenV};

verus! {

/// The code points of the characters the lexer dispatches on.
proof fn lemma_char_codes()
    ensures
        '(' as u32 == 40,
        ')' as u32 == 41,
        '{' as u32 == 123,
        '}' as u32 == 125,
        '*' as u32 == 42,
        '.' as u32 == 46,
        ',' as u32 == 44,
        '+' as u32 == 43,
        ';' as u32 == 59,
        '-' as u32 == 45,
        '=' as u32 == 61,
        '!' as u32 == 33,
        '>' as u32 == 62,
        '<' as u32 == 60,
        '/' as u32 == 47,
        '"' as u32 == 34,
        ' ' as u32 == 32,
        '\r' as u32 == 13,
        '\t' as u32 == 9,
        '\n' as u32 == 10,
{
}

/// A run of digits holds no decimal point and no newline.
proof fn lemma_digits_plain(s: Seq<char>)
    requires
        forall|i: int| 0 <= i < s.len() ==> is_digit(s[i]),
    ensures
        forall|i: int| 0 <= i < s.len() ==> s[i] != '.' && s[i] != '\n',
{
    assert forall|i: int| 0 <= i < s.len() implies s[i] != '.' && s[i] != '\n' by {
        assert(48 <= s[i] as u32 <= 57);
    }
}

/// Text without newlines counts none.
proof fn lemma_newlines_zero(s: Seq<char>)
    requires
        forall|i: int| 0 <= i < s.len() ==> s[i] != '\n',
    ensures
        newlines(s) == 0,
    decreases s,
{
    if s.len() > 0 {
        lemma_newlines_zero(s.drop_last());
    }
}

/// A numeric literal runs to the end of an all-digit text.
proof fn lemma_num_end_digits(src: Seq<char>, i: int)
    requires
        0 <= i <= src.len(),
        forall|j: int| 0 <= j < src.len() ==> is_digit(src[j]),
    ensures
        num_end(src, i, false) == src.len(),
    decreases src.len() - i,
{
    if i < src.len() {
        lemma_num_end_digits(src, i + 1);
    }
}

/// A source that is one valid numeric literal without a decimal point
/// lexes to exactly one `NUMBER` token carrying the whole source as its
/// lexeme, followed by the `EOF` token, with no errors.
pub proof fn lemma_number_literal_lexes_whole(src: Seq<char>)
    requires
        src.len() > 0,
        forall|i: int| 0 <= i < src.len() ==> is_digit(src[i]),
    ensures
        scan(src, 0) == (ScanOut {
            toks: seq![
                tok(TokenType::NUMBER, src, 1),
                tok(TokenType::EOF, Seq::empty(), 1),
            ],
            errs: 0,
        }),
{
    lemma_char_codes();
    lemma_digits_plain(src);
    lemma_num_end_digits(src, 1);
    let c = src[0];
    assert(48 <= c as u32 <= 57);
    let st = step(src, 0);
    assert(src.subrange(0, src.len() as int) =~= src);
    lemma_newlines_zero(src.take(src.len() as int - 1));
    lemma_newlines_zero(src.take(src.len() as int));
    assert(src.take(0) =~= Seq::<char>::empty());
    lemma_newlines_zero(Seq::<char>::empty());
    assert(line_at(src, src.len() as int - 1) == 1);
    assert(line_at(src, src.len() as int) == 1);
    assert(st.toks =~= seq![tok(TokenType::NUMBER, src, 1)]);
    assert(scan(src, src.len() as int).toks =~= seq![tok(TokenType::EOF, Seq::empty(), 1)]);
    assert(scan(src, 0).toks =~= seq![
        tok(TokenType::NUMBER, src, 1),
        tok(TokenType::EOF, Seq::empty(), 1),
    ]);
    assert(scan(src, 0) =~= ScanOut {
        toks: seq![tok(TokenType::NUMBER, src, 1), tok(TokenType::EOF, Seq::empty(), 1)],
        errs: 0,
    });
}

/// A `NUMBER` token without a decimal point renders normalized: its
/// lexeme with `.0` appended.
pub proof fn lemma_number_literal_renders_normalized(t: TokenV)
    requires
        t.token_type == TokenType::NUMBER,
        forall|i: int| 0 <= i < t.lexeme.len() ==> is_digit(t.lexeme[i]),
    ensures
        p_expr(ExprV::Literal { token: t }) == t.lexeme + ".0"@,
{
    lemma_digits_plain(t.lexeme);
    assert(p_literal(t) == t.lexeme + ".0"@);
}

/// Searching for a character that never occurs runs to the end.
proof fn lemma_find_from_none(src: Seq<char>, i: int, target: char)
    requires
        0 <= i,
        forall|j: int| i <= j < src.len() ==> src[j] != target,
    ensures
        find_from(src, i, target) == src.len(),
    decreases src.len() - i,
{
    if i < src.len() {
        lemma_find_from_none(src, i + 1, target);
    }
}

/// An unterminated string literal: from its opening quote, the lexer
/// emits no `STRING` token — only the closing `EOF` token — and
/// reports exactly one error.
pub proof fn lemma_unterminated_string(src: Seq<char>, pos: int)
    requires
        0 <= pos < src.len(),
        src[pos] == '"',
        forall|j: int| pos < j < src.len() ==> src[j] != '"',
    ensures
        scan(src, pos).errs == 1,
        scan(src, pos).toks == seq![
            tok(TokenType::EOF, Seq::empty(), line_at(src, src.len() as int)),
        ],
{
    lemma_char_codes();
    lemma_find_from_none(src, pos + 1, '"');
    let st = step(src, pos);
    assert(st.errs == 1 && st.toks =~= Seq::<TokenV>::empty());
    assert(scan(src, src.len() as int).toks =~= seq![
        tok(TokenType::EOF, Seq::empty(), line_at(src, src.len() as int)),
    ]);
    assert(scan(src, pos).toks =~= seq![
        tok(TokenType::EOF, Seq::empty(), line_at(src, src.len() as int)),
    ]);
}

/// `and` never evaluates its right operand when the left is falsy: the
/// outcome is the same whatever expression stands on the right, and it
/// is `false` in the state the left evaluation produced.
pub proof fn lemma_and_short_circuits(
    st: StV,
    op: TokenV,
    left: ExprV,
    right1: ExprV,
    right2: ExprV,
    fuel: nat,
)
    requires
        op.token_type == TokenType::AND,
        sv_eval(st, left, fuel).r matches EvalOutcomeV::Val { value } && !truthy(value),
    ensures
        sv_eval(st, ExprV::Logical { op, left: Box::new(left), right: Box::new(right1) }, fuel)
            == sv_eval(
            st,
            ExprV::Logical { op, left: Box::new(left), right: Box::new(right2) },
            fuel,
        ),
        sv_eval(st, ExprV::Logical { op, left: Box::new(left), right: Box::new(right1) }, fuel)
            == (EvRes {
            st: sv_eval(st, left, fuel).st,
            r: EvalOutcomeV::Val { value: ObjectV::Boolean { value: false } },
        }),
{
    reveal(crate::interpreter::sv_eval);
}

/// `or` never evaluates its right operand when the left is truthy: the
/// outcome is the same whatever expression stands on the right, and it
/// is `true` in the state the left evaluation produced.
pub proof fn lemma_or_short_circuits(
    st: StV,
    op: TokenV,
    left: ExprV,
    right1: ExprV,
    right2: ExprV,
    fuel: nat,
)
    requires
        op.token_type == TokenType::OR,
        sv_eval(st, left, fuel).r matches EvalOutcomeV::Val { value } && truthy(value),
    ensures
        sv_eval(st, ExprV::Logical { op, left: Box::new(left), right: Box::new(right1) }, fuel)
            == sv_eval(
            st,
            ExprV::Logical { op, left: Box::new(left), right: Box::new(right2) },
            fuel,
        ),
        sv_eval(st, ExprV::Logical { op, left: Box::new(left), right: Box::new(right1) }, fuel)
            == (EvRes {
            st: sv_eval(st, left, fuel).st,
            r: EvalOutcomeV::Val { value: ObjectV::Boolean { value: true } },
        }),
{
    reveal(crate::interpreter::sv_eval);
}

/// A block leaves the current scope where it found it, whatever its
/// body did — completion, fault, `Return` signal or exhausted budget.
pub proof fn lemma_block_restores_scope(st: StV, stmts: Seq<StmtV>, fuel: nat)
    ensures
        sv_exec(st, StmtV::Block { stmts }, fuel).st.cur == st.cur,
{
    reveal(crate::interpreter::sv_exec);
}

/// Growing the arena with a fresh scope does not change what any
/// existing scope sees.
pub proof fn lemma_lookup_unmoved_by_push(
    scopes: Seq<ScopeV>,
    i: int,
    ns: ScopeV,
    name: Seq<char>,
)
    requires
        0 <= i < scopes.len(),
    ensures
        sv_lookup(scopes.push(ns), i, name) == sv_lookup(scopes, i, name),
    decreases i,
{
    match binding_of(scopes[i].entries, name) {
        Some(_) => {},
        None => {
            match scopes[i].parent {
                Some(p) => {
                    if (p as int) < i {
                        lemma_lookup_unmoved_by_push(scopes, p as int, ns, name);
                    }
                },
                None => {},
            }
        },
    }
}

/// Scope shadowing: a block's declaration of a name binds it in the
/// block's own fresh scope, where it shadows any outer binding; the
/// outer scope's own view of the name is untouched, so it holds again
/// once the block's scope is left behind.
pub proof fn lemma_declaration_shadows(scopes: Seq<ScopeV>, i: int, name: Seq<char>, v: ObjectV)
    requires
        0 <= i < scopes.len(),
        i < usize::MAX,
    ensures
        ({
            let child = ScopeV { parent: Some(i as usize), entries: seq![(name, v)] };
            let scopes2 = scopes.push(child);
            &&& sv_lookup(scopes2, scopes.len() as int, name) == Some(v)
            &&& sv_lookup(scopes2, i, name) == sv_lookup(scopes, i, name)
        }),
{
    let child = ScopeV { parent: Some(i as usize), entries: seq![(name, v)] };
    let scopes2 = scopes.push(child);
    assert(binding_of(child.entries, name) == Some(v));
    lemma_lookup_unmoved_by_push(scopes, i, child, name);
}

/// Assignment walks to the scope that binds the name and updates it
/// there: afterwards that scope answers with the new value, and every
/// scope above it is untouched.
proof fn lemma_assign_updates_owner(scopes: Seq<ScopeV>, i: int, name: Seq<char>, v: ObjectV)
    requires
        0 <= i < scopes.len(),
        sv_lookup(scopes, i, name) is Some,
    ensures
        ({
            let a = sv_assign(scopes, i, name, v);
            &&& a is Some
            &&& a->0.len() == scopes.len()
            &&& sv_lookup(a->0, i, name) == Some(v)
            &&& forall|k: int| i < k < scopes.len() ==> a->0[k] == scopes[k]
        }),
    decreases i,
{
    if binding_of(scopes[i].entries, name) is Some {
        let a = sv_assign(scopes, i, name, v);
        let sc2 = ScopeV {
            parent: scopes[i].parent,
            entries: scopes[i].entries.push((name, v)),
        };
        assert(a == Some(scopes.update(i, sc2)));
        assert(binding_of(sc2.entries, name) == Some(v));
    } else {
        match scopes[i].parent {
            Some(p) => {
                lemma_assign_updates_owner(scopes, p as int, name, v);
                let a = sv_assign(scopes, i, name, v);
                assert(a == sv_assign(scopes, p as int, name, v));
                assert(binding_of(a->0[i].entries, name) == binding_of(
                    scopes[i].entries,
                    name,
                ));
            },
            None => {},
        }
    }
}

/// Assignment inside a nested block to a name declared outside mutates
/// the outer binding, not a shadow: through a fresh block scope that
/// does not bind the name itself, the assignment lands in the
/// enclosing chain, the block scope stays empty, and both the block
/// and the outer scope then see the new value.
pub proof fn lemma_assignment_mutates_outer(
    scopes: Seq<ScopeV>,
    i: int,
    name: Seq<char>,
    v: ObjectV,
)
    requires
        0 <= i < scopes.len(),
        i < usize::MAX,
        sv_lookup(scopes, i, name) is Some,
    ensures
        ({
            let child = ScopeV { parent: Some(i as usize), entries: Seq::empty() };
            let scopes2 = scopes.push(child);
            let a = sv_assign(scopes2, scopes.len() as int, name, v);
            &&& a is Some
            &&& a->0[scopes.len() as int] == child
            &&& sv_lookup(a->0, i, name) == Some(v)
            &&& sv_lookup(a->0, scopes.len() as int, name) == Some(v)
        }),
{
    let child = ScopeV { parent: Some(i as usize), entries: Seq::empty() };
    let scopes2 = scopes.push(child);
    let n = scopes.len() as int;
    lemma_lookup_unmoved_by_push(scopes, i, child, name);
    assert(binding_of(child.entries, name) is None);
    assert(scopes2[n] == child);
    assert(sv_assign(scopes2, n, name, v) == sv_assign(scopes2, i, name, v));
    lemma_assign_updates_owner(scopes2, i, name, v);
    let a = sv_assign(scopes2, i, name, v);
    let a2 = a->0;
    assert(a2[n] == child);
    assert(binding_of(a2[n].entries, name) is None);
    assert(sv_lookup(a2, n, name) == sv_lookup(a2, i, name));
}

/// A closure reads its captured scope as it is at call time: looking a
/// name up from a fresh call scope falls through its bindings to the
/// scope the function captured, in the arena as it stands when the
/// call happens — which is what lets a call observe assignments made
/// after the closure was created.
pub proof fn lemma_call_reads_captured_scope(
    scopes: Seq<ScopeV>,
    closure: usize,
    entries: Seq<(Seq<char>, ObjectV)>,
    name: Seq<char>,
)
    requires
        (closure as int) < scopes.len(),
        binding_of(entries, name) is None,
    ensures
        ({
            let call_scope = ScopeV { parent: Some(closure), entries };
            sv_lookup(scopes.push(call_scope), scopes.len() as int, name) == sv_lookup(
                scopes,
                closure as int,
                name,
            )
        }),
{
    let call_scope = ScopeV { parent: Some(closure), entries };
    lemma_lookup_unmoved_by_push(scopes, closure as int, call_scope, name);
}

} // verus!
