//! The lexer: a single left-to-right pass over the source characters
//! with one-character lookahead.  Errors are counted, never fatal: the
//! pass continues and the token stream always ends with one `EOF` token.
//!
//! The function `scan` is the mathematical model: it gives, for any
//! position in the source, exactly the tokens and the error count that
//! the pass produces from there on, and `tokenize` is proved to return
//! precisely `scan` of its starting state.

use vstd::prelude::*;
use crate::text::{char_is_alnum, char_is_alpha, char_is_digit, char_string, char_string2,
    is_alnum, is_alpha, is_digit, string_from_range};
use crate::error::LexError;
use crate::token::{clone_tokens, lemma_tokens_dv_push, tokens_dv, Token, TokenType,
    TokenV};

verus! {

/// How many newline characters a piece of text holds.
pub open spec fn newlines(s: Seq<char>) -> nat
    decreases s,
{
    if s.len() == 0 {
        0
    } else {
        newlines(s.drop_last()) + if s.last() == '\n' {
            1nat
        } else {
            0nat
        }
    }
}

/// The line number of the character at `pos`: one more than the number
/// of newlines before it.
pub open spec fn line_at(src: Seq<char>, pos: int) -> nat {
    1 + newlines(src.take(pos))
}

/// Newlines split over concatenation.
pub proof fn lemma_newlines_concat(s: Seq<char>, t: Seq<char>)
    ensures
        newlines(s + t) == newlines(s) + newlines(t),
    decreases t,
{
    if t.len() == 0 {
        assert(s + t =~= s);
    } else {
        lemma_newlines_concat(s, t.drop_last());
        assert((s + t).drop_last() =~= s + t.drop_last());
        assert((s + t).last() == t.last());
    }
}

/// There are at most as many newlines as characters.
pub proof fn lemma_newlines_bound(s: Seq<char>)
    ensures
        newlines(s) <= s.len(),
    decreases s,
{
    if s.len() > 0 {
        lemma_newlines_bound(s.drop_last());
    }
}

/// Walking from `a` to `b` adds the newlines of the walked range.
pub proof fn lemma_line_at_add(src: Seq<char>, a: int, b: int)
    requires
        0 <= a <= b <= src.len(),
    ensures
        line_at(src, b) == line_at(src, a) + newlines(src.subrange(a, b)),
{
    assert(src.take(b) =~= src.take(a) + src.subrange(a, b));
    lemma_newlines_concat(src.take(a), src.subrange(a, b));
}

/// The first position at or after `i` holding `target`, or the length.
pub open spec fn find_from(src: Seq<char>, i: int, target: char) -> int
    decreases src.len() - i,
{
    if i >= src.len() {
        src.len() as int
    } else if src[i] == target {
        i
    } else {
        find_from(src, i + 1, target)
    }
}

/// Where a numeric literal started just before `i` ends: digits, and at
/// most one decimal point, are taken greedily.
pub open spec fn num_end(src: Seq<char>, i: int, seen_decimal: bool) -> int
    decreases src.len() - i,
{
    if i < 0 || i >= src.len() {
        i
    } else if is_digit(src[i]) {
        num_end(src, i + 1, seen_decimal)
    } else if src[i] == '.' && !seen_decimal {
        num_end(src, i + 1, true)
    } else {
        i
    }
}

/// Where an identifier started just before `i` ends: alphanumerics and
/// underscores are taken greedily.
pub open spec fn id_end(src: Seq<char>, i: int) -> int
    decreases src.len() - i,
{
    if i < 0 || i >= src.len() {
        i
    } else if is_alnum(src[i]) || src[i] == '_' {
        id_end(src, i + 1)
    } else {
        i
    }
}

/// The token kind of an identifier-shaped word: a keyword kind for the
/// fixed keyword table, `IDENTIFIER` otherwise.
pub open spec fn keyword_of(s: Seq<char>) -> TokenType {
    if s == seq!['a', 'n', 'd'] {
        TokenType::AND
    } else if s == seq!['c', 'l', 'a', 's', 's'] {
        TokenType::CLASS
    } else if s == seq!['e', 'l', 's', 'e'] {
        TokenType::ELSE
    } else if s == seq!['f', 'a', 'l', 's', 'e'] {
        TokenType::FALSE
    } else if s == seq!['f', 'o', 'r'] {
        TokenType::FOR
    } else if s == seq!['f', 'n'] {
        TokenType::FN
    } else if s == seq!['i', 'f'] {
        TokenType::IF
    } else if s == seq!['n', 'u', 'l', 'l'] {
        TokenType::NULL
    } else if s == seq!['o', 'r'] {
        TokenType::OR
    } else if s == seq!['p', 'r', 'i', 'n', 't'] {
        TokenType::PRINT
    } else if s == seq!['r', 'e', 't', 'u', 'r', 'n'] {
        TokenType::RETURN
    } else if s == seq!['s', 'u', 'p', 'e', 'r'] {
        TokenType::SUPER
    } else if s == seq!['t', 'h', 'i', 's'] {
        TokenType::THIS
    } else if s == seq!['t', 'r', 'u', 'e'] {
        TokenType::TRUE
    } else if s == seq!['v', 'a', 'r'] {
        TokenType::VAR
    } else if s == seq!['w', 'h', 'i', 'l', 'e'] {
        TokenType::WHILE
    } else {
        TokenType::IDENTIFIER
    }
}

/// A token view.
pub open spec fn tok(k: TokenType, lexeme: Seq<char>, line: nat) -> TokenV {
    TokenV { token_type: k, lexeme, line }
}

/// What one step of the pass does at `pos`: the tokens it emits, the
/// errors it reports, and the position it moves to.
#[verifier::ext_equal]
pub struct StepOut {
    pub toks: Seq<TokenV>,
    pub errs: nat,
    pub next: int,
}

/// One step of the pass at `pos`, mirroring the dispatch on the current
/// character: punctuation and operators with one-character lookahead,
/// `//` comments to end of line, string literals (an unterminated one is
/// an error and no token), numeric literals with the trailing-point
/// split, identifiers checked against the keyword table, whitespace, and
/// the unexpected-character error.
pub open spec fn step(src: Seq<char>, pos: int) -> StepOut
    recommends
        0 <= pos < src.len(),
{
    let c = src[pos];
    let ln = line_at(src, pos);
    if c == '(' {
        StepOut { toks: seq![tok(TokenType::LEFT_PAREN, seq![c], ln)], errs: 0, next: pos + 1 }
    } else if c == ')' {
        StepOut { toks: seq![tok(TokenType::RIGHT_PAREN, seq![c], ln)], errs: 0, next: pos + 1 }
    } else if c == '{' {
        StepOut { toks: seq![tok(TokenType::LEFT_BRACE, seq![c], ln)], errs: 0, next: pos + 1 }
    } else if c == '}' {
        StepOut { toks: seq![tok(TokenType::RIGHT_BRACE, seq![c], ln)], errs: 0, next: pos + 1 }
    } else if c == '*' {
        StepOut { toks: seq![tok(TokenType::STAR, seq![c], ln)], errs: 0, next: pos + 1 }
    } else if c == '.' {
        StepOut { toks: seq![tok(TokenType::DOT, seq![c], ln)], errs: 0, next: pos + 1 }
    } else if c == ',' {
        StepOut { toks: seq![tok(TokenType::COMMA, seq![c], ln)], errs: 0, next: pos + 1 }
    } else if c == '+' {
        StepOut { toks: seq![tok(TokenType::PLUS, seq![c], ln)], errs: 0, next: pos + 1 }
    } else if c == ';' {
        StepOut { toks: seq![tok(TokenType::SEMICOLON, seq![c], ln)], errs: 0, next: pos + 1 }
    } else if c == '-' {
        StepOut { toks: seq![tok(TokenType::MINUS, seq![c], ln)], errs: 0, next: pos + 1 }
    } else if c == '=' {
        if pos + 1 < src.len() && src[pos + 1] == '=' {
            StepOut { toks: seq![tok(TokenType::EQUAL_EQUAL, seq!['=', '='], ln)], errs: 0, next: pos + 2 }
        } else {
            StepOut { toks: seq![tok(TokenType::EQUAL, seq![c], ln)], errs: 0, next: pos + 1 }
        }
    } else if c == '!' {
        if pos + 1 < src.len() && src[pos + 1] == '=' {
            StepOut { toks: seq![tok(TokenType::BANG_EQUAL, seq!['!', '='], ln)], errs: 0, next: pos + 2 }
        } else {
            StepOut { toks: seq![tok(TokenType::BANG, seq![c], ln)], errs: 0, next: pos + 1 }
        }
    } else if c == '>' {
        if pos + 1 < src.len() && src[pos + 1] == '=' {
            StepOut { toks: seq![tok(TokenType::GREATER_EQUAL, seq!['>', '='], ln)], errs: 0, next: pos + 2 }
        } else {
            StepOut { toks: seq![tok(TokenType::GREATER, seq![c], ln)], errs: 0, next: pos + 1 }
        }
    } else if c == '<' {
        if pos + 1 < src.len() && src[pos + 1] == '=' {
            StepOut { toks: seq![tok(TokenType::LESS_EQUAL, seq!['<', '='], ln)], errs: 0, next: pos + 2 }
        } else {
            StepOut { toks: seq![tok(TokenType::LESS, seq![c], ln)], errs: 0, next: pos + 1 }
        }
    } else if c == '/' {
        if pos + 1 < src.len() && src[pos + 1] == '/' {
            let k = find_from(src, pos + 2, '\n');
            StepOut { toks: Seq::empty(), errs: 0, next: if k < src.len() { k + 1 } else { src.len() as int } }
        } else {
            StepOut { toks: seq![tok(TokenType::SLASH, seq![c], ln)], errs: 0, next: pos + 1 }
        }
    } else if c == '"' {
        let close = find_from(src, pos + 1, '"');
        if close < src.len() {
            StepOut {
                toks: seq![tok(TokenType::STRING, src.subrange(pos + 1, close), line_at(src, close))],
                errs: 0,
                next: close + 1,
            }
        } else {
            StepOut { toks: Seq::empty(), errs: 1, next: src.len() as int }
        }
    } else if c == ' ' || c == '\r' || c == '\t' || c == '\n' {
        StepOut { toks: Seq::empty(), errs: 0, next: pos + 1 }
    } else if is_digit(c) {
        let end = num_end(src, pos + 1, false);
        let lex = src.subrange(pos, end);
        let tl = line_at(src, end - 1);
        if lex.len() > 0 && lex.last() == '.' {
            StepOut {
                toks: seq![
                    tok(TokenType::NUMBER, lex.push('0'), tl),
                    tok(TokenType::DOT, seq!['.'], tl),
                ],
                errs: 0,
                next: end,
            }
        } else {
            StepOut { toks: seq![tok(TokenType::NUMBER, lex, tl)], errs: 0, next: end }
        }
    } else if is_alpha(c) || c == '_' {
        let end = id_end(src, pos + 1);
        let lex = src.subrange(pos, end);
        StepOut {
            toks: seq![tok(keyword_of(lex), lex, line_at(src, end - 1))],
            errs: 0,
            next: end,
        }
    } else {
        StepOut { toks: Seq::empty(), errs: 1, next: pos + 1 }
    }
}

/// What the pass produces from `pos`.
#[verifier::ext_equal]
pub struct ScanOut {
    pub toks: Seq<TokenV>,
    pub errs: nat,
}

/// The tokens and error count that the pass produces from `pos` to the
/// end of the source, the closing `EOF` token included.
pub open spec fn scan(src: Seq<char>, pos: int) -> ScanOut
    decreases src.len() - pos,
{
    if pos >= src.len() {
        ScanOut {
            toks: seq![tok(TokenType::EOF, Seq::empty(), line_at(src, src.len() as int))],
            errs: 0,
        }
    } else {
        let st = step(src, pos);
        let next = if pos < st.next && st.next <= src.len() {
            st.next
        } else {
            pos + 1
        };
        let rest = scan(src, next);
        ScanOut { toks: st.toks + rest.toks, errs: st.errs + rest.errs }
    }
}

/// Skipping one character that is not a newline keeps the line.
proof fn lemma_line_one(src: Seq<char>, i: int)
    requires
        0 <= i < src.len(),
        src[i] != '\n',
    ensures
        line_at(src, i + 1) == line_at(src, i),
{
    lemma_line_at_add(src, i, i + 1);
    let s = src.subrange(i, i + 1);
    assert(s.drop_last() =~= Seq::<char>::empty());
    assert(newlines(Seq::<char>::empty()) == 0);
    assert(s.last() == src[i]);
}

/// The first position at or after `from` holding `target`, or the
/// length of the text.
fn find_from_exec(v: &Vec<char>, from: usize, target: char) -> (k: usize)
    requires
        from <= v@.len(),
    ensures
        k as int == find_from(v@, from as int, target),
        from <= k <= v@.len(),
        k < v@.len() ==> v@[k as int] == target,
{
    let mut i: usize = from;
    while i < v.len()
        invariant
            from <= i <= v@.len(),
            find_from(v@, from as int, target) == find_from(v@, i as int, target),
        decreases v@.len() - i,
    {
        if v[i] == target {
            return i;
        }
        i = i + 1;
    }
    i
}

/// How many newlines a range of the text holds.
fn count_newlines(v: &Vec<char>, from: usize, to: usize) -> (n: usize)
    requires
        from <= to,
        to <= v@.len(),
    ensures
        n == newlines(v@.subrange(from as int, to as int)),
        n <= to - from,
{
    let mut n: usize = 0;
    let mut i: usize = from;
    proof {
        assert(v@.subrange(from as int, from as int) =~= Seq::<char>::empty());
    }
    while i < to
        invariant
            from <= i <= to,
            to <= v@.len(),
            n == newlines(v@.subrange(from as int, i as int)),
            n <= i - from,
        decreases to - i,
    {
        let c = v[i];
        if c == '\n' {
            n = n + 1;
        }
        i = i + 1;
        proof {
            let s = v@.subrange(from as int, i as int);
            assert(s.drop_last() =~= v@.subrange(from as int, i as int - 1));
            assert(s.last() == v@[i - 1]);
        }
    }
    n
}

/// The end of the numeric literal whose first digit sits just before
/// `start`: every character up to the end is a digit or the one decimal
/// point.
fn num_end_exec(v: &Vec<char>, start: usize) -> (end: usize)
    requires
        start <= v@.len(),
    ensures
        end as int == num_end(v@, start as int, false),
        start <= end <= v@.len(),
{
    let mut i: usize = start;
    let mut seen: bool = false;
    while i < v.len() && (char_is_digit(v[i]) || (v[i] == '.' && !seen))
        invariant
            start <= i <= v@.len(),
            num_end(v@, start as int, false) == num_end(v@, i as int, seen),
        decreases v@.len() - i,
    {
        if v[i] == '.' {
            seen = true;
        }
        i = i + 1;
    }
    i
}

/// The end of the identifier whose first character sits just before
/// `start`: alphanumerics and underscores continue it.
fn id_end_exec(v: &Vec<char>, start: usize) -> (end: usize)
    requires
        start <= v@.len(),
    ensures
        end as int == id_end(v@, start as int),
        start <= end <= v@.len(),
    decreases v@.len() - start,
{
    let mut i: usize = start;
    while i < v.len() && (char_is_alnum(v[i]) || v[i] == '_')
        invariant
            start <= i <= v@.len(),
            id_end(v@, start as int) == id_end(v@, i as int),
        decreases v@.len() - i,
    {
        i = i + 1;
    }
    i
}

/// The keyword table lookup for an identifier-shaped range of the text.
fn keyword_kind(v: &Vec<char>, start: usize, end: usize) -> (k: TokenType)
    requires
        start <= end,
        end <= v@.len(),
    ensures
        k == keyword_of(v@.subrange(start as int, end as int)),
{
    if crate::text::range_is(v, start, end, &['a', 'n', 'd']) {
        TokenType::AND
    } else if crate::text::range_is(v, start, end, &['c', 'l', 'a', 's', 's']) {
        TokenType::CLASS
    } else if crate::text::range_is(v, start, end, &['e', 'l', 's', 'e']) {
        TokenType::ELSE
    } else if crate::text::range_is(v, start, end, &['f', 'a', 'l', 's', 'e']) {
        TokenType::FALSE
    } else if crate::text::range_is(v, start, end, &['f', 'o', 'r']) {
        TokenType::FOR
    } else if crate::text::range_is(v, start, end, &['f', 'n']) {
        TokenType::FN
    } else if crate::text::range_is(v, start, end, &['i', 'f']) {
        TokenType::IF
    } else if crate::text::range_is(v, start, end, &['n', 'u', 'l', 'l']) {
        TokenType::NULL
    } else if crate::text::range_is(v, start, end, &['o', 'r']) {
        TokenType::OR
    } else if crate::text::range_is(v, start, end, &['p', 'r', 'i', 'n', 't']) {
        TokenType::PRINT
    } else if crate::text::range_is(v, start, end, &['r', 'e', 't', 'u', 'r', 'n']) {
        TokenType::RETURN
    } else if crate::text::range_is(v, start, end, &['s', 'u', 'p', 'e', 'r']) {
        TokenType::SUPER
    } else if crate::text::range_is(v, start, end, &['t', 'h', 'i', 's']) {
        TokenType::THIS
    } else if crate::text::range_is(v, start, end, &['t', 'r', 'u', 'e']) {
        TokenType::TRUE
    } else if crate::text::range_is(v, start, end, &['v', 'a', 'r']) {
        TokenType::VAR
    } else if crate::text::range_is(v, start, end, &['w', 'h', 'i', 'l', 'e']) {
        TokenType::WHILE
    } else {
        TokenType::IDENTIFIER
    }
}

/// The lexer's working state.
pub struct Lexer {
    chars: Vec<char>,
    pos: usize,
    current_char: Option<char>,
    current_line: usize,
    current_column: usize,
    tokens: Vec<Token>,
    pub num_errors: usize,
    /// The diagnostics reported so far, for the caller to render.
    pub diagnostics: Vec<LexError>,
}

impl Lexer {
    /// The state is consistent: the cursor is inside the source, the
    /// cached character and line agree with the position, and fewer
    /// errors than characters have been seen.
    pub closed spec fn wf(&self) -> bool {
        &&& self.pos <= self.chars@.len()
        &&& self.chars@.len() < usize::MAX
        &&& self.current_char == (if (self.pos as int) < self.chars@.len() {
            Some(self.chars@[self.pos as int])
        } else {
            None::<char>
        })
        &&& self.current_line as nat == line_at(self.chars@, self.pos as int)
        &&& self.num_errors <= self.pos
        &&& self.current_column == self.pos + 1
    }

    /// The source the lexer was built over.
    pub closed spec fn src(&self) -> Seq<char> {
        self.chars@
    }

    /// The position of the next character to examine.
    pub closed spec fn at(&self) -> int {
        self.pos as int
    }

    /// The tokens produced so far.
    pub closed spec fn toks(&self) -> Seq<TokenV> {
        tokens_dv(self.tokens@)
    }

    /// The number of errors reported so far.
    pub closed spec fn errors(&self) -> nat {
        self.num_errors as nat
    }

    pub fn new(source: &str) -> (lexer: Lexer)
        requires
            source@.len() < usize::MAX,
        ensures
            lexer.wf(),
            lexer.src() == source@,
            lexer.at() == 0,
            lexer.toks() == Seq::<TokenV>::empty(),
            lexer.errors() == 0,
    {
        let n = source.unicode_len();
        let mut chars: Vec<char> = Vec::new();
        let mut i: usize = 0;
        while i < n
            invariant
                i <= n,
                n == source@.len(),
                chars@ == source@.take(i as int),
            decreases n - i,
        {
            chars.push(source.get_char(i));
            i = i + 1;
            proof {
                assert(chars@ =~= source@.take(i as int));
            }
        }
        proof {
            assert(chars@ =~= source@);
        }
        let current_char = if chars.len() > 0 {
            Some(chars[0])
        } else {
            None
        };
        let lexer = Lexer {
            chars,
            pos: 0,
            current_char,
            current_line: 1,
            current_column: 1,
            tokens: Vec::new(),
            num_errors: 0,
            diagnostics: Vec::new(),
        };
        proof {
            assert(lexer.chars@.take(0) =~= Seq::<char>::empty());
            assert(lexer.toks() == Seq::<TokenV>::empty());
        }
        lexer
    }

    /// The tokens produced so far, as a fresh vector.
    pub fn get_tokens(&self) -> (r: Vec<Token>)
        ensures
            tokens_dv(r@) == self.toks(),
    {
        clone_tokens(&self.tokens)
    }

    /// Whether the character after the current one is `expected`.
    fn match_next(&self, expected: char) -> (r: bool)
        requires
            self.wf(),
        ensures
            r == (self.at() + 1 < self.src().len() && self.src()[self.at() + 1] == expected),
    {
        if self.pos + 1 < self.chars.len() {
            self.chars[self.pos + 1] == expected
        } else {
            false
        }
    }

    /// Step to the next character, counting the line when a newline is
    /// left behind.
    fn advance(&mut self)
        requires
            old(self).wf(),
        ensures
            final(self).wf(),
            final(self).src() == old(self).src(),
            final(self).tokens@ == old(self).tokens@,
            final(self).num_errors == old(self).num_errors,
            old(self).at() < old(self).src().len() ==> final(self).at() == old(self).at() + 1,
            old(self).at() >= old(self).src().len() ==> final(self).at() == old(self).at(),
    {
        if self.pos < self.chars.len() {
            proof {
                lemma_newlines_bound(self.chars@.take(self.pos as int));
                lemma_line_at_add(self.chars@, self.pos as int, self.pos as int + 1);
                assert(self.chars@.subrange(self.pos as int, self.pos as int + 1) =~= seq![
                    self.chars@[self.pos as int],
                ]);
            }
            if self.current_char == Some('\n') {
                self.current_line = self.current_line + 1;
            }
            self.current_column = self.current_column + 1;
            self.pos = self.pos + 1;
            self.current_char = if self.pos < self.chars.len() {
                Some(self.chars[self.pos])
            } else {
                None
            };
            proof {
                let s = self.chars@.subrange(old(self).pos as int, old(self).pos as int + 1);
                assert(s.drop_last() =~= Seq::<char>::empty());
                assert(newlines(Seq::<char>::empty()) == 0);
                assert(s.last() == self.chars@[old(self).pos as int]);
                assert(newlines(s) == if self.chars@[old(self).pos as int] == '\n' {
                    1nat
                } else {
                    0nat
                });
            }
        }
    }

    /// Emit a one-character token of the given kind for the current
    /// character, and step past it.
    fn emit_single(&mut self, k: TokenType)
        requires
            old(self).wf(),
            old(self).at() < old(self).src().len(),
        ensures
            final(self).wf(),
            final(self).src() == old(self).src(),
            final(self).toks() == old(self).toks().push(
                tok(
                    k,
                    seq![old(self).src()[old(self).at()]],
                    line_at(old(self).src(), old(self).at()),
                ),
            ),
            final(self).errors() == old(self).errors(),
            final(self).at() == old(self).at() + 1,
    {
        let c = self.chars[self.pos];
        let t = Token::new(k, char_string(c), self.current_line);
        proof {
            lemma_tokens_dv_push(self.tokens@, t);
        }
        self.tokens.push(t);
        self.advance();
    }

    /// One step of the pass: handle the current character exactly as
    /// `step` describes.
    #[verifier::rlimit(100)]
    fn scan_token(&mut self)
        requires
            old(self).wf(),
            old(self).at() < old(self).src().len(),
        ensures
            final(self).wf(),
            final(self).src() == old(self).src(),
            ({
                let st = step(old(self).src(), old(self).at());
                &&& final(self).toks() == old(self).toks() + st.toks
                &&& final(self).errors() == old(self).errors() + st.errs
                &&& final(self).at() == st.next
                &&& old(self).at() < st.next <= old(self).src().len()
            }),
    {
        let ghost src = self.chars@;
        let ghost p = self.pos as int;
        let ghost t0 = self.toks();
        let c = self.chars[self.pos];
        match c {
            '(' => {
                self.emit_single(TokenType::LEFT_PAREN);
                proof {
                    assert(final(self).toks() =~= t0 + step(src, p).toks);
                }
            },
            ')' => {
                self.emit_single(TokenType::RIGHT_PAREN);
                proof {
                    assert(final(self).toks() =~= t0 + step(src, p).toks);
                }
            },
            '{' => {
                self.emit_single(TokenType::LEFT_BRACE);
                proof {
                    assert(final(self).toks() =~= t0 + step(src, p).toks);
                }
            },
            '}' => {
                self.emit_single(TokenType::RIGHT_BRACE);
                proof {
                    assert(final(self).toks() =~= t0 + step(src, p).toks);
                }
            },
            '*' => {
                self.emit_single(TokenType::STAR);
                proof {
                    assert(final(self).toks() =~= t0 + step(src, p).toks);
                }
            },
            '.' => {
                self.emit_single(TokenType::DOT);
                proof {
                    assert(final(self).toks() =~= t0 + step(src, p).toks);
                }
            },
            ',' => {
                self.emit_single(TokenType::COMMA);
                proof {
                    assert(final(self).toks() =~= t0 + step(src, p).toks);
                }
            },
            '+' => {
                self.emit_single(TokenType::PLUS);
                proof {
                    assert(final(self).toks() =~= t0 + step(src, p).toks);
                }
            },
            ';' => {
                self.emit_single(TokenType::SEMICOLON);
                proof {
                    assert(final(self).toks() =~= t0 + step(src, p).toks);
                }
            },
            '-' => {
                self.emit_single(TokenType::MINUS);
                proof {
                    assert(final(self).toks() =~= t0 + step(src, p).toks);
                }
            },
            '=' => {
                if self.match_next('=') {
                    self.two_char(TokenType::EQUAL_EQUAL, '=', '=');
                    proof {
                        assert(final(self).toks() =~= t0 + step(src, p).toks);
                    }
                } else {
                    self.emit_single(TokenType::EQUAL);
                    proof {
                        assert(final(self).toks() =~= t0 + step(src, p).toks);
                    }
                }
            },
            '!' => {
                if self.match_next('=') {
                    self.two_char(TokenType::BANG_EQUAL, '!', '=');
                    proof {
                        assert(final(self).toks() =~= t0 + step(src, p).toks);
                    }
                } else {
                    self.emit_single(TokenType::BANG);
                    proof {
                        assert(final(self).toks() =~= t0 + step(src, p).toks);
                    }
                }
            },
            '>' => {
                if self.match_next('=') {
                    self.two_char(TokenType::GREATER_EQUAL, '>', '=');
                    proof {
                        assert(final(self).toks() =~= t0 + step(src, p).toks);
                    }
                } else {
                    self.emit_single(TokenType::GREATER);
                    proof {
                        assert(final(self).toks() =~= t0 + step(src, p).toks);
                    }
                }
            },
            '<' => {
                if self.match_next('=') {
                    self.two_char(TokenType::LESS_EQUAL, '<', '=');
                    proof {
                        assert(final(self).toks() =~= t0 + step(src, p).toks);
                    }
                } else {
                    self.emit_single(TokenType::LESS);
                    proof {
                        assert(final(self).toks() =~= t0 + step(src, p).toks);
                    }
                }
            },
            '/' => {
                if self.match_next('/') {
                    let k = find_from_exec(&self.chars, self.pos + 2, '\n');
                    let newpos = if k < self.chars.len() {
                        k + 1
                    } else {
                        self.chars.len()
                    };
                    let nl = count_newlines(&self.chars, self.pos, newpos);
                    proof {
                        lemma_line_at_add(src, p, newpos as int);
                        lemma_newlines_bound(src.take(newpos as int));
                    }
                    self.current_line = self.current_line + nl;
                    self.pos = newpos;
                    self.current_column = self.pos + 1;
                    self.current_char = if self.pos < self.chars.len() {
                        Some(self.chars[self.pos])
                    } else {
                        None
                    };
                    proof {
                        assert(final(self).toks() =~= t0 + step(src, p).toks);
                    }
                } else {
                    self.emit_single(TokenType::SLASH);
                    proof {
                        assert(final(self).toks() =~= t0 + step(src, p).toks);
                    }
                }
            },
            '"' => {
                let close = find_from_exec(&self.chars, self.pos + 1, '"');
                if close < self.chars.len() {
                    let lex = string_from_range(&self.chars, self.pos + 1, close);
                    let nl = count_newlines(&self.chars, self.pos, close);
                    proof {
                        lemma_line_at_add(src, p, close as int);
                        lemma_newlines_bound(src.take(close as int));
                    }
                    let tl = self.current_line + nl;
                    let t = Token::new(TokenType::STRING, lex, tl);
                    proof {
                        lemma_tokens_dv_push(self.tokens@, t);
                    }
                    self.tokens.push(t);
                    self.current_line = tl;
                    self.pos = close + 1;
                    self.current_column = self.pos + 1;
                    self.current_char = if self.pos < self.chars.len() {
                        Some(self.chars[self.pos])
                    } else {
                        None
                    };
                    proof {
                        lemma_line_one(src, close as int);
                        assert(final(self).toks() =~= t0 + step(src, p).toks);
                    }
                } else {
                    let nl = count_newlines(&self.chars, self.pos, self.chars.len());
                    proof {
                        lemma_line_at_add(src, p, src.len() as int);
                        lemma_newlines_bound(src.take(src.len() as int));
                    }
                    self.current_line = self.current_line + nl;
                    let line = self.current_line;
                    self.diagnostics.push(LexError::UnterminatedString { line });
                    self.num_errors = self.num_errors + 1;
                    self.pos = self.chars.len();
                    self.current_column = self.pos + 1;
                    self.current_char = None;
                    proof {
                        assert(final(self).toks() =~= t0 + step(src, p).toks);
                    }
                }
            },
            ' ' | '\r' | '\t' | '\n' => {
                self.advance();
                proof {
                    assert(final(self).toks() =~= t0 + step(src, p).toks);
                }
            },
            _ => {
                if char_is_digit(c) {
                    let end = num_end_exec(&self.chars, self.pos + 1);
                    let nl = count_newlines(&self.chars, self.pos, end - 1);
                    proof {
                        lemma_line_at_add(src, p, end - 1);
                        lemma_newlines_bound(src.take(end - 1));
                    }
                    let tl = self.current_line + nl;
                    let mut lex = string_from_range(&self.chars, self.pos, end);
                    let last = self.chars[end - 1];
                    if last == '.' {
                        crate::text::push_char(&mut lex, '0');
                        let t = Token::new(TokenType::NUMBER, lex, tl);
                        proof {
                            lemma_tokens_dv_push(self.tokens@, t);
                        }
                        self.tokens.push(t);
                        let t2 = Token::new(TokenType::DOT, char_string('.'), tl);
                        proof {
                            lemma_tokens_dv_push(self.tokens@, t2);
                        }
                        self.tokens.push(t2);
                    } else {
                        let t = Token::new(TokenType::NUMBER, lex, tl);
                        proof {
                            lemma_tokens_dv_push(self.tokens@, t);
                        }
                        self.tokens.push(t);
                    }
                    self.current_line = if last == '\n' {
                        tl + 1
                    } else {
                        tl
                    };
                    self.pos = end;
                    self.current_column = self.pos + 1;
                    self.current_char = if self.pos < self.chars.len() {
                        Some(self.chars[self.pos])
                    } else {
                        None
                    };
                    proof {
                        lemma_line_at_add(src, end - 1, end as int);
                        let e1 = src.subrange(end - 1, end as int);
                        assert(e1.drop_last() =~= Seq::<char>::empty());
                        assert(newlines(Seq::<char>::empty()) == 0);
                        assert(e1.last() == src[end - 1]);
                        assert(final(self).toks() =~= t0 + step(src, p).toks);
                    }
                } else if char_is_alpha(c) || c == '_' {
                    let end = id_end_exec(&self.chars, self.pos + 1);
                    let nl = count_newlines(&self.chars, self.pos, end - 1);
                    proof {
                        lemma_line_at_add(src, p, end - 1);
                        lemma_newlines_bound(src.take(end - 1));
                    }
                    let tl = self.current_line + nl;
                    let lex = string_from_range(&self.chars, self.pos, end);
                    let k = keyword_kind(&self.chars, self.pos, end);
                    let t = Token::new(k, lex, tl);
                    proof {
                        lemma_tokens_dv_push(self.tokens@, t);
                    }
                    self.tokens.push(t);
                    let last = self.chars[end - 1];
                    self.current_line = if last == '\n' {
                        tl + 1
                    } else {
                        tl
                    };
                    self.pos = end;
                    self.current_column = self.pos + 1;
                    self.current_char = if self.pos < self.chars.len() {
                        Some(self.chars[self.pos])
                    } else {
                        None
                    };
                    proof {
                        lemma_line_at_add(src, end - 1, end as int);
                        let e1 = src.subrange(end - 1, end as int);
                        assert(e1.drop_last() =~= Seq::<char>::empty());
                        assert(newlines(Seq::<char>::empty()) == 0);
                        assert(e1.last() == src[end - 1]);
                        assert(final(self).toks() =~= t0 + step(src, p).toks);
                    }
                } else {
                    let line = self.current_line;
                    self.advance();
                    self.diagnostics.push(LexError::UnexpectedCharacter { line, ch: c });
                    self.num_errors = self.num_errors + 1;
                    proof {
                        assert(final(self).toks() =~= t0 + step(src, p).toks);
                    }
                }
            },
        }
    }

    /// Emit a two-character operator token: the current character, the
    /// one expected after it, and a step past both.
    fn two_char(&mut self, k: TokenType, a: char, b: char)
        requires
            old(self).wf(),
            old(self).at() + 1 < old(self).src().len(),
            old(self).src()[old(self).at()] == a,
            old(self).src()[old(self).at() + 1] == b,
            a != '\n',
        ensures
            final(self).wf(),
            final(self).src() == old(self).src(),
            final(self).toks() == old(self).toks().push(
                tok(k, seq![a, b], line_at(old(self).src(), old(self).at())),
            ),
            final(self).errors() == old(self).errors(),
            final(self).at() == old(self).at() + 2,
    {
        proof {
            lemma_line_one(self.chars@, self.pos as int);
        }
        self.advance();
        let t = Token::new(k, char_string2(a, b), self.current_line);
        proof {
            lemma_tokens_dv_push(self.tokens@, t);
        }
        self.tokens.push(t);
        self.advance();
    }

    /// Run the pass to the end of the source and return the tokens,
    /// the closing `EOF` token included: exactly what `scan` gives for
    /// the starting position.
    pub fn tokenize(&mut self) -> (r: Vec<Token>)
        requires
            old(self).wf(),
        ensures
            final(self).wf(),
            final(self).src() == old(self).src(),
            final(self).toks() == old(self).toks() + scan(old(self).src(), old(self).at()).toks,
            final(self).errors() == old(self).errors() + scan(
                old(self).src(),
                old(self).at(),
            ).errs,
            tokens_dv(r@) == final(self).toks(),
    {
        let ghost src = self.chars@;
        let ghost p0 = self.pos as int;
        let ghost t0 = self.toks();
        let ghost e0 = self.errors();
        while self.pos < self.chars.len()
            invariant
                self.wf(),
                self.src() == src,
                t0 + scan(src, p0).toks == self.toks() + scan(src, self.at()).toks,
                e0 + scan(src, p0).errs == self.errors() + scan(src, self.at()).errs,
            decreases self.chars@.len() - self.pos,
        {
            let ghost p = self.pos as int;
            let ghost tp = self.toks();
            let ghost ep = self.errors();
            self.scan_token();
            proof {
                let st = step(src, p);
                assert(scan(src, p).toks == st.toks + scan(src, st.next).toks);
                assert(scan(src, p).errs == st.errs + scan(src, st.next).errs);
                assert(tp + scan(src, p).toks =~= (tp + st.toks) + scan(src, st.next).toks);
                assert(t0 + scan(src, p0).toks =~= self.toks() + scan(src, self.at()).toks);
            }
        }
        let t = Token::new(TokenType::EOF, String::new(), self.current_line);
        proof {
            lemma_tokens_dv_push(self.tokens@, t);
        }
        self.tokens.push(t);
        proof {
            assert(scan(src, self.at()).toks =~= seq![t.deep_view()]);
            assert(t0 + scan(src, p0).toks =~= self.toks());
        }
        clone_tokens(&self.tokens)
    }
}

} // verus!
