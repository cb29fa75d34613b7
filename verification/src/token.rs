//! Tokens: the lexer's output and the parser's input.

use vstd::prelude::*;

verus! {

/// The closed set of token kinds: punctuation, operators, literal kinds,
/// keywords, identifiers, and the end-of-input marker.
#[allow(non_camel_case_types)]
#[derive(Debug, Clone, Copy, PartialEq, Eq, Structural)]
pub enum TokenType {
    LEFT_PAREN,
    RIGHT_PAREN,
    LEFT_BRACE,
    RIGHT_BRACE,
    STAR,
    DOT,
    COMMA,
    PLUS,
    SLASH,
    EQUAL,
    EQUAL_EQUAL,
    BANG_EQUAL,
    GREATER,
    GREATER_EQUAL,
    LESS,
    LESS_EQUAL,
    BANG,
    SEMICOLON,
    MINUS,
    STRING,
    NUMBER,
    AND,
    CLASS,
    ELSE,
    FALSE,
    FOR,
    FN,
    IF,
    NULL,
    OR,
    PRINT,
    RETURN,
    SUPER,
    THIS,
    TRUE,
    VAR,
    WHILE,
    IDENTIFIER,
    EOF,
}

/// One token: its kind, the exact source substring it came from, and the
/// line it was found on.
#[derive(Debug)]
pub struct Token {
    pub token_type: TokenType,
    pub lexeme: String,
    pub line: usize,
}

/// The mathematical view of a token: the kind, the lexeme as a character
/// sequence, and the line number.
#[verifier::ext_equal]
pub struct TokenV {
    pub token_type: TokenType,
    pub lexeme: Seq<char>,
    pub line: nat,
}

impl DeepView for Token {
    type V = TokenV;

    open spec fn deep_view(&self) -> TokenV {
        TokenV { token_type: self.token_type, lexeme: self.lexeme@, line: self.line as nat }
    }
}

/// The view of a token sequence: the view of each element.
pub open spec fn tokens_dv(s: Seq<Token>) -> Seq<TokenV>
    decreases s,
{
    if s.len() == 0 {
        Seq::empty()
    } else {
        tokens_dv(s.drop_last()).push(s.last().deep_view())
    }
}

/// `tokens_dv` is the element-wise view: it keeps the length and views
/// each element in place.
pub broadcast proof fn lemma_tokens_dv(s: Seq<Token>)
    ensures
        (#[trigger] tokens_dv(s)).len() == s.len(),
        forall|i: int| 0 <= i < s.len() ==> tokens_dv(s)[i] == s[i].deep_view(),
    decreases s,
{
    if s.len() > 0 {
        lemma_tokens_dv(s.drop_last());
        assert(tokens_dv(s) == tokens_dv(s.drop_last()).push(s.last().deep_view()));
        assert forall|i: int| 0 <= i < s.len() implies tokens_dv(s)[i] == s[i].deep_view() by {
            if i < s.len() - 1 {
                assert(tokens_dv(s)[i] == tokens_dv(s.drop_last())[i]);
                assert(s.drop_last()[i] == s[i]);
            } else {
                assert(tokens_dv(s)[i] == s.last().deep_view());
            }
        }
    }
}

/// Appending a token appends its view.
pub broadcast proof fn lemma_tokens_dv_push(s: Seq<Token>, t: Token)
    ensures
        #[trigger] tokens_dv(s.push(t)) == tokens_dv(s).push(t.deep_view()),
{
    assert(s.push(t).drop_last() =~= s);
    assert(s.push(t).last() == t);
}

impl Token {
    pub fn new(token_type: TokenType, lexeme: String, line: usize) -> (t: Token)
        ensures
            t.token_type == token_type,
            t.lexeme@ == lexeme@,
            t.line == line,
    {
        Token { token_type, lexeme, line }
    }
}

impl Clone for Token {
    fn clone(&self) -> (t: Token)
        ensures
            t == *self,
    {
        Token { token_type: self.token_type, lexeme: self.lexeme.clone(), line: self.line }
    }
}

/// An element-for-element copy of a token sequence.
pub fn clone_tokens(v: &Vec<Token>) -> (r: Vec<Token>)
    ensures
        r@ == v@,
{
    let mut r: Vec<Token> = Vec::new();
    let mut i: usize = 0;
    while i < v.len()
        invariant
            i <= v@.len(),
            r@ == v@.subrange(0, i as int),
        decreases v@.len() - i,
    {
        r.push(v[i].clone());
        i = i + 1;
        proof {
            assert(r@ =~= v@.subrange(0, i as int));
        }
    }
    proof {
        assert(r@ =~= v@);
    }
    r
}

} // verus!
