//! The lexer on its own: token streams, the numeric-literal quirks,
//! error counting, and line numbers.

use treelang::lexer::Lexer;
use treelang::token::TokenType;

fn kinds(src: &str) -> Vec<TokenType> {
    let mut lx = Lexer::new(src);
    lx.tokenize().iter().map(|t| t.token_type).collect()
}

#[test]
fn number_without_point_is_one_token() {
    let mut lx = Lexer::new("123");
    let toks = lx.tokenize();
    assert_eq!(lx.num_errors, 0);
    assert_eq!(toks.len(), 2);
    assert_eq!(toks[0].token_type, TokenType::NUMBER);
    assert_eq!(toks[0].lexeme, "123");
    assert_eq!(toks[0].line, 1);
    assert_eq!(toks[1].token_type, TokenType::EOF);
}

#[test]
fn number_with_trailing_point_splits() {
    let mut lx = Lexer::new("1.");
    let toks = lx.tokenize();
    assert_eq!(lx.num_errors, 0);
    assert_eq!(toks.len(), 3);
    assert_eq!(toks[0].token_type, TokenType::NUMBER);
    assert_eq!(toks[0].lexeme, "1.0");
    assert_eq!(toks[1].token_type, TokenType::DOT);
    assert_eq!(toks[1].lexeme, ".");
    assert_eq!(toks[2].token_type, TokenType::EOF);
}

#[test]
fn number_takes_one_point_only() {
    let mut lx = Lexer::new("1.2.3");
    let toks = lx.tokenize();
    assert_eq!(toks[0].token_type, TokenType::NUMBER);
    assert_eq!(toks[0].lexeme, "1.2");
    assert_eq!(toks[1].token_type, TokenType::DOT);
    assert_eq!(toks[2].token_type, TokenType::NUMBER);
    assert_eq!(toks[2].lexeme, "3");
}

#[test]
fn unterminated_string_counts_one_error() {
    let mut lx = Lexer::new("\"abc");
    let toks = lx.tokenize();
    assert_eq!(lx.num_errors, 1);
    assert_eq!(toks.len(), 1);
    assert_eq!(toks[0].token_type, TokenType::EOF);
}

#[test]
fn terminated_string_keeps_contents() {
    let mut lx = Lexer::new("\"hi there\"");
    let toks = lx.tokenize();
    assert_eq!(lx.num_errors, 0);
    assert_eq!(toks[0].token_type, TokenType::STRING);
    assert_eq!(toks[0].lexeme, "hi there");
}

#[test]
fn two_character_operators() {
    assert_eq!(
        kinds("== != >= <= = ! > <"),
        vec![
            TokenType::EQUAL_EQUAL,
            TokenType::BANG_EQUAL,
            TokenType::GREATER_EQUAL,
            TokenType::LESS_EQUAL,
            TokenType::EQUAL,
            TokenType::BANG,
            TokenType::GREATER,
            TokenType::LESS,
            TokenType::EOF,
        ],
    );
}

#[test]
fn comment_runs_to_end_of_line() {
    assert_eq!(
        kinds("+ // anything ; here\n-"),
        vec![TokenType::PLUS, TokenType::MINUS, TokenType::EOF],
    );
}

#[test]
fn keywords_and_identifiers() {
    assert_eq!(
        kinds("and class else false for fn if null or print return super this true var while foo"),
        vec![
            TokenType::AND,
            TokenType::CLASS,
            TokenType::ELSE,
            TokenType::FALSE,
            TokenType::FOR,
            TokenType::FN,
            TokenType::IF,
            TokenType::NULL,
            TokenType::OR,
            TokenType::PRINT,
            TokenType::RETURN,
            TokenType::SUPER,
            TokenType::THIS,
            TokenType::TRUE,
            TokenType::VAR,
            TokenType::WHILE,
            TokenType::IDENTIFIER,
            TokenType::EOF,
        ],
    );
}

#[test]
fn keyword_prefix_is_identifier() {
    let mut lx = Lexer::new("iffy orchid android");
    let toks = lx.tokenize();
    assert_eq!(toks[0].token_type, TokenType::IDENTIFIER);
    assert_eq!(toks[1].token_type, TokenType::IDENTIFIER);
    assert_eq!(toks[2].token_type, TokenType::IDENTIFIER);
}

#[test]
fn line_numbers_follow_newlines() {
    let mut lx = Lexer::new("+\n-\n*");
    let toks = lx.tokenize();
    assert_eq!(toks[0].line, 1);
    assert_eq!(toks[1].line, 2);
    assert_eq!(toks[2].line, 3);
    assert_eq!(toks[3].line, 3);
}

#[test]
fn string_token_line_is_at_closing_quote() {
    let mut lx = Lexer::new("\"a\nb\"");
    let toks = lx.tokenize();
    assert_eq!(lx.num_errors, 0);
    assert_eq!(toks[0].token_type, TokenType::STRING);
    assert_eq!(toks[0].lexeme, "a\nb");
    assert_eq!(toks[0].line, 2);
}

#[test]
fn unexpected_character_counts_error_and_continues() {
    let mut lx = Lexer::new("#+");
    let toks = lx.tokenize();
    assert_eq!(lx.num_errors, 1);
    assert_eq!(toks[0].token_type, TokenType::PLUS);
    assert_eq!(toks[1].token_type, TokenType::EOF);
}

#[test]
fn get_tokens_matches_tokenize() {
    let mut lx = Lexer::new("1 + 2");
    let toks = lx.tokenize();
    let again = lx.get_tokens();
    assert_eq!(toks.len(), again.len());
    for i in 0..toks.len() {
        assert_eq!(toks[i].token_type, again[i].token_type);
        assert_eq!(toks[i].lexeme, again[i].lexeme);
        assert_eq!(toks[i].line, again[i].line);
    }
}
