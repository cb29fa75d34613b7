//! The two error families: parse-time diagnostics, recoverable at
//! statement granularity, and run-time faults, fatal to the statement
//! being executed.  The `Return` signal shares the run-time channel but
//! is consumed at the nearest call boundary, never reported.

use vstd::prelude::*;
use crate::object::{Object, ObjectV};
use crate::token::{Token, TokenV};

verus! {

/// A lexical diagnostic: what was found, and on which line.
#[derive(Debug, Clone)]
pub enum LexError {
    UnterminatedString { line: usize },
    UnexpectedCharacter { line: usize, ch: char },
}

/// A parse-time diagnostic: the source line and a message.
#[derive(Debug)]
pub enum ParserError {
    UnmatchedParens { line: usize, message: String },
    UnexpectedToken { line: usize, message: String },
    InvalidExpression { line: usize, message: String },
    UnexpectedEndOfFile,
    FunctionError { line: usize, message: String },
}

impl Clone for ParserError {
    fn clone(&self) -> (r: ParserError)
        ensures
            r == *self,
    {
        match self {
            ParserError::UnmatchedParens { line, message } => ParserError::UnmatchedParens {
                line: *line,
                message: message.clone(),
            },
            ParserError::UnexpectedToken { line, message } => ParserError::UnexpectedToken {
                line: *line,
                message: message.clone(),
            },
            ParserError::InvalidExpression { line, message } => ParserError::InvalidExpression {
                line: *line,
                message: message.clone(),
            },
            ParserError::UnexpectedEndOfFile => ParserError::UnexpectedEndOfFile,
            ParserError::FunctionError { line, message } => ParserError::FunctionError {
                line: *line,
                message: message.clone(),
            },
        }
    }
}

/// The mathematical view of a parse-time diagnostic.
#[verifier::ext_equal]
pub enum ParserErrorV {
    UnmatchedParens { line: nat, message: Seq<char> },
    UnexpectedToken { line: nat, message: Seq<char> },
    InvalidExpression { line: nat, message: Seq<char> },
    UnexpectedEndOfFile,
    FunctionError { line: nat, message: Seq<char> },
}

impl DeepView for ParserError {
    type V = ParserErrorV;

    open spec fn deep_view(&self) -> ParserErrorV {
        match self {
            ParserError::UnmatchedParens { line, message } => ParserErrorV::UnmatchedParens {
                line: *line as nat,
                message: message@,
            },
            ParserError::UnexpectedToken { line, message } => ParserErrorV::UnexpectedToken {
                line: *line as nat,
                message: message@,
            },
            ParserError::InvalidExpression { line, message } => ParserErrorV::InvalidExpression {
                line: *line as nat,
                message: message@,
            },
            ParserError::UnexpectedEndOfFile => ParserErrorV::UnexpectedEndOfFile,
            ParserError::FunctionError { line, message } => ParserErrorV::FunctionError {
                line: *line as nat,
                message: message@,
            },
        }
    }
}

/// The view of a parse-diagnostic sequence: the view of each element.
pub open spec fn perrs_dv(s: Seq<ParserError>) -> Seq<ParserErrorV>
    decreases s,
{
    if s.len() == 0 {
        Seq::empty()
    } else {
        perrs_dv(s.drop_last()).push(s.last().deep_view())
    }
}

/// Appending a diagnostic appends its view.
pub broadcast proof fn lemma_perrs_dv_push(s: Seq<ParserError>, e: ParserError)
    ensures
        #[trigger] perrs_dv(s.push(e)) == perrs_dv(s).push(e.deep_view()),
{
    assert(s.push(e).drop_last() =~= s);
    assert(s.push(e).last() == e);
}

/// A run-time fault, carrying the offending token and a message, or the
/// `Return` control signal carrying a returned value.
#[derive(Debug)]
pub enum RuntimeError {
    InvalidBinaryOperation { token: Token, message: String },
    InvalidUnaryOperation { token: Token, message: String },
    InvalidOperandType { token: Token, message: String },
    UndefinedVariable { token: Token },
    InvalidLiteral { token: Token, message: String },
    InvalidLogicalOperation { token: Token, message: String },
    InvalidFunctionCall { token: Token, message: String },
    Return { value: Object },
}

} // verus!

verus! {

/// The mathematical view of a run-time fault.
#[verifier::ext_equal]
pub enum RuntimeErrorV {
    InvalidBinaryOperation { token: TokenV, message: Seq<char> },
    InvalidUnaryOperation { token: TokenV, message: Seq<char> },
    InvalidOperandType { token: TokenV, message: Seq<char> },
    UndefinedVariable { token: TokenV },
    InvalidLiteral { token: TokenV, message: Seq<char> },
    InvalidLogicalOperation { token: TokenV, message: Seq<char> },
    InvalidFunctionCall { token: TokenV, message: Seq<char> },
    Return { value: ObjectV },
}

impl DeepView for RuntimeError {
    type V = RuntimeErrorV;

    open spec fn deep_view(&self) -> RuntimeErrorV {
        match self {
            RuntimeError::InvalidBinaryOperation { token, message } =>
                RuntimeErrorV::InvalidBinaryOperation {
                token: token.deep_view(),
                message: message@,
            },
            RuntimeError::InvalidUnaryOperation { token, message } =>
                RuntimeErrorV::InvalidUnaryOperation {
                token: token.deep_view(),
                message: message@,
            },
            RuntimeError::InvalidOperandType { token, message } =>
                RuntimeErrorV::InvalidOperandType {
                token: token.deep_view(),
                message: message@,
            },
            RuntimeError::UndefinedVariable { token } => RuntimeErrorV::UndefinedVariable {
                token: token.deep_view(),
            },
            RuntimeError::InvalidLiteral { token, message } => RuntimeErrorV::InvalidLiteral {
                token: token.deep_view(),
                message: message@,
            },
            RuntimeError::InvalidLogicalOperation { token, message } =>
                RuntimeErrorV::InvalidLogicalOperation {
                token: token.deep_view(),
                message: message@,
            },
            RuntimeError::InvalidFunctionCall { token, message } =>
                RuntimeErrorV::InvalidFunctionCall {
                token: token.deep_view(),
                message: message@,
            },
            RuntimeError::Return { value } => RuntimeErrorV::Return { value: value.deep_view() },
        }
    }
}

} // verus!
