//! Errors of the three phases: lexing, compilation, execution. All are
//! fatal: the pipeline compiles and runs a program once and stops at the
//! first error.

use crate::lex::{Token, TokenV};
use crate::value::{Value, ValueV};
use vstd::prelude::*;

verus! {

/// Why lexing failed.
#[derive(Clone, Copy, Debug, PartialEq, Eq, Structural)]
pub enum LexFailKind {
    /// The input matches no token grammar at this offset.
    NoTokenMatch,
    /// A string literal has no closing quote.
    UnterminatedString,
    /// An integer literal exceeds the representable range.
    IntegerOutOfRange,
}

/// A lexical error: what failed and the byte offset where the offending
/// token starts.
#[derive(Clone, Copy, Debug, PartialEq, Eq, Structural)]
pub struct LexError {
    pub kind: LexFailKind,
    pub pos: usize,
}

/// Model of a compile-time error.
pub enum CompileErrV {
    Lex(LexFailKind, int),
    UnexpectedToken(TokenV),
    ExpectedVariable(TokenV),
    ExpectedAssign(TokenV),
    ExpectedParR(TokenV),
    ExpectedString(TokenV),
    InvalidArgument(TokenV),
    TooManyConstants,
    TooManyLocals,
}

/// A compile-time error; most carry the offending token.
#[derive(Debug, PartialEq)]
pub enum CompileError {
    /// The lexer failed while the compiler was reading tokens.
    Lex(LexError),
    /// A statement starts with a token that opens no statement form.
    UnexpectedToken(Token),
    /// `local` is not followed by a name.
    ExpectedVariable(Token),
    /// A required `=` is missing.
    ExpectedAssign(Token),
    /// A required `)` is missing.
    ExpectedParR(Token),
    /// A call statement is followed by neither `(` nor a string literal.
    ExpectedString(Token),
    /// An expression starts with a token that opens no expression form.
    InvalidArgument(Token),
    /// The constant pool outgrew its 8-bit index space.
    TooManyConstants,
    /// The locals outgrew the 8-bit register space.
    TooManyLocals,
}

impl View for CompileError {
    type V = CompileErrV;

    open spec fn view(&self) -> CompileErrV {
        match *self {
            CompileError::Lex(e) => CompileErrV::Lex(e.kind, e.pos as int),
            CompileError::UnexpectedToken(ref t) => CompileErrV::UnexpectedToken(t@),
            CompileError::ExpectedVariable(ref t) => CompileErrV::ExpectedVariable(t@),
            CompileError::ExpectedAssign(ref t) => CompileErrV::ExpectedAssign(t@),
            CompileError::ExpectedParR(ref t) => CompileErrV::ExpectedParR(t@),
            CompileError::ExpectedString(ref t) => CompileErrV::ExpectedString(t@),
            CompileError::InvalidArgument(ref t) => CompileErrV::InvalidArgument(t@),
            CompileError::TooManyConstants => CompileErrV::TooManyConstants,
            CompileError::TooManyLocals => CompileErrV::TooManyLocals,
        }
    }
}

/// Model of a runtime error.
pub enum RtErrV {
    NotCallable(ValueV),
    GlobalKeyNotString(int),
    ConstIndexOutOfBounds(int),
    StackIndexOutOfBounds(int),
}

/// A runtime error.
#[derive(Debug)]
pub enum RuntimeError {
    /// The call target is not a callable value; carries that value.
    NotCallable(Value),
    /// A global-name constant is not a string; carries the constant index.
    GlobalKeyNotString(usize),
    /// An instruction addresses a constant beyond the pool.
    ConstIndexOutOfBounds(usize),
    /// An instruction reads a stack slot beyond the stack.
    StackIndexOutOfBounds(usize),
}

impl View for RuntimeError {
    type V = RtErrV;

    open spec fn view(&self) -> RtErrV {
        match *self {
            RuntimeError::NotCallable(ref v) => RtErrV::NotCallable(v@),
            RuntimeError::GlobalKeyNotString(k) => RtErrV::GlobalKeyNotString(k as int),
            RuntimeError::ConstIndexOutOfBounds(k) => RtErrV::ConstIndexOutOfBounds(k as int),
            RuntimeError::StackIndexOutOfBounds(k) => RtErrV::StackIndexOutOfBounds(k as int),
        }
    }
}

} // verus!
