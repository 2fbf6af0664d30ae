use vstd::prelude::*;

use crate::token::TokenType;

verus! {

/// Every error the scanner, parser, compiler or virtual machine reports.
#[derive(Debug)]
pub enum InterpretError {
    Scan(ScanError),
    Syntax(SyntaxError),
    Compile(CompileError),
    Runtime(RuntimeError),
    Panic(PanicError),
    UnImplemented,
}

/// Errors of the scanner.
#[derive(Debug)]
pub enum ScanError {
    /// A string that the end of input cut off; the line it reached.
    UnterminatedString(u32),
    /// A character that starts no token.
    UnexpectedCharacter(u32, char),
}

/// Errors of the parser.
#[derive(Debug)]
pub enum SyntaxError {
    /// Line, the text found, and the kind expected.
    ExpectedChar(u32, String, String),
    /// Line and the text found where an expression should start.
    ExpectedExpression(u32, String),
    /// The token stream ended where a token was expected.
    UnexpectedEOF,
    InvalidAssignment(u32),
    TooManyArgs(u32),
    TooManyParams(u32),
}

/// Errors of the compiler.
#[derive(Debug)]
pub enum CompileError {
    InvalidOpCode(u32, u8),
    SelfInitialization(u32),
    AlreadyDeclared(u32, String),
    LargeJump(u32, usize),
    TopReturn(u32),
    TopThis(u32),
    TopSuper(u32),
    TopClassSuper(u32),
    ReturnValueInInit(u32),
    SelfInheritance(u32, String),
}

/// Errors raised while the program runs.
#[derive(Debug)]
pub enum RuntimeError {
    NameError(u32, String),
    OperandMismatch(u32, String),
    InvalidCall(u32, String),
    FunctionCallArityMismatch(u32, usize, usize),
    InvalidPropertyAccess(u32, String, String),
    InheritFromNonClass(u32, String, String),
    StackOverflow(u32),
}

/// Internal errors: states that a correct front end never produces.
#[derive(Debug)]
pub enum PanicError {
    General(u32, String),
    DeallocatedObject(u32),
    NonObjectVariable(u32),
    InvalidToken(u32, TokenType, String),
}

impl ScanError {
    /// An identical copy of this error.
    pub fn duplicate(&self) -> (e: ScanError)
        ensures
            e == *self,
    {
        match self {
            ScanError::UnterminatedString(l) => ScanError::UnterminatedString(*l),
            ScanError::UnexpectedCharacter(l, c) => ScanError::UnexpectedCharacter(*l, *c),
        }
    }
}

impl SyntaxError {
    /// An identical copy of this error.
    pub fn duplicate(&self) -> (e: SyntaxError)
        ensures
            e == *self,
    {
        match self {
            SyntaxError::ExpectedChar(l, a, b) => SyntaxError::ExpectedChar(
                *l,
                a.clone(),
                b.clone(),
            ),
            SyntaxError::ExpectedExpression(l, a) => SyntaxError::ExpectedExpression(*l, a.clone()),
            SyntaxError::UnexpectedEOF => SyntaxError::UnexpectedEOF,
            SyntaxError::InvalidAssignment(l) => SyntaxError::InvalidAssignment(*l),
            SyntaxError::TooManyArgs(l) => SyntaxError::TooManyArgs(*l),
            SyntaxError::TooManyParams(l) => SyntaxError::TooManyParams(*l),
        }
    }
}

impl CompileError {
    /// An identical copy of this error.
    pub fn duplicate(&self) -> (e: CompileError)
        ensures
            e == *self,
    {
        match self {
            CompileError::InvalidOpCode(l, b) => CompileError::InvalidOpCode(*l, *b),
            CompileError::SelfInitialization(l) => CompileError::SelfInitialization(*l),
            CompileError::AlreadyDeclared(l, s) => CompileError::AlreadyDeclared(*l, s.clone()),
            CompileError::LargeJump(l, d) => CompileError::LargeJump(*l, *d),
            CompileError::TopReturn(l) => CompileError::TopReturn(*l),
            CompileError::TopThis(l) => CompileError::TopThis(*l),
            CompileError::TopSuper(l) => CompileError::TopSuper(*l),
            CompileError::TopClassSuper(l) => CompileError::TopClassSuper(*l),
            CompileError::ReturnValueInInit(l) => CompileError::ReturnValueInInit(*l),
            CompileError::SelfInheritance(l, s) => CompileError::SelfInheritance(*l, s.clone()),
        }
    }
}

impl RuntimeError {
    /// An identical copy of this error.
    pub fn duplicate(&self) -> (e: RuntimeError)
        ensures
            e == *self,
    {
        match self {
            RuntimeError::NameError(l, s) => RuntimeError::NameError(*l, s.clone()),
            RuntimeError::OperandMismatch(l, s) => RuntimeError::OperandMismatch(*l, s.clone()),
            RuntimeError::InvalidCall(l, s) => RuntimeError::InvalidCall(*l, s.clone()),
            RuntimeError::FunctionCallArityMismatch(l, a, b) => {
                RuntimeError::FunctionCallArityMismatch(*l, *a, *b)
            },
            RuntimeError::InvalidPropertyAccess(l, a, b) => RuntimeError::InvalidPropertyAccess(
                *l,
                a.clone(),
                b.clone(),
            ),
            RuntimeError::InheritFromNonClass(l, a, b) => RuntimeError::InheritFromNonClass(
                *l,
                a.clone(),
                b.clone(),
            ),
            RuntimeError::StackOverflow(l) => RuntimeError::StackOverflow(*l),
        }
    }
}

impl PanicError {
    /// An identical copy of this error.
    pub fn duplicate(&self) -> (e: PanicError)
        ensures
            e == *self,
    {
        match self {
            PanicError::General(l, s) => PanicError::General(*l, s.clone()),
            PanicError::DeallocatedObject(l) => PanicError::DeallocatedObject(*l),
            PanicError::NonObjectVariable(l) => PanicError::NonObjectVariable(*l),
            PanicError::InvalidToken(l, t, s) => PanicError::InvalidToken(*l, *t, s.clone()),
        }
    }
}

impl InterpretError {
    /// An identical copy of this error.
    pub fn duplicate(&self) -> (e: InterpretError)
        ensures
            e == *self,
    {
        match self {
            InterpretError::Scan(e) => InterpretError::Scan(e.duplicate()),
            InterpretError::Syntax(e) => InterpretError::Syntax(e.duplicate()),
            InterpretError::Compile(e) => InterpretError::Compile(e.duplicate()),
            InterpretError::Runtime(e) => InterpretError::Runtime(e.duplicate()),
            InterpretError::Panic(e) => InterpretError::Panic(e.duplicate()),
            InterpretError::UnImplemented => InterpretError::UnImplemented,
        }
    }
}

} // verus!
