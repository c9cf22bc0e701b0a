//! The compiler's error type: a kind and a human-readable message.
use vstd::prelude::*;
use crate::text::{push_decimal, push_str, to_owned_string, decimal};

pub mod handler;

verus! {

/// What went wrong, broadly.
#[derive(Debug, Clone, Copy, PartialEq, Eq, Structural)]
pub enum ErrorKind {
    TypeError,
    RuntimeError,
    SyntaxError,
    LexerError,
    ParserError,
    CodegenError,
    NetworkError,
    Io,
    VerificationError,
    BuilderError,
    IntrinsicError,
    LinkageError,
    ParseError,
    TypeMismatch,
    DivisionByZero,
    ModuleNotFound,
    CircularDependency,
    ValidationError,
    ConcurrencyError,
}

/// An error of the compiler: its kind and the message shown to the user.
#[derive(Debug)]
pub struct IoError {
    kind: ErrorKind,
    message: String,
}

impl IoError {
    /// The kind of the error.
    pub closed spec fn spec_kind(&self) -> ErrorKind {
        self.kind
    }

    /// The message of the error, as characters.
    pub closed spec fn spec_message(&self) -> Seq<char> {
        self.message@
    }

    /// The kind of the error.
    pub fn kind(&self) -> (r: ErrorKind)
        ensures
            r == self.spec_kind(),
    {
        self.kind
    }

    /// The message of the error.
    pub fn message(&self) -> (r: &str)
        ensures
            r@ == self.spec_message(),
    {
        self.message.as_str()
    }

    /// An error of the given kind carrying the message unchanged.
    pub fn with_kind(kind: ErrorKind, message: &str) -> (r: Self)
        ensures
            r.spec_kind() == kind,
            r.spec_message() == message@,
    {
        IoError { kind, message: to_owned_string(message) }
    }

    /// A lexer error: the message names the byte position where lexing stopped.
    pub fn lexer_error(position: usize, message: &str) -> (r: Self)
        ensures
            r.spec_kind() == ErrorKind::LexerError,
            r.spec_message() == "Lexer error at position "@ + decimal(position as nat) + ": "@
                + message@,
    {
        let mut m = to_owned_string("Lexer error at position ");
        push_decimal(&mut m, position);
        push_str(&mut m, ": ");
        push_str(&mut m, message);
        IoError { kind: ErrorKind::LexerError, message: m }
    }

    /// A parser error with the given message.
    pub fn parser_error(message: &str) -> (r: Self)
        ensures
            r.spec_kind() == ErrorKind::ParserError,
            r.spec_message() == message@,
    {
        Self::with_kind(ErrorKind::ParserError, message)
    }

    /// A type error with the given message.
    pub fn type_error(message: &str) -> (r: Self)
        ensures
            r.spec_kind() == ErrorKind::TypeError,
            r.spec_message() == message@,
    {
        Self::with_kind(ErrorKind::TypeError, message)
    }

    /// A runtime error with the given message.
    pub fn runtime_error(message: &str) -> (r: Self)
        ensures
            r.spec_kind() == ErrorKind::RuntimeError,
            r.spec_message() == message@,
    {
        Self::with_kind(ErrorKind::RuntimeError, message)
    }

    /// A code generation error with the given message.
    pub fn codegen_error(message: &str) -> (r: Self)
        ensures
            r.spec_kind() == ErrorKind::CodegenError,
            r.spec_message() == message@,
    {
        Self::with_kind(ErrorKind::CodegenError, message)
    }

    /// A validation error with the given message.
    pub fn validation_error(message: &str) -> (r: Self)
        ensures
            r.spec_kind() == ErrorKind::ValidationError,
            r.spec_message() == message@,
    {
        Self::with_kind(ErrorKind::ValidationError, message)
    }

    /// The runtime error reported when the call stack overflows.
    pub fn stack_overflow() -> (r: Self)
        ensures
            r.spec_kind() == ErrorKind::RuntimeError,
            r.spec_message() == "Stack overflow"@,
    {
        Self::with_kind(ErrorKind::RuntimeError, "Stack overflow")
    }

    /// The runtime error reported when memory runs out.
    pub fn out_of_memory() -> (r: Self)
        ensures
            r.spec_kind() == ErrorKind::RuntimeError,
            r.spec_message() == "Out of memory"@,
    {
        Self::with_kind(ErrorKind::RuntimeError, "Out of memory")
    }

    /// The runtime error reported for a deadlock, with its description.
    pub fn deadlock(msg: &str) -> (r: Self)
        ensures
            r.spec_kind() == ErrorKind::RuntimeError,
            r.spec_message() == "Deadlock: "@ + msg@,
    {
        let mut m = to_owned_string("Deadlock: ");
        push_str(&mut m, msg);
        IoError { kind: ErrorKind::RuntimeError, message: m }
    }

    /// A network error: the message is prefixed with "Network error: ".
    pub fn network_error(msg: &str) -> (r: Self)
        ensures
            r.spec_kind() == ErrorKind::RuntimeError,
            r.spec_message() == "Network error: "@ + msg@,
    {
        let mut m = to_owned_string("Network error: ");
        push_str(&mut m, msg);
        IoError { kind: ErrorKind::RuntimeError, message: m }
    }

    /// A parse error: the message is prefixed with "Parse error: ".
    pub fn parse_error(msg: &str) -> (r: Self)
        ensures
            r.spec_kind() == ErrorKind::RuntimeError,
            r.spec_message() == "Parse error: "@ + msg@,
    {
        let mut m = to_owned_string("Parse error: ");
        push_str(&mut m, msg);
        IoError { kind: ErrorKind::RuntimeError, message: m }
    }

    /// A lookup failure: the message is prefixed with "Not found: ".
    pub fn not_found(msg: &str) -> (r: Self)
        ensures
            r.spec_kind() == ErrorKind::RuntimeError,
            r.spec_message() == "Not found: "@ + msg@,
    {
        let mut m = to_owned_string("Not found: ");
        push_str(&mut m, msg);
        IoError { kind: ErrorKind::RuntimeError, message: m }
    }

    /// The message shown when the error is displayed.
    pub fn to_string(&self) -> (r: String)
        ensures
            r@ == self.spec_message(),
    {
        self.message.clone()
    }
}

} // verus!
