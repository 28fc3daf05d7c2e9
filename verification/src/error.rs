//! The error taxonomy: compile-time diagnostics and runtime errors, and the
//! combined error a whole interpretation can end in.
use vstd::prelude::*;
use vstd::string::{StrSliceExecFns, StringSliceAdditionalSpecFns};

use crate::token::Token;
use crate::value::{dec_bytes, render_u64};

verus! {

/// Appends `src` to `dst`.
pub fn append_bytes(dst: &mut Vec<u8>, src: &Vec<u8>)
    ensures
        final(dst)@ == old(dst)@ + src@,
{
    let mut i: usize = 0;
    let n = src.len();
    while i < n
        invariant
            i <= n,
            n == src@.len(),
            dst@ == old(dst)@ + src@.take(i as int),
        decreases n - i,
    {
        dst.push(src[i]);
        proof {
            assert(dst@ =~= old(dst)@ + src@.take(i + 1));
        }
        i = i + 1;
    }
    proof {
        assert(src@.take(n as int) =~= src@);
    }
}

/// A compile-time diagnostic: the message, the lexeme it points at (empty
/// when the parser was at the end of the stream), and the source line.
#[derive(Debug, Clone, PartialEq, Eq)]
pub struct CompilerError {
    pub message: Vec<u8>,
    pub lexeme: Vec<u8>,
    pub at_end: bool,
    pub line: u32,
}

impl CompilerError {
    /// A diagnostic pointing at a token, or at the end of the stream.
    pub fn new(token: Option<&Token>, message: Vec<u8>, line: u32) -> (r: CompilerError)
        ensures
            r.message == message,
            r.line == line,
            r.at_end == (token is None),
            token matches Some(t) ==> r.lexeme@ == t.lexeme@,
    {
        match token {
            Some(t) => {
                let mut lexeme: Vec<u8> = Vec::new();
                append_bytes(&mut lexeme, &t.lexeme);
                proof {
                    assert(lexeme@ =~= t.lexeme@);
                }
                CompilerError { message, lexeme, at_end: false, line }
            },
            None => CompilerError { message, lexeme: Vec::new(), at_end: true, line },
        }
    }

    /// Renders the diagnostic: `[line N] Error at 'lexeme': message`, with
    /// `at end` in place of the lexeme at the end of the stream.
    pub fn render(&self) -> (r: Vec<u8>)
        ensures
            r@ == spec_render_diagnostic(*self),
    {
        let mut out = "[line ".as_bytes_vec();
        let line_digits = render_u64(self.line as u64);
        append_bytes(&mut out, &line_digits);
        let mid = "] Error".as_bytes_vec();
        append_bytes(&mut out, &mid);
        if self.at_end {
            let at_end = " at end".as_bytes_vec();
            append_bytes(&mut out, &at_end);
        } else {
            let at = " at '".as_bytes_vec();
            append_bytes(&mut out, &at);
            append_bytes(&mut out, &self.lexeme);
            let quote = "'".as_bytes_vec();
            append_bytes(&mut out, &quote);
        }
        let sep = ": ".as_bytes_vec();
        append_bytes(&mut out, &sep);
        append_bytes(&mut out, &self.message);
        proof {
            assert(out@ =~= spec_render_diagnostic(*self));
        }
        out
    }
}

/// How a diagnostic renders: the line, where the parser stood, the message.
pub open spec fn spec_render_diagnostic(e: CompilerError) -> Seq<u8> {
    "[line ".spec_bytes() + dec_bytes(e.line as nat) + "] Error".spec_bytes() + (if e.at_end {
        " at end".spec_bytes()
    } else {
        " at '".spec_bytes() + e.lexeme@ + "'".spec_bytes()
    }) + ": ".spec_bytes() + e.message@
}

/// The text each kind of runtime error shows.
pub open spec fn spec_runtime_message(k: RuntimeErrorKind) -> Seq<u8> {
    match k {
        RuntimeErrorKind::OperandMustBeNumber => "Operand must be a number.".spec_bytes(),
        RuntimeErrorKind::OperandsMustBeNumbers => "Operands must be two numbers.".spec_bytes(),
        RuntimeErrorKind::OperandsMustBeNumbersOrStrings => {
            "Operands must be two numbers or two strings.".spec_bytes()
        },
        RuntimeErrorKind::DivisionByZero => "Division by zero.".spec_bytes(),
        RuntimeErrorKind::UndefinedVariable(name) => "Undefined variable '".spec_bytes() + name@
            + "'.".spec_bytes(),
        RuntimeErrorKind::UndefinedProperty(name) => "Undefined property '".spec_bytes() + name@
            + "'.".spec_bytes(),
        RuntimeErrorKind::WrongArity { expected, got } => "Expected ".spec_bytes() + dec_bytes(
            expected as nat,
        ) + " arguments but got ".spec_bytes() + dec_bytes(got as nat) + ".".spec_bytes(),
        RuntimeErrorKind::NotCallable => "Can only call functions and classes.".spec_bytes(),
        RuntimeErrorKind::OnlyInstancesHaveFields => "Only instances have fields.".spec_bytes(),
        RuntimeErrorKind::OnlyInstancesHaveProperties => {
            "Only instances have properties.".spec_bytes()
        },
        RuntimeErrorKind::SuperclassMustBeClass => "Superclass must be a class.".spec_bytes(),
        RuntimeErrorKind::StackOverflow => "Stack overflow.".spec_bytes(),
        RuntimeErrorKind::InvalidBytecode => "Invalid bytecode.".spec_bytes(),
    }
}

/// The structural kinds of runtime error the dispatch loop can raise.
#[derive(Debug, Clone, PartialEq, Eq)]
pub enum RuntimeErrorKind {
    /// Unary negation of a non-number.
    OperandMustBeNumber,
    /// Arithmetic or ordered comparison on non-numbers.
    OperandsMustBeNumbers,
    /// `+` on operands that are neither both numbers nor both strings.
    OperandsMustBeNumbersOrStrings,
    /// Division with a zero divisor.
    DivisionByZero,
    /// Reading or assigning a global that was never defined; holds the name.
    UndefinedVariable(Vec<u8>),
    /// Reading a property an instance does not have; holds the name.
    UndefinedProperty(Vec<u8>),
    /// A call whose argument count differs from the callee's arity.
    WrongArity { expected: u8, got: u8 },
    /// A call of a value that is neither a function nor a class.
    NotCallable,
    /// A field write on a value that is not an instance.
    OnlyInstancesHaveFields,
    /// A property read on a value that is not an instance.
    OnlyInstancesHaveProperties,
    /// `<` in a class declaration naming a non-class.
    SuperclassMustBeClass,
    /// Too many nested call frames or value-stack slots.
    StackOverflow,
    /// The dispatch loop met a byte stream it cannot decode.
    InvalidBytecode,
}

/// A runtime error: its kind and the source line of the instruction that
/// raised it.
#[derive(Debug, Clone, PartialEq, Eq)]
pub struct RuntimeError {
    pub kind: RuntimeErrorKind,
    pub line: u32,
}

impl RuntimeError {
    /// An error of the given kind at the given line.
    pub fn new(kind: RuntimeErrorKind, line: u32) -> (r: RuntimeError)
        ensures
            r.kind == kind,
            r.line == line,
    {
        RuntimeError { kind, line }
    }

    /// The human-readable message for this kind of error.
    pub fn message(&self) -> (r: Vec<u8>)
        ensures
            r@ == spec_runtime_message(self.kind),
    {
        match &self.kind {
            RuntimeErrorKind::OperandMustBeNumber => "Operand must be a number.".as_bytes_vec(),
            RuntimeErrorKind::OperandsMustBeNumbers => "Operands must be two numbers.".as_bytes_vec(),
            RuntimeErrorKind::OperandsMustBeNumbersOrStrings => {
                "Operands must be two numbers or two strings.".as_bytes_vec()
            },
            RuntimeErrorKind::DivisionByZero => "Division by zero.".as_bytes_vec(),
            RuntimeErrorKind::UndefinedVariable(name) => {
                let mut out = "Undefined variable '".as_bytes_vec();
                append_bytes(&mut out, name);
                let tail = "'.".as_bytes_vec();
                append_bytes(&mut out, &tail);
                proof {
                    assert(out@ =~= spec_runtime_message(self.kind));
                }
                out
            },
            RuntimeErrorKind::UndefinedProperty(name) => {
                let mut out = "Undefined property '".as_bytes_vec();
                append_bytes(&mut out, name);
                let tail = "'.".as_bytes_vec();
                append_bytes(&mut out, &tail);
                proof {
                    assert(out@ =~= spec_runtime_message(self.kind));
                }
                out
            },
            RuntimeErrorKind::WrongArity { expected, got } => {
                let mut out = "Expected ".as_bytes_vec();
                let expected_digits = render_u64(*expected as u64);
                append_bytes(&mut out, &expected_digits);
                let mid = " arguments but got ".as_bytes_vec();
                append_bytes(&mut out, &mid);
                let got_digits = render_u64(*got as u64);
                append_bytes(&mut out, &got_digits);
                let tail = ".".as_bytes_vec();
                append_bytes(&mut out, &tail);
                proof {
                    assert(out@ =~= spec_runtime_message(self.kind));
                }
                out
            },
            RuntimeErrorKind::NotCallable => "Can only call functions and classes.".as_bytes_vec(),
            RuntimeErrorKind::OnlyInstancesHaveFields => "Only instances have fields.".as_bytes_vec(),
            RuntimeErrorKind::OnlyInstancesHaveProperties => {
                "Only instances have properties.".as_bytes_vec()
            },
            RuntimeErrorKind::SuperclassMustBeClass => "Superclass must be a class.".as_bytes_vec(),
            RuntimeErrorKind::StackOverflow => "Stack overflow.".as_bytes_vec(),
            RuntimeErrorKind::InvalidBytecode => "Invalid bytecode.".as_bytes_vec(),
        }
    }
}

/// What a whole interpretation can end in: a compile-time diagnostic or a
/// runtime error.
#[derive(Debug, Clone, PartialEq, Eq)]
pub enum Error {
    Compiler(CompilerError),
    Runtime(RuntimeError),
}

} // verus!
