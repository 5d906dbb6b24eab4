//! Diagnostics and runtime errors.
//!
//! Every recoverable problem — a lexical error, a parse error, a runtime
//! error — becomes a [`Diagnostic`] collected by an [`ErrorHandler`]; nothing
//! in the pipeline ever aborts. The handler is a plain value: the I/O shell
//! around the library decides where the collected entries go.

use vstd::prelude::*;
use vstd::string::*;
use crate::token::Token;

verus! {

/// What went wrong while evaluating: the runtime error taxonomy.
#[derive(Debug, Clone, Copy, PartialEq, Eq, Structural)]
pub enum ErrorKind {
    /// An operator was applied to operands of the wrong type.
    TypeMismatch,
    /// A name was read or assigned that no frame in the scope chain defines.
    UndefinedVariable,
    /// A postfix operator was applied to something other than a bare variable.
    InvalidTarget,
    /// The parser accepted an operator the evaluator does not know.
    UnknownOperator,
    /// The right operand of `/` was zero.
    DivisionByZero,
    /// The mathematical result does not fit in the number type.
    Overflow,
    /// The interpreter's iteration budget for loops ran out.
    Exhausted,
}

/// A runtime error: its kind, the offending token for line attribution, and
/// the diagnostic text.
#[derive(Debug)]
pub struct RuntimeError {
    pub kind: ErrorKind,
    pub token: Token,
    pub message: String,
}

/// The model of a runtime error: kind, source line, diagnostic text.
pub struct EvalErr {
    pub kind: ErrorKind,
    pub line: nat,
    pub message: Seq<char>,
}

impl View for RuntimeError {
    type V = EvalErr;

    open spec fn view(&self) -> EvalErr {
        EvalErr { kind: self.kind, line: self.token.line as nat, message: self.message@ }
    }
}

impl RuntimeError {
    pub fn new(kind: ErrorKind, token: Token, msg: &str) -> (e: RuntimeError)
        ensures
            e@ == (EvalErr { kind, line: token.line as nat, message: msg@ }),
            e.token == token,
    {
        RuntimeError { kind, token, message: String::from_str(msg) }
    }
}

/// The runtime error raised when no frame in the chain binds a name.
pub open spec fn undefined_err(line: nat) -> EvalErr {
    EvalErr { kind: ErrorKind::UndefinedVariable, line, message: "Undefined variable."@ }
}

/// The runtime error raised when a loop has run for more iterations than
/// the interpreter's budget allows.
pub open spec fn exhausted_err() -> EvalErr {
    EvalErr { kind: ErrorKind::Exhausted, line: 0, message: "Loop budget exhausted."@ }
}

/// One reported problem: the source line it was attributed to and its text.
#[derive(Debug)]
pub struct Diagnostic {
    pub line: usize,
    pub message: String,
}

/// The model of a diagnostic.
pub struct Diag {
    pub line: nat,
    pub message: Seq<char>,
}

impl View for Diagnostic {
    type V = Diag;

    open spec fn view(&self) -> Diag {
        Diag { line: self.line as nat, message: self.message@ }
    }
}

/// Collects diagnostics in the order they were reported.
#[derive(Debug)]
pub struct ErrorHandler {
    pub entries: Vec<Diagnostic>,
}

impl View for ErrorHandler {
    type V = Seq<Diag>;

    open spec fn view(&self) -> Seq<Diag> {
        self.entries@.map_values(|d: Diagnostic| d@)
    }
}

impl ErrorHandler {
    pub fn new() -> (h: ErrorHandler)
        ensures
            h@ == Seq::<Diag>::empty(),
    {
        let h = ErrorHandler { entries: Vec::new() };
        proof {
            assert(h@ =~= Seq::<Diag>::empty());
        }
        h
    }

    /// Record one problem, attributed to a source line.
    pub fn report(&mut self, line: usize, msg: &str)
        ensures
            final(self)@ == old(self)@.push(Diag { line: line as nat, message: msg@ }),
    {
        let ghost pre = self@;
        self.entries.push(Diagnostic { line, message: String::from_str(msg) });
        proof {
            assert(self@ =~= pre.push(Diag { line: line as nat, message: msg@ }));
        }
    }

    /// Append every entry of `other`, keeping report order.
    pub fn absorb(&mut self, other: ErrorHandler)
        ensures
            final(self)@ == old(self)@ + other@,
    {
        let ghost pre = self@;
        let mut rest = other;
        self.entries.append(&mut rest.entries);
        proof {
            assert(self@ =~= pre + other@);
        }
    }
}

/// Report a problem attributed to a token's source line.
pub fn error(handler: &mut ErrorHandler, token: &Token, msg: &str)
    ensures
        final(handler)@ == old(handler)@.push(Diag { line: token.line as nat, message: msg@ }),
{
    handler.report(token.line, msg);
}

} // verus!
