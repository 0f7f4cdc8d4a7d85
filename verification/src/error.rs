//! Error kinds: compile-time template faults, evaluation faults, and
//! policy faults (rejected before any SQL is generated). All are returned
//! as explicit result values; no function here panics or logs-and-continues.

use vstd::prelude::*;

verus! {

/// A malformed template: unbalanced delimiters or invalid expression
/// grammar. Fatal and never retried, since it indicates a static
/// authoring bug in the template source.
#[derive(Clone, Copy, Debug, PartialEq, Eq, Structural)]
pub enum CompileErr {
    /// A backtick-delimited literal was never closed.
    UnclosedBacktick,
    /// A `${` or `#{` substitution was never closed with `}`.
    UnclosedBrace,
    /// A quoted string (in an expression or a trim separator) was never closed.
    UnclosedQuote,
    /// A character that no token of the expression grammar starts with.
    BadToken,
    /// Tokens that do not form a well-formed expression.
    BadExpr,
    /// A malformed `if` / `for` / `trim` / `continue` header line.
    BadHeader,
    /// A `trim` block with an empty separator.
    EmptySeparator,
    /// Template nesting beyond the compiler's resource budget.
    TooDeep,
}

/// A fault while evaluating a compiled template against a binding
/// environment, or a zero batch size handed to the range splitter.
#[derive(Clone, Copy, Debug, PartialEq, Eq, Structural)]
pub enum EvalErr {
    /// An expression referenced a name the environment does not bind.
    Undeclared,
    /// An operator was applied to incompatible value kinds.
    KindMismatch,
    /// Division by zero inside an expression.
    DivByZero,
    /// An arithmetic result (or operand) outside the signed 64-bit range.
    NumOverflow,
    /// A batch size of zero handed to the range splitter.
    ZeroBatchSize,
}

/// A call rejected before any SQL is generated, to prevent unintended
/// full-table mutation or an empty statement.
#[derive(Clone, Copy, Debug, PartialEq, Eq, Structural)]
pub enum PolicyErr {
    /// An insert over an empty batch of records.
    EmptyBatch,
    /// An update or delete with an empty WHERE clause.
    EmptyWhere,
}

/// A fault while decoding a wire value into a domain type.
#[derive(Clone, Copy, Debug, PartialEq, Eq, Structural)]
pub enum DecodeErr {
    /// A binary payload too short for the type.
    ShortPayload,
    /// A text payload that does not parse as the type.
    BadText,
}

/// The library's error type: one of the kinds above.
#[derive(Clone, Copy, Debug, PartialEq, Eq, Structural)]
pub enum Error {
    Compile(CompileErr),
    Eval(EvalErr),
    Policy(PolicyErr),
    Decode(DecodeErr),
}

} // verus!
