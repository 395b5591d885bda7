//! The ways interpretation and tracing can fail.
use crate::data_value::ValueError;
use crate::ir::entities::{FuncRef, ValueRef};
use crate::ir::instructions::Opcode;
use crate::text::{unsigned_decimal, unsigned_text};
use vstd::prelude::*;

verus! {

/// The ways tracing can fail.
#[derive(Debug)]
pub enum TraceError {
    /// The native code generator refused the reconstructed function.
    CompilationFailed(String),
    /// The compiled trace could not be run.
    ExecutionFailed(String),
}

/// The mathematical content of a [`TraceError`].
pub ghost enum TraceErrorModel {
    CompilationFailed(Seq<char>),
    ExecutionFailed(Seq<char>),
}

impl View for TraceError {
    type V = TraceErrorModel;

    open spec fn view(&self) -> TraceErrorModel {
        match self {
            TraceError::CompilationFailed(m) => TraceErrorModel::CompilationFailed(m@),
            TraceError::ExecutionFailed(m) => TraceErrorModel::ExecutionFailed(m@),
        }
    }
}

impl TraceError {
    /// The error as a line of text.
    pub fn message(&self) -> (r: String)
        ensures
            r@ == match self@ {
                TraceErrorModel::CompilationFailed(m) => "trace compilation failed: "@ + m,
                TraceErrorModel::ExecutionFailed(m) => "trace execution failed: "@ + m,
            },
    {
        match self {
            TraceError::CompilationFailed(m) => String::from_str(
                "trace compilation failed: ",
            ).concat(m.as_str()),
            TraceError::ExecutionFailed(m) => String::from_str("trace execution failed: ").concat(
                m.as_str(),
            ),
        }
    }
}

/// The ways interpretation can fail.
#[derive(Debug)]
pub enum Trap {
    Unknown,
    /// The value is not of the kind that the text names.
    InvalidType(String, ValueRef),
    /// A block ended without a terminator.
    Unreachable,
    InvalidControlFlow(String),
    InvalidFunctionReference(FuncRef),
    InvalidFunctionName(String),
    TraceError(TraceError),
    /// The value was read before it was set.
    UnboundValue(ValueRef),
    /// The value was set a second time in one frame.
    Redefined(ValueRef),
    /// An operation on values failed.
    Value(ValueError),
    /// The interpreter does not handle the opcode.
    Unimplemented(Opcode),
    /// The step limit was reached before the call returned.
    StepLimit,
}

/// The mathematical content of a [`Trap`].
pub ghost enum TrapModel {
    Unknown,
    InvalidType(Seq<char>, ValueRef),
    Unreachable,
    InvalidControlFlow(Seq<char>),
    InvalidFunctionReference(FuncRef),
    InvalidFunctionName(Seq<char>),
    TraceError(TraceErrorModel),
    UnboundValue(ValueRef),
    Redefined(ValueRef),
    Value(ValueError),
    Unimplemented(Opcode),
    StepLimit,
}

impl View for Trap {
    type V = TrapModel;

    open spec fn view(&self) -> TrapModel {
        match self {
            Trap::Unknown => TrapModel::Unknown,
            Trap::InvalidType(m, v) => TrapModel::InvalidType(m@, *v),
            Trap::Unreachable => TrapModel::Unreachable,
            Trap::InvalidControlFlow(m) => TrapModel::InvalidControlFlow(m@),
            Trap::InvalidFunctionReference(f) => TrapModel::InvalidFunctionReference(*f),
            Trap::InvalidFunctionName(m) => TrapModel::InvalidFunctionName(m@),
            Trap::TraceError(e) => TrapModel::TraceError(e@),
            Trap::UnboundValue(v) => TrapModel::UnboundValue(*v),
            Trap::Redefined(v) => TrapModel::Redefined(*v),
            Trap::Value(e) => TrapModel::Value(*e),
            Trap::Unimplemented(o) => TrapModel::Unimplemented(*o),
            Trap::StepLimit => TrapModel::StepLimit,
        }
    }
}

/// The text of each kind of invalid control flow.
pub open spec fn arity_text() -> Seq<char> {
    "the values do not match the names in number"@
}

pub open spec fn not_tracing_text() -> Seq<char> {
    "no trace is being recorded"@
}

pub open spec fn already_tracing_text() -> Seq<char> {
    "a trace is being recorded already"@
}

pub open spec fn bad_trace_text() -> Seq<char> {
    "the recorded trace cannot be reconstructed"@
}

pub open spec fn no_runner_text() -> Seq<char> {
    "no native runner is attached"@
}

pub open spec fn pending_text() -> Seq<char> {
    "the interpreter waits for its native runner"@
}

pub open spec fn integer_text() -> Seq<char> {
    "integer"@
}

pub open spec fn boolean_or_integer_text() -> Seq<char> {
    "boolean or integer"@
}

/// The text of a trap.
pub open spec fn trap_text(t: TrapModel) -> Seq<char> {
    match t {
        TrapModel::Unknown => "unknown trap"@,
        TrapModel::InvalidType(m, v) => "invalid type for v"@ + unsigned_text(v.0 as u64)
            + ": expected "@ + m,
        TrapModel::Unreachable => "reached an unreachable statement"@,
        TrapModel::InvalidControlFlow(m) => "invalid control flow: "@ + m,
        TrapModel::InvalidFunctionReference(f) => "invalid function reference: fn"@
            + unsigned_text(f.0 as u64),
        TrapModel::InvalidFunctionName(m) => "invalid function name: "@ + m,
        TrapModel::TraceError(TraceErrorModel::CompilationFailed(m)) => "trace compilation failed: "@
            + m,
        TrapModel::TraceError(TraceErrorModel::ExecutionFailed(m)) => "trace execution failed: "@
            + m,
        TrapModel::UnboundValue(v) => "unbound value: v"@ + unsigned_text(v.0 as u64),
        TrapModel::Redefined(v) => "value defined twice: v"@ + unsigned_text(v.0 as u64),
        TrapModel::Value(_) => "invalid value"@,
        TrapModel::Unimplemented(_) => "unimplemented instruction"@,
        TrapModel::StepLimit => "step limit reached"@,
    }
}

impl Trap {
    /// The trap as a line of text; see [`trap_text`].
    pub fn message(&self) -> (r: String)
        ensures
            r@ == trap_text(self@),
    {
        match self {
            Trap::Unknown => String::from_str("unknown trap"),
            Trap::InvalidType(m, v) => {
                let mut out = String::from_str("invalid type for v");
                out.append(unsigned_decimal(v.0 as u64).as_str());
                out.append(": expected ");
                out.append(m.as_str());
                out
            },
            Trap::Unreachable => String::from_str("reached an unreachable statement"),
            Trap::InvalidControlFlow(m) => String::from_str("invalid control flow: ").concat(
                m.as_str(),
            ),
            Trap::InvalidFunctionReference(f) => String::from_str(
                "invalid function reference: fn",
            ).concat(unsigned_decimal(f.0 as u64).as_str()),
            Trap::InvalidFunctionName(m) => String::from_str("invalid function name: ").concat(
                m.as_str(),
            ),
            Trap::TraceError(e) => e.message(),
            Trap::UnboundValue(v) => String::from_str("unbound value: v").concat(
                unsigned_decimal(v.0 as u64).as_str(),
            ),
            Trap::Redefined(v) => String::from_str("value defined twice: v").concat(
                unsigned_decimal(v.0 as u64).as_str(),
            ),
            Trap::Value(_) => String::from_str("invalid value"),
            Trap::Unimplemented(_) => String::from_str("unimplemented instruction"),
            Trap::StepLimit => String::from_str("step limit reached"),
        }
    }

    pub fn arity() -> (r: Trap)
        ensures
            r@ == TrapModel::InvalidControlFlow(arity_text()),
    {
        Trap::InvalidControlFlow(String::from_str("the values do not match the names in number"))
    }

    pub fn not_tracing() -> (r: Trap)
        ensures
            r@ == TrapModel::InvalidControlFlow(not_tracing_text()),
    {
        Trap::InvalidControlFlow(String::from_str("no trace is being recorded"))
    }

    pub fn already_tracing() -> (r: Trap)
        ensures
            r@ == TrapModel::InvalidControlFlow(already_tracing_text()),
    {
        Trap::InvalidControlFlow(String::from_str("a trace is being recorded already"))
    }

    pub fn pending() -> (r: Trap)
        ensures
            r@ == TrapModel::InvalidControlFlow(pending_text()),
    {
        Trap::InvalidControlFlow(String::from_str("the interpreter waits for its native runner"))
    }

    pub fn bad_trace() -> (r: Trap)
        ensures
            r@ == TrapModel::TraceError(TraceErrorModel::CompilationFailed(bad_trace_text())),
    {
        Trap::TraceError(
            TraceError::CompilationFailed(
                String::from_str("the recorded trace cannot be reconstructed"),
            ),
        )
    }

    pub fn no_runner() -> (r: Trap)
        ensures
            r@ == TrapModel::TraceError(TraceErrorModel::CompilationFailed(no_runner_text())),
    {
        Trap::TraceError(
            TraceError::CompilationFailed(String::from_str("no native runner is attached")),
        )
    }

    pub fn no_runner_to_execute() -> (r: Trap)
        ensures
            r@ == TrapModel::TraceError(TraceErrorModel::ExecutionFailed(no_runner_text())),
    {
        Trap::TraceError(
            TraceError::ExecutionFailed(String::from_str("no native runner is attached")),
        )
    }

    pub fn not_an_integer(v: ValueRef) -> (r: Trap)
        ensures
            r@ == TrapModel::InvalidType(integer_text(), v),
    {
        Trap::InvalidType(String::from_str("integer"), v)
    }

    pub fn not_a_condition(v: ValueRef) -> (r: Trap)
        ensures
            r@ == TrapModel::InvalidType(boolean_or_integer_text(), v),
    {
        Trap::InvalidType(String::from_str("boolean or integer"), v)
    }
}

} // verus!
