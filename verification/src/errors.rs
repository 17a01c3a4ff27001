use vstd::prelude::*;

verus! {

/// Why a program was refused by the compiler.
#[derive(Debug, Clone, Copy, PartialEq, Eq)]
pub enum CompilerError {
    UnexpectedArg,
    UnfindedVar,
    ExpectedToken,
    UnknownFunc,
}

/// Why an operation of the machine failed.
#[derive(Debug, Clone, Copy, PartialEq, Eq)]
pub enum VMError {
    BadOperand,
    ZeroDiv,
    NotOperation,
    CantIter,
    UnExpectedType,
    CantIndex,
    NeedMoreArgs,
    BadArgument,
    TooManyArgs,
    WriteError,
    FuncErr,
    /// The program drove the machine into a state it cannot continue from
    /// (an empty operand stack, a return without a caller, a jump or slot
    /// index out of range, an unknown builtin number).
    InvalidState,
    /// Floating-point values are not computed by this library.
    FloatUnsupported,
}

} // verus!
