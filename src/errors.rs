//! Reasons for which a frame or a transaction stops.
use vstd::prelude::*;

verus! {

/// An execution error: the failing frame stops, consumes its gas and is reverted.
#[derive(Clone, Copy, PartialEq, Eq, Debug, Structural)]
pub enum ExitError {
    StackUnderflow,
    StackOverflow,
    InvalidJump,
    InvalidRange,
    DesignatedInvalid,
    CallTooDeep,
    CreateCollision,
    CreateContractLimit,
    InvalidCode,
    OutOfOffset,
    OutOfGas,
    OutOfFund,
    PCUnderflow,
    StaticCallViolation,
}

/// How a frame ended successfully.
#[derive(Clone, Copy, PartialEq, Eq, Debug, Structural)]
pub enum ExitSucceed {
    Stopped,
    Returned,
    Suicided,
}

/// A broken invariant of the machine itself rather than of the program it runs.
#[derive(Clone, Copy, PartialEq, Eq, Debug, Structural)]
pub enum ExitFatal {
    CallErrorAsFatal,
    NotSupported,
    UnhandledInterrupt,
}

/// The terminal outcome of a frame.
#[derive(Clone, Copy, PartialEq, Eq, Debug, Structural)]
pub enum ExitReason {
    Succeed(ExitSucceed),
    Revert,
    Error(ExitError),
    Fatal(ExitFatal),
}

} // verus!
