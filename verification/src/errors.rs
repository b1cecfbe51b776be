use vstd::prelude::*;

verus! {

/// Overflow or domain failure in the fixed-point math.
#[derive(Clone, Copy, Debug, PartialEq, Eq, Structural)]
pub enum ArithmeticError {
    /// A tick index or sqrt price left the domain of the conversion tables.
    OutOfDomain,
    /// An intermediate integer operation would overflow.
    Overflow,
}

/// Failure while simulating a swap.
#[derive(Clone, Copy, Debug, PartialEq, Eq, Structural)]
pub enum SwapSimulationError {
    /// The fixed-point kernel reported an error.
    Math,
    /// The replica is internally inconsistent: the bitmap flags a tick as
    /// initialized but the tick table has no entry for it, or crossing a
    /// tick would underflow the active liquidity.
    CorruptedState,
}

/// Failure while decoding or applying an event log.
#[derive(Clone, Copy, Debug, PartialEq, Eq, Structural)]
pub enum EventLogError {
    /// The log's first topic is none of the known event signatures.
    InvalidEventSignature,
    /// The log carries no block number.
    LogBlockNumberNotFound,
    /// The log's topics or data do not match the event's fixed layout.
    AbiDecodeFailed,
    /// Applying the decoded event would overflow a liquidity counter.
    Arithmetic,
}

} // verus!
