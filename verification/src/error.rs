//! The ways a bridge operation is refused.
use vstd::prelude::*;

verus! {

/// Why an operation was refused. A refused operation leaves the bridge
/// unchanged.
#[derive(Clone, Copy, Debug, PartialEq, Eq, Structural)]
pub enum BridgeError {
    /// `initialize` was called on a bridge that already has an admin.
    AlreadyInitialized,
    /// An admin operation was called before `initialize`.
    NotInitialized,
    /// A fee above 10000 basis points (100%) was requested.
    FeeTooHigh,
    /// Funding was requested while the bridge is paused.
    ContractPaused,
    /// No operation was proposed under the given identifier.
    OpNotFound,
    /// The operation to execute was cancelled.
    OpCancelled,
    /// The operation to execute is not ready yet.
    TimelockNotElapsed,
    /// The operation to cancel was already cancelled.
    AlreadyCancelled,
    /// More fees were requested than have accumulated.
    InsufficientFees,
    /// A fee, a fee total or a ready time does not fit its integer type.
    ArithmeticOverflow,
}

/// The text with which the contract aborts on each refusal.
pub open spec fn error_message(e: BridgeError) -> Seq<char> {
    match e {
        BridgeError::AlreadyInitialized => "already initialized"@,
        BridgeError::NotInitialized => "not initialized"@,
        BridgeError::FeeTooHigh => "fee_bps must be <= 10000"@,
        BridgeError::ContractPaused => "contract is paused"@,
        BridgeError::OpNotFound => "op not found"@,
        BridgeError::OpCancelled => "op cancelled"@,
        BridgeError::TimelockNotElapsed => "timelock not elapsed"@,
        BridgeError::AlreadyCancelled => "already cancelled"@,
        BridgeError::InsufficientFees => "insufficient accumulated fees"@,
        BridgeError::ArithmeticOverflow => "arithmetic overflow"@,
    }
}

impl BridgeError {
    /// The text with which the contract aborts on this refusal.
    pub fn message(&self) -> (m: &'static str)
        ensures
            m@ == error_message(*self),
    {
        match self {
            BridgeError::AlreadyInitialized => "already initialized",
            BridgeError::NotInitialized => "not initialized",
            BridgeError::FeeTooHigh => "fee_bps must be <= 10000",
            BridgeError::ContractPaused => "contract is paused",
            BridgeError::OpNotFound => "op not found",
            BridgeError::OpCancelled => "op cancelled",
            BridgeError::TimelockNotElapsed => "timelock not elapsed",
            BridgeError::AlreadyCancelled => "already cancelled",
            BridgeError::InsufficientFees => "insufficient accumulated fees",
            BridgeError::ArithmeticOverflow => "arithmetic overflow",
        }
    }
}

} // verus!
