//! The ways in which a call into the bridge can fail.

use vstd::prelude::*;

verus! {

/// Why a call into the bridge or into a router was turned down. A call that is
/// turned down leaves no trace: no state changes and no action is issued.
#[derive(Clone, Copy, Debug, PartialEq, Eq, Structural)]
pub enum BridgeError {
    /// The input does not decode to a valid call.
    MalformedInput,
    /// The caller's wrapped balance or allowance does not cover the storage
    /// stake of a new router account.
    InsufficientFunds,
    /// The router account was initialized before.
    AlreadyInitialized,
    /// No promise is scheduled under the nonce: it never was, or it has been
    /// executed.
    NotFound,
}

impl BridgeError {
    /// A short text that names the error.
    pub fn as_str(&self) -> (text: &'static str)
        ensures
            text@ == match *self {
                BridgeError::MalformedInput => "ERR_MALFORMED_INPUT"@,
                BridgeError::InsufficientFunds => "ERR_INSUFFICIENT_FUNDS"@,
                BridgeError::AlreadyInitialized => "ERR_ALREADY_INITIALIZED"@,
                BridgeError::NotFound => "ERR_NOT_FOUND"@,
            },
    {
        match self {
            BridgeError::MalformedInput => "ERR_MALFORMED_INPUT",
            BridgeError::InsufficientFunds => "ERR_INSUFFICIENT_FUNDS",
            BridgeError::AlreadyInitialized => "ERR_ALREADY_INITIALIZED",
            BridgeError::NotFound => "ERR_NOT_FOUND",
        }
    }
}

} // verus!
