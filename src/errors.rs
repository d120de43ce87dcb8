use vstd::prelude::*;

verus! {

/// The kinds of failure a request can end in, one per error class. Each has
/// its own numeric code, so that callers can branch on it.
#[derive(Debug, Clone, Copy, PartialEq, Eq, Structural)]
pub enum RpcError {
    Parse,
    KeyParse,
    NotFound,
    Internal,
    Compile,
    /// The engine could not run the transaction.
    EngineFailed,
    /// The transaction ran and its outcome was a failure.
    OutcomeRejected,
}

/// The numeric code of each error kind.
pub open spec fn code_of(e: RpcError) -> int {
    match e {
        RpcError::Parse => -32700,
        RpcError::KeyParse => -32602,
        RpcError::NotFound => 1,
        RpcError::Internal => 555,
        RpcError::Compile => -32600,
        RpcError::EngineFailed => 666,
        RpcError::OutcomeRejected => 33,
    }
}

impl RpcError {
    /// The numeric code sent to the caller.
    pub fn code(&self) -> (r: i64)
        ensures
            r == code_of(*self),
    {
        match self {
            RpcError::Parse => -32700,
            RpcError::KeyParse => -32602,
            RpcError::NotFound => 1,
            RpcError::Internal => 555,
            RpcError::Compile => -32600,
            RpcError::EngineFailed => 666,
            RpcError::OutcomeRejected => 33,
        }
    }
}

/// No two error kinds share a code.
pub proof fn lemma_codes_distinct(a: RpcError, b: RpcError)
    requires
        a != b,
    ensures
        code_of(a) != code_of(b),
{
}

} // verus!
