use vstd::prelude::*;

verus! {

/// Recoverable failures of a host operation. A failed operation leaves the
/// session state exactly as it was before the call.
#[derive(Clone, Copy, Debug, PartialEq, Eq, Structural)]
pub enum HostError {
    MemoryAccessViolation,
    InvalidRegisterId,
    BadUtf8,
    BadUtf16,
    ProhibitedInView,
    InvalidPromiseIndex,
    CannotAppendActionToJointPromise,
    InvalidPublicKey,
    InvalidIteratorId,
    IteratorWasInvalidated,
    EmptyMethodName,
    GasLimitExceeded,
    GasExceeded,
    IntegerOverflow,
    GuestPanic,
    BalanceExceeded,
    CannotReturnJointPromise,
    InvalidPromiseResultIndex,
}

} // verus!
