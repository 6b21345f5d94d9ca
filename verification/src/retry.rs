//! When a failed attempt is repeated.
use crate::gateway;
use crate::gateway::{is_transport_error, operation_error, ErrorCause, ErrorKind, GatewayError};
use crate::text::concat3;
use vstd::prelude::*;

verus! {

/// Every operation is attempted twice at most.
#[derive(Clone, Copy, Debug, PartialEq, Eq, Structural)]
pub enum Attempt {
    First,
    Second,
}

/// Whether a connection that could not be made is tried again: once, where the connection
/// itself failed.
pub fn retries_creation(attempt: Attempt, error: &GatewayError) -> (r: bool)
    ensures
        r == (attempt == Attempt::First && error.kind == ErrorKind::Transport),
{
    attempt == Attempt::First && error.kind == ErrorKind::Transport
}

/// What follows an operation on a connection.
pub enum OperationStep<T> {
    Done(T),
    /// Drop the connection, make another one and try again.
    Retry,
    /// Give up. The connection is dropped where `discard` says so.
    Fail { error: GatewayError, discard: bool },
}

/// What follows an operation. An operation whose connection broke is repeated once on a new
/// one; every other failure is final, and so is every failure of the second attempt, behind
/// which the connection is dropped.
pub fn after_operation<T>(attempt: Attempt, result: Result<T, (ErrorCause, String)>) -> (r:
    OperationStep<T>)
    ensures
        match result {
            Ok(t) => r == OperationStep::Done(t),
            Err((cause, message)) => if attempt == Attempt::First && gateway::means_transport(
                cause,
            ) {
                r is Retry
            } else {
                r matches OperationStep::Fail { error, discard } && error.kind
                    == gateway::failure_kind(cause) && error.source@ == message@ && discard == (
                attempt == Attempt::Second)
            },
        },
        attempt == Attempt::Second ==> !(r is Retry),
{
    match result {
        Ok(t) => OperationStep::Done(t),
        Err((cause, message)) => {
            if attempt == Attempt::First && is_transport_error(&cause) {
                OperationStep::Retry
            } else {
                OperationStep::Fail {
                    error: operation_error(&cause, message),
                    discard: attempt == Attempt::Second,
                }
            }
        },
    }
}

/// What follows an operation on a shared connection.
pub enum SharedStep<T> {
    Done(T),
    /// Invalidate the connection and try again.
    InvalidateAndRetry,
    /// Give up. The connection is invalidated where `invalidate` says so.
    Fail { error: GatewayError, invalidate: bool },
}

/// What follows an operation on a shared connection. A connection that broke is invalidated in
/// any case; the operation is repeated once.
pub fn after_shared<T>(attempt: Attempt, result: Result<T, GatewayError>) -> (r: SharedStep<T>)
    ensures
        match result {
            Ok(t) => r == SharedStep::Done(t),
            Err(e) => if attempt == Attempt::First && e.kind == ErrorKind::Transport {
                r is InvalidateAndRetry
            } else {
                r == (SharedStep::<T>::Fail {
                    error: e,
                    invalidate: e.kind == ErrorKind::Transport,
                })
            },
        },
        attempt == Attempt::Second ==> !(r is InvalidateAndRetry),
{
    match result {
        Ok(t) => SharedStep::Done(t),
        Err(e) => {
            let broken = e.kind == ErrorKind::Transport;
            if attempt == Attempt::First && broken {
                SharedStep::InvalidateAndRetry
            } else {
                SharedStep::Fail { error: e, invalidate: broken }
            }
        },
    }
}

/// What follows the checkout of a pooled handle.
pub enum HandleStep {
    Use,
    Retry,
    /// The handle is dead: drop it and try again.
    DiscardAndRetry,
    /// Give up. A handle that is dead is dropped where `discard` says so.
    Fail { error: GatewayError, discard: bool },
}

/// What follows the checkout of a pooled handle: the handle's liveness, or why there is none.
pub fn after_checkout(attempt: Attempt, alive: Result<bool, GatewayError>, label: &str) -> (r:
    HandleStep)
    ensures
        match alive {
            Ok(true) => r is Use,
            Ok(false) => if attempt == Attempt::First {
                r is DiscardAndRetry
            } else {
                r matches HandleStep::Fail { error, discard } && discard && error.kind
                    == ErrorKind::Transport && error.source@ == "direct SSH handle for "@ + label@
                    + " is not alive after refresh"@
            },
            Err(e) => if attempt == Attempt::First && e.kind == ErrorKind::Transport {
                r is Retry
            } else {
                r == (HandleStep::Fail { error: e, discard: false })
            },
        },
        attempt == Attempt::Second ==> r is Use || r is Fail,
{
    match alive {
        Ok(true) => HandleStep::Use,
        Ok(false) => if attempt == Attempt::First {
            HandleStep::DiscardAndRetry
        } else {
            HandleStep::Fail {
                error: GatewayError::transport(
                    concat3("direct SSH handle for ", label, " is not alive after refresh"),
                ),
                discard: true,
            }
        },
        Err(e) => if attempt == Attempt::First && e.kind == ErrorKind::Transport {
            HandleStep::Retry
        } else {
            HandleStep::Fail { error: e, discard: false }
        },
    }
}

} // verus!
