//! Errors of the operations and cooperative cancellation.

use vstd::prelude::*;

verus! {

/// Why an operation did not give a result.
#[derive(Debug)]
pub enum OperationError {
    /// The service could not perform the operation.
    ServiceError { description: String },
    /// The operation was stopped from outside.
    Cancelled,
}

/// Result of an operation.
pub type OperationResult<T> = Result<T, OperationError>;

/// The result is a service error with the given text.
pub open spec fn failed<T>(r: OperationResult<T>, text: Seq<char>) -> bool {
    r matches Err(OperationError::ServiceError { description }) && description@ == text
}

/// The result is a cancellation.
pub open spec fn cancelled<T>(r: OperationResult<T>) -> bool {
    r matches Err(OperationError::Cancelled)
}

impl OperationError {
    /// A service error with a text.
    pub fn service_error(description: &str) -> (error: Self)
        ensures
            error matches OperationError::ServiceError { description: text } && text@
                == description@,
    {
        OperationError::ServiceError { description: description.to_owned() }
    }

    /// A service error with an owned text.
    pub fn service_error_owned(description: String) -> (error: Self)
        ensures
            error matches OperationError::ServiceError { description: text } && text@
                == description@,
    {
        OperationError::ServiceError { description }
    }
}

/// The stop flag can be asked at any time.
pub open spec fn can_poll<S: Fn() -> bool>(is_stopped: &S) -> bool {
    is_stopped.requires(())
}

/// The stop flag may be seen raised.
pub open spec fn may_stop<S: Fn() -> bool>(is_stopped: &S) -> bool {
    is_stopped.ensures((), true)
}

/// The stop flag is raised whenever it is asked.
pub open spec fn always_stopped<S: Fn() -> bool>(is_stopped: &S) -> bool {
    forall|b: bool| is_stopped.ensures((), b) ==> b
}

/// Cancel the operation when the stop flag is raised.
pub fn check_process_stopped<S: Fn() -> bool>(is_stopped: &S) -> (r: OperationResult<()>)
    requires
        can_poll(is_stopped),
    ensures
        r is Ok || cancelled(r),
        r is Ok ==> is_stopped.ensures((), false),
        cancelled(r) ==> may_stop(is_stopped),
        always_stopped(is_stopped) ==> cancelled(r),
{
    if is_stopped() {
        Err(OperationError::Cancelled)
    } else {
        Ok(())
    }
}

} // verus!
