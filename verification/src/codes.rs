//! Translation of the engine's raw integer return codes into the typed
//! error taxonomy.
//!
//! The C-level surface uses three conventions: a boolean-like code where
//! nonzero means success and zero means failure, a three-way code
//! (success / failure / error) used by the query protocol, and a packed
//! code space for stream operations where a negative value is the failure
//! sentinel.  One decoder per convention and per query operation lives
//! here; nothing else in the crate inspects raw codes.

use vstd::prelude::*;

use crate::error::PrologError;

verus! {

/// Three-way return code: the operation succeeded.
pub const SP_SUCCESS: i32 = 1;

/// Three-way return code: the operation failed (no solution); not an error.
pub const SP_FAILURE: i32 = 0;

/// Three-way return code: the operation raised an engine error.
pub const SP_ERROR: i32 = -1;

/// Decodes a boolean-like code: nonzero is success, zero is failure with no
/// further detail, reported as a conversion error carrying `context`.
pub fn decode_success_code(ret: i32, context: String) -> (r: Result<(), PrologError>)
    ensures
        ret != 0 ==> r == Ok::<(), PrologError>(()),
        ret == 0 ==> r == Err::<(), PrologError>(PrologError::TermConversionError(context)),
{
    if ret == 0 {
        Err(PrologError::TermConversionError(context))
    } else {
        Ok(())
    }
}

/// Decodes the three-way code returned when advancing a query.
///
/// `err_message` is the engine's last error message, consulted only when the
/// code is [`SP_ERROR`].
pub fn decode_next_solution_code(ret: i32, err_message: String) -> (r: Result<(), PrologError>)
    ensures
        ret == SP_SUCCESS ==> r == Ok::<(), PrologError>(()),
        ret == SP_FAILURE ==> r == Err::<(), PrologError>(PrologError::NoMoreSolutions),
        ret == SP_ERROR ==> r == Err::<(), PrologError>(PrologError::NextSolutionError(err_message)),
        ret != SP_SUCCESS && ret != SP_FAILURE && ret != SP_ERROR ==> r == Err::<(), PrologError>(
            PrologError::UnexpectedReturnCode(ret),
        ),
{
    if ret == SP_ERROR {
        Err(PrologError::NextSolutionError(err_message))
    } else if ret == SP_FAILURE {
        Err(PrologError::NoMoreSolutions)
    } else if ret == SP_SUCCESS {
        Ok(())
    } else {
        Err(PrologError::UnexpectedReturnCode(ret))
    }
}

/// Decodes the three-way code returned when committing (cutting) a query.
pub fn decode_cut_code(ret: i32, err_message: String) -> (r: Result<(), PrologError>)
    ensures
        ret == SP_SUCCESS ==> r == Ok::<(), PrologError>(()),
        ret == SP_FAILURE ==> r == Err::<(), PrologError>(PrologError::CutQueryFailure),
        ret == SP_ERROR ==> r == Err::<(), PrologError>(PrologError::CutQueryError(err_message)),
        ret != SP_SUCCESS && ret != SP_FAILURE && ret != SP_ERROR ==> r == Err::<(), PrologError>(
            PrologError::UnexpectedReturnCode(ret),
        ),
{
    if ret == SP_ERROR {
        Err(PrologError::CutQueryError(err_message))
    } else if ret == SP_FAILURE {
        Err(PrologError::CutQueryFailure)
    } else if ret == SP_SUCCESS {
        Ok(())
    } else {
        Err(PrologError::UnexpectedReturnCode(ret))
    }
}

/// Decodes the code returned when closing a query.  Closing knows no
/// "failure" outcome: anything but success or error is outside the protocol.
pub fn decode_close_code(ret: i32, err_message: String) -> (r: Result<(), PrologError>)
    ensures
        ret == SP_SUCCESS ==> r == Ok::<(), PrologError>(()),
        ret == SP_ERROR ==> r == Err::<(), PrologError>(PrologError::CloseQueryError(err_message)),
        ret != SP_SUCCESS && ret != SP_ERROR ==> r == Err::<(), PrologError>(
            PrologError::UnexpectedReturnCode(ret),
        ),
{
    if ret == SP_ERROR {
        Err(PrologError::CloseQueryError(err_message))
    } else if ret == SP_SUCCESS {
        Ok(())
    } else {
        Err(PrologError::UnexpectedReturnCode(ret))
    }
}

/// Decodes a stream-operation code: a negative value is the failure
/// sentinel and is wrapped raw; anything else passes through.
pub fn decode_io_code(code: i32) -> (r: Result<i32, PrologError>)
    ensures
        code >= 0 ==> r == Ok::<i32, PrologError>(code),
        code < 0 ==> r == Err::<i32, PrologError>(PrologError::UnexpectedReturnCode(code)),
{
    if code < 0 {
        Err(PrologError::UnexpectedReturnCode(code))
    } else {
        Ok(code)
    }
}

} // verus!
