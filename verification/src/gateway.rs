//! Dispatch-gateway decisions.
//!
//! The call surface is resolved once per process: either the host links
//! the engine's shared library directly, or the host is itself loaded by
//! the engine and fetches a table of function pointers at first use.
//! Fetching the table and probing the running engine are host glue; the
//! decisions — when resolution may proceed and when a dispatch may be
//! made — are fixed here.

use vstd::prelude::*;

use crate::error::SicstusRsError;

verus! {

/// How the process reaches the engine's call surface.
#[derive(Debug, Clone, Copy, PartialEq, Eq, Structural)]
pub enum Linkage {
    /// The engine's shared library is linked directly; calls go straight
    /// to its symbols and no table is fetched.
    Direct,
    /// The host was loaded by the engine and must fetch the engine's
    /// dispatch table.
    Loaded,
}

/// Decides resolution.  Direct linkage resolves unconditionally.  In
/// loaded mode the engine must already report itself initialized — the
/// gateway cannot be used before the engine's main thread has started —
/// and failure to resolve is fatal for the caller, never degraded.
pub fn resolve_gateway(mode: Linkage, engine_running: bool) -> (r: Result<
    Linkage,
    SicstusRsError,
>)
    ensures
        mode is Direct ==> r == Ok::<Linkage, SicstusRsError>(Linkage::Direct),
        mode is Loaded && engine_running ==> r == Ok::<Linkage, SicstusRsError>(Linkage::Loaded),
        mode is Loaded && !engine_running ==> (r matches Err(
            SicstusRsError::InitializationError(_),
        )),
{
    match mode {
        Linkage::Direct => Ok(Linkage::Direct),
        Linkage::Loaded => {
            if engine_running {
                Ok(Linkage::Loaded)
            } else {
                Err(
                    SicstusRsError::InitializationError(
                        String::from_str("the engine runtime is not initialized"),
                    ),
                )
            }
        },
    }
}

/// Decides one dispatch through a fetched table: the entry must be
/// present, or the call fails at once rather than jump through a missing
/// function pointer (an engine version mismatch).
pub fn dispatch_decision(entry_present: bool) -> (r: Result<(), SicstusRsError>)
    ensures
        entry_present ==> r == Ok::<(), SicstusRsError>(()),
        !entry_present ==> (r matches Err(SicstusRsError::InitializationError(_))),
{
    if entry_present {
        Ok(())
    } else {
        Err(
            SicstusRsError::InitializationError(
                String::from_str("the dispatch table lacks the requested entry"),
            ),
        )
    }
}

} // verus!
