//! Liveness of a process identifier.  The answer depends on the operating
//! system's state at the moment of the call — identifiers are recycled, so
//! nothing can be promised of the result; callers that track a particular
//! process lifetime must correlate it themselves.

use vstd::prelude::*;

verus! {

/// Relies on `process_alive::state`: reports whether the operating system
/// currently knows a live, non-terminated process under this identifier.
#[verifier::external_body]
pub fn is_process_running(pid: u32) -> bool {
    process_alive::state(process_alive::Pid::from(pid)) == process_alive::State::Alive
}

} // verus!
