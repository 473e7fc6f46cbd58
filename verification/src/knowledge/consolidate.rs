//! Background consolidation of sessions into notes. A durable claim precedes
//! every provider call, so that a crash never repeats a call that may already
//! have been charged.

use crate::knowledge::consolidate::lease::{is_free, Registry, SessionLease};
use vstd::prelude::*;

pub mod attempt;
pub mod delete;
pub mod lease;
pub mod pass;
pub mod recovery;
pub mod settlement;
pub mod state;
pub mod steps;

verus! {

/// Takes a session for as long as it is worked on, unless it has an owner.
pub fn try_acquire_session_lease(
    registry: &mut Registry,
    session_id: &str,
    id_check: Result<(), String>,
) -> (r: Result<SessionLease, String>)
    ensures
        r is Ok <==> id_check is Ok && is_free(old(registry)@, session_id@),
        r matches Ok(lease) ==> lease@ == session_id@ && final(registry)@ == old(registry)@.insert(
            session_id@,
        ),
        r matches Err(e) ==> final(registry)@ == old(registry)@ && (if id_check is Err {
            r == Err::<SessionLease, String>(id_check->Err_0)
        } else {
            e@ == "session "@ + session_id@ + " consolidation is active in this process"@
        }),
{
    lease::try_acquire(registry, session_id, id_check)
}

} // verus!
